use vstd::prelude::*;
use crate::code::{InputError, parse_spec};
use crate::session::{
    Input, Phase, Role, Session, SessionView, Step, is_terminal, transition,
};

verus! {

/// The sessions that this process runs, by id. A session enters when it
/// starts and leaves with its terminal event; ids are never reused.
#[derive(Debug)]
pub struct App {
    sessions: Vec<Option<Session>>,
}

/// The answer of the registry to one input for one session.
#[derive(Debug)]
pub struct Update {
    pub step: Step,
    /// The session, when this input ended it: a completed receiver holds
    /// the file here.
    pub ended: Option<Session>,
}

/// The state of the session in a slot, if one runs there.
pub open spec fn slot_view(o: Option<Session>) -> Option<SessionView> {
    match o {
        Some(s) => Some(s@),
        None => None,
    }
}

impl View for App {
    type V = Seq<Option<SessionView>>;

    closed spec fn view(&self) -> Seq<Option<SessionView>> {
        self.sessions@.map_values(|o: Option<Session>| slot_view(o))
    }
}

/// A session that has just started and not yet heard from the server.
pub open spec fn fresh(role: Role, total: u64) -> SessionView {
    SessionView {
        role,
        phase: Phase::Connecting,
        retried: false,
        done: 0,
        total,
        file: Seq::empty(),
    }
}

impl App {
    /// Every running session is well formed and has not ended.
    pub open spec fn wf(&self) -> bool {
        forall|i: int|
            0 <= i < self@.len() && (#[trigger] self@[i]) is Some ==> self@[i]->0.wf()
                && !is_terminal(self@[i]->0.phase)
    }

    /// No session yet.
    pub fn create() -> (r: App)
        ensures
            r@.len() == 0,
            r.wf(),
    {
        let r = App { sessions: Vec::new() };
        proof {
            assert(r@ =~= Seq::<Option<SessionView>>::empty());
        }
        r
    }

    /// Whether session `id` is running.
    pub fn is_running(&self, id: usize) -> (r: bool)
        ensures
            r == (id < self@.len() && self@[id as int] is Some),
    {
        id < self.sessions.len() && self.sessions[id].is_some()
    }

    fn add(&mut self, s: Session) -> (id: usize)
        requires
            old(self).wf(),
            s@.wf(),
            !is_terminal(s@.phase),
        ensures
            final(self).wf(),
            id == old(self)@.len(),
            final(self)@ == old(self)@.push(Some(s@)),
    {
        let id = self.sessions.len();
        let ghost before = self.sessions@;
        self.sessions.push(Some(s));
        proof {
            assert(self@ =~= before.map_values(|o: Option<Session>| slot_view(o)).push(Some(s@)));
        }
        id
    }

    /// Starts sending a file of `size` bytes; an empty file is refused.
    pub fn start_send(&mut self, size: u64) -> (r: Result<usize, InputError>)
        requires
            old(self).wf(),
        ensures
            final(self).wf(),
            size == 0 <==> r is Err,
            r matches Err(e) ==> e == InputError::EmptyFile,
            r is Err ==> final(self)@ == old(self)@,
            r matches Ok(id) ==> id == old(self)@.len() && final(self)@ == old(self)@.push(
                Some(fresh(Role::Sender, size)),
            ),
    {
        match Session::sender(size) {
            Ok(s) => Ok(self.add(s)),
            Err(e) => Err(e),
        }
    }

    /// Starts receiving with the code `code`; a text that is not a code is
    /// refused before any connection is made.
    pub fn start_receive(&mut self, code: &str) -> (r: Result<usize, InputError>)
        requires
            old(self).wf(),
        ensures
            final(self).wf(),
            parse_spec(code@) is None <==> r is Err,
            r matches Err(e) ==> e == InputError::MalformedCode,
            r is Err ==> final(self)@ == old(self)@,
            r matches Ok(id) ==> id == old(self)@.len() && final(self)@ == old(self)@.push(
                Some(fresh(Role::Receiver, 0)),
            ),
    {
        match Session::receiver(code) {
            Ok(s) => Ok(self.add(s)),
            Err(e) => Err(e),
        }
    }

    /// Hands `input` to session `id`. Nothing happens for an id that is not
    /// running; a session whose input ends it leaves the registry and is
    /// handed back.
    pub fn update(&mut self, id: usize, input: Input) -> (r: Option<Update>)
        requires
            old(self).wf(),
        ensures
            final(self).wf(),
            final(self)@.len() == old(self)@.len(),
            !(id < old(self)@.len() && old(self)@[id as int] is Some) ==> (r is None
                && final(self)@ == old(self)@),
            (id < old(self)@.len() && old(self)@[id as int] is Some) ==> ({
                let (t, a, evs) = transition(old(self)@[id as int]->0, input);
                &&& r is Some
                &&& r->0.step.action == a
                &&& r->0.step.events@ == evs
                &&& is_terminal(t.phase) ==> (final(self)@ == old(self)@.update(id as int, None)
                    && r->0.ended is Some && r->0.ended->0@ == t)
                &&& !is_terminal(t.phase) ==> (final(self)@ == old(self)@.update(
                    id as int,
                    Some(t),
                ) && r->0.ended is None)
            }),
    {
        if id >= self.sessions.len() {
            return None;
        }
        let ghost before = self.sessions@;
        let ghost old_view = self@;
        let slot = self.sessions.remove(id);
        match slot {
            None => {
                self.sessions.insert(id, None);
                proof {
                    assert(self.sessions@ =~= before);
                }
                None
            },
            Some(mut s) => {
                proof {
                    assert(slot_view(before[id as int]) == old_view[id as int]);
                }
                let step = s.step(input);
                if matches!(s.phase, Phase::Completed | Phase::Failed(_) | Phase::Aborted) {
                    self.sessions.insert(id, None);
                    proof {
                        assert(self.sessions@ =~= before.update(id as int, None));
                        assert(self@ =~= old_view.update(id as int, None));
                    }
                    Some(Update { step, ended: Some(s) })
                } else {
                    let ghost sv = s@;
                    self.sessions.insert(id, Some(s));
                    proof {
                        assert(self.sessions@ =~= before.update(id as int, Some(s)));
                        assert(self@ =~= old_view.update(id as int, Some(sv)));
                    }
                    Some(Update { step, ended: None })
                }
            },
        }
    }
}

} // verus!
