use vstd::prelude::*;
use crate::code::{InputError, parse_code, parse_spec};

verus! {

/// Which end of the wormhole a session is.
#[derive(Debug, Clone, Copy, PartialEq, Eq, Structural)]
pub enum Role {
    Sender,
    Receiver,
}

/// How the bulk bytes flow once transit is negotiated.
#[derive(Debug, Clone, Copy, PartialEq, Eq, Structural)]
pub enum Transport {
    Direct,
    Relay,
}

/// Why a session ended in failure.
#[derive(Debug, Clone, Copy, PartialEq, Eq, Structural)]
pub enum FailReason {
    /// The code handed out by the broker, or the one given, is not a code.
    MalformedCode,
    BrokerUnreachable,
    /// The nameplate is unknown, already claimed, or expired.
    NameplateUnavailable,
    /// Key confirmation failed: wrong code or active tampering.
    AuthenticationFailed,
    /// The peer never offered a file.
    NoOffer,
    NoCommonTransport,
    NegotiationTimeout,
    IntegrityViolation,
    SizeMismatch,
    ConnectionLost,
    ProtocolError,
}

/// A failure as the wormhole library reports it, one variant per kind of
/// error that it tells apart.
#[derive(Debug, Clone, Copy, PartialEq, Eq, Structural)]
pub enum Fault {
    /// The connection to the rendezvous server could not be opened or broke.
    ServerIo,
    /// The rendezvous server answered with an error message.
    ServerRefused,
    /// The nameplate of the code is not claimed on the rendezvous server.
    NameplateUnclaimed,
    /// The wormhole library refused the code.
    CodeRefused,
    /// The rendezvous server or the peer broke the message protocol.
    Protocol,
    /// Key confirmation failed.
    PakeFailed,
    /// A message or a record could not be decrypted.
    Crypto,
    /// A record arrived with an unexpected nonce.
    Nonce,
    /// The checksum of the received file is wrong.
    Checksum,
    /// The peer sent a different number of bytes than it announced.
    FileSize,
    /// The two sides share no transit ability, or their hints are wrong.
    TransitProtocol,
    /// All transit handshakes failed or timed out.
    TransitHandshake,
    /// A socket failed during the transfer.
    Io,
    /// The peer sent no file offer.
    NoOffer,
}

/// Where a session stands.
#[derive(Debug, Clone, Copy, PartialEq, Eq, Structural)]
pub enum Phase {
    /// Waiting for the rendezvous server.
    Connecting,
    /// Sender: the code is out, waiting for the receiver to join.
    AwaitingPeer,
    /// Receiver: keyed with the sender, waiting for its file offer.
    AwaitingOffer,
    /// Receiver: the offer is shown, waiting for the shell to decide.
    OfferPending,
    /// Bytes are moving.
    Transferring,
    Completed,
    Failed(FailReason),
    Aborted,
}

/// What the driver of a session does next.
#[derive(Debug, Clone, Copy, PartialEq, Eq, Structural)]
pub enum Action {
    /// Nothing new: wait for the next input.
    Wait,
    /// Open the connection to the rendezvous server once more.
    Reconnect,
    /// Sender: wait for the receiver to join.
    AwaitPeer,
    /// Sender: send the file over the keyed channel.
    SendFile,
    /// Receiver: ask the sender for its offer.
    RequestOffer,
    /// Receiver: show the offer and wait for the decision.
    AskShell,
    /// Receiver: accept the offer and receive the bytes.
    Accept,
    /// Receiver: refuse the offer.
    Reject,
    /// Tear down the connections: the session has ended.
    Close,
}

/// What the driver reports to a session.
#[derive(Debug, PartialEq, Eq)]
pub enum Input {
    /// Sender: the rendezvous server allocated this code.
    Welcome(String),
    /// The channel with the peer is keyed and confirmed.
    PeerConnected,
    /// Receiver: the peer offers a file with this name and size.
    Offer(String, u64),
    /// Receiver: the shell accepts (`true`) or refuses the offer.
    Decision(bool),
    /// A transit connection of this kind was established.
    TransitReady(Transport),
    /// So many bytes have moved.
    Progress(u64),
    /// Sender: the transfer finished.
    Sent,
    /// Receiver: the transfer finished with these bytes.
    Received(Vec<u8>),
    /// Something failed.
    Fault(Fault),
    /// The shell cancels the session.
    Cancel,
}

/// What a session tells the shell.
#[derive(Debug, PartialEq, Eq)]
pub enum SessionEvent {
    CodeReady(String),
    Connected(Transport),
    ManifestOffered(String, u64),
    Progress(u64, u64),
    Completed,
    Failed(FailReason),
    Aborted,
}

/// The answer of a session to one input.
#[derive(Debug)]
pub struct Step {
    pub action: Action,
    pub events: Vec<SessionEvent>,
}

/// One side of one transfer.
#[derive(Debug)]
pub struct Session {
    pub role: Role,
    pub phase: Phase,
    /// Whether the one retry of the rendezvous connection was spent.
    pub retried: bool,
    /// Bytes moved so far.
    pub done: u64,
    /// Bytes announced.
    pub total: u64,
    /// The bytes received: empty until the session completes.
    pub file: Vec<u8>,
}

/// A session as a value: its received file as a sequence of bytes.
pub struct SessionView {
    pub role: Role,
    pub phase: Phase,
    pub retried: bool,
    pub done: u64,
    pub total: u64,
    pub file: Seq<u8>,
}

impl View for Session {
    type V = SessionView;

    open spec fn view(&self) -> SessionView {
        SessionView {
            role: self.role,
            phase: self.phase,
            retried: self.retried,
            done: self.done,
            total: self.total,
            file: self.file@,
        }
    }
}

pub open spec fn is_terminal(p: Phase) -> bool {
    p is Completed || p is Failed || p is Aborted
}

pub open spec fn is_terminal_event(e: SessionEvent) -> bool {
    e is Completed || e is Failed || e is Aborted
}

impl SessionView {
    /// Progress stays within the total, a sender never holds an offer, and
    /// a file is held only by a completed session, with the announced size.
    pub open spec fn wf(self) -> bool {
        &&& self.done <= self.total
        &&& self.role is Sender ==> !(self.phase is AwaitingOffer || self.phase is OfferPending)
        &&& !(self.phase is Completed) ==> self.file.len() == 0
        &&& (self.phase is Completed && self.role is Receiver) ==> self.file.len() == self.total
        &&& self.phase is Completed ==> self.done == self.total
        &&& (self.phase is Connecting || self.phase is AwaitingPeer || self.phase is AwaitingOffer
            || self.phase is OfferPending) ==> self.done == 0
    }
}

/// The kind of failure that each fault of the wormhole library stands for.
pub open spec fn reason_spec(f: Fault) -> FailReason {
    match f {
        Fault::ServerIo => FailReason::BrokerUnreachable,
        Fault::ServerRefused => FailReason::NameplateUnavailable,
        Fault::NameplateUnclaimed => FailReason::NameplateUnavailable,
        Fault::CodeRefused => FailReason::MalformedCode,
        Fault::Protocol => FailReason::ProtocolError,
        Fault::PakeFailed => FailReason::AuthenticationFailed,
        Fault::Crypto => FailReason::IntegrityViolation,
        Fault::Nonce => FailReason::IntegrityViolation,
        Fault::Checksum => FailReason::IntegrityViolation,
        Fault::FileSize => FailReason::SizeMismatch,
        Fault::TransitProtocol => FailReason::NoCommonTransport,
        Fault::TransitHandshake => FailReason::NegotiationTimeout,
        Fault::Io => FailReason::ConnectionLost,
        Fault::NoOffer => FailReason::NoOffer,
    }
}

pub fn reason_of(f: Fault) -> (r: FailReason)
    ensures
        r == reason_spec(f),
{
    match f {
        Fault::ServerIo => FailReason::BrokerUnreachable,
        Fault::ServerRefused => FailReason::NameplateUnavailable,
        Fault::NameplateUnclaimed => FailReason::NameplateUnavailable,
        Fault::CodeRefused => FailReason::MalformedCode,
        Fault::Protocol => FailReason::ProtocolError,
        Fault::PakeFailed => FailReason::AuthenticationFailed,
        Fault::Crypto => FailReason::IntegrityViolation,
        Fault::Nonce => FailReason::IntegrityViolation,
        Fault::Checksum => FailReason::IntegrityViolation,
        Fault::FileSize => FailReason::SizeMismatch,
        Fault::TransitProtocol => FailReason::NoCommonTransport,
        Fault::TransitHandshake => FailReason::NegotiationTimeout,
        Fault::Io => FailReason::ConnectionLost,
        Fault::NoOffer => FailReason::NoOffer,
    }
}

pub open spec fn with_phase(s: SessionView, p: Phase) -> SessionView {
    SessionView { phase: p, ..s }
}

pub open spec fn unchanged(s: SessionView) -> (SessionView, Action, Seq<SessionEvent>) {
    (s, Action::Wait, Seq::empty())
}

pub open spec fn failed(s: SessionView, why: FailReason) -> (
    SessionView,
    Action,
    Seq<SessionEvent>,
) {
    (with_phase(s, Phase::Failed(why)), Action::Close, seq![SessionEvent::Failed(why)])
}

pub open spec fn completed(s: SessionView, file: Seq<u8>) -> (
    SessionView,
    Action,
    Seq<SessionEvent>,
) {
    (
        SessionView { phase: Phase::Completed, done: s.total, file: file, ..s },
        Action::Close,
        seq![SessionEvent::Progress(s.total, s.total), SessionEvent::Completed],
    )
}

/// The next state of a session, the action for its driver and the events
/// for the shell, after one input.  A session that has ended ignores every
/// input; an input that does not fit the phase changes nothing.
pub open spec fn transition(s: SessionView, i: Input) -> (SessionView, Action, Seq<SessionEvent>) {
    if is_terminal(s.phase) {
        unchanged(s)
    } else {
        match i {
            Input::Cancel => (
                with_phase(s, Phase::Aborted),
                Action::Close,
                seq![SessionEvent::Aborted],
            ),
            Input::Fault(f) => {
                if f == Fault::ServerIo && s.phase == Phase::Connecting && !s.retried {
                    (SessionView { retried: true, ..s }, Action::Reconnect, Seq::empty())
                } else {
                    failed(s, reason_spec(f))
                }
            },
            Input::Welcome(code) => {
                if s.role == Role::Sender && s.phase == Phase::Connecting {
                    if parse_spec(code@) is Some {
                        (
                            with_phase(s, Phase::AwaitingPeer),
                            Action::AwaitPeer,
                            seq![SessionEvent::CodeReady(code)],
                        )
                    } else {
                        failed(s, FailReason::MalformedCode)
                    }
                } else {
                    unchanged(s)
                }
            },
            Input::PeerConnected => {
                if s.role == Role::Sender && s.phase == Phase::AwaitingPeer {
                    (with_phase(s, Phase::Transferring), Action::SendFile, Seq::empty())
                } else if s.role == Role::Receiver && s.phase == Phase::Connecting {
                    (with_phase(s, Phase::AwaitingOffer), Action::RequestOffer, Seq::empty())
                } else {
                    unchanged(s)
                }
            },
            Input::Offer(name, size) => {
                if s.role == Role::Receiver && s.phase == Phase::AwaitingOffer {
                    (
                        SessionView { phase: Phase::OfferPending, total: size, done: 0, ..s },
                        Action::AskShell,
                        seq![SessionEvent::ManifestOffered(name, size)],
                    )
                } else {
                    unchanged(s)
                }
            },
            Input::Decision(accept) => {
                if s.role == Role::Receiver && s.phase == Phase::OfferPending {
                    if accept {
                        (with_phase(s, Phase::Transferring), Action::Accept, Seq::empty())
                    } else {
                        (
                            with_phase(s, Phase::Aborted),
                            Action::Reject,
                            seq![SessionEvent::Aborted],
                        )
                    }
                } else {
                    unchanged(s)
                }
            },
            Input::TransitReady(t) => {
                if s.phase == Phase::Transferring {
                    (s, Action::Wait, seq![SessionEvent::Connected(t)])
                } else {
                    unchanged(s)
                }
            },
            Input::Progress(n) => {
                let d = if n <= s.total {
                    n
                } else {
                    s.total
                };
                if s.phase == Phase::Transferring && d > s.done {
                    (
                        SessionView { done: d, ..s },
                        Action::Wait,
                        seq![SessionEvent::Progress(d, s.total)],
                    )
                } else {
                    unchanged(s)
                }
            },
            Input::Sent => {
                if s.role == Role::Sender && s.phase == Phase::Transferring {
                    completed(s, Seq::empty())
                } else {
                    unchanged(s)
                }
            },
            Input::Received(data) => {
                if s.role == Role::Receiver && s.phase == Phase::Transferring {
                    if data@.len() == s.total {
                        completed(s, data@)
                    } else {
                        failed(s, FailReason::SizeMismatch)
                    }
                } else {
                    unchanged(s)
                }
            },
        }
    }
}

/// A progress event, if `e` is one, reports at least `lo` bytes, exactly
/// `done` of them, and `total` as the whole, which `done` does not exceed.
pub open spec fn progress_between(e: SessionEvent, lo: u64, done: u64, total: u64) -> bool {
    match e {
        SessionEvent::Progress(d, t) => lo <= d && d == done && t == total && done <= total,
        _ => true,
    }
}

/// Progress never goes back. Every progress event of a step reports at
/// least what the session had reached before, exactly what it has reached
/// after, and never more than the total; completion comes right after a
/// progress event that reports the whole total.
pub proof fn lemma_progress_monotone(s: SessionView, i: Input)
    requires
        s.wf(),
    ensures
        ({
            let (t, a, evs) = transition(s, i);
            &&& t.wf()
            &&& s.done <= t.done
            &&& forall|k: int|
                0 <= k < evs.len() ==> progress_between(#[trigger] evs[k], s.done, t.done, t.total)
            &&& forall|k: int|
                0 <= k < evs.len() && (#[trigger] evs[k]) is Completed ==> k >= 1 && evs[k - 1]
                    == SessionEvent::Progress(t.total, t.total)
        }),
{
}

/// The state reached and the events reported after the inputs, one by one.
pub open spec fn run(s: SessionView, inputs: Seq<Input>) -> (SessionView, Seq<SessionEvent>)
    decreases inputs.len(),
{
    if inputs.len() == 0 {
        (s, Seq::empty())
    } else {
        let (t, evs) = run(s, inputs.drop_last());
        let (u, a, more) = transition(t, inputs.last());
        (u, evs + more)
    }
}

/// The bytes done that a progress event reports.
pub open spec fn reported(e: SessionEvent) -> u64 {
    match e {
        SessionEvent::Progress(d, _) => d,
        _ => 0,
    }
}

/// Over any run of inputs, the progress that a session reports never goes
/// back, and stays between where the session started and where it ends.
pub proof fn lemma_run_progress_monotone(s: SessionView, inputs: Seq<Input>)
    requires
        s.wf(),
    ensures
        ({
            let (t, evs) = run(s, inputs);
            &&& t.wf()
            &&& s.done <= t.done
            &&& forall|i: int|
                0 <= i < evs.len() && (#[trigger] evs[i]) is Progress ==> s.done <= reported(
                    evs[i],
                ) <= t.done
            &&& forall|i: int, j: int|
                0 <= i < j < evs.len() && (#[trigger] evs[i]) is Progress && (#[trigger] evs[j]) is Progress
                    ==> reported(evs[i]) <= reported(evs[j])
        }),
    decreases inputs.len(),
{
    if inputs.len() > 0 {
        let init = inputs.drop_last();
        lemma_run_progress_monotone(s, init);
        let (t, evs) = run(s, init);
        lemma_progress_monotone(t, inputs.last());
        let (u, a, more) = transition(t, inputs.last());
        let all = evs + more;
        assert forall|i: int| 0 <= i < more.len() && (#[trigger] more[i]) is Progress implies t.done
            <= reported(more[i]) && reported(more[i]) == u.done by {
            assert(progress_between(more[i], t.done, u.done, u.total));
        }
        assert forall|i: int|
            0 <= i < all.len() && (#[trigger] all[i]) is Progress implies s.done <= reported(all[i])
            <= u.done by {
            if i >= evs.len() {
                assert(all[i] == more[i - evs.len()]);
            }
        }
        assert forall|i: int, j: int|
            0 <= i < j < all.len() && (#[trigger] all[i]) is Progress && (#[trigger] all[j]) is Progress
                implies reported(all[i]) <= reported(all[j]) by {
            if j < evs.len() {
            } else if i < evs.len() {
                assert(all[j] == more[j - evs.len()]);
            } else {
                assert(all[i] == more[i - evs.len()]);
                assert(all[j] == more[j - evs.len()]);
            }
        }
    }
}

/// A session reports exactly one terminal event: the step that ends it
/// reports one, as its last event, and a session that has ended neither
/// changes nor reports anything again.
pub proof fn lemma_single_terminal_event(s: SessionView, i: Input)
    requires
        s.wf(),
    ensures
        ({
            let (t, a, evs) = transition(s, i);
            &&& is_terminal(s.phase) ==> t == s && evs.len() == 0 && a == Action::Wait
            &&& (exists|k: int| 0 <= k < evs.len() && is_terminal_event(#[trigger] evs[k]))
                <==> (!is_terminal(s.phase) && is_terminal(t.phase))
            &&& forall|k: int|
                0 <= k < evs.len() && is_terminal_event(#[trigger] evs[k]) ==> k == evs.len() - 1
        }),
{
    let (t, a, evs) = transition(s, i);
    if !is_terminal(s.phase) && is_terminal(t.phase) {
        assert(is_terminal_event(evs[evs.len() - 1]));
    }
}

/// `evs` holds a terminal event exactly when `ended`, and then only as its
/// last event.
pub open spec fn ends_once(evs: Seq<SessionEvent>, ended: bool) -> bool {
    &&& (exists|i: int| 0 <= i < evs.len() && is_terminal_event(#[trigger] evs[i])) <==> ended
    &&& forall|i: int|
        0 <= i < evs.len() && is_terminal_event(#[trigger] evs[i]) ==> i == evs.len() - 1
}

proof fn lemma_ends_once_concat(
    evs: Seq<SessionEvent>,
    more: Seq<SessionEvent>,
    before: bool,
    after: bool,
)
    requires
        ends_once(evs, before),
        before ==> more.len() == 0 && after,
        !before ==> ends_once(more, after),
    ensures
        ends_once(evs + more, after),
{
    let all = evs + more;
    if before {
        assert(all =~= evs);
    } else {
        assert forall|i: int| 0 <= i < all.len() && is_terminal_event(#[trigger] all[i]) implies i
            == all.len() - 1 by {
            if i < evs.len() {
                assert(all[i] == evs[i]);
            } else {
                assert(all[i] == more[i - evs.len()]);
            }
        }
        if after {
            let k = choose|k: int| 0 <= k < more.len() && is_terminal_event(#[trigger] more[k]);
            assert(all[evs.len() + k] == more[k]);
        } else {
            assert forall|i: int| 0 <= i < all.len() implies !is_terminal_event(#[trigger] all[i]) by {
                if i < evs.len() {
                    assert(all[i] == evs[i]);
                } else {
                    assert(all[i] == more[i - evs.len()]);
                }
            }
        }
    }
}

/// Over any run of inputs a session reports at most one terminal event, it
/// reports one exactly when the run ends it, and that event is the last.
pub proof fn lemma_run_single_terminal_event(s: SessionView, inputs: Seq<Input>)
    requires
        s.wf(),
        !is_terminal(s.phase),
    ensures
        ({
            let (t, evs) = run(s, inputs);
            t.wf() && ends_once(evs, is_terminal(t.phase))
        }),
    decreases inputs.len(),
{
    if inputs.len() == 0 {
        assert(ends_once(Seq::<SessionEvent>::empty(), false));
    } else {
        let init = inputs.drop_last();
        lemma_run_single_terminal_event(s, init);
        lemma_run_progress_monotone(s, init);
        let (t, evs) = run(s, init);
        lemma_single_terminal_event(t, inputs.last());
        lemma_progress_monotone(t, inputs.last());
        let (u, a, more) = transition(t, inputs.last());
        assert(ends_once(evs, is_terminal(t.phase)));
        lemma_ends_once_concat(evs, more, is_terminal(t.phase), is_terminal(u.phase));
        assert(run(s, inputs) == (u, evs + more));
        assert(ends_once(evs + more, is_terminal(u.phase)));
    }
}

/// Nothing received is handed out before the session completes, and what
/// it hands out then has exactly the announced size.
pub proof fn lemma_no_partial_file(s: SessionView, i: Input)
    requires
        s.wf(),
    ensures
        ({
            let (t, a, evs) = transition(s, i);
            &&& !(t.phase is Completed) ==> t.file.len() == 0
            &&& (t.phase is Completed && t.role is Receiver) ==> t.file.len() == t.total
        }),
{
}

impl Session {
    /// A sender of `size` bytes, about to contact the rendezvous server.
    pub fn sender(size: u64) -> (r: Result<Session, InputError>)
        ensures
            size == 0 <==> r is Err,
            r matches Err(e) ==> e == InputError::EmptyFile,
            r matches Ok(s) ==> s@ == (SessionView {
                role: Role::Sender,
                phase: Phase::Connecting,
                retried: false,
                done: 0,
                total: size,
                file: Seq::empty(),
            }),
    {
        if size == 0 {
            return Err(InputError::EmptyFile);
        }
        Ok(Session {
            role: Role::Sender,
            phase: Phase::Connecting,
            retried: false,
            done: 0,
            total: size,
            file: Vec::new(),
        })
    }

    /// A receiver for the code `code`, which is checked before any
    /// connection is made.
    pub fn receiver(code: &str) -> (r: Result<Session, InputError>)
        ensures
            parse_spec(code@) is None <==> r is Err,
            r matches Err(e) ==> e == InputError::MalformedCode,
            r matches Ok(s) ==> s@ == (SessionView {
                role: Role::Receiver,
                phase: Phase::Connecting,
                retried: false,
                done: 0,
                total: 0,
                file: Seq::empty(),
            }),
    {
        match parse_code(code) {
            Err(e) => Err(e),
            Ok(_) => Ok(
                Session {
                    role: Role::Receiver,
                    phase: Phase::Connecting,
                    retried: false,
                    done: 0,
                    total: 0,
                    file: Vec::new(),
                },
            ),
        }
    }

    fn finish(&mut self, file: Vec<u8>) -> (r: Step)
        requires
            old(self)@.wf(),
            old(self).phase == Phase::Transferring,
            old(self).role == Role::Receiver ==> file@.len() == old(self).total,
            old(self).role == Role::Sender ==> file@.len() == 0,
        ensures
            ({
                let (t, a, evs) = completed(old(self)@, file@);
                final(self)@ == t && r.action == a && r.events@ == evs
            }),
    {
        self.phase = Phase::Completed;
        self.done = self.total;
        self.file = file;
        let mut events: Vec<SessionEvent> = Vec::new();
        events.push(SessionEvent::Progress(self.total, self.total));
        events.push(SessionEvent::Completed);
        proof {
            assert(events@ =~= seq![
                SessionEvent::Progress(self.total, self.total),
                SessionEvent::Completed,
            ]);
        }
        Step { action: Action::Close, events }
    }

    fn fail(&mut self, why: FailReason) -> (r: Step)
        ensures
            ({
                let (t, a, evs) = failed(old(self)@, why);
                final(self)@ == t && r.action == a && r.events@ == evs
            }),
    {
        self.phase = Phase::Failed(why);
        let mut events: Vec<SessionEvent> = Vec::new();
        events.push(SessionEvent::Failed(why));
        proof {
            assert(events@ =~= seq![SessionEvent::Failed(why)]);
        }
        Step { action: Action::Close, events }
    }

    /// Moves the session on by one input.
    pub fn step(&mut self, input: Input) -> (r: Step)
        requires
            old(self)@.wf(),
        ensures
            final(self)@.wf(),
            ({
                let (t, a, evs) = transition(old(self)@, input);
                final(self)@ == t && r.action == a && r.events@ == evs
            }),
    {
        let ghost i = input;
        let quiet = Step { action: Action::Wait, events: Vec::new() };
        proof {
            assert(quiet.events@ =~= Seq::<SessionEvent>::empty());
        }
        if matches!(self.phase, Phase::Completed | Phase::Failed(_) | Phase::Aborted) {
            return quiet;
        }
        match input {
            Input::Cancel => {
                self.phase = Phase::Aborted;
                let mut events: Vec<SessionEvent> = Vec::new();
                events.push(SessionEvent::Aborted);
                proof {
                    assert(events@ =~= seq![SessionEvent::Aborted]);
                }
                Step { action: Action::Close, events }
            },
            Input::Fault(f) => {
                if f == Fault::ServerIo && self.phase == Phase::Connecting && !self.retried {
                    self.retried = true;
                    Step { action: Action::Reconnect, events: Vec::new() }
                } else {
                    let why = reason_of(f);
                    self.fail(why)
                }
            },
            Input::Welcome(code) => {
                if self.role == Role::Sender && self.phase == Phase::Connecting {
                    if parse_code(code.as_str()).is_ok() {
                        self.phase = Phase::AwaitingPeer;
                        let mut events: Vec<SessionEvent> = Vec::new();
                        events.push(SessionEvent::CodeReady(code));
                        Step { action: Action::AwaitPeer, events }
                    } else {
                        self.fail(FailReason::MalformedCode)
                    }
                } else {
                    quiet
                }
            },
            Input::PeerConnected => {
                if self.role == Role::Sender && self.phase == Phase::AwaitingPeer {
                    self.phase = Phase::Transferring;
                    Step { action: Action::SendFile, events: Vec::new() }
                } else if self.role == Role::Receiver && self.phase == Phase::Connecting {
                    self.phase = Phase::AwaitingOffer;
                    Step { action: Action::RequestOffer, events: Vec::new() }
                } else {
                    quiet
                }
            },
            Input::Offer(name, size) => {
                if self.role == Role::Receiver && self.phase == Phase::AwaitingOffer {
                    self.phase = Phase::OfferPending;
                    self.total = size;
                    self.done = 0;
                    let mut events: Vec<SessionEvent> = Vec::new();
                    events.push(SessionEvent::ManifestOffered(name, size));
                    Step { action: Action::AskShell, events }
                } else {
                    quiet
                }
            },
            Input::Decision(accept) => {
                if self.role == Role::Receiver && self.phase == Phase::OfferPending {
                    if accept {
                        self.phase = Phase::Transferring;
                        Step { action: Action::Accept, events: Vec::new() }
                    } else {
                        self.phase = Phase::Aborted;
                        let mut events: Vec<SessionEvent> = Vec::new();
                        events.push(SessionEvent::Aborted);
                        Step { action: Action::Reject, events }
                    }
                } else {
                    quiet
                }
            },
            Input::TransitReady(t) => {
                if self.phase == Phase::Transferring {
                    let mut events: Vec<SessionEvent> = Vec::new();
                    events.push(SessionEvent::Connected(t));
                    Step { action: Action::Wait, events }
                } else {
                    quiet
                }
            },
            Input::Progress(n) => {
                let d = if n <= self.total {
                    n
                } else {
                    self.total
                };
                if self.phase == Phase::Transferring && d > self.done {
                    self.done = d;
                    let mut events: Vec<SessionEvent> = Vec::new();
                    events.push(SessionEvent::Progress(d, self.total));
                    Step { action: Action::Wait, events }
                } else {
                    quiet
                }
            },
            Input::Sent => {
                if self.role == Role::Sender && self.phase == Phase::Transferring {
                    self.finish(Vec::new())
                } else {
                    quiet
                }
            },
            Input::Received(data) => {
                if self.role == Role::Receiver && self.phase == Phase::Transferring {
                    if data.len() as u64 == self.total {
                        self.finish(data)
                    } else {
                        self.fail(FailReason::SizeMismatch)
                    }
                } else {
                    quiet
                }
            },
        }
    }
}

} // verus!
