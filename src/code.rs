use vstd::prelude::*;
use vstd::string::*;

verus! {

/// A decimal digit.
pub open spec fn is_digit(c: char) -> bool {
    '0' <= c && c <= '9'
}

/// A lower-case ASCII letter.
pub open spec fn is_lower(c: char) -> bool {
    'a' <= c && c <= 'z'
}

/// The pieces of `s` between the dashes, read from left to right: a dash
/// closes the current piece and opens an empty one, any other character
/// extends the current piece.
pub open spec fn split_dash(s: Seq<char>) -> Seq<Seq<char>>
    decreases s.len(),
{
    if s.len() == 0 {
        seq![Seq::<char>::empty()]
    } else {
        let p = split_dash(s.drop_last());
        if s.last() == '-' {
            p.push(Seq::<char>::empty())
        } else {
            p.update(p.len() - 1, p.last().push(s.last()))
        }
    }
}

/// The pieces written one after another with a dash between two neighbours.
pub open spec fn join_dash(ps: Seq<Seq<char>>) -> Seq<char>
    decreases ps.len(),
{
    if ps.len() == 0 {
        Seq::<char>::empty()
    } else if ps.len() == 1 {
        ps[0]
    } else {
        join_dash(ps.drop_last()) + seq!['-'] + ps.last()
    }
}

/// A nameplate: a positive decimal number written without leading zeros.
pub open spec fn valid_nameplate(p: Seq<char>) -> bool {
    &&& p.len() >= 1
    &&& p[0] != '0'
    &&& forall|i: int| 0 <= i < p.len() ==> is_digit(#[trigger] p[i])
}

/// A passphrase word: one or more lower-case letters.
pub open spec fn valid_word(w: Seq<char>) -> bool {
    &&& w.len() >= 1
    &&& forall|i: int| 0 <= i < w.len() ==> is_lower(#[trigger] w[i])
}

/// A nameplate followed by at least two words.
pub open spec fn valid_pieces(ps: Seq<Seq<char>>) -> bool {
    &&& ps.len() >= 3
    &&& valid_nameplate(ps[0])
    &&& forall|i: int| 1 <= i < ps.len() ==> valid_word(#[trigger] ps[i])
}

/// What `parse_code` makes of a text: its dash-separated pieces, when they
/// form a valid code.
pub open spec fn parse_spec(s: Seq<char>) -> Option<Seq<Seq<char>>> {
    if valid_pieces(split_dash(s)) {
        Some(split_dash(s))
    } else {
        None
    }
}

/// The characters of each string, in order.
pub open spec fn string_views(v: Seq<String>) -> Seq<Seq<char>> {
    v.map_values(|w: String| w@)
}

/// A wormhole code `<nameplate>-<word>-<word>[-<word>...]`.
#[derive(Debug, PartialEq, Eq)]
pub struct WormholeCode {
    pub nameplate: String,
    pub words: Vec<String>,
}

/// What the shell handed in is refused before any network activity.
#[derive(Debug, Clone, Copy, PartialEq, Eq, Structural)]
pub enum InputError {
    /// The text given as a code does not have the shape of one.
    MalformedCode,
    /// There is nothing to send.
    EmptyFile,
}

impl WormholeCode {
    /// The nameplate followed by the words.
    pub open spec fn pieces(&self) -> Seq<Seq<char>> {
        seq![self.nameplate@] + string_views(self.words@)
    }

    pub open spec fn wf(&self) -> bool {
        valid_pieces(self.pieces())
    }

    /// The code as the text that a person reads out, pieces joined by dashes.
    pub fn to_text(&self) -> (r: String)
        requires
            self.wf(),
        ensures
            r@ == join_dash(self.pieces()),
    {
        let mut r = self.nameplate.clone();
        let n = self.words.len();
        let mut k: usize = 0;
        proof {
            reveal_strlit("-");
            assert(self.pieces().take(1) =~= seq![self.nameplate@]);
        }
        while k < n
            invariant
                k <= n,
                n == self.words.len(),
                r@ == join_dash(self.pieces().take(k + 1)),
            decreases n - k,
        {
            let ghost before = r@;
            proof {
                reveal_strlit("-");
            }
            r.append("-");
            r.append(self.words[k].as_str());
            proof {
                let ps = self.pieces().take(k + 2);
                assert(ps.drop_last() =~= self.pieces().take(k + 1));
                assert(ps.last() == self.words@[k as int]@);
                assert(r@ =~= before + seq!['-'] + self.words@[k as int]@);
            }
            k = k + 1;
        }
        proof {
            assert(self.pieces().take(n + 1) =~= self.pieces());
        }
        r
    }

    pub fn nameplate(&self) -> (r: &String)
        ensures
            r == &self.nameplate,
    {
        &self.nameplate
    }
}

fn check_nameplate(p: &str) -> (r: bool)
    ensures
        r == valid_nameplate(p@),
{
    let n = p.unicode_len();
    if n == 0 {
        return false;
    }
    if p.get_char(0) == '0' {
        return false;
    }
    let mut i: usize = 0;
    while i < n
        invariant
            n == p@.len(),
            i <= n,
            forall|j: int| 0 <= j < i ==> is_digit(#[trigger] p@[j]),
        decreases n - i,
    {
        let c = p.get_char(i);
        if !('0' <= c && c <= '9') {
            return false;
        }
        i = i + 1;
    }
    true
}

fn check_word(w: &str) -> (r: bool)
    ensures
        r == valid_word(w@),
{
    let n = w.unicode_len();
    if n == 0 {
        return false;
    }
    let mut i: usize = 0;
    while i < n
        invariant
            n == w@.len(),
            i <= n,
            forall|j: int| 0 <= j < i ==> is_lower(#[trigger] w@[j]),
        decreases n - i,
    {
        let c = w.get_char(i);
        if !('a' <= c && c <= 'z') {
            return false;
        }
        i = i + 1;
    }
    true
}

/// Splits `text` at its dashes into pieces, in order.
fn split_pieces(text: &str) -> (r: Vec<String>)
    ensures
        string_views(r@) == split_dash(text@),
{
    let n = text.unicode_len();
    let mut pieces: Vec<String> = Vec::new();
    let mut start: usize = 0;
    let mut i: usize = 0;
    proof {
        assert(text@.take(0) =~= Seq::<char>::empty());
        assert(string_views(pieces@) =~= Seq::<Seq<char>>::empty());
        assert(text@.subrange(0, 0) =~= Seq::<char>::empty());
    }
    while i < n
        invariant
            n == text@.len(),
            start <= i <= n,
            split_dash(text@.take(i as int)) == string_views(pieces@).push(
                text@.subrange(start as int, i as int),
            ),
        decreases n - i,
    {
        let c = text.get_char(i);
        let ghost before = string_views(pieces@);
        proof {
            assert(text@.take(i + 1).drop_last() =~= text@.take(i as int));
            assert(text@.take(i + 1).last() == c);
        }
        if c == '-' {
            let piece = text.substring_char(start, i).to_owned();
            pieces.push(piece);
            start = i + 1;
            proof {
                assert(string_views(pieces@) =~= before.push(piece@));
                assert(text@.subrange(start as int, i + 1) =~= Seq::<char>::empty());
            }
        } else {
            proof {
                assert(text@.subrange(start as int, i + 1) =~= text@.subrange(
                    start as int,
                    i as int,
                ).push(c));
            }
        }
        i = i + 1;
    }
    let last = text.substring_char(start, n).to_owned();
    let ghost before = string_views(pieces@);
    pieces.push(last);
    proof {
        assert(text@.take(n as int) =~= text@);
        assert(string_views(pieces@) =~= before.push(last@));
    }
    pieces
}

/// Reads a code from its text: the nameplate, a dash, and two or more
/// lower-case words separated by dashes.
pub fn parse_code(text: &str) -> (r: Result<WormholeCode, InputError>)
    ensures
        match r {
            Ok(c) => c.wf() && parse_spec(text@) == Some(c.pieces()),
            Err(e) => parse_spec(text@) is None && e == InputError::MalformedCode,
        },
{
    let mut pieces = split_pieces(text);
    let ghost ps = string_views(pieces@);
    if pieces.len() < 3 {
        return Err(InputError::MalformedCode);
    }
    if !check_nameplate(pieces[0].as_str()) {
        return Err(InputError::MalformedCode);
    }
    let n = pieces.len();
    let mut k: usize = 1;
    while k < n
        invariant
            n == pieces.len(),
            1 <= k <= n,
            ps == string_views(pieces@),
            ps == split_dash(text@),
            forall|j: int| 1 <= j < k ==> valid_word(#[trigger] ps[j]),
        decreases n - k,
    {
        if !check_word(pieces[k].as_str()) {
            assert(!valid_word(ps[k as int]));
            return Err(InputError::MalformedCode);
        }
        k = k + 1;
    }
    let nameplate = pieces.remove(0);
    let c = WormholeCode { nameplate, words: pieces };
    proof {
        assert(c.pieces() =~= ps);
    }
    Ok(c)
}

proof fn lemma_split_nonempty(s: Seq<char>)
    ensures
        split_dash(s).len() >= 1,
    decreases s.len(),
{
    if s.len() > 0 {
        lemma_split_nonempty(s.drop_last());
    }
}

/// Characters without a dash extend the last piece.
proof fn lemma_split_append_plain(s: Seq<char>, t: Seq<char>)
    requires
        forall|i: int| 0 <= i < t.len() ==> t[i] != '-',
    ensures
        split_dash(s + t) == split_dash(s).update(
            split_dash(s).len() - 1,
            split_dash(s).last() + t,
        ),
    decreases t.len(),
{
    lemma_split_nonempty(s);
    let p = split_dash(s);
    if t.len() == 0 {
        assert(s + t =~= s);
        assert(p.last() + t =~= p.last());
        assert(p.update(p.len() - 1, p.last() + t) =~= p);
    } else {
        let u = t.drop_last();
        lemma_split_append_plain(s, u);
        assert((s + t).drop_last() =~= s + u);
        assert((s + t).last() == t.last());
        assert((p.last() + u).push(t.last()) =~= p.last() + t);
        let q = split_dash(s + u);
        assert(q.last() == p.last() + u);
        assert(q.update(q.len() - 1, q.last().push(t.last())) =~= p.update(
            p.len() - 1,
            p.last() + t,
        ));
    }
}

/// Splitting undoes joining, as long as no piece holds a dash.
proof fn lemma_split_join(ps: Seq<Seq<char>>)
    requires
        ps.len() >= 1,
        forall|k: int, i: int| 0 <= k < ps.len() && 0 <= i < ps[k].len() ==> ps[k][i] != '-',
    ensures
        split_dash(join_dash(ps)) == ps,
    decreases ps.len(),
{
    let e = Seq::<char>::empty();
    if ps.len() == 1 {
        lemma_split_append_plain(e, ps[0]);
        assert(e + ps[0] =~= ps[0]);
        assert(split_dash(e) =~= seq![e]);
        assert(e + ps[0] =~= ps[0]);
        assert(seq![e].update(0, e + ps[0]) =~= ps);
    } else {
        let init = ps.drop_last();
        lemma_split_join(init);
        let j = join_dash(init).push('-');
        assert(join_dash(ps) =~= j + ps.last());
        assert(j.drop_last() =~= join_dash(init));
        assert(split_dash(j) == init.push(e));
        lemma_split_append_plain(j, ps.last());
        assert(e + ps.last() =~= ps.last());
        assert(init.push(e).update(ps.len() - 1, e + ps.last()) =~= ps);
    }
}

/// A valid code read back from its text gives the same nameplate and words.
pub proof fn lemma_code_round_trip(c: WormholeCode)
    requires
        c.wf(),
    ensures
        parse_spec(join_dash(c.pieces())) == Some(c.pieces()),
{
    let ps = c.pieces();
    assert forall|k: int, i: int| 0 <= k < ps.len() && 0 <= i < ps[k].len() implies ps[k][i]
        != '-' by {
        if k == 0 {
            assert(is_digit(ps[0][i]));
        } else {
            assert(valid_word(ps[k]));
            assert(is_lower(ps[k][i]));
        }
    }
    lemma_split_join(ps);
}

/// Joining the pieces of a text between its dashes gives the text back.
proof fn lemma_join_split(s: Seq<char>)
    ensures
        join_dash(split_dash(s)) == s,
    decreases s.len(),
{
    if s.len() > 0 {
        let t = s.drop_last();
        let c = s.last();
        lemma_join_split(t);
        lemma_split_nonempty(t);
        let p = split_dash(t);
        assert(t.push(c) =~= s);
        if c == '-' {
            let q = p.push(Seq::<char>::empty());
            assert(q.drop_last() =~= p);
            assert(join_dash(q) =~= t + seq!['-'] + Seq::<char>::empty());
            assert(t + seq!['-'] + Seq::<char>::empty() =~= s);
        } else {
            let q = p.update(p.len() - 1, p.last().push(c));
            if p.len() == 1 {
                assert(join_dash(q) == q[0]);
                assert(q[0] =~= s);
            } else {
                assert(q.drop_last() =~= p.drop_last());
                assert(join_dash(q) == join_dash(p.drop_last()) + seq!['-'] + p.last().push(c));
                assert(join_dash(p) == join_dash(p.drop_last()) + seq!['-'] + p.last());
                assert(join_dash(p.drop_last()) + seq!['-'] + p.last().push(c) =~= (join_dash(
                    p.drop_last(),
                ) + seq!['-'] + p.last()).push(c));
            }
        }
    }
}

/// A text that reads as a code is exactly the text of that code: writing
/// the code out again gives the same characters.
pub proof fn lemma_text_round_trip(s: Seq<char>)
    requires
        parse_spec(s) is Some,
    ensures
        join_dash(parse_spec(s)->0) == s,
{
    lemma_join_split(s);
}

} // verus!
