//! Keeps colour queries and device attributes out of a byte stream.
use crate::ascii::{
    BACKSLASH, BEL, ESC, GREATER_THAN, LEFT_BRACKET, QUESTION_MARK, RIGHT_BRACKET, SEMICOLON,
};
use vstd::prelude::*;

verus! {

/// Where in an escape sequence the stream stands.
#[derive(Debug, Clone, Copy, PartialEq, Eq, Structural)]
pub enum State {
    Normal,
    /// After an escape.
    Escape,
    /// After the beginning of an operating system command.
    OscPrefix,
    /// In a colour query, which is dropped up to its terminator.
    InOsc,
    /// After an escape in a colour query, which may be the first half of the terminator.
    OscSeenEsc,
    /// After the beginning of a control sequence.
    CsiPrefix,
    /// In a control sequence that is device attributes if it ends in the letter `c`.
    InDa,
}

/// Where the stream stands, and which bytes are held back until it is known what they begin.
#[verifier::ext_equal]
pub ghost struct FilterModel {
    pub state: State,
    pub pending: Seq<u8>,
}

/// Nothing has been read yet.
pub open spec fn filter_start() -> FilterModel {
    FilterModel { state: State::Normal, pending: Seq::empty() }
}

/// Whether bytes are being dropped as they come.
pub open spec fn discarding(state: State) -> bool {
    state == State::InOsc || state == State::OscSeenEsc
}

/// The beginning of colour query 10 or 11.
pub open spec fn color_query_start(query_eleven: bool) -> Seq<u8> {
    seq![
        ESC,
        RIGHT_BRACKET,
        0x31,
        if query_eleven {
            0x31u8
        } else {
            0x30u8
        },
        SEMICOLON,
    ]
}

/// Whether the bytes are the beginning of a colour query.
pub open spec fn is_color_query_start(s: Seq<u8>) -> bool {
    s == color_query_start(false) || s == color_query_start(true)
}

/// Whether a byte is the last of a control sequence.
pub open spec fn ends_csi(b: u8) -> bool {
    0x40 <= b <= 0x7e
}

/// What one byte does: where the stream then stands, and which bytes come out.
pub open spec fn filter_step(m: FilterModel, b: u8) -> (FilterModel, Seq<u8>) {
    let none = Seq::<u8>::empty();
    let held = m.pending.push(b);
    let keep = |state: State| (FilterModel { state, pending: held }, none);
    let forget = |state: State| (FilterModel { state, pending: none }, none);
    let release = (FilterModel { state: State::Normal, pending: none }, held);
    if discarding(m.state) {
        if b == BEL || m.state == State::OscSeenEsc && b == BACKSLASH {
            forget(State::Normal)
        } else if b == ESC {
            forget(State::OscSeenEsc)
        } else {
            forget(State::InOsc)
        }
    } else if b == ESC {
        (FilterModel { state: State::Escape, pending: seq![ESC] }, m.pending)
    } else {
        match m.state {
            State::Escape => if b == RIGHT_BRACKET {
                keep(State::OscPrefix)
            } else if b == LEFT_BRACKET {
                keep(State::CsiPrefix)
            } else {
                release
            },
            State::OscPrefix => if is_color_query_start(held) {
                forget(State::InOsc)
            } else if held.len() >= 6 {
                release
            } else {
                keep(State::OscPrefix)
            },
            State::CsiPrefix => if b == QUESTION_MARK || b == GREATER_THAN {
                keep(State::InDa)
            } else {
                release
            },
            State::InDa => if b == 0x63 {
                forget(State::Normal)
            } else if ends_csi(b) {
                release
            } else {
                keep(State::InDa)
            },
            _ => release,
        }
    }
}

/// What a piece of the stream does: where the stream then stands, and which bytes come out.
pub open spec fn filter_run(m: FilterModel, input: Seq<u8>) -> (FilterModel, Seq<u8>)
    decreases input.len(),
{
    if input.len() == 0 {
        (m, Seq::empty())
    } else {
        let (m1, out) = filter_run(m, input.drop_last());
        let (m2, last) = filter_step(m1, input.last());
        (m2, out + last)
    }
}

/// Which bytes are held back in which state.
pub open spec fn filter_wf(m: FilterModel) -> bool {
    match m.state {
        State::Normal | State::InOsc | State::OscSeenEsc => m.pending.len() == 0,
        State::Escape => m.pending == seq![ESC],
        State::CsiPrefix => m.pending == seq![ESC, LEFT_BRACKET],
        State::OscPrefix => {
            &&& 2 <= m.pending.len() <= 5
            &&& m.pending[0] == ESC
            &&& m.pending[1] == RIGHT_BRACKET
            &&& forall|i: int| 2 <= i < m.pending.len() ==> #[trigger] m.pending[i] != ESC
            &&& !is_color_query_start(m.pending)
        },
        State::InDa => {
            &&& 3 <= m.pending.len()
            &&& m.pending[0] == ESC
            &&& m.pending[1] == LEFT_BRACKET
            &&& m.pending[2] == QUESTION_MARK || m.pending[2] == GREATER_THAN
            &&& forall|i: int|
                3 <= i < m.pending.len() ==> #[trigger] m.pending[i] != ESC && !ends_csi(
                    m.pending[i],
                )
        },
    }
}

/// How many bytes the rest of a colour query takes, up to its terminator: a bell, or an escape and a
/// backslash.
pub open spec fn color_query_rest(s: Seq<u8>) -> Option<int>
    decreases s.len(),
{
    if s.len() == 0 {
        None
    } else if s[0] == BEL {
        Some(1)
    } else if s.len() >= 2 && s[0] == ESC && s[1] == BACKSLASH {
        Some(2)
    } else {
        match color_query_rest(s.skip(1)) {
            Some(n) => Some(n + 1),
            None => None,
        }
    }
}

/// How many bytes the rest of device attributes takes, up to the letter `c`. Another last byte, or an
/// escape, makes it something else.
pub open spec fn attributes_rest(s: Seq<u8>) -> Option<int>
    decreases s.len(),
{
    if s.len() == 0 {
        None
    } else if s[0] == 0x63 {
        Some(1)
    } else if s[0] == ESC || ends_csi(s[0]) {
        None
    } else {
        match attributes_rest(s.skip(1)) {
            Some(n) => Some(n + 1),
            None => None,
        }
    }
}

/// Whether a colour query begins here.
pub open spec fn begins_color_query(s: Seq<u8>) -> bool {
    s.len() >= 5 && is_color_query_start(s.take(5))
}

/// How many bytes the colour query takes that begins here, if it is complete.
pub open spec fn color_query_length(s: Seq<u8>) -> Option<int> {
    if begins_color_query(s) {
        match color_query_rest(s.skip(5)) {
            Some(n) => Some(n + 5),
            None => None,
        }
    } else {
        None
    }
}

/// How many bytes the device attributes take that begin here, primary or secondary, if they are
/// complete.
pub open spec fn attributes_length(s: Seq<u8>) -> Option<int> {
    if s.len() >= 3 && s[0] == ESC && s[1] == LEFT_BRACKET && (s[2] == QUESTION_MARK || s[2]
        == GREATER_THAN) {
        match attributes_rest(s.skip(3)) {
            Some(n) => Some(n + 3),
            None => None,
        }
    } else {
        None
    }
}

/// Whether the bytes are one complete colour query, or complete device attributes.
pub open spec fn is_query(s: Seq<u8>) -> bool {
    color_query_length(s) == Some(s.len() as int) || attributes_length(s) == Some(s.len() as int)
}

/// What is left of a stream without its colour queries and device attributes: every other byte, in
/// order. Of a colour query without an end, nothing is left.
pub open spec fn kept(s: Seq<u8>) -> Seq<u8>
    decreases s.len(),
{
    if s.len() == 0 {
        Seq::empty()
    } else if begins_color_query(s) {
        match color_query_length(s) {
            Some(n) => if 0 < n <= s.len() {
                kept(s.skip(n))
            } else {
                Seq::empty()
            },
            None => Seq::empty(),
        }
    } else {
        match attributes_length(s) {
            Some(n) => if 0 < n <= s.len() {
                kept(s.skip(n))
            } else {
                Seq::empty()
            },
            None => seq![s[0]] + kept(s.skip(1)),
        }
    }
}

/// Filters colour queries (OSC 10 and 11) and device attributes from a stream that comes in pieces.
pub struct OscFilter {
    state: State,
    pending: Vec<u8>,
}

impl Default for OscFilter {
    fn default() -> (r: Self)
        ensures
            r.model() == filter_start(),
    {
        let r: OscFilter = OscFilter { state: State::Normal, pending: Vec::new() };
        assert(r.model() =~= filter_start());
        r
    }
}

impl OscFilter {
    /// Where the stream stands.
    pub closed spec fn model(self) -> FilterModel {
        FilterModel { state: self.state, pending: self.pending@ }
    }

    fn flush(&mut self, output: &mut Vec<u8>)
        ensures
            final(output)@ == old(output)@ + old(self).pending@,
            final(self).pending@ == Seq::<u8>::empty(),
            final(self).state == State::Normal,
    {
        output.append(&mut self.pending);
        self.state = State::Normal;
    }

    fn holds_color_query_start(&self) -> (r: bool)
        ensures
            r == is_color_query_start(self.pending@),
    {
        let p: &Vec<u8> = &self.pending;
        let r: bool = p.len() == 5 && p[0] == ESC && p[1] == RIGHT_BRACKET && p[2] == 0x31 && (p[3]
            == 0x30 || p[3] == 0x31) && p[4] == SEMICOLON;
        proof {
            if r {
                assert(p@ =~= color_query_start(p@[3] == 0x31));
            }
        }
        r
    }

    fn step(&mut self, b: u8, output: &mut Vec<u8>)
        requires
            filter_wf(old(self).model()),
        ensures
            final(self).model() == filter_step(old(self).model(), b).0,
            final(output)@ == old(output)@ + filter_step(old(self).model(), b).1,
            filter_wf(final(self).model()),
    {
        let ghost m = self.model();
        proof {
            lemma_step_keeps_wf(m, b);
            assert(output@ + Seq::<u8>::empty() =~= output@);
        }
        match self.state {
            State::InOsc => {
                if b == BEL {
                    self.state = State::Normal;
                } else if b == ESC {
                    self.state = State::OscSeenEsc;
                }
            },
            State::OscSeenEsc => {
                if b == BACKSLASH || b == BEL {
                    self.state = State::Normal;
                } else if b != ESC {
                    self.state = State::InOsc;
                }
            },
            _ => {
                if b == ESC {
                    self.flush(output);
                    self.pending.push(b);
                    self.state = State::Escape;
                    assert(self.pending@ =~= seq![ESC]);
                } else {
                    self.extend(b, output);
                }
            },
        }
        assert(self.model() =~= filter_step(m, b).0);
    }

    /// Handles a byte that is no escape, outside of a colour query.
    fn extend(&mut self, b: u8, output: &mut Vec<u8>)
        requires
            filter_wf(old(self).model()),
            !discarding(old(self).model().state),
            b != ESC,
        ensures
            final(self).model() == filter_step(old(self).model(), b).0,
            final(output)@ == old(output)@ + filter_step(old(self).model(), b).1,
    {
        let ghost m = self.model();
        assert(output@ + Seq::<u8>::empty() =~= output@);
        self.pending.push(b);
        match self.state {
            State::Escape => {
                if b == RIGHT_BRACKET {
                    self.state = State::OscPrefix;
                } else if b == LEFT_BRACKET {
                    self.state = State::CsiPrefix;
                } else {
                    self.flush(output);
                }
            },
            State::OscPrefix => {
                if self.holds_color_query_start() {
                    self.pending.clear();
                    self.state = State::InOsc;
                } else if self.pending.len() >= 6 {
                    self.flush(output);
                }
            },
            State::CsiPrefix => {
                if b == QUESTION_MARK || b == GREATER_THAN {
                    self.state = State::InDa;
                } else {
                    self.flush(output);
                }
            },
            State::InDa => {
                if b == 0x63 {
                    self.pending.clear();
                    self.state = State::Normal;
                } else if 0x40 <= b && b <= 0x7e {
                    self.flush(output);
                }
            },
            _ => {
                self.flush(output);
            },
        }
        assert(self.model() =~= filter_step(m, b).0);
    }

    /// Filters one piece of the stream. Sequences may begin in one piece and end in a later one.
    pub fn filter(&mut self, input: &[u8]) -> (r: Vec<u8>)
        requires
            filter_wf(old(self).model()),
        ensures
            filter_wf(final(self).model()),
            final(self).model() == filter_run(old(self).model(), input@).0,
            r@ == filter_run(old(self).model(), input@).1,
    {
        let ghost m = self.model();
        let mut output: Vec<u8> = Vec::new();
        let n: usize = input.len();
        let mut i: usize = 0;
        assert(input@.take(0) =~= Seq::<u8>::empty());
        while i < n
            invariant
                i <= n,
                n == input@.len(),
                filter_wf(self.model()),
                self.model() == filter_run(m, input@.take(i as int)).0,
                output@ == filter_run(m, input@.take(i as int)).1,
            decreases n - i,
        {
            self.step(input[i], &mut output);
            i += 1;
            proof {
                let t = input@.take(i as int);
                assert(t.drop_last() =~= input@.take(i - 1));
                assert(t.last() == input@[i - 1]);
            }
        }
        assert(input@.take(n as int) =~= input@);
        output
    }
}

/// It does not matter how a stream is cut into pieces.
pub proof fn lemma_filter_in_pieces(m: FilterModel, a: Seq<u8>, b: Seq<u8>)
    ensures
        filter_run(m, a + b).0 == filter_run(filter_run(m, a).0, b).0,
        filter_run(m, a + b).1 == filter_run(m, a).1 + filter_run(filter_run(m, a).0, b).1,
    decreases b.len(),
{
    let (m1, out) = filter_run(m, a);
    if b.len() == 0 {
        assert(a + b =~= a);
        assert(out + Seq::<u8>::empty() =~= out);
    } else {
        lemma_filter_in_pieces(m, a, b.drop_last());
        assert((a + b).drop_last() =~= a + b.drop_last());
        let (m2, x) = filter_run(m1, b.drop_last());
        let y = filter_step(m2, b.last()).1;
        assert((out + x) + y =~= out + (x + y));
    }
}

/// A stream without escapes comes through as it is.
pub proof fn lemma_plain_text_passes(input: Seq<u8>)
    requires
        forall|i: int| 0 <= i < input.len() ==> #[trigger] input[i] != ESC,
    ensures
        filter_run(filter_start(), input) == (filter_start(), input),
    decreases input.len(),
{
    if input.len() > 0 {
        lemma_plain_text_passes(input.drop_last());
        assert(input.drop_last() + seq![input.last()] =~= input);
    }
}

proof fn lemma_step_keeps_wf(m: FilterModel, b: u8)
    requires
        filter_wf(m),
    ensures
        filter_wf(filter_step(m, b).0),
{
    if m.state == State::Escape {
        assert(seq![ESC].push(LEFT_BRACKET) =~= seq![ESC, LEFT_BRACKET]);
    }
    let held = m.pending.push(b);
    assert(color_query_start(false).len() == 5 && color_query_start(true).len() == 5);
    assert forall|i: int| 0 <= i < m.pending.len() implies #[trigger] held[i] == m.pending[i] by {}
}

proof fn lemma_run_one(m: FilterModel, b: u8)
    ensures
        filter_run(m, seq![b]) == filter_step(m, b),
{
    reveal_with_fuel(filter_run, 2);
    assert(seq![b].drop_last() =~= Seq::<u8>::empty());
    assert(Seq::<u8>::empty() + filter_step(m, b).1 =~= filter_step(m, b).1);
}

proof fn lemma_run_first(m: FilterModel, s: Seq<u8>)
    requires
        s.len() > 0,
    ensures
        filter_run(m, s).0 == filter_run(filter_step(m, s[0]).0, s.skip(1)).0,
        filter_run(m, s).1 == filter_step(m, s[0]).1 + filter_run(
            filter_step(m, s[0]).0,
            s.skip(1),
        ).1,
{
    assert(seq![s[0]] + s.skip(1) =~= s);
    lemma_filter_in_pieces(m, seq![s[0]], s.skip(1));
    lemma_run_one(m, s[0]);
}

proof fn lemma_color_query_rest(s: Seq<u8>)
    ensures
        color_query_rest(s) matches Some(n) ==> 0 < n <= s.len(),
    decreases s.len(),
{
    if s.len() > 0 {
        lemma_color_query_rest(s.skip(1));
    }
}

proof fn lemma_attributes_rest(s: Seq<u8>)
    ensures
        attributes_rest(s) matches Some(n) ==> 0 < n <= s.len(),
    decreases s.len(),
{
    if s.len() > 0 {
        lemma_attributes_rest(s.skip(1));
    }
}

/// The rest of device attributes, after bytes that do not end it.
proof fn lemma_attributes_rest_after(t: Seq<u8>, s: Seq<u8>)
    requires
        forall|i: int| 0 <= i < t.len() ==> #[trigger] t[i] != ESC && !ends_csi(t[i]),
    ensures
        attributes_rest(t + s) == (match attributes_rest(s) {
            Some(n) => Some(n + t.len()),
            None => None,
        }),
    decreases t.len(),
{
    if t.len() == 0 {
        assert(t + s =~= s);
    } else {
        lemma_attributes_rest_after(t.skip(1), s);
        assert((t + s).skip(1) =~= t.skip(1) + s);
        assert((t + s)[0] == t[0]);
    }
}

/// Bytes without an escape are kept.
proof fn lemma_plain_is_kept(a: Seq<u8>, s: Seq<u8>)
    requires
        forall|i: int| 0 <= i < a.len() ==> #[trigger] a[i] != ESC,
    ensures
        kept(a + s) == a + kept(s),
    decreases a.len(),
{
    if a.len() == 0 {
        assert(a + s =~= s);
        assert(a + kept(s) =~= kept(s));
    } else {
        let all = a + s;
        lemma_plain_is_kept(a.skip(1), s);
        assert(all.skip(1) =~= a.skip(1) + s);
        assert(all[0] == a[0]);
        if all.len() >= 5 {
            assert(all.take(5)[0] == a[0]);
        }
        assert(seq![a[0]] + (a.skip(1) + kept(s)) =~= a + kept(s));
    }
}

/// Held bytes that turn out to begin no query are kept.
proof fn lemma_held_is_kept(p: Seq<u8>, s: Seq<u8>)
    requires
        p.len() > 0,
        forall|i: int| 1 <= i < p.len() ==> #[trigger] p[i] != ESC,
        !begins_color_query(p + s),
        attributes_length(p + s) is None,
    ensures
        kept(p + s) == p + kept(s),
{
    let rest = p.skip(1);
    assert((p + s).skip(1) =~= rest + s);
    assert forall|i: int| 0 <= i < rest.len() implies #[trigger] rest[i] != ESC by {
        assert(rest[i] == p[i + 1]);
    }
    lemma_plain_is_kept(rest, s);
    assert(seq![p[0]] + (rest + kept(s)) =~= p + kept(s));
}

/// What is left of a stream that goes on inside a colour query.
spec fn kept_after_query(s: Seq<u8>) -> Seq<u8> {
    match color_query_rest(s) {
        Some(n) => kept(s.skip(n)),
        None => Seq::empty(),
    }
}

/// What comes out, and is held back at the end.
spec fn passed(m: FilterModel, s: Seq<u8>) -> Seq<u8> {
    filter_run(m, s).1 + filter_run(m, s).0.pending
}

/// No colour query begins with held bytes that are followed by an escape or by nothing.
proof fn lemma_held_begins_no_color_query(m: FilterModel, s: Seq<u8>)
    requires
        filter_wf(m),
        !discarding(m.state),
        m.pending.len() > 0,
        s.len() == 0 || s[0] == ESC || m.pending.len() == 5,
    ensures
        !begins_color_query(m.pending + s),
{
    let p = m.pending;
    let all = p + s;
    if begins_color_query(all) {
        let start = all.take(5);
        if p.len() == 5 {
            assert(start =~= p);
            assert(p[1] == RIGHT_BRACKET);
            assert(m.state == State::OscPrefix);
        } else if p.len() < 5 {
            assert(start[p.len() as int] == s[0]);
            assert(start[p.len() as int] == ESC);
            assert(false);
        } else {
            assert(m.state == State::InDa);
            assert(start[1] == p[1]);
        }
    }
}

/// No device attributes are complete in held bytes that are followed by `s`, where `s` cannot go on
/// with them.
proof fn lemma_held_is_no_attributes(m: FilterModel, s: Seq<u8>)
    requires
        filter_wf(m),
        !discarding(m.state),
        m.pending.len() > 0,
        s.len() == 0 || s[0] == ESC,
    ensures
        attributes_length(m.pending + s) is None,
{
    let p = m.pending;
    let all = p + s;
    if attributes_length(all) is Some {
        if m.state == State::InDa {
            let t = p.skip(3);
            assert forall|i: int| 0 <= i < t.len() implies #[trigger] t[i] != ESC && !ends_csi(
                t[i],
            ) by {
                assert(t[i] == p[i + 3]);
            }
            assert(all.skip(3) =~= t + s);
            lemma_attributes_rest_after(t, s);
        } else if p.len() >= 3 {
            assert(all[1] == p[1]);
        } else {
            assert(all[p.len() as int] == ESC);
        }
    }
}

proof fn lemma_passed_held(m: FilterModel, s: Seq<u8>)
    requires
        filter_wf(m),
        !discarding(m.state),
        s.len() == 0 || s[0] == ESC,
    ensures
        kept(m.pending + s) == m.pending + kept(s),
{
    let p = m.pending;
    if p.len() == 0 {
        assert(p + s =~= s);
        assert(p + kept(s) =~= kept(s));
    } else {
        lemma_held_begins_no_color_query(m, s);
        lemma_held_is_no_attributes(m, s);
        lemma_held_is_kept(p, s);
    }
}

/// Held bytes and one more that is no escape, as far as what is left of the stream goes.
proof fn lemma_kept_step(m: FilterModel, b: u8, s: Seq<u8>)
    requires
        filter_wf(m),
        !discarding(m.state),
        b != ESC,
    ensures
        ({
            let (m1, out) = filter_step(m, b);
            let held = m.pending.push(b);
            kept(held + s) == (if m1.state == State::InOsc {
                kept_after_query(s)
            } else {
                out + kept(m1.pending + s)
            })
        }),
{
    let (m1, out) = filter_step(m, b);
    let p = m.pending;
    let held = p.push(b);
    let all = held + s;
    assert(Seq::<u8>::empty() + s =~= s);
    assert(Seq::<u8>::empty() + kept(all) =~= kept(all));
    assert(all[p.len() as int] == b);
    assert(forall|i: int| 0 <= i < p.len() ==> #[trigger] all[i] == p[i]);
    if m1.state == State::InOsc {
        assert(all.take(5) =~= held);
        assert(all.skip(5) =~= s);
        lemma_color_query_rest(s);
        if let Some(n) = color_query_rest(s) {
            assert(all.skip(n + 5) =~= s.skip(n));
        }
    } else if m1.pending == held {
    } else if m.state == State::Normal {
        assert(held =~= seq![b]);
        lemma_plain_is_kept(held, s);
    } else if m.state == State::InDa {
        let t = p.skip(3);
        assert forall|i: int| 0 <= i < t.len() implies #[trigger] t[i] != ESC && !ends_csi(t[i]) by {
            assert(t[i] == p[i + 3]);
        }
        let after = seq![b] + s;
        assert(all.skip(3) =~= t + after);
        lemma_attributes_rest_after(t, after);
        if begins_color_query(all) {
            assert(all.take(5)[1] == all[1]);
        }
        if b == 0x63 {
            assert(attributes_length(all) == Some(held.len() as int));
            assert(all.skip(held.len() as int) =~= s);
            assert(Seq::<u8>::empty() + kept(s) =~= kept(s));
        } else {
            assert(attributes_length(all) is None);
            lemma_held_is_kept(held, s);
        }
    } else {
        if begins_color_query(all) {
            let start = all.take(5);
            if m.state == State::OscPrefix {
                assert(start =~= p);
            } else {
                assert(start[1] == all[1]);
            }
        }
        assert(attributes_length(all) is None);
        lemma_held_is_kept(held, s);
    }
}

proof fn lemma_passed(m: FilterModel, s: Seq<u8>)
    requires
        filter_wf(m),
    ensures
        passed(m, s) == (match m.state {
            State::InOsc => kept_after_query(s),
            State::OscSeenEsc => kept_after_query(seq![ESC] + s),
            _ => kept(m.pending + s),
        }),
    decreases s.len(),
{
    if s.len() == 0 {
        assert(passed(m, s) =~= m.pending);
        if m.state == State::OscSeenEsc {
            assert((seq![ESC] + s).skip(1) =~= s);
        } else if !discarding(m.state) {
            lemma_passed_held(m, s);
            assert(m.pending + kept(s) =~= m.pending);
        }
    } else {
        let b = s[0];
        let rest = s.skip(1);
        let (m1, out) = filter_step(m, b);
        lemma_step_keeps_wf(m, b);
        lemma_run_first(m, s);
        lemma_passed(m1, rest);
        assert(passed(m, s) =~= out + passed(m1, rest));
        assert(seq![b] + rest =~= s);
        assert(Seq::<u8>::empty() + passed(m1, rest) =~= passed(m1, rest));
        if m.state == State::OscSeenEsc {
            let all = seq![ESC] + s;
            assert(all.skip(1) =~= s);
            assert(all[1] == b);
            lemma_color_query_rest(s);
            lemma_color_query_rest(rest);
            assert(m1.pending + rest =~= rest);
            if b == BACKSLASH {
                assert(all.skip(2) =~= rest);
            } else if b == BEL {
                assert(color_query_rest(s) == Some(1int));
                assert(color_query_rest(all) == Some(2int));
                assert(all.skip(2) =~= rest);
            } else {
                lemma_query_goes_on(all);
                if b != ESC {
                    lemma_query_goes_on(s);
                }
            }
        } else if m.state == State::InOsc {
            lemma_color_query_rest(rest);
            assert(m1.pending + rest =~= rest);
            if b != BEL && b != ESC {
                lemma_query_goes_on(s);
            }
        } else if b == ESC {
            lemma_passed_held(m, s);
        } else {
            lemma_kept_step(m, b, rest);
            assert(m.pending.push(b) + rest =~= m.pending + s);
        }
    }
}

/// A byte that does not end a colour query changes nothing of what is left after it.
proof fn lemma_query_goes_on(s: Seq<u8>)
    requires
        s.len() > 0,
        s[0] != BEL,
        !(s.len() >= 2 && s[0] == ESC && s[1] == BACKSLASH),
    ensures
        kept_after_query(s) == kept_after_query(s.skip(1)),
{
    lemma_color_query_rest(s.skip(1));
    if let Some(n) = color_query_rest(s.skip(1)) {
        assert(s.skip(n + 1) =~= s.skip(1).skip(n));
    }
}

/// Complete colour queries and device attributes are dropped wherever they stand, and every other
/// byte passes in order: what has come out, and what is held back since it may begin a query, are
/// together what is left of the stream without them.
pub proof fn lemma_queries_are_dropped_and_nothing_else(input: Seq<u8>)
    ensures
        filter_run(filter_start(), input).1 + filter_run(filter_start(), input).0.pending == kept(
            input,
        ),
{
    lemma_passed(filter_start(), input);
    assert(Seq::<u8>::empty() + input =~= input);
}

proof fn lemma_rest_is_dropped(m: FilterModel, s: Seq<u8>)
    requires
        m.pending.len() == 0,
        m.state == State::InOsc && color_query_rest(s) == Some(s.len() as int) || m.state
            == State::OscSeenEsc && color_query_rest(seq![ESC] + s) == Some(s.len() as int + 1),
    ensures
        filter_run(m, s) == (filter_start(), Seq::<u8>::empty()),
    decreases s.len(),
{
    let all = if m.state == State::InOsc {
        s
    } else {
        seq![ESC] + s
    };
    assert((seq![ESC] + s).skip(1) =~= s);
    if s.len() == 0 {
        assert(all.skip(1) =~= s);
        assert(false);
    }
    let b = s[0];
    let rest = s.skip(1);
    let m1 = filter_step(m, b).0;
    let none = Seq::<u8>::empty();
    lemma_run_first(m, s);
    assert(none + none =~= none);
    assert(seq![b] + rest =~= s);
    lemma_color_query_rest(rest);
    lemma_color_query_rest(s);
    if m.state == State::OscSeenEsc {
        assert(all[1] == b);
    }
    if m1.state == State::Normal {
        assert(rest.len() == 0);
        assert(m1 =~= filter_start());
        assert(rest =~= none);
    } else {
        lemma_rest_is_dropped(m1, rest);
    }
}

proof fn lemma_attributes_are_dropped(m: FilterModel, s: Seq<u8>)
    requires
        m.state == State::InDa,
        attributes_rest(s) == Some(s.len() as int),
    ensures
        filter_run(m, s) == (filter_start(), Seq::<u8>::empty()),
    decreases s.len(),
{
    let none = Seq::<u8>::empty();
    let rest = s.skip(1);
    lemma_run_first(m, s);
    lemma_attributes_rest(rest);
    assert(none + none =~= none);
    if s[0] == 0x63 {
        assert(rest =~= none);
        assert(filter_step(m, s[0]).0 =~= filter_start());
    } else {
        lemma_attributes_are_dropped(filter_step(m, s[0]).0, rest);
    }
}

/// A complete query is dropped to the last byte, whatever is held back when it comes: that comes out,
/// and the stream goes on as if the query had never been there. Inside a colour query there is no
/// other.
pub proof fn lemma_query_is_dropped(m: FilterModel, q: Seq<u8>)
    requires
        filter_wf(m),
        !discarding(m.state),
        is_query(q),
    ensures
        filter_run(m, q) == (filter_start(), m.pending),
{
    let none = Seq::<u8>::empty();
    let m1 = FilterModel { state: State::Escape, pending: seq![ESC] };
    let q1 = q.skip(1);
    let q2 = q1.skip(1);
    let q3 = q2.skip(1);
    assert(none + none =~= none);
    assert(m.pending + none =~= m.pending);
    if begins_color_query(q) {
        let start = q.take(5);
        assert(forall|i: int| 0 <= i < 5 ==> #[trigger] start[i] == q[i]);
        assert(start.len() == 5);
        let m2 = FilterModel { state: State::OscPrefix, pending: q.take(2) };
        let m3 = FilterModel { state: State::OscPrefix, pending: q.take(3) };
        let m4 = FilterModel { state: State::OscPrefix, pending: q.take(4) };
        let m5 = FilterModel { state: State::InOsc, pending: none };
        let q4 = q3.skip(1);
        let q5 = q4.skip(1);
        assert(m1.pending.push(q[1]) =~= q.take(2));
        assert(q.take(2).push(q[2]) =~= q.take(3));
        assert(q.take(3).push(q[3]) =~= q.take(4));
        assert(q.take(4).push(q[4]) =~= start);
        lemma_run_first(m, q);
        lemma_run_first(m1, q1);
        lemma_run_first(m2, q2);
        lemma_run_first(m3, q3);
        lemma_run_first(m4, q4);
        assert(filter_step(m1, q[1]) == (m2, none));
        assert(filter_step(m2, q[2]) == (m3, none));
        assert(filter_step(m3, q[3]) == (m4, none));
        assert(filter_step(m4, q[4]) == (m5, none));
        assert(q5 =~= q.skip(5));
        lemma_rest_is_dropped(m5, q5);
    } else {
        let m2 = FilterModel { state: State::CsiPrefix, pending: seq![ESC, LEFT_BRACKET] };
        let m3 = FilterModel { state: State::InDa, pending: q.take(3) };
        assert(m1.pending.push(q[1]) =~= m2.pending);
        assert(m2.pending.push(q[2]) =~= q.take(3));
        lemma_run_first(m, q);
        lemma_run_first(m1, q1);
        lemma_run_first(m2, q2);
        assert(q3 =~= q.skip(3));
        lemma_attributes_are_dropped(m3, q3);
    }
}

/// Whether a text holds a string terminator at position `i`.
pub open spec fn terminator_at(text: Seq<u8>, i: int) -> bool {
    0 <= i && i + 1 < text.len() && text[i] == 0x1b && text[i + 1] == 0x5c
}

/// The bytes of a colour query: its beginning, a text, and its end.
proof fn lemma_text_to_the_end(text: Seq<u8>, end: Seq<u8>)
    requires
        forall|i: int| 0 <= i < text.len() ==> #[trigger] text[i] != BEL,
        forall|i: int| !#[trigger] terminator_at(text, i),
        end == seq![BEL] || end == seq![ESC, BACKSLASH],
    ensures
        color_query_rest(text + end) == Some((text.len() + end.len()) as int),
    decreases text.len(),
{
    let s = text + end;
    if text.len() == 0 {
        assert(s =~= end);
    } else {
        let rest = text.skip(1);
        assert forall|i: int| !#[trigger] terminator_at(rest, i) by {
            assert(!terminator_at(text, i + 1));
        }
        lemma_text_to_the_end(rest, end);
        assert(s.skip(1) =~= rest + end);
        assert(s[0] == text[0]);
        assert(!terminator_at(text, 0));
    }
}

/// A query for the colour of the text or of the background is dropped, or the answer to one, whatever
/// it says and however it ends.
pub proof fn lemma_colour_queries_are_dropped(digit: u8, text: Seq<u8>, with_bell: bool)
    requires
        digit == 0x30 || digit == 0x31,
        forall|i: int| 0 <= i < text.len() ==> #[trigger] text[i] != 0x07,
        forall|i: int| !#[trigger] terminator_at(text, i),
    ensures
        filter_run(
            filter_start(),
            seq![0x1bu8, 0x5d, 0x31, digit, 0x3b] + text + (if with_bell {
                seq![0x07u8]
            } else {
                seq![0x1bu8, 0x5c]
            }),
        ) == (filter_start(), Seq::<u8>::empty()),
{
    let end = if with_bell {
        seq![0x07u8]
    } else {
        seq![0x1bu8, 0x5c]
    };
    let q = seq![0x1bu8, 0x5d, 0x31, digit, 0x3b] + text + end;
    assert(q.take(5) =~= color_query_start(digit == 0x31));
    assert(q.skip(5) =~= text + end);
    lemma_text_to_the_end(text, end);
    assert(is_query(q));
    lemma_query_is_dropped(filter_start(), q);
}

/// Device attributes are dropped, primary or secondary, whatever their numbers.
pub proof fn lemma_device_attributes_are_dropped(lead: u8, numbers: Seq<u8>)
    requires
        lead == 0x3f || lead == 0x3e,
        forall|i: int|
            0 <= i < numbers.len() ==> #[trigger] numbers[i] != 0x1b && !(0x40 <= numbers[i]
                <= 0x7e),
    ensures
        filter_run(filter_start(), seq![0x1bu8, 0x5b, lead] + numbers + seq![0x63u8]) == (
            filter_start(),
            Seq::<u8>::empty(),
        ),
{
    let q = seq![0x1bu8, 0x5b, lead] + numbers + seq![0x63u8];
    let last = seq![0x63u8];
    assert(q.skip(3) =~= numbers + last);
    lemma_attributes_rest_after(numbers, last);
    assert(attributes_rest(last) == Some(1int));
    if begins_color_query(q) {
        assert(q.take(5)[1] == q[1]);
    }
    assert(is_query(q));
    lemma_query_is_dropped(filter_start(), q);
}

/// Any other control sequence comes out as it went in, and nothing of it is held back.
pub proof fn lemma_other_control_sequences_pass(numbers: Seq<u8>, last: u8)
    requires
        forall|i: int| 0 <= i < numbers.len() ==> 0x20 <= #[trigger] numbers[i] <= 0x3f,
        0x40 <= last <= 0x7e,
        !(numbers.len() > 0 && (numbers[0] == 0x3f || numbers[0] == 0x3e) && last == 0x63),
    ensures
        ({
            let s = seq![0x1bu8, 0x5b] + numbers + seq![last];
            filter_run(filter_start(), s) == (filter_start(), s)
        }),
{
    let s = seq![0x1bu8, 0x5b] + numbers + seq![last];
    let tail = numbers + seq![last];
    let none = Seq::<u8>::empty();
    let m1 = FilterModel { state: State::Escape, pending: seq![ESC] };
    let m2 = FilterModel { state: State::CsiPrefix, pending: seq![ESC, LEFT_BRACKET] };
    assert(m1.pending.push(LEFT_BRACKET) =~= m2.pending);
    lemma_run_first(filter_start(), s);
    assert(s.skip(1)[0] == LEFT_BRACKET);
    lemma_run_first(m1, s.skip(1));
    assert(s.skip(1).skip(1) =~= tail);
    assert(none + (none + filter_run(m2, tail).1) =~= filter_run(m2, tail).1);
    lemma_run_first(m2, tail);
    let rest = tail.skip(1);
    if tail[0] == QUESTION_MARK || tail[0] == GREATER_THAN {
        assert(numbers.len() > 0);
        let m3 = FilterModel { state: State::InDa, pending: m2.pending.push(tail[0]) };
        assert(rest =~= numbers.skip(1) + seq![last]);
        lemma_other_ending_is_released(m3, numbers.skip(1), last);
        assert(none + filter_run(m3, rest).1 =~= filter_run(m3, rest).1);
        assert(m3.pending + numbers.skip(1) + seq![last] =~= s);
    } else {
        assert forall|i: int| 0 <= i < rest.len() implies #[trigger] rest[i] != ESC by {
            assert(rest[i] == tail[i + 1]);
        }
        lemma_plain_text_passes(rest);
        assert(m2.pending.push(tail[0]) + rest =~= s);
        assert(filter_step(m2, tail[0]).0 =~= filter_start());
    }
}

proof fn lemma_other_ending_is_released(m: FilterModel, numbers: Seq<u8>, last: u8)
    requires
        m.state == State::InDa,
        forall|i: int| 0 <= i < numbers.len() ==> 0x20 <= #[trigger] numbers[i] <= 0x3f,
        0x40 <= last <= 0x7e,
        last != 0x63,
    ensures
        filter_run(m, numbers + seq![last]) == (
            filter_start(),
            m.pending + numbers + seq![last],
        ),
    decreases numbers.len(),
{
    let s = numbers + seq![last];
    let none = Seq::<u8>::empty();
    lemma_run_first(m, s);
    if numbers.len() == 0 {
        assert(s.skip(1) =~= none);
        assert(filter_step(m, s[0]).0 =~= filter_start());
        assert(m.pending.push(last) + none =~= m.pending + numbers + seq![last]);
    } else {
        let m1 = FilterModel { state: State::InDa, pending: m.pending.push(numbers[0]) };
        lemma_other_ending_is_released(m1, numbers.skip(1), last);
        assert(s.skip(1) =~= numbers.skip(1) + seq![last]);
        assert(none + (m1.pending + numbers.skip(1) + seq![last]) =~= m.pending + numbers + seq![
            last,
        ]);
    }
}

/// Any other operating system command comes out as it went in. Nothing of it is held back any more
/// once it has six bytes, however it goes on.
pub proof fn lemma_other_commands_pass(text: Seq<u8>)
    requires
        text.len() >= 4,
        forall|i: int| 0 <= i < text.len() ==> #[trigger] text[i] != 0x1b,
        !(text[0] == 0x31 && (text[1] == 0x30 || text[1] == 0x31) && text[2] == 0x3b),
    ensures
        ({
            let s = seq![0x1bu8, 0x5d] + text;
            filter_run(filter_start(), s) == (filter_start(), s)
        }),
{
    let s = seq![0x1bu8, 0x5d] + text;
    let none = Seq::<u8>::empty();
    let m0 = filter_start();
    let m1 = FilterModel { state: State::Escape, pending: s.take(1) };
    let m2 = FilterModel { state: State::OscPrefix, pending: s.take(2) };
    let m3 = FilterModel { state: State::OscPrefix, pending: s.take(3) };
    let m4 = FilterModel { state: State::OscPrefix, pending: s.take(4) };
    let m5 = FilterModel { state: State::OscPrefix, pending: s.take(5) };
    assert(s.take(1) =~= seq![ESC]);
    assert(s.take(1).push(s[1]) =~= s.take(2));
    assert(s.take(2).push(s[2]) =~= s.take(3));
    assert(s.take(3).push(s[3]) =~= s.take(4));
    assert(s.take(4).push(s[4]) =~= s.take(5));
    assert(s.take(5).push(s[5]) =~= s.take(6));
    assert(!is_color_query_start(s.take(3)) && !is_color_query_start(s.take(4))) by {
        assert(color_query_start(false).len() == 5 && color_query_start(true).len() == 5);
    }
    assert(!is_color_query_start(s.take(5))) by {
        assert(s.take(5)[2] == text[0] && s.take(5)[3] == text[1] && s.take(5)[4] == text[2]);
    }
    assert(!is_color_query_start(s.take(6))) by {
        assert(color_query_start(false).len() == 5 && color_query_start(true).len() == 5);
    }
    assert(forall|i: int| 2 <= i < s.len() ==> #[trigger] s[i] == text[i - 2]);
    assert(filter_step(m0, s[0]) == (m1, none));
    assert(filter_step(m1, s[1]) == (m2, none));
    assert(filter_step(m2, s[2]) == (m3, none));
    assert(filter_step(m3, s[3]) == (m4, none));
    assert(filter_step(m4, s[4]) == (m5, none));
    assert(filter_step(m5, s[5]).0 =~= m0);
    assert(filter_step(m5, s[5]).1 =~= s.take(6));
    lemma_run_first(m0, s);
    let s1 = s.skip(1);
    let s2 = s1.skip(1);
    let s3 = s2.skip(1);
    let s4 = s3.skip(1);
    let s5 = s4.skip(1);
    let s6 = s5.skip(1);
    lemma_run_first(m1, s1);
    lemma_run_first(m2, s2);
    lemma_run_first(m3, s3);
    lemma_run_first(m4, s4);
    lemma_run_first(m5, s5);
    assert(s6 =~= s.skip(6));
    assert forall|i: int| 0 <= i < s6.len() implies #[trigger] s6[i] != ESC by {
        assert(s6[i] == s[i + 6]);
    }
    lemma_plain_text_passes(s6);
    assert(s.take(6) + s6 =~= s);
    assert(none + (none + (none + (none + (none + (s.take(6) + s6))))) =~= s);
}

/// What is held back is never more than the beginning of what may still become a query: the last
/// bytes of the stream, from an escape on, no more than five of a command, and of a control sequence
/// only one that asks for attributes and has no last byte yet.
pub proof fn lemma_only_a_beginning_is_held_back(input: Seq<u8>)
    ensures
        ({
            let held = filter_run(filter_start(), input).0.pending;
            &&& held.is_suffix_of(input)
            &&& held.len() > 0 ==> held[0] == 0x1b
            &&& held.len() > 1 ==> held[1] == 0x5d && held.len() <= 5 || held[1] == 0x5b
            &&& held.len() > 2 && held[1] == 0x5b ==> held[2] == 0x3f || held[2] == 0x3e
            &&& held.len() > 3 && held[1] == 0x5b ==> forall|i: int|
                3 <= i < held.len() ==> !(0x40 <= #[trigger] held[i] <= 0x7e)
        }),
{
    lemma_held_is_at_the_end(input);
}

proof fn lemma_held_is_at_the_end(input: Seq<u8>)
    ensures
        filter_wf(filter_run(filter_start(), input).0),
        filter_run(filter_start(), input).0.pending.is_suffix_of(input),
    decreases input.len(),
{
    let m = filter_run(filter_start(), input).0;
    if input.len() == 0 {
        assert(input.skip(0) =~= Seq::<u8>::empty());
    } else {
        let init = input.drop_last();
        let b = input.last();
        lemma_held_is_at_the_end(init);
        let before = filter_run(filter_start(), init).0;
        lemma_step_keeps_wf(before, b);
        let p = before.pending;
        let q = m.pending;
        assert(m == filter_step(before, b).0);
        assert(q == p.push(b) || q == seq![b] || q.len() == 0);
        assert(init.skip(init.len() - p.len()) == p);
        assert(input.skip(input.len() - q.len()) =~= q);
    }
}

} // verus!
