//! Picks complete clipboard writes out of a byte stream and drops everything else.
use crate::ascii::{BACKSLASH, BEL, ESC, LEFT_BRACKET, RIGHT_BRACKET, SEMICOLON};
use crate::buffer::{has_prefix, same_bytes};
use vstd::prelude::*;

verus! {

/// Where in a clipboard write the stream stands.
#[derive(Debug, Clone, Copy, PartialEq, Eq, Structural)]
pub enum State {
    Normal,
    /// After an escape.
    Escape,
    /// In the beginning that all clipboard writes share.
    OscPrefix,
    /// After that beginning.
    InOsc52,
    /// After that beginning, and just after an escape.
    Osc52SeenEsc,
}

/// Where the stream stands, and the part of a clipboard write that has been read.
#[verifier::ext_equal]
pub ghost struct ExtractModel {
    pub state: State,
    pub buffer: Seq<u8>,
}

/// Nothing has been read yet.
pub open spec fn extract_start() -> ExtractModel {
    ExtractModel { state: State::Normal, buffer: Seq::empty() }
}

/// How every clipboard write begins.
pub open spec fn write_start() -> Seq<u8> {
    seq![ESC, RIGHT_BRACKET, 0x35, 0x32, SEMICOLON]
}

/// A clipboard write that names a clipboard: where none is named, the letter `c` is put in, since
/// some terminals take no write without.
pub open spec fn with_target(write: Seq<u8>) -> Seq<u8> {
    if (write_start() + seq![SEMICOLON]).is_prefix_of(write) {
        write_start() + seq![0x63u8, SEMICOLON] + write.skip(6)
    } else {
        write
    }
}

/// What one byte does: where the stream then stands, and which bytes come out.
pub open spec fn extract_step(m: ExtractModel, b: u8) -> (ExtractModel, Seq<u8>) {
    let none = Seq::<u8>::empty();
    let read = m.buffer.push(b);
    let go = |state: State, buffer: Seq<u8>| (ExtractModel { state, buffer }, none);
    let done = (extract_start(), with_target(read));
    match m.state {
        State::Normal => if b == ESC {
            go(State::Escape, read)
        } else {
            (m, none)
        },
        State::Escape => if b == RIGHT_BRACKET {
            go(State::OscPrefix, read)
        } else if b == ESC {
            go(State::Escape, seq![ESC])
        } else {
            go(State::Normal, none)
        },
        State::OscPrefix => if read == write_start() {
            go(State::InOsc52, read)
        } else if read.is_prefix_of(write_start()) {
            go(State::OscPrefix, read)
        } else if b == ESC {
            go(State::Escape, seq![ESC])
        } else {
            go(State::Normal, none)
        },
        State::InOsc52 => if b == BEL {
            done
        } else if b == ESC {
            go(State::Osc52SeenEsc, read)
        } else {
            go(State::InOsc52, read)
        },
        State::Osc52SeenEsc => if b == BACKSLASH || b == BEL {
            done
        } else if b == RIGHT_BRACKET {
            go(State::OscPrefix, seq![ESC, RIGHT_BRACKET])
        } else if b == LEFT_BRACKET {
            go(State::Normal, none)
        } else if b == ESC {
            go(State::Osc52SeenEsc, read)
        } else {
            go(State::InOsc52, read)
        },
    }
}

/// What a piece of the stream does: where the stream then stands, and which bytes come out.
pub open spec fn extract_run(m: ExtractModel, input: Seq<u8>) -> (ExtractModel, Seq<u8>)
    decreases input.len(),
{
    if input.len() == 0 {
        (m, Seq::empty())
    } else {
        let (m1, out) = extract_run(m, input.drop_last());
        let (m2, last) = extract_step(m1, input.last());
        (m2, out + last)
    }
}

/// Whether the bytes can stand in a clipboard write after its beginning without ending it or
/// breaking it off, and if so, whether they end in an escape.
pub open spec fn payload(p: Seq<u8>) -> Option<bool>
    decreases p.len(),
{
    if p.len() == 0 {
        Some(false)
    } else {
        let b = p.last();
        match payload(p.drop_last()) {
            None => None,
            Some(seen) => if b == BEL || seen && (b == BACKSLASH || b == RIGHT_BRACKET || b
                == LEFT_BRACKET) {
                None
            } else {
                Some(b == ESC)
            },
        }
    }
}

/// A clipboard write from its beginning to its terminator: a bell, or an escape and a backslash.
pub open spec fn complete_write(w: Seq<u8>) -> bool {
    &&& w.len() >= 6
    &&& write_start().is_prefix_of(w)
    &&& payload(w.subrange(5, w.len() - 1)) is Some
    &&& w.last() == BEL || (w.last() == BACKSLASH && payload(w.subrange(5, w.len() - 1)) == Some(
        true,
    ))
}

/// What has been read in which state.
pub open spec fn extract_wf(m: ExtractModel) -> bool {
    match m.state {
        State::Normal => m.buffer.len() == 0,
        State::Escape => m.buffer == seq![ESC],
        State::OscPrefix => 2 <= m.buffer.len() < 5 && m.buffer.is_prefix_of(write_start()),
        State::InOsc52 => write_start().is_prefix_of(m.buffer) && payload(m.buffer.skip(5)) == Some(
            false,
        ),
        State::Osc52SeenEsc => write_start().is_prefix_of(m.buffer) && payload(m.buffer.skip(5))
            == Some(true),
    }
}

/// Picks complete clipboard writes out of a stream that comes in pieces. A write that begins in one
/// piece and ends in a later one comes out whole.
pub struct Osc52Extractor {
    state: State,
    buffer: Vec<u8>,
}

impl Default for Osc52Extractor {
    fn default() -> (r: Self)
        ensures
            r.model() == extract_start(),
    {
        let r: Osc52Extractor = Osc52Extractor { state: State::Normal, buffer: Vec::new() };
        assert(r.model() =~= extract_start());
        r
    }
}

impl Osc52Extractor {
    /// Where the stream stands.
    pub closed spec fn model(self) -> ExtractModel {
        ExtractModel { state: self.state, buffer: self.buffer@ }
    }

    /// Hands out the write that has been read to its end.
    fn flush_complete_osc52(&mut self, output: &mut Vec<u8>)
        ensures
            final(output)@ == old(output)@ + with_target(old(self).buffer@),
            final(self).buffer@ == Seq::<u8>::empty(),
            final(self).state == old(self).state,
    {
        let ghost start = output@;
        let ghost write = self.buffer@;
        let untargeted: [u8; 6] = [ESC, RIGHT_BRACKET, 0x35, 0x32, SEMICOLON, SEMICOLON];
        assert(untargeted@ =~= write_start() + seq![SEMICOLON]);
        if has_prefix(self.buffer.as_slice(), &untargeted) {
            output.extend_from_slice(&[ESC, RIGHT_BRACKET, 0x35, 0x32, SEMICOLON, 0x63, SEMICOLON]);
            output.extend_from_slice(&self.buffer.as_slice()[6..self.buffer.len()]);
            assert(output@ =~= start + with_target(write));
        } else {
            output.append(&mut self.buffer);
        }
        self.buffer.clear();
    }

    fn step(&mut self, b: u8, output: &mut Vec<u8>)
        requires
            extract_wf(old(self).model()),
        ensures
            final(self).model() == extract_step(old(self).model(), b).0,
            final(output)@ == old(output)@ + extract_step(old(self).model(), b).1,
            extract_wf(final(self).model()),
    {
        let ghost m = self.model();
        proof {
            lemma_step_keeps_wf(m, b);
            assert(output@ + Seq::<u8>::empty() =~= output@);
        }
        match self.state {
            State::Normal => {
                if b == ESC {
                    self.state = State::Escape;
                    self.buffer.push(b);
                }
            },
            State::Escape => {
                self.buffer.push(b);
                if b == RIGHT_BRACKET {
                    self.state = State::OscPrefix;
                } else if b == ESC {
                    self.buffer.clear();
                    self.buffer.push(b);
                    assert(self.buffer@ =~= seq![ESC]);
                } else {
                    self.buffer.clear();
                    self.state = State::Normal;
                }
            },
            State::OscPrefix => {
                self.buffer.push(b);
                let target: [u8; 5] = [ESC, RIGHT_BRACKET, 0x35, 0x32, SEMICOLON];
                assert(target@ =~= write_start());
                if same_bytes(self.buffer.as_slice(), &target) {
                    self.state = State::InOsc52;
                } else if !has_prefix(&target, self.buffer.as_slice()) {
                    self.buffer.clear();
                    if b == ESC {
                        self.state = State::Escape;
                        self.buffer.push(b);
                        assert(self.buffer@ =~= seq![ESC]);
                    } else {
                        self.state = State::Normal;
                    }
                }
            },
            State::InOsc52 => {
                self.buffer.push(b);
                if b == BEL {
                    self.flush_complete_osc52(output);
                    self.state = State::Normal;
                } else if b == ESC {
                    self.state = State::Osc52SeenEsc;
                }
            },
            State::Osc52SeenEsc => {
                self.buffer.push(b);
                if b == BACKSLASH || b == BEL {
                    self.flush_complete_osc52(output);
                    self.state = State::Normal;
                } else if b == RIGHT_BRACKET {
                    self.buffer.clear();
                    self.buffer.push(ESC);
                    self.buffer.push(b);
                    assert(self.buffer@ =~= seq![ESC, RIGHT_BRACKET]);
                    self.state = State::OscPrefix;
                } else if b == LEFT_BRACKET {
                    self.buffer.clear();
                    self.state = State::Normal;
                } else if b != ESC {
                    self.state = State::InOsc52;
                }
            },
        }
        assert(self.model() =~= extract_step(m, b).0);
    }

    /// Strips everything except complete clipboard writes from one piece of the stream.
    pub fn extract(&mut self, input: &[u8]) -> (r: Vec<u8>)
        requires
            extract_wf(old(self).model()),
        ensures
            extract_wf(final(self).model()),
            final(self).model() == extract_run(old(self).model(), input@).0,
            r@ == extract_run(old(self).model(), input@).1,
    {
        let ghost m = self.model();
        let mut output: Vec<u8> = Vec::new();
        let n: usize = input.len();
        let mut i: usize = 0;
        assert(input@.take(0) =~= Seq::<u8>::empty());
        while i < n
            invariant
                i <= n,
                n == input@.len(),
                extract_wf(self.model()),
                self.model() == extract_run(m, input@.take(i as int)).0,
                output@ == extract_run(m, input@.take(i as int)).1,
            decreases n - i,
        {
            self.step(input[i], &mut output);
            i += 1;
            proof {
                let t = input@.take(i as int);
                assert(t.drop_last() =~= input@.take(i - 1));
                assert(t.last() == input@[i - 1]);
            }
        }
        assert(input@.take(n as int) =~= input@);
        output
    }
}

proof fn lemma_step_keeps_wf(m: ExtractModel, b: u8)
    requires
        extract_wf(m),
    ensures
        extract_wf(extract_step(m, b).0),
        extract_step(m, b).1.len() > 0 ==> complete_write(m.buffer.push(b)) && extract_step(m, b).1
            == with_target(m.buffer.push(b)),
{
    let read = m.buffer.push(b);
    match m.state {
        State::Normal => {
            assert(m.buffer.push(ESC) =~= seq![ESC]);
        },
        State::Escape => {
            assert(read.is_prefix_of(write_start()) <==> b == RIGHT_BRACKET) by {
                assert(write_start().take(2) =~= seq![ESC, RIGHT_BRACKET]);
                assert(read =~= seq![ESC, b]);
            }
        },
        State::OscPrefix => {
            if read == write_start() {
                assert(read.skip(5) =~= Seq::<u8>::empty());
            } else if read.is_prefix_of(write_start()) {
                if read.len() >= 5 {
                    assert(read =~= write_start());
                }
            }
        },
        State::InOsc52 | State::Osc52SeenEsc => {
            let p = m.buffer.skip(5);
            assert(read.skip(5) =~= p.push(b));
            assert(p.push(b).drop_last() =~= p);
            assert(read.subrange(5, read.len() - 1) =~= p);
            assert(write_start().is_prefix_of(read));
            assert(seq![ESC, RIGHT_BRACKET].is_prefix_of(write_start())) by {
                assert(write_start().take(2) =~= seq![ESC, RIGHT_BRACKET]);
            }
        },
    }
}

/// It does not matter how a stream is cut into pieces.
pub proof fn lemma_extract_in_pieces(m: ExtractModel, a: Seq<u8>, b: Seq<u8>)
    ensures
        extract_run(m, a + b).0 == extract_run(extract_run(m, a).0, b).0,
        extract_run(m, a + b).1 == extract_run(m, a).1 + extract_run(extract_run(m, a).0, b).1,
    decreases b.len(),
{
    let (m1, out) = extract_run(m, a);
    if b.len() == 0 {
        assert(a + b =~= a);
        assert(out + Seq::<u8>::empty() =~= out);
    } else {
        lemma_extract_in_pieces(m, a, b.drop_last());
        assert((a + b).drop_last() =~= a + b.drop_last());
        let (m2, x) = extract_run(m1, b.drop_last());
        let y = extract_step(m2, b.last()).1;
        assert((out + x) + y =~= out + (x + y));
    }
}

/// Nothing comes out of a stream without escapes.
pub proof fn lemma_plain_text_yields_nothing(input: Seq<u8>)
    requires
        forall|i: int| 0 <= i < input.len() ==> #[trigger] input[i] != ESC,
    ensures
        extract_run(extract_start(), input) == (extract_start(), Seq::<u8>::empty()),
    decreases input.len(),
{
    if input.len() > 0 {
        lemma_plain_text_yields_nothing(input.drop_last());
        assert(Seq::<u8>::empty() + Seq::<u8>::empty() =~= Seq::<u8>::empty());
    }
}

/// The given clipboard writes one after the other, each with its clipboard named.
pub open spec fn joined(writes: Seq<Seq<u8>>) -> Seq<u8>
    decreases writes.len(),
{
    if writes.len() == 0 {
        Seq::empty()
    } else {
        joined(writes.drop_last()) + with_target(writes.last())
    }
}

/// Whether the bytes are the given complete clipboard writes, each with its clipboard named.
pub open spec fn is_writes(out: Seq<u8>, writes: Seq<Seq<u8>>) -> bool {
    &&& forall|i: int| 0 <= i < writes.len() ==> complete_write(#[trigger] writes[i])
    &&& out == joined(writes)
}

/// All that ever comes out is complete clipboard writes, each with its clipboard named.
pub proof fn lemma_only_writes_come_out(m: ExtractModel, input: Seq<u8>)
    requires
        extract_wf(m),
    ensures
        extract_wf(extract_run(m, input).0),
        exists|writes: Seq<Seq<u8>>| is_writes(extract_run(m, input).1, writes),
    decreases input.len(),
{
    if input.len() == 0 {
        assert(is_writes(extract_run(m, input).1, Seq::empty()));
    } else {
        lemma_only_writes_come_out(m, input.drop_last());
        let (m1, out) = extract_run(m, input.drop_last());
        let b = input.last();
        let writes = choose|writes: Seq<Seq<u8>>| is_writes(out, writes);
        lemma_step_keeps_wf(m1, b);
        let last = extract_step(m1, b).1;
        if last.len() > 0 {
            let more = writes.push(m1.buffer.push(b));
            assert(more.drop_last() =~= writes);
            assert(is_writes(extract_run(m, input).1, more));
        } else {
            assert(out + last =~= out);
            assert(is_writes(extract_run(m, input).1, writes));
        }
    }
}

proof fn lemma_start_is_read()
    ensures
        extract_run(extract_start(), write_start()) == (
            ExtractModel { state: State::InOsc52, buffer: write_start() },
            Seq::<u8>::empty(),
        ),
{
    let none = Seq::<u8>::empty();
    let s = write_start();
    let m0 = extract_start();
    let m1 = ExtractModel { state: State::Escape, buffer: s.take(1) };
    let m2 = ExtractModel { state: State::OscPrefix, buffer: s.take(2) };
    let m3 = ExtractModel { state: State::OscPrefix, buffer: s.take(3) };
    let m4 = ExtractModel { state: State::OscPrefix, buffer: s.take(4) };
    let m5 = ExtractModel { state: State::InOsc52, buffer: s };
    assert(none + none =~= none);
    assert(m0.buffer.push(s[0]) =~= s.take(1));
    assert(s.take(1).push(s[1]) =~= s.take(2));
    assert(s.take(2).push(s[2]) =~= s.take(3));
    assert(s.take(3).push(s[3]) =~= s.take(4));
    assert(s.take(4).push(s[4]) =~= s);
    assert(s.take(3).len() != s.len() && s.take(4).len() != s.len());
    assert(s.take(3).is_prefix_of(s) && s.take(4).is_prefix_of(s));
    assert(extract_step(m0, s[0]) == (m1, none));
    assert(extract_step(m1, s[1]) == (m2, none));
    assert(extract_step(m2, s[2]) == (m3, none));
    assert(extract_step(m3, s[3]) == (m4, none));
    assert(extract_step(m4, s[4]) == (m5, none));
    assert(s.take(1).drop_last() =~= none);
    assert(s.take(2).drop_last() =~= s.take(1));
    assert(s.take(3).drop_last() =~= s.take(2));
    assert(s.take(4).drop_last() =~= s.take(3));
    assert(s.drop_last() =~= s.take(4));
    assert(extract_run(m0, none) == (m0, none));
    assert(extract_run(m0, s.take(1)) == (m1, none));
    assert(extract_run(m0, s.take(2)) == (m2, none));
    assert(extract_run(m0, s.take(3)) == (m3, none));
    assert(extract_run(m0, s.take(4)) == (m4, none));
    assert(extract_run(m0, s) == (m5, none));
}

proof fn lemma_payload_is_read(p: Seq<u8>)
    requires
        payload(p) is Some,
    ensures
        extract_run(extract_start(), write_start() + p) == (
            ExtractModel {
                state: if payload(p) == Some(true) {
                    State::Osc52SeenEsc
                } else {
                    State::InOsc52
                },
                buffer: write_start() + p,
            },
            Seq::<u8>::empty(),
        ),
    decreases p.len(),
{
    if p.len() == 0 {
        assert(write_start() + p =~= write_start());
        lemma_start_is_read();
    } else {
        lemma_payload_is_read(p.drop_last());
        assert((write_start() + p).drop_last() =~= write_start() + p.drop_last());
        assert((write_start() + p.drop_last()).push(p.last()) =~= write_start() + p);
        assert(Seq::<u8>::empty() + Seq::<u8>::empty() =~= Seq::<u8>::empty());
    }
}

/// A complete clipboard write comes out whole, and the stream goes on from the start.
pub proof fn lemma_complete_write_comes_out(w: Seq<u8>)
    requires
        complete_write(w),
    ensures
        extract_run(extract_start(), w) == (extract_start(), with_target(w)),
{
    let p = w.subrange(5, w.len() - 1);
    lemma_payload_is_read(p);
    assert(w.drop_last() =~= write_start() + p) by {
        assert(w.take(5) =~= write_start());
    }
    assert((write_start() + p).push(w.last()) =~= w);
    assert(Seq::<u8>::empty() + with_target(w) =~= with_target(w));
}

proof fn lemma_payload_prefix(q: Seq<u8>)
    requires
        payload(seq![SEMICOLON] + q) is Some,
    ensures
        payload(seq![0x63u8, SEMICOLON] + q) == payload(seq![SEMICOLON] + q),
    decreases q.len(),
{
    let a = seq![SEMICOLON] + q;
    let b = seq![0x63u8, SEMICOLON] + q;
    if q.len() == 0 {
        assert(a.drop_last() =~= Seq::<u8>::empty());
        assert(b.drop_last() =~= seq![0x63u8]);
        assert(seq![0x63u8].drop_last() =~= Seq::<u8>::empty());
        reveal_with_fuel(payload, 3);
    } else {
        assert(a.drop_last() =~= seq![SEMICOLON] + q.drop_last());
        assert(b.drop_last() =~= seq![0x63u8, SEMICOLON] + q.drop_last());
        assert(a.last() == b.last());
        lemma_payload_prefix(q.drop_last());
    }
}

proof fn lemma_with_target_is_complete(w: Seq<u8>)
    requires
        complete_write(w),
    ensures
        complete_write(with_target(w)),
        with_target(with_target(w)) == with_target(w),
{
    if (write_start() + seq![SEMICOLON]).is_prefix_of(w) {
        let t = with_target(w);
        let p = w.subrange(5, w.len() - 1);
        assert(w[5] == (write_start() + seq![SEMICOLON])[5]);
        let q = w.subrange(6, w.len() - 1);
        assert(p =~= seq![SEMICOLON] + q);
        lemma_payload_prefix(q);
        assert(t.subrange(5, t.len() - 1) =~= seq![0x63u8, SEMICOLON] + q);
        assert(t.take(5) =~= write_start());
        assert(t[5] == 0x63);
        assert(!(write_start() + seq![SEMICOLON]).is_prefix_of(t));
    }
}

/// What has come out once comes out again unchanged: extracting twice is extracting once.
pub proof fn lemma_extract_is_idempotent(input: Seq<u8>)
    ensures
        extract_run(extract_start(), extract_run(extract_start(), input).1) == (
            extract_start(),
            extract_run(extract_start(), input).1,
        ),
{
    lemma_only_writes_come_out(extract_start(), input);
    let out = extract_run(extract_start(), input).1;
    let writes = choose|writes: Seq<Seq<u8>>| is_writes(out, writes);
    lemma_writes_come_out_again(writes);
}

proof fn lemma_writes_come_out_again(writes: Seq<Seq<u8>>)
    requires
        forall|i: int| 0 <= i < writes.len() ==> complete_write(#[trigger] writes[i]),
    ensures
        extract_run(extract_start(), joined(writes)) == (extract_start(), joined(writes)),
    decreases writes.len(),
{
    if writes.len() > 0 {
        let rest = writes.drop_last();
        let w = writes.last();
        lemma_writes_come_out_again(rest);
        lemma_with_target_is_complete(w);
        lemma_complete_write_comes_out(with_target(w));
        lemma_extract_in_pieces(extract_start(), joined(rest), with_target(w));
    }
}

/// Whether a text is broken off at position `i`: by a string terminator, or by an escape that begins
/// another sequence.
pub open spec fn broken_off_at(text: Seq<u8>, i: int) -> bool {
    0 <= i && i + 1 < text.len() && text[i] == 0x1b && (text[i + 1] == 0x5c || text[i + 1] == 0x5d
        || text[i + 1] == 0x5b)
}

proof fn lemma_whole_text_is_payload(p: Seq<u8>)
    requires
        forall|i: int| 0 <= i < p.len() ==> #[trigger] p[i] != BEL,
        forall|i: int| !#[trigger] broken_off_at(p, i),
    ensures
        payload(p) == Some(p.len() > 0 && p.last() == ESC),
    decreases p.len(),
{
    if p.len() > 0 {
        let init = p.drop_last();
        assert forall|i: int| !#[trigger] broken_off_at(init, i) by {
            assert(!broken_off_at(p, i));
        }
        lemma_whole_text_is_payload(init);
        assert(!broken_off_at(p, p.len() - 2));
    }
}

/// A clipboard write comes out as it went in, byte for byte, however it ends. Only where it names no
/// clipboard is the letter `c` put in.
pub proof fn lemma_writes_come_out_unchanged(text: Seq<u8>, with_bell: bool)
    requires
        forall|i: int| 0 <= i < text.len() ==> #[trigger] text[i] != 0x07,
        forall|i: int| !#[trigger] broken_off_at(text, i),
    ensures
        ({
            let start = seq![0x1bu8, 0x5d, 0x35, 0x32, 0x3b];
            let end = if with_bell {
                seq![0x07u8]
            } else {
                seq![0x1bu8, 0x5c]
            };
            let w = start + text + end;
            extract_run(extract_start(), w) == (
                extract_start(),
                if text.len() > 0 && text[0] == 0x3b {
                    start + seq![0x63u8] + text + end
                } else {
                    w
                },
            )
        }),
{
    let start = seq![0x1bu8, 0x5d, 0x35, 0x32, 0x3b];
    let end = if with_bell {
        seq![0x07u8]
    } else {
        seq![0x1bu8, 0x5c]
    };
    let w = start + text + end;
    assert(start =~= write_start());
    assert(w.take(5) =~= write_start());
    let p = w.subrange(5, w.len() - 1);
    lemma_whole_text_is_payload(text);
    if with_bell {
        assert(p =~= text);
    } else {
        assert(p =~= text.push(ESC));
        assert(p.drop_last() =~= text);
    }
    assert(complete_write(w));
    lemma_complete_write_comes_out(w);
    let untargeted = write_start() + seq![SEMICOLON];
    if text.len() > 0 && text[0] == 0x3b {
        assert(w.take(6) =~= untargeted);
        assert(with_target(w) =~= start + seq![0x63u8] + text + end);
    } else {
        if untargeted.is_prefix_of(w) {
            assert(w.take(6)[5] == untargeted[5]);
            assert(w[5] == SEMICOLON);
        }
    }
}

/// Nothing is left of a write that is broken off by a control sequence or by another command: that one
/// is read as if the write had never begun.
pub proof fn lemma_broken_writes_are_forgotten(text: Seq<u8>, rest: Seq<u8>)
    requires
        forall|i: int| 0 <= i < text.len() ==> #[trigger] text[i] != 0x07,
        forall|i: int| !#[trigger] broken_off_at(text, i),
        text.len() > 0 ==> text.last() != 0x1b,
    ensures
        ({
            let begun = seq![0x1bu8, 0x5d, 0x35, 0x32, 0x3b] + text;
            let command = seq![0x1bu8, 0x5d] + rest;
            let control = seq![0x1bu8, 0x5b] + rest;
            &&& extract_run(extract_start(), begun).1.len() == 0
            &&& extract_run(extract_start(), begun + command) == extract_run(
                extract_start(),
                command,
            )
            &&& extract_run(extract_start(), begun + control) == extract_run(
                extract_start(),
                control,
            )
        }),
{
    let none = Seq::<u8>::empty();
    let begun = seq![0x1bu8, 0x5d, 0x35, 0x32, 0x3b] + text;
    assert(begun =~= write_start() + text);
    lemma_whole_text_is_payload(text);
    lemma_payload_is_read(text);
    let m = extract_run(extract_start(), begun).0;
    assert(m.state == State::InOsc52);
    let m1 = ExtractModel { state: State::Osc52SeenEsc, buffer: m.buffer.push(ESC) };
    let e1 = ExtractModel { state: State::Escape, buffer: seq![ESC] };
    assert(extract_start().buffer.push(ESC) =~= seq![ESC]);
    assert(extract_step(extract_start(), ESC) == (e1, none));
    assert(extract_step(m, ESC) == (m1, none));
    let command = seq![0x1bu8, 0x5d] + rest;
    let control = seq![0x1bu8, 0x5b] + rest;
    lemma_extract_in_pieces(extract_start(), begun, command);
    lemma_extract_in_pieces(extract_start(), begun, control);
    lemma_step_first(m, command);
    lemma_step_first(m, control);
    lemma_step_first(extract_start(), command);
    lemma_step_first(extract_start(), control);
    let c1 = command.skip(1);
    let d1 = control.skip(1);
    lemma_step_first(m1, c1);
    lemma_step_first(e1, c1);
    lemma_step_first(m1, d1);
    lemma_step_first(e1, d1);
    assert(c1[0] == RIGHT_BRACKET && d1[0] == LEFT_BRACKET);
    assert(seq![ESC].push(RIGHT_BRACKET) =~= seq![ESC, RIGHT_BRACKET]);
    assert(extract_step(m1, RIGHT_BRACKET) == extract_step(e1, RIGHT_BRACKET));
    assert(extract_step(m1, LEFT_BRACKET) == extract_step(e1, LEFT_BRACKET));
    let x = extract_run(extract_start(), command).1;
    let y = extract_run(extract_start(), control).1;
    assert(none + x =~= x);
    assert(none + y =~= y);
}

proof fn lemma_step_first(m: ExtractModel, s: Seq<u8>)
    requires
        s.len() > 0,
    ensures
        extract_run(m, s).0 == extract_run(extract_step(m, s[0]).0, s.skip(1)).0,
        extract_run(m, s).1 == extract_step(m, s[0]).1 + extract_run(
            extract_step(m, s[0]).0,
            s.skip(1),
        ).1,
{
    assert(seq![s[0]] + s.skip(1) =~= s);
    lemma_extract_in_pieces(m, seq![s[0]], s.skip(1));
    reveal_with_fuel(extract_run, 2);
    assert(seq![s[0]].drop_last() =~= Seq::<u8>::empty());
    assert(Seq::<u8>::empty() + extract_step(m, s[0]).1 =~= extract_step(m, s[0]).1);
}

/// Nothing comes out of any other escape sequence: neither of another operating system command nor of
/// a control sequence.
pub proof fn lemma_other_sequences_yield_nothing(text: Seq<u8>)
    requires
        text.len() >= 1,
        forall|i: int| 0 <= i < text.len() ==> #[trigger] text[i] != 0x1b,
        !(text.len() >= 4 && text[0] == 0x5d && text[1] == 0x35 && text[2] == 0x32 && text[3]
            == 0x3b),
        text[0] == 0x5d ==> text.last() == 0x07,
    ensures
        extract_run(extract_start(), seq![0x1bu8] + text) == (
            extract_start(),
            Seq::<u8>::empty(),
        ),
{
    let none = Seq::<u8>::empty();
    let s = seq![0x1bu8] + text;
    let m0 = extract_start();
    let m1 = ExtractModel { state: State::Escape, buffer: seq![ESC] };
    assert(m0.buffer.push(ESC) =~= seq![ESC]);
    assert(extract_step(m0, s[0]) == (m1, none));
    lemma_step_first(m0, s);
    assert(s.skip(1) =~= text);
    assert(none + none =~= none);
    lemma_step_first(m1, text);
    let t1 = text.skip(1);
    lemma_rest_is_plain(text, 1);
    if text[0] != RIGHT_BRACKET {
        assert(extract_step(m1, text[0]).0 =~= m0);
    } else {
        let w = write_start();
        let m2 = ExtractModel { state: State::OscPrefix, buffer: w.take(2) };
        let m3 = ExtractModel { state: State::OscPrefix, buffer: w.take(3) };
        let m4 = ExtractModel { state: State::OscPrefix, buffer: w.take(4) };
        assert(seq![ESC].push(RIGHT_BRACKET) =~= w.take(2));
        assert(t1.len() > 0);
        lemma_step_first(m2, t1);
        lemma_rest_is_plain(text, 2);
        assert(t1.skip(1) =~= text.skip(2));
        assert(t1[0] == text[1]);
        lemma_prefix_goes_on(2, text[1]);
        if text[1] == 0x35 {
            lemma_step_first(m3, text.skip(2));
            lemma_rest_is_plain(text, 3);
            assert(text.skip(2).skip(1) =~= text.skip(3));
            assert(text.skip(2)[0] == text[2]);
            lemma_prefix_goes_on(3, text[2]);
            if text[2] == 0x32 {
                lemma_step_first(m4, text.skip(3));
                lemma_rest_is_plain(text, 4);
                assert(text.skip(3).skip(1) =~= text.skip(4));
                assert(text.skip(3)[0] == text[3]);
                lemma_prefix_goes_on(4, text[3]);
            }
        }
    }
}

proof fn lemma_rest_is_plain(text: Seq<u8>, n: int)
    requires
        0 <= n,
        forall|i: int| 0 <= i < text.len() ==> #[trigger] text[i] != 0x1b,
    ensures
        n <= text.len() ==> extract_run(extract_start(), text.skip(n)) == (
            extract_start(),
            Seq::<u8>::empty(),
        ),
{
    if n <= text.len() {
        let rest = text.skip(n);
        assert forall|i: int| 0 <= i < rest.len() implies #[trigger] rest[i] != ESC by {
            assert(rest[i] == text[i + n]);
        }
        lemma_plain_text_yields_nothing(rest);
    }
}

/// After `n` bytes of the beginning of a write, the next one goes on with it or breaks it off.
proof fn lemma_prefix_goes_on(n: int, b: u8)
    requires
        2 <= n <= 4,
        b != ESC,
    ensures
        ({
            let w = write_start();
            let m = ExtractModel { state: State::OscPrefix, buffer: w.take(n) };
            &&& b != w[n] ==> extract_step(m, b) == (extract_start(), Seq::<u8>::empty())
            &&& b == w[n] && n < 4 ==> extract_step(m, b) == (
                ExtractModel { state: State::OscPrefix, buffer: w.take(n + 1) },
                Seq::<u8>::empty(),
            )
        }),
{
    let w = write_start();
    let m = ExtractModel { state: State::OscPrefix, buffer: w.take(n) };
    let read = w.take(n).push(b);
    if b == w[n] {
        assert(read =~= w.take(n + 1));
        assert(read.is_prefix_of(w));
        if n < 4 {
            assert(read.len() != w.len());
        }
    } else {
        assert(read[n] == b);
        if read.is_prefix_of(w) {
            assert(w.take(read.len() as int)[n] == w[n]);
        }
        assert(read != w);
        assert(extract_step(m, b).0 =~= extract_start());
    }
}

} // verus!
