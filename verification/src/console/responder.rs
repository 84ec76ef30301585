//! Answers to what a program on the shared screen asks its terminal.
use crate::ascii::{ESC, GREATER_THAN, LEFT_BRACKET, SEMICOLON};
use crate::buffer::{buffered, frozen};
use crate::console::stdin::numbers_read;
use crate::screen::cursor;
use crate::text::{
    decimal, decimal_bytes, lemma_decimal_reads_back, lemma_last_part, lemma_utf8_joined, parts,
    push_text,
};
use crate::vt::{
    action_views, advance, advanced, fresh_parser, new_parser, ActionView, VtAction,
    OSC_RAW_BUF_SIZE,
};
use bytes::{Bytes, BytesMut};
use vstd::prelude::*;
use vstd::string::*;
use vstd::utf8::*;
use vt100::Screen;

verus! {

/// Secondary device attributes: a VT220 with the patch level of an xterm that has 24-bit colours and
/// SGR mouse reports.
pub const DA2_RESP: &'static str = "\x1b[>1;277;0c";

/// Primary device attributes: the VT220 class with its common extensions, and clipboard writes.
pub const DA1_RESP: &'static str = "\x1b[?62;1;9;15;22;29;52c";

/// Who answers, and to whom.
pub ghost struct Identity {
    pub program: Seq<char>,
    pub version: Seq<char>,
    /// Whether the shell's queries come straight from it, not from a console in between that
    /// answers some of them itself.
    pub direct: bool,
}

/// The name and version of a program, as a terminal tells them.
pub open spec fn version_reply(program: Seq<char>, version: Seq<char>) -> Seq<u8> {
    encode_utf8("\x1bP>|"@) + encode_utf8(program) + encode_utf8(" "@) + encode_utf8(version)
        + encode_utf8("\x1b\\"@)
}

/// Where the cursor is, as a terminal tells it: row and column counted from one.
pub open spec fn cursor_report(at: (u16, u16)) -> Seq<u8> {
    seq![ESC, LEFT_BRACKET] + decimal((at.0 + 1) as nat) + seq![SEMICOLON] + decimal(
        (at.1 + 1) as nat,
    ) + seq![0x52u8]
}

/// The first parameter of a control sequence, zero if there is none.
pub open spec fn first_param(params: Seq<Seq<u16>>) -> u16 {
    if params.len() > 0 && params[0].len() > 0 {
        params[0][0]
    } else {
        0
    }
}

/// The answer to one action. Most actions ask nothing.
pub open spec fn reply(id: Identity, at: (u16, u16), action: ActionView) -> Seq<u8> {
    match action {
        ActionView::Csi { params, intermediates, ignore, action } => {
            let first = first_param(params);
            if action == 'c' && intermediates.len() == 0 && first == 0 {
                encode_utf8(DA1_RESP@)
            } else if action == 'n' && intermediates.len() == 0 && first == 6 {
                cursor_report(at)
            } else if id.direct && action == 'c' && intermediates == seq![GREATER_THAN] && first
                == 0 {
                encode_utf8(DA2_RESP@)
            } else if id.direct && action == 'q' && intermediates == seq![GREATER_THAN] {
                version_reply(id.program, id.version)
            } else {
                Seq::empty()
            }
        },
        _ => Seq::empty(),
    }
}

/// The answers to a list of actions, in order.
pub open spec fn replies(id: Identity, at: (u16, u16), actions: Seq<ActionView>) -> Seq<u8>
    decreases actions.len(),
{
    if actions.len() == 0 {
        Seq::empty()
    } else {
        replies(id, at, actions.drop_last()) + reply(id, at, actions.last())
    }
}

/// The name and version of a program, as a terminal tells them.
pub fn xtversion(program: &str, version: &str) -> (r: Vec<u8>)
    ensures
        r@ == version_reply(program@, version@),
{
    let mut out: Vec<u8> = "\x1bP>|".as_bytes_vec();
    out.extend_from_slice(program.as_bytes());
    out.extend_from_slice(" ".as_bytes());
    out.extend_from_slice(version.as_bytes());
    out.extend_from_slice("\x1b\\".as_bytes());
    out
}

/// Where the cursor is, as a terminal tells it.
fn push_cursor_report(out: &mut BytesMut, at: (u16, u16))
    ensures
        buffered(*final(out)) == buffered(*old(out)) + cursor_report(at),
{
    let row: Vec<u8> = decimal_bytes(at.0 as u128 + 1);
    let col: Vec<u8> = decimal_bytes(at.1 as u128 + 1);
    let ghost start = buffered(*out);
    out.extend_from_slice(&[ESC, LEFT_BRACKET]);
    out.extend_from_slice(row.as_slice());
    out.extend_from_slice(&[SEMICOLON]);
    out.extend_from_slice(col.as_slice());
    out.extend_from_slice(&[0x52]);
    assert(buffered(*out) =~= start + cursor_report(at));
}

/// Answers the queries that programs send to their terminal.
pub struct PtyResponder {
    parser: vte::Parser,
    buffer: BytesMut,
    program: String,
    version: String,
    direct: bool,
}

impl PtyResponder {
    /// Who answers, and to whom.
    pub closed spec fn identity(self) -> Identity {
        Identity { program: self.program@, version: self.version@, direct: self.direct }
    }

    /// Where the reading of the output stands.
    pub closed spec fn parser(self) -> vte::Parser {
        self.parser
    }

    /// No answer is left over.
    pub closed spec fn wf(self) -> bool {
        buffered(self.buffer).len() == 0
    }

    /// A responder that names the given program and version. `direct` tells whether the shell's
    /// queries come straight from it.
    pub fn new(program: String, version: String, direct: bool) -> (r: Self)
        ensures
            r.wf(),
            r.identity() == (Identity { program: program@, version: version@, direct }),
            r.parser() == fresh_parser(OSC_RAW_BUF_SIZE as nat),
    {
        PtyResponder {
            parser: new_parser(),
            buffer: BytesMut::new(),
            program,
            version,
            direct,
        }
    }

    fn answer(&mut self, at: (u16, u16), action: &VtAction)
        ensures
            buffered(final(self).buffer) == buffered(old(self).buffer) + reply(
                old(self).identity(),
                at,
                action@,
            ),
            final(self).identity() == old(self).identity(),
            final(self).parser() == old(self).parser(),
    {
        let ghost start = buffered(self.buffer);
        match action {
            VtAction::Csi { params, intermediates, ignore, action } => {
                let plain: bool = intermediates.len() == 0;
                let secondary: bool = intermediates.len() == 1 && intermediates[0] == GREATER_THAN;
                let first: u16 = if params.len() > 0 && params[0].len() > 0 {
                    params[0][0]
                } else {
                    0
                };
                proof {
                    if params@.len() > 0 {
                        assert(params.deep_view()[0] =~= params@[0]@);
                    }
                    assert(first == first_param(params.deep_view()));
                    assert(secondary == (intermediates@ =~= seq![GREATER_THAN]));
                }
                if *action == 'c' && plain && first == 0 {
                    push_text(&mut self.buffer, DA1_RESP);
                    return ;
                }
                if *action == 'n' && plain && first == 6 {
                    push_cursor_report(&mut self.buffer, at);
                    return ;
                }
                if self.direct && *action == 'c' && secondary && first == 0 {
                    push_text(&mut self.buffer, DA2_RESP);
                    return ;
                }
                if self.direct && *action == 'q' && secondary {
                    let text: Vec<u8> = xtversion(self.program.as_str(), self.version.as_str());
                    self.buffer.extend_from_slice(text.as_slice());
                    return ;
                }
            },
            _ => {},
        }
        assert(start + Seq::<u8>::empty() =~= start);
    }

    /// The answers to the actions that the escape parser reported, with the cursor at `at`.
    pub fn respond(&mut self, actions: &Vec<VtAction>, at: (u16, u16)) -> (r: Option<Bytes>)
        requires
            old(self).wf(),
        ensures
            final(self).wf(),
            final(self).identity() == old(self).identity(),
            final(self).parser() == old(self).parser(),
            r is None <==> replies(old(self).identity(), at, action_views(actions@)).len() == 0,
            r is Some ==> frozen(r->Some_0) == replies(
                old(self).identity(),
                at,
                action_views(actions@),
            ),
    {
        let ghost id = self.identity();
        let ghost p = self.parser();
        let ghost views = action_views(actions@);
        let n: usize = actions.len();
        let mut i: usize = 0;
        proof {
            assert(views.take(0) =~= Seq::<ActionView>::empty());
            assert(buffered(self.buffer) =~= replies(id, at, views.take(0)));
        }
        while i < n
            invariant
                i <= n,
                n == actions@.len(),
                views == action_views(actions@),
                self.identity() == id,
                self.parser() == p,
                buffered(self.buffer) == replies(id, at, views.take(i as int)),
            decreases n - i,
        {
            self.answer(at, &actions[i]);
            i += 1;
            proof {
                let t = views.take(i as int);
                assert(t.drop_last() =~= views.take(i - 1));
                assert(t.last() == actions@[i - 1]@);
            }
        }
        assert(views.take(n as int) =~= views);
        let empty: bool = self.buffer.is_empty();
        let bytes: Bytes = self.buffer.split().freeze();
        if empty {
            None
        } else {
            Some(bytes)
        }
    }

    /// The answers to what a piece of output asks, with the cursor where the screen has it.
    pub fn process(&mut self, chunk: &[u8], screen: &Screen) -> (r: Option<Bytes>)
        requires
            old(self).wf(),
        ensures
            final(self).wf(),
            final(self).identity() == old(self).identity(),
            final(self).parser() == advanced(old(self).parser(), chunk@).1,
            r is None <==> replies(
                old(self).identity(),
                cursor(*screen),
                advanced(old(self).parser(), chunk@).0,
            ).len() == 0,
            r is Some ==> frozen(r->Some_0) == replies(
                old(self).identity(),
                cursor(*screen),
                advanced(old(self).parser(), chunk@).0,
            ),
    {
        let actions: Vec<VtAction> = advance(&mut self.parser, chunk);
        self.respond(&actions, screen.cursor_position())
    }
}

/// Whether an action asks the terminal something that it knows: its primary or secondary device
/// attributes, where its cursor is, or its name and version.
pub open spec fn asks(action: ActionView) -> bool {
    match action {
        ActionView::Csi { params, intermediates, ignore, action } => {
            ||| action == 'c' && first_param(params) == 0 && (intermediates.len() == 0
                || intermediates == seq![GREATER_THAN])
            ||| action == 'n' && first_param(params) == 6 && intermediates.len() == 0
            ||| action == 'q' && intermediates == seq![GREATER_THAN]
        },
        _ => false,
    }
}

/// Output that asks nothing is not answered: text, control characters, and whatever the terminal
/// does not know.
pub proof fn lemma_only_queries_are_answered(id: Identity, at: (u16, u16), action: ActionView)
    requires
        !asks(action),
    ensures
        reply(id, at, action).len() == 0,
{
}

/// A shell that asks directly gets an answer to each query.
pub proof fn lemma_direct_queries_are_answered(id: Identity, at: (u16, u16), action: ActionView)
    requires
        id.direct,
        asks(action),
    ensures
        reply(id, at, action).len() > 0,
{
    reveal_strlit("\x1b[?62;1;9;15;22;29;52c");
    reveal_strlit("\x1b[>1;277;0c");
    reveal_strlit("\x1bP>|");
}

/// Answers come in the order of the queries, each as if it were the only one.
pub proof fn lemma_replies_in_order(
    id: Identity,
    at: (u16, u16),
    a: Seq<ActionView>,
    b: Seq<ActionView>,
)
    ensures
        replies(id, at, a + b) == replies(id, at, a) + replies(id, at, b),
    decreases b.len(),
{
    if b.len() == 0 {
        assert(a + b =~= a);
        assert(replies(id, at, a) + Seq::<u8>::empty() =~= replies(id, at, a));
    } else {
        lemma_replies_in_order(id, at, a, b.drop_last());
        assert((a + b).drop_last() =~= a + b.drop_last());
        assert(replies(id, at, a + b) =~= replies(id, at, a) + replies(id, at, b));
    }
}

/// The secondary attributes and the version are told only to a shell that asks directly.
pub proof fn lemma_indirect_queries(id: Identity, at: (u16, u16), action: ActionView)
    requires
        !id.direct,
    ensures
        ({
            ||| reply(id, at, action).len() == 0
            ||| reply(id, at, action) == encode_utf8(DA1_RESP@)
            ||| reply(id, at, action) == cursor_report(at)
        }),
{
}

/// A cursor report is read back as the row and the column, each counted from one.
pub proof fn lemma_cursor_report_reads_back(at: (u16, u16))
    ensures
        ({
            let report = cursor_report(at);
            &&& report.len() >= 3
            &&& report.take(2) == seq![0x1bu8, 0x5b]
            &&& report.last() == 0x52
            &&& numbers_read(report.subrange(2, report.len() - 1)) == seq![
                seq![at.0 + 1],
                seq![at.1 + 1],
            ]
        }),
{
    let report = cursor_report(at);
    let row = decimal((at.0 + 1) as nat);
    let col = decimal((at.1 + 1) as nat);
    let text = row + seq![0x3bu8] + col;
    assert(report.take(2) =~= seq![0x1bu8, 0x5b]);
    assert(report.subrange(2, report.len() - 1) =~= text);
    lemma_decimal_reads_back((at.0 + 1) as nat);
    lemma_decimal_reads_back((at.1 + 1) as nat);
    lemma_last_part(Seq::empty(), row, 0x3b);
    lemma_last_part(row, col, 0x3b);
    lemma_last_part(Seq::empty(), row, 0x3a);
    lemma_last_part(Seq::empty(), col, 0x3a);
    assert(parts(text, 0x3b) =~= seq![row, col]);
    let numbers = numbers_read(text);
    assert(numbers[0] =~= seq![at.0 + 1]);
    assert(numbers[1] =~= seq![at.1 + 1]);
    assert(numbers =~= seq![seq![at.0 + 1], seq![at.1 + 1]]);
}

/// Name and version are told as one text, the name first and a blank between them.
pub proof fn lemma_version_is_told_as_one_text(program: Seq<char>, version: Seq<char>)
    ensures
        version_reply(program, version) == encode_utf8(
            "\x1bP>|"@ + program + " "@ + version + "\x1b\\"@,
        ),
{
    lemma_utf8_joined("\x1bP>|"@ + program + " "@ + version, "\x1b\\"@);
    lemma_utf8_joined("\x1bP>|"@ + program + " "@, version);
    lemma_utf8_joined("\x1bP>|"@ + program, " "@);
    lemma_utf8_joined("\x1bP>|"@, program);
}

/// Each query gets its own answer: who asks for the attributes gets the attributes, who asks for the
/// cursor gets its place, and who asks directly for secondary attributes or for name and version gets
/// these. Nothing else is answered.
pub proof fn lemma_each_query_gets_its_answer(
    id: Identity,
    at: (u16, u16),
    params: Seq<Seq<u16>>,
    intermediates: Seq<u8>,
    ignore: bool,
    action: char,
)
    ensures
        ({
            let first: int = if params.len() > 0 && params[0].len() > 0 {
                params[0][0] as int
            } else {
                0
            };
            let attributes = action == 'c' && intermediates.len() == 0 && first == 0;
            let place = action == 'n' && intermediates.len() == 0 && first == 6;
            let secondary = action == 'c' && intermediates == seq![0x3eu8] && first == 0;
            let version = action == 'q' && intermediates == seq![0x3eu8];
            let answer = reply(id, at, ActionView::Csi { params, intermediates, ignore, action });
            &&& attributes ==> answer == encode_utf8("\x1b[?62;1;9;15;22;29;52c"@)
            &&& place ==> answer == cursor_report(at)
            &&& secondary && id.direct ==> answer == encode_utf8("\x1b[>1;277;0c"@)
            &&& version && id.direct ==> answer == version_reply(id.program, id.version)
            &&& !attributes && !place && !(id.direct && (secondary || version)) ==> answer.len() == 0
        }),
{
}

/// What is no control sequence is not answered.
pub proof fn lemma_text_is_not_answered(id: Identity, at: (u16, u16), action: ActionView)
    requires
        !(action is Csi),
    ensures
        reply(id, at, action).len() == 0,
{
}

/// One query gets its answer, and none gets none.
pub proof fn lemma_one_query_one_answer(id: Identity, at: (u16, u16), action: ActionView)
    ensures
        replies(id, at, seq![action]) == reply(id, at, action),
        replies(id, at, Seq::empty()).len() == 0,
{
    reveal_with_fuel(replies, 2);
    assert(seq![action].drop_last() =~= Seq::<ActionView>::empty());
    assert(Seq::<u8>::empty() + reply(id, at, action) =~= reply(id, at, action));
}

} // verus!
