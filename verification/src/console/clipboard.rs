//! Clipboard writes in the output of a program, picked out by the escape parser.
use crate::ascii::{BACKSLASH, BEL, ESC, RIGHT_BRACKET, SEMICOLON};
use crate::buffer::{bytes_from_vec, frozen};
use crate::text::lemma_joined_at_end;
use crate::vt::{
    action_views, advance, advanced, fresh_parser, new_parser, ActionView, VtAction,
    OSC_RAW_BUF_SIZE,
};
use bytes::Bytes;
use vstd::prelude::*;

verus! {

/// `52`, the command that writes the clipboard.
pub open spec fn fifty_two() -> Seq<u8> {
    seq![0x35u8, 0x32]
}

/// A semicolon before each field.
pub open spec fn fields_text(fields: Seq<Seq<u8>>) -> Seq<u8>
    decreases fields.len(),
{
    if fields.len() == 0 {
        Seq::empty()
    } else {
        fields_text(fields.drop_last()) + seq![SEMICOLON] + fields.last()
    }
}

/// How an operating system command ends: with a bell, or with a string terminator.
pub open spec fn terminator(bell_terminated: bool) -> Seq<u8> {
    if bell_terminated {
        seq![BEL]
    } else {
        seq![ESC, BACKSLASH]
    }
}

/// A clipboard write spelled out again, nothing for any other command. A write that names no
/// clipboard is given the letter `c`, since some terminals take no write without.
pub open spec fn clipboard_write(fields: Seq<Seq<u8>>, bell_terminated: bool) -> Seq<u8> {
    if fields.len() >= 2 && fields[0] == fifty_two() {
        let target = if fields[1].len() > 0 {
            fields[1]
        } else {
            seq![0x63u8]
        };
        let payload = if fields.len() == 2 {
            seq![SEMICOLON]
        } else {
            fields_text(fields.skip(2))
        };
        seq![ESC, RIGHT_BRACKET] + fifty_two() + seq![SEMICOLON] + target + payload + terminator(
            bell_terminated,
        )
    } else {
        Seq::empty()
    }
}

/// The clipboard write that an action is, nothing for any other action.
pub open spec fn clipboard_action(action: ActionView) -> Seq<u8> {
    match action {
        ActionView::Osc { fields, bell_terminated } => clipboard_write(fields, bell_terminated),
        _ => Seq::empty(),
    }
}

/// The clipboard writes among a list of actions, in order.
pub open spec fn clipboard_actions(actions: Seq<ActionView>) -> Seq<u8>
    decreases actions.len(),
{
    if actions.len() == 0 {
        Seq::empty()
    } else {
        clipboard_actions(actions.drop_last()) + clipboard_action(actions.last())
    }
}

fn push_fields(out: &mut Vec<u8>, fields: &Vec<Vec<u8>>, from: usize)
    requires
        from <= fields@.len(),
    ensures
        final(out)@ == old(out)@ + fields_text(fields.deep_view().skip(from as int)),
{
    let ghost list = fields.deep_view().skip(from as int);
    let n: usize = fields.len();
    let mut i: usize = from;
    proof {
        assert(list.take(0) =~= Seq::<Seq<u8>>::empty());
        assert(out@ =~= old(out)@ + fields_text(list.take(0)));
    }
    while i < n
        invariant
            from <= i <= n,
            n == fields@.len(),
            list == fields.deep_view().skip(from as int),
            out@ == old(out)@ + fields_text(list.take(i - from)),
        decreases n - i,
    {
        out.push(SEMICOLON);
        out.extend_from_slice(fields[i].as_slice());
        i += 1;
        proof {
            let t = list.take(i - from);
            assert(t.drop_last() =~= list.take(i - from - 1));
            assert(t.last() =~= fields@[i - 1]@);
            assert(out@ =~= old(out)@ + fields_text(t));
        }
    }
    assert(list.take(n - from) =~= list);
}

fn push_clipboard_write(out: &mut Vec<u8>, fields: &Vec<Vec<u8>>, bell_terminated: bool)
    ensures
        final(out)@ == old(out)@ + clipboard_write(fields.deep_view(), bell_terminated),
{
    let ghost list = fields.deep_view();
    if fields.len() < 2 || fields[0].len() != 2 || fields[0][0] != 0x35 || fields[0][1] != 0x32 {
        proof {
            if list.len() >= 2 {
                assert(list[0] =~= fields@[0]@);
            }
            assert(old(out)@ + Seq::<u8>::empty() =~= old(out)@);
        }
        return ;
    }
    assert(list[0] =~= fields@[0]@);
    assert(list[0] =~= fifty_two());
    assert(list[1] =~= fields@[1]@);
    out.push(ESC);
    out.push(RIGHT_BRACKET);
    out.push(0x35);
    out.push(0x32);
    out.push(SEMICOLON);
    if fields[1].len() > 0 {
        out.extend_from_slice(fields[1].as_slice());
    } else {
        out.push(0x63);
    }
    if fields.len() == 2 {
        out.push(SEMICOLON);
    } else {
        push_fields(out, fields, 2);
    }
    if bell_terminated {
        out.push(BEL);
    } else {
        out.push(ESC);
        out.push(BACKSLASH);
    }
    assert(out@ =~= old(out)@ + clipboard_write(list, bell_terminated));
}

/// Picks the clipboard writes out of the output of a program.
pub struct Osc52Extractor {
    parser: vte::Parser,
}

impl Default for Osc52Extractor {
    fn default() -> (r: Self)
        ensures
            r.parser() == fresh_parser(OSC_RAW_BUF_SIZE as nat),
    {
        Osc52Extractor { parser: new_parser() }
    }
}

impl Osc52Extractor {
    /// Where the reading of the output stands.
    pub closed spec fn parser(self) -> vte::Parser {
        self.parser
    }

    /// The clipboard writes among the actions that the escape parser reported.
    pub fn collect(actions: &Vec<VtAction>) -> (r: Option<Bytes>)
        ensures
            r is None <==> clipboard_actions(action_views(actions@)).len() == 0,
            r is Some ==> frozen(r->Some_0) == clipboard_actions(action_views(actions@)),
    {
        let ghost views = action_views(actions@);
        let mut buffer: Vec<u8> = Vec::new();
        let n: usize = actions.len();
        let mut i: usize = 0;
        assert(views.take(0) =~= Seq::<ActionView>::empty());
        while i < n
            invariant
                i <= n,
                n == actions@.len(),
                views == action_views(actions@),
                buffer@ == clipboard_actions(views.take(i as int)),
            decreases n - i,
        {
            let ghost before = buffer@;
            match &actions[i] {
                VtAction::Osc { fields, bell_terminated } => {
                    push_clipboard_write(&mut buffer, fields, *bell_terminated);
                },
                _ => {},
            }
            i += 1;
            proof {
                let t = views.take(i as int);
                assert(t.drop_last() =~= views.take(i - 1));
                assert(t.last() == actions@[i - 1]@);
                assert(before + Seq::<u8>::empty() =~= before);
            }
        }
        assert(views.take(n as int) =~= views);
        if buffer.len() == 0 {
            None
        } else {
            Some(bytes_from_vec(buffer))
        }
    }

    /// Strips everything except complete clipboard writes from a piece of output.
    pub fn extract(&mut self, chunk: &[u8]) -> (r: Option<Bytes>)
        ensures
            final(self).parser() == advanced(old(self).parser(), chunk@).1,
            r is None <==> clipboard_actions(advanced(old(self).parser(), chunk@).0).len() == 0,
            r is Some ==> frozen(r->Some_0) == clipboard_actions(
                advanced(old(self).parser(), chunk@).0,
            ),
    {
        let actions: Vec<VtAction> = advance(&mut self.parser, chunk);
        Self::collect(&actions)
    }
}

/// Whatever is picked out of one action is nothing, or a clipboard write from its first byte to its
/// terminator.
pub proof fn lemma_only_clipboard_writes_pass(action: ActionView)
    ensures
        ({
            let out = clipboard_action(action);
            ||| out.len() == 0
            ||| {
                &&& (seq![ESC, RIGHT_BRACKET] + fifty_two() + seq![SEMICOLON]).is_prefix_of(out)
                &&& exists|bell: bool| #[trigger] terminator(bell).is_suffix_of(out)
            }
        }),
{
    match action {
        ActionView::Osc { fields, bell_terminated } => {
            let out = clipboard_action(action);
            if out.len() > 0 {
                assert(out.take(5) =~= seq![ESC, RIGHT_BRACKET] + fifty_two() + seq![SEMICOLON]);
                assert(terminator(bell_terminated).is_suffix_of(out));
            }
        },
        _ => {},
    }
}

/// A write that names its clipboard comes out as it went in.
pub proof fn lemma_named_write_is_kept(fields: Seq<Seq<u8>>, bell_terminated: bool)
    requires
        fields.len() >= 3,
        fields[0] == fifty_two(),
        fields[1].len() > 0,
    ensures
        clipboard_write(fields, bell_terminated) == seq![ESC, RIGHT_BRACKET] + fields[0]
            + fields_text(fields.skip(1)) + terminator(bell_terminated),
{
    lemma_fields_text_cons(fields.skip(1));
    assert(fields.skip(1).skip(1) =~= fields.skip(2));
    assert(clipboard_write(fields, bell_terminated) =~= seq![ESC, RIGHT_BRACKET] + fields[0]
        + fields_text(fields.skip(1)) + terminator(bell_terminated));
}

proof fn lemma_fields_text_cons(fields: Seq<Seq<u8>>)
    requires
        fields.len() > 0,
    ensures
        fields_text(fields) == seq![SEMICOLON] + fields[0] + fields_text(fields.skip(1)),
    decreases fields.len(),
{
    if fields.len() == 1 {
        assert(fields.drop_last() =~= Seq::<Seq<u8>>::empty());
        assert(fields.skip(1) =~= Seq::<Seq<u8>>::empty());
        reveal_with_fuel(fields_text, 2);
        assert(fields_text(fields) =~= seq![SEMICOLON] + fields[0] + fields_text(fields.skip(1)));
    } else {
        lemma_fields_text_cons(fields.drop_last());
        assert(fields.drop_last().skip(1) =~= fields.skip(1).drop_last());
        assert(fields.skip(1).last() == fields.last());
        assert(fields_text(fields) =~= seq![SEMICOLON] + fields[0] + fields_text(fields.skip(1)));
    }
}

/// A write that names its clipboard is spelled out again with all its fields, each after a semicolon,
/// and with the same end.
pub proof fn lemma_write_is_spelled_out(fields: Seq<Seq<u8>>, bell_terminated: bool)
    requires
        fields.len() >= 3,
        fields[0] == seq![0x35u8, 0x32],
        fields[1].len() > 0,
    ensures
        clipboard_write(fields, bell_terminated) == seq![0x1bu8, 0x5d] + fields[0] + Seq::new(
            (fields.len() - 1) as nat,
            |i: int| seq![0x3bu8] + fields[i + 1],
        ).flatten() + (if bell_terminated {
            seq![0x07u8]
        } else {
            seq![0x1bu8, 0x5c]
        }),
{
    lemma_named_write_is_kept(fields, bell_terminated);
    lemma_fields_joined(fields.skip(1));
    assert(Seq::new(fields.skip(1).len(), |i: int| seq![0x3bu8] + fields.skip(1)[i]) =~= Seq::new(
        (fields.len() - 1) as nat,
        |i: int| seq![0x3bu8] + fields[i + 1],
    ));
}

proof fn lemma_fields_joined(fields: Seq<Seq<u8>>)
    ensures
        fields_text(fields) == Seq::new(
            fields.len(),
            |i: int| seq![0x3bu8] + fields[i],
        ).flatten(),
    decreases fields.len(),
{
    let pieces = Seq::new(fields.len(), |i: int| seq![0x3bu8] + fields[i]);
    if fields.len() == 0 {
        assert(pieces.flatten() =~= Seq::<u8>::empty());
    } else {
        let init = fields.drop_last();
        lemma_fields_joined(init);
        assert(pieces.drop_last() =~= Seq::new(init.len(), |i: int| seq![0x3bu8] + init[i]));
        lemma_joined_at_end(pieces);
        assert(fields_text(fields) =~= fields_text(init) + pieces.last());
    }
}

/// A write that names no clipboard is the one that names the clipboard `c`, and a write without
/// contents is one with empty contents. Other commands write nothing.
pub proof fn lemma_unnamed_write_goes_to_the_clipboard(
    fields: Seq<Seq<u8>>,
    bell_terminated: bool,
)
    ensures
        fields.len() >= 2 && fields[1].len() == 0 ==> clipboard_write(fields, bell_terminated)
            == clipboard_write(fields.update(1, seq![0x63u8]), bell_terminated),
        fields.len() == 2 ==> clipboard_write(fields, bell_terminated) == clipboard_write(
            fields.push(Seq::empty()),
            bell_terminated,
        ),
        fields.len() < 2 || fields[0] != seq![0x35u8, 0x32] ==> clipboard_write(
            fields,
            bell_terminated,
        ).len() == 0,
{
    if fields.len() >= 2 {
        let named = fields.update(1, seq![0x63u8]);
        assert(named[0] == fields[0]);
        assert(named.skip(2) =~= fields.skip(2));
        let longer = fields.push(Seq::empty());
        assert(longer[0] == fields[0] && longer[1] == fields[1]);
        if fields.len() == 2 {
            assert(longer.skip(2) =~= seq![Seq::<u8>::empty()]);
            let only = seq![Seq::<u8>::empty()];
            assert(only.drop_last() =~= Seq::<Seq<u8>>::empty());
            reveal_with_fuel(fields_text, 2);
            assert(fields_text(only) =~= seq![SEMICOLON]);
        }
    }
}

/// All clipboard writes come out, in the order in which they were made, and nothing else does.
pub proof fn lemma_all_writes_come_out(actions: Seq<ActionView>)
    ensures
        clipboard_actions(actions) == Seq::new(
            actions.len(),
            |i: int|
                match actions[i] {
                    ActionView::Osc { fields, bell_terminated } => clipboard_write(
                        fields,
                        bell_terminated,
                    ),
                    _ => Seq::empty(),
                },
        ).flatten(),
    decreases actions.len(),
{
    let pieces = Seq::new(
        actions.len(),
        |i: int|
            match actions[i] {
                ActionView::Osc { fields, bell_terminated } => clipboard_write(
                    fields,
                    bell_terminated,
                ),
                _ => Seq::empty(),
            },
    );
    if actions.len() == 0 {
        assert(pieces.flatten() =~= Seq::<u8>::empty());
    } else {
        let init = actions.drop_last();
        lemma_all_writes_come_out(init);
        assert(pieces.drop_last() =~= Seq::new(
            init.len(),
            |i: int|
                match init[i] {
                    ActionView::Osc { fields, bell_terminated } => clipboard_write(
                        fields,
                        bell_terminated,
                    ),
                    _ => Seq::empty(),
                },
        ));
        lemma_joined_at_end(pieces);
    }
}

} // verus!
