//! Keyboard input: what stays local, what goes to the shell, and what is dropped.
use crate::ascii::{
    COLON, DEL, DETACH, ESC, LEFT_BRACKET, LESS_THAN, LETTER_O, QUESTION_MARK, SEMICOLON,
};
use crate::buffer::{buffered, frozen};
use crate::text::{
    decimal, decimal_bytes, lemma_decimal_reads_back, lemma_joined_at_end, lemma_last_part, number_read,
    parts, utf8_bytes, utf8_char,
};
use crate::vt::{
    action_views, advance, advanced, fresh_parser, new_parser, ActionView, VtAction,
    OSC_RAW_BUF_SIZE,
};
use bytes::{Bytes, BytesMut};
use vstd::prelude::*;

verus! {

/// Input that the local side handles itself.
#[derive(Debug, PartialEq, Eq, Clone, Copy, Structural)]
pub enum LocalEvent {
    /// Leave the session.
    Detach,
    /// Move the view by so many lines, back in time if positive.
    Scroll(i32),
}

/// What one piece of input leads to.
pub ghost enum Effect {
    /// Nothing.
    Drop,
    /// A local event.
    Local(LocalEvent),
    /// Bytes for the shell.
    Send(Seq<u8>),
}

/// What the remote screen is like, as far as keys depend on it.
pub ghost struct KeyMode {
    pub row_offset: u16,
    pub alt_screen: bool,
    pub mouse_on: bool,
    pub app_cursor: bool,
    pub page_size: i32,
}

/// `params` is the one parameter `a`, without subparameters.
pub open spec fn is_one(params: Seq<Seq<u16>>, a: u16) -> bool {
    params.len() == 1 && params[0] == seq![a]
}

/// `params` is the two parameters `a` and `b`, without subparameters.
pub open spec fn is_two(params: Seq<Seq<u16>>, a: u16, b: u16) -> bool {
    params.len() == 2 && params[0] == seq![a] && params[1] == seq![b]
}

/// Answers of the terminal itself, which are no keystrokes: a cursor position report, a device
/// status report, primary device attributes.
pub open spec fn is_auto_response(
    params: Seq<Seq<u16>>,
    intermediates: Seq<u8>,
    action: char,
) -> bool {
    ||| action == 'R' && intermediates.len() == 0
    ||| action == 'n' && intermediates.len() == 0 && is_one(params, 0)
    ||| action == 'c' && intermediates == seq![QUESTION_MARK]
}

/// By how many lines a scroll key moves the local view, where the sequence is a scroll key and the
/// remote program has not taken over the screen.
pub open spec fn scroll_key(
    mode: KeyMode,
    params: Seq<Seq<u16>>,
    intermediates: Seq<u8>,
    action: char,
) -> Option<i32> {
    if mode.alt_screen || intermediates.len() != 0 {
        None
    } else if action == '~' && (is_one(params, 5) || is_two(params, 5, 2)) {
        Some(mode.page_size)
    } else if action == '~' && (is_one(params, 6) || is_two(params, 6, 2)) {
        Some((-mode.page_size) as i32)
    } else if action == 'A' && is_two(params, 1, 5) {
        Some(1)
    } else if action == 'B' && is_two(params, 1, 5) {
        Some(-1i32)
    } else {
        None
    }
}

/// An SGR mouse report: button, column and row, each without subparameters.
pub open spec fn is_mouse(params: Seq<Seq<u16>>, intermediates: Seq<u8>, action: char) -> bool {
    &&& intermediates == seq![LESS_THAN]
    &&& action == 'M' || action == 'm'
    &&& params.len() >= 3
    &&& params[0].len() == 1
    &&& params[1].len() == 1
    &&& params[2].len() == 1
}

/// The SGR mouse report for a button at a place of the remote screen.
pub open spec fn mouse_report(btn: nat, col: nat, row: nat, action: char) -> Seq<u8> {
    seq![ESC, LEFT_BRACKET, LESS_THAN] + decimal(btn) + seq![SEMICOLON] + decimal(col) + seq![SEMICOLON] + decimal(row)
        + utf8_char(action)
}

/// The wheel scrolls the local view; clicks go to the remote program, if it wants them and if they
/// are below the status bar, with the row counted from the top of its own screen.
pub open spec fn mouse_effect(mode: KeyMode, btn: nat, col: nat, row: nat, action: char) -> Effect {
    if !mode.alt_screen && action == 'M' && btn == 64 {
        Effect::Local(LocalEvent::Scroll(3))
    } else if !mode.alt_screen && action == 'M' && btn == 65 {
        Effect::Local(LocalEvent::Scroll(-3i32))
    } else if !mode.alt_screen && !mode.mouse_on {
        Effect::Drop
    } else if row <= mode.row_offset {
        Effect::Drop
    } else {
        Effect::Send(
            mouse_report(btn, col, (row - mode.row_offset) as nat, action),
        )
    }
}

/// A cursor key without modifiers.
pub open spec fn is_plain_cursor(
    params: Seq<Seq<u16>>,
    intermediates: Seq<u8>,
    action: char,
) -> bool {
    &&& intermediates.len() == 0
    &&& params.len() == 0 || is_one(params, 0) || is_one(params, 1)
    &&& action == 'A' || action == 'B' || action == 'C' || action == 'D' || action == 'H' || action
        == 'F'
}

/// A cursor key as the remote program expects it.
pub open spec fn cursor_key(app_cursor: bool, action: char) -> Seq<u8> {
    if app_cursor {
        seq![ESC, LETTER_O, action as u8]
    } else {
        seq![ESC, LEFT_BRACKET, action as u8]
    }
}

/// Subparameters in decimal, with colons between them.
pub open spec fn subparams_text(sub: Seq<u16>) -> Seq<u8>
    decreases sub.len(),
{
    if sub.len() == 0 {
        Seq::empty()
    } else if sub.len() == 1 {
        decimal(sub[0] as nat)
    } else {
        subparams_text(sub.drop_last()) + seq![COLON] + decimal(sub.last() as nat)
    }
}

/// Parameters in decimal, with semicolons between them.
pub open spec fn params_text(params: Seq<Seq<u16>>) -> Seq<u8>
    decreases params.len(),
{
    if params.len() == 0 {
        Seq::empty()
    } else if params.len() == 1 {
        subparams_text(params[0])
    } else {
        params_text(params.drop_last()) + seq![SEMICOLON] + subparams_text(params.last())
    }
}

/// A control sequence spelled out again. A lone zero parameter is left out.
pub open spec fn csi_text(params: Seq<Seq<u16>>, intermediates: Seq<u8>, action: char) -> Seq<u8> {
    seq![ESC, LEFT_BRACKET] + intermediates + (if is_one(params, 0) {
        Seq::empty()
    } else {
        params_text(params)
    }) + utf8_char(action)
}

/// What a control sequence from the keyboard leads to.
pub open spec fn csi_effect(
    mode: KeyMode,
    params: Seq<Seq<u16>>,
    intermediates: Seq<u8>,
    action: char,
) -> Effect {
    if is_auto_response(params, intermediates, action) {
        Effect::Drop
    } else if scroll_key(mode, params, intermediates, action) is Some {
        Effect::Local(
            LocalEvent::Scroll(scroll_key(mode, params, intermediates, action)->Some_0),
        )
    } else if is_mouse(params, intermediates, action) {
        mouse_effect(
            mode,
            params[0][0] as nat,
            params[1][0] as nat,
            params[2][0] as nat,
            action,
        )
    } else if is_plain_cursor(params, intermediates, action) {
        Effect::Send(cursor_key(mode.app_cursor, action))
    } else {
        Effect::Send(csi_text(params, intermediates, action))
    }
}

/// What an action of the escape parser leads to.
pub open spec fn action_effect(mode: KeyMode, action: ActionView) -> Effect {
    match action {
        ActionView::Print(c) => Effect::Send(utf8_char(c)),
        ActionView::Execute(b) => if b == DETACH {
            Effect::Local(LocalEvent::Detach)
        } else {
            Effect::Send(seq![b])
        },
        ActionView::Csi { params, intermediates, ignore, action } => csi_effect(
            mode,
            params,
            intermediates,
            action,
        ),
        ActionView::Esc { intermediates, ignore, byte } => Effect::Send(
            seq![ESC] + intermediates + seq![byte],
        ),
        ActionView::Osc { fields, bell_terminated } => Effect::Drop,
    }
}

/// The local events and the bytes for the shell that have come up so far.
pub ghost struct Outcome {
    pub events: Seq<LocalEvent>,
    pub sent: Seq<u8>,
}

/// Nothing has come up.
pub open spec fn no_outcome() -> Outcome {
    Outcome { events: Seq::empty(), sent: Seq::empty() }
}

impl Outcome {
    /// What has come up once an effect is added.
    pub open spec fn with(self, effect: Effect) -> Outcome {
        match effect {
            Effect::Drop => self,
            Effect::Local(event) => Outcome { events: self.events.push(event), sent: self.sent },
            Effect::Send(bytes) => Outcome { events: self.events, sent: self.sent + bytes },
        }
    }

    /// What has come up once a list of actions is added.
    pub open spec fn with_actions(self, mode: KeyMode, actions: Seq<ActionView>) -> Outcome
        decreases actions.len(),
    {
        if actions.len() == 0 {
            self
        } else {
            self.with_actions(mode, actions.drop_last()).with(
                action_effect(mode, actions.last()),
            )
        }
    }

    /// One outcome after another.
    pub open spec fn then_outcome(self, next: Outcome) -> Outcome {
        Outcome { events: self.events + next.events, sent: self.sent + next.sent }
    }
}

/// Turns the actions of the escape parser into local events and bytes for the shell.
pub struct StdinPerformer {
    /// Rows of the local terminal above the remote screen.
    pub row_offset: u16,
    /// Whether the remote program has taken over the screen.
    pub alt_screen: bool,
    /// Whether the remote program wants mouse reports.
    pub mouse_on: bool,
    /// Whether the remote program wants application cursor keys.
    pub app_cursor: bool,
    /// Lines that a page key scrolls.
    pub page_size: i32,
    /// Local events that have come up.
    pub events: Vec<LocalEvent>,
    /// Bytes for the shell that have come up.
    pub pty_output: BytesMut,
}

fn is_one_param(params: &Vec<Vec<u16>>, a: u16) -> (r: bool)
    ensures
        r == is_one(params.deep_view(), a),
{
    let r: bool = params.len() == 1 && params[0].len() == 1 && params[0][0] == a;
    proof {
        if params@.len() == 1 {
            assert(params.deep_view()[0] =~= params@[0]@);
            assert(params@[0]@ =~= seq![a] <==> params@[0]@.len() == 1 && params@[0]@[0] == a);
        }
    }
    r
}

fn is_two_params(params: &Vec<Vec<u16>>, a: u16, b: u16) -> (r: bool)
    ensures
        r == is_two(params.deep_view(), a, b),
{
    let r: bool = params.len() == 2 && params[0].len() == 1 && params[0][0] == a && params[1].len()
        == 1 && params[1][0] == b;
    proof {
        if params@.len() == 2 {
            assert(params.deep_view()[0] =~= params@[0]@);
            assert(params.deep_view()[1] =~= params@[1]@);
            assert(params@[0]@ =~= seq![a] <==> params@[0]@.len() == 1 && params@[0]@[0] == a);
            assert(params@[1]@ =~= seq![b] <==> params@[1]@.len() == 1 && params@[1]@[0] == b);
        }
    }
    r
}

fn is_single_byte(s: &[u8], b: u8) -> (r: bool)
    ensures
        r == (s@ == seq![b]),
{
    let r: bool = s.len() == 1 && s[0] == b;
    proof {
        assert(s@ =~= seq![b] <==> s@.len() == 1 && s@[0] == b);
    }
    r
}

fn push_subparams(out: &mut BytesMut, sub: &Vec<u16>)
    ensures
        buffered(*final(out)) == buffered(*old(out)) + subparams_text(sub@),
{
    let n: usize = sub.len();
    let mut i: usize = 0;
    proof {
        assert(sub@.take(0) =~= Seq::<u16>::empty());
        assert(buffered(*out) =~= buffered(*old(out)) + subparams_text(sub@.take(0)));
    }
    while i < n
        invariant
            i <= n,
            n == sub@.len(),
            buffered(*out) == buffered(*old(out)) + subparams_text(sub@.take(i as int)),
        decreases n - i,
    {
        let ghost before = buffered(*out);
        if i > 0 {
            out.extend_from_slice(&[COLON]);
        }
        let digits: Vec<u8> = decimal_bytes(sub[i] as u128);
        out.extend_from_slice(digits.as_slice());
        i += 1;
        proof {
            let t = sub@.take(i as int);
            assert(t.drop_last() =~= sub@.take(i - 1));
            assert(t.last() == sub@[i - 1]);
            if i == 1 {
                assert(before =~= buffered(*old(out)));
            }
            assert(buffered(*out) =~= buffered(*old(out)) + subparams_text(t));
        }
    }
    assert(sub@.take(n as int) =~= sub@);
}

fn push_params(out: &mut BytesMut, params: &Vec<Vec<u16>>)
    ensures
        buffered(*final(out)) == buffered(*old(out)) + params_text(params.deep_view()),
{
    let n: usize = params.len();
    let mut i: usize = 0;
    let ghost list = params.deep_view();
    proof {
        assert(list.take(0) =~= Seq::<Seq<u16>>::empty());
        assert(buffered(*out) =~= buffered(*old(out)) + params_text(list.take(0)));
    }
    while i < n
        invariant
            i <= n,
            n == params@.len(),
            list == params.deep_view(),
            buffered(*out) == buffered(*old(out)) + params_text(list.take(i as int)),
        decreases n - i,
    {
        let ghost before = buffered(*out);
        if i > 0 {
            out.extend_from_slice(&[SEMICOLON]);
        }
        push_subparams(out, &params[i]);
        i += 1;
        proof {
            let t = list.take(i as int);
            assert(t.drop_last() =~= list.take(i - 1));
            assert(list[i - 1] =~= params@[i - 1]@);
            if i == 1 {
                assert(before =~= buffered(*old(out)));
            }
            assert(buffered(*out) =~= buffered(*old(out)) + params_text(t));
        }
    }
    assert(list.take(n as int) =~= list);
}

impl StdinPerformer {
    /// What the remote screen is like.
    pub open spec fn mode(self) -> KeyMode {
        KeyMode {
            row_offset: self.row_offset,
            alt_screen: self.alt_screen,
            mouse_on: self.mouse_on,
            app_cursor: self.app_cursor,
            page_size: self.page_size,
        }
    }

    /// What has come up so far.
    pub open spec fn outcome(self) -> Outcome {
        Outcome { events: self.events@, sent: buffered(self.pty_output) }
    }

    /// Regular character typing.
    pub fn print(&mut self, c: char)
        ensures
            final(self).mode() == old(self).mode(),
            final(self).outcome() == old(self).outcome().with(
                action_effect(old(self).mode(), ActionView::Print(c)),
            ),
    {
        let encoded: Vec<u8> = utf8_bytes(c);
        self.pty_output.extend_from_slice(encoded.as_slice());
    }

    /// Control characters: the detach chord is local, all others go to the shell.
    pub fn execute(&mut self, byte: u8)
        ensures
            final(self).mode() == old(self).mode(),
            final(self).outcome() == old(self).outcome().with(
                action_effect(old(self).mode(), ActionView::Execute(byte)),
            ),
    {
        if byte == DETACH {
            self.events.push(LocalEvent::Detach);
            return ;
        }
        self.pty_output.extend_from_slice(&[byte]);
        assert([byte]@ =~= seq![byte]);
    }

    /// Control sequences: mouse, arrow keys, page keys and the rest.
    pub fn csi_dispatch(
        &mut self,
        params: &Vec<Vec<u16>>,
        intermediates: &[u8],
        _ignore: bool,
        action: char,
    )
        requires
            old(self).page_size > i32::MIN,
        ensures
            final(self).mode() == old(self).mode(),
            final(self).outcome() == old(self).outcome().with(
                csi_effect(old(self).mode(), params.deep_view(), intermediates@, action),
            ),
    {
        let ghost list = params.deep_view();
        let plain: bool = intermediates.len() == 0;

        if action == 'R' && plain {
            return ;
        }
        if action == 'n' && plain && is_one_param(params, 0) {
            return ;
        }
        if action == 'c' && is_single_byte(intermediates, QUESTION_MARK) {
            return ;
        }
        assert(!is_auto_response(list, intermediates@, action));

        if !self.alt_screen && plain {
            if action == '~' {
                if is_one_param(params, 5) || is_two_params(params, 5, 2) {
                    self.events.push(LocalEvent::Scroll(self.page_size));
                    return ;
                }
                if is_one_param(params, 6) || is_two_params(params, 6, 2) {
                    self.events.push(LocalEvent::Scroll(-self.page_size));
                    return ;
                }
            }
            if is_two_params(params, 1, 5) {
                if action == 'A' {
                    self.events.push(LocalEvent::Scroll(1));
                    return ;
                } else if action == 'B' {
                    self.events.push(LocalEvent::Scroll(-1));
                    return ;
                }
            }
        }
        assert(scroll_key(self.mode(), list, intermediates@, action) is None);

        if (action == 'M' || action == 'm') && is_single_byte(intermediates, LESS_THAN) && params.len()
            >= 3 && params[0].len() == 1 && params[1].len() == 1 && params[2].len() == 1 {
            assert(list[0] =~= params@[0]@);
            assert(list[1] =~= params@[1]@);
            assert(list[2] =~= params@[2]@);
            let btn: u16 = params[0][0];
            let col: u16 = params[1][0];
            let row: u16 = params[2][0];
            self.mouse(btn, col, row, action);
            return ;
        }
        proof {
            if params@.len() >= 3 {
                assert(list[0] =~= params@[0]@);
                assert(list[1] =~= params@[1]@);
                assert(list[2] =~= params@[2]@);
            }
            assert(!is_mouse(list, intermediates@, action));
        }

        if plain && (params.len() == 0 || is_one_param(params, 0) || is_one_param(params, 1)) && (
        action == 'A' || action == 'B' || action == 'C' || action == 'D' || action == 'H' || action
            == 'F') {
            if self.app_cursor {
                self.pty_output.extend_from_slice(&[ESC, LETTER_O, action as u8]);
                assert([ESC, LETTER_O, action as u8]@ =~= cursor_key(true, action));
            } else {
                self.pty_output.extend_from_slice(&[ESC, LEFT_BRACKET, action as u8]);
                assert([ESC, LEFT_BRACKET, action as u8]@ =~= cursor_key(false, action));
            }
            return ;
        }
        assert(!is_plain_cursor(list, intermediates@, action));

        let ghost start = buffered(self.pty_output);
        self.pty_output.extend_from_slice(&[ESC, LEFT_BRACKET]);
        self.pty_output.extend_from_slice(intermediates);
        if !is_one_param(params, 0) {
            push_params(&mut self.pty_output, params);
        }
        let encoded: Vec<u8> = utf8_bytes(action);
        self.pty_output.extend_from_slice(encoded.as_slice());
        assert(buffered(self.pty_output) =~= start + csi_text(list, intermediates@, action));
    }

    /// A mouse report: button, column and row counted from 1 on the local terminal.
    fn mouse(&mut self, btn: u16, col: u16, row: u16, action: char)
        ensures
            final(self).mode() == old(self).mode(),
            final(self).outcome() == old(self).outcome().with(
                mouse_effect(old(self).mode(), btn as nat, col as nat, row as nat, action),
            ),
    {
        if !self.alt_screen && action == 'M' && (btn == 64 || btn == 65) {
            let delta: i32 = if btn == 64 {
                3
            } else {
                -3
            };
            self.events.push(LocalEvent::Scroll(delta));
            return ;
        }
        if !self.alt_screen && !self.mouse_on {
            return ;
        }
        if row <= self.row_offset {
            return ;
        }
        let adjusted_row: u16 = row - self.row_offset;
        let ghost start = buffered(self.pty_output);
        let btn_digits: Vec<u8> = decimal_bytes(btn as u128);
        let col_digits: Vec<u8> = decimal_bytes(col as u128);
        let row_digits: Vec<u8> = decimal_bytes(adjusted_row as u128);
        let encoded: Vec<u8> = utf8_bytes(action);
        self.pty_output.extend_from_slice(&[ESC, LEFT_BRACKET, LESS_THAN]);
        self.pty_output.extend_from_slice(btn_digits.as_slice());
        self.pty_output.extend_from_slice(&[SEMICOLON]);
        self.pty_output.extend_from_slice(col_digits.as_slice());
        self.pty_output.extend_from_slice(&[SEMICOLON]);
        self.pty_output.extend_from_slice(row_digits.as_slice());
        self.pty_output.extend_from_slice(encoded.as_slice());
        assert(buffered(self.pty_output) =~= start + mouse_report(
            btn as nat,
            col as nat,
            adjusted_row as nat,
            action,
        ));
    }

    /// Escape sequences, such as a key held with Alt.
    pub fn esc_dispatch(&mut self, intermediates: &[u8], _ignore: bool, byte: u8)
        ensures
            final(self).mode() == old(self).mode(),
            final(self).outcome() == old(self).outcome().with(
                Effect::Send(seq![ESC] + intermediates@ + seq![byte]),
            ),
    {
        let ghost start = buffered(self.pty_output);
        self.pty_output.extend_from_slice(&[ESC]);
        self.pty_output.extend_from_slice(intermediates);
        self.pty_output.extend_from_slice(&[byte]);
        assert(buffered(self.pty_output) =~= start + (seq![ESC] + intermediates@ + seq![byte]));
    }

    /// Handles the actions that the escape parser reported, in order.
    pub fn perform(&mut self, actions: &Vec<VtAction>)
        requires
            old(self).page_size > i32::MIN,
        ensures
            final(self).mode() == old(self).mode(),
            final(self).outcome() == old(self).outcome().with_actions(
                old(self).mode(),
                action_views(actions@),
            ),
    {
        let n: usize = actions.len();
        let mut i: usize = 0;
        let ghost views = action_views(actions@);
        assert(views.take(0) =~= Seq::<ActionView>::empty());
        while i < n
            invariant
                i <= n,
                n == actions@.len(),
                views == action_views(actions@),
                self.page_size > i32::MIN,
                self.mode() == old(self).mode(),
                self.outcome() == old(self).outcome().with_actions(
                    old(self).mode(),
                    views.take(i as int),
                ),
            decreases n - i,
        {
            match &actions[i] {
                VtAction::Print(c) => self.print(*c),
                VtAction::Execute(b) => self.execute(*b),
                VtAction::Csi { params, intermediates, ignore, action } => self.csi_dispatch(
                    params,
                    intermediates.as_slice(),
                    *ignore,
                    *action,
                ),
                VtAction::Esc { intermediates, ignore, byte } => self.esc_dispatch(
                    intermediates.as_slice(),
                    *ignore,
                    *byte,
                ),
                VtAction::Osc { .. } => {},
            }
            i += 1;
            proof {
                assert(views.take(i as int).drop_last() =~= views.take(i - 1));
                assert(views.take(i as int).last() == actions@[i - 1]@);
            }
        }
        assert(views.take(n as int) =~= views);
    }
}

/// Everything that what comes next depends on.
pub ghost struct StdinModel {
    pub mode: KeyMode,
    pub parser: vte::Parser,
    /// Whether the last byte was an escape.
    pub saw_escape: bool,
}

/// What one byte from the keyboard leads to, and what the processor is like afterwards.
///
/// DEL, which the escape parser ignores, goes to the shell, together with an escape just before it.
/// An escape just before another goes to the shell too. The escape parser reads everything else.
pub open spec fn byte_step(m: StdinModel, byte: u8) -> (StdinModel, Outcome) {
    let (actions, parser) = advanced(m.parser, seq![byte]);
    let read = no_outcome().with_actions(m.mode, actions);
    if byte == DEL && m.saw_escape {
        (
            StdinModel { parser: fresh_parser(OSC_RAW_BUF_SIZE as nat), saw_escape: false, ..m },
            no_outcome().with(Effect::Send(seq![ESC, DEL])),
        )
    } else if byte == DEL {
        (m, no_outcome().with(Effect::Send(seq![DEL])))
    } else if byte == ESC && m.saw_escape {
        (
            StdinModel { parser, ..m },
            no_outcome().with(Effect::Send(seq![ESC])).then_outcome(read),
        )
    } else {
        (StdinModel { parser, saw_escape: byte == ESC, ..m }, read)
    }
}

/// What a piece of keyboard input leads to, and what the processor is like afterwards.
pub open spec fn input_step(m: StdinModel, input: Seq<u8>) -> (StdinModel, Outcome)
    decreases input.len(),
{
    if input.len() == 0 {
        (m, no_outcome())
    } else {
        let (m1, before) = input_step(m, input.drop_last());
        let (m2, last) = byte_step(m1, input.last());
        (m2, before.then_outcome(last))
    }
}

/// Adding actions to what has come up so far is adding what the actions alone lead to.
proof fn lemma_with_actions_appends(o: Outcome, mode: KeyMode, actions: Seq<ActionView>)
    ensures
        o.with_actions(mode, actions) == o.then_outcome(no_outcome().with_actions(mode, actions)),
    decreases actions.len(),
{
    if actions.len() == 0 {
        assert(o.events =~= o.events + Seq::<LocalEvent>::empty());
        assert(o.sent =~= o.sent + Seq::<u8>::empty());
    } else {
        let init = actions.drop_last();
        lemma_with_actions_appends(o, mode, init);
        let part = no_outcome().with_actions(mode, init);
        match action_effect(mode, actions.last()) {
            Effect::Drop => {},
            Effect::Local(event) => {
                assert((o.events + part.events).push(event) =~= o.events + part.events.push(event));
            },
            Effect::Send(bytes) => {
                assert((o.sent + part.sent) + bytes =~= o.sent + (part.sent + bytes));
            },
        }
    }
}

/// Turns raw keyboard input into local events and bytes for the shell.
pub struct StdinProcessor {
    parser: vte::Parser,
    performer: StdinPerformer,
    saw_escape: bool,
}

impl StdinProcessor {
    /// Everything that what comes next depends on.
    pub closed spec fn model(self) -> StdinModel {
        StdinModel {
            mode: self.performer.mode(),
            parser: self.parser,
            saw_escape: self.saw_escape,
        }
    }

    /// Nothing for the shell is left over from an earlier piece of input.
    pub closed spec fn wf(self) -> bool {
        buffered(self.performer.pty_output).len() == 0
    }

    /// A processor for a main screen below a status bar of one row.
    pub fn new(page_size: i32) -> (r: Self)
        ensures
            r.wf(),
            r.model() == (StdinModel {
                mode: KeyMode {
                    row_offset: 1,
                    alt_screen: false,
                    mouse_on: false,
                    app_cursor: false,
                    page_size,
                },
                parser: fresh_parser(OSC_RAW_BUF_SIZE as nat),
                saw_escape: false,
            }),
    {
        StdinProcessor {
            parser: new_parser(),
            performer: StdinPerformer {
                row_offset: 1,
                alt_screen: false,
                mouse_on: false,
                app_cursor: false,
                page_size,
                events: Vec::new(),
                pty_output: BytesMut::new(),
            },
            saw_escape: false,
        }
    }

    /// Takes over what the remote screen is like.
    pub fn set_state(
        &mut self,
        alt_screen: bool,
        mouse_on: bool,
        page_size: i32,
        app_cursor: bool,
    )
        ensures
            final(self).wf() == old(self).wf(),
            final(self).model() == (StdinModel {
                mode: KeyMode {
                    row_offset: old(self).model().mode.row_offset,
                    alt_screen,
                    mouse_on,
                    app_cursor,
                    page_size,
                },
                ..old(self).model()
            }),
    {
        self.performer.alt_screen = alt_screen;
        self.performer.mouse_on = mouse_on;
        self.performer.page_size = page_size;
        self.performer.app_cursor = app_cursor;
    }

    fn process_byte(&mut self, byte: u8)
        requires
            old(self).performer.page_size > i32::MIN,
        ensures
            final(self).model() == byte_step(old(self).model(), byte).0,
            final(self).performer.outcome() == old(self).performer.outcome().then_outcome(
                byte_step(old(self).model(), byte).1,
            ),
    {
        let ghost m = self.model();
        let ghost o = self.performer.outcome();
        let ghost (actions, _) = advanced(m.parser, seq![byte]);
        assert([byte]@ =~= seq![byte]);
        assert([ESC]@ =~= seq![ESC]);
        assert([DEL]@ =~= seq![DEL]);
        assert([ESC, DEL]@ =~= seq![ESC, DEL]);
        assert(o.events + Seq::<LocalEvent>::empty() =~= o.events);
        if byte == DEL {
            if self.saw_escape {
                self.parser = new_parser();
                self.performer.pty_output.extend_from_slice(&[ESC, DEL]);
                self.saw_escape = false;
                assert(o.sent + (Seq::<u8>::empty() + seq![ESC, DEL]) =~= o.sent + seq![ESC, DEL]);
            } else {
                self.performer.pty_output.extend_from_slice(&[DEL]);
                assert(o.sent + (Seq::<u8>::empty() + seq![DEL]) =~= o.sent + seq![DEL]);
            }
            return ;
        }
        if byte == ESC {
            if self.saw_escape {
                self.performer.pty_output.extend_from_slice(&[ESC]);
                assert(o.sent + (Seq::<u8>::empty() + seq![ESC]) =~= o.sent + seq![ESC]);
            }
            self.saw_escape = true;
        } else {
            self.saw_escape = false;
        }
        let ghost o1 = self.performer.outcome();
        let reported: Vec<VtAction> = advance(&mut self.parser, &[byte]);
        self.performer.perform(&reported);
        proof {
            lemma_with_actions_appends(o1, m.mode, actions);
            let read = no_outcome().with_actions(m.mode, actions);
            if byte == ESC && m.saw_escape {
                let esc = no_outcome().with(Effect::Send(seq![ESC]));
                assert(o1 == o.then_outcome(esc));
                assert(o.events + (esc.events + read.events) =~= (o.events + esc.events)
                    + read.events);
                assert(o.sent + (esc.sent + read.sent) =~= (o.sent + esc.sent) + read.sent);
            }
        }
    }

    /// Handles a piece of keyboard input: what happens locally, and what the shell gets.
    pub fn process(&mut self, incoming: &[u8]) -> (r: (Vec<LocalEvent>, Bytes))
        requires
            old(self).wf(),
            old(self).model().mode.page_size > i32::MIN,
        ensures
            final(self).wf(),
            final(self).model() == input_step(old(self).model(), incoming@).0,
            r.0@ == input_step(old(self).model(), incoming@).1.events,
            frozen(r.1) == input_step(old(self).model(), incoming@).1.sent,
    {
        self.performer.events = Vec::new();
        let ghost m = self.model();
        let n: usize = incoming.len();
        let mut i: usize = 0;
        proof {
            assert(incoming@.take(0) =~= Seq::<u8>::empty());
            assert(self.performer.outcome().events =~= no_outcome().events);
            assert(self.performer.outcome().sent =~= no_outcome().sent);
        }
        while i < n
            invariant
                i <= n,
                n == incoming@.len(),
                self.performer.page_size > i32::MIN,
                self.model() == input_step(m, incoming@.take(i as int)).0,
                self.performer.outcome() == input_step(m, incoming@.take(i as int)).1,
            decreases n - i,
        {
            self.process_byte(incoming[i]);
            i += 1;
            proof {
                let t = incoming@.take(i as int);
                assert(t.drop_last() =~= incoming@.take(i - 1));
                assert(t.last() == incoming@[i - 1]);
            }
        }
        assert(incoming@.take(n as int) =~= incoming@);
        let mut events: Vec<LocalEvent> = Vec::new();
        std::mem::swap(&mut events, &mut self.performer.events);
        let pty_bytes: Bytes = self.performer.pty_output.split().freeze();
        (events, pty_bytes)
    }
}

/// It does not matter how keyboard input is cut into pieces: the pieces together lead to what the
/// whole leads to, and leave the processor in the same state.
pub proof fn lemma_input_in_pieces(m: StdinModel, a: Seq<u8>, b: Seq<u8>)
    ensures
        input_step(m, a + b).0 == input_step(input_step(m, a).0, b).0,
        input_step(m, a + b).1 == input_step(m, a).1.then_outcome(
            input_step(input_step(m, a).0, b).1,
        ),
    decreases b.len(),
{
    let first = input_step(m, a).1;
    if b.len() == 0 {
        assert(a + b =~= a);
        assert(first.events =~= first.events + Seq::<LocalEvent>::empty());
        assert(first.sent =~= first.sent + Seq::<u8>::empty());
    } else {
        let init = b.drop_last();
        lemma_input_in_pieces(m, a, init);
        assert((a + b).drop_last() =~= a + init);
        assert((a + b).last() == b.last());
        let (m1, x) = input_step(input_step(m, a).0, init);
        let y = byte_step(m1, b.last()).1;
        assert((first.events + x.events) + y.events =~= first.events + (x.events + y.events));
        assert((first.sent + x.sent) + y.sent =~= first.sent + (x.sent + y.sent));
    }
}

/// Input changes neither the screen modes nor how far a page key scrolls.
pub proof fn lemma_input_keeps_mode(m: StdinModel, input: Seq<u8>)
    ensures
        input_step(m, input).0.mode == m.mode,
    decreases input.len(),
{
    if input.len() > 0 {
        lemma_input_keeps_mode(m, input.drop_last());
    }
}

/// The detach chord leaves the session, whatever the remote screen is like, and nothing else does.
pub proof fn lemma_only_the_chord_detaches(mode: KeyMode, action: ActionView)
    ensures
        action_effect(mode, action) == Effect::Local(LocalEvent::Detach) <==> action
            == ActionView::Execute(DETACH),
{
}

/// A backspace reaches the shell, with the escape before it if there was one just before.
pub proof fn lemma_backspace_reaches_shell(m: StdinModel)
    ensures
        byte_step(m, DEL).1.sent == (if m.saw_escape {
            seq![ESC, DEL]
        } else {
            seq![DEL]
        }),
        byte_step(m, DEL).1.events.len() == 0,
        !byte_step(m, DEL).0.saw_escape,
{
    assert(Seq::<u8>::empty() + seq![ESC, DEL] =~= seq![ESC, DEL]);
    assert(Seq::<u8>::empty() + seq![DEL] =~= seq![DEL]);
}

/// A click on the status bar never reaches the shell, and any other click that does is reported
/// with a row of the remote screen, counted from 1.
pub proof fn lemma_clicks_stay_below_status_bar(
    mode: KeyMode,
    btn: nat,
    col: nat,
    row: nat,
    action: char,
)
    ensures
        row <= mode.row_offset ==> !(mouse_effect(mode, btn, col, row, action) is Send),
        mouse_effect(mode, btn, col, row, action) is Send ==> mouse_effect(
            mode,
            btn,
            col,
            row,
            action,
        ) == Effect::Send(
            mouse_report(btn, col, (row - mode.row_offset) as nat, action),
        ) && row - mode.row_offset >= 1,
{
}

/// While a remote program has taken over the screen, no control sequence scrolls the local view.
pub proof fn lemma_no_local_scroll_on_alternate_screen(
    mode: KeyMode,
    params: Seq<Seq<u16>>,
    intermediates: Seq<u8>,
    action: char,
)
    requires
        mode.alt_screen,
    ensures
        !(csi_effect(mode, params, intermediates, action) is Local),
{
}

/// What a terminal answers on its own is dropped, whatever the remote screen is like.
pub proof fn lemma_auto_responses_are_dropped(
    mode: KeyMode,
    params: Seq<Seq<u16>>,
    intermediates: Seq<u8>,
    action: char,
)
    requires
        is_auto_response(params, intermediates, action),
    ensures
        csi_effect(mode, params, intermediates, action) == Effect::Drop,
{
}

/// The numbers of a control sequence: parameters between semicolons, each with its subparameters
/// between colons. Where nothing is written, the number is zero.
pub open spec fn numbers_read(text: Seq<u8>) -> Seq<Seq<int>> {
    parts(text, 0x3b).map_values(
        |param: Seq<u8>| parts(param, 0x3a).map_values(|digits: Seq<u8>| number_read(digits)),
    )
}

/// Numbers as integers.
pub open spec fn as_integers(params: Seq<Seq<u16>>) -> Seq<Seq<int>> {
    params.map_values(|sub: Seq<u16>| sub.map_values(|n: u16| n as int))
}

proof fn lemma_digits_are_no_separators(n: nat)
    ensures
        forall|i: int|
            0 <= i < decimal(n).len() ==> #[trigger] decimal(n)[i] != 0x3a && decimal(n)[i] != 0x3b,
{
    lemma_decimal_reads_back(n);
}

proof fn lemma_subparams_read_back(sub: Seq<u16>)
    requires
        sub.len() >= 1,
    ensures
        forall|i: int|
            0 <= i < subparams_text(sub).len() ==> #[trigger] subparams_text(sub)[i] != 0x3b,
        parts(subparams_text(sub), 0x3a).map_values(|digits: Seq<u8>| number_read(digits))
            == sub.map_values(|n: u16| n as int),
    decreases sub.len(),
{
    let text = subparams_text(sub);
    let last = decimal(sub.last() as nat);
    lemma_digits_are_no_separators(sub.last() as nat);
    lemma_decimal_reads_back(sub.last() as nat);
    if sub.len() == 1 {
        lemma_last_part(Seq::empty(), last, 0x3a);
        assert(text == last);
        assert(parts(text, 0x3a).map_values(|digits: Seq<u8>| number_read(digits))
            =~= sub.map_values(|n: u16| n as int));
    } else {
        let init = sub.drop_last();
        lemma_subparams_read_back(init);
        lemma_last_part(subparams_text(init), last, 0x3a);
        assert(parts(text, 0x3a).map_values(|digits: Seq<u8>| number_read(digits)) =~= parts(
            subparams_text(init),
            0x3a,
        ).map_values(|digits: Seq<u8>| number_read(digits)).push(sub.last() as int));
        assert(sub.map_values(|n: u16| n as int) =~= init.map_values(|n: u16| n as int).push(
            sub.last() as int,
        ));
    }
}

/// The parameters of a control sequence, written out, read back as they were.
pub proof fn lemma_params_read_back(params: Seq<Seq<u16>>)
    requires
        params.len() >= 1,
        forall|i: int| 0 <= i < params.len() ==> (#[trigger] params[i]).len() >= 1,
    ensures
        numbers_read(params_text(params)) == as_integers(params),
    decreases params.len(),
{
    let text = params_text(params);
    let last = subparams_text(params.last());
    lemma_subparams_read_back(params.last());
    if params.len() == 1 {
        lemma_last_part(Seq::empty(), last, 0x3b);
        assert(text == last);
        assert(numbers_read(text) =~= as_integers(params));
    } else {
        let init = params.drop_last();
        lemma_params_read_back(init);
        lemma_last_part(params_text(init), last, 0x3b);
        assert(parts(text, 0x3b) == parts(params_text(init), 0x3b).push(last));
        assert(numbers_read(text) =~= numbers_read(params_text(init)).push(
            params.last().map_values(|n: u16| n as int),
        ));
        assert(as_integers(params) =~= as_integers(init).push(
            params.last().map_values(|n: u16| n as int),
        ));
    }
}

/// Just these sequences scroll the local view, and only while the remote program has not taken over
/// the screen: the page keys by a page, alone or with Shift, Control with the arrows up and down by a
/// line, and the wheel by three lines.
pub proof fn lemma_which_sequences_scroll(
    mode: KeyMode,
    params: Seq<Seq<u16>>,
    intermediates: Seq<u8>,
    action: char,
    lines: i32,
)
    requires
        mode.page_size > i32::MIN,
    ensures
        csi_effect(mode, params, intermediates, action) == Effect::Local(LocalEvent::Scroll(lines))
            <==> !mode.alt_screen && ({
            ||| intermediates.len() == 0 && action == '~' && (params == seq![seq![5u16]] || params
                == seq![seq![5u16], seq![2u16]]) && lines == mode.page_size
            ||| intermediates.len() == 0 && action == '~' && (params == seq![seq![6u16]] || params
                == seq![seq![6u16], seq![2u16]]) && lines == -mode.page_size
            ||| intermediates.len() == 0 && action == 'A' && params == seq![seq![1u16], seq![5u16]]
                && lines == 1
            ||| intermediates.len() == 0 && action == 'B' && params == seq![seq![1u16], seq![5u16]]
                && lines == -1
            ||| intermediates == seq![0x3cu8] && action == 'M' && params.len() >= 3 && params[0]
                == seq![64u16] && params[1].len() == 1 && params[2].len() == 1 && lines == 3
            ||| intermediates == seq![0x3cu8] && action == 'M' && params.len() >= 3 && params[0]
                == seq![65u16] && params[1].len() == 1 && params[2].len() == 1 && lines == -3
        }),
{
    lemma_one_by_one(params, 0);
    lemma_one_by_one(params, 5);
    lemma_one_by_one(params, 6);
    lemma_two_by_two(params, 5, 2);
    lemma_two_by_two(params, 6, 2);
    lemma_two_by_two(params, 1, 5);
    if params.len() >= 3 && params[0].len() == 1 {
        assert(params[0] =~= seq![params[0][0]]);
    }
}

proof fn lemma_one_by_one(params: Seq<Seq<u16>>, a: u16)
    ensures
        is_one(params, a) <==> params == seq![seq![a]],
{
    if is_one(params, a) {
        assert(params =~= seq![seq![a]]);
    }
}

proof fn lemma_two_by_two(params: Seq<Seq<u16>>, a: u16, b: u16)
    ensures
        is_two(params, a, b) <==> params == seq![seq![a], seq![b]],
{
    if is_two(params, a, b) {
        assert(params =~= seq![seq![a], seq![b]]);
    }
}

/// Just these sequences are dropped: answers of the terminal (a cursor position, that all is well, its
/// attributes), and mouse reports that the remote program does not want or that are about the status
/// bar, unless they are about the wheel and scroll the view.
pub proof fn lemma_which_sequences_are_dropped(
    mode: KeyMode,
    params: Seq<Seq<u16>>,
    intermediates: Seq<u8>,
    action: char,
)
    ensures
        csi_effect(mode, params, intermediates, action) == Effect::Drop <==> ({
            ||| action == 'R' && intermediates.len() == 0
            ||| action == 'n' && intermediates.len() == 0 && params == seq![seq![0u16]]
            ||| action == 'c' && intermediates == seq![0x3fu8]
            ||| (action == 'M' || action == 'm') && intermediates == seq![0x3cu8] && params.len()
                >= 3 && params[0].len() == 1 && params[1].len() == 1 && params[2].len() == 1 && !(
            !mode.alt_screen && action == 'M' && (params[0][0] == 64 || params[0][0] == 65)) && (
            !mode.alt_screen && !mode.mouse_on || params[2][0] <= mode.row_offset)
        }),
{
    lemma_one_by_one(params, 0);
}

/// Each control sequence that neither is dropped nor scrolls reaches the shell as the same key. A
/// cursor key without modifier is spelled as the program expects it. Any other sequence has the same
/// final character, the same intermediate characters and the same numbers as what was typed; only a
/// lone zero is left out. A mouse report has the same button and column, and the row of the remote
/// screen.
pub proof fn lemma_other_keys_reach_the_shell(
    mode: KeyMode,
    params: Seq<Seq<u16>>,
    intermediates: Seq<u8>,
    action: char,
)
    requires
        forall|i: int| 0 <= i < params.len() ==> (#[trigger] params[i]).len() >= 1,
        csi_effect(mode, params, intermediates, action) != Effect::Drop,
        !(csi_effect(mode, params, intermediates, action) matches Effect::Local(
            LocalEvent::Scroll(_),
        )),
    ensures
        csi_effect(mode, params, intermediates, action) is Send,
        ({
            let bytes = csi_effect(mode, params, intermediates, action)->Send_0;
            let n = 2 + intermediates.len() as int;
            let end = bytes.len() - utf8_char(action).len();
            let cursor = intermediates.len() == 0 && (params.len() == 0 || params == seq![
                seq![0u16],
            ] || params == seq![seq![1u16]]) && (action == 'A' || action == 'B' || action == 'C'
                || action == 'D' || action == 'H' || action == 'F');
            let mouse = intermediates == seq![0x3cu8] && (action == 'M' || action == 'm')
                && params.len() >= 3 && params[0].len() == 1 && params[1].len() == 1
                && params[2].len() == 1;
            &&& cursor ==> bytes == seq![
                0x1bu8,
                if mode.app_cursor {
                    0x4fu8
                } else {
                    0x5bu8
                },
                action as u8,
            ]
            &&& !cursor ==> n <= end && bytes.take(n) == seq![0x1bu8, 0x5b] + intermediates
                && bytes.skip(end) == utf8_char(action)
            &&& !cursor && !mouse && params.len() >= 1 ==> numbers_read(bytes.subrange(n, end))
                == as_integers(params)
            &&& !cursor && (params.len() == 0 || params == seq![seq![0u16]]) ==> n == end
            &&& mouse ==> numbers_read(bytes.subrange(n, end)) == seq![
                seq![params[0][0] as int],
                seq![params[1][0] as int],
                seq![params[2][0] - mode.row_offset],
            ]
        }),
{
    let bytes = csi_effect(mode, params, intermediates, action)->Send_0;
    lemma_one_by_one(params, 0);
    lemma_one_by_one(params, 1);
    let n = 2 + intermediates.len() as int;
    let end = bytes.len() - utf8_char(action).len();
    if is_plain_cursor(params, intermediates, action) {
        assert(!is_mouse(params, intermediates, action));
    } else if is_mouse(params, intermediates, action) {
        lemma_mouse_report_reads_back(
            params[0][0] as nat,
            params[1][0] as nat,
            (params[2][0] - mode.row_offset) as nat,
            action,
        );
        assert(bytes.take(n) =~= seq![0x1bu8, 0x5b] + intermediates);
    } else {
        let middle = if is_one(params, 0) {
            Seq::empty()
        } else {
            params_text(params)
        };
        assert(bytes =~= seq![0x1bu8, 0x5b] + intermediates + middle + utf8_char(action));
        assert(bytes.take(n) =~= seq![0x1bu8, 0x5b] + intermediates);
        assert(bytes.skip(end) =~= utf8_char(action));
        assert(bytes.subrange(n, end) =~= middle);
        if is_one(params, 0) {
            lemma_last_part(Seq::empty(), Seq::empty(), 0x3b);
            lemma_last_part(Seq::empty(), Seq::empty(), 0x3a);
            assert(parts(middle, 0x3b) =~= seq![Seq::<u8>::empty()]);
            assert(parts(Seq::<u8>::empty(), 0x3a) =~= seq![Seq::<u8>::empty()]);
            assert(number_read(Seq::<u8>::empty()) == 0);
            assert(numbers_read(middle)[0] =~= seq![0int]);
            assert(as_integers(params)[0] =~= seq![0int]);
            assert(numbers_read(middle) =~= as_integers(params));
        } else if params.len() >= 1 {
            lemma_params_read_back(params);
        }
    }
}

/// A mouse report is read back as button, column and row.
pub proof fn lemma_mouse_report_reads_back(btn: nat, col: nat, row: nat, action: char)
    ensures
        ({
            let report = mouse_report(btn, col, row, action);
            let end = report.len() - utf8_char(action).len();
            &&& end >= 3
            &&& report.take(3) == seq![0x1bu8, 0x5b, 0x3c]
            &&& report.skip(end) == utf8_char(action)
            &&& numbers_read(report.subrange(3, end)) == seq![
                seq![btn as int],
                seq![col as int],
                seq![row as int],
            ]
        }),
{
    let report = mouse_report(btn, col, row, action);
    let end = report.len() - utf8_char(action).len();
    let two = decimal(btn) + seq![0x3bu8] + decimal(col);
    let text = two + seq![0x3bu8] + decimal(row);
    assert(report.take(3) =~= seq![0x1bu8, 0x5b, 0x3c]);
    assert(report.skip(end) =~= utf8_char(action));
    assert(report.subrange(3, end) =~= text);
    lemma_digits_are_no_separators(btn);
    lemma_digits_are_no_separators(col);
    lemma_digits_are_no_separators(row);
    lemma_decimal_reads_back(btn);
    lemma_decimal_reads_back(col);
    lemma_decimal_reads_back(row);
    lemma_last_part(Seq::empty(), decimal(btn), 0x3b);
    lemma_last_part(decimal(btn), decimal(col), 0x3b);
    lemma_last_part(two, decimal(row), 0x3b);
    lemma_last_part(Seq::empty(), decimal(btn), 0x3a);
    lemma_last_part(Seq::empty(), decimal(col), 0x3a);
    lemma_last_part(Seq::empty(), decimal(row), 0x3a);
    assert(parts(text, 0x3b) =~= seq![decimal(btn), decimal(col), decimal(row)]);
    let numbers = numbers_read(text);
    assert(numbers[0] =~= seq![btn as int]);
    assert(numbers[1] =~= seq![col as int]);
    assert(numbers[2] =~= seq![row as int]);
    assert(numbers =~= seq![seq![btn as int], seq![col as int], seq![row as int]]);
}

/// What is typed reaches the shell as it is: characters in UTF-8, control characters, and escape
/// sequences, all but the detach chord, which is Control with a right bracket. Commands to the
/// terminal are not typed and are dropped.
pub proof fn lemma_typing_reaches_the_shell(mode: KeyMode, action: ActionView)
    ensures
        action matches ActionView::Print(c) ==> action_effect(mode, action) == Effect::Send(
            utf8_char(c),
        ),
        action matches ActionView::Execute(b) ==> action_effect(mode, action) == (if b == 0x1d {
            Effect::Local(LocalEvent::Detach)
        } else {
            Effect::Send(seq![b])
        }),
        action matches ActionView::Esc { intermediates, ignore, byte } ==> action_effect(
            mode,
            action,
        ) == Effect::Send(seq![0x1bu8] + intermediates + seq![byte]),
        action is Osc ==> action_effect(mode, action) == Effect::Drop,
{
}

/// Actions have their effects in the order in which they come: the bytes for the shell are those of
/// each action, one after another, and so are the local events.
pub proof fn lemma_actions_keep_their_order(mode: KeyMode, actions: Seq<ActionView>)
    ensures
        no_outcome().with_actions(mode, actions).sent == Seq::new(
            actions.len(),
            |i: int|
                match action_effect(mode, actions[i]) {
                    Effect::Send(bytes) => bytes,
                    _ => Seq::empty(),
                },
        ).flatten(),
        no_outcome().with_actions(mode, actions).events == Seq::new(
            actions.len(),
            |i: int|
                match action_effect(mode, actions[i]) {
                    Effect::Local(event) => seq![event],
                    _ => Seq::empty(),
                },
        ).flatten(),
    decreases actions.len(),
{
    let sent = Seq::new(
        actions.len(),
        |i: int|
            match action_effect(mode, actions[i]) {
                Effect::Send(bytes) => bytes,
                _ => Seq::empty(),
            },
    );
    let events = Seq::new(
        actions.len(),
        |i: int|
            match action_effect(mode, actions[i]) {
                Effect::Local(event) => seq![event],
                _ => Seq::empty(),
            },
    );
    if actions.len() == 0 {
        assert(sent.flatten() =~= Seq::<u8>::empty());
        assert(events.flatten() =~= Seq::<LocalEvent>::empty());
    } else {
        let init = actions.drop_last();
        lemma_actions_keep_their_order(mode, init);
        assert(sent.drop_last() =~= Seq::new(
            init.len(),
            |i: int|
                match action_effect(mode, init[i]) {
                    Effect::Send(bytes) => bytes,
                    _ => Seq::empty(),
                },
        ));
        assert(events.drop_last() =~= Seq::new(
            init.len(),
            |i: int|
                match action_effect(mode, init[i]) {
                    Effect::Local(event) => seq![event],
                    _ => Seq::empty(),
                },
        ));
        lemma_joined_at_end(sent);
        lemma_joined_at_end(events);
        let o = no_outcome().with_actions(mode, actions);
        assert(o.sent =~= sent.flatten());
        assert(o.events =~= events.flatten());
    }
}

/// Every byte but a backspace is read by the escape parser, and what this reports has its effect. An
/// escape that follows another goes to the shell before it. The processor remembers whether the last
/// byte was an escape.
pub proof fn lemma_bytes_go_through_the_parser(m: StdinModel, byte: u8)
    requires
        byte != 0x7f,
    ensures
        ({
            let (actions, parser) = advanced(m.parser, seq![byte]);
            let read = no_outcome().with_actions(m.mode, actions);
            let (after, o) = byte_step(m, byte);
            &&& after == (StdinModel { parser, saw_escape: byte == 0x1b, mode: m.mode })
            &&& o.events == read.events
            &&& o.sent == (if byte == 0x1b && m.saw_escape {
                seq![0x1bu8] + read.sent
            } else {
                read.sent
            })
        }),
{
    let (actions, parser) = advanced(m.parser, seq![byte]);
    let read = no_outcome().with_actions(m.mode, actions);
    if byte == ESC && m.saw_escape {
        let o = byte_step(m, byte).1;
        assert(o.events =~= read.events);
        assert(o.sent =~= seq![0x1bu8] + read.sent);
    }
}

/// A backspace does not disturb the escape parser, except that an escape just before it is over.
pub proof fn lemma_backspace_is_not_parsed(m: StdinModel)
    ensures
        !m.saw_escape ==> byte_step(m, 0x7f).0 == m,
        m.saw_escape ==> byte_step(m, 0x7f).0 == (StdinModel {
            parser: fresh_parser(1024),
            saw_escape: false,
            mode: m.mode,
        }),
        byte_step(m, 0x7f).1.sent == (if m.saw_escape {
            seq![0x1bu8, 0x7f]
        } else {
            seq![0x7fu8]
        }),
{
    lemma_backspace_reaches_shell(m);
}

/// One byte of input leads to what this byte leads to.
pub proof fn lemma_input_of_one_byte(m: StdinModel, byte: u8)
    ensures
        input_step(m, seq![byte]) == byte_step(m, byte),
        input_step(m, Seq::empty()).0 == m,
        input_step(m, Seq::empty()).1.sent.len() == 0,
        input_step(m, Seq::empty()).1.events.len() == 0,
{
    reveal_with_fuel(input_step, 2);
    assert(seq![byte].drop_last() =~= Seq::<u8>::empty());
    let o = byte_step(m, byte).1;
    assert(Seq::<u8>::empty() + o.sent =~= o.sent);
    assert(Seq::<LocalEvent>::empty() + o.events =~= o.events);
}

} // verus!
