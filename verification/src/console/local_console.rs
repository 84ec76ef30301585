//! The picture of the remote screen in the local terminal, below the status bar.
use crate::ansi::{
    alternate_screen_code, clear_code, clear_rest_of_line, cursor_code, disable_mouse,
    emphasis_code, enter_alternate_screen, leave_alternate_screen, mouse_off_codes, move_code,
    move_to, reset_code, reset_color, set_attribute, write_hide, write_show, Emphasis, Paint,
};
use crate::buffer::{buffered, bytes_from_vec, frozen, same_bytes};
use crate::console::status_bar::{ColorCodes, StatusBarState};
use crate::protocol::PtySize;
use crate::screen::{
    cursor, cursor_hidden, drawable, history, input_mode_codes, is_drawable, on_alternate_screen,
    resized_screen, row_codes, rows_formatted, screen_size, scroll_offset, scrolled_screen,
    state_codes,
};
use crate::text::{lemma_joined_at_end, push_text, utf8_bytes, utf8_char};
use bytes::{Bytes, BytesMut};
use vstd::prelude::*;
use vstd::slice::slice_to_vec;
use vstd::string::*;
use vstd::utf8::*;
use vt100::Screen;

verus! {

/// How many lines that have left the screen are kept.
pub const SCROLLBACK_LINES: usize = 1000;

/// What is drawn of a screen.
pub struct ScreenFrame {
    pub rows: u16,
    pub cols: u16,
    /// Each row, written with escape codes.
    pub lines: Vec<Vec<u8>>,
    /// The input modes, written with escape codes.
    pub input_mode: Vec<u8>,
    /// Row and column of the cursor, counted from zero.
    pub cursor: (u16, u16),
    pub cursor_hidden: bool,
    /// Whether the view is back in time.
    pub scrolled: bool,
}

/// The mathematical value of a [`ScreenFrame`].
pub ghost struct Frame {
    pub rows: u16,
    pub cols: u16,
    pub lines: Seq<Seq<u8>>,
    pub input_mode: Seq<u8>,
    pub cursor: (u16, u16),
    pub cursor_hidden: bool,
    pub scrolled: bool,
}

impl View for ScreenFrame {
    type V = Frame;

    open spec fn view(&self) -> Frame {
        Frame {
            rows: self.rows,
            cols: self.cols,
            lines: self.lines.deep_view(),
            input_mode: self.input_mode@,
            cursor: self.cursor,
            cursor_hidden: self.cursor_hidden,
            scrolled: self.scrolled,
        }
    }
}

/// What is drawn of the given screen.
pub open spec fn frame_of(s: Screen) -> Frame {
    Frame {
        rows: screen_size(s).0,
        cols: screen_size(s).1,
        lines: row_codes(s, screen_size(s).1),
        input_mode: input_mode_codes(s),
        cursor: cursor(s),
        cursor_hidden: cursor_hidden(s),
        scrolled: scroll_offset(s) > 0,
    }
}

/// Whether a frame has as many lines as rows, and positions counted from one still are numbers of 16
/// bits.
pub open spec fn frame_wf(f: Frame) -> bool {
    f.lines.len() == f.rows && f.rows < u16::MAX && f.cols < u16::MAX
}

/// The local terminal, as far as what is drawn depends on it.
pub struct Terminal {
    pub cols: u16,
    pub rows: u16,
    /// Whether it shows more than ASCII.
    pub utf8: bool,
    pub codes: ColorCodes,
}

/// What the local terminal shows.
#[verifier::ext_equal]
pub ghost struct Drawn {
    /// The rows of the remote screen, as they were last drawn.
    pub lines: Seq<Seq<u8>>,
    /// The size of the remote screen that was drawn: rows, then columns.
    pub screen: Option<(u16, u16)>,
    /// The size of the terminal that was drawn on: columns, then rows.
    pub terminal: Option<(u16, u16)>,
}

/// The line to the right of a remote screen that is narrower than the terminal.
pub open spec fn right_border(utf8: bool) -> Seq<u8> {
    if utf8 {
        encode_utf8("│"@)
    } else {
        encode_utf8("|"@)
    }
}

/// One character of the line below a remote screen that is lower than the terminal.
pub open spec fn bottom_border(utf8: bool) -> Seq<u8> {
    if utf8 {
        utf8_char('─')
    } else {
        utf8_char('-')
    }
}

/// Where the two lines meet.
pub open spec fn corner(utf8: bool) -> Seq<u8> {
    if utf8 {
        encode_utf8("┘"@)
    } else {
        encode_utf8("+"@)
    }
}

/// The same bytes so many times.
pub open spec fn repeated(unit: Seq<u8>, n: nat) -> Seq<u8>
    decreases n,
{
    if n == 0 {
        Seq::empty()
    } else {
        repeated(unit, (n - 1) as nat) + unit
    }
}

/// The codes before a row: to its beginning, without colour, and with nothing on it.
pub open spec fn row_start(row: u16) -> Seq<u8> {
    move_code(0, row) + reset_code() + emphasis_code(Emphasis::Reset) + clear_code()
}

/// The codes that draw row `i` of a frame, with the line to the right of it if there is room.
pub open spec fn row_drawn(f: Frame, t: Terminal, i: int) -> Seq<u8> {
    row_start((i + 1) as u16) + f.lines[i] + (if t.cols > f.cols {
        move_code(f.cols, (i + 1) as u16) + reset_code() + t.codes.fg(Paint::DarkGrey)
            + emphasis_code(Emphasis::Normal) + right_border(t.utf8) + reset_code() + clear_code()
    } else {
        Seq::empty()
    })
}

/// The codes that draw the first `n` rows of a frame.
pub open spec fn rows_drawn(f: Frame, t: Terminal, n: nat) -> Seq<u8>
    decreases n,
{
    if n == 0 {
        Seq::empty()
    } else {
        rows_drawn(f, t, (n - 1) as nat) + row_drawn(f, t, n - 1)
    }
}

/// The codes that clear the terminal from row `from` up to row `to`.
pub open spec fn rows_cleared(from: int, to: int) -> Seq<u8>
    decreases to - from,
{
    if to <= from {
        Seq::empty()
    } else {
        rows_cleared(from, to - 1) + row_start((to - 1) as u16)
    }
}

/// The codes that draw the line below the remote screen.
pub open spec fn border_drawn(f: Frame, t: Terminal) -> Seq<u8> {
    move_code(0, (f.rows + 1) as u16) + reset_code() + t.codes.fg(Paint::DarkGrey) + emphasis_code(
        Emphasis::Normal,
    ) + repeated(bottom_border(t.utf8), f.cols as nat) + (if t.cols > f.cols {
        corner(t.utf8)
    } else {
        Seq::empty()
    }) + reset_code() + clear_code()
}

/// The codes that draw what is below a remote screen that is lower than the terminal.
pub open spec fn below_drawn(f: Frame, t: Terminal) -> Seq<u8> {
    if t.rows > f.rows + 1 {
        border_drawn(f, t) + rows_cleared(f.rows + 2, t.rows as int)
    } else {
        Seq::empty()
    }
}

/// How many rows of a frame are in the terminal, below the status bar.
pub open spec fn rows_in_terminal(f: Frame, t: Terminal) -> nat {
    if t.rows == 0 {
        0
    } else if t.rows - 1 <= f.rows {
        (t.rows - 1) as nat
    } else {
        f.rows as nat
    }
}

/// Whether everything has to be drawn: the remote screen or the terminal has another size than
/// before, or nothing has been drawn.
pub open spec fn needs_all(d: Drawn, f: Frame, t: Terminal) -> bool {
    d.screen != Some((f.rows, f.cols)) || d.terminal != Some((t.cols, t.rows)) || d.lines.len() == 0
}

/// The codes that draw everything: the input modes with mouse reports switched on, the rows, and what
/// is below them.
pub open spec fn all_drawn(f: Frame, t: Terminal) -> Seq<u8> {
    f.input_mode + encode_utf8("\x1b[?1000h\x1b[?1006h"@) + rows_drawn(f, t, rows_in_terminal(f, t))
        + below_drawn(f, t)
}

/// The rows last drawn, with empty ones added if there are fewer than `n`.
pub open spec fn padded(lines: Seq<Seq<u8>>, n: nat) -> Seq<Seq<u8>> {
    if lines.len() < n {
        lines + Seq::new((n - lines.len()) as nat, |i: int| Seq::<u8>::empty())
    } else {
        lines
    }
}

/// The codes that draw those of the first `n` rows that have changed.
pub open spec fn changes_drawn(before: Seq<Seq<u8>>, f: Frame, t: Terminal, n: nat) -> Seq<u8>
    decreases n,
{
    if n == 0 {
        Seq::empty()
    } else {
        changes_drawn(before, f, t, (n - 1) as nat) + (if before[n - 1] == f.lines[n - 1] {
            Seq::empty()
        } else {
            row_drawn(f, t, n - 1)
        })
    }
}

/// The codes for the remote screen.
pub open spec fn body_drawn(d: Drawn, f: Frame, t: Terminal) -> Seq<u8> {
    if needs_all(d, f, t) {
        all_drawn(f, t)
    } else {
        changes_drawn(padded(d.lines, f.rows as nat), f, t, f.rows as nat)
    }
}

/// The smaller of two numbers.
pub open spec fn smaller(a: int, b: int) -> int {
    if a <= b {
        a
    } else {
        b
    }
}

/// One less, but never less than zero.
pub open spec fn one_less(a: u16) -> int {
    if a == 0 {
        0
    } else {
        a - 1
    }
}

/// The codes that put the cursor where the remote one is. It is hidden while the view is back in
/// time.
pub open spec fn cursor_drawn(f: Frame, t: Terminal) -> Seq<u8> {
    (if f.scrolled {
        Seq::empty()
    } else {
        reset_code() + emphasis_code(Emphasis::Reset) + move_code(
            smaller(f.cursor.1 as int, one_less(f.cols)) as u16,
            smaller(f.cursor.0 + 1, one_less(t.rows)) as u16,
        )
    }) + cursor_code(!f.scrolled && !f.cursor_hidden)
}

/// All codes of a frame: the status bar, the remote screen, the cursor.
pub open spec fn frame_drawn(d: Drawn, f: Frame, t: Terminal, bar: StatusBarState) -> Seq<u8> {
    bar.drawn(t.cols, t.codes) + body_drawn(d, f, t) + cursor_drawn(f, t)
}

/// What the terminal shows once a frame has been drawn.
pub open spec fn after_frame(d: Drawn, f: Frame, t: Terminal) -> Drawn {
    let before = padded(d.lines, f.rows as nat);
    Drawn {
        lines: if needs_all(d, f, t) {
            f.lines.take(rows_in_terminal(f, t) as int)
        } else {
            Seq::new(
                before.len(),
                |i: int|
                    if i < f.rows {
                        f.lines[i]
                    } else {
                        before[i]
                    },
            )
        },
        screen: Some((f.rows, f.cols)),
        terminal: Some((t.cols, t.rows)),
    }
}

/// How many lines back in time the view is to be once it has moved by `delta`: not after now, and no
/// farther back than can be counted.
pub open spec fn scroll_target(current: usize, delta: isize) -> usize {
    let wanted = current + delta;
    if wanted < 0 {
        0
    } else if wanted > usize::MAX {
        usize::MAX
    } else {
        wanted as usize
    }
}

/// How many lines back in time the view is after it has moved by `delta`: not after now, and no
/// farther back than lines are kept.
pub open spec fn scrolled_by(current: usize, delta: isize, kept: nat) -> nat {
    let target = scroll_target(current, delta) as nat;
    if target <= kept {
        target
    } else {
        kept
    }
}

/// The largest screen for a terminal of the given size: one row is left for the status bar, and one
/// for the screen.
pub open spec fn room_below_bar(cols: u16, rows: u16) -> PtySize {
    PtySize {
        cols,
        rows: if rows >= 2 {
            (rows - 1) as u16
        } else {
            1
        },
    }
}

impl ScreenFrame {
    /// What is drawn of the given screen.
    pub fn capture(screen: &Screen) -> (r: Self)
        requires
            drawable(*screen),
        ensures
            r@ == frame_of(*screen),
            frame_wf(r@),
    {
        let (rows, cols) = screen.size();
        let lines: Vec<Vec<u8>> = rows_formatted(screen, cols);
        let input_mode: Vec<u8> = screen.input_mode_formatted();
        let cursor: (u16, u16) = screen.cursor_position();
        ScreenFrame {
            rows,
            cols,
            lines,
            input_mode,
            cursor,
            cursor_hidden: screen.hide_cursor(),
            scrolled: screen.scrollback() > 0,
        }
    }
}

fn push_row_start(buf: &mut BytesMut, row: u16)
    requires
        row < u16::MAX,
    ensures
        buffered(*final(buf)) == buffered(*old(buf)) + row_start(row),
{
    let ghost start = buffered(*buf);
    buf.extend_from_slice(move_to(0, row).as_slice());
    buf.extend_from_slice(reset_color().as_slice());
    buf.extend_from_slice(set_attribute(Emphasis::Reset).as_slice());
    buf.extend_from_slice(clear_rest_of_line().as_slice());
    assert(buffered(*buf) =~= start + row_start(row));
}

/// Draws the remote screen and remembers what it has drawn.
pub struct LocalConsole {
    lines: Vec<Vec<u8>>,
    screen: Option<(u16, u16)>,
    terminal: Option<(u16, u16)>,
    is_utf8: bool,
}

impl LocalConsole {
    /// What the local terminal shows.
    pub closed spec fn drawn(self) -> Drawn {
        Drawn { lines: self.lines.deep_view(), screen: self.screen, terminal: self.terminal }
    }

    /// Whether the local terminal shows more than ASCII.
    pub closed spec fn utf8(self) -> bool {
        self.is_utf8
    }

    /// A console that has drawn nothing yet.
    pub fn new(is_utf8: bool) -> (r: Self)
        ensures
            r.drawn() == (Drawn { lines: Seq::empty(), screen: None, terminal: None }),
            r.utf8() == is_utf8,
    {
        let r: LocalConsole = LocalConsole {
            lines: Vec::new(),
            screen: None,
            terminal: None,
            is_utf8,
        };
        assert(r.drawn().lines =~= Seq::<Seq<u8>>::empty());
        r
    }

    /// Draws a frame and the status bar above it: everything, or the rows that have changed.
    pub fn render_frame(&mut self, frame: &ScreenFrame, terminal: &Terminal, bar: &StatusBarState) -> (r:
        Bytes)
        requires
            frame_wf(frame@),
        ensures
            frozen(r) == frame_drawn(old(self).drawn(), frame@, *terminal, *bar),
            final(self).drawn() == after_frame(old(self).drawn(), frame@, *terminal),
            final(self).utf8() == old(self).utf8(),
    {
        let ghost d = self.drawn();
        let mut buf: BytesMut = BytesMut::new();
        bar.render_with(&mut buf, terminal.cols, &terminal.codes);
        if self.must_draw_all(frame, terminal) {
            push_all(&mut buf, frame, terminal);
            self.lines = first_lines(frame, terminal);
        } else {
            self.push_changes(&mut buf, frame, terminal);
        }
        push_cursor(&mut buf, frame, terminal);
        self.screen = Some((frame.rows, frame.cols));
        self.terminal = Some((terminal.cols, terminal.rows));
        proof {
            assert(buffered(buf) =~= frame_drawn(d, frame@, *terminal, *bar));
            assert(self.drawn() =~= after_frame(d, frame@, *terminal));
        }
        buf.freeze()
    }

    /// Draws a screen and the status bar above it on a terminal of the given size.
    pub fn render(
        &mut self,
        screen: &Screen,
        terminal_cols: u16,
        terminal_rows: u16,
        bar: &StatusBarState,
    ) -> (r: Bytes)
        requires
            drawable(*screen),
        ensures
            exists|codes: ColorCodes| #[trigger]
                codes.wf(bar.color_mode) && frozen(r) == frame_drawn(
                    old(self).drawn(),
                    frame_of(*screen),
                    Terminal {
                        cols: terminal_cols,
                        rows: terminal_rows,
                        utf8: old(self).utf8(),
                        codes,
                    },
                    *bar,
                ) && final(self).drawn() == after_frame(
                    old(self).drawn(),
                    frame_of(*screen),
                    Terminal {
                        cols: terminal_cols,
                        rows: terminal_rows,
                        utf8: old(self).utf8(),
                        codes,
                    },
                ),
            final(self).utf8() == old(self).utf8(),
    {
        let codes: ColorCodes = ColorCodes::new(bar.color_mode);
        let ghost known = codes;
        let terminal: Terminal = Terminal {
            cols: terminal_cols,
            rows: terminal_rows,
            utf8: self.is_utf8,
            codes,
        };
        let frame: ScreenFrame = ScreenFrame::capture(screen);
        let r: Bytes = self.render_frame(&frame, &terminal, bar);
        assert(known.wf(bar.color_mode));
        r
    }

    /// Draws a screen if it can be drawn. One that cannot gives nothing, and the console stays as it
    /// is.
    pub fn try_render(
        &mut self,
        screen: &Screen,
        terminal_cols: u16,
        terminal_rows: u16,
        bar: &StatusBarState,
    ) -> (r: Option<Bytes>)
        ensures
            r is Some <==> drawable(*screen),
            r is None ==> *final(self) == *old(self),
            r is Some ==> exists|codes: ColorCodes| #[trigger]
                codes.wf(bar.color_mode) && frozen(r->Some_0) == frame_drawn(
                    old(self).drawn(),
                    frame_of(*screen),
                    Terminal {
                        cols: terminal_cols,
                        rows: terminal_rows,
                        utf8: old(self).utf8(),
                        codes,
                    },
                    *bar,
                ) && final(self).drawn() == after_frame(
                    old(self).drawn(),
                    frame_of(*screen),
                    Terminal {
                        cols: terminal_cols,
                        rows: terminal_rows,
                        utf8: old(self).utf8(),
                        codes,
                    },
                ),
            final(self).utf8() == old(self).utf8(),
    {
        if !is_drawable(screen) {
            return None;
        }
        Some(self.render(screen, terminal_cols, terminal_rows, bar))
    }

    /// Moves the view by so many lines, back in time if positive, as far as lines are kept. Returns
    /// how many lines back in time the view then is.
    pub fn apply_scroll(screen: &mut Screen, delta: isize) -> (r: usize)
        ensures
            r == scroll_offset(*final(screen)),
            *final(screen) == scrolled_screen(
                *old(screen),
                scroll_target(scroll_offset(*old(screen)), delta),
            ),
            r == scrolled_by(scroll_offset(*old(screen)), delta, history(*old(screen))),
            history(*final(screen)) == history(*old(screen)),
            screen_size(*final(screen)) == screen_size(*old(screen)),
    {
        let current: usize = screen.scrollback();
        let wanted: i128 = current as i128 + delta as i128;
        let next: usize = if wanted < 0 {
            0
        } else if wanted > usize::MAX as i128 {
            usize::MAX
        } else {
            wanted as usize
        };
        screen.set_scrollback(next);
        screen.scrollback()
    }

    /// What a terminal has to be sent to show the screen as it is.
    pub fn get_initial_screen_state(screen: &Screen) -> (r: Bytes)
        requires
            drawable(*screen),
        ensures
            frozen(r) == alternate_screen_code(on_alternate_screen(*screen)) + state_codes(*screen),
    {
        let mut state: Vec<u8> = if screen.alternate_screen() {
            enter_alternate_screen()
        } else {
            leave_alternate_screen()
        };
        state.extend_from_slice(screen.state_formatted().as_slice());
        bytes_from_vec(state)
    }

    /// What the local terminal is sent when the console opens.
    pub fn opening_codes() -> (r: Bytes)
        ensures
            frozen(r) == alternate_screen_code(true),
    {
        bytes_from_vec(enter_alternate_screen())
    }

    /// What the local terminal is sent when the console closes: it is to be as it was before.
    pub fn closing_codes() -> (r: Bytes)
        ensures
            frozen(r) == emphasis_code(Emphasis::Reset) + alternate_screen_code(false)
                + mouse_off_codes() + cursor_code(true),
    {
        let mut codes: Vec<u8> = set_attribute(Emphasis::Reset);
        codes.extend_from_slice(leave_alternate_screen().as_slice());
        codes.extend_from_slice(disable_mouse().as_slice());
        codes.extend_from_slice(write_show().as_slice());
        bytes_from_vec(codes)
    }

    /// The largest screen for a terminal of the given size, columns before rows: one row is left for
    /// the status bar. A terminal that does not tell its size is taken to have 80 columns and 24
    /// rows.
    pub fn get_pty_size(size: Option<(u16, u16)>) -> (r: PtySize)
        ensures
            r == (match size {
                Some((cols, rows)) => room_below_bar(cols, rows),
                None => room_below_bar(80, 24),
            }),
    {
        let (cols, rows) = match size {
            Some(told) => told,
            None => (80, 24),
        };
        PtySize {
            cols,
            rows: if rows >= 2 {
                rows - 1
            } else {
                1
            },
        }
    }

    /// Gives the screen another size.
    pub fn resize_parser(screen: &mut Screen, size: PtySize)
        requires
            size.rows >= 1,
            size.cols >= 1,
            screen_size(*old(screen)).0 >= 1,
        ensures
            *final(screen) == resized_screen(*old(screen), size.rows, size.cols),
            screen_size(*final(screen)) == (size.rows, size.cols),
            scroll_offset(*final(screen)) == scroll_offset(*old(screen)),
            on_alternate_screen(*final(screen)) == on_alternate_screen(*old(screen)),
    {
        screen.set_size(size.rows, size.cols);
    }

    fn must_draw_all(&self, frame: &ScreenFrame, terminal: &Terminal) -> (r: bool)
        ensures
            r == needs_all(self.drawn(), frame@, *terminal),
    {
        let same_screen: bool = match self.screen {
            Some((rows, cols)) => rows == frame.rows && cols == frame.cols,
            None => false,
        };
        let same_terminal: bool = match self.terminal {
            Some((cols, rows)) => cols == terminal.cols && rows == terminal.rows,
            None => false,
        };
        !same_screen || !same_terminal || self.lines.len() == 0
    }

    fn push_changes(&mut self, buf: &mut BytesMut, frame: &ScreenFrame, terminal: &Terminal)
        requires
            frame_wf(frame@),
        ensures
            buffered(*final(buf)) == buffered(*old(buf)) + changes_drawn(
                padded(old(self).drawn().lines, frame@.rows as nat),
                frame@,
                *terminal,
                frame@.rows as nat,
            ),
            final(self).drawn().lines == Seq::new(
                padded(old(self).drawn().lines, frame@.rows as nat).len(),
                |i: int|
                    if i < frame@.rows {
                        frame@.lines[i]
                    } else {
                        padded(old(self).drawn().lines, frame@.rows as nat)[i]
                    },
            ),
            final(self).is_utf8 == old(self).is_utf8,
    {
        let n: usize = frame.rows as usize;
        let ghost before = padded(self.lines.deep_view(), n as nat);
        self.pad(n);
        let mut i: usize = 0;
        assert(buffered(*buf) =~= buffered(*old(buf)) + changes_drawn(before, frame@, *terminal, 0));
        while i < n
            invariant
                i <= n,
                n == frame@.rows,
                frame_wf(frame@),
                n <= self.lines@.len(),
                self.lines@.len() == before.len(),
                self.is_utf8 == old(self).is_utf8,
                forall|j: int|
                    0 <= j < self.lines@.len() ==> (#[trigger] self.lines@[j])@ == (if j < i {
                        frame@.lines[j]
                    } else {
                        before[j]
                    }),
                buffered(*buf) == buffered(*old(buf)) + changes_drawn(
                    before,
                    frame@,
                    *terminal,
                    i as nat,
                ),
            decreases n - i,
        {
            let ghost so_far = buffered(*buf);
            assert(frame@.lines[i as int] =~= frame.lines@[i as int]@);
            assert(self.lines@[i as int]@ == before[i as int]);
            if !same_bytes(self.lines[i].as_slice(), frame.lines[i].as_slice()) {
                push_row(buf, frame, i, terminal);
                let line: Vec<u8> = slice_to_vec(frame.lines[i].as_slice());
                self.lines.set(i, line);
            } else {
                assert(so_far + Seq::<u8>::empty() =~= so_far);
            }
            i += 1;
            assert(buffered(*buf) =~= buffered(*old(buf)) + changes_drawn(
                before,
                frame@,
                *terminal,
                i as nat,
            ));
        }
        proof {
            let after = Seq::new(
                before.len(),
                |i: int|
                    if i < frame@.rows {
                        frame@.lines[i]
                    } else {
                        before[i]
                    },
            );
            assert forall|j: int| 0 <= j < before.len() implies self.lines.deep_view()[j] == after[j] by {
                assert(self.lines@[j].deep_view() =~= self.lines@[j]@);
            }
            assert(self.lines.deep_view() =~= after);
        }
    }

    fn pad(&mut self, n: usize)
        ensures
            final(self).lines@.len() == padded(old(self).lines.deep_view(), n as nat).len(),
            n <= final(self).lines@.len(),
            forall|j: int|
                0 <= j < final(self).lines@.len() ==> (#[trigger] final(self).lines@[j])@ == padded(
                    old(self).lines.deep_view(),
                    n as nat,
                )[j],
            final(self).is_utf8 == old(self).is_utf8,
    {
        let ghost lines = self.lines@;
        assert forall|j: int| 0 <= j < lines.len() implies (#[trigger] lines[j])@
            == self.lines.deep_view()[j] by {
            assert(lines[j].deep_view() =~= lines[j]@);
        }
        while self.lines.len() < n
            invariant
                lines.len() <= self.lines@.len(),
                self.lines@.len() <= n || self.lines@.len() == lines.len(),
                forall|j: int| 0 <= j < lines.len() ==> self.lines@[j] == lines[j],
                forall|j: int|
                    lines.len() <= j < self.lines@.len() ==> (#[trigger] self.lines@[j])@
                        == Seq::<u8>::empty(),
                self.is_utf8 == old(self).is_utf8,
            decreases n - self.lines@.len(),
        {
            self.lines.push(Vec::new());
        }
    }
}

fn push_row(buf: &mut BytesMut, frame: &ScreenFrame, i: usize, terminal: &Terminal)
    requires
        frame_wf(frame@),
        i < frame@.rows,
    ensures
        buffered(*final(buf)) == buffered(*old(buf)) + row_drawn(frame@, *terminal, i as int),
{
    let ghost start = buffered(*buf);
    let row: u16 = i as u16 + 1;
    push_row_start(buf, row);
    buf.extend_from_slice(frame.lines[i].as_slice());
    assert(frame@.lines[i as int] =~= frame.lines@[i as int]@);
    if terminal.cols > frame.cols {
        buf.extend_from_slice(move_to(frame.cols, row).as_slice());
        buf.extend_from_slice(reset_color().as_slice());
        buf.extend_from_slice(terminal.codes.dark_grey.as_slice());
        buf.extend_from_slice(set_attribute(Emphasis::Normal).as_slice());
        if terminal.utf8 {
            push_text(buf, "│");
        } else {
            push_text(buf, "|");
        }
        buf.extend_from_slice(reset_color().as_slice());
        buf.extend_from_slice(clear_rest_of_line().as_slice());
    }
    assert(buffered(*buf) =~= start + row_drawn(frame@, *terminal, i as int));
}

fn count_rows(frame: &ScreenFrame, terminal: &Terminal) -> (r: usize)
    ensures
        r == rows_in_terminal(frame@, *terminal),
{
    if terminal.rows == 0 {
        0
    } else if terminal.rows - 1 <= frame.rows {
        terminal.rows as usize - 1
    } else {
        frame.rows as usize
    }
}

/// The rows of a frame that are in the terminal.
fn first_lines(frame: &ScreenFrame, terminal: &Terminal) -> (r: Vec<Vec<u8>>)
    requires
        frame_wf(frame@),
    ensures
        r.deep_view() == frame@.lines.take(rows_in_terminal(frame@, *terminal) as int),
{
    let n: usize = count_rows(frame, terminal);
    let mut out: Vec<Vec<u8>> = Vec::new();
    let mut i: usize = 0;
    while i < n
        invariant
            i <= n,
            n <= frame.lines@.len(),
            out@.len() == i,
            forall|j: int| 0 <= j < i ==> (#[trigger] out@[j])@ == frame.lines@[j]@,
        decreases n - i,
    {
        out.push(slice_to_vec(frame.lines[i].as_slice()));
        i += 1;
    }
    proof {
        assert forall|j: int| 0 <= j < n implies out.deep_view()[j] == frame@.lines[j] by {
            assert(out@[j].deep_view() =~= out@[j]@);
            assert(frame.lines@[j].deep_view() =~= frame.lines@[j]@);
        }
        assert(out.deep_view() =~= frame@.lines.take(n as int));
    }
    out
}

fn push_all(buf: &mut BytesMut, frame: &ScreenFrame, terminal: &Terminal)
    requires
        frame_wf(frame@),
    ensures
        buffered(*final(buf)) == buffered(*old(buf)) + all_drawn(frame@, *terminal),
{
    let ghost start = buffered(*buf);
    buf.extend_from_slice(frame.input_mode.as_slice());
    push_text(buf, "\x1b[?1000h\x1b[?1006h");
    let ghost head = buffered(*buf);
    let n: usize = count_rows(frame, terminal);
    let mut i: usize = 0;
    assert(buffered(*buf) =~= head + rows_drawn(frame@, *terminal, 0));
    while i < n
        invariant
            i <= n,
            n <= frame@.rows,
            frame_wf(frame@),
            buffered(*buf) == head + rows_drawn(frame@, *terminal, i as nat),
        decreases n - i,
    {
        push_row(buf, frame, i, terminal);
        i += 1;
        assert(buffered(*buf) =~= head + rows_drawn(frame@, *terminal, i as nat));
    }
    push_below(buf, frame, terminal);
    assert(buffered(*buf) =~= start + all_drawn(frame@, *terminal));
}

fn push_border(buf: &mut BytesMut, frame: &ScreenFrame, terminal: &Terminal)
    requires
        frame_wf(frame@),
        frame@.rows + 1 < u16::MAX,
    ensures
        buffered(*final(buf)) == buffered(*old(buf)) + border_drawn(frame@, *terminal),
{
    let ghost start = buffered(*buf);
    buf.extend_from_slice(move_to(0, frame.rows + 1).as_slice());
    buf.extend_from_slice(reset_color().as_slice());
    buf.extend_from_slice(terminal.codes.dark_grey.as_slice());
    buf.extend_from_slice(set_attribute(Emphasis::Normal).as_slice());
    let unit: Vec<u8> = if terminal.utf8 {
        utf8_bytes('─')
    } else {
        utf8_bytes('-')
    };
    push_repeated(buf, unit.as_slice(), frame.cols);
    if terminal.cols > frame.cols {
        if terminal.utf8 {
            push_text(buf, "┘");
        } else {
            push_text(buf, "+");
        }
    }
    buf.extend_from_slice(reset_color().as_slice());
    buf.extend_from_slice(clear_rest_of_line().as_slice());
    assert(buffered(*buf) =~= start + border_drawn(frame@, *terminal));
}

fn push_below(buf: &mut BytesMut, frame: &ScreenFrame, terminal: &Terminal)
    requires
        frame_wf(frame@),
    ensures
        buffered(*final(buf)) == buffered(*old(buf)) + below_drawn(frame@, *terminal),
{
    let ghost start = buffered(*buf);
    if terminal.rows <= frame.rows + 1 {
        assert(start + Seq::<u8>::empty() =~= start);
        return ;
    }
    let border_row: u16 = frame.rows + 1;
    push_border(buf, frame, terminal);
    let ghost head = buffered(*buf);
    let mut row: u16 = border_row + 1;
    assert(buffered(*buf) =~= head + rows_cleared(border_row + 1, row as int));
    while row < terminal.rows
        invariant
            border_row + 1 <= row <= terminal.rows,
            buffered(*buf) == head + rows_cleared(border_row + 1, row as int),
        decreases terminal.rows - row,
    {
        push_row_start(buf, row);
        row += 1;
        assert(buffered(*buf) =~= head + rows_cleared(border_row + 1, row as int));
    }
    assert(head == start + border_drawn(frame@, *terminal));
    assert(buffered(*buf) =~= start + below_drawn(frame@, *terminal));
}

fn push_repeated(buf: &mut BytesMut, unit: &[u8], n: u16)
    ensures
        buffered(*final(buf)) == buffered(*old(buf)) + repeated(unit@, n as nat),
{
    let mut i: u16 = 0;
    assert(buffered(*buf) =~= buffered(*old(buf)) + repeated(unit@, 0));
    while i < n
        invariant
            i <= n,
            buffered(*buf) == buffered(*old(buf)) + repeated(unit@, i as nat),
        decreases n - i,
    {
        buf.extend_from_slice(unit);
        i += 1;
        assert(buffered(*buf) =~= buffered(*old(buf)) + repeated(unit@, i as nat));
    }
}

fn push_cursor(buf: &mut BytesMut, frame: &ScreenFrame, terminal: &Terminal)
    requires
        frame_wf(frame@),
    ensures
        buffered(*final(buf)) == buffered(*old(buf)) + cursor_drawn(frame@, *terminal),
{
    let ghost start = buffered(*buf);
    if !frame.scrolled {
        let last_col: u16 = if frame.cols == 0 {
            0
        } else {
            frame.cols - 1
        };
        let last_row: u16 = if terminal.rows == 0 {
            0
        } else {
            terminal.rows - 1
        };
        let col: u16 = if frame.cursor.1 <= last_col {
            frame.cursor.1
        } else {
            last_col
        };
        let row: u16 = if frame.cursor.0 < last_row {
            frame.cursor.0 + 1
        } else {
            last_row
        };
        buf.extend_from_slice(reset_color().as_slice());
        buf.extend_from_slice(set_attribute(Emphasis::Reset).as_slice());
        buf.extend_from_slice(move_to(col, row).as_slice());
    }
    if frame.scrolled || frame.cursor_hidden {
        buf.extend_from_slice(write_hide().as_slice());
    } else {
        buf.extend_from_slice(write_show().as_slice());
    }
    assert(buffered(*buf) =~= start + cursor_drawn(frame@, *terminal));
}

/// Whether the terminal shows just this frame.
pub open spec fn up_to_date(d: Drawn, f: Frame, t: Terminal) -> bool {
    !needs_all(d, f, t) && f.lines.is_prefix_of(d.lines)
}

/// Where nothing has changed, nothing is drawn but the status bar and the cursor, and the terminal
/// is known to show the same as before.
pub proof fn lemma_no_change_draws_nothing(d: Drawn, f: Frame, t: Terminal)
    requires
        frame_wf(f),
        up_to_date(d, f, t),
    ensures
        body_drawn(d, f, t).len() == 0,
        after_frame(d, f, t) == d,
{
    assert(padded(d.lines, f.rows as nat) == d.lines);
    lemma_no_changes(d.lines, f, t, f.rows as nat);
    assert(after_frame(d, f, t) =~= d);
}

proof fn lemma_no_changes(before: Seq<Seq<u8>>, f: Frame, t: Terminal, n: nat)
    requires
        frame_wf(f),
        n <= f.rows,
        f.lines.is_prefix_of(before),
    ensures
        changes_drawn(before, f, t, n).len() == 0,
    decreases n,
{
    if n > 0 {
        lemma_no_changes(before, f, t, (n - 1) as nat);
        assert(before[n - 1] == f.lines[n - 1]);
    }
}

/// Once a frame has been drawn, the terminal shows it, if it has rows and the terminal has room for
/// them all.
pub proof fn lemma_drawing_brings_up_to_date(d: Drawn, f: Frame, t: Terminal)
    requires
        frame_wf(f),
        f.rows >= 1,
        t.rows > f.rows,
    ensures
        up_to_date(after_frame(d, f, t), f, t),
{
    let after = after_frame(d, f, t);
    assert(after.lines.take(f.rows as int) =~= f.lines);
}

/// A row that alone has changed is drawn alone.
pub proof fn lemma_one_change_draws_one_row(d: Drawn, f: Frame, g: Frame, t: Terminal, k: int)
    requires
        frame_wf(f),
        frame_wf(g),
        up_to_date(d, f, t),
        g.rows == f.rows,
        g.cols == f.cols,
        0 <= k < g.rows,
        g.lines[k] != f.lines[k],
        forall|i: int| 0 <= i < g.rows && i != k ==> #[trigger] g.lines[i] == f.lines[i],
    ensures
        body_drawn(d, g, t) == row_drawn(g, t, k),
{
    assert(padded(d.lines, g.rows as nat) == d.lines);
    lemma_one_change(d.lines, g, t, k, g.rows as nat);
}

proof fn lemma_one_change(before: Seq<Seq<u8>>, g: Frame, t: Terminal, k: int, n: nat)
    requires
        n <= g.rows <= before.len(),
        0 <= k < g.rows,
        g.lines[k] != before[k],
        forall|i: int| 0 <= i < g.rows && i != k ==> #[trigger] g.lines[i] == before[i],
    ensures
        changes_drawn(before, g, t, n) == (if k < n {
            row_drawn(g, t, k)
        } else {
            Seq::empty()
        }),
    decreases n,
{
    if n > 0 {
        lemma_one_change(before, g, t, k, (n - 1) as nat);
        if n - 1 == k {
            assert(Seq::<u8>::empty() + row_drawn(g, t, k) =~= row_drawn(g, t, k));
        } else {
            assert(g.lines[n - 1] == before[n - 1]);
            let so_far = changes_drawn(before, g, t, (n - 1) as nat);
            assert(so_far + Seq::<u8>::empty() =~= so_far);
        }
    }
}

/// Scrolling back in time and forward again by as much shows what was shown before, as long as no end
/// is reached.
pub proof fn lemma_scroll_there_and_back(current: usize, delta: isize, kept: nat)
    requires
        current <= kept,
        kept <= usize::MAX,
        0 <= current + delta <= kept,
        delta > isize::MIN,
    ensures
        scrolled_by(scrolled_by(current, delta, kept) as usize, (-delta) as isize, kept) == current,
{
}

/// However far the view is moved, it stays between now and the oldest line that is kept.
pub proof fn lemma_scroll_stays_in_range(current: usize, delta: isize, kept: nat)
    ensures
        scrolled_by(current, delta, kept) <= kept,
{
}

/// Where the sizes are the same as before, what is drawn is, in the order of the rows, each and every
/// row whose bytes are not those that were last drawn there, and no other. A row that was not drawn
/// before counts as empty.
pub proof fn lemma_every_changed_row_is_drawn(d: Drawn, f: Frame, t: Terminal)
    requires
        frame_wf(f),
        d.screen == Some((f.rows, f.cols)),
        d.terminal == Some((t.cols, t.rows)),
        d.lines.len() > 0,
    ensures
        body_drawn(d, f, t) == Seq::new(
            f.rows as nat,
            |k: int|
                if k < d.lines.len() && d.lines[k] == f.lines[k] || k >= d.lines.len()
                    && f.lines[k].len() == 0 {
                    Seq::<u8>::empty()
                } else {
                    row_drawn(f, t, k)
                },
        ).flatten(),
{
    let before = padded(d.lines, f.rows as nat);
    let pieces = Seq::new(
        f.rows as nat,
        |k: int|
            if k < d.lines.len() && d.lines[k] == f.lines[k] || k >= d.lines.len()
                && f.lines[k].len() == 0 {
                Seq::<u8>::empty()
            } else {
                row_drawn(f, t, k)
            },
    );
    assert forall|k: int| 0 <= k < f.rows implies #[trigger] pieces[k] == (if before[k]
        == f.lines[k] {
        Seq::<u8>::empty()
    } else {
        row_drawn(f, t, k)
    }) by {
        if k >= d.lines.len() {
            assert(before[k] =~= Seq::<u8>::empty());
            assert(f.lines[k].len() == 0 <==> f.lines[k] =~= Seq::<u8>::empty());
        }
    }
    lemma_changes_joined(before, f, t, pieces, f.rows as nat);
    assert(pieces.take(f.rows as int) =~= pieces);
}

proof fn lemma_changes_joined(
    before: Seq<Seq<u8>>,
    f: Frame,
    t: Terminal,
    pieces: Seq<Seq<u8>>,
    n: nat,
)
    requires
        n <= f.rows,
        pieces.len() == f.rows,
        forall|k: int|
            0 <= k < f.rows ==> #[trigger] pieces[k] == (if before[k] == f.lines[k] {
                Seq::<u8>::empty()
            } else {
                row_drawn(f, t, k)
            }),
    ensures
        changes_drawn(before, f, t, n) == pieces.take(n as int).flatten(),
    decreases n,
{
    let some = pieces.take(n as int);
    if n == 0 {
        assert(some.flatten() =~= Seq::<u8>::empty());
    } else {
        lemma_changes_joined(before, f, t, pieces, (n - 1) as nat);
        assert(some.drop_last() =~= pieces.take(n - 1));
        lemma_joined_at_end(some);
        assert(some.last() == pieces[n - 1]);
    }
}

/// Where the size of the remote screen or of the terminal is another one than before, or nothing was
/// drawn before, everything is drawn: the input modes, mouse reports on, and, in order, each row that
/// has a place below the status bar. After them come the line below the remote screen and empty rows,
/// if the terminal has room for them.
pub proof fn lemma_everything_is_drawn_anew(d: Drawn, f: Frame, t: Terminal)
    requires
        frame_wf(f),
        d.screen != Some((f.rows, f.cols)) || d.terminal != Some((t.cols, t.rows)) || d.lines.len()
            == 0,
    ensures
        ({
            let shown: nat = if f.rows < t.rows {
                f.rows as nat
            } else if t.rows > 0 {
                (t.rows - 1) as nat
            } else {
                0
            };
            body_drawn(d, f, t) == f.input_mode + encode_utf8("\x1b[?1000h\x1b[?1006h"@) + Seq::new(
                shown,
                |k: int| row_drawn(f, t, k),
            ).flatten() + (if t.rows > f.rows + 1 {
                border_drawn(f, t) + Seq::new(
                    (t.rows - f.rows - 2) as nat,
                    |k: int| row_start((f.rows + 2 + k) as u16),
                ).flatten()
            } else {
                Seq::empty()
            })
        }),
{
    let shown = rows_in_terminal(f, t);
    lemma_rows_joined(f, t, shown);
    if t.rows > f.rows + 1 {
        lemma_cleared_joined(f.rows + 2, t.rows as int);
        assert(Seq::new(
            (t.rows - f.rows - 2) as nat,
            |k: int| row_start((f.rows + 2 + k) as u16),
        ) =~= Seq::new(
            (t.rows - (f.rows + 2)) as nat,
            |k: int| row_start((f.rows + 2 + k) as u16),
        ));
    }
}

proof fn lemma_rows_joined(f: Frame, t: Terminal, n: nat)
    ensures
        rows_drawn(f, t, n) == Seq::new(n, |k: int| row_drawn(f, t, k)).flatten(),
    decreases n,
{
    let pieces = Seq::new(n, |k: int| row_drawn(f, t, k));
    if n == 0 {
        assert(pieces.flatten() =~= Seq::<u8>::empty());
    } else {
        lemma_rows_joined(f, t, (n - 1) as nat);
        assert(pieces.drop_last() =~= Seq::new((n - 1) as nat, |k: int| row_drawn(f, t, k)));
        lemma_joined_at_end(pieces);
    }
}

proof fn lemma_cleared_joined(from: int, to: int)
    requires
        from <= to,
    ensures
        rows_cleared(from, to) == Seq::new(
            (to - from) as nat,
            |k: int| row_start((from + k) as u16),
        ).flatten(),
    decreases to - from,
{
    let pieces = Seq::new((to - from) as nat, |k: int| row_start((from + k) as u16));
    if to == from {
        assert(pieces.flatten() =~= Seq::<u8>::empty());
    } else {
        lemma_cleared_joined(from, to - 1);
        assert(pieces.drop_last() =~= Seq::new(
            (to - 1 - from) as nat,
            |k: int| row_start((from + k) as u16),
        ));
        lemma_joined_at_end(pieces);
    }
}

/// A row is drawn on its own place, one below its number because of the status bar: the cursor is put
/// there, the place is cleared without colours, and the bytes of the row follow. Where the remote
/// screen is narrower than the terminal, a dark grey line is drawn just to the right of it.
pub proof fn lemma_row_stands_on_its_place(f: Frame, t: Terminal, k: int)
    requires
        frame_wf(f),
        0 <= k < f.rows,
    ensures
        ({
            let start = move_code(0, (k + 1) as u16) + reset_code() + emphasis_code(Emphasis::Reset)
                + clear_code();
            let text = start + f.lines[k];
            let row = row_drawn(f, t, k);
            &&& text.is_prefix_of(row)
            &&& t.cols <= f.cols ==> row == text
            &&& t.cols > f.cols ==> row.skip(text.len() as int) == move_code(
                f.cols,
                (k + 1) as u16,
            ) + reset_code() + t.codes.dark_grey@ + emphasis_code(Emphasis::Normal) + encode_utf8(
                if t.utf8 {
                    "│"@
                } else {
                    "|"@
                },
            ) + reset_code() + clear_code()
        }),
{
    let start = move_code(0, (k + 1) as u16) + reset_code() + emphasis_code(Emphasis::Reset)
        + clear_code();
    let text = start + f.lines[k];
    let row = row_drawn(f, t, k);
    assert(row.take(text.len() as int) =~= text);
    if t.cols <= f.cols {
        assert(row =~= text);
    } else {
        assert(row.skip(text.len() as int) =~= move_code(f.cols, (k + 1) as u16) + reset_code()
            + t.codes.dark_grey@ + emphasis_code(Emphasis::Normal) + encode_utf8(
            if t.utf8 {
                "│"@
            } else {
                "|"@
            },
        ) + reset_code() + clear_code());
    }
}

/// The line below the remote screen is just as long as the screen is wide, and ends with a corner if
/// there is a line to the right of the screen.
pub proof fn lemma_border_is_as_wide_as_the_screen(f: Frame, t: Terminal)
    requires
        frame_wf(f),
    ensures
        border_drawn(f, t) == move_code(0, (f.rows + 1) as u16) + reset_code()
            + t.codes.dark_grey@ + emphasis_code(Emphasis::Normal) + Seq::new(
            f.cols as nat,
            |i: int|
                utf8_char(
                    if t.utf8 {
                        '─'
                    } else {
                        '-'
                    },
                ),
        ).flatten() + (if t.cols > f.cols {
            encode_utf8(
                if t.utf8 {
                    "┘"@
                } else {
                    "+"@
                },
            )
        } else {
            Seq::empty()
        }) + reset_code() + clear_code(),
{
    lemma_repeated_joined(bottom_border(t.utf8), f.cols as nat);
    assert(Seq::new(f.cols as nat, |i: int| bottom_border(t.utf8)) =~= Seq::new(
        f.cols as nat,
        |i: int|
            utf8_char(
                if t.utf8 {
                    '─'
                } else {
                    '-'
                },
            ),
    ));
}

proof fn lemma_repeated_joined(unit: Seq<u8>, n: nat)
    ensures
        repeated(unit, n) == Seq::new(n, |i: int| unit).flatten(),
    decreases n,
{
    let pieces = Seq::new(n, |i: int| unit);
    if n == 0 {
        assert(pieces.flatten() =~= Seq::<u8>::empty());
    } else {
        lemma_repeated_joined(unit, (n - 1) as nat);
        assert(pieces.drop_last() =~= Seq::new((n - 1) as nat, |i: int| unit));
        lemma_joined_at_end(pieces);
    }
}

/// What is remembered is what was drawn: the rows of this frame as far as they were drawn, and both
/// sizes. Rows below the remote screen stay as they were remembered.
pub proof fn lemma_what_was_drawn_is_remembered(d: Drawn, f: Frame, t: Terminal, k: int)
    requires
        frame_wf(f),
    ensures
        ({
            let after = after_frame(d, f, t);
            &&& after.screen == Some((f.rows, f.cols))
            &&& after.terminal == Some((t.cols, t.rows))
            &&& 0 <= k < after.lines.len() && k < f.rows ==> after.lines[k] == f.lines[k]
            &&& f.rows <= k < after.lines.len() ==> k < d.lines.len() && after.lines[k]
                == d.lines[k]
            &&& d.screen == Some((f.rows, f.cols)) && d.terminal == Some((t.cols, t.rows))
                && d.lines.len() > 0 ==> after.lines.len() == (if d.lines.len() < f.rows {
                f.rows as nat
            } else {
                d.lines.len()
            })
            &&& d.screen != Some((f.rows, f.cols)) || d.terminal != Some((t.cols, t.rows))
                || d.lines.len() == 0 ==> after.lines.len() == (if f.rows < t.rows {
                f.rows as int
            } else if t.rows > 0 {
                t.rows - 1
            } else {
                0
            })
        }),
{
}

/// The cursor is drawn where the remote one is, one row lower because of the status bar, and is seen
/// if and only if the remote one is. While the view is back in time it is hidden and does not move.
pub proof fn lemma_cursor_is_where_the_remote_one_is(f: Frame, t: Terminal)
    requires
        frame_wf(f),
    ensures
        f.scrolled ==> cursor_drawn(f, t) == cursor_code(false),
        !f.scrolled && f.cursor.1 < f.cols && f.cursor.0 + 1 < t.rows ==> cursor_drawn(f, t)
            == reset_code() + emphasis_code(Emphasis::Reset) + move_code(
            f.cursor.1,
            (f.cursor.0 + 1) as u16,
        ) + cursor_code(!f.cursor_hidden),
        !f.scrolled && f.cols > 0 && f.cursor.1 >= f.cols && f.cursor.0 + 1 < t.rows
            ==> cursor_drawn(f, t) == cursor_drawn(
            Frame { cursor: (f.cursor.0, (f.cols - 1) as u16), ..f },
            t,
        ),
        !f.scrolled && t.rows >= 2 && f.cursor.0 + 1 >= t.rows ==> cursor_drawn(f, t)
            == cursor_drawn(Frame { cursor: ((t.rows - 2) as u16, f.cursor.1), ..f }, t),
        !f.scrolled && t.rows < 2 && f.cursor.1 < f.cols ==> cursor_drawn(f, t) == reset_code()
            + emphasis_code(Emphasis::Reset) + move_code(f.cursor.1, 0) + cursor_code(
            !f.cursor_hidden,
        ),
        !f.scrolled && f.cols == 0 && f.cursor.0 + 1 < t.rows ==> cursor_drawn(f, t)
            == reset_code() + emphasis_code(Emphasis::Reset) + move_code(
            0,
            (f.cursor.0 + 1) as u16,
        ) + cursor_code(!f.cursor_hidden),
{
    if f.scrolled {
        assert(cursor_drawn(f, t) =~= cursor_code(false));
    }
}

/// What a frame is taken from a screen is what the screen has.
pub proof fn lemma_frame_shows_the_screen(s: Screen)
    ensures
        frame_of(s).rows == screen_size(s).0,
        frame_of(s).cols == screen_size(s).1,
        frame_of(s).lines == row_codes(s, screen_size(s).1),
        frame_of(s).input_mode == input_mode_codes(s),
        frame_of(s).cursor == cursor(s),
        frame_of(s).cursor_hidden == cursor_hidden(s),
        frame_of(s).scrolled <==> scroll_offset(s) != 0,
{
}

/// First comes the status bar, then the remote screen, and last the cursor, so that it stays where the
/// remote one is.
pub proof fn lemma_cursor_is_drawn_last(d: Drawn, f: Frame, t: Terminal, bar: StatusBarState)
    ensures
        ({
            let all = frame_drawn(d, f, t, bar);
            let first = bar.drawn(t.cols, t.codes);
            let last = cursor_drawn(f, t);
            &&& first.is_prefix_of(all)
            &&& last.is_suffix_of(all)
            &&& all.subrange(first.len() as int, all.len() - last.len()) == body_drawn(d, f, t)
        }),
{
    let all = frame_drawn(d, f, t, bar);
    let first = bar.drawn(t.cols, t.codes);
    let last = cursor_drawn(f, t);
    assert(all.take(first.len() as int) =~= first);
    assert(all.skip(all.len() - last.len()) =~= last);
    assert(all.subrange(first.len() as int, all.len() - last.len()) =~= body_drawn(d, f, t));
}

/// The view moves by just as many lines as it is told to, and stops at now and at the oldest line
/// that is kept.
pub proof fn lemma_scroll_moves_by_delta(current: usize, delta: isize, kept: nat)
    requires
        kept <= usize::MAX,
    ensures
        0 <= current + delta <= kept ==> scrolled_by(current, delta, kept) == current + delta,
        current + delta < 0 ==> scrolled_by(current, delta, kept) == 0,
        current + delta > kept ==> scrolled_by(current, delta, kept) == kept,
{
}

/// The remote screen and the status bar together are as high as the terminal, unless it has less than
/// two rows, and the screen is as wide as the terminal.
pub proof fn lemma_screen_and_bar_fill_the_terminal(cols: u16, rows: u16)
    ensures
        room_below_bar(cols, rows).cols == cols,
        rows >= 2 ==> room_below_bar(cols, rows).rows + 1 == rows,
        rows < 2 ==> room_below_bar(cols, rows).rows == 1,
{
}

/// A frame holds what was taken from the screen.
pub proof fn lemma_frame_holds_what_was_taken(f: ScreenFrame)
    ensures
        f@.rows == f.rows,
        f@.cols == f.cols,
        f@.lines.len() == f.lines@.len(),
        forall|i: int| 0 <= i < f.lines@.len() ==> #[trigger] f@.lines[i] == f.lines@[i]@,
        f@.input_mode == f.input_mode@,
        f@.cursor == f.cursor,
        f@.cursor_hidden == f.cursor_hidden,
        f@.scrolled == f.scrolled,
{
    assert forall|i: int| 0 <= i < f.lines@.len() implies #[trigger] f@.lines[i] == f.lines@[i]@ by {
        assert(f.lines@[i].deep_view() =~= f.lines@[i]@);
    }
}

} // verus!
