//! The terminal screen of the `vt100` crate, described by what can be read off it.
use vstd::prelude::*;
use vt100::{MouseProtocolMode, Screen};

verus! {

#[verifier::external_type_specification]
#[verifier::external_body]
pub struct ExScreen(Screen);

/// Which mouse events a program has asked for.
#[derive(Debug, Clone, Copy, PartialEq, Eq, Structural)]
pub enum MouseMode {
    Off,
    Press,
    PressRelease,
    ButtonMotion,
    AnyMotion,
}

/// The size of the screen: rows, then columns.
pub uninterp spec fn screen_size(s: Screen) -> (u16, u16);

/// How many lines back in time the view is.
pub uninterp spec fn scroll_offset(s: Screen) -> usize;

/// How many lines that have left the screen at the top are kept.
pub uninterp spec fn history(s: Screen) -> nat;

/// Whether a row in view has a first cell. A row that has left a screen without columns has none.
pub uninterp spec fn has_first_cell(s: Screen, row: u16) -> bool;

/// The first `width` columns of each row in view, written with escape codes.
pub uninterp spec fn row_codes(s: Screen, width: u16) -> Seq<Seq<u8>>;

/// Where the cursor is: row, then column, counted from zero.
pub uninterp spec fn cursor(s: Screen) -> (u16, u16);

/// Whether the program hides the cursor.
pub uninterp spec fn cursor_hidden(s: Screen) -> bool;

/// Whether the program has taken over the screen.
pub uninterp spec fn on_alternate_screen(s: Screen) -> bool;

/// Whether the program wants application cursor keys.
pub uninterp spec fn cursor_keys_on(s: Screen) -> bool;

/// Which mouse events the program has asked for.
pub uninterp spec fn mouse_mode(s: Screen) -> MouseMode;

/// Escape codes that set the input modes of the screen.
pub uninterp spec fn input_mode_codes(s: Screen) -> Seq<u8>;

/// Escape codes that reproduce the screen and its input modes.
pub uninterp spec fn state_codes(s: Screen) -> Seq<u8>;

/// The screen with the view at the given line back in time, or as far back as lines are kept.
pub uninterp spec fn scrolled_screen(s: Screen, rows: usize) -> Screen;

/// The screen with another size.
pub uninterp spec fn resized_screen(s: Screen, rows: u16, cols: u16) -> Screen;

/// Whether a screen can be written with escape codes: it has rows and columns, positions counted
/// from one still are numbers of 16 bits, and each row in view has a first cell.
pub open spec fn drawable(s: Screen) -> bool {
    &&& 1 <= screen_size(s).0 < u16::MAX
    &&& 1 <= screen_size(s).1 < u16::MAX
    &&& forall|row: u16| row < screen_size(s).0 ==> #[trigger] has_first_cell(s, row)
}

/// `Screen::size` gives rows, then columns.
pub assume_specification[ Screen::size ](s: &Screen) -> (r: (u16, u16))
    ensures
        r == screen_size(*s),
;

/// `Screen::scrollback` tells how many lines back in time the view is.
pub assume_specification[ Screen::scrollback ](s: &Screen) -> (r: usize)
    ensures
        r == scroll_offset(*s),
;

/// `Screen::set_scrollback` moves the view to the given line back in time, or as far back as lines
/// are kept. It touches neither the size of the screen, nor the lines, nor the cursor, nor a mode.
pub assume_specification[ Screen::set_scrollback ](s: &mut Screen, rows: usize)
    ensures
        *final(s) == scrolled_screen(*old(s), rows),
        scroll_offset(*final(s)) == (if rows <= history(*old(s)) {
            rows as nat
        } else {
            history(*old(s))
        }),
        history(*final(s)) == history(*old(s)),
        screen_size(*final(s)) == screen_size(*old(s)),
        cursor(*final(s)) == cursor(*old(s)),
        cursor_hidden(*final(s)) == cursor_hidden(*old(s)),
        on_alternate_screen(*final(s)) == on_alternate_screen(*old(s)),
        cursor_keys_on(*final(s)) == cursor_keys_on(*old(s)),
        mouse_mode(*final(s)) == mouse_mode(*old(s)),
        input_mode_codes(*final(s)) == input_mode_codes(*old(s)),
;

/// `Screen::set_size` gives the screen the given size and keeps its modes, the lines that have left
/// it and how far back the view is. It counts the rows and columns before the last, old and new,
/// so there has to be one of each. What becomes of the contents and the cursor has a name only.
pub assume_specification[ Screen::set_size ](s: &mut Screen, rows: u16, cols: u16)
    requires
        rows >= 1,
        cols >= 1,
        screen_size(*old(s)).0 >= 1,
    ensures
        *final(s) == resized_screen(*old(s), rows, cols),
        screen_size(*final(s)) == (rows, cols),
        scroll_offset(*final(s)) == scroll_offset(*old(s)),
        history(*final(s)) == history(*old(s)),
        cursor_hidden(*final(s)) == cursor_hidden(*old(s)),
        on_alternate_screen(*final(s)) == on_alternate_screen(*old(s)),
        cursor_keys_on(*final(s)) == cursor_keys_on(*old(s)),
        mouse_mode(*final(s)) == mouse_mode(*old(s)),
        input_mode_codes(*final(s)) == input_mode_codes(*old(s)),
;

/// `Screen::cell` at column zero gives the first cell of a row in view, if it has one.
#[verifier::external_body]
fn first_cell(s: &Screen, row: u16) -> (r: bool)
    ensures
        r == has_first_cell(*s, row),
{
    s.cell(row, 0).is_some()
}

/// Whether a screen can be written with escape codes.
pub fn is_drawable(s: &Screen) -> (r: bool)
    ensures
        r == drawable(*s),
{
    let (rows, cols) = s.size();
    if rows == 0 || rows == u16::MAX || cols == 0 || cols == u16::MAX {
        return false;
    }
    let mut row: u16 = 0;
    while row < rows
        invariant
            row <= rows,
            rows == screen_size(*s).0,
            forall|i: u16| i < row ==> #[trigger] has_first_cell(*s, i),
        decreases rows - row,
    {
        if !first_cell(s, row) {
            return false;
        }
        row += 1;
    }
    true
}

/// `Screen::rows_formatted` from column zero writes each row in view, as many as the screen has. It
/// reads the first cell of each row.
#[verifier::external_body]
pub(crate) fn rows_formatted(s: &Screen, width: u16) -> (r: Vec<Vec<u8>>)
    requires
        drawable(*s),
    ensures
        r.deep_view() == row_codes(*s, width),
        r@.len() == screen_size(*s).0,
{
    s.rows_formatted(0, width).collect()
}

/// `Screen::cursor_position` gives the row, then the column.
pub assume_specification[ Screen::cursor_position ](s: &Screen) -> (r: (u16, u16))
    ensures
        r == cursor(*s),
;

/// `Screen::hide_cursor` tells whether the program hides the cursor.
pub assume_specification[ Screen::hide_cursor ](s: &Screen) -> (r: bool)
    ensures
        r == cursor_hidden(*s),
;

/// `Screen::alternate_screen` tells whether the program has taken over the screen.
pub assume_specification[ Screen::alternate_screen ](s: &Screen) -> (r: bool)
    ensures
        r == on_alternate_screen(*s),
;

/// `Screen::application_cursor` tells whether the program wants application cursor keys.
pub assume_specification[ Screen::application_cursor ](s: &Screen) -> (r: bool)
    ensures
        r == cursor_keys_on(*s),
;

/// `Screen::mouse_protocol_mode` tells which mouse events the program has asked for.
#[verifier::external_body]
pub(crate) fn mouse_protocol_mode(s: &Screen) -> (r: MouseMode)
    ensures
        r == mouse_mode(*s),
{
    match s.mouse_protocol_mode() {
        MouseProtocolMode::None => MouseMode::Off,
        MouseProtocolMode::Press => MouseMode::Press,
        MouseProtocolMode::PressRelease => MouseMode::PressRelease,
        MouseProtocolMode::ButtonMotion => MouseMode::ButtonMotion,
        MouseProtocolMode::AnyMotion => MouseMode::AnyMotion,
    }
}

/// `Screen::input_mode_formatted` writes the input modes with escape codes.
pub assume_specification[ Screen::input_mode_formatted ](s: &Screen) -> (r: Vec<u8>)
    ensures
        r@ == input_mode_codes(*s),
;

/// `Screen::state_formatted` writes the screen and its input modes with escape codes. It reads the
/// first cell of each row.
pub assume_specification[ Screen::state_formatted ](s: &Screen) -> (r: Vec<u8>)
    requires
        drawable(*s),
    ensures
        r@ == state_codes(*s),
;

/// A screen can be written with escape codes just where it has a row and a column, no side has 65535
/// or more of them, and each of its rows has a first cell.
pub proof fn lemma_which_screens_can_be_drawn(s: Screen)
    ensures
        drawable(s) <==> screen_size(s).0 > 0 && screen_size(s).1 > 0 && screen_size(s).0 < 65535
            && screen_size(s).1 < 65535 && forall|row: u16|
            row < screen_size(s).0 ==> #[trigger] has_first_cell(s, row),
{
}

} // verus!
