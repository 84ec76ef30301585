//! The escape codes of the `crossterm` crate that the local terminal is drawn with.
use crate::ascii::{ESC, LEFT_BRACKET, QUESTION_MARK, SEMICOLON};
use crate::text::{decimal, lemma_decimal_reads_back, lemma_last_part, number_read, parts};
use crossterm::cursor::{Hide, MoveTo, Show};
use crossterm::event::DisableMouseCapture;
use crossterm::style::{
    Attribute, Color, ResetColor, SetAttribute, SetBackgroundColor, SetForegroundColor,
};
use crossterm::terminal::{Clear, ClearType, EnterAlternateScreen, LeaveAlternateScreen};
use crossterm::Command;
use vstd::prelude::*;
use vstd::string::*;
use vstd::utf8::*;

verus! {

/// The colours that the console uses.
#[derive(Debug, Clone, Copy, PartialEq, Eq, Structural)]
pub enum Paint {
    White,
    Grey,
    DarkGrey,
    Green,
    Red,
    DarkBlue,
    /// A colour of the palette of 256.
    Palette(u8),
}

/// The text attributes that the console uses.
#[derive(Debug, Clone, Copy, PartialEq, Eq, Structural)]
pub enum Emphasis {
    Reset,
    Bold,
    Normal,
}

/// The number of a colour in the palette of 256.
pub open spec fn palette_index(p: Paint) -> nat {
    match p {
        Paint::White => 15,
        Paint::Grey => 7,
        Paint::DarkGrey => 8,
        Paint::Green => 10,
        Paint::Red => 9,
        Paint::DarkBlue => 4,
        Paint::Palette(n) => n as nat,
    }
}

/// A colour code: the colour of `layer`, which is 38 for text and 48 for what is behind it. The code
/// is left without a colour where the user wants none.
pub open spec fn color_code(layer: nat, p: Paint, colors_on: bool) -> Seq<u8> {
    if colors_on {
        seq![ESC, LEFT_BRACKET] + decimal(layer) + seq![SEMICOLON] + decimal(5) + seq![SEMICOLON]
            + decimal(palette_index(p)) + seq![0x6du8]
    } else {
        seq![ESC, LEFT_BRACKET, 0x6d]
    }
}

/// The code of a text colour.
pub open spec fn foreground_code(p: Paint, colors_on: bool) -> Seq<u8> {
    color_code(38, p, colors_on)
}

/// The code of a background colour.
pub open spec fn background_code(p: Paint, colors_on: bool) -> Seq<u8> {
    color_code(48, p, colors_on)
}

/// The code that moves the cursor, which counts from one.
pub open spec fn move_code(col: u16, row: u16) -> Seq<u8> {
    seq![ESC, LEFT_BRACKET] + decimal((row + 1) as nat) + seq![SEMICOLON] + decimal(
        (col + 1) as nat,
    ) + seq![0x48u8]
}

/// The code that clears the rest of the line.
pub open spec fn clear_code() -> Seq<u8> {
    seq![ESC, LEFT_BRACKET, 0x4b]
}

/// The code that takes colours back.
pub open spec fn reset_code() -> Seq<u8> {
    seq![ESC, LEFT_BRACKET, 0x30, 0x6d]
}

/// The code of a text attribute.
pub open spec fn emphasis_code(e: Emphasis) -> Seq<u8> {
    seq![ESC, LEFT_BRACKET] + decimal(
        match e {
            Emphasis::Reset => 0,
            Emphasis::Bold => 1,
            Emphasis::Normal => 22,
        },
    ) + seq![0x6du8]
}

/// The code that hides or shows the cursor.
pub open spec fn cursor_code(visible: bool) -> Seq<u8> {
    seq![
        ESC,
        LEFT_BRACKET,
        QUESTION_MARK,
        0x32,
        0x35,
        if visible {
            0x68u8
        } else {
            0x6cu8
        },
    ]
}

/// The code that enters or leaves the alternate screen.
pub open spec fn alternate_screen_code(enter: bool) -> Seq<u8> {
    seq![
        ESC,
        LEFT_BRACKET,
        QUESTION_MARK,
        0x31,
        0x30,
        0x34,
        0x39,
        if enter {
            0x68u8
        } else {
            0x6cu8
        },
    ]
}

/// The codes that switch all mouse reports off.
pub open spec fn mouse_off_codes() -> Seq<u8> {
    encode_utf8("\x1b[?1006l\x1b[?1015l\x1b[?1003l\x1b[?1002l\x1b[?1000l"@)
}

/// `MoveTo` writes the code that moves the cursor. It adds one to each number.
#[verifier::external_body]
pub(crate) fn move_to(col: u16, row: u16) -> (r: Vec<u8>)
    requires
        col < u16::MAX,
        row < u16::MAX,
    ensures
        r@ == move_code(col, row),
{
    let mut code = String::new();
    let _ = MoveTo(col, row).write_ansi(&mut code);
    code.into_bytes()
}

/// `Clear` with `UntilNewLine` writes the code that clears the rest of the line.
#[verifier::external_body]
pub(crate) fn clear_rest_of_line() -> (r: Vec<u8>)
    ensures
        r@ == clear_code(),
{
    let mut code = String::new();
    let _ = Clear(ClearType::UntilNewLine).write_ansi(&mut code);
    code.into_bytes()
}

/// `ResetColor` writes the code that takes colours back.
#[verifier::external_body]
pub(crate) fn reset_color() -> (r: Vec<u8>)
    ensures
        r@ == reset_code(),
{
    let mut code = String::new();
    let _ = ResetColor.write_ansi(&mut code);
    code.into_bytes()
}

/// `SetAttribute` writes the code of a text attribute.
#[verifier::external_body]
pub(crate) fn set_attribute(e: Emphasis) -> (r: Vec<u8>)
    ensures
        r@ == emphasis_code(e),
{
    let mut code = String::new();
    let attribute = match e {
        Emphasis::Reset => Attribute::Reset,
        Emphasis::Bold => Attribute::Bold,
        Emphasis::Normal => Attribute::NormalIntensity,
    };
    let _ = SetAttribute(attribute).write_ansi(&mut code);
    code.into_bytes()
}

/// `Hide` writes the code that hides the cursor.
#[verifier::external_body]
pub(crate) fn write_hide() -> (r: Vec<u8>)
    ensures
        r@ == cursor_code(false),
{
    let mut code = String::new();
    let _ = Hide.write_ansi(&mut code);
    code.into_bytes()
}

/// `Show` writes the code that shows the cursor.
#[verifier::external_body]
pub(crate) fn write_show() -> (r: Vec<u8>)
    ensures
        r@ == cursor_code(true),
{
    let mut code = String::new();
    let _ = Show.write_ansi(&mut code);
    code.into_bytes()
}

/// `EnterAlternateScreen` writes the code that enters the alternate screen.
#[verifier::external_body]
pub(crate) fn enter_alternate_screen() -> (r: Vec<u8>)
    ensures
        r@ == alternate_screen_code(true),
{
    let mut code = String::new();
    let _ = EnterAlternateScreen.write_ansi(&mut code);
    code.into_bytes()
}

/// `LeaveAlternateScreen` writes the code that leaves the alternate screen.
#[verifier::external_body]
pub(crate) fn leave_alternate_screen() -> (r: Vec<u8>)
    ensures
        r@ == alternate_screen_code(false),
{
    let mut code = String::new();
    let _ = LeaveAlternateScreen.write_ansi(&mut code);
    code.into_bytes()
}

/// `DisableMouseCapture` writes the codes that switch all mouse reports off.
#[verifier::external_body]
pub(crate) fn disable_mouse() -> (r: Vec<u8>)
    ensures
        r@ == mouse_off_codes(),
{
    let mut code = String::new();
    let _ = DisableMouseCapture.write_ansi(&mut code);
    code.into_bytes()
}

/// `SetForegroundColor` writes the code of a text colour, without the colour where the environment
/// or the program has switched colours off.
#[verifier::external_body]
pub(crate) fn set_foreground(p: Paint) -> (r: Vec<u8>)
    ensures
        r@ == foreground_code(p, true) || r@ == foreground_code(p, false),
{
    let mut code = String::new();
    let color = match p {
        Paint::White => Color::White,
        Paint::Grey => Color::Grey,
        Paint::DarkGrey => Color::DarkGrey,
        Paint::Green => Color::Green,
        Paint::Red => Color::Red,
        Paint::DarkBlue => Color::DarkBlue,
        Paint::Palette(n) => Color::AnsiValue(n),
    };
    let _ = SetForegroundColor(color).write_ansi(&mut code);
    code.into_bytes()
}

/// `SetBackgroundColor` writes the code of a background colour, without the colour where the
/// environment or the program has switched colours off.
#[verifier::external_body]
pub(crate) fn set_background(p: Paint) -> (r: Vec<u8>)
    ensures
        r@ == background_code(p, true) || r@ == background_code(p, false),
{
    let mut code = String::new();
    let color = match p {
        Paint::White => Color::White,
        Paint::Grey => Color::Grey,
        Paint::DarkGrey => Color::DarkGrey,
        Paint::Green => Color::Green,
        Paint::Red => Color::Red,
        Paint::DarkBlue => Color::DarkBlue,
        Paint::Palette(n) => Color::AnsiValue(n),
    };
    let _ = SetBackgroundColor(color).write_ansi(&mut code);
    code.into_bytes()
}

/// The code that moves the cursor is read back as the row and the column, each counted from one.
pub proof fn lemma_move_reads_back(col: u16, row: u16)
    ensures
        ({
            let code = move_code(col, row);
            &&& code.len() >= 3
            &&& code.take(2) == seq![0x1bu8, 0x5b]
            &&& code.last() == 0x48
            &&& parts(code.subrange(2, code.len() - 1), 0x3b).map_values(
                |digits: Seq<u8>| number_read(digits),
            ) == seq![row + 1, col + 1]
        }),
{
    let code = move_code(col, row);
    let a = decimal((row + 1) as nat);
    let b = decimal((col + 1) as nat);
    let text = a + seq![0x3bu8] + b;
    assert(code.take(2) =~= seq![0x1bu8, 0x5b]);
    assert(code.subrange(2, code.len() - 1) =~= text);
    lemma_decimal_reads_back((row + 1) as nat);
    lemma_decimal_reads_back((col + 1) as nat);
    lemma_last_part(Seq::empty(), a, 0x3b);
    lemma_last_part(a, b, 0x3b);
    assert(parts(text, 0x3b) =~= seq![a, b]);
    assert(parts(text, 0x3b).map_values(|digits: Seq<u8>| number_read(digits)) =~= seq![
        row + 1,
        col + 1,
    ]);
}

/// Different colours have different codes, for the text and for what is behind it.
pub proof fn lemma_colours_tell_apart(p: Paint, q: Paint)
    requires
        palette_index(p) != palette_index(q),
    ensures
        foreground_code(p, true) != foreground_code(q, true),
        background_code(p, true) != background_code(q, true),
        foreground_code(p, true) != background_code(p, true),
{
    let a = decimal(palette_index(p));
    let b = decimal(palette_index(q));
    lemma_decimal_reads_back(palette_index(p));
    lemma_decimal_reads_back(palette_index(q));
    assert(a != b);
    lemma_number_in_code(38, p);
    lemma_number_in_code(38, q);
    lemma_number_in_code(48, p);
    lemma_number_in_code(48, q);
    assert(foreground_code(p, true)[2] != background_code(p, true)[2]);
}

proof fn lemma_number_in_code(layer: nat, p: Paint)
    requires
        layer == 38 || layer == 48,
    ensures
        ({
            let code = color_code(layer, p, true);
            &&& code.len() > 7
            &&& code.subrange(7, code.len() - 1) == decimal(palette_index(p))
            &&& code[2] == 48 + layer / 10
        }),
{
    reveal_with_fuel(decimal, 2);
    let code = color_code(layer, p, true);
    assert(decimal(layer) =~= seq![(48 + layer / 10) as u8, 56u8]);
    assert(decimal(5) =~= seq![53u8]);
    assert(code.subrange(7, code.len() - 1) =~= decimal(palette_index(p)));
}

} // verus!
