//! The status bar: what it says, and how it is drawn.
use crate::ansi::{
    background_code, emphasis_code, foreground_code, move_code, move_to, reset_code, reset_color,
    set_attribute, set_background, set_foreground, Emphasis, Paint,
};
use crate::buffer::buffered;
use crate::text::{
    ascii, chars_of, decimal_chars, decimal_text, lemma_decimal_text_reads_back, lemma_joined_at_end,
    number_read, string_of, utf8_bytes, utf8_char,
};
use crate::time::nanos;
use bytes::BytesMut;
use std::time::Duration;
use vstd::prelude::*;
use vstd::string::*;

verus! {

/// Whether the relays can be reached, and how fast the nearest one answers.
#[derive(Debug, Clone, Copy)]
pub enum InternetState {
    Online(Duration),
    Offline,
}

/// The two ends of a session.
#[derive(Debug, Clone, Copy, PartialEq, Eq, Structural)]
pub enum Role {
    Victim,
    Helper,
}

/// How many colours the local terminal has.
#[derive(Debug, Clone, Copy, PartialEq, Eq, Structural)]
pub enum ColorSupport {
    /// 16 million colours.
    TrueColor,
    /// 256 colours.
    Ansi256,
    /// The standard colours of a basic terminal.
    Basic,
}

/// The code that a helper types in to find the session.
#[derive(Debug)]
pub enum WormholeCodeState {
    Generating,
    NoCode,
    Code(String),
}

/// The whole milliseconds in a span of time, in decimal.
pub open spec fn millis_text(d: Duration) -> Seq<char> {
    decimal_text(nanos(d) / 1_000_000)
}

impl InternetState {
    /// What the state is called.
    pub open spec fn text(self) -> Seq<char> {
        match self {
            InternetState::Online(d) => "Online ("@ + millis_text(d) + " ms)"@,
            InternetState::Offline => "Offline"@,
        }
    }

    /// What the state is called.
    pub fn to_text(&self) -> (r: String)
        ensures
            r@ == self.text(),
    {
        match self {
            InternetState::Online(d) => {
                let mut out: Vec<char> = chars_of("Online (");
                let mut millis: Vec<char> = decimal_chars(d.as_millis());
                let mut unit: Vec<char> = chars_of(" ms)");
                out.append(&mut millis);
                out.append(&mut unit);
                string_of(out.as_slice())
            },
            InternetState::Offline => "Offline".to_owned(),
        }
    }
}

impl Role {
    /// What the role is called.
    pub open spec fn text(self) -> Seq<char> {
        match self {
            Role::Victim => "Victim"@,
            Role::Helper => "Helper"@,
        }
    }

    /// What the role is called.
    pub fn name(&self) -> (r: &'static str)
        ensures
            r@ == self.text(),
    {
        match self {
            Role::Victim => "Victim",
            Role::Helper => "Helper",
        }
    }
}

impl WormholeCodeState {
    /// The code, or why there is none.
    pub open spec fn text(self) -> Seq<char> {
        match self {
            WormholeCodeState::Generating => "Generating..."@,
            WormholeCodeState::NoCode => "No code"@,
            WormholeCodeState::Code(code) => code@,
        }
    }

    /// The code, or why there is none.
    pub fn to_text(&self) -> (r: String)
        ensures
            r@ == self.text(),
    {
        match self {
            WormholeCodeState::Generating => "Generating...".to_owned(),
            WormholeCodeState::NoCode => "No code".to_owned(),
            WormholeCodeState::Code(code) => code.clone(),
        }
    }
}

/// A character with its colour and attribute.
#[derive(Debug, Clone, Copy, PartialEq, Eq, Structural)]
pub struct Glyph {
    pub c: char,
    pub fg: Paint,
    pub emphasis: Emphasis,
}

impl Glyph {
    /// Whether both have the same colour and attribute.
    pub open spec fn same_style(self, other: Glyph) -> bool {
        self.fg == other.fg && self.emphasis == other.emphasis
    }
}

/// A character in a colour and with an attribute.
pub open spec fn glyph(c: char, fg: Paint, emphasis: Emphasis) -> Glyph {
    Glyph { c, fg, emphasis }
}

/// A text in one colour and with one attribute.
pub open spec fn styled(text: Seq<char>, fg: Paint, emphasis: Emphasis) -> Seq<Glyph> {
    text.map_values(|c: char| glyph(c, fg, emphasis))
}

/// A text in plain white.
pub open spec fn plain(text: Seq<char>) -> Seq<Glyph> {
    styled(text, Paint::White, Emphasis::Normal)
}

/// So many blanks.
pub open spec fn blanks(n: nat) -> Seq<Glyph> {
    Seq::new(n, |i: int| Glyph { c: ' ', fg: Paint::White, emphasis: Emphasis::Normal })
}

/// What is seen of the bar through a window of the given width: all of it, with blanks after it, or
/// where it does not fit, a part of it that moves round with each tick. The last of the bar and the
/// first of it are kept apart by three stars.
pub open spec fn window(bar: Seq<Glyph>, width: nat, tick: nat) -> Seq<Glyph> {
    if bar.len() <= width {
        bar + blanks((width - bar.len()) as nat)
    } else {
        let ring = bar + plain("   ***   "@);
        Seq::new(width, |i: int| ring[(tick as int % ring.len() as int + i) % ring.len() as int])
    }
}

/// The codes of the colours in which the console is drawn. They depend on whether the user wants
/// colours.
pub struct ColorCodes {
    pub bar: Vec<u8>,
    pub white: Vec<u8>,
    pub grey: Vec<u8>,
    pub dark_grey: Vec<u8>,
    pub green: Vec<u8>,
    pub red: Vec<u8>,
}

/// The background of the bar.
pub open spec fn bar_paint(colors: ColorSupport) -> Paint {
    if colors == ColorSupport::Basic {
        Paint::DarkBlue
    } else {
        Paint::Palette(17)
    }
}

/// The colour of the number of helpers while there are none. It has to be readable on the bar.
pub open spec fn idle_paint(colors: ColorSupport) -> Paint {
    if colors == ColorSupport::Basic {
        Paint::Grey
    } else {
        Paint::DarkGrey
    }
}

/// The code of a text colour, with the colour or without.
pub open spec fn is_foreground(code: Seq<u8>, p: Paint) -> bool {
    code == foreground_code(p, true) || code == foreground_code(p, false)
}

/// The code of a background colour, with the colour or without.
pub open spec fn is_background(code: Seq<u8>, p: Paint) -> bool {
    code == background_code(p, true) || code == background_code(p, false)
}

impl ColorCodes {
    /// Whether these are the codes for a terminal with so many colours.
    pub open spec fn wf(self, colors: ColorSupport) -> bool {
        &&& is_background(self.bar@, bar_paint(colors))
        &&& is_foreground(self.white@, Paint::White)
        &&& is_foreground(self.grey@, Paint::Grey)
        &&& is_foreground(self.dark_grey@, Paint::DarkGrey)
        &&& is_foreground(self.green@, Paint::Green)
        &&& is_foreground(self.red@, Paint::Red)
    }

    /// The code of a text colour.
    pub open spec fn fg(self, p: Paint) -> Seq<u8> {
        match p {
            Paint::Grey => self.grey@,
            Paint::DarkGrey => self.dark_grey@,
            Paint::Green => self.green@,
            Paint::Red => self.red@,
            _ => self.white@,
        }
    }

    /// The codes for a terminal with so many colours.
    pub fn new(colors: ColorSupport) -> (r: Self)
        ensures
            r.wf(colors),
    {
        let bar: Paint = match colors {
            ColorSupport::TrueColor | ColorSupport::Ansi256 => Paint::Palette(17),
            ColorSupport::Basic => Paint::DarkBlue,
        };
        ColorCodes {
            bar: set_background(bar),
            white: set_foreground(Paint::White),
            grey: set_foreground(Paint::Grey),
            dark_grey: set_foreground(Paint::DarkGrey),
            green: set_foreground(Paint::Green),
            red: set_foreground(Paint::Red),
        }
    }

    fn foreground(&self, p: Paint) -> (r: &Vec<u8>)
        ensures
            r@ == self.fg(p),
    {
        match p {
            Paint::Grey => &self.grey,
            Paint::DarkGrey => &self.dark_grey,
            Paint::Green => &self.green,
            Paint::Red => &self.red,
            _ => &self.white,
        }
    }
}

/// Glyphs drawn with escape codes: colour and attribute are set where they change.
pub open spec fn painted(glyphs: Seq<Glyph>, codes: ColorCodes) -> Seq<u8>
    decreases glyphs.len(),
{
    if glyphs.len() == 0 {
        Seq::empty()
    } else {
        let g = glyphs.last();
        let before = painted(glyphs.drop_last(), codes);
        if glyphs.len() >= 2 && glyphs[glyphs.len() - 2].same_style(g) {
            before + utf8_char(g.c)
        } else {
            before + codes.fg(g.fg) + emphasis_code(g.emphasis) + utf8_char(g.c)
        }
    }
}

/// One helper more, as far as the number can be counted.
pub open spec fn more_helpers(n: u8) -> u8 {
    if n < u8::MAX {
        (n + 1) as u8
    } else {
        n
    }
}

/// One helper less, but never less than none.
pub open spec fn fewer_helpers(n: u8) -> u8 {
    if n > 0 {
        (n - 1) as u8
    } else {
        n
    }
}

/// The next tick, after the largest number zero again.
pub open spec fn next_tick(tick: usize) -> usize {
    if tick == usize::MAX {
        0
    } else {
        (tick + 1) as usize
    }
}

/// What the status bar shows.
#[derive(Debug)]
pub struct StatusBarState {
    pub code: WormholeCodeState,
    pub role: Role,
    pub connected_helpers: u8,
    pub internet_state: InternetState,
    /// How far the bar has moved, where it does not fit.
    pub tick: usize,
    /// Whether the local terminal shows more than ASCII.
    pub is_utf8: bool,
    /// How many colours the local terminal has.
    pub color_mode: ColorSupport,
    /// The name and version of the program.
    pub title: String,
}

impl StatusBarState {
    /// The code, or why there is none. The code itself stands out.
    pub open spec fn code_part(self) -> Seq<Glyph> {
        styled(
            self.code.text(),
            Paint::White,
            if self.code is Code {
                Emphasis::Bold
            } else {
                Emphasis::Normal
            },
        )
    }

    /// How many helpers are connected.
    pub open spec fn helpers_part(self) -> Seq<Glyph> {
        styled(
            decimal_text(self.connected_helpers as nat) + " Connected"@,
            if self.connected_helpers > 0 {
                Paint::Green
            } else {
                idle_paint(self.color_mode)
            },
            Emphasis::Normal,
        )
    }

    /// Whether the relays can be reached.
    pub open spec fn internet_part(self) -> Seq<Glyph> {
        match self.internet_state {
            InternetState::Online(ping) => styled(
                (if self.is_utf8 {
                    "●"@
                } else {
                    "*"@
                }) + " Online ("@ + millis_text(ping) + " ms)"@,
                Paint::Green,
                Emphasis::Normal,
            ),
            InternetState::Offline => styled("x Offline"@, Paint::Red, Emphasis::Normal),
        }
    }

    /// All that the bar says.
    pub open spec fn content(self) -> Seq<Glyph> {
        self.code_part() + plain(" ║ "@) + plain(self.title@) + plain(" ║ "@) + plain(
            self.role.text(),
        ) + plain(" ║ "@) + self.helpers_part() + plain(" ║ "@) + self.internet_part() + plain(
            " ║ CTRL+] to exit"@,
        )
    }

    /// The bar as it is drawn on the top row of a terminal of the given width.
    pub open spec fn drawn(self, cols: u16, codes: ColorCodes) -> Seq<u8> {
        move_code(0, 0) + codes.bar@ + painted(
            window(self.content(), cols as nat, self.tick as nat),
            codes,
        ) + reset_code() + emphasis_code(Emphasis::Reset)
    }

    /// The bar of a session that has just begun.
    pub fn new(role: Role, is_utf8: bool, color_mode: ColorSupport, title: String) -> (r: Self)
        ensures
            r.code is NoCode,
            r.role == role,
            r.connected_helpers == 0,
            r.internet_state is Offline,
            r.tick == 0,
            r.is_utf8 == is_utf8,
            r.color_mode == color_mode,
            r.title@ == title@,
    {
        StatusBarState {
            code: WormholeCodeState::NoCode,
            role,
            connected_helpers: 0,
            internet_state: InternetState::Offline,
            tick: 0,
            is_utf8,
            color_mode,
            title,
        }
    }

    /// Shows another code, or why there is none.
    pub fn set_code_state(&mut self, code: WormholeCodeState)
        ensures
            *final(self) == (StatusBarState { code, ..*old(self) }),
    {
        self.code = code;
    }

    /// One helper more is connected.
    pub fn inc_connected(&mut self)
        ensures
            *final(self) == (StatusBarState {
                connected_helpers: more_helpers(old(self).connected_helpers),
                ..*old(self)
            }),
    {
        if self.connected_helpers < u8::MAX {
            self.connected_helpers = self.connected_helpers + 1;
        }
    }

    /// One helper less is connected.
    pub fn dec_connected(&mut self)
        ensures
            *final(self) == (StatusBarState {
                connected_helpers: fewer_helpers(old(self).connected_helpers),
                ..*old(self)
            }),
    {
        if self.connected_helpers > 0 {
            self.connected_helpers = self.connected_helpers - 1;
        }
    }

    /// So many helpers are connected.
    pub fn set_connected(&mut self, n: u8)
        ensures
            *final(self) == (StatusBarState { connected_helpers: n, ..*old(self) }),
    {
        self.connected_helpers = n;
    }

    /// How many helpers are connected.
    pub fn get_connected(&self) -> (r: u8)
        ensures
            r == self.connected_helpers,
    {
        self.connected_helpers
    }

    /// No relay can be reached.
    pub fn offline(&mut self)
        ensures
            *final(self) == (StatusBarState {
                internet_state: InternetState::Offline,
                ..*old(self)
            }),
    {
        self.internet_state = InternetState::Offline;
    }

    /// A relay answers after the given time.
    pub fn online(&mut self, ping: Duration)
        ensures
            *final(self) == (StatusBarState {
                internet_state: InternetState::Online(ping),
                ..*old(self)
            }),
    {
        self.internet_state = InternetState::Online(ping);
    }

    /// Moves the bar on by one character, where it does not fit. After the largest number comes zero.
    pub fn advance_tick(&mut self)
        ensures
            *final(self) == (StatusBarState { tick: next_tick(old(self).tick), ..*old(self) }),
    {
        self.tick = if self.tick == usize::MAX {
            0
        } else {
            self.tick + 1
        };
    }

    fn glyphs(&self) -> (r: Vec<Glyph>)
        ensures
            r@ == self.content(),
    {
        let mut out: Vec<Glyph> = Vec::new();
        let code: String = self.code.to_text();
        let code_emphasis: Emphasis = match self.code {
            WormholeCodeState::Code(_) => Emphasis::Bold,
            _ => Emphasis::Normal,
        };
        push_styled(&mut out, chars_of(code.as_str()).as_slice(), Paint::White, code_emphasis);
        assert(out@ =~= self.code_part());
        push_plain(&mut out, " ║ ");
        push_plain(&mut out, self.title.as_str());
        push_plain(&mut out, " ║ ");
        push_plain(&mut out, self.role.name());
        push_plain(&mut out, " ║ ");
        let mut helpers: Vec<char> = decimal_chars(self.connected_helpers as u128);
        let mut connected: Vec<char> = chars_of(" Connected");
        helpers.append(&mut connected);
        let helpers_fg: Paint = if self.connected_helpers > 0 {
            Paint::Green
        } else {
            match self.color_mode {
                ColorSupport::TrueColor | ColorSupport::Ansi256 => Paint::DarkGrey,
                ColorSupport::Basic => Paint::Grey,
            }
        };
        push_styled(&mut out, helpers.as_slice(), helpers_fg, Emphasis::Normal);
        push_plain(&mut out, " ║ ");
        match &self.internet_state {
            InternetState::Online(ping) => {
                let mut net: Vec<char> = if self.is_utf8 {
                    chars_of("●")
                } else {
                    chars_of("*")
                };
                let mut online: Vec<char> = chars_of(" Online (");
                let mut millis: Vec<char> = decimal_chars(ping.as_millis());
                let mut unit: Vec<char> = chars_of(" ms)");
                net.append(&mut online);
                net.append(&mut millis);
                net.append(&mut unit);
                push_styled(&mut out, net.as_slice(), Paint::Green, Emphasis::Normal);
            },
            InternetState::Offline => {
                push_styled(
                    &mut out,
                    chars_of("x Offline").as_slice(),
                    Paint::Red,
                    Emphasis::Normal,
                );
            },
        }
        push_plain(&mut out, " ║ CTRL+] to exit");
        out
    }

    /// Draws the bar with the given colour codes.
    pub fn render_with(&self, buf: &mut BytesMut, cols: u16, codes: &ColorCodes)
        ensures
            buffered(*final(buf)) == buffered(*old(buf)) + self.drawn(cols, *codes),
    {
        let glyphs: Vec<Glyph> = visible(self.glyphs(), cols, self.tick);
        let ghost start = buffered(*buf);
        buf.extend_from_slice(move_to(0, 0).as_slice());
        buf.extend_from_slice(codes.bar.as_slice());
        push_painted(buf, &glyphs, codes);
        buf.extend_from_slice(reset_color().as_slice());
        buf.extend_from_slice(set_attribute(Emphasis::Reset).as_slice());
        assert(buffered(*buf) =~= start + self.drawn(cols, *codes));
    }

    /// Draws the bar across a terminal of the given width.
    pub fn render_to(&self, buf: &mut BytesMut, cols: u16)
        ensures
            exists|codes: ColorCodes| #[trigger]
                codes.wf(self.color_mode) && buffered(*final(buf)) == buffered(*old(buf))
                    + self.drawn(cols, codes),
    {
        let codes: ColorCodes = ColorCodes::new(self.color_mode);
        self.render_with(buf, cols, &codes);
    }
}

fn push_styled(out: &mut Vec<Glyph>, text: &[char], fg: Paint, emphasis: Emphasis)
    ensures
        final(out)@ == old(out)@ + styled(text@, fg, emphasis),
{
    let n: usize = text.len();
    let mut i: usize = 0;
    proof {
        assert(styled(text@.take(0), fg, emphasis) =~= Seq::<Glyph>::empty());
        assert(out@ =~= old(out)@ + styled(text@.take(0), fg, emphasis));
    }
    while i < n
        invariant
            i <= n,
            n == text@.len(),
            out@ == old(out)@ + styled(text@.take(i as int), fg, emphasis),
        decreases n - i,
    {
        out.push(Glyph { c: text[i], fg, emphasis });
        i += 1;
        proof {
            let t = text@.take(i as int);
            assert(styled(t, fg, emphasis) =~= styled(text@.take(i - 1), fg, emphasis).push(
                glyph(text@[i - 1], fg, emphasis),
            ));
            assert(out@ =~= old(out)@ + styled(t, fg, emphasis));
        }
    }
    assert(text@.take(n as int) =~= text@);
}

fn push_plain(out: &mut Vec<Glyph>, text: &str)
    ensures
        final(out)@ == old(out)@ + plain(text@),
{
    push_styled(out, chars_of(text).as_slice(), Paint::White, Emphasis::Normal);
}

/// The part of the bar that is seen.
fn visible(bar: Vec<Glyph>, cols: u16, tick: usize) -> (r: Vec<Glyph>)
    ensures
        r@ == window(bar@, cols as nat, tick as nat),
{
    let width: usize = cols as usize;
    let mut ring: Vec<Glyph> = bar;
    if ring.len() <= width {
        let len: usize = ring.len();
        while ring.len() < width
            invariant
                bar@.len() == len,
                len <= ring@.len() <= width,
                ring@ == bar@ + blanks((ring@.len() - len) as nat),
            decreases width - ring@.len(),
        {
            ring.push(Glyph { c: ' ', fg: Paint::White, emphasis: Emphasis::Normal });
            assert(ring@ =~= bar@ + blanks((ring@.len() - len) as nat));
        }
        return ring;
    }
    push_plain(&mut ring, "   ***   ");
    let len: usize = ring.len();
    let offset: usize = tick % len;
    let mut out: Vec<Glyph> = Vec::new();
    let mut i: usize = 0;
    let mut at: usize = offset;
    proof {
        vstd::arithmetic::div_mod::lemma_small_mod(offset as nat, len as nat);
    }
    while i < width
        invariant
            i <= width,
            len == ring@.len(),
            len > 0,
            at < len,
            at == (offset + i) % len as int,
            out@.len() == i,
            forall|j: int| 0 <= j < i ==> out@[j] == ring@[(offset + j) % len as int],
        decreases width - i,
    {
        out.push(ring[at]);
        proof {
            lemma_next_on_ring((offset + i) as int, len as int);
        }
        at = if at + 1 == len {
            0
        } else {
            at + 1
        };
        i += 1;
    }
    assert(out@ =~= window(bar@, cols as nat, tick as nat));
    out
}

proof fn lemma_next_on_ring(a: int, len: int)
    requires
        a >= 0,
        len > 0,
    ensures
        (a + 1) % len == (if a % len + 1 == len {
            0
        } else {
            a % len + 1
        }),
{
    vstd::arithmetic::div_mod::lemma_fundamental_div_mod(a, len);
    let q = a / len;
    let r = a % len;
    if r + 1 == len {
        assert(a + 1 == (q + 1) * len) by (nonlinear_arith)
            requires
                a == len * q + r,
                r + 1 == len,
        ;
        vstd::arithmetic::div_mod::lemma_fundamental_div_mod_converse(a + 1, len, q + 1, 0);
    } else {
        assert(a + 1 == q * len + (r + 1)) by (nonlinear_arith)
            requires
                a == len * q + r,
        ;
        vstd::arithmetic::div_mod::lemma_fundamental_div_mod_converse(a + 1, len, q, r + 1);
    }
}

fn push_painted(buf: &mut BytesMut, glyphs: &Vec<Glyph>, codes: &ColorCodes)
    ensures
        buffered(*final(buf)) == buffered(*old(buf)) + painted(glyphs@, *codes),
{
    let n: usize = glyphs.len();
    let mut i: usize = 0;
    proof {
        assert(glyphs@.take(0) =~= Seq::<Glyph>::empty());
        assert(buffered(*buf) =~= buffered(*old(buf)) + painted(glyphs@.take(0), *codes));
    }
    while i < n
        invariant
            i <= n,
            n == glyphs@.len(),
            buffered(*buf) == buffered(*old(buf)) + painted(glyphs@.take(i as int), *codes),
        decreases n - i,
    {
        let g: Glyph = glyphs[i];
        if !(i > 0 && glyphs[i - 1].fg == g.fg && glyphs[i - 1].emphasis == g.emphasis) {
            buf.extend_from_slice(codes.foreground(g.fg).as_slice());
            buf.extend_from_slice(set_attribute(g.emphasis).as_slice());
        }
        buf.extend_from_slice(utf8_bytes(g.c).as_slice());
        i += 1;
        proof {
            let t = glyphs@.take(i as int);
            assert(t.drop_last() =~= glyphs@.take(i - 1));
            assert(t.last() == g);
            if i >= 2 {
                assert(t[t.len() - 2] == glyphs@[i - 2]);
            }
            assert(buffered(*buf) =~= buffered(*old(buf)) + painted(t, *codes));
        }
    }
    assert(glyphs@.take(n as int) =~= glyphs@);
}

/// The bar is exactly as wide as the terminal, whatever it says.
pub proof fn lemma_bar_fills_the_row(bar: Seq<Glyph>, width: nat, tick: nat)
    ensures
        window(bar, width, tick).len() == width,
{
}

/// A bar that fits shows all it says, and does not move.
pub proof fn lemma_bar_that_fits_stands_still(bar: Seq<Glyph>, width: nat, t1: nat, t2: nat)
    requires
        bar.len() <= width,
    ensures
        window(bar, width, t1) == window(bar, width, t2),
        bar.is_prefix_of(window(bar, width, t1)),
{
    assert(window(bar, width, t1).take(bar.len() as int) =~= bar);
}

/// A bar that does not fit moves by one character with each tick.
pub proof fn lemma_bar_moves_by_one(bar: Seq<Glyph>, width: nat, tick: nat, i: int)
    requires
        bar.len() > width,
        0 <= i,
        i + 1 < width,
    ensures
        window(bar, width, tick + 1)[i] == window(bar, width, tick)[i + 1],
{
    let n = (bar + plain("   ***   "@)).len() as int;
    let t = tick as int;
    vstd::arithmetic::div_mod::lemma_add_mod_noop_right(i, t + 1, n);
    vstd::arithmetic::div_mod::lemma_add_mod_noop_right(i + 1, t, n);
    assert((t + 1) % n + i == i + (t + 1) % n);
    assert(t % n + (i + 1) == (i + 1) + t % n);
    assert(i + (t + 1) == (i + 1) + t);
}

/// A bar that does not fit is back where it was once it has gone all the way round.
pub proof fn lemma_bar_comes_round(bar: Seq<Glyph>, width: nat, tick: nat)
    requires
        bar.len() > width,
    ensures
        window(bar, width, tick + (bar + plain("   ***   "@)).len()) == window(bar, width, tick),
{
    let n = (bar + plain("   ***   "@)).len() as int;
    vstd::arithmetic::div_mod::lemma_mod_add_multiples_vanish(tick as int, n);
    assert(window(bar, width, tick + n as nat) =~= window(bar, width, tick));
}

/// A helper that comes and leaves again leaves the number as it was, unless it could not be counted
/// any further.
pub proof fn lemma_helper_comes_and_leaves(n: u8)
    requires
        n < u8::MAX,
    ensures
        fewer_helpers(more_helpers(n)) == n,
{
}

/// The characters of glyphs, without colours and attributes.
pub open spec fn letters(glyphs: Seq<Glyph>) -> Seq<char> {
    glyphs.map_values(|g: Glyph| g.c)
}

/// The number of helpers in the bar is the number of helpers: the part about them is digits that read
/// as the number, and then the word.
pub proof fn lemma_bar_counts_the_helpers(s: StatusBarState)
    ensures
        ({
            let text = letters(s.helpers_part());
            let digits = text.take(text.len() - 10);
            &&& text.len() > 10
            &&& text.skip(text.len() - 10) == " Connected"@
            &&& number_read(ascii(digits)) == s.connected_helpers
            &&& forall|i: int| 0 <= i < digits.len() ==> '0' <= #[trigger] digits[i] <= '9'
        }),
{
    let text = letters(s.helpers_part());
    let n = s.connected_helpers as nat;
    reveal_strlit(" Connected");
    assert(text =~= decimal_text(n) + " Connected"@);
    lemma_decimal_text_reads_back(n);
    assert(text.take(text.len() - 10) =~= decimal_text(n));
    assert(text.skip(text.len() - 10) =~= " Connected"@);
}

/// All that the bar says, in order: the code or why there is none, the title, the role, how many
/// helpers are connected, whether the relays can be reached and how fast, and how to leave.
pub proof fn lemma_bar_says_it_all(s: StatusBarState)
    ensures
        letters(s.content()) == (match s.code {
            WormholeCodeState::Generating => "Generating..."@,
            WormholeCodeState::NoCode => "No code"@,
            WormholeCodeState::Code(code) => code@,
        }) + " ║ "@ + s.title@ + " ║ "@ + (match s.role {
            Role::Victim => "Victim"@,
            Role::Helper => "Helper"@,
        }) + " ║ "@ + letters(s.helpers_part()) + " ║ "@ + (match s.internet_state {
            InternetState::Online(ping) => (if s.is_utf8 {
                "●"@
            } else {
                "*"@
            }) + " Online ("@ + decimal_text(nanos(ping) / 1_000_000) + " ms)"@,
            InternetState::Offline => "x Offline"@,
        }) + " ║ CTRL+] to exit"@,
{
    assert(letters(s.content()) =~= letters(s.code_part()) + letters(plain(" ║ "@)) + letters(
        plain(s.title@),
    ) + letters(plain(" ║ "@)) + letters(plain(s.role.text())) + letters(plain(" ║ "@)) + letters(
        s.helpers_part(),
    ) + letters(plain(" ║ "@)) + letters(s.internet_part()) + letters(
        plain(" ║ CTRL+] to exit"@),
    ));
    lemma_letters_of_styled(s.code.text(), Paint::White, Emphasis::Bold);
    lemma_letters_of_styled(s.code.text(), Paint::White, Emphasis::Normal);
    lemma_letters_of_styled(" ║ "@, Paint::White, Emphasis::Normal);
    lemma_letters_of_styled(s.title@, Paint::White, Emphasis::Normal);
    lemma_letters_of_styled(s.role.text(), Paint::White, Emphasis::Normal);
    lemma_letters_of_styled(" ║ CTRL+] to exit"@, Paint::White, Emphasis::Normal);
    match s.internet_state {
        InternetState::Online(ping) => {
            assert(letters(s.internet_part()) =~= (if s.is_utf8 {
                "●"@
            } else {
                "*"@
            }) + " Online ("@ + decimal_text(nanos(ping) / 1_000_000) + " ms)"@);
        },
        InternetState::Offline => {
            assert(letters(s.internet_part()) =~= "x Offline"@);
        },
    }
}

proof fn lemma_letters_of_styled(text: Seq<char>, fg: Paint, emphasis: Emphasis)
    ensures
        letters(styled(text, fg, emphasis)) == text,
{
    assert(letters(styled(text, fg, emphasis)) =~= text);
}

/// Bars that say the same but for the number of helpers differ.
pub proof fn lemma_bars_of_different_numbers_differ(a: StatusBarState, b: StatusBarState)
    requires
        a.connected_helpers != b.connected_helpers,
        a.code == b.code,
        a.title == b.title,
        a.role == b.role,
        a.internet_state == b.internet_state,
        a.is_utf8 == b.is_utf8,
    ensures
        letters(a.content()) != letters(b.content()),
        a.content() != b.content(),
{
    lemma_bar_counts_the_helpers(a);
    lemma_bar_counts_the_helpers(b);
    lemma_helpers_in_the_middle(a);
    lemma_helpers_in_the_middle(b);
    let ha = letters(a.helpers_part());
    let hb = letters(b.helpers_part());
    assert(ha != hb);
    lemma_middle_shows(bar_head(a), ha, hb, bar_tail(a));
}

/// What the bar says before the number of helpers.
spec fn bar_head(s: StatusBarState) -> Seq<char> {
    s.code.text() + " ║ "@ + s.title@ + " ║ "@ + s.role.text() + " ║ "@
}

/// What the bar says after the number of helpers.
spec fn bar_tail(s: StatusBarState) -> Seq<char> {
    " ║ "@ + letters(s.internet_part()) + " ║ CTRL+] to exit"@
}

proof fn lemma_helpers_in_the_middle(s: StatusBarState)
    ensures
        letters(s.content()) == bar_head(s) + letters(s.helpers_part()) + bar_tail(s),
{
    lemma_letters_of_styled(s.code.text(), Paint::White, Emphasis::Bold);
    lemma_letters_of_styled(s.code.text(), Paint::White, Emphasis::Normal);
    lemma_letters_of_styled(" ║ "@, Paint::White, Emphasis::Normal);
    lemma_letters_of_styled(s.title@, Paint::White, Emphasis::Normal);
    lemma_letters_of_styled(s.role.text(), Paint::White, Emphasis::Normal);
    lemma_letters_of_styled(" ║ CTRL+] to exit"@, Paint::White, Emphasis::Normal);
    assert(letters(s.content()) =~= letters(s.code_part()) + letters(plain(" ║ "@)) + letters(
        plain(s.title@),
    ) + letters(plain(" ║ "@)) + letters(plain(s.role.text())) + letters(plain(" ║ "@)) + letters(
        s.helpers_part(),
    ) + letters(plain(" ║ "@)) + letters(s.internet_part()) + letters(
        plain(" ║ CTRL+] to exit"@),
    ));
    assert(letters(s.content()) =~= bar_head(s) + letters(s.helpers_part()) + bar_tail(s));
}

proof fn lemma_middle_shows(head: Seq<char>, x: Seq<char>, y: Seq<char>, tail: Seq<char>)
    requires
        x != y,
    ensures
        head + x + tail != head + y + tail,
{
    let a = head + x + tail;
    let b = head + y + tail;
    if a == b {
        let n = head.len() as int;
        assert(a.len() == head.len() + x.len() + tail.len());
        assert(b.len() == head.len() + y.len() + tail.len());
        assert(x =~= a.subrange(n, n + x.len()));
        assert(y =~= b.subrange(n, n + y.len()));
    }
}

/// What stands out in the bar: the code is bold and nothing else is. The number of helpers is green
/// if there are some and grey otherwise, the state of the relays is green or red, and all the rest is
/// white.
pub proof fn lemma_bar_colours(s: StatusBarState, i: int)
    requires
        0 <= i < s.content().len(),
    ensures
        ({
            let code = s.code.text().len();
            let helpers = code + s.title@.len() + 15;
            let net = helpers + s.helpers_part().len() + 3;
            let end = net + s.internet_part().len();
            let g = s.content()[i];
            &&& g.emphasis == (if s.code is Code && i < code {
                Emphasis::Bold
            } else {
                Emphasis::Normal
            })
            &&& g.fg == (if helpers <= i < net - 3 {
                if s.connected_helpers > 0 {
                    Paint::Green
                } else if s.color_mode == ColorSupport::Basic {
                    Paint::Grey
                } else {
                    Paint::DarkGrey
                }
            } else if net <= i < end {
                if s.internet_state is Online {
                    Paint::Green
                } else {
                    Paint::Red
                }
            } else {
                Paint::White
            })
        }),
{
    reveal_strlit(" ║ ");
    reveal_strlit("Victim");
    reveal_strlit("Helper");
    reveal_strlit(" ║ CTRL+] to exit");
    let a = s.code_part();
    let b = plain(" ║ "@) + plain(s.title@) + plain(" ║ "@) + plain(s.role.text()) + plain(
        " ║ "@,
    );
    let c = s.helpers_part();
    let d = s.internet_part();
    let e = plain(" ║ CTRL+] to exit"@);
    lemma_plain_is_white(
        b,
        " ║ "@ + s.title@ + " ║ "@ + s.role.text() + " ║ "@,
    );
    assert(b =~= plain(" ║ "@ + s.title@ + " ║ "@ + s.role.text() + " ║ "@));
    assert(s.content() =~= a + b + c + plain(" ║ "@) + d + e);
    assert(b.len() == s.title@.len() + 15);
}

proof fn lemma_plain_is_white(glyphs: Seq<Glyph>, text: Seq<char>)
    requires
        glyphs =~= plain(text),
    ensures
        forall|i: int|
            0 <= i < glyphs.len() ==> (#[trigger] glyphs[i]).fg == Paint::White && glyphs[i].emphasis
                == Emphasis::Normal,
{
}

/// What a bar shows at each place. Where it fits, the place has its own character, or a white blank
/// after the last one. Where it does not, bar and stars go round without end, and after so many ticks
/// the bar begins at the character of that number.
pub proof fn lemma_bar_goes_round(bar: Seq<Glyph>, width: nat, tick: nat, i: int)
    requires
        0 <= i < width,
    ensures
        i < bar.len() <= width ==> window(bar, width, tick)[i] == bar[i],
        bar.len() <= i ==> window(bar, width, tick)[i] == (Glyph {
            c: ' ',
            fg: Paint::White,
            emphasis: Emphasis::Normal,
        }),
        width < bar.len() ==> {
            let k = (tick + i) % (bar.len() as int + 9);
            if k < bar.len() {
                window(bar, width, tick)[i] == bar[k]
            } else {
                window(bar, width, tick)[i] == (Glyph {
                    c: "   ***   "@[k - bar.len()],
                    fg: Paint::White,
                    emphasis: Emphasis::Normal,
                })
            }
        },
{
    reveal_strlit("   ***   ");
    let stars = plain("   ***   "@);
    assert(stars.len() == 9);
    if width < bar.len() {
        let n = (bar + stars).len() as int;
        assert(n == bar.len() + 9);
        vstd::arithmetic::div_mod::lemma_add_mod_noop_right(i, tick as int, n);
        assert(tick as int % n + i == i + tick as int % n);
        assert((tick as int % n + i) % n == (tick + i) % n);
    }
}

/// Each glyph is drawn once, in order, in its own colour and with its own attribute: the codes for
/// these are written before it unless the glyph just before has the same.
pub proof fn lemma_every_glyph_is_painted(glyphs: Seq<Glyph>, codes: ColorCodes)
    ensures
        painted(glyphs, codes) == Seq::new(
            glyphs.len(),
            |i: int|
                (if i > 0 && glyphs[i - 1].fg == glyphs[i].fg && glyphs[i - 1].emphasis
                    == glyphs[i].emphasis {
                    Seq::<u8>::empty()
                } else {
                    codes.fg(glyphs[i].fg) + emphasis_code(glyphs[i].emphasis)
                }) + utf8_char(glyphs[i].c),
        ).flatten(),
    decreases glyphs.len(),
{
    let pieces = Seq::new(
        glyphs.len(),
        |i: int|
            (if i > 0 && glyphs[i - 1].fg == glyphs[i].fg && glyphs[i - 1].emphasis
                == glyphs[i].emphasis {
                Seq::<u8>::empty()
            } else {
                codes.fg(glyphs[i].fg) + emphasis_code(glyphs[i].emphasis)
            }) + utf8_char(glyphs[i].c),
    );
    if glyphs.len() == 0 {
        assert(pieces.flatten() =~= Seq::<u8>::empty());
    } else {
        let init = glyphs.drop_last();
        lemma_every_glyph_is_painted(init, codes);
        assert(pieces.drop_last() =~= Seq::new(
            init.len(),
            |i: int|
                (if i > 0 && init[i - 1].fg == init[i].fg && init[i - 1].emphasis
                    == init[i].emphasis {
                    Seq::<u8>::empty()
                } else {
                    codes.fg(init[i].fg) + emphasis_code(init[i].emphasis)
                }) + utf8_char(init[i].c),
        ));
        lemma_joined_at_end(pieces);
        assert(painted(glyphs, codes) =~= painted(init, codes) + pieces.last());
    }
}

/// Each colour of the text has a code of its own, which is that colour, or none where colours are
/// off.
pub proof fn lemma_text_colours(codes: ColorCodes, colors: ColorSupport, p: Paint)
    requires
        codes.wf(colors),
        p is White || p is Grey || p is DarkGrey || p is Green || p is Red,
    ensures
        codes.fg(p) == foreground_code(p, true) || codes.fg(p) == foreground_code(p, false),
        codes.bar@ == background_code(
            if colors == ColorSupport::Basic {
                Paint::DarkBlue
            } else {
                Paint::Palette(17)
            },
            true,
        ) || codes.bar@ == background_code(
            if colors == ColorSupport::Basic {
                Paint::DarkBlue
            } else {
                Paint::Palette(17)
            },
            false,
        ),
{
}

/// The bar is drawn from the upper left corner on its background, and leaves no colour behind.
pub proof fn lemma_bar_is_drawn_on_top(s: StatusBarState, cols: u16, codes: ColorCodes)
    ensures
        ({
            let start = move_code(0, 0) + codes.bar@;
            let stop = reset_code() + emphasis_code(Emphasis::Reset);
            let d = s.drawn(cols, codes);
            &&& d.len() >= start.len() + stop.len()
            &&& d.take(start.len() as int) == start
            &&& d.skip(d.len() - stop.len()) == stop
            &&& d.subrange(start.len() as int, d.len() - stop.len()) == painted(
                window(s.content(), cols as nat, s.tick as nat),
                codes,
            )
        }),
{
    let start = move_code(0, 0) + codes.bar@;
    let stop = reset_code() + emphasis_code(Emphasis::Reset);
    let middle = painted(window(s.content(), cols as nat, s.tick as nat), codes);
    let d = s.drawn(cols, codes);
    assert(d =~= start + middle + stop);
    assert(d.take(start.len() as int) =~= start);
    assert(d.skip(d.len() - stop.len()) =~= stop);
    assert(d.subrange(start.len() as int, d.len() - stop.len()) =~= middle);
}

/// Each helper that comes is counted, up to 255, and each one that leaves is counted off, down to
/// none. Each tick is one more, and the largest is followed by zero.
pub proof fn lemma_helpers_are_counted(n: u8, tick: usize)
    ensures
        n < 255 ==> more_helpers(n) == n + 1,
        more_helpers(255) == 255,
        n > 0 ==> fewer_helpers(n) == n - 1,
        fewer_helpers(0) == 0,
        tick < usize::MAX ==> next_tick(tick) == tick + 1,
        next_tick(usize::MAX) == 0,
{
}

/// The bar says of the relays what their state is called, with a sign before it; and the time in which
/// the relay answers is its whole milliseconds.
pub proof fn lemma_bar_tells_the_state_of_the_relays(s: StatusBarState, ping: Duration)
    ensures
        letters(s.internet_part()) == (if s.internet_state is Offline {
            "x"@
        } else if s.is_utf8 {
            "●"@
        } else {
            "*"@
        }) + " "@ + s.internet_state.text(),
        ({
            let text = InternetState::Online(ping).text();
            let digits = text.subrange(8, text.len() - 4);
            &&& text.len() > 12
            &&& text.take(8) == "Online ("@
            &&& text.skip(text.len() - 4) == " ms)"@
            &&& number_read(ascii(digits)) * 1_000_000 <= nanos(ping)
            &&& nanos(ping) < (number_read(ascii(digits)) + 1) * 1_000_000
        }),
{
    reveal_strlit("x");
    reveal_strlit(" ");
    reveal_strlit("x Offline");
    reveal_strlit("Offline");
    reveal_strlit("Online (");
    reveal_strlit(" Online (");
    reveal_strlit(" ms)");
    let text = InternetState::Online(ping).text();
    lemma_decimal_text_reads_back(nanos(ping) / 1_000_000);
    assert(text.take(8) =~= "Online ("@);
    assert(text.skip(text.len() - 4) =~= " ms)"@);
    assert(text.subrange(8, text.len() - 4) =~= millis_text(ping));
    let part = letters(s.internet_part());
    match s.internet_state {
        InternetState::Online(d) => {
            let sign = if s.is_utf8 {
                "●"@
            } else {
                "*"@
            };
            assert(part =~= sign + " Online ("@ + millis_text(d) + " ms)"@);
            assert(" Online ("@ =~= " "@ + "Online ("@);
            assert(part =~= sign + " "@ + s.internet_state.text());
        },
        InternetState::Offline => {
            assert(part =~= "x Offline"@);
            assert("x Offline"@ =~= "x"@ + " "@ + "Offline"@);
        },
    }
}

} // verus!
