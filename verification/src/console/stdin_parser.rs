//! Keyboard input sorted by a key table.
//!
//! Input is forwarded as it is unless a sequence has to be rewritten, handled locally or filtered, so
//! unknown keys reach the program. A burst of input is read on its own: nothing is remembered from
//! one burst to the next.
use crate::ascii::{
    BACKSLASH, BEL, DETACH, ESC, LEFT_BRACKET, LESS_THAN, LETTER_O, QUESTION_MARK, RIGHT_BRACKET,
    SEMICOLON,
};
use crate::buffer::{buffered, frozen, has_prefix};
use crate::console::stdin::{
    lemma_mouse_report_reads_back, mouse_effect, mouse_report, no_outcome, numbers_read, Effect,
    KeyMode, LocalEvent, Outcome,
};
use crate::text::{
    decimal_bytes, lemma_ascii_char, lemma_first_part, lemma_last_part, number_read, parts, utf8_bytes,
    utf8_char,
};
use crate::time::nanos;
use bytes::{Bytes, BytesMut};
use std::time::Duration;
use vstd::prelude::*;

verus! {

/// Milliseconds of silence after which an escape no longer can begin a sequence.
pub const ESC_QUIET_PERIOD: u64 = 50;

/// Row of the local terminal on which the remote screen begins; the status bar is above.
pub const ROW_OFFSET: u16 = 1;

/// What is done with a key.
pub enum Action {
    /// The bytes are forwarded as they are.
    Forward,
    /// The key is spelled as the remote program expects cursor keys.
    Cursor { normal: Vec<u8>, app: Vec<u8> },
    /// The local view is scrolled by so many pages, unless the remote program has taken over the
    /// screen: then the bytes are forwarded.
    ScrollPage(i32),
    /// The same by lines.
    ScrollLines(i32),
    /// An answer of the terminal, which is no key.
    Swallow,
}

/// The mathematical value of an [`Action`].
pub ghost enum KeyAction {
    Forward,
    Cursor { normal: Seq<u8>, app: Seq<u8> },
    ScrollPage(i32),
    ScrollLines(i32),
    Swallow,
}

impl View for Action {
    type V = KeyAction;

    open spec fn view(&self) -> KeyAction {
        match *self {
            Action::Forward => KeyAction::Forward,
            Action::Cursor { normal, app } => KeyAction::Cursor { normal: normal@, app: app@ },
            Action::ScrollPage(n) => KeyAction::ScrollPage(n),
            Action::ScrollLines(n) => KeyAction::ScrollLines(n),
            Action::Swallow => KeyAction::Swallow,
        }
    }
}

/// A key: how it is spelled and what is done with it.
pub struct KeyRow {
    pub pattern: Vec<u8>,
    pub action: Action,
}

/// The mathematical value of a [`KeyRow`].
pub ghost struct Key {
    pub pattern: Seq<u8>,
    pub action: KeyAction,
}

impl View for KeyRow {
    type V = Key;

    open spec fn view(&self) -> Key {
        Key { pattern: self.pattern@, action: self.action@ }
    }
}

/// The mathematical values of a list of keys.
pub open spec fn keys(rows: Seq<KeyRow>) -> Seq<Key> {
    rows.map_values(|r: KeyRow| r@)
}

/// A control sequence without parameters.
pub open spec fn csi_key(c: u8) -> Seq<u8> {
    seq![ESC, LEFT_BRACKET, c]
}

/// A key as terminals spell it in application mode.
pub open spec fn ss3_key(c: u8) -> Seq<u8> {
    seq![ESC, LETTER_O, c]
}

/// A numbered key.
pub open spec fn tilde_key(d: u8) -> Seq<u8> {
    seq![ESC, LEFT_BRACKET, d, 0x7e]
}

/// A numbered key together with another.
pub open spec fn modified_key(d: u8, modifier: u8, last: u8) -> Seq<u8> {
    seq![ESC, LEFT_BRACKET, d, SEMICOLON, modifier, last]
}

/// A cursor key with its two spellings.
pub open spec fn cursor_row(pattern: Seq<u8>, normal: Seq<u8>, app: Seq<u8>) -> Key {
    Key { pattern, action: KeyAction::Cursor { normal, app } }
}

/// The keys that are not simply forwarded.
///
/// Cursor keys come in the normal and in the application spelling, and are rewritten to what the
/// program expects. Home and End also have the spellings of older terminals. Page keys, alone or
/// with Shift, and Control with an arrow scroll.
#[verifier::opaque]
pub open spec fn key_table() -> Seq<Key> {
    seq![
        cursor_row(csi_key(0x41), csi_key(0x41), ss3_key(0x41)),
        cursor_row(csi_key(0x42), csi_key(0x42), ss3_key(0x42)),
        cursor_row(csi_key(0x43), csi_key(0x43), ss3_key(0x43)),
        cursor_row(csi_key(0x44), csi_key(0x44), ss3_key(0x44)),
        cursor_row(csi_key(0x48), csi_key(0x48), ss3_key(0x48)),
        cursor_row(csi_key(0x46), csi_key(0x46), ss3_key(0x46)),
        cursor_row(ss3_key(0x41), csi_key(0x41), ss3_key(0x41)),
        cursor_row(ss3_key(0x42), csi_key(0x42), ss3_key(0x42)),
        cursor_row(ss3_key(0x43), csi_key(0x43), ss3_key(0x43)),
        cursor_row(ss3_key(0x44), csi_key(0x44), ss3_key(0x44)),
        cursor_row(ss3_key(0x48), csi_key(0x48), ss3_key(0x48)),
        cursor_row(ss3_key(0x46), csi_key(0x46), ss3_key(0x46)),
        cursor_row(tilde_key(0x31), tilde_key(0x31), ss3_key(0x48)),
        cursor_row(tilde_key(0x37), tilde_key(0x37), ss3_key(0x48)),
        cursor_row(tilde_key(0x34), tilde_key(0x34), ss3_key(0x46)),
        cursor_row(tilde_key(0x38), tilde_key(0x38), ss3_key(0x46)),
        Key { pattern: tilde_key(0x32), action: KeyAction::Forward },
        Key { pattern: tilde_key(0x33), action: KeyAction::Forward },
        Key { pattern: tilde_key(0x35), action: KeyAction::ScrollPage(1) },
        Key { pattern: modified_key(0x35, 0x32, 0x7e), action: KeyAction::ScrollPage(1) },
        Key { pattern: tilde_key(0x36), action: KeyAction::ScrollPage(-1i32) },
        Key { pattern: modified_key(0x36, 0x32, 0x7e), action: KeyAction::ScrollPage(-1i32) },
        Key { pattern: modified_key(0x31, 0x35, 0x41), action: KeyAction::ScrollLines(1) },
        Key { pattern: modified_key(0x31, 0x35, 0x42), action: KeyAction::ScrollLines(-1i32) },
        Key { pattern: seq![ESC, LEFT_BRACKET, 0x30, 0x6e], action: KeyAction::Swallow },
    ]
}

/// The longest key of a table that `s` begins with, the last one if there are several.
pub open spec fn longest_key(table: Seq<Key>, s: Seq<u8>) -> Option<Key>
    decreases table.len(),
{
    if table.len() == 0 {
        None
    } else {
        let key = table.last();
        let best = longest_key(table.drop_last(), s);
        if key.pattern.is_prefix_of(s) && (best is None || best->Some_0.pattern.len()
            <= key.pattern.len()) {
            Some(key)
        } else {
            best
        }
    }
}

/// What a key of the table leads to.
pub open spec fn key_effect(mode: KeyMode, action: KeyAction, matched: Seq<u8>) -> Effect {
    match action {
        KeyAction::Forward => Effect::Send(matched),
        KeyAction::Swallow => Effect::Drop,
        KeyAction::Cursor { normal, app } => Effect::Send(
            if mode.app_cursor {
                app
            } else {
                normal
            },
        ),
        KeyAction::ScrollPage(n) => if mode.alt_screen {
            Effect::Send(matched)
        } else {
            Effect::Local(LocalEvent::Scroll((n * mode.page_size) as i32))
        },
        KeyAction::ScrollLines(n) => if mode.alt_screen {
            Effect::Send(matched)
        } else {
            Effect::Local(LocalEvent::Scroll(n))
        },
    }
}

/// Where the string that `s` begins ends, looking from position `i` on: after a string terminator,
/// or after a bell where that counts.
pub open spec fn string_end(s: Seq<u8>, i: int, bel_terminated: bool) -> Option<int>
    decreases s.len() - i,
{
    if i >= s.len() {
        None
    } else if s[i] == BEL && bel_terminated {
        Some(i + 1)
    } else if s[i] == ESC && i + 1 < s.len() && s[i + 1] == BACKSLASH {
        Some(i + 2)
    } else {
        string_end(s, i + 1, bel_terminated)
    }
}

/// The first position from `i` on that holds no parameter or intermediate byte of a control
/// sequence.
pub open spec fn params_end(s: Seq<u8>, i: int) -> int
    decreases s.len() - i,
{
    if i >= s.len() || !(0x20 <= s[i] <= 0x3f) {
        i
    } else {
        params_end(s, i + 1)
    }
}

/// Where the next semicolon is from position `i` on, the end if there is none.
pub open spec fn field_end(s: Seq<u8>, i: int) -> int
    decreases s.len() - i,
{
    if i >= s.len() || s[i] == SEMICOLON {
        i
    } else {
        field_end(s, i + 1)
    }
}

/// The number that a row of decimal digits stands for.
pub open spec fn digits_value(s: Seq<u8>) -> nat
    decreases s.len(),
{
    if s.len() == 0 {
        0
    } else {
        digits_value(s.drop_last()) * 10 + (s.last() - 0x30) as nat
    }
}

/// Whether there are only decimal digits.
pub open spec fn all_digits(s: Seq<u8>) -> bool {
    forall|i: int| 0 <= i < s.len() ==> 0x30 <= #[trigger] s[i] <= 0x39
}

/// A number of 32 bits in decimal: an optional plus sign, then one digit or more.
pub open spec fn number(s: Seq<u8>) -> Option<u32> {
    let digits = if s.len() > 0 && s[0] == 0x2b {
        s.skip(1)
    } else {
        s
    };
    if digits.len() > 0 && all_digits(digits) && digits_value(digits) <= u32::MAX {
        Some(digits_value(digits) as u32)
    } else {
        None
    }
}

/// The first three fields between semicolons as numbers: button, column and row.
pub open spec fn coords(s: Seq<u8>) -> Option<(u32, u32, u32)> {
    let e1 = field_end(s, 0);
    let e2 = field_end(s, e1 + 1);
    let e3 = field_end(s, e2 + 1);
    if e2 < s.len() && number(s.subrange(0, e1)) is Some && number(s.subrange(e1 + 1, e2)) is Some
        && number(s.subrange(e2 + 1, e3)) is Some {
        Some(
            (
                number(s.subrange(0, e1))->Some_0,
                number(s.subrange(e1 + 1, e2))->Some_0,
                number(s.subrange(e2 + 1, e3))->Some_0,
            ),
        )
    } else {
        None
    }
}

/// What a complete control sequence leads to: mouse reports are handled, answers of the terminal are
/// dropped, the rest is forwarded as it is.
pub open spec fn span_effect(mode: KeyMode, span: Seq<u8>) -> Effect {
    let params = span.subrange(2, span.len() - 1);
    let last = span.last();
    if (last == 0x4d || last == 0x6d) && params.len() > 0 && params[0] == LESS_THAN {
        match coords(params.skip(1)) {
            Some((btn, col, row)) => mouse_effect(
                mode,
                btn as nat,
                col as nat,
                row as nat,
                last as char,
            ),
            None => Effect::Send(span),
        }
    } else if last == 0x52 {
        Effect::Drop
    } else if last == 0x63 && params.len() > 0 && params[0] == QUESTION_MARK {
        Effect::Drop
    } else {
        Effect::Send(span)
    }
}

/// How many bytes a control sequence at the beginning of `s` takes, and what it leads to. One that
/// is broken off is forwarded as far as it goes.
pub open spec fn csi_step(mode: KeyMode, s: Seq<u8>) -> (int, Effect) {
    let i = params_end(s, 2);
    if i < s.len() && 0x40 <= s[i] <= 0x7e {
        (i + 1, span_effect(mode, s.take(i + 1)))
    } else {
        (i, Effect::Send(s.take(i)))
    }
}

/// How many bytes a string at the beginning of `s` takes: all, if it does not end.
pub open spec fn string_length(s: Seq<u8>, bel_terminated: bool) -> int {
    match string_end(s, 1, bel_terminated) {
        Some(n) => n,
        None => s.len() as int,
    }
}

/// Whether the byte after an escape begins a string that only a string terminator ends.
pub open spec fn begins_string(b: u8) -> bool {
    b == 0x50 || b == 0x58 || b == 0x5e || b == 0x5f
}

/// How many bytes the sequence at the beginning of `s` takes, which is an escape, and what it leads
/// to.
pub open spec fn escape_step(mode: KeyMode, s: Seq<u8>) -> (int, Effect) {
    match longest_key(key_table(), s) {
        Some(key) => {
            let n = key.pattern.len() as int;
            (n, key_effect(mode, key.action, s.take(n)))
        },
        None => if s.len() < 2 {
            (1, Effect::Send(s.take(1)))
        } else if s[1] == LEFT_BRACKET {
            csi_step(mode, s)
        } else if s[1] == RIGHT_BRACKET {
            (string_length(s, true), Effect::Send(s.take(string_length(s, true))))
        } else if begins_string(s[1]) {
            (string_length(s, false), Effect::Send(s.take(string_length(s, false))))
        } else if 0x20 <= s[1] <= 0x7e {
            (2, Effect::Send(s.take(2)))
        } else {
            (1, Effect::Send(s.take(1)))
        },
    }
}

/// How many bytes the first piece of a burst takes, and what it leads to.
pub open spec fn burst_step(mode: KeyMode, s: Seq<u8>) -> (int, Effect) {
    if s[0] == ESC {
        escape_step(mode, s)
    } else if s[0] == DETACH {
        (1, Effect::Local(LocalEvent::Detach))
    } else {
        (1, Effect::Send(s.take(1)))
    }
}

/// What a burst leads to.
pub open spec fn burst(mode: KeyMode, s: Seq<u8>) -> Outcome
    decreases s.len(),
{
    let (n, effect) = burst_step(mode, s);
    if s.len() == 0 {
        no_outcome()
    } else if 0 < n <= s.len() {
        no_outcome().with(effect).then_outcome(burst(mode, s.skip(n)))
    } else {
        no_outcome()
    }
}

fn csi_bytes(c: u8) -> (r: Vec<u8>)
    ensures
        r@ == csi_key(c),
{
    vec![ESC, LEFT_BRACKET, c]
}

fn ss3_bytes(c: u8) -> (r: Vec<u8>)
    ensures
        r@ == ss3_key(c),
{
    vec![ESC, LETTER_O, c]
}

fn tilde_bytes(d: u8) -> (r: Vec<u8>)
    ensures
        r@ == tilde_key(d),
{
    vec![ESC, LEFT_BRACKET, d, 0x7e]
}

fn modified_bytes(d: u8, modifier: u8, last: u8) -> (r: Vec<u8>)
    ensures
        r@ == modified_key(d, modifier, last),
{
    vec![ESC, LEFT_BRACKET, d, SEMICOLON, modifier, last]
}

fn push_row(table: &mut Vec<KeyRow>, pattern: Vec<u8>, action: Action)
    ensures
        keys(final(table)@) == keys(old(table)@).push(
            (Key { pattern: pattern@, action: action@ }),
        ),
{
    table.push(KeyRow { pattern, action });
    assert(keys(table@) =~= keys(old(table)@).push(table@.last()@));
}

fn push_cursor_row(table: &mut Vec<KeyRow>, pattern: Vec<u8>, normal: Vec<u8>, app: Vec<u8>)
    ensures
        keys(final(table)@) == keys(old(table)@).push(cursor_row(pattern@, normal@, app@)),
{
    push_row(table, pattern, Action::Cursor { normal, app });
}

/// The keys that are not simply forwarded.
fn key_rows() -> (r: Vec<KeyRow>)
    ensures
        keys(r@) == key_table(),
{
    let mut t: Vec<KeyRow> = Vec::new();
    proof {
        reveal(key_table);
        assert(keys(t@) =~= Seq::<Key>::empty());
    }
    push_cursor_row(&mut t, csi_bytes(0x41), csi_bytes(0x41), ss3_bytes(0x41));
    push_cursor_row(&mut t, csi_bytes(0x42), csi_bytes(0x42), ss3_bytes(0x42));
    push_cursor_row(&mut t, csi_bytes(0x43), csi_bytes(0x43), ss3_bytes(0x43));
    push_cursor_row(&mut t, csi_bytes(0x44), csi_bytes(0x44), ss3_bytes(0x44));
    push_cursor_row(&mut t, csi_bytes(0x48), csi_bytes(0x48), ss3_bytes(0x48));
    push_cursor_row(&mut t, csi_bytes(0x46), csi_bytes(0x46), ss3_bytes(0x46));
    push_cursor_row(&mut t, ss3_bytes(0x41), csi_bytes(0x41), ss3_bytes(0x41));
    push_cursor_row(&mut t, ss3_bytes(0x42), csi_bytes(0x42), ss3_bytes(0x42));
    push_cursor_row(&mut t, ss3_bytes(0x43), csi_bytes(0x43), ss3_bytes(0x43));
    push_cursor_row(&mut t, ss3_bytes(0x44), csi_bytes(0x44), ss3_bytes(0x44));
    push_cursor_row(&mut t, ss3_bytes(0x48), csi_bytes(0x48), ss3_bytes(0x48));
    push_cursor_row(&mut t, ss3_bytes(0x46), csi_bytes(0x46), ss3_bytes(0x46));
    push_cursor_row(&mut t, tilde_bytes(0x31), tilde_bytes(0x31), ss3_bytes(0x48));
    push_cursor_row(&mut t, tilde_bytes(0x37), tilde_bytes(0x37), ss3_bytes(0x48));
    push_cursor_row(&mut t, tilde_bytes(0x34), tilde_bytes(0x34), ss3_bytes(0x46));
    push_cursor_row(&mut t, tilde_bytes(0x38), tilde_bytes(0x38), ss3_bytes(0x46));
    push_row(&mut t, tilde_bytes(0x32), Action::Forward);
    push_row(&mut t, tilde_bytes(0x33), Action::Forward);
    push_row(&mut t, tilde_bytes(0x35), Action::ScrollPage(1));
    push_row(&mut t, modified_bytes(0x35, 0x32, 0x7e), Action::ScrollPage(1));
    push_row(&mut t, tilde_bytes(0x36), Action::ScrollPage(-1));
    push_row(&mut t, modified_bytes(0x36, 0x32, 0x7e), Action::ScrollPage(-1));
    push_row(&mut t, modified_bytes(0x31, 0x35, 0x41), Action::ScrollLines(1));
    push_row(&mut t, modified_bytes(0x31, 0x35, 0x42), Action::ScrollLines(-1));
    push_row(&mut t, vec![ESC, LEFT_BRACKET, 0x30, 0x6e], Action::Swallow);
    t
}

/// The longest key that `seq` begins with: its length, and what is done with it.
pub fn table_match(seq: &[u8]) -> (r: Option<(usize, Action)>)
    ensures
        match longest_key(key_table(), seq@) {
            Some(key) => r matches Some((len, action)) && len == key.pattern.len() && action@
                == key.action,
            None => r is None,
        },
{
    let mut table: Vec<KeyRow> = key_rows();
    let ghost all = key_table();
    let n: usize = table.len();
    let mut i: usize = 0;
    let mut best: Option<usize> = None;
    assert(all.take(0) =~= Seq::<Key>::empty());
    while i < n
        invariant
            i <= n,
            n == table@.len(),
            keys(table@) == all,
            match best {
                Some(b) => b < n && longest_key(all.take(i as int), seq@) == Some(all[b as int]),
                None => longest_key(all.take(i as int), seq@) is None,
            },
        decreases n - i,
    {
        let pattern: &[u8] = table[i].pattern.as_slice();
        proof {
            let t = all.take(i + 1);
            assert(t.drop_last() =~= all.take(i as int));
            assert(t.last() == table@[i as int]@);
        }
        if has_prefix(seq, pattern) {
            match best {
                Some(b) => {
                    assert(all[b as int] == table@[b as int]@);
                    if table[b].pattern.len() <= pattern.len() {
                        best = Some(i);
                    }
                },
                None => {
                    best = Some(i);
                },
            }
        }
        i += 1;
    }
    assert(all.take(n as int) =~= all);
    match best {
        Some(b) => {
            assert(all[b as int] == table@[b as int]@);
            let row: KeyRow = table.swap_remove(b);
            Some((row.pattern.len(), row.action))
        },
        None => None,
    }
}

/// The length of the string that `seq` begins, `None` while it does not end.
pub fn st_length(seq: &[u8], bel_terminated: bool) -> (r: Option<usize>)
    ensures
        match string_end(seq@, 1, bel_terminated) {
            Some(n) => r == Some(n as usize) && 0 < n <= seq@.len(),
            None => r is None,
        },
{
    let n: usize = seq.len();
    let mut i: usize = 1;
    while i < n
        invariant
            1 <= i,
            n == seq@.len(),
            i <= n || n < 1,
            string_end(seq@, 1, bel_terminated) == string_end(seq@, i as int, bel_terminated),
        decreases n - i,
    {
        if seq[i] == BEL && bel_terminated {
            return Some(i + 1);
        }
        if seq[i] == ESC && i + 1 < n && seq[i + 1] == BACKSLASH {
            return Some(i + 2);
        }
        i += 1;
    }
    None
}

/// Forwards the given number of bytes, all of them if no number is given.
fn forward_span(seq: &[u8], len_opt: Option<usize>, out: &mut BytesMut) -> (r: usize)
    requires
        len_opt matches Some(n) ==> n <= seq@.len(),
    ensures
        r == (match len_opt {
            Some(n) => n as nat,
            None => seq@.len(),
        }),
        buffered(*final(out)) == buffered(*old(out)) + seq@.take(r as int),
{
    let len: usize = match len_opt {
        Some(n) => n,
        None => seq.len(),
    };
    out.extend_from_slice(&seq[0..len]);
    assert(seq@.subrange(0, len as int) =~= seq@.take(len as int));
    len
}

fn next_field(s: &[u8], from: usize) -> (r: usize)
    requires
        from <= s@.len(),
    ensures
        r == field_end(s@, from as int),
        from <= r <= s@.len(),
        r < s@.len() ==> s@[r as int] == SEMICOLON,
{
    let n: usize = s.len();
    let mut i: usize = from;
    while i < n && s[i] != SEMICOLON
        invariant
            from <= i <= n,
            n == s@.len(),
            field_end(s@, from as int) == field_end(s@, i as int),
        decreases n - i,
    {
        i += 1;
    }
    i
}

proof fn lemma_field_end_past(s: Seq<u8>, i: int)
    requires
        i >= s.len(),
    ensures
        field_end(s, i) == i,
{
}

/// Reads a number of 32 bits in decimal.
fn parse_number(s: &[u8]) -> (r: Option<u32>)
    ensures
        r == number(s@),
{
    let start: usize = if s.len() > 0 && s[0] == 0x2b {
        1
    } else {
        0
    };
    let ghost digits = s@.skip(start as int);
    assert(s@.skip(0) =~= s@);
    let n: usize = s.len();
    if start == n {
        return None;
    }
    let mut value: u64 = 0;
    let mut i: usize = start;
    assert(digits.take(0) =~= Seq::<u8>::empty());
    while i < n
        invariant
            start <= i <= n,
            n == s@.len(),
            start <= 1,
            digits == s@.skip(start as int),
            value == digits_value(digits.take(i - start)),
            value <= u32::MAX,
            forall|j: int| 0 <= j < i - start ==> 0x30 <= #[trigger] digits[j] <= 0x39,
            digits == (if s@.len() > 0 && s@[0] == 0x2b {
                s@.skip(1)
            } else {
                s@
            }),
        decreases n - i,
    {
        let b: u8 = s[i];
        assert(digits[i - start] == b);
        if !(0x30 <= b && b <= 0x39) {
            assert(!all_digits(digits));
            return None;
        }
        value = value * 10 + (b - 0x30) as u64;
        i += 1;
        proof {
            let t = digits.take(i - start);
            assert(t.drop_last() =~= digits.take(i - start - 1));
        }
        if value > u32::MAX as u64 {
            proof {
                if number(s@) is Some {
                    lemma_digits_value_grows(digits, i - start);
                }
            }
            return None;
        }
    }
    assert(digits.take(n - start) =~= digits);
    Some(value as u32)
}

proof fn lemma_digits_value_grows(digits: Seq<u8>, k: int)
    requires
        0 <= k <= digits.len(),
        all_digits(digits),
    ensures
        digits_value(digits.take(k)) <= digits_value(digits),
    decreases digits.len() - k,
{
    if k == digits.len() {
        assert(digits.take(k) =~= digits);
    } else {
        lemma_digits_value_grows(digits, k + 1);
        assert(digits.take(k + 1).drop_last() =~= digits.take(k));
    }
}

/// Reads button, column and row of a mouse report.
pub fn sgr_coords(params: &[u8]) -> (r: Option<(u32, u32, u32)>)
    ensures
        r == coords(params@),
{
    let n: usize = params.len();
    let e1: usize = next_field(params, 0);
    if e1 == n {
        proof {
            lemma_field_end_past(params@, e1 + 1);
        }
        return None;
    }
    let e2: usize = next_field(params, e1 + 1);
    if e2 == n {
        return None;
    }
    let e3: usize = next_field(params, e2 + 1);
    match (
        parse_number(&params[0..e1]),
        parse_number(&params[e1 + 1..e2]),
        parse_number(&params[e2 + 1..e3]),
    ) {
        (Some(btn), Some(col), Some(row)) => Some((btn, col, row)),
        _ => None,
    }
}

/// Turns bursts of keyboard input into local events and bytes for the shell.
pub struct StdinProcessor {
    alt_screen: bool,
    mouse_on: bool,
    app_cursor: bool,
    page_size: i32,
}

impl StdinProcessor {
    /// What the remote screen is like.
    pub closed spec fn mode(self) -> KeyMode {
        KeyMode {
            row_offset: ROW_OFFSET,
            alt_screen: self.alt_screen,
            mouse_on: self.mouse_on,
            app_cursor: self.app_cursor,
            page_size: self.page_size,
        }
    }

    /// A processor for a main screen.
    pub fn new(page_size: i32) -> (r: Self)
        ensures
            r.mode() == (KeyMode {
                row_offset: ROW_OFFSET,
                alt_screen: false,
                mouse_on: false,
                app_cursor: false,
                page_size,
            }),
    {
        StdinProcessor { alt_screen: false, mouse_on: false, app_cursor: false, page_size }
    }

    /// Takes over what the remote screen is like.
    pub fn set_state(
        &mut self,
        alt_screen: bool,
        mouse_on: bool,
        page_size: i32,
        app_cursor: bool,
    )
        ensures
            final(self).mode() == (KeyMode {
                row_offset: ROW_OFFSET,
                alt_screen,
                mouse_on,
                app_cursor,
                page_size,
            }),
    {
        *self = StdinProcessor { alt_screen, mouse_on, app_cursor, page_size };
    }

    /// Sorts one burst of input into local events and bytes for the shell.
    pub fn process(&mut self, input: &[u8]) -> (r: (Vec<LocalEvent>, Bytes))
        requires
            old(self).mode().page_size > i32::MIN,
        ensures
            final(self).mode() == old(self).mode(),
            r.0@ == burst(old(self).mode(), input@).events,
            frozen(r.1) == burst(old(self).mode(), input@).sent,
    {
        let ghost mode = self.mode();
        let mut events: Vec<LocalEvent> = Vec::new();
        let mut out: BytesMut = BytesMut::new();
        let n: usize = input.len();
        let mut pos: usize = 0;
        proof {
            assert(input@.skip(0) =~= input@);
            let whole = burst(mode, input@);
            assert(Seq::<LocalEvent>::empty() + whole.events =~= whole.events);
            assert(Seq::<u8>::empty() + whole.sent =~= whole.sent);
        }
        while pos < n
            invariant
                pos <= n,
                n == input@.len(),
                self.mode() == mode,
                mode.page_size > i32::MIN,
                (Outcome { events: events@, sent: buffered(out) }).then_outcome(
                    burst(mode, input@.skip(pos as int)),
                ) == burst(mode, input@),
            decreases n - pos,
        {
            let ghost done = Outcome { events: events@, sent: buffered(out) };
            let ghost left = input@.skip(pos as int);
            let rest: &[u8] = &input[pos..n];
            assert(rest@ =~= left);
            let taken: usize = self.first(rest, &mut events, &mut out);
            proof {
                let (k, effect) = burst_step(mode, left);
                let now = Outcome { events: events@, sent: buffered(out) };
                let step = no_outcome().with(effect);
                let after = burst(mode, left.skip(k));
                assert(now == done.then_outcome(step)) by {
                    match effect {
                        Effect::Drop => {
                            assert(done.events + step.events =~= done.events);
                            assert(done.sent + step.sent =~= done.sent);
                        },
                        Effect::Local(e) => {
                            assert(done.events + step.events =~= done.events.push(e));
                            assert(done.sent + step.sent =~= done.sent);
                        },
                        Effect::Send(b) => {
                            assert(done.events + step.events =~= done.events);
                            assert(done.sent + step.sent =~= done.sent + b);
                        },
                    }
                }
                assert((done.events + step.events) + after.events =~= done.events + (step.events
                    + after.events));
                assert((done.sent + step.sent) + after.sent =~= done.sent + (step.sent
                    + after.sent));
                assert(left.skip(k) =~= input@.skip(pos + k));
            }
            pos += taken;
        }
        proof {
            assert(input@.skip(n as int) =~= Seq::<u8>::empty());
            assert(events@ + Seq::<LocalEvent>::empty() =~= events@);
            assert(buffered(out) + Seq::<u8>::empty() =~= buffered(out));
        }
        (events, out.freeze())
    }

    /// Handles the first piece of a burst; returns how many bytes it took.
    fn first(&self, seq: &[u8], events: &mut Vec<LocalEvent>, out: &mut BytesMut) -> (r: usize)
        requires
            seq@.len() > 0,
            self.mode().page_size > i32::MIN,
        ensures
            r == burst_step(self.mode(), seq@).0,
            0 < r <= seq@.len(),
            (Outcome { events: final(events)@, sent: buffered(*final(out)) }) == (Outcome {
                events: old(events)@,
                sent: buffered(*old(out)),
            }).with(burst_step(self.mode(), seq@).1),
    {
        let b: u8 = seq[0];
        if b == ESC {
            return self.escape(seq, events, out);
        }
        if b == DETACH {
            events.push(LocalEvent::Detach);
            return 1;
        }
        out.extend_from_slice(&[b]);
        assert([b]@ =~= seq@.take(1));
        1
    }

    /// Handles the sequence that `seq` begins, which is an escape; returns how many bytes it took.
    pub fn escape(&self, seq: &[u8], events: &mut Vec<LocalEvent>, out: &mut BytesMut) -> (r: usize)
        requires
            seq@.len() > 0,
            seq@[0] == ESC,
            self.mode().page_size > i32::MIN,
        ensures
            r == escape_step(self.mode(), seq@).0,
            0 < r <= seq@.len(),
            (Outcome { events: final(events)@, sent: buffered(*final(out)) }) == (Outcome {
                events: old(events)@,
                sent: buffered(*old(out)),
            }).with(escape_step(self.mode(), seq@).1),
            old(events)@.is_prefix_of(final(events)@),
            buffered(*old(out)).is_prefix_of(buffered(*final(out))),
            final(events)@.len() <= old(events)@.len() + 1,
            final(events)@.len() > old(events)@.len() ==> buffered(*final(out)) == buffered(
                *old(out),
            ),
    {
        proof {
            lemma_sequence_adds_one_thing(
                self.mode(),
                seq@,
                Outcome { events: events@, sent: buffered(*out) },
            );
        }
        let found: Option<(usize, Action)> = table_match(seq);
        proof {
            lemma_longest_key(key_table(), seq@);
            lemma_table_shape();
        }
        if let Some((len, action)) = found {
            let matched: &[u8] = &seq[0..len];
            assert(matched@ =~= seq@.take(len as int));
            return self.apply(action, matched, events, out);
        }
        let n: usize = seq.len();
        if n < 2 {
            out.extend_from_slice(&[ESC]);
            assert([ESC]@ =~= seq@.take(1));
            return 1;
        }
        let b: u8 = seq[1];
        if b == LEFT_BRACKET {
            return self.csi(seq, events, out);
        }
        if b == RIGHT_BRACKET {
            return forward_span(seq, st_length(seq, true), out);
        }
        if b == 0x50 || b == 0x58 || b == 0x5e || b == 0x5f {
            return forward_span(seq, st_length(seq, false), out);
        }
        if 0x20 <= b && b <= 0x7e {
            out.extend_from_slice(&seq[0..2]);
            assert(seq@.subrange(0, 2) =~= seq@.take(2));
            return 2;
        }
        out.extend_from_slice(&[ESC]);
        assert([ESC]@ =~= seq@.take(1));
        1
    }

    /// Does what the table says of a key; returns how many bytes it took.
    fn apply(
        &self,
        action: Action,
        matched: &[u8],
        events: &mut Vec<LocalEvent>,
        out: &mut BytesMut,
    ) -> (r: usize)
        requires
            self.mode().page_size > i32::MIN,
            action matches Action::ScrollPage(n) ==> -1 <= n <= 1,
        ensures
            r == matched@.len(),
            (Outcome { events: final(events)@, sent: buffered(*final(out)) }) == (Outcome {
                events: old(events)@,
                sent: buffered(*old(out)),
            }).with(key_effect(self.mode(), action@, matched@)),
    {
        match action {
            Action::Forward => {
                out.extend_from_slice(matched);
            },
            Action::Swallow => {},
            Action::Cursor { normal, app } => {
                if self.app_cursor {
                    out.extend_from_slice(app.as_slice());
                } else {
                    out.extend_from_slice(normal.as_slice());
                }
            },
            Action::ScrollPage(n) => {
                if self.alt_screen {
                    out.extend_from_slice(matched);
                } else {
                    let size: i32 = self.page_size;
                    assert(i32::MIN <= n * size <= i32::MAX) by (nonlinear_arith)
                        requires
                            -1 <= n <= 1,
                            i32::MIN < size <= i32::MAX,
                    ;
                    events.push(LocalEvent::Scroll(n * size));
                }
            },
            Action::ScrollLines(n) => {
                if self.alt_screen {
                    out.extend_from_slice(matched);
                } else {
                    events.push(LocalEvent::Scroll(n));
                }
            },
        }
        matched.len()
    }

    /// Handles a control sequence; returns how many bytes it took.
    fn csi(&self, seq: &[u8], events: &mut Vec<LocalEvent>, out: &mut BytesMut) -> (r: usize)
        requires
            seq@.len() >= 2,
        ensures
            r == csi_step(self.mode(), seq@).0,
            0 < r <= seq@.len(),
            (Outcome { events: final(events)@, sent: buffered(*final(out)) }) == (Outcome {
                events: old(events)@,
                sent: buffered(*old(out)),
            }).with(csi_step(self.mode(), seq@).1),
    {
        let n: usize = seq.len();
        let mut i: usize = 2;
        while i < n && 0x20 <= seq[i] && seq[i] <= 0x3f
            invariant
                2 <= i <= n,
                n == seq@.len(),
                params_end(seq@, 2) == params_end(seq@, i as int),
            decreases n - i,
        {
            i += 1;
        }
        assert(params_end(seq@, 2) == i);
        if i < n && 0x40 <= seq[i] && seq[i] <= 0x7e {
            let span: &[u8] = &seq[0..i + 1];
            assert(span@ =~= seq@.take(i + 1));
            self.classify_csi(span, events, out);
            return i + 1;
        }
        out.extend_from_slice(&seq[0..i]);
        assert(seq@.subrange(0, i as int) =~= seq@.take(i as int));
        i
    }

    /// Handles a complete control sequence.
    fn classify_csi(&self, span: &[u8], events: &mut Vec<LocalEvent>, out: &mut BytesMut)
        requires
            span@.len() >= 3,
        ensures
            (Outcome { events: final(events)@, sent: buffered(*final(out)) }) == (Outcome {
                events: old(events)@,
                sent: buffered(*old(out)),
            }).with(span_effect(self.mode(), span@)),
    {
        let n: usize = span.len();
        let last: u8 = span[n - 1];
        let params: &[u8] = &span[2..n - 1];
        if (last == 0x4d || last == 0x6d) && params.len() > 0 && params[0] == LESS_THAN {
            let args: &[u8] = &params[1..params.len()];
            assert(args@ =~= params@.skip(1));
            self.mouse(span, args, last, events, out);
            return ;
        }
        if last == 0x52 {
            return ;
        }
        if last == 0x63 && params.len() > 0 && params[0] == QUESTION_MARK {
            return ;
        }
        out.extend_from_slice(span);
    }

    /// Handles a mouse report.
    fn mouse(
        &self,
        span: &[u8],
        params: &[u8],
        final_byte: u8,
        events: &mut Vec<LocalEvent>,
        out: &mut BytesMut,
    )
        ensures
            (Outcome { events: final(events)@, sent: buffered(*final(out)) }) == (Outcome {
                events: old(events)@,
                sent: buffered(*old(out)),
            }).with(
                match coords(params@) {
                    Some((btn, col, row)) => mouse_effect(
                        self.mode(),
                        btn as nat,
                        col as nat,
                        row as nat,
                        final_byte as char,
                    ),
                    None => Effect::Send(span@),
                },
            ),
    {
        let (btn, col, row) = match sgr_coords(params) {
            Some(found) => found,
            None => {
                out.extend_from_slice(span);
                return ;
            },
        };
        if !self.alt_screen && final_byte == 0x4d && (btn == 64 || btn == 65) {
            let delta: i32 = if btn == 64 {
                3
            } else {
                -3
            };
            events.push(LocalEvent::Scroll(delta));
            return ;
        }
        if !self.alt_screen && !self.mouse_on {
            return ;
        }
        if row <= ROW_OFFSET as u32 {
            return ;
        }
        let shifted: u32 = row - ROW_OFFSET as u32;
        let ghost start = buffered(*out);
        let btn_digits: Vec<u8> = decimal_bytes(btn as u128);
        let col_digits: Vec<u8> = decimal_bytes(col as u128);
        let row_digits: Vec<u8> = decimal_bytes(shifted as u128);
        let letter: Vec<u8> = utf8_bytes(final_byte as char);
        out.extend_from_slice(&[ESC, LEFT_BRACKET, LESS_THAN]);
        out.extend_from_slice(btn_digits.as_slice());
        out.extend_from_slice(&[SEMICOLON]);
        out.extend_from_slice(col_digits.as_slice());
        out.extend_from_slice(&[SEMICOLON]);
        out.extend_from_slice(row_digits.as_slice());
        out.extend_from_slice(letter.as_slice());
        assert(buffered(*out) =~= start + mouse_report(
            btn as nat,
            col as nat,
            shifted as nat,
            final_byte as char,
        ));
    }
}

/// What all keys of the table have in common: an escape, then a bracket or the letter O, and nothing
/// that could end a control sequence before its last byte.
pub open spec fn key_shape(key: Key) -> bool {
    let p = key.pattern;
    &&& p.len() >= 3
    &&& p[0] == ESC
    &&& p[1] == LEFT_BRACKET || p[1] == LETTER_O && p.len() == 3
    &&& forall|i: int| 2 <= i < p.len() - 1 ==> 0x20 <= #[trigger] p[i] <= 0x3f
    &&& forall|i: int| 1 <= i < p.len() ==> #[trigger] p[i] != ESC
    &&& key.action matches KeyAction::ScrollPage(n) ==> -1 <= n <= 1
}

proof fn lemma_table_shape()
    ensures
        forall|i: int| 0 <= i < key_table().len() ==> key_shape(#[trigger] key_table()[i]),
{
    reveal(key_table);
}

/// The key that is found is one of the table that `s` begins with, and none of those is longer; if
/// none is found, there is none.
pub proof fn lemma_longest_key(table: Seq<Key>, s: Seq<u8>)
    ensures
        match longest_key(table, s) {
            Some(key) => {
                &&& table.contains(key)
                &&& key.pattern.is_prefix_of(s)
                &&& forall|i: int|
                    0 <= i < table.len() && (#[trigger] table[i]).pattern.is_prefix_of(s)
                        ==> table[i].pattern.len() <= key.pattern.len()
            },
            None => forall|i: int|
                0 <= i < table.len() ==> !(#[trigger] table[i]).pattern.is_prefix_of(s),
        },
    decreases table.len(),
{
    if table.len() > 0 {
        let init = table.drop_last();
        lemma_longest_key(init, s);
        assert(forall|i: int| 0 <= i < init.len() ==> #[trigger] table[i] == init[i]);
        if longest_key(table, s) is Some && longest_key(table, s)->Some_0 != table.last() {
            let key = longest_key(table, s)->Some_0;
            let i = choose|i: int| 0 <= i < init.len() && init[i] == key;
            assert(table[i] == key);
        } else {
            assert(table[table.len() - 1] == table.last());
        }
    }
}

/// Where the last escape is.
pub open spec fn last_escape(s: Seq<u8>) -> Option<int>
    decreases s.len(),
{
    if s.len() == 0 {
        None
    } else if s.last() == ESC {
        Some(s.len() - 1)
    } else {
        last_escape(s.drop_last())
    }
}

/// Whether a control sequence at the beginning of `s` has not come to its last byte.
pub open spec fn csi_unfinished(s: Seq<u8>) -> bool {
    forall|i: int| 2 <= i < s.len() ==> !(0x40 <= #[trigger] s[i] <= 0x7e)
}

/// Whether the sequence at the beginning of `s`, which is an escape, may still grow.
pub open spec fn unfinished(s: Seq<u8>) -> bool {
    if s.len() == 1 {
        true
    } else if s[1] == LEFT_BRACKET {
        csi_unfinished(s)
    } else if s[1] == RIGHT_BRACKET {
        string_end(s, 1, true) is None
    } else if begins_string(s[1]) {
        string_end(s, 1, false) is None
    } else {
        s[1] == LETTER_O && s.len() == 2
    }
}

/// Whether the last escape begins a sequence that may still grow.
pub open spec fn partial(s: Seq<u8>) -> bool {
    match last_escape(s) {
        Some(pos) => unfinished(s.skip(pos)),
        None => false,
    }
}

proof fn lemma_last_escape(s: Seq<u8>)
    ensures
        match last_escape(s) {
            Some(pos) => {
                &&& 0 <= pos < s.len()
                &&& s[pos] == ESC
                &&& forall|i: int| pos < i < s.len() ==> #[trigger] s[i] != ESC
            },
            None => forall|i: int| 0 <= i < s.len() ==> #[trigger] s[i] != ESC,
        },
    decreases s.len(),
{
    if s.len() > 0 && s.last() != ESC {
        let init = s.drop_last();
        lemma_last_escape(init);
        assert forall|i: int| 0 <= i < s.len() - 1 implies #[trigger] s[i] == init[i] by {}
    }
}

fn csi_may_grow(s: &[u8]) -> (r: bool)
    requires
        s@.len() >= 2,
    ensures
        r == csi_unfinished(s@),
{
    let n: usize = s.len();
    let mut i: usize = 2;
    while i < n
        invariant
            2 <= i <= n,
            n == s@.len(),
            forall|j: int| 2 <= j < i ==> !(0x40 <= #[trigger] s@[j] <= 0x7e),
        decreases n - i,
    {
        if 0x40 <= s[i] && s[i] <= 0x7e {
            return false;
        }
        i += 1;
    }
    true
}

/// Whether `buf` may end in the middle of a sequence, so that it pays to wait for more input.
pub fn maybe_partial(buf: &[u8]) -> (r: bool)
    ensures
        r == partial(buf@),
{
    let n: usize = buf.len();
    let mut end: usize = n;
    assert(buf@.take(n as int) =~= buf@);
    while end > 0 && buf[end - 1] != ESC
        invariant
            end <= n,
            n == buf@.len(),
            last_escape(buf@) == last_escape(buf@.take(end as int)),
        decreases end,
    {
        proof {
            assert(buf@.take(end as int).drop_last() =~= buf@.take(end - 1));
            assert(buf@.take(end as int).last() == buf@[end - 1]);
        }
        end -= 1;
    }
    if end == 0 {
        return false;
    }
    let pos: usize = end - 1;
    proof {
        assert(buf@.take(end as int).last() == buf@[pos as int]);
    }
    let tail: &[u8] = &buf[pos..n];
    assert(tail@ =~= buf@.skip(pos as int));
    if tail.len() == 1 {
        return true;
    }
    let b: u8 = tail[1];
    if b == LEFT_BRACKET {
        return csi_may_grow(tail);
    }
    if b == RIGHT_BRACKET {
        return st_length(tail, true).is_none();
    }
    if b == 0x50 || b == 0x58 || b == 0x5e || b == 0x5f {
        return st_length(tail, false).is_none();
    }
    b == LETTER_O && tail.len() == 2
}

/// How many milliseconds the system is asked to wait for input. The system counts with 32 bits.
pub fn poll_millis(timeout: Duration) -> (r: i32)
    ensures
        r == (nanos(timeout) / 1_000_000) as i32,
{
    timeout.as_millis() as i32
}

/// Whether more input is on its way, where input comes in whole sequences: there is no need to wait
/// for more, so none ever is.
pub fn stdin_readable(_timeout: Duration) -> (r: bool)
    ensures
        !r,
{
    false
}

/// Each piece of a burst takes at least one byte and no more than there are, so all input is
/// handled.
pub proof fn lemma_input_never_stalls(mode: KeyMode, s: Seq<u8>)
    requires
        s.len() > 0,
    ensures
        0 < burst_step(mode, s).0 <= s.len(),
{
    lemma_longest_key(key_table(), s);
    lemma_table_shape();
    lemma_string_end(s, 1, true);
    lemma_string_end(s, 1, false);
    if s.len() >= 2 {
        lemma_params_end(s, 2);
    }
}

proof fn lemma_string_end(s: Seq<u8>, i: int, bel: bool)
    requires
        i >= 0,
    ensures
        string_end(s, i, bel) matches Some(n) ==> i < n <= s.len(),
    decreases s.len() - i,
{
    if i < s.len() {
        lemma_string_end(s, i + 1, bel);
    }
}

proof fn lemma_params_end(s: Seq<u8>, i: int)
    requires
        0 <= i <= s.len(),
    ensures
        i <= params_end(s, i) <= s.len(),
        forall|j: int| i <= j < params_end(s, i) ==> 0x20 <= #[trigger] s[j] <= 0x3f,
        params_end(s, i) < s.len() ==> !(0x20 <= s[params_end(s, i)] <= 0x3f),
    decreases s.len() - i,
{
    if i < s.len() && 0x20 <= s[i] <= 0x3f {
        lemma_params_end(s, i + 1);
    }
}

/// What a sequence leads to is only ever added to what has come up before: at most one event, or
/// bytes for the shell, but not both.
pub proof fn lemma_sequence_adds_one_thing(mode: KeyMode, s: Seq<u8>, before: Outcome)
    requires
        s.len() > 0,
        s[0] == ESC,
    ensures
        ({
            let (n, effect) = escape_step(mode, s);
            let after = before.with(effect);
            &&& 1 <= n <= s.len()
            &&& before.events.is_prefix_of(after.events)
            &&& before.sent.is_prefix_of(after.sent)
            &&& after.events.len() <= before.events.len() + 1
            &&& after.events.len() > before.events.len() ==> after.sent == before.sent
        }),
{
    lemma_input_never_stalls(mode, s);
    let effect = escape_step(mode, s).1;
    let after = before.with(effect);
    assert(after.events.take(before.events.len() as int) =~= before.events);
    assert(after.sent.take(before.sent.len() as int) =~= before.sent);
}

/// The detach chord leaves the session, whatever the remote screen is like, and nothing else does.
pub proof fn lemma_only_the_chord_detaches(mode: KeyMode, s: Seq<u8>)
    requires
        s.len() > 0,
    ensures
        burst_step(mode, s).1 == Effect::Local(LocalEvent::Detach) <==> s[0] == DETACH,
{
}

/// Input without escapes and without the detach chord is forwarded as it is.
pub proof fn lemma_plain_input_is_forwarded(mode: KeyMode, s: Seq<u8>)
    requires
        forall|i: int| 0 <= i < s.len() ==> #[trigger] s[i] != ESC && s[i] != DETACH,
    ensures
        burst(mode, s).sent == s,
        burst(mode, s).events.len() == 0,
    decreases s.len(),
{
    if s.len() > 0 {
        lemma_plain_input_is_forwarded(mode, s.skip(1));
        assert(Seq::<u8>::empty() + s.take(1) + s.skip(1) =~= s);
    }
}

/// Whether the control sequence at the beginning of `s` is a mouse report or an answer of the
/// terminal.
pub open spec fn known_csi(s: Seq<u8>) -> bool {
    let i = params_end(s, 2);
    &&& i < s.len()
    &&& {
        ||| s[i] == 0x52
        ||| s[i] == 0x63 && i > 2 && s[2] == QUESTION_MARK
        ||| (s[i] == 0x4d || s[i] == 0x6d) && i > 2 && s[2] == LESS_THAN
    }
}

/// Unknown input is forwarded as it is: a sequence that is neither in the table nor a mouse report
/// nor an answer of the terminal, also if it is broken off.
pub proof fn lemma_unknown_sequences_are_forwarded(mode: KeyMode, s: Seq<u8>)
    requires
        s.len() > 0,
        s[0] == ESC,
        longest_key(key_table(), s) is None,
        s.len() >= 2 && s[1] == LEFT_BRACKET ==> !known_csi(s),
    ensures
        burst_step(mode, s).1 == Effect::Send(s.take(burst_step(mode, s).0)),
{
    if s.len() >= 2 && s[1] == LEFT_BRACKET {
        lemma_params_end(s, 2);
        let i = params_end(s, 2);
        if i < s.len() {
            let span = s.take(i + 1);
            let params = span.subrange(2, span.len() - 1);
            assert(span.last() == s[i]);
            if params.len() > 0 {
                assert(params[0] == s[2]);
            }
        }
    }
}

/// While a remote program has taken over the screen, no key scrolls the local view.
pub proof fn lemma_no_local_scroll_on_alternate_screen(mode: KeyMode, s: Seq<u8>)
    requires
        mode.alt_screen,
        s.len() > 0,
        s[0] == ESC,
    ensures
        !(burst_step(mode, s).1 is Local),
{
}

/// Whether each string in a burst comes to its end.
pub open spec fn strings_end(mode: KeyMode, s: Seq<u8>) -> bool
    decreases s.len(),
{
    let n = burst_step(mode, s).0;
    if s.len() == 0 {
        true
    } else {
        &&& s[0] == ESC && s.len() >= 2 && s[1] == RIGHT_BRACKET ==> string_end(s, 1, true) is Some
        &&& s[0] == ESC && s.len() >= 2 && begins_string(s[1]) ==> string_end(s, 1, false) is Some
        &&& 0 < n <= s.len() ==> strings_end(mode, s.skip(n))
    }
}

/// A burst that is not partial, and in which no string is left open, can be handled without waiting
/// for more: whatever comes after it leads to the same as if it had come in one burst.
pub proof fn lemma_finished_burst_needs_no_more(mode: KeyMode, a: Seq<u8>, b: Seq<u8>)
    requires
        !partial(a),
        strings_end(mode, a),
    ensures
        burst(mode, a + b) == burst(mode, a).then_outcome(burst(mode, b)),
    decreases a.len(),
{
    if a.len() == 0 {
        assert(a + b =~= b);
        assert(Seq::<LocalEvent>::empty() + burst(mode, b).events =~= burst(mode, b).events);
        assert(Seq::<u8>::empty() + burst(mode, b).sent =~= burst(mode, b).sent);
    } else {
        let (n, effect) = burst_step(mode, a);
        lemma_input_never_stalls(mode, a);
        if a[0] == ESC {
            lemma_escape_needs_no_more(mode, a, b);
        } else {
            assert((a + b).take(1) =~= a.take(1));
        }
        assert(burst_step(mode, a + b) == (n, effect));
        assert((a + b).skip(n) =~= a.skip(n) + b);
        lemma_partial_skip(a, n);
        lemma_finished_burst_needs_no_more(mode, a.skip(n), b);
        let first = no_outcome().with(effect);
        let x = burst(mode, a.skip(n));
        let y = burst(mode, b);
        assert(first.events + (x.events + y.events) =~= (first.events + x.events) + y.events);
        assert(first.sent + (x.sent + y.sent) =~= (first.sent + x.sent) + y.sent);
    }
}

proof fn lemma_partial_skip(a: Seq<u8>, n: int)
    requires
        0 <= n <= a.len(),
        !partial(a),
    ensures
        !partial(a.skip(n)),
{
    lemma_last_escape(a);
    lemma_last_escape(a.skip(n));
    let t = a.skip(n);
    assert forall|i: int| 0 <= i < t.len() implies #[trigger] t[i] == a[i + n] by {}
    if let Some(q) = last_escape(t) {
        assert(a[q + n] == ESC);
        assert(last_escape(a) is Some);
        let pos = last_escape(a)->Some_0;
        if pos < q + n {
            assert(a[q + n] != ESC);
        }
        if pos > q + n {
            assert(t[pos - n] == a[pos]);
            assert(t[pos - n] != ESC);
        }
        assert(pos == q + n);
        assert(t.skip(q) =~= a.skip(pos));
    }
}

proof fn lemma_string_end_more(a: Seq<u8>, b: Seq<u8>, i: int, bel: bool)
    requires
        i >= 0,
        string_end(a, i, bel) is Some,
    ensures
        string_end(a + b, i, bel) == string_end(a, i, bel),
    decreases a.len() - i,
{
    if i < a.len() {
        assert((a + b)[i] == a[i]);
        if i + 1 < a.len() {
            assert((a + b)[i + 1] == a[i + 1]);
        }
        if !(a[i] == BEL && bel) && !(a[i] == ESC && i + 1 < a.len() && a[i + 1] == BACKSLASH) {
            lemma_string_end_more(a, b, i + 1, bel);
            lemma_string_end(a, i + 1, bel);
        }
    }
}

proof fn lemma_params_end_more(a: Seq<u8>, b: Seq<u8>, i: int)
    requires
        0 <= i,
        params_end(a, i) < a.len(),
    ensures
        params_end(a + b, i) == params_end(a, i),
    decreases a.len() - i,
{
    if i < a.len() {
        assert((a + b)[i] == a[i]);
        if 0x20 <= a[i] <= 0x3f {
            lemma_params_end_more(a, b, i + 1);
        }
    }
}

proof fn lemma_longest_key_more(table: Seq<Key>, a: Seq<u8>, b: Seq<u8>)
    requires
        forall|i: int|
            0 <= i < table.len() && (#[trigger] table[i]).pattern.is_prefix_of(a + b)
                ==> table[i].pattern.len() <= a.len(),
    ensures
        longest_key(table, a + b) == longest_key(table, a),
    decreases table.len(),
{
    if table.len() > 0 {
        let init = table.drop_last();
        assert(forall|i: int| 0 <= i < init.len() ==> #[trigger] init[i] == table[i]);
        lemma_longest_key_more(init, a, b);
        let p = table.last().pattern;
        assert(table[table.len() - 1] == table.last());
        if p.is_prefix_of(a + b) {
            assert((a + b).take(p.len() as int) =~= a.take(p.len() as int));
        }
        if p.is_prefix_of(a) {
            assert((a + b).take(p.len() as int) =~= a.take(p.len() as int));
        }
    }
}

#[verifier::rlimit(50)]
proof fn lemma_escape_needs_no_more(mode: KeyMode, a: Seq<u8>, b: Seq<u8>)
    requires
        a.len() > 0,
        a[0] == ESC,
        !partial(a),
        strings_end(mode, a),
    ensures
        escape_step(mode, a + b) == escape_step(mode, a),
{
    let ab = a + b;
    let table = key_table();
    lemma_table_shape();
    lemma_last_escape(a);
    assert(a.skip(0) =~= a);
    assert forall|i: int|
        0 <= i < table.len() && (#[trigger] table[i]).pattern.is_prefix_of(ab) implies table[i].pattern.len()
        <= a.len() by {
        let p = table[i].pattern;
        if p.len() > a.len() {
            assert(key_shape(table[i]));
            assert forall|j: int| 0 <= j < a.len() implies #[trigger] a[j] == p[j] by {
                assert(ab[j] == a[j]);
            }
            assert(last_escape(a) == Some(0int)) by {
                let pos = last_escape(a)->Some_0;
                if pos > 0 {
                    assert(a[pos] == p[pos]);
                }
            }
            assert(unfinished(a)) by {
                if a.len() >= 2 {
                    assert(a[1] == p[1]);
                }
            }
        }
    }
    lemma_longest_key_more(table, a, b);
    lemma_longest_key(table, a);
    match longest_key(table, a) {
        Some(key) => {
            let n = key.pattern.len() as int;
            assert(ab.take(n) =~= a.take(n));
        },
        None => {
            if a.len() < 2 {
                assert(last_escape(a) == Some(0int));
            } else {
                assert(ab[1] == a[1]);
                assert(ab.take(1) =~= a.take(1));
                assert(ab.take(2) =~= a.take(2));
                lemma_string_end(a, 1, true);
                lemma_string_end(a, 1, false);
                if a[1] == LEFT_BRACKET {
                    lemma_params_end(a, 2);
                    let i = params_end(a, 2);
                    if i >= a.len() {
                        assert(last_escape(a) == Some(0int)) by {
                            let pos = last_escape(a)->Some_0;
                            if pos > 1 {
                                assert(0x20 <= a[pos] <= 0x3f);
                            }
                        }
                        assert(csi_unfinished(a));
                    }
                    lemma_params_end_more(a, b, 2);
                    assert(ab[i] == a[i]);
                    assert(ab.take(i + 1) =~= a.take(i + 1));
                    assert(ab.take(i) =~= a.take(i));
                } else if a[1] == RIGHT_BRACKET {
                    lemma_string_end_more(a, b, 1, true);
                    let n = string_length(a, true);
                    assert(ab.take(n) =~= a.take(n));
                } else if begins_string(a[1]) {
                    lemma_string_end_more(a, b, 1, false);
                    let n = string_length(a, false);
                    assert(ab.take(n) =~= a.take(n));
                }
            }
        },
    }
}

/// The letter of a cursor key: an arrow, Home or End.
spec fn is_cursor_letter(c: u8) -> bool {
    c == 0x41 || c == 0x42 || c == 0x43 || c == 0x44 || c == 0x48 || c == 0x46
}

/// The key of the table that `s` begins with, told from its bytes.
spec fn key_at(s: Seq<u8>) -> Option<Key> {
    if s.len() < 3 || s[0] != ESC {
        None
    } else if s[1] == LETTER_O && is_cursor_letter(s[2]) {
        Some(cursor_row(ss3_key(s[2]), csi_key(s[2]), ss3_key(s[2])))
    } else if s[1] != LEFT_BRACKET {
        None
    } else if is_cursor_letter(s[2]) {
        Some(cursor_row(csi_key(s[2]), csi_key(s[2]), ss3_key(s[2])))
    } else if s.len() >= 4 && s[3] == 0x7e && (s[2] == 0x31 || s[2] == 0x37) {
        Some(cursor_row(tilde_key(s[2]), tilde_key(s[2]), ss3_key(0x48)))
    } else if s.len() >= 4 && s[3] == 0x7e && (s[2] == 0x34 || s[2] == 0x38) {
        Some(cursor_row(tilde_key(s[2]), tilde_key(s[2]), ss3_key(0x46)))
    } else if s.len() >= 4 && s[3] == 0x7e && (s[2] == 0x32 || s[2] == 0x33) {
        Some(Key { pattern: tilde_key(s[2]), action: KeyAction::Forward })
    } else if s.len() >= 4 && s[3] == 0x7e && s[2] == 0x35 {
        Some(Key { pattern: tilde_key(0x35), action: KeyAction::ScrollPage(1) })
    } else if s.len() >= 4 && s[3] == 0x7e && s[2] == 0x36 {
        Some(Key { pattern: tilde_key(0x36), action: KeyAction::ScrollPage(-1i32) })
    } else if s.len() >= 4 && s[3] == 0x6e && s[2] == 0x30 {
        Some(
            Key { pattern: seq![ESC, LEFT_BRACKET, 0x30, 0x6e], action: KeyAction::Swallow },
        )
    } else if s.len() < 6 || s[3] != SEMICOLON {
        None
    } else if s[2] == 0x35 && s[4] == 0x32 && s[5] == 0x7e {
        Some(Key { pattern: modified_key(0x35, 0x32, 0x7e), action: KeyAction::ScrollPage(1) })
    } else if s[2] == 0x36 && s[4] == 0x32 && s[5] == 0x7e {
        Some(
            Key { pattern: modified_key(0x36, 0x32, 0x7e), action: KeyAction::ScrollPage(-1i32) },
        )
    } else if s[2] == 0x31 && s[4] == 0x35 && s[5] == 0x41 {
        Some(Key { pattern: modified_key(0x31, 0x35, 0x41), action: KeyAction::ScrollLines(1) })
    } else if s[2] == 0x31 && s[4] == 0x35 && s[5] == 0x42 {
        Some(
            Key { pattern: modified_key(0x31, 0x35, 0x42), action: KeyAction::ScrollLines(-1i32) },
        )
    } else {
        None
    }
}

#[verifier::rlimit(50)]
proof fn lemma_key_of_the_table(s: Seq<u8>, i: int)
    requires
        0 <= i < key_table().len(),
        key_table()[i].pattern.is_prefix_of(s),
    ensures
        key_at(s) == Some(key_table()[i]),
{
    reveal(key_table);
    let p = key_table()[i].pattern;
    assert(forall|j: int| 0 <= j < p.len() ==> s[j] == #[trigger] p[j]) by {
        assert forall|j: int| 0 <= j < p.len() implies s[j] == #[trigger] p[j] by {
            assert(s.take(p.len() as int)[j] == p[j]);
        }
    }
    assert(p.len() <= s.len());
    assert(p[0] == s[0] && p[1] == s[1] && p[2] == s[2]);
    if p.len() >= 4 {
        assert(p[3] == s[3]);
    }
    if p.len() >= 6 {
        assert(p[4] == s[4] && p[5] == s[5]);
    }
}

#[verifier::rlimit(50)]
proof fn lemma_key_is_in_the_table(s: Seq<u8>)
    requires
        key_at(s) is Some,
    ensures
        key_at(s)->Some_0.pattern.is_prefix_of(s),
        exists|i: int| 0 <= i < key_table().len() && #[trigger] key_table()[i] == key_at(s)->Some_0,
{
    reveal(key_table);
    let key = key_at(s)->Some_0;
    let p = key.pattern;
    assert(s.take(p.len() as int) =~= p);
    let t = key_table();
    assert(t.len() == 25);
    assert(key == t[0] || key == t[1] || key == t[2] || key == t[3] || key == t[4] || key == t[5]
        || key == t[6] || key == t[7] || key == t[8] || key == t[9] || key == t[10] || key == t[11]
        || key == t[12] || key == t[13] || key == t[14] || key == t[15] || key == t[16] || key
        == t[17] || key == t[18] || key == t[19] || key == t[20] || key == t[21] || key == t[22]
        || key == t[23] || key == t[24]);
}

proof fn lemma_key_at(s: Seq<u8>)
    ensures
        longest_key(key_table(), s) == key_at(s),
{
    let t = key_table();
    lemma_longest_key(t, s);
    match longest_key(t, s) {
        Some(key) => {
            let i = choose|i: int| 0 <= i < t.len() && t[i] == key;
            lemma_key_of_the_table(s, i);
        },
        None => {
            if key_at(s) is Some {
                lemma_key_is_in_the_table(s);
            }
        },
    }
}

/// Whether `s` begins with a complete control sequence of `n` bytes: an escape and a bracket,
/// parameter and intermediate bytes, and a final byte.
pub open spec fn begins_with_csi(s: Seq<u8>, n: int) -> bool {
    &&& 3 <= n <= s.len()
    &&& s[0] == 0x1b
    &&& s[1] == 0x5b
    &&& forall|i: int| 2 <= i < n - 1 ==> 0x20 <= #[trigger] s[i] <= 0x3f
    &&& 0x40 <= s[n - 1] <= 0x7e
}

/// Whether `n` bytes of `s` are a mouse report about the given button, column and row.
pub open spec fn begins_with_report(s: Seq<u8>, n: int, btn: u32, col: u32, row: u32) -> bool {
    &&& begins_with_csi(s, n)
    &&& n >= 4
    &&& s[2] == 0x3c
    &&& s[n - 1] == 0x4d || s[n - 1] == 0x6d
    &&& coords(s.subrange(3, n - 1)) == Some((btn, col, row))
}

proof fn lemma_csi_params(s: Seq<u8>, n: int)
    requires
        begins_with_csi(s, n),
    ensures
        params_end(s, 2) == n - 1,
{
    lemma_params_end(s, 2);
    let e = params_end(s, 2);
    if e < n - 1 {
        assert(0x20 <= s[e] <= 0x3f);
    }
    if e > n - 1 {
        assert(0x20 <= s[n - 1] <= 0x3f);
    }
}

proof fn lemma_csi_read(mode: KeyMode, s: Seq<u8>, n: int)
    requires
        begins_with_csi(s, n),
    ensures
        burst_step(mode, s).0 == n,
        key_at(s) is None ==> burst_step(mode, s).1 == span_effect(mode, s.take(n)),
        key_at(s) matches Some(key) ==> key.pattern == s.take(n) && burst_step(mode, s).1
            == key_effect(mode, key.action, s.take(n)),
{
    lemma_key_at(s);
    lemma_csi_params(s, n);
    match key_at(s) {
        Some(key) => {
            lemma_key_is_in_the_table(s);
            let p = key.pattern;
            assert(s.take(p.len() as int) =~= p);
            let m = p.len() as int;
            assert(begins_with_csi(s, m));
            lemma_csi_params(s, m);
        },
        None => {},
    }
}

/// A complete control sequence is read as one piece, neither less nor more.
pub proof fn lemma_control_sequences_are_read_whole(mode: KeyMode, s: Seq<u8>, n: int)
    requires
        begins_with_csi(s, n),
    ensures
        burst_step(mode, s).0 == n,
{
    lemma_csi_read(mode, s, n);
}

/// Just these sequences scroll the local view, and only while the remote program has not taken over
/// the screen: the page keys by a page, alone or with Shift, Control with the arrows up and down by a
/// line, and the wheel by three lines.
#[verifier::rlimit(50)]
pub proof fn lemma_which_keys_scroll(mode: KeyMode, s: Seq<u8>, n: int, lines: i32)
    requires
        begins_with_csi(s, n),
        mode.page_size > i32::MIN,
    ensures
        burst_step(mode, s).1 == Effect::Local(LocalEvent::Scroll(lines)) <==> !mode.alt_screen && ({
            ||| s.take(n) == seq![0x1bu8, 0x5b, 0x35, 0x7e] && lines == mode.page_size
            ||| s.take(n) == seq![0x1bu8, 0x5b, 0x35, 0x3b, 0x32, 0x7e] && lines == mode.page_size
            ||| s.take(n) == seq![0x1bu8, 0x5b, 0x36, 0x7e] && lines == -mode.page_size
            ||| s.take(n) == seq![0x1bu8, 0x5b, 0x36, 0x3b, 0x32, 0x7e] && lines == -mode.page_size
            ||| s.take(n) == seq![0x1bu8, 0x5b, 0x31, 0x3b, 0x35, 0x41] && lines == 1
            ||| s.take(n) == seq![0x1bu8, 0x5b, 0x31, 0x3b, 0x35, 0x42] && lines == -1
            ||| s[n - 1] == 0x4d && lines == 3 && exists|col: u32, row: u32|
                begins_with_report(s, n, 64, col, row)
            ||| s[n - 1] == 0x4d && lines == -3 && exists|col: u32, row: u32|
                begins_with_report(s, n, 65, col, row)
        }),
{
    lemma_csi_read(mode, s, n);
    lemma_span(mode, s, n);
    lemma_scroll_spans(s, n);
    let page = mode.page_size;
    assert((1i32 * page) as i32 == page);
    assert((-1i32 * page) as i32 == -page);
    if begins_with_some_report(s, n) {
        assert(key_at(s) is None);
        let (btn, col, row) = coords(s.subrange(3, n - 1))->Some_0;
        assert(begins_with_report(s, n, btn, col, row));
        assert(forall|b: u32, c: u32, r: u32|
            begins_with_report(s, n, b, c, r) ==> b == btn && c == col && r == row);
        assert(s.take(n)[2] == 0x3c);
    } else {
        assert(forall|b: u32, c: u32, r: u32| begins_with_report(s, n, b, c, r) ==> false);
        assert(!(span_effect(mode, s.take(n)) is Local));
        match key_at(s) {
            Some(key) => {
                match key.action {
                    KeyAction::ScrollPage(k) => {
                        assert(k == 1 || k == -1);
                    },
                    _ => {},
                }
            },
            None => {},
        }
    }
}

/// Whether `n` bytes of `s` are a mouse report.
spec fn begins_with_some_report(s: Seq<u8>, n: int) -> bool {
    n >= 4 && s[2] == 0x3c && (s[n - 1] == 0x4d || s[n - 1] == 0x6d) && coords(
        s.subrange(3, n - 1),
    ) is Some
}

/// Which spans are the scroll keys of the table.
proof fn lemma_scroll_spans(s: Seq<u8>, n: int)
    requires
        begins_with_csi(s, n),
    ensures
        ({
            let span = s.take(n);
            let key = key_at(s);
            &&& (key matches Some(k) && k.action == KeyAction::ScrollPage(1)) <==> span == seq![
                0x1bu8,
                0x5b,
                0x35,
                0x7e,
            ] || span == seq![0x1bu8, 0x5b, 0x35, 0x3b, 0x32, 0x7e]
            &&& (key matches Some(k) && k.action == KeyAction::ScrollPage(-1i32)) <==> span == seq![
                0x1bu8,
                0x5b,
                0x36,
                0x7e,
            ] || span == seq![0x1bu8, 0x5b, 0x36, 0x3b, 0x32, 0x7e]
            &&& (key matches Some(k) && k.action == KeyAction::ScrollLines(1)) <==> span == seq![
                0x1bu8,
                0x5b,
                0x31,
                0x3b,
                0x35,
                0x41,
            ]
            &&& (key matches Some(k) && k.action == KeyAction::ScrollLines(-1i32)) <==> span
                == seq![0x1bu8, 0x5b, 0x31, 0x3b, 0x35, 0x42]
            &&& (key matches Some(k) && k.action is Swallow) <==> span == seq![
                0x1bu8,
                0x5b,
                0x30,
                0x6e,
            ]
            &&& key matches Some(k) ==> (k.action matches KeyAction::ScrollLines(d) ==> d == 1 || d
                == -1)
            &&& key matches Some(k) ==> (k.action matches KeyAction::ScrollPage(d) ==> d == 1 || d
                == -1)
        }),
{
    let span = s.take(n);
    lemma_csi_params(s, n);
    if key_at(s) is Some {
        let p = key_at(s)->Some_0.pattern;
        lemma_key_is_in_the_table(s);
        assert(begins_with_csi(s, p.len() as int)) by {
            assert(s.take(p.len() as int) =~= p);
        }
        lemma_csi_params(s, p.len() as int);
        assert(span == p);
    }
    assert(forall|i: int| 0 <= i < n ==> span[i] == #[trigger] s[i]);
    assert(n >= 4 ==> s[3] == span[3]);
    assert(n >= 6 ==> s[4] == span[4] && s[5] == span[5]);
    lemma_bytes_of(span, seq![0x1bu8, 0x5b, 0x35, 0x7e]);
    lemma_bytes_of(span, seq![0x1bu8, 0x5b, 0x35, 0x3b, 0x32, 0x7e]);
    lemma_bytes_of(span, seq![0x1bu8, 0x5b, 0x36, 0x7e]);
    lemma_bytes_of(span, seq![0x1bu8, 0x5b, 0x36, 0x3b, 0x32, 0x7e]);
    lemma_bytes_of(span, seq![0x1bu8, 0x5b, 0x31, 0x3b, 0x35, 0x41]);
    lemma_bytes_of(span, seq![0x1bu8, 0x5b, 0x31, 0x3b, 0x35, 0x42]);
    lemma_bytes_of(span, seq![0x1bu8, 0x5b, 0x30, 0x6e]);
}

proof fn lemma_bytes_of(span: Seq<u8>, key: Seq<u8>)
    ensures
        span == key <==> span.len() == key.len() && forall|i: int|
            0 <= i < key.len() ==> span[i] == #[trigger] key[i],
{
    if span.len() == key.len() && forall|i: int| 0 <= i < key.len() ==> span[i] == #[trigger] key[i] {
        assert(span =~= key);
    }
}

proof fn lemma_span(mode: KeyMode, s: Seq<u8>, n: int)
    requires
        begins_with_csi(s, n),
    ensures
        ({
            let last = s[n - 1];
            span_effect(mode, s.take(n)) == (if (last == 0x4d || last == 0x6d) && n >= 4 && s[2]
                == 0x3c {
                match coords(s.subrange(3, n - 1)) {
                    Some((btn, col, row)) => mouse_effect(
                        mode,
                        btn as nat,
                        col as nat,
                        row as nat,
                        last as char,
                    ),
                    None => Effect::Send(s.take(n)),
                }
            } else if last == 0x52 || last == 0x63 && n >= 4 && s[2] == 0x3f {
                Effect::Drop
            } else {
                Effect::Send(s.take(n))
            })
        }),
{
    let span = s.take(n);
    let params = span.subrange(2, span.len() - 1);
    assert(params =~= s.subrange(2, n - 1));
    assert(span.last() == s[n - 1]);
    if n >= 4 {
        assert(params[0] == s[2]);
        assert(params.skip(1) =~= s.subrange(3, n - 1));
    }
}

/// Just these sequences are dropped: answers of the terminal (a cursor position, that all is well, its
/// attributes), and mouse reports that the remote program does not want or that are about the status
/// bar, unless they are about the wheel and scroll the view.
#[verifier::rlimit(50)]
pub proof fn lemma_which_keys_are_dropped(mode: KeyMode, s: Seq<u8>, n: int)
    requires
        begins_with_csi(s, n),
    ensures
        burst_step(mode, s).1 == Effect::Drop <==> ({
            ||| s.take(n) == seq![0x1bu8, 0x5b, 0x30, 0x6e]
            ||| s[n - 1] == 0x52
            ||| s[n - 1] == 0x63 && n >= 4 && s[2] == 0x3f
            ||| exists|btn: u32, col: u32, row: u32| #[trigger]
                begins_with_report(s, n, btn, col, row) && !(!mode.alt_screen && s[n - 1] == 0x4d
                    && (btn == 64 || btn == 65)) && (!mode.alt_screen && !mode.mouse_on || row
                    <= mode.row_offset)
        }),
{
    lemma_csi_read(mode, s, n);
    lemma_span(mode, s, n);
    lemma_scroll_spans(s, n);
    if begins_with_some_report(s, n) {
        assert(key_at(s) is None);
        let (btn, col, row) = coords(s.subrange(3, n - 1))->Some_0;
        assert(begins_with_report(s, n, btn, col, row));
        assert(forall|b: u32, c: u32, r: u32|
            begins_with_report(s, n, b, c, r) ==> b == btn && c == col && r == row);
        assert(s.take(n)[2] == 0x3c);
    } else {
        assert(forall|b: u32, c: u32, r: u32| begins_with_report(s, n, b, c, r) ==> false);
        if s[n - 1] == 0x52 || s[n - 1] == 0x63 {
            if key_at(s) is Some {
                let p = key_at(s)->Some_0.pattern;
                assert(p == s.take(n));
                assert(p.last() == s[n - 1]);
            }
        }
    }
}

/// Each control sequence that neither is dropped nor scrolls reaches the shell. A cursor key is
/// spelled as the program expects it, and so are the numbered spellings of Home and End. A mouse
/// report has the same button and column, and the row of the remote screen. Everything else is
/// forwarded as it is.
#[verifier::rlimit(50)]
pub proof fn lemma_other_keys_reach_the_shell(mode: KeyMode, s: Seq<u8>, n: int)
    requires
        begins_with_csi(s, n),
        burst_step(mode, s).1 != Effect::Drop,
        !(burst_step(mode, s).1 matches Effect::Local(LocalEvent::Scroll(_))),
    ensures
        burst_step(mode, s).1 is Send,
        ({
            let bytes = burst_step(mode, s).1->Send_0;
            let letter = n == 3 && (s[2] == 0x41 || s[2] == 0x42 || s[2] == 0x43 || s[2] == 0x44
                || s[2] == 0x48 || s[2] == 0x46);
            let home = n == 4 && s[3] == 0x7e && (s[2] == 0x31 || s[2] == 0x37);
            let end = n == 4 && s[3] == 0x7e && (s[2] == 0x34 || s[2] == 0x38);
            &&& mode.app_cursor && letter ==> bytes == seq![0x1bu8, 0x4f, s[2]]
            &&& mode.app_cursor && home ==> bytes == seq![0x1bu8, 0x4f, 0x48]
            &&& mode.app_cursor && end ==> bytes == seq![0x1bu8, 0x4f, 0x46]
            &&& forall|btn: u32, col: u32, row: u32| #[trigger]
                begins_with_report(s, n, btn, col, row) ==> bytes.len() >= 4 && bytes.take(3)
                    == seq![0x1bu8, 0x5b, 0x3c] && bytes.last() == s[n - 1] && numbers_read(
                    bytes.subrange(3, bytes.len() - 1),
                ) == seq![seq![btn as int], seq![col as int], seq![row - mode.row_offset]]
            &&& !(mode.app_cursor && (letter || home || end)) && (forall|
                btn: u32,
                col: u32,
                row: u32,
            |
                !begins_with_report(s, n, btn, col, row)) ==> bytes == s.take(n)
        }),
{
    lemma_csi_read(mode, s, n);
    lemma_span(mode, s, n);
    lemma_scroll_spans(s, n);
    let bytes = burst_step(mode, s).1->Send_0;
    if begins_with_some_report(s, n) {
        assert(key_at(s) is None);
        let (btn, col, row) = coords(s.subrange(3, n - 1))->Some_0;
        assert(begins_with_report(s, n, btn, col, row));
        assert(forall|b: u32, c: u32, r: u32|
            begins_with_report(s, n, b, c, r) ==> b == btn && c == col && r == row);
        let letter = s[n - 1] as char;
        lemma_mouse_report_reads_back(
            btn as nat,
            col as nat,
            (row - mode.row_offset) as nat,
            letter,
        );
        assert(utf8_char('M') =~= seq![0x4du8] && utf8_char('m') =~= seq![0x6du8]) by {
            lemma_ascii_char('M');
            lemma_ascii_char('m');
        }
        assert(utf8_char(letter) == seq![s[n - 1]]);
        let tail = bytes.skip(bytes.len() - 1);
        assert(tail == seq![s[n - 1]]);
        assert(bytes.last() == tail[0]);
    } else {
        assert(forall|b: u32, c: u32, r: u32| begins_with_report(s, n, b, c, r) ==> false);
        match key_at(s) {
            Some(key) => {
                let p = key.pattern;
                assert(p == s.take(n));
                assert(p.len() == n);
                assert(forall|i: int| 0 <= i < n ==> p[i] == #[trigger] s[i]);
                assert(n >= 4 ==> p[3] == s[3]);
            },
            None => {},
        }
    }
}

/// A cursor key in the spelling of application mode is spelled as the program expects it, too.
pub proof fn lemma_application_keys_are_respelled(mode: KeyMode, s: Seq<u8>)
    requires
        s.len() >= 3,
        s[0] == 0x1b,
        s[1] == 0x4f,
    ensures
        s[2] == 0x41 || s[2] == 0x42 || s[2] == 0x43 || s[2] == 0x44 || s[2] == 0x48 || s[2] == 0x46
            ==> burst_step(mode, s) == (
            3int,
            Effect::Send(
                seq![
                    0x1bu8,
                    if mode.app_cursor {
                        0x4fu8
                    } else {
                        0x5bu8
                    },
                    s[2],
                ],
            ),
        ),
        !(s[2] == 0x41 || s[2] == 0x42 || s[2] == 0x43 || s[2] == 0x44 || s[2] == 0x48 || s[2]
            == 0x46) ==> burst_step(mode, s) == (2int, Effect::Send(s.take(2))),
{
    lemma_key_at(s);
}

/// What is no complete control sequence and no cursor key is forwarded as it is: a sequence that is
/// broken off as far as it goes, a string up to its end, an escape with the printable byte after it,
/// an escape alone.
pub proof fn lemma_other_escapes_are_forwarded(mode: KeyMode, s: Seq<u8>)
    requires
        s.len() >= 1,
        s[0] == 0x1b,
        forall|n: int| !begins_with_csi(s, n),
        s.len() >= 3 ==> s[1] != 0x4f,
    ensures
        ({
            let n = burst_step(mode, s).0;
            &&& burst_step(mode, s).1 == Effect::Send(s.take(n))
            &&& 1 <= n <= s.len()
            &&& s.len() == 1 || !(0x20 <= s[1] <= 0x7e) ==> n == 1
            &&& s.len() >= 2 && s[1] == 0x5b ==> n >= 2 && (forall|i: int|
                2 <= i < n ==> 0x20 <= #[trigger] s[i] <= 0x3f) && (n < s.len() ==> !(0x20 <= s[n]
                <= 0x3f))
            &&& s.len() >= 2 && 0x20 <= s[1] <= 0x7e && s[1] != 0x5b && s[1] != 0x5d && s[1] != 0x50
                && s[1] != 0x58 && s[1] != 0x5e && s[1] != 0x5f ==> n == 2
        }),
{
    lemma_key_at(s);
    lemma_input_never_stalls(mode, s);
    if s.len() >= 2 && s[1] == LEFT_BRACKET {
        lemma_params_end(s, 2);
        let i = params_end(s, 2);
        if i < s.len() && 0x40 <= s[i] <= 0x7e {
            assert(begins_with_csi(s, i + 1));
        }
        if key_at(s) is Some {
            let p = key_at(s)->Some_0.pattern;
            lemma_key_is_in_the_table(s);
            assert(s.take(p.len() as int) =~= p);
            assert(begins_with_csi(s, p.len() as int));
        }
    }
}

/// Whether a string that `s` begins ends with the byte before `n`: with a string terminator, or with
/// a bell where that counts.
pub open spec fn ends_before(s: Seq<u8>, n: int, bell_counts: bool) -> bool {
    ||| 2 <= n <= s.len() && s[n - 1] == 0x07 && bell_counts
    ||| 3 <= n <= s.len() && s[n - 1] == 0x5c && s[n - 2] == 0x1b
}

/// A string is forwarded up to its first end, and if it has none, with all that follows. A bell ends
/// an operating system command, but no other string.
pub proof fn lemma_strings_are_forwarded_whole(mode: KeyMode, s: Seq<u8>)
    requires
        s.len() >= 2,
        s[0] == 0x1b,
        s[1] == 0x5d || s[1] == 0x50 || s[1] == 0x58 || s[1] == 0x5e || s[1] == 0x5f,
    ensures
        ({
            let n = burst_step(mode, s).0;
            let bell = s[1] == 0x5d;
            &&& burst_step(mode, s).1 == Effect::Send(s.take(n))
            &&& forall|m: int| m < n ==> !#[trigger] ends_before(s, m, bell)
            &&& n == s.len() || n < s.len() && ends_before(s, n, bell)
        }),
{
    lemma_key_at(s);
    lemma_string_end(s, 1, s[1] == 0x5d);
    lemma_first_end(s, 1, s[1] == 0x5d);
}

proof fn lemma_first_end(s: Seq<u8>, i: int, bell: bool)
    requires
        1 <= i <= s.len(),
        s[1] != 0x5c,
    ensures
        match string_end(s, i, bell) {
            Some(n) => ends_before(s, n, bell) && forall|m: int|
                i < m < n && !(m == i + 1 && s[i] == 0x5c) ==> !#[trigger] ends_before(s, m, bell),
            None => forall|m: int|
                i < m && !(m == i + 1 && s[i] == 0x5c) ==> !#[trigger] ends_before(s, m, bell),
        },
    decreases s.len() - i,
{
    if i < s.len() {
        if !(s[i] == BEL && bell) && !(s[i] == ESC && i + 1 < s.len() && s[i + 1] == BACKSLASH) {
            lemma_first_end(s, i + 1, bell);
        }
    }
}

/// A burst leads to what its first piece leads to, followed by what the rest leads to, and nothing
/// comes of nothing.
pub proof fn lemma_burst_is_read_piece_by_piece(mode: KeyMode, s: Seq<u8>)
    ensures
        s.len() == 0 ==> burst(mode, s).sent.len() == 0 && burst(mode, s).events.len() == 0,
        s.len() > 0 ==> {
            let (n, effect) = burst_step(mode, s);
            let rest = burst(mode, s.skip(n));
            &&& burst(mode, s).sent == (match effect {
                Effect::Send(bytes) => bytes + rest.sent,
                _ => rest.sent,
            })
            &&& burst(mode, s).events == (match effect {
                Effect::Local(event) => seq![event] + rest.events,
                _ => rest.events,
            })
        },
        s.len() > 0 && s[0] != 0x1b && s[0] != 0x1d ==> burst_step(mode, s) == (
            1int,
            Effect::Send(seq![s[0]]),
        ),
        s.len() > 0 && s[0] == 0x1d ==> burst_step(mode, s) == (
            1int,
            Effect::Local(LocalEvent::Detach),
        ),
{
    if s.len() > 0 {
        lemma_input_never_stalls(mode, s);
        let (n, effect) = burst_step(mode, s);
        let rest = burst(mode, s.skip(n));
        assert(s.take(1) =~= seq![s[0]]);
        match effect {
            Effect::Send(bytes) => {
                assert(Seq::<u8>::empty() + bytes + rest.sent =~= bytes + rest.sent);
                assert(Seq::<LocalEvent>::empty() + rest.events =~= rest.events);
            },
            Effect::Local(event) => {
                assert(Seq::<u8>::empty() + rest.sent =~= rest.sent);
                assert(Seq::<LocalEvent>::empty().push(event) =~= seq![event]);
            },
            Effect::Drop => {
                assert(Seq::<u8>::empty() + rest.sent =~= rest.sent);
                assert(Seq::<LocalEvent>::empty() + rest.events =~= rest.events);
            },
        }
    }
}

/// Digits are read as the number that they stand for, with or without a plus sign, if there are any,
/// if there are only digits, and if the number fits into 32 bits.
pub proof fn lemma_numbers_are_read(digits: Seq<u8>)
    requires
        digits.len() > 0,
        digits[0] != 0x2b,
    ensures
        number(digits) == (if (forall|i: int|
            0 <= i < digits.len() ==> 48 <= #[trigger] digits[i] <= 57) && number_read(digits)
            <= u32::MAX {
            Some(number_read(digits) as u32)
        } else {
            None
        }),
        number(seq![0x2bu8] + digits) == number(digits),
        number(seq![0x2bu8, 0x2b] + digits) is None,
        number(Seq::empty()) is None,
        number(seq![0x2bu8]) is None,
{
    if all_digits(digits) {
        lemma_digits_value(digits);
    }
    assert((seq![0x2bu8] + digits).skip(1) =~= digits);
    let twice = (seq![0x2bu8, 0x2b] + digits).skip(1);
    assert(twice[0] == 0x2b);
    assert(!all_digits(twice));
    assert(seq![0x2bu8].skip(1) =~= Seq::<u8>::empty());
}

proof fn lemma_digits_value(digits: Seq<u8>)
    requires
        all_digits(digits),
    ensures
        digits_value(digits) == number_read(digits),
    decreases digits.len(),
{
    reveal_with_fuel(Seq::fold_left, 2);
    if digits.len() > 0 {
        let init = digits.drop_last();
        assert(forall|i: int| 0 <= i < init.len() ==> #[trigger] init[i] == digits[i]);
        lemma_digits_value(init);
        assert(0x30 <= digits[digits.len() - 1] <= 0x39);
    }
}

/// Button, column and row are the first three parts between semicolons, if all three are numbers.
pub proof fn lemma_coords_are_the_first_three(s: Seq<u8>)
    ensures
        ({
            let p = parts(s, 0x3b);
            coords(s) == (if p.len() >= 3 && number(p[0]) is Some && number(p[1]) is Some && number(
                p[2],
            ) is Some {
                Some((number(p[0])->Some_0, number(p[1])->Some_0, number(p[2])->Some_0))
            } else {
                None
            })
        }),
{
    lemma_first_three_fields(s);
}

#[verifier::spinoff_prover]
#[verifier::rlimit(50)]
proof fn lemma_first_three_fields(s: Seq<u8>)
    ensures
        ({
            let p = parts(s, 0x3b);
            let e1 = field_end(s, 0);
            let e2 = field_end(s, e1 + 1);
            let e3 = field_end(s, e2 + 1);
            &&& e2 < s.len() <==> p.len() >= 3
            &&& e2 < s.len() ==> p[0] == s.subrange(0, e1) && p[1] == s.subrange(e1 + 1, e2) && p[2]
                == s.subrange(e2 + 1, e3)
        }),
{
    let p = parts(s, 0x3b);
    lemma_field(s, 0);
    let e1 = field_end(s, 0);
    let a = s.subrange(0, e1);
    if e1 >= s.len() {
        assert(a =~= s);
        lemma_last_part(Seq::empty(), s, 0x3b);
    } else {
        let t = s.skip(e1 + 1);
        assert(s =~= a + seq![0x3bu8] + t);
        lemma_first_part(a, t, 0x3b);
        lemma_field(s, e1 + 1);
        let e2 = field_end(s, e1 + 1);
        let b = s.subrange(e1 + 1, e2);
        if e2 >= s.len() {
            assert(b =~= t);
            lemma_last_part(Seq::empty(), t, 0x3b);
        } else {
            let u = s.skip(e2 + 1);
            assert(t =~= b + seq![0x3bu8] + u);
            lemma_first_part(b, u, 0x3b);
            lemma_third_field(s, e2 + 1);
            assert(p == seq![a] + (seq![b] + parts(u, 0x3b)));
            assert(p[0] == a);
            assert(p[1] == b);
            assert(p[2] == parts(u, 0x3b)[0]);
        }
    }
}

proof fn lemma_third_field(s: Seq<u8>, from: int)
    requires
        0 <= from <= s.len(),
    ensures
        parts(s.skip(from), 0x3b).len() >= 1,
        parts(s.skip(from), 0x3b)[0] == s.subrange(from, field_end(s, from)),
{
    let u = s.skip(from);
    lemma_field(s, from);
    let e = field_end(s, from);
    let c = s.subrange(from, e);
    if e >= s.len() {
        assert(c =~= u);
        lemma_last_part(Seq::empty(), u, 0x3b);
    } else {
        let v = s.skip(e + 1);
        assert(u =~= c + seq![0x3bu8] + v);
        lemma_first_part(c, v, 0x3b);
    }
}

proof fn lemma_field(s: Seq<u8>, i: int)
    requires
        0 <= i <= s.len(),
    ensures
        i <= field_end(s, i) <= s.len(),
        forall|j: int| i <= j < field_end(s, i) ==> #[trigger] s[j] != 0x3b,
        field_end(s, i) < s.len() ==> s[field_end(s, i)] == 0x3b,
        forall|j: int|
            0 <= j < field_end(s, i) - i ==> #[trigger] s.subrange(i, field_end(s, i))[j] != 0x3b,
    decreases s.len() - i,
{
    if i < s.len() && s[i] != SEMICOLON {
        lemma_field(s, i + 1);
    }
}

/// It pays to wait for more input just where the last escape begins something that is not complete:
/// the escape alone, or with the letter O; a control sequence without final byte; an operating system
/// command without bell; any other string. Where there is no escape, there is nothing to wait for.
pub proof fn lemma_what_is_worth_waiting_for(before: Seq<u8>, tail: Seq<u8>)
    requires
        forall|i: int| 0 <= i < tail.len() ==> #[trigger] tail[i] != 0x1b,
    ensures
        (forall|i: int| 0 <= i < before.len() ==> #[trigger] before[i] != 0x1b) ==> !partial(
            before + tail,
        ),
        partial(before + seq![0x1bu8] + tail) <==> ({
            ||| tail.len() == 0
            ||| tail == seq![0x4fu8]
            ||| tail[0] == 0x5b && forall|i: int|
                1 <= i < tail.len() ==> !(0x40 <= #[trigger] tail[i] <= 0x7e)
            ||| tail[0] == 0x5d && forall|i: int| 0 <= i < tail.len() ==> #[trigger] tail[i] != 0x07
            ||| tail[0] == 0x50 || tail[0] == 0x58 || tail[0] == 0x5e || tail[0] == 0x5f
        }),
{
    let plain = before + tail;
    lemma_last_escape(plain);
    let s = before + seq![0x1bu8] + tail;
    let pos = before.len() as int;
    lemma_last_escape(s);
    assert(s[pos] == ESC);
    assert(forall|i: int| pos < i < s.len() ==> s[i] == tail[i - pos - 1]);
    if last_escape(s) is None {
        assert(s[pos] != ESC);
    }
    let q = last_escape(s)->Some_0;
    if q > pos {
        assert(s[q] == tail[q - pos - 1]);
    }
    if q < pos {
        assert(s[pos] != ESC);
    }
    let t = s.skip(pos);
    assert(t =~= seq![0x1bu8] + tail);
    assert(partial(s) == unfinished(t));
    if tail.len() > 0 {
        assert(forall|i: int| 1 <= i < t.len() ==> #[trigger] t[i] == tail[i - 1]);
        assert(forall|i: int| 0 <= i < tail.len() ==> #[trigger] tail[i] == t[i + 1]);
        lemma_no_end_without_bell(t, 1, true);
        lemma_no_end_without_bell(t, 1, false);
        if tail[0] == 0x5b {
            assert(csi_unfinished(t) <==> forall|i: int|
                1 <= i < tail.len() ==> !(0x40 <= #[trigger] tail[i] <= 0x7e)) by {
                if csi_unfinished(t) {
                    assert forall|i: int| 1 <= i < tail.len() implies !(0x40 <= #[trigger] tail[i]
                        <= 0x7e) by {
                        assert(t[i + 1] == tail[i]);
                    }
                }
            }
        }
        assert(tail == seq![0x4fu8] <==> tail[0] == 0x4f && tail.len() == 1) by {
            if tail[0] == 0x4f && tail.len() == 1 {
                assert(tail =~= seq![0x4fu8]);
            }
        }
        if tail[0] == 0x5d {
            assert((forall|i: int| 1 <= i < t.len() ==> #[trigger] t[i] != 0x07) <==> forall|i: int|
                0 <= i < tail.len() ==> #[trigger] tail[i] != 0x07) by {
                if forall|i: int| 1 <= i < t.len() ==> #[trigger] t[i] != 0x07 {
                    assert forall|i: int| 0 <= i < tail.len() implies #[trigger] tail[i] != 0x07 by {
                        assert(t[i + 1] == tail[i]);
                    }
                }
            }
        }
    }
}

proof fn lemma_no_end_without_bell(t: Seq<u8>, i: int, bell: bool)
    requires
        1 <= i,
        forall|j: int| 1 <= j < t.len() ==> #[trigger] t[j] != ESC,
    ensures
        string_end(t, i, bell) is None <==> !bell || forall|j: int|
            i <= j < t.len() ==> #[trigger] t[j] != 0x07,
    decreases t.len() - i,
{
    if i < t.len() {
        lemma_no_end_without_bell(t, i + 1, bell);
    }
}

} // verus!
