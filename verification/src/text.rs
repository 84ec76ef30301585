//! Text: numbers in decimal, characters in UTF-8, and the few string operations the console needs.
use crate::buffer::buffered;
use bytes::BytesMut;
use vstd::prelude::*;
use vstd::string::*;
use vstd::utf8::*;

verus! {

/// `String::push` appends one character.
pub assume_specification[ String::push ](s: &mut String, c: char)
    ensures
        final(s)@ == old(s)@.push(c),
;

/// The decimal digits of `n`, most significant first, without leading zeros.
pub open spec fn decimal(n: nat) -> Seq<u8>
    decreases n,
{
    if n < 10 {
        seq![(48 + n) as u8]
    } else {
        decimal(n / 10).push((48 + n % 10) as u8)
    }
}

/// The decimal digits of `n` as characters.
pub open spec fn decimal_text(n: nat) -> Seq<char>
    decreases n,
{
    if n < 10 {
        seq![(48 + n) as char]
    } else {
        decimal_text(n / 10).push((48 + n % 10) as char)
    }
}

/// Writes `n` in decimal.
pub fn decimal_bytes(n: u128) -> (r: Vec<u8>)
    ensures
        r@ == decimal(n as nat),
    decreases n,
{
    if n < 10 {
        vec![48 + n as u8]
    } else {
        let mut v: Vec<u8> = decimal_bytes(n / 10);
        v.push(48 + (n % 10) as u8);
        v
    }
}

/// Writes `n` in decimal, as characters.
pub fn decimal_chars(n: u128) -> (r: Vec<char>)
    ensures
        r@ == decimal_text(n as nat),
    decreases n,
{
    if n < 10 {
        vec![(48 + n as u8) as char]
    } else {
        let mut v: Vec<char> = decimal_chars(n / 10);
        v.push((48 + (n % 10) as u8) as char);
        v
    }
}

/// The characters of a string, in order.
pub fn chars_of(s: &str) -> (r: Vec<char>)
    ensures
        r@ == s@,
{
    let mut out: Vec<char> = Vec::new();
    for c in it: s.chars()
        invariant
            it.seq() == s@,
            out@ == s@.take(it.index() as int),
    {
        out.push(c);
        assert(s@.take(it.index() + 1) =~= s@.take(it.index() as int).push(c));
    }
    assert(s@.take(s@.len() as int) =~= s@);
    out
}

/// The string made of the given characters.
pub fn string_of(chars: &[char]) -> (r: String)
    ensures
        r@ == chars@,
{
    let mut out: String = String::new();
    let n: usize = chars.len();
    let mut i: usize = 0;
    while i < n
        invariant
            i <= n,
            n == chars@.len(),
            out@ == chars@.take(i as int),
        decreases n - i,
    {
        out.push(chars[i]);
        i += 1;
        assert(chars@.take(i as int) =~= chars@.take(i - 1).push(chars@[i - 1]));
    }
    assert(chars@.take(n as int) =~= chars@);
    out
}

/// The UTF-8 encoding of one character.
pub open spec fn utf8_char(c: char) -> Seq<u8> {
    encode_scalar(c as u32)
}

/// Encodes one character in UTF-8.
pub fn utf8_bytes(c: char) -> (r: Vec<u8>)
    ensures
        r@ == utf8_char(c),
{
    let mut s: String = String::new();
    s.push(c);
    let r: Vec<u8> = s.as_str().as_bytes_vec();
    proof {
        assert(s@ =~= seq![c]);
        assert(seq![c].drop_first() =~= Seq::<char>::empty());
        reveal_with_fuel(encode_utf8, 2);
        assert(encode_utf8(seq![c]) =~= encode_scalar(c as u32));
    }
    r
}

/// Appends a string in UTF-8.
pub fn push_text(out: &mut BytesMut, s: &str)
    ensures
        buffered(*final(out)) == buffered(*old(out)) + encode_utf8(s@),
{
    out.extend_from_slice(s.as_bytes());
}

/// The bytes of a text that is plain ASCII, one for each character.
pub open spec fn ascii(s: Seq<char>) -> Seq<u8> {
    s.map_values(|c: char| c as u8)
}

/// In UTF-8, an ASCII character is its own byte.
pub(crate) proof fn lemma_ascii_char(c: char)
    requires
        c <= '\x7f',
    ensures
        utf8_char(c) == seq![c as u8],
{
    let v = c as u32;
    assert(v <= 0x7f);
    assert(v as u8 == (v & 0x7f) as u8) by (bit_vector)
        requires
            v <= 0x7f,
    ;
    assert(v as u8 == c as u8);
    assert(utf8_char(c) =~= seq![c as u8]);
}

/// In UTF-8, a text that is plain ASCII is its characters.
pub proof fn lemma_ascii_is_utf8(s: Seq<char>)
    requires
        forall|i: int| 0 <= i < s.len() ==> (#[trigger] s[i]) <= '\x7f',
    ensures
        encode_utf8(s) == ascii(s),
    decreases s.len(),
{
    if s.len() > 0 {
        let c = s[0];
        lemma_ascii_is_utf8(s.drop_first());
        lemma_ascii_char(c);
        assert(encode_utf8(s) =~= ascii(s));
    }
}

/// The number that a row of decimal digits stands for, read from left to right.
pub open spec fn number_read(digits: Seq<u8>) -> int {
    digits.fold_left(0int, |so_far: int, digit: u8| 10 * so_far + (digit as int - 48))
}

/// A number in decimal reads back as the number. It is made of digits alone, and does not begin with
/// a zero unless it is zero.
pub proof fn lemma_decimal_reads_back(n: nat)
    ensures
        number_read(decimal(n)) == n,
        decimal(n).len() >= 1,
        forall|i: int| 0 <= i < decimal(n).len() ==> 48 <= #[trigger] decimal(n)[i] <= 57,
        n > 0 ==> decimal(n)[0] != 48,
        decimal(n) == ascii(decimal_text(n)),
    decreases n,
{
    let read = |so_far: int, digit: u8| 10 * so_far + (digit as int - 48);
    let s = decimal(n);
    reveal_with_fuel(Seq::fold_left, 2);
    if n >= 10 {
        lemma_decimal_reads_back(n / 10);
        assert(s.drop_last() =~= decimal(n / 10));
        assert(s.last() as int - 48 == n % 10);
        lemma_digit_char(n % 10);
        assert(s =~= ascii(decimal_text(n)));
    } else {
        assert(s.drop_last() =~= Seq::<u8>::empty());
        lemma_digit_char(n);
        assert(s =~= ascii(decimal_text(n)));
    }
}

proof fn lemma_digit_char(d: nat)
    requires
        d < 10,
    ensures
        ((48 + d) as char) as u8 == (48 + d) as u8,
        ((48 + d) as char) as int == 48 + d,
{
}

/// A number in decimal, as characters, is made of digits alone, and different numbers are written
/// differently.
pub proof fn lemma_decimal_text_reads_back(n: nat)
    ensures
        number_read(ascii(decimal_text(n))) == n,
        decimal_text(n).len() >= 1,
        forall|i: int|
            0 <= i < decimal_text(n).len() ==> '0' <= #[trigger] decimal_text(n)[i] <= '9',
        forall|m: nat| #[trigger] decimal_text(m) == decimal_text(n) ==> m == n,
{
    lemma_decimal_reads_back(n);
    lemma_decimal_text_digits(n);
    assert forall|m: nat| #[trigger] decimal_text(m) == decimal_text(n) implies m == n by {
        lemma_decimal_reads_back(m);
    }
}

proof fn lemma_decimal_text_digits(n: nat)
    ensures
        decimal_text(n).len() >= 1,
        forall|i: int|
            0 <= i < decimal_text(n).len() ==> '0' <= #[trigger] decimal_text(n)[i] <= '9',
    decreases n,
{
    if n >= 10 {
        lemma_decimal_text_digits(n / 10);
        lemma_digit_char(n % 10);
    } else {
        lemma_digit_char(n);
    }
}

/// The last of several pieces, joined together, comes after the others.
pub(crate) proof fn lemma_joined_at_end<A>(pieces: Seq<Seq<A>>)
    requires
        pieces.len() > 0,
    ensures
        pieces.flatten() == pieces.drop_last().flatten() + pieces.last(),
{
    assert(pieces.drop_last().push(pieces.last()) =~= pieces);
    pieces.drop_last().lemma_flatten_push(pieces.last());
}

/// The parts of a text between separators.
pub open spec fn parts(s: Seq<u8>, separator: u8) -> Seq<Seq<u8>>
    decreases s.len(),
{
    if s.len() == 0 {
        seq![Seq::empty()]
    } else {
        let before = parts(s.drop_last(), separator);
        if s.last() == separator {
            before.push(Seq::empty())
        } else {
            before.drop_last().push(before.last().push(s.last()))
        }
    }
}

/// What stands after a separator and holds none is the last part; a text without separator is its
/// only part.
pub(crate) proof fn lemma_last_part(a: Seq<u8>, b: Seq<u8>, separator: u8)
    requires
        forall|i: int| 0 <= i < b.len() ==> #[trigger] b[i] != separator,
    ensures
        parts(a, separator).len() >= 1,
        parts(a + seq![separator] + b, separator) == parts(a, separator).push(b),
        parts(b, separator) == seq![b],
    decreases a.len() + b.len(),
{
    let whole = a + seq![separator] + b;
    if b.len() > 0 {
        let init = b.drop_last();
        lemma_last_part(a, init, separator);
        assert(whole.drop_last() =~= a + seq![separator] + init);
        assert(whole.last() == b.last());
        assert(init.push(b.last()) =~= b);
        assert(parts(whole, separator) =~= parts(a, separator).push(b));
        assert(parts(b, separator) =~= seq![b]);
    } else {
        assert(whole.drop_last() =~= a);
        assert(b =~= Seq::<u8>::empty());
        if a.len() > 0 {
            lemma_last_part(a.drop_last(), Seq::empty(), separator);
        }
    }
}

/// What stands before the first separator is the first part.
pub(crate) proof fn lemma_first_part(a: Seq<u8>, b: Seq<u8>, separator: u8)
    requires
        forall|i: int| 0 <= i < a.len() ==> #[trigger] a[i] != separator,
    ensures
        parts(a + seq![separator] + b, separator) == seq![a] + parts(b, separator),
        parts(b, separator).len() >= 1,
    decreases b.len(),
{
    let whole = a + seq![separator] + b;
    if b.len() == 0 {
        lemma_last_part(a, b, separator);
        lemma_last_part(Seq::empty(), a, separator);
        assert(b =~= Seq::<u8>::empty());
        assert(parts(whole, separator) =~= seq![a] + parts(b, separator));
    } else {
        let init = b.drop_last();
        lemma_first_part(a, init, separator);
        assert(whole.drop_last() =~= a + seq![separator] + init);
        assert(whole.last() == b.last());
        assert(parts(whole, separator) =~= seq![a] + parts(b, separator));
    }
}

/// In UTF-8, one text after another is the bytes of the one after those of the other.
pub proof fn lemma_utf8_joined(a: Seq<char>, b: Seq<char>)
    ensures
        encode_utf8(a + b) == encode_utf8(a) + encode_utf8(b),
    decreases a.len(),
{
    if a.len() == 0 {
        assert(a + b =~= b);
        assert(encode_utf8(a) + encode_utf8(b) =~= encode_utf8(b));
    } else {
        lemma_utf8_joined(a.drop_first(), b);
        assert((a + b).drop_first() =~= a.drop_first() + b);
        assert((a + b)[0] == a[0]);
        assert(encode_utf8(a + b) =~= encode_utf8(a) + encode_utf8(b));
    }
}

} // verus!
