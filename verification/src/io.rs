//! What the small commands compute: clipboard writes and keys.
use crate::ascii::{BEL, ESC, RIGHT_BRACKET, SEMICOLON};
use crate::osc_extractor::{
    complete_write, extract_run, extract_start, lemma_complete_write_comes_out, payload,
    with_target, write_start,
};
use crate::strings::{lemma_text_without_blanks, split_words, trim, trimmed, white, words};
use crate::text::{ascii, lemma_ascii_is_utf8};
use base64::prelude::{Engine, BASE64_STANDARD};
use iroh::{PublicKey, SecretKey};
use vstd::arithmetic::div_mod::lemma_fundamental_div_mod_converse;
use vstd::prelude::*;
use vstd::string::*;
use vstd::utf8::*;

verus! {

/// The public key that belongs to a secret key of 32 bytes.
pub uninterp spec fn ed25519_public(secret: Seq<u8>) -> Seq<u8>;

/// Whether 32 bytes stand for a point of the curve.
pub uninterp spec fn is_point(bytes: Seq<u8>) -> bool;

/// The public key that a text stands for which is not 32 bytes in lower case hexadecimal.
pub uninterp spec fn other_key(text: Seq<char>) -> Option<Seq<u8>>;

/// Whether the bytes are a public key: there are 32, and they stand for a point of the curve.
pub open spec fn is_public_key(bytes: Seq<u8>) -> bool {
    bytes.len() == 32 && is_point(bytes)
}

/// Whether a text is 32 bytes in lower case hexadecimal.
pub open spec fn is_hex_key(text: Seq<char>) -> bool {
    text.len() == 64 && text == hex_text(hex_bytes(text)) && is_hex(text)
}

/// The public key that a text stands for, if it stands for one.
pub open spec fn parsed_key(text: Seq<char>) -> Option<Seq<u8>> {
    if !is_hex_key(text) {
        other_key(text)
    } else if is_public_key(hex_bytes(text)) {
        Some(hex_bytes(text))
    } else {
        None
    }
}

/// A digit of the base64 alphabet.
pub open spec fn base64_digit(v: int) -> char {
    if v < 26 {
        (65 + v) as char
    } else if v < 52 {
        (97 + v - 26) as char
    } else if v < 62 {
        (48 + v - 52) as char
    } else if v == 62 {
        '+'
    } else {
        '/'
    }
}

/// Bytes in base64: four digits for three bytes, with equals signs where bytes are missing.
pub open spec fn base64_text(b: Seq<u8>) -> Seq<char>
    decreases b.len(),
{
    if b.len() == 0 {
        Seq::empty()
    } else if b.len() == 1 {
        seq![base64_digit(b[0] as int / 4), base64_digit((b[0] % 4) * 16), '=', '=']
    } else if b.len() == 2 {
        seq![
            base64_digit(b[0] as int / 4),
            base64_digit((b[0] % 4) * 16 + b[1] / 16),
            base64_digit((b[1] % 16) * 4),
            '=',
        ]
    } else {
        seq![
            base64_digit(b[0] as int / 4),
            base64_digit((b[0] % 4) * 16 + b[1] / 16),
            base64_digit((b[1] % 16) * 4 + b[2] / 64),
            base64_digit(b[2] as int % 64),
        ] + base64_text(b.skip(3))
    }
}

/// A lower case hexadecimal digit.
pub open spec fn hex_digit(v: int) -> char {
    if v < 10 {
        (48 + v) as char
    } else {
        (97 + v - 10) as char
    }
}

/// The value of a hexadecimal digit, in lower or upper case.
pub open spec fn hex_value(c: char) -> Option<int> {
    if '0' <= c <= '9' {
        Some(c as int - 48)
    } else if 'a' <= c <= 'f' {
        Some(c as int - 97 + 10)
    } else if 'A' <= c <= 'F' {
        Some(c as int - 65 + 10)
    } else {
        None
    }
}

/// Bytes in hexadecimal: two digits for each.
pub open spec fn hex_text(b: Seq<u8>) -> Seq<char> {
    Seq::new(
        2 * b.len(),
        |i: int|
            if i % 2 == 0 {
                hex_digit(b[i / 2] as int / 16)
            } else {
                hex_digit(b[i / 2] as int % 16)
            },
    )
}

/// Whether a text is bytes in hexadecimal.
pub open spec fn is_hex(s: Seq<char>) -> bool {
    s.len() % 2 == 0 && forall|i: int| 0 <= i < s.len() ==> hex_value(#[trigger] s[i]) is Some
}

/// The bytes that a text in hexadecimal stands for.
pub open spec fn hex_bytes(s: Seq<char>) -> Seq<u8> {
    Seq::new(
        s.len() / 2,
        |i: int| (hex_value(s[2 * i])->Some_0 * 16 + hex_value(s[2 * i + 1])->Some_0) as u8,
    )
}

/// `BASE64_STANDARD.encode` writes bytes in base64, with equals signs at the end.
#[verifier::external_body]
fn base64_encode(bytes: &[u8]) -> (r: String)
    ensures
        r@ == base64_text(bytes@),
{
    BASE64_STANDARD.encode(bytes)
}

/// `hex::encode` writes bytes in lower case hexadecimal.
#[verifier::external_body]
fn hex_encode(bytes: &[u8]) -> (r: String)
    ensures
        r@ == hex_text(bytes@),
{
    hex::encode(bytes)
}

/// `hex::decode` reads bytes in hexadecimal, lower or upper case, an even number of digits and
/// nothing else.
#[verifier::external_body]
fn hex_decode(s: &str) -> (r: Option<Vec<u8>>)
    ensures
        r is Some <==> is_hex(s@),
        r matches Some(bytes) ==> bytes@ == hex_bytes(s@),
{
    hex::decode(s).ok()
}

/// `SecretKey::try_from` takes 32 bytes, all of which make a key; `SecretKey::public` gives the public
/// key, which is one; `Display` writes it in lower case hexadecimal.
#[verifier::external_body]
fn public_key_text(secret: &[u8]) -> (r: Option<String>)
    ensures
        r is Some <==> secret@.len() == 32,
        r matches Some(text) ==> {
            &&& text@ == hex_text(ed25519_public(secret@))
            &&& ed25519_public(secret@).len() == 32
            &&& is_point(ed25519_public(secret@))
        },
{
    let key = SecretKey::try_from(secret).ok()?;
    Some(key.public().to_string())
}

/// `SecretKey::generate` makes 32 bytes by chance. Nothing can be said of them.
#[verifier::external_body]
fn generate_secret() -> (r: [u8; 32]) {
    SecretKey::generate().to_bytes()
}

/// `PublicKey::from_str` reads a public key. Lower case hexadecimal of 32 bytes is read as these
/// bytes, if they are a public key. Left unsaid: which other texts are read, namely base32.
#[verifier::external_body]
fn read_public_key(text: &str) -> (r: Option<[u8; 32]>)
    ensures
        is_hex_key(text@) ==> (r is Some <==> is_public_key(hex_bytes(text@))),
        is_hex_key(text@) ==> (r matches Some(key) ==> key@ == hex_bytes(text@)),
        !is_hex_key(text@) ==> (r is Some <==> other_key(text@) is Some),
        !is_hex_key(text@) ==> (r matches Some(key) ==> Some(key@) == other_key(text@)),
        r matches Some(key) ==> is_public_key(key@),
{
    let key: PublicKey = text.parse().ok()?;
    Some(*key.as_bytes())
}

/// `PublicKey::try_from` takes the 32 bytes of a public key as they are.
#[verifier::external_body]
pub(crate) fn public_key_of(bytes: &[u8]) -> (r: Option<[u8; 32]>)
    ensures
        r is Some <==> (bytes@.len() == 32 && is_point(bytes@)),
        r matches Some(key) ==> key@ == bytes@,
{
    let key = PublicKey::try_from(bytes).ok()?;
    Some(*key.as_bytes())
}

/// Why a key is refused.
#[derive(Debug, Clone, Copy, PartialEq, Eq, Structural)]
pub enum KeyError {
    /// The text is not in hexadecimal.
    InvalidHex,
    /// A secret key has 32 bytes.
    InvalidSecretKey,
    /// The text is no public key.
    InvalidPublicKey,
}

/// The clipboard write that copies the given bytes.
pub open spec fn clipboard_copy(bytes: Seq<u8>) -> Seq<u8> {
    seq![ESC, RIGHT_BRACKET, 0x35, 0x32, SEMICOLON, 0x63, SEMICOLON] + ascii(base64_text(bytes))
        + seq![BEL]
}

proof fn lemma_base64_digit(v: int)
    requires
        0 <= v < 64,
    ensures
        '+' <= base64_digit(v) <= 'z',
{
}

proof fn lemma_base64_alphabet(b: Seq<u8>)
    ensures
        forall|i: int|
            0 <= i < base64_text(b).len() ==> '+' <= #[trigger] base64_text(b)[i] <= 'z',
    decreases b.len(),
{
    if b.len() >= 1 {
        lemma_base64_digit(b[0] as int / 4);
        lemma_base64_digit((b[0] % 4) * 16);
    }
    if b.len() >= 2 {
        lemma_base64_digit((b[0] % 4) * 16 + b[1] / 16);
        lemma_base64_digit((b[1] % 16) * 4);
    }
    if b.len() >= 3 {
        lemma_base64_digit((b[1] % 16) * 4 + b[2] / 64);
        lemma_base64_digit(b[2] as int % 64);
        let rest = base64_text(b.skip(3));
        lemma_base64_alphabet(b.skip(3));
        assert forall|i: int| 4 <= i < base64_text(b).len() implies #[trigger] base64_text(b)[i]
            == rest[i - 4] by {}
    }
}

/// The clipboard write that copies the given bytes. Written to the terminal, it reaches the
/// clipboard of whoever looks at it.
pub fn copy_to_osc52(input: &[u8]) -> (r: Vec<u8>)
    ensures
        r@ == clipboard_copy(input@),
{
    let text: String = base64_encode(input);
    let mut out: Vec<u8> = vec![ESC, RIGHT_BRACKET, 0x35, 0x32, SEMICOLON, 0x63, SEMICOLON];
    proof {
        lemma_base64_alphabet(input@);
        lemma_ascii_is_utf8(text@);
    }
    out.extend_from_slice(text.as_str().as_bytes());
    out.push(BEL);
    assert(out@ =~= clipboard_copy(input@));
    out
}

/// The public key that belongs to a secret key. Both are in hexadecimal, and white space around the
/// secret key does not count.
pub fn gen_public_key(input: &str) -> (r: Result<String, KeyError>)
    ensures
        match r {
            Ok(text) => is_hex(trimmed(input@)) && hex_bytes(trimmed(input@)).len() == 32 && text@
                == hex_text(ed25519_public(hex_bytes(trimmed(input@)))) && is_public_key(
                ed25519_public(hex_bytes(trimmed(input@))),
            ),
            Err(KeyError::InvalidHex) => !is_hex(trimmed(input@)),
            Err(KeyError::InvalidSecretKey) => is_hex(trimmed(input@)) && hex_bytes(
                trimmed(input@),
            ).len() != 32,
            Err(KeyError::InvalidPublicKey) => false,
        },
{
    let text: String = trim(input);
    match hex_decode(text.as_str()) {
        Some(bytes) => match public_key_text(bytes.as_slice()) {
            Some(key) => Ok(key),
            None => Err(KeyError::InvalidSecretKey),
        },
        None => Err(KeyError::InvalidHex),
    }
}

/// A secret key in hexadecimal.
pub fn secret_key_text(secret: &[u8; 32]) -> (r: String)
    ensures
        r@ == hex_text(secret@),
{
    hex_encode(secret)
}

/// A new secret key, in hexadecimal.
pub fn gen_secret_key() -> (r: String)
    ensures
        exists|secret: [u8; 32]| r@ == #[trigger] hex_text(secret@),
{
    let secret: [u8; 32] = generate_secret();
    secret_key_text(&secret)
}

/// The public keys in a text, with white space between them.
pub fn parse_public_keys(contents: &str) -> (r: Result<Vec<[u8; 32]>, KeyError>)
    ensures
        match r {
            Ok(keys) => {
                &&& keys@.len() == words(contents@, 0).len()
                &&& forall|i: int|
                    0 <= i < keys@.len() ==> Some((#[trigger] keys@[i])@) == parsed_key(
                        words(contents@, 0)[i],
                    ) && is_public_key(keys@[i]@)
            },
            Err(e) => e == KeyError::InvalidPublicKey && exists|i: int|
                0 <= i < words(contents@, 0).len() && parsed_key(
                    #[trigger] words(contents@, 0)[i],
                ) is None,
        },
{
    let texts: Vec<String> = split_words(contents);
    let ghost list = words(contents@, 0);
    let mut keys: Vec<[u8; 32]> = Vec::new();
    let n: usize = texts.len();
    let mut i: usize = 0;
    while i < n
        invariant
            i <= n,
            n == texts@.len(),
            list == words(contents@, 0),
            texts@.map_values(|w: String| w@) == list,
            keys@.len() == i,
            forall|j: int|
                0 <= j < i ==> Some((#[trigger] keys@[j])@) == parsed_key(list[j])
                    && is_public_key(keys@[j]@),
        decreases n - i,
    {
        assert(list[i as int] == texts@[i as int]@);
        match read_public_key(texts[i].as_str()) {
            Some(key) => {
                keys.push(key);
            },
            None => {
                return Err(KeyError::InvalidPublicKey);
            },
        }
        i += 1;
    }
    Ok(keys)
}

proof fn lemma_plain_payload(p: Seq<u8>)
    requires
        forall|i: int| 0 <= i < p.len() ==> #[trigger] p[i] != BEL && p[i] != ESC,
    ensures
        payload(p) == Some(false),
    decreases p.len(),
{
    if p.len() > 0 {
        lemma_plain_payload(p.drop_last());
    }
}

/// What is copied reaches the other end: the clipboard write comes out of the extractor unchanged.
pub proof fn lemma_copy_comes_through(bytes: Seq<u8>)
    ensures
        extract_run(extract_start(), clipboard_copy(bytes)) == (
            extract_start(),
            clipboard_copy(bytes),
        ),
{
    let w = clipboard_copy(bytes);
    let p = w.subrange(5, w.len() - 1);
    let text = base64_text(bytes);
    lemma_base64_alphabet(bytes);
    assert(p =~= seq![0x63u8, SEMICOLON] + ascii(text));
    assert forall|i: int| 0 <= i < p.len() implies #[trigger] p[i] != BEL && p[i] != ESC by {
        if i >= 2 {
            assert(p[i] == text[i - 2] as u8);
            assert('+' <= text[i - 2] <= 'z');
        }
    }
    lemma_plain_payload(p);
    assert(w.take(5) =~= write_start());
    assert(complete_write(w));
    lemma_complete_write_comes_out(w);
    assert(w[5] == 0x63);
    assert((write_start() + seq![SEMICOLON])[5] == SEMICOLON);
    assert(with_target(w) == w);
}

proof fn lemma_hex_digit(v: int)
    requires
        0 <= v < 16,
    ensures
        hex_value(hex_digit(v)) == Some(v),
        '0' <= hex_digit(v) <= 'f',
{
}

/// Bytes written in hexadecimal are read back as they were.
pub proof fn lemma_hex_round_trip(b: Seq<u8>)
    ensures
        is_hex(hex_text(b)),
        hex_bytes(hex_text(b)) == b,
{
    let s = hex_text(b);
    assert forall|i: int| 0 <= i < s.len() implies hex_value(#[trigger] s[i]) is Some by {
        lemma_hex_digit(b[i / 2] as int / 16);
        lemma_hex_digit(b[i / 2] as int % 16);
    }
    assert forall|i: int| 0 <= i < b.len() implies hex_bytes(s)[i] == b[i] by {
        lemma_hex_digit(b[i] as int / 16);
        lemma_hex_digit(b[i] as int % 16);
        assert((2 * i) / 2 == i && (2 * i + 1) / 2 == i);
        assert((2 * i) % 2 == 0 && (2 * i + 1) % 2 == 1);
        assert(s[2 * i] == hex_digit(b[i] as int / 16));
        assert(s[2 * i + 1] == hex_digit(b[i] as int % 16));
    }
    assert(hex_bytes(s) =~= b);
}

proof fn lemma_hex_has_no_blanks(b: Seq<u8>)
    ensures
        forall|i: int| 0 <= i < hex_text(b).len() ==> !white(#[trigger] hex_text(b)[i]),
{
    let s = hex_text(b);
    assert forall|i: int| 0 <= i < s.len() implies !white(#[trigger] s[i]) by {
        lemma_hex_digit(b[i / 2] as int / 16);
        lemma_hex_digit(b[i / 2] as int % 16);
    }
}

/// A secret key that was generated is taken: its public key can be asked for.
pub proof fn lemma_generated_secret_is_taken(secret: Seq<u8>)
    requires
        secret.len() == 32,
    ensures
        is_hex(trimmed(hex_text(secret))),
        hex_bytes(trimmed(hex_text(secret))) == secret,
{
    lemma_hex_has_no_blanks(secret);
    lemma_text_without_blanks(hex_text(secret));
    lemma_hex_round_trip(secret);
}

/// A public key that was written out is read back as it was, also from a list of keys.
pub proof fn lemma_written_key_is_read_back(key: Seq<u8>)
    requires
        is_public_key(key),
    ensures
        parsed_key(hex_text(key)) == Some(key),
        words(hex_text(key), 0) == seq![hex_text(key)],
{
    lemma_hex_has_no_blanks(key);
    lemma_text_without_blanks(hex_text(key));
    lemma_hex_round_trip(key);
}

/// The value of a digit of base64.
pub open spec fn base64_value(digit: u8) -> int {
    if 65 <= digit <= 90 {
        digit - 65
    } else if 97 <= digit <= 122 {
        digit - 97 + 26
    } else if 48 <= digit <= 57 {
        digit - 48 + 52
    } else if digit == 43 {
        62
    } else {
        63
    }
}

/// The bytes that digits of base64 stand for: each four digits are three bytes, or one or two where
/// they end with equals signs.
pub open spec fn base64_bytes(digits: Seq<u8>) -> Seq<u8>
    decreases digits.len(),
{
    if digits.len() < 4 {
        Seq::empty()
    } else {
        let group = base64_value(digits[0]) * 0x40000 + base64_value(digits[1]) * 0x1000
            + base64_value(digits[2]) * 0x40 + base64_value(digits[3]);
        let first = (group / 0x10000) as u8;
        let second = (group / 0x100 % 0x100) as u8;
        let third = (group % 0x100) as u8;
        if digits[2] == 61 {
            seq![first]
        } else if digits[3] == 61 {
            seq![first, second]
        } else {
            seq![first, second, third] + base64_bytes(digits.skip(4))
        }
    }
}

proof fn lemma_base64_digit_reads_back(v: int)
    requires
        0 <= v < 64,
    ensures
        base64_value(base64_digit(v) as u8) == v,
        base64_digit(v) as u8 != 61,
{
}

/// Four digits hold three bytes.
proof fn lemma_base64_group(x: u8, y: u8, z: u8)
    ensures
        ({
            let group = (x as int / 4) * 0x40000 + ((x % 4) * 16 + y / 16) * 0x1000 + ((y % 16) * 4
                + z / 64) * 0x40 + (z as int % 64);
            &&& group == x * 0x10000 + y * 0x100 + z
            &&& group / 0x10000 == x
            &&& group / 0x100 % 0x100 == y
            &&& group % 0x100 == z
        }),
{
    let (x, y, z) = (x as int, y as int, z as int);
    let (a, b) = (x / 4, x % 4);
    let (c, d) = (y / 16, y % 16);
    let (e, f) = (z / 64, z % 64);
    assert(x == 4 * a + b && y == 16 * c + d && z == 64 * e + f);
    let group = a * 0x40000 + (b * 16 + c) * 0x1000 + (d * 4 + e) * 0x40 + f;
    assert(group == x * 0x10000 + y * 0x100 + z);
    lemma_fundamental_div_mod_converse(group, 0x10000, x, y * 0x100 + z);
    lemma_fundamental_div_mod_converse(group, 0x100, x * 0x100 + y, z);
    lemma_fundamental_div_mod_converse(x * 0x100 + y, 0x100, x, y);
}

proof fn lemma_base64_start(b: Seq<u8>, y: u8, z: u8, s: Seq<u8>)
    requires
        b.len() >= 1,
        s.len() >= 4,
        s[0] == base64_digit(b[0] as int / 4) as u8,
        s[1] == base64_digit((b[0] % 4) * 16 + y / 16) as u8,
        s[2] == base64_digit((y % 16) * 4 + z / 64) as u8 || s[2] == 61 && y == 0 && z == 0,
        s[3] == base64_digit(z as int % 64) as u8 || s[3] == 61 && z == 0,
        s[2] == 61 ==> s[3] == 61,
    ensures
        base64_bytes(s) == (if s[2] == 61 {
            seq![b[0]]
        } else if s[3] == 61 {
            seq![b[0], y]
        } else {
            seq![b[0], y, z] + base64_bytes(s.skip(4))
        }),
{
    lemma_base64_digit_reads_back(b[0] as int / 4);
    lemma_base64_digit_reads_back((b[0] % 4) * 16 + y / 16);
    lemma_base64_digit_reads_back((y % 16) * 4 + z / 64);
    lemma_base64_digit_reads_back(z as int % 64);
    lemma_base64_group(b[0], y, z);
    let third = if s[2] == 61 {
        63
    } else {
        (y % 16) * 4 + z / 64
    };
    let fourth = if s[3] == 61 {
        63
    } else {
        z as int % 64
    };
    assert(base64_value(s[2]) == third);
    assert(base64_value(s[3]) == fourth);
}

proof fn lemma_base64_reads_back(b: Seq<u8>)
    ensures
        base64_bytes(ascii(base64_text(b))) == b,
    decreases b.len(),
{
    let s = ascii(base64_text(b));
    if b.len() == 0 {
        assert(base64_bytes(s) =~= b);
    } else if b.len() == 1 {
        lemma_base64_start(b, 0, 0, s);
        assert(base64_bytes(s) =~= b);
    } else if b.len() == 2 {
        lemma_base64_digit_reads_back((b[1] % 16) * 4);
        lemma_base64_start(b, b[1], 0, s);
        assert(base64_bytes(s) =~= b);
    } else {
        lemma_base64_digit_reads_back((b[1] % 16) * 4 + b[2] / 64);
        lemma_base64_digit_reads_back(b[2] as int % 64);
        lemma_base64_start(b, b[1], b[2], s);
        lemma_base64_reads_back(b.skip(3));
        assert(s.skip(4) =~= ascii(base64_text(b.skip(3))));
        assert(base64_bytes(s) =~= b);
    }
}

/// A copy holds the whole of what is copied, byte for byte: what stands between the beginning of the
/// clipboard write and the bell at its end, read as base64, is just the bytes that were copied.
pub proof fn lemma_copy_holds_all_bytes(bytes: Seq<u8>)
    ensures
        ({
            let w = clipboard_copy(bytes);
            &&& w.len() >= 8
            &&& w.take(7) == seq![0x1bu8, 0x5d, 0x35, 0x32, 0x3b, 0x63, 0x3b]
            &&& w.last() == 0x07
            &&& base64_bytes(w.subrange(7, w.len() - 1)) == bytes
            &&& forall|i: int| 1 <= i < w.len() - 1 ==> 0x20 <= #[trigger] w[i] < 0x7f
        }),
{
    let w = clipboard_copy(bytes);
    let text = base64_text(bytes);
    lemma_base64_reads_back(bytes);
    lemma_base64_alphabet(bytes);
    assert(w.subrange(7, w.len() - 1) =~= ascii(text));
    assert(w.take(7) =~= seq![0x1bu8, 0x5d, 0x35, 0x32, 0x3b, 0x63, 0x3b]);
    assert forall|i: int| 1 <= i < w.len() - 1 implies 0x20 <= #[trigger] w[i] < 0x7f by {
        if i >= 7 {
            assert(w[i] == text[i - 7] as u8);
            assert('+' <= text[i - 7] <= 'z');
        }
    }
}

/// Different inputs never give the same clipboard write.
pub proof fn lemma_copies_of_different_bytes_differ(a: Seq<u8>, b: Seq<u8>)
    requires
        a != b,
    ensures
        clipboard_copy(a) != clipboard_copy(b),
{
    lemma_copy_holds_all_bytes(a);
    lemma_copy_holds_all_bytes(b);
}

/// A text of 64 hexadecimal digits in lower case is a public key if and only if its bytes stand for a
/// point of the curve, and the key is these bytes.
pub proof fn lemma_hex_keys_are_taken_as_they_are(bytes: Seq<u8>)
    requires
        bytes.len() == 32,
    ensures
        is_public_key(bytes) <==> is_point(bytes),
        is_point(bytes) ==> parsed_key(hex_text(bytes)) == Some(bytes),
        !is_point(bytes) ==> parsed_key(hex_text(bytes)) is None,
{
    lemma_hex_round_trip(bytes);
}

/// Digits in upper case are read as those in lower case.
pub proof fn lemma_hex_in_upper_case(v: int)
    requires
        10 <= v < 16,
    ensures
        hex_value((55 + v) as char) == Some(v),
        hex_value((87 + v) as char) == Some(v),
{
}

} // verus!
