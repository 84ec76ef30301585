//! Words, blanks and letters of texts.
use crate::text::{chars_of, string_of};
use vstd::prelude::*;
use vstd::string::*;

verus! {

/// Whether a character beyond ASCII is white space.
pub uninterp spec fn wide_white(c: char) -> bool;

/// A text that is not plain ASCII, in lower case.
pub uninterp spec fn wide_lowercase(s: Seq<char>) -> Seq<char>;

/// Whether an ASCII character is white space: a blank, or one from the tab to the carriage return.
pub open spec fn ascii_white(c: char) -> bool {
    c == ' ' || '\t' <= c <= '\r'
}

/// The lower case of an ASCII letter, any other character itself.
pub open spec fn ascii_lower(c: char) -> char {
    if 'A' <= c <= 'Z' {
        ((c as int) + 32) as char
    } else {
        c
    }
}

/// Whether a text is plain ASCII.
pub open spec fn is_plain_ascii(s: Seq<char>) -> bool {
    forall|i: int| 0 <= i < s.len() ==> #[trigger] s[i] <= '\x7f'
}

/// Whether a character is white space.
pub open spec fn white(c: char) -> bool {
    if c <= '\x7f' {
        ascii_white(c)
    } else {
        wide_white(c)
    }
}

/// A text in lower case.
pub open spec fn lowercase(s: Seq<char>) -> Seq<char> {
    if is_plain_ascii(s) {
        s.map_values(|c: char| ascii_lower(c))
    } else {
        wide_lowercase(s)
    }
}

/// `char::is_whitespace` tells whether a character is white space, which for ASCII are six
/// characters.
pub assume_specification[ char::is_whitespace ](c: char) -> (r: bool)
    ensures
        c <= '\x7f' ==> r == ascii_white(c),
        c > '\x7f' ==> r == wide_white(c),
;

/// `str::to_lowercase` gives the text in lower case, which for ASCII changes the letters A to Z.
pub assume_specification[ str::to_lowercase ](s: &str) -> (r: String)
    ensures
        is_plain_ascii(s@) ==> r@ == s@.map_values(|c: char| ascii_lower(c)),
        !is_plain_ascii(s@) ==> r@ == wide_lowercase(s@),
;

/// The first position from `i` on that holds no white space, the end if there is none.
pub open spec fn word_start(s: Seq<char>, i: int) -> int
    decreases s.len() - i,
{
    if i >= s.len() || !white(s[i]) {
        i
    } else {
        word_start(s, i + 1)
    }
}

/// The first position from `i` on that holds white space, the end if there is none.
pub open spec fn word_end(s: Seq<char>, i: int) -> int
    decreases s.len() - i,
{
    if i >= s.len() || white(s[i]) {
        i
    } else {
        word_end(s, i + 1)
    }
}

/// The words of a text from position `i` on: what stands between white space.
pub open spec fn words(s: Seq<char>, i: int) -> Seq<Seq<char>>
    decreases s.len() - i,
{
    let from = word_start(s, i);
    let to = word_end(s, from);
    if i < 0 || from >= s.len() || to <= i || to > s.len() {
        Seq::empty()
    } else {
        seq![s.subrange(from, to)] + words(s, to)
    }
}

/// Where a text ends if white space at its end does not count.
pub open spec fn trimmed_end(s: Seq<char>, from: int, end: int) -> int
    decreases end - from,
{
    if end <= from || !white(s[end - 1]) {
        end
    } else {
        trimmed_end(s, from, end - 1)
    }
}

/// A text without white space at its ends.
pub open spec fn trimmed(s: Seq<char>) -> Seq<char> {
    let from = word_start(s, 0);
    s.subrange(from, trimmed_end(s, from, s.len() as int))
}

/// Whether a text is part of another.
pub open spec fn occurs_in(needle: Seq<char>, s: Seq<char>) -> bool {
    exists|i: int| #[trigger] occurs_at(needle, s, i)
}

/// Whether a text stands in another at position `i`.
pub open spec fn occurs_at(needle: Seq<char>, s: Seq<char>, i: int) -> bool {
    0 <= i && i + needle.len() <= s.len() && s.subrange(i, i + needle.len()) == needle
}

fn find_word_start(s: &[char], from: usize) -> (r: usize)
    requires
        from <= s@.len(),
    ensures
        r == word_start(s@, from as int),
        from <= r <= s@.len(),
{
    let n: usize = s.len();
    let mut i: usize = from;
    while i < n && s[i].is_whitespace()
        invariant
            from <= i <= n,
            n == s@.len(),
            word_start(s@, from as int) == word_start(s@, i as int),
        decreases n - i,
    {
        i += 1;
    }
    i
}

fn find_word_end(s: &[char], from: usize) -> (r: usize)
    requires
        from <= s@.len(),
    ensures
        r == word_end(s@, from as int),
        from <= r <= s@.len(),
{
    let n: usize = s.len();
    let mut i: usize = from;
    while i < n && !s[i].is_whitespace()
        invariant
            from <= i <= n,
            n == s@.len(),
            word_end(s@, from as int) == word_end(s@, i as int),
        decreases n - i,
    {
        i += 1;
    }
    i
}

/// The text without white space at its ends.
pub fn trim(s: &str) -> (r: String)
    ensures
        r@ == trimmed(s@),
{
    let chars: Vec<char> = chars_of(s);
    let from: usize = find_word_start(chars.as_slice(), 0);
    let mut end: usize = chars.len();
    while end > from && chars[end - 1].is_whitespace()
        invariant
            from <= end <= chars@.len(),
            trimmed_end(chars@, from as int, chars@.len() as int) == trimmed_end(
                chars@,
                from as int,
                end as int,
            ),
        decreases end,
    {
        end -= 1;
    }
    string_of(&chars.as_slice()[from..end])
}

/// The words of a text.
pub fn split_words(s: &str) -> (r: Vec<String>)
    ensures
        r@.map_values(|w: String| w@) == words(s@, 0),
{
    let chars: Vec<char> = chars_of(s);
    let mut out: Vec<String> = Vec::new();
    let mut from: usize = find_word_start(chars.as_slice(), 0);
    let ghost all = words(s@, 0);
    proof {
        assert(out@.map_values(|w: String| w@) =~= Seq::<Seq<char>>::empty());
        assert(Seq::<Seq<char>>::empty() + all =~= all);
        lemma_words_skip_blanks(s@, 0);
    }
    while from < chars.len()
        invariant
            from <= chars@.len(),
            chars@ == s@,
            word_start(s@, from as int) == from,
            all == words(s@, 0),
            out@.map_values(|w: String| w@) + words(s@, from as int) == all,
        decreases chars@.len() - from,
    {
        let to: usize = find_word_end(chars.as_slice(), from);
        let word: String = string_of(&chars.as_slice()[from..to]);
        let ghost before = out@.map_values(|w: String| w@);
        out.push(word);
        proof {
            let w = s@.subrange(from as int, to as int);
            lemma_word_grows(s@, from as int);
            assert(words(s@, from as int) == seq![w] + words(s@, to as int));
            assert(out@.map_values(|w: String| w@) =~= before + seq![w]);
            assert((before + seq![w]) + words(s@, to as int) =~= before + (seq![w] + words(
                s@,
                to as int,
            )));
            lemma_words_skip_blanks(s@, to as int);
        }
        from = find_word_start(chars.as_slice(), to);
    }
    proof {
        assert(words(s@, from as int) =~= Seq::<Seq<char>>::empty());
        assert(out@.map_values(|w: String| w@) =~= all);
    }
    out
}

proof fn lemma_word_start(s: Seq<char>, i: int)
    requires
        0 <= i <= s.len(),
    ensures
        i <= word_start(s, i) <= s.len(),
        word_start(s, word_start(s, i)) == word_start(s, i),
        word_start(s, i) < s.len() ==> !white(s[word_start(s, i)]),
    decreases s.len() - i,
{
    if i < s.len() && white(s[i]) {
        lemma_word_start(s, i + 1);
    }
}

proof fn lemma_word_end(s: Seq<char>, i: int)
    requires
        0 <= i <= s.len(),
    ensures
        i <= word_end(s, i) <= s.len(),
    decreases s.len() - i,
{
    if i < s.len() && !white(s[i]) {
        lemma_word_end(s, i + 1);
    }
}

proof fn lemma_word_grows(s: Seq<char>, from: int)
    requires
        0 <= from < s.len(),
        word_start(s, from) == from,
    ensures
        from < word_end(s, from) <= s.len(),
{
    lemma_word_start(s, from);
    lemma_word_end(s, from + 1);
}

proof fn lemma_words_skip_blanks(s: Seq<char>, i: int)
    requires
        0 <= i <= s.len(),
    ensures
        words(s, word_start(s, i)) == words(s, i),
{
    lemma_word_start(s, i);
    let from = word_start(s, i);
    if from < s.len() {
        lemma_word_grows(s, from);
    }
}

/// Whether two texts are the same.
pub fn same_text(a: &[char], b: &[char]) -> (r: bool)
    ensures
        r == (a@ == b@),
{
    if a.len() != b.len() {
        return false;
    }
    let n: usize = a.len();
    let mut i: usize = 0;
    while i < n
        invariant
            i <= n,
            n == a@.len(),
            n == b@.len(),
            forall|j: int| 0 <= j < i ==> a@[j] == b@[j],
        decreases n - i,
    {
        if a[i] != b[i] {
            return false;
        }
        i += 1;
    }
    assert(a@ =~= b@);
    true
}

/// Whether two strings are the same.
pub fn same_str(a: &str, b: &str) -> (r: bool)
    ensures
        r == (a@ == b@),
{
    same_text(chars_of(a).as_slice(), chars_of(b).as_slice())
}

/// Whether a string begins with another.
pub fn starts_with(s: &str, prefix: &str) -> (r: bool)
    ensures
        r == prefix@.is_prefix_of(s@),
{
    let s: Vec<char> = chars_of(s);
    let prefix: Vec<char> = chars_of(prefix);
    if s.len() < prefix.len() {
        return false;
    }
    let r: bool = same_text(&s.as_slice()[0..prefix.len()], prefix.as_slice());
    assert(s@.subrange(0, prefix@.len() as int) == prefix@ <==> prefix@.is_prefix_of(s@));
    r
}

/// Whether a string is part of another.
pub fn contains_text(s: &str, needle: &str) -> (r: bool)
    ensures
        r == occurs_in(needle@, s@),
{
    let hay: Vec<char> = chars_of(s);
    let pin: Vec<char> = chars_of(needle);
    let n: usize = hay.len();
    let k: usize = pin.len();
    let mut i: usize = 0;
    while i <= n && k <= n - i
        invariant
            i <= n + 1,
            n == hay@.len(),
            k == pin@.len(),
            hay@ == s@,
            pin@ == needle@,
            forall|j: int| 0 <= j < i ==> !#[trigger] occurs_at(needle@, s@, j),
        decreases n + 1 - i,
    {
        if same_text(&hay.as_slice()[i..i + k], pin.as_slice()) {
            assert(occurs_at(needle@, s@, i as int));
            return true;
        }
        if i == n {
            return false;
        }
        i += 1;
    }
    false
}

/// A text without white space is itself when trimmed, and, unless it is empty, its only word.
pub proof fn lemma_text_without_blanks(s: Seq<char>)
    requires
        forall|i: int| 0 <= i < s.len() ==> !white(#[trigger] s[i]),
    ensures
        trimmed(s) == s,
        s.len() > 0 ==> words(s, 0) == seq![s],
{
    if s.len() > 0 {
        assert(!white(s[0]) && !white(s[s.len() - 1]));
        lemma_one_word(s, 0);
        assert(s.subrange(0, s.len() as int) =~= s);
        assert(words(s, s.len() as int) =~= Seq::<Seq<char>>::empty());
        assert(words(s, 0) =~= seq![s]);
    }
    assert(trimmed(s) =~= s);
}

proof fn lemma_one_word(s: Seq<char>, i: int)
    requires
        0 <= i <= s.len(),
        forall|j: int| 0 <= j < s.len() ==> !white(#[trigger] s[j]),
    ensures
        word_end(s, i) == s.len(),
    decreases s.len() - i,
{
    if i < s.len() {
        assert(!white(s[i]));
        lemma_one_word(s, i + 1);
    }
}

/// A text is what is left of it when trimmed, with nothing but white space around that; and what is
/// left neither begins nor ends with white space.
pub proof fn lemma_trimming_takes_only_blanks(s: Seq<char>)
    ensures
        ({
            let t = trimmed(s);
            &&& t.len() > 0 ==> !white(t[0]) && !white(t.last())
            &&& exists|k: int|
                #![trigger s.take(k)]
                0 <= k <= s.len() - t.len() && s.subrange(k, k + t.len()) == t && (forall|i: int|
                    0 <= i < k ==> white(#[trigger] s[i])) && (forall|i: int|
                    k + t.len() <= i < s.len() ==> white(#[trigger] s[i]))
        }),
{
    let from = word_start(s, 0);
    let n = s.len() as int;
    lemma_word_start(s, 0);
    lemma_blanks_before_word(s, 0);
    lemma_trimmed_end(s, from, n);
    let end = trimmed_end(s, from, n);
    let t = trimmed(s);
    assert(t == s.subrange(from, end));
    assert(from + t.len() == end);
    assert(s.take(from).len() == from);
    if t.len() > 0 {
        assert(t[0] == s[from]);
        assert(t.last() == s[end - 1]);
    }
}

proof fn lemma_blanks_before_word(s: Seq<char>, i: int)
    requires
        0 <= i <= s.len(),
    ensures
        forall|j: int| i <= j < word_start(s, i) ==> white(#[trigger] s[j]),
    decreases s.len() - i,
{
    if i < s.len() && white(s[i]) {
        lemma_blanks_before_word(s, i + 1);
    }
}

proof fn lemma_trimmed_end(s: Seq<char>, from: int, end: int)
    requires
        0 <= from <= end <= s.len(),
    ensures
        from <= trimmed_end(s, from, end) <= end,
        forall|j: int| trimmed_end(s, from, end) <= j < end ==> white(#[trigger] s[j]),
        trimmed_end(s, from, end) > from ==> !white(s[trimmed_end(s, from, end) - 1]),
    decreases end - from,
{
    if end > from && white(s[end - 1]) {
        lemma_trimmed_end(s, from, end - 1);
    }
}

proof fn lemma_word_start_later(s: Seq<char>, i: int, j: int)
    requires
        0 <= i <= j <= s.len(),
    ensures
        word_start(s.skip(i), j - i) + i == word_start(s, j),
        word_end(s.skip(i), j - i) + i == word_end(s, j),
    decreases s.len() - j,
{
    if j < s.len() {
        assert(s.skip(i)[j - i] == s[j]);
        lemma_word_start_later(s, i, j + 1);
    }
}

proof fn lemma_words_later(s: Seq<char>, i: int, j: int)
    requires
        0 <= i <= j <= s.len(),
    ensures
        words(s, j) == words(s.skip(i), j - i),
    decreases s.len() - j,
{
    let t = s.skip(i);
    let from = word_start(s, j);
    lemma_word_start(s, j);
    lemma_word_start_later(s, i, j);
    lemma_word_start_later(s, i, from);
    if from < s.len() {
        lemma_word_grows(s, from);
        let to = word_end(s, from);
        lemma_words_later(s, i, to);
        assert(s.subrange(from, to) =~= t.subrange(from - i, to - i));
    }
}

proof fn lemma_word_ends_at_blank(s: Seq<char>, i: int, end: int)
    requires
        0 <= i <= end < s.len(),
        white(s[end]),
        forall|j: int| i <= j < end ==> !white(#[trigger] s[j]),
    ensures
        word_end(s, i) == end,
    decreases end - i,
{
    if i < end {
        assert(!white(s[i]));
        lemma_word_ends_at_blank(s, i + 1, end);
    }
}

proof fn lemma_word_starts_at_letter(s: Seq<char>, i: int, start: int)
    requires
        0 <= i <= start < s.len(),
        !white(s[start]),
        forall|j: int| i <= j < start ==> white(#[trigger] s[j]),
    ensures
        word_start(s, i) == start,
    decreases start - i,
{
    if i < start {
        assert(white(s[i]));
        lemma_word_starts_at_letter(s, i + 1, start);
    }
}

proof fn lemma_words_after_blanks(s: Seq<char>, i: int, j: int)
    requires
        0 <= i <= j <= s.len(),
        forall|k: int| i <= k < j ==> white(#[trigger] s[k]),
    ensures
        words(s, i) == words(s, j),
    decreases j - i,
{
    if i < j {
        assert(white(s[i]));
        lemma_words_after_blanks(s, i + 1, j);
        lemma_words_skip_blanks(s, i);
        lemma_words_skip_blanks(s, i + 1);
        assert(word_start(s, i) == word_start(s, i + 1));
    }
}

proof fn lemma_letters_before_end(s: Seq<char>, i: int)
    requires
        0 <= i <= s.len(),
    ensures
        forall|j: int| i <= j < word_end(s, i) ==> !white(#[trigger] s[j]),
        word_end(s, i) < s.len() ==> white(s[word_end(s, i)]),
    decreases s.len() - i,
{
    if i < s.len() && !white(s[i]) {
        lemma_letters_before_end(s, i + 1);
    }
}

/// The words of two texts with white space between them are the words of the one and then those of
/// the other.
pub proof fn lemma_words_of_two_texts(a: Seq<char>, blank: char, b: Seq<char>)
    requires
        white(blank),
    ensures
        words(a + seq![blank] + b, 0) == words(a, 0) + words(b, 0),
        words(Seq::empty(), 0) == Seq::<Seq<char>>::empty(),
    decreases a.len(),
{
    let all = a + seq![blank] + b;
    let n = a.len() as int;
    assert(all[n] == blank);
    assert(forall|j: int| 0 <= j < n ==> #[trigger] all[j] == a[j]);
    lemma_words_later(all, n + 1, n + 1);
    assert(all.skip(n + 1) =~= b);
    let from = word_start(a, 0);
    lemma_word_start(a, 0);
    lemma_blanks_before_word(a, 0);
    if from >= n {
        lemma_words_after_blanks(all, 0, n + 1);
        assert(words(a, 0) =~= Seq::<Seq<char>>::empty());
        assert(words(a, 0) + words(b, 0) =~= words(b, 0));
    } else {
        lemma_word_grows(a, from);
        let to = word_end(a, from);
        lemma_letters_before_end(a, from);
        lemma_word_starts_at_letter(all, 0, from);
        lemma_word_ends_at_blank(all, from, to);
        let w = a.subrange(from, to);
        assert(all.subrange(from, to) =~= w);
        let rest = a.skip(to);
        lemma_words_of_two_texts(rest, blank, b);
        lemma_words_later(all, to, to);
        lemma_words_later(a, to, to);
        assert(all.skip(to) =~= rest + seq![blank] + b);
        assert(words(all, 0) == seq![w] + words(all, to));
        assert(words(a, 0) == seq![w] + words(a, to));
        assert(seq![w] + (words(rest, 0) + words(b, 0)) =~= (seq![w] + words(rest, 0)) + words(
            b,
            0,
        ));
    }
}

/// A text is part of another just where the other is made of it with something before and after it.
pub proof fn lemma_part_of_a_text(needle: Seq<char>, s: Seq<char>)
    ensures
        occurs_in(needle, s) <==> exists|before: Seq<char>, after: Seq<char>|
            s == #[trigger] (before + needle + after),
{
    if occurs_in(needle, s) {
        let i = choose|i: int| #[trigger] occurs_at(needle, s, i);
        let before = s.take(i);
        let after = s.skip(i + needle.len());
        assert(s =~= before + needle + after);
    }
    if exists|before: Seq<char>, after: Seq<char>| s == #[trigger] (before + needle + after) {
        let (before, after) = choose|before: Seq<char>, after: Seq<char>|
            s == #[trigger] (before + needle + after);
        let i = before.len() as int;
        assert(s.subrange(i, i + needle.len()) =~= needle);
        assert(occurs_at(needle, s, i));
    }
}

/// In lower case, a plain text has the same length, each of the letters A to Z has become the small
/// one, and every other character is the same.
pub proof fn lemma_lower_case_of_plain_text(s: Seq<char>, i: int)
    requires
        forall|j: int| 0 <= j < s.len() ==> #[trigger] s[j] <= '\x7f',
        0 <= i < s.len(),
    ensures
        lowercase(s).len() == s.len(),
        'A' <= s[i] <= 'Z' ==> lowercase(s)[i] as int == s[i] as int + 32,
        !('A' <= s[i] <= 'Z') ==> lowercase(s)[i] == s[i],
{
    lemma_small_letter(s[i]);
}

proof fn lemma_small_letter(c: char)
    ensures
        'A' <= c <= 'Z' ==> ascii_lower(c) as int == c as int + 32,
        !('A' <= c <= 'Z') ==> ascii_lower(c) == c,
{
}

} // verus!
