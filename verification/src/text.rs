//! Text handled as sequences of characters.
//!
//! Every function that reads a `str` states its result over the character
//! sequence that the string holds, so callers reason about text without
//! going through its encoding.
use vstd::prelude::*;
use vstd::utf8::{decode_utf8, encode_utf8, valid_utf8};

verus! {

broadcast use vstd::string::group_string_axioms;

/// `String::push` of std: the character is added at the end.
pub assume_specification[ String::push ](text: &mut String, c: char)
    ensures
        final(text)@ == old(text)@.push(c),
;

/// `String::push_str` of std: the slice is added at the end.
pub assume_specification[ String::push_str ](text: &mut String, tail: &str)
    ensures
        final(text)@ == old(text)@ + tail@,
;

/// The text of bytes, with U+FFFD in the place of what is no UTF-8.
pub uninterp spec fn utf8_lossy(bytes: Seq<u8>) -> Seq<char>;

/// `String::from_utf8_lossy` of std: the result is determined by the bytes alone, and
/// bytes that are UTF-8 give the text that they encode. How many replacement
/// characters stand for a run of other bytes is not stated.
#[verifier::external_body]
pub(crate) fn lossy_text(bytes: &Vec<u8>) -> (r: String)
    ensures
        r@ == utf8_lossy(bytes@),
        valid_utf8(bytes@) ==> encode_utf8(r@) == bytes@,
{
    String::from_utf8_lossy(bytes).into_owned()
}

/// The text of a string with quotes and escapes, as `Debug` of `str` writes it.
pub uninterp spec fn debug_text(text: Seq<char>) -> Seq<char>;

/// `Debug` of std's `str`: the result is determined by the characters alone. What
/// is escaped and how is not stated.
#[verifier::external_body]
pub(crate) fn quoted(text: &str) -> (r: String)
    ensures
        r@ == debug_text(text@),
{
    format!("{:?}", text)
}

/// `str::from_utf8` of std: bytes that are UTF-8 give the text that they encode,
/// others give nothing.
#[verifier::external_body]
pub(crate) fn utf8_text(bytes: &Vec<u8>) -> (r: Option<String>)
    ensures
        r is Some <==> valid_utf8(bytes@),
        r matches Some(text) ==> text@ == decode_utf8(bytes@),
{
    match std::str::from_utf8(bytes) {
        Ok(text) => Some(text.to_owned()),
        Err(_) => None,
    }
}

// ---------------------------------------------------------------------------
// Character classes
// ---------------------------------------------------------------------------

/// The code points with the Unicode property `White_Space`.
pub open spec fn is_white(c: char) -> bool {
    ||| '\u{9}' <= c <= '\u{d}'
    ||| c == '\u{20}'
    ||| c == '\u{85}'
    ||| c == '\u{a0}'
    ||| c == '\u{1680}'
    ||| '\u{2000}' <= c <= '\u{200a}'
    ||| c == '\u{2028}'
    ||| c == '\u{2029}'
    ||| c == '\u{202f}'
    ||| c == '\u{205f}'
    ||| c == '\u{3000}'
}

pub fn is_whitespace(c: char) -> (r: bool)
    ensures
        r == is_white(c),
{
    ('\u{9}' <= c && c <= '\u{d}') || c == '\u{20}' || c == '\u{85}' || c == '\u{a0}' || c
        == '\u{1680}' || ('\u{2000}' <= c && c <= '\u{200a}') || c == '\u{2028}' || c == '\u{2029}'
        || c == '\u{202f}' || c == '\u{205f}' || c == '\u{3000}'
}

pub open spec fn is_digit(c: char) -> bool {
    '0' <= c <= '9'
}

/// ASCII letters and digits.
pub open spec fn is_alnum(c: char) -> bool {
    is_digit(c) || 'a' <= c <= 'z' || 'A' <= c <= 'Z'
}

pub fn is_ascii_alnum(c: char) -> (r: bool)
    ensures
        r == is_alnum(c),
{
    ('0' <= c && c <= '9') || ('a' <= c && c <= 'z') || ('A' <= c && c <= 'Z')
}

/// The ASCII lower-case form; other characters stay as they are.
pub open spec fn lower(c: char) -> char {
    if 'A' <= c <= 'Z' {
        ((c as u32) + 32) as char
    } else {
        c
    }
}

pub open spec fn lowered(s: Seq<char>) -> Seq<char> {
    s.map_values(|c: char| lower(c))
}

// ---------------------------------------------------------------------------
// Reading and building strings
// ---------------------------------------------------------------------------

/// The characters of a string in order.
pub fn chars_of(text: &str) -> (r: Vec<char>)
    ensures
        r@ == text@,
{
    let mut r: Vec<char> = Vec::new();
    for c in it: text.chars()
        invariant
            r@ == it.seq().take(it.index() as int),
            it.seq() == text@,
    {
        r.push(c);
        assert(r@ =~= it.seq().take(it.index() + 1));
    }
    r
}

/// The characters `from..to` of `chars` as a string.
pub fn text_between(chars: &Vec<char>, from: usize, to: usize) -> (r: String)
    requires
        from <= to <= chars@.len(),
    ensures
        r@ == chars@.subrange(from as int, to as int),
{
    let mut r = String::new();
    let mut i: usize = from;
    while i < to
        invariant
            from <= i <= to <= chars@.len(),
            r@ == chars@.subrange(from as int, i as int),
        decreases to - i,
    {
        r.push(chars[i]);
        i = i + 1;
        assert(r@ =~= chars@.subrange(from as int, i as int));
    }
    r
}

/// Whether two strings hold the same characters.
pub fn same_text(a: &str, b: &str) -> (r: bool)
    ensures
        r == (a@ == b@),
{
    let x = chars_of(a);
    let y = chars_of(b);
    if x.len() != y.len() {
        return false;
    }
    let mut i: usize = 0;
    while i < x.len()
        invariant
            i <= x@.len(),
            x@.len() == y@.len(),
            x@ == a@,
            y@ == b@,
            x@.take(i as int) == y@.take(i as int),
        decreases x@.len() - i,
    {
        if x[i] != y[i] {
            return false;
        }
        assert(x@.take(i + 1) =~= x@.take(i as int).push(x@[i as int]));
        assert(y@.take(i + 1) =~= y@.take(i as int).push(y@[i as int]));
        i = i + 1;
    }
    assert(x@.take(i as int) =~= x@);
    assert(y@.take(i as int) =~= y@);
    true
}

pub fn concat2(a: &str, b: &str) -> (r: String)
    ensures
        r@ == a@ + b@,
{
    let mut r = a.to_owned();
    r.push_str(b);
    r
}

pub fn concat3(a: &str, b: &str, c: &str) -> (r: String)
    ensures
        r@ == a@ + b@ + c@,
{
    let mut r = a.to_owned();
    r.push_str(b);
    r.push_str(c);
    r
}

pub fn concat4(a: &str, b: &str, c: &str, d: &str) -> (r: String)
    ensures
        r@ == a@ + b@ + c@ + d@,
{
    let mut r = concat3(a, b, c);
    r.push_str(d);
    r
}

pub fn concat5(a: &str, b: &str, c: &str, d: &str, e: &str) -> (r: String)
    ensures
        r@ == a@ + b@ + c@ + d@ + e@,
{
    let mut r = concat4(a, b, c, d);
    r.push_str(e);
    r
}

/// The number of bytes of the UTF-8 form.
pub open spec fn byte_len(s: Seq<char>) -> nat {
    vstd::utf8::encode_utf8(s).len()
}

pub fn bytes_in(text: &str) -> (r: usize)
    ensures
        r == byte_len(text@),
{
    text.as_bytes().len()
}

// ---------------------------------------------------------------------------
// Trimming
// ---------------------------------------------------------------------------

/// Every character is white space; the empty text is blank too.
pub open spec fn blank(s: Seq<char>) -> bool {
    forall|i: int| 0 <= i < s.len() ==> is_white(#[trigger] s[i])
}

/// `s` without its leading white space.
pub open spec fn trimmed_start(s: Seq<char>) -> Seq<char>
    decreases s.len(),
{
    if s.len() > 0 && is_white(s[0]) {
        trimmed_start(s.subrange(1, s.len() as int))
    } else {
        s
    }
}

/// `s` without its trailing white space.
pub open spec fn trimmed_end(s: Seq<char>) -> Seq<char>
    decreases s.len(),
{
    if s.len() > 0 && is_white(s[s.len() - 1]) {
        trimmed_end(s.subrange(0, s.len() - 1))
    } else {
        s
    }
}

/// `s` without the white space around it.
pub open spec fn trimmed(s: Seq<char>) -> Seq<char> {
    trimmed_end(trimmed_start(s))
}

proof fn lemma_trimmed_start_at(s: Seq<char>, k: int)
    requires
        0 <= k <= s.len(),
        forall|i: int| 0 <= i < k ==> is_white(#[trigger] s[i]),
        k < s.len() ==> !is_white(s[k]),
    ensures
        trimmed_start(s) == s.subrange(k, s.len() as int),
    decreases k,
{
    if k > 0 {
        let t = s.subrange(1, s.len() as int);
        assert forall|i: int| 0 <= i < k - 1 implies is_white(#[trigger] t[i]) by {
            assert(t[i] == s[i + 1]);
        }
        lemma_trimmed_start_at(t, k - 1);
        assert(t.subrange(k - 1, t.len() as int) =~= s.subrange(k, s.len() as int));
    } else {
        assert(s.subrange(0, s.len() as int) =~= s);
    }
}

proof fn lemma_trimmed_end_at(s: Seq<char>, k: int)
    requires
        0 <= k <= s.len(),
        forall|i: int| k <= i < s.len() ==> is_white(#[trigger] s[i]),
        k > 0 ==> !is_white(s[k - 1]),
    ensures
        trimmed_end(s) == s.subrange(0, k),
    decreases s.len() - k,
{
    if k < s.len() {
        let t = s.subrange(0, s.len() - 1);
        lemma_trimmed_end_at(t, k);
        assert(t.subrange(0, k) =~= s.subrange(0, k));
    } else {
        assert(s.subrange(0, k) =~= s);
    }
}

/// `str::trim`, computed over the characters.
pub fn trim(text: &str) -> (r: String)
    ensures
        r@ == trimmed(text@),
{
    let chars = chars_of(text);
    let mut from: usize = 0;
    while from < chars.len() && is_whitespace(chars[from])
        invariant
            from <= chars@.len(),
            forall|i: int| 0 <= i < from ==> is_white(#[trigger] chars@[i]),
        decreases chars@.len() - from,
    {
        from = from + 1;
    }
    let mut to: usize = chars.len();
    while to > from && is_whitespace(chars[to - 1])
        invariant
            from <= to <= chars@.len(),
            forall|i: int| to <= i < chars@.len() ==> is_white(#[trigger] chars@[i]),
        decreases to - from,
    {
        to = to - 1;
    }
    proof {
        lemma_trimmed_start_at(chars@, from as int);
        let t = trimmed_start(chars@);
        assert forall|i: int| to - from <= i < t.len() implies is_white(#[trigger] t[i]) by {
            assert(t[i] == chars@[i + from]);
        }
        lemma_trimmed_end_at(t, to - from);
        assert(t.subrange(0, to - from) =~= chars@.subrange(from as int, to as int));
    }
    text_between(&chars, from, to)
}

/// `str::trim_start`, computed over the characters.
pub fn trim_start(text: &str) -> (r: String)
    ensures
        r@ == trimmed_start(text@),
{
    let chars = chars_of(text);
    let mut from: usize = 0;
    while from < chars.len() && is_whitespace(chars[from])
        invariant
            from <= chars@.len(),
            forall|i: int| 0 <= i < from ==> is_white(#[trigger] chars@[i]),
        decreases chars@.len() - from,
    {
        from = from + 1;
    }
    proof {
        lemma_trimmed_start_at(chars@, from as int);
    }
    text_between(&chars, from, chars.len())
}

/// `s` without the run of `c` at its end.
pub open spec fn without_trailing(s: Seq<char>, c: char) -> Seq<char>
    decreases s.len(),
{
    if s.len() > 0 && s[s.len() - 1] == c {
        without_trailing(s.subrange(0, s.len() - 1), c)
    } else {
        s
    }
}

/// `str::trim_end_matches` for a character.
pub fn trim_trailing(text: &str, c: char) -> (r: String)
    ensures
        r@ == without_trailing(text@, c),
{
    let chars = chars_of(text);
    let mut to: usize = chars.len();
    assert(chars@.subrange(0, chars@.len() as int) =~= chars@);
    while to > 0 && chars[to - 1] == c
        invariant
            to <= chars@.len(),
            without_trailing(text@, c) == without_trailing(chars@.subrange(0, to as int), c),
        decreases to,
    {
        assert(chars@.subrange(0, to as int).subrange(0, to - 1) =~= chars@.subrange(0, to - 1));
        to = to - 1;
    }
    text_between(&chars, 0, to)
}

/// The first `n` characters.
pub open spec fn first_chars(s: Seq<char>, n: nat) -> Seq<char> {
    if s.len() <= n {
        s
    } else {
        s.subrange(0, n as int)
    }
}

pub fn take_chars(text: &str, n: usize) -> (r: String)
    ensures
        r@ == first_chars(text@, n as nat),
{
    let chars = chars_of(text);
    if chars.len() <= n {
        assert(chars@.subrange(0, chars@.len() as int) =~= text@);
        text_between(&chars, 0, chars.len())
    } else {
        text_between(&chars, 0, n)
    }
}

pub fn is_blank(text: &str) -> (r: bool)
    ensures
        r == blank(text@),
{
    let chars = chars_of(text);
    let mut i: usize = 0;
    while i < chars.len()
        invariant
            i <= chars@.len(),
            chars@ == text@,
            forall|j: int| 0 <= j < i ==> is_white(#[trigger] chars@[j]),
        decreases chars@.len() - i,
    {
        if !is_whitespace(chars[i]) {
            assert(!is_white(text@[i as int]));
            return false;
        }
        i = i + 1;
    }
    true
}

// ---------------------------------------------------------------------------
// Case
// ---------------------------------------------------------------------------

pub fn ascii_lower(c: char) -> (r: char)
    ensures
        r == lower(c),
{
    if 'A' <= c && c <= 'Z' {
        let code: u8 = c as u8;
        (code + 32) as char
    } else {
        c
    }
}

/// `str::to_ascii_lowercase`, computed over the characters.
pub fn to_lower(text: &str) -> (r: String)
    ensures
        r@ == lowered(text@),
{
    let chars = chars_of(text);
    let mut r = String::new();
    let mut i: usize = 0;
    while i < chars.len()
        invariant
            i <= chars@.len(),
            chars@ == text@,
            r@ == lowered(chars@.take(i as int)),
        decreases chars@.len() - i,
    {
        r.push(ascii_lower(chars[i]));
        i = i + 1;
        assert(r@ =~= lowered(chars@.take(i as int)));
    }
    assert(chars@.take(i as int) =~= chars@);
    r
}

// ---------------------------------------------------------------------------
// Searching
// ---------------------------------------------------------------------------

/// `text` begins with `head`.
pub open spec fn has_prefix(text: Seq<char>, head: Seq<char>) -> bool {
    head.len() <= text.len() && text.subrange(0, head.len() as int) == head
}

pub fn starts_with(text: &str, head: &str) -> (r: bool)
    ensures
        r == has_prefix(text@, head@),
{
    let t = chars_of(text);
    let h = chars_of(head);
    if t.len() < h.len() {
        return false;
    }
    let mut i: usize = 0;
    while i < h.len()
        invariant
            i <= h@.len() <= t@.len(),
            t@ == text@,
            h@ == head@,
            forall|j: int| 0 <= j < i ==> t@[j] == h@[j],
        decreases h@.len() - i,
    {
        if t[i] != h[i] {
            assert(text@.subrange(0, head@.len() as int)[i as int] != head@[i as int]);
            return false;
        }
        i = i + 1;
    }
    assert(text@.subrange(0, head@.len() as int) =~= head@);
    true
}

/// What follows `head` in `text`, where `text` begins with it.
pub fn strip_prefix(text: &str, head: &str) -> (r: Option<String>)
    ensures
        r is Some <==> has_prefix(text@, head@),
        r matches Some(rest) ==> rest@ == text@.subrange(head@.len() as int, text@.len() as int),
{
    if starts_with(text, head) {
        let t = chars_of(text);
        let h = chars_of(head);
        Some(text_between(&t, h.len(), t.len()))
    } else {
        None
    }
}

/// The first position of `c` in `s`, or the length of `s`.
pub open spec fn first_index(s: Seq<char>, c: char) -> int
    decreases s.len(),
{
    if s.len() == 0 || s[0] == c {
        0
    } else {
        1 + first_index(s.subrange(1, s.len() as int), c)
    }
}

pub proof fn lemma_first_index(s: Seq<char>, c: char, k: int)
    requires
        0 <= k <= s.len(),
        forall|i: int| 0 <= i < k ==> #[trigger] s[i] != c,
        k < s.len() ==> s[k] == c,
    ensures
        first_index(s, c) == k,
    decreases k,
{
    if k > 0 {
        let t = s.subrange(1, s.len() as int);
        assert forall|i: int| 0 <= i < k - 1 implies #[trigger] t[i] != c by {
            assert(t[i] == s[i + 1]);
        }
        lemma_first_index(t, c, k - 1);
    }
}

/// The first position of `c` at or after `from`, or the length.
pub fn find_char(chars: &Vec<char>, from: usize, c: char) -> (r: usize)
    requires
        from <= chars@.len(),
    ensures
        from <= r <= chars@.len(),
        r == from + first_index(chars@.subrange(from as int, chars@.len() as int), c),
        forall|i: int| from <= i < r ==> #[trigger] chars@[i] != c,
        r < chars@.len() ==> chars@[r as int] == c,
{
    let mut i: usize = from;
    while i < chars.len() && chars[i] != c
        invariant
            from <= i <= chars@.len(),
            forall|j: int| from <= j < i ==> #[trigger] chars@[j] != c,
        decreases chars@.len() - i,
    {
        i = i + 1;
    }
    proof {
        let t = chars@.subrange(from as int, chars@.len() as int);
        assert forall|j: int| 0 <= j < i - from implies #[trigger] t[j] != c by {
            assert(t[j] == chars@[j + from]);
        }
        lemma_first_index(t, c, i - from);
    }
    i
}

pub fn contains_char(text: &str, c: char) -> (r: bool)
    ensures
        r == text@.contains(c),
{
    let chars = chars_of(text);
    let at: usize = find_char(&chars, 0, c);
    if at < chars.len() {
        assert(text@[at as int] == c);
        true
    } else {
        false
    }
}

/// The parts before and after the first `c` (`str::split_once` for a character).
pub open spec fn cut_once(s: Seq<char>, c: char) -> Option<(Seq<char>, Seq<char>)> {
    let k = first_index(s, c);
    if k < s.len() {
        Some((s.subrange(0, k), s.subrange(k + 1, s.len() as int)))
    } else {
        None
    }
}

pub fn split_once(text: &str, c: char) -> (r: Option<(String, String)>)
    ensures
        r is Some <==> cut_once(text@, c) is Some,
        r matches Some(parts) ==> cut_once(text@, c) == Some((parts.0@, parts.1@)),
{
    let chars = chars_of(text);
    let at: usize = find_char(&chars, 0, c);
    assert(chars@.subrange(0, chars@.len() as int) =~= text@);
    if at < chars.len() {
        Some((text_between(&chars, 0, at), text_between(&chars, at + 1, chars.len())))
    } else {
        None
    }
}

/// The pieces of `s` between the occurrences of `c` (`str::split` for a character).
pub open spec fn pieces(s: Seq<char>, c: char) -> Seq<Seq<char>>
    decreases s.len(),
{
    let k = first_index(s, c);
    if 0 <= k < s.len() {
        seq![s.subrange(0, k)] + pieces(s.subrange(k + 1, s.len() as int), c)
    } else {
        seq![s]
    }
}

/// The views of a list of strings.
pub open spec fn views(v: Seq<String>) -> Seq<Seq<char>> {
    v.map_values(|t: String| t@)
}

pub fn split_on(text: &str, c: char) -> (r: Vec<String>)
    ensures
        views(r@) == pieces(text@, c),
        r@.len() >= 1,
{
    let chars = chars_of(text);
    let mut r: Vec<String> = Vec::new();
    let mut from: usize = 0;
    assert(chars@.subrange(0, chars@.len() as int) =~= text@);
    assert(views(r@) + pieces(text@, c) =~= pieces(text@, c));
    loop
        invariant
            from <= chars@.len(),
            chars@ == text@,
            views(r@) + pieces(chars@.subrange(from as int, chars@.len() as int), c) == pieces(
                text@,
                c,
            ),
        decreases chars@.len() - from,
    {
        let ghost rest = chars@.subrange(from as int, chars@.len() as int);
        let at: usize = find_char(&chars, from, c);
        let piece = text_between(&chars, from, at);
        let ghost before = r@;
        r.push(piece);
        assert(views(r@) =~= views(before).push(piece@));
        if at < chars.len() {
            proof {
                let k = at - from;
                assert(rest.subrange(0, k) =~= piece@);
                assert(rest.subrange(k + 1, rest.len() as int) =~= chars@.subrange(
                    at + 1,
                    chars@.len() as int,
                ));
                assert(views(r@) + pieces(chars@.subrange(at + 1, chars@.len() as int), c)
                    =~= views(before) + pieces(rest, c));
            }
            from = at + 1;
        } else {
            proof {
                assert(rest =~= piece@);
                assert(views(before) + seq![rest] =~= views(r@));
            }
            return r;
        }
    }
}

// ---------------------------------------------------------------------------
// Numbers
// ---------------------------------------------------------------------------

pub open spec fn digit_char(d: int) -> char {
    (('0' as u32) + d) as char
}

/// The decimal form of `n` without leading zeros.
pub open spec fn decimal(n: nat) -> Seq<char>
    decreases n,
{
    if n < 10 {
        seq![digit_char(n as int)]
    } else {
        decimal(n / 10).push(digit_char((n % 10) as int))
    }
}

/// A decimal form is made of digits, and stands for the number it was made of.
pub proof fn lemma_decimal(n: nat)
    ensures
        decimal(n).len() > 0,
        all_digits(decimal(n)),
        digits_value(decimal(n)) == n,
    decreases n,
{
    let d = decimal(n);
    if n < 10 {
        assert(d.subrange(0, 0) =~= Seq::<char>::empty());
        assert(is_digit(d[0]));
        assert(digits_value(d.subrange(0, 0)) == 0);
    } else {
        lemma_decimal(n / 10);
        assert(d.subrange(0, d.len() - 1) =~= decimal(n / 10));
        assert forall|i: int| 0 <= i < d.len() implies is_digit(#[trigger] d[i]) by {
            if i < d.len() - 1 {
                assert(d[i] == decimal(n / 10)[i]);
            }
        }
    }
}

/// Numbers with the same decimal form are the same.
pub proof fn same_decimal(a: nat, b: nat)
    requires
        decimal(a) == decimal(b),
    ensures
        a == b,
{
    lemma_decimal(a);
    lemma_decimal(b);
}

fn digit_of(d: u64) -> (r: char)
    requires
        d < 10,
    ensures
        r == digit_char(d as int),
{
    let code: u8 = 48 + (d as u8);
    code as char
}

pub fn decimal_of(n: u64) -> (r: String)
    ensures
        r@ == decimal(n as nat),
    decreases n,
{
    if n < 10 {
        let mut r = String::new();
        r.push(digit_of(n));
        assert(r@ =~= decimal(n as nat));
        r
    } else {
        let mut r = decimal_of(n / 10);
        r.push(digit_of(n % 10));
        r
    }
}

/// All characters are decimal digits.
pub open spec fn all_digits(s: Seq<char>) -> bool {
    forall|i: int| 0 <= i < s.len() ==> is_digit(#[trigger] s[i])
}

/// The number that a run of decimal digits stands for.
pub open spec fn digits_value(s: Seq<char>) -> nat
    decreases s.len(),
{
    if s.len() == 0 {
        0
    } else {
        digits_value(s.subrange(0, s.len() - 1)) * 10 + ((s[s.len() - 1] as u32) - ('0' as u32)) as nat
    }
}

/// The digits of a number: one leading `+` is passed over.
pub open spec fn unsigned_digits(s: Seq<char>) -> Seq<char> {
    if s.len() > 0 && s[0] == '+' {
        s.subrange(1, s.len() as int)
    } else {
        s
    }
}

/// What `str::parse` reads for an unsigned integer of at most `max`.
pub open spec fn unsigned_value(s: Seq<char>, max: nat) -> Option<nat> {
    let d = unsigned_digits(s);
    if d.len() > 0 && all_digits(d) && digits_value(d) <= max {
        Some(digits_value(d))
    } else {
        None
    }
}

/// An unsigned decimal number of at most `max`.
pub fn parse_unsigned(text: &str, max: u64) -> (r: Option<u64>)
    ensures
        r is Some <==> unsigned_value(text@, max as nat) is Some,
        r matches Some(n) ==> unsigned_value(text@, max as nat) == Some(n as nat),
        r matches Some(n) ==> n <= max,
{
    let chars = chars_of(text);
    let from: usize = if chars.len() > 0 && chars[0] == '+' {
        1
    } else {
        0
    };
    let ghost d = unsigned_digits(text@);
    assert(d =~= chars@.subrange(from as int, chars@.len() as int));
    if from == chars.len() {
        return None;
    }
    let mut value: u64 = 0;
    let mut over = false;
    let mut i: usize = from;
    assert(d.subrange(0, 0) =~= Seq::<char>::empty());
    while i < chars.len()
        invariant
            from <= i <= chars@.len(),
            chars@ == text@,
            d == chars@.subrange(from as int, chars@.len() as int),
            all_digits(d.subrange(0, i - from)),
            !over ==> value == digits_value(d.subrange(0, i - from)) && value <= max,
            over ==> digits_value(d.subrange(0, i - from)) > max,
            d == unsigned_digits(text@),
        decreases chars@.len() - i,
    {
        let c = chars[i];
        assert(d[i - from] == c);
        if !('0' <= c && c <= '9') {
            assert(!is_digit(d[i - from]));
            return None;
        }
        let digit: u64 = (c as u32 - 48) as u64;
        proof {
            let p = d.subrange(0, i + 1 - from);
            assert(p.subrange(0, p.len() - 1) =~= d.subrange(0, i - from));
            assert(p[p.len() - 1] == c);
            assert(digits_value(p) == digits_value(d.subrange(0, i - from)) * 10 + digit);
            assert forall|j: int| 0 <= j < p.len() implies is_digit(#[trigger] p[j]) by {
                if j < i - from {
                    assert(d.subrange(0, i - from)[j] == p[j]);
                }
            }
        }
        if !over {
            match value.checked_mul(10) {
                Some(scaled) => {
                    match scaled.checked_add(digit) {
                        Some(next) => {
                            if next <= max {
                                value = next;
                            } else {
                                over = true;
                            }
                        },
                        None => {
                            over = true;
                        },
                    }
                },
                None => {
                    over = true;
                },
            }
        }
        i = i + 1;
    }
    assert(d.subrange(0, i - from) =~= d);
    if over {
        None
    } else {
        Some(value)
    }
}

pub fn parse_u64(text: &str) -> (r: Option<u64>)
    ensures
        r is Some <==> unsigned_value(text@, u64::MAX as nat) is Some,
        r matches Some(n) ==> unsigned_value(text@, u64::MAX as nat) == Some(n as nat),
{
    parse_unsigned(text, u64::MAX)
}

// ---------------------------------------------------------------------------
// Laws
// ---------------------------------------------------------------------------

/// Trimming takes away white characters at both ends, all of them and nothing else.
pub proof fn trimming_takes_white_ends_only(s: Seq<char>)
    ensures
        exists|a: int, b: int|
            #![trigger s.subrange(a, b)]
            {
                &&& 0 <= a <= b <= s.len()
                &&& trimmed(s) == s.subrange(a, b)
                &&& forall|i: int| 0 <= i < a || b <= i < s.len() ==> is_white(#[trigger] s[i])
            },
        trimmed(s).len() > 0 ==> !is_white(trimmed(s)[0]) && !is_white(trimmed(s).last()),
{
    lemma_start_trimmed(s);
    let t = trimmed_start(s);
    let a = s.len() - t.len();
    lemma_end_trimmed(t);
    let r = trimmed_end(t);
    assert(r =~= s.subrange(a, a + r.len()));
    assert forall|i: int| 0 <= i < a || a + r.len() <= i < s.len() implies is_white(
        #[trigger] s[i],
    ) by {
        if i >= a {
            assert(t[i - a] == s[i]);
        }
    }
}

proof fn lemma_start_trimmed(s: Seq<char>)
    ensures
        trimmed_start(s).len() <= s.len(),
        trimmed_start(s) == s.subrange(s.len() - trimmed_start(s).len(), s.len() as int),
        forall|i: int| 0 <= i < s.len() - trimmed_start(s).len() ==> is_white(#[trigger] s[i]),
        trimmed_start(s).len() > 0 ==> !is_white(trimmed_start(s)[0]),
    decreases s.len(),
{
    if s.len() > 0 && is_white(s[0]) {
        let rest = s.subrange(1, s.len() as int);
        lemma_start_trimmed(rest);
        let t = trimmed_start(rest);
        assert(t =~= s.subrange(s.len() - t.len(), s.len() as int));
        assert forall|i: int| 0 <= i < s.len() - t.len() implies is_white(#[trigger] s[i]) by {
            if i > 0 {
                assert(rest[i - 1] == s[i]);
            }
        }
    } else {
        assert(s.subrange(0, s.len() as int) =~= s);
    }
}

proof fn lemma_end_trimmed(s: Seq<char>)
    ensures
        trimmed_end(s).len() <= s.len(),
        trimmed_end(s) == s.subrange(0, trimmed_end(s).len() as int),
        forall|i: int| trimmed_end(s).len() <= i < s.len() ==> is_white(#[trigger] s[i]),
        trimmed_end(s).len() > 0 ==> !is_white(trimmed_end(s).last()),
    decreases s.len(),
{
    if s.len() > 0 && is_white(s[s.len() - 1]) {
        let rest = s.subrange(0, s.len() - 1);
        lemma_end_trimmed(rest);
        let t = trimmed_end(rest);
        assert(t =~= s.subrange(0, t.len() as int));
        assert forall|i: int| t.len() <= i < s.len() implies is_white(#[trigger] s[i]) by {
            if i < rest.len() {
                assert(rest[i] == s[i]);
            }
        }
    } else {
        assert(s.subrange(0, s.len() as int) =~= s);
    }
}

/// At the front alone, trimming does the same.
pub proof fn trimming_the_front_takes_white_only(s: Seq<char>)
    ensures
        exists|a: int|
            #![trigger s.subrange(a, s.len() as int)]
            {
                &&& 0 <= a <= s.len()
                &&& trimmed_start(s) == s.subrange(a, s.len() as int)
                &&& forall|i: int| 0 <= i < a ==> is_white(#[trigger] s[i])
            },
        trimmed_start(s).len() > 0 ==> !is_white(trimmed_start(s)[0]),
{
    lemma_start_trimmed(s);
}

/// A text with its last characters taken away, as far as they are `c`: nothing else is lost,
/// and no `c` is left at the end.
pub proof fn only_trailing_characters_are_taken(s: Seq<char>, c: char)
    ensures
        without_trailing(s, c).len() <= s.len(),
        without_trailing(s, c) == s.subrange(0, without_trailing(s, c).len() as int),
        forall|i: int| without_trailing(s, c).len() <= i < s.len() ==> #[trigger] s[i] == c,
        without_trailing(s, c).len() > 0 ==> without_trailing(s, c).last() != c,
    decreases s.len(),
{
    if s.len() > 0 && s[s.len() - 1] == c {
        let rest = s.subrange(0, s.len() - 1);
        only_trailing_characters_are_taken(rest, c);
        let t = without_trailing(rest, c);
        assert(t =~= s.subrange(0, t.len() as int));
        assert forall|i: int| t.len() <= i < s.len() implies #[trigger] s[i] == c by {
            if i < rest.len() {
                assert(rest[i] == s[i]);
            }
        }
    } else {
        assert(s.subrange(0, s.len() as int) =~= s);
    }
}

/// The first characters of a text are as many as were asked for, as far as there are so many.
pub proof fn first_characters_are_kept(s: Seq<char>, n: nat)
    ensures
        first_chars(s, n).len() == (if n < s.len() {
            n
        } else {
            s.len()
        }),
        forall|i: int| 0 <= i < n && i < s.len() ==> first_chars(s, n)[i] == #[trigger] s[i],
{
}

/// A text that begins with another one is that one and something after it.
pub proof fn a_beginning_is_followed_by_the_rest(head: Seq<char>, rest: Seq<char>, text: Seq<char>)
    ensures
        has_prefix(head + rest, head),
        has_prefix(text, head) ==> exists|tail: Seq<char>| text == #[trigger] (head + tail),
{
    assert((head + rest).subrange(0, head.len() as int) =~= head);
    if has_prefix(text, head) {
        let tail = text.subrange(head.len() as int, text.len() as int);
        assert(text =~= head + tail);
    }
}

/// A text is cut at the first place where the character stands, which belongs to neither part.
pub proof fn a_cut_is_at_the_first_place(s: Seq<char>, c: char)
    ensures
        match cut_once(s, c) {
            Some((a, b)) => s == a + seq![c] + b && !a.contains(c),
            None => !s.contains(c),
        },
{
    lemma_first_place(s, c);
    let k = first_index(s, c);
    match cut_once(s, c) {
        Some((a, b)) => {
            assert(s =~= a + seq![c] + b);
            if a.contains(c) {
                let i = a.index_of(c);
                assert(s[i] == c);
            }
        },
        None => {
            if s.contains(c) {
                let i = s.index_of(c);
                assert(s[i] == c);
            }
        },
    }
}

pub proof fn lemma_first_place(s: Seq<char>, c: char)
    ensures
        0 <= first_index(s, c) <= s.len(),
        first_index(s, c) < s.len() ==> s[first_index(s, c)] == c,
        forall|i: int| 0 <= i < first_index(s, c) ==> #[trigger] s[i] != c,
    decreases s.len(),
{
    if s.len() > 0 && s[0] != c {
        let rest = s.subrange(1, s.len() as int);
        lemma_first_place(rest, c);
        assert forall|i: int| 0 <= i < first_index(s, c) implies #[trigger] s[i] != c by {
            if i > 0 {
                assert(rest[i - 1] == s[i]);
            }
        }
    }
}

/// A text without the character is one piece; otherwise the first piece is what stands before
/// it, and the others are the pieces of what stands after it.
pub proof fn pieces_lie_between_the_marks(a: Seq<char>, b: Seq<char>, c: char)
    requires
        !a.contains(c),
    ensures
        pieces(a, c) == seq![a],
        pieces(a + seq![c] + b, c) == seq![a] + pieces(b, c),
{
    let s = a + seq![c] + b;
    lemma_first_place(a, c);
    lemma_first_place(s, c);
    assert(s[a.len() as int] == c);
    let k = first_index(s, c);
    if k < a.len() {
        assert(a[k] == c);
    }
    assert(s.subrange(0, k) =~= a);
    assert(s.subrange(k + 1, s.len() as int) =~= b);
    if first_index(a, c) < a.len() {
        assert(a[first_index(a, c)] == c);
    }
}

/// Decimal forms are written with the digits from nought to nine, the highest place first.
pub proof fn decimals_are_written_from_the_highest_place(n: nat, d: nat)
    requires
        d < 10,
    ensures
        decimal(d) == seq![("0123456789"@)[d as int]],
        n > 0 ==> decimal(10 * n + d) == decimal(n) + decimal(d),
{
    reveal_strlit("0123456789");
    assert(decimal(d) =~= seq![("0123456789"@)[d as int]]);
    if n > 0 {
        assert((10 * n + d) / 10 == n && (10 * n + d) % 10 == d) by (nonlinear_arith)
            requires
                d < 10,
        ;
        assert(decimal(10 * n + d) =~= decimal(n) + decimal(d));
    }
}

/// A number that is written in decimal is read back, with or without a sign, as far as it is
/// within the limit.
pub proof fn a_number_within_its_limit_is_read(n: nat, max: nat)
    ensures
        unsigned_value(decimal(n), max) == (if n <= max {
            Some(n)
        } else {
            None
        }),
        unsigned_value("+"@ + decimal(n), max) == unsigned_value(decimal(n), max),
{
    lemma_decimal(n);
    reveal_strlit("+");
    let s = "+"@ + decimal(n);
    assert(is_digit(decimal(n)[0]));
    assert(s[0] == '+');
    assert(s.subrange(1, s.len() as int) =~= decimal(n));
}

/// What is read as a number is made of digits, after at most one sign, and within the limit.
pub proof fn only_numbers_are_read(s: Seq<char>, max: nat)
    requires
        unsigned_value(s, max) is Some,
    ensures
        unsigned_value(s, max)->0 <= max,
        s.len() > 0,
        forall|i: int| 0 < i < s.len() ==> '0' <= #[trigger] s[i] <= '9',
        s[0] == '+' && s.len() > 1 || '0' <= s[0] <= '9',
{
    let d = unsigned_digits(s);
    if s[0] == '+' {
        assert forall|i: int| 0 < i < s.len() implies '0' <= #[trigger] s[i] <= '9' by {
            assert(is_digit(d[i - 1]));
        }
    } else {
        assert forall|i: int| 0 <= i < s.len() implies '0' <= #[trigger] s[i] <= '9' by {
            assert(is_digit(d[i]));
        }
        assert('0' <= s[0] <= '9');
    }
}

/// In lower case, the letters from A to Z stand for those from a to z, and nothing else
/// changes.
pub proof fn lower_case_changes_capitals_only(s: Seq<char>, i: int)
    requires
        0 <= i < s.len(),
    ensures
        lowered(s).len() == s.len(),
        'A' <= s[i] <= 'Z' ==> 'a' <= lowered(s)[i] <= 'z' && lowered(s)[i] as int - 'a' as int
            == s[i] as int - 'A' as int,
        !('A' <= s[i] <= 'Z') ==> lowered(s)[i] == s[i],
{
}

/// A text is blank where nothing is left of it when it is trimmed.
pub proof fn a_blank_text_is_trimmed_away(s: Seq<char>)
    ensures
        blank(s) <==> trimmed(s).len() == 0,
        blank(" \t\r\n"@),
        forall|c: char| '!' <= c <= '~' ==> !blank(#[trigger] seq![c]),
{
    trimming_takes_white_ends_only(s);
    let (a, b) = choose|a: int, b: int|
        #![trigger s.subrange(a, b)]
        {
            &&& 0 <= a <= b <= s.len()
            &&& trimmed(s) == s.subrange(a, b)
            &&& forall|i: int| 0 <= i < a || b <= i < s.len() ==> is_white(#[trigger] s[i])
        };
    if blank(s) && trimmed(s).len() > 0 {
        assert(trimmed(s)[0] == s[a]);
        assert(false);
    }
    reveal_strlit(" \t\r\n");
    assert forall|c: char| '!' <= c <= '~' implies !blank(#[trigger] seq![c]) by {
        assert(!is_white(seq![c][0]));
    }
}

} // verus!
