//! Cutting texts into words, lines and parts.
use vstd::prelude::*;
use crate::text::{
    blank, chars_of, find_char, first_index, has_prefix, is_white, is_whitespace, lemma_first_place, lowered,
    only_trailing_characters_are_taken, same_text,
    starts_with, text_between, to_lower, trim_trailing, views, without_trailing,
};

verus! {

broadcast use vstd::string::group_string_axioms;

// ---------------------------------------------------------------------------
// Words
// ---------------------------------------------------------------------------

/// The number of characters before the first white space.
pub open spec fn word_len(s: Seq<char>) -> nat
    decreases s.len(),
{
    if s.len() == 0 || is_white(s[0]) {
        0
    } else {
        1 + word_len(s.subrange(1, s.len() as int))
    }
}

pub proof fn lemma_word_len(s: Seq<char>)
    ensures
        word_len(s) <= s.len(),
    decreases s.len(),
{
    if s.len() > 0 && !is_white(s[0]) {
        lemma_word_len(s.subrange(1, s.len() as int));
    }
}

proof fn lemma_word_len_at(s: Seq<char>, k: int)
    requires
        0 <= k <= s.len(),
        forall|i: int| 0 <= i < k ==> !is_white(#[trigger] s[i]),
        k < s.len() ==> is_white(s[k]),
    ensures
        word_len(s) == k,
    decreases k,
{
    if k > 0 {
        let t = s.subrange(1, s.len() as int);
        assert forall|i: int| 0 <= i < k - 1 implies !is_white(#[trigger] t[i]) by {
            assert(t[i] == s[i + 1]);
        }
        lemma_word_len_at(t, k - 1);
    }
}

/// The words of `s`: what stands between white space (`str::split_whitespace`).
pub open spec fn words(s: Seq<char>) -> Seq<Seq<char>>
    decreases s.len(),
{
    if s.len() == 0 {
        Seq::empty()
    } else if is_white(s[0]) {
        words(s.subrange(1, s.len() as int))
    } else {
        let k = word_len(s) as int;
        proof {
            lemma_word_len(s);
        }
        seq![s.subrange(0, k)] + words(s.subrange(k, s.len() as int))
    }
}

pub fn split_words(text: &str) -> (r: Vec<String>)
    ensures
        views(r@) == words(text@),
{
    let chars = chars_of(text);
    let mut r: Vec<String> = Vec::new();
    let mut at: usize = 0;
    assert(chars@.subrange(0, chars@.len() as int) =~= text@);
    assert(views(r@) + words(text@) =~= words(text@));
    while at < chars.len()
        invariant
            at <= chars@.len(),
            views(r@) + words(chars@.subrange(at as int, chars@.len() as int)) == words(text@),
        decreases chars@.len() - at,
    {
        let ghost rest = chars@.subrange(at as int, chars@.len() as int);
        if is_whitespace(chars[at]) {
            assert(rest.subrange(1, rest.len() as int) =~= chars@.subrange(
                at + 1,
                chars@.len() as int,
            ));
            at = at + 1;
        } else {
            let mut end: usize = at + 1;
            while end < chars.len() && !is_whitespace(chars[end])
                invariant
                    at < end <= chars@.len(),
                    forall|i: int| at <= i < end ==> !is_white(#[trigger] chars@[i]),
                decreases chars@.len() - end,
            {
                end = end + 1;
            }
            let word = text_between(&chars, at, end);
            let ghost before = r@;
            proof {
                let k = end - at;
                assert forall|i: int| 0 <= i < k implies !is_white(#[trigger] rest[i]) by {
                    assert(rest[i] == chars@[i + at]);
                }
                lemma_word_len_at(rest, k);
                assert(rest.subrange(0, k) =~= word@);
                assert(rest.subrange(k, rest.len() as int) =~= chars@.subrange(
                    end as int,
                    chars@.len() as int,
                ));
            }
            r.push(word);
            proof {
                assert(views(r@) =~= views(before).push(word@));
                let after = words(chars@.subrange(end as int, chars@.len() as int));
                assert(views(r@) + after =~= views(before) + (seq![word@] + after));
            }
            at = end;
        }
    }
    assert(views(r@) + Seq::<Seq<char>>::empty() =~= views(r@));
    r
}

/// Whether any character is white space.
pub open spec fn has_white(s: Seq<char>) -> bool {
    exists|i: int| 0 <= i < s.len() && is_white(#[trigger] s[i])
}

pub fn contains_white(text: &str) -> (r: bool)
    ensures
        r == has_white(text@),
{
    let chars = chars_of(text);
    let mut i: usize = 0;
    while i < chars.len()
        invariant
            i <= chars@.len(),
            chars@ == text@,
            forall|j: int| 0 <= j < i ==> !is_white(#[trigger] chars@[j]),
        decreases chars@.len() - i,
    {
        if is_whitespace(chars[i]) {
            assert(is_white(text@[i as int]));
            return true;
        }
        i = i + 1;
    }
    false
}

// ---------------------------------------------------------------------------
// Lines
// ---------------------------------------------------------------------------

/// A line without the carriage return at its end.
pub open spec fn without_cr(s: Seq<char>) -> Seq<char> {
    if s.len() > 0 && s.last() == '\r' {
        s.drop_last()
    } else {
        s
    }
}

/// The lines of `s` (`str::lines`): a line ends at a line feed, with or without a
/// carriage return before it; the last one need not end.
pub open spec fn text_lines(s: Seq<char>) -> Seq<Seq<char>>
    decreases s.len(),
{
    let k = first_index(s, '\n');
    if 0 <= k < s.len() {
        seq![without_cr(s.subrange(0, k))] + text_lines(s.subrange(k + 1, s.len() as int))
    } else if s.len() == 0 {
        Seq::empty()
    } else {
        seq![s]
    }
}

fn line_between(chars: &Vec<char>, from: usize, to: usize) -> (r: String)
    requires
        from <= to <= chars@.len(),
    ensures
        r@ == without_cr(chars@.subrange(from as int, to as int)),
{
    let ghost line = chars@.subrange(from as int, to as int);
    if to > from && chars[to - 1] == '\r' {
        assert(line.last() == chars@[to - 1]);
        assert(line.drop_last() =~= chars@.subrange(from as int, to - 1));
        text_between(chars, from, to - 1)
    } else {
        proof {
            if line.len() > 0 {
                assert(line.last() == chars@[to - 1]);
            }
        }
        text_between(chars, from, to)
    }
}

pub fn split_lines(text: &str) -> (r: Vec<String>)
    ensures
        views(r@) == text_lines(text@),
{
    let chars = chars_of(text);
    let mut r: Vec<String> = Vec::new();
    let mut from: usize = 0;
    assert(chars@.subrange(0, chars@.len() as int) =~= text@);
    assert(views(r@) + text_lines(text@) =~= text_lines(text@));
    loop
        invariant
            from <= chars@.len(),
            views(r@) + text_lines(chars@.subrange(from as int, chars@.len() as int))
                == text_lines(text@),
        decreases chars@.len() - from,
    {
        let ghost rest = chars@.subrange(from as int, chars@.len() as int);
        let at: usize = find_char(&chars, from, '\n');
        let ghost before = r@;
        if at < chars.len() {
            let line = line_between(&chars, from, at);
            r.push(line);
            proof {
                let k = at - from;
                assert(rest.subrange(0, k) =~= chars@.subrange(from as int, at as int));
                assert(rest.subrange(k + 1, rest.len() as int) =~= chars@.subrange(
                    at + 1,
                    chars@.len() as int,
                ));
                assert(views(r@) =~= views(before).push(line@));
                let after = text_lines(chars@.subrange(at + 1, chars@.len() as int));
                assert(views(r@) + after =~= views(before) + (seq![line@] + after));
            }
            from = at + 1;
        } else {
            if from < chars.len() {
                let line = text_between(&chars, from, at);
                r.push(line);
                assert(rest =~= line@);
                assert(views(r@) =~= views(before) + seq![rest]);
            } else {
                assert(rest.len() == 0);
                assert(views(r@) + Seq::<Seq<char>>::empty() =~= views(r@));
            }
            return r;
        }
    }
}

/// The first line; an empty text has an empty one.
pub open spec fn first_line_of(s: Seq<char>) -> Seq<char> {
    if text_lines(s).len() == 0 {
        Seq::empty()
    } else {
        text_lines(s)[0]
    }
}

pub fn first_line(text: &str) -> (r: String)
    ensures
        r@ == first_line_of(text@),
{
    let chars = chars_of(text);
    let at: usize = find_char(&chars, 0, '\n');
    assert(chars@.subrange(0, chars@.len() as int) =~= text@);
    if at < chars.len() {
        line_between(&chars, 0, at)
    } else {
        let r = text_between(&chars, 0, chars.len());
        proof {
            if text@.len() == 0 {
                assert(r@ =~= Seq::empty());
            }
        }
        r
    }
}

// ---------------------------------------------------------------------------
// Parts
// ---------------------------------------------------------------------------

/// The last position of `c` in `s`, or -1.
pub open spec fn last_index(s: Seq<char>, c: char) -> int
    decreases s.len(),
{
    if s.len() == 0 {
        -1
    } else if s.last() == c {
        s.len() - 1
    } else {
        last_index(s.drop_last(), c)
    }
}

/// The parts before and after the last `c` (`str::rsplit_once` for a character).
pub open spec fn cut_last(s: Seq<char>, c: char) -> Option<(Seq<char>, Seq<char>)> {
    let k = last_index(s, c);
    if k < 0 {
        None
    } else {
        Some((s.subrange(0, k), s.subrange(k + 1, s.len() as int)))
    }
}

pub fn rsplit_once(text: &str, c: char) -> (r: Option<(String, String)>)
    ensures
        match r {
            None => cut_last(text@, c) is None,
            Some((a, b)) => cut_last(text@, c) == Some((a@, b@)),
        },
{
    let chars = chars_of(text);
    let mut end: usize = chars.len();
    assert(chars@.take(chars@.len() as int) =~= text@);
    while end > 0
        invariant
            end <= chars@.len(),
            chars@ == text@,
            last_index(text@, c) == last_index(chars@.take(end as int), c),
        decreases end,
    {
        let ghost head = chars@.take(end as int);
        assert(head.last() == chars@[end - 1]);
        if chars[end - 1] == c {
            assert(last_index(text@, c) == end - 1);
            return Some(
                (text_between(&chars, 0, end - 1), text_between(&chars, end, chars.len())),
            );
        }
        assert(head.drop_last() =~= chars@.take(end - 1));
        end = end - 1;
    }
    None
}

/// Whether `part` stands in `s` at `k`.
pub open spec fn stands_at(s: Seq<char>, part: Seq<char>, k: int) -> bool {
    0 <= k && k + part.len() <= s.len() && s.subrange(k, k + part.len()) == part
}

/// The first position of `part` in `s`, or -1.
pub open spec fn part_index(s: Seq<char>, part: Seq<char>, from: int) -> int
    decreases s.len() + 1 - from,
{
    if from < 0 || from > s.len() {
        -1
    } else if stands_at(s, part, from) {
        from
    } else {
        part_index(s, part, from + 1)
    }
}

/// The parts before and after the first occurrence of `part` (`str::split_once`).
pub open spec fn cut_at(s: Seq<char>, part: Seq<char>) -> Option<(Seq<char>, Seq<char>)> {
    let k = part_index(s, part, 0);
    if k < 0 {
        None
    } else {
        Some((s.subrange(0, k), s.subrange(k + part.len(), s.len() as int)))
    }
}

pub fn split_at_part(text: &str, part: &str) -> (r: Option<(String, String)>)
    ensures
        match r {
            None => cut_at(text@, part@) is None,
            Some((a, b)) => cut_at(text@, part@) == Some((a@, b@)),
        },
{
    let chars = chars_of(text);
    let wanted = chars_of(part);
    let mut at: usize = 0;
    while at < chars.len()
        invariant
            at <= chars@.len(),
            chars@ == text@,
            wanted@ == part@,
            part_index(text@, part@, 0) == part_index(text@, part@, at as int),
        decreases chars@.len() - at,
    {
        if wanted.len() <= chars.len() - at {
            let piece = text_between(&chars, at, at + wanted.len());
            if same_text(&piece, part) {
                assert(stands_at(text@, part@, at as int));
                return Some(
                    (
                        text_between(&chars, 0, at),
                        text_between(&chars, at + wanted.len(), chars.len()),
                    ),
                );
            }
        }
        assert(!stands_at(text@, part@, at as int));
        at = at + 1;
    }
    if wanted.len() == 0 {
        proof {
            assert(text@.subrange(at as int, at as int) =~= part@);
            assert(stands_at(text@, part@, at as int));
        }
        return Some((text_between(&chars, 0, at), text_between(&chars, at, chars.len())));
    }
    proof {
        assert(!stands_at(text@, part@, at as int));
        assert(part_index(text@, part@, at + 1) == -1);
    }
    None
}

/// The text before the first of several characters, or all of it.
pub open spec fn before_any(s: Seq<char>, stops: Seq<char>) -> Seq<char>
    decreases s.len(),
{
    if s.len() == 0 || stops.contains(s[0]) {
        Seq::empty()
    } else {
        seq![s[0]] + before_any(s.subrange(1, s.len() as int), stops)
    }
}

proof fn lemma_before_any(s: Seq<char>, stops: Seq<char>, k: int)
    requires
        0 <= k <= s.len(),
        forall|i: int| 0 <= i < k ==> !stops.contains(#[trigger] s[i]),
        k < s.len() ==> stops.contains(s[k]),
    ensures
        before_any(s, stops) == s.subrange(0, k),
    decreases k,
{
    if k > 0 {
        let t = s.subrange(1, s.len() as int);
        assert forall|i: int| 0 <= i < k - 1 implies !stops.contains(#[trigger] t[i]) by {
            assert(t[i] == s[i + 1]);
        }
        lemma_before_any(t, stops, k - 1);
        assert(seq![s[0]] + t.subrange(0, k - 1) =~= s.subrange(0, k));
    } else {
        assert(s.subrange(0, 0) =~= Seq::empty());
    }
}

fn is_one_of(c: char, stops: &Vec<char>) -> (r: bool)
    ensures
        r == stops@.contains(c),
{
    let mut i: usize = 0;
    while i < stops.len()
        invariant
            i <= stops@.len(),
            forall|j: int| 0 <= j < i ==> #[trigger] stops@[j] != c,
        decreases stops@.len() - i,
    {
        if stops[i] == c {
            assert(stops@[i as int] == c);
            return true;
        }
        i = i + 1;
    }
    false
}

pub fn take_before_any(text: &str, stops: &str) -> (r: String)
    ensures
        r@ == before_any(text@, stops@),
{
    let chars = chars_of(text);
    let marks = chars_of(stops);
    let mut i: usize = 0;
    while i < chars.len() && !is_one_of(chars[i], &marks)
        invariant
            i <= chars@.len(),
            marks@ == stops@,
            forall|j: int| 0 <= j < i ==> !stops@.contains(#[trigger] chars@[j]),
        decreases chars@.len() - i,
    {
        i = i + 1;
    }
    proof {
        lemma_before_any(text@, stops@, i as int);
    }
    text_between(&chars, 0, i)
}

/// Whether `s` holds any of several characters.
pub open spec fn has_any(s: Seq<char>, of: Seq<char>) -> bool {
    exists|i: int| 0 <= i < s.len() && of.contains(#[trigger] s[i])
}

pub fn contains_any(text: &str, of: &str) -> (r: bool)
    ensures
        r == has_any(text@, of@),
{
    let chars = chars_of(text);
    let marks = chars_of(of);
    let mut i: usize = 0;
    while i < chars.len()
        invariant
            i <= chars@.len(),
            chars@ == text@,
            marks@ == of@,
            forall|j: int| 0 <= j < i ==> !of@.contains(#[trigger] chars@[j]),
        decreases chars@.len() - i,
    {
        if is_one_of(chars[i], &marks) {
            assert(of@.contains(text@[i as int]));
            return true;
        }
        i = i + 1;
    }
    false
}

/// `s` without the `c`s at its start.
pub open spec fn without_leading(s: Seq<char>, c: char) -> Seq<char>
    decreases s.len(),
{
    if s.len() > 0 && s[0] == c {
        without_leading(s.subrange(1, s.len() as int), c)
    } else {
        s
    }
}

/// `s` without the `c`s at both ends.
pub open spec fn without_around(s: Seq<char>, c: char) -> Seq<char> {
    without_trailing(without_leading(s, c), c)
}

/// `str::trim_matches` for a character.
pub fn trim_around(text: &str, c: char) -> (r: String)
    ensures
        r@ == without_around(text@, c),
{
    let chars = chars_of(text);
    let mut from: usize = 0;
    assert(chars@.subrange(0, chars@.len() as int) =~= text@);
    while from < chars.len() && chars[from] == c
        invariant
            from <= chars@.len(),
            without_leading(text@, c) == without_leading(
                chars@.subrange(from as int, chars@.len() as int),
                c,
            ),
        decreases chars@.len() - from,
    {
        let ghost rest = chars@.subrange(from as int, chars@.len() as int);
        assert(rest.subrange(1, rest.len() as int) =~= chars@.subrange(
            from + 1,
            chars@.len() as int,
        ));
        from = from + 1;
    }
    let tail = text_between(&chars, from, chars.len());
    trim_trailing(&tail, c)
}

/// `s` without every `head` at its start.
pub open spec fn without_heads(s: Seq<char>, head: Seq<char>) -> Seq<char>
    decreases s.len(),
{
    if head.len() > 0 && has_prefix(s, head) {
        without_heads(s.subrange(head.len() as int, s.len() as int), head)
    } else {
        s
    }
}

/// `str::trim_start_matches` for a text.
pub fn trim_heads(text: &str, head: &str) -> (r: String)
    ensures
        r@ == without_heads(text@, head@),
{
    let width: usize = chars_of(head).len();
    let mut rest = text.to_owned();
    if width == 0 {
        return rest;
    }
    while starts_with(&rest, head)
        invariant
            width == head@.len(),
            width > 0,
            without_heads(text@, head@) == without_heads(rest@, head@),
        decreases rest@.len(),
    {
        let chars = chars_of(&rest);
        rest = text_between(&chars, width, chars.len());
    }
    rest
}

/// Whether two texts are the same but for the case of their ASCII letters.
pub open spec fn same_but_case(a: Seq<char>, b: Seq<char>) -> bool {
    lowered(a) == lowered(b)
}

/// `str::eq_ignore_ascii_case`.
pub fn equal_but_case(a: &str, b: &str) -> (r: bool)
    ensures
        r == same_but_case(a@, b@),
{
    same_text(&to_lower(a), &to_lower(b))
}

// ---------------------------------------------------------------------------
// Laws
// ---------------------------------------------------------------------------

/// The words of a text: a text without white characters is one word, a blank text has none, and
/// at a white character the words before it and after it are told apart.
pub proof fn words_lie_between_white_characters(a: Seq<char>, w: char, b: Seq<char>)
    requires
        is_white(w),
    ensures
        blank(a) ==> words(a) == Seq::<Seq<char>>::empty(),
        a.len() > 0 && !has_white(a) ==> words(a) == seq![a],
        words(a + seq![w] + b) == words(a) + words(b),
    decreases a.len(),
{
    let s = a + seq![w] + b;
    lemma_word_len(a);
    if a.len() == 0 {
        assert(s[0] == w);
        assert(s.subrange(1, s.len() as int) =~= b);
        assert(words(a) + words(b) =~= words(b));
    } else if is_white(a[0]) {
        let rest = a.subrange(1, a.len() as int);
        words_lie_between_white_characters(rest, w, b);
        assert(s[0] == a[0]);
        assert(s.subrange(1, s.len() as int) =~= rest + seq![w] + b);
        if blank(a) {
            assert forall|i: int| 0 <= i < rest.len() implies is_white(#[trigger] rest[i]) by {
                assert(rest[i] == a[i + 1]);
            }
        }
    } else {
        let k = word_len(a) as int;
        lemma_word_end(a);
        lemma_word_end(s);
        let rest = a.subrange(k, a.len() as int);
        words_lie_between_white_characters(rest, w, b);
        assert(s[0] == a[0]);
        let n = word_len(s) as int;
        assert(n == k) by {
            if n < k {
                assert(s[n] == a[n]);
            }
            if n > k {
                if k < a.len() {
                    assert(s[k] == a[k]);
                } else {
                    assert(s[k] == w);
                }
            }
        }
        assert(s.subrange(0, k) =~= a.subrange(0, k));
        assert(s.subrange(k, s.len() as int) =~= rest + seq![w] + b);
        assert(words(s) == seq![s.subrange(0, k)] + words(s.subrange(k, s.len() as int)));
        assert(words(a) == seq![a.subrange(0, k)] + words(rest));
        assert(words(s) =~= words(a) + words(b));
        if !has_white(a) {
            if k < a.len() {
                assert(is_white(a[k]));
            }
            assert(a.subrange(0, k) =~= a);
            assert(rest =~= Seq::<char>::empty());
            assert(words(rest) =~= Seq::<Seq<char>>::empty());
            assert(words(a) =~= seq![a]);
        }
    }
}

proof fn lemma_word_end(s: Seq<char>)
    ensures
        word_len(s) <= s.len(),
        forall|i: int| 0 <= i < word_len(s) ==> !is_white(#[trigger] s[i]),
        word_len(s) < s.len() ==> is_white(s[word_len(s) as int]),
    decreases s.len(),
{
    if s.len() > 0 && !is_white(s[0]) {
        let rest = s.subrange(1, s.len() as int);
        lemma_word_end(rest);
        assert forall|i: int| 0 <= i < word_len(s) implies !is_white(#[trigger] s[i]) by {
            if i > 0 {
                assert(rest[i - 1] == s[i]);
            }
        }
    }
}

/// The lines of a text end at its line feeds; a carriage return before one is no part of the
/// line. What follows the last line feed is a line where there is anything.
pub proof fn lines_end_at_line_feeds(a: Seq<char>, b: Seq<char>)
    requires
        !a.contains('\n'),
    ensures
        text_lines(Seq::empty()) == Seq::<Seq<char>>::empty(),
        a.len() > 0 ==> text_lines(a) == seq![a],
        text_lines(a + seq!['\n'] + b) == seq![
            if a.len() > 0 && a.last() == '\r' {
                a.drop_last()
            } else {
                a
            },
        ] + text_lines(b),
{
    let s = a + seq!['\n'] + b;
    let k = first_index(s, '\n');
    lemma_first_place(a, '\n');
    lemma_first_place(s, '\n');
    assert(s[a.len() as int] == '\n');
    if k < a.len() {
        assert(a[k] == '\n');
    }
    assert(k == a.len());
    assert(s.subrange(0, k) =~= a);
    assert(s.subrange(k + 1, s.len() as int) =~= b);
    if first_index(a, '\n') < a.len() {
        assert(a[first_index(a, '\n')] == '\n');
    }
}

/// A text is cut at the last place where the character stands.
pub proof fn a_cut_is_at_the_last_place(s: Seq<char>, c: char)
    ensures
        match cut_last(s, c) {
            Some((a, b)) => s == a + seq![c] + b && !b.contains(c),
            None => !s.contains(c),
        },
{
    lemma_last_place(s, c);
    let k = last_index(s, c);
    match cut_last(s, c) {
        Some((a, b)) => {
            assert(s =~= a + seq![c] + b);
            if b.contains(c) {
                let i = b.index_of(c);
                assert(s[k + 1 + i] == c);
            }
        },
        None => {
            if s.contains(c) {
                let i = s.index_of(c);
                assert(s[i] == c);
            }
        },
    }
}

proof fn lemma_last_place(s: Seq<char>, c: char)
    ensures
        -1 <= last_index(s, c) < s.len(),
        last_index(s, c) >= 0 ==> s[last_index(s, c)] == c,
        forall|i: int| last_index(s, c) < i < s.len() ==> #[trigger] s[i] != c,
    decreases s.len(),
{
    if s.len() > 0 && s.last() != c {
        let rest = s.drop_last();
        lemma_last_place(rest, c);
        assert forall|i: int| last_index(s, c) < i < s.len() implies #[trigger] s[i] != c by {
            if i < rest.len() {
                assert(rest[i] == s[i]);
            }
        }
    }
}

/// A text is cut where a part of it stands first.
pub proof fn a_cut_is_at_the_first_part(s: Seq<char>, part: Seq<char>)
    ensures
        match cut_at(s, part) {
            Some((a, b)) => s == a + part + b && forall|k: int|
                0 <= k < a.len() ==> !(#[trigger] s.subrange(k, k + part.len()) == part),
            None => forall|k: int|
                0 <= k <= s.len() - part.len() ==> !(#[trigger] s.subrange(k, k + part.len())
                    == part),
        },
{
    lemma_part_place(s, part, 0);
    match cut_at(s, part) {
        Some((a, b)) => {
            assert(s =~= a + part + b);
            assert forall|k: int| 0 <= k < a.len() implies !(#[trigger] s.subrange(
                k,
                k + part.len(),
            ) == part) by {
                assert(!stands_at(s, part, k));
            }
        },
        None => {
            assert forall|k: int| 0 <= k <= s.len() - part.len() implies !(#[trigger] s.subrange(
                k,
                k + part.len(),
            ) == part) by {
                assert(!stands_at(s, part, k));
            }
        },
    }
}

proof fn lemma_part_place(s: Seq<char>, part: Seq<char>, from: int)
    requires
        0 <= from <= s.len() + 1,
    ensures
        part_index(s, part, from) >= 0 ==> part_index(s, part, from) >= from && stands_at(
            s,
            part,
            part_index(s, part, from),
        ) && forall|k: int|
            from <= k < part_index(s, part, from) ==> !#[trigger] stands_at(s, part, k),
        part_index(s, part, from) < 0 ==> forall|k: int|
            from <= k <= s.len() ==> !#[trigger] stands_at(s, part, k),
    decreases s.len() + 1 - from,
{
    if from <= s.len() && !stands_at(s, part, from) {
        lemma_part_place(s, part, from + 1);
    }
}

/// What stands before the first of some characters holds none of them and is followed by one,
/// or by nothing.
pub proof fn a_stop_ends_what_is_before_it(s: Seq<char>, stops: Seq<char>)
    ensures
        before_any(s, stops).len() <= s.len(),
        before_any(s, stops) == s.subrange(0, before_any(s, stops).len() as int),
        forall|i: int| 0 <= i < before_any(s, stops).len() ==> !stops.contains(#[trigger] s[i]),
        before_any(s, stops).len() < s.len() ==> stops.contains(
            s[before_any(s, stops).len() as int],
        ),
    decreases s.len(),
{
    if s.len() > 0 && !stops.contains(s[0]) {
        let rest = s.subrange(1, s.len() as int);
        a_stop_ends_what_is_before_it(rest, stops);
        let t = before_any(rest, stops);
        assert(before_any(s, stops) =~= s.subrange(0, (t.len() + 1) as int));
        assert forall|i: int| 0 <= i < t.len() + 1 implies !stops.contains(#[trigger] s[i]) by {
            if i > 0 {
                assert(rest[i - 1] == s[i]);
            }
        }
    } else {
        assert(before_any(s, stops) =~= s.subrange(0, 0));
    }
}

/// A text with a character taken away around it begins and ends with another one, and only
/// that character was taken.
pub proof fn only_the_character_is_taken_around(s: Seq<char>, c: char)
    ensures
        exists|a: int, b: int|
            #![trigger s.subrange(a, b)]
            {
                &&& 0 <= a <= b <= s.len()
                &&& without_around(s, c) == s.subrange(a, b)
                &&& forall|i: int| 0 <= i < a || b <= i < s.len() ==> #[trigger] s[i] == c
            },
        without_around(s, c).len() > 0 ==> without_around(s, c)[0] != c && without_around(
            s,
            c,
        ).last() != c,
{
    lemma_leading_taken(s, c);
    let t = without_leading(s, c);
    only_trailing_characters_are_taken(t, c);
    let r = without_trailing(t, c);
    let a = s.len() - t.len();
    assert(r =~= s.subrange(a, a + r.len()));
    assert forall|i: int| 0 <= i < a || a + r.len() <= i < s.len() implies #[trigger] s[i] == c by {
        if i >= a {
            assert(t[i - a] == s[i]);
        }
    }
}

proof fn lemma_leading_taken(s: Seq<char>, c: char)
    ensures
        without_leading(s, c).len() <= s.len(),
        without_leading(s, c) == s.subrange(s.len() - without_leading(s, c).len(), s.len() as int),
        forall|i: int| 0 <= i < s.len() - without_leading(s, c).len() ==> #[trigger] s[i] == c,
        without_leading(s, c).len() > 0 ==> without_leading(s, c)[0] != c,
    decreases s.len(),
{
    if s.len() > 0 && s[0] == c {
        let rest = s.subrange(1, s.len() as int);
        lemma_leading_taken(rest, c);
        let t = without_leading(rest, c);
        assert(t =~= s.subrange(s.len() - t.len(), s.len() as int));
        assert forall|i: int| 0 <= i < s.len() - t.len() implies #[trigger] s[i] == c by {
            if i > 0 {
                assert(rest[i - 1] == s[i]);
            }
        }
    } else {
        assert(s.subrange(0, s.len() as int) =~= s);
    }
}

/// Texts are the same but for their case where each letter is the same or its capital.
pub proof fn case_is_all_that_may_differ(a: Seq<char>, b: Seq<char>)
    ensures
        same_but_case(a, b) <==> a.len() == b.len() && forall|i: int|
            0 <= i < a.len() ==> (#[trigger] a[i] == b[i] || ('A' <= a[i] <= 'Z' && b[i] as int
                == a[i] as int + 32) || ('A' <= b[i] <= 'Z' && a[i] as int == b[i] as int + 32)),
{
    let x = lowered(a);
    let y = lowered(b);
    if same_but_case(a, b) {
        assert(x.len() == y.len());
        assert forall|i: int| 0 <= i < a.len() implies (#[trigger] a[i] == b[i] || ('A' <= a[i]
            <= 'Z' && b[i] as int == a[i] as int + 32) || ('A' <= b[i] <= 'Z' && a[i] as int
            == b[i] as int + 32)) by {
            assert(x[i] == y[i]);
        }
    } else if a.len() == b.len() && (forall|i: int|
        0 <= i < a.len() ==> (#[trigger] a[i] == b[i] || ('A' <= a[i] <= 'Z' && b[i] as int
            == a[i] as int + 32) || ('A' <= b[i] <= 'Z' && a[i] as int == b[i] as int + 32))) {
        assert forall|i: int| 0 <= i < x.len() implies x[i] == y[i] by {
            assert(a[i] == b[i] || ('A' <= a[i] <= 'Z' && b[i] as int == a[i] as int + 32) || (
            'A' <= b[i] <= 'Z' && a[i] as int == b[i] as int + 32));
        }
        assert(x =~= y);
    }
}

/// A beginning is taken away as often as it stands there, and nothing else is.
pub proof fn only_the_beginning_is_taken(s: Seq<char>, head: Seq<char>)
    requires
        head.len() > 0,
    ensures
        without_heads(head + s, head) == without_heads(s, head),
        !has_prefix(s, head) ==> without_heads(s, head) == s,
        !has_prefix(without_heads(s, head), head),
    decreases s.len(),
{
    assert((head + s).subrange(0, head.len() as int) =~= head);
    assert((head + s).subrange(head.len() as int, (head + s).len() as int) =~= s);
    if has_prefix(s, head) {
        only_the_beginning_is_taken(s.subrange(head.len() as int, s.len() as int), head);
    }
}

/// The first line of a text is what stands before its first line feed.
pub proof fn the_first_line_of_a_text(a: Seq<char>, b: Seq<char>)
    requires
        !a.contains('\n'),
        a.len() > 0,
        a.last() != '\r',
    ensures
        first_line_of(a) == a,
        first_line_of(a + seq!['\n'] + b) == a,
        first_line_of(a + seq!['\r', '\n'] + b) == a,
        first_line_of(Seq::empty()).len() == 0,
{
    lines_end_at_line_feeds(a, b);
    let c = a.push('\r');
    assert forall|i: int| 0 <= i < c.len() implies c[i] != '\n' by {
        if i < a.len() {
            assert(a.contains(a[i]));
        }
    }
    lines_end_at_line_feeds(c, b);
    assert(c + seq!['\n'] + b =~= a + seq!['\r', '\n'] + b);
    assert(c.drop_last() =~= a);
}

} // verus!
