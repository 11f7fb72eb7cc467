//! The string operations that the reader is built from, on sequences of characters.
use vstd::prelude::*;

use crate::text::{chars_of, copy_range, push_all, same_chars, string_of};

verus! {

// ---------------------------------------------------------------------------------------
// Classes of characters
// ---------------------------------------------------------------------------------------

/// The characters with the Unicode property White_Space.
pub open spec fn is_space(c: char) -> bool {
    let u = c as u32;
    ||| 0x09 <= u <= 0x0d
    ||| u == 0x20
    ||| u == 0x85
    ||| u == 0xa0
    ||| u == 0x1680
    ||| 0x2000 <= u <= 0x200a
    ||| u == 0x2028
    ||| u == 0x2029
    ||| u == 0x202f
    ||| u == 0x205f
    ||| u == 0x3000
}

/// Whether `c` is white space.
pub fn is_whitespace(c: char) -> (space: bool)
    ensures
        space == is_space(c),
{
    let u: u32 = c as u32;
    (0x09 <= u && u <= 0x0d) || u == 0x20 || u == 0x85 || u == 0xa0 || u == 0x1680 || (0x2000 <= u
        && u <= 0x200a) || u == 0x2028 || u == 0x2029 || u == 0x202f || u == 0x205f || u == 0x3000
}

/// The characters of the general category Cc.
pub open spec fn is_control_char(c: char) -> bool {
    let u = c as u32;
    u < 0x20 || 0x7f <= u <= 0x9f
}

/// Whether `c` is a control character.
pub fn is_control(c: char) -> (control: bool)
    ensures
        control == is_control_char(c),
{
    let u: u32 = c as u32;
    u < 0x20 || (0x7f <= u && u <= 0x9f)
}

pub open spec fn is_digit_char(c: char) -> bool {
    '0' <= c <= '9'
}

/// Whether `c` is an ASCII digit.
pub fn is_ascii_digit(c: char) -> (digit: bool)
    ensures
        digit == is_digit_char(c),
{
    '0' <= c && c <= '9'
}

/// The ASCII letter `c` in lower case; any other character as it is.
pub open spec fn ascii_lower(c: char) -> char {
    if 'A' <= c <= 'Z' {
        ((c as u32) + 32) as char
    } else {
        c
    }
}

/// Turns an ASCII letter to lower case.
pub fn to_ascii_lower(c: char) -> (lower: char)
    ensures
        lower == ascii_lower(c),
{
    if 'A' <= c && c <= 'Z' {
        let code: u8 = c as u8;
        (code + 32) as char
    } else {
        c
    }
}

pub open spec fn ascii_lower_all(s: Seq<char>) -> Seq<char> {
    Seq::new(s.len(), |i: int| ascii_lower(s[i]))
}

/// Turns the ASCII letters of a text to lower case.
pub fn lower_all(characters: &[char]) -> (lower: Vec<char>)
    ensures
        lower@ == ascii_lower_all(characters@),
{
    let mut lower: Vec<char> = Vec::new();
    let mut i: usize = 0;
    while i < characters.len()
        invariant
            i <= characters.len(),
            lower@ == ascii_lower_all(characters@.take(i as int)),
        decreases characters.len() - i,
    {
        lower.push(to_ascii_lower(characters[i]));
        i += 1;
        assert(lower@ =~= ascii_lower_all(characters@.take(i as int)));
    }
    assert(characters@.take(characters@.len() as int) =~= characters@);
    lower
}

/// The two texts are the same but for the case of ASCII letters.
pub open spec fn same_ignoring_ascii_case(left: Seq<char>, right: Seq<char>) -> bool {
    ascii_lower_all(left) == ascii_lower_all(right)
}

/// Whether two texts are the same but for the case of ASCII letters.
pub fn eq_ignore_ascii_case(left: &[char], right: &[char]) -> (same: bool)
    ensures
        same == same_ignoring_ascii_case(left@, right@),
{
    let left_lower = lower_all(left);
    let right_lower = lower_all(right);
    same_chars(&left_lower, &right_lower)
}

// ---------------------------------------------------------------------------------------
// Trimming
// ---------------------------------------------------------------------------------------

/// The number of white space characters at the start of `s`.
pub open spec fn leading_spaces(s: Seq<char>) -> nat
    decreases s.len(),
{
    if s.len() > 0 && is_space(s[0]) {
        1 + leading_spaces(s.drop_first())
    } else {
        0
    }
}

pub open spec fn trimmed_start(s: Seq<char>) -> Seq<char> {
    s.skip(leading_spaces(s) as int)
}

/// `s` without the white space at its end.
pub open spec fn trimmed_end(s: Seq<char>) -> Seq<char>
    decreases s.len(),
{
    if s.len() > 0 && is_space(s.last()) {
        trimmed_end(s.drop_last())
    } else {
        s
    }
}

/// `s` without the white space at either end.
pub open spec fn trimmed(s: Seq<char>) -> Seq<char> {
    trimmed_end(trimmed_start(s))
}

pub proof fn lemma_leading_spaces(s: Seq<char>)
    ensures
        leading_spaces(s) <= s.len(),
        forall|i: int| 0 <= i < leading_spaces(s) ==> is_space(#[trigger] s[i]),
        leading_spaces(s) < s.len() ==> !is_space(s[leading_spaces(s) as int]),
    decreases s.len(),
{
    if s.len() > 0 && is_space(s[0]) {
        lemma_leading_spaces(s.drop_first());
        assert forall|i: int| 0 <= i < leading_spaces(s) implies is_space(#[trigger] s[i]) by {
            if i > 0 {
                assert(s.drop_first()[i - 1] == s[i]);
            }
        }
    }
}

pub proof fn lemma_leading_spaces_is(s: Seq<char>, n: int)
    requires
        0 <= n <= s.len(),
        forall|i: int| 0 <= i < n ==> is_space(#[trigger] s[i]),
        n < s.len() ==> !is_space(s[n]),
    ensures
        leading_spaces(s) == n,
{
    lemma_leading_spaces(s);
    let m = leading_spaces(s) as int;
    if m < n {
        assert(is_space(s[m]));
    } else if n < m {
        assert(is_space(s[n]));
    }
}

pub proof fn lemma_trimmed_end(s: Seq<char>)
    ensures
        trimmed_end(s).len() <= s.len(),
        trimmed_end(s) == s.take(trimmed_end(s).len() as int),
        trimmed_end(s).len() > 0 ==> !is_space(trimmed_end(s).last()),
        forall|i: int| trimmed_end(s).len() <= i < s.len() ==> is_space(#[trigger] s[i]),
    decreases s.len(),
{
    if s.len() > 0 && is_space(s.last()) {
        let t = s.drop_last();
        lemma_trimmed_end(t);
        assert(s.take(trimmed_end(s).len() as int) =~= t.take(trimmed_end(t).len() as int));
        assert forall|i: int| trimmed_end(s).len() <= i < s.len() implies is_space(
            #[trigger] s[i],
        ) by {
            if i < t.len() {
                assert(t[i] == s[i]);
            }
        }
    } else {
        assert(s.take(s.len() as int) =~= s);
    }
}

pub proof fn lemma_trimmed_end_is(s: Seq<char>, n: int)
    requires
        0 <= n <= s.len(),
        forall|i: int| n <= i < s.len() ==> is_space(#[trigger] s[i]),
        n > 0 ==> !is_space(s[n - 1]),
    ensures
        trimmed_end(s) == s.take(n),
{
    lemma_trimmed_end(s);
    let m = trimmed_end(s).len() as int;
    if m < n {
        assert(is_space(s[n - 1]));
    } else if n < m {
        assert(is_space(s[m - 1]));
        assert(trimmed_end(s).last() == s[m - 1]);
    }
}

/// Trimming leaves nothing to trim.
pub proof fn lemma_trimmed_twice(s: Seq<char>)
    ensures
        trimmed(trimmed(s)) == trimmed(s),
{
    let a = trimmed_start(s);
    let t = trimmed(s);
    lemma_leading_spaces(s);
    lemma_trimmed_end(a);
    if t.len() > 0 {
        assert(t[0] == a[0]);
        assert(a[0] == s[leading_spaces(s) as int]);
    }
    lemma_leading_spaces_is(t, 0);
    assert(trimmed_start(t) =~= t);
}

/// The number of white space characters at the start.
pub fn count_leading(characters: &[char]) -> (count: usize)
    ensures
        count == leading_spaces(characters@),
        count <= characters@.len(),
{
    let mut count: usize = 0;
    while count < characters.len() && is_whitespace(characters[count])
        invariant
            count <= characters.len(),
            forall|i: int| 0 <= i < count ==> is_space(#[trigger] characters@[i]),
        decreases characters.len() - count,
    {
        count += 1;
    }
    proof {
        lemma_leading_spaces_is(characters@, count as int);
    }
    count
}

/// The length that is left when the white space at the end is dropped.
pub fn end_without_spaces(characters: &[char]) -> (end: usize)
    ensures
        trimmed_end(characters@) == characters@.take(end as int),
        end <= characters@.len(),
        end == trimmed_end(characters@).len(),
{
    let mut end: usize = characters.len();
    while end > 0 && is_whitespace(characters[end - 1])
        invariant
            end <= characters.len(),
            forall|i: int| end <= i < characters.len() ==> is_space(#[trigger] characters@[i]),
        decreases end,
    {
        end -= 1;
    }
    proof {
        lemma_trimmed_end_is(characters@, end as int);
    }
    end
}

/// The text without the white space at its start.
pub fn trim_start_chars(characters: &[char]) -> (rest: Vec<char>)
    ensures
        rest@ == trimmed_start(characters@),
{
    let start: usize = count_leading(characters);
    copy_range(characters, start, characters.len())
}

/// The text without the white space at its end.
pub fn trim_end_chars(characters: &[char]) -> (rest: Vec<char>)
    ensures
        rest@ == trimmed_end(characters@),
{
    let end: usize = end_without_spaces(characters);
    copy_range(characters, 0, end)
}

/// The text without the white space at either end.
pub fn trim_chars(characters: &[char]) -> (rest: Vec<char>)
    ensures
        rest@ == trimmed(characters@),
{
    let rest = trim_start_chars(characters);
    trim_end_chars(&rest)
}

/// The text without the white space at either end.
pub fn trim_text(text: &str) -> (rest: String)
    ensures
        rest@ == trimmed(text@),
{
    let characters = chars_of(text);
    let rest = trim_chars(&characters);
    string_of(&rest)
}

// ---------------------------------------------------------------------------------------
// Looking for characters and texts
// ---------------------------------------------------------------------------------------

/// The index of the first `c` in `s`, or the length of `s` where there is none.
pub open spec fn position(s: Seq<char>, c: char) -> nat
    decreases s.len(),
{
    if s.len() == 0 || s[0] == c {
        0
    } else {
        1 + position(s.drop_first(), c)
    }
}

pub proof fn lemma_position(s: Seq<char>, c: char)
    ensures
        position(s, c) <= s.len(),
        position(s, c) < s.len() ==> s[position(s, c) as int] == c,
        forall|i: int| 0 <= i < position(s, c) ==> #[trigger] s[i] != c,
        s.contains(c) <==> position(s, c) < s.len(),
    decreases s.len(),
{
    if s.len() > 0 && s[0] != c {
        let t = s.drop_first();
        lemma_position(t, c);
        assert forall|i: int| 0 <= i < position(s, c) implies #[trigger] s[i] != c by {
            if i > 0 {
                assert(t[i - 1] == s[i]);
            }
        }
        if s.contains(c) {
            let i = choose|i: int| 0 <= i < s.len() && s[i] == c;
            assert(t[i - 1] == c);
        }
    }
}

pub proof fn lemma_position_is(s: Seq<char>, c: char, n: int)
    requires
        0 <= n <= s.len(),
        forall|i: int| 0 <= i < n ==> #[trigger] s[i] != c,
        n < s.len() ==> s[n] == c,
    ensures
        position(s, c) == n,
{
    lemma_position(s, c);
    let m = position(s, c) as int;
    if m < n {
        assert(s[m] != c);
    } else if n < m {
        assert(s[n] != c);
    }
}

/// The index of the first `c` from `start` on, or the length.
pub fn find_char(characters: &[char], c: char, start: usize) -> (index: usize)
    requires
        start <= characters@.len(),
    ensures
        start <= index <= characters@.len(),
        index == start + position(characters@.skip(start as int), c),
{
    let mut index: usize = start;
    while index < characters.len() && characters[index] != c
        invariant
            start <= index <= characters.len(),
            forall|i: int| start <= i < index ==> #[trigger] characters@[i] != c,
        decreases characters.len() - index,
    {
        index += 1;
    }
    proof {
        lemma_position_is(characters@.skip(start as int), c, index - start);
    }
    index
}

/// Whether `c` occurs.
pub fn contains_char(characters: &[char], c: char) -> (found: bool)
    ensures
        found == characters@.contains(c),
{
    proof {
        lemma_position(characters@, c);
        assert(characters@.skip(0) =~= characters@);
    }
    find_char(characters, c, 0) < characters.len()
}

/// `pattern` stands in `s` at the index `i`.
pub open spec fn occurs_at<T>(s: Seq<T>, pattern: Seq<T>, i: int) -> bool {
    0 <= i && i + pattern.len() <= s.len() && s.subrange(i, i + pattern.len()) == pattern
}

/// `pattern` stands somewhere in `s`.
pub open spec fn occurs(s: Seq<char>, pattern: Seq<char>) -> bool {
    exists|i: int| occurs_at(s, pattern, i)
}

/// The first index from `from` on at which `pattern` stands in `s`.
pub open spec fn first_occurrence<T>(s: Seq<T>, pattern: Seq<T>, from: int) -> Option<int>
    decreases s.len() + 1 - from,
{
    if from + pattern.len() > s.len() {
        None
    } else if occurs_at(s, pattern, from) {
        Some(from)
    } else {
        first_occurrence(s, pattern, from + 1)
    }
}

pub proof fn lemma_first_occurrence<T>(s: Seq<T>, pattern: Seq<T>, from: int)
    requires
        0 <= from,
    ensures
        match first_occurrence(s, pattern, from) {
            Some(i) => from <= i && occurs_at(s, pattern, i) && forall|j: int|
                from <= j < i ==> !#[trigger] occurs_at(s, pattern, j),
            None => forall|j: int| from <= j ==> !#[trigger] occurs_at(s, pattern, j),
        },
    decreases s.len() + 1 - from,
{
    if from + pattern.len() <= s.len() && !occurs_at(s, pattern, from) {
        lemma_first_occurrence(s, pattern, from + 1);
    }
}

/// Whether `pattern` stands at `index`.
pub fn matches_at(characters: &[char], pattern: &[char], index: usize) -> (found: bool)
    ensures
        found == occurs_at(characters@, pattern@, index as int),
{
    if index > characters.len() || pattern.len() > characters.len() - index {
        return false;
    }
    let mut i: usize = 0;
    while i < pattern.len()
        invariant
            i <= pattern.len(),
            index + pattern.len() <= characters.len(),
            forall|j: int| 0 <= j < i ==> characters@[index + j] == #[trigger] pattern@[j],
        decreases pattern.len() - i,
    {
        if characters[index + i] != pattern[i] {
            assert(characters@.subrange(index as int, index + pattern@.len())[i as int]
                != pattern@[i as int]);
            return false;
        }
        i += 1;
    }
    assert(characters@.subrange(index as int, index + pattern@.len()) =~= pattern@);
    true
}

/// The first index from `from` on at which `pattern` stands.
pub fn find_chars(characters: &[char], pattern: &[char], from: usize) -> (index: Option<usize>)
    ensures
        match index {
            Some(i) => first_occurrence(characters@, pattern@, from as int) == Some(i as int),
            None => first_occurrence(characters@, pattern@, from as int) is None,
        },
{
    let mut index: usize = from;
    while index <= characters.len() && pattern.len() <= characters.len() - index
        invariant
            first_occurrence(characters@, pattern@, from as int) == first_occurrence(
                characters@,
                pattern@,
                index as int,
            ),
        decreases characters.len() + 1 - index,
    {
        if matches_at(characters, pattern, index) {
            return Some(index);
        }
        if index == characters.len() {
            assert(first_occurrence(characters@, pattern@, index + 1) is None);
            return None;
        }
        index += 1;
    }
    None
}

/// Whether `pattern` stands anywhere.
pub fn contains_chars(characters: &[char], pattern: &[char]) -> (found: bool)
    ensures
        found == occurs(characters@, pattern@),
{
    proof {
        lemma_first_occurrence(characters@, pattern@, 0);
    }
    find_chars(characters, pattern, 0).is_some()
}

pub open spec fn begins(s: Seq<char>, prefix: Seq<char>) -> bool {
    prefix.len() <= s.len() && s.take(prefix.len() as int) == prefix
}

pub open spec fn ends(s: Seq<char>, suffix: Seq<char>) -> bool {
    suffix.len() <= s.len() && s.skip(s.len() - suffix.len()) == suffix
}

/// Whether the text begins with `prefix`.
pub fn begins_with(characters: &[char], prefix: &[char]) -> (found: bool)
    ensures
        found == begins(characters@, prefix@),
{
    assert(characters@.subrange(0, prefix@.len() as int) =~= characters@.take(prefix@.len() as int))
        by {
        if prefix@.len() <= characters@.len() {
        }
    }
    matches_at(characters, prefix, 0)
}

/// Whether the text ends with `suffix`.
pub fn ends_with(characters: &[char], suffix: &[char]) -> (found: bool)
    ensures
        found == ends(characters@, suffix@),
{
    if suffix.len() > characters.len() {
        return false;
    }
    let start: usize = characters.len() - suffix.len();
    assert(characters@.subrange(start as int, start + suffix@.len()) =~= characters@.skip(
        start as int,
    ));
    matches_at(characters, suffix, start)
}

/// Whether the text of `characters` is `text`.
pub fn is_text(characters: &[char], text: &str) -> (same: bool)
    ensures
        same == (characters@ == text@),
{
    let other = chars_of(text);
    same_chars(characters, &other)
}

/// Whether the text begins with the characters of `prefix`.
pub fn begins_with_text(characters: &[char], prefix: &str) -> (found: bool)
    ensures
        found == begins(characters@, prefix@),
{
    let other = chars_of(prefix);
    begins_with(characters, &other)
}

/// Whether the text ends with the characters of `suffix`.
pub fn ends_with_text(characters: &[char], suffix: &str) -> (found: bool)
    ensures
        found == ends(characters@, suffix@),
{
    let other = chars_of(suffix);
    ends_with(characters, &other)
}

// ---------------------------------------------------------------------------------------
// Splitting and joining
// ---------------------------------------------------------------------------------------

/// The parts of `s` between the occurrences of `c`.
pub open spec fn split(s: Seq<char>, c: char) -> Seq<Seq<char>>
    decreases s.len(),
{
    let k = position(s, c) as int;
    if k >= s.len() {
        seq![s]
    } else {
        seq![s.take(k)] + split(s.skip(k + 1), c)
    }
}

/// What the vectors of a vector hold.
pub open spec fn texts(parts: Seq<Vec<char>>) -> Seq<Seq<char>> {
    Seq::new(parts.len(), |i: int| parts[i]@)
}

pub proof fn lemma_texts_push(parts: Seq<Vec<char>>, part: Vec<char>)
    ensures
        texts(parts.push(part)) == texts(parts).push(part@),
{
    assert(texts(parts.push(part)) =~= texts(parts).push(part@));
}

/// The parts between the occurrences of `c`.
pub fn split_on(characters: &[char], c: char) -> (parts: Vec<Vec<char>>)
    ensures
        texts(parts@) == split(characters@, c),
{
    let mut parts: Vec<Vec<char>> = Vec::new();
    let mut start: usize = 0;
    assert(characters@.skip(0) =~= characters@);
    assert(texts(parts@) + split(characters@, c) =~= split(characters@, c));
    loop
        invariant
            start <= characters@.len(),
            texts(parts@) + split(characters@.skip(start as int), c) == split(characters@, c),
        decreases characters@.len() - start,
    {
        let ghost rest = characters@.skip(start as int);
        let end: usize = find_char(characters, c, start);
        proof {
            lemma_position(rest, c);
        }
        let part = copy_range(characters, start, end);
        let ghost before = texts(parts@);
        proof {
            lemma_texts_push(parts@, part);
        }
        parts.push(part);
        if end == characters.len() {
            assert(part@ =~= rest);
            assert(before + split(rest, c) =~= texts(parts@));
            return parts;
        }
        assert(part@ =~= rest.take(end - start));
        assert(rest.skip(end - start + 1) =~= characters@.skip(end + 1));
        assert(before + split(rest, c) =~= texts(parts@) + split(characters@.skip(end + 1), c));
        start = end + 1;
    }
}

/// `s` without a carriage return at its end.
pub open spec fn without_return(s: Seq<char>) -> Seq<char> {
    if s.len() > 0 && s.last() == '\r' {
        s.drop_last()
    } else {
        s
    }
}

/// The lines of `s`: each ends with a line feed, before which a carriage return is dropped;
/// the last one may also end with the text.
pub open spec fn lines(s: Seq<char>) -> Seq<Seq<char>>
    decreases s.len(),
{
    if s.len() == 0 {
        seq![]
    } else {
        let k = position(s, '\n') as int;
        if k >= s.len() {
            seq![s]
        } else {
            seq![without_return(s.take(k))] + lines(s.skip(k + 1))
        }
    }
}

/// The lines of a text.
pub fn lines_of(characters: &[char]) -> (parts: Vec<Vec<char>>)
    ensures
        texts(parts@) == lines(characters@),
{
    let mut parts: Vec<Vec<char>> = Vec::new();
    let mut start: usize = 0;
    assert(characters@.skip(0) =~= characters@);
    assert(texts(parts@) + lines(characters@) =~= lines(characters@));
    while start < characters.len()
        invariant
            start <= characters@.len(),
            texts(parts@) + lines(characters@.skip(start as int)) == lines(characters@),
        decreases characters@.len() - start,
    {
        let ghost rest = characters@.skip(start as int);
        let end: usize = find_char(characters, '\n', start);
        proof {
            lemma_position(rest, '\n');
        }
        let ghost before = texts(parts@);
        if end == characters.len() {
            let part = copy_range(characters, start, end);
            assert(part@ =~= rest);
            proof {
                lemma_texts_push(parts@, part);
            }
            parts.push(part);
            assert(before + lines(rest) =~= texts(parts@));
            return parts;
        }
        let stop: usize = if end > start && characters[end - 1] == '\r' {
            end - 1
        } else {
            end
        };
        let part = copy_range(characters, start, stop);
        assert(part@ =~= without_return(rest.take(end - start)));
        proof {
            lemma_texts_push(parts@, part);
        }
        parts.push(part);
        assert(rest.skip(end - start + 1) =~= characters@.skip(end + 1));
        assert(before + lines(rest) =~= texts(parts@) + lines(characters@.skip(end + 1)));
        start = end + 1;
    }
    assert(characters@.skip(start as int) =~= Seq::<char>::empty());
    assert(texts(parts@) + lines(characters@.skip(start as int)) =~= texts(parts@));
    parts
}

/// The number of characters before the first white space.
pub open spec fn word_len(s: Seq<char>) -> nat
    decreases s.len(),
{
    if s.len() == 0 || is_space(s[0]) {
        0
    } else {
        1 + word_len(s.drop_first())
    }
}

pub proof fn lemma_word_len(s: Seq<char>)
    ensures
        word_len(s) <= s.len(),
        forall|i: int| 0 <= i < word_len(s) ==> !is_space(#[trigger] s[i]),
        word_len(s) < s.len() ==> is_space(s[word_len(s) as int]),
    decreases s.len(),
{
    if s.len() > 0 && !is_space(s[0]) {
        let t = s.drop_first();
        lemma_word_len(t);
        assert forall|i: int| 0 <= i < word_len(s) implies !is_space(#[trigger] s[i]) by {
            if i > 0 {
                assert(t[i - 1] == s[i]);
            }
        }
    }
}

pub proof fn lemma_word_len_is(s: Seq<char>, n: int)
    requires
        0 <= n <= s.len(),
        forall|i: int| 0 <= i < n ==> !is_space(#[trigger] s[i]),
        n < s.len() ==> is_space(s[n]),
    ensures
        word_len(s) == n,
{
    lemma_word_len(s);
    let m = word_len(s) as int;
    if m < n {
        assert(!is_space(s[m]));
    } else if n < m {
        assert(!is_space(s[n]));
    }
}

/// The words of `s`, which white space separates.
pub open spec fn words(s: Seq<char>) -> Seq<Seq<char>>
    decreases s.len(),
{
    let t = trimmed_start(s);
    if t.len() == 0 {
        seq![]
    } else {
        let k = word_len(t) as int;
        proof {
            lemma_leading_spaces(s);
        }
        if 0 < k <= t.len() {
            seq![t.take(k)] + words(t.skip(k))
        } else {
            seq![]
        }
    }
}

/// The index of the first white space from `start` on, or the length.
pub fn word_end(characters: &[char], start: usize) -> (end: usize)
    requires
        start <= characters@.len(),
    ensures
        start <= end <= characters@.len(),
        end == start + word_len(characters@.skip(start as int)),
{
    let mut end: usize = start;
    while end < characters.len() && !is_whitespace(characters[end])
        invariant
            start <= end <= characters.len(),
            forall|i: int| start <= i < end ==> !is_space(#[trigger] characters@[i]),
        decreases characters.len() - end,
    {
        end += 1;
    }
    proof {
        lemma_word_len_is(characters@.skip(start as int), end - start);
    }
    end
}

/// The index of the first character that is no white space from `start` on, or the length.
pub fn skip_spaces(characters: &[char], start: usize) -> (end: usize)
    requires
        start <= characters@.len(),
    ensures
        start <= end <= characters@.len(),
        end == start + leading_spaces(characters@.skip(start as int)),
        characters@.skip(end as int) == trimmed_start(characters@.skip(start as int)),
{
    let mut end: usize = start;
    while end < characters.len() && is_whitespace(characters[end])
        invariant
            start <= end <= characters.len(),
            forall|i: int| start <= i < end ==> is_space(#[trigger] characters@[i]),
        decreases characters.len() - end,
    {
        end += 1;
    }
    proof {
        lemma_leading_spaces_is(characters@.skip(start as int), end - start);
        assert(characters@.skip(start as int).skip(end - start) =~= characters@.skip(end as int));
    }
    end
}

/// The words of a text.
pub fn words_of(characters: &[char]) -> (parts: Vec<Vec<char>>)
    ensures
        texts(parts@) == words(characters@),
{
    let mut parts: Vec<Vec<char>> = Vec::new();
    let mut start: usize = 0;
    assert(characters@.skip(0) =~= characters@);
    assert(texts(parts@) + words(characters@) =~= words(characters@));
    loop
        invariant
            start <= characters@.len(),
            texts(parts@) + words(characters@.skip(start as int)) == words(characters@),
        decreases characters@.len() - start,
    {
        let ghost rest = characters@.skip(start as int);
        let begin: usize = skip_spaces(characters, start);
        let ghost before = texts(parts@);
        if begin == characters.len() {
            assert(trimmed_start(rest).len() == 0);
            assert(before + words(rest) =~= before);
            return parts;
        }
        let end: usize = word_end(characters, begin);
        proof {
            lemma_leading_spaces(rest);
            assert(rest[leading_spaces(rest) as int] == characters@[begin as int]);
            lemma_word_len(trimmed_start(rest));
            assert(trimmed_start(rest)[0] == characters@[begin as int]);
        }
        let part = copy_range(characters, begin, end);
        assert(part@ =~= trimmed_start(rest).take(end - begin));
        proof {
            lemma_texts_push(parts@, part);
        }
        parts.push(part);
        assert(trimmed_start(rest).skip(end - begin) =~= characters@.skip(end as int));
        assert(before + words(rest) =~= texts(parts@) + words(characters@.skip(end as int)));
        start = end;
    }
}

/// The parts one after the other, with `separator` between them.
pub open spec fn join(parts: Seq<Seq<char>>, separator: Seq<char>) -> Seq<char>
    decreases parts.len(),
{
    if parts.len() == 0 {
        seq![]
    } else if parts.len() == 1 {
        parts[0]
    } else {
        join(parts.drop_last(), separator) + separator + parts.last()
    }
}

/// Joins the parts with `separator` between them.
pub fn join_parts(parts: &[Vec<char>], separator: &[char]) -> (joined: Vec<char>)
    ensures
        joined@ == join(texts(parts@), separator@),
{
    let mut joined: Vec<char> = Vec::new();
    let mut i: usize = 0;
    while i < parts.len()
        invariant
            i <= parts.len(),
            joined@ == join(texts(parts@.take(i as int)), separator@),
        decreases parts.len() - i,
    {
        let ghost before = texts(parts@.take(i as int));
        let ghost after = texts(parts@.take(i + 1));
        assert(after.drop_last() =~= before);
        assert(after.last() == parts@[i as int]@);
        if i > 0 {
            push_all(&mut joined, separator);
        }
        push_all(&mut joined, &parts[i]);
        assert(joined@ =~= join(after, separator@));
        i += 1;
    }
    assert(parts@.take(parts@.len() as int) =~= parts@);
    joined
}

/// `s` with every run of white space made one blank, and none at the ends.
pub open spec fn collapsed(s: Seq<char>) -> Seq<char> {
    join(words(s), seq![' '])
}

/// Makes every run of white space one blank and drops it at the ends.
pub fn collapse_chars(characters: &[char]) -> (result: Vec<char>)
    ensures
        result@ == collapsed(characters@),
{
    let parts = words_of(characters);
    let mut blank: Vec<char> = Vec::new();
    blank.push(' ');
    assert(blank@ =~= seq![' ']);
    join_parts(&parts, &blank)
}

/// Makes every run of white space one blank and drops it at the ends.
pub fn collapse_whitespace(value: &str) -> (result: String)
    ensures
        result@ == collapsed(value@),
{
    let characters = chars_of(value);
    let result = collapse_chars(&characters);
    string_of(&result)
}

// ---------------------------------------------------------------------------------------
// Rewriting
// ---------------------------------------------------------------------------------------

/// `s` with a carriage return, alone or before a line feed, made one line feed.
pub open spec fn with_line_feeds(s: Seq<char>) -> Seq<char>
    decreases s.len(),
{
    if s.len() == 0 {
        seq![]
    } else if s[0] == '\r' {
        if s.len() > 1 && s[1] == '\n' {
            seq!['\n'] + with_line_feeds(s.skip(2))
        } else {
            seq!['\n'] + with_line_feeds(s.skip(1))
        }
    } else {
        seq![s[0]] + with_line_feeds(s.skip(1))
    }
}

/// A text keeps its lines: what has no carriage return stays as it is, afterwards there is none,
/// and to do it again changes nothing.
pub proof fn law_line_feeds(s: Seq<char>)
    ensures
        !with_line_feeds(s).contains('\r'),
        !s.contains('\r') ==> with_line_feeds(s) == s,
        with_line_feeds(with_line_feeds(s)) == with_line_feeds(s),
    decreases s.len(),
{
    if s.len() > 0 {
        let rest = if s[0] == '\r' && s.len() > 1 && s[1] == '\n' {
            s.skip(2)
        } else {
            s.skip(1)
        };
        law_line_feeds(rest);
        let fed = with_line_feeds(s);
        assert(fed.skip(1) =~= with_line_feeds(rest));
        if fed.contains('\r') {
            let i = choose|i: int| 0 <= i < fed.len() && fed[i] == '\r';
            assert(with_line_feeds(rest)[i - 1] == '\r');
        }
        if !s.contains('\r') {
            assert(s[0] != '\r');
            assert forall|i: int| 0 <= i < rest.len() implies rest[i] != '\r' by {
                assert(rest[i] == s[i + 1]);
            }
            assert(seq![s[0]] + s.skip(1) =~= s);
        }
    }
}

/// Makes every line ending one line feed.
pub fn feed_lines(characters: &[char]) -> (result: Vec<char>)
    ensures
        result@ == with_line_feeds(characters@),
{
    let mut result: Vec<char> = Vec::new();
    let mut i: usize = 0;
    assert(characters@.skip(0) =~= characters@);
    assert(result@ + with_line_feeds(characters@) =~= with_line_feeds(characters@));
    while i < characters.len()
        invariant
            i <= characters.len(),
            result@ + with_line_feeds(characters@.skip(i as int)) == with_line_feeds(characters@),
        decreases characters.len() - i,
    {
        let ghost rest = characters@.skip(i as int);
        let ghost before = result@;
        assert(rest.skip(1) =~= characters@.skip(i + 1));
        if characters[i] == '\r' {
            result.push('\n');
            if i + 1 < characters.len() && characters[i + 1] == '\n' {
                assert(rest[1] == characters@[i + 1]);
                assert(rest.skip(2) =~= characters@.skip(i + 2));
                assert(before + with_line_feeds(rest) =~= result@ + with_line_feeds(
                    characters@.skip(i + 2),
                ));
                i += 2;
            } else {
                assert(before + with_line_feeds(rest) =~= result@ + with_line_feeds(
                    characters@.skip(i + 1),
                ));
                i += 1;
            }
        } else {
            result.push(characters[i]);
            assert(before + with_line_feeds(rest) =~= result@ + with_line_feeds(
                characters@.skip(i + 1),
            ));
            i += 1;
        }
    }
    assert(characters@.skip(i as int) =~= Seq::<char>::empty());
    assert(result@ + with_line_feeds(characters@.skip(i as int)) =~= result@);
    result
}

/// Makes every line ending of `text` one line feed.
pub fn normalise_newlines(text: &str) -> (result: String)
    ensures
        result@ == with_line_feeds(text@),
{
    let characters = chars_of(text);
    let result = feed_lines(&characters);
    string_of(&result)
}

/// `s` repeated `n` times.
pub open spec fn repeated(s: Seq<char>, n: nat) -> Seq<char>
    decreases n,
{
    if n == 0 {
        seq![]
    } else {
        repeated(s, (n - 1) as nat) + s
    }
}

/// Repeats a text.
pub fn repeat_chars(characters: &[char], count: usize) -> (result: Vec<char>)
    ensures
        result@ == repeated(characters@, count as nat),
{
    let mut result: Vec<char> = Vec::new();
    let mut i: usize = 0;
    while i < count
        invariant
            i <= count,
            result@ == repeated(characters@, i as nat),
        decreases count - i,
    {
        push_all(&mut result, characters);
        i += 1;
    }
    result
}

/// The decimal digit of a number below ten.
pub open spec fn digit_char(d: nat) -> char {
    ((d + 0x30) as u32) as char
}

/// `n` in decimal.
pub open spec fn decimal(n: nat) -> Seq<char>
    decreases n,
{
    if n < 10 {
        seq![digit_char(n)]
    } else {
        decimal(n / 10).push(digit_char(n % 10))
    }
}

/// Writes a number in decimal.
pub fn decimal_chars(n: u128) -> (digits: Vec<char>)
    ensures
        digits@ == decimal(n as nat),
    decreases n,
{
    let last: u8 = (n % 10) as u8;
    let digit: char = (last + 0x30) as char;
    if n < 10 {
        let mut digits: Vec<char> = Vec::new();
        digits.push(digit);
        assert(digits@ =~= seq![digit_char(n as nat)]);
        digits
    } else {
        let mut digits = decimal_chars(n / 10);
        digits.push(digit);
        digits
    }
}

/// Appends a text to a vector of characters.
pub fn push_text(target: &mut Vec<char>, more: &str)
    ensures
        final(target)@ == old(target)@ + more@,
{
    let characters = chars_of(more);
    push_all(target, &characters);
}

/// Appends a number in decimal.
pub fn push_number(target: &mut Vec<char>, n: usize)
    ensures
        final(target)@ == old(target)@ + decimal(n as nat),
{
    let digits = decimal_chars(n as u128);
    push_all(target, &digits);
}

} // verus!
