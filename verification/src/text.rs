//! Text as a sequence of characters that is addressed by UTF-8 byte offsets.
//!
//! Everything a reader remembers about a document is a byte offset into its text. The
//! definitions here say what such an offset means for a sequence of characters, and the
//! functions compute with both without ever cutting a character in two.
use vstd::prelude::*;
use vstd::utf8::*;

verus! {

/// `String::push` appends one character.
pub assume_specification[ String::push ](string: &mut String, character: char)
    ensures
        final(string)@ == old(string)@.push(character),
;

/// The smaller of two numbers.
pub open spec fn least(a: int, b: int) -> int {
    if a <= b {
        a
    } else {
        b
    }
}

/// The larger of two numbers.
pub open spec fn greatest(a: int, b: int) -> int {
    if a >= b {
        a
    } else {
        b
    }
}

// ---------------------------------------------------------------------------------------
// Byte offsets
// ---------------------------------------------------------------------------------------

/// The number of bytes of `c` in UTF-8.
pub open spec fn char_width(c: char) -> nat {
    if (c as u32) < 0x80 {
        1
    } else if (c as u32) < 0x800 {
        2
    } else if (c as u32) < 0x10000 {
        3
    } else {
        4
    }
}

/// The number of bytes of `s` in UTF-8.
pub open spec fn byte_len(s: Seq<char>) -> nat
    decreases s.len(),
{
    if s.len() == 0 {
        0
    } else {
        byte_len(s.drop_last()) + char_width(s.last())
    }
}

/// The byte offset at which the character with index `k` starts, or the text ends.
pub open spec fn offset_at(s: Seq<char>, k: int) -> nat {
    byte_len(s.take(k))
}

/// Some character of `s` starts at `offset`, or `s` ends there.
pub open spec fn is_boundary(s: Seq<char>, offset: int) -> bool {
    exists|k: int| 0 <= k <= s.len() && #[trigger] offset_at(s, k) == offset
}

/// The index of the character that starts at the boundary `offset`.
pub open spec fn index_at(s: Seq<char>, offset: int) -> int {
    choose|k: int| 0 <= k <= s.len() && #[trigger] offset_at(s, k) == offset
}

/// The part of `s` between two boundaries.
pub open spec fn bytes_between(s: Seq<char>, start: int, end: int) -> Seq<char> {
    s.subrange(index_at(s, start), index_at(s, end))
}

/// The last boundary of `s` that is not after `offset`.
pub open spec fn floor_boundary(s: Seq<char>, offset: int) -> nat
    decreases s.len(),
{
    if s.len() == 0 || byte_len(s) <= offset {
        byte_len(s)
    } else {
        floor_boundary(s.drop_last(), offset)
    }
}

pub proof fn lemma_byte_len_push(s: Seq<char>, c: char)
    ensures
        byte_len(s.push(c)) == byte_len(s) + char_width(c),
{
    assert(s.push(c).drop_last() =~= s);
}

pub proof fn lemma_byte_len_single(c: char)
    ensures
        byte_len(seq![c]) == char_width(c),
{
    assert(seq![c] =~= Seq::<char>::empty().push(c));
    lemma_byte_len_push(Seq::<char>::empty(), c);
}

pub proof fn lemma_byte_len_concat(a: Seq<char>, b: Seq<char>)
    ensures
        byte_len(a + b) == byte_len(a) + byte_len(b),
    decreases b.len(),
{
    if b.len() == 0 {
        assert(a + b =~= a);
    } else {
        assert((a + b).drop_last() =~= a + b.drop_last());
        assert((a + b).last() == b.last());
        lemma_byte_len_concat(a, b.drop_last());
    }
}

pub proof fn lemma_byte_len_at_least_len(s: Seq<char>)
    ensures
        s.len() <= byte_len(s) <= 4 * s.len(),
    decreases s.len(),
{
    if s.len() > 0 {
        lemma_byte_len_at_least_len(s.drop_last());
    }
}

/// Offsets grow with the index, by at least one byte for every character.
pub proof fn lemma_offset_monotone(s: Seq<char>, i: int, j: int)
    requires
        0 <= i <= j <= s.len(),
    ensures
        offset_at(s, i) + (j - i) <= offset_at(s, j),
        offset_at(s, j) == offset_at(s, i) + byte_len(s.subrange(i, j)),
{
    assert(s.take(j) =~= s.take(i) + s.subrange(i, j));
    lemma_byte_len_concat(s.take(i), s.subrange(i, j));
    lemma_byte_len_at_least_len(s.subrange(i, j));
}

pub proof fn lemma_offset_ends(s: Seq<char>)
    ensures
        offset_at(s, 0) == 0,
        offset_at(s, s.len() as int) == byte_len(s),
        is_boundary(s, 0),
        is_boundary(s, byte_len(s) as int),
        index_at(s, 0) == 0,
        index_at(s, byte_len(s) as int) == s.len(),
{
    assert(s.take(0) =~= Seq::<char>::empty());
    assert(s.take(s.len() as int) =~= s);
    assert(offset_at(s, 0) == 0);
    lemma_index_of_offset(s, 0);
    lemma_index_of_offset(s, s.len() as int);
}

pub proof fn lemma_offset_step(s: Seq<char>, k: int)
    requires
        0 <= k < s.len(),
    ensures
        offset_at(s, k + 1) == offset_at(s, k) + char_width(s[k]),
        offset_at(s, k + 1) <= byte_len(s),
{
    assert(s.take(k + 1).drop_last() =~= s.take(k));
    lemma_offset_monotone(s, k + 1, s.len() as int);
    assert(s.take(s.len() as int) =~= s);
}

/// Different characters start at different offsets.
pub proof fn lemma_index_of_offset(s: Seq<char>, k: int)
    requires
        0 <= k <= s.len(),
    ensures
        is_boundary(s, offset_at(s, k) as int),
        index_at(s, offset_at(s, k) as int) == k,
{
    let o = offset_at(s, k) as int;
    let j = index_at(s, o);
    assert(offset_at(s, k) == o);
    assert(0 <= j <= s.len() && offset_at(s, j) == o);
    if j < k {
        lemma_offset_monotone(s, j, k);
    } else if k < j {
        lemma_offset_monotone(s, k, j);
    }
}

pub proof fn lemma_boundary_index(s: Seq<char>, offset: int)
    requires
        is_boundary(s, offset),
    ensures
        0 <= index_at(s, offset) <= s.len(),
        offset_at(s, index_at(s, offset)) == offset,
        0 <= offset <= byte_len(s),
{
    let k = index_at(s, offset);
    lemma_offset_monotone(s, k, s.len() as int);
    assert(s.take(s.len() as int) =~= s);
}

pub proof fn lemma_boundary_order(s: Seq<char>, a: int, b: int)
    requires
        is_boundary(s, a),
        is_boundary(s, b),
    ensures
        a <= b <==> index_at(s, a) <= index_at(s, b),
        a < b <==> index_at(s, a) < index_at(s, b),
{
    lemma_boundary_index(s, a);
    lemma_boundary_index(s, b);
    let i = index_at(s, a);
    let j = index_at(s, b);
    if i <= j {
        lemma_offset_monotone(s, i, j);
    } else {
        lemma_offset_monotone(s, j, i);
    }
}

/// Between the starts of two neighbouring characters there is no boundary.
pub proof fn lemma_no_boundary_inside(s: Seq<char>, k: int, offset: int)
    requires
        0 <= k < s.len(),
        offset_at(s, k) < offset < offset_at(s, k + 1),
    ensures
        !is_boundary(s, offset),
{
    if is_boundary(s, offset) {
        lemma_boundary_index(s, offset);
        let j = index_at(s, offset);
        if j <= k {
            lemma_offset_monotone(s, j, k);
        } else {
            lemma_offset_monotone(s, k + 1, j);
        }
    }
}

pub proof fn lemma_floor_boundary(s: Seq<char>, offset: int)
    requires
        0 <= offset,
    ensures
        is_boundary(s, floor_boundary(s, offset) as int),
        floor_boundary(s, offset) <= offset,
        floor_boundary(s, offset) <= byte_len(s),
        forall|b: int| floor_boundary(s, offset) < b <= offset ==> !#[trigger] is_boundary(s, b),
        is_boundary(s, offset) ==> floor_boundary(s, offset) == offset,
        byte_len(s) <= offset ==> floor_boundary(s, offset) == byte_len(s),
    decreases s.len(),
{
    lemma_offset_ends(s);
    if s.len() == 0 || byte_len(s) <= offset {
        assert forall|b: int| byte_len(s) < b <= offset implies !#[trigger] is_boundary(s, b) by {
            if is_boundary(s, b) {
                lemma_boundary_index(s, b);
            }
        }
        if is_boundary(s, offset) {
            lemma_boundary_index(s, offset);
        }
    } else {
        let t = s.drop_last();
        let f = floor_boundary(t, offset) as int;
        lemma_floor_boundary(t, offset);
        lemma_boundary_index(t, f);
        let k = index_at(t, f);
        assert(t.take(k) =~= s.take(k));
        lemma_index_of_offset(s, k);
        assert forall|b: int| f < b <= offset implies !#[trigger] is_boundary(s, b) by {
            if is_boundary(s, b) {
                lemma_boundary_index(s, b);
                let j = index_at(s, b);
                if j == s.len() {
                    assert(s.take(j) =~= s);
                } else {
                    assert(t.take(j) =~= s.take(j));
                    lemma_index_of_offset(t, j);
                }
            }
        }
    }
}

proof fn lemma_encode_scalar_len(c: char)
    ensures
        encode_scalar(c as u32).len() == char_width(c),
{
    char_is_scalar(c);
}

proof fn lemma_encode_concat(a: Seq<char>, b: Seq<char>)
    ensures
        encode_utf8(a + b) == encode_utf8(a) + encode_utf8(b),
    decreases a.len(),
{
    if a.len() == 0 {
        assert(a + b =~= b);
        assert(encode_utf8(a) + encode_utf8(b) =~= encode_utf8(b));
    } else {
        assert((a + b).drop_first() =~= a.drop_first() + b);
        lemma_encode_concat(a.drop_first(), b);
        assert(encode_utf8(a + b) =~= encode_utf8(a) + encode_utf8(b));
    }
}

/// The encoded text has as many bytes as `byte_len` says.
pub proof fn lemma_encode_len(s: Seq<char>)
    ensures
        encode_utf8(s).len() == byte_len(s),
    decreases s.len(),
{
    if s.len() > 0 {
        lemma_encode_len(s.drop_first());
        lemma_encode_scalar_len(s[0]);
        assert(s =~= seq![s[0]] + s.drop_first());
        lemma_byte_len_concat(seq![s[0]], s.drop_first());
        lemma_byte_len_single(s[0]);
    }
}

proof fn lemma_encode_injective(a: Seq<char>, b: Seq<char>)
    requires
        encode_utf8(a) == encode_utf8(b),
    ensures
        a == b,
{
    encode_utf8_decode_utf8(a);
    encode_utf8_decode_utf8(b);
}

/// The boundaries of the encoded text are those of the characters.
pub proof fn lemma_encode_boundary(s: Seq<char>, offset: int)
    requires
        0 <= offset,
    ensures
        is_char_boundary(encode_utf8(s), offset) <==> is_boundary(s, offset),
    decreases s.len(),
{
    let bytes = encode_utf8(s);
    encode_utf8_valid_utf8(s);
    lemma_encode_len(s);
    lemma_offset_ends(s);
    if offset > byte_len(s) {
        if is_boundary(s, offset) {
            lemma_boundary_index(s, offset);
        }
    } else if offset > 0 {
        let t = s.drop_first();
        let w = char_width(s[0]) as int;
        encode_utf8_first_scalar(s);
        lemma_encode_scalar_len(s[0]);
        assert(pop_first_scalar(bytes) =~= encode_utf8(t));
        encode_utf8_valid_utf8(t);
        assert(s =~= seq![s[0]] + t);
        lemma_byte_len_single(s[0]);
        if offset >= w {
            lemma_encode_boundary(t, offset - w);
            if is_boundary(s, offset) {
                lemma_boundary_index(s, offset);
                let k = index_at(s, offset);
                assert(k > 0);
                assert(s.take(k) =~= seq![s[0]] + t.take(k - 1));
                lemma_byte_len_concat(seq![s[0]], t.take(k - 1));
                assert(offset_at(t, k - 1) == offset - w);
            }
            if is_boundary(t, offset - w) {
                lemma_boundary_index(t, offset - w);
                let k = index_at(t, offset - w);
                assert(s.take(k + 1) =~= seq![s[0]] + t.take(k));
                lemma_byte_len_concat(seq![s[0]], t.take(k));
                assert(offset_at(s, k + 1) == offset);
            }
        } else {
            assert(!is_char_boundary(encode_utf8(t), offset - w));
            assert(s.take(1) =~= seq![s[0]]);
            assert(offset_at(s, 1) == w);
            lemma_no_boundary_inside(s, 0, offset);
        }
    }
}

// ---------------------------------------------------------------------------------------
// Strings and vectors of characters
// ---------------------------------------------------------------------------------------

/// The characters of `text`.
pub fn chars_of(text: &str) -> (characters: Vec<char>)
    ensures
        characters@ == text@,
        byte_len(text@) <= usize::MAX,
{
    let total: usize = byte_length(text);
    let mut characters: Vec<char> = Vec::new();
    for c in iter: text.chars()
        invariant
            iter.seq() == text@,
            characters@ == text@.take(iter.index()),
    {
        characters.push(c);
        assert(text@.take(iter.index() + 1) =~= text@.take(iter.index()).push(c));
    }
    assert(text@.take(text@.len() as int) =~= text@);
    characters
}

/// The string of the given characters.
pub fn string_of(characters: &[char]) -> (text: String)
    ensures
        text@ == characters@,
{
    let mut text = String::new();
    let mut i: usize = 0;
    while i < characters.len()
        invariant
            i <= characters.len(),
            text@ == characters@.take(i as int),
        decreases characters.len() - i,
    {
        text.push(characters[i]);
        assert(characters@.take(i + 1) =~= characters@.take(i as int).push(characters@[i as int]));
        i += 1;
    }
    assert(characters@.take(characters@.len() as int) =~= characters@);
    text
}

/// The characters from `start` to `end`.
pub fn copy_range(characters: &[char], start: usize, end: usize) -> (part: Vec<char>)
    requires
        start <= end <= characters@.len(),
    ensures
        part@ == characters@.subrange(start as int, end as int),
{
    let mut part: Vec<char> = Vec::new();
    let mut i: usize = start;
    while i < end
        invariant
            start <= i <= end <= characters@.len(),
            part@ == characters@.subrange(start as int, i as int),
        decreases end - i,
    {
        part.push(characters[i]);
        assert(characters@.subrange(start as int, i + 1) =~= characters@.subrange(
            start as int,
            i as int,
        ).push(characters@[i as int]));
        i += 1;
    }
    part
}

/// Appends characters to a vector of characters.
pub fn push_all(target: &mut Vec<char>, more: &[char])
    ensures
        final(target)@ == old(target)@ + more@,
{
    let mut i: usize = 0;
    while i < more.len()
        invariant
            i <= more.len(),
            target@ == old(target)@ + more@.take(i as int),
        decreases more.len() - i,
    {
        target.push(more[i]);
        assert(more@.take(i + 1) =~= more@.take(i as int).push(more@[i as int]));
        i += 1;
    }
    assert(more@.take(more@.len() as int) =~= more@);
}

/// Whether two sequences of characters are the same.
pub fn same_chars(left: &[char], right: &[char]) -> (same: bool)
    ensures
        same == (left@ == right@),
{
    if left.len() != right.len() {
        return false;
    }
    let mut i: usize = 0;
    while i < left.len()
        invariant
            i <= left.len() == right.len(),
            left@.take(i as int) == right@.take(i as int),
        decreases left.len() - i,
    {
        if left[i] != right[i] {
            return false;
        }
        assert(left@.take(i + 1) =~= left@.take(i as int).push(left@[i as int]));
        assert(right@.take(i + 1) =~= right@.take(i as int).push(right@[i as int]));
        i += 1;
    }
    assert(left@.take(left@.len() as int) =~= left@);
    assert(right@.take(right@.len() as int) =~= right@);
    true
}

/// Whether two strings hold the same characters.
pub fn same_text(left: &str, right: &str) -> (same: bool)
    ensures
        same == (left@ == right@),
{
    let left_chars = chars_of(left);
    let right_chars = chars_of(right);
    same_chars(&left_chars, &right_chars)
}

/// The number of bytes of `c` in UTF-8.
pub fn width_of(c: char) -> (width: usize)
    ensures
        width == char_width(c),
{
    let code: u32 = c as u32;
    if code < 0x80 {
        1
    } else if code < 0x800 {
        2
    } else if code < 0x10000 {
        3
    } else {
        4
    }
}

/// The number of bytes of `text`.
pub fn byte_length(text: &str) -> (length: usize)
    ensures
        length == byte_len(text@),
{
    proof {
        lemma_encode_len(text@);
    }
    text.as_bytes().len()
}

/// The number of bytes that the given characters take in UTF-8.
pub fn byte_length_of(characters: &[char]) -> (length: usize)
    requires
        byte_len(characters@) <= usize::MAX,
    ensures
        length == byte_len(characters@),
{
    let mut length: usize = 0;
    let mut i: usize = 0;
    while i < characters.len()
        invariant
            i <= characters.len(),
            length == offset_at(characters@, i as int),
            byte_len(characters@) <= usize::MAX,
        decreases characters.len() - i,
    {
        proof {
            lemma_offset_step(characters@, i as int);
        }
        length += width_of(characters[i]);
        i += 1;
    }
    proof {
        lemma_offset_ends(characters@);
    }
    length
}

/// Whether `offset` lies between two characters of `text`, or at one of its ends.
pub fn at_boundary(text: &str, offset: usize) -> (at: bool)
    ensures
        at == is_boundary(text@, offset as int),
{
    proof {
        lemma_encode_boundary(text@, offset as int);
    }
    text.is_char_boundary(offset)
}

/// The part of `text` from one boundary to another.
pub fn slice(text: &str, start: usize, end: usize) -> (part: &str)
    requires
        start <= end,
        is_boundary(text@, start as int),
        is_boundary(text@, end as int),
    ensures
        part@ == bytes_between(text@, start as int, end as int),
        byte_len(part@) == end - start,
{
    let ghost s = text@;
    let ghost i = index_at(s, start as int);
    let ghost j = index_at(s, end as int);
    proof {
        lemma_encode_boundary(s, end as int);
        lemma_boundary_index(s, start as int);
        lemma_boundary_index(s, end as int);
        lemma_boundary_order(s, start as int, end as int);
    }
    let head = text.split_at(end).0;
    proof {
        assert(s =~= s.take(j) + s.skip(j));
        lemma_encode_concat(s.take(j), s.skip(j));
        lemma_encode_len(s.take(j));
        assert(encode_utf8(s).subrange(0, end as int) =~= encode_utf8(s.take(j)));
        lemma_encode_injective(head@, s.take(j));
        assert(s.take(j).take(i) =~= s.take(i));
        lemma_index_of_offset(s.take(j), i);
        lemma_encode_boundary(s.take(j), start as int);
    }
    let part = head.split_at(start).1;
    proof {
        let t = s.take(j);
        assert(t =~= t.take(i) + t.skip(i));
        lemma_encode_concat(t.take(i), t.skip(i));
        lemma_encode_len(t.take(i));
        lemma_encode_len(t);
        assert(encode_utf8(t).subrange(start as int, encode_utf8(t).len() as int) =~= encode_utf8(
            t.skip(i),
        ));
        lemma_encode_injective(part@, t.skip(i));
        assert(t.skip(i) =~= s.subrange(i, j));
        lemma_offset_monotone(s, i, j);
    }
    part
}

/// The last boundary of `text` that is not after `offset`.
pub fn floor_char_boundary(text: &str, offset: usize) -> (floor: usize)
    ensures
        floor == floor_boundary(text@, offset as int),
        floor <= offset,
        floor <= byte_len(text@),
        is_boundary(text@, floor as int),
{
    let length: usize = byte_length(text);
    proof {
        lemma_floor_boundary(text@, offset as int);
        lemma_offset_ends(text@);
    }
    if offset >= length {
        return length;
    }
    let mut floor: usize = offset;
    while floor > 0 && !at_boundary(text, floor)
        invariant
            floor_boundary(text@, offset as int) <= floor <= offset,
            is_boundary(text@, floor_boundary(text@, offset as int) as int),
            forall|b: int|
                floor_boundary(text@, offset as int) < b <= offset ==> !#[trigger] is_boundary(
                    text@,
                    b,
                ),
        decreases floor,
    {
        floor -= 1;
    }
    floor
}

} // verus!
