//! Comparing the labels of a table of contents with each other and with the text.
use vstd::prelude::*;

use crate::strings::{
    begins, begins_with, begins_with_text, contains_chars, is_text, lines, lines_of, occurs,
    texts, trim_chars, trimmed,
};
use crate::text::{
    at_boundary, byte_len, byte_length, bytes_between, chars_of, is_boundary, lemma_boundary_index,
    lemma_offset_ends, push_all, same_chars, slice,
};
use crate::unicode::{alphanumeric, is_alphanumeric, lowercase, lowercase_of};

verus! {

/// What is compared of a label: its letters and digits in lower case.
pub open spec fn semantic_key(label: Seq<char>) -> Seq<char>
    decreases label.len(),
{
    if label.len() == 0 {
        seq![]
    } else if alphanumeric(label.last()) {
        semantic_key(label.drop_last()) + lowercase(label.last())
    } else {
        semantic_key(label.drop_last())
    }
}

/// The letters and digits of a label in lower case.
pub fn key_of(label: &[char]) -> (key: Vec<char>)
    ensures
        key@ == semantic_key(label@),
{
    let mut key: Vec<char> = Vec::new();
    let mut i: usize = 0;
    while i < label.len()
        invariant
            i <= label.len(),
            key@ == semantic_key(label@.take(i as int)),
        decreases label.len() - i,
    {
        assert(label@.take(i + 1).drop_last() =~= label@.take(i as int));
        if is_alphanumeric(label[i]) {
            let lower = lowercase_of(label[i]);
            push_all(&mut key, &lower);
        }
        i += 1;
    }
    assert(label@.take(label@.len() as int) =~= label@);
    key
}

/// One of the keys is the other, or with at least two characters the beginning of it.
pub open spec fn compatible_keys(left: Seq<char>, right: Seq<char>) -> bool {
    ||| left == right
    ||| left.len() >= 2 && begins(right, left)
    ||| right.len() >= 2 && begins(left, right)
}

/// Whether two keys may belong to the same heading.
pub fn keys_compatible(left: &[char], right: &[char]) -> (compatible: bool)
    ensures
        compatible == compatible_keys(left@, right@),
{
    same_chars(left, right) || (left.len() >= 2 && begins_with(right, left)) || (right.len() >= 2
        && begins_with(left, right))
}

/// The labels may belong to the same heading.
pub open spec fn compatible(left: Seq<char>, right: Seq<char>) -> bool {
    compatible_keys(semantic_key(left), semantic_key(right))
}

/// Whether two labels may belong to the same heading.
pub fn labels_compatible(left: &str, right: &str) -> (result: bool)
    ensures
        result == compatible(left@, right@),
{
    let left_key = key_of(&chars_of(left));
    let right_key = key_of(&chars_of(right));
    keys_compatible(&left_key, &right_key)
}

/// The key of a label shows up in that of a line: they are the same, or the shorter one has
/// at least two characters and stands in the longer one.
pub open spec fn visible_key(label: Seq<char>, line: Seq<char>) -> bool {
    label.len() > 0 && {
        ||| label == line
        ||| label.len() >= 2 && occurs(line, label)
        ||| line.len() >= 2 && occurs(label, line)
    }
}

/// Whether the key of a label shows up in that of a line.
pub fn key_is_visible(label: &[char], line: &[char]) -> (visible: bool)
    ensures
        visible == visible_key(label@, line@),
{
    label.len() > 0 && (same_chars(label, line) || (label.len() >= 2 && contains_chars(line, label))
        || (line.len() >= 2 && contains_chars(label, line)))
}

/// The first of `parts` that is more than white space, without the white space round it;
/// nothing where there is none.
pub open spec fn first_visible(parts: Seq<Seq<char>>) -> Seq<char>
    decreases parts.len(),
{
    if parts.len() == 0 {
        seq![]
    } else if trimmed(parts[0]).len() > 0 {
        trimmed(parts[0])
    } else {
        first_visible(parts.drop_first())
    }
}

/// The text from the byte `offset` on; nothing where no character starts there.
pub open spec fn text_from(s: Seq<char>, offset: int) -> Seq<char> {
    if is_boundary(s, offset) {
        bytes_between(s, offset, byte_len(s) as int)
    } else {
        seq![]
    }
}

/// The text from the byte `offset` on.
pub fn chars_from(text: &str, offset: usize) -> (rest: Vec<char>)
    ensures
        rest@ == text_from(text@, offset as int),
{
    if at_boundary(text, offset) {
        let end: usize = byte_length(text);
        proof {
            lemma_offset_ends(text@);
            lemma_boundary_index(text@, offset as int);
        }
        chars_of(slice(text, offset, end))
    } else {
        Vec::new()
    }
}

/// The first line that shows anything.
fn first_visible_line(parts: &[Vec<char>]) -> (line: Vec<char>)
    ensures
        line@ == first_visible(texts(parts@)),
{
    let ghost all = texts(parts@);
    let mut i: usize = 0;
    assert(all.skip(0) =~= all);
    while i < parts.len()
        invariant
            i <= parts.len(),
            all == texts(parts@),
            first_visible(all) == first_visible(all.skip(i as int)),
        decreases parts.len() - i,
    {
        let line = trim_chars(&parts[i]);
        assert(all.skip(i as int)[0] == parts@[i as int]@);
        assert(all.skip(i as int).drop_first() =~= all.skip(i + 1));
        if line.len() > 0 {
            return line;
        }
        i += 1;
    }
    assert(all.skip(i as int) =~= seq![]);
    Vec::new()
}

/// The label can be read in the first line at the byte `offset` that shows anything.
pub open spec fn visible_at(s: Seq<char>, label: Seq<char>, offset: int) -> bool {
    visible_key(
        semantic_key(label),
        semantic_key(first_visible(lines(text_from(s, offset)))),
    )
}

/// Whether the label can be read where the text at the byte `offset` begins.
pub fn label_is_visible_at(text: &str, label: &str, offset: usize) -> (visible: bool)
    ensures
        visible == visible_at(text@, label@, offset as int),
{
    let rest = chars_from(text, offset);
    let parts = lines_of(&rest);
    let line = first_visible_line(&parts);
    let label_key = key_of(&chars_of(label));
    let line_key = key_of(&line);
    key_is_visible(&label_key, &line_key)
}

/// The key of a part of a book that has no heading of its own in the text.
pub open spec fn landmark_key(key: Seq<char>) -> bool {
    ||| key == "目录"@
    ||| key == "目錄"@
    ||| key == "封面"@
    ||| key == "扉页"@
    ||| key == "扉頁"@
    ||| key == "书名页"@
    ||| key == "書名頁"@
    ||| key == "copyright"@
    ||| begins(key, "版权"@)
    ||| begins(key, "版權"@)
}

/// Whether a key is that of a part of a book that has no heading of its own in the text.
pub fn key_is_landmark(key: &[char]) -> (landmark: bool)
    ensures
        landmark == landmark_key(key@),
{
    is_text(key, "目录") || is_text(key, "目錄") || is_text(key, "封面") || is_text(key, "扉页")
        || is_text(key, "扉頁") || is_text(key, "书名页") || is_text(key, "書名頁") || is_text(
        key,
        "copyright",
    ) || begins_with_text(key, "版权") || begins_with_text(key, "版權")
}

pub open spec fn landmark(label: Seq<char>) -> bool {
    landmark_key(semantic_key(label))
}

/// Whether a label names a part of a book that has no heading of its own in the text.
pub fn label_is_landmark(label: &str) -> (result: bool)
    ensures
        result == landmark(label@),
{
    let key = key_of(&chars_of(label));
    key_is_landmark(&key)
}

/// Two labels are compatible in either order, and every label is with itself.
pub proof fn law_compatible_is_symmetric(left: Seq<char>, right: Seq<char>)
    ensures
        compatible(left, right) == compatible(right, left),
        compatible(left, left),
{
}

} // verus!
