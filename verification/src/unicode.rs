//! What the library takes from the tables of Unicode: case, classes, clusters and widths.
use unicode_segmentation::UnicodeSegmentation;
use unicode_width::UnicodeWidthStr;
use vstd::prelude::*;

verus! {

/// The lower case of one character.
pub uninterp spec fn lowercase(c: char) -> Seq<char>;

/// Calls `char::to_lowercase` and collects the characters that it yields: one or more.
#[verifier::external_body]
pub(crate) fn lowercase_of(c: char) -> (lower: Vec<char>)
    ensures
        lower@ == lowercase(c),
        lower@.len() >= 1,
{
    c.to_lowercase().collect()
}

/// The lower case of a text.
pub uninterp spec fn text_lowercase(s: Seq<char>) -> Seq<char>;

/// Calls `str::to_lowercase`.
#[verifier::external_body]
pub(crate) fn text_lowercase_of(text: &str) -> (lower: String)
    ensures
        lower@ == text_lowercase(text@),
{
    text.to_lowercase()
}

/// Whether `c` is a letter or a number of any script.
pub uninterp spec fn alphanumeric(c: char) -> bool;

/// Calls `char::is_alphanumeric`.
#[verifier::external_body]
pub(crate) fn is_alphanumeric(c: char) -> (result: bool)
    ensures
        result == alphanumeric(c),
{
    c.is_alphanumeric()
}

/// What the strings of a sequence hold.
pub open spec fn string_texts(parts: Seq<String>) -> Seq<Seq<char>> {
    Seq::new(parts.len(), |i: int| parts[i]@)
}

/// The parts of a sequence one after the other.
pub open spec fn concatenated(parts: Seq<Seq<char>>) -> Seq<char>
    decreases parts.len(),
{
    if parts.len() == 0 {
        seq![]
    } else {
        concatenated(parts.drop_last()) + parts.last()
    }
}

/// The extended grapheme clusters of a text.
pub uninterp spec fn grapheme_clusters(s: Seq<char>) -> Seq<Seq<char>>;

/// Calls `UnicodeSegmentation::graphemes` for extended clusters. The clusters are slices of
/// the text that follow each other: none is empty, and together they are the text.
#[verifier::external_body]
pub(crate) fn graphemes_of(text: &str) -> (clusters: Vec<String>)
    ensures
        string_texts(clusters@) == grapheme_clusters(text@),
        concatenated(string_texts(clusters@)) == text@,
        forall|i: int| 0 <= i < clusters@.len() ==> (#[trigger] clusters@[i])@.len() > 0,
{
    text.graphemes(true).map(|cluster| cluster.to_owned()).collect()
}

/// The number of columns that a text takes up.
pub uninterp spec fn display_width(s: Seq<char>) -> usize;

/// Calls `UnicodeWidthStr::width`.
#[verifier::external_body]
pub(crate) fn width_of_text(text: &str) -> (width: usize)
    ensures
        width == display_width(text@),
{
    text.width()
}

} // verus!
