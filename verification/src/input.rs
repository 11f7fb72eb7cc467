//! A line of text that is being typed.
use vstd::prelude::*;

use crate::text::{
    byte_len, byte_length, chars_of, index_at, is_boundary, lemma_boundary_index,
    lemma_byte_len_at_least_len, lemma_byte_len_concat, lemma_index_of_offset, lemma_offset_ends,
    push_all, slice, string_of,
};
use crate::unicode::{
    concatenated, display_width, grapheme_clusters, graphemes_of, string_texts, width_of_text,
};
use crate::wrap::{clusters, is_partition, lemma_clusters};

verus! {

/// A line with the byte offset of its cursor.
#[verifier::ext_equal]
pub struct InputModel {
    pub text: Seq<char>,
    pub cursor: int,
}

pub open spec fn empty_input() -> InputModel {
    InputModel { text: seq![], cursor: 0 }
}

/// A line with the cursor at its end.
pub open spec fn typed(text: Seq<char>) -> InputModel {
    InputModel { text, cursor: byte_len(text) as int }
}

pub open spec fn before_cursor(line: InputModel) -> Seq<char> {
    line.text.take(index_at(line.text, line.cursor))
}

pub open spec fn after_cursor(line: InputModel) -> Seq<char> {
    line.text.skip(index_at(line.text, line.cursor))
}

/// A line with the cursor between two parts.
pub open spec fn input_of(before: Seq<char>, after: Seq<char>) -> InputModel {
    InputModel { text: before + after, cursor: byte_len(before) as int }
}

/// The text without its last cluster.
pub open spec fn without_last_cluster(s: Seq<char>) -> Seq<char> {
    if s.len() == 0 {
        s
    } else {
        concatenated(clusters(s).drop_last())
    }
}

/// The first cluster of the text.
pub open spec fn first_cluster(s: Seq<char>) -> Seq<char> {
    if s.len() == 0 {
        seq![]
    } else {
        clusters(s)[0]
    }
}

pub open spec fn inserted(line: InputModel, c: char) -> InputModel {
    input_of(before_cursor(line).push(c), after_cursor(line))
}

pub open spec fn deleted_back(line: InputModel) -> InputModel {
    input_of(without_last_cluster(before_cursor(line)), after_cursor(line))
}

pub open spec fn deleted(line: InputModel) -> InputModel {
    let after = after_cursor(line);
    input_of(before_cursor(line), after.skip(first_cluster(after).len() as int))
}

pub open spec fn moved_left(line: InputModel) -> InputModel {
    InputModel { cursor: byte_len(without_last_cluster(before_cursor(line))) as int, ..line }
}

pub open spec fn moved_right(line: InputModel) -> InputModel {
    InputModel {
        cursor: byte_len(before_cursor(line) + first_cluster(after_cursor(line))) as int,
        ..line
    }
}

proof fn lemma_cursor(line: InputModel)
    requires
        is_boundary(line.text, line.cursor),
    ensures
        line.text == before_cursor(line) + after_cursor(line),
        line.cursor == byte_len(before_cursor(line)),
        0 <= line.cursor <= byte_len(line.text),
{
    lemma_boundary_index(line.text, line.cursor);
    assert(line.text =~= before_cursor(line) + after_cursor(line));
}

/// The end of the first of two parts is a place for a cursor.
proof fn lemma_between(before: Seq<char>, after: Seq<char>)
    ensures
        is_boundary(before + after, byte_len(before) as int),
        before_cursor(input_of(before, after)) == before,
        after_cursor(input_of(before, after)) == after,
{
    let all = before + after;
    assert(all.take(before.len() as int) =~= before);
    lemma_index_of_offset(all, before.len() as int);
    assert(all.skip(before.len() as int) =~= after);
}

proof fn lemma_concatenated_front(parts: Seq<Seq<char>>)
    requires
        parts.len() > 0,
    ensures
        concatenated(parts) == parts[0] + concatenated(parts.drop_first()),
    decreases parts.len(),
{
    if parts.len() == 1 {
        assert(concatenated(parts.drop_last()) =~= seq![]);
        assert(concatenated(parts.drop_first()) =~= seq![]);
        assert(concatenated(parts) =~= parts[0] + concatenated(parts.drop_first()));
    } else {
        lemma_concatenated_front(parts.drop_last());
        assert(parts.drop_last().drop_first() =~= parts.drop_first().drop_last());
        assert(concatenated(parts) =~= parts[0] + concatenated(parts.drop_first()));
    }
}

/// The clusters of a text are parts of it.
proof fn lemma_cluster_ends(s: Seq<char>)
    ensures
        s.len() > 0 <==> clusters(s).len() > 0,
        s.len() > 0 ==> s == without_last_cluster(s) + clusters(s).last() && clusters(
            s,
        ).last().len() > 0,
        s.len() > 0 ==> s == first_cluster(s) + s.skip(first_cluster(s).len() as int)
            && first_cluster(s).len() > 0,
        first_cluster(s).len() <= s.len(),
{
    lemma_clusters(s);
    let parts = clusters(s);
    if parts.len() == 0 {
        assert(concatenated(parts) =~= seq![]);
    }
    if s.len() > 0 {
        lemma_concatenated_front(parts);
        assert(s.skip(parts[0].len() as int) =~= concatenated(parts.drop_first()));
    } else {
        if parts.len() > 0 {
            assert(parts[parts.len() - 1].len() > 0);
        }
    }
}

/// A line of text that is being typed.
#[derive(Debug)]
pub struct LineInput {
    text: String,
    cursor: usize,
}

impl View for LineInput {
    type V = InputModel;

    closed spec fn view(&self) -> InputModel {
        InputModel { text: self.text@, cursor: self.cursor as int }
    }
}

/// The clusters of a text.
pub(crate) fn clusters_of(text: &str) -> (parts: Vec<String>)
    ensures
        string_texts(parts@) == clusters(text@),
{
    let parts = graphemes_of(text);
    assert(is_partition(grapheme_clusters(text@), text@)) by {
        assert forall|i: int| 0 <= i < string_texts(parts@).len() implies (
        #[trigger] string_texts(parts@)[i]).len() > 0 by {
            assert(parts@[i]@.len() > 0);
        }
    }
    parts
}

impl LineInput {
    #[verifier::type_invariant]
    spec fn placed(self) -> bool {
        is_boundary(self.text@, self.cursor as int)
    }

    pub fn new() -> (line: Self)
        ensures
            line@ == empty_input(),
    {
        let text = String::new();
        proof {
            assert(text@ =~= seq![]);
            lemma_offset_ends(text@);
            lemma_index_of_offset(text@, 0);
        }
        LineInput { text, cursor: 0 }
    }

    /// A line with the cursor at its end.
    pub fn of(text: String) -> (line: Self)
        ensures
            line@ == typed(text@),
    {
        let cursor: usize = byte_length(text.as_str());
        proof {
            lemma_offset_ends(text@);
            lemma_index_of_offset(text@, text@.len() as int);
        }
        LineInput { text, cursor }
    }

    pub fn text(&self) -> (text: &str)
        ensures
            text@ == self@.text,
    {
        self.text.as_str()
    }

    pub fn cursor(&self) -> (cursor: usize)
        ensures
            cursor == self@.cursor,
            is_boundary(self@.text, cursor as int),
    {
        proof {
            use_type_invariant(self);
        }
        self.cursor
    }

    fn before(&self) -> (before: String)
        ensures
            before@ == before_cursor(self@),
            self@.text == before_cursor(self@) + after_cursor(self@),
            self@.cursor == byte_len(before_cursor(self@)),
    {
        proof {
            use_type_invariant(self);
            lemma_cursor(self@);
            lemma_offset_ends(self.text@);
            lemma_index_of_offset(self.text@, 0);
        }
        let part = slice(self.text.as_str(), 0, self.cursor);
        assert(part@ =~= before_cursor(self@));
        part.to_owned()
    }

    fn after(&self) -> (after: String)
        ensures
            after@ == after_cursor(self@),
    {
        proof {
            use_type_invariant(self);
            lemma_cursor(self@);
            lemma_offset_ends(self.text@);
            lemma_index_of_offset(self.text@, self.text@.len() as int);
        }
        let end: usize = byte_length(self.text.as_str());
        let part = slice(self.text.as_str(), self.cursor, end);
        assert(part@ =~= after_cursor(self@));
        part.to_owned()
    }

    fn set_parts(&mut self, before: &[char], after: &[char])
        ensures
            final(self)@ == input_of(before@, after@),
    {
        let start = string_of(before);
        let cursor: usize = byte_length(start.as_str());
        let mut all: Vec<char> = Vec::new();
        push_all(&mut all, before);
        push_all(&mut all, after);
        assert(all@ =~= before@ + after@);
        let text = string_of(&all);
        proof {
            lemma_between(before@, after@);
        }
        *self = LineInput { text, cursor };
    }

    /// Puts a character before the cursor.
    pub fn insert(&mut self, c: char)
        ensures
            final(self)@ == inserted(old(self)@, c),
    {
        let before = self.before();
        let after = self.after();
        let mut start = chars_of(before.as_str());
        start.push(c);
        let rest = chars_of(after.as_str());
        self.set_parts(&start, &rest);
    }

    /// Takes the cluster before the cursor away.
    pub fn backspace(&mut self)
        ensures
            final(self)@ == deleted_back(old(self)@),
    {
        let before = self.before();
        let after = self.after();
        let start = chars_without_last(before.as_str());
        let rest = chars_of(after.as_str());
        self.set_parts(&start, &rest);
    }

    /// Takes the cluster after the cursor away.
    pub fn delete(&mut self)
        ensures
            final(self)@ == deleted(old(self)@),
    {
        let before = self.before();
        let after = self.after();
        let start = chars_of(before.as_str());
        let characters = chars_of(after.as_str());
        let length: usize = first_length(after.as_str());
        let rest = crate::text::copy_range(&characters, length, characters.len());
        assert(rest@ =~= after@.skip(length as int));
        self.set_parts(&start, &rest);
    }

    /// Moves the cursor over the cluster before it.
    pub fn move_left(&mut self)
        ensures
            final(self)@ == moved_left(old(self)@),
    {
        let before = self.before();
        let start = chars_without_last(before.as_str());
        let start_text = string_of(&start);
        let cursor: usize = byte_length(start_text.as_str());
        proof {
            let s = before@;
            lemma_cluster_ends(s);
            let rest = s.skip(without_last_cluster(s).len() as int) + after_cursor(self@);
            if s.len() > 0 {
                assert(s.take(without_last_cluster(s).len() as int) =~= without_last_cluster(s));
            }
            assert(without_last_cluster(s) + rest =~= self@.text);
            lemma_between(without_last_cluster(s), rest);
        }
        let text = self.text.clone();
        *self = LineInput { text, cursor };
    }

    /// Moves the cursor over the cluster after it.
    pub fn move_right(&mut self)
        ensures
            final(self)@ == moved_right(old(self)@),
    {
        let before = self.before();
        let after = self.after();
        let length: usize = first_length(after.as_str());
        let characters = chars_of(after.as_str());
        let first = crate::text::copy_range(&characters, 0, length);
        let mut start = chars_of(before.as_str());
        push_all(&mut start, &first);
        let start_text = string_of(&start);
        let cursor: usize = byte_length(start_text.as_str());
        proof {
            let t = after@;
            lemma_cluster_ends(t);
            assert(first@ =~= first_cluster(t)) by {
                if t.len() > 0 {
                    assert(first@ =~= (first_cluster(t) + t.skip(length as int)).take(
                        length as int,
                    ));
                }
            }
            assert(start@ =~= before@ + first_cluster(t));
            let rest = t.skip(length as int);
            assert(start@ + rest =~= self@.text);
            lemma_between(start@, rest);
        }
        let text = self.text.clone();
        *self = LineInput { text, cursor };
    }

    /// Moves the cursor to the start.
    pub fn move_home(&mut self)
        ensures
            final(self)@ == (InputModel { cursor: 0, ..old(self)@ }),
    {
        let text = self.text.clone();
        proof {
            lemma_offset_ends(text@);
            lemma_index_of_offset(text@, 0);
        }
        *self = LineInput { text, cursor: 0 };
    }

    /// Moves the cursor to the end.
    pub fn move_end(&mut self)
        ensures
            final(self)@ == typed(old(self)@.text),
    {
        let text = self.text.clone();
        *self = LineInput::of(text);
    }

    /// The number of columns before the cursor.
    pub fn cursor_width(&self) -> (width: usize)
        ensures
            width == display_width(before_cursor(self@)),
    {
        let before = self.before();
        width_of_text(before.as_str())
    }
}

/// The characters of a text without its last cluster.
pub(crate) fn chars_without_last(text: &str) -> (rest: Vec<char>)
    ensures
        rest@ == without_last_cluster(text@),
{
    let parts = clusters_of(text);
    let ghost all = clusters(text@);
    proof {
        lemma_cluster_ends(text@);
    }
    let mut rest: Vec<char> = Vec::new();
    let mut i: usize = 0;
    let count: usize = if parts.len() > 0 {
        parts.len() - 1
    } else {
        0
    };
    assert(rest@ =~= concatenated(all.take(0)));
    while i < count
        invariant
            i <= count,
            count <= parts@.len(),
            all == string_texts(parts@),
            rest@ == concatenated(all.take(i as int)),
        decreases count - i,
    {
        let part = chars_of(parts[i].as_str());
        push_all(&mut rest, &part);
        assert(all.take(i + 1).drop_last() =~= all.take(i as int));
        assert(all.take(i + 1).last() == parts@[i as int]@);
        i += 1;
    }
    proof {
        if all.len() > 0 {
            assert(all.take(i as int) =~= all.drop_last());
        } else {
            assert(all.take(i as int) =~= all);
            assert(concatenated(all) =~= seq![]);
            assert(text@ =~= seq![]);
        }
    }
    rest
}

/// The number of characters of the first cluster.
fn first_length(text: &str) -> (length: usize)
    ensures
        length == first_cluster(text@).len(),
        length <= text@.len(),
{
    let parts = clusters_of(text);
    proof {
        lemma_cluster_ends(text@);
    }
    if parts.len() == 0 {
        assert(clusters(text@).len() == 0);
        return 0;
    }
    assert(clusters(text@)[0] == parts@[0]@);
    let first = chars_of(parts[0].as_str());
    proof {
        lemma_clusters(text@);
        assert(text@.len() > 0) by {
            lemma_concatenated_front(clusters(text@));
        }
    }
    first.len()
}

/// What is typed and then taken back leaves the line as it was, where the character is a
/// cluster of its own.
pub proof fn law_insert_and_backspace(line: InputModel, c: char)
    requires
        is_boundary(line.text, line.cursor),
        clusters(before_cursor(line).push(c)) == clusters(before_cursor(line)).push(seq![c]),
    ensures
        deleted_back(inserted(line, c)) == line,
{
    lemma_cursor(line);
    let before = before_cursor(line);
    lemma_between(before.push(c), after_cursor(line));
    lemma_clusters(before);
    assert(clusters(before).push(seq![c]).drop_last() =~= clusters(before));
}

/// Moving the cursor changes nothing of the text, and it always stands between two clusters of
/// what is before it or at an end.
pub proof fn law_cursor_stays_in_the_line(line: InputModel)
    requires
        is_boundary(line.text, line.cursor),
    ensures
        0 <= moved_left(line).cursor <= line.cursor,
        line.cursor <= moved_right(line).cursor <= byte_len(line.text),
        line.cursor > 0 ==> moved_left(line).cursor < line.cursor,
        line.cursor < byte_len(line.text) ==> moved_right(line).cursor > line.cursor,
{
    lemma_cursor(line);
    let before = before_cursor(line);
    let after = after_cursor(line);
    lemma_cluster_ends(before);
    lemma_cluster_ends(after);
    lemma_byte_len_concat(before, after);
    if before.len() > 0 {
        lemma_byte_len_concat(without_last_cluster(before), clusters(before).last());
        lemma_byte_len_at_least_len(clusters(before).last());
    } else {
        assert(byte_len(before) == 0);
    }
    lemma_byte_len_concat(before, first_cluster(after));
    if after.len() > 0 {
        lemma_byte_len_concat(first_cluster(after), after.skip(first_cluster(after).len() as int));
        lemma_byte_len_at_least_len(first_cluster(after));
    } else {
        assert(byte_len(after) == 0);
        assert(first_cluster(after) =~= seq![]);
    }
}

/// Deleting takes away the end of what is before the cursor, or the start of what is after it,
/// and nothing else; where there is nothing, nothing changes.
pub proof fn law_deleting_a_cluster(line: InputModel)
    requires
        is_boundary(line.text, line.cursor),
    ensures
        ({
            let before = before_cursor(line);
            let after = after_cursor(line);
            &&& exists|n: int|
                0 <= n <= before.len() && deleted_back(line).text == #[trigger] before.take(n)
                    + after
            &&& exists|n: int|
                0 <= n <= after.len() && deleted(line).text == before + #[trigger] after.skip(n)
            &&& before.len() > 0 ==> deleted_back(line).text.len() < line.text.len()
            &&& before.len() == 0 ==> deleted_back(line) == line
            &&& after.len() > 0 ==> deleted(line).text.len() < line.text.len()
            &&& after.len() == 0 ==> deleted(line) == line
            &&& deleted_back(line).cursor == moved_left(line).cursor
            &&& deleted(line).cursor == line.cursor
            &&& before.len() == 0 <==> line.cursor == 0
            &&& after.len() == 0 <==> line.cursor == byte_len(line.text)
        }),
{
    lemma_cursor(line);
    let before = before_cursor(line);
    let after = after_cursor(line);
    lemma_cluster_ends(before);
    lemma_cluster_ends(after);
    lemma_byte_len_concat(before, after);
    lemma_byte_len_at_least_len(before);
    lemma_byte_len_at_least_len(after);
    let kept = without_last_cluster(before);
    let first = first_cluster(after);
    assert(before.take(kept.len() as int) =~= kept);
    assert(after.skip(first.len() as int) == after.skip(first.len() as int));
    if before.len() == 0 {
        assert(byte_len(before) == 0);
        assert(kept + after =~= line.text);
    }
    if after.len() == 0 {
        assert(byte_len(after) == 0);
        assert(before + after.skip(first.len() as int) =~= line.text);
    }
}

/// The cursor goes right over as much as would be deleted there.
pub proof fn law_right_of_the_cursor(line: InputModel)
    requires
        is_boundary(line.text, line.cursor),
    ensures
        moved_right(line).cursor - line.cursor == byte_len(line.text) - byte_len(
            deleted(line).text,
        ),
{
    let before = before_cursor(line);
    let after = after_cursor(line);
    let first = first_cluster(after);
    lemma_cursor(line);
    lemma_cluster_ends(after);
    let rest = after.skip(first.len() as int);
    assert(after =~= first + rest);
    assert(line.text =~= before + after);
    lemma_byte_len_concat(before, after);
    lemma_byte_len_concat(first, rest);
    lemma_byte_len_concat(before, rest);
    lemma_byte_len_concat(before, first);
}

} // verus!
