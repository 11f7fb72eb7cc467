//! The part of a document that is on the screen.
use std::collections::HashMap;
use std::ops::Range;

use vstd::prelude::*;

use crate::loose_match::span;
use crate::text::{
    byte_len, byte_length, chars_of, floor_boundary, floor_char_boundary, greatest, index_at,
    is_boundary, least, lemma_boundary_index, lemma_boundary_order, lemma_byte_len_at_least_len,
    lemma_floor_boundary, lemma_index_of_offset, lemma_offset_ends, lemma_offset_monotone,
    lemma_offset_step, offset_at, slice, width_of,
};
use crate::unicode::{concatenated, grapheme_clusters, graphemes_of, string_texts, width_of_text};
use crate::wrap::{
    clusters, column_counts, hard_end, hard_starts, is_partition, lemma_all_rows, lemma_clusters,
    lemma_hard_line, lemma_hard_starts, lemma_line_rows, lemma_part_order, lemma_part_step,
    lemma_row_of, lemma_row_of_is, lemma_row_starts, lemma_rows_of_line, line_rows, part_offset,
    row_base, row_of, row_starts, rows, rows_until, wrap_columns,
};

verus! {

broadcast use vstd::std_specs::hash::group_hash_axioms;

/// One row of the screen: the bytes that it shows, and the number of characters before it.
#[derive(Debug, PartialEq, Eq)]
pub struct VisualLine {
    range: Range<usize>,
    char_start: usize,
}

/// What a row is, as a value of the mathematical model.
#[verifier::ext_equal]
pub struct Row {
    pub start: int,
    pub end: int,
    pub char_start: int,
}

impl View for VisualLine {
    type V = Row;

    closed spec fn view(&self) -> Row {
        Row {
            start: self.range.start as int,
            end: self.range.end as int,
            char_start: self.char_start as int,
        }
    }
}

impl VisualLine {
    pub fn range(&self) -> (range: Range<usize>)
        ensures
            span(range) == (self@.start, self@.end),
    {
        Range { start: self.range.start, end: self.range.end }
    }

    pub fn char_start(&self) -> (index: usize)
        ensures
            index == self@.char_start,
    {
        self.char_start
    }
}

impl Clone for VisualLine {
    fn clone(&self) -> (copy: Self)
        ensures
            copy@ == self@,
    {
        VisualLine {
            range: Range { start: self.range.start, end: self.range.end },
            char_start: self.char_start,
        }
    }
}

/// The row of the text `s` that holds the characters from `row.0` to `row.1`.
pub open spec fn row_view(s: Seq<char>, row: (int, int)) -> Row {
    Row {
        start: offset_at(s, row.0) as int,
        end: offset_at(s, row.1) as int,
        char_start: row.0,
    }
}

pub open spec fn row_views(s: Seq<char>, rows: Seq<(int, int)>) -> Seq<Row> {
    Seq::new(rows.len(), |i: int| row_view(s, rows[i]))
}

pub open spec fn line_views(lines: Seq<VisualLine>) -> Seq<Row> {
    Seq::new(lines.len(), |i: int| lines[i]@)
}

/// Where a document is read, and on how large a screen.
#[derive(Debug)]
pub struct Viewport {
    line_starts: Vec<usize>,
    line_char_starts: Vec<usize>,
    total_chars: usize,
    anchor: usize,
    width: usize,
    height: usize,
    wrapped: HashMap<usize, Vec<VisualLine>>,
    max_anchor: Option<usize>,
}

/// What a viewport holds, as a value of the mathematical model: the byte offset of the first
/// row, the size of the screen, and the number of characters of the text.
#[verifier::ext_equal]
pub struct ViewportModel {
    pub anchor: int,
    pub width: int,
    pub height: int,
    pub total: int,
}

impl View for Viewport {
    type V = ViewportModel;

    closed spec fn view(&self) -> ViewportModel {
        ViewportModel {
            anchor: self.anchor as int,
            width: self.width as int,
            height: self.height as int,
            total: self.total_chars as int,
        }
    }
}

/// The first character of the last screen: below it the screen would not be full.
pub open spec fn last_top(s: Seq<char>, width: int, height: int) -> int {
    rows(s, width)[greatest(rows(s, width).len() - height, 0)].0
}

/// The byte offset of the last screen.
pub open spec fn last_anchor(s: Seq<char>, width: int, height: int) -> int {
    offset_at(s, last_top(s, width, height)) as int
}

/// The byte offset of the screen whose first row is `r`, or of the last screen.
pub open spec fn anchor_at_row(s: Seq<char>, width: int, height: int, r: int) -> int {
    least(offset_at(s, rows(s, width)[r].0) as int, last_anchor(s, width, height))
}

/// The row in which the character at the boundary `offset` stands.
pub open spec fn row_at(s: Seq<char>, width: int, offset: int) -> int {
    row_of(rows(s, width), index_at(s, offset))
}

/// The number between `low` and `high` that is next to `n`.
pub open spec fn between(n: int, low: int, high: int) -> int {
    if n < low {
        low
    } else if n > high {
        high
    } else {
        n
    }
}

/// The viewport at the row of the character at the byte `offset`.
pub open spec fn gone_to_byte(s: Seq<char>, v: ViewportModel, offset: int) -> ViewportModel {
    ViewportModel {
        anchor: anchor_at_row(
            s,
            v.width,
            v.height,
            row_at(s, v.width, floor_boundary(s, offset) as int),
        ),
        ..v
    }
}

/// The viewport at the row of the character with the index `target`.
pub open spec fn gone_to_char(s: Seq<char>, v: ViewportModel, target: int) -> ViewportModel {
    ViewportModel {
        anchor: anchor_at_row(
            s,
            v.width,
            v.height,
            row_of(rows(s, v.width), least(target, s.len() as int)),
        ),
        ..v
    }
}

/// The viewport at the last full screen.
pub open spec fn gone_to_end(s: Seq<char>, v: ViewportModel) -> ViewportModel {
    ViewportModel { anchor: last_anchor(s, v.width, v.height), ..v }
}

/// The viewport `delta` rows further down, but not beyond the rows of the text, nor below
/// the last full screen.
pub open spec fn scrolled(s: Seq<char>, v: ViewportModel, delta: int) -> ViewportModel {
    if delta == 0 {
        v
    } else {
        ViewportModel {
            anchor: anchor_at_row(
                s,
                v.width,
                v.height,
                between(row_at(s, v.width, v.anchor) + delta, 0, rows(s, v.width).len() - 1),
            ),
            ..v
        }
    }
}

/// The viewport on a screen of the given height, which is never below the last full screen.
pub open spec fn fitted(s: Seq<char>, v: ViewportModel, height: int) -> ViewportModel {
    if height == 0 {
        v
    } else {
        ViewportModel {
            anchor: least(v.anchor, last_anchor(s, v.width, height)),
            height,
            ..v
        }
    }
}

/// The rows on the screen.
pub open spec fn shown(s: Seq<char>, v: ViewportModel) -> Seq<(int, int)> {
    let all = rows(s, v.width);
    let first = row_at(s, v.width, v.anchor);
    all.subrange(first, least(first + v.height, all.len() as int))
}

proof fn lemma_last_anchor(s: Seq<char>, width: int, height: int)
    requires
        height >= 1,
    ensures
        is_boundary(s, last_anchor(s, width, height)),
        0 <= last_anchor(s, width, height) <= byte_len(s),
{
    lemma_all_rows(s, width);
    lemma_index_of_offset(s, last_top(s, width, height));
    lemma_boundary_index(s, last_anchor(s, width, height));
}

impl Viewport {
    /// The viewport belongs to the text `s`, and what it keeps of it is right.
    pub closed spec fn valid_for(&self, s: Seq<char>) -> bool {
        &&& byte_len(s) <= usize::MAX
        &&& self.total_chars == s.len()
        &&& self.line_starts@.len() == hard_starts(s).len()
        &&& self.line_char_starts@.len() == hard_starts(s).len()
        &&& forall|k: int|
            0 <= k < hard_starts(s).len() ==> #[trigger] self.line_starts@[k] == offset_at(
                s,
                hard_starts(s)[k],
            )
        &&& forall|k: int|
            0 <= k < hard_starts(s).len() ==> #[trigger] self.line_char_starts@[k] == hard_starts(
                s,
            )[k]
        &&& is_boundary(s, self.anchor as int)
        &&& self.width >= 1
        &&& self.height >= 1
        &&& forall|k: usize| #[trigger]
            self.wrapped@.contains_key(k) ==> k < hard_starts(s).len() && line_views(
                self.wrapped@[k]@,
            ) == row_views(s, line_rows(s, k as int, self.width as int))
        &&& self.max_anchor matches Some(limit) ==> limit == last_anchor(
            s,
            self.width as int,
            self.height as int,
        )
    }

    /// Everything but the rows that are kept is the same.
    spec fn same_but_rows(&self, other: &Self) -> bool {
        &&& self.line_starts == other.line_starts
        &&& self.line_char_starts == other.line_char_starts
        &&& self.total_chars == other.total_chars
        &&& self.anchor == other.anchor
        &&& self.width == other.width
        &&& self.height == other.height
    }

    /// What a valid viewport of a text is known to have.
    pub proof fn lemma_valid(&self, s: Seq<char>)
        requires
            self.valid_for(s),
        ensures
            is_boundary(s, self@.anchor),
            self@.total == s.len(),
            self@.width >= 1,
            self@.height >= 1,
            byte_len(s) <= usize::MAX,
            s.len() <= usize::MAX,
    {
        lemma_byte_len_at_least_len(s);
    }

    /// A viewport of `text` at the character of the byte offset `anchor`.
    pub fn new(text: &str, anchor: usize) -> (viewport: Self)
        ensures
            viewport.valid_for(text@),
            viewport@ == (ViewportModel {
                anchor: floor_boundary(text@, anchor as int) as int,
                width: 1,
                height: 1,
                total: text@.len() as int,
            }),
    {
        let (line_starts, line_char_starts, total_chars) = index_hard_lines(text);
        let floor: usize = floor_char_boundary(text, anchor);
        Viewport {
            line_starts,
            line_char_starts,
            total_chars,
            anchor: floor,
            width: 1,
            height: 1,
            wrapped: HashMap::new(),
            max_anchor: None,
        }
    }

    pub fn anchor(&self) -> (anchor: usize)
        ensures
            anchor == self@.anchor,
    {
        self.anchor
    }

    /// The number of characters of the text.
    pub fn total_chars(&self) -> (total: usize)
        ensures
            total == self@.total,
    {
        self.total_chars
    }

    /// Sets the number of columns; the first row stays at its byte.
    pub fn set_width(&mut self, width: usize)
        ensures
            forall|s: Seq<char>| #[trigger]
                old(self).valid_for(s) ==> final(self).valid_for(s),
            final(self)@ == (ViewportModel { width: greatest(width as int, 1), ..old(self)@ }),
    {
        let width: usize = if width >= 1 {
            width
        } else {
            1
        };
        if self.width != width {
            self.width = width;
            self.wrapped.clear();
            self.max_anchor = None;
        }
    }

    /// Sets the number of rows.
    fn set_height(&mut self, height: usize)
        ensures
            forall|s: Seq<char>| #[trigger]
                old(self).valid_for(s) ==> final(self).valid_for(s),
            final(self)@ == (ViewportModel { height: greatest(height as int, 1), ..old(self)@ }),
    {
        let height: usize = if height >= 1 {
            height
        } else {
            1
        };
        if self.height != height {
            self.height = height;
            self.max_anchor = None;
        }
    }

    /// Goes to the row of the character at the byte `offset`.
    pub fn goto_byte(&mut self, text: &str, offset: usize)
        requires
            old(self).valid_for(text@),
        ensures
            final(self).valid_for(text@),
            final(self)@ == gone_to_byte(text@, old(self)@, offset as int),
    {
        let floor: usize = floor_char_boundary(text, offset);
        let (hard_line, segment) = self.locate(text, floor);
        self.go_to(text, hard_line, segment);
    }

    /// Goes to the row of the character with the index `target`.
    pub fn goto_char(&mut self, text: &str, target: usize)
        requires
            old(self).valid_for(text@),
        ensures
            final(self).valid_for(text@),
            final(self)@ == gone_to_char(text@, old(self)@, target as int),
    {
        let byte: usize = self.byte_at_char(text, target);
        proof {
            let k = least(target as int, text@.len() as int);
            lemma_index_of_offset(text@, k);
            lemma_floor_boundary(text@, byte as int);
        }
        self.goto_byte(text, byte);
    }

    /// Goes to the start of the document.
    pub fn goto_start(&mut self)
        ensures
            forall|s: Seq<char>| #[trigger]
                old(self).valid_for(s) ==> final(self).valid_for(s),
            final(self)@ == (ViewportModel { anchor: 0, ..old(self)@ }),
    {
        self.anchor = 0;
        proof {
            assert forall|s: Seq<char>| #[trigger]
                old(self).valid_for(s) implies self.valid_for(s) by {
                lemma_offset_ends(s);
            }
        }
    }

    /// Goes to the last full screen.
    pub fn goto_end(&mut self, text: &str)
        requires
            old(self).valid_for(text@),
        ensures
            final(self).valid_for(text@),
            final(self)@ == gone_to_end(text@, old(self)@),
    {
        let limit: usize = self.max_anchor(text);
        proof {
            lemma_last_anchor(text@, self.width as int, self.height as int);
        }
        self.anchor = limit;
    }

    /// Goes down by `delta` rows, up where it is negative, as far as there are rows.
    pub fn scroll_by(&mut self, text: &str, delta: isize)
        requires
            old(self).valid_for(text@),
        ensures
            final(self).valid_for(text@),
            final(self)@ == scrolled(text@, old(self)@, delta as int),
    {
        if delta == 0 {
            return;
        }
        let ghost s = text@;
        let ghost width = self.width as int;
        let ghost all = rows(s, width);
        let anchor: usize = self.anchor;
        let (start_line, start_segment) = self.locate(text, anchor);
        let ghost first = row_at(s, width, anchor as int);
        let mut hard_line: usize = start_line;
        let mut segment: usize = start_segment;
        let mut left: isize = delta;
        proof {
            lemma_all_rows(s, width);
            lemma_rows_of_line(s, width, hard_line as int, hard_starts(s).len() as int);
        }
        while left != 0
            invariant
                self.valid_for(s),
                self@ == old(self)@,
                s == text@,
                width == self.width,
                all == rows(s, width),
                hard_line < hard_starts(s).len(),
                segment < line_rows(s, hard_line as int, width).len(),
                row_base(s, width, hard_line as int) + segment == between(
                    first + delta - left,
                    0,
                    all.len() - 1,
                ),
                0 <= first < all.len(),
                delta != 0,
                delta > 0 ==> 0 <= left <= delta,
                delta < 0 ==> delta <= left <= 0,
                row_base(s, width, hard_line as int) + line_rows(s, hard_line as int, width).len()
                    <= all.len(),
            decreases (if left > 0 {
                left as int
            } else {
                -left
            }),
        {
            let ghost here = row_base(s, width, hard_line as int) + segment;
            proof {
                lemma_all_rows(s, width);
                lemma_rows_of_line(s, width, hard_line as int, hard_starts(s).len() as int);
                lemma_line_rows(s, hard_line as int, width);
            }
            if left > 0 {
                let count: usize = self.row_count(text, hard_line);
                if segment + 1 < count {
                    segment += 1;
                    left -= 1;
                } else if hard_line < self.line_starts.len() - 1 {
                    hard_line += 1;
                    segment = 0;
                    left -= 1;
                    proof {
                        lemma_line_rows(s, hard_line as int, width);
                        lemma_rows_of_line(s, width, hard_line as int, hard_starts(s).len() as int);
                    }
                } else {
                    assert(hard_line + 1 == hard_starts(s).len());
                    assert(here == all.len() - 1);
                    left = 0;
                }
                assert(row_base(s, width, hard_line as int) + segment == least(
                    here + 1,
                    all.len() - 1,
                ));
            } else {
                if segment > 0 {
                    segment -= 1;
                    left += 1;
                } else if hard_line > 0 {
                    hard_line -= 1;
                    left += 1;
                    proof {
                        lemma_line_rows(s, hard_line as int, width);
                        lemma_rows_of_line(s, width, hard_line as int, hard_starts(s).len() as int);
                    }
                    let count: usize = self.row_count(text, hard_line);
                    segment = count - 1;
                } else {
                    assert(here == 0) by {
                        assert(rows_until(s, width, 0).len() == 0);
                    }
                    left = 0;
                }
                assert(row_base(s, width, hard_line as int) + segment == greatest(here - 1, 0));
            }
        }
        self.go_to(text, hard_line, segment);
    }

    /// The rows that a screen of the given height shows.
    pub fn visible_lines(&mut self, text: &str, height: usize) -> (lines: Vec<VisualLine>)
        requires
            old(self).valid_for(text@),
        ensures
            final(self).valid_for(text@),
            final(self)@ == fitted(text@, old(self)@, height as int),
            height == 0 ==> lines@.len() == 0,
            height > 0 ==> line_views(lines@) == row_views(text@, shown(text@, final(self)@)),
    {
        let mut lines: Vec<VisualLine> = Vec::new();
        if height == 0 {
            return lines;
        }
        self.set_height(height);
        self.clamp_anchor(text);
        let ghost s = text@;
        let ghost width = self.width as int;
        let ghost all = rows(s, width);
        let anchor: usize = self.anchor;
        let (start_line, start_segment) = self.locate(text, anchor);
        let ghost first = row_at(s, width, anchor as int);
        let ghost model = self@;
        let mut hard_line: usize = start_line;
        let mut segment: usize = start_segment;
        let count_lines: usize = self.line_starts.len();
        proof {
            lemma_rows_of_line(s, width, hard_line as int, hard_starts(s).len() as int);
            assert(line_views(lines@) =~= row_views(s, all.subrange(first, first)));
        }
        while lines.len() < height && hard_line < count_lines
            invariant
                self.valid_for(s),
                self@ == model,
                s == text@,
                width == self.width,
                all == rows(s, width),
                hard_line <= count_lines == hard_starts(s).len(),
                lines@.len() <= height,
                0 <= first <= first + lines@.len() <= all.len(),
                lines@.len() < height && hard_line < count_lines ==> {
                    &&& segment < line_rows(s, hard_line as int, width).len()
                    &&& row_base(s, width, hard_line as int) + segment == first + lines@.len()
                },
                hard_line == count_lines && lines@.len() < height ==> first + lines@.len()
                    == all.len(),
                line_views(lines@) == row_views(s, all.subrange(first, first + lines@.len())),
            decreases count_lines - hard_line,
        {
            self.ensure_wrapped(text, hard_line);
            let wrapped = &self.wrapped.get(&hard_line).unwrap();
            proof {
                lemma_rows_of_line(s, width, hard_line as int, hard_starts(s).len() as int);
                assert(line_views(wrapped@).len() == line_rows(s, hard_line as int, width).len());
            }
            while segment < wrapped.len() && lines.len() < height
                invariant
                    hard_line < hard_starts(s).len(),
                    all == rows(s, width),
                    line_views(wrapped@) == row_views(s, line_rows(s, hard_line as int, width)),
                    row_base(s, width, hard_line as int) + line_rows(
                        s,
                        hard_line as int,
                        width,
                    ).len() <= all.len(),
                    segment <= wrapped@.len(),
                    lines@.len() <= height,
                    0 <= first <= first + lines@.len() <= all.len(),
                    row_base(s, width, hard_line as int) + segment == first + lines@.len(),
                    line_views(lines@) == row_views(s, all.subrange(first, first + lines@.len())),
                decreases wrapped.len() - segment,
            {
                let line = wrapped[segment].clone();
                proof {
                    lemma_rows_of_line(s, width, hard_line as int, hard_starts(s).len() as int);
                    assert(line_views(wrapped@)[segment as int] == line@);
                    assert(line_views(wrapped@).len() == line_rows(
                        s,
                        hard_line as int,
                        width,
                    ).len());
                    assert(line@ == row_view(
                        s,
                        line_rows(s, hard_line as int, width)[segment as int],
                    ));
                    assert(line@ == row_view(s, all[first + lines@.len()]));
                }
                let ghost before = lines@;
                lines.push(line);
                proof {
                    assert(line_views(lines@) =~= line_views(before).push(line@));
                    assert(row_views(s, all.subrange(first, first + lines@.len())) =~= row_views(
                        s,
                        all.subrange(first, first + before.len()),
                    ).push(line@));
                }
                segment += 1;
            }
            proof {
                assert(line_views(wrapped@).len() == line_rows(s, hard_line as int, width).len());
                if hard_line + 1 < hard_starts(s).len() {
                    lemma_line_rows(s, hard_line + 1, width);
                }
            }
            hard_line += 1;
            segment = 0;
        }
        lines
    }

    /// All rows of a text at the given width, or at one column.
    pub fn all_rows(text: &str, width: usize) -> (lines: Vec<VisualLine>)
        ensures
            line_views(lines@) == row_views(
                text@,
                rows(text@, greatest(width as int, 1)),
            ),
    {
        let mut viewport = Viewport::new(text, 0);
        viewport.set_width(width);
        let ghost s = text@;
        let ghost columns = greatest(width as int, 1);
        let mut lines: Vec<VisualLine> = Vec::new();
        let mut i: usize = 0;
        assert(line_views(lines@) =~= row_views(s, rows_until(s, columns, 0)));
        while i < viewport.line_starts.len()
            invariant
                viewport.valid_for(s),
                viewport@.width == columns,
                s == text@,
                i <= viewport.line_starts@.len() == hard_starts(s).len(),
                line_views(lines@) == row_views(s, rows_until(s, columns, i as int)),
            decreases viewport.line_starts.len() - i,
        {
            let mut part = viewport.wrap_hard_line(text, i);
            let ghost before = lines@;
            let ghost more = part@;
            lines.append(&mut part);
            assert(line_views(lines@) =~= line_views(before) + line_views(more));
            assert(row_views(s, rows_until(s, columns, i + 1)) =~= row_views(
                s,
                rows_until(s, columns, i as int),
            ) + row_views(s, line_rows(s, i as int, columns)));
            i += 1;
        }
        lines
    }

    /// The number of characters before the first row.
    pub fn progress_chars(&self, text: &str) -> (count: usize)
        requires
            self.valid_for(text@),
        ensures
            count == index_at(text@, self@.anchor),
    {
        self.char_at_byte(text, self.anchor)
    }

    /// The hard line of the character at `offset`, and the row of it among those of the line.
    fn locate(&mut self, text: &str, offset: usize) -> (place: (usize, usize))
        requires
            old(self).valid_for(text@),
            is_boundary(text@, offset as int),
        ensures
            final(self).valid_for(text@),
            final(self)@ == old(self)@,
            final(self).same_but_rows(old(self)),
            place.0 < hard_starts(text@).len(),
            place.1 < line_rows(text@, place.0 as int, old(self)@.width).len(),
            row_base(text@, old(self)@.width, place.0 as int) + place.1 == row_at(
                text@,
                old(self)@.width,
                offset as int,
            ),
            0 <= row_at(text@, old(self)@.width, offset as int) < rows(
                text@,
                old(self)@.width,
            ).len(),
    {
        let ghost s = text@;
        let ghost width = self.width as int;
        let ghost k = index_at(s, offset as int);
        proof {
            lemma_hard_starts(s);
            lemma_boundary_index(s, offset as int);
            lemma_offset_ends(s);
            assert(self.line_starts@[0] == 0);
            lemma_line_offsets(s, self.line_starts@);
        }
        let hard_line: usize = last_at_most(&self.line_starts, offset);
        proof {
            let a = hard_starts(s)[hard_line as int];
            lemma_index_of_offset(s, a);
            lemma_boundary_order(s, self.line_starts@[hard_line as int] as int, offset as int);
            assert(a <= k);
            if hard_line + 1 < hard_starts(s).len() {
                lemma_index_of_offset(s, hard_starts(s)[hard_line + 1]);
                lemma_boundary_order(s, offset as int, self.line_starts@[hard_line + 1] as int);
                assert(k < hard_starts(s)[hard_line + 1]);
            }
        }
        self.ensure_wrapped(text, hard_line);
        let wrapped = self.wrapped.get(&hard_line).unwrap();
        let ghost line = line_rows(s, hard_line as int, width);
        proof {
            lemma_line_rows(s, hard_line as int, width);
            assert(line_views(wrapped@).len() == line.len());
        }
        let mut segment: usize = wrapped.len() - 1;
        while segment > 0 && wrapped[segment].range.start > offset
            invariant
                segment < wrapped@.len(),
                wrapped@.len() == line.len(),
                line_views(wrapped@) == row_views(s, line),
                is_boundary(s, offset as int),
                k == index_at(s, offset as int),
                forall|j: int| 0 <= j < line.len() ==> 0 <= (#[trigger] line[j]).0 <= s.len(),
                segment + 1 < line.len() ==> k < line[segment + 1].0,
            decreases segment,
        {
            proof {
                assert(line_views(wrapped@)[segment as int] == row_views(s, line)[segment as int]);
                lemma_index_of_offset(s, line[segment as int].0);
                lemma_boundary_order(s, offset as int, wrapped@[segment as int].range.start as int);
            }
            segment -= 1;
        }
        proof {
            assert(line_views(wrapped@)[segment as int] == row_views(s, line)[segment as int]);
            lemma_index_of_offset(s, line[segment as int].0);
            lemma_boundary_order(s, wrapped@[segment as int].range.start as int, offset as int);
            lemma_row_of_segment(s, width, hard_line as int, segment as int, k);
        }
        (hard_line, segment)
    }

    /// Puts a row of a hard line at the top of the screen, if it is not below the last screen.
    fn go_to(&mut self, text: &str, hard_line: usize, segment: usize)
        requires
            old(self).valid_for(text@),
            hard_line < hard_starts(text@).len(),
            segment < line_rows(text@, hard_line as int, old(self)@.width).len(),
        ensures
            final(self).valid_for(text@),
            final(self)@ == (ViewportModel {
                anchor: anchor_at_row(
                    text@,
                    old(self)@.width,
                    old(self)@.height,
                    row_base(text@, old(self)@.width, hard_line as int) + segment,
                ),
                ..old(self)@
            }),
    {
        let ghost s = text@;
        let ghost width = self.width as int;
        self.ensure_wrapped(text, hard_line);
        let wrapped = self.wrapped.get(&hard_line).unwrap();
        proof {
            assert(line_views(wrapped@).len() == line_rows(s, hard_line as int, width).len());
            assert(line_views(wrapped@)[segment as int] == row_view(
                s,
                line_rows(s, hard_line as int, width)[segment as int],
            ));
            lemma_line_rows(s, hard_line as int, width);
            lemma_hard_line(s, hard_line as int);
            lemma_index_of_offset(s, line_rows(s, hard_line as int, width)[segment as int].0);
            lemma_rows_of_line(s, width, hard_line as int, hard_starts(s).len() as int);
        }
        self.anchor = wrapped[segment].range.start;
        self.clamp_anchor(text);
    }

    /// Keeps the rows of a hard line.
    fn ensure_wrapped(&mut self, text: &str, index: usize)
        requires
            old(self).valid_for(text@),
            index < hard_starts(text@).len(),
        ensures
            final(self).valid_for(text@),
            final(self)@ == old(self)@,
            final(self).same_but_rows(old(self)),
            final(self).max_anchor == old(self).max_anchor,
            final(self).wrapped@.contains_key(index),
            line_views(final(self).wrapped@[index]@) == row_views(
                text@,
                line_rows(text@, index as int, old(self)@.width),
            ),
    {
        if !self.wrapped.contains_key(&index) {
            let lines = self.wrap_hard_line(text, index);
            self.wrapped.insert(index, lines);
        }
    }

    /// The number of rows of a hard line.
    fn row_count(&mut self, text: &str, index: usize) -> (count: usize)
        requires
            old(self).valid_for(text@),
            index < hard_starts(text@).len(),
        ensures
            final(self).valid_for(text@),
            final(self)@ == old(self)@,
            final(self).same_but_rows(old(self)),
            final(self).max_anchor == old(self).max_anchor,
            count == line_rows(text@, index as int, old(self)@.width).len(),
    {
        self.ensure_wrapped(text, index);
        let wrapped = self.wrapped.get(&index).unwrap();
        assert(line_views(wrapped@).len() == line_rows(
            text@,
            index as int,
            old(self)@.width,
        ).len());
        wrapped.len()
    }

    /// The rows of a hard line.
    fn wrap_hard_line(&self, text: &str, index: usize) -> (lines: Vec<VisualLine>)
        requires
            self.valid_for(text@),
            index < hard_starts(text@).len(),
        ensures
            line_views(lines@) == row_views(
                text@,
                line_rows(text@, index as int, self@.width),
            ),
    {
        let ghost s = text@;
        let ghost a = hard_starts(s)[index as int];
        let ghost b = hard_end(s, index as int);
        let start: usize = self.line_starts[index];
        let end: usize = self.line_end(text, index);
        let char_start: usize = self.line_char_starts[index];
        proof {
            lemma_hard_line(s, index as int);
            lemma_index_of_offset(s, a);
            lemma_index_of_offset(s, b);
            lemma_offset_monotone(s, a, b);
            lemma_byte_len_at_least_len(s);
        }
        let part = slice(text, start, end);
        let ghost t = s.subrange(a, b);
        assert(part@ == t);
        let graphemes = graphemes_of(part);
        let ghost parts = clusters(t);
        assert(string_texts(graphemes@) == parts) by {
            assert forall|i: int| 0 <= i < string_texts(graphemes@).len() implies (
            #[trigger] string_texts(graphemes@)[i]).len() > 0 by {
                assert(graphemes@[i]@.len() > 0);
            }
            assert(is_partition(grapheme_clusters(t), t));
        }
        let mut columns: Vec<usize> = Vec::new();
        let mut i: usize = 0;
        while i < graphemes.len()
            invariant
                i <= graphemes.len(),
                parts == string_texts(graphemes@),
                columns@ == column_counts(parts).take(i as int),
            decreases graphemes.len() - i,
        {
            columns.push(width_of_text(graphemes[i].as_str()));
            assert(columns@ =~= column_counts(parts).take(i + 1));
            i += 1;
        }
        assert(columns@ =~= column_counts(parts));
        let starts = wrap_columns(&columns, self.width);
        let ghost row_points = row_starts(column_counts(parts), self.width as int);
        let ghost line = line_rows(s, index as int, self.width as int);
        proof {
            lemma_clusters(t);
            lemma_row_starts(column_counts(parts), self.width as int);
            lemma_part_order(parts, t, 0, 0);
        }
        let mut lines: Vec<VisualLine> = Vec::new();
        let mut segment_start: usize = start;
        let mut segment_char_start: usize = char_start;
        let mut byte: usize = start;
        let mut character: usize = char_start;
        let mut next: usize = 1;
        let mut cluster: usize = 0;
        while cluster < graphemes.len()
            invariant
                cluster <= graphemes.len(),
                byte_len(s) <= usize::MAX,
                s.len() <= usize::MAX,
                0 <= a <= b <= s.len(),
                t == s.subrange(a, b),
                parts == string_texts(graphemes@),
                is_partition(parts, t),
                starts@.len() == row_points.len(),
                1 <= next <= starts@.len(),
                forall|j: int| 0 <= j < starts@.len() ==> #[trigger] starts@[j] == row_points[j],
                forall|j: int|
                    0 < j < row_points.len() ==> 0 < #[trigger] row_points[j] < parts.len(),
                forall|p: int, q: int|
                    0 <= p < q < row_points.len() ==> #[trigger] row_points[p]
                        < #[trigger] row_points[q],
                character == a + part_offset(parts, cluster as int),
                byte == offset_at(s, character as int),
                segment_char_start == a + part_offset(parts, row_points[next - 1]),
                segment_start == offset_at(s, segment_char_start as int),
                row_points[next - 1] <= cluster,
                next < row_points.len() ==> cluster <= row_points[next as int],
                line.len() == row_points.len(),
                forall|j: int|
                    0 <= j < line.len() ==> #[trigger] line[j] == (
                        a + part_offset(parts, row_points[j]),
                        if j + 1 < row_points.len() {
                            a + part_offset(parts, row_points[j + 1])
                        } else {
                            b
                        },
                    ),
                lines@.len() == next - 1,
                line_views(lines@) == row_views(s, line.take(next - 1)),
            decreases graphemes.len() - cluster,
        {
            if next < starts.len() && starts[next] == cluster {
                let ghost before = lines@;
                lines.push(
                    VisualLine {
                        range: Range { start: segment_start, end: byte },
                        char_start: segment_char_start,
                    },
                );
                proof {
                    assert(lines@.last()@ == row_view(s, line[next - 1]));
                    assert(line_views(lines@) =~= line_views(before).push(lines@.last()@));
                    assert(row_views(s, line.take(next as int)) =~= row_views(
                        s,
                        line.take(next - 1),
                    ).push(row_view(s, line[next - 1])));
                    if next + 1 < row_points.len() {
                        assert(row_points[next as int] < row_points[next + 1]);
                    }
                }
                segment_start = byte;
                segment_char_start = character;
                next += 1;
            }
            let ghost here = a + part_offset(parts, cluster as int);
            let ghost there = a + part_offset(parts, cluster + 1);
            proof {
                lemma_part_step(parts, cluster as int);
                lemma_part_order(parts, t, cluster as int, cluster + 1);
                lemma_part_order(parts, t, cluster + 1, parts.len() as int);
                lemma_cluster_text(parts, t, cluster as int);
                assert(graphemes@[cluster as int]@ == parts[cluster as int]);
                assert(parts[cluster as int] =~= s.subrange(here, there));
                lemma_offset_monotone(s, here, there);
                lemma_offset_monotone(s, there, s.len() as int);
                lemma_offset_ends(s);
            }
            let text_chars = chars_of(graphemes[cluster].as_str());
            byte += byte_length(graphemes[cluster].as_str());
            character += text_chars.len();
            cluster += 1;
        }
        proof {
            if next < row_points.len() {
                assert(row_points[next as int] < parts.len());
            }
            assert(part_offset(parts, parts.len() as int) == t.len());
        }
        let ghost before = lines@;
        lines.push(
            VisualLine {
                range: Range { start: segment_start, end },
                char_start: segment_char_start,
            },
        );
        proof {
            assert(lines@.last()@ == row_view(s, line[next - 1]));
            assert(line_views(lines@) =~= line_views(before).push(lines@.last()@));
            assert(row_views(s, line) =~= row_views(s, line.take(next - 1)).push(
                row_view(s, line[next - 1]),
            ));
        }
        lines
    }

    /// The byte offset at which a hard line ends.
    fn line_end(&self, text: &str, index: usize) -> (end: usize)
        requires
            self.valid_for(text@),
            index < hard_starts(text@).len(),
        ensures
            end == offset_at(text@, hard_end(text@, index as int)),
    {
        proof {
            lemma_hard_starts(text@);
            lemma_hard_line(text@, index as int);
            lemma_offset_ends(text@);
        }
        if index < self.line_starts.len() - 1 {
            proof {
                lemma_offset_step(text@, hard_end(text@, index as int));
            }
            self.line_starts[index + 1] - 1
        } else {
            byte_length(text)
        }
    }

    /// The byte offset of the character with the index `char_offset`, or the end of the text.
    fn byte_at_char(&self, text: &str, char_offset: usize) -> (byte: usize)
        requires
            self.valid_for(text@),
        ensures
            byte == offset_at(text@, least(char_offset as int, text@.len() as int)),
    {
        let ghost s = text@;
        proof {
            lemma_offset_ends(s);
            lemma_hard_starts(s);
        }
        if char_offset >= self.total_chars {
            return byte_length(text);
        }
        let hard_line: usize = last_at_most(&self.line_char_starts, char_offset);
        let local: usize = char_offset - self.line_char_starts[hard_line];
        let start: usize = self.line_starts[hard_line];
        let end: usize = self.line_end(text, hard_line);
        let ghost a = hard_starts(s)[hard_line as int];
        let ghost b = hard_end(s, hard_line as int);
        proof {
            lemma_hard_line(s, hard_line as int);
            lemma_index_of_offset(s, a);
            lemma_index_of_offset(s, b);
            lemma_offset_monotone(s, a, b);
        }
        let part = slice(text, start, end);
        let characters = chars_of(part);
        let mut byte: usize = start;
        let mut i: usize = 0;
        while i < local
            invariant
                i <= local,
                byte_len(s) <= usize::MAX,
                characters@ == s.subrange(a, b),
                0 <= a <= b <= s.len(),
                a + local <= b,
                byte == offset_at(s, a + i),
            decreases local - i,
        {
            proof {
                lemma_offset_step(s, a + i);
            }
            byte += width_of(characters[i]);
            i += 1;
        }
        byte
    }

    /// The index of the character at the byte offset, or of the one that it is within.
    fn char_at_byte(&self, text: &str, byte_offset: usize) -> (index: usize)
        requires
            self.valid_for(text@),
        ensures
            index == index_at(text@, floor_boundary(text@, byte_offset as int) as int),
            is_boundary(text@, byte_offset as int) ==> index == index_at(
                text@,
                byte_offset as int,
            ),
    {
        let ghost s = text@;
        let floor: usize = floor_char_boundary(text, byte_offset);
        proof {
            lemma_floor_boundary(s, byte_offset as int);
            lemma_hard_starts(s);
            lemma_offset_ends(s);
            assert(self.line_starts@[0] == 0);
            lemma_line_offsets(s, self.line_starts@);
        }
        let hard_line: usize = last_at_most(&self.line_starts, floor);
        let start: usize = self.line_starts[hard_line];
        proof {
            lemma_index_of_offset(s, hard_starts(s)[hard_line as int]);
            lemma_boundary_order(s, start as int, floor as int);
            lemma_boundary_index(s, floor as int);
            lemma_byte_len_at_least_len(s);
        }
        let characters = chars_of(slice(text, start, floor));
        self.line_char_starts[hard_line] + characters.len()
    }

    /// Keeps the first row at the last full screen or above it.
    fn clamp_anchor(&mut self, text: &str)
        requires
            old(self).valid_for(text@),
        ensures
            final(self).valid_for(text@),
            final(self)@ == (ViewportModel {
                anchor: least(
                    old(self)@.anchor,
                    last_anchor(text@, old(self)@.width, old(self)@.height),
                ),
                ..old(self)@
            }),
    {
        let limit: usize = self.max_anchor(text);
        proof {
            lemma_last_anchor(text@, self.width as int, self.height as int);
        }
        if limit < self.anchor {
            self.anchor = limit;
        }
    }

    /// The byte offset of the last full screen.
    fn max_anchor(&mut self, text: &str) -> (limit: usize)
        requires
            old(self).valid_for(text@),
        ensures
            final(self).valid_for(text@),
            final(self)@ == old(self)@,
            limit == last_anchor(text@, old(self)@.width, old(self)@.height),
    {
        if let Some(limit) = self.max_anchor {
            return limit;
        }
        let ghost s = text@;
        let ghost width = self.width as int;
        let ghost height = self.height as int;
        let ghost all = rows(s, width);
        let mut remaining: usize = self.height;
        let mut index: usize = self.line_starts.len();
        proof {
            lemma_all_rows(s, width);
            lemma_offset_ends(s);
            lemma_hard_starts(s);
        }
        while index > 0
            invariant
                self.valid_for(s),
                self@ == old(self)@,
                s == text@,
                width == self.width,
                height == self.height,
                all == rows(s, width),
                index <= hard_starts(s).len(),
                remaining >= 1,
                row_base(s, width, index as int) <= all.len(),
                all.len() - row_base(s, width, index as int) + remaining == height,
            decreases index,
        {
            index -= 1;
            proof {
                lemma_rows_of_line(s, width, index as int, hard_starts(s).len() as int);
                lemma_line_rows(s, index as int, width);
                lemma_hard_line(s, index as int);
            }
            self.ensure_wrapped(text, index);
            let wrapped = self.wrapped.get(&index).unwrap();
            let ghost line = line_rows(s, index as int, width);
            assert(line_views(wrapped@).len() == line.len());
            let count: usize = wrapped.len();
            if remaining <= count {
                let segment: usize = count - remaining;
                let anchor: usize = wrapped[segment].range.start;
                proof {
                    assert(line_views(wrapped@)[segment as int] == row_view(s, line[segment as int]));
                    assert(all[row_base(s, width, index as int) + segment] == line[segment as int]);
                }
                self.max_anchor = Some(anchor);
                return anchor;
            }
            remaining -= count;
        }
        proof {
            assert(row_base(s, width, 0) == 0);
        }
        self.max_anchor = Some(0);
        0
    }
}

/// The starts of the hard lines come one after the other.
/// The row of a character, by its row among those of its hard line.
proof fn lemma_row_of_segment(s: Seq<char>, width: int, k: int, segment: int, index: int)
    requires
        0 <= k < hard_starts(s).len(),
        0 <= segment < line_rows(s, k, width).len(),
        0 <= line_rows(s, k, width)[segment].0 <= index,
        segment + 1 < line_rows(s, k, width).len() ==> index < line_rows(s, k, width)[segment
            + 1].0,
        k + 1 < hard_starts(s).len() ==> index < hard_starts(s)[k + 1],
    ensures
        row_base(s, width, k) + segment == row_of(rows(s, width), index),
        0 <= row_of(rows(s, width), index) < rows(s, width).len(),
{
    let line = line_rows(s, k, width);
    let all = rows(s, width);
    let n = hard_starts(s).len() as int;
    lemma_all_rows(s, width);
    lemma_rows_of_line(s, width, k, n);
    let r = row_base(s, width, k) + segment;
    assert(all[r] == line[segment]);
    if segment + 1 < line.len() {
        assert(all[r + 1] == line[segment + 1]);
    } else if r + 1 < all.len() {
        assert(k + 1 < n) by {
            if k + 1 == n {
                assert(row_base(s, width, n) == all.len());
            }
        }
        lemma_line_rows(s, k + 1, width);
        lemma_rows_of_line(s, width, k + 1, n);
        assert(all[r + 1] == line_rows(s, k + 1, width)[0]);
    }
    lemma_row_of_is(all, index, r);
}

proof fn lemma_line_offsets(s: Seq<char>, starts: Seq<usize>)
    requires
        starts.len() == hard_starts(s).len(),
        forall|k: int|
            0 <= k < hard_starts(s).len() ==> #[trigger] starts[k] == offset_at(
                s,
                hard_starts(s)[k],
            ),
    ensures
        forall|i: int, j: int| 0 <= i < j < starts.len() ==> #[trigger] starts[i] < #[trigger] starts[j],
{
    lemma_hard_starts(s);
    assert forall|i: int, j: int| 0 <= i < j < starts.len() implies #[trigger] starts[i]
        < #[trigger] starts[j] by {
        assert(hard_starts(s)[i] < hard_starts(s)[j]);
        lemma_offset_monotone(s, hard_starts(s)[i], hard_starts(s)[j]);
    }
}

/// A part of a partition is the text between its offsets.
proof fn lemma_cluster_text(parts: Seq<Seq<char>>, t: Seq<char>, i: int)
    requires
        is_partition(parts, t),
        0 <= i < parts.len(),
    ensures
        0 <= part_offset(parts, i) <= part_offset(parts, i + 1) <= t.len(),
        parts[i] == t.subrange(part_offset(parts, i), part_offset(parts, i + 1)),
{
    lemma_part_step(parts, i);
    lemma_part_order(parts, t, i, i + 1);
    lemma_concatenated_prefix(parts, i + 1);
    assert(parts.take(i + 1).drop_last() =~= parts.take(i));
    assert(concatenated(parts.take(i + 1)) == concatenated(parts.take(i)) + parts[i]);
    let upto = concatenated(parts.take(i + 1));
    let part = t.subrange(part_offset(parts, i), part_offset(parts, i + 1));
    assert forall|j: int| 0 <= j < parts[i].len() implies parts[i][j] == part[j] by {
        assert(upto[part_offset(parts, i) + j] == parts[i][j]);
        assert(upto == t.take(upto.len() as int));
    }
    assert(parts[i] =~= part);
}

proof fn lemma_concatenated_prefix(parts: Seq<Seq<char>>, i: int)
    requires
        0 <= i <= parts.len(),
    ensures
        concatenated(parts.take(i)).len() <= concatenated(parts).len(),
        concatenated(parts.take(i)) == concatenated(parts).take(
            concatenated(parts.take(i)).len() as int,
        ),
    decreases parts.len(),
{
    if i == parts.len() {
        assert(parts.take(i) =~= parts);
        assert(concatenated(parts) =~= concatenated(parts).take(concatenated(parts).len() as int));
    } else {
        let shorter = parts.drop_last();
        lemma_concatenated_prefix(shorter, i);
        assert(shorter.take(i) =~= parts.take(i));
        assert(concatenated(parts.take(i)) =~= concatenated(parts).take(
            concatenated(parts.take(i)).len() as int,
        ));
    }
}

/// The index of the last of the growing numbers that is at most `limit`.
fn last_at_most(numbers: &[usize], limit: usize) -> (index: usize)
    requires
        numbers@.len() > 0,
        numbers@[0] <= limit,
        forall|i: int, j: int|
            0 <= i < j < numbers@.len() ==> #[trigger] numbers@[i] < #[trigger] numbers@[j],
    ensures
        index < numbers@.len(),
        numbers@[index as int] <= limit,
        index + 1 < numbers@.len() ==> limit < numbers@[index + 1],
{
    let mut low: usize = 0;
    let mut high: usize = numbers.len();
    while low + 1 < high
        invariant
            low < high <= numbers@.len(),
            numbers@[low as int] <= limit,
            high < numbers@.len() ==> limit < numbers@[high as int],
        decreases high - low,
    {
        let middle: usize = low + (high - low) / 2;
        if numbers[middle] <= limit {
            low = middle;
        } else {
            high = middle;
        }
    }
    low
}

/// The hard lines of a text by byte offset and by index, and its number of characters.
fn index_hard_lines(text: &str) -> (index: (Vec<usize>, Vec<usize>, usize))
    ensures
        byte_len(text@) <= usize::MAX,
        index.2 == text@.len(),
        index.0@.len() == hard_starts(text@).len(),
        index.1@.len() == hard_starts(text@).len(),
        forall|k: int|
            0 <= k < hard_starts(text@).len() ==> #[trigger] index.0@[k] == offset_at(
                text@,
                hard_starts(text@)[k],
            ),
        forall|k: int|
            0 <= k < hard_starts(text@).len() ==> #[trigger] index.1@[k] == hard_starts(text@)[k],
{
    let ghost s = text@;
    let characters = chars_of(text);
    let mut starts: Vec<usize> = Vec::new();
    let mut char_starts: Vec<usize> = Vec::new();
    starts.push(0);
    char_starts.push(0);
    let mut byte: usize = 0;
    let mut i: usize = 0;
    proof {
        lemma_offset_ends(s);
    }
    while i < characters.len()
        invariant
            i <= characters.len(),
            characters@ == s,
            byte_len(s) <= usize::MAX,
            byte == offset_at(s, i as int),
            starts@.len() == hard_starts(s.take(i as int)).len(),
            char_starts@.len() == hard_starts(s.take(i as int)).len(),
            forall|k: int|
                0 <= k < hard_starts(s.take(i as int)).len() ==> #[trigger] starts@[k]
                    == offset_at(s, hard_starts(s.take(i as int))[k]),
            forall|k: int|
                0 <= k < hard_starts(s.take(i as int)).len() ==> #[trigger] char_starts@[k]
                    == hard_starts(s.take(i as int))[k],
        decreases characters.len() - i,
    {
        proof {
            lemma_offset_step(s, i as int);
            assert(s.take(i + 1).drop_last() =~= s.take(i as int));
        }
        byte += width_of(characters[i]);
        if characters[i] == '\n' {
            starts.push(byte);
            char_starts.push(i + 1);
        }
        i += 1;
    }
    assert(s.take(s.len() as int) =~= s);
    (starts, char_starts, characters.len())
}

// ---------------------------------------------------------------------------------------
// Laws
// ---------------------------------------------------------------------------------------

/// The row at the top of the last full screen.
pub open spec fn last_top_row(s: Seq<char>, width: int, height: int) -> int {
    greatest(rows(s, width).len() - height, 0)
}

/// A row down to that of the last full screen can be put at the top of the screen, and then
/// it is the first one shown.
pub proof fn law_row_at_top(s: Seq<char>, width: int, height: int, r: int)
    requires
        height >= 1,
        0 <= r < rows(s, width).len(),
    ensures
        row_at(s, width, anchor_at_row(s, width, height, r)) == least(
            r,
            last_top_row(s, width, height),
        ),
        r <= last_top_row(s, width, height) ==> anchor_at_row(s, width, height, r) == offset_at(
            s,
            rows(s, width)[r].0,
        ),
        anchor_at_row(s, width, height, r) == offset_at(
            s,
            rows(s, width)[least(r, last_top_row(s, width, height))].0,
        ),
{
    let all = rows(s, width);
    let q = last_top_row(s, width, height);
    lemma_all_rows(s, width);
    if r < q {
        assert(all[r].0 < all[q].0);
        lemma_offset_monotone(s, all[r].0, all[q].0);
    } else if q < r {
        assert(all[q].0 < all[r].0);
        lemma_offset_monotone(s, all[q].0, all[r].0);
    }
    let t = least(r, q);
    assert(anchor_at_row(s, width, height, r) == offset_at(s, all[t].0));
    lemma_index_of_offset(s, all[t].0);
    if t + 1 < all.len() {
        assert(all[t].0 < all[t + 1].0);
    }
    lemma_row_of_is(all, all[t].0, t);
}

/// Scrolling by some rows and back again changes nothing, where the edges of the document are
/// not in the way and a row stands at the top of the screen.
pub proof fn law_scroll_there_and_back(s: Seq<char>, v: ViewportModel, r: int, delta: int)
    requires
        v.height >= 1,
        0 <= r <= last_top_row(s, v.width, v.height),
        0 <= r + delta <= last_top_row(s, v.width, v.height),
        v.anchor == offset_at(s, rows(s, v.width)[r].0),
    ensures
        scrolled(s, scrolled(s, v, delta), -delta) == v,
{
    lemma_all_rows(s, v.width);
    law_row_at_top(s, v.width, v.height, r);
    law_row_at_top(s, v.width, v.height, r + delta);
}

/// Scrolling moves the row at the top of the screen by just as many rows down, or up where
/// their number is negative, but not above the first row, nor below the last full screen.
pub proof fn law_scrolling_moves_by_rows(s: Seq<char>, v: ViewportModel, delta: int)
    requires
        v.height >= 1,
        is_boundary(s, v.anchor),
        row_at(s, v.width, v.anchor) + v.height <= rows(s, v.width).len() || row_at(
            s,
            v.width,
            v.anchor,
        ) == 0,
    ensures
        ({
            let all = rows(s, v.width);
            let row = row_at(s, v.width, v.anchor);
            let after = scrolled(s, v, delta);
            let next = row_at(s, v.width, after.anchor);
            &&& after.width == v.width && after.height == v.height && after.total == v.total
            &&& delta == 0 ==> after == v
            &&& delta > 0 ==> next >= row
            &&& delta < 0 ==> next <= row
            &&& delta != 0 ==> after.anchor == offset_at(s, all[next].0)
            &&& 0 <= row + delta && row + delta + v.height <= all.len() ==> next == row + delta
            &&& row + delta < 0 ==> next == 0
            &&& delta > 0 && row + delta + v.height > all.len() && all.len() >= v.height ==> next
                + v.height == all.len()
            &&& all.len() <= v.height ==> next == 0
        }),
{
    lemma_all_rows(s, v.width);
    lemma_boundary_index(s, v.anchor);
    lemma_row_of(rows(s, v.width), index_at(s, v.anchor));
    let r = between(row_at(s, v.width, v.anchor) + delta, 0, rows(s, v.width).len() - 1);
    law_row_at_top(s, v.width, v.height, r);
    law_row_at_top(s, v.width, v.height, last_top_row(s, v.width, v.height));
}

/// The last full screen ends with the last row of the document.
pub proof fn law_end_shows_the_last_row(s: Seq<char>, v: ViewportModel)
    requires
        v.height >= 1,
    ensures
        shown(s, gone_to_end(s, v)).len() == least(v.height, rows(s, v.width).len() as int),
        shown(s, gone_to_end(s, v)).last() == rows(s, v.width).last(),
{
    lemma_all_rows(s, v.width);
    let q = last_top_row(s, v.width, v.height);
    law_row_at_top(s, v.width, v.height, q);
    assert(gone_to_end(s, v).anchor == anchor_at_row(s, v.width, v.height, q));
}

/// A document that fits on the screen does not move.
pub proof fn law_short_document_stays(s: Seq<char>, v: ViewportModel, delta: int, offset: int)
    requires
        v.height >= 1,
        rows(s, v.width).len() <= v.height,
        v.anchor == 0,
        0 <= offset,
    ensures
        gone_to_end(s, v) == v,
        scrolled(s, v, delta) == v,
        gone_to_byte(s, v, offset) == v,
{
    lemma_all_rows(s, v.width);
    lemma_offset_ends(s);
    lemma_floor_boundary(s, offset);
    lemma_boundary_index(s, floor_boundary(s, offset) as int);
    lemma_row_of(rows(s, v.width), index_at(s, floor_boundary(s, offset) as int));
}

/// The place that was gone to is on the screen.
pub proof fn law_target_is_shown(s: Seq<char>, v: ViewportModel, offset: int)
    requires
        v.height >= 1,
        is_boundary(s, offset),
    ensures
        ({
            let first = row_at(s, v.width, gone_to_byte(s, v, offset).anchor);
            let row = row_at(s, v.width, offset);
            &&& first <= row < first + v.height
            &&& shown(s, gone_to_byte(s, v, offset))[row - first] == rows(s, v.width)[row]
        }),
{
    lemma_all_rows(s, v.width);
    lemma_boundary_index(s, offset);
    lemma_floor_boundary(s, offset);
    lemma_row_of(rows(s, v.width), index_at(s, offset));
    law_row_at_top(s, v.width, v.height, row_at(s, v.width, offset));
}

/// Whatever size the screen is given, the place at its top stays on it; it stays at the top,
/// unless the screen would then not be full.
pub proof fn law_resizing_keeps_the_place(s: Seq<char>, v: ViewportModel, width: int, height: int)
    requires
        height >= 1,
        is_boundary(s, v.anchor),
    ensures
        ({
            let resized = fitted(s, ViewportModel { width, ..v }, height);
            let first = row_at(s, width, resized.anchor);
            let row = row_at(s, width, v.anchor);
            &&& first <= row < first + height
            &&& shown(s, resized)[row - first] == rows(s, width)[row]
            &&& v.anchor <= last_anchor(s, width, height) ==> resized.anchor == v.anchor && first
                == row
        }),
{
    let q = last_top_row(s, width, height);
    lemma_all_rows(s, width);
    lemma_boundary_index(s, v.anchor);
    lemma_row_of(rows(s, width), index_at(s, v.anchor));
    law_row_at_top(s, width, height, q);
    if v.anchor > last_anchor(s, width, height) {
        let row = row_at(s, width, v.anchor);
        if row < q {
            assert(rows(s, width)[q].0 > index_at(s, v.anchor));
            lemma_offset_monotone(s, index_at(s, v.anchor), rows(s, width)[q].0);
        }
    }
}

} // verus!
