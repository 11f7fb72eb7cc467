//! What stands where on the screen.
use std::ops::Range;

use vstd::prelude::*;

use crate::app::actions::opt_span;
use crate::app::InputMode;
use crate::document::{opt_text, style_views, StyleModel, TextStyle, TextStyleKind};
use crate::input::clusters_of;
use crate::loose_match::span;
use crate::order::{
    is_order, is_sorted, law_sorted, law_sorting_keeps_items, ordered, sort_items, views_of,
    Ordered,
};
use crate::strings::{ends, push_text};
use crate::text::{
    at_boundary, byte_len, byte_length, bytes_between, chars_of, greatest, is_boundary, least,
    push_all, slice, string_of,
};
use crate::unicode::{concatenated, display_width, string_texts, width_of_text};
use crate::viewport::{line_views, row_views, Viewport};
use crate::wrap::{clusters, column_counts, rows};

verus! {

/// The widest text of a document.
pub const MAX_BODY_WIDTH: u16 = 100;

// ---------------------------------------------------------------------------------------
// Areas
// ---------------------------------------------------------------------------------------

/// A part of the screen.
#[derive(Clone, Copy, Debug, PartialEq, Eq, Structural)]
pub struct Area {
    pub x: u16,
    pub y: u16,
    pub width: u16,
    pub height: u16,
}

/// The number between `low` and `high` that is next to `n`.
pub open spec fn clamped(n: int, low: int, high: int) -> int {
    greatest(low, least(n, high))
}

fn clamp_between(n: u16, low: u16, high: u16) -> (result: u16)
    requires
        low <= high,
    ensures
        result == clamped(n as int, low as int, high as int),
{
    if n < low {
        low
    } else if n > high {
        high
    } else {
        n
    }
}

fn smaller(a: u16, b: u16) -> (result: u16)
    ensures
        result == least(a as int, b as int),
{
    if a < b {
        a
    } else {
        b
    }
}

/// Whether nothing can be shown on a screen.
pub fn is_too_small(width: u16, height: u16) -> (small: bool)
    ensures
        small == (width < 20 || height < 6),
{
    width < 20 || height < 6
}

/// The place of the text of a document: two columns from the left, and not too wide.
pub fn body_area(area: Area) -> (body: Area)
    ensures
        body.x == least(area.x + 2, u16::MAX as int),
        body.y == area.y,
        body.width == least(
            clamped(area.width - 4, 1, MAX_BODY_WIDTH as int),
            greatest(area.width - 2, 0),
        ),
        body.height == area.height,
{
    let width: u16 = clamp_between(area.width.saturating_sub(4), 1, MAX_BODY_WIDTH);
    Area {
        x: area.x.saturating_add(2),
        y: area.y,
        width: smaller(width, area.width.saturating_sub(2)),
        height: area.height,
    }
}

/// A part of the given size in the middle of another, as far as it fits.
pub open spec fn centered(width: int, height: int, area: Area) -> Area {
    Area {
        x: (area.x + greatest(area.width - width, 0) / 2) as u16,
        y: (area.y + greatest(area.height - height, 0) / 2) as u16,
        width: least(width, area.width as int) as u16,
        height: least(height, area.height as int) as u16,
    }
}

/// A part of the given size in the middle of another.
pub fn centered_rect(width: u16, height: u16, area: Area) -> (result: Area)
    requires
        area.x + area.width <= u16::MAX,
        area.y + area.height <= u16::MAX,
    ensures
        result == centered(width as int, height as int, area),
{
    Area {
        x: area.x + area.width.saturating_sub(width) / 2,
        y: area.y + area.height.saturating_sub(height) / 2,
        width: smaller(width, area.width),
        height: smaller(height, area.height),
    }
}

/// The place of a list over the document: as high as its items ask, as far as there is room.
pub open spec fn list_area(body: Area, items: int) -> Area {
    centered(
        clamped(body.width - 4, 10, 80),
        least(
            greatest(least(items + 2, u16::MAX as int), 3),
            greatest(body.height - 1, 3),
        ),
        body,
    )
}

/// The place of a list over the document.
pub fn overlay_area(body: Area, items: usize) -> (area: Area)
    requires
        body.x + body.width <= u16::MAX,
        body.y + body.height <= u16::MAX,
    ensures
        area == list_area(body, items as int),
{
    let rows: u16 = if items < 65535 {
        items as u16
    } else {
        65535
    };
    let wanted: u16 = rows.saturating_add(2);
    let wanted: u16 = if wanted < 3 {
        3
    } else {
        wanted
    };
    let room: u16 = body.height.saturating_sub(1);
    let room: u16 = if room < 3 {
        3
    } else {
        room
    };
    let width: u16 = clamp_between(body.width.saturating_sub(4), 10, 80);
    centered_rect(width, smaller(wanted, room), body)
}

/// The row of the screen on which the selected item of a list stands, if it is on the screen.
pub fn selected_row(area: Area, selected: usize, offset: usize) -> (row: Option<u16>)
    ensures
        match row {
            Some(y) => offset <= selected < offset + area.height && y == least(
                area.y + selected - offset,
                u16::MAX as int,
            ),
            None => !(offset <= selected < offset + area.height),
        },
{
    if selected < offset {
        return None;
    }
    let relative: usize = selected - offset;
    if relative >= area.height as usize {
        return None;
    }
    Some(area.y.saturating_add(relative as u16))
}

/// The column of the cursor in the input line, after its margin and prompt.
pub fn cursor_column(area: Area, columns: usize) -> (x: u16)
    ensures
        x == least(
            least(area.x + least(4 + columns, u16::MAX as int), u16::MAX as int),
            greatest(least(area.x + area.width, u16::MAX as int) - 1, 0),
        ),
{
    let offset: u16 = if columns < 65531 {
        4 + columns as u16
    } else {
        65535
    };
    let right: u16 = area.x.saturating_add(area.width).saturating_sub(1);
    smaller(area.x.saturating_add(offset), right)
}

/// How a text of the input line is shown.
#[derive(Clone, Copy, Debug, PartialEq, Eq, Structural)]
pub enum Look {
    Plain,
    Accent,
    Muted,
}

/// How the text of the input line is shown.
pub fn composer_look(mode: InputMode, loading: bool, message: bool) -> (look: Look)
    ensures
        look == (if mode != InputMode::Normal {
            Look::Plain
        } else if loading {
            Look::Accent
        } else if message {
            Look::Plain
        } else {
            Look::Muted
        }),
{
    if mode != InputMode::Normal {
        Look::Plain
    } else if loading {
        Look::Accent
    } else if message {
        Look::Plain
    } else {
        Look::Muted
    }
}

// ---------------------------------------------------------------------------------------
// Paths
// ---------------------------------------------------------------------------------------

/// A path for the reader, with `~` for the home directory. What follows that directory in the
/// path is handed in, if the path leads there.
pub open spec fn compacted(path: Seq<char>, below_home: Option<Seq<char>>) -> Seq<char> {
    match below_home {
        Some(rest) => if rest.len() == 0 {
            "~"@
        } else {
            "~/"@ + rest
        },
        None => path,
    }
}

/// A path for the reader.
pub fn compact_home(path: &str, below_home: &Option<String>) -> (text: String)
    ensures
        text@ == compacted(path@, opt_text(*below_home)),
{
    match below_home {
        Some(rest) => {
            let relative = chars_of(rest.as_str());
            if relative.len() == 0 {
                return "~".to_owned();
            }
            let mut text = chars_of("~/");
            push_all(&mut text, &relative);
            string_of(&text)
        },
        None => path.to_owned(),
    }
}

// ---------------------------------------------------------------------------------------
// Texts that are cut
// ---------------------------------------------------------------------------------------

/// The number of parts, from the one with the index `i` on, that fit beside the columns that
/// are used.
pub open spec fn fitting(columns: Seq<usize>, target: int, i: int, used: int) -> int
    decreases columns.len() - i,
{
    if i < 0 || i >= columns.len() || used + columns[i] > target {
        i
    } else {
        fitting(columns, target, i + 1, used + columns[i])
    }
}

/// A text cut to a width, with an ellipsis for what is left out.
pub open spec fn truncated(s: Seq<char>, width: int) -> Seq<char> {
    if display_width(s) <= width {
        s
    } else if width == 0 {
        Seq::empty()
    } else {
        let parts = clusters(s);
        let target = greatest(width - display_width("…"@), 0);
        concatenated(parts.take(fitting(column_counts(parts), target, 0, 0))) + "…"@
    }
}

/// A text cut to a width.
pub fn truncate_width(value: &str, width: usize) -> (result: String)
    ensures
        result@ == truncated(value@, width as int),
{
    if width_of_text(value) <= width {
        return value.to_owned();
    }
    if width == 0 {
        let none = String::new();
        assert(none@ =~= Seq::<char>::empty());
        return none;
    }
    let ellipsis: usize = width_of_text("…");
    let target: usize = width.saturating_sub(ellipsis);
    let parts = clusters_of(value);
    let ghost all = clusters(value@);
    let ghost columns = column_counts(all);
    let mut result: Vec<char> = Vec::new();
    let mut used: usize = 0;
    let mut i: usize = 0;
    assert(result@ =~= concatenated(all.take(0)));
    while i < parts.len()
        invariant_except_break
            i <= parts@.len(),
            used <= target,
            string_texts(parts@) == all,
            columns == column_counts(all),
            result@ == concatenated(all.take(i as int)),
            fitting(columns, target as int, 0, 0) == fitting(
                columns,
                target as int,
                i as int,
                used as int,
            ),
        ensures
            result@ == concatenated(all.take(fitting(columns, target as int, 0, 0))),
        decreases parts.len() - i,
    {
        assert(all[i as int] == parts@[i as int]@);
        let columns_here: usize = width_of_text(parts[i].as_str());
        if columns_here > target - used {
            break;
        }
        push_text(&mut result, parts[i].as_str());
        assert(all.take(i + 1).drop_last() =~= all.take(i as int));
        used += columns_here;
        i += 1;
    }
    push_text(&mut result, "…");
    string_of(&result)
}

/// The status line: the left part is cut, and left out where there is no room for it.
pub open spec fn status_text(left: Seq<char>, right: Seq<char>, width: int) -> Seq<char> {
    if width == 0 {
        Seq::empty()
    } else if display_width(right) >= width {
        truncated(right, width)
    } else if display_width(right) + display_width(" · "@) >= width {
        right
    } else {
        truncated(left, width - display_width(right) - display_width(" · "@)) + " · "@ + right
    }
}

/// The status line.
pub fn fit_status(left: &str, right: &str, width: usize) -> (line: String)
    ensures
        line@ == status_text(left@, right@, width as int),
{
    if width == 0 {
        let none = String::new();
        assert(none@ =~= Seq::<char>::empty());
        return none;
    }
    let right_width: usize = width_of_text(right);
    if right_width >= width {
        return truncate_width(right, width);
    }
    let separator_width: usize = width_of_text(" · ");
    if separator_width >= width - right_width {
        return right.to_owned();
    }
    let kept = truncate_width(left, width - right_width - separator_width);
    let mut line = chars_of(kept.as_str());
    push_text(&mut line, " · ");
    push_text(&mut line, right);
    string_of(&line)
}

/// The right part of the status line is shown whole wherever there is room for more than it.
pub proof fn law_status_keeps_the_right_part(left: Seq<char>, right: Seq<char>, width: int)
    requires
        display_width(right) < width,
    ensures
        ends(status_text(left, right, width), right),
{
    let line = status_text(left, right, width);
    assert(line.skip(line.len() - right.len()) =~= right);
}

/// The rows of a text.
pub open spec fn row_texts(s: Seq<char>, width: int) -> Seq<Seq<char>> {
    Seq::new(
        rows(s, width).len(),
        |i: int| s.subrange(rows(s, width)[i].0, rows(s, width)[i].1),
    )
}

/// The rows of some texts, one after the other.
pub open spec fn wrapped(items: Seq<Seq<char>>, width: int) -> Seq<Seq<char>>
    decreases items.len(),
{
    if items.len() == 0 {
        Seq::empty()
    } else {
        wrapped(items.drop_last(), width) + row_texts(items.last(), width)
    }
}

/// The rows of some texts on a screen of the given width.
pub fn wrap_overlay_items(items: &[String], width: usize) -> (lines: Vec<String>)
    ensures
        string_texts(lines@) == wrapped(string_texts(items@), greatest(width as int, 1)),
{
    let ghost all = string_texts(items@);
    let ghost columns = greatest(width as int, 1);
    let mut lines: Vec<String> = Vec::new();
    let mut i: usize = 0;
    assert(string_texts(lines@) =~= wrapped(all.take(0), columns));
    while i < items.len()
        invariant
            i <= items@.len(),
            all == string_texts(items@),
            columns == greatest(width as int, 1),
            string_texts(lines@) == wrapped(all.take(i as int), columns),
        decreases items.len() - i,
    {
        assert(all.take(i + 1).drop_last() =~= all.take(i as int));
        assert(all.take(i + 1).last() == items@[i as int]@);
        let mut own = rows_of_text(items[i].as_str(), width);
        let ghost before = lines@;
        let ghost more = own@;
        lines.append(&mut own);
        assert(string_texts(lines@) =~= string_texts(before) + string_texts(more));
        i += 1;
    }
    assert(all.take(i as int) =~= all);
    lines
}

fn rows_of_text(text: &str, width: usize) -> (lines: Vec<String>)
    ensures
        string_texts(lines@) == row_texts(text@, greatest(width as int, 1)),
{
    let places = Viewport::all_rows(text, width);
    let ghost s = text@;
    let ghost columns = greatest(width as int, 1);
    let ghost all = rows(s, columns);
    proof {
        crate::wrap::lemma_all_rows(s, columns);
        assert(line_views(places@).len() == row_views(s, all).len());
    }
    let mut lines: Vec<String> = Vec::new();
    let mut i: usize = 0;
    while i < places.len()
        invariant
            i <= places@.len(),
            s == text@,
            all == rows(s, columns),
            places@.len() == all.len(),
            line_views(places@) == row_views(s, all),
            lines@.len() == i,
            forall|j: int| 0 <= j < i ==> (#[trigger] lines@[j])@ == s.subrange(all[j].0, all[j].1),
        decreases places.len() - i,
    {
        proof {
            crate::wrap::lemma_all_rows(s, columns);
            assert(line_views(places@)[i as int] == places@[i as int]@);
            crate::text::lemma_index_of_offset(s, all[i as int].0);
            crate::text::lemma_index_of_offset(s, all[i as int].1);
            crate::text::lemma_offset_monotone(s, all[i as int].0, all[i as int].1);
        }
        let range = places[i].range();
        let part = slice(text, range.start, range.end);
        lines.push(part.to_owned());
        i += 1;
    }
    assert(string_texts(lines@) =~= row_texts(s, columns));
    lines
}

// ---------------------------------------------------------------------------------------
// Styles
// ---------------------------------------------------------------------------------------

/// A part of a row that is shown in one way.
#[derive(Debug, PartialEq, Eq)]
pub struct LineSpan {
    pub range: Range<usize>,
    pub kinds: Vec<TextStyleKind>,
    pub matched: bool,
}

#[verifier::ext_equal]
pub struct SpanModel {
    pub start: int,
    pub end: int,
    pub kinds: Seq<TextStyleKind>,
    pub matched: bool,
}

impl View for LineSpan {
    type V = SpanModel;

    open spec fn view(&self) -> SpanModel {
        SpanModel {
            start: self.range.start as int,
            end: self.range.end as int,
            kinds: self.kinds@,
            matched: self.matched,
        }
    }
}

/// A place in a row at which it may change how it is shown.
#[derive(Clone, Copy, Debug, PartialEq, Eq, Structural)]
pub struct Point {
    pub offset: usize,
}

impl View for Point {
    type V = int;

    open spec fn view(&self) -> int {
        self.offset as int
    }
}

impl Ordered for Point {
    open spec fn behind(left: int, right: int) -> bool {
        left > right
    }

    fn is_behind(&self, other: &Self) -> (behind: bool) {
        self.offset > other.offset
    }
}

/// Two ranges have something in common.
pub open spec fn overlap(left: (int, int), right: (int, int)) -> bool {
    left.0 < right.1 && right.0 < left.1
}

/// Whether two ranges have something in common.
pub fn intersects(left: &Range<usize>, right: &Range<usize>) -> (common: bool)
    ensures
        common == overlap(span(*left), span(*right)),
{
    left.start < right.end && right.start < left.end
}

/// The places with the ends of a range, as far as it lies in the row.
pub open spec fn with_ends(points: Seq<int>, row: (int, int), range: (int, int)) -> Seq<int> {
    if overlap(row, range) {
        points.push(greatest(range.0, row.0)).push(least(range.1, row.1))
    } else {
        points
    }
}

/// The places at which a row may change how it is shown, in no order.
pub open spec fn style_points(row: (int, int), styles: Seq<StyleModel>) -> Seq<int>
    decreases styles.len(),
{
    if styles.len() == 0 {
        seq![row.0, row.1]
    } else {
        with_ends(
            style_points(row, styles.drop_last()),
            row,
            (styles.last().start, styles.last().end),
        )
    }
}

pub open spec fn all_points(
    row: (int, int),
    styles: Seq<StyleModel>,
    found: Option<(int, int)>,
) -> Seq<int> {
    match found {
        Some(range) => with_ends(style_points(row, styles), row, range),
        None => style_points(row, styles),
    }
}

/// The places without those that follow an equal one.
pub open spec fn distinct(points: Seq<int>) -> Seq<int>
    decreases points.len(),
{
    if points.len() == 0 {
        Seq::empty()
    } else {
        let before = distinct(points.drop_last());
        if before.len() > 0 && before.last() == points.last() {
            before
        } else {
            before.push(points.last())
        }
    }
}

/// The places at which a row changes how it is shown, in order.
pub open spec fn cuts(
    row: (int, int),
    styles: Seq<StyleModel>,
    found: Option<(int, int)>,
) -> Seq<int> {
    distinct(ordered::<Point>(all_points(row, styles, found)))
}

/// The styles of a place.
pub open spec fn kinds_at(styles: Seq<StyleModel>, at: int) -> Seq<TextStyleKind>
    decreases styles.len(),
{
    if styles.len() == 0 {
        Seq::empty()
    } else {
        let before = kinds_at(styles.drop_last(), at);
        if styles.last().start <= at < styles.last().end {
            before.push(styles.last().kind)
        } else {
            before
        }
    }
}

/// The parts of a row that are shown in one way.
pub open spec fn row_spans(
    row: (int, int),
    styles: Seq<StyleModel>,
    found: Option<(int, int)>,
) -> Seq<SpanModel> {
    if row.0 >= row.1 {
        Seq::empty()
    } else {
        let points = cuts(row, styles, found);
        Seq::new(
            (points.len() - 1) as nat,
            |i: int|
                SpanModel {
                    start: points[i],
                    end: points[i + 1],
                    kinds: kinds_at(styles, points[i]),
                    matched: found matches Some(range) && range.0 <= points[i] < range.1,
                },
        )
    }
}

proof fn lemma_distinct(points: Seq<int>)
    requires
        is_sorted::<Point>(points),
    ensures
        forall|i: int, j: int|
            0 <= i < j < distinct(points).len() ==> #[trigger] distinct(points)[i]
                < #[trigger] distinct(points)[j],
        points.len() > 0 ==> distinct(points).len() > 0 && distinct(points)[0] == points[0]
            && distinct(points).last() == points.last(),
        points.len() == 0 ==> distinct(points).len() == 0,
    decreases points.len(),
{
    if points.len() > 0 {
        let less = points.drop_last();
        let n = less.len() as int;
        assert(is_sorted::<Point>(less)) by {
            assert forall|i: int, j: int| 0 <= i < j < less.len() implies !Point::behind(
                #[trigger] less[i],
                #[trigger] less[j],
            ) by {
                assert(!Point::behind(points[i], points[j]));
            }
        }
        lemma_distinct(less);
        let before = distinct(less);
        let all = distinct(points);
        if n > 0 {
            assert(!Point::behind(points[n - 1], points[n]));
        }
        assert forall|i: int, j: int| 0 <= i < j < all.len() implies #[trigger] all[i]
            < #[trigger] all[j] by {
            assert(all[i] == before[i]);
            if j < before.len() {
                assert(all[j] == before[j]);
            } else if i < before.len() - 1 {
                assert(before[i] < before[before.len() - 1]);
            }
        }
    }
}

proof fn lemma_points(row: (int, int), styles: Seq<StyleModel>)
    requires
        row.0 < row.1,
    ensures
        style_points(row, styles).len() >= 2,
        style_points(row, styles)[0] == row.0,
        style_points(row, styles)[1] == row.1,
        forall|i: int|
            0 <= i < style_points(row, styles).len() ==> row.0 <= #[trigger] style_points(
                row,
                styles,
            )[i] <= row.1,
    decreases styles.len(),
{
    if styles.len() > 0 {
        lemma_points(row, styles.drop_last());
    }
}

/// The places of a row begin at its start, end at its end and rise.
proof fn lemma_cuts(row: (int, int), styles: Seq<StyleModel>, found: Option<(int, int)>)
    requires
        row.0 < row.1,
    ensures
        cuts(row, styles, found).len() >= 2,
        cuts(row, styles, found)[0] == row.0,
        cuts(row, styles, found).last() == row.1,
        forall|i: int, j: int|
            0 <= i < j < cuts(row, styles, found).len() ==> #[trigger] cuts(row, styles, found)[i]
                < #[trigger] cuts(row, styles, found)[j],
{
    broadcast use vstd::seq_lib::group_to_multiset_ensures;

    lemma_points(row, styles);
    let points = all_points(row, styles, found);
    let sorted = ordered::<Point>(points);
    assert(is_order::<Point>());
    law_sorted::<Point>(points);
    law_sorting_keeps_items::<Point>(points);
    lemma_distinct(sorted);
    assert forall|i: int| 0 <= i < points.len() implies row.0 <= #[trigger] points[i] <= row.1 by {}
    assert(points.contains(points[0]) && points.contains(points[1]));
    assert(points.to_multiset().count(row.0) > 0 && points.to_multiset().count(row.1) > 0);
    assert(sorted.contains(row.0) && sorted.contains(row.1));
    let first = choose|i: int| 0 <= i < sorted.len() && sorted[i] == row.0;
    let last = choose|i: int| 0 <= i < sorted.len() && sorted[i] == row.1;
    let n = sorted.len() as int;
    assert(sorted.to_multiset().count(sorted[0]) > 0);
    assert(points.contains(sorted[0]));
    assert(sorted.to_multiset().count(sorted[n - 1]) > 0);
    assert(points.contains(sorted[n - 1]));
    if first > 0 {
        assert(!Point::behind(sorted[0], sorted[first]));
    }
    if last < n - 1 {
        assert(!Point::behind(sorted[last], sorted[n - 1]));
    }
}

/// The parts of a row are not empty, and together they are the row.
pub proof fn law_spans_cover_the_row(
    row: (int, int),
    styles: Seq<StyleModel>,
    found: Option<(int, int)>,
)
    requires
        row.0 < row.1,
    ensures
        ({
            let spans = row_spans(row, styles, found);
            &&& spans.len() > 0
            &&& spans[0].start == row.0
            &&& spans.last().end == row.1
            &&& forall|i: int| 0 <= i < spans.len() ==> (#[trigger] spans[i]).start < spans[i].end
            &&& forall|i: int|
                0 <= i < spans.len() - 1 ==> (#[trigger] spans[i]).end == spans[i + 1].start
        }),
{
    lemma_cuts(row, styles, found);
}

fn push_ends(points: &mut Vec<Point>, row: &Range<usize>, range: &Range<usize>)
    ensures
        views_of(final(points)@) == with_ends(views_of(old(points)@), span(*row), span(*range)),
{
    if intersects(row, range) {
        let start: usize = if range.start > row.start {
            range.start
        } else {
            row.start
        };
        let end: usize = if range.end < row.end {
            range.end
        } else {
            row.end
        };
        points.push(Point { offset: start });
        points.push(Point { offset: end });
        assert(views_of(points@) =~= views_of(old(points)@).push(start as int).push(end as int));
    }
}

fn cut_points(row: &Range<usize>, styles: &[TextStyle], found: &Option<Range<usize>>) -> (points:
    Vec<Point>)
    ensures
        views_of(points@) == cuts(span(*row), style_views(styles@), opt_span(*found)),
{
    let ghost all = style_views(styles@);
    let mut points: Vec<Point> = Vec::new();
    points.push(Point { offset: row.start });
    points.push(Point { offset: row.end });
    let mut i: usize = 0;
    assert(views_of(points@) =~= style_points(span(*row), all.take(0)));
    while i < styles.len()
        invariant
            i <= styles@.len(),
            all == style_views(styles@),
            views_of(points@) == style_points(span(*row), all.take(i as int)),
        decreases styles.len() - i,
    {
        assert(all.take(i + 1).drop_last() =~= all.take(i as int));
        assert(all.take(i + 1).last() == styles@[i as int]@);
        let range = styles[i].range();
        push_ends(&mut points, row, &range);
        i += 1;
    }
    assert(all.take(i as int) =~= all);
    if let Some(range) = found {
        push_ends(&mut points, row, range);
    }
    let sorted = sort_items(points);
    let ghost places = views_of(sorted@);
    let mut kept: Vec<Point> = Vec::new();
    let mut k: usize = 0;
    assert(views_of(kept@) =~= distinct(places.take(0)));
    while k < sorted.len()
        invariant
            k <= sorted@.len(),
            places == views_of(sorted@),
            views_of(kept@) == distinct(places.take(k as int)),
        decreases sorted.len() - k,
    {
        assert(places.take(k + 1).drop_last() =~= places.take(k as int));
        assert(places.take(k + 1).last() == sorted@[k as int]@);
        let length: usize = kept.len();
        let repeated: bool = length > 0 && kept[length - 1].offset == sorted[k].offset;
        assert(length > 0 ==> views_of(kept@).last() == kept@[length - 1]@);
        if !repeated {
            let ghost before = kept@;
            kept.push(sorted[k]);
            assert(views_of(kept@) =~= views_of(before).push(places[k as int]));
        }
        k += 1;
    }
    assert(places.take(k as int) =~= places);
    kept
}

fn styles_at(styles: &[TextStyle], at: usize) -> (kinds: Vec<TextStyleKind>)
    ensures
        kinds@ == kinds_at(style_views(styles@), at as int),
{
    let ghost all = style_views(styles@);
    let mut kinds: Vec<TextStyleKind> = Vec::new();
    let mut i: usize = 0;
    assert(kinds@ =~= kinds_at(all.take(0), at as int));
    while i < styles.len()
        invariant
            i <= styles@.len(),
            all == style_views(styles@),
            kinds@ == kinds_at(all.take(i as int), at as int),
        decreases styles.len() - i,
    {
        assert(all.take(i + 1).drop_last() =~= all.take(i as int));
        assert(all.take(i + 1).last() == styles@[i as int]@);
        let range = styles[i].range();
        if range.start <= at && at < range.end {
            kinds.push(styles[i].kind());
        }
        i += 1;
    }
    assert(all.take(i as int) =~= all);
    kinds
}

/// The parts of a row that are shown in one way.
pub fn styled_line(row: &Range<usize>, styles: &[TextStyle], found: &Option<Range<usize>>) -> (spans:
    Vec<LineSpan>)
    ensures
        views_of(spans@) == row_spans(span(*row), style_views(styles@), opt_span(*found)),
{
    let mut spans: Vec<LineSpan> = Vec::new();
    let ghost model = row_spans(span(*row), style_views(styles@), opt_span(*found));
    if row.start >= row.end {
        assert(views_of(spans@) =~= model);
        return spans;
    }
    let points = cut_points(row, styles, found);
    let ghost places = views_of(points@);
    proof {
        lemma_cuts(span(*row), style_views(styles@), opt_span(*found));
    }
    let mut i: usize = 0;
    while i < points.len() - 1
        invariant
            1 <= points@.len(),
            i <= points@.len() - 1,
            places == views_of(points@),
            row.start < row.end,
            places == cuts(span(*row), style_views(styles@), opt_span(*found)),
            model == row_spans(span(*row), style_views(styles@), opt_span(*found)),
            spans@.len() == i,
            forall|j: int| 0 <= j < i ==> (#[trigger] spans@[j])@ == model[j],
        decreases points.len() - i,
    {
        let start: usize = points[i].offset;
        let end: usize = points[i + 1].offset;
        assert(places[i as int] == start && places[i + 1] == end);
        let matched: bool = match found {
            Some(range) => range.start <= start && start < range.end,
            None => false,
        };
        let kinds = styles_at(styles, start);
        let new = LineSpan { range: Range { start, end }, kinds, matched };
        assert(new@ =~= model[i as int]);
        spans.push(new);
        i += 1;
    }
    assert(views_of(spans@) =~= model);
    spans
}

// ---------------------------------------------------------------------------------------
// Emphasis in lists
// ---------------------------------------------------------------------------------------

/// A line in three parts, the middle one of which is set off.
#[derive(Debug, PartialEq, Eq)]
pub struct Parts {
    pub before: String,
    pub matched: String,
    pub after: String,
}

/// A range can be set off in a line: it holds something and ends at boundaries.
pub open spec fn can_be_set_off(line: Seq<char>, range: (int, int)) -> bool {
    range.0 < range.1 <= byte_len(line) && is_boundary(line, range.0) && is_boundary(line, range.1)
}

/// A line in three parts, if there is something to be set off.
pub fn emphasised_parts(line: &str, emphasis: &Option<Range<usize>>) -> (parts: Option<Parts>)
    ensures
        match parts {
            Some(parts) => opt_span(*emphasis) matches Some(range) && can_be_set_off(
                line@,
                range,
            ) && parts.before@ == bytes_between(line@, 0, range.0) && parts.matched@
                == bytes_between(line@, range.0, range.1) && parts.after@ == bytes_between(
                line@,
                range.1,
                byte_len(line@) as int,
            ),
            None => !(opt_span(*emphasis) matches Some(range) && can_be_set_off(line@, range)),
        },
{
    match emphasis {
        Some(range) => {
            let end: usize = byte_length(line);
            if range.start < range.end && range.end <= end && at_boundary(line, range.start)
                && at_boundary(line, range.end) {
                proof {
                    crate::text::lemma_offset_ends(line@);
                    crate::text::lemma_index_of_offset(line@, 0);
                    crate::text::lemma_index_of_offset(line@, line@.len() as int);
                }
                Some(
                    Parts {
                        before: slice(line, 0, range.start).to_owned(),
                        matched: slice(line, range.start, range.end).to_owned(),
                        after: slice(line, range.end, end).to_owned(),
                    },
                )
            } else {
                None
            }
        },
        None => None,
    }
}

/// A list lies within the place of the document, in its middle; it is as high as its items and
/// its frame, as far as there is room.
pub proof fn law_lists_fit(body: Area, items: int)
    requires
        body.x + body.width <= u16::MAX,
        body.y + body.height <= u16::MAX,
        0 <= items,
    ensures
        ({
            let area = list_area(body, items);
            let left = area.x - body.x;
            let right = body.x + body.width - (area.x + area.width);
            let above = area.y - body.y;
            let below = body.y + body.height - (area.y + area.height);
            &&& 0 <= left <= right <= left + 1
            &&& 0 <= above <= below <= above + 1
            &&& 1 <= items && items + 2 < body.height ==> area.height == items + 2
            &&& 14 <= body.width <= 84 ==> area.width == body.width - 4
        }),
{
}

proof fn lemma_concatenated_start(parts: Seq<Seq<char>>, n: int)
    requires
        0 <= n <= parts.len(),
    ensures
        concatenated(parts.take(n)).is_prefix_of(concatenated(parts)),
    decreases parts.len(),
{
    if n == parts.len() {
        assert(parts.take(n) =~= parts);
    } else {
        let less = parts.drop_last();
        lemma_concatenated_start(less, n);
        assert(less.take(n) =~= parts.take(n));
        let start = concatenated(parts.take(n));
        assert(concatenated(less).subrange(0, start.len() as int) =~= start);
        assert(concatenated(parts).subrange(0, start.len() as int) =~= start);
    }
}

proof fn lemma_fitting(columns: Seq<usize>, target: int, i: int, used: int)
    requires
        0 <= i <= columns.len(),
    ensures
        i <= fitting(columns, target, i, used) <= columns.len(),
    decreases columns.len() - i,
{
    if i < columns.len() && used + columns[i] <= target {
        lemma_fitting(columns, target, i + 1, used + columns[i]);
    }
}

/// A text that fits is not cut. One that does not keeps its start, and an ellipsis stands for
/// the rest.
pub proof fn law_cut_text(s: Seq<char>, width: int)
    ensures
        display_width(s) <= width ==> truncated(s, width) == s,
        display_width(s) > width > 0 ==> truncated(s, width).len() > 0 && truncated(s, width).last()
            == '…' && truncated(s, width).drop_last().is_prefix_of(s),
{
    let parts = clusters(s);
    let target = greatest(width - display_width("…"@), 0);
    let n = fitting(column_counts(parts), target, 0, 0);
    crate::wrap::lemma_clusters(s);
    lemma_fitting(column_counts(parts), target, 0, 0);
    lemma_concatenated_start(parts, n);
    reveal_strlit("…");
    let kept = concatenated(parts.take(n));
    assert((kept + "…"@).drop_last() =~= kept);
}

} // verus!
