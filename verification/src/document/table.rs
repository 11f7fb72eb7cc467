//! Tables of Markdown documents: collecting their cells, and drawing them with borders.
use vstd::prelude::*;

use crate::document::events::{ColumnAlign, EventModel, MarkdownEvent, TagKind};
use crate::document::html_text::{html_fragment, shown_text, visible_html_text};
use crate::document::styled_text::{
    add_char, add_newlines, add_space, add_styled, add_text, close_image, close_link, close_style,
    closed_text, no_text, open_image, open_link, open_style, span_views, StyleSpan, Styled,
    StyledText,
};
use crate::document::{StyleModel, TextStyleKind};
use crate::strings::{repeat_chars, repeated, split, split_on, texts};
use crate::text::{
    byte_len, chars_of, greatest, least, lemma_index_of_offset, lemma_offset_monotone, offset_at,
    slice, string_of,
};
use crate::unicode::{
    display_width, grapheme_clusters, graphemes_of, string_texts, width_of_text,
};
use crate::viewport::{line_views, row_view, row_views, Viewport, VisualLine};
use crate::wrap::{lemma_all_rows, rows, saturated};

verus! {

/// The number of columns that a table takes up at most, where its clusters leave a choice.
pub const MAX_TABLE_WIDTH: usize = 100;

// ---------------------------------------------------------------------------------------
// Collecting cells
// ---------------------------------------------------------------------------------------

#[verifier::ext_equal]
pub struct RowModel {
    pub cells: Seq<Styled>,
    pub header: bool,
}

/// A table while its events are handled.
#[verifier::ext_equal]
pub struct TableModel {
    pub alignments: Seq<ColumnAlign>,
    pub rows: Seq<RowModel>,
    pub row: Option<RowModel>,
    pub cell: Option<Styled>,
    pub in_head: bool,
}

pub open spec fn empty_table(alignments: Seq<ColumnAlign>) -> TableModel {
    TableModel { alignments, rows: seq![], row: None, cell: None, in_head: false }
}

pub open spec fn task_marker(checked: bool) -> Seq<char> {
    if checked {
        "[x] "@
    } else {
        "[ ] "@
    }
}

/// The style that a tag stands for.
pub open spec fn inline_style(kind: TagKind) -> Option<TextStyleKind> {
    match kind {
        TagKind::Emphasis => Some(TextStyleKind::Emphasis),
        TagKind::Strong => Some(TextStyleKind::Strong),
        TagKind::Strikethrough => Some(TextStyleKind::Strikethrough),
        _ => None,
    }
}

pub fn style_of_tag(kind: TagKind) -> (style: Option<TextStyleKind>)
    ensures
        style == inline_style(kind),
{
    match kind {
        TagKind::Emphasis => Some(TextStyleKind::Emphasis),
        TagKind::Strong => Some(TextStyleKind::Strong),
        TagKind::Strikethrough => Some(TextStyleKind::Strikethrough),
        _ => None,
    }
}

/// The text of a cell after an event within it.
pub open spec fn cell_step(t: Styled, event: EventModel) -> Styled {
    match event {
        EventModel::Text(text) => add_text(t, text),
        EventModel::Code(text) => add_styled(t, text, TextStyleKind::Code),
        EventModel::SoftBreak => add_space(t),
        EventModel::HardBreak => add_newlines(t, 1),
        EventModel::Start(kind) => match inline_style(kind) {
            Some(style) => open_style(t, style),
            None => t,
        },
        EventModel::End(kind) => match inline_style(kind) {
            Some(style) => close_style(t, style),
            None => if kind == TagKind::Link {
                close_link(t)
            } else if kind == TagKind::Image {
                close_image(t)
            } else {
                t
            },
        },
        EventModel::Link(destination) => open_link(t, destination),
        EventModel::Image(destination) => open_image(t, destination),
        EventModel::Html(text) => add_text(t, shown_text(html_fragment(text))),
        EventModel::InlineHtml(text) => add_text(t, shown_text(html_fragment(text))),
        EventModel::TaskMarker(checked) => add_text(t, task_marker(checked)),
        _ => t,
    }
}

pub open spec fn row_closed(table: TableModel) -> TableModel {
    match table.row {
        Some(row) => TableModel { rows: table.rows.push(row), row: None, ..table },
        None => table,
    }
}

pub open spec fn cell_closed(table: TableModel) -> TableModel {
    match table.cell {
        Some(cell) => TableModel {
            cell: None,
            row: match table.row {
                Some(row) => Some(RowModel { cells: row.cells.push(closed_text(cell)), ..row }),
                None => None,
            },
            ..table
        },
        None => table,
    }
}

/// The table after an event within it.
pub open spec fn table_step(table: TableModel, event: EventModel) -> TableModel {
    match event {
        EventModel::Start(TagKind::TableHead) => TableModel {
            in_head: true,
            row: Some(RowModel { cells: seq![], header: true }),
            ..table
        },
        EventModel::End(TagKind::TableHead) => TableModel { in_head: false, ..row_closed(table) },
        EventModel::Start(TagKind::TableRow) => TableModel {
            row: Some(RowModel { cells: seq![], header: table.in_head }),
            ..table
        },
        EventModel::End(TagKind::TableRow) => row_closed(table),
        EventModel::Start(TagKind::TableCell) => TableModel { cell: Some(no_text()), ..table },
        EventModel::End(TagKind::TableCell) => cell_closed(table),
        _ => match table.cell {
            Some(cell) => TableModel { cell: Some(cell_step(cell, event)), ..table },
            None => table,
        },
    }
}

pub struct TableRow {
    pub cells: Vec<StyledText>,
    pub header: bool,
}

pub open spec fn cell_views(cells: Seq<StyledText>) -> Seq<Styled> {
    Seq::new(cells.len(), |i: int| cells[i]@)
}

impl View for TableRow {
    type V = RowModel;

    open spec fn view(&self) -> RowModel {
        RowModel { cells: cell_views(self.cells@), header: self.header }
    }
}

pub open spec fn table_row_views(rows: Seq<TableRow>) -> Seq<RowModel> {
    Seq::new(rows.len(), |i: int| rows[i]@)
}

/// A table while its events are handled.
pub struct TableBuilder {
    pub alignments: Vec<ColumnAlign>,
    pub rows: Vec<TableRow>,
    pub current_row: Option<TableRow>,
    pub current_cell: Option<StyledText>,
    pub in_head: bool,
}

pub open spec fn opt_row(row: Option<TableRow>) -> Option<RowModel> {
    match row {
        Some(row) => Some(row@),
        None => None,
    }
}

pub open spec fn opt_cell(cell: Option<StyledText>) -> Option<Styled> {
    match cell {
        Some(cell) => Some(cell@),
        None => None,
    }
}

impl View for TableBuilder {
    type V = TableModel;

    open spec fn view(&self) -> TableModel {
        TableModel {
            alignments: self.alignments@,
            rows: table_row_views(self.rows@),
            row: opt_row(self.current_row),
            cell: opt_cell(self.current_cell),
            in_head: self.in_head,
        }
    }
}

fn handle_in_cell(cell: &mut StyledText, event: &MarkdownEvent)
    ensures
        final(cell)@ == cell_step(old(cell)@, event@),
{
    match event {
        MarkdownEvent::Text(text) => cell.push_literal(text.as_str()),
        MarkdownEvent::Code(text) => {
            let characters = chars_of(text.as_str());
            cell.push_styled(&characters, TextStyleKind::Code);
        },
        MarkdownEvent::SoftBreak => cell.push_space(),
        MarkdownEvent::HardBreak => cell.ensure_newlines(1),
        MarkdownEvent::Start(kind) => {
            if let Some(style) = style_of_tag(*kind) {
                cell.start_style(style);
            }
        },
        MarkdownEvent::End(kind) => {
            if let Some(style) = style_of_tag(*kind) {
                cell.end_style(style);
            } else if *kind == TagKind::Link {
                cell.end_link();
            } else if *kind == TagKind::Image {
                cell.end_image();
            }
        },
        MarkdownEvent::Link(destination) => cell.start_link(destination.as_str()),
        MarkdownEvent::Image(destination) => cell.start_image(destination.as_str()),
        MarkdownEvent::Html(text) | MarkdownEvent::InlineHtml(text) => {
            let visible = visible_html_text(text.as_str());
            cell.push_text(&visible);
        },
        MarkdownEvent::TaskMarker(checked) => {
            if *checked {
                cell.push_literal("[x] ");
            } else {
                cell.push_literal("[ ] ");
            }
        },
        _ => {},
    }
}

impl TableBuilder {
    pub fn new(alignments: Vec<ColumnAlign>) -> (table: Self)
        ensures
            table@ == empty_table(alignments@),
    {
        let table = TableBuilder {
            alignments,
            rows: Vec::new(),
            current_row: None,
            current_cell: None,
            in_head: false,
        };
        assert(table@ =~= empty_table(alignments@));
        table
    }

    fn start_row(&mut self, header: bool)
        ensures
            final(self)@ == (TableModel {
                row: Some(RowModel { cells: seq![], header }),
                ..old(self)@
            }),
    {
        let row = TableRow { cells: Vec::new(), header };
        assert(row@ =~= (RowModel { cells: seq![], header }));
        self.current_row = Some(row);
    }

    fn finish_row(&mut self)
        ensures
            final(self)@ == row_closed(old(self)@),
    {
        let ghost before = self.rows@;
        match self.current_row.take() {
            Some(row) => {
                let ghost model = row@;
                self.current_row = None;
                self.rows.push(row);
                assert(table_row_views(self.rows@) =~= table_row_views(before).push(model));
            },
            None => {
                self.current_row = None;
            },
        }
    }

    fn finish_cell(&mut self)
        ensures
            final(self)@ == cell_closed(old(self)@),
    {
        match self.current_cell.take() {
            Some(mut cell) => {
                self.current_cell = None;
                cell.finish();
                match self.current_row.take() {
                    Some(mut row) => {
                        let ghost before = row.cells@;
                        let ghost model = cell@;
                        row.cells.push(cell);
                        assert(cell_views(row.cells@) =~= cell_views(before).push(model));
                        self.current_row = Some(row);
                    },
                    None => {
                        self.current_row = None;
                    },
                }
            },
            None => {
                self.current_cell = None;
            },
        }
    }

    /// Handles an event within the table.
    pub fn handle(&mut self, event: &MarkdownEvent)
        ensures
            final(self)@ == table_step(old(self)@, event@),
    {
        match event {
            MarkdownEvent::Start(TagKind::TableHead) => {
                self.in_head = true;
                self.start_row(true);
            },
            MarkdownEvent::End(TagKind::TableHead) => {
                self.finish_row();
                self.in_head = false;
            },
            MarkdownEvent::Start(TagKind::TableRow) => {
                let header = self.in_head;
                self.start_row(header);
            },
            MarkdownEvent::End(TagKind::TableRow) => {
                self.finish_row();
            },
            MarkdownEvent::Start(TagKind::TableCell) => {
                self.current_cell = Some(StyledText::new());
            },
            MarkdownEvent::End(TagKind::TableCell) => {
                self.finish_cell();
            },
            _ => {
                match self.current_cell.take() {
                    Some(mut cell) => {
                        handle_in_cell(&mut cell, event);
                        self.current_cell = Some(cell);
                    },
                    None => {
                        self.current_cell = None;
                    },
                }
            },
        }
    }
}

// ---------------------------------------------------------------------------------------
// Widths of columns
// ---------------------------------------------------------------------------------------

/// The number of columns of the widest part, and at least one.
pub open spec fn widest(parts: Seq<Seq<char>>) -> int
    decreases parts.len(),
{
    if parts.len() == 0 {
        1
    } else {
        greatest(widest(parts.drop_last()), display_width(parts.last()) as int)
    }
}

/// How wide a column would be if nothing were wrapped.
pub open spec fn natural_width(rows: Seq<RowModel>, column: int) -> int
    decreases rows.len(),
{
    if rows.len() == 0 {
        1
    } else {
        greatest(
            natural_width(rows.drop_last(), column),
            widest(split(rows.last().cells[column].text, '\n')),
        )
    }
}

/// How wide a column is at least: no cluster is split.
pub open spec fn minimum_width(rows: Seq<RowModel>, column: int) -> int
    decreases rows.len(),
{
    if rows.len() == 0 {
        1
    } else {
        greatest(
            minimum_width(rows.drop_last(), column),
            widest(grapheme_clusters(rows.last().cells[column].text)),
        )
    }
}

pub open spec fn total(widths: Seq<int>) -> int
    decreases widths.len(),
{
    if widths.len() == 0 {
        0
    } else {
        total(widths.drop_last()) + widths.last()
    }
}

/// The widest of the columns that are above their minimum, and of equal ones the last.
pub open spec fn widest_column(widths: Seq<int>, minimums: Seq<int>) -> Option<int>
    decreases widths.len(),
{
    if widths.len() == 0 {
        None
    } else {
        let i = widths.len() - 1;
        match widest_column(widths.drop_last(), minimums) {
            Some(best) => if widths[i] > minimums[i] && widths[i] >= widths[best] {
                Some(i)
            } else {
                Some(best)
            },
            None => if widths[i] > minimums[i] {
                Some(i)
            } else {
                None
            },
        }
    }
}

pub proof fn lemma_widest_column(widths: Seq<int>, minimums: Seq<int>)
    ensures
        widest_column(widths, minimums) matches Some(i) ==> 0 <= i < widths.len() && widths[i]
            > minimums[i],
        widest_column(widths, minimums) is None ==> forall|i: int|
            0 <= i < widths.len() ==> #[trigger] widths[i] <= minimums[i],
    decreases widths.len(),
{
    if widths.len() > 0 {
        let before = widths.drop_last();
        lemma_widest_column(before, minimums);
        if widest_column(widths, minimums) is None {
            assert forall|i: int| 0 <= i < widths.len() implies #[trigger] widths[i]
                <= minimums[i] by {
                if i < before.len() {
                    assert(before[i] <= minimums[i]);
                }
            }
        }
    }
}

pub proof fn lemma_total_update(widths: Seq<int>, i: int, width: int)
    requires
        0 <= i < widths.len(),
    ensures
        total(widths.update(i, width)) == total(widths) - widths[i] + width,
    decreases widths.len(),
{
    let updated = widths.update(i, width);
    if i == widths.len() - 1 {
        assert(updated.drop_last() =~= widths.drop_last());
    } else {
        assert(updated.drop_last() =~= widths.drop_last().update(i, width));
        lemma_total_update(widths.drop_last(), i, width);
    }
}

/// The widths after the widest columns have been made narrower until all fit.
pub open spec fn narrowed(widths: Seq<int>, minimums: Seq<int>, available: int) -> Seq<int>
    decreases total(widths) - available,
{
    if total(widths) > available {
        match widest_column(widths, minimums) {
            Some(i) => {
                proof {
                    lemma_widest_column(widths, minimums);
                    lemma_total_update(widths, i, widths[i] - 1);
                }
                narrowed(widths.update(i, widths[i] - 1), minimums, available)
            },
            None => widths,
        }
    } else {
        widths
    }
}

pub open spec fn natural_widths(rows: Seq<RowModel>, columns: int) -> Seq<int> {
    Seq::new(columns as nat, |i: int| natural_width(rows, i))
}

pub open spec fn minimum_widths(rows: Seq<RowModel>, columns: int) -> Seq<int> {
    Seq::new(columns as nat, |i: int| minimum_width(rows, i))
}

/// What borders and blanks leave for the columns.
pub open spec fn available_width(minimums: Seq<int>) -> int {
    greatest(greatest(MAX_TABLE_WIDTH - (3 * minimums.len() + 1), 0), total(minimums))
}

/// The widths of the columns of a table.
pub open spec fn column_widths(rows: Seq<RowModel>, columns: int) -> Seq<int> {
    narrowed(
        natural_widths(rows, columns),
        minimum_widths(rows, columns),
        available_width(minimum_widths(rows, columns)),
    )
}

/// The numbers of a sequence, as integers.
pub open spec fn as_ints(values: Seq<usize>) -> Seq<int> {
    Seq::new(values.len(), |i: int| values[i] as int)
}

fn widest_text(parts: &[Vec<char>]) -> (width: usize)
    ensures
        width == widest(texts(parts@)),
        width >= 1,
{
    let ghost all = texts(parts@);
    let mut width: usize = 1;
    let mut i: usize = 0;
    while i < parts.len()
        invariant
            i <= parts.len(),
            all == texts(parts@),
            width == widest(all.take(i as int)),
            width >= 1,
        decreases parts.len() - i,
    {
        assert(all.take(i + 1).drop_last() =~= all.take(i as int));
        assert(all.take(i + 1).last() == parts@[i as int]@);
        let text = string_of(&parts[i]);
        let own: usize = width_of_text(text.as_str());
        if own > width {
            width = own;
        }
        i += 1;
    }
    assert(all.take(i as int) =~= all);
    width
}

fn widest_cluster(parts: &[String]) -> (width: usize)
    ensures
        width == widest(string_texts(parts@)),
        width >= 1,
{
    let ghost all = string_texts(parts@);
    let mut width: usize = 1;
    let mut i: usize = 0;
    while i < parts.len()
        invariant
            i <= parts.len(),
            all == string_texts(parts@),
            width == widest(all.take(i as int)),
            width >= 1,
        decreases parts.len() - i,
    {
        assert(all.take(i + 1).drop_last() =~= all.take(i as int));
        assert(all.take(i + 1).last() == parts@[i as int]@);
        let own: usize = width_of_text(parts[i].as_str());
        if own > width {
            width = own;
        }
        i += 1;
    }
    assert(all.take(i as int) =~= all);
    width
}

/// Every row has as many cells as the table has columns.
pub open spec fn rectangular(rows: Seq<RowModel>, columns: int) -> bool {
    forall|i: int| 0 <= i < rows.len() ==> (#[trigger] rows[i]).cells.len() == columns
}

/// How wide a column would be, and how wide it is at least.
fn measure_column(rows: &[TableRow], column: usize, Ghost(columns): Ghost<int>) -> (widths: (
    usize,
    usize,
))
    requires
        rectangular(table_row_views(rows@), columns),
        column < columns,
    ensures
        widths.0 == natural_width(table_row_views(rows@), column as int),
        widths.1 == minimum_width(table_row_views(rows@), column as int),
{
    let ghost all = table_row_views(rows@);
    let mut natural: usize = 1;
    let mut minimum: usize = 1;
    let mut i: usize = 0;
    while i < rows.len()
        invariant
            i <= rows.len(),
            all == table_row_views(rows@),
            rectangular(all, columns),
            column < columns,
            natural == natural_width(all.take(i as int), column as int),
            minimum == minimum_width(all.take(i as int), column as int),
        decreases rows.len() - i,
    {
        assert(all.take(i + 1).drop_last() =~= all.take(i as int));
        assert(all.take(i + 1).last() == rows@[i as int]@);
        assert(all[i as int].cells.len() == columns);
        let cell = &rows[i].cells[column];
        assert(all[i as int].cells[column as int] == cell@);
        let lines = split_on(cell.text.characters(), '\n');
        let wide: usize = widest_text(&lines);
        if wide > natural {
            natural = wide;
        }
        let text = string_of(cell.text.characters());
        let clusters = graphemes_of(text.as_str());
        let narrow: usize = widest_cluster(&clusters);
        if narrow > minimum {
            minimum = narrow;
        }
        i += 1;
    }
    assert(all.take(i as int) =~= all);
    (natural, minimum)
}

fn find_widest_column(widths: &[usize], minimums: &[usize]) -> (found: Option<usize>)
    requires
        widths@.len() == minimums@.len(),
    ensures
        match found {
            Some(i) => widest_column(as_ints(widths@), as_ints(minimums@)) == Some(i as int),
            None => widest_column(as_ints(widths@), as_ints(minimums@)) is None,
        },
{
    let ghost all = as_ints(widths@);
    let ghost least_widths = as_ints(minimums@);
    let mut best: Option<usize> = None;
    let mut i: usize = 0;
    while i < widths.len()
        invariant
            i <= widths.len() == minimums.len(),
            all == as_ints(widths@),
            least_widths == as_ints(minimums@),
            match best {
                Some(b) => b < i && widest_column(all.take(i as int), least_widths) == Some(
                    b as int,
                ),
                None => widest_column(all.take(i as int), least_widths) is None,
            },
        decreases widths.len() - i,
    {
        let ghost more = all.take(i + 1);
        assert(more.drop_last() =~= all.take(i as int));
        assert(more[i as int] == widths@[i as int]);
        match best {
            Some(b) => {
                assert(more[b as int] == widths@[b as int]);
                if widths[i] > minimums[i] && widths[i] >= widths[b] {
                    best = Some(i);
                }
            },
            None => {
                if widths[i] > minimums[i] {
                    best = Some(i);
                }
            },
        }
        i += 1;
    }
    assert(all.take(i as int) =~= all);
    best
}

fn sum_of(values: &[usize]) -> (sum: u128)
    ensures
        sum == total(as_ints(values@)),
        sum <= values@.len() * usize::MAX,
{
    let ghost all = as_ints(values@);
    let mut sum: u128 = 0;
    let mut i: usize = 0;
    assert(0 * usize::MAX == 0);
    while i < values.len()
        invariant
            i <= values.len(),
            all == as_ints(values@),
            sum == total(all.take(i as int)),
            sum <= i * usize::MAX,
        decreases values.len() - i,
    {
        assert(all.take(i + 1).drop_last() =~= all.take(i as int));
        assert(all.take(i + 1).last() == values@[i as int]);
        assert(i * usize::MAX + usize::MAX == (i + 1) * usize::MAX) by (nonlinear_arith);
        assert(i * usize::MAX <= 0xffff_ffff_ffff_ffff * 0xffff_ffff_ffff_ffff) by (nonlinear_arith)
            requires
                i <= 0xffff_ffff_ffff_ffff,
        ;
        sum += values[i] as u128;
        i += 1;
    }
    assert(all.take(i as int) =~= all);
    sum
}

/// The widths of the columns of a table.
fn table_column_widths(rows: &[TableRow], columns: usize) -> (widths: Vec<usize>)
    requires
        rectangular(table_row_views(rows@), columns as int),
    ensures
        as_ints(widths@) == column_widths(table_row_views(rows@), columns as int),
{
    let ghost all = table_row_views(rows@);
    let mut widths: Vec<usize> = Vec::new();
    let mut minimums: Vec<usize> = Vec::new();
    let mut i: usize = 0;
    while i < columns
        invariant
            i <= columns,
            all == table_row_views(rows@),
            rectangular(all, columns as int),
            as_ints(widths@) == natural_widths(all, columns as int).take(i as int),
            as_ints(minimums@) == minimum_widths(all, columns as int).take(i as int),
        decreases columns - i,
    {
        let (natural, minimum) = measure_column(rows, i, Ghost(columns as int));
        let ghost before = widths@;
        let ghost before_minimums = minimums@;
        widths.push(natural);
        minimums.push(minimum);
        assert(as_ints(widths@) =~= as_ints(before).push(natural as int));
        assert(as_ints(minimums@) =~= as_ints(before_minimums).push(minimum as int));
        assert(natural_widths(all, columns as int).take(i + 1) =~= natural_widths(
            all,
            columns as int,
        ).take(i as int).push(natural as int));
        assert(minimum_widths(all, columns as int).take(i + 1) =~= minimum_widths(
            all,
            columns as int,
        ).take(i as int).push(minimum as int));
        i += 1;
    }
    let ghost goal = column_widths(all, columns as int);
    let ghost least_widths = minimum_widths(all, columns as int);
    assert(natural_widths(all, columns as int).take(i as int) =~= natural_widths(
        all,
        columns as int,
    ));
    assert(least_widths.take(i as int) =~= least_widths);
    assert(as_ints(minimums@).len() == columns);
    let overhead: u128 = 3 * (columns as u128) + 1;
    let left: u128 = if overhead < MAX_TABLE_WIDTH as u128 {
        MAX_TABLE_WIDTH as u128 - overhead
    } else {
        0
    };
    let needed: u128 = sum_of(&minimums);
    let available: u128 = if left >= needed {
        left
    } else {
        needed
    };
    let mut sum: u128 = sum_of(&widths);
    assert(as_ints(widths@).len() == columns);
    assert(available == available_width(least_widths));
    loop
        invariant
            sum == total(as_ints(widths@)),
            widths@.len() == columns,
            minimums@.len() == columns,
            as_ints(minimums@) == least_widths,
            available == available_width(least_widths),
            goal == narrowed(as_ints(widths@), least_widths, available as int),
        ensures
            as_ints(widths@) == goal,
        decreases sum,
    {
        if sum <= available {
            break;
        }
        match find_widest_column(&widths, &minimums) {
            Some(index) => {
                let ghost before = as_ints(widths@);
                proof {
                    lemma_widest_column(before, least_widths);
                    lemma_total_update(before, index as int, before[index as int] - 1);
                    assert(least_widths[index as int] == minimums@[index as int]);
                }
                let width: usize = widths[index];
                widths.set(index, width - 1);
                sum -= 1;
                assert(as_ints(widths@) =~= before.update(index as int, width - 1));
            },
            None => {
                break;
            },
        }
    }
    widths
}

proof fn lemma_total_at_most(widths: Seq<int>, minimums: Seq<int>)
    requires
        widths.len() == minimums.len(),
        forall|i: int| 0 <= i < widths.len() ==> #[trigger] widths[i] <= minimums[i],
    ensures
        total(widths) <= total(minimums),
    decreases widths.len(),
{
    if widths.len() > 0 {
        assert(widths[widths.len() - 1] <= minimums[widths.len() - 1]);
        assert forall|i: int| 0 <= i < widths.drop_last().len() implies #[trigger]
            widths.drop_last()[i] <= minimums.drop_last()[i] by {
            assert(widths[i] <= minimums[i]);
        }
        lemma_total_at_most(widths.drop_last(), minimums.drop_last());
    }
}

proof fn lemma_narrowed(widths: Seq<int>, minimums: Seq<int>, available: int)
    requires
        widths.len() == minimums.len(),
        total(minimums) <= available,
    ensures
        narrowed(widths, minimums, available).len() == widths.len(),
        total(narrowed(widths, minimums, available)) <= available,
        forall|i: int|
            0 <= i < widths.len() ==> least(widths[i], minimums[i]) <= #[trigger] narrowed(
                widths,
                minimums,
                available,
            )[i] <= widths[i],
    decreases total(widths) - available,
{
    if total(widths) > available {
        lemma_widest_column(widths, minimums);
        match widest_column(widths, minimums) {
            Some(i) => {
                let less = widths.update(i, widths[i] - 1);
                lemma_total_update(widths, i, widths[i] - 1);
                lemma_narrowed(less, minimums, available);
                let result = narrowed(less, minimums, available);
                assert forall|j: int| 0 <= j < widths.len() implies least(widths[j], minimums[j])
                    <= #[trigger] result[j] <= widths[j] by {
                    assert(least(less[j], minimums[j]) <= result[j] <= less[j]);
                }
            },
            None => {
                lemma_total_at_most(widths, minimums);
            },
        }
    }
}

/// A table is no wider than the greatest width, unless its widest clusters alone are wider;
/// no column is wider than its text needs, and none is made too narrow for its widest cluster.
pub proof fn law_columns_fit(rows: Seq<RowModel>, columns: int)
    requires
        columns >= 0,
    ensures
        column_widths(rows, columns).len() == columns,
        total(column_widths(rows, columns)) + 3 * columns + 1 <= greatest(
            MAX_TABLE_WIDTH as int,
            total(minimum_widths(rows, columns)) + 3 * columns + 1,
        ),
        forall|i: int|
            0 <= i < columns ==> least(natural_width(rows, i), minimum_width(rows, i))
                <= #[trigger] column_widths(rows, columns)[i] <= natural_width(rows, i),
{
    let widths = natural_widths(rows, columns);
    let minimums = minimum_widths(rows, columns);
    let available = available_width(minimums);
    lemma_narrowed(widths, minimums, available);
    lemma_total_not_negative(rows, columns);
    assert forall|i: int| 0 <= i < columns implies least(
        natural_width(rows, i),
        minimum_width(rows, i),
    ) <= #[trigger] column_widths(rows, columns)[i] <= natural_width(rows, i) by {
        assert(least(widths[i], minimums[i]) <= narrowed(widths, minimums, available)[i]);
    }
}

proof fn lemma_minimum_positive(rows: Seq<RowModel>, column: int)
    ensures
        minimum_width(rows, column) >= 1,
    decreases rows.len(),
{
    if rows.len() > 0 {
        lemma_minimum_positive(rows.drop_last(), column);
    }
}

proof fn lemma_total_not_negative(rows: Seq<RowModel>, columns: int)
    requires
        columns >= 0,
    ensures
        total(minimum_widths(rows, columns)) >= columns,
    decreases columns,
{
    if columns > 0 {
        lemma_minimum_positive(rows, columns - 1);
        assert(minimum_widths(rows, columns).drop_last() =~= minimum_widths(rows, columns - 1));
        lemma_total_not_negative(rows, columns - 1);
    }
}

// ---------------------------------------------------------------------------------------
// Drawing
// ---------------------------------------------------------------------------------------

/// The first `n` columns of a border.
pub open spec fn add_border_columns(
    t: Styled,
    middle: char,
    right: char,
    fill: char,
    widths: Seq<int>,
    n: int,
) -> Styled
    decreases n,
{
    if n <= 0 {
        t
    } else {
        let before = add_border_columns(t, middle, right, fill, widths, n - 1);
        let line = add_text(before, repeated(seq![fill], saturated(widths[n - 1] + 2) as nat));
        add_char(
            line,
            if n == widths.len() {
                right
            } else {
                middle
            },
        )
    }
}

/// A line of a border.
pub open spec fn add_border(
    t: Styled,
    left: char,
    middle: char,
    right: char,
    fill: char,
    widths: Seq<int>,
) -> Styled {
    let columns = widths.len() as int;
    add_newlines(add_border_columns(add_char(t, left), middle, right, fill, widths, columns), 1)
}

/// The rows of a cell: a line feed at the end of its text starts no row.
pub open spec fn cell_rows(s: Seq<char>, width: int) -> Seq<(int, int)> {
    let all = rows(s, greatest(width, 1));
    if s.len() > 0 && s.last() == '\n' {
        all.drop_last()
    } else {
        all
    }
}

/// The characters of a cell in one line of the table.
pub open spec fn cell_row(s: Seq<char>, width: int, line: int) -> (int, int) {
    if line < cell_rows(s, width).len() {
        cell_rows(s, width)[line]
    } else {
        (0, 0)
    }
}

/// The numbers of blanks before and after a text.
pub open spec fn padding(align: ColumnAlign, available: int) -> (int, int) {
    match align {
        ColumnAlign::Right => (available, 0),
        ColumnAlign::Center => (available / 2, available - available / 2),
        _ => (0, available),
    }
}

/// The styles of a text as far as they lie in the bytes from `start` to `end`, when these
/// bytes stand at the byte `target`.
pub open spec fn moved_styles(
    styles: Seq<StyleModel>,
    start: int,
    end: int,
    target: int,
) -> Seq<StyleModel>
    decreases styles.len(),
{
    if styles.len() == 0 {
        seq![]
    } else {
        let before = moved_styles(styles.drop_last(), start, end, target);
        let last = styles.last();
        let from = greatest(start, last.start);
        let to = least(end, last.end);
        if from < to {
            before.push(
                StyleModel {
                    start: target + from - start,
                    end: target + to - start,
                    kind: last.kind,
                },
            )
        } else {
            before
        }
    }
}

/// One line of a cell.
pub open spec fn add_cell_line(
    t: Styled,
    cell: Styled,
    line: int,
    width: int,
    align: ColumnAlign,
    header: bool,
    last: bool,
) -> Styled {
    let s = cell.text;
    let row = cell_row(s, width, line);
    let value = s.subrange(row.0, row.1);
    let (left, right) = padding(align, greatest(width - display_width(value), 0));
    let placed = add_text(t, repeated(" "@, left as nat));
    let at = byte_len(placed.text) as int;
    let written = add_text(placed, value);
    let strong = if header && value.len() > 0 {
        written.styles.push(
            StyleModel { start: at, end: at + byte_len(value), kind: TextStyleKind::Strong },
        )
    } else {
        written.styles
    };
    let own = moved_styles(
        cell.styles,
        offset_at(s, row.0) as int,
        offset_at(s, row.1) as int,
        at,
    );
    add_text(
        add_text(Styled { styles: strong + own, ..written }, repeated(" "@, right as nat)),
        if last {
            " │"@
        } else {
            " │ "@
        },
    )
}

pub open spec fn align_at(alignments: Seq<ColumnAlign>, column: int) -> ColumnAlign {
    if column < alignments.len() {
        alignments[column]
    } else {
        ColumnAlign::Unset
    }
}

/// One line of the first `n` cells of a row.
pub open spec fn add_row_cells(
    t: Styled,
    row: RowModel,
    widths: Seq<int>,
    alignments: Seq<ColumnAlign>,
    line: int,
    n: int,
) -> Styled
    decreases n,
{
    if n <= 0 {
        t
    } else {
        add_cell_line(
            add_row_cells(t, row, widths, alignments, line, n - 1),
            row.cells[n - 1],
            line,
            widths[n - 1],
            align_at(alignments, n - 1),
            row.header,
            n == widths.len(),
        )
    }
}

/// The first `n` lines of a row.
pub open spec fn add_row_lines(
    t: Styled,
    row: RowModel,
    widths: Seq<int>,
    alignments: Seq<ColumnAlign>,
    n: int,
) -> Styled
    decreases n,
{
    if n <= 0 {
        t
    } else {
        let before = add_row_lines(t, row, widths, alignments, n - 1);
        let begun = add_text(before, "│ "@);
        let columns = widths.len() as int;
        add_newlines(add_row_cells(begun, row, widths, alignments, n - 1, columns), 1)
    }
}

/// The number of lines of the first `n` cells of a row.
pub open spec fn row_height(row: RowModel, widths: Seq<int>, n: int) -> int
    decreases n,
{
    if n <= 0 {
        1
    } else {
        greatest(
            row_height(row, widths, n - 1),
            cell_rows(row.cells[n - 1].text, widths[n - 1]).len() as int,
        )
    }
}

pub open spec fn add_row(
    t: Styled,
    row: RowModel,
    widths: Seq<int>,
    alignments: Seq<ColumnAlign>,
) -> Styled {
    add_row_lines(t, row, widths, alignments, row_height(row, widths, widths.len() as int))
}

/// The first `n` rows with the borders between them.
pub open spec fn add_rows(
    t: Styled,
    rows: Seq<RowModel>,
    widths: Seq<int>,
    alignments: Seq<ColumnAlign>,
    n: int,
) -> Styled
    decreases n,
{
    if n <= 0 {
        t
    } else {
        let drawn = add_row(
            add_rows(t, rows, widths, alignments, n - 1),
            rows[n - 1],
            widths,
            alignments,
        );
        if n == rows.len() {
            drawn
        } else if rows[n - 1].header {
            add_border(drawn, '╞', '╪', '╡', '═', widths)
        } else {
            add_border(drawn, '├', '┼', '┤', '─', widths)
        }
    }
}

/// The number of cells of the longest row, or `columns`.
pub open spec fn longest_row(rows: Seq<RowModel>, columns: int) -> int
    decreases rows.len(),
{
    if rows.len() == 0 {
        columns
    } else {
        greatest(longest_row(rows.drop_last(), columns), rows.last().cells.len() as int)
    }
}

/// A row with empty cells where it has too few.
pub open spec fn filled_row(row: RowModel, columns: int) -> RowModel {
    RowModel {
        cells: Seq::new(
            columns as nat,
            |i: int|
                if i < row.cells.len() {
                    row.cells[i]
                } else {
                    no_text()
                },
        ),
        header: row.header,
    }
}

/// The text with the table drawn at its end.
pub open spec fn add_table(t: Styled, table: TableModel) -> Styled {
    let all = row_closed(table).rows;
    let columns = longest_row(all, table.alignments.len() as int);
    if columns == 0 {
        t
    } else {
        let full = Seq::new(all.len(), |i: int| filled_row(all[i], columns));
        let widths = column_widths(full, columns);
        let top = add_border(t, '┌', '┬', '┐', '─', widths);
        add_border(
            add_rows(top, full, widths, table.alignments, full.len() as int),
            '└',
            '┴',
            '┘',
            '─',
            widths,
        )
    }
}

fn push_table_border(
    sink: &mut StyledText,
    left: char,
    middle: char,
    right: char,
    fill: char,
    widths: &[usize],
)
    ensures
        final(sink)@ == add_border(old(sink)@, left, middle, right, fill, as_ints(widths@)),
{
    let ghost all = as_ints(widths@);
    sink.push_char(left);
    let ghost start = sink@;
    let mut one: Vec<char> = Vec::new();
    one.push(fill);
    assert(one@ =~= seq![fill]);
    let mut i: usize = 0;
    while i < widths.len()
        invariant
            i <= widths.len(),
            all == as_ints(widths@),
            one@ == seq![fill],
            sink@ == add_border_columns(start, middle, right, fill, all, i as int),
        decreases widths.len() - i,
    {
        let count: usize = widths[i].saturating_add(2);
        assert(count == saturated(all[i as int] + 2));
        let line = repeat_chars(&one, count);
        sink.push_text(&line);
        if i == widths.len() - 1 {
            sink.push_char(right);
        } else {
            sink.push_char(middle);
        }
        i += 1;
    }
    sink.ensure_newlines(1);
}

/// The rows of a cell.
fn wrap_cell(text: &str, width: usize) -> (lines: Vec<VisualLine>)
    ensures
        line_views(lines@) == row_views(text@, cell_rows(text@, width as int)),
{
    let ghost s = text@;
    let mut lines = Viewport::all_rows(text, width);
    let ghost all = rows(s, greatest(width as int, 1));
    let ghost before = lines@;
    let characters = chars_of(text);
    let length: usize = characters.len();
    if length > 0 && characters[length - 1] == '\n' {
        proof {
            lemma_all_rows(s, greatest(width as int, 1));
            assert(line_views(before).len() == all.len());
        }
        let count: usize = lines.len();
        lines.truncate(count - 1);
        assert(lines@ =~= before.drop_last());
        assert(line_views(lines@) =~= line_views(before).drop_last());
        assert(row_views(s, all.drop_last()) =~= row_views(s, all).drop_last());
    }
    lines
}

fn push_blanks(sink: &mut StyledText, count: usize)
    ensures
        final(sink)@ == add_text(old(sink)@, repeated(" "@, count as nat)),
{
    let blank = chars_of(" ");
    let blanks = repeat_chars(&blank, count);
    sink.push_text(&blanks);
}

fn alignment_padding(align: ColumnAlign, available: usize) -> (blanks: (usize, usize))
    ensures
        (blanks.0 as int, blanks.1 as int) == padding(align, available as int),
{
    match align {
        ColumnAlign::Right => (available, 0),
        ColumnAlign::Center => (available / 2, available - available / 2),
        _ => (0, available),
    }
}

fn push_moved_styles(
    sink: &mut StyledText,
    styles: &[StyleSpan],
    start: u128,
    end: u128,
    target: u128,
)
    requires
        end <= usize::MAX,
        target <= 4 * usize::MAX,
    ensures
        final(sink)@ == (Styled {
            styles: old(sink)@.styles + moved_styles(
                span_views(styles@),
                start as int,
                end as int,
                target as int,
            ),
            ..old(sink)@
        }),
{
    let ghost all = span_views(styles@);
    let ghost begun = sink@;
    let mut i: usize = 0;
    assert(begun.styles + moved_styles(all.take(0), start as int, end as int, target as int)
        =~= begun.styles);
    while i < styles.len()
        invariant
            i <= styles.len(),
            end <= usize::MAX,
            target <= 4 * usize::MAX,
            all == span_views(styles@),
            sink@ == (Styled {
                styles: begun.styles + moved_styles(
                    all.take(i as int),
                    start as int,
                    end as int,
                    target as int,
                ),
                ..begun
            }),
        decreases styles.len() - i,
    {
        let own = &styles[i];
        assert(all.take(i + 1).drop_last() =~= all.take(i as int));
        assert(all.take(i + 1).last() == own@);
        let from: u128 = if own.start > start {
            own.start
        } else {
            start
        };
        let to: u128 = if own.end < end {
            own.end
        } else {
            end
        };
        let ghost before = moved_styles(
            all.take(i as int),
            start as int,
            end as int,
            target as int,
        );
        if from < to {
            sink.push_style(target + (from - start), target + (to - start), own.kind);
            assert(begun.styles + before.push(
                StyleModel {
                    start: target + from - start,
                    end: target + to - start,
                    kind: own.kind,
                },
            ) =~= (begun.styles + before).push(
                StyleModel {
                    start: target + from - start,
                    end: target + to - start,
                    kind: own.kind,
                },
            ));
        }
        i += 1;
    }
    assert(all.take(i as int) =~= all);
}

fn push_cell_line(
    sink: &mut StyledText,
    cell: &StyledText,
    text: &str,
    wrapped: &[VisualLine],
    line: usize,
    width: usize,
    align: ColumnAlign,
    header: bool,
    last: bool,
)
    requires
        text@ == cell@.text,
        line_views(wrapped@) == row_views(text@, cell_rows(text@, width as int)),
    ensures
        final(sink)@ == add_cell_line(
            old(sink)@,
            cell@,
            line as int,
            width as int,
            align,
            header,
            last,
        ),
{
    let ghost s = text@;
    let ghost row = cell_row(s, width as int, line as int);
    proof {
        lemma_all_rows(s, greatest(width as int, 1));
        assert(line_views(wrapped@).len() == wrapped@.len());
        assert(0 <= row.0 <= row.1 <= s.len());
        lemma_index_of_offset(s, row.0);
        lemma_index_of_offset(s, row.1);
        lemma_offset_monotone(s, row.0, row.1);
        lemma_index_of_offset(s, 0);
        assert(s.take(0) =~= seq![]);
    }
    let mut start: usize = 0;
    let mut end: usize = 0;
    if line < wrapped.len() {
        assert(line_views(wrapped@)[line as int] == row_view(s, row));
        let range = wrapped[line].range();
        start = range.start;
        end = range.end;
    }
    assert(start == offset_at(s, row.0) && end == offset_at(s, row.1));
    let value = slice(text, start, end);
    assert(value@ == s.subrange(row.0, row.1));
    let used: usize = width_of_text(value);
    let available: usize = if used < width {
        width - used
    } else {
        0
    };
    let (left, right) = alignment_padding(align, available);
    push_blanks(sink, left);
    let target: u128 = sink.text.bytes();
    sink.push_literal(value);
    let ghost written = sink@;
    if header && end > start {
        sink.push_style(target, target + (end - start) as u128, TextStyleKind::Strong);
    }
    proof {
        if end == start {
            if value@.len() > 0 {
                crate::text::lemma_byte_len_at_least_len(value@);
            }
        } else {
            assert(value@.len() > 0) by {
                if value@.len() == 0 {
                    assert(byte_len(value@) == 0);
                }
            }
        }
    }
    push_moved_styles(sink, &cell.styles, start as u128, end as u128, target);
    push_blanks(sink, right);
    if last {
        sink.push_literal(" │");
    } else {
        sink.push_literal(" │ ");
    }
}

/// The cells of a row with their rows.
spec fn wrapped_cells(
    cells: Seq<StyledText>,
    texts: Seq<String>,
    wrapped: Seq<Vec<VisualLine>>,
    widths: Seq<usize>,
) -> bool {
    &&& texts.len() == wrapped.len()
    &&& forall|i: int|
        0 <= i < texts.len() ==> (#[trigger] texts[i])@ == cells[i]@.text && line_views(
            wrapped[i]@,
        ) == row_views(texts[i]@, cell_rows(texts[i]@, widths[i] as int))
}

fn push_table_row(
    sink: &mut StyledText,
    row: &TableRow,
    widths: &[usize],
    alignments: &[ColumnAlign],
)
    requires
        row.cells@.len() == widths@.len(),
    ensures
        final(sink)@ == add_row(old(sink)@, row@, as_ints(widths@), alignments@),
{
    let ghost columns = as_ints(widths@);
    let ghost model = row@;
    let mut contents: Vec<String> = Vec::new();
    let mut wrapped: Vec<Vec<VisualLine>> = Vec::new();
    let mut height: usize = 1;
    let mut i: usize = 0;
    while i < widths.len()
        invariant
            i <= widths@.len() == row.cells@.len(),
            columns == as_ints(widths@),
            model == row@,
            contents@.len() == i,
            wrapped_cells(row.cells@, contents@, wrapped@, widths@),
            height == row_height(model, columns, i as int),
        decreases widths.len() - i,
    {
        let text = string_of(row.cells[i].text.characters());
        let lines = wrap_cell(text.as_str(), widths[i]);
        assert(model.cells[i as int] == row.cells@[i as int]@);
        assert(line_views(lines@).len() == lines@.len());
        if lines.len() > height {
            height = lines.len();
        }
        contents.push(text);
        wrapped.push(lines);
        i += 1;
    }
    let mut line: usize = 0;
    while line < height
        invariant
            line <= height,
            widths@.len() == row.cells@.len() == contents@.len(),
            columns == as_ints(widths@),
            model == row@,
            wrapped_cells(row.cells@, contents@, wrapped@, widths@),
            sink@ == add_row_lines(old(sink)@, model, columns, alignments@, line as int),
        decreases height - line,
    {
        sink.push_literal("│ ");
        let ghost begun = sink@;
        let mut column: usize = 0;
        while column < widths.len()
            invariant
                column <= widths@.len() == row.cells@.len() == contents@.len(),
                columns == as_ints(widths@),
                model == row@,
                wrapped_cells(row.cells@, contents@, wrapped@, widths@),
                sink@ == add_row_cells(
                    begun,
                    model,
                    columns,
                    alignments@,
                    line as int,
                    column as int,
                ),
            decreases widths.len() - column,
        {
            let align = if column < alignments.len() {
                alignments[column]
            } else {
                ColumnAlign::Unset
            };
            assert(model.cells[column as int] == row.cells@[column as int]@);
            assert(contents@[column as int]@ == row.cells@[column as int]@.text);
            push_cell_line(
                sink,
                &row.cells[column],
                contents[column].as_str(),
                &wrapped[column],
                line,
                widths[column],
                align,
                row.header,
                column == widths.len() - 1,
            );
            column += 1;
        }
        sink.ensure_newlines(1);
        line += 1;
    }
}

/// Adds empty cells to a row that has too few.
fn fill_row(row: &mut TableRow, columns: usize)
    requires
        old(row).cells@.len() <= columns,
    ensures
        final(row)@ == filled_row(old(row)@, columns as int),
{
    let ghost first = cell_views(row.cells@);
    while row.cells.len() < columns
        invariant
            first.len() <= row.cells@.len() <= columns,
            first == cell_views(old(row).cells@),
            row.header == old(row).header,
            cell_views(row.cells@) =~= Seq::new(
                row.cells@.len(),
                |k: int|
                    if k < first.len() {
                        first[k]
                    } else {
                        no_text()
                    },
            ),
        decreases columns - row.cells.len(),
    {
        let ghost before = row.cells@;
        row.cells.push(StyledText::new());
        assert(cell_views(row.cells@) =~= cell_views(before).push(no_text()));
    }
    assert(row@ =~= filled_row(old(row)@, columns as int));
}

impl TableBuilder {
    /// The number of columns.
    fn count_columns(&self) -> (columns: usize)
        ensures
            columns == longest_row(self@.rows, self@.alignments.len() as int),
            forall|i: int|
                0 <= i < self@.rows.len() ==> (#[trigger] self@.rows[i]).cells.len() <= columns,
    {
        let ghost all = table_row_views(self.rows@);
        let mut columns: usize = self.alignments.len();
        let mut i: usize = 0;
        while i < self.rows.len()
            invariant
                i <= self.rows.len(),
                all == table_row_views(self.rows@),
                columns == longest_row(all.take(i as int), self.alignments@.len() as int),
                forall|j: int| 0 <= j < i ==> (#[trigger] all[j]).cells.len() <= columns,
            decreases self.rows.len() - i,
        {
            assert(all.take(i + 1).drop_last() =~= all.take(i as int));
            assert(all.take(i + 1).last() == self.rows@[i as int]@);
            let count: usize = self.rows[i].cells.len();
            if count > columns {
                columns = count;
            }
            i += 1;
        }
        assert(all.take(i as int) =~= all);
        columns
    }

    /// Draws the table.
    pub fn render_into(self, sink: &mut StyledText)
        ensures
            final(sink)@ == add_table(old(sink)@, self@),
    {
        let mut table = self;
        table.finish_row();
        let ghost all = table@.rows;
        let columns: usize = table.count_columns();
        if columns == 0 {
            return;
        }
        let ghost full = Seq::new(all.len(), |i: int| filled_row(all[i], columns as int));
        let TableBuilder { alignments, rows: collected, .. } = table;
        let mut rows = collected;
        let mut i: usize = 0;
        assert(full.take(0) + all.skip(0) =~= all);
        while i < rows.len()
            invariant
                i <= rows.len() == all.len(),
                full == Seq::new(all.len(), |i: int| filled_row(all[i], columns as int)),
                forall|j: int| 0 <= j < all.len() ==> (#[trigger] all[j]).cells.len() <= columns,
                table_row_views(rows@) == full.take(i as int) + all.skip(i as int),
            decreases rows.len() - i,
        {
            let ghost before = table_row_views(rows@);
            let ghost first = all[i as int];
            assert(before[i as int] == first);
            fill_row(&mut rows[i], columns);
            assert(table_row_views(rows@) =~= before.update(i as int, full[i as int]));
            assert(full.take(i + 1) + all.skip(i + 1) =~= before.update(i as int, full[i as int]));
            i += 1;
        }
        assert(full.take(i as int) + all.skip(i as int) =~= full);
        assert forall|j: int| 0 <= j < full.len() implies (#[trigger] full[j]).cells.len()
            == columns by {
            assert(filled_row(all[j], columns as int).cells.len() == columns);
        }
        let widths = table_column_widths(&rows, columns);
        let ghost spans = as_ints(widths@);
        assert(spans.len() == columns) by {
            law_columns_fit(full, columns as int);
        }
        push_table_border(sink, '┌', '┬', '┐', '─', &widths);
        let ghost top = sink@;
        let mut i: usize = 0;
        while i < rows.len()
            invariant
                i <= rows.len(),
                full == table_row_views(rows@),
                rectangular(full, columns as int),
                spans == as_ints(widths@),
                spans.len() == columns,
                sink@ == add_rows(top, full, spans, alignments@, i as int),
            decreases rows.len() - i,
        {
            assert(full[i as int] == rows@[i as int]@);
            assert(full[i as int].cells.len() == columns);
            push_table_row(sink, &rows[i], &widths, &alignments);
            if i < rows.len() - 1 {
                if rows[i].header {
                    push_table_border(sink, '╞', '╪', '╡', '═', &widths);
                } else {
                    push_table_border(sink, '├', '┼', '┤', '─', &widths);
                }
            }
            i += 1;
        }
        push_table_border(sink, '└', '┴', '┘', '─', &widths);
    }
}

} // verus!
