//! How the cells of a table are filled and drawn.
use vstd::prelude::*;

use crate::document::events::{ColumnAlign, EventModel, TagKind};
use crate::document::markdown_laws::{is_shown_word, lemma_add_text};
use crate::document::styled_text::Styled;
use crate::document::table::{add_cell_line, cell_row, table_step, RowModel, TableModel};
use crate::document::{StyleModel, TextStyleKind};
use crate::strings::{is_control_char, repeated};
use crate::text::{byte_len, lemma_byte_len_concat};
use crate::unicode::display_width;

verus! {

/// The text of a cell is kept, as the next cell of its row.
pub proof fn law_cells_are_kept(table: TableModel, row: RowModel, w: Seq<char>)
    requires
        table.row == Some(row),
        is_shown_word(w),
    ensures
        ({
            let one = table_step(table, EventModel::Start(TagKind::TableCell));
            let two = table_step(one, EventModel::Text(w));
            let end = table_step(two, EventModel::End(TagKind::TableCell));
            &&& end.row matches Some(after) && after.header == row.header && after.cells.len()
                == row.cells.len() + 1 && after.cells.drop_last() == row.cells
                && after.cells.last().text == w
            &&& end.rows == table.rows && end.cell is None
        }),
{
    let one = table_step(table, EventModel::Start(TagKind::TableCell));
    lemma_add_text(one.cell->0, w);
    let two = table_step(one, EventModel::Text(w));
    let end = table_step(two, EventModel::End(TagKind::TableCell));
    assert(two.cell->0.text =~= w);
    assert(end.row->0.cells.drop_last() =~= row.cells);
}

/// The rows of the head of a table are headers, and those after it are not; a row is kept once
/// it ends.
pub proof fn law_rows_are_kept(table: TableModel, row: RowModel)
    requires
        table.row == Some(row),
    ensures
        ({
            let head = table_step(table, EventModel::Start(TagKind::TableHead));
            let below = table_step(
                table_step(table, EventModel::End(TagKind::TableHead)),
                EventModel::Start(TagKind::TableRow),
            );
            let end = table_step(table, EventModel::End(TagKind::TableRow));
            &&& head.row matches Some(begun) && begun.header && begun.cells.len() == 0
            &&& below.row matches Some(begun) && !begun.header && begun.cells.len() == 0
            &&& below.rows == table.rows.push(row)
            &&& end.rows == table.rows.push(row) && end.row is None
        }),
{
}

proof fn lemma_single_blanks(n: nat)
    ensures
        repeated(" "@, n).len() == n,
        forall|i: int| 0 <= i < n ==> #[trigger] repeated(" "@, n)[i] == ' ',
        forall|i: int| 0 <= i < n ==> !is_control_char(#[trigger] repeated(" "@, n)[i]),
    decreases n,
{
    reveal_strlit(" ");
    if n > 0 {
        lemma_single_blanks((n - 1) as nat);
        let less = repeated(" "@, (n - 1) as nat);
        assert forall|i: int| 0 <= i < n implies #[trigger] repeated(" "@, n)[i] == ' ' by {
            if i < less.len() {
                assert(repeated(" "@, n)[i] == less[i]);
            }
        }
    }
}

/// What is written between the blanks of a cell.
proof fn lemma_cell_line(
    t: Styled,
    cell: Styled,
    width: int,
    align: ColumnAlign,
    header: bool,
    last: bool,
    left: nat,
    right: nat,
)
    requires
        t.image is None,
        is_shown_word(cell.text),
        cell_row(cell.text, width, 0) == (0int, cell.text.len() as int),
        crate::document::table::padding(
            align,
            crate::text::greatest(width - display_width(cell.text), 0),
        ) == (left as int, right as int),
    ensures
        ({
            let line = add_cell_line(t, cell, 0, width, align, header, last);
            let at = byte_len(t.text) + left;
            &&& line.text == t.text + repeated(" "@, left) + cell.text + repeated(" "@, right) + (
            if last {
                " │"@
            } else {
                " │ "@
            })
            &&& header ==> line.styles.len() > t.styles.len() && line.styles[t.styles.len() as int]
                == (StyleModel {
                start: at as int,
                end: (at + byte_len(cell.text)) as int,
                kind: TextStyleKind::Strong,
            })
        }),
{
    let w = cell.text;
    reveal_strlit(" │");
    reveal_strlit(" │ ");
    lemma_single_blanks(left);
    lemma_single_blanks(right);
    assert(w.subrange(0, w.len() as int) =~= w);
    lemma_add_text(t, repeated(" "@, left));
    lemma_byte_len_concat(t.text, repeated(" "@, left));
    lemma_blank_bytes(left);
    let placed = Styled { text: t.text + repeated(" "@, left), ..t };
    lemma_add_text(placed, w);
    let line = add_cell_line(t, cell, 0, width, align, header, last);
    let at = byte_len(placed.text) as int;
    let strong = if header {
        t.styles.push(
            StyleModel { start: at, end: at + byte_len(w), kind: TextStyleKind::Strong },
        )
    } else {
        t.styles
    };
    let own = crate::document::table::moved_styles(
        cell.styles,
        crate::text::offset_at(w, 0) as int,
        crate::text::offset_at(w, w.len() as int) as int,
        at,
    );
    let written = Styled { text: placed.text + w, styles: strong + own, ..t };
    lemma_add_text(written, repeated(" "@, right));
    let padded = Styled { text: written.text + repeated(" "@, right), ..written };
    lemma_add_text(padded, " │"@);
    lemma_add_text(padded, " │ "@);
}

proof fn lemma_blank_bytes(n: nat)
    ensures
        byte_len(repeated(" "@, n)) == n,
    decreases n,
{
    reveal_strlit(" ");
    if n > 0 {
        lemma_blank_bytes((n - 1) as nat);
        lemma_byte_len_concat(repeated(" "@, (n - 1) as nat), " "@);
        assert(" "@.drop_last() =~= seq![]);
        reveal_with_fuel(byte_len, 2);
    }
}

/// The text of a cell that fits in one line is written with as many blanks as its column is
/// wider: after it, or before it where it stands at the right, or on both sides where it stands
/// in the middle, one more after it than before it at most. A header is strong.
pub proof fn law_cells_are_aligned(
    t: Styled,
    cell: Styled,
    width: int,
    align: ColumnAlign,
    header: bool,
    last: bool,
) -> (blanks: (nat, nat))
    requires
        t.image is None,
        is_shown_word(cell.text),
        cell_row(cell.text, width, 0) == (0int, cell.text.len() as int),
        display_width(cell.text) <= width,
    ensures
        blanks.0 + blanks.1 == width - display_width(cell.text),
        align == ColumnAlign::Right ==> blanks.1 == 0,
        align == ColumnAlign::Center ==> blanks.0 <= blanks.1 <= blanks.0 + 1,
        align != ColumnAlign::Right && align != ColumnAlign::Center ==> blanks.0 == 0,
        ({
            let line = add_cell_line(t, cell, 0, width, align, header, last);
            let at = byte_len(t.text) + blanks.0;
            &&& line.text == t.text + repeated(" "@, blanks.0) + cell.text + repeated(
                " "@,
                blanks.1,
            ) + (if last {
                " │"@
            } else {
                " │ "@
            })
            &&& header ==> line.styles.len() > t.styles.len() && line.styles[t.styles.len() as int]
                == (StyleModel {
                start: at as int,
                end: (at + byte_len(cell.text)) as int,
                kind: TextStyleKind::Strong,
            })
        }),
{
    let (left, right) = crate::document::table::padding(
        align,
        crate::text::greatest(width - display_width(cell.text), 0),
    );
    lemma_cell_line(t, cell, width, align, header, last, left as nat, right as nat);
    (left as nat, right as nat)
}

} // verus!
