//! How a text is laid out in rows of a given width.
//!
//! A text is cut into hard lines at its line feeds, and every hard line into rows of whole
//! grapheme clusters. A row is given by the indices of its first character and of the one
//! after its last.
use vstd::prelude::*;

use crate::unicode::{concatenated, display_width, grapheme_clusters};

verus! {

// ---------------------------------------------------------------------------------------
// Hard lines
// ---------------------------------------------------------------------------------------

/// The indices at which the hard lines of `s` start: 0, and after every line feed.
pub open spec fn hard_starts(s: Seq<char>) -> Seq<int>
    decreases s.len(),
{
    if s.len() == 0 {
        seq![0]
    } else if s.last() == '\n' {
        hard_starts(s.drop_last()).push(s.len() as int)
    } else {
        hard_starts(s.drop_last())
    }
}

/// The index at which the hard line `k` of `s` ends: that of its line feed, or the end of `s`.
pub open spec fn hard_end(s: Seq<char>, k: int) -> int {
    if k + 1 < hard_starts(s).len() {
        hard_starts(s)[k + 1] - 1
    } else {
        s.len() as int
    }
}

pub proof fn lemma_hard_starts(s: Seq<char>)
    ensures
        hard_starts(s).len() >= 1,
        hard_starts(s).len() <= s.len() + 1,
        hard_starts(s)[0] == 0,
        forall|i: int| 0 <= i < hard_starts(s).len() ==> 0 <= #[trigger] hard_starts(s)[i] <= s.len(),
        forall|i: int, j: int|
            0 <= i < j < hard_starts(s).len() ==> #[trigger] hard_starts(s)[i]
                < #[trigger] hard_starts(s)[j],
        forall|i: int|
            0 < i < hard_starts(s).len() ==> s[(#[trigger] hard_starts(s)[i]) - 1] == '\n',
    decreases s.len(),
{
    if s.len() > 0 {
        lemma_hard_starts(s.drop_last());
    }
}

pub proof fn lemma_hard_line(s: Seq<char>, k: int)
    requires
        0 <= k < hard_starts(s).len(),
    ensures
        0 <= hard_starts(s)[k] <= hard_end(s, k) <= s.len(),
        k + 1 < hard_starts(s).len() ==> hard_end(s, k) < s.len() && s[hard_end(s, k)] == '\n',
{
    lemma_hard_starts(s);
    if k + 1 < hard_starts(s).len() {
        assert(hard_starts(s)[k] < hard_starts(s)[k + 1]);
    }
}

// ---------------------------------------------------------------------------------------
// Clusters
// ---------------------------------------------------------------------------------------

/// The parts are not empty, and one after the other they are `t`.
pub open spec fn is_partition(parts: Seq<Seq<char>>, t: Seq<char>) -> bool {
    &&& concatenated(parts) == t
    &&& forall|i: int| 0 <= i < parts.len() ==> (#[trigger] parts[i]).len() > 0
}

/// The grapheme clusters of `t`, which are always a partition of it.
pub open spec fn clusters(t: Seq<char>) -> Seq<Seq<char>> {
    if is_partition(grapheme_clusters(t), t) {
        grapheme_clusters(t)
    } else if t.len() == 0 {
        seq![]
    } else {
        seq![t]
    }
}

/// The number of characters in the first `i` parts.
pub open spec fn part_offset(parts: Seq<Seq<char>>, i: int) -> int {
    concatenated(parts.take(i)).len() as int
}

pub open spec fn column_counts(parts: Seq<Seq<char>>) -> Seq<usize> {
    Seq::new(parts.len(), |i: int| display_width(parts[i]))
}

pub proof fn lemma_clusters(t: Seq<char>)
    ensures
        is_partition(clusters(t), t),
{
    if !is_partition(grapheme_clusters(t), t) && t.len() > 0 {
        let one = seq![t];
        assert(one.drop_last() =~= Seq::<Seq<char>>::empty());
        assert(concatenated(one.drop_last()) =~= Seq::<char>::empty());
        assert(concatenated(one) =~= t);
    } else if t.len() == 0 && !is_partition(grapheme_clusters(t), t) {
        assert(concatenated(Seq::<Seq<char>>::empty()) =~= t);
    }
}

pub proof fn lemma_part_step(parts: Seq<Seq<char>>, i: int)
    requires
        0 <= i < parts.len(),
    ensures
        part_offset(parts, i + 1) == part_offset(parts, i) + parts[i].len(),
{
    assert(parts.take(i + 1).drop_last() =~= parts.take(i));
}

pub proof fn lemma_part_order(parts: Seq<Seq<char>>, t: Seq<char>, i: int, j: int)
    requires
        is_partition(parts, t),
        0 <= i <= j <= parts.len(),
    ensures
        0 <= part_offset(parts, i) <= part_offset(parts, j) <= t.len(),
        i < j ==> part_offset(parts, i) < part_offset(parts, j),
        part_offset(parts, 0) == 0,
        part_offset(parts, parts.len() as int) == t.len(),
    decreases parts.len() - i, parts.len() - j,
{
    assert(parts.take(0) =~= Seq::<Seq<char>>::empty());
    assert(parts.take(parts.len() as int) =~= parts);
    if i < j {
        lemma_part_step(parts, i);
        lemma_part_order(parts, t, i + 1, j);
    } else if j < parts.len() {
        lemma_part_step(parts, j);
        lemma_part_order(parts, t, i, j + 1);
    }
}

// ---------------------------------------------------------------------------------------
// Rows
// ---------------------------------------------------------------------------------------

pub open spec fn saturated(n: int) -> int {
    if n <= usize::MAX {
        n
    } else {
        usize::MAX as int
    }
}

/// Where rows start among clusters of the given numbers of columns, and how many columns the
/// last row has: a cluster goes to a new row where it would not fit in one that has columns.
pub open spec fn wrap_state(columns: Seq<usize>, width: int) -> (Seq<int>, int)
    decreases columns.len(),
{
    if columns.len() == 0 {
        (seq![0], 0)
    } else {
        let (starts, filled) = wrap_state(columns.drop_last(), width);
        let last = columns.last() as int;
        if filled > 0 && saturated(filled + last) > width {
            (starts.push(columns.len() - 1), last)
        } else {
            (starts, saturated(filled + last))
        }
    }
}

/// The clusters at which rows start.
pub open spec fn row_starts(columns: Seq<usize>, width: int) -> Seq<int> {
    wrap_state(columns, width).0
}

pub proof fn lemma_row_starts(columns: Seq<usize>, width: int)
    ensures
        row_starts(columns, width).len() >= 1,
        row_starts(columns, width)[0] == 0,
        0 <= wrap_state(columns, width).1 <= usize::MAX,
        forall|i: int|
            0 < i < row_starts(columns, width).len() ==> 0 < #[trigger] row_starts(
                columns,
                width,
            )[i] < columns.len(),
        forall|i: int, j: int|
            0 <= i < j < row_starts(columns, width).len() ==> #[trigger] row_starts(
                columns,
                width,
            )[i] < #[trigger] row_starts(columns, width)[j],
        columns.len() == 0 ==> row_starts(columns, width).len() == 1,
        columns.len() > 0 ==> row_starts(columns, width).len() <= columns.len(),
    decreases columns.len(),
{
    if columns.len() > 0 {
        let t = columns.drop_last();
        lemma_row_starts(t, width);
        if t.len() == 0 {
            assert(wrap_state(t, width).1 == 0);
        }
    }
}

/// The rows of the hard line `k` of `s` at the given width.
pub open spec fn line_rows(s: Seq<char>, k: int, width: int) -> Seq<(int, int)> {
    let start = hard_starts(s)[k];
    let end = hard_end(s, k);
    let parts = clusters(s.subrange(start, end));
    let starts = row_starts(column_counts(parts), width);
    Seq::new(
        starts.len(),
        |j: int|
            (
                start + part_offset(parts, starts[j]),
                if j + 1 < starts.len() {
                    start + part_offset(parts, starts[j + 1])
                } else {
                    end
                },
            ),
    )
}

pub proof fn lemma_line_rows(s: Seq<char>, k: int, width: int)
    requires
        0 <= k < hard_starts(s).len(),
    ensures
        line_rows(s, k, width).len() >= 1,
        line_rows(s, k, width)[0].0 == hard_starts(s)[k],
        line_rows(s, k, width).last().1 == hard_end(s, k),
        forall|j: int|
            0 <= j < line_rows(s, k, width).len() ==> hard_starts(s)[k] <= (#[trigger] line_rows(
                s,
                k,
                width,
            )[j]).0 <= line_rows(s, k, width)[j].1 <= hard_end(s, k),
        forall|i: int, j: int|
            0 <= i < j < line_rows(s, k, width).len() ==> (#[trigger] line_rows(s, k, width)[i]).0
                < (#[trigger] line_rows(s, k, width)[j]).0,
        forall|i: int, j: int|
            0 <= i && j == i + 1 && j < line_rows(s, k, width).len() ==> (#[trigger] line_rows(
                s,
                k,
                width,
            )[i]).1 == (#[trigger] line_rows(s, k, width)[j]).0,
{
    lemma_hard_line(s, k);
    let start = hard_starts(s)[k];
    let end = hard_end(s, k);
    let t = s.subrange(start, end);
    let parts = clusters(t);
    let columns = column_counts(parts);
    let starts = row_starts(columns, width);
    let rows = line_rows(s, k, width);
    lemma_clusters(t);
    lemma_row_starts(columns, width);
    lemma_part_order(parts, t, 0, 0);
    assert forall|j: int| 0 <= j < rows.len() implies start <= (#[trigger] rows[j]).0 <= rows[j].1
        <= end by {
        lemma_part_order(parts, t, starts[j], parts.len() as int);
        if j + 1 < starts.len() {
            lemma_part_order(parts, t, starts[j], starts[j + 1]);
        }
    }
    assert forall|i: int, j: int| 0 <= i < j < rows.len() implies (#[trigger] rows[i]).0 < (
    #[trigger] rows[j]).0 by {
        lemma_part_order(parts, t, starts[i], starts[j]);
    }
}

/// The rows of the first `n` hard lines of `s`.
pub open spec fn rows_until(s: Seq<char>, width: int, n: int) -> Seq<(int, int)>
    decreases n,
{
    if n <= 0 {
        seq![]
    } else {
        rows_until(s, width, n - 1) + line_rows(s, n - 1, width)
    }
}

/// All rows of `s` at the given width.
pub open spec fn rows(s: Seq<char>, width: int) -> Seq<(int, int)> {
    rows_until(s, width, hard_starts(s).len() as int)
}

/// The number of rows before the hard line `k`.
pub open spec fn row_base(s: Seq<char>, width: int, k: int) -> int {
    rows_until(s, width, k).len() as int
}

/// The last of `rows` that starts at the character `k` or before it; the first where none does.
pub open spec fn row_of(rows: Seq<(int, int)>, k: int) -> int
    decreases rows.len(),
{
    if rows.len() <= 1 {
        0
    } else if rows.last().0 <= k {
        rows.len() - 1
    } else {
        row_of(rows.drop_last(), k)
    }
}

/// Rows of one hard line among those of the first `n`.
pub proof fn lemma_rows_of_line(s: Seq<char>, width: int, k: int, n: int)
    requires
        0 <= k < n <= hard_starts(s).len(),
    ensures
        row_base(s, width, k + 1) == row_base(s, width, k) + line_rows(s, k, width).len(),
        row_base(s, width, k + 1) <= rows_until(s, width, n).len(),
        forall|j: int|
            0 <= j < line_rows(s, k, width).len() ==> #[trigger] line_rows(s, k, width)[j]
                == rows_until(s, width, n)[row_base(s, width, k) + j],
    decreases n,
{
    if k < n - 1 {
        lemma_rows_of_line(s, width, k, n - 1);
        assert forall|j: int| 0 <= j < line_rows(s, k, width).len() implies #[trigger] line_rows(
            s,
            k,
            width,
        )[j] == rows_until(s, width, n)[row_base(s, width, k) + j] by {
            assert(line_rows(s, k, width)[j] == rows_until(s, width, n - 1)[row_base(s, width, k)
                + j]);
        }
    }
}

/// The row `r` follows the row before it at once, or after a line feed.
pub open spec fn rows_join(s: Seq<char>, before: (int, int), after: (int, int)) -> bool {
    ||| before.1 == after.0
    ||| before.1 + 1 == after.0 && before.1 < s.len() && s[before.1] == '\n'
}

pub proof fn lemma_rows(s: Seq<char>, width: int, n: int)
    requires
        0 < n <= hard_starts(s).len(),
    ensures
        rows_until(s, width, n).len() >= n,
        rows_until(s, width, n)[0].0 == 0,
        rows_until(s, width, n).last().1 == hard_end(s, n - 1),
        forall|i: int|
            0 <= i < rows_until(s, width, n).len() ==> 0 <= (#[trigger] rows_until(
                s,
                width,
                n,
            )[i]).0 <= rows_until(s, width, n)[i].1 <= hard_end(s, n - 1),
        forall|i: int, j: int|
            0 <= i < j < rows_until(s, width, n).len() ==> (#[trigger] rows_until(s, width, n)[i]).0
                < (#[trigger] rows_until(s, width, n)[j]).0,
        forall|i: int, j: int|
            0 <= i && j == i + 1 && j < rows_until(s, width, n).len() ==> rows_join(
                s,
                #[trigger] rows_until(s, width, n)[i],
                #[trigger] rows_until(s, width, n)[j],
            ),
    decreases n,
{
    lemma_hard_starts(s);
    lemma_line_rows(s, n - 1, width);
    lemma_hard_line(s, n - 1);
    let all = rows_until(s, width, n);
    let before = rows_until(s, width, n - 1);
    let line = line_rows(s, n - 1, width);
    assert(all == before + line);
    if n > 1 {
        lemma_rows(s, width, n - 1);
        lemma_hard_line(s, n - 2);
        assert(hard_end(s, n - 2) < hard_starts(s)[n - 1]);
    }
    assert forall|i: int, j: int| 0 <= i < j < all.len() implies (#[trigger] all[i]).0 < (
    #[trigger] all[j]).0 by {
        if j < before.len() {
            assert(all[i] == before[i] && all[j] == before[j]);
        } else if i < before.len() {
            assert(all[i] == before[i] && all[j] == line[j - before.len()]);
        } else {
            assert(all[i] == line[i - before.len()] && all[j] == line[j - before.len()]);
        }
    }
    assert forall|i: int| 0 <= i < all.len() implies 0 <= (#[trigger] all[i]).0 <= all[i].1
        <= hard_end(s, n - 1) by {
        if i < before.len() {
            assert(all[i] == before[i]);
        } else {
            assert(all[i] == line[i - before.len()]);
        }
    }
    assert forall|i: int, j: int| 0 <= i && j == i + 1 && j < all.len() implies rows_join(
        s,
        #[trigger] all[i],
        #[trigger] all[j],
    ) by {
        if j < before.len() {
            assert(all[i] == before[i] && all[j] == before[j]);
        } else if i < before.len() {
            assert(all[i] == before.last() && all[j] == line[0]);
        } else {
            assert(all[i] == line[i - before.len()] && all[j] == line[j - before.len()]);
        }
    }
}

/// What holds of the rows of a whole text.
pub proof fn lemma_all_rows(s: Seq<char>, width: int)
    ensures
        rows(s, width).len() >= 1,
        rows(s, width).len() >= hard_starts(s).len(),
        rows(s, width)[0].0 == 0,
        rows(s, width).last().1 == s.len(),
        forall|i: int|
            0 <= i < rows(s, width).len() ==> 0 <= (#[trigger] rows(s, width)[i]).0 <= rows(
                s,
                width,
            )[i].1 <= s.len(),
        forall|i: int, j: int|
            0 <= i < j < rows(s, width).len() ==> (#[trigger] rows(s, width)[i]).0 < (
            #[trigger] rows(s, width)[j]).0,
{
    lemma_hard_starts(s);
    lemma_rows(s, width, hard_starts(s).len() as int);
}

pub proof fn lemma_row_of(rows: Seq<(int, int)>, k: int)
    requires
        rows.len() >= 1,
        rows[0].0 <= k,
    ensures
        0 <= row_of(rows, k) < rows.len(),
        rows[row_of(rows, k)].0 <= k,
        forall|j: int| row_of(rows, k) < j < rows.len() ==> (#[trigger] rows[j]).0 > k,
    decreases rows.len(),
{
    if rows.len() > 1 && rows.last().0 > k {
        lemma_row_of(rows.drop_last(), k);
        assert forall|j: int| row_of(rows, k) < j < rows.len() implies (#[trigger] rows[j]).0
            > k by {
            if j < rows.len() - 1 {
                assert(rows.drop_last()[j] == rows[j]);
            }
        }
    }
}

/// The row of a character is the one that starts at it or before it, before the next does.
pub proof fn lemma_row_of_is(rows: Seq<(int, int)>, k: int, r: int)
    requires
        0 <= r < rows.len(),
        rows[0].0 <= k,
        rows[r].0 <= k,
        r + 1 < rows.len() ==> k < rows[r + 1].0,
        forall|i: int, j: int| 0 <= i < j < rows.len() ==> (#[trigger] rows[i]).0 < (#[trigger] rows[j]).0,
    ensures
        row_of(rows, k) == r,
{
    lemma_row_of(rows, k);
    let q = row_of(rows, k);
    if q < r {
        assert(rows[r].0 > k);
    } else if r + 1 < q {
        assert(rows[r + 1].0 < rows[q].0);
    }
}

// ---------------------------------------------------------------------------------------
// Computing rows
// ---------------------------------------------------------------------------------------

/// The clusters at which rows start, for clusters that take up the given columns.
pub fn wrap_columns(columns: &[usize], width: usize) -> (starts: Vec<usize>)
    ensures
        starts@.len() == row_starts(columns@, width as int).len(),
        forall|i: int|
            0 <= i < starts@.len() ==> #[trigger] starts@[i] == row_starts(
                columns@,
                width as int,
            )[i],
{
    let mut starts: Vec<usize> = Vec::new();
    starts.push(0);
    let mut filled: usize = 0;
    let mut i: usize = 0;
    while i < columns.len()
        invariant
            i <= columns.len(),
            ({
                let state = wrap_state(columns@.take(i as int), width as int);
                &&& filled == state.1
                &&& starts@.len() == state.0.len()
                &&& forall|j: int| 0 <= j < starts@.len() ==> #[trigger] starts@[j] == state.0[j]
            }),
        decreases columns.len() - i,
    {
        assert(columns@.take(i + 1).drop_last() =~= columns@.take(i as int));
        let sum: usize = filled.saturating_add(columns[i]);
        if filled > 0 && sum > width {
            starts.push(i);
            filled = columns[i];
        } else {
            filled = sum;
        }
        i += 1;
    }
    assert(columns@.take(columns@.len() as int) =~= columns@);
    starts
}

// ---------------------------------------------------------------------------------------
// Laws
// ---------------------------------------------------------------------------------------

/// The rows of a text are the whole text, in order, but for the line feeds between hard lines.
pub proof fn law_rows_cover_the_text(s: Seq<char>, width: int)
    ensures
        rows(s, width).len() >= 1,
        rows(s, width)[0].0 == 0,
        rows(s, width).last().1 == s.len(),
        forall|i: int, j: int|
            0 <= i && j == i + 1 && j < rows(s, width).len() ==> rows_join(
                s,
                #[trigger] rows(s, width)[i],
                #[trigger] rows(s, width)[j],
            ),
{
    lemma_hard_starts(s);
    lemma_rows(s, width, hard_starts(s).len() as int);
}

/// No row begins or ends within a grapheme cluster of its hard line.
pub proof fn law_rows_split_no_cluster(s: Seq<char>, k: int, width: int, j: int)
    requires
        0 <= k < hard_starts(s).len(),
        0 <= j < line_rows(s, k, width).len(),
    ensures
        ({
            let start = hard_starts(s)[k];
            let parts = clusters(s.subrange(start, hard_end(s, k)));
            &&& exists|a: int|
                0 <= a <= parts.len() && line_rows(s, k, width)[j].0 == start
                    + #[trigger] part_offset(parts, a)
            &&& exists|b: int|
                0 <= b <= parts.len() && line_rows(s, k, width)[j].1 == start
                    + #[trigger] part_offset(parts, b)
        }),
{
    lemma_hard_line(s, k);
    let start = hard_starts(s)[k];
    let t = s.subrange(start, hard_end(s, k));
    let parts = clusters(t);
    let starts = row_starts(column_counts(parts), width);
    lemma_clusters(t);
    lemma_row_starts(column_counts(parts), width);
    lemma_part_order(parts, t, 0, 0);
    assert(line_rows(s, k, width)[j].0 == start + part_offset(parts, starts[j]));
    if j + 1 < starts.len() {
        assert(line_rows(s, k, width)[j].1 == start + part_offset(parts, starts[j + 1]));
    } else {
        assert(line_rows(s, k, width)[j].1 == start + part_offset(parts, parts.len() as int));
    }
}

/// The columns of the clusters from `a` to `b`.
pub open spec fn total_columns(columns: Seq<usize>, a: int, b: int) -> int
    decreases b - a,
{
    if b <= a {
        0
    } else {
        total_columns(columns, a, b - 1) + columns[b - 1]
    }
}

/// The number of clusters from `a` to `b` that take up any column.
pub open spec fn visible_clusters(columns: Seq<usize>, a: int, b: int) -> int
    decreases b - a,
{
    if b <= a {
        0
    } else {
        visible_clusters(columns, a, b - 1) + if columns[b - 1] > 0 {
            1int
        } else {
            0
        }
    }
}

proof fn lemma_columns_prefix(long: Seq<usize>, short: Seq<usize>, a: int, b: int)
    requires
        0 <= a,
        b <= short.len() <= long.len(),
        forall|i: int| 0 <= i < short.len() ==> short[i] == long[i],
    ensures
        total_columns(long, a, b) == total_columns(short, a, b),
        visible_clusters(long, a, b) == visible_clusters(short, a, b),
        0 <= visible_clusters(long, a, b),
        0 <= total_columns(long, a, b),
        visible_clusters(long, a, b) == 0 <==> total_columns(long, a, b) == 0,
    decreases b - a,
{
    if a < b {
        lemma_columns_prefix(long, short, a, b - 1);
    }
}

/// The end of the row with the index `j` among `n` clusters.
pub open spec fn row_stop(starts: Seq<int>, j: int, n: int) -> int {
    if j + 1 < starts.len() {
        starts[j + 1]
    } else {
        n
    }
}

/// A row fits in the width, or just one of its clusters takes up any column; and a row is only
/// begun by a cluster that the row before it had no room for.
pub proof fn law_rows_fit(columns: Seq<usize>, width: int, j: int)
    requires
        0 <= j < row_starts(columns, width).len(),
        0 <= width < usize::MAX,
    ensures
        ({
            let starts = row_starts(columns, width);
            let a = starts[j];
            let b = row_stop(starts, j, columns.len() as int);
            &&& total_columns(columns, a, b) <= width || visible_clusters(columns, a, b) <= 1
            &&& j > 0 ==> total_columns(columns, starts[j - 1], a) + columns[a] > width
        }),
{
    lemma_fits(columns, width);
    if j > 0 {
        lemma_filled(columns, width, j - 1);
    }
}

/// A row has at least the columns that it was counted to have, and those of a row before
/// another leave no room for the first cluster of the other.
proof fn lemma_filled(columns: Seq<usize>, width: int, j: int)
    requires
        0 <= j < row_starts(columns, width).len(),
    ensures
        ({
            let starts = row_starts(columns, width);
            &&& total_columns(columns, starts.last(), columns.len() as int) >= wrap_state(
                columns,
                width,
            ).1
            &&& j + 1 < starts.len() ==> total_columns(columns, starts[j], starts[j + 1])
                + columns[starts[j + 1]] > width
        }),
    decreases columns.len(),
{
    lemma_row_starts(columns, width);
    if columns.len() > 0 {
        let t = columns.drop_last();
        let n = columns.len() as int;
        lemma_row_starts(t, width);
        let before = row_starts(t, width);
        let starts = row_starts(columns, width);
        let k = if j < before.len() {
            j
        } else {
            0
        };
        lemma_filled(t, width, k);
        lemma_columns_prefix(columns, t, before.last(), n - 1);
        if j + 1 < before.len() {
            lemma_columns_prefix(columns, t, before[j], before[j + 1]);
            assert(starts[j] == before[j] && starts[j + 1] == before[j + 1]);
        } else if j + 1 < starts.len() {
            assert(starts[j] == before.last() && starts[j + 1] == n - 1);
        }
        if starts.len() > before.len() {
            assert(total_columns(columns, n - 1, n - 1) == 0);
        }
    }
}

proof fn lemma_fits(columns: Seq<usize>, width: int)
    requires
        0 <= width < usize::MAX,
    ensures
        ({
            let starts = row_starts(columns, width);
            let n = columns.len() as int;
            let filled = wrap_state(columns, width).1;
            &&& total_columns(columns, starts.last(), n) == filled || filled == usize::MAX
            &&& filled > width ==> visible_clusters(columns, starts.last(), n) <= 1
            &&& filled == 0 ==> visible_clusters(columns, starts.last(), n) == 0
            &&& forall|j: int|
                0 <= j < starts.len() ==> {
                    let a = #[trigger] starts[j];
                    let b = row_stop(starts, j, n);
                    total_columns(columns, a, b) <= width || visible_clusters(columns, a, b) <= 1
                }
        }),
    decreases columns.len(),
{
    lemma_row_starts(columns, width);
    if columns.len() > 0 {
        let t = columns.drop_last();
        let n = columns.len() as int;
        lemma_row_starts(t, width);
        lemma_fits(t, width);
        let before = row_starts(t, width);
        let starts = row_starts(columns, width);
        lemma_columns_prefix(columns, t, before.last(), n - 1);
        assert forall|j: int| 0 <= j < starts.len() implies {
            let a = #[trigger] starts[j];
            let b = row_stop(starts, j, n);
            total_columns(columns, a, b) <= width || visible_clusters(columns, a, b) <= 1
        } by {
            let a = starts[j];
            let b = row_stop(starts, j, n);
            if j < before.len() {
                assert(before[j] == a);
                let old_stop = row_stop(before, j, n - 1);
                lemma_columns_prefix(columns, t, a, old_stop);
                if j + 1 < starts.len() {
                    assert(old_stop == b);
                }
            }
            if j + 1 == starts.len() && starts.len() > before.len() {
                assert(a == n - 1);
                assert(total_columns(columns, a, n - 1) == 0);
                assert(visible_clusters(columns, a, n - 1) == 0);
            }
        }
        if starts.len() > before.len() {
            assert(total_columns(columns, n - 1, n - 1) == 0);
            assert(visible_clusters(columns, n - 1, n - 1) == 0);
        }
    }
}

/// There is no line feed within a hard line.
proof fn lemma_no_feed(s: Seq<char>, k: int, i: int)
    requires
        0 <= k < hard_starts(s).len(),
        hard_starts(s)[k] <= i < hard_end(s, k),
    ensures
        s[i] != '\n',
    decreases s.len(),
{
    lemma_hard_starts(s);
    lemma_hard_line(s, k);
    let t = s.drop_last();
    lemma_hard_starts(t);
    let before = hard_starts(t);
    if k < before.len() {
        assert(hard_starts(s)[k] == before[k]);
        if i < t.len() {
            assert(i < hard_end(t, k));
            lemma_no_feed(t, k, i);
        }
    }
}

/// The rows of a hard line: they are the line from its start to its end, one row following on
/// the other, and there is no line feed in them. A line with nothing in it is one empty row,
/// and no other row is empty. A row is a number of whole grapheme clusters. It fits in the
/// width, or just one of its clusters takes up any column; and it is only begun where the next
/// cluster does not fit in the row before it.
pub proof fn law_rows_of_a_line(s: Seq<char>, k: int, width: int)
    requires
        0 <= k < hard_starts(s).len(),
        0 <= width < usize::MAX,
    ensures
        ({
            let (start, end) = (hard_starts(s)[k], hard_end(s, k));
            let rows = line_rows(s, k, width);
            let parts = clusters(s.subrange(start, end));
            let columns = column_counts(parts);
            let starts = row_starts(columns, width);
            &&& 0 <= start <= end <= s.len()
            &&& k == 0 ==> start == 0
            &&& k > 0 ==> start > 0 && s[start - 1] == '\n'
            &&& k + 1 < hard_starts(s).len() ==> end < s.len() && s[end] == '\n'
            &&& k + 1 == hard_starts(s).len() ==> end == s.len()
            &&& forall|i: int| start <= i < end ==> #[trigger] s[i] != '\n'
            &&& rows.len() == starts.len() && rows.len() > 0
            &&& start == end ==> rows == seq![(start, end)]
            &&& rows[0].0 == start && rows.last().1 == end
            &&& forall|j: int|
                0 <= j < rows.len() ==> {
                    let (a, b) = (starts[j], row_stop(starts, j, parts.len() as int));
                    &&& 0 <= a <= b <= parts.len()
                    &&& (#[trigger] rows[j]).0 == start + part_offset(parts, a)
                    &&& rows[j].1 == start + part_offset(parts, b)
                    &&& start < end ==> rows[j].0 < rows[j].1
                    &&& total_columns(columns, a, b) <= width || visible_clusters(columns, a, b)
                        <= 1
                    &&& j > 0 ==> rows[j - 1].1 == rows[j].0 && total_columns(
                        columns,
                        starts[j - 1],
                        a,
                    ) + columns[a] > width
                }
        }),
{
    let (start, end) = (hard_starts(s)[k], hard_end(s, k));
    let rows = line_rows(s, k, width);
    let t = s.subrange(start, end);
    let parts = clusters(t);
    let columns = column_counts(parts);
    let starts = row_starts(columns, width);
    lemma_hard_starts(s);
    lemma_hard_line(s, k);
    lemma_line_rows(s, k, width);
    lemma_clusters(t);
    lemma_row_starts(columns, width);
    lemma_part_order(parts, t, 0, 0);
    assert forall|i: int| start <= i < end implies #[trigger] s[i] != '\n' by {
        lemma_no_feed(s, k, i);
    }
    if start == end {
        if parts.len() > 0 {
            lemma_part_order(parts, t, 0, 1);
        }
        assert(rows =~= seq![(start, end)]);
    }
    assert forall|j: int| 0 <= j < rows.len() implies {
        let (a, b) = (starts[j], row_stop(starts, j, parts.len() as int));
        &&& 0 <= a <= b <= parts.len()
        &&& (#[trigger] rows[j]).0 == start + part_offset(parts, a)
        &&& rows[j].1 == start + part_offset(parts, b)
        &&& start < end ==> rows[j].0 < rows[j].1
        &&& total_columns(columns, a, b) <= width || visible_clusters(columns, a, b) <= 1
        &&& j > 0 ==> rows[j - 1].1 == rows[j].0 && total_columns(columns, starts[j - 1], a)
            + columns[a] > width
    } by {
        let (a, b) = (starts[j], row_stop(starts, j, parts.len() as int));
        law_rows_fit(columns, width, j);
        if start < end {
            assert(parts.len() > 0);
            lemma_part_order(parts, t, a, b);
        }
    }
}

} // verus!
