//! The mathematical model of an automaton: rows, generations, histories and
//! the counts of their cells, with the laws that hold of them.

use crate::rule::{is_table, lookup_spec};
use vstd::prelude::*;

verus! {

/// A row is a sequence of cells, each 0 or 1.
pub open spec fn is_row(row: Seq<u8>) -> bool {
    forall|i: int| 0 <= i < row.len() ==> #[trigger] row[i] <= 1
}

/// The code of the neighbourhood `(left, center, right)`.
pub open spec fn neighborhood(left: u8, center: u8, right: u8) -> int {
    4 * left + 2 * center + right
}

/// The cell at column `i` one generation after `prev`. An interior cell is
/// what the table gives for its neighbourhood; the first and the last column
/// are never evaluated and hold 0.
pub open spec fn next_cell(table: Seq<u8>, prev: Seq<u8>, i: int) -> u8 {
    if 0 < i < prev.len() - 1 {
        lookup_spec(table, neighborhood(prev[i - 1], prev[i], prev[i + 1]))
    } else {
        0
    }
}

/// The row one generation after `prev`.
pub open spec fn next_row(table: Seq<u8>, prev: Seq<u8>) -> Seq<u8> {
    Seq::new(prev.len(), |i: int| next_cell(table, prev, i))
}

/// The row after `t` generations; generation 0 is the initial row itself.
pub open spec fn generation(table: Seq<u8>, row: Seq<u8>, t: nat) -> Seq<u8>
    decreases t,
{
    if t == 0 {
        row
    } else {
        next_row(table, generation(table, row, (t - 1) as nat))
    }
}

/// The history grid of `len` generations: row `t` is generation `t`.
pub open spec fn history(table: Seq<u8>, row: Seq<u8>, len: nat) -> Seq<Seq<u8>> {
    Seq::new(len, |t: int| generation(table, row, t as nat))
}

/// How many cells of `row` equal `cell`.
pub open spec fn count_in_row(row: Seq<u8>, cell: u8) -> nat
    decreases row.len(),
{
    if row.len() == 0 {
        0
    } else {
        count_in_row(row.drop_last(), cell) + if row.last() == cell {
            1nat
        } else {
            0nat
        }
    }
}

/// How many cells of a grid equal `cell`.
pub open spec fn count_cells(cells: Seq<Seq<u8>>, cell: u8) -> nat
    decreases cells.len(),
{
    if cells.len() == 0 {
        0
    } else {
        count_cells(cells.drop_last(), cell) + count_in_row(cells.last(), cell)
    }
}

/// A row of `width` cells that are all 0.
pub open spec fn zero_row(width: nat) -> Seq<u8> {
    Seq::new(width, |i: int| 0u8)
}

/// Every generation of a row under a rule table is a row of the same width.
pub proof fn lemma_generation_is_row(table: Seq<u8>, row: Seq<u8>, t: nat)
    requires
        is_table(table),
        is_row(row),
    ensures
        is_row(generation(table, row, t)),
        generation(table, row, t).len() == row.len(),
    decreases t,
{
    if t > 0 {
        lemma_generation_is_row(table, row, (t - 1) as nat);
    }
}

/// Row 0 of a history is the initial row.
pub proof fn lemma_history_starts_with_row(table: Seq<u8>, row: Seq<u8>, len: nat)
    requires
        len >= 1,
    ensures
        history(table, row, len)[0] == row,
{
}

/// Each row of a history past the first follows from the row before it by
/// the update rule: interior cells by table lookup, boundary cells 0.
pub proof fn lemma_history_step(table: Seq<u8>, row: Seq<u8>, len: nat, t: int, i: int)
    requires
        0 <= t,
        t + 1 < len,
        0 <= i < row.len(),
        is_table(table),
        is_row(row),
    ensures
        history(table, row, len)[t + 1].len() == row.len(),
        history(table, row, len)[t].len() == row.len(),
        0 < i < row.len() - 1 ==> history(table, row, len)[t + 1][i] == table[4 * history(
            table,
            row,
            len,
        )[t][i - 1] + 2 * history(table, row, len)[t][i] + history(table, row, len)[t][i + 1]],
        i == 0 || i == row.len() - 1 ==> history(table, row, len)[t + 1][i] == 0,
{
    lemma_generation_is_row(table, row, t as nat);
    lemma_generation_is_row(table, row, (t + 1) as nat);
    let prev = generation(table, row, t as nat);
    assert(generation(table, row, (t + 1) as nat) == next_row(table, prev));
    if 0 < i < row.len() - 1 {
        assert(prev[i - 1] <= 1 && prev[i] <= 1 && prev[i + 1] <= 1);
    }
}

/// Boundary preservation: the first and the last column of a history hold in
/// every row what the initial row holds there, where the initial row holds 0
/// in both, as rows conventionally do. (Past row 0 the two columns are 0
/// whatever the initial row holds, so a boundary cell that is 1 is not kept.)
pub proof fn lemma_boundary_preserved(table: Seq<u8>, row: Seq<u8>, len: nat, t: int)
    requires
        0 <= t < len,
        row.len() >= 1,
        t >= 1 ==> row[0] == 0 && row[row.len() - 1] == 0,
    ensures
        history(table, row, len)[t].len() == row.len(),
        history(table, row, len)[t][0] == row[0],
        history(table, row, len)[t][row.len() - 1] == row[row.len() - 1],
{
    lemma_generation_len(table, row, t as nat);
    if t > 0 {
        lemma_generation_len(table, row, (t - 1) as nat);
    }
}

/// Every generation is as wide as the initial row.
pub proof fn lemma_generation_len(table: Seq<u8>, row: Seq<u8>, t: nat)
    ensures
        generation(table, row, t).len() == row.len(),
    decreases t,
{
    if t > 0 {
        lemma_generation_len(table, row, (t - 1) as nat);
    }
}

/// Under the rule whose table is all 0, every row past the first is all 0.
pub proof fn lemma_zero_rule_clears(table: Seq<u8>, row: Seq<u8>, len: nat, t: int)
    requires
        table.len() == 8,
        forall|k: int| 0 <= k < 8 ==> table[k] == 0,
        1 <= t < len,
    ensures
        history(table, row, len)[t] == zero_row(row.len()),
{
    lemma_generation_len(table, row, (t - 1) as nat);
    let prev = generation(table, row, (t - 1) as nat);
    assert forall|i: int| 0 <= i < prev.len() implies next_cell(table, prev, i) == 0 by {
        let code = neighborhood(prev[i - 1], prev[i], prev[i + 1]);
        if 0 <= code < 8 {
            assert(table[code] == 0);
        }
    }
    assert(next_row(table, prev) =~= zero_row(row.len()));
}

/// In a row, the cells that are 1 and the cells that are 0 are all the
/// cells, and the sum of the cells is the number of those that are 1.
pub proof fn lemma_row_counts(row: Seq<u8>)
    requires
        is_row(row),
    ensures
        count_in_row(row, 1) + count_in_row(row, 0) == row.len(),
        crate::grid::row_total(row) == count_in_row(row, 1),
    decreases row.len(),
{
    if row.len() > 0 {
        lemma_row_counts(row.drop_last());
    }
}

/// In a grid of rows of one width, the cells that are 1 and the cells that
/// are 0 are all the cells, and the sum of the cells is the number of those
/// that are 1.
pub proof fn lemma_grid_counts(cells: Seq<Seq<u8>>, width: nat)
    requires
        forall|r: int| 0 <= r < cells.len() ==> is_row(#[trigger] cells[r]) && cells[r].len() == width,
    ensures
        count_cells(cells, 1) + count_cells(cells, 0) == cells.len() * width,
        crate::grid::total(cells) == count_cells(cells, 1),
    decreases cells.len(),
{
    if cells.len() > 0 {
        let rest = cells.drop_last();
        assert forall|r: int| 0 <= r < rest.len() implies is_row(#[trigger] rest[r]) && rest[r].len()
            == width by {
            assert(rest[r] == cells[r]);
        }
        lemma_grid_counts(rest, width);
        lemma_row_counts(cells.last());
        assert(cells.len() * width == rest.len() * width + width) by (nonlinear_arith)
            requires
                cells.len() == rest.len() + 1,
        ;
    }
}

/// The count law: in a history of `len` generations of a row of width `W`,
/// the number of 1-cells and the number of 0-cells add up to `len * W`.
pub proof fn lemma_count_law(table: Seq<u8>, row: Seq<u8>, len: nat)
    requires
        is_table(table),
        is_row(row),
    ensures
        count_cells(history(table, row, len), 1) + count_cells(history(table, row, len), 0) == len
            * row.len(),
        crate::grid::total(history(table, row, len)) == count_cells(history(table, row, len), 1),
{
    let h = history(table, row, len);
    assert forall|r: int| 0 <= r < h.len() implies is_row(#[trigger] h[r]) && h[r].len()
        == row.len() by {
        lemma_generation_is_row(table, row, r as nat);
    }
    lemma_grid_counts(h, row.len());
}

} // verus!
