//! Grid geometry for a dense row-major board: rows and columns of a flat
//! index, the 8-direction adjacency relation, and the count of mines among a
//! cell's existing neighbors.

use vstd::prelude::*;
use vstd::arithmetic::div_mod::{lemma_fundamental_div_mod, lemma_fundamental_div_mod_converse};

use crate::cell::FieldCell;

verus! {

/// The row of flat index `i` in a grid with `cols` columns.
pub open spec fn row_of(i: int, cols: int) -> int {
    i / cols
}

/// The column of flat index `i` in a grid with `cols` columns.
pub open spec fn col_of(i: int, cols: int) -> int {
    i % cols
}

/// Two flat indices are grid neighbors: both in range, distinct, and their
/// rows and their columns each differ by at most one. Because the column is
/// computed from the flat index, the first cell of a row is never treated as
/// adjacent to the last cell of the previous row.
pub open spec fn adjacent(cols: int, rows: int, i: int, j: int) -> bool {
    &&& 0 <= i < rows * cols
    &&& 0 <= j < rows * cols
    &&& i != j
    &&& -1 <= row_of(i, cols) - row_of(j, cols) <= 1
    &&& -1 <= col_of(i, cols) - col_of(j, cols) <= 1
}

/// Whether index `k` is in range and holds a mine.
pub open spec fn mine_at(cells: Seq<FieldCell>, k: int) -> bool {
    0 <= k < cells.len() && cells[k].cell_type is Mine
}

/// 1 when grid position `(r, c)` exists and holds a mine, else 0.
pub open spec fn mine_ind(cells: Seq<FieldCell>, cols: int, rows: int, r: int, c: int) -> int {
    if 0 <= r < rows && 0 <= c < cols && mine_at(cells, r * cols + c) {
        1
    } else {
        0
    }
}

/// The number of mines among the up-to-8 existing grid neighbors of `i`.
pub open spec fn adj_mine_count(cells: Seq<FieldCell>, cols: int, rows: int, i: int) -> int {
    let r = row_of(i, cols);
    let c = col_of(i, cols);
    mine_ind(cells, cols, rows, r - 1, c - 1) + mine_ind(cells, cols, rows, r - 1, c) + mine_ind(
        cells,
        cols,
        rows,
        r - 1,
        c + 1,
    ) + mine_ind(cells, cols, rows, r, c - 1) + mine_ind(cells, cols, rows, r, c + 1) + mine_ind(
        cells,
        cols,
        rows,
        r + 1,
        c - 1,
    ) + mine_ind(cells, cols, rows, r + 1, c) + mine_ind(cells, cols, rows, r + 1, c + 1)
}

/// A flat index decomposes into its row and column.
pub proof fn lemma_row_col(i: int, cols: int)
    requires
        cols >= 1,
        0 <= i,
    ensures
        i == row_of(i, cols) * cols + col_of(i, cols),
        0 <= col_of(i, cols) < cols,
        0 <= row_of(i, cols),
{
    lemma_fundamental_div_mod(i, cols);
    assert(cols * (i / cols) == (i / cols) * cols) by (nonlinear_arith);
    assert(0 <= i % cols < cols) by (nonlinear_arith)
        requires
            cols >= 1,
            i >= 0,
    ;
    assert(i / cols >= 0) by (nonlinear_arith)
        requires
            cols >= 1,
            i >= 0,
    ;
}

/// A row-column pair maps back to itself through the flat index.
pub proof fn lemma_index_of(r: int, c: int, cols: int)
    requires
        cols >= 1,
        0 <= c < cols,
        0 <= r,
    ensures
        row_of(r * cols + c, cols) == r,
        col_of(r * cols + c, cols) == c,
        r * cols + c >= 0,
{
    assert(r * cols >= 0) by (nonlinear_arith)
        requires
            r >= 0,
            cols >= 1,
    ;
    lemma_fundamental_div_mod_converse(r * cols + c, cols, r, c);
}

/// A position inside the grid has a flat index inside the grid.
pub proof fn lemma_index_bound(r: int, c: int, rows: int, cols: int)
    requires
        0 <= r < rows,
        0 <= c < cols,
    ensures
        0 <= r * cols + c < rows * cols,
{
    assert(0 <= r * cols + c < rows * cols) by (nonlinear_arith)
        requires
            0 <= r < rows,
            0 <= c < cols,
    ;
}

/// An index inside the grid lies on a row inside the grid.
pub proof fn lemma_row_bound(i: int, rows: int, cols: int)
    requires
        cols >= 1,
        0 <= i < rows * cols,
    ensures
        row_of(i, cols) < rows,
{
    lemma_row_col(i, cols);
    assert(row_of(i, cols) < rows) by (nonlinear_arith)
        requires
            cols >= 1,
            i == row_of(i, cols) * cols + col_of(i, cols),
            0 <= col_of(i, cols) < cols,
            0 <= row_of(i, cols),
            i < rows * cols,
    ;
}

/// A cell has between zero and eight adjacent mines.
pub proof fn lemma_adj_mine_count_bounds(cells: Seq<FieldCell>, cols: int, rows: int, i: int)
    ensures
        0 <= adj_mine_count(cells, cols, rows, i) <= 8,
{
}

/// A cell with no adjacent mines has no mine on any neighboring index.
pub proof fn lemma_zero_count_no_adjacent_mine(
    cells: Seq<FieldCell>,
    cols: int,
    rows: int,
    i: int,
    j: int,
)
    requires
        cols >= 1,
        rows >= 1,
        cells.len() == rows * cols,
        adj_mine_count(cells, cols, rows, i) == 0,
        adjacent(cols, rows, i, j),
    ensures
        !(cells[j].cell_type is Mine),
{
    let r = row_of(i, cols);
    let c = col_of(i, cols);
    let rj = row_of(j, cols);
    let cj = col_of(j, cols);
    lemma_row_col(i, cols);
    lemma_row_col(j, cols);
    lemma_row_bound(j, rows, cols);
    if rj == r && cj == c {
        assert(i == j);
    } else {
        assert(mine_ind(cells, cols, rows, rj, cj) == 0);
        assert(rj * cols + cj == j);
        assert(!mine_at(cells, j));
    }
}

/// Appends an index already known to neighbor `i`, keeping every entry of
/// the vector a neighbor of `i`.
fn push_adjacent(v: &mut Vec<usize>, cols: usize, rows: usize, i: usize, j: usize)
    requires
        adjacent(cols as int, rows as int, i as int, j as int),
        forall|k: int|
            0 <= k < old(v)@.len() ==> adjacent(
                cols as int,
                rows as int,
                i as int,
                #[trigger] old(v)@[k] as int,
            ),
    ensures
        forall|x: usize| #[trigger] final(v)@.contains(x) <==> (old(v)@.contains(x) || x == j),
        forall|k: int|
            0 <= k < final(v)@.len() ==> adjacent(
                cols as int,
                rows as int,
                i as int,
                #[trigger] final(v)@[k] as int,
            ),
{
    v.push(j);
    proof {
        assert(v@[v@.len() - 1] == j);
        assert forall|x: usize| #[trigger] v@.contains(x) implies (old(v)@.contains(x) || x
            == j) by {
            let k = choose|k: int| 0 <= k < v@.len() && v@[k] == x;
            if k < v@.len() - 1 {
                assert(old(v)@[k] == x);
            }
        }
        assert forall|x: usize| old(v)@.contains(x) implies v@.contains(x) by {
            let k = choose|k: int| 0 <= k < old(v)@.len() && old(v)@[k] == x;
            assert(v@[k] == x);
        }
    }
}

/// The flat indices of the existing grid neighbors of `i`: every entry is a
/// neighbor, and every neighbor is an entry.
#[verifier::rlimit(80)]
pub(crate) fn neighbors(cols: usize, rows: usize, i: usize) -> (v: Vec<usize>)
    requires
        cols >= 1,
        rows >= 1,
        rows * cols <= usize::MAX,
        i < rows * cols,
    ensures
        forall|k: int|
            0 <= k < v@.len() ==> adjacent(cols as int, rows as int, i as int, #[trigger] v@[k] as int),
        forall|j: int|
            #[trigger] adjacent(cols as int, rows as int, i as int, j) ==> v@.contains(j as usize),
{
    let ghost ci = cols as int;
    let ghost ri = rows as int;
    proof {
        lemma_row_col(i as int, ci);
        lemma_row_bound(i as int, ri, ci);
    }
    let r = i / cols;
    let c = i % cols;
    let ghost rr = r as int;
    let ghost cc = c as int;
    let mut v: Vec<usize> = Vec::new();
    let has_left = c >= 1;
    let has_right = c + 1 < cols;
    if r >= 1 {
        proof {
            assert((rr - 1) * ci == rr * ci - ci) by (nonlinear_arith);
            assert((rr - 1) * ci >= 0) by (nonlinear_arith)
                requires
                    rr >= 1,
                    ci >= 1,
            ;
            assert(i >= cols);
            lemma_index_of(rr - 1, cc, ci);
            lemma_index_bound(rr - 1, cc, ri, ci);
        }
        let up = i - cols;
        assert(up as int == (rr - 1) * ci + cc);
        push_adjacent(&mut v, cols, rows, i, up);
        if has_left {
            proof {
                lemma_index_of(rr - 1, cc - 1, ci);
                lemma_index_bound(rr - 1, cc - 1, ri, ci);
            }
            push_adjacent(&mut v, cols, rows, i, up - 1);
        }
        if has_right {
            proof {
                lemma_index_of(rr - 1, cc + 1, ci);
                lemma_index_bound(rr - 1, cc + 1, ri, ci);
            }
            push_adjacent(&mut v, cols, rows, i, up + 1);
        }
    }
    if r + 1 < rows {
        proof {
            assert((rr + 1) * ci == rr * ci + ci) by (nonlinear_arith);
            lemma_index_of(rr + 1, cc, ci);
            lemma_index_bound(rr + 1, cc, ri, ci);
        }
        let down = i + cols;
        assert(down as int == (rr + 1) * ci + cc);
        push_adjacent(&mut v, cols, rows, i, down);
        if has_left {
            proof {
                lemma_index_of(rr + 1, cc - 1, ci);
                lemma_index_bound(rr + 1, cc - 1, ri, ci);
            }
            push_adjacent(&mut v, cols, rows, i, down - 1);
        }
        if has_right {
            proof {
                lemma_index_of(rr + 1, cc + 1, ci);
                lemma_index_bound(rr + 1, cc + 1, ri, ci);
            }
            push_adjacent(&mut v, cols, rows, i, down + 1);
        }
    }
    if has_left {
        proof {
            lemma_index_of(rr, cc - 1, ci);
            lemma_index_bound(rr, cc - 1, ri, ci);
        }
        push_adjacent(&mut v, cols, rows, i, i - 1);
    }
    if has_right {
        proof {
            lemma_index_of(rr, cc + 1, ci);
            lemma_index_bound(rr, cc + 1, ri, ci);
        }
        push_adjacent(&mut v, cols, rows, i, i + 1);
    }
    proof {
        assert forall|j: int| #[trigger] adjacent(ci, ri, i as int, j) implies v@.contains(
            j as usize,
        ) by {
            let rj = row_of(j, ci);
            let cj = col_of(j, ci);
            lemma_row_col(j, ci);
            lemma_row_bound(j, ri, ci);
            assert(j == rj * ci + cj);
            assert((rr - 1) * ci == rr * ci - ci) by (nonlinear_arith);
            assert((rr + 1) * ci == rr * ci + ci) by (nonlinear_arith);
            assert((j as usize) as int == j);
            if rj == rr - 1 {
                if cj == cc - 1 {
                    assert(j == i - ci - 1);
                } else if cj == cc {
                    assert(j == i - ci);
                } else {
                    assert(j == i - ci + 1);
                }
            } else if rj == rr {
                if cj == cc - 1 {
                    assert(j == i - 1);
                } else if cj == cc {
                    assert(i == j);
                    assert(false);
                } else {
                    assert(j == i + 1);
                }
            } else {
                if cj == cc - 1 {
                    assert(j == i + ci - 1);
                } else if cj == cc {
                    assert(j == i + ci);
                } else {
                    assert(j == i + ci + 1);
                }
            }
        }
    }
    v
}

} // verus!
