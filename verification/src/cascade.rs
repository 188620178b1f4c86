//! The reveal command. Revealing a hidden (or flagged) empty cell with no
//! adjacent mines cascades: every cell reachable through a chain of such
//! cells is revealed too. The cascade is run with an explicit work list
//! instead of call-stack recursion, and its contract pins the revealed set
//! down exactly as a reachability closure.

use vstd::prelude::*;

use crate::cell::{FieldCell, FieldCellState, FieldCellType};
use crate::field::{
    lemma_count_mines_pointwise, lemma_same_mines_same_adj_counts, Field, RevealOutcome,
};
use crate::grid::{adj_mine_count, adjacent, lemma_zero_count_no_adjacent_mine, neighbors};

verus! {

/// A cell revealed, everything else kept.
pub open spec fn revealed_cell(c: FieldCell) -> FieldCell {
    FieldCell { state: FieldCellState::Revealed, cell_type: c.cell_type }
}

/// The cascade spreads through `i`: an in-range empty cell with no adjacent
/// mines that is not already revealed.
pub open spec fn spreads(cells: Seq<FieldCell>, i: int) -> bool {
    &&& 0 <= i < cells.len()
    &&& cells[i].cell_type == FieldCellType::Empty(0u32)
    &&& !(cells[i].state is Revealed)
}

/// A chain of positions along which one reveal cascades: every step moves to
/// a grid neighbor, and every position before the last spreads the cascade.
pub open spec fn cascade_path(cells: Seq<FieldCell>, cols: int, rows: int, p: Seq<int>) -> bool {
    &&& p.len() >= 1
    &&& forall|k: int|
        0 <= k < p.len() - 1 ==> spreads(cells, #[trigger] p[k]) && adjacent(
            cols,
            rows,
            p[k],
            p[k + 1],
        )
}

/// The cascade started at `from` reaches `to`.
pub open spec fn cascade_reaches(
    cells: Seq<FieldCell>,
    cols: int,
    rows: int,
    from: int,
    to: int,
) -> bool {
    exists|p: Seq<int>|
        cascade_path(cells, cols, rows, p) && p.first() == from && p.last() == to
}

/// Every cell that spreads the cascade in `s0`, is revealed in `cells`, and
/// is not waiting on `pending` already has all its neighbors revealed.
pub open spec fn closed_except(
    s0: Seq<FieldCell>,
    cells: Seq<FieldCell>,
    cols: int,
    rows: int,
    pending: Seq<usize>,
) -> bool {
    forall|i: int, j: int|
        spreads(s0, i) && cells[i].state is Revealed && !pending.contains(i as usize)
            && #[trigger] adjacent(cols, rows, i, j) ==> cells[j].state is Revealed
}

/// A work-list entry: in range, spreads the cascade, and reached from `pos`.
pub open spec fn stack_entry_ok(
    s0: Seq<FieldCell>,
    cols: int,
    rows: int,
    pos: int,
    t: usize,
) -> bool {
    &&& (t as int) < s0.len()
    &&& spreads(s0, t as int)
    &&& cascade_reaches(s0, cols, rows, pos, t as int)
}

/// The grid after one reveal at `pos`: unchanged when `pos` is out of range
/// or already revealed; the whole reachable region revealed when the cascade
/// spreads from `pos`; only `pos` revealed otherwise.
pub open spec fn spec_reveal(cells: Seq<FieldCell>, cols: int, rows: int, pos: int) -> Seq<
    FieldCell,
> {
    if !(0 <= pos < cells.len()) || cells[pos].state is Revealed {
        cells
    } else if spreads(cells, pos) {
        Seq::new(
            cells.len(),
            |k: int|
                if cells[k].state is Revealed || cascade_reaches(cells, cols, rows, pos, k) {
                    revealed_cell(cells[k])
                } else {
                    cells[k]
                },
        )
    } else {
        cells.update(pos, revealed_cell(cells[pos]))
    }
}

/// What one reveal at `pos` reports: `AlreadyRevealed` when nothing is newly
/// revealed, else `Mine` or `Safe` by the clicked cell's kind.
pub open spec fn spec_reveal_outcome(cells: Seq<FieldCell>, pos: int) -> RevealOutcome {
    if !(0 <= pos < cells.len()) || cells[pos].state is Revealed {
        RevealOutcome::AlreadyRevealed
    } else if cells[pos].cell_type is Mine {
        RevealOutcome::Mine
    } else {
        RevealOutcome::Safe
    }
}

/// The number of cells not yet revealed; the cascade's termination measure.
pub open spec fn count_unrevealed(cells: Seq<FieldCell>) -> int
    decreases cells.len(),
{
    if cells.len() == 0 {
        0
    } else {
        count_unrevealed(cells.drop_last()) + if cells.last().state is Revealed {
            0int
        } else {
            1int
        }
    }
}

/// Revealing one unrevealed cell lowers the measure by one.
proof fn lemma_count_unrevealed_update(s: Seq<FieldCell>, k: int, c: FieldCell)
    requires
        0 <= k < s.len(),
        !(s[k].state is Revealed),
        c.state is Revealed,
    ensures
        count_unrevealed(s.update(k, c)) == count_unrevealed(s) - 1,
    decreases s.len(),
{
    if k == s.len() - 1 {
        assert(s.update(k, c).drop_last() =~= s.drop_last());
    } else {
        assert(s.update(k, c).drop_last() =~= s.drop_last().update(k, c));
        lemma_count_unrevealed_update(s.drop_last(), k, c);
    }
}

/// The measure lies between zero and the grid size.
proof fn lemma_count_unrevealed_bounds(s: Seq<FieldCell>)
    ensures
        0 <= count_unrevealed(s) <= s.len(),
    decreases s.len(),
{
    if s.len() > 0 {
        lemma_count_unrevealed_bounds(s.drop_last());
    }
}

/// Appending to a sequence adds exactly one member.
proof fn lemma_push_contains(s: Seq<usize>, x: usize, y: usize)
    ensures
        s.push(x).contains(y) <==> (s.contains(y) || y == x),
{
    if s.contains(y) {
        let m = choose|m: int| 0 <= m < s.len() && s[m] == y;
        assert(s.push(x)[m] == y);
    }
    assert(s.push(x)[s.len() as int] == x);
    if s.push(x).contains(y) && !(s.contains(y) || y == x) {
        let m = choose|m: int| 0 <= m < s.push(x).len() && s.push(x)[m] == y;
        if m < s.len() {
            assert(s[m] == y);
        }
        assert(false);
    }
}

/// Every position reaches itself.
pub proof fn lemma_reach_self(cells: Seq<FieldCell>, cols: int, rows: int, pos: int)
    ensures
        cascade_reaches(cells, cols, rows, pos, pos),
{
    let p: Seq<int> = seq![pos];
    assert(cascade_path(cells, cols, rows, p));
    assert(p.first() == pos && p.last() == pos);
}

/// Reaching a spreading cell reaches each of its neighbors.
pub proof fn lemma_reach_step(
    cells: Seq<FieldCell>,
    cols: int,
    rows: int,
    from: int,
    i: int,
    j: int,
)
    requires
        cascade_reaches(cells, cols, rows, from, i),
        spreads(cells, i),
        adjacent(cols, rows, i, j),
    ensures
        cascade_reaches(cells, cols, rows, from, j),
{
    let p = choose|p: Seq<int>|
        cascade_path(cells, cols, rows, p) && p.first() == from && p.last() == i;
    let q = p.push(j);
    assert forall|k: int|
        0 <= k < q.len() - 1 implies spreads(cells, #[trigger] q[k]) && adjacent(
        cols,
        rows,
        q[k],
        q[k + 1],
    ) by {
        if k < p.len() - 1 {
            assert(q[k] == p[k] && q[k + 1] == p[k + 1]);
        } else {
            assert(q[k] == p.last() && q[k + 1] == j);
        }
    }
    assert(cascade_path(cells, cols, rows, q));
    assert(q.first() == from && q.last() == j);
}

/// In a grid where every revealed spreading cell has revealed neighbors,
/// everything a revealed starting cell reaches is revealed: induction along
/// the cascade path.
proof fn lemma_path_revealed(
    s0: Seq<FieldCell>,
    cells: Seq<FieldCell>,
    cols: int,
    rows: int,
    p: Seq<int>,
)
    requires
        s0.len() == cells.len(),
        s0.len() == rows * cols,
        cascade_path(s0, cols, rows, p),
        0 <= p.first() < s0.len(),
        cells[p.first()].state is Revealed,
        closed_except(s0, cells, cols, rows, Seq::<usize>::empty()),
    ensures
        cells[p.last()].state is Revealed,
    decreases p.len(),
{
    if p.len() > 1 {
        let q = p.drop_last();
        assert(cascade_path(s0, cols, rows, q)) by {
            assert forall|k: int|
                0 <= k < q.len() - 1 implies spreads(s0, #[trigger] q[k]) && adjacent(
                cols,
                rows,
                q[k],
                q[k + 1],
            ) by {
                assert(q[k] == p[k] && q[k + 1] == p[k + 1]);
            }
        }
        lemma_path_revealed(s0, cells, cols, rows, q);
        let i = p[p.len() - 2];
        let j = p.last();
        assert(q.last() == i);
        assert(spreads(s0, i) && adjacent(cols, rows, i, j));
        assert(!Seq::<usize>::empty().contains(i as usize));
        assert(cells[j].state is Revealed);
    }
}

/// On a well-formed board the cascade never reveals a mine: every cell it
/// reaches beyond the clicked one is next to a cell with no adjacent mines,
/// so it cannot hold one itself.
pub proof fn lemma_cascade_avoids_mines(f: &Field, pos: int, k: int)
    requires
        f.wf(),
        cascade_reaches(f@, f.config.columns as int, f.config.rows as int, pos, k),
        k != pos,
    ensures
        0 <= k < f@.len(),
        !(f@[k].cell_type is Mine),
{
    let ci = f.config.columns as int;
    let ri = f.config.rows as int;
    let p = choose|p: Seq<int>|
        cascade_path(f@, ci, ri, p) && p.first() == pos && p.last() == k;
    assert(p.len() >= 2) by {
        if p.len() == 1 {
            assert(p.first() == p.last());
        }
    }
    let q = p[p.len() - 2];
    assert(spreads(f@, q) && adjacent(ci, ri, q, p.last()));
    assert(adj_mine_count(f@, ci, ri, q) == 0);
    lemma_zero_count_no_adjacent_mine(f@, ci, ri, q, k);
}

/// Revealing never respects a flag: a flagged cell is treated like a hidden
/// one, so revealing it reports its content and leaves it revealed.
pub proof fn lemma_reveal_ignores_flag(cells: Seq<FieldCell>, cols: int, rows: int, pos: int)
    requires
        0 <= pos < cells.len(),
        cells[pos].state is Flagged,
    ensures
        spec_reveal_outcome(cells, pos) != RevealOutcome::AlreadyRevealed,
        spec_reveal(cells, cols, rows, pos)[pos].state is Revealed,
{
    if spreads(cells, pos) {
        lemma_reach_self(cells, cols, rows, pos);
    }
}

impl Field {
    /// The reveal command. An out-of-range index, or a cell that is already
    /// revealed, changes nothing and reports `AlreadyRevealed`. Otherwise the
    /// cell is revealed — a flag does not block revealing — and the outcome
    /// reports whether it held a mine; when the cell is empty with no
    /// adjacent mines, every cell reachable through such cells is revealed
    /// with it, mines staying hidden because a spreading cell has none next
    /// to it.
    pub fn reveal_cell(&mut self, pos: usize) -> (outcome: RevealOutcome)
        requires
            old(self).wf(),
        ensures
            final(self).wf(),
            final(self).config == old(self).config,
            final(self)@ == spec_reveal(
                old(self)@,
                old(self).config.columns as int,
                old(self).config.rows as int,
                pos as int,
            ),
            outcome == spec_reveal_outcome(old(self)@, pos as int),
            pos < old(self)@.len() && old(self)@[pos as int].state is Revealed ==> final(self)@
                == old(self)@ && outcome == RevealOutcome::AlreadyRevealed,
    {
        let ghost s0 = self@;
        let ghost ci = self.config.columns as int;
        let ghost ri = self.config.rows as int;
        if pos >= self.cells.len() {
            return RevealOutcome::AlreadyRevealed;
        }
        let cell = self.cells[pos];
        match cell.state {
            FieldCellState::Revealed => {
                return RevealOutcome::AlreadyRevealed;
            },
            _ => {},
        }
        self.cells[pos] = FieldCell { state: FieldCellState::Revealed, cell_type: cell.cell_type };
        proof {
            lemma_count_mines_pointwise(self@, s0);
            lemma_same_mines_same_adj_counts(self@, s0, ci, ri);
        }
        match cell.cell_type {
            FieldCellType::Mine => {
                return RevealOutcome::Mine;
            },
            FieldCellType::Empty(n) => {
                if n > 0 {
                    return RevealOutcome::Safe;
                }
            },
        }
        // The clicked cell spreads the cascade: flood the reachable region.
        let mut stack: Vec<usize> = Vec::new();
        stack.push(pos);
        proof {
            lemma_reach_self(s0, ci, ri, pos as int);
            assert(stack@[0] == pos);
            assert forall|i: int, j: int|
                spreads(s0, i) && self@[i].state is Revealed && !stack@.contains(i as usize)
                    && #[trigger] adjacent(ci, ri, i, j) implies self@[j].state is Revealed by {
                if i != pos {
                    assert(self@[i] == s0[i]);
                    assert(false);
                } else {
                    assert(stack@.contains(pos));
                    assert(false);
                }
            }
        }
        while stack.len() > 0
            invariant
                self.config == old(self).config,
                self.config.valid(),
                ci == self.config.columns as int,
                ri == self.config.rows as int,
                s0 == old(self)@,
                self@.len() == s0.len(),
                s0.len() == ri * ci,
                pos < s0.len(),
                spreads(s0, pos as int),
                self@[pos as int].state is Revealed,
                forall|k: int|
                    0 <= k < s0.len() ==> ((#[trigger] self@[k]) == s0[k] || self@[k]
                        == revealed_cell(s0[k])),
                forall|k: int|
                    0 <= k < s0.len() && (#[trigger] self@[k]).state is Revealed ==> (
                    s0[k].state is Revealed || cascade_reaches(s0, ci, ri, pos as int, k)),
                forall|m: int|
                    0 <= m < stack@.len() ==> stack_entry_ok(s0, ci, ri, pos as int, #[trigger] stack@[m]),
                closed_except(s0, self@, ci, ri, stack@),
            decreases count_unrevealed(self@) + stack@.len(),
        {
            let ghost m0 = count_unrevealed(self@) + stack@.len();
            let ghost stack_head = stack@;
            proof {
                lemma_count_unrevealed_bounds(self@);
            }
            let i = match stack.pop() {
                Some(i) => i,
                None => {
                    proof {
                        assert(false);
                    }
                    0
                },
            };
            proof {
                assert(stack@.push(i) =~= stack_head);
            }
            let nbrs = neighbors(self.config.columns, self.config.rows, i);
            let mut t: usize = 0;
            while t < nbrs.len()
                invariant
                    self.config == old(self).config,
                    self.config.valid(),
                    ci == self.config.columns as int,
                    ri == self.config.rows as int,
                    s0 == old(self)@,
                    self@.len() == s0.len(),
                    s0.len() == ri * ci,
                    pos < s0.len(),
                    spreads(s0, pos as int),
                    self@[pos as int].state is Revealed,
                    t <= nbrs@.len(),
                    (i as int) < s0.len(),
                    spreads(s0, i as int),
                    cascade_reaches(s0, ci, ri, pos as int, i as int),
                    forall|m: int|
                        0 <= m < nbrs@.len() ==> adjacent(
                            ci,
                            ri,
                            i as int,
                            (#[trigger] nbrs@[m]) as int,
                        ),
                    forall|j: int|
                        #[trigger] adjacent(ci, ri, i as int, j) ==> nbrs@.contains(j as usize),
                    forall|m: int|
                        0 <= m < t ==> self@[(#[trigger] nbrs@[m]) as int].state is Revealed,
                    forall|k: int|
                        0 <= k < s0.len() ==> ((#[trigger] self@[k]) == s0[k] || self@[k]
                            == revealed_cell(s0[k])),
                    forall|k: int|
                        0 <= k < s0.len() && (#[trigger] self@[k]).state is Revealed ==> (
                        s0[k].state is Revealed || cascade_reaches(s0, ci, ri, pos as int, k)),
                    forall|m: int|
                        0 <= m < stack@.len() ==> stack_entry_ok(
                            s0,
                            ci,
                            ri,
                            pos as int,
                            #[trigger] stack@[m],
                        ),
                    closed_except(s0, self@, ci, ri, stack@.push(i)),
                    count_unrevealed(self@) + stack@.len() <= m0 - 1,
                decreases nbrs@.len() - t,
            {
                let j = nbrs[t];
                assert(adjacent(ci, ri, i as int, j as int));
                let cj = self.cells[j];
                match cj.state {
                    FieldCellState::Revealed => {},
                    _ => {
                        let ghost pre = self@;
                        let ghost stack_pre = stack@;
                        proof {
                            lemma_count_unrevealed_update(
                                self@,
                                j as int,
                                revealed_cell(s0[j as int]),
                            );
                            lemma_reach_step(s0, ci, ri, pos as int, i as int, j as int);
                        }
                        self.cells[j] = FieldCell {
                            state: FieldCellState::Revealed,
                            cell_type: cj.cell_type,
                        };
                        proof {
                            assert(self@ == pre.update(j as int, revealed_cell(s0[j as int])));
                            lemma_count_unrevealed_bounds(self@);
                        }
                        let push_it = match cj.cell_type {
                            FieldCellType::Empty(m) => m == 0,
                            FieldCellType::Mine => false,
                        };
                        if push_it {
                            stack.push(j);
                            proof {
                                assert(stack@ == stack_pre.push(j));
                                assert(spreads(s0, j as int));
                                assert forall|m: int|
                                    0 <= m < stack@.len() implies stack_entry_ok(
                                    s0,
                                    ci,
                                    ri,
                                    pos as int,
                                    #[trigger] stack@[m],
                                ) by {
                                    if m < stack_pre.len() {
                                        assert(stack@[m] == stack_pre[m]);
                                    } else {
                                        assert(stack@[m] == j);
                                    }
                                }
                            }
                        }
                        proof {
                            assert forall|a: int, b: int|
                                spreads(s0, a) && self@[a].state is Revealed && !stack@.push(
                                    i,
                                ).contains(a as usize) && #[trigger] adjacent(ci, ri, a, b)
                                implies self@[b].state is Revealed by {
                                lemma_push_contains(stack@, i, a as usize);
                                lemma_push_contains(stack_pre, i, a as usize);
                                if push_it {
                                    lemma_push_contains(stack_pre, j, a as usize);
                                }
                                if a == j as int {
                                    if push_it {
                                        assert(stack@.contains(j)) by {
                                            assert(stack@[stack@.len() - 1] == j);
                                        }
                                        assert(false);
                                    } else {
                                        assert(s0[a].cell_type == cj.cell_type);
                                        assert(false);
                                    }
                                } else {
                                    assert(self@[a] == pre[a]);
                                    assert(!stack_pre.push(i).contains(a as usize));
                                    assert(pre[b].state is Revealed);
                                    if b == j as int {
                                    } else {
                                        assert(self@[b] == pre[b]);
                                    }
                                }
                            }
                        }
                    },
                }
                t += 1;
            }
            proof {
                assert forall|b: int| #[trigger]
                    adjacent(ci, ri, i as int, b) implies self@[b].state is Revealed by {
                    assert(nbrs@.contains(b as usize));
                    let m = choose|m: int| 0 <= m < nbrs@.len() && nbrs@[m] == b as usize;
                    assert(self@[nbrs@[m] as int].state is Revealed);
                }
                assert forall|a: int, b: int|
                    spreads(s0, a) && self@[a].state is Revealed && !stack@.contains(a as usize)
                        && #[trigger] adjacent(ci, ri, a, b) implies self@[b].state
                    is Revealed by {
                    if a != i as int {
                        lemma_push_contains(stack@, i, a as usize);
                        assert(!stack@.push(i).contains(a as usize));
                    }
                }
                lemma_count_unrevealed_bounds(self@);
            }
        }
        proof {
            assert(stack@ =~= Seq::<usize>::empty());
            assert forall|k: int|
                0 <= k < s0.len() && cascade_reaches(s0, ci, ri, pos as int, k) implies (
            #[trigger] self@[k]).state is Revealed by {
                let p = choose|p: Seq<int>|
                    cascade_path(s0, ci, ri, p) && p.first() == pos as int && p.last() == k;
                lemma_path_revealed(s0, self@, ci, ri, p);
            }
            let target = spec_reveal(s0, ci, ri, pos as int);
            assert forall|k: int| 0 <= k < s0.len() implies self@[k] == target[k] by {
                if s0[k].state is Revealed {
                    assert(revealed_cell(s0[k]) == s0[k]);
                } else if cascade_reaches(s0, ci, ri, pos as int, k) {
                    assert(self@[k].state is Revealed);
                    assert(self@[k] == revealed_cell(s0[k]));
                } else {
                    assert(!(self@[k].state is Revealed));
                    assert(self@[k] == s0[k]);
                }
            }
            assert(self@ =~= target);
            lemma_count_mines_pointwise(self@, s0);
            lemma_same_mines_same_adj_counts(self@, s0, ci, ri);
        }
        RevealOutcome::Safe
    }
}

} // verus!
