//! The board itself: its immutable configuration, its dense row-major grid
//! of cells, the well-formedness invariant that construction establishes and
//! every command preserves, and the flag command.

use vstd::prelude::*;

use crate::cell::{FieldCell, FieldCellState, FieldCellType};
use crate::rng::random_below;
use crate::grid::{adj_mine_count, lemma_index_bound, lemma_index_of, lemma_row_bound,
    lemma_row_col, mine_at, mine_ind, row_of, col_of};

verus! {

/// Per-game parameters, fixed at construction.
#[derive(Clone, Copy, Debug)]
pub struct GameConfig {
    pub rows: usize,
    pub columns: usize,
    pub mines: usize,
}

impl GameConfig {
    /// A playable configuration: a non-empty grid whose cell count fits in a
    /// `usize` and no more mines than cells.
    pub open spec fn valid(&self) -> bool {
        &&& self.rows >= 1
        &&& self.columns >= 1
        &&& self.rows * self.columns <= usize::MAX
        &&& self.mines <= self.rows * self.columns
    }

    /// Decides `valid` at run time.
    pub fn is_valid(&self) -> (b: bool)
        ensures
            b == self.valid(),
    {
        match self.rows.checked_mul(self.columns) {
            Some(size) => self.rows >= 1 && self.columns >= 1 && self.mines <= size,
            None => false,
        }
    }

    /// The classic 9 x 9 board with 10 mines.
    pub fn beginner() -> (c: GameConfig)
        ensures
            c == (GameConfig { rows: 9, columns: 9, mines: 10 }),
            c.valid(),
    {
        GameConfig { rows: 9, columns: 9, mines: 10 }
    }

    /// The classic 16 x 16 board with 40 mines.
    pub fn intermediate() -> (c: GameConfig)
        ensures
            c == (GameConfig { rows: 16, columns: 16, mines: 40 }),
            c.valid(),
    {
        GameConfig { rows: 16, columns: 16, mines: 40 }
    }

    /// The classic 16 x 30 board with 99 mines.
    pub fn expert() -> (c: GameConfig)
        ensures
            c == (GameConfig { rows: 16, columns: 30, mines: 99 }),
            c.valid(),
    {
        GameConfig { rows: 16, columns: 30, mines: 99 }
    }
}

/// Why a construction request was rejected.
#[derive(Clone, Copy, Debug, PartialEq, Eq, Structural)]
pub enum FieldError {
    /// Zero rows or columns, an overflowing cell count, or more mines than
    /// cells.
    InvalidConfig,
    /// An empty textual layout, an empty row, or rows of unequal length.
    InvalidLayout,
}

/// What revealing a cell reports back to the caller.
#[derive(Clone, Copy, Debug, PartialEq, Eq, Structural)]
pub enum RevealOutcome {
    /// The cell was already revealed (or the index was out of range); nothing
    /// changed.
    AlreadyRevealed,
    /// The cell held no mine.
    Safe,
    /// The cell held a mine.
    Mine,
}

/// The number of mine cells in a grid.
pub open spec fn count_mines(cells: Seq<FieldCell>) -> int
    decreases cells.len(),
{
    if cells.len() == 0 {
        0
    } else {
        count_mines(cells.drop_last()) + if cells.last().cell_type is Mine {
            1int
        } else {
            0int
        }
    }
}

/// Appending a cell adds one to the mine count exactly when it is a mine.
pub proof fn lemma_count_mines_push(s: Seq<FieldCell>, c: FieldCell)
    ensures
        count_mines(s.push(c)) == count_mines(s) + if c.cell_type is Mine {
            1int
        } else {
            0int
        },
{
    assert(s.push(c).drop_last() =~= s);
    assert(s.push(c).last() == c);
}

/// Grids whose cells are mines at the same positions have the same mine
/// count, whatever their states and stored counts.
pub proof fn lemma_count_mines_pointwise(s1: Seq<FieldCell>, s2: Seq<FieldCell>)
    requires
        s1.len() == s2.len(),
        forall|k: int|
            0 <= k < s1.len() ==> ((#[trigger] s1[k]).cell_type is Mine <==> (
            #[trigger] s2[k]).cell_type is Mine),
    ensures
        count_mines(s1) == count_mines(s2),
    decreases s1.len(),
{
    if s1.len() > 0 {
        lemma_count_mines_pointwise(s1.drop_last(), s2.drop_last());
    }
}

/// Turning a non-mine cell into a mine raises the mine count by one.
pub proof fn lemma_count_mines_update_to_mine(s: Seq<FieldCell>, k: int, c: FieldCell)
    requires
        0 <= k < s.len(),
        !(s[k].cell_type is Mine),
        c.cell_type is Mine,
    ensures
        count_mines(s.update(k, c)) == count_mines(s) + 1,
    decreases s.len(),
{
    if k == s.len() - 1 {
        assert(s.update(k, c).drop_last() =~= s.drop_last());
    } else {
        assert(s.update(k, c).drop_last() =~= s.drop_last().update(k, c));
        lemma_count_mines_update_to_mine(s.drop_last(), k, c);
    }
}

/// The mine count of a grid lies between zero and its length.
pub proof fn lemma_count_mines_bounds(s: Seq<FieldCell>)
    ensures
        0 <= count_mines(s) <= s.len(),
    decreases s.len(),
{
    if s.len() > 0 {
        lemma_count_mines_bounds(s.drop_last());
    }
}

/// Grids whose cells are mines at the same positions agree on every
/// adjacency count.
pub proof fn lemma_same_mines_same_adj_counts(
    s1: Seq<FieldCell>,
    s2: Seq<FieldCell>,
    cols: int,
    rows: int,
)
    requires
        s1.len() == s2.len(),
        forall|k: int|
            0 <= k < s1.len() ==> ((#[trigger] s1[k]).cell_type is Mine <==> (
            #[trigger] s2[k]).cell_type is Mine),
    ensures
        forall|i: int|
            #[trigger] adj_mine_count(s1, cols, rows, i) == adj_mine_count(s2, cols, rows, i),
{
    assert forall|r: int, c: int|
        #[trigger] mine_ind(s1, cols, rows, r, c) == mine_ind(s2, cols, rows, r, c) by {
        if 0 <= r < rows && 0 <= c < cols {
            if 0 <= r * cols + c < s1.len() {
                assert(s1[r * cols + c].cell_type is Mine <==> s2[r * cols + c].cell_type
                    is Mine);
            }
        }
    }
    assert forall|i: int|
        #[trigger] adj_mine_count(s1, cols, rows, i) == adj_mine_count(s2, cols, rows, i) by {
        let r = row_of(i, cols);
        let c = col_of(i, cols);
        assert(mine_ind(s1, cols, rows, r - 1, c - 1) == mine_ind(s2, cols, rows, r - 1, c - 1));
        assert(mine_ind(s1, cols, rows, r - 1, c) == mine_ind(s2, cols, rows, r - 1, c));
        assert(mine_ind(s1, cols, rows, r - 1, c + 1) == mine_ind(s2, cols, rows, r - 1, c + 1));
        assert(mine_ind(s1, cols, rows, r, c - 1) == mine_ind(s2, cols, rows, r, c - 1));
        assert(mine_ind(s1, cols, rows, r, c + 1) == mine_ind(s2, cols, rows, r, c + 1));
        assert(mine_ind(s1, cols, rows, r + 1, c - 1) == mine_ind(s2, cols, rows, r + 1, c - 1));
        assert(mine_ind(s1, cols, rows, r + 1, c) == mine_ind(s2, cols, rows, r + 1, c));
        assert(mine_ind(s1, cols, rows, r + 1, c + 1) == mine_ind(s2, cols, rows, r + 1, c + 1));
    }
}

/// The board: its configuration and its cells, row-major, one per grid
/// position.
pub struct Field {
    pub config: GameConfig,
    pub cells: Vec<FieldCell>,
}

impl View for Field {
    type V = Seq<FieldCell>;

    open spec fn view(&self) -> Seq<FieldCell> {
        self.cells@
    }
}

impl Field {
    /// The invariant every constructor establishes and every command
    /// preserves: a valid configuration, one cell per grid position, exactly
    /// `mines` mine cells, and every empty cell carrying the exact number of
    /// mines among its existing neighbors.
    pub open spec fn wf(&self) -> bool {
        &&& self.config.valid()
        &&& self@.len() == self.config.rows * self.config.columns
        &&& count_mines(self@) == self.config.mines
        &&& forall|i: int|
            0 <= i < self@.len() ==> ((#[trigger] self@[i]).cell_type matches FieldCellType::Empty(n)
                ==> n == adj_mine_count(
                self@,
                self.config.columns as int,
                self.config.rows as int,
                i,
            ))
    }

    /// The number of grid rows.
    pub fn rows(&self) -> (r: usize)
        ensures
            r == self.config.rows,
    {
        self.config.rows
    }

    /// The number of grid columns.
    pub fn columns(&self) -> (c: usize)
        ensures
            c == self.config.columns,
    {
        self.config.columns
    }

    /// The number of mines placed at construction.
    pub fn mine_count(&self) -> (m: usize)
        ensures
            m == self.config.mines,
    {
        self.config.mines
    }

    /// Whether the cell at `k` holds a mine.
    fn is_mine(&self, k: usize) -> (b: bool)
        requires
            k < self@.len(),
        ensures
            b == mine_at(self@, k as int),
    {
        match self.cells[k].cell_type {
            FieldCellType::Mine => true,
            FieldCellType::Empty(_) => false,
        }
    }

    /// Counts the mines among the existing neighbors of `pos`.
    #[verifier::rlimit(80)]
    fn count_adjacent(&self, pos: usize) -> (n: u32)
        requires
            self.config.rows >= 1,
            self.config.columns >= 1,
            self.config.rows * self.config.columns <= usize::MAX,
            self@.len() == self.config.rows * self.config.columns,
            pos < self@.len(),
        ensures
            n as int == adj_mine_count(
                self@,
                self.config.columns as int,
                self.config.rows as int,
                pos as int,
            ),
            n <= 8,
    {
        let cols = self.config.columns;
        let rows = self.config.rows;
        let ghost ci = cols as int;
        let ghost ri = rows as int;
        let ghost s = self@;
        proof {
            lemma_row_col(pos as int, ci);
            lemma_row_bound(pos as int, ri, ci);
        }
        let r = pos / cols;
        let c = pos % cols;
        let ghost rr = r as int;
        let ghost cc = c as int;
        let has_left = c >= 1;
        let has_right = c + 1 < cols;
        let mut n: u32 = 0;
        if r >= 1 {
            proof {
                assert((rr - 1) * ci == rr * ci - ci) by (nonlinear_arith);
                assert((rr - 1) * ci >= 0) by (nonlinear_arith)
                    requires
                        rr >= 1,
                        ci >= 1,
                ;
                lemma_index_bound(rr - 1, cc, ri, ci);
                if cc + 1 < ci {
                    lemma_index_bound(rr - 1, cc + 1, ri, ci);
                }
            }
            let up = pos - cols;
            if has_left && self.is_mine(up - 1) {
                n += 1;
            }
            assert(n as int == mine_ind(s, ci, ri, rr - 1, cc - 1));
            if self.is_mine(up) {
                n += 1;
            }
            if has_right && self.is_mine(up + 1) {
                n += 1;
            }
        }
        assert(n as int == mine_ind(s, ci, ri, rr - 1, cc - 1) + mine_ind(s, ci, ri, rr - 1, cc)
            + mine_ind(s, ci, ri, rr - 1, cc + 1));
        if has_left && self.is_mine(pos - 1) {
            n += 1;
        }
        proof {
            if cc + 1 < ci {
                lemma_index_bound(rr, cc + 1, ri, ci);
            }
        }
        if has_right && self.is_mine(pos + 1) {
            n += 1;
        }
        assert(n as int == mine_ind(s, ci, ri, rr - 1, cc - 1) + mine_ind(s, ci, ri, rr - 1, cc)
            + mine_ind(s, ci, ri, rr - 1, cc + 1) + mine_ind(s, ci, ri, rr, cc - 1) + mine_ind(
            s,
            ci,
            ri,
            rr,
            cc + 1,
        ));
        if r + 1 < rows {
            proof {
                assert((rr + 1) * ci == rr * ci + ci) by (nonlinear_arith);
                lemma_index_bound(rr + 1, cc, ri, ci);
                if cc + 1 < ci {
                    lemma_index_bound(rr + 1, cc + 1, ri, ci);
                }
            }
            let down = pos + cols;
            if has_left && self.is_mine(down - 1) {
                n += 1;
            }
            if self.is_mine(down) {
                n += 1;
            }
            if has_right && self.is_mine(down + 1) {
                n += 1;
            }
        }
        assert(n as int == adj_mine_count(s, ci, ri, pos as int));
        n
    }

    /// Overwrites every empty cell's stored count with the exact number of
    /// mines among its neighbors, leaving kinds and states alone. Safe to
    /// re-run; construction runs it once.
    fn compute_field(&mut self)
        requires
            old(self).config.valid(),
            old(self)@.len() == old(self).config.rows * old(self).config.columns,
        ensures
            final(self).config == old(self).config,
            final(self)@.len() == old(self)@.len(),
            forall|k: int|
                0 <= k < final(self)@.len() ==> (#[trigger] final(self)@[k]).state == old(
                    self,
                )@[k].state,
            forall|k: int|
                0 <= k < final(self)@.len() ==> ((#[trigger] final(self)@[k]).cell_type is Mine <==> old(
                    self,
                )@[k].cell_type is Mine),
            forall|k: int|
                0 <= k < final(self)@.len() ==> (old(self)@[k].cell_type is Mine
                    ==> #[trigger] final(self)@[k] == old(self)@[k]),
            forall|k: int|
                0 <= k < final(self)@.len() ==> (!(old(self)@[k].cell_type is Mine)
                    ==> (#[trigger] final(self)@[k]).cell_type == FieldCellType::Empty(
                    adj_mine_count(
                        final(self)@,
                        old(self).config.columns as int,
                        old(self).config.rows as int,
                        k,
                    ) as u32,
                )),
    {
        let len = self.cells.len();
        let ghost s0 = self@;
        let ghost ci = self.config.columns as int;
        let ghost ri = self.config.rows as int;
        let mut i: usize = 0;
        while i < len
            invariant
                i <= len,
                len == self@.len(),
                self.config == old(self).config,
                self.config.valid(),
                self@.len() == s0.len(),
                s0 == old(self)@,
                s0.len() == self.config.rows * self.config.columns,
                ci == self.config.columns as int,
                ri == self.config.rows as int,
                forall|k: int| 0 <= k < s0.len() ==> (#[trigger] self@[k]).state == s0[k].state,
                forall|k: int|
                    0 <= k < s0.len() ==> ((#[trigger] self@[k]).cell_type is Mine <==> s0[k].cell_type
                        is Mine),
                forall|k: int|
                    0 <= k < s0.len() ==> (s0[k].cell_type is Mine ==> #[trigger] self@[k] == s0[k]),
                forall|k: int| i <= k < s0.len() ==> #[trigger] self@[k] == s0[k],
                forall|k: int|
                    0 <= k < i ==> (!(s0[k].cell_type is Mine) ==> (#[trigger] self@[k]).cell_type
                        == FieldCellType::Empty(adj_mine_count(s0, ci, ri, k) as u32)),
            decreases len - i,
        {
            let cell = self.cells[i];
            match cell.cell_type {
                FieldCellType::Mine => {},
                FieldCellType::Empty(_) => {
                    proof {
                        lemma_same_mines_same_adj_counts(self@, s0, ci, ri);
                    }
                    let n = self.count_adjacent(i);
                    self.cells[i] = FieldCell { state: cell.state, cell_type: FieldCellType::Empty(n) };
                },
            }
            i += 1;
        }
        proof {
            lemma_same_mines_same_adj_counts(self@, s0, ci, ri);
        }
    }

    /// The flag command: hidden cells become flagged, flagged cells hidden;
    /// a revealed cell, or an out-of-range index, is left alone.
    pub fn toggle_flag(&mut self, pos: usize)
        requires
            old(self).wf(),
        ensures
            final(self).wf(),
            final(self).config == old(self).config,
            pos < old(self)@.len() ==> final(self)@ == old(self)@.update(
                pos as int,
                spec_toggle_flag(old(self)@[pos as int]),
            ),
            pos < old(self)@.len() && old(self)@[pos as int].state is Revealed ==> final(self)@
                == old(self)@,
            pos >= old(self)@.len() ==> final(self)@ == old(self)@,
    {
        if pos < self.cells.len() {
            let cell = self.cells[pos];
            let toggled = match cell.state {
                FieldCellState::Hidden => FieldCell {
                    state: FieldCellState::Flagged,
                    cell_type: cell.cell_type,
                },
                FieldCellState::Flagged => FieldCell {
                    state: FieldCellState::Hidden,
                    cell_type: cell.cell_type,
                },
                FieldCellState::Revealed => cell,
            };
            self.cells[pos] = toggled;
            proof {
                lemma_count_mines_pointwise(self@, old(self)@);
                lemma_same_mines_same_adj_counts(self@, old(self)@, self.config.columns as int, self.config.rows as int);
            }
        }
    }
}

/// A usable textual layout: at least one row, a non-empty first row, and
/// every row as long as the first.
pub open spec fn layout_ok(text: Seq<&str>) -> bool {
    &&& text.len() >= 1
    &&& text[0]@.len() >= 1
    &&& forall|y: int| 0 <= y < text.len() ==> (#[trigger] text[y])@.len() == text[0]@.len()
}

impl Field {
    /// Random construction: rejects an unplayable configuration, then draws
    /// `mines` distinct cell indices without replacement, marks them as
    /// mines, and computes every empty cell's adjacency count. Every cell
    /// starts hidden.
    pub fn new(config: &GameConfig) -> (r: Result<Field, FieldError>)
        ensures
            r is Ok <==> config.valid(),
            r matches Ok(f) ==> f.wf() && f.config == *config && (forall|k: int|
                0 <= k < f@.len() ==> (#[trigger] f@[k]).state is Hidden),
            r matches Err(e) ==> e == FieldError::InvalidConfig,
    {
        if !config.is_valid() {
            return Err(FieldError::InvalidConfig);
        }
        let size = config.rows * config.columns;
        let blank = FieldCell { state: FieldCellState::Hidden, cell_type: FieldCellType::Empty(0) };
        let mut cells: Vec<FieldCell> = Vec::with_capacity(size);
        let mut i: usize = 0;
        while i < size
            invariant
                i <= size,
                cells@.len() == i,
                count_mines(cells@) == 0,
                forall|k: int| 0 <= k < i ==> #[trigger] cells@[k] == blank,
                blank == (FieldCell {
                    state: FieldCellState::Hidden,
                    cell_type: FieldCellType::Empty(0),
                }),
            decreases size - i,
        {
            let ghost pre = cells@;
            cells.push(blank);
            proof {
                lemma_count_mines_push(pre, blank);
            }
            i += 1;
        }
        // Sample without replacement: walking the grid once, cell `j` becomes
        // a mine with probability `remaining / (size - j)`, which places
        // exactly `mines` mines, each subset of cells equally likely.
        let mut remaining: usize = config.mines;
        let mut j: usize = 0;
        while j < size
            invariant
                j <= size,
                cells@.len() == size,
                remaining <= size - j,
                remaining + count_mines(cells@) == config.mines,
                forall|k: int| 0 <= k < size ==> (#[trigger] cells@[k]).state is Hidden,
                forall|k: int|
                    0 <= k < size ==> (cells@[k].cell_type is Mine || #[trigger] cells@[k] == blank),
                forall|k: int| j <= k < size ==> !((#[trigger] cells@[k]).cell_type is Mine),
                blank == (FieldCell {
                    state: FieldCellState::Hidden,
                    cell_type: FieldCellType::Empty(0),
                }),
            decreases size - j,
        {
            let draw = random_below(size - j);
            if draw < remaining {
                let mine = FieldCell { state: FieldCellState::Hidden, cell_type: FieldCellType::Mine };
                proof {
                    lemma_count_mines_update_to_mine(cells@, j as int, mine);
                }
                cells[j] = mine;
                remaining -= 1;
            }
            j += 1;
        }
        let mut field = Field { config: *config, cells };
        let ghost placed = field@;
        field.compute_field();
        proof {
            lemma_count_mines_pointwise(field@, placed);
            lemma_count_mines_bounds(field@);
        }
        Ok(field)
    }

    /// Deterministic construction from one string per row, `'x'` marking a
    /// mine and any other character an empty cell; the configuration is
    /// derived from the text's shape. Every cell starts hidden.
    pub fn from(field_text: Vec<&str>) -> (r: Result<Field, FieldError>)
        ensures
            r is Ok <==> layout_ok(field_text@) && field_text@.len() * field_text@[0]@.len()
                <= usize::MAX,
            r matches Ok(f) ==> {
                &&& f.wf()
                &&& f.config.rows == field_text@.len()
                &&& f.config.columns == field_text@[0]@.len()
                &&& forall|k: int| 0 <= k < f@.len() ==> (#[trigger] f@[k]).state is Hidden
                &&& forall|k: int|
                    0 <= k < f@.len() ==> ((#[trigger] f@[k]).cell_type is Mine <==> field_text@[
                        row_of(k, f.config.columns as int)
                    ]@[col_of(k, f.config.columns as int)] == 'x')
                &&& forall|y: int, x: int|
                    0 <= y < f.config.rows && 0 <= x < f.config.columns ==> ((#[trigger] f@[y
                        * f.config.columns + x]).cell_type is Mine <==> field_text@[y]@[x] == 'x')
            },
            r matches Err(e) ==> e == FieldError::InvalidLayout,
    {
        let rows = field_text.len();
        if rows == 0 {
            return Err(FieldError::InvalidLayout);
        }
        let cols = field_text[0].unicode_len();
        if cols == 0 {
            return Err(FieldError::InvalidLayout);
        }
        let mut y: usize = 0;
        while y < rows
            invariant
                y <= rows,
                rows == field_text@.len(),
                cols == field_text@[0]@.len(),
                forall|q: int| 0 <= q < y ==> (#[trigger] field_text@[q])@.len() == cols,
            decreases rows - y,
        {
            if field_text[y].unicode_len() != cols {
                return Err(FieldError::InvalidLayout);
            }
            y += 1;
        }
        let size = match rows.checked_mul(cols) {
            Some(size) => size,
            None => {
                return Err(FieldError::InvalidLayout);
            },
        };
        let ghost ci = cols as int;
        let ghost ri = rows as int;
        let mut cells: Vec<FieldCell> = Vec::with_capacity(size);
        let mut mines: usize = 0;
        let mut y: usize = 0;
        while y < rows
            invariant
                y <= rows,
                rows == field_text@.len(),
                cols == field_text@[0]@.len(),
                cols >= 1,
                ci == cols as int,
                ri == rows as int,
                rows * cols == size,
                size <= usize::MAX,
                forall|q: int| 0 <= q < rows ==> (#[trigger] field_text@[q])@.len() == cols,
                cells@.len() == y * ci,
                mines == count_mines(cells@),
                forall|k: int| 0 <= k < cells@.len() ==> (#[trigger] cells@[k]).state is Hidden,
                forall|k: int|
                    0 <= k < cells@.len() ==> ((#[trigger] cells@[k]).cell_type is Mine
                        <==> field_text@[row_of(k, ci)]@[col_of(k, ci)] == 'x'),
                forall|k: int|
                    0 <= k < cells@.len() ==> ((#[trigger] cells@[k]).cell_type is Mine
                        || cells@[k].cell_type == FieldCellType::Empty(0u32)),
            decreases rows - y,
        {
            proof {
                lemma_index_bound(y as int, 0, ri, ci);
            }
            let line = field_text[y];
            let mut x: usize = 0;
            while x < cols
                invariant
                    x <= cols,
                    y < rows,
                    rows == field_text@.len(),
                    cols == field_text@[0]@.len(),
                    cols >= 1,
                    ci == cols as int,
                    ri == rows as int,
                    rows * cols == size,
                    size <= usize::MAX,
                    line == field_text@[y as int],
                    line@.len() == cols,
                    forall|q: int| 0 <= q < rows ==> (#[trigger] field_text@[q])@.len() == cols,
                    cells@.len() == y * ci + x,
                    mines == count_mines(cells@),
                    forall|k: int| 0 <= k < cells@.len() ==> (#[trigger] cells@[k]).state is Hidden,
                    forall|k: int|
                        0 <= k < cells@.len() ==> ((#[trigger] cells@[k]).cell_type is Mine
                            <==> field_text@[row_of(k, ci)]@[col_of(k, ci)] == 'x'),
                    forall|k: int|
                        0 <= k < cells@.len() ==> ((#[trigger] cells@[k]).cell_type is Mine
                            || cells@[k].cell_type == FieldCellType::Empty(0u32)),
                decreases cols - x,
            {
                proof {
                    lemma_index_bound(y as int, x as int, ri, ci);
                    lemma_index_of(y as int, x as int, ci);
                    lemma_count_mines_bounds(cells@);
                }
                let ch = line.get_char(x);
                let cell = if ch == 'x' {
                    FieldCell { state: FieldCellState::Hidden, cell_type: FieldCellType::Mine }
                } else {
                    FieldCell { state: FieldCellState::Hidden, cell_type: FieldCellType::Empty(0) }
                };
                let ghost pre = cells@;
                cells.push(cell);
                if ch == 'x' {
                    mines += 1;
                }
                proof {
                    lemma_count_mines_push(pre, cell);
                }
                x += 1;
            }
            proof {
                assert((y + 1) * ci == y * ci + ci) by (nonlinear_arith);
            }
            y += 1;
        }
        let config = GameConfig { rows, columns: cols, mines };
        proof {
            lemma_count_mines_bounds(cells@);
        }
        let mut field = Field { config, cells };
        let ghost placed = field@;
        field.compute_field();
        proof {
            lemma_count_mines_pointwise(field@, placed);
            assert forall|yy: int, xx: int|
                0 <= yy < rows && 0 <= xx < cols implies ((#[trigger] field@[yy * ci
                + xx]).cell_type is Mine <==> field_text@[yy]@[xx] == 'x') by {
                lemma_index_bound(yy, xx, ri, ci);
                lemma_index_of(yy, xx, ci);
            }
        }
        Ok(field)
    }
}

/// What the flag command does to one cell.
pub open spec fn spec_toggle_flag(cell: FieldCell) -> FieldCell {
    match cell.state {
        FieldCellState::Hidden => FieldCell {
            state: FieldCellState::Flagged,
            cell_type: cell.cell_type,
        },
        FieldCellState::Flagged => FieldCell {
            state: FieldCellState::Hidden,
            cell_type: cell.cell_type,
        },
        FieldCellState::Revealed => cell,
    }
}

/// Toggling a flag twice on any in-range cell returns the board to exactly
/// its previous state: a hidden cell goes through flagged back to hidden, a
/// flagged one through hidden back to flagged, a revealed one never moves.
/// The sequence below is the grid after two `toggle_flag` calls at `pos`, as
/// `toggle_flag`'s contract describes them.
pub proof fn lemma_toggle_flag_twice(cells: Seq<FieldCell>, pos: int)
    requires
        0 <= pos < cells.len(),
    ensures
        cells.update(pos, spec_toggle_flag(cells[pos])).update(
            pos,
            spec_toggle_flag(spec_toggle_flag(cells[pos])),
        ) == cells,
{
    assert(spec_toggle_flag(spec_toggle_flag(cells[pos])) == cells[pos]);
    assert(cells.update(pos, spec_toggle_flag(cells[pos])).update(pos, cells[pos]) =~= cells);
}

} // verus!
