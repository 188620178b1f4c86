//! Read-only projections of the board: the styled text block, the plain
//! ASCII block, the per-row styled lines, the numeric matrix, and the
//! configuration banner. None of them mutates the grid, and each output
//! character is pinned down by the per-cell rendering specs.

use vstd::prelude::*;

use crate::cell::{digit_char, digit_str, FieldCell};
use crate::field::{Field, GameConfig};
use crate::grid::lemma_index_bound;

verus! {

/// The ASCII rendering of the first `n` cells: one character per cell, a
/// newline before each row but the first.
pub open spec fn ascii_text_prefix(
    cells: Seq<FieldCell>,
    cols: int,
    force: bool,
    n: int,
) -> Seq<char>
    decreases n,
{
    if n <= 0 {
        Seq::empty()
    } else {
        ascii_text_prefix(cells, cols, force, n - 1) + (if n - 1 > 0 && (n - 1) % cols == 0 {
            seq!['\n']
        } else {
            Seq::<char>::empty()
        }) + seq![cells[n - 1].ascii_char(force)]
    }
}

/// The whole grid as one ASCII block.
pub open spec fn ascii_text(cells: Seq<FieldCell>, cols: int, force: bool) -> Seq<char> {
    ascii_text_prefix(cells, cols, force, cells.len() as int)
}

/// The styled rendering of the first `n` cells: a newline before each row
/// but the first, two spaces of left padding at each row start, then one
/// glyph per cell. The whole block opens with a newline.
pub open spec fn styled_text_prefix(
    cells: Seq<FieldCell>,
    cols: int,
    force: bool,
    n: int,
) -> Seq<char>
    decreases n,
{
    if n <= 0 {
        seq!['\n']
    } else {
        styled_text_prefix(cells, cols, force, n - 1) + (if n - 1 > 0 && (n - 1) % cols == 0 {
            seq!['\n']
        } else {
            Seq::<char>::empty()
        }) + (if (n - 1) % cols == 0 {
            seq![' ', ' ']
        } else {
            Seq::<char>::empty()
        }) + seq![cells[n - 1].unicode_char(force)]
    }
}

/// The whole grid as one styled block, closed by a newline.
pub open spec fn styled_text(cells: Seq<FieldCell>, cols: int, force: bool) -> Seq<char> {
    styled_text_prefix(cells, cols, force, cells.len() as int) + seq!['\n']
}

/// Row `y` of the styled line renderer: one glyph per cell.
pub open spec fn unicode_row(cells: Seq<FieldCell>, cols: int, force: bool, y: int) -> Seq<char> {
    Seq::new(cols as nat, |x: int| cells[y * cols + x].unicode_char(force))
}

/// Row `y` of the numeric matrix: one code per cell.
pub open spec fn number_row(cells: Seq<FieldCell>, cols: int, force: bool, y: int) -> Seq<u32> {
    Seq::new(cols as nat, |x: int| cells[y * cols + x].number_code(force))
}

/// The decimal digits of `n` (with `n < 0` rendered as a single junk digit,
/// which no caller passes).
pub open spec fn dec_digits(n: int) -> Seq<char>
    decreases n,
{
    if n < 10 {
        seq![digit_char(n)]
    } else {
        dec_digits(n / 10) + seq![digit_char(n % 10)]
    }
}

/// A number in decimal.
pub fn decimal_str(n: usize) -> (r: String)
    ensures
        r@ == dec_digits(n as int),
    decreases n,
{
    if n < 10 {
        digit_str(n as u32)
    } else {
        let mut s = decimal_str(n / 10);
        let d = digit_str((n % 10) as u32);
        s.append(d.as_str());
        s
    }
}

/// The banner text for a configuration.
pub open spec fn spec_banner(c: GameConfig) -> Seq<char> {
    "--- "@ + dec_digits(c.columns as int) + " x "@ + dec_digits(c.rows as int) + " - "@
        + dec_digits(c.mines as int) + " 💣  ---"@
}

impl GameConfig {
    /// The one-line description shown above a board: columns, rows, mines.
    pub fn banner(&self) -> (r: String)
        ensures
            r@ == spec_banner(*self),
    {
        let mut s = "--- ".to_owned();
        let cols = decimal_str(self.columns);
        s.append(cols.as_str());
        s.append(" x ");
        let rows = decimal_str(self.rows);
        s.append(rows.as_str());
        s.append(" - ");
        let mines = decimal_str(self.mines);
        s.append(mines.as_str());
        s.append(" 💣  ---");
        s
    }
}

/// On a well-formed board the ASCII and styled renderers agree cell for
/// cell, for either value of the force flag, on which cells show their
/// content and which show a covered marker.
pub proof fn lemma_renderers_agree(f: &Field, force_reveal: bool)
    requires
        f.wf(),
    ensures
        forall|k: int|
            0 <= k < f@.len() ==> ((#[trigger] f@[k]).ascii_char(force_reveal) == '?'
                <==> f@[k].unicode_char(force_reveal) == '🔲'),
        forall|k: int|
            0 <= k < f@.len() ==> ((#[trigger] f@[k]).ascii_char(force_reveal) == '?'
                <==> !f@[k].shows_content(force_reveal)),
{
    assert forall|k: int| 0 <= k < f@.len() implies ((#[trigger] f@[k]).ascii_char(force_reveal)
        == '?' <==> f@[k].unicode_char(force_reveal) == '🔲') && (f@[k].ascii_char(force_reveal)
        == '?' <==> !f@[k].shows_content(force_reveal)) by {
        crate::grid::lemma_adj_mine_count_bounds(
            f@,
            f.config.columns as int,
            f.config.rows as int,
            k,
        );
        crate::cell::lemma_renderers_agree_on_cell(f@[k], force_reveal);
    }
}

impl Field {
    /// The grid as one ASCII block: `?` for covered cells (unless `show_all`
    /// opens every cell), `f` for flags, `x` for mines, `-` for empty cells
    /// with no adjacent mines, and the digit of the count otherwise.
    pub fn as_text_ascii(&self, show_all: bool) -> (r: String)
        requires
            self.wf(),
        ensures
            r@ == ascii_text(self@, self.config.columns as int, show_all),
    {
        let ghost ci = self.config.columns as int;
        let cols = self.config.columns;
        let len = self.cells.len();
        let mut text = String::new();
        let mut i: usize = 0;
        while i < len
            invariant
                i <= len,
                len == self@.len(),
                cols == self.config.columns,
                cols >= 1,
                ci == cols as int,
                text@ == ascii_text_prefix(self@, ci, show_all, i as int),
            decreases len - i,
        {
            proof {
                reveal_strlit("\n");
            }
            if i > 0 && i % cols == 0 {
                text.append("\n");
            }
            let glyph = self.cells[i].as_ascii_str(show_all);
            text.append(glyph.as_str());
            i += 1;
        }
        text
    }

    /// The grid as one styled block: a leading newline, two spaces of left
    /// padding per row, one glyph per cell, and a closing newline.
    pub fn format(&self, show_all: bool) -> (r: String)
        requires
            self.wf(),
        ensures
            r@ == styled_text(self@, self.config.columns as int, show_all),
    {
        let ghost ci = self.config.columns as int;
        let cols = self.config.columns;
        let len = self.cells.len();
        proof {
            reveal_strlit("\n");
            reveal_strlit("  ");
        }
        let mut text = "\n".to_owned();
        let mut i: usize = 0;
        while i < len
            invariant
                i <= len,
                len == self@.len(),
                cols == self.config.columns,
                cols >= 1,
                ci == cols as int,
                text@ == styled_text_prefix(self@, ci, show_all, i as int),
            decreases len - i,
        {
            proof {
                reveal_strlit("\n");
                reveal_strlit("  ");
            }
            if i > 0 && i % cols == 0 {
                text.append("\n");
            }
            if i % cols == 0 {
                text.append("  ");
            }
            let glyph = self.cells[i].as_unicode_str(show_all);
            text.append(glyph.as_str());
            i += 1;
        }
        text.append("\n");
        text
    }

    /// The grid as one styled line per row.
    pub fn as_lines(&self, show_all: bool) -> (r: Vec<String>)
        requires
            self.wf(),
        ensures
            r@.len() == self.config.rows,
            forall|y: int|
                0 <= y < self.config.rows ==> (#[trigger] r@[y])@ == unicode_row(
                    self@,
                    self.config.columns as int,
                    show_all,
                    y,
                ),
    {
        let ghost ci = self.config.columns as int;
        let ghost ri = self.config.rows as int;
        let cols = self.config.columns;
        let rows = self.config.rows;
        let mut lines: Vec<String> = Vec::new();
        let mut y: usize = 0;
        while y < rows
            invariant
                y <= rows,
                rows == self.config.rows,
                cols == self.config.columns,
                cols >= 1,
                ci == cols as int,
                ri == rows as int,
                ri * ci <= usize::MAX,
                self@.len() == ri * ci,
                lines@.len() == y,
                forall|q: int|
                    0 <= q < y ==> (#[trigger] lines@[q])@ == unicode_row(self@, ci, show_all, q),
            decreases rows - y,
        {
            let mut line = String::new();
            let mut x: usize = 0;
            while x < cols
                invariant
                    x <= cols,
                    y < rows,
                    rows == self.config.rows,
                    cols == self.config.columns,
                    cols >= 1,
                    ci == cols as int,
                    ri == rows as int,
                    ri * ci <= usize::MAX,
                    self@.len() == ri * ci,
                    line@.len() == x,
                    forall|u: int|
                        0 <= u < x ==> line@[u] == self@[y as int * ci + u].unicode_char(show_all),
                decreases cols - x,
            {
                proof {
                    lemma_index_bound(y as int, x as int, ri, ci);
                }
                let idx = y * cols + x;
                let glyph = self.cells[idx].as_unicode_str(show_all);
                line.append(glyph.as_str());
                x += 1;
            }
            proof {
                assert(line@ =~= unicode_row(self@, ci, show_all, y as int));
            }
            lines.push(line);
            y += 1;
        }
        lines
    }

    /// The grid as a numeric matrix, one row of codes per grid row: 0..=8
    /// for an empty cell's count (8 also standing for a flag), 9 for a mine,
    /// 10 for a covered cell (unless `show_all` opens every cell).
    pub fn get_field(&self, show_all: bool) -> (r: Vec<Vec<u32>>)
        requires
            self.wf(),
        ensures
            r@.len() == self.config.rows,
            forall|y: int|
                0 <= y < self.config.rows ==> (#[trigger] r@[y])@ == number_row(
                    self@,
                    self.config.columns as int,
                    show_all,
                    y,
                ),
    {
        let ghost ci = self.config.columns as int;
        let ghost ri = self.config.rows as int;
        let cols = self.config.columns;
        let rows = self.config.rows;
        let mut lines: Vec<Vec<u32>> = Vec::new();
        let mut y: usize = 0;
        while y < rows
            invariant
                y <= rows,
                rows == self.config.rows,
                cols == self.config.columns,
                cols >= 1,
                ci == cols as int,
                ri == rows as int,
                ri * ci <= usize::MAX,
                self@.len() == ri * ci,
                lines@.len() == y,
                forall|q: int|
                    0 <= q < y ==> (#[trigger] lines@[q])@ == number_row(self@, ci, show_all, q),
            decreases rows - y,
        {
            let mut line: Vec<u32> = Vec::new();
            let mut x: usize = 0;
            while x < cols
                invariant
                    x <= cols,
                    y < rows,
                    rows == self.config.rows,
                    cols == self.config.columns,
                    cols >= 1,
                    ci == cols as int,
                    ri == rows as int,
                    ri * ci <= usize::MAX,
                    self@.len() == ri * ci,
                    line@.len() == x,
                    forall|u: int|
                        0 <= u < x ==> line@[u] == self@[y as int * ci + u].number_code(show_all),
                decreases cols - x,
            {
                proof {
                    lemma_index_bound(y as int, x as int, ri, ci);
                }
                let idx = y * cols + x;
                let code = self.cells[idx].as_number(show_all);
                line.push(code);
                x += 1;
            }
            proof {
                assert(line@ =~= number_row(self@, ci, show_all, y as int));
            }
            lines.push(line);
            y += 1;
        }
        lines
    }
}

} // verus!
