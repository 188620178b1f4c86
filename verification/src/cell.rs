//! One grid position: its fixed kind (mine, or empty with a neighbor-mine
//! count) and its mutable player-facing state, together with the per-cell
//! halves of the three renderers.

use vstd::prelude::*;

verus! {

/// What a grid position permanently holds: a mine, or an empty cell with the
/// number of mines among its up-to-8 grid neighbors. Fixed once adjacency
/// computation has run.
#[derive(Clone, Copy, Debug)]
pub enum FieldCellType {
    Mine,
    Empty(u32),
}

/// What the player has done to the cell so far. Mutated only by the reveal
/// and flag commands.
#[derive(Clone, Copy, Debug)]
pub enum FieldCellState {
    Hidden,
    Revealed,
    Flagged,
}

#[derive(Clone, Copy, Debug)]
pub struct FieldCell {
    pub state: FieldCellState,
    pub cell_type: FieldCellType,
}

/// The character for a single decimal digit; other inputs fall back to '0'.
pub open spec fn digit_char(n: int) -> char {
    if n == 1 {
        '1'
    } else if n == 2 {
        '2'
    } else if n == 3 {
        '3'
    } else if n == 4 {
        '4'
    } else if n == 5 {
        '5'
    } else if n == 6 {
        '6'
    } else if n == 7 {
        '7'
    } else if n == 8 {
        '8'
    } else if n == 9 {
        '9'
    } else {
        '0'
    }
}

/// The circled-digit glyph for a count in 1..=8; other inputs fall back to a
/// blank (a well-formed cell never stores them).
pub open spec fn circled_digit_char(n: int) -> char {
    if n == 1 {
        '①'
    } else if n == 2 {
        '②'
    } else if n == 3 {
        '③'
    } else if n == 4 {
        '④'
    } else if n == 5 {
        '⑤'
    } else if n == 6 {
        '⑥'
    } else if n == 7 {
        '⑦'
    } else if n == 8 {
        '⑧'
    } else {
        ' '
    }
}

impl FieldCell {
    /// A stored adjacency count is meaningful only in 0..=8.
    pub open spec fn wf(self) -> bool {
        self.cell_type matches FieldCellType::Empty(n) ==> n <= 8
    }

    /// Whether a renderer shows this cell's true content: either the caller
    /// forces every cell open, or the cell is not hidden.
    pub open spec fn shows_content(self, force_reveal: bool) -> bool {
        force_reveal || !(self.state is Hidden)
    }

    /// The ASCII character for a cell whose content is shown.
    pub open spec fn revealed_ascii_char(self) -> char {
        if self.state is Flagged {
            'f'
        } else {
            match self.cell_type {
                FieldCellType::Mine => 'x',
                FieldCellType::Empty(n) => if n == 0 {
                    '-'
                } else {
                    digit_char(n as int)
                },
            }
        }
    }

    /// The ASCII character the plain-text renderer prints for this cell.
    pub open spec fn ascii_char(self, force_reveal: bool) -> char {
        if self.shows_content(force_reveal) {
            self.revealed_ascii_char()
        } else {
            '?'
        }
    }

    /// The glyph for a cell whose content is shown, as a single character.
    pub open spec fn revealed_unicode_char(self) -> char {
        if self.state is Flagged {
            '🚩'
        } else {
            match self.cell_type {
                FieldCellType::Mine => '💣',
                FieldCellType::Empty(n) => if n == 0 {
                    ' '
                } else {
                    circled_digit_char(n as int)
                },
            }
        }
    }

    /// The glyph the styled renderer prints for this cell.
    pub open spec fn unicode_char(self, force_reveal: bool) -> char {
        if self.shows_content(force_reveal) {
            self.revealed_unicode_char()
        } else {
            '🔲'
        }
    }

    /// The numeric code for this cell: 0..=8 for an empty cell's count (8 is
    /// also used for a flagged cell), 9 for a mine, 10 for a covered cell.
    pub open spec fn number_code(self, force_reveal: bool) -> u32 {
        if !self.shows_content(force_reveal) {
            10
        } else if self.state is Flagged {
            8
        } else {
            match self.cell_type {
                FieldCellType::Mine => 9,
                FieldCellType::Empty(n) => n,
            }
        }
    }

    /// The styled glyph for this cell, honoring its state unless
    /// `force_reveal` opens every cell.
    pub fn as_unicode_str(&self, force_reveal: bool) -> (r: String)
        ensures
            r@ == seq![self.unicode_char(force_reveal)],
    {
        if force_reveal {
            self.as_revealed_str()
        } else {
            match self.state {
                FieldCellState::Hidden => {
                    proof {
                        reveal_strlit("🔲");
                    }
                    "🔲".to_owned()
                },
                _ => self.as_revealed_str(),
            }
        }
    }

    /// The numeric code for this cell, honoring its state unless
    /// `force_reveal` opens every cell.
    pub fn as_number(&self, force_reveal: bool) -> (n: u32)
        ensures
            n == self.number_code(force_reveal),
    {
        if force_reveal {
            self.as_revealed_number()
        } else {
            match self.state {
                FieldCellState::Hidden => 10,
                _ => self.as_revealed_number(),
            }
        }
    }

    /// The ASCII character for this cell, honoring its state unless
    /// `force_reveal` opens every cell.
    pub(crate) fn as_ascii_str(&self, force_reveal: bool) -> (r: String)
        ensures
            r@ == seq![self.ascii_char(force_reveal)],
    {
        if force_reveal {
            self.as_revealed_ascii_str()
        } else {
            match self.state {
                FieldCellState::Hidden => {
                    proof {
                        reveal_strlit("?");
                    }
                    "?".to_owned()
                },
                _ => self.as_revealed_ascii_str(),
            }
        }
    }

    /// The numeric code for this cell as if it were revealed; a flag still
    /// wins over the content behind it.
    pub fn as_revealed_number(&self) -> (n: u32)
        ensures
            n == self.number_code(true),
    {
        match self.state {
            FieldCellState::Flagged => 8,
            _ => match self.cell_type {
                FieldCellType::Mine => 9,
                FieldCellType::Empty(mines) => mines,
            },
        }
    }

    /// The ASCII character for this cell as if it were revealed; a flag still
    /// wins over the content behind it.
    pub fn as_revealed_ascii_str(&self) -> (r: String)
        ensures
            r@ == seq![self.revealed_ascii_char()],
    {
        proof {
            reveal_strlit("f");
            reveal_strlit("x");
            reveal_strlit("-");
        }
        match self.state {
            FieldCellState::Flagged => "f".to_owned(),
            _ => match self.cell_type {
                FieldCellType::Mine => "x".to_owned(),
                FieldCellType::Empty(mines) => {
                    if mines == 0 {
                        "-".to_owned()
                    } else {
                        digit_str(mines)
                    }
                },
            },
        }
    }

    /// The styled glyph for this cell as if it were revealed; a flag still
    /// wins over the content behind it.
    pub fn as_revealed_str(&self) -> (r: String)
        ensures
            r@ == seq![self.revealed_unicode_char()],
    {
        proof {
            reveal_strlit("🚩");
            reveal_strlit("💣");
            reveal_strlit(" ");
        }
        match self.state {
            FieldCellState::Flagged => "🚩".to_owned(),
            _ => match self.cell_type {
                FieldCellType::Mine => "💣".to_owned(),
                FieldCellType::Empty(mines) => {
                    if mines == 0 {
                        " ".to_owned()
                    } else {
                        circled_digit_str(mines)
                    }
                },
            },
        }
    }
}

/// The ASCII and styled renderers agree, cell for cell, on whether they show
/// the cell's content or its covered marker: the ASCII renderer prints `?`
/// exactly when the styled renderer prints the covered glyph, and both do so
/// exactly when the cell is hidden and not forced open.
pub proof fn lemma_renderers_agree_on_cell(c: FieldCell, force_reveal: bool)
    requires
        c.wf(),
    ensures
        (c.ascii_char(force_reveal) == '?') <==> (c.unicode_char(force_reveal) == '🔲'),
        (c.ascii_char(force_reveal) == '?') <==> !c.shows_content(force_reveal),
{
}

/// One decimal digit as a string; inputs above 9 fall back to "0".
pub(crate) fn digit_str(n: u32) -> (r: String)
    ensures
        r@ == seq![digit_char(n as int)],
{
    proof {
        reveal_strlit("1");
        reveal_strlit("2");
        reveal_strlit("3");
        reveal_strlit("4");
        reveal_strlit("5");
        reveal_strlit("6");
        reveal_strlit("7");
        reveal_strlit("8");
        reveal_strlit("9");
        reveal_strlit("0");
    }
    match n {
        1 => "1".to_owned(),
        2 => "2".to_owned(),
        3 => "3".to_owned(),
        4 => "4".to_owned(),
        5 => "5".to_owned(),
        6 => "6".to_owned(),
        7 => "7".to_owned(),
        8 => "8".to_owned(),
        9 => "9".to_owned(),
        _ => "0".to_owned(),
    }
}

/// One circled-digit glyph as a string; inputs outside 1..=8 fall back to a
/// blank.
pub(crate) fn circled_digit_str(n: u32) -> (r: String)
    ensures
        r@ == seq![circled_digit_char(n as int)],
{
    proof {
        reveal_strlit("①");
        reveal_strlit("②");
        reveal_strlit("③");
        reveal_strlit("④");
        reveal_strlit("⑤");
        reveal_strlit("⑥");
        reveal_strlit("⑦");
        reveal_strlit("⑧");
        reveal_strlit(" ");
    }
    match n {
        1 => "①".to_owned(),
        2 => "②".to_owned(),
        3 => "③".to_owned(),
        4 => "④".to_owned(),
        5 => "⑤".to_owned(),
        6 => "⑥".to_owned(),
        7 => "⑦".to_owned(),
        8 => "⑧".to_owned(),
        _ => " ".to_owned(),
    }
}

/// The glyph the styled matrix consumer prints for a numeric cell code:
/// a blank pair for 0, the flag for 8, the mine for 9, the covered square
/// for 10, and a circled digit followed by a space for 1..=7.
pub open spec fn number_glyphs(code: int) -> Seq<char> {
    if code == 0 {
        seq![' ', ' ']
    } else if code == 8 {
        seq!['🚩']
    } else if code == 9 {
        seq!['💣']
    } else if code == 10 {
        seq!['🔲']
    } else {
        seq![circled_digit_char(code), ' ']
    }
}

/// The display string for one entry of the numeric matrix.
pub fn cell_to_string(mines: u32) -> (r: String)
    requires
        mines <= 10,
    ensures
        r@ == number_glyphs(mines as int),
{
    proof {
        reveal_strlit("  ");
        reveal_strlit("🚩");
        reveal_strlit("💣");
        reveal_strlit("🔲");
        reveal_strlit("① ");
        reveal_strlit("② ");
        reveal_strlit("③ ");
        reveal_strlit("④ ");
        reveal_strlit("⑤ ");
        reveal_strlit("⑥ ");
        reveal_strlit("⑦ ");
    }
    match mines {
        0 => "  ".to_owned(),
        8 => "🚩".to_owned(),
        9 => "💣".to_owned(),
        10 => "🔲".to_owned(),
        1 => "① ".to_owned(),
        2 => "② ".to_owned(),
        3 => "③ ".to_owned(),
        4 => "④ ".to_owned(),
        5 => "⑤ ".to_owned(),
        6 => "⑥ ".to_owned(),
        _ => "⑦ ".to_owned(),
    }
}

} // verus!
