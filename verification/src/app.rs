//! The terminal application's state and the decisions it makes on plain
//! values: quitting, restarting with a fresh board, remembering the last
//! click, and translating a screen coordinate to a cell index. Drawing and
//! input decoding live outside the engine and only call into it.

use vstd::pervasive::unreached;
use vstd::prelude::*;

use crate::field::{Field, GameConfig};
use crate::grid::lemma_index_bound;

verus! {

/// The board column a screen column maps to: positions start at 1, the left
/// border is one cell wide, and each board cell is drawn two characters
/// wide.
pub open spec fn col_from_x(x: int) -> int {
    if x >= 2 {
        (x - 2) / 2
    } else {
        0
    }
}

/// The board row a screen row maps to: positions start at 1, and the title
/// and top border take two more rows.
pub open spec fn row_from_y(y: int) -> int {
    y - 3
}

pub struct App<'a> {
    pub title: &'a str,
    pub should_quit: bool,
    pub enhanced_graphics: bool,
    pub click: (u16, u16),
    pub last_reveal: usize,
    pub field: Field,
}

impl<'a> App<'a> {
    /// The application is usable whenever its board is.
    pub open spec fn wf(&self) -> bool {
        self.field.wf()
    }

    /// A fresh application around a fresh random board.
    pub fn new(title: &'a str, config: &GameConfig, enhanced_graphics: bool) -> (a: App<'a>)
        requires
            config.valid(),
        ensures
            a.wf(),
            a.title == title,
            !a.should_quit,
            a.enhanced_graphics == enhanced_graphics,
            a.click == (0u16, 0u16),
            a.last_reveal == 0,
            a.field.config == *config,
            forall|k: int| 0 <= k < a.field@.len() ==> (#[trigger] a.field@[k]).state is Hidden,
    {
        let field = match Field::new(config) {
            Ok(f) => f,
            Err(_) => unreached(),
        };
        App {
            title,
            should_quit: false,
            enhanced_graphics,
            click: (0, 0),
            last_reveal: 0,
            field,
        }
    }

    /// Key decisions: `q` asks to quit, `r` restarts with a fresh random
    /// board under the same configuration, anything else is ignored.
    pub fn on_key(&mut self, c: char)
        requires
            old(self).wf(),
        ensures
            final(self).wf(),
            final(self).title == old(self).title,
            final(self).enhanced_graphics == old(self).enhanced_graphics,
            final(self).click == old(self).click,
            final(self).last_reveal == old(self).last_reveal,
            c == 'q' ==> final(self).should_quit && final(self).field == old(self).field,
            c == 'r' ==> {
                &&& final(self).should_quit == old(self).should_quit
                &&& final(self).field.config == old(self).field.config
                &&& forall|k: int|
                    0 <= k < final(self).field@.len() ==> (#[trigger] final(self).field@[k]).state
                        is Hidden
            },
            c != 'q' && c != 'r' ==> *final(self) == *old(self),
    {
        match c {
            'q' => {
                self.should_quit = true;
            },
            'r' => {
                let config = self.field.config;
                self.field = match Field::new(&config) {
                    Ok(f) => f,
                    Err(_) => unreached(),
                };
            },
            _ => {},
        }
    }

    /// Translates a screen coordinate to a cell index, or nothing when the
    /// coordinate lies outside the drawn board.
    pub fn to_field_index(&self, x: u16, y: u16) -> (r: Option<usize>)
        requires
            self.wf(),
        ensures
            r is Some <==> {
                &&& x >= 1
                &&& y >= 3
                &&& row_from_y(y as int) < self.field.config.rows
                &&& col_from_x(x as int) < self.field.config.columns
            },
            r matches Some(idx) ==> idx as int == row_from_y(y as int)
                * self.field.config.columns + col_from_x(x as int),
            r matches Some(idx) ==> idx < self.field.config.rows * self.field.config.columns,
    {
        if x >= 1 && y >= 3 {
            let col: usize = if x >= 2 {
                ((x - 2) / 2) as usize
            } else {
                0
            };
            let row: usize = (y - 3) as usize;
            let cols = self.field.config.columns;
            if row < self.field.config.rows && col < cols {
                proof {
                    lemma_index_bound(
                        row as int,
                        col as int,
                        self.field.config.rows as int,
                        cols as int,
                    );
                }
                Some(row * cols + col)
            } else {
                None
            }
        } else {
            None
        }
    }

    /// A press leaves the application unchanged.
    pub fn on_press(&mut self)
        ensures
            *final(self) == *old(self),
    {
    }

    /// Remembers the last click position.
    pub fn set_click(&mut self, x: u16, y: u16)
        ensures
            final(self).click == (x, y),
            final(self).title == old(self).title,
            final(self).should_quit == old(self).should_quit,
            final(self).enhanced_graphics == old(self).enhanced_graphics,
            final(self).last_reveal == old(self).last_reveal,
            final(self).field == old(self).field,
    {
        self.click = (x, y);
    }
}

} // verus!
