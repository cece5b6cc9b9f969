//! A single grid position: what lies under it, how much of it the player
//! sees, and how it is to be drawn.

use vstd::prelude::*;

verus! {

/// What a cell holds once the mines have been laid.
#[derive(Clone, Copy, Debug, PartialEq, Eq, Structural)]
pub enum CellType {
    /// No mine here and none next to it.
    Empty,
    /// A mine.
    Mine,
    /// No mine here, and this many mines among the adjacent cells.
    Neighbouring(u8),
}

/// How much of a cell the player sees.
#[derive(Clone, Copy, Debug, PartialEq, Eq, Structural)]
pub enum CellState {
    Hidden,
    Open,
    Flagged,
}

/// One position of the grid.
#[derive(Clone, Copy, Debug, PartialEq, Eq, Structural)]
pub struct Cell {
    pub ty: CellType,
    pub state: CellState,
}

/// A foreground colour, by name or by its red, green and blue parts.
#[derive(Clone, Copy, Debug, PartialEq, Eq, Structural)]
pub enum Tint {
    White,
    DarkGrey,
    Red,
    DarkRed,
    Blue,
    Green,
    Yellow,
    Magenta,
    Rgb(u8, u8, u8),
}

/// How one cell is drawn: a character, its colour and its attributes.
#[derive(Clone, Copy, Debug, PartialEq, Eq, Structural)]
pub struct Glyph {
    pub symbol: char,
    pub tint: Tint,
    pub bold: bool,
    pub italic: bool,
}

impl Default for CellType {
    fn default() -> (ty: CellType)
        ensures
            ty == CellType::Empty,
    {
        CellType::Empty
    }
}

impl Default for CellState {
    fn default() -> (state: CellState)
        ensures
            state == CellState::Hidden,
    {
        CellState::Hidden
    }
}

impl Default for Cell {
    fn default() -> (cell: Cell)
        ensures
            cell == Cell::blank(),
    {
        Cell { ty: CellType::Empty, state: CellState::Hidden }
    }
}

impl CellType {
    /// The kind of a cell that is no mine and has `count` mines next to it.
    pub open spec fn of_count(count: nat) -> CellType {
        if count == 0 {
            CellType::Empty
        } else {
            CellType::Neighbouring(count as u8)
        }
    }

    /// A count, where there is one, lies between 1 and 8.
    pub open spec fn wf(self) -> bool {
        self matches CellType::Neighbouring(k) ==> 1 <= k <= 8
    }

    /// The colour in which a count is drawn: one each for 1, 2, 3 and 4, and
    /// one shared by the counts from 5 on.
    pub open spec fn band(k: u8) -> Tint {
        if k == 1 {
            Tint::Blue
        } else if k == 2 {
            Tint::Green
        } else if k == 3 {
            Tint::Yellow
        } else if k == 4 {
            Tint::Magenta
        } else {
            Tint::DarkRed
        }
    }

    /// The decimal digit that stands for `k`.
    pub open spec fn digit(k: u8) -> char {
        (k + 48) as char
    }
}

impl Cell {
    /// The cell of a fresh board: empty and hidden.
    pub open spec fn blank() -> Cell {
        Cell { ty: CellType::Empty, state: CellState::Hidden }
    }

    /// How this cell is drawn.
    pub open spec fn glyph(self) -> Glyph {
        match self.state {
            CellState::Hidden => Glyph { symbol: 'X', tint: Tint::White, bold: true, italic: false },
            CellState::Flagged => Glyph {
                symbol: 'F',
                tint: Tint::Rgb(255, 127, 80),
                bold: true,
                italic: true,
            },
            CellState::Open => match self.ty {
                CellType::Empty => Glyph {
                    symbol: '#',
                    tint: Tint::DarkGrey,
                    bold: false,
                    italic: false,
                },
                CellType::Mine => Glyph { symbol: 'B', tint: Tint::Red, bold: true, italic: true },
                CellType::Neighbouring(k) => Glyph {
                    symbol: CellType::digit(k),
                    tint: CellType::band(k),
                    bold: false,
                    italic: false,
                },
            },
        }
    }

    /// Says how the cell is to be drawn: a hidden cell as `X`, a flagged one
    /// as `F`, an open one by what it holds (`#` for an empty cell, `B` for a
    /// mine, the digit for a count, coloured by the count).
    pub fn write(&self) -> (glyph: Glyph)
        requires
            self.state == CellState::Open ==> self.ty.wf(),
        ensures
            glyph == self.glyph(),
    {
        match self.state {
            CellState::Hidden => Glyph { symbol: 'X', tint: Tint::White, bold: true, italic: false },
            CellState::Flagged => Glyph {
                symbol: 'F',
                tint: Tint::Rgb(255, 127, 80),
                bold: true,
                italic: true,
            },
            CellState::Open => match self.ty {
                CellType::Empty => Glyph {
                    symbol: '#',
                    tint: Tint::DarkGrey,
                    bold: false,
                    italic: false,
                },
                CellType::Mine => Glyph { symbol: 'B', tint: Tint::Red, bold: true, italic: true },
                CellType::Neighbouring(k) => {
                    let tint = match k {
                        1 => Tint::Blue,
                        2 => Tint::Green,
                        3 => Tint::Yellow,
                        4 => Tint::Magenta,
                        _ => Tint::DarkRed,
                    };
                    Glyph { symbol: (k + 48) as char, tint, bold: false, italic: false }
                },
            },
        }
    }
}

} // verus!
