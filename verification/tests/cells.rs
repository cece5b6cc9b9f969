use minesweeper::cell::{Cell, CellState, CellType, Glyph, Tint};

fn cell(ty: CellType, state: CellState) -> Cell {
    Cell { ty, state }
}

#[test]
fn default_cell_is_empty_and_hidden() {
    let c = Cell::default();
    assert_eq!(c.ty, CellType::Empty);
    assert_eq!(c.state, CellState::Hidden);
    assert_eq!(CellType::default(), CellType::Empty);
    assert_eq!(CellState::default(), CellState::Hidden);
}

#[test]
fn hidden_cell_is_drawn_as_x_whatever_it_holds() {
    let want = Glyph { symbol: 'X', tint: Tint::White, bold: true, italic: false };
    assert_eq!(cell(CellType::Empty, CellState::Hidden).write(), want);
    assert_eq!(cell(CellType::Mine, CellState::Hidden).write(), want);
    assert_eq!(cell(CellType::Neighbouring(3), CellState::Hidden).write(), want);
}

#[test]
fn flagged_cell_is_drawn_as_f() {
    let want = Glyph { symbol: 'F', tint: Tint::Rgb(255, 127, 80), bold: true, italic: true };
    assert_eq!(cell(CellType::Empty, CellState::Flagged).write(), want);
    assert_eq!(cell(CellType::Mine, CellState::Flagged).write(), want);
}

#[test]
fn open_empty_cell_is_drawn_as_hash() {
    assert_eq!(
        cell(CellType::Empty, CellState::Open).write(),
        Glyph { symbol: '#', tint: Tint::DarkGrey, bold: false, italic: false }
    );
}

#[test]
fn open_mine_is_drawn_as_b() {
    assert_eq!(
        cell(CellType::Mine, CellState::Open).write(),
        Glyph { symbol: 'B', tint: Tint::Red, bold: true, italic: true }
    );
}

#[test]
fn open_count_is_drawn_as_its_digit_in_its_colour() {
    let want = [
        ('1', Tint::Blue),
        ('2', Tint::Green),
        ('3', Tint::Yellow),
        ('4', Tint::Magenta),
        ('5', Tint::DarkRed),
        ('6', Tint::DarkRed),
        ('7', Tint::DarkRed),
        ('8', Tint::DarkRed),
    ];
    for k in 1u8..=8 {
        let (symbol, tint) = want[(k - 1) as usize];
        assert_eq!(
            cell(CellType::Neighbouring(k), CellState::Open).write(),
            Glyph { symbol, tint, bold: false, italic: false }
        );
    }
}
