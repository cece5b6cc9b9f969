//! What holds of the moves, whatever the board: the laws that the contracts
//! of the board imply, each stated over the board as a value.

use vstd::prelude::*;
use crate::cell::{Cell, CellState, CellType};
use crate::field::{flagged, flagged_mines, is_hidden, is_mine, mines};
use crate::flood::{
    lemma_revealed_alone,
    lemma_reveals_extend,
    lemma_reveals_hidden,
    lemma_reveals_self,
    lemma_reveals_spares_mines,
    reveals,
    spreads,
};
use crate::grid::adjacent;
use crate::model::{lemma_mine_count, BoardView};

verus! {

/// Cell `to` belongs to the region of hidden empty cells around cell `from`:
/// a walk over hidden empty cells, from each to an adjacent one, leads from
/// the one to the other.
pub open spec fn same_region(cells: Seq<Cell>, width: int, height: int, from: int, to: int) -> bool {
    exists|path: Seq<int>|
        #[trigger] spreads(cells, width, height, path) && path[0] == from && path.last() == to
            && cells[to].ty == CellType::Empty
}

/// A reveal of a cell that is open or flagged changes nothing and sets off
/// no mine.
pub proof fn lemma_open_not_hidden(board: BoardView, index: int)
    requires
        0 <= index < board.cells.len(),
        board.cells[index].state != CellState::Hidden,
    ensures
        board.open(index) == board,
        !board.hits(index),
{
    lemma_revealed_alone(board.cells, board.width as int, board.height as int, index);
}

/// A second reveal of the same cell changes nothing and sets off no mine.
pub proof fn lemma_open_twice(board: BoardView, index: int)
    requires
        0 <= index < board.cells.len(),
    ensures
        board.open(index).open(index) == board.open(index),
        !board.open(index).hits(index),
{
    let w = board.width as int;
    let h = board.height as int;
    if is_hidden(board.cells, index) {
        lemma_reveals_self(board.cells, w, h, index);
    } else {
        if reveals(board.cells, w, h, index, index) {
            lemma_reveals_hidden(board.cells, w, h, index, index);
        }
    }
    assert(board.open(index).cells[index].state != CellState::Hidden);
    lemma_open_not_hidden(board.open(index), index);
}

/// A reveal of a hidden empty cell opens every cell of the region of hidden
/// empty cells around it, and every hidden cell adjacent to a cell of that
/// region.
pub proof fn lemma_open_region(board: BoardView, index: int, i: int, c: int)
    requires
        same_region(board.cells, board.width as int, board.height as int, index, i),
    ensures
        board.open(index).cells[i].state == CellState::Open,
        adjacent(board.width as int, board.height as int, i, c) && is_hidden(board.cells, c)
            ==> board.open(index).cells[c].state == CellState::Open,
{
    let w = board.width as int;
    let h = board.height as int;
    let path = choose|path: Seq<int>|
        #[trigger] spreads(board.cells, w, h, path) && path[0] == index && path.last() == i
            && board.cells[i].ty == CellType::Empty;
    assert(reveals(board.cells, w, h, index, i));
    lemma_reveals_hidden(board.cells, w, h, index, i);
    if adjacent(w, h, i, c) && is_hidden(board.cells, c) {
        lemma_reveals_extend(board.cells, w, h, index, i, c);
    }
}

/// A reveal opens no mine but the one it is made on: the reveal never
/// spreads to a mine.
pub proof fn lemma_open_spares_mines(board: BoardView, index: int, m: int)
    requires
        board.wf(),
        is_mine(board.cells, m),
        m != index,
    ensures
        board.open(index).cells[m] == board.cells[m],
{
    let w = board.width as int;
    let h = board.height as int;
    if reveals(board.cells, w, h, index, m) {
        lemma_reveals_spares_mines(board.cells, w, h, index, m);
    }
}

/// A reveal changes only hidden cells, and those it changes it opens: no
/// flag is touched, no open cell is closed, and what the cells hold stays.
pub proof fn lemma_open_only_opens(board: BoardView, index: int, i: int)
    requires
        0 <= i < board.cells.len(),
    ensures
        board.open(index).cells[i] == board.cells[i] || (board.cells[i].state
            == CellState::Hidden && board.open(index).cells[i] == (Cell {
            ty: board.cells[i].ty,
            state: CellState::Open,
        })),
{
    let w = board.width as int;
    let h = board.height as int;
    if reveals(board.cells, w, h, index, i) {
        lemma_reveals_hidden(board.cells, w, h, index, i);
    }
}

/// An open cell stays open, with what it holds, whatever move is made: no
/// move closes a cell or puts a flag on an open one.
pub proof fn lemma_open_is_final(board: BoardView, index: int, i: int)
    requires
        0 <= i < board.cells.len(),
        0 <= index < board.cells.len(),
        board.cells[i].state == CellState::Open,
    ensures
        board.open(index).cells[i] == board.cells[i],
        board.flag(index).cells[i] == board.cells[i],
        board.open_all_bombs().cells[i] == board.cells[i],
{
    lemma_open_only_opens(board, index, i);
}

/// Toggling the flag never takes the flags in use above the flags allowed.
pub proof fn lemma_flag_within_limit(board: BoardView, index: int)
    requires
        board.wf(),
        0 <= index < board.cells.len(),
    ensures
        board.flag(index).used_flags <= board.flag(index).allowed_flags,
        board.flag(index).allowed_flags == board.allowed_flags,
{
    lemma_mine_count(board.cells, board.mines);
    if board.cells[index].state == CellState::Flagged {
        assert(flagged(board.cells).contains(index));
    }
}

/// Toggling the flag of a hidden cell twice gives back the board as it was,
/// cell and counters.
pub proof fn lemma_flag_twice(board: BoardView, index: int)
    requires
        0 <= index < board.cells.len(),
        board.cells[index].state == CellState::Hidden,
    ensures
        board.flag(index).flag(index) == board,
{
    let once = board.flag(index);
    let twice = once.flag(index);
    assert(twice.cells =~= board.cells);
}

/// When the flagged mines are as many as the mines of the board, the mines
/// have been laid and every one of them carries a flag; the counter counts
/// flagged mines only, so a flag on a cell without a mine adds nothing to
/// it.
pub proof fn lemma_win(board: BoardView)
    requires
        board.wf(),
        board.mines_flagged == board.num_mines,
    ensures
        board.all_mines_flagged(),
        board.mines.len() == board.num_mines,
        flagged_mines(board.cells) == mines(board.cells),
        mines(board.cells).len() == board.num_mines,
{
    lemma_mine_count(board.cells, board.mines);
    let all = mines(board.cells);
    let marked = flagged_mines(board.cells);
    assert forall|i: int| is_mine(board.cells, i) implies board.cells[i].state
        == CellState::Flagged by {
        if board.cells[i].state != CellState::Flagged {
            assert(marked.subset_of(all.remove(i)));
            vstd::set_lib::lemma_len_subset(marked, all.remove(i));
        }
    }
    assert(marked =~= all);
}

} // verus!
