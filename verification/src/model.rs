//! The board as a mathematical value, and what each move makes of it.

use vstd::prelude::*;
use crate::cell::{Cell, CellState, CellType};
use crate::field::{
    flagged,
    flagged_mines,
    hidden,
    is_mine,
    lemma_cells_finite,
    lemma_numbered_by_kinds,
    mines,
    numbered,
};
use crate::flood::{opened_from, revealed};
use crate::laying::{
    counted,
    fits,
    lemma_counted,
    lemma_free_without_mines,
    lemma_mined,
    mine_order,
    mined,
};

verus! {

/// The state of a board: its dimensions and limits, its counters, the mines
/// in the order in which they were laid, and its cells row by row.
pub struct BoardView {
    pub width: nat,
    pub height: nat,
    pub num_mines: nat,
    pub allowed_flags: nat,
    pub used_flags: nat,
    pub mines_flagged: nat,
    pub mines: Seq<usize>,
    pub cells: Seq<Cell>,
}

impl BoardView {
    /// The invariant of a board: the cells fill the grid, the counters count
    /// what they name, the list of mines names each mine once, and every
    /// other cell shows the number of mines adjacent to it. The mines are
    /// either not laid yet or all laid.
    pub open spec fn wf(self) -> bool {
        &&& self.cells.len() == self.width * self.height
        &&& self.num_mines <= self.cells.len()
        &&& self.num_mines <= self.allowed_flags
        &&& self.used_flags <= self.allowed_flags
        &&& self.used_flags == flagged(self.cells).len()
        &&& self.mines_flagged == flagged_mines(self.cells).len()
        &&& self.mines_flagged <= self.num_mines
        &&& lists_mines(self.cells, self.mines)
        &&& (self.mines.len() == 0 || self.mines.len() == self.num_mines)
        &&& numbered(self.cells, self.width as int, self.height as int)
    }

    /// A board before its first move: every cell empty and hidden, no mine
    /// laid, no flag set. The number of mines is cut down to the number of
    /// cells, and the number of flags raised to the number of mines asked
    /// for.
    pub open spec fn fresh(width: nat, height: nat, num_mines: nat, num_flags: nat) -> BoardView {
        BoardView {
            width,
            height,
            num_mines: if num_mines <= width * height {
                num_mines
            } else {
                width * height
            },
            allowed_flags: if num_flags >= num_mines {
                num_flags
            } else {
                num_mines
            },
            used_flags: 0,
            mines_flagged: 0,
            mines: Seq::empty(),
            cells: Seq::new(width * height, |i: int| Cell::blank()),
        }
    }

    /// The board cleared for a new round: dimensions and limits stay.
    pub open spec fn reset(self) -> BoardView {
        BoardView {
            used_flags: 0,
            mines_flagged: 0,
            mines: Seq::empty(),
            cells: Seq::new(self.cells.len(), |i: int| Cell::blank()),
            ..self
        }
    }

    /// The board after the flag on cell `index` was toggled: a flag comes
    /// off; a hidden cell gets one while flags are left; anything else stays
    /// as it is. The counters follow.
    pub open spec fn flag(self, index: int) -> BoardView {
        let cell = self.cells[index];
        let mine: nat = if cell.ty == CellType::Mine {
            1
        } else {
            0
        };
        if cell.state == CellState::Flagged {
            BoardView {
                used_flags: (self.used_flags - 1) as nat,
                mines_flagged: (self.mines_flagged - mine) as nat,
                cells: self.cells.update(index, Cell { ty: cell.ty, state: CellState::Hidden }),
                ..self
            }
        } else if cell.state == CellState::Hidden && self.used_flags < self.allowed_flags {
            BoardView {
                used_flags: self.used_flags + 1,
                mines_flagged: self.mines_flagged + mine,
                cells: self.cells.update(index, Cell { ty: cell.ty, state: CellState::Flagged }),
                ..self
            }
        } else {
            self
        }
    }

    /// No mine has been laid and no flag set: the first move is still to
    /// come.
    pub open spec fn unstarted(self) -> bool {
        self.mines.len() == 0 && self.used_flags == 0
    }

    /// The draws are one for each mine, and each is below the number of
    /// cells that are free when it is used: all cells but that of the first
    /// move and those of the mines laid before.
    pub open spec fn admits(self, draws: Seq<usize>) -> bool {
        &&& draws.len() == self.num_mines
        &&& forall|k: int| 0 <= k < draws.len() ==> #[trigger] draws[k] + k + 1 < self.cells.len()
    }

    /// The board after the first move was made on cell `origin` and the
    /// mines were laid by `draws`: each draw puts one mine on the cell that
    /// it selects among the cells still free, and every other cell then
    /// shows the number of mines adjacent to it.
    pub open spec fn start(self, origin: int, draws: Seq<usize>) -> BoardView {
        BoardView {
            mines: self.mines + mine_order(self.cells, origin, draws),
            cells: counted(
                mined(self.cells, origin, draws),
                self.width as int,
                self.height as int,
            ),
            ..self
        }
    }

    /// The board after a reveal of cell `index`: the cells that the reveal
    /// reaches are open, everything else is as it was.
    pub open spec fn open(self, index: int) -> BoardView {
        BoardView {
            cells: revealed(self.cells, self.width as int, self.height as int, index),
            ..self
        }
    }

    /// A reveal of cell `index` sets off a mine: the cell is hidden and holds
    /// one.
    pub open spec fn hits(self, index: int) -> bool {
        self.cells[index] == (Cell { ty: CellType::Mine, state: CellState::Hidden })
    }

    /// The board with every hidden mine revealed. Flagged mines keep their
    /// flags.
    pub open spec fn open_all_bombs(self) -> BoardView {
        BoardView {
            cells: Seq::new(
                self.cells.len(),
                |i: int|
                    if is_mine(self.cells, i) && self.cells[i].state == CellState::Hidden {
                        Cell { ty: CellType::Mine, state: CellState::Open }
                    } else {
                        self.cells[i]
                    },
            ),
            ..self
        }
    }

    /// Every mine carries a flag.
    pub open spec fn all_mines_flagged(self) -> bool {
        forall|i: int| is_mine(self.cells, i) ==> self.cells[i].state == CellState::Flagged
    }
}

/// A set of cell numbers that a list names one by one, each once, has the
/// length of the list.
pub proof fn lemma_listed_set(s: Set<int>, locs: Seq<usize>)
    requires
        locs.no_duplicates(),
        forall|k: int| 0 <= k < locs.len() ==> s.contains(#[trigger] locs[k] as int),
        forall|i: int| s.contains(i) ==> 0 <= i <= usize::MAX && locs.contains(i as usize),
    ensures
        s.finite(),
        s.len() == locs.len(),
    decreases locs.len(),
{
    if locs.len() == 0 {
        assert(s =~= Set::empty());
    } else {
        let last = locs.last();
        let rest = locs.drop_last();
        let others = s.remove(last as int);
        assert forall|i: int| others.contains(i) implies 0 <= i <= usize::MAX && rest.contains(
            i as usize,
        ) by {
            let k = choose|k: int| 0 <= k < locs.len() && locs[k] == i as usize;
            assert(rest[k] == i as usize);
        }
        assert forall|k: int| 0 <= k < rest.len() implies others.contains(
            #[trigger] rest[k] as int,
        ) by {
            assert(locs[k] == rest[k]);
        }
        lemma_listed_set(others, rest);
        assert(s =~= others.insert(last as int));
    }
}

/// The list `locs` names every mine of the field, each once, and nothing
/// else.
pub open spec fn lists_mines(cells: Seq<Cell>, locs: Seq<usize>) -> bool {
    &&& cells.len() <= usize::MAX
    &&& locs.no_duplicates()
    &&& forall|k: int| 0 <= k < locs.len() ==> is_mine(cells, #[trigger] locs[k] as int)
    &&& forall|i: int| is_mine(cells, i) ==> locs.contains(i as usize)
}

/// Where a list names the mines, they are as many as the list is long, the
/// flagged mines are no more, and the flags are no more than the cells.
pub proof fn lemma_mine_count(cells: Seq<Cell>, locs: Seq<usize>)
    requires
        lists_mines(cells, locs),
    ensures
        mines(cells).finite(),
        mines(cells).len() == locs.len(),
        locs.len() <= cells.len(),
        flagged_mines(cells).finite(),
        flagged_mines(cells).len() <= locs.len(),
        flagged(cells).finite(),
        flagged(cells).len() <= cells.len(),
{
    lemma_listed_set(mines(cells), locs);
    assert(flagged_mines(cells).subset_of(mines(cells)));
    vstd::set_lib::lemma_len_subset(flagged_mines(cells), mines(cells));
    lemma_cells_finite(cells, flagged(cells));
    lemma_cells_finite(cells, mines(cells));
}

/// A well-formed board stays so when hidden cells are opened, and no cell
/// becomes hidden by it.
pub proof fn lemma_opening_keeps_wf(before: BoardView, cells: Seq<Cell>)
    requires
        before.wf(),
        opened_from(before.cells, cells),
    ensures
        (BoardView { cells, ..before }).wf(),
        hidden(before.cells).finite(),
        hidden(cells).subset_of(hidden(before.cells)),
        hidden(cells).len() <= hidden(before.cells).len(),
{
    assert(flagged(cells) =~= flagged(before.cells));
    assert(flagged_mines(cells) =~= flagged_mines(before.cells));
    lemma_numbered_by_kinds(before.cells, cells, before.width as int, before.height as int);
    assert(lists_mines(cells, before.mines)) by {
        assert forall|i: int| is_mine(cells, i) implies is_mine(before.cells, i) by {}
    }
    lemma_cells_finite(before.cells, hidden(before.cells));
    assert(hidden(cells).subset_of(hidden(before.cells)));
    vstd::set_lib::lemma_len_subset(hidden(cells), hidden(before.cells));
}

/// A board on which no mine is listed holds no mine.
pub proof fn lemma_unstarted_blank(board: BoardView)
    requires
        board.wf(),
        board.unstarted(),
    ensures
        forall|i: int| 0 <= i < board.cells.len() ==> !is_mine(board.cells, i),
        forall|i: int| 0 <= i < board.cells.len() ==> (#[trigger] board.cells[i]).ty == CellType::Empty,
        flagged(board.cells) == Set::<int>::empty(),
        board.mines_flagged == 0,
{
    assert forall|i: int| 0 <= i < board.cells.len() implies !is_mine(board.cells, i) by {
        if is_mine(board.cells, i) {
            assert(board.mines.contains(i as usize));
        }
    }
    assert forall|i: int| 0 <= i < board.cells.len() implies (#[trigger] board.cells[i]).ty
        == CellType::Empty by {
        assert(crate::field::mines_around(
            board.cells,
            board.width as int,
            board.height as int,
            i,
        ) =~= Set::<int>::empty());
    }
    lemma_cells_finite(board.cells, flagged(board.cells));
    assert(flagged(board.cells) =~= Set::<int>::empty()) by {
        if exists|i: int| flagged(board.cells).contains(i) {
            let i = choose|i: int| flagged(board.cells).contains(i);
            assert(flagged(board.cells).len() > 0);
        }
    }
    assert(flagged_mines(board.cells) =~= Set::<int>::empty()) by {
        assert forall|i: int| !flagged_mines(board.cells).contains(i) by {
            if flagged_mines(board.cells).contains(i) {
                assert(flagged(board.cells).contains(i));
            }
        }
    }
}

/// After the first move the cell of that move holds no mine, exactly as many
/// cells hold a mine as the board is to have, and every other cell shows
/// the number of mines adjacent to it; what the player sees is as before.
/// This holds whatever the draws were.
pub proof fn lemma_start_lays_mines(board: BoardView, origin: int, draws: Seq<usize>)
    requires
        board.wf(),
        board.unstarted(),
        0 <= origin < board.cells.len(),
        board.admits(draws),
    ensures
        board.start(origin, draws).wf(),
        !is_mine(board.start(origin, draws).cells, origin),
        mines(board.start(origin, draws).cells).finite(),
        mines(board.start(origin, draws).cells).len() == board.num_mines,
        board.start(origin, draws).mines.len() == board.num_mines,
        numbered(board.start(origin, draws).cells, board.width as int, board.height as int),
        board.start(origin, draws).cells.len() == board.cells.len(),
        forall|i: int|
            0 <= i < board.cells.len() ==> (#[trigger] board.start(origin, draws).cells[i]).state
                == board.cells[i].state,
{
    let after = board.start(origin, draws);
    let laid = mined(board.cells, origin, draws);
    let order = mine_order(board.cells, origin, draws);
    let w = board.width as int;
    let h = board.height as int;
    lemma_unstarted_blank(board);
    lemma_free_without_mines(board.cells, origin, 0);
    assert(fits(board.cells, origin, draws));
    lemma_mined(board.cells, origin, draws);
    lemma_counted(laid, w, h);
    assert(after.mines =~= order);
    assert(lists_mines(after.cells, order)) by {
        assert forall|k: int| 0 <= k < order.len() implies is_mine(
            after.cells,
            #[trigger] order[k] as int,
        ) by {
            assert(is_mine(laid, order[k] as int));
        }
        assert forall|i: int| is_mine(after.cells, i) implies order.contains(i as usize) by {
            assert(is_mine(laid, i));
        }
    }
    lemma_mine_count(after.cells, order);
    assert(flagged(after.cells) =~= Set::<int>::empty()) by {
        assert forall|i: int| !flagged(after.cells).contains(i) by {
            if flagged(after.cells).contains(i) {
                assert(laid[i] == board.cells[i] || laid[i] == crate::laying::with_mine(
                    board.cells[i],
                ));
                assert(flagged(board.cells).contains(i));
            }
        }
    }
    assert(flagged_mines(after.cells) =~= Set::<int>::empty()) by {
        assert forall|i: int| !flagged_mines(after.cells).contains(i) by {
            if flagged_mines(after.cells).contains(i) {
                assert(flagged(after.cells).contains(i));
            }
        }
    }
    assert forall|i: int| 0 <= i < board.cells.len() implies (#[trigger] after.cells[i]).state
        == board.cells[i].state by {
        assert(laid[i] == board.cells[i] || laid[i] == crate::laying::with_mine(board.cells[i]));
    }
}

} // verus!
