//! What a sequence of cells says as a minefield: where the mines and the
//! flags are, and which count belongs on each cell.

use vstd::prelude::*;
use vstd::set_lib::{lemma_int_range, lemma_len_subset, set_int_range};
use crate::cell::{Cell, CellState, CellType};
use crate::grid::{adjacent, around, lemma_around_bound};

verus! {

/// Cell `i` holds a mine.
pub open spec fn is_mine(cells: Seq<Cell>, i: int) -> bool {
    0 <= i < cells.len() && cells[i].ty == CellType::Mine
}

/// Cell `i` carries a flag.
pub open spec fn is_flagged(cells: Seq<Cell>, i: int) -> bool {
    0 <= i < cells.len() && cells[i].state == CellState::Flagged
}

/// Cell `i` has not been revealed and carries no flag.
pub open spec fn is_hidden(cells: Seq<Cell>, i: int) -> bool {
    0 <= i < cells.len() && cells[i].state == CellState::Hidden
}

/// The cells that hold a mine.
pub open spec fn mines(cells: Seq<Cell>) -> Set<int> {
    Set::new(|i: int| is_mine(cells, i))
}

/// The cells that carry a flag.
pub open spec fn flagged(cells: Seq<Cell>) -> Set<int> {
    Set::new(|i: int| is_flagged(cells, i))
}

/// The mines that carry a flag.
pub open spec fn flagged_mines(cells: Seq<Cell>) -> Set<int> {
    Set::new(|i: int| is_flagged(cells, i) && is_mine(cells, i))
}

/// The cells that are neither revealed nor flagged.
pub open spec fn hidden(cells: Seq<Cell>) -> Set<int> {
    Set::new(|i: int| is_hidden(cells, i))
}

/// The mines among the cells adjacent to `i`.
pub open spec fn mines_around(cells: Seq<Cell>, width: int, height: int, i: int) -> Set<int> {
    Set::new(|j: int| adjacent(width, height, i, j) && is_mine(cells, j))
}

/// What cell `i` must hold, given where the mines are: a mine stays a mine,
/// any other cell shows how many mines touch it.
pub open spec fn kind_at(cells: Seq<Cell>, width: int, height: int, i: int) -> CellType {
    if is_mine(cells, i) {
        CellType::Mine
    } else {
        CellType::of_count(mines_around(cells, width, height, i).len())
    }
}

/// Every cell that is no mine shows the number of mines adjacent to it.
pub open spec fn numbered(cells: Seq<Cell>, width: int, height: int) -> bool {
    forall|i: int| 0 <= i < cells.len() ==> (#[trigger] cells[i]).ty == kind_at(cells, width, height, i)
}

/// Any set of cell numbers is finite and no larger than the field.
pub proof fn lemma_cells_finite(cells: Seq<Cell>, s: Set<int>)
    requires
        forall|i: int| s.contains(i) ==> 0 <= i < cells.len(),
    ensures
        s.finite(),
        s.len() <= cells.len(),
{
    lemma_int_range(0, cells.len() as int);
    assert(s.subset_of(set_int_range(0, cells.len() as int)));
    lemma_len_subset(s, set_int_range(0, cells.len() as int));
}

/// The mines around a cell are at most eight.
pub proof fn lemma_mines_around_bound(cells: Seq<Cell>, width: int, height: int, i: int)
    ensures
        mines_around(cells, width, height, i).finite(),
        mines_around(cells, width, height, i).len() <= 8,
{
    lemma_around_bound(width, height, i);
    assert(mines_around(cells, width, height, i).subset_of(around(width, height, i)));
    lemma_len_subset(mines_around(cells, width, height, i), around(width, height, i));
}

/// On a numbered field every count lies between 1 and 8, and no mine is
/// adjacent to an empty cell.
pub proof fn lemma_numbered_kinds(cells: Seq<Cell>, width: int, height: int, i: int)
    requires
        numbered(cells, width, height),
        0 <= i < cells.len(),
    ensures
        cells[i].ty.wf(),
        cells[i].ty == CellType::Empty ==> forall|j: int|
            adjacent(width, height, i, j) ==> !is_mine(cells, j),
{
    lemma_mines_around_bound(cells, width, height, i);
    let near = mines_around(cells, width, height, i);
    if cells[i].ty == CellType::Empty {
        assert(near.len() == 0);
        assert forall|j: int| adjacent(width, height, i, j) implies !is_mine(cells, j) by {
            if is_mine(cells, j) {
                assert(near.contains(j));
            }
        }
    }
}

/// Where two fields agree on what every cell holds, they are numbered
/// together.
pub proof fn lemma_numbered_by_kinds(before: Seq<Cell>, after: Seq<Cell>, width: int, height: int)
    requires
        numbered(before, width, height),
        after.len() == before.len(),
        forall|i: int| 0 <= i < before.len() ==> (#[trigger] after[i]).ty == before[i].ty,
    ensures
        numbered(after, width, height),
{
    assert forall|i: int| 0 <= i < after.len() implies (#[trigger] after[i]).ty == kind_at(
        after,
        width,
        height,
        i,
    ) by {
        assert(before[i].ty == kind_at(before, width, height, i));
        assert(mines_around(after, width, height, i) =~= mines_around(before, width, height, i));
    }
}

} // verus!
