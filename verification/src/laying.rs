//! Laying the mines: which cell each draw selects, and the field that comes
//! of a list of draws.

use vstd::prelude::*;
use crate::cell::{Cell, CellType};
use crate::field::{is_mine, kind_at, mines_around, numbered};
use crate::grid::{adjacent, around, lemma_around_bound};
use crate::model::lists_mines;

verus! {

/// Cell `i` can take a mine: it is not the cell of the first move and holds
/// no mine yet.
pub open spec fn is_free(cells: Seq<Cell>, origin: int, i: int) -> bool {
    0 <= i < cells.len() && i != origin && cells[i].ty != CellType::Mine
}

/// The number of cells from `from` on that can take a mine.
pub open spec fn free_from(cells: Seq<Cell>, origin: int, from: int) -> nat
    decreases cells.len() - from,
{
    if from >= cells.len() {
        0
    } else if is_free(cells, origin, from) {
        1 + free_from(cells, origin, from + 1)
    } else {
        free_from(cells, origin, from + 1)
    }
}

/// The cell that the draw `n` selects among the cells from `from` on: the
/// one that can take a mine and has `n` such cells between `from` and
/// itself. Where there are too few, the result is the number of cells.
pub open spec fn pick(cells: Seq<Cell>, origin: int, from: int, n: nat) -> int
    decreases cells.len() - from,
{
    if from >= cells.len() {
        cells.len() as int
    } else if !is_free(cells, origin, from) {
        pick(cells, origin, from + 1, n)
    } else if n == 0 {
        from
    } else {
        pick(cells, origin, from + 1, (n - 1) as nat)
    }
}

/// The cell with a mine put on it.
pub open spec fn with_mine(cell: Cell) -> Cell {
    Cell { ty: CellType::Mine, state: cell.state }
}

/// The field after one mine was laid for each draw in turn, each on the
/// cell that its draw selects among those still free.
pub open spec fn mined(cells: Seq<Cell>, origin: int, draws: Seq<usize>) -> Seq<Cell>
    decreases draws.len(),
{
    if draws.len() == 0 {
        cells
    } else {
        let before = mined(cells, origin, draws.drop_last());
        let p = pick(before, origin, 0, draws.last() as nat);
        before.update(p, with_mine(before[p]))
    }
}

/// The cells on which the draws lay their mines, in the order of the draws.
pub open spec fn mine_order(cells: Seq<Cell>, origin: int, draws: Seq<usize>) -> Seq<usize>
    decreases draws.len(),
{
    if draws.len() == 0 {
        Seq::empty()
    } else {
        let before = mined(cells, origin, draws.drop_last());
        mine_order(cells, origin, draws.drop_last()).push(
            pick(before, origin, 0, draws.last() as nat) as usize,
        )
    }
}

/// Every draw is below the number of cells that are free when it is used.
pub open spec fn fits(cells: Seq<Cell>, origin: int, draws: Seq<usize>) -> bool {
    forall|k: int| 0 <= k < draws.len() ==> #[trigger] draws[k] + k < free_from(cells, origin, 0)
}

/// The field with each cell showing what it must: a mine where one lies,
/// elsewhere the number of mines adjacent to it.
pub open spec fn counted(cells: Seq<Cell>, width: int, height: int) -> Seq<Cell> {
    Seq::new(
        cells.len(),
        |i: int| Cell { ty: kind_at(cells, width, height, i), state: cells[i].state },
    )
}

/// A draw below the number of free cells selects a free cell.
pub proof fn lemma_pick_free(cells: Seq<Cell>, origin: int, from: int, n: nat)
    requires
        0 <= from,
        n < free_from(cells, origin, from),
    ensures
        is_free(cells, origin, pick(cells, origin, from, n)),
        from <= pick(cells, origin, from, n),
    decreases cells.len() - from,
{
    if from < cells.len() {
        if !is_free(cells, origin, from) {
            lemma_pick_free(cells, origin, from + 1, n);
        } else if n > 0 {
            lemma_pick_free(cells, origin, from + 1, (n - 1) as nat);
        }
    }
}

/// A mine laid on a free cell takes one from the number of free cells.
pub proof fn lemma_free_after_mine(cells: Seq<Cell>, origin: int, p: int, from: int)
    requires
        is_free(cells, origin, p),
        0 <= from,
    ensures
        free_from(cells.update(p, with_mine(cells[p])), origin, from) + (if from <= p {
            1nat
        } else {
            0nat
        }) == free_from(cells, origin, from),
    decreases cells.len() - from,
{
    if from < cells.len() {
        lemma_free_after_mine(cells, origin, p, from + 1);
    }
}

/// On a field without mines every cell but that of the first move is free.
pub proof fn lemma_free_without_mines(cells: Seq<Cell>, origin: int, from: int)
    requires
        forall|i: int| 0 <= i < cells.len() ==> !is_mine(cells, i),
        0 <= from <= cells.len(),
    ensures
        free_from(cells, origin, from) + (if from <= origin < cells.len() {
            1nat
        } else {
            0nat
        }) == cells.len() - from,
    decreases cells.len() - from,
{
    if from < cells.len() {
        assert(!is_mine(cells, from));
        lemma_free_without_mines(cells, origin, from + 1);
    }
}

/// What laying the mines does to a field that held none: the cell of the
/// first move gets none, every draw lays one mine on a cell of its own, the
/// list names them, and nothing else changes.
pub proof fn lemma_mined(cells: Seq<Cell>, origin: int, draws: Seq<usize>)
    requires
        cells.len() <= usize::MAX,
        forall|i: int| 0 <= i < cells.len() ==> !is_mine(cells, i),
        fits(cells, origin, draws),
    ensures
        mined(cells, origin, draws).len() == cells.len(),
        mine_order(cells, origin, draws).len() == draws.len(),
        lists_mines(mined(cells, origin, draws), mine_order(cells, origin, draws)),
        !is_mine(mined(cells, origin, draws), origin),
        free_from(mined(cells, origin, draws), origin, 0) + draws.len() == free_from(
            cells,
            origin,
            0,
        ),
        forall|i: int|
            0 <= i < cells.len() ==> (#[trigger] mined(cells, origin, draws)[i]) == cells[i]
                || mined(cells, origin, draws)[i] == with_mine(cells[i]),
    decreases draws.len(),
{
    let after = mined(cells, origin, draws);
    let order = mine_order(cells, origin, draws);
    if draws.len() == 0 {
        assert(lists_mines(after, order));
    } else {
        let fewer = draws.drop_last();
        assert(fits(cells, origin, fewer)) by {
            assert forall|k: int| 0 <= k < fewer.len() implies #[trigger] fewer[k] + k < free_from(
                cells,
                origin,
                0,
            ) by {
                assert(fewer[k] == draws[k]);
            }
        }
        lemma_mined(cells, origin, fewer);
        let before = mined(cells, origin, fewer);
        let listed = mine_order(cells, origin, fewer);
        let n = draws.last() as nat;
        assert(draws[draws.len() - 1] + (draws.len() - 1) < free_from(cells, origin, 0));
        lemma_pick_free(before, origin, 0, n);
        let p = pick(before, origin, 0, n);
        lemma_free_after_mine(before, origin, p, 0);
        assert(after == before.update(p, with_mine(before[p])));
        assert(order == listed.push(p as usize));
        assert(!listed.contains(p as usize)) by {
            if listed.contains(p as usize) {
                let k = choose|k: int| 0 <= k < listed.len() && listed[k] == p as usize;
                assert(is_mine(before, listed[k] as int));
            }
        }
        assert(order.no_duplicates());
        assert forall|k: int| 0 <= k < order.len() implies is_mine(
            after,
            #[trigger] order[k] as int,
        ) by {
            if k < listed.len() {
                assert(order[k] == listed[k]);
                assert(is_mine(before, listed[k] as int));
            }
        }
        assert forall|i: int| is_mine(after, i) implies order.contains(i as usize) by {
            if i == p {
                assert(order[listed.len() as int] == p as usize);
            } else {
                assert(is_mine(before, i));
                let k = choose|k: int| 0 <= k < listed.len() && listed[k] == i as usize;
                assert(order[k] == i as usize);
            }
        }
        assert(lists_mines(after, order));
    }
}

/// The cells adjacent to `i` that are among the first `upto` of the list.
pub open spec fn mines_among(
    locs: Seq<usize>,
    upto: int,
    width: int,
    height: int,
    i: int,
) -> Set<int> {
    Set::new(
        |c: int|
            adjacent(width, height, i, c) && exists|t: int|
                0 <= t < upto && t < locs.len() && #[trigger] locs[t] == c,
    )
}

/// What cell `i` shows while the mines are being counted: the mines among
/// the first `upto` of the list that touch it, and one more where `bump`
/// says so.
pub open spec fn tally(
    cells: Seq<Cell>,
    locs: Seq<usize>,
    upto: int,
    width: int,
    height: int,
    bump: bool,
    i: int,
) -> Cell {
    let more: nat = if bump {
        1
    } else {
        0
    };
    Cell {
        ty: if is_mine(cells, i) {
            CellType::Mine
        } else {
            CellType::of_count(mines_among(locs, upto, width, height, i).len() + more)
        },
        state: cells[i].state,
    }
}

/// One more mine of the list adds one to the count of the cells that it
/// touches, and the count stays within eight.
pub proof fn lemma_mines_among_next(locs: Seq<usize>, k: int, width: int, height: int, i: int)
    requires
        locs.no_duplicates(),
        0 <= k < locs.len(),
    ensures
        mines_among(locs, k, width, height, i).finite(),
        mines_among(locs, k + 1, width, height, i).finite(),
        mines_among(locs, k + 1, width, height, i).len() <= 8,
        mines_among(locs, k + 1, width, height, i).len() == mines_among(
            locs,
            k,
            width,
            height,
            i,
        ).len() + (if adjacent(width, height, i, locs[k] as int) {
            1nat
        } else {
            0nat
        }),
{
    let fewer = mines_among(locs, k, width, height, i);
    let more = mines_among(locs, k + 1, width, height, i);
    lemma_around_bound(width, height, i);
    assert(fewer.subset_of(around(width, height, i)));
    assert(more.subset_of(around(width, height, i)));
    vstd::set_lib::lemma_len_subset(fewer, around(width, height, i));
    vstd::set_lib::lemma_len_subset(more, around(width, height, i));
    if adjacent(width, height, i, locs[k] as int) {
        assert(more.contains(locs[k] as int));
        assert(!fewer.contains(locs[k] as int));
        assert(more =~= fewer.insert(locs[k] as int));
    } else {
        assert(more =~= fewer);
    }
}

/// Once the whole list is counted, every cell shows what it must.
pub proof fn lemma_tally_done(cells: Seq<Cell>, locs: Seq<usize>, width: int, height: int, i: int)
    requires
        lists_mines(cells, locs),
        0 <= i < cells.len(),
    ensures
        tally(cells, locs, locs.len() as int, width, height, false, i) == counted(
            cells,
            width,
            height,
        )[i],
{
    let among = mines_among(locs, locs.len() as int, width, height, i);
    let near = mines_around(cells, width, height, i);
    assert forall|c: int| among.contains(c) implies near.contains(c) by {
        let t = choose|t: int| 0 <= t < locs.len() && #[trigger] locs[t] == c;
        assert(is_mine(cells, locs[t] as int));
    }
    assert forall|c: int| near.contains(c) implies among.contains(c) by {
        assert(locs.contains(c as usize));
        let t = choose|t: int| 0 <= t < locs.len() && locs[t] == c as usize;
        assert(locs[t] == c);
    }
    assert(among =~= near);
}

/// Counting the mines around each cell changes neither the mines nor what
/// the player sees, and gives a numbered field.
pub proof fn lemma_counted(cells: Seq<Cell>, width: int, height: int)
    ensures
        counted(cells, width, height).len() == cells.len(),
        numbered(counted(cells, width, height), width, height),
        forall|i: int|
            0 <= i < cells.len() ==> (#[trigger] counted(cells, width, height)[i]).state
                == cells[i].state,
        forall|i: int| is_mine(counted(cells, width, height), i) == is_mine(cells, i),
{
    let after = counted(cells, width, height);
    assert forall|i: int| is_mine(after, i) == is_mine(cells, i) by {}
    assert forall|i: int| 0 <= i < after.len() implies (#[trigger] after[i]).ty == kind_at(
        after,
        width,
        height,
        i,
    ) by {
        assert(mines_around(after, width, height, i) =~= mines_around(cells, width, height, i));
    }
}

} // verus!
