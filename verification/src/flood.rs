//! The reveal as a relation between cells: which cells a reveal reaches, and
//! why a depth-first walk over the neighbours opens exactly those.

use vstd::prelude::*;
use crate::cell::{Cell, CellState, CellType};
use crate::field::{is_hidden, is_mine, lemma_numbered_kinds, numbered};
use crate::grid::adjacent;

verus! {

/// A way that a reveal can take: a walk over hidden cells, from each to an
/// adjacent one, that leaves only empty cells behind. Its last cell may
/// hold anything.
pub open spec fn spreads(cells: Seq<Cell>, width: int, height: int, path: Seq<int>) -> bool {
    &&& path.len() > 0
    &&& forall|k: int| 0 <= k < path.len() ==> is_hidden(cells, #[trigger] path[k])
    &&& forall|k: int|
        0 <= k < path.len() - 1 ==> cells[#[trigger] path[k]].ty == CellType::Empty && adjacent(
            width,
            height,
            path[k],
            path[k + 1],
        )
}

/// A reveal of cell `from` reaches cell `to`.
pub open spec fn reveals(cells: Seq<Cell>, width: int, height: int, from: int, to: int) -> bool {
    exists|path: Seq<int>|
        #[trigger] spreads(cells, width, height, path) && path[0] == from && path.last() == to
}

/// The cell, revealed.
pub open spec fn opened(cell: Cell) -> Cell {
    Cell { ty: cell.ty, state: CellState::Open }
}

/// The field after a reveal of cell `from`: the cells that the reveal
/// reaches are open, the others as they were.
pub open spec fn revealed(cells: Seq<Cell>, width: int, height: int, from: int) -> Seq<Cell> {
    Seq::new(
        cells.len(),
        |i: int|
            if reveals(cells, width, height, from, i) {
                opened(cells[i])
            } else {
                cells[i]
            },
    )
}

/// `now` comes from `start` by opening hidden cells, and by nothing else.
pub open spec fn opened_from(start: Seq<Cell>, now: Seq<Cell>) -> bool {
    &&& now.len() == start.len()
    &&& forall|i: int|
        0 <= i < start.len() ==> (#[trigger] now[i]) == start[i] || (start[i].state
            == CellState::Hidden && now[i] == opened(start[i]))
}

/// A reveal of a hidden cell reaches that cell.
pub proof fn lemma_reveals_self(cells: Seq<Cell>, width: int, height: int, a: int)
    requires
        is_hidden(cells, a),
    ensures
        reveals(cells, width, height, a, a),
{
    let path = seq![a];
    assert(spreads(cells, width, height, path));
    assert(path[0] == a && path.last() == a);
}

/// A reveal reaches hidden cells only, and only from a hidden cell.
pub proof fn lemma_reveals_hidden(cells: Seq<Cell>, width: int, height: int, a: int, b: int)
    requires
        reveals(cells, width, height, a, b),
    ensures
        is_hidden(cells, a),
        is_hidden(cells, b),
{
    let path = choose|path: Seq<int>|
        #[trigger] spreads(cells, width, height, path) && path[0] == a && path.last() == b;
    assert(is_hidden(cells, path[0]));
    assert(is_hidden(cells, path[path.len() - 1]));
}

/// A reveal of a cell that is not empty reaches no other cell.
pub proof fn lemma_reveals_stops(cells: Seq<Cell>, width: int, height: int, a: int, b: int)
    requires
        reveals(cells, width, height, a, b),
        cells[a].ty != CellType::Empty,
    ensures
        b == a,
{
    let path = choose|path: Seq<int>|
        #[trigger] spreads(cells, width, height, path) && path[0] == a && path.last() == b;
    if path.len() > 1 {
        assert(cells[path[0]].ty == CellType::Empty);
    }
}

/// A reveal that reaches an empty cell reaches the hidden cells adjacent to
/// it.
pub proof fn lemma_reveals_extend(
    cells: Seq<Cell>,
    width: int,
    height: int,
    a: int,
    b: int,
    c: int,
)
    requires
        reveals(cells, width, height, a, b),
        cells[b].ty == CellType::Empty,
        adjacent(width, height, b, c),
        is_hidden(cells, c),
    ensures
        reveals(cells, width, height, a, c),
{
    let path = choose|path: Seq<int>|
        #[trigger] spreads(cells, width, height, path) && path[0] == a && path.last() == b;
    let longer = path.push(c);
    assert forall|k: int| 0 <= k < longer.len() implies is_hidden(cells, #[trigger] longer[k]) by {
        if k < path.len() {
            assert(longer[k] == path[k]);
        }
    }
    assert forall|k: int| 0 <= k < longer.len() - 1 implies cells[#[trigger] longer[k]].ty
        == CellType::Empty && adjacent(width, height, longer[k], longer[k + 1]) by {
        assert(longer[k] == path[k]);
        if k < path.len() - 1 {
            assert(longer[k + 1] == path[k + 1]);
        }
    }
    assert(spreads(cells, width, height, longer));
    assert(longer[0] == a && longer.last() == c);
}

/// What a reveal of a neighbour of the hidden empty cell `a` reaches, on a
/// field on which some hidden cells have been opened since, a reveal of `a`
/// reaches on the field as it was.
pub proof fn lemma_reveals_through(
    start: Seq<Cell>,
    now: Seq<Cell>,
    width: int,
    height: int,
    a: int,
    n: int,
    i: int,
)
    requires
        opened_from(start, now),
        is_hidden(start, a),
        start[a].ty == CellType::Empty,
        adjacent(width, height, a, n),
        reveals(now, width, height, n, i),
    ensures
        reveals(start, width, height, a, i),
{
    let path = choose|path: Seq<int>|
        #[trigger] spreads(now, width, height, path) && path[0] == n && path.last() == i;
    let longer = seq![a] + path;
    assert forall|k: int| 0 <= k < longer.len() implies is_hidden(start, #[trigger] longer[k]) by {
        if k > 0 {
            assert(longer[k] == path[k - 1]);
            assert(is_hidden(now, path[k - 1]));
        }
    }
    assert forall|k: int| 0 <= k < longer.len() - 1 implies start[#[trigger] longer[k]].ty
        == CellType::Empty && adjacent(width, height, longer[k], longer[k + 1]) by {
        assert(longer[k + 1] == path[k]);
        if k > 0 {
            assert(longer[k] == path[k - 1]);
            assert(is_hidden(now, path[k - 1]));
        }
    }
    assert(spreads(start, width, height, longer));
    assert(longer[0] == a && longer.last() == i);
}

/// A reveal of a cell that is not hidden changes nothing, and a reveal of a
/// hidden cell that is not empty opens that cell and no other.
pub proof fn lemma_revealed_alone(cells: Seq<Cell>, width: int, height: int, a: int)
    requires
        0 <= a < cells.len(),
        cells[a].state != CellState::Hidden || cells[a].ty != CellType::Empty,
    ensures
        revealed(cells, width, height, a) == if cells[a].state == CellState::Hidden {
            cells.update(a, opened(cells[a]))
        } else {
            cells
        },
{
    let after = revealed(cells, width, height, a);
    assert forall|i: int| 0 <= i < cells.len() && i != a implies after[i] == cells[i] by {
        if reveals(cells, width, height, a, i) {
            lemma_reveals_hidden(cells, width, height, a, i);
            lemma_reveals_stops(cells, width, height, a, i);
        }
    }
    if cells[a].state == CellState::Hidden {
        lemma_reveals_self(cells, width, height, a);
        assert(after =~= cells.update(a, opened(cells[a])));
    } else {
        if reveals(cells, width, height, a, a) {
            lemma_reveals_hidden(cells, width, height, a, a);
        }
        assert(after =~= cells);
    }
}

/// On a numbered field a reveal opens no mine but the one it starts on.
pub proof fn lemma_reveals_spares_mines(
    cells: Seq<Cell>,
    width: int,
    height: int,
    a: int,
    b: int,
)
    requires
        numbered(cells, width, height),
        reveals(cells, width, height, a, b),
        b != a,
    ensures
        !is_mine(cells, b),
{
    let path = choose|path: Seq<int>|
        #[trigger] spreads(cells, width, height, path) && path[0] == a && path.last() == b;
    let k = path.len() - 2;
    assert(is_hidden(cells, path[k]));
    assert(cells[path[k]].ty == CellType::Empty && adjacent(width, height, path[k], path[k + 1]));
    lemma_numbered_kinds(cells, width, height, path[k]);
}

/// What holds while the reveal of the hidden empty cell `a` is under way:
/// only hidden cells have been opened, all of them cells that the reveal
/// reaches, `a` among them; and around every other empty cell opened so far
/// nothing is hidden any more.
pub open spec fn flooding(start: Seq<Cell>, now: Seq<Cell>, width: int, height: int, a: int) -> bool {
    &&& opened_from(start, now)
    &&& is_hidden(start, a)
    &&& start[a].ty == CellType::Empty
    &&& !is_hidden(now, a)
    &&& forall|i: int|
        is_hidden(start, i) && !(#[trigger] is_hidden(now, i)) ==> reveals(
            start,
            width,
            height,
            a,
            i,
        )
    &&& forall|i: int, c: int|
        i != a && is_hidden(start, i) && !is_hidden(now, i) && start[i].ty == CellType::Empty
            && #[trigger] adjacent(width, height, i, c) ==> !is_hidden(now, c)
}

/// The reveal of `a` is under way once `a` itself has been opened.
pub proof fn lemma_flooding_begins(start: Seq<Cell>, width: int, height: int, a: int)
    requires
        is_hidden(start, a),
        start[a].ty == CellType::Empty,
    ensures
        flooding(start, start.update(a, opened(start[a])), width, height, a),
{
    let now = start.update(a, opened(start[a]));
    lemma_reveals_self(start, width, height, a);
    assert(opened_from(start, now));
}

/// The reveal of `a` stays under way when a neighbour `n` of `a` is revealed
/// in turn; after that `n` is not hidden, and what was not hidden stays so.
pub proof fn lemma_flooding_goes_on(
    start: Seq<Cell>,
    now: Seq<Cell>,
    width: int,
    height: int,
    a: int,
    n: int,
)
    requires
        flooding(start, now, width, height, a),
        adjacent(width, height, a, n),
    ensures
        flooding(start, revealed(now, width, height, n), width, height, a),
        !is_hidden(revealed(now, width, height, n), n),
        forall|c: int| !is_hidden(now, c) ==> !is_hidden(revealed(now, width, height, n), c),
        opened_from(now, revealed(now, width, height, n)),
{
    let next = revealed(now, width, height, n);
    assert forall|i: int| 0 <= i < now.len() implies (#[trigger] next[i]) == now[i] || (
    now[i].state == CellState::Hidden && next[i] == opened(now[i])) by {
        if reveals(now, width, height, n, i) {
            lemma_reveals_hidden(now, width, height, n, i);
        }
    }
    assert(opened_from(now, next));
    assert(opened_from(start, next));
    if is_hidden(now, n) {
        lemma_reveals_self(now, width, height, n);
    }
    assert forall|i: int| is_hidden(start, i) && !(#[trigger] is_hidden(next, i)) implies reveals(
        start,
        width,
        height,
        a,
        i,
    ) by {
        if is_hidden(now, i) {
            assert(reveals(now, width, height, n, i));
            lemma_reveals_through(start, now, width, height, a, n, i);
        }
    }
    assert forall|i: int, c: int|
        i != a && is_hidden(start, i) && !is_hidden(next, i) && start[i].ty == CellType::Empty
            && #[trigger] adjacent(width, height, i, c) implies !is_hidden(next, c) by {
        if is_hidden(next, c) {
            assert(is_hidden(now, c));
            if is_hidden(now, i) {
                assert(reveals(now, width, height, n, i));
                lemma_reveals_extend(now, width, height, n, i, c);
                assert(next[c] == opened(now[c]));
            }
        }
    }
}

/// Along a way that the reveal of `a` can take, nothing stays hidden once
/// the reveal has left nothing hidden around `a` and around the empty cells
/// that it opened.
proof fn lemma_way_opened(
    start: Seq<Cell>,
    done: Seq<Cell>,
    width: int,
    height: int,
    a: int,
    path: Seq<int>,
    k: int,
)
    requires
        flooding(start, done, width, height, a),
        forall|c: int| adjacent(width, height, a, c) ==> !is_hidden(done, c),
        spreads(start, width, height, path),
        path[0] == a,
        0 <= k < path.len(),
    ensures
        !is_hidden(done, path[k]),
    decreases k,
{
    if k > 0 {
        lemma_way_opened(start, done, width, height, a, path, k - 1);
        let i = path[k - 1];
        assert(is_hidden(start, i));
        assert(start[i].ty == CellType::Empty && adjacent(width, height, i, path[k]));
    }
}

/// Once the reveal of `a` has left nothing hidden around `a`, the field is
/// the one that the reveal of `a` is to give.
pub proof fn lemma_flooding_ends(start: Seq<Cell>, done: Seq<Cell>, width: int, height: int, a: int)
    requires
        flooding(start, done, width, height, a),
        forall|c: int| adjacent(width, height, a, c) ==> !is_hidden(done, c),
    ensures
        done == revealed(start, width, height, a),
{
    let goal = revealed(start, width, height, a);
    assert forall|i: int| 0 <= i < start.len() implies done[i] == goal[i] by {
        if reveals(start, width, height, a, i) {
            let path = choose|path: Seq<int>|
                #[trigger] spreads(start, width, height, path) && path[0] == a && path.last() == i;
            lemma_way_opened(start, done, width, height, a, path, path.len() - 1);
            lemma_reveals_hidden(start, width, height, a, i);
        } else {
            if done[i] != start[i] {
                assert(!is_hidden(done, i));
            }
        }
    }
    assert(done =~= goal);
}

} // verus!
