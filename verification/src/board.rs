//! The board: the grid of cells, the mines, and the moves of the game.

use vstd::prelude::*;
use crate::cell::{Cell, CellState, CellType, Glyph};
use crate::field::{
    flagged,
    flagged_mines,
    hidden,
    is_hidden,
    is_mine,
    lemma_numbered_by_kinds,
    lemma_numbered_kinds,
    mines,
    numbered,
};
use crate::flood::{
    flooding,
    lemma_flooding_begins,
    lemma_flooding_ends,
    lemma_flooding_goes_on,
    lemma_revealed_alone,
    opened,
    opened_from,
    revealed,
};
use crate::grid::{adjacent, lemma_cell_of_coordinates, lemma_coordinates_of_cell, on_grid};
use crate::laying::{
    counted,
    free_from,
    is_free,
    lemma_free_without_mines,
    lemma_mined,
    lemma_mines_among_next,
    lemma_tally_done,
    mine_order,
    mined,
    pick,
    tally,
    with_mine,
};
use crate::model::{
    lemma_mine_count,
    lemma_opening_keeps_wf,
    lemma_start_lays_mines,
    lemma_unstarted_blank,
    lists_mines,
    BoardView,
};
use crate::random::gen_below;
use rand::thread_rng;

verus! {

/// A column and a row of the grid.
pub type Coord = (usize, usize);

/// A Minesweeper board.
pub struct Board {
    pub width: usize,
    pub height: usize,
    pub resolution: usize,
    pub num_mines: usize,
    pub num_allowed_flags: usize,
    pub num_used_flags: usize,
    pub mines_flagged: usize,
    pub mines_locs: Vec<usize>,
    pub data: Vec<Cell>,
}

impl View for Board {
    type V = BoardView;

    open spec fn view(&self) -> BoardView {
        BoardView {
            width: self.width as nat,
            height: self.height as nat,
            num_mines: self.num_mines as nat,
            allowed_flags: self.num_allowed_flags as nat,
            used_flags: self.num_used_flags as nat,
            mines_flagged: self.mines_flagged as nat,
            mines: self.mines_locs@,
            cells: self.data@,
        }
    }
}

/// The direction in which cell `b` lies from the adjacent cell `a`, as a
/// number from 0 to 8: three times the column step plus the row step, each
/// step counted from 0 for "one back".
pub open spec fn heading(width: int, a: int, b: int) -> int {
    (b % width - a % width + 1) * 3 + (b / width - a / width + 1)
}

/// Cell `i` is among the first `upto` of the list.
pub open spec fn listed(cells: Seq<usize>, upto: int, i: int) -> bool {
    exists|t: int| 0 <= t < upto && t < cells.len() && #[trigger] cells[t] == i
}

/// A vector of `n` empty, hidden cells.
fn blank_cells(n: usize) -> (cells: Vec<Cell>)
    ensures
        cells@ == Seq::new(n as nat, |i: int| Cell::blank()),
{
    let mut cells: Vec<Cell> = Vec::new();
    let mut i: usize = 0;
    while i < n
        invariant
            i <= n,
            cells@ == Seq::new(i as nat, |k: int| Cell::blank()),
        decreases n - i,
    {
        cells.push(Cell::default());
        i = i + 1;
    }
    cells
}

/// A field without mines and flags is numbered, and its sets of mines and
/// flags are empty.
proof fn lemma_blank_field(n: nat, width: int, height: int)
    ensures
        numbered(Seq::new(n, |i: int| Cell::blank()), width, height),
        mines(Seq::new(n, |i: int| Cell::blank())) == Set::<int>::empty(),
        flagged(Seq::new(n, |i: int| Cell::blank())) == Set::<int>::empty(),
        flagged_mines(Seq::new(n, |i: int| Cell::blank())) == Set::<int>::empty(),
{
    let cells = Seq::new(n, |i: int| Cell::blank());
    assert(mines(cells) =~= Set::<int>::empty());
    assert(flagged(cells) =~= Set::<int>::empty());
    assert(flagged_mines(cells) =~= Set::<int>::empty());
    assert forall|i: int| 0 <= i < cells.len() implies (#[trigger] cells[i]).ty
        == crate::field::kind_at(cells, width, height, i) by {
        assert(crate::field::mines_around(cells, width, height, i) =~= Set::<int>::empty());
    }
}

impl Board {
    /// The invariant of the board: that of its state, and `resolution` is
    /// the number of positions of the grid.
    pub open spec fn wf(&self) -> bool {
        &&& self@.wf()
        &&& self.resolution == self.width * self.height
    }

    /// Makes a board of the given size on which no move has been made. The
    /// mines are at most as many as the cells, and the flags at least as
    /// many as the mines asked for.
    pub fn new(width: usize, height: usize, num_mines: usize, num_flags: usize) -> (board: Board)
        requires
            width * height <= usize::MAX,
        ensures
            board.wf(),
            board@ == BoardView::fresh(
                width as nat,
                height as nat,
                num_mines as nat,
                num_flags as nat,
            ),
            board.resolution == width * height,
    {
        let resolution = width * height;
        let board = Board {
            data: blank_cells(resolution),
            num_mines: if num_mines <= resolution {
                num_mines
            } else {
                resolution
            },
            num_allowed_flags: if num_flags >= num_mines {
                num_flags
            } else {
                num_mines
            },
            num_used_flags: 0,
            mines_flagged: 0,
            mines_locs: Vec::new(),
            resolution,
            width,
            height,
        };
        proof {
            lemma_blank_field(resolution as nat, width as int, height as int);
        }
        board
    }

    /// Clears the board for a new round: every cell empty and hidden, no mine
    /// laid, no flag set. Dimensions and limits stay.
    pub fn reset(&mut self)
        requires
            old(self).wf(),
        ensures
            final(self).wf(),
            final(self)@ == old(self)@.reset(),
            final(self).resolution == old(self).resolution,
    {
        self.data = blank_cells(self.resolution);
        self.num_used_flags = 0;
        self.mines_flagged = 0;
        self.mines_locs.clear();
        proof {
            lemma_blank_field(self.resolution as nat, self.width as int, self.height as int);
        }
    }

    /// The number of the cell in column `pos.0` of row `pos.1`.
    pub fn coord_to_pos(&self, pos: Coord) -> (index: usize)
        requires
            self.resolution == self.width * self.height,
            pos.0 < self.width,
            pos.1 < self.height,
        ensures
            index == pos.0 + self.width * pos.1,
            index < self.resolution,
            index % self.width == pos.0,
            index / self.width == pos.1,
    {
        proof {
            lemma_cell_of_coordinates(
                self.width as int,
                self.height as int,
                pos.0 as int,
                pos.1 as int,
            );
            assert(self.width * pos.1 == pos.1 * self.width) by (nonlinear_arith);
        }
        pos.0 + self.width * pos.1
    }

    /// The cell in column `pos.0` of row `pos.1`.
    pub fn get(&self, pos: Coord) -> (cell: &Cell)
        requires
            self.wf(),
            pos.0 < self.width,
            pos.1 < self.height,
        ensures
            *cell == self@.cells[pos.0 + self.width * pos.1],
    {
        &self.data[self.coord_to_pos(pos)]
    }

    /// The cells adjacent to cell `index`, each once: those that differ from
    /// it by at most one column and one row and lie on the board. They come
    /// column by column from the left, and from the top within a column.
    pub fn get_neighbours(&self, index: usize) -> (neighbours: Vec<usize>)
        requires
            self.resolution == self.width * self.height,
            index < self.resolution,
        ensures
            neighbours@.no_duplicates(),
            neighbours@.len() <= 8,
            forall|k: int|
                0 <= k < neighbours@.len() ==> adjacent(
                    self.width as int,
                    self.height as int,
                    index as int,
                    #[trigger] neighbours@[k] as int,
                ),
            forall|a: int, b: int|
                0 <= a < b < neighbours@.len() ==> heading(
                    self.width as int,
                    index as int,
                    #[trigger] neighbours@[a] as int,
                ) < heading(self.width as int, index as int, #[trigger] neighbours@[b] as int),
            forall|j: int|
                adjacent(self.width as int, self.height as int, index as int, j) ==> 0 <= j
                    <= usize::MAX && neighbours@.contains(j as usize),
    {
        let ghost w = self.width as int;
        let ghost h = self.height as int;
        assert(self.width > 0) by (nonlinear_arith)
            requires
                index < self.width * self.height,
        ;
        let x = index % self.width;
        let y = index / self.width;
        proof {
            lemma_coordinates_of_cell(w, h, index as int);
        }
        let mut neighbours: Vec<usize> = Vec::new();
        let mut step: usize = 0;
        while step < 9
            invariant
                step <= 9,
                w == self.width,
                h == self.height,
                self.resolution == w * h,
                on_grid(w, h, index as int),
                x == index % self.width,
                y == index / self.width,
                index == y * w + x,
                x < self.width,
                y < self.height,
                neighbours@.len() <= step,
                step > 4 ==> neighbours@.len() < step,
                neighbours@.no_duplicates(),
                forall|a: int, b: int|
                    0 <= a < b < neighbours@.len() ==> heading(
                        w,
                        index as int,
                        #[trigger] neighbours@[a] as int,
                    ) < heading(w, index as int, #[trigger] neighbours@[b] as int),
                forall|k: int|
                    0 <= k < neighbours@.len() ==> adjacent(
                        w,
                        h,
                        index as int,
                        #[trigger] neighbours@[k] as int,
                    ) && heading(w, index as int, neighbours@[k] as int) < step,
                forall|j: int|
                    adjacent(w, h, index as int, j) && heading(w, index as int, j) < step ==> 0
                        <= j <= usize::MAX && neighbours@.contains(j as usize),
            decreases 9 - step,
        {
            let dx = step / 3;
            let dy = step % 3;
            let ghost listed = neighbours@;
            if step != 4 && (dx > 0 || x > 0) && (dx < 2 || x < self.width - 1) && (dy > 0 || y > 0)
                && (dy < 2 || y < self.height - 1) {
                let nx = x + dx - 1;
                let ny = y + dy - 1;
                proof {
                    lemma_cell_of_coordinates(w, h, nx as int, ny as int);
                }
                let neighbour = ny * self.width + nx;
                neighbours.push(neighbour);
                proof {
                    assert(heading(w, index as int, neighbour as int) == step);
                    assert forall|j: int|
                        adjacent(w, h, index as int, j) && heading(w, index as int, j) < step
                            + 1 implies 0 <= j <= usize::MAX && neighbours@.contains(
                        j as usize,
                    ) by {
                        lemma_coordinates_of_cell(w, h, j);
                        if heading(w, index as int, j) < step {
                            let k = choose|k: int|
                                0 <= k < listed.len() && listed[k] == j as usize;
                            assert(neighbours@[k] == j as usize);
                        } else {
                            assert(j % w == nx && j / w == ny);
                            assert(j == neighbour);
                            assert(neighbours@[listed.len() as int] == j as usize);
                        }
                    }
                }
            } else {
                proof {
                    assert forall|j: int|
                        adjacent(w, h, index as int, j) && heading(w, index as int, j) < step
                            + 1 implies 0 <= j <= usize::MAX && neighbours@.contains(
                        j as usize,
                    ) by {
                        lemma_coordinates_of_cell(w, h, j);
                        if heading(w, index as int, j) == step {
                            assert(j % w - x + 1 == dx && j / w - y + 1 == dy);
                            if step == 4 {
                                assert(j == index);
                            }
                        }
                    }
                }
            }
            step = step + 1;
        }
        proof {
            assert forall|j: int| adjacent(w, h, index as int, j) implies heading(
                w,
                index as int,
                j,
            ) < 9 by {}
        }
        neighbours
    }

    /// Says how the board is to be drawn: one row of glyphs for each row of
    /// the grid, from the top, each with one glyph for each cell of the row,
    /// from the left. A board without cells has no rows.
    pub fn write(&self) -> (rows: Vec<Vec<Glyph>>)
        requires
            self.wf(),
        ensures
            rows@.len() == (if self.width == 0 {
                0
            } else {
                self.height as int
            }),
            forall|y: int| 0 <= y < rows@.len() ==> (#[trigger] rows@[y])@.len() == self.width,
            forall|y: int, x: int|
                0 <= y < rows@.len() && 0 <= x < self.width ==> #[trigger] rows@[y]@[x]
                    == self@.cells[y * self.width + x].glyph(),
    {
        let mut rows: Vec<Vec<Glyph>> = Vec::new();
        if self.width == 0 {
            return rows;
        }
        let mut y: usize = 0;
        while y < self.height
            invariant
                self.wf(),
                y <= self.height,
                rows@.len() == y,
                forall|r: int| 0 <= r < rows@.len() ==> (#[trigger] rows@[r])@.len() == self.width,
                forall|r: int, x: int|
                    0 <= r < rows@.len() && 0 <= x < self.width ==> #[trigger] rows@[r]@[x]
                        == self@.cells[r * self.width + x].glyph(),
            decreases self.height - y,
        {
            let mut row: Vec<Glyph> = Vec::new();
            let mut x: usize = 0;
            while x < self.width
                invariant
                    self.wf(),
                    y < self.height,
                    x <= self.width,
                    row@.len() == x,
                    forall|c: int|
                        0 <= c < x ==> #[trigger] row@[c] == self@.cells[y * self.width + c].glyph(),
                decreases self.width - x,
            {
                let index = self.coord_to_pos((x, y));
                proof {
                    lemma_numbered_kinds(
                        self.data@,
                        self.width as int,
                        self.height as int,
                        index as int,
                    );
                    assert(self.width * y == y * self.width) by (nonlinear_arith);
                }
                row.push(self.data[index].write());
                x = x + 1;
            }
            rows.push(row);
            y = y + 1;
        }
        rows
    }

    /// Whether the list of mines names cell `index`.
    fn has_mine(&self, index: usize) -> (found: bool)
        ensures
            found == self.mines_locs@.contains(index),
    {
        let mut k: usize = 0;
        while k < self.mines_locs.len()
            invariant
                k <= self.mines_locs@.len(),
                forall|j: int| 0 <= j < k ==> self.mines_locs@[j] != index,
            decreases self.mines_locs@.len() - k,
        {
            if self.mines_locs[k] == index {
                return true;
            }
            k = k + 1;
        }
        false
    }

    /// The cell that the draw selects: the one that can take a mine and has
    /// `draw` such cells before it.
    fn nth_free(&self, origin: usize, draw: usize) -> (index: usize)
        requires
            draw < free_from(self.data@, origin as int, 0),
        ensures
            index == pick(self.data@, origin as int, 0, draw as nat),
            is_free(self.data@, origin as int, index as int),
    {
        let cells = self.data.len();
        let mut index: usize = 0;
        let mut left: usize = draw;
        loop
            invariant
                cells == self.data@.len(),
                left < free_from(self.data@, origin as int, index as int),
                pick(self.data@, origin as int, 0, draw as nat) == pick(
                    self.data@,
                    origin as int,
                    index as int,
                    left as nat,
                ),
            decreases self.data@.len() - index,
        {
            assert(index < self.data@.len());
            if index != origin {
                match self.data[index].ty {
                    CellType::Mine => {},
                    _ => {
                        if left == 0 {
                            return index;
                        }
                        left = left - 1;
                    },
                }
            }
            index = index + 1;
        }
    }

    /// Counts the mines around each cell: every cell that is no mine comes
    /// to show the number of mines adjacent to it. Before the call the cells
    /// hold mines and nothing else.
    fn report_mine(&mut self)
        requires
            old(self).resolution == old(self).width * old(self).height,
            old(self).data@.len() == old(self).resolution,
            lists_mines(old(self).data@, old(self).mines_locs@),
            forall|i: int|
                0 <= i < old(self).data@.len() ==> (#[trigger] old(self).data@[i]).ty
                    == CellType::Mine || old(self).data@[i].ty == CellType::Empty,
        ensures
            final(self).data@ == counted(
                old(self).data@,
                old(self).width as int,
                old(self).height as int,
            ),
            final(self)@ == (BoardView { cells: final(self).data@, ..old(self)@ }),
            final(self).resolution == old(self).resolution,
    {
        let ghost start = self.data@;
        let ghost locs = self.mines_locs@;
        let ghost w = self.width as int;
        let ghost h = self.height as int;
        proof {
            assert forall|i: int| 0 <= i < start.len() implies #[trigger] start[i] == tally(
                start,
                locs,
                0,
                w,
                h,
                false,
                i,
            ) by {
                assert(crate::laying::mines_among(locs, 0, w, h, i) =~= Set::<int>::empty());
            }
        }
        let mut k: usize = 0;
        while k < self.mines_locs.len()
            invariant
                k <= locs.len(),
                w == self.width,
                h == self.height,
                self.resolution == w * h,
                self.mines_locs@ == locs,
                self.data@.len() == start.len(),
                start.len() == self.resolution,
                lists_mines(start, locs),
                self@ == (BoardView { cells: self.data@, ..old(self)@ }),
                self.resolution == old(self).resolution,
                forall|i: int|
                    0 <= i < start.len() ==> #[trigger] self.data@[i] == tally(
                        start,
                        locs,
                        k as int,
                        w,
                        h,
                        false,
                        i,
                    ),
            decreases locs.len() - k,
        {
            let mine = self.mines_locs[k];
            assert(is_mine(start, locs[k as int] as int));
            let neighbours = self.get_neighbours(mine);
            let mut j: usize = 0;
            while j < neighbours.len()
                invariant
                    j <= neighbours@.len(),
                    k < locs.len(),
                    mine == locs[k as int],
                    w == self.width,
                    h == self.height,
                    self.mines_locs@ == locs,
                    self.data@.len() == start.len(),
                    start.len() == self.resolution,
                    self.resolution == w * h,
                    lists_mines(start, locs),
                    self@ == (BoardView { cells: self.data@, ..old(self)@ }),
                    self.resolution == old(self).resolution,
                    neighbours@.no_duplicates(),
                    forall|c: int|
                        adjacent(w, h, mine as int, c) ==> 0 <= c <= usize::MAX
                            && neighbours@.contains(c as usize),
                    forall|t: int|
                        0 <= t < neighbours@.len() ==> adjacent(
                            w,
                            h,
                            mine as int,
                            #[trigger] neighbours@[t] as int,
                        ),
                    forall|i: int|
                        0 <= i < start.len() ==> #[trigger] self.data@[i] == tally(
                            start,
                            locs,
                            k as int,
                            w,
                            h,
                            listed(neighbours@, j as int, i),
                            i,
                        ),
                decreases neighbours@.len() - j,
            {
                let neighbour = neighbours[j];
                let ghost now = self.data@;
                let cell = self.data[neighbour];
                proof {
                    lemma_mines_among_next(locs, k as int, w, h, neighbour as int);
                    assert(!listed(neighbours@, j as int, neighbour as int));
                    assert(listed(neighbours@, j + 1, neighbour as int));
                    assert(adjacent(w, h, neighbour as int, mine as int));
                }
                match cell.ty {
                    CellType::Empty => {
                        self.data.set(
                            neighbour,
                            Cell { ty: CellType::Neighbouring(1), state: cell.state },
                        );
                    },
                    CellType::Neighbouring(t) => {
                        self.data.set(
                            neighbour,
                            Cell { ty: CellType::Neighbouring(t + 1), state: cell.state },
                        );
                    },
                    CellType::Mine => {},
                }
                proof {
                    assert forall|i: int| 0 <= i < start.len() implies #[trigger] self.data@[i]
                        == tally(start, locs, k as int, w, h, listed(neighbours@, j + 1, i), i) by {
                        if i != neighbour {
                            assert(self.data@[i] == now[i]);
                            assert(listed(neighbours@, j + 1, i) == listed(
                                neighbours@,
                                j as int,
                                i,
                            ));
                        }
                    }
                }
                j = j + 1;
            }
            proof {
                assert forall|i: int| 0 <= i < start.len() implies #[trigger] self.data@[i]
                    == tally(start, locs, k + 1, w, h, false, i) by {
                    lemma_mines_among_next(locs, k as int, w, h, i);
                    if adjacent(w, h, i, mine as int) {
                        assert(adjacent(w, h, mine as int, i));
                        assert(neighbours@.contains(i as usize));
                        assert(listed(neighbours@, neighbours@.len() as int, i));
                    } else {
                        assert(!listed(neighbours@, neighbours@.len() as int, i));
                    }
                }
            }
            k = k + 1;
        }
        proof {
            assert forall|i: int| 0 <= i < start.len() implies self.data@[i] == counted(
                start,
                w,
                h,
            )[i] by {
                lemma_tally_done(start, locs, w, h, i);
            }
            assert(self.data@ =~= counted(start, w, h));
        }
    }

    /// Makes the first move on the cell at `pos` with the mines laid by
    /// `draws`, one draw for each mine: a draw puts its mine on the cell
    /// that has as many free cells before it as the draw says, where a cell
    /// is free that is not the cell of the first move and holds no mine
    /// yet. Then every cell that is no mine is given the number of mines
    /// adjacent to it. No cell is revealed by this.
    pub fn start_with(&mut self, pos: Coord, draws: &Vec<usize>)
        requires
            old(self).wf(),
            old(self)@.unstarted(),
            pos.0 < old(self).width,
            pos.1 < old(self).height,
            old(self)@.admits(draws@),
        ensures
            final(self).wf(),
            final(self)@ == old(self)@.start(pos.0 + old(self).width * pos.1, draws@),
            final(self).resolution == old(self).resolution,
            !is_mine(final(self)@.cells, pos.0 + old(self).width * pos.1),
            mines(final(self)@.cells).len() == final(self).num_mines,
            numbered(final(self)@.cells, final(self).width as int, final(self).height as int),
    {
        let origin = self.coord_to_pos(pos);
        let ghost start = self.data@;
        let ghost board = self@;
        proof {
            lemma_unstarted_blank(board);
            lemma_free_without_mines(start, origin as int, 0);
            lemma_start_lays_mines(board, origin as int, draws@);
            assert(draws@.take(0) =~= Seq::<usize>::empty());
        }
        let mut k: usize = 0;
        while k < draws.len()
            invariant
                k <= draws@.len(),
                board == old(self)@,
                board.cells == start,
                board.admits(draws@),
                start.len() <= usize::MAX,
                origin < start.len(),
                forall|i: int| 0 <= i < start.len() ==> !is_mine(start, i),
                free_from(start, origin as int, 0) + 1 == start.len(),
                self.resolution == old(self).resolution,
                self.resolution == self.width * self.height,
                self@ == (BoardView { cells: self.data@, mines: self.mines_locs@, ..board }),
                self.data@ == mined(start, origin as int, draws@.take(k as int)),
                self.mines_locs@ == mine_order(start, origin as int, draws@.take(k as int)),
            decreases draws@.len() - k,
        {
            let ghost used = draws@.take(k as int);
            let ghost next = draws@.take(k + 1);
            proof {
                assert(crate::laying::fits(start, origin as int, used)) by {
                    assert forall|t: int| 0 <= t < used.len() implies #[trigger] used[t] + t
                        < free_from(start, origin as int, 0) by {
                        assert(used[t] == draws@[t]);
                    }
                }
                lemma_mined(start, origin as int, used);
                assert(draws@[k as int] + k + 1 < start.len());
                assert(next.drop_last() =~= used);
                assert(next.last() == draws@[k as int]);
            }
            let index = self.nth_free(origin, draws[k]);
            let cell = self.data[index];
            self.data.set(index, Cell { ty: CellType::Mine, state: cell.state });
            self.mines_locs.push(index);
            k = k + 1;
        }
        proof {
            assert(draws@.take(k as int) =~= draws@);
            lemma_mined(start, origin as int, draws@);
            assert forall|i: int| 0 <= i < self.data@.len() implies (#[trigger] self.data@[i]).ty
                == CellType::Mine || self.data@[i].ty == CellType::Empty by {
                assert(start[i].ty == CellType::Empty);
                assert(mined(start, origin as int, draws@)[i] == start[i] || mined(
                    start,
                    origin as int,
                    draws@,
                )[i] == with_mine(start[i]));
            }
        }
        self.report_mine();
        proof {
            assert(self.mines_locs@ =~= board.mines + mine_order(start, origin as int, draws@));
        }
    }

    /// Draws a number for each mine of the board: the draw for a mine is
    /// below the number of cells that are free when the mine is laid.
    fn draw_mines(&self) -> (draws: Vec<usize>)
        requires
            self.num_mines < self.resolution,
            self.data@.len() == self.resolution,
        ensures
            self@.admits(draws@),
    {
        let mut rng = thread_rng();
        let mut draws: Vec<usize> = Vec::new();
        while draws.len() < self.num_mines
            invariant
                draws@.len() <= self.num_mines,
                self.num_mines < self.resolution,
                forall|k: int| 0 <= k < draws@.len() ==> #[trigger] draws@[k] + k + 1 < self.resolution,
            decreases self.num_mines - draws@.len(),
        {
            let free = self.resolution - 1 - draws.len();
            let draw = gen_below(&mut rng, free);
            draws.push(draw);
        }
        draws
    }

    /// Makes the first move on the cell at `pos`: lays the mines at random
    /// on cells other than that one, each on a cell of its own, and gives
    /// every cell that is no mine the number of mines adjacent to it. No
    /// cell is revealed by this.
    ///
    /// The board must have at least one cell more than it has mines, and
    /// neither a mine nor a flag on it yet.
    pub fn start_at(&mut self, pos: Coord)
        requires
            old(self).wf(),
            old(self)@.unstarted(),
            pos.0 < old(self).width,
            pos.1 < old(self).height,
            old(self).num_mines < old(self).resolution,
        ensures
            final(self).wf(),
            exists|draws: Seq<usize>|
                old(self)@.admits(draws) && final(self)@ == #[trigger] old(self)@.start(
                    pos.0 + old(self).width * pos.1,
                    draws,
                ),
            final(self).resolution == old(self).resolution,
            !is_mine(final(self)@.cells, pos.0 + old(self).width * pos.1),
            mines(final(self)@.cells).len() == final(self).num_mines,
            numbered(final(self)@.cells, final(self).width as int, final(self).height as int),
    {
        let draws = self.draw_mines();
        self.start_with(pos, &draws);
    }

    /// Reveals cell `index` and says whether that set off a mine.
    ///
    /// A hidden empty cell is opened and the reveal goes on to every cell
    /// adjacent to it, so that the whole region of hidden empty cells around
    /// it opens, and with it the hidden cells on its border. A hidden cell
    /// with a count is opened alone. A hidden mine is opened too, and the
    /// result is `true`. An open or a flagged cell stays as it is.
    pub fn open(&mut self, index: usize) -> (hit: bool)
        requires
            old(self).wf(),
            index < old(self).resolution,
        ensures
            final(self).wf(),
            final(self)@ == old(self)@.open(index as int),
            hit == old(self)@.hits(index as int),
            final(self).resolution == old(self).resolution,
            old(self)@.cells[index as int].state != CellState::Hidden ==> !hit && final(self)@
                == old(self)@,
        decreases hidden(old(self).data@).len(),
    {
        let ghost start = self.data@;
        let ghost board = self@;
        let ghost w = self.width as int;
        let ghost h = self.height as int;
        let cell = self.data[index];
        match cell.state {
            CellState::Hidden => {},
            _ => {
                proof {
                    lemma_revealed_alone(start, w, h, index as int);
                }
                return false;
            },
        }
        self.data.set(index, Cell { ty: cell.ty, state: CellState::Open });
        match cell.ty {
            CellType::Empty => {
                proof {
                    lemma_flooding_begins(start, w, h, index as int);
                    lemma_opening_keeps_wf(board, self.data@);
                    vstd::set_lib::lemma_len_subset(
                        hidden(self.data@),
                        hidden(start).remove(index as int),
                    );
                    lemma_numbered_kinds(start, w, h, index as int);
                }
                let neighbours = self.get_neighbours(index);
                assert(w == self.width && h == self.height);
                let mut k: usize = 0;
                while k < neighbours.len()
                    invariant
                        k <= neighbours@.len(),
                        index < self.resolution,
                        w == self.width,
                        h == self.height,
                        board.wf(),
                        board.cells == start,
                        start == old(self).data@,
                        self.wf(),
                        self@ == (BoardView { cells: self.data@, ..board }),
                        self.resolution == old(self).resolution,
                        flooding(start, self.data@, w, h, index as int),
                        hidden(self.data@).len() < hidden(start).len(),
                        forall|j: int| adjacent(w, h, index as int, j) ==> !is_mine(start, j),
                        forall|j: int|
                            0 <= j < neighbours@.len() ==> adjacent(
                                w,
                                h,
                                index as int,
                                #[trigger] neighbours@[j] as int,
                            ),
                        forall|j: int|
                            adjacent(w, h, index as int, j) ==> 0 <= j <= usize::MAX
                                && neighbours@.contains(j as usize),
                        forall|j: int|
                            0 <= j < k ==> !is_hidden(self.data@, #[trigger] neighbours@[j] as int),
                    decreases neighbours@.len() - k,
                {
                    let ghost now = self.data@;
                    let neighbour = neighbours[k];
                    proof {
                        lemma_flooding_goes_on(start, now, w, h, index as int, neighbour as int);
                        lemma_opening_keeps_wf(self@, revealed(now, w, h, neighbour as int));
                        assert(now[neighbour as int].ty == start[neighbour as int].ty);
                    }
                    if self.open(neighbour) {
                        return true;
                    }
                    k = k + 1;
                }
                proof {
                    assert forall|c: int| adjacent(w, h, index as int, c) implies !is_hidden(
                        self.data@,
                        c,
                    ) by {
                        let j = choose|j: int|
                            0 <= j < neighbours@.len() && neighbours@[j] == c as usize;
                        assert(!is_hidden(self.data@, neighbours@[j] as int));
                    }
                    lemma_flooding_ends(start, self.data@, w, h, index as int);
                }
                false
            },
            _ => {
                proof {
                    lemma_revealed_alone(start, w, h, index as int);
                    assert(opened_from(start, self.data@));
                    lemma_opening_keeps_wf(board, self.data@);
                }
                match cell.ty {
                    CellType::Mine => true,
                    _ => false,
                }
            },
        }
    }

    /// Reveals every mine that is still hidden, as is done when the game is
    /// lost. Flagged mines keep their flags.
    pub fn open_all_bombs(&mut self)
        requires
            old(self).wf(),
        ensures
            final(self).wf(),
            final(self)@ == old(self)@.open_all_bombs(),
            final(self).resolution == old(self).resolution,
    {
        let ghost start = self.data@;
        let ghost board = self@;
        let ghost w = self.width as int;
        let ghost h = self.height as int;
        let mut k: usize = 0;
        while k < self.mines_locs.len()
            invariant
                k <= self.mines_locs@.len(),
                w == self.width,
                h == self.height,
                board == old(self)@,
                board.cells == start,
                self.wf(),
                self@ == (BoardView { cells: self.data@, ..board }),
                self.resolution == old(self).resolution,
                self.data@.len() == start.len(),
                forall|i: int|
                    0 <= i < start.len() ==> #[trigger] self.data@[i] == if is_mine(start, i)
                        && start[i].state == CellState::Hidden && listed(
                        self.mines_locs@,
                        k as int,
                        i,
                    ) {
                        Cell { ty: CellType::Mine, state: CellState::Open }
                    } else {
                        start[i]
                    },
            decreases self.mines_locs@.len() - k,
        {
            let mine = self.mines_locs[k];
            let ghost now = self.data@;
            proof {
                assert(is_mine(now, self.mines_locs@[k as int] as int));
                lemma_revealed_alone(now, w, h, mine as int);
            }
            self.open(mine);
            proof {
                assert forall|i: int| 0 <= i < start.len() implies #[trigger] self.data@[i]
                    == if is_mine(start, i) && start[i].state == CellState::Hidden && listed(
                    self.mines_locs@,
                    k + 1,
                    i,
                ) {
                    Cell { ty: CellType::Mine, state: CellState::Open }
                } else {
                    start[i]
                } by {
                    if i == mine {
                        assert(listed(self.mines_locs@, k + 1, i));
                    } else {
                        assert(listed(self.mines_locs@, k + 1, i) == listed(
                            self.mines_locs@,
                            k as int,
                            i,
                        ));
                    }
                }
            }
            k = k + 1;
        }
        proof {
            assert forall|i: int| 0 <= i < start.len() implies self.data@[i]
                == board.open_all_bombs().cells[i] by {
                if is_mine(start, i) {
                    assert(self.mines_locs@.contains(i as usize));
                    let t = choose|t: int|
                        0 <= t < self.mines_locs@.len() && self.mines_locs@[t] == i as usize;
                    assert(self.mines_locs@[t] == i);
                    assert(listed(self.mines_locs@, self.mines_locs@.len() as int, i));
                }
            }
            assert(self.data@ =~= board.open_all_bombs().cells);
        }
    }

    /// Toggles the flag on cell `index`. A flag comes off; a hidden cell gets
    /// one unless all flags are in use; an open cell stays as it is. The
    /// counters of flags and of flagged mines follow, and the flags in
    /// use never exceed the flags allowed.
    pub fn flag(&mut self, index: usize)
        requires
            old(self).wf(),
            index < old(self).resolution,
        ensures
            final(self).wf(),
            final(self)@ == old(self)@.flag(index as int),
            final(self).resolution == old(self).resolution,
            final(self).num_used_flags <= final(self).num_allowed_flags,
    {
        let ghost before = self.data@;
        let cell = self.data[index];
        let mined = self.has_mine(index);
        proof {
            lemma_mine_count(before, self.mines_locs@);
            assert(mined == is_mine(before, index as int));
        }
        match cell.state {
            CellState::Flagged => {
                self.data.set(index, Cell { ty: cell.ty, state: CellState::Hidden });
                proof {
                    assert(flagged(before).contains(index as int));
                    assert(flagged(self.data@) =~= flagged(before).remove(index as int));
                    if mined {
                        assert(flagged_mines(before).contains(index as int));
                        assert(flagged_mines(self.data@) =~= flagged_mines(before).remove(
                            index as int,
                        ));
                    } else {
                        assert(flagged_mines(self.data@) =~= flagged_mines(before));
                    }
                }
                self.num_used_flags -= 1;
                if mined {
                    self.mines_flagged -= 1;
                }
            },
            CellState::Hidden => {
                if self.num_used_flags < self.num_allowed_flags {
                    self.data.set(index, Cell { ty: cell.ty, state: CellState::Flagged });
                    proof {
                        assert(lists_mines(self.data@, self.mines_locs@)) by {
                            assert forall|i: int| is_mine(self.data@, i) implies is_mine(
                                before,
                                i,
                            ) by {}
                        }
                        lemma_mine_count(self.data@, self.mines_locs@);
                        assert(flagged(self.data@) =~= flagged(before).insert(index as int));
                        if mined {
                            assert(flagged_mines(self.data@) =~= flagged_mines(before).insert(
                                index as int,
                            ));
                        } else {
                            assert(flagged_mines(self.data@) =~= flagged_mines(before));
                        }
                    }
                    self.num_used_flags += 1;
                    if mined {
                        self.mines_flagged += 1;
                    }
                }
            },
            CellState::Open => {},
        }
        proof {
            lemma_numbered_by_kinds(before, self.data@, self.width as int, self.height as int);
        }
    }
}

} // verus!
