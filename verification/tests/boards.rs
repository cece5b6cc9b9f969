use minesweeper::board::Board;
use minesweeper::cell::{Cell, CellState, CellType, Glyph, Tint};

/// A board of the given size with its mines on the given cells: the draws
/// that lay them there are worked out from the cells.
fn board_with_mines(width: usize, height: usize, origin: (usize, usize), mines: &[usize]) -> Board {
    board_with(width, height, origin, mines, mines.len())
}

/// The same, with the given number of flags.
fn board_with(
    width: usize,
    height: usize,
    origin: (usize, usize),
    mines: &[usize],
    flags: usize,
) -> Board {
    let mut board = Board::new(width, height, mines.len(), flags);
    let start = origin.0 + width * origin.1;
    let mut taken: Vec<usize> = vec![start];
    let mut draws: Vec<usize> = Vec::new();
    for &m in mines {
        assert!(!taken.contains(&m));
        let before = (0..m).filter(|i| !taken.contains(i)).count();
        draws.push(before);
        taken.push(m);
    }
    board.start_with(origin, &draws);
    board
}

fn states(board: &Board) -> Vec<CellState> {
    board.data.iter().map(|c| c.state).collect()
}

fn kinds(board: &Board) -> Vec<CellType> {
    board.data.iter().map(|c| c.ty).collect()
}

fn mines_next_to(board: &Board, index: usize) -> usize {
    let x = (index % board.width) as isize;
    let y = (index / board.width) as isize;
    let mut n = 0;
    for dx in -1isize..=1 {
        for dy in -1isize..=1 {
            if dx == 0 && dy == 0 {
                continue;
            }
            let nx = x + dx;
            let ny = y + dy;
            if nx >= 0 && ny >= 0 && nx < board.width as isize && ny < board.height as isize {
                let j = ny as usize * board.width + nx as usize;
                if board.data[j].ty == CellType::Mine {
                    n += 1;
                }
            }
        }
    }
    n
}

#[test]
fn new_board_is_blank() {
    let board = Board::new(4, 3, 5, 7);
    assert_eq!(board.width, 4);
    assert_eq!(board.height, 3);
    assert_eq!(board.resolution, 12);
    assert_eq!(board.num_mines, 5);
    assert_eq!(board.num_allowed_flags, 7);
    assert_eq!(board.num_used_flags, 0);
    assert_eq!(board.mines_flagged, 0);
    assert!(board.mines_locs.is_empty());
    assert_eq!(board.data.len(), 12);
    assert!(board.data.iter().all(|c| *c == Cell { ty: CellType::Empty, state: CellState::Hidden }));
}

#[test]
fn new_board_cuts_mines_to_the_cells() {
    let board = Board::new(2, 2, 9, 0);
    assert_eq!(board.num_mines, 4);
}

#[test]
fn new_board_raises_flags_to_the_mines_asked_for() {
    let board = Board::new(3, 3, 4, 1);
    assert_eq!(board.num_allowed_flags, 4);
    let board = Board::new(2, 2, 9, 3);
    assert_eq!(board.num_mines, 4);
    assert_eq!(board.num_allowed_flags, 9);
}

#[test]
fn new_board_without_cells() {
    let board = Board::new(0, 5, 3, 1);
    assert_eq!(board.resolution, 0);
    assert_eq!(board.num_mines, 0);
    assert_eq!(board.num_allowed_flags, 3);
    assert!(board.data.is_empty());
    assert!(board.write().is_empty());
}

#[test]
fn coord_to_pos_counts_row_by_row() {
    let board = Board::new(5, 4, 0, 0);
    assert_eq!(board.coord_to_pos((0, 0)), 0);
    assert_eq!(board.coord_to_pos((4, 0)), 4);
    assert_eq!(board.coord_to_pos((0, 1)), 5);
    assert_eq!(board.coord_to_pos((3, 2)), 13);
    assert_eq!(board.coord_to_pos((4, 3)), 19);
}

#[test]
fn get_reads_the_cell_at_a_coordinate() {
    let mut board = board_with_mines(3, 3, (0, 0), &[8]);
    assert_eq!(*board.get((2, 2)), Cell { ty: CellType::Mine, state: CellState::Hidden });
    assert_eq!(*board.get((1, 2)), Cell { ty: CellType::Neighbouring(1), state: CellState::Hidden });
    board.flag(7);
    assert_eq!(*board.get((1, 2)), Cell { ty: CellType::Neighbouring(1), state: CellState::Flagged });
    assert_eq!(*board.get((0, 0)), Cell { ty: CellType::Empty, state: CellState::Hidden });
}

#[test]
fn neighbours_of_a_cell_in_the_middle() {
    let board = Board::new(3, 3, 0, 0);
    assert_eq!(board.get_neighbours(4), vec![0, 3, 6, 1, 7, 2, 5, 8]);
}

#[test]
fn neighbours_of_corners_and_edges() {
    let board = Board::new(4, 3, 0, 0);
    assert_eq!(board.get_neighbours(0), vec![4, 1, 5]);
    assert_eq!(board.get_neighbours(3), vec![2, 6, 7]);
    assert_eq!(board.get_neighbours(8), vec![4, 5, 9]);
    assert_eq!(board.get_neighbours(11), vec![6, 10, 7]);
    assert_eq!(board.get_neighbours(1), vec![0, 4, 5, 2, 6]);
    assert_eq!(board.get_neighbours(4), vec![0, 8, 1, 5, 9]);
}

#[test]
fn neighbours_on_narrow_boards() {
    let one = Board::new(1, 1, 0, 0);
    assert!(one.get_neighbours(0).is_empty());
    let row = Board::new(4, 1, 0, 0);
    assert_eq!(row.get_neighbours(0), vec![1]);
    assert_eq!(row.get_neighbours(2), vec![1, 3]);
    let column = Board::new(1, 4, 0, 0);
    assert_eq!(column.get_neighbours(0), vec![1]);
    assert_eq!(column.get_neighbours(2), vec![1, 3]);
}

#[test]
fn each_draw_selects_among_the_free_cells() {
    let mut board = Board::new(3, 3, 2, 2);
    board.start_with((1, 1), &vec![3, 3]);
    assert_eq!(board.mines_locs, vec![3, 5]);
    let mut board = Board::new(3, 3, 2, 2);
    board.start_with((1, 1), &vec![0, 0]);
    assert_eq!(board.mines_locs, vec![0, 1]);
    let mut board = Board::new(3, 3, 3, 3);
    board.start_with((0, 0), &vec![7, 6, 5]);
    assert_eq!(board.mines_locs, vec![8, 7, 6]);
    let mut board = Board::new(3, 3, 3, 3);
    board.start_with((2, 2), &vec![7, 0, 3]);
    assert_eq!(board.mines_locs, vec![7, 0, 4]);
}

#[test]
fn start_with_counts_the_mines_around_each_cell() {
    let board = board_with_mines(4, 4, (3, 3), &[0, 1, 2, 4, 6, 8, 9, 10]);
    let n = CellType::Neighbouring;
    let m = CellType::Mine;
    assert_eq!(
        kinds(&board),
        vec![
            m, m, m, n(2),
            m, n(8), m, n(3),
            m, m, m, n(2),
            n(2), n(3), n(2), n(1),
        ]
    );
    assert!(states(&board).iter().all(|s| *s == CellState::Hidden));
    assert_eq!(board.mines_locs, vec![0, 1, 2, 4, 6, 8, 9, 10]);
    assert_eq!(board.num_used_flags, 0);
    assert_eq!(board.mines_flagged, 0);
}

#[test]
fn start_with_no_mines_leaves_the_board_blank() {
    let mut board = Board::new(3, 2, 0, 2);
    board.start_with((1, 1), &Vec::new());
    assert!(board.mines_locs.is_empty());
    assert!(board.data.iter().all(|c| *c == Cell::default()));
}

#[test]
fn start_with_can_fill_all_cells_but_the_first() {
    let mut board = Board::new(2, 2, 3, 3);
    board.start_with((1, 0), &vec![0, 0, 0]);
    assert_eq!(board.mines_locs, vec![0, 2, 3]);
    assert_eq!(board.data[1].ty, CellType::Neighbouring(3));
}

#[test]
fn start_at_lays_the_mines_away_from_the_first_cell() {
    for round in 0..200usize {
        let width = 1 + round % 7;
        let height = 1 + (round / 7) % 5;
        let resolution = width * height;
        let num_mines = round % resolution;
        let pos = (round % width, (round / 3) % height);
        let mut board = Board::new(width, height, num_mines, num_mines);
        board.start_at(pos);
        let origin = board.coord_to_pos(pos);
        assert_ne!(board.data[origin].ty, CellType::Mine);
        let mines: Vec<usize> =
            (0..resolution).filter(|i| board.data[*i].ty == CellType::Mine).collect();
        assert_eq!(mines.len(), num_mines);
        assert_eq!(board.mines_locs.len(), num_mines);
        let mut listed = board.mines_locs.clone();
        listed.sort();
        assert_eq!(listed, mines);
        for i in 0..resolution {
            let around = mines_next_to(&board, i);
            match board.data[i].ty {
                CellType::Mine => {}
                CellType::Empty => assert_eq!(around, 0),
                CellType::Neighbouring(k) => assert_eq!(k as usize, around),
            }
            assert_eq!(board.data[i].state, CellState::Hidden);
        }
        assert_eq!(board.num_used_flags, 0);
        assert_eq!(board.mines_flagged, 0);
    }
}

#[test]
fn start_at_with_one_free_cell_besides_the_first() {
    let mut board = Board::new(2, 1, 1, 1);
    board.start_at((0, 0));
    assert_eq!(board.mines_locs, vec![1]);
    assert_eq!(board.data[0].ty, CellType::Neighbouring(1));
}

#[test]
fn reveal_opens_the_empty_region_and_its_border() {
    let mut board = board_with_mines(3, 3, (0, 0), &[8]);
    assert!(!board.open(0));
    let n = CellType::Neighbouring;
    let e = CellType::Empty;
    assert_eq!(kinds(&board), vec![e, e, e, e, n(1), n(1), e, n(1), CellType::Mine]);
    let o = CellState::Open;
    assert_eq!(states(&board), vec![o, o, o, o, o, o, o, o, CellState::Hidden]);
}

#[test]
fn reveal_of_a_count_opens_that_cell_alone() {
    let mut board = board_with_mines(3, 3, (0, 0), &[8]);
    assert!(!board.open(4));
    let h = CellState::Hidden;
    assert_eq!(states(&board), vec![h, h, h, h, CellState::Open, h, h, h, h]);
}

#[test]
fn reveal_of_a_mine_opens_it_and_says_so() {
    let mut board = board_with_mines(3, 3, (0, 0), &[8]);
    assert!(board.open(8));
    let h = CellState::Hidden;
    assert_eq!(states(&board), vec![h, h, h, h, h, h, h, h, CellState::Open]);
    assert_eq!(board.data[8].ty, CellType::Mine);
}

#[test]
fn reveal_stops_at_counts_and_leaves_the_far_side_hidden() {
    // A wall of mines in column 2 parts the board in two.
    let board0 = board_with_mines(5, 3, (0, 0), &[2, 7, 12]);
    let n = CellType::Neighbouring;
    let e = CellType::Empty;
    let m = CellType::Mine;
    assert_eq!(
        kinds(&board0),
        vec![
            e, n(2), m, n(2), e,
            e, n(3), m, n(3), e,
            e, n(2), m, n(2), e,
        ]
    );
    let mut board = board0;
    assert!(!board.open(5));
    let o = CellState::Open;
    let h = CellState::Hidden;
    assert_eq!(states(&board), vec![o, o, h, h, h, o, o, h, h, h, o, o, h, h, h]);
    assert!(!board.open(14));
    assert_eq!(states(&board), vec![o, o, h, o, o, o, o, h, o, o, o, o, h, o, o]);
}

#[test]
fn reveal_does_not_pass_a_flag() {
    let mut board = Board::new(5, 1, 0, 3);
    board.start_with((0, 0), &Vec::new());
    board.flag(2);
    assert!(!board.open(0));
    let o = CellState::Open;
    let h = CellState::Hidden;
    assert_eq!(states(&board), vec![o, o, CellState::Flagged, h, h]);
    board.flag(2);
    assert!(!board.open(2));
    assert_eq!(states(&board), vec![o, o, o, o, o]);
}

#[test]
fn reveal_of_an_open_or_flagged_cell_changes_nothing() {
    let mut board = board_with(3, 3, (0, 0), &[8], 2);
    board.flag(8);
    board.flag(2);
    assert!(!board.open(0));
    let kinds_after = kinds(&board);
    let states_after = states(&board);
    let used = board.num_used_flags;
    let found = board.mines_flagged;
    for index in [0usize, 4, 2, 8] {
        assert!(!board.open(index));
        assert_eq!(kinds(&board), kinds_after);
        assert_eq!(states(&board), states_after);
        assert_eq!(board.num_used_flags, used);
        assert_eq!(board.mines_flagged, found);
        assert_eq!(board.mines_locs, vec![8]);
    }
    assert_eq!(states_after[8], CellState::Flagged);
    assert_eq!(states_after[2], CellState::Flagged);
}

#[test]
fn reveal_before_the_mines_are_laid_opens_everything() {
    let mut board = Board::new(4, 4, 3, 3);
    assert!(!board.open(5));
    assert!(board.data.iter().all(|c| c.state == CellState::Open && c.ty == CellType::Empty));
}

#[test]
fn reveal_on_a_large_board_reaches_every_cell() {
    let mut board = Board::new(30, 16, 0, 0);
    board.start_with((0, 0), &Vec::new());
    assert!(!board.open(479));
    assert!(board.data.iter().all(|c| c.state == CellState::Open));
}

#[test]
fn flag_toggles_and_counts() {
    let mut board = board_with_mines(3, 3, (0, 0), &[8, 4]);
    board.flag(8);
    assert_eq!(board.data[8].state, CellState::Flagged);
    assert_eq!(board.num_used_flags, 1);
    assert_eq!(board.mines_flagged, 1);
    board.flag(0);
    assert_eq!(board.data[0].state, CellState::Flagged);
    assert_eq!(board.num_used_flags, 2);
    assert_eq!(board.mines_flagged, 1);
    board.flag(8);
    assert_eq!(board.data[8].state, CellState::Hidden);
    assert_eq!(board.num_used_flags, 1);
    assert_eq!(board.mines_flagged, 0);
    board.flag(0);
    assert_eq!(board.data[0].state, CellState::Hidden);
    assert_eq!(board.num_used_flags, 0);
    assert_eq!(board.mines_flagged, 0);
}

#[test]
fn flag_twice_gives_back_the_board() {
    let mut board = board_with_mines(4, 3, (1, 1), &[0, 7, 11]);
    board.flag(3);
    assert!(!board.open(9));
    for index in 0..12usize {
        if board.data[index].state != CellState::Hidden {
            continue;
        }
        let kinds_before = kinds(&board);
        let states_before = states(&board);
        let used = board.num_used_flags;
        let found = board.mines_flagged;
        board.flag(index);
        board.flag(index);
        assert_eq!(kinds(&board), kinds_before);
        assert_eq!(states(&board), states_before);
        assert_eq!(board.num_used_flags, used);
        assert_eq!(board.mines_flagged, found);
    }
}

#[test]
fn flag_stops_at_the_flags_allowed() {
    let mut board = Board::new(3, 3, 2, 2);
    board.start_with((0, 0), &vec![0, 0]);
    board.flag(5);
    board.flag(6);
    assert_eq!(board.num_used_flags, 2);
    board.flag(7);
    assert_eq!(board.data[7].state, CellState::Hidden);
    assert_eq!(board.num_used_flags, 2);
    assert!(board.num_used_flags <= board.num_allowed_flags);
    board.flag(5);
    assert_eq!(board.num_used_flags, 1);
    board.flag(7);
    assert_eq!(board.data[7].state, CellState::Flagged);
    assert_eq!(board.num_used_flags, 2);
}

#[test]
fn flag_leaves_an_open_cell_alone() {
    let mut board = board_with_mines(3, 3, (0, 0), &[8]);
    assert!(!board.open(4));
    board.flag(4);
    assert_eq!(board.data[4].state, CellState::Open);
    assert_eq!(board.num_used_flags, 0);
}

#[test]
fn flagging_every_mine_uses_every_flag() {
    let mut board = board_with_mines(4, 4, (0, 0), &[5, 10, 15]);
    assert_eq!(board.num_allowed_flags, 3);
    board.flag(5);
    assert_ne!(board.mines_flagged, board.num_mines);
    board.flag(10);
    assert_ne!(board.mines_flagged, board.num_mines);
    board.flag(15);
    assert_eq!(board.mines_flagged, board.num_mines);
    assert_eq!(board.num_used_flags, board.num_allowed_flags);
    for m in [5usize, 10, 15] {
        assert_eq!(board.data[m].state, CellState::Flagged);
    }
}

#[test]
fn flags_on_other_cells_do_not_count_as_mines() {
    let mut board = Board::new(3, 3, 2, 5);
    board.start_with((0, 0), &vec![7, 6]);
    assert_eq!(board.mines_locs, vec![8, 7]);
    board.flag(1);
    board.flag(2);
    board.flag(3);
    assert_eq!(board.num_used_flags, 3);
    assert_eq!(board.mines_flagged, 0);
    board.flag(8);
    board.flag(7);
    assert_eq!(board.mines_flagged, 2);
    assert_eq!(board.num_used_flags, 5);
}

#[test]
fn open_all_bombs_reveals_hidden_mines_only() {
    let mut board = board_with_mines(3, 3, (0, 0), &[8, 4, 2]);
    board.flag(4);
    assert!(board.open(8));
    board.open_all_bombs();
    assert_eq!(board.data[8], Cell { ty: CellType::Mine, state: CellState::Open });
    assert_eq!(board.data[2], Cell { ty: CellType::Mine, state: CellState::Open });
    assert_eq!(board.data[4], Cell { ty: CellType::Mine, state: CellState::Flagged });
    for i in [0usize, 1, 3, 5, 6, 7] {
        assert_eq!(board.data[i].state, CellState::Hidden);
    }
    assert_eq!(board.num_used_flags, 1);
    assert_eq!(board.mines_flagged, 1);
}

#[test]
fn reset_clears_cells_mines_and_counters() {
    let mut board = Board::new(3, 3, 2, 4);
    board.start_with((0, 0), &vec![7, 6]);
    board.flag(8);
    board.flag(1);
    assert!(!board.open(0));
    board.reset();
    assert_eq!(board.width, 3);
    assert_eq!(board.height, 3);
    assert_eq!(board.resolution, 9);
    assert_eq!(board.num_mines, 2);
    assert_eq!(board.num_allowed_flags, 4);
    assert_eq!(board.num_used_flags, 0);
    assert_eq!(board.mines_flagged, 0);
    assert!(board.mines_locs.is_empty());
    assert_eq!(board.data.len(), 9);
    assert!(board.data.iter().all(|c| *c == Cell::default()));
    board.start_with((2, 2), &vec![0, 0]);
    assert_eq!(board.mines_locs, vec![0, 1]);
}

#[test]
fn write_gives_a_glyph_for_each_cell_row_by_row() {
    let mut board = board_with_mines(3, 2, (0, 0), &[5]);
    board.flag(5);
    assert!(!board.open(1));
    assert!(!board.open(0));
    let hidden = Glyph { symbol: 'X', tint: Tint::White, bold: true, italic: false };
    let empty = Glyph { symbol: '#', tint: Tint::DarkGrey, bold: false, italic: false };
    let one = Glyph { symbol: '1', tint: Tint::Blue, bold: false, italic: false };
    let flag = Glyph { symbol: 'F', tint: Tint::Rgb(255, 127, 80), bold: true, italic: true };
    assert_eq!(board.write(), vec![vec![empty, one, hidden], vec![empty, one, flag]]);
}
