use minesweeper::cell::{CellState, CellType, Glyph, Tint};
use minesweeper::game::{Action, Banner, Event, Game, GameState, Key, Line, Preset};

/// Moves the cursor of the game to the given cell by key presses.
fn go_to(game: &mut Game, index: usize) {
    let x = index % game.board.width;
    let y = index / game.board.width;
    while game.mouse_x / 2 > x {
        assert!(!game.key(Key::Left));
    }
    while game.mouse_x / 2 < x {
        assert!(!game.key(Key::Right));
    }
    while game.mouse_y > y {
        assert!(!game.key(Key::Up));
    }
    while game.mouse_y < y {
        assert!(!game.key(Key::Down));
    }
    assert_eq!((game.mouse_x / 2, game.mouse_y), (x, y));
}

#[test]
fn new_game_waits_for_the_first_reveal() {
    let game = Game::new(9, 9, 10, 12);
    assert_eq!(game.state, GameState::PreInit);
    assert_eq!(game.mouse_x, 0);
    assert_eq!(game.mouse_y, 0);
    assert_eq!(game.board.width, 9);
    assert_eq!(game.board.height, 9);
    assert_eq!(game.board.num_mines, 10);
    assert_eq!(game.board.num_allowed_flags, 12);
    assert!(game.board.mines_locs.is_empty());
}

#[test]
fn presets_have_their_sizes() {
    assert_eq!(Preset::Easy.size(), (9, 9, 10));
    assert_eq!(Preset::Normal.size(), (16, 16, 40));
    assert_eq!(Preset::Hard.size(), (30, 16, 99));
    let game = Preset::Hard.game();
    assert_eq!(game.board.width, 30);
    assert_eq!(game.board.height, 16);
    assert_eq!(game.board.num_mines, 99);
    assert_eq!(game.board.num_allowed_flags, 101);
    assert_eq!(game.state, GameState::PreInit);
}

#[test]
fn cursor_moves_by_one_cell_and_stops_at_the_edges() {
    let mut game = Game::new(3, 2, 1, 1);
    assert!(!game.key(Key::Left));
    assert_eq!((game.mouse_x, game.mouse_y), (0, 0));
    assert!(!game.key(Key::Up));
    assert_eq!((game.mouse_x, game.mouse_y), (0, 0));
    assert!(!game.key(Key::Right));
    assert_eq!((game.mouse_x, game.mouse_y), (2, 0));
    assert!(!game.key(Key::Char('d')));
    assert_eq!((game.mouse_x, game.mouse_y), (4, 0));
    assert!(!game.key(Key::Right));
    assert_eq!((game.mouse_x, game.mouse_y), (4, 0));
    assert!(!game.key(Key::Down));
    assert_eq!((game.mouse_x, game.mouse_y), (4, 1));
    assert!(!game.key(Key::Char('s')));
    assert_eq!((game.mouse_x, game.mouse_y), (4, 1));
    assert!(!game.key(Key::Char('a')));
    assert_eq!((game.mouse_x, game.mouse_y), (2, 1));
    assert!(!game.key(Key::Char('w')));
    assert_eq!((game.mouse_x, game.mouse_y), (2, 0));
    assert_eq!(game.state, GameState::PreInit);
    assert!(game.board.mines_locs.is_empty());
}

#[test]
fn first_reveal_lays_the_mines_and_starts_the_round() {
    for _ in 0..50 {
        let mut game = Game::new(5, 4, 6, 6);
        go_to(&mut game, 12);
        assert!(!game.key(Key::Char(' ')));
        assert_eq!(game.state, GameState::Playing);
        assert_eq!(game.board.mines_locs.len(), 6);
        assert!(!game.board.mines_locs.contains(&12));
        assert_eq!(game.board.data[12].state, CellState::Open);
        assert_ne!(game.board.data[12].ty, CellType::Mine);
        for m in &game.board.mines_locs {
            assert_eq!(game.board.data[*m].ty, CellType::Mine);
            assert_eq!(game.board.data[*m].state, CellState::Hidden);
        }
    }
}

#[test]
fn flags_are_ignored_before_the_first_reveal() {
    let mut game = Game::new(3, 3, 2, 2);
    assert!(!game.key(Key::Char('f')));
    assert_eq!(game.board.num_used_flags, 0);
    assert_eq!(game.board.data[0].state, CellState::Hidden);
    assert!(!game.key(Key::Char('r')));
    assert_eq!(game.state, GameState::PreInit);
}

#[test]
fn revealing_a_mine_loses_the_round_and_shows_every_mine() {
    let mut game = Game::new(6, 5, 7, 7);
    go_to(&mut game, 14);
    assert!(!game.key(Key::Char(' ')));
    let mines = game.board.mines_locs.clone();
    go_to(&mut game, mines[2]);
    assert!(!game.key(Key::Char('f')));
    assert_eq!(game.state, GameState::Playing);
    go_to(&mut game, mines[0]);
    assert!(game.key(Key::Char(' ')));
    assert_eq!(game.state, GameState::Lost);
    for (k, m) in mines.iter().enumerate() {
        let want = if k == 2 { CellState::Flagged } else { CellState::Open };
        assert_eq!(game.board.data[*m].state, want);
    }
    let shown = game.board.data.clone();
    assert!(!game.key(Key::Char(' ')));
    assert!(!game.key(Key::Char('f')));
    assert_eq!(game.state, GameState::Lost);
    assert_eq!(game.board.data, shown);
}

#[test]
fn flagging_the_last_mine_wins_the_round() {
    let mut game = Game::new(5, 5, 4, 4);
    go_to(&mut game, 7);
    assert!(!game.key(Key::Char(' ')));
    let mines = game.board.mines_locs.clone();
    assert_eq!(mines.len(), 4);
    for (k, m) in mines.iter().enumerate() {
        go_to(&mut game, *m);
        let over = game.key(Key::Char('f'));
        if k + 1 < mines.len() {
            assert!(!over);
            assert_eq!(game.state, GameState::Playing);
        } else {
            assert!(over);
            assert_eq!(game.state, GameState::Won);
        }
    }
    assert_eq!(game.board.mines_flagged, game.board.num_mines);
    assert_eq!(game.board.num_used_flags, game.board.num_allowed_flags);
    assert!(!game.key(Key::Char('f')));
    assert_eq!(game.state, GameState::Won);
    assert_eq!(game.board.num_used_flags, 4);
}

#[test]
fn a_flag_on_a_wrong_cell_does_not_win() {
    let mut game = Game::new(4, 4, 1, 3);
    go_to(&mut game, 0);
    assert!(!game.key(Key::Char(' ')));
    let mine = game.board.mines_locs[0];
    let other = (0..16usize)
        .find(|i| *i != mine && game.board.data[*i].state == CellState::Hidden);
    if let Some(other) = other {
        go_to(&mut game, other);
        assert!(!game.key(Key::Char('f')));
        assert_eq!(game.state, GameState::Playing);
        assert_eq!(game.board.mines_flagged, 0);
    }
    go_to(&mut game, mine);
    assert!(game.key(Key::Char('f')));
    assert_eq!(game.state, GameState::Won);
}

#[test]
fn restart_clears_the_board_and_keeps_the_cursor() {
    let mut game = Game::new(4, 4, 3, 3);
    go_to(&mut game, 10);
    assert!(!game.key(Key::Char(' ')));
    assert!(!game.key(Key::Char('r')));
    assert_eq!(game.state, GameState::PreInit);
    assert!(game.board.mines_locs.is_empty());
    assert!(game.board.data.iter().all(|c| c.state == CellState::Hidden && c.ty == CellType::Empty));
    assert_eq!((game.mouse_x, game.mouse_y), (4, 2));
    assert!(!game.key(Key::Char(' ')));
    assert_eq!(game.state, GameState::Playing);
    assert_eq!(game.board.mines_locs.len(), 3);
}

#[test]
fn reset_goes_back_to_before_the_first_reveal() {
    let mut game = Game::new(4, 4, 3, 3);
    assert!(!game.key(Key::Char(' ')));
    game.reset();
    assert_eq!(game.state, GameState::PreInit);
    assert!(game.board.mines_locs.is_empty());
    assert_eq!(game.board.num_used_flags, 0);
}

#[test]
fn other_keys_are_ignored() {
    let mut game = Game::new(4, 4, 3, 3);
    assert!(!game.key(Key::Char(' ')));
    let data = game.board.data.clone();
    for key in [Key::Other, Key::Esc, Key::End, Key::Char('x'), Key::Char('F')] {
        assert!(!game.key(key));
        assert_eq!(game.state, GameState::Playing);
        assert_eq!(game.board.data, data);
        assert_eq!((game.mouse_x, game.mouse_y), (0, 0));
    }
}

#[test]
fn run_quits_on_escape_and_end() {
    let mut game = Game::new(3, 3, 1, 1);
    assert_eq!(game.run(Event::Key(Key::Esc)), Action::Quit);
    assert_eq!(game.run(Event::Key(Key::End)), Action::Quit);
    assert_eq!(game.state, GameState::PreInit);
}

#[test]
fn run_waits_on_events_that_are_no_key() {
    let mut game = Game::new(3, 3, 1, 1);
    assert_eq!(game.run(Event::Other), Action::Wait);
    assert_eq!(game.state, GameState::PreInit);
    assert_eq!((game.mouse_x, game.mouse_y), (0, 0));
}

#[test]
fn run_handles_keys_and_asks_for_a_redraw() {
    let mut game = Game::new(3, 3, 1, 1);
    assert_eq!(game.run(Event::Key(Key::Right)), Action::Redraw { hide_cursor: false });
    assert_eq!(game.mouse_x, 2);
    assert_eq!(game.run(Event::Key(Key::Char(' '))), Action::Redraw { hide_cursor: false });
    assert_eq!(game.state, GameState::Playing);
    let mine = game.board.mines_locs[0];
    go_to(&mut game, mine);
    assert_eq!(game.run(Event::Key(Key::Char(' '))), Action::Redraw { hide_cursor: true });
    assert_eq!(game.state, GameState::Lost);
}

#[test]
fn draw_shows_flags_and_the_selected_cell_while_playing() {
    let mut game = Game::new(3, 2, 1, 2);
    let hidden = Glyph { symbol: 'X', tint: Tint::White, bold: true, italic: false };
    let frame = game.draw();
    assert_eq!(frame.rows, vec![vec![hidden; 3]; 2]);
    assert_eq!(
        frame.lines,
        vec![
            Line::FlagsUsed { used: 0, allowed: 2 },
            Line::Selected { column: 0, row: 0, glyph: hidden },
        ]
    );
    assert!(frame.show_cursor);
    assert_eq!(frame.cursor, (0, 0));
    go_to(&mut game, 5);
    assert!(!game.key(Key::Char(' ')));
    let mine = game.board.mines_locs[0];
    go_to(&mut game, mine);
    assert!(!game.key(Key::Char('r')));
    assert!(!game.key(Key::Char(' ')));
    let frame = game.draw();
    assert_eq!(frame.cursor, (game.mouse_x, game.mouse_y));
    assert_eq!(frame.rows, game.board.write());
    assert_eq!(
        frame.lines,
        vec![
            Line::FlagsUsed { used: 0, allowed: 2 },
            Line::Selected {
                column: game.mouse_x / 2,
                row: game.mouse_y,
                glyph: game.board.get((game.mouse_x / 2, game.mouse_y)).write(),
            },
        ]
    );
    assert!(frame.show_cursor);
}

#[test]
fn draw_shows_the_outcome_after_the_round() {
    let mut game = Game::new(3, 3, 1, 1);
    assert!(!game.key(Key::Char(' ')));
    let mine = game.board.mines_locs[0];
    go_to(&mut game, mine);
    assert!(game.key(Key::Char(' ')));
    let frame = game.draw();
    assert_eq!(
        frame.lines,
        vec![Line::Banner(Banner::Lost), Line::Banner(Banner::Restart), Line::Banner(Banner::Quit)]
    );
    assert!(!frame.show_cursor);
    assert!(!game.key(Key::Char('r')));
    assert!(!game.key(Key::Char(' ')));
    let mine = game.board.mines_locs[0];
    go_to(&mut game, mine);
    assert!(game.key(Key::Char('f')));
    let frame = game.draw();
    assert_eq!(
        frame.lines,
        vec![Line::Banner(Banner::Won), Line::Banner(Banner::Restart), Line::Banner(Banner::Quit)]
    );
    assert!(!frame.show_cursor);
}

#[test]
fn banners_have_their_text_and_colour() {
    assert_eq!(Banner::Won.text(), "YOU WON!");
    assert_eq!(Banner::Lost.text(), "YOU LOST!");
    assert_eq!(Banner::Restart.text(), "Hit R to restart!");
    assert_eq!(Banner::Quit.text(), "Hit ESC to quit!");
    assert_eq!(Banner::Won.tint(), Tint::Green);
    assert_eq!(Banner::Lost.tint(), Tint::Red);
    assert_eq!(Banner::Restart.tint(), Tint::Blue);
    assert_eq!(Banner::Quit.tint(), Tint::White);
}
