//! The game: a board, the phase of play and a cursor, and what each key
//! press and each input event makes of them.

use vstd::prelude::*;
use crate::board::{Board, Coord};
use crate::cell::{Glyph, Tint};
use crate::field::lemma_numbered_kinds;
use crate::model::BoardView;

verus! {

/// The phase of play.
#[derive(Clone, Copy, Debug, PartialEq, Eq, Structural)]
pub enum GameState {
    /// Before the first reveal: no mine is laid yet.
    PreInit,
    Playing,
    Lost,
    Won,
}

/// A key of the keyboard, as far as the game tells keys apart.
#[derive(Clone, Copy, Debug, PartialEq, Eq, Structural)]
pub enum Key {
    Left,
    Right,
    Up,
    Down,
    Char(char),
    Esc,
    End,
    Other,
}

/// What the terminal reports: a key press, or something the game ignores.
#[derive(Clone, Copy, Debug, PartialEq, Eq, Structural)]
pub enum Event {
    Key(Key),
    Other,
}

/// What is to be done after an event.
#[derive(Clone, Copy, Debug, PartialEq, Eq, Structural)]
pub enum Action {
    /// Leave the game.
    Quit,
    /// Nothing has changed: wait for the next event.
    Wait,
    /// Draw the game again, and before that hide the cursor where
    /// `hide_cursor` is set: the round has just ended.
    Redraw { hide_cursor: bool },
}

/// A board size that can be chosen by name.
#[derive(Clone, Copy, Debug, PartialEq, Eq, Structural)]
pub enum Preset {
    Easy,
    Normal,
    Hard,
}

/// A line of text that ends a round or says how to go on.
#[derive(Clone, Copy, Debug, PartialEq, Eq, Structural)]
pub enum Banner {
    Won,
    Lost,
    Restart,
    Quit,
}

/// One line below the board.
#[derive(Clone, Copy, Debug, PartialEq, Eq, Structural)]
pub enum Line {
    /// How many flags are set, and how many may be.
    FlagsUsed { used: usize, allowed: usize },
    /// The column and row of the cell under the cursor, and how that cell
    /// is drawn.
    Selected { column: usize, row: usize, glyph: Glyph },
    /// A line of text, drawn bold and italic.
    Banner(Banner),
}

/// All that is drawn: the board row by row, the lines below it, whether the
/// cursor is to be made visible, and the column and row of the screen to
/// which it goes.
pub struct Frame {
    pub rows: Vec<Vec<Glyph>>,
    pub lines: Vec<Line>,
    pub show_cursor: bool,
    pub cursor: (usize, usize),
}

/// The state of a game.
pub struct GameView {
    pub board: BoardView,
    pub state: GameState,
    pub mouse_x: nat,
    pub mouse_y: nat,
}

/// A game of Minesweeper. The cursor is kept in columns and rows of the
/// screen, on which every cell is two columns wide.
pub struct Game {
    pub board: Board,
    pub state: GameState,
    pub mouse_x: usize,
    pub mouse_y: usize,
}

impl View for Game {
    type V = GameView;

    open spec fn view(&self) -> GameView {
        GameView {
            board: self.board@,
            state: self.state,
            mouse_x: self.mouse_x as nat,
            mouse_y: self.mouse_y as nat,
        }
    }
}

impl Preset {
    /// Width, height and number of mines of the preset: 9 by 9 with 10
    /// mines, 16 by 16 with 40, or 30 by 16 with 99.
    pub open spec fn size_of(self) -> (usize, usize, usize) {
        match self {
            Preset::Easy => (9, 9, 10),
            Preset::Normal => (16, 16, 40),
            Preset::Hard => (30, 16, 99),
        }
    }

    /// Width, height and number of mines of the preset.
    pub fn size(&self) -> (size: (usize, usize, usize))
        ensures
            size == self.size_of(),
    {
        match self {
            Preset::Easy => (9, 9, 10),
            Preset::Normal => (16, 16, 40),
            Preset::Hard => (30, 16, 99),
        }
    }

    /// A game on a board of the preset's size, with two flags more than
    /// mines.
    pub fn game(&self) -> (game: Game)
        ensures
            game.wf(),
            game@ == (GameView {
                board: BoardView::fresh(
                    self.size_of().0 as nat,
                    self.size_of().1 as nat,
                    self.size_of().2 as nat,
                    (self.size_of().2 + 2) as nat,
                ),
                state: GameState::PreInit,
                mouse_x: 0,
                mouse_y: 0,
            }),
    {
        let (width, height, mines) = self.size();
        assert(mines < width * height <= 480) by (nonlinear_arith)
            requires
                (width == 9 && height == 9 && mines == 10) || (width == 16 && height == 16
                    && mines == 40) || (width == 30 && height == 16 && mines == 99),
        ;
        Game::new(width, height, mines, mines + 2)
    }
}

impl Banner {
    /// The colour of the line.
    pub open spec fn tint_of(self) -> Tint {
        match self {
            Banner::Won => Tint::Green,
            Banner::Lost => Tint::Red,
            Banner::Restart => Tint::Blue,
            Banner::Quit => Tint::White,
        }
    }

    /// The text of the line.
    pub open spec fn text_of(self) -> Seq<char> {
        match self {
            Banner::Won => "YOU WON!"@,
            Banner::Lost => "YOU LOST!"@,
            Banner::Restart => "Hit R to restart!"@,
            Banner::Quit => "Hit ESC to quit!"@,
        }
    }

    /// The colour in which the line is drawn.
    pub fn tint(&self) -> (tint: Tint)
        ensures
            tint == self.tint_of(),
    {
        match self {
            Banner::Won => Tint::Green,
            Banner::Lost => Tint::Red,
            Banner::Restart => Tint::Blue,
            Banner::Quit => Tint::White,
        }
    }

    /// The text of the line.
    pub fn text(&self) -> (text: &'static str)
        ensures
            text@ == self.text_of(),
    {
        match self {
            Banner::Won => "YOU WON!",
            Banner::Lost => "YOU LOST!",
            Banner::Restart => "Hit R to restart!",
            Banner::Quit => "Hit ESC to quit!",
        }
    }
}

impl GameView {
    /// The invariant of a game: the board is well-formed, has at least one
    /// cell more than it has mines, and is untouched before the first
    /// reveal; the cursor is on the board.
    pub open spec fn wf(self) -> bool {
        &&& self.board.wf()
        &&& 0 < self.board.width
        &&& 0 < self.board.height
        &&& 2 * self.board.width <= usize::MAX
        &&& self.board.num_mines < self.board.cells.len()
        &&& self.mouse_x <= 2 * (self.board.width - 1)
        &&& self.mouse_y < self.board.height
        &&& self.state == GameState::PreInit ==> self.board.unstarted()
    }

    /// The number of the cell under the cursor.
    pub open spec fn selected(self) -> int {
        self.mouse_x as int / 2 + self.board.width * self.mouse_y
    }

    /// The key asks for a reveal.
    pub open spec fn is_reveal(event: Key) -> bool {
        event == Key::Char(' ')
    }

    /// The key press makes the first reveal of a round, for which the mines
    /// are laid.
    pub open spec fn begins(self, event: Key) -> bool {
        Self::is_reveal(event) && self.state == GameState::PreInit
    }

    /// The game after the first reveal of a round, made on the cell under
    /// the cursor with the mines laid by `draws`.
    pub open spec fn begin(self, draws: Seq<usize>) -> GameView {
        GameView {
            board: self.board.start(self.selected(), draws).open(self.selected()),
            state: GameState::Playing,
            ..self
        }
    }

    /// The game after a key press that lays no mines.
    ///
    /// The arrow keys, and `a`, `d`, `w`, `s` for them, move the cursor by
    /// one cell and stop at the edge of the board. The space bar reveals
    /// the cell under the cursor while the round is on: a mine ends the
    /// round as lost, with every mine revealed. `f` toggles the flag of
    /// that cell while the round is on, and the round is won when all mines
    /// are flagged. `r` clears the board for a new round once there has
    /// been a first reveal. Every other key is ignored.
    pub open spec fn key(self, event: Key) -> GameView {
        let at = self.selected();
        if event == Key::Left || event == Key::Char('a') {
            GameView {
                mouse_x: if self.mouse_x >= 2 {
                    (self.mouse_x - 2) as nat
                } else {
                    0
                },
                ..self
            }
        } else if event == Key::Right || event == Key::Char('d') {
            GameView {
                mouse_x: if self.mouse_x + 2 <= 2 * (self.board.width - 1) {
                    self.mouse_x + 2
                } else {
                    (2 * (self.board.width - 1)) as nat
                },
                ..self
            }
        } else if event == Key::Up || event == Key::Char('w') {
            GameView {
                mouse_y: if self.mouse_y >= 1 {
                    (self.mouse_y - 1) as nat
                } else {
                    0
                },
                ..self
            }
        } else if event == Key::Down || event == Key::Char('s') {
            GameView {
                mouse_y: if self.mouse_y + 1 <= self.board.height - 1 {
                    self.mouse_y + 1
                } else {
                    (self.board.height - 1) as nat
                },
                ..self
            }
        } else if Self::is_reveal(event) && self.state == GameState::Playing {
            if self.board.hits(at) {
                GameView {
                    board: self.board.open(at).open_all_bombs(),
                    state: GameState::Lost,
                    ..self
                }
            } else {
                GameView { board: self.board.open(at), ..self }
            }
        } else if event == Key::Char('f') && self.state == GameState::Playing {
            GameView {
                board: self.board.flag(at),
                state: if self.board.flag(at).mines_flagged == self.board.num_mines {
                    GameState::Won
                } else {
                    GameState::Playing
                },
                ..self
            }
        } else if event == Key::Char('r') && self.state != GameState::PreInit {
            GameView { board: self.board.reset(), state: GameState::PreInit, ..self }
        } else {
            self
        }
    }

    /// The key press ends the round: it reveals a mine, or it sets the flag
    /// that was missing on the last mine.
    pub open spec fn ends(self, event: Key) -> bool {
        self.state == GameState::Playing && ((Self::is_reveal(event) && self.board.hits(
            self.selected(),
        )) || (event == Key::Char('f') && self.board.flag(self.selected()).mines_flagged
            == self.board.num_mines))
    }

    /// The lines below the board: while the round is on or still to begin,
    /// the flags in use and the cell under the cursor; after it, its
    /// outcome and the keys for a new round and for leaving.
    pub open spec fn lines(self) -> Seq<Line> {
        match self.state {
            GameState::Won => seq![
                Line::Banner(Banner::Won),
                Line::Banner(Banner::Restart),
                Line::Banner(Banner::Quit),
            ],
            GameState::Lost => seq![
                Line::Banner(Banner::Lost),
                Line::Banner(Banner::Restart),
                Line::Banner(Banner::Quit),
            ],
            _ => seq![
                Line::FlagsUsed {
                    used: self.board.used_flags as usize,
                    allowed: self.board.allowed_flags as usize,
                },
                Line::Selected {
                    column: (self.mouse_x / 2) as usize,
                    row: self.mouse_y as usize,
                    glyph: self.board.cells[self.selected()].glyph(),
                },
            ],
        }
    }
}

impl Game {
    /// The invariant of the game: that of its state.
    pub open spec fn wf(&self) -> bool {
        &&& self@.wf()
        &&& self.board.wf()
    }

    /// Makes a game on a board of the given size, before its first reveal,
    /// with the cursor on the first cell.
    ///
    /// The board has at least one cell more than it has mines, and twice
    /// its width fits the machine's numbers.
    pub fn new(width: usize, height: usize, num_mines: usize, num_flags: usize) -> (game: Game)
        requires
            0 < width,
            0 < height,
            width * height <= usize::MAX,
            2 * width <= usize::MAX,
            num_mines < width * height,
        ensures
            game.wf(),
            game@ == (GameView {
                board: BoardView::fresh(
                    width as nat,
                    height as nat,
                    num_mines as nat,
                    num_flags as nat,
                ),
                state: GameState::PreInit,
                mouse_x: 0,
                mouse_y: 0,
            }),
    {
        Game {
            board: Board::new(width, height, num_mines, num_flags),
            mouse_x: 0,
            mouse_y: 0,
            state: GameState::PreInit,
        }
    }

    /// Clears the board for a new round. The cursor stays where it is.
    pub fn reset(&mut self)
        requires
            old(self).wf(),
        ensures
            final(self).wf(),
            final(self)@ == (GameView {
                board: old(self)@.board.reset(),
                state: GameState::PreInit,
                ..old(self)@
            }),
    {
        self.board.reset();
        self.state = GameState::PreInit;
    }

    /// The column and row of the cell under the cursor.
    fn cursor_cell(&self) -> (pos: Coord)
        requires
            self.wf(),
        ensures
            pos.0 == self.mouse_x / 2,
            pos.1 == self.mouse_y,
            pos.0 < self.board.width,
            pos.1 < self.board.height,
            pos.0 + self.board.width * pos.1 == self@.selected(),
    {
        (self.mouse_x / 2, self.mouse_y)
    }

    /// Handles a key press and says whether it ended the round.
    ///
    /// The arrow keys, and `a`, `d`, `w`, `s` for them, move the cursor by
    /// one cell and stop at the edge of the board. The space bar reveals
    /// the cell under the cursor: the first reveal of a round lays the
    /// mines, away from that cell, and starts the round; a later one that
    /// hits a mine ends the round as lost, with every mine revealed. `f`
    /// toggles the flag of the cell under the cursor while the round is
    /// on, and the round is won when all mines are flagged. `r` clears
    /// the board for a new round once there has been a first reveal.
    /// Every other key is ignored.
    pub fn key(&mut self, event: Key) -> (over: bool)
        requires
            old(self).wf(),
        ensures
            final(self).wf(),
            over == old(self)@.ends(event),
            !old(self)@.begins(event) ==> final(self)@ == old(self)@.key(event),
            old(self)@.begins(event) ==> exists|draws: Seq<usize>|
                old(self)@.board.admits(draws) && final(self)@ == #[trigger] old(self)@.begin(
                    draws,
                ),
    {
        match event {
            Key::Left | Key::Char('a') => {
                self.mouse_x = if self.mouse_x >= 2 {
                    self.mouse_x - 2
                } else {
                    0
                };
            },
            Key::Right | Key::Char('d') => {
                let last = (self.board.width - 1) * 2;
                self.mouse_x = if self.mouse_x + 2 <= last {
                    self.mouse_x + 2
                } else {
                    last
                };
            },
            Key::Up | Key::Char('w') => {
                self.mouse_y = if self.mouse_y >= 1 {
                    self.mouse_y - 1
                } else {
                    0
                };
            },
            Key::Down | Key::Char('s') => {
                let last = self.board.height - 1;
                self.mouse_y = if self.mouse_y + 1 <= last {
                    self.mouse_y + 1
                } else {
                    last
                };
            },
            Key::Char(' ') => {
                let pos = self.cursor_cell();
                match self.state {
                    GameState::PreInit => {
                        self.board.start_at(pos);
                        let index = self.board.coord_to_pos(pos);
                        self.board.open(index);
                        self.state = GameState::Playing;
                        proof {
                            let draws = choose|draws: Seq<usize>|
                                old(self)@.board.admits(draws) && self.board@ == (
                                #[trigger] old(self)@.board.start(index as int, draws)).open(
                                    index as int,
                                );
                            assert(self@ == old(self)@.begin(draws));
                        }
                    },
                    GameState::Playing => {
                        let index = self.board.coord_to_pos(pos);
                        let is_over = self.board.open(index);
                        if is_over {
                            self.state = GameState::Lost;
                            self.board.open_all_bombs();
                            return true;
                        }
                    },
                    _ => {},
                }
            },
            Key::Char('f') => {
                if self.state == GameState::Playing {
                    let pos = self.cursor_cell();
                    let index = self.board.coord_to_pos(pos);
                    self.board.flag(index);
                    if self.board.mines_flagged == self.board.num_mines {
                        self.state = GameState::Won;
                        return true;
                    }
                }
            },
            Key::Char('r') => {
                if self.state != GameState::PreInit {
                    self.reset();
                }
            },
            _ => {},
        }
        false
    }

    /// Takes one event of the terminal and says what is to be done after
    /// it. Escape and End leave the game. Any other key is handled as a
    /// key press and the game is drawn again. Other events are ignored.
    pub fn run(&mut self, event: Event) -> (action: Action)
        requires
            old(self).wf(),
        ensures
            final(self).wf(),
            event == Event::Key(Key::Esc) || event == Event::Key(Key::End) ==> action
                == Action::Quit && final(self)@ == old(self)@,
            event == Event::Other ==> action == Action::Wait && final(self)@ == old(self)@,
            event is Key && event->Key_0 != Key::Esc && event->Key_0 != Key::End ==> {
                let key = event->Key_0;
                &&& action == (Action::Redraw { hide_cursor: old(self)@.ends(key) })
                &&& !old(self)@.begins(key) ==> final(self)@ == old(self)@.key(key)
                &&& old(self)@.begins(key) ==> exists|draws: Seq<usize>|
                    old(self)@.board.admits(draws) && final(self)@ == #[trigger] old(self)@.begin(
                        draws,
                    )
            },
    {
        match event {
            Event::Key(Key::Esc) | Event::Key(Key::End) => Action::Quit,
            Event::Key(key) => {
                let over = self.key(key);
                Action::Redraw { hide_cursor: over }
            },
            Event::Other => Action::Wait,
        }
    }

    /// Says what is to be drawn: the board, the lines below it, and where
    /// the cursor goes. The cursor is made visible while the round is on
    /// or still to begin.
    pub fn draw(&self) -> (frame: Frame)
        requires
            self.wf(),
        ensures
            frame.rows@.len() == self.board.height,
            forall|y: int|
                0 <= y < frame.rows@.len() ==> (#[trigger] frame.rows@[y])@.len()
                    == self.board.width,
            forall|y: int, x: int|
                0 <= y < frame.rows@.len() && 0 <= x < self.board.width
                    ==> #[trigger] frame.rows@[y]@[x] == self@.board.cells[y * self.board.width
                    + x].glyph(),
            frame.lines@ == self@.lines(),
            frame.show_cursor == (self.state == GameState::Playing || self.state
                == GameState::PreInit),
            frame.cursor == (self.mouse_x, self.mouse_y),
    {
        let rows = self.board.write();
        let mut lines: Vec<Line> = Vec::new();
        let mut show_cursor = false;
        match self.state {
            GameState::Playing | GameState::PreInit => {
                show_cursor = true;
                let pos = self.cursor_cell();
                let index = self.board.coord_to_pos(pos);
                proof {
                    lemma_numbered_kinds(
                        self.board.data@,
                        self.board.width as int,
                        self.board.height as int,
                        index as int,
                    );
                }
                lines.push(
                    Line::FlagsUsed {
                        used: self.board.num_used_flags,
                        allowed: self.board.num_allowed_flags,
                    },
                );
                lines.push(
                    Line::Selected { column: pos.0, row: pos.1, glyph: self.board.get(pos).write() },
                );
            },
            GameState::Won => {
                lines.push(Line::Banner(Banner::Won));
                lines.push(Line::Banner(Banner::Restart));
                lines.push(Line::Banner(Banner::Quit));
            },
            GameState::Lost => {
                lines.push(Line::Banner(Banner::Lost));
                lines.push(Line::Banner(Banner::Restart));
                lines.push(Line::Banner(Banner::Quit));
            },
        }
        assert(lines@ =~= self@.lines());
        Frame { rows, lines, show_cursor, cursor: (self.mouse_x, self.mouse_y) }
    }
}

} // verus!
