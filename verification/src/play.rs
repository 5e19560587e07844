//! A game between two players at one board: whose turn it is, where the
//! cursor stands, and what a key does.

use vstd::prelude::*;
use crate::board::{
    Board, HEIGHT, WIDTH, height, lemma_replay_columns, lemma_replay_wf, lemma_wf_bounds, replay,
};
use crate::position::{Position, columns, read_columns};
use crate::solver::Solver;

verus! {

/// The colours of the game.
#[derive(Clone, Copy, Debug, PartialEq, Eq, Structural)]
pub enum Palette {
    Red,
    Yellow,
    White,
}

impl Palette {
    /// The red, green and blue parts of the colour.
    pub fn rgb(&self) -> (parts: (u8, u8, u8))
        ensures
            parts == match *self {
                Palette::Red => (231u8, 61u8, 36u8),
                Palette::Yellow => (228u8, 167u8, 74u8),
                Palette::White => (220u8, 220u8, 221u8),
            },
    {
        match *self {
            Palette::Red => (231, 61, 36),
            Palette::Yellow => (228, 167, 74),
            Palette::White => (220, 220, 221),
        }
    }
}

/// The two players.
#[derive(Clone, Copy, Debug, PartialEq, Eq, Structural)]
pub enum Who {
    PlayerRed,
    PlayerYellow,
}

impl Who {
    /// The other player.
    pub open spec fn other(self) -> Who {
        match self {
            Who::PlayerRed => Who::PlayerYellow,
            Who::PlayerYellow => Who::PlayerRed,
        }
    }

    /// The colour of the player's stones.
    pub open spec fn palette(self) -> Palette {
        match self {
            Who::PlayerRed => Palette::Red,
            Who::PlayerYellow => Palette::Yellow,
        }
    }

    /// The player who is to move after `n` moves of a game that this player
    /// began.
    pub open spec fn after(self, n: nat) -> Who {
        if n % 2 == 0 {
            self
        } else {
            self.other()
        }
    }

    /// The other player.
    pub fn next(&self) -> (who: Who)
        ensures
            who == self.other(),
    {
        match *self {
            Who::PlayerRed => Who::PlayerYellow,
            Who::PlayerYellow => Who::PlayerRed,
        }
    }

    /// The colour of the player's stones.
    pub fn color(&self) -> (colour: Palette)
        ensures
            colour == self.palette(),
    {
        match *self {
            Who::PlayerRed => Palette::Red,
            Who::PlayerYellow => Palette::Yellow,
        }
    }
}

/// What a key asks for.
#[derive(Clone, Copy, Debug, PartialEq, Eq, Structural)]
pub enum Move {
    Left,
    Right,
    Drop,
    IA,
}

/// The keys of the keyboard that the game tells apart.
#[derive(Clone, Copy, Debug, PartialEq, Eq, Structural)]
pub enum Key {
    Left,
    Right,
    Down,
    NumpadEnter,
    Return,
    Space,
    I,
    Other,
}

impl Move {
    /// What the key `key` asks for: the arrows to the side move the cursor,
    /// the arrow down and the keys that confirm drop a stone, and `I` lets the
    /// solver play.
    pub open spec fn of_key(key: Key) -> Option<Move> {
        match key {
            Key::Left => Some(Move::Left),
            Key::Right => Some(Move::Right),
            Key::Down | Key::NumpadEnter | Key::Return | Key::Space => Some(Move::Drop),
            Key::I => Some(Move::IA),
            Key::Other => None,
        }
    }

    /// What the key `key` asks for.
    pub fn from_keycode(key: Key) -> (asked: Option<Move>)
        ensures
            asked == Move::of_key(key),
    {
        match key {
            Key::Left => Some(Move::Left),
            Key::Right => Some(Move::Right),
            Key::Down => Some(Move::Drop),
            Key::NumpadEnter => Some(Move::Drop),
            Key::Return => Some(Move::Drop),
            Key::Space => Some(Move::Drop),
            Key::I => Some(Move::IA),
            _ => None,
        }
    }
}

/// How a game has ended.
#[derive(Clone, Copy, Debug, PartialEq, Eq, Structural)]
pub enum Ending {
    Draw,
    Win,
}

/// What became of a stone that a player tried to drop.
#[derive(Clone, Copy, Debug, PartialEq, Eq, Structural)]
pub enum Dropped {
    /// The game was over: a new one has begun, and no stone was dropped.
    Reset,
    /// The column is full, or is no column: nothing has changed.
    Refused,
    /// The stone lies in its column. It has made four in a line, or filled the
    /// board, or both, or neither.
    Placed { won: bool, full: bool },
}

/// A cell of the board as it is drawn: where it lies, and in which colour.
#[derive(Clone, Copy, Debug, PartialEq, Eq, Structural)]
pub struct Disc {
    pub column: u8,
    pub row: u8,
    pub color: Palette,
}

/// The stones of a game that `first` began, in the order in which they were
/// dropped: each lies on top of the stones dropped into its column before it.
pub open spec fn stones(moves: Seq<u8>, first: Who) -> Seq<Disc>
    decreases moves.len(),
{
    if moves.len() == 0 {
        Seq::empty()
    } else {
        stones(moves.drop_last(), first).push(
            Disc {
                column: moves.last(),
                row: height(moves.drop_last(), moves.last()) as u8,
                color: first.after((moves.len() - 1) as nat).palette(),
            },
        )
    }
}

/// The empty cells of column `col`, from the lowest up.
pub open spec fn free_in_column(moves: Seq<u8>, col: u8) -> Seq<Disc> {
    let taken = height(moves, col);
    if taken >= HEIGHT {
        Seq::empty()
    } else {
        Seq::new(
            (HEIGHT - taken) as nat,
            |k: int| Disc { column: col, row: (taken + k) as u8, color: Palette::White },
        )
    }
}

/// The empty cells of the first `n` columns, column after column.
pub open spec fn free_below(moves: Seq<u8>, n: nat) -> Seq<Disc>
    decreases n,
{
    if n == 0 {
        Seq::empty()
    } else {
        free_below(moves, (n - 1) as nat) + free_in_column(moves, (n - 1) as u8)
    }
}

/// A game as plain values.
pub struct Game {
    /// The position on the board.
    pub board: Board,
    /// The column over which the cursor stands.
    pub cursor: u8,
    /// The player who began.
    pub who: Who,
    /// The columns played so far.
    pub moves: Seq<u8>,
    /// How the game has ended, once it has.
    pub finished: Option<Ending>,
}

impl Game {
    /// The cursor stands over a column, and the moves lead to the position.
    pub open spec fn wf(self) -> bool {
        &&& self.cursor < WIDTH
        &&& replay(self.moves) == Some(self.board)
    }

    /// A game in which no stone has been dropped: the cursor stands over the
    /// middle column and red begins.
    pub open spec fn fresh() -> Game {
        Game {
            board: Board::empty(),
            cursor: 3,
            who: Who::PlayerRed,
            moves: Seq::empty(),
            finished: None,
        }
    }

    /// The game that begins with the moves that `start` names, where it names
    /// legal moves, and a fresh game where it does not.
    pub open spec fn begun(start: Option<Seq<char>>) -> Game {
        let text = match start {
            Some(text) => text,
            None => Seq::empty(),
        };
        match columns(text) {
            Some(moves) => match replay(moves) {
                Some(board) => Game { board, moves, ..Game::fresh() },
                None => Game::fresh(),
            },
            None => Game::fresh(),
        }
    }

    /// The game with board and moves cleared. The cursor stays.
    pub open spec fn cleared(self) -> Game {
        Game { board: Board::empty(), moves: Seq::empty(), finished: None, ..self }
    }

    /// How the game stands once a stone was dropped into `column`: a win does
    /// not count on a board that the stone has filled.
    pub open spec fn ending_after(self, column: u8) -> Option<Ending> {
        if self.board.played(column).terminal() {
            Some(Ending::Draw)
        } else if self.board.winning(column) {
            Some(Ending::Win)
        } else {
            self.finished
        }
    }

    /// The game after a player has tried to drop a stone into `column`.
    pub open spec fn dropped(self, column: u8) -> Game {
        if self.finished is Some {
            self.cleared()
        } else if !self.board.playable(column) {
            self
        } else {
            Game {
                board: self.board.played(column),
                moves: self.moves.push(column),
                finished: self.ending_after(column),
                ..self
            }
        }
    }

    /// What is reported of a stone that a player has tried to drop into
    /// `column`.
    pub open spec fn report(self, column: u8) -> Dropped {
        if self.finished is Some {
            Dropped::Reset
        } else if !self.board.playable(column) {
            Dropped::Refused
        } else {
            Dropped::Placed {
                won: self.board.winning(column),
                full: self.board.played(column).terminal(),
            }
        }
    }

    /// The cells of the board as they are drawn: the stones in the order in
    /// which they were dropped, then the empty cells.
    pub open spec fn drawn(self) -> Seq<Disc> {
        stones(self.moves, self.who) + free_below(self.moves, WIDTH as nat)
    }

    /// The player whose turn it is.
    pub open spec fn to_move(self) -> Who {
        self.who.after(self.moves.len())
    }

    /// The game with the cursor one column further left, or over the last
    /// column where it stood over the first.
    pub open spec fn cursor_left(self) -> Game {
        Game { cursor: ((WIDTH + self.cursor - 1) % (WIDTH as int)) as u8, ..self }
    }

    /// The game with the cursor one column further right, or over the first
    /// column where it stood over the last.
    pub open spec fn cursor_right(self) -> Game {
        Game { cursor: ((WIDTH + self.cursor + 1) % (WIDTH as int)) as u8, ..self }
    }
}

/// The state of a game.
pub struct GameState {
    position: Position,
    cursor: u8,
    who: Who,
    moves: Vec<u8>,
    finished: Option<Ending>,
}

impl View for GameState {
    type V = Game;

    closed spec fn view(&self) -> Game {
        Game {
            board: self.position@,
            cursor: self.cursor,
            who: self.who,
            moves: self.moves@,
            finished: self.finished,
        }
    }
}

impl GameState {
    /// Every game is well-formed.
    #[verifier::type_invariant]
    pub open spec fn well_formed(self) -> bool {
        self@.wf()
    }

    /// The game that begins with the moves that `start_position` names, or a
    /// fresh game where it names none, or moves that are not legal.
    pub fn new(start_position: Option<String>) -> (state: GameState)
        ensures
            state@ == Game::begun(
                match start_position {
                    Some(text) => Some(text@),
                    None => None,
                },
            ),
    {
        let position_str = match start_position {
            Some(text) => text,
            None => String::new(),
        };
        proof {
            lemma_replay_wf(Seq::empty());
        }
        let (position, moves) = match read_columns(position_str.as_str()) {
            Some(moves) => match Position::from_move_sequence(&moves) {
                Ok(position) => {
                    proof {
                        lemma_replay_wf(moves@);
                        Position::lemma_view_of(replay(moves@)->0);
                    }
                    (position, moves)
                },
                Err(_) => (Position::new_empty(), Vec::new()),
            },
            None => (Position::new_empty(), Vec::new()),
        };
        GameState { position: position, cursor: 3, who: Who::PlayerRed, moves: moves, finished: None }
    }

    /// Clears the board for a new game.
    pub fn reset(&mut self)
        ensures
            final(self)@ == old(self)@.cleared(),
    {
        proof {
            use_type_invariant(&*self);
            lemma_replay_wf(Seq::empty());
        }
        *self = GameState {
            position: Position::new_empty(),
            cursor: self.cursor,
            who: self.who,
            moves: Vec::new(),
            finished: None,
        };
    }

    /// The position on the board.
    pub fn position(&self) -> (position: Position)
        ensures
            position@ == self@.board,
    {
        self.position
    }

    /// The column over which the cursor stands.
    pub fn cursor(&self) -> (column: u8)
        ensures
            column == self@.cursor,
            column < WIDTH,
    {
        proof {
            use_type_invariant(self);
        }
        self.cursor
    }

    /// The player who began.
    pub fn who(&self) -> (who: Who)
        ensures
            who == self@.who,
    {
        self.who
    }

    /// How the game has ended, once it has.
    pub fn finished(&self) -> (ending: Option<Ending>)
        ensures
            ending == self@.finished,
    {
        self.finished
    }

    /// The columns played so far.
    pub fn moves(&self) -> (moves: &Vec<u8>)
        ensures
            moves@ == self@.moves,
    {
        &self.moves
    }

    /// The cells of the board as they are drawn, and the player whose turn it
    /// is.
    #[verifier::loop_isolation(false)]
    pub fn discs(&self) -> (drawn: (Vec<Disc>, Who))
        ensures
            drawn.0@ == self@.drawn(),
            drawn.1 == self@.to_move(),
    {
        proof {
            use_type_invariant(self);
            lemma_replay_wf(self.moves@);
            lemma_wf_bounds(self.position@);
            lemma_replay_columns(self.moves@);
        }
        let mut cells: Vec<Disc> = Vec::new();
        let mut counters: Vec<u8> = vec![0, 0, 0, 0, 0, 0, 0];
        let mut who = self.who;
        let mut i: usize = 0;
        while i < self.moves.len()
            invariant
                i <= self.moves@.len(),
                counters@.len() == 7,
                forall|c: u8| c < 7 ==> counters@[c as int] == #[trigger] height(
                    self.moves@.take(i as int),
                    c,
                ),
                who == self.who.after(i as nat),
                cells@ == stones(self.moves@.take(i as int), self.who),
            decreases self.moves@.len() - i,
        {
            let column = self.moves[i];
            let ghost before = self.moves@.take(i as int);
            let ghost after = self.moves@.take(i + 1);
            proof {
                assert(after.drop_last() =~= before);
                assert(after.last() == column);
                lemma_replay_columns(after);
                crate::board::lemma_height_bound(before, column);
                assert forall|c: u8| c < 7 implies #[trigger] height(after, c) == height(before, c) + (
                if c == column {
                    1nat
                } else {
                    0nat
                }) by {}
            }
            let row = counters[column as usize];
            cells.push(Disc { column, row, color: who.color() });
            counters.set(column as usize, row + 1);
            who = who.next();
            i += 1;
        }
        assert(self.moves@.take(i as int) =~= self.moves@);
        let mut column: u8 = 0;
        while column < WIDTH
            invariant
                column <= WIDTH,
                cells@ == stones(self.moves@, self.who) + free_below(self.moves@, column as nat),
            decreases WIDTH - column,
        {
            let count = counters[column as usize];
            let ghost start = cells@;
            assert(count == height(self.moves@, column));
            let mut row = count;
            while row < HEIGHT
                invariant
                    count <= row,
                    count < HEIGHT ==> row <= HEIGHT,
                    count >= HEIGHT ==> row == count,
                    cells@ == start + free_in_column(self.moves@, column).take(row - count),
                decreases HEIGHT - row,
            {
                cells.push(Disc { column, row, color: Palette::White });
                assert(cells@ =~= start + free_in_column(self.moves@, column).take(row + 1 - count));
                row += 1;
            }
            proof {
                let free = free_in_column(self.moves@, column);
                assert(free.len() == row - count);
                assert(free.take(row - count) =~= free);
                assert(cells@ =~= stones(self.moves@, self.who) + free_below(
                    self.moves@,
                    (column + 1) as nat,
                ));
            }
            column += 1;
        }
        (cells, who)
    }

    /// The column that the solver plays in the position on the board: a best
    /// move, found by a search to the end of every game.
    pub fn ia_move(&self) -> (column: u8)
        ensures
            column == Solver::solved(self@.board).0,
    {
        let (best_mov, _, _) = Solver::solve(self.position);
        best_mov
    }

    /// Drops a stone into `column` for the player to move, where the game is
    /// not over and the column has room; begins a new game where it is over.
    pub fn try_drop(&mut self, column: u8) -> (event: Dropped)
        ensures
            final(self)@ == old(self)@.dropped(column),
            event == old(self)@.report(column),
    {
        proof {
            use_type_invariant(&*self);
        }
        if let Some(_) = self.finished {
            self.reset();
            return Dropped::Reset;
        }
        if !self.position.can_play(column) {
            return Dropped::Refused;
        }
        let mut finished = self.finished;
        let won = self.position.wins(column);
        if won {
            finished = Some(Ending::Win);
        }
        let mut moves = self.moves.clone();
        moves.push(column);
        let position = self.position.next(column);
        let full = position.is_terminal();
        if full {
            finished = Some(Ending::Draw);
        }
        proof {
            assert(moves@.drop_last() == old(self)@.moves);
        }
        *self = GameState { position, cursor: self.cursor, who: self.who, moves, finished };
        Dropped::Placed { won, full }
    }

    /// Does what the key `key` asks for, and says what became of the stone
    /// where it asked for one.
    pub fn key_down(&mut self, key: Move) -> (event: Option<Dropped>)
        ensures
            match key {
                Move::Left => final(self)@ == old(self)@.cursor_left() && event is None,
                Move::Right => final(self)@ == old(self)@.cursor_right() && event is None,
                Move::Drop => final(self)@ == old(self)@.dropped(old(self)@.cursor) && event
                    == Some(old(self)@.report(old(self)@.cursor)),
                Move::IA => {
                    let column = Solver::solved(old(self)@.board).0;
                    final(self)@ == old(self)@.dropped(column) && event == Some(
                        old(self)@.report(column),
                    )
                },
            },
    {
        proof {
            use_type_invariant(&*self);
        }
        match key {
            Move::Left => {
                self.cursor = (WIDTH + self.cursor - 1) % WIDTH;
                None
            },
            Move::Right => {
                self.cursor = (WIDTH + self.cursor + 1) % WIDTH;
                None
            },
            Move::Drop => {
                let column = self.cursor;
                Some(self.try_drop(column))
            },
            Move::IA => {
                let column = self.ia_move();
                Some(self.try_drop(column))
            },
        }
    }
}

} // verus!
