//! The position that the program plays on.

use vstd::prelude::*;
use crate::bits::{popcount, lemma_popcount_at_most_64, lemma_popcount_clear_lowest};
use crate::board::{
    Board, BOARD_MASK, BOTTOM_ROW_MASK, CELLS, HEIGHT, WIDTH, aligned, bottom_mask, bottom_row,
    column_mask, dropped, has_four, lemma_empty_wf, lemma_playable_below, lemma_replay_stacks,
    lemma_replay_wf, lemma_played, lemma_replay_prefix, lemma_wf_bounds,
    playable_below, replay, top_mask, winning_squares,
};
use crate::lines::{four_in_line, lemma_has_four, lemma_winning_squares};
use crate::mask::{Mask, mask_text};
use crate::text::{digit_char, digit_str, is_digit};
use vstd::std_specs::convert::TryFromSpecImpl;
use vstd::string::StringExecFns;

verus! {

/// The size of a grid.
pub struct GridSize {
    pub height: u8,
    pub width: u8,
}

/// The size of the board.
pub fn grid_size() -> (size: GridSize)
    ensures
        size.height == HEIGHT,
        size.width == WIDTH,
{
    GridSize { height: HEIGHT, width: WIDTH }
}

/// The bottom cells of the first `width` columns of a board `height` cells
/// high.
pub fn bottom_row_mask(width: u64, height: u64) -> (m: u64)
    requires
        width == 0 || (height < u64::MAX && (width - 1) * (height + 1) < 64),
    ensures
        m == bottom_row(width as nat, height as nat),
    decreases width,
{
    match width {
        0 => 0,
        _ => {
            assert(width == 1 || (width - 2) * (height + 1) < 64) by (nonlinear_arith)
                requires
                    width >= 1,
                    (width - 1) * (height + 1) < 64,
            ;
            bottom_row_mask(width - 1, height) | (1u64 << (width - 1) * (height + 1))
        },
    }
}

/// A position of the game, from the point of view of the player to move.
#[derive(Debug, PartialEq, Eq, Clone, Copy)]
pub struct Position {
    player_mask: u64,
    pieces_mask: u64,
    move_count: u8,
}

impl View for Position {
    type V = Board;

    closed spec fn view(&self) -> Board {
        Board {
            current: self.player_mask,
            pieces: self.pieces_mask,
            moves: self.move_count as nat,
        }
    }
}

impl Position {
    /// Every position is well-formed.
    #[verifier::type_invariant]
    pub open spec fn well_formed(self) -> bool {
        self@.wf()
    }

    /// The number of moves of the longest game.
    pub fn max_moves() -> (n: u8)
        ensures
            n == CELLS,
    {
        HEIGHT * WIDTH
    }

    /// The position before the first move.
    pub fn new_empty() -> (p: Position)
        ensures
            p@ == Board::empty(),
    {
        proof {
            lemma_empty_wf();
        }
        Position { player_mask: 0, pieces_mask: 0, move_count: 0 }
    }

    /// The cells of the player to move.
    pub fn player_mask(&self) -> (m: u64)
        ensures
            m == self@.current,
    {
        self.player_mask
    }

    /// The cells of both players.
    pub fn pieces_mask(&self) -> (m: u64)
        ensures
            m == self@.pieces,
    {
        self.pieces_mask
    }

    /// The number of stones on the board.
    pub fn move_count(&self) -> (n: u8)
        ensures
            n == self@.moves,
            n <= CELLS,
            self@.wf(),
    {
        proof {
            use_type_invariant(self);
            lemma_wf_bounds(self@);
        }
        self.move_count
    }

    /// Whether a stone dropped into `col` gives the player to move four in a line.
    pub fn wins(&self, col: u8) -> (won: bool)
        requires
            self@.playable(col),
        ensures
            won == self@.winning(col),
            won == four_in_line(self@.current | self@.landing(col)),
    {
        proof {
            use_type_invariant(self);
            lemma_played(self@, col);
            lemma_wf_bounds(self@);
            let (c, p, stone) = (self@.current, self@.pieces, self@.landing(col));
            assert((c | stone) & !BOARD_MASK == 0) by (bit_vector)
                requires
                    c & p == c,
                    p & !BOARD_MASK == 0,
                    stone == ((p + bottom_mask(col)) as u64) & column_mask(col),
                    col < 7,
            ;
            lemma_has_four(c | stone);
        }
        let mut mask = self.player_mask;
        mask |= (self.pieces_mask + Position::bottom_mask(col)) & Position::column_mask(col);
        return Position::check_alignment(mask);
    }

    /// Whether every cell is taken.
    pub fn is_terminal(&self) -> (full: bool)
        ensures
            full == self@.terminal(),
    {
        return self.move_count == WIDTH * HEIGHT;
    }

    /// Whether `column` is a column of the board that is not full.
    pub fn can_play(&self, column: u8) -> (free: bool)
        ensures
            free == self@.playable(column),
    {
        return column < WIDTH && (self.pieces_mask & Position::top_mask(column)) == 0;
    }

    /// The position after the player to move has dropped a stone into `column`.
    pub fn next(&self, column: u8) -> (after: Position)
        requires
            self@.playable(column),
        ensures
            after@ == self@.played(column),
    {
        proof {
            use_type_invariant(self);
            lemma_played(self@, column);
        }
        Position {
            player_mask: self.player_mask ^ self.pieces_mask,
            pieces_mask: self.pieces_mask | (self.pieces_mask + Position::bottom_mask(column)),
            move_count: self.move_count + 1,
        }
    }

    /// The key under which the transposition table holds this position. It
    /// fits in 49 bits.
    pub fn key(&self) -> (k: u64)
        ensures
            k == self@.key(),
            k < 0x2_0000_0000_0000,
    {
        proof {
            use_type_invariant(self);
            lemma_wf_bounds(self@);
        }
        self.player_mask + self.pieces_mask
    }

    /// Whether `mask` holds four cells in a line.
    #[verifier::loop_isolation(false)]
    pub fn check_alignment(mask: u64) -> (four: bool)
        ensures
            four == has_four(mask),
            mask & !BOARD_MASK == 0 ==> four == four_in_line(mask),
    {
        proof {
            if mask & !BOARD_MASK == 0 {
                lemma_has_four(mask);
            }
        }
        let factors: [u64; 4] = [
            1,  // vertical
            (HEIGHT + 1) as u64,  // horizontal
            (HEIGHT + 2) as u64,  // diag 1
            HEIGHT as u64,  // diag 2
        ];
        let mut i: usize = 0;
        while i < 4
            invariant
                i <= 4,
                factors@ == seq![1u64, 7u64, 8u64, 6u64],
                forall|j: int| 0 <= j < i ==> !aligned(mask, #[trigger] factors@[j]),
            decreases 4 - i,
        {
            let factor = factors[i];
            let m = mask & (mask >> factor);
            if (m & (m >> (2 * factor))) != 0 {
                return true;
            }
            i += 1;
        }
        assert(!aligned(mask, factors@[0]) && !aligned(mask, factors@[1]) && !aligned(
            mask,
            factors@[2],
        ) && !aligned(mask, factors@[3]));
        return false;
    }

    /// The top cell of column `col`.
    pub fn top_mask(col: u8) -> (m: u64)
        requires
            col < WIDTH,
        ensures
            m == top_mask(col),
    {
        assert(col * (HEIGHT + 1) == col * 7) by (nonlinear_arith)
            requires
                HEIGHT + 1 == 7,
        ;
        return (1u64 << (HEIGHT - 1)) << (col * (HEIGHT + 1));
    }

    /// The bottom cell of column `col`.
    pub fn bottom_mask(col: u8) -> (m: u64)
        requires
            col < WIDTH,
        ensures
            m == bottom_mask(col),
    {
        assert(col * (HEIGHT + 1) == col * 7) by (nonlinear_arith)
            requires
                HEIGHT + 1 == 7,
        ;
        return 1u64 << (col * (HEIGHT + 1));
    }

    /// The six cells of column `col`.
    pub fn column_mask(col: u8) -> (m: u64)
        requires
            col < WIDTH,
        ensures
            m == column_mask(col),
    {
        assert((1u64 << 6) == 64) by (bit_vector);
        assert(col * (HEIGHT + 1) == col * 7) by (nonlinear_arith)
            requires
                HEIGHT + 1 == 7,
        ;
        return ((1u64 << HEIGHT) - 1) << (col * (HEIGHT + 1));
    }

    /// The empty cells that would give the player to move a line of four.
    pub fn winning_position_mask(&self) -> (m: u64)
        ensures
            m == winning_squares(self@.current, self@.pieces),
    {
        Position::compute_winning_position(self.player_mask, self.pieces_mask)
    }

    /// The number of empty cells that would win for the player to move once
    /// that player has dropped a stone into column `mov`.
    pub fn move_score(&self, mov: u8) -> (score: u64)
        requires
            self@.playable(mov),
        ensures
            score == self@.threats(mov),
    {
        proof {
            use_type_invariant(self);
            lemma_played(self@, mov);
        }
        let next_pieces_mask = self.pieces_mask | (self.pieces_mask + Position::bottom_mask(mov));
        Position::pop_count(
            Position::compute_winning_position(
                (self.player_mask ^ self.pieces_mask) ^ next_pieces_mask,
                next_pieces_mask,
            ),
        )
    }

    /// The empty cells of the board that would give `player_mask` a line of
    /// four. For stones among the pieces of a board whose columns are filled
    /// from the bottom, and that hold no four in a line yet, these are the
    /// empty cells with which the stones would hold four in a line.
    pub fn compute_winning_position(player_mask: u64, pieces_mask: u64) -> (m: u64)
        ensures
            m == winning_squares(player_mask, pieces_mask),
            pieces_mask & !BOARD_MASK == 0 && pieces_mask & ((pieces_mask + BOTTOM_ROW_MASK) as u64)
                == 0 && player_mask & pieces_mask == player_mask && !has_four(player_mask)
                ==> forall|i: u64|
                i < 64 ==> ((#[trigger] (m >> i)) & 1 == 1) == (((BOARD_MASK & !pieces_mask) >> i) & 1
                    == 1 && has_four(player_mask | (1u64 << i))),
    {
        // vertical
        let mut r: u64 = (player_mask << 1) & (player_mask << 2) & (player_mask << 3);

        // horizontal
        let mut p: u64 = (player_mask << (HEIGHT + 1)) & (player_mask << (2 * (HEIGHT + 1)));
        r |= p & (player_mask << (3 * (HEIGHT + 1)));
        r |= p & (player_mask >> (HEIGHT + 1));
        p = (player_mask >> (HEIGHT + 1)) & (player_mask >> (2 * (HEIGHT + 1)));
        r |= p & (player_mask << (HEIGHT + 1));
        r |= p & (player_mask >> (3 * (HEIGHT + 1)));

        // diagonal 1
        p = (player_mask << HEIGHT) & (player_mask << (2 * HEIGHT));
        r |= p & (player_mask << (3 * HEIGHT));
        r |= p & (player_mask >> HEIGHT);
        p = (player_mask >> HEIGHT) & (player_mask >> (2 * HEIGHT));
        r |= p & (player_mask << HEIGHT);
        r |= p & (player_mask >> (3 * HEIGHT));

        // diagonal 2
        p = (player_mask << (HEIGHT + 2)) & (player_mask << (2 * (HEIGHT + 2)));
        r |= p & (player_mask << (3 * (HEIGHT + 2)));
        r |= p & (player_mask >> (HEIGHT + 2));
        p = (player_mask >> (HEIGHT + 2)) & (player_mask >> (2 * (HEIGHT + 2)));
        r |= p & (player_mask << (HEIGHT + 2));
        r |= p & (player_mask >> (3 * (HEIGHT + 2)));

        let m = r & (BOARD_MASK ^ pieces_mask);
        proof {
            let s = player_mask;
            let (a7, b7) = ((s << 7) & (s << 14), (s >> 7) & (s >> 14));
            let (a6, b6) = ((s << 6) & (s << 12), (s >> 6) & (s >> 12));
            let (a8, b8) = ((s << 8) & (s << 16), (s >> 8) & (s >> 16));
            let r0 = (s << 1) & (s << 2) & (s << 3);
            let r1 = ((r0 | (a7 & (s << 21))) | (a7 & (s >> 7))) | (b7 & (s << 7));
            let r2 = ((r1 | (b7 & (s >> 21))) | (a6 & (s << 18))) | (a6 & (s >> 6));
            let r3 = ((r2 | (b6 & (s << 6))) | (b6 & (s >> 18))) | (a8 & (s << 24));
            let r4 = ((r3 | (a8 & (s >> 8))) | (b8 & (s << 8))) | (b8 & (s >> 24));
            assert(m == winning_squares(s, pieces_mask)) by (bit_vector)
                requires
                    m == r4 & (BOARD_MASK ^ pieces_mask),
                    r0 == (s << 1) & (s << 2) & (s << 3),
                    r1 == ((r0 | (a7 & (s << 21))) | (a7 & (s >> 7))) | (b7 & (s << 7)),
                    r2 == ((r1 | (b7 & (s >> 21))) | (a6 & (s << 18))) | (a6 & (s >> 6)),
                    r3 == ((r2 | (b6 & (s << 6))) | (b6 & (s >> 18))) | (a8 & (s << 24)),
                    r4 == ((r3 | (a8 & (s >> 8))) | (b8 & (s << 8))) | (b8 & (s >> 24)),
                    a7 == (s << 7) & (s << 14),
                    b7 == (s >> 7) & (s >> 14),
                    a6 == (s << 6) & (s << 12),
                    b6 == (s >> 6) & (s >> 12),
                    a8 == (s << 8) & (s << 16),
                    b8 == (s >> 8) & (s >> 16),
            ;
            if pieces_mask & !BOARD_MASK == 0 && pieces_mask & ((pieces_mask + BOTTOM_ROW_MASK) as u64)
                == 0 && player_mask & pieces_mask == player_mask && !has_four(player_mask) {
                assert forall|i: u64| i < 64 implies ((#[trigger] (m >> i)) & 1 == 1) == (((BOARD_MASK
                    & !pieces_mask) >> i) & 1 == 1 && has_four(player_mask | (1u64 << i))) by {
                    lemma_winning_squares(player_mask, pieces_mask, i);
                }
            }
        }
        return m;
    }

    /// Counts the bits set in `mask`.
    pub fn pop_count(mask: u64) -> (count: u64)
        ensures
            count == popcount(mask),
    {
        let mut rest: u64 = mask;
        let mut c: u64 = 0;
        proof {
            lemma_popcount_at_most_64(mask);
        }
        while rest != 0
            invariant
                c + popcount(rest) == popcount(mask),
                popcount(mask) <= 64,
            decreases rest,
        {
            proof {
                lemma_popcount_clear_lowest(rest);
            }
            c += 1;
            rest &= rest - 1;
        }
        c
    }

    /// Whether the player to move has a column that wins at once.
    pub fn can_win(&self) -> (won: bool)
        ensures
            won == self@.can_win(),
    {
        let mut col: u8 = 0;
        while col < WIDTH
            invariant
                col <= WIDTH,
                forall|c: u8| c < col ==> !(self@.playable(c) && self@.winning(c)),
            decreases WIDTH - col,
        {
            if self.can_play(col) && self.wins(col) {
                return true;
            }
            col += 1;
        }
        false
    }

    /// The columns that are not full, in ascending order.
    pub fn possible_moves(&self) -> (cols: Vec<u8>)
        ensures
            cols@ == playable_below(self@, WIDTH as nat),
            forall|col: u8| #[trigger] cols@.contains(col) ==> self@.playable(col),
            forall|col: u8| #[trigger] self@.playable(col) ==> cols@.contains(col),
            forall|i: int, j: int| 0 <= i < j < cols@.len() ==> cols@[i] < cols@[j],
    {
        proof {
            lemma_playable_below(self@, WIDTH as nat);
        }
        let mut cols: Vec<u8> = Vec::new();
        let mut col: u8 = 0;
        while col < WIDTH
            invariant
                col <= WIDTH,
                cols@ == playable_below(self@, col as nat),
            decreases WIDTH - col,
        {
            if self.can_play(col) {
                cols.push(col);
            }
            col += 1;
        }
        cols
    }

    /// The position that holds these masks and this counter, where they
    /// describe one.
    pub fn from_masks(player_mask: u64, pieces_mask: u64, move_count: u8) -> (p: Option<Position>)
        ensures
            p is Some <==> (Board {
                current: player_mask,
                pieces: pieces_mask,
                moves: move_count as nat,
            }).wf(),
            p matches Some(q) ==> q@ == (Board {
                current: player_mask,
                pieces: pieces_mask,
                moves: move_count as nat,
            }),
    {
        if pieces_mask & !BOARD_MASK != 0 {
            return None;
        }
        assert(pieces_mask + BOTTOM_ROW_MASK <= u64::MAX) by (bit_vector)
            requires
                pieces_mask & !BOARD_MASK == 0,
        ;
        if pieces_mask & (pieces_mask + BOTTOM_ROW_MASK) != 0 {
            return None;
        }
        if player_mask & pieces_mask != player_mask {
            return None;
        }
        if Position::pop_count(pieces_mask) != move_count as u64 {
            return None;
        }
        if Position::pop_count(player_mask) != (move_count / 2) as u64 {
            return None;
        }
        Some(Position { player_mask, pieces_mask, move_count })
    }

    /// The position that the moves of `moves` lead to from the empty board.
    /// A move that names no column, or a full one, is refused. The position
    /// holds the stones that were dropped, each on top of its column, and the
    /// stones of the player to move are those that this player dropped.
    pub fn from_move_sequence(moves: &Vec<u8>) -> (r: Result<Position, &'static str>)
        ensures
            r == Position::replayed(moves@),
            r is Ok <==> replay(moves@) is Some,
            r matches Ok(p) ==> p@ == replay(moves@)->0 && p@.moves == moves@.len() && p@.pieces
                == dropped(moves@, 0) | dropped(moves@, 1) && p@.current == dropped(
                moves@,
                moves@.len() as int % 2,
            ),
    {
        proof {
            if replay(moves@) is Some {
                lemma_replay_stacks(moves@);
                lemma_replay_wf(moves@);
                Position::lemma_view_of(replay(moves@)->0);
            }
        }
        let mut pos = Position::new_empty();
        let mut i: usize = 0;
        proof {
            Position::lemma_of_view(pos);
        }
        while i < moves.len()
            invariant
                i <= moves.len(),
                replay(moves@.take(i as int)) == Some(pos@),
            decreases moves.len() - i,
        {
            let mov = moves[i];
            proof {
                assert(moves@.take(i + 1).drop_last() == moves@.take(i as int));
                assert(moves@.take(i + 1).last() == mov);
            }
            if !pos.can_play(mov) {
                proof {
                    lemma_replay_prefix(moves@, i + 1);
                }
                return Err("Position contains an invalid move.");
            }
            pos = pos.next(mov);
            i += 1;
        }
        proof {
            assert(moves@.take(i as int) == moves@);
            Position::lemma_of_view(pos);
        }
        return Ok(pos);
    }

    /// The position as text: the number of stones in two digits, then the
    /// masks of all stones and of the stones of the player to move.
    pub fn to_string(&self) -> (text: String)
        ensures
            text@ == position_text(self@),
    {
        proof {
            use_type_invariant(self);
            lemma_wf_bounds(self@);
        }
        let mut text = String::from_str("move_count: ");
        text.append(digit_str(self.move_count / 10));
        text.append(digit_str(self.move_count % 10));
        text.append("\n\npieces_mask\n");
        text.append(Mask(self.pieces_mask).to_string().as_str());
        text.append("\nplayer_mask\n");
        text.append(Mask(self.player_mask).to_string().as_str());
        text.append("\n");
        assert(text@ =~= position_text(self@));
        text
    }

    /// The position that holds the values of `b`.
    pub closed spec fn of(b: Board) -> Position {
        Position { player_mask: b.current, pieces_mask: b.pieces, move_count: b.moves as u8 }
    }

    /// What `from_move_sequence` returns for `moves`.
    pub open spec fn replayed(moves: Seq<u8>) -> Result<Position, &'static str> {
        match replay(moves) {
            Some(b) => Ok(Position::of(b)),
            None => Err("Position contains an invalid move."),
        }
    }

    /// What parsing the text `text` returns: each character is the number of a
    /// column, counted from one.
    pub open spec fn parsed(text: Seq<char>) -> Result<Position, &'static str> {
        match columns(text) {
            None => Err("Not a position."),
            Some(moves) => Position::replayed(moves),
        }
    }

    /// A position is the position of its view.
    pub proof fn lemma_of_view(p: Position)
        ensures
            Position::of(p@) == p,
    {
    }

    /// The view of the position of a well-formed board is that board.
    pub proof fn lemma_view_of(b: Board)
        requires
            b.wf(),
        ensures
            Position::of(b)@ == b,
    {
        lemma_wf_bounds(b);
    }

    /// Two positions with one view are one position.
    pub proof fn lemma_view_injective(p: Position, q: Position)
        requires
            p@ == q@,
        ensures
            p == q,
    {
    }
}

/// The columns that the digits of `text` name, or nothing where a character
/// of `text` is no digit.
pub open spec fn columns(text: Seq<char>) -> Option<Seq<u8>> {
    if exists|i: int| 0 <= i < text.len() && !is_digit(#[trigger] text[i]) {
        None
    } else {
        Some(text.map_values(|c: char| digit_column(c)))
    }
}

/// A position as text.
pub open spec fn position_text(b: Board) -> Seq<char> {
    "move_count: "@ + seq![digit_char(b.moves as int / 10), digit_char(b.moves as int % 10)]
        + "\n\npieces_mask\n"@ + mask_text(b.pieces) + "\nplayer_mask\n"@ + mask_text(b.current)
        + "\n"@
}

/// The column that the digit `c` names, counted from zero. The digit zero
/// names no column.
pub open spec fn digit_column(c: char) -> u8 {
    if '1' <= c <= '9' {
        (c as u8 - '1' as u8) as u8
    } else {
        255u8
    }
}

/// Reads the columns that the digits of `text` name, or nothing where a
/// character of `text` is no digit.
pub fn read_columns(text: &str) -> (moves: Option<Vec<u8>>)
    ensures
        match moves {
            Some(moves) => columns(text@) == Some(moves@),
            None => columns(text@) is None,
        },
{
    if !text.is_ascii() {
        proof {
            let i = choose|i: int| 0 <= i < text@.len() && !('\0' <= #[trigger] text@[i] <= '\u{7f}');
            assert(!is_digit(text@[i]));
        }
        return None;
    }
    let bytes = text.as_bytes();
    proof {
        vstd::string::is_ascii_spec_bytes(text);
    }
    let mut moves: Vec<u8> = Vec::new();
    let mut i: usize = 0;
    while i < bytes.len()
        invariant
            i <= bytes.len(),
            bytes@.len() == text@.len(),
            forall|j: int| 0 <= j < bytes@.len() ==> bytes@[j] == text@[j] as u8,
            forall|j: int| 0 <= j < text@.len() ==> '\0' <= #[trigger] text@[j] <= '\u{7f}',
            forall|j: int| 0 <= j < i ==> is_digit(#[trigger] text@[j]),
            moves@ == text@.take(i as int).map_values(|c: char| digit_column(c)),
        decreases bytes.len() - i,
    {
        let byte = bytes[i];
        if byte < 48 || byte > 57 {
            assert(!is_digit(text@[i as int]));
            return None;
        }
        let mov: u8 = if byte >= 49 {
            byte - 49
        } else {
            255
        };
        moves.push(mov);
        assert(moves@ == text@.take(i + 1).map_values(|c: char| digit_column(c)));
        i += 1;
    }
    assert(text@.take(i as int) == text@);
    Some(moves)
}

impl TryFrom<String> for Position {
    type Error = &'static str;

    /// Reads a position from the numbers of the columns played, counted from
    /// one, each a decimal digit.
    fn try_from(s: String) -> (r: Result<Self, Self::Error>)
        ensures
            r == Position::parsed(s@),
    {
        match read_columns(s.as_str()) {
            None => Err("Not a position."),
            Some(moves) => Position::from_move_sequence(&moves),
        }
    }
}

impl TryFromSpecImpl<String> for Position {
    open spec fn obeys_try_from_spec() -> bool {
        true
    }

    open spec fn try_from_spec(s: String) -> Result<Position, &'static str> {
        Position::parsed(s@)
    }
}

impl TryFrom<&str> for Position {
    type Error = &'static str;

    /// Reads a position from the numbers of the columns played, counted from
    /// one, each a decimal digit.
    fn try_from(s: &str) -> (r: Result<Self, Self::Error>)
        ensures
            r == Position::parsed(s@),
    {
        return <Position as TryFrom<String>>::try_from(s.to_owned());
    }
}

impl TryFromSpecImpl<&str> for Position {
    open spec fn obeys_try_from_spec() -> bool {
        true
    }

    open spec fn try_from_spec(s: &str) -> Result<Position, &'static str> {
        Position::parsed(s@)
    }
}

} // verus!
