//! The mathematical model of a position: two 64-bit masks and a move counter.
//!
//! Each column takes seven consecutive bits, the bottom cell first. The seventh
//! bit of a column stands for no cell: it is a sentinel that keeps shifts and
//! carries from running into the next column.

use vstd::prelude::*;
use crate::bits::{
    popcount, is_single_bit, lemma_popcount_set_bit, lemma_popcount_split, lemma_popcount_zero,
};

verus! {

/// Number of columns.
pub const WIDTH: u8 = 7;

/// Number of rows.
pub const HEIGHT: u8 = 6;

/// Number of cells, which is the length of the longest game.
pub const CELLS: u8 = 42;

/// The bottom cell of every column.
pub const BOTTOM_ROW_MASK: u64 = 0x40810204081;

/// Every cell of the board.
pub const BOARD_MASK: u64 = 0xfdfbf7efdfbf;

/// The top cell of column `col`.
pub open spec fn top_mask(col: u8) -> u64 {
    (1u64 << 5) << (col * 7)
}

/// The bottom cell of column `col`.
pub open spec fn bottom_mask(col: u8) -> u64 {
    1u64 << (col * 7)
}

/// The six cells of column `col`.
pub open spec fn column_mask(col: u8) -> u64 {
    63u64 << (col * 7)
}

/// The bottom cells of the first `width` columns of a board `height` cells high.
pub open spec fn bottom_row(width: nat, height: nat) -> u64
    decreases width,
{
    if width == 0 {
        0
    } else {
        bottom_row((width - 1) as nat, height) | (1u64 << ((width - 1) * (height + 1)))
    }
}

/// `m` holds two cells `step` bits apart whose images `2 * step` bits further
/// are in `m` too: four cells in a line whose neighbours lie `step` bits apart.
pub open spec fn aligned(m: u64, step: u64) -> bool {
    let pairs = m & (m >> step);
    pairs & (pairs >> (2 * step)) != 0
}

/// `m` holds four cells in a line: in a column (neighbours 1 bit apart), in a
/// row (7 bits), or on a diagonal (8 bits rising, 6 bits falling).
pub open spec fn has_four(m: u64) -> bool {
    aligned(m, 1) || aligned(m, 7) || aligned(m, 8) || aligned(m, 6)
}

/// The cells that lack only themselves to make a line of four with three cells
/// of `stones` whose neighbours lie `step` bits apart.
pub open spec fn completions(stones: u64, step: u64) -> u64 {
    let above = (stones << step) & (stones << (2 * step));
    let below = (stones >> step) & (stones >> (2 * step));
    (above & (stones << (3 * step))) | (above & (stones >> step)) | (below & (stones << step)) | (
    below & (stones >> (3 * step)))
}

/// The empty cells of the board that would give `stones` a line of four: on top
/// of three stones in a column, or anywhere in a row or on a diagonal.
pub open spec fn winning_squares(stones: u64, pieces: u64) -> u64 {
    (((stones << 1) & (stones << 2) & (stones << 3)) | completions(stones, 7) | completions(
        stones,
        6,
    ) | completions(stones, 8)) & (BOARD_MASK ^ pieces)
}

/// A position as plain values.
pub struct Board {
    /// The cells of the player to move.
    pub current: u64,
    /// The cells of both players.
    pub pieces: u64,
    /// The number of stones on the board.
    pub moves: nat,
}

impl Board {
    /// The board before the first move.
    pub open spec fn empty() -> Board {
        Board { current: 0, pieces: 0, moves: 0 }
    }

    /// The masks describe stones that were dropped in turn: all on the board,
    /// each column filled from the bottom without a gap, the stones of the
    /// player to move among them, and as many of each as the counter says.
    pub open spec fn wf(self) -> bool {
        &&& self.pieces & !BOARD_MASK == 0
        &&& self.pieces & ((self.pieces + BOTTOM_ROW_MASK) as u64) == 0
        &&& self.current & self.pieces == self.current
        &&& popcount(self.pieces) == self.moves
        &&& popcount(self.current) == self.moves / 2
    }

    /// Column `col` exists and is not full.
    pub open spec fn playable(self, col: u8) -> bool {
        col < WIDTH && self.pieces & top_mask(col) == 0
    }

    /// The cell that a stone dropped into column `col` comes to rest in.
    pub open spec fn landing(self, col: u8) -> u64 {
        ((self.pieces + bottom_mask(col)) as u64) & column_mask(col)
    }

    /// The position after the player to move has dropped a stone into `col`.
    pub open spec fn played(self, col: u8) -> Board {
        Board {
            current: self.current ^ self.pieces,
            pieces: self.pieces | ((self.pieces + bottom_mask(col)) as u64),
            moves: self.moves + 1,
        }
    }

    /// A stone dropped into column `col` gives the player to move four in a line.
    pub open spec fn winning(self, col: u8) -> bool {
        has_four(self.current | self.landing(col))
    }

    /// The player to move has a column that wins at once.
    pub open spec fn can_win(self) -> bool {
        exists|col: u8| self.playable(col) && self.winning(col)
    }

    /// Every cell is taken.
    pub open spec fn terminal(self) -> bool {
        self.moves == CELLS
    }

    /// The transposition key.
    pub open spec fn key(self) -> int {
        self.current + self.pieces
    }

    /// The stones of the player who is not to move.
    pub open spec fn opponent(self) -> u64 {
        self.current ^ self.pieces
    }

    /// The number of empty cells that would win for the player to move once
    /// that player has dropped a stone into column `col`.
    pub open spec fn threats(self, col: u8) -> nat {
        let after = self.played(col);
        popcount(winning_squares(after.opponent(), after.pieces))
    }
}

/// The playable columns among the first `n`, in ascending order.
pub open spec fn playable_below(b: Board, n: nat) -> Seq<u8>
    decreases n,
{
    if n == 0 {
        Seq::empty()
    } else {
        let col = (n - 1) as u8;
        if b.playable(col) {
            playable_below(b, (n - 1) as nat).push(col)
        } else {
            playable_below(b, (n - 1) as nat)
        }
    }
}

/// The position that the moves of `moves` lead to from the empty board, or
/// `None` where one of them names no column or a full one.
pub open spec fn replay(moves: Seq<u8>) -> Option<Board>
    decreases moves.len(),
{
    if moves.len() == 0 {
        Some(Board::empty())
    } else {
        match replay(moves.drop_last()) {
            Some(b) => if b.playable(moves.last()) {
                Some(b.played(moves.last()))
            } else {
                None
            },
            None => None,
        }
    }
}

/// The number of stones that the moves of `moves` have dropped into column
/// `col`.
pub open spec fn height(moves: Seq<u8>, col: u8) -> nat
    decreases moves.len(),
{
    if moves.len() == 0 {
        0
    } else if moves.last() == col {
        height(moves.drop_last(), col) + 1
    } else {
        height(moves.drop_last(), col)
    }
}

/// The cell in row `row` of column `col`.
pub open spec fn cell(col: u8, row: u64) -> u64 {
    1u64 << (col * 7 + row)
}

/// The lowest `rows` cells of column `col`.
pub open spec fn column_fill(col: u8, rows: u64) -> u64 {
    (((1u64 << rows) - 1) as u64) << (col * 7)
}

/// The cells of the stones that the player whose turn is `turn` has dropped in
/// the game `moves`: 0 is the player who began, 1 the other. Each stone lies
/// on top of the stones that were dropped into its column before it.
pub open spec fn dropped(moves: Seq<u8>, turn: int) -> u64
    decreases moves.len(),
{
    if moves.len() == 0 {
        0
    } else {
        let before = moves.drop_last();
        if (moves.len() - 1) % 2 == turn {
            dropped(before, turn) | cell(moves.last(), height(before, moves.last()) as u64)
        } else {
            dropped(before, turn)
        }
    }
}

/// Some sequence of legal moves leads to `b`.
pub open spec fn reachable(b: Board) -> bool {
    exists|moves: Seq<u8>| replay(moves) == Some(b)
}

/// The playable columns among the first `n` are listed once each, in
/// ascending order.
pub proof fn lemma_playable_below(b: Board, n: nat)
    requires
        n <= WIDTH,
    ensures
        forall|col: u8| #[trigger]
            playable_below(b, n).contains(col) ==> col < n && b.playable(col),
        forall|col: u8| col < n && #[trigger] b.playable(col) ==> playable_below(b, n).contains(col),
        forall|i: int, j: int|
            0 <= i < j < playable_below(b, n).len() ==> playable_below(b, n)[i] < playable_below(
                b,
                n,
            )[j],
    decreases n,
{
    if n > 0 {
        let col = (n - 1) as u8;
        let before = playable_below(b, (n - 1) as nat);
        let after = playable_below(b, n);
        lemma_playable_below(b, (n - 1) as nat);
        if b.playable(col) {
            assert(after == before.push(col));
            assert(after[after.len() - 1] == col);
            assert forall|c: u8| #[trigger] after.contains(c) implies c < n && b.playable(c) by {
                let i = choose|i: int| 0 <= i < after.len() && after[i] == c;
                if i < before.len() {
                    assert(before[i] == c);
                    assert(before.contains(c));
                }
            }
            assert forall|c: u8| c < n && #[trigger] b.playable(c) implies after.contains(c) by {
                if c != col {
                    assert(before.contains(c));
                    let i = choose|i: int| 0 <= i < before.len() && before[i] == c;
                    assert(after[i] == c);
                }
            }
            assert forall|i: int, j: int| 0 <= i < j < after.len() implies after[i] < after[j] by {
                assert(before[i] == after[i]);
                assert(before.contains(before[i]));
                if j < before.len() {
                    assert(before[j] == after[j]);
                }
            }
        }
    }
}

/// The masks of the board are those of seven columns of six cells.
pub proof fn lemma_board_masks()
    ensures
        BOTTOM_ROW_MASK == bottom_row(WIDTH as nat, HEIGHT as nat),
        BOARD_MASK == BOTTOM_ROW_MASK * ((1u64 << 6) - 1),
{
    reveal_with_fuel(bottom_row, 8);
    assert((((((((0u64 | (1u64 << 0)) | (1u64 << 7)) | (1u64 << 14)) | (1u64 << 21)) | (1u64 << 28))
        | (1u64 << 35)) | (1u64 << 42)) == BOTTOM_ROW_MASK && (1u64 << 6) == 64) by (bit_vector);
}

/// The empty board is well-formed.
pub proof fn lemma_empty_wf()
    ensures
        Board::empty().wf(),
{
    assert(0u64 & !BOARD_MASK == 0 && 0u64 & ((0u64 + BOTTOM_ROW_MASK) as u64) == 0 && 0u64 & 0u64
        == 0u64) by (bit_vector);
}

/// The board has 42 cells.
pub proof fn lemma_board_mask_count()
    ensures
        popcount(BOARD_MASK) == 42,
{
    reveal_with_fuel(popcount, 50);
}

/// What the masks of a well-formed board cannot exceed.
pub proof fn lemma_wf_bounds(b: Board)
    requires
        b.wf(),
    ensures
        b.pieces <= BOARD_MASK,
        b.current <= b.pieces,
        b.current & !b.pieces == 0,
        b.moves <= 42,
{
    let (p, c) = (b.pieces, b.current);
    assert(p <= BOARD_MASK && c <= p && c & !p == 0 && p & !BOARD_MASK == 0) by (bit_vector)
        requires
            p & !BOARD_MASK == 0,
            c & p == c,
    ;
    lemma_board_mask_count();
    lemma_popcount_split(BOARD_MASK, p);
}

/// A move on a well-formed board sets one cell that was empty, and leaves a
/// well-formed board with one stone more.
pub proof fn lemma_played(b: Board, col: u8)
    requires
        b.wf(),
        b.playable(col),
    ensures
        b.played(col).wf(),
        b.pieces + bottom_mask(col) <= u64::MAX,
        is_single_bit(b.landing(col)),
        b.pieces & b.landing(col) == 0,
        b.played(col).pieces == b.pieces | b.landing(col),
        b.played(col).opponent() == b.current | b.landing(col),
        popcount(b.played(col).pieces) == popcount(b.pieces) + 1,
        b.moves < 42,
{
    let (p, c) = (b.pieces, b.current);
    let stone = b.landing(col);
    let after = b.played(col);
    let (np, nc) = (after.pieces, after.current);
    assert(p + bottom_mask(col) <= u64::MAX && stone != 0 && stone & ((stone - 1) as u64) == 0 && p
        & stone == 0 && np == p | stone && np & !BOARD_MASK == 0 && np & ((np + BOTTOM_ROW_MASK) as u64)
        == 0) by (bit_vector)
        requires
            col < 7,
            p & !BOARD_MASK == 0,
            p & ((p + BOTTOM_ROW_MASK) as u64) == 0,
            p & top_mask(col) == 0,
            stone == ((p + bottom_mask(col)) as u64) & column_mask(col),
            np == p | ((p + bottom_mask(col)) as u64),
    ;
    assert(nc & np == nc && c & !p == 0 && nc ^ np == c | stone && nc == p ^ c) by (bit_vector)
        requires
            c & p == c,
            p & stone == 0,
            nc == c ^ p,
            np == p | stone,
    ;
    lemma_popcount_set_bit(p, stone);
    lemma_popcount_split(p, c);
    lemma_wf_bounds(after);
}

/// Where a prefix of a sequence of moves holds an illegal move, so does the
/// sequence.
pub proof fn lemma_replay_prefix(moves: Seq<u8>, n: int)
    requires
        0 <= n <= moves.len(),
        replay(moves.take(n)) is None,
    ensures
        replay(moves) is None,
    decreases moves.len() - n,
{
    if n < moves.len() {
        assert(moves.take(n + 1).drop_last() == moves.take(n));
        lemma_replay_prefix(moves, n + 1);
    } else {
        assert(moves.take(n) == moves);
    }
}

/// A sequence of legal moves leads to a well-formed board that holds as many
/// stones as there were moves.
pub proof fn lemma_replay_wf(moves: Seq<u8>)
    ensures
        replay(moves) matches Some(b) ==> b.wf() && b.moves == moves.len(),
    decreases moves.len(),
{
    if moves.len() == 0 {
        lemma_empty_wf();
    } else {
        lemma_replay_wf(moves.drop_last());
        if let Some(b) = replay(moves.drop_last()) {
            if b.playable(moves.last()) {
                lemma_played(b, moves.last());
            }
        }
    }
}

/// A column holds no more stones than there were moves.
pub proof fn lemma_height_bound(moves: Seq<u8>, col: u8)
    ensures
        height(moves, col) <= moves.len(),
    decreases moves.len(),
{
    if moves.len() > 0 {
        lemma_height_bound(moves.drop_last(), col);
    }
}

/// Every move of a sequence of legal moves names a column, and the moves
/// before it are legal too.
pub proof fn lemma_replay_columns(moves: Seq<u8>)
    requires
        replay(moves) is Some,
    ensures
        forall|i: int| 0 <= i < moves.len() ==> #[trigger] moves[i] < WIDTH,
        forall|n: int| 0 <= n <= moves.len() ==> replay(#[trigger] moves.take(n)) is Some,
        forall|col: u8| #[trigger] height(moves, col) <= moves.len(),
    decreases moves.len(),
{
    assert forall|col: u8| #[trigger] height(moves, col) <= moves.len() by {
        lemma_height_bound(moves, col);
    }
    if moves.len() > 0 {
        let before = moves.drop_last();
        lemma_replay_columns(before);
        assert forall|i: int| 0 <= i < moves.len() implies #[trigger] moves[i] < WIDTH by {
            if i < moves.len() - 1 {
                assert(before[i] == moves[i]);
            }
        }
        assert forall|n: int| 0 <= n <= moves.len() implies replay(#[trigger] moves.take(n))
            is Some by {
            if n < moves.len() {
                assert(moves.take(n) =~= before.take(n));
            } else {
                assert(moves.take(n) =~= moves);
            }
        }
    }
}

/// The position that a sequence of legal moves leads to holds the stones that
/// were dropped, each on top of its column: the pieces are the stones of both
/// players, the stones of the player to move are those that this player
/// dropped, and each column is filled as high as stones were dropped into it.
pub proof fn lemma_replay_stacks(moves: Seq<u8>)
    requires
        replay(moves) is Some,
    ensures
        replay(moves)->0.pieces == dropped(moves, 0) | dropped(moves, 1),
        replay(moves)->0.current == dropped(moves, moves.len() as int % 2),
        dropped(moves, 0) & dropped(moves, 1) == 0,
        forall|col: u8|
            col < WIDTH ==> #[trigger] height(moves, col) <= HEIGHT && replay(moves)->0.pieces
                & column_mask(col) == column_fill(col, height(moves, col) as u64),
    decreases moves.len(),
{
    if moves.len() == 0 {
        assert(0u64 == 0u64 | 0u64 && 0u64 & 0u64 == 0) by (bit_vector);
        assert forall|col: u8| col < WIDTH implies 0u64 & column_mask(col) == column_fill(
            col,
            0,
        ) by {
            assert(col < 7 ==> 0u64 & column_mask(col) == column_fill(col, 0)) by (bit_vector);
        }
    } else {
        let before = moves.drop_last();
        let col = moves.last();
        lemma_replay_stacks(before);
        lemma_replay_wf(before);
        let b = replay(before)->0;
        let after = b.played(col);
        lemma_played(b, col);
        let (p, np) = (b.pieces, after.pieces);
        let h = height(before, col) as u64;
        let stone = b.landing(col);
        assert(height(before, col) <= HEIGHT);
        assert(h < 6 && stone == cell(col, h) && np & column_mask(col) == column_fill(
            col,
            (h + 1) as u64,
        )) by (bit_vector)
            requires
                col < 7,
                h <= 6,
                p & top_mask(col) == 0,
                p & column_mask(col) == column_fill(col, h),
                stone == ((p + bottom_mask(col)) as u64) & column_mask(col),
                np == p | stone,
        ;
        assert forall|other: u8| other < WIDTH implies #[trigger] height(moves, other) <= HEIGHT
            && np & column_mask(other) == column_fill(other, height(moves, other) as u64) by {
            if other != col {
                let fill = column_fill(other, height(before, other) as u64);
                assert(np & column_mask(other) == fill) by (bit_vector)
                    requires
                        col < 7,
                        other < 7,
                        other != col,
                        h < 6,
                        stone == cell(col, h),
                        np == p | stone,
                        p & column_mask(other) == fill,
                ;
            }
        }
        let turn = before.len() as int % 2;
        let (own, opp) = (dropped(before, turn), dropped(before, 1 - turn));
        let c = b.current;
        let after_own = own | stone;
        assert(c ^ p == opp && np == after_own | opp && np == opp | after_own && after_own & opp == 0
            && opp & after_own == 0) by (bit_vector)
            requires
                c == own,
                p == own | opp || p == opp | own,
                own & opp == 0 || opp & own == 0,
                p & stone == 0,
                np == p | stone,
                after_own == own | stone,
        ;
    }
}

/// Every position that legal play can reach is well-formed: the stones of the
/// player to move are among the pieces, and the pieces are cells of the board.
pub proof fn lemma_reachable_wf(b: Board)
    requires
        reachable(b),
    ensures
        b.wf(),
        b.current & b.pieces == b.current,
        b.pieces & !BOARD_MASK == 0,
{
    let moves = choose|moves: Seq<u8>| replay(moves) == Some(b);
    lemma_replay_wf(moves);
}

/// No two well-formed boards share a key.
pub proof fn lemma_key_injective(a: Board, b: Board)
    requires
        a.wf(),
        b.wf(),
        a.key() == b.key(),
    ensures
        a == b,
{
    let (pa, ca, pb, cb) = (a.pieces, a.current, b.pieces, b.current);
    assert(pa == pb && ca == cb) by (bit_vector)
        requires
            pa & !BOARD_MASK == 0,
            pb & !BOARD_MASK == 0,
            pa & ((pa + BOTTOM_ROW_MASK) as u64) == 0,
            pb & ((pb + BOTTOM_ROW_MASK) as u64) == 0,
            ca & pa == ca,
            cb & pb == cb,
            ca + pa == cb + pb,
    ;
}

/// A well-formed board that is not full has a column to play.
pub proof fn lemma_some_playable(b: Board)
    requires
        b.wf(),
        b.moves < CELLS,
    ensures
        exists|col: u8| b.playable(col),
{
    let p = b.pieces;
    if !(b.playable(0) || b.playable(1) || b.playable(2) || b.playable(3) || b.playable(4)
        || b.playable(5) || b.playable(6)) {
        assert(p == BOARD_MASK) by (bit_vector)
            requires
                p & !BOARD_MASK == 0,
                p & ((p + BOTTOM_ROW_MASK) as u64) == 0,
                p & top_mask(0) != 0,
                p & top_mask(1) != 0,
                p & top_mask(2) != 0,
                p & top_mask(3) != 0,
                p & top_mask(4) != 0,
                p & top_mask(5) != 0,
                p & top_mask(6) != 0,
        ;
        lemma_board_mask_count();
    }
}

/// On a full board no column is playable.
pub proof fn lemma_full_board(b: Board)
    requires
        b.wf(),
        b.moves >= CELLS,
    ensures
        b.pieces == BOARD_MASK,
        b.moves == CELLS,
        forall|col: u8| !b.playable(col),
{
    let p = b.pieces;
    lemma_wf_bounds(b);
    lemma_board_mask_count();
    lemma_popcount_split(BOARD_MASK, p);
    let rest = BOARD_MASK ^ p;
    lemma_popcount_zero(rest);
    assert(p == BOARD_MASK) by (bit_vector)
        requires
            BOARD_MASK ^ p == 0,
    ;
    assert forall|col: u8| !b.playable(col) by {
        assert(col < 7 ==> BOARD_MASK & top_mask(col) != 0) by (bit_vector);
    }
}

/// The key of a well-formed board fits in 49 bits.
pub proof fn lemma_key_bound(b: Board)
    requires
        b.wf(),
    ensures
        0 <= b.key() < 0x2_0000_0000_0000,
{
    lemma_wf_bounds(b);
}

} // verus!
