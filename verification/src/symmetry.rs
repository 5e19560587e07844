//! The board seen in a mirror: the columns in reverse order.

use vstd::prelude::*;
use crate::bits::{lemma_popcount_split, popcount};
use crate::board::{
    Board, BOARD_MASK, BOTTOM_ROW_MASK, CELLS, WIDTH, bottom_mask, column_mask, has_four,
    lemma_played, lemma_wf_bounds, top_mask,
};
use crate::search::{depth_budget, strong_search};
use crate::solver::Solver;
use crate::value::{best_reply, lemma_best_reply, lemma_fresh_search, optimal, reply_value, value};

verus! {

/// The mask `x` with its columns in reverse order.
pub open spec fn mirror(x: u64) -> u64 {
    ((x & 0x7f) << 42) | ((x & 0x3f80) << 28) | ((x & 0x1f_c000) << 14) | (x & 0xfe0_0000) | ((x
        >> 14) & 0x1f_c000) | ((x >> 28) & 0x3f80) | ((x >> 42) & 0x7f)
}

/// The column that the mirror shows in place of `col`.
pub open spec fn mirror_column(col: u8) -> u8 {
    (WIDTH - 1 - col) as u8
}

impl Board {
    /// The board as a mirror shows it.
    pub open spec fn mirrored(self) -> Board {
        Board { current: mirror(self.current), pieces: mirror(self.pieces), moves: self.moves }
    }
}

/// Shifting a mask to the left, where no bit is lost, keeps its count.
pub proof fn lemma_popcount_shl(x: u64, k: u64)
    requires
        k < 64,
        x <= u64::MAX >> k,
    ensures
        popcount(x << k) == popcount(x),
    decreases k,
{
    if k == 0 {
        assert(x << 0 == x) by (bit_vector);
    } else {
        let j = (k - 1) as u64;
        let y = x << j;
        assert(x <= u64::MAX >> j && y <= 0x7fff_ffff_ffff_ffff && x << k == 2 * y) by (bit_vector)
            requires
                0 < k < 64,
                x <= u64::MAX >> k,
                j == k - 1,
                y == x << j,
        ;
        lemma_popcount_shl(x, j);
        let z = x << k;
        assert(z / 2 == y && z % 2 == 0);
        if z == 0 {
            assert(popcount(y) == 0);
        }
    }
}

/// The mirror image of a mask of 49 bits has as many bits set.
pub proof fn lemma_mirror_popcount(x: u64)
    requires
        x < 0x2_0000_0000_0000,
    ensures
        popcount(mirror(x)) == popcount(x),
{
    let a0 = x & 0x7f;
    let a1 = x & 0x3f80;
    let a2 = x & 0x1f_c000;
    let a3 = x & 0xfe0_0000;
    let a4 = x & 0x7_f000_0000;
    let a5 = x & 0x3f8_0000_0000;
    let a6 = x & 0x1_fc00_0000_0000;
    let (x1, x2, x3, x4, x5) = (a0 | a1, a0 | a1 | a2, a0 | a1 | a2 | a3, a0 | a1 | a2 | a3 | a4, a0
        | a1 | a2 | a3 | a4 | a5);
    assert(a1 & !x1 == 0 && x1 ^ a1 == a0 && a2 & !x2 == 0 && x2 ^ a2 == x1 && a3 & !x3 == 0 && x3
        ^ a3 == x2 && a4 & !x4 == 0 && x4 ^ a4 == x3 && a5 & !x5 == 0 && x5 ^ a5 == x4 && a6 & !x == 0
        && x ^ a6 == x5) by (bit_vector)
        requires
            x < 0x2_0000_0000_0000,
            a0 == x & 0x7f,
            a1 == x & 0x3f80,
            a2 == x & 0x1f_c000,
            a3 == x & 0xfe0_0000,
            a4 == x & 0x7_f000_0000,
            a5 == x & 0x3f8_0000_0000,
            a6 == x & 0x1_fc00_0000_0000,
            x1 == a0 | a1,
            x2 == a0 | a1 | a2,
            x3 == a0 | a1 | a2 | a3,
            x4 == a0 | a1 | a2 | a3 | a4,
            x5 == a0 | a1 | a2 | a3 | a4 | a5,
    ;
    lemma_popcount_split(x1, a1);
    lemma_popcount_split(x2, a2);
    lemma_popcount_split(x3, a3);
    lemma_popcount_split(x4, a4);
    lemma_popcount_split(x5, a5);
    lemma_popcount_split(x, a6);
    // the columns of the mirror image
    let m = mirror(x);
    let b0 = a6 >> 42;
    let b1 = a5 >> 28;
    let b2 = a4 >> 14;
    let b3 = a3;
    let b4 = a2 << 14;
    let b5 = a1 << 28;
    let b6 = a0 << 42;
    let (m1, m2, m3, m4, m5) = (b0 | b1, b0 | b1 | b2, b0 | b1 | b2 | b3, b0 | b1 | b2 | b3 | b4, b0
        | b1 | b2 | b3 | b4 | b5);
    assert(b1 & !m1 == 0 && m1 ^ b1 == b0 && b2 & !m2 == 0 && m2 ^ b2 == m1 && b3 & !m3 == 0 && m3
        ^ b3 == m2 && b4 & !m4 == 0 && m4 ^ b4 == m3 && b5 & !m5 == 0 && m5 ^ b5 == m4 && b6 & !m == 0
        && m ^ b6 == m5 && a6 == b0 << 42 && a5 == b1 << 28 && a4 == b2 << 14 && b0 <= u64::MAX >> 42
        && b1 <= u64::MAX >> 28 && b2 <= u64::MAX >> 14 && a2 <= u64::MAX >> 14 && a1 <= u64::MAX
        >> 28 && a0 <= u64::MAX >> 42) by (bit_vector)
        requires
            x < 0x2_0000_0000_0000,
            m == mirror(x),
            a0 == x & 0x7f,
            a1 == x & 0x3f80,
            a2 == x & 0x1f_c000,
            a3 == x & 0xfe0_0000,
            a4 == x & 0x7_f000_0000,
            a5 == x & 0x3f8_0000_0000,
            a6 == x & 0x1_fc00_0000_0000,
            b0 == a6 >> 42,
            b1 == a5 >> 28,
            b2 == a4 >> 14,
            b3 == a3,
            b4 == a2 << 14,
            b5 == a1 << 28,
            b6 == a0 << 42,
            m1 == b0 | b1,
            m2 == b0 | b1 | b2,
            m3 == b0 | b1 | b2 | b3,
            m4 == b0 | b1 | b2 | b3 | b4,
            m5 == b0 | b1 | b2 | b3 | b4 | b5,
    ;
    lemma_popcount_split(m1, b1);
    lemma_popcount_split(m2, b2);
    lemma_popcount_split(m3, b3);
    lemma_popcount_split(m4, b4);
    lemma_popcount_split(m5, b5);
    lemma_popcount_split(m, b6);
    lemma_popcount_shl(b0, 42);
    lemma_popcount_shl(b1, 28);
    lemma_popcount_shl(b2, 14);
    lemma_popcount_shl(a2, 14);
    lemma_popcount_shl(a1, 28);
    lemma_popcount_shl(a0, 42);
}

/// The mirror image of a well-formed board is well-formed, and its mirror
/// image is the board.
pub proof fn lemma_mirrored_wf(b: Board)
    requires
        b.wf(),
    ensures
        b.mirrored().wf(),
        b.mirrored().mirrored() == b,
{
    let (p, c) = (b.pieces, b.current);
    let (mp, mc) = (mirror(p), mirror(c));
    lemma_wf_bounds(b);
    assert(mp & !BOARD_MASK == 0 && mp & ((mp + BOTTOM_ROW_MASK) as u64) == 0 && mc & mp == mc
        && mirror(mp) == p && mirror(mc) == c && p < 0x2_0000_0000_0000 && c
        < 0x2_0000_0000_0000) by (bit_vector)
        requires
            p & !BOARD_MASK == 0,
            p & ((p + BOTTOM_ROW_MASK) as u64) == 0,
            c & p == c,
            mp == mirror(p),
            mc == mirror(c),
    ;
    lemma_mirror_popcount(p);
    lemma_mirror_popcount(c);
}

/// What can be played on a board can be played in the mirror, in the column
/// that the mirror shows: it is playable there, leads to the mirror image, and
/// wins there where it wins here.
pub proof fn lemma_mirrored_move(b: Board, col: u8)
    requires
        b.wf(),
        col < WIDTH,
    ensures
        b.mirrored().playable(mirror_column(col)) == b.playable(col),
        b.playable(col) ==> b.mirrored().played(mirror_column(col)) == b.played(col).mirrored(),
        b.playable(col) ==> b.mirrored().winning(mirror_column(col)) == b.winning(col),
{
    let (p, c) = (b.pieces, b.current);
    let (mp, mc) = (mirror(p), mirror(c));
    let d = mirror_column(col);
    assert((mp & top_mask(d) == 0) == (p & top_mask(col) == 0)) by (bit_vector)
        requires
            col < 7,
            d == 6 - col,
            p & !BOARD_MASK == 0,
            mp == mirror(p),
    ;
    if b.playable(col) {
        let np = p | ((p + bottom_mask(col)) as u64);
        let mnp = mp | ((mp + bottom_mask(d)) as u64);
        let stone = ((p + bottom_mask(col)) as u64) & column_mask(col);
        let mstone = ((mp + bottom_mask(d)) as u64) & column_mask(d);
        assert(mnp == mirror(np) && mstone == mirror(stone) && mc ^ mp == mirror(c ^ p) && mc
            | mstone == mirror(c | stone) && (c | stone) & !BOARD_MASK == 0) by (bit_vector)
            requires
                col < 7,
                d == 6 - col,
                p & !BOARD_MASK == 0,
                p & ((p + BOTTOM_ROW_MASK) as u64) == 0,
                p & top_mask(col) == 0,
                c & p == c,
                mp == mirror(p),
                mc == mirror(c),
                np == p | ((p + bottom_mask(col)) as u64),
                mnp == mp | ((mp + bottom_mask(d)) as u64),
                stone == ((p + bottom_mask(col)) as u64) & column_mask(col),
                mstone == ((mp + bottom_mask(d)) as u64) & column_mask(d),
        ;
        lemma_mirror_four(c | stone);
    }
}

/// A mask of cells holds four in a line where its mirror image does.
pub proof fn lemma_mirror_four(m: u64)
    requires
        m & !BOARD_MASK == 0,
    ensures
        has_four(mirror(m)) == has_four(m),
{
    let r = mirror(m);
    assert(has_four(r) == has_four(m)) by (bit_vector)
        requires
            m & !BOARD_MASK == 0,
            r == mirror(m),
    ;
}

/// The player to move can win at once where the player in the mirror can.
pub proof fn lemma_mirrored_can_win(b: Board)
    requires
        b.wf(),
    ensures
        b.mirrored().can_win() == b.can_win(),
{
    lemma_mirrored_wf(b);
    if b.can_win() {
        let col = choose|col: u8| b.playable(col) && b.winning(col);
        lemma_mirrored_move(b, col);
        assert(b.mirrored().playable(mirror_column(col)) && b.mirrored().winning(
            mirror_column(col),
        ));
    }
    if b.mirrored().can_win() {
        let col = choose|col: u8| b.mirrored().playable(col) && b.mirrored().winning(col);
        lemma_mirrored_move(b, mirror_column(col));
        assert(mirror_column(mirror_column(col)) == col);
        assert(b.playable(mirror_column(col)) && b.winning(mirror_column(col)));
    }
}

/// A position and its mirror image have the same value, and a stone is worth
/// as much here as in the column that the mirror shows.
pub proof fn lemma_mirrored_value(b: Board)
    requires
        b.wf(),
    ensures
        value(b.mirrored()) == value(b),
        forall|col: u8|
            col < WIDTH && b.playable(col) ==> #[trigger] reply_value(b, col) == reply_value(
                b.mirrored(),
                mirror_column(col),
            ),
    decreases CELLS - b.moves,
{
    let m = b.mirrored();
    lemma_wf_bounds(b);
    lemma_mirrored_wf(b);
    lemma_mirrored_can_win(b);
    if b.moves < CELLS {
        assert forall|col: u8| col < WIDTH && b.playable(col) implies #[trigger] reply_value(b, col)
            == reply_value(m, mirror_column(col)) by {
            lemma_played(b, col);
            lemma_mirrored_move(b, col);
            lemma_mirrored_value(b.played(col));
        }
        if !b.can_win() {
            lemma_best_reply(b, WIDTH as nat);
            lemma_best_reply(m, WIDTH as nat);
            let (v, w) = (best_reply(b, WIDTH as nat), best_reply(m, WIDTH as nat));
            if v != -crate::search::MAX_SCORE - 1 {
                let col = choose|col: u8|
                    col < WIDTH && b.playable(col) && reply_value(b, col) == v;
                lemma_mirrored_move(b, col);
                assert(reply_value(m, mirror_column(col)) <= w);
            }
            if w != -crate::search::MAX_SCORE - 1 {
                let col = choose|col: u8|
                    col < WIDTH && m.playable(col) && reply_value(m, col) == w;
                let back = mirror_column(col);
                lemma_mirrored_move(b, back);
                assert(mirror_column(back) == col);
                assert(reply_value(b, back) <= v);
            }
        }
    }
}

/// A best move is a best move in the mirror, in the column that the mirror
/// shows.
pub proof fn lemma_mirrored_optimal(b: Board, col: u8)
    requires
        b.wf(),
        optimal(b, col),
    ensures
        optimal(b.mirrored(), mirror_column(col)),
{
    lemma_mirrored_value(b);
    lemma_mirrored_can_win(b);
    lemma_mirrored_move(b, col);
}

/// Solving a position and solving its mirror image give the same outcome, in
/// sign and in size. Where the position has one best move only, the column
/// found for the mirror image is the one that the mirror shows in place of the
/// column found for the position.
pub proof fn lemma_mirror_solved(b: Board)
    requires
        b.wf(),
    ensures
        Solver::solved(b.mirrored()).2 == Solver::solved(b).2,
        Solver::solved_weakly(b.mirrored()).2.sign() == Solver::solved_weakly(b).2.sign(),
        !b.terminal() && (forall|col: u8| optimal(b, col) ==> col == Solver::solved(b).0)
            ==> Solver::solved(b.mirrored()).0 == mirror_column(Solver::solved(b).0),
{
    let m = b.mirrored();
    lemma_wf_bounds(b);
    lemma_mirrored_wf(b);
    lemma_mirrored_value(b);
    lemma_fresh_search(b, -127, 127, depth_budget(b));
    lemma_fresh_search(m, -127, 127, depth_budget(m));
    lemma_fresh_search(b, -1, 1, depth_budget(b));
    lemma_fresh_search(m, -1, 1, depth_budget(m));
    if !b.terminal() {
        let found = strong_search(m).mov;
        lemma_mirrored_optimal(m, found);
        assert(mirror_column(mirror_column(found)) == found);
    }
}

} // verus!
