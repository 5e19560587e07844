//! What the masks say in terms of cells: lines of four on the board, and the
//! cells that complete one.

use vstd::prelude::*;
use crate::board::{BOARD_MASK, BOTTOM_ROW_MASK, aligned, has_four, winning_squares};

verus! {

/// The mask `m` holds the cell in row `row` of column `col`.
pub open spec fn holds(m: u64, col: int, row: int) -> bool {
    0 <= col < 7 && 0 <= row < 6 && (m >> ((col * 7 + row) as u64)) & 1 == 1
}

/// The mask `m` holds the four cells that begin at the cell in row `row` of
/// column `col` and go on by `right` columns and `up` rows at a time.
pub open spec fn line(m: u64, col: int, row: int, right: int, up: int) -> bool {
    &&& holds(m, col, row)
    &&& holds(m, col + right, row + up)
    &&& holds(m, col + 2 * right, row + 2 * up)
    &&& holds(m, col + 3 * right, row + 3 * up)
}

/// The mask `m` holds four cells in a line: upwards, to the right, or along
/// one of the two diagonals.
pub open spec fn four_in_line(m: u64) -> bool {
    exists|col: int, row: int|
        #![trigger holds(m, col, row)]
        line(m, col, row, 0, 1) || line(m, col, row, 1, 0) || line(m, col, row, 1, 1) || line(
            m,
            col,
            row,
            1,
            -1,
        )
}

/// A mask that is not empty has a bit set.
pub proof fn lemma_some_bit(x: u64) -> (i: u64)
    requires
        x != 0,
    ensures
        i < 64,
        (x >> i) & 1 == 1,
    decreases x,
{
    if x % 2 == 1 {
        assert((x >> 0) & 1 == 1) by (bit_vector)
            requires
                x % 2 == 1,
        ;
        0
    } else {
        let half = x / 2;
        let j = lemma_some_bit(half);
        let i = (j + 1) as u64;
        assert(i < 64 && (x >> i) & 1 == 1) by (bit_vector)
            requires
                half == x / 2,
                j < 64,
                (half >> j) & 1 == 1,
                i == j + 1,
        ;
        i
    }
}

/// A line of four cells on the board is one that the shifts find.
pub proof fn lemma_line_is_aligned(m: u64, col: int, row: int, right: int, up: int)
    requires
        line(m, col, row, right, up),
        (right == 0 && up == 1) || (right == 1 && (up == 0 || up == 1 || up == -1)),
    ensures
        aligned(m, (7 * right + up) as u64),
        has_four(m),
{
    let i = (col * 7 + row) as u64;
    let step = (7 * right + up) as u64;
    let (i1, i2, i3) = ((i + step) as u64, (i + 2 * step) as u64, (i + 3 * step) as u64);
    assert(i1 == ((col + right) * 7 + row + up) as u64);
    assert(i2 == ((col + 2 * right) * 7 + row + 2 * up) as u64);
    assert(i3 == ((col + 3 * right) * 7 + row + 3 * up) as u64);
    assert(holds(m, col, row) && holds(m, col + right, row + up) && holds(
        m,
        col + 2 * right,
        row + 2 * up,
    ) && holds(m, col + 3 * right, row + 3 * up));
    assert(aligned(m, step)) by (bit_vector)
        requires
            i < 48,
            step == 1 || step == 7 || step == 8 || step == 6,
            i1 == i + step,
            i2 == i + 2 * step,
            i3 == i + 3 * step,
            (m >> i) & 1 == 1,
            (m >> i1) & 1 == 1,
            (m >> i2) & 1 == 1,
            (m >> i3) & 1 == 1,
    ;
}

/// What the shifts by `step` find in a mask of cells is a line of four cells
/// on the board: the sentinel bits keep a line from running from one column
/// into the next.
pub proof fn lemma_aligned_is_line(m: u64, step: u64) -> (at: (int, int))
    requires
        m & !BOARD_MASK == 0,
        step == 1 || step == 7 || step == 8 || step == 6,
        aligned(m, step),
    ensures
        step == 1 ==> line(m, at.0, at.1, 0, 1),
        step == 7 ==> line(m, at.0, at.1, 1, 0),
        step == 8 ==> line(m, at.0, at.1, 1, 1),
        step == 6 ==> line(m, at.0, at.1, 1, -1),
{
    let pairs = m & (m >> step);
    let fours = pairs & (pairs >> ((2 * step) as u64));
    let i = lemma_some_bit(fours);
    let (i1, i2, i3) = ((i + step) as u64, (i + 2 * step) as u64, (i + 3 * step) as u64);
    assert((m >> i) & 1 == 1 && (m >> i1) & 1 == 1 && (m >> i2) & 1 == 1 && (m >> i3) & 1 == 1 && i3
        < 49 && i % 7 != 6 && i1 % 7 != 6 && i2 % 7 != 6 && i3 % 7 != 6) by (bit_vector)
        requires
            m & !BOARD_MASK == 0,
            step == 1 || step == 7 || step == 8 || step == 6,
            pairs == m & (m >> step),
            fours == pairs & (pairs >> ((2 * step) as u64)),
            i < 64,
            (fours >> i) & 1 == 1,
            i1 == i + step,
            i2 == i + 2 * step,
            i3 == i + 3 * step,
    ;
    let (col, row) = (i as int / 7, i as int % 7);
    let right: int = if step == 1 {
        0
    } else {
        1
    };
    let up: int = if step == 1 || step == 8 {
        1
    } else if step == 7 {
        0
    } else {
        -1
    };
    assert(step == 7 * right + up);
    assert(0 <= row < 6 && 0 <= col < 7);
    assert(0 <= row + up < 6 && 0 <= row + 2 * up < 6 && 0 <= row + 3 * up < 6);
    assert(col + 3 * right < 7);
    assert(i == (col * 7 + row) as u64);
    assert(i1 == ((col + right) * 7 + row + up) as u64);
    assert(i2 == ((col + 2 * right) * 7 + row + 2 * up) as u64);
    assert(i3 == ((col + 3 * right) * 7 + row + 3 * up) as u64);
    assert(holds(m, col, row));
    assert(holds(m, col + right, row + up));
    assert(holds(m, col + 2 * right, row + 2 * up));
    assert(holds(m, col + 3 * right, row + 3 * up));
    (col, row)
}

/// The shifts find four in a line in a mask of cells where the board holds
/// four cells of the mask in a line, and only there.
pub proof fn lemma_has_four(m: u64)
    requires
        m & !BOARD_MASK == 0,
    ensures
        has_four(m) == four_in_line(m),
{
    if four_in_line(m) {
        let (col, row) = choose|col: int, row: int|
            #![trigger holds(m, col, row)]
            line(m, col, row, 0, 1) || line(m, col, row, 1, 0) || line(m, col, row, 1, 1) || line(
                m,
                col,
                row,
                1,
                -1,
            );
        if line(m, col, row, 0, 1) {
            lemma_line_is_aligned(m, col, row, 0, 1);
        } else if line(m, col, row, 1, 0) {
            lemma_line_is_aligned(m, col, row, 1, 0);
        } else if line(m, col, row, 1, 1) {
            lemma_line_is_aligned(m, col, row, 1, 1);
        } else {
            lemma_line_is_aligned(m, col, row, 1, -1);
        }
    }
    if has_four(m) {
        let step: u64 = if aligned(m, 1) {
            1
        } else if aligned(m, 7) {
            7
        } else if aligned(m, 8) {
            8
        } else {
            6
        };
        let at = lemma_aligned_is_line(m, step);
        assert(holds(m, at.0, at.1));
    }
}

/// The cells that `winning_squares` names are the empty cells of the board
/// that would give the stones four in a line, for stones among the pieces of
/// a board whose columns are filled from the bottom, where the stones do not
/// hold four in a line yet.
pub proof fn lemma_winning_squares(stones: u64, pieces: u64, i: u64)
    requires
        pieces & !BOARD_MASK == 0,
        pieces & ((pieces + BOTTOM_ROW_MASK) as u64) == 0,
        stones & pieces == stones,
        !has_four(stones),
        i < 64,
    ensures
        ((winning_squares(stones, pieces) >> i) & 1 == 1) == (((BOARD_MASK & !pieces) >> i) & 1 == 1
            && has_four(stones | (1u64 << i))),
{
    assert(((winning_squares(stones, pieces) >> i) & 1 == 1) == (((BOARD_MASK & !pieces) >> i) & 1
        == 1 && has_four(stones | (1u64 << i)))) by (bit_vector)
        requires
            pieces & !BOARD_MASK == 0,
            pieces & ((pieces + BOTTOM_ROW_MASK) as u64) == 0,
            stones & pieces == stones,
            !has_four(stones),
            i < 64,
    ;
}

} // verus!
