//! The value of a position under best play, and what the search has to do
//! with it.

use vstd::prelude::*;
use crate::board::{
    Board, CELLS, WIDTH, lemma_key_bound, lemma_key_injective, lemma_played,
    lemma_some_playable, lemma_wf_bounds,
};
use crate::search::{
    MAX_SCORE, NO_MOVE, Table, eval_max, expand, explore_order, lemma_explore_below,
    lemma_first_winning, lemma_search_bounds, search, table_in_range,
};

verus! {

/// The score of the position `b` for the player to move, where both players
/// play as well as can be: that of a win with the next stone where there is
/// one, nothing on a full board, and else the best that a move leads to.
pub open spec fn value(b: Board) -> int
    decreases CELLS - b.moves, WIDTH + 1,
{
    if b.moves >= CELLS {
        0
    } else if b.can_win() {
        eval_max(b)
    } else {
        best_reply(b, WIDTH as nat)
    }
}

/// What a stone in column `col` is worth to the player who drops it, where it
/// does not win at once.
pub open spec fn reply_value(b: Board, col: u8) -> int
    decreases CELLS - b.moves, 0nat,
{
    if b.moves >= CELLS {
        0
    } else {
        -value(b.played(col))
    }
}

/// The most that a stone in one of the first `n` columns is worth, or less
/// than any score where none of them is playable.
pub open spec fn best_reply(b: Board, n: nat) -> int
    decreases CELLS - b.moves, n,
{
    if n == 0 || n > WIDTH || b.moves >= CELLS {
        -MAX_SCORE - 1
    } else {
        let col = (n - 1) as u8;
        let rest = best_reply(b, (n - 1) as nat);
        if b.playable(col) && reply_value(b, col) > rest {
            reply_value(b, col)
        } else {
            rest
        }
    }
}

/// Column `col` is a best move on the board `b`.
pub open spec fn optimal(b: Board, col: u8) -> bool {
    &&& b.playable(col)
    &&& if b.can_win() {
        b.winning(col)
    } else {
        reply_value(b, col) == value(b)
    }
}

/// Every score of the table is one that its position cannot exceed.
pub open spec fn table_sound(t: Table) -> bool {
    forall|b: Board|
        b.wf() && t.dom().contains(b.key() as u64) ==> #[trigger] value(b) <= t[b.key() as u64].1
}

/// No playable column among the first `n` is worth more than `best_reply`
/// says, and one of them is worth that much.
pub proof fn lemma_best_reply(b: Board, n: nat)
    requires
        n <= WIDTH,
        b.moves < CELLS,
    ensures
        forall|col: u8| col < n && b.playable(col) ==> reply_value(b, col) <= best_reply(b, n),
        best_reply(b, n) == -MAX_SCORE - 1 || exists|col: u8|
            col < n && b.playable(col) && reply_value(b, col) == best_reply(b, n),
        best_reply(b, n) >= -MAX_SCORE - 1,
    decreases n,
{
    if n > 0 {
        lemma_best_reply(b, (n - 1) as nat);
        let col = (n - 1) as u8;
        let rest = best_reply(b, (n - 1) as nat);
        if b.playable(col) && reply_value(b, col) > rest {
        } else if rest != -MAX_SCORE - 1 {
            let c = choose|c: u8| c < n - 1 && b.playable(c) && reply_value(b, c) == rest;
            assert(c < n && b.playable(c) && reply_value(b, c) == best_reply(b, n));
        }
    }
}

/// Where no stone wins at once, no stone is worth more than the position.
pub proof fn lemma_reply_at_most_value(b: Board, col: u8)
    requires
        b.moves < CELLS,
        !b.can_win(),
        b.playable(col),
    ensures
        reply_value(b, col) <= value(b),
{
    lemma_best_reply(b, WIDTH as nat);
}

/// The value of a position lies between the scores of the soonest loss and
/// of the soonest win.
pub proof fn lemma_value_range(b: Board)
    requires
        b.wf(),
    ensures
        -((CELLS - b.moves) / 2) <= value(b) <= eval_max(b),
        -MAX_SCORE <= value(b) <= MAX_SCORE,
    decreases CELLS - b.moves,
{
    lemma_wf_bounds(b);
    if b.moves < CELLS && !b.can_win() {
        lemma_best_reply(b, WIDTH as nat);
        lemma_some_playable(b);
        let some = choose|col: u8| b.playable(col);
        lemma_played(b, some);
        lemma_value_range(b.played(some));
        if best_reply(b, WIDTH as nat) != -MAX_SCORE - 1 {
            let col = choose|col: u8|
                col < WIDTH && b.playable(col) && reply_value(b, col) == best_reply(b, WIDTH as nat);
            lemma_played(b, col);
            lemma_value_range(b.played(col));
        }
    }
}

/// What the score of a search says of the value of its position, for a
/// search that is deep enough never to guess: a score inside the window is the
/// value, a score at or below the window is no less than the value, and one
/// at or above it is no more. The table stays sound.
pub proof fn lemma_search_sound(t: Table, b: Board, alpha: int, beta: int, depth: int)
    requires
        b.wf(),
        table_in_range(t),
        table_sound(t),
        -127 <= alpha < beta <= 127,
        depth >= CELLS - b.moves,
    ensures
        table_sound(search(t, b, alpha, beta, depth).table),
        search(t, b, alpha, beta, depth).score <= alpha ==> value(b) <= search(
            t,
            b,
            alpha,
            beta,
            depth,
        ).score,
        search(t, b, alpha, beta, depth).score >= beta ==> value(b) >= search(
            t,
            b,
            alpha,
            beta,
            depth,
        ).score,
        alpha < search(t, b, alpha, beta, depth).score < beta ==> value(b) == search(
            t,
            b,
            alpha,
            beta,
            depth,
        ).score,
        search(t, b, alpha, beta, depth).score > alpha && b.moves < CELLS && !b.can_win() ==> {
            let found = search(t, b, alpha, beta, depth);
            b.playable(found.mov) && reply_value(b, found.mov) >= found.score
        },
    decreases CELLS - b.moves, 1nat, 0nat,
{
    lemma_wf_bounds(b);
    lemma_key_bound(b);
    lemma_value_range(b);
    let key = b.key() as u64;
    let bound = if t.dom().contains(key) {
        t[key].1 as int
    } else {
        eval_max(b)
    };
    let hint = if t.dom().contains(key) {
        t[key].0
    } else {
        NO_MOVE
    };
    let queue = explore_order(b);
    assert(value(b) <= bound);
    if b.moves >= CELLS {
    } else if b.can_win() {
    } else if beta > bound && alpha >= bound {
    } else {
        lemma_explore_below(b, WIDTH as nat);
        lemma_some_playable(b);
        assert(queue.len() > 0) by {
            let col = choose|col: u8| b.playable(col);
            assert(queue.contains(col));
        }
        let high = if beta > bound {
            bound
        } else {
            beta
        };
        lemma_expand_sound(t, b, queue, 0, alpha, high, depth, hint, 1, alpha);
    }
}

/// What a search that is under way says of the value of its position: a
/// score below `beta` is no less than the value, and is the value where it lies
/// above `floor`, the lower end of the window that the search began with; a
/// score of `beta` or more is no more than the value.
pub proof fn lemma_expand_sound(
    t: Table,
    b: Board,
    queue: Seq<u8>,
    i: nat,
    alpha: int,
    beta: int,
    depth: int,
    best: u8,
    visited: nat,
    floor: int,
)
    requires
        b.wf(),
        b.moves < CELLS,
        !b.can_win(),
        queue == explore_order(b),
        i <= queue.len(),
        table_in_range(t),
        table_sound(t),
        -127 <= floor <= alpha < beta <= MAX_SCORE,
        i > 0 ==> -MAX_SCORE <= alpha,
        depth >= CELLS - b.moves,
        forall|j: int| 0 <= j < i ==> reply_value(b, #[trigger] queue[j]) <= alpha,
        alpha > floor ==> b.playable(best) && reply_value(b, best) == alpha,
    ensures
        table_sound(expand(t, b, queue, i, alpha, beta, depth, best, visited).table),
        expand(t, b, queue, i, alpha, beta, depth, best, visited).score < beta ==> value(b)
            <= expand(t, b, queue, i, alpha, beta, depth, best, visited).score,
        floor < expand(t, b, queue, i, alpha, beta, depth, best, visited).score < beta ==> value(b)
            == expand(t, b, queue, i, alpha, beta, depth, best, visited).score,
        expand(t, b, queue, i, alpha, beta, depth, best, visited).score >= beta ==> value(b)
            >= expand(t, b, queue, i, alpha, beta, depth, best, visited).score,
        expand(t, b, queue, i, alpha, beta, depth, best, visited).score > floor ==> {
            let found = expand(t, b, queue, i, alpha, beta, depth, best, visited);
            b.playable(found.mov) && reply_value(b, found.mov) >= found.score
        },
    decreases CELLS - b.moves, 0nat, queue.len() - i,
{
    lemma_explore_below(b, WIDTH as nat);
    lemma_best_reply(b, WIDTH as nat);
    lemma_key_bound(b);
    lemma_some_playable(b);
    assert(queue.len() > 0) by {
        let col = choose|col: u8| b.playable(col);
        assert(queue.contains(col));
    }
    if i >= queue.len() {
        // Every playable column is in the queue, and none is worth more than alpha.
        assert forall|col: u8| col < WIDTH && b.playable(col) implies reply_value(b, col)
            <= alpha by {
            assert(queue.contains(col));
            let j = choose|j: int| 0 <= j < queue.len() && queue[j] == col;
            assert(reply_value(b, queue[j]) <= alpha);
        }
        assert(value(b) <= alpha);
        if alpha > floor {
            assert(value(b) >= alpha);
        }
        let after = t.insert(b.key() as u64, (best, alpha as i8));
        assert forall|c: Board| c.wf() && after.dom().contains(c.key() as u64) implies #[trigger] value(
            c,
        ) <= after[c.key() as u64].1 by {
            lemma_key_bound(c);
            if c.key() == b.key() {
                lemma_key_injective(c, b);
            }
        }
    } else {
        let col = queue[i as int];
        assert(b.playable(col) && col < WIDTH);
        lemma_played(b, col);
        lemma_search_bounds(t, b.played(col), -beta, -alpha, depth - 1);
        lemma_search_sound(t, b.played(col), -beta, -alpha, depth - 1);
        let reply = search(t, b.played(col), -beta, -alpha, depth - 1);
        let score = -reply.score;
        assert(reply_value(b, col) == -value(b.played(col)));
        if score >= beta {
            assert(reply_value(b, col) >= score);
            assert(value(b) >= reply_value(b, col));
        } else if score > alpha {
            assert(reply_value(b, col) == score);
            assert forall|j: int| 0 <= j < i + 1 implies reply_value(b, #[trigger] queue[j])
                <= score by {
                if j < i {
                    assert(reply_value(b, queue[j]) <= alpha);
                }
            }
            lemma_expand_sound(
                reply.table,
                b,
                queue,
                i + 1,
                score,
                beta,
                depth,
                col,
                visited + reply.visited,
                floor,
            );
        } else {
            assert forall|j: int| 0 <= j < i + 1 implies reply_value(b, #[trigger] queue[j])
                <= alpha by {
                if j < i {
                    assert(reply_value(b, queue[j]) <= alpha);
                }
            }
            lemma_expand_sound(
                reply.table,
                b,
                queue,
                i + 1,
                alpha,
                beta,
                depth,
                best,
                visited + reply.visited,
                floor,
            );
        }
    }
}

/// A search that starts with an empty table, in a window that holds every
/// score of the game or only the scores around a draw, and that is deep enough
/// never to guess, finds the value of the position as far as the window asks
/// for it, and a move that achieves what it found.
pub proof fn lemma_fresh_search(b: Board, alpha: int, beta: int, depth: int)
    requires
        b.wf(),
        -127 <= alpha < 0 < beta <= 127,
        depth >= CELLS - b.moves,
    ensures
        -MAX_SCORE <= value(b) <= MAX_SCORE,
        alpha < value(b) < beta ==> search(Table::empty(), b, alpha, beta, depth).score == value(b),
        value(b) <= alpha ==> search(Table::empty(), b, alpha, beta, depth).score <= alpha,
        value(b) >= beta ==> search(Table::empty(), b, alpha, beta, depth).score >= beta,
        b.moves >= CELLS ==> search(Table::empty(), b, alpha, beta, depth).mov == NO_MOVE,
        alpha < -MAX_SCORE && beta > MAX_SCORE && b.moves < CELLS ==> optimal(
            b,
            search(Table::empty(), b, alpha, beta, depth).mov,
        ),
        search(Table::empty(), b, alpha, beta, depth).score > alpha && b.moves < CELLS ==> {
            let found = search(Table::empty(), b, alpha, beta, depth);
            b.playable(found.mov) && (b.winning(found.mov) || reply_value(b, found.mov)
                >= found.score)
        },
{
    let t = Table::empty();
    let found = search(t, b, alpha, beta, depth);
    lemma_wf_bounds(b);
    lemma_search_bounds(t, b, alpha, beta, depth);
    lemma_search_sound(t, b, alpha, beta, depth);
    lemma_value_range(b);
    if b.moves < CELLS {
        if b.can_win() {
            lemma_first_winning(b, 0);
        } else {
            lemma_best_reply(b, WIDTH as nat);
        }
    }
}

} // verus!
