//! The search as a function: what the solver computes, stated on plain values.

use vstd::prelude::*;
use crate::board::{Board, CELLS, WIDTH, lemma_played, lemma_some_playable, lemma_wf_bounds};

verus! {

/// Stands for "no column" where a column is expected.
pub const NO_MOVE: u8 = 255;

/// The largest score: a win with the first stone that could win.
pub const MAX_SCORE: i8 = 21;

/// The table of the search: under the key of a position, a column to try
/// first and a score that the position cannot exceed.
pub type Table = Map<u64, (u8, i8)>;

/// The most that the player to move can score: a win with the next stone.
pub open spec fn eval_max(b: Board) -> int {
    (CELLS + 1 - b.moves) / 2
}

/// How many plies deep a solver searches: as many as the board has room
/// for, so that it reaches the end of every game and never guesses.
pub open spec fn depth_budget(b: Board) -> int {
    CELLS - b.moves
}

/// What columns nearer the centre are preferred by.
pub open spec fn center_bonus(col: u8) -> u8 {
    if col <= 3 {
        col
    } else {
        (6 - col) as u8
    }
}

/// Column `c` is tried before column `d`: it makes more threats, or as many and
/// lies nearer the centre, or as near and further right.
pub open spec fn outranks(b: Board, c: u8, d: u8) -> bool {
    let (tc, td) = (b.threats(c), b.threats(d));
    tc > td || (tc == td && (center_bonus(c) > center_bonus(d) || (center_bonus(c) == center_bonus(d)
        && c > d)))
}

/// `queue` with `col` put before the first column that `col` outranks.
pub open spec fn insert_ranked(b: Board, queue: Seq<u8>, col: u8) -> Seq<u8>
    decreases queue.len(),
{
    if queue.len() == 0 {
        seq![col]
    } else if outranks(b, col, queue[0]) {
        seq![col] + queue
    } else {
        seq![queue[0]] + insert_ranked(b, queue.drop_first(), col)
    }
}

/// The playable columns among the first `n`, in the order in which the search
/// tries them.
pub open spec fn explore_below(b: Board, n: nat) -> Seq<u8>
    decreases n,
{
    if n == 0 {
        Seq::empty()
    } else {
        let col = (n - 1) as u8;
        if b.playable(col) {
            insert_ranked(b, explore_below(b, (n - 1) as nat), col)
        } else {
            explore_below(b, (n - 1) as nat)
        }
    }
}

/// The playable columns in the order in which the search tries them.
pub open spec fn explore_order(b: Board) -> Seq<u8> {
    explore_below(b, WIDTH as nat)
}

/// The first column from `from` on that wins at once, or `NO_MOVE`.
pub open spec fn first_winning(b: Board, from: nat) -> u8
    decreases WIDTH - from,
{
    if from >= WIDTH {
        NO_MOVE
    } else if b.playable(from as u8) && b.winning(from as u8) {
        from as u8
    } else {
        first_winning(b, from + 1)
    }
}

/// What a search returns and leaves behind.
pub struct Found {
    /// The column to play, or `NO_MOVE`.
    pub mov: u8,
    /// The score of the position, as far as the window asked for it.
    pub score: int,
    /// The table after the search.
    pub table: Table,
    /// The number of positions that the search has visited.
    pub visited: nat,
}

/// The search of the position `b` in the window from `alpha` to `beta`, with
/// the table `t` and `depth` plies to go before it guesses.
pub open spec fn search(t: Table, b: Board, alpha: int, beta: int, depth: int) -> Found
    decreases CELLS - b.moves, 1nat, 0nat,
{
    let key = b.key() as u64;
    let bound = if t.dom().contains(key) {
        t[key].1 as int
    } else {
        eval_max(b)
    };
    let hint = if t.dom().contains(key) {
        t[key].0
    } else {
        NO_MOVE
    };
    let queue = explore_order(b);
    if b.moves >= CELLS {
        Found { mov: NO_MOVE, score: 0, table: t, visited: 1 }
    } else if b.can_win() {
        Found { mov: first_winning(b, 0), score: eval_max(b), table: t, visited: 1 }
    } else if beta > bound && alpha >= bound {
        Found { mov: hint, score: bound, table: t, visited: 1 }
    } else if depth == 0 && queue.len() > 0 {
        Found { mov: queue[0], score: 0, table: t, visited: 1 }
    } else {
        expand(t, b, queue, 0, alpha, if beta > bound { bound } else { beta }, depth, hint, 1)
    }
}

/// The search of `b` once the columns of `queue` before the `i`-th are done:
/// `alpha` is the best score so far, `best` the column that gave it, and
/// `visited` the number of positions seen.
pub open spec fn expand(
    t: Table,
    b: Board,
    queue: Seq<u8>,
    i: nat,
    alpha: int,
    beta: int,
    depth: int,
    best: u8,
    visited: nat,
) -> Found
    decreases CELLS - b.moves, 0nat, queue.len() - i,
{
    if i >= queue.len() || b.moves >= CELLS {
        Found { mov: best, score: alpha, table: t.insert(b.key() as u64, (best, alpha as i8)), visited }
    } else {
        let col = queue[i as int];
        let reply = search(t, b.played(col), -beta, -alpha, depth - 1);
        let score = -reply.score;
        if score >= beta {
            Found { mov: col, score, table: reply.table, visited: visited + reply.visited }
        } else if score > alpha {
            expand(reply.table, b, queue, i + 1, score, beta, depth, col, visited + reply.visited)
        } else {
            expand(reply.table, b, queue, i + 1, alpha, beta, depth, best, visited + reply.visited)
        }
    }
}

/// The search that solves the position `b` for its exact score: it starts
/// with an empty table and a window that holds every score.
pub open spec fn strong_search(b: Board) -> Found {
    search(Map::empty(), b, -127, 127, depth_budget(b))
}

/// The search that solves the position `b` for its winner only: it starts
/// with an empty table and a window that holds the draw alone.
pub open spec fn weak_search(b: Board) -> Found {
    search(Map::empty(), b, -1, 1, depth_budget(b))
}

/// The largest number of positions in a game tree `plies` moves deep.
pub open spec fn tree_size(plies: nat) -> nat
    decreases plies,
{
    if plies == 0 {
        1
    } else {
        1 + 7 * tree_size((plies - 1) as nat)
    }
}

/// Every score in the table is one that a search can return.
pub open spec fn table_in_range(t: Table) -> bool {
    forall|k: u64| #[trigger] t.dom().contains(k) ==> -MAX_SCORE <= t[k].1 <= MAX_SCORE
}

/// Where `insert_ranked` puts a column: before the first column that it
/// outranks.
pub proof fn lemma_insert_ranked(b: Board, queue: Seq<u8>, col: u8) -> (at: int)
    ensures
        0 <= at <= queue.len(),
        insert_ranked(b, queue, col) == queue.insert(at, col),
        forall|k: int| 0 <= k < at ==> !outranks(b, col, #[trigger] queue[k]),
        at < queue.len() ==> outranks(b, col, queue[at]),
    decreases queue.len(),
{
    if queue.len() == 0 {
        assert(seq![col] =~= queue.insert(0, col));
        0
    } else if outranks(b, col, queue[0]) {
        assert(seq![col] + queue =~= queue.insert(0, col));
        0
    } else {
        let rest = queue.drop_first();
        let at = lemma_insert_ranked(b, rest, col);
        assert(seq![queue[0]] + rest.insert(at, col) =~= queue.insert(at + 1, col));
        assert forall|k: int| 0 <= k < at + 1 implies !outranks(b, col, #[trigger] queue[k]) by {
            if k > 0 {
                assert(queue[k] == rest[k - 1]);
            }
        }
        at + 1
    }
}

/// The search tries every playable column, and nothing else.
pub proof fn lemma_explore_below(b: Board, n: nat)
    requires
        n <= WIDTH,
    ensures
        explore_below(b, n).len() <= n,
        forall|i: int|
            0 <= i < explore_below(b, n).len() ==> b.playable(#[trigger] explore_below(b, n)[i])
                && explore_below(b, n)[i] < n,
        forall|col: u8| col < n && b.playable(col) ==> explore_below(b, n).contains(col),
    decreases n,
{
    if n > 0 {
        let col = (n - 1) as u8;
        let before = explore_below(b, (n - 1) as nat);
        let after = explore_below(b, n);
        lemma_explore_below(b, (n - 1) as nat);
        if b.playable(col) {
            let at = lemma_insert_ranked(b, before, col);
            assert(after[at] == col);
            assert forall|c: u8| c < n && b.playable(c) implies after.contains(c) by {
                if c != col {
                    let i = choose|i: int| 0 <= i < before.len() && before[i] == c;
                    if i < at {
                        assert(after[i] == c);
                    } else {
                        assert(after[i + 1] == c);
                    }
                }
            }
        }
    }
}

/// The tree of a whole game fits in the counter of visited positions.
pub proof fn lemma_tree_size(plies: nat)
    ensures
        plies <= CELLS ==> tree_size(plies) <= tree_size(CELLS as nat),
        tree_size(CELLS as nat) <= u128::MAX,
        plies > 0 ==> tree_size(plies) == 1 + 7 * tree_size((plies - 1) as nat),
{
    reveal_with_fuel(tree_size, 44);
    lemma_tree_size_grows(plies, CELLS as nat);
}

/// A deeper tree is no smaller.
pub proof fn lemma_tree_size_grows(low: nat, high: nat)
    ensures
        low <= high ==> tree_size(low) <= tree_size(high),
    decreases high,
{
    if low < high {
        lemma_tree_size_grows(low, (high - 1) as nat);
    }
}

/// What holds of every search: its score is one of the game, its table holds
/// such scores only, and it visits no more positions than the game tree has.
pub proof fn lemma_search_bounds(t: Table, b: Board, alpha: int, beta: int, depth: int)
    requires
        b.wf(),
        table_in_range(t),
        -127 <= alpha < beta <= 127,
        0 <= depth,
    ensures
        table_in_range(search(t, b, alpha, beta, depth).table),
        -MAX_SCORE <= search(t, b, alpha, beta, depth).score <= MAX_SCORE,
        1 <= search(t, b, alpha, beta, depth).visited <= tree_size((CELLS - b.moves) as nat),
    decreases CELLS - b.moves, 1nat, 0nat,
{
    lemma_wf_bounds(b);
    let key = b.key() as u64;
    let bound = if t.dom().contains(key) {
        t[key].1 as int
    } else {
        eval_max(b)
    };
    let hint = if t.dom().contains(key) {
        t[key].0
    } else {
        NO_MOVE
    };
    let queue = explore_order(b);
    if b.moves >= CELLS {
    } else if b.can_win() {
    } else if beta > bound && alpha >= bound {
    } else if depth == 0 && queue.len() > 0 {
    } else {
        lemma_explore_below(b, WIDTH as nat);
        lemma_some_playable(b);
        lemma_expand_bounds(
            t,
            b,
            queue,
            0,
            alpha,
            if beta > bound {
                bound
            } else {
                beta
            },
            depth,
            hint,
            1,
        );
    }
}

/// What holds of a search that is under way.
pub proof fn lemma_expand_bounds(
    t: Table,
    b: Board,
    queue: Seq<u8>,
    i: nat,
    alpha: int,
    beta: int,
    depth: int,
    best: u8,
    visited: nat,
)
    requires
        b.wf(),
        b.moves < CELLS,
        queue == explore_order(b),
        i <= queue.len(),
        table_in_range(t),
        -127 <= alpha < beta <= MAX_SCORE,
        i > 0 ==> -MAX_SCORE <= alpha,
        1 <= depth,
        1 <= visited <= 1 + i * tree_size((CELLS - b.moves - 1) as nat),
    ensures
        table_in_range(expand(t, b, queue, i, alpha, beta, depth, best, visited).table),
        -MAX_SCORE <= expand(t, b, queue, i, alpha, beta, depth, best, visited).score <= MAX_SCORE,
        1 <= expand(t, b, queue, i, alpha, beta, depth, best, visited).visited <= tree_size(
            (CELLS - b.moves) as nat,
        ),
    decreases CELLS - b.moves, 0nat, queue.len() - i,
{
    let below = tree_size((CELLS - b.moves - 1) as nat);
    lemma_explore_below(b, WIDTH as nat);
    lemma_some_playable(b);
    lemma_tree_size((CELLS - b.moves) as nat);
    assert(queue.len() > 0) by {
        let col = choose|col: u8| b.playable(col);
        assert(queue.contains(col));
    }
    if i >= queue.len() {
        assert(i * below <= 7 * below) by (nonlinear_arith)
            requires
                i <= 7,
                0 <= below,
        ;
    } else {
        let col = queue[i as int];
        lemma_played(b, col);
        lemma_search_bounds(t, b.played(col), -beta, -alpha, depth - 1);
        let reply = search(t, b.played(col), -beta, -alpha, depth - 1);
        let score = -reply.score;
        assert((i + 1) * below == i * below + below && i * below <= 6 * below) by (nonlinear_arith)
            requires
                i <= 6,
                0 <= below,
        ;
        if score >= beta {
        } else if score > alpha {
            lemma_expand_bounds(
                reply.table,
                b,
                queue,
                i + 1,
                score,
                beta,
                depth,
                col,
                visited + reply.visited,
            );
        } else {
            lemma_expand_bounds(
                reply.table,
                b,
                queue,
                i + 1,
                alpha,
                beta,
                depth,
                best,
                visited + reply.visited,
            );
        }
    }
}

/// The column that a search finds is a column that can be played, or none,
/// where the table held no column for the position or one that can be played.
/// It is a column that can be played where the board is not full and the
/// window begins below every score of the game.
pub proof fn lemma_search_move(t: Table, b: Board, alpha: int, beta: int, depth: int)
    requires
        b.wf(),
        table_in_range(t),
        -127 <= alpha < beta <= 127,
        0 <= depth,
        t.dom().contains(b.key() as u64) ==> t[b.key() as u64].0 == NO_MOVE || b.playable(
            t[b.key() as u64].0,
        ),
    ensures
        search(t, b, alpha, beta, depth).mov == NO_MOVE || b.playable(
            search(t, b, alpha, beta, depth).mov,
        ),
        alpha < -MAX_SCORE && b.moves < CELLS ==> b.playable(search(t, b, alpha, beta, depth).mov),
{
    lemma_wf_bounds(b);
    let key = b.key() as u64;
    let bound = if t.dom().contains(key) {
        t[key].1 as int
    } else {
        eval_max(b)
    };
    let hint = if t.dom().contains(key) {
        t[key].0
    } else {
        NO_MOVE
    };
    let queue = explore_order(b);
    lemma_explore_below(b, WIDTH as nat);
    if b.moves >= CELLS {
    } else if b.can_win() {
        lemma_first_winning(b, 0);
    } else if beta > bound && alpha >= bound {
    } else if depth == 0 && queue.len() > 0 {
    } else {
        lemma_some_playable(b);
        lemma_expand_move(
            t,
            b,
            queue,
            0,
            alpha,
            if beta > bound {
                bound
            } else {
                beta
            },
            depth,
            hint,
            1,
        );
    }
}

/// The column that a search under way finds is the best so far or one of the
/// columns yet to try, and is one of these where the first of them is sure
/// to raise alpha.
pub proof fn lemma_expand_move(
    t: Table,
    b: Board,
    queue: Seq<u8>,
    i: nat,
    alpha: int,
    beta: int,
    depth: int,
    best: u8,
    visited: nat,
)
    requires
        b.wf(),
        b.moves < CELLS,
        queue == explore_order(b),
        i <= queue.len(),
        table_in_range(t),
        -127 <= alpha < beta <= MAX_SCORE,
        i > 0 ==> -MAX_SCORE <= alpha,
        1 <= depth,
        best == NO_MOVE || b.playable(best),
    ensures
        expand(t, b, queue, i, alpha, beta, depth, best, visited).mov == NO_MOVE || b.playable(
            expand(t, b, queue, i, alpha, beta, depth, best, visited).mov,
        ),
        alpha < -MAX_SCORE || b.playable(best) ==> b.playable(
            expand(t, b, queue, i, alpha, beta, depth, best, visited).mov,
        ),
    decreases queue.len() - i,
{
    lemma_explore_below(b, WIDTH as nat);
    lemma_some_playable(b);
    assert(queue.len() > 0) by {
        let col = choose|col: u8| b.playable(col);
        assert(queue.contains(col));
    }
    if i < queue.len() {
        let col = queue[i as int];
        assert(b.playable(col));
        lemma_played(b, col);
        lemma_search_bounds(t, b.played(col), -beta, -alpha, depth - 1);
        let reply = search(t, b.played(col), -beta, -alpha, depth - 1);
        let score = -reply.score;
        if score >= beta {
        } else if score > alpha {
            lemma_expand_move(
                reply.table,
                b,
                queue,
                i + 1,
                score,
                beta,
                depth,
                col,
                visited + reply.visited,
            );
        } else {
            lemma_expand_move(
                reply.table,
                b,
                queue,
                i + 1,
                alpha,
                beta,
                depth,
                best,
                visited + reply.visited,
            );
        }
    }
}

/// The first column that wins at once is a column that wins at once.
pub proof fn lemma_first_winning(b: Board, from: nat)
    requires
        exists|col: u8| from <= col && b.playable(col) && b.winning(col),
    ensures
        from <= first_winning(b, from) < WIDTH,
        b.playable(first_winning(b, from)),
        b.winning(first_winning(b, from)),
        forall|col: u8| from <= col < first_winning(b, from) ==> !(b.playable(col) && b.winning(col)),
    decreases WIDTH - from,
{
    if from < WIDTH && !(b.playable(from as u8) && b.winning(from as u8)) {
        let col = choose|col: u8| from <= col && b.playable(col) && b.winning(col);
        assert(from + 1 <= col);
        lemma_first_winning(b, from + 1);
    }
}

} // verus!
