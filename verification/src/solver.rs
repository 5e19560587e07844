//! The solver: a negamax search with alpha-beta pruning, move ordering and a
//! transposition table.

use std::collections::HashMap;
use vstd::prelude::*;
use crate::board::{
    Board, CELLS, HEIGHT, WIDTH, lemma_key_bound, lemma_played, lemma_playable_below,
    lemma_some_playable, lemma_wf_bounds, playable_below,
};
use crate::outcome::{Outcome, outcome_of, sign};
use crate::position::Position;
use crate::search::{
    Found, MAX_SCORE, NO_MOVE, Table, center_bonus, depth_budget, eval_max, expand, explore_below,
    explore_order, first_winning, insert_ranked, lemma_explore_below, lemma_insert_ranked,
    lemma_first_winning, lemma_search_bounds, lemma_search_move, lemma_tree_size, outranks, search, strong_search,
    table_in_range, tree_size, weak_search,
};
use crate::text::{decimal, push_decimal};
use crate::value::{
    lemma_fresh_search, lemma_reply_at_most_value, lemma_value_range, optimal, reply_value, value,
};
use vstd::string::StringExecFns;

verus! {

broadcast use vstd::std_specs::hash::group_hash_axioms;

/// A search and what it has learnt so far.
pub struct Solver {
    positions_checked: u128,
    transposition_table: HashMap<u64, (u8, i8)>,
}

/// The column to play, the number of positions visited, and the outcome.
pub type SolverResult = (u8, u128, Outcome);

/// A column with what it is ranked by: the threats it makes and its nearness
/// to the centre.
pub struct MoveScore(pub u8, pub (u64, u8));

/// The columns of a queue of scored moves.
pub open spec fn queue_columns(queue: Seq<MoveScore>) -> Seq<u8> {
    queue.map_values(|m: MoveScore| m.0)
}

/// `m` holds the rank of its column on the board `b`.
pub open spec fn scored(b: Board, m: MoveScore) -> bool {
    m.1.0 == b.threats(m.0) && m.1.1 == center_bonus(m.0)
}

/// The number of moves that the player who wins has yet to make, for an
/// outcome of size `size` on the board `b`.
pub open spec fn moves_to_end(b: Board, size: u8) -> int {
    (CELLS - b.moves) / 2 - size + 1
}

/// An outcome in words.
pub open spec fn explanation(b: Board, outcome: Outcome) -> Seq<char> {
    match outcome {
        Outcome::Draw => "draw"@,
        Outcome::Win(x) => "win in "@ + decimal(moves_to_end(b, x)) + " moves"@,
        Outcome::Loose(x) => "loose in "@ + decimal(moves_to_end(b, x)) + " moves"@,
    }
}

/// What a solver hands out for what its search found.
pub open spec fn result_of(found: Found) -> SolverResult {
    (found.mov, found.visited as u128, outcome_of(found.score))
}

/// Puts `item` into `queue` before the first move that it outranks.
fn push_ranked(queue: &mut Vec<MoveScore>, item: MoveScore, Ghost(b): Ghost<Board>)
    requires
        scored(b, item),
        forall|k: int| 0 <= k < old(queue)@.len() ==> scored(b, #[trigger] old(queue)@[k]),
    ensures
        queue_columns(final(queue)@) == insert_ranked(b, queue_columns(old(queue)@), item.0),
        forall|k: int| 0 <= k < final(queue)@.len() ==> scored(b, #[trigger] final(queue)@[k]),
{
    let ghost before = queue@;
    let mut at: usize = 0;
    while at < queue.len()
        invariant
            at <= queue.len(),
            queue@ == before,
            scored(b, item),
            forall|k: int| 0 <= k < queue@.len() ==> scored(b, #[trigger] queue@[k]),
            forall|k: int| 0 <= k < at ==> !outranks(b, item.0, #[trigger] queue_columns(before)[k]),
        ensures
            at < queue.len() ==> outranks(b, item.0, queue_columns(before)[at as int]),
        decreases queue.len() - at,
    {
        let other = &queue[at];
        assert(scored(b, queue@[at as int]));
        let better = item.1.0 > other.1.0 || (item.1.0 == other.1.0 && (item.1.1 > other.1.1 || (
        item.1.1 == other.1.1 && item.0 > other.0)));
        if better {
            assert(outranks(b, item.0, queue_columns(before)[at as int]));
            break ;
        }
        at += 1;
    }
    proof {
        let found = lemma_insert_ranked(b, queue_columns(before), item.0);
        if found < at {
            assert(!outranks(b, item.0, queue_columns(before)[found]));
        }
        assert(found == at);
        assert(queue_columns(before.insert(at as int, item)) =~= queue_columns(before).insert(
            at as int,
            item.0,
        ));
    }
    queue.insert(at, item);
}

impl Solver {
    /// What solving the position `b` for its exact score returns.
    pub open spec fn solved(b: Board) -> SolverResult {
        result_of(strong_search(b))
    }

    /// What solving the position `b` for the winner only returns: what the
    /// search found, with the first column that can be played where every move
    /// loses and the search has kept none.
    pub open spec fn solved_weakly(b: Board) -> SolverResult {
        let found = result_of(weak_search(b));
        if found.0 == NO_MOVE && !b.terminal() {
            (playable_below(b, WIDTH as nat)[0], found.1, found.2)
        } else {
            found
        }
    }

    /// The table of the search.
    pub closed spec fn table(&self) -> Table {
        self.transposition_table@
    }

    /// The number of positions visited so far.
    pub closed spec fn visited(&self) -> nat {
        self.positions_checked as nat
    }

    /// The table holds scores of the game only.
    pub open spec fn wf(&self) -> bool {
        table_in_range(self.table())
    }

    /// The state after a search that found `found`, begun with `before`
    /// positions visited, and the pair that it returned.
    pub open spec fn agrees(&self, pair: (u8, i8), found: Found, before: nat) -> bool {
        &&& pair.0 == found.mov
        &&& pair.1 == found.score
        &&& self.table() == found.table
        &&& self.visited() == before + found.visited
    }

    /// Says in words what `outcome` means for the player to move in `position`.
    pub fn explain_outcome(position: Position, outcome: Outcome) -> (text: String)
        ensures
            text@ == explanation(position@, outcome),
    {
        let count = position.move_count();
        match outcome {
            Outcome::Draw => String::from_str("draw"),
            Outcome::Win(x) => {
                let mut text = String::from_str("win in ");
                push_decimal(&mut text, Solver::end_in_x_moves(count, x));
                text.append(" moves");
                text
            },
            Outcome::Loose(x) => {
                let mut text = String::from_str("loose in ");
                push_decimal(&mut text, Solver::end_in_x_moves(count, x));
                text.append(" moves");
                text
            },
        }
    }

    /// The number of moves that the winner has yet to make, for an outcome of
    /// size `x` after `count` stones.
    fn end_in_x_moves(count: u8, x: u8) -> (n: i32)
        requires
            count <= CELLS,
        ensures
            n == (CELLS - count) / 2 - x + 1,
    {
        (Position::max_moves() as i32 - count as i32) / 2 - x as i32 + 1
    }

    /// A solver that has seen nothing yet.
    pub fn new() -> (solver: Solver)
        ensures
            solver.wf(),
            solver.table() == Table::empty(),
            solver.visited() == 0,
    {
        Solver { positions_checked: 0, transposition_table: HashMap::new() }
    }

    /// The number of positions visited so far.
    pub fn positions_checked(&self) -> (n: u128)
        ensures
            n == self.visited(),
    {
        self.positions_checked
    }

    /// Solves `position` for the winner only.
    pub fn weakly_solve_(&mut self, position: Position) -> (found: (u8, i8))
        requires
            old(self).wf(),
            old(self).visited() + tree_size(CELLS as nat) <= u128::MAX,
        ensures
            final(self).wf(),
            final(self).agrees(
                found,
                search(old(self).table(), position@, -1, 1, depth_budget(position@)),
                old(self).visited(),
            ),
    {
        let count = position.move_count();
        proof {
            lemma_tree_size((CELLS - position@.moves) as nat);
        }
        self.negamax(position, -1, 1, (Position::max_moves() - count) as i8)
    }

    /// Solves `position` for its exact score.
    pub fn strongly_solve(&mut self, position: Position) -> (found: (u8, i8))
        requires
            old(self).wf(),
            old(self).visited() + tree_size(CELLS as nat) <= u128::MAX,
        ensures
            final(self).wf(),
            final(self).agrees(
                found,
                search(old(self).table(), position@, -127, 127, depth_budget(position@)),
                old(self).visited(),
            ),
    {
        let count = position.move_count();
        proof {
            lemma_tree_size((CELLS - position@.moves) as nat);
        }
        self.negamax(position, i8::MIN + 1, i8::MAX - 1, (Position::max_moves() - count) as i8)
    }

    /// Searches `pos` in the window from `alpha` to `beta`, with `depth` plies
    /// to go before it guesses a draw.
    #[verifier::loop_isolation(false)]
    #[verifier::rlimit(40)]
    pub fn negamax(&mut self, pos: Position, alpha: i8, beta: i8, depth: i8) -> (found: (u8, i8))
        requires
            old(self).wf(),
            -127 <= alpha < beta <= 127,
            0 <= depth,
            old(self).visited() + tree_size((CELLS - pos@.moves) as nat) <= u128::MAX,
        ensures
            final(self).wf(),
            final(self).agrees(
                found,
                search(old(self).table(), pos@, alpha as int, beta as int, depth as int),
                old(self).visited(),
            ),
            final(self).visited() > old(self).visited(),
            -MAX_SCORE <= found.1 <= MAX_SCORE,
        decreases CELLS - pos@.moves,
    {
        let ghost b = pos@;
        let ghost table = self.table();
        let ghost seen = self.visited();
        let ghost goal = search(table, b, alpha as int, beta as int, depth as int);
        let ghost below = tree_size((CELLS - b.moves - 1) as nat);
        let count = pos.move_count();
        proof {
            lemma_search_bounds(table, b, alpha as int, beta as int, depth as int);
            lemma_tree_size((CELLS - b.moves) as nat);
            lemma_key_bound(b);
        }
        let mut alpha = alpha;
        let mut beta = beta;
        self.positions_checked += 1;
        // A full board is a draw: nobody has won on the way to it.
        if pos.is_terminal() {
            return (NO_MOVE, 0);
        }
        // The most that the player to move can score: a win with the next stone.
        let mut position_evaluation: i8 = (WIDTH as i8 * HEIGHT as i8 + 1 - count as i8) / 2;
        assert(position_evaluation == eval_max(b));

        let bonus: [u8; 7] = [0, 1, 2, 3, 2, 1, 0];
        let mut estimate_scores: Vec<MoveScore> = Vec::new();
        let mut mov: u8 = 0;
        while mov < WIDTH
            invariant
                mov <= WIDTH,
                pos@ == b,
                bonus@ == seq![0u8, 1u8, 2u8, 3u8, 2u8, 1u8, 0u8],
                forall|c: u8| c < mov ==> !(b.playable(c) && b.winning(c)),
                first_winning(b, 0) == first_winning(b, mov as nat),
                queue_columns(estimate_scores@) == explore_below(b, mov as nat),
                forall|k: int|
                    0 <= k < estimate_scores@.len() ==> scored(b, #[trigger] estimate_scores@[k]),
            decreases WIDTH - mov,
        {
            if pos.can_play(mov) {
                if pos.wins(mov) {
                    return (mov, position_evaluation);
                }
                let item = MoveScore(mov, (pos.move_score(mov), bonus[mov as usize]));
                push_ranked(&mut estimate_scores, item, Ghost(b));
            }
            mov += 1;
        }
        assert(!b.can_win());
        proof {
            lemma_explore_below(b, WIDTH as nat);
            lemma_some_playable(b);
            let col = choose|col: u8| b.playable(col);
            assert(explore_order(b).contains(col));
        }

        // No column yet: it stays so where the table knows none and no move
        // raises alpha.
        let mut best_mov = NO_MOVE;

        let key = pos.key();
        match self.transposition_table.get(&key) {
            Some(entry) => {
                position_evaluation = entry.1;
                best_mov = entry.0;
            },
            None => {},
        }

        if beta > position_evaluation {
            // No score can exceed the bound: where that empties the window,
            // the search ends here.
            beta = position_evaluation;
            if alpha >= beta {
                return (best_mov, beta);
            }
        }
        // A way to go faster in the early game: the position is taken for a
        // draw where the search has gone as deep as it may.
        if depth == 0 {
            if estimate_scores.len() > 0 {
                return (estimate_scores[0].0, 0);
            }
        }
        // The moves that make most threats come first, and among them those
        // nearest the centre: the sooner a good move is found, the more is pruned.
        let mut i: usize = 0;
        while i < estimate_scores.len()
            invariant
                i <= estimate_scores@.len(),
                pos@ == b,
                b.wf(),
                b.moves < CELLS,
                key == b.key(),
                queue_columns(estimate_scores@) == explore_order(b),
                estimate_scores@.len() <= 7,
                forall|k: int|
                    0 <= k < explore_order(b).len() ==> b.playable(#[trigger] explore_order(b)[k]),
                self.wf(),
                -127 <= alpha < beta <= MAX_SCORE,
                i > 0 ==> -MAX_SCORE <= alpha,
                1 <= depth,
                below == tree_size((CELLS - b.moves - 1) as nat),
                tree_size((CELLS - b.moves) as nat) == 1 + 7 * below,
                seen + tree_size((CELLS - b.moves) as nat) <= u128::MAX,
                seen + 1 <= self.visited() <= seen + 1 + i * below,
                goal == expand(
                    self.table(),
                    b,
                    explore_order(b),
                    i as nat,
                    alpha as int,
                    beta as int,
                    depth as int,
                    best_mov,
                    (self.visited() - seen) as nat,
                ),
            decreases estimate_scores@.len() - i,
        {
            let mov = estimate_scores[i].0;
            assert(mov == explore_order(b)[i as int]);
            proof {
                lemma_played(b, mov);
                lemma_search_bounds(
                    self.table(),
                    b.played(mov),
                    -(beta as int),
                    -(alpha as int),
                    depth - 1,
                );
                assert((i + 1) * below == i * below + below && i * below <= 6 * below)
                    by (nonlinear_arith)
                    requires
                        i <= 6,
                        0 <= below,
                ;
            }
            // What the opponent wins is lost here: the window of the reply is
            // the window turned round.
            let reply = self.negamax(pos.next(mov), -beta, -alpha, depth - 1);
            let score = -reply.1;

            // A score at the upper end of the window or above it ends the search.
            if score >= beta {
                return (mov, score);
            }
            if score > alpha {
                alpha = score;
                best_mov = mov;
            }
            i += 1;
        }

        // No move scored above alpha: the position cannot exceed it.
        self.transposition_table.insert(key, (best_mov, alpha));
        return (best_mov, alpha);
    }

    /// Solves `position` for its exact score: the column to play, the number
    /// of positions visited, and the outcome. The search goes on to the end of
    /// every game, so that the outcome is the value of the position, and the
    /// column is a best move. On a full board there is no column to play. A
    /// column that wins at once is played. On a board with few stones the
    /// search is long.
    pub fn solve(position: Position) -> (result: SolverResult)
        ensures
            result == Solver::solved(position@),
            result.1 >= 1,
            result.2 == outcome_of(value(position@)),
            result.2.size() <= eval_max(position@),
            position@.terminal() ==> result.0 == NO_MOVE && result.2 == Outcome::Draw,
            !position@.terminal() ==> position@.playable(result.0) && optimal(position@, result.0),
            position@.can_win() && !position@.terminal() ==> result.0 == first_winning(position@, 0)
                && position@.winning(result.0) && result.2 == outcome_of(eval_max(position@)),
    {
        let mut solver = Solver::new();
        proof {
            lemma_tree_size(0);
            use_type_invariant(&position);
            lemma_wf_bounds(position@);
            lemma_search_bounds(Table::empty(), position@, -127, 127, depth_budget(position@));
            lemma_fresh_search(position@, -127, 127, depth_budget(position@));
            lemma_value_range(position@);
            if position@.can_win() {
                lemma_first_winning(position@, 0);
            }
        }
        match solver.strongly_solve(position) {
            (mov, outcome) => { (mov, solver.positions_checked, Outcome::from(outcome)) },
        }
    }

    /// Solves `position` for the winner only: the column to play, the number
    /// of positions visited, and an outcome of which the sign alone counts.
    /// The search goes on to the end of every game, so that the outcome has
    /// the sign of the value of the position, and the column leads to a
    /// position of that sign. On a full board there is no column to play. A
    /// column that wins at once is played.
    pub fn weakly_solve(position: Position) -> (result: SolverResult)
        ensures
            result == Solver::solved_weakly(position@),
            result.1 >= 1,
            result.2.sign() == sign(value(position@)),
            position@.terminal() ==> result.0 == NO_MOVE && result.2 == Outcome::Draw,
            !position@.terminal() ==> position@.playable(result.0),
            !position@.terminal() && !position@.can_win() ==> sign(
                reply_value(position@, result.0),
            ) == sign(value(position@)),
            position@.can_win() && !position@.terminal() ==> result.0 == first_winning(position@, 0)
                && position@.winning(result.0) && result.2 == outcome_of(eval_max(position@)),
    {
        let mut solver = Solver::new();
        proof {
            lemma_tree_size(0);
            use_type_invariant(&position);
            lemma_wf_bounds(position@);
            lemma_search_bounds(Table::empty(), position@, -1, 1, depth_budget(position@));
            lemma_search_move(Table::empty(), position@, -1, 1, depth_budget(position@));
            lemma_fresh_search(position@, -1, 1, depth_budget(position@));
            if position@.can_win() {
                lemma_first_winning(position@, 0);
            }
        }
        match solver.weakly_solve_(position) {
            (mov, outcome) => {
                let mut column = mov;
                if column == NO_MOVE && !position.is_terminal() {
                    // Every move loses: the first column that has room is as
                    // good as any.
                    let columns = position.possible_moves();
                    proof {
                        lemma_some_playable(position@);
                        lemma_playable_below(position@, WIDTH as nat);
                        let some = choose|col: u8| position@.playable(col);
                        assert(columns@.contains(some));
                        assert(columns@.contains(columns@[0]));
                    }
                    column = columns[0];
                }
                proof {
                    if !position@.terminal() && !position@.can_win() {
                        lemma_reply_at_most_value(position@, column);
                    }
                }
                (column, solver.positions_checked, Outcome::from(outcome))
            },
        }
    }

    /// Reads a position and solves it for its exact score. Text that is no
    /// position is refused with the words of the reader.
    pub fn solve_str(position: String) -> (result: Result<SolverResult, &'static str>)
        ensures
            result == match Position::parsed(position@) {
                Ok(p) => Ok(Solver::solved(p@)),
                Err(err) => Err(err),
            },
            Position::parsed(position@) matches Ok(p) ==> (result matches Ok(r) && r.2 == outcome_of(
                value(p@),
            ) && (p@.terminal() || optimal(p@, r.0))),
    {
        match Position::try_from(position) {
            Result::Ok(position) => Ok(Solver::solve(position)),
            Result::Err(err) => Err(err),
        }
    }

    /// Reads a position and solves it for the winner only. Text that is no
    /// position is refused with the words of the reader.
    pub fn weakly_solve_str(position: String) -> (result: Result<SolverResult, &'static str>)
        ensures
            result == match Position::parsed(position@) {
                Ok(p) => Ok(Solver::solved_weakly(p@)),
                Err(err) => Err(err),
            },
            Position::parsed(position@) matches Ok(p) ==> (result matches Ok(r) && r.2.sign() == sign(
                value(p@),
            ) && (p@.terminal() || p@.playable(r.0))),
    {
        match Position::try_from(position) {
            Result::Ok(position) => Ok(Solver::weakly_solve(position)),
            Result::Err(err) => Err(err),
        }
    }
}

/// The two ways of solving a position name the same winner, and solving it for
/// its exact score gives its value.
pub proof fn lemma_strong_and_weak_agree(b: Board)
    requires
        b.wf(),
    ensures
        Solver::solved(b).2.sign() == Solver::solved_weakly(b).2.sign(),
        Solver::solved(b).2 == outcome_of(value(b)),
{
    lemma_wf_bounds(b);
    lemma_fresh_search(b, -127, 127, depth_budget(b));
    lemma_fresh_search(b, -1, 1, depth_budget(b));
}

/// What solving a position returns depends on the position alone: whenever it
/// is solved again, by a solver that has seen nothing yet, the column, the
/// number of positions visited and the outcome are the same.
pub proof fn lemma_solved_again(p: Position, q: Position, first: SolverResult, second: SolverResult)
    requires
        p@ == q@,
        first == Solver::solved(p@) || first == Solver::solved_weakly(p@),
        first == Solver::solved(p@) ==> second == Solver::solved(q@),
        first != Solver::solved(p@) ==> second == Solver::solved_weakly(q@),
    ensures
        first == second,
{
}

} // verus!
