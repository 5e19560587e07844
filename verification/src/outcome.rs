//! What a solved position is worth to the player to move.

use vstd::prelude::*;
use vstd::std_specs::convert::FromSpecImpl;

verus! {

/// The result of a game that both players play as well as can be, for the
/// player to move. The number is the size of the score: the larger, the sooner
/// the game ends.
#[derive(Debug, PartialEq, Eq, Clone, Copy, Structural)]
pub enum Outcome {
    Draw,
    Win(u8),
    Loose(u8),
}

/// The outcome that a score stands for: its sign says who wins, its size how
/// soon.
pub open spec fn outcome_of(score: int) -> Outcome {
    if score > 0 {
        Outcome::Win(score as u8)
    } else if score < 0 {
        Outcome::Loose((-score) as u8)
    } else {
        Outcome::Draw
    }
}

/// The sign of a score: 1, 0 or -1.
pub open spec fn sign(score: int) -> int {
    if score > 0 {
        1
    } else if score < 0 {
        -1
    } else {
        0
    }
}

impl Outcome {
    /// 1 for a win, 0 for a draw, -1 for a loss.
    pub open spec fn sign(self) -> int {
        match self {
            Outcome::Draw => 0,
            Outcome::Win(_) => 1,
            Outcome::Loose(_) => -1,
        }
    }

    /// The size of the score that the outcome stands for: nothing for a draw.
    pub open spec fn size(self) -> int {
        match self {
            Outcome::Draw => 0,
            Outcome::Win(n) => n as int,
            Outcome::Loose(n) => n as int,
        }
    }

    /// Whether this outcome is the one that was expected: the same outcome
    /// where the position was solved for its exact score, and an outcome with
    /// the same winner where it was solved for the winner only.
    pub fn meets(&self, expected: &Outcome, strongly: bool) -> (met: bool)
        ensures
            met == if strongly {
                *self == *expected
            } else {
                self.sign() == expected.sign()
            },
    {
        if strongly {
            *self == *expected
        } else {
            self.same_sign(expected)
        }
    }

    /// Whether two outcomes name the same winner.
    pub fn same_sign(&self, other: &Outcome) -> (same: bool)
        ensures
            same == (self.sign() == other.sign()),
    {
        match (self, other) {
            (Outcome::Draw, Outcome::Draw) => true,
            (Outcome::Win(_), Outcome::Win(_)) => true,
            (Outcome::Loose(_), Outcome::Loose(_)) => true,
            _ => false,
        }
    }
}

impl From<i8> for Outcome {
    fn from(u: i8) -> (o: Outcome)
        ensures
            o == outcome_of(u as int),
    {
        if u > 0 {
            return Outcome::Win(u as u8);
        }
        if u < 0 {
            return Outcome::Loose((-(u as i16)) as u8);
        }
        return Outcome::Draw;
    }
}

impl FromSpecImpl<i8> for Outcome {
    open spec fn obeys_from_spec() -> bool {
        true
    }

    open spec fn from_spec(u: i8) -> Outcome {
        outcome_of(u as int)
    }
}

} // verus!
