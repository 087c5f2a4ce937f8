//! Search scores: finite heuristic values together with the two mate
//! infinities of the negamax convention.
//!
//! All heuristic quantities in this crate are integers in twentieths of a
//! pawn, so every piece value and every square bonus is exact. Mate is an
//! unconditional signed infinity with no distance-to-mate information. A
//! `Score` is modeled in specifications as a mathematical integer through
//! [`Score::as_int`]: the infinities map to `-INF_BOUND` and `INF_BOUND`,
//! and well-formed finite scores lie strictly between them.

use vstd::prelude::*;

verus! {

/// Magnitude that stands for infinity; every finite score is strictly
/// smaller in absolute value.
pub const INF_BOUND: i64 = 1_000_000_000;

#[derive(Clone, Copy, PartialEq, Eq, Structural, Debug)]
pub enum Score {
    NegInf,
    Finite(i64),
    PosInf,
}

impl Score {
    /// The mathematical value of this score, with the infinities mapped to
    /// the sentinels `-INF_BOUND` and `INF_BOUND`.
    pub open spec fn as_int(self) -> int {
        match self {
            Score::NegInf => -(INF_BOUND as int),
            Score::Finite(v) => v as int,
            Score::PosInf => INF_BOUND as int,
        }
    }

    /// A finite score must lie strictly between the two infinities.
    pub open spec fn valid(self) -> bool {
        match self {
            Score::Finite(v) => -INF_BOUND < v < INF_BOUND,
            _ => true,
        }
    }

    /// Negation: finite scores flip sign, the infinities swap.
    pub fn neg(self) -> (r: Score)
        requires
            self.valid(),
        ensures
            r.valid(),
            r.as_int() == -self.as_int(),
    {
        match self {
            Score::NegInf => Score::PosInf,
            Score::Finite(v) => Score::Finite(-v),
            Score::PosInf => Score::NegInf,
        }
    }

    pub fn gt(self, other: Score) -> (r: bool)
        requires
            self.valid(),
            other.valid(),
        ensures
            r == (self.as_int() > other.as_int()),
    {
        match (self, other) {
            (Score::PosInf, Score::PosInf) => false,
            (Score::PosInf, _) => true,
            (_, Score::PosInf) => false,
            (Score::NegInf, _) => false,
            (_, Score::NegInf) => true,
            (Score::Finite(a), Score::Finite(b)) => a > b,
        }
    }

    pub fn ge(self, other: Score) -> (r: bool)
        requires
            self.valid(),
            other.valid(),
        ensures
            r == (self.as_int() >= other.as_int()),
    {
        match (self, other) {
            (Score::PosInf, _) => true,
            (_, Score::PosInf) => false,
            (_, Score::NegInf) => true,
            (Score::NegInf, _) => false,
            (Score::Finite(a), Score::Finite(b)) => a >= b,
        }
    }

    /// The larger of the two scores.
    pub fn max_with(self, other: Score) -> (r: Score)
        requires
            self.valid(),
            other.valid(),
        ensures
            r.valid(),
            r.as_int() == if self.as_int() >= other.as_int() {
                self.as_int()
            } else {
                other.as_int()
            },
    {
        if self.ge(other) {
            self
        } else {
            other
        }
    }
}

/// Soundness of a score reported by an alpha-beta search over the window
/// `(alpha, beta)` with respect to the exact game value `v`: inside the
/// window the report is exact; a report at or below `alpha` is an upper
/// bound on `v`; a report at or beyond `beta` is a lower bound on `v`.
pub open spec fn window_sound(r: int, v: int, alpha: int, beta: int) -> bool {
    &&& (v <= r || r >= beta)
    &&& (v >= r || r <= alpha)
}

} // verus!
