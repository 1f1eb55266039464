use vstd::prelude::*;
use crate::step_mask::StepMask;
use crate::step_mask::least_of;

verus! {

/// The score that stands for "no alignment reaches this cell". It is above
/// every other score, and adding a cost to it leaves it as it is.
pub const UNREACHABLE: i64 = i64::MAX;

/// The mathematical content of a strategy: two weights, a threshold and the
/// inclusive interval `[lo, hi]` into which every cumulative score is clamped.
pub struct CostModel {
    pub equal: int,
    pub unequal: int,
    pub threshold: int,
    pub lo: int,
    pub hi: int,
}

/// The best cell met so far while a grid is filled.
pub struct Anchor {
    pub score: int,
    pub x: nat,
    pub y: nat,
}

/// Whether `(a, b)` comes before `(i, j)` where a grid is walked row by row,
/// each row from left to right.
pub open spec fn comes_before(a: nat, b: nat, i: nat, j: nat) -> bool {
    b < j || (b == j && a < i)
}

/// The distance between two samples.
pub open spec fn distance(a: int, b: int) -> int {
    if a >= b {
        a - b
    } else {
        b - a
    }
}

impl CostModel {
    /// The bounds form an interval that holds at least one score.
    pub open spec fn bounds_ordered(self) -> bool {
        self.lo <= self.hi
    }

    /// Weights, threshold and bounds are numbers that a strategy can hold.
    pub open spec fn representable(self) -> bool {
        &&& i64::MIN <= self.equal <= i64::MAX
        &&& i64::MIN <= self.unequal <= i64::MAX
        &&& i64::MIN <= self.threshold <= i64::MAX
        &&& i64::MIN <= self.lo <= i64::MAX
        &&& i64::MIN <= self.hi <= i64::MAX
    }

    /// `score` brought into `[lo, hi]`: the lower bound is tested first.
    pub open spec fn clamp(self, score: int) -> int {
        if score < self.lo {
            self.lo
        } else if score > self.hi {
            self.hi
        } else {
            score
        }
    }

    /// What a pair of samples adds to a cumulative score: the distance less
    /// the threshold, weighted by `equal` where that is not negative and by
    /// `unequal` where it is.
    pub open spec fn local_cost(self, a: int, b: int) -> int {
        let cost = distance(a, b) - self.threshold;
        if cost >= 0 {
            self.equal * cost
        } else {
            self.unequal * cost
        }
    }

    /// The score of a cell whose least predecessor is `least`, for the samples
    /// `a` and `b`.
    pub open spec fn step(self, least: int, a: int, b: int) -> int {
        if least == UNREACHABLE {
            self.clamp(UNREACHABLE as int)
        } else {
            self.clamp(least + self.local_cost(a, b))
        }
    }

    /// The score that the filled grid holds at `(i, j)`. The origin holds 0,
    /// every other cell of row 0 and of column 0 holds `UNREACHABLE`, and a
    /// cell inside holds the step from the least of its three predecessors.
    pub open spec fn score(self, x: Seq<i64>, y: Seq<i64>, i: nat, j: nat) -> int
        decreases i + j,
    {
        if i == 0 && j == 0 {
            0
        } else if i == 0 || j == 0 {
            UNREACHABLE as int
        } else {
            self.step(
                least_of(
                    self.align_score(x, y, i, j),
                    self.score(x, y, (i - 1) as nat, j),
                    self.score(x, y, i, (j - 1) as nat),
                ),
                x[i - 1] as int,
                y[j - 1] as int,
            )
        }
    }

    /// The diagonal predecessor of the inner cell `(i, j)` as the fill reads
    /// it: a cell of column 0 is read clamped, any other as the grid holds it.
    pub open spec fn align_score(self, x: Seq<i64>, y: Seq<i64>, i: nat, j: nat) -> int
        recommends
            i >= 1,
            j >= 1,
        decreases i + j, 0nat,
        when i >= 1 && j >= 1
    {
        if i == 1 {
            self.clamp(self.score(x, y, 0, (j - 1) as nat))
        } else {
            self.score(x, y, (i - 1) as nat, (j - 1) as nat)
        }
    }

    /// The moves that the filled grid records at `(i, j)`.
    pub open spec fn mask(self, x: Seq<i64>, y: Seq<i64>, i: nat, j: nat) -> StepMask {
        if i == 0 && j == 0 {
            StepMask { align: false, insert: false, delete: false }
        } else if i == 0 {
            StepMask { align: false, insert: true, delete: false }
        } else if j == 0 {
            StepMask { align: false, insert: false, delete: true }
        } else {
            StepMask::of_scores(
                self.align_score(x, y, i, j),
                self.score(x, y, (i - 1) as nat, j),
                self.score(x, y, i, (j - 1) as nat),
            )
        }
    }

    /// The anchor after the fill has visited the rows below `j` and the
    /// cells `1..=i` of row `j`: it starts at `(1, 1)` with `UNREACHABLE`, and
    /// a cell takes it over only with a score strictly below the anchor's.
    pub open spec fn anchor(self, x: Seq<i64>, y: Seq<i64>, i: nat, j: nat) -> Anchor
        decreases j, i,
    {
        if j == 0 {
            Anchor { score: UNREACHABLE as int, x: 1, y: 1 }
        } else if i == 0 {
            self.anchor(x, y, x.len(), (j - 1) as nat)
        } else {
            let before = self.anchor(x, y, (i - 1) as nat, j);
            let score = self.score(x, y, i, j);
            if score < before.score {
                Anchor { score, x: i, y: j }
            } else {
                before
            }
        }
    }

    /// The anchor of a whole alignment. Where one sequence is empty the grid
    /// has no inner cell, and the anchor is the origin: with its own score 0,
    /// or with the upper bound where that is below 0 and the grid has a cell
    /// beside the origin, which reads as that bound.
    pub open spec fn best(self, x: Seq<i64>, y: Seq<i64>) -> Anchor {
        if x.len() == 0 || y.len() == 0 {
            Anchor {
                score: if self.hi < 0 && x.len() + y.len() > 0 {
                    self.hi
                } else {
                    0
                },
                x: 0,
                y: 0,
            }
        } else {
            self.anchor(x, y, x.len(), y.len())
        }
    }
}

} // verus!
