use vstd::prelude::*;
use std::ops::RangeInclusive;
use crate::cost_model::CostModel;
use crate::cost_model::UNREACHABLE;
use crate::cost_model::distance;
use crate::alignment_set::AlignmentSet;
use crate::alignment_set::is_fresh;
use crate::cursor::Cursor;
use crate::laws::lemma_anchor_is_least_and_first;
use crate::laws::lemma_score_within_bounds;
use crate::matrix::Matrix;
use crate::matrix::MatrixCell;
use crate::step_mask::StepMask;
use crate::step_mask::least_of;

verus! {

/// How a distance between two samples grows with their difference. No cost
/// is computed from it yet: the local cost is linear.
pub enum Kernel {
    Linear,
    Quadratic,
}

/// `RangeInclusive::start` returns the lower bound that the range was made with.
pub assume_specification<Idx>[ RangeInclusive::<Idx>::start ](
    range: &RangeInclusive<Idx>,
) -> (start: &Idx)
    ensures
        *start == range@.start,
;

/// `RangeInclusive::end` returns the upper bound that the range was made with.
pub assume_specification<Idx>[ RangeInclusive::<Idx>::end ](range: &RangeInclusive<Idx>) -> (end:
    &Idx)
    ensures
        *end == range@.end,
;

/// A way of aligning two sequences on a grid of the caller's choice.
pub trait AlignmentStrategy {
    /// Aligns `x` against `y`. It fails only where the grid cannot be had,
    /// with the grid's own error; the grid that comes back has one column
    /// more than `x` has samples and one row more than `y` has.
    fn alignment_set<M: Matrix>(&self, x: &[i64], y: &[i64]) -> (result: Result<
        AlignmentSet<M>,
        M::Error,
    >)
        requires
            x@.len() < usize::MAX,
            y@.len() < usize::MAX,
        ensures
            result is Ok <==> M::fits(x@.len() + 1, y@.len() + 1),
            result is Err ==> result->Err_0 == M::refusal(x@.len() + 1, y@.len() + 1),
            result is Ok ==> {
                let grid = (result->Ok_0).spec_matrix();
                &&& grid.well_formed()
                &&& grid.spec_width() == x@.len() + 1
                &&& grid.spec_height() == y@.len() + 1
            },
    ;
}

/// The cost model of an alignment: reusable for any number of alignments.
#[derive(Clone, Copy, Debug)]
pub struct Strategy {
    equal: i64,
    unequal: i64,
    threshold: i64,
    lo: i64,
    hi: i64,
}

impl View for Strategy {
    type V = CostModel;

    closed spec fn view(&self) -> CostModel {
        CostModel {
            equal: self.equal as int,
            unequal: self.unequal as int,
            threshold: self.threshold as int,
            lo: self.lo as int,
            hi: self.hi as int,
        }
    }
}

/// Whether the fill has visited the inner cell `(i, j)` once it is done with
/// `rows` rows and with `cols` cells of the next.
spec fn is_visited(i: nat, j: nat, cols: nat, rows: nat) -> bool {
    i >= 1 && j >= 1 && (j <= rows || (j == rows + 1 && i <= cols))
}

/// The grid while it is filled: column 0 is seeded below row `seeded_rows`,
/// row 0 below column `seeded_cols`, and the inner cells are visited as
/// `is_visited` says. What is seeded or visited holds the model's cell and was
/// stored to once; every other position is as the fresh grid had it.
spec fn is_partly_filled<M: Matrix>(
    model: CostModel,
    x: Seq<i64>,
    y: Seq<i64>,
    grid: M,
    seeded_rows: nat,
    seeded_cols: nat,
    cols: nat,
    rows: nat,
) -> bool {
    &&& grid.well_formed()
    &&& grid.spec_width() == x.len() + 1
    &&& grid.spec_height() == y.len() + 1
    &&& forall|i: nat, j: nat|
        i <= x.len() && j <= y.len() ==> {
            &&& (#[trigger] grid.at(i, j)).score == if is_written(
                i,
                j,
                seeded_rows,
                seeded_cols,
                cols,
                rows,
            ) {
                model.score(x, y, i, j)
            } else {
                0
            }
            &&& grid.at(i, j).mask == if is_written(i, j, seeded_rows, seeded_cols, cols, rows) {
                model.mask(x, y, i, j)
            } else {
                MatrixCell::origin().mask
            }
        }
    &&& forall|i: nat, j: nat|
        i <= x.len() && j <= y.len() ==> #[trigger] grid.stores(i, j) == if is_written(
            i,
            j,
            seeded_rows,
            seeded_cols,
            cols,
            rows,
        ) {
            1nat
        } else {
            0nat
        }
}

/// Whether the position has been seeded or visited.
spec fn is_written(
    i: nat,
    j: nat,
    seeded_rows: nat,
    seeded_cols: nat,
    cols: nat,
    rows: nat,
) -> bool {
    ||| i == 0 && 1 <= j < seeded_rows
    ||| j == 0 && 1 <= i < seeded_cols
    ||| is_visited(i, j, cols, rows)
}

impl Strategy {
    /// Every strategy's model is made of numbers that a strategy can hold.
    pub proof fn lemma_model_is_representable(self)
        ensures
            self@.representable(),
    {
    }

    pub fn new(equal: i64, unequal: i64, threshold: i64, bounds: RangeInclusive<i64>) -> (strategy:
        Strategy)
        ensures
            strategy@ == (CostModel {
                equal: equal as int,
                unequal: unequal as int,
                threshold: threshold as int,
                lo: bounds@.start as int,
                hi: bounds@.end as int,
            }),
    {
        Strategy { equal, unequal, threshold, lo: *bounds.start(), hi: *bounds.end() }
    }

    /// Dynamic time warping: both weights 1, threshold 0, scores kept in
    /// `[0, UNREACHABLE]`, which is no upper bound at all.
    pub fn dynamic_time_warping() -> (strategy: Strategy)
        ensures
            strategy@ == (CostModel {
                equal: 1,
                unequal: 1,
                threshold: 0,
                lo: 0,
                hi: UNREACHABLE as int,
            }),
    {
        Strategy { equal: 1, unequal: 1, threshold: 0, lo: 0, hi: UNREACHABLE }
    }

    /// `score` clamped into the bounds.
    pub fn total_score(&self, score: i64) -> (total: i64)
        ensures
            total == self@.clamp(score as int),
    {
        if score < self.lo {
            self.lo
        } else if score > self.hi {
            self.hi
        } else {
            score
        }
    }

    /// The cell that follows from three predecessor scores, given in the
    /// order insert, align, delete, and the two samples: its mask flags the
    /// least predecessors, its score is the step from the least of them.
    pub fn calculate_cell(&self, lhs: &i64, rhs: &i64, previous_scores: [i64; 3]) -> (cell:
        MatrixCell)
        ensures
            cell.mask == StepMask::of_scores(
                previous_scores[1] as int,
                previous_scores[2] as int,
                previous_scores[0] as int,
            ),
            cell.score == self@.step(
                least_of(
                    previous_scores[1] as int,
                    previous_scores[2] as int,
                    previous_scores[0] as int,
                ),
                *lhs as int,
                *rhs as int,
            ),
    {
        let insert: i64 = previous_scores[0];
        let align: i64 = previous_scores[1];
        let delete: i64 = previous_scores[2];
        let mut cell = MatrixCell::from_scores(align, delete, insert);
        if cell.score == UNREACHABLE {
            cell.score = self.total_score(UNREACHABLE);
            return cell;
        }
        let least: i128 = cell.score as i128;
        let difference: i128 = *lhs as i128 - *rhs as i128;
        let cost: i128 = if difference >= 0 {
            difference - self.threshold as i128
        } else {
            -difference - self.threshold as i128
        };
        let weight: i128 = if cost >= 0 {
            self.equal as i128
        } else {
            self.unequal as i128
        };
        assert(cost == distance(*lhs as int, *rhs as int) - self@.threshold);
        assert(weight * cost == self@.local_cost(*lhs as int, *rhs as int));
        let rises: bool = (weight < 0) == (cost < 0);
        proof {
            if rises {
                assert(weight * cost >= 0) by (nonlinear_arith)
                    requires
                        (weight < 0) == (cost < 0),
                ;
            } else {
                assert(weight * cost <= 0) by (nonlinear_arith)
                    requires
                        (weight < 0) != (cost < 0),
                ;
            }
        }
        cell.score = match weight.checked_mul(cost) {
            Some(weighted) => match weighted.checked_add(least) {
                Some(sum) => {
                    if sum < self.lo as i128 {
                        self.lo
                    } else if sum > self.hi as i128 {
                        self.hi
                    } else {
                        sum as i64
                    }
                },
                None => {
                    if weighted < 0 {
                        self.lo
                    } else {
                        self.hi
                    }
                },
            },
            None => {
                if rises {
                    self.hi
                } else {
                    self.lo
                }
            },
        };
        cell
    }

    /// Fills a fresh grid for `x` against `y`: seeds column 0 and row 0, then
    /// visits the inner cells row by row, reading the predecessors from a
    /// buffer of the previous row and storing every cell in the grid.
    pub fn fill<M: Matrix>(&self, x: &[i64], y: &[i64], matrix: M) -> (set: AlignmentSet<M>)
        requires
            is_fresh(x@, y@, matrix),
            x@.len() < usize::MAX,
            y@.len() < usize::MAX,
        ensures
            set.aligns(self@, x@, y@),
    {
        let width: usize = x.len() + 1;
        let height: usize = y.len() + 1;
        let mut matrix = matrix;
        let mut j: usize = 1;
        while j < height
            invariant
                1 <= j <= height,
                height == y@.len() + 1,
                is_partly_filled(self@, x@, y@, matrix, j as nat, 1, 0, 0),
            decreases height - j,
        {
            matrix.set_cell(&Cursor::new(0, j), MatrixCell::new(UNREACHABLE, StepMask::insert()));
            j = j + 1;
        }
        let mut i: usize = 1;
        while i < width
            invariant
                1 <= i <= width,
                width == x@.len() + 1,
                height == y@.len() + 1,
                is_partly_filled(self@, x@, y@, matrix, height as nat, i as nat, 0, 0),
            decreases width - i,
        {
            matrix.set_cell(&Cursor::new(i, 0), MatrixCell::new(UNREACHABLE, StepMask::delete()));
            i = i + 1;
        }
        let mut row: Vec<i64> = Vec::new();
        let mut k: usize = 0;
        while k < width
            invariant
                k <= width,
                row@.len() == k,
                forall|c: int| 0 <= c < k ==> row@[c] == UNREACHABLE,
            decreases width - k,
        {
            row.push(UNREACHABLE);
            k = k + 1;
        }
        let mut score: i64 = UNREACHABLE;
        let mut cursor = Cursor::new(1, 1);
        let mut y_idx: usize = 0;
        while y_idx < y.len()
            invariant
                y_idx <= y@.len(),
                width == x@.len() + 1,
                height == y@.len() + 1,
                is_partly_filled(self@, x@, y@, matrix, height as nat, width as nat, 0, y_idx as nat),
                row@.len() == width,
                row@[0] == UNREACHABLE,
                forall|c: int| 1 <= c < width ==> row@[c] == self@.score(x@, y@, c as nat, y_idx as nat),
                score == self@.anchor(x@, y@, x@.len(), y_idx as nat).score,
                cursor.x == self@.anchor(x@, y@, x@.len(), y_idx as nat).x,
                cursor.y == self@.anchor(x@, y@, x@.len(), y_idx as nat).y,
            decreases y@.len() - y_idx,
        {
            let seed: i64 = if y_idx == 0 {
                0
            } else {
                matrix.cell(&Cursor::new(0, y_idx)).score
            };
            let mut last_diagonal: i64 = self.total_score(seed);
            let mut x_idx: usize = 0;
            while x_idx < x.len()
                invariant
                    x_idx <= x@.len(),
                    y_idx < y@.len(),
                    width == x@.len() + 1,
                    height == y@.len() + 1,
                    is_partly_filled(
                        self@,
                        x@,
                        y@,
                        matrix,
                        height as nat,
                        width as nat,
                        x_idx as nat,
                        y_idx as nat,
                    ),
                    row@.len() == width,
                    row@[0] == UNREACHABLE,
                    forall|c: int|
                        1 <= c < width ==> row@[c] == if c <= x_idx {
                            self@.score(x@, y@, c as nat, (y_idx + 1) as nat)
                        } else {
                            self@.score(x@, y@, c as nat, y_idx as nat)
                        },
                    x_idx < x@.len() ==> last_diagonal == self@.align_score(
                        x@,
                        y@,
                        (x_idx + 1) as nat,
                        (y_idx + 1) as nat,
                    ),
                    score == self@.anchor(x@, y@, x_idx as nat, (y_idx + 1) as nat).score,
                    cursor.x == self@.anchor(x@, y@, x_idx as nat, (y_idx + 1) as nat).x,
                    cursor.y == self@.anchor(x@, y@, x_idx as nat, (y_idx + 1) as nat).y,
                decreases x@.len() - x_idx,
            {
                let previous: [i64; 3] = [row[x_idx + 1], last_diagonal, row[x_idx]];
                let cell = self.calculate_cell(&x[x_idx], &y[y_idx], previous);
                let current_cursor = Cursor::new(x_idx + 1, y_idx + 1);
                let current_score: i64 = cell.score;
                assert(current_score == self@.score(
                    x@,
                    y@,
                    (x_idx + 1) as nat,
                    (y_idx + 1) as nat,
                ));
                assert(cell.mask == self@.mask(x@, y@, (x_idx + 1) as nat, (y_idx + 1) as nat));
                if current_score < score {
                    score = current_score;
                    cursor = current_cursor;
                }
                matrix.set_cell(&current_cursor, cell);
                let old_diagonal: i64 = row[x_idx + 1];
                row.set(x_idx + 1, current_score);
                last_diagonal = old_diagonal;
                x_idx = x_idx + 1;
            }
            y_idx = y_idx + 1;
        }
        if x.len() == 0 || y.len() == 0 {
            score = if self.hi < 0 && (x.len() > 0 || y.len() > 0) {
                self.hi
            } else {
                0
            };
            cursor = Cursor::new(0, 0);
        }
        proof {
            lemma_anchor_is_least_and_first(self@, x@, y@, x@.len(), y@.len());
            assert forall|i: nat, j: nat|
                1 <= i <= x@.len() && 1 <= j <= y@.len() && self@.bounds_ordered() implies self@.lo
                <= (#[trigger] matrix.at(i, j)).score <= self@.hi by {
                lemma_score_within_bounds(self@, x@, y@, i, j);
            }
        }
        AlignmentSet::new(matrix, score, cursor)
    }
}

impl AlignmentStrategy for Strategy {
    /// The alignment under this strategy's cost model: the grid that `fill`
    /// leaves, with its best score and anchor.
    fn alignment_set<M: Matrix>(&self, x: &[i64], y: &[i64]) -> (result: Result<
        AlignmentSet<M>,
        M::Error,
    >)
        ensures
            result is Ok ==> (result->Ok_0).aligns(self@, x@, y@),
    {
        let width: usize = x.len() + 1;
        let height: usize = y.len() + 1;
        match M::new(width, height) {
            Ok(matrix) => Ok(self.fill(x, y, matrix)),
            Err(error) => Err(error),
        }
    }
}

} // verus!
