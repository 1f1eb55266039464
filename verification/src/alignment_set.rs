use vstd::prelude::*;
use crate::cost_model::CostModel;
use crate::cost_model::UNREACHABLE;
use crate::cost_model::comes_before;
use crate::matrix::MatrixCell;
use crate::step_mask::StepMask;
use crate::cursor::Cursor;
use crate::matrix::Matrix;

verus! {

/// What an alignment hands to a traceback: the filled grid, the best score
/// and the position where it stands.
pub struct AlignmentSet<M: Matrix> {
    matrix: M,
    score: i64,
    cursor: Cursor,
}

impl<M: Matrix> AlignmentSet<M> {
    pub closed spec fn spec_matrix(&self) -> M {
        self.matrix
    }

    pub closed spec fn spec_score(&self) -> i64 {
        self.score
    }

    pub closed spec fn spec_cursor(&self) -> Cursor {
        self.cursor
    }

    pub fn new(matrix: M, score: i64, cursor: Cursor) -> (set: Self)
        ensures
            set.spec_matrix() == matrix,
            set.spec_score() == score,
            set.spec_cursor() == cursor,
    {
        AlignmentSet { matrix, score, cursor }
    }

    pub fn matrix(&self) -> (matrix: &M)
        ensures
            *matrix == self.spec_matrix(),
    {
        &self.matrix
    }

    pub fn score(&self) -> (score: i64)
        ensures
            score == self.spec_score(),
    {
        self.score
    }

    pub fn cursor(&self) -> (cursor: Cursor)
        ensures
            cursor == self.spec_cursor(),
    {
        self.cursor
    }
}

/// `grid` is the grid of `x` against `y` as `model` fills it: one column more
/// than `x` has samples, one row more than `y` has, each position with the
/// score and the moves of the model, and each but the origin stored to once.
pub open spec fn is_filled<M: Matrix>(model: CostModel, x: Seq<i64>, y: Seq<i64>, grid: M) -> bool {
    &&& grid.well_formed()
    &&& grid.spec_width() == x.len() + 1
    &&& grid.spec_height() == y.len() + 1
    &&& forall|i: nat, j: nat|
        i <= x.len() && j <= y.len() ==> {
            &&& (#[trigger] grid.at(i, j)).score == model.score(x, y, i, j)
            &&& grid.at(i, j).mask == model.mask(x, y, i, j)
        }
    &&& forall|i: nat, j: nat|
        i <= x.len() && j <= y.len() ==> #[trigger] grid.stores(i, j) == if i == 0 && j == 0 {
            0nat
        } else {
            1nat
        }
}

/// `grid` is as `Matrix::new` leaves it for `x` against `y`.
pub open spec fn is_fresh<M: Matrix>(x: Seq<i64>, y: Seq<i64>, grid: M) -> bool {
    &&& grid.well_formed()
    &&& grid.spec_width() == x.len() + 1
    &&& grid.spec_height() == y.len() + 1
    &&& forall|i: nat, j: nat|
        i <= x.len() && j <= y.len() ==> #[trigger] grid.at(i, j) == MatrixCell::origin()
    &&& forall|i: nat, j: nat| i <= x.len() && j <= y.len() ==> #[trigger] grid.stores(i, j) == 0
}

/// The origin is as the fresh grid had it; every other cell of column 0 is
/// unreachable with the one move insert, every other cell of row 0
/// unreachable with the one move delete.
pub open spec fn has_seeded_borders<M: Matrix>(grid: M) -> bool {
    &&& grid.spec_width() >= 1 && grid.spec_height() >= 1 ==> grid.at(0, 0) == MatrixCell::origin()
    &&& forall|j: nat|
        1 <= j < grid.spec_height() ==> #[trigger] grid.at(0, j) == (MatrixCell {
            score: UNREACHABLE,
            mask: StepMask { align: false, insert: true, delete: false },
        })
    &&& forall|i: nat|
        1 <= i < grid.spec_width() ==> #[trigger] grid.at(i, 0) == (MatrixCell {
            score: UNREACHABLE,
            mask: StepMask { align: false, insert: false, delete: true },
        })
}

/// Every inner cell's score lies in `[lo, hi]`.
pub open spec fn has_scores_within<M: Matrix>(grid: M, lo: int, hi: int) -> bool {
    forall|i: nat, j: nat|
        1 <= i < grid.spec_width() && 1 <= j < grid.spec_height() ==> lo <= (#[trigger] grid.at(
            i,
            j,
        )).score <= hi
}

/// In a grid with inner cells, `cursor` stands on an inner cell that holds
/// `score`, no inner cell scores below it, and every inner cell that the walk
/// row by row meets before it scores strictly above it.
pub open spec fn is_least_and_first<M: Matrix>(grid: M, score: i64, cursor: Cursor) -> bool {
    grid.spec_width() >= 2 && grid.spec_height() >= 2 ==> {
        &&& 1 <= cursor.x < grid.spec_width()
        &&& 1 <= cursor.y < grid.spec_height()
        &&& grid.at(cursor.x as nat, cursor.y as nat).score == score
        &&& forall|i: nat, j: nat|
            1 <= i < grid.spec_width() && 1 <= j < grid.spec_height() ==> score <= (
            #[trigger] grid.at(i, j)).score
        &&& forall|i: nat, j: nat|
            1 <= i < grid.spec_width() && 1 <= j < grid.spec_height() && comes_before(
                i,
                j,
                cursor.x as nat,
                cursor.y as nat,
            ) ==> score < (#[trigger] grid.at(i, j)).score
    }
}

impl<M: Matrix> AlignmentSet<M> {
    /// This is the alignment of `x` against `y` under `model`.
    pub open spec fn aligns(&self, model: CostModel, x: Seq<i64>, y: Seq<i64>) -> bool {
        &&& is_filled(model, x, y, self.spec_matrix())
        &&& self.spec_score() == model.best(x, y).score
        &&& self.spec_cursor().x == model.best(x, y).x
        &&& self.spec_cursor().y == model.best(x, y).y
        &&& has_seeded_borders(self.spec_matrix())
        &&& model.bounds_ordered() ==> has_scores_within(self.spec_matrix(), model.lo, model.hi)
        &&& is_least_and_first(self.spec_matrix(), self.spec_score(), self.spec_cursor())
    }
}

} // verus!
