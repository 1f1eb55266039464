use vstd::prelude::*;
use crate::cursor::Cursor;
use crate::step_mask::StepMask;
use crate::step_mask::least_of;

verus! {

/// What a grid holds at one position: the cumulative score and the moves that reach it.
#[derive(Clone, Copy, Debug, PartialEq, Eq, Structural)]
pub struct MatrixCell {
    pub score: i64,
    pub mask: StepMask,
}

impl MatrixCell {
    /// The cell of a fresh grid: score zero, no move.
    pub open spec fn origin() -> MatrixCell {
        MatrixCell { score: 0, mask: StepMask { align: false, insert: false, delete: false } }
    }

    pub fn new(score: i64, mask: StepMask) -> (cell: MatrixCell)
        ensures
            cell == (MatrixCell { score, mask }),
    {
        MatrixCell { score, mask }
    }

    /// The cell whose score is the least of the three and whose mask flags
    /// every move that reaches it.
    pub fn from_scores(align: i64, delete: i64, insert: i64) -> (cell: MatrixCell)
        ensures
            cell.score == least_of(align as int, delete as int, insert as int),
            cell.mask == StepMask::of_scores(align as int, delete as int, insert as int),
    {
        let (mask, score) = StepMask::from_scores(align, delete, insert);
        MatrixCell { score, mask }
    }
}

/// A grid of cells addressed by cursor, `width` columns by `height` rows.
pub trait Matrix: Sized {
    type Error;

    /// What the storage must keep for the grid to be read and written.
    spec fn well_formed(&self) -> bool;

    spec fn spec_width(&self) -> nat;

    spec fn spec_height(&self) -> nat;

    /// The cell at column `x` of row `y`.
    spec fn at(&self, x: nat, y: nat) -> MatrixCell;

    /// How often the position has been stored to since the grid was made.
    spec fn stores(&self, x: nat, y: nat) -> nat;

    /// Whether a grid of these dimensions can be had.
    spec fn fits(width: nat, height: nat) -> bool;

    /// The error that answers a request for a grid that cannot be had.
    spec fn refusal(width: nat, height: nat) -> Self::Error;

    /// A grid of `width` by `height` cells, each of them
    /// `MatrixCell::origin()` and none stored to yet.
    fn new(width: usize, height: usize) -> (result: Result<Self, Self::Error>)
        ensures
            result is Ok <==> Self::fits(width as nat, height as nat),
            result is Err ==> result->Err_0 == Self::refusal(width as nat, height as nat),
            result is Ok ==> {
                let grid = result->Ok_0;
                &&& grid.well_formed()
                &&& grid.spec_width() == width
                &&& grid.spec_height() == height
                &&& forall|x: nat, y: nat|
                    x < width && y < height ==> #[trigger] grid.at(x, y) == MatrixCell::origin()
                &&& forall|x: nat, y: nat|
                    x < width && y < height ==> #[trigger] grid.stores(x, y) == 0
            },
    ;

    fn width(&self) -> (width: usize)
        requires
            self.well_formed(),
        ensures
            width == self.spec_width(),
    ;

    fn height(&self) -> (height: usize)
        requires
            self.well_formed(),
        ensures
            height == self.spec_height(),
    ;

    fn cell(&self, cursor: &Cursor) -> (cell: MatrixCell)
        requires
            self.well_formed(),
            cursor.x < self.spec_width(),
            cursor.y < self.spec_height(),
        ensures
            cell == self.at(cursor.x as nat, cursor.y as nat),
    ;

    /// Stores `cell` at `cursor` and leaves every other position as it was.
    fn set_cell(&mut self, cursor: &Cursor, cell: MatrixCell)
        requires
            old(self).well_formed(),
            cursor.x < old(self).spec_width(),
            cursor.y < old(self).spec_height(),
        ensures
            final(self).well_formed(),
            final(self).spec_width() == old(self).spec_width(),
            final(self).spec_height() == old(self).spec_height(),
            final(self).at(cursor.x as nat, cursor.y as nat) == cell,
            final(self).stores(cursor.x as nat, cursor.y as nat) == old(self).stores(
                cursor.x as nat,
                cursor.y as nat,
            ) + 1,
            forall|x: nat, y: nat|
                x < old(self).spec_width() && y < old(self).spec_height() && !(x == cursor.x && y
                    == cursor.y) ==> #[trigger] final(self).at(x, y) == old(self).at(x, y),
            forall|x: nat, y: nat|
                x < old(self).spec_width() && y < old(self).spec_height() && !(x == cursor.x && y
                    == cursor.y) ==> #[trigger] final(self).stores(x, y) == old(self).stores(x, y),
    ;
}

/// Why a dense grid could not be had.
#[derive(Clone, Copy, Debug, PartialEq, Eq, Structural)]
pub enum MatrixError {
    /// The number of cells, `width * height`, does not fit in `usize`.
    TooLarge,
}

/// A dense grid that keeps every cell in memory, row by row.
pub struct InMemoryMatrix {
    width: usize,
    height: usize,
    cells: Vec<MatrixCell>,
    stores: Ghost<Seq<nat>>,
}

/// Position `(x, y)` of a grid of `width` columns lies below `width * height`.
pub proof fn lemma_index_in_grid(x: nat, y: nat, width: nat, height: nat)
    requires
        x < width,
        y < height,
    ensures
        y * width + x < width * height,
{
    assert(y * width + x < width * height) by (nonlinear_arith)
        requires
            x < width,
            y + 1 <= height,
    ;
}

/// Two positions of a grid of `width` columns that stand at one index are one position.
pub proof fn lemma_index_is_position(x: nat, y: nat, u: nat, v: nat, width: nat)
    requires
        x < width,
        u < width,
        y * width + x == v * width + u,
    ensures
        x == u,
        y == v,
{
    if y < v {
        assert(v * width >= y * width + width) by (nonlinear_arith)
            requires
                y + 1 <= v,
        ;
    } else if v < y {
        assert(y * width >= v * width + width) by (nonlinear_arith)
            requires
                v + 1 <= y,
        ;
    }
}

impl Matrix for InMemoryMatrix {
    type Error = MatrixError;

    closed spec fn well_formed(&self) -> bool {
        &&& self.cells@.len() == self.width * self.height
        &&& self.stores@.len() == self.width * self.height
    }

    closed spec fn spec_width(&self) -> nat {
        self.width as nat
    }

    closed spec fn spec_height(&self) -> nat {
        self.height as nat
    }

    closed spec fn at(&self, x: nat, y: nat) -> MatrixCell {
        self.cells@[y * self.width + x]
    }

    closed spec fn stores(&self, x: nat, y: nat) -> nat {
        self.stores@[y * self.width + x]
    }

    open spec fn fits(width: nat, height: nat) -> bool {
        width * height <= usize::MAX
    }

    open spec fn refusal(width: nat, height: nat) -> MatrixError {
        MatrixError::TooLarge
    }

    fn new(width: usize, height: usize) -> (result: Result<Self, Self::Error>) {
        let count: usize = match width.checked_mul(height) {
            Some(count) => count,
            None => {
                return Err(MatrixError::TooLarge);
            },
        };
        let mut cells: Vec<MatrixCell> = Vec::new();
        let mut k: usize = 0;
        while k < count
            invariant
                k <= count,
                cells@.len() == k,
                forall|i: int| 0 <= i < k ==> cells@[i] == MatrixCell::origin(),
            decreases count - k,
        {
            cells.push(MatrixCell::new(0, StepMask::stop()));
            k = k + 1;
        }
        let grid = InMemoryMatrix {
            width,
            height,
            cells,
            stores: Ghost(Seq::new(count as nat, |i: int| 0nat)),
        };
        proof {
            assert forall|x: nat, y: nat| x < width && y < height implies #[trigger] grid.at(x, y)
                == MatrixCell::origin() by {
                lemma_index_in_grid(x, y, width as nat, height as nat);
            }
            assert forall|x: nat, y: nat| x < width && y < height implies #[trigger] grid.stores(
                x,
                y,
            ) == 0 by {
                lemma_index_in_grid(x, y, width as nat, height as nat);
            }
        }
        Ok(grid)
    }

    fn width(&self) -> (width: usize) {
        self.width
    }

    fn height(&self) -> (height: usize) {
        self.height
    }

    fn cell(&self, cursor: &Cursor) -> (cell: MatrixCell) {
        let count: usize = self.cells.len();
        proof {
            lemma_index_in_grid(
                cursor.x as nat,
                cursor.y as nat,
                self.width as nat,
                self.height as nat,
            );
        }
        self.cells[cursor.y * self.width + cursor.x]
    }

    fn set_cell(&mut self, cursor: &Cursor, cell: MatrixCell) {
        let count: usize = self.cells.len();
        proof {
            lemma_index_in_grid(
                cursor.x as nat,
                cursor.y as nat,
                self.width as nat,
                self.height as nat,
            );
        }
        let index: usize = cursor.y * self.width + cursor.x;
        self.cells.set(index, cell);
        proof {
            self.stores@ = self.stores@.update(index as int, self.stores@[index as int] + 1);
            assert forall|x: nat, y: nat|
                x < self.width && y < self.height && !(x == cursor.x && y
                    == cursor.y) implies #[trigger] self.at(x, y) == old(self).at(x, y) by {
                lemma_index_in_grid(x, y, self.width as nat, self.height as nat);
                if y * self.width + x == index {
                    lemma_index_is_position(
                        x,
                        y,
                        cursor.x as nat,
                        cursor.y as nat,
                        self.width as nat,
                    );
                }
            }
            assert forall|x: nat, y: nat|
                x < self.width && y < self.height && !(x == cursor.x && y
                    == cursor.y) implies #[trigger] self.stores(x, y) == old(self).stores(
                x,
                y,
            ) by {
                lemma_index_in_grid(x, y, self.width as nat, self.height as nat);
                if y * self.width + x == index {
                    lemma_index_is_position(
                        x,
                        y,
                        cursor.x as nat,
                        cursor.y as nat,
                        self.width as nat,
                    );
                }
            }
        }
    }
}

} // verus!
