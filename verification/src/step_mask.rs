use vstd::prelude::*;

verus! {

/// The set of moves by which a cell's score is reached: `align` consumes one
/// element of each sequence, `insert` one of the second only, `delete` one of
/// the first only.
#[derive(Clone, Copy, Debug, PartialEq, Eq, Structural)]
pub struct StepMask {
    pub align: bool,
    pub insert: bool,
    pub delete: bool,
}

/// The least of three scores.
pub open spec fn least_of(align: int, delete: int, insert: int) -> int {
    if align <= delete && align <= insert {
        align
    } else if delete <= insert {
        delete
    } else {
        insert
    }
}

impl StepMask {
    /// The mask that holds exactly the moves whose score is the least of the three.
    pub open spec fn of_scores(align: int, delete: int, insert: int) -> StepMask {
        StepMask {
            align: align == least_of(align, delete, insert),
            insert: insert == least_of(align, delete, insert),
            delete: delete == least_of(align, delete, insert),
        }
    }

    /// The mask that holds the moves of either mask.
    pub open spec fn spec_union(self, other: StepMask) -> StepMask {
        StepMask {
            align: self.align || other.align,
            insert: self.insert || other.insert,
            delete: self.delete || other.delete,
        }
    }

    /// No move at all.
    pub fn stop() -> (mask: StepMask)
        ensures
            mask == (StepMask { align: false, insert: false, delete: false }),
    {
        StepMask { align: false, insert: false, delete: false }
    }

    /// The single move that consumes one element of each sequence.
    pub fn align() -> (mask: StepMask)
        ensures
            mask == (StepMask { align: true, insert: false, delete: false }),
    {
        StepMask { align: true, insert: false, delete: false }
    }

    /// The single move that consumes one element of the second sequence.
    pub fn insert() -> (mask: StepMask)
        ensures
            mask == (StepMask { align: false, insert: true, delete: false }),
    {
        StepMask { align: false, insert: true, delete: false }
    }

    /// The single move that consumes one element of the first sequence.
    pub fn delete() -> (mask: StepMask)
        ensures
            mask == (StepMask { align: false, insert: false, delete: true }),
    {
        StepMask { align: false, insert: false, delete: true }
    }

    pub fn union(self, other: StepMask) -> (mask: StepMask)
        ensures
            mask == self.spec_union(other),
    {
        StepMask {
            align: self.align || other.align,
            insert: self.insert || other.insert,
            delete: self.delete || other.delete,
        }
    }

    /// Selects the least of three scores and flags every move that reaches it.
    pub fn from_scores(align: i64, delete: i64, insert: i64) -> (result: (StepMask, i64))
        ensures
            result.0 == StepMask::of_scores(align as int, delete as int, insert as int),
            result.1 == least_of(align as int, delete as int, insert as int),
    {
        let least: i64 = if align <= delete && align <= insert {
            align
        } else if delete <= insert {
            delete
        } else {
            insert
        };
        (StepMask { align: align == least, insert: insert == least, delete: delete == least }, least)
    }
}

} // verus!
