use vstd::prelude::*;
use crate::cost_model::Anchor;
use crate::cost_model::CostModel;
use crate::cost_model::UNREACHABLE;
use crate::cost_model::comes_before;
use crate::cost_model::distance;
use crate::step_mask::least_of;

verus! {

/// No score of a grid is above `UNREACHABLE`.
pub proof fn lemma_score_at_most_unreachable(
    model: CostModel,
    x: Seq<i64>,
    y: Seq<i64>,
    i: nat,
    j: nat,
)
    requires
        model.representable(),
    ensures
        model.score(x, y, i, j) <= UNREACHABLE,
{
}

/// Every inner cell's score lies within the bounds, where the bounds are ordered.
pub proof fn lemma_score_within_bounds(model: CostModel, x: Seq<i64>, y: Seq<i64>, i: nat, j: nat)
    requires
        model.bounds_ordered(),
        i >= 1,
        j >= 1,
    ensures
        model.lo <= model.score(x, y, i, j) <= model.hi,
{
}

/// The anchor after any part of the fill's walk: no visited cell scores
/// below it, and once a cell has been visited the anchor stands on a visited
/// cell, holds that cell's score, and every cell visited before it scores
/// strictly above it. Of equally good cells the anchor is the first.
pub proof fn lemma_anchor_is_least_and_first(
    model: CostModel,
    x: Seq<i64>,
    y: Seq<i64>,
    i: nat,
    j: nat,
)
    requires
        model.representable(),
        i <= x.len(),
    ensures
        forall|a: nat, b: nat|
            1 <= a <= x.len() && 1 <= b && (comes_before(a, b, i, j) || (a == i && b == j))
                ==> model.anchor(x, y, i, j).score <= #[trigger] model.score(x, y, a, b),
        x.len() >= 1 && (j >= 2 || (j == 1 && i >= 1)) ==> {
            let anchor = model.anchor(x, y, i, j);
            &&& 1 <= anchor.x <= x.len()
            &&& 1 <= anchor.y
            &&& comes_before(anchor.x, anchor.y, i, j) || (anchor.x == i && anchor.y == j)
            &&& anchor.score == model.score(x, y, anchor.x, anchor.y)
            &&& forall|a: nat, b: nat|
                1 <= a <= x.len() && 1 <= b && comes_before(a, b, anchor.x, anchor.y)
                    ==> anchor.score < #[trigger] model.score(x, y, a, b)
        },
        !(x.len() >= 1 && (j >= 2 || (j == 1 && i >= 1))) ==> model.anchor(x, y, i, j) == (Anchor {
            score: UNREACHABLE as int,
            x: 1,
            y: 1,
        }),
    decreases j, i,
{
    if j == 0 {
    } else if i == 0 {
        lemma_anchor_is_least_and_first(model, x, y, x.len(), (j - 1) as nat);
    } else {
        lemma_anchor_is_least_and_first(model, x, y, (i - 1) as nat, j);
        lemma_score_at_most_unreachable(model, x, y, i, j);
    }
}

/// A grid and the grid of the same sequences in the other order mirror each
/// other's scores, where the bounds are ordered.
pub proof fn lemma_score_is_mirrored(model: CostModel, x: Seq<i64>, y: Seq<i64>, i: nat, j: nat)
    requires
        model.representable(),
        model.bounds_ordered(),
    ensures
        model.score(x, y, i, j) == model.score(y, x, j, i),
    decreases i + j,
{
    if i >= 1 && j >= 1 {
        lemma_score_is_mirrored(model, x, y, (i - 1) as nat, j);
        lemma_score_is_mirrored(model, x, y, i, (j - 1) as nat);
        lemma_score_is_mirrored(model, x, y, (i - 1) as nat, (j - 1) as nat);
        if j >= 2 {
            lemma_score_within_bounds(model, x, y, i, (j - 1) as nat);
        }
        if i >= 2 {
            lemma_score_within_bounds(model, x, y, (i - 1) as nat, j);
        }
        assert(distance(x[i - 1] as int, y[j - 1] as int) == distance(
            y[j - 1] as int,
            x[i - 1] as int,
        ));
        assert(least_of(
            model.align_score(x, y, i, j),
            model.score(x, y, (i - 1) as nat, j),
            model.score(x, y, i, (j - 1) as nat),
        ) == least_of(
            model.align_score(y, x, j, i),
            model.score(y, x, (j - 1) as nat, i),
            model.score(y, x, j, (i - 1) as nat),
        ));
    }
}

/// Aligning `x` against `y` gives the best score of aligning `y` against
/// `x`, whatever the weights and the threshold, where the bounds are ordered.
pub proof fn lemma_best_score_is_symmetric(model: CostModel, x: Seq<i64>, y: Seq<i64>)
    requires
        model.representable(),
        model.bounds_ordered(),
    ensures
        model.best(x, y).score == model.best(y, x).score,
{
    if x.len() >= 1 && y.len() >= 1 {
        let forth = model.anchor(x, y, x.len(), y.len());
        let back = model.anchor(y, x, y.len(), x.len());
        lemma_anchor_is_least_and_first(model, x, y, x.len(), y.len());
        lemma_anchor_is_least_and_first(model, y, x, y.len(), x.len());
        lemma_score_is_mirrored(model, x, y, forth.x, forth.y);
        lemma_score_is_mirrored(model, y, x, back.x, back.y);
        assert(back.score <= model.score(y, x, forth.y, forth.x));
        assert(forth.score <= model.score(x, y, back.y, back.x));
    }
}

/// The model of dynamic time warping.
pub open spec fn time_warping() -> CostModel {
    CostModel { equal: 1, unequal: 1, threshold: 0, lo: 0, hi: UNREACHABLE as int }
}

/// Under dynamic time warping a sequence against itself scores 0 all along
/// the diagonal.
pub proof fn lemma_diagonal_of_identity_is_zero(x: Seq<i64>, k: nat)
    requires
        1 <= k <= x.len(),
    ensures
        time_warping().score(x, x, k, k) == 0,
    decreases k,
{
    let model = time_warping();
    if k >= 2 {
        lemma_diagonal_of_identity_is_zero(x, (k - 1) as nat);
        lemma_score_within_bounds(model, x, x, (k - 1) as nat, k);
        lemma_score_within_bounds(model, x, x, k, (k - 1) as nat);
    }
    assert(model.local_cost(x[k - 1] as int, x[k - 1] as int) == 0);
    assert(model.align_score(x, x, k, k) == 0);
    assert(model.score(x, x, (k - 1) as nat, k) >= 0);
    assert(model.score(x, x, k, (k - 1) as nat) >= 0);
    assert(least_of(
        model.align_score(x, x, k, k),
        model.score(x, x, (k - 1) as nat, k),
        model.score(x, x, k, (k - 1) as nat),
    ) == 0);
}

/// Under dynamic time warping a sequence against itself has the best score
/// 0. The anchor is the first cell of the diagonal, `(1, 1)`, or the origin
/// for the empty sequence; the last cell of the diagonal scores 0 as well,
/// and it is the anchor where the sequence has at most one sample.
pub proof fn lemma_identity_scores_zero(x: Seq<i64>)
    ensures
        time_warping().best(x, x).score == 0,
        x.len() == 0 ==> time_warping().best(x, x).x == 0 && time_warping().best(x, x).y == 0,
        x.len() >= 1 ==> time_warping().best(x, x).x == 1 && time_warping().best(x, x).y == 1,
        x.len() >= 1 ==> time_warping().score(x, x, x.len(), x.len()) == 0,
        x.len() <= 1 ==> time_warping().best(x, x).x == x.len() && time_warping().best(x, x).y
            == x.len(),
{
    let model = time_warping();
    if x.len() >= 1 {
        let anchor = model.anchor(x, x, x.len(), x.len());
        lemma_anchor_is_least_and_first(model, x, x, x.len(), x.len());
        lemma_diagonal_of_identity_is_zero(x, 1);
        lemma_diagonal_of_identity_is_zero(x, x.len());
        lemma_score_within_bounds(model, x, x, anchor.x, anchor.y);
        assert(anchor.score <= model.score(x, x, 1, 1));
        if anchor.x != 1 || anchor.y != 1 {
            assert(comes_before(1, 1, anchor.x, anchor.y));
            assert(anchor.score < model.score(x, x, 1, 1));
        }
    }
}

/// Where one sequence is empty, every cell but the origin is unreachable
/// and the anchor is the origin: with the score 0, or with the upper bound
/// where that is below 0 and the other sequence is not empty.
pub proof fn lemma_empty_sequence_anchors_origin(model: CostModel, x: Seq<i64>, y: Seq<i64>)
    requires
        x.len() == 0 || y.len() == 0,
    ensures
        forall|i: nat, j: nat|
            i <= x.len() && j <= y.len() && (i, j) != (0nat, 0nat) ==> #[trigger] model.score(
                x,
                y,
                i,
                j,
            ) == UNREACHABLE,
        model.score(x, y, 0, 0) == 0,
        model.best(x, y).x == 0 && model.best(x, y).y == 0,
        model.best(x, y).score == if model.hi < 0 && (x.len() > 0 || y.len() > 0) {
            model.hi
        } else {
            0
        },
{
}

} // verus!
