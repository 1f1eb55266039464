use pair_align::alignment_set::AlignmentSet;
use pair_align::cost_model::UNREACHABLE;
use pair_align::cursor::Cursor;
use pair_align::matrix::{InMemoryMatrix, Matrix, MatrixCell, MatrixError};
use pair_align::step_mask::StepMask;
use pair_align::strategy::{Kernel, Strategy};

#[test]
fn total_score_clamps_into_the_bounds() {
    let strategy = Strategy::new(1, 1, 0, 2..=7);
    assert_eq!(strategy.total_score(1), 2);
    assert_eq!(strategy.total_score(2), 2);
    assert_eq!(strategy.total_score(5), 5);
    assert_eq!(strategy.total_score(7), 7);
    assert_eq!(strategy.total_score(9), 7);
    assert_eq!(strategy.total_score(UNREACHABLE), 7);
    assert_eq!(strategy.total_score(i64::MIN), 2);
}

#[test]
fn total_score_tests_the_lower_bound_first() {
    let strategy = Strategy::new(1, 1, 0, 5..=0);
    assert_eq!(strategy.total_score(3), 5);
    assert_eq!(strategy.total_score(5), 0);
    assert_eq!(strategy.total_score(-1), 5);
}

#[test]
fn time_warping_has_no_upper_bound() {
    let strategy = Strategy::dynamic_time_warping();
    assert_eq!(strategy.total_score(-1), 0);
    assert_eq!(strategy.total_score(0), 0);
    assert_eq!(strategy.total_score(i64::MAX - 1), i64::MAX - 1);
    let cell = strategy.calculate_cell(&3, &10, [9, 4, 8]);
    assert_eq!(cell.score, 11);
}

#[test]
fn cell_adds_the_weighted_cost_to_the_least_predecessor() {
    let strategy = Strategy::new(2, 3, 4, -100..=100);
    // distance 1, cost -3, weighted by the second weight: -9
    let near = strategy.calculate_cell(&0, &1, [10, 7, 9]);
    assert_eq!(near, MatrixCell::new(-2, StepMask::align()));
    // distance 10, cost 6, weighted by the first weight: 12
    let far = strategy.calculate_cell(&-4, &6, [10, 17, 11]);
    assert_eq!(far, MatrixCell::new(22, StepMask::insert()));
    // distance 4, cost 0
    let even = strategy.calculate_cell(&6, &2, [10, 17, 9]);
    assert_eq!(even, MatrixCell::new(9, StepMask::delete()));
    let capped = strategy.calculate_cell(&0, &60, [10, 17, 9]);
    assert_eq!(capped.score, 100);
    let floored = strategy.calculate_cell(&0, &0, [-90, -90, 9]);
    assert_eq!(floored.score, -100);
    assert_eq!(floored.mask, StepMask::align().union(StepMask::insert()));
}

#[test]
fn unreachable_predecessors_stay_unreachable() {
    let strategy = Strategy::new(2, 3, 4, -100..=100);
    let cell = strategy.calculate_cell(&0, &1, [UNREACHABLE, UNREACHABLE, UNREACHABLE]);
    assert_eq!(cell.score, 100);
    assert_eq!(cell.mask, StepMask { align: true, insert: true, delete: true });
    let open = Strategy::new(2, 3, 4, -100..=i64::MAX);
    let cell = open.calculate_cell(&0, &1, [UNREACHABLE, UNREACHABLE, UNREACHABLE]);
    assert_eq!(cell.score, UNREACHABLE);
}

#[test]
fn extreme_weights_do_not_overflow() {
    let strategy = Strategy::new(i64::MAX, i64::MIN, i64::MIN, i64::MIN..=i64::MAX);
    assert_eq!(strategy.calculate_cell(&i64::MIN, &i64::MAX, [0, 0, 0]).score, i64::MAX);
    let strategy = Strategy::new(i64::MIN, 1, i64::MIN, i64::MIN..=i64::MAX);
    assert_eq!(strategy.calculate_cell(&i64::MIN, &i64::MAX, [0, 0, 0]).score, i64::MIN);
    let strategy = Strategy::new(1, i64::MIN, i64::MAX, -7..=7);
    assert_eq!(strategy.calculate_cell(&0, &0, [0, 0, 0]).score, 7);
    let strategy = Strategy::new(1, i64::MAX, i64::MAX, -7..=7);
    assert_eq!(strategy.calculate_cell(&0, &0, [0, 0, 0]).score, -7);
    let strategy = Strategy::new(1, 1, 0, i64::MIN..=i64::MAX);
    assert_eq!(
        strategy.calculate_cell(&i64::MAX, &0, [i64::MAX - 1, UNREACHABLE, UNREACHABLE]).score,
        i64::MAX
    );
    assert_eq!(strategy.calculate_cell(&5, &2, [i64::MIN, 0, 0]).score, i64::MIN + 3);
}

#[test]
fn mask_from_scores_flags_ties() {
    assert_eq!(StepMask::from_scores(1, 2, 3), (StepMask::align(), 1));
    assert_eq!(StepMask::from_scores(2, 1, 3), (StepMask::delete(), 1));
    assert_eq!(StepMask::from_scores(3, 2, 1), (StepMask::insert(), 1));
    assert_eq!(StepMask::from_scores(3, 3, 5), (StepMask::align().union(StepMask::delete()), 3));
    assert_eq!(StepMask::from_scores(5, 3, 3), (StepMask::delete().union(StepMask::insert()), 3));
    assert_eq!(
        StepMask::from_scores(-4, -4, -4),
        (StepMask { align: true, insert: true, delete: true }, -4)
    );
    let cell = MatrixCell::from_scores(8, 6, 6);
    assert_eq!(cell.score, 6);
    assert_eq!(cell.mask, StepMask { align: false, insert: true, delete: true });
}

#[test]
fn mask_union_keeps_both_sides() {
    assert_eq!(StepMask::stop().union(StepMask::stop()), StepMask::stop());
    assert_eq!(StepMask::stop().union(StepMask::insert()), StepMask::insert());
    assert_eq!(
        StepMask::align().union(StepMask::delete()),
        StepMask { align: true, insert: false, delete: true }
    );
    assert_ne!(StepMask::insert(), StepMask::delete());
}

#[test]
fn fresh_grid_holds_origin_cells() {
    let grid = InMemoryMatrix::new(3, 2).unwrap();
    assert_eq!(grid.width(), 3);
    assert_eq!(grid.height(), 2);
    for y in 0..2 {
        for x in 0..3 {
            assert_eq!(grid.cell(&Cursor::new(x, y)), MatrixCell::new(0, StepMask::stop()));
        }
    }
}

#[test]
fn grid_stores_one_cell_and_keeps_the_others() {
    let mut grid = InMemoryMatrix::new(3, 2).unwrap();
    grid.set_cell(&Cursor::new(2, 1), MatrixCell::new(9, StepMask::align()));
    grid.set_cell(&Cursor::new(0, 1), MatrixCell::new(-3, StepMask::insert()));
    grid.set_cell(&Cursor::new(2, 0), MatrixCell::new(4, StepMask::delete()));
    assert_eq!(grid.cell(&Cursor::new(2, 1)), MatrixCell::new(9, StepMask::align()));
    assert_eq!(grid.cell(&Cursor::new(0, 1)), MatrixCell::new(-3, StepMask::insert()));
    assert_eq!(grid.cell(&Cursor::new(2, 0)), MatrixCell::new(4, StepMask::delete()));
    assert_eq!(grid.cell(&Cursor::new(0, 0)), MatrixCell::new(0, StepMask::stop()));
    assert_eq!(grid.cell(&Cursor::new(1, 0)), MatrixCell::new(0, StepMask::stop()));
    assert_eq!(grid.cell(&Cursor::new(1, 1)), MatrixCell::new(0, StepMask::stop()));
}

#[test]
fn grid_too_large_for_memory_is_refused() {
    assert_eq!(InMemoryMatrix::new(usize::MAX, 2).err(), Some(MatrixError::TooLarge));
    assert_eq!(InMemoryMatrix::new(usize::MAX / 2 + 1, 2).err(), Some(MatrixError::TooLarge));
    assert!(InMemoryMatrix::new(0, usize::MAX).is_ok());
}

#[test]
fn alignment_set_hands_back_what_it_was_made_of() {
    let mut grid = InMemoryMatrix::new(2, 2).unwrap();
    grid.set_cell(&Cursor::new(1, 1), MatrixCell::new(5, StepMask::align()));
    let set = AlignmentSet::new(grid, 5, Cursor::new(1, 1));
    assert_eq!(set.score(), 5);
    assert_eq!(set.cursor(), Cursor { x: 1, y: 1 });
    assert_eq!(set.matrix().cell(&Cursor::new(1, 1)).score, 5);
    assert_eq!(set.matrix().width(), 2);
}

#[test]
fn kernel_names_two_distances() {
    assert!(matches!(Kernel::Linear, Kernel::Linear));
    assert!(!matches!(Kernel::Quadratic, Kernel::Linear));
}

#[test]
fn unreachable_is_the_greatest_score() {
    assert_eq!(UNREACHABLE, i64::MAX);
}
