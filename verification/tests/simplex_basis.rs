use convex_rs::linear_programming::Basis;

#[test]
fn artificial_basis_holds_artificial_columns() {
    let basis = Basis::artificial(5, 3);
    assert_eq!(basis.len(), 3);
    assert_eq!(basis.column(0), 5);
    assert_eq!(basis.column(1), 6);
    assert_eq!(basis.column(2), 7);
}

#[test]
fn artificial_basis_lists_no_original_variable() {
    let basis = Basis::artificial(2, 2);
    assert_eq!(basis.variable_rows(2), vec![None, None]);
}

#[test]
fn pivot_replaces_the_basic_column_of_a_row() {
    let mut basis = Basis::artificial(5, 3);
    basis.pivot(2, 1);
    assert_eq!(basis.column(2), 1);
    assert_eq!(basis.column(0), 5);
    basis.pivot(0, 3);
    assert_eq!(basis.variable_rows(5), vec![None, Some(2), None, Some(0), None]);
}

#[test]
fn variable_rows_takes_the_last_row_of_a_repeated_column() {
    let mut basis = Basis::artificial(3, 3);
    basis.pivot(0, 1);
    basis.pivot(2, 1);
    assert_eq!(basis.variable_rows(3), vec![None, Some(2), None]);
}

#[test]
fn variable_rows_never_share_a_row() {
    let mut basis = Basis::artificial(4, 4);
    basis.pivot(0, 2);
    basis.pivot(1, 0);
    basis.pivot(3, 3);
    let rows = basis.variable_rows(4);
    let taken: Vec<usize> = rows.iter().filter_map(|r| *r).collect();
    for i in 0..taken.len() {
        for j in (i + 1)..taken.len() {
            assert_ne!(taken[i], taken[j]);
        }
    }
    assert_eq!(rows, vec![Some(1), None, Some(0), Some(3)]);
}

use convex_rs::linear_programming::{SimplexRun, SimplexStatus};

#[test]
fn simplex_run_stops_optimal_when_no_cost_is_below_threshold() {
    let mut run = SimplexRun::new(2, 1, 10);
    assert_eq!(run.status(), SimplexStatus::Entering);
    assert_eq!(run.choose_entering(&vec![Some(0), Some(3), Some(1)], Some(-1)), None);
    assert_eq!(run.status(), SimplexStatus::Optimal);
    assert!(run.converged());
    assert_eq!(run.iterations(), 0);
}

#[test]
fn simplex_run_pivots_entering_column_into_leaving_row() {
    let mut run = SimplexRun::new(2, 2, 10);
    assert_eq!(run.choose_entering(&vec![Some(-3), Some(-5), Some(0), Some(0)], Some(-1)), Some(1));
    assert_eq!(run.status(), SimplexStatus::Leaving);
    assert_eq!(run.choose_leaving(&vec![Some(6), Some(4)], Some(i64::MAX)), Some(1));
    assert_eq!(run.status(), SimplexStatus::Entering);
    assert_eq!(run.iterations(), 1);
    assert_eq!(run.basis().column(0), 2);
    assert_eq!(run.basis().column(1), 1);
    assert_eq!(run.basis().variable_rows(2), vec![None, Some(1)]);
}

#[test]
fn simplex_run_reports_unbounded_without_limiting_row() {
    let mut run = SimplexRun::new(1, 2, 10);
    assert_eq!(run.choose_entering(&vec![Some(-2), Some(0), Some(0)], Some(-1)), Some(0));
    assert_eq!(run.choose_leaving(&vec![None, None], Some(i64::MAX)), None);
    assert_eq!(run.status(), SimplexStatus::Unbounded);
    assert!(!run.converged());
    assert_eq!(run.iterations(), 0);
    assert_eq!(run.basis().column(0), 1);
}

#[test]
fn simplex_run_hits_iteration_limit() {
    let mut run = SimplexRun::new(1, 1, 1);
    run.choose_entering(&vec![Some(-2), Some(0)], Some(-1));
    run.choose_leaving(&vec![Some(1)], Some(i64::MAX));
    assert_eq!(run.status(), SimplexStatus::IterationLimit);
    assert_eq!(run.iterations(), 1);
    assert!(!run.converged());
    let empty = SimplexRun::new(3, 2, 0);
    assert_eq!(empty.status(), SimplexStatus::IterationLimit);
}

#[test]
fn simplex_run_without_threshold_is_optimal() {
    let mut run = SimplexRun::new(1, 1, 5);
    assert_eq!(run.choose_entering(&vec![Some(-9), Some(-9)], None), None);
    assert_eq!(run.status(), SimplexStatus::Optimal);
}

#[test]
fn artificial_rows_lists_rows_with_artificial_basic_columns() {
    let mut basis = Basis::artificial(3, 4);
    assert_eq!(basis.artificial_rows(3), vec![0, 1, 2, 3]);
    basis.pivot(1, 0);
    basis.pivot(3, 2);
    assert_eq!(basis.artificial_rows(3), vec![0, 2]);
    basis.pivot(0, 1);
    basis.pivot(2, 1);
    assert_eq!(basis.artificial_rows(3), Vec::<usize>::new());
}

#[test]
fn simplex_run_basis_reports_remaining_artificials() {
    let mut run = SimplexRun::new(2, 2, 10);
    run.choose_entering(&vec![Some(-3), Some(0), Some(0), Some(0)], Some(-1));
    run.choose_leaving(&vec![None, Some(1)], Some(i64::MAX));
    assert_eq!(run.basis().artificial_rows(2), vec![0]);
}
