use convex_rs::quadratic_programming::ActiveSet;

#[test]
fn new_active_set_is_empty() {
    let set = ActiveSet::new(4);
    assert!(set.is_empty());
    assert_eq!(set.len(), 0);
    assert!(!set.contains(0));
}

#[test]
fn block_adds_the_first_least_ratio() {
    let mut set = ActiveSet::new(4);
    let ratios = vec![Some(7), Some(3), None, Some(3)];
    assert_eq!(set.block(&ratios, 10), Some(1));
    assert_eq!(set.len(), 1);
    assert!(set.contains(1));
    assert_eq!(set.member(0), 1);
}

#[test]
fn block_skips_active_constraints() {
    let mut set = ActiveSet::new(4);
    let ratios = vec![Some(7), Some(3), None, Some(5)];
    assert_eq!(set.block(&ratios, 10), Some(1));
    assert_eq!(set.block(&ratios, 10), Some(3));
    assert_eq!(set.block(&ratios, 10), Some(0));
    assert_eq!(set.block(&ratios, 10), None);
    assert_eq!(set.len(), 3);
    assert_eq!((set.member(0), set.member(1), set.member(2)), (1, 3, 0));
}

#[test]
fn block_without_blocking_constraint_leaves_set_unchanged() {
    let mut set = ActiveSet::new(3);
    let ratios = vec![Some(12), None, Some(10)];
    assert_eq!(set.block(&ratios, 10), None);
    assert!(set.is_empty());
}

#[test]
fn multipliers_at_least_checks_active_constraints_only() {
    let mut set = ActiveSet::new(3);
    set.block(&vec![Some(1), None, Some(2)], 10);
    let multipliers = vec![Some(0), Some(-50), None];
    assert!(set.multipliers_at_least(&multipliers, -1));
    assert!(!set.multipliers_at_least(&multipliers, 1));
    set.block(&vec![None, None, Some(2)], 10);
    assert!(!set.multipliers_at_least(&multipliers, -1));
}

#[test]
fn release_drops_the_most_negative_multiplier() {
    let mut set = ActiveSet::new(4);
    set.block(&vec![None, None, Some(1), None], 10);
    set.block(&vec![Some(1), None, None, None], 10);
    set.block(&vec![None, None, None, Some(1)], 10);
    // Working set is [2, 0, 3].
    let multipliers = vec![Some(-9), Some(100), Some(-4), Some(-9)];
    assert_eq!(set.release(&multipliers, -1), Some(1));
    assert_eq!(set.len(), 2);
    assert_eq!((set.member(0), set.member(1)), (2, 3));
    assert_eq!(set.release(&multipliers, -1), Some(1));
    assert_eq!(set.release(&multipliers, -1), Some(0));
    assert!(set.is_empty());
    assert_eq!(set.release(&multipliers, -1), None);
}

#[test]
fn release_without_negative_multiplier_leaves_set_unchanged() {
    let mut set = ActiveSet::new(2);
    set.block(&vec![Some(1), Some(2)], 10);
    assert_eq!(set.release(&vec![Some(5), None], 0), None);
    assert_eq!(set.len(), 1);
    assert_eq!(set.member(0), 0);
}

#[test]
fn active_set_never_outgrows_the_constraints() {
    let mut set = ActiveSet::new(3);
    let ratios = vec![Some(1), Some(2), Some(3)];
    while set.block(&ratios, 10).is_some() {}
    assert_eq!(set.len(), 3);
    assert!(set.len() <= 3);
    assert_eq!(set.block(&ratios, 10), None);
}

use convex_rs::quadratic_programming::QpRun;

#[test]
fn qp_run_converges_with_nonnegative_multipliers() {
    let mut run = QpRun::new(2, 10);
    assert!(run.is_running());
    assert_eq!(run.take_step(&vec![Some(3), Some(1)], Some(10)), Some(1));
    assert_eq!(run.iterations(), 1);
    assert!(run.conclude_or_release(&vec![Some(-100), Some(2)], Some(-1)));
    assert!(run.converged());
    assert!(!run.is_running());
    assert_eq!(run.iterations(), 1);
    assert_eq!(run.active().len(), 1);
}

#[test]
fn qp_run_releases_most_negative_multiplier() {
    let mut run = QpRun::new(3, 10);
    run.take_step(&vec![Some(1), None, None], Some(10));
    run.take_step(&vec![None, None, Some(1)], Some(10));
    assert!(!run.conclude_or_release(&vec![Some(-7), Some(0), Some(-3)], Some(-1)));
    assert_eq!(run.active().len(), 1);
    assert_eq!(run.active().member(0), 2);
    assert_eq!(run.iterations(), 3);
    assert!(run.is_running());
}

#[test]
fn qp_run_without_bound_converges_only_on_empty_set() {
    let mut run = QpRun::new(1, 10);
    assert!(run.conclude_or_release(&vec![Some(5)], None));
    let mut other = QpRun::new(1, 10);
    other.take_step(&vec![Some(1)], Some(10));
    assert!(!other.conclude_or_release(&vec![Some(5)], None));
    assert_eq!(other.active().len(), 1);
}

#[test]
fn qp_run_hits_iteration_limit() {
    let mut run = QpRun::new(1, 2);
    assert_eq!(run.take_step(&vec![Some(20)], Some(10)), None);
    assert_eq!(run.take_step(&vec![Some(20)], None), None);
    assert!(!run.is_running());
    assert!(!run.converged());
    assert_eq!(run.iterations(), 2);
    assert!(QpRun::new(4, 0).iterations() == 0 && !QpRun::new(4, 0).is_running());
}
