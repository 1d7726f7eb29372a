use convex_rs::iteration::{is_below, DescentRun};

#[test]
fn is_below_compares_keys_strictly() {
    assert!(is_below(Some(1), Some(2)));
    assert!(!is_below(Some(2), Some(2)));
    assert!(!is_below(None, Some(2)));
    assert!(!is_below(Some(1), None));
}

#[test]
fn run_stops_at_first_passing_test() {
    let mut run = DescentRun::new(10, 0);
    let outcomes = [false, false, true];
    let mut history = 0;
    for &passed in outcomes.iter() {
        assert!(run.is_running());
        history += 1;
        run.record();
        let stop = run.test(if passed { Some(0) } else { Some(5) }, Some(1));
        assert_eq!(stop, passed);
    }
    assert!(!run.is_running());
    assert!(run.converged());
    assert_eq!(run.iterations(), 2);
    assert_eq!(run.recorded_count(), 3);
    assert_eq!(history, run.recorded_count());
}

#[test]
fn run_exhausts_its_budget_and_records_final_value() {
    let mut run = DescentRun::new(3, 0);
    while run.is_running() {
        run.record();
        assert!(!run.test(Some(5), Some(1)));
    }
    assert!(!run.converged());
    assert_eq!(run.iterations(), 3);
    assert_eq!(run.recorded_count(), 3);
    run.record_final();
    assert_eq!(run.recorded_count(), 4);
    assert_eq!(run.recorded_count(), run.iterations() + 1);
}

#[test]
fn settle_decides_convergence_at_final_point() {
    let mut run = DescentRun::new(2, 0);
    while run.is_running() {
        run.record();
        run.test(None, Some(1));
    }
    run.settle(Some(0), Some(1));
    assert!(run.converged());
    assert_eq!(run.iterations(), 2);
    let mut other = DescentRun::new(2, 0);
    while other.is_running() {
        other.record();
        other.test(Some(3), Some(1));
    }
    other.settle(Some(3), Some(1));
    assert!(!other.converged());
}

#[test]
fn tests_before_min_stop_do_not_stop_the_run() {
    let mut run = DescentRun::new(5, 1);
    run.record();
    assert!(!run.test(Some(0), Some(1)));
    assert_eq!(run.iterations(), 1);
    run.record();
    assert!(run.test(Some(0), Some(1)));
    assert_eq!(run.iterations(), 1);
    assert_eq!(run.recorded_count(), 2);
    assert!(run.converged());
}

#[test]
fn empty_budget_is_exhausted_at_once() {
    let run = DescentRun::new(0, 0);
    assert!(!run.is_running());
    assert_eq!(run.iterations(), 0);
    assert_eq!(run.recorded_count(), 0);
    assert!(!run.converged());
}
