//! The solvers order floating-point values through integer keys (`order_key`
//! below is the mapping they use). These tests check, on concrete values, that the
//! verified rules over those keys decide as the plain float comparisons do.

use convex_rs::selection::{first_min_below, last_flagged_or_zero, stable_descending_order};

fn order_key(x: f64) -> Option<i64> {
    if x.is_nan() {
        return None;
    }
    if x == 0.0 {
        return Some(0);
    }
    let bits = x.to_bits() as i64;
    Some(if bits < 0 { bits ^ i64::MAX } else { bits })
}

fn samples() -> Vec<f64> {
    vec![
        f64::NEG_INFINITY,
        -1e300,
        -3.5,
        -1.0,
        -f64::MIN_POSITIVE,
        -5e-324,
        -0.0,
        0.0,
        5e-324,
        f64::MIN_POSITIVE,
        1e-10,
        1.0,
        3.5,
        1e300,
        f64::INFINITY,
    ]
}

#[test]
fn keys_order_as_floats() {
    let xs = samples();
    for &a in &xs {
        for &b in &xs {
            let (ka, kb) = (order_key(a).unwrap(), order_key(b).unwrap());
            assert_eq!(a < b, ka < kb, "{} {}", a, b);
            assert_eq!(a == b, ka == kb, "{} {}", a, b);
        }
    }
    assert_eq!(order_key(f64::NAN), None);
}

/// The scan of the simplex entering rule, written on floats.
fn float_first_min_below(values: &[f64], bound: f64) -> Option<usize> {
    let mut best = None;
    let mut best_value = bound;
    for (i, &v) in values.iter().enumerate() {
        if v < best_value {
            best_value = v;
            best = Some(i);
        }
    }
    best
}

#[test]
fn keyed_min_rule_matches_float_scan() {
    let cases: Vec<(Vec<f64>, f64)> = vec![
        (vec![-3.0, -5.0, 0.0, 0.0, 0.0], -1e-10),
        (vec![-2.0, -2.0, -1.0], -1e-10),
        (vec![0.0, -0.0, 1.0], -1e-10),
        (vec![f64::NAN, -4.0, f64::NAN, -4.0], -1e-10),
        (vec![2.0, 1.5, f64::INFINITY, 1.5], f64::INFINITY),
        (vec![f64::INFINITY, f64::NAN], f64::INFINITY),
        (vec![0.3, 0.2, 0.9], 1.0),
        (vec![], 0.0),
    ];
    for (values, bound) in cases {
        let keys: Vec<Option<i64>> = values.iter().map(|&v| order_key(v)).collect();
        let keyed = order_key(bound).and_then(|b| first_min_below(&keys, b));
        assert_eq!(keyed, float_first_min_below(&values, bound), "{:?} {}", values, bound);
    }
}

#[test]
fn keyed_release_rule_matches_min_by() {
    let lambda = vec![-3.0, 2.0, -7.0, -7.0, f64::NAN, -1e-12];
    let tol = 1e-8;
    let expected = lambda
        .iter()
        .enumerate()
        .filter(|(_, &l)| l < -tol)
        .min_by(|(_, a), (_, b)| a.partial_cmp(b).unwrap())
        .map(|(i, _)| i);
    let keys: Vec<Option<i64>> = lambda.iter().map(|&l| order_key(l)).collect();
    assert_eq!(first_min_below(&keys, order_key(-tol).unwrap()), expected);
    assert_eq!(expected, Some(2));
}

#[test]
fn keyed_order_matches_stable_float_sort() {
    let v = vec![0.5, -1.0, 2.0, 0.5, -0.0, 0.0, 2.0, 1e-300];
    let mut expected: Vec<usize> = (0..v.len()).collect();
    expected.sort_by(|&a, &b| v[b].partial_cmp(&v[a]).unwrap());
    let keys: Vec<i64> = v.iter().map(|&x| order_key(x).unwrap()).collect();
    assert_eq!(stable_descending_order(&keys), expected);
}

#[test]
fn last_flag_matches_rposition() {
    let flags = vec![true, false, true, true, false];
    let expected = flags.iter().rposition(|&f| f).unwrap_or(0);
    assert_eq!(last_flagged_or_zero(&flags), expected);
    let none = vec![false, false];
    assert_eq!(last_flagged_or_zero(&none), none.iter().rposition(|&f| f).unwrap_or(0));
}
