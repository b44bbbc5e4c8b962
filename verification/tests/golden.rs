use lau_penrose_growth::golden::GoldenRatio;

const PHI: f64 = 1.6180339887498948482;

#[test]
fn test_continued_fraction_all_ones() {
    let cf = GoldenRatio::continued_fraction(10);
    assert!(cf.iter().all(|&c| c == 1));
    assert_eq!(cf.len(), 10);
}

#[test]
fn test_rational_approximations_converge_to_phi() {
    let approx = GoldenRatio::rational_approximations(15);
    let last = approx.last().unwrap();
    let ratio = last.0 as f64 / last.1 as f64;
    assert!((ratio - PHI).abs() < 1e-3);
}

#[test]
fn test_rational_approximations_are_fibonacci_ratios() {
    let approx = GoldenRatio::rational_approximations(8);
    for (i, (p, q)) in approx.iter().enumerate() {
        assert_eq!(*p, GoldenRatio::fibonacci((i + 2) as u64));
        assert_eq!(*q, GoldenRatio::fibonacci((i + 1) as u64));
    }
}

#[test]
fn test_fibonacci_sequence() {
    let expected = [0, 1, 1, 2, 3, 5, 8, 13, 21, 34, 55, 89];
    for (i, &exp) in expected.iter().enumerate() {
        assert_eq!(GoldenRatio::fibonacci(i as u64), exp);
    }
}

#[test]
fn test_irrationality_phi_is_worst() {
    let approx = GoldenRatio::rational_approximations(20);
    let (p, q) = approx.last().unwrap();
    let error = (PHI - *p as f64 / *q as f64).abs();
    assert!(error > 0.0 && error < 0.01);
}

#[test]
fn test_evaluate_cf_empty() {
    assert_eq!(GoldenRatio::evaluate_cf(&[]), (1, 1));
}

#[test]
fn evaluate_cf_single_coefficient() {
    assert_eq!(GoldenRatio::evaluate_cf(&[7]), (7, 1));
}

#[test]
fn evaluate_cf_pi_convergent() {
    // [3; 7, 15, 1] = 355 / 113
    assert_eq!(GoldenRatio::evaluate_cf(&[3, 7, 15, 1]), (355, 113));
    assert_eq!(GoldenRatio::evaluate_cf(&[3, 7]), (22, 7));
}

#[test]
fn evaluate_cf_zero_coefficient() {
    // [1; 0, 2] = 1 + 1/(0 + 1/2) = 3
    assert_eq!(GoldenRatio::evaluate_cf(&[1, 0, 2]), (3, 1));
}

#[test]
fn evaluate_cf_of_golden_fraction() {
    let cf = GoldenRatio::continued_fraction(12);
    assert_eq!(
        GoldenRatio::evaluate_cf(&cf),
        (GoldenRatio::fibonacci(13), GoldenRatio::fibonacci(12))
    );
    assert_eq!(GoldenRatio::evaluate_cf(&cf), (233, 144));
}

#[test]
fn continued_fraction_empty() {
    assert!(GoldenRatio::continued_fraction(0).is_empty());
}

#[test]
fn rational_approximations_first_values() {
    assert_eq!(
        GoldenRatio::rational_approximations(5),
        vec![(1, 1), (2, 1), (3, 2), (5, 3), (8, 5)]
    );
    assert!(GoldenRatio::rational_approximations(0).is_empty());
}

#[test]
fn rational_approximations_largest_depth() {
    // fib(93) is the last Fibonacci number that fits in a u64.
    let approx = GoldenRatio::rational_approximations(92);
    assert_eq!(approx.len(), 92);
    assert_eq!(approx[90], (GoldenRatio::fibonacci(92), GoldenRatio::fibonacci(91)));
    assert_eq!(approx[91], (12200160415121876738, 7540113804746346429));
}

#[test]
fn fibonacci_largest_index() {
    assert_eq!(GoldenRatio::fibonacci(93), 12200160415121876738);
    assert_eq!(GoldenRatio::fibonacci(92), 7540113804746346429);
    assert_eq!(GoldenRatio::fibonacci(0), 0);
}

#[test]
fn neighbouring_approximations_differ_by_one_unit() {
    let approx = GoldenRatio::rational_approximations(30);
    for d in 1..30 {
        let (p, q) = approx[d - 1];
        let (p2, q2) = approx[d];
        let det = p2 as i128 * q as i128 - p as i128 * q2 as i128;
        let expected = if d % 2 == 0 { -1 } else { 1 };
        assert_eq!(det, expected);
    }
}

#[test]
fn convergents_of_any_fraction_are_unimodular() {
    // [3; 7, 15, 1, 292]: neighbouring convergents p/q, p'/q' have p*q' - p'*q = +-1.
    let coeffs = [3u64, 7, 15, 1, 292];
    for k in 2..=coeffs.len() {
        let (p, q) = GoldenRatio::evaluate_cf(&coeffs[..k]);
        let (p0, q0) = GoldenRatio::evaluate_cf(&coeffs[..k - 1]);
        let det = p as i128 * q0 as i128 - p0 as i128 * q as i128;
        assert_eq!(det, if k % 2 == 0 { 1 } else { -1 });
    }
}
