use linear_regression::Error;
use linear_regression::LinearRegression;

/// Fixed-point scale used by the library: values are reals times 10^6.
const S: i64 = 1_000_000;

/// Largest magnitude the library accepts for values and parameters.
const BOUND: i64 = 1_000_000_000_000;

/// The canonical dataset: 50 evenly spaced points over [0, 2] and targets
/// on the exact line y = 2x + 5, in fixed-point form.
fn canonical() -> (Vec<i64>, Vec<i64>) {
    let x: Vec<i64> = (0..50i64).map(|i| (2 * S * i) / 49).collect();
    let y: Vec<i64> = x.iter().map(|&v| 2 * v + 5 * S).collect();
    (x, y)
}

#[test]
fn new_rejects_mismatched_lengths() {
    let r = LinearRegression::new(vec![1, 2, 3], vec![1, 2], 0);
    assert!(matches!(r, Err(Error::InvalidInput)));
}

#[test]
fn new_rejects_empty_dataset() {
    let r = LinearRegression::new(vec![], vec![], 0);
    assert!(matches!(r, Err(Error::InvalidInput)));
}

#[test]
fn new_rejects_value_out_of_range() {
    let r = LinearRegression::new(vec![BOUND + 1], vec![0], 0);
    assert!(matches!(r, Err(Error::InvalidInput)));
    let r = LinearRegression::new(vec![0], vec![-BOUND - 1], 0);
    assert!(matches!(r, Err(Error::InvalidInput)));
}

#[test]
fn new_rejects_initial_weight_out_of_range() {
    let r = LinearRegression::new(vec![0], vec![0], BOUND + 1);
    assert!(matches!(r, Err(Error::InvalidInput)));
}

#[test]
fn new_sets_initial_state() {
    let m = LinearRegression::new(vec![0, S, 2 * S], vec![5 * S, 7 * S, 9 * S], 10_000).unwrap();
    assert_eq!(m.len(), 3);
    assert_eq!(m.weight(), 10_000);
    assert_eq!(m.bias(), 0);
    assert_eq!(m.error(), 0);
    assert_eq!(m.predictions().as_slice(), &[0, 0, 0]);
    assert_eq!(m.residuals().as_slice(), &[0, 0, 0]);
    assert_eq!(m.features().as_slice(), &[0, S, 2 * S]);
    assert_eq!(m.targets().as_slice(), &[5 * S, 7 * S, 9 * S]);
}

#[test]
fn train_zero_epochs_is_noop() {
    let mut m = LinearRegression::new(vec![0, S, 2 * S], vec![5 * S, 7 * S, 9 * S], 777).unwrap();
    assert!(m.train(0).is_ok());
    assert_eq!(m.weight(), 777);
    assert_eq!(m.bias(), 0);
    assert_eq!(m.error(), 0);
    assert_eq!(m.predictions().as_slice(), &[0, 0, 0]);
    assert_eq!(m.residuals().as_slice(), &[0, 0, 0]);
}

#[test]
fn train_negative_epochs_is_noop() {
    let mut m = LinearRegression::new(vec![0, S, 2 * S], vec![5 * S, 7 * S, 9 * S], 777).unwrap();
    assert!(m.train(-8).is_ok());
    assert_eq!(m.weight(), 777);
    assert_eq!(m.bias(), 0);
    assert_eq!(m.error(), 0);
}

#[test]
fn one_epoch_matches_hand_computation() {
    // x = [0, 1, 2], y = [5, 7, 9] (the exact line w = 2, b = 5), w0 = 0:
    // predictions [0, 0, 0], residuals [-5, -7, -9],
    // loss (25 + 49 + 81) / 3 = 51.666666,
    // grad_w = -25/3, grad_b = -7, so w <- 0.083333, b <- 0.07.
    let mut m = LinearRegression::new(vec![0, S, 2 * S], vec![5 * S, 7 * S, 9 * S], 0).unwrap();
    assert!(m.train(1).is_ok());
    assert_eq!(m.predictions().as_slice(), &[0, 0, 0]);
    assert_eq!(m.residuals().as_slice(), &[-5 * S, -7 * S, -9 * S]);
    assert_eq!(m.error(), 51_666_666);
    assert_eq!(m.weight(), 83_333);
    assert_eq!(m.bias(), 70_000);
}

#[test]
fn residuals_equal_predictions_minus_targets() {
    let (x, y) = canonical();
    let mut m = LinearRegression::new(x, y.clone(), 5_000).unwrap();
    assert!(m.train(3).is_ok());
    let p = m.predictions().clone();
    let r = m.residuals().clone();
    assert_eq!(p.len(), r.len());
    for i in 0..r.len() {
        assert_eq!(r[i], p[i] - y[i]);
    }
}

#[test]
fn loss_equals_mean_squared_residual() {
    let (x, y) = canonical();
    let n = x.len() as i128;
    let mut m = LinearRegression::new(x, y, 5_000).unwrap();
    assert!(m.train(5).is_ok());
    let sum_sq: i128 = m.residuals().iter().map(|&r| (r as i128) * (r as i128)).sum();
    let expected = sum_sq / (n * S as i128);
    assert_eq!(m.error() as i128, expected);
}

#[test]
fn identical_models_train_identically() {
    // Two models built from the same dataset and the same initial-weight
    // draw follow the same trajectory exactly.
    let (x, y) = canonical();
    let w0 = 10_000;
    let mut a = LinearRegression::new(x.clone(), y.clone(), w0).unwrap();
    let mut b = LinearRegression::new(x, y, w0).unwrap();
    assert!(a.train(50).is_ok());
    assert!(b.train(50).is_ok());
    assert_eq!(a.weight(), b.weight());
    assert_eq!(a.bias(), b.bias());
    assert_eq!(a.error(), b.error());
    assert_eq!(a.predictions(), b.predictions());
    assert_eq!(a.residuals(), b.residuals());
}

#[test]
fn canonical_loss_improves_with_training() {
    let (x, y) = canonical();
    let mut m = LinearRegression::new(x, y, 0).unwrap();
    assert!(m.train(1).is_ok());
    let loss_after_one = m.error();
    assert!(loss_after_one >= 0);
    assert!(m.train(1023).is_ok());
    let loss_after_many = m.error();
    assert!(loss_after_many >= 0);
    assert!(loss_after_many < loss_after_one);
}

#[test]
fn canonical_parameters_move_toward_true_line() {
    let (x, y) = canonical();
    let mut m = LinearRegression::new(x, y, 0).unwrap();
    assert!(m.train(1024).is_ok());
    // weight starts at 0, true weight is 2; bias starts at 0, true bias 5.
    assert!((m.weight() - 2 * S).abs() < 2 * S);
    assert!((m.bias() - 5 * S).abs() < 5 * S);
}

#[test]
fn train_reports_out_of_range_and_keeps_state() {
    // With data and weight at the admitted bound, the first forward pass
    // would overshoot the range: train refuses and leaves the model as
    // it was.
    let mut m = LinearRegression::new(vec![BOUND, BOUND], vec![-BOUND, -BOUND], BOUND).unwrap();
    let r = m.train(1);
    assert!(matches!(r, Err(Error::OutOfRange)));
    assert_eq!(m.weight(), BOUND);
    assert_eq!(m.bias(), 0);
    assert_eq!(m.error(), 0);
    assert_eq!(m.predictions().as_slice(), &[0, 0]);
}
