use gln::utils::math::{
    accuracy, clip_hypercube, clip_prob, fx_add, fx_div, fx_le, fx_lt, fx_mul, fx_neg, fx_sub,
    geometric_mixing, geometric_mixing_loss, logit, norm, sigmoid, Fx, FX_SCALE,
};

const SCALE: i64 = FX_SCALE as i64;

fn approx(a: i64, b: i64, tol: i64) -> bool {
    (a - b).abs() <= tol
}

fn fx(n: i64, d: i64) -> Fx {
    Fx::from_ratio(n, d)
}

#[test]
fn test_from_ratio_truncates_toward_zero() {
    assert_eq!(fx(1, 3).raw(), 5592405);
    assert_eq!(fx(-1, 3).raw(), -5592405);
    assert_eq!(fx(1, 2).raw(), SCALE / 2);
    assert_eq!(fx(1, 1000).raw(), 16777);
}

#[test]
fn test_fx_arithmetic_exact() {
    let a = fx(3, 4);
    let b = fx(1, 4);
    assert_eq!(fx_add(a, b).raw(), SCALE);
    assert_eq!(fx_sub(a, b).raw(), SCALE / 2);
    assert_eq!(fx_mul(a, b).raw(), 3 * SCALE / 16);
    assert_eq!(fx_div(b, a).raw(), SCALE / 3);
    assert_eq!(fx_neg(a).raw(), -3 * SCALE / 4);
    assert!(fx_lt(b, a));
    assert!(fx_le(b, b));
    assert!(!fx_lt(b, b));
}

#[test]
fn test_logit() {
    // logit(0.5) is exactly zero, and logit(0.3) is about -0.8473.
    assert_eq!(logit(fx(1, 2)).raw(), 0);
    let actual = logit(fx(3, 10)).raw();
    let expected = (-0.8472978 * SCALE as f64) as i64;
    assert!(approx(actual, expected, 5000), "logit(0.3) = {actual}");
}

#[test]
fn test_sigmoid() {
    // sigmoid(0) is exactly one half; sigmoid(1) is about 0.7310586.
    assert_eq!(sigmoid(Fx::zero()).raw(), SCALE / 2);
    let actual = sigmoid(Fx::from_int(1)).raw();
    let expected = (0.7310586 * SCALE as f64) as i64;
    assert!(approx(actual, expected, 5000), "sigmoid(1) = {actual}");
}

#[test]
fn test_sigmoid_saturates() {
    assert_eq!(sigmoid(Fx::from_int(20)).raw(), SCALE);
    assert_eq!(sigmoid(Fx::from_int(-20)).raw(), 0);
}

#[test]
fn test_logit_sigmoid_round_trip() {
    // sigmoid(logit(p)) returns p within tolerance, for p inside (0, 1).
    for (n, d) in [(3i64, 10i64), (1, 2), (9, 10), (1, 100), (2, 3)] {
        let p = fx(n, d);
        let round = sigmoid(logit(p)).raw();
        assert!(
            approx(round, p.raw(), 9000),
            "round trip of {n}/{d}: {round} vs {}",
            p.raw()
        );
    }
    // The other direction: logit(sigmoid(2)) is 2 within tolerance.
    let actual = logit(sigmoid(Fx::from_int(2))).raw();
    assert!(approx(actual, 2 * SCALE, 9000), "logit(sigmoid(2)) = {actual}");
}

#[test]
fn test_clip_prob() {
    let epsilon = fx(1, 100);
    assert_eq!(clip_prob(Fx::from_int(1), epsilon).raw(), fx_sub(Fx::one(), epsilon).raw());
    assert_eq!(clip_prob(Fx::zero(), epsilon).raw(), epsilon.raw());
    assert_eq!(clip_prob(fx(3, 10), epsilon).raw(), fx(3, 10).raw());
}

#[test]
fn test_clip_prob_idempotent() {
    // Clipping an already clipped value changes nothing, exactly.
    let epsilon = fx(1, 100);
    for (n, d) in [(-3i64, 2i64), (1, 1000), (3, 10), (1, 2), (99, 100), (7, 2)] {
        let once = clip_prob(fx(n, d), epsilon);
        let twice = clip_prob(once, epsilon);
        assert_eq!(twice.raw(), once.raw());
    }
}

#[test]
fn test_clip_hypercube() {
    let edge = fx(3, 10);
    assert_eq!(clip_hypercube(fx(17, 10), edge).raw(), edge.raw());
    assert_eq!(clip_hypercube(fx(-17, 10), edge).raw(), -edge.raw());
    assert_eq!(clip_hypercube(fx(1, 5), edge).raw(), fx(1, 5).raw());
}

#[test]
fn test_geometric_mixing_in_unit() {
    // The mixture of clipped probabilities stays strictly inside (0, 1).
    let probabilities = vec![fx(3, 10), fx(2, 10), fx(7, 10)];
    let weights = vec![Fx::from_int(3), Fx::from_int(5), Fx::from_int(2)];
    let actual = geometric_mixing(&probabilities, &weights, fx(1, 1000)).raw();
    assert!(0 < actual && actual < SCALE, "mixture = {actual}");
    // The mixture is small here: about 0.00042.
    let expected = (0.00041835158 * SCALE as f64) as i64;
    assert!(approx(actual, expected, 2000), "mixture = {actual}");
}

#[test]
fn test_geometric_mixing_loss() {
    // A prediction of one half loses ln(2) against either target.
    let ln2 = (0.6931472 * SCALE as f64) as i64;
    let half = fx(1, 2);
    assert!(approx(geometric_mixing_loss(1, half).raw(), ln2, 5000));
    assert!(approx(geometric_mixing_loss(0, half).raw(), ln2, 5000));
    // A confident right answer loses little; a confident wrong one loses much.
    let confident = fx(99, 100);
    assert!(geometric_mixing_loss(1, confident).raw() < SCALE / 50);
    assert!(geometric_mixing_loss(0, confident).raw() > 4 * SCALE);
}

#[test]
fn test_norm() {
    let vector = vec![Fx::from_int(3), Fx::from_int(4)];
    assert_eq!(norm(&vector).raw(), 5 * SCALE);
}

#[test]
fn test_accuracy() {
    let predictions = vec![fx(8, 10), fx(3, 10), fx(6, 10)];
    let labels = vec![1, 0, 0];
    assert_eq!(accuracy(&predictions, &labels).raw(), fx(2, 3).raw());
    let all_right = vec![fx(9, 10), fx(1, 10)];
    assert_eq!(accuracy(&all_right, &vec![1, 0]).raw(), SCALE);
}
