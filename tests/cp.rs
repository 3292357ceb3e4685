use random_world::cp::CP;
use random_world::knn::Knn;
use random_world::pvalue::{PValue, Significance};
use random_world::rng::Pcg32;

const SCALE: f64 = 1000.0;

fn fixed(rows: &[&[f64]]) -> Vec<Vec<i32>> {
    rows.iter()
        .map(|r| r.iter().map(|v| (v * SCALE).round() as i32).collect())
        .collect()
}

fn as_f64(p: &Vec<Vec<PValue>>) -> Vec<Vec<f64>> {
    p.iter().map(|r| r.iter().map(|v| v.num as f64 / v.den as f64).collect()).collect()
}

fn significance(num: u32, den: u32) -> Significance {
    Significance { num, den }
}

fn problem() -> (Vec<Vec<i32>>, Vec<usize>, Vec<Vec<i32>>) {
    let train = fixed(&[&[0., 0.], &[1., 0.], &[0., 1.], &[1., 1.], &[2., 2.], &[1., 2.]]);
    let targets = vec![0, 0, 0, 1, 1, 1];
    let test = fixed(&[&[2., 1.], &[2., 2.]]);
    (train, targets, test)
}

#[test]
fn cp() {
    let ncm = Knn::new(2);
    let n_labels = 2;
    let mut cp = CP::new(ncm, n_labels, Some(significance(1, 10)));
    let (train_inputs, train_targets, test_inputs) = problem();
    let expected_pvalues = vec![vec![0.25, 1.], vec![0.25, 1.]];
    let expected_preds_1 = vec![vec![false, true], vec![false, true]];
    let expected_preds_2 = vec![vec![true, true], vec![true, true]];

    cp.train(&train_inputs, &train_targets);
    let pvalues = cp.predict_confidence(&test_inputs);
    assert_eq!(as_f64(&pvalues), expected_pvalues);

    cp.set_epsilon(significance(3, 10));
    assert_eq!(cp.predict(&test_inputs), expected_preds_1);
    cp.set_epsilon(significance(2, 10));
    assert_eq!(cp.predict(&test_inputs), expected_preds_2);
}

#[test]
fn pvalues_are_exact_fractions() {
    let mut cp = CP::new(Knn::new(2), 2, None);
    let (train_inputs, train_targets, test_inputs) = problem();
    cp.train(&train_inputs, &train_targets);
    let p = cp.predict_confidence(&test_inputs);
    assert_eq!(p[0][0], PValue { num: 1, den: 4 });
    assert_eq!(p[0][1], PValue { num: 4, den: 4 });
    assert_eq!(p[1][0], PValue { num: 1, den: 4 });
    assert_eq!(p[1][1], PValue { num: 4, den: 4 });
}

#[test]
fn update_equivalence() {
    let (train_inputs, train_targets, test_inputs) = problem();
    let mut cp = CP::new(Knn::new(2), 2, Some(significance(1, 10)));
    cp.train(&train_inputs[0..3].to_vec(), &train_targets[0..3].to_vec());
    cp.update(&train_inputs[3..4].to_vec(), &train_targets[3..4].to_vec());
    cp.update(&train_inputs[4..6].to_vec(), &train_targets[4..6].to_vec());

    let mut cp_alt = CP::new(Knn::new(2), 2, Some(significance(1, 10)));
    cp_alt.train(&train_inputs, &train_targets);

    assert_eq!(cp.predict_confidence(&test_inputs), cp_alt.predict_confidence(&test_inputs));
    assert_eq!(cp.predict(&train_inputs), cp_alt.predict(&train_inputs));
}

#[test]
fn update_equivalence_three_labels() {
    let mut cp = CP::new(Knn::new(2), 3, Some(significance(1, 10)));
    let train_inputs_1 = fixed(&[&[0., 0.], &[0., 1.], &[2., 2.]]);
    let train_targets_1 = vec![0, 1, 2];
    let train_inputs_2 = fixed(&[&[1., 1.]]);
    let train_targets_2 = vec![0];
    let train_inputs_3 = fixed(&[&[1., 2.], &[2., 1.]]);
    let train_targets_3 = vec![1, 2];
    cp.train(&train_inputs_1, &train_targets_1);
    cp.update(&train_inputs_2, &train_targets_2);
    cp.update(&train_inputs_3, &train_targets_3);

    let mut cp_alt = CP::new(Knn::new(2), 3, Some(significance(1, 10)));
    let train_inputs =
        fixed(&[&[0., 0.], &[0., 1.], &[2., 2.], &[1., 1.], &[1., 2.], &[2., 1.]]);
    let train_targets = vec![0, 1, 2, 0, 1, 2];
    cp_alt.train(&train_inputs, &train_targets);

    let preds = cp.predict(&train_inputs);
    let preds_alt = cp_alt.predict(&train_inputs);
    assert!(preds == preds_alt);
}

#[test]
fn region_matches_pvalues() {
    let (train_inputs, train_targets, test_inputs) = problem();
    for (num, den) in [(0u32, 1u32), (1, 4), (1, 5), (3, 10), (1, 1)] {
        let e = significance(num, den);
        let mut cp = CP::new(Knn::new(2), 2, Some(e));
        cp.train(&train_inputs, &train_targets);
        let p = cp.predict_confidence(&test_inputs);
        let r = cp.predict(&test_inputs);
        for i in 0..p.len() {
            for y in 0..2 {
                let above = (p[i][y].num as f64 / p[i][y].den as f64) > num as f64 / den as f64;
                assert_eq!(r[i][y], above);
            }
        }
    }
}

#[test]
fn zero_epsilon_gives_every_label() {
    let (train_inputs, train_targets, test_inputs) = problem();
    let mut cp = CP::new(Knn::new(2), 2, Some(significance(0, 1)));
    cp.train(&train_inputs, &train_targets);
    assert_eq!(cp.predict(&test_inputs), vec![vec![true, true], vec![true, true]]);
    // At level 1 no p-value is above the level.
    cp.set_epsilon(significance(1, 1));
    assert_eq!(cp.predict(&test_inputs), vec![vec![false, false], vec![false, false]]);
}

#[test]
fn smooth_is_reproducible_with_a_seed() {
    let (train_inputs, train_targets, test_inputs) = problem();
    let run = |seed: [u64; 2]| {
        let mut cp = CP::new_smooth(Knn::new(2), 2, None, Some(seed));
        cp.train(&train_inputs, &train_targets);
        let first = cp.predict_confidence(&test_inputs);
        let second = cp.predict_confidence(&test_inputs);
        (first, second)
    };
    let (a1, a2) = run([0, 1]);
    let (b1, b2) = run([0, 1]);
    assert_eq!(a1, b1);
    assert_eq!(a2, b2);
    // The generator moves on between predictions.
    assert_ne!(a1, a2);
    for row in a1.iter().chain(a2.iter()) {
        for p in row {
            assert!(p.num <= p.den);
        }
    }
}

#[test]
fn smooth_pvalue_uses_the_generator_draws() {
    let (train_inputs, train_targets, test_inputs) = problem();
    let mut cp = CP::new_smooth(Knn::new(2), 2, None, Some([7, 9]));
    cp.train(&train_inputs, &train_targets);
    let p = cp.predict_confidence(&test_inputs);
    let mut g = Pcg32::new(7, 9);
    let draws: Vec<u128> = (0..4).map(|_| g.next_u32() as u128).collect();
    let scale: u128 = 1 << 32;
    // Label 0: the test score is the only largest of four; label 1: all four tie.
    assert_eq!(p[0][0], PValue { num: draws[0], den: 4 * scale });
    assert_eq!(p[0][1], PValue { num: 4 * draws[1], den: 4 * scale });
    assert_eq!(p[1][0], PValue { num: draws[2], den: 4 * scale });
    // Second test row, label 1: scores 2414, 1000, 2000 and 1000 for the test row.
    assert_eq!(p[1][1], PValue { num: 2 * scale + 2 * draws[3], den: 4 * scale });
}

fn icp_data() -> (Vec<Vec<i32>>, Vec<usize>, Vec<Vec<i32>>, Vec<usize>, Vec<Vec<i32>>) {
    let x_tr = fixed(&[&[0., 0.], &[1., 0.], &[0., 1.], &[1., 1.], &[2., 2.], &[1., 2.]]);
    let y_tr = vec![0, 0, 0, 1, 1, 1];
    let x_cal = fixed(&[&[0.5, 0.], &[0., 0.5], &[1.5, 1.5], &[2., 1.5]]);
    let y_cal = vec![0, 0, 1, 1];
    let x_te = fixed(&[&[2., 1.], &[0., 0.], &[3., 3.]]);
    (x_tr, y_tr, x_cal, y_cal, x_te)
}

#[test]
fn icp_determinism() {
    let (x_tr, y_tr, x_cal, y_cal, x_te) = icp_data();
    let mut cp = CP::new_inductive(Knn::new(2), 2, Some(significance(1, 10)));
    cp.train(&x_tr, &y_tr);
    cp.calibrate(&x_cal, &y_cal);
    let first = cp.predict_confidence(&x_te);
    let second = cp.predict_confidence(&x_te);
    assert_eq!(first, second);
    assert_eq!(cp.predict(&x_te), cp.predict(&x_te));
}

#[test]
fn icp_pvalues() {
    let (x_tr, y_tr, x_cal, y_cal, x_te) = icp_data();
    let mut cp = CP::new_inductive(Knn::new(2), 2, None);
    cp.train(&x_tr, &y_tr);
    cp.calibrate(&x_cal, &y_cal);
    let p = cp.predict_confidence(&x_te);
    // Label 0 calibration scores: 500 + 500 and 500 + 500; label 1: 707 + 707
    // and 500 + 1118 (distances rounded down).
    // [0, 0] against label 0 scores 0 + 1000: it ties with both calibration scores.
    assert_eq!(p[1][0], PValue { num: 3, den: 3 });
    // [2, 1] against label 0 scores 1414 + 2000, above both: p = 1 / 3.
    assert_eq!(p[0][0], PValue { num: 1, den: 3 });
    // [3, 3] against label 1 scores 1414 + 2236, above both.
    assert_eq!(p[2][1], PValue { num: 1, den: 3 });
}

#[test]
fn icp_without_calibration_rows_gives_one() {
    let (x_tr, y_tr, _, _, x_te) = icp_data();
    let mut cp = CP::new_inductive(Knn::new(2), 2, None);
    cp.train(&x_tr, &y_tr);
    cp.calibrate(&Vec::new(), &Vec::new());
    let p = cp.predict_confidence(&x_te);
    for row in &p {
        for v in row {
            assert_eq!(*v, PValue { num: 1, den: 1 });
        }
    }
}

#[test]
fn smooth_icp_is_reproducible() {
    let (x_tr, y_tr, x_cal, y_cal, x_te) = icp_data();
    let run = || {
        let mut cp = CP::new_inductive_smooth(Knn::new(2), 2, None, Some([3, 4]));
        cp.train(&x_tr, &y_tr);
        cp.calibrate(&x_cal, &y_cal);
        cp.predict_confidence(&x_te)
    };
    let a = run();
    assert_eq!(a, run());
    for row in &a {
        for p in row {
            assert!(p.num <= p.den && p.den > 0);
        }
    }
}
