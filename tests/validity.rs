use random_world::cp::CP;
use random_world::knn::Knn;
use random_world::pvalue::{exceeds, Significance};
use random_world::rng::Pcg32;

/// Exchangeable two-label data: each row is its label's corner plus uniform noise.
fn sample(g: &mut Pcg32, n: usize) -> (Vec<Vec<i32>>, Vec<usize>) {
    let mut rows = Vec::new();
    let mut labels = Vec::new();
    for _ in 0..n {
        let y = (g.next_u32() % 2) as usize;
        let base = 1000 * y as i32;
        let a = base + (g.next_u32() % 2000) as i32;
        let b = base + (g.next_u32() % 2000) as i32;
        rows.push(vec![a, b]);
        labels.push(y);
    }
    (rows, labels)
}

fn error_rate(cp: &mut CP, rows: &Vec<Vec<i32>>, labels: &Vec<usize>, e: Significance) -> f64 {
    let p = cp.predict_confidence(rows);
    let errors = (0..rows.len()).filter(|&i| !exceeds(p[i][labels[i]], e)).count();
    errors as f64 / rows.len() as f64
}

#[test]
fn inductive_error_rate_is_at_most_epsilon() {
    let e = Significance { num: 1, den: 5 };
    let mut g = Pcg32::new(11, 3);
    let (x_tr, y_tr) = sample(&mut g, 100);
    let (x_cal, y_cal) = sample(&mut g, 300);
    let (x_te, y_te) = sample(&mut g, 500);
    let mut cp = CP::new_inductive(Knn::new(3), 2, Some(e));
    cp.train(&x_tr, &y_tr);
    cp.calibrate(&x_cal, &y_cal);
    let rate = error_rate(&mut cp, &x_te, &y_te, e);
    assert!(rate <= 0.2 + 0.06, "error rate {}", rate);
}

#[test]
fn smooth_inductive_error_rate_is_epsilon() {
    let e = Significance { num: 1, den: 5 };
    let mut g = Pcg32::new(5, 8);
    let (x_tr, y_tr) = sample(&mut g, 100);
    let (x_cal, y_cal) = sample(&mut g, 300);
    let (x_te, y_te) = sample(&mut g, 500);
    let mut cp = CP::new_inductive_smooth(Knn::new(3), 2, Some(e), Some([1, 2]));
    cp.train(&x_tr, &y_tr);
    cp.calibrate(&x_cal, &y_cal);
    let rate = error_rate(&mut cp, &x_te, &y_te, e);
    assert!((rate - 0.2).abs() <= 0.06, "error rate {}", rate);
}

#[test]
fn online_smooth_error_rate_is_epsilon() {
    let e = Significance { num: 1, den: 5 };
    let mut g = Pcg32::new(21, 1);
    let (rows, labels) = sample(&mut g, 160);
    let mut cp = CP::new_smooth(Knn::new(1), 2, Some(e), Some([0, 7]));
    cp.train(&rows[0..10].to_vec(), &labels[0..10].to_vec());
    let mut errors = 0;
    for i in 10..rows.len() {
        let x = vec![rows[i].clone()];
        let p = cp.predict_confidence(&x);
        if !exceeds(p[0][labels[i]], e) {
            errors += 1;
        }
        cp.update(&x, &vec![labels[i]]);
    }
    let rate = errors as f64 / 150.0;
    assert!((rate - 0.2).abs() <= 0.12, "error rate {}", rate);
}
