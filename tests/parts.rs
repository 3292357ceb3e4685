use random_world::data::{common_arity, feature_count, parse_label, ShapeError};
use random_world::distance::{distance, isqrt, squared_distance};
use random_world::knn::{augmented_scores_of, score};
use random_world::knn::Knn;
use random_world::labels::n_labels_of;
use random_world::pvalue::{
    calibrated_pvalue_of, count_ties, exceeds, rank_pvalue_of, smooth_calibrated_pvalue_of,
    smooth_rank_pvalue_of, PValue, Significance,
};
use random_world::rng::Pcg32;
use random_world::select::{smallest_k, smallest_sum_of, sum_of};
use random_world::store::LabelStore;

const SCALE: u128 = 1 << 32;

#[test]
fn counts_ties() {
    assert_eq!(count_ties(&vec![3, 1, 3, 2, 5], 3), (3, 1, 2));
    assert_eq!(count_ties(&vec![], 3), (0, 0, 0));
}

#[test]
fn rank_pvalue_counts_scores_at_least_the_last() {
    assert_eq!(rank_pvalue_of(&vec![3, 1, 4, 2, 3]), PValue { num: 3, den: 5 });
    // All scores equal: the p-value is one.
    assert_eq!(rank_pvalue_of(&vec![7, 7, 7]), PValue { num: 3, den: 3 });
    // A single score is its own reference.
    assert_eq!(rank_pvalue_of(&vec![9]), PValue { num: 1, den: 1 });
    // The strangest example gets the smallest p-value.
    assert_eq!(rank_pvalue_of(&vec![1, 2, 3, 10]), PValue { num: 1, den: 4 });
}

#[test]
fn smooth_rank_pvalue_weighs_ties_by_the_draw() {
    // Greater: 4; equal: the two 3s.
    let p = smooth_rank_pvalue_of(&vec![3, 1, 4, 2, 3], 1 << 31);
    assert_eq!(p, PValue { num: SCALE + 2 * (1 << 31), den: 5 * SCALE });
    // All equal: the p-value is the draw.
    let u: u32 = 123_456_789;
    assert_eq!(smooth_rank_pvalue_of(&vec![7, 7], u), PValue { num: 2 * u as u128, den: 2 * SCALE });
    assert_eq!(smooth_rank_pvalue_of(&vec![7], 0), PValue { num: 0, den: SCALE });
}

#[test]
fn calibrated_pvalue_counts_the_test_example() {
    assert_eq!(calibrated_pvalue_of(&vec![5, 1, 3, 3], 3), PValue { num: 4, den: 5 });
    assert_eq!(calibrated_pvalue_of(&vec![5, 1, 3, 3], 6), PValue { num: 1, den: 5 });
    // No calibration scores: the p-value is one.
    assert_eq!(calibrated_pvalue_of(&vec![], 6), PValue { num: 1, den: 1 });
    let u: u32 = 1000;
    assert_eq!(
        smooth_calibrated_pvalue_of(&vec![5, 1, 3, 3], 3, u),
        PValue { num: SCALE + 3 * u as u128, den: 5 * SCALE }
    );
    assert_eq!(smooth_calibrated_pvalue_of(&vec![], 3, u), PValue { num: u as u128, den: SCALE });
}

#[test]
fn exceeds_compares_fractions() {
    let quarter = PValue { num: 1, den: 4 };
    assert!(!exceeds(quarter, Significance { num: 3, den: 10 }));
    assert!(exceeds(quarter, Significance { num: 2, den: 10 }));
    assert!(!exceeds(quarter, Significance { num: 1, den: 4 }));
    assert!(exceeds(quarter, Significance { num: 0, den: 1 }));
    assert!(!exceeds(PValue { num: 1, den: 1 }, Significance { num: 1, den: 1 }));
    let big = PValue { num: 1u128 << 95, den: 1u128 << 96 };
    assert!(exceeds(big, Significance { num: u32::MAX / 2, den: u32::MAX }));
    assert!(!exceeds(big, Significance { num: u32::MAX / 2 + 1, den: u32::MAX }));
}

#[test]
fn integer_square_root() {
    assert_eq!(isqrt(0), 0);
    assert_eq!(isqrt(1), 1);
    assert_eq!(isqrt(15), 3);
    assert_eq!(isqrt(16), 4);
    assert_eq!(isqrt(2_000_000), 1414);
    assert_eq!(isqrt(u128::MAX), u64::MAX);
    assert_eq!(isqrt((u64::MAX as u128) * (u64::MAX as u128)), u64::MAX);
}

#[test]
fn euclidean_distance() {
    assert_eq!(squared_distance(&vec![0, 0], &vec![3, 4]), 25);
    assert_eq!(distance(&vec![0, 0], &vec![3, 4]), 5);
    assert_eq!(distance(&vec![3, 4], &vec![0, 0]), 5);
    assert_eq!(distance(&vec![1, -2, 3], &vec![1, -2, 3]), 0);
    assert_eq!(distance(&vec![], &vec![]), 0);
    assert_eq!(distance(&vec![1000, 0], &vec![0, 1000]), 1414);
    let far = squared_distance(&vec![i32::MIN, i32::MIN], &vec![i32::MAX, i32::MAX]);
    assert_eq!(far, 2 * (u32::MAX as u128) * (u32::MAX as u128));
    assert_eq!(distance(&vec![i32::MIN], &vec![i32::MAX]), u32::MAX as u64);
}

#[test]
fn smallest_entries_in_order() {
    assert_eq!(smallest_k(&vec![5, 1, 4, 1, 3], 3), vec![1, 1, 3]);
    assert_eq!(smallest_k(&vec![5, 1, 4], 7), vec![1, 4, 5]);
    assert_eq!(smallest_k(&vec![5, 1, 4], 0), Vec::<u64>::new());
    assert_eq!(smallest_k(&vec![], 2), Vec::<u64>::new());
    assert_eq!(smallest_sum_of(&vec![5, 1, 4, 1, 3], 3), 5);
    assert_eq!(sum_of(&vec![u64::MAX, u64::MAX]), 2 * u64::MAX as u128);
}

#[test]
fn knn_scores() {
    let rows = vec![vec![0, 0], vec![1000, 0], vec![0, 1000]];
    assert_eq!(score(&rows, &vec![2000, 1000], 2), 1414 + 2000);
    assert_eq!(score(&rows, &vec![2000, 1000], 1), 1414);
    assert_eq!(score(&rows, &vec![2000, 1000], 10), 1414 + 2000 + 2236);
    assert_eq!(augmented_scores_of(&rows, &vec![2000, 1000], 2), vec![2000, 2414, 2414, 3414]);
    // With one row, each member of the augmented pair has one neighbour.
    assert_eq!(augmented_scores_of(&vec![vec![0, 0]], &vec![3, 4], 5), vec![5, 5]);
    assert_eq!(augmented_scores_of(&vec![], &vec![3, 4], 5), vec![0]);
}

#[test]
fn store_splits_and_appends_by_label() {
    let rows = vec![vec![1, 1], vec![2, 2], vec![3, 3], vec![4, 4]];
    let labels = vec![1, 0, 1, 1];
    let mut s = LabelStore::split(&rows, &labels, 3);
    assert_eq!(s.n_labels(), 3);
    assert_eq!(s.width(), 2);
    assert_eq!(s.rows_of(0), &vec![vec![2, 2]]);
    assert_eq!(s.rows_of(1), &vec![vec![1, 1], vec![3, 3], vec![4, 4]]);
    assert!(s.rows_of(2).is_empty());
    s.append(&vec![vec![5, 5], vec![6, 6]], &vec![2, 0]);
    assert_eq!(s.rows_of(0), &vec![vec![2, 2], vec![6, 6]]);
    assert_eq!(s.rows_of(2), &vec![vec![5, 5]]);
    assert_eq!(s.bucket_len(1), 3);
    assert!(!s.is_empty());
}

#[test]
fn empty_store_takes_the_width_of_its_first_rows() {
    let mut s = LabelStore::split(&vec![], &vec![], 2);
    assert!(s.is_empty());
    s.append(&vec![vec![1, 2, 3]], &vec![1]);
    assert_eq!(s.width(), 3);
    assert_eq!(s.rows_of(1), &vec![vec![1, 2, 3]]);
}

#[test]
fn generator_matches_the_reference_stream() {
    let mut g = Pcg32::new(42, 54);
    let out: Vec<u32> = (0..6).map(|_| g.next_u32()).collect();
    assert_eq!(out, vec![0xa15c02b7, 0x7b47f409, 0xba1d3330, 0x83d2f293, 0xbfa4784b, 0xcbed606e]);
    let mut a = Pcg32::unseeded();
    let mut b = Pcg32::unseeded();
    assert_eq!(a.next_u32(), b.next_u32());
}

#[test]
fn label_count() {
    assert_eq!(n_labels_of(&vec![0, 1, 1, 2, 0], None), 3);
    assert_eq!(n_labels_of(&vec![0, 1, 1, 2, 0], Some(5)), 5);
    assert_eq!(n_labels_of(&vec![], None), 0);
}

#[test]
fn store_lists_rows_label_by_label() {
    let rows = vec![vec![1], vec![2], vec![3]];
    let s = LabelStore::split(&rows, &vec![1, 0, 1], 2);
    assert_eq!(s.all_rows(), vec![(vec![2], 0), (vec![1], 1), (vec![3], 1)]);
}

#[test]
fn labels_parse_as_decimal_integers() {
    assert_eq!(parse_label("0"), Some(0));
    assert_eq!(parse_label("17"), Some(17));
    assert_eq!(parse_label("+3"), Some(3));
    assert_eq!(parse_label(""), None);
    assert_eq!(parse_label("+"), None);
    assert_eq!(parse_label("-1"), None);
    assert_eq!(parse_label("1.0"), None);
    assert_eq!(parse_label(" 1"), None);
    assert_eq!(parse_label("18446744073709551615"), Some(usize::MAX));
    assert_eq!(parse_label("18446744073709551616"), None);
}

#[test]
fn records_share_one_arity() {
    assert_eq!(feature_count(&vec![3, 3, 3]), Ok(2));
    assert_eq!(feature_count(&vec![2]), Ok(1));
    assert_eq!(feature_count(&vec![1]), Err(ShapeError::NoFeatures));
    assert_eq!(feature_count(&vec![1, 1, 1]), Err(ShapeError::NoFeatures));
    assert_eq!(feature_count(&vec![1, 2]), Err(ShapeError::WrongArity(1)));
    assert_eq!(feature_count(&vec![]), Err(ShapeError::NoRecords));
    assert_eq!(feature_count(&vec![0, 0]), Err(ShapeError::EmptyRecord));
    assert_eq!(feature_count(&vec![3, 3, 2, 4]), Err(ShapeError::WrongArity(2)));
    assert_eq!(common_arity(&vec![1, 1]), Ok(1));
    assert_eq!(common_arity(&vec![5]), Ok(5));
    assert_eq!(common_arity(&vec![]), Err(ShapeError::NoRecords));
    assert_eq!(common_arity(&vec![0]), Err(ShapeError::EmptyRecord));
    assert_eq!(common_arity(&vec![2, 2, 3]), Err(ShapeError::WrongArity(2)));
}

#[test]
fn knn_measure_lifecycle() {
    let mut m = Knn::new(1);
    assert!(!m.trained());
    m.train(&vec![vec![0, 0], vec![10, 0]], &vec![0, 1], 2);
    assert!(m.trained() && !m.calibrated());
    assert_eq!(m.k(), 1);
    assert_eq!(m.score_test(&vec![3, 4], 0), 5);
    assert_eq!(m.scores_augmented(&vec![3, 4], 0), vec![5, 5]);
    m.update(&vec![vec![0, 3]], &vec![0]);
    assert_eq!(m.score_test(&vec![3, 4], 0), 3);
    assert_eq!(m.scores_augmented(&vec![3, 4], 0), vec![3, 3, 3]);
    m.calibrate(&vec![vec![0, 1], vec![10, 1]], &vec![0, 1]);
    assert!(m.calibrated());
    assert_eq!(m.scores_calibration(0), vec![1]);
    assert_eq!(m.scores_calibration(1), vec![1]);
}
