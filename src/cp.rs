//! Conformal predictors, transductive or inductive, deterministic or smoothed.
use vstd::prelude::*;
use crate::knn::{Knn, augmented_scores, calibration_scores, knn_score};
use crate::pvalue::{
    PValue,
    Significance,
    above,
    calibrated_pvalue,
    calibrated_pvalue_of,
    exceeds,
    rank_pvalue,
    rank_pvalue_of,
    smooth_calibrated_pvalue,
    smooth_calibrated_pvalue_of,
    smooth_rank_pvalue,
    smooth_rank_pvalue_of,
};
use crate::rng::{Pcg32, advance, draw_at, seeded};
use crate::store::{
    all_width,
    appended_view,
    labels_below,
    lemma_bucket_concat,
    rows_view,
    split_view,
};

verus! {

/// The transductive p-value of label `y` for the test row `x`: the rank of the
/// score of `x` among the scores of the label-`y` training rows augmented by `x`.
/// A smoothed p-value breaks ties with the draw `u`.
pub open spec fn tcp_pvalue(
    train: Seq<Seq<Seq<i32>>>,
    x: Seq<i32>,
    y: int,
    k: nat,
    smooth: bool,
    u: u32,
) -> PValue {
    let scores = augmented_scores(train[y], x, k);
    if smooth {
        smooth_rank_pvalue(scores, u)
    } else {
        rank_pvalue(scores)
    }
}

/// The inductive p-value of label `y` for the test row `x`: the rank of the score
/// of `x` against the label-`y` training rows among the scores of the label-`y`
/// calibration rows.
pub open spec fn icp_pvalue(
    train: Seq<Seq<Seq<i32>>>,
    cal: Seq<Seq<Seq<i32>>>,
    x: Seq<i32>,
    y: int,
    k: nat,
    smooth: bool,
    u: u32,
) -> PValue {
    let c = calibration_scores(train[y], cal[y], k);
    let a = knn_score(train[y], x, k) as u128;
    if smooth {
        smooth_calibrated_pvalue(c, a, u)
    } else {
        calibrated_pvalue(c, a)
    }
}

/// The contents of a matrix held as a vector of rows.
pub open spec fn matrix_view<T>(m: Seq<Vec<T>>) -> Seq<Seq<T>> {
    m.map_values(|r: Vec<T>| r@)
}

/// The region matrix of a p-value matrix at level `e`.
pub open spec fn regions(p: Seq<Seq<PValue>>, e: Significance) -> Seq<Seq<bool>> {
    Seq::new(p.len(), |i: int| Seq::new(p[i].len(), |y: int| above(p[i][y], e)))
}

/// A conformal predictor over a k-NN nonconformity measure.
///
/// It is transductive, or inductive when made by `new_inductive` or
/// `new_inductive_smooth`; a smoothed one owns a generator whose draws break
/// ties, consumed test row by test row and label by label.
pub struct CP {
    ncm: Knn,
    epsilon: Option<Significance>,
    smooth: bool,
    rng: Option<Pcg32>,
    n_labels: usize,
    /// `None` for a transductive predictor; for an inductive one, whether it
    /// has been calibrated.
    calibrated: Option<bool>,
}

impl CP {
    pub closed spec fn ncm_spec(&self) -> Knn {
        self.ncm
    }

    pub closed spec fn epsilon_spec(&self) -> Option<Significance> {
        self.epsilon
    }

    pub closed spec fn is_smooth(&self) -> bool {
        self.smooth
    }

    pub closed spec fn is_inductive(&self) -> bool {
        self.calibrated is Some
    }

    pub closed spec fn n_labels_spec(&self) -> nat {
        self.n_labels as nat
    }

    /// The generator of a smoothed predictor.
    pub closed spec fn generator(&self) -> Pcg32 {
        self.rng.unwrap()
    }

    pub open spec fn is_trained(&self) -> bool {
        self.ncm_spec().is_trained()
    }

    pub open spec fn is_calibrated(&self) -> bool {
        self.ncm_spec().is_calibrated()
    }

    /// The training rows by label.
    pub open spec fn train_view(&self) -> Seq<Seq<Seq<i32>>> {
        self.ncm_spec().train_view()
    }

    pub closed spec fn wf(&self) -> bool {
        &&& self.ncm.wf()
        &&& self.smooth <==> self.rng is Some
        &&& self.ncm.is_trained() ==> self.ncm.n_labels_spec() == self.n_labels
        &&& self.ncm.is_calibrated() <==> self.calibrated == Some(true)
        &&& self.epsilon is Some ==> self.epsilon.unwrap().valid()
    }

    /// Predictions are allowed: trained, and calibrated if inductive.
    pub open spec fn ready(&self) -> bool {
        &&& self.is_trained()
        &&& self.is_inductive() ==> self.is_calibrated()
    }

    /// The uniform draw used for entry `t` (row-major) of the next prediction.
    pub open spec fn draw(&self, t: nat) -> u32 {
        if self.is_smooth() {
            draw_at(self.generator(), t)
        } else {
            0
        }
    }

    /// The p-value of label `y` for the test row `x`, with the draw `u` if smoothed.
    pub open spec fn pvalue_spec(&self, x: Seq<i32>, y: int, u: u32) -> PValue {
        let k = self.ncm_spec().k_spec();
        if self.is_inductive() {
            icp_pvalue(
                self.train_view(),
                self.ncm_spec().calibration_view(),
                x,
                y,
                k,
                self.is_smooth(),
                u,
            )
        } else {
            tcp_pvalue(self.train_view(), x, y, k, self.is_smooth(), u)
        }
    }

    /// The p-value matrix the predictor gives for `test` in its current state.
    pub open spec fn expected_pvalues(&self, test: Seq<Seq<i32>>) -> Seq<Seq<PValue>> {
        let l = self.n_labels_spec();
        Seq::new(
            test.len(),
            |i: int| Seq::new(l, |y: int| self.pvalue_spec(test[i], y, self.draw((i * l + y) as nat))),
        )
    }

    /// Every test row can be scored against the training rows.
    pub open spec fn fits_all(&self, test: Seq<Seq<i32>>) -> bool {
        forall|i: int| 0 <= i < test.len() ==> self.ncm_spec().fits(#[trigger] test[i])
    }

    /// The state after a prediction over `n` test rows: only the generator moved,
    /// by one draw per test row and label.
    pub open spec fn after_predicting(&self, other: &CP, n: nat) -> bool {
        &&& other.ncm_spec() == self.ncm_spec()
        &&& other.epsilon_spec() == self.epsilon_spec()
        &&& other.is_smooth() == self.is_smooth()
        &&& other.is_inductive() == self.is_inductive()
        &&& other.n_labels_spec() == self.n_labels_spec()
        &&& self.is_smooth() ==> other.generator() == advance(
            self.generator(),
            n * self.n_labels_spec(),
        )
    }

    fn make(
        ncm: Knn,
        n_labels: usize,
        epsilon: Option<Significance>,
        rng: Option<Pcg32>,
        calibrated: Option<bool>,
    ) -> (cp: CP)
        requires
            ncm.wf(),
            !ncm.is_trained(),
            !ncm.is_calibrated(),
            epsilon is Some ==> epsilon.unwrap().valid(),
            calibrated != Some(true),
        ensures
            cp.wf(),
            cp.ncm_spec() == ncm,
            cp.n_labels_spec() == n_labels,
            cp.epsilon_spec() == epsilon,
            cp.is_smooth() == rng is Some,
            rng is Some ==> cp.generator() == rng.unwrap(),
            cp.is_inductive() == calibrated is Some,
    {
        CP { ncm, epsilon, smooth: rng.is_some(), rng, n_labels, calibrated }
    }

    /// A deterministic transductive predictor with `n_labels` labels.
    pub fn new(ncm: Knn, n_labels: usize, epsilon: Option<Significance>) -> (cp: CP)
        requires
            n_labels > 0,
            ncm.wf(),
            !ncm.is_trained(),
            !ncm.is_calibrated(),
            epsilon is Some ==> epsilon.unwrap().valid(),
        ensures
            cp.wf(),
            cp.ncm_spec() == ncm,
            cp.n_labels_spec() == n_labels,
            cp.epsilon_spec() == epsilon,
            !cp.is_smooth(),
            !cp.is_inductive(),
    {
        CP::make(ncm, n_labels, epsilon, None, None)
    }

    /// A smoothed transductive predictor whose generator is seeded with
    /// `seed`, or takes the default state when there is none.
    pub fn new_smooth(ncm: Knn, n_labels: usize, epsilon: Option<Significance>, seed: Option<[u64; 2]>) -> (cp: CP)
        requires
            ncm.wf(),
            !ncm.is_trained(),
            !ncm.is_calibrated(),
            epsilon is Some ==> epsilon.unwrap().valid(),
        ensures
            cp.wf(),
            cp.ncm_spec() == ncm,
            cp.n_labels_spec() == n_labels,
            cp.epsilon_spec() == epsilon,
            cp.is_smooth(),
            !cp.is_inductive(),
            cp.generator() == generator_for(seed),
    {
        let g = generator_from(seed);
        CP::make(ncm, n_labels, epsilon, Some(g), None)
    }

    /// A deterministic inductive predictor with `n_labels` labels.
    pub fn new_inductive(ncm: Knn, n_labels: usize, epsilon: Option<Significance>) -> (cp: CP)
        requires
            n_labels > 0,
            ncm.wf(),
            !ncm.is_trained(),
            !ncm.is_calibrated(),
            epsilon is Some ==> epsilon.unwrap().valid(),
        ensures
            cp.wf(),
            cp.ncm_spec() == ncm,
            cp.n_labels_spec() == n_labels,
            cp.epsilon_spec() == epsilon,
            !cp.is_smooth(),
            cp.is_inductive(),
    {
        CP::make(ncm, n_labels, epsilon, None, Some(false))
    }

    /// A smoothed inductive predictor, its generator seeded as in `new_smooth`.
    pub fn new_inductive_smooth(
        ncm: Knn,
        n_labels: usize,
        epsilon: Option<Significance>,
        seed: Option<[u64; 2]>,
    ) -> (cp: CP)
        requires
            n_labels > 0,
            ncm.wf(),
            !ncm.is_trained(),
            !ncm.is_calibrated(),
            epsilon is Some ==> epsilon.unwrap().valid(),
        ensures
            cp.wf(),
            cp.ncm_spec() == ncm,
            cp.n_labels_spec() == n_labels,
            cp.epsilon_spec() == epsilon,
            cp.is_smooth(),
            cp.is_inductive(),
            cp.generator() == generator_for(seed),
    {
        let g = generator_from(seed);
        CP::make(ncm, n_labels, epsilon, Some(g), Some(false))
    }

    /// The significance level, if set.
    pub fn epsilon(&self) -> (r: Option<Significance>)
        ensures
            r == self.epsilon_spec(),
    {
        self.epsilon
    }

    /// The number of labels.
    pub fn n_labels(&self) -> (r: usize)
        ensures
            r == self.n_labels_spec(),
    {
        self.n_labels
    }

    /// Whether the predictor is smoothed.
    pub fn smooth(&self) -> (r: bool)
        ensures
            r == self.is_smooth(),
    {
        self.smooth
    }

    /// Whether the predictor is inductive.
    pub fn inductive(&self) -> (r: bool)
        ensures
            r == self.is_inductive(),
    {
        self.calibrated.is_some()
    }

    /// The nonconformity measure.
    pub fn ncm(&self) -> (r: &Knn)
        ensures
            *r == self.ncm_spec(),
    {
        &self.ncm
    }

    /// Sets the significance level.
    pub fn set_epsilon(&mut self, epsilon: Significance)
        requires
            old(self).wf(),
            epsilon.valid(),
        ensures
            final(self).wf(),
            final(self).epsilon_spec() == Some(epsilon),
            final(self).ncm_spec() == old(self).ncm_spec(),
            final(self).is_smooth() == old(self).is_smooth(),
            final(self).is_inductive() == old(self).is_inductive(),
            final(self).n_labels_spec() == old(self).n_labels_spec(),
            old(self).is_smooth() ==> final(self).generator() == old(self).generator(),
    {
        self.epsilon = Some(epsilon);
    }

    /// Trains the predictor on labelled rows of one width.
    pub fn train(&mut self, inputs: &Vec<Vec<i32>>, targets: &Vec<usize>)
        requires
            old(self).wf(),
            !old(self).is_trained(),
            inputs@.len() == targets@.len(),
            labels_below(targets@, old(self).n_labels_spec()),
            inputs@.len() == 0 || all_width(rows_view(inputs@), inputs@[0]@.len()),
        ensures
            final(self).wf(),
            final(self).is_trained(),
            final(self).train_view() == split_view(
                rows_view(inputs@),
                targets@,
                old(self).n_labels_spec(),
            ),
            inputs@.len() > 0 ==> final(self).ncm_spec().train_store().width_spec()
                == inputs@[0]@.len(),
            inputs@.len() == 0 ==> final(self).ncm_spec().train_store().is_empty_spec(),
            final(self).is_calibrated() == old(self).is_calibrated(),
            final(self).ncm_spec().k_spec() == old(self).ncm_spec().k_spec(),
            final(self).epsilon_spec() == old(self).epsilon_spec(),
            final(self).is_smooth() == old(self).is_smooth(),
            final(self).is_inductive() == old(self).is_inductive(),
            final(self).n_labels_spec() == old(self).n_labels_spec(),
            old(self).is_smooth() ==> final(self).generator() == old(self).generator(),
    {
        self.ncm.train(inputs, targets, self.n_labels);
    }

    /// Adds labelled rows to the training rows.
    pub fn update(&mut self, inputs: &Vec<Vec<i32>>, targets: &Vec<usize>)
        requires
            old(self).wf(),
            old(self).is_trained(),
            inputs@.len() == targets@.len(),
            labels_below(targets@, old(self).n_labels_spec()),
            old(self).ncm_spec().admits(rows_view(inputs@)),
        ensures
            final(self).wf(),
            final(self).is_trained(),
            final(self).train_view() == appended_view(
                old(self).train_view(),
                rows_view(inputs@),
                targets@,
            ),
            final(self).is_calibrated() == old(self).is_calibrated(),
            final(self).ncm_spec().calibration_view() == old(self).ncm_spec().calibration_view(),
            final(self).ncm_spec().calibration_store() == old(self).ncm_spec().calibration_store(),
            final(self).ncm_spec().train_store().width_spec() == old(self).ncm_spec().train_store().width_after(
                rows_view(inputs@),
            ),
            final(self).ncm_spec().k_spec() == old(self).ncm_spec().k_spec(),
            final(self).epsilon_spec() == old(self).epsilon_spec(),
            final(self).is_smooth() == old(self).is_smooth(),
            final(self).is_inductive() == old(self).is_inductive(),
            final(self).n_labels_spec() == old(self).n_labels_spec(),
            old(self).is_smooth() ==> final(self).generator() == old(self).generator(),
    {
        self.ncm.update(inputs, targets);
    }

    /// Calibrates an inductive predictor on labelled rows of the training width.
    pub fn calibrate(&mut self, inputs: &Vec<Vec<i32>>, targets: &Vec<usize>)
        requires
            old(self).wf(),
            old(self).is_inductive(),
            old(self).is_trained(),
            inputs@.len() == targets@.len(),
            labels_below(targets@, old(self).n_labels_spec()),
            inputs@.len() == 0 || all_width(rows_view(inputs@), inputs@[0]@.len()),
            forall|i: int|
                0 <= i < inputs@.len() ==> old(self).ncm_spec().fits(#[trigger] inputs@[i]@),
        ensures
            final(self).wf(),
            final(self).is_trained(),
            final(self).is_calibrated(),
            final(self).train_view() == old(self).train_view(),
            final(self).ncm_spec().train_store() == old(self).ncm_spec().train_store(),
            final(self).ncm_spec().calibration_view() == split_view(
                rows_view(inputs@),
                targets@,
                old(self).n_labels_spec(),
            ),
            inputs@.len() > 0 ==> final(self).ncm_spec().calibration_store().width_spec()
                == inputs@[0]@.len(),
            final(self).ncm_spec().k_spec() == old(self).ncm_spec().k_spec(),
            final(self).epsilon_spec() == old(self).epsilon_spec(),
            final(self).is_smooth() == old(self).is_smooth(),
            final(self).is_inductive(),
            final(self).n_labels_spec() == old(self).n_labels_spec(),
            old(self).is_smooth() ==> final(self).generator() == old(self).generator(),
    {
        self.calibrated = Some(true);
        self.ncm.calibrate(inputs, targets);
    }

    /// The calibration scores of every label, computed once for a prediction.
    fn calibration_table(&self) -> (r: Vec<Vec<u128>>)
        requires
            self.wf(),
            self.is_calibrated(),
        ensures
            r@.len() == self.n_labels_spec(),
            forall|y: int|
                0 <= y < self.n_labels_spec() ==> (#[trigger] r@[y])@ == calibration_scores(
                    self.train_view()[y],
                    self.ncm_spec().calibration_view()[y],
                    self.ncm_spec().k_spec(),
                ),
    {
        proof {
            self.ncm_spec().lemma_calibrated_trained();
        }
        let mut r: Vec<Vec<u128>> = Vec::new();
        let mut y: usize = 0;
        while y < self.n_labels
            invariant
                self.wf(),
                self.is_calibrated(),
                self.is_trained(),
                y <= self.n_labels_spec(),
                r@.len() == y,
                forall|t: int|
                    0 <= t < y ==> (#[trigger] r@[t])@ == calibration_scores(
                        self.train_view()[t],
                        self.ncm_spec().calibration_view()[t],
                        self.ncm_spec().k_spec(),
                    ),
            decreases self.n_labels_spec() - y,
        {
            let c = self.ncm.scores_calibration(y);
            r.push(c);
            y = y + 1;
        }
        r
    }

    /// The next uniform draw of a smoothed predictor; 0 for a deterministic one.
    fn next_draw(&mut self) -> (u: u32)
        requires
            old(self).wf(),
        ensures
            final(self).wf(),
            final(self).ncm_spec() == old(self).ncm_spec(),
            final(self).epsilon_spec() == old(self).epsilon_spec(),
            final(self).is_smooth() == old(self).is_smooth(),
            final(self).is_inductive() == old(self).is_inductive(),
            final(self).n_labels_spec() == old(self).n_labels_spec(),
            old(self).is_smooth() ==> u == draw_at(old(self).generator(), 0),
            old(self).is_smooth() ==> final(self).generator() == advance(old(self).generator(), 1),
            !old(self).is_smooth() ==> u == 0,
    {
        if self.smooth {
            let mut g = self.rng.unwrap();
            let u = g.next_u32();
            self.rng = Some(g);
            u
        } else {
            0
        }
    }

    /// The p-values of every label for every test row: row `i` of the result
    /// holds the p-values of the labels `0..n_labels` for `inputs[i]`.
    pub fn predict_confidence(&mut self, inputs: &Vec<Vec<i32>>) -> (r: Vec<Vec<PValue>>)
        requires
            old(self).wf(),
            old(self).ready(),
            old(self).fits_all(rows_view(inputs@)),
        ensures
            final(self).wf(),
            old(self).after_predicting(final(self), inputs@.len()),
            matrix_view(r@) == old(self).expected_pvalues(rows_view(inputs@)),
            forall|i: int, y: int|
                0 <= i < r@.len() && 0 <= y < r@[i]@.len() ==> (#[trigger] r@[i]@[y]).valid(),
    {
        let l = self.n_labels;
        let ghost start = *self;
        let ghost test = rows_view(inputs@);
        let ghost expected = start.expected_pvalues(test);
        let inductive = self.calibrated.is_some();
        let smooth = self.smooth;
        let cal: Vec<Vec<u128>> = if inductive {
            self.calibration_table()
        } else {
            Vec::new()
        };
        let mut result: Vec<Vec<PValue>> = Vec::new();
        let mut i: usize = 0;
        while i < inputs.len()
            invariant
                self.wf(),
                start.wf(),
                start.ready(),
                start.fits_all(test),
                test == rows_view(inputs@),
                test.len() == inputs@.len(),
                expected == start.expected_pvalues(test),
                l == start.n_labels_spec(),
                inductive == start.is_inductive(),
                smooth == start.is_smooth(),
                inductive ==> cal@.len() == l,
                inductive ==> forall|y: int|
                    0 <= y < l ==> (#[trigger] cal@[y])@ == calibration_scores(
                        start.train_view()[y],
                        start.ncm_spec().calibration_view()[y],
                        start.ncm_spec().k_spec(),
                    ),
                i <= inputs@.len(),
                start.after_predicting(self, i as nat),
                matrix_view(result@) == expected.take(i as int),
                forall|a: int, y: int|
                    0 <= a < result@.len() && 0 <= y < result@[a]@.len() ==> (
                    #[trigger] result@[a]@[y]).valid(),
            decreases inputs@.len() - i,
        {
            let x = &inputs[i];
            assert(test[i as int] == x@);
            assert(start.ncm_spec().fits(test[i as int]));
            let mut row: Vec<PValue> = Vec::new();
            let mut y: usize = 0;
            while y < l
                invariant
                    self.wf(),
                    start.wf(),
                    start.ready(),
                    start.ncm_spec().fits(x@),
                    test[i as int] == x@,
                    i < inputs@.len(),
                    test.len() == inputs@.len(),
                    expected == start.expected_pvalues(test),
                    l == start.n_labels_spec(),
                    inductive == start.is_inductive(),
                    smooth == start.is_smooth(),
                    inductive ==> cal@.len() == l,
                    inductive ==> forall|y: int|
                        0 <= y < l ==> (#[trigger] cal@[y])@ == calibration_scores(
                            start.train_view()[y],
                            start.ncm_spec().calibration_view()[y],
                            start.ncm_spec().k_spec(),
                        ),
                    y <= l,
                    self.ncm_spec() == start.ncm_spec(),
                    self.epsilon_spec() == start.epsilon_spec(),
                    self.is_smooth() == start.is_smooth(),
                    self.is_inductive() == start.is_inductive(),
                    self.n_labels_spec() == start.n_labels_spec(),
                    smooth ==> self.generator() == advance(start.generator(), (i * l + y) as nat),
                    row@ == expected[i as int].take(y as int),
                    forall|t: int| 0 <= t < row@.len() ==> (#[trigger] row@[t]).valid(),
                decreases l - y,
            {
                let ghost before = *self;
                let u = self.next_draw();
                proof {
                    if smooth {
                        assert(u == start.draw((i * l + y) as nat));
                        assert(self.generator() == advance(start.generator(), (i * l + y + 1) as nat));
                    }
                }
                let p = if inductive {
                    let a = self.ncm.score_test(x, y);
                    if smooth {
                        smooth_calibrated_pvalue_of(&cal[y], a, u)
                    } else {
                        calibrated_pvalue_of(&cal[y], a)
                    }
                } else {
                    let scores = self.ncm.scores_augmented(x, y);
                    if smooth {
                        smooth_rank_pvalue_of(&scores, u)
                    } else {
                        rank_pvalue_of(&scores)
                    }
                };
                assert(p == start.pvalue_spec(x@, y as int, start.draw((i * l + y) as nat)));
                assert(expected[i as int][y as int] == p);
                row.push(p);
                y = y + 1;
                assert(row@ =~= expected[i as int].take(y as int));
            }
            proof {
                assert(row@ =~= expected[i as int]);
                assert(i * l + l == (i + 1) * l) by (nonlinear_arith);
            }
            let ghost prev = result@;
            let ghost row_view = row@;
            result.push(row);
            assert(matrix_view(result@) =~= matrix_view(prev).push(row_view));
            i = i + 1;
            assert(matrix_view(result@) =~= expected.take(i as int));
        }
        assert(matrix_view(result@) =~= expected);
        result
    }

    /// The prediction region of every test row at the significance level:
    /// entry `(i, y)` is true when label `y` is in the region of `inputs[i]`,
    /// that is, when its p-value is above the level.
    pub fn predict(&mut self, inputs: &Vec<Vec<i32>>) -> (r: Vec<Vec<bool>>)
        requires
            old(self).wf(),
            old(self).ready(),
            old(self).fits_all(rows_view(inputs@)),
            old(self).epsilon_spec() is Some,
        ensures
            final(self).wf(),
            old(self).after_predicting(final(self), inputs@.len()),
            matrix_view(r@) == regions(
                old(self).expected_pvalues(rows_view(inputs@)),
                old(self).epsilon_spec().unwrap(),
            ),
    {
        let ghost start = *self;
        let e = self.epsilon.unwrap();
        let p = self.predict_confidence(inputs);
        let ghost pv = matrix_view(p@);
        let mut r: Vec<Vec<bool>> = Vec::new();
        let mut i: usize = 0;
        while i < p.len()
            invariant
                i <= p@.len(),
                e.valid(),
                pv == matrix_view(p@),
                forall|a: int, y: int|
                    0 <= a < p@.len() && 0 <= y < p@[a]@.len() ==> (#[trigger] p@[a]@[y]).valid(),
                matrix_view(r@) == regions(pv, e).take(i as int),
            decreases p@.len() - i,
        {
            let row = &p[i];
            let mut out: Vec<bool> = Vec::new();
            let mut y: usize = 0;
            while y < row.len()
                invariant
                    i < p@.len(),
                    row == p@[i as int],
                    e.valid(),
                    pv == matrix_view(p@),
                    forall|a: int, y: int|
                        0 <= a < p@.len() && 0 <= y < p@[a]@.len() ==> (#[trigger] p@[a]@[y]).valid(),
                    y <= row@.len(),
                    out@ == regions(pv, e)[i as int].take(y as int),
                decreases row@.len() - y,
            {
                let b = exceeds(row[y], e);
                out.push(b);
                y = y + 1;
                assert(out@ =~= regions(pv, e)[i as int].take(y as int));
            }
            assert(out@ =~= regions(pv, e)[i as int]);
            let ghost prev = r@;
            let ghost out_view = out@;
            r.push(out);
            assert(matrix_view(r@) =~= matrix_view(prev).push(out_view));
            i = i + 1;
            assert(matrix_view(r@) =~= regions(pv, e).take(i as int));
        }
        assert(matrix_view(r@) =~= regions(pv, e));
        r
    }
}

/// Training on a prefix of the rows and then updating with the rest leaves the
/// same training rows as training on all of them at once, so every later
/// prediction is the same either way.
pub proof fn lemma_train_then_update(
    prefix: Seq<Seq<i32>>,
    prefix_labels: Seq<usize>,
    suffix: Seq<Seq<i32>>,
    suffix_labels: Seq<usize>,
    n_labels: nat,
)
    requires
        prefix.len() == prefix_labels.len(),
        suffix.len() == suffix_labels.len(),
    ensures
        appended_view(split_view(prefix, prefix_labels, n_labels), suffix, suffix_labels)
            == split_view(prefix + suffix, prefix_labels + suffix_labels, n_labels),
{
    assert forall|y: int| 0 <= y < n_labels implies appended_view(
        split_view(prefix, prefix_labels, n_labels),
        suffix,
        suffix_labels,
    )[y] == split_view(prefix + suffix, prefix_labels + suffix_labels, n_labels)[y] by {
        lemma_bucket_concat(prefix, prefix_labels, suffix, suffix_labels, y as nat);
    }
    assert(appended_view(split_view(prefix, prefix_labels, n_labels), suffix, suffix_labels)
        =~= split_view(prefix + suffix, prefix_labels + suffix_labels, n_labels));
}

/// Two predictors that hold the same rows, with the same number of
/// neighbours, the same form, and, if smoothed, generators in the same state,
/// give the same p-values for the same test rows.
pub proof fn lemma_deterministic(a: &CP, b: &CP, test: Seq<Seq<i32>>)
    requires
        a.train_view() == b.train_view(),
        a.ncm_spec().calibration_view() == b.ncm_spec().calibration_view(),
        a.ncm_spec().k_spec() == b.ncm_spec().k_spec(),
        a.n_labels_spec() == b.n_labels_spec(),
        a.is_inductive() == b.is_inductive(),
        a.is_smooth() == b.is_smooth(),
        a.is_smooth() ==> a.generator() == b.generator(),
    ensures
        a.expected_pvalues(test) == b.expected_pvalues(test),
{
    let l = a.n_labels_spec();
    assert forall|i: int| 0 <= i < test.len() implies a.expected_pvalues(test)[i]
        == b.expected_pvalues(test)[i] by {
        assert forall|y: int| 0 <= y < l implies a.expected_pvalues(test)[i][y]
            == b.expected_pvalues(test)[i][y] by {
            assert(a.draw((i * l + y) as nat) == b.draw((i * l + y) as nat));
        }
        assert(a.expected_pvalues(test)[i] =~= b.expected_pvalues(test)[i]);
    }
    assert(a.expected_pvalues(test) =~= b.expected_pvalues(test));
}

/// A deterministic predictor gives the same p-values after a prediction as
/// before it, so its region matrix at a level is the p-value matrix compared
/// with that level, whichever of the two is asked first.
pub proof fn lemma_prediction_keeps_pvalues(a: &CP, b: &CP, n: nat, test: Seq<Seq<i32>>)
    requires
        a.after_predicting(b, n),
        !a.is_smooth(),
    ensures
        a.expected_pvalues(test) == b.expected_pvalues(test),
{
    lemma_deterministic(a, b, test);
}

/// The generator a smoothed predictor starts from.
pub open spec fn generator_for(seed: Option<[u64; 2]>) -> Pcg32 {
    match seed {
        Some(s) => seeded(s[0], s[1]),
        None => Pcg32 { state: crate::rng::DEFAULT_STATE, inc: crate::rng::DEFAULT_INC },
    }
}

fn generator_from(seed: Option<[u64; 2]>) -> (g: Pcg32)
    ensures
        g == generator_for(seed),
{
    match seed {
        Some(s) => Pcg32::new(s[0], s[1]),
        None => Pcg32::unseeded(),
    }
}

} // verus!
