//! The k-nearest-neighbour nonconformity measure.
use vstd::prelude::*;
use crate::distance::{dist, distance};
use crate::select::{smallest_sum, smallest_sum_of};
use crate::store::{
    lemma_bucket_member,
    LabelStore,
    all_width,
    appended_view,
    labels_below,
    rows_view,
    split_view,
};

verus! {

/// The distances from each row of `rows` to `x`.
pub open spec fn dists(rows: Seq<Seq<i32>>, x: Seq<i32>) -> Seq<u64> {
    Seq::new(rows.len(), |j: int| dist(rows[j], x) as u64)
}

/// The nonconformity score of `x` against `rows`: the sum of its distances to
/// its `k` nearest rows (to all of them when there are fewer than `k`).
pub open spec fn knn_score(rows: Seq<Seq<i32>>, x: Seq<i32>, k: nat) -> int {
    smallest_sum(dists(rows, x), k)
}

/// The scores of the bucket `rows` augmented by the test row `x`: entry `i` scores
/// the `i`-th row of the augmented bucket against all the others, and the last
/// entry is the score of `x`.
pub open spec fn augmented_scores(rows: Seq<Seq<i32>>, x: Seq<i32>, k: nat) -> Seq<u128> {
    let aug = rows.push(x);
    Seq::new(aug.len(), |i: int| knn_score(aug.remove(i), aug[i], k) as u128)
}

/// The scores of the calibration rows `cal` against the training rows `rows`.
pub open spec fn calibration_scores(rows: Seq<Seq<i32>>, cal: Seq<Seq<i32>>, k: nat) -> Seq<u128> {
    Seq::new(cal.len(), |j: int| knn_score(rows, cal[j], k) as u128)
}

/// The distances from each row of `rows` to `x`.
pub fn distances_to(rows: &Vec<Vec<i32>>, x: &Vec<i32>) -> (r: Vec<u64>)
    requires
        all_width(rows_view(rows@), x@.len()),
    ensures
        r@ == dists(rows_view(rows@), x@),
{
    let mut r: Vec<u64> = Vec::new();
    let mut j: usize = 0;
    while j < rows.len()
        invariant
            j <= rows@.len(),
            all_width(rows_view(rows@), x@.len()),
            r@ == dists(rows_view(rows@), x@).take(j as int),
        decreases rows@.len() - j,
    {
        assert(rows_view(rows@)[j as int] == rows@[j as int]@);
        let d = distance(&rows[j], x);
        r.push(d);
        j = j + 1;
        assert(r@ =~= dists(rows_view(rows@), x@).take(j as int));
    }
    assert(r@ =~= dists(rows_view(rows@), x@));
    r
}

/// The score of `x` against `rows`.
pub fn score(rows: &Vec<Vec<i32>>, x: &Vec<i32>, k: usize) -> (r: u128)
    requires
        all_width(rows_view(rows@), x@.len()),
    ensures
        r == knn_score(rows_view(rows@), x@, k as nat),
{
    let d = distances_to(rows, x);
    smallest_sum_of(&d, k)
}

/// The distances from row `i` of `rows` to the other rows and to `x`, which
/// are the distances within the augmented bucket from its `i`-th row.
fn distances_from_member(rows: &Vec<Vec<i32>>, x: &Vec<i32>, i: usize) -> (r: Vec<u64>)
    requires
        i < rows@.len(),
        all_width(rows_view(rows@), x@.len()),
    ensures
        r@ == dists(rows_view(rows@).push(x@).remove(i as int), rows@[i as int]@),
{
    let ghost aug = rows_view(rows@).push(x@);
    let ghost others = aug.remove(i as int);
    let p = &rows[i];
    assert(rows_view(rows@)[i as int] == p@);
    let mut r: Vec<u64> = Vec::new();
    let mut j: usize = 0;
    while j < rows.len()
        invariant
            i < rows@.len(),
            j <= rows@.len(),
            p@ == rows@[i as int]@,
            aug == rows_view(rows@).push(x@),
            others == aug.remove(i as int),
            all_width(rows_view(rows@), x@.len()),
            r@ == dists(others, p@).take(if j <= i { j as int } else { j - 1 }),
        decreases rows@.len() - j,
    {
        if j != i {
            assert(rows_view(rows@)[j as int] == rows@[j as int]@);
            assert(rows_view(rows@)[i as int] == rows@[i as int]@);
            let d = distance(&rows[j], p);
            proof {
                let t = if j < i { j as int } else { j - 1 };
                assert(others[t] == rows@[j as int]@);
            }
            r.push(d);
        }
        j = j + 1;
        assert(r@ =~= dists(others, p@).take(if j <= i { j as int } else { j - 1 }));
    }
    let d = distance(x, p);
    r.push(d);
    assert(others[others.len() - 1] == x@);
    assert(r@ =~= dists(others, p@));
    r
}

/// The scores of the bucket `rows` augmented by `x`, the score of `x` last.
pub fn augmented_scores_of(rows: &Vec<Vec<i32>>, x: &Vec<i32>, k: usize) -> (r: Vec<u128>)
    requires
        all_width(rows_view(rows@), x@.len()),
    ensures
        r@ == augmented_scores(rows_view(rows@), x@, k as nat),
{
    let ghost aug = rows_view(rows@).push(x@);
    let mut r: Vec<u128> = Vec::new();
    let mut i: usize = 0;
    while i < rows.len()
        invariant
            i <= rows@.len(),
            aug == rows_view(rows@).push(x@),
            all_width(rows_view(rows@), x@.len()),
            r@ == augmented_scores(rows_view(rows@), x@, k as nat).take(i as int),
        decreases rows@.len() - i,
    {
        let d = distances_from_member(rows, x, i);
        let s = smallest_sum_of(&d, k);
        assert(aug[i as int] == rows@[i as int]@);
        r.push(s);
        i = i + 1;
        assert(r@ =~= augmented_scores(rows_view(rows@), x@, k as nat).take(i as int));
    }
    let last = score(rows, x, k);
    r.push(last);
    assert(aug.remove(rows@.len() as int) =~= rows_view(rows@));
    assert(r@ =~= augmented_scores(rows_view(rows@), x@, k as nat));
    r
}

} // verus!

verus! {

/// A k-NN nonconformity measure: the number of neighbours `k`, the training
/// rows once trained, and the calibration rows once calibrated.
pub struct Knn {
    k: usize,
    train: Option<LabelStore>,
    calibration: Option<LabelStore>,
}

impl Knn {
    pub closed spec fn k_spec(&self) -> nat {
        self.k as nat
    }

    pub closed spec fn is_trained(&self) -> bool {
        self.train is Some
    }

    pub closed spec fn is_calibrated(&self) -> bool {
        self.calibration is Some
    }

    /// The training store; meaningful once trained.
    pub closed spec fn train_store(&self) -> LabelStore {
        self.train.unwrap()
    }

    /// The calibration store; meaningful once calibrated.
    pub closed spec fn calibration_store(&self) -> LabelStore {
        self.calibration.unwrap()
    }

    /// The training rows by label.
    pub open spec fn train_view(&self) -> Seq<Seq<Seq<i32>>> {
        self.train_store()@
    }

    /// The calibration rows by label.
    pub open spec fn calibration_view(&self) -> Seq<Seq<Seq<i32>>> {
        self.calibration_store()@
    }

    /// Calibration needs training first, the stores are well formed, have the
    /// same labels, and every calibration row can be compared with the training rows.
    pub closed spec fn wf(&self) -> bool {
        &&& self.train is Some ==> self.train.unwrap().wf()
        &&& self.calibration is Some ==> {
            &&& self.train is Some
            &&& self.calibration.unwrap().wf()
            &&& self.calibration.unwrap()@.len() == self.train.unwrap()@.len()
            &&& forall|y: int, j: int|
                0 <= y < self.calibration.unwrap()@.len() && 0 <= j
                    < self.calibration.unwrap()@[y].len() ==> self.train.unwrap().fits(
                    #[trigger] self.calibration.unwrap()@[y][j],
                )
        }
    }

    /// A calibrated measure is trained.
    pub proof fn lemma_calibrated_trained(&self)
        requires
            self.wf(),
            self.is_calibrated(),
        ensures
            self.is_trained(),
    {
    }

    /// The number of labels the measure was trained for.
    pub open spec fn n_labels_spec(&self) -> nat {
        self.train_view().len()
    }

    /// Rows that `update` accepts: they can join the training store, and when
    /// the measure is calibrated they can be compared with the calibration rows.
    pub open spec fn admits(&self, rows: Seq<Seq<i32>>) -> bool {
        &&& self.train_store().admits(rows)
        &&& self.is_calibrated() ==> forall|i: int|
            0 <= i < rows.len() ==> self.calibration_store().fits(#[trigger] rows[i])
    }

    /// A k-NN measure with `k` neighbours, not yet trained.
    pub fn new(k: usize) -> (m: Knn)
        requires
            k >= 1,
        ensures
            m.wf(),
            m.k_spec() == k,
            !m.is_trained(),
            !m.is_calibrated(),
    {
        Knn { k, train: None, calibration: None }
    }

    /// The number of neighbours.
    pub fn k(&self) -> (r: usize)
        ensures
            r == self.k_spec(),
    {
        self.k
    }

    /// Whether the measure has been trained.
    pub fn trained(&self) -> (r: bool)
        ensures
            r == self.is_trained(),
    {
        self.train.is_some()
    }

    /// Whether the measure has been calibrated.
    pub fn calibrated(&self) -> (r: bool)
        ensures
            r == self.is_calibrated(),
    {
        self.calibration.is_some()
    }

    /// Whether a row can be scored: it has the width of the training rows.
    pub open spec fn fits(&self, x: Seq<i32>) -> bool {
        self.train_store().fits(x)
    }

    /// Trains the measure on labelled rows of one width, with labels below `n_labels`.
    pub fn train(&mut self, inputs: &Vec<Vec<i32>>, targets: &Vec<usize>, n_labels: usize)
        requires
            old(self).wf(),
            !old(self).is_trained(),
            inputs@.len() == targets@.len(),
            labels_below(targets@, n_labels as nat),
            inputs@.len() == 0 || all_width(rows_view(inputs@), inputs@[0]@.len()),
        ensures
            final(self).wf(),
            final(self).is_trained(),
            final(self).is_calibrated() == old(self).is_calibrated(),
            final(self).k_spec() == old(self).k_spec(),
            final(self).train_view() == split_view(rows_view(inputs@), targets@, n_labels as nat),
            inputs@.len() > 0 ==> final(self).train_store().width_spec() == inputs@[0]@.len(),
            inputs@.len() == 0 ==> final(self).train_store().is_empty_spec(),
    {
        let s = LabelStore::split(inputs, targets, n_labels);
        proof {
            if inputs@.len() == 0 {
                assert forall|y: int| 0 <= y < s@.len() implies (#[trigger] s@[y]).len() == 0 by {
                    assert(crate::store::bucket(rows_view(inputs@), targets@, y as nat)
                        =~= Seq::<Seq<i32>>::empty());
                }
            }
        }
        self.train = Some(s);
    }

    /// Sets the calibration rows, which must have the width of the training rows.
    pub fn calibrate(&mut self, inputs: &Vec<Vec<i32>>, targets: &Vec<usize>)
        requires
            old(self).wf(),
            old(self).is_trained(),
            inputs@.len() == targets@.len(),
            labels_below(targets@, old(self).n_labels_spec()),
            inputs@.len() == 0 || all_width(rows_view(inputs@), inputs@[0]@.len()),
            forall|i: int| 0 <= i < inputs@.len() ==> old(self).fits(#[trigger] inputs@[i]@),
        ensures
            final(self).wf(),
            final(self).is_trained(),
            final(self).is_calibrated(),
            final(self).k_spec() == old(self).k_spec(),
            final(self).train_view() == old(self).train_view(),
            final(self).train_store() == old(self).train_store(),
            final(self).calibration_view() == split_view(
                rows_view(inputs@),
                targets@,
                old(self).n_labels_spec(),
            ),
            inputs@.len() > 0 ==> final(self).calibration_store().width_spec() == inputs@[0]@.len(),
    {
        let n_labels = self.train.as_ref().unwrap().n_labels();
        let ghost ts = self.train.unwrap();
        let c = LabelStore::split(inputs, targets, n_labels);
        proof {
            assert forall|y: int, j: int| 0 <= y < c@.len() && 0 <= j < c@[y].len() implies ts.fits(
                #[trigger] c@[y][j],
            ) by {
                lemma_bucket_member(rows_view(inputs@), targets@, y as nat, j);
                let i = choose|i: int|
                    0 <= i < rows_view(inputs@).len() && rows_view(inputs@)[i] == c@[y][j];
                assert(ts.fits(inputs@[i]@));
            }
        }
        self.calibration = Some(c);
    }

    /// Appends labelled rows to the training rows.
    pub fn update(&mut self, inputs: &Vec<Vec<i32>>, targets: &Vec<usize>)
        requires
            old(self).wf(),
            old(self).is_trained(),
            inputs@.len() == targets@.len(),
            labels_below(targets@, old(self).n_labels_spec()),
            old(self).admits(rows_view(inputs@)),
        ensures
            final(self).wf(),
            final(self).is_trained(),
            final(self).is_calibrated() == old(self).is_calibrated(),
            final(self).k_spec() == old(self).k_spec(),
            final(self).calibration_view() == old(self).calibration_view(),
            final(self).calibration_store() == old(self).calibration_store(),
            final(self).train_store().width_spec() == old(self).train_store().width_after(
                rows_view(inputs@),
            ),
            final(self).train_view() == appended_view(
                old(self).train_view(),
                rows_view(inputs@),
                targets@,
            ),
    {
        let ghost old_self = *self;
        let mut t = self.train.take().unwrap();
        t.append(inputs, targets);
        proof {
            if old_self.calibration is Some {
                let cs = old_self.calibration.unwrap();
                let ts = old_self.train.unwrap();
                assert forall|y: int, j: int| 0 <= y < cs@.len() && 0 <= j < cs@[y].len() implies t.fits(
                    #[trigger] cs@[y][j],
                ) by {
                    assert(ts.fits(cs@[y][j]));
                    if ts.is_empty_spec() && inputs@.len() > 0 {
                        assert(cs.fits(rows_view(inputs@)[0]));
                        assert(!cs.is_empty_spec());
                        cs.lemma_row_width(y, j);
                    } else if ts.is_empty_spec() {
                        assert forall|w: int| 0 <= w < t@.len() implies (#[trigger] t@[w]).len() == 0 by {
                            assert(crate::store::bucket(rows_view(inputs@), targets@, w as nat)
                                =~= Seq::<Seq<i32>>::empty());
                            assert(t@[w] =~= ts@[w] + Seq::<Seq<i32>>::empty());
                        }
                    } else if !ts.is_empty_spec() {
                        assert(!t.is_empty_spec()) by {
                            let w = choose|w: int| 0 <= w < ts@.len() && ts@[w].len() != 0;
                            assert(t@[w] == ts@[w] + crate::store::bucket(
                                rows_view(inputs@),
                                targets@,
                                w as nat,
                            ));
                        }
                    }
                }
            }
        }
        self.train = Some(t);
    }

    /// The scores of the label-`y` training rows augmented by `x`, the score of
    /// `x` last.
    pub fn scores_augmented(&self, x: &Vec<i32>, y: usize) -> (r: Vec<u128>)
        requires
            self.wf(),
            self.is_trained(),
            y < self.n_labels_spec(),
            self.fits(x@),
        ensures
            r@ == augmented_scores(self.train_view()[y as int], x@, self.k_spec()),
    {
        let t = self.train.as_ref().unwrap();
        proof {
            t.lemma_fits(x@, y as int);
        }
        augmented_scores_of(t.rows_of(y), x, self.k)
    }

    /// The score of `x` against the label-`y` training rows.
    pub fn score_test(&self, x: &Vec<i32>, y: usize) -> (r: u128)
        requires
            self.wf(),
            self.is_trained(),
            y < self.n_labels_spec(),
            self.fits(x@),
        ensures
            r == knn_score(self.train_view()[y as int], x@, self.k_spec()),
    {
        let t = self.train.as_ref().unwrap();
        proof {
            t.lemma_fits(x@, y as int);
        }
        score(t.rows_of(y), x, self.k)
    }

    /// The scores of the label-`y` calibration rows against the label-`y` training rows.
    pub fn scores_calibration(&self, y: usize) -> (r: Vec<u128>)
        requires
            self.wf(),
            self.is_calibrated(),
            y < self.n_labels_spec(),
        ensures
            r@ == calibration_scores(
                self.train_view()[y as int],
                self.calibration_view()[y as int],
                self.k_spec(),
            ),
    {
        let t = self.train.as_ref().unwrap();
        let c = self.calibration.as_ref().unwrap().rows_of(y);
        let mut r: Vec<u128> = Vec::new();
        let mut j: usize = 0;
        while j < c.len()
            invariant
                self.wf(),
                self.is_calibrated(),
                y < self.n_labels_spec(),
                t == self.train_store(),
                rows_view(c@) == self.calibration_view()[y as int],
                j <= c@.len(),
                r@ == calibration_scores(
                    self.train_view()[y as int],
                    self.calibration_view()[y as int],
                    self.k_spec(),
                ).take(j as int),
            decreases c@.len() - j,
        {
            let row = &c[j];
            proof {
                assert(rows_view(c@)[j as int] == row@);
                assert(t.fits(self.calibration_view()[y as int][j as int]));
                t.lemma_fits(row@, y as int);
            }
            let s = score(t.rows_of(y), row, self.k);
            r.push(s);
            j = j + 1;
            assert(r@ =~= calibration_scores(
                self.train_view()[y as int],
                self.calibration_view()[y as int],
                self.k_spec(),
            ).take(j as int));
        }
        assert(r@ =~= calibration_scores(
            self.train_view()[y as int],
            self.calibration_view()[y as int],
            self.k_spec(),
        ));
        r
    }
}

} // verus!
