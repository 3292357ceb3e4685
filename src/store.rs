//! Rows grouped by label.
use vstd::prelude::*;

verus! {

/// The contents of a vector of rows.
pub open spec fn rows_view(rows: Seq<Vec<i32>>) -> Seq<Seq<i32>> {
    rows.map_values(|r: Vec<i32>| r@)
}

/// The rows whose label is `y`, in input order.
pub open spec fn bucket(rows: Seq<Seq<i32>>, labels: Seq<usize>, y: nat) -> Seq<Seq<i32>>
    decreases rows.len(),
{
    if rows.len() == 0 {
        Seq::empty()
    } else {
        let n = rows.len() - 1;
        let pre = bucket(rows.take(n), labels, y);
        if labels[n] == y {
            pre.push(rows[n])
        } else {
            pre
        }
    }
}

/// Every row has `width` coordinates.
pub open spec fn all_width(rows: Seq<Seq<i32>>, width: nat) -> bool {
    forall|i: int| 0 <= i < rows.len() ==> (#[trigger] rows[i]).len() == width
}

/// Every label is below `n_labels`.
pub open spec fn labels_below(labels: Seq<usize>, n_labels: nat) -> bool {
    forall|i: int| 0 <= i < labels.len() ==> #[trigger] labels[i] < n_labels
}

/// The buckets that splitting `rows` by `labels` into `n_labels` labels gives.
pub open spec fn split_view(rows: Seq<Seq<i32>>, labels: Seq<usize>, n_labels: nat) -> Seq<
    Seq<Seq<i32>>,
> {
    Seq::new(n_labels, |y: int| bucket(rows, labels, y as nat))
}

/// The buckets of `s` with the rows of `rows` appended, each to the bucket of its label.
pub open spec fn appended_view(s: Seq<Seq<Seq<i32>>>, rows: Seq<Seq<i32>>, labels: Seq<usize>) -> Seq<
    Seq<Seq<i32>>,
> {
    Seq::new(s.len(), |y: int| s[y] + bucket(rows, labels, y as nat))
}

/// The rows of `s` with their labels: those of label 0 first, then those of
/// label 1, and so on, each label's rows in their order in the store.
pub open spec fn labelled_rows(s: Seq<Seq<Seq<i32>>>) -> Seq<(Seq<i32>, usize)>
    decreases s.len(),
{
    if s.len() == 0 {
        Seq::empty()
    } else {
        let y = s.len() - 1;
        labelled_rows(s.take(y)) + s[y].map_values(|r: Seq<i32>| (r, y as usize))
    }
}

/// The contents of a vector of labelled rows.
pub open spec fn labelled_view(v: Seq<(Vec<i32>, usize)>) -> Seq<(Seq<i32>, usize)> {
    v.map_values(|p: (Vec<i32>, usize)| (p.0@, p.1))
}

/// Labelled rows of one width, held by label: `buckets[y]` holds the rows of
/// label `y` in the order in which they came.
pub struct LabelStore {
    width: usize,
    buckets: Vec<Vec<Vec<i32>>>,
}

impl View for LabelStore {
    type V = Seq<Seq<Seq<i32>>>;

    closed spec fn view(&self) -> Seq<Seq<Seq<i32>>> {
        Seq::new(self.buckets@.len(), |y: int| rows_view(self.buckets@[y]@))
    }
}

/// Bucketing the rows of one sequence then those of another is bucketing the
/// two sequences joined.
pub proof fn lemma_bucket_concat(
    r1: Seq<Seq<i32>>,
    l1: Seq<usize>,
    r2: Seq<Seq<i32>>,
    l2: Seq<usize>,
    y: nat,
)
    requires
        r1.len() == l1.len(),
        r2.len() == l2.len(),
    ensures
        bucket(r1 + r2, l1 + l2, y) == bucket(r1, l1, y) + bucket(r2, l2, y),
    decreases r2.len(),
{
    if r2.len() == 0 {
        assert(r1 + r2 =~= r1);
        assert(bucket(r2, l2, y) =~= Seq::<Seq<i32>>::empty());
        lemma_bucket_labels(r1, l1, l1 + l2, y);
        assert(bucket(r1, l1, y) + bucket(r2, l2, y) =~= bucket(r1, l1, y));
    } else {
        let n = r2.len() - 1;
        lemma_bucket_concat(r1, l1, r2.take(n), l2.take(n), y);
        lemma_bucket_labels(r2.take(n), l2.take(n), l2, y);
        assert((r1 + r2).take(r1.len() + n) =~= r1 + r2.take(n));
        lemma_bucket_labels(r1 + r2.take(n), l1 + l2.take(n), l1 + l2, y);
        if l2[n] == y {
            assert(bucket(r1, l1, y) + bucket(r2.take(n), l2, y).push(r2[n]) =~= (bucket(r1, l1, y)
                + bucket(r2.take(n), l2, y)).push(r2[n]));
        }
    }
}

/// Only the labels of the rows present matter.
pub proof fn lemma_bucket_labels(rows: Seq<Seq<i32>>, a: Seq<usize>, b: Seq<usize>, y: nat)
    requires
        rows.len() <= a.len(),
        rows.len() <= b.len(),
        forall|i: int| 0 <= i < rows.len() ==> a[i] == b[i],
    ensures
        bucket(rows, a, y) == bucket(rows, b, y),
    decreases rows.len(),
{
    if rows.len() > 0 {
        lemma_bucket_labels(rows.take(rows.len() - 1), a, b, y);
    }
}

/// Every row of a bucket is one of the input rows.
pub proof fn lemma_bucket_member(rows: Seq<Seq<i32>>, labels: Seq<usize>, y: nat, j: int)
    requires
        0 <= j < bucket(rows, labels, y).len(),
    ensures
        exists|i: int| 0 <= i < rows.len() && rows[i] == bucket(rows, labels, y)[j],
    decreases rows.len(),
{
    let n = rows.len() - 1;
    let pre = bucket(rows.take(n), labels, y);
    if j < pre.len() {
        lemma_bucket_member(rows.take(n), labels, y, j);
        let i = choose|i: int| 0 <= i < rows.take(n).len() && rows.take(n)[i] == pre[j];
        assert(rows[i] == bucket(rows, labels, y)[j]);
    } else {
        assert(rows[n] == bucket(rows, labels, y)[j]);
    }
}

/// A copy of a row.
pub fn copy_row(r: &Vec<i32>) -> (c: Vec<i32>)
    ensures
        c@ == r@,
{
    let mut c: Vec<i32> = Vec::new();
    let mut i: usize = 0;
    while i < r.len()
        invariant
            i <= r@.len(),
            c@ == r@.take(i as int),
        decreases r@.len() - i,
    {
        c.push(r[i]);
        i = i + 1;
        assert(c@ =~= r@.take(i as int));
    }
    assert(r@.take(i as int) =~= r@);
    c
}

impl LabelStore {
    /// The store is well formed: every row has `width` coordinates.
    pub closed spec fn wf(&self) -> bool {
        forall|y: int, i: int|
            0 <= y < self@.len() && 0 <= i < self@[y].len() ==> (#[trigger] self@[y][i]).len()
                == self.width
    }

    pub closed spec fn width_spec(&self) -> nat {
        self.width as nat
    }

    /// No bucket holds a row.
    pub open spec fn is_empty_spec(&self) -> bool {
        forall|y: int| 0 <= y < self@.len() ==> (#[trigger] self@[y]).len() == 0
    }

    /// The rows can join the store: they have its width, or the store is empty
    /// and they share one width, which the store then takes.
    pub open spec fn admits(&self, rows: Seq<Seq<i32>>) -> bool {
        if self.is_empty_spec() {
            rows.len() == 0 || all_width(rows, rows[0].len())
        } else {
            all_width(rows, self.width_spec())
        }
    }

    /// The width of the store after `rows` have joined it.
    pub open spec fn width_after(&self, rows: Seq<Seq<i32>>) -> nat {
        if self.is_empty_spec() && rows.len() > 0 {
            rows[0].len()
        } else {
            self.width_spec()
        }
    }

    /// A row of this width can be compared with every row in the store.
    pub open spec fn fits(&self, x: Seq<i32>) -> bool {
        self.is_empty_spec() || x.len() == self.width_spec()
    }

    /// A row that fits the store has the width of every row in it.
    pub proof fn lemma_fits(&self, x: Seq<i32>, y: int)
        requires
            self.wf(),
            self.fits(x),
            0 <= y < self@.len(),
        ensures
            all_width(self@[y], x.len()),
    {
    }

    /// Every row in the store has its width.
    pub proof fn lemma_row_width(&self, y: int, j: int)
        requires
            self.wf(),
            0 <= y < self@.len(),
            0 <= j < self@[y].len(),
        ensures
            self@[y][j].len() == self.width_spec(),
    {
    }

    /// Every row of the store with its label, label by label.
    pub fn all_rows(&self) -> (r: Vec<(Vec<i32>, usize)>)
        ensures
            labelled_view(r@) == labelled_rows(self@),
    {
        let mut r: Vec<(Vec<i32>, usize)> = Vec::new();
        let mut y: usize = 0;
        while y < self.buckets.len()
            invariant
                y <= self@.len() == self.buckets@.len(),
                labelled_view(r@) == labelled_rows(self@.take(y as int)),
            decreases self@.len() - y,
        {
            let b = &self.buckets[y];
            let ghost start = labelled_view(r@);
            let ghost rows = self@[y as int];
            assert(rows == rows_view(b@));
            let mut j: usize = 0;
            while j < b.len()
                invariant
                    y < self@.len() == self.buckets@.len(),
                    b == self.buckets@[y as int],
                    rows == rows_view(b@),
                    j <= b@.len(),
                    labelled_view(r@) == start + rows.take(j as int).map_values(
                        |q: Seq<i32>| (q, y as usize),
                    ),
                decreases b@.len() - j,
            {
                let row = copy_row(&b[j]);
                let ghost prev = r@;
                r.push((row, y));
                assert(labelled_view(r@) =~= labelled_view(prev).push((row@, y)));
                j = j + 1;
                assert(rows.take(j as int).map_values(|q: Seq<i32>| (q, y as usize))
                    =~= rows.take(j - 1).map_values(|q: Seq<i32>| (q, y as usize)).push((row@, y)));
                assert(labelled_view(r@) =~= start + rows.take(j as int).map_values(
                    |q: Seq<i32>| (q, y as usize),
                ));
            }
            assert(rows.take(j as int) =~= rows);
            assert(self@.take(y + 1).take(y as int) =~= self@.take(y as int));
            y = y + 1;
            assert(labelled_view(r@) =~= labelled_rows(self@.take(y as int)));
        }
        assert(self@.take(y as int) =~= self@);
        r
    }

    /// Whether no bucket holds a row.
    pub fn is_empty(&self) -> (r: bool)
        ensures
            r == self.is_empty_spec(),
    {
        let mut y: usize = 0;
        while y < self.buckets.len()
            invariant
                y <= self@.len() == self.buckets@.len(),
                forall|t: int| 0 <= t < y ==> (#[trigger] self@[t]).len() == 0,
            decreases self@.len() - y,
        {
            if self.buckets[y].len() > 0 {
                assert(self@[y as int].len() > 0);
                return false;
            }
            assert(self@[y as int].len() == 0);
            y = y + 1;
        }
        true
    }

    /// The width of the rows.
    pub fn width(&self) -> (r: usize)
        ensures
            r == self.width_spec(),
    {
        self.width
    }

    /// The number of labels.
    pub fn n_labels(&self) -> (r: usize)
        ensures
            r == self@.len(),
    {
        self.buckets.len()
    }

    /// The number of rows of label `y`.
    pub fn bucket_len(&self, y: usize) -> (r: usize)
        requires
            y < self@.len(),
        ensures
            r == self@[y as int].len(),
    {
        self.buckets[y].len()
    }

    /// The rows of label `y`.
    pub fn rows_of(&self, y: usize) -> (r: &Vec<Vec<i32>>)
        requires
            y < self@.len(),
        ensures
            rows_view(r@) == self@[y as int],
    {
        &self.buckets[y]
    }

    /// A store with `n_labels` empty buckets for rows of `width` coordinates.
    pub fn empty(n_labels: usize, width: usize) -> (s: LabelStore)
        ensures
            s.wf(),
            s.width_spec() == width,
            s@ == Seq::new(n_labels as nat, |y: int| Seq::<Seq<i32>>::empty()),
    {
        let mut buckets: Vec<Vec<Vec<i32>>> = Vec::new();
        let mut y: usize = 0;
        while y < n_labels
            invariant
                y <= n_labels,
                buckets@.len() == y,
                forall|t: int| 0 <= t < y ==> (#[trigger] buckets@[t])@.len() == 0,
            decreases n_labels - y,
        {
            buckets.push(Vec::new());
            y = y + 1;
        }
        let s = LabelStore { width, buckets };
        assert forall|t: int| 0 <= t < n_labels implies s@[t] =~= Seq::<Seq<i32>>::empty() by {
            assert(buckets@[t]@.len() == 0);
        }
        assert(s@ =~= Seq::new(n_labels as nat, |y: int| Seq::<Seq<i32>>::empty()));
        s
    }

    /// Appends each row to the bucket of its label.
    pub fn append(&mut self, rows: &Vec<Vec<i32>>, labels: &Vec<usize>)
        requires
            old(self).wf(),
            rows@.len() == labels@.len(),
            labels_below(labels@, old(self)@.len()),
            old(self).admits(rows_view(rows@)),
        ensures
            final(self).wf(),
            final(self).width_spec() == old(self).width_after(rows_view(rows@)),
            final(self)@ == appended_view(old(self)@, rows_view(rows@), labels@),
    {
        let ghost start = self@;
        if rows.len() > 0 && self.is_empty() {
            self.width = rows[0].len();
        }
        let ghost w = self.width_spec();
        let mut i: usize = 0;
        while i < rows.len()
            invariant
                i <= rows@.len() == labels@.len(),
                labels_below(labels@, start.len()),
                all_width(rows_view(rows@), w),
                self.width_spec() == w,
                self.wf(),
                self@ == appended_view(start, rows_view(rows@).take(i as int), labels@),
            decreases rows@.len() - i,
        {
            let y = labels[i];
            assert(labels@[i as int] < start.len());
            assert(self@.len() == start.len());
            let row = copy_row(&rows[i]);
            let ghost before = self@;
            let ghost old_buckets = self.buckets@;
            self.buckets[y].push(row);
            proof {
                let rv = rows_view(rows@);
                assert(rv.take(i + 1).take(i as int) =~= rv.take(i as int));
                assert(rv[i as int] == row@);
                assert(rows_view(self.buckets@[y as int]@) =~= before[y as int].push(row@));
                let after = appended_view(start, rv.take(i + 1), labels@);
                assert forall|t: int| 0 <= t < start.len() implies self@[t] =~= after[t] by {
                    assert(bucket(rv.take(i + 1), labels@, t as nat) == if labels@[i as int] == t {
                        bucket(rv.take(i as int), labels@, t as nat).push(rv[i as int])
                    } else {
                        bucket(rv.take(i as int), labels@, t as nat)
                    });
                    let pre = bucket(rv.take(i as int), labels@, t as nat);
                    assert(before[t] == start[t] + pre);
                    if t != y {
                        assert(self.buckets@[t] == old_buckets[t]);
                    } else {
                        assert((start[t] + pre).push(rv[i as int]) =~= start[t] + pre.push(
                            rv[i as int],
                        ));
                    }
                }
                assert(self@ =~= after);
                assert forall|t: int, j: int|
                    0 <= t < self@.len() && 0 <= j < self@[t].len() implies (#[trigger] self@[t][j]).len()
                        == self.width by {
                    if t != y || j < before[t].len() {
                        assert(self@[t][j] == before[t][j]);
                    }
                }
            }
            i = i + 1;
        }
        assert(rows_view(rows@).take(i as int) =~= rows_view(rows@));
    }

    /// Splits labelled rows of one width into a store with `n_labels` buckets.
    pub fn split(rows: &Vec<Vec<i32>>, labels: &Vec<usize>, n_labels: usize) -> (s: LabelStore)
        requires
            rows@.len() == labels@.len(),
            labels_below(labels@, n_labels as nat),
            rows@.len() == 0 || all_width(rows_view(rows@), rows@[0]@.len()),
        ensures
            s.wf(),
            s.width_spec() == (if rows@.len() > 0 { rows@[0]@.len() } else { 0 }),
            s@ == split_view(rows_view(rows@), labels@, n_labels as nat),
    {
        let mut s = LabelStore::empty(n_labels, 0);
        s.append(rows, labels);
        assert(s@ =~= split_view(rows_view(rows@), labels@, n_labels as nat));
        s
    }
}

} // verus!
