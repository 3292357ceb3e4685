//! The number of labels of a problem.
use vstd::prelude::*;
use itertools::Itertools;

verus! {

/// Relies on `Itertools::unique` from itertools, which yields each distinct
/// item of the iterator once: its count is the number of distinct labels.
#[verifier::external_body]
fn count_distinct(labels: &Vec<usize>) -> (r: usize)
    ensures
        r == labels@.to_set().len(),
{
    labels.iter().unique().count()
}

/// The number of labels: `given` when the caller states it, else the number of
/// distinct labels among the training targets.
pub fn n_labels_of(targets: &Vec<usize>, given: Option<usize>) -> (r: usize)
    ensures
        r == (match given {
            Some(n) => n as nat,
            None => targets@.to_set().len(),
        }),
{
    match given {
        Some(n) => n,
        None => count_distinct(targets),
    }
}

} // verus!
