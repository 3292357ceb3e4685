//! Checks on labelled data files: one record per example, a label and then
//! the features, every record of one arity.
use vstd::prelude::*;
use vstd::string::StringSliceAdditionalSpecFns;

verus! {

/// Whether `c` is an ASCII decimal digit.
pub open spec fn is_digit(c: u8) -> bool {
    48 <= c <= 57
}

/// The value of a string of decimal digits.
pub open spec fn digits_value(b: Seq<u8>) -> nat
    decreases b.len(),
{
    if b.len() == 0 {
        0
    } else {
        digits_value(b.drop_last()) * 10 + (b.last() - 48) as nat
    }
}

/// The digits of a label: one or more decimal digits, after an optional `+`.
pub open spec fn label_digits(b: Seq<u8>) -> Seq<u8> {
    if b.len() > 0 && b[0] == 43 {
        b.drop_first()
    } else {
        b
    }
}

/// `b` spells a label: one or more digits, after an optional `+`.
pub open spec fn is_label(b: Seq<u8>) -> bool {
    let d = label_digits(b);
    d.len() > 0 && forall|i: int| 0 <= i < d.len() ==> is_digit(#[trigger] d[i])
}

/// Reads a label: a non-negative decimal integer that fits in `usize`.
pub fn parse_label(s: &str) -> (r: Option<usize>)
    ensures
        r is Some <==> is_label(s.spec_bytes()) && digits_value(label_digits(s.spec_bytes()))
            <= usize::MAX,
        r is Some ==> r.unwrap() == digits_value(label_digits(s.spec_bytes())),
{
    let b = s.as_bytes();
    let ghost d = label_digits(b@);
    let start: usize = if b.len() > 0 && b[0] == 43 {
        1
    } else {
        0
    };
    assert(d =~= b@.subrange(start as int, b@.len() as int));
    if start == b.len() {
        return None;
    }
    let mut v: usize = 0;
    let mut i: usize = start;
    while i < b.len()
        invariant
            start <= i <= b@.len(),
            d == b@.subrange(start as int, b@.len() as int),
            d == label_digits(b@),
            b@ == s.spec_bytes(),
            forall|t: int| start <= t < i ==> is_digit(#[trigger] b@[t]),
            v == digits_value(b@.subrange(start as int, i as int)),
        decreases b@.len() - i,
    {
        let c = b[i];
        assert(b@.subrange(start as int, i + 1).drop_last() =~= b@.subrange(start as int, i as int));
        if c < 48 || c > 57 {
            assert(d[i - start] == b@[i as int]);
            assert(!is_digit(d[i - start]));
            assert(label_digits(b@) == d);
            assert(0 <= i - start < d.len());
            assert(!(forall|t: int| 0 <= t < d.len() ==> is_digit(#[trigger] d[t])));
            assert(!is_label(b@));
            return None;
        }
        let digit = (c - 48) as usize;
        if v > (usize::MAX - digit) / 10 {
            proof {
                assert(v * 10 + digit > usize::MAX) by (nonlinear_arith)
                    requires
                        v > (usize::MAX - digit) / 10,
                        digit <= 9,
                ;
                lemma_digits_grow(d, (i - start + 1) as nat);
                assert(d.take(i - start + 1) =~= b@.subrange(start as int, i + 1));
                assert(digits_value(b@.subrange(start as int, i + 1)) == v * 10 + digit);
                assert(digits_value(d) > usize::MAX);
            }
            return None;
        }
        v = v * 10 + digit;
        i = i + 1;
    }
    assert(b@.subrange(start as int, i as int) =~= d);
    Some(v)
}

/// Digits only add to the value of their prefix.
proof fn lemma_digits_grow(b: Seq<u8>, n: nat)
    requires
        n <= b.len(),
    ensures
        digits_value(b.take(n as int)) <= digits_value(b),
    decreases b.len(),
{
    if n < b.len() {
        assert(b.drop_last().take(n as int) =~= b.take(n as int));
        lemma_digits_grow(b.drop_last(), n);
    } else {
        assert(b.take(n as int) =~= b);
    }
}

/// What is wrong with the shape of a data file.
#[derive(Clone, Copy, Debug, PartialEq, Eq, Structural)]
pub enum ShapeError {
    /// The file holds no record.
    NoRecords,
    /// The first record holds no field.
    EmptyRecord,
    /// The records hold a label and no feature.
    NoFeatures,
    /// This record's arity differs from the first record's.
    WrongArity(usize),
}

/// The arity every record of a file has, when the records have `arities`
/// fields each: that of the first record, when it has a field and every other
/// record has as many.
pub fn common_arity(arities: &Vec<usize>) -> (r: Result<usize, ShapeError>)
    ensures
        arities@.len() == 0 ==> r == Err::<usize, ShapeError>(ShapeError::NoRecords),
        arities@.len() > 0 && arities@[0] == 0 ==> r == Err::<usize, ShapeError>(
            ShapeError::EmptyRecord,
        ),
        arities@.len() > 0 && arities@[0] > 0 ==> match r {
            Ok(a) => a == arities@[0] && forall|i: int|
                0 <= i < arities@.len() ==> #[trigger] arities@[i] == arities@[0],
            Err(ShapeError::WrongArity(i)) => 0 < i < arities@.len() && arities@[i as int]
                != arities@[0] && forall|t: int|
                0 <= t < i ==> #[trigger] arities@[t] == arities@[0],
            Err(_) => false,
        },
{
    if arities.len() == 0 {
        return Err(ShapeError::NoRecords);
    }
    let first = arities[0];
    if first == 0 {
        return Err(ShapeError::EmptyRecord);
    }
    let mut i: usize = 1;
    while i < arities.len()
        invariant
            1 <= i <= arities@.len(),
            first == arities@[0],
            first > 0,
            forall|t: int| 0 <= t < i ==> #[trigger] arities@[t] == first,
        decreases arities@.len() - i,
    {
        if arities[i] != first {
            return Err(ShapeError::WrongArity(i));
        }
        i = i + 1;
    }
    Ok(first)
}

/// The number of features of a data file whose records have `arities` fields
/// each: a label and at least one feature per record, the same number in every
/// record.
pub fn feature_count(arities: &Vec<usize>) -> (r: Result<usize, ShapeError>)
    ensures
        arities@.len() == 0 ==> r == Err::<usize, ShapeError>(ShapeError::NoRecords),
        arities@.len() > 0 && arities@[0] == 0 ==> r == Err::<usize, ShapeError>(
            ShapeError::EmptyRecord,
        ),
        arities@.len() > 0 && arities@[0] > 0 ==> match r {
            Ok(d) => d >= 1 && d == arities@[0] - 1 && forall|i: int|
                0 <= i < arities@.len() ==> #[trigger] arities@[i] == arities@[0],
            Err(ShapeError::NoFeatures) => arities@[0] == 1 && forall|i: int|
                0 <= i < arities@.len() ==> #[trigger] arities@[i] == arities@[0],
            Err(ShapeError::WrongArity(i)) => 0 < i < arities@.len() && arities@[i as int]
                != arities@[0] && forall|t: int|
                0 <= t < i ==> #[trigger] arities@[t] == arities@[0],
            Err(_) => false,
        },
{
    match common_arity(arities) {
        Ok(a) => {
            if a == 1 {
                Err(ShapeError::NoFeatures)
            } else {
                Ok(a - 1)
            }
        },
        Err(e) => Err(e),
    }
}

} // verus!
