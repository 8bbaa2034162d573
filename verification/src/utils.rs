//! The integer mean of a sequence of bytes, and the bounds of the number of
//! splitting rounds.

use vstd::prelude::*;

verus! {

/// The least number of splitting rounds that a palette is made with.
pub const MIN_ITERATIONS: u8 = 1;

/// The greatest number of splitting rounds that a palette is made with.
pub const MAX_ITERATIONS: u8 = 4;

/// Returns the number of splitting rounds to use where `requested` were
/// asked for: `requested` itself, brought into the range from
/// `MIN_ITERATIONS` to `MAX_ITERATIONS`.
pub fn clamp_iterations(requested: u8) -> (count: u8)
    ensures
        count == if requested > MAX_ITERATIONS {
            MAX_ITERATIONS
        } else if requested < MIN_ITERATIONS {
            MIN_ITERATIONS
        } else {
            requested
        },
{
    if requested > MAX_ITERATIONS {
        MAX_ITERATIONS
    } else if requested < MIN_ITERATIONS {
        MIN_ITERATIONS
    } else {
        requested
    }
}

/// The sum of `values`, as an unbounded integer.
pub open spec fn sum_of(values: Seq<u8>) -> int
    decreases values.len(),
{
    if values.len() == 0 {
        0
    } else {
        sum_of(values.drop_last()) + values.last()
    }
}

/// The mean of `values`, rounded down: the sum divided by the count. It is
/// meaningful for a non-empty sequence only.
pub open spec fn mean_of(values: Seq<u8>) -> int
    recommends
        values.len() > 0,
{
    sum_of(values) / (values.len() as int)
}

/// A sum lies between the count times a lower bound of the values and the
/// count times an upper bound of them.
pub proof fn lemma_sum_within_bounds(values: Seq<u8>, low: int, high: int)
    requires
        forall|i: int| 0 <= i < values.len() ==> low <= #[trigger] values[i] <= high,
    ensures
        low * values.len() <= sum_of(values) <= high * values.len(),
    decreases values.len(),
{
    if values.len() > 0 {
        let rest = values.drop_last();
        lemma_sum_within_bounds(rest, low, high);
        assert(low * values.len() == low * rest.len() + low) by (nonlinear_arith)
            requires
                values.len() == rest.len() + 1,
        ;
        assert(high * values.len() == high * rest.len() + high) by (nonlinear_arith)
            requires
                values.len() == rest.len() + 1,
        ;
    }
}

/// The mean of a non-empty sequence lies between any lower bound and any upper
/// bound of its values. In particular it is a byte.
pub proof fn lemma_mean_within_bounds(values: Seq<u8>, low: int, high: int)
    requires
        values.len() > 0,
        forall|i: int| 0 <= i < values.len() ==> low <= #[trigger] values[i] <= high,
    ensures
        low <= mean_of(values) <= high,
{
    lemma_sum_within_bounds(values, low, high);
    let n = values.len() as int;
    let total = sum_of(values);
    assert(low <= total / n <= high) by (nonlinear_arith)
        requires
            n > 0,
            low * n <= total <= high * n,
    ;
}

/// The mean of a non-empty sequence whose values all equal `value` is `value`.
pub proof fn lemma_mean_of_constant(values: Seq<u8>, value: u8)
    requires
        values.len() > 0,
        forall|i: int| 0 <= i < values.len() ==> values[i] == value,
    ensures
        mean_of(values) == value,
{
    lemma_mean_within_bounds(values, value as int, value as int);
}

/// Returns the mean of `values`, rounded down. The sum is taken in 128 bits,
/// which no slice can overflow.
pub fn mean(values: &[u8]) -> (average: u8)
    requires
        values@.len() > 0,
    ensures
        average == mean_of(values@),
{
    let count: usize = values.len();
    let mut total: u128 = 0;
    let mut i: usize = 0;
    while i < count
        invariant
            count == values@.len(),
            i <= count,
            total == sum_of(values@.take(i as int)),
            total <= 255 * i,
        decreases count - i,
    {
        assert(values@.take(i + 1).drop_last() == values@.take(i as int));
        total = total + values[i] as u128;
        i = i + 1;
    }
    proof {
        assert(values@.take(count as int) == values@);
        lemma_mean_within_bounds(values@, 0, 255);
    }
    (total / (count as u128)) as u8
}

} // verus!
