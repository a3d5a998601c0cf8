//! What the library relies on of `hdrhistogram::Histogram`.

use hdrhistogram::Histogram;
use vstd::multiset::Multiset;
use vstd::prelude::*;

verus! {

/// A `hdrhistogram::Histogram`, which counts values up to a precision.
#[verifier::external_body]
pub struct LatencyHistogram {
    inner: Histogram<u64>,
}

/// What a histogram has counted: of each recorded value the lowest one that it is not
/// told apart from.
pub uninterp spec fn histogram_values(h: LatencyHistogram) -> Multiset<u64>;

/// The lowest and the highest value that a histogram was made for, and the number of
/// its significant digits.
pub uninterp spec fn histogram_shape(h: LatencyHistogram) -> (u64, u64, u8);

/// The lowest value that a value is not told apart from, in a histogram with this
/// lowest value and this number of digits, which `Histogram::lowest_equivalent` returns.
pub uninterp spec fn histogram_bucket(low: u64, digits: u8, value: u64) -> u64;

/// The value below which this percentage of some values are, as a histogram with this
/// lowest value and this number of digits tells it, which
/// `Histogram::value_at_percentile` returns.
pub uninterp spec fn histogram_percentile(
    values: Multiset<u64>,
    low: u64,
    digits: u8,
    percent: u8,
) -> u64;

/// `Histogram::new_with_bounds`: a histogram without values, and nothing where the
/// bounds are too close, the lowest value is zero or there are more than five digits.
/// With 1 as the lowest value and three digits it is always made.
#[verifier::external_body]
pub(crate) fn new_histogram(low: u64, high: u64, digits: u8) -> (h: Option<LatencyHistogram>)
    ensures
        low < 1 || high < 2 * low || digits > 5 ==> h is None,
        low == 1 && high >= 2 && digits == 3 ==> h is Some,
        h matches Some(made) ==> histogram_values(made) == Multiset::<u64>::empty(),
        h matches Some(made) ==> histogram_shape(made) == (low, high, digits),
{
    match Histogram::<u64>::new_with_bounds(low, high, digits) {
        Ok(inner) => Some(LatencyHistogram { inner }),
        Err(_) => None,
    }
}

/// `Histogram::record`, of a value that is not above the highest one: the value is
/// counted. The total stays below the point at which the counts would stop growing.
#[verifier::external_body]
pub(crate) fn record_value(h: &mut LatencyHistogram, value: u64)
    requires
        value <= histogram_shape(*old(h)).1,
        histogram_values(*old(h)).len() < u64::MAX,
    ensures
        histogram_values(*final(h)) == histogram_values(*old(h)).insert(
            histogram_bucket(histogram_shape(*old(h)).0, histogram_shape(*old(h)).2, value),
        ),
        histogram_shape(*final(h)) == histogram_shape(*old(h)),
{
    let _ = h.inner.record(value);
}

/// `Histogram::len`: the number of values that were counted.
#[verifier::external_body]
pub(crate) fn value_count(h: &LatencyHistogram) -> (count: u64)
    requires
        histogram_values(*h).len() <= u64::MAX,
    ensures
        count == histogram_values(*h).len(),
{
    h.inner.len()
}

/// `Histogram::value_at_percentile`: it depends on the counted values, the lowest value
/// and the number of digits alone.
#[verifier::external_body]
pub(crate) fn value_at_percentile(h: &LatencyHistogram, percent: u8) -> (value: u64)
    requires
        histogram_values(*h).len() <= u64::MAX,
    ensures
        value == histogram_percentile(
            histogram_values(*h),
            histogram_shape(*h).0,
            histogram_shape(*h).2,
            percent,
        ),
{
    h.inner.value_at_percentile(percent.into())
}

/// `Histogram::reset`: no value is left, and the bounds and digits stay.
#[verifier::external_body]
pub(crate) fn reset_histogram(h: &mut LatencyHistogram)
    ensures
        histogram_values(*final(h)) == Multiset::<u64>::empty(),
        histogram_shape(*final(h)) == histogram_shape(*old(h)),
{
    h.inner.reset()
}

} // verus!
