//! What the library relies on of `std::time::Duration`.

use std::time::Duration;
use vstd::prelude::*;

verus! {

/// The length of a duration in whole nanoseconds, which `Duration::as_nanos`
/// returns.
pub uninterp spec fn duration_nanos(d: Duration) -> nat;

/// `Duration::as_nanos`: the total number of nanoseconds in the duration.
pub assume_specification[ Duration::as_nanos ](d: &Duration) -> (nanos: u128)
    ensures
        nanos == duration_nanos(*d),
;

/// `Duration::as_secs`: the number of whole seconds in the duration.
pub assume_specification[ Duration::as_secs ](d: &Duration) -> (secs: u64)
    ensures
        secs == duration_nanos(*d) / 1_000_000_000,
;

/// `Duration::from_nanos`: the duration of that many nanoseconds.
pub assume_specification[ Duration::from_nanos ](nanos: u64) -> (d: Duration)
    ensures
        duration_nanos(d) == nanos,
;

/// `Duration::new`: the duration of that many seconds and nanoseconds. It panics
/// when the nanoseconds carry over the last second, so they are kept below one
/// second here.
pub assume_specification[ Duration::new ](secs: u64, nanos: u32) -> (d: Duration)
    requires
        nanos < 1_000_000_000,
    ensures
        duration_nanos(d) == secs * 1_000_000_000 + nanos,
;

/// The longest duration, in nanoseconds.
pub open spec fn max_duration_nanos() -> nat {
    0xFFFF_FFFF_FFFF_FFFFnat * 1_000_000_000 + 999_999_999
}

/// The low 64 bits of a nanosecond count.
pub open spec fn low_nanos(nanos: nat) -> u64 {
    (nanos % 0x1_0000_0000_0000_0000) as u64
}

/// The low 64 bits of a duration's nanosecond count.
pub fn truncated_nanos(d: Duration) -> (nanos: u64)
    ensures
        nanos == low_nanos(duration_nanos(d)),
        duration_nanos(d) <= u64::MAX ==> nanos == duration_nanos(d),
{
    let total: u128 = d.as_nanos();
    let nanos: u64 = (total % 0x1_0000_0000_0000_0000) as u64;
    nanos
}

/// The nanoseconds of a duration are bounded by those of the longest one.
pub fn total_nanos(d: Duration) -> (nanos: u128)
    ensures
        nanos == duration_nanos(d),
        nanos <= max_duration_nanos(),
{
    let secs: u64 = d.as_secs();
    assert(duration_nanos(d) < (secs + 1) * 1_000_000_000);
    d.as_nanos()
}

/// The duration of a number of nanoseconds that is in range.
pub fn duration_of(nanos: u128) -> (d: Duration)
    requires
        nanos <= max_duration_nanos(),
    ensures
        duration_nanos(d) == nanos,
{
    let secs: u64 = (nanos / 1_000_000_000) as u64;
    let rest: u32 = (nanos % 1_000_000_000) as u32;
    Duration::new(secs, rest)
}

} // verus!
