//! Simulation time.

use crate::duration::truncated_nanos;
use crate::text::{decimal_string, three_digit_string};
use std::ops::{Add, Mul, Sub};
use std::time::Duration;
use vstd::prelude::*;
use vstd::string::StringExecFns;

verus! {

broadcast use vstd::string::group_string_axioms;

/// A point in simulation time, in nanoseconds since the start.
#[derive(Debug, Clone, Copy, PartialEq, Eq, Structural, Hash, Ord)]
pub struct SimTime(pub u64);

/// How a time is written: in the largest unit that does not make it less than
/// one, with three decimals for all units but the nanosecond.
pub open spec fn time_text(nanos: nat) -> Seq<char> {
    if nanos >= 1_000_000_000 {
        crate::text::decimal(nanos / 1_000_000_000) + "."@ + crate::text::three_digits(
            nanos / 1_000_000 % 1000,
        ) + "s"@
    } else if nanos >= 1_000_000 {
        crate::text::decimal(nanos / 1_000_000) + "."@ + crate::text::three_digits(
            nanos / 1000 % 1000,
        ) + "ms"@
    } else if nanos >= 1000 {
        crate::text::decimal(nanos / 1000) + "."@ + crate::text::three_digits(nanos % 1000)
            + "µs"@
    } else {
        crate::text::decimal(nanos) + "ns"@
    }
}

/// Writes a whole part and three decimals, followed by a unit.
fn fixed_point(whole: u64, thousandths: u64, unit: &str) -> (s: String)
    requires
        thousandths < 1000,
    ensures
        s@ == crate::text::decimal(whole as nat) + "."@ + crate::text::three_digits(
            thousandths as nat,
        ) + unit@,
{
    let mut s = decimal_string(whole);
    s.append(".");
    s.append(three_digit_string(thousandths).as_str());
    s.append(unit);
    s
}

impl SimTime {
    /// The start of the simulation.
    pub fn zero() -> (t: Self)
        ensures
            t.0 == 0,
    {
        SimTime(0)
    }

    pub fn from_nanos(nanos: u64) -> (t: Self)
        ensures
            t.0 == nanos,
    {
        SimTime(nanos)
    }

    pub fn from_micros(micros: u64) -> (t: Self)
        requires
            micros * 1_000 <= u64::MAX,
        ensures
            t.0 == micros * 1_000,
    {
        SimTime(micros * 1_000)
    }

    pub fn from_millis(millis: u64) -> (t: Self)
        requires
            millis * 1_000_000 <= u64::MAX,
        ensures
            t.0 == millis * 1_000_000,
    {
        SimTime(millis * 1_000_000)
    }

    pub fn from_secs(secs: u64) -> (t: Self)
        requires
            secs * 1_000_000_000 <= u64::MAX,
        ensures
            t.0 == secs * 1_000_000_000,
    {
        SimTime(secs * 1_000_000_000)
    }

    /// The time that lies a duration after the start. A duration of more than
    /// 64 bits of nanoseconds keeps its low 64 bits.
    pub fn from_duration(duration: Duration) -> (t: Self)
        ensures
            t.0 == crate::duration::low_nanos(crate::duration::duration_nanos(duration)),
    {
        SimTime(truncated_nanos(duration))
    }

    /// The duration from the start to this time.
    pub fn as_duration(&self) -> (d: Duration)
        ensures
            crate::duration::duration_nanos(d) == self.0,
    {
        Duration::from_nanos(self.0)
    }

    pub fn as_nanos(&self) -> (nanos: u64)
        ensures
            nanos == self.0,
    {
        self.0
    }

    /// The duration since another time, and zero where that one is later.
    pub fn duration_since(&self, earlier: SimTime) -> (d: Duration)
        ensures
            crate::duration::duration_nanos(d) == self.0.saturating_sub(earlier.0),
    {
        Duration::from_nanos(self.0.saturating_sub(earlier.0))
    }

    /// The time a duration later, and the last time where there is none.
    pub fn add_duration(&self, duration: Duration) -> (t: Self)
        ensures
            t.0 == self.0.saturating_add(
                crate::duration::low_nanos(crate::duration::duration_nanos(duration)),
            ),
    {
        SimTime(self.0.saturating_add(truncated_nanos(duration)))
    }

    /// The time a duration earlier, and the start where there is none.
    pub fn sub_duration(&self, duration: Duration) -> (t: Self)
        ensures
            t.0 == self.0.saturating_sub(
                crate::duration::low_nanos(crate::duration::duration_nanos(duration)),
            ),
    {
        SimTime(self.0.saturating_sub(truncated_nanos(duration)))
    }

    /// The time as text: `1.500s`, `2.000ms`, `3.141µs`, `42ns`.
    pub fn to_string(&self) -> (s: String)
        ensures
            s@ == time_text(self.0 as nat),
    {
        let nanos: u64 = self.0;
        if nanos >= 1_000_000_000 {
            fixed_point(nanos / 1_000_000_000, nanos / 1_000_000 % 1000, "s")
        } else if nanos >= 1_000_000 {
            fixed_point(nanos / 1_000_000, nanos / 1000 % 1000, "ms")
        } else if nanos >= 1000 {
            fixed_point(nanos / 1000, nanos % 1000, "µs")
        } else {
            let mut s = decimal_string(nanos);
            s.append("ns");
            s
        }
    }
}

impl PartialOrd for SimTime {
    fn partial_cmp(&self, other: &Self) -> (o: Option<std::cmp::Ordering>) {
        if self.0 < other.0 {
            Some(std::cmp::Ordering::Less)
        } else if self.0 == other.0 {
            Some(std::cmp::Ordering::Equal)
        } else {
            Some(std::cmp::Ordering::Greater)
        }
    }
}

impl vstd::std_specs::cmp::PartialOrdSpecImpl for SimTime {
    open spec fn obeys_partial_cmp_spec() -> bool {
        true
    }

    open spec fn partial_cmp_spec(&self, other: &Self) -> Option<std::cmp::Ordering> {
        if self.0 < other.0 {
            Some(std::cmp::Ordering::Less)
        } else if self.0 == other.0 {
            Some(std::cmp::Ordering::Equal)
        } else {
            Some(std::cmp::Ordering::Greater)
        }
    }
}

impl Add<SimTime> for SimTime {
    type Output = SimTime;

    fn add(self, rhs: SimTime) -> (t: SimTime)
        ensures
            t.0 == self.0.saturating_add(rhs.0),
    {
        SimTime(self.0.saturating_add(rhs.0))
    }
}

impl vstd::std_specs::ops::AddSpecImpl<SimTime> for SimTime {
    open spec fn obeys_add_spec() -> bool {
        true
    }

    open spec fn add_req(self, rhs: SimTime) -> bool {
        true
    }

    open spec fn add_spec(self, rhs: SimTime) -> SimTime {
        SimTime(self.0.saturating_add(rhs.0))
    }
}

impl Add<Duration> for SimTime {
    type Output = SimTime;

    fn add(self, rhs: Duration) -> (t: SimTime) {
        self.add_duration(rhs)
    }
}

impl vstd::std_specs::ops::AddSpecImpl<Duration> for SimTime {
    open spec fn obeys_add_spec() -> bool {
        true
    }

    open spec fn add_req(self, rhs: Duration) -> bool {
        true
    }

    open spec fn add_spec(self, rhs: Duration) -> SimTime {
        SimTime(
            self.0.saturating_add(
                crate::duration::low_nanos(crate::duration::duration_nanos(rhs)),
            ),
        )
    }
}

impl Sub<Duration> for SimTime {
    type Output = SimTime;

    fn sub(self, rhs: Duration) -> (t: SimTime) {
        self.sub_duration(rhs)
    }
}

impl vstd::std_specs::ops::SubSpecImpl<Duration> for SimTime {
    open spec fn obeys_sub_spec() -> bool {
        true
    }

    open spec fn sub_req(self, rhs: Duration) -> bool {
        true
    }

    open spec fn sub_spec(self, rhs: Duration) -> SimTime {
        SimTime(
            self.0.saturating_sub(
                crate::duration::low_nanos(crate::duration::duration_nanos(rhs)),
            ),
        )
    }
}

impl Sub<SimTime> for SimTime {
    type Output = Duration;

    fn sub(self, rhs: SimTime) -> (d: Duration)
        ensures
            crate::duration::duration_nanos(d) == self.0.saturating_sub(rhs.0),
    {
        self.duration_since(rhs)
    }
}

impl vstd::std_specs::ops::SubSpecImpl<SimTime> for SimTime {
    open spec fn obeys_sub_spec() -> bool {
        false
    }

    open spec fn sub_req(self, rhs: SimTime) -> bool {
        true
    }

    open spec fn sub_spec(self, rhs: SimTime) -> Duration {
        arbitrary()
    }
}

/// A time scaled by a factor, and the last time where the product is too large.
pub open spec fn scaled(nanos: u64, factor: u64) -> u64 {
    if nanos * factor <= u64::MAX {
        (nanos * factor) as u64
    } else {
        u64::MAX
    }
}

impl Mul<u64> for SimTime {
    type Output = SimTime;

    fn mul(self, rhs: u64) -> (t: SimTime) {
        match self.0.checked_mul(rhs) {
            Some(nanos) => SimTime(nanos),
            None => SimTime(u64::MAX),
        }
    }
}

impl vstd::std_specs::ops::MulSpecImpl<u64> for SimTime {
    open spec fn obeys_mul_spec() -> bool {
        true
    }

    open spec fn mul_req(self, rhs: u64) -> bool {
        true
    }

    open spec fn mul_spec(self, rhs: u64) -> SimTime {
        SimTime(scaled(self.0, rhs))
    }
}

impl Default for SimTime {
    fn default() -> (t: Self)
        ensures
            t.0 == 0,
    {
        SimTime::zero()
    }
}

/// A time survives the way into a duration and back.
pub proof fn time_round_trip(t: SimTime, d: Duration, back: SimTime)
    requires
        crate::duration::duration_nanos(d) == t.0,
        back.0 == crate::duration::low_nanos(crate::duration::duration_nanos(d)),
    ensures
        back == t,
{
}

/// Going forward and back by one amount returns to the start, wherever the last
/// time was not reached.
pub proof fn time_forward_and_back(t: SimTime, delay: SimTime)
    requires
        t.0 + delay.0 <= u64::MAX,
    ensures
        t.0.saturating_add(delay.0).saturating_sub(t.0) == delay.0,
        t.0.saturating_add(delay.0).saturating_sub(delay.0) == t.0,
{
}

/// Adding a delay never goes back in time, and a longer delay never arrives
/// earlier.
pub proof fn time_addition_is_monotone(t: SimTime, a: SimTime, b: SimTime)
    requires
        a.0 <= b.0,
    ensures
        t.0 <= t.0.saturating_add(a.0) <= t.0.saturating_add(b.0),
{
}

} // verus!
