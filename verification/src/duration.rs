use vstd::prelude::*;

verus! {

/// Largest number of nanoseconds a std `Duration` can hold
/// (`u64::MAX` whole seconds plus 999_999_999 nanoseconds).
pub open spec fn max_nanos() -> int {
    18446744073709551615999999999
}

/// A span of time, counted in nanoseconds.
///
/// Values built by this module never exceed `max_nanos()`, the range of
/// `std::time::Duration`.
#[derive(Clone, Copy, Debug, PartialEq, Eq, Structural, PartialOrd, Ord, Hash)]
pub struct Duration {
    pub nanos: u128,
}

impl View for Duration {
    type V = int;

    open spec fn view(&self) -> int {
        self.nanos as int
    }
}

impl Duration {
    /// The duration fits the range of `std::time::Duration`.
    pub open spec fn in_range(self) -> bool {
        self@ <= max_nanos()
    }

    pub fn zero() -> (d: Duration)
        ensures
            d@ == 0,
    {
        Duration { nanos: 0 }
    }

    pub fn from_nanos(n: u64) -> (d: Duration)
        ensures
            d@ == n,
            d.in_range(),
    {
        Duration { nanos: n as u128 }
    }

    pub fn from_micros(us: u64) -> (d: Duration)
        ensures
            d@ == us * 1000,
            d.in_range(),
    {
        Duration { nanos: (us as u128) * 1000 }
    }

    pub fn from_millis(ms: u64) -> (d: Duration)
        ensures
            d@ == ms * 1_000_000,
            d.in_range(),
    {
        Duration { nanos: (ms as u128) * 1_000_000 }
    }

    pub fn from_secs(secs: u64) -> (d: Duration)
        ensures
            d@ == secs * 1_000_000_000,
            d.in_range(),
    {
        Duration { nanos: (secs as u128) * 1_000_000_000 }
    }

    pub fn as_nanos(&self) -> (n: u128)
        ensures
            n == self@,
    {
        self.nanos
    }

    pub fn is_zero(&self) -> (b: bool)
        ensures
            b == (self@ == 0),
    {
        self.nanos == 0
    }

    /// `self < other`.
    pub fn lt(&self, other: &Duration) -> (b: bool)
        ensures
            b == (self@ < other@),
    {
        self.nanos < other.nanos
    }

    /// `self <= other`.
    pub fn le(&self, other: &Duration) -> (b: bool)
        ensures
            b == (self@ <= other@),
    {
        self.nanos <= other.nanos
    }

    /// Sum of two durations; std's `+` panics where the sum leaves its range.
    pub fn add(&self, other: &Duration) -> (d: Duration)
        requires
            self@ + other@ <= max_nanos(),
        ensures
            d@ == self@ + other@,
    {
        Duration { nanos: self.nanos + other.nanos }
    }

    /// Difference of two durations; std's `-` panics when `other > self`.
    pub fn sub(&self, other: &Duration) -> (d: Duration)
        requires
            other@ <= self@,
        ensures
            d@ == self@ - other@,
    {
        Duration { nanos: self.nanos - other.nanos }
    }

    /// Division by a `u32`, rounding the nanosecond count down, as std's
    /// `Duration / u32` does; std panics when the divisor is zero.
    pub fn div_u32(&self, rhs: u32) -> (d: Duration)
        requires
            rhs > 0,
        ensures
            d@ == self@ / (rhs as int),
            self.in_range() ==> d.in_range(),
    {
        let q = self.nanos / (rhs as u128);
        proof {
            vstd::arithmetic::div_mod::lemma_div_is_ordered_by_denominator(self@, 1, rhs as int);
            vstd::arithmetic::div_mod::lemma_div_by_self(1);
        }
        Duration { nanos: q }
    }
}

} // verus!
