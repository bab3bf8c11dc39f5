//! Plain-value models of spans of time and of wall-clock instants.
//!
//! `Duration` is a non-negative number of nanoseconds, split into whole
//! seconds and a sub-second remainder as `std::time::Duration` is.
//! `SystemTime` is a signed number of nanoseconds relative to the Unix epoch,
//! with the seconds part in the range of an `i64`, as on Unix platforms.
//! Both are viewed as the exact integer number of nanoseconds they denote.

use vstd::prelude::*;

use crate::text::{decimal, decimal_digits, fraction, fraction_digits};

verus! {

/// Nanoseconds in one second.
pub open spec fn nanos_per_sec() -> int {
    1_000_000_000
}

/// The largest number of nanoseconds a `Duration` can hold.
pub open spec fn max_duration_nanos() -> int {
    u64::MAX as int * nanos_per_sec() + (nanos_per_sec() - 1)
}

/// The smallest number of nanoseconds (relative to the epoch) a `SystemTime` can hold.
pub open spec fn min_time_nanos() -> int {
    i64::MIN as int * nanos_per_sec()
}

/// The largest number of nanoseconds (relative to the epoch) a `SystemTime` can hold.
pub open spec fn max_time_nanos() -> int {
    i64::MAX as int * nanos_per_sec() + (nanos_per_sec() - 1)
}

/// Whether `n` nanoseconds can stand in a `SystemTime`.
pub open spec fn time_in_range(n: int) -> bool {
    min_time_nanos() <= n <= max_time_nanos()
}

/// A span of time: `secs` whole seconds and `nanos` (< 10^9) nanoseconds.
#[derive(Clone, Copy, Debug, PartialEq, Eq, Structural, PartialOrd, Ord, Hash)]
pub struct Duration {
    pub(crate) secs: u64,
    pub(crate) nanos: u32,
}

impl Duration {
    #[verifier::type_invariant]
    spec fn inv(self) -> bool {
        self.nanos < 1_000_000_000
    }

    /// Total length in nanoseconds.
    pub closed spec fn total_nanos(self) -> int {
        self.secs * nanos_per_sec() + self.nanos
    }

    /// The empty span.
    pub fn zero() -> (d: Duration)
        ensures
            d@ == 0,
    {
        Duration { secs: 0, nanos: 0 }
    }

    /// A span of `secs` whole seconds.
    pub fn from_secs(secs: u64) -> (d: Duration)
        ensures
            d@ == secs * nanos_per_sec(),
    {
        Duration { secs, nanos: 0 }
    }

    /// A span of `secs` seconds plus `nanos` nanoseconds; nanoseconds beyond a
    /// second carry into the seconds.
    pub fn new(secs: u64, nanos: u32) -> (d: Duration)
        requires
            secs + nanos / 1_000_000_000 <= u64::MAX,
        ensures
            d@ == secs * nanos_per_sec() + nanos,
    {
        let extra: u64 = (nanos / 1_000_000_000) as u64;
        let rest: u32 = nanos % 1_000_000_000;
        Duration { secs: secs + extra, nanos: rest }
    }

    /// The number of whole seconds in the span.
    pub fn as_secs(&self) -> (s: u64)
        ensures
            s == self@ / nanos_per_sec(),
    {
        proof {
            use_type_invariant(self);
        }
        self.secs
    }

    /// The nanoseconds beyond the whole seconds.
    pub fn subsec_nanos(&self) -> (n: u32)
        ensures
            n == self@ % nanos_per_sec(),
    {
        proof {
            use_type_invariant(self);
        }
        self.nanos
    }

    /// Whether this span is at least as long as `other`.
    pub fn at_least(&self, other: &Duration) -> (b: bool)
        ensures
            b == (self@ >= other@),
    {
        proof {
            use_type_invariant(self);
            use_type_invariant(other);
        }
        self.secs > other.secs || (self.secs == other.secs && self.nanos >= other.nanos)
    }
}

/// `whole` followed, when `frac` has digits, by a point and those digits, then `unit`.
pub open spec fn decimal_with_unit(whole: nat, frac: Seq<char>, unit: Seq<char>) -> Seq<char> {
    decimal_digits(whole) + (if frac.len() == 0 {
        Seq::empty()
    } else {
        seq!['.'] + frac
    }) + unit
}

/// The text `{:?}` gives for a `std::time::Duration` of `n` nanoseconds: in
/// seconds when it is at least one second, else in milliseconds, microseconds
/// or nanoseconds, whichever is the largest unit it reaches; the fraction
/// below the unit is written in full without trailing zeros.
pub open spec fn duration_debug_text(n: int) -> Seq<char> {
    let secs = n / nanos_per_sec();
    let sub = n % nanos_per_sec();
    if secs > 0 {
        decimal_with_unit(secs as nat, fraction_digits(sub as nat, 9), "s"@)
    } else if sub >= 1_000_000 {
        decimal_with_unit((sub / 1_000_000) as nat, fraction_digits((sub % 1_000_000) as nat, 6), "ms"@)
    } else if sub >= 1_000 {
        decimal_with_unit((sub / 1_000) as nat, fraction_digits((sub % 1_000) as nat, 3), "\u{b5}s"@)
    } else {
        decimal_digits(sub as nat) + "ns"@
    }
}

impl Duration {
    /// The span as `std::time::Duration`'s `Debug` impl writes it (e.g.
    /// "86400s", "1.5ms", "0ns").
    pub fn debug_text(&self) -> (s: String)
        ensures
            s@ == duration_debug_text(self@),
    {
        proof {
            use_type_invariant(self);
        }
        let mut s;
        if self.secs > 0 {
            s = decimal(self.secs);
            let f = fraction(self.nanos, 9);
            if f.as_str().unicode_len() > 0 {
                s.append(".");
                s.append(f.as_str());
            }
            proof { reveal_strlit("."); }
            s.append("s");
        } else if self.nanos >= 1_000_000 {
            s = decimal((self.nanos / 1_000_000) as u64);
            let f = fraction(self.nanos % 1_000_000, 6);
            if f.as_str().unicode_len() > 0 {
                s.append(".");
                s.append(f.as_str());
            }
            proof { reveal_strlit("."); }
            s.append("ms");
        } else if self.nanos >= 1_000 {
            s = decimal((self.nanos / 1_000) as u64);
            let f = fraction(self.nanos % 1_000, 3);
            if f.as_str().unicode_len() > 0 {
                s.append(".");
                s.append(f.as_str());
            }
            proof { reveal_strlit("."); }
            s.append("\u{b5}s");
        } else {
            s = decimal(self.nanos as u64);
            s.append("ns");
        }
        assert(s@ =~= duration_debug_text(self@));
        s
    }
}

impl View for Duration {
    type V = int;

    open spec fn view(&self) -> int {
        self.total_nanos()
    }
}

/// A wall-clock instant: `secs` seconds (possibly negative) plus `nanos`
/// (< 10^9) nanoseconds after the Unix epoch.
#[derive(Clone, Copy, Debug, PartialEq, Eq, Structural, PartialOrd, Ord, Hash)]
pub struct SystemTime {
    pub(crate) secs: i64,
    pub(crate) nanos: u32,
}

impl SystemTime {
    #[verifier::type_invariant]
    spec fn inv(self) -> bool {
        self.nanos < 1_000_000_000
    }

    /// Nanoseconds relative to the Unix epoch.
    pub closed spec fn epoch_nanos(self) -> int {
        self.secs * nanos_per_sec() + self.nanos
    }

    /// The Unix epoch, as a spec value.
    pub closed spec fn spec_unix_epoch() -> SystemTime {
        SystemTime { secs: 0, nanos: 0 }
    }

    /// The Unix epoch.
    pub fn unix_epoch() -> (t: SystemTime)
        ensures
            t == SystemTime::spec_unix_epoch(),
            t@ == 0,
    {
        SystemTime { secs: 0, nanos: 0 }
    }

    /// The instant `d` after this one, or `None` where it cannot be represented.
    pub fn checked_add(&self, d: Duration) -> (r: Option<SystemTime>)
        ensures
            r is Some <==> time_in_range(self@ + d@),
            r matches Some(t) ==> t@ == self@ + d@,
    {
        proof {
            use_type_invariant(self);
            use_type_invariant(d);
        }
        let dsecs: i128 = d.secs as i128;
        let secs: i128 = self.secs as i128 + dsecs;
        let mut nanos: u32 = self.nanos + d.nanos;
        let mut secs2: i128 = secs;
        if nanos >= 1_000_000_000 {
            nanos = nanos - 1_000_000_000;
            secs2 = secs + 1;
        }
        if secs2 > i64::MAX as i128 {
            None
        } else {
            Some(SystemTime { secs: secs2 as i64, nanos })
        }
    }

    /// The instant `d` before this one, or `None` where it cannot be represented.
    pub fn checked_sub(&self, d: Duration) -> (r: Option<SystemTime>)
        ensures
            r is Some <==> time_in_range(self@ - d@),
            r matches Some(t) ==> t@ == self@ - d@,
    {
        proof {
            use_type_invariant(self);
            use_type_invariant(d);
        }
        let dsecs: i128 = d.secs as i128;
        let secs: i128 = self.secs as i128 - dsecs;
        let mut nanos: u32 = self.nanos;
        let mut secs2: i128 = secs;
        if nanos < d.nanos {
            nanos = nanos + 1_000_000_000 - d.nanos;
            secs2 = secs - 1;
        } else {
            nanos = nanos - d.nanos;
        }
        if secs2 < i64::MIN as i128 {
            None
        } else {
            Some(SystemTime { secs: secs2 as i64, nanos })
        }
    }

    /// Whether this instant is strictly later than `other`.
    pub fn later_than(&self, other: &SystemTime) -> (b: bool)
        ensures
            b == (self@ > other@),
    {
        proof {
            use_type_invariant(self);
            use_type_invariant(other);
        }
        self.secs > other.secs || (self.secs == other.secs && self.nanos > other.nanos)
    }

    /// The span from `earlier` to this instant, or `None` when `earlier` is
    /// later than this instant.
    pub fn duration_since(&self, earlier: &SystemTime) -> (r: Option<Duration>)
        ensures
            r is Some <==> self@ >= earlier@,
            r matches Some(d) ==> d@ == self@ - earlier@,
    {
        proof {
            use_type_invariant(self);
            use_type_invariant(earlier);
        }
        if self.secs < earlier.secs || (self.secs == earlier.secs && self.nanos < earlier.nanos) {
            return None;
        }
        let ds: i128 = self.secs as i128 - earlier.secs as i128;
        if self.nanos >= earlier.nanos {
            Some(Duration { secs: ds as u64, nanos: self.nanos - earlier.nanos })
        } else {
            Some(Duration { secs: (ds - 1) as u64, nanos: self.nanos + 1_000_000_000 - earlier.nanos })
        }
    }
}

impl View for SystemTime {
    type V = int;

    open spec fn view(&self) -> int {
        self.epoch_nanos()
    }
}

} // verus!
