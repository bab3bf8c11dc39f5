//! Human-readable renderings of byte counts and ages.

use vstd::prelude::*;

use crate::text::{decimal, decimal_digits};
use crate::time::{nanos_per_sec, Duration};

verus! {

/// The text `bytesize` renders for a byte count with its default (binary-unit) style.
pub uninterp spec fn bytesize_text(n: u64) -> Seq<char>;

/// The byte-size unit letters, from kibi- to exbi-.
pub open spec fn binary_prefixes() -> Seq<char> {
    seq!['K', 'M', 'G', 'T', 'P', 'E']
}

/// Renders `n` bytes through `bytesize::ByteSize`'s `Display` impl.
///
/// Trusted: the text is whatever that impl writes for `ByteSize(n)`. Its
/// source writes counts below 1024 as the decimal count followed by " B";
/// larger counts as a number with one decimal place (computed in floating
/// point, so not stated here), a space, one of the letters K M G T P E and
/// "iB".
#[verifier::external_body]
fn bytesize_display(n: u64) -> (s: String)
    ensures
        s@ == bytesize_text(n),
        n < 1024 ==> s@ == decimal_digits(n as nat) + seq![' ', 'B'],
        n >= 1024 ==> {
            &&& s@.len() >= 4
            &&& s@[s@.len() - 4] == ' '
            &&& binary_prefixes().contains(s@[s@.len() - 3])
            &&& s@[s@.len() - 2] == 'i'
            &&& s@[s@.len() - 1] == 'B'
        },
{
    bytesize::ByteSize(n).to_string()
}

/// Format a byte count as a human-readable string (e.g. "1.2 GiB").
pub fn bytes(n: u64) -> (s: String)
    ensures
        s@ == bytesize_text(n),
        n < 1024 ==> s@ == decimal_digits(n as nat) + seq![' ', 'B'],
        n >= 1024 ==> {
            &&& s@.len() >= 4
            &&& s@[s@.len() - 4] == ' '
            &&& binary_prefixes().contains(s@[s@.len() - 3])
            &&& s@[s@.len() - 2] == 'i'
            &&& s@[s@.len() - 1] == 'B'
        },
{
    bytesize_display(n)
}

/// The count and unit name `age` reports for a span of `secs` seconds, when
/// that span is at least a minute: whole minutes below an hour, whole hours
/// below a day, whole days below a week, whole weeks below 30 days, whole
/// 30-day months below 365 days, and whole 365-day years beyond.
pub open spec fn age_count_unit(secs: nat) -> (nat, Seq<char>) {
    if secs < 3600 {
        (secs / 60, "minute"@)
    } else if secs < 86_400 {
        (secs / 3600, "hour"@)
    } else if secs < 604_800 {
        (secs / 86_400, "day"@)
    } else if secs < 2_592_000 {
        (secs / 604_800, "week"@)
    } else if secs < 31_536_000 {
        (secs / 2_592_000, "month"@)
    } else {
        (secs / 31_536_000, "year"@)
    }
}

/// The coarse age text for a span of `secs` whole seconds: "just now" below a
/// minute, else "<count> <unit>" with an "s" appended to the unit unless the
/// count is one.
pub open spec fn age_text(secs: nat) -> Seq<char> {
    if secs < 60 {
        "just now"@
    } else {
        let (n, unit) = age_count_unit(secs);
        decimal_digits(n) + " "@ + unit + (if n == 1 {
            Seq::empty()
        } else {
            "s"@
        })
    }
}

/// Format a `Duration` as a coarse-grained age string
/// (e.g. "3 days", "5 hours", "just now").
pub fn age(d: Duration) -> (s: String)
    ensures
        s@ == age_text((d@ / nanos_per_sec()) as nat),
{
    let secs = d.as_secs();
    if secs < 60 {
        return "just now".to_owned();
    }
    let (n, unit): (u64, &str) = if secs < 3600 {
        (secs / 60, "minute")
    } else if secs < 86_400 {
        (secs / 3600, "hour")
    } else if secs < 604_800 {
        (secs / 86_400, "day")
    } else if secs < 2_592_000 {
        (secs / 604_800, "week")
    } else if secs < 31_536_000 {
        (secs / 2_592_000, "month")
    } else {
        (secs / 31_536_000, "year")
    };
    let mut s = decimal(n);
    s.append(" ");
    s.append(unit);
    if n != 1 {
        s.append("s");
    }
    s
}

/// The rank of the unit `age` picks for a span of `secs` seconds: 0 for
/// "just now", then 1 to 6 for minutes, hours, days, weeks, months, years.
pub open spec fn age_rank(secs: nat) -> nat {
    if secs < 60 {
        0
    } else if secs < 3600 {
        1
    } else if secs < 86_400 {
        2
    } else if secs < 604_800 {
        3
    } else if secs < 2_592_000 {
        4
    } else if secs < 31_536_000 {
        5
    } else {
        6
    }
}

/// The unit word of each rank above "just now".
pub open spec fn rank_unit(rank: nat) -> Seq<char> {
    if rank == 1 {
        "minute"@
    } else if rank == 2 {
        "hour"@
    } else if rank == 3 {
        "day"@
    } else if rank == 4 {
        "week"@
    } else if rank == 5 {
        "month"@
    } else {
        "year"@
    }
}

/// Ages never fall as the span grows: a longer span gets a unit at least as
/// coarse, and within one unit a count at least as large. The unit named in
/// the text is the one of the span's rank.
pub proof fn law_age_never_falls(s1: nat, s2: nat)
    requires
        s1 <= s2,
    ensures
        age_rank(s1) <= age_rank(s2),
        age_rank(s1) == age_rank(s2) && age_rank(s1) > 0 ==> age_count_unit(s1).0 <= age_count_unit(
            s2,
        ).0,
        age_rank(s1) > 0 ==> age_count_unit(s1).1 == rank_unit(age_rank(s1)),
        age_rank(s1) == 0 ==> age_text(s1) == "just now"@,
{
    vstd::arithmetic::div_mod::lemma_div_is_ordered(s1 as int, s2 as int, 60);
    vstd::arithmetic::div_mod::lemma_div_is_ordered(s1 as int, s2 as int, 3600);
    vstd::arithmetic::div_mod::lemma_div_is_ordered(s1 as int, s2 as int, 86_400);
    vstd::arithmetic::div_mod::lemma_div_is_ordered(s1 as int, s2 as int, 604_800);
    vstd::arithmetic::div_mod::lemma_div_is_ordered(s1 as int, s2 as int, 2_592_000);
    vstd::arithmetic::div_mod::lemma_div_is_ordered(s1 as int, s2 as int, 31_536_000);
}

/// The age text depends on whole seconds only: two spans that agree on
/// them read the same.
pub proof fn law_age_ignores_subseconds(a: Duration, b: Duration)
    requires
        a@ / nanos_per_sec() == b@ / nanos_per_sec(),
    ensures
        age_text((a@ / nanos_per_sec()) as nat) == age_text((b@ / nanos_per_sec()) as nat),
{
}

} // verus!
