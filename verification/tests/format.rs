use dcmfree::format::{age, bytes};
use dcmfree::time::Duration;

#[test]
fn bytes_zero() {
    assert_eq!(bytes(0), "0 B");
}

#[test]
fn bytes_kib_boundary() {
    let s = bytes(1024);
    assert!(s.starts_with("1"), "expected leading 1, got {s}");
    assert!(s.contains('K'), "expected K-unit suffix, got {s}");
}

#[test]
fn bytes_gib() {
    let s = bytes(2_147_483_648);
    assert!(s.contains('G'), "expected G-unit suffix, got {s}");
}

#[test]
fn bytes_below_one_kib_is_plain_count() {
    assert_eq!(bytes(1023), "1023 B");
    assert_eq!(bytes(7), "7 B");
}

#[test]
fn bytes_large_values_use_binary_units() {
    assert_eq!(bytes(1024), "1.0 KiB");
    assert_eq!(bytes(1536), "1.5 KiB");
    assert!(bytes(u64::MAX).ends_with("EiB"));
}

#[test]
fn age_just_now() {
    assert_eq!(age(Duration::from_secs(0)), "just now");
    assert_eq!(age(Duration::from_secs(59)), "just now");
}

#[test]
fn age_minutes_singular() {
    assert_eq!(age(Duration::from_secs(60)), "1 minute");
}

#[test]
fn age_minutes_plural() {
    assert_eq!(age(Duration::from_secs(120)), "2 minutes");
}

#[test]
fn age_hours() {
    assert_eq!(age(Duration::from_secs(3600)), "1 hour");
    assert_eq!(age(Duration::from_secs(7200)), "2 hours");
}

#[test]
fn age_days() {
    assert_eq!(age(Duration::from_secs(86_400)), "1 day");
    assert_eq!(age(Duration::from_secs(3 * 86_400)), "3 days");
}

#[test]
fn age_weeks() {
    assert_eq!(age(Duration::from_secs(7 * 86_400)), "1 week");
    assert_eq!(age(Duration::from_secs(14 * 86_400)), "2 weeks");
}

#[test]
fn age_months() {
    assert_eq!(age(Duration::from_secs(31 * 86_400)), "1 month");
}

#[test]
fn age_years() {
    assert_eq!(age(Duration::from_secs(366 * 86_400)), "1 year");
}

#[test]
fn age_bucket_edges() {
    assert_eq!(age(Duration::new(59, 999_999_999)), "just now");
    assert_eq!(age(Duration::from_secs(3599)), "59 minutes");
    assert_eq!(age(Duration::from_secs(86_399)), "23 hours");
    assert_eq!(age(Duration::from_secs(604_799)), "6 days");
    assert_eq!(age(Duration::from_secs(2_591_999)), "4 weeks");
    assert_eq!(age(Duration::from_secs(31_535_999)), "12 months");
    assert_eq!(age(Duration::from_secs(10 * 31_536_000)), "10 years");
    assert_eq!(age(Duration::from_secs(u64::MAX)), "584942417355 years");
}

#[test]
fn ages_never_fall_as_the_span_grows() {
    let spans = [0u64, 59, 60, 119, 120, 3599, 3600, 86_399, 86_400, 604_799, 604_800, 2_591_999,
        2_592_000, 31_535_999, 31_536_000, 63_072_000];
    let rank = |t: &str| {
        if t == "just now" {
            return (0, 0);
        }
        let mut parts = t.split(' ');
        let n: u64 = parts.next().unwrap().parse().unwrap();
        let unit = parts.next().unwrap().trim_end_matches('s');
        let r = ["minute", "hour", "day", "week", "month", "year"].iter().position(|u| *u == unit).unwrap() + 1;
        (r, n)
    };
    for w in spans.windows(2) {
        let (r1, n1) = rank(&age(Duration::from_secs(w[0])));
        let (r2, n2) = rank(&age(Duration::from_secs(w[1])));
        assert!(r1 <= r2);
        if r1 == r2 {
            assert!(n1 <= n2);
        }
    }
}

#[test]
fn age_ignores_subseconds() {
    assert_eq!(age(Duration::new(3600, 0)), age(Duration::new(3600, 999_999_999)));
}
