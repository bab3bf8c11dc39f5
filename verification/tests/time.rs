use dcmfree::time::{Duration, SystemTime};

#[test]
fn duration_parts_round_trip() {
    let d = Duration::new(5, 2_500_000_000);
    assert_eq!(d.as_secs(), 7);
    assert_eq!(d.subsec_nanos(), 500_000_000);
    assert!(d.at_least(&Duration::from_secs(7)));
    assert!(!Duration::from_secs(7).at_least(&d));
}

#[test]
fn duration_debug_text_matches_std() {
    let cases = [(0u64, 0u32), (1, 0), (86_400, 0), (1, 500_000_000), (0, 1_500_000), (0, 1_000),
        (0, 999), (0, 123_456_789), (3, 1), (u64::MAX, 999_999_999)];
    for (s, n) in cases {
        let ours = Duration::new(s, n).debug_text();
        let std_text = format!("{:?}", std::time::Duration::new(s, n));
        assert_eq!(ours, std_text);
    }
}

#[test]
fn system_time_arithmetic() {
    let epoch = SystemTime::unix_epoch();
    let t = epoch.checked_add(Duration::new(10, 900_000_000)).unwrap();
    let u = t.checked_add(Duration::new(0, 200_000_000)).unwrap();
    assert_eq!(u.duration_since(&t), Some(Duration::new(0, 200_000_000)));
    assert_eq!(t.duration_since(&u), None);
    assert_eq!(u.duration_since(&epoch), Some(Duration::new(11, 100_000_000)));
    let before = epoch.checked_sub(Duration::new(1, 1)).unwrap();
    assert_eq!(epoch.duration_since(&before), Some(Duration::new(1, 1)));
    assert!(t.later_than(&epoch));
    assert!(!epoch.later_than(&epoch));
    let far = epoch.checked_add(Duration::from_secs(i64::MAX as u64)).unwrap();
    assert!(far.checked_add(Duration::from_secs(1)).is_none());
    let low = epoch.checked_sub(Duration::from_secs(i64::MAX as u64)).unwrap();
    let lowest = low.checked_sub(Duration::from_secs(1)).unwrap();
    assert!(lowest.checked_sub(Duration::new(0, 1)).is_none());
    assert_eq!(far.duration_since(&lowest), Some(Duration::from_secs(u64::MAX)));
}
