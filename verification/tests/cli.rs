use dcmfree::cli::{
    clean_next, info_lines, is_affirmative, layer_stats, layers_dir, nothing_to_destroy_line,
    parse_duration, plan_lines, summary_lines, table_lines, CleanAction, CleanTally, CommonArgs,
};
use dcmfree::errors::DcmFreeError;
use dcmfree::layers::LayerInfo;
use dcmfree::time::{Duration, SystemTime};

fn at(secs: u64) -> SystemTime {
    SystemTime::unix_epoch().checked_add(Duration::from_secs(secs)).unwrap()
}

fn layer(id: &str, size: u64, created: u64, orphan: bool) -> LayerInfo {
    LayerInfo {
        path: format!("C:\\Layers\\{id}"),
        id: id.into(),
        size_bytes: size,
        file_count: 1,
        created_at: at(created),
        last_modified: at(created),
        last_accessed: at(created),
        orphan,
    }
}

#[test]
fn parse_duration_supports_compact_forms() {
    assert_eq!(parse_duration("30s").unwrap(), Duration::from_secs(30));
    assert_eq!(parse_duration("5m").unwrap(), Duration::from_secs(300));
    assert_eq!(parse_duration("2h").unwrap(), Duration::from_secs(7200));
    assert_eq!(parse_duration("1d").unwrap(), Duration::from_secs(86_400));
}

#[test]
fn parse_duration_zero_disables_guard() {
    assert_eq!(parse_duration("0").unwrap(), Duration::zero());
}

#[test]
fn parse_duration_rejects_garbage_naming_input() {
    let msg = parse_duration("banana").unwrap_err();
    assert!(msg.starts_with("invalid duration 'banana': "), "got: {msg}");
    assert!(msg.len() > "invalid duration 'banana': ".len());
}

#[test]
fn parse_duration_refuses_overweight_text_without_panicking() {
    let msg = parse_duration("18446744073709551615s 1000ms").unwrap_err();
    assert_eq!(
        msg,
        "invalid duration '18446744073709551615s 1000ms': number is too large or cannot be represented without a lack of precision (values below 1ns are not supported)"
    );
    assert_eq!(parse_duration("100000000000s").unwrap(), Duration::from_secs(100_000_000_000));
    assert_eq!(parse_duration("000000000001s").unwrap(), Duration::from_secs(1));
    assert_eq!(parse_duration("584542046089s").unwrap(), Duration::from_secs(584_542_046_089));
    assert!(parse_duration("584542046090s").is_err());
    assert_eq!(parse_duration("1.5h").unwrap(), Duration::from_secs(5400));
    assert_eq!(parse_duration("1h 30m").unwrap(), Duration::from_secs(5400));
}

#[test]
fn parse_duration_keeps_subsecond_part() {
    assert_eq!(parse_duration("1500ms").unwrap(), Duration::new(1, 500_000_000));
}

#[test]
fn layers_dir_defaults_to_hcs_path() {
    let common = CommonArgs { layers_dir: None, json: false };
    assert_eq!(layers_dir(&common), dcmfree::DEFAULT_LAYERS_DIR);
    let common = CommonArgs { layers_dir: Some(r"D:\custom".into()), json: true };
    assert_eq!(layers_dir(&common), r"D:\custom");
}

#[test]
fn is_affirmative_accepts_y_and_yes_in_any_case() {
    assert!(is_affirmative("y\n"));
    assert!(is_affirmative("  YES \r\n"));
    assert!(is_affirmative("Yes"));
    assert!(!is_affirmative(""));
    assert!(!is_affirmative("no"));
    assert!(!is_affirmative("yess"));
    assert!(!is_affirmative("y e s"));
}

#[test]
fn clean_next_follows_the_gates_in_order() {
    assert_eq!(clean_next(0, false, true, Some(true), None), CleanAction::ReportNothing);
    assert_eq!(clean_next(2, true, false, None, None), CleanAction::ReportDryRun);
    assert_eq!(clean_next(2, false, false, None, None), CleanAction::CheckElevation);
    assert_eq!(clean_next(2, false, true, Some(false), None), CleanAction::RefuseNotElevated);
    assert_eq!(clean_next(2, false, true, Some(true), None), CleanAction::Destroy);
    assert_eq!(clean_next(2, false, false, Some(true), None), CleanAction::AskConfirmation);
    assert_eq!(clean_next(2, false, false, Some(true), Some(false)), CleanAction::ReportAborted);
    assert_eq!(clean_next(2, false, false, Some(true), Some(true)), CleanAction::Destroy);
}

#[test]
fn clean_tally_counts_successes_and_failures() {
    let mut t = CleanTally::new();
    assert!(t.record(100, Ok(())).is_ok());
    assert!(t
        .record(5, Err(DcmFreeError::HcsDestroyFailed { path: "C:\\x".into(), hresult: 0x8007_0005 }))
        .is_ok());
    assert!(t.record(u64::MAX, Ok(())).is_ok());
    assert_eq!(t.destroyed, 2);
    assert_eq!(t.bytes_freed, u64::MAX);
    assert_eq!(t.failed, vec![("C:\\x".to_string(), 0x8007_0005)]);
    let err = t.record(1, Err(DcmFreeError::NotElevated)).unwrap_err();
    assert!(matches!(err, DcmFreeError::NotElevated));
    assert_eq!(t.destroyed, 2);
}

#[test]
fn summary_lines_report_failures() {
    let mut t = CleanTally::new();
    t.record(2048, Ok(())).unwrap();
    t.record(1, Err(DcmFreeError::HcsDestroyFailed { path: "C:\\y".into(), hresult: 0x8000_4005 }))
        .unwrap();
    let lines = summary_lines(&t, 2);
    assert_eq!(
        lines,
        vec![
            "\nDestroyed 1/2 layers, reclaimed approximately 2.0 KiB.".to_string(),
            "\nFailures:".to_string(),
            "  0x80004005  C:\\y".to_string(),
        ]
    );
    let lines = summary_lines(&CleanTally::new(), 0);
    assert_eq!(lines, vec!["\nDestroyed 0/0 layers, reclaimed approximately 0 B.".to_string()]);
}

#[test]
fn nothing_to_destroy_line_uses_debug_duration() {
    assert_eq!(
        nothing_to_destroy_line(&Duration::from_secs(86_400)),
        "No orphan layers older than 86400s to destroy."
    );
    assert_eq!(nothing_to_destroy_line(&Duration::zero()), "No orphan layers older than 0ns to destroy.");
}

#[test]
fn plan_lines_list_targets_with_total() {
    let layers = vec![layer("aaaa", 4096, 0, true), layer("bbbb", 8192, 0, true)];
    let targets: Vec<&LayerInfo> = layers.iter().collect();
    let lines = plan_lines(&targets, at(3 * 86_400)).unwrap();
    assert_eq!(
        lines,
        vec![
            "Will destroy 2 layers (12.0 KiB):".to_string(),
            "  4.0 KiB  aaaa  age 3 days".to_string(),
            "  8.0 KiB  bbbb  age 3 days".to_string(),
        ]
    );
}

#[test]
fn plan_lines_refuse_overflowing_total() {
    let layers = vec![layer("a", u64::MAX, 0, true), layer("b", 1, 0, true)];
    let targets: Vec<&LayerInfo> = layers.iter().collect();
    assert!(plan_lines(&targets, at(0)).is_none());
}

#[test]
fn table_lines_render_columns() {
    let layers = vec![layer("aaaa", 8192, 0, true), layer("bbbb", 10, 7200, false)];
    let lines = table_lines(&layers, at(7200));
    assert_eq!(lines[0], "      SIZE   ORPHAN         AGE  ID");
    assert_eq!(lines[1], "   8.0 KiB      yes     2 hours  aaaa");
    assert_eq!(lines[2], "      10 B       no    just now  bbbb");
    assert_eq!(lines.len(), 3);
    assert_eq!(table_lines(&[], at(0)), vec!["(no layers found)".to_string()]);
}

#[test]
fn info_lines_report_totals() {
    let layers = vec![layer("aaaa", 4096, 0, true), layer("bbbb", 8192, 0, false)];
    let stats = layer_stats(&layers).unwrap();
    assert_eq!(stats.layer_count, 2);
    assert_eq!(stats.orphan_count, 1);
    assert_eq!(stats.total_bytes, 12_288);
    assert_eq!(stats.orphan_bytes, 4096);
    let lines = info_lines("C:\\Layers", &stats);
    assert_eq!(
        lines,
        vec![
            "Layers directory: C:\\Layers".to_string(),
            "Total layers:     2".to_string(),
            "Orphan layers:    1".to_string(),
            "Total size:       12.0 KiB".to_string(),
            "Reclaimable:      4.0 KiB".to_string(),
        ]
    );
}

#[test]
fn layer_stats_detect_overflow() {
    let layers = vec![layer("a", u64::MAX, 0, false), layer("b", 1, 0, true)];
    assert!(layer_stats(&layers).is_none());
}
