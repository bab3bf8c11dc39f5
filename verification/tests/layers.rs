use dcmfree::errors::DcmFreeError;
use dcmfree::layers::{
    classify, enumerate, is_layer_entry, layers_of, DirChild, layer_id, orphan_flag, orphans_older_than, paths_equal,
    stat_layer, strip_verbatim_prefix, DirListing, DirTimes, EntryMeta, LayerInfo,
    FILE_ATTRIBUTE_HIDDEN, FILE_ATTRIBUTE_SYSTEM,
};
use dcmfree::time::{Duration, SystemTime};

fn now() -> SystemTime {
    let d = std::time::SystemTime::now()
        .duration_since(std::time::UNIX_EPOCH)
        .unwrap();
    SystemTime::unix_epoch()
        .checked_add(Duration::new(d.as_secs(), d.subsec_nanos()))
        .unwrap()
}

fn at(secs: u64) -> SystemTime {
    SystemTime::unix_epoch().checked_add(Duration::from_secs(secs)).unwrap()
}

fn fake_layer(id: &str, age_secs: u64, orphan: bool) -> LayerInfo {
    let now = now();
    let t = now.checked_sub(Duration::from_secs(age_secs)).unwrap();
    LayerInfo {
        path: id.to_string(),
        id: id.into(),
        size_bytes: 10,
        file_count: 1,
        created_at: t,
        last_modified: t,
        last_accessed: t,
        orphan,
    }
}

fn sized(id: &str, size: u64) -> LayerInfo {
    LayerInfo {
        path: format!("C:\\Layers\\{id}"),
        id: id.into(),
        size_bytes: size,
        file_count: 1,
        created_at: at(0),
        last_modified: at(0),
        last_accessed: at(0),
        orphan: true,
    }
}

fn child(name: &str, is_dir: bool, attributes: u32, file_sizes: &[u64]) -> DirChild {
    DirChild {
        path: format!("C:\\Layers\\{name}"),
        file_name: Some(name.to_string()),
        is_dir,
        attributes,
        dir: None,
        entries: file_sizes
            .iter()
            .map(|&len| EntryMeta { is_file: true, len, modified: None })
            .collect(),
    }
}

#[test]
fn enumerate_empty_dir() {
    let layers = enumerate("C:\\empty", DirListing::Children(Vec::new())).unwrap();
    assert!(layers.is_empty());
}

#[test]
fn enumerate_missing_dir_errors() {
    let err = enumerate(r"C:\definitely-not-a-dir-xyz", DirListing::Missing).unwrap_err();
    assert!(matches!(err, DcmFreeError::LayersDirMissing(_)));
}

#[test]
fn enumerate_unreadable_dir_is_io_error() {
    let e = std::io::Error::new(std::io::ErrorKind::PermissionDenied, "denied");
    let err = enumerate("C:\\locked", DirListing::Unreadable(e)).unwrap_err();
    match err {
        DcmFreeError::Io { path, source } => {
            assert_eq!(path, "C:\\locked");
            assert_eq!(source.kind(), std::io::ErrorKind::PermissionDenied);
        }
        other => panic!("unexpected {other:?}"),
    }
}

#[test]
fn enumerate_counts_subdirs_only() {
    let children = vec![
        child("layer-a", true, 0x10, &[]),
        child("layer-b", true, 0x10, &[]),
        child("loose-file", false, 0x20, &[1]),
    ];
    let layers = enumerate("C:\\Layers", DirListing::Children(children)).unwrap();
    assert_eq!(layers.len(), 2);
    let ids: Vec<_> = layers.iter().map(|l| l.id.as_str()).collect();
    assert!(ids.contains(&"layer-a"));
    assert!(ids.contains(&"layer-b"));
    assert!(layers.iter().all(|l| l.orphan));
}

#[test]
fn enumerate_computes_sizes_and_sorts_descending() {
    let children = vec![child("small", true, 0x10, &[100]), child("big", true, 0x10, &[10_000])];
    let layers = enumerate("C:\\Layers", DirListing::Children(children)).unwrap();
    assert_eq!(layers.len(), 2);
    assert_eq!(layers[0].id, "big");
    assert!(layers[0].size_bytes >= 10_000);
    assert!(layers[1].size_bytes < layers[0].size_bytes);
}

#[test]
fn enumerate_sort_is_stable_for_equal_sizes() {
    let children = vec![
        child("a", true, 0, &[5]),
        child("b", true, 0, &[9]),
        child("c", true, 0, &[5]),
        child("d", true, 0, &[9]),
        child("e", true, 0, &[1]),
    ];
    let layers = enumerate("C:\\Layers", DirListing::Children(children)).unwrap();
    let ids: Vec<&str> = layers.iter().map(|l| l.id.as_str()).collect();
    assert_eq!(ids, vec!["b", "d", "a", "c", "e"]);
}

#[test]
fn enumerate_skips_hidden_and_system_entries() {
    let children = vec![
        child("visible", true, 0x10, &[3]),
        child("hidden", true, 0x10 | FILE_ATTRIBUTE_HIDDEN, &[3]),
        child("system", true, 0x10 | FILE_ATTRIBUTE_SYSTEM, &[3]),
    ];
    let layers = enumerate("C:\\Layers", DirListing::Children(children)).unwrap();
    let ids: Vec<&str> = layers.iter().map(|l| l.id.as_str()).collect();
    assert_eq!(ids, vec!["visible"]);
}

#[test]
fn layers_of_builds_each_layer_in_listing_order() {
    let mut odd = child("x", true, 0, &[7, 8]);
    odd.file_name = None;
    let found = layers_of(&vec![child("a", true, 0, &[1]), odd, child("f", false, 0, &[])]);
    assert_eq!(found.len(), 2);
    assert_eq!(found[0].id, "a");
    assert_eq!(found[0].path, "C:\\Layers\\a");
    assert_eq!(found[1].id, "?");
    assert_eq!(found[1].size_bytes, 15);
    assert_eq!(found[1].file_count, 2);
    assert_eq!(found[1].created_at, SystemTime::unix_epoch());
    assert!(found[1].orphan);
}

#[test]
fn classify_marks_known_as_non_orphan() {
    let mut layers = vec![sized("layer-a", 0), sized("layer-b", 0)];
    let canonical = vec![
        Some("\\\\?\\C:\\Layers\\layer-a".to_string()),
        Some("\\\\?\\C:\\Layers\\layer-b".to_string()),
    ];
    let in_use = vec!["\\\\?\\C:\\Layers\\layer-a".to_string()];
    classify(&mut layers, &canonical, &in_use);
    assert!(!layers[0].orphan);
    assert!(layers[1].orphan);
}

#[test]
fn classify_falls_back_to_path_and_ignores_case() {
    let mut layers = vec![sized("abc", 1), sized("def", 2)];
    layers[0].orphan = false;
    let canonical = vec![None, None];
    let in_use = vec!["c:\\layers\\ABC".to_string()];
    classify(&mut layers, &canonical, &in_use);
    assert!(!layers[0].orphan);
    assert!(layers[1].orphan);
    assert_eq!(layers[1].size_bytes, 2);
}

#[test]
fn classify_with_nothing_in_use_marks_all_orphan() {
    let mut layers = vec![sized("x", 1)];
    layers[0].orphan = false;
    classify(&mut layers, &vec![None], &Vec::new());
    assert!(layers[0].orphan);
}

#[test]
fn orphans_older_than_filters_by_age_and_orphan_status() {
    let now = now();
    let layers = vec![
        fake_layer("a", 10 * 86_400, true),
        fake_layer("b", 60, true),
        fake_layer("c", 10 * 86_400, false),
    ];
    let picked = orphans_older_than(&layers, Duration::from_secs(86_400), now);
    let ids: Vec<&str> = picked.iter().map(|l| l.id.as_str()).collect();
    assert_eq!(ids, vec!["a"]);
}

#[test]
fn orphans_older_than_zero_selects_every_orphan() {
    let now = now();
    let layers = vec![
        fake_layer("a", 10 * 86_400, true),
        fake_layer("b", 0, true),
        fake_layer("c", 10 * 86_400, false),
    ];
    let picked = orphans_older_than(&layers, Duration::zero(), now);
    let ids: Vec<&str> = picked.iter().map(|l| l.id.as_str()).collect();
    assert_eq!(ids, vec!["a", "b"]);
}

#[test]
fn age_saturates_for_future_creation_time() {
    let now = now();
    let l = LayerInfo {
        path: "a".into(),
        id: "a".into(),
        size_bytes: 0,
        file_count: 0,
        created_at: now.checked_add(Duration::from_secs(3600)).unwrap(),
        last_modified: now,
        last_accessed: now,
        orphan: true,
    };
    assert_eq!(l.age(now), Duration::zero());
}

#[test]
fn age_is_elapsed_time_since_creation() {
    let mut l = sized("a", 0);
    l.created_at = at(1_000);
    let now = SystemTime::unix_epoch()
        .checked_add(Duration::new(1_090, 500))
        .unwrap();
    assert_eq!(l.age(now), Duration::new(90, 500));
}

#[test]
fn paths_equal_handles_verbatim_prefix() {
    assert!(paths_equal(r"\\?\C:\foo\bar", r"C:\FOO\BAR"));
}

#[test]
fn paths_equal_rejects_different_paths() {
    assert!(!paths_equal(r"C:\foo\bar", r"C:\foo\baz"));
    assert!(!paths_equal(r"C:\foo", r"C:\foo\"));
    assert!(!paths_equal("C:\\é", "C:\\É"));
}

#[test]
fn strip_verbatim_prefix_removes_only_one_prefix() {
    assert_eq!(strip_verbatim_prefix(r"\\?\C:\x"), r"C:\x");
    assert_eq!(strip_verbatim_prefix(r"\\?\\\?\C:"), r"\\?\C:");
    assert_eq!(strip_verbatim_prefix(r"C:\x"), r"C:\x");
    assert_eq!(strip_verbatim_prefix(r"\\?"), r"\\?");
}

#[test]
fn stat_layer_sums_files_and_tracks_latest_modification() {
    let dir = DirTimes { created: Some(at(100)), accessed: None, modified: Some(at(150)) };
    let entries = vec![
        EntryMeta { is_file: false, len: 4096, modified: Some(at(150)) },
        EntryMeta { is_file: true, len: 10, modified: Some(at(200)) },
        EntryMeta { is_file: true, len: 32, modified: Some(at(120)) },
        EntryMeta { is_file: true, len: u64::MAX, modified: None },
    ];
    let l = stat_layer("p".into(), "id".into(), Some(dir), &entries);
    assert_eq!(l.size_bytes, u64::MAX);
    assert_eq!(l.file_count, 3);
    assert_eq!(l.created_at, at(100));
    assert_eq!(l.last_accessed, at(100));
    assert_eq!(l.last_modified, at(200));
    assert!(l.orphan);
}

#[test]
fn stat_layer_without_metadata_uses_epoch() {
    let l = stat_layer("p".into(), "id".into(), None, &Vec::new());
    assert_eq!(l.created_at, SystemTime::unix_epoch());
    assert_eq!(l.last_accessed, SystemTime::unix_epoch());
    assert_eq!(l.last_modified, SystemTime::unix_epoch());
    assert_eq!(l.size_bytes, 0);
    assert_eq!(l.file_count, 0);
}

#[test]
fn layer_id_falls_back_to_question_mark() {
    assert_eq!(layer_id(Some("abc".into())), "abc");
    assert_eq!(layer_id(None), "?");
}

#[test]
fn in_use_layer_is_never_selected_for_destruction() {
    let mut layers = vec![sized("used", 10), sized("free", 10)];
    let canonical = vec![None, None];
    let in_use = vec!["\\\\?\\C:\\LAYERS\\USED".to_string()];
    classify(&mut layers, &canonical, &in_use);
    let picked = orphans_older_than(&layers, Duration::zero(), at(10));
    let ids: Vec<&str> = picked.iter().map(|l| l.id.as_str()).collect();
    assert_eq!(ids, vec!["free"]);
}

#[test]
fn paths_equal_is_symmetric_and_transitive() {
    let a = r"\\?\C:\Layers\X";
    let b = r"c:\layers\x";
    let c = r"C:\LAYERS\x";
    assert!(paths_equal(a, b) && paths_equal(b, a));
    assert!(paths_equal(b, c) && paths_equal(a, c));
    assert!(paths_equal(a, a));
}

#[test]
fn orphan_flag_compares_canonical_paths_ignoring_case() {
    let in_use = vec!["\\\\?\\C:\\Layers\\ABC".to_string()];
    assert!(!orphan_flag("C:\\layers\\abc", &None, &in_use));
    assert!(!orphan_flag("x", &Some("c:\\LAYERS\\abc".to_string()), &in_use));
    assert!(orphan_flag("C:\\Layers\\abc", &Some("C:\\Other".to_string()), &in_use));
    assert!(orphan_flag("C:\\Layers\\def", &None, &in_use));
    assert!(orphan_flag("C:\\Layers\\abc", &None, &Vec::new()));
}

#[test]
fn hidden_system_and_plain_files_are_not_layers() {
    assert!(is_layer_entry(true, 0x10));
    assert!(!is_layer_entry(false, 0x10));
    assert!(!is_layer_entry(true, 0x10 | FILE_ATTRIBUTE_HIDDEN));
    assert!(!is_layer_entry(true, 0x10 | FILE_ATTRIBUTE_SYSTEM));
    assert!(!is_layer_entry(true, FILE_ATTRIBUTE_HIDDEN | FILE_ATTRIBUTE_SYSTEM));
}

#[test]
fn selection_shrinks_with_min_age_and_grows_with_time() {
    let now = now();
    let layers = vec![
        fake_layer("a", 10 * 86_400, true),
        fake_layer("b", 2 * 86_400, true),
        fake_layer("c", 60, true),
        fake_layer("d", 10 * 86_400, false),
    ];
    let ids = |v: Vec<&LayerInfo>| v.iter().map(|l| l.id.clone()).collect::<Vec<String>>();
    let day = ids(orphans_older_than(&layers, Duration::from_secs(86_400), now));
    let week = ids(orphans_older_than(&layers, Duration::from_secs(7 * 86_400), now));
    assert_eq!(day, vec!["a", "b"]);
    assert_eq!(week, vec!["a"]);
    let later = now.checked_add(Duration::from_secs(86_400)).unwrap();
    let day_later = ids(orphans_older_than(&layers, Duration::from_secs(86_400), later));
    assert_eq!(day_later, vec!["a", "b", "c"]);
}
