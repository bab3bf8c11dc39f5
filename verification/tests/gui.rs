use dcmfree::errors::DcmFreeError;
use dcmfree::gui::{
    destroy_done, destroy_next, destroy_starting, done_status, outcome_of, report_row,
    report_summary, tally_outcomes, DestroyItem, DestroyStep, GuiState, Job, MsgEffect,
    OutcomeKind, OutcomeRow, WorkerMsg,
};
use dcmfree::layers::LayerInfo;
use dcmfree::time::{Duration, SystemTime};

fn at(secs: u64) -> SystemTime {
    SystemTime::unix_epoch().checked_add(Duration::from_secs(secs)).unwrap()
}

fn layer(id: &str, size: u64, orphan: bool) -> LayerInfo {
    LayerInfo {
        path: format!("C:\\Layers\\{id}"),
        id: id.into(),
        size_bytes: size,
        file_count: 3,
        created_at: at(0),
        last_modified: at(10),
        last_accessed: at(0),
        orphan,
    }
}

fn listed(layers: Vec<LayerInfo>) -> GuiState {
    let mut st = GuiState::new("C:\\Layers".into());
    assert!(st.begin_scan().is_some());
    for l in layers {
        st.apply_message(WorkerMsg::ScanLayer(Box::new(l)), at(0));
    }
    st.finish_scan(None);
    st
}

fn ids(st: &GuiState) -> Vec<&str> {
    st.rows.iter().map(|r| r.layer.id.as_str()).collect()
}

fn destroyed(st: &mut GuiState, index: usize, id: &str) {
    let e = st.apply_message(
        WorkerMsg::DestroyDone { layers_index: index, row: row(id, 1, OutcomeKind::Destroyed) },
        at(0),
    );
    assert!(matches!(e, MsgEffect::RowDestroyed(i) if i == index));
}

fn row(id: &str, size: u64, outcome: OutcomeKind) -> OutcomeRow {
    OutcomeRow { id: id.into(), size_bytes: size, outcome }
}

#[test]
fn scan_messages_fill_the_list() {
    let mut st = GuiState::new("C:\\Layers".into());
    let status = st.begin_scan().unwrap();
    assert_eq!(status, "Scanning layers in C:\\Layers...");
    assert_eq!(st.job, Job::Scanning);
    assert!(st.begin_scan().is_none());
    match st.apply_message(WorkerMsg::ScanLayer(Box::new(layer("a", 2048, true))), at(120)) {
        MsgEffect::AppendRow { row, cells } => {
            assert_eq!(row, 0);
            assert_eq!(cells.size, "2.0 KiB");
            assert_eq!(cells.files, "3");
            assert_eq!(cells.age, "2 minutes");
            assert_eq!(cells.status, "orphan");
            assert_eq!(cells.id, "a");
            assert_eq!(cells.created_at, at(0));
            assert_eq!(cells.last_modified, at(10));
        }
        other => panic!("unexpected {other:?}"),
    }
    match st.apply_message(WorkerMsg::ScanLayer(Box::new(layer("b", 1, false))), at(120)) {
        MsgEffect::AppendRow { row, cells } => {
            assert_eq!(row, 1);
            assert_eq!(cells.status, "in use");
        }
        other => panic!("unexpected {other:?}"),
    }
    assert!(matches!(st.apply_message(WorkerMsg::ScanFinished, at(0)), MsgEffect::ScanFinished));
    let status = st.finish_scan(None);
    assert_eq!(status, "Loaded 2 layer(s) from C:\\Layers");
    assert_eq!(st.job, Job::Idle);
    assert_eq!(st.orphan_flags(), vec![true, false]);
    let info = st.info_text(&vec![0, 7]).unwrap();
    assert_eq!(
        info,
        "Layers: 2    Orphans: 1 (2.0 KiB)    On disk: 2.0 KiB    Selected: 2 (2.0 KiB)"
    );
    assert!(st.destroy_enabled(2));
    assert!(!st.destroy_enabled(0));
}

#[test]
fn scan_error_is_reported() {
    let mut st = GuiState::new("X:\\".into());
    st.begin_scan();
    match st.apply_message(WorkerMsg::ScanError("Could not read X:\\".into()), at(0)) {
        MsgEffect::ScanFailed(e) => assert_eq!(e, "Could not read X:\\"),
        other => panic!("unexpected {other:?}"),
    }
    assert_eq!(st.finish_scan(Some("Could not read X:\\".into())), "Could not read X:\\");
    assert_eq!(st.job, Job::Idle);
}

#[test]
fn destroy_run_updates_results_and_rows() {
    let mut st = listed(vec![layer("a", 10, true), layer("b", 20, true), layer("c", 30, true)]);
    let payload = st.destroy_payload(&vec![2, 9, 0]);
    assert_eq!(payload.len(), 2);
    assert_eq!(payload[0].layers_index, 2);
    assert_eq!(payload[0].id, "c");
    assert_eq!(payload[0].size_bytes, 30);
    assert_eq!(payload[0].path, "C:\\Layers\\c");
    assert_eq!(payload[1].layers_index, 0);
    assert_eq!(
        st.confirm_text(&vec![2, 9, 0]).unwrap(),
        "About to destroy 2 layer(s), reclaiming approximately 40 B.\n\nThis is irreversible. You can cancel mid-process; layers already destroyed cannot be recovered.\n\nContinue?"
    );
    st.begin_destroy(2);
    assert_eq!(st.job, Job::Destroying);
    assert!(!st.destroy_enabled(1));
    match st.apply_message(WorkerMsg::DestroyStarting { index: 2, id: "c".into() }, at(0)) {
        MsgEffect::Status(t) => assert_eq!(t, "Destroying 1/2: c  (idx 2)"),
        other => panic!("unexpected {other:?}"),
    }
    destroyed(&mut st, 2, "c");
    destroyed(&mut st, 0, "a");
    let positions = st.remove_destroyed(&vec![2, 0]);
    assert_eq!(positions, vec![2, 0]);
    assert_eq!(ids(&st), vec!["b"]);
    assert!(matches!(st.apply_message(WorkerMsg::DestroyFinished, at(0)), MsgEffect::DestroyFinished));
    let (results, total) = st.finish_destroy();
    assert_eq!(results.len(), 2);
    assert_eq!(total, 2);
    assert_eq!(st.job, Job::Idle);
    assert!(st.results.is_empty());
}

#[test]
fn layers_in_use_are_never_handed_to_the_worker() {
    let st = listed(vec![layer("a", 10, true), layer("b", 20, false), layer("c", 30, true)]);
    let selection = vec![0, 1, 2];
    assert_eq!(st.payload_indices(&selection), vec![0, 2]);
    let payload = st.destroy_payload(&selection);
    let names: Vec<&str> = payload.iter().map(|i| i.id.as_str()).collect();
    assert_eq!(names, vec!["a", "c"]);
    assert_eq!(
        st.confirm_text(&selection).unwrap(),
        "About to destroy 2 layer(s), reclaiming approximately 40 B.\n\nThis is irreversible. You can cancel mid-process; layers already destroyed cannot be recovered.\n\nContinue?"
    );
    let only_in_use = vec![1];
    assert!(st.destroy_payload(&only_in_use).is_empty());
    assert_eq!(
        destroy_next(st.payload_indices(&only_in_use).len(), Some(true), Some(true), Some(true)),
        DestroyStep::NothingSelected
    );
}

#[test]
fn removals_across_batches_keep_rows_in_step() {
    let mut st = listed(vec![layer("a", 1, true), layer("b", 2, true), layer("c", 3, true)]);
    st.begin_destroy(2);
    destroyed(&mut st, 0, "a");
    assert_eq!(st.remove_destroyed(&vec![0]), vec![0]);
    assert_eq!(ids(&st), vec!["b", "c"]);
    destroyed(&mut st, 1, "b");
    assert_eq!(st.remove_destroyed(&vec![1]), vec![0]);
    assert_eq!(ids(&st), vec!["c"]);
    st.finish_destroy();
    st.begin_destroy(1);
    assert_eq!(st.rows[0].origin, 0);
    assert_eq!(st.remove_destroyed(&vec![0]), vec![0]);
    assert!(st.rows.is_empty());
}

#[test]
fn remove_destroyed_skips_stale_indices() {
    let mut st = listed(vec![layer("a", 1, true), layer("b", 2, true)]);
    let positions = st.remove_destroyed(&vec![5, 1, 1]);
    assert_eq!(positions, vec![1]);
    assert_eq!(ids(&st), vec!["a"]);
}

#[test]
fn worker_messages_carry_the_item() {
    let item = DestroyItem { layers_index: 4, id: "x".into(), size_bytes: 9, path: "C:\\x".into() };
    match destroy_starting(&item) {
        WorkerMsg::DestroyStarting { index, id } => {
            assert_eq!(index, 4);
            assert_eq!(id, "x");
        }
        other => panic!("unexpected {other:?}"),
    }
    match destroy_done(item, None) {
        WorkerMsg::DestroyDone { layers_index, row } => {
            assert_eq!(layers_index, 4);
            assert_eq!(row.id, "x");
            assert_eq!(row.size_bytes, 9);
            assert!(matches!(row.outcome, OutcomeKind::Cancelled));
        }
        other => panic!("unexpected {other:?}"),
    }
    let item = DestroyItem { layers_index: 1, id: "y".into(), size_bytes: 2, path: "C:\\y".into() };
    match destroy_done(item, Some(Err(DcmFreeError::HcsDestroyFailed { path: "C:\\y".into(), hresult: 5 }))) {
        WorkerMsg::DestroyDone { row, .. } => match row.outcome {
            OutcomeKind::Failed(m) => assert_eq!(m, "HcsDestroyLayer failed for C:\\y: HRESULT 0x00000005"),
            other => panic!("unexpected {other:?}"),
        },
        other => panic!("unexpected {other:?}"),
    }
}

#[test]
fn destroy_next_requires_consent() {
    assert_eq!(destroy_next(0, None, None, None), DestroyStep::NothingSelected);
    assert_eq!(destroy_next(1, None, None, None), DestroyStep::CheckElevation);
    assert_eq!(destroy_next(1, Some(false), None, None), DestroyStep::RequireAdmin);
    assert_eq!(destroy_next(1, Some(true), None, None), DestroyStep::AskConfirmation);
    assert_eq!(destroy_next(1, Some(true), Some(false), None), DestroyStep::Abandon);
    assert_eq!(destroy_next(1, Some(true), Some(true), None), DestroyStep::EnablePrivileges);
    assert_eq!(destroy_next(1, Some(true), Some(true), Some(false)), DestroyStep::PrivilegesFailed);
    assert_eq!(destroy_next(1, Some(true), Some(true), Some(true)), DestroyStep::Start);
}

#[test]
fn outcomes_are_tallied_and_reported() {
    let failed = outcome_of(Err(DcmFreeError::HcsDestroyFailed { path: "C:\\b".into(), hresult: 0x8007_0005 }));
    match &failed {
        OutcomeKind::Failed(m) => assert_eq!(m, "HcsDestroyLayer failed for C:\\b: HRESULT 0x80070005"),
        other => panic!("unexpected {other:?}"),
    }
    assert!(matches!(outcome_of(Ok(())), OutcomeKind::Destroyed));
    let results = vec![
        row("a", 1024, OutcomeKind::Destroyed),
        row("b", 5, failed),
        row("c", 7, OutcomeKind::Cancelled),
        row("d", 1024, OutcomeKind::Destroyed),
    ];
    let c = tally_outcomes(&results).unwrap();
    assert_eq!((c.destroyed, c.failed, c.cancelled, c.bytes_freed), (2, 1, 1, 2048));
    assert_eq!(
        done_status(&c, 4),
        "Done: 2/4 destroyed, 1 failed, 1 cancelled. Freed approximately 2.0 KiB."
    );
    assert_eq!(report_summary(&c), "Destroyed: 2   Failed: 1   Cancelled: 1   Freed: 2.0 KiB");
    assert_eq!(
        report_row(&results[1]),
        (
            "failed".to_string(),
            "5 B".to_string(),
            "b - HcsDestroyLayer failed for C:\\b: HRESULT 0x80070005".to_string()
        )
    );
    assert_eq!(
        report_row(&results[2]),
        ("cancelled".to_string(), "7 B".to_string(), "c".to_string())
    );
    assert_eq!(
        report_row(&results[0]),
        ("destroyed".to_string(), "1.0 KiB".to_string(), "a".to_string())
    );
}

#[test]
fn tally_detects_overflow() {
    let results = vec![row("a", u64::MAX, OutcomeKind::Destroyed), row("b", 1, OutcomeKind::Destroyed)];
    assert!(tally_outcomes(&results).is_none());
}
