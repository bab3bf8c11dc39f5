use dcmfree::docker::{first_record_dir, parse_id_lines, GraphDriverData, InspectGraphDriver, InspectRecord};

#[test]
fn parse_id_lines_trims_and_drops_blanks() {
    assert_eq!(
        parse_id_lines("sha256:aaa\r\n\n  sha256:bbb  \nccc"),
        vec!["sha256:aaa".to_string(), "sha256:bbb".to_string(), "ccc".to_string()]
    );
    assert!(parse_id_lines("").is_empty());
    assert!(parse_id_lines("\n \n\t\n").is_empty());
    assert_eq!(parse_id_lines("one\n"), vec!["one".to_string()]);
}

#[test]
fn parse_id_lines_matches_std_lines() {
    let out = "  a\u{3000}\r\nb\n\u{a0}c d\n\n";
    let expected: Vec<String> = out
        .lines()
        .map(|s| s.trim().to_string())
        .filter(|s| !s.is_empty())
        .collect();
    assert_eq!(parse_id_lines(out), expected);
}

#[test]
fn first_record_dir_reads_graph_driver() {
    let rec = InspectRecord {
        graph_driver: Some(InspectGraphDriver {
            data: GraphDriverData {
                dir: Some(r"C:\ProgramData\Microsoft\Windows\Containers\Layers\abc".into()),
            },
        }),
    };
    assert_eq!(
        first_record_dir(vec![rec]).as_deref(),
        Some(r"C:\ProgramData\Microsoft\Windows\Containers\Layers\abc")
    );
    assert_eq!(first_record_dir(vec![InspectRecord { graph_driver: None }]), None);
    assert_eq!(first_record_dir(Vec::new()), None);
    let no_dir = InspectRecord {
        graph_driver: Some(InspectGraphDriver { data: GraphDriverData::default() }),
    };
    assert_eq!(first_record_dir(vec![no_dir]), None);
}
