use serve_cli::partial_state::{PartProgress, PartialDownloadState};
use serve_cli::state_file::{decode_state, encode_state, load_partial_state, save_partial_state};

fn same(a: &PartialDownloadState, b: &PartialDownloadState) -> bool {
    a.total == b.total && a.part_count == b.part_count && a.parts == b.parts
}

#[test]
fn document_of_a_fresh_state() {
    let state = PartialDownloadState::new(Some(10), 2);
    assert_eq!(
        encode_state(&state),
        "{\"total\":10,\"part_count\":2,\"parts\":[{\"start\":0,\"end\":4,\"downloaded\":0},{\"start\":5,\"end\":9,\"downloaded\":0}]}"
    );
}

#[test]
fn document_of_a_state_without_total() {
    let state = PartialDownloadState::new(None, 1);
    assert_eq!(
        encode_state(&state),
        "{\"total\":null,\"part_count\":1,\"parts\":[{\"start\":0,\"end\":0,\"downloaded\":0}]}"
    );
}

#[test]
fn document_of_a_state_without_parts() {
    let state = PartialDownloadState { total: Some(0), part_count: 4, parts: vec![] };
    assert_eq!(encode_state(&state), "{\"total\":0,\"part_count\":4,\"parts\":[]}");
}

#[test]
fn document_is_json() {
    let mut state = PartialDownloadState::new(Some(10_000_000), 4);
    state.set_downloaded(1, 123_456);
    let text = save_partial_state(&state);
    let value: serde_json::Value = serde_json::from_str(&text).unwrap();
    assert_eq!(value["total"].as_u64(), Some(10_000_000));
    assert_eq!(value["part_count"].as_u64(), Some(4));
    let parts = value["parts"].as_array().unwrap();
    assert_eq!(parts.len(), 4);
    assert_eq!(parts[1]["start"].as_u64(), Some(2_500_000));
    assert_eq!(parts[1]["end"].as_u64(), Some(4_999_999));
    assert_eq!(parts[1]["downloaded"].as_u64(), Some(123_456));
}

#[test]
fn save_then_load_is_the_identity() {
    let mut states = vec![
        PartialDownloadState::new(Some(10), 2),
        PartialDownloadState::new(None, 1),
        PartialDownloadState::new(Some(0), 4),
        PartialDownloadState::new(Some(u64::MAX), 16),
        PartialDownloadState {
            total: Some(u64::MAX),
            part_count: usize::MAX,
            parts: vec![PartProgress { start: u64::MAX, end: 0, downloaded: u64::MAX }],
        },
    ];
    let mut resumed = PartialDownloadState::new(Some(16 * 1024 * 1024), 4);
    resumed.set_downloaded(0, 1024);
    resumed.set_downloaded(3, 4 * 1024 * 1024);
    states.push(resumed);
    for state in &states {
        let text = save_partial_state(state);
        let loaded = load_partial_state(&text).unwrap();
        assert!(same(&loaded, state));
        let decoded = decode_state(&text).unwrap();
        assert!(same(&decoded, state));
    }
}

#[test]
fn load_reads_a_part_count_of_zero_as_one() {
    let text = "{\"total\":10,\"part_count\":0,\"parts\":[]}";
    assert_eq!(decode_state(text).unwrap().part_count, 0);
    assert_eq!(load_partial_state(text).unwrap().part_count, 1);
}

#[test]
fn load_refuses_what_is_no_state() {
    let broken = [
        "",
        "{}",
        "null",
        "not json",
        "{\"total\":10,\"part_count\":2}",
        "{\"total\":10,\"part_count\":2,\"parts\":[",
        "{\"total\":10,\"part_count\":2,\"parts\":[]} ",
        "{\"total\":10,\"part_count\":2,\"parts\":[]}}",
        "{\"total\":-1,\"part_count\":2,\"parts\":[]}",
        "{\"total\":10,\"part_count\":x,\"parts\":[]}",
        "{\"total\":18446744073709551616,\"part_count\":2,\"parts\":[]}",
        "{\"total\":10,\"part_count\":2,\"parts\":[{\"start\":0,\"end\":4}]}",
        "{\"total\":10,\"part_count\":2,\"parts\":[{\"start\":0,\"end\":4,\"downloaded\":0},]}",
        "{\"total\":10,\"part_count\":2,\"parts\":[,{\"start\":0,\"end\":4,\"downloaded\":0}]}",
        "{\"part_count\":2,\"total\":10,\"parts\":[]}",
    ];
    for text in broken {
        assert!(load_partial_state(text).is_none(), "{text}");
    }
}

#[test]
fn load_reads_the_largest_numbers() {
    let text = "{\"total\":18446744073709551615,\"part_count\":1,\"parts\":[{\"start\":0,\"end\":18446744073709551614,\"downloaded\":7}]}";
    let state = load_partial_state(text).unwrap();
    assert_eq!(state.total, Some(u64::MAX));
    assert_eq!(state.parts, vec![PartProgress { start: 0, end: u64::MAX - 1, downloaded: 7 }]);
}
