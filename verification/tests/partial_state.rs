use serve_cli::partial_state::{PartProgress, PartialDownloadState};

fn progress(start: u64, end: u64, downloaded: u64) -> PartProgress {
    PartProgress { start, end, downloaded }
}

#[test]
fn part_length_counts_both_ends() {
    assert_eq!(progress(0, 0, 0).len(), 1);
    assert_eq!(progress(10, 19, 0).len(), 10);
}

#[test]
fn part_length_saturates() {
    assert_eq!(progress(5, 2, 0).len(), 1);
    assert_eq!(progress(0, u64::MAX, 0).len(), u64::MAX);
}

#[test]
fn new_state_with_total_follows_the_plan() {
    let state = PartialDownloadState::new(Some(10), 4);
    assert_eq!(state.total, Some(10));
    assert_eq!(state.part_count, 4);
    assert_eq!(
        state.parts,
        vec![progress(0, 2, 0), progress(3, 5, 0), progress(6, 8, 0), progress(9, 9, 0)]
    );
}

#[test]
fn new_state_asks_for_at_least_one_part() {
    let state = PartialDownloadState::new(Some(10), 0);
    assert_eq!(state.part_count, 1);
    assert_eq!(state.parts, vec![progress(0, 9, 0)]);
}

#[test]
fn new_state_without_total_has_a_placeholder() {
    let state = PartialDownloadState::new(None, 3);
    assert_eq!(state.total, None);
    assert_eq!(state.part_count, 3);
    assert_eq!(state.parts, vec![progress(0, 0, 0)]);
}

#[test]
fn set_downloaded_caps_at_the_length() {
    let mut state = PartialDownloadState::new(Some(10), 4);
    state.set_downloaded(0, 2);
    state.set_downloaded(1, 100);
    state.set_downloaded(9, 1);
    assert_eq!(
        state.parts,
        vec![progress(0, 2, 2), progress(3, 5, 3), progress(6, 8, 0), progress(9, 9, 0)]
    );
}

#[test]
fn completed_bytes_sums_the_parts() {
    let mut state = PartialDownloadState::new(Some(10), 4);
    assert_eq!(state.completed_bytes(), 0);
    state.set_downloaded(0, 2);
    state.set_downloaded(3, 1);
    assert_eq!(state.completed_bytes(), 3);
    assert!(!state.is_complete());
}

#[test]
fn completed_bytes_counts_no_more_than_the_length() {
    let state = PartialDownloadState {
        total: Some(10),
        part_count: 2,
        parts: vec![progress(0, 4, 50), progress(5, 9, 1)],
    };
    assert_eq!(state.completed_bytes(), 6);
}

#[test]
fn completed_bytes_saturates() {
    let state = PartialDownloadState {
        total: None,
        part_count: 2,
        parts: vec![progress(0, u64::MAX, u64::MAX), progress(0, u64::MAX, u64::MAX)],
    };
    assert_eq!(state.completed_bytes(), u64::MAX);
}

#[test]
fn state_is_complete_when_the_bytes_reach_the_total() {
    let mut state = PartialDownloadState::new(Some(10_000_000), 4);
    for index in 0..4 {
        assert!(state.completed_bytes() < 10_000_000);
        assert!(!state.is_complete());
        state.set_downloaded(index, 2_500_000);
    }
    assert_eq!(state.completed_bytes(), 10_000_000);
    assert!(state.is_complete());
}

#[test]
fn state_without_parts_is_complete() {
    let state = PartialDownloadState::new(Some(0), 4);
    assert!(state.parts.is_empty());
    assert!(state.is_complete());
    assert_eq!(state.completed_bytes(), 0);
}

#[test]
fn rebuild_parts_drops_progress() {
    let mut state = PartialDownloadState::new(Some(10), 2);
    state.set_downloaded(0, 5);
    state.rebuild_parts(20);
    assert_eq!(state.total, Some(20));
    assert_eq!(state.parts, vec![progress(0, 9, 0), progress(10, 19, 0)]);
}

#[test]
fn ensure_layout_keeps_progress_when_the_count_agrees() {
    let mut state = PartialDownloadState::new(Some(10), 2);
    state.set_downloaded(0, 5);
    state.set_downloaded(1, 3);
    state.ensure_layout(10);
    assert_eq!(state.parts, vec![progress(0, 4, 5), progress(5, 9, 3)]);
}

#[test]
fn ensure_layout_caps_progress_at_the_length_of_the_range() {
    // The state was made for this total, but its ranges and counts are off.
    let mut state = PartialDownloadState {
        total: Some(10),
        part_count: 2,
        parts: vec![progress(0, 49, 50), progress(50, 99, 3)],
    };
    state.ensure_layout(10);
    assert_eq!(state.total, Some(10));
    assert_eq!(state.parts, vec![progress(0, 4, 5), progress(5, 9, 3)]);
}

#[test]
fn ensure_layout_keeps_progress_of_a_state_without_total() {
    let mut state = PartialDownloadState {
        total: None,
        part_count: 2,
        parts: vec![progress(0, 0, 1), progress(7, 7, 9)],
    };
    state.ensure_layout(10);
    assert_eq!(state.total, Some(10));
    assert_eq!(state.parts, vec![progress(0, 4, 1), progress(5, 9, 5)]);
}

#[test]
fn ensure_layout_drops_progress_when_the_total_changed() {
    let mut state = PartialDownloadState::new(Some(100), 2);
    state.set_downloaded(0, 50);
    state.set_downloaded(1, 10);
    state.ensure_layout(10);
    assert_eq!(state.total, Some(10));
    assert_eq!(state.part_count, 2);
    assert_eq!(state.parts, vec![progress(0, 4, 0), progress(5, 9, 0)]);
    assert_eq!(state.completed_bytes(), 0);
    // A larger total drops it just the same.
    state.set_downloaded(0, 3);
    state.ensure_layout(1000);
    assert_eq!(state.parts, vec![progress(0, 499, 0), progress(500, 999, 0)]);
}

#[test]
fn ensure_layout_rebuilds_when_the_count_differs() {
    let mut state = PartialDownloadState {
        total: Some(10),
        part_count: 2,
        parts: vec![progress(0, 9, 7)],
    };
    state.ensure_layout(10);
    assert_eq!(state.parts, vec![progress(0, 4, 0), progress(5, 9, 0)]);
}

#[test]
fn ensure_layout_makes_a_zero_count_one() {
    let mut state = PartialDownloadState { total: Some(10), part_count: 0, parts: vec![] };
    state.ensure_layout(10);
    assert_eq!(state.part_count, 1);
    assert_eq!(state.parts, vec![progress(0, 9, 0)]);
}

#[test]
fn ensure_layout_rebuilds_when_the_plan_is_shorter() {
    // Three parts were persisted, but two bytes make a plan of two parts only.
    let mut state = PartialDownloadState {
        total: Some(2),
        part_count: 3,
        parts: vec![progress(0, 9, 4), progress(10, 19, 0), progress(20, 29, 6)],
    };
    state.ensure_layout(2);
    assert_eq!(state.part_count, 3);
    assert_eq!(state.parts, vec![progress(0, 0, 0), progress(1, 1, 0)]);
}

#[test]
fn ensure_layout_gives_the_plan() {
    for (made_for, total) in [(Some(10u64), 10u64), (Some(10), 20), (None, 7), (Some(0), 5)] {
        for part_count in 0usize..6 {
            for parts in 0usize..6 {
                let mut state = PartialDownloadState {
                    total: made_for,
                    part_count,
                    parts: (0..parts).map(|i| progress(i as u64, 3, 100)).collect(),
                };
                state.ensure_layout(total);
                let plan = serve_cli::range_plan::build_range_plan(total, part_count.max(1));
                assert_eq!(state.total, Some(total));
                assert_eq!(state.part_count, part_count.max(1));
                assert_eq!(state.parts.len(), plan.len());
                for (part, range) in state.parts.iter().zip(plan.iter()) {
                    assert_eq!((part.start, part.end), (range.start, range.end));
                    assert!(part.downloaded <= part.len());
                }
                assert!(state.completed_bytes() <= total);
            }
        }
    }
}
