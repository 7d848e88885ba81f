use serve_cli::cleanup::{
    abandon_temp_files, cancelled_report, drain_tracked_temp_files, interrupted_report,
    track_temp_file, untrack_temp_file, TempCleanupGuard, TempRegistry,
};

fn sorted(mut paths: Vec<String>) -> Vec<String> {
    paths.sort();
    paths
}

#[test]
fn registry_starts_empty() {
    let mut registry = TempRegistry::new();
    assert!(!registry.is_tracked("a/.x.tmp"));
    assert!(abandon_temp_files(&mut registry).is_empty());
}

#[test]
fn a_path_is_registered_once() {
    let mut registry = TempRegistry::new();
    track_temp_file(&mut registry, "a/.x.tmp");
    track_temp_file(&mut registry, "a/.x.tmp");
    track_temp_file(&mut registry, "a/.y.tmp");
    assert!(registry.is_tracked("a/.x.tmp"));
    assert!(registry.is_tracked("a/.y.tmp"));
    assert!(!registry.is_tracked("a/.z.tmp"));
    assert_eq!(
        sorted(abandon_temp_files(&mut registry)),
        vec!["a/.x.tmp".to_string(), "a/.y.tmp".to_string()]
    );
}

#[test]
fn an_untracked_path_is_gone() {
    let mut registry = TempRegistry::new();
    track_temp_file(&mut registry, "a/.x.tmp");
    track_temp_file(&mut registry, "a/.y.tmp");
    untrack_temp_file(&mut registry, "a/.x.tmp");
    untrack_temp_file(&mut registry, "a/.never.tmp");
    assert!(!registry.is_tracked("a/.x.tmp"));
    assert!(registry.is_tracked("a/.y.tmp"));
    assert_eq!(abandon_temp_files(&mut registry), vec!["a/.y.tmp".to_string()]);
}

#[test]
fn draining_empties_the_registry() {
    let mut registry = TempRegistry::new();
    track_temp_file(&mut registry, "a/.x.tmp");
    assert_eq!(registry.drain_all(), vec!["a/.x.tmp".to_string()]);
    assert!(!registry.is_tracked("a/.x.tmp"));
    assert!(registry.drain_all().is_empty());
    track_temp_file(&mut registry, "a/.y.tmp");
    assert_eq!(drain_tracked_temp_files(&mut registry), vec!["a/.y.tmp".to_string()]);
    assert!(drain_tracked_temp_files(&mut registry).is_empty());
}

#[test]
fn an_armed_guard_drains_the_registry() {
    let mut registry = TempRegistry::new();
    track_temp_file(&mut registry, "a/.x.tmp");
    let guard = TempCleanupGuard::new();
    assert!(guard.is_armed());
    assert_eq!(guard.release(&mut registry), vec!["a/.x.tmp".to_string()]);
    assert!(!registry.is_tracked("a/.x.tmp"));
}

#[test]
fn a_disarmed_guard_leaves_the_registry_alone() {
    let mut registry = TempRegistry::new();
    track_temp_file(&mut registry, "a/.x.tmp");
    let mut guard = TempCleanupGuard::new();
    guard.disarm();
    assert!(!guard.is_armed());
    assert!(guard.release(&mut registry).is_empty());
    assert!(registry.is_tracked("a/.x.tmp"));
}

#[test]
fn report_of_an_interrupted_transfer() {
    assert!(interrupted_report(&vec![]).is_empty());
    assert_eq!(
        interrupted_report(&vec!["a/.x.tmp".to_string(), ".y.tmp".to_string()]),
        vec![
            "download interrupted; partial file(s) preserved:".to_string(),
            "  a/.x.tmp".to_string(),
            "  .y.tmp".to_string(),
        ]
    );
}

#[test]
fn report_of_a_cancelled_operation() {
    assert_eq!(cancelled_report(&vec![]), vec!["Operation cancelled.".to_string()]);
    assert_eq!(
        cancelled_report(&vec!["a/.x.tmp".to_string()]),
        vec![
            "Operation cancelled; partial file(s) preserved:".to_string(),
            "  a/.x.tmp".to_string(),
        ]
    );
}

#[test]
fn drained_paths_come_once() {
    let mut registry = TempRegistry::new();
    for path in ["a", "b", "a", "c", "b", "a"] {
        track_temp_file(&mut registry, path);
    }
    untrack_temp_file(&mut registry, "b");
    track_temp_file(&mut registry, "b");
    let kept = sorted(abandon_temp_files(&mut registry));
    assert_eq!(kept, vec!["a".to_string(), "b".to_string(), "c".to_string()]);
}
