use serve_cli::cleanup::{track_temp_file, TempCleanupGuard, TempRegistry};
use serve_cli::download::{
    after_stream_response, check_final_size, check_recursive, checked_remote, child_remote,
    decide_directory_action, decide_file_action, downloaded_message, effective_connections,
    falls_back_to_single, finish_transfer, honours_saved_count, outcome_message, plan_download,
    prepare_state, range_honoured, reported_bytes, sends_range, skip_directory_message,
    skip_message, summarize, supports_multiple_connections, work_items, worker_result,
    DirectoryAction, DownloadError, DownloadPlan, ExistingFileStrategy, FileAction, PartWork,
    Route, SavedProgress, StreamStart, WorkerEnd, WorkerProgress, BLOCK_SIZE,
    PARTIAL_STATE_UPDATE_THRESHOLD,
};
use serve_cli::partial_state::{PartProgress, PartialDownloadState};
use serve_cli::probe::{after_head, FileProbe, HeadResponse, Header, ProbeStep};

const MIB: u64 = 1024 * 1024;

fn probe(length: Option<u64>, accept_ranges: bool) -> FileProbe {
    FileProbe { length, accept_ranges }
}

fn plan(route: Route) -> DownloadPlan {
    DownloadPlan {
        route,
        size_mismatch: false,
        discard_temp: false,
        clear_state: false,
        truncate_to: None,
        keep_state: false,
    }
}

#[test]
fn connections_are_kept_between_one_and_sixteen() {
    assert_eq!(effective_connections(0), 1);
    assert_eq!(effective_connections(1), 1);
    assert_eq!(effective_connections(4), 4);
    assert_eq!(effective_connections(16), 16);
    assert_eq!(effective_connections(17), 16);
    assert_eq!(effective_connections(255), 16);
}

#[test]
fn multiple_connections_need_length_ranges_and_a_request_for_them() {
    assert!(supports_multiple_connections(&probe(Some(10), true), 4));
    assert!(!supports_multiple_connections(&probe(Some(10), true), 1));
    assert!(!supports_multiple_connections(&probe(Some(10), true), 0));
    assert!(!supports_multiple_connections(&probe(None, true), 4));
    assert!(!supports_multiple_connections(&probe(Some(10), false), 4));
    assert!(falls_back_to_single(&probe(None, true), 4));
    assert!(falls_back_to_single(&probe(Some(10), false), 2));
    assert!(!falls_back_to_single(&probe(Some(10), true), 4));
    assert!(!falls_back_to_single(&probe(None, false), 1));
}

#[test]
fn happy_path_with_known_length_and_one_connection() {
    let head = HeadResponse {
        success: true,
        content_length: Header::Text("1048576".to_string()),
        accept_ranges: Header::Text("bytes".to_string()),
    };
    let found = match after_head(Some(&head)) {
        ProbeStep::Done(found) => found,
        ProbeStep::AskForFirstByte => panic!("the probe is over after a successful HEAD"),
    };
    assert_eq!(found, probe(Some(1_048_576), true));
    assert_eq!(
        decide_file_action(ExistingFileStrategy::Overwrite, false, &found, 1),
        FileAction::Transfer { connections: 1 }
    );
    let decided = plan_download(found.length, found.accept_ranges, 1, 0, None);
    assert_eq!(decided, plan(Route::SingleStream { resume_from: 0 }));
    // One GET without a Range.
    assert!(!sends_range(found.accept_ranges, 0));
    assert_eq!(after_stream_response(true, 0, 200), StreamStart::WriteFrom(0));
    // The file is moved into place and has the declared length.
    let mut registry = TempRegistry::new();
    track_temp_file(&mut registry, ".out.bin.tmp");
    assert_eq!(finish_transfer(&mut registry, ".out.bin.tmp", 1_048_576, found.length), Ok(1_048_576));
    assert!(!registry.is_tracked(".out.bin.tmp"));
    assert_eq!(outcome_message("out.bin", false), "Saved to out.bin");
    assert_eq!(
        downloaded_message(reported_bytes(found.length, 0), "/out.bin"),
        "Downloaded 1048576 bytes from /out.bin"
    );
}

#[test]
fn multi_stream_happy_path() {
    let found = probe(Some(10_000_000), true);
    assert!(supports_multiple_connections(&found, 4));
    let decided = plan_download(found.length, true, 4, 0, None);
    assert_eq!(decided, plan(Route::MultiStream));
    let state = prepare_state(None, 10_000_000, 4);
    assert!(!honours_saved_count(&state, 4));
    assert_eq!(
        state.parts,
        vec![
            PartProgress { start: 0, end: 2_499_999, downloaded: 0 },
            PartProgress { start: 2_500_000, end: 4_999_999, downloaded: 0 },
            PartProgress { start: 5_000_000, end: 7_499_999, downloaded: 0 },
            PartProgress { start: 7_500_000, end: 9_999_999, downloaded: 0 },
        ]
    );
    let items = work_items(&state);
    assert_eq!(items.len(), 4);
    let ranges: Vec<String> =
        items.iter().map(|work| WorkerProgress::begin(work).request_range()).collect();
    assert_eq!(
        ranges,
        vec![
            "bytes=0-2499999",
            "bytes=2500000-4999999",
            "bytes=5000000-7499999",
            "bytes=7500000-9999999",
        ]
    );
    assert_eq!(check_final_size(10_000_000, Some(10_000_000)), Ok(10_000_000));
}

#[test]
fn resume_after_kill() {
    let total = 16 * MIB;
    let mut saved = PartialDownloadState::new(Some(total), 4);
    // Every part had persisted a part of its four MiB when the process was killed.
    for index in 0..4 {
        saved.set_downloaded(index, MIB + index as u64);
    }
    let persisted = saved.completed_bytes();
    assert_eq!(persisted, 4 * MIB + 6);
    // The temp file was sized to the total when the download began.
    let decided = plan_download(Some(total), true, 4, total, Some(summarize(&saved)));
    assert_eq!(decided.route, Route::MultiStream);
    assert!(decided.keep_state);
    assert!(!decided.discard_temp && !decided.clear_state);
    let state = prepare_state(Some(saved), total, 4);
    // The progress display starts above zero.
    assert_eq!(state.completed_bytes(), persisted);
    let items = work_items(&state);
    assert_eq!(items.len(), 4);
    let mut fetched = 0;
    for (index, work) in items.iter().enumerate() {
        let progress = WorkerProgress::begin(work);
        let first = index as u64 * 4 * MIB + MIB + index as u64;
        let last = (index as u64 + 1) * 4 * MIB - 1;
        assert_eq!(progress.request_range(), format!("bytes={first}-{last}"));
        assert_eq!(progress.write_offset(), first);
        fetched += progress.remaining;
    }
    // Only what is missing is fetched.
    assert_eq!(fetched, total - persisted);
    assert_eq!(check_final_size(total, Some(total)), Ok(total));
}

#[test]
fn resume_skips_the_parts_that_are_done() {
    let mut state = PartialDownloadState::new(Some(100), 4);
    state.set_downloaded(0, 25);
    state.set_downloaded(2, 10);
    state.set_downloaded(3, 25);
    assert_eq!(
        work_items(&state),
        vec![
            PartWork { index: 1, start: 25, end: 49, downloaded: 0 },
            PartWork { index: 2, start: 50, end: 74, downloaded: 10 },
        ]
    );
    state.set_downloaded(1, 25);
    state.set_downloaded(2, 25);
    assert!(work_items(&state).is_empty());
    assert!(state.is_complete());
}

#[test]
fn resume_honours_the_persisted_number_of_parts() {
    let mut saved = PartialDownloadState::new(Some(100), 4);
    saved.set_downloaded(0, 5);
    let state = prepare_state(Some(saved), 100, 2);
    assert!(honours_saved_count(&state, 2));
    assert_eq!(state.part_count, 4);
    assert_eq!(state.parts[0], PartProgress { start: 0, end: 24, downloaded: 5 });
}

#[test]
fn resume_for_another_total_starts_from_zero() {
    let mut saved = PartialDownloadState::new(Some(100), 2);
    saved.set_downloaded(0, 30);
    let state = prepare_state(Some(saved), 1000, 2);
    assert_eq!(state.total, Some(1000));
    assert_eq!(
        state.parts,
        vec![
            PartProgress { start: 0, end: 499, downloaded: 0 },
            PartProgress { start: 500, end: 999, downloaded: 0 },
        ]
    );
    assert_eq!(state.completed_bytes(), 0);
    assert_eq!(work_items(&state).len(), 2);
}

#[test]
fn an_empty_file_is_never_split() {
    assert!(!supports_multiple_connections(&probe(Some(0), true), 4));
    assert_eq!(
        plan_download(Some(0), true, 4, 0, None),
        plan(Route::SingleStream { resume_from: 0 })
    );
    assert_eq!(
        decide_file_action(ExistingFileStrategy::Overwrite, false, &probe(Some(0), true), 4),
        FileAction::CreateEmpty
    );
}

#[test]
fn server_drops_range_support_mid_resume() {
    let existing = 4 * MIB;
    let decided = plan_download(None, true, 1, existing, None);
    assert_eq!(decided, plan(Route::SingleStream { resume_from: existing }));
    assert!(sends_range(true, existing));
    assert_eq!(serve_cli::probe::range_header_from(existing), "bytes=4194304-");
    // The server answers 200 instead of 206: the temp file is dropped and written anew.
    assert_eq!(after_stream_response(true, existing, 200), StreamStart::StartOver);
    assert_eq!(after_stream_response(true, existing, 206), StreamStart::WriteFrom(existing));
    assert_eq!(after_stream_response(false, 0, 200), StreamStart::WriteFrom(0));
}

#[test]
fn plan_restarts_on_another_total() {
    let saved = SavedProgress { total: Some(100), complete: false };
    let decided = plan_download(Some(200), true, 4, 100, Some(saved));
    assert_eq!(
        decided,
        DownloadPlan {
            route: Route::MultiStream,
            size_mismatch: true,
            discard_temp: true,
            clear_state: true,
            truncate_to: None,
            keep_state: false,
        }
    );
    let decided = plan_download(Some(200), true, 1, 100, Some(saved));
    assert_eq!(decided.route, Route::SingleStream { resume_from: 0 });
    assert!(decided.size_mismatch && decided.discard_temp && decided.clear_state);
}

#[test]
fn plan_finalizes_a_temp_file_that_is_whole() {
    assert_eq!(plan_download(Some(100), true, 1, 100, None).route, Route::Finalize);
    assert_eq!(plan_download(Some(100), false, 4, 150, None).route, Route::Finalize);
    let done = SavedProgress { total: Some(100), complete: true };
    let open = SavedProgress { total: Some(100), complete: false };
    assert_eq!(plan_download(Some(100), true, 4, 100, Some(done)).route, Route::Finalize);
    assert_eq!(plan_download(Some(100), true, 4, 100, Some(open)).route, Route::MultiStream);
    assert!(plan_download(Some(100), true, 4, 100, Some(open)).keep_state);
}

#[test]
fn plan_starts_over_without_range_support() {
    let open = SavedProgress { total: Some(100), complete: false };
    let decided = plan_download(Some(100), false, 4, 40, Some(open));
    assert_eq!(
        decided,
        DownloadPlan {
            route: Route::SingleStream { resume_from: 0 },
            size_mismatch: false,
            discard_temp: true,
            clear_state: true,
            truncate_to: None,
            keep_state: false,
        }
    );
    assert_eq!(plan_download(None, false, 1, 0, None), plan(Route::SingleStream { resume_from: 0 }));
}

#[test]
fn plan_resumes_a_single_stream() {
    let decided = plan_download(Some(100), true, 1, 40, None);
    assert_eq!(decided, plan(Route::SingleStream { resume_from: 40 }));
    // A state left by a split download is cleared when one connection takes over.
    let open = SavedProgress { total: Some(100), complete: false };
    let decided = plan_download(Some(100), true, 1, 40, Some(open));
    assert_eq!(decided.route, Route::SingleStream { resume_from: 40 });
    assert!(decided.clear_state && !decided.discard_temp && !decided.keep_state);
}

#[test]
fn plan_cuts_a_temp_file_for_an_empty_remote() {
    let decided = plan_download(Some(0), true, 1, 40, None);
    assert_eq!(decided.truncate_to, Some(0));
    assert_eq!(decided.route, Route::SingleStream { resume_from: 0 });
}

#[test]
fn worker_persists_every_eight_mib() {
    let work = PartWork { index: 2, start: 100 * MIB, end: 120 * MIB - 1, downloaded: 0 };
    let mut progress = WorkerProgress::begin(&work);
    assert_eq!(progress.remaining, 20 * MIB);
    assert_eq!(PARTIAL_STATE_UPDATE_THRESHOLD, 8 * MIB);
    assert_eq!(BLOCK_SIZE, 16 * 1024);
    let mut persisted_at = Vec::new();
    while !progress.is_done() {
        let len = progress.next_read_len(BLOCK_SIZE);
        assert_eq!(len, BLOCK_SIZE);
        if progress.record_block(len) {
            persisted_at.push(progress.downloaded);
        }
        assert_eq!(progress.downloaded + progress.remaining, 20 * MIB);
    }
    assert_eq!(persisted_at, vec![8 * MIB, 16 * MIB]);
    assert_eq!(progress.last_persisted, 16 * MIB);
    assert_eq!(progress.finish(), WorkerEnd { persist: true, missing: 0 });
    assert_eq!(worker_result(&progress), Ok(()));
}

#[test]
fn worker_reads_no_more_than_is_missing() {
    let work = PartWork { index: 0, start: 0, end: 99, downloaded: 90 };
    let mut progress = WorkerProgress::begin(&work);
    assert_eq!(progress.request_range(), "bytes=90-99");
    assert_eq!(progress.next_read_len(BLOCK_SIZE), 10);
    assert!(!progress.record_block(4));
    assert_eq!(progress.next_read_len(BLOCK_SIZE), 6);
    assert_eq!(progress.next_read_len(2), 2);
    assert!(!progress.record_block(1000));
    assert_eq!(progress.downloaded, 100);
    assert_eq!(progress.remaining, 0);
    assert_eq!(progress.finish(), WorkerEnd { persist: true, missing: 0 });
}

#[test]
fn worker_that_is_cut_off_reports_what_is_missing() {
    let work = PartWork { index: 3, start: 0, end: 99, downloaded: 0 };
    let mut progress = WorkerProgress::begin(&work);
    progress.record_block(40);
    let end = progress.finish();
    assert_eq!(end, WorkerEnd { persist: true, missing: 60 });
    let error = worker_result(&progress).unwrap_err();
    assert_eq!(error, DownloadError::Interrupted { part: 3, missing: 60 });
    assert_eq!(error.message(), "download interrupted for part 3 (60 bytes remaining)");
}

#[test]
fn worker_that_got_nothing_persists_nothing() {
    let work = PartWork { index: 0, start: 0, end: 99, downloaded: 30 };
    let progress = WorkerProgress::begin(&work);
    assert_eq!(progress.finish(), WorkerEnd { persist: false, missing: 70 });
}

#[test]
fn worker_needs_partial_content() {
    assert!(range_honoured(206));
    assert!(!range_honoured(200));
    assert!(!range_honoured(416));
    assert_eq!(
        DownloadError::RangeNotHonoured { part: 1 }.message(),
        "server did not honor range request for part 1"
    );
}

#[test]
fn final_size_must_match_a_known_total() {
    assert_eq!(check_final_size(10, Some(10)), Ok(10));
    assert_eq!(check_final_size(10, None), Ok(10));
    let error = check_final_size(9, Some(10)).unwrap_err();
    assert_eq!(error, DownloadError::SizeMismatch { expected: 10, found: 9 });
    assert_eq!(error.message(), "downloaded file size mismatch (expected 10 bytes, found 9)");
}

#[test]
fn finishing_takes_the_temp_file_out_of_the_registry() {
    let mut registry = TempRegistry::new();
    track_temp_file(&mut registry, "a/.x.tmp");
    track_temp_file(&mut registry, "a/.y.tmp");
    assert!(finish_transfer(&mut registry, "a/.x.tmp", 5, Some(6)).is_err());
    assert!(!registry.is_tracked("a/.x.tmp"));
    assert!(registry.is_tracked("a/.y.tmp"));
    let guard = TempCleanupGuard::new();
    assert_eq!(guard.release(&mut registry), vec!["a/.y.tmp".to_string()]);
}

#[test]
fn directory_with_skip() {
    assert_eq!(
        decide_directory_action(ExistingFileStrategy::Skip, true),
        DirectoryAction::Skip
    );
    assert_eq!(
        skip_directory_message("a"),
        "Skipping download; local directory a already exists"
    );
    assert_eq!(
        decide_directory_action(ExistingFileStrategy::Skip, false),
        DirectoryAction::Download
    );
    assert_eq!(
        decide_directory_action(ExistingFileStrategy::Overwrite, true),
        DirectoryAction::Download
    );
    assert_eq!(
        decide_directory_action(ExistingFileStrategy::Duplicate, true),
        DirectoryAction::DownloadToDuplicate
    );
    assert_eq!(
        decide_directory_action(ExistingFileStrategy::Duplicate, false),
        DirectoryAction::Download
    );
}

#[test]
fn file_actions() {
    let known = probe(Some(10), true);
    assert_eq!(decide_file_action(ExistingFileStrategy::Skip, true, &known, 4), FileAction::Skip);
    assert_eq!(
        decide_file_action(ExistingFileStrategy::Skip, false, &known, 4),
        FileAction::Transfer { connections: 4 }
    );
    assert_eq!(
        decide_file_action(ExistingFileStrategy::Overwrite, true, &probe(Some(0), true), 4),
        FileAction::CreateEmpty
    );
    assert_eq!(
        decide_file_action(ExistingFileStrategy::Duplicate, true, &probe(None, false), 200),
        FileAction::Transfer { connections: 16 }
    );
}

#[test]
fn remote_path_is_required() {
    let error = checked_remote("   ").unwrap_err();
    assert_eq!(error, DownloadError::MissingRemotePath);
    assert_eq!(error.message(), "remote path is required");
    assert!(checked_remote("").is_err());
    assert_eq!(checked_remote(" dir/file.bin \n"), Ok("/dir/file.bin".to_string()));
    assert_eq!(checked_remote("/a/"), Ok("/a/".to_string()));
}

#[test]
fn directories_need_the_recursive_flag() {
    assert_eq!(check_recursive("/a/", true), Ok(()));
    let error = check_recursive("/a/", false).unwrap_err();
    assert_eq!(error.message(), "/a/ is a directory. Pass --recursive to download it.");
    assert_eq!(
        DownloadError::ListingFailed { remote: "/a/b/".to_string() }.message(),
        "failed to list directory /a/b/"
    );
}

#[test]
fn children_of_a_remote_directory() {
    assert_eq!(child_remote("/a/", "b.txt", false), "/a/b.txt");
    assert_eq!(child_remote("/a/", "sub", true), "/a/sub/");
    assert_eq!(child_remote("/a/", "sub/", true), "/a/sub/");
}

#[test]
fn notices_of_a_skipped_file() {
    assert_eq!(
        skip_message("out.bin", Some(10), Some(10), ""),
        "Skipping download; out.bin already exists with matching size (10 bytes)"
    );
    assert_eq!(
        skip_message("out.bin", Some(7), Some(10), ""),
        "Skipping download; out.bin exists (7 bytes) but remote reports 10 bytes. Rerun without --skip to replace it."
    );
    assert_eq!(
        skip_message("out.bin", Some(7), None, ""),
        "Skipping download; out.bin already exists (7 bytes) and remote size is unknown"
    );
    assert_eq!(
        skip_message("out.bin", None, Some(10), "permission denied"),
        "Skipping download; out.bin already exists but metadata could not be read: permission denied"
    );
    assert_eq!(
        outcome_message("out.bin", true),
        "Skipped download; keeping existing file at out.bin"
    );
}

#[test]
fn reported_bytes_prefer_the_declared_total() {
    assert_eq!(reported_bytes(Some(10), 7), 10);
    assert_eq!(reported_bytes(None, 7), 7);
    assert_eq!(downloaded_message(0, "/empty"), "Downloaded 0 bytes from /empty");
}
