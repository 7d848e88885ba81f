use serve_cli::paths::{
    after_probe, candidate_path, derive_directory_name, derive_file_name, download_temp_path,
    name_with_suffix, next_available_path, partial_state_path, partial_state_tmp_path,
    path_with_suffix, temp_file_name, temp_paths, PathError, SearchStep, TempPaths,
};

/// Runs the search for a free path against a set of paths that count as taken.
fn search(base: &str, taken: &[&str]) -> Option<String> {
    let mut path = candidate_path(base, 0);
    let mut index = 0;
    loop {
        let exists = taken.contains(&path.as_str());
        match after_probe(base, index, exists) {
            SearchStep::Found(found) => return Some(found),
            SearchStep::Probe { path: next, index: next_index } => {
                path = next;
                index = next_index;
            }
            SearchStep::Exhausted => return None,
        }
    }
}

#[test]
fn temp_file_is_hidden_beside_the_output() {
    assert_eq!(download_temp_path("dir/file.bin"), Ok("dir/.file.bin.tmp".to_string()));
    assert_eq!(download_temp_path("/abs/dir/a.tar.gz"), Ok("/abs/dir/.a.tar.gz.tmp".to_string()));
    assert_eq!(download_temp_path("file.bin"), Ok(".file.bin.tmp".to_string()));
    assert_eq!(temp_file_name("fox.txt"), ".fox.txt.tmp");
}

#[test]
fn temp_file_needs_a_file_name() {
    assert_eq!(download_temp_path("/"), Err(PathError::NoFileName));
    assert_eq!(download_temp_path(""), Err(PathError::NoFileName));
    assert_eq!(download_temp_path("dir/.."), Err(PathError::NoFileName));
}

#[test]
fn state_files_sit_beside_the_temp_file() {
    let temp = download_temp_path("dir/file.bin").unwrap();
    assert_eq!(partial_state_path(&temp), "dir/.file.bin.tmp.state");
    assert_eq!(partial_state_tmp_path(&temp), "dir/.file.bin.tmp.state.tmp");
    let temp = download_temp_path("archive").unwrap();
    assert_eq!(partial_state_path(&temp), ".archive.tmp.state");
    assert_eq!(partial_state_tmp_path(&temp), ".archive.tmp.state.tmp");
}

#[test]
fn names_derived_from_a_remote_path() {
    assert_eq!(derive_file_name("/a/b.txt"), "b.txt");
    assert_eq!(derive_file_name("/b.txt"), "b.txt");
    assert_eq!(derive_file_name("/a/dir/"), "dir");
    assert_eq!(derive_file_name("/a/dir///"), "dir");
    assert_eq!(derive_file_name("/"), "download");
    assert_eq!(derive_file_name(""), "download");
    assert_eq!(derive_directory_name("/a/"), "a");
    assert_eq!(derive_directory_name("/a/b/"), "b");
    assert_eq!(derive_directory_name("/"), "download");
    assert_eq!(derive_directory_name(""), "download");
}

#[test]
fn numbered_names() {
    assert_eq!(name_with_suffix("file.txt", 1), "file-1.txt");
    assert_eq!(name_with_suffix("file", 2), "file-2");
    assert_eq!(name_with_suffix("archive.tar.gz", 3), "archive.tar-3.gz");
    assert_eq!(name_with_suffix(".bashrc", 1), ".bashrc-1");
    assert_eq!(name_with_suffix("name.", 1), "name-1");
    assert_eq!(name_with_suffix("", 7), "download-7");
    assert_eq!(name_with_suffix("a.b", 0), "a-0.b");
    assert_eq!(name_with_suffix("file.txt", 1234567), "file-1234567.txt");
}

#[test]
fn numbered_paths_stay_in_their_directory() {
    assert_eq!(path_with_suffix("a/file.txt", 1), "a/file-1.txt");
    assert_eq!(path_with_suffix("/abs/dir/file", 12), "/abs/dir/file-12");
    assert_eq!(path_with_suffix("file.txt", 2), "file-2.txt");
    assert_eq!(path_with_suffix("a/b/", 1), "a/b-1");
    assert_eq!(path_with_suffix("/", 1), "download-1");
    assert_eq!(path_with_suffix("", 1), "download-1");
}

#[test]
fn a_free_path_is_taken_as_it_is() {
    assert_eq!(search("a/file.txt", &[]), Some("a/file.txt".to_string()));
    assert_eq!(search("a/file.txt", &["a/file-1.txt"]), Some("a/file.txt".to_string()));
}

#[test]
fn a_taken_path_gets_the_smallest_free_number() {
    assert_eq!(search("a/file.txt", &["a/file.txt"]), Some("a/file-1.txt".to_string()));
    assert_eq!(
        search("a/file.txt", &["a/file.txt", "a/file-1.txt", "a/file-2.txt"]),
        Some("a/file-3.txt".to_string())
    );
    assert_eq!(
        search("a/file.txt", &["a/file.txt", "a/file-2.txt"]),
        Some("a/file-1.txt".to_string())
    );
    assert_eq!(search("dir", &["dir", "dir-1"]), Some("dir-2".to_string()));
}

#[test]
fn the_search_ends_when_the_numbers_do() {
    assert_eq!(after_probe("x", usize::MAX, true), SearchStep::Exhausted);
    assert_eq!(
        after_probe("x", usize::MAX, false),
        SearchStep::Found(format!("x-{}", usize::MAX))
    );
    assert_eq!(
        after_probe("x.y", 0, true),
        SearchStep::Probe { path: "x-1.y".to_string(), index: 1 }
    );
    assert_eq!(after_probe("x.y", 0, false), SearchStep::Found("x.y".to_string()));
}

#[test]
fn the_search_on_disk_finds_a_path_that_is_not_there() {
    let missing = "no-such-directory-for-the-test/no-such-file.bin";
    assert_eq!(next_available_path(missing), Some(missing.to_string()));
    // The root is there, so the search moves on to its first duplicate.
    let free = next_available_path("/").unwrap();
    assert!(free.starts_with("download-"));
    assert!(!std::path::Path::new(&free).exists());
}

#[test]
fn the_files_of_a_transfer() {
    assert_eq!(
        temp_paths("downloads/movie.mkv"),
        Ok(TempPaths {
            temp: "downloads/.movie.mkv.tmp".to_string(),
            state: "downloads/.movie.mkv.tmp.state".to_string(),
            staging: "downloads/.movie.mkv.tmp.state.tmp".to_string(),
        })
    );
    assert_eq!(temp_paths("downloads/.."), Err(PathError::NoFileName));
}
