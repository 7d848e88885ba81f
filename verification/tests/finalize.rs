use serve_cli::finalize::{finalize_steps, Step};
use serve_cli::paths::temp_paths;
use std::collections::BTreeSet;

/// Carries out the steps on a set of paths that stands for the disk.
fn carry_out(files: &mut BTreeSet<String>, steps: &[Step]) {
    for step in steps {
        match step {
            Step::Remove { path, .. } => {
                files.remove(path);
            }
            Step::Rename { from, to } => {
                assert!(files.remove(from), "the file to move is there");
                files.insert(to.clone());
            }
        }
    }
}

#[test]
fn steps_that_move_a_download_into_place() {
    assert_eq!(
        finalize_steps(".out.tmp", ".out.tmp.state", ".out.tmp.state.tmp", "out"),
        Some(vec![
            Step::Remove { path: "out".to_string(), required: true },
            Step::Rename { from: ".out.tmp".to_string(), to: "out".to_string() },
            Step::Remove { path: ".out.tmp.state".to_string(), required: false },
            Step::Remove { path: ".out.tmp.state.tmp".to_string(), required: false },
        ])
    );
}

#[test]
fn a_finished_download_leaves_the_output_only() {
    let paths = temp_paths("dir/out.bin").unwrap();
    let steps =
        finalize_steps(&paths.temp, &paths.state, &paths.staging, "dir/out.bin").unwrap();
    for before in [
        vec![paths.temp.clone()],
        vec![paths.temp.clone(), paths.state.clone()],
        vec![
            paths.temp.clone(),
            paths.state.clone(),
            paths.staging.clone(),
            "dir/out.bin".to_string(),
            "dir/other.bin".to_string(),
        ],
    ] {
        let others = before.contains(&"dir/other.bin".to_string());
        let mut files: BTreeSet<String> = before.into_iter().collect();
        carry_out(&mut files, &steps);
        assert!(files.contains("dir/out.bin"));
        assert!(!files.contains(&paths.temp));
        assert!(!files.contains(&paths.state));
        assert!(!files.contains(&paths.staging));
        assert_eq!(files.contains("dir/other.bin"), others);
        assert_eq!(files.len(), if others { 2 } else { 1 });
    }
}

#[test]
fn a_file_of_the_transfer_must_not_be_the_output() {
    assert_eq!(finalize_steps("out", "out.state", "out.state.tmp", "out"), None);
    assert_eq!(finalize_steps(".out.tmp", "out", ".out.tmp.state.tmp", "out"), None);
    assert_eq!(finalize_steps(".out.tmp", ".out.tmp.state", "out", "out"), None);
    assert!(finalize_steps("a", "a", "a", "out").is_some());
}
