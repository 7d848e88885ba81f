use percent_encoding::{utf8_percent_encode, AsciiSet, CONTROLS};
use serve_cli::server::catalog::{
    entry_depth, recorded_mime_type, recorded_size, refresh_interval, stored_size, CatalogCommand,
    CatalogEntry, EntryInfo,
};
use serve_cli::server::template::{render_directory_page, replace_all};
use serve_cli::server::utils::{
    encode_link, holds, is_allowed_file, is_blacklisted, resolve_within_root, secure_filename,
};

const FRAGMENT: &AsciiSet =
    &CONTROLS.add(b' ').add(b'"').add(b'#').add(b'<').add(b'>').add(b'?').add(b'`');

fn names(list: &[&str]) -> Vec<String> {
    list.iter().map(|s| s.to_string()).collect()
}

#[test]
fn allowed_files_have_an_allowed_extension() {
    let allowed = names(&["txt", "tar", "gz"]);
    assert!(is_allowed_file("a.txt", &allowed));
    assert!(is_allowed_file("a.TXT", &allowed));
    assert!(is_allowed_file("dir/a.b.gz", &allowed));
    assert!(!is_allowed_file("a.exe", &allowed));
    assert!(!is_allowed_file("a", &allowed));
    assert!(!is_allowed_file(".txt", &allowed));
    assert!(!is_allowed_file("a.", &allowed));
    assert!(!is_allowed_file("a.txt", &vec![]));
    assert!(holds(&allowed, "tar"));
    assert!(!holds(&allowed, "TAR"));
}

#[test]
fn file_names_are_made_safe() {
    assert_eq!(secure_filename("fox.txt"), Some("fox.txt".to_string()));
    assert_eq!(secure_filename("  my file.txt  "), Some("my_file.txt".to_string()));
    assert_eq!(secure_filename("../../etc/passwd"), Some("etcpasswd".to_string()));
    assert_eq!(secure_filename("..hidden.."), Some("hidden".to_string()));
    assert_eq!(secure_filename("a/b\\c:d*e?.txt"), Some("abcde.txt".to_string()));
    assert_eq!(secure_filename("naïve-日本_1.TXT"), Some("nave-_1.TXT".to_string()));
    assert_eq!(secure_filename("a..b"), Some("a..b".to_string()));
    assert_eq!(secure_filename(". a ."), Some("_a_".to_string()));
}

#[test]
fn file_names_of_which_nothing_is_left_are_refused() {
    assert_eq!(secure_filename(""), None);
    assert_eq!(secure_filename("   "), None);
    assert_eq!(secure_filename("..."), None);
    assert_eq!(secure_filename("日本語"), None);
    assert_eq!(secure_filename("/\\:"), None);
}

#[test]
fn requests_are_resolved_below_the_root() {
    assert_eq!(resolve_within_root("/srv", "a/b.txt"), Some("/srv/a/b.txt".to_string()));
    assert_eq!(resolve_within_root("/srv", "/a/b.txt"), Some("/srv/a/b.txt".to_string()));
    assert_eq!(resolve_within_root("/srv", "///a//b/"), Some("/srv/a/b".to_string()));
    assert_eq!(resolve_within_root("/srv", ""), Some("/srv".to_string()));
    assert_eq!(resolve_within_root("/srv", "/"), Some("/srv".to_string()));
    assert_eq!(resolve_within_root("/srv", "./a/./b"), Some("/srv/a/b".to_string()));
    assert_eq!(resolve_within_root("/srv", "a/../b"), Some("/srv/b".to_string()));
    assert_eq!(resolve_within_root("/srv", "a/b/../../c"), Some("/srv/c".to_string()));
    assert_eq!(resolve_within_root("/srv", "a/.."), Some("/srv".to_string()));
}

#[test]
fn requests_that_leave_the_root_are_refused() {
    assert_eq!(resolve_within_root("/srv", ".."), None);
    assert_eq!(resolve_within_root("/srv", "../etc/passwd"), None);
    assert_eq!(resolve_within_root("/srv", "/../etc/passwd"), None);
    assert_eq!(resolve_within_root("/srv", "a/../../etc"), None);
    assert_eq!(resolve_within_root("/srv", "a/b/../../../srv"), None);
}

#[test]
fn blacklisted_paths() {
    let list = names(&["utils", "server.py"]);
    assert!(is_blacklisted("/srv/server.py", "/srv", &list));
    assert!(is_blacklisted("/srv/a/b/server.py", "/srv", &list));
    assert!(is_blacklisted("/srv/utils", "/srv", &list));
    assert!(is_blacklisted("/srv/utils/x/y.txt", "/srv", &list));
    assert!(!is_blacklisted("/srv/a/y.txt", "/srv", &list));
    assert!(!is_blacklisted("/srv/utils2/y.txt", "/srv", &list));
    assert!(!is_blacklisted("/srv/a/utils.txt", "/srv", &list));
    assert!(!is_blacklisted("/srv/server.py", "/srv", &vec![]));
}

#[test]
fn links_are_percent_encoded() {
    assert_eq!(encode_link("a/b.txt"), "/a/b.txt");
    assert_eq!(encode_link("/a/b.txt"), "/a/b.txt");
    assert_eq!(encode_link(""), "/");
    assert_eq!(encode_link("/a b#c?d"), "/a%20b%23c%3Fd");
    assert_eq!(encode_link("\"<>`"), "/%22%3C%3E%60");
    assert_eq!(encode_link("ä日"), "/%C3%A4%E6%97%A5");
    assert_eq!(encode_link("\u{7f}\t"), "/%7F%09");
    assert_eq!(encode_link("100%"), "/100%");
}

#[test]
fn links_are_encoded_as_by_the_percent_encoding_crate() {
    let mut inputs: Vec<String> = (0u8..128).map(|b| format!("x{}y", b as char)).collect();
    inputs.push("/päth/with spaces/und#mehr?".to_string());
    inputs.push("日本語/ファイル.txt".to_string());
    inputs.push("\u{10ffff}\u{0}".to_string());
    for input in inputs {
        let encoded = utf8_percent_encode(&input, FRAGMENT).to_string();
        let expected = if input.starts_with('/') { encoded } else { format!("/{encoded}") };
        assert_eq!(encode_link(&input), expected);
    }
}

#[test]
fn catalog_records() {
    let info = EntryInfo::new(
        "a/b.txt".to_string(),
        "b.txt".to_string(),
        Some("a".to_string()),
        false,
        11,
        "text/plain".to_string(),
        1_700_000_000,
    );
    assert_eq!(
        info,
        EntryInfo {
            relative_path: "a/b.txt".to_string(),
            name: "b.txt".to_string(),
            parent_path: Some("a".to_string()),
            is_dir: false,
            size_bytes: 11,
            mime_type: "text/plain".to_string(),
            modified: 1_700_000_000,
        }
    );
    let entry = CatalogEntry { relative_path: "a".to_string(), is_dir: true };
    assert!(entry.is_dir);
    assert_eq!(CatalogCommand::RefreshAll, CatalogCommand::RefreshAll);
}

#[test]
fn catalog_values() {
    assert_eq!(stored_size(0), 0);
    assert_eq!(stored_size(11), 11);
    assert_eq!(stored_size(i64::MAX as u64), i64::MAX);
    assert_eq!(stored_size(i64::MAX as u64 + 1), i64::MAX);
    assert_eq!(stored_size(u64::MAX), i64::MAX);
    assert_eq!(recorded_size(true, 4096), 0);
    assert_eq!(recorded_size(false, 4096), 4096);
    assert_eq!(recorded_mime_type(true, Some("text/plain")), "inode/directory");
    assert_eq!(recorded_mime_type(false, Some("text/plain")), "text/plain");
    assert_eq!(recorded_mime_type(false, None), "application/octet-stream");
    assert_eq!(refresh_interval(0), 1);
    assert_eq!(refresh_interval(1), 1);
    assert_eq!(refresh_interval(30), 30);
}

#[test]
fn depth_of_an_entry() {
    assert_eq!(entry_depth(""), 0);
    assert_eq!(entry_depth("a"), 1);
    assert_eq!(entry_depth("a/b"), 2);
    assert_eq!(entry_depth("a/b/c.txt"), 3);
    assert_eq!(entry_depth("/a//b/"), 2);
    assert_eq!(entry_depth("///"), 0);
    for path in ["", "a", "a/b", "/a//b/", "x/y/z/", "//"] {
        assert_eq!(entry_depth(path), path.split('/').filter(|s| !s.is_empty()).count());
    }
}

#[test]
fn text_is_replaced() {
    assert_eq!(replace_all("a-b-c", "-", "+"), "a+b+c");
    assert_eq!(replace_all("aaa", "aa", "b"), "ba");
    assert_eq!(replace_all("abc", "x", "y"), "abc");
    assert_eq!(replace_all("abc", "abc", ""), "");
    assert_eq!(replace_all("", "a", "b"), "");
    assert_eq!(replace_all("aXbXc", "X", "XX"), "aXXbXXc");
    assert_eq!(replace_all("abc", "", "-"), "abc");
    for (text, from, to) in [("a-b-c", "-", "+"), ("aaaa", "aa", "a"), ("{{ x }}{{ x }}", "{{ x }}", "1")] {
        assert_eq!(replace_all(text, from, to), text.replace(from, to));
    }
}

#[test]
fn directory_page_is_filled_in() {
    let template = "<h1>{{ directory }}</h1><table>{{ rows }}</table><p>{{ total_files }} files, {{ disk_usage }}</p><small>{{ host }} {{ year }} {{ host }}</small>";
    assert_eq!(
        render_directory_page(template, "../docs/", "<tr></tr>", 2024, "example.com", "1.50 MB", 3),
        "<h1>../docs/</h1><table><tr></tr></table><p>3 files, 1.50 MB</p><small>example.com 2024 example.com</small>"
    );
    assert_eq!(render_directory_page("{{ year }}", "", "", -44, "", "", 0), "-44");
    assert_eq!(render_directory_page("{{ year }}", "", "", i32::MIN, "", "", 0), "-2147483648");
    // What was filled in is read again by the placeholders that follow.
    assert_eq!(render_directory_page("{{ directory }}", "{{ host }}", "", 0, "h", "", 0), "h");
}

#[test]
fn a_safe_file_name_stays_as_it_is() {
    for name in [
        "fox.txt",
        "  my file.txt  ",
        "../../etc/passwd",
        "..hidden..",
        "naïve-日本_1.TXT",
        ". a .",
        "a\tb\u{a0}c.d",
        "\u{3000}x.y\u{2003}",
    ] {
        let safe = secure_filename(name).unwrap();
        assert!(!safe.is_empty());
        assert!(safe.chars().all(|c| c.is_ascii_alphanumeric() || "-_.".contains(c)));
        assert!(!safe.starts_with('.') && !safe.ends_with('.'));
        assert_eq!(secure_filename(&safe), Some(safe.clone()));
    }
}
