use serve_cli::server::browse::{
    content_disposition, directory_label, display_name, entry_links, file_reply, listing_path,
    logged_path, parent_link, parse_range_header, relative_url, FileReply, RangeNotSatisfiable,
    ROOT_LOCATION,
};

#[test]
fn ranges_of_bytes() {
    assert_eq!(parse_range_header("bytes=0-0", 10), Ok(Some((0, 0))));
    assert_eq!(parse_range_header("bytes=0-9", 10), Ok(Some((0, 9))));
    assert_eq!(parse_range_header("bytes=2500000-4999999", 10_000_000), Ok(Some((2_500_000, 4_999_999))));
    assert_eq!(parse_range_header("bytes=4-", 10), Ok(Some((4, 9))));
    assert_eq!(parse_range_header("  bytes= 4 - 6 ", 10), Ok(Some((4, 6))));
}

#[test]
fn ranges_from_the_end() {
    assert_eq!(parse_range_header("bytes=-3", 10), Ok(Some((7, 9))));
    assert_eq!(parse_range_header("bytes=-10", 10), Ok(Some((0, 9))));
    assert_eq!(parse_range_header("bytes=-100", 10), Ok(Some((0, 9))));
    assert_eq!(parse_range_header("bytes=-0", 10), Err(RangeNotSatisfiable));
    assert_eq!(parse_range_header("bytes=-3", 0), Err(RangeNotSatisfiable));
}

#[test]
fn other_units_are_ignored() {
    assert_eq!(parse_range_header("items=0-5", 10), Ok(None));
    assert_eq!(parse_range_header("Bytes=0-5", 10), Ok(None));
    assert_eq!(parse_range_header("bytes", 10), Ok(None));
    assert_eq!(parse_range_header("x", 0), Ok(None));
}

#[test]
fn ranges_that_cannot_be_served() {
    for value in [
        "",
        "   ",
        "bytes=",
        "bytes=  ",
        "bytes=-",
        "bytes=5",
        "bytes=0-1,3-4",
        "bytes=a-b",
        "bytes=5-4",
        "bytes=0-10",
        "bytes=10-",
        "bytes=0--1",
        "bytes=--1",
        "bytes=0-18446744073709551616",
    ] {
        assert_eq!(parse_range_header(value, 10), Err(RangeNotSatisfiable), "{value}");
    }
    assert_eq!(parse_range_header("bytes=0-", 0), Err(RangeNotSatisfiable));
    assert_eq!(parse_range_header("bytes=0-0", 0), Err(RangeNotSatisfiable));
}

#[test]
fn served_ranges_lie_in_the_file() {
    for size in [0u64, 1, 2, 10] {
        for value in ["bytes=0-", "bytes=-1", "bytes=1-1", "bytes=0-9", "bytes=-20", "bytes=9-"] {
            if let Ok(Some((first, last))) = parse_range_header(value, size) {
                assert!(first <= last && last < size);
            }
        }
    }
}

#[test]
fn replies_to_a_request_for_a_file() {
    assert_eq!(file_reply(None, 10), FileReply::Whole { content_length: 10 });
    assert_eq!(file_reply(Some("items=1-2"), 10), FileReply::Whole { content_length: 10 });
    assert_eq!(
        file_reply(Some("bytes=0-0"), 1_048_576),
        FileReply::Partial {
            first: 0,
            content_length: 1,
            content_range: "bytes 0-0/1048576".to_string()
        }
    );
    assert_eq!(
        file_reply(Some("bytes=4194304-"), 16_777_216),
        FileReply::Partial {
            first: 4_194_304,
            content_length: 12_582_912,
            content_range: "bytes 4194304-16777215/16777216".to_string()
        }
    );
    assert_eq!(
        file_reply(Some("bytes=10-"), 10),
        FileReply::NotSatisfiable { content_range: "bytes */10".to_string() }
    );
}

#[test]
fn a_client_reads_the_total_that_the_server_writes() {
    let reply = file_reply(Some("bytes=0-0"), 10_000_000);
    let content_range = match reply {
        FileReply::Partial { content_range, .. } => content_range,
        _ => panic!("a range of the file is served in part"),
    };
    assert_eq!(serve_cli::probe::content_range_total(&content_range), Some(10_000_000));
}

#[test]
fn links_to_the_parent() {
    assert_eq!(parent_link(""), None);
    assert_eq!(parent_link("   "), None);
    assert_eq!(parent_link("/"), Some("/".to_string()));
    assert_eq!(parent_link("a"), Some("/".to_string()));
    assert_eq!(parent_link("/a/"), Some("/".to_string()));
    assert_eq!(parent_link("a/b"), Some("/a".to_string()));
    assert_eq!(parent_link("/a//b/c/"), Some("/a/b".to_string()));
}

#[test]
fn labels_of_a_directory() {
    assert_eq!(directory_label("", "example.com"), "example.com");
    assert_eq!(directory_label("  ", "example.com"), "example.com");
    assert_eq!(directory_label("a", "example.com"), "a/");
    assert_eq!(directory_label("a/b", "example.com"), "../b/");
    assert_eq!(directory_label("/a/b/c/", "example.com"), "../../c/");
    assert_eq!(directory_label("/", "example.com"), "//");
}

#[test]
fn path_of_a_listing() {
    assert_eq!(listing_path(""), "/");
    assert_eq!(listing_path("a"), "/a/");
    assert_eq!(listing_path("/a/b"), "/a/b/");
    assert_eq!(listing_path("a/b/"), "/a/b/");
}

#[test]
fn headers_and_links_of_an_entry() {
    assert_eq!(content_disposition(false, "fox.txt"), "attachment; filename=\"fox.txt\"");
    assert_eq!(content_disposition(true, "fox.txt"), "inline; filename=\"fox.txt\"");
    assert_eq!(display_name("docs", true), "docs/");
    assert_eq!(display_name("fox.txt", false), "fox.txt");
    assert_eq!(
        entry_links("01ABC"),
        ("/list?id=01ABC".to_string(), "/download?id=01ABC".to_string())
    );
    assert_eq!(relative_url("01ABC", true), "/list?id=01ABC");
    assert_eq!(relative_url("01ABC", false), "/download?id=01ABC");
    assert_eq!(ROOT_LOCATION, "/list?id=root");
    assert_eq!(logged_path(""), "/");
    assert_eq!(logged_path("a/b.txt"), "/a/b.txt");
    assert_eq!(logged_path("//a/b.txt"), "/a/b.txt");
}
