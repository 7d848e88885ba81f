use serve_cli::listing::{
    absolute, after_body, classify_failure, classify_response, is_directory, status_is_success,
    stylize_id, table_rows, ListEntry, ListingProbe, ListingStep, TableEntry,
};
use serve_cli::probe::Header;

fn entry(name: &str, is_dir: bool) -> ListEntry {
    ListEntry {
        id: None,
        path: None,
        name: name.to_string(),
        size: "1.00 KB".to_string(),
        size_bytes: 1024,
        modified: "2024-01-01 00:00:00".to_string(),
        url: format!("http://h/{name}"),
        is_dir,
        mime_type: "text/plain".to_string(),
        list_url: None,
        download_url: None,
    }
}

#[test]
fn a_json_success_is_read_as_a_listing() {
    let json = Header::Text("application/json; charset=utf-8".to_string());
    assert_eq!(classify_response(200, &json), ListingStep::ReadListing);
    assert_eq!(classify_response(299, &json), ListingStep::ReadListing);
    assert_eq!(after_body(true), ListingProbe::Listing);
    assert_eq!(after_body(false), ListingProbe::NotDirectory);
    assert!(is_directory(ListingProbe::Listing));
    assert!(!is_directory(ListingProbe::NotDirectory));
    assert!(!is_directory(ListingProbe::NotFound));
}

#[test]
fn another_success_is_no_directory() {
    assert_eq!(
        classify_response(200, &Header::Text("text/html".to_string())),
        ListingStep::NotDirectory
    );
    assert_eq!(
        classify_response(200, &Header::Text("application/jso".to_string())),
        ListingStep::NotDirectory
    );
    assert_eq!(classify_response(200, &Header::Missing), ListingStep::NotDirectory);
    assert_eq!(classify_response(206, &Header::Unreadable), ListingStep::NotDirectory);
}

#[test]
fn not_found_and_failures() {
    let json = Header::Text("application/json".to_string());
    assert_eq!(classify_response(404, &json), ListingStep::NotFound);
    assert_eq!(classify_response(500, &json), ListingStep::Failed { status: 500 });
    assert_eq!(classify_response(301, &json), ListingStep::Failed { status: 301 });
    assert_eq!(classify_response(199, &json), ListingStep::Failed { status: 199 });
    assert_eq!(classify_failure(Some(404)), Some(ListingProbe::NotFound));
    assert_eq!(classify_failure(Some(500)), None);
    assert_eq!(classify_failure(None), None);
    assert!(status_is_success(204));
    assert!(!status_is_success(300));
}

#[test]
fn ids_alternate_their_case() {
    assert_eq!(stylize_id("abcd"), "AbCd");
    assert_eq!(stylize_id("ABCD"), "AbCd");
    assert_eq!(stylize_id("01hx9z"), "01Hx9z");
    assert_eq!(stylize_id(""), "");
    assert_eq!(stylize_id("äb"), "äb");
}

#[test]
fn rows_of_a_listing() {
    let mut first = entry("a.txt", false);
    first.id = Some("01abc".to_string());
    first.path = Some("dir/a.txt".to_string());
    first.download_url = Some("http://h/download?id=01abc".to_string());
    first.list_url = Some("http://h/list?id=01abc".to_string());
    let mut second = entry("sub", true);
    second.path = Some(String::new());
    second.list_url = Some("http://h/list?id=9".to_string());
    let third = entry("c", false);
    let rows = table_rows(&vec![first, second, third]);
    assert_eq!(
        rows,
        vec![
            TableEntry {
                index: 1,
                id: "01AbC".to_string(),
                path: "dir/a.txt".to_string(),
                size: "1.00 KB".to_string(),
                mime: "text/plain".to_string(),
                modified: "2024-01-01 00:00:00".to_string(),
                kind: "file".to_string(),
                url: "http://h/download?id=01abc".to_string(),
            },
            TableEntry {
                index: 2,
                id: "-".to_string(),
                path: "sub".to_string(),
                size: "1.00 KB".to_string(),
                mime: "text/plain".to_string(),
                modified: "2024-01-01 00:00:00".to_string(),
                kind: "dir".to_string(),
                url: "http://h/list?id=9".to_string(),
            },
            TableEntry {
                index: 3,
                id: "-".to_string(),
                path: "c".to_string(),
                size: "1.00 KB".to_string(),
                mime: "text/plain".to_string(),
                modified: "2024-01-01 00:00:00".to_string(),
                kind: "file".to_string(),
                url: "http://h/c".to_string(),
            },
        ]
    );
    assert!(table_rows(&vec![]).is_empty());
}

#[test]
fn relative_urls_are_made_absolute() {
    assert_eq!(absolute("http://h/", Some("/download?id=1")), "http://h/download?id=1");
    assert_eq!(absolute("http://h///", Some("/x")), "http://h/x");
    assert_eq!(absolute("http://h", Some("/x")), "http://h/x");
    assert_eq!(absolute("http://h", None), "<not available>");
}
