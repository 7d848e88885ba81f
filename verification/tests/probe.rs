use serve_cli::probe::{
    after_head, after_range_request, content_range_total, header_length, header_says_bytes,
    range_header_between, range_header_from, FileProbe, HeadResponse, Header, ProbeStep,
    RangeResponse,
};

fn text(value: &str) -> Header {
    Header::Text(value.to_string())
}

#[test]
fn head_with_length_and_ranges() {
    let head = HeadResponse {
        success: true,
        content_length: text("1048576"),
        accept_ranges: text("bytes"),
    };
    assert_eq!(
        after_head(Some(&head)),
        ProbeStep::Done(FileProbe { length: Some(1_048_576), accept_ranges: true })
    );
}

#[test]
fn head_compares_accept_ranges_without_case() {
    for value in ["bytes", "Bytes", "BYTES", "bYtEs"] {
        assert!(header_says_bytes(&text(value)));
    }
    for value in ["none", "", "byte", "bytes ", " bytes", "bytes, none"] {
        assert!(!header_says_bytes(&text(value)));
    }
    assert!(!header_says_bytes(&Header::Missing));
    assert!(!header_says_bytes(&Header::Unreadable));
}

#[test]
fn head_without_headers_knows_nothing() {
    let head = HeadResponse {
        success: true,
        content_length: Header::Missing,
        accept_ranges: Header::Missing,
    };
    assert_eq!(
        after_head(Some(&head)),
        ProbeStep::Done(FileProbe { length: None, accept_ranges: false })
    );
}

#[test]
fn head_with_a_broken_length_knows_no_length() {
    assert_eq!(header_length(&text("12x")), None);
    assert_eq!(header_length(&text("")), None);
    assert_eq!(header_length(&text("-1")), None);
    assert_eq!(header_length(&text(" 12")), None);
    assert_eq!(header_length(&text("18446744073709551616")), None);
    assert_eq!(header_length(&text("18446744073709551615")), Some(u64::MAX));
    assert_eq!(header_length(&text("0")), Some(0));
    assert_eq!(header_length(&text("+42")), Some(42));
    assert_eq!(header_length(&text("007")), Some(7));
    assert_eq!(header_length(&Header::Unreadable), None);
}

#[test]
fn head_that_is_refused_leads_to_the_range_request() {
    let head = HeadResponse {
        success: false,
        content_length: text("10"),
        accept_ranges: text("bytes"),
    };
    assert_eq!(after_head(Some(&head)), ProbeStep::AskForFirstByte);
    assert_eq!(after_head(None), ProbeStep::AskForFirstByte);
}

#[test]
fn range_request_answered_by_partial_content() {
    let answer = RangeResponse {
        status: 206,
        content_range: text("bytes 0-0/1048576"),
        content_length: text("1"),
    };
    assert_eq!(
        after_range_request(Some(&answer)),
        FileProbe { length: Some(1_048_576), accept_ranges: true }
    );
}

#[test]
fn range_request_answered_by_the_whole_file() {
    let answer = RangeResponse {
        status: 200,
        content_range: Header::Missing,
        content_length: text("4096"),
    };
    assert_eq!(
        after_range_request(Some(&answer)),
        FileProbe { length: Some(4096), accept_ranges: false }
    );
}

#[test]
fn content_range_hides_the_content_length() {
    let answer = RangeResponse {
        status: 206,
        content_range: text("bytes 0-0/*"),
        content_length: text("1"),
    };
    assert_eq!(
        after_range_request(Some(&answer)),
        FileProbe { length: None, accept_ranges: true }
    );
    let answer = RangeResponse {
        status: 206,
        content_range: Header::Unreadable,
        content_length: text("1"),
    };
    assert_eq!(
        after_range_request(Some(&answer)),
        FileProbe { length: None, accept_ranges: true }
    );
}

#[test]
fn probe_never_fails() {
    assert_eq!(after_range_request(None), FileProbe { length: None, accept_ranges: false });
}

#[test]
fn total_of_a_content_range() {
    assert_eq!(content_range_total("bytes 0-0/10000000"), Some(10_000_000));
    assert_eq!(content_range_total("bytes 5-9/10"), Some(10));
    assert_eq!(content_range_total("a/b/77"), Some(77));
    assert_eq!(content_range_total("bytes 0-0/"), None);
    assert_eq!(content_range_total("bytes 0-0"), None);
    assert_eq!(content_range_total("bytes 0-0/ 10"), None);
    assert_eq!(content_range_total(""), None);
}

#[test]
fn range_values() {
    assert_eq!(range_header_from(4_194_304), "bytes=4194304-");
    assert_eq!(range_header_from(0), "bytes=0-");
    assert_eq!(range_header_between(0, 0), "bytes=0-0");
    assert_eq!(range_header_between(2_500_000, 4_999_999), "bytes=2500000-4999999");
    assert_eq!(
        range_header_between(u64::MAX - 1, u64::MAX),
        "bytes=18446744073709551614-18446744073709551615"
    );
}
