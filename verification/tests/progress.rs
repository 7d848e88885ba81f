use serve_cli::progress::{
    connection_message, connection_status_message, connections_after_end,
    connections_after_start, format_label,
};

#[test]
fn short_labels_are_shown_in_full() {
    assert_eq!(format_label(""), "");
    assert_eq!(format_label("fox.txt"), "fox.txt");
    assert_eq!(format_label("1234567890123456789012345"), "1234567890123456789012345");
}

#[test]
fn long_labels_keep_their_end() {
    assert_eq!(format_label("12345678901234567890123456"), "...5678901234567890123456");
    assert_eq!(
        format_label("a-very-long-file-name-with-an-extension.tar.gz"),
        "...th-an-extension.tar.gz"
    );
    assert_eq!(format_label("a-very-long-file-name-with-an-extension.tar.gz").chars().count(), 25);
}

#[test]
fn labels_are_measured_in_bytes_and_cut_in_characters() {
    // Ten characters of three bytes each: too long in bytes, short in characters.
    let label = "日本語日本語日本語日";
    assert_eq!(format_label(label), format!("...{label}"));
    let label = "äöüäöüäöüäöüäöüäöüäöüäöüäöü";
    assert_eq!(format_label(label), "...üäöüäöüäöüäöüäöüäöüäöü");
}

#[test]
fn connection_note() {
    assert_eq!(connection_status_message(2, 4), Some(" [2/4 connections]".to_string()));
    assert_eq!(connection_status_message(0, 16), Some(" [0/16 connections]".to_string()));
    assert_eq!(connection_status_message(1, 1), None);
    assert_eq!(connection_status_message(0, 0), None);
    assert_eq!(connection_message(3, 4), " [3/4 connections]");
    assert_eq!(connection_message(1, 1), "");
}

#[test]
fn connection_count() {
    assert_eq!(connections_after_start(0), 1);
    assert_eq!(connections_after_start(usize::MAX), usize::MAX);
    assert_eq!(connections_after_end(1), 0);
    assert_eq!(connections_after_end(0), 0);
}
