//! What the progress display shows besides the bar itself: its label and the count of
//! connections at work.

use crate::decimal::{decimal, usize_to_decimal};
use crate::text::{chars_of, string_of_range};
use vstd::prelude::*;
use vstd::utf8::encode_utf8;

verus! {

/// The longest label, in bytes, that is shown in full.
pub const MAX_LABEL_BYTES: usize = 25;

/// The number of characters that are kept of a label that is too long.
pub const LABEL_TAIL_CHARS: usize = 22;

/// The length of a text in bytes, as a string reports it.
pub open spec fn byte_len(text: Seq<char>) -> usize {
    encode_utf8(text).len() as usize
}

/// The label as it is shown: in full if it takes at most [`MAX_LABEL_BYTES`] bytes, else
/// three dots and its last [`LABEL_TAIL_CHARS`] characters.
pub open spec fn shown_label(label: Seq<char>) -> Seq<char> {
    if byte_len(label) <= MAX_LABEL_BYTES {
        label
    } else if label.len() <= LABEL_TAIL_CHARS {
        "..."@ + label
    } else {
        "..."@ + label.skip(label.len() - LABEL_TAIL_CHARS)
    }
}

/// The label as it is shown.
pub fn format_label(label: &str) -> (shown: String)
    ensures
        shown@ == shown_label(label@),
{
    if label.len() <= MAX_LABEL_BYTES {
        return String::from_str(label);
    }
    let v = chars_of(label);
    let from: usize = if v.len() <= LABEL_TAIL_CHARS {
        0
    } else {
        v.len() - LABEL_TAIL_CHARS
    };
    let tail = string_of_range(&v, from, v.len());
    proof {
        assert(v@.subrange(from as int, v@.len() as int) =~= v@.skip(from as int));
        assert(v@.skip(0) =~= v@);
    }
    let mut shown = String::from_str("...");
    shown.append(tail.as_str());
    shown
}

/// The note of how many connections are at work, for a download over more than one.
pub open spec fn connection_note(active: nat, total: nat) -> Option<Seq<char>> {
    if total > 1 {
        Some(" ["@ + decimal(active) + "/"@ + decimal(total) + " connections]"@)
    } else {
        None
    }
}

/// The note of how many connections are at work; none for a download over one connection.
pub fn connection_status_message(active: usize, total: usize) -> (note: Option<String>)
    ensures
        match note {
            Some(text) => connection_note(active as nat, total as nat) == Some(text@),
            None => connection_note(active as nat, total as nat) is None,
        },
{
    if total > 1 {
        let mut text = String::from_str(" [");
        text.append(usize_to_decimal(active).as_str());
        text.append("/");
        text.append(usize_to_decimal(total).as_str());
        text.append(" connections]");
        Some(text)
    } else {
        None
    }
}

/// The message to set on the progress display: the note, or nothing.
pub fn connection_message(active: usize, total: usize) -> (message: String)
    ensures
        message@ == match connection_note(active as nat, total as nat) {
            Some(text) => text,
            None => Seq::<char>::empty(),
        },
{
    match connection_status_message(active, total) {
        Some(text) => text,
        None => String::new(),
    }
}

/// The count of connections at work once one more has started, given the count before.
pub fn connections_after_start(before: usize) -> (now: usize)
    ensures
        now == if before == usize::MAX {
            usize::MAX as int
        } else {
            before + 1
        },
{
    before.saturating_add(1)
}

/// The count of connections at work once one has ended, given the count before.
pub fn connections_after_end(before: usize) -> (now: usize)
    ensures
        now == if before == 0 {
            0
        } else {
            before - 1
        },
{
    before.saturating_sub(1)
}

} // verus!
