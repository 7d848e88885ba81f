//! Finding out how long a remote file is and whether the server serves byte ranges of it.
//!
//! The requests themselves are made elsewhere; here are the decisions between them and the
//! reading of what came back.

use crate::decimal::{decimal, parse_u64, parse_u64_range, parsed_u64, u64_to_decimal};
use crate::text::{chars_of, eq_ignore_ascii_case, join3, last_index_of, last_position, lowered};
use vstd::prelude::*;

verus! {

/// What is known of a remote file: its length if the server disclosed it, and whether the
/// server serves byte ranges.
#[derive(Clone, Copy, Debug, PartialEq, Eq, Structural)]
pub struct FileProbe {
    pub length: Option<u64>,
    pub accept_ranges: bool,
}

/// One header of a response.
#[derive(Clone, Debug, PartialEq, Eq)]
pub enum Header {
    /// The response has no such header.
    Missing,
    /// The header is there, but its value is no text.
    Unreadable,
    /// The header's value.
    Text(String),
}

/// What the probe reads of the response to `HEAD`.
#[derive(Clone, Debug, PartialEq, Eq)]
pub struct HeadResponse {
    /// Whether the status is a `2xx`.
    pub success: bool,
    pub content_length: Header,
    pub accept_ranges: Header,
}

/// What the probe reads of the response to `GET` with `Range: bytes=0-0`.
#[derive(Clone, Debug, PartialEq, Eq)]
pub struct RangeResponse {
    pub status: u16,
    pub content_range: Header,
    pub content_length: Header,
}

/// What follows the `HEAD` request.
#[derive(Clone, Copy, Debug, PartialEq, Eq, Structural)]
pub enum ProbeStep {
    /// The probe is over.
    Done(FileProbe),
    /// `HEAD` was refused or failed: ask for the first byte with `GET`.
    AskForFirstByte,
}

/// The status `206 Partial Content`.
pub const PARTIAL_CONTENT: u16 = 206;

/// The length that a header value declares, if it is a number.
pub open spec fn declared_length(header: Header) -> Option<u64> {
    match header {
        Header::Text(text) => parsed_u64(text@),
        _ => None,
    }
}

/// Whether a header value says `bytes`, in any case of letters.
pub open spec fn says_bytes(header: Header) -> bool {
    match header {
        Header::Text(text) => lowered(text@) == lowered("bytes"@),
        _ => false,
    }
}

/// The total after the last `/` of a `Content-Range` value, if a number stands there.
pub open spec fn range_total(text: Seq<char>) -> Option<u64> {
    let slash = last_position(text, '/');
    if slash < 0 {
        None
    } else {
        parsed_u64(text.skip(slash + 1))
    }
}

/// The length that the answer to the range request discloses: the total of its
/// `Content-Range` where it has that header, else its `Content-Length`.
pub open spec fn disclosed_length(response: RangeResponse) -> Option<u64> {
    match response.content_range {
        Header::Text(text) => range_total(text@),
        Header::Unreadable => None,
        Header::Missing => declared_length(response.content_length),
    }
}

/// What the answer to `HEAD` settles. A success ends the probe with the declared length and
/// with range support as the `Accept-Ranges` header says; anything else, and no answer at
/// all, leads to the range request.
pub open spec fn head_outcome(response: Option<HeadResponse>) -> ProbeStep {
    match response {
        Some(head) => if head.success {
            ProbeStep::Done(
                FileProbe {
                    length: declared_length(head.content_length),
                    accept_ranges: says_bytes(head.accept_ranges),
                },
            )
        } else {
            ProbeStep::AskForFirstByte
        },
        None => ProbeStep::AskForFirstByte,
    }
}

/// What the answer to the range request settles. `206` shows range support. No answer at
/// all leaves the length unknown and range support unshown: the probe never fails.
pub open spec fn range_outcome(response: Option<RangeResponse>) -> FileProbe {
    match response {
        Some(answer) => FileProbe {
            length: disclosed_length(answer),
            accept_ranges: answer.status == PARTIAL_CONTENT,
        },
        None => FileProbe { length: None, accept_ranges: false },
    }
}

/// The length that a header value declares, if it is a number.
pub fn header_length(header: &Header) -> (length: Option<u64>)
    ensures
        length == declared_length(*header),
{
    match header {
        Header::Text(text) => parse_u64(text.as_str()),
        _ => None,
    }
}

/// Whether a header value says `bytes`, in any case of letters.
pub fn header_says_bytes(header: &Header) -> (yes: bool)
    ensures
        yes == says_bytes(*header),
{
    match header {
        Header::Text(text) => eq_ignore_ascii_case(text.as_str(), "bytes"),
        _ => false,
    }
}

/// The total after the last `/` of a `Content-Range` value.
pub fn content_range_total(text: &str) -> (total: Option<u64>)
    ensures
        total == range_total(text@),
{
    let v = chars_of(text);
    match last_index_of(&v, '/') {
        Some(slash) => {
            assert(v@.skip(slash + 1) =~= v@.subrange(slash + 1, v@.len() as int));
            parse_u64_range(&v, slash + 1, v.len())
        },
        None => None,
    }
}

/// Decides what follows the `HEAD` request; `None` stands for a request that failed.
pub fn after_head(response: Option<&HeadResponse>) -> (step: ProbeStep)
    ensures
        step == head_outcome(
            match response {
                Some(head) => Some(*head),
                None => None,
            },
        ),
{
    match response {
        Some(head) => {
            if head.success {
                ProbeStep::Done(
                    FileProbe {
                        length: header_length(&head.content_length),
                        accept_ranges: header_says_bytes(&head.accept_ranges),
                    },
                )
            } else {
                ProbeStep::AskForFirstByte
            }
        },
        None => ProbeStep::AskForFirstByte,
    }
}

/// Reads the answer to the range request; `None` stands for a request that failed.
pub fn after_range_request(response: Option<&RangeResponse>) -> (probe: FileProbe)
    ensures
        probe == range_outcome(
            match response {
                Some(answer) => Some(*answer),
                None => None,
            },
        ),
{
    match response {
        Some(answer) => {
            let length = match &answer.content_range {
                Header::Text(text) => content_range_total(text.as_str()),
                Header::Unreadable => None,
                Header::Missing => header_length(&answer.content_length),
            };
            FileProbe { length, accept_ranges: answer.status == PARTIAL_CONTENT }
        },
        None => FileProbe { length: None, accept_ranges: false },
    }
}

/// The `Range` value that asks for the bytes from `first` to the end.
pub open spec fn range_from(first: nat) -> Seq<char> {
    "bytes="@ + decimal(first) + "-"@
}

/// The `Range` value that asks for the bytes from `first` to `last`, both included.
pub open spec fn range_between(first: nat, last: nat) -> Seq<char> {
    "bytes="@ + decimal(first) + "-"@ + decimal(last)
}

/// The `Range` value that asks for the bytes from `first` to the end.
pub fn range_header_from(first: u64) -> (value: String)
    ensures
        value@ == range_from(first as nat),
{
    join3("bytes=", u64_to_decimal(first).as_str(), "-")
}

/// The `Range` value that asks for the bytes from `first` to `last`, both included.
pub fn range_header_between(first: u64, last: u64) -> (value: String)
    ensures
        value@ == range_between(first as nat, last as nat),
{
    let mut value = join3("bytes=", u64_to_decimal(first).as_str(), "-");
    value.append(u64_to_decimal(last).as_str());
    value
}

} // verus!
