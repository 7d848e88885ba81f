//! Directory listings: telling a directory from a file by the answer to a listing request,
//! and the rows that a listing is shown as.

use crate::probe::Header;
use crate::text::{
    ascii_lower, ascii_upper, chars_of, contains_text, has_text, join2, string_of,
    to_ascii_lower, to_ascii_upper, trim_end_char, without_trailing,
};
use vstd::prelude::*;

verus! {

/// One entry of a directory listing.
#[derive(Clone, Debug, PartialEq, Eq)]
pub struct ListEntry {
    pub id: Option<String>,
    pub path: Option<String>,
    pub name: String,
    pub size: String,
    pub size_bytes: u64,
    pub modified: String,
    pub url: String,
    pub is_dir: bool,
    pub mime_type: String,
    pub list_url: Option<String>,
    pub download_url: Option<String>,
}

/// A directory listing.
#[derive(Clone, Debug, PartialEq, Eq)]
pub struct ListResponse {
    pub path: String,
    pub entries: Vec<ListEntry>,
    pub powered_by: Option<String>,
}

/// The server's answer to a delete request.
#[derive(Clone, Debug, PartialEq, Eq)]
pub struct DeletePayload {
    pub id: String,
    pub path: String,
    pub is_dir: bool,
    pub status: String,
}

/// What the answer to a listing request says before its body is read.
#[derive(Clone, Copy, Debug, PartialEq, Eq, Structural)]
pub enum ListingStep {
    /// A success that declares JSON: read the body as a listing.
    ReadListing,
    /// A success that declares something else: the path is no directory.
    NotDirectory,
    /// `404`: there is no such path.
    NotFound,
    /// Any other status: the request has failed.
    Failed { status: u16 },
}

/// What a remote path turned out to be.
#[derive(Clone, Copy, Debug, PartialEq, Eq, Structural)]
pub enum ListingProbe {
    /// A directory, whose listing was read.
    Listing,
    /// No directory: the listing request was answered, but not by a listing.
    NotDirectory,
    /// Nothing: the server knows no such path.
    NotFound,
}

/// The status `404 Not Found`.
pub const NOT_FOUND: u16 = 404;

/// Whether a status is a `2xx`.
pub open spec fn is_success(status: u16) -> bool {
    200 <= status <= 299
}

/// Whether a `Content-Type` declares JSON.
pub open spec fn declares_json(content_type: Header) -> bool {
    match content_type {
        Header::Text(text) => has_text(text@, "application/json"@),
        _ => false,
    }
}

/// What a response with this status and content type says.
pub open spec fn listing_step(status: u16, content_type: Header) -> ListingStep {
    if is_success(status) {
        if declares_json(content_type) {
            ListingStep::ReadListing
        } else {
            ListingStep::NotDirectory
        }
    } else if status == NOT_FOUND {
        ListingStep::NotFound
    } else {
        ListingStep::Failed { status }
    }
}

/// Whether a status is a `2xx`.
pub fn status_is_success(status: u16) -> (success: bool)
    ensures
        success == is_success(status),
{
    200 <= status && status <= 299
}

/// Classifies the response to a listing request by its status and content type.
pub fn classify_response(status: u16, content_type: &Header) -> (step: ListingStep)
    ensures
        step == listing_step(status, *content_type),
{
    if status_is_success(status) {
        let json = match content_type {
            Header::Text(text) => {
                let v = chars_of(text.as_str());
                let needle = chars_of("application/json");
                contains_text(&v, &needle)
            },
            _ => false,
        };
        if json {
            ListingStep::ReadListing
        } else {
            ListingStep::NotDirectory
        }
    } else if status == NOT_FOUND {
        ListingStep::NotFound
    } else {
        ListingStep::Failed { status }
    }
}

/// What the path is once the body of a listing response was read: a directory if the body
/// was a listing, else no directory.
pub fn after_body(is_listing: bool) -> (probe: ListingProbe)
    ensures
        probe == if is_listing {
            ListingProbe::Listing
        } else {
            ListingProbe::NotDirectory
        },
{
    if is_listing {
        ListingProbe::Listing
    } else {
        ListingProbe::NotDirectory
    }
}

/// What a listing request that failed without a response says: with the status `404` in
/// the failure there is no such path; anything else is a failure of the request.
pub fn classify_failure(status: Option<u16>) -> (probe: Option<ListingProbe>)
    ensures
        probe == if status == Some(NOT_FOUND) {
            Some(ListingProbe::NotFound)
        } else {
            None
        },
{
    match status {
        Some(code) => if code == NOT_FOUND {
            Some(ListingProbe::NotFound)
        } else {
            None
        },
        None => None,
    }
}

/// Whether the probe found a directory to descend into.
pub fn is_directory(probe: ListingProbe) -> (yes: bool)
    ensures
        yes == (probe is Listing),
{
    match probe {
        ListingProbe::Listing => true,
        _ => false,
    }
}

/// An id with its characters in upper and lower case by turns, the first in upper case.
pub open spec fn stylized(id: Seq<char>) -> Seq<char> {
    Seq::new(
        id.len(),
        |i: int|
            if i % 2 == 0 {
                ascii_upper(id[i])
            } else {
                ascii_lower(id[i])
            },
    )
}

/// An id with its characters in upper and lower case by turns.
pub fn stylize_id(id: &str) -> (styled: String)
    ensures
        styled@ == stylized(id@),
{
    let v = chars_of(id);
    let mut out: Vec<char> = Vec::new();
    let mut i: usize = 0;
    while i < v.len()
        invariant
            i <= v@.len(),
            out@ =~= stylized(v@).take(i as int),
        decreases v@.len() - i,
    {
        let c = if i % 2 == 0 {
            to_ascii_upper(v[i])
        } else {
            to_ascii_lower(v[i])
        };
        out.push(c);
        i += 1;
    }
    assert(stylized(v@).take(v@.len() as int) =~= stylized(v@));
    string_of(&out)
}

/// One row of the table that a listing is shown as.
#[derive(Clone, Debug, PartialEq, Eq)]
pub struct TableEntry {
    pub index: usize,
    pub id: String,
    pub path: String,
    pub size: String,
    pub mime: String,
    pub modified: String,
    pub kind: String,
    pub url: String,
}

/// The id column: the stylized id, or a dash.
pub open spec fn shown_id(entry: ListEntry) -> Seq<char> {
    match entry.id {
        Some(id) => stylized(id@),
        None => "-"@,
    }
}

/// The path column: the entry's path, or its name where it has no path.
pub open spec fn shown_path(entry: ListEntry) -> Seq<char> {
    match entry.path {
        Some(path) => if path@.len() > 0 {
            path@
        } else {
            entry.name@
        },
        None => entry.name@,
    }
}

/// The URL column: the download URL, else the listing URL, else the plain URL.
pub open spec fn shown_url(entry: ListEntry) -> Seq<char> {
    match entry.download_url {
        Some(url) => url@,
        None => match entry.list_url {
            Some(url) => url@,
            None => entry.url@,
        },
    }
}

/// The kind column.
pub open spec fn shown_kind(entry: ListEntry) -> Seq<char> {
    if entry.is_dir {
        "dir"@
    } else {
        "file"@
    }
}

/// Whether `row` is the row of the entry at position `position`, counted from zero.
pub open spec fn is_row_of(row: TableEntry, position: int, entry: ListEntry) -> bool {
    &&& row.index == position + 1
    &&& row.id@ == shown_id(entry)
    &&& row.path@ == shown_path(entry)
    &&& row.size@ == entry.size@
    &&& row.mime@ == entry.mime_type@
    &&& row.modified@ == entry.modified@
    &&& row.kind@ == shown_kind(entry)
    &&& row.url@ == shown_url(entry)
}

/// The row of the entry at position `position`.
pub fn table_row(position: usize, entry: &ListEntry) -> (row: TableEntry)
    requires
        position < usize::MAX,
    ensures
        is_row_of(row, position as int, *entry),
{
    let id = match &entry.id {
        Some(id) => stylize_id(id.as_str()),
        None => String::from_str("-"),
    };
    let path = match &entry.path {
        Some(path) => if path.as_str().unicode_len() > 0 {
            path.clone()
        } else {
            entry.name.clone()
        },
        None => entry.name.clone(),
    };
    let url = match &entry.download_url {
        Some(url) => url.clone(),
        None => match &entry.list_url {
            Some(url) => url.clone(),
            None => entry.url.clone(),
        },
    };
    let kind = if entry.is_dir {
        String::from_str("dir")
    } else {
        String::from_str("file")
    };
    TableEntry {
        index: position + 1,
        id,
        path,
        size: entry.size.clone(),
        mime: entry.mime_type.clone(),
        modified: entry.modified.clone(),
        kind,
        url,
    }
}

/// The rows of a listing, one for each entry, in order, numbered from one.
pub fn table_rows(entries: &Vec<ListEntry>) -> (rows: Vec<TableEntry>)
    ensures
        rows@.len() == entries@.len(),
        forall|i: int| 0 <= i < rows@.len() ==> is_row_of(#[trigger] rows@[i], i, entries@[i]),
{
    let mut rows: Vec<TableEntry> = Vec::new();
    let mut i: usize = 0;
    while i < entries.len()
        invariant
            i <= entries@.len(),
            rows@.len() == i,
            forall|k: int| 0 <= k < i ==> is_row_of(#[trigger] rows@[k], k, entries@[k]),
        decreases entries@.len() - i,
    {
        rows.push(table_row(i, &entries[i]));
        i += 1;
    }
    rows
}

/// A URL that the server gave relative to its root, made absolute: the host without its
/// trailing slashes, then the relative URL. A URL that is not there is shown as such.
pub open spec fn absolute_url(host: Seq<char>, relative: Option<Seq<char>>) -> Seq<char> {
    match relative {
        Some(path) => without_trailing(host, '/') + path,
        None => "<not available>"@,
    }
}

/// A URL that the server gave relative to its root, made absolute.
pub fn absolute(host: &str, relative: Option<&str>) -> (url: String)
    ensures
        url@ == absolute_url(
            host@,
            match relative {
                Some(path) => Some(path@),
                None => None,
            },
        ),
{
    match relative {
        Some(path) => {
            let base = trim_end_char(host, '/');
            join2(base.as_str(), path)
        },
        None => String::from_str("<not available>"),
    }
}

} // verus!
