//! Serving a path: the bytes that a `Range` header asks for, and the links and labels of a
//! directory page.

use crate::cleanup::texts;
use crate::decimal::{decimal, parse_u64, parsed_u64, u64_to_decimal};
use crate::text::{
    chars_of, first_index_of, first_position, has_char, index_of_from, matches_at, occurs_at,
    segments, split_segments, string_of_range, trim, trimmed,
};
use vstd::prelude::*;

verus! {

/// Where a request for the root of the server is sent on: to the listing of the root
/// directory.
pub const ROOT_LOCATION: &'static str = "/list?id=root";

/// A `Range` header that cannot be served: it is malformed, or it asks for bytes that the
/// file does not have.
#[derive(Clone, Copy, Debug, PartialEq, Eq, Structural)]
pub struct RangeNotSatisfiable;

/// The bytes that the last `suffix` bytes of a file of `size` bytes are, first and last.
pub open spec fn suffix_range(suffix: u64, size: u64) -> Result<
    Option<(u64, u64)>,
    RangeNotSatisfiable,
> {
    if suffix == 0 || size == 0 {
        Err(RangeNotSatisfiable)
    } else if suffix >= size {
        Ok(Some((0u64, (size - 1) as u64)))
    } else {
        Ok(Some(((size - suffix) as u64, (size - 1) as u64)))
    }
}

/// The bytes from `start` to `end`, checked against a file of `size` bytes.
pub open spec fn checked_range(start: u64, end: u64, size: u64) -> Result<
    Option<(u64, u64)>,
    RangeNotSatisfiable,
> {
    if start > end || end >= size {
        Err(RangeNotSatisfiable)
    } else {
        Ok(Some((start, end)))
    }
}

/// What a range `first-last`, each without the white space around it, asks of a file of
/// `size` bytes: `-n` asks for the last `n` bytes, `a-` for the bytes from `a` on, and
/// `a-b` for the bytes from `a` to `b`.
pub open spec fn range_of(first: Seq<char>, last: Seq<char>, size: u64) -> Result<
    Option<(u64, u64)>,
    RangeNotSatisfiable,
> {
    if first.len() == 0 {
        if last.len() == 0 {
            Err(RangeNotSatisfiable)
        } else {
            match parsed_u64(last) {
                Some(suffix) => suffix_range(suffix, size),
                None => Err(RangeNotSatisfiable),
            }
        }
    } else {
        match parsed_u64(first) {
            None => Err(RangeNotSatisfiable),
            Some(start) => if last.len() == 0 {
                if size == 0 {
                    Err(RangeNotSatisfiable)
                } else {
                    checked_range(start, (size - 1) as u64, size)
                }
            } else {
                match parsed_u64(last) {
                    Some(end) => checked_range(start, end, size),
                    None => Err(RangeNotSatisfiable),
                }
            },
        }
    }
}

/// What a `Range` header asks of a file of `size` bytes: `Ok(None)` for a header in another
/// unit than bytes, which is ignored; `Ok(Some((first, last)))` for one range of bytes that
/// the file has; an error for an empty header, for several ranges, and for a range that is
/// malformed or not in the file.
pub open spec fn parsed_range(value: Seq<char>, size: u64) -> Result<
    Option<(u64, u64)>,
    RangeNotSatisfiable,
> {
    let header = trimmed(value);
    if header.len() == 0 {
        Err(RangeNotSatisfiable)
    } else if !occurs_at(header, "bytes="@, 0) {
        Ok(None)
    } else {
        let spec = trimmed(header.skip(6));
        let dash = first_position(spec, '-');
        if spec.len() == 0 || has_char(spec, ',') || dash < 0 {
            Err(RangeNotSatisfiable)
        } else {
            range_of(trimmed(spec.take(dash)), trimmed(spec.skip(dash + 1)), size)
        }
    }
}

fn suffix_of(suffix: u64, size: u64) -> (range: Result<Option<(u64, u64)>, RangeNotSatisfiable>)
    ensures
        range == suffix_range(suffix, size),
{
    if suffix == 0 || size == 0 {
        Err(RangeNotSatisfiable)
    } else if suffix >= size {
        Ok(Some((0, size - 1)))
    } else {
        Ok(Some((size - suffix, size - 1)))
    }
}

fn check_range(start: u64, end: u64, size: u64) -> (range: Result<
    Option<(u64, u64)>,
    RangeNotSatisfiable,
>)
    ensures
        range == checked_range(start, end, size),
{
    if start > end || end >= size {
        Err(RangeNotSatisfiable)
    } else {
        Ok(Some((start, end)))
    }
}

/// Reads a `Range` header against a file of `size` bytes.
pub fn parse_range_header(value: &str, size: u64) -> (range: Result<
    Option<(u64, u64)>,
    RangeNotSatisfiable,
>)
    ensures
        range == parsed_range(value@, size),
{
    let header = trim(value);
    let hv = chars_of(header.as_str());
    if hv.len() == 0 {
        return Err(RangeNotSatisfiable);
    }
    let unit = chars_of("bytes=");
    proof {
        reveal_strlit("bytes=");
    }
    if !matches_at(&hv, &unit, 0) {
        return Ok(None);
    }
    let rest = string_of_range(&hv, 6, hv.len());
    assert(hv@.subrange(6, hv@.len() as int) =~= hv@.skip(6));
    let spec_text = trim(rest.as_str());
    let sv = chars_of(spec_text.as_str());
    if sv.len() == 0 {
        return Err(RangeNotSatisfiable);
    }
    match index_of_from(&sv, ',', 0) {
        Some(_) => {
            return Err(RangeNotSatisfiable);
        },
        None => {
            assert(!has_char(sv@, ','));
        },
    }
    let dash = match first_index_of(&sv, '-') {
        Some(i) => i,
        None => {
            return Err(RangeNotSatisfiable);
        },
    };
    let first_raw = string_of_range(&sv, 0, dash);
    let last_raw = string_of_range(&sv, dash + 1, sv.len());
    proof {
        assert(sv@.subrange(0, dash as int) =~= sv@.take(dash as int));
        assert(sv@.subrange(dash + 1, sv@.len() as int) =~= sv@.skip(dash + 1));
    }
    let first = trim(first_raw.as_str());
    let last = trim(last_raw.as_str());
    let first_empty = first.as_str().unicode_len() == 0;
    let last_empty = last.as_str().unicode_len() == 0;
    if first_empty {
        if last_empty {
            return Err(RangeNotSatisfiable);
        }
        match parse_u64(last.as_str()) {
            Some(suffix) => suffix_of(suffix, size),
            None => Err(RangeNotSatisfiable),
        }
    } else {
        match parse_u64(first.as_str()) {
            None => Err(RangeNotSatisfiable),
            Some(start) => {
                if last_empty {
                    if size == 0 {
                        Err(RangeNotSatisfiable)
                    } else {
                        check_range(start, size - 1, size)
                    }
                } else {
                    match parse_u64(last.as_str()) {
                        Some(end) => check_range(start, end, size),
                        None => Err(RangeNotSatisfiable),
                    }
                }
            },
        }
    }
}

/// A range that is served lies in the file and is not empty.
pub proof fn lemma_served_range_is_in_the_file(value: Seq<char>, size: u64)
    ensures
        match parsed_range(value, size) {
            Ok(Some((first, last))) => first <= last < size,
            _ => true,
        },
{
}

/// How a request for a file is answered.
#[derive(Clone, Debug, PartialEq, Eq)]
pub enum FileReply {
    /// `200` with the whole file.
    Whole { content_length: u64 },
    /// `206` with the bytes from `first` on, `content_length` of them.
    Partial { first: u64, content_length: u64, content_range: String },
    /// `416`: the range cannot be served.
    NotSatisfiable { content_range: String },
}

/// The `Content-Range` of a partial answer.
pub open spec fn content_range_of(first: u64, last: u64, size: u64) -> Seq<char> {
    "bytes "@ + decimal(first as nat) + "-"@ + decimal(last as nat) + "/"@ + decimal(size as nat)
}

/// The `Content-Range` of an answer to a range that cannot be served.
pub open spec fn unsatisfied_range_of(size: u64) -> Seq<char> {
    "bytes */"@ + decimal(size as nat)
}

/// Decides how a request for a file of `size` bytes is answered, given its `Range` header
/// if it has one.
pub fn file_reply(range: Option<&str>, size: u64) -> (reply: FileReply)
    ensures
        match range {
            None => reply == (FileReply::Whole { content_length: size }),
            Some(value) => match parsed_range(value@, size) {
                Ok(None) => reply == (FileReply::Whole { content_length: size }),
                Ok(Some((first, last))) => reply matches FileReply::Partial {
                    first: f,
                    content_length,
                    content_range,
                } && f == first && content_length == last - first + 1 && content_range@
                    == content_range_of(first, last, size),
                Err(_) => reply matches FileReply::NotSatisfiable { content_range }
                    && content_range@ == unsatisfied_range_of(size),
            },
        },
{
    match range {
        None => FileReply::Whole { content_length: size },
        Some(value) => match parse_range_header(value, size) {
            Ok(None) => FileReply::Whole { content_length: size },
            Ok(Some((first, last))) => {
                let mut content_range = String::from_str("bytes ");
                content_range.append(u64_to_decimal(first).as_str());
                content_range.append("-");
                content_range.append(u64_to_decimal(last).as_str());
                content_range.append("/");
                content_range.append(u64_to_decimal(size).as_str());
                FileReply::Partial { first, content_length: last - first + 1, content_range }
            },
            Err(_) => {
                let mut content_range = String::from_str("bytes */");
                content_range.append(u64_to_decimal(size).as_str());
                FileReply::NotSatisfiable { content_range }
            },
        },
    }
}

/// The names of `names` behind a `/` each.
pub open spec fn rooted_names(names: Seq<Seq<char>>) -> Seq<char>
    decreases names.len(),
{
    if names.len() == 0 {
        Seq::empty()
    } else {
        rooted_names(names.drop_last()) + "/"@ + names.last()
    }
}

/// The link to the parent of a requested path: none for the root itself; else the path
/// without its last name, behind a `/`.
pub open spec fn parent_of_request(requested: Seq<char>) -> Option<Seq<char>> {
    if trimmed(requested).len() == 0 {
        None
    } else if segments(requested, '/').len() <= 1 {
        Some("/"@)
    } else {
        Some(rooted_names(segments(requested, '/').drop_last()))
    }
}

/// The link to the parent of a requested path.
pub fn parent_link(requested_path: &str) -> (link: Option<String>)
    ensures
        match link {
            Some(l) => parent_of_request(requested_path@) == Some(l@),
            None => parent_of_request(requested_path@) is None,
        },
{
    if trim(requested_path).as_str().unicode_len() == 0 {
        return None;
    }
    let parts = split_segments(requested_path, '/');
    if parts.len() <= 1 {
        return Some(String::from_str("/"));
    }
    let ghost names = texts(parts@);
    let mut link = String::new();
    let mut i: usize = 0;
    assert(names.drop_last().take(0) =~= Seq::<Seq<char>>::empty());
    while i < parts.len() - 1
        invariant
            i <= parts@.len() - 1,
            names == texts(parts@),
            link@ == rooted_names(names.drop_last().take(i as int)),
        decreases parts@.len() - i,
    {
        proof {
            let next = names.drop_last().take(i as int + 1);
            assert(next.drop_last() =~= names.drop_last().take(i as int));
            assert(next.last() == parts@[i as int]@);
        }
        link.append("/");
        link.append(parts[i].as_str());
        i += 1;
    }
    assert(names.drop_last().take(i as int) =~= names.drop_last());
    Some(link)
}

/// `n` times `../`.
pub open spec fn climbs(n: nat) -> Seq<char>
    decreases n,
{
    if n == 0 {
        Seq::empty()
    } else {
        climbs((n - 1) as nat) + "../"@
    }
}

/// The label of a directory page: the host for the root; else the last name of the
/// requested path behind one `../` for each name before it, and a `/` at the end.
pub open spec fn label_of(requested: Seq<char>, host: Seq<char>) -> Seq<char> {
    let names = segments(requested, '/');
    if trimmed(requested).len() == 0 {
        host
    } else if names.len() == 0 {
        requested + "/"@
    } else {
        climbs((names.len() - 1) as nat) + names.last() + "/"@
    }
}

/// The label of a directory page.
pub fn directory_label(requested_path: &str, host: &str) -> (label: String)
    ensures
        label@ == label_of(requested_path@, host@),
{
    if trim(requested_path).as_str().unicode_len() == 0 {
        return String::from_str(host);
    }
    let parts = split_segments(requested_path, '/');
    if parts.len() == 0 {
        return crate::text::join2(requested_path, "/");
    }
    let mut label = String::new();
    let mut i: usize = 0;
    while i < parts.len() - 1
        invariant
            i <= parts@.len() - 1,
            label@ == climbs(i as nat),
        decreases parts@.len() - i,
    {
        label.append("../");
        i += 1;
    }
    label.append(parts[parts.len() - 1].as_str());
    label.append("/");
    assert(texts(parts@).last() == parts@[parts@.len() - 1]@);
    label
}

/// The path that a listing reports for a request: behind one `/`, and with a `/` at the
/// end; the root for an empty request.
pub fn listing_path(requested_path: &str) -> (path: String)
    ensures
        path@ == if requested_path@.len() == 0 {
            "/"@
        } else {
            crate::http::with_trailing_slash(crate::http::rooted(requested_path@))
        },
{
    if requested_path.unicode_len() == 0 {
        String::from_str("/")
    } else {
        let rooted = crate::http::rooted_path(requested_path);
        crate::http::ensure_trailing_slash(rooted.as_str())
    }
}

/// The `Content-Disposition` of a file: shown in the browser if that was asked for, else
/// offered for download, under its name.
pub fn content_disposition(view: bool, filename: &str) -> (value: String)
    ensures
        value@ == (if view {
            "inline"@
        } else {
            "attachment"@
        }) + "; filename=\""@ + filename@ + "\""@,
{
    let kind = if view {
        "inline"
    } else {
        "attachment"
    };
    let mut value = crate::text::join3(kind, "; filename=\"", filename);
    value.append("\"");
    value
}

/// The name under which an entry is shown: a directory has a `/` behind its name.
pub fn display_name(file_name: &str, is_dir: bool) -> (shown: String)
    ensures
        shown@ == if is_dir {
            file_name@ + "/"@
        } else {
            file_name@
        },
{
    if is_dir {
        crate::text::join2(file_name, "/")
    } else {
        String::from_str(file_name)
    }
}

/// The links of an entry: to its listing and to its download.
pub fn entry_links(id: &str) -> (links: (String, String))
    ensures
        links.0@ == "/list?id="@ + id@,
        links.1@ == "/download?id="@ + id@,
{
    (crate::text::join2("/list?id=", id), crate::text::join2("/download?id=", id))
}

/// The link that the name of an entry leads to: the listing of a directory, the download
/// of a file.
pub fn relative_url(id: &str, is_dir: bool) -> (url: String)
    ensures
        url@ == if is_dir {
            "/list?id="@ + id@
        } else {
            "/download?id="@ + id@
        },
{
    if is_dir {
        crate::text::join2("/list?id=", id)
    } else {
        crate::text::join2("/download?id=", id)
    }
}

/// The path under which a download is logged: the request behind one `/`, or the root.
pub fn logged_path(requested_path: &str) -> (path: String)
    ensures
        path@ == if requested_path@.len() == 0 {
            "/"@
        } else {
            crate::http::rooted(requested_path@)
        },
{
    if requested_path.unicode_len() == 0 {
        String::from_str("/")
    } else {
        crate::http::rooted_path(requested_path)
    }
}

} // verus!
