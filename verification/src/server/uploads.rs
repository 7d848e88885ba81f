//! Taking in an upload: who may upload, where to, under which name, and how much.

use crate::cleanup::texts;
use crate::paths::{extension_of, file_name_of, join_paths, path_extension, path_file_name, path_join};
use crate::server::catalog::CatalogEntry;
use crate::server::utils::{allowed_file, is_allowed_file, secure_filename, secure_name};
use crate::text::{
    chars_of, contains_text, eq_ignore_ascii_case, has_text, join3, lowered, same_text, string_of,
    to_lowered, trim, trim_end_char, trimmed, without_trailing,
};
use vstd::prelude::*;

verus! {

/// Why the server refuses a request.
#[derive(Clone, Copy, Debug, PartialEq, Eq, Structural)]
pub enum Refusal {
    /// The upload token is missing or wrong.
    Unauthorized,
    /// The multipart body cannot be read.
    InvalidPayload,
    /// No file was selected, or its name or type is not allowed.
    NotAllowed,
    /// The file is larger than the server takes.
    TooLarge,
    /// A raw upload names no file.
    MissingFileName,
    /// The target lies outside the root.
    InvalidDirectory,
    /// The form holds no file.
    NoFile,
    /// The directory id is blank.
    EmptyDirectoryId,
    /// The directory id names a file.
    NotADirectory,
    /// The id is missing.
    MissingId,
    /// The id names a directory where a file is asked for.
    IsADirectory,
    /// There is no such entry.
    NotFound,
}

/// The status that a refusal is answered with.
pub open spec fn status_of(refusal: Refusal) -> u16 {
    match refusal {
        Refusal::Unauthorized => 401,
        Refusal::NotFound => 404,
        _ => 400,
    }
}

/// The message that a refusal is answered with.
pub open spec fn message_of(refusal: Refusal) -> Seq<char> {
    match refusal {
        Refusal::Unauthorized => "Unauthorized"@,
        Refusal::InvalidPayload => "Invalid multipart payload"@,
        Refusal::NotAllowed => "No selected file or file type not allowed"@,
        Refusal::TooLarge => "File too large"@,
        Refusal::MissingFileName => "Missing file name"@,
        Refusal::InvalidDirectory => "Invalid directory path"@,
        Refusal::NoFile => "No file to upload"@,
        Refusal::EmptyDirectoryId => "Directory id cannot be empty"@,
        Refusal::NotADirectory => "Directory id must reference a directory"@,
        Refusal::MissingId => "Missing id parameter"@,
        Refusal::IsADirectory => "ID refers to a directory; download directories via path"@,
        Refusal::NotFound => "File or directory not found"@,
    }
}

/// The status that a refusal is answered with.
pub fn refusal_status(refusal: Refusal) -> (status: u16)
    ensures
        status == status_of(refusal),
{
    match refusal {
        Refusal::Unauthorized => 401,
        Refusal::NotFound => 404,
        _ => 400,
    }
}

/// The message that a refusal is answered with.
pub fn refusal_message(refusal: Refusal) -> (message: &'static str)
    ensures
        message@ == message_of(refusal),
{
    match refusal {
        Refusal::Unauthorized => "Unauthorized",
        Refusal::InvalidPayload => "Invalid multipart payload",
        Refusal::NotAllowed => "No selected file or file type not allowed",
        Refusal::TooLarge => "File too large",
        Refusal::MissingFileName => "Missing file name",
        Refusal::InvalidDirectory => "Invalid directory path",
        Refusal::NoFile => "No file to upload",
        Refusal::EmptyDirectoryId => "Directory id cannot be empty",
        Refusal::NotADirectory => "Directory id must reference a directory",
        Refusal::MissingId => "Missing id parameter",
        Refusal::IsADirectory => "ID refers to a directory; download directories via path",
        Refusal::NotFound => "File or directory not found",
    }
}

/// Lets an upload through only with the server's token.
pub fn check_token(provided: Option<&str>, expected: &str) -> (ok: Result<(), Refusal>)
    ensures
        match ok {
            Ok(_) => provided is Some && provided->0@ == expected@,
            Err(e) => e == Refusal::Unauthorized && !(provided is Some && provided->0@
                == expected@),
        },
{
    match provided {
        Some(token) => {
            if same_text(token, expected) {
                Ok(())
            } else {
                Err(Refusal::Unauthorized)
            }
        },
        None => Err(Refusal::Unauthorized),
    }
}

/// A value without the white space around it, if anything is left of it.
pub open spec fn filled(value: Option<Seq<char>>) -> Option<Seq<char>> {
    match value {
        Some(text) => if trimmed(text).len() == 0 {
            None
        } else {
            Some(trimmed(text))
        },
        None => None,
    }
}

fn fill(value: Option<&str>) -> (text: Option<String>)
    ensures
        match text {
            Some(t) => filled(
                match value {
                    Some(v) => Some(v@),
                    None => None,
                },
            ) == Some(t@),
            None => filled(
                match value {
                    Some(v) => Some(v@),
                    None => None,
                },
            ) is None,
        },
{
    match value {
        Some(v) => {
            let t = trim(v);
            if t.as_str().unicode_len() == 0 {
                None
            } else {
                Some(t)
            }
        },
        None => None,
    }
}

/// The id of the directory to upload into: the one in the query, else the one in the header
/// `X-Upload-Dir`; each counts only if it is not blank.
pub fn extract_dir_id(header_dir: Option<&str>, query_dir: Option<&str>) -> (dir_id: Option<String>)
    ensures
        ({
            let query = filled(
                match query_dir {
                    Some(v) => Some(v@),
                    None => None,
                },
            );
            let header = filled(
                match header_dir {
                    Some(v) => Some(v@),
                    None => None,
                },
            );
            match dir_id {
                Some(id) => if query is Some {
                    query == Some(id@)
                } else {
                    header == Some(id@)
                },
                None => query is None && header is None,
            }
        }),
{
    match fill(query_dir) {
        Some(id) => Some(id),
        None => fill(header_dir),
    }
}

/// Where an upload goes.
#[derive(Clone, Debug, PartialEq, Eq)]
pub enum Target {
    /// Into the root.
    Root,
    /// Into the directory with this id, which is to be looked up.
    Directory(String),
}

/// Reads the directory id of an upload: none means the root, as does `root` in any case of
/// letters; a blank one is refused.
pub fn target_of(dir_id: Option<&str>) -> (target: Result<Target, Refusal>)
    ensures
        ({
            let requested = match dir_id {
                Some(id) => trimmed(id@),
                None => "root"@,
            };
            match target {
                Ok(Target::Root) => lowered(requested) == lowered("root"@) && (dir_id is None
                    || requested.len() > 0),
                Ok(Target::Directory(id)) => dir_id is Some && id@ == requested && requested.len()
                    > 0 && lowered(requested) != lowered("root"@),
                Err(e) => e == Refusal::EmptyDirectoryId && dir_id is Some && requested.len()
                    == 0,
            }
        }),
{
    match dir_id {
        None => Ok(Target::Root),
        Some(id) => {
            let t = trim(id);
            if t.as_str().unicode_len() == 0 {
                Err(Refusal::EmptyDirectoryId)
            } else if eq_ignore_ascii_case(t.as_str(), "root") {
                Ok(Target::Root)
            } else {
                Ok(Target::Directory(t))
            }
        },
    }
}

/// The directory on disk that a catalog entry stands for, below `root`. An entry that is
/// a file is refused.
pub fn target_directory(root: &str, entry: &CatalogEntry) -> (path: Result<String, Refusal>)
    ensures
        match path {
            Ok(p) => entry.is_dir && p@ == if entry.relative_path@.len() == 0 {
                root@
            } else {
                path_join(root@, entry.relative_path@)
            },
            Err(e) => e == Refusal::NotADirectory && !entry.is_dir,
        },
{
    if !entry.is_dir {
        Err(Refusal::NotADirectory)
    } else if entry.relative_path.as_str().unicode_len() == 0 {
        Ok(String::from_str(root))
    } else {
        Ok(join_paths(root, entry.relative_path.as_str()))
    }
}

/// Whether a header value says yes: `1`, `true` or `yes`, in any case of letters.
pub open spec fn says_yes(value: Seq<char>) -> bool {
    lowered(value) == "1"@ || lowered(value) == "true"@ || lowered(value) == "yes"@
}

/// Whether a file without an extension is let through: as the header `X-Allow-No-Ext` says
/// where it is there, else as the query says, else not.
pub fn allows_missing_extension(header: Option<&str>, query: Option<bool>) -> (allowed: bool)
    ensures
        allowed == match header {
            Some(value) => says_yes(value@),
            None => query == Some(true),
        },
{
    match header {
        Some(value) => {
            let lower = string_of(&to_lowered(&chars_of(value)));
            same_text(lower.as_str(), "1") || same_text(lower.as_str(), "true") || same_text(
                lower.as_str(),
                "yes",
            )
        },
        None => match query {
            Some(allowed) => allowed,
            None => false,
        },
    }
}

/// The name under which an uploaded file is stored: the final component of the name that
/// was sent, made safe. The name must have an allowed extension, or none at all where that
/// is let through.
pub open spec fn stored_name(
    file_name: Seq<char>,
    allowed: Seq<Seq<char>>,
    allow_missing_extension: bool,
) -> Option<Seq<char>> {
    match path_file_name(file_name) {
        None => None,
        Some(clean) => if allowed_file(clean, allowed) || (allow_missing_extension
            && path_extension(clean) is None) {
            secure_name(clean)
        } else {
            None
        },
    }
}

/// Decides under which name an uploaded file is stored, or refuses it.
pub fn accepted_name(
    file_name: &str,
    allowed_extensions: &Vec<String>,
    allow_missing_extension: bool,
) -> (name: Result<String, Refusal>)
    ensures
        match name {
            Ok(n) => stored_name(file_name@, texts(allowed_extensions@), allow_missing_extension)
                == Some(n@),
            Err(e) => e == Refusal::NotAllowed && stored_name(
                file_name@,
                texts(allowed_extensions@),
                allow_missing_extension,
            ) is None,
        },
{
    let clean = match file_name_of(file_name) {
        Some(clean) => clean,
        None => {
            return Err(Refusal::NotAllowed);
        },
    };
    let has_extension = extension_of(clean.as_str()).is_some();
    let extension_allowed = is_allowed_file(clean.as_str(), allowed_extensions);
    if !extension_allowed && !(allow_missing_extension && !has_extension) {
        return Err(Refusal::NotAllowed);
    }
    match secure_filename(clean.as_str()) {
        Some(safe) => Ok(safe),
        None => Err(Refusal::NotAllowed),
    }
}

/// The name of the file of a raw upload: the one in the query, else the one in the header
/// `X-Upload-Filename` without the white space around it; refused where neither is there.
pub fn raw_upload_name(query_name: Option<&str>, header_name: Option<&str>) -> (name: Result<
    String,
    Refusal,
>)
    ensures
        ({
            let header = filled(
                match header_name {
                    Some(v) => Some(v@),
                    None => None,
                },
            );
            match name {
                Ok(n) => if query_name is Some && query_name->0@.len() > 0 {
                    n@ == query_name->0@
                } else {
                    header == Some(n@)
                },
                Err(e) => e == Refusal::MissingFileName && !(query_name is Some
                    && query_name->0@.len() > 0) && header is None,
            }
        }),
{
    match query_name {
        Some(name) => {
            if name.unicode_len() > 0 {
                return Ok(String::from_str(name));
            }
        },
        None => {},
    }
    match fill(header_name) {
        Some(name) => Ok(name),
        None => Err(Refusal::MissingFileName),
    }
}

/// Lets a file be written only below the root.
pub fn check_destination(destination: &str, root: &str) -> (ok: Result<(), Refusal>)
    ensures
        match ok {
            Ok(_) => crate::paths::path_starts_with(destination@, root@),
            Err(e) => e == Refusal::InvalidDirectory && !crate::paths::path_starts_with(
                destination@,
                root@,
            ),
        },
{
    if crate::paths::path_begins_with(destination, root) {
        Ok(())
    } else {
        Err(Refusal::InvalidDirectory)
    }
}

/// The file that an upload has stored, or a refusal where the form held none.
pub fn require_file(stored: Option<String>) -> (file: Result<String, Refusal>)
    ensures
        match file {
            Ok(f) => stored == Some(f),
            Err(e) => e == Refusal::NoFile && stored is None,
        },
{
    match stored {
        Some(file) => Ok(file),
        None => Err(Refusal::NoFile),
    }
}

/// Counts a chunk of an upload: the bytes taken so far, or a refusal once they are more
/// than the server takes.
pub fn count_chunk(total_bytes: u64, chunk_len: usize, max_file_size: u64) -> (total: Result<
    u64,
    Refusal,
>)
    ensures
        match total {
            Ok(n) => n == total_bytes + chunk_len && n <= max_file_size,
            Err(e) => e == Refusal::TooLarge && total_bytes + chunk_len > max_file_size,
        },
{
    match total_bytes.checked_add(chunk_len as u64) {
        Some(n) => {
            if n > max_file_size {
                Err(Refusal::TooLarge)
            } else {
                Ok(n)
            }
        },
        None => Err(Refusal::TooLarge),
    }
}

/// Whether the failure of a multipart body tells that the client went away.
pub fn is_upload_cancelled(message: &str) -> (cancelled: bool)
    ensures
        cancelled == (has_text(message@, "connection closed"@) || has_text(
            message@,
            "Incomplete"@,
        ) || has_text(message@, "multipart/form-data"@)),
{
    let v = chars_of(message);
    contains_text(&v, &chars_of("connection closed")) || contains_text(
        &v,
        &chars_of("Incomplete"),
    ) || contains_text(&v, &chars_of("multipart/form-data"))
}

/// The links that the answer to an upload carries: to the file and to its directory.
pub fn upload_links(base_url: &str, file_id: &str, dir_id: &str) -> (links: (String, String))
    ensures
        links.0@ == without_trailing(base_url@, '/') + "/download?id="@ + file_id@,
        links.1@ == without_trailing(base_url@, '/') + "/list?id="@ + dir_id@,
{
    let base = trim_end_char(base_url, '/');
    (
        join3(base.as_str(), "/download?id=", file_id),
        join3(base.as_str(), "/list?id=", dir_id),
    )
}

/// What an id asks for.
#[derive(Clone, Debug, PartialEq, Eq)]
pub enum IdRequest {
    /// The root directory.
    Root,
    /// The entry with this id, which is to be looked up.
    Entry(String),
}

/// Reads an id: a blank one is refused, and `root` in any case of letters is the root.
pub fn id_request(raw_id: &str) -> (request: Result<IdRequest, Refusal>)
    ensures
        match request {
            Ok(IdRequest::Root) => trimmed(raw_id@).len() > 0 && lowered(trimmed(raw_id@))
                == lowered("root"@),
            Ok(IdRequest::Entry(id)) => id@ == trimmed(raw_id@) && id@.len() > 0 && lowered(id@)
                != lowered("root"@),
            Err(e) => e == Refusal::MissingId && trimmed(raw_id@).len() == 0,
        },
{
    let id = trim(raw_id);
    if id.as_str().unicode_len() == 0 {
        Err(Refusal::MissingId)
    } else if eq_ignore_ascii_case(id.as_str(), "root") {
        Ok(IdRequest::Root)
    } else {
        Ok(IdRequest::Entry(id))
    }
}

/// The entry that stands for the root.
pub fn root_entry() -> (entry: CatalogEntry)
    ensures
        entry.relative_path@.len() == 0,
        entry.is_dir,
{
    CatalogEntry { relative_path: String::new(), is_dir: true }
}

/// Lets a download by id through only for a file.
pub fn check_downloadable(entry: &CatalogEntry) -> (ok: Result<(), Refusal>)
    ensures
        match ok {
            Ok(_) => !entry.is_dir,
            Err(e) => e == Refusal::IsADirectory && entry.is_dir,
        },
{
    if entry.is_dir {
        Err(Refusal::IsADirectory)
    } else {
        Ok(())
    }
}

/// Where a listing by id is sent on when the id names a file: to its download, in the
/// browser if that was asked for.
pub fn download_redirect(id: &str, view: bool) -> (location: String)
    ensures
        location@ == if view {
            "/download?id="@ + id@ + "&view=true"@
        } else {
            "/download?id="@ + id@
        },
{
    if view {
        join3("/download?id=", id, "&view=true")
    } else {
        crate::text::join2("/download?id=", id)
    }
}

/// The host that a request names, or `localhost`.
pub fn host_header(host: Option<&str>) -> (name: String)
    ensures
        name@ == match host {
            Some(h) => h@,
            None => "localhost"@,
        },
{
    match host {
        Some(h) => String::from_str(h),
        None => String::from_str("localhost"),
    }
}

/// The base of the URLs that the server hands out: the scheme that was forwarded, or
/// `http`, and the host of the request.
pub fn build_base_url(forwarded_proto: Option<&str>, host: Option<&str>) -> (base: String)
    ensures
        base@ == (match forwarded_proto {
            Some(p) => p@,
            None => "http"@,
        }) + "://"@ + (match host {
            Some(h) => h@,
            None => "localhost"@,
        }) + "/"@,
{
    let scheme = match forwarded_proto {
        Some(p) => p,
        None => "http",
    };
    let mut base = join3(scheme, "://", host_header(host).as_str());
    base.append("/");
    base
}

/// What a header that lists addresses names first: the text before its first comma,
/// without the white space around it, if anything is left of it.
pub open spec fn first_address(value: Option<Seq<char>>) -> Option<Seq<char>> {
    match value {
        Some(raw) => {
            let comma = crate::text::first_position(raw, ',');
            let first = if comma < 0 {
                raw
            } else {
                raw.take(comma)
            };
            filled(Some(first))
        },
        None => None,
    }
}

fn first_of(value: Option<&str>) -> (address: Option<String>)
    ensures
        match address {
            Some(a) => first_address(
                match value {
                    Some(v) => Some(v@),
                    None => None,
                },
            ) == Some(a@),
            None => first_address(
                match value {
                    Some(v) => Some(v@),
                    None => None,
                },
            ) is None,
        },
{
    match value {
        Some(raw) => {
            let v = chars_of(raw);
            let first = match crate::text::first_index_of(&v, ',') {
                Some(comma) => {
                    assert(v@.subrange(0, comma as int) =~= v@.take(comma as int));
                    crate::text::string_of_range(&v, 0, comma)
                },
                None => String::from_str(raw),
            };
            fill(Some(first.as_str()))
        },
        None => None,
    }
}

/// The address of the client as the proxies in front of the server report it: the first
/// address in `X-Forwarded-For`, else in `CF-Connecting-IP`, else in `X-Real-IP`; `unknown`
/// where none of them names one.
pub fn client_ip(
    forwarded_for: Option<&str>,
    cf_connecting_ip: Option<&str>,
    real_ip: Option<&str>,
) -> (address: String)
    ensures
        ({
            let a = first_address(
                match forwarded_for {
                    Some(v) => Some(v@),
                    None => None,
                },
            );
            let b = first_address(
                match cf_connecting_ip {
                    Some(v) => Some(v@),
                    None => None,
                },
            );
            let c = first_address(
                match real_ip {
                    Some(v) => Some(v@),
                    None => None,
                },
            );
            address@ == if a is Some {
                a->0
            } else if b is Some {
                b->0
            } else if c is Some {
                c->0
            } else {
                "unknown"@
            }
        }),
{
    match first_of(forwarded_for) {
        Some(address) => address,
        None => match first_of(cf_connecting_ip) {
            Some(address) => address,
            None => match first_of(real_ip) {
                Some(address) => address,
                None => String::from_str("unknown"),
            },
        },
    }
}

/// The user agent of the client, or `unknown`.
pub fn client_user_agent(user_agent: Option<&str>) -> (agent: String)
    ensures
        agent@ == match user_agent {
            Some(ua) => ua@,
            None => "unknown"@,
        },
{
    match user_agent {
        Some(ua) => String::from_str(ua),
        None => String::from_str("unknown"),
    }
}

/// Whether a request comes from the command-line client, which is answered in JSON: its
/// header `X-Serve-Client` says `serve-cli`, in any case of letters.
pub fn is_cli_client(client_header: Option<&str>) -> (cli: bool)
    ensures
        cli == (client_header is Some && lowered(client_header->0@) == lowered("serve-cli"@)),
{
    match client_header {
        Some(value) => eq_ignore_ascii_case(value, "serve-cli"),
        None => false,
    }
}

} // verus!
