//! Uploads: the request that carries a file to the server, and the reading of its answer.

use crate::cleanup::texts;
use crate::decimal::{decimal, u64_to_decimal};
use crate::http::{build_endpoint_url, url_and_pair, url_at, with_query_pair, UrlError};
use crate::text::{trim, trimmed};
use vstd::prelude::*;

verus! {

/// The value of the header by which the client names itself.
pub const CLIENT_HEADER_VALUE: &'static str = "serve-cli";

/// How the file travels.
#[derive(Clone, Copy, Debug, PartialEq, Eq, Structural)]
pub enum UploadMode {
    /// As the one part `file` of a `multipart/form-data` form, by `POST`.
    Multipart,
    /// As the raw body of a `PUT`.
    RawPut,
}

/// One upload.
#[derive(Clone, Debug, PartialEq, Eq)]
pub struct UploadJob {
    /// The local path of the file.
    pub source: String,
    /// The name under which the file is uploaded.
    pub file_name: String,
    /// The id of the directory to upload into.
    pub parent_id: String,
    /// Whether a file without an extension is to be let through.
    pub allow_no_ext: bool,
    /// Whether any extension is to be let through.
    pub bypass_ext: bool,
    pub mode: UploadMode,
    pub token: String,
}

/// The method of an upload request.
#[derive(Clone, Copy, Debug, PartialEq, Eq, Structural)]
pub enum Method {
    Post,
    Put,
}

/// One header of a request.
#[derive(Clone, Debug, PartialEq, Eq)]
pub struct RequestHeader {
    pub name: String,
    pub value: String,
}

/// The endpoint of an upload.
pub open spec fn endpoint_of(mode: UploadMode) -> Seq<char> {
    match mode {
        UploadMode::Multipart => "/upload"@,
        UploadMode::RawPut => "/upload-stream"@,
    }
}

/// The method of an upload.
pub open spec fn method_of(mode: UploadMode) -> Method {
    match mode {
        UploadMode::Multipart => Method::Post,
        UploadMode::RawPut => Method::Put,
    }
}

/// The method of an upload.
pub fn upload_method(mode: UploadMode) -> (method: Method)
    ensures
        method == method_of(mode),
{
    match mode {
        UploadMode::Multipart => Method::Post,
        UploadMode::RawPut => Method::Put,
    }
}

/// The endpoint of an upload.
pub fn upload_endpoint(mode: UploadMode) -> (endpoint: &'static str)
    ensures
        endpoint@ == endpoint_of(mode),
{
    match mode {
        UploadMode::Multipart => "/upload",
        UploadMode::RawPut => "/upload-stream",
    }
}

/// The query of an upload, pair by pair: a raw upload names the file first; both name the
/// directory; `allow_no_ext=true` follows where it is asked for.
pub open spec fn query_of(job: UploadJob) -> Seq<(Seq<char>, Seq<char>)> {
    let name = if job.mode is RawPut {
        seq![("name"@, job.file_name@)]
    } else {
        Seq::empty()
    };
    let dir = seq![("dir"@, job.parent_id@)];
    let allow = if job.allow_no_ext {
        seq![("allow_no_ext"@, "true"@)]
    } else {
        Seq::empty()
    };
    name + dir + allow
}

/// The pairs of a query as texts.
pub open spec fn pair_texts(pairs: Seq<(String, String)>) -> Seq<(Seq<char>, Seq<char>)> {
    pairs.map_values(|p: (String, String)| (p.0@, p.1@))
}

/// The query of an upload, pair by pair.
pub fn upload_query(job: &UploadJob) -> (pairs: Vec<(String, String)>)
    ensures
        pair_texts(pairs@) == query_of(*job),
{
    let mut pairs: Vec<(String, String)> = Vec::new();
    match job.mode {
        UploadMode::RawPut => {
            pairs.push((String::from_str("name"), job.file_name.clone()));
        },
        UploadMode::Multipart => {},
    }
    pairs.push((String::from_str("dir"), job.parent_id.clone()));
    if job.allow_no_ext {
        pairs.push((String::from_str("allow_no_ext"), String::from_str("true")));
    }
    assert(pair_texts(pairs@) =~= query_of(*job));
    pairs
}

/// `url` with the pairs appended to its query, one after the other; the first failure ends
/// it.
pub open spec fn url_and_pairs(url: Seq<char>, pairs: Seq<(Seq<char>, Seq<char>)>) -> Result<
    Seq<char>,
    UrlError,
>
    decreases pairs.len(),
{
    if pairs.len() == 0 {
        Ok(url)
    } else {
        match url_and_pairs(url, pairs.drop_last()) {
            Ok(so_far) => url_and_pair(so_far, pairs.last().0, pairs.last().1),
            Err(e) => Err(e),
        }
    }
}

/// The URL of an upload to `host`: the endpoint of its mode, with its query.
pub open spec fn upload_url_of(host: Seq<char>, job: UploadJob) -> Result<Seq<char>, UrlError> {
    match url_at(host, crate::http::rooted(endpoint_of(job.mode))) {
        Ok(url) => url_and_pairs(url, query_of(job)),
        Err(e) => Err(e),
    }
}

/// The URL of an upload to `host`.
pub fn upload_url(host: &str, job: &UploadJob) -> (url: Result<String, UrlError>)
    ensures
        match url {
            Ok(text) => upload_url_of(host@, *job) == Ok::<Seq<char>, UrlError>(text@),
            Err(e) => upload_url_of(host@, *job) == Err::<Seq<char>, UrlError>(e),
        },
{
    let mut url = match build_endpoint_url(host, upload_endpoint(job.mode)) {
        Ok(url) => url,
        Err(e) => {
            return Err(e);
        },
    };
    let pairs = upload_query(job);
    let ghost start = url@;
    let mut i: usize = 0;
    assert(pair_texts(pairs@).take(0) =~= Seq::<(Seq<char>, Seq<char>)>::empty());
    while i < pairs.len()
        invariant
            i <= pairs@.len(),
            pair_texts(pairs@) == query_of(*job),
            url_at(host@, crate::http::rooted(endpoint_of(job.mode))) == Ok::<Seq<char>, UrlError>(
                start,
            ),
            url_and_pairs(start, pair_texts(pairs@).take(i as int)) == Ok::<Seq<char>, UrlError>(
                url@,
            ),
        decreases pairs@.len() - i,
    {
        let ghost next = pair_texts(pairs@).take(i as int + 1);
        proof {
            assert(next.drop_last() =~= pair_texts(pairs@).take(i as int));
            assert(next.last() == (pairs@[i as int].0@, pairs@[i as int].1@));
        }
        match with_query_pair(url.as_str(), pairs[i].0.as_str(), pairs[i].1.as_str()) {
            Ok(changed) => {
                url = changed;
            },
            Err(e) => {
                proof {
                    assert(url_and_pairs(start, next) == Err::<Seq<char>, UrlError>(e));
                    lemma_pairs_fail_for_good(start, pair_texts(pairs@), i as int + 1);
                }
                return Err(e);
            },
        }
        i += 1;
    }
    assert(pair_texts(pairs@).take(i as int) =~= pair_texts(pairs@));
    Ok(url)
}

proof fn lemma_pairs_fail_for_good(url: Seq<char>, pairs: Seq<(Seq<char>, Seq<char>)>, k: int)
    requires
        0 <= k <= pairs.len(),
        url_and_pairs(url, pairs.take(k)) is Err,
    ensures
        url_and_pairs(url, pairs) == url_and_pairs(url, pairs.take(k)),
    decreases pairs.len() - k,
{
    if k == pairs.len() {
        assert(pairs.take(k) =~= pairs);
    } else {
        assert(pairs.take(k + 1).drop_last() =~= pairs.take(k));
        lemma_pairs_fail_for_good(url, pairs, k + 1);
    }
}

/// The headers of an upload, apart from what the body brings: the client's name and the
/// token always; for a raw upload the content type and the file name; and the two
/// permissions where they are asked for.
pub open spec fn headers_of(job: UploadJob) -> Seq<(Seq<char>, Seq<char>)> {
    let base = seq![("X-Serve-Client"@, CLIENT_HEADER_VALUE@), ("X-Serve-Token"@, job.token@)];
    let raw = if job.mode is RawPut {
        seq![
            ("Content-Type"@, "application/octet-stream"@),
            ("X-Upload-Filename"@, job.file_name@),
        ]
    } else {
        Seq::empty()
    };
    let allow = if job.allow_no_ext {
        seq![("X-Allow-No-Ext"@, "true"@)]
    } else {
        Seq::empty()
    };
    let bypass = if job.bypass_ext {
        seq![("X-Allow-All-Ext"@, "true"@)]
    } else {
        Seq::empty()
    };
    base + raw + allow + bypass
}

/// The headers of a request as texts.
pub open spec fn header_texts(headers: Seq<RequestHeader>) -> Seq<(Seq<char>, Seq<char>)> {
    headers.map_values(|h: RequestHeader| (h.name@, h.value@))
}

fn header(name: &str, value: &str) -> (h: RequestHeader)
    ensures
        h.name@ == name@,
        h.value@ == value@,
{
    RequestHeader { name: String::from_str(name), value: String::from_str(value) }
}

/// The headers of an upload.
pub fn upload_headers(job: &UploadJob) -> (headers: Vec<RequestHeader>)
    ensures
        header_texts(headers@) == headers_of(*job),
{
    let mut headers: Vec<RequestHeader> = Vec::new();
    headers.push(header("X-Serve-Client", CLIENT_HEADER_VALUE));
    headers.push(header("X-Serve-Token", job.token.as_str()));
    match job.mode {
        UploadMode::RawPut => {
            headers.push(header("Content-Type", "application/octet-stream"));
            headers.push(header("X-Upload-Filename", job.file_name.as_str()));
        },
        UploadMode::Multipart => {},
    }
    if job.allow_no_ext {
        headers.push(header("X-Allow-No-Ext", "true"));
    }
    if job.bypass_ext {
        headers.push(header("X-Allow-All-Ext", "true"));
    }
    assert(header_texts(headers@) =~= headers_of(*job));
    headers
}

/// The mode that the flag `--stream` chooses.
pub fn mode_for(stream: bool) -> (mode: UploadMode)
    ensures
        mode == if stream {
            UploadMode::RawPut
        } else {
            UploadMode::Multipart
        },
{
    if stream {
        UploadMode::RawPut
    } else {
        UploadMode::Multipart
    }
}

/// The name under which a file is uploaded: the final component of its path, or
/// `upload.bin` where the path has none.
pub fn upload_file_name(final_component: Option<&str>) -> (name: String)
    ensures
        name@ == match final_component {
            Some(n) => n@,
            None => "upload.bin"@,
        },
{
    match final_component {
        Some(name) => String::from_str(name),
        None => String::from_str("upload.bin"),
    }
}

/// The server's answer to an upload.
#[derive(Clone, Debug, PartialEq, Eq)]
pub struct UploadResponse {
    pub status: String,
    pub id: String,
    pub dir_id: String,
    pub name: String,
    pub size_bytes: u64,
    pub mime_type: String,
    pub created_date: String,
    pub download_url: String,
    pub list_url: String,
    pub powered_by: String,
}

/// Why an upload failed for reasons of its own.
#[derive(Clone, Debug, PartialEq, Eq)]
pub enum UploadError {
    /// The file to upload is not there.
    FileNotFound { path: String },
    /// The server answered with a status that is no success; `body` is what it said.
    Rejected { status: u16, body: String },
    /// The server answered a success whose own status is not `success`.
    Failed { status: String },
}

/// The message of an error. What a server said with a refusal is shown without the white
/// space around it.
pub open spec fn upload_error_text(error: UploadError) -> Seq<char> {
    match error {
        UploadError::FileNotFound { path } => "file not found: "@ + path@,
        UploadError::Rejected { status, body } => if trimmed(body@).len() == 0 {
            "server returned error for upload: status "@ + decimal(status as nat)
        } else {
            "server returned error for upload: status "@ + decimal(status as nat) + ": "@
                + trimmed(body@)
        },
        UploadError::Failed { status } => "upload failed: "@ + status@,
    }
}

impl UploadError {
    /// The message of the error.
    pub fn message(&self) -> (text: String)
        ensures
            text@ == upload_error_text(*self),
    {
        match self {
            UploadError::FileNotFound { path } => {
                let mut text = String::from_str("file not found: ");
                text.append(path.as_str());
                text
            },
            UploadError::Rejected { status, body } => {
                let mut text = String::from_str("server returned error for upload: status ");
                text.append(u64_to_decimal(*status as u64).as_str());
                let said = trim(body.as_str());
                if said.as_str().unicode_len() > 0 {
                    text.append(": ");
                    text.append(said.as_str());
                }
                text
            },
            UploadError::Failed { status } => {
                let mut text = String::from_str("upload failed: ");
                text.append(status.as_str());
                text
            },
        }
    }
}

/// Reads the status line of a response: a `2xx` goes on to the body, anything else is a
/// refusal that carries what the server said.
pub fn check_status(status: u16, body: &str) -> (ok: Result<(), UploadError>)
    ensures
        match ok {
            Ok(_) => 200 <= status <= 299,
            Err(e) => !(200 <= status <= 299) && (e matches UploadError::Rejected {
                status: s,
                body: b,
            } && s == status && b@ == body@),
        },
{
    if 200 <= status && status <= 299 {
        Ok(())
    } else {
        Err(UploadError::Rejected { status, body: String::from_str(body) })
    }
}

/// Checks the answer of the server: its status must be `success`.
pub fn check_response(response: &UploadResponse) -> (ok: Result<(), UploadError>)
    ensures
        match ok {
            Ok(_) => response.status@ == "success"@,
            Err(e) => response.status@ != "success"@ && (e matches UploadError::Failed {
                status,
            } && status@ == response.status@),
        },
{
    if crate::text::same_text(response.status.as_str(), "success") {
        Ok(())
    } else {
        Err(UploadError::Failed { status: response.status.clone() })
    }
}

/// The lines that report an upload; the server's name closes them where it gave one.
pub open spec fn report_of(response: UploadResponse) -> Seq<Seq<char>> {
    let lines = seq![
        "Uploaded: "@ + response.name@,
        "Size: "@ + decimal(response.size_bytes as nat) + " bytes"@,
        "File ID: "@ + response.id@,
        "Parent ID: "@ + response.dir_id@,
        "MIME: "@ + response.mime_type@,
        "Download: "@ + response.download_url@,
        "List: "@ + response.list_url@,
        "Created: "@ + response.created_date@,
    ];
    if response.powered_by@.len() > 0 {
        lines.push("Server: "@ + response.powered_by@)
    } else {
        lines
    }
}

/// The lines that report an upload.
pub fn upload_report(response: &UploadResponse) -> (lines: Vec<String>)
    ensures
        texts(lines@) == report_of(*response),
{
    let mut lines: Vec<String> = Vec::new();
    lines.push(crate::text::join2("Uploaded: ", response.name.as_str()));
    lines.push(
        crate::text::join3("Size: ", u64_to_decimal(response.size_bytes).as_str(), " bytes"),
    );
    lines.push(crate::text::join2("File ID: ", response.id.as_str()));
    lines.push(crate::text::join2("Parent ID: ", response.dir_id.as_str()));
    lines.push(crate::text::join2("MIME: ", response.mime_type.as_str()));
    lines.push(crate::text::join2("Download: ", response.download_url.as_str()));
    lines.push(crate::text::join2("List: ", response.list_url.as_str()));
    lines.push(crate::text::join2("Created: ", response.created_date.as_str()));
    if response.powered_by.as_str().unicode_len() > 0 {
        lines.push(crate::text::join2("Server: ", response.powered_by.as_str()));
    }
    assert(texts(lines@) =~= report_of(*response));
    lines
}

} // verus!
