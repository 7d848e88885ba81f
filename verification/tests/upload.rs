use serve_cli::http::UrlError;
use serve_cli::upload::{
    check_response, check_status, mode_for, upload_endpoint, upload_file_name, upload_headers,
    upload_method, upload_query, upload_report, upload_url, Method, RequestHeader, UploadError,
    UploadJob, UploadMode, UploadResponse, CLIENT_HEADER_VALUE,
};

fn job(mode: UploadMode) -> UploadJob {
    UploadJob {
        source: "/home/me/fox.txt".to_string(),
        file_name: "fox.txt".to_string(),
        parent_id: "root".to_string(),
        allow_no_ext: false,
        bypass_ext: false,
        mode,
        token: "secret".to_string(),
    }
}

fn header(name: &str, value: &str) -> RequestHeader {
    RequestHeader { name: name.to_string(), value: value.to_string() }
}

fn response(status: &str) -> UploadResponse {
    UploadResponse {
        status: status.to_string(),
        id: "01ABC".to_string(),
        dir_id: "root".to_string(),
        name: "fox.txt".to_string(),
        size_bytes: 11,
        mime_type: "text/plain".to_string(),
        created_date: "2024-01-01 00:00:00".to_string(),
        download_url: "http://h/download?id=01ABC".to_string(),
        list_url: "http://h/list?id=root".to_string(),
        powered_by: String::new(),
    }
}

#[test]
fn upload_success_multipart() {
    let job = job(mode_for(false));
    assert_eq!(job.mode, UploadMode::Multipart);
    assert_eq!(upload_method(job.mode), Method::Post);
    assert_eq!(upload_url("http://example.com", &job), Ok("http://example.com/upload?dir=root".to_string()));
    assert_eq!(
        upload_headers(&job),
        vec![header("X-Serve-Client", "serve-cli"), header("X-Serve-Token", "secret")]
    );
    assert_eq!(check_status(200, ""), Ok(()));
    let answer = response("success");
    assert_eq!(check_response(&answer), Ok(()));
    let lines = upload_report(&answer);
    assert!(lines.contains(&"Uploaded: fox.txt".to_string()));
    assert!(lines.contains(&"Size: 11 bytes".to_string()));
    assert_eq!(
        lines,
        vec![
            "Uploaded: fox.txt",
            "Size: 11 bytes",
            "File ID: 01ABC",
            "Parent ID: root",
            "MIME: text/plain",
            "Download: http://h/download?id=01ABC",
            "List: http://h/list?id=root",
            "Created: 2024-01-01 00:00:00",
        ]
    );
}

#[test]
fn raw_upload() {
    let mut job = job(mode_for(true));
    job.allow_no_ext = true;
    job.bypass_ext = true;
    assert_eq!(job.mode, UploadMode::RawPut);
    assert_eq!(upload_method(job.mode), Method::Put);
    assert_eq!(upload_endpoint(job.mode), "/upload-stream");
    assert_eq!(
        upload_url("example.com:8080/", &job).is_ok(),
        true
    );
    assert_eq!(
        upload_url("http://example.com", &job),
        Ok("http://example.com/upload-stream?name=fox.txt&dir=root&allow_no_ext=true".to_string())
    );
    assert_eq!(
        upload_headers(&job),
        vec![
            header("X-Serve-Client", CLIENT_HEADER_VALUE),
            header("X-Serve-Token", "secret"),
            header("Content-Type", "application/octet-stream"),
            header("X-Upload-Filename", "fox.txt"),
            header("X-Allow-No-Ext", "true"),
            header("X-Allow-All-Ext", "true"),
        ]
    );
}

#[test]
fn query_of_an_upload() {
    let mut multipart = job(UploadMode::Multipart);
    assert_eq!(upload_query(&multipart), vec![("dir".to_string(), "root".to_string())]);
    multipart.allow_no_ext = true;
    assert_eq!(
        upload_query(&multipart),
        vec![
            ("dir".to_string(), "root".to_string()),
            ("allow_no_ext".to_string(), "true".to_string()),
        ]
    );
    let mut raw = job(UploadMode::RawPut);
    raw.file_name = "a b.txt".to_string();
    assert_eq!(
        upload_url("http://example.com", &raw),
        Ok("http://example.com/upload-stream?name=a+b.txt&dir=root".to_string())
    );
}

#[test]
fn upload_to_no_url_fails() {
    assert_eq!(upload_url("", &job(UploadMode::Multipart)), Err(UrlError::Invalid));
}

#[test]
fn name_of_the_uploaded_file() {
    assert_eq!(upload_file_name(Some("fox.txt")), "fox.txt");
    assert_eq!(upload_file_name(None), "upload.bin");
}

#[test]
fn a_refusal_carries_what_the_server_said() {
    let error = check_status(401, "  Unauthorized\n").unwrap_err();
    assert_eq!(error, UploadError::Rejected { status: 401, body: "  Unauthorized\n".to_string() });
    assert_eq!(error.message(), "server returned error for upload: status 401: Unauthorized");
    let error = check_status(500, " \n").unwrap_err();
    assert_eq!(error.message(), "server returned error for upload: status 500");
    assert!(check_status(299, "").is_ok());
    assert!(check_status(199, "").is_err());
    assert!(check_status(300, "").is_err());
}

#[test]
fn an_answer_that_is_no_success_fails() {
    let error = check_response(&response("error")).unwrap_err();
    assert_eq!(error, UploadError::Failed { status: "error".to_string() });
    assert_eq!(error.message(), "upload failed: error");
    assert!(check_response(&response("Success")).is_err());
    assert_eq!(
        UploadError::FileNotFound { path: "nope.bin".to_string() }.message(),
        "file not found: nope.bin"
    );
}

#[test]
fn report_names_the_server() {
    let mut answer = response("success");
    answer.powered_by = "serve/1.0".to_string();
    let lines = upload_report(&answer);
    assert_eq!(lines.len(), 9);
    assert_eq!(lines[8], "Server: serve/1.0");
}
