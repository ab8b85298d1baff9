use music_blog::error::Error;
use music_blog::form::FormMap;
use music_blog::multi_exp::{
    add_entry, collect_entries, extract_boundary, parse_multipart, parse_multipart_with_tally,
    BoundaryError, FormField, MultipartFailure, MultipartTally, RawEntry,
};
use music_blog::request::HttpRequest;

fn png_bytes() -> Vec<u8> {
    vec![137, 80, 78, 71, 13, 10, 26, 10, 1, 2, 3]
}

fn form_body() -> Vec<u8> {
    let mut b = Vec::new();
    b.extend_from_slice(b"--XYZ\r\nContent-Disposition: form-data; name=\"title\"\r\n\r\nMy First Post\r\n");
    b.extend_from_slice(b"--XYZ\r\nContent-Disposition: form-data; name=\"text\"\r\n\r\nHello there\r\n");
    b.extend_from_slice(b"--XYZ\r\nContent-Disposition: form-data; name=\"image\"; filename=\"a.png\"\r\nContent-Type: image/png\r\n\r\n");
    b.extend_from_slice(&png_bytes());
    b.extend_from_slice(b"\r\n--XYZ--\r\n");
    b
}

fn request(content_type: Option<&str>, body: Vec<u8>) -> HttpRequest {
    HttpRequest {
        method: "POST".to_string(),
        path: "/".to_string(),
        headers: Vec::new(),
        body,
        query_params: FormMap::new(),
        content_type: content_type.map(|s| s.to_string()),
    }
}

#[test]
fn boundaries() {
    assert_eq!(extract_boundary("multipart/form-data; boundary=XYZ").unwrap(), "XYZ");
    assert_eq!(extract_boundary("multipart/form-data;boundary=\"a b\" ; x=1").unwrap(), "a b");
    assert_eq!(extract_boundary("multipart/form-data; boundary=\" \"").unwrap_err().message(), "Empty boundary");
    assert!(matches!(extract_boundary("multipart/form-data; boundary="), Err(BoundaryError::Empty)));
    assert!(matches!(extract_boundary("multipart/form-data"), Err(BoundaryError::Missing)));
    assert_eq!(BoundaryError::Missing.message(), "No boundary found");
}

#[test]
fn reads_text_and_file_fields() {
    let fields = parse_multipart(&form_body(), "XYZ").unwrap();
    assert!(matches!(fields.get("title"), Some(FormField::Text(t)) if t == "My First Post"));
    assert!(matches!(fields.get("text"), Some(FormField::Text(t)) if t == "Hello there"));
    match fields.get("image") {
        Some(FormField::File { filename, content_type, data }) => {
            assert_eq!(filename, "a.png");
            assert_eq!(content_type, "image/png");
            assert_eq!(data, &png_bytes());
        }
        _ => panic!("expected a file"),
    }
    assert!(fields.get("other").is_none());
}

#[test]
fn counts_what_it_reads() {
    let (_, tally) = parse_multipart_with_tally(&form_body(), "XYZ").unwrap();
    assert_eq!(tally.file_count, 1);
    assert_eq!(tally.text_field_count, 2);
    assert_eq!(tally.total_bytes, 13 + 11 + png_bytes().len());
    assert_eq!(tally.content_types, vec!["image/png".to_string()]);
}

fn entry(name: &str, filename: Option<&str>, content_type: Option<&str>, data: &[u8]) -> RawEntry {
    RawEntry {
        name: name.to_string(),
        filename: filename.map(|s| s.to_string()),
        content_type: content_type.map(|s| s.to_string()),
        data: data.to_vec(),
    }
}

#[test]
fn collects_given_entries() {
    let entries = vec![
        entry("title", None, None, b"Hi"),
        entry("image", Some("a.png"), None, &[1, 2, 3]),
        entry("title", None, None, b"Again"),
    ];
    let (fields, tally) = collect_entries(entries).unwrap();
    assert!(matches!(fields.get("title"), Some(FormField::Text(t)) if t == "Again"));
    assert!(matches!(fields.get("image"), Some(FormField::File { filename, content_type, data })
        if filename == "a.png" && content_type == "application/octet-stream" && data == &vec![1, 2, 3]));
    assert_eq!(tally.text_field_count, 2);
    assert_eq!(tally.file_count, 1);
    assert_eq!(tally.total_bytes, 2 + 3 + 5);
    assert_eq!(tally.content_types, vec!["application/octet-stream".to_string()]);
    match collect_entries(vec![entry("a", None, None, b"ok"), entry("t", None, None, &[0xff])]) {
        Err(MultipartFailure::Text { message }) => assert!(message.contains("utf-8")),
        _ => panic!("expected a text failure"),
    }
    assert!(collect_entries(Vec::new()).unwrap().0.get("a").is_none());
}

#[test]
fn adds_one_entry() {
    let mut fields = FormMap::new();
    let mut tally = MultipartTally { total_bytes: 0, file_count: 0, text_field_count: 0, content_types: Vec::new() };
    add_entry(&mut fields, &mut tally, entry("f", Some("x.jpg"), Some("image/jpeg"), &[9, 9])).unwrap();
    assert_eq!(tally.file_count, 1);
    assert_eq!(tally.total_bytes, 2);
    assert_eq!(tally.content_types, vec!["image/jpeg".to_string()]);
    assert!(add_entry(&mut fields, &mut tally, entry("t", None, None, &[0xc3])).is_err());
    assert_eq!(tally.text_field_count, 0);
    assert!(fields.get("t").is_none());
    assert!(fields.get("f").is_some());
}

#[test]
fn file_without_content_type_gets_octet_stream() {
    let body = b"--B\r\nContent-Disposition: form-data; name=\"f\"; filename=\"x.bin\"\r\n\r\nzz\r\n--B--\r\n";
    let fields = parse_multipart(body, "B").unwrap();
    assert!(matches!(fields.get("f"), Some(FormField::File { content_type, .. }) if content_type == "application/octet-stream"));
}

#[test]
fn text_field_must_be_utf8() {
    let body = b"--B\r\nContent-Disposition: form-data; name=\"t\"\r\n\r\n\xff\xfe\r\n--B--\r\n";
    match parse_multipart(body, "B") {
        Err(MultipartFailure::Text { message }) => assert!(message.contains("utf-8")),
        _ => panic!("expected a text failure"),
    }
}

#[test]
fn body_without_boundary_stops_at_the_first_failure() {
    match parse_multipart(b"abc", "B") {
        Err(MultipartFailure::Read { unexpected_eof, .. }) => assert!(unexpected_eof),
        _ => panic!("expected a read failure"),
    }
    let req = request(Some("multipart/form-data; boundary=B"), b"abc".to_vec());
    match req.parse_multipart() {
        Err(Error::BadRequest(m)) => {
            assert_eq!(m, "Incomplete multipart request: client closed connection prematurely")
        }
        _ => panic!("expected a bad request"),
    }
}

#[test]
fn later_field_replaces_earlier() {
    let body = b"--B\r\nContent-Disposition: form-data; name=\"t\"\r\n\r\none\r\n--B\r\nContent-Disposition: form-data; name=\"t\"\r\n\r\ntwo\r\n--B--\r\n";
    let fields = parse_multipart(body, "B").unwrap();
    assert!(matches!(fields.get("t"), Some(FormField::Text(t)) if t == "two"));
}

#[test]
fn request_form_errors() {
    let msg = |r: Result<FormMap<FormField>, Error>| match r {
        Err(Error::BadRequest(m)) => format!("bad: {}", m),
        Err(Error::MultipartError(m)) => format!("multipart: {}", m),
        _ => "other".to_string(),
    };
    assert_eq!(msg(request(None, vec![]).parse_multipart()), "bad: No Content-Type header");
    assert_eq!(
        msg(request(Some("text/plain"), vec![]).parse_multipart()),
        "bad: Expected multipart/form-data, got text/plain"
    );
    assert_eq!(
        msg(request(Some("multipart/form-data"), vec![]).parse_multipart()),
        "multipart: Boundary extraction: No boundary found"
    );
    assert_eq!(
        msg(request(Some("multipart/form-data; boundary="), vec![]).parse_multipart()),
        "multipart: Boundary extraction: Empty boundary"
    );
    let cut = b"--B\r\nContent-Disposition: form-data; name=\"t\"\r\n\r\nhello".to_vec();
    let out = msg(request(Some("multipart/form-data; boundary=B"), cut).parse_multipart());
    assert!(out.starts_with("bad: Incomplete multipart request") || out.starts_with("multipart: Parsing: "), "{}", out);
}

#[test]
fn request_form_fields() {
    let req = request(Some("multipart/form-data; boundary=XYZ"), form_body());
    let fields = req.parse_multipart().unwrap();
    assert!(matches!(fields.get("title"), Some(FormField::Text(t)) if t == "My First Post"));
}
