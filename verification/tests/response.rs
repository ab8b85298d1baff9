use music_blog::error::Error;
use music_blog::response::{
    binary_header, failure_status_line, html_message, status_line, Response, ResponseBody,
};

#[test]
fn constructors() {
    let r = Response::html(200, "<p>hi</p>".to_string());
    assert_eq!(r.status, 200);
    assert!(matches!(r.body, ResponseBody::Html(ref h) if h == "<p>hi</p>"));
    let r = Response::not_found_with_html("x".to_string());
    assert_eq!(r.status, 404);
    let r = Response::binary(200, vec![1, 2], "image/png");
    assert!(matches!(r.body, ResponseBody::Binary(ref d, "image/png") if d == &vec![1u8, 2]));
}

#[test]
fn redirect_page() {
    let r = Response::redirect("/?upload_success=true");
    assert_eq!(r.status, 303);
    match r.body {
        ResponseBody::Html(h) => assert_eq!(
            h,
            "<html><head><meta http-equiv=\"refresh\" content=\"0; url=/?upload_success=true\"></head><body>Redirecting to <a href=\"/?upload_success=true\">/?upload_success=true</a></body></html>"
        ),
        _ => panic!("expected html"),
    }
}

#[test]
fn message_texts() {
    assert_eq!(status_line(200), "HTTP/1.1 200");
    assert_eq!(status_line(0), "HTTP/1.1 0");
    assert_eq!(failure_status_line(400), "HTTP/1.1 400 Bad Request");
    assert_eq!(
        html_message("HTTP/1.1 200", "héllo"),
        "HTTP/1.1 200\r\nContent-Type: text/html; charset=utf-8\r\nContent-Length: 6\r\n\r\nhéllo"
    );
    assert_eq!(
        binary_header("HTTP/1.1 200", "image/png", 1234),
        "HTTP/1.1 200\r\nContent-Type: image/png\r\nContent-Length: 1234\r\n\r\n"
    );
}

#[test]
fn status_codes_and_messages() {
    let io = Error::Io(std::io::Error::new(std::io::ErrorKind::Other, "boom"));
    assert_eq!(io.status_code(), 500);
    assert_eq!(io.message(), "IO error: boom");
    assert_eq!(Error::EmptyRequest.status_code(), 400);
    assert_eq!(Error::EmptyRequest.message(), "Empty request");
    assert_eq!(Error::InvalidRequestLine.message(), "Invalid request line");
    assert_eq!(Error::BadRequest("x".into()).status_code(), 400);
    assert_eq!(Error::BadRequest("x".into()).message(), "Bad request: x");
    assert_eq!(Error::NotFound("y".into()).status_code(), 404);
    assert_eq!(Error::NotFound("y".into()).message(), "Not found: y");
    assert_eq!(Error::InternalServerError("z".into()).status_code(), 500);
    assert_eq!(Error::InternalServerError("z".into()).message(), "Internal server error: z");
    assert_eq!(Error::ValidationError("v".into()).status_code(), 400);
    assert_eq!(Error::ValidationError("v".into()).message(), "Slug validation error: v");
    assert_eq!(Error::MultipartError("m".into()).status_code(), 400);
    assert_eq!(Error::MultipartError("m".into()).message(), "Multipart parsing error: m");
    let utf8 = std::str::from_utf8(b"\xff").unwrap_err();
    assert_eq!(Error::Utf8(utf8).status_code(), 400);
    assert!(Error::Utf8(utf8).message().starts_with("UTF-8 decoding error: "));
}

#[test]
fn content_length_reads_back() {
    for n in [0usize, 7, 10, 1234, usize::MAX] {
        let head = binary_header("HTTP/1.1 200", "text/plain", n);
        let request_head = head.replacen("HTTP/1.1 200", "GET / HTTP/1.1", 1);
        let (_, length) = music_blog::request::HttpRequest::parse_head(&request_head).unwrap();
        assert_eq!(length, n);
    }
}
