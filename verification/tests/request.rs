use music_blog::error::Error;
use music_blog::request::{HttpRequest, ReadProgress, RequestReader};

fn read_all(chunks: &[&[u8]]) -> Result<HttpRequest, Error> {
    let mut reader = RequestReader::new();
    for chunk in chunks {
        match reader.feed(chunk) {
            ReadProgress::NeedMore => {}
            ReadProgress::Complete(r) => return r,
        }
    }
    match reader.feed(&[]) {
        ReadProgress::NeedMore => panic!("reader wants more after the end"),
        ReadProgress::Complete(r) => r,
    }
}

#[test]
fn reads_a_simple_get() {
    let req = read_all(&[b"GET /post/abc?x=1&y=%41%42 HTTP/1.1\r\nHost: example\r\n\r\n"]).unwrap();
    assert_eq!(req.method, "GET");
    assert_eq!(req.path, "/post/abc");
    assert_eq!(req.get_query_param("x"), Some("1"));
    assert_eq!(req.get_query_param("y"), Some("AB"));
    assert_eq!(req.get_query_param("z"), None);
    assert_eq!(req.headers, vec![("Host".to_string(), "example".to_string())]);
    assert!(req.body.is_empty());
    assert_eq!(req.content_type, None);
}

#[test]
fn reads_the_body_that_content_length_announces() {
    let req = read_all(&[
        b"POST / HTTP/1.1\r\nContent-Type: application/x-www-form-urlencoded\r\ncontent-LENGTH: 10\r\n\r\nab",
        b"cdefgh",
        b"ij",
    ])
    .unwrap();
    assert_eq!(req.method, "POST");
    assert_eq!(req.body, b"abcdefghij".to_vec());
    assert_eq!(req.content_type.as_deref(), Some("application/x-www-form-urlencoded"));
}

#[test]
fn completes_as_soon_as_the_body_is_there() {
    let mut reader = RequestReader::new();
    match reader.feed(b"POST /x HTTP/1.1\r\nContent-Length: 3\r\n\r\nabcde") {
        ReadProgress::Complete(Ok(req)) => assert_eq!(req.body, b"abcde".to_vec()),
        _ => panic!("expected a complete request"),
    }
}

#[test]
fn head_split_across_reads() {
    let req = read_all(&[b"GET / HT", b"TP/1.1\r\n\r", b"\n"]).unwrap();
    assert_eq!(req.path, "/");
}

#[test]
fn body_cut_short_keeps_what_came() {
    let req = read_all(&[b"POST / HTTP/1.1\r\nContent-Length: 100\r\n\r\nabc"]).unwrap();
    assert_eq!(req.body, b"abc".to_vec());
}

#[test]
fn bad_content_length_counts_as_zero() {
    let mut reader = RequestReader::new();
    match reader.feed(b"POST / HTTP/1.1\r\nContent-Length: ten\r\n\r\n") {
        ReadProgress::Complete(Ok(req)) => assert!(req.body.is_empty()),
        _ => panic!("expected a complete request"),
    }
}

#[test]
fn errors_of_reading() {
    match read_all(&[b"GET / HTTP/1.1\r\n"]) {
        Err(Error::BadRequest(m)) => assert_eq!(m, "No header delimiter found"),
        _ => panic!("expected a bad request"),
    }
    assert!(matches!(read_all(&[b"GET\r\n\r\n"]), Err(Error::InvalidRequestLine)));
    assert!(matches!(read_all(&[b"\r\n\r\n"]), Err(Error::InvalidRequestLine)));
    assert!(matches!(read_all(&[b"GET / \xff\r\n\r\n"]), Err(Error::Utf8(_))));
}

#[test]
fn parse_head_stops_at_the_blank_line() {
    let (req, n) = HttpRequest::parse_head("PUT  /a?b  HTTP/1.0\r\nX:  1 \r\nno colon\r\nContent-Length: +42\r\n\r\nY: 2\r\n").unwrap();
    assert_eq!(req.method, "PUT");
    assert_eq!(req.path, "/a");
    assert_eq!(req.get_query_param("b"), Some(""));
    assert_eq!(n, 42);
    assert_eq!(
        req.headers,
        vec![("X".to_string(), "1".to_string()), ("Content-Length".to_string(), "+42".to_string())]
    );
    assert!(matches!(HttpRequest::parse_head(""), Err(Error::EmptyRequest)));
}

#[test]
fn query_string_rules() {
    let m = HttpRequest::parse_query_string("a=1&&b&a=2&c=x%20y+z&%zz=%4");
    assert_eq!(m.get("a"), Some(&"2".to_string()));
    assert_eq!(m.get("b"), Some(&String::new()));
    assert_eq!(m.get("c"), Some(&"x y+z".to_string()));
    assert_eq!(m.get("%zz"), Some(&"%4".to_string()));
    assert!(HttpRequest::parse_query_string("").get("").is_none());
}

#[test]
fn urlencoded_forms() {
    let m = HttpRequest::parse_urlencoded(b"title=Hello+World&text=a%2Bb&junk&x=").unwrap();
    assert_eq!(m.get("title"), Some(&"Hello World".to_string()));
    assert_eq!(m.get("text"), Some(&"a+b".to_string()));
    assert!(m.get("junk").is_none());
    assert_eq!(m.get("x"), Some(&String::new()));
    assert!(matches!(HttpRequest::parse_urlencoded(b"a=\xff"), Err(Error::Utf8(_))));
    // Invalid UTF-8 after decoding is replaced.
    let m = HttpRequest::parse_urlencoded(b"k=%FF").unwrap();
    assert_eq!(m.get("k"), Some(&"\u{FFFD}".to_string()));
}
