use music_blog::domain::{AppState, Post};
use music_blog::error::Error;
use music_blog::form::FormMap;
use music_blog::request::HttpRequest;
use music_blog::response::ResponseBody;
use music_blog::route::{
    content_type_for_extension, extract_text_field, file_handler, get_content_type,
    home_page_handler, not_found_handler, post_page_handler, route, static_file_name,
    static_response, upload_form_handler, upload_multipart_handler, upload_post_handler,
    upload_urlencoded_handler, validate_image, validate_image_with_extension, Route,
};
use music_blog::multi_exp::FormField;

fn get(path: &str) -> HttpRequest {
    req("GET", path, None, vec![])
}

fn req(method: &str, path: &str, content_type: Option<&str>, body: Vec<u8>) -> HttpRequest {
    HttpRequest {
        method: method.to_string(),
        path: path.to_string(),
        headers: Vec::new(),
        body,
        query_params: FormMap::new(),
        content_type: content_type.map(|s| s.to_string()),
    }
}

fn bad_request(r: Result<(), Error>) -> String {
    match r {
        Err(Error::BadRequest(m)) => m,
        _ => panic!("expected a bad request"),
    }
}

fn png_bytes() -> Vec<u8> {
    vec![137, 80, 78, 71, 13, 10, 26, 10, 9]
}

#[test]
fn routes() {
    assert!(matches!(route(&get("/")), Route::Home));
    assert!(matches!(route(&req("POST", "/", None, vec![])), Route::Upload));
    assert!(matches!(route(&get("/static/site.css")), Route::Static));
    assert!(matches!(route(&get("/post/abc")), Route::Post(s) if s == "abc"));
    assert!(matches!(route(&get("/posts/abc")), Route::Post(s) if s == "abc"));
    assert!(matches!(route(&get("/posts/")), Route::NotFound));
    assert!(matches!(route(&get("/upload")), Route::UploadForm));
    assert!(matches!(route(&req("POST", "/upload", None, vec![])), Route::NotFound));
    assert!(matches!(route(&get("/post/")), Route::NotFound));
    assert!(matches!(route(&get("/file/abc")), Route::File));
    assert!(matches!(route(&get("/file/")), Route::NotFound));
    assert!(matches!(route(&get("/elsewhere")), Route::NotFound));
    assert!(matches!(route(&req("POST", "/post/abc", None, vec![])), Route::NotFound));
    assert!(matches!(route(&req("DELETE", "/", None, vec![])), Route::NotFound));
}

#[test]
fn content_types() {
    assert_eq!(get_content_type("app.js"), "application/javascript");
    assert_eq!(get_content_type("site.css"), "text/css");
    assert_eq!(get_content_type("a.png"), "image/png");
    assert_eq!(get_content_type("a.b.JPG"), "application/octet-stream");
    assert_eq!(get_content_type("a.jpeg"), "image/jpeg");
    assert_eq!(get_content_type("dir/x.gif"), "image/gif");
    assert_eq!(get_content_type("index.html"), "text/html");
    assert_eq!(get_content_type("notes.txt"), "text/plain");
    assert_eq!(get_content_type(".txt"), "application/octet-stream");
    assert_eq!(get_content_type("README"), "application/octet-stream");
    assert_eq!(get_content_type("archive.tar.css"), "text/css");
    assert_eq!(get_content_type("css/site.css"), "text/css");
    assert_eq!(get_content_type("/img/photo.jpg"), "image/jpeg");
    assert_eq!(get_content_type("js/"), "application/octet-stream");
    assert_eq!(get_content_type("trailing."), "application/octet-stream");
    assert_eq!(content_type_for_extension(Some("jpg")), "image/jpeg");
    assert_eq!(content_type_for_extension(None), "application/octet-stream");
}

#[test]
fn images_by_extension() {
    assert!(validate_image_with_extension(&png_bytes(), "png").is_ok());
    assert_eq!(bad_request(validate_image_with_extension(&png_bytes(), "PNG")), "Incorrect file extension: PNG. Try: jpg, jpeg, png");
    assert_eq!(bad_request(validate_image_with_extension(&png_bytes(), "jpg")), "Incorrect JPEG signature");
    assert!(validate_image_with_extension(&[255, 216, 1, 2, 3, 4, 5, 6], "jpeg").is_ok());
}

#[test]
fn images() {
    assert!(validate_image(&png_bytes(), "cat.png").is_ok());
    assert!(validate_image(&png_bytes(), "cat.PNG").is_ok());
    assert!(validate_image(&[255, 216, 0, 0, 0, 0, 0, 0], "cat.jpeg").is_ok());
    assert!(validate_image(&[255, 216, 0, 0, 0, 0, 0, 0], "x.y.Jpg").is_ok());
    assert_eq!(bad_request(validate_image(&png_bytes(), "cat.gif")), "Incorrect file extension: gif. Try: jpg, jpeg, png");
    assert_eq!(bad_request(validate_image(&png_bytes(), "cat")), "Incorrect file extension: cat. Try: jpg, jpeg, png");
    assert_eq!(bad_request(validate_image(&[137, 80], "cat.png")), "File too short to validate");
    assert_eq!(bad_request(validate_image(&[0; 8], "cat.png")), "Incorrect PNG signature");
    assert_eq!(bad_request(validate_image(&[0; 8], "cat.jpg")), "Incorrect JPEG signature");
    let big = vec![0u8; 10 * 1024 * 1024 + 1];
    assert_eq!(bad_request(validate_image(&big, "cat.png")), "Max file size: 10 mb");
}

#[test]
fn text_fields() {
    let mut fields = FormMap::new();
    fields.insert("title".to_string(), FormField::Text("Hi".to_string()));
    fields.insert(
        "image".to_string(),
        FormField::File { filename: "a".into(), content_type: "b".into(), data: vec![] },
    );
    assert_eq!(extract_text_field(&fields, "title").unwrap(), "Hi");
    match extract_text_field(&fields, "image") {
        Err(Error::BadRequest(m)) => assert_eq!(m, "Field 'image' should be text, not file"),
        _ => panic!(),
    }
    match extract_text_field(&fields, "text") {
        Err(Error::BadRequest(m)) => assert_eq!(m, "Missing required field: text"),
        _ => panic!(),
    }
}

fn form_body(title: &str) -> Vec<u8> {
    let mut b = Vec::new();
    b.extend_from_slice(format!("--XYZ\r\nContent-Disposition: form-data; name=\"title\"\r\n\r\n{}\r\n", title).as_bytes());
    b.extend_from_slice(b"--XYZ\r\nContent-Disposition: form-data; name=\"text\"\r\n\r\nBody text\r\n");
    b.extend_from_slice(b"--XYZ\r\nContent-Disposition: form-data; name=\"image\"; filename=\"pic.png\"\r\nContent-Type: image/png\r\n\r\n");
    b.extend_from_slice(&png_bytes());
    b.extend_from_slice(b"\r\n--XYZ--\r\n");
    b
}

#[test]
fn multipart_upload_then_file_and_page() {
    let mut state = AppState::new();
    let upload = req("POST", "/", Some("multipart/form-data; boundary=XYZ"), form_body("My First Post"));
    let r = upload_post_handler(&upload, &mut state).unwrap();
    assert_eq!(r.status, 303);
    assert_eq!(state.posts.len(), 1);
    let p = &state.posts[0];
    assert_eq!(p.id, 1);
    assert_eq!(p.slug, "my-first-post");
    assert_eq!(p.title, "My First Post");
    assert_eq!(p.text, "Body text");
    assert_eq!(p.filename.as_deref(), Some("pic.png"));
    let served = file_handler(&get("/file/my-first-post"), &state).unwrap();
    assert_eq!(served.status, 200);
    assert!(matches!(served.body, ResponseBody::Binary(ref d, "image/png") if d == &png_bytes()));
    let page = post_page_handler(&get("/post/my-first-post"), "my-first-post", &state).unwrap();
    assert_eq!(page.post.id, 1);
    assert_eq!(page.current_page, "/post/my-first-post");
    assert!(page.nav_items[0].is_current);
    let direct = upload_multipart_handler(&upload, &mut state).unwrap();
    assert_eq!(direct.status, 303);
    assert_eq!(state.posts.len(), 2);
    assert_eq!(state.posts[1].id, 2);
}

#[test]
fn urlencoded_upload_and_redirect_home() {
    let mut state = AppState::new();
    let upload = req("POST", "/", Some("application/x-www-form-urlencoded"), b"title=Hello+World&text=Some+text".to_vec());
    let r = upload_urlencoded_handler(&upload, &mut state).unwrap();
    assert_eq!(r.status, 303);
    assert_eq!(state.posts[0].slug, "hello-world");
    assert_eq!(state.posts[0].text, "Some text");
    assert!(state.posts[0].filename.is_none());
    let (home_req, _) = HttpRequest::parse_head("GET /?upload_success=true HTTP/1.1\r\n\r\n").unwrap();
    assert!(matches!(route(&home_req), Route::Home));
    let home = home_page_handler(&home_req, &state);
    assert!(home.show_upload_success);
    assert_eq!(home.posts_count, 1);
    assert_eq!(home.current_page, "/");
    assert_eq!(home.nav_items[0].url, "/post/hello-world");
    let plain = home_page_handler(&get("/"), &state);
    assert!(!plain.show_upload_success);
}

#[test]
fn upload_failures_change_nothing() {
    let mut state = AppState::new();
    let msg = |r: Result<music_blog::response::Response, Error>| match r {
        Err(Error::BadRequest(m)) => format!("bad: {}", m),
        Err(Error::ValidationError(m)) => format!("validation: {}", m),
        Err(e) => format!("other: {}", e.message()),
        Ok(_) => "ok".to_string(),
    };
    assert_eq!(msg(upload_post_handler(&req("POST", "/", None, vec![]), &mut state)), "bad: Missing Content-Type header");
    assert_eq!(msg(upload_post_handler(&req("POST", "/", Some("text/plain"), vec![]), &mut state)), "bad: Unsupported content type: text/plain");
    let ue = |body: &[u8]| req("POST", "/", Some("application/x-www-form-urlencoded"), body.to_vec());
    assert_eq!(msg(upload_post_handler(&ue(b"title=x"), &mut state)), "bad: Text undecoded");
    assert_eq!(msg(upload_post_handler(&ue(b"text=x"), &mut state)), "bad: Title undecoded");
    assert_eq!(msg(upload_post_handler(&ue(b"\xff"), &mut state)), "bad: URL Encoding error");
    assert_eq!(msg(upload_post_handler(&ue(b"text=x&title=ab"), &mut state)), "validation: Slug length error");
    let mp = req("POST", "/", Some("multipart/form-data; boundary=XYZ"), form_body("My Post").iter().map(|b| if *b == 137 { 0 } else { *b }).collect());
    assert_eq!(msg(upload_post_handler(&mp, &mut state)), "bad: Incorrect PNG signature");
    assert!(state.posts.is_empty());
}

#[test]
fn not_found_and_file_errors() {
    let mut state = AppState::new();
    state.posts.push(Post { id: 1, slug: "abc".into(), text: "t".into(), title: "T".into(), filename: None, file_data: None });
    let page = not_found_handler(&get("/nowhere"), &state);
    assert_eq!(page.current_page, "/nowhere");
    assert_eq!(page.nav_items.len(), 1);
    let nf = |r: Result<music_blog::response::Response, Error>| match r {
        Err(Error::NotFound(m)) => m,
        _ => panic!("expected not found"),
    };
    assert_eq!(nf(file_handler(&get("/x/abc"), &state)), "Invalid file path");
    assert_eq!(nf(file_handler(&get("/file/zzz"), &state)), "Post zzz not found");
    assert_eq!(nf(file_handler(&get("/file/abc"), &state)), "No file attached");
    match post_page_handler(&get("/post/zzz"), "zzz", &state) {
        Err(Error::NotFound(m)) => assert_eq!(m, "Post zzz not found"),
        _ => panic!(),
    }
}

#[test]
fn static_names() {
    assert_eq!(static_file_name(&get("/static/site.css")).unwrap(), "site.css");
    assert_eq!(static_file_name(&get("/static/img/a.png")).unwrap(), "img/a.png");
    match static_file_name(&get("/static/../secret")) {
        Err(Error::NotFound(m)) => assert_eq!(m, "Invalid path"),
        _ => panic!(),
    }
    match static_file_name(&get("/other")) {
        Err(Error::NotFound(m)) => assert_eq!(m, "Invalid static path"),
        _ => panic!(),
    }
    match static_file_name(&get("/static//etc/passwd")) {
        Err(Error::NotFound(m)) => assert_eq!(m, "Invalid path"),
        _ => panic!(),
    }
}

#[test]
fn static_answers() {
    match static_response("site.css", Some(vec![1, 2, 3])) {
        Ok(r) => {
            assert_eq!(r.status, 200);
            match r.body {
                ResponseBody::Binary(d, t) => {
                    assert_eq!(d, vec![1, 2, 3]);
                    assert_eq!(t, "text/css");
                }
                _ => panic!(),
            }
        }
        Err(_) => panic!(),
    }
    match static_response("css/site.css", Some(vec![7])) {
        Ok(r) => match r.body {
            ResponseBody::Binary(_, t) => assert_eq!(t, "text/css"),
            _ => panic!(),
        },
        Err(_) => panic!(),
    }
    match static_response("gone.js", None) {
        Err(Error::NotFound(m)) => assert_eq!(m, "File 'gone.js' not found"),
        _ => panic!(),
    }
}

#[test]
fn upload_form_page() {
    let mut state = AppState::new();
    state.posts.push(Post { id: 1, slug: "abc".into(), text: "t".into(), title: "T".into(), filename: None, file_data: None });
    let page = upload_form_handler(&get("/upload"), &state);
    assert_eq!(page.current_page, "/upload");
    assert_eq!(page.nav_items.len(), 1);
    assert!(!page.nav_items[0].is_current);
}

#[test]
fn post_page_under_posts_path() {
    let mut state = AppState::new();
    state.posts.push(Post { id: 1, slug: "abc".into(), text: "t".into(), title: "T".into(), filename: None, file_data: None });
    let slug = match route(&get("/posts/abc")) {
        Route::Post(s) => s,
        _ => panic!(),
    };
    match post_page_handler(&get("/posts/abc"), &slug, &state) {
        Ok(t) => {
            assert_eq!(t.post.slug, "abc");
            assert_eq!(t.current_page, "/post/abc");
            assert!(t.nav_items[0].is_current);
        }
        Err(_) => panic!(),
    }
}

#[test]
fn attachment_in_a_directory_keeps_its_type() {
    let mut state = AppState::new();
    state.posts.push(Post {
        id: 1,
        slug: "abc".into(),
        text: "t".into(),
        title: "T".into(),
        filename: Some("pics/cat.png".into()),
        file_data: Some(png_bytes()),
    });
    match file_handler(&get("/file/abc"), &state) {
        Ok(r) => {
            assert_eq!(r.status, 200);
            match r.body {
                ResponseBody::Binary(d, t) => {
                    assert_eq!(d, png_bytes());
                    assert_eq!(t, "image/png");
                }
                _ => panic!(),
            }
        }
        Err(_) => panic!(),
    }
}
