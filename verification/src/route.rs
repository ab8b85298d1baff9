//! The pages and actions of the blog, and which request goes to which.

use crate::domain::{
    find_slug, lemma_slug_passes_validation, nav_item_fits, post_url, slug_check, slug_of,
    slugify, validate_slug, AppState, HomeTemplate, NotFoundTemplate, Post, PostTemplate,
    UploadFormTemplate,
};
use crate::error::{bad_request, error_fits, not_found, Error, ErrorSpec};
use crate::form::FormMap;
use crate::multi_exp::{multipart_form_of, FormField, FormFieldView};
use crate::request::{urlencoded_map, HttpRequest, RequestView};
use crate::response::{redirect_page, Response, ResponseBody};
use crate::text::{
    chars_of, contains_doubled, copy_range, has_doubled, has_prefix, lowercase, push_str, same_chars, split_char, split_on,
    starts_with, string_of, to_lowercase,
};
use vstd::prelude::*;

verus! {

// ---------------------------------------------------------------------------
// Content types
// ---------------------------------------------------------------------------

/// A file name of one ordinary component on every platform: not empty, not
/// `.` or `..`, and without `/`, `\` or `:`, which some platform reads as a
/// separator or a drive.
pub open spec fn plain_name(name: Seq<char>) -> bool {
    &&& name.len() > 0
    &&& !name.contains('/')
    &&& !name.contains('\\')
    &&& !name.contains(':')
    &&& name != "."@
    &&& name != ".."@
}

/// The extension of a plain file name as `Path::extension` documents it: none
/// when the name has no `.` or only one at its start, else what follows the
/// last `.`.
pub open spec fn plain_name_extension(name: Seq<char>) -> Option<Seq<char>> {
    let pieces = split_char(name, '.');
    if pieces.len() < 2 || (pieces.len() == 2 && pieces[0].len() == 0) {
        None
    } else {
        Some(pieces.last())
    }
}

/// The last `/`-separated piece of a name (all of it when it has no `/`).
pub open spec fn last_piece(name: Seq<char>) -> Seq<char> {
    split_char(name, '/').last()
}

/// A name whose file name is the same on every platform: `/` separates
/// components everywhere, and the name holds no `\` or `:` and does not start
/// with `//`, which some platform reads as a separator, a drive or a network
/// prefix; its last `/`-separated piece is a plain name.
pub open spec fn plain_file_name(name: Seq<char>) -> bool {
    &&& !name.contains('\\')
    &&& !name.contains(':')
    &&& !starts_with(name, "//"@)
    &&& plain_name(last_piece(name))
}

/// Calls `Path::extension` on the name (read back with `OsStr::to_str`). It
/// is the extension of the path's file name, its last normal component; for
/// a name whose file name is the same on every platform, that is its last
/// `/`-separated piece, and the extension is what the documentation
/// describes. For a name with `\`, `:` or a leading `//` the file name
/// depends on how the platform splits paths, and nothing is said of it.
#[verifier::external_body]
fn extension_of(name: &str) -> (r: Option<&str>)
    ensures
        plain_file_name(name@) ==> match r {
            Some(e) => plain_name_extension(last_piece(name@)) == Some(e@),
            None => plain_name_extension(last_piece(name@)) is None,
        },
{
    match std::path::Path::new(name).extension() {
        Some(s) => s.to_str(),
        None => None,
    }
}

/// The content type served for a file extension.
pub open spec fn content_type_for(ext: Option<Seq<char>>) -> Seq<char> {
    match ext {
        Some(e) => if e == "js"@ {
            "application/javascript"@
        } else if e == "css"@ {
            "text/css"@
        } else if e == "png"@ {
            "image/png"@
        } else if e == "jpg"@ || e == "jpeg"@ {
            "image/jpeg"@
        } else if e == "gif"@ {
            "image/gif"@
        } else if e == "html"@ {
            "text/html"@
        } else if e == "txt"@ {
            "text/plain"@
        } else {
            "application/octet-stream"@
        },
        None => "application/octet-stream"@,
    }
}

fn is_text(v: &[char], s: &str) -> (b: bool)
    ensures
        b == (v@ == s@),
{
    let w = chars_of(s);
    same_chars(v, w.as_slice())
}

/// The content type served for a file extension.
pub fn content_type_for_extension(ext: Option<&str>) -> (r: &'static str)
    ensures
        r@ == content_type_for(match ext {
            Some(e) => Some(e@),
            None => None,
        }),
{
    match ext {
        Some(e) => {
            let v = chars_of(e);
            if is_text(v.as_slice(), "js") {
                "application/javascript"
            } else if is_text(v.as_slice(), "css") {
                "text/css"
            } else if is_text(v.as_slice(), "png") {
                "image/png"
            } else if is_text(v.as_slice(), "jpg") || is_text(v.as_slice(), "jpeg") {
                "image/jpeg"
            } else if is_text(v.as_slice(), "gif") {
                "image/gif"
            } else if is_text(v.as_slice(), "html") {
                "text/html"
            } else if is_text(v.as_slice(), "txt") {
                "text/plain"
            } else {
                "application/octet-stream"
            }
        },
        None => "application/octet-stream",
    }
}

/// Whether `ct` is a content type that a file of the given name may be served
/// with: one of those `content_type_for` gives, and for a name whose file name
/// is the same on every platform the one of that file name's extension.
pub open spec fn served_type(name: Seq<char>, ct: Seq<char>) -> bool {
    &&& plain_file_name(name) ==> ct == content_type_for(plain_name_extension(last_piece(name)))
    &&& exists|e: Option<Seq<char>>| ct == #[trigger] content_type_for(e)
}

/// The content type served for a file, by its extension.
pub fn get_content_type(filename: &str) -> (r: &'static str)
    ensures
        served_type(filename@, r@),
{
    let ext = extension_of(filename);
    let r = content_type_for_extension(ext);
    proof {
        let e = match ext {
            Some(x) => Some(x@),
            None => None::<Seq<char>>,
        };
        assert(r@ == content_type_for(e));
    }
    r
}

// ---------------------------------------------------------------------------
// Uploaded images
// ---------------------------------------------------------------------------

/// The largest image accepted, in bytes (10 MiB).
pub const MAX_FILE_SIZE: usize = 10485760;

/// The extension of an uploaded file: what follows its last `.` (all of it
/// when there is none), lowercased.
pub open spec fn image_extension(filename: Seq<char>) -> Seq<char> {
    lowercase(split_char(filename, '.').last())
}

pub open spec fn png_signature() -> Seq<u8> {
    seq![137u8, 80u8, 78u8, 71u8, 13u8, 10u8, 26u8, 10u8]
}

pub open spec fn jpeg_signature() -> Seq<u8> {
    seq![255u8, 216u8]
}

/// What an image check answers for data whose file has the given (already
/// lowercased) extension: `None` for an acceptable image, else the message of
/// the first rule it breaks.
pub open spec fn extension_check(data: Seq<u8>, ext: Seq<char>) -> Option<Seq<char>> {
    if data.len() > MAX_FILE_SIZE {
        Some("Max file size: 10 mb"@)
    } else if !(ext == "jpg"@ || ext == "jpeg"@ || ext == "png"@) {
        Some("Incorrect file extension: "@ + ext + ". Try: jpg, jpeg, png"@)
    } else if data.len() < 8 {
        Some("File too short to validate"@)
    } else if ext == "png"@ && data.take(8) != png_signature() {
        Some("Incorrect PNG signature"@)
    } else if ext != "png"@ && data.take(2) != jpeg_signature() {
        Some("Incorrect JPEG signature"@)
    } else {
        None
    }
}

/// What `validate_image` answers for data and a file name.
pub open spec fn image_check(data: Seq<u8>, filename: Seq<char>) -> Option<Seq<char>> {
    extension_check(data, image_extension(filename))
}

/// Checks image data against its lowercased extension: at most 10 MiB, a
/// `jpg`, `jpeg` or `png` extension, and data that starts with the signature
/// of its type.
pub fn validate_image_with_extension(data: &[u8], extension: &str) -> (r: Result<(), Error>)
    ensures
        match extension_check(data@, extension@) {
            None => r is Ok,
            Some(m) => r matches Err(e) && error_fits(e, ErrorSpec::BadRequest(m)),
        },
{
    if data.len() > MAX_FILE_SIZE {
        return Err(bad_request("Max file size: 10 mb"));
    }
    let ext = chars_of(extension);
    let is_png = is_text(ext.as_slice(), "png");
    let is_jpeg = is_text(ext.as_slice(), "jpg") || is_text(ext.as_slice(), "jpeg");
    if !(is_png || is_jpeg) {
        let mut msg = chars_of("Incorrect file extension: ");
        push_str(&mut msg, extension);
        push_str(&mut msg, ". Try: jpg, jpeg, png");
        let text = string_of(msg.as_slice());
        return Err(Error::BadRequest(text));
    }
    if data.len() < 8 {
        return Err(bad_request("File too short to validate"));
    }
    if is_png {
        if !(data[0] == 137 && data[1] == 80 && data[2] == 78 && data[3] == 71 && data[4] == 13
            && data[5] == 10 && data[6] == 26 && data[7] == 10) {
            proof {
                if data@.take(8) == png_signature() {
                    assert(data@.take(8)[0] == 137u8);
                }
            }
            return Err(bad_request("Incorrect PNG signature"));
        }
        assert(data@.take(8) =~= png_signature());
    } else {
        if !(data[0] == 255 && data[1] == 216) {
            proof {
                if data@.take(2) == jpeg_signature() {
                    assert(data@.take(2)[0] == 255u8 && data@.take(2)[1] == 216u8);
                }
            }
            return Err(bad_request("Incorrect JPEG signature"));
        }
        assert(data@.take(2) =~= jpeg_signature());
    }
    Ok(())
}

/// Checks an uploaded image: at most 10 MiB, a `.jpg`, `.jpeg` or `.png`
/// name (in any case), and data that starts with the signature of its type.
pub fn validate_image(data: &[u8], filename: &str) -> (r: Result<(), Error>)
    ensures
        match image_check(data@, filename@) {
            None => r is Ok,
            Some(m) => r matches Err(e) && error_fits(e, ErrorSpec::BadRequest(m)),
        },
{
    if data.len() > MAX_FILE_SIZE {
        return Err(bad_request("Max file size: 10 mb"));
    }
    let name = chars_of(filename);
    let pieces = split_on(name.as_slice(), '.');
    let last = string_of(pieces[pieces.len() - 1].as_slice());
    let extension = to_lowercase(last.as_str());
    validate_image_with_extension(data, extension.as_str())
}

// ---------------------------------------------------------------------------
// Uploads
// ---------------------------------------------------------------------------

/// The text of a required form field, or why there is none.
pub open spec fn form_text(fields: Map<Seq<char>, FormFieldView>, name: Seq<char>) -> Result<
    Seq<char>,
    ErrorSpec,
> {
    if !fields.contains_key(name) {
        Err(ErrorSpec::BadRequest("Missing required field: "@ + name))
    } else {
        match fields[name] {
            FormFieldView::Text(t) => Ok(t),
            FormFieldView::File { .. } => Err(
                ErrorSpec::BadRequest("Field '"@ + name + "' should be text, not file"@),
            ),
        }
    }
}

/// A `String` holding `a`, then `b`, then `c`.
fn text3(a: &str, b: &str, c: &str) -> (s: String)
    ensures
        s@ == a@ + b@ + c@,
{
    let mut v = chars_of(a);
    push_str(&mut v, b);
    push_str(&mut v, c);
    string_of(v.as_slice())
}

/// The text of a required form field.
pub fn extract_text_field(fields: &FormMap<FormField>, field_name: &str) -> (r: Result<
    String,
    Error,
>)
    ensures
        match form_text(fields@, field_name@) {
            Ok(t) => r matches Ok(s) && s@ == t,
            Err(es) => r matches Err(e) && error_fits(e, es),
        },
{
    match fields.get(field_name) {
        Some(FormField::Text(text)) => Ok(text.clone()),
        Some(FormField::File { .. }) => Err(
            Error::BadRequest(text3("Field '", field_name, "' should be text, not file")),
        ),
        None => Err(Error::BadRequest(crate::domain::concat_text("Missing required field: ", chars_of(field_name).as_slice()))),
    }
}

/// What an upload brings: a title, a text, and perhaps an image (its file
/// name and data).
pub struct Submission {
    pub title: Seq<char>,
    pub text: Seq<char>,
    pub image: Option<(Seq<char>, Seq<u8>)>,
}

/// The image of a multipart form: the `image` field when it is a file, which
/// must then pass `validate_image`.
pub open spec fn form_image(fields: Map<Seq<char>, FormFieldView>) -> Result<
    Option<(Seq<char>, Seq<u8>)>,
    ErrorSpec,
> {
    if fields.contains_key("image"@) && fields["image"@] is File {
        let f = fields["image"@];
        match image_check(f->File_data, f->File_filename) {
            Some(m) => Err(ErrorSpec::BadRequest(m)),
            None => Ok(Some((f->File_filename, f->File_data))),
        }
    } else {
        Ok(None)
    }
}

/// What a multipart upload submits: the `title` and `text` fields, then the image.
pub open spec fn multipart_submission(req: RequestView) -> Result<Submission, ErrorSpec> {
    match multipart_form_of(req) {
        Err(e) => Err(e),
        Ok(fields) => match form_text(fields, "title"@) {
            Err(e) => Err(e),
            Ok(title) => match form_text(fields, "text"@) {
                Err(e) => Err(e),
                Ok(text) => match form_image(fields) {
                    Err(e) => Err(e),
                    Ok(image) => Ok(Submission { title, text, image }),
                },
            },
        },
    }
}

/// What a URL-encoded upload submits: the `text` and `title` fields.
pub open spec fn urlencoded_submission(req: RequestView) -> Result<Submission, ErrorSpec> {
    if !vstd::utf8::valid_utf8(req.body) {
        Err(ErrorSpec::BadRequest("URL Encoding error"@))
    } else {
        let m = urlencoded_map(vstd::utf8::decode_utf8(req.body));
        if !m.contains_key("text"@) {
            Err(ErrorSpec::BadRequest("Text undecoded"@))
        } else if !m.contains_key("title"@) {
            Err(ErrorSpec::BadRequest("Title undecoded"@))
        } else {
            Ok(Submission { title: m["title"@], text: m["text"@], image: None })
        }
    }
}

/// What an upload submits, by the request's content type.
pub open spec fn submission_of(req: RequestView) -> Result<Submission, ErrorSpec> {
    match req.content_type {
        Some(ct) => if starts_with(ct, "multipart/form-data"@) {
            multipart_submission(req)
        } else if ct == "application/x-www-form-urlencoded"@ {
            urlencoded_submission(req)
        } else {
            Err(ErrorSpec::BadRequest("Unsupported content type: "@ + ct))
        },
        None => Err(ErrorSpec::BadRequest("Missing Content-Type header"@)),
    }
}

/// A submission, once its slug passes `validate_slug`.
pub open spec fn accepted(sub: Result<Submission, ErrorSpec>) -> Result<Submission, ErrorSpec> {
    match sub {
        Err(e) => Err(e),
        Ok(s) => match slug_check(slug_of(s.title)) {
            Some(m) => Err(ErrorSpec::Validation(m)),
            None => Ok(s),
        },
    }
}

/// Whether `p` is the post that the submission makes, with the given id.
pub open spec fn post_fits(p: Post, id: nat, sub: Submission) -> bool {
    &&& p.id == id
    &&& p.slug@ == slug_of(sub.title)
    &&& p.title@ == sub.title
    &&& p.text@ == sub.text
    &&& match sub.image {
        None => p.filename is None && p.file_data is None,
        Some(img) => match (p.filename, p.file_data) {
            (Some(f), Some(d)) => f@ == img.0 && d@ == img.1,
            _ => false,
        },
    }
}

/// The answer to a successful upload: `303` to the home page with `upload_success=true`.
pub open spec fn is_upload_redirect(r: Result<Response, Error>) -> bool {
    match r {
        Ok(resp) => resp.status == 303 && match resp.body {
            ResponseBody::Html(h) => h@ == redirect_page("/?upload_success=true"@),
            _ => false,
        },
        Err(_) => false,
    }
}

/// What an upload does to the posts and answers: when the submission is
/// accepted, one post is added at the end, numbered after the others, and
/// the answer redirects to the home page with `upload_success=true`;
/// otherwise nothing changes and the answer is the error.
pub open spec fn upload_effect(
    sub: Result<Submission, ErrorSpec>,
    before: Seq<Post>,
    after: Seq<Post>,
    r: Result<Response, Error>,
) -> bool {
    match accepted(sub) {
        Err(es) => r matches Err(e) && error_fits(e, es) && after == before,
        Ok(s) => {
            &&& is_upload_redirect(r)
            &&& after.len() == before.len() + 1
            &&& after.take(before.len() as int) == before
            &&& post_fits(after.last(), (before.len() + 1) as nat, s)
        },
    }
}

/// Adds the post of an accepted submission.
fn add_post(
    state: &mut AppState,
    title: String,
    text: String,
    filename: Option<String>,
    file_data: Option<Vec<u8>>,
) -> (r: Result<Response, Error>)
    requires
        old(state).posts@.len() < u32::MAX,
    ensures
        match slug_check(slug_of(title@)) {
            Some(m) => r matches Err(e) && error_fits(e, ErrorSpec::Validation(m))
                && final(state).posts@ == old(state).posts@,
            None => {
                &&& is_upload_redirect(r)
                &&& final(state).posts@ == old(state).posts@.push(
                    Post {
                        id: (old(state).posts@.len() + 1) as u32,
                        slug: final(state).posts@.last().slug,
                        text,
                        title,
                        filename,
                        file_data,
                    },
                )
                &&& final(state).posts@.last().slug@ == slug_of(title@)
            },
        },
{
    let slug = slugify(title.as_str());
    proof {
        lemma_slug_passes_validation(lowercase(title@));
    }
    match validate_slug(slug.as_str()) {
        Err(e) => return Err(e),
        Ok(()) => {},
    }
    let id = (state.posts.len() as u32) + 1;
    let post = Post { id, slug, text, title, filename, file_data };
    state.posts.push(post);
    Ok(Response::redirect("/?upload_success=true"))
}

/// Adds a post from a URL-encoded form.
pub fn upload_urlencoded_handler(req: &HttpRequest, state: &mut AppState) -> (r: Result<
    Response,
    Error,
>)
    requires
        old(state).posts@.len() < u32::MAX,
    ensures
        upload_effect(urlencoded_submission(req@), old(state).posts@, final(state).posts@, r),
{
    let form_data = match HttpRequest::parse_urlencoded(req.body.as_slice()) {
        Ok(m) => m,
        Err(_) => return Err(bad_request("URL Encoding error")),
    };
    let text = match form_data.get("text") {
        Some(t) => t.clone(),
        None => return Err(bad_request("Text undecoded")),
    };
    let title = match form_data.get("title") {
        Some(t) => t.clone(),
        None => return Err(bad_request("Title undecoded")),
    };
    let ghost sub = Submission { title: title@, text: text@, image: None };
    assert(urlencoded_submission(req@) == Ok::<Submission, ErrorSpec>(sub));
    let r = add_post(state, title, text, None, None);
    proof {
        assert(state.posts@.take(old(state).posts@.len() as int) =~= old(state).posts@);
    }
    r
}

/// Adds a post from a multipart form, with the image it may carry.
pub fn upload_multipart_handler(req: &HttpRequest, state: &mut AppState) -> (r: Result<
    Response,
    Error,
>)
    requires
        old(state).posts@.len() < u32::MAX,
    ensures
        upload_effect(multipart_submission(req@), old(state).posts@, final(state).posts@, r),
{
    let fields = match req.parse_multipart() {
        Ok(f) => f,
        Err(e) => return Err(e),
    };
    let title = match extract_text_field(&fields, "title") {
        Ok(t) => t,
        Err(e) => return Err(e),
    };
    let text = match extract_text_field(&fields, "text") {
        Ok(t) => t,
        Err(e) => return Err(e),
    };
    let ghost mut img: Option<(Seq<char>, Seq<u8>)> = None;
    let (filename, file_data) = match fields.get("image") {
        Some(FormField::File { filename, data, .. }) => {
            match validate_image(data.as_slice(), filename.as_str()) {
                Ok(()) => {},
                Err(e) => return Err(e),
            }
            proof {
                img = Some((filename@, data@));
            }
            (Some(filename.clone()), Some(copy_range(data.as_slice(), 0, data.len())))
        },
        _ => (None, None),
    };
    assert(form_image(fields@) == Ok::<Option<(Seq<char>, Seq<u8>)>, ErrorSpec>(img));
    assert(match img {
        None => filename is None && file_data is None,
        Some(i) => match (filename, file_data) {
            (Some(f), Some(d)) => f@ == i.0 && d@ == i.1,
            _ => false,
        },
    });
    assert(multipart_submission(req@) == Ok::<Submission, ErrorSpec>(
        Submission { title: title@, text: text@, image: img },
    ));
    let r = add_post(state, title, text, filename, file_data);
    proof {
        assert(state.posts@.take(old(state).posts@.len() as int) =~= old(state).posts@);
    }
    r
}

/// Adds a post from the form that the request carries, by its content type.
pub fn upload_post_handler(req: &HttpRequest, state: &mut AppState) -> (r: Result<
    Response,
    Error,
>)
    requires
        old(state).posts@.len() < u32::MAX,
    ensures
        upload_effect(submission_of(req@), old(state).posts@, final(state).posts@, r),
{
    match &req.content_type {
        Some(ct) => {
            let chars = chars_of(ct.as_str());
            let multipart = chars_of("multipart/form-data");
            let urlencoded = chars_of("application/x-www-form-urlencoded");
            if has_prefix(chars.as_slice(), multipart.as_slice()) {
                upload_multipart_handler(req, state)
            } else if same_chars(chars.as_slice(), urlencoded.as_slice()) {
                upload_urlencoded_handler(req, state)
            } else {
                Err(Error::BadRequest(crate::domain::concat_text("Unsupported content type: ", chars.as_slice())))
            }
        },
        None => Err(bad_request("Missing Content-Type header")),
    }
}

// ---------------------------------------------------------------------------
// Files and static assets
// ---------------------------------------------------------------------------

/// What `/file/<slug>` serves: the attachment of the first post with that
/// slug, and the file name whose extension gives its content type.
pub open spec fn file_of(path: Seq<char>, posts: Seq<Post>) -> Result<(Seq<u8>, Seq<char>), ErrorSpec> {
    if !starts_with(path, "/file/"@) {
        Err(ErrorSpec::NotFound("Invalid file path"@))
    } else {
        let slug = path.skip(6);
        match find_slug(posts, slug) {
            None => Err(ErrorSpec::NotFound("Post "@ + slug + " not found"@)),
            Some(i) => match (posts[i].filename, posts[i].file_data) {
                (Some(f), Some(d)) => Ok((d@, f@)),
                _ => Err(ErrorSpec::NotFound("No file attached"@)),
            },
        }
    }
}

/// Whether `r` answers `200` with the given data, served as a file of the
/// given name.
pub open spec fn is_file_ok(r: Result<Response, Error>, data: Seq<u8>, name: Seq<char>) -> bool {
    match r {
        Ok(resp) => resp.status == 200 && match resp.body {
            ResponseBody::Binary(d, t) => d@ == data && served_type(name, t@),
            _ => false,
        },
        Err(_) => false,
    }
}

/// `v[n..]` when `v` starts with `prefix` (of `n` characters).
fn strip_prefix(v: &[char], prefix: &str) -> (r: Option<Vec<char>>)
    ensures
        match r {
            Some(rest) => starts_with(v@, prefix@) && rest@ == v@.skip(prefix@.len() as int),
            None => !starts_with(v@, prefix@),
        },
{
    let p = chars_of(prefix);
    if has_prefix(v, p.as_slice()) {
        let rest = copy_range(v, p.len(), v.len());
        assert(rest@ =~= v@.skip(p@.len() as int));
        Some(rest)
    } else {
        None
    }
}

/// Serves the file attached to a post.
pub fn file_handler(req: &HttpRequest, state: &AppState) -> (r: Result<Response, Error>)
    ensures
        match file_of(req@.path, state.posts@) {
            Ok(f) => is_file_ok(r, f.0, f.1),
            Err(es) => r matches Err(e) && error_fits(e, es),
        },
{
    let path = chars_of(req.path.as_str());
    proof {
        reveal_strlit("/file/");
    }
    let slug = match strip_prefix(path.as_slice(), "/file/") {
        Some(s) => s,
        None => return Err(not_found("Invalid file path")),
    };
    let slug_text = string_of(slug.as_slice());
    let post = match state.find_post_by_slug(slug_text.as_str()) {
        Some(p) => p,
        None => return Err(Error::NotFound(text3("Post ", slug_text.as_str(), " not found"))),
    };
    let ghost i = find_slug(state.posts@, slug@)->Some_0;
    assert(*post == state.posts@[i]);
    assert(slug_text@ == req@.path.skip(6));
    match (&post.filename, &post.file_data) {
        (Some(filename), Some(data)) => {
            let content_type = get_content_type(filename.as_str());
            let bytes = copy_range(data.as_slice(), 0, data.len());
            assert(bytes@ =~= data@);
            Ok(Response::binary(200, bytes, content_type))
        },
        _ => Err(not_found("No file attached")),
    }
}

/// The file that `/static/<name>` asks for, once it is known not to climb
/// out of the asset directory with `..`.
pub open spec fn static_name_of(path: Seq<char>) -> Result<Seq<char>, ErrorSpec> {
    if !starts_with(path, "/static/"@) {
        Err(ErrorSpec::NotFound("Invalid static path"@))
    } else if has_doubled(path.skip(8), '.') {
        Err(ErrorSpec::NotFound("Invalid path"@))
    } else {
        Ok(path.skip(8))
    }
}

/// A name that joins under a relative directory on every platform: it
/// starts with no `/` or `\` and holds no `:`.
pub open spec fn relative_name(name: Seq<char>) -> bool {
    &&& !(name.len() > 0 && (name[0] == '/' || name[0] == '\\'))
    &&& !name.contains(':')
}

/// Calls `Path::new(base).join(name).starts_with(base)`: whether the name,
/// joined to the directory, still lies inside it. For the directory
/// `./static` the documentation of `Path::join` and `Path::starts_with`
/// gives two facts on every platform: a name that starts with `/` has a root
/// and replaces the directory, so the answer is no; a name without a root or
/// a drive is appended, so the answer is yes. Of other names nothing is said:
/// the answer depends on how the platform splits paths. The two calls stand
/// in one wrapper because these facts hold only of the pair: the joined
/// `PathBuf` in between is laid out differently on each platform, so nothing
/// true everywhere can be said of `join` alone.
#[verifier::external_body]
fn stays_in_dir(base: &str, name: &str) -> (b: bool)
    ensures
        base@ == "./static"@ && name@.len() > 0 && name@[0] == '/' ==> !b,
        base@ == "./static"@ && relative_name(name@) ==> b,
{
    std::path::Path::new(base).join(name).starts_with(base)
}

/// The name of the asset that a `/static/` request asks for, checked not to
/// leave the asset directory: no `..`, and still under `./static` once
/// joined to it (never for a name with a leading `/`, always for a name
/// without a root or a drive).
pub fn static_file_name(req: &HttpRequest) -> (r: Result<String, Error>)
    ensures
        match static_name_of(req@.path) {
            Ok(n) => {
                &&& r matches Ok(s) ==> s@ == n
                &&& r matches Err(e) ==> error_fits(e, ErrorSpec::NotFound("Invalid path"@))
                &&& n.len() > 0 && n[0] == '/' ==> r is Err
                &&& relative_name(n) ==> r is Ok
            },
            Err(es) => r matches Err(e) && error_fits(e, es),
        },
{
    let path = chars_of(req.path.as_str());
    proof {
        reveal_strlit("/static/");
        reveal_strlit("./static");
    }
    let name = match strip_prefix(path.as_slice(), "/static/") {
        Some(s) => s,
        None => return Err(not_found("Invalid static path")),
    };
    if contains_doubled(name.as_slice(), '.') {
        return Err(not_found("Invalid path"));
    }
    let text = string_of(name.as_slice());
    if !stays_in_dir("./static", text.as_str()) {
        return Err(not_found("Invalid path"));
    }
    Ok(text)
}

/// The answer to a `/static/` request for the named asset, given its
/// contents, or `None` when there is no such file.
pub fn static_response(filename: &str, data: Option<Vec<u8>>) -> (r: Result<Response, Error>)
    ensures
        match data {
            Some(d) => is_file_ok(r, d@, filename@),
            None => r matches Err(e) && error_fits(
                e,
                ErrorSpec::NotFound("File '"@ + filename@ + "' not found"@),
            ),
        },
{
    match data {
        Some(d) => {
            let content_type = get_content_type(filename);
            Ok(Response::binary(200, d, content_type))
        },
        None => Err(Error::NotFound(text3("File '", filename, "' not found"))),
    }
}

// ---------------------------------------------------------------------------
// Pages
// ---------------------------------------------------------------------------

/// Whether the navigation lists the posts, with the page at `current` marked.
pub open spec fn nav_fits(items: Seq<crate::domain::NavItem>, posts: Seq<Post>, current: Seq<char>) -> bool {
    &&& items.len() == posts.len()
    &&& forall|i: int| 0 <= i < items.len() ==> nav_item_fits(#[trigger] items[i], posts[i], i, current)
}

/// The home page: the number of posts, the navigation, and the success note
/// when the query says `upload_success=true`.
pub fn home_page_handler(req: &HttpRequest, state: &AppState) -> (t: HomeTemplate)
    ensures
        t.posts_count == state.posts@.len(),
        nav_fits(t.nav_items@, state.posts@, "/"@),
        t.current_page@ == "/"@,
        t.show_upload_success == (req@.query_params.contains_key("upload_success"@)
            && req@.query_params["upload_success"@] == "true"@),
{
    let show_upload_success = match req.get_query_param("upload_success") {
        Some(v) => crate::text::same_text(v, "true"),
        None => false,
    };
    let nav_items = state.generate_navigation("/");
    HomeTemplate {
        posts_count: state.posts.len(),
        nav_items,
        current_page: "/".to_string(),
        show_upload_success,
    }
}

/// The page for a path that leads nowhere.
pub fn not_found_handler(req: &HttpRequest, state: &AppState) -> (t: NotFoundTemplate)
    ensures
        nav_fits(t.nav_items@, state.posts@, req@.path),
        t.current_page@ == req@.path,
{
    let nav_items = state.generate_navigation(req.path.as_str());
    NotFoundTemplate { nav_items, current_page: req.path.clone() }
}

/// The page with the form for a new post.
pub fn upload_form_handler(_request: &HttpRequest, state: &AppState) -> (t: UploadFormTemplate)
    ensures
        nav_fits(t.nav_items@, state.posts@, "/upload"@),
        t.current_page@ == "/upload"@,
{
    let nav_items = state.generate_navigation("/upload");
    UploadFormTemplate { nav_items, current_page: "/upload".to_string() }
}

/// The page of the first post with the given slug.
pub fn post_page_handler<'a>(_request: &HttpRequest, slug: &str, state: &'a AppState) -> (r: Result<
    PostTemplate<'a>,
    Error,
>)
    ensures
        match find_slug(state.posts@, slug@) {
            None => r matches Err(e) && error_fits(e, ErrorSpec::NotFound("Post "@ + slug@ + " not found"@)),
            Some(i) => r matches Ok(t) && *t.post == state.posts@[i] && nav_fits(
                t.nav_items@,
                state.posts@,
                post_url(slug@),
            ) && t.current_page@ == post_url(slug@),
        },
{
    let post = match state.find_post_by_slug(slug) {
        Some(p) => p,
        None => return Err(Error::NotFound(text3("Post ", slug, " not found"))),
    };
    let url = text3("/post/", slug, "");
    proof {
        reveal_strlit("");
        assert(url@ =~= post_url(slug@));
    }
    let nav_items = state.generate_navigation(url.as_str());
    Ok(PostTemplate { post, nav_items, current_page: url })
}

// ---------------------------------------------------------------------------
// Routing
// ---------------------------------------------------------------------------

/// Where a request goes.
pub enum Route {
    Home,
    UploadForm,
    Upload,
    Static,
    Post(String),
    File,
    NotFound,
}

pub enum RouteView {
    Home,
    UploadForm,
    Upload,
    Static,
    Post(Seq<char>),
    File,
    NotFound,
}

pub open spec fn route_view(r: Route) -> RouteView {
    match r {
        Route::Home => RouteView::Home,
        Route::UploadForm => RouteView::UploadForm,
        Route::Upload => RouteView::Upload,
        Route::Static => RouteView::Static,
        Route::Post(s) => RouteView::Post(s@),
        Route::File => RouteView::File,
        Route::NotFound => RouteView::NotFound,
    }
}

/// Where a request with the given method and path goes: `GET /` to the home
/// page, `GET /upload` to the form for a new post, `POST /` to an upload,
/// `GET` of `/static/...` to the assets, of `/posts/<slug>` or `/post/<slug>`
/// to a post, of `/file/<slug>` to an attachment (these three only with a
/// non-empty slug), everything else to the page for unknown paths.
pub open spec fn route_of(method: Seq<char>, path: Seq<char>) -> RouteView {
    if method == "GET"@ && path == "/"@ {
        RouteView::Home
    } else if method == "GET"@ && path == "/upload"@ {
        RouteView::UploadForm
    } else if method == "POST"@ && path == "/"@ {
        RouteView::Upload
    } else if method == "GET"@ && starts_with(path, "/static/"@) {
        RouteView::Static
    } else if method == "GET"@ && starts_with(path, "/posts/"@) {
        if path.skip(7).len() > 0 {
            RouteView::Post(path.skip(7))
        } else {
            RouteView::NotFound
        }
    } else if method == "GET"@ && starts_with(path, "/post/"@) {
        if path.skip(6).len() > 0 {
            RouteView::Post(path.skip(6))
        } else {
            RouteView::NotFound
        }
    } else if method == "GET"@ && starts_with(path, "/file/"@) {
        if path.skip(6).len() > 0 {
            RouteView::File
        } else {
            RouteView::NotFound
        }
    } else {
        RouteView::NotFound
    }
}

/// Decides where a request goes.
pub fn route(request: &HttpRequest) -> (r: Route)
    ensures
        route_view(r) == route_of(request@.method, request@.path),
{
    let method = chars_of(request.method.as_str());
    let path = chars_of(request.path.as_str());
    let is_get = is_text(method.as_slice(), "GET");
    proof {
        reveal_strlit("/posts/");
        reveal_strlit("/post/");
        reveal_strlit("/file/");
    }
    if is_get && is_text(path.as_slice(), "/") {
        return Route::Home;
    }
    if is_get && is_text(path.as_slice(), "/upload") {
        return Route::UploadForm;
    }
    if is_text(method.as_slice(), "POST") && is_text(path.as_slice(), "/") {
        return Route::Upload;
    }
    if is_get {
        let static_prefix = chars_of("/static/");
        if has_prefix(path.as_slice(), static_prefix.as_slice()) {
            return Route::Static;
        }
        match strip_prefix(path.as_slice(), "/posts/") {
            Some(slug) => {
                if slug.len() > 0 {
                    return Route::Post(string_of(slug.as_slice()));
                }
                return Route::NotFound;
            },
            None => {},
        }
        match strip_prefix(path.as_slice(), "/post/") {
            Some(slug) => {
                if slug.len() > 0 {
                    return Route::Post(string_of(slug.as_slice()));
                }
                return Route::NotFound;
            },
            None => {},
        }
        match strip_prefix(path.as_slice(), "/file/") {
            Some(slug) => {
                if slug.len() > 0 {
                    return Route::File;
                }
                return Route::NotFound;
            },
            None => {},
        }
    }
    Route::NotFound
}

} // verus!
