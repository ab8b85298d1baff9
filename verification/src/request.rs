//! Reading an HTTP request: the request line, the headers, the query string
//! and URL-encoded forms.

use crate::error::Error;
use crate::form::{map_of, FormMap};
use crate::text::{
    chars_of, copy_range, eq_ignore_ascii_case, find_char, find_char_in, lines, lines_of,
    parse_decimal, parse_usize, same_ignoring_ascii_case, split_char, split_on, split_once, string_of,
    trim, trim_class, views, words, words_of, CharClass,
};
use vstd::prelude::*;

verus! {

// ---------------------------------------------------------------------------
// Decoding
// ---------------------------------------------------------------------------

/// What `String::from_utf8_lossy` makes of the given bytes.
pub uninterp spec fn utf8_lossy(b: Seq<u8>) -> Seq<char>;

/// Bytes read as UTF-8 with invalid sequences replaced: valid UTF-8 reads
/// as the characters it encodes, as `String::from_utf8_lossy` documents.
pub open spec fn lossy_text(b: Seq<u8>) -> Seq<char> {
    if vstd::utf8::valid_utf8(b) {
        vstd::utf8::decode_utf8(b)
    } else {
        utf8_lossy(b)
    }
}

/// The value of an ASCII hexadecimal digit (`char::to_digit(16)`).
pub open spec fn hex_value(b: u8) -> Option<u8> {
    if 0x30 <= b <= 0x39 {
        Some((b - 0x30) as u8)
    } else if 0x61 <= b <= 0x66 {
        Some((b - 0x61 + 10) as u8)
    } else if 0x41 <= b <= 0x46 {
        Some((b - 0x41 + 10) as u8)
    } else {
        None
    }
}

/// Percent-decoding of bytes: each `%` followed by two hexadecimal digits
/// becomes the byte they spell; every other byte stays.
pub open spec fn percent_decode_bytes(b: Seq<u8>) -> Seq<u8>
    decreases b.len(),
{
    if b.len() == 0 {
        seq![]
    } else if b[0] == 0x25 && b.len() >= 3 && hex_value(b[1]) is Some && hex_value(b[2]) is Some {
        seq![(hex_value(b[1])->0 * 16 + hex_value(b[2])->0) as u8] + percent_decode_bytes(b.skip(3))
    } else {
        seq![b[0]] + percent_decode_bytes(b.drop_first())
    }
}

/// The text of a percent-encoded component, decoded with invalid UTF-8 replaced.
pub open spec fn percent_decoded(s: Seq<char>) -> Seq<char> {
    lossy_text(percent_decode_bytes(vstd::utf8::encode_utf8(s)))
}

/// Calls `percent_encoding::percent_decode_str(s).decode_utf8_lossy()`: the
/// bytes of `s` are percent-decoded and then read by `String::from_utf8_lossy`.
#[verifier::external_body]
pub(crate) fn percent_decode_text(s: &str) -> (r: String)
    ensures
        vstd::utf8::valid_utf8(percent_decode_bytes(vstd::utf8::encode_utf8(s@))) ==> r@
            == vstd::utf8::decode_utf8(percent_decode_bytes(vstd::utf8::encode_utf8(s@))),
        !vstd::utf8::valid_utf8(percent_decode_bytes(vstd::utf8::encode_utf8(s@))) ==> r@
            == utf8_lossy(percent_decode_bytes(vstd::utf8::encode_utf8(s@))),
{
    percent_encoding::percent_decode_str(s).decode_utf8_lossy().to_string()
}

/// Calls `std::str::from_utf8`: it succeeds exactly on valid UTF-8, and then
/// gives the characters that the bytes encode.
#[verifier::external_body]
pub(crate) fn utf8_text(bytes: &[u8]) -> (r: Result<&str, std::str::Utf8Error>)
    ensures
        r is Ok <==> vstd::utf8::valid_utf8(bytes@),
        r matches Ok(s) ==> s@ == vstd::utf8::decode_utf8(bytes@),
{
    std::str::from_utf8(bytes)
}

fn decode_component(v: &[char]) -> (r: String)
    ensures
        r@ == percent_decoded(v@),
{
    let s = string_of(v);
    percent_decode_text(s.as_str())
}

// ---------------------------------------------------------------------------
// The query string
// ---------------------------------------------------------------------------

/// One `key=value` part of a query string; a part without `=` is a key with
/// an empty value.
pub open spec fn query_pair(part: Seq<char>) -> (Seq<char>, Seq<char>) {
    match split_once(part, '=') {
        Some(kv) => (percent_decoded(kv.0), percent_decoded(kv.1)),
        None => (percent_decoded(part), percent_decoded(seq![])),
    }
}

/// The pairs of the non-empty parts, in order.
pub open spec fn query_pairs(parts: Seq<Seq<char>>) -> Seq<(Seq<char>, Seq<char>)>
    decreases parts.len(),
{
    if parts.len() == 0 {
        seq![]
    } else if parts.last().len() == 0 {
        query_pairs(parts.drop_last())
    } else {
        query_pairs(parts.drop_last()).push(query_pair(parts.last()))
    }
}

/// The parameters of a query string: its `&`-separated parts, decoded, where
/// a later key replaces an earlier one.
pub open spec fn query_map(query: Seq<char>) -> Map<Seq<char>, Seq<char>> {
    map_of(query_pairs(split_char(query, '&')))
}

/// `s[..i]` and `s[i + 1..]` for the first `c` at `i`, or `s` and nothing.
fn split_at_first(v: &[char], c: char) -> (r: (Vec<char>, Vec<char>, bool))
    ensures
        match find_char(v@, c) {
            Some(i) => r.2 && r.0@ == v@.take(i) && r.1@ == v@.skip(i + 1),
            None => !r.2 && r.0@ == v@ && r.1@ == Seq::<char>::empty(),
        },
{
    match find_char_in(v, c) {
        Some(i) => {
            assert(i < v.len());
            let a = copy_range(v, 0, i);
            let b = copy_range(v, i + 1, v.len());
            assert(a@ =~= v@.take(i as int));
            assert(b@ =~= v@.skip(i + 1));
            (a, b, true)
        },
        None => {
            let a = copy_range(v, 0, v.len());
            assert(a@ =~= v@);
            (a, Vec::new(), false)
        },
    }
}

fn parse_query_chars(query: &[char]) -> (m: FormMap<String>)
    ensures
        m@ == query_map(query@),
{
    let parts = split_on(query, '&');
    let ghost ps = views(parts@);
    let mut m: FormMap<String> = FormMap::new();
    let mut i: usize = 0;
    assert(ps.take(0) =~= Seq::<Seq<char>>::empty());
    while i < parts.len()
        invariant
            i <= parts@.len(),
            ps == views(parts@),
            m@ == map_of(query_pairs(ps.take(i as int))),
        decreases parts.len() - i,
    {
        let part = parts[i].as_slice();
        assert(ps.take(i + 1).drop_last() =~= ps.take(i as int));
        assert(ps.take(i + 1).last() == part@);
        if part.len() > 0 {
            let (k, v, _) = split_at_first(part, '=');
            let key = decode_component(k.as_slice());
            let value = decode_component(v.as_slice());
            assert(query_pair(part@) == (key@, value@));
            let ghost before = query_pairs(ps.take(i as int));
            assert(query_pairs(ps.take(i + 1)) == before.push((key@, value@)));
            assert(before.push((key@, value@)).drop_last() =~= before);
            m.insert(key, value);
        }
        i = i + 1;
    }
    assert(ps.take(parts@.len() as int) =~= ps);
    m
}

// ---------------------------------------------------------------------------
// The head of a request
// ---------------------------------------------------------------------------

/// The header lines up to the first blank one, as trimmed `(name, value)`
/// pairs split at the first `:`; lines without `:` are skipped.
pub open spec fn header_pairs(ls: Seq<Seq<char>>) -> Seq<(Seq<char>, Seq<char>)>
    decreases ls.len(),
{
    if ls.len() == 0 {
        seq![]
    } else if trim(ls[0]).len() == 0 {
        seq![]
    } else {
        match split_once(ls[0], ':') {
            Some(nv) => seq![(trim(nv.0), trim(nv.1))] + header_pairs(ls.drop_first()),
            None => header_pairs(ls.drop_first()),
        }
    }
}

/// The length that the last `Content-Length` header gives (0 when it does
/// not parse, or when there is none).
pub open spec fn content_length_of(hs: Seq<(Seq<char>, Seq<char>)>) -> usize
    decreases hs.len(),
{
    if hs.len() == 0 {
        0
    } else if eq_ignore_ascii_case(hs.last().0, "content-length"@) {
        match parse_usize(hs.last().1) {
            Some(n) => n,
            None => 0,
        }
    } else {
        content_length_of(hs.drop_last())
    }
}

/// The value of the last `Content-Type` header.
pub open spec fn content_type_of(hs: Seq<(Seq<char>, Seq<char>)>) -> Option<Seq<char>>
    decreases hs.len(),
{
    if hs.len() == 0 {
        None
    } else if eq_ignore_ascii_case(hs.last().0, "content-type"@) {
        Some(hs.last().1)
    } else {
        content_type_of(hs.drop_last())
    }
}

/// The path of a request target: what comes before the first `?`.
pub open spec fn path_part(target: Seq<char>) -> Seq<char> {
    match find_char(target, '?') {
        Some(i) => target.take(i),
        None => target,
    }
}

/// The query of a request target: what comes after the first `?`.
pub open spec fn query_part(target: Seq<char>) -> Seq<char> {
    match find_char(target, '?') {
        Some(i) => target.skip(i + 1),
        None => seq![],
    }
}

/// What a request is, as values.
pub struct RequestView {
    pub method: Seq<char>,
    pub path: Seq<char>,
    pub headers: Seq<(Seq<char>, Seq<char>)>,
    pub body: Seq<u8>,
    pub query_params: Map<Seq<char>, Seq<char>>,
    pub content_type: Option<Seq<char>>,
}

/// What the head of a request says.
pub struct HeadView {
    pub method: Seq<char>,
    pub path: Seq<char>,
    pub headers: Seq<(Seq<char>, Seq<char>)>,
    pub query_params: Map<Seq<char>, Seq<char>>,
    pub content_type: Option<Seq<char>>,
    pub content_length: usize,
}

/// Why the text of a head is not a request.
pub enum HeadFault {
    EmptyRequest,
    InvalidRequestLine,
}

/// The head of a request read from its text: the first line gives the method
/// and the target (its first two words), the following lines the headers.
pub open spec fn parse_head_text(t: Seq<char>) -> Result<HeadView, HeadFault> {
    let ls = lines(t);
    if ls.len() == 0 {
        Err(HeadFault::EmptyRequest)
    } else {
        let ws = words(ls[0]);
        if ws.len() < 2 {
            Err(HeadFault::InvalidRequestLine)
        } else {
            let hs = header_pairs(ls.drop_first());
            Ok(
                HeadView {
                    method: ws[0],
                    path: path_part(ws[1]),
                    headers: hs,
                    query_params: query_map(query_part(ws[1])),
                    content_type: content_type_of(hs),
                    content_length: content_length_of(hs),
                },
            )
        }
    }
}

/// The request with the given head and body.
pub open spec fn head_request(h: HeadView, body: Seq<u8>) -> RequestView {
    RequestView {
        method: h.method,
        path: h.path,
        headers: h.headers,
        body,
        query_params: h.query_params,
        content_type: h.content_type,
    }
}

pub open spec fn header_views(hs: Seq<(String, String)>) -> Seq<(Seq<char>, Seq<char>)> {
    hs.map_values(|h: (String, String)| (h.0@, h.1@))
}

pub open spec fn opt_text(o: Option<String>) -> Option<Seq<char>> {
    match o {
        Some(s) => Some(s@),
        None => None,
    }
}

pub struct HttpRequest {
    pub method: String,
    pub path: String,
    pub headers: Vec<(String, String)>,
    pub body: Vec<u8>,
    pub query_params: FormMap<String>,
    pub content_type: Option<String>,
}

impl View for HttpRequest {
    type V = RequestView;

    open spec fn view(&self) -> RequestView {
        RequestView {
            method: self.method@,
            path: self.path@,
            headers: header_views(self.headers@),
            body: self.body@,
            query_params: self.query_params@,
            content_type: opt_text(self.content_type),
        }
    }
}

/// The header pairs of `ls[1..]`.
fn read_header_pairs(ls: &Vec<Vec<char>>) -> (r: Vec<(String, String)>)
    requires
        ls@.len() >= 1,
    ensures
        header_views(r@) == header_pairs(views(ls@).drop_first()),
{
    let ghost all = views(ls@);
    let ghost target = header_pairs(all.drop_first());
    let mut out: Vec<(String, String)> = Vec::new();
    let mut i: usize = 1;
    let mut stop = false;
    assert(all.skip(1) =~= all.drop_first());
    assert(header_views(out@) =~= Seq::<(Seq<char>, Seq<char>)>::empty());
    while i < ls.len()
        invariant
            1 <= i <= ls@.len(),
            all == views(ls@),
            target == header_pairs(all.drop_first()),
            !stop ==> header_views(out@) + header_pairs(all.skip(i as int)) == target,
            stop ==> header_views(out@) == target && i == ls@.len(),
        decreases ls.len() - i,
    {
        let line = ls[i].as_slice();
        assert(all[i as int] == line@);
        assert(all.skip(i as int)[0] == line@);
        assert(all.skip(i as int).drop_first() =~= all.skip(i + 1));
        let trimmed = trim_class(line, CharClass::Whitespace);
        if trimmed.len() == 0 {
            assert(trim(line@).len() == 0);
            assert(header_pairs(all.skip(i as int)) =~= Seq::<(Seq<char>, Seq<char>)>::empty());
            assert(header_views(out@) + Seq::<(Seq<char>, Seq<char>)>::empty() =~= header_views(out@));
            stop = true;
            i = ls.len();
        } else {
            let (name, value, found) = split_at_first(line, ':');
            if found {
                let n = trim_class(name.as_slice(), CharClass::Whitespace);
                let v = trim_class(value.as_slice(), CharClass::Whitespace);
                let ghost old_out = out@;
                let pair = (string_of(n.as_slice()), string_of(v.as_slice()));
                let ghost pv = (pair.0@, pair.1@);
                out.push(pair);
                assert(header_views(out@) =~= header_views(old_out).push(pv));
                assert(header_views(old_out) + header_pairs(all.skip(i as int)) =~= header_views(
                    out@,
                ) + header_pairs(all.skip(i + 1)));
            }
            i = i + 1;
        }
    }
    if !stop {
        assert(all.skip(i as int) =~= Seq::<Seq<char>>::empty());
        assert(header_views(out@) + Seq::<(Seq<char>, Seq<char>)>::empty() =~= header_views(out@));
    }
    out
}

/// The content length and content type that the headers give.
fn header_facts(hs: &Vec<(String, String)>) -> (r: (usize, Option<String>))
    ensures
        r.0 == content_length_of(header_views(hs@)),
        opt_text(r.1) == content_type_of(header_views(hs@)),
{
    let ghost all = header_views(hs@);
    let mut length: usize = 0;
    let mut ctype: Option<String> = None;
    let cl_name = chars_of("content-length");
    let ct_name = chars_of("content-type");
    let mut i: usize = 0;
    assert(all.take(0) =~= Seq::<(Seq<char>, Seq<char>)>::empty());
    while i < hs.len()
        invariant
            i <= hs@.len(),
            all == header_views(hs@),
            cl_name@ == "content-length"@,
            ct_name@ == "content-type"@,
            length == content_length_of(all.take(i as int)),
            opt_text(ctype) == content_type_of(all.take(i as int)),
        decreases hs.len() - i,
    {
        let name = chars_of(hs[i].0.as_str());
        let value = chars_of(hs[i].1.as_str());
        assert(all.take(i + 1).drop_last() =~= all.take(i as int));
        assert(all.take(i + 1).last() == all[i as int]);
        assert(all[i as int] == (name@, value@));
        if same_ignoring_ascii_case(name.as_slice(), cl_name.as_slice()) {
            length = match parse_decimal(value.as_slice()) {
                Some(n) => n,
                None => 0,
            };
        }
        if same_ignoring_ascii_case(name.as_slice(), ct_name.as_slice()) {
            ctype = Some(string_of(value.as_slice()));
        }
        i = i + 1;
    }
    assert(all.take(hs@.len() as int) =~= all);
    (length, ctype)
}

impl HttpRequest {
    /// Reads the head of a request from its text; the body is left empty and
    /// the content length is returned beside the request.
    pub fn parse_head(text: &str) -> (r: Result<(HttpRequest, usize), Error>)
        ensures
            match parse_head_text(text@) {
                Ok(h) => r matches Ok((req, n)) && req@ == head_request(h, seq![]) && n
                    == h.content_length,
                Err(HeadFault::EmptyRequest) => r matches Err(Error::EmptyRequest),
                Err(HeadFault::InvalidRequestLine) => r matches Err(Error::InvalidRequestLine),
            },
    {
        let chars = chars_of(text);
        let ls = lines_of(chars.as_slice());
        if ls.len() == 0 {
            return Err(Error::EmptyRequest);
        }
        let ws = words_of(ls[0].as_slice());
        if ws.len() < 2 {
            return Err(Error::InvalidRequestLine);
        }
        let method = string_of(ws[0].as_slice());
        let (path, query, _) = split_at_first(ws[1].as_slice(), '?');
        let query_params = parse_query_chars(query.as_slice());
        let headers = read_header_pairs(&ls);
        let (content_length, content_type) = header_facts(&headers);
        let req = HttpRequest {
            method,
            path: string_of(path.as_slice()),
            headers,
            body: Vec::new(),
            query_params,
            content_type,
        };
        assert(req@.body =~= Seq::<u8>::empty());
        Ok((req, content_length))
    }

    /// The parameters of a query string.
    pub fn parse_query_string(query: &str) -> (m: FormMap<String>)
        ensures
            m@ == query_map(query@),
    {
        let chars = chars_of(query);
        parse_query_chars(chars.as_slice())
    }

    /// The value of a query parameter.
    pub fn get_query_param(&self, param: &str) -> (r: Option<&str>)
        ensures
            match r {
                Some(v) => self.query_params@.contains_key(param@) && v@
                    == self.query_params@[param@],
                None => !self.query_params@.contains_key(param@),
            },
    {
        match self.query_params.get(param) {
            Some(v) => Some(v.as_str()),
            None => None,
        }
    }
}

// ---------------------------------------------------------------------------
// URL-encoded forms
// ---------------------------------------------------------------------------

/// `s` with every `+` replaced by a space.
pub open spec fn plus_to_space(s: Seq<char>) -> Seq<char> {
    s.map_values(|c: char| if c == '+' { ' ' } else { c })
}

/// The decoded `key=value` pairs of the parts, in order; parts without `=`
/// are skipped.
pub open spec fn form_pairs(parts: Seq<Seq<char>>) -> Seq<(Seq<char>, Seq<char>)>
    decreases parts.len(),
{
    if parts.len() == 0 {
        seq![]
    } else {
        match split_once(parts.last(), '=') {
            Some(kv) => form_pairs(parts.drop_last()).push(
                (percent_decoded(kv.0), percent_decoded(kv.1)),
            ),
            None => form_pairs(parts.drop_last()),
        }
    }
}

/// The fields of a URL-encoded form body, once it is read as text.
pub open spec fn urlencoded_map(text: Seq<char>) -> Map<Seq<char>, Seq<char>> {
    map_of(form_pairs(split_char(plus_to_space(text), '&')))
}

impl HttpRequest {
    /// The fields of an `application/x-www-form-urlencoded` body.
    pub fn parse_urlencoded(body: &[u8]) -> (r: Result<FormMap<String>, Error>)
        ensures
            !vstd::utf8::valid_utf8(body@) ==> r matches Err(Error::Utf8(_)),
            vstd::utf8::valid_utf8(body@) ==> (r matches Ok(m) && m@ == urlencoded_map(
                vstd::utf8::decode_utf8(body@),
            )),
    {
        let text = match utf8_text(body) {
            Ok(t) => t,
            Err(e) => return Err(Error::Utf8(e)),
        };
        let raw = chars_of(text);
        let mut spaced: Vec<char> = Vec::new();
        let mut j: usize = 0;
        while j < raw.len()
            invariant
                j <= raw@.len(),
                spaced@ == plus_to_space(raw@).take(j as int),
            decreases raw.len() - j,
        {
            let c = raw[j];
            spaced.push(if c == '+' { ' ' } else { c });
            assert(spaced@ =~= plus_to_space(raw@).take(j + 1));
            j = j + 1;
        }
        assert(spaced@ =~= plus_to_space(raw@));
        let parts = split_on(spaced.as_slice(), '&');
        let ghost ps = views(parts@);
        let mut m: FormMap<String> = FormMap::new();
        let mut i: usize = 0;
        assert(ps.take(0) =~= Seq::<Seq<char>>::empty());
        while i < parts.len()
            invariant
                i <= parts@.len(),
                ps == views(parts@),
                m@ == map_of(form_pairs(ps.take(i as int))),
            decreases parts.len() - i,
        {
            let part = parts[i].as_slice();
            assert(ps.take(i + 1).drop_last() =~= ps.take(i as int));
            assert(ps.take(i + 1).last() == part@);
            let (k, v, found) = split_at_first(part, '=');
            if found {
                let key = decode_component(k.as_slice());
                let value = decode_component(v.as_slice());
                let ghost before = form_pairs(ps.take(i as int));
                assert(form_pairs(ps.take(i + 1)) == before.push((key@, value@)));
                assert(before.push((key@, value@)).drop_last() =~= before);
                m.insert(key, value);
            }
            i = i + 1;
        }
        assert(ps.take(parts@.len() as int) =~= ps);
        Ok(m)
    }
}

// ---------------------------------------------------------------------------
// Reading a request as its bytes arrive
// ---------------------------------------------------------------------------

/// Whether the bytes at `i` are the blank line `\r\n\r\n` that ends a head.
pub open spec fn delimiter_at(buf: Seq<u8>, i: int) -> bool {
    0 <= i && i + 4 <= buf.len() && buf[i] == 13 && buf[i + 1] == 10 && buf[i + 2] == 13
        && buf[i + 3] == 10
}

/// The first position at or after `from` where the head's end is found.
pub open spec fn find_delimiter(buf: Seq<u8>, from: int) -> Option<int>
    decreases buf.len() - from,
{
    if from < 0 || from + 4 > buf.len() {
        None
    } else if delimiter_at(buf, from) {
        Some(from)
    } else {
        find_delimiter(buf, from + 1)
    }
}

proof fn lemma_find_delimiter(buf: Seq<u8>, from: int)
    ensures
        find_delimiter(buf, from) matches Some(i) ==> from <= i && delimiter_at(buf, i),
    decreases buf.len() - from,
{
    if !(from < 0 || from + 4 > buf.len()) && !delimiter_at(buf, from) {
        lemma_find_delimiter(buf, from + 1);
    }
}

fn locate_delimiter(buf: &Vec<u8>) -> (r: Option<usize>)
    ensures
        r matches Some(i) ==> i + 4 <= buf@.len() && find_delimiter(buf@, 0) == Some(i as int),
        r is None ==> find_delimiter(buf@, 0) is None,
{
    proof {
        lemma_find_delimiter(buf@, 0);
    }
    let mut i: usize = 0;
    while buf.len() >= 4 && i <= buf.len() - 4
        invariant
            i <= buf@.len(),
            find_delimiter(buf@, 0) == find_delimiter(buf@, i as int),
        decreases buf.len() - i,
    {
        if buf[i] == 13 && buf[i + 1] == 10 && buf[i + 2] == 13 && buf[i + 3] == 10 {
            return Some(i);
        }
        i = i + 1;
    }
    None
}

/// `a - b`, or 0 when `b > a` (`usize::saturating_sub`).
pub open spec fn saturating_sub(a: nat, b: nat) -> nat {
    if a > b {
        (a - b) as nat
    } else {
        0
    }
}

/// What has been read of a request so far: the bytes, and once the head
/// has been read, the request it gives, where its body starts and how many
/// bytes of the body are still to come.
pub struct ReaderView {
    pub buffer: Seq<u8>,
    pub head: Option<(RequestView, nat)>,
    pub remaining: nat,
}

/// Why a request could not be read.
pub enum ReadFault {
    NoDelimiter,
    Utf8,
    EmptyRequest,
    InvalidRequestLine,
}

/// What one chunk of bytes leads to.
pub enum StepView {
    More(ReaderView),
    Done(RequestView),
    Fail(ReadFault),
}

/// The request of `req`'s head with the body the buffer holds from `start`.
pub open spec fn with_body(req: RequestView, buf: Seq<u8>, start: nat) -> RequestView {
    RequestView { body: buf.skip(start as int), ..req }
}

/// One step of reading: `chunk` holds the bytes that the next read gave, and
/// is empty when the connection has no more to give.
///
/// Before the head is complete, the end of input is an error; the bytes are
/// added and, once `\r\n\r\n` is among them, the head (the bytes up to and
/// with it) is read as UTF-8 text. After it, bytes are read until as many as
/// the content length says have arrived, or until the input ends; the body
/// is everything after the head.
pub open spec fn read_step(r: ReaderView, chunk: Seq<u8>) -> StepView {
    match r.head {
        None => if chunk.len() == 0 {
            StepView::Fail(ReadFault::NoDelimiter)
        } else {
            let buf = r.buffer + chunk;
            match find_delimiter(buf, 0) {
                None => StepView::More(ReaderView { buffer: buf, head: None, remaining: 0 }),
                Some(i) => {
                    let end = i + 4;
                    let hb = buf.take(end);
                    if !vstd::utf8::valid_utf8(hb) {
                        StepView::Fail(ReadFault::Utf8)
                    } else {
                        match parse_head_text(vstd::utf8::decode_utf8(hb)) {
                            Err(HeadFault::EmptyRequest) => StepView::Fail(ReadFault::EmptyRequest),
                            Err(HeadFault::InvalidRequestLine) => StepView::Fail(
                                ReadFault::InvalidRequestLine,
                            ),
                            Ok(h) => {
                                let rem = saturating_sub(
                                    h.content_length as nat,
                                    (buf.len() - end) as nat,
                                );
                                if rem == 0 {
                                    StepView::Done(head_request(h, buf.skip(end)))
                                } else {
                                    StepView::More(
                                        ReaderView {
                                            buffer: buf,
                                            head: Some((head_request(h, seq![]), end as nat)),
                                            remaining: rem,
                                        },
                                    )
                                }
                            },
                        }
                    }
                },
            }
        },
        Some(hd) => if chunk.len() == 0 {
            StepView::Done(with_body(hd.0, r.buffer, hd.1))
        } else {
            let buf = r.buffer + chunk;
            let rem = saturating_sub(r.remaining, chunk.len());
            if rem == 0 {
                StepView::Done(with_body(hd.0, buf, hd.1))
            } else {
                StepView::More(ReaderView { buffer: buf, head: r.head, remaining: rem })
            }
        },
    }
}

/// Whether `e` is the error that the fault gives.
pub open spec fn fault_error(e: Error, f: ReadFault) -> bool {
    match f {
        ReadFault::NoDelimiter => crate::error::is_bad_request(e, "No header delimiter found"@),
        ReadFault::Utf8 => e is Utf8,
        ReadFault::EmptyRequest => e is EmptyRequest,
        ReadFault::InvalidRequestLine => e is InvalidRequestLine,
    }
}

/// Reads a request from the bytes that a connection gives, one chunk at a time.
pub struct RequestReader {
    buffer: Vec<u8>,
    head: Option<(HttpRequest, usize)>,
    remaining: usize,
}

impl View for RequestReader {
    type V = ReaderView;

    closed spec fn view(&self) -> ReaderView {
        ReaderView {
            buffer: self.buffer@,
            head: match self.head {
                Some(hd) => Some((hd.0@, hd.1 as nat)),
                None => None,
            },
            remaining: self.remaining as nat,
        }
    }
}

/// What `feed` answers.
pub enum ReadProgress {
    NeedMore,
    Complete(Result<HttpRequest, Error>),
}

fn append_bytes(dst: &mut Vec<u8>, src: &[u8])
    ensures
        final(dst)@ == old(dst)@ + src@,
{
    let mut i: usize = 0;
    while i < src.len()
        invariant
            i <= src.len(),
            dst@ == old(dst)@ + src@.take(i as int),
        decreases src.len() - i,
    {
        dst.push(src[i]);
        assert(old(dst)@ + src@.take(i + 1) =~= old(dst)@ + src@.take(i as int) + seq![src@[i as int]]);
        i = i + 1;
    }
    assert(src@.take(src.len() as int) =~= src@);
}

impl RequestReader {
    /// Whether the body's start lies within the bytes read.
    pub closed spec fn wf(&self) -> bool {
        match self.head {
            Some(hd) => hd.1 <= self.buffer@.len() && hd.0@.body.len() == 0,
            None => true,
        }
    }

    pub fn new() -> (r: Self)
        ensures
            r.wf(),
            r@ == (ReaderView { buffer: seq![], head: None, remaining: 0 }),
    {
        RequestReader { buffer: Vec::new(), head: None, remaining: 0 }
    }

    /// Takes the next chunk of bytes (empty at the end of input) and answers
    /// as `read_step` says.
    pub fn feed(&mut self, chunk: &[u8]) -> (r: ReadProgress)
        requires
            old(self).wf(),
        ensures
            final(self).wf(),
            match read_step(old(self)@, chunk@) {
                StepView::More(v) => r is NeedMore && final(self)@ == v,
                StepView::Done(req) => r matches ReadProgress::Complete(Ok(q)) && q@ == req,
                StepView::Fail(f) => r matches ReadProgress::Complete(Err(e)) && fault_error(e, f),
            },
    {
        if self.head.is_none() {
            if chunk.len() == 0 {
                return ReadProgress::Complete(
                    Err(crate::error::bad_request("No header delimiter found")),
                );
            }
            append_bytes(&mut self.buffer, chunk);
            let end = match locate_delimiter(&self.buffer) {
                None => {
                    self.remaining = 0;
                    return ReadProgress::NeedMore;
                },
                Some(i) => {
                    assert(i + 4 <= self.buffer.len());
                    i + 4
                },
            };
            let head_bytes = copy_range(self.buffer.as_slice(), 0, end);
            assert(head_bytes@ =~= self.buffer@.take(end as int));
            let text = match utf8_text(head_bytes.as_slice()) {
                Ok(t) => t,
                Err(e) => return ReadProgress::Complete(Err(Error::Utf8(e))),
            };
            let (req, content_length) = match HttpRequest::parse_head(text) {
                Ok(parsed) => parsed,
                Err(e) => return ReadProgress::Complete(Err(e)),
            };
            let have = self.buffer.len() - end;
            let remaining = content_length.saturating_sub(have);
            if remaining == 0 {
                let mut done = req;
                done.body = copy_range(self.buffer.as_slice(), end, self.buffer.len());
                assert(done.body@ =~= self.buffer@.skip(end as int));
                return ReadProgress::Complete(Ok(done));
            }
            self.head = Some((req, end));
            self.remaining = remaining;
            ReadProgress::NeedMore
        } else {
            if chunk.len() > 0 {
                append_bytes(&mut self.buffer, chunk);
                self.remaining = self.remaining.saturating_sub(chunk.len());
                if self.remaining > 0 {
                    return ReadProgress::NeedMore;
                }
            }
            let (req, start) = self.head.take().unwrap();
            let mut done = req;
            done.body = copy_range(self.buffer.as_slice(), start, self.buffer.len());
            assert(done.body@ =~= self.buffer@.skip(start as int));
            assert(done@ =~= with_body(req@, self.buffer@, start as nat));
            ReadProgress::Complete(Ok(done))
        }
    }
}

} // verus!
