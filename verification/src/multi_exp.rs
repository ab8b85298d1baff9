//! `multipart/form-data` bodies: finding the boundary, and collecting the
//! fields that the `multipart` crate reads from the body.

use crate::error::{error_fits, Error, ErrorSpec};
use crate::form::{map_of, FormMap};
use crate::request::{HttpRequest, RequestView};
use crate::text::{
    chars_of, copy_range, has_prefix, split_char, split_on, starts_with, string_of, trim,
    trim_by, trim_class, views, CharClass,
};
use multipart::server::Multipart;
use std::io::ErrorKind;
use std::io::Read;
use vstd::prelude::*;

verus! {

// ---------------------------------------------------------------------------
// The boundary
// ---------------------------------------------------------------------------

/// Why no boundary could be taken from a content type.
#[derive(Debug, Clone, Copy)]
pub enum BoundaryError {
    Empty,
    Missing,
}

/// The message of a boundary error.
pub open spec fn boundary_error_text(e: BoundaryError) -> Seq<char> {
    match e {
        BoundaryError::Empty => "Empty boundary"@,
        BoundaryError::Missing => "No boundary found"@,
    }
}

impl BoundaryError {
    pub fn message(&self) -> (m: &'static str)
        ensures
            m@ == boundary_error_text(*self),
    {
        match self {
            BoundaryError::Empty => "Empty boundary",
            BoundaryError::Missing => "No boundary found",
        }
    }
}

/// The boundary that the first `;`-separated part starting (once trimmed)
/// with `boundary=` gives: its value without surrounding quotes and
/// whitespace.
pub open spec fn boundary_in(parts: Seq<Seq<char>>) -> Result<Seq<char>, BoundaryError>
    decreases parts.len(),
{
    if parts.len() == 0 {
        Err(BoundaryError::Missing)
    } else if starts_with(trim(parts[0]), "boundary="@) {
        let clean = trim(trim_by(trim(parts[0]).skip(9), CharClass::Quote));
        if clean.len() == 0 {
            Err(BoundaryError::Empty)
        } else {
            Ok(clean)
        }
    } else {
        boundary_in(parts.drop_first())
    }
}

/// The boundary of a `Content-Type` value.
pub open spec fn boundary_of(content_type: Seq<char>) -> Result<Seq<char>, BoundaryError> {
    boundary_in(split_char(content_type, ';'))
}

/// Takes the boundary out of a `multipart/form-data` content type.
pub fn extract_boundary(content_type: &str) -> (r: Result<String, BoundaryError>)
    ensures
        match boundary_of(content_type@) {
            Ok(b) => r matches Ok(s) && s@ == b,
            Err(e) => r == Err::<String, BoundaryError>(e),
        },
{
    let chars = chars_of(content_type);
    let parts = split_on(chars.as_slice(), ';');
    let ghost ps = views(parts@);
    let key = chars_of("boundary=");
    proof {
        reveal_strlit("boundary=");
    }
    assert(key@.len() == 9);
    assert(ps.skip(0) =~= ps);
    let mut i: usize = 0;
    while i < parts.len()
        invariant
            i <= parts@.len(),
            ps == views(parts@),
            key@ == "boundary="@,
            key@.len() == 9,
            boundary_in(ps.skip(i as int)) == boundary_of(content_type@),
        decreases parts.len() - i,
    {
        assert(ps.skip(i as int)[0] == parts@[i as int]@);
        assert(ps.skip(i as int).drop_first() =~= ps.skip(i + 1));
        let part = trim_class(parts[i].as_slice(), CharClass::Whitespace);
        if has_prefix(part.as_slice(), key.as_slice()) {
            let value = copy_range(part.as_slice(), 9, part.len());
            assert(value@ =~= part@.skip(9));
            let unquoted = trim_class(value.as_slice(), CharClass::Quote);
            let clean = trim_class(unquoted.as_slice(), CharClass::Whitespace);
            if clean.len() == 0 {
                return Err(BoundaryError::Empty);
            }
            return Ok(string_of(clean.as_slice()));
        }
        i = i + 1;
    }
    Err(BoundaryError::Missing)
}

// ---------------------------------------------------------------------------
// What the `multipart` crate reads
// ---------------------------------------------------------------------------

/// `multipart::server::Multipart`, the crate's reader of a body.
#[verifier::external_type_specification]
#[verifier::external_body]
#[verifier::reject_recursive_types(R)]
pub struct ExMultipart<R>(Multipart<R>);

/// One entry as the reader gives it: the headers of the part and all its data.
pub struct RawEntry {
    pub name: String,
    pub filename: Option<String>,
    pub content_type: Option<String>,
    pub data: Vec<u8>,
}

pub struct EntryView {
    pub name: Seq<char>,
    pub filename: Option<Seq<char>>,
    pub content_type: Option<Seq<char>>,
    pub data: Seq<u8>,
}

pub open spec fn opt_view(o: Option<String>) -> Option<Seq<char>> {
    match o {
        Some(s) => Some(s@),
        None => None,
    }
}

impl View for RawEntry {
    type V = EntryView;

    open spec fn view(&self) -> EntryView {
        EntryView {
            name: self.name@,
            filename: opt_view(self.filename),
            content_type: opt_view(self.content_type),
            data: self.data@,
        }
    }
}

/// A failed read: whether the body ended too early, and the error's text.
pub struct ReadFailure {
    pub unexpected_eof: bool,
    pub message: String,
}

/// What one read of the next entry gives.
pub enum EntryStep {
    Field(EntryView),
    Failed(bool, Seq<char>),
}

/// What the reads of successive entries give, one after the other, for a
/// body and a boundary. The list ends at the first failure, or, where no read
/// fails, with the last entry before the reader reports that none is left.
pub uninterp spec fn multipart_steps(body: Seq<u8>, boundary: Seq<char>) -> Seq<EntryStep>;

/// What the reads that a reader has still to give will give, as in
/// `multipart_steps`; `None` once a read has failed, after which nothing is
/// said of what the reader gives.
pub uninterp spec fn pending_steps(m: Multipart<&[u8]>) -> Option<Seq<EntryStep>>;

/// The bytes that the fields among the steps take up at the least: their
/// data, and one byte for the boundary before each.
pub open spec fn steps_cost(s: Seq<EntryStep>) -> nat
    decreases s.len(),
{
    if s.len() == 0 {
        0
    } else {
        (match s[0] {
            EntryStep::Field(e) => e.data.len() + 1,
            EntryStep::Failed(_, _) => 0,
        }) + steps_cost(s.drop_first())
    }
}

/// Calls `Multipart::with_body`. The reads that follow give
/// `multipart_steps(body, boundary)`. The data of the fields are separate
/// parts of the body, each after a boundary (`--` and the boundary text) that
/// is part of the body too, so they take up no more than the body's length.
#[verifier::external_body]
fn open_multipart<'a>(body: &'a [u8], boundary: &str) -> (m: Multipart<&'a [u8]>)
    ensures
        pending_steps(m) == Some(multipart_steps(body@, boundary@)),
        steps_cost(pending_steps(m).unwrap()) <= body@.len(),
{
    Multipart::with_body(body, boundary.to_string())
}

/// Calls `Multipart::read_entry` and reads the entry's data to its end
/// (`Read::read_to_end`), on a reader none of whose reads has failed. It
/// gives the next pending step and consumes it; once none is pending the
/// reader is at the end of the body and gives `Ok(None)` again and again.
/// After a failure nothing more is said of the reader. The field name, file
/// name and content type are turned into `String`s, a failure into whether
/// its kind is `UnexpectedEof` and its text.
#[verifier::external_body]
fn next_entry(m: &mut Multipart<&[u8]>) -> (r: Result<Option<RawEntry>, ReadFailure>)
    requires
        pending_steps(*old(m)) is Some,
    ensures
        pending_steps(*old(m)).unwrap().len() == 0 ==> (r matches Ok(None) && pending_steps(
            *final(m),
        ) == pending_steps(*old(m))),
        pending_steps(*old(m)).unwrap().len() > 0 ==> match pending_steps(*old(m)).unwrap()[0] {
            EntryStep::Field(e) => r matches Ok(Some(x)) && x@ == e && pending_steps(*final(m))
                == Some(pending_steps(*old(m)).unwrap().drop_first()),
            EntryStep::Failed(eof, msg) => r matches Err(f) && f.unexpected_eof == eof
                && f.message@ == msg && pending_steps(*final(m)) is None,
        },
{
    let mut entry = match m.read_entry() {
        Ok(Some(entry)) => entry,
        Ok(None) => return Ok(None),
        Err(e) => return Err(ReadFailure { unexpected_eof: e.kind() == ErrorKind::UnexpectedEof, message: e.to_string() }),
    };
    let mut data = Vec::new();
    if let Err(e) = entry.data.read_to_end(&mut data) {
        return Err(ReadFailure { unexpected_eof: e.kind() == ErrorKind::UnexpectedEof, message: e.to_string() });
    }
    let h = entry.headers;
    let content_type = match h.content_type {
        Some(t) => Some(t.to_string()),
        None => None,
    };
    Ok(Some(RawEntry { name: h.name.to_string(), filename: h.filename, content_type, data }))
}

/// The text that `String::from_utf8` reports for bytes that are not UTF-8.
pub uninterp spec fn utf8_error_text(b: Seq<u8>) -> Seq<char>;

/// Calls `String::from_utf8`: it succeeds exactly on valid UTF-8, giving the
/// characters the bytes encode; otherwise it gives its error's text.
#[verifier::external_body]
fn owned_text(data: Vec<u8>) -> (r: Result<String, String>)
    ensures
        r is Ok <==> vstd::utf8::valid_utf8(data@),
        r matches Ok(s) ==> s@ == vstd::utf8::decode_utf8(data@),
        r matches Err(m) ==> m@ == utf8_error_text(data@),
{
    match String::from_utf8(data) {
        Ok(s) => Ok(s),
        Err(e) => Err(e.to_string()),
    }
}

// ---------------------------------------------------------------------------
// Collecting the fields
// ---------------------------------------------------------------------------

#[derive(Debug)]
pub enum FormField {
    Text(String),
    File { filename: String, content_type: String, data: Vec<u8> },
}

pub enum FormFieldView {
    Text(Seq<char>),
    File { filename: Seq<char>, content_type: Seq<char>, data: Seq<u8> },
}

impl View for FormField {
    type V = FormFieldView;

    open spec fn view(&self) -> FormFieldView {
        match self {
            FormField::Text(t) => FormFieldView::Text(t@),
            FormField::File { filename, content_type, data } => FormFieldView::File {
                filename: filename@,
                content_type: content_type@,
                data: data@,
            },
        }
    }
}

/// Why a body could not be read as a form.
#[derive(Debug)]
pub enum MultipartFailure {
    Read { unexpected_eof: bool, message: String },
    Text { message: String },
}

pub enum FailureView {
    Read(bool, Seq<char>),
    Text(Seq<char>),
}

impl View for MultipartFailure {
    type V = FailureView;

    open spec fn view(&self) -> FailureView {
        match self {
            MultipartFailure::Read { unexpected_eof, message } => FailureView::Read(
                *unexpected_eof,
                message@,
            ),
            MultipartFailure::Text { message } => FailureView::Text(message@),
        }
    }
}

/// The field an entry gives: a file when it has a file name (its content
/// type defaulting to `application/octet-stream`), else text, which must be
/// UTF-8 (the error's text otherwise).
pub open spec fn field_of(e: EntryView) -> Result<FormFieldView, Seq<char>> {
    match e.filename {
        Some(f) => Ok(
            FormFieldView::File {
                filename: f,
                content_type: match e.content_type {
                    Some(c) => c,
                    None => "application/octet-stream"@,
                },
                data: e.data,
            },
        ),
        None => if vstd::utf8::valid_utf8(e.data) {
            Ok(FormFieldView::Text(vstd::utf8::decode_utf8(e.data)))
        } else {
            Err(utf8_error_text(e.data))
        },
    }
}

/// The named fields of the steps, in order, or the first failure.
pub open spec fn collect_fields(steps: Seq<EntryStep>) -> Result<
    Seq<(Seq<char>, FormFieldView)>,
    FailureView,
>
    decreases steps.len(),
{
    if steps.len() == 0 {
        Ok(seq![])
    } else {
        match steps[0] {
            EntryStep::Failed(eof, msg) => Err(FailureView::Read(eof, msg)),
            EntryStep::Field(e) => match field_of(e) {
                Err(t) => Err(FailureView::Text(t)),
                Ok(f) => match collect_fields(steps.drop_first()) {
                    Ok(rest) => Ok(seq![(e.name, f)] + rest),
                    Err(x) => Err(x),
                },
            },
        }
    }
}

/// `done` followed by what the rest collects.
pub open spec fn after(
    done: Seq<(Seq<char>, FormFieldView)>,
    rest: Result<Seq<(Seq<char>, FormFieldView)>, FailureView>,
) -> Result<Seq<(Seq<char>, FormFieldView)>, FailureView> {
    match rest {
        Ok(r) => Ok(done + r),
        Err(x) => Err(x),
    }
}

/// Counts kept while a form is read.
pub struct MultipartTally {
    pub total_bytes: usize,
    pub file_count: usize,
    pub text_field_count: usize,
    pub content_types: Vec<String>,
}

pub struct TallyView {
    pub total_bytes: nat,
    pub file_count: nat,
    pub text_field_count: nat,
    pub content_types: Seq<Seq<char>>,
}

impl View for MultipartTally {
    type V = TallyView;

    open spec fn view(&self) -> TallyView {
        TallyView {
            total_bytes: self.total_bytes as nat,
            file_count: self.file_count as nat,
            text_field_count: self.text_field_count as nat,
            content_types: views_of_strings(self.content_types@),
        }
    }
}

pub open spec fn views_of_strings(v: Seq<String>) -> Seq<Seq<char>> {
    v.map_values(|s: String| s@)
}

/// The counts after one more field: its bytes (of the data, or of the text
/// as UTF-8), one more file or text field, and a file's content type.
pub open spec fn tally_step(t: TallyView, f: FormFieldView) -> TallyView {
    match f {
        FormFieldView::File { filename, content_type, data } => TallyView {
            total_bytes: t.total_bytes + data.len(),
            file_count: t.file_count + 1,
            content_types: t.content_types.push(content_type),
            ..t
        },
        FormFieldView::Text(text) => TallyView {
            total_bytes: t.total_bytes + vstd::utf8::encode_utf8(text).len(),
            text_field_count: t.text_field_count + 1,
            ..t
        },
    }
}

/// The counts for the fields read: bytes of all fields, files, text fields,
/// and the content types of the files in order.
pub open spec fn tally_of(fields: Seq<(Seq<char>, FormFieldView)>) -> TallyView
    decreases fields.len(),
{
    if fields.len() == 0 {
        TallyView { total_bytes: 0, file_count: 0, text_field_count: 0, content_types: seq![] }
    } else {
        tally_step(tally_of(fields.drop_last()), fields.last().1)
    }
}

/// The sum of the three counters, which each field raises by its data's
/// length and one.
pub open spec fn tally_weight(t: TallyView) -> nat {
    t.total_bytes + t.file_count + t.text_field_count
}

proof fn lemma_steps_cost(s: Seq<EntryStep>)
    requires
        s.len() > 0,
    ensures
        steps_cost(s) == (match s[0] {
            EntryStep::Field(e) => e.data.len() + 1,
            EntryStep::Failed(_, _) => 0,
        }) + steps_cost(s.drop_first()),
{
}

/// Adds one entry read from a body to the form and the counts: under its
/// name, the field `field_of` makes of it (replacing an earlier field of that
/// name). An entry whose text is not UTF-8 changes nothing and gives the
/// failure.
pub fn add_entry(
    fields: &mut FormMap<FormField>,
    tally: &mut MultipartTally,
    entry: RawEntry,
) -> (r: Result<(), MultipartFailure>)
    requires
        tally_weight(old(tally)@) + entry@.data.len() + 1 <= usize::MAX,
    ensures
        match field_of(entry@) {
            Ok(f) => {
                &&& r is Ok
                &&& final(fields)@ == old(fields)@.insert(entry@.name, f)
                &&& final(tally)@ == tally_step(old(tally)@, f)
                &&& tally_weight(final(tally)@) == tally_weight(old(tally)@) + entry@.data.len() + 1
            },
            Err(t) => {
                &&& r matches Err(e) && e@ == FailureView::Text(t)
                &&& final(fields)@ == old(fields)@
                &&& final(tally)@ == old(tally)@
            },
        },
{
    let RawEntry { name, filename, content_type, data } = entry;
    let field = match filename {
        Some(f) => {
            let ct = match content_type {
                Some(c) => c,
                None => "application/octet-stream".to_string(),
            };
            tally.file_count = tally.file_count + 1;
            tally.total_bytes = tally.total_bytes + data.len();
            let ghost old_types = tally.content_types@;
            tally.content_types.push(ct.clone());
            assert(views_of_strings(tally.content_types@) =~= views_of_strings(old_types).push(ct@));
            FormField::File { filename: f, content_type: ct, data }
        },
        None => {
            let ghost bytes = data@;
            match owned_text(data) {
                Ok(text) => {
                    proof {
                        vstd::utf8::decode_utf8_encode_utf8(bytes);
                    }
                    tally.text_field_count = tally.text_field_count + 1;
                    tally.total_bytes = tally.total_bytes + text.as_str().len();
                    FormField::Text(text)
                },
                Err(message) => {
                    return Err(MultipartFailure::Text { message });
                },
            }
        },
    };
    fields.insert(name, field);
    Ok(())
}

/// Entries read as the steps of a body that has no failed read.
pub open spec fn field_steps(entries: Seq<EntryView>) -> Seq<EntryStep> {
    entries.map_values(|e: EntryView| EntryStep::Field(e))
}

pub open spec fn entry_views(entries: Seq<RawEntry>) -> Seq<EntryView> {
    entries.map_values(|e: RawEntry| e@)
}

/// The form and the counts that entries read give, in order, or the first
/// failure (an entry whose text is not UTF-8).
pub fn collect_entries(entries: Vec<RawEntry>) -> (r: Result<
    (FormMap<FormField>, MultipartTally),
    MultipartFailure,
>)
    requires
        steps_cost(field_steps(entry_views(entries@))) <= usize::MAX,
    ensures
        match collect_fields(field_steps(entry_views(entries@))) {
            Ok(fields) => r matches Ok((m, t)) && m@ == map_of(fields) && t@ == tally_of(fields),
            Err(f) => r matches Err(e) && e@ == f,
        },
{
    let ghost all = field_steps(entry_views(entries@));
    let ghost start = entries@;
    let mut rest = entries;
    let mut fields: FormMap<FormField> = FormMap::new();
    let mut tally = MultipartTally {
        total_bytes: 0,
        file_count: 0,
        text_field_count: 0,
        content_types: Vec::new(),
    };
    let ghost mut done: Seq<(Seq<char>, FormFieldView)> = seq![];
    assert(after(done, collect_fields(all)) == collect_fields(all)) by {
        match collect_fields(all) {
            Ok(r) => assert(done + r =~= r),
            Err(_) => {},
        }
    }
    assert(views_of_strings(tally.content_types@) =~= Seq::<Seq<char>>::empty());
    while rest.len() > 0
        invariant
            all == field_steps(entry_views(start)),
            start == entries@,
            collect_fields(all) == after(done, collect_fields(field_steps(entry_views(rest@)))),
            fields@ == map_of(done),
            tally@ == tally_of(done),
            tally_weight(tally@) + steps_cost(field_steps(entry_views(rest@))) <= usize::MAX,
        decreases rest.len(),
    {
        let ghost pend = field_steps(entry_views(rest@));
        let entry = rest.remove(0);
        let ghost ev = entry@;
        proof {
            lemma_steps_cost(pend);
            assert(pend[0] == EntryStep::Field(ev));
            assert(pend.drop_first() =~= field_steps(entry_views(rest@)));
        }
        match add_entry(&mut fields, &mut tally, entry) {
            Ok(()) => {
                proof {
                    let f = field_of(ev)->Ok_0;
                    let pair = (ev.name, f);
                    let more = collect_fields(pend.drop_first());
                    assert(after(done, collect_fields(pend)) == after(done.push(pair), more)) by {
                        match more {
                            Ok(m) => assert(done + (seq![pair] + m) =~= done.push(pair) + m),
                            Err(_) => {},
                        }
                    }
                    assert(done.push(pair).drop_last() =~= done);
                    done = done.push(pair);
                }
            },
            Err(e) => {
                assert(collect_fields(pend) == Err::<Seq<(Seq<char>, FormFieldView)>, FailureView>(e@));
                return Err(e);
            },
        }
    }
    assert(field_steps(entry_views(rest@)) =~= Seq::<EntryStep>::empty());
    assert(done + Seq::<(Seq<char>, FormFieldView)>::empty() =~= done);
    Ok((fields, tally))
}

/// Reads the fields of a multipart body, with the counts kept on the way.
pub fn parse_multipart_with_tally(body: &[u8], boundary: &str) -> (r: Result<
    (FormMap<FormField>, MultipartTally),
    MultipartFailure,
>)
    ensures
        match collect_fields(multipart_steps(body@, boundary@)) {
            Ok(fields) => r matches Ok((m, t)) && m@ == map_of(fields) && t@ == tally_of(fields),
            Err(f) => r matches Err(e) && e@ == f,
        },
{
    let ghost all = multipart_steps(body@, boundary@);
    assert(body@.len() == body.len());
    let mut reader = open_multipart(body, boundary);
    let mut fields: FormMap<FormField> = FormMap::new();
    let mut tally = MultipartTally {
        total_bytes: 0,
        file_count: 0,
        text_field_count: 0,
        content_types: Vec::new(),
    };
    let ghost mut done: Seq<(Seq<char>, FormFieldView)> = seq![];
    assert(after(done, collect_fields(all)) == collect_fields(all)) by {
        match collect_fields(all) {
            Ok(r) => assert(done + r =~= r),
            Err(_) => {},
        }
    }
    assert(views_of_strings(tally.content_types@) =~= Seq::<Seq<char>>::empty());
    loop
        invariant
            all == multipart_steps(body@, boundary@),
            body@.len() <= usize::MAX,
            pending_steps(reader) is Some,
            collect_fields(all) == after(done, collect_fields(pending_steps(reader).unwrap())),
            fields@ == map_of(done),
            tally@ == tally_of(done),
            tally_weight(tally@) + steps_cost(pending_steps(reader).unwrap()) <= body@.len(),
        decreases pending_steps(reader).unwrap().len(),
    {
        let ghost pend = pending_steps(reader).unwrap();
        match next_entry(&mut reader) {
            Ok(None) => {
                assert(collect_fields(pend) == Ok::<Seq<(Seq<char>, FormFieldView)>, FailureView>(seq![]));
                assert(done + Seq::<(Seq<char>, FormFieldView)>::empty() =~= done);
                return Ok((fields, tally));
            },
            Err(f) => {
                return Err(
                    MultipartFailure::Read { unexpected_eof: f.unexpected_eof, message: f.message },
                );
            },
            Ok(Some(entry)) => {
                let ghost ev = entry@;
                proof {
                    lemma_steps_cost(pend);
                    assert(pend[0] == EntryStep::Field(ev));
                }
                match add_entry(&mut fields, &mut tally, entry) {
                    Ok(()) => {
                        proof {
                            let f = field_of(ev)->Ok_0;
                            let pair = (ev.name, f);
                            let more = collect_fields(pend.drop_first());
                            assert(after(done, collect_fields(pend)) == after(done.push(pair), more)) by {
                                match more {
                                    Ok(m) => assert(done + (seq![pair] + m) =~= done.push(pair) + m),
                                    Err(_) => {},
                                }
                            }
                            assert(done.push(pair).drop_last() =~= done);
                            done = done.push(pair);
                        }
                    },
                    Err(e) => {
                        return Err(e);
                    },
                }
            },
        }
    }
}

/// Reads the fields of a multipart body: a later field of the same name
/// replaces an earlier one.
pub fn parse_multipart(body: &[u8], boundary: &str) -> (r: Result<
    FormMap<FormField>,
    MultipartFailure,
>)
    ensures
        match collect_fields(multipart_steps(body@, boundary@)) {
            Ok(fields) => r matches Ok(m) && m@ == map_of(fields),
            Err(f) => r matches Err(e) && e@ == f,
        },
{
    match parse_multipart_with_tally(body, boundary) {
        Ok((fields, _)) => Ok(fields),
        Err(e) => Err(e),
    }
}

// ---------------------------------------------------------------------------
// The form of a request
// ---------------------------------------------------------------------------

/// A `String` holding `prefix` followed by `rest`.
fn joined_text(prefix: &str, rest: &str) -> (s: String)
    ensures
        s@ == prefix@ + rest@,
{
    let mut v = chars_of(prefix);
    crate::text::push_str(&mut v, rest);
    string_of(v.as_slice())
}

/// The error that a failure to read the form gives: an input that ends too
/// early is a bad request, anything else a multipart error with the
/// failure's text.
pub open spec fn form_failure(f: FailureView) -> ErrorSpec {
    match f {
        FailureView::Read(true, _) => ErrorSpec::BadRequest(
            "Incomplete multipart request: client closed connection prematurely"@,
        ),
        FailureView::Read(false, m) => ErrorSpec::Multipart("Parsing: "@ + m),
        FailureView::Text(m) => ErrorSpec::Multipart("Parsing: "@ + m),
    }
}

/// The fields of a multipart request, or the error that reading them gives.
pub open spec fn multipart_form_of(req: RequestView) -> Result<Map<Seq<char>, FormFieldView>, ErrorSpec> {
    match req.content_type {
        None => Err(ErrorSpec::BadRequest("No Content-Type header"@)),
        Some(ct) => if !starts_with(ct, "multipart/form-data"@) {
            Err(ErrorSpec::BadRequest("Expected multipart/form-data, got "@ + ct))
        } else {
            match boundary_of(ct) {
                Err(b) => Err(ErrorSpec::Multipart("Boundary extraction: "@ + boundary_error_text(b))),
                Ok(bd) => match collect_fields(multipart_steps(req.body, bd)) {
                    Ok(fields) => Ok(map_of(fields)),
                    Err(f) => Err(form_failure(f)),
                },
            }
        },
    }
}

impl HttpRequest {
    /// The fields of a `multipart/form-data` request.
    pub fn parse_multipart(&self) -> (r: Result<FormMap<FormField>, Error>)
        ensures
            match multipart_form_of(self@) {
                Ok(m) => r matches Ok(fields) && fields@ == m,
                Err(es) => r matches Err(e) && error_fits(e, es),
            },
    {
        let ct = match &self.content_type {
            Some(c) => c,
            None => return Err(crate::error::bad_request("No Content-Type header")),
        };
        let chars = chars_of(ct.as_str());
        let prefix = chars_of("multipart/form-data");
        if !has_prefix(chars.as_slice(), prefix.as_slice()) {
            return Err(
                Error::BadRequest(joined_text("Expected multipart/form-data, got ", ct.as_str())),
            );
        }
        let boundary = match extract_boundary(ct.as_str()) {
            Ok(b) => b,
            Err(e) => {
                return Err(
                    Error::MultipartError(joined_text("Boundary extraction: ", e.message())),
                )
            },
        };
        match parse_multipart(self.body.as_slice(), boundary.as_str()) {
            Ok(fields) => Ok(fields),
            Err(MultipartFailure::Read { unexpected_eof, message }) => {
                if unexpected_eof {
                    Err(
                        crate::error::bad_request(
                            "Incomplete multipart request: client closed connection prematurely",
                        ),
                    )
                } else {
                    Err(Error::MultipartError(joined_text("Parsing: ", message.as_str())))
                }
            },
            Err(MultipartFailure::Text { message }) => {
                Err(Error::MultipartError(joined_text("Parsing: ", message.as_str())))
            },
        }
    }
}

} // verus!
