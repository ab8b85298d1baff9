//! Properties that relate several operations of the server.

use crate::domain::{
    all_slug_chars, find_slug, is_slug_char, nav_item_fits, post_url, slug_check, slug_of, slug_shaped,
    NavItem, Post,
};
use crate::multi_exp::{boundary_of, BoundaryError};
use crate::request::{content_type_of, percent_decode_bytes, percent_decoded, query_map};
use crate::route::extension_check;
use crate::route::{accepted, file_of, route_of, upload_effect, RouteView, Submission};
use crate::error::{Error, ErrorSpec};
use crate::response::Response;
use crate::text::{
    all_digits, ascii_lower, decimal, digit_char, digits_value, eq_ignore_ascii_case, find_char,
    has_double_dash, in_class, is_digit, is_whitespace, no_ascii_upper, parse_usize, split_char,
    split_fold, starts_with, trim, trim_by, trim_end_by, trim_start_by, unsigned_digits, CharClass,
};
use vstd::prelude::*;

verus! {

proof fn lemma_decimal_digits(n: nat)
    ensures
        decimal(n).len() > 0,
        all_digits(decimal(n)),
        digits_value(decimal(n)) == n,
    decreases n,
{
    let c = digit_char(n % 10);
    assert(c as u32 == 48 + n % 10) by {
        vstd::utf8::char_u32_cast(c, (48 + n % 10) as u32);
    }
    assert(('0' as u32) == 48);
    assert(((c as u32) - ('0' as u32)) as nat == n % 10);
    if n < 10 {
        assert(decimal(n).drop_last() =~= Seq::<char>::empty());
        assert(decimal(n).last() == c);
        assert(digits_value(decimal(n)) == digits_value(decimal(n).drop_last()) * 10 + ((c as u32) - ('0' as u32)) as nat);
    } else {
        lemma_decimal_digits(n / 10);
        let s = decimal(n / 10);
        assert(decimal(n).drop_last() =~= s);
        assert(decimal(n).last() == c);
        assert((n / 10) * 10 + n % 10 == n) by (nonlinear_arith);
        assert forall|i: int| 0 <= i < decimal(n).len() implies is_digit(#[trigger] decimal(n)[i]) by {
            if i < s.len() {
                assert(decimal(n)[i] == s[i]);
            }
        }
    }
}

/// The length a response announces in `Content-Length` (written with
/// `push_decimal`) reads back, by the request parser's `usize` parsing, as
/// the same number.
pub proof fn lemma_content_length_reads_back(n: usize)
    ensures
        parse_usize(decimal(n as nat)) == Some(n),
{
    lemma_decimal_digits(n as nat);
    let d = decimal(n as nat);
    assert(is_digit(d[0]));
    assert(unsigned_digits(d) == d);
}

/// Posts numbered 1, 2, 3, ... in order.
pub open spec fn numbered(posts: Seq<Post>) -> bool {
    forall|i: int| 0 <= i < posts.len() ==> (#[trigger] posts[i]).id == i + 1
}

/// An upload keeps the posts numbered by their position.
pub proof fn lemma_upload_keeps_numbering(
    sub: Result<Submission, ErrorSpec>,
    before: Seq<Post>,
    after: Seq<Post>,
    r: Result<Response, Error>,
)
    requires
        numbered(before),
        upload_effect(sub, before, after, r),
    ensures
        numbered(after),
{
    if accepted(sub) is Ok {
        assert forall|i: int| 0 <= i < after.len() implies (#[trigger] after[i]).id == i + 1 by {
            if i < before.len() {
                assert(after[i] == after.take(before.len() as int)[i]);
            }
        }
    }
}

/// A post that an accepted upload adds under a slug no other post has is the
/// one its page shows (at `/post/<slug>` and at `/posts/<slug>`), and the
/// image it brought is what its file address serves, under the image's name.
pub proof fn lemma_upload_is_served(
    sub: Result<Submission, ErrorSpec>,
    before: Seq<Post>,
    after: Seq<Post>,
    r: Result<Response, Error>,
)
    requires
        upload_effect(sub, before, after, r),
        accepted(sub) is Ok,
        forall|i: int| 0 <= i < before.len() ==> (#[trigger] before[i]).slug@ != slug_of(accepted(sub)->Ok_0.title),
    ensures
        ({
            let s = accepted(sub)->Ok_0;
            let slug = slug_of(s.title);
            &&& route_of("GET"@, post_url(slug)) == RouteView::Post(slug)
            &&& route_of("GET"@, "/posts/"@ + slug) == RouteView::Post(slug)
            &&& find_slug(after, slug) == Some(before.len() as int)
            &&& s.image matches Some(img) ==> file_of("/file/"@ + slug, after) == Ok::<(Seq<u8>, Seq<char>), ErrorSpec>((img.1, img.0))
        }),
{
    let s = accepted(sub)->Ok_0;
    let slug = slug_of(s.title);
    crate::domain::lemma_slug_passes_validation(crate::text::lowercase(s.title));
    assert forall|i: int| 0 <= i < before.len() implies (#[trigger] after[i]).slug@ != slug by {
        assert(after[i] == after.take(before.len() as int)[i]);
    }
    crate::domain::lemma_find_slug(after, slug, before.len() as int);
    reveal_strlit("GET");
    reveal_strlit("POST");
    reveal_strlit("/");
    reveal_strlit("/post/");
    reveal_strlit("/posts/");
    reveal_strlit("/upload");
    reveal_strlit("/file/");
    reveal_strlit("/static/");
    let u = post_url(slug);
    assert(!starts_with(u, "/posts/"@)) by {
        if u.len() >= 7 {
            assert(u.take(7)[5] == '/');
        }
    }
    assert(u != "/upload"@) by {
        assert(u[1] == 'p');
    }
    let v = "/posts/"@ + slug;
    assert(v.take(7) =~= "/posts/"@);
    assert(v.skip(7) =~= slug);
    assert(v != "/"@ && v != "/upload"@) by {
        assert(v.len() > 7);
    }
    assert(!starts_with(v, "/static/"@)) by {
        if v.len() >= 8 {
            assert(v.take(8)[1] == 'p');
        }
    }
    assert(u.take(6) =~= "/post/"@);
    assert(u.skip(6) =~= slug);
    assert(u != "/"@) by {
        assert(u.len() > 1);
    }
    assert(!starts_with(u, "/static/"@)) by {
        if u.len() >= 8 {
            assert(u.take(8)[1] == 'p');
        }
    }
    let f = "/file/"@ + slug;
    assert(f.take(6) =~= "/file/"@);
    assert(f.skip(6) =~= slug);
}

/// Every post has a slug that `validate_slug` accepts.
pub open spec fn slugs_valid(posts: Seq<Post>) -> bool {
    forall|i: int| 0 <= i < posts.len() ==> slug_check((#[trigger] posts[i]).slug@) is None
}

/// An upload keeps every post's slug valid: a post is only added under a
/// slug that `validate_slug` accepts.
pub proof fn lemma_upload_keeps_slugs_valid(
    sub: Result<Submission, ErrorSpec>,
    before: Seq<Post>,
    after: Seq<Post>,
    r: Result<Response, Error>,
)
    requires
        slugs_valid(before),
        upload_effect(sub, before, after, r),
    ensures
        slugs_valid(after),
{
    if accepted(sub) is Ok {
        assert forall|i: int| 0 <= i < after.len() implies slug_check((#[trigger] after[i]).slug@) is None by {
            if i < before.len() {
                assert(after[i] == after.take(before.len() as int)[i]);
            }
        }
    }
}

/// On the page of the post with slug `s`, a navigation entry is marked
/// current exactly when it leads to a post with that slug.
pub proof fn lemma_nav_marks_shown_post(item: NavItem, post: Post, i: int, s: Seq<char>)
    requires
        nav_item_fits(item, post, i, post_url(s)),
    ensures
        item.is_current <==> post.slug@ == s,
{
    reveal_strlit("/post/");
    if post_url(s) == post_url(post.slug@) {
        assert(post_url(s).skip(6) =~= s);
        assert(post_url(post.slug@).skip(6) =~= post.slug@);
    }
}

// ---------------------------------------------------------------------------
// Headers
// ---------------------------------------------------------------------------

/// Header names are matched without regard to ASCII case: a last header
/// whose name, ASCII-lowercased, is `content-type` gives the request's
/// content type, whatever the case it was written in; a last header with any
/// other name leaves the content type as the headers before it give it.
pub proof fn lemma_content_type_name_ignores_case(
    hs: Seq<(Seq<char>, Seq<char>)>,
    n: Seq<char>,
    v: Seq<char>,
)
    ensures
        n.map_values(|c: char| ascii_lower(c)) == "content-type"@ ==> content_type_of(
            hs.push((n, v)),
        ) == Some(v),
        n.map_values(|c: char| ascii_lower(c)) != "content-type"@ ==> content_type_of(
            hs.push((n, v)),
        ) == content_type_of(hs),
{
    reveal_strlit("content-type");
    let t = "content-type"@;
    let l = n.map_values(|c: char| ascii_lower(c));
    assert(hs.push((n, v)).drop_last() =~= hs);
    assert forall|i: int| 0 <= i < t.len() implies #[trigger] ascii_lower(t[i]) == t[i] by {
        assert(t[i] == '-' || ('a' <= t[i] && t[i] <= 'z'));
    }
    if l == t {
        assert forall|i: int| 0 <= i < n.len() implies ascii_lower(n[i]) == ascii_lower(#[trigger] t[i]) by {
            assert(l[i] == ascii_lower(n[i]));
        }
        assert(eq_ignore_ascii_case(n, t));
    } else if eq_ignore_ascii_case(n, t) {
        assert forall|i: int| 0 <= i < l.len() implies #[trigger] l[i] == t[i] by {
            assert(ascii_lower(n[i]) == ascii_lower(t[i]));
        }
        assert(l =~= t);
    }
}

// ---------------------------------------------------------------------------
// Slugs
// ---------------------------------------------------------------------------

/// Every ASCII lowercase letter and every ASCII digit stays in a slug: a
/// title that is one word of them, of 1 to 50 characters, is its own slug.
pub proof fn lemma_alnum_word_is_its_slug(w: Seq<char>)
    requires
        1 <= w.len() <= 50,
        forall|i: int| 0 <= i < w.len() ==> ('a' <= #[trigger] w[i] && w[i] <= 'z') || ('0' <= w[i] && w[i] <= '9'),
    ensures
        slug_of(w) == w,
{
    assert(all_slug_chars(w));
    assert(!has_double_dash(w)) by {
        if has_double_dash(w) {
            let i = choose|i: int| 0 <= i < w.len() - 1 && w[i] == '-' && #[trigger] w[i + 1] == '-';
            assert(w[i] == '-');
        }
    }
    assert(w[0] != '-' && w[w.len() - 1] != '-');
    assert(slug_shaped(w));
    assert(no_ascii_upper(w));
    crate::domain::lemma_slug_is_fixed(w);
}

/// `validate_slug` accepts every text of 3 to 50 ASCII letters and digits.
pub proof fn lemma_alnum_text_is_valid_slug(s: Seq<char>)
    requires
        3 <= s.len() <= 50,
        forall|i: int| 0 <= i < s.len() ==> ('a' <= #[trigger] s[i] && s[i] <= 'z') || ('A' <= s[i] && s[i] <= 'Z') || ('0' <= s[i] && s[i] <= '9'),
    ensures
        slug_check(s) is None,
{
    assert(all_slug_chars(s));
    crate::domain::lemma_slug_chars_ascii(s);
    assert(!has_double_dash(s)) by {
        if has_double_dash(s) {
            let i = choose|i: int| 0 <= i < s.len() - 1 && s[i] == '-' && #[trigger] s[i + 1] == '-';
            assert(s[i] == '-');
        }
    }
    assert(s[0] != '-' && s.last() != '-') by {
        assert(s.last() == s[s.len() - 1]);
    }
    assert(!(exists|i: int| 0 <= i < s.len() && !is_slug_char(#[trigger] s[i])));
}

// ---------------------------------------------------------------------------
// Splitting
// ---------------------------------------------------------------------------

/// Splitting `x + y` where `y` has no separator: `y` extends the last piece.
proof fn lemma_split_fold_append(x: Seq<char>, y: Seq<char>, c: char)
    requires
        !y.contains(c),
    ensures
        split_fold(x + y, c) == (split_fold(x, c).0, split_fold(x, c).1 + y),
    decreases y.len(),
{
    if y.len() == 0 {
        assert(x + y =~= x);
        assert(split_fold(x, c).1 + y =~= split_fold(x, c).1);
    } else {
        let y0 = y.drop_last();
        assert(!y0.contains(c)) by {
            if y0.contains(c) {
                let j = choose|j: int| 0 <= j < y0.len() && y0[j] == c;
                assert(y[j] == c);
            }
        }
        lemma_split_fold_append(x, y0, c);
        assert((x + y).drop_last() =~= x + y0);
        assert((x + y).last() == y[y.len() - 1]);
        assert(y[y.len() - 1] != c);
        assert((split_fold(x, c).1 + y0).push(y.last()) =~= split_fold(x, c).1 + y);
    }
}

/// A text without the separator is one piece.
proof fn lemma_split_char_none(s: Seq<char>, c: char)
    requires
        !s.contains(c),
    ensures
        split_char(s, c) == seq![s],
{
    lemma_split_fold_append(seq![], s, c);
    assert(Seq::<char>::empty() + s =~= s);
    assert(Seq::<char>::empty() + s =~= s);
    assert(split_char(s, c) =~= seq![s]);
}

/// A text with one separator is two pieces.
proof fn lemma_split_char_one(a: Seq<char>, b: Seq<char>, c: char)
    requires
        !a.contains(c),
        !b.contains(c),
    ensures
        split_char(a + seq![c] + b, c) == seq![a, b],
{
    lemma_split_fold_append(seq![], a, c);
    assert(Seq::<char>::empty() + a =~= a);
    let ac = a.push(c);
    assert(ac.drop_last() =~= a);
    assert(split_fold(ac, c) == (seq![a], Seq::<char>::empty())) by {
        assert(Seq::<Seq<char>>::empty().push(a) =~= seq![a]);
    }
    lemma_split_fold_append(ac, b, c);
    assert(a + seq![c] + b =~= ac + b);
    assert(Seq::<char>::empty() + b =~= b);
    assert(split_char(a + seq![c] + b, c) =~= seq![a, b]);
}

/// The first `c` of `a + [c] + b`, when `a` has none, is at `a.len()`.
proof fn lemma_find_char_after(a: Seq<char>, b: Seq<char>, c: char)
    requires
        !a.contains(c),
    ensures
        find_char(a + seq![c] + b, c) == Some(a.len() as int),
    decreases a.len(),
{
    let s = a + seq![c] + b;
    if a.len() == 0 {
        assert(s[0] == c);
    } else {
        let a1 = a.drop_first();
        assert(!a1.contains(c)) by {
            if a1.contains(c) {
                let j = choose|j: int| 0 <= j < a1.len() && a1[j] == c;
                assert(a[j + 1] == c);
            }
        }
        lemma_find_char_after(a1, b, c);
        assert(s.drop_first() =~= a1 + seq![c] + b);
        assert(s[0] == a[0]);
        assert(a[0] != c);
    }
}

// ---------------------------------------------------------------------------
// Boundaries
// ---------------------------------------------------------------------------

/// The boundary is the `boundary=` parameter's value as written: for a value
/// with no quote, `;` or whitespace, it is exactly that value, leading dashes
/// and all.
pub proof fn lemma_boundary_is_parameter_value(b: Seq<char>)
    requires
        b.len() > 0,
        !b.contains('"'),
        !b.contains(';'),
        forall|i: int| 0 <= i < b.len() ==> !is_whitespace(#[trigger] b[i]),
    ensures
        boundary_of("multipart/form-data; boundary="@ + b) == Ok::<Seq<char>, BoundaryError>(b),
{
    reveal_strlit("multipart/form-data; boundary=");
    reveal_strlit("multipart/form-data");
    reveal_strlit(" boundary=");
    reveal_strlit("boundary=");
    let a = "multipart/form-data"@;
    let p = " boundary="@ + b;
    assert("multipart/form-data; boundary="@ + b =~= a + seq![';'] + p);
    assert(!a.contains(';')) by {
        if a.contains(';') {
            let j = choose|j: int| 0 <= j < a.len() && a[j] == ';';
            assert(a[j] != ';');
        }
    }
    assert(!p.contains(';')) by {
        if p.contains(';') {
            let j = choose|j: int| 0 <= j < p.len() && p[j] == ';';
            if j >= 10 {
                assert(p[j] == b[j - 10]);
            }
        }
    }
    lemma_split_char_one(a, p, ';');
    let parts = seq![a, p];
    // the first part does not start with `boundary=`
    assert(trim_start_by(a, CharClass::Whitespace) == a) by {
        assert(!is_whitespace(a[0]));
    }
    assert(trim_end_by(a, CharClass::Whitespace) == a) by {
        assert(!is_whitespace(a.last()));
    }
    assert(trim(a) == a);
    assert(!starts_with(a, "boundary="@)) by {
        assert(a.take(9)[0] != "boundary="@[0]);
    }
    assert(parts.drop_first() =~= seq![p]);
    // the second part, trimmed, is `boundary=` followed by the value
    let q = "boundary="@ + b;
    assert(p.drop_first() =~= q);
    assert(!is_whitespace(q[0]));
    assert(trim_start_by(q, CharClass::Whitespace) == q);
    assert(is_whitespace(p[0]));
    assert(trim_start_by(p, CharClass::Whitespace) == q);
    assert(q.last() == b[b.len() - 1]);
    assert(trim_end_by(q, CharClass::Whitespace) == q);
    assert(trim(p) == q);
    assert(q.take(9) =~= "boundary="@);
    assert(q.skip(9) =~= b);
    // the value loses no quote and no whitespace
    assert(b.last() == b[b.len() - 1]);
    assert(!in_class(CharClass::Quote, b[0])) by {
        if b[0] == '"' {
            assert(b.contains('"'));
        }
    }
    assert(!in_class(CharClass::Quote, b.last())) by {
        if b.last() == '"' {
            assert(b[b.len() - 1] == '"');
            assert(b.contains('"'));
        }
    }
    assert(trim_start_by(b, CharClass::Quote) == b);
    assert(trim_end_by(b, CharClass::Quote) == b);
    assert(trim_by(b, CharClass::Quote) == b);
    assert(trim_start_by(b, CharClass::Whitespace) == b);
    assert(trim_end_by(b, CharClass::Whitespace) == b);
    assert(trim(b) == b);
    assert(starts_with(q, "boundary="@));
    assert(crate::multi_exp::boundary_in(seq![p]) == Ok::<Seq<char>, BoundaryError>(b));
    assert(parts[0] == a);
    assert(crate::multi_exp::boundary_in(parts) == crate::multi_exp::boundary_in(parts.drop_first()));
}

// ---------------------------------------------------------------------------
// Images
// ---------------------------------------------------------------------------

/// A PNG of at most 10 MiB (10 * 1024 * 1024 bytes) that starts with the PNG
/// signature passes the image check.
pub proof fn lemma_png_within_limit_is_accepted(data: Seq<u8>)
    requires
        8 <= data.len() <= 10 * 1024 * 1024,
        data[0] == 137 && data[1] == 80 && data[2] == 78 && data[3] == 71,
        data[4] == 13 && data[5] == 10 && data[6] == 26 && data[7] == 10,
    ensures
        extension_check(data, "png"@) is None,
{
    reveal_strlit("png");
    reveal_strlit("jpg");
    reveal_strlit("jpeg");
    assert(data.take(8) =~= crate::route::png_signature());
}

/// A JPEG of at most 10 MiB that starts with the JPEG signature passes the
/// image check, under either of its extensions.
pub proof fn lemma_jpeg_within_limit_is_accepted(data: Seq<u8>, ext: Seq<char>)
    requires
        8 <= data.len() <= 10 * 1024 * 1024,
        ext == "jpg"@ || ext == "jpeg"@,
        data[0] == 255 && data[1] == 216,
    ensures
        extension_check(data, ext) is None,
{
    reveal_strlit("png");
    reveal_strlit("jpg");
    reveal_strlit("jpeg");
    assert(ext != "png"@) by {
        if ext == "jpg"@ {
            assert(ext[0] != "png"@[0]);
        } else {
            assert(ext.len() != "png"@.len());
        }
    }
    assert(data.take(2) =~= crate::route::jpeg_signature());
}

/// Only data over 10 MiB is refused for its size, whatever its extension.
pub proof fn lemma_size_limit_is_ten_mib(data: Seq<u8>, ext: Seq<char>)
    requires
        data.len() > 10 * 1024 * 1024,
    ensures
        extension_check(data, ext) == Some("Max file size: 10 mb"@),
{
}

// ---------------------------------------------------------------------------
// Query strings
// ---------------------------------------------------------------------------

/// Bytes without `%` are left as they are by percent-decoding.
proof fn lemma_percent_decode_plain(b: Seq<u8>)
    requires
        forall|i: int| 0 <= i < b.len() ==> #[trigger] b[i] != 0x25u8,
    ensures
        percent_decode_bytes(b) == b,
    decreases b.len(),
{
    if b.len() > 0 {
        let r = b.drop_first();
        assert forall|i: int| 0 <= i < r.len() implies #[trigger] r[i] != 0x25u8 by {
            assert(r[i] == b[i + 1]);
        }
        lemma_percent_decode_plain(r);
        assert(b[0] != 0x25u8);
        assert(seq![b[0]] + r =~= b);
    }
}

/// No byte of the UTF-8 encoding of a character other than `%` is `%`.
proof fn lemma_scalar_not_percent(v: u32)
    requires
        v != 0x25,
    ensures
        forall|i: int| 0 <= i < vstd::utf8::encode_scalar(v).len() ==> #[trigger] vstd::utf8::encode_scalar(v)[i] != 0x25u8,
{
    let e = vstd::utf8::encode_scalar(v);
    if vstd::utf8::has_width_1_encoding(v) {
        assert((v & 0x7F) as u8 != 0x25u8) by (bit_vector)
            requires
                v <= 0x7F,
                v != 0x25,
        ;
    } else {
        assert((0xC0u8 | ((v >> 6) & 0x1F) as u8) != 0x25u8) by (bit_vector);
        assert((0xE0u8 | ((v >> 12) & 0x0F) as u8) != 0x25u8) by (bit_vector);
        assert((0xF0u8 | ((v >> 18) & 0x7) as u8) != 0x25u8) by (bit_vector);
        assert((0x80u8 | (v & 0x3F) as u8) != 0x25u8) by (bit_vector);
        assert((0x80u8 | ((v >> 6) & 0x3F) as u8) != 0x25u8) by (bit_vector);
        assert((0x80u8 | ((v >> 12) & 0x3F) as u8) != 0x25u8) by (bit_vector);
    }
}

proof fn lemma_encoding_not_percent(s: Seq<char>)
    requires
        !s.contains('%'),
    ensures
        forall|i: int| 0 <= i < vstd::utf8::encode_utf8(s).len() ==> #[trigger] vstd::utf8::encode_utf8(s)[i] != 0x25u8,
    decreases s.len(),
{
    if s.len() > 0 {
        let r = s.drop_first();
        assert(!r.contains('%')) by {
            if r.contains('%') {
                let j = choose|j: int| 0 <= j < r.len() && r[j] == '%';
                assert(s[j + 1] == '%');
            }
        }
        lemma_encoding_not_percent(r);
        assert(s[0] != '%');
        assert((s[0] as u32) != 0x25) by {
            vstd::utf8::char_u32_cast(s[0], s[0] as u32);
            assert(('%' as u32) == 0x25);
        }
        lemma_scalar_not_percent(s[0] as u32);
        let h = vstd::utf8::encode_scalar(s[0] as u32);
        let t = vstd::utf8::encode_utf8(r);
        let e = vstd::utf8::encode_utf8(s);
        assert(e == h + t);
        assert forall|i: int| 0 <= i < e.len() implies #[trigger] e[i] != 0x25u8 by {
            if i < h.len() {
                assert(e[i] == h[i]);
            } else {
                assert(e[i] == t[i - h.len()]);
            }
        }
    }
}

/// A component without `%` decodes to itself.
proof fn lemma_decoded_plain(s: Seq<char>)
    requires
        !s.contains('%'),
    ensures
        percent_decoded(s) == s,
{
    lemma_encoding_not_percent(s);
    lemma_percent_decode_plain(vstd::utf8::encode_utf8(s));
    vstd::utf8::encode_utf8_valid_utf8(s);
    vstd::utf8::encode_utf8_decode_utf8(s);
}

/// Query keys and values are kept as written: a query `k=v`, with no `&` or
/// `%` in either and no `=` in the key, gives exactly the parameter `k` with
/// the value `v`, in the case and spelling of the query.
pub proof fn lemma_query_pair_kept_as_written(k: Seq<char>, v: Seq<char>)
    requires
        !k.contains('&'),
        !k.contains('='),
        !k.contains('%'),
        !v.contains('&'),
        !v.contains('%'),
    ensures
        query_map(k + seq!['='] + v) == Map::<Seq<char>, Seq<char>>::empty().insert(k, v),
{
    let s = k + seq!['='] + v;
    assert(!s.contains('&')) by {
        if s.contains('&') {
            let j = choose|j: int| 0 <= j < s.len() && s[j] == '&';
            if j < k.len() {
                assert(k[j] == '&');
            } else if j > k.len() {
                assert(v[j - k.len() - 1] == '&');
            }
        }
    }
    lemma_split_char_none(s, '&');
    lemma_find_char_after(k, v, '=');
    assert(s.take(k.len() as int) =~= k);
    assert(s.skip(k.len() as int + 1) =~= v);
    lemma_decoded_plain(k);
    lemma_decoded_plain(v);
    let ps = seq![s];
    assert(ps.drop_last() =~= Seq::<Seq<char>>::empty());
    assert(s.len() > 0);
    let pairs = seq![(k, v)];
    assert(crate::text::split_once(s, '=') == Some((k, v)));
    assert(crate::request::query_pair(s) == (k, v));
    assert(crate::request::query_pairs(ps.drop_last()) == Seq::<(Seq<char>, Seq<char>)>::empty());
    assert(ps.last() == s);
    assert(crate::request::query_pairs(ps) == Seq::<(Seq<char>, Seq<char>)>::empty().push((k, v)));
    assert(Seq::<(Seq<char>, Seq<char>)>::empty().push((k, v)) =~= pairs);
    assert(pairs.drop_last() =~= Seq::<(Seq<char>, Seq<char>)>::empty());
    assert(crate::form::map_of(pairs) == crate::form::map_of(pairs.drop_last()).insert(k, v));
    assert(split_char(s, '&') == ps);
}

} // verus!
