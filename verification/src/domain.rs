//! Posts, slugs, navigation and the page models of the blog.

use crate::error::{is_validation_error, Error};
use crate::text::{
    append_chars, ascii_alnum, chars_of, contains_double_dash, copy_range, decimal,
    has_double_dash, in_class, is_ascii_alnum, is_whitespace, lowercase, no_ascii_upper, push_decimal, same_text, str_len,
    string_of, to_lowercase, trim_by, trim_class, trim_end_by, trim_end_class, trim_start_by,
    views, words, words_fold, words_of, ascii_lower, CharClass,
};
use vstd::prelude::*;

verus! {

// ============= SLUGS =============

/// The characters a slug may hold: ASCII letters, digits and `-`.
pub open spec fn is_slug_char(c: char) -> bool {
    is_ascii_alnum(c) || c == '-'
}

/// The words joined with single dashes.
pub open spec fn join_dash(ws: Seq<Seq<char>>) -> Seq<char>
    decreases ws.len(),
{
    if ws.len() == 0 {
        seq![]
    } else if ws.len() == 1 {
        ws[0]
    } else {
        join_dash(ws.drop_last()) + seq!['-'] + ws.last()
    }
}

/// The slug characters of `s`, in order.
pub open spec fn keep_slug_chars(s: Seq<char>) -> Seq<char>
    decreases s.len(),
{
    if s.len() == 0 {
        seq![]
    } else if is_slug_char(s.last()) {
        keep_slug_chars(s.drop_last()).push(s.last())
    } else {
        keep_slug_chars(s.drop_last())
    }
}

/// `s` with every run of dashes replaced by a single dash.
pub open spec fn collapse_dashes(s: Seq<char>) -> Seq<char>
    decreases s.len(),
{
    if s.len() == 0 {
        seq![]
    } else {
        let r = collapse_dashes(s.drop_last());
        if s.last() == '-' && r.len() > 0 && r.last() == '-' {
            r
        } else {
            r.push(s.last())
        }
    }
}

/// The first three words of `s` (all of them when there are fewer).
pub open spec fn first_words(s: Seq<char>) -> Seq<Seq<char>> {
    let ws = words(s);
    if ws.len() > 3 {
        ws.take(3)
    } else {
        ws
    }
}

/// The longest a slug gets.
pub const MAX_SLUG_LEN: usize = 50;

/// The slug made from an already lowercased title: its first three words
/// joined by dashes, reduced to ASCII letters, digits and single dashes,
/// without dashes at either end, cut to 50 characters (and any dash then at
/// the end dropped); `"post"` when nothing is left.
pub open spec fn slug_from(lower: Seq<char>) -> Seq<char> {
    let t = trim_by(collapse_dashes(keep_slug_chars(join_dash(first_words(lower)))), CharClass::Dash);
    if t.len() == 0 {
        "post"@
    } else if t.len() > 50 {
        trim_end_by(t.take(50), CharClass::Dash)
    } else {
        t
    }
}

/// The slug of a title: `slug_from` of what `to_lowercase` makes of it.
pub open spec fn slug_of(text: Seq<char>) -> Seq<char> {
    slug_from(lowercase(text))
}

/// What `validate_slug` answers: `None` when `s` is valid, else the message
/// of the first rule it breaks. The length rule counts UTF-8 bytes.
pub open spec fn slug_check(s: Seq<char>) -> Option<Seq<char>> {
    if s.len() == 0 {
        Some("Slug empty"@)
    } else if str_len(s) < 3 || str_len(s) > 50 {
        Some("Slug length error"@)
    } else if s[0] == '-' || s.last() == '-' {
        Some("Slug start/end contains '-'"@)
    } else if has_double_dash(s) {
        Some("Slug contains '--'"@)
    } else if exists|i: int| 0 <= i < s.len() && !is_slug_char(#[trigger] s[i]) {
        Some("Slug grammar is not correct"@)
    } else {
        None
    }
}

fn is_slug_character(c: char) -> (b: bool)
    ensures
        b == is_slug_char(c),
{
    ascii_alnum(c) || c == '-'
}

/// Joins the first three words with dashes.
fn join_first_words(ws: &Vec<Vec<char>>) -> (r: Vec<char>)
    ensures
        r@ == join_dash(if views(ws@).len() > 3 { views(ws@).take(3) } else { views(ws@) }),
{
    let n: usize = if ws.len() > 3 { 3 } else { ws.len() };
    let ghost all = views(ws@);
    let mut r: Vec<char> = Vec::new();
    let mut k: usize = 0;
    assert(all.take(0) =~= Seq::<Seq<char>>::empty());
    while k < n
        invariant
            n <= ws@.len(),
            all == views(ws@),
            k <= n,
            r@ == join_dash(all.take(k as int)),
        decreases n - k,
    {
        assert(all.take(k + 1).drop_last() =~= all.take(k as int));
        assert(all.take(k + 1).last() == ws@[k as int]@);
        if k > 0 {
            r.push('-');
        }
        append_chars(&mut r, ws[k].as_slice());
        if k == 0 {
            assert(r@ =~= all.take(1)[0]);
        }
        k = k + 1;
    }
    if ws.len() <= 3 {
        assert(all.take(n as int) =~= all);
    }
    r
}

fn keep_slug_characters(v: &[char]) -> (r: Vec<char>)
    ensures
        r@ == keep_slug_chars(v@),
{
    let mut r: Vec<char> = Vec::new();
    let mut i: usize = 0;
    assert(v@.take(0) =~= Seq::<char>::empty());
    while i < v.len()
        invariant
            i <= v@.len(),
            r@ == keep_slug_chars(v@.take(i as int)),
        decreases v.len() - i,
    {
        assert(v@.take(i + 1).drop_last() =~= v@.take(i as int));
        if is_slug_character(v[i]) {
            r.push(v[i]);
        }
        i = i + 1;
    }
    assert(v@.take(v@.len() as int) =~= v@);
    r
}

fn collapse_dash_runs(v: &[char]) -> (r: Vec<char>)
    ensures
        r@ == collapse_dashes(v@),
{
    let mut r: Vec<char> = Vec::new();
    let mut i: usize = 0;
    assert(v@.take(0) =~= Seq::<char>::empty());
    while i < v.len()
        invariant
            i <= v@.len(),
            r@ == collapse_dashes(v@.take(i as int)),
        decreases v.len() - i,
    {
        assert(v@.take(i + 1).drop_last() =~= v@.take(i as int));
        let c = v[i];
        if !(c == '-' && r.len() > 0 && r[r.len() - 1] == '-') {
            r.push(c);
        }
        i = i + 1;
    }
    assert(v@.take(v@.len() as int) =~= v@);
    r
}

/// Makes a slug from a title that is already lowercased.
pub fn slug_from_lowercase(lower: &str) -> (r: String)
    ensures
        r@ == slug_from(lower@),
{
    let chars = chars_of(lower);
    let ws = words_of(chars.as_slice());
    let joined = join_first_words(&ws);
    let filtered = keep_slug_characters(joined.as_slice());
    let collapsed = collapse_dash_runs(filtered.as_slice());
    let trimmed = trim_class(collapsed.as_slice(), CharClass::Dash);
    if trimmed.len() == 0 {
        return "post".to_string();
    }
    if trimmed.len() > MAX_SLUG_LEN {
        let cut = copy_range(trimmed.as_slice(), 0, MAX_SLUG_LEN);
        assert(cut@ =~= trimmed@.take(50));
        let t = trim_end_class(cut.as_slice(), CharClass::Dash);
        return string_of(t.as_slice());
    }
    string_of(trimmed.as_slice())
}

/// Makes a URL slug from a post title. The slug has 1 to 50 characters, all
/// lowercase ASCII letters, digits or single dashes, with no dash at either
/// end; `validate_slug` accepts it exactly when it has at least 3; and the
/// slug of a slug is the slug itself.
pub fn slugify(text: &str) -> (r: String)
    ensures
        r@ == slug_of(text@),
        1 <= r@.len() <= 50,
        slug_shaped(r@),
        no_ascii_upper(r@),
        slug_check(r@) is None <==> r@.len() >= 3,
        slug_of(r@) == r@,
{
    let lower = to_lowercase(text);
    let r = slug_from_lowercase(lower.as_str());
    proof {
        lemma_slug_passes_validation(lower@);
        lemma_slug_keeps_lowercase(lower@);
        lemma_slug_is_fixed(r@);
    }
    r
}

/// An `Error::ValidationError` with the given message.
fn validation_error(m: &str) -> (e: Error)
    ensures
        is_validation_error(e, m@),
{
    Error::ValidationError(m.to_string())
}

/// Checks that `slug` is 3 to 50 bytes of ASCII letters, digits and single
/// dashes, neither starting nor ending with a dash.
pub fn validate_slug(slug: &str) -> (r: Result<(), Error>)
    ensures
        match slug_check(slug@) {
            None => r is Ok,
            Some(m) => r matches Err(e) && is_validation_error(e, m),
        },
{
    let chars = chars_of(slug);
    if slug.is_empty() {
        return Err(validation_error("Slug empty"));
    }
    if slug.len() < 3 || slug.len() > 50 {
        return Err(validation_error("Slug length error"));
    }
    if chars[0] == '-' || chars[chars.len() - 1] == '-' {
        return Err(validation_error("Slug start/end contains '-'"));
    }
    if contains_double_dash(chars.as_slice()) {
        return Err(validation_error("Slug contains '--'"));
    }
    let mut i: usize = 0;
    while i < chars.len()
        invariant
            chars@ == slug@,
            i <= chars@.len(),
            forall|j: int| 0 <= j < i ==> is_slug_char(#[trigger] chars@[j]),
            slug@.len() > 0,
            !(str_len(slug@) < 3 || str_len(slug@) > 50),
            !(slug@[0] == '-' || slug@.last() == '-'),
            !has_double_dash(slug@),
        decreases chars.len() - i,
    {
        if !is_slug_character(chars[i]) {
            return Err(validation_error("Slug grammar is not correct"));
        }
        i = i + 1;
    }
    Ok(())
}

// ============= THE SLUG LAW =============

/// Every character of `s` may stand in a slug.
pub open spec fn all_slug_chars(s: Seq<char>) -> bool {
    forall|i: int| 0 <= i < s.len() ==> is_slug_char(#[trigger] s[i])
}

/// A sequence a valid slug can have the shape of: slug characters only, no
/// two dashes in a row and no dash at either end.
pub open spec fn slug_shaped(s: Seq<char>) -> bool {
    &&& all_slug_chars(s)
    &&& !has_double_dash(s)
    &&& s.len() > 0 ==> s[0] != '-' && s.last() != '-'
}

proof fn lemma_keep_slug_chars(s: Seq<char>)
    ensures
        all_slug_chars(keep_slug_chars(s)),
    decreases s.len(),
{
    if s.len() > 0 {
        lemma_keep_slug_chars(s.drop_last());
    }
}

proof fn lemma_collapse_dashes(s: Seq<char>)
    requires
        all_slug_chars(s),
    ensures
        all_slug_chars(collapse_dashes(s)),
        !has_double_dash(collapse_dashes(s)),
    decreases s.len(),
{
    if s.len() > 0 {
        assert(all_slug_chars(s.drop_last()));
        lemma_collapse_dashes(s.drop_last());
        let r = collapse_dashes(s.drop_last());
        if !(s.last() == '-' && r.len() > 0 && r.last() == '-') {
            let r2 = r.push(s.last());
            assert(all_slug_chars(r2));
            assert forall|i: int| 0 <= i < r2.len() - 1 && r2[i] == '-' implies #[trigger] r2[i
                + 1] != '-' by {
                if i + 1 < r.len() {
                    assert(r[i] == r2[i] && r[i + 1] == r2[i + 1]);
                }
            }
        }
    }
}

/// `trim_start_by` drops a prefix of characters of the class.
proof fn lemma_trim_start(s: Seq<char>, k: CharClass) -> (n: int)
    ensures
        0 <= n <= s.len(),
        trim_start_by(s, k) == s.skip(n),
        n < s.len() ==> !in_class(k, s[n]),
    decreases s.len(),
{
    if s.len() > 0 && in_class(k, s[0]) {
        let m = lemma_trim_start(s.drop_first(), k);
        assert(s.drop_first().skip(m) =~= s.skip(m + 1));
        m + 1
    } else {
        assert(s.skip(0) =~= s);
        0
    }
}

/// `trim_end_by` drops a suffix of characters of the class.
proof fn lemma_trim_end(s: Seq<char>, k: CharClass) -> (n: int)
    ensures
        0 <= n <= s.len(),
        trim_end_by(s, k) == s.take(n),
        n > 0 ==> !in_class(k, s[n - 1]),
        forall|j: int| n <= j < s.len() ==> in_class(k, #[trigger] s[j]),
    decreases s.len(),
{
    if s.len() > 0 && in_class(k, s.last()) {
        let m = lemma_trim_end(s.drop_last(), k);
        assert(s.drop_last().take(m) =~= s.take(m));
        assert forall|j: int| m <= j < s.len() implies in_class(k, #[trigger] s[j]) by {
            if j < s.len() - 1 {
                assert(s[j] == s.drop_last()[j]);
            }
        }
        m
    } else {
        assert(s.take(s.len() as int) =~= s);
        s.len() as int
    }
}

/// A contiguous part of a sequence keeps its slug characters and its lack of "--".
proof fn lemma_subrange_shape(s: Seq<char>, a: int, b: int)
    requires
        0 <= a <= b <= s.len(),
        all_slug_chars(s),
        !has_double_dash(s),
    ensures
        all_slug_chars(s.subrange(a, b)),
        !has_double_dash(s.subrange(a, b)),
{
    let t = s.subrange(a, b);
    assert forall|i: int| 0 <= i < t.len() implies is_slug_char(#[trigger] t[i]) by {
        assert(t[i] == s[a + i]);
    }
    assert forall|i: int| 0 <= i < t.len() - 1 && t[i] == '-' implies #[trigger] t[i + 1] != '-' by {
        assert(t[i] == s[a + i] && t[i + 1] == s[a + i + 1]);
    }
}

/// Slug characters are ASCII, so a slug has as many bytes as characters.
pub(crate) proof fn lemma_slug_chars_ascii(s: Seq<char>)
    requires
        all_slug_chars(s),
    ensures
        vstd::utf8::encode_utf8(s).len() == s.len(),
{
    assert(vstd::utf8::is_ascii_chars(s)) by {
        assert forall|i: int| 0 <= i < s.len() implies '\0' <= #[trigger] s[i] <= '\u{7f}' by {
            assert(is_slug_char(s[i]));
        }
    }
    vstd::utf8::is_ascii_chars_encode_utf8(s);
}

/// The slug of any title passes every rule of `validate_slug` except the
/// minimum length: it has 1 to 50 characters, and `validate_slug` accepts it
/// exactly when it has at least 3.
pub proof fn lemma_slug_passes_validation(lower: Seq<char>)
    ensures
        1 <= slug_from(lower).len() <= 50,
        slug_shaped(slug_from(lower)),
        vstd::utf8::encode_utf8(slug_from(lower)).len() == slug_from(lower).len(),
        slug_check(slug_from(lower)) == (if slug_from(lower).len() >= 3 {
            None::<Seq<char>>
        } else {
            Some("Slug length error"@)
        }),
{
    let f = keep_slug_chars(join_dash(first_words(lower)));
    lemma_keep_slug_chars(join_dash(first_words(lower)));
    let c = collapse_dashes(f);
    lemma_collapse_dashes(f);
    let n1 = lemma_trim_start(c, CharClass::Dash);
    let t1 = trim_start_by(c, CharClass::Dash);
    assert(t1 =~= c.subrange(n1, c.len() as int));
    lemma_subrange_shape(c, n1, c.len() as int);
    let n2 = lemma_trim_end(t1, CharClass::Dash);
    let t = trim_by(c, CharClass::Dash);
    assert(t =~= t1.subrange(0, n2));
    lemma_subrange_shape(t1, 0, n2);
    if t.len() > 0 {
        assert(t[0] == t1[0]);
    }
    let s = slug_from(lower);
    if t.len() == 0 {
        reveal_strlit("post");
        assert(s.len() == 4);
        assert(all_slug_chars(s)) by {
            assert forall|i: int| 0 <= i < s.len() implies is_slug_char(#[trigger] s[i]) by {
                assert(s[i] == 'p' || s[i] == 'o' || s[i] == 's' || s[i] == 't');
            }
        }
        assert(!has_double_dash(s));
    } else if t.len() > 50 {
        let p = t.take(50);
        assert(p =~= t.subrange(0, 50));
        lemma_subrange_shape(t, 0, 50);
        let n3 = lemma_trim_end(p, CharClass::Dash);
        assert(s =~= p.subrange(0, n3));
        lemma_subrange_shape(p, 0, n3);
        assert(p[0] == t[0]);
        if n3 < 49 {
            assert(in_class(CharClass::Dash, p[48]) && in_class(CharClass::Dash, p[49]));
            assert(p[48] == '-' && p[48int + 1] == '-');
            assert(has_double_dash(p));
        }
        assert(n3 >= 49);
        assert(s[0] == p[0]);
    }
    lemma_slug_chars_ascii(s);
    if s.len() >= 3 {
        assert(!(exists|i: int| 0 <= i < s.len() && !is_slug_char(#[trigger] s[i])));
    }
}

// ============= LOWERCASE SLUGS =============

proof fn lemma_words_fold_no_upper(s: Seq<char>)
    requires
        no_ascii_upper(s),
    ensures
        forall|k: int| 0 <= k < words_fold(s).0.len() ==> no_ascii_upper(#[trigger] words_fold(s).0[k]),
        no_ascii_upper(words_fold(s).1),
    decreases s.len(),
{
    if s.len() > 0 {
        let p = s.drop_last();
        assert(no_ascii_upper(p)) by {
            assert forall|i: int| 0 <= i < p.len() implies !('A' <= #[trigger] p[i] && p[i] <= 'Z') by {
                assert(p[i] == s[i]);
            }
        }
        lemma_words_fold_no_upper(p);
        let prev = words_fold(p);
        let c = s.last();
        assert(!('A' <= c && c <= 'Z')) by {
            assert(c == s[s.len() - 1]);
        }
        if !is_whitespace(c) {
            let w = prev.1.push(c);
            assert forall|i: int| 0 <= i < w.len() implies !('A' <= #[trigger] w[i] && w[i] <= 'Z') by {
                if i < prev.1.len() {
                    assert(w[i] == prev.1[i]);
                }
            }
        } else if prev.1.len() > 0 {
            let ws = prev.0.push(prev.1);
            assert forall|k: int| 0 <= k < ws.len() implies no_ascii_upper(#[trigger] ws[k]) by {
                if k < prev.0.len() {
                    assert(ws[k] == prev.0[k]);
                }
            }
        }
    }
}

proof fn lemma_join_dash_no_upper(ws: Seq<Seq<char>>)
    requires
        forall|k: int| 0 <= k < ws.len() ==> no_ascii_upper(#[trigger] ws[k]),
    ensures
        no_ascii_upper(join_dash(ws)),
    decreases ws.len(),
{
    if ws.len() == 1 {
        assert(no_ascii_upper(ws[0]));
    } else if ws.len() > 1 {
        let p = ws.drop_last();
        assert forall|k: int| 0 <= k < p.len() implies no_ascii_upper(#[trigger] p[k]) by {
            assert(p[k] == ws[k]);
        }
        lemma_join_dash_no_upper(p);
        let a = join_dash(p);
        let l = ws.last();
        assert(no_ascii_upper(l)) by {
            assert(l == ws[ws.len() - 1]);
        }
        let j = a + seq!['-'] + l;
        assert forall|i: int| 0 <= i < j.len() implies !('A' <= #[trigger] j[i] && j[i] <= 'Z') by {
            if i < a.len() {
                assert(j[i] == a[i]);
            } else if i > a.len() {
                assert(j[i] == l[i - a.len() - 1]);
            }
        }
    }
}

proof fn lemma_keep_no_upper(s: Seq<char>)
    requires
        no_ascii_upper(s),
    ensures
        no_ascii_upper(keep_slug_chars(s)),
    decreases s.len(),
{
    if s.len() > 0 {
        let p = s.drop_last();
        assert forall|i: int| 0 <= i < p.len() implies !('A' <= #[trigger] p[i] && p[i] <= 'Z') by {
            assert(p[i] == s[i]);
        }
        lemma_keep_no_upper(p);
        let r = keep_slug_chars(p);
        let w = r.push(s.last());
        assert(!('A' <= s.last() && s.last() <= 'Z')) by {
            assert(s.last() == s[s.len() - 1]);
        }
        assert forall|i: int| 0 <= i < w.len() implies !('A' <= #[trigger] w[i] && w[i] <= 'Z') by {
            if i < r.len() {
                assert(w[i] == r[i]);
            }
        }
    }
}

proof fn lemma_collapse_no_upper(s: Seq<char>)
    requires
        no_ascii_upper(s),
    ensures
        no_ascii_upper(collapse_dashes(s)),
    decreases s.len(),
{
    if s.len() > 0 {
        let p = s.drop_last();
        assert forall|i: int| 0 <= i < p.len() implies !('A' <= #[trigger] p[i] && p[i] <= 'Z') by {
            assert(p[i] == s[i]);
        }
        lemma_collapse_no_upper(p);
        let r = collapse_dashes(p);
        let w = r.push(s.last());
        assert(!('A' <= s.last() && s.last() <= 'Z')) by {
            assert(s.last() == s[s.len() - 1]);
        }
        assert forall|i: int| 0 <= i < w.len() implies !('A' <= #[trigger] w[i] && w[i] <= 'Z') by {
            if i < r.len() {
                assert(w[i] == r[i]);
            }
        }
    }
}

proof fn lemma_subrange_no_upper(s: Seq<char>, a: int, b: int)
    requires
        0 <= a <= b <= s.len(),
        no_ascii_upper(s),
    ensures
        no_ascii_upper(s.subrange(a, b)),
{
    let t = s.subrange(a, b);
    assert forall|i: int| 0 <= i < t.len() implies !('A' <= #[trigger] t[i] && t[i] <= 'Z') by {
        assert(t[i] == s[a + i]);
    }
}

/// The slug of a text without ASCII capitals has none either.
proof fn lemma_slug_keeps_lowercase(lower: Seq<char>)
    requires
        no_ascii_upper(lower),
    ensures
        no_ascii_upper(slug_from(lower)),
{
    lemma_words_fold_no_upper(lower);
    let ws = words(lower);
    let f = words_fold(lower);
    assert forall|k: int| 0 <= k < ws.len() implies no_ascii_upper(#[trigger] ws[k]) by {
        if k < f.0.len() {
            assert(ws[k] == f.0[k]);
        }
    }
    let fw = first_words(lower);
    assert forall|k: int| 0 <= k < fw.len() implies no_ascii_upper(#[trigger] fw[k]) by {
        assert(fw[k] == ws[k]);
    }
    lemma_join_dash_no_upper(fw);
    let j = join_dash(fw);
    lemma_keep_no_upper(j);
    let c = collapse_dashes(keep_slug_chars(j));
    lemma_collapse_no_upper(keep_slug_chars(j));
    let n1 = lemma_trim_start(c, CharClass::Dash);
    let t1 = trim_start_by(c, CharClass::Dash);
    assert(t1 =~= c.subrange(n1, c.len() as int));
    lemma_subrange_no_upper(c, n1, c.len() as int);
    let n2 = lemma_trim_end(t1, CharClass::Dash);
    let t = trim_by(c, CharClass::Dash);
    assert(t =~= t1.subrange(0, n2));
    lemma_subrange_no_upper(t1, 0, n2);
    let s = slug_from(lower);
    if t.len() == 0 {
        reveal_strlit("post");
        assert forall|i: int| 0 <= i < s.len() implies !('A' <= #[trigger] s[i] && s[i] <= 'Z') by {
            assert(s[i] == 'p' || s[i] == 'o' || s[i] == 's' || s[i] == 't');
        }
    } else if t.len() > 50 {
        let p = t.take(50);
        assert(p =~= t.subrange(0, 50));
        lemma_subrange_no_upper(t, 0, 50);
        let n3 = lemma_trim_end(p, CharClass::Dash);
        assert(s =~= p.subrange(0, n3));
        lemma_subrange_no_upper(p, 0, n3);
    }
}

proof fn lemma_words_fold_plain(s: Seq<char>)
    requires
        all_slug_chars(s),
    ensures
        words_fold(s) == (Seq::<Seq<char>>::empty(), s),
    decreases s.len(),
{
    if s.len() > 0 {
        let p = s.drop_last();
        assert(all_slug_chars(p)) by {
            assert forall|i: int| 0 <= i < p.len() implies is_slug_char(#[trigger] p[i]) by {
                assert(p[i] == s[i]);
            }
        }
        lemma_words_fold_plain(p);
        assert(is_slug_char(s[s.len() - 1]));
        assert(!is_whitespace(s.last()));
        assert(p.push(s.last()) =~= s);
    }
}

proof fn lemma_keep_plain(s: Seq<char>)
    requires
        all_slug_chars(s),
    ensures
        keep_slug_chars(s) == s,
    decreases s.len(),
{
    if s.len() > 0 {
        let p = s.drop_last();
        assert(all_slug_chars(p)) by {
            assert forall|i: int| 0 <= i < p.len() implies is_slug_char(#[trigger] p[i]) by {
                assert(p[i] == s[i]);
            }
        }
        lemma_keep_plain(p);
        assert(is_slug_char(s[s.len() - 1]));
        assert(p.push(s.last()) =~= s);
    }
}

proof fn lemma_collapse_plain(s: Seq<char>)
    requires
        !has_double_dash(s),
    ensures
        collapse_dashes(s) == s,
    decreases s.len(),
{
    if s.len() > 0 {
        let p = s.drop_last();
        assert(!has_double_dash(p)) by {
            if has_double_dash(p) {
                let i = choose|i: int| 0 <= i < p.len() - 1 && p[i] == '-' && #[trigger] p[i + 1] == '-';
                assert(s[i] == '-' && s[i + 1] == '-');
            }
        }
        lemma_collapse_plain(p);
        if s.last() == '-' && p.len() > 0 && p.last() == '-' {
            assert(s[s.len() - 2] == '-' && s[s.len() - 2 + 1] == '-');
        }
        assert(p.push(s.last()) =~= s);
    }
}

/// A slug is its own slug: it has no capitals for lowercasing to change, and
/// nothing for the slug rules to remove or cut.
pub(crate) proof fn lemma_slug_is_fixed(x: Seq<char>)
    requires
        1 <= x.len() <= 50,
        slug_shaped(x),
        no_ascii_upper(x),
    ensures
        lowercase(x) == x,
        slug_of(x) == x,
{
    assert(vstd::utf8::is_ascii_chars(x)) by {
        assert forall|i: int| 0 <= i < x.len() implies '\0' <= #[trigger] x[i] <= '\u{7f}' by {
            assert(is_slug_char(x[i]));
        }
    }
    assert(x.map_values(|c: char| ascii_lower(c)) =~= x) by {
        assert forall|i: int| 0 <= i < x.len() implies #[trigger] ascii_lower(x[i]) == x[i] by {
            assert(!('A' <= x[i] && x[i] <= 'Z'));
        }
    }
    lemma_words_fold_plain(x);
    assert(words(x) =~= seq![x]);
    assert(first_words(x) =~= seq![x]);
    assert(join_dash(seq![x]) == x);
    lemma_keep_plain(x);
    lemma_collapse_plain(x);
    assert(trim_start_by(x, CharClass::Dash) == x);
    assert(trim_end_by(x, CharClass::Dash) == x);
}

// ============= PAGE MODELS =============

/// What the home page shows.
pub struct HomeTemplate {
    pub posts_count: usize,
    pub nav_items: Vec<NavItem>,
    pub current_page: String,
    pub show_upload_success: bool,
}

/// What the page for an unknown path shows.
pub struct NotFoundTemplate {
    pub nav_items: Vec<NavItem>,
    pub current_page: String,
}

/// What the page with the form for a new post shows.
pub struct UploadFormTemplate {
    pub nav_items: Vec<NavItem>,
    pub current_page: String,
}

/// What the page of one post shows.
pub struct PostTemplate<'a> {
    pub post: &'a Post,
    pub nav_items: Vec<NavItem>,
    pub current_page: String,
}

// ============= DOMAIN MODELS =============

pub struct Post {
    pub id: u32,
    pub slug: String,
    pub text: String,
    pub title: String,
    pub filename: Option<String>,
    pub file_data: Option<Vec<u8>>,
}

pub struct NavItem {
    pub title: String,
    pub url: String,
    pub is_current: bool,
}

pub struct AppState {
    pub posts: Vec<Post>,
}

/// The index of the first post with the given slug.
pub open spec fn find_slug(posts: Seq<Post>, slug: Seq<char>) -> Option<int>
    decreases posts.len(),
{
    if posts.len() == 0 {
        None
    } else if posts[0].slug@ == slug {
        Some(0)
    } else {
        match find_slug(posts.drop_first(), slug) {
            Some(i) => Some(i + 1),
            None => None,
        }
    }
}

pub(crate) proof fn lemma_find_slug(posts: Seq<Post>, slug: Seq<char>, i: int)
    requires
        0 <= i <= posts.len(),
        forall|j: int| 0 <= j < i ==> posts[j].slug@ != slug,
        i == posts.len() || posts[i].slug@ == slug,
    ensures
        find_slug(posts, slug) == (if i == posts.len() { None } else { Some(i) }),
    decreases posts.len(),
{
    if posts.len() > 0 && i > 0 {
        lemma_find_slug(posts.drop_first(), slug, i - 1);
    }
}

/// The URL of the page of the post with the given slug.
pub open spec fn post_url(slug: Seq<char>) -> Seq<char> {
    "/post/"@ + slug
}

/// The navigation entry of the post at `index` when the page at `current`
/// is shown: titled "POST n" with n counted from 1, linking to the post.
pub open spec fn nav_item_fits(item: NavItem, post: Post, index: int, current: Seq<char>) -> bool {
    &&& item.title@ == "POST "@ + decimal((index + 1) as nat)
    &&& item.url@ == post_url(post.slug@)
    &&& item.is_current == (current == post_url(post.slug@))
}

/// A `String` holding `prefix` followed by `rest`.
pub(crate) fn concat_text(prefix: &str, rest: &[char]) -> (s: String)
    ensures
        s@ == prefix@ + rest@,
{
    let mut v = chars_of(prefix);
    append_chars(&mut v, rest);
    string_of(v.as_slice())
}

impl AppState {
    pub fn new() -> (s: Self)
        ensures
            s.posts@.len() == 0,
    {
        Self { posts: Vec::new() }
    }

    /// The first post with the given slug.
    pub fn find_post_by_slug(&self, slug: &str) -> (r: Option<&Post>)
        ensures
            match find_slug(self.posts@, slug@) {
                Some(i) => r matches Some(p) && *p == self.posts@[i],
                None => r is None,
            },
    {
        let mut i: usize = 0;
        while i < self.posts.len()
            invariant
                i <= self.posts@.len(),
                forall|j: int| 0 <= j < i ==> self.posts@[j].slug@ != slug@,
            decreases self.posts.len() - i,
        {
            if same_text(self.posts[i].slug.as_str(), slug) {
                proof {
                    lemma_find_slug(self.posts@, slug@, i as int);
                }
                return Some(&self.posts[i]);
            }
            i = i + 1;
        }
        proof {
            lemma_find_slug(self.posts@, slug@, i as int);
        }
        None
    }

    /// One navigation entry per post, in order; an entry is current when its
    /// URL is `current_path`.
    pub fn generate_navigation(&self, current_path: &str) -> (r: Vec<NavItem>)
        ensures
            r@.len() == self.posts@.len(),
            forall|i: int|
                0 <= i < r@.len() ==> nav_item_fits(#[trigger] r@[i], self.posts@[i], i, current_path@),
    {
        let mut result: Vec<NavItem> = Vec::new();
        let mut index: usize = 0;
        while index < self.posts.len()
            invariant
                index <= self.posts@.len(),
                result@.len() == index,
                forall|i: int|
                    0 <= i < index ==> nav_item_fits(
                        #[trigger] result@[i],
                        self.posts@[i],
                        i,
                        current_path@,
                    ),
            decreases self.posts.len() - index,
        {
            let mut number: Vec<char> = Vec::new();
            push_decimal(index + 1, &mut number);
            assert(number@ =~= decimal((index + 1) as nat));
            let title = concat_text("POST ", number.as_slice());
            let slug_chars = chars_of(self.posts[index].slug.as_str());
            let url = concat_text("/post/", slug_chars.as_slice());
            let is_current = same_text(current_path, url.as_str());
            result.push(NavItem { title, url, is_current });
            index = index + 1;
        }
        result
    }
}

} // verus!
