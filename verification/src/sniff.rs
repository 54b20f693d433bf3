//! Recognising an HTML page where a file's bytes were expected.
use vstd::prelude::*;
use crate::text::{chars_of, contains_ci, contains_lowered, lower_char, matches_at_ci};

verus! {

broadcast use vstd::string::group_string_axioms;

/// ASCII lower-casing of one byte.
pub open spec fn lower_byte(b: u8) -> u8 {
    if 65 <= b <= 90 {
        (b + 32) as u8
    } else {
        b
    }
}

/// `pat` occurs in `s` at `i` once `s` is ASCII lower-cased.
pub open spec fn bytes_match_at(s: Seq<u8>, i: int, pat: Seq<u8>) -> bool {
    &&& 0 <= i
    &&& i + pat.len() <= s.len()
    &&& forall|j: int| 0 <= j < pat.len() ==> lower_byte(#[trigger] s[i + j]) == pat[j]
}

/// The ASCII lower-cased `s` contains `pat`.
pub open spec fn bytes_contain(s: Seq<u8>, pat: Seq<u8>) -> bool {
    exists|i: int| bytes_match_at(s, i, pat)
}

/// The ASCII lower-cased `s` starts with `pat`.
pub open spec fn bytes_start_with(s: Seq<u8>, pat: Seq<u8>) -> bool {
    bytes_match_at(s, 0, pat)
}

/// The length of the UTF-8 encoded white-space character (in the sense of
/// `char::is_whitespace`) that `b` starts with, or 0.
pub open spec fn space_width(b: Seq<u8>) -> int {
    if b.len() >= 1 && ((9 <= b[0] <= 13) || b[0] == 32) {
        1
    } else if b.len() >= 2 && b[0] == 0xc2 && (b[1] == 0x85 || b[1] == 0xa0) {
        2
    } else if b.len() >= 3 && (
        (b[0] == 0xe1 && b[1] == 0x9a && b[2] == 0x80)
        || (b[0] == 0xe2 && b[1] == 0x80 && ((0x80 <= b[2] <= 0x8a) || b[2] == 0xa8 || b[2] == 0xa9 || b[2] == 0xaf))
        || (b[0] == 0xe2 && b[1] == 0x81 && b[2] == 0x9f)
        || (b[0] == 0xe3 && b[1] == 0x80 && b[2] == 0x80)) {
        3
    } else {
        0
    }
}

/// `b` without the white-space characters it starts with.
pub open spec fn skip_spaces(b: Seq<u8>) -> Seq<u8>
    decreases b.len(),
{
    if space_width(b) > 0 {
        skip_spaces(b.skip(space_width(b)))
    } else {
        b
    }
}

pub open spec fn doctype_html() -> Seq<u8> {
    seq![60u8, 33, 100, 111, 99, 116, 121, 112, 101, 32, 104, 116, 109, 108]
}

pub open spec fn html_open() -> Seq<u8> {
    seq![60u8, 104, 116, 109, 108]
}

pub open spec fn body_open() -> Seq<u8> {
    seq![60u8, 98, 111, 100, 121]
}

/// The first 512 bytes of `bytes`, white space at their start skipped.
pub open spec fn sniffed_prefix(bytes: Seq<u8>) -> Seq<u8> {
    skip_spaces(bytes.take(if bytes.len() < 512 { bytes.len() as int } else { 512 }))
}

/// A body looks like HTML when its first 512 bytes, ASCII lower-cased and
/// with leading white space skipped, start with `<!doctype html` or `<html`,
/// or contain `<html` or `<body`. (On bytes this is the same test as on the
/// lossily decoded text: ASCII bytes decode to themselves and every other
/// byte to a non-ASCII character.)
pub open spec fn spec_looks_like_html(bytes: Seq<u8>) -> bool {
    let t = sniffed_prefix(bytes);
    ||| bytes_start_with(t, doctype_html())
    ||| bytes_start_with(t, html_open())
    ||| bytes_contain(t, html_open())
    ||| bytes_contain(t, body_open())
}

fn lower_byte_exec(b: u8) -> (r: u8)
    ensures
        r == lower_byte(b),
{
    if 65 <= b && b <= 90 {
        b + 32
    } else {
        b
    }
}

fn match_at(s: &[u8], i: usize, pat: &[u8]) -> (r: bool)
    ensures
        r == bytes_match_at(s@, i as int, pat@),
{
    if i > s.len() || pat.len() > s.len() - i {
        return false;
    }
    let mut j: usize = 0;
    while j < pat.len()
        invariant
            i + pat.len() <= s.len(),
            j <= pat@.len(),
            forall|k: int| 0 <= k < j ==> lower_byte(#[trigger] s@[i + k]) == pat@[k],
        decreases pat.len() - j,
    {
        if lower_byte_exec(s[i + j]) != pat[j] {
            return false;
        }
        j = j + 1;
    }
    true
}

fn contains_bytes(s: &[u8], pat: &[u8]) -> (r: bool)
    ensures
        r == bytes_contain(s@, pat@),
{
    if pat.len() > s.len() {
        assert forall|i: int| !bytes_match_at(s@, i, pat@) by {}
        return false;
    }
    let last = s.len() - pat.len();
    let mut i: usize = 0;
    loop
        invariant
            last == s@.len() - pat@.len(),
            i <= last,
            forall|k: int| 0 <= k < i ==> !bytes_match_at(s@, k, pat@),
        ensures
            forall|k: int| 0 <= k <= last ==> !bytes_match_at(s@, k, pat@),
        decreases last - i,
    {
        if match_at(s, i, pat) {
            return true;
        }
        if i == last {
            break;
        }
        i = i + 1;
    }
    assert forall|k: int| !bytes_match_at(s@, k, pat@) by {
        if 0 <= k <= last {
        }
    }
    false
}

fn space_width_at(b: &[u8], i: usize) -> (w: usize)
    requires
        i <= b@.len(),
    ensures
        w == space_width(b@.skip(i as int)),
{
    let ghost t = b@.skip(i as int);
    let n = b.len() - i;
    if n >= 1 {
        assert(t[0] == b@[i as int]);
    }
    if n >= 2 {
        assert(t[1] == b@[i + 1]);
    }
    if n >= 3 {
        assert(t[2] == b@[i + 2]);
    }
    if n >= 1 && ((9 <= b[i] && b[i] <= 13) || b[i] == 32) {
        return 1;
    }
    if n >= 2 && b[i] == 0xc2 && (b[i + 1] == 0x85 || b[i + 1] == 0xa0) {
        return 2;
    }
    if n >= 3 {
        let (x, y, z) = (b[i], b[i + 1], b[i + 2]);
        if (x == 0xe1 && y == 0x9a && z == 0x80) || (x == 0xe2 && y == 0x80 && ((0x80 <= z && z
            <= 0x8a) || z == 0xa8 || z == 0xa9 || z == 0xaf)) || (x == 0xe2 && y == 0x81 && z
            == 0x9f) || (x == 0xe3 && y == 0x80 && z == 0x80) {
            return 3;
        }
    }
    0
}

/// Whether a body looks like an HTML page (see `spec_looks_like_html`).
pub fn looks_like_html(bytes: &[u8]) -> (r: bool)
    ensures
        r == spec_looks_like_html(bytes@),
{
    let n: usize = if bytes.len() < 512 {
        bytes.len()
    } else {
        512
    };
    let mut prefix: Vec<u8> = Vec::new();
    let mut k: usize = 0;
    while k < n
        invariant
            n <= bytes@.len(),
            k <= n,
            prefix@ == bytes@.take(k as int),
        decreases n - k,
    {
        prefix.push(bytes[k]);
        assert(bytes@.take(k + 1) =~= bytes@.take(k as int).push(bytes@[k as int]));
        k = k + 1;
    }
    let ghost p = prefix@;
    assert(p.skip(0) =~= p);
    let mut i: usize = 0;
    loop
        invariant
            p == prefix@,
            p.len() <= 512,
            i <= p.len(),
            skip_spaces(p) == skip_spaces(p.skip(i as int)),
        ensures
            skip_spaces(p) == p.skip(i as int),
        decreases p.len() - i,
    {
        let w = space_width_at(prefix.as_slice(), i);
        if w == 0 {
            break;
        }
        assert(p.skip(i as int).skip(w as int) =~= p.skip(i + w));
        i = i + w;
    }
    let mut t: Vec<u8> = Vec::new();
    let mut k: usize = i;
    while k < prefix.len()
        invariant
            p == prefix@,
            i <= k <= p.len(),
            t@ == p.subrange(i as int, k as int),
        decreases prefix.len() - k,
    {
        t.push(prefix[k]);
        assert(p.subrange(i as int, k + 1) =~= p.subrange(i as int, k as int).push(p[k as int]));
        k = k + 1;
    }
    assert(t@ =~= p.skip(i as int));
    let doctype: [u8; 14] = [60, 33, 100, 111, 99, 116, 121, 112, 101, 32, 104, 116, 109, 108];
    let html: [u8; 5] = [60, 104, 116, 109, 108];
    let body: [u8; 5] = [60, 98, 111, 100, 121];
    assert(doctype@ =~= doctype_html());
    assert(html@ =~= html_open());
    assert(body@ =~= body_open());
    match_at(t.as_slice(), 0, doctype.as_slice()) || match_at(t.as_slice(), 0, html.as_slice())
        || contains_bytes(t.as_slice(), html.as_slice()) || contains_bytes(t.as_slice(), body.as_slice())
}

proof fn lemma_skip_spaces_no_lt(p: Seq<u8>) -> (k: int)
    ensures
        0 <= k <= p.len(),
        skip_spaces(p) == p.skip(k),
        forall|j: int| 0 <= j < k ==> p[j] != 60,
    decreases p.len(),
{
    let w = space_width(p);
    if w > 0 {
        let rest = p.skip(w);
        let k2 = lemma_skip_spaces_no_lt(rest);
        assert(rest.skip(k2) =~= p.skip(w + k2));
        assert forall|j: int| 0 <= j < w + k2 implies p[j] != 60 by {
            if j >= w {
                assert(p[j] == rest[j - w]);
            }
        }
        w + k2
    } else {
        assert(p.skip(0) =~= p);
        0
    }
}

proof fn lemma_contain_after_skip(p: Seq<u8>, k: int, pat: Seq<u8>)
    requires
        0 <= k <= p.len(),
        forall|j: int| 0 <= j < k ==> p[j] != 60,
        pat.len() > 0,
        pat[0] == 60,
    ensures
        bytes_contain(p.skip(k), pat) <==> bytes_contain(p, pat),
{
    let t = p.skip(k);
    if bytes_contain(t, pat) {
        let i = choose|i: int| bytes_match_at(t, i, pat);
        assert forall|j: int| 0 <= j < pat.len() implies lower_byte(#[trigger] p[(i + k) + j]) == pat[j] by {
            assert(t[i + j] == p[i + k + j]);
        }
        assert(bytes_match_at(p, i + k, pat));
    }
    if bytes_contain(p, pat) {
        let i = choose|i: int| bytes_match_at(p, i, pat);
        assert(lower_byte(p[i + 0]) == pat[0]);
        assert(p[i] == 60);
        assert(i >= k);
        assert forall|j: int| 0 <= j < pat.len() implies lower_byte(#[trigger] t[(i - k) + j]) == pat[j] by {
            assert(t[i - k + j] == p[i + j]);
        }
        assert(bytes_match_at(t, i - k, pat));
    }
}

/// A body is taken for an HTML page exactly when its first 512 bytes, ASCII
/// lower-cased, start (after leading white space) with `<!doctype html`, or
/// contain `<html` or `<body`. Any other body, such as an SVG or XML file
/// that starts with `<`, is taken for the file.
pub proof fn html_is_recognised_by_its_tags(b: Seq<u8>)
    ensures
        ({
            let p = b.take(if b.len() < 512 { b.len() as int } else { 512 });
            spec_looks_like_html(b) <==> (bytes_start_with(
                skip_spaces(p),
                seq![60u8, 33, 100, 111, 99, 116, 121, 112, 101, 32, 104, 116, 109, 108],
            ) || bytes_contain(p, seq![60u8, 104, 116, 109, 108]) || bytes_contain(
                p,
                seq![60u8, 98, 111, 100, 121],
            ))
        }),
{
    let p = b.take(if b.len() < 512 { b.len() as int } else { 512 });
    let k = lemma_skip_spaces_no_lt(p);
    let t = skip_spaces(p);
    assert(seq![60u8, 33, 100, 111, 99, 116, 121, 112, 101, 32, 104, 116, 109, 108] =~= doctype_html());
    assert(seq![60u8, 104, 116, 109, 108] =~= html_open());
    assert(seq![60u8, 98, 111, 100, 121] =~= body_open());
    lemma_contain_after_skip(p, k, html_open());
    lemma_contain_after_skip(p, k, body_open());
    if bytes_start_with(t, html_open()) {
        assert(bytes_match_at(t, 0, html_open()));
        assert(bytes_contain(t, html_open()));
    }
}

/// `"text/html"`
pub open spec fn text_html() -> Seq<char> {
    seq!['t', 'e', 'x', 't', '/', 'h', 't', 'm', 'l']
}

/// A `Content-Type` value names HTML when, ASCII lower-cased, it contains
/// `text/html`. An absent value (or one that is not visible ASCII) does not.
pub open spec fn spec_is_html_content_type(value: Option<Seq<char>>) -> bool {
    match value {
        None => false,
        Some(v) => contains_ci(v, text_html()),
    }
}

/// Whether a response's `Content-Type` header value names HTML.
pub fn is_html_content_type(value: Option<&str>) -> (r: bool)
    ensures
        r == spec_is_html_content_type(match value {
            None => None,
            Some(v) => Some(v@),
        }),
{
    match value {
        None => false,
        Some(v) => {
            let chars = chars_of(v);
            let pat = ['t', 'e', 'x', 't', '/', 'h', 't', 'm', 'l'];
            assert(pat@ =~= text_html());
            contains_lowered(chars.as_slice(), pat.as_slice())
        },
    }
}

/// `s` ASCII lower-cased.
pub open spec fn lowered(s: Seq<char>) -> Seq<char> {
    s.map_values(|c: char| lower_char(c))
}

/// A `Content-Type` value names HTML exactly when some 9 consecutive
/// characters of it, ASCII lower-cased, spell `text/html`: other `text/*`
/// types such as `text/plain` are not HTML.
pub proof fn html_content_type_is_text_html(v: Seq<char>)
    ensures
        spec_is_html_content_type(Some(v)) <==> exists|i: int|
            0 <= i && i + 9 <= v.len() && #[trigger] lowered(v.subrange(i, i + 9)) == seq!['t', 'e', 'x', 't', '/', 'h', 't', 'm', 'l'],
        spec_is_html_content_type(None) == false,
{
    let lit = seq!['t', 'e', 'x', 't', '/', 'h', 't', 'm', 'l'];
    if spec_is_html_content_type(Some(v)) {
        let i = choose|i: int| matches_at_ci(v, i, text_html());
        assert(lowered(v.subrange(i, i + 9)) =~= lit) by {
            assert forall|j: int| 0 <= j < 9 implies lowered(v.subrange(i, i + 9))[j] == lit[j] by {
                assert(lower_char(v[i + j]) == text_html()[j]);
            }
        }
    }
    if exists|i: int|
        0 <= i && i + 9 <= v.len() && #[trigger] lowered(v.subrange(i, i + 9)) == lit {
        let i = choose|i: int|
            0 <= i && i + 9 <= v.len() && #[trigger] lowered(v.subrange(i, i + 9)) == lit;
        assert forall|j: int| 0 <= j < text_html().len() implies lower_char(#[trigger] v[i + j])
            == text_html()[j] by {
            assert(lowered(v.subrange(i, i + 9))[j] == lit[j]);
        }
        assert(matches_at_ci(v, i, text_html()));
    }
}

} // verus!
