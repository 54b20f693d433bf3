//! Download-page URLs: `https://<n>.gigafile.nu/<file id>`.
use vstd::prelude::*;
use crate::error::GfileError;
use crate::text::{chars_of, string_from_chars};

verus! {

broadcast use vstd::string::group_string_axioms;

/// Where a file's page is and where its bytes are fetched from.
#[derive(Clone, Debug)]
pub struct UrlInfo {
    /// The page URL, as given.
    pub page_url: String,
    /// `scheme://host` of the page.
    pub origin: String,
    /// The last path segment of the page URL.
    pub file_id: String,
}

/// `s` starts with `p`.
pub open spec fn starts_with(s: Seq<char>, p: Seq<char>) -> bool {
    p.len() <= s.len() && s.take(p.len() as int) == p
}

pub open spec fn https_prefix() -> Seq<char> {
    seq!['h', 't', 't', 'p', 's', ':', '/', '/']
}

pub open spec fn http_prefix() -> Seq<char> {
    seq!['h', 't', 't', 'p', ':', '/', '/']
}

/// The length of the `http://` or `https://` that `s` starts with, or 0.
pub open spec fn scheme_len(s: Seq<char>) -> int {
    if starts_with(s, https_prefix()) {
        8
    } else if starts_with(s, http_prefix()) {
        7
    } else {
        0
    }
}

/// The position of the first `/` in `s` at or after `i`, or `s.len()`.
pub open spec fn slash_from(s: Seq<char>, i: int) -> int
    decreases s.len() - i,
{
    if i >= s.len() {
        s.len() as int
    } else if s[i] == '/' {
        i
    } else {
        slash_from(s, i + 1)
    }
}

/// The host part of a URL: between the scheme and the first `/` after it.
pub open spec fn url_host(s: Seq<char>) -> Seq<char> {
    s.subrange(scheme_len(s), slash_from(s, scheme_len(s)))
}

/// The path after the host's `/`: the file id.
pub open spec fn url_file_id(s: Seq<char>) -> Seq<char> {
    s.subrange(slash_from(s, scheme_len(s)) + 1, s.len() as int)
}

/// Characters a host or a file id may not hold.
pub open spec fn is_delimiter(c: char) -> bool {
    c == '/' || c == '?' || c == '#'
}

/// The suffix every GigaFile host ends with.
pub open spec fn gigafile_suffix() -> Seq<char> {
    seq!['.', 'g', 'i', 'g', 'a', 'f', 'i', 'l', 'e', '.', 'n', 'u']
}

/// A GigaFile server: one or more ASCII digits, then `.gigafile.nu`.
pub open spec fn is_gigafile_host(h: Seq<char>) -> bool {
    let n = h.len() - gigafile_suffix().len();
    &&& n >= 1
    &&& h.subrange(n, h.len() as int) == gigafile_suffix()
    &&& forall|i: int| 0 <= i < n ==> '0' <= #[trigger] h[i] <= '9'
}

/// The URL has the shape `http(s)://host/id`, with a non-empty host and id
/// that hold no `/`, `?` or `#`.
pub open spec fn is_page_url_shape(s: Seq<char>) -> bool {
    let sl = scheme_len(s);
    let h = slash_from(s, sl);
    &&& sl > 0
    &&& h > sl
    &&& h < s.len()
    &&& url_file_id(s).len() > 0
    &&& forall|i: int| 0 <= i < url_host(s).len() ==> !is_delimiter(#[trigger] url_host(s)[i])
    &&& forall|i: int| 0 <= i < url_file_id(s).len() ==> !is_delimiter(#[trigger] url_file_id(s)[i])
}

/// A URL is accepted: it has the page shape and, unless any host is allowed,
/// it is an `https` URL of a GigaFile server.
pub open spec fn is_accepted_url(s: Seq<char>, allow_any_host: bool) -> bool {
    &&& is_page_url_shape(s)
    &&& (allow_any_host || (scheme_len(s) == 8 && is_gigafile_host(url_host(s))))
}

/// Why a URL that is not accepted is refused.
pub open spec fn refusal_reason(s: Seq<char>, allow_any_host: bool) -> Seq<char> {
    let sl = scheme_len(s);
    let h = slash_from(s, sl);
    if sl == 0 {
        "the URL must start with http:// or https://"@
    } else if h == sl || h == s.len() || h + 1 == s.len() {
        "the URL must be of the form http(s)://host/file-id"@
    } else if !is_page_url_shape(s) {
        "the host or the file id holds '/', '?' or '#'"@
    } else {
        "not a GigaFile download page"@
    }
}

/// `"/download.php?file="`
pub open spec fn download_path() -> Seq<char> {
    seq!['/', 'd', 'o', 'w', 'n', 'l', 'o', 'a', 'd', '.', 'p', 'h', 'p', '?', 'f', 'i', 'l', 'e', '=']
}

impl UrlInfo {
    /// The URL the file's bytes are served from.
    pub fn download_url(&self) -> (u: String)
        ensures
            u@ == self.origin@ + download_path() + self.file_id@,
    {
        let mut u = self.origin.clone();
        proof {
            reveal_strlit("/download.php?file=");
        }
        u.append("/download.php?file=");
        u.append(self.file_id.as_str());
        u
    }
}

fn invalid_url(url: &str, reason: &str) -> (e: GfileError)
    ensures
        e matches GfileError::InvalidUrl { url: u, reason: why } && u@ == url@ && why@ == reason@,
{
    GfileError::InvalidUrl { url: String::from_str(url), reason: String::from_str(reason) }
}

proof fn lemma_slash_from(s: Seq<char>, i: int, j: int)
    requires
        0 <= i <= j <= s.len(),
        forall|k: int| i <= k < j ==> s[k] != '/',
        j == s.len() || s[j] == '/',
    ensures
        slash_from(s, i) == j,
    decreases j - i,
{
    if i < j {
        lemma_slash_from(s, i + 1, j);
    }
}

/// Whether `v` starts with the characters of `p`.
fn has_prefix(v: &[char], p: &[char]) -> (r: bool)
    ensures
        r == starts_with(v@, p@),
{
    if p.len() > v.len() {
        return false;
    }
    let mut i: usize = 0;
    while i < p.len()
        invariant
            p@.len() <= v@.len(),
            i <= p@.len(),
            forall|k: int| 0 <= k < i ==> v@[k] == p@[k],
        decreases p.len() - i,
    {
        if v[i] != p[i] {
            assert(v@.take(p@.len() as int)[i as int] != p@[i as int]);
            return false;
        }
        i = i + 1;
    }
    assert(v@.take(p@.len() as int) =~= p@);
    true
}

/// Whether no character of `v[from..to]` is a delimiter.
fn no_delimiter(v: &[char], from: usize, to: usize) -> (r: bool)
    requires
        from <= to <= v@.len(),
    ensures
        r == forall|i: int| 0 <= i < to - from ==> !is_delimiter(#[trigger] v@.subrange(from as int, to as int)[i]),
{
    let mut i = from;
    while i < to
        invariant
            from <= i <= to <= v@.len(),
            forall|k: int| from <= k < i ==> !is_delimiter(#[trigger] v@[k]),
        decreases to - i,
    {
        let c = v[i];
        if c == '/' || c == '?' || c == '#' {
            assert(v@.subrange(from as int, to as int)[i - from] == v@[i as int]);
            return false;
        }
        i = i + 1;
    }
    assert forall|k: int| 0 <= k < to - from implies !is_delimiter(#[trigger] v@.subrange(from as int, to as int)[k]) by {
        assert(v@.subrange(from as int, to as int)[k] == v@[from + k]);
    }
    true
}

/// Whether `h` names a GigaFile server.
fn gigafile_host(h: &[char]) -> (r: bool)
    ensures
        r == is_gigafile_host(h@),
{
    let suffix = ['.', 'g', 'i', 'g', 'a', 'f', 'i', 'l', 'e', '.', 'n', 'u'];
    assert(suffix@ == gigafile_suffix());
    if h.len() < 13 {
        return false;
    }
    let n = h.len() - 12;
    let mut i: usize = 0;
    while i < n
        invariant
            n + 12 == h@.len(),
            i <= n,
            forall|k: int| 0 <= k < i ==> '0' <= #[trigger] h@[k] <= '9',
        decreases n - i,
    {
        if !('0' <= h[i] && h[i] <= '9') {
            return false;
        }
        i = i + 1;
    }
    let mut j: usize = 0;
    while j < 12
        invariant
            n + 12 == h.len(),
            j <= 12,
            suffix@ == gigafile_suffix(),
            forall|k: int| 0 <= k < j ==> h@[n + k] == suffix@[k],
        decreases 12 - j,
    {
        if h[n + j] != suffix[j] {
            assert(h@.subrange(n as int, h@.len() as int)[j as int] != gigafile_suffix()[j as int]);
            return false;
        }
        j = j + 1;
    }
    assert(h@.subrange(n as int, h@.len() as int) =~= gigafile_suffix());
    true
}

/// Checks a download-page URL and splits it into its parts.
///
/// Any `http(s)://host/id` URL is accepted when `allow_any_host` is set;
/// otherwise the URL must be `https://<digits>.gigafile.nu/<id>`.
pub fn parse_download_url(url: &str, allow_any_host: bool) -> (r: Result<UrlInfo, GfileError>)
    ensures
        r is Ok <==> is_accepted_url(url@, allow_any_host),
        r matches Ok(info) ==> {
            &&& info.page_url@ == url@
            &&& info.file_id@ == url_file_id(url@)
            &&& info.origin@ == url@.take(slash_from(url@, scheme_len(url@)))
        },
        r matches Err(e) ==> e matches GfileError::InvalidUrl { url: u, reason: why } && u@ == url@
            && why@ == refusal_reason(url@, allow_any_host),
{
    let v = chars_of(url);
    let ghost s = v@;
    let https = ['h', 't', 't', 'p', 's', ':', '/', '/'];
    let http = ['h', 't', 't', 'p', ':', '/', '/'];
    assert(https@ == https_prefix());
    assert(http@ == http_prefix());
    let sl: usize = if has_prefix(v.as_slice(), https.as_slice()) {
        8
    } else if has_prefix(v.as_slice(), http.as_slice()) {
        7
    } else {
        return Err(invalid_url(url, "the URL must start with http:// or https://"));
    };
    assert(sl as int == scheme_len(s));
    let mut h = sl;
    while h < v.len() && v[h] != '/'
        invariant
            s == v@,
            sl <= h <= s.len(),
            forall|k: int| sl <= k < h ==> s[k] != '/',
        decreases v.len() - h,
    {
        h = h + 1;
    }
    proof {
        lemma_slash_from(s, sl as int, h as int);
        assert(url_host(s) == s.subrange(sl as int, h as int));
        assert(url_file_id(s) == s.subrange(h + 1, s.len() as int));
    }
    if h == sl || h == v.len() || h + 1 == v.len() {
        return Err(invalid_url(url, "the URL must be of the form http(s)://host/file-id"));
    }
    if !no_delimiter(v.as_slice(), sl, h) || !no_delimiter(v.as_slice(), h + 1, v.len()) {
        return Err(invalid_url(url, "the host or the file id holds '/', '?' or '#'"));
    }
    let host = string_from_chars(v.as_slice(), sl, h);
    if !allow_any_host {
        let host_chars = chars_of(host.as_str());
        if sl != 8 || !gigafile_host(host_chars.as_slice()) {
            return Err(invalid_url(url, "not a GigaFile download page"));
        }
    }
    let origin = string_from_chars(v.as_slice(), 0, h);
    let file_id = string_from_chars(v.as_slice(), h + 1, v.len());
    assert(s.subrange(0, h as int) =~= s.take(h as int));
    Ok(UrlInfo { page_url: String::from_str(url), origin, file_id })
}

/// An accepted page URL is exactly its origin, a `/`, and its file id:
/// splitting it loses nothing.
pub proof fn page_url_splits_into_origin_and_id(s: Seq<char>, allow_any_host: bool)
    requires
        is_accepted_url(s, allow_any_host),
    ensures
        s == s.take(slash_from(s, scheme_len(s))) + seq!['/'] + url_file_id(s),
{
    let h = slash_from(s, scheme_len(s));
    lemma_slash_from_is_slash(s, scheme_len(s));
    assert(s =~= s.take(h) + seq!['/'] + url_file_id(s));
}

proof fn lemma_slash_from_is_slash(s: Seq<char>, i: int)
    requires
        0 <= i <= s.len(),
    ensures
        i <= slash_from(s, i) <= s.len(),
        slash_from(s, i) < s.len() ==> s[slash_from(s, i)] == '/',
    decreases s.len() - i,
{
    if i < s.len() && s[i] != '/' {
        lemma_slash_from_is_slash(s, i + 1);
    }
}

/// Every `https://<digits>.gigafile.nu/<id>` page is accepted, whatever the
/// number of digits, with `https://<digits>.gigafile.nu` as its origin and
/// `<id>` as its file id.
pub proof fn gigafile_pages_are_accepted(digits: Seq<char>, id: Seq<char>)
    requires
        digits.len() >= 1,
        forall|i: int| 0 <= i < digits.len() ==> '0' <= #[trigger] digits[i] <= '9',
        id.len() >= 1,
        forall|i: int|
            0 <= i < id.len() ==> #[trigger] id[i] != '/' && id[i] != '?' && id[i] != '#',
    ensures
        ({
            let origin = seq!['h', 't', 't', 'p', 's', ':', '/', '/'] + digits + seq![
                '.',
                'g',
                'i',
                'g',
                'a',
                'f',
                'i',
                'l',
                'e',
                '.',
                'n',
                'u',
            ];
            let url = origin + seq!['/'] + id;
            &&& is_accepted_url(url, false)
            &&& is_accepted_url(url, true)
            &&& url_file_id(url) == id
            &&& url.take(slash_from(url, scheme_len(url))) == origin
        }),
{
    let pre = seq!['h', 't', 't', 'p', 's', ':', '/', '/'];
    let suf = seq!['.', 'g', 'i', 'g', 'a', 'f', 'i', 'l', 'e', '.', 'n', 'u'];
    let host = digits + suf;
    let origin = pre + host;
    let url = origin + seq!['/'] + id;
    let h = origin.len() as int;
    assert(pre =~= https_prefix());
    assert(url.take(8) =~= pre);
    assert(starts_with(url, https_prefix()));
    assert(scheme_len(url) == 8);
    assert forall|k: int| 8 <= k < h implies url[k] != '/' by {
        assert(url[k] == host[k - 8]);
        if k - 8 < digits.len() {
            assert(host[k - 8] == digits[k - 8]);
        } else {
            assert(host[k - 8] == suf[k - 8 - digits.len()]);
        }
    }
    assert(url[h] == '/');
    lemma_slash_from(url, 8, h);
    assert(url_host(url) =~= host);
    assert(url_file_id(url) =~= id);
    assert(url.take(h) =~= origin);
    assert forall|k: int| 0 <= k < host.len() implies !is_delimiter(#[trigger] host[k]) by {
        if k < digits.len() {
            assert(host[k] == digits[k]);
        } else {
            assert(host[k] == suf[k - digits.len()]);
        }
    }
    assert forall|k: int| 0 <= k < id.len() implies !is_delimiter(#[trigger] id[k]) by {}
    assert(suf =~= gigafile_suffix());
    assert(host.subrange(digits.len() as int, host.len() as int) =~= gigafile_suffix());
    assert forall|k: int| 0 <= k < host.len() - gigafile_suffix().len() implies '0' <= #[trigger] host[k]
        <= '9' by {
        assert(host[k] == digits[k]);
    }
    assert(is_gigafile_host(host));
    assert(pre + digits + suf =~= origin);
    assert(url_file_id(url).len() > 0);
    assert(is_page_url_shape(url));
    assert(is_accepted_url(url, false));
}

/// Unless any host is allowed, only `https://` URLs are accepted.
pub proof fn only_https_pages_are_accepted(s: Seq<char>)
    requires
        !(s.len() >= 8 && s.take(8) == seq!['h', 't', 't', 'p', 's', ':', '/', '/']),
    ensures
        !is_accepted_url(s, false),
{
    assert(seq!['h', 't', 't', 'p', 's', ':', '/', '/'] =~= https_prefix());
}

} // verus!
