//! The download page: which file it offers, under which name and size.
use vstd::prelude::*;
use crate::error::GfileError;
use crate::parser::size::{display_size_bytes, parse_display_size};
use crate::text::{trim, trim_str};

verus! {

broadcast use vstd::string::group_string_axioms;

/// Declares the error `Selector::parse` returns.
#[verifier::external_type_specification]
#[verifier::external_body]
pub struct ExSelectorErrorKind(scraper::error::SelectorErrorKind);

/// The text of the first element of the HTML document `html` that the CSS
/// selector `selector` matches: `None` when the selector does not parse,
/// `Some(None)` when no element matches, otherwise the element's text nodes
/// concatenated.
pub uninterp spec fn first_match_text(html: Seq<char>, selector: Seq<char>) -> Option<Option<Seq<char>>>;

/// Parses `html` as a document with `scraper::Html::parse_document`, parses
/// `selector` with `scraper::Selector::parse`, and returns the concatenated
/// text nodes (`ElementRef::text`) of the first element that `Html::select`
/// yields. The contract names this result `first_match_text`; nothing more is
/// claimed of HTML parsing or selector matching.
#[verifier::external_body]
fn first_match(html: &str, selector: &str) -> (r: Result<Option<String>, scraper::error::SelectorErrorKind>)
    ensures
        match r {
            Err(_) => first_match_text(html@, selector@) is None,
            Ok(None) => first_match_text(html@, selector@) == Some(None::<Seq<char>>),
            Ok(Some(t)) => first_match_text(html@, selector@) == Some(Some(t@)),
        },
{
    let selector = scraper::Selector::parse(selector)?;
    let document = scraper::Html::parse_document(html);
    Ok(document.select(&selector).next().map(|node| node.text().collect::<String>()))
}

/// What kind of page a download page is.
#[derive(Clone, Copy, Debug, PartialEq, Eq, Structural)]
pub enum PageKind {
    Single,
}

/// One file that a page offers.
#[derive(Clone, Debug)]
pub struct RemoteFile {
    pub file_id: String,
    pub raw_name: String,
    pub display_size: Option<String>,
    pub approx_bytes: Option<u64>,
}

/// What a download page offers.
#[derive(Clone, Debug)]
pub struct PageInfo {
    pub kind: PageKind,
    pub files: Vec<RemoteFile>,
    pub needs_key: bool,
}

/// The hint given with every page that cannot be understood.
pub fn parse_hint() -> (h: &'static str)
    ensures
        h@ == "Page structure may have changed; rerun with --dump-page and -vv, then report the fixture."@,
{
    "Page structure may have changed; rerun with --dump-page and -vv, then report the fixture."
}

/// A parse error with the given description and hint.
pub fn parse_error(what: &str, hint: &str) -> (e: GfileError)
    ensures
        e matches GfileError::Parse { what: w, hint: h } && w@ == what@ && h@ == hint@,
{
    GfileError::Parse { what: String::from_str(what), hint: String::from_str(hint) }
}

/// The hint for errors that only a bug can cause.
pub open spec fn bug_hint() -> Seq<char> {
    "This is an internal parser bug; please report it."@
}

/// The error for a selector that does not parse.
pub open spec fn invalid_selector(selector: Seq<char>) -> (Seq<char>, Seq<char>) {
    ("invalid selector "@ + selector, bug_hint())
}

/// The parse error that an unusable selection gives, or `None`.
pub open spec fn page_error(
    matomete: Option<Option<Seq<char>>>,
    name: Option<Option<Seq<char>>>,
    size: Option<Option<Seq<char>>>,
) -> Option<(Seq<char>, Seq<char>)> {
    let hint = "Page structure may have changed; rerun with --dump-page and -vv, then report the fixture."@;
    if matomete is None {
        Some(invalid_selector("#contents_matomete"@))
    } else if matomete matches Some(Some(_)) {
        Some((
            "matomete pages are not implemented in M1"@,
            "This build only supports single-file pages; matomete support is scheduled for M2."@,
        ))
    } else if name is None {
        Some(invalid_selector("#dl"@))
    } else if name matches Some(None) {
        Some(("missing #dl"@, hint))
    } else if size is None {
        Some(invalid_selector(".dl_size"@))
    } else if size matches Some(None) {
        Some(("missing .dl_size"@, hint))
    } else {
        None
    }
}

/// The page found, given the text selected by `#contents_matomete`, `#dl` and
/// `.dl_size` (each `None` when the selector did not parse, `Some(None)` when
/// nothing matched, otherwise the untrimmed text):
/// a page with a `#contents_matomete` element is refused; otherwise the page
/// offers one file, named by the trimmed `#dl` text, whose size is the trimmed
/// `.dl_size` text.
pub open spec fn page_result_ok(
    r: Result<PageInfo, GfileError>,
    matomete: Option<Option<Seq<char>>>,
    name: Option<Option<Seq<char>>>,
    size: Option<Option<Seq<char>>>,
    file_id: Seq<char>,
) -> bool {
    match page_error(matomete, name, size) {
        Some((what, hint)) => r matches Err(GfileError::Parse { what: w, hint: h }) && w@ == what && h@ == hint,
        None => r matches Ok(page) && {
            let raw = trim(name->0->0);
            let shown = trim(size->0->0);
            &&& page.kind == PageKind::Single
            &&& !page.needs_key
            &&& page.files@.len() == 1
            &&& page.files@[0].file_id@ == file_id
            &&& page.files@[0].raw_name@ == raw
            &&& page.files@[0].display_size matches Some(d) && d@ == shown
            &&& page.files@[0].approx_bytes == display_size_bytes(shown)
        },
    }
}

/// The view of a selection result.
pub open spec fn selection_view(s: Option<Option<String>>) -> Option<Option<Seq<char>>> {
    match s {
        None => None,
        Some(None) => Some(None),
        Some(Some(t)) => Some(Some(t@)),
    }
}

/// What a selection gives once its text is trimmed: the parse error for a
/// selector that does not parse, no text when nothing matched, otherwise
/// the matched text without leading and trailing white space.
pub open spec fn trimmed_selection_ok(
    r: Result<Option<String>, GfileError>,
    raw: Option<Option<Seq<char>>>,
    selector: Seq<char>,
) -> bool {
    match raw {
        None => r matches Err(GfileError::Parse { what: w, hint: h }) && w@ == invalid_selector(
            selector,
        ).0 && h@ == invalid_selector(selector).1,
        Some(None) => r matches Ok(None),
        Some(Some(t)) => r matches Ok(Some(s)) && s@ == trim(t),
    }
}

/// Turns what `selector` selected (see `trimmed_selection_ok`) into its
/// trimmed text.
pub fn trimmed_selection(raw: Option<Option<String>>, selector: &str) -> (r: Result<
    Option<String>,
    GfileError,
>)
    ensures
        trimmed_selection_ok(r, selection_view(raw), selector@),
{
    match raw {
        None => {
            let mut what = String::from_str("invalid selector ");
            what.append(selector);
            Err(
                GfileError::Parse {
                    what,
                    hint: String::from_str("This is an internal parser bug; please report it."),
                },
            )
        },
        Some(None) => Ok(None),
        Some(Some(t)) => Ok(Some(trim_str(t.as_str()))),
    }
}

/// The trimmed text of the first element of the page `html` that `selector`
/// matches, or `None` when none does; an error when the selector does not
/// parse.
pub fn select_first_text(html: &str, selector: &str) -> (r: Result<Option<String>, GfileError>)
    ensures
        trimmed_selection_ok(r, first_match_text(html@, selector@), selector@),
{
    let raw = match first_match(html, selector) {
        Err(_) => None,
        Ok(t) => Some(t),
    };
    trimmed_selection(raw, selector)
}

/// Builds the page from the trimmed texts of `#contents_matomete`, `#dl` and
/// `.dl_size`: the first error among them is passed on; a page with a
/// `#contents_matomete` element is refused; otherwise the page offers one
/// file, named by the `#dl` text, whose size is the `.dl_size` text.
pub fn page_from_texts(
    matomete: Result<Option<String>, GfileError>,
    name: Result<Option<String>, GfileError>,
    size: Result<Option<String>, GfileError>,
    file_id: &str,
) -> (r: Result<PageInfo, GfileError>)
    ensures
        matomete matches Err(e) ==> r == Err::<PageInfo, GfileError>(e),
        matomete matches Ok(Some(_)) ==> (r matches Err(GfileError::Parse { what: w, hint: h })
            && w@ == "matomete pages are not implemented in M1"@ && h@
            == "This build only supports single-file pages; matomete support is scheduled for M2."@),
        matomete matches Ok(None) ==> match name {
            Err(e) => r == Err::<PageInfo, GfileError>(e),
            Ok(None) => r matches Err(GfileError::Parse { what: w, hint: h }) && w@
                == "missing #dl"@ && h@
                == "Page structure may have changed; rerun with --dump-page and -vv, then report the fixture."@,
            Ok(Some(n)) => match size {
                Err(e) => r == Err::<PageInfo, GfileError>(e),
                Ok(None) => r matches Err(GfileError::Parse { what: w, hint: h }) && w@
                    == "missing .dl_size"@ && h@
                    == "Page structure may have changed; rerun with --dump-page and -vv, then report the fixture."@,
                Ok(Some(d)) => r matches Ok(page) && {
                    &&& page.kind == PageKind::Single
                    &&& !page.needs_key
                    &&& page.files@.len() == 1
                    &&& page.files@[0].file_id@ == file_id@
                    &&& page.files@[0].raw_name@ == n@
                    &&& page.files@[0].display_size matches Some(shown) && shown@ == d@
                    &&& page.files@[0].approx_bytes == display_size_bytes(d@)
                },
            },
        },
{
    match matomete? {
        Some(_) => {
            return Err(
                parse_error(
                    "matomete pages are not implemented in M1",
                    "This build only supports single-file pages; matomete support is scheduled for M2.",
                ),
            );
        },
        None => {},
    }
    let raw_name = match name? {
        None => {
            return Err(parse_error("missing #dl", parse_hint()));
        },
        Some(t) => t,
    };
    let display_size = match size? {
        None => {
            return Err(parse_error("missing .dl_size", parse_hint()));
        },
        Some(t) => t,
    };
    let approx_bytes = parse_display_size(display_size.as_str());
    let file = RemoteFile {
        file_id: String::from_str(file_id),
        raw_name,
        display_size: Some(display_size),
        approx_bytes,
    };
    let mut files: Vec<RemoteFile> = Vec::new();
    files.push(file);
    Ok(PageInfo { kind: PageKind::Single, files, needs_key: false })
}

/// Reads a single-file download page: what `#contents_matomete`, `#dl` and
/// `.dl_size` select in it decides the result (see `page_result_ok`).
pub fn parse_single_file_page(html: &str, file_id: &str) -> (r: Result<PageInfo, GfileError>)
    ensures
        page_result_ok(
            r,
            first_match_text(html@, "#contents_matomete"@),
            first_match_text(html@, "#dl"@),
            first_match_text(html@, ".dl_size"@),
            file_id@,
        ),
{
    let matomete = select_first_text(html, "#contents_matomete");
    let name = select_first_text(html, "#dl");
    let size = select_first_text(html, ".dl_size");
    page_from_texts(matomete, name, size, file_id)
}

} // verus!
