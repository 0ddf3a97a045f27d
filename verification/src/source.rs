//! Where a page comes from: local paths and remote URLs, link resolution
//! and address normalization. Reading files and fetching pages is done by
//! the application; this module decides what to read.
use vstd::prelude::*;
use crate::text::{chars_of, has_prefix, lower_seq, lower_string_of, starts_with, string_of, trim, trim_range, trimmed};
use crate::split::find_in;

verus! {

pub const DEFAULT_SOURCE: &'static str = "examples/welcome.html";

/// A page source: a path on this machine or an `http(s)` URL.
#[derive(Debug, Clone, PartialEq, Eq)]
pub enum SourceOrigin {
    Local(String),
    Remote(String),
}

/// The model of a source.
pub enum OriginModel {
    Local(Seq<char>),
    Remote(Seq<char>),
}

impl View for SourceOrigin {
    type V = OriginModel;

    open spec fn view(&self) -> OriginModel {
        match self {
            SourceOrigin::Local(p) => OriginModel::Local(p@),
            SourceOrigin::Remote(u) => OriginModel::Remote(u@),
        }
    }
}

pub open spec fn is_remote(s: Seq<char>) -> bool {
    starts_with(s, "http://"@) || starts_with(s, "https://"@)
}

/// A text that starts with `http://` or `https://` is remote; any other is
/// a local path.
pub fn classify_source(requested: &str) -> (r: SourceOrigin)
    ensures
        r@ == if is_remote(requested@) {
            OriginModel::Remote(requested@)
        } else {
            OriginModel::Local(requested@)
        },
{
    let v = chars_of(requested);
    proof {
        assert(v@.subrange(0, v.len() as int) =~= requested@);
    }
    if has_prefix(&v, "http://") || has_prefix(&v, "https://") {
        SourceOrigin::Remote(string_of(&v, 0, v.len()))
    } else {
        SourceOrigin::Local(string_of(&v, 0, v.len()))
    }
}

/// The media type of a `Content-Type` value: the part before any `;`,
/// trimmed and lower-cased.
pub open spec fn media_type(content_type: Seq<char>) -> Seq<char> {
    let head = match crate::text::split_once(content_type, ';') {
        Some((h, _)) => h,
        None => content_type,
    };
    lower_seq(trim(head))
}

/// Responses that can be shown: HTML, XHTML and plain text.
pub open spec fn is_text_response(content_type: Seq<char>) -> bool {
    let m = media_type(content_type);
    starts_with(m, "text/html"@) || starts_with(m, "application/xhtml+xml"@) || starts_with(
        m,
        "text/plain"@,
    )
}

pub fn supports_text_response(content_type: &str) -> (r: bool)
    ensures
        r == is_text_response(content_type@),
{
    let v = chars_of(content_type);
    let end = match find_in(&v, 0, v.len(), ';') {
        Some(i) => i,
        None => v.len(),
    };
    proof {
        assert(v@.subrange(0, v.len() as int) =~= content_type@);
        assert(v@.subrange(0, end as int) == match crate::text::split_once(content_type@, ';') {
            Some((h, _)) => h,
            None => content_type@,
        });
    }
    let (a, b) = trim_range(&v, 0, end);
    let normalized = lower_string_of(&v, a, b);
    let n = chars_of(normalized.as_str());
    has_prefix(&n, "text/html") || has_prefix(&n, "application/xhtml+xml") || has_prefix(
        &n,
        "text/plain",
    )
}

/// Addresses typed without a scheme that name a host.
pub open spec fn is_host_like(value: Seq<char>) -> bool {
    starts_with(value, "localhost"@) || starts_with(value, "127."@) || starts_with(value, "[::1]"@)
        || value.contains('.')
}

pub fn looks_like_host(value: &str) -> (r: bool)
    ensures
        r == is_host_like(value@),
{
    let v = chars_of(value);
    if has_prefix(&v, "localhost") || has_prefix(&v, "127.") || has_prefix(&v, "[::1]") {
        return true;
    }
    let dot = find_in(&v, 0, v.len(), '.');
    proof {
        assert(v@.subrange(0, v.len() as int) =~= value@);
        match dot {
            Some(i) => {
                lemma_find_some(value@, '.', 0);
                assert(value@[i as int] == '.');
            },
            None => {
                if value@.contains('.') {
                    let k = choose|k: int| 0 <= k < value@.len() && value@[k] == '.';
                    lemma_find_none(value@, '.', 0, k);
                }
            },
        }
    }
    dot.is_some()
}

proof fn lemma_find_some(s: Seq<char>, c: char, from: int)
    ensures
        crate::text::find_from(s, c, from) matches Some(i) ==> 0 <= i < s.len() && s[i] == c,
    decreases s.len() - from,
{
    if 0 <= from < s.len() && s[from] != c {
        lemma_find_some(s, c, from + 1);
    }
}

proof fn lemma_find_none(s: Seq<char>, c: char, from: int, k: int)
    requires
        0 <= from <= k < s.len(),
        s[k] == c,
    ensures
        crate::text::find_from(s, c, from) is Some,
    decreases k - from,
{
    if s[from] != c {
        lemma_find_none(s, c, from + 1, k);
    }
}

// ---------------------------------------------------------------------------
// Trusted calls into the `url` crate and `std::path`.

/// What `Url::parse(s)` gives: the URL's serialization, or the parse
/// error's message.
pub uninterp spec fn url_parse_of(s: Seq<char>) -> Result<Seq<char>, Seq<char>>;

/// What resolving `target` against the URL `base` gives with
/// `Url::parse(base)` and `Url::join`: `None` when `base` is not a URL,
/// `Some(None)` when the join fails, otherwise the joined URL's
/// serialization.
pub uninterp spec fn url_join_of(base: Seq<char>, target: Seq<char>) -> Option<Option<Seq<char>>>;

/// What `Url::parse(s)` gives of a URL's host (`host_str`) and path
/// (`path`); `None` when `s` is not a URL.
pub uninterp spec fn url_host_path_of(s: Seq<char>) -> Option<(Option<Seq<char>>, Seq<char>)>;

/// What `Url::from_file_path(path)` gives: the file URL's serialization, or
/// `None` where the crate refuses the path.
pub uninterp spec fn file_url_of(path: Seq<char>) -> Option<Seq<char>>;

/// `Path::is_absolute` of a text.
pub uninterp spec fn path_is_absolute_of(s: Seq<char>) -> bool;

/// `Path::parent` of a text, displayed as text.
pub uninterp spec fn path_parent_of(s: Seq<char>) -> Option<Seq<char>>;

/// `Path::join` of two texts, displayed as text.
pub uninterp spec fn path_join_of(base: Seq<char>, target: Seq<char>) -> Seq<char>;

pub open spec fn res_view(r: Result<String, String>) -> Result<Seq<char>, Seq<char>> {
    match r {
        Ok(s) => Ok(s@),
        Err(e) => Err(e@),
    }
}

/// Calls `url::Url::parse`; gives the serialization (`Display`) of the URL
/// or the message (`Display`) of the error. The contract names the result.
#[verifier::external_body]
pub(crate) fn url_parse(s: &str) -> (r: Result<String, String>)
    ensures
        res_view(r) == url_parse_of(s@),
{
    match url::Url::parse(s) {
        Ok(url) => Ok(url.to_string()),
        Err(err) => Err(err.to_string()),
    }
}

/// Calls `url::Url::join` on `url::Url::parse(base)`; gives the joined URL's
/// serialization. The contract names the result.
#[verifier::external_body]
pub(crate) fn url_join(base: &str, target: &str) -> (r: Option<Option<String>>)
    ensures
        match r {
            None => url_join_of(base@, target@) is None,
            Some(None) => url_join_of(base@, target@) == Some(None::<Seq<char>>),
            Some(Some(j)) => url_join_of(base@, target@) == Some(Some(j@)),
        },
{
    match url::Url::parse(base) {
        Ok(base_url) => Some(base_url.join(target).ok().map(|url| url.to_string())),
        Err(_) => None,
    }
}

/// Calls `url::Url::host_str` and `url::Url::path` on `url::Url::parse(s)`.
/// The contract names the result.
#[verifier::external_body]
pub(crate) fn url_host_path(s: &str) -> (r: Option<(Option<String>, String)>)
    ensures
        match r {
            None => url_host_path_of(s@) is None,
            Some((h, p)) => url_host_path_of(s@) == Some((crate::css::opt_view(h), p@)),
        },
{
    match url::Url::parse(s) {
        Ok(url) => Some((url.host_str().map(|h| h.to_string()), url.path().to_string())),
        Err(_) => None,
    }
}

/// Calls `url::Url::from_file_path` on the path a text names; gives the
/// file URL's serialization, `None` where the crate returns its error. The
/// contract names the result, and states what the crate documents: a path
/// that is not absolute is refused.
#[verifier::external_body]
fn url_from_file_path(path: &str) -> (r: Option<String>)
    ensures
        crate::css::opt_view(r) == file_url_of(path@),
        !path_is_absolute_of(path@) ==> r is None,
{
    url::Url::from_file_path(std::path::Path::new(path)).ok().map(|url| url.to_string())
}

/// Calls `std::path::Path::is_absolute`. The contract names the result.
#[verifier::external_body]
pub(crate) fn path_is_absolute(s: &str) -> (r: bool)
    ensures
        r == path_is_absolute_of(s@),
{
    std::path::Path::new(s).is_absolute()
}

/// Calls `std::path::Path::parent`; the parent is displayed as text. The
/// contract names the result.
#[verifier::external_body]
pub(crate) fn path_parent(s: &str) -> (r: Option<String>)
    ensures
        crate::css::opt_view(r) == path_parent_of(s@),
{
    std::path::Path::new(s).parent().map(|p| p.display().to_string())
}

/// Calls `std::path::Path::join`; the joined path is displayed as text. The
/// contract names the result.
#[verifier::external_body]
pub(crate) fn path_join(base: &str, target: &str) -> (r: String)
    ensures
        r@ == path_join_of(base@, target@),
{
    std::path::Path::new(base).join(target).display().to_string()
}

// ---------------------------------------------------------------------------

/// The address a link leads to from the page at `current_source`: the page
/// itself for an empty link, an `http(s)` link as written, a link resolved
/// as a URL when the page has a URL, otherwise a path next to the page's.
pub open spec fn resolve_spec(current: Seq<char>, target: Seq<char>) -> Seq<char> {
    let t = trim(target);
    if t.len() == 0 {
        current
    } else if is_remote(t) {
        t
    } else {
        match url_join_of(current, t) {
            Some(Some(j)) => j,
            Some(None) => t,
            None => if path_is_absolute_of(t) {
                t
            } else {
                path_join_of(
                    match path_parent_of(current) {
                        Some(p) => p,
                        None => "."@,
                    },
                    t,
                )
            },
        }
    }
}

pub fn resolve_reference(current_source: &str, target: &str) -> (r: String)
    ensures
        r@ == resolve_spec(current_source@, target@),
{
    let t = trimmed(target);
    if t.as_str().is_empty() {
        let v = chars_of(current_source);
        assert(v@.subrange(0, v.len() as int) =~= current_source@);
        return string_of(&v, 0, v.len());
    }
    match classify_source(t.as_str()) {
        SourceOrigin::Remote(_) => {
            return t;
        },
        SourceOrigin::Local(_) => {},
    }
    match url_join(current_source, t.as_str()) {
        Some(Some(joined)) => joined,
        Some(None) => t,
        None => {
            if path_is_absolute(t.as_str()) {
                t
            } else {
                let parent = match path_parent(current_source) {
                    Some(p) => p,
                    None => String::from_str("."),
                };
                path_join(parent.as_str(), t.as_str())
            }
        },
    }
}

/// What an address typed into the browser loads: a URL as the URL crate
/// serializes it; an existing local path as its file URL (`local_path`,
/// which the application finds on disk: `None` when no such path exists,
/// otherwise the path made absolute, or why it could not be); a host name
/// over `https`; otherwise an error.
pub open spec fn normalize_spec(requested: Seq<char>, local_path: Option<Result<Seq<char>, Seq<char>>>) -> Result<Seq<char>, Seq<char>> {
    let t = trim(requested);
    if t.len() == 0 {
        Err("address is empty"@)
    } else if url_parse_of(t) is Ok {
        url_parse_of(t)
    } else if local_path is Some {
        match local_path->0 {
            Ok(p) => match file_url_of(p) {
                Some(u) => Ok(u),
                None => Err("failed to convert "@ + p + " into a file URL"@),
            },
            Err(e) => Err(e),
        }
    } else if is_host_like(t) {
        match url_parse_of("https://"@ + t) {
            Ok(u) => Ok(u),
            Err(e) => Err("invalid address "@ + t + ": "@ + e),
        }
    } else {
        Err("unsupported address: "@ + t)
    }
}

fn concat3(a: &str, b: &String, c: &str) -> (r: String)
    ensures
        r@ == a@ + b@ + c@,
{
    let mut out = trimmed_copy(a);
    crate::style::append_str(&mut out, b);
    let tail = trimmed_copy(c);
    crate::style::append_str(&mut out, &tail);
    out
}

fn trimmed_copy(a: &str) -> (r: String)
    ensures
        r@ == a@,
{
    let v = chars_of(a);
    assert(v@.subrange(0, v.len() as int) =~= a@);
    string_of(&v, 0, v.len())
}

/// The path to look for on disk before normalizing an address: the
/// trimmed text, when it is not empty and not a URL.
pub fn local_lookup(requested: &str) -> (r: Option<String>)
    ensures
        crate::css::opt_view(r) == if trim(requested@).len() == 0 || url_parse_of(trim(requested@)) is Ok {
            None
        } else {
            Some(trim(requested@))
        },
{
    let t = trimmed(requested);
    if t.as_str().is_empty() {
        return None;
    }
    if url_parse(t.as_str()).is_ok() {
        return None;
    }
    Some(t)
}

/// Normalizes an address (see `normalize_spec`).
pub fn normalize_browser_url(requested: &str, local_path: Option<Result<String, String>>) -> (r: Result<String, String>)
    ensures
        res_view(r) == normalize_spec(
            requested@,
            match local_path {
                Some(l) => Some(res_view(l)),
                None => None,
            },
        ),
{
    let t = trimmed(requested);
    if t.as_str().is_empty() {
        return Err(String::from_str("address is empty"));
    }
    let parsed = url_parse(t.as_str());
    if parsed.is_ok() {
        return parsed;
    }
    match local_path {
        Some(Ok(path)) => {
            return match url_from_file_path(path.as_str()) {
                Some(u) => Ok(u),
                None => Err(concat3("failed to convert ", &path, " into a file URL")),
            };
        },
        Some(Err(e)) => {
            return Err(e);
        },
        None => {},
    }
    if looks_like_host(t.as_str()) {
        let candidate = concat3("https://", &t, "");
        proof {
            reveal_strlit("");
            assert(candidate@ =~= "https://"@ + t@);
        }
        match url_parse(candidate.as_str()) {
            Ok(u) => Ok(u),
            Err(e) => {
                let mut msg = concat3("invalid address ", &t, ": ");
                crate::style::append_str(&mut msg, &e);
                Err(msg)
            },
        }
    } else {
        let msg = concat3("unsupported address: ", &t, "");
        proof {
            reveal_strlit("");
            assert(msg@ =~= "unsupported address: "@ + t@);
        }
        Err(msg)
    }
}

/// Whether a fetched response can be shown: its status must be a success
/// and its content type, where it has one, a text type.
pub open spec fn response_verdict(final_url: Seq<char>, status_ok: bool, status: Seq<char>, content_type: Option<Seq<char>>) -> Result<(), Seq<char>> {
    if !status_ok {
        Err("request to "@ + final_url + " failed with status "@ + status)
    } else {
        match content_type {
            Some(ct) => if is_text_response(ct) {
                Ok(())
            } else {
                Err("unsupported content type from "@ + final_url + ": "@ + ct)
            },
            None => Ok(()),
        }
    }
}

/// Checks a response fetched from `final_url` (see `response_verdict`).
pub fn check_response(final_url: &str, status_ok: bool, status: &str, content_type: Option<&str>) -> (r: Result<(), String>)
    ensures
        match r {
            Ok(()) => response_verdict(final_url@, status_ok, status@, match content_type {
                Some(c) => Some(c@),
                None => None,
            }) is Ok,
            Err(e) => response_verdict(final_url@, status_ok, status@, match content_type {
                Some(c) => Some(c@),
                None => None,
            }) == Err::<(), Seq<char>>(e@),
        },
{
    if !status_ok {
        let mut msg = concat3("request to ", &String::from_str(final_url), " failed with status ");
        crate::style::append_str(&mut msg, &String::from_str(status));
        return Err(msg);
    }
    match content_type {
        Some(ct) => {
            if supports_text_response(ct) {
                Ok(())
            } else {
                let mut msg = concat3("unsupported content type from ", &String::from_str(final_url), ": ");
                crate::style::append_str(&mut msg, &String::from_str(ct));
                Err(msg)
            }
        },
        None => Ok(()),
    }
}

} // verus!
