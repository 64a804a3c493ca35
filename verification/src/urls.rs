//! Absolute URLs.
//!
//! A [`Url`] holds a URL in its serialized form. What a URL consists of, and how it is put
//! together, is the business of the `url` crate: each of its answers has a name here, as a function
//! of the serialized text.
use crate::text;
use vstd::prelude::*;

verus! {

/// What `url::Url::parse` makes of a text: the serialized URL, or none where it fails.
pub uninterp spec fn parsed_url(s: Seq<char>) -> Option<Seq<char>>;

/// What the error of `url::Url::parse` on a text says; empty where there is no error.
pub uninterp spec fn url_problem(s: Seq<char>) -> Seq<char>;

/// The domain name of a URL (`url::Url::domain`).
pub uninterp spec fn url_domain(s: Seq<char>) -> Option<Seq<char>>;

/// The host of a URL as text (`url::Url::host_str`).
pub uninterp spec fn url_host(s: Seq<char>) -> Option<Seq<char>>;

/// The scheme of a URL (`url::Url::scheme`).
pub uninterp spec fn url_scheme(s: Seq<char>) -> Option<Seq<char>>;

/// The path of a URL (`url::Url::path`).
pub uninterp spec fn url_path(s: Seq<char>) -> Option<Seq<char>>;

/// The segments of a URL's path (`url::Url::path_segments`).
pub uninterp spec fn url_path_segments(s: Seq<char>) -> Option<Seq<Seq<char>>>;

/// A reference resolved against a URL (`url::Url::join`).
pub uninterp spec fn url_joined(base: Seq<char>, reference: Seq<char>) -> Option<Seq<char>>;

/// A URL with more segments at the end of its path (`url::PathSegmentsMut::extend`).
pub uninterp spec fn url_extended(base: Seq<char>, segments: Seq<Seq<char>>) -> Option<Seq<char>>;

/// A URL with another path (`url::Url::set_path`).
pub uninterp spec fn url_with_path(base: Seq<char>, path: Seq<char>) -> Option<Seq<char>>;

/// A URL with another scheme (`url::Url::set_scheme`).
pub uninterp spec fn url_with_scheme(base: Seq<char>, scheme: Seq<char>) -> Option<Seq<char>>;

/// A URL with parameters behind its query (`url::Url::parse_with_params`).
pub uninterp spec fn url_with_params(base: Seq<char>, params: Seq<(Seq<char>, Seq<char>)>) -> Option<
    Seq<char>,
>;

/// The view of an optional string.
pub open spec fn opt_text(s: Option<String>) -> Option<Seq<char>> {
    match s {
        Some(t) => Some(t@),
        None => None,
    }
}

/// The views of pairs of strings.
pub open spec fn pair_texts(v: Seq<(String, String)>) -> Seq<(Seq<char>, Seq<char>)> {
    v.map_values(|p: (String, String)| (p.0@, p.1@))
}

/// `url::Url::parse`, with the URL in serialized form.
#[verifier::external_body]
fn parse_text(s: &str) -> (r: Option<String>)
    ensures
        opt_text(r) == parsed_url(s@),
{
    url::Url::parse(s).ok().map(String::from)
}

/// The `Display` of the error of `url::Url::parse` on a text, and the empty text where there is none.
#[verifier::external_body]
fn problem_text(s: &str) -> (r: String)
    ensures
        r@ == url_problem(s@),
{
    match url::Url::parse(s) {
        Ok(_) => String::new(),
        Err(e) => e.to_string(),
    }
}

/// `url::Url::domain` of a serialized URL; none where the text is no URL.
#[verifier::external_body]
fn domain_of(s: &str) -> (r: Option<String>)
    ensures
        opt_text(r) == url_domain(s@),
{
    url::Url::parse(s).ok()?.domain().map(str::to_owned)
}

/// `url::Url::host_str` of a serialized URL; none where the text is no URL.
#[verifier::external_body]
fn host_of(s: &str) -> (r: Option<String>)
    ensures
        opt_text(r) == url_host(s@),
{
    url::Url::parse(s).ok()?.host_str().map(str::to_owned)
}

/// `url::Url::scheme` of a serialized URL; none where the text is no URL.
#[verifier::external_body]
fn scheme_of(s: &str) -> (r: Option<String>)
    ensures
        opt_text(r) == url_scheme(s@),
{
    Some(url::Url::parse(s).ok()?.scheme().to_owned())
}

/// `url::Url::path` of a serialized URL; none where the text is no URL.
#[verifier::external_body]
fn path_of(s: &str) -> (r: Option<String>)
    ensures
        opt_text(r) == url_path(s@),
{
    Some(url::Url::parse(s).ok()?.path().to_owned())
}

/// `url::Url::path_segments` of a serialized URL; none where the text is no URL. Where there are
/// segments there is at least one.
#[verifier::external_body]
fn path_segments_of(s: &str) -> (r: Option<Vec<String>>)
    ensures
        match r {
            Some(v) => url_path_segments(s@) == Some(text::texts(v@)) && v@.len() > 0,
            None => url_path_segments(s@) is None,
        },
{
    let url = url::Url::parse(s).ok()?;
    let segments = url.path_segments()?;
    Some(segments.map(str::to_owned).collect())
}

/// `url::Url::join`: a reference resolved against a serialized URL.
#[verifier::external_body]
fn join_text(base: &str, reference: &str) -> (r: Option<String>)
    ensures
        opt_text(r) == url_joined(base@, reference@),
{
    url::Url::parse(base).ok()?.join(reference).ok().map(String::from)
}

/// `url::PathSegmentsMut::extend`: a serialized URL with more segments.
#[verifier::external_body]
fn extend_text(base: &str, segments: &Vec<String>) -> (r: Option<String>)
    ensures
        opt_text(r) == url_extended(base@, text::texts(segments@)),
{
    let mut url = url::Url::parse(base).ok()?;
    url.path_segments_mut().ok()?.extend(segments);
    Some(String::from(url))
}

/// `url::Url::set_path`: a serialized URL with another path.
#[verifier::external_body]
fn set_path_text(base: &str, path: &str) -> (r: Option<String>)
    ensures
        opt_text(r) == url_with_path(base@, path@),
{
    let mut url = url::Url::parse(base).ok()?;
    url.set_path(path);
    Some(String::from(url))
}

/// `url::Url::set_scheme`: a serialized URL with another scheme, or none where that is refused.
#[verifier::external_body]
fn set_scheme_text(base: &str, scheme: &str) -> (r: Option<String>)
    ensures
        opt_text(r) == url_with_scheme(base@, scheme@),
{
    let mut url = url::Url::parse(base).ok()?;
    url.set_scheme(scheme).ok()?;
    Some(String::from(url))
}

/// `url::Url::parse_with_params`: a URL with more parameters in its query.
#[verifier::external_body]
fn parse_params_text(base: &str, params: &Vec<(String, String)>) -> (r: Option<String>)
    ensures
        opt_text(r) == url_with_params(base@, pair_texts(params@)),
{
    url::Url::parse_with_params(base, params).ok().map(String::from)
}

/// The text is no URL, or cannot be made one in the way that was asked.
#[derive(Clone, Copy, Debug, PartialEq, Eq, Structural)]
pub struct UrlError;

/// An absolute URL.
#[derive(Debug, Hash)]
pub struct Url {
    text: String,
}

impl View for Url {
    type V = Seq<char>;

    closed spec fn view(&self) -> Seq<char> {
        self.text@
    }
}

impl Clone for Url {
    fn clone(&self) -> (r: Url)
        ensures
            r == *self,
    {
        Url { text: self.text.clone() }
    }
}

/// The outcome that a named answer of the `url` crate gives.
pub open spec fn is_outcome(r: Result<Url, UrlError>, named: Option<Seq<char>>) -> bool {
    match r {
        Ok(url) => named == Some(url@),
        Err(_) => named is None,
    }
}

fn outcome(t: Option<String>) -> (r: Result<Url, UrlError>)
    ensures
        is_outcome(r, opt_text(t)),
{
    match t {
        Some(text) => Ok(Url { text }),
        None => Err(UrlError),
    }
}

impl Url {
    /// Reads a URL.
    pub fn parse(s: &str) -> (r: Result<Url, UrlError>)
        ensures
            is_outcome(r, parsed_url(s@)),
    {
        outcome(parse_text(s))
    }

    /// What is wrong with a text that is no URL.
    pub fn problem_of(s: &str) -> (r: String)
        ensures
            r@ == url_problem(s@),
    {
        problem_text(s)
    }

    /// Reads a URL and adds parameters to its query.
    pub fn parse_with_params(s: &str, params: &Vec<(String, String)>) -> (r: Result<Url, UrlError>)
        ensures
            is_outcome(r, url_with_params(s@, pair_texts(params@))),
    {
        outcome(parse_params_text(s, params))
    }

    /// The URL as text.
    pub fn as_str(&self) -> (r: &str)
        ensures
            r@ == self@,
    {
        self.text.as_str()
    }

    /// Whether two URLs are the same.
    pub fn same(&self, other: &Url) -> (r: bool)
        ensures
            r == (self@ == other@),
    {
        text::same_text(self.text.as_str(), other.text.as_str())
    }

    /// The domain name, where the host is one.
    pub fn domain(&self) -> (r: Option<String>)
        ensures
            opt_text(r) == url_domain(self@),
    {
        domain_of(self.text.as_str())
    }

    /// The host.
    pub fn host_str(&self) -> (r: Option<String>)
        ensures
            opt_text(r) == url_host(self@),
    {
        host_of(self.text.as_str())
    }

    /// The scheme.
    pub fn scheme(&self) -> (r: Option<String>)
        ensures
            opt_text(r) == url_scheme(self@),
    {
        scheme_of(self.text.as_str())
    }

    /// The path.
    pub fn path(&self) -> (r: Option<String>)
        ensures
            opt_text(r) == url_path(self@),
    {
        path_of(self.text.as_str())
    }

    /// The segments of the path.
    pub fn path_segments(&self) -> (r: Option<Vec<String>>)
        ensures
            match r {
                Some(v) => url_path_segments(self@) == Some(text::texts(v@)) && v@.len() > 0,
                None => url_path_segments(self@) is None,
            },
    {
        path_segments_of(self.text.as_str())
    }

    /// A reference resolved against this URL.
    pub fn join(&self, reference: &str) -> (r: Result<Url, UrlError>)
        ensures
            is_outcome(r, url_joined(self@, reference@)),
    {
        outcome(join_text(self.text.as_str(), reference))
    }

    /// This URL with more segments at the end of its path.
    pub fn extended(&self, segments: &Vec<String>) -> (r: Result<Url, UrlError>)
        ensures
            is_outcome(r, url_extended(self@, text::texts(segments@))),
    {
        outcome(extend_text(self.text.as_str(), segments))
    }

    /// This URL with another path.
    pub fn with_path(&self, path: &str) -> (r: Result<Url, UrlError>)
        ensures
            is_outcome(r, url_with_path(self@, path@)),
    {
        outcome(set_path_text(self.text.as_str(), path))
    }

    /// This URL with another scheme.
    pub fn with_scheme(&self, scheme: &str) -> (r: Result<Url, UrlError>)
        ensures
            is_outcome(r, url_with_scheme(self@, scheme@)),
    {
        outcome(set_scheme_text(self.text.as_str(), scheme))
    }
}

/// A URL comes out exactly where there is one, and it is that one.
pub proof fn outcomes_are_what_is_named(url: Url, e: UrlError, named: Option<Seq<char>>, s: String)
    ensures
        is_outcome(Ok::<Url, UrlError>(url), named) <==> named == Some(url@),
        is_outcome(Err::<Url, UrlError>(e), named) <==> named is None,
        opt_text(Some(s)) == Some(s@),
        opt_text(None) is None,
{
}

} // verus!
