//! Following an answer that says that something is elsewhere.
use crate::text;
use crate::urls;
use crate::urls::Url;
use vstd::prelude::*;

verus! {

/// Why an answer could not be followed.
#[derive(Debug)]
pub enum RedirectMiddlewareError {
    /// The answer for this URL does not say where.
    MissingLocationHeader(Url),
    /// The answer says this, which is no URL.
    BadLocationValue(String),
}

impl RedirectMiddlewareError {
    /// What is said of the error.
    pub fn to_text(&self) -> (r: String)
        ensures
            r@ == match *self {
                RedirectMiddlewareError::MissingLocationHeader(url) =>
                    "Missing 'Location' header in redirect response for URL "@ + url@,
                RedirectMiddlewareError::BadLocationValue(location) => "Bad 'Location' header URL "@ + location@,
            },
    {
        match self {
            RedirectMiddlewareError::MissingLocationHeader(url) => text::concat2(
                "Missing 'Location' header in redirect response for URL ",
                url.as_str(),
            ),
            RedirectMiddlewareError::BadLocationValue(location) => text::concat2(
                "Bad 'Location' header URL ",
                location.as_str(),
            ),
        }
    }
}

/// How many answers in a row are followed.
#[derive(Clone, Copy, Debug, PartialEq, Eq, Structural)]
pub struct RedirectMiddleware {
    pub limit: u8,
}

impl RedirectMiddleware {
    /// Follows five answers.
    pub fn new() -> (r: RedirectMiddleware)
        ensures
            r.limit == 5,
    {
        RedirectMiddleware::new_with_limit(5)
    }

    /// Follows a number of answers.
    pub fn new_with_limit(limit: u8) -> (r: RedirectMiddleware)
        ensures
            r.limit == limit,
    {
        RedirectMiddleware { limit }
    }
}

/// The request that is to be made: where, whether by GET whatever the method was, and how many answers were
/// followed before.
#[derive(Debug)]
pub struct Redirects {
    pub url: Url,
    pub by_get: bool,
    pub redirects: u8,
}

/// Whether a status says that something is elsewhere.
pub open spec fn is_redirection(status: u16) -> bool {
    300 <= status < 400
}

/// Whether a status makes the next request one by GET.
pub open spec fn makes_get(status: u16) -> bool {
    status == 301 || status == 302 || status == 303
}

impl Redirects {
    /// The first request.
    pub fn new(url: Url) -> (r: Redirects)
        ensures
            r.url == url,
            !r.by_get,
            r.redirects == 0,
    {
        Redirects { url, by_get: false, redirects: 0 }
    }

    /// Whether another request may be made.
    pub fn may_go_on(&self, middleware: &RedirectMiddleware) -> (r: bool)
        ensures
            r == (self.redirects < middleware.limit),
    {
        self.redirects < middleware.limit
    }

    /// Takes the status of an answer and the places that it names, of which the first counts. Says whether
    /// the answer is to be followed; where not, it is the one that was asked for.
    pub fn answered(&mut self, middleware: &RedirectMiddleware, status: u16, locations: &Vec<String>) -> (r: Result<
        bool,
        RedirectMiddlewareError,
    >)
        requires
            old(self).redirects < middleware.limit,
        ensures
            if !is_redirection(status) {
                r == Ok::<bool, RedirectMiddlewareError>(false) && *final(self) == *old(self)
            } else {
                &&& final(self).redirects == old(self).redirects + 1
                &&& final(self).by_get == (old(self).by_get || makes_get(status))
                &&& if locations@.len() == 0 {
                    r == Err::<bool, RedirectMiddlewareError>(
                        RedirectMiddlewareError::MissingLocationHeader(old(self).url),
                    ) && final(self).url == old(self).url
                } else {
                    match urls::parsed_url(locations@[0]@) {
                        Some(url) => r == Ok::<bool, RedirectMiddlewareError>(true) && final(self).url@ == url,
                        None => r == Err::<bool, RedirectMiddlewareError>(
                            RedirectMiddlewareError::BadLocationValue(locations@[0]),
                        ) && final(self).url == old(self).url,
                    }
                }
            },
    {
        if status < 300 || status >= 400 {
            return Ok(false);
        }
        self.redirects = self.redirects + 1;
        if status == 301 || status == 302 || status == 303 {
            self.by_get = true;
        }
        if locations.len() == 0 {
            return Err(RedirectMiddlewareError::MissingLocationHeader(self.url.clone()));
        }
        match Url::parse(locations[0].as_str()) {
            Ok(url) => {
                self.url = url;
                Ok(true)
            },
            Err(_) => Err(RedirectMiddlewareError::BadLocationValue(locations[0].clone())),
        }
    }
}

/// The answers that are followed are those with a status from 300 to 399; those that say that something has moved
/// or has been found, or that another place is to be seen, are followed by GET, and no other.
pub proof fn which_answers_are_followed(status: u16)
    ensures
        is_redirection(status) <==> status / 100 == 3,
        makes_get(status) <==> 301 <= status <= 303,
        makes_get(status) ==> is_redirection(status),
{
}

} // verus!
