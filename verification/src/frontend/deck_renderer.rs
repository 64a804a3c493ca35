//! The form into which a deck's URL is entered.
use crate::text;
use crate::types::frontend_to_server::FrontendToServerMessage;
use crate::urls;
use crate::urls::Url;
use vstd::prelude::*;

verus! {

/// What the form reacts to.
pub enum Msg {
    RenderDeck,
    SetRawUrl(String),
}

/// The form: what was entered, and the URL that it is or why it is none.
pub struct DeckRenderer {
    pub raw_url: String,
    pub parsed_url: Result<Url, String>,
}

/// Whether the form waits for a URL to be entered.
pub open spec fn waits(parsed_url: Result<Url, String>) -> bool {
    parsed_url matches Err(why) && why@ == "Please enter a URL"@
}

/// Whether the form holds what a text was parsed as: the URL, or what is wrong with the text.
pub open spec fn holds(parsed_url: Result<Url, String>, parsed: Result<Url, String>) -> bool {
    match parsed {
        Ok(url) => parsed_url == Ok::<Url, String>(url),
        Err(problem) => parsed_url matches Err(why) && why@ == "Invalid URL: "@ + problem@,
    }
}

impl DeckRenderer {
    /// The empty form.
    pub fn create() -> (r: DeckRenderer)
        ensures
            r.raw_url@.len() == 0,
            waits(r.parsed_url),
    {
        DeckRenderer { raw_url: String::new(), parsed_url: Err("Please enter a URL".to_string()) }
    }

    /// Whether the button can be pressed.
    pub fn can_convert(&self) -> (r: bool)
        ensures
            r == (self.parsed_url is Ok),
    {
        self.parsed_url.is_ok()
    }

    /// Takes a text that was entered, with the URL that it was parsed as or what is wrong with it.
    pub fn set_url(&mut self, raw: String, parsed: Result<Url, String>)
        ensures
            final(self).raw_url == raw,
            holds(final(self).parsed_url, parsed),
    {
        self.raw_url = raw;
        self.parsed_url = match parsed {
            Ok(url) => Ok(url),
            Err(problem) => Err(text::concat2("Invalid URL: ", problem.as_str())),
        };
    }

    /// Reacts to a message: whether the form has to be shown anew, and what is to be sent to the
    /// server.
    pub fn update(&mut self, msg: Msg) -> (r: (bool, Option<FrontendToServerMessage>))
        ensures
            match msg {
                Msg::RenderDeck => match old(self).parsed_url {
                    Ok(url) => {
                        &&& r.0
                        &&& r.1 == Some(FrontendToServerMessage::RenderDeck { url })
                        &&& waits(final(self).parsed_url)
                        &&& final(self).raw_url == old(self).raw_url
                    },
                    Err(_) => !r.0 && r.1 is None && *final(self) == *old(self),
                },
                Msg::SetRawUrl(s) => {
                    &&& r.0
                    &&& r.1 is None
                    &&& final(self).raw_url == s
                    &&& match final(self).parsed_url {
                        Ok(url) => urls::parsed_url(s@) == Some(url@),
                        Err(why) => urls::parsed_url(s@) is None && why@ == "Invalid URL: "@ + urls::url_problem(s@),
                    }
                },
            },
    {
        match msg {
            Msg::RenderDeck => {
                let send = match &self.parsed_url {
                    Ok(url) => Some(FrontendToServerMessage::RenderDeck { url: url.clone() }),
                    Err(_) => None,
                };
                if send.is_some() {
                    self.parsed_url = Err("Please enter a URL".to_string());
                    (true, send)
                } else {
                    (false, None)
                }
            },
            Msg::SetRawUrl(s) => {
                let parsed = match Url::parse(s.as_str()) {
                    Ok(url) => Ok(url),
                    Err(_) => Err(Url::problem_of(s.as_str())),
                };
                self.set_url(s, parsed);
                (true, None)
            },
        }
    }
}

/// The form asks for a URL, holds the one that was entered, or says what is wrong with it.
pub proof fn form_says_what_it_holds(url: Url, other: Url, why: String, problem: String)
    ensures
        waits(Err::<Url, String>(why)) <==> why@ == "Please enter a URL"@,
        !waits(Ok::<Url, String>(url)),
        holds(Ok::<Url, String>(other), Ok::<Url, String>(url)) <==> other == url,
        holds(Err::<Url, String>(why), Err::<Url, String>(problem)) <==> why@ == "Invalid URL: "@ + problem@,
        !holds(Err::<Url, String>(why), Ok::<Url, String>(url)),
        !holds(Ok::<Url, String>(url), Err::<Url, String>(problem)),
{
}

} // verus!
