//! The page as a whole.
use crate::text;
use crate::types::server_to_frontend::{Error, ServerToFrontendMessage};
use crate::urls;
use crate::urls::Url;
use vstd::prelude::*;

verus! {

/// What the page reacts to.
pub enum Msg {
    IgnoreError(usize),
    WS(ServerToFrontendMessage),
}

/// The page: the errors that the user has not dismissed.
pub struct Model {
    pub fatal_errors: Vec<Error>,
}

/// The errors after a message.
pub open spec fn errors_after(errors: Seq<Error>, msg: Msg) -> Seq<Error> {
    match msg {
        Msg::IgnoreError(i) => if i < errors.len() {
            errors.remove(i as int)
        } else {
            errors
        },
        Msg::WS(ServerToFrontendMessage::FatalError(e)) => errors.push(e),
        Msg::WS(_) => errors,
    }
}

impl Model {
    /// The page without errors.
    pub fn create() -> (r: Model)
        ensures
            r.fatal_errors@.len() == 0,
    {
        Model { fatal_errors: Vec::new() }
    }

    /// Reacts to a message, and says whether the page has to be shown anew.
    pub fn update(&mut self, msg: Msg) -> (should_render: bool)
        ensures
            final(self).fatal_errors@ == errors_after(old(self).fatal_errors@, msg),
            should_render == match msg {
                Msg::IgnoreError(i) => i < old(self).fatal_errors@.len(),
                Msg::WS(_) => true,
            },
    {
        match msg {
            Msg::IgnoreError(i) => {
                if i < self.fatal_errors.len() {
                    self.fatal_errors.remove(i);
                    true
                } else {
                    false
                }
            },
            Msg::WS(ws_msg) => {
                match ws_msg {
                    ServerToFrontendMessage::FatalError(e) => {
                        self.fatal_errors.push(e);
                    },
                    _ => {},
                }
                true
            },
        }
    }

    /// Whether an error is shown with its details: it has some, and they say more than its message.
    pub fn shows_details(e: &Error) -> (r: bool)
        ensures
            r == (e.details is Some && e.details->0@ != e.user_message@),
    {
        match &e.details {
            Some(details) => !text::same_text(details.as_str(), e.user_message.as_str()),
            None => false,
        }
    }
}

/// Dismissing the error that has just come brings the errors back to what they were.
pub proof fn dismissing_undoes_error(errors: Seq<Error>, e: Error)
    requires
        errors.len() <= usize::MAX,
    ensures
        errors_after(
            errors_after(errors, Msg::WS(ServerToFrontendMessage::FatalError(e))),
            Msg::IgnoreError(errors.len() as usize),
        ) == errors,
{
    assert(errors.push(e).remove(errors.len() as int) =~= errors);
}

/// Why the page has no address for its web socket.
#[derive(Clone, Copy, Debug, PartialEq, Eq, Structural)]
pub enum WsUrlError {
    /// The page was not loaded by `http:` or `https:`.
    UnexpectedProtocol,
    /// The address is no URL.
    BadUrl,
}

/// The protocol of the web socket for that of the page.
pub open spec fn ws_protocol(web: Seq<char>) -> Option<Seq<char>> {
    if web == "http:"@ {
        Some("ws:"@)
    } else if web == "https:"@ {
        Some("wss:"@)
    } else {
        None
    }
}

/// The host of the web socket for that of the page.
pub open spec fn ws_host(host: Seq<char>) -> Seq<char> {
    if text::has_suffix(host, ":8123"@) {
        text::replace_text(host, ":8123"@, ":8124"@)
    } else {
        host
    }
}

/// The text of the web socket's address.
pub fn ws_url_text(protocol: &str, host: &str) -> (r: Option<String>)
    ensures
        match r {
            Some(t) => ws_protocol(protocol@) is Some && t@ == ws_protocol(protocol@)->0 + "//"@ + ws_host(
                host@,
            ) + "/ws/"@,
            None => ws_protocol(protocol@) is None,
        },
{
    let ws = if text::same_text(protocol, "http:") {
        "ws:"
    } else if text::same_text(protocol, "https:") {
        "wss:"
    } else {
        return None;
    };
    let mut t = text::concat2(ws, "//");
    if text::ends_with(host, ":8123") {
        proof {
            reveal_strlit(":8123");
        }
        t.append(text::replace(host, ":8123", ":8124").as_str());
    } else {
        t.append(host);
    }
    t.append("/ws/");
    Some(t)
}

/// The address of the web socket that belongs to a page.
pub fn make_ws_url(protocol: &str, host: &str) -> (r: Result<Url, WsUrlError>)
    ensures
        match ws_protocol(protocol@) {
            None => r == Err::<Url, WsUrlError>(WsUrlError::UnexpectedProtocol),
            Some(ws) => match urls::parsed_url(ws + "//"@ + ws_host(host@) + "/ws/"@) {
                Some(t) => r is Ok && r->Ok_0@ == t,
                None => r == Err::<Url, WsUrlError>(WsUrlError::BadUrl),
            },
        },
{
    match ws_url_text(protocol, host) {
        None => Err(WsUrlError::UnexpectedProtocol),
        Some(t) => match Url::parse(t.as_str()) {
            Ok(url) => Ok(url),
            Err(_) => Err(WsUrlError::BadUrl),
        },
    }
}

/// A fatal error is shown behind the others until it is dismissed; dismissing one leaves the others, in their order,
/// and nothing else changes them.
pub proof fn errors_stay_until_dismissed(before: Seq<Error>, e: Error, behind: Seq<Error>, msg: ServerToFrontendMessage)
    requires
        before.len() <= usize::MAX,
    ensures
        errors_after(before, Msg::WS(ServerToFrontendMessage::FatalError(e))) == before.push(e),
        errors_after(before.push(e) + behind, Msg::IgnoreError(before.len() as usize)) == before + behind,
        !(msg is FatalError) ==> errors_after(before, Msg::WS(msg)) == before,
        forall|i: usize| i >= before.len() ==> #[trigger] errors_after(before, Msg::IgnoreError(i)) == before,
{
    assert((before.push(e) + behind).remove(before.len() as int) =~= before + behind);
}

/// The web socket of a page is as safe as the page: it is secured exactly where the page is.
pub proof fn web_socket_is_as_safe(web: Seq<char>)
    ensures
        ws_protocol(web) == Some("ws:"@) <==> web == "http:"@,
        ws_protocol(web) == Some("wss:"@) <==> web == "https:"@,
        ws_protocol(web) is None <==> web != "http:"@ && web != "https:"@,
{
    reveal_strlit("ws:");
    reveal_strlit("wss:");
    reveal_strlit("http:");
    reveal_strlit("https:");
    assert("ws:"@.len() == 3 && "wss:"@.len() == 4);
    assert("http:"@.len() == 5 && "https:"@.len() == 6);
}

/// The web socket is on the page's host, but for the port of a server under development, which has another one.
pub proof fn web_socket_is_on_the_host(host: Seq<char>)
    ensures
        !text::has_suffix(host, ":8123"@) ==> ws_host(host) == host,
        !text::contains_text(host, ":8123"@) ==> ws_host(host) == host,
        (forall|j: int| 0 <= j < host.len() ==> !text::occurs_at(host + ":8123"@, ":8123"@, j)) ==> ws_host(
            host + ":8123"@,
        ) == host + ":8124"@,
{
    reveal_strlit(":8123");
    let port = ":8123"@;
    if text::has_suffix(host, port) {
        assert(text::occurs_at(host, port, host.len() - port.len()));
    }
    let full = host + port;
    assert(full.subrange(host.len() as int, full.len() as int) =~= port);
    assert(text::has_suffix(full, port));
    if forall|j: int| 0 <= j < host.len() ==> !text::occurs_at(full, port, j) {
        let none = Seq::<char>::empty();
        assert(host + port + none =~= full);
        text::replace_at_first(host, port, none, ":8124"@);
        assert(!text::contains_text(none, port));
        text::replace_of_nothing(none, port, ":8124"@);
        assert(host + ":8124"@ + none =~= host + ":8124"@);
    }
}

} // verus!
