//! What the server does with what comes over a WebSocket.
use crate::types::server_to_frontend::{Error, Notification, ServerToFrontendMessage};
use crate::types::user::UserId;
use vstd::prelude::*;

verus! {

/// What comes over the WebSocket.
#[derive(Debug)]
pub enum Incoming {
    Text(String),
    Binary(Vec<u8>),
    Ping(Vec<u8>),
    Pong,
    Close,
    /// The connection failed.
    Failed,
    /// The connection ended.
    Ended,
}

/// What happens while a WebSocket is open.
#[derive(Debug)]
pub enum Event {
    /// It is time to ask whether the other side is still there.
    Timer,
    /// There is news for the user.
    News(Notification),
    /// There is news for the user that cannot be read; this says why.
    BadNews(String),
    /// There will be no more news.
    NoMoreNews,
    /// There is a message for the user.
    Outbound(ServerToFrontendMessage),
    /// There will be no more messages for the user.
    NoMoreOutbound,
    /// Something came over the WebSocket.
    Incoming(Incoming),
}

/// What is done about it.
#[derive(Debug)]
pub enum Action {
    /// Ask whether the other side is still there.
    Ping,
    /// Answer that this side is still there.
    Pong(Vec<u8>),
    /// Send a message.
    Send(ServerToFrontendMessage),
    /// Read a message of the user from text, and handle it.
    HandleText(String),
    /// Read a message of the user from bytes, and handle it.
    HandleBytes(Vec<u8>),
    /// Nothing.
    Nothing,
    /// Close the connection.
    Stop,
}

/// Whether an action is what is to be done about an event.
pub open spec fn is_action(event: Event, action: Action) -> bool {
    match event {
        Event::Timer => action is Ping,
        Event::News(n) => action == Action::Send(ServerToFrontendMessage::Notification(n)),
        Event::BadNews(why) => {
            &&& action matches Action::Send(ServerToFrontendMessage::Notification(Notification::Error(e)))
            &&& e.user_message@ == "Internal error parsing notification message"@
            &&& e.details == Some(why)
        },
        Event::NoMoreNews => action is Nothing,
        Event::Outbound(msg) => action == Action::Send(msg),
        Event::NoMoreOutbound => action is Nothing,
        Event::Incoming(Incoming::Text(s)) => action == Action::HandleText(s),
        Event::Incoming(Incoming::Binary(b)) => action == Action::HandleBytes(b),
        Event::Incoming(Incoming::Ping(b)) => action == Action::Pong(b),
        Event::Incoming(Incoming::Pong) => action is Nothing,
        Event::Incoming(Incoming::Close) => action is Stop,
        Event::Incoming(Incoming::Failed) => action is Stop,
        Event::Incoming(Incoming::Ended) => action is Stop,
    }
}

/// What is done about an event while a WebSocket is open.
pub fn handle_connection(event: Event) -> (r: Action)
    ensures
        is_action(event, r),
{
    match event {
        Event::Timer => Action::Ping,
        Event::News(n) => Action::Send(ServerToFrontendMessage::Notification(n)),
        Event::BadNews(why) => {
            let error = Error {
                user_message: "Internal error parsing notification message".to_string(),
                details: Some(why),
            };
            Action::Send(ServerToFrontendMessage::Notification(Notification::Error(error)))
        },
        Event::NoMoreNews => Action::Nothing,
        Event::Outbound(msg) => Action::Send(msg),
        Event::NoMoreOutbound => Action::Nothing,
        Event::Incoming(incoming) => match incoming {
            Incoming::Text(s) => Action::HandleText(s),
            Incoming::Binary(b) => Action::HandleBytes(b),
            Incoming::Ping(b) => Action::Pong(b),
            Incoming::Pong => Action::Nothing,
            Incoming::Close => Action::Stop,
            Incoming::Failed => Action::Stop,
            Incoming::Ended => Action::Stop,
        },
    }
}

/// The message for a user one of whose messages could not be handled.
pub fn handling_failed(message: String, details: String) -> (r: ServerToFrontendMessage)
    ensures
        r == ServerToFrontendMessage::FatalError(Error { user_message: message, details: Some(details) }),
{
    ServerToFrontendMessage::FatalError(Error { user_message: message, details: Some(details) })
}

/// Why a deck is not deleted.
#[derive(Clone, Copy, Debug, PartialEq, Eq, Structural)]
pub enum DeleteError {
    NoDeck,
    NotYours,
}

impl DeleteError {
    /// What is said of the error.
    pub fn to_text(&self) -> (r: &'static str)
        ensures
            r@ == match *self {
                DeleteError::NoDeck => "Invalid deck ID"@,
                DeleteError::NotYours => "Invalid deck ID (that doesn't belong to you)"@,
            },
    {
        match self {
            DeleteError::NoDeck => "Invalid deck ID",
            DeleteError::NotYours => "Invalid deck ID (that doesn't belong to you)",
        }
    }
}

/// Whether a user may delete a deck, as its owner says, where there is such a deck.
pub fn may_delete(user: UserId, owner: Option<UserId>) -> (r: Result<(), DeleteError>)
    ensures
        r == match owner {
            None => Err::<(), DeleteError>(DeleteError::NoDeck),
            Some(o) => if o == user {
                Ok::<(), DeleteError>(())
            } else {
                Err::<(), DeleteError>(DeleteError::NotYours)
            },
        },
{
    match owner {
        None => Err(DeleteError::NoDeck),
        Some(o) => if o.0 == user.0 {
            Ok(())
        } else {
            Err(DeleteError::NotYours)
        },
    }
}

/// A connection is closed exactly where the other side closes it or it fails or ends; everything else leaves it
/// open.
pub proof fn connection_stays_open(event: Event, action: Action)
    requires
        is_action(event, action),
    ensures
        action is Stop <==> event == Event::Incoming(Incoming::Close) || event == Event::Incoming(Incoming::Failed)
            || event == Event::Incoming(Incoming::Ended),
{
}

/// Every message of the user is handled, every ping is answered with its own bytes, and every message and all news
/// for the user are sent.
pub proof fn nothing_is_lost(action: Action, s: String, b: Vec<u8>, msg: ServerToFrontendMessage, n: Notification)
    ensures
        is_action(Event::Incoming(Incoming::Text(s)), action) <==> action == Action::HandleText(s),
        is_action(Event::Incoming(Incoming::Binary(b)), action) <==> action == Action::HandleBytes(b),
        is_action(Event::Incoming(Incoming::Ping(b)), action) <==> action == Action::Pong(b),
        is_action(Event::Outbound(msg), action) <==> action == Action::Send(msg),
        is_action(Event::News(n), action) <==> action == Action::Send(ServerToFrontendMessage::Notification(n)),
        is_action(Event::Timer, action) <==> action is Ping,
        is_action(Event::BadNews(s), action) ==> action is Send,
{
}

} // verus!
