//! What the server tells the web page.
use crate::types::deck::{Deck, DeckColorIdentity, DeckId};
use crate::types::nonzero::NonZeroU16;
use crate::urls::Url;
use vstd::prelude::*;

verus! {

/// Something that went wrong.
#[derive(Debug)]
pub struct Error {
    pub user_message: String,
    pub details: Option<String>,
}

/// How far a deck's rendering has come.
#[derive(Clone, Copy, Debug)]
pub enum RenderProgress {
    Waiting { queue_length: NonZeroU16 },
    RenderingImages { rendered_cards: u16, total_cards: NonZeroU16 },
    SavingPages { saved_pages: u16, total_pages: NonZeroU16 },
    Rendered,
}

/// News about a user's decks.
#[derive(Debug)]
pub enum Notification {
    DeckDeleted { deck_id: DeckId },
    DeckParseStarted { deck_id: DeckId, title: String, url: Url },
    DeckParsed { deck_id: DeckId, title: String, url: Url, color_identity: DeckColorIdentity },
    Error(Error),
    RenderProgress { deck_id: DeckId, progress: RenderProgress },
}

/// A message of the server.
#[derive(Debug)]
pub enum ServerToFrontendMessage {
    DeckList { decks: Vec<Deck> },
    FatalError(Error),
    Notification(Notification),
}

} // verus!
