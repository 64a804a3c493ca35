//! What the web page asks of the server.
use crate::types::deck::DeckId;
use crate::urls::Url;
use vstd::prelude::*;

verus! {

/// A request of the web page.
#[derive(Debug)]
pub enum FrontendToServerMessage {
    DeleteDeck { id: DeckId },
    GetDecks,
    RenderDeck { url: Url },
}

} // verus!
