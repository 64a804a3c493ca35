//! Downloading a deck.
use crate::deck::stored::Deck;
use crate::json::Json;
use crate::text;
use crate::types::deck::DeckId;
use crate::user::User;
use crate::uuids;
use vstd::prelude::*;

verus! {

/// The ID in a file name that ends with an ending.
pub open spec fn id_of_filename(param: Seq<char>) -> Option<u128> {
    if text::has_suffix(param, ".json"@) && param.len() > 5 {
        uuids::uuid_of(param.take(param.len() - 5))
    } else {
        None
    }
}

/// The deck that a file name stands for.
pub fn deck_id_of(param: &str) -> (r: Option<DeckId>)
    ensures
        match r {
            Some(id) => id_of_filename(param@) == Some(id.0.bits),
            None => id_of_filename(param@) is None,
        },
{
    let chars = text::to_chars(param);
    if !text::ends_with(param, ".json") || chars.len() <= 5 {
        return None;
    }
    let raw_id = text::from_chars(&chars, 0, chars.len() - 5);
    assert(param@.subrange(0, param@.len() - 5) =~= param@.take(param@.len() - 5));
    match DeckId::parse(raw_id.as_str()) {
        Ok(id) => Some(id),
        Err(_) => None,
    }
}

/// What is done about a download.
#[derive(Debug)]
pub enum Download {
    /// It is refused: there is no such deck for this user.
    Refused,
    /// The deck was rendered before: this is what it is.
    Ready(Json),
    /// The deck has to be rendered first.
    Render,
}

/// What is done about a download, once the deck was looked up: only the owner gets it.
pub fn download_deck_json(user: &Option<User>, deck: Option<Deck>) -> (r: Download)
    ensures
        match (user, deck) {
            (Some(u), Some(d)) => if d.user_id != u.id {
                r is Refused
            } else {
                match d.rendered_json {
                    Some(j) => r == Download::Ready(j),
                    None => r is Render,
                }
            },
            (_, _) => r is Refused,
        },
{
    match (user, deck) {
        (Some(u), Some(d)) => if d.user_id.0 != u.id.0 {
            Download::Refused
        } else {
            match d.rendered_json {
                Some(j) => Download::Ready(j),
                None => Download::Render,
            }
        },
        (_, _) => Download::Refused,
    }
}

/// What the browser is told of the file: its name is the deck's title, with other quotation marks.
pub fn content_disposition(title: &str) -> (r: String)
    ensures
        r@ == "attachment; filename=\""@ + text::replace_text(title@, "\""@, "'"@) + ".json\""@,
{
    proof {
        reveal_strlit("\"");
    }
    text::concat3("attachment; filename=\"", text::replace(title, "\"", "'").as_str(), ".json\"")
}

/// The file name of a deck leads back to it.
pub proof fn filename_tells_deck(id: DeckId)
    ensures
        id_of_filename(uuids::hyphenated(id.0.bits as int) + ".json"@) == Some(id.0.bits),
{
    reveal_strlit(".json");
    let name = uuids::hyphenated(id.0.bits as int);
    uuids::hyphenated_shape(id.0.bits as int);
    uuids::parse_undoes_text(id.0.bits);
    assert((name + ".json"@).take(36) =~= name);
    assert((name + ".json"@).skip(36) =~= ".json"@);
}

/// A file name stands for a deck exactly where it is the text of the deck's ID with the ending behind it.
pub proof fn filename_is_id_and_ending(stem: Seq<char>)
    ensures
        id_of_filename(stem + ".json"@) == if stem.len() > 0 {
            uuids::uuid_of(stem)
        } else {
            None
        },
{
    reveal_strlit(".json");
    let name = stem + ".json"@;
    assert(name.take(name.len() - 5) =~= stem);
    assert(name.subrange(stem.len() as int, name.len() as int) =~= ".json"@);
}

/// A name without the ending stands for no deck.
pub proof fn other_filenames_are_refused(param: Seq<char>)
    requires
        forall|stem: Seq<char>| param != #[trigger] (stem + ".json"@),
    ensures
        id_of_filename(param) is None,
{
    reveal_strlit(".json");
    if text::has_suffix(param, ".json"@) && param.len() > 5 {
        let stem = param.take(param.len() - 5);
        assert(param =~= stem + ".json"@);
    }
}

} // verus!
