//! Decks as the web page sees them.
use crate::text;
use crate::urls::Url;
use crate::uuids;
use crate::uuids::{Uuid, UuidError};
use vstd::prelude::*;

verus! {

/// A deck's ID.
#[derive(Clone, Copy, Debug, PartialEq, Eq, Hash, Structural)]
pub struct DeckId(pub Uuid);

impl DeckId {
    /// The ID as a plain identifier.
    pub fn as_uuid(self) -> (r: Uuid)
        ensures
            r == self.0,
    {
        self.0
    }

    /// Reads an ID.
    pub fn parse(id: &str) -> (r: Result<DeckId, UuidError>)
        ensures
            match r {
                Ok(d) => uuids::uuid_of(id@) == Some(d.0.bits),
                Err(_) => uuids::uuid_of(id@) is None,
            },
    {
        match Uuid::parse_str(id) {
            Ok(inner) => Ok(DeckId(inner)),
            Err(e) => Err(e),
        }
    }

    /// The ID as text.
    pub fn to_text(&self) -> (r: String)
        ensures
            r@ == uuids::hyphenated(self.0.bits as int),
    {
        self.0.to_text()
    }
}

impl From<Uuid> for DeckId {
    fn from(uuid: Uuid) -> (r: DeckId) {
        DeckId(uuid)
    }
}

impl vstd::std_specs::convert::FromSpecImpl<Uuid> for DeckId {
    open spec fn obeys_from_spec() -> bool {
        true
    }

    open spec fn from_spec(uuid: Uuid) -> DeckId {
        DeckId(uuid)
    }
}

impl std::str::FromStr for DeckId {
    type Err = UuidError;

    /// Reads an ID.
    fn from_str(id: &str) -> (r: Result<DeckId, UuidError>)
        ensures
            match r {
                Ok(d) => uuids::uuid_of(id@) == Some(d.0.bits),
                Err(_) => uuids::uuid_of(id@) is None,
            },
    {
        DeckId::parse(id)
    }
}

/// Reading the text of a deck's ID gives the ID back.
pub proof fn parse_undoes_text(id: DeckId)
    ensures
        uuids::uuid_of(uuids::hyphenated(id.0.bits as int)) == Some(id.0.bits),
{
    uuids::parse_undoes_text(id.0.bits);
}

/// The colors of a deck.
#[derive(Clone, Copy, Debug, PartialEq, Eq, Hash, Structural)]
pub struct DeckColorIdentity {
    pub black: bool,
    pub blue: bool,
    pub green: bool,
    pub red: bool,
    pub white: bool,
}

/// A name between two terminal escape sequences, where the color is there.
pub open spec fn shown(there: bool, name: Seq<char>) -> Seq<Seq<char>> {
    if there {
        seq![name]
    } else {
        Seq::empty()
    }
}

/// The names of the colors, in alphabetical order, each in its own terminal color.
pub open spec fn shown_colors(ci: DeckColorIdentity) -> Seq<Seq<char>> {
    let names = shown(ci.black, "\x1b[37;40mblack\x1b[0m"@) + shown(ci.blue, "\x1b[34mblue\x1b[0m"@) + shown(
        ci.green,
        "\x1b[32mgreen\x1b[0m"@,
    ) + shown(ci.red, "\x1b[31mred\x1b[0m"@) + shown(ci.white, "\x1b[30;47mwhite\x1b[0m"@);
    if names.len() == 0 {
        seq!["colorless"@]
    } else {
        names
    }
}

fn show(there: bool, name: &str, names: &mut Vec<String>)
    ensures
        text::texts(final(names)@) == text::texts(old(names)@) + shown(there, name@),
{
    if there {
        names.push(name.to_string());
        assert(text::texts(names@) =~= text::texts(old(names)@) + shown(there, name@));
    } else {
        assert(text::texts(names@) =~= text::texts(old(names)@) + shown(there, name@));
    }
}

impl DeckColorIdentity {
    /// No color at all.
    pub fn colorless() -> (r: DeckColorIdentity)
        ensures
            r == (DeckColorIdentity { black: false, blue: false, green: false, red: false, white: false }),
    {
        DeckColorIdentity { black: false, blue: false, green: false, red: false, white: false }
    }

    /// The colors for a terminal.
    pub fn debug_text(&self) -> (r: String)
        ensures
            r@ == "DeckColorIdentity { "@ + text::join_text(shown_colors(*self), ", "@) + " }"@,
    {
        let mut names: Vec<String> = Vec::new();
        assert(text::texts(names@) =~= Seq::empty());
        show(self.black, "\x1b[37;40mblack\x1b[0m", &mut names);
        show(self.blue, "\x1b[34mblue\x1b[0m", &mut names);
        show(self.green, "\x1b[32mgreen\x1b[0m", &mut names);
        show(self.red, "\x1b[31mred\x1b[0m", &mut names);
        show(self.white, "\x1b[30;47mwhite\x1b[0m", &mut names);
        assert(Seq::<Seq<char>>::empty() + shown(self.black, "\x1b[37;40mblack\x1b[0m"@) =~= shown(
            self.black,
            "\x1b[37;40mblack\x1b[0m"@,
        ));
        assert(text::texts(names@).len() == names@.len());
        if names.len() == 0 {
            names.push("colorless".to_string());
            assert(text::texts(names@) =~= seq!["colorless"@]);
        }
        text::concat3("DeckColorIdentity { ", text::join(&names, ", ").as_str(), " }")
    }
}

impl Default for DeckColorIdentity {
    fn default() -> (r: DeckColorIdentity)
        ensures
            r == (DeckColorIdentity { black: false, blue: false, green: false, red: false, white: false }),
    {
        DeckColorIdentity::colorless()
    }
}

/// A deck in a user's list.
#[derive(Debug, Hash)]
pub struct Deck {
    pub id: DeckId,
    pub title: String,
    pub url: Url,
    pub rendered: bool,
    pub color_identity: DeckColorIdentity,
}

impl Clone for Deck {
    fn clone(&self) -> (r: Deck)
        ensures
            r == *self,
    {
        Deck {
            id: self.id,
            title: self.title.clone(),
            url: self.url.clone(),
            rendered: self.rendered,
            color_identity: self.color_identity,
        }
    }
}

/// As many names are shown as there are colors, and one where there is none.
pub proof fn each_color_is_shown(ci: DeckColorIdentity)
    ensures
        ({
            let one = |b: bool| if b {
                1int
            } else {
                0int
            };
            let n = one(ci.black) + one(ci.blue) + one(ci.green) + one(ci.red) + one(ci.white);
            shown_colors(ci).len() == if n == 0 {
                1
            } else {
                n
            }
        }),
{
}

/// The names of the colors stand in alphabetical order, each in its own terminal color.
pub proof fn colors_are_shown_in_order(ci: DeckColorIdentity)
    ensures
        ci.black ==> shown_colors(ci)[0] == "\x1b[37;40mblack\x1b[0m"@,
        ci.black && ci.blue ==> shown_colors(ci)[1] == "\x1b[34mblue\x1b[0m"@,
        !ci.black && ci.blue ==> shown_colors(ci)[0] == "\x1b[34mblue\x1b[0m"@,
        !ci.black && !ci.blue && ci.green ==> shown_colors(ci)[0] == "\x1b[32mgreen\x1b[0m"@,
        ci.white ==> shown_colors(ci).last() == "\x1b[30;47mwhite\x1b[0m"@,
        !ci.white && ci.red ==> shown_colors(ci).last() == "\x1b[31mred\x1b[0m"@,
        !ci.white && !ci.red && ci.green ==> shown_colors(ci).last() == "\x1b[32mgreen\x1b[0m"@,
        !ci.black && !ci.blue && !ci.green && !ci.red && !ci.white ==> shown_colors(ci) == seq!["colorless"@],
{
}

} // verus!
