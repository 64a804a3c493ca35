//! Cards as Scryfall describes them.
pub mod api;
pub mod bulk;
pub mod cache;
pub mod lookup;
pub mod printings;
pub mod queries;
pub mod rules;

use crate::json::{parsed_json, Json, JsonView};
use crate::text;
use crate::uuids;
use crate::uuids::{Uuid, UuidError};
use nonempty::NonEmpty;
use vstd::prelude::*;

verus! {

/// The ID of a printed card.
#[derive(Clone, Copy, Debug, PartialEq, Eq, Hash, Structural)]
pub struct ScryfallId(pub Uuid);

impl ScryfallId {
    /// The ID as a plain identifier.
    pub fn as_uuid(self) -> (r: Uuid)
        ensures
            r == self.0,
    {
        self.0
    }

    /// Reads an ID.
    pub fn parse(id: &str) -> (r: Result<ScryfallId, UuidError>)
        ensures
            match r {
                Ok(d) => uuids::uuid_of(id@) == Some(d.0.bits),
                Err(_) => uuids::uuid_of(id@) is None,
            },
    {
        match Uuid::parse_str(id) {
            Ok(inner) => Ok(ScryfallId(inner)),
            Err(e) => Err(e),
        }
    }

    /// The ID as text.
    pub fn to_text(&self) -> (r: String)
        ensures
            r@ == uuids::hyphenated(self.0.bits as int),
    {
        self.0.to_text()
    }
}

impl From<Uuid> for ScryfallId {
    fn from(uuid: Uuid) -> (r: ScryfallId) {
        ScryfallId(uuid)
    }
}

impl vstd::std_specs::convert::FromSpecImpl<Uuid> for ScryfallId {
    open spec fn obeys_from_spec() -> bool {
        true
    }

    open spec fn from_spec(uuid: Uuid) -> ScryfallId {
        ScryfallId(uuid)
    }
}

impl std::str::FromStr for ScryfallId {
    type Err = UuidError;

    /// Reads an ID.
    fn from_str(id: &str) -> (r: Result<ScryfallId, UuidError>)
        ensures
            match r {
                Ok(d) => uuids::uuid_of(id@) == Some(d.0.bits),
                Err(_) => uuids::uuid_of(id@) is None,
            },
    {
        ScryfallId::parse(id)
    }
}

/// The ID that all printings of a card share.
#[derive(Clone, Copy, Debug, PartialEq, Eq, Hash, Structural)]
pub struct ScryfallOracleId(pub Uuid);

impl ScryfallOracleId {
    /// The ID as a plain identifier.
    pub fn as_uuid(self) -> (r: Uuid)
        ensures
            r == self.0,
    {
        self.0
    }

    /// Reads an ID.
    pub fn parse(id: &str) -> (r: Result<ScryfallOracleId, UuidError>)
        ensures
            match r {
                Ok(d) => uuids::uuid_of(id@) == Some(d.0.bits),
                Err(_) => uuids::uuid_of(id@) is None,
            },
    {
        match Uuid::parse_str(id) {
            Ok(inner) => Ok(ScryfallOracleId(inner)),
            Err(e) => Err(e),
        }
    }

    /// The ID as text.
    pub fn to_text(&self) -> (r: String)
        ensures
            r@ == uuids::hyphenated(self.0.bits as int),
    {
        self.0.to_text()
    }
}

impl std::str::FromStr for ScryfallOracleId {
    type Err = UuidError;

    /// Reads an ID.
    fn from_str(id: &str) -> (r: Result<ScryfallOracleId, UuidError>)
        ensures
            match r {
                Ok(d) => uuids::uuid_of(id@) == Some(d.0.bits),
                Err(_) => uuids::uuid_of(id@) is None,
            },
    {
        ScryfallOracleId::parse(id)
    }
}

/// A field of a card.
#[derive(Clone, Copy, Debug, PartialEq, Eq, Structural)]
pub enum Field {
    Id,
    OracleId,
    Name,
    ManaCost,
    TypeLine,
    OracleText,
    Legalities,
}

/// The name of a field.
pub open spec fn field_name(f: Field) -> Seq<char> {
    match f {
        Field::Id => "id"@,
        Field::OracleId => "oracle_id"@,
        Field::Name => "name"@,
        Field::ManaCost => "mana_cost"@,
        Field::TypeLine => "type_line"@,
        Field::OracleText => "oracle_text"@,
        Field::Legalities => "legalities"@,
    }
}

/// What is wrong with a card.
#[derive(Clone, Copy, Debug, PartialEq, Eq, Structural)]
pub enum CardError {
    /// The card is no JSON.
    BadJson,
    /// A field is missing.
    Missing(Field),
    /// A field is not a string.
    NotText(Field),
    /// A field is not an ID.
    BadId(Field),
    /// The card's legalities do not name the format.
    UnknownFormat,
    /// The card's legality in the format is not a string.
    LegalityNotText,
    /// The card's legality in the format is neither `legal` nor `not_legal`.
    UnexpectedLegality,
    /// No printing of the card is known.
    NoPrintings(ScryfallOracleId),
    /// The database has no card with this ID.
    Unknown(ScryfallId),
}

/// The text of a card's field.
pub open spec fn text_field(card: JsonView, f: Field) -> Result<Seq<char>, CardError> {
    match card.get(field_name(f)) {
        None => Err(CardError::Missing(f)),
        Some(v) => match v.as_str() {
            None => Err(CardError::NotText(f)),
            Some(s) => Ok(s),
        },
    }
}

/// The ID in a card's field.
pub open spec fn id_field(card: JsonView, f: Field) -> Result<u128, CardError> {
    match text_field(card, f) {
        Err(e) => Err(e),
        Ok(s) => match uuids::uuid_of(s) {
            None => Err(CardError::BadId(f)),
            Some(id) => Ok(id),
        },
    }
}

/// What stands between the names of a card's faces.
pub open spec fn name_sep() -> Seq<char> {
    " // "@
}

/// What a card without a name is called after: its ID, or why it has none.
pub open spec fn id_label(card: JsonView) -> Seq<char> {
    match id_field(card, Field::Id) {
        Ok(id) => uuids::hyphenated(id as int),
        Err(e) => "<no card ID due to error: "@ + (match e {
            CardError::Missing(_) => "Card JSON missing \"id\" key"@,
            CardError::NotText(_) => "Card JSON \"id\" field was not a string"@,
            _ => uuids::parse_error_text(text_field(card, Field::Id)->Ok_0),
        }) + ">"@,
    }
}

/// The names of a card's faces. A card without a name is called after its ID.
pub open spec fn names_of(card: JsonView) -> Seq<Seq<char>> {
    match text_field(card, Field::Name) {
        Ok(s) => text::split_text(s, name_sep()),
        Err(_) => seq!["<error getting name for card "@ + id_label(card) + ">"@],
    }
}

/// The names of a card's faces in one text.
pub open spec fn combined_name_of(card: JsonView) -> Seq<char> {
    text::join_text(names_of(card), name_sep())
}

#[verifier::external_type_specification]
#[verifier::external_body]
#[verifier::reject_recursive_types(T)]
pub struct ExNonEmpty<T>(nonempty::NonEmpty<T>);

/// The strings that a `nonempty::NonEmpty` holds, the first one first.
pub uninterp spec fn nonempty_texts(n: nonempty::NonEmpty<String>) -> Seq<Seq<char>>;

/// `nonempty::NonEmpty::from` a pair: its first part, then those of its second part.
#[verifier::external_body]
fn nonempty_from(first: String, rest: Vec<String>) -> (r: NonEmpty<String>)
    ensures
        nonempty_texts(r) == seq![first@] + text::texts(rest@),
{
    NonEmpty::from((first, rest))
}

/// `nonempty::NonEmpty::singleton`: one string alone.
#[verifier::external_body]
fn nonempty_singleton(first: String) -> (r: NonEmpty<String>)
    ensures
        nonempty_texts(r) == seq![first@],
{
    NonEmpty::singleton(first)
}

/// `nonempty::NonEmpty::first`: the first string, which there always is.
#[verifier::external_body]
pub(crate) fn nonempty_first(n: &NonEmpty<String>) -> (r: &String)
    ensures
        r@ == nonempty_texts(*n)[0],
{
    n.first()
}

/// `nonempty::NonEmpty::tail`: the strings behind the first one.
#[verifier::external_body]
pub(crate) fn nonempty_tail(n: &NonEmpty<String>) -> (r: Vec<String>)
    ensures
        nonempty_texts(*n).len() == r@.len() + 1,
        text::texts(r@) == nonempty_texts(*n).skip(1),
{
    n.tail().to_vec()
}

/// A card of the database, with its JSON as text.
#[derive(Debug)]
pub struct ScryfallCardRow {
    pub json: String,
    /// When the card was last updated, in microseconds since the epoch.
    pub updated_at: i64,
}

/// A card.
#[derive(Debug)]
pub struct ScryfallCard {
    pub json: Json,
    /// When the card was last updated, in microseconds since the epoch.
    pub updated_at: i64,
}

/// What a card stands for.
pub struct CardView {
    pub json: JsonView,
    pub updated_at: int,
}

impl View for ScryfallCard {
    type V = CardView;

    open spec fn view(&self) -> CardView {
        CardView { json: self.json@, updated_at: self.updated_at as int }
    }
}

impl Clone for ScryfallCard {
    fn clone(&self) -> (r: ScryfallCard)
        ensures
            r@ == self@,
    {
        ScryfallCard { json: self.json.clone(), updated_at: self.updated_at }
    }
}

/// The views of a vector of cards.
pub open spec fn cards(v: Seq<ScryfallCard>) -> Seq<CardView> {
    v.map_values(|c: ScryfallCard| c@)
}

/// The card that a row of the database holds.
pub open spec fn row_card(row: ScryfallCardRow) -> Option<CardView> {
    match parsed_json(row.json@) {
        Some(j) => Some(CardView { json: j, updated_at: row.updated_at as int }),
        None => None,
    }
}

impl ScryfallCard {
    /// The card that a row of the database holds.
    pub fn from_row(row: ScryfallCardRow) -> (r: Result<ScryfallCard, CardError>)
        ensures
            match r {
                Ok(c) => row_card(row) == Some(c@),
                Err(e) => e == CardError::BadJson && row_card(row) is None,
            },
    {
        match Json::parse(row.json.as_str()) {
            Some(json) => Ok(ScryfallCard { json, updated_at: row.updated_at }),
            None => Err(CardError::BadJson),
        }
    }

    fn text_field(&self, f: Field, name: &str) -> (r: Result<&str, CardError>)
        requires
            name@ == field_name(f),
        ensures
            match r {
                Ok(s) => text_field(self.json@, f) == Ok::<Seq<char>, CardError>(s@),
                Err(e) => text_field(self.json@, f) == Err::<Seq<char>, CardError>(e),
            },
    {
        match self.json.get(name) {
            None => Err(CardError::Missing(f)),
            Some(v) => match v.as_str() {
                None => Err(CardError::NotText(f)),
                Some(s) => Ok(s),
            },
        }
    }

    /// The card's ID.
    pub fn id(&self) -> (r: Result<ScryfallId, CardError>)
        ensures
            match r {
                Ok(id) => id_field(self.json@, Field::Id) == Ok::<u128, CardError>(id.0.bits),
                Err(e) => id_field(self.json@, Field::Id) == Err::<u128, CardError>(e),
            },
    {
        match self.text_field(Field::Id, "id") {
            Err(e) => Err(e),
            Ok(s) => match ScryfallId::parse(s) {
                Ok(id) => Ok(id),
                Err(_) => Err(CardError::BadId(Field::Id)),
            },
        }
    }

    /// The ID that the card shares with its other printings.
    pub fn oracle_id(&self) -> (r: Result<ScryfallOracleId, CardError>)
        ensures
            match r {
                Ok(id) => id_field(self.json@, Field::OracleId) == Ok::<u128, CardError>(id.0.bits),
                Err(e) => id_field(self.json@, Field::OracleId) == Err::<u128, CardError>(e),
            },
    {
        match self.text_field(Field::OracleId, "oracle_id") {
            Err(e) => Err(e),
            Ok(s) => match ScryfallOracleId::parse(s) {
                Ok(id) => Ok(id),
                Err(_) => Err(CardError::BadId(Field::OracleId)),
            },
        }
    }

    /// The card's JSON.
    pub fn raw_json(&self) -> (r: &Json)
        ensures
            *r == self.json,
    {
        &self.json
    }

    /// What a card without a name is called after.
    fn label(&self) -> (r: String)
        ensures
            r@ == id_label(self.json@),
    {
        match self.id() {
            Ok(id) => id.to_text(),
            Err(e) => {
                let problem = match e {
                    CardError::Missing(_) => "Card JSON missing \"id\" key".to_string(),
                    CardError::NotText(_) => "Card JSON \"id\" field was not a string".to_string(),
                    _ => match self.text_field(Field::Id, "id") {
                        Ok(s) => Uuid::problem_of(s),
                        Err(_) => String::new(),
                    },
                };
                text::concat3("<no card ID due to error: ", problem.as_str(), ">")
            },
        }
    }

    /// The names of the card's faces.
    pub fn names(&self) -> (r: NonEmpty<String>)
        ensures
            nonempty_texts(r) == names_of(self.json@),
    {
        match self.text_field(Field::Name, "name") {
            Ok(s) => {
                proof {
                    reveal_strlit(" // ");
                }
                let mut names = text::split(s, " // ");
                let ghost all = names@;
                let first = names.remove(0);
                assert(seq![first@] + text::texts(names@) =~= text::texts(all));
                nonempty_from(first, names)
            },
            Err(_) => nonempty_singleton(
                text::concat3("<error getting name for card ", self.label().as_str(), ">"),
            ),
        }
    }

    /// The names of the card's faces in one text.
    pub fn combined_name(&self) -> (r: String)
        ensures
            r@ == combined_name_of(self.json@),
    {
        let names = self.names();
        let first = nonempty_first(&names);
        let tail = nonempty_tail(&names);
        let ghost all = names_of(self.json@);
        assert(text::texts(tail@).len() == tail@.len());
        if tail.len() == 0 {
            assert(all =~= seq![first@]);
            first.clone()
        } else {
            let tail_joined = text::join(&tail, " // ");
            assert(all.drop_first() =~= all.skip(1));
            text::concat3(first.as_str(), " // ", tail_joined.as_str())
        }
    }

    /// The card's mana cost.
    pub fn cost(&self) -> (r: Result<&str, CardError>)
        ensures
            match r {
                Ok(s) => text_field(self.json@, Field::ManaCost) == Ok::<Seq<char>, CardError>(s@),
                Err(e) => text_field(self.json@, Field::ManaCost) == Err::<Seq<char>, CardError>(e),
            },
    {
        self.text_field(Field::ManaCost, "mana_cost")
    }

    /// The card's type line.
    pub fn type_line(&self) -> (r: Result<&str, CardError>)
        ensures
            match r {
                Ok(s) => text_field(self.json@, Field::TypeLine) == Ok::<Seq<char>, CardError>(s@),
                Err(e) => text_field(self.json@, Field::TypeLine) == Err::<Seq<char>, CardError>(e),
            },
    {
        self.text_field(Field::TypeLine, "type_line")
    }

    /// The card's rules text.
    pub fn oracle_text(&self) -> (r: Result<&str, CardError>)
        ensures
            match r {
                Ok(s) => text_field(self.json@, Field::OracleText) == Ok::<Seq<char>, CardError>(s@),
                Err(e) => text_field(self.json@, Field::OracleText) == Err::<Seq<char>, CardError>(e),
            },
    {
        self.text_field(Field::OracleText, "oracle_text")
    }

    /// The card's cost, type line and rules text, as far as it has them, with empty lines between
    /// them.
    pub fn description(&self) -> (r: Result<String, CardError>)
        ensures
            match r {
                Ok(s) => described(self.json@).len() > 0 && s@ == text::join_text(described(self.json@), "\n\n"@),
                Err(e) => described(self.json@).len() == 0 && text_field(self.json@, Field::ManaCost) == Err::<
                    Seq<char>,
                    CardError,
                >(e),
            },
    {
        let mut parts: Vec<String> = Vec::new();
        assert(text::texts(parts@) =~= Seq::empty());
        let cost = self.cost();
        if let Ok(s) = cost {
            parts.push(s.to_string());
        }
        if let Ok(s) = self.type_line() {
            parts.push(s.to_string());
        }
        if let Ok(s) = self.oracle_text() {
            parts.push(s.to_string());
        }
        assert(text::texts(parts@) =~= described(self.json@));
        match cost {
            Err(e) if parts.len() == 0 => Err(e),
            _ => Ok(text::join(&parts, "\n\n")),
        }
    }
}

/// A text that may be missing.
pub open spec fn present(s: Result<Seq<char>, CardError>) -> Seq<Seq<char>> {
    match s {
        Ok(t) => seq![t],
        Err(_) => Seq::empty(),
    }
}

/// Those of a card's cost, type line and rules text that it has.
pub open spec fn described(card: JsonView) -> Seq<Seq<char>> {
    present(text_field(card, Field::ManaCost)) + present(text_field(card, Field::TypeLine)) + present(
        text_field(card, Field::OracleText),
    )
}

/// The combined name of a card that has a name is that name.
pub proof fn combined_name_is_name(card: JsonView, name: Seq<char>)
    requires
        text_field(card, Field::Name) == Ok::<Seq<char>, CardError>(name),
    ensures
        combined_name_of(card) == name,
        names_of(card).len() > 0,
{
    text::join_undoes_split(name, name_sep());
}

/// The text of a card's field is the string under the field's name, and nothing else is.
pub proof fn fields_are_strings(card: JsonView, s: Seq<char>)
    ensures
        text_field(card, Field::Id) == Ok::<Seq<char>, CardError>(s) <==> card.get("id"@) == Some(JsonView::Text(s)),
        text_field(card, Field::OracleId) == Ok::<Seq<char>, CardError>(s) <==> card.get("oracle_id"@) == Some(
            JsonView::Text(s),
        ),
        text_field(card, Field::Name) == Ok::<Seq<char>, CardError>(s) <==> card.get("name"@) == Some(
            JsonView::Text(s),
        ),
        text_field(card, Field::ManaCost) == Ok::<Seq<char>, CardError>(s) <==> card.get("mana_cost"@) == Some(
            JsonView::Text(s),
        ),
        text_field(card, Field::TypeLine) == Ok::<Seq<char>, CardError>(s) <==> card.get("type_line"@) == Some(
            JsonView::Text(s),
        ),
        text_field(card, Field::OracleText) == Ok::<Seq<char>, CardError>(s) <==> card.get("oracle_text"@) == Some(
            JsonView::Text(s),
        ),
{
}

/// A card's field holds an ID exactly where the text of the field writes it.
pub proof fn ids_are_written(card: JsonView, id: u128)
    ensures
        id_field(card, Field::Id) == Ok::<u128, CardError>(id) <==> card.get("id"@) is Some && card.get("id"@)->0
            is Text && uuids::uuid_of(card.get("id"@)->0->Text_0) == Some(id),
        id_field(card, Field::OracleId) == Ok::<u128, CardError>(id) <==> card.get("oracle_id"@) is Some
            && card.get("oracle_id"@)->0 is Text && uuids::uuid_of(card.get("oracle_id"@)->0->Text_0) == Some(id),
        card.get("id"@) == Some(JsonView::Text(uuids::hyphenated(id as int))) ==> id_field(card, Field::Id) == Ok::<
            u128,
            CardError,
        >(id),
{
    uuids::parse_undoes_text(id);
}

/// A name without the sign between two faces is the name of the one face, and behind each such sign the name of
/// another face begins.
pub proof fn names_part_at_signs(card: JsonView, a: Seq<char>, b: Seq<char>, other: JsonView)
    ensures
        card.get("name"@) == Some(JsonView::Text(a)) && !text::contains_text(a, " // "@) ==> names_of(card) == seq![a],
        card.get("name"@) == Some(JsonView::Text(a + " // "@ + b)) && other.get("name"@) == Some(JsonView::Text(b))
            && (forall|j: int| 0 <= j < a.len() ==> !text::occurs_at(a + " // "@ + b, " // "@, j)) ==> names_of(card)
            == seq![a] + names_of(other),
{
    reveal_strlit(" // ");
    if !text::contains_text(a, " // "@) {
        text::split_of_one_piece(a, " // "@);
    }
    if forall|j: int| 0 <= j < a.len() ==> !text::occurs_at(a + " // "@ + b, " // "@, j) {
        text::split_at_first(a, " // "@, b);
    }
}

/// A card without a name is still called something: after its ID, where it has one.
pub proof fn nameless_cards_are_called(card: JsonView, id: u128)
    requires
        card.get("name"@) is None || !(card.get("name"@)->0 is Text),
    ensures
        names_of(card).len() == 1,
        combined_name_of(card) == names_of(card)[0],
        card.get("id"@) == Some(JsonView::Text(uuids::hyphenated(id as int))) ==> combined_name_of(card)
            == "<error getting name for card "@ + uuids::hyphenated(id as int) + ">"@,
{
    ids_are_written(card, id);
}

/// A card's description has its cost first, its rules text last and its type line between them, each where the
/// card has it, and nothing else.
pub proof fn description_has_its_parts(card: JsonView)
    ensures
        ({
            let cost = card.get("mana_cost"@);
            let line = card.get("type_line"@);
            let rules = card.get("oracle_text"@);
            let has_cost = cost is Some && cost->0 is Text;
            let has_line = line is Some && line->0 is Text;
            let has_rules = rules is Some && rules->0 is Text;
            let parts = described(card);
            &&& parts.len() == (if has_cost {
                1int
            } else {
                0
            }) + (if has_line {
                1int
            } else {
                0
            }) + (if has_rules {
                1int
            } else {
                0
            })
            &&& has_cost ==> parts[0] == cost->0->Text_0
            &&& has_rules ==> parts.last() == rules->0->Text_0
            &&& has_line ==> parts[if has_cost {
                1
            } else {
                0
            }] == line->0->Text_0
        }),
{
}

/// A row of the database gives the card whose JSON it holds, updated when the row says.
pub proof fn row_gives_its_card(row: ScryfallCardRow, card: CardView)
    ensures
        row_card(row) == Some(card) <==> parsed_json(row.json@) == Some(card.json) && card.updated_at
            == row.updated_at,
{
}

/// A card without a name and without an ID is called after what is wrong with its ID.
pub proof fn cards_without_id_are_called(card: JsonView)
    requires
        card.get("name"@) is None || !(card.get("name"@)->0 is Text),
    ensures
        card.get("id"@) is None ==> combined_name_of(card) == "<error getting name for card "@ + (
        "<no card ID due to error: "@ + "Card JSON missing \"id\" key"@ + ">"@) + ">"@,
        card.get("id"@) is Some && !(card.get("id"@)->0 is Text) ==> combined_name_of(card)
            == "<error getting name for card "@ + ("<no card ID due to error: "@
            + "Card JSON \"id\" field was not a string"@ + ">"@) + ">"@,
{
}

/// Cards stand for their JSON and for when they were updated, in their order.
pub proof fn cards_stand_for_their_json(v: Seq<ScryfallCard>, i: int)
    requires
        0 <= i < v.len(),
    ensures
        cards(v).len() == v.len(),
        cards(v)[i].json == v[i].json@,
        cards(v)[i].updated_at == v[i].updated_at,
{
}

} // verus!
