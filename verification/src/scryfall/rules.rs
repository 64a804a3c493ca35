//! What a card's fields say about the game's rules.
use crate::json::JsonView;
use crate::scryfall::{
    field_name, names_of, nonempty_first, nonempty_tail, nonempty_texts, text_field, CardError, Field,
    ScryfallCard,
};
use crate::text;
use crate::uuids::Uuid;
use smallvec::SmallVec;
use vstd::prelude::*;

verus! {

/// A card's types, in a vector that needs no memory of its own for the first few.
#[verifier::external_body]
pub struct CardTypes {
    inner: SmallVec<[String; 4]>,
}

/// The types that a `CardTypes` holds, in their order.
pub uninterp spec fn held_types(types: CardTypes) -> Seq<Seq<char>>;

/// `smallvec::SmallVec::new`: no type at all.
#[verifier::external_body]
fn no_types() -> (r: CardTypes)
    ensures
        held_types(r) == Seq::<Seq<char>>::empty(),
{
    CardTypes { inner: SmallVec::new() }
}

/// `smallvec::SmallVec::push`: a type behind the others.
#[verifier::external_body]
fn push_type(types: &mut CardTypes, card_type: String)
    ensures
        held_types(*final(types)) == held_types(*old(types)).push(card_type@),
{
    types.inner.push(card_type)
}

/// `smallvec::SmallVec::contains` (by way of a slice): whether a type is among them.
#[verifier::external_body]
fn has_type(types: &CardTypes, card_type: &str) -> (r: bool)
    ensures
        r == held_types(*types).contains(card_type@),
{
    types.inner.contains(&card_type.to_owned())
}

impl View for CardTypes {
    type V = Seq<Seq<char>>;

    open spec fn view(&self) -> Seq<Seq<char>> {
        held_types(*self)
    }
}

impl CardTypes {
    /// Whether a type is among them.
    pub fn contains(&self, card_type: &str) -> (r: bool)
        ensures
            r == self@.contains(card_type@),
    {
        has_type(self, card_type)
    }
}

/// The words up to the first long dash.
pub open spec fn before_dash(words: Seq<Seq<char>>) -> Seq<Seq<char>>
    decreases words.len(),
{
    if words.len() == 0 || words[0] == "\u{2014}"@ {
        Seq::empty()
    } else {
        seq![words[0]] + before_dash(words.drop_first())
    }
}

/// The types on a card's type line: what stands before the dash.
pub open spec fn types_of(card: JsonView) -> Result<Seq<Seq<char>>, CardError> {
    match text_field(card, Field::TypeLine) {
        Ok(line) => Ok(before_dash(text::words(line))),
        Err(e) => Err(e),
    }
}

/// The types of basic land.
#[derive(Clone, Copy, Debug, PartialEq, Eq, Structural)]
pub enum BasicLandType {
    Forest,
    Island,
    Mountain,
    Plains,
    Swamp,
}

/// The type line of a basic land.
pub open spec fn land_line(t: BasicLandType) -> Seq<char> {
    match t {
        BasicLandType::Forest => "Basic Land \u{2014} Forest"@,
        BasicLandType::Island => "Basic Land \u{2014} Island"@,
        BasicLandType::Mountain => "Basic Land \u{2014} Mountain"@,
        BasicLandType::Plains => "Basic Land \u{2014} Plains"@,
        BasicLandType::Swamp => "Basic Land \u{2014} Swamp"@,
    }
}

/// The oracle ID of a basic land.
pub open spec fn land_oracle_id(t: BasicLandType) -> u128 {
    match t {
        BasicLandType::Forest => 0xb34bb2dc_c1af_4d77_b0b3_a0fb342a5fc6,
        BasicLandType::Island => 0xb2c6aa39_2d2a_459c_a555_fb48ba993373,
        BasicLandType::Mountain => 0xa3fb7228_e76b_4e96_a40e_20b5fed75685,
        BasicLandType::Plains => 0xbc71ebf6_2056_41f7_be35_b2e5c34afa99,
        BasicLandType::Swamp => 0x56719f6a_1a6c_4c0a_8d21_18f7d7350b68,
    }
}

impl BasicLandType {
    /// The oracle ID of the land.
    pub fn oracle_id(self) -> (r: Uuid)
        ensures
            r.bits == land_oracle_id(self),
    {
        match self {
            BasicLandType::Forest => Uuid { bits: 0xb34bb2dc_c1af_4d77_b0b3_a0fb342a5fc6 },
            BasicLandType::Island => Uuid { bits: 0xb2c6aa39_2d2a_459c_a555_fb48ba993373 },
            BasicLandType::Mountain => Uuid { bits: 0xa3fb7228_e76b_4e96_a40e_20b5fed75685 },
            BasicLandType::Plains => Uuid { bits: 0xbc71ebf6_2056_41f7_be35_b2e5c34afa99 },
            BasicLandType::Swamp => Uuid { bits: 0x56719f6a_1a6c_4c0a_8d21_18f7d7350b68 },
        }
    }
}

/// Whether a card is legal in a format.
pub open spec fn legality(card: JsonView, format: Seq<char>) -> Result<bool, CardError> {
    match card.get(field_name(Field::Legalities)) {
        None => Err(CardError::Missing(Field::Legalities)),
        Some(legalities) => match legalities.get(format) {
            None => Err(CardError::UnknownFormat),
            Some(v) => match v.as_str() {
                None => Err(CardError::LegalityNotText),
                Some(s) => if s == "legal"@ {
                    Ok(true)
                } else if s == "not_legal"@ {
                    Ok(false)
                } else {
                    Err(CardError::UnexpectedLegality)
                },
            },
        },
    }
}

/// Whether a rules text says of one of some names that it can be a commander.
pub open spec fn allows(rules_text: Seq<char>, names: Seq<Seq<char>>) -> bool {
    exists|i: int|
        0 <= i < names.len() && text::contains_text(
            rules_text,
            #[trigger] names[i] + " can be your commander"@,
        )
}

/// The rules text of a card; empty where it has none.
pub open spec fn rules_text(card: JsonView) -> Seq<char> {
    match text_field(card, Field::OracleText) {
        Ok(s) => s,
        Err(_) => Seq::empty(),
    }
}

/// Whether a card can lead a deck: a legendary creature, or one that says so.
pub open spec fn commander(card: JsonView) -> Result<bool, CardError> {
    match types_of(card) {
        Err(e) => Err(e),
        Ok(types) => Ok(
            (types.contains("Legendary"@) && types.contains("Creature"@)) || allows(
                rules_text(card),
                names_of(card),
            ),
        ),
    }
}

impl ScryfallCard {
    /// Whether the card is legal in a format.
    pub fn legal_in(&self, format: &str) -> (r: Result<bool, CardError>)
        ensures
            r == legality(self.json@, format@),
    {
        match self.json.get("legalities") {
            None => Err(CardError::Missing(Field::Legalities)),
            Some(legalities) => match legalities.get(format) {
                None => Err(CardError::UnknownFormat),
                Some(v) => match v.as_str() {
                    None => Err(CardError::LegalityNotText),
                    Some(s) => if text::same_text(s, "legal") {
                        Ok(true)
                    } else if text::same_text(s, "not_legal") {
                        Ok(false)
                    } else {
                        Err(CardError::UnexpectedLegality)
                    },
                },
            },
        }
    }

    /// The card's types.
    pub fn types(&self) -> (r: Result<CardTypes, CardError>)
        ensures
            match r {
                Ok(types) => types_of(self.json@) == Ok::<Seq<Seq<char>>, CardError>(types@),
                Err(e) => types_of(self.json@) == Err::<Seq<Seq<char>>, CardError>(e),
            },
    {
        let mut types = no_types();
        let type_line = match self.type_line() {
            Ok(line) => line,
            Err(e) => {
                return Err(e);
            },
        };
        let words = text::split_whitespace(type_line);
        let ghost all = text::texts(words@);
        let mut i: usize = 0;
        assert(all.skip(0) =~= all);
        assert(types@ + before_dash(all) =~= before_dash(all));
        while i < words.len()
            invariant_except_break
                types@ + before_dash(all.skip(i as int)) == before_dash(all),
            invariant
                i <= words@.len(),
                all == text::texts(words@),
            ensures
                types@ == before_dash(all),
            decreases words.len() - i,
        {
            let ghost rest = all.skip(i as int);
            assert(rest[0] == words@[i as int]@);
            if text::same_text(words[i].as_str(), "\u{2014}") {
                assert(types@ + before_dash(rest) =~= types@);
                break;
            }
            let ghost before = types@;
            push_type(&mut types, words[i].clone());
            assert(rest.drop_first() =~= all.skip(i + 1));
            assert(types@ + before_dash(all.skip(i + 1)) =~= before + before_dash(rest));
            i = i + 1;
            if i == words.len() {
                assert(types@ + before_dash(all.skip(i as int)) =~= types@);
            }
        }
        Ok(types)
    }

    /// Which basic land the card is.
    pub fn basic_land_type(&self) -> (r: Option<BasicLandType>)
        ensures
            match r {
                Some(t) => text_field(self.json@, Field::TypeLine) == Ok::<Seq<char>, CardError>(land_line(t)),
                None => forall|t: BasicLandType|
                    text_field(self.json@, Field::TypeLine) != Ok::<Seq<char>, CardError>(
                        #[trigger] land_line(t),
                    ),
            },
    {
        match self.type_line() {
            Err(_) => None,
            Ok(line) => if text::same_text(line, "Basic Land \u{2014} Forest") {
                Some(BasicLandType::Forest)
            } else if text::same_text(line, "Basic Land \u{2014} Island") {
                Some(BasicLandType::Island)
            } else if text::same_text(line, "Basic Land \u{2014} Mountain") {
                Some(BasicLandType::Mountain)
            } else if text::same_text(line, "Basic Land \u{2014} Plains") {
                Some(BasicLandType::Plains)
            } else if text::same_text(line, "Basic Land \u{2014} Swamp") {
                Some(BasicLandType::Swamp)
            } else {
                None
            },
        }
    }

    /// Whether the card can lead a deck.
    pub fn can_be_a_commander(&self) -> (r: Result<bool, CardError>)
        ensures
            r == commander(self.json@),
    {
        let types = match self.types() {
            Ok(types) => types,
            Err(e) => {
                return Err(e);
            },
        };
        let legendary_creature = types.contains("Legendary") && types.contains("Creature");
        let rules = match self.oracle_text() {
            Ok(s) => s.to_string(),
            Err(_) => {
                let empty = String::new();
                assert(empty@ =~= Seq::empty());
                empty
            },
        };
        let names = self.names();
        let ghost all = nonempty_texts(names);
        let first = nonempty_first(&names);
        let tail = nonempty_tail(&names);
        let mut explicitly_allowed = text::contains(
            rules.as_str(),
            text::concat2(first.as_str(), " can be your commander").as_str(),
        );
        let mut i: usize = 0;
        if explicitly_allowed {
            assert(all[0] == first@);
        }
        while i < tail.len()
            invariant
                i <= tail@.len(),
                all.len() == tail@.len() + 1,
                text::texts(tail@) == all.skip(1),
                explicitly_allowed == exists|j: int|
                    0 <= j <= i && text::contains_text(rules@, #[trigger] all[j] + " can be your commander"@),
            decreases tail.len() - i,
        {
            let said = text::contains(
                rules.as_str(),
                text::concat2(tail[i].as_str(), " can be your commander").as_str(),
            );
            assert(all.skip(1)[i as int] == all[i + 1]);
            assert(text::texts(tail@)[i as int] == tail@[i as int]@);
            explicitly_allowed = explicitly_allowed || said;
            i = i + 1;
        }
        assert(explicitly_allowed == allows(rules@, all));
        Ok(legendary_creature || explicitly_allowed)
    }
}

/// The types of a card are the words of its type line up to the first long dash, all of them where there is
/// none.
pub proof fn types_stand_before_dash(card: JsonView, types: Seq<Seq<char>>, rest: Seq<Seq<char>>, line: Seq<char>)
    requires
        card.get("type_line"@) == Some(JsonView::Text(line)),
        !types.contains("\u{2014}"@),
    ensures
        text::words(line) == types.push("\u{2014}"@) + rest ==> types_of(card) == Ok::<
            Seq<Seq<char>>,
            CardError,
        >(types),
        text::words(line) == types ==> types_of(card) == Ok::<Seq<Seq<char>>, CardError>(types),
{
    dash_ends_types(types, rest);
}

proof fn dash_ends_types(types: Seq<Seq<char>>, rest: Seq<Seq<char>>)
    requires
        !types.contains("\u{2014}"@),
    ensures
        before_dash(types.push("\u{2014}"@) + rest) == types,
        before_dash(types) == types,
    decreases types.len(),
{
    let all = types.push("\u{2014}"@) + rest;
    if types.len() == 0 {
        assert(all[0] == "\u{2014}"@);
        assert(before_dash(all) =~= types);
        assert(before_dash(types) =~= types);
    } else {
        let later = types.drop_first();
        assert(types.contains(types[0]));
        if later.contains("\u{2014}"@) {
            let i = choose|i: int| 0 <= i < later.len() && later[i] == "\u{2014}"@;
            assert(types[i + 1] == "\u{2014}"@);
        }
        dash_ends_types(later, rest);
        assert(all[0] == types[0]);
        assert(all.drop_first() =~= later.push("\u{2014}"@) + rest);
        assert(seq![types[0]] + later =~= types);
    }
}

/// What a card's legalities say of a format is what is said of the card: it is legal where they say "legal",
/// not legal where they say "not_legal", and anything else is a problem.
pub proof fn legality_is_what_is_said(card: JsonView, legalities: JsonView, format: Seq<char>)
    requires
        card.get("legalities"@) == Some(legalities),
    ensures
        legality(card, format) == Ok::<bool, CardError>(true) <==> legalities.get(format) == Some(
            JsonView::Text("legal"@),
        ),
        legality(card, format) == Ok::<bool, CardError>(false) <==> legalities.get(format) == Some(
            JsonView::Text("not_legal"@),
        ),
        legality(card, format) == Err::<bool, CardError>(CardError::UnknownFormat) <==> legalities.get(format) is None,
{
    reveal_strlit("legal");
    reveal_strlit("not_legal");
    assert("legal"@.len() != "not_legal"@.len());
}

/// A card without legalities is not said to be legal or not.
pub proof fn legality_is_missing(card: JsonView, format: Seq<char>)
    requires
        card.get("legalities"@) is None,
    ensures
        legality(card, format) == Err::<bool, CardError>(CardError::Missing(Field::Legalities)),
{
}

/// A legendary creature can lead a deck, and so can a card with types whose rules text says of the name of one
/// of its faces that it can; no other card can.
pub proof fn who_can_lead(card: JsonView, types: Seq<Seq<char>>)
    requires
        types_of(card) == Ok::<Seq<Seq<char>>, CardError>(types),
    ensures
        commander(card) == Ok::<bool, CardError>(
            (types.contains("Legendary"@) && types.contains("Creature"@)) || exists|name: Seq<char>|
                names_of(card).contains(name) && card.get("oracle_text"@) is Some && card.get("oracle_text"@)->0
                    is Text && #[trigger] text::contains_text(
                    card.get("oracle_text"@)->0->Text_0,
                    name + " can be your commander"@,
                ),
        ),
{
    let all = names_of(card);
    let rules = rules_text(card);
    reveal_strlit(" can be your commander");
    if allows(rules, all) {
        let i = choose|i: int|
            0 <= i < all.len() && text::contains_text(rules, #[trigger] all[i] + " can be your commander"@);
        assert(all.contains(all[i]));
        let at = choose|at: int| text::occurs_at(rules, all[i] + " can be your commander"@, at);
        assert(rules.len() > 0);
        assert(text::contains_text(rules, all[i] + " can be your commander"@));
    }
    if exists|name: Seq<char>|
        all.contains(name) && card.get("oracle_text"@) is Some && card.get("oracle_text"@)->0 is Text
            && #[trigger] text::contains_text(
            card.get("oracle_text"@)->0->Text_0,
            name + " can be your commander"@,
        ) {
        let name = choose|name: Seq<char>|
            all.contains(name) && card.get("oracle_text"@) is Some && card.get("oracle_text"@)->0 is Text
                && #[trigger] text::contains_text(
                card.get("oracle_text"@)->0->Text_0,
                name + " can be your commander"@,
            );
        let i = choose|i: int| 0 <= i < all.len() && all[i] == name;
        assert(text::contains_text(rules, all[i] + " can be your commander"@));
    }
}

/// A card whose types are not known cannot be said to lead.
pub proof fn leader_needs_types(card: JsonView)
    requires
        card.get("type_line"@) is None || !(card.get("type_line"@)->0 is Text),
    ensures
        commander(card) is Err,
{
}

/// Different basic lands have different type lines and different oracle IDs.
pub proof fn lands_differ(a: BasicLandType, b: BasicLandType)
    requires
        a != b,
    ensures
        land_line(a) != land_line(b),
        land_oracle_id(a) != land_oracle_id(b),
{
    reveal_strlit("Basic Land \u{2014} Forest");
    reveal_strlit("Basic Land \u{2014} Island");
    reveal_strlit("Basic Land \u{2014} Mountain");
    reveal_strlit("Basic Land \u{2014} Plains");
    reveal_strlit("Basic Land \u{2014} Swamp");
    assert(land_line(BasicLandType::Forest)[13] == 'F');
    assert(land_line(BasicLandType::Island)[13] == 'I');
    assert(land_line(BasicLandType::Mountain)[13] == 'M');
    assert(land_line(BasicLandType::Plains)[13] == 'P');
    assert(land_line(BasicLandType::Swamp)[13] == 'S');
}

/// The type lines and the oracle IDs of the basic lands, the latter in the five groups in which they are written.
pub proof fn basic_lands()
    ensures
        land_line(BasicLandType::Forest) == "Basic Land \u{2014} Forest"@,
        land_line(BasicLandType::Island) == "Basic Land \u{2014} Island"@,
        land_line(BasicLandType::Mountain) == "Basic Land \u{2014} Mountain"@,
        land_line(BasicLandType::Plains) == "Basic Land \u{2014} Plains"@,
        land_line(BasicLandType::Swamp) == "Basic Land \u{2014} Swamp"@,
        land_oracle_id(BasicLandType::Forest) == in_groups(0xb34bb2dc, 0xc1af, 0x4d77, 0xb0b3, 0xa0fb342a5fc6),
        land_oracle_id(BasicLandType::Island) == in_groups(0xb2c6aa39, 0x2d2a, 0x459c, 0xa555, 0xfb48ba993373),
        land_oracle_id(BasicLandType::Mountain) == in_groups(0xa3fb7228, 0xe76b, 0x4e96, 0xa40e, 0x20b5fed75685),
        land_oracle_id(BasicLandType::Plains) == in_groups(0xbc71ebf6, 0x2056, 0x41f7, 0xbe35, 0xb2e5c34afa99),
        land_oracle_id(BasicLandType::Swamp) == in_groups(0x56719f6a, 0x1a6c, 0x4c0a, 0x8d21, 0x18f7d7350b68),
{
}

/// The number whose digits are written in five groups.
pub open spec fn in_groups(a: int, b: int, c: int, d: int, e: int) -> int {
    (((a * 0x1_0000 + b) * 0x1_0000 + c) * 0x1_0000 + d) * 0x1_0000_0000_0000 + e
}

} // verus!
