//! Queries about many cards at once.
use crate::decimal;
use crate::scryfall::ScryfallOracleId;
use crate::text;
use crate::uuids;
use vstd::prelude::*;

verus! {

/// Parameters of a query that together make an array.
pub struct TextArray {
    pub n: u16,
    pub db_type: String,
    pub strings: Vec<String>,
}

/// `count` parameters with numbers from `n` on.
pub open spec fn placeholders(n: int, count: nat) -> Seq<Seq<char>> {
    Seq::new(count, |i: int| "$"@ + decimal::decimal((n + i) as nat))
}

/// An array of parameters in SQL.
pub open spec fn array_text(n: int, db_type: Seq<char>, count: nat) -> Seq<char> {
    "ARRAY["@ + text::join_text(placeholders(n, count), ", "@) + "]::"@ + db_type + "[]"@
}

impl TextArray {
    /// Parameters with numbers from `n` on, of a type of the database.
    pub fn new(n: u16, db_type: &str, strings: Vec<String>) -> (r: TextArray)
        ensures
            r.n == n,
            r.db_type@ == db_type@,
            r.strings == strings,
    {
        TextArray { n, db_type: db_type.to_string(), strings }
    }

    /// The array in SQL.
    pub fn to_text(&self) -> (r: String)
        requires
            self.n + self.strings@.len() <= u64::MAX,
        ensures
            r@ == array_text(self.n as int, self.db_type@, self.strings@.len()),
    {
        let mut parts: Vec<String> = Vec::new();
        let mut i: usize = 0;
        while i < self.strings.len()
            invariant
                i <= self.strings@.len(),
                self.n + self.strings@.len() <= u64::MAX,
                text::texts(parts@) == placeholders(self.n as int, i as nat),
            decreases self.strings.len() - i,
        {
            let ghost before = parts@;
            parts.push(text::concat2("$", decimal::to_decimal(self.n as u64 + i as u64).as_str()));
            assert(text::texts(parts@) =~= text::texts(before).push(
                "$"@ + decimal::decimal((self.n + i) as nat),
            ));
            assert(text::texts(parts@) =~= placeholders(self.n as int, (i + 1) as nat));
            i = i + 1;
        }
        let mut r = text::concat3("ARRAY[", text::join(&parts, ", ").as_str(), "]::");
        r.append(self.db_type.as_str());
        r.append("[]");
        r
    }

    /// The values to bind, in the order of their parameters.
    pub fn bindings(self) -> (r: Vec<String>)
        ensures
            r == self.strings,
    {
        self.strings
    }
}

/// The texts of oracle IDs.
pub open spec fn id_texts(ids: Seq<ScryfallOracleId>) -> Seq<Seq<char>> {
    ids.map_values(|id: ScryfallOracleId| uuids::hyphenated(id.0.bits as int))
}

/// The query for the colors of some cards: its SQL and the values to bind.
pub fn deck_color_identity_query(oracle_ids: &Vec<ScryfallOracleId>) -> (r: (String, Vec<String>))
    requires
        1 + oracle_ids@.len() <= u64::MAX,
    ensures
        r.0@
            == "SELECT DISTINCT jsonb_array_elements_text(json -> 'color_identity') as color FROM scryfall_card\nWHERE ((json ->> 'oracle_id')::uuid) = ANY ("@
            + array_text(1, "uuid"@, oracle_ids@.len()) + ")\n;"@,
        text::texts(r.1@) == id_texts(oracle_ids@),
{
    let mut ids: Vec<String> = Vec::new();
    let mut i: usize = 0;
    while i < oracle_ids.len()
        invariant
            i <= oracle_ids@.len(),
            text::texts(ids@) == id_texts(oracle_ids@.take(i as int)),
        decreases oracle_ids.len() - i,
    {
        let ghost before = ids@;
        ids.push(oracle_ids[i].to_text());
        assert(oracle_ids@.take(i + 1) =~= oracle_ids@.take(i as int).push(oracle_ids@[i as int]));
        assert(text::texts(ids@) =~= text::texts(before).push(
            uuids::hyphenated(oracle_ids@[i as int].0.bits as int),
        ));
        assert(text::texts(ids@) =~= id_texts(oracle_ids@.take(i + 1)));
        i = i + 1;
    }
    assert(oracle_ids@.take(i as int) =~= oracle_ids@);
    assert(text::texts(ids@).len() == ids@.len());
    let params = TextArray::new(1, "uuid", ids);
    let sql = text::concat3(
        "SELECT DISTINCT jsonb_array_elements_text(json -> 'color_identity') as color FROM scryfall_card\nWHERE ((json ->> 'oracle_id')::uuid) = ANY (",
        params.to_text().as_str(),
        ")\n;",
    );
    (sql, params.bindings())
}

/// The query whether a card can lead a deck of some colors, which are bound from the second
/// parameter on: its SQL and the values to bind there.
pub fn can_be_a_commander_query(deck_color_identity: Vec<String>) -> (r: (String, Vec<String>))
    requires
        2 + deck_color_identity@.len() <= u64::MAX,
    ensures
        ({
            let colors = array_text(2, "text"@, deck_color_identity@.len());
            r.0@
                == "SELECT 1 FROM scryfall_card\nWHERE\n    (json ->> 'oracle_id')::uuid = $1\nAND (json -> 'color_identity') @> to_jsonb("@
                + colors + ")\nAND to_jsonb("@ + colors
                + ") @> (json -> 'color_identity')\nAND (\n        (regexp_split_to_array(split_part((json ->> 'type_line'), ' \u{2014}', 1), '\\s+') @> ARRAY['Legendary','Creature'])\n     OR (position(((json ->> 'name') || ' can be your commander') IN (json ->> 'oracle_text')) > 0)\n)\nLIMIT 1\n;"@
        }),
        r.1 == deck_color_identity,
{
    let params = TextArray::new(2, "text", deck_color_identity);
    let colors = params.to_text();
    let mut sql = text::concat3(
        "SELECT 1 FROM scryfall_card\nWHERE\n    (json ->> 'oracle_id')::uuid = $1\nAND (json -> 'color_identity') @> to_jsonb(",
        colors.as_str(),
        ")\nAND to_jsonb(",
    );
    sql.append(colors.as_str());
    sql.append(
        ") @> (json -> 'color_identity')\nAND (\n        (regexp_split_to_array(split_part((json ->> 'type_line'), ' \u{2014}', 1), '\\s+') @> ARRAY['Legendary','Creature'])\n     OR (position(((json ->> 'name') || ' can be your commander') IN (json ->> 'oracle_text')) > 0)\n)\nLIMIT 1\n;",
    );
    (sql, params.bindings())
}

/// The parameters of an array are numbered one behind the other.
pub proof fn parameters_are_numbered(n: int, count: nat, i: int)
    requires
        0 <= i < count,
    ensures
        placeholders(n, count).len() == count,
        placeholders(n, count)[i] == "$"@ + decimal::decimal((n + i) as nat),
{
}

/// An array in SQL lists its parameters in brackets, with its type behind them.
pub proof fn array_lists_its_parameters(n: int, db_type: Seq<char>, count: nat)
    requires
        count > 0,
    ensures
        array_text(n, db_type, 1) == "ARRAY["@ + ("$"@ + decimal::decimal(n as nat)) + "]::"@ + db_type + "[]"@,
        array_text(n, db_type, count + 1) == "ARRAY["@ + (text::join_text(placeholders(n, count), ", "@) + ", "@ + (
        "$"@ + decimal::decimal((n + count) as nat))) + "]::"@ + db_type + "[]"@,
{
    let last = "$"@ + decimal::decimal((n + count) as nat);
    assert(placeholders(n, 1) =~= seq!["$"@ + decimal::decimal(n as nat)]);
    assert(placeholders(n, count + 1) =~= placeholders(n, count) + seq![last]);
    text::join_of_groups(placeholders(n, count), seq![last], ", "@);
    assert(text::join_text(seq![last], ", "@) == last);
}

/// Each ID is bound by its text, in its place.
pub proof fn ids_are_bound(ids: Seq<ScryfallOracleId>, i: int)
    requires
        0 <= i < ids.len(),
    ensures
        id_texts(ids).len() == ids.len(),
        uuids::uuid_of(id_texts(ids)[i]) == Some(ids[i].0.bits),
{
    uuids::parse_undoes_text(ids[i].0.bits);
}

} // verus!
