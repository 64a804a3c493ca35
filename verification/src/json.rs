//! JSON values.
use crate::decimal;
use crate::text;
use vstd::prelude::*;

verus! {

/// A JSON value. A number is kept as text, in the form in which `serde_json` writes it; the members of an object
/// have distinct names.
#[derive(Debug)]
pub enum Json {
    Null,
    Bool(bool),
    Number(String),
    Text(String),
    Array(Vec<Json>),
    Object(Vec<(String, Json)>),
}

/// What a JSON value stands for.
pub enum JsonView {
    Null,
    Bool(bool),
    Number(Seq<char>),
    Text(Seq<char>),
    Array(Seq<JsonView>),
    Object(Seq<(Seq<char>, JsonView)>),
}

/// What a JSON value stands for.
pub open spec fn meaning(j: Json) -> JsonView
    decreases j,
{
    match j {
        Json::Null => JsonView::Null,
        Json::Bool(b) => JsonView::Bool(b),
        Json::Number(s) => JsonView::Number(s@),
        Json::Text(s) => JsonView::Text(s@),
        Json::Array(v) => JsonView::Array(
            Seq::new(
                v@.len(),
                |i: int|
                    if 0 <= i < v@.len() {
                        meaning(v@[i])
                    } else {
                        JsonView::Null
                    },
            ),
        ),
        Json::Object(m) => JsonView::Object(
            Seq::new(
                m@.len(),
                |i: int|
                    if 0 <= i < m@.len() {
                        (m@[i].0@, meaning(m@[i].1))
                    } else {
                        (Seq::empty(), JsonView::Null)
                    },
            ),
        ),
    }
}

impl View for Json {
    type V = JsonView;

    open spec fn view(&self) -> JsonView {
        meaning(*self)
    }
}

/// The value of the first member with a name.
pub open spec fn member(m: Seq<(Seq<char>, JsonView)>, name: Seq<char>) -> Option<JsonView>
    decreases m.len(),
{
    if m.len() == 0 {
        None
    } else if m[0].0 == name {
        Some(m[0].1)
    } else {
        member(m.drop_first(), name)
    }
}

impl JsonView {
    /// The member of an object with a name.
    pub open spec fn get(self, name: Seq<char>) -> Option<JsonView> {
        match self {
            JsonView::Object(m) => member(m, name),
            _ => None,
        }
    }

    /// The text of a string.
    pub open spec fn as_str(self) -> Option<Seq<char>> {
        match self {
            JsonView::Text(s) => Some(s),
            _ => None,
        }
    }

    /// The value of a boolean.
    pub open spec fn as_bool(self) -> Option<bool> {
        match self {
            JsonView::Bool(b) => Some(b),
            _ => None,
        }
    }

    /// The elements of an array.
    pub open spec fn as_array(self) -> Option<Seq<JsonView>> {
        match self {
            JsonView::Array(v) => Some(v),
            _ => None,
        }
    }

    /// The text of a member, where it is a string.
    pub open spec fn text_of(self, name: Seq<char>) -> Option<Seq<char>> {
        match self.get(name) {
            Some(v) => v.as_str(),
            None => None,
        }
    }
}

impl Json {
    /// The member of an object with a name.
    pub fn get(&self, name: &str) -> (r: Option<&Json>)
        ensures
            match r {
                Some(v) => self@.get(name@) == Some(v@),
                None => self@.get(name@) is None,
            },
    {
        match self {
            Json::Object(m) => {
                let ghost all = self@->Object_0;
                let mut i: usize = 0;
                assert(all.skip(0) =~= all);
                while i < m.len()
                    invariant
                        i <= m@.len(),
                        self == Json::Object(*m),
                        self@ == JsonView::Object(all),
                        all.len() == m@.len(),
                        forall|j: int|
                            0 <= j < m@.len() ==> #[trigger] all[j] == (m@[j].0@, m@[j].1@),
                        member(all, name@) == member(all.skip(i as int), name@),
                    decreases m.len() - i,
                {
                    assert(all.skip(i as int)[0] == all[i as int]);
                    if text::same_text(m[i].0.as_str(), name) {
                        return Some(&m[i].1);
                    }
                    assert(all.skip(i as int).drop_first() =~= all.skip(i + 1));
                    i = i + 1;
                }
                None
            },
            _ => None,
        }
    }

    /// The text of a string.
    pub fn as_str(&self) -> (r: Option<&str>)
        ensures
            match r {
                Some(s) => self@.as_str() == Some(s@),
                None => self@.as_str() is None,
            },
    {
        match self {
            Json::Text(s) => Some(s.as_str()),
            _ => None,
        }
    }

    /// The value of a boolean.
    pub fn as_bool(&self) -> (r: Option<bool>)
        ensures
            r == self@.as_bool(),
    {
        match self {
            Json::Bool(b) => Some(*b),
            _ => None,
        }
    }

    /// The elements of an array.
    pub fn as_array(&self) -> (r: Option<&Vec<Json>>)
        ensures
            match r {
                Some(v) => self@.as_array() == Some(v@.map_values(|j: Json| j@)),
                None => self@.as_array() is None,
            },
    {
        match self {
            Json::Array(v) => {
                assert(self@->Array_0 =~= v@.map_values(|j: Json| j@));
                Some(v)
            },
            _ => None,
        }
    }

    /// The text of a member, where it is a string.
    pub fn text_of(&self, name: &str) -> (r: Option<&str>)
        ensures
            match r {
                Some(s) => self@.text_of(name@) == Some(s@),
                None => self@.text_of(name@) is None,
            },
    {
        match self.get(name) {
            Some(v) => v.as_str(),
            None => None,
        }
    }
}

impl Clone for Json {
    fn clone(&self) -> (r: Json)
        ensures
            r@ == self@,
        decreases self,
    {
        match self {
            Json::Null => Json::Null,
            Json::Bool(b) => Json::Bool(*b),
            Json::Number(s) => Json::Number(s.clone()),
            Json::Text(s) => Json::Text(s.clone()),
            Json::Array(v) => {
                let mut out: Vec<Json> = Vec::new();
                let mut i: usize = 0;
                while i < v.len()
                    invariant
                        i <= v@.len(),
                        out@.len() == i,
                        self == Json::Array(*v),
                        forall|j: int| 0 <= j < i ==> (#[trigger] out@[j])@ == v@[j]@,
                    decreases v.len() - i,
                {
                    assert(decreases_to!(*self => self->Array_0));
                    assert(decreases_to!(v => v@));
                    assert(decreases_to!(v@ => v@[i as int]));
                    out.push(v[i].clone());
                    i = i + 1;
                }
                let r = Json::Array(out);
                assert(r@->Array_0 =~= self@->Array_0);
                r
            },
            Json::Object(m) => {
                let mut out: Vec<(String, Json)> = Vec::new();
                let mut i: usize = 0;
                while i < m.len()
                    invariant
                        i <= m@.len(),
                        out@.len() == i,
                        self == Json::Object(*m),
                        forall|j: int|
                            0 <= j < i ==> (#[trigger] out@[j]).0@ == m@[j].0@ && out@[j].1@ == m@[j].1@,
                    decreases m.len() - i,
                {
                    assert(decreases_to!(*self => self->Object_0));
                    assert(decreases_to!(m => m@));
                    assert(decreases_to!(m@ => m@[i as int]));
                    assert(decreases_to!(m@[i as int] => m@[i as int].1));
                    out.push((m[i].0.clone(), m[i].1.clone()));
                    i = i + 1;
                }
                let r = Json::Object(out);
                assert(r@->Object_0 =~= self@->Object_0);
                r
            },
        }
    }
}

/// What the members of an object stand for.
pub open spec fn members(m: Seq<(String, Json)>) -> Seq<(Seq<char>, JsonView)> {
    m.map_values(|p: (String, Json)| (p.0@, p.1@))
}

/// What the elements of an array stand for.
pub open spec fn elements(v: Seq<Json>) -> Seq<JsonView> {
    v.map_values(|j: Json| j@)
}

/// An object with some members.
pub fn object(m: Vec<(String, Json)>) -> (r: Json)
    ensures
        r@ == JsonView::Object(members(m@)),
{
    let r = Json::Object(m);
    assert(r@->Object_0 =~= members(m@));
    r
}

/// An array with some elements.
pub fn array(v: Vec<Json>) -> (r: Json)
    ensures
        r@ == JsonView::Array(elements(v@)),
{
    let r = Json::Array(v);
    assert(r@->Array_0 =~= elements(v@));
    r
}

/// A string.
pub fn string(s: &str) -> (r: Json)
    ensures
        r@ == JsonView::Text(s@),
{
    Json::Text(s.to_string())
}

/// The number of an integer.
pub open spec fn whole_number(n: int) -> JsonView {
    JsonView::Number(decimal::decimal(n as nat))
}

/// The number of an integer, written with a fraction.
pub open spec fn fractional_number(n: int) -> JsonView {
    JsonView::Number(decimal::decimal(n as nat) + ".0"@)
}

/// The number of an integer.
pub fn whole(n: u64) -> (r: Json)
    ensures
        r@ == whole_number(n as int),
{
    Json::Number(decimal::to_decimal(n))
}

/// The number of an integer, written with a fraction.
pub fn fractional(n: u64) -> (r: Json)
    ensures
        r@ == fractional_number(n as int),
{
    let digits = decimal::to_decimal(n);
    Json::Number(text::concat2(digits.as_str(), ".0"))
}

#[verifier::external_type_specification]
#[verifier::external_body]
pub struct ExValue(serde_json::Value);

/// A `serde_json::Value`, kind by kind, with the members of an object in the order of its map.
#[verifier::external_body]
fn from_value(value: serde_json::Value) -> (r: Json) {
    match value {
        serde_json::Value::Null => Json::Null,
        serde_json::Value::Bool(b) => Json::Bool(b),
        serde_json::Value::Number(n) => Json::Number(n.to_string()),
        serde_json::Value::String(s) => Json::Text(s),
        serde_json::Value::Array(v) => Json::Array(v.into_iter().map(from_value).collect()),
        serde_json::Value::Object(m) => {
            Json::Object(m.into_iter().map(|(k, v)| (k, from_value(v))).collect())
        },
    }
}

/// What `serde_json::from_str` makes of a text: the value, or none where the text is no JSON.
pub uninterp spec fn parsed_json(s: Seq<char>) -> Option<JsonView>;

/// `serde_json::from_str` into a `serde_json::Value`.
#[verifier::external_body]
fn parse_text(s: &str) -> (r: Option<Json>)
    ensures
        match r {
            Some(j) => parsed_json(s@) == Some(j@),
            None => parsed_json(s@) is None,
        },
{
    serde_json::from_str(s).ok().map(from_value)
}

/// What a `serde_json::Deserializer` makes of the value at the start of some bytes: the value and
/// the number of bytes that it takes up, or none where there is no value.
pub uninterp spec fn first_json(b: Seq<u8>) -> Option<(JsonView, int)>;

/// A `serde_json::Deserializer::from_reader` on a cursor: the first value from a position on, and
/// where the cursor stands after it, which is behind the position and not behind the last byte.
#[verifier::external_body]
fn parse_first(bytes: &[u8], from: usize) -> (r: Option<(Json, usize)>)
    requires
        from <= bytes@.len(),
    ensures
        match r {
            Some((j, end)) => {
                &&& first_json(bytes@.skip(from as int)) == Some((j@, end - from))
                &&& from < end <= bytes@.len()
            },
            None => first_json(bytes@.skip(from as int)) is None,
        },
{
    let mut cursor = std::io::Cursor::new(bytes);
    cursor.set_position(from as u64);
    let mut deserializer = serde_json::Deserializer::from_reader(&mut cursor);
    let value = serde::Deserialize::deserialize(&mut deserializer).ok()?;
    Some((from_value(value), cursor.position() as usize))
}

impl Json {
    /// Reads a JSON text.
    pub fn parse(s: &str) -> (r: Option<Json>)
        ensures
            match r {
                Some(j) => parsed_json(s@) == Some(j@),
                None => parsed_json(s@) is None,
            },
    {
        parse_text(s)
    }

    /// Reads the JSON value at a position of some bytes, and says where it ends.
    pub fn parse_at(bytes: &[u8], from: usize) -> (r: Option<(Json, usize)>)
        requires
            from <= bytes@.len(),
        ensures
            match r {
                Some((j, end)) => {
                    &&& first_json(bytes@.skip(from as int)) == Some((j@, end - from))
                    &&& from < end <= bytes@.len()
                },
                None => first_json(bytes@.skip(from as int)) is None,
            },
    {
        parse_first(bytes, from)
    }
}

/// Looking a name up in an object gives the value of the first member with that name, and nothing where no
/// member has it.
pub proof fn member_is_first(m: Seq<(Seq<char>, JsonView)>, name: Seq<char>)
    ensures
        match JsonView::Object(m).get(name) {
            Some(v) => exists|i: int|
                0 <= i < m.len() && #[trigger] m[i] == (name, v) && forall|j: int|
                    0 <= j < i ==> (#[trigger] m[j]).0 != name,
            None => forall|i: int| 0 <= i < m.len() ==> (#[trigger] m[i]).0 != name,
        },
    decreases m.len(),
{
    if m.len() > 0 && m[0].0 != name {
        let t = m.drop_first();
        member_is_first(t, name);
        match member(t, name) {
            Some(v) => {
                let i = choose|i: int|
                    0 <= i < t.len() && #[trigger] t[i] == (name, v) && forall|j: int|
                        0 <= j < i ==> (#[trigger] t[j]).0 != name;
                assert(m[i + 1] == (name, v));
                assert forall|j: int| 0 <= j < i + 1 implies (#[trigger] m[j]).0 != name by {
                    if j > 0 {
                        assert(t[j - 1].0 != name);
                    }
                }
            },
            None => {
                assert forall|i: int| 0 <= i < m.len() implies (#[trigger] m[i]).0 != name by {
                    if i > 0 {
                        assert(t[i - 1].0 != name);
                    }
                }
            },
        }
    } else if m.len() > 0 {
        assert(m[0] == (name, m[0].1));
    }
}

/// A member whose name no member before it has is the one that its name finds.
pub proof fn member_at(m: Seq<(Seq<char>, JsonView)>, i: int)
    requires
        0 <= i < m.len(),
        forall|j: int| 0 <= j < i ==> (#[trigger] m[j]).0 != m[i].0,
    ensures
        JsonView::Object(m).get(m[i].0) == Some(m[i].1),
{
    member_is_first(m, m[i].0);
    match member(m, m[i].0) {
        Some(v) => {
            let k = choose|k: int|
                0 <= k < m.len() && #[trigger] m[k] == (m[i].0, v) && forall|j: int|
                    0 <= j < k ==> (#[trigger] m[j]).0 != m[i].0;
            if k < i {
                assert(m[k].0 != m[i].0);
            } else if i < k {
                assert(m[i].0 != m[i].0);
            }
        },
        None => {
            assert(m[i].0 != m[i].0);
        },
    }
}

/// A member behind the others is found by its name where none of them has that name.
pub proof fn member_behind(m: Seq<(Seq<char>, JsonView)>, name: Seq<char>, value: JsonView, other: Seq<char>)
    ensures
        JsonView::Object(m.push((name, value))).get(other) == (match JsonView::Object(m).get(other) {
            Some(v) => Some(v),
            None => if name == other {
                Some(value)
            } else {
                None
            },
        }),
    decreases m.len(),
{
    let all = m.push((name, value));
    reveal_with_fuel(member, 2);
    if m.len() > 0 {
        assert(all[0] == m[0]);
        member_behind(m.drop_first(), name, value, other);
        assert(all.drop_first() =~= m.drop_first().push((name, value)));
    } else {
        assert(all.drop_first() =~= Seq::empty());
    }
}

/// JSON values stand for themselves: a text for its characters, a number for the form in which it is written, and
/// an array or an object for all its parts, in their order.
pub proof fn values_stand_for_themselves(s: String, b: bool, v: Vec<Json>, m: Vec<(String, Json)>, i: int)
    ensures
        Json::Null@ == JsonView::Null,
        Json::Bool(b)@ == JsonView::Bool(b),
        Json::Text(s)@ == JsonView::Text(s@),
        Json::Number(s)@ == JsonView::Number(s@),
        Json::Array(v)@ matches JsonView::Array(parts) && parts.len() == v@.len() && (0 <= i < v@.len() ==> parts[i]
            == v@[i]@),
        Json::Object(m)@ matches JsonView::Object(parts) && parts.len() == m@.len() && (0 <= i < m@.len() ==> parts[i]
            == (m@[i].0@, m@[i].1@)),
{
}

/// What a value holds can be had from a value of its kind alone.
pub proof fn values_are_had_by_kind(j: JsonView, s: Seq<char>, b: bool, v: Seq<JsonView>, name: Seq<char>)
    ensures
        j.as_str() == Some(s) <==> j == JsonView::Text(s),
        j.as_bool() == Some(b) <==> j == JsonView::Bool(b),
        j.as_array() == Some(v) <==> j == JsonView::Array(v),
        !(j is Object) ==> j.get(name) is None,
        j.text_of(name) == Some(s) <==> j.get(name) == Some(JsonView::Text(s)),
{
}

/// Whole numbers are written in decimal, with a fraction of zero where one is asked for.
pub proof fn numbers_are_written_in_decimal(n: nat)
    ensures
        whole_number(n as int) == JsonView::Number(decimal::decimal(n)),
        fractional_number(n as int) == JsonView::Number(decimal::decimal(n) + ".0"@),
{
}

} // verus!
