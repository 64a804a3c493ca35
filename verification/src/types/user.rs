//! Users.
use crate::decimal;
use vstd::prelude::*;

verus! {

/// A user's Steam ID.
#[derive(Clone, Copy, Debug, PartialEq, Eq, Hash, Structural)]
pub struct UserId(pub u64);

/// The text is no user ID.
#[derive(Clone, Copy, Debug, PartialEq, Eq, Structural)]
pub struct UserIdError;

/// The 64 bits of a number read as a signed number.
pub open spec fn as_signed(x: u64) -> i64 {
    if x < 0x8000_0000_0000_0000 {
        x as i64
    } else {
        (x - 0x1_0000_0000_0000_0000) as i64
    }
}

/// The 64 bits of a signed number read as an unsigned one.
pub open spec fn as_unsigned(x: i64) -> u64 {
    if x >= 0 {
        x as u64
    } else {
        (x + 0x1_0000_0000_0000_0000) as u64
    }
}

/// The user ID that a text writes.
pub open spec fn user_id_of(s: Seq<char>) -> Option<int> {
    decimal::parsed_number(s, u64::MAX as int)
}

impl UserId {
    /// The ID in the signed form that the database keeps.
    pub fn as_queryable(self) -> (r: i64)
        ensures
            r == as_signed(self.0),
    {
        if self.0 < 0x8000_0000_0000_0000 {
            self.0 as i64
        } else {
            (self.0 as i128 - 0x1_0000_0000_0000_0000) as i64
        }
    }

    /// The ID that the database keeps in signed form.
    pub fn from_queryable(x: i64) -> (r: UserId)
        ensures
            r.0 == as_unsigned(x),
    {
        if x >= 0 {
            UserId(x as u64)
        } else {
            UserId((x as i128 + 0x1_0000_0000_0000_0000) as u64)
        }
    }

    /// Reads an ID in decimal.
    pub fn parse(s: &str) -> (r: Result<UserId, UserIdError>)
        ensures
            match r {
                Ok(id) => user_id_of(s@) == Some(id.0 as int),
                Err(_) => user_id_of(s@) is None,
            },
    {
        match decimal::parse_number(s, u64::MAX) {
            Some(n) => Ok(UserId(n)),
            None => Err(UserIdError),
        }
    }

    /// The ID in decimal.
    pub fn to_text(&self) -> (r: String)
        ensures
            r@ == decimal::decimal(self.0 as nat),
    {
        decimal::to_decimal(self.0)
    }
}

impl From<i64> for UserId {
    fn from(x: i64) -> (r: UserId) {
        UserId::from_queryable(x)
    }
}

impl vstd::std_specs::convert::FromSpecImpl<i64> for UserId {
    open spec fn obeys_from_spec() -> bool {
        true
    }

    open spec fn from_spec(x: i64) -> UserId {
        UserId(as_unsigned(x))
    }
}

impl From<u64> for UserId {
    fn from(x: u64) -> (r: UserId) {
        UserId(x)
    }
}

impl vstd::std_specs::convert::FromSpecImpl<u64> for UserId {
    open spec fn obeys_from_spec() -> bool {
        true
    }

    open spec fn from_spec(x: u64) -> UserId {
        UserId(x)
    }
}

impl std::str::FromStr for UserId {
    type Err = UserIdError;

    /// Reads an ID in decimal.
    fn from_str(s: &str) -> (r: Result<UserId, UserIdError>)
        ensures
            match r {
                Ok(id) => user_id_of(s@) == Some(id.0 as int),
                Err(_) => user_id_of(s@) is None,
            },
    {
        UserId::parse(s)
    }
}

/// A user.
#[derive(Clone, Debug, Hash)]
pub struct User {
    pub id: UserId,
    pub display_name: String,
}

/// An ID taken to the database's form and back is the same ID.
pub proof fn queryable_round_trip(id: UserId)
    ensures
        as_unsigned(as_signed(id.0)) == id.0,
{
}

/// A database's number taken to an ID and back is the same number.
pub proof fn queryable_round_trip_back(x: i64)
    ensures
        as_signed(as_unsigned(x)) == x,
{
}

/// Reading the text of an ID gives the ID back.
pub proof fn parse_undoes_text(id: UserId)
    ensures
        user_id_of(decimal::decimal(id.0 as nat)) == Some(id.0 as int),
{
    decimal::parse_undoes_decimal(id.0 as nat, u64::MAX as int);
}

/// The database's form of an ID has the same bits: it is the ID itself, or the ID less two to the power of 64
/// where the ID is too large for a signed number.
pub proof fn queryable_has_same_bits(id: UserId)
    ensures
        as_signed(id.0) == if id.0 <= i64::MAX {
            id.0 as int
        } else {
            id.0 - 0x1_0000_0000_0000_0000
        },
{
}

/// A number that the database keeps is read as the ID with the same bits.
pub proof fn id_has_same_bits(x: i64)
    ensures
        as_unsigned(x) == if x >= 0 {
            x as int
        } else {
            x + 0x1_0000_0000_0000_0000
        },
{
}

} // verus!
