//! How long a card of the database counts as up to date.
use crate::json::Json;
use crate::scryfall::{id_field, CardError, CardView, Field, ScryfallCard, ScryfallId};
use vstd::prelude::*;

verus! {

/// How long a card counts as up to date: fourteen days, in microseconds.
pub const CARD_CACHE_MICROSECONDS: i64 = 1_209_600_000_000;

/// Whether a card that was updated at one time is still up to date at another.
pub open spec fn fresh(updated_at: int, now: int, cache_duration: int) -> bool {
    updated_at > now - cache_duration
}

/// The card of the database where it is still up to date; none where it has to be looked up.
pub fn cached(card: Option<ScryfallCard>, now: i64, cache_duration: i64) -> (r: Option<ScryfallCard>)
    ensures
        match card {
            Some(c) => if fresh(c.updated_at as int, now as int, cache_duration as int) {
                r == Some(c)
            } else {
                r is None
            },
            None => r is None,
        },
{
    match card {
        Some(c) => if c.updated_at as i128 > now as i128 - cache_duration as i128 {
            Some(c)
        } else {
            None
        },
        None => None,
    }
}

/// The card that a lookup gave, under its ID, as it is to be kept.
pub fn looked_up(json: Json, now: i64) -> (r: Result<(ScryfallId, ScryfallCard), CardError>)
    ensures
        match r {
            Ok((id, c)) => {
                &&& id_field(json@, Field::Id) == Ok::<u128, CardError>(id.0.bits)
                &&& c@ == (CardView { json: json@, updated_at: now as int })
            },
            Err(e) => id_field(json@, Field::Id) == Err::<u128, CardError>(e),
        },
{
    let card = ScryfallCard { json, updated_at: now };
    match card.id() {
        Ok(id) => Ok((id, card)),
        Err(e) => Err(e),
    }
}

/// A card that has just been kept is up to date.
pub proof fn kept_card_is_fresh(now: int, cache_duration: int)
    requires
        cache_duration > 0,
    ensures
        fresh(now, now, cache_duration),
{
}

/// A card is up to date exactly as long as less time has gone by since its update than the cache lasts.
pub proof fn fresh_for_the_duration(updated_at: int, age: int, cache_duration: int)
    ensures
        fresh(updated_at, updated_at + age, cache_duration) <==> age < cache_duration,
{
}

/// A card is kept for fourteen days.
pub proof fn cards_are_kept_for_fourteen_days()
    ensures
        CARD_CACHE_MICROSECONDS == 14 * 24 * 60 * 60 * 1_000_000,
{
}

} // verus!
