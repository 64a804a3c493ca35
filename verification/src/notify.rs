//! Messages to a user's open pages.
use crate::decimal;
use crate::text;
use crate::types::user::UserId;
use vstd::prelude::*;

verus! {

/// The channel on which a user's messages are published.
pub open spec fn channel_of(user: UserId) -> Seq<char> {
    "user:"@ + decimal::decimal(user.0 as nat)
}

/// The channel on which a user's messages are published.
pub fn user_channel_name(user: UserId) -> (r: String)
    ensures
        r@ == channel_of(user),
{
    text::concat2("user:", user.to_text().as_str())
}

/// Different users have different channels.
pub proof fn channels_are_distinct(a: UserId, b: UserId)
    requires
        channel_of(a) == channel_of(b),
    ensures
        a == b,
{
    let p = "user:"@;
    assert(channel_of(a).skip(p.len() as int) =~= decimal::decimal(a.0 as nat));
    assert(channel_of(b).skip(p.len() as int) =~= decimal::decimal(b.0 as nat));
    decimal::decimal_injective(a.0 as nat, b.0 as nat);
}

/// A user's channel is named after the user's ID.
pub proof fn channel_names_user(user: UserId)
    ensures
        channel_of(user).skip(5) == decimal::decimal(user.0 as nat),
        text::has_prefix(channel_of(user), "user:"@),
{
    reveal_strlit("user:");
    text::where_texts_stand(channel_of(user), "user:"@, "user:"@, decimal::decimal(user.0 as nat));
    assert(channel_of(user).skip(5) =~= decimal::decimal(user.0 as nat));
}

} // verus!
