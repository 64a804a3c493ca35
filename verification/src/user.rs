//! Users of the server.
use crate::decimal;
use crate::text;
use crate::types::user::UserId;
use crate::urls;
use crate::urls::{Url, UrlError};
use vstd::prelude::*;

verus! {

/// A user whom the server knows.
#[derive(Debug)]
pub struct User {
    pub id: UserId,
    pub display_name: String,
    /// When the user last signed in, in microseconds since the epoch.
    pub last_login: i64,
}

impl Clone for User {
    fn clone(&self) -> (r: User)
        ensures
            r == *self,
    {
        User { id: self.id, display_name: self.display_name.clone(), last_login: self.last_login }
    }
}

/// The ID of the user for demonstrations.
pub const DEMO_USER_ID: u64 = 0;

/// A player in Steam's answer.
#[derive(Debug)]
pub struct SteamAPIPlayer {
    pub steamid: String,
    pub personaname: String,
}

/// The first player with an ID; the number of players where there is none.
pub open spec fn player_place(players: Seq<SteamAPIPlayer>, id: Seq<char>) -> int
    decreases players.len(),
{
    if players.len() == 0 || players[0].steamid@ == id {
        0
    } else {
        1 + player_place(players.drop_first(), id)
    }
}

/// The URL at which Steam tells about players.
pub open spec fn summaries_endpoint() -> Seq<char> {
    "https://api.steampowered.com/ISteamUser/GetPlayerSummaries/v0002/"@
}

impl User {
    /// The user for a log.
    pub fn to_text(&self) -> (r: String)
        ensures
            r@ == "User \""@ + self.display_name@ + "\" ("@ + decimal::decimal(self.id.0 as nat) + ")"@,
    {
        let mut r = text::concat3("User \"", self.display_name.as_str(), "\" (");
        r.append(self.id.to_text().as_str());
        r.append(")");
        r
    }

    /// The URL at which Steam tells about a player.
    pub fn summaries_url(api_key: String, id: u64) -> (r: Result<Url, UrlError>)
        ensures
            urls::is_outcome(
                r,
                urls::url_with_params(
                    summaries_endpoint(),
                    seq![("key"@, api_key@), ("steamids"@, decimal::decimal(id as nat))],
                ),
            ),
    {
        let mut params: Vec<(String, String)> = Vec::new();
        params.push(("key".to_string(), api_key));
        params.push(("steamids".to_string(), decimal::to_decimal(id)));
        assert(urls::pair_texts(params@) =~= seq![
            ("key"@, api_key@),
            ("steamids"@, decimal::decimal(id as nat)),
        ]);
        Url::parse_with_params("https://api.steampowered.com/ISteamUser/GetPlayerSummaries/v0002/", &params)
    }

    /// The name of a player among those that Steam tells about.
    pub fn name_among(players: &Vec<SteamAPIPlayer>, id: u64) -> (r: Option<String>)
        ensures
            ({
                let i = player_place(players@, decimal::decimal(id as nat));
                match r {
                    Some(name) => i < players@.len() && name@ == players@[i].personaname@,
                    None => i >= players@.len(),
                }
            }),
    {
        let steam_id = decimal::to_decimal(id);
        let ghost all = players@;
        let mut i: usize = 0;
        assert(all.skip(0) =~= all);
        while i < players.len()
            invariant
                i <= players@.len(),
                all == players@,
                steam_id@ == decimal::decimal(id as nat),
                player_place(all, steam_id@) == i + player_place(all.skip(i as int), steam_id@),
            decreases players.len() - i,
        {
            assert(all.skip(i as int)[0] == all[i as int]);
            if text::same_text(players[i].steamid.as_str(), steam_id.as_str()) {
                return Some(players[i].personaname.clone());
            }
            assert(all.skip(i as int).drop_first() =~= all.skip(i + 1));
            i = i + 1;
        }
        None
    }

    /// The user whom the database has, where nothing is to be changed about them: they are there, and
    /// under the name that they now have.
    pub fn unchanged(existing: Option<User>, display_name: &str) -> (r: Option<User>)
        ensures
            r == match existing {
                Some(user) => if user.display_name@ == display_name@ {
                    Some(user)
                } else {
                    None
                },
                None => None,
            },
    {
        match existing {
            Some(user) => if text::same_text(user.display_name.as_str(), display_name) {
                Some(user)
            } else {
                None
            },
            None => None,
        }
    }
}

/// The first player with an ID is the one who is found, and none where no player has the ID.
pub proof fn first_player_is_found(players: Seq<SteamAPIPlayer>, id: Seq<char>)
    ensures
        ({
            let k = player_place(players, id);
            &&& 0 <= k <= players.len()
            &&& k < players.len() ==> players[k].steamid@ == id
            &&& forall|i: int| 0 <= i < k ==> (#[trigger] players[i]).steamid@ != id
        }),
    decreases players.len(),
{
    if players.len() > 0 && players[0].steamid@ != id {
        let t = players.drop_first();
        first_player_is_found(t, id);
        assert forall|i: int| 0 <= i < player_place(players, id) implies (#[trigger] players[i]).steamid@ != id by {
            if i > 0 {
                assert(t[i - 1].steamid@ != id);
            }
        }
    }
}

/// Where Steam tells about players.
pub proof fn where_steam_tells()
    ensures
        summaries_endpoint() == "https://api.steampowered.com/ISteamUser/GetPlayerSummaries/v0002/"@,
{
}

} // verus!
