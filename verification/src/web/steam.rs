//! Signing in with Steam.
use crate::decimal;
use crate::text;
use crate::urls;
use crate::urls::Url;
use vstd::prelude::*;

verus! {

/// Why a sign-in is refused.
#[derive(Clone, Copy, Debug, PartialEq, Eq, Structural)]
pub enum SteamError {
    /// The URL to come back to is none.
    BadReturnUrl,
    /// The URL to come back to has no host.
    NoHost,
    /// The URL of Steam's page is none.
    BadEndpoint,
    /// The answer is for another URL.
    ReturnToMismatch,
    /// The answer follows another protocol.
    BadNs,
    /// The answer is of another kind.
    BadMode,
    /// The answer is from elsewhere.
    BadEndpointValue,
    /// The answer speaks of two users.
    IdentityMismatch,
    /// The user in the answer is not one of Steam.
    NotSteam,
    /// The user in the answer is no URL.
    BadIdentityUrl,
    /// The user in the answer is a URL of another form.
    BadIdentityPath,
    /// The user in the answer has no number.
    BadSteamId,
}

/// The extension of OpenID for what is known of a user.
pub const OPENID_EXT_SREG: &'static str = "http://openid.net/extensions/sreg/1.1";

/// What asks OpenID for any user.
pub const OPENID_IDENTIFIER_SELECT: &'static str = "http://specs.openid.net/auth/2.0/identifier_select";

/// The version of OpenID.
pub const OPENID_PROTOCOL_VERSION: &'static str = "http://specs.openid.net/auth/2.0";

/// Where Steam lets users sign in.
pub const STEAM_OPENID_ENDPOINT: &'static str = "https://steamcommunity.com/openid/login";

/// The host to come back to: that of the request's URL, or else the one that its header names; the real one
/// where there is none, or none that others could use.
pub open spec fn return_host(url: Seq<char>, header: Option<Seq<char>>) -> Seq<char> {
    let real_host = match urls::url_host(url) {
        Some(h) => h,
        None => match header {
            Some(h) => h,
            None => "ttsmagic.cards"@,
        },
    };
    if real_host == "0.0.0.0"@ {
        "ttsmagic.cards"@
    } else {
        real_host
    }
}

/// The scheme of the URL to come back to.
pub open spec fn return_scheme(url: Seq<char>, host: Seq<char>) -> Option<Seq<char>> {
    if host == "ttsmagic.cards"@ {
        Some("https"@)
    } else {
        urls::url_scheme(url)
    }
}

/// The URL to come back to.
pub open spec fn return_url(url: Seq<char>, header: Option<Seq<char>>) -> Option<Seq<char>> {
    let host = return_host(url, header);
    match return_scheme(url, host) {
        Some(scheme) => urls::parsed_url(scheme + "://"@ + host + "/steam/complete/"@),
        None => None,
    }
}

/// The URL to come back to, from the URL of a request and the host that its header names.
pub fn return_to_url(url: &Url, host_header: Option<String>) -> (r: Result<Url, SteamError>)
    ensures
        match r {
            Ok(u) => return_url(url@, urls::opt_text(host_header)) == Some(u@),
            Err(e) => return_url(url@, urls::opt_text(host_header)) is None && e == SteamError::BadReturnUrl,
        },
{
    let real_host = match url.host_str() {
        Some(h) => h,
        None => match host_header {
            Some(h) => h,
            None => "ttsmagic.cards".to_string(),
        },
    };
    let host = if text::same_text(real_host.as_str(), "0.0.0.0") {
        "ttsmagic.cards".to_string()
    } else {
        real_host
    };
    let scheme = if text::same_text(host.as_str(), "ttsmagic.cards") {
        "https".to_string()
    } else {
        match url.scheme() {
            Some(s) => s,
            None => {
                return Err(SteamError::BadReturnUrl);
            },
        }
    };
    let mut s = text::concat3(scheme.as_str(), "://", host.as_str());
    s.append("/steam/complete/");
    match Url::parse(s.as_str()) {
        Ok(u) => Ok(u),
        Err(_) => Err(SteamError::BadReturnUrl),
    }
}

/// What Steam is asked.
pub open spec fn login_params(realm: Seq<char>, return_to: Seq<char>) -> Seq<(Seq<char>, Seq<char>)> {
    seq![
        ("openid.claimed_id"@, OPENID_IDENTIFIER_SELECT@),
        ("openid.identity"@, OPENID_IDENTIFIER_SELECT@),
        ("openid.mode"@, "checkid_setup"@),
        ("openid.ns"@, OPENID_PROTOCOL_VERSION@),
        ("openid.ns.sreg"@, OPENID_EXT_SREG@),
        ("openid.realm"@, realm),
        ("openid.return_to"@, return_to),
        ("openid.sreg.optional"@, "fullname,email,nickname"@),
    ]
}

/// The part of the URL to come back to for which a sign-in is.
pub open spec fn realm_of(return_to: Seq<char>) -> Option<Seq<char>> {
    match (urls::url_scheme(return_to), urls::url_host(return_to)) {
        (Some(scheme), Some(host)) => Some(scheme + "://"@ + host + "/"@),
        (_, _) => None,
    }
}

fn pair(name: &str, value: &str) -> (r: (String, String))
    ensures
        r.0@ == name@,
        r.1@ == value@,
{
    (name.to_string(), value.to_string())
}

/// The URL of Steam's page for signing in.
pub fn begin_login(return_to: &Url) -> (r: Result<Url, SteamError>)
    ensures
        match realm_of(return_to@) {
            None => r == Err::<Url, SteamError>(SteamError::NoHost),
            Some(realm) => match urls::url_with_params(
                STEAM_OPENID_ENDPOINT@,
                login_params(realm, return_to@),
            ) {
                Some(url) => r is Ok && r->Ok_0@ == url,
                None => r == Err::<Url, SteamError>(SteamError::BadEndpoint),
            },
        },
{
    let scheme = match return_to.scheme() {
        Some(s) => s,
        None => {
            return Err(SteamError::NoHost);
        },
    };
    let host = match return_to.host_str() {
        Some(h) => h,
        None => {
            return Err(SteamError::NoHost);
        },
    };
    let mut realm = text::concat3(scheme.as_str(), "://", host.as_str());
    realm.append("/");
    let mut params: Vec<(String, String)> = Vec::new();
    params.push(pair("openid.claimed_id", OPENID_IDENTIFIER_SELECT));
    params.push(pair("openid.identity", OPENID_IDENTIFIER_SELECT));
    params.push(pair("openid.mode", "checkid_setup"));
    params.push(pair("openid.ns", OPENID_PROTOCOL_VERSION));
    params.push(pair("openid.ns.sreg", OPENID_EXT_SREG));
    params.push(pair("openid.realm", realm.as_str()));
    params.push(pair("openid.return_to", return_to.as_str()));
    params.push(pair("openid.sreg.optional", "fullname,email,nickname"));
    assert(urls::pair_texts(params@) =~= login_params(realm@, return_to@));
    match Url::parse_with_params(STEAM_OPENID_ENDPOINT, &params) {
        Ok(url) => Ok(url),
        Err(_) => Err(SteamError::BadEndpoint),
    }
}

/// Steam's answer.
#[derive(Debug)]
pub struct OpenIDResponse {
    pub ns: String,
    pub mode: String,
    pub op_endpoint: String,
    pub claimed_id: String,
    pub identity: String,
    pub return_to: String,
    pub response_nonce: String,
    pub assoc_handle: String,
    pub signed: String,
    pub sig: String,
}

/// The user that a URL of Steam names.
pub open spec fn steam_id_of(claimed_id: Seq<char>) -> Result<int, SteamError> {
    match urls::parsed_url(claimed_id) {
        None => Err(SteamError::BadIdentityUrl),
        Some(url) => match urls::url_path_segments(url) {
            None => Err(SteamError::BadIdentityPath),
            Some(s) => if s.len() == 3 && s[0] == "openid"@ && s[1] == "id"@ {
                match decimal::parsed_number(s[2], u64::MAX as int) {
                    Some(n) => Ok(n),
                    None => Err(SteamError::BadSteamId),
                }
            } else {
                Err(SteamError::BadIdentityPath)
            },
        },
    }
}

/// The user who signed in. What is wrong first is why the answer is refused. The nonce and the signature of
/// the answer are not looked at.
pub open spec fn signed_in(response: OpenIDResponse, expected: Option<Seq<char>>) -> Result<int, SteamError> {
    if expected is None {
        Err(SteamError::BadReturnUrl)
    } else if response.return_to@ != expected->0 {
        Err(SteamError::ReturnToMismatch)
    } else if response.ns@ != OPENID_PROTOCOL_VERSION@ {
        Err(SteamError::BadNs)
    } else if response.mode@ != "id_res"@ {
        Err(SteamError::BadMode)
    } else if response.op_endpoint@ != STEAM_OPENID_ENDPOINT@ {
        Err(SteamError::BadEndpointValue)
    } else if response.claimed_id@ != response.identity@ {
        Err(SteamError::IdentityMismatch)
    } else if !text::has_prefix(response.claimed_id@, "https://steamcommunity.com/openid/id/"@) {
        Err(SteamError::NotSteam)
    } else {
        steam_id_of(response.claimed_id@)
    }
}

fn read_steam_id(claimed_id: &str) -> (r: Result<u64, SteamError>)
    ensures
        match r {
            Ok(n) => steam_id_of(claimed_id@) == Ok::<int, SteamError>(n as int),
            Err(e) => steam_id_of(claimed_id@) == Err::<int, SteamError>(e),
        },
{
    let url = match Url::parse(claimed_id) {
        Ok(u) => u,
        Err(_) => {
            return Err(SteamError::BadIdentityUrl);
        },
    };
    match url.path_segments() {
        None => Err(SteamError::BadIdentityPath),
        Some(s) => {
            let ghost all = text::texts(s@);
            assert(all.len() == s@.len());
            if s.len() != 3 {
                return Err(SteamError::BadIdentityPath);
            }
            assert(all[0] == s@[0]@ && all[1] == s@[1]@ && all[2] == s@[2]@);
            if !text::same_text(s[0].as_str(), "openid") || !text::same_text(s[1].as_str(), "id") {
                return Err(SteamError::BadIdentityPath);
            }
            match decimal::parse_number(s[2].as_str(), u64::MAX) {
                Some(n) => Ok(n),
                None => Err(SteamError::BadSteamId),
            }
        },
    }
}

impl OpenIDResponse {
    /// The user who signed in, for a request with a URL and the host that its header names.
    pub fn validate(&self, url: &Url, host_header: Option<String>) -> (r: Result<u64, SteamError>)
        ensures
            match r {
                Ok(n) => signed_in(*self, return_url(url@, urls::opt_text(host_header))) == Ok::<
                    int,
                    SteamError,
                >(n as int),
                Err(e) => signed_in(*self, return_url(url@, urls::opt_text(host_header))) == Err::<
                    int,
                    SteamError,
                >(e),
            },
    {
        let expected = match return_to_url(url, host_header) {
            Ok(u) => u,
            Err(e) => {
                return Err(e);
            },
        };
        if !text::same_text(self.return_to.as_str(), expected.as_str()) {
            return Err(SteamError::ReturnToMismatch);
        }
        if !text::same_text(self.ns.as_str(), OPENID_PROTOCOL_VERSION) {
            return Err(SteamError::BadNs);
        }
        if !text::same_text(self.mode.as_str(), "id_res") {
            return Err(SteamError::BadMode);
        }
        if !text::same_text(self.op_endpoint.as_str(), STEAM_OPENID_ENDPOINT) {
            return Err(SteamError::BadEndpointValue);
        }
        if !text::same_text(self.claimed_id.as_str(), self.identity.as_str()) {
            return Err(SteamError::IdentityMismatch);
        }
        if !text::starts_with(self.claimed_id.as_str(), "https://steamcommunity.com/openid/id/") {
            return Err(SteamError::NotSteam);
        }
        read_steam_id(self.claimed_id.as_str())
    }
}

/// Whoever signs in came back to the URL that was asked for, from Steam, as a user of Steam.
pub proof fn signed_in_by_steam(response: OpenIDResponse, expected: Option<Seq<char>>)
    ensures
        signed_in(response, expected) is Ok ==> {
            &&& expected == Some(response.return_to@)
            &&& response.op_endpoint@ == STEAM_OPENID_ENDPOINT@
            &&& response.claimed_id@ == response.identity@
            &&& text::has_prefix(response.claimed_id@, "https://steamcommunity.com/openid/id/"@)
        },
{
}

/// A user signs in exactly where the answer is for the URL that was asked for, follows the protocol, comes from
/// Steam's page, speaks of one user alone, and that user is one of Steam's with a number.
pub proof fn who_signs_in(response: OpenIDResponse, expected: Option<Seq<char>>, n: int)
    ensures
        signed_in(response, expected) == Ok::<int, SteamError>(n) <==> {
            &&& expected == Some(response.return_to@)
            &&& response.ns@ == "http://specs.openid.net/auth/2.0"@
            &&& response.mode@ == "id_res"@
            &&& response.op_endpoint@ == "https://steamcommunity.com/openid/login"@
            &&& response.claimed_id@ == response.identity@
            &&& text::has_prefix(response.identity@, "https://steamcommunity.com/openid/id/"@)
            &&& urls::parsed_url(response.identity@) is Some
            &&& urls::url_path_segments(urls::parsed_url(response.identity@)->0) matches Some(s) && s.len() == 3
                && s[0] == "openid"@ && s[1] == "id"@ && decimal::parsed_number(s[2], u64::MAX as int) == Some(n)
        },
{
}

/// A visitor comes back to the host of the request, or to the one that its header names where the request has
/// none; to the real site where neither has one, or where others cannot use it.
pub proof fn visitors_come_back_to_their_host(url: Seq<char>, header: Option<Seq<char>>, host: Seq<char>)
    ensures
        host != "0.0.0.0"@ && urls::url_host(url) == Some(host) ==> return_host(url, header) == host,
        host != "0.0.0.0"@ && urls::url_host(url) is None && header == Some(host) ==> return_host(url, header) == host,
        urls::url_host(url) is None && header is None ==> return_host(url, header) == "ttsmagic.cards"@,
        urls::url_host(url) == Some("0.0.0.0"@) ==> return_host(url, header) == "ttsmagic.cards"@,
        return_scheme(url, "ttsmagic.cards"@) == Some("https"@),
        host != "ttsmagic.cards"@ ==> return_scheme(url, host) == urls::url_scheme(url),
{
    reveal_strlit("0.0.0.0");
    reveal_strlit("ttsmagic.cards");
    assert("0.0.0.0"@.len() != "ttsmagic.cards"@.len());
}

/// Steam is asked for any user, in the name of the site, and told where to come back to.
pub proof fn steam_is_told(realm: Seq<char>, return_to: Seq<char>)
    ensures
        ({
            let p = login_params(realm, return_to);
            &&& p.len() == 8
            &&& p.contains(("openid.claimed_id"@, "http://specs.openid.net/auth/2.0/identifier_select"@))
            &&& p.contains(("openid.identity"@, "http://specs.openid.net/auth/2.0/identifier_select"@))
            &&& p.contains(("openid.mode"@, "checkid_setup"@))
            &&& p.contains(("openid.ns"@, "http://specs.openid.net/auth/2.0"@))
            &&& p.contains(("openid.ns.sreg"@, "http://openid.net/extensions/sreg/1.1"@))
            &&& p.contains(("openid.realm"@, realm))
            &&& p.contains(("openid.return_to"@, return_to))
            &&& p.contains(("openid.sreg.optional"@, "fullname,email,nickname"@))
        }),
{
    let p = login_params(realm, return_to);
    assert(p[0] == ("openid.claimed_id"@, OPENID_IDENTIFIER_SELECT@));
    assert(p[1] == ("openid.identity"@, OPENID_IDENTIFIER_SELECT@));
    assert(p[2] == ("openid.mode"@, "checkid_setup"@));
    assert(p[3] == ("openid.ns"@, OPENID_PROTOCOL_VERSION@));
    assert(p[4] == ("openid.ns.sreg"@, OPENID_EXT_SREG@));
    assert(p[5] == ("openid.realm"@, realm));
    assert(p[6] == ("openid.return_to"@, return_to));
    assert(p[7] == ("openid.sreg.optional"@, "fullname,email,nickname"@));
}

/// A sign-in is for the host to which the user comes back, and on the real site the user comes back by HTTPS.
pub proof fn sign_in_is_for_the_host(url: Seq<char>, header: Option<Seq<char>>, scheme: Seq<char>, host: Seq<char>)
    ensures
        urls::url_scheme(url) == Some(scheme) && urls::url_host(url) == Some(host) ==> realm_of(url) == Some(
            scheme + "://"@ + host + "/"@,
        ),
        urls::url_scheme(url) == Some(scheme) && urls::url_host(url) == Some(host) && host != "ttsmagic.cards"@ && host
            != "0.0.0.0"@ ==> return_url(url, header) == urls::parsed_url(scheme + "://"@ + host + "/steam/complete/"@),
        return_host(url, header) == "ttsmagic.cards"@ ==> return_url(url, header) == urls::parsed_url(
            "https"@ + "://"@ + "ttsmagic.cards"@ + "/steam/complete/"@,
        ),
        urls::url_host(url) is None ==> realm_of(url) is None,
{
}

/// An answer that is refused is refused for the first thing that is wrong with it.
pub proof fn refused_answers_say_why(response: OpenIDResponse, expected: Seq<char>)
    ensures
        signed_in(response, None) == Err::<int, SteamError>(SteamError::BadReturnUrl),
        response.return_to@ != expected ==> signed_in(response, Some(expected)) == Err::<int, SteamError>(
            SteamError::ReturnToMismatch,
        ),
        response.return_to@ == expected && response.ns@ == "http://specs.openid.net/auth/2.0"@ ==> {
            &&& response.mode@ != "id_res"@ ==> signed_in(response, Some(expected)) == Err::<int, SteamError>(
                SteamError::BadMode,
            )
            &&& response.mode@ == "id_res"@ && response.op_endpoint@ != "https://steamcommunity.com/openid/login"@
                ==> signed_in(response, Some(expected)) == Err::<int, SteamError>(SteamError::BadEndpointValue)
            &&& response.mode@ == "id_res"@ && response.op_endpoint@ == "https://steamcommunity.com/openid/login"@
                && response.claimed_id@ != response.identity@ ==> signed_in(response, Some(expected)) == Err::<
                int,
                SteamError,
            >(SteamError::IdentityMismatch)
        },
        response.return_to@ == expected && response.ns@ != "http://specs.openid.net/auth/2.0"@ ==> signed_in(
            response,
            Some(expected),
        ) == Err::<int, SteamError>(SteamError::BadNs),
{
}

} // verus!
