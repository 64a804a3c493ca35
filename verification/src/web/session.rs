//! Sessions of signed-in users, and the signed cookies that name them.
use crate::decimal;
use crate::hexadecimal;
use crate::text;
use crate::types::user::UserId;
use crate::user::User;
use crate::uuids;
use crate::uuids::Uuid;
use vstd::prelude::*;
use vstd::string::StringSliceAdditionalSpecFns;

verus! {

/// How long the cache keeps a session.
pub const SESSION_EXPIRE_SECONDS: u64 = 259_200;

/// How long a browser keeps the cookie: seven days.
pub const SESSION_COOKIE_SECONDS: i64 = 604_800;

/// The name of the session cookie.
pub const SESSION_COOKIE_NAME: &'static str = "ttsmagic-session";

/// How many bytes an identifier, a colon and a signature in hexadecimal take.
pub const SIGNED_LENGTH: usize = 101;

/// Why a cookie names no session.
#[derive(Clone, Copy, Debug, PartialEq, Eq, Structural)]
pub enum SessionError {
    /// The cookie has no name and value.
    BadCookie,
    /// The cookie's value is not UTF-8 once it is decoded.
    BadEncoding,
    /// The value has this many bytes.
    BadLength(usize),
    /// The first part of the value is not UTF-8.
    NotUtf8,
    /// The first part of the value is no identifier.
    BadSessionId,
    /// This byte stands where a colon should.
    BadSeparator(u8),
    /// The last part of the value is not hexadecimal.
    BadHex,
    /// The signature is that of another value or another key.
    BadSignature,
    /// The cache holds something else than a user's ID.
    BadUserId,
    /// There is no user with the ID that the cache holds.
    UnknownUser(UserId),
}

/// The session of a user, or of a visitor who has not signed in.
#[derive(Debug)]
pub struct Session {
    pub session_id: Uuid,
    pub user: Option<User>,
}

/// A cookie for the browser.
#[derive(Debug)]
pub struct SessionCookie {
    pub name: String,
    pub value: String,
    pub path: String,
    pub http_only: bool,
    pub max_age_seconds: i64,
}

/// What the cache is to keep, and for how many seconds.
#[derive(Debug)]
pub struct CacheEntry {
    pub key: String,
    pub value: String,
    pub seconds: u64,
}

/// The HMAC of a message with SHA-256.
pub uninterp spec fn hmac_sha256(key: Seq<u8>, message: Seq<u8>) -> Seq<u8>;

/// `ring::hmac::sign` with `HMAC_SHA256`: the message's HMAC, of 32 bytes.
#[verifier::external_body]
fn hmac_sign(key: &[u8; 32], message: &[u8]) -> (r: Vec<u8>)
    requires
        message@.len() < 0x1_0000_0000,
    ensures
        r@ == hmac_sha256(key@, message@),
        r@.len() == 32,
{
    let key = ring::hmac::Key::new(ring::hmac::HMAC_SHA256, key);
    ring::hmac::sign(&key, message).as_ref().to_vec()
}

/// `ring::hmac::verify` with `HMAC_SHA256`: whether a signature is the message's HMAC.
#[verifier::external_body]
fn hmac_verify(key: &[u8; 32], message: &[u8], signature: &Vec<u8>) -> (r: bool)
    requires
        message@.len() < 0x1_0000_0000,
    ensures
        r == (signature@ == hmac_sha256(key@, message@)),
{
    let key = ring::hmac::Key::new(ring::hmac::HMAC_SHA256, key);
    ring::hmac::verify(&key, message, signature).is_ok()
}

/// Where the first pair of a cookie stands: before the first semicolon.
pub open spec fn cookie_pair(s: Seq<char>) -> Seq<char> {
    text::split_text(s, ";"@)[0]
}

/// The value of a cookie: what follows the first equals sign, where a name stands before it.
pub open spec fn cookie_value(s: Seq<char>) -> Option<Seq<char>> {
    let pair = cookie_pair(s);
    let at = text::char_at_first(pair, '=');
    if at < 0 || text::trim_text(pair.take(at)).len() == 0 {
        None
    } else {
        Some(text::trim_text(pair.skip(at + 1)))
    }
}

/// `cookie::Cookie::parse` takes the value from between the first equals sign and the first
/// semicolon, and fails exactly where the sign or the name before it is missing.
#[verifier::external_body]
fn parse_cookie_value(s: &str) -> (r: Option<String>)
    ensures
        match r {
            Some(v) => cookie_value(s@) == Some(v@),
            None => cookie_value(s@) is None,
        },
{
    cookie::Cookie::parse(s).ok().map(|c| c.value().to_owned())
}

/// Bytes with each percent sign and the two hexadecimal digits behind it made the byte that the
/// digits write.
pub open spec fn percent_decoded(b: Seq<u8>) -> Seq<u8>
    decreases b.len(),
{
    if b.len() == 0 {
        b
    } else if b[0] == 37 && b.len() >= 3 && hexadecimal::is_hex(b[1] as char) && hexadecimal::is_hex(
        b[2] as char,
    ) {
        seq![(hexadecimal::hex_value(b[1] as char) * 16 + hexadecimal::hex_value(b[2] as char)) as u8]
            + percent_decoded(b.skip(3))
    } else {
        seq![b[0]] + percent_decoded(b.skip(1))
    }
}

/// `percent_encoding::percent_decode` with `decode_utf8`: the decoded bytes as text, and an error
/// exactly where they are not UTF-8.
#[verifier::external_body]
fn percent_decode(s: &str) -> (r: Option<String>)
    ensures
        match r {
            Some(t) => vstd::utf8::valid_utf8(percent_decoded(vstd::utf8::encode_utf8(s@))) && t@
                == vstd::utf8::decode_utf8(percent_decoded(vstd::utf8::encode_utf8(s@))),
            None => !vstd::utf8::valid_utf8(percent_decoded(vstd::utf8::encode_utf8(s@))),
        },
{
    let decoded = percent_encoding::percent_decode(s.as_bytes());
    decoded.decode_utf8().ok().map(|t| t.into_owned())
}

/// The text under which the cache keeps a session.
pub open spec fn redis_key_of(id: int) -> Seq<char> {
    "ttsmagic-sessions:"@ + uuids::hyphenated(id)
}

/// A session's identifier with its signature.
pub open spec fn signed(key: Seq<u8>, id: int) -> Seq<char> {
    let id_text = uuids::hyphenated(id);
    id_text + ":"@ + hexadecimal::hex_encoded(hmac_sha256(key, vstd::utf8::encode_utf8(id_text)))
}

/// The session that a signed value names.
pub open spec fn verified(key: Seq<u8>, b: Seq<u8>) -> Result<u128, SessionError> {
    let id_bytes = b.subrange(0, 36);
    let signature = hexadecimal::hex_decoded(hexadecimal::latin(b.skip(37)));
    if b.len() != SIGNED_LENGTH {
        Err(SessionError::BadLength(b.len() as usize))
    } else if !vstd::utf8::valid_utf8(id_bytes) {
        Err(SessionError::NotUtf8)
    } else if uuids::uuid_of(vstd::utf8::decode_utf8(id_bytes)) is None {
        Err(SessionError::BadSessionId)
    } else if b[36] != 58 {
        Err(SessionError::BadSeparator(b[36]))
    } else if signature is None {
        Err(SessionError::BadHex)
    } else if signature->0 != hmac_sha256(key, id_bytes) {
        Err(SessionError::BadSignature)
    } else {
        Ok(uuids::uuid_of(vstd::utf8::decode_utf8(id_bytes))->0)
    }
}

/// The session cookie with some value.
pub open spec fn is_session_cookie(c: SessionCookie, value: Seq<char>) -> bool {
    &&& c.name@ == SESSION_COOKIE_NAME@
    &&& c.value@ == value
    &&& c.path@ == "/"@
    &&& c.http_only
    &&& c.max_age_seconds == SESSION_COOKIE_SECONDS
}

impl Session {
    /// The session of a visitor.
    pub fn anonymous(session_id: Uuid) -> (r: Session)
        ensures
            r == (Session { session_id, user: None }),
    {
        Session { session_id, user: None }
    }

    /// The session of the user whom the database has under an ID.
    pub fn from_user(session_id: Uuid, user_id: UserId, user: Option<User>) -> (r: Result<Session, SessionError>)
        ensures
            match user {
                Some(u) => r == Ok::<Session, SessionError>(Session { session_id, user: Some(u) }),
                None => r == Err::<Session, SessionError>(SessionError::UnknownUser(user_id)),
            },
    {
        match user {
            Some(user) => Ok(Session { session_id, user: Some(user) }),
            None => Err(SessionError::UnknownUser(user_id)),
        }
    }

    /// The text under which the cache keeps the session.
    pub fn redis_key(&self) -> (r: String)
        ensures
            r@ == redis_key_of(self.session_id.bits as int),
    {
        text::concat2("ttsmagic-sessions:", self.session_id.to_text().as_str())
    }

    /// Checks a signed value, and gives the session that it names.
    pub fn verify_session_id_signature(key: &[u8; 32], signed_cookie_value: &[u8]) -> (r: Result<
        Uuid,
        SessionError,
    >)
        ensures
            match r {
                Ok(id) => verified(key@, signed_cookie_value@) == Ok::<u128, SessionError>(id.bits),
                Err(e) => verified(key@, signed_cookie_value@) == Err::<u128, SessionError>(e),
            },
    {
        if signed_cookie_value.len() != SIGNED_LENGTH {
            return Err(SessionError::BadLength(signed_cookie_value.len()));
        }
        let session_id_bytes = vstd::slice::slice_subrange(signed_cookie_value, 0, 36);
        let session_id_text = match text::utf8_text(session_id_bytes) {
            Some(t) => t,
            None => {
                return Err(SessionError::NotUtf8);
            },
        };
        let session_id = match Uuid::parse_str(session_id_text.as_str()) {
            Ok(id) => id,
            Err(_) => {
                return Err(SessionError::BadSessionId);
            },
        };
        let separator: u8 = signed_cookie_value[36];
        if separator != 58 {
            return Err(SessionError::BadSeparator(separator));
        }
        let signature_hex = vstd::slice::slice_subrange(signed_cookie_value, 37, signed_cookie_value.len());
        assert(signature_hex@ =~= signed_cookie_value@.skip(37));
        let signature = match hexadecimal::decode(signature_hex) {
            Some(s) => s,
            None => {
                return Err(SessionError::BadHex);
            },
        };
        if hmac_verify(key, session_id_bytes, &signature) {
            Ok(session_id)
        } else {
            Err(SessionError::BadSignature)
        }
    }

    /// The session's identifier with its signature. It is accepted under the key that signed it, as
    /// it is and in a `Cookie` header.
    pub fn signed_session_id(&self, key: &[u8; 32]) -> (r: String)
        ensures
            r@ == signed(key@, self.session_id.bits as int),
            verified(key@, vstd::utf8::encode_utf8(r@)) == Ok::<u128, SessionError>(self.session_id.bits),
            header_session(key@, SESSION_COOKIE_NAME@ + "="@ + r@) == Ok::<Option<u128>, SessionError>(
                Some(self.session_id.bits),
            ),
    {
        let id_text = self.session_id.to_text();
        proof {
            uuids::hyphenated_shape(self.session_id.bits as int);
            vstd::utf8::is_ascii_chars_encode_utf8(id_text@);
        }
        let signature = hmac_sign(key, id_text.as_str().as_bytes());
        proof {
            signature_round_trip(key@, self.session_id.bits);
            cookie_round_trip(key@, self.session_id.bits);
        }
        text::concat3(id_text.as_str(), ":", hexadecimal::encode(&signature).as_str())
    }

    /// What the cache is to keep of the session: nothing for a visitor.
    pub fn cache_entry(&self) -> (r: Option<CacheEntry>)
        ensures
            match (r, self.user) {
                (Some(e), Some(u)) => {
                    &&& e.key@ == redis_key_of(self.session_id.bits as int)
                    &&& e.value@ == decimal::decimal(u.id.0 as nat)
                    &&& e.seconds == SESSION_EXPIRE_SECONDS
                },
                (None, None) => true,
                _ => false,
            },
    {
        match &self.user {
            Some(user) => Some(
                CacheEntry { key: self.redis_key(), value: user.id.to_text(), seconds: SESSION_EXPIRE_SECONDS },
            ),
            None => None,
        }
    }

    fn make_cookie_inner(signed_session_id: String) -> (r: SessionCookie)
        ensures
            is_session_cookie(r, signed_session_id@),
    {
        SessionCookie {
            name: SESSION_COOKIE_NAME.to_string(),
            value: signed_session_id,
            path: "/".to_string(),
            http_only: true,
            max_age_seconds: SESSION_COOKIE_SECONDS,
        }
    }

    /// The cookie that ends a session.
    pub fn make_empty_cookie() -> (r: SessionCookie)
        ensures
            is_session_cookie(r, Seq::empty()),
    {
        let empty = String::new();
        assert(empty@ =~= Seq::empty());
        Self::make_cookie_inner(empty)
    }

    /// The cookie that names the session: a `Cookie` header that holds it is accepted, and names the
    /// session.
    pub fn make_cookie(&self, key: &[u8; 32]) -> (r: SessionCookie)
        ensures
            is_session_cookie(r, signed(key@, self.session_id.bits as int)),
            verified(key@, vstd::utf8::encode_utf8(r.value@)) == Ok::<u128, SessionError>(self.session_id.bits),
            header_session(key@, r.name@ + "="@ + r.value@) == Ok::<Option<u128>, SessionError>(
                Some(self.session_id.bits),
            ),
    {
        let signed_id = self.signed_session_id(key);
        Self::make_cookie_inner(signed_id)
    }
}

/// The session that a cookie's value names; none for the empty value.
pub open spec fn named_session(key: Seq<u8>, value: Seq<char>) -> Result<Option<u128>, SessionError> {
    if value.len() == 0 {
        Ok(None)
    } else {
        match verified(key, vstd::utf8::encode_utf8(value)) {
            Ok(id) => Ok(Some(id)),
            Err(e) => Err(e),
        }
    }
}

/// The session that a cookie's value names.
pub fn session_of_value(key: &[u8; 32], value: &str) -> (r: Result<Option<Uuid>, SessionError>)
    ensures
        match r {
            Ok(Some(id)) => named_session(key@, value@) == Ok::<Option<u128>, SessionError>(Some(id.bits)),
            Ok(None) => named_session(key@, value@) == Ok::<Option<u128>, SessionError>(None),
            Err(e) => named_session(key@, value@) == Err::<Option<u128>, SessionError>(e),
        },
{
    if text::same_text(value, "") {
        proof {
            reveal_strlit("");
        }
        return Ok(None);
    }
    proof {
        reveal_strlit("");
        if value@.len() == 0 {
            assert(value@ =~= ""@);
        }
    }
    match Session::verify_session_id_signature(key, value.as_bytes()) {
        Ok(id) => Ok(Some(id)),
        Err(e) => Err(e),
    }
}

/// Whether one of a header's cookies is taken for the session cookie: its name begins as that
/// cookie's does.
pub open spec fn is_candidate(cookie: Seq<char>) -> bool {
    text::has_prefix(text::trim_text(cookie), SESSION_COOKIE_NAME@)
}

/// The value of the first session cookie among some cookies.
pub open spec fn first_value(cookies: Seq<Seq<char>>) -> Result<Option<Seq<char>>, SessionError>
    decreases cookies.len(),
{
    if cookies.len() == 0 {
        Ok(None)
    } else if !is_candidate(cookies[0]) {
        first_value(cookies.drop_first())
    } else {
        match cookie_value(text::trim_text(cookies[0])) {
            None => Err(SessionError::BadCookie),
            Some(v) => {
                let d = percent_decoded(vstd::utf8::encode_utf8(v));
                if vstd::utf8::valid_utf8(d) {
                    Ok(Some(vstd::utf8::decode_utf8(d)))
                } else {
                    Err(SessionError::BadEncoding)
                }
            },
        }
    }
}

/// The value of the session cookie in a `Cookie` header.
pub fn value_in_header(header: &str) -> (r: Result<Option<String>, SessionError>)
    ensures
        match r {
            Ok(Some(v)) => first_value(text::split_text(header@, "; "@)) == Ok::<
                Option<Seq<char>>,
                SessionError,
            >(Some(v@)),
            Ok(None) => first_value(text::split_text(header@, "; "@)) == Ok::<Option<Seq<char>>, SessionError>(
                None,
            ),
            Err(e) => first_value(text::split_text(header@, "; "@)) == Err::<Option<Seq<char>>, SessionError>(
                e,
            ),
        },
{
    proof {
        reveal_strlit("; ");
    }
    let cookies = text::split(header, "; ");
    let ghost all = text::texts(cookies@);
    let mut i: usize = 0;
    assert(all.skip(0) =~= all);
    while i < cookies.len()
        invariant
            i <= cookies@.len(),
            all == text::texts(cookies@),
            first_value(all) == first_value(all.skip(i as int)),
            all == text::split_text(header@, "; "@),
        decreases cookies.len() - i,
    {
        let cookie = text::trim(cookies[i].as_str());
        assert(all.skip(i as int)[0] == cookies@[i as int]@);
        if text::starts_with(cookie.as_str(), SESSION_COOKIE_NAME) {
            return match parse_cookie_value(cookie.as_str()) {
                None => Err(SessionError::BadCookie),
                Some(v) => match percent_decode(v.as_str()) {
                    Some(t) => Ok(Some(t)),
                    None => Err(SessionError::BadEncoding),
                },
            };
        }
        assert(all.skip(i as int).drop_first() =~= all.skip(i + 1));
        i = i + 1;
    }
    Ok(None)
}

/// The session that a `Cookie` header names.
pub open spec fn header_session(key: Seq<u8>, header: Seq<char>) -> Result<Option<u128>, SessionError> {
    match first_value(text::split_text(header, "; "@)) {
        Ok(Some(v)) => named_session(key, v),
        Ok(None) => Ok(None),
        Err(e) => Err(e),
    }
}

/// The session that a `Cookie` header names.
pub fn from_cookie_header(key: &[u8; 32], header: &str) -> (r: Result<Option<Uuid>, SessionError>)
    ensures
        match r {
            Ok(Some(id)) => header_session(key@, header@) == Ok::<Option<u128>, SessionError>(Some(id.bits)),
            Ok(None) => header_session(key@, header@) == Ok::<Option<u128>, SessionError>(None),
            Err(e) => header_session(key@, header@) == Err::<Option<u128>, SessionError>(e),
        },
{
    match value_in_header(header) {
        Ok(Some(v)) => session_of_value(key, v.as_str()),
        Ok(None) => Ok(None),
        Err(e) => Err(e),
    }
}

/// The user to whom the cache says a session belongs; none where the cache has no such session.
pub fn user_of_cached(reply: Option<String>) -> (r: Result<Option<UserId>, SessionError>)
    ensures
        match reply {
            None => r == Ok::<Option<UserId>, SessionError>(None),
            Some(t) => match crate::types::user::user_id_of(t@) {
                Some(n) => r is Ok && r->Ok_0 is Some && (r->Ok_0->0).0 == n,
                None => r == Err::<Option<UserId>, SessionError>(SessionError::BadUserId),
            },
        },
{
    match reply {
        None => Ok(None),
        Some(t) => match UserId::parse(t.as_str()) {
            Ok(id) => Ok(Some(id)),
            Err(_) => Err(SessionError::BadUserId),
        },
    }
}

/// The middleware that finds the session of each request.
#[derive(Debug)]
pub struct SessionMiddleware {}

/// The session that the last header which could be read names.
pub open spec fn last_read<T>(found: Seq<Result<Option<T>, SessionError>>) -> Option<T>
    decreases found.len(),
{
    if found.len() == 0 {
        None
    } else {
        match found.last() {
            Ok(s) => s,
            Err(_) => last_read(found.drop_last()),
        }
    }
}

impl SessionMiddleware {
    /// The middleware.
    pub fn new() -> (r: SessionMiddleware)
        ensures
            r == (SessionMiddleware {}),
    {
        SessionMiddleware {}
    }

    /// The session of a request, from what was found for each of its `Cookie` headers in turn: the
    /// last one that could be read decides, and a new session is made where it names none. Says
    /// too whether the session is new.
    pub fn choose_session(fresh: Uuid, found: Vec<Result<Option<Session>, SessionError>>) -> (r: (Session, bool))
        ensures
            match last_read(found@) {
                Some(s) => r == (s, false),
                None => r == (Session { session_id: fresh, user: None }, true),
            },
    {
        let mut rest = found;
        loop
            invariant
                last_read(found@) == last_read(rest@),
            decreases rest@.len(),
        {
            let ghost before = rest@;
            match rest.pop() {
                None => {
                    return (Session::anonymous(fresh), true);
                },
                Some(Ok(Some(s))) => {
                    return (s, false);
                },
                Some(Ok(None)) => {
                    return (Session::anonymous(fresh), true);
                },
                Some(Err(_)) => {
                    assert(rest@ =~= before.drop_last());
                },
            }
        }
    }
}

/// The parts of a signed value: its length, its characters, and what stands where.
proof fn signed_shape(key: Seq<u8>, id: u128)
    requires
        hmac_sha256(key, vstd::utf8::encode_utf8(uuids::hyphenated(id as int))).len() == 32,
    ensures
        signed(key, id as int).len() == SIGNED_LENGTH,
        forall|i: int|
            0 <= i < SIGNED_LENGTH ==> (#[trigger] signed(key, id as int)[i] == '-' || signed(key, id as int)[i] == ':' || '0'
                <= signed(key, id as int)[i] <= '9' || 'a' <= signed(key, id as int)[i] <= 'f'),
        signed(key, id as int).subrange(0, 36) == uuids::hyphenated(id as int),
        signed(key, id as int)[36] == ':',
        signed(key, id as int).skip(37) == hexadecimal::hex_encoded(
            hmac_sha256(key, vstd::utf8::encode_utf8(uuids::hyphenated(id as int))),
        ),
{
    let id_text = uuids::hyphenated(id as int);
    let mac = hmac_sha256(key, vstd::utf8::encode_utf8(id_text));
    let h = hexadecimal::hex_encoded(mac);
    let s = signed(key, id as int);
    uuids::hyphenated_shape(id as int);
    reveal_strlit(":");
    assert(s.len() == 101);
    assert forall|i: int| 0 <= i < SIGNED_LENGTH implies (#[trigger] s[i] == '-' || s[i] == ':' || '0' <= s[i] <= '9'
        || 'a' <= s[i] <= 'f') by {
        if i < 36 {
            assert(s[i] == id_text[i]);
        } else if i > 36 {
            let j = i - 37;
            assert(s[i] == h[j]);
            let b = mac[j / 2] as int;
            assert(0 <= b / 16 < 16 && 0 <= b % 16 < 16);
        }
    }
    assert(s.subrange(0, 36) =~= id_text);
    assert(s.skip(37) =~= h);
}

/// A session's signed identifier is accepted under the key that signed it, and names the session.
proof fn signature_round_trip(key: Seq<u8>, id: u128)
    requires
        hmac_sha256(key, vstd::utf8::encode_utf8(uuids::hyphenated(id as int))).len() == 32,
    ensures
        verified(key, vstd::utf8::encode_utf8(signed(key, id as int))) == Ok::<u128, SessionError>(id),
        named_session(key, signed(key, id as int)) == Ok::<Option<u128>, SessionError>(Some(id)),
{
    let id_text = uuids::hyphenated(id as int);
    let s = signed(key, id as int);
    let b = vstd::utf8::encode_utf8(s);
    signed_shape(key, id);
    uuids::hyphenated_shape(id as int);
    vstd::utf8::is_ascii_chars_encode_utf8(s);
    vstd::utf8::is_ascii_chars_encode_utf8(id_text);
    assert forall|i: int| 0 <= i < 36 implies #[trigger] b[i] == vstd::utf8::encode_utf8(id_text)[i] by {
        assert(s[i] == s.subrange(0, 36)[i]);
        assert(id_text[i] as u8 == vstd::utf8::encode_utf8(id_text)[i]);
        assert(s[i] as u8 == b[i]);
    }
    assert(b.subrange(0, 36) =~= vstd::utf8::encode_utf8(id_text));
    vstd::utf8::encode_utf8_valid_utf8(id_text);
    vstd::utf8::encode_utf8_decode_utf8(id_text);
    uuids::parse_undoes_text(id);
    assert(b[36] == s[36] as u8);
    let h = s.skip(37);
    assert forall|i: int| 0 <= i < b.skip(37).len() implies #[trigger] hexadecimal::latin(b.skip(37))[i] == h[i] by {
        assert(b.skip(37)[i] == b[i + 37]);
        assert(s[i + 37] as u8 == b[i + 37]);
        assert(h[i] == s[i + 37]);
    }
    assert(hexadecimal::latin(b.skip(37)) =~= h);
    hexadecimal::decode_undoes_encode(hmac_sha256(key, vstd::utf8::encode_utf8(id_text)));
}

/// A value that was signed under another key is refused, unless the two keys sign alike.
pub proof fn other_key_is_refused(key: Seq<u8>, other: Seq<u8>, id: u128)
    ensures
        ({
            let message = vstd::utf8::encode_utf8(uuids::hyphenated(id as int));
            hmac_sha256(key, message).len() == 32 && hmac_sha256(key, message) != hmac_sha256(other, message)
                ==> verified(other, vstd::utf8::encode_utf8(signed(key, id as int))) == Err::<u128, SessionError>(
                SessionError::BadSignature,
            )
        }),
{
    if hmac_sha256(key, vstd::utf8::encode_utf8(uuids::hyphenated(id as int))).len() == 32 {
        signed_bytes(key, id);
    }
}

/// The bytes of a signed value: those of the identifier come first.
proof fn signed_bytes(key: Seq<u8>, id: u128)
    requires
        hmac_sha256(key, vstd::utf8::encode_utf8(uuids::hyphenated(id as int))).len() == 32,
    ensures
        ({
            let b = vstd::utf8::encode_utf8(signed(key, id as int));
            &&& b.subrange(0, 36) == vstd::utf8::encode_utf8(uuids::hyphenated(id as int))
            &&& verified(key, b) == Ok::<u128, SessionError>(id)
        }),
{
    let id_text = uuids::hyphenated(id as int);
    let s = signed(key, id as int);
    let b = vstd::utf8::encode_utf8(s);
    signature_round_trip(key, id);
    signed_shape(key, id);
    uuids::hyphenated_shape(id as int);
    vstd::utf8::is_ascii_chars_encode_utf8(s);
    vstd::utf8::is_ascii_chars_encode_utf8(id_text);
    assert forall|i: int| 0 <= i < 36 implies #[trigger] b[i] == vstd::utf8::encode_utf8(id_text)[i] by {
        assert(s[i] == s.subrange(0, 36)[i]);
        assert(id_text[i] as u8 == vstd::utf8::encode_utf8(id_text)[i]);
        assert(s[i] as u8 == b[i]);
    }
    assert(b.subrange(0, 36) =~= vstd::utf8::encode_utf8(id_text));
}

/// Bytes without a percent sign are decoded to themselves.
proof fn percent_decoded_plain(b: Seq<u8>)
    requires
        forall|i: int| 0 <= i < b.len() ==> #[trigger] b[i] != 37,
    ensures
        percent_decoded(b) == b,
    decreases b.len(),
{
    if b.len() > 0 {
        assert(b[0] != 37);
        assert forall|i: int| 0 <= i < b.skip(1).len() implies #[trigger] b.skip(1)[i] != 37 by {
            assert(b[i + 1] != 37);
        }
        percent_decoded_plain(b.skip(1));
        assert(seq![b[0]] + b.skip(1) =~= b);
    }
}

/// A text without white space is trimmed to itself.
proof fn trim_plain(s: Seq<char>)
    requires
        forall|i: int| 0 <= i < s.len() ==> !text::is_space(#[trigger] s[i]),
    ensures
        text::trim_text(s) == s,
{
    if s.len() > 0 {
        assert(!text::is_space(s[0]));
        assert(!text::is_space(s[s.len() - 1]));
    }
}

/// A separator does not occur in a text that lacks one of its characters.
proof fn no_separator(s: Seq<char>, sep: Seq<char>, c: char)
    requires
        sep.len() > 0,
        sep.contains(c),
        !s.contains(c),
    ensures
        text::split_text(s, sep) == seq![s],
{
    text::first_at_occurs(s, sep, 0);
    let k = text::first_at(s, sep, 0);
    if k >= 0 {
        let j = choose|j: int| 0 <= j < sep.len() && sep[j] == c;
        assert(s.subrange(k, k + sep.len())[j] == s[k + j]);
        assert(s.contains(c));
    }
}

proof fn first_equals(s: Seq<char>, at: int)
    requires
        0 <= at < s.len(),
        s[at] == '=',
        forall|i: int| 0 <= i < at ==> #[trigger] s[i] != '=',
    ensures
        text::char_at_first(s, '=') == at,
    decreases s.len(),
{
    if at > 0 {
        assert(s[0] != '=');
        assert forall|i: int| 0 <= i < at - 1 implies #[trigger] s.drop_first()[i] != '=' by {
            assert(s[i + 1] != '=');
        }
        first_equals(s.drop_first(), at - 1);
    }
}

/// Whether a text can be the value of a cookie: no white space and no semicolon stands in it.
pub open spec fn is_plain_value(v: Seq<char>) -> bool {
    forall|i: int| 0 <= i < v.len() ==> !text::is_space(#[trigger] v[i]) && v[i] != ';'
}

/// A header with the session cookie gives its decoded value.
proof fn header_value(v: Seq<char>)
    requires
        is_plain_value(v),
        vstd::utf8::valid_utf8(percent_decoded(vstd::utf8::encode_utf8(v))),
    ensures
        first_value(text::split_text(SESSION_COOKIE_NAME@ + "="@ + v, "; "@)) == Ok::<
            Option<Seq<char>>,
            SessionError,
        >(Some(vstd::utf8::decode_utf8(percent_decoded(vstd::utf8::encode_utf8(v))))),
{
    let name = SESSION_COOKIE_NAME@;
    let header = name + "="@ + v;
    reveal_strlit("ttsmagic-session");
    reveal_strlit("=");
    reveal_strlit("; ");
    reveal_strlit(";");
    assert(header.len() == 17 + v.len());
    assert forall|i: int| 0 <= i < header.len() implies !text::is_space(#[trigger] header[i]) && header[i] != ';' by {
        if i > 16 {
            assert(header[i] == v[i - 17]);
        }
    }
    assert("; "@.contains(';')) by {
        assert("; "@[0] == ';');
    }
    assert(";"@.contains(';')) by {
        assert(";"@[0] == ';');
    }
    no_separator(header, "; "@, ';');
    no_separator(header, ";"@, ';');
    trim_plain(header);
    let cookies = text::split_text(header, "; "@);
    assert(cookies[0] == header);
    assert(header.subrange(0, 16) =~= name);
    assert(is_candidate(cookies[0]));
    assert(header[16] == '=');
    first_equals(header, 16);
    assert(header.take(16) =~= name);
    trim_plain(name);
    assert(header.skip(17) =~= v);
    trim_plain(v);
    assert(cookie_value(header) == Some(v));
}

/// A header with the session cookie that a session makes names that session.
proof fn cookie_round_trip(key: Seq<u8>, id: u128)
    requires
        hmac_sha256(key, vstd::utf8::encode_utf8(uuids::hyphenated(id as int))).len() == 32,
    ensures
        header_session(key, SESSION_COOKIE_NAME@ + "="@ + signed(key, id as int)) == Ok::<
            Option<u128>,
            SessionError,
        >(Some(id)),
{
    let value = signed(key, id as int);
    signed_shape(key, id);
    let b = vstd::utf8::encode_utf8(value);
    vstd::utf8::is_ascii_chars_encode_utf8(value);
    assert forall|i: int| 0 <= i < b.len() implies #[trigger] b[i] != 37 by {
        assert(value[i] as u8 == b[i]);
    }
    percent_decoded_plain(b);
    vstd::utf8::encode_utf8_valid_utf8(value);
    vstd::utf8::encode_utf8_decode_utf8(value);
    header_value(value);
    signature_round_trip(key, id);
}

/// However the bytes of a session cookie's value were percent-encoded, the header names the session that the
/// value does.
pub proof fn encoded_cookie_names_session(key: Seq<u8>, value: Seq<char>, encoded: Seq<char>)
    requires
        is_plain_value(encoded),
        percent_decoded(vstd::utf8::encode_utf8(encoded)) == vstd::utf8::encode_utf8(value),
    ensures
        header_session(key, SESSION_COOKIE_NAME@ + "="@ + encoded) == named_session(key, value),
{
    vstd::utf8::encode_utf8_valid_utf8(value);
    vstd::utf8::encode_utf8_decode_utf8(value);
    header_value(encoded);
}

/// The cookie that ends a session names no session.
pub proof fn empty_cookie_names_none(key: Seq<u8>)
    ensures
        header_session(key, SESSION_COOKIE_NAME@ + "="@ + Seq::empty()) == Ok::<Option<u128>, SessionError>(None),
{
    let none = Seq::<char>::empty();
    vstd::utf8::is_ascii_chars_encode_utf8(none);
    percent_decoded_plain(vstd::utf8::encode_utf8(none));
    encoded_cookie_names_session(key, none, none);
}

/// What the cache keeps of a session's user is read back as that user.
pub proof fn cached_user_round_trip(id: UserId)
    ensures
        crate::types::user::user_id_of(decimal::decimal(id.0 as nat)) == Some(id.0 as int),
{
    crate::types::user::parse_undoes_text(id);
}

/// A value is accepted exactly where it is an identifier, a colon and the identifier's signature under the key, in
/// hexadecimal; and it names the session with that identifier.
pub proof fn accepted_values_are_signed(key: Seq<u8>, b: Seq<u8>, id: u128)
    ensures
        verified(key, b) == Ok::<u128, SessionError>(id) <==> {
            &&& b.len() == 36 + 1 + 2 * 32
            &&& vstd::utf8::valid_utf8(b.subrange(0, 36))
            &&& uuids::uuid_of(vstd::utf8::decode_utf8(b.subrange(0, 36))) == Some(id)
            &&& b[36] == 0x3a
            &&& hexadecimal::hex_decoded(hexadecimal::latin(b.skip(37))) == Some(hmac_sha256(key, b.subrange(0, 36)))
        },
{
}

/// The first cookie of a header whose name begins as that of the session cookie decides, whatever cookies stand
/// before and behind it; without one there is no session.
pub proof fn first_session_cookie_decides(others: Seq<Seq<char>>, cookie: Seq<char>, rest: Seq<Seq<char>>)
    requires
        forall|i: int|
            0 <= i < others.len() ==> !text::has_prefix(
                text::trim_text(#[trigger] others[i]),
                "ttsmagic-session"@,
            ),
    ensures
        first_value(others) == Ok::<Option<Seq<char>>, SessionError>(None),
        first_value(others + rest) == first_value(rest),
        text::has_prefix(text::trim_text(cookie), "ttsmagic-session"@) ==> first_value(others.push(cookie) + rest)
            == first_value(seq![cookie]),
    decreases others.len(),
{
    if others.len() > 0 {
        let later = others.drop_first();
        assert(!text::has_prefix(text::trim_text(others[0]), "ttsmagic-session"@));
        assert forall|i: int| 0 <= i < later.len() implies !text::has_prefix(
            text::trim_text(#[trigger] later[i]),
            "ttsmagic-session"@,
        ) by {
            assert(later[i] == others[i + 1]);
        }
        first_session_cookie_decides(later, cookie, rest);
        assert((others + rest).drop_first() =~= later + rest);
        assert((others.push(cookie) + rest).drop_first() =~= later.push(cookie) + rest);
        assert((others + rest)[0] == others[0]);
        assert((others.push(cookie) + rest)[0] == others[0]);
    } else {
        assert(others + rest =~= rest);
        assert((others.push(cookie) + rest)[0] == cookie);
        assert(seq![cookie][0] == cookie);
    }
}

/// The last header that could be read says what session there is, also where it says that there is none.
pub proof fn last_readable_header_decides<T>(
    before: Seq<Result<Option<T>, SessionError>>,
    session: Option<T>,
    behind: Seq<Result<Option<T>, SessionError>>,
)
    requires
        forall|i: int| 0 <= i < behind.len() ==> (#[trigger] behind[i]) is Err,
    ensures
        last_read(before.push(Ok(session)) + behind) == session,
        last_read(behind) is None,
    decreases behind.len(),
{
    let all = before.push(Ok(session)) + behind;
    if behind.len() > 0 {
        let fewer = behind.drop_last();
        assert forall|i: int| 0 <= i < fewer.len() implies (#[trigger] fewer[i]) is Err by {
            assert(behind[i] is Err);
        }
        last_readable_header_decides(before, session, fewer);
        assert(all.drop_last() =~= before.push(Ok(session)) + fewer);
        assert(behind[behind.len() - 1] is Err);
        assert(all.last() == behind.last());
    } else {
        assert(all.last() == Ok::<Option<T>, SessionError>(session));
    }
}

/// No two sessions are kept under the same text.
pub proof fn redis_keys_differ(a: u128, b: u128)
    requires
        redis_key_of(a as int) == redis_key_of(b as int),
    ensures
        a == b,
{
    let p = "ttsmagic-sessions:"@;
    assert(redis_key_of(a as int).skip(p.len() as int) =~= uuids::hyphenated(a as int));
    assert(redis_key_of(b as int).skip(p.len() as int) =~= uuids::hyphenated(b as int));
    uuids::hyphenated_injective(a, b);
}

/// A cookie is good for the whole site, cannot be read by scripts, and goes by the name that a header is searched
/// for.
pub proof fn session_cookies_are_found(c: SessionCookie, value: Seq<char>)
    requires
        is_session_cookie(c, value),
    ensures
        c.name@ == "ttsmagic-session"@,
        c.value@ == value,
        c.path@ == "/"@,
        c.http_only,
        is_candidate(c.name@ + "="@ + value) <==> text::has_prefix(
            text::trim_text("ttsmagic-session"@ + "="@ + value),
            "ttsmagic-session"@,
        ),
{
}

/// A session is kept under its own identifier.
pub proof fn sessions_are_kept_by_id(id: u128)
    ensures
        redis_key_of(id as int) == "ttsmagic-sessions:"@ + uuids::hyphenated(id as int),
{
}

/// A session is kept for three days, and its cookie for seven.
pub proof fn sessions_last()
    ensures
        SESSION_EXPIRE_SECONDS == 3 * 24 * 60 * 60,
        SESSION_COOKIE_SECONDS == 7 * 24 * 60 * 60,
{
}

/// A value that is not accepted says why: it has another length, or its identifier, its separator or its signature
/// is not one.
pub proof fn refused_values_say_why(key: Seq<u8>, b: Seq<u8>)
    ensures
        b.len() != 101 ==> verified(key, b) == Err::<u128, SessionError>(SessionError::BadLength(b.len() as usize)),
        b.len() == 101 && vstd::utf8::valid_utf8(b.subrange(0, 36)) && uuids::uuid_of(
            vstd::utf8::decode_utf8(b.subrange(0, 36)),
        ) is None ==> verified(key, b) == Err::<u128, SessionError>(SessionError::BadSessionId),
        b.len() == 101 && vstd::utf8::valid_utf8(b.subrange(0, 36)) && uuids::uuid_of(
            vstd::utf8::decode_utf8(b.subrange(0, 36)),
        ) is Some ==> {
            let signature = hexadecimal::hex_decoded(hexadecimal::latin(b.skip(37)));
            &&& b[36] != 0x3a ==> verified(key, b) == Err::<u128, SessionError>(SessionError::BadSeparator(b[36]))
            &&& b[36] == 0x3a && signature is None ==> verified(key, b) == Err::<u128, SessionError>(
                SessionError::BadHex,
            )
            &&& b[36] == 0x3a && signature is Some && signature != Some(hmac_sha256(key, b.subrange(0, 36)))
                ==> verified(key, b) == Err::<u128, SessionError>(SessionError::BadSignature)
        },
{
}

/// A cookie's value names the session that its bytes do, and the empty value none.
pub proof fn values_name_sessions(key: Seq<u8>, value: Seq<char>, id: u128)
    ensures
        named_session(key, Seq::empty()) == Ok::<Option<u128>, SessionError>(None),
        value.len() > 0 ==> (named_session(key, value) == Ok::<Option<u128>, SessionError>(Some(id)) <==> verified(
            key,
            vstd::utf8::encode_utf8(value),
        ) == Ok::<u128, SessionError>(id)),
        value.len() > 0 ==> named_session(key, value) != Ok::<Option<u128>, SessionError>(None),
{
}

} // verus!
