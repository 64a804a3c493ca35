use ttsmagic::deck::stored::Deck;
use ttsmagic::idmap::IdMap;
use ttsmagic::json::Json;
use ttsmagic::types::deck::DeckId;
use ttsmagic::types::server_to_frontend::{Notification, ServerToFrontendMessage};
use ttsmagic::types::user::UserId;
use ttsmagic::urls::Url;
use ttsmagic::user::User;
use ttsmagic::uuids::Uuid;
use ttsmagic::web::app::{extension, home_page, static_file_type};
use ttsmagic::web::deck::{content_disposition, deck_id_of, download_deck_json, Download};
use ttsmagic::web::steam::{begin_login, return_to_url, OpenIDResponse, SteamError};
use ttsmagic::web::ws::{
    handle_connection, handling_failed, may_delete, Action, DeleteError, Event, Incoming,
};

fn user(id: u64) -> User {
    User { id: UserId(id), display_name: "U".to_string(), last_login: 0 }
}

fn url(s: &str) -> Url {
    Url::parse(s).unwrap()
}

#[test]
fn first_pages() {
    assert_eq!(home_page(&Some(user(1))), "logged_in.html");
    assert_eq!(home_page(&None), "logged_out.html");
}

#[test]
fn extensions_like_std() {
    for p in [
        "a.css", "a/b.js", "x.wasm", "a.b.c", ".css", "a/.css", "a", "", "a.", "a.css/", "a.css/.", "a.css/..",
        "..", ".", "a/..b", "a..css", "/x.js", "a.js//", "./b.js",
    ] {
        let expected = std::path::Path::new(p).extension().map(|e| e.to_str().unwrap().to_string());
        assert_eq!(extension(p), expected, "{:?}", p);
    }
}

#[test]
fn types_of_files() {
    assert_eq!(static_file_type("app/style.css"), "text/css");
    assert_eq!(static_file_type("app.js"), "text/javascript");
    assert_eq!(static_file_type("app_bg.wasm"), "application/wasm");
    assert_eq!(static_file_type("logo.png"), "application/octet-stream");
    assert_eq!(static_file_type("css"), "application/octet-stream");
}

#[test]
fn file_names_of_decks() {
    let s = "d12cf21a-e09c-41d5-92bb-9a0cefbd04f4";
    assert_eq!(deck_id_of(&format!("{}.json", s)).unwrap().to_text(), s);
    for p in [s, ".json", "x.json", "", "d12cf21a-e09c-41d5-92bb-9a0cefbd04f4.jso"] {
        assert!(deck_id_of(p).is_none(), "{}", p);
    }
    assert_eq!(content_disposition("My \"best\" deck"), "attachment; filename=\"My 'best' deck.json\"");
}

fn deck(owner: u64, json: Option<Json>) -> Deck {
    Deck {
        id: DeckId(Uuid { bits: 1 }),
        user_id: UserId(owner),
        title: "T".to_string(),
        url: url("https://x.org/"),
        commanders: IdMap::new(),
        main_deck: IdMap::new(),
        sideboard: IdMap::new(),
        rendered_json: json,
    }
}

#[test]
fn only_owners_download() {
    assert!(matches!(download_deck_json(&None, Some(deck(1, None))), Download::Refused));
    assert!(matches!(download_deck_json(&Some(user(1)), None), Download::Refused));
    assert!(matches!(download_deck_json(&Some(user(2)), Some(deck(1, None))), Download::Refused));
    assert!(matches!(download_deck_json(&Some(user(1)), Some(deck(1, None))), Download::Render));
    let ready = download_deck_json(&Some(user(1)), Some(deck(1, Json::parse("true"))));
    assert!(matches!(ready, Download::Ready(j) if j.as_bool() == Some(true)));
}

#[test]
fn urls_to_come_back_to() {
    let back = |u: &str, h: Option<&str>| return_to_url(&url(u), h.map(str::to_string)).map(|r| r.as_str().to_string());
    assert_eq!(back("http://localhost:8080/steam/login/", None).unwrap(), "http://localhost/steam/complete/");
    assert_eq!(back("http://0.0.0.0/steam/login/", Some("x.org")).unwrap(), "https://ttsmagic.cards/steam/complete/");
    assert_eq!(back("http://ttsmagic.cards/", None).unwrap(), "https://ttsmagic.cards/steam/complete/");
    assert_eq!(back("data:x", None).unwrap(), "https://ttsmagic.cards/steam/complete/");
    assert_eq!(back("http:x", Some("y.org")).unwrap(), "http://x/steam/complete/");
    assert_eq!(back("mailto:x", Some("a b")), Err(SteamError::BadReturnUrl));
}

#[test]
fn sign_in_begins_at_steam() {
    let u = begin_login(&url("https://ttsmagic.cards/steam/complete/")).unwrap();
    let s = u.as_str();
    assert!(s.starts_with("https://steamcommunity.com/openid/login?openid.claimed_id=http%3A%2F%2Fspecs.openid.net"));
    assert!(s.contains("openid.realm=https%3A%2F%2Fttsmagic.cards%2F&"));
    assert!(s.contains("openid.return_to=https%3A%2F%2Fttsmagic.cards%2Fsteam%2Fcomplete%2F&"));
    assert!(s.ends_with("openid.sreg.optional=fullname%2Cemail%2Cnickname"));
    assert_eq!(begin_login(&url("data:x")).unwrap_err(), SteamError::NoHost);
}

fn answer() -> OpenIDResponse {
    let s = |x: &str| x.to_string();
    OpenIDResponse {
        ns: s("http://specs.openid.net/auth/2.0"),
        mode: s("id_res"),
        op_endpoint: s("https://steamcommunity.com/openid/login"),
        claimed_id: s("https://steamcommunity.com/openid/id/76561198000000001"),
        identity: s("https://steamcommunity.com/openid/id/76561198000000001"),
        return_to: s("https://ttsmagic.cards/steam/complete/"),
        response_nonce: s(""),
        assoc_handle: s(""),
        signed: s(""),
        sig: s(""),
    }
}

fn validate(f: &dyn Fn(&mut OpenIDResponse)) -> Result<u64, SteamError> {
    let mut a = answer();
    f(&mut a);
    a.validate(&url("https://ttsmagic.cards/steam/complete/?openid.ns=x"), None)
}

fn claim(a: &mut OpenIDResponse, id: &str) {
    a.claimed_id = id.to_string();
    a.identity = id.to_string();
}

#[test]
fn answers_of_steam_are_checked() {
    assert_eq!(validate(&|_| ()), Ok(76561198000000001));
    assert_eq!(validate(&|a| a.return_to.push('x')), Err(SteamError::ReturnToMismatch));
    assert_eq!(validate(&|a| a.ns.clear()), Err(SteamError::BadNs));
    assert_eq!(validate(&|a| a.mode = "cancel".to_string()), Err(SteamError::BadMode));
    assert_eq!(validate(&|a| a.op_endpoint.push('/')), Err(SteamError::BadEndpointValue));
    assert_eq!(validate(&|a| a.identity.push('1')), Err(SteamError::IdentityMismatch));
    assert_eq!(validate(&|a| claim(a, "https://example.com/openid/id/1")), Err(SteamError::NotSteam));
    assert_eq!(validate(&|a| claim(a, "https://steamcommunity.com/openid/id/")), Err(SteamError::BadSteamId));
    assert_eq!(validate(&|a| claim(a, "https://steamcommunity.com/openid/id/x")), Err(SteamError::BadSteamId));
    assert_eq!(validate(&|a| claim(a, "https://steamcommunity.com/openid/id/1/2")), Err(SteamError::BadIdentityPath));
    let mut a = answer();
    a.return_to = "x".to_string();
    a.mode = "y".to_string();
    assert_eq!(a.validate(&url("https://ttsmagic.cards/"), None), Err(SteamError::ReturnToMismatch));
}

#[test]
fn what_comes_is_handled() {
    let does = |e: Event| handle_connection(e);
    assert!(matches!(does(Event::Timer), Action::Ping));
    let news = Notification::DeckDeleted { deck_id: DeckId(Uuid { bits: 1 }) };
    assert!(matches!(
        does(Event::News(news)),
        Action::Send(ServerToFrontendMessage::Notification(Notification::DeckDeleted { .. }))
    ));
    match does(Event::BadNews("why".to_string())) {
        Action::Send(ServerToFrontendMessage::Notification(Notification::Error(e))) => {
            assert_eq!(e.user_message, "Internal error parsing notification message");
            assert_eq!(e.details.as_deref(), Some("why"));
        }
        other => panic!("{:?}", other),
    }
    assert!(matches!(does(Event::NoMoreNews), Action::Nothing));
    assert!(matches!(does(Event::NoMoreOutbound), Action::Nothing));
    let list = ServerToFrontendMessage::DeckList { decks: vec![] };
    assert!(matches!(does(Event::Outbound(list)), Action::Send(ServerToFrontendMessage::DeckList { .. })));
    assert!(matches!(does(Event::Incoming(Incoming::Text("x".to_string()))), Action::HandleText(s) if s == "x"));
    assert!(matches!(does(Event::Incoming(Incoming::Binary(vec![1]))), Action::HandleBytes(b) if b == vec![1]));
    assert!(matches!(does(Event::Incoming(Incoming::Ping(vec![2]))), Action::Pong(b) if b == vec![2]));
    assert!(matches!(does(Event::Incoming(Incoming::Pong)), Action::Nothing));
    for end in [Incoming::Close, Incoming::Failed, Incoming::Ended] {
        assert!(matches!(does(Event::Incoming(end)), Action::Stop));
    }
    match handling_failed("m".to_string(), "d".to_string()) {
        ServerToFrontendMessage::FatalError(e) => {
            assert_eq!((e.user_message.as_str(), e.details.as_deref()), ("m", Some("d")))
        }
        other => panic!("{:?}", other),
    }
}

#[test]
fn only_owners_delete() {
    assert_eq!(may_delete(UserId(1), Some(UserId(1))), Ok(()));
    assert_eq!(may_delete(UserId(1), Some(UserId(2))), Err(DeleteError::NotYours));
    assert_eq!(may_delete(UserId(1), None), Err(DeleteError::NoDeck));
    assert_eq!(DeleteError::NoDeck.to_text(), "Invalid deck ID");
    assert_eq!(DeleteError::NotYours.to_text(), "Invalid deck ID (that doesn't belong to you)");
}
