use ttsmagic::frontend::deck_list::{DeckInfo, DeckList, DeckStatus, Msg};
use ttsmagic::frontend::deck_renderer::{DeckRenderer, Msg as RendererMsg};
use ttsmagic::frontend::model::{make_ws_url, ws_url_text, Model, Msg as ModelMsg, WsUrlError};
use ttsmagic::frontend::remote_resource::RemoteResource;
use ttsmagic::frontend::ws::{Outbox, OPEN};
use ttsmagic::types::deck::{Deck, DeckColorIdentity, DeckId};
use ttsmagic::types::frontend_to_server::FrontendToServerMessage;
use ttsmagic::types::nonzero::NonZeroU16;
use ttsmagic::types::server_to_frontend::{
    Error, Notification, RenderProgress, ServerToFrontendMessage,
};
use ttsmagic::urls::Url;
use ttsmagic::uuids::Uuid;

fn id(n: u128) -> DeckId {
    DeckId(Uuid { bits: n })
}

fn url(n: u128) -> Url {
    Url::parse(&format!("https://x.org/{}", n)).unwrap()
}

fn deck(n: u128, title: &str) -> Deck {
    Deck {
        id: id(n),
        title: title.to_string(),
        url: url(n),
        rendered: true,
        color_identity: DeckColorIdentity::colorless(),
    }
}

fn list(decks: Vec<Deck>) -> DeckList<()> {
    let (mut l, first) = DeckList::create();
    assert!(matches!(first, FrontendToServerMessage::GetDecks));
    assert!(matches!(l.decks, RemoteResource::Loading));
    let r = l.update(Msg::FromServer(ServerToFrontendMessage::DeckList { decks }));
    assert!(r.should_render && r.send.is_none());
    l
}

fn shown(l: &DeckList<()>) -> Vec<(u128, String)> {
    match l.decks.as_ref() {
        RemoteResource::Loaded(v) => v.iter().map(|d| (d.deck.id.0.bits, d.deck.title.clone())).collect(),
        _ => panic!(),
    }
}

fn news(l: &mut DeckList<()>, n: Notification) -> bool {
    l.update(Msg::FromServer(ServerToFrontendMessage::Notification(n))).should_render
}

#[test]
fn lists_are_in_order_of_titles() {
    let l = list(vec![deck(1, "b"), deck(2, "A"), deck(3, "B"), deck(4, "\u{c9}")]);
    let order: Vec<u128> = shown(&l).into_iter().map(|d| d.0).collect();
    assert_eq!(order, vec![2, 1, 3, 4]);
}

#[test]
fn decks_come_and_go() {
    let mut l = list(vec![deck(1, "b")]);
    assert!(news(&mut l, Notification::DeckParseStarted { deck_id: id(2), title: "a".to_string(), url: url(2) }));
    assert_eq!(shown(&l), vec![(2, "a".to_string()), (1, "b".to_string())]);
    let ci = DeckColorIdentity { black: true, blue: false, green: false, red: false, white: false };
    assert!(news(
        &mut l,
        Notification::DeckParsed { deck_id: id(2), title: "z".to_string(), url: url(2), color_identity: ci }
    ));
    assert_eq!(shown(&l), vec![(1, "b".to_string()), (2, "z".to_string())]);
    assert!(news(&mut l, Notification::DeckDeleted { deck_id: id(1) }));
    assert_eq!(shown(&l), vec![(2, "z".to_string())]);
    assert!(!news(&mut l, Notification::Error(Error { user_message: "x".to_string(), details: None })));
}

fn status(l: &DeckList<()>) -> (DeckStatus, bool) {
    match &l.decks {
        RemoteResource::Loaded(v) => (v[0].status, v[0].deck.rendered),
        _ => panic!(),
    }
}

#[test]
fn progress_is_shown() {
    let mut l = list(vec![deck(1, "b")]);
    assert!(matches!(status(&l), (DeckStatus::Complete, true)));
    let two = NonZeroU16::new(2).unwrap();
    let progress = |l: &mut DeckList<()>, p: RenderProgress| {
        news(l, Notification::RenderProgress { deck_id: id(1), progress: p });
        status(l)
    };
    assert!(matches!(
        progress(&mut l, RenderProgress::Waiting { queue_length: two }),
        (DeckStatus::Waiting { queue_length }, false) if queue_length.get() == 2
    ));
    assert!(matches!(
        progress(&mut l, RenderProgress::RenderingImages { rendered_cards: 1, total_cards: two }),
        (DeckStatus::RenderingCards { complete: 1, .. }, false)
    ));
    assert!(matches!(
        progress(&mut l, RenderProgress::SavingPages { saved_pages: 1, total_pages: two }),
        (DeckStatus::RenderingPages { complete: 1, .. }, false)
    ));
    assert!(matches!(progress(&mut l, RenderProgress::Rendered), (DeckStatus::Complete, true)));
}

#[test]
fn decks_are_deleted_and_rebuilt() {
    let mut l = list(vec![deck(1, "b")]);
    let r = l.update(Msg::DeleteDeck(id(1)));
    assert!(r.should_render);
    assert!(matches!(r.send, Some(FrontendToServerMessage::DeleteDeck { id: i }) if i == id(1)));
    let r = l.update(Msg::RebuildDeck(id(1)));
    assert!(!r.should_render);
    assert!(matches!(r.send, Some(FrontendToServerMessage::RenderDeck { url: u }) if u.as_str() == "https://x.org/1"));
    assert!(l.update(Msg::RebuildDeck(id(9))).send.is_none());
}

#[test]
fn decks_are_described() {
    let info = |status: DeckStatus, ci: DeckColorIdentity| {
        let mut d = deck(1, "x");
        d.color_identity = ci;
        DeckInfo { deck: d, status }
    };
    let n = |k: u16| NonZeroU16::new(k).unwrap();
    let none = DeckColorIdentity::colorless();
    assert_eq!(info(DeckStatus::Loading, none).status_message(), ("Loading\u{2026}".to_string(), None));
    assert_eq!(
        info(DeckStatus::Waiting { queue_length: n(2) }, none).status_message().0,
        "Waiting\u{2026} (1 deck ahead of this one)"
    );
    assert_eq!(
        info(DeckStatus::Waiting { queue_length: n(1) }, none).status_message().0,
        "Waiting\u{2026} (0 decks ahead of this one)"
    );
    assert_eq!(
        info(DeckStatus::RenderingCards { complete: 3, total: n(4) }, none).status_message(),
        ("Loading cards".to_string(), Some((3, 4)))
    );
    assert_eq!(
        info(DeckStatus::RenderingPages { complete: 3, total: n(4) }, none).status_message(),
        ("Saving page image".to_string(), Some((3, 4)))
    );
    assert_eq!(info(DeckStatus::Complete, none).status_message(), (String::new(), None));
    assert_eq!(info(DeckStatus::Complete, none).bg_sections(), vec![(0xcc, 0xcc, 0xcc)]);
    let wg = DeckColorIdentity { black: false, blue: false, green: true, red: false, white: true };
    assert_eq!(info(DeckStatus::Complete, wg).bg_sections(), vec![(248, 231, 185), (0, 115, 62)]);
    assert_eq!(
        info(DeckStatus::Complete, none).download_path().unwrap(),
        "/decks/00000000-0000-0000-0000-000000000001.json"
    );
    let mut raw = info(DeckStatus::Complete, none);
    raw.deck.rendered = false;
    assert!(raw.download_path().is_none());
}

#[test]
fn backgrounds_show_the_colors() {
    for bits in 0..32u8 {
        let color_identity = DeckColorIdentity {
            black: bits & 1 > 0,
            blue: bits & 2 > 0,
            green: bits & 4 > 0,
            red: bits & 8 > 0,
            white: bits & 16 > 0,
        };
        let mut d = deck(1, "x");
        d.color_identity = color_identity;
        let info = DeckInfo { deck: d, status: DeckStatus::Complete };
        let sections = info.bg_sections();
        let width = 100.0 / (sections.len() as f32);
        let mut css = "background: #eee; background: linear-gradient(120deg".to_string();
        let mut current: f32 = 0.0;
        for (r, g, b) in sections {
            let start = if current > 0.0 { current + (width / 4.0) } else { current };
            current += width;
            let end = if current >= 100.0 { 100.0 } else { current - (width / 4.0) };
            let (start, end) = (start.min(100.0), end.min(100.0));
            css.push_str(&format!(", rgba({},{},{},{:.2}) {:.0}% {:.0}%", r, g, b, 0.2f32, start, end));
        }
        css.push_str(");");
        assert_eq!(info.bg_gradient_css(), css);
    }
    let mut d = deck(1, "x");
    d.color_identity = DeckColorIdentity { black: false, blue: true, green: false, red: true, white: false };
    let info = DeckInfo { deck: d, status: DeckStatus::Complete };
    assert_eq!(
        info.bg_gradient_css(),
        "background: #eee; background: linear-gradient(120deg, rgba(14,104,171,0.20) 0% 38%, \
         rgba(211,32,42,0.20) 62% 100%);"
    );
}

#[test]
fn decks_are_entered() {
    let mut r = DeckRenderer::create();
    assert!(!r.can_convert());
    assert!(matches!(&r.parsed_url, Err(why) if why == "Please enter a URL"));
    assert!(matches!(r.update(RendererMsg::RenderDeck), (false, None)));
    assert!(matches!(r.update(RendererMsg::SetRawUrl("nope".to_string())), (true, None)));
    assert!(matches!(&r.parsed_url, Err(why) if why == "Invalid URL: relative URL without a base"));
    r.update(RendererMsg::SetRawUrl("https://".to_string()));
    assert!(matches!(&r.parsed_url, Err(why) if why == "Invalid URL: empty host"));
    r.update(RendererMsg::SetRawUrl("https://deckbox.org/sets/1".to_string()));
    assert!(r.can_convert());
    let (render, send) = r.update(RendererMsg::RenderDeck);
    assert!(render);
    assert!(matches!(send, Some(FrontendToServerMessage::RenderDeck { url }) if url.as_str() == "https://deckbox.org/sets/1"));
    assert!(matches!(&r.parsed_url, Err(why) if why == "Please enter a URL"));
    assert_eq!(r.raw_url, "https://deckbox.org/sets/1");
}

#[test]
fn errors_are_shown_and_dismissed() {
    let error = |m: &str, d: Option<&str>| Error { user_message: m.to_string(), details: d.map(str::to_string) };
    let mut m = Model::create();
    assert!(m.update(ModelMsg::WS(ServerToFrontendMessage::FatalError(error("a", None)))));
    assert!(m.update(ModelMsg::WS(ServerToFrontendMessage::FatalError(error("b", None)))));
    assert!(m.update(ModelMsg::WS(ServerToFrontendMessage::DeckList { decks: vec![] })));
    assert_eq!(m.fatal_errors.len(), 2);
    assert!(m.update(ModelMsg::IgnoreError(0)));
    assert_eq!(m.fatal_errors[0].user_message, "b");
    assert!(!m.update(ModelMsg::IgnoreError(5)));
    assert!(!Model::shows_details(&error("a", None)));
    assert!(!Model::shows_details(&error("a", Some("a"))));
    assert!(Model::shows_details(&error("a", Some("b"))));
}

#[test]
fn web_socket_addresses() {
    assert_eq!(ws_url_text("http:", "localhost:8123").unwrap(), "ws://localhost:8124/ws/");
    assert_eq!(make_ws_url("https:", "ttsmagic.cards").unwrap().as_str(), "wss://ttsmagic.cards/ws/");
    assert_eq!(make_ws_url("ftp:", "x").unwrap_err(), WsUrlError::UnexpectedProtocol);
    assert_eq!(make_ws_url("https:", "a b").unwrap_err(), WsUrlError::BadUrl);
}

#[test]
fn messages_wait_for_the_socket() {
    let mut o = Outbox::new();
    assert_eq!(o.send(0, "a".to_string()), None);
    assert_eq!(o.send(3, "b".to_string()), None);
    assert_eq!(o.send(OPEN, "c".to_string()), Some("c".to_string()));
    assert_eq!(o.on_open(), vec!["a".to_string(), "b".to_string()]);
    assert!(o.on_open().is_empty());
}

#[test]
fn remote_resources() {
    let mut r: RemoteResource<u8, &str> = RemoteResource::Loaded(1);
    if let RemoteResource::Loaded(x) = r.as_mut() {
        *x = 5;
    }
    assert!(matches!(r.as_ref(), RemoteResource::Loaded(5)));
    assert!(matches!(r.map(|x| x as u16 + 1), RemoteResource::Loaded(6)));
    let e: RemoteResource<u8, &str> = RemoteResource::Error("no");
    assert!(matches!(e.map(|x| x), RemoteResource::Error("no")));
    let l: RemoteResource<u8, &str> = RemoteResource::Loading;
    assert!(matches!(l.map(|x| x), RemoteResource::Loading));
}
