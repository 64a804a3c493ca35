use ttsmagic::deck::cards::{
    color_identity, deck_entries, expand_cards, find_cards, DeckCards, DeckEntry, PileKind,
};
use ttsmagic::deck::commanders::{count_cards, CommanderSearch, CommanderStep};
use ttsmagic::deck::listing::{get_decks_for_user, UserDeckRow};
use ttsmagic::deck::loaders::{
    add_listed, find_loader, find_oracle_id, unknown_site_message, ArchidektCard, ArchidektCategory,
    ArchidektLoader, CardList, CardLists, DeckMatcher, DeckParser, DeckboxLoader, ListedCard,
    LoadError, Loader, OracleLookup, TappedOutLoader, TappedOutRow,
};
use ttsmagic::deck::stored::{Deck, DeckEntryRow, DeckError, RawDeckEntry, UnparsedDeck};
use ttsmagic::html::{find_rows, first_text};
use ttsmagic::idmap::IdMap;
use ttsmagic::json::Json;
use ttsmagic::scryfall::{CardError, Field, ScryfallCard, ScryfallCardRow, ScryfallId, ScryfallOracleId};
use ttsmagic::types::deck::{DeckColorIdentity, DeckId};
use ttsmagic::types::server_to_frontend::Notification;
use ttsmagic::types::user::UserId;
use ttsmagic::urls::Url;
use ttsmagic::uuids::Uuid;

fn url(s: &str) -> Url {
    Url::parse(s).unwrap()
}

fn oracle(n: u128) -> ScryfallOracleId {
    ScryfallOracleId(Uuid { bits: n })
}

#[test]
fn deck_urls_are_recognised() {
    assert_eq!(DeckboxLoader::match_url(&url("https://deckbox.org/sets/2649137")), Some(DeckboxLoader { id: 2649137 }));
    assert_eq!(DeckboxLoader::match_url(&url("https://deckbox.org/sets/12/more?x=1")), Some(DeckboxLoader { id: 12 }));
    for s in [
        "https://deckbox.org/sets/",
        "https://deckbox.org/sets/x",
        "https://deckbox.org/sets/4294967296",
        "https://deckbox.org/users/1",
        "https://deckbox.org/sets",
        "https://www.deckbox.org/sets/1",
        "mailto:a@deckbox.org",
    ] {
        assert_eq!(DeckboxLoader::match_url(&url(s)), None, "{}", s);
    }
    assert_eq!(TappedOutLoader::match_url(&url("https://tappedout.net/mtg-decks/my-deck/")).unwrap().slug, "my-deck");
    assert!(TappedOutLoader::match_url(&url("https://tappedout.net/users/me/")).is_none());
    assert_eq!(ArchidektLoader::match_url(&url("https://www.archidekt.com/decks/7#x")), Some(ArchidektLoader { id: 7 }));
    assert_eq!(ArchidektLoader::match_url(&url("https://archidekt.com/decks/7/name")), Some(ArchidektLoader { id: 7 }));
    assert_eq!(ArchidektLoader::match_url(&url("https://archidekt.com/decks/-7")), None);
}

#[test]
fn canonical_urls() {
    let d = DeckboxLoader { id: 5 };
    assert_eq!(d.canonical_deck_url().unwrap().as_str(), "https://deckbox.org/sets/5/");
    assert_eq!(d.page_url(), "https://deckbox.org/sets/5");
    assert_eq!(d.name(), "Deckbox");
    let t = TappedOutLoader { slug: "a-b".to_string() };
    assert_eq!(t.canonical_deck_url().unwrap().as_str(), "https://tappedout.net/mtg-decks/a-b/");
    assert_eq!(t.page_url(), "https://tappedout.net/mtg-decks/a-b/");
    assert_eq!(t.csv_url(), "https://tappedout.net/mtg-decks/a-b/?fmt=csv");
    assert_eq!(t.name(), "TappedOut");
    let a = ArchidektLoader { id: 9 };
    assert_eq!(a.canonical_deck_url().unwrap().as_str(), "https://archidekt.com/decks/9");
    assert_eq!(a.json_url(), "https://archidekt.com/api/decks/9/small/");
    assert_eq!(a.name(), "Archidekt");
    assert_eq!(a.check_id(9), Ok(()));
    assert_eq!(a.check_id(8), Err(LoadError::WrongDeck { got: 8, expected: 9 }));
}

#[test]
fn canonical_urls_lead_back() {
    for s in ["https://deckbox.org/sets/5", "https://tappedout.net/mtg-decks/a-b", "https://archidekt.com/decks/9/x"] {
        let canonical = find_loader(&url(s)).unwrap().canonical_deck_url().unwrap();
        let again = find_loader(&canonical).unwrap().canonical_deck_url().unwrap();
        assert_eq!(canonical.as_str(), again.as_str());
    }
}

#[test]
fn loaders_are_found() {
    assert!(matches!(find_loader(&url("https://deckbox.org/sets/5")), Ok(Loader::Deckbox(d)) if d.id == 5));
    let l = find_loader(&url("https://tappedout.net/mtg-decks/x/")).unwrap();
    assert_eq!(l.name(), "TappedOut");
    assert!(matches!(find_loader(&url("https://archidekt.com/decks/3")), Ok(Loader::Archidekt(a)) if a.id == 3));
    let tried = find_loader(&url("https://example.com/decks/3")).unwrap_err();
    assert_eq!(
        unknown_site_message(&tried),
        "Unknown deck site. We tried to load from the following deck sites: Deckbox, TappedOut, Archidekt"
    );
}

const PAGE: &str = "<html><body><div class='page_header'><div class='section_title'><span> My <b>Deck</b> </span></div></div>\
<table class='set_cards main'>\
<tr><th>head</th></tr>\
<tr id='11'><td class='card_count'> 4 </td><td class='card_name'><a>Forest</a> </td></tr>\
<tr id='x'><td class='card_name'>Skipped</td></tr>\
<tr id='12'><td class='card_name'>Island</td></tr>\
<tr id='13'><td class='card_count'>999</td><td class='card_name'>Swamp</td></tr>\
</table><table class='set_cards sideboard'>\
<tr id='21'><td class='card_count'>2</td><td class='card_name'>Opt</td></tr>\
</table></body></html>";

#[test]
fn deckbox_pages_are_read() {
    let page = DeckboxLoader::parse_page(PAGE).unwrap();
    assert_eq!(page.title, "My Deck");
    let main: Vec<(&str, u8)> = page.main_deck.iter().map(|c| (c.name.as_str(), c.count)).collect();
    assert_eq!(main, vec![("Forest", 4), ("Island", 0), ("Swamp", 0)]);
    assert_eq!(page.sideboard.len(), 1);
    assert_eq!((page.sideboard[0].name.as_str(), page.sideboard[0].count), ("Opt", 2));
    assert!(matches!(DeckboxLoader::parse_page("<html></html>"), Err(LoadError::NoTitle)));
    assert!(matches!(DeckboxLoader::parse_page(&PAGE.replace(" My <b>Deck</b> ", " ")), Err(LoadError::EmptyTitle)));
    assert!(matches!(
        DeckboxLoader::parse_page(&PAGE.replace("<td class='card_name'>Island</td>", "")),
        Err(LoadError::NoCardName(12))
    ));
}

#[test]
fn pages_are_searched() {
    assert_eq!(first_text(PAGE, "td.card_name").unwrap(), "Forest ");
    assert!(first_text(PAGE, "td.nothing").is_none());
    assert!(first_text(PAGE, ">>").is_none());
    let rows = find_rows(PAGE, "tr", "id", "th", "td.card_count").unwrap();
    assert_eq!(rows.len(), 6);
    assert_eq!(rows[0].id, None);
    assert_eq!(rows[0].name.as_deref(), Some("head"));
    assert_eq!(rows[1].count.as_deref(), Some(" 4 "));
    assert!(find_rows(PAGE, "tr", "id", "((", "td").is_none());
    assert_eq!(
        TappedOutLoader::parse_title("<div class='well well-jumbotron'><h2> The Title\n</h2></div>"),
        Ok("The Title".to_string())
    );
    assert_eq!(TappedOutLoader::parse_title("<h2>x</h2>"), Err(LoadError::NoTitle));
}

#[test]
fn listed_cards_replace_one_another() {
    let mut list: CardList = IdMap::new();
    add_listed(&mut list, oracle(1), ListedCard { name: "a".to_string(), count: 3 });
    add_listed(&mut list, oracle(1), ListedCard { name: "a".to_string(), count: 2 });
    assert_eq!(list.get(1), Some(&("a".to_string(), 2)));
}

fn tapped(board: &str, count: u8, name: &str, commander: &str) -> TappedOutRow {
    TappedOutRow {
        board: board.to_string(),
        count,
        name: name.to_string(),
        commander_col: commander.to_string(),
    }
}

#[test]
fn tappedout_rows_are_sorted_out() {
    let mut lists = CardLists::new();
    let r = tapped("main", 2, "Fire / Ice", "");
    assert_eq!(r.lookup_name(), "Fire // Ice");
    assert!(r.fits(&lists, oracle(1)));
    r.add_to(&mut lists, oracle(1));
    tapped("main", 3, "Other", "").add_to(&mut lists, oracle(1));
    tapped("side", 1, "Opt", "").add_to(&mut lists, oracle(2));
    tapped("maybe", 1, "Opt", "").add_to(&mut lists, oracle(3));
    tapped("main", 1, "Boss", "True").add_to(&mut lists, oracle(4));
    assert_eq!(lists.main_deck.get(1), Some(&("Fire // Ice".to_string(), 5)));
    assert_eq!(lists.main_deck.len(), 1);
    assert_eq!(lists.sideboard.get(2), Some(&("Opt".to_string(), 1)));
    assert_eq!(lists.sideboard.len(), 1);
    assert_eq!(lists.commanders.get(4), Some(&"Boss".to_string()));
    assert!(tapped("main", 250, "x", "").fits(&lists, oracle(1)));
    assert!(!tapped("main", 251, "x", "").fits(&lists, oracle(1)));
    assert!(tapped("maybe", 251, "x", "").fits(&lists, oracle(1)));
    assert!(tapped("main", 251, "x", "True").fits(&lists, oracle(1)));
}

#[test]
fn archidekt_cards_are_known_by_id_or_by_name() {
    let row = |json: &str| Some(ScryfallCardRow { json: json.to_string(), updated_at: 0 });
    let known = format!("{{\"oracle_id\": \"{}\"}}", oracle(5).to_text());
    assert_eq!(find_oracle_id(row(&known)), OracleLookup::Known(oracle(5)));
    assert_eq!(find_oracle_id(None), OracleLookup::ByName);
    assert_eq!(find_oracle_id(row("no card")), OracleLookup::ByName);
    assert_eq!(find_oracle_id(row("{}")), OracleLookup::Failed(CardError::Missing(Field::OracleId)));
}

#[test]
fn archidekt_cards_are_sorted_out() {
    let cat = |n: &str, i: bool| ArchidektCategory { name: n.to_string(), included_in_deck: i };
    let categories = vec![cat("Maybeboard", true), cat("Maybeboard", false), cat("Ramp", true)];
    let card = |n: &str, q: u8, c: &[&str]| ArchidektCard {
        name: n.to_string(),
        quantity: q,
        categories: c.iter().map(|s| s.to_string()).collect(),
    };
    let mut lists = CardLists::new();
    card("Boss", 1, &["Maybeboard", "Commander"]).add_to(&mut lists, &categories, oracle(1));
    card("Later", 2, &["Ramp", "Maybeboard"]).add_to(&mut lists, &categories, oracle(2));
    card("Rock", 3, &["Ramp", "Unknown"]).add_to(&mut lists, &categories, oracle(3));
    card("Rock", 4, &[]).add_to(&mut lists, &categories, oracle(3));
    assert_eq!(lists.commanders.get(1), Some(&"Boss".to_string()));
    assert_eq!(lists.sideboard.get(2), Some(&("Later".to_string(), 2)));
    assert_eq!(lists.main_deck.get(3), Some(&("Rock".to_string(), 4)));
    assert_eq!((lists.commanders.len(), lists.sideboard.len(), lists.main_deck.len()), (1, 1, 1));
}

fn list(entries: &[(u128, u8)]) -> CardList {
    let mut l: CardList = IdMap::new();
    for (id, n) in entries {
        l.insert(*id, (format!("c{}", id), *n));
    }
    l
}

#[test]
fn commanders_are_found() {
    let l = list(&[(1, 98), (2, 1), (3, 1)]);
    assert_eq!(count_cards(&l), 100);
    let mut s = CommanderSearch::new(l);
    for id in 1..=3 {
        assert_eq!(s.next(), CommanderStep::CheckLegality(oracle(id)));
        s.legality(true);
    }
    assert_eq!(s.next(), CommanderStep::GetColors);
    s.colors_known();
    assert_eq!(s.next(), CommanderStep::CheckLeader(oracle(2)));
    s.leader(false);
    assert_eq!(s.next(), CommanderStep::CheckLeader(oracle(3)));
    s.leader(true);
    assert_eq!(s.next(), CommanderStep::Done);
    let (commanders, rest) = s.finish();
    assert_eq!(commanders.into_entries(), vec![(3, "c3".to_string())]);
    assert_eq!(count_cards(&rest), 99);
    assert!(!rest.contains(3));
}

#[test]
fn other_decks_have_no_commanders() {
    let s = CommanderSearch::new(list(&[(1, 60)]));
    assert_eq!(s.next(), CommanderStep::Done);
    let (commanders, rest) = s.finish();
    assert_eq!((commanders.len(), rest.len()), (0, 1));
    let mut s = CommanderSearch::new(list(&[(1, 99), (2, 1)]));
    s.legality(false);
    assert_eq!(s.next(), CommanderStep::Done);
    assert_eq!(s.finish().0.len(), 0);
}

fn printing(id: u128) -> ScryfallCardRow {
    let json = format!("{{\"id\": \"{}\", \"name\": \"n{}\"}}", Uuid { bits: id }.to_text(), id);
    ScryfallCardRow { json, updated_at: 1 }
}

fn card(id: u128) -> ScryfallCard {
    ScryfallCard::from_row(printing(id)).unwrap()
}

#[test]
fn lists_become_cards() {
    let pile = expand_cards(&list(&[(1, 3), (2, 1)]), vec![vec![printing(10), printing(11)], vec![printing(20)]]).unwrap();
    let got: Vec<(u128, u8)> = pile.into_entries().into_iter().map(|e| (e.0, e.1 .1)).collect();
    assert_eq!(got, vec![(10, 2), (11, 1), (20, 1)]);
    assert!(matches!(expand_cards(&list(&[(1, 3)]), vec![vec![]]), Err(CardError::NoPrintings(id)) if id == oracle(1)));
}

fn names(entries: &[(u128, &str)]) -> IdMap<String> {
    let mut m = IdMap::new();
    for (id, n) in entries {
        m.insert(*id, n.to_string());
    }
    m
}

#[test]
fn decks_become_rows() {
    let cards = find_cards(
        names(&[(9, "boss")]),
        list(&[(1, 3)]),
        list(&[(2, 2)]),
        vec![vec![printing(90), printing(91)]],
        vec![vec![printing(10)]],
        vec![vec![printing(20)]],
    )
    .unwrap();
    let entry = |card: u128, copies: u8, pile: PileKind| DeckEntry { card: ScryfallId(Uuid { bits: card }), copies, pile };
    assert_eq!(
        deck_entries(&cards),
        vec![
            entry(90, 1, PileKind::Commander),
            entry(10, 3, PileKind::MainDeck),
            entry(20, 2, PileKind::Sideboard)
        ]
    );
    assert!(find_cards(names(&[(9, "x")]), list(&[]), list(&[]), vec![vec![]], vec![], vec![]).is_err());
    for kind in [PileKind::Commander, PileKind::MainDeck, PileKind::Sideboard] {
        assert_eq!(PileKind::called(kind.name()), Some(kind));
    }
    assert_eq!(PileKind::called("maybe"), None);
    assert_eq!(PileKind::MainDeck.name(), "main_deck");
}

#[test]
fn copies_are_kept() {
    let cards = find_cards(
        names(&[(9, "boss"), (8, "partner")]),
        list(&[(1, 5), (3, 7)]),
        list(&[]),
        vec![vec![printing(90)], vec![printing(80)]],
        vec![vec![printing(10), printing(11)], vec![printing(30)]],
        vec![],
    )
    .unwrap();
    let copies = |kind: PileKind| -> u32 {
        deck_entries(&cards).iter().filter(|e| e.pile == kind).map(|e| e.copies as u32).sum()
    };
    assert_eq!(copies(PileKind::Commander), 2);
    assert_eq!(copies(PileKind::MainDeck), 12);
    assert_eq!(copies(PileKind::Sideboard), 0);
    assert_eq!(cards.commanders.len(), 2);
}

#[test]
fn letters_are_colors() {
    let letters = ["B", "G", "X", "B"].iter().map(|s| s.to_string()).collect();
    let expected = DeckColorIdentity { black: true, blue: false, green: true, red: false, white: false };
    assert_eq!(color_identity(&letters), expected);
    assert_eq!(color_identity(&vec![]), DeckColorIdentity::colorless());
}

fn unparsed(title: &str) -> UnparsedDeck {
    UnparsedDeck {
        id: DeckId(Uuid { bits: 1 }),
        user_id: UserId(4),
        url: url("https://deckbox.org/sets/5/"),
        title: title.to_string(),
    }
}

#[test]
fn unparsed_decks_are_described() {
    let id = "00000000-0000-0000-0000-000000000001";
    let plain = format!("unparsed deck {} from URL https://deckbox.org/sets/5/", id);
    assert_eq!(unparsed("").to_text(), plain);
    assert_eq!(unparsed("https://deckbox.org/sets/5/").to_text(), plain);
    assert_eq!(
        unparsed("My \"deck\"").to_text(),
        format!("unparsed deck \"My \\\"deck\\\"\" ({}) from URL https://deckbox.org/sets/5/", id)
    );
}

#[test]
fn decks_are_saved() {
    let known = UnparsedDeck::save(UserId(4), url("https://x.org/"), Some((DeckId(Uuid { bits: 3 }), "T".to_string())));
    assert_eq!((known.id, known.title.as_str()), (DeckId(Uuid { bits: 3 }), "T"));
    let new = UnparsedDeck::save(UserId(4), url("https://x.org/"), None);
    assert_eq!(new.title, "https://x.org/");
    assert_ne!(new.id, UnparsedDeck::save(UserId(4), url("https://x.org/"), None).id);
    let fixed = UnparsedDeck::with_id(UserId(4), url("https://x.org/"), None, DeckId(Uuid { bits: 8 }));
    assert_eq!(fixed.id, DeckId(Uuid { bits: 8 }));
    assert!(matches!(known.started(), Notification::DeckParseStarted { deck_id, title, .. } if deck_id == known.id && title == "T"));
    assert!(matches!(
        known.parsed("New", DeckColorIdentity::colorless()),
        Notification::DeckParsed { title, .. } if title == "New"
    ));
    assert_eq!(UnparsedDeck::check_inserted(1), Ok(()));
    assert_eq!(UnparsedDeck::check_inserted(0), Err(DeckError::NotInserted(0)));
}

fn raw(card: u128, copies: i16, pile: &str) -> RawDeckEntry {
    RawDeckEntry {
        deck_id: Uuid { bits: 1 },
        user_id: 4,
        deck_title: "T".to_string(),
        deck_url: "https://x.org/d".to_string(),
        deck_json: Some("{\"a\": true}".to_string()),
        card_id: Uuid { bits: card },
        card_json: format!("\u{1}{}", printing(card).json),
        card_updated_at: 6,
        copies,
        pile: pile.to_string(),
    }
}

#[test]
fn rows_are_read() {
    let row = DeckEntryRow::from_row(raw(10, 3, "main_deck")).unwrap();
    assert_eq!(row.card_row.json, printing(10).json);
    assert_eq!((row.copies, row.user_id), (3, UserId(4)));
    let bad = |f: &dyn Fn(&mut RawDeckEntry)| {
        let mut r = raw(10, 3, "main_deck");
        f(&mut r);
        DeckEntryRow::from_row(r).unwrap_err()
    };
    assert_eq!(bad(&|r| r.card_json = String::new()), DeckError::NoMark);
    assert_eq!(bad(&|r| r.card_json = "\u{e9}{}".to_string()), DeckError::NoMark);
    assert_eq!(bad(&|r| r.deck_json = Some("{".to_string())), DeckError::BadDeckJson);
    assert_eq!(bad(&|r| r.copies = -1), DeckError::BadCopies(-1));
    assert_eq!(bad(&|r| r.copies = 256), DeckError::BadCopies(256));
}

fn rows(all: Vec<RawDeckEntry>) -> Vec<DeckEntryRow> {
    all.into_iter().map(|r| DeckEntryRow::from_row(r).unwrap()).collect()
}

#[test]
fn decks_are_read_back() {
    let mut cards = DeckCards { commanders: IdMap::new(), main_deck: IdMap::new(), sideboard: IdMap::new() };
    cards.commanders.insert(90, card(90));
    cards.main_deck.insert(10, (card(10), 3));
    cards.main_deck.insert(11, (card(11), 1));
    cards.sideboard.insert(20, (card(20), 2));
    let kept = deck_entries(&cards)
        .into_iter()
        .map(|e| raw(e.card.0.bits, e.copies as i16, e.pile.name()))
        .collect();
    let deck = Deck::get_by_id(rows(kept)).unwrap().unwrap();
    assert_eq!(deck.title, "T");
    assert_eq!(deck.url.as_str(), "https://x.org/d");
    assert_eq!(deck.rendered_json.as_ref().unwrap().get("a").unwrap().as_bool(), Some(true));
    assert_eq!(deck.commanders.len(), 1);
    assert!(deck.commanders.contains(90));
    let main: Vec<(u128, u8)> = deck.main_deck.into_entries().into_iter().map(|e| (e.0, e.1 .1)).collect();
    assert_eq!(main, vec![(10, 3), (11, 1)]);
    assert_eq!(deck.sideboard.get(20).unwrap().1, 2);
}

#[test]
fn broken_decks_are_refused() {
    assert!(Deck::get_by_id(vec![]).unwrap().is_none());
    assert!(matches!(
        Deck::get_by_id(rows(vec![raw(1, 1, "main_deck"), raw(2, 1, "maybe")])),
        Err(DeckError::UnknownPile(1))
    ));
    let mut r = raw(1, 1, "main_deck");
    r.deck_url = "nonsense".to_string();
    assert!(matches!(Deck::get_by_id(rows(vec![r])), Err(DeckError::BadUrl)));
    let mut r = raw(1, 1, "main_deck");
    r.card_json = "\u{1}{".to_string();
    assert!(matches!(Deck::get_by_id(rows(vec![r])), Err(DeckError::BadCard(CardError::BadJson))));
    let deck = unparsed("x").save_cards(
        "Title".to_string(),
        DeckCards { commanders: IdMap::new(), main_deck: IdMap::new(), sideboard: IdMap::new() },
    );
    assert_eq!(deck.title, "Title");
    assert!(deck.rendered_json.is_none());
    assert!(matches!(deck.deleted(), Notification::DeckDeleted { deck_id } if deck_id == deck.id));
    assert!(Json::parse("[1, {}]").is_some());
}

#[test]
fn deck_lists_are_in_order() {
    let row = |n: u128, title: &str, url: &str| UserDeckRow {
        id: DeckId(Uuid { bits: n }),
        title: title.to_string(),
        url: url.to_string(),
        rendered: n % 2 == 0,
        color_identity: vec!["R".to_string()],
    };
    let decks = get_decks_for_user(vec![
        row(1, "b", "https://x.org/2"),
        row(2, "a", "https://x.org/3"),
        row(3, "b", "https://x.org/1"),
        row(4, "B", "https://x.org/9"),
    ])
    .unwrap();
    let order: Vec<u128> = decks.iter().map(|d| d.id.0.bits).collect();
    assert_eq!(order, vec![4, 2, 3, 1]);
    assert!(decks[1].rendered && !decks[2].rendered);
    assert!(decks[0].color_identity.red);
    assert!(get_decks_for_user(vec![row(1, "a", "nope")]).is_err());
}
