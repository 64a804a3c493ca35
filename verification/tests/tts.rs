use serde_json::Value;
use ttsmagic::deck::stored::Deck;
use ttsmagic::files::MediaFile;
use ttsmagic::idmap::IdMap;
use ttsmagic::imaging::{black, decode, overlay, resize, FileFormat, RgbImage};
use ttsmagic::json::Json;
use ttsmagic::scryfall::{CardError, Field, ScryfallCard, ScryfallId};
use ttsmagic::tts::collect::{collect_card_piles, token_search};
use ttsmagic::tts::pages::{
    choose_size, fixup_size, make_pages, page_filename, pages_to_save, saving_progress, Page,
    PageBuilder, PageError, CARD_HEIGHT, CARD_WIDTH,
};
use ttsmagic::tts::piles::{lay_out, sort_by_name, Pile, PileError, Piles};
use ttsmagic::tts::render_coordinator::Pending;
use ttsmagic::tts::save::{
    find_number, has_cards, render_piles_to_json, save_deck, settled, time_text, LinearPile, RenderedPage,
    SaveError,
};
use ttsmagic::tts::tokens::{Step, TokenError, TokenSearch};
use ttsmagic::types::deck::DeckId;
use ttsmagic::types::nonzero::NonZeroU16;
use ttsmagic::types::server_to_frontend::{Notification, RenderProgress};
use ttsmagic::types::user::UserId;
use ttsmagic::urls::Url;
use ttsmagic::uuids::Uuid;

fn id(n: u128) -> ScryfallId {
    ScryfallId(Uuid { bits: n })
}

fn named(n: u128, name: &str) -> ScryfallCard {
    let json = format!(
        "{{\"id\": \"{}\", \"oracle_id\": \"{}\", \"name\": \"{}\", \"type_line\": \"T{}\"}}",
        id(n).to_text(),
        id(n + 1000).to_text(),
        name,
        n
    );
    ScryfallCard { json: Json::parse(&json).unwrap(), updated_at: 0 }
}

fn with_parts(n: u128, parts: &str) -> ScryfallCard {
    let json = format!(
        "{{\"id\": \"{}\", \"oracle_id\": \"{}\", \"name\": \"n{}\", \"all_parts\": {}}}",
        id(n).to_text(),
        id(n + 1000).to_text(),
        n,
        parts
    );
    ScryfallCard { json: Json::parse(&json).unwrap(), updated_at: 0 }
}

fn part(n: u128, component: &str) -> String {
    format!("{{\"id\": \"{}\", \"component\": \"{}\"}}", id(n).to_text(), component)
}

fn names(v: &[(ScryfallCard, u8)]) -> Vec<(String, u8)> {
    v.iter().map(|(c, n)| (c.combined_name(), *n)).collect()
}

#[test]
fn piles_are_in_order_of_names() {
    let v = sort_by_name(vec![(named(1, "b"), 1), (named(2, "a"), 2), (named(3, "b"), 3)]);
    assert_eq!(names(&v), vec![("a".to_string(), 2), ("b".to_string(), 1), ("b".to_string(), 3)]);
}

#[test]
fn empty_piles_are_refused() {
    assert!(matches!(Pile::new_face_up(vec![]), Err(PileError::EmptyPile)));
    assert!(matches!(Pile::new_face_down(vec![]), Err(PileError::EmptyPile)));
    assert!(Pile::new_face_up(vec![(named(1, "a"), 1)]).unwrap().face_up);
    assert!(!Pile::new_face_down(vec![(named(1, "a"), 1)]).unwrap().face_up);
}

#[test]
fn piles_are_laid_out() {
    let card = |n: u128| vec![(named(n, "x"), n as u8)];
    let p = lay_out(card(1), card(2), vec![], card(4)).unwrap();
    assert_eq!(p.len(), 3);
    let shape: Vec<(bool, u8)> = (0..3).map(|i| (p.get(i).unwrap().face_up, p.get(i).unwrap().cards[0].1)).collect();
    assert_eq!(shape, vec![(true, 1), (false, 2), (true, 4)]);
    assert!(p.get(3).is_none());
    assert!(matches!(lay_out(card(1), vec![], card(3), vec![]), Err(PileError::EmptyDeck)));
}

#[test]
fn tokens_are_searched_for() {
    let token = with_parts(50, &format!("[{}]", part(1, "combo_piece")));
    let start = vec![
        with_parts(1, &format!("[{}, {}, {}]", part(1, "combo_piece"), part(50, "token"), part(60, "meld_part"))),
        with_parts(2, "[]"),
        with_parts(3, &format!("[{}]", part(50, "token"))),
    ];
    let mut s = TokenSearch::new(start);
    let mut asked = vec![];
    let found = loop {
        match s.next() {
            Step::Need(need) => {
                asked.push(need);
                s.provide(token.clone()).unwrap();
            }
            Step::Done => break s.finish(),
            Step::Failed(e) => panic!("{:?}", e),
        }
    };
    assert!(!asked.is_empty() && asked.iter().all(|a| *a == id(50)));
    assert_eq!(names(&found), vec![("n50".to_string(), 1)]);
}

#[test]
fn reachable_tokens_are_found() {
    let card_of = |n: u128| match n {
        1 => with_parts(1, &format!("[{}]", part(50, "token"))),
        50 => with_parts(50, &format!("[{}, {}]", part(51, "token"), part(1, "token"))),
        51 => with_parts(51, &format!("[{}, {}]", part(50, "token"), part(52, "combo_piece"))),
        n => with_parts(n, "[]"),
    };
    let mut s = TokenSearch::new(vec![card_of(1)]);
    let found = loop {
        match s.next() {
            Step::Need(need) => s.provide(card_of(need.0.bits)).unwrap(),
            Step::Done => break s.finish(),
            Step::Failed(e) => panic!("{:?}", e),
        }
    };
    assert_eq!(names(&found), vec![("n50".to_string(), 1), ("n51".to_string(), 1)]);
}

#[test]
fn broken_parts_are_found() {
    let failing = |parts: &str| {
        let mut s = TokenSearch::new(vec![with_parts(1, parts)]);
        s.next()
    };
    assert_eq!(failing("[{}]"), Step::Failed(TokenError::PartWithoutId(0)));
    assert_eq!(failing("[{\"id\": 1}]"), Step::Failed(TokenError::PartIdNotText(0)));
    assert_eq!(failing("[{\"id\": \"x\"}]"), Step::Failed(TokenError::PartBadId(0)));
    assert_eq!(
        failing(&format!("[{{\"id\": \"{}\", \"component\": 1}}]", id(5).to_text())),
        Step::Failed(TokenError::ComponentNotText(id(5)))
    );
    assert_eq!(failing("3"), Step::Done);
    let mut s = TokenSearch::new(vec![ScryfallCard { json: Json::parse("{}").unwrap(), updated_at: 0 }]);
    assert_eq!(s.next(), Step::Failed(TokenError::Card(CardError::Missing(Field::Id))));
    let mut s = TokenSearch::new(vec![]);
    let bad = ScryfallCard { json: Json::parse("{}").unwrap(), updated_at: 0 };
    assert_eq!(s.provide(bad), Err(TokenError::Card(CardError::Missing(Field::OracleId))));
}

fn deck() -> Deck {
    let mut d = Deck {
        id: DeckId(Uuid { bits: 1 }),
        user_id: UserId(2),
        title: "T".to_string(),
        url: Url::parse("https://x.org/").unwrap(),
        commanders: IdMap::new(),
        main_deck: IdMap::new(),
        sideboard: IdMap::new(),
        rendered_json: None,
    };
    d.commanders.insert(9, named(9, "boss"));
    d.main_deck.insert(2, (named(2, "b"), 2));
    d.main_deck.insert(1, (named(1, "a"), 1));
    d.sideboard.insert(3, (with_parts(3, &format!("[{}]", part(50, "token"))), 1));
    d
}

#[test]
fn decks_are_collected() {
    let mut search = token_search(&deck()).unwrap();
    assert_eq!(search.next(), Step::Need(id(50)));
    let p = collect_card_piles(&deck(), vec![(named(50, "tok"), 1)]).unwrap();
    assert_eq!(p.len(), 4);
    assert_eq!(names(&p.get(0).unwrap().cards), vec![("boss".to_string(), 1)]);
    assert_eq!(names(&p.get(1).unwrap().cards), vec![("a".to_string(), 1), ("b".to_string(), 2)]);
    assert!(!p.get(1).unwrap().face_up);
    assert_eq!(names(&p.get(3).unwrap().cards), vec![("tok".to_string(), 1)]);
    let mut empty = deck();
    empty.main_deck = IdMap::new();
    assert!(matches!(token_search(&empty), Err(PileError::EmptyDeck)));
    assert!(matches!(collect_card_piles(&empty, vec![]), Err(PileError::EmptyDeck)));
}

fn plain(width: u32, height: u32, color: [u8; 3]) -> RgbImage {
    RgbImage { width, height, pixels: color.repeat((width * height) as usize) }
}

fn at(p: &RgbImage, x: u32, y: u32) -> [u8; 3] {
    let i = ((y * p.width + x) * 3) as usize;
    [p.pixels[i], p.pixels[i + 1], p.pixels[i + 2]]
}

#[test]
fn pictures_are_decoded() {
    let img = image::RgbImage::from_pixel(4, 5, image::Rgb([1, 2, 3]));
    let mut out = std::io::Cursor::new(Vec::new());
    img.write_to(&mut out, image::ImageFormat::Png).unwrap();
    let p = decode(&out.into_inner(), FileFormat::Png).unwrap();
    assert_eq!((p.width, p.height), (4, 5));
    assert_eq!(at(&p, 3, 4), [1, 2, 3]);
    assert!(decode(&[1, 2, 3], FileFormat::Jpeg).is_none());
}

#[test]
fn pictures_are_laid_over_one_another() {
    let p = overlay(black(4, 4), &plain(2, 2, [9, 8, 7]), 1, 3);
    assert_eq!(at(&p, 1, 3), [9, 8, 7]);
    assert_eq!(at(&p, 2, 3), [9, 8, 7]);
    assert_eq!(at(&p, 3, 3), [0, 0, 0]);
    assert_eq!(at(&p, 1, 2), [0, 0, 0]);
    let r = resize(plain(2, 2, [50, 60, 70]), 5, 3);
    assert_eq!((r.width, r.height, r.pixels.len()), (5, 3, 45));
    assert_eq!(at(&r, 2, 1), [50, 60, 70]);
}

#[test]
fn page_sizes() {
    let sizes: Vec<(u32, u32)> = [0, 2, 3, 4, 5, 10, 11, 18, 19, 22, 23, 33, 34, 46, 47, 52, 53, 1000]
        .iter()
        .map(|n| choose_size(*n))
        .collect();
    assert_eq!(
        sizes,
        vec![
            (2, 2), (2, 2), (3, 2), (3, 2), (4, 3), (4, 3), (5, 4), (5, 4), (6, 4), (6, 4), (7, 5), (7, 5),
            (8, 6), (8, 6), (9, 6), (9, 6), (10, 7), (10, 7)
        ]
    );
}

#[test]
fn cards_are_placed_on_pages() {
    let hidden = plain(CARD_WIDTH, CARD_HEIGHT, [1, 1, 1]);
    let cards = vec![
        (id(1), plain(CARD_WIDTH, CARD_HEIGHT, [10, 0, 0])),
        (id(2), plain(100, 100, [20, 0, 0])),
    ];
    let pages = make_pages(cards, &hidden).unwrap();
    assert_eq!(pages.len(), 1);
    let p = &pages[0];
    assert_eq!((p.width, p.height), (2, 2));
    assert_eq!((p.image.width, p.image.height), (2 * CARD_WIDTH, 2 * CARD_HEIGHT));
    assert_eq!(p.card_mapping.get(1), Some(&0));
    assert_eq!(p.card_mapping.get(2), Some(&1));
    assert_eq!(at(&p.image, 5, 5), [10, 0, 0]);
    assert_eq!(at(&p.image, CARD_WIDTH + 5, 5), [20, 0, 0]);
    assert_eq!(at(&p.image, 5, CARD_HEIGHT + 5), [0, 0, 0]);
    assert_eq!(at(&p.image, CARD_WIDTH + 5, CARD_HEIGHT + 5), [1, 1, 1]);
    assert!(matches!(make_pages(vec![], &hidden), Err(PageError::NoCards)));
    assert_eq!(fixup_size(plain(3, 3, [5, 5, 5])).width, CARD_WIDTH);
}

#[test]
fn full_pages_are_laid_aside() {
    let hidden = plain(1, 1, [1, 1, 1]);
    let mut b = PageBuilder::new(70, &hidden).unwrap();
    for n in 0..70 {
        b = b.place(id(n), plain(CARD_WIDTH, CARD_HEIGHT, [n as u8, 0, 0]), &hidden);
    }
    assert!(matches!(b.progress(), RenderProgress::RenderingImages { rendered_cards: 70, total_cards } if total_cards.get() == 70));
    let pages = b.finish();
    assert_eq!(pages.len(), 2);
    assert_eq!((pages[0].width, pages[0].height), (10, 7));
    assert_eq!(pages[0].card_mapping.len(), 69);
    assert_eq!((pages[1].width, pages[1].height), (2, 2));
    assert_eq!(pages[1].card_mapping.get(69), Some(&0));
    assert!(matches!(PageBuilder::new(0, &hidden), Err(PageError::NoCards)));
    assert!(matches!(PageBuilder::new(65536, &hidden), Err(PageError::TooManyCards)));
}

#[test]
fn pages_are_named() {
    let deck = DeckId::parse("b3c2bd44-4d75-4f61-89c0-1f1ba4d59ffa").unwrap();
    assert_eq!(page_filename(deck, 3), "pages/b3/c2/b3c2bd44-4d75-4f61-89c0-1f1ba4d59ffa_3.jpg");
    assert_eq!(pages_to_save(3).unwrap().get(), 3);
    assert!(matches!(pages_to_save(0), Err(PageError::NoPages)));
    assert!(matches!(pages_to_save(65536), Err(PageError::TooManyPages)));
    let progress = saving_progress(1, NonZeroU16::new(2).unwrap());
    assert!(matches!(progress, RenderProgress::SavingPages { saved_pages: 1, .. }));
    let page = Page::new(1, &plain(1, 1, [0, 0, 0]));
    assert_eq!(page.card_mapping.len(), 0);
}

fn value_of(json: &Json) -> Value {
    match json {
        Json::Null => Value::Null,
        Json::Bool(b) => Value::Bool(*b),
        Json::Number(n) => serde_json::from_str(n).unwrap(),
        Json::Text(s) => Value::String(s.clone()),
        Json::Array(items) => Value::Array(items.iter().map(value_of).collect()),
        Json::Object(fields) => Value::Object(fields.iter().map(|(k, v)| (k.clone(), value_of(v))).collect()),
    }
}

fn rendered(key: &str, cards: &[(u128, u8)]) -> RenderedPage {
    let mut card_mapping = IdMap::new();
    for (c, place) in cards {
        card_mapping.insert(*c, *place);
    }
    RenderedPage { width: 10, height: 7, image: MediaFile::named(key).unwrap(), card_mapping }
}

#[test]
fn piles_are_saved() {
    let pages = vec![rendered("pages/1.jpg", &[(1, 0), (2, 1)]), rendered("pages/2.jpg", &[(3, 5)])];
    assert_eq!(find_number(&pages, id(2)), Some(101));
    assert_eq!(find_number(&pages, id(3)), Some(205));
    assert_eq!(find_number(&pages, id(4)), None);
    let mut piles = Piles::new();
    piles.push(Pile::new_face_up(vec![(named(3, "Fire // Ice"), 1)]).unwrap());
    piles.push(Pile::new_face_down(vec![(named(1, "Fire // Ice"), 2), (named(3, "c"), 1)]).unwrap());
    assert!(has_cards(piles.get(0).unwrap()));
    let json = render_piles_to_json("Title", &piles, &pages, "now").unwrap();
    let color = r#"{"r": 1.0, "g": 1.0, "b": 1.0}"#;
    let page = |n: u8| {
        format!(
            r#""{0}": {{
                "FaceURL": "https://ttsmagic.cards/files/pages/{0}.jpg",
                "BackURL": "https://ttsmagic.cards/files/card_data/backing.jpg",
                "NumHeight": 7,
                "NumWidth": 10
            }}"#,
            n
        )
    };
    let transform = |x: &str, turned: &str| {
        format!(
            r#"{{
                "posX": {}, "posY": 0.0, "posZ": 0.0,
                "rotX": 0.0, "rotY": 180.0, "rotZ": {},
                "scaleX": 1.0, "scaleY": 1.0, "scaleZ": 1.0
            }}"#,
            x, turned
        )
    };
    let both = format!("{}, {}", page(1), page(2));
    let contained = |number: u16, name: &str, description: &str| {
        format!(
            r#"{{
                "Name": "Card", "CardID": {}, "ColorDiffuse": {}, "CustomDeck": {{ {} }},
                "Transform": {}, "Nickname": "{}", "Description": "{}"
            }}"#,
            number,
            color,
            both,
            transform("0.0", "0.0"),
            name,
            description
        )
    };
    let expected = format!(
        r#"{{ "ObjectStates": [
            {{
                "ColorDiffuse": {color}, "CustomDeck": {{ {second} }}, "Grid": true, "Locked": false,
                "Snap": true, "Transform": {first_transform}, "Name": "Card", "Nickname": "Fire // Ice",
                "CardID": 205, "Description": "T3"
            }},
            {{
                "ColorDiffuse": {color}, "CustomDeck": {{ {both} }}, "Grid": true, "Locked": false,
                "Snap": true, "Transform": {second_transform}, "Name": "Deck", "Nickname": "Title",
                "Description": "Generated at now", "DeckIDs": [100, 100, 205],
                "ContainedObjects": [{one}, {one}, {other}]
            }}
        ] }}"#,
        color = color,
        second = page(2),
        both = both,
        first_transform = transform("0.0", "0.0"),
        second_transform = transform("3.0", "180.0"),
        one = contained(100, "Fire", "T1"),
        other = contained(205, "c", "T3"),
    );
    let expected: Value = serde_json::from_str(&expected).unwrap();
    assert_eq!(value_of(&json), expected);
}

#[test]
fn a_deck_of_no_piles_is_saved_empty() {
    let json = render_piles_to_json("Title", &Piles::new(), &vec![], "now").unwrap();
    let expected: Value = serde_json::from_str(r#"{"ObjectStates": []}"#).unwrap();
    assert_eq!(value_of(&json), expected);
}

#[test]
fn places_show_their_cards() {
    let hidden = plain(CARD_WIDTH, CARD_HEIGHT, [1, 2, 3]);
    let colors = [[10, 0, 0], [20, 0, 0], [30, 0, 0], [40, 0, 0]];
    let cards = (0..4).map(|n| (id(n), plain(CARD_WIDTH, CARD_HEIGHT, colors[n as usize]))).collect();
    let pages = make_pages(cards, &hidden).unwrap();
    assert_eq!(pages.len(), 1);
    let page = &pages[0];
    assert_eq!((page.width, page.height), (3, 2));
    for n in 0..4 {
        let place = *page.card_mapping.get(n).unwrap() as u32;
        let (column, row) = (place % page.width, place / page.width);
        for (dx, dy) in [(0, 0), (CARD_WIDTH - 1, CARD_HEIGHT - 1)] {
            let shown = at(&page.image, column * CARD_WIDTH + dx, row * CARD_HEIGHT + dy);
            assert_eq!(shown, colors[n as usize]);
        }
    }
    assert_eq!(at(&page.image, CARD_WIDTH, CARD_HEIGHT), [0, 0, 0]);
    assert_eq!(at(&page.image, 2 * CARD_WIDTH, CARD_HEIGHT), [1, 2, 3]);
    assert_eq!(at(&page.image, 3 * CARD_WIDTH - 1, 2 * CARD_HEIGHT - 1), [1, 2, 3]);
}

#[test]
fn numbers_show_their_cards() {
    let hidden = plain(1, 1, [1, 1, 1]);
    let cards = (0..70).map(|n| (id(n), plain(CARD_WIDTH, CARD_HEIGHT, [n as u8, 7, 0]))).collect();
    let pages = make_pages(cards, &hidden).unwrap();
    let images: Vec<RgbImage> = pages.iter().map(|p| p.image.clone()).collect();
    let widths: Vec<u32> = pages.iter().map(|p| p.width).collect();
    let rendered: Vec<RenderedPage> =
        pages.into_iter().map(|p| RenderedPage::new(p, MediaFile::named("pages/1.jpg").unwrap())).collect();
    for n in 0..70 {
        let number = find_number(&rendered, id(n)).unwrap();
        let page = (number / 100 - 1) as usize;
        let place = (number % 100) as u32;
        let (column, row) = (place % widths[page], place / widths[page]);
        assert_eq!(at(&images[page], column * CARD_WIDTH + 3, row * CARD_HEIGHT + 4), [n as u8, 7, 0]);
    }
    assert_eq!(find_number(&rendered, id(69)), Some(200));
}

#[test]
fn pages_keep_the_order_of_the_cards() {
    let hidden = plain(1, 1, [1, 1, 1]);
    let mut b = PageBuilder::new(75, &hidden).unwrap();
    for n in 0..75 {
        b = b.place(id(1000 - n), plain(CARD_WIDTH, CARD_HEIGHT, [0, 0, 0]), &hidden);
    }
    let pages = b.finish();
    let mut seen = vec![];
    for page in &pages {
        for i in 0..page.card_mapping.len() {
            seen.push(page.card_mapping.entry(i).0);
        }
    }
    assert_eq!(seen, (0..75).map(|n| 1000 - n).collect::<Vec<u128>>());
    for page in &pages[..pages.len() - 1] {
        assert_eq!(page.card_mapping.len() as u32, page.width * page.height - 1);
    }
}

#[test]
fn unsaved_cards_are_named() {
    let pages = vec![rendered("pages/1.jpg", &[(1, 0)])];
    let mut piles = Piles::new();
    piles.push(Pile::new_face_down(vec![(named(7, "x"), 1)]).unwrap());
    assert!(matches!(render_piles_to_json("T", &piles, &pages, ""), Err(SaveError::NotOnPages(c)) if c == id(7)));
    let pile = Pile::new_face_up(vec![(ScryfallCard { json: Json::parse("{}").unwrap(), updated_at: 0 }, 1)]).unwrap();
    assert!(matches!(LinearPile::from_pile(&pile, &pages), Err(SaveError::Card(CardError::Missing(Field::Id)))));
    let none = Pile::new_face_up(vec![(named(1, "x"), 0)]).unwrap();
    assert!(!has_cards(&none));
    assert!(settled(&piles, &pages));
    assert!(matches!(save_deck("T", &piles, &pages, ""), Some(Err(SaveError::NotOnPages(c))) if c == id(7)));
    let mut mixed = Piles::new();
    mixed.push(Pile::new_face_up(vec![(named(1, "x"), 0)]).unwrap());
    assert!(!settled(&mixed, &pages));
    assert!(save_deck("T", &mixed, &pages, "").is_none());
    mixed.push(Pile::new_face_down(vec![(named(7, "x"), 1)]).unwrap());
    assert!(matches!(render_piles_to_json("T", &mixed, &pages, ""), Err(SaveError::NotOnPages(c)) if c == id(7)));
    let far = vec![rendered("pages/1.jpg", &[(1, 200)])];
    let mut one = Piles::new();
    one.push(Pile::new_face_up(vec![(named(1, "x"), 1)]).unwrap());
    assert!(save_deck("T", &one, &far, "").is_none());
    assert!(save_deck("T", &one, &pages, "").unwrap().is_ok());
    assert_eq!(time_text(0), "Thu, 1 Jan 1970 00:00:00 +0000");
}

#[test]
fn waiting_decks_are_told() {
    let mut p = Pending::new();
    for n in 1..=3 {
        p.wait(DeckId(Uuid { bits: n }), UserId(10 + n as u64));
    }
    p.wait(DeckId(Uuid { bits: 1 }), UserId(11));
    let news = p.start(DeckId(Uuid { bits: 2 })).unwrap();
    assert_eq!(news.len(), 2);
    assert_eq!(news[0].0, UserId(11));
    assert_eq!(news[1].0, UserId(13));
    match &news[1].1 {
        Notification::RenderProgress { deck_id, progress: RenderProgress::Waiting { queue_length } } => {
            assert_eq!(*deck_id, DeckId(Uuid { bits: 3 }));
            assert_eq!(queue_length.get(), 3);
        }
        other => panic!("{:?}", other),
    }
    assert!(p.start(DeckId(Uuid { bits: 1 })).is_none());
    assert_eq!(p.decks.len(), 2);
    p.finish();
    assert_eq!(p.start(DeckId(Uuid { bits: 1 })).unwrap().len(), 1);
    assert!(p.start(DeckId(Uuid { bits: 3 })).is_none());
    p.finish();
    assert!(p.start(DeckId(Uuid { bits: 3 })).unwrap().is_empty());
}
