//! The saved objects that Tabletop Simulator loads.
use crate::decimal;
use crate::files::MediaFile;
use crate::idmap;
use crate::idmap::IdMap;
use crate::imaging::RgbImage;
use crate::json;
use crate::json::{Json, JsonView};
use crate::scryfall::{
    combined_name_of, described, id_field, names_of, nonempty_first, CardError, CardView, Field, ScryfallCard, ScryfallId,
};
use crate::text;
use crate::tts::pages::{all_pages, all_shown, capacity, every_card_has_a_page, ids_of, places_show_their_cards, Page};
use crate::tts::piles::{counted, Counted, Pile, PileView, Piles};
use crate::urls;
use crate::urls::UrlError;
use crate::uuids::Uuid;
use vstd::prelude::*;

verus! {

/// The picture on the backs of the cards.
pub open spec fn back_url() -> Seq<char> {
    "https://ttsmagic.cards/files/card_data/backing.jpg"@
}

/// A page whose picture is stored.
#[derive(Debug)]
pub struct RenderedPage {
    pub width: u32,
    pub height: u32,
    pub image: MediaFile,
    /// The place of each card on the page.
    pub card_mapping: IdMap<u8>,
}

impl RenderedPage {
    /// A page and where its picture is stored.
    pub fn new(page: Page, image: MediaFile) -> (r: RenderedPage)
        ensures
            r.width == page.width,
            r.height == page.height,
            r.image == image,
            r.card_mapping == page.card_mapping,
    {
        RenderedPage { width: page.width, height: page.height, image, card_mapping: page.card_mapping }
    }
}

/// Why a deck could not be saved.
#[derive(Clone, Copy, Debug, PartialEq, Eq, Structural)]
pub enum SaveError {
    /// A card has no ID.
    Card(CardError),
    /// A card is on none of the pages.
    NotOnPages(ScryfallId),
    /// A page's picture has no URL.
    Url(UrlError),
}

/// The number of a place: that of its page, from one on, times a hundred, and the place on the page.
pub open spec fn deck_number(page: int, place: int) -> int {
    100 * (page + 1) + place
}

/// The number under which Tabletop Simulator knows a card, looked for on the first `n` pages: the last
/// page that has the card decides.
pub open spec fn number_on(pages: Seq<RenderedPage>, id: u128, n: int) -> Option<int>
    decreases n,
{
    if n <= 0 {
        None
    } else {
        match idmap::lookup(pages[n - 1].card_mapping@, id) {
            Some(place) => Some(deck_number(n - 1, place as int)),
            None => number_on(pages, id, n - 1),
        }
    }
}

/// The number under which Tabletop Simulator knows a card.
pub open spec fn number_of(pages: Seq<RenderedPage>, id: u128) -> Option<int> {
    number_on(pages, id, pages.len() as int)
}

/// Whether every number fits into sixteen bits.
pub open spec fn numbers_fit(pages: Seq<RenderedPage>) -> bool {
    forall|i: int, j: int|
        #![trigger pages[i].card_mapping@[j]]
        0 <= i < pages.len() && 0 <= j < pages[i].card_mapping@.len() ==> deck_number(
            i,
            pages[i].card_mapping@[j].1 as int,
        ) <= u16::MAX
}

/// The cards of a pile one by one, each with its number: a card with several copies stands there several
/// times.
pub open spec fn spread(pages: Seq<RenderedPage>, cards: Counted) -> Result<Seq<(CardView, int)>, SaveError>
    decreases cards.len(),
{
    if cards.len() == 0 {
        Ok(Seq::empty())
    } else {
        let (card, count) = cards.last();
        match spread(pages, cards.drop_last()) {
            Err(e) => Err(e),
            Ok(before) => match id_field(card.json, Field::Id) {
                Err(e) => Err(SaveError::Card(e)),
                Ok(id) => match number_of(pages, id) {
                    None => Err(SaveError::NotOnPages(ScryfallId(Uuid { bits: id }))),
                    Some(n) => Ok(before + copies(card, n, count)),
                },
            },
        }
    }
}

/// A card some number of times.
pub open spec fn copies(card: CardView, n: int, count: int) -> Seq<(CardView, int)> {
    Seq::new(
        if count > 0 {
            count as nat
        } else {
            0
        },
        |i: int| (card, n),
    )
}

/// More cards are no fewer.
proof fn card_count_grows(cards: Counted, n: int)
    requires
        0 <= n <= cards.len(),
    ensures
        0 <= card_count(cards.take(n)) <= card_count(cards),
    decreases cards.len(),
{
    if n == cards.len() {
        assert(cards.take(n) =~= cards);
        if n > 0 {
            card_count_grows(cards.drop_last(), 0);
        }
    } else {
        card_count_grows(cards.drop_last(), n);
        assert(cards.drop_last().take(n) =~= cards.take(n));
    }
}

/// Whether a pile has at least one card.
pub fn has_cards(pile: &Pile) -> (r: bool)
    ensures
        r == (card_count(pile@.cards) > 0),
{
    let ghost all = pile@.cards;
    let mut i: usize = 0;
    assert(all.take(0) =~= Seq::empty());
    while i < pile.cards.len()
        invariant
            i <= pile.cards@.len(),
            all == counted(pile.cards@),
            all == pile@.cards,
            card_count(all.take(i as int)) == 0,
        decreases pile.cards.len() - i,
    {
        proof {
            assert(all.take(i + 1).drop_last() =~= all.take(i as int));
            assert(all.take(i + 1).last() == all[i as int]);
            card_count_grows(all, i + 1);
        }
        if pile.cards[i].1 > 0 {
            return true;
        }
        i = i + 1;
    }
    assert(all.take(i as int) =~= all);
    false
}

/// The cards of a pile one by one, each with its number.
#[derive(Debug)]
pub struct LinearPile {
    pub cards: Vec<(ScryfallCard, u16)>,
    pub face_up: bool,
}

/// What a vector of cards with their numbers stands for.
pub open spec fn numbered(v: Seq<(ScryfallCard, u16)>) -> Seq<(CardView, int)> {
    v.map_values(|p: (ScryfallCard, u16)| (p.0@, p.1 as int))
}

/// The number under which Tabletop Simulator knows a card.
pub fn find_number(pages: &Vec<RenderedPage>, id: ScryfallId) -> (r: Option<u16>)
    requires
        numbers_fit(pages@),
    ensures
        match r {
            Some(n) => number_of(pages@, id.0.bits) == Some(n as int),
            None => number_of(pages@, id.0.bits) is None,
        },
{
    let mut n: usize = pages.len();
    while n > 0
        invariant
            n <= pages@.len(),
            numbers_fit(pages@),
            number_of(pages@, id.0.bits) == number_on(pages@, id.0.bits, n as int),
        decreases n,
    {
        if let Some(place) = pages[n - 1].card_mapping.get(id.0.bits) {
            proof {
                let m = pages@[n - 1].card_mapping@;
                idmap::place_is_first(m, id.0.bits);
                assert(deck_number(n - 1, pages@[n - 1].card_mapping@[idmap::place(m, id.0.bits)].1 as int)
                    <= u16::MAX);
            }
            return Some(100 * (n as u16) + *place as u16);
        }
        n = n - 1;
    }
    None
}

proof fn spread_stays_wrong(pages: Seq<RenderedPage>, cards: Counted, n: int)
    requires
        0 <= n <= cards.len(),
        spread(pages, cards.take(n)) is Err,
    ensures
        spread(pages, cards) == spread(pages, cards.take(n)),
    decreases cards.len() - n,
{
    if n == cards.len() {
        assert(cards.take(n) =~= cards);
    } else {
        assert(cards.take(n + 1).drop_last() =~= cards.take(n));
        spread_stays_wrong(pages, cards, n + 1);
    }
}

impl LinearPile {
    /// The cards of a pile one by one, each with its number.
    pub fn from_pile(pile: &Pile, pages: &Vec<RenderedPage>) -> (r: Result<LinearPile, SaveError>)
        requires
            numbers_fit(pages@),
        ensures
            match r {
                Ok(p) => spread(pages@, pile@.cards) == Ok::<Seq<(CardView, int)>, SaveError>(numbered(p.cards@))
                    && p.face_up == pile.face_up,
                Err(e) => spread(pages@, pile@.cards) == Err::<Seq<(CardView, int)>, SaveError>(e),
            },
    {
        let ghost all = pile@.cards;
        let mut cards: Vec<(ScryfallCard, u16)> = Vec::new();
        let mut i: usize = 0;
        assert(all.take(0) =~= Seq::empty());
        assert(numbered(cards@) =~= Seq::empty());
        while i < pile.cards.len()
            invariant
                i <= pile.cards@.len(),
                numbers_fit(pages@),
                all == pile@.cards,
                all.len() == pile.cards@.len(),
                spread(pages@, all.take(i as int)) == Ok::<Seq<(CardView, int)>, SaveError>(numbered(cards@)),
            decreases pile.cards.len() - i,
        {
            let card = &pile.cards[i].0;
            let count: u8 = pile.cards[i].1;
            proof {
                assert(all[i as int] == (card@, count as int));
                assert(all.take(i + 1).drop_last() =~= all.take(i as int));
                assert(all.take(i + 1).last() == all[i as int]);
                if spread(pages@, all.take(i + 1)) is Err {
                    spread_stays_wrong(pages@, all, i + 1);
                }
            }
            let card_id = match card.id() {
                Ok(id) => id,
                Err(e) => {
                    return Err(SaveError::Card(e));
                },
            };
            let number: u16 = match find_number(pages, card_id) {
                Some(n) => n,
                None => {
                    return Err(SaveError::NotOnPages(card_id));
                },
            };
            let ghost before = cards@;
            let mut k: u8 = 0;
            assert(numbered(before) + copies(card@, number as int, 0) =~= numbered(before));
            while k < count
                invariant
                    k <= count,
                    numbered(cards@) == numbered(before) + copies(card@, number as int, k as int),
                decreases count - k,
            {
                let ghost so_far = cards@;
                cards.push((card.clone(), number));
                k = k + 1;
                assert(numbered(cards@) =~= numbered(so_far).push((card@, number as int)));
                assert(numbered(cards@) =~= numbered(before) + copies(card@, number as int, k as int));
            }
            i = i + 1;
        }
        assert(all.take(i as int) =~= all);
        Ok(LinearPile { cards, face_up: pile.face_up })
    }
}

/// The description of a card, where it has one.
pub open spec fn description_of(card: CardView) -> Option<Seq<char>> {
    if described(card.json).len() > 0 {
        Some(text::join_text(described(card.json), "\n\n"@))
    } else {
        None
    }
}

/// Some members, with a card's description behind them, where it has one.
pub open spec fn with_description(members: Seq<(Seq<char>, JsonView)>, card: CardView) -> Seq<
    (Seq<char>, JsonView),
> {
    match description_of(card) {
        Some(d) => members.push(("Description"@, JsonView::Text(d))),
        None => members,
    }
}

/// Where something lies on the table, and by how many degrees it is turned over.
pub open spec fn transform_json(x: int, turned: int) -> JsonView {
    JsonView::Object(
        seq![
            ("posX"@, json::fractional_number(x)),
            ("posY"@, json::fractional_number(0)),
            ("posZ"@, json::fractional_number(0)),
            ("rotX"@, json::fractional_number(0)),
            ("rotY"@, json::fractional_number(180)),
            ("rotZ"@, json::fractional_number(turned)),
            ("scaleX"@, json::fractional_number(1)),
            ("scaleY"@, json::fractional_number(1)),
            ("scaleZ"@, json::fractional_number(1)),
        ],
    )
}

/// White.
pub open spec fn color_json() -> JsonView {
    JsonView::Object(
        seq![
            ("r"@, json::fractional_number(1)),
            ("g"@, json::fractional_number(1)),
            ("b"@, json::fractional_number(1)),
        ],
    )
}

/// How the cards of a page are found: the URL of its picture, that of the cards' backs, and its size.
pub open spec fn page_json(page: RenderedPage) -> JsonView {
    JsonView::Object(
        seq![
            ("FaceURL"@, JsonView::Text(crate::files::media_url(page.image.key@)->0)),
            ("BackURL"@, JsonView::Text(back_url())),
            ("NumHeight"@, json::whole_number(page.height as int)),
            ("NumWidth"@, json::whole_number(page.width as int)),
        ],
    )
}

/// Whether some of a number of cards is on a page.
pub open spec fn uses_page(cards: Seq<(CardView, int)>, page: int) -> bool {
    exists|i: int| 0 <= i < cards.len() && (#[trigger] cards[i]).1 / 100 == page
}

/// Those of the first `n` pages that some cards are on, each under its number.
pub open spec fn used_pages(cards: Seq<(CardView, int)>, pages: Seq<RenderedPage>, n: int) -> Seq<
    (Seq<char>, JsonView),
>
    decreases n,
{
    if n <= 0 {
        Seq::empty()
    } else if uses_page(cards, n) {
        used_pages(cards, pages, n - 1).push((decimal::decimal(n as nat), page_json(pages[n - 1])))
    } else {
        used_pages(cards, pages, n - 1)
    }
}

/// The pages that some cards are on.
pub open spec fn decks_json(cards: Seq<(CardView, int)>, pages: Seq<RenderedPage>) -> JsonView {
    JsonView::Object(used_pages(cards, pages, pages.len() as int))
}

/// A card in a stack: it is called by the name of its first face.
pub open spec fn contained_json(card: CardView, number: int, decks: JsonView) -> JsonView {
    JsonView::Object(
        with_description(
            seq![
                ("Name"@, JsonView::Text("Card"@)),
                ("CardID"@, json::whole_number(number)),
                ("ColorDiffuse"@, color_json()),
                ("CustomDeck"@, decks),
                ("Transform"@, transform_json(0, 0)),
                ("Nickname"@, JsonView::Text(names_of(card.json)[0])),
            ],
            card,
        ),
    )
}

/// What every stack has: the stacks lie side by side, each three units from the next, and those whose cards
/// lie face down are turned over.
pub open spec fn stack_members(i: int, face_up: bool, decks: JsonView) -> Seq<(Seq<char>, JsonView)> {
    seq![
        ("ColorDiffuse"@, color_json()),
        ("CustomDeck"@, decks),
        ("Grid"@, JsonView::Bool(true)),
        ("Locked"@, JsonView::Bool(false)),
        ("Snap"@, JsonView::Bool(true)),
        (
            "Transform"@,
            transform_json(
                3 * i,
                if face_up {
                    0
                } else {
                    180
                },
            ),
        ),
    ]
}

/// A card alone on the table: it is called by the names of all its faces.
pub open spec fn alone_members(card: CardView, number: int) -> Seq<(Seq<char>, JsonView)> {
    with_description(
        seq![
            ("Name"@, JsonView::Text("Card"@)),
            ("Nickname"@, JsonView::Text(combined_name_of(card.json))),
            ("CardID"@, json::whole_number(number)),
        ],
        card,
    )
}

/// Several cards in a stack, under the deck's title, with the time at which they were saved.
pub open spec fn together_members(
    cards: Seq<(CardView, int)>,
    decks: JsonView,
    title: Seq<char>,
    generated_at: Seq<char>,
) -> Seq<(Seq<char>, JsonView)> {
    seq![
        ("Name"@, JsonView::Text("Deck"@)),
        ("Nickname"@, JsonView::Text(title)),
        ("Description"@, JsonView::Text("Generated at "@ + generated_at)),
        ("DeckIDs"@, JsonView::Array(cards.map_values(|c: (CardView, int)| json::whole_number(c.1)))),
        (
            "ContainedObjects"@,
            JsonView::Array(cards.map_values(|c: (CardView, int)| contained_json(c.0, c.1, decks))),
        ),
    ]
}

/// The stack of a pile whose cards were numbered.
pub open spec fn stack_json(
    i: int,
    face_up: bool,
    cards: Seq<(CardView, int)>,
    pages: Seq<RenderedPage>,
    title: Seq<char>,
    generated_at: Seq<char>,
) -> JsonView {
    let decks = decks_json(cards, pages);
    JsonView::Object(
        stack_members(i, face_up, decks) + if cards.len() == 1 {
            alone_members(cards[0].0, cards[0].1)
        } else {
            together_members(cards, decks, title, generated_at)
        },
    )
}

/// A saved deck: a stack for each of its piles.
pub open spec fn saved_json(
    piles: Seq<PileView>,
    pages: Seq<RenderedPage>,
    title: Seq<char>,
    generated_at: Seq<char>,
) -> JsonView {
    JsonView::Object(
        seq![
            (
                "ObjectStates"@,
                JsonView::Array(
                    piles.map(
                        |i: int, pile: PileView|
                            stack_json(i, pile.face_up, spread(pages, pile.cards)->Ok_0, pages, title, generated_at),
                    ),
                ),
            ),
        ],
    )
}

/// A member of an object.
fn field(name: &str, value: Json) -> (r: (String, Json))
    ensures
        r.0@ == name@,
        r.1@ == value@,
{
    (name.to_string(), value)
}

/// Where something lies on the table.
fn transform(x: u64, turned: u64) -> (r: Json)
    ensures
        r@ == transform_json(x as int, turned as int),
{
    let mut m: Vec<(String, Json)> = Vec::new();
    m.push(field("posX", json::fractional(x)));
    m.push(field("posY", json::fractional(0)));
    m.push(field("posZ", json::fractional(0)));
    m.push(field("rotX", json::fractional(0)));
    m.push(field("rotY", json::fractional(180)));
    m.push(field("rotZ", json::fractional(turned)));
    m.push(field("scaleX", json::fractional(1)));
    m.push(field("scaleY", json::fractional(1)));
    m.push(field("scaleZ", json::fractional(1)));
    assert(json::members(m@) =~= transform_json(x as int, turned as int)->Object_0);
    json::object(m)
}

/// White.
fn color() -> (r: Json)
    ensures
        r@ == color_json(),
{
    let mut m: Vec<(String, Json)> = Vec::new();
    m.push(field("r", json::fractional(1)));
    m.push(field("g", json::fractional(1)));
    m.push(field("b", json::fractional(1)));
    assert(json::members(m@) =~= color_json()->Object_0);
    json::object(m)
}

/// How the cards of a page are found.
fn page_object(page: &RenderedPage) -> (r: Result<Json, UrlError>)
    ensures
        match r {
            Ok(j) => crate::files::media_url(page.image.key@) is Some && j@ == page_json(*page),
            Err(_) => crate::files::media_url(page.image.key@) is None,
        },
{
    let face_url = match page.image.url() {
        Ok(url) => url,
        Err(e) => {
            return Err(e);
        },
    };
    let mut m: Vec<(String, Json)> = Vec::new();
    m.push(field("FaceURL", json::string(face_url.as_str())));
    m.push(field("BackURL", json::string("https://ttsmagic.cards/files/card_data/backing.jpg")));
    m.push(field("NumHeight", json::whole(page.height as u64)));
    m.push(field("NumWidth", json::whole(page.width as u64)));
    assert(json::members(m@) =~= page_json(*page)->Object_0);
    Ok(json::object(m))
}

/// Puts a card's description behind some members, where it has one.
fn add_description(members: &mut Vec<(String, Json)>, card: &ScryfallCard)
    ensures
        json::members(final(members)@) == with_description(json::members(old(members)@), card@),
{
    let ghost before = members@;
    match card.description() {
        Ok(d) => {
            members.push(field("Description", Json::Text(d)));
            assert(json::members(members@) =~= json::members(before).push(
                ("Description"@, JsonView::Text(description_of(card@)->0)),
            ));
        },
        Err(_) => {},
    }
}

/// A card in a stack.
fn contained_object(card: &ScryfallCard, number: u16, decks: &Json) -> (r: Json)
    ensures
        r@ == contained_json(card@, number as int, decks@),
{
    let names = card.names();
    let first = nonempty_first(&names);
    let mut m: Vec<(String, Json)> = Vec::new();
    m.push(field("Name", json::string("Card")));
    m.push(field("CardID", json::whole(number as u64)));
    m.push(field("ColorDiffuse", color()));
    m.push(field("CustomDeck", decks.clone()));
    m.push(field("Transform", transform(0, 0)));
    m.push(field("Nickname", json::string(first.as_str())));
    assert(json::members(m@) =~= seq![
        ("Name"@, JsonView::Text("Card"@)),
        ("CardID"@, json::whole_number(number as int)),
        ("ColorDiffuse"@, color_json()),
        ("CustomDeck"@, decks@),
        ("Transform"@, transform_json(0, 0)),
        ("Nickname"@, JsonView::Text(names_of(card@.json)[0])),
    ]);
    add_description(&mut m, card);
    json::object(m)
}

/// A card alone on the table.
fn add_alone(members: &mut Vec<(String, Json)>, card: &ScryfallCard, number: u16)
    ensures
        json::members(final(members)@) == json::members(old(members)@) + alone_members(card@, number as int),
{
    let ghost before = json::members(members@);
    members.push(field("Name", json::string("Card")));
    members.push(field("Nickname", Json::Text(card.combined_name())));
    members.push(field("CardID", json::whole(number as u64)));
    assert(json::members(members@) =~= before + seq![
        ("Name"@, JsonView::Text("Card"@)),
        ("Nickname"@, JsonView::Text(combined_name_of(card@.json))),
        ("CardID"@, json::whole_number(number as int)),
    ]);
    add_description(members, card);
    assert(json::members(members@) =~= before + alone_members(card@, number as int));
}

/// Several cards in a stack.
fn add_together(
    members: &mut Vec<(String, Json)>,
    cards: &Vec<(ScryfallCard, u16)>,
    decks: &Json,
    title: &str,
    generated_at: &str,
)
    ensures
        json::members(final(members)@) == json::members(old(members)@) + together_members(
            numbered(cards@),
            decks@,
            title@,
            generated_at@,
        ),
{
    let ghost all = numbered(cards@);
    let ghost before = json::members(members@);
    let mut numbers: Vec<Json> = Vec::new();
    let mut contained: Vec<Json> = Vec::new();
    let mut i: usize = 0;
    while i < cards.len()
        invariant
            i <= cards@.len(),
            all == numbered(cards@),
            numbers@.len() == i,
            contained@.len() == i,
            forall|j: int| 0 <= j < i ==> (#[trigger] numbers@[j])@ == json::whole_number(all[j].1),
            forall|j: int|
                0 <= j < i ==> (#[trigger] contained@[j])@ == contained_json(all[j].0, all[j].1, decks@),
        decreases cards.len() - i,
    {
        let card = &cards[i].0;
        let number: u16 = cards[i].1;
        assert(all[i as int] == (card@, number as int));
        numbers.push(json::whole(number as u64));
        contained.push(contained_object(card, number, decks));
        i = i + 1;
    }
    assert(json::elements(numbers@) =~= all.map_values(|c: (CardView, int)| json::whole_number(c.1)));
    assert(json::elements(contained@) =~= all.map_values(
        |c: (CardView, int)| contained_json(c.0, c.1, decks@),
    ));
    members.push(field("Name", json::string("Deck")));
    members.push(field("Nickname", json::string(title)));
    members.push(field("Description", Json::Text(text::concat2("Generated at ", generated_at))));
    members.push(field("DeckIDs", json::array(numbers)));
    members.push(field("ContainedObjects", json::array(contained)));
    assert(json::members(members@) =~= before + together_members(all, decks@, title@, generated_at@));
}

/// Whether some card of a pile is on a page.
fn pile_uses(pile: &LinearPile, page: usize) -> (r: bool)
    ensures
        r == uses_page(numbered(pile.cards@), page as int),
{
    let ghost all = numbered(pile.cards@);
    let mut i: usize = 0;
    while i < pile.cards.len()
        invariant
            i <= pile.cards@.len(),
            all == numbered(pile.cards@),
            forall|j: int| 0 <= j < i ==> (#[trigger] all[j]).1 / 100 != page,
        decreases pile.cards.len() - i,
    {
        assert(all[i as int].1 == pile.cards@[i as int].1);
        if (pile.cards[i].1 / 100) as usize == page {
            return true;
        }
        i = i + 1;
    }
    false
}

/// The pages that the cards of a pile are on.
fn decks_of(pile: &LinearPile, pages: &Vec<RenderedPage>, objects: &Vec<Json>) -> (r: Json)
    requires
        objects@.len() == pages@.len(),
        forall|i: int| 0 <= i < pages@.len() ==> (#[trigger] objects@[i])@ == page_json(pages@[i]),
    ensures
        r@ == decks_json(numbered(pile.cards@), pages@),
{
    let ghost all = numbered(pile.cards@);
    let mut m: Vec<(String, Json)> = Vec::new();
    let mut i: usize = 0;
    assert(json::members(m@) =~= Seq::empty());
    while i < pages.len()
        invariant
            i <= pages@.len(),
            objects@.len() == pages@.len(),
            forall|k: int| 0 <= k < pages@.len() ==> (#[trigger] objects@[k])@ == page_json(pages@[k]),
            all == numbered(pile.cards@),
            json::members(m@) == used_pages(all, pages@, i as int),
        decreases pages.len() - i,
    {
        let ghost before = m@;
        if pile_uses(pile, i + 1) {
            let number = decimal::to_decimal((i + 1) as u64);
            m.push((number, objects[i].clone()));
            assert(json::members(m@) =~= json::members(before).push(
                (decimal::decimal((i + 1) as nat), page_json(pages@[i as int])),
            ));
        }
        i = i + 1;
    }
    json::object(m)
}

/// The stack of a pile.
fn stack_object(
    i: usize,
    pile: &LinearPile,
    pages: &Vec<RenderedPage>,
    objects: &Vec<Json>,
    title: &str,
    generated_at: &str,
) -> (r: Json)
    requires
        i <= 0x7_ffff_ffff_ffff,
        objects@.len() == pages@.len(),
        forall|k: int| 0 <= k < pages@.len() ==> (#[trigger] objects@[k])@ == page_json(pages@[k]),
    ensures
        r@ == stack_json(i as int, pile.face_up, numbered(pile.cards@), pages@, title@, generated_at@),
{
    let decks = decks_of(pile, pages, objects);
    let turned: u64 = if pile.face_up {
        0
    } else {
        180
    };
    let mut m: Vec<(String, Json)> = Vec::new();
    m.push(field("ColorDiffuse", color()));
    m.push(field("CustomDeck", decks.clone()));
    m.push(field("Grid", Json::Bool(true)));
    m.push(field("Locked", Json::Bool(false)));
    m.push(field("Snap", Json::Bool(true)));
    m.push(field("Transform", transform(3 * (i as u64), turned)));
    assert(json::members(m@) =~= stack_members(i as int, pile.face_up, decks@));
    if pile.cards.len() == 1 {
        assert(numbered(pile.cards@)[0] == (pile.cards@[0].0@, pile.cards@[0].1 as int));
        add_alone(&mut m, &pile.cards[0].0, pile.cards[0].1);
    } else {
        add_together(&mut m, &pile.cards, &decks, title, generated_at);
    }
    json::object(m)
}

/// The first pile, of the first `n`, whose cards cannot be saved.
pub open spec fn first_problem(piles: Seq<PileView>, pages: Seq<RenderedPage>, n: int) -> Option<SaveError>
    decreases n,
{
    if n <= 0 {
        None
    } else {
        match first_problem(piles, pages, n - 1) {
            Some(e) => Some(e),
            None => match spread(pages, piles[n - 1].cards) {
                Err(e) => Some(e),
                Ok(_) => None,
            },
        }
    }
}

proof fn first_problem_stays(piles: Seq<PileView>, pages: Seq<RenderedPage>, m: int, n: int)
    requires
        first_problem(piles, pages, m) is Some,
        m <= n,
    ensures
        first_problem(piles, pages, n) == first_problem(piles, pages, m),
    decreases n - m,
{
    if m < n {
        first_problem_stays(piles, pages, m, n - 1);
    }
}

/// Whether each page's picture has a URL.
pub open spec fn pages_have_urls(pages: Seq<RenderedPage>) -> bool {
    forall|i: int| 0 <= i < pages.len() ==> crate::files::media_url((#[trigger] pages[i]).image.key@) is Some
}

/// Whether the number of every card belongs to one of the pages.
pub open spec fn numbers_tell_pages(cards: Seq<(CardView, int)>, pages: Seq<RenderedPage>) -> bool {
    forall|k: int| 0 <= k < cards.len() ==> (#[trigger] cards[k]).1 / 100 <= pages.len()
}

/// Whether a pile whose cards were numbered can be laid on the table: it has a card, and every card is on one of
/// the pages.
pub open spec fn can_lie(pile: PileView, pages: Seq<RenderedPage>) -> bool {
    card_count(pile.cards) > 0 && numbers_tell_pages(spread(pages, pile.cards)->Ok_0, pages)
}

/// Whether it is known what becomes of a deck: every number fits, unless a page's picture has no URL; and where
/// every card can be saved, each pile can lie, and they are so few that each of their positions is exact.
pub open spec fn is_settled(piles: Seq<PileView>, pages: Seq<RenderedPage>) -> bool {
    pages_have_urls(pages) ==> {
        &&& piles.len() > 0 ==> numbers_fit(pages)
        &&& first_problem(piles, pages, piles.len() as int) is None ==> {
            &&& piles.len() <= 0x7_ffff_ffff_ffff
            &&& forall|i: int| 0 <= i < piles.len() ==> can_lie(#[trigger] piles[i], pages)
        }
    }
}

/// Saves a deck: its piles as stacks of cards. Where a page's picture has no URL nothing can be saved; after
/// that the first card decides that cannot be saved.
pub fn render_piles_to_json(deck_title: &str, piles: &Piles, pages: &Vec<RenderedPage>, generated_at: &str) -> (r:
    Result<Json, SaveError>)
    requires
        is_settled(piles@, pages@),
    ensures
        match r {
            Ok(json) => {
                &&& pages_have_urls(pages@)
                &&& first_problem(piles@, pages@, piles@.len() as int) is None
                &&& json@ == saved_json(piles@, pages@, deck_title@, generated_at@)
            },
            Err(SaveError::Url(_)) => !pages_have_urls(pages@),
            Err(e) => pages_have_urls(pages@) && first_problem(piles@, pages@, piles@.len() as int) == Some(e),
        },
{
    let mut objects: Vec<Json> = Vec::new();
    let mut i: usize = 0;
    while i < pages.len()
        invariant
            i <= pages@.len(),
            objects@.len() == i,
            forall|k: int| 0 <= k < i ==> (#[trigger] objects@[k])@ == page_json(pages@[k]),
            forall|k: int| 0 <= k < i ==> crate::files::media_url((#[trigger] pages@[k]).image.key@) is Some,
        decreases pages.len() - i,
    {
        match page_object(&pages[i]) {
            Ok(object) => objects.push(object),
            Err(e) => {
                assert(crate::files::media_url(pages@[i as int].image.key@) is None);
                return Err(SaveError::Url(e));
            },
        }
        i = i + 1;
    }
    let mut linear: Vec<LinearPile> = Vec::new();
    let n: usize = piles.len();
    let mut i: usize = 0;
    while i < n
        invariant
            i <= n,
            n == piles@.len(),
            n > 0 ==> numbers_fit(pages@),
            pages_have_urls(pages@),
            linear@.len() == i,
            first_problem(piles@, pages@, i as int) is None,
            forall|k: int|
                0 <= k < i ==> spread(pages@, piles@[k].cards) == Ok::<Seq<(CardView, int)>, SaveError>(
                    numbered((#[trigger] linear@[k]).cards@),
                ) && linear@[k].face_up == piles@[k].face_up,
        decreases n - i,
    {
        if let Some(pile) = piles.get(i) {
            match LinearPile::from_pile(pile, pages) {
                Ok(l) => linear.push(l),
                Err(e) => {
                    proof {
                        first_problem_stays(piles@, pages@, i + 1, n as int);
                        spread_has_no_url_problem(pages@, piles@[i as int].cards);
                    }
                    return Err(e);
                },
            }
        }
        i = i + 1;
    }
    let mut stacks: Vec<Json> = Vec::new();
    let mut i: usize = 0;
    while i < n
        invariant
            i <= n,
            n == piles@.len(),
            n <= 0x7_ffff_ffff_ffff,
            linear@.len() == n,
            objects@.len() == pages@.len(),
            forall|k: int| 0 <= k < pages@.len() ==> (#[trigger] objects@[k])@ == page_json(pages@[k]),
            forall|k: int|
                0 <= k < n ==> spread(pages@, piles@[k].cards) == Ok::<Seq<(CardView, int)>, SaveError>(
                    numbered((#[trigger] linear@[k]).cards@),
                ) && linear@[k].face_up == piles@[k].face_up,
            stacks@.len() == i,
            forall|k: int|
                0 <= k < i ==> (#[trigger] stacks@[k])@ == stack_json(
                    k,
                    piles@[k].face_up,
                    spread(pages@, piles@[k].cards)->Ok_0,
                    pages@,
                    deck_title@,
                    generated_at@,
                ),
        decreases n - i,
    {
        stacks.push(stack_object(i, &linear[i], pages, &objects, deck_title, generated_at));
        i = i + 1;
    }
    let mut m: Vec<(String, Json)> = Vec::new();
    proof {
        let saved = saved_json(piles@, pages@, deck_title@, generated_at@);
        assert(json::elements(stacks@) =~= saved->Object_0[0].1->Array_0);
    }
    m.push(field("ObjectStates", json::array(stacks)));
    assert(json::members(m@) =~= saved_json(piles@, pages@, deck_title@, generated_at@)->Object_0);
    Ok(json::object(m))
}

/// Whether every number fits into sixteen bits.
fn all_numbers_fit(pages: &Vec<RenderedPage>) -> (r: bool)
    ensures
        r == numbers_fit(pages@),
{
    let mut i: usize = 0;
    while i < pages.len()
        invariant
            i <= pages@.len(),
            forall|k: int, j: int|
                #![trigger pages@[k].card_mapping@[j]]
                0 <= k < i && 0 <= j < pages@[k].card_mapping@.len() ==> deck_number(
                    k,
                    pages@[k].card_mapping@[j].1 as int,
                ) <= u16::MAX,
        decreases pages.len() - i,
    {
        let n: usize = pages[i].card_mapping.len();
        let mut j: usize = 0;
        while j < n
            invariant
                i < pages@.len(),
                j <= n,
                n == pages@[i as int].card_mapping@.len(),
                forall|k: int|
                    0 <= k < j ==> deck_number(
                        i as int,
                        (#[trigger] pages@[i as int].card_mapping@[k]).1 as int,
                    ) <= u16::MAX,
            decreases n - j,
        {
            let place: u8 = pages[i].card_mapping.entry(j).1;
            assert(place == pages@[i as int].card_mapping@[j as int].1);
            if i > 654 || 100 * (i + 1) + place as usize > 0xffff {
                return false;
            }
            j = j + 1;
        }
        i = i + 1;
    }
    true
}

/// Whether the number of every card belongs to one of the pages.
fn all_on_pages(pile: &LinearPile, pages: usize) -> (r: bool)
    ensures
        r == (forall|k: int|
            0 <= k < numbered(pile.cards@).len() ==> (#[trigger] numbered(pile.cards@)[k]).1 / 100 <= pages),
{
    let ghost all = numbered(pile.cards@);
    let mut i: usize = 0;
    while i < pile.cards.len()
        invariant
            i <= pile.cards@.len(),
            all == numbered(pile.cards@),
            forall|k: int| 0 <= k < i ==> (#[trigger] all[k]).1 / 100 <= pages,
        decreases pile.cards.len() - i,
    {
        assert(all[i as int].1 == pile.cards@[i as int].1);
        if (pile.cards[i].1 / 100) as usize > pages {
            return false;
        }
        i = i + 1;
    }
    true
}

/// Whether it is known what becomes of a deck.
pub fn settled(piles: &Piles, pages: &Vec<RenderedPage>) -> (r: bool)
    ensures
        r == is_settled(piles@, pages@),
{
    let mut i: usize = 0;
    while i < pages.len()
        invariant
            i <= pages@.len(),
            forall|k: int| 0 <= k < i ==> crate::files::media_url((#[trigger] pages@[k]).image.key@) is Some,
        decreases pages.len() - i,
    {
        if pages[i].image.url().is_err() {
            assert(crate::files::media_url(pages@[i as int].image.key@) is None);
            return true;
        }
        i = i + 1;
    }
    let n: usize = piles.len();
    if n == 0 {
        return true;
    }
    if !all_numbers_fit(pages) {
        return false;
    }
    let mut all_lie = true;
    let mut i: usize = 0;
    while i < n
        invariant
            i <= n,
            n == piles@.len(),
            numbers_fit(pages@),
            first_problem(piles@, pages@, i as int) is None,
            all_lie == (forall|k: int| 0 <= k < i ==> can_lie(#[trigger] piles@[k], pages@)),
        decreases n - i,
    {
        let ghost before = all_lie;
        if let Some(pile) = piles.get(i) {
            match LinearPile::from_pile(pile, pages) {
                Ok(l) => {
                    let lies = has_cards(pile) && all_on_pages(&l, pages.len());
                    assert(lies == can_lie(piles@[i as int], pages@));
                    all_lie = all_lie && lies;
                },
                Err(_) => {
                    proof {
                        first_problem_stays(piles@, pages@, i + 1, n as int);
                    }
                    return true;
                },
            }
        }
        i = i + 1;
        proof {
            if all_lie {
                assert forall|k: int| 0 <= k < i implies can_lie(#[trigger] piles@[k], pages@) by {}
            } else if before {
                assert(!can_lie(piles@[i - 1], pages@));
            }
        }
    }
    all_lie && n as u64 <= 0x7_ffff_ffff_ffff
}

/// Saves a deck, where it is known what becomes of it.
pub fn save_deck(deck_title: &str, piles: &Piles, pages: &Vec<RenderedPage>, generated_at: &str) -> (r: Option<
    Result<Json, SaveError>,
>)
    ensures
        r is Some == is_settled(piles@, pages@),
        match r {
            Some(Ok(json)) => {
                &&& pages_have_urls(pages@)
                &&& first_problem(piles@, pages@, piles@.len() as int) is None
                &&& json@ == saved_json(piles@, pages@, deck_title@, generated_at@)
            },
            Some(Err(SaveError::Url(_))) => !pages_have_urls(pages@),
            Some(Err(e)) => pages_have_urls(pages@) && first_problem(piles@, pages@, piles@.len() as int) == Some(e),
            None => true,
        },
{
    if settled(piles, pages) {
        Some(render_piles_to_json(deck_title, piles, pages, generated_at))
    } else {
        None
    }
}

/// What is wrong with a pile's cards is never that a page has no URL.
proof fn spread_has_no_url_problem(pages: Seq<RenderedPage>, cards: Counted)
    ensures
        spread(pages, cards) matches Err(e) ==> !(e is Url),
    decreases cards.len(),
{
    if cards.len() > 0 {
        spread_has_no_url_problem(pages, cards.drop_last());
    }
}

/// How many cards some counted cards are.
pub open spec fn card_count(cards: Counted) -> int
    decreases cards.len(),
{
    if cards.len() == 0 {
        0
    } else {
        card_count(cards.drop_last()) + (if cards.last().1 > 0 {
            cards.last().1
        } else {
            0
        })
    }
}

/// A saved stack holds as many cards as its pile.
pub proof fn spread_keeps_count(pages: Seq<RenderedPage>, cards: Counted)
    ensures
        spread(pages, cards) matches Ok(s) ==> s.len() == card_count(cards),
    decreases cards.len(),
{
    if cards.len() > 0 {
        spread_keeps_count(pages, cards.drop_last());
    }
}

/// A card's number tells its page.
pub proof fn number_tells_page(pages: Seq<RenderedPage>, id: u128, n: int)
    requires
        0 <= n <= pages.len(),
        forall|i: int, j: int|
            #![trigger pages[i].card_mapping@[j]]
            0 <= i < pages.len() && 0 <= j < pages[i].card_mapping@.len() ==> pages[i].card_mapping@[j].1 < 100,
    ensures
        number_on(pages, id, n) matches Some(k) ==> 1 <= k / 100 <= n && idmap::lookup(
            pages[k / 100 - 1].card_mapping@,
            id,
        ) == Some((k % 100) as u8),
    decreases n,
{
    if n > 0 {
        let m = pages[n - 1].card_mapping@;
        match idmap::lookup(m, id) {
            Some(place) => {
                idmap::place_is_first(m, id);
                assert(pages[n - 1].card_mapping@[idmap::place(m, id)].1 < 100);
            },
            None => {
                number_tells_page(pages, id, n - 1);
            },
        }
    }
}

/// A card that is on one of the first `n` pages has a number.
proof fn number_is_found(pages: Seq<RenderedPage>, id: u128, i: int, n: int)
    requires
        0 <= i < n <= pages.len(),
        idmap::has_key(pages[i].card_mapping@, id),
    ensures
        number_on(pages, id, n) is Some,
    decreases n,
{
    if i < n - 1 {
        number_is_found(pages, id, i, n - 1);
    }
}

/// Where no card stands twice in a deck, every card has a number, and the place that the number tells, on the
/// page that it tells, shows the card's picture.
pub proof fn numbers_show_their_cards(cards: Seq<(ScryfallId, RgbImage)>, pages: Seq<RenderedPage>, m: int)
    requires
        ids_of(cards).no_duplicates(),
        pages.len() == all_pages(ids_of(cards)).len(),
        forall|i: int|
            0 <= i < pages.len() ==> (#[trigger] pages[i]).card_mapping@ == all_pages(ids_of(cards))[i].card_mapping,
        0 <= m < cards.len(),
    ensures
        number_of(pages, cards[m].0.0.bits) matches Some(k) && 1 <= k / 100 <= pages.len() && all_shown(cards)[k / 100
            - 1].contains_key(k % 100) && all_shown(cards)[k / 100 - 1][k % 100] == cards[m].1,
{
    let ids = ids_of(cards);
    let id = cards[m].0.0.bits;
    assert(ids[m] == id);
    every_card_has_a_page(ids, m);
    let i = choose|i: int|
        0 <= i < all_pages(ids).len() && idmap::has_key((#[trigger] all_pages(ids)[i]).card_mapping, ids[m]);
    assert(idmap::has_key(pages[i].card_mapping@, id));
    number_is_found(pages, id, i, pages.len() as int);
    assert forall|i: int, j: int|
        #![trigger pages[i].card_mapping@[j]]
        0 <= i < pages.len() && 0 <= j < pages[i].card_mapping@.len() implies pages[i].card_mapping@[j].1 < 100 by {
        places_show_their_cards(cards, i);
        let page = all_pages(ids)[i];
        assert(page.card_mapping[j].1 == j);
        assert(capacity(page.width, page.height) <= 69) by (nonlinear_arith)
            requires
                2 <= page.width <= 10,
                2 <= page.height <= 7,
                capacity(page.width, page.height) == page.width * page.height - 1,
        ;
    }
    number_tells_page(pages, id, pages.len() as int);
    let k = number_of(pages, id)->0;
    let page = k / 100 - 1;
    let mapping = pages[page].card_mapping@;
    places_show_their_cards(cards, page);
    idmap::place_is_first(mapping, id);
    let j = idmap::place(mapping, id);
    assert(all_pages(ids)[page].card_mapping[j] == (id, (k % 100) as u8));
    let shown = all_shown(cards)[page];
    let other = choose|o: int|
        0 <= o < cards.len() && (#[trigger] cards[o]).0.0.bits == id && cards[o].1 == shown[k % 100];
    assert(ids[other] == ids[m]);
}

/// What `chrono`'s `to_rfc2822` writes for a time in seconds since the epoch.
pub uninterp spec fn rfc2822(seconds: i64) -> Seq<char>;

/// `chrono::DateTime::to_rfc2822` of a time in UTC, which has to lie in a year of up to four digits.
#[verifier::external_body]
fn write_rfc2822(seconds: i64) -> (r: String)
    requires
        -62_167_219_200 <= seconds <= 253_402_300_799,
    ensures
        r@ == rfc2822(seconds),
{
    chrono::DateTime::from_timestamp(seconds, 0).unwrap_or_default().to_rfc2822()
}

/// A time in seconds since the epoch, written out.
pub fn time_text(seconds: i64) -> (r: String)
    requires
        -62_167_219_200 <= seconds <= 253_402_300_799,
    ensures
        r@ == rfc2822(seconds),
{
    write_rfc2822(seconds)
}

/// The number of cards is the sum of the numbers of copies.
pub proof fn card_count_adds_up(cards: Counted, card: CardView, count: int)
    ensures
        card_count(Seq::<(CardView, int)>::empty()) == 0,
        card_count(cards.push((card, count))) == card_count(cards) + if count > 0 {
            count
        } else {
            0
        },
{
    assert(cards.push((card, count)).drop_last() =~= cards);
}

/// In a spread pile the copies of each card stand behind those of the cards before it, as many as there are of
/// it, and each has the number of its card.
pub proof fn copies_stand_in_order(pages: Seq<RenderedPage>, cards: Counted, j: int, k: int)
    requires
        spread(pages, cards) is Ok,
        0 <= j < cards.len(),
        0 <= k < cards[j].1,
    ensures
        ({
            let all = spread(pages, cards)->Ok_0;
            let at = card_count(cards.take(j)) + k;
            &&& 0 <= at < all.len()
            &&& all.len() == card_count(cards)
            &&& all[at].0 == cards[j].0
            &&& id_field(cards[j].0.json, Field::Id) is Ok
            &&& number_of(pages, id_field(cards[j].0.json, Field::Id)->Ok_0) == Some(all[at].1)
        }),
    decreases cards.len(),
{
    spread_keeps_count(pages, cards);
    let before = cards.drop_last();
    spread_keeps_count(pages, before);
    card_count_grows(cards, j);
    if j < before.len() {
        copies_stand_in_order(pages, before, j, k);
        assert(before.take(j) =~= cards.take(j));
    } else {
        assert(cards.take(j) =~= before);
    }
}

/// A pile can be spread exactly where each of its cards has an ID and is on one of the pages.
pub proof fn cards_on_pages_are_spread(pages: Seq<RenderedPage>, cards: Counted)
    ensures
        spread(pages, cards) is Ok <==> forall|j: int|
            0 <= j < cards.len() ==> id_field((#[trigger] cards[j]).0.json, Field::Id) is Ok && exists|p: int|
                0 <= p < pages.len() && idmap::has_key(
                    (#[trigger] pages[p]).card_mapping@,
                    id_field(cards[j].0.json, Field::Id)->Ok_0,
                ),
    decreases cards.len(),
{
    if cards.len() > 0 {
        let before = cards.drop_last();
        cards_on_pages_are_spread(pages, before);
        let n = cards.len() - 1;
        let last = cards[n].0;
        if id_field(last.json, Field::Id) is Ok {
            number_is_that_of_last_page(pages, id_field(last.json, Field::Id)->Ok_0, pages.len() as int);
        }
        assert(forall|j: int| 0 <= j < before.len() ==> before[j] == cards[j]);
        if spread(pages, cards) is Ok {
            assert forall|j: int| 0 <= j < cards.len() implies id_field((#[trigger] cards[j]).0.json, Field::Id) is Ok
                && exists|p: int|
                0 <= p < pages.len() && idmap::has_key(
                    (#[trigger] pages[p]).card_mapping@,
                    id_field(cards[j].0.json, Field::Id)->Ok_0,
                ) by {
                if j < n {
                    assert(before[j] == cards[j]);
                }
            }
        } else {
            if spread(pages, before) is Err {
                let j = choose|j: int|
                    0 <= j < before.len() && !(id_field((#[trigger] before[j]).0.json, Field::Id) is Ok && exists|p:
                        int|
                        0 <= p < pages.len() && idmap::has_key(
                            (#[trigger] pages[p]).card_mapping@,
                            id_field(before[j].0.json, Field::Id)->Ok_0,
                        ));
                assert(before[j] == cards[j]);
            } else {
                assert(cards[n].0 == last);
            }
        }
    }
}

/// A card has the number of its place on the last page that has it, and none where no page has it.
pub proof fn number_is_that_of_last_page(pages: Seq<RenderedPage>, id: u128, n: int)
    requires
        0 <= n <= pages.len(),
    ensures
        match number_on(pages, id, n) {
            Some(k) => exists|p: int|
                0 <= p < n && idmap::has_key((#[trigger] pages[p]).card_mapping@, id) && k == 100 * (p + 1)
                    + idmap::lookup(pages[p].card_mapping@, id)->0 && forall|q: int|
                    p < q < n ==> !idmap::has_key((#[trigger] pages[q]).card_mapping@, id),
            None => forall|p: int| 0 <= p < n ==> !idmap::has_key((#[trigger] pages[p]).card_mapping@, id),
        },
    decreases n,
{
    if n > 0 {
        let last = pages[n - 1].card_mapping@;
        if idmap::has_key(last, id) {
            let k = number_on(pages, id, n)->0;
            assert(idmap::has_key(pages[n - 1].card_mapping@, id) && k == 100 * (n - 1 + 1) + idmap::lookup(
                pages[n - 1].card_mapping@,
                id,
            )->0);
        } else {
            number_is_that_of_last_page(pages, id, n - 1);
            match number_on(pages, id, n - 1) {
                Some(k) => {
                    let p = choose|p: int|
                        0 <= p < n - 1 && idmap::has_key((#[trigger] pages[p]).card_mapping@, id) && k == 100 * (p + 1)
                            + idmap::lookup(pages[p].card_mapping@, id)->0 && forall|q: int|
                            p < q < n - 1 ==> !idmap::has_key((#[trigger] pages[q]).card_mapping@, id);
                    assert(idmap::has_key(pages[p].card_mapping@, id));
                    assert forall|q: int| p < q < n implies !idmap::has_key((#[trigger] pages[q]).card_mapping@, id) by {
                        if q == n - 1 {
                            assert(pages[q].card_mapping@ == last);
                        }
                    }
                },
                None => {
                    assert forall|p: int| 0 <= p < n implies !idmap::has_key((#[trigger] pages[p]).card_mapping@, id) by {
                        if p == n - 1 {
                            assert(pages[p].card_mapping@ == last);
                        }
                    }
                },
            }
        }
    }
}

proof fn names_differ()
    ensures
        "ColorDiffuse"@.len() == 12,
        "CustomDeck"@.len() == 10,
        "Grid"@.len() == 4 && "Grid"@[0] == 'G',
        "Locked"@.len() == 6 && "Locked"@[0] == 'L',
        "Snap"@.len() == 4 && "Snap"@[0] == 'S',
        "Transform"@.len() == 9,
        "Name"@.len() == 4 && "Name"@[0] == 'N',
        "Nickname"@.len() == 8,
        "Description"@.len() == 11,
        "DeckIDs"@.len() == 7,
        "ContainedObjects"@.len() == 16,
        "CardID"@.len() == 6 && "CardID"@[0] == 'C',
{
    reveal_strlit("ColorDiffuse");
    reveal_strlit("CustomDeck");
    reveal_strlit("Grid");
    reveal_strlit("Locked");
    reveal_strlit("Snap");
    reveal_strlit("Transform");
    reveal_strlit("Name");
    reveal_strlit("Nickname");
    reveal_strlit("Description");
    reveal_strlit("DeckIDs");
    reveal_strlit("ContainedObjects");
    reveal_strlit("CardID");
}

/// What the saved object of a stack of two or more cards says: its arrays have an element for every card, in
/// the order of the spread pile, with the card's number, and it is called by the title of the deck.
pub proof fn stack_holds_all_cards(
    i: int,
    face_up: bool,
    cards: Seq<(CardView, int)>,
    pages: Seq<RenderedPage>,
    title: Seq<char>,
    generated_at: Seq<char>,
)
    requires
        cards.len() > 1,
    ensures
        ({
            let stack = stack_json(i, face_up, cards, pages, title, generated_at);
            &&& stack.get("Name"@) == Some(JsonView::Text("Deck"@))
            &&& stack.get("Nickname"@) == Some(JsonView::Text(title))
            &&& stack.get("Description"@) == Some(JsonView::Text("Generated at "@ + generated_at))
            &&& stack.get("CardID"@) is None
            &&& stack.get("DeckIDs"@) matches Some(JsonView::Array(ids)) && {
                &&& ids.len() == cards.len()
                &&& forall|k: int|
                    0 <= k < cards.len() ==> #[trigger] ids[k] == JsonView::Number(
                        decimal::decimal(cards[k].1 as nat),
                    )
            }
            &&& stack.get("ContainedObjects"@) matches Some(JsonView::Array(objects)) && {
                &&& objects.len() == cards.len()
                &&& forall|k: int|
                    0 <= k < cards.len() ==> (#[trigger] objects[k]).get("CardID"@) == Some(
                        JsonView::Number(decimal::decimal(cards[k].1 as nat)),
                    ) && objects[k].get("Name"@) == Some(JsonView::Text("Card"@)) && objects[k].get("Nickname"@)
                        == Some(JsonView::Text(names_of(cards[k].0.json)[0])) && objects[k].get("CustomDeck"@)
                        == stack.get("CustomDeck"@) && objects[k].get("Description"@) == (match description_of(
                        cards[k].0,
                    ) {
                        Some(d) => Some(JsonView::Text(d)),
                        None => None,
                    })
            }
        }),
{
    names_differ();
    let decks = decks_json(cards, pages);
    let m = stack_members(i, face_up, decks) + together_members(cards, decks, title, generated_at);
    assert(m.len() == 11);
    json::member_at(m, 1);
    json::member_at(m, 6);
    json::member_at(m, 7);
    json::member_at(m, 8);
    json::member_at(m, 9);
    json::member_at(m, 10);
    json::member_is_first(m, "CardID"@);
    let objects = cards.map_values(|c: (CardView, int)| contained_json(c.0, c.1, decks));
    assert forall|k: int| 0 <= k < cards.len() implies (#[trigger] objects[k]).get("CardID"@) == Some(
        JsonView::Number(decimal::decimal(cards[k].1 as nat)),
    ) && objects[k].get("Name"@) == Some(JsonView::Text("Card"@)) && objects[k].get("Nickname"@) == Some(
        JsonView::Text(names_of(cards[k].0.json)[0]),
    ) && objects[k].get("CustomDeck"@) == Some(decks) && objects[k].get("Description"@) == (match description_of(
        cards[k].0,
    ) {
        Some(d) => Some(JsonView::Text(d)),
        None => None,
    }) by {
        contained_card_says(cards[k].0, cards[k].1, decks);
    }
}

/// What the object of a card in a stack says.
pub proof fn contained_card_says(card: CardView, number: int, decks: JsonView)
    ensures
        ({
            let object = contained_json(card, number, decks);
            &&& object.get("Name"@) == Some(JsonView::Text("Card"@))
            &&& object.get("CardID"@) == Some(JsonView::Number(decimal::decimal(number as nat)))
            &&& object.get("CustomDeck"@) == Some(decks)
            &&& object.get("ColorDiffuse"@) == Some(color_json())
            &&& object.get("Transform"@) == Some(transform_json(0, 0))
            &&& object.get("Nickname"@) == Some(JsonView::Text(names_of(card.json)[0]))
            &&& object.get("Description"@) == (match description_of(card) {
                Some(d) => Some(JsonView::Text(d)),
                None => None,
            })
        }),
{
    names_differ();
    let m = contained_json(card, number, decks)->Object_0;
    json::member_at(m, 0);
    json::member_at(m, 1);
    json::member_at(m, 2);
    json::member_at(m, 3);
    json::member_at(m, 4);
    json::member_at(m, 5);
    if description_of(card) is Some {
        json::member_at(m, 6);
    } else {
        json::member_is_first(m, "Description"@);
    }
}

/// What the saved object of a card alone says: it has the card's number, and is called by the names of all its
/// faces.
pub proof fn card_alone_says(
    i: int,
    face_up: bool,
    cards: Seq<(CardView, int)>,
    pages: Seq<RenderedPage>,
    title: Seq<char>,
    generated_at: Seq<char>,
)
    requires
        cards.len() == 1,
    ensures
        ({
            let stack = stack_json(i, face_up, cards, pages, title, generated_at);
            &&& stack.get("Name"@) == Some(JsonView::Text("Card"@))
            &&& stack.get("Nickname"@) == Some(JsonView::Text(combined_name_of(cards[0].0.json)))
            &&& stack.get("CardID"@) == Some(JsonView::Number(decimal::decimal(cards[0].1 as nat)))
            &&& stack.get("DeckIDs"@) is None
            &&& stack.get("ContainedObjects"@) is None
            &&& stack.get("Description"@) == (match description_of(cards[0].0) {
                Some(d) => Some(JsonView::Text(d)),
                None => None,
            })
        }),
{
    names_differ();
    let decks = decks_json(cards, pages);
    let m = stack_members(i, face_up, decks) + alone_members(cards[0].0, cards[0].1);
    json::member_at(m, 6);
    json::member_at(m, 7);
    json::member_at(m, 8);
    json::member_is_first(m, "DeckIDs"@);
    json::member_is_first(m, "ContainedObjects"@);
    if description_of(cards[0].0) is Some {
        json::member_at(m, 9);
    } else {
        json::member_is_first(m, "Description"@);
    }
}

/// Where a stack lies: three units further to the right than the stack before it, not locked, and turned over
/// exactly where its cards lie face down.
pub proof fn stack_lies(
    i: int,
    face_up: bool,
    cards: Seq<(CardView, int)>,
    pages: Seq<RenderedPage>,
    title: Seq<char>,
    generated_at: Seq<char>,
)
    ensures
        ({
            let stack = stack_json(i, face_up, cards, pages, title, generated_at);
            &&& stack.get("Grid"@) == Some(JsonView::Bool(true))
            &&& stack.get("Locked"@) == Some(JsonView::Bool(false))
            &&& stack.get("Snap"@) == Some(JsonView::Bool(true))
            &&& stack.get("CustomDeck"@) == Some(decks_json(cards, pages))
            &&& stack.get("ColorDiffuse"@) == Some(color_json())
            &&& stack.get("Transform"@) == Some(
                transform_json(
                    3 * i,
                    if face_up {
                        0
                    } else {
                        180
                    },
                ),
            )
            &&& stack.get("Transform"@)->0.get("posX"@) == Some(
                JsonView::Number(decimal::decimal((3 * i) as nat) + ".0"@),
            )
            &&& stack.get("Transform"@)->0.get("rotZ"@) == Some(
                JsonView::Number(
                    if face_up {
                        decimal::decimal(0)
                    } else {
                        decimal::decimal(180)
                    } + ".0"@,
                ),
            )
        }),
{
    names_differ();
    let decks = decks_json(cards, pages);
    let stack = stack_json(i, face_up, cards, pages, title, generated_at);
    let m = stack->Object_0;
    assert(forall|j: int| 0 <= j < 6 ==> m[j] == stack_members(i, face_up, decks)[j]);
    assert(m.len() >= 6);
    json::member_at(m, 0);
    json::member_at(m, 1);
    json::member_at(m, 2);
    json::member_at(m, 3);
    json::member_at(m, 4);
    json::member_at(m, 5);
    transform_says(
        3 * i,
        if face_up {
            0
        } else {
            180
        },
    );
}

/// What is said of where something lies: its position, how it is turned, and that it is as large as it is.
pub proof fn transform_says(x: int, turned: int)
    ensures
        ({
            let t = transform_json(x, turned);
            let zero = Some(JsonView::Number(decimal::decimal(0) + ".0"@));
            let one = Some(JsonView::Number(decimal::decimal(1) + ".0"@));
            &&& t.get("posX"@) == Some(JsonView::Number(decimal::decimal(x as nat) + ".0"@))
            &&& t.get("posY"@) == zero
            &&& t.get("posZ"@) == zero
            &&& t.get("rotX"@) == zero
            &&& t.get("rotY"@) == Some(JsonView::Number(decimal::decimal(180) + ".0"@))
            &&& t.get("rotZ"@) == Some(JsonView::Number(decimal::decimal(turned as nat) + ".0"@))
            &&& t.get("scaleX"@) == one
            &&& t.get("scaleY"@) == one
            &&& t.get("scaleZ"@) == one
        }),
{
    reveal_strlit("posX");
    reveal_strlit("posY");
    reveal_strlit("posZ");
    reveal_strlit("rotX");
    reveal_strlit("rotY");
    reveal_strlit("rotZ");
    reveal_strlit("scaleX");
    reveal_strlit("scaleY");
    reveal_strlit("scaleZ");
    assert("posX"@[0] == 'p' && "posY"@[0] == 'p' && "posZ"@[0] == 'p');
    assert("rotX"@[0] == 'r' && "rotY"@[0] == 'r' && "rotZ"@[0] == 'r');
    assert("posX"@[3] == 'X' && "posY"@[3] == 'Y' && "posZ"@[3] == 'Z');
    assert("rotX"@[3] == 'X' && "rotY"@[3] == 'Y' && "rotZ"@[3] == 'Z');
    assert("scaleX"@[5] == 'X' && "scaleY"@[5] == 'Y' && "scaleZ"@[5] == 'Z');
    let m = transform_json(x, turned)->Object_0;
    json::member_at(m, 0);
    json::member_at(m, 1);
    json::member_at(m, 2);
    json::member_at(m, 3);
    json::member_at(m, 4);
    json::member_at(m, 5);
    json::member_at(m, 6);
    json::member_at(m, 7);
    json::member_at(m, 8);
}

/// The pages of a stack: those that one of its cards is on, each under its number, with the URL of its picture
/// and its size; and no other.
pub proof fn pages_of_cards_are_there(cards: Seq<(CardView, int)>, pages: Seq<RenderedPage>, p: int)
    requires
        1 <= p <= pages.len(),
    ensures
        ({
            let page = decks_json(cards, pages).get(decimal::decimal(p as nat));
            if exists|k: int| 0 <= k < cards.len() && (#[trigger] cards[k]).1 / 100 == p {
                &&& page is Some
                &&& page->0.get("FaceURL"@) == Some(
                    JsonView::Text(crate::files::media_url(pages[p - 1].image.key@)->0),
                )
                &&& page->0.get("BackURL"@) == Some(
                    JsonView::Text("https://ttsmagic.cards/files/card_data/backing.jpg"@),
                )
                &&& page->0.get("NumHeight"@) == Some(
                    JsonView::Number(decimal::decimal(pages[p - 1].height as nat)),
                )
                &&& page->0.get("NumWidth"@) == Some(JsonView::Number(decimal::decimal(pages[p - 1].width as nat)))
            } else {
                page is None
            }
        }),
{
    used_page_is_found(cards, pages, pages.len() as int, p);
    if uses_page(cards, p) {
        page_says(pages[p - 1]);
    }
}

/// What is said of a page: the URL of its picture, that of the backs of the cards, and its size.
pub proof fn page_says(page: RenderedPage)
    ensures
        ({
            let object = page_json(page);
            &&& object.get("FaceURL"@) == Some(JsonView::Text(crate::files::media_url(page.image.key@)->0))
            &&& object.get("BackURL"@) == Some(
                JsonView::Text("https://ttsmagic.cards/files/card_data/backing.jpg"@),
            )
            &&& object.get("NumHeight"@) == Some(JsonView::Number(decimal::decimal(page.height as nat)))
            &&& object.get("NumWidth"@) == Some(JsonView::Number(decimal::decimal(page.width as nat)))
        }),
{
    reveal_strlit("FaceURL");
    reveal_strlit("BackURL");
    reveal_strlit("NumHeight");
    reveal_strlit("NumWidth");
    assert("FaceURL"@[0] == 'F' && "BackURL"@[0] == 'B');
    assert("FaceURL"@.len() == 7 && "BackURL"@.len() == 7);
    assert("NumHeight"@.len() == 9 && "NumWidth"@.len() == 8);
    let m = page_json(page)->Object_0;
    json::member_at(m, 0);
    json::member_at(m, 1);
    json::member_at(m, 2);
    json::member_at(m, 3);
}

proof fn used_page_is_found(cards: Seq<(CardView, int)>, pages: Seq<RenderedPage>, n: int, p: int)
    requires
        0 <= n <= pages.len(),
        1 <= p,
    ensures
        JsonView::Object(used_pages(cards, pages, n)).get(decimal::decimal(p as nat)) == if p <= n && uses_page(
            cards,
            p,
        ) {
            Some(page_json(pages[p - 1]))
        } else {
            None
        },
    decreases n,
{
    if n > 0 {
        used_page_is_found(cards, pages, n - 1, p);
        if uses_page(cards, n) {
            json::member_behind(
                used_pages(cards, pages, n - 1),
                decimal::decimal(n as nat),
                page_json(pages[n - 1]),
                decimal::decimal(p as nat),
            );
            if decimal::decimal(n as nat) == decimal::decimal(p as nat) {
                decimal::decimal_injective(n as nat, p as nat);
            }
        }
    }
}

/// A saved deck has a stack for each of its piles, in their order, and the stack of a pile of two or more cards
/// holds every one of them: both its arrays have as many elements as the pile has cards, all copies counted,
/// and the elements at a place carry the number of the card that stands there when the pile is spread.
pub proof fn saved_stacks_hold_all_cards(
    piles: Seq<PileView>,
    pages: Seq<RenderedPage>,
    title: Seq<char>,
    generated_at: Seq<char>,
    i: int,
)
    requires
        0 <= i < piles.len(),
        spread(pages, piles[i].cards) is Ok,
        card_count(piles[i].cards) >= 2,
    ensures
        ({
            let cards = spread(pages, piles[i].cards)->Ok_0;
            saved_json(piles, pages, title, generated_at).get("ObjectStates"@) matches Some(JsonView::Array(stacks))
                && {
                &&& stacks.len() == piles.len()
                &&& stacks[i].get("DeckIDs"@) matches Some(JsonView::Array(ids)) && {
                    &&& ids.len() == card_count(piles[i].cards)
                    &&& forall|k: int|
                        0 <= k < ids.len() ==> #[trigger] ids[k] == JsonView::Number(
                            decimal::decimal(cards[k].1 as nat),
                        )
                }
                &&& stacks[i].get("ContainedObjects"@) matches Some(JsonView::Array(objects)) && {
                    &&& objects.len() == card_count(piles[i].cards)
                    &&& forall|k: int|
                        0 <= k < objects.len() ==> (#[trigger] objects[k]).get("CardID"@) == Some(
                            JsonView::Number(decimal::decimal(cards[k].1 as nat)),
                        )
                }
            }
        }),
{
    let cards = spread(pages, piles[i].cards)->Ok_0;
    spread_keeps_count(pages, piles[i].cards);
    saved_deck_has_its_stacks(piles, pages, title, generated_at, i);
    stack_holds_all_cards(i, piles[i].face_up, cards, pages, title, generated_at);
}

/// The stack of each pile stands in its place in the saved deck.
pub proof fn saved_deck_has_its_stacks(
    piles: Seq<PileView>,
    pages: Seq<RenderedPage>,
    title: Seq<char>,
    generated_at: Seq<char>,
    i: int,
)
    requires
        0 <= i < piles.len(),
    ensures
        saved_json(piles, pages, title, generated_at).get("ObjectStates"@) matches Some(JsonView::Array(stacks)) && {
            &&& stacks.len() == piles.len()
            &&& stacks[i] == stack_json(
                i,
                piles[i].face_up,
                spread(pages, piles[i].cards)->Ok_0,
                pages,
                title,
                generated_at,
            )
        },
{
    json::member_at(saved_json(piles, pages, title, generated_at)->Object_0, 0);
}

/// A pile whose cards cannot be spread is a problem of the deck, and the first such pile is the one that is
/// reported.
pub proof fn first_problem_is_first(piles: Seq<PileView>, pages: Seq<RenderedPage>, n: int)
    requires
        0 <= n <= piles.len(),
    ensures
        match first_problem(piles, pages, n) {
            Some(e) => exists|i: int|
                0 <= i < n && spread(pages, (#[trigger] piles[i]).cards) == Err::<Seq<(CardView, int)>, SaveError>(e)
                    && forall|j: int| 0 <= j < i ==> spread(pages, (#[trigger] piles[j]).cards) is Ok,
            None => forall|i: int| 0 <= i < n ==> spread(pages, (#[trigger] piles[i]).cards) is Ok,
        },
    decreases n,
{
    if n > 0 {
        first_problem_is_first(piles, pages, n - 1);
        assert(piles[n - 1] == piles[n - 1]);
    }
}

/// The first card of a pile that has no ID, or is on none of the pages, is the one that is reported.
pub proof fn first_bad_card_is_reported(pages: Seq<RenderedPage>, cards: Counted, j: int)
    requires
        0 <= j < cards.len(),
        spread(pages, cards.take(j)) is Ok,
    ensures
        match id_field(cards[j].0.json, Field::Id) {
            Err(e) => spread(pages, cards) == Err::<Seq<(CardView, int)>, SaveError>(SaveError::Card(e)),
            Ok(id) => (forall|p: int|
                0 <= p < pages.len() ==> !idmap::has_key((#[trigger] pages[p]).card_mapping@, id)) ==> spread(
                pages,
                cards,
            ) == Err::<Seq<(CardView, int)>, SaveError>(SaveError::NotOnPages(ScryfallId(Uuid { bits: id }))),
        },
{
    let some = cards.take(j + 1);
    assert(some.drop_last() =~= cards.take(j));
    assert(some.last() == cards[j]);
    if id_field(cards[j].0.json, Field::Id) is Ok {
        number_is_that_of_last_page(pages, id_field(cards[j].0.json, Field::Id)->Ok_0, pages.len() as int);
    }
    if spread(pages, some) is Err {
        spread_stays_wrong(pages, cards, j + 1);
    }
}

/// Cards and stacks are shown as they are: the light on them is white.
pub proof fn color_is_white()
    ensures
        ({
            let one = Some(JsonView::Number(decimal::decimal(1) + ".0"@));
            color_json().get("r"@) == one && color_json().get("g"@) == one && color_json().get("b"@) == one
        }),
{
    reveal_strlit("r");
    reveal_strlit("g");
    reveal_strlit("b");
    assert("r"@[0] == 'r' && "g"@[0] == 'g' && "b"@[0] == 'b');
    let m = color_json()->Object_0;
    json::member_at(m, 0);
    json::member_at(m, 1);
    json::member_at(m, 2);
}

/// A card's description is made of its cost, its type line and its rules text, with an empty line between each two
/// of them; a card with none of them has no description.
pub proof fn description_is_joined(card: CardView, cost: Seq<char>, line: Seq<char>, rules: Seq<char>)
    ensures
        ({
            let c = card.json.get("mana_cost"@);
            let l = card.json.get("type_line"@);
            let r = card.json.get("oracle_text"@);
            let has_c = c == Some(JsonView::Text(cost));
            let has_l = l == Some(JsonView::Text(line));
            let has_r = r == Some(JsonView::Text(rules));
            &&& has_c && has_l && has_r ==> description_of(card) == Some(
                cost + "\n\n"@ + line + "\n\n"@ + rules,
            )
            &&& has_c && has_l && r is None ==> description_of(card) == Some(cost + "\n\n"@ + line)
            &&& c is None && has_l && has_r ==> description_of(card) == Some(line + "\n\n"@ + rules)
            &&& has_c && l is None && has_r ==> description_of(card) == Some(cost + "\n\n"@ + rules)
            &&& has_c && l is None && r is None ==> description_of(card) == Some(cost)
            &&& c is None && has_l && r is None ==> description_of(card) == Some(line)
            &&& c is None && l is None && has_r ==> description_of(card) == Some(rules)
            &&& c is None && l is None && r is None ==> description_of(card) is None
        }),
{
    let sep = "\n\n"@;
    let all = described(card.json);
    let c = card.json.get("mana_cost"@);
    let l = card.json.get("type_line"@);
    let r = card.json.get("oracle_text"@);
    let has_c = c == Some(JsonView::Text(cost));
    let has_l = l == Some(JsonView::Text(line));
    let has_r = r == Some(JsonView::Text(rules));
    if has_c && has_l && has_r {
        assert(all =~= seq![cost] + (seq![line] + seq![rules]));
        text::join_of_groups(seq![cost], seq![line] + seq![rules], sep);
        text::join_of_groups(seq![line], seq![rules], sep);
        assert(cost + sep + (line + sep + rules) =~= cost + sep + line + sep + rules);
    } else if has_c && has_l && r is None {
        assert(all =~= seq![cost] + seq![line]);
        text::join_of_groups(seq![cost], seq![line], sep);
    } else if c is None && has_l && has_r {
        assert(all =~= seq![line] + seq![rules]);
        text::join_of_groups(seq![line], seq![rules], sep);
    } else if has_c && l is None && has_r {
        assert(all =~= seq![cost] + seq![rules]);
        text::join_of_groups(seq![cost], seq![rules], sep);
    } else if has_c && l is None && r is None {
        assert(all =~= seq![cost]);
    } else if c is None && has_l && r is None {
        assert(all =~= seq![line]);
    } else if c is None && l is None && has_r {
        assert(all =~= seq![rules]);
    } else if c is None && l is None && r is None {
        assert(all =~= Seq::empty());
    }
}

/// A deck on up to 654 pages with no more than a hundred places each can be saved, or it is known why not, as soon
/// as every pile has a card; how many piles there are plays no part up to more than there can be.
pub proof fn ordinary_decks_are_settled(piles: Seq<PileView>, pages: Seq<RenderedPage>)
    requires
        piles.len() <= 0x7_ffff_ffff_ffff,
        pages.len() <= 654,
        forall|i: int, j: int|
            #![trigger pages[i].card_mapping@[j]]
            0 <= i < pages.len() && 0 <= j < pages[i].card_mapping@.len() ==> pages[i].card_mapping@[j].1 < 100,
        forall|i: int| 0 <= i < piles.len() ==> card_count((#[trigger] piles[i]).cards) > 0,
    ensures
        is_settled(piles, pages),
{
    if first_problem(piles, pages, piles.len() as int) is None {
        first_problem_is_first(piles, pages, piles.len() as int);
        assert forall|i: int| 0 <= i < piles.len() implies can_lie(#[trigger] piles[i], pages) by {
            spread_tells_pages(pages, piles[i].cards);
        }
    }
}

proof fn spread_tells_pages(pages: Seq<RenderedPage>, cards: Counted)
    requires
        forall|i: int, j: int|
            #![trigger pages[i].card_mapping@[j]]
            0 <= i < pages.len() && 0 <= j < pages[i].card_mapping@.len() ==> pages[i].card_mapping@[j].1 < 100,
        spread(pages, cards) is Ok,
    ensures
        numbers_tell_pages(spread(pages, cards)->Ok_0, pages),
    decreases cards.len(),
{
    if cards.len() > 0 {
        let before = cards.drop_last();
        spread_tells_pages(pages, before);
        let id = id_field(cards.last().0.json, Field::Id)->Ok_0;
        number_tells_page(pages, id, pages.len() as int);
        let all = spread(pages, cards)->Ok_0;
        let some = spread(pages, before)->Ok_0;
        assert forall|k: int| 0 <= k < all.len() implies (#[trigger] all[k]).1 / 100 <= pages.len() by {
            if k < some.len() {
                assert(all[k] == some[k]);
                assert(some[k].1 / 100 <= pages.len());
            }
        }
    }
}

/// The URL of a page's picture is made from the one under which files are served.
pub proof fn pictures_are_served(key: Seq<char>, base: Seq<char>)
    ensures
        urls::parsed_url("https://ttsmagic.cards/files/"@) == Some(base) ==> crate::files::media_url(key)
            == urls::url_joined(base, key),
{
}

/// A spread pile stands for its cards, each with its number, in their order.
pub proof fn numbered_cards_stand_for_themselves(v: Seq<(ScryfallCard, u16)>, i: int)
    requires
        0 <= i < v.len(),
    ensures
        numbered(v).len() == v.len(),
        numbered(v)[i] == (v[i].0@, v[i].1 as int),
{
}

/// Every page has a picture that can be shown exactly where each one has a URL.
pub proof fn each_page_needs_a_url(pages: Seq<RenderedPage>)
    ensures
        pages_have_urls(pages) <==> forall|i: int|
            0 <= i < pages.len() ==> crate::files::media_url((#[trigger] pages[i]).image.key@) is Some,
{
}

} // verus!
