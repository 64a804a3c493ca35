//! Decks in the database.
use crate::deck::cards;
use crate::deck::cards::{CardPile, DeckCards, PileCards, PileKind};
use crate::idmap;
use crate::idmap::IdMap;
use crate::json;
use crate::json::{Json, JsonView};
use crate::scryfall;
use crate::scryfall::{CardError, CardView, ScryfallCard, ScryfallCardRow, ScryfallId};
use crate::text;
use crate::types::deck::{DeckColorIdentity, DeckId};
use crate::types::server_to_frontend::Notification;
use crate::types::user::UserId;
use crate::urls;
use crate::urls::Url;
use crate::uuids;
use crate::uuids::Uuid;
use vstd::prelude::*;

verus! {

/// A deck whose list has not been read yet.
#[derive(Debug)]
pub struct UnparsedDeck {
    pub id: DeckId,
    pub user_id: UserId,
    pub url: Url,
    pub title: String,
}

/// A deck.
#[derive(Debug)]
pub struct Deck {
    pub id: DeckId,
    pub user_id: UserId,
    pub title: String,
    pub url: Url,
    pub commanders: IdMap<ScryfallCard>,
    pub main_deck: CardPile,
    pub sideboard: CardPile,
    pub rendered_json: Option<Json>,
}

/// What a deck stands for.
#[verifier::ext_equal]
pub struct DeckView {
    pub id: DeckId,
    pub user_id: UserId,
    pub title: Seq<char>,
    pub url: Seq<char>,
    pub commanders: Seq<(u128, CardView)>,
    pub main_deck: PileCards,
    pub sideboard: PileCards,
    pub rendered_json: Option<JsonView>,
}

impl View for Deck {
    type V = DeckView;

    open spec fn view(&self) -> DeckView {
        DeckView {
            id: self.id,
            user_id: self.user_id,
            title: self.title@,
            url: self.url@,
            commanders: cards::leader_cards(self.commanders@),
            main_deck: cards::pile_cards(self.main_deck@),
            sideboard: cards::pile_cards(self.sideboard@),
            rendered_json: opt_json(self.rendered_json),
        }
    }
}

/// What JSON that may be missing stands for.
pub open spec fn opt_json(j: Option<Json>) -> Option<JsonView> {
    match j {
        Some(j) => Some(j@),
        None => None,
    }
}

/// Why a deck could not be saved or read.
#[derive(Clone, Copy, Debug, PartialEq, Eq, Structural)]
pub enum DeckError {
    /// Not one row was inserted, but this many.
    NotInserted(u64),
    /// The JSON of a card does not start with a mark.
    NoMark,
    /// The JSON of the deck is none.
    BadDeckJson,
    /// A number of copies is too small or too large.
    BadCopies(i16),
    /// The card of a row is none.
    BadCard(CardError),
    /// The URL of the deck is none.
    BadUrl,
    /// The row with this number is in no known pile.
    UnknownPile(usize),
}

/// What is said of a deck whose list has not been read yet.
pub open spec fn unparsed_text(id: DeckId, title: Seq<char>, url: Seq<char>) -> Seq<char> {
    let name = uuids::hyphenated(id.0.bits as int);
    if title.len() == 0 || title == url {
        "unparsed deck "@ + name + " from URL "@ + url
    } else {
        "unparsed deck "@ + text::quoted_text(title) + " ("@ + name + ") from URL "@ + url
    }
}

impl UnparsedDeck {
    /// What is said of the deck.
    pub fn to_text(&self) -> (r: String)
        ensures
            r@ == unparsed_text(self.id, self.title@, self.url@),
    {
        let name = self.id.to_text();
        let mut r: String = "unparsed deck ".to_string();
        if text::to_chars(self.title.as_str()).len() == 0 || text::same_text(
            self.title.as_str(),
            self.url.as_str(),
        ) {
            r.append(name.as_str());
            r.append(" from URL ");
            r.append(self.url.as_str());
        } else {
            r.append(text::quote(self.title.as_str()).as_str());
            r.append(" (");
            r.append(name.as_str());
            r.append(") from URL ");
            r.append(self.url.as_str());
        }
        r
    }

    /// The deck of a user at a URL: the one that the database has, or else a new one, whose title is its URL
    /// for the time being.
    pub fn with_id(user_id: UserId, url: Url, existing: Option<(DeckId, String)>, fresh: DeckId) -> (r: UnparsedDeck)
        ensures
            r.user_id == user_id,
            r.url == url,
            match existing {
                Some(e) => r.id == e.0 && r.title == e.1,
                None => r.id == fresh && r.title@ == url@,
            },
    {
        match existing {
            Some(e) => UnparsedDeck { id: e.0, user_id, url, title: e.1 },
            None => {
                let title = url.as_str().to_string();
                UnparsedDeck { id: fresh, user_id, url, title }
            },
        }
    }

    /// The deck of a user at a URL: the one that the database has, or else one with a new random ID.
    pub fn save(user_id: UserId, url: Url, existing: Option<(DeckId, String)>) -> (r: UnparsedDeck)
        ensures
            r.user_id == user_id,
            r.url == url,
            match existing {
                Some(e) => r.id == e.0 && r.title == e.1,
                None => r.title@ == url@ && uuids::is_v4(r.id.0.bits),
            },
    {
        UnparsedDeck::with_id(user_id, url, existing, DeckId(Uuid::new_v4()))
    }

    /// Checks that one row was inserted.
    pub fn check_inserted(rows_affected: u64) -> (r: Result<(), DeckError>)
        ensures
            r == if rows_affected == 1 {
                Ok::<(), DeckError>(())
            } else {
                Err::<(), DeckError>(DeckError::NotInserted(rows_affected))
            },
    {
        if rows_affected == 1 {
            Ok(())
        } else {
            Err(DeckError::NotInserted(rows_affected))
        }
    }

    /// The news that the deck's list is going to be read.
    pub fn started(&self) -> (r: Notification)
        ensures
            r == (Notification::DeckParseStarted { deck_id: self.id, title: self.title, url: self.url }),
    {
        Notification::DeckParseStarted { deck_id: self.id, title: self.title.clone(), url: self.url.clone() }
    }

    /// The news that the deck's list has been read.
    pub fn parsed(&self, title: &str, color_identity: DeckColorIdentity) -> (r: Notification)
        ensures
            r matches Notification::DeckParsed { deck_id, title: t, url, color_identity: ci } && deck_id == self.id
                && t@ == title@ && url == self.url && ci == color_identity,
    {
        Notification::DeckParsed {
            deck_id: self.id,
            title: title.to_string(),
            url: self.url.clone(),
            color_identity,
        }
    }

    /// The deck with its cards and its real title.
    pub fn save_cards(self, title: String, cards: DeckCards) -> (r: Deck)
        ensures
            r.id == self.id,
            r.user_id == self.user_id,
            r.title == title,
            r.url == self.url,
            r.commanders == cards.commanders,
            r.main_deck == cards.main_deck,
            r.sideboard == cards.sideboard,
            r.rendered_json is None,
    {
        let DeckCards { commanders, main_deck, sideboard } = cards;
        Deck {
            id: self.id,
            user_id: self.user_id,
            title,
            url: self.url,
            commanders,
            main_deck,
            sideboard,
            rendered_json: None,
        }
    }
}

/// A row of the database, as it comes from there: a card of a deck, and the deck.
#[derive(Debug)]
pub struct RawDeckEntry {
    pub deck_id: Uuid,
    pub user_id: i64,
    pub deck_title: String,
    pub deck_url: String,
    pub deck_json: Option<String>,
    pub card_id: Uuid,
    pub card_json: String,
    pub card_updated_at: i64,
    pub copies: i16,
    pub pile: String,
}

/// A card of a deck, and the deck.
#[derive(Debug)]
pub struct DeckEntryRow {
    pub deck_id: DeckId,
    pub user_id: UserId,
    pub deck_title: String,
    pub deck_url: String,
    pub deck_json: Option<Json>,
    pub card_id: ScryfallId,
    pub card_row: ScryfallCardRow,
    pub copies: u8,
    pub pile: String,
}

/// Whether a text starts with a mark of one byte.
pub open spec fn starts_with_mark(s: Seq<char>) -> bool {
    s.len() > 0 && (s[0] as u32) < 128
}

/// The JSON of a deck, where there is any.
pub open spec fn stored_json(s: Option<String>) -> Option<JsonView> {
    match s {
        Some(s) => json::parsed_json(s@),
        None => None,
    }
}

/// What is wrong with a row, if anything is.
pub open spec fn row_problem(raw: RawDeckEntry) -> Option<DeckError> {
    if !starts_with_mark(raw.card_json@) {
        Some(DeckError::NoMark)
    } else if raw.deck_json is Some && stored_json(raw.deck_json) is None {
        Some(DeckError::BadDeckJson)
    } else if raw.copies < 0 || raw.copies > 255 {
        Some(DeckError::BadCopies(raw.copies))
    } else {
        None
    }
}

impl DeckEntryRow {
    /// Reads a row of the database. The JSON of a card starts with a mark, which is left out.
    pub fn from_row(raw: RawDeckEntry) -> (r: Result<DeckEntryRow, DeckError>)
        ensures
            match r {
                Ok(row) => {
                    &&& row_problem(raw) is None
                    &&& row.deck_id == DeckId(raw.deck_id)
                    &&& row.user_id == UserId(crate::types::user::as_unsigned(raw.user_id))
                    &&& row.deck_title == raw.deck_title
                    &&& row.deck_url == raw.deck_url
                    &&& opt_json(row.deck_json) == stored_json(raw.deck_json)
                    &&& row.card_id == ScryfallId(raw.card_id)
                    &&& row.card_row.json@ == raw.card_json@.skip(1)
                    &&& row.card_row.updated_at == raw.card_updated_at
                    &&& row.copies == raw.copies
                    &&& row.pile == raw.pile
                },
                Err(e) => row_problem(raw) == Some(e),
            },
    {
        let chars = text::to_chars(raw.card_json.as_str());
        if chars.len() == 0 || (chars[0] as u32) >= 128 {
            return Err(DeckError::NoMark);
        }
        let card_json = text::from_chars(&chars, 1, chars.len());
        assert(raw.card_json@.subrange(1, raw.card_json@.len() as int) =~= raw.card_json@.skip(1));
        let deck_json = match &raw.deck_json {
            None => None,
            Some(s) => match Json::parse(s.as_str()) {
                Some(j) => Some(j),
                None => {
                    return Err(DeckError::BadDeckJson);
                },
            },
        };
        if raw.copies < 0 || raw.copies > 255 {
            return Err(DeckError::BadCopies(raw.copies));
        }
        Ok(
            DeckEntryRow {
                deck_id: DeckId(raw.deck_id),
                user_id: UserId::from_queryable(raw.user_id),
                deck_title: raw.deck_title,
                deck_url: raw.deck_url,
                deck_json,
                card_id: ScryfallId(raw.card_id),
                card_row: ScryfallCardRow { json: card_json, updated_at: raw.card_updated_at },
                copies: raw.copies as u8,
                pile: raw.pile,
            },
        )
    }
}

/// What a row stands for.
pub struct EntryView {
    pub deck_id: DeckId,
    pub user_id: UserId,
    pub deck_title: Seq<char>,
    pub deck_url: Seq<char>,
    pub deck_json: Option<JsonView>,
    pub card_id: u128,
    pub card: Option<CardView>,
    pub copies: int,
    pub pile: Seq<char>,
}

impl View for DeckEntryRow {
    type V = EntryView;

    open spec fn view(&self) -> EntryView {
        EntryView {
            deck_id: self.deck_id,
            user_id: self.user_id,
            deck_title: self.deck_title@,
            deck_url: self.deck_url@,
            deck_json: opt_json(self.deck_json),
            card_id: self.card_id.0.bits,
            card: scryfall::row_card(self.card_row),
            copies: self.copies as int,
            pile: self.pile@,
        }
    }
}

/// The views of a vector of rows.
pub open spec fn entry_views(v: Seq<DeckEntryRow>) -> Seq<EntryView> {
    v.map_values(|r: DeckEntryRow| r@)
}

/// The deck of a row, still without cards.
pub open spec fn bare_deck(row: EntryView, url: Seq<char>) -> DeckView {
    DeckView {
        id: row.deck_id,
        user_id: row.user_id,
        title: row.deck_title,
        url,
        commanders: Seq::empty(),
        main_deck: Seq::empty(),
        sideboard: Seq::empty(),
        rendered_json: row.deck_json,
    }
}

/// A deck with a card in a pile.
pub open spec fn with_card(d: DeckView, kind: PileKind, id: u128, card: CardView, copies: int) -> DeckView {
    match kind {
        PileKind::Commander => DeckView { commanders: idmap::put(d.commanders, id, card), ..d },
        PileKind::MainDeck => DeckView { main_deck: idmap::put(d.main_deck, id, (card, copies)), ..d },
        PileKind::Sideboard => DeckView { sideboard: idmap::put(d.sideboard, id, (card, copies)), ..d },
    }
}

/// The deck that some rows make: the first one says what deck it is, and each one puts a card into a pile.
pub open spec fn assembled(rows: Seq<EntryView>, n: int) -> Result<Option<DeckView>, DeckError>
    decreases n,
{
    if n <= 0 {
        Ok(None)
    } else {
        let row = rows[n - 1];
        match assembled(rows, n - 1) {
            Err(e) => Err(e),
            Ok(before) => if row.card is None {
                Err(DeckError::BadCard(CardError::BadJson))
            } else if before is None && urls::parsed_url(row.deck_url) is None {
                Err(DeckError::BadUrl)
            } else {
                let deck = match before {
                    Some(d) => d,
                    None => bare_deck(row, urls::parsed_url(row.deck_url)->0),
                };
                match cards::pile_called(row.pile) {
                    None => Err(DeckError::UnknownPile((n - 1) as usize)),
                    Some(kind) => Ok(Some(with_card(deck, kind, row.card_id, row.card->0, row.copies))),
                }
            },
        }
    }
}

proof fn assembled_stays_wrong(rows: Seq<EntryView>, m: int, n: int)
    requires
        m <= n,
        assembled(rows, m) is Err,
    ensures
        assembled(rows, n) == assembled(rows, m),
    decreases n - m,
{
    if m < n {
        assembled_stays_wrong(rows, m, n - 1);
    }
}

fn put_card(deck: Deck, kind: PileKind, id: ScryfallId, card: ScryfallCard, copies: u8) -> (r: Deck)
    requires
        deck.wf(),
    ensures
        r.wf(),
        r@ == with_card(deck@, kind, id.0.bits, card@, copies as int),
{
    let ghost before = deck@;
    let Deck {
        id: deck_id,
        user_id,
        title,
        url,
        mut commanders,
        mut main_deck,
        mut sideboard,
        rendered_json,
    } = deck;
    let key: u128 = id.0.bits;
    match kind {
        PileKind::Commander => {
            proof {
                idmap::put_maps(commanders@, key, card, |c: ScryfallCard| c@);
            }
            commanders.insert(key, card);
        },
        PileKind::MainDeck => {
            proof {
                idmap::put_maps(main_deck@, key, (card, copies), cards::counted_view());
            }
            main_deck.insert(key, (card, copies));
        },
        PileKind::Sideboard => {
            proof {
                idmap::put_maps(sideboard@, key, (card, copies), cards::counted_view());
            }
            sideboard.insert(key, (card, copies));
        },
    }
    let r = Deck { id: deck_id, user_id, title, url, commanders, main_deck, sideboard, rendered_json };
    assert(r@ =~= with_card(before, kind, key, card@, copies as int));
    r
}

impl Deck {
    /// Whether no card stands twice in a pile.
    pub open spec fn wf(&self) -> bool {
        self.commanders.wf() && self.main_deck.wf() && self.sideboard.wf()
    }

    /// The deck that the rows of the database make; none where there are no rows.
    pub fn get_by_id(rows: Vec<DeckEntryRow>) -> (r: Result<Option<Deck>, DeckError>)
        ensures
            match r {
                Ok(Some(deck)) => deck.wf() && assembled(entry_views(rows@), rows@.len() as int) == Ok::<
                    Option<DeckView>,
                    DeckError,
                >(Some(deck@)),
                Ok(None) => assembled(entry_views(rows@), rows@.len() as int) == Ok::<
                    Option<DeckView>,
                    DeckError,
                >(None),
                Err(e) => assembled(entry_views(rows@), rows@.len() as int) == Err::<
                    Option<DeckView>,
                    DeckError,
                >(e),
            },
    {
        let ghost all = entry_views(rows@);
        let n: usize = rows.len();
        let mut rest = rows;
        let mut found: Option<Deck> = None;
        let mut i: usize = 0;
        while i < n
            invariant
                n == rows@.len(),
                all == entry_views(rows@),
                i <= n,
                rest@ == rows@.skip(i as int),
                match found {
                    Some(deck) => deck.wf() && assembled(all, i as int) == Ok::<
                        Option<DeckView>,
                        DeckError,
                    >(Some(deck@)),
                    None => assembled(all, i as int) == Ok::<Option<DeckView>, DeckError>(None),
                },
            decreases n - i,
        {
            let row = rest.remove(0);
            proof {
                assert(row == rows@[i as int]);
                assert(all[i as int] == row@);
                assert(rest@ =~= rows@.skip(i + 1));
                if assembled(all, i + 1) is Err {
                    assembled_stays_wrong(all, i + 1, n as int);
                }
            }
            let card = match ScryfallCard::from_row(row.card_row) {
                Ok(c) => c,
                Err(e) => {
                    return Err(DeckError::BadCard(e));
                },
            };
            let deck = match found {
                Some(d) => d,
                None => {
                    let url = match Url::parse(row.deck_url.as_str()) {
                        Ok(u) => u,
                        Err(_) => {
                            return Err(DeckError::BadUrl);
                        },
                    };
                    let d = Deck {
                        id: row.deck_id,
                        user_id: row.user_id,
                        title: row.deck_title,
                        url,
                        commanders: IdMap::new(),
                        main_deck: IdMap::new(),
                        sideboard: IdMap::new(),
                        rendered_json: row.deck_json,
                    };
                    assert(d@ =~= bare_deck(all[i as int], url@));
                    d
                },
            };
            match PileKind::called(row.pile.as_str()) {
                None => {
                    return Err(DeckError::UnknownPile(i));
                },
                Some(kind) => {
                    found = Some(put_card(deck, kind, row.card_id, card, row.copies));
                },
            }
            i = i + 1;
        }
        Ok(found)
    }

    /// The news that the deck was deleted.
    pub fn deleted(&self) -> (r: Notification)
        ensures
            r == (Notification::DeckDeleted { deck_id: self.id }),
    {
        Notification::DeckDeleted { deck_id: self.id }
    }
}

/// The row in which a card of a deck is kept.
pub open spec fn kept_row(d: DeckView, kind: PileKind, id: u128, card: CardView, copies: int) -> EntryView {
    EntryView {
        deck_id: d.id,
        user_id: d.user_id,
        deck_title: d.title,
        deck_url: d.url,
        deck_json: d.rendered_json,
        card_id: id,
        card: Some(card),
        copies,
        pile: cards::pile_name(kind),
    }
}

/// The rows in which the commanders of a deck are kept.
pub open spec fn kept_leaders(d: DeckView) -> Seq<EntryView> {
    d.commanders.map_values(|e: (u128, CardView)| kept_row(d, PileKind::Commander, e.0, e.1, 1))
}

/// The rows in which a pile of a deck is kept.
pub open spec fn kept_pile(d: DeckView, pile: PileCards, kind: PileKind) -> Seq<EntryView> {
    pile.map_values(|e: (u128, (CardView, int))| kept_row(d, kind, e.0, e.1.0, e.1.1))
}

/// The rows in which a deck is kept.
pub open spec fn kept_rows(d: DeckView) -> Seq<EntryView> {
    kept_leaders(d) + kept_pile(d, d.main_deck, PileKind::MainDeck) + kept_pile(
        d,
        d.sideboard,
        PileKind::Sideboard,
    )
}

/// A deck with the first cards of each of its piles.
pub open spec fn part_of(d: DeckView, leaders: int, main_cards: int, side_cards: int) -> DeckView {
    DeckView {
        commanders: d.commanders.take(leaders),
        main_deck: d.main_deck.take(main_cards),
        sideboard: d.sideboard.take(side_cards),
        ..d
    }
}

proof fn put_next<V>(s: Seq<(u128, V)>, k: int)
    requires
        idmap::distinct(s),
        0 <= k < s.len(),
    ensures
        idmap::put(s.take(k), s[k].0, s[k].1) == s.take(k + 1),
{
    idmap::place_is_first(s.take(k), s[k].0);
    if idmap::has_key(s.take(k), s[k].0) {
        let p = idmap::place(s.take(k), s[k].0);
        assert(s.take(k)[p].0 == s[k].0);
        assert(s[p].0 != s[k].0);
    }
    assert(s.take(k).push((s[k].0, s[k].1)) =~= s.take(k + 1));
}

proof fn assembled_part(d: DeckView, n: int)
    requires
        idmap::distinct(d.commanders),
        idmap::distinct(d.main_deck),
        idmap::distinct(d.sideboard),
        urls::parsed_url(d.url) == Some(d.url),
        0 < n <= kept_rows(d).len(),
    ensures
        ({
            let l = d.commanders.len() as int;
            let m = d.main_deck.len() as int;
            assembled(kept_rows(d), n) == Ok::<Option<DeckView>, DeckError>(
                Some(
                    if n <= l {
                        part_of(d, n, 0, 0)
                    } else if n <= l + m {
                        part_of(d, l, n - l, 0)
                    } else {
                        part_of(d, l, m, n - l - m)
                    },
                ),
            )
        }),
    decreases n,
{
    let rows = kept_rows(d);
    let l = d.commanders.len() as int;
    let m = d.main_deck.len() as int;
    let row = rows[n - 1];
    let start = if n == 1 {
        bare_deck(row, d.url)
    } else {
        assembled_part(d, n - 1);
        assembled(rows, n - 1)->Ok_0->0
    };
    cards::called_undoes_name(PileKind::Commander);
    cards::called_undoes_name(PileKind::MainDeck);
    cards::called_undoes_name(PileKind::Sideboard);
    if n == 1 {
        assert(start =~= part_of(d, 0, 0, 0));
        assert(assembled(rows, 0) == Ok::<Option<DeckView>, DeckError>(None));
    }
    if n <= l {
        assert(row == kept_leaders(d)[n - 1]);
        put_next(d.commanders, n - 1);
        assert(start =~= part_of(d, n - 1, 0, 0));
        assert(with_card(start, PileKind::Commander, row.card_id, row.card->0, row.copies) =~= part_of(d, n, 0, 0));
    } else if n <= l + m {
        let k = n - 1 - l;
        assert(row == kept_pile(d, d.main_deck, PileKind::MainDeck)[k]);
        put_next(d.main_deck, k);
        assert(start =~= part_of(d, l, k, 0));
        assert(with_card(start, PileKind::MainDeck, row.card_id, row.card->0, row.copies) =~= part_of(
            d,
            l,
            k + 1,
            0,
        ));
    } else {
        let k = n - 1 - l - m;
        assert(row == kept_pile(d, d.sideboard, PileKind::Sideboard)[k]);
        put_next(d.sideboard, k);
        assert(start =~= part_of(d, l, m, k));
        assert(with_card(start, PileKind::Sideboard, row.card_id, row.card->0, row.copies) =~= part_of(
            d,
            l,
            m,
            k + 1,
        ));
    }
}

/// A deck with cards is read back from the rows in which it is kept as it was.
pub proof fn reading_undoes_keeping(d: DeckView)
    requires
        idmap::distinct(d.commanders),
        idmap::distinct(d.main_deck),
        idmap::distinct(d.sideboard),
        d.commanders.len() + d.main_deck.len() + d.sideboard.len() > 0,
    ensures
        urls::parsed_url(d.url) == Some(d.url) ==> assembled(kept_rows(d), kept_rows(d).len() as int) == Ok::<
            Option<DeckView>,
            DeckError,
        >(Some(d)),
{
    if urls::parsed_url(d.url) == Some(d.url) {
        assembled_part(d, kept_rows(d).len() as int);
        assert(part_of(
            d,
            d.commanders.len() as int,
            d.main_deck.len() as int,
            d.sideboard.len() as int,
        ) =~= d);
    }
}

/// The rows that a deck's cards give are those in which it is kept.
pub proof fn entries_are_kept(d: Deck)
    ensures
        ({
            let entries = cards::leader_entries(d.commanders@) + cards::pile_entries(
                d.main_deck@,
                PileKind::MainDeck,
            ) + cards::pile_entries(d.sideboard@, PileKind::Sideboard);
            let rows = kept_rows(d@);
            &&& entries.len() == rows.len()
            &&& forall|i: int|
                0 <= i < rows.len() ==> (#[trigger] rows[i]).card_id == entries[i].card.0.bits && rows[i].copies
                    == entries[i].copies && rows[i].pile == cards::pile_name(entries[i].pile)
        }),
{
    let l = d.commanders@;
    let m = d.main_deck@;
    let s = d.sideboard@;
    let entries = cards::leader_entries(l) + cards::pile_entries(m, PileKind::MainDeck) + cards::pile_entries(
        s,
        PileKind::Sideboard,
    );
    let rows = kept_rows(d@);
    assert forall|i: int| 0 <= i < rows.len() implies (#[trigger] rows[i]).card_id == entries[i].card.0.bits
        && rows[i].copies == entries[i].copies && rows[i].pile == cards::pile_name(entries[i].pile) by {
        if i < l.len() {
            assert(rows[i] == kept_leaders(d@)[i]);
            assert(entries[i] == cards::leader_entries(l)[i]);
            assert(d@.commanders[i] == (l[i].0, l[i].1@));
        } else if i < l.len() + m.len() {
            let k = i - l.len();
            assert(rows[i] == kept_pile(d@, d@.main_deck, PileKind::MainDeck)[k]);
            assert(entries[i] == cards::pile_entries(m, PileKind::MainDeck)[k]);
            assert(d@.main_deck[k] == (m[k].0, (m[k].1.0@, m[k].1.1 as int)));
        } else {
            let k = i - l.len() - m.len();
            assert(rows[i] == kept_pile(d@, d@.sideboard, PileKind::Sideboard)[k]);
            assert(entries[i] == cards::pile_entries(s, PileKind::Sideboard)[k]);
            assert(d@.sideboard[k] == (s[k].0, (s[k].1.0@, s[k].1.1 as int)));
        }
    }
}

/// The first row says what deck it is: the deck has its ID, its owner, its title, its URL and its JSON.
pub proof fn first_row_names_the_deck(rows: Seq<EntryView>, n: int)
    requires
        0 <= n <= rows.len(),
        assembled(rows, n) is Ok,
    ensures
        match assembled(rows, n)->Ok_0 {
            Some(d) => {
                &&& n > 0
                &&& d.id == rows[0].deck_id
                &&& d.user_id == rows[0].user_id
                &&& d.title == rows[0].deck_title
                &&& urls::parsed_url(rows[0].deck_url) == Some(d.url)
                &&& d.rendered_json == rows[0].deck_json
            },
            None => n == 0,
        },
    decreases n,
{
    if n > 0 {
        first_row_names_the_deck(rows, n - 1);
    }
}

/// Each row puts its card into its pile: the last row with a pile and an ID says what is there, and what no row
/// puts there is not there.
pub proof fn each_row_puts_its_card(rows: Seq<EntryView>, n: int, id: u128)
    requires
        0 < n <= rows.len(),
        assembled(rows, n) is Ok,
    ensures
        ({
            let d = assembled(rows, n)->Ok_0->0;
            &&& assembled(rows, n)->Ok_0 is Some
            &&& match last_row_with(rows, n, "commander"@, id) {
                Some(i) => idmap::lookup(d.commanders, id) == rows[i].card,
                None => idmap::lookup(d.commanders, id) is None,
            }
            &&& match last_row_with(rows, n, "main_deck"@, id) {
                Some(i) => idmap::lookup(d.main_deck, id) == Some((rows[i].card->0, rows[i].copies)),
                None => idmap::lookup(d.main_deck, id) is None,
            }
            &&& match last_row_with(rows, n, "sideboard"@, id) {
                Some(i) => idmap::lookup(d.sideboard, id) == Some((rows[i].card->0, rows[i].copies)),
                None => idmap::lookup(d.sideboard, id) is None,
            }
        }),
    decreases n,
{
    reveal_strlit("commander");
    reveal_strlit("main_deck");
    reveal_strlit("sideboard");
    assert("commander"@[0] == 'c' && "main_deck"@[0] == 'm' && "sideboard"@[0] == 's');
    let row = rows[n - 1];
    let before = assembled(rows, n - 1)->Ok_0;
    let deck = match before {
        Some(d) => d,
        None => bare_deck(row, urls::parsed_url(row.deck_url)->0),
    };
    if n > 1 {
        each_row_puts_its_card(rows, n - 1, id);
    } else {
        assert(last_row_with(rows, 0, "commander"@, id) is None);
        assert(last_row_with(rows, 0, "main_deck"@, id) is None);
        assert(last_row_with(rows, 0, "sideboard"@, id) is None);
    }
    idmap::lookup_after_put(deck.commanders, row.card_id, row.card->0, id);
    idmap::lookup_after_put(deck.main_deck, row.card_id, (row.card->0, row.copies), id);
    idmap::lookup_after_put(deck.sideboard, row.card_id, (row.card->0, row.copies), id);
}

/// The last of the first `n` rows with a pile and an ID.
pub open spec fn last_row_with(rows: Seq<EntryView>, n: int, pile: Seq<char>, id: u128) -> Option<int>
    decreases n,
{
    if n <= 0 {
        None
    } else if rows[n - 1].pile == pile && rows[n - 1].card_id == id {
        Some(n - 1)
    } else {
        last_row_with(rows, n - 1, pile, id)
    }
}

/// The last row with a pile and an ID has them, and no row behind it does.
pub proof fn last_row_is_last(rows: Seq<EntryView>, n: int, pile: Seq<char>, id: u128)
    requires
        0 <= n <= rows.len(),
    ensures
        match last_row_with(rows, n, pile, id) {
            Some(i) => {
                &&& 0 <= i < n
                &&& rows[i].pile == pile
                &&& rows[i].card_id == id
                &&& forall|j: int| i < j < n ==> !((#[trigger] rows[j]).pile == pile && rows[j].card_id == id)
            },
            None => forall|j: int| 0 <= j < n ==> !((#[trigger] rows[j]).pile == pile && rows[j].card_id == id),
        },
    decreases n,
{
    if n > 0 {
        last_row_is_last(rows, n - 1, pile, id);
    }
}

/// Rows make a deck exactly where each of them has a card and a known pile, and the first one has a URL.
pub proof fn good_rows_make_a_deck(rows: Seq<EntryView>, n: int)
    requires
        0 <= n <= rows.len(),
    ensures
        assembled(rows, n) is Ok <==> (n > 0 ==> urls::parsed_url(rows[0].deck_url) is Some) && forall|i: int|
            0 <= i < n ==> (#[trigger] rows[i]).card is Some && (rows[i].pile == "commander"@ || rows[i].pile
                == "main_deck"@ || rows[i].pile == "sideboard"@),
    decreases n,
{
    if n > 0 {
        good_rows_make_a_deck(rows, n - 1);
        if assembled(rows, n - 1) is Ok {
            first_row_names_the_deck(rows, n - 1);
        }
        let row = rows[n - 1];
        if assembled(rows, n) is Ok {
            assert forall|i: int| 0 <= i < n implies (#[trigger] rows[i]).card is Some && (rows[i].pile
                == "commander"@ || rows[i].pile == "main_deck"@ || rows[i].pile == "sideboard"@) by {
                if i == n - 1 {
                    assert(row.card is Some);
                }
            }
        }
    }
}

/// A row of the database can be read exactly where its card's JSON starts with a mark of one byte, its deck's
/// JSON is some or missing, and its number of copies is one of a byte.
pub proof fn good_rows_are_read(raw: RawDeckEntry)
    ensures
        row_problem(raw) is None <==> {
            &&& raw.card_json@.len() > 0
            &&& raw.card_json@[0] as u32 <= 0x7f
            &&& raw.deck_json is Some ==> json::parsed_json(raw.deck_json->0@) is Some
            &&& 0 <= raw.copies <= 255
        },
{
}

/// What is said of a deck whose list has not been read: its ID and its URL, and its title where it has one of its
/// own.
pub proof fn unparsed_decks_are_described(id: DeckId, title: Seq<char>, url: Seq<char>)
    ensures
        unparsed_text(id, Seq::empty(), url) == "unparsed deck "@ + uuids::hyphenated(id.0.bits as int)
            + " from URL "@ + url,
        unparsed_text(id, url, url) == unparsed_text(id, Seq::empty(), url),
        title.len() > 0 && title != url ==> unparsed_text(id, title, url) == "unparsed deck "@ + text::quoted_text(
            title,
        ) + " ("@ + uuids::hyphenated(id.0.bits as int) + ") from URL "@ + url,
{
}

/// A deck stands for all that it holds.
pub proof fn decks_stand_for_what_they_hold(d: Deck)
    ensures
        d@.id == d.id,
        d@.user_id == d.user_id,
        d@.title == d.title@,
        d@.url == d.url@,
        d@.commanders == cards::leader_cards(d.commanders@),
        d@.main_deck == cards::pile_cards(d.main_deck@),
        d@.sideboard == cards::pile_cards(d.sideboard@),
        d.rendered_json is None <==> d@.rendered_json is None,
        d.rendered_json matches Some(j) ==> d@.rendered_json == Some(j@),
{
}

/// A row stands for all that it holds; its card is the one that its JSON is.
pub proof fn rows_stand_for_what_they_hold(v: Seq<DeckEntryRow>, i: int)
    requires
        0 <= i < v.len(),
    ensures
        entry_views(v).len() == v.len(),
        ({
            let r = v[i];
            let e = entry_views(v)[i];
            &&& e.deck_id == r.deck_id && e.user_id == r.user_id
            &&& e.deck_title == r.deck_title@ && e.deck_url == r.deck_url@
            &&& e.card_id == r.card_id.0.bits && e.copies == r.copies && e.pile == r.pile@
            &&& r.deck_json is None <==> e.deck_json is None
            &&& r.deck_json matches Some(j) ==> e.deck_json == Some(j@)
            &&& match json::parsed_json(r.card_row.json@) {
                Some(j) => e.card is Some && e.card->0.json == j && e.card->0.updated_at == r.card_row.updated_at,
                None => e.card is None,
            }
        }),
{
}

/// A deck's JSON is what its text is, where it has one.
pub proof fn stored_json_is_read(s: String)
    ensures
        stored_json(Some(s)) == json::parsed_json(s@),
        stored_json(None) is None,
{
}

/// What is wrong with a row that cannot be read, the first of three things: its card's JSON has no mark, its deck's
/// JSON is none, or its number of copies is none of a byte.
pub proof fn bad_rows_are_reported(raw: RawDeckEntry)
    ensures
        raw.card_json@.len() == 0 ==> row_problem(raw) == Some(DeckError::NoMark),
        raw.card_json@.len() > 0 && raw.card_json@[0] as u32 <= 0x7f ==> {
            &&& raw.deck_json is Some && json::parsed_json(raw.deck_json->0@) is None ==> row_problem(raw) == Some(
                DeckError::BadDeckJson,
            )
            &&& raw.deck_json is None && !(0 <= raw.copies <= 255) ==> row_problem(raw) == Some(
                DeckError::BadCopies(raw.copies),
            )
        },
{
}

/// The first row that makes no deck says why: its card is none, its pile is unknown, or, in the first row, its URL
/// is none.
pub proof fn bad_row_is_reported(rows: Seq<EntryView>, i: int, n: int)
    requires
        0 <= i < n <= rows.len(),
        assembled(rows, i) is Ok,
    ensures
        rows[i].card is None ==> assembled(rows, n) == Err::<Option<DeckView>, DeckError>(
            DeckError::BadCard(CardError::BadJson),
        ),
        i == 0 && rows[i].card is Some && urls::parsed_url(rows[i].deck_url) is None ==> assembled(rows, n) == Err::<
            Option<DeckView>,
            DeckError,
        >(DeckError::BadUrl),
        rows[i].card is Some && urls::parsed_url(rows[0].deck_url) is Some && rows[i].pile != "commander"@ && rows[i].pile
            != "main_deck"@ && rows[i].pile != "sideboard"@ ==> assembled(rows, n) == Err::<
            Option<DeckView>,
            DeckError,
        >(DeckError::UnknownPile(i as usize)),
{
    first_row_names_the_deck(rows, i);
    if assembled(rows, i + 1) is Err {
        assembled_stays_wrong(rows, i + 1, n);
    }
}

} // verus!
