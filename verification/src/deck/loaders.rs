//! The sites from which decks are loaded.
use crate::decimal;
use crate::html;
use crate::html::{HtmlRow, RowView};
use crate::idmap;
use crate::idmap::IdMap;
use crate::json::JsonView;
use crate::scryfall::{id_field, CardError, Field, ScryfallCard, ScryfallCardRow, ScryfallOracleId};
use crate::text;
use crate::urls;
use crate::urls::{Url, UrlError};
use crate::uuids::Uuid;
use vstd::prelude::*;

verus! {

/// Why a deck could not be loaded.
#[derive(Clone, Copy, Debug, PartialEq, Eq, Structural)]
pub enum LoadError {
    /// The page shows no title.
    NoTitle,
    /// The page shows an empty title.
    EmptyTitle,
    /// The page cannot be searched.
    BadPage,
    /// The card with this ID has no name.
    NoCardName(u64),
    /// The site gave the deck with this ID instead of the one that was asked for.
    WrongDeck { got: u64, expected: u64 },
}

/// What stands behind the first folder of a URL's path, where that folder is a given one.
pub open spec fn behind_folder(url: Seq<char>, folder: Seq<char>) -> Option<Seq<char>> {
    match urls::url_path_segments(url) {
        Some(s) => if s.len() >= 2 && s[0] == folder {
            Some(s[1])
        } else {
            None
        },
        None => None,
    }
}

fn segment_behind(url: &Url, folder: &str) -> (r: Option<String>)
    ensures
        urls::opt_text(r) == behind_folder(url@, folder@),
{
    match url.path_segments() {
        Some(s) => {
            let ghost all = text::texts(s@);
            assert(all.len() == s@.len());
            if s.len() >= 2 && text::same_text(s[0].as_str(), folder) {
                assert(all[0] == s@[0]@ && all[1] == s@[1]@);
                Some(s[1].clone())
            } else {
                if s.len() >= 2 {
                    assert(all[0] == s@[0]@);
                }
                None
            }
        },
        None => None,
    }
}

fn is_domain(url: &Url, domain: &str) -> (r: bool)
    ensures
        r == (urls::url_domain(url@) == Some(domain@)),
{
    match url.domain() {
        Some(d) => text::same_text(d.as_str(), domain),
        None => false,
    }
}

/// Recognises the URLs of a site's decks.
pub trait DeckMatcher: Sized {
    fn match_url(url: &Url) -> (r: Option<Self>);
}

/// Knows where a deck is listed.
pub trait DeckParser {
    fn name(&self) -> (r: &'static str);

    fn canonical_deck_url(&self) -> (r: Result<Url, UrlError>);
}

/// Recognises the URLs of a site's decks, and knows where they are listed.
pub trait DeckLoader: DeckMatcher + DeckParser {

}

impl<T: DeckMatcher + DeckParser> DeckLoader for T {

}

/// A deck of deckbox.org.
#[derive(Clone, Copy, Debug, PartialEq, Eq, Structural)]
pub struct DeckboxLoader {
    pub id: u32,
}

/// The ID of the Deckbox deck at a URL.
pub open spec fn deckbox_id(url: Seq<char>) -> Option<int> {
    if urls::url_domain(url) == Some("deckbox.org"@) {
        match behind_folder(url, "sets"@) {
            Some(s) => decimal::parsed_number(s, u32::MAX as int),
            None => None,
        }
    } else {
        None
    }
}

/// The canonical URL of a Deckbox deck.
pub open spec fn deckbox_url(id: int) -> Option<Seq<char>> {
    match urls::parsed_url("https://deckbox.org/"@) {
        Some(base) => urls::url_extended(base, seq!["sets"@, decimal::decimal(id as nat), ""@]),
        None => None,
    }
}

impl DeckMatcher for DeckboxLoader {
    fn match_url(url: &Url) -> (r: Option<DeckboxLoader>)
        ensures
            match r {
                Some(l) => deckbox_id(url@) == Some(l.id as int),
                None => deckbox_id(url@) is None,
            },
    {
        if !is_domain(url, "deckbox.org") {
            return None;
        }
        match segment_behind(url, "sets") {
            Some(raw_id) => match decimal::parse_number(raw_id.as_str(), 0xffff_ffff) {
                Some(id) => Some(DeckboxLoader { id: id as u32 }),
                None => None,
            },
            None => None,
        }
    }
}

impl DeckParser for DeckboxLoader {
    fn name(&self) -> (r: &'static str)
        ensures
            r@ == "Deckbox"@,
    {
        "Deckbox"
    }

    fn canonical_deck_url(&self) -> (r: Result<Url, UrlError>)
        ensures
            urls::is_outcome(r, deckbox_url(self.id as int)),
    {
        let mut segments: Vec<String> = Vec::new();
        segments.push("sets".to_string());
        segments.push(decimal::to_decimal(self.id as u64));
        segments.push("".to_string());
        assert(text::texts(segments@) =~= seq!["sets"@, decimal::decimal(self.id as nat), ""@]);
        match Url::parse("https://deckbox.org/") {
            Ok(url) => url.extended(&segments),
            Err(e) => Err(e),
        }
    }
}

/// A card in a list, with its number of copies.
#[derive(Debug)]
pub struct ListedCard {
    pub name: String,
    pub count: u8,
}

/// What a listed card stands for.
pub struct ListedView {
    pub name: Seq<char>,
    pub count: int,
}

impl View for ListedCard {
    type V = ListedView;

    open spec fn view(&self) -> ListedView {
        ListedView { name: self.name@, count: self.count as int }
    }
}

/// The views of a vector of listed cards.
pub open spec fn listed(v: Seq<ListedCard>) -> Seq<ListedView> {
    v.map_values(|c: ListedCard| c@)
}

/// The number of copies that a cell shows; none where it shows no number.
pub open spec fn shown_count(cell: Option<Seq<char>>) -> int {
    match cell {
        Some(s) => match decimal::parsed_number(text::trim_text(s), u8::MAX as int) {
            Some(n) => n,
            None => 0,
        },
        None => 0,
    }
}

/// The card in a row: a row without a number for its ID holds none.
pub open spec fn row_card(row: RowView) -> Result<Option<ListedView>, LoadError> {
    match row.id {
        None => Ok(None),
        Some(id) => match decimal::parsed_number(id, u64::MAX as int) {
            None => Ok(None),
            Some(n) => match row.name {
                None => Err(LoadError::NoCardName(n as u64)),
                Some(name) => Ok(
                    Some(ListedView { name: text::trim_text(name), count: shown_count(row.count) }),
                ),
            },
        },
    }
}

/// The cards in some rows.
pub open spec fn row_cards(rows: Seq<RowView>) -> Result<Seq<ListedView>, LoadError>
    decreases rows.len(),
{
    if rows.len() == 0 {
        Ok(Seq::empty())
    } else {
        match row_cards(rows.drop_last()) {
            Err(e) => Err(e),
            Ok(before) => match row_card(rows.last()) {
                Err(e) => Err(e),
                Ok(None) => Ok(before),
                Ok(Some(c)) => Ok(before.push(c)),
            },
        }
    }
}

fn read_row(row: &HtmlRow) -> (r: Result<Option<ListedCard>, LoadError>)
    ensures
        match r {
            Ok(Some(c)) => row_card(row@) == Ok::<Option<ListedView>, LoadError>(Some(c@)),
            Ok(None) => row_card(row@) == Ok::<Option<ListedView>, LoadError>(None),
            Err(e) => row_card(row@) == Err::<Option<ListedView>, LoadError>(e),
        },
{
    let card_id: u64 = match &row.id {
        None => {
            return Ok(None);
        },
        Some(id) => match decimal::parse_number(id.as_str(), u64::MAX) {
            None => {
                return Ok(None);
            },
            Some(n) => n,
        },
    };
    let name = match &row.name {
        None => {
            return Err(LoadError::NoCardName(card_id));
        },
        Some(name) => text::trim(name.as_str()),
    };
    let count: u8 = match &row.count {
        None => 0,
        Some(cell) => match decimal::parse_number(text::trim(cell.as_str()).as_str(), 255) {
            Some(n) => n as u8,
            None => 0,
        },
    };
    Ok(Some(ListedCard { name, count }))
}

/// A problem in some rows stays one with more rows.
proof fn row_cards_stay_wrong(rows: Seq<RowView>, n: int)
    requires
        0 <= n <= rows.len(),
        row_cards(rows.take(n)) is Err,
    ensures
        row_cards(rows) == row_cards(rows.take(n)),
    decreases rows.len() - n,
{
    if n == rows.len() {
        assert(rows.take(n) =~= rows);
    } else {
        assert(rows.take(n + 1).drop_last() =~= rows.take(n));
        row_cards_stay_wrong(rows, n + 1);
    }
}

/// The cards in some rows.
pub fn read_rows(rows: &Vec<HtmlRow>) -> (r: Result<Vec<ListedCard>, LoadError>)
    ensures
        match r {
            Ok(v) => row_cards(html::row_views(rows@)) == Ok::<Seq<ListedView>, LoadError>(listed(v@)),
            Err(e) => row_cards(html::row_views(rows@)) == Err::<Seq<ListedView>, LoadError>(e),
        },
{
    let ghost all = html::row_views(rows@);
    let mut cards: Vec<ListedCard> = Vec::new();
    let mut i: usize = 0;
    assert(all.take(0) =~= Seq::empty());
    assert(listed(cards@) =~= Seq::empty());
    while i < rows.len()
        invariant
            i <= rows@.len(),
            all == html::row_views(rows@),
            row_cards(all.take(i as int)) == Ok::<Seq<ListedView>, LoadError>(listed(cards@)),
        decreases rows.len() - i,
    {
        let ghost before = cards@;
        proof {
            assert(all.take(i + 1).drop_last() =~= all.take(i as int));
            assert(all.take(i + 1).last() == rows@[i as int]@);
            if row_cards(all.take(i + 1)) is Err {
                row_cards_stay_wrong(all, i + 1);
            }
        }
        match read_row(&rows[i]) {
            Err(e) => {
                return Err(e);
            },
            Ok(None) => {},
            Ok(Some(c)) => {
                cards.push(c);
                assert(listed(cards@) =~= listed(before).push(c@));
            },
        }
        i = i + 1;
    }
    assert(all.take(i as int) =~= all);
    Ok(cards)
}

/// What a Deckbox page shows: the deck's title, its main deck and its sideboard.
#[derive(Debug)]
pub struct DeckboxPage {
    pub title: String,
    pub main_deck: Vec<ListedCard>,
    pub sideboard: Vec<ListedCard>,
}

/// The rows of the main deck or the sideboard on a Deckbox page.
pub open spec fn deckbox_rows(page: Seq<char>, table: Seq<char>) -> Option<Seq<RowView>> {
    html::html_rows(page, table, "id"@, "td.card_name"@, "td.card_count"@)
}

/// What stands for the title of a Deckbox deck.
pub open spec fn deckbox_title(page: Seq<char>) -> Option<Seq<char>> {
    html::html_first_text(page, ".page_header > .section_title > span"@)
}

/// What a Deckbox page says, from the text of its title and the rows of its two tables: whatever is wrong
/// first is what is wrong with it.
pub open spec fn is_deckbox_page(
    r: Result<DeckboxPage, LoadError>,
    title: Option<Seq<char>>,
    main_rows: Option<Seq<RowView>>,
    side_rows: Option<Seq<RowView>>,
) -> bool {
    match title {
        None => r == Err::<DeckboxPage, LoadError>(LoadError::NoTitle),
        Some(t) => if text::trim_text(t).len() == 0 {
            r == Err::<DeckboxPage, LoadError>(LoadError::EmptyTitle)
        } else if main_rows is None || side_rows is None {
            r == Err::<DeckboxPage, LoadError>(LoadError::BadPage)
        } else {
            match row_cards(main_rows->0) {
                Err(e) => r == Err::<DeckboxPage, LoadError>(e),
                Ok(main_deck) => match row_cards(side_rows->0) {
                    Err(e) => r == Err::<DeckboxPage, LoadError>(e),
                    Ok(sideboard) => {
                        &&& r is Ok
                        &&& r->Ok_0.title@ == text::trim_text(t)
                        &&& listed(r->Ok_0.main_deck@) == main_deck
                        &&& listed(r->Ok_0.sideboard@) == sideboard
                    },
                },
            }
        },
    }
}

/// Reads what was found on a Deckbox page.
pub fn read_deckbox(
    title: Option<String>,
    main_rows: Option<Vec<HtmlRow>>,
    side_rows: Option<Vec<HtmlRow>>,
) -> (r: Result<DeckboxPage, LoadError>)
    ensures
        is_deckbox_page(
            r,
            urls::opt_text(title),
            match main_rows {
                Some(v) => Some(html::row_views(v@)),
                None => None,
            },
            match side_rows {
                Some(v) => Some(html::row_views(v@)),
                None => None,
            },
        ),
{
    let title = match title {
        None => {
            return Err(LoadError::NoTitle);
        },
        Some(t) => text::trim(t.as_str()),
    };
    if text::to_chars(title.as_str()).len() == 0 {
        return Err(LoadError::EmptyTitle);
    }
    match (main_rows, side_rows) {
        (Some(main_rows), Some(side_rows)) => {
            let main_deck = match read_rows(&main_rows) {
                Ok(v) => v,
                Err(e) => {
                    return Err(e);
                },
            };
            let sideboard = match read_rows(&side_rows) {
                Ok(v) => v,
                Err(e) => {
                    return Err(e);
                },
            };
            Ok(DeckboxPage { title, main_deck, sideboard })
        },
        _ => Err(LoadError::BadPage),
    }
}

impl DeckboxLoader {
    /// The URL from which the deck's page is fetched.
    pub fn page_url(&self) -> (r: String)
        ensures
            r@ == "https://deckbox.org/sets/"@ + decimal::decimal(self.id as nat),
    {
        text::concat2("https://deckbox.org/sets/", decimal::to_decimal(self.id as u64).as_str())
    }

    /// Reads the deck's page.
    pub fn parse_page(page: &str) -> (r: Result<DeckboxPage, LoadError>)
        ensures
            is_deckbox_page(
                r,
                deckbox_title(page@),
                deckbox_rows(page@, "table.set_cards.main tr[id]"@),
                deckbox_rows(page@, "table.set_cards.sideboard tr[id]"@),
            ),
    {
        let title = html::first_text(page, ".page_header > .section_title > span");
        let main_rows = html::find_rows(
            page,
            "table.set_cards.main tr[id]",
            "id",
            "td.card_name",
            "td.card_count",
        );
        let side_rows = html::find_rows(
            page,
            "table.set_cards.sideboard tr[id]",
            "id",
            "td.card_name",
            "td.card_count",
        );
        read_deckbox(title, main_rows, side_rows)
    }
}

/// Cards by their oracle IDs, with their names and numbers of copies.
pub type CardList = IdMap<(String, u8)>;

/// Puts a listed card into a list; the last one with an oracle ID stays.
pub fn add_listed(list: &mut CardList, oracle_id: ScryfallOracleId, card: ListedCard)
    requires
        old(list).wf(),
    ensures
        final(list).wf(),
        final(list)@ == idmap::put(old(list)@, oracle_id.0.bits, (card.name, card.count)),
{
    list.insert(oracle_id.0.bits, (card.name, card.count));
}

/// A deck of tappedout.net.
#[derive(Debug)]
pub struct TappedOutLoader {
    pub slug: String,
}

/// The slug of the TappedOut deck at a URL.
pub open spec fn tappedout_slug(url: Seq<char>) -> Option<Seq<char>> {
    if urls::url_domain(url) == Some("tappedout.net"@) {
        behind_folder(url, "mtg-decks"@)
    } else {
        None
    }
}

/// The canonical URL of a TappedOut deck.
pub open spec fn tappedout_url(slug: Seq<char>) -> Option<Seq<char>> {
    match urls::parsed_url("https://tappedout.net/"@) {
        Some(base) => urls::url_extended(base, seq!["mtg-decks"@, slug, ""@]),
        None => None,
    }
}

impl DeckMatcher for TappedOutLoader {
    fn match_url(url: &Url) -> (r: Option<TappedOutLoader>)
        ensures
            match r {
                Some(l) => tappedout_slug(url@) == Some(l.slug@),
                None => tappedout_slug(url@) is None,
            },
    {
        if !is_domain(url, "tappedout.net") {
            return None;
        }
        match segment_behind(url, "mtg-decks") {
            Some(slug) => Some(TappedOutLoader { slug }),
            None => None,
        }
    }
}

impl DeckParser for TappedOutLoader {
    fn name(&self) -> (r: &'static str)
        ensures
            r@ == "TappedOut"@,
    {
        "TappedOut"
    }

    fn canonical_deck_url(&self) -> (r: Result<Url, UrlError>)
        ensures
            urls::is_outcome(r, tappedout_url(self.slug@)),
    {
        let mut segments: Vec<String> = Vec::new();
        segments.push("mtg-decks".to_string());
        segments.push(self.slug.clone());
        segments.push("".to_string());
        assert(text::texts(segments@) =~= seq!["mtg-decks"@, self.slug@, ""@]);
        match Url::parse("https://tappedout.net/") {
            Ok(url) => url.extended(&segments),
            Err(e) => Err(e),
        }
    }
}

impl TappedOutLoader {
    /// The URL from which the deck's page is fetched.
    pub fn page_url(&self) -> (r: String)
        ensures
            r@ == "https://tappedout.net/mtg-decks/"@ + self.slug@ + "/"@,
    {
        text::concat3("https://tappedout.net/mtg-decks/", self.slug.as_str(), "/")
    }

    /// The URL from which the deck's list is fetched.
    pub fn csv_url(&self) -> (r: String)
        ensures
            r@ == "https://tappedout.net/mtg-decks/"@ + self.slug@ + "/"@ + "?fmt=csv"@,
    {
        text::concat2(self.page_url().as_str(), "?fmt=csv")
    }

    /// The deck's title, from the text that was found for it.
    pub fn read_title(found: Option<String>) -> (r: Result<String, LoadError>)
        ensures
            match found {
                Some(t) => r is Ok && r->Ok_0@ == text::trim_text(t@),
                None => r == Err::<String, LoadError>(LoadError::NoTitle),
            },
    {
        match found {
            Some(t) => Ok(text::trim(t.as_str())),
            None => Err(LoadError::NoTitle),
        }
    }

    /// The deck's title on its page.
    pub fn parse_title(page: &str) -> (r: Result<String, LoadError>)
        ensures
            match html::html_first_text(page@, ".well.well-jumbotron h2"@) {
                Some(t) => r is Ok && r->Ok_0@ == text::trim_text(t),
                None => r == Err::<String, LoadError>(LoadError::NoTitle),
            },
    {
        TappedOutLoader::read_title(html::first_text(page, ".well.well-jumbotron h2"))
    }
}

/// A row of TappedOut's list.
#[derive(Debug)]
pub struct TappedOutRow {
    pub board: String,
    pub count: u8,
    pub name: String,
    pub commander_col: String,
}

/// The name of a card as Scryfall writes it: two slashes stand between the names of its faces.
pub open spec fn canonical_name(name: Seq<char>) -> Seq<char> {
    text::replace_text(name, " / "@, " // "@)
}

/// The lists of a deck's cards.
#[derive(Debug)]
pub struct CardLists {
    pub commanders: IdMap<String>,
    pub main_deck: CardList,
    pub sideboard: CardList,
}

impl CardLists {
    /// Whether no oracle ID stands twice in a list.
    pub open spec fn wf(&self) -> bool {
        self.commanders.wf() && self.main_deck.wf() && self.sideboard.wf()
    }

    /// Empty lists.
    pub fn new() -> (r: CardLists)
        ensures
            r.wf(),
            r.commanders@.len() == 0,
            r.main_deck@.len() == 0,
            r.sideboard@.len() == 0,
    {
        CardLists { commanders: IdMap::new(), main_deck: IdMap::new(), sideboard: IdMap::new() }
    }
}

/// How many copies of a card a list has.
pub open spec fn copies_in(list: Seq<(u128, (String, u8))>, id: u128) -> int {
    match idmap::lookup(list, id) {
        Some(e) => e.1 as int,
        None => 0,
    }
}

/// Whether a list has some more copies of a card, and is the same in every other way; a new card stands
/// there under a name.
pub open spec fn has_more(
    before: Seq<(u128, (String, u8))>,
    after: Seq<(u128, (String, u8))>,
    id: u128,
    name: Seq<char>,
    count: int,
) -> bool {
    let e = idmap::lookup(after, id);
    &&& e is Some
    &&& (e->0).1 == copies_in(before, id) + count
    &&& (e->0).0@ == match idmap::lookup(before, id) {
        Some(old_entry) => old_entry.0@,
        None => name,
    }
    &&& after == idmap::put(before, id, e->0)
}

fn add_copies(list: &mut CardList, id: u128, name: String, count: u8)
    requires
        old(list).wf(),
        copies_in(old(list)@, id) + count <= u8::MAX,
    ensures
        final(list).wf(),
        has_more(old(list)@, final(list)@, id, name@, count as int),
{
    let entry = match list.get(id) {
        Some(e) => (e.0.clone(), e.1 + count),
        None => (name, count),
    };
    proof {
        idmap::lookup_after_put(list@, id, entry, id);
    }
    list.insert(id, entry);
}

/// Whether a row's copies can be added to the lists without a count becoming too large. The copies of a
/// commander are not counted.
pub open spec fn row_fits(lists: CardLists, row: TappedOutRow, id: u128) -> bool {
    row.commander_col@ != "True"@ ==> {
        &&& row.board@ == "main"@ ==> copies_in(lists.main_deck@, id) + row.count <= u8::MAX
        &&& row.board@ == "side"@ ==> copies_in(lists.sideboard@, id) + row.count <= u8::MAX
    }
}

impl TappedOutRow {
    /// The name under which the row's card is looked up.
    pub fn lookup_name(&self) -> (r: String)
        ensures
            r@ == canonical_name(self.name@),
    {
        proof {
            reveal_strlit(" / ");
        }
        text::replace(self.name.as_str(), " / ", " // ")
    }

    /// Whether the row's copies can be added to the lists without a count becoming too large.
    pub fn fits(&self, lists: &CardLists, oracle_id: ScryfallOracleId) -> (r: bool)
        ensures
            r == row_fits(*lists, *self, oracle_id.0.bits),
    {
        if text::same_text(self.commander_col.as_str(), "True") {
            return true;
        }
        let list = if text::same_text(self.board.as_str(), "main") {
            &lists.main_deck
        } else if text::same_text(self.board.as_str(), "side") {
            &lists.sideboard
        } else {
            proof {
                boards_differ();
            }
            return true;
        };
        proof {
            boards_differ();
        }
        match list.get(oracle_id.0.bits) {
            Some(e) => e.1 <= 255 - self.count,
            None => true,
        }
    }

    /// Puts the row's card into the list to which it belongs: a commander among the commanders, a card of the
    /// main board or the sideboard there, and any other card nowhere.
    pub fn add_to(self, lists: &mut CardLists, oracle_id: ScryfallOracleId)
        requires
            old(lists).wf(),
            row_fits(*old(lists), self, oracle_id.0.bits),
        ensures
            final(lists).wf(),
            ({
                let id = oracle_id.0.bits;
                let name = canonical_name(self.name@);
                if self.commander_col@ == "True"@ {
                    &&& exists|n: String|
                        n@ == name && final(lists).commanders@ == #[trigger] idmap::put(
                            old(lists).commanders@,
                            id,
                            n,
                        )
                    &&& final(lists).main_deck@ == old(lists).main_deck@
                    &&& final(lists).sideboard@ == old(lists).sideboard@
                } else if self.board@ == "main"@ {
                    &&& has_more(
                        old(lists).main_deck@,
                        final(lists).main_deck@,
                        id,
                        name,
                        self.count as int,
                    )
                    &&& final(lists).commanders@ == old(lists).commanders@
                    &&& final(lists).sideboard@ == old(lists).sideboard@
                } else if self.board@ == "side"@ {
                    &&& has_more(
                        old(lists).sideboard@,
                        final(lists).sideboard@,
                        id,
                        name,
                        self.count as int,
                    )
                    &&& final(lists).commanders@ == old(lists).commanders@
                    &&& final(lists).main_deck@ == old(lists).main_deck@
                } else {
                    *final(lists) == *old(lists)
                }
            }),
    {
        let name = self.lookup_name();
        let id: u128 = oracle_id.0.bits;
        if text::same_text(self.commander_col.as_str(), "True") {
            lists.commanders.insert(id, name);
        } else if text::same_text(self.board.as_str(), "main") {
            add_copies(&mut lists.main_deck, id, name, self.count);
        } else if text::same_text(self.board.as_str(), "side") {
            add_copies(&mut lists.sideboard, id, name, self.count);
        }
    }
}

proof fn boards_differ()
    ensures
        "main"@ != "side"@,
{
    reveal_strlit("main");
    reveal_strlit("side");
    assert("main"@[0] != "side"@[0]);
}

/// A deck of archidekt.com.
#[derive(Clone, Copy, Debug, PartialEq, Eq, Structural)]
pub struct ArchidektLoader {
    pub id: u64,
}

/// The ID of the Archidekt deck at a URL.
pub open spec fn archidekt_id(url: Seq<char>) -> Option<int> {
    let domain = urls::url_domain(url);
    if domain == Some("archidekt.com"@) || domain == Some("www.archidekt.com"@) {
        match behind_folder(url, "decks"@) {
            Some(s) => decimal::parsed_number(s, u64::MAX as int),
            None => None,
        }
    } else {
        None
    }
}

impl DeckMatcher for ArchidektLoader {
    fn match_url(url: &Url) -> (r: Option<ArchidektLoader>)
        ensures
            match r {
                Some(l) => archidekt_id(url@) == Some(l.id as int),
                None => archidekt_id(url@) is None,
            },
    {
        if !is_domain(url, "archidekt.com") && !is_domain(url, "www.archidekt.com") {
            return None;
        }
        match segment_behind(url, "decks") {
            Some(raw_id) => match decimal::parse_number(raw_id.as_str(), u64::MAX) {
                Some(id) => Some(ArchidektLoader { id }),
                None => None,
            },
            None => None,
        }
    }
}

impl DeckParser for ArchidektLoader {
    fn name(&self) -> (r: &'static str)
        ensures
            r@ == "Archidekt"@,
    {
        "Archidekt"
    }

    fn canonical_deck_url(&self) -> (r: Result<Url, UrlError>)
        ensures
            urls::is_outcome(
                r,
                urls::parsed_url("https://archidekt.com/decks/"@ + decimal::decimal(self.id as nat)),
            ),
    {
        Url::parse(
            text::concat2("https://archidekt.com/decks/", decimal::to_decimal(self.id).as_str()).as_str(),
        )
    }
}

impl ArchidektLoader {
    /// The URL from which the deck is fetched.
    pub fn json_url(&self) -> (r: String)
        ensures
            r@ == "https://archidekt.com/api/decks/"@ + decimal::decimal(self.id as nat) + "/small/"@,
    {
        text::concat3("https://archidekt.com/api/decks/", decimal::to_decimal(self.id).as_str(), "/small/")
    }

    /// Checks that the site gave the deck that was asked for.
    pub fn check_id(&self, got: u64) -> (r: Result<(), LoadError>)
        ensures
            r == if got == self.id {
                Ok::<(), LoadError>(())
            } else {
                Err::<(), LoadError>(LoadError::WrongDeck { got, expected: self.id })
            },
    {
        if got == self.id {
            Ok(())
        } else {
            Err(LoadError::WrongDeck { got, expected: self.id })
        }
    }
}

/// How the oracle ID of a card in an Archidekt deck is found.
#[derive(Clone, Copy, Debug, PartialEq, Eq, Structural)]
pub enum OracleLookup {
    /// The card is known, and this is its oracle ID.
    Known(ScryfallOracleId),
    /// The card is not known by its ID: it is looked up by its name.
    ByName,
    /// The card is known, but has no oracle ID.
    Failed(CardError),
}

/// How the oracle ID of a card in an Archidekt deck is found, from what the database has under the card's ID.
pub open spec fn oracle_lookup(row: Option<ScryfallCardRow>) -> OracleLookup {
    match row {
        None => OracleLookup::ByName,
        Some(row) => match crate::scryfall::row_card(row) {
            None => OracleLookup::ByName,
            Some(card) => match id_field(card.json, Field::OracleId) {
                Ok(id) => OracleLookup::Known(ScryfallOracleId(Uuid { bits: id })),
                Err(e) => OracleLookup::Failed(e),
            },
        },
    }
}

/// How the oracle ID of a card in an Archidekt deck is found, from what the database has under the card's ID.
pub fn find_oracle_id(row: Option<ScryfallCardRow>) -> (r: OracleLookup)
    ensures
        r == oracle_lookup(row),
{
    match row {
        None => OracleLookup::ByName,
        Some(row) => match ScryfallCard::from_row(row) {
            Err(_) => OracleLookup::ByName,
            Ok(card) => match card.oracle_id() {
                Ok(id) => OracleLookup::Known(id),
                Err(e) => OracleLookup::Failed(e),
            },
        },
    }
}

/// A category of an Archidekt deck.
#[derive(Debug)]
pub struct ArchidektCategory {
    pub name: String,
    pub included_in_deck: bool,
}

/// Whether the cards of a category belong to the deck: the last category with a name decides, and one that
/// the deck does not have says nothing.
pub open spec fn category_included(categories: Seq<ArchidektCategory>, name: Seq<char>) -> Option<bool>
    decreases categories.len(),
{
    if categories.len() == 0 {
        None
    } else if categories.last().name@ == name {
        Some(categories.last().included_in_deck)
    } else {
        category_included(categories.drop_last(), name)
    }
}

fn find_category(categories: &Vec<ArchidektCategory>, name: &str) -> (r: Option<bool>)
    ensures
        r == category_included(categories@, name@),
{
    let ghost all = categories@;
    let mut n: usize = categories.len();
    assert(all.take(n as int) =~= all);
    while n > 0
        invariant
            n <= categories@.len(),
            all == categories@,
            category_included(all, name@) == category_included(all.take(n as int), name@),
        decreases n,
    {
        assert(all.take(n as int).last() == all[n - 1]);
        assert(all.take(n as int).drop_last() =~= all.take(n - 1));
        if text::same_text(categories[n - 1].name.as_str(), name) {
            return Some(categories[n - 1].included_in_deck);
        }
        n = n - 1;
    }
    None
}

/// A card of an Archidekt deck.
#[derive(Debug)]
pub struct ArchidektCard {
    pub name: String,
    pub quantity: u8,
    pub categories: Vec<String>,
}

/// Whether a card leads the deck: one of its categories says so.
pub open spec fn leads(card: ArchidektCard) -> bool {
    exists|i: int| 0 <= i < card.categories@.len() && (#[trigger] card.categories@[i])@ == "Commander"@
}

/// Whether a card is no part of the deck: one of its categories is not.
pub open spec fn left_out(card: ArchidektCard, categories: Seq<ArchidektCategory>) -> bool {
    exists|i: int|
        0 <= i < card.categories@.len() && category_included(categories, (#[trigger] card.categories@[i])@) == Some(
            false,
        )
}

impl ArchidektCard {
    fn is_commander(&self) -> (r: bool)
        ensures
            r == leads(*self),
    {
        let mut i: usize = 0;
        while i < self.categories.len()
            invariant
                i <= self.categories@.len(),
                forall|j: int| 0 <= j < i ==> (#[trigger] self.categories@[j])@ != "Commander"@,
            decreases self.categories.len() - i,
        {
            if text::same_text(self.categories[i].as_str(), "Commander") {
                return true;
            }
            i = i + 1;
        }
        false
    }

    fn is_sideboard(&self, categories: &Vec<ArchidektCategory>) -> (r: bool)
        ensures
            r == left_out(*self, categories@),
    {
        let mut i: usize = 0;
        while i < self.categories.len()
            invariant
                i <= self.categories@.len(),
                forall|j: int|
                    0 <= j < i ==> category_included(categories@, (#[trigger] self.categories@[j])@) != Some(
                        false,
                    ),
            decreases self.categories.len() - i,
        {
            let ghost seen = self.categories@[i as int];
            if let Some(included) = find_category(categories, self.categories[i].as_str()) {
                if !included {
                    return true;
                }
            }
            i = i + 1;
        }
        false
    }

    /// Puts the card into the list to which it belongs. The last card with an oracle ID stays.
    pub fn add_to(self, lists: &mut CardLists, categories: &Vec<ArchidektCategory>, oracle_id: ScryfallOracleId)
        requires
            old(lists).wf(),
        ensures
            final(lists).wf(),
            ({
                let id = oracle_id.0.bits;
                if leads(self) {
                    &&& final(lists).commanders@ == idmap::put(old(lists).commanders@, id, self.name)
                    &&& final(lists).main_deck@ == old(lists).main_deck@
                    &&& final(lists).sideboard@ == old(lists).sideboard@
                } else if left_out(self, categories@) {
                    &&& final(lists).sideboard@ == idmap::put(
                        old(lists).sideboard@,
                        id,
                        (self.name, self.quantity),
                    )
                    &&& final(lists).commanders@ == old(lists).commanders@
                    &&& final(lists).main_deck@ == old(lists).main_deck@
                } else {
                    &&& final(lists).main_deck@ == idmap::put(
                        old(lists).main_deck@,
                        id,
                        (self.name, self.quantity),
                    )
                    &&& final(lists).commanders@ == old(lists).commanders@
                    &&& final(lists).sideboard@ == old(lists).sideboard@
                }
            }),
    {
        let id: u128 = oracle_id.0.bits;
        if self.is_commander() {
            lists.commanders.insert(id, self.name);
        } else if self.is_sideboard(categories) {
            lists.sideboard.insert(id, (self.name, self.quantity));
        } else {
            lists.main_deck.insert(id, (self.name, self.quantity));
        }
    }
}

/// A deck of one of the sites.
#[derive(Debug)]
pub enum Loader {
    Deckbox(DeckboxLoader),
    TappedOut(TappedOutLoader),
    Archidekt(ArchidektLoader),
}

/// The canonical URL of a deck.
pub open spec fn canonical_url(l: Loader) -> Option<Seq<char>> {
    match l {
        Loader::Deckbox(d) => deckbox_url(d.id as int),
        Loader::TappedOut(t) => tappedout_url(t.slug@),
        Loader::Archidekt(a) => urls::parsed_url(
            "https://archidekt.com/decks/"@ + decimal::decimal(a.id as nat),
        ),
    }
}

impl Loader {
    /// The name of the site.
    pub fn name(&self) -> (r: &'static str)
        ensures
            r@ == match *self {
                Loader::Deckbox(_) => "Deckbox"@,
                Loader::TappedOut(_) => "TappedOut"@,
                Loader::Archidekt(_) => "Archidekt"@,
            },
    {
        match self {
            Loader::Deckbox(l) => l.name(),
            Loader::TappedOut(l) => l.name(),
            Loader::Archidekt(l) => l.name(),
        }
    }

    /// The canonical URL of the deck.
    pub fn canonical_deck_url(&self) -> (r: Result<Url, UrlError>)
        ensures
            urls::is_outcome(r, canonical_url(*self)),
    {
        match self {
            Loader::Deckbox(l) => l.canonical_deck_url(),
            Loader::TappedOut(l) => l.canonical_deck_url(),
            Loader::Archidekt(l) => l.canonical_deck_url(),
        }
    }
}

/// Finds out which site's deck a URL is. Where it is none, gives the names of the sites that were tried.
pub fn find_loader(url: &Url) -> (r: Result<Loader, Vec<String>>)
    ensures
        match r {
            Ok(Loader::Deckbox(l)) => deckbox_id(url@) == Some(l.id as int),
            Ok(Loader::TappedOut(l)) => deckbox_id(url@) is None && tappedout_slug(url@) == Some(l.slug@),
            Ok(Loader::Archidekt(l)) => {
                &&& deckbox_id(url@) is None
                &&& tappedout_slug(url@) is None
                &&& archidekt_id(url@) == Some(l.id as int)
            },
            Err(tried) => {
                &&& deckbox_id(url@) is None
                &&& tappedout_slug(url@) is None
                &&& archidekt_id(url@) is None
                &&& text::texts(tried@) == seq!["Deckbox"@, "TappedOut"@, "Archidekt"@]
            },
        },
{
    let mut tried: Vec<String> = Vec::new();
    match DeckboxLoader::match_url(url) {
        Some(l) => {
            return Ok(Loader::Deckbox(l));
        },
        None => tried.push("Deckbox".to_string()),
    }
    match TappedOutLoader::match_url(url) {
        Some(l) => {
            return Ok(Loader::TappedOut(l));
        },
        None => tried.push("TappedOut".to_string()),
    }
    match ArchidektLoader::match_url(url) {
        Some(l) => {
            return Ok(Loader::Archidekt(l));
        },
        None => tried.push("Archidekt".to_string()),
    }
    assert(text::texts(tried@) =~= seq!["Deckbox"@, "TappedOut"@, "Archidekt"@]);
    Err(tried)
}

/// What is said of a URL that is no deck of the sites that were tried.
pub fn unknown_site_message(tried: &Vec<String>) -> (r: String)
    ensures
        r@ == "Unknown deck site. We tried to load from the following deck sites: "@ + text::join_text(
            text::texts(tried@),
            ", "@,
        ),
{
    text::concat2(
        "Unknown deck site. We tried to load from the following deck sites: ",
        text::join(tried, ", ").as_str(),
    )
}

/// A card leads the deck exactly where "Commander" is among its categories, in whatever place.
pub proof fn commander_category_leads(card: ArchidektCard)
    ensures
        leads(card) == text::texts(card.categories@).contains("Commander"@),
{
    let all = text::texts(card.categories@);
    if leads(card) {
        let i = choose|i: int|
            0 <= i < card.categories@.len() && (#[trigger] card.categories@[i])@ == "Commander"@;
        assert(all[i] == "Commander"@);
    }
    if all.contains("Commander"@) {
        let i = choose|i: int| 0 <= i < all.len() && all[i] == "Commander"@;
        assert(card.categories@[i]@ == "Commander"@);
    }
}

/// Of the categories with a name the last one says whether its cards belong to the deck; where there is none,
/// nothing does.
pub proof fn last_category_decides(categories: Seq<ArchidektCategory>, name: Seq<char>)
    ensures
        match category_included(categories, name) {
            Some(included) => exists|i: int|
                0 <= i < categories.len() && (#[trigger] categories[i]).name@ == name
                    && categories[i].included_in_deck == included && forall|j: int|
                    i < j < categories.len() ==> (#[trigger] categories[j]).name@ != name,
            None => forall|i: int| 0 <= i < categories.len() ==> (#[trigger] categories[i]).name@ != name,
        },
    decreases categories.len(),
{
    if categories.len() > 0 {
        let n = categories.len() - 1;
        if categories[n].name@ != name {
            let before = categories.drop_last();
            last_category_decides(before, name);
            match category_included(before, name) {
                Some(included) => {
                    let i = choose|i: int|
                        0 <= i < before.len() && (#[trigger] before[i]).name@ == name
                            && before[i].included_in_deck == included && forall|j: int|
                            i < j < before.len() ==> (#[trigger] before[j]).name@ != name;
                    assert(categories[i].name@ == name);
                    assert forall|j: int| i < j < categories.len() implies (#[trigger] categories[j]).name@
                        != name by {
                        if j < n {
                            assert(before[j].name@ != name);
                        }
                    }
                },
                None => {
                    assert forall|i: int| 0 <= i < categories.len() implies (#[trigger] categories[i]).name@
                        != name by {
                        if i < n {
                            assert(before[i].name@ != name);
                        }
                    }
                },
            }
        } else {
            assert(categories[n].name@ == name);
        }
    }
}

/// A card is no part of the deck exactly where it is in a category whose cards are not: one that has the
/// category's name, is not included, and is the last one with that name.
pub proof fn outside_category_leaves_out(card: ArchidektCard, categories: Seq<ArchidektCategory>)
    ensures
        left_out(card, categories) == exists|i: int|
            0 <= i < categories.len() && !(#[trigger] categories[i]).included_in_deck && text::texts(
                card.categories@,
            ).contains(categories[i].name@) && forall|j: int|
                i < j < categories.len() ==> (#[trigger] categories[j]).name@ != categories[i].name@,
{
    let all = text::texts(card.categories@);
    if left_out(card, categories) {
        let k = choose|k: int|
            0 <= k < card.categories@.len() && category_included(
                categories,
                (#[trigger] card.categories@[k])@,
            ) == Some(false);
        let name = card.categories@[k]@;
        last_category_decides(categories, name);
        assert(all[k] == name);
        let i = choose|i: int|
            0 <= i < categories.len() && (#[trigger] categories[i]).name@ == name
                && categories[i].included_in_deck == false && forall|j: int|
                i < j < categories.len() ==> (#[trigger] categories[j]).name@ != name;
        assert(!categories[i].included_in_deck && all.contains(categories[i].name@));
    }
    if exists|i: int|
        0 <= i < categories.len() && !(#[trigger] categories[i]).included_in_deck && all.contains(
            categories[i].name@,
        ) && forall|j: int|
            i < j < categories.len() ==> (#[trigger] categories[j]).name@ != categories[i].name@ {
        let i = choose|i: int|
            0 <= i < categories.len() && !(#[trigger] categories[i]).included_in_deck && all.contains(
                categories[i].name@,
            ) && forall|j: int|
                i < j < categories.len() ==> (#[trigger] categories[j]).name@ != categories[i].name@;
        let name = categories[i].name@;
        let k = choose|k: int| 0 <= k < all.len() && all[k] == name;
        last_category_decides(categories, name);
        assert(card.categories@[k]@ == name);
        assert(category_included(categories, name) == Some(false));
    }
}

/// The cards in some rows are those of the rows whose ID is a number, in their order, each with the text of
/// its name without the white space round it and the number in the cell for its copies. There are none where
/// one of these rows has no name, and the first such row is the problem.
pub proof fn numbered_rows_are_cards(rows: Seq<RowView>, p: spec_fn(RowView) -> bool)
    requires
        forall|row: RowView|
            #[trigger] p(row) == (row.id is Some && decimal::parsed_number(row.id->0, u64::MAX as int) is Some),
    ensures
        ({
            let numbered = rows.filter(p);
            match row_cards(rows) {
                Ok(cards) => {
                    &&& cards.len() == numbered.len()
                    &&& forall|i: int|
                        0 <= i < cards.len() ==> (#[trigger] numbered[i]).name is Some && cards[i] == (ListedView {
                            name: text::trim_text(numbered[i].name->0),
                            count: shown_count(numbered[i].count),
                        })
                },
                Err(e) => exists|i: int|
                    0 <= i < numbered.len() && (#[trigger] numbered[i]).name is None && e == LoadError::NoCardName(
                        decimal::parsed_number(numbered[i].id->0, u64::MAX as int)->0 as u64,
                    ) && forall|j: int| 0 <= j < i ==> (#[trigger] numbered[j]).name is Some,
            }
        }),
    decreases rows.len(),
{
    reveal(Seq::filter);
    if rows.len() > 0 {
        let t = rows.drop_last();
        numbered_rows_are_cards(t, p);
        let before = t.filter(p);
        let numbered = rows.filter(p);
        let last = rows.last();
        if p(last) {
            assert(numbered == before.push(last));
        } else {
            assert(numbered == before);
        }
        match row_cards(t) {
            Ok(cards) => {
                if p(last) && last.name is None {
                    assert(numbered[before.len() as int].name is None);
                    assert forall|j: int| 0 <= j < before.len() implies (#[trigger] numbered[j]).name is Some by {
                        assert(before[j].name is Some);
                    }
                } else {
                    let all = row_cards(rows)->Ok_0;
                    assert(all.len() == numbered.len());
                    assert forall|i: int| 0 <= i < all.len() implies (#[trigger] numbered[i]).name is Some && all[i]
                        == (ListedView {
                        name: text::trim_text(numbered[i].name->0),
                        count: shown_count(numbered[i].count),
                    }) by {
                        if i < cards.len() {
                            assert(all[i] == cards[i]);
                            assert(numbered[i] == before[i]);
                        }
                    }
                }
            },
            Err(e) => {
                let i = choose|i: int|
                    0 <= i < before.len() && (#[trigger] before[i]).name is None && e == LoadError::NoCardName(
                        decimal::parsed_number(before[i].id->0, u64::MAX as int)->0 as u64,
                    ) && forall|j: int| 0 <= j < i ==> (#[trigger] before[j]).name is Some;
                assert(numbered[i] == before[i]);
                assert forall|j: int| 0 <= j < i implies (#[trigger] numbered[j]).name is Some by {
                    assert(before[j].name is Some);
                }
            },
        }
    }
}

/// A cell shows the number that stands in it without the white space round it, where it fits; anything else
/// shows none.
pub proof fn cell_shows_its_number(cell: Seq<char>, n: nat)
    ensures
        text::trim_text(cell) == decimal::decimal(n) ==> shown_count(Some(cell)) == if n <= 255 {
            n as int
        } else {
            0
        },
        decimal::parsed_number(text::trim_text(cell), 255) is None ==> shown_count(Some(cell)) == 0,
        shown_count(None) == 0,
{
    decimal::written_numbers_are_read(n, 255, 0);
    assert(Seq::new(0, |i: int| '0') + decimal::decimal(n) =~= decimal::decimal(n));
}

/// A row of TappedOut's list adds its copies to those that the list has of the card, and leaves every other
/// card alone.
pub proof fn copies_add_up(
    before: Seq<(u128, (String, u8))>,
    after: Seq<(u128, (String, u8))>,
    id: u128,
    name: Seq<char>,
    count: int,
    other: u128,
)
    requires
        has_more(before, after, id, name, count),
    ensures
        ({
            let had = idmap::lookup(before, id);
            let has = idmap::lookup(after, id);
            &&& has is Some
            &&& had is Some ==> (has->0).1 == (had->0).1 + count && (has->0).0@ == (had->0).0@
            &&& had is None ==> (has->0).1 == count && (has->0).0@ == name
            &&& other != id ==> idmap::lookup(after, other) == idmap::lookup(before, other)
        }),
{
    idmap::lookup_after_put(before, id, idmap::lookup(after, id)->0, other);
}

/// In a card's name each slash between two spaces is doubled, and nothing else is changed.
pub proof fn slashes_are_doubled(a: Seq<char>, b: Seq<char>)
    ensures
        (forall|j: int| 0 <= j < a.len() ==> !text::occurs_at(a + " / "@ + b, " / "@, j)) ==> canonical_name(
            a + " / "@ + b,
        ) == a + " // "@ + canonical_name(b),
        !text::contains_text(a, " / "@) ==> canonical_name(a) == a,
{
    reveal_strlit(" / ");
    if forall|j: int| 0 <= j < a.len() ==> !text::occurs_at(a + " / "@ + b, " / "@, j) {
        text::replace_at_first(a, " / "@, b, " // "@);
    }
    if !text::contains_text(a, " / "@) {
        text::replace_of_nothing(a, " / "@, " // "@);
    }
}

/// Which decks the sites recognise: those on their domains whose path begins with the folder of their decks
/// and goes on with the deck's number or slug, whatever comes behind it.
pub proof fn deck_urls_are_recognised(url: Seq<char>, segments: Seq<Seq<char>>)
    requires
        segments.len() >= 2,
    ensures
        urls::url_path_segments(url) == Some(segments) ==> {
            let domain = urls::url_domain(url);
            &&& deckbox_id(url) == if domain == Some("deckbox.org"@) && segments[0] == "sets"@ {
                decimal::parsed_number(segments[1], u32::MAX as int)
            } else {
                None
            }
            &&& tappedout_slug(url) == if domain == Some("tappedout.net"@) && segments[0] == "mtg-decks"@ {
                Some(segments[1])
            } else {
                None
            }
            &&& archidekt_id(url) == if (domain == Some("archidekt.com"@) || domain == Some(
                "www.archidekt.com"@,
            )) && segments[0] == "decks"@ {
                decimal::parsed_number(segments[1], u64::MAX as int)
            } else {
                None
            }
        },
{
}

/// A URL whose path has fewer than two parts, or none, is no deck of any site.
pub proof fn short_urls_are_no_decks(url: Seq<char>)
    ensures
        (match urls::url_path_segments(url) {
            Some(segments) => segments.len() < 2,
            None => true,
        }) ==> deckbox_id(url) is None && tappedout_slug(url) is None && archidekt_id(url) is None,
{
}

/// The canonical URLs of the sites' decks: on the site's domain, the folder of its decks, the deck's number or
/// slug, and a slash.
pub proof fn canonical_urls_name_the_deck(id: int, slug: Seq<char>, base: Seq<char>)
    ensures
        urls::parsed_url("https://deckbox.org/"@) == Some(base) ==> deckbox_url(id) == urls::url_extended(
            base,
            seq!["sets"@, decimal::decimal(id as nat), ""@],
        ),
        urls::parsed_url("https://tappedout.net/"@) == Some(base) ==> tappedout_url(slug) == urls::url_extended(
            base,
            seq!["mtg-decks"@, slug, ""@],
        ),
{
}

/// A Deckbox page that can be read has a title that is not blank, and gives it without the white space round it,
/// with the cards of its two tables, each in its own list.
pub proof fn page_gives_its_deck(
    page: DeckboxPage,
    title: Option<Seq<char>>,
    main_rows: Option<Seq<RowView>>,
    side_rows: Option<Seq<RowView>>,
)
    requires
        is_deckbox_page(Ok::<DeckboxPage, LoadError>(page), title, main_rows, side_rows),
    ensures
        title is Some && main_rows is Some && side_rows is Some,
        page.title@ == text::trim_text(title->0),
        page.title@.len() > 0,
        row_cards(main_rows->0) == Ok::<Seq<ListedView>, LoadError>(listed(page.main_deck@)),
        row_cards(side_rows->0) == Ok::<Seq<ListedView>, LoadError>(listed(page.sideboard@)),
{
}

/// A Deckbox page cannot be read only where its title is missing or blank, a table is missing, or one of the
/// tables has a card without a name; and the title's problem comes first.
pub proof fn page_fails_for_a_reason(
    e: LoadError,
    title: Option<Seq<char>>,
    main_rows: Option<Seq<RowView>>,
    side_rows: Option<Seq<RowView>>,
)
    requires
        is_deckbox_page(Err::<DeckboxPage, LoadError>(e), title, main_rows, side_rows),
    ensures
        title is None <==> e is NoTitle,
        title is Some && text::trim_text(title->0).len() == 0 <==> e is EmptyTitle,
        title is Some && text::trim_text(title->0).len() > 0 ==> {
            ||| (e is BadPage && (main_rows is None || side_rows is None))
            ||| (main_rows is Some && row_cards(main_rows->0) == Err::<Seq<ListedView>, LoadError>(e))
            ||| (side_rows is Some && row_cards(side_rows->0) == Err::<Seq<ListedView>, LoadError>(e))
        },
{
    if main_rows is Some {
        row_problems_are_names(main_rows->0);
    }
    if side_rows is Some {
        row_problems_are_names(side_rows->0);
    }
}

proof fn row_problems_are_names(rows: Seq<RowView>)
    ensures
        row_cards(rows) matches Err(e) ==> e is NoCardName,
    decreases rows.len(),
{
    if rows.len() > 0 {
        row_problems_are_names(rows.drop_last());
    }
}

/// The oracle ID of a card that the database has is the one in its JSON; a card that it has not, or whose row
/// cannot be read, is looked up by its name.
pub proof fn known_cards_have_their_ids(row: ScryfallCardRow, card: JsonView, id: u128)
    ensures
        oracle_lookup(None) is ByName,
        crate::json::parsed_json(row.json@) is None ==> oracle_lookup(Some(row)) is ByName,
        crate::json::parsed_json(row.json@) == Some(card) && card.get("oracle_id"@) == Some(
            JsonView::Text(crate::uuids::hyphenated(id as int)),
        ) ==> oracle_lookup(Some(row)) == OracleLookup::Known(ScryfallOracleId(Uuid { bits: id })),
        crate::json::parsed_json(row.json@) == Some(card) && card.get("oracle_id"@) is None ==> oracle_lookup(
            Some(row),
        ) is Failed,
{
    crate::uuids::parse_undoes_text(id);
}

/// A row's copies can be added unless they would be more than a byte can count in the list to which they belong;
/// those of a commander, and of a card of another board, always can.
pub proof fn rows_that_fit(lists: CardLists, row: TappedOutRow, id: u128)
    ensures
        row.commander_col@ == "True"@ ==> row_fits(lists, row, id),
        row.board@ != "main"@ && row.board@ != "side"@ ==> row_fits(lists, row, id),
        row.commander_col@ != "True"@ && row.board@ == "main"@ ==> (row_fits(lists, row, id) <==> (match idmap::lookup(
            lists.main_deck@,
            id,
        ) {
            Some(e) => e.1 + row.count <= 255,
            None => true,
        })),
        row.commander_col@ != "True"@ && row.board@ == "side"@ ==> (row_fits(lists, row, id) <==> (match idmap::lookup(
            lists.sideboard@,
            id,
        ) {
            Some(e) => e.1 + row.count <= 255,
            None => true,
        })),
{
    boards_differ();
}

/// On a Deckbox page the cards stand in the rows of a table, with the ID as an attribute and the name and the
/// number of copies in cells; the title stands in the header.
pub proof fn where_a_page_has_its_cards(page: Seq<char>, table: Seq<char>)
    ensures
        deckbox_rows(page, table) == html::html_rows(page, table, "id"@, "td.card_name"@, "td.card_count"@),
        deckbox_title(page) == html::html_first_text(page, ".page_header > .section_title > span"@),
{
}

/// Listed cards stand for their names and their numbers of copies, in their order.
pub proof fn listed_cards_stand_for_themselves(v: Seq<ListedCard>, i: int)
    requires
        0 <= i < v.len(),
    ensures
        listed(v).len() == v.len(),
        listed(v)[i].name == v[i].name@,
        listed(v)[i].count == v[i].count,
{
}

/// The canonical URL of a deck is that of its site.
pub proof fn each_site_has_its_urls(deckbox: DeckboxLoader, tappedout: TappedOutLoader, archidekt: ArchidektLoader)
    ensures
        canonical_url(Loader::Deckbox(deckbox)) == deckbox_url(deckbox.id as int),
        canonical_url(Loader::TappedOut(tappedout)) == tappedout_url(tappedout.slug@),
        canonical_url(Loader::Archidekt(archidekt)) == urls::parsed_url(
            "https://archidekt.com/decks/"@ + decimal::decimal(archidekt.id as nat),
        ),
{
}

/// A list has as many copies of a card as stand there under its ID, and none of a card that is not there.
pub proof fn copies_are_counted(list: Seq<(u128, (String, u8))>, i: int, id: u128)
    requires
        idmap::distinct(list),
    ensures
        0 <= i < list.len() ==> copies_in(list, list[i].0) == list[i].1.1,
        !idmap::has_key(list, id) ==> copies_in(list, id) == 0,
{
    if 0 <= i < list.len() {
        assert forall|j: int| 0 <= j < i implies (#[trigger] list[j]).0 != list[i].0 by {}
        idmap::place_at(list, list[i].0, i);
    }
}

} // verus!
