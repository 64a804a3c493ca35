//! The pages on which the pictures of a deck's cards are printed.
use crate::decimal;
use crate::idmap;
use crate::idmap::IdMap;
use crate::imaging;
use crate::imaging::RgbImage;
use crate::scryfall::ScryfallId;
use crate::text;
use crate::types::deck::DeckId;
use crate::types::nonzero::NonZeroU16;
use crate::types::server_to_frontend::RenderProgress;
use crate::uuids;
use vstd::prelude::*;

verus! {

/// How wide a card's picture is on a page.
pub const CARD_WIDTH: u32 = 672;

/// How high a card's picture is on a page.
pub const CARD_HEIGHT: u32 = 936;

/// Why there are no pages.
#[derive(Clone, Copy, Debug, PartialEq, Eq, Structural)]
pub enum PageError {
    /// The deck has no cards.
    NoCards,
    /// The deck has more cards than can be counted.
    TooManyCards,
    /// There are no pages to save.
    NoPages,
    /// There are more pages than can be counted.
    TooManyPages,
}

/// How many cards wide and high a page is that some cards are expected to fill. The last place is kept
/// for the back of hidden cards, and one more stays free, but on a page of the largest size.
pub open spec fn page_size(expected: int) -> (int, int) {
    if expected < 2 * 2 - 1 {
        (2, 2)
    } else if expected < 3 * 2 - 1 {
        (3, 2)
    } else if expected < 4 * 3 - 1 {
        (4, 3)
    } else if expected < 5 * 4 - 1 {
        (5, 4)
    } else if expected < 6 * 4 - 1 {
        (6, 4)
    } else if expected < 7 * 5 - 1 {
        (7, 5)
    } else if expected < 8 * 6 - 1 {
        (8, 6)
    } else if expected < 9 * 6 - 1 {
        (9, 6)
    } else {
        (10, 7)
    }
}

/// How many cards wide and high a page is.
pub fn choose_size(expected_cards: u32) -> (r: (u32, u32))
    ensures
        (r.0 as int, r.1 as int) == page_size(expected_cards as int),
{
    if expected_cards < 2 * 2 - 1 {
        (2, 2)
    } else if expected_cards < 3 * 2 - 1 {
        (3, 2)
    } else if expected_cards < 4 * 3 - 1 {
        (4, 3)
    } else if expected_cards < 5 * 4 - 1 {
        (5, 4)
    } else if expected_cards < 6 * 4 - 1 {
        (6, 4)
    } else if expected_cards < 7 * 5 - 1 {
        (7, 5)
    } else if expected_cards < 8 * 6 - 1 {
        (8, 6)
    } else if expected_cards < 9 * 6 - 1 {
        (9, 6)
    } else {
        (10, 7)
    }
}

/// How many cards have a place on a page.
pub open spec fn capacity(width: int, height: int) -> int {
    width * height - 1
}

/// A page of a size for some cards has places for all of them, unless it is of the largest size.
pub proof fn page_fits(expected: int)
    requires
        0 <= expected,
    ensures
        ({
            let (w, h) = page_size(expected);
            expected < capacity(w, h) || (w == 10 && h == 7)
        }),
{
}

/// A page.
#[derive(Debug)]
pub struct Page {
    pub width: u32,
    pub height: u32,
    pub image: RgbImage,
    /// The place of each card on the page.
    pub card_mapping: IdMap<u8>,
}

impl Page {
    /// Whether the picture has the page's size, no more cards are on the page than have a place, and each
    /// stands at a place.
    pub open spec fn wf(&self) -> bool {
        &&& 2 <= self.width <= 10
        &&& 2 <= self.height <= 7
        &&& self.image.wf()
        &&& self.image.width == self.width * CARD_WIDTH
        &&& self.image.height == self.height * CARD_HEIGHT
        &&& self.card_mapping.wf()
        &&& self.card_mapping@.len() <= capacity(self.width as int, self.height as int)
        &&& forall|i: int|
            0 <= i < self.card_mapping@.len() ==> (#[trigger] self.card_mapping@[i]).1 < capacity(
                self.width as int,
                self.height as int,
            )
    }
}

/// Whether a picture has the size of a card.
pub open spec fn card_sized(picture: RgbImage) -> bool {
    picture.width == CARD_WIDTH && picture.height == CARD_HEIGHT
}

/// Whether a pixel lies in a place of a page.
pub open spec fn in_place(px: int, py: int, row: int, column: int) -> bool {
    &&& column * CARD_WIDTH <= px < (column + 1) * CARD_WIDTH
    &&& row * CARD_HEIGHT <= py < (row + 1) * CARD_HEIGHT
}

/// The picture in the size of a card.
pub fn fixup_size(picture: RgbImage) -> (r: RgbImage)
    requires
        picture.wf(),
        picture.width > 0 && picture.height > 0,
    ensures
        r.wf(),
        r.width == CARD_WIDTH && r.height == CARD_HEIGHT,
        card_sized(picture) ==> r == picture,
{
    if picture.width == CARD_WIDTH && picture.height == CARD_HEIGHT {
        picture
    } else {
        imaging::resize(picture, CARD_WIDTH, CARD_HEIGHT)
    }
}

/// A page's picture with a card's picture in one of its places.
pub fn add_to_page(page: RgbImage, card: RgbImage, row: u32, column: u32) -> (r: RgbImage)
    requires
        page.wf(),
        card.wf(),
        card.width > 0 && card.height > 0,
        row < 10,
        column < 10,
    ensures
        r.wf(),
        r.width == page.width && r.height == page.height,
        forall|px: int, py: int, c: int|
            page.holds(px, py) && 0 <= c < 3 && !in_place(px, py, row as int, column as int)
                ==> #[trigger] r.pixel(px, py, c) == page.pixel(px, py, c),
        card_sized(card) ==> forall|px: int, py: int, c: int|
            page.holds(px, py) && 0 <= c < 3 && in_place(px, py, row as int, column as int)
                ==> #[trigger] r.pixel(px, py, c) == card.pixel(
                px - column * CARD_WIDTH,
                py - row * CARD_HEIGHT,
                c,
            ),
{
    let card = fixup_size(card);
    imaging::overlay(page, &card, column * CARD_WIDTH, row * CARD_HEIGHT)
}

/// A black page with the back of hidden cards in its last place.
pub fn new_blank_page(cards_wide: u32, cards_high: u32, hidden: RgbImage) -> (r: RgbImage)
    requires
        0 < cards_wide <= 10,
        0 < cards_high <= 10,
        hidden.wf(),
        hidden.width > 0 && hidden.height > 0,
    ensures
        r.wf(),
        r.width == cards_wide * CARD_WIDTH && r.height == cards_high * CARD_HEIGHT,
        forall|px: int, py: int, c: int|
            r.holds(px, py) && 0 <= c < 3 && !in_place(px, py, cards_high - 1, cards_wide - 1)
                ==> #[trigger] r.pixel(px, py, c) == 0,
        card_sized(hidden) ==> forall|px: int, py: int, c: int|
            r.holds(px, py) && 0 <= c < 3 && in_place(px, py, cards_high - 1, cards_wide - 1)
                ==> #[trigger] r.pixel(px, py, c) == hidden.pixel(
                px - (cards_wide - 1) * CARD_WIDTH,
                py - (cards_high - 1) * CARD_HEIGHT,
                c,
            ),
{
    let page = imaging::black(CARD_WIDTH * cards_wide, CARD_HEIGHT * cards_high);
    proof {
        assert forall|px: int, py: int, c: int| page.holds(px, py) && 0 <= c < 3 implies #[trigger] page.pixel(
            px,
            py,
            c,
        ) == 0 by {
            let w = page.width as int;
            let h = page.height as int;
            let i = imaging::byte_at(w, px, py, c);
            assert(0 <= i < w * h * 3) by (nonlinear_arith)
                requires
                    i == (py * w + px) * 3 + c,
                    0 <= px < w,
                    0 <= py < h,
                    0 <= c < 3,
            ;
        }
    }
    add_to_page(page, hidden, cards_high - 1, cards_wide - 1)
}

/// The number of the place in which a pixel lies: the places are counted row by row.
pub open spec fn place_at(width: int, px: int, py: int) -> int {
    (py / CARD_HEIGHT as int) * width + px / CARD_WIDTH as int
}

/// Whether a byte of a pixel is that of a picture in the pixel's place. The bytes of a picture that had to be
/// made to fit are left open.
pub open spec fn shows_pixel(byte: u8, picture: RgbImage, px: int, py: int, c: int) -> bool {
    card_sized(picture) ==> byte == picture.pixel(px % CARD_WIDTH as int, py % CARD_HEIGHT as int, c)
}

/// Whether the picture of a page shows some pictures, each in a place: the back of hidden cards is in the last
/// place, and every other place is black.
pub open spec fn shows(image: RgbImage, width: int, height: int, shown: Map<int, RgbImage>, hidden: RgbImage) -> bool {
    forall|px: int, py: int, c: int|
        image.holds(px, py) && 0 <= c < 3 ==> {
            let byte = #[trigger] image.pixel(px, py, c);
            let place = place_at(width, px, py);
            if shown.contains_key(place) {
                shows_pixel(byte, shown[place], px, py, c)
            } else if place == capacity(width, height) {
                shows_pixel(byte, hidden, px, py, c)
            } else {
                byte == 0
            }
        }
}

/// A pixel lies in a place exactly where the place has its number.
proof fn place_is_number(width: int, k: int, px: int, py: int)
    requires
        0 < width,
        0 <= k,
        0 <= px < width * CARD_WIDTH,
        0 <= py,
    ensures
        in_place(px, py, k / width, k % width) == (place_at(width, px, py) == k),
        in_place(px, py, k / width, k % width) ==> px - (k % width) * CARD_WIDTH == px % CARD_WIDTH as int && py - (k
            / width) * CARD_HEIGHT == py % CARD_HEIGHT as int,
{
    let row = k / width;
    let column = k % width;
    let r = py / 936;
    let c = px / 672;
    assert(k == row * width + column && 0 <= column < width && 0 <= row) by (nonlinear_arith)
        requires
            row == k / width,
            column == k % width,
            0 < width,
            0 <= k,
    ;
    assert(0 <= c < width);
    assert(r * width + c == row * width + column ==> r == row && c == column) by (nonlinear_arith)
        requires
            0 <= c < width,
            0 <= column < width,
    ;
    assert(in_place(px, py, row, column) == (r == row && c == column));
    assert(r == row && c == column ==> r * width + c == row * width + column);
}

/// What a page stands for: its size and the places of its cards.
pub struct PageView {
    pub width: int,
    pub height: int,
    pub card_mapping: Seq<(u128, u8)>,
}

impl View for Page {
    type V = PageView;

    open spec fn view(&self) -> PageView {
        PageView { width: self.width as int, height: self.height as int, card_mapping: self.card_mapping@ }
    }
}

/// An empty page for some cards.
pub open spec fn empty_page(expected: int) -> PageView {
    PageView { width: page_size(expected).0, height: page_size(expected).1, card_mapping: Seq::empty() }
}

/// Whether a page has no place left.
pub open spec fn is_full(page: PageView) -> bool {
    page.card_mapping.len() >= capacity(page.width, page.height)
}

/// The page with a card in its next place: that is the one behind as many cards as it has.
pub open spec fn with_card(page: PageView, id: u128) -> PageView {
    PageView { card_mapping: idmap::put(page.card_mapping, id, page.card_mapping.len() as u8), ..page }
}

impl Page {
    /// Whether the page shows some pictures, each in a place.
    pub open spec fn shows(&self, shown: Map<int, RgbImage>, hidden: RgbImage) -> bool {
        shows(self.image, self.width as int, self.height as int, shown, hidden)
    }

    /// An empty page for some cards.
    pub fn new(expected_cards: u32, hidden: &RgbImage) -> (r: Page)
        requires
            hidden.wf(),
            hidden.width > 0 && hidden.height > 0,
        ensures
            r.wf(),
            r@ == empty_page(expected_cards as int),
            r.shows(Map::empty(), *hidden),
    {
        let (width, height) = choose_size(expected_cards);
        let page = Page {
            width,
            height,
            image: new_blank_page(width, height, hidden.clone()),
            card_mapping: IdMap::new(),
        };
        assert(page@.card_mapping =~= Seq::empty());
        assert(capacity(width as int, height as int) >= 0) by (nonlinear_arith)
            requires
                width >= 2,
                height >= 2,
        ;
        proof {
            let w = width as int;
            let h = height as int;
            let last = capacity(w, h);
            assert(last / w == h - 1 && last % w == w - 1) by {
                assert(last == (h - 1) * w + (w - 1)) by (nonlinear_arith)
                    requires
                        last == w * h - 1,
                ;
                vstd::arithmetic::div_mod::lemma_fundamental_div_mod_converse(last, w, h - 1, w - 1);
            }
            assert forall|px: int, py: int, c: int| page.image.holds(px, py) && 0 <= c < 3 implies ({
                let byte = #[trigger] page.image.pixel(px, py, c);
                if place_at(w, px, py) == last {
                    shows_pixel(byte, *hidden, px, py, c)
                } else {
                    byte == 0
                }
            }) by {
                place_is_number(w, last, px, py);
            }
        }
        page
    }

    /// Puts a card in the page's next place.
    pub fn place(self, card_id: ScryfallId, picture: RgbImage) -> (r: Page)
        requires
            self.wf(),
            !is_full(self@),
            picture.wf(),
            picture.width > 0 && picture.height > 0,
        ensures
            r.wf(),
            r@ == with_card(self@, card_id.0.bits),
            forall|shown: Map<int, RgbImage>, hidden: RgbImage| #[trigger]
                self.shows(shown, hidden) ==> r.shows(
                    shown.insert(self@.card_mapping.len() as int, picture),
                    hidden,
                ),
    {
        let mut page = self;
        let page_index: u32 = page.card_mapping.len() as u32;
        let ghost w = page.width as int;
        let ghost h = page.height as int;
        let ghost k = page_index as int;
        proof {
            assert(capacity(w, h) <= 69) by (nonlinear_arith)
                requires
                    2 <= w <= 10,
                    2 <= h <= 7,
                    capacity(w, h) == w * h - 1,
            ;
            assert(0 <= k / w < h) by (nonlinear_arith)
                requires
                    0 <= k < w * h,
                    2 <= w,
            ;
            assert(0 <= k % w < w) by (nonlinear_arith)
                requires
                    2 <= w,
            ;
        }
        let row: u32 = page_index / page.width;
        let column: u32 = page_index % page.width;
        let ghost before = page.card_mapping@;
        let ghost image = page.image;
        page.image = add_to_page(page.image, picture, row, column);
        proof {
            assert forall|shown: Map<int, RgbImage>, hidden: RgbImage| #[trigger]
                self.shows(shown, hidden) implies shows(page.image, w, h, shown.insert(k, picture), hidden) by {
                let after = shown.insert(k, picture);
                assert forall|px: int, py: int, c: int| page.image.holds(px, py) && 0 <= c < 3 implies ({
                    let byte = #[trigger] page.image.pixel(px, py, c);
                    let place = place_at(w, px, py);
                    if after.contains_key(place) {
                        shows_pixel(byte, after[place], px, py, c)
                    } else if place == capacity(w, h) {
                        shows_pixel(byte, hidden, px, py, c)
                    } else {
                        byte == 0
                    }
                }) by {
                    place_is_number(w, k, px, py);
                    assert(image.holds(px, py));
                    if place_at(w, px, py) != k {
                        assert(page.image.pixel(px, py, c) == image.pixel(px, py, c));
                    }
                }
            }
        }
        page.card_mapping.insert(card_id.0.bits, page_index as u8);
        proof {
            idmap::place_is_first(before, card_id.0.bits);
            assert forall|i: int| 0 <= i < page.card_mapping@.len() implies (#[trigger] page.card_mapping@[i]).1
                < capacity(w, h) by {
                if i < before.len() {
                    assert(before[i].1 < capacity(w, h));
                }
            }
        }
        page
    }
}

/// The pages after some of a deck's cards were placed.
pub struct PagesView {
    pub done: Seq<PageView>,
    pub current: PageView,
}

/// The pages after one more card: a full page is laid aside first.
pub open spec fn after_card(p: PagesView, id: u128, remaining: int) -> PagesView {
    if is_full(p.current) {
        PagesView { done: p.done.push(p.current), current: with_card(empty_page(remaining), id) }
    } else {
        PagesView { done: p.done, current: with_card(p.current, id) }
    }
}

/// The pages after the first `n` cards.
pub open spec fn after_cards(ids: Seq<u128>, n: int) -> PagesView
    decreases n,
{
    if n <= 0 {
        PagesView { done: Seq::empty(), current: empty_page(ids.len() as int) }
    } else {
        after_card(after_cards(ids, n - 1), ids[n - 1], ids.len() - n)
    }
}

/// The pictures that the pages show, each in a place, after some of a deck's cards were placed.
pub struct ShownView {
    pub done: Seq<Map<int, RgbImage>>,
    pub current: Map<int, RgbImage>,
}

/// The pictures that the pages show after one more card: it is shown in the place that the card gets.
pub open spec fn shown_after(p: PagesView, s: ShownView, picture: RgbImage) -> ShownView {
    if is_full(p.current) {
        ShownView { done: s.done.push(s.current), current: Map::empty().insert(0, picture) }
    } else {
        ShownView { done: s.done, current: s.current.insert(p.current.card_mapping.len() as int, picture) }
    }
}

/// The pictures that the pages show after the first `n` cards.
pub open spec fn shown_after_cards(cards: Seq<(ScryfallId, RgbImage)>, n: int) -> ShownView
    decreases n,
{
    if n <= 0 {
        ShownView { done: Seq::empty(), current: Map::empty() }
    } else {
        shown_after(after_cards(ids_of(cards), n - 1), shown_after_cards(cards, n - 1), cards[n - 1].1)
    }
}

/// The pictures that all pages of a deck show.
pub open spec fn all_shown(cards: Seq<(ScryfallId, RgbImage)>) -> Seq<Map<int, RgbImage>> {
    let s = shown_after_cards(cards, cards.len() as int);
    s.done.push(s.current)
}

/// Whether pages show some pictures, those of each page in their places.
pub open spec fn pages_show(pages: Seq<Page>, shown: Seq<Map<int, RgbImage>>, hidden: RgbImage) -> bool {
    &&& pages.len() <= shown.len()
    &&& forall|i: int| 0 <= i < pages.len() ==> (#[trigger] pages[i]).shows(shown[i], hidden)
}

/// All pages of a deck's cards.
pub open spec fn all_pages(ids: Seq<u128>) -> Seq<PageView> {
    let p = after_cards(ids, ids.len() as int);
    if p.current.card_mapping.len() > 0 {
        p.done.push(p.current)
    } else {
        p.done
    }
}

/// The views of a vector of pages.
pub open spec fn page_views(v: Seq<Page>) -> Seq<PageView> {
    v.map_values(|p: Page| p@)
}

/// Places the cards of a deck on pages, one after the other.
pub struct PageBuilder {
    done: Vec<Page>,
    current: Page,
    placed: u16,
    total: NonZeroU16,
}

impl PageBuilder {
    /// The pages so far.
    pub closed spec fn pages(&self) -> PagesView {
        PagesView { done: page_views(self.done@), current: self.current@ }
    }

    /// How many cards were placed.
    pub closed spec fn placed(&self) -> u16 {
        self.placed
    }

    /// How many cards there are.
    pub closed spec fn total(&self) -> u16 {
        self.total.value()
    }

    /// Whether the pages show some pictures, each in a place.
    pub closed spec fn shows(&self, s: ShownView, hidden: RgbImage) -> bool {
        &&& self.done@.len() == s.done.len()
        &&& pages_show(self.done@, s.done, hidden)
        &&& self.current.shows(s.current, hidden)
    }

    /// Whether every page is well-formed.
    pub closed spec fn wf(&self) -> bool {
        &&& self.current.wf()
        &&& forall|i: int| 0 <= i < self.done@.len() ==> (#[trigger] self.done@[i]).wf()
        &&& self.placed <= self.total.value()
    }

    /// Begins with a number of cards.
    pub fn new(card_count: usize, hidden: &RgbImage) -> (r: Result<PageBuilder, PageError>)
        requires
            hidden.wf(),
            hidden.width > 0 && hidden.height > 0,
        ensures
            match r {
                Ok(b) => {
                    &&& 0 < card_count <= u16::MAX
                    &&& b.wf()
                    &&& b.total() == card_count
                    &&& b.placed() == 0
                    &&& b.pages() == (PagesView { done: Seq::empty(), current: empty_page(card_count as int) })
                    &&& b.shows(ShownView { done: Seq::empty(), current: Map::empty() }, *hidden)
                },
                Err(PageError::NoCards) => card_count == 0,
                Err(e) => e == PageError::TooManyCards && card_count > u16::MAX,
            },
    {
        if card_count > 0xffff {
            return Err(PageError::TooManyCards);
        }
        match NonZeroU16::new(card_count as u16) {
            None => Err(PageError::NoCards),
            Some(total) => {
                let current = Page::new(card_count as u32, hidden);
                let b = PageBuilder { done: Vec::new(), current, placed: 0, total };
                assert(page_views(b.done@) =~= Seq::empty());
                Ok(b)
            },
        }
    }

    /// How far the work has come.
    pub fn progress(&self) -> (r: RenderProgress)
        ensures
            r matches RenderProgress::RenderingImages { rendered_cards, total_cards } && rendered_cards
                == self.placed() && total_cards.value() == self.total(),
    {
        RenderProgress::RenderingImages { rendered_cards: self.placed, total_cards: self.total }
    }

    /// Places one more card. A full page is laid aside first, and a new one begun, for which a picture of
    /// the back of hidden cards is needed.
    pub fn place(self, card_id: ScryfallId, picture: RgbImage, hidden: &RgbImage) -> (r: PageBuilder)
        requires
            self.wf(),
            self.placed() < self.total(),
            picture.wf(),
            picture.width > 0 && picture.height > 0,
            hidden.wf(),
            hidden.width > 0 && hidden.height > 0,
        ensures
            r.wf(),
            r.total() == self.total(),
            r.placed() == self.placed() + 1,
            r.pages() == after_card(self.pages(), card_id.0.bits, self.total() - self.placed() - 1),
            forall|s: ShownView| #[trigger]
                self.shows(s, *hidden) ==> r.shows(shown_after(self.pages(), s, picture), *hidden),
    {
        let mut done = self.done;
        let mut current = self.current;
        let ghost before = done@;
        let ghost full = is_full(current@);
        let cards: u32 = current.card_mapping.len() as u32;
        proof {
            let w = current.width as int;
            let h = current.height as int;
            assert(w * h <= 70) by (nonlinear_arith)
                requires
                    2 <= w <= 10,
                    2 <= h <= 7,
            ;
            assert(w * h >= 4) by (nonlinear_arith)
                requires
                    2 <= w <= 10,
                    2 <= h <= 7,
            ;
        }
        if cards >= current.width * current.height - 1 {
            done.push(current);
            assert(page_views(done@) =~= page_views(before).push(self.current@));
            current = Page::new((self.total.get() - self.placed - 1) as u32, hidden);
            assert(!is_full(current@)) by {
                let e = (self.total.value() - self.placed - 1) as int;
                assert(capacity(page_size(e).0, page_size(e).1) > 0);
            }
        }
        let ghost with_room = current;
        let current = current.place(card_id, picture);
        let r = PageBuilder { done, current, placed: self.placed + 1, total: self.total };
        proof {
            assert forall|s: ShownView| #[trigger] self.shows(s, *hidden) implies r.shows(
                shown_after(self.pages(), s, picture),
                *hidden,
            ) by {
                let after = shown_after(self.pages(), s, picture);
                if full {
                    assert(with_room.shows(Map::empty(), *hidden));
                    assert forall|i: int| 0 <= i < done@.len() implies (#[trigger] done@[i]).shows(
                        after.done[i],
                        *hidden,
                    ) by {
                        if i < before.len() {
                            assert(done@[i] == before[i]);
                        }
                    }
                } else {
                    assert(with_room.shows(s.current, *hidden));
                }
            }
        }
        r
    }

    /// All pages.
    pub fn finish(self) -> (r: Vec<Page>)
        requires
            self.wf(),
        ensures
            page_views(r@) == (if self.pages().current.card_mapping.len() > 0 {
                self.pages().done.push(self.pages().current)
            } else {
                self.pages().done
            }),
            forall|i: int| 0 <= i < r@.len() ==> (#[trigger] r@[i]).wf(),
            forall|s: ShownView, hidden: RgbImage| #[trigger]
                self.shows(s, hidden) ==> pages_show(r@, s.done.push(s.current), hidden),
    {
        let mut pages = self.done;
        if self.current.card_mapping.len() > 0 {
            pages.push(self.current);
            assert(page_views(pages@) =~= page_views(self.done@).push(self.current@));
        }
        pages
    }
}

/// The IDs of some cards with their pictures.
pub open spec fn ids_of(v: Seq<(ScryfallId, RgbImage)>) -> Seq<u128> {
    v.map_values(|p: (ScryfallId, RgbImage)| p.0.0.bits)
}

/// Places the cards of a deck on pages.
pub fn make_pages(cards: Vec<(ScryfallId, RgbImage)>, hidden: &RgbImage) -> (r: Result<Vec<Page>, PageError>)
    requires
        hidden.wf(),
        hidden.width > 0 && hidden.height > 0,
        forall|i: int|
            0 <= i < cards@.len() ==> (#[trigger] cards@[i]).1.wf() && cards@[i].1.width > 0
                && cards@[i].1.height > 0,
    ensures
        match r {
            Ok(pages) => {
                &&& 0 < cards@.len() <= u16::MAX
                &&& page_views(pages@) == all_pages(ids_of(cards@))
                &&& pages_show(pages@, all_shown(cards@), *hidden)
                &&& forall|i: int| 0 <= i < pages@.len() ==> (#[trigger] pages@[i]).wf()
            },
            Err(PageError::NoCards) => cards@.len() == 0,
            Err(e) => e == PageError::TooManyCards && cards@.len() > u16::MAX,
        },
{
    let ghost ids = ids_of(cards@);
    let mut builder = match PageBuilder::new(cards.len(), hidden) {
        Ok(b) => b,
        Err(e) => {
            return Err(e);
        },
    };
    let mut rest = cards;
    while rest.len() > 0
        invariant
            hidden.wf(),
            hidden.width > 0 && hidden.height > 0,
            forall|i: int|
                0 <= i < cards@.len() ==> (#[trigger] cards@[i]).1.wf() && cards@[i].1.width > 0
                    && cards@[i].1.height > 0,
            ids == ids_of(cards@),
            builder.wf(),
            builder.total() == cards@.len(),
            builder.placed() + rest@.len() == cards@.len(),
            rest@ == cards@.skip(builder.placed() as int),
            builder.pages() == after_cards(ids, builder.placed() as int),
            builder.shows(shown_after_cards(cards@, builder.placed() as int), *hidden),
        decreases rest@.len(),
    {
        let ghost k = builder.placed() as int;
        let (card_id, picture) = rest.remove(0);
        assert((card_id, picture) == cards@[k]);
        assert(rest@ =~= cards@.skip(k + 1));
        assert(ids[k] == card_id.0.bits);
        builder = builder.place(card_id, picture, hidden);
    }
    Ok(builder.finish())
}

/// Whether a card is on one of the pages.
pub open spec fn on_pages(p: PagesView, id: u128) -> bool {
    idmap::has_key(p.current.card_mapping, id) || exists|i: int|
        0 <= i < p.done.len() && idmap::has_key((#[trigger] p.done[i]).card_mapping, id)
}

proof fn after_card_keeps(p: PagesView, id: u128, remaining: int, other: u128)
    ensures
        on_pages(after_card(p, id, remaining), id),
        on_pages(p, other) ==> on_pages(after_card(p, id, remaining), other),
{
    let a = after_card(p, id, remaining);
    if is_full(p.current) {
        let fresh = empty_page(remaining).card_mapping;
        idmap::lookup_after_put(fresh, id, 0u8, other);
        if idmap::has_key(p.current.card_mapping, other) {
            assert(a.done[p.done.len() as int] == p.current);
        } else if on_pages(p, other) {
            let i = choose|i: int| 0 <= i < p.done.len() && idmap::has_key((#[trigger] p.done[i]).card_mapping, other);
            assert(a.done[i] == p.done[i]);
        }
    } else {
        idmap::lookup_after_put(p.current.card_mapping, id, p.current.card_mapping.len() as u8, other);
        assert(a.done == p.done);
        if on_pages(p, other) && !idmap::has_key(p.current.card_mapping, other) {
            let i = choose|i: int| 0 <= i < p.done.len() && idmap::has_key((#[trigger] p.done[i]).card_mapping, other);
            assert(idmap::has_key(a.done[i].card_mapping, other));
        }
    }
}

proof fn placed_cards_are_on_pages(ids: Seq<u128>, n: int, j: int)
    requires
        0 <= j < n <= ids.len(),
    ensures
        on_pages(after_cards(ids, n), ids[j]),
    decreases n,
{
    let before = after_cards(ids, n - 1);
    after_card_keeps(before, ids[n - 1], ids.len() - n, ids[j]);
    if j < n - 1 {
        placed_cards_are_on_pages(ids, n - 1, j);
    }
}

/// Every card of a deck is on one of its pages.
pub proof fn every_card_has_a_page(ids: Seq<u128>, j: int)
    requires
        0 <= j < ids.len(),
    ensures
        exists|i: int|
            0 <= i < all_pages(ids).len() && idmap::has_key((#[trigger] all_pages(ids)[i]).card_mapping, ids[j]),
{
    let p = after_cards(ids, ids.len() as int);
    placed_cards_are_on_pages(ids, ids.len() as int, j);
    if idmap::has_key(p.current.card_mapping, ids[j]) {
        idmap::place_is_first(p.current.card_mapping, ids[j]);
        assert(all_pages(ids)[p.done.len() as int] == p.current);
    } else {
        let i = choose|i: int| 0 <= i < p.done.len() && idmap::has_key((#[trigger] p.done[i]).card_mapping, ids[j]);
        assert(all_pages(ids)[i] == p.done[i]);
    }
}

/// The cards on a page, in the order of their entries.
pub open spec fn cards_on(page: PageView) -> Seq<u128> {
    page.card_mapping.map_values(|e: (u128, u8)| e.0)
}

/// The cards on some pages, one page after the other.
pub open spec fn cards_on_all(pages: Seq<PageView>) -> Seq<u128>
    decreases pages.len(),
{
    if pages.len() == 0 {
        Seq::empty()
    } else {
        cards_on_all(pages.drop_last()) + cards_on(pages.last())
    }
}

/// After some cards, they stand on the pages in their order, and every page that was laid aside is full.
proof fn order_is_kept(ids: Seq<u128>, n: int)
    requires
        ids.no_duplicates(),
        0 <= n <= ids.len(),
    ensures
        ({
            let p = after_cards(ids, n);
            &&& cards_on_all(p.done) + cards_on(p.current) == ids.take(n)
            &&& forall|i: int| 0 <= i < p.done.len() ==> is_full(#[trigger] p.done[i])
            &&& n > 0 ==> p.current.card_mapping.len() > 0
        }),
    decreases n,
{
    if n == 0 {
        let p = after_cards(ids, 0);
        assert(cards_on_all(p.done) + cards_on(p.current) =~= ids.take(0));
    } else {
        order_is_kept(ids, n - 1);
        let before = after_cards(ids, n - 1);
        let p = after_cards(ids, n);
        let id = ids[n - 1];
        let remaining = ids.len() - n;
        let page = if is_full(before.current) {
            empty_page(remaining)
        } else {
            before.current
        };
        idmap::place_is_first(page.card_mapping, id);
        if idmap::has_key(page.card_mapping, id) {
            let k = idmap::place(page.card_mapping, id);
            let at = cards_on_all(before.done).len() + k;
            assert(!is_full(before.current));
            assert(cards_on(before.current).len() == before.current.card_mapping.len());
            assert(cards_on(before.current)[k] == id);
            assert((cards_on_all(before.done) + cards_on(before.current)).len() == n - 1);
            assert((cards_on_all(before.done) + cards_on(before.current))[at] == id);
            assert(ids.take(n - 1)[at] == id);
            assert(ids[at] == ids[n - 1]);
        }
        assert(cards_on(p.current) =~= cards_on(page).push(id));
        if is_full(before.current) {
            assert(p.done.drop_last() =~= before.done);
            assert(cards_on(page) =~= Seq::empty());
            assert forall|i: int| 0 <= i < p.done.len() implies is_full(#[trigger] p.done[i]) by {
                if i < before.done.len() {
                    assert(p.done[i] == before.done[i]);
                }
            }
        }
        assert(cards_on_all(p.done) + cards_on(p.current) =~= (cards_on_all(before.done) + cards_on(before.current)).push(
            id,
        ));
        assert(ids.take(n) =~= ids.take(n - 1).push(id));
    }
}

/// Where no card stands twice in a deck, the pages hold the cards in their order, each once, and every page but the
/// last is full.
pub proof fn pages_keep_order(ids: Seq<u128>)
    requires
        ids.no_duplicates(),
    ensures
        cards_on_all(all_pages(ids)) == ids,
        forall|i: int| 0 <= i < all_pages(ids).len() - 1 ==> is_full(#[trigger] all_pages(ids)[i]),
{
    let n = ids.len() as int;
    order_is_kept(ids, n);
    let p = after_cards(ids, n);
    assert(ids.take(n) =~= ids);
    if p.current.card_mapping.len() > 0 {
        assert(all_pages(ids).drop_last() =~= p.done);
        assert forall|i: int| 0 <= i < all_pages(ids).len() - 1 implies is_full(#[trigger] all_pages(ids)[i]) by {
            assert(all_pages(ids)[i] == p.done[i]);
        }
    } else {
        assert(cards_on(p.current) =~= Seq::empty());
        assert(cards_on_all(p.done) + cards_on(p.current) =~= cards_on_all(p.done));
    }
}

/// How many cards are on the first `n` pages.
spec fn cards_before(pages: Seq<PageView>, n: int) -> int {
    cards_on_all(pages.take(n)).len() as int
}

/// Where the cards of a page stand among those of all pages.
proof fn page_stands_at(pages: Seq<PageView>, i: int, j: int)
    requires
        0 <= i < pages.len(),
        0 <= j < pages[i].card_mapping.len(),
    ensures
        0 <= cards_before(pages, i),
        cards_before(pages, i) + j < cards_before(pages, i + 1) <= cards_on_all(pages).len(),
        cards_on_all(pages)[cards_before(pages, i) + j] == pages[i].card_mapping[j].0,
    decreases pages.len(),
{
    let rest = pages.drop_last();
    if i == pages.len() - 1 {
        assert(pages.take(i) =~= rest);
        assert(pages.take(i + 1) =~= pages);
        assert(cards_on(pages.last())[j] == pages[i].card_mapping[j].0);
    } else {
        page_stands_at(rest, i, j);
        assert(rest.take(i) =~= pages.take(i));
        assert(rest.take(i + 1) =~= pages.take(i + 1));
    }
}

/// More pages hold no fewer cards.
proof fn cards_before_grows(pages: Seq<PageView>, m: int, n: int)
    requires
        0 <= m <= n <= pages.len(),
    ensures
        cards_before(pages, m) <= cards_before(pages, n),
    decreases n - m,
{
    if m < n {
        cards_before_grows(pages, m, n - 1);
        assert(pages.take(n).drop_last() =~= pages.take(n - 1));
    }
}

/// Where no card stands twice in a deck, no card is on two pages.
pub proof fn no_card_is_on_two_pages(ids: Seq<u128>, id: u128, i: int, k: int)
    requires
        ids.no_duplicates(),
        0 <= i < all_pages(ids).len(),
        0 <= k < all_pages(ids).len(),
        idmap::has_key(all_pages(ids)[i].card_mapping, id),
        idmap::has_key(all_pages(ids)[k].card_mapping, id),
    ensures
        i == k,
{
    let pages = all_pages(ids);
    pages_keep_order(ids);
    idmap::place_is_first(pages[i].card_mapping, id);
    idmap::place_is_first(pages[k].card_mapping, id);
    let a = idmap::place(pages[i].card_mapping, id);
    let b = idmap::place(pages[k].card_mapping, id);
    page_stands_at(pages, i, a);
    page_stands_at(pages, k, b);
    if i < k {
        cards_before_grows(pages, i + 1, k);
    } else if k < i {
        cards_before_grows(pages, k + 1, i);
    }
}

/// Whether each card on a page is one of the first `n` cards, and its place shows that card's picture.
pub open spec fn places_are_true(
    page: PageView,
    shown: Map<int, RgbImage>,
    cards: Seq<(ScryfallId, RgbImage)>,
    n: int,
) -> bool {
    forall|j: int|
        0 <= j < page.card_mapping.len() ==> {
            let (id, place) = #[trigger] page.card_mapping[j];
            shown.contains_key(place as int) && exists|m: int|
                0 <= m < n && (#[trigger] cards[m]).0.0.bits == id && cards[m].1 == shown[place as int]
        }
}

/// Whether the cards on a page stand one behind the other, and the page is no larger than pages get.
pub open spec fn in_order(page: PageView) -> bool {
    &&& 2 <= page.width <= 10
    &&& 2 <= page.height <= 7
    &&& page.card_mapping.len() <= capacity(page.width, page.height)
    &&& forall|j: int| 0 <= j < page.card_mapping.len() ==> (#[trigger] page.card_mapping[j]).1 == j
}

proof fn one_more_place(
    page: PageView,
    shown: Map<int, RgbImage>,
    cards: Seq<(ScryfallId, RgbImage)>,
    n: int,
)
    requires
        0 <= n < cards.len(),
        ids_of(cards).no_duplicates(),
        in_order(page),
        !is_full(page),
        places_are_true(page, shown, cards, n),
    ensures
        in_order(with_card(page, cards[n].0.0.bits)),
        places_are_true(
            with_card(page, cards[n].0.0.bits),
            shown.insert(page.card_mapping.len() as int, cards[n].1),
            cards,
            n + 1,
        ),
{
    let id = cards[n].0.0.bits;
    let mapping = page.card_mapping;
    let k = mapping.len() as int;
    let after = with_card(page, id);
    assert(capacity(page.width, page.height) <= 69) by (nonlinear_arith)
        requires
            2 <= page.width <= 10,
            2 <= page.height <= 7,
            capacity(page.width, page.height) == page.width * page.height - 1,
    ;
    idmap::place_is_first(mapping, id);
    if idmap::has_key(mapping, id) {
        let j = idmap::place(mapping, id);
        assert(mapping[j].0 == id);
        let m = choose|m: int|
            0 <= m < n && (#[trigger] cards[m]).0.0.bits == id && cards[m].1 == shown[mapping[j].1 as int];
        assert(ids_of(cards)[m] == ids_of(cards)[n]);
    }
    let new_shown = shown.insert(k, cards[n].1);
    assert forall|j: int| 0 <= j < after.card_mapping.len() implies ({
        let (other, place) = #[trigger] after.card_mapping[j];
        new_shown.contains_key(place as int) && exists|m: int|
            0 <= m < n + 1 && (#[trigger] cards[m]).0.0.bits == other && cards[m].1 == new_shown[place as int]
    }) by {
        if j < k {
            assert(after.card_mapping[j] == mapping[j]);
        } else {
            assert(cards[n].0.0.bits == id);
        }
    }
}

proof fn places_stay_true(cards: Seq<(ScryfallId, RgbImage)>, n: int)
    requires
        0 <= n <= cards.len(),
        ids_of(cards).no_duplicates(),
    ensures
        ({
            let p = after_cards(ids_of(cards), n);
            let s = shown_after_cards(cards, n);
            &&& s.done.len() == p.done.len()
            &&& in_order(p.current)
            &&& places_are_true(p.current, s.current, cards, n)
            &&& forall|i: int|
                0 <= i < p.done.len() ==> in_order(#[trigger] p.done[i]) && places_are_true(
                    p.done[i],
                    s.done[i],
                    cards,
                    n,
                )
        }),
    decreases n,
{
    if n == 0 {
        let e = cards.len() as int;
        assert(ids_of(cards).len() == e);
        assert(capacity(page_size(e).0, page_size(e).1) > 0);
    } else {
        places_stay_true(cards, n - 1);
        let before = after_cards(ids_of(cards), n - 1);
        let shown = shown_after_cards(cards, n - 1);
        let p = after_cards(ids_of(cards), n);
        let s = shown_after_cards(cards, n);
        let remaining = cards.len() - n;
        assert(ids_of(cards)[n - 1] == cards[n - 1].0.0.bits);
        assert forall|page: PageView, on: Map<int, RgbImage>| #[trigger]
            places_are_true(page, on, cards, n - 1) implies places_are_true(page, on, cards, n) by {
            assert forall|j: int| 0 <= j < page.card_mapping.len() implies ({
                let (id, place) = #[trigger] page.card_mapping[j];
                on.contains_key(place as int) && exists|m: int|
                    0 <= m < n && (#[trigger] cards[m]).0.0.bits == id && cards[m].1 == on[place as int]
            }) by {
                let (id, place) = page.card_mapping[j];
                let m = choose|m: int|
                    0 <= m < n - 1 && (#[trigger] cards[m]).0.0.bits == id && cards[m].1 == on[place as int];
                assert(cards[m].0.0.bits == id);
            }
        }
        if is_full(before.current) {
            assert(capacity(page_size(remaining).0, page_size(remaining).1) > 0);
            one_more_place(empty_page(remaining), Map::empty(), cards, n - 1);
        } else {
            one_more_place(before.current, shown.current, cards, n - 1);
        }
        assert forall|i: int| 0 <= i < p.done.len() implies in_order(#[trigger] p.done[i]) && places_are_true(
            p.done[i],
            s.done[i],
            cards,
            n,
        ) by {
            if i < before.done.len() {
                assert(in_order(before.done[i]));
                assert(places_are_true(before.done[i], shown.done[i], cards, n - 1));
            } else {
                assert(places_are_true(before.current, shown.current, cards, n - 1));
            }
        }
    }
}

/// Where no card stands twice in a deck, the cards on each page stand one behind the other, and the place that a
/// page gives for a card shows that card's picture.
pub proof fn places_show_their_cards(cards: Seq<(ScryfallId, RgbImage)>, i: int)
    requires
        ids_of(cards).no_duplicates(),
        0 <= i < all_pages(ids_of(cards)).len(),
    ensures
        i < all_shown(cards).len(),
        in_order(all_pages(ids_of(cards))[i]),
        places_are_true(all_pages(ids_of(cards))[i], all_shown(cards)[i], cards, cards.len() as int),
{
    places_stay_true(cards, cards.len() as int);
    let p = after_cards(ids_of(cards), cards.len() as int);
    if i < p.done.len() {
        assert(in_order(p.done[i]));
    }
}

/// The name of the file for one of a deck's pages.
pub open spec fn page_filename_of(deck: int, i: int) -> Seq<char> {
    let id = uuids::hyphenated(deck);
    "pages/"@ + id.subrange(0, 2) + "/"@ + id.subrange(2, 4) + "/"@ + id + "_"@ + decimal::decimal(i as nat)
        + ".jpg"@
}

/// The name of the file for one of a deck's pages.
pub fn page_filename(deck: DeckId, i: u16) -> (r: String)
    ensures
        r@ == page_filename_of(deck.0.bits as int, i as int),
{
    let deck_uuid = deck.as_uuid().to_text();
    proof {
        uuids::hyphenated_shape(deck.0.bits as int);
    }
    let chars = text::to_chars(deck_uuid.as_str());
    let mut r = text::concat3("pages/", text::from_chars(&chars, 0, 2).as_str(), "/");
    r.append(text::from_chars(&chars, 2, 4).as_str());
    r.append("/");
    r.append(deck_uuid.as_str());
    r.append("_");
    r.append(decimal::to_decimal(i as u64).as_str());
    r.append(".jpg");
    r
}

/// How many pages there are to save.
pub fn pages_to_save(pages: usize) -> (r: Result<NonZeroU16, PageError>)
    ensures
        match r {
            Ok(n) => n.value() == pages,
            Err(PageError::NoPages) => pages == 0,
            Err(e) => e == PageError::TooManyPages && pages > u16::MAX,
        },
{
    if pages > 0xffff {
        return Err(PageError::TooManyPages);
    }
    match NonZeroU16::new(pages as u16) {
        Some(n) => Ok(n),
        None => Err(PageError::NoPages),
    }
}

/// How far the saving has come.
pub fn saving_progress(saved_pages: u16, total_pages: NonZeroU16) -> (r: RenderProgress)
    ensures
        r == (RenderProgress::SavingPages { saved_pages, total_pages }),
{
    RenderProgress::SavingPages { saved_pages, total_pages }
}

/// Whether a page may have a size.
pub open spec fn is_size(width: int, height: int) -> bool {
    seq![(2int, 2int), (3, 2), (4, 3), (5, 4), (6, 4), (7, 5), (8, 6), (9, 6), (10, 7)].contains((width, height))
}

/// A page is no larger than its cards need: of the sizes that have more places than there are cards it has the
/// smallest one, and the largest size where none has.
pub proof fn page_is_no_larger_than_needed(expected: int, width: int, height: int)
    requires
        0 <= expected,
        is_size(width, height),
    ensures
        ({
            let (w, h) = page_size(expected);
            &&& is_size(w, h)
            &&& expected < width * height - 1 ==> w * h <= width * height && expected < w * h - 1
            &&& expected >= 10 * 7 - 1 ==> w == 10 && h == 7
        }),
{
    let sizes = seq![(2int, 2int), (3, 2), (4, 3), (5, 4), (6, 4), (7, 5), (8, 6), (9, 6), (10, 7)];
    assert(sizes[0] == (2int, 2int) && sizes[1] == (3int, 2int) && sizes[2] == (4int, 3int));
    assert(sizes[3] == (5int, 4int) && sizes[4] == (6int, 4int) && sizes[5] == (7int, 5int));
    assert(sizes[6] == (8int, 6int) && sizes[7] == (9int, 6int) && sizes[8] == (10int, 7int));
    let i = choose|i: int| 0 <= i < sizes.len() && sizes[i] == (width, height);
    assert(i == 0 || i == 1 || i == 2 || i == 3 || i == 4 || i == 5 || i == 6 || i == 7 || i == 8);
}

/// One place of a page, the last one, is kept for the back of hidden cards.
pub proof fn last_place_is_kept(width: int, height: int)
    ensures
        capacity(width, height) + 1 == width * height,
{
}

/// The places of a page are counted row by row, from left to right.
pub proof fn places_go_row_by_row(width: int, row: int, column: int, x: int, y: int)
    requires
        0 <= column < width,
        0 <= row,
        0 <= x < CARD_WIDTH,
        0 <= y < CARD_HEIGHT,
    ensures
        place_at(width, column * CARD_WIDTH + x, row * CARD_HEIGHT + y) == row * width + column,
        in_place(column * CARD_WIDTH + x, row * CARD_HEIGHT + y, row, column),
{
    let w = CARD_WIDTH as int;
    let h = CARD_HEIGHT as int;
    assert((column * w + x) / w == column) by (nonlinear_arith)
        requires
            0 <= x < w,
            0 <= column,
    ;
    assert((row * h + y) / h == row) by (nonlinear_arith)
        requires
            0 <= y < h,
            0 <= row,
    ;
    assert(column * w <= column * w + x < (column + 1) * w) by (nonlinear_arith)
        requires
            0 <= x < w,
    ;
    assert(row * h <= row * h + y < (row + 1) * h) by (nonlinear_arith)
        requires
            0 <= y < h,
    ;
}

/// No two pages are kept in the same file.
pub proof fn page_filenames_differ(a: u128, b: u128, i: int, k: int)
    requires
        0 <= i,
        0 <= k,
        page_filename_of(a as int, i) == page_filename_of(b as int, k),
    ensures
        a == b,
        i == k,
{
    uuids::hyphenated_shape(a as int);
    uuids::hyphenated_shape(b as int);
    reveal_strlit("pages/");
    reveal_strlit("/");
    reveal_strlit("_");
    reveal_strlit(".jpg");
    let x = page_filename_of(a as int, i);
    let y = page_filename_of(b as int, k);
    assert(x.subrange(12, 48) =~= uuids::hyphenated(a as int));
    assert(y.subrange(12, 48) =~= uuids::hyphenated(b as int));
    uuids::hyphenated_injective(a, b);
    assert(x.subrange(49, x.len() - 4) =~= decimal::decimal(i as nat));
    assert(y.subrange(49, y.len() - 4) =~= decimal::decimal(k as nat));
    decimal::decimal_injective(i as nat, k as nat);
}

/// A deck's pages are kept in the bucket for pages.
pub proof fn pages_have_their_bucket(deck: u128, i: int)
    ensures
        crate::files::bucket_of(page_filename_of(deck as int, i)) == Some(crate::files::FileBucket::DeckPages),
{
    reveal_strlit("pages/");
    reveal_strlit("pages");
    reveal_strlit("cards");
    reveal_strlit("tokens");
    let folder = "pages"@;
    let path = page_filename_of(deck as int, i);
    let rest = path.skip(6);
    assert(path =~= folder.push('/') + rest);
    assert(folder[0] == 'p' && folder[1] == 'a' && folder[2] == 'g' && folder[3] == 'e' && folder[4] == 's');
    assert(!folder.contains('/'));
    assert("cards"@[0] == 'c');
    assert("tokens"@.len() == 6);
    crate::files::first_folder_says_bucket(folder, rest);
}

proof fn pages_within_capacity(ids: Seq<u128>, n: int)
    requires
        0 <= n <= ids.len(),
    ensures
        ({
            let p = after_cards(ids, n);
            &&& p.current.card_mapping.len() <= capacity(p.current.width, p.current.height)
            &&& forall|i: int|
                0 <= i < p.done.len() ==> (#[trigger] p.done[i]).card_mapping.len() <= capacity(
                    p.done[i].width,
                    p.done[i].height,
                )
            &&& forall|i: int| 0 <= i < p.done.len() ==> is_full(#[trigger] p.done[i])
        }),
    decreases n,
{
    let expected = ids.len() - n;
    page_is_some_size(expected);
    size_has_places(page_size(expected).0, page_size(expected).1);
    if n > 0 {
        pages_within_capacity(ids, n - 1);
        idmap::place_is_first(empty_page(expected).card_mapping, ids[n - 1]);
        let before = after_cards(ids, n - 1);
        let p = after_cards(ids, n);
        assert forall|i: int| 0 <= i < p.done.len() implies (#[trigger] p.done[i]).card_mapping.len() <= capacity(
            p.done[i].width,
            p.done[i].height,
        ) && is_full(p.done[i]) by {
            if i < before.done.len() {
                assert(p.done[i] == before.done[i]);
            }
        }
        idmap::place_is_first(before.current.card_mapping, ids[n - 1]);
    }
}

/// Every page but the last has a card in each of its places but the one that is kept, and no page has more.
pub proof fn pages_are_filled(ids: Seq<u128>, i: int)
    requires
        0 <= i < all_pages(ids).len(),
    ensures
        ({
            let page = all_pages(ids)[i];
            &&& 0 < page.card_mapping.len() <= page.width * page.height - 1
            &&& i < all_pages(ids).len() - 1 ==> page.card_mapping.len() == page.width * page.height - 1
        }),
{
    let n = ids.len() as int;
    pages_within_capacity(ids, n);
    pages_have_their_sizes(ids, n);
    let p = after_cards(ids, n);
    if i < p.done.len() {
        assert(all_pages(ids)[i] == p.done[i]);
        let page = p.done[i];
        assert(is_full(page));
        assert(is_size(page.width, page.height));
        size_has_places(page.width, page.height);
    }
}

proof fn size_has_places(width: int, height: int)
    requires
        is_size(width, height),
    ensures
        width * height - 1 >= 3,
{
    let sizes = seq![(2int, 2int), (3, 2), (4, 3), (5, 4), (6, 4), (7, 5), (8, 6), (9, 6), (10, 7)];
    assert(sizes[0] == (2int, 2int) && sizes[1] == (3int, 2int) && sizes[2] == (4int, 3int));
    assert(sizes[3] == (5int, 4int) && sizes[4] == (6int, 4int) && sizes[5] == (7int, 5int));
    assert(sizes[6] == (8int, 6int) && sizes[7] == (9int, 6int) && sizes[8] == (10int, 7int));
    let i = choose|i: int| 0 <= i < sizes.len() && sizes[i] == (width, height);
    assert(i == 0 || i == 1 || i == 2 || i == 3 || i == 4 || i == 5 || i == 6 || i == 7 || i == 8);
    assert(width * height >= 4) by (nonlinear_arith)
        requires
            width >= 2,
            height >= 2,
    ;
}

proof fn pages_have_their_sizes(ids: Seq<u128>, n: int)
    requires
        0 <= n <= ids.len(),
    ensures
        ({
            let p = after_cards(ids, n);
            &&& is_size(p.current.width, p.current.height)
            &&& forall|i: int| 0 <= i < p.done.len() ==> is_size((#[trigger] p.done[i]).width, p.done[i].height)
        }),
    decreases n,
{
    let first = ids.len() as int;
    page_is_some_size(first);
    if n > 0 {
        pages_have_their_sizes(ids, n - 1);
        page_is_some_size(ids.len() - n);
        let before = after_cards(ids, n - 1);
        let p = after_cards(ids, n);
        assert forall|i: int| 0 <= i < p.done.len() implies is_size((#[trigger] p.done[i]).width, p.done[i].height) by {
            if i < before.done.len() {
                assert(p.done[i] == before.done[i]);
            }
        }
    }
}

proof fn page_is_some_size(expected: int)
    requires
        0 <= expected,
    ensures
        is_size(page_size(expected).0, page_size(expected).1),
{
    assert(is_size(2, 2)) by {
        let sizes = seq![(2int, 2int), (3, 2), (4, 3), (5, 4), (6, 4), (7, 5), (8, 6), (9, 6), (10, 7)];
        assert(sizes[0] == (2int, 2int));
    }
    page_is_no_larger_than_needed(expected, 2, 2);
}

/// Where no card stands twice in a deck, a page is made for the cards that are left when it is begun: the first one
/// for all of them, and each other one for those behind the card with which it begins.
pub proof fn pages_are_made_for_what_is_left(ids: Seq<u128>, i: int)
    requires
        ids.no_duplicates(),
        0 <= i < all_pages(ids).len(),
    ensures
        ({
            let page = all_pages(ids)[i];
            let placed = cards_on_all(all_pages(ids).take(i)).len();
            (page.width, page.height) == page_size(
                if i == 0 {
                    ids.len() as int
                } else {
                    ids.len() - placed - 1
                },
            )
        }),
{
    let n = ids.len() as int;
    sizes_follow_cards(ids, n);
    let p = after_cards(ids, n);
    let all = p.done.push(p.current);
    assert(all[i] == all_pages(ids)[i]);
    assert(all.take(i) =~= all_pages(ids).take(i));
    assert(fits_what_is_left(all, ids, i));
}

/// Whether a page has the size for the cards that are left when it is begun.
spec fn fits_what_is_left(pages: Seq<PageView>, ids: Seq<u128>, i: int) -> bool {
    (pages[i].width, pages[i].height) == page_size(
        if i == 0 {
            ids.len() as int
        } else {
            ids.len() - cards_on_all(pages.take(i)).len() - 1
        },
    )
}

proof fn sizes_follow_cards(ids: Seq<u128>, n: int)
    requires
        ids.no_duplicates(),
        0 <= n <= ids.len(),
    ensures
        ({
            let p = after_cards(ids, n);
            let all = p.done.push(p.current);
            forall|i: int| 0 <= i < all.len() ==> #[trigger] fits_what_is_left(all, ids, i)
        }),
    decreases n,
{
    if n > 0 {
        sizes_follow_cards(ids, n - 1);
        order_is_kept(ids, n - 1);
        let before = after_cards(ids, n - 1);
        let p = after_cards(ids, n);
        let old_all = before.done.push(before.current);
        let all = p.done.push(p.current);
        assert forall|i: int| 0 <= i < all.len() implies #[trigger] fits_what_is_left(all, ids, i) by {
            if i < old_all.len() {
                assert(fits_what_is_left(old_all, ids, i));
                assert(all.take(i) =~= old_all.take(i));
                assert(all[i].width == old_all[i].width && all[i].height == old_all[i].height);
            } else {
                assert(all.take(i) =~= old_all);
                assert(old_all.drop_last() =~= before.done);
                assert(cards_on_all(old_all).len() == n - 1);
            }
        }
    }
}

/// The picture of a card of the right size is seen pixel for pixel in its place on a page, and the back of hidden
/// cards in the last place; where there is no card the page is black.
pub proof fn pictures_are_seen_in_their_places(
    image: RgbImage,
    width: int,
    height: int,
    shown: Map<int, RgbImage>,
    hidden: RgbImage,
    row: int,
    column: int,
    x: int,
    y: int,
    c: int,
)
    requires
        shows(image, width, height, shown, hidden),
        0 <= column < width,
        0 <= row < height,
        0 <= x < 672,
        0 <= y < 936,
        0 <= c < 3,
        image.holds(column * 672 + x, row * 936 + y),
    ensures
        ({
            let place = row * width + column;
            let byte = image.pixel(column * 672 + x, row * 936 + y, c);
            &&& shown.contains_key(place) && shown[place].width == 672 && shown[place].height == 936 ==> byte
                == shown[place].pixel(x, y, c)
            &&& !shown.contains_key(place) && place == width * height - 1 && hidden.width == 672 && hidden.height == 936
                ==> byte == hidden.pixel(x, y, c)
            &&& !shown.contains_key(place) && place != width * height - 1 ==> byte == 0
        }),
{
    places_go_row_by_row(width, row, column, x, y);
    let px = column * 672 + x;
    let py = row * 936 + y;
    let byte = image.pixel(px, py, c);
    assert(px % 672 == x) by (nonlinear_arith)
        requires
            px == column * 672 + x,
            0 <= x < 672,
            0 <= column,
    ;
    assert(py % 936 == y) by (nonlinear_arith)
        requires
            py == row * 936 + y,
            0 <= y < 936,
            0 <= row,
    ;
}

/// Pages stand for their sizes and for the places of their cards, in their order.
pub proof fn pages_stand_for_their_cards(v: Seq<Page>, i: int)
    requires
        0 <= i < v.len(),
    ensures
        page_views(v).len() == v.len(),
        page_views(v)[i].width == v[i].width,
        page_views(v)[i].height == v[i].height,
        page_views(v)[i].card_mapping == v[i].card_mapping@,
{
}

/// The cards of a deck stand for their IDs, in their order.
pub proof fn cards_stand_for_their_ids(v: Seq<(ScryfallId, RgbImage)>, i: int)
    requires
        0 <= i < v.len(),
    ensures
        ids_of(v).len() == v.len(),
        ids_of(v)[i] == v[i].0.0.bits,
{
}

} // verus!
