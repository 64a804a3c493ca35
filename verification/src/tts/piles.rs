//! The piles into which the cards of a deck are laid.
use crate::scryfall::{combined_name_of, CardView, ScryfallCard};
use crate::sort;
use crate::text;
use smallvec::SmallVec;
use vstd::prelude::*;

verus! {

/// Why there are no piles.
#[derive(Clone, Copy, Debug, PartialEq, Eq, Structural)]
pub enum PileError {
    /// A pile would have no card.
    EmptyPile,
    /// The deck has no card.
    EmptyDeck,
}

/// Cards with the number of copies of each, in their order.
pub type Counted = Seq<(CardView, int)>;

/// What a vector of cards with their counts stands for.
pub open spec fn counted(v: Seq<(ScryfallCard, u8)>) -> Counted {
    v.map_values(|p: (ScryfallCard, u8)| (p.0@, p.1 as int))
}

/// The names of some cards.
pub open spec fn names(c: Counted) -> Seq<Seq<char>> {
    c.map_values(|p: (CardView, int)| combined_name_of(p.0.json))
}

/// Cards in the order of their names.
pub open spec fn by_name(c: Counted) -> Counted {
    sort::items_of(sort::sort_by_key(sort::keyed(names(c), c)))
}

/// A pile of cards.
#[derive(Debug)]
pub struct Pile {
    pub cards: Vec<(ScryfallCard, u8)>,
    pub face_up: bool,
}

/// What a pile stands for.
pub struct PileView {
    pub cards: Counted,
    pub face_up: bool,
}

impl View for Pile {
    type V = PileView;

    open spec fn view(&self) -> PileView {
        PileView { cards: counted(self.cards@), face_up: self.face_up }
    }
}

impl Pile {
    /// A pile that lies face up.
    pub fn new_face_up(cards: Vec<(ScryfallCard, u8)>) -> (r: Result<Pile, PileError>)
        ensures
            match r {
                Ok(p) => cards@.len() > 0 && p == (Pile { cards, face_up: true }),
                Err(e) => cards@.len() == 0 && e == PileError::EmptyPile,
            },
    {
        if cards.len() == 0 {
            Err(PileError::EmptyPile)
        } else {
            Ok(Pile { cards, face_up: true })
        }
    }

    /// A pile that lies face down.
    pub fn new_face_down(cards: Vec<(ScryfallCard, u8)>) -> (r: Result<Pile, PileError>)
        ensures
            match r {
                Ok(p) => cards@.len() > 0 && p == (Pile { cards, face_up: false }),
                Err(e) => cards@.len() == 0 && e == PileError::EmptyPile,
            },
    {
        if cards.len() == 0 {
            Err(PileError::EmptyPile)
        } else {
            Ok(Pile { cards, face_up: false })
        }
    }
}

/// The piles of a deck, in a vector that needs no memory of its own for the first few.
#[verifier::external_body]
pub struct Piles {
    inner: SmallVec<[Pile; 4]>,
}

/// The piles that a `Piles` holds, in their order.
pub uninterp spec fn held_piles(piles: Piles) -> Seq<PileView>;

/// `smallvec::SmallVec::new`: no pile at all.
#[verifier::external_body]
fn no_piles() -> (r: Piles)
    ensures
        held_piles(r) == Seq::<PileView>::empty(),
{
    Piles { inner: SmallVec::new() }
}

/// `smallvec::SmallVec::push`: a pile behind the others.
#[verifier::external_body]
fn push_pile(piles: &mut Piles, pile: Pile)
    ensures
        held_piles(*final(piles)) == held_piles(*old(piles)).push(pile@),
{
    piles.inner.push(pile)
}

/// `smallvec::SmallVec::len`: how many piles there are.
#[verifier::external_body]
fn count_piles(piles: &Piles) -> (r: usize)
    ensures
        r == held_piles(*piles).len(),
{
    piles.inner.len()
}

/// Indexing a `smallvec::SmallVec`: one of the piles.
#[verifier::external_body]
fn pile_at(piles: &Piles, i: usize) -> (r: &Pile)
    requires
        i < held_piles(*piles).len(),
    ensures
        r@ == held_piles(*piles)[i as int],
{
    &piles.inner[i]
}

impl View for Piles {
    type V = Seq<PileView>;

    open spec fn view(&self) -> Seq<PileView> {
        held_piles(*self)
    }
}

impl Piles {
    /// No pile at all.
    pub fn new() -> (r: Piles)
        ensures
            r@ == Seq::<PileView>::empty(),
    {
        no_piles()
    }

    /// Lays a pile behind the others.
    pub fn push(&mut self, pile: Pile)
        ensures
            final(self)@ == old(self)@.push(pile@),
    {
        push_pile(self, pile)
    }

    /// How many piles there are.
    pub fn len(&self) -> (r: usize)
        ensures
            r == self@.len(),
    {
        count_piles(self)
    }

    /// One of the piles.
    pub fn get(&self, i: usize) -> (r: Option<&Pile>)
        ensures
            match r {
                Some(p) => i < self@.len() && p@ == self@[i as int],
                None => i >= self@.len(),
            },
    {
        if i < count_piles(self) {
            Some(pile_at(self, i))
        } else {
            None
        }
    }
}

/// Puts cards in the order of their names.
pub fn sort_by_name(cards: Vec<(ScryfallCard, u8)>) -> (r: Vec<(ScryfallCard, u8)>)
    ensures
        counted(r@) == by_name(counted(cards@)),
{
    let mut keys: Vec<String> = Vec::new();
    let mut i: usize = 0;
    let ghost all = counted(cards@);
    while i < cards.len()
        invariant
            i <= cards@.len(),
            all == counted(cards@),
            text::texts(keys@) == names(all.take(i as int)),
        decreases cards.len() - i,
    {
        let ghost before = keys@;
        keys.push(cards[i].0.combined_name());
        proof {
            assert(all[i as int] == (cards@[i as int].0@, cards@[i as int].1 as int));
            assert(text::texts(keys@) =~= text::texts(before).push(combined_name_of(cards@[i as int].0.json@)));
            assert(all.take(i + 1) =~= all.take(i as int).push(all[i as int]));
            assert(text::texts(keys@) =~= names(all.take(i + 1)));
        }
        i = i + 1;
    }
    assert(all.take(i as int) =~= all);
    assert(text::texts(keys@).len() == keys@.len());
    let ghost f = |p: (ScryfallCard, u8)| (p.0@, p.1 as int);
    let ghost pairs = sort::keyed(text::texts(keys@), cards@);
    proof {
        sort::sort_by_key_maps(pairs, f);
        assert(sort::mapped(pairs, f) =~= sort::keyed(names(all), all));
        assert(counted(sort::items_of(sort::sort_by_key(pairs))) =~= sort::items_of(
            sort::mapped(sort::sort_by_key(pairs), f),
        ));
    }
    sort::sort_with_keys(keys, cards)
}

/// Each card once.
pub open spec fn once(v: Seq<CardView>) -> Counted {
    v.map_values(|c: CardView| (c, 1int))
}

/// The piles of a deck: its commanders face up, its main deck face down, its sideboard and its tokens
/// face up; those without cards are left out.
pub open spec fn laid_out(commanders: Counted, main_deck: Counted, sideboard: Counted, tokens: Counted) -> Seq<
    PileView,
> {
    face_up(commanders) + seq![PileView { cards: main_deck, face_up: false }] + face_up(sideboard) + face_up(
        tokens,
    )
}

/// A pile that lies face up, where there are cards for it.
pub open spec fn face_up(cards: Counted) -> Seq<PileView> {
    if cards.len() > 0 {
        seq![PileView { cards, face_up: true }]
    } else {
        Seq::empty()
    }
}

fn push_face_up(piles: &mut Piles, cards: Vec<(ScryfallCard, u8)>)
    ensures
        final(piles)@ == old(piles)@ + face_up(counted(cards@)),
{
    assert(counted(cards@).len() == cards@.len());
    match Pile::new_face_up(cards) {
        Ok(pile) => {
            piles.push(pile);
            assert(piles@ =~= old(piles)@ + face_up(counted(cards@)));
        },
        Err(_) => {
            assert(piles@ =~= old(piles)@ + face_up(counted(cards@)));
        },
    }
}

/// Lays out the piles of a deck.
pub fn lay_out(
    commanders: Vec<(ScryfallCard, u8)>,
    main_deck: Vec<(ScryfallCard, u8)>,
    sideboard: Vec<(ScryfallCard, u8)>,
    tokens: Vec<(ScryfallCard, u8)>,
) -> (r: Result<Piles, PileError>)
    ensures
        match r {
            Ok(piles) => main_deck@.len() > 0 && piles@ == laid_out(
                counted(commanders@),
                counted(main_deck@),
                counted(sideboard@),
                counted(tokens@),
            ),
            Err(e) => main_deck@.len() == 0 && e == PileError::EmptyDeck,
        },
{
    let mut piles = Piles::new();
    push_face_up(&mut piles, commanders);
    match Pile::new_face_down(main_deck) {
        Ok(pile) => piles.push(pile),
        Err(_) => {
            return Err(PileError::EmptyDeck);
        },
    }
    push_face_up(&mut piles, sideboard);
    push_face_up(&mut piles, tokens);
    assert(piles@ =~= laid_out(counted(commanders@), counted(main_deck@), counted(sideboard@), counted(tokens@)));
    Ok(piles)
}

/// Every pile of a deck with cards has a card, there are one to four of them, and exactly one, the main
/// deck, lies face down.
pub proof fn laid_out_shape(commanders: Counted, main_deck: Counted, sideboard: Counted, tokens: Counted)
    requires
        main_deck.len() > 0,
    ensures
        ({
            let piles = laid_out(commanders, main_deck, sideboard, tokens);
            &&& 1 <= piles.len() <= 4
            &&& forall|i: int| 0 <= i < piles.len() ==> (#[trigger] piles[i]).cards.len() > 0
            &&& exists|m: int|
                0 <= m < piles.len() && piles[m] == (PileView { cards: main_deck, face_up: false }) && forall|i: int|
                    0 <= i < piles.len() && i != m ==> (#[trigger] piles[i]).face_up
        }),
{
    let piles = laid_out(commanders, main_deck, sideboard, tokens);
    let m = face_up(commanders).len() as int;
    assert(piles[m] == (PileView { cards: main_deck, face_up: false }));
}

/// Putting cards in the order of their names orders them, and loses none.
pub proof fn by_name_orders(c: Counted)
    ensures
        sort::in_order(sort::keyed(names(by_name(c)), by_name(c))),
        sort::keyed(names(by_name(c)), by_name(c)).to_multiset() == sort::keyed(names(c), c).to_multiset(),
        by_name(c).len() == c.len(),
{
    let k = sort::keyed(names(c), c);
    let p = |e: (Seq<char>, (CardView, int))| e.0 == combined_name_of(e.1.0.json);
    sort::sort_by_key_keeps(k, p);
    sort::sort_by_key_orders(k);
    sort::sort_by_key_permutes(k);
    let s = sort::sort_by_key(k);
    assert forall|i: int| 0 <= i < s.len() implies #[trigger] sort::keyed(names(by_name(c)), by_name(c))[i]
        == s[i] by {
        assert(p(s[i]));
    }
    assert(sort::keyed(names(by_name(c)), by_name(c)) =~= s);
}

/// Cards in the order of their names: none stands before another whose name comes first, and each is there as
/// often as before.
pub proof fn names_are_in_order(c: Counted)
    ensures
        ({
            let r = by_name(c);
            &&& r.len() == c.len()
            &&& forall|i: int, j: int|
                0 <= i <= j < r.len() ==> text::text_le(
                    combined_name_of((#[trigger] r[i]).0.json),
                    combined_name_of((#[trigger] r[j]).0.json),
                )
            &&& forall|e: (CardView, int)| r.contains(e) <==> #[trigger] c.contains(e)
        }),
{
    by_name_orders(c);
    let r = by_name(c);
    let kr = sort::keyed(names(r), r);
    let kc = sort::keyed(names(c), c);
    kr.to_multiset_ensures();
    kc.to_multiset_ensures();
    assert forall|i: int, j: int| 0 <= i <= j < r.len() implies text::text_le(
        combined_name_of((#[trigger] r[i]).0.json),
        combined_name_of((#[trigger] r[j]).0.json),
    ) by {
        assert(kr[i].0 == combined_name_of(r[i].0.json));
        assert(kr[j].0 == combined_name_of(r[j].0.json));
        assert(text::text_le(kr[i].0, kr[j].0));
    }
    assert forall|e: (CardView, int)| r.contains(e) <==> #[trigger] c.contains(e) by {
        let ke = (combined_name_of(e.0.json), e);
        assert(kr.to_multiset().count(ke) == kc.to_multiset().count(ke));
        assert(kr.contains(ke) == kc.contains(ke));
        if r.contains(e) {
            let i = choose|i: int| 0 <= i < r.len() && r[i] == e;
            assert(kr[i] == ke);
            let k = choose|k: int| 0 <= k < kc.len() && kc[k] == ke;
            assert(c[k] == e);
        }
        if c.contains(e) {
            let i = choose|i: int| 0 <= i < c.len() && c[i] == e;
            assert(kc[i] == ke);
            let k = choose|k: int| 0 <= k < kr.len() && kr[k] == ke;
            assert(r[k] == e);
        }
    }
}

/// Where each pile lies: the commanders first, then the main deck, the sideboard and the tokens, and no other
/// pile. Those without cards have none; the main deck alone lies face down.
pub proof fn each_pile_has_its_place(commanders: Counted, main_deck: Counted, sideboard: Counted, tokens: Counted)
    ensures
        ({
            let piles = laid_out(commanders, main_deck, sideboard, tokens);
            let led: int = if commanders.len() > 0 {
                1
            } else {
                0
            };
            let sided: int = if sideboard.len() > 0 {
                1
            } else {
                0
            };
            let made: int = if tokens.len() > 0 {
                1
            } else {
                0
            };
            &&& piles.len() == 1 + led + sided + made
            &&& commanders.len() > 0 ==> piles[0].cards == commanders && piles[0].face_up
            &&& piles[led].cards == main_deck && !piles[led].face_up
            &&& sideboard.len() > 0 ==> piles[led + 1].cards == sideboard && piles[led + 1].face_up
            &&& tokens.len() > 0 ==> piles.last().cards == tokens && piles.last().face_up
        }),
{
}

/// Each token is laid out once.
pub proof fn tokens_come_once(v: Seq<CardView>, i: int)
    requires
        0 <= i < v.len(),
    ensures
        once(v).len() == v.len(),
        once(v)[i] == (v[i], 1int),
{
}

/// A pile stands for its cards, each with its number of copies, in their order, and for how it lies.
pub proof fn piles_stand_for_their_cards(pile: Pile, i: int)
    requires
        0 <= i < pile.cards@.len(),
    ensures
        counted(pile.cards@).len() == pile.cards@.len(),
        counted(pile.cards@)[i] == (pile.cards@[i].0@, pile.cards@[i].1 as int),
        pile@.cards == counted(pile.cards@),
        pile@.face_up == pile.face_up,
{
}

} // verus!
