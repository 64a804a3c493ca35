//! Collecting the cards of a deck into piles.
use crate::deck::cards::{CardPile, PileCards};
use crate::deck::stored::Deck;
use crate::idmap::IdMap;
use crate::scryfall::{cards, CardView, ScryfallCard};
use crate::tts::piles;
use crate::tts::piles::{Counted, PileError, Piles};
use crate::tts::tokens::TokenSearch;
use vstd::prelude::*;

verus! {

/// The cards of a pile with their numbers of copies.
pub open spec fn copies_of(pile: PileCards) -> Counted {
    pile.map_values(|e: (u128, (CardView, int))| e.1)
}

/// The commanders of a deck, each once.
pub open spec fn leaders_of(leaders: Seq<(u128, CardView)>) -> Counted {
    leaders.map_values(|e: (u128, CardView)| (e.1, 1int))
}

fn listed(pile: &CardPile) -> (r: Vec<(ScryfallCard, u8)>)
    ensures
        piles::counted(r@) == copies_of(crate::deck::cards::pile_cards(pile@)),
{
    let ghost all = copies_of(crate::deck::cards::pile_cards(pile@));
    let mut v: Vec<(ScryfallCard, u8)> = Vec::new();
    let mut i: usize = 0;
    assert(piles::counted(v@) =~= all.take(0));
    while i < pile.len()
        invariant
            i <= pile@.len(),
            all == copies_of(crate::deck::cards::pile_cards(pile@)),
            piles::counted(v@) == all.take(i as int),
        decreases pile@.len() - i,
    {
        let ghost before = v@;
        let e = pile.entry(i);
        let card = (e.1.0.clone(), e.1.1);
        v.push(card);
        assert(piles::counted(v@) =~= piles::counted(before).push((card.0@, card.1 as int)));
        assert(piles::counted(v@) =~= all.take(i + 1));
        i = i + 1;
    }
    assert(all.take(i as int) =~= all);
    v
}

fn listed_leaders(leaders: &IdMap<ScryfallCard>) -> (r: Vec<(ScryfallCard, u8)>)
    ensures
        piles::counted(r@) == leaders_of(crate::deck::cards::leader_cards(leaders@)),
{
    let ghost all = leaders_of(crate::deck::cards::leader_cards(leaders@));
    let mut v: Vec<(ScryfallCard, u8)> = Vec::new();
    let mut i: usize = 0;
    assert(piles::counted(v@) =~= all.take(0));
    while i < leaders.len()
        invariant
            i <= leaders@.len(),
            all == leaders_of(crate::deck::cards::leader_cards(leaders@)),
            piles::counted(v@) == all.take(i as int),
        decreases leaders@.len() - i,
    {
        let ghost before = v@;
        let card = (leaders.entry(i).1.clone(), 1u8);
        v.push(card);
        assert(piles::counted(v@) =~= piles::counted(before).push((card.0@, card.1 as int)));
        assert(piles::counted(v@) =~= all.take(i + 1));
        i = i + 1;
    }
    assert(all.take(i as int) =~= all);
    v
}

/// The cards with which the search for a deck's tokens begins: its main deck and its sideboard, each in the
/// order of their names.
pub open spec fn searched(main_deck: PileCards, sideboard: PileCards) -> Seq<CardView> {
    (piles::by_name(copies_of(main_deck)) + piles::by_name(copies_of(sideboard))).map_values(
        |p: (CardView, int)| p.0,
    )
}

fn add_cards(start: &mut Vec<ScryfallCard>, pile: Vec<(ScryfallCard, u8)>)
    ensures
        cards(final(start)@) == cards(old(start)@) + piles::counted(pile@).map_values(|p: (CardView, int)| p.0),
{
    let ghost before = cards(start@);
    let ghost all = piles::counted(pile@).map_values(|p: (CardView, int)| p.0);
    let mut rest = pile;
    assert(before + all.take(0) =~= before);
    while rest.len() > 0
        invariant
            all == piles::counted(pile@).map_values(|p: (CardView, int)| p.0),
            rest@.len() <= pile@.len(),
            rest@ == pile@.skip(pile@.len() - rest@.len()),
            cards(start@) == before + all.take(pile@.len() - rest@.len()),
        decreases rest@.len(),
    {
        let ghost k = pile@.len() - rest@.len();
        let ghost s = start@;
        let e = rest.remove(0);
        assert(e == pile@[k]);
        assert(rest@ =~= pile@.skip(k + 1));
        start.push(e.0);
        assert(all[k] == e.0@);
        assert(cards(start@) =~= cards(s).push(e.0@));
        assert(cards(start@) =~= before + all.take(k + 1));
    }
    assert(all.take(pile@.len() as int) =~= all);
}

/// Begins the search for a deck's tokens. A deck without a main deck is refused.
pub fn token_search(deck: &Deck) -> (r: Result<TokenSearch, PileError>)
    ensures
        match r {
            Ok(search) => {
                &&& deck@.main_deck.len() > 0
                &&& search.wf()
                &&& search@.queue == searched(deck@.main_deck, deck@.sideboard)
                &&& search@.seen == Set::<u128>::empty()
                &&& search@.found == Seq::<(u128, CardView)>::empty()
                &&& search@.current is None
                &&& search@.index == 0
            },
            Err(e) => deck@.main_deck.len() == 0 && e == PileError::EmptyDeck,
        },
{
    if deck.main_deck.len() == 0 {
        return Err(PileError::EmptyDeck);
    }
    let main_deck = piles::sort_by_name(listed(&deck.main_deck));
    let sideboard = piles::sort_by_name(listed(&deck.sideboard));
    let mut start: Vec<ScryfallCard> = Vec::new();
    assert(cards(start@) =~= Seq::empty());
    add_cards(&mut start, main_deck);
    add_cards(&mut start, sideboard);
    assert(cards(start@) =~= searched(deck@.main_deck, deck@.sideboard));
    Ok(TokenSearch::new(start))
}

/// The piles of a deck and its tokens, each in the order of the names of its cards.
pub fn collect_card_piles(deck: &Deck, tokens: Vec<(ScryfallCard, u8)>) -> (r: Result<Piles, PileError>)
    ensures
        match r {
            Ok(p) => deck@.main_deck.len() > 0 && p@ == piles::laid_out(
                piles::by_name(leaders_of(deck@.commanders)),
                piles::by_name(copies_of(deck@.main_deck)),
                piles::by_name(copies_of(deck@.sideboard)),
                piles::counted(tokens@),
            ),
            Err(e) => deck@.main_deck.len() == 0 && e == PileError::EmptyDeck,
        },
{
    let commanders = piles::sort_by_name(listed_leaders(&deck.commanders));
    let main_deck = piles::sort_by_name(listed(&deck.main_deck));
    let sideboard = piles::sort_by_name(listed(&deck.sideboard));
    proof {
        piles::by_name_orders(copies_of(deck@.main_deck));
        assert(piles::counted(main_deck@).len() == main_deck@.len());
    }
    piles::lay_out(commanders, main_deck, sideboard, tokens)
}

/// Each card of a pile is laid out with its number of copies, and each commander once.
pub proof fn every_card_is_collected(pile: PileCards, leaders: Seq<(u128, CardView)>)
    ensures
        copies_of(pile).len() == pile.len(),
        forall|i: int| 0 <= i < pile.len() ==> #[trigger] copies_of(pile)[i] == (pile[i].1.0, pile[i].1.1),
        leaders_of(leaders).len() == leaders.len(),
        forall|i: int| 0 <= i < leaders.len() ==> #[trigger] leaders_of(leaders)[i] == (leaders[i].1, 1int),
{
}

/// The search for tokens begins with every card of the main deck and of the sideboard, and with no other.
pub proof fn tokens_are_searched_from_all_cards(main_deck: PileCards, sideboard: PileCards, card: CardView)
    ensures
        searched(main_deck, sideboard).len() == main_deck.len() + sideboard.len(),
        searched(main_deck, sideboard).contains(card) <==> (exists|i: int|
            0 <= i < main_deck.len() && (#[trigger] main_deck[i]).1.0 == card) || (exists|i: int|
            0 <= i < sideboard.len() && (#[trigger] sideboard[i]).1.0 == card),
{
    let a = copies_of(main_deck);
    let b = copies_of(sideboard);
    piles::names_are_in_order(a);
    piles::names_are_in_order(b);
    let p = piles::by_name(a);
    let q = piles::by_name(b);
    let all = searched(main_deck, sideboard);
    if all.contains(card) {
        let k = choose|k: int| 0 <= k < all.len() && all[k] == card;
        if k < p.len() {
            assert(p.contains(p[k]));
            assert(a.contains(p[k]));
            let i = choose|i: int| 0 <= i < a.len() && a[i] == p[k];
            assert(main_deck[i].1.0 == card);
        } else {
            assert(q.contains(q[k - p.len()]));
            assert(b.contains(q[k - p.len()]));
            let i = choose|i: int| 0 <= i < b.len() && b[i] == q[k - p.len()];
            assert(sideboard[i].1.0 == card);
        }
    }
    if exists|i: int| 0 <= i < main_deck.len() && (#[trigger] main_deck[i]).1.0 == card {
        let i = choose|i: int| 0 <= i < main_deck.len() && (#[trigger] main_deck[i]).1.0 == card;
        assert(a.contains(a[i]));
        let k = choose|k: int| 0 <= k < p.len() && p[k] == a[i];
        assert(all[k] == card);
    }
    if exists|i: int| 0 <= i < sideboard.len() && (#[trigger] sideboard[i]).1.0 == card {
        let i = choose|i: int| 0 <= i < sideboard.len() && (#[trigger] sideboard[i]).1.0 == card;
        assert(b.contains(b[i]));
        let k = choose|k: int| 0 <= k < q.len() && q[k] == b[i];
        assert(all[p.len() + k] == card);
    }
}

} // verus!
