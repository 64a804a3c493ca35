//! From a deck's list to the cards that stand for it.
use crate::deck::loaders::CardList;
use crate::idmap;
use crate::idmap::IdMap;
use crate::scryfall::printings;
use crate::scryfall::printings::{Printing, PrintingView};
use crate::scryfall::{id_field, CardError, CardView, Field, ScryfallCard, ScryfallCardRow, ScryfallId, ScryfallOracleId};
use crate::text;
use crate::types::deck::DeckColorIdentity;
use crate::uuids::Uuid;
use vstd::prelude::*;

verus! {

/// Cards by their IDs, with their numbers of copies.
pub type CardPile = IdMap<(ScryfallCard, u8)>;

/// What a pile of cards stands for.
pub type PileCards = Seq<(u128, (CardView, int))>;

/// What a card with its number of copies stands for.
pub open spec fn counted_view() -> spec_fn((ScryfallCard, u8)) -> (CardView, int) {
    |p: (ScryfallCard, u8)| (p.0@, p.1 as int)
}

/// What a pile of cards stands for.
pub open spec fn pile_cards(s: Seq<(u128, (ScryfallCard, u8))>) -> PileCards {
    idmap::mapped(s, counted_view())
}

/// What some commanders stand for.
pub open spec fn leader_cards(s: Seq<(u128, ScryfallCard)>) -> Seq<(u128, CardView)> {
    idmap::mapped(s, |c: ScryfallCard| c@)
}

/// A pile with some printings put into it, one after the other.
pub open spec fn with_printings(pile: PileCards, t: Seq<PrintingView>) -> PileCards
    decreases t.len(),
{
    if t.len() == 0 {
        pile
    } else {
        let p = t.last();
        idmap::put(with_printings(pile, t.drop_last()), p.id, (p.card, p.count))
    }
}

/// The pile for a list: the printings of each card of it, from the rows that the database has of it.
pub open spec fn expanded(
    list: Seq<(u128, (String, u8))>,
    rows: Seq<Vec<ScryfallCardRow>>,
    n: int,
) -> Result<PileCards, CardError>
    decreases n,
{
    if n <= 0 {
        Ok(Seq::empty())
    } else {
        match expanded(list, rows, n - 1) {
            Err(e) => Err(e),
            Ok(before) => match printings::expansion(
                ScryfallOracleId(Uuid { bits: list[n - 1].0 }),
                rows[n - 1]@,
                list[n - 1].1.1 as int,
            ) {
                Err(e) => Err(e),
                Ok(t) => Ok(with_printings(before, t)),
            },
        }
    }
}

proof fn expanded_stays_wrong(list: Seq<(u128, (String, u8))>, rows: Seq<Vec<ScryfallCardRow>>, m: int, n: int)
    requires
        m <= n,
        expanded(list, rows, m) is Err,
    ensures
        expanded(list, rows, n) == expanded(list, rows, m),
    decreases n - m,
{
    if m < n {
        expanded_stays_wrong(list, rows, m, n - 1);
    }
}

/// Puts some printings into a pile.
pub fn add_printings(pile: &mut CardPile, t: Vec<Printing>)
    requires
        old(pile).wf(),
    ensures
        final(pile).wf(),
        pile_cards(final(pile)@) == with_printings(pile_cards(old(pile)@), printings::printings(t@)),
{
    let ghost all = printings::printings(t@);
    let ghost start = pile_cards(pile@);
    let mut rest = t;
    assert(all.take(0) =~= Seq::empty());
    while rest.len() > 0
        invariant
            pile.wf(),
            all == printings::printings(t@),
            rest@.len() <= t@.len(),
            rest@ == t@.skip(t@.len() - rest@.len()),
            pile_cards(pile@) == with_printings(start, all.take(t@.len() - rest@.len())),
        decreases rest@.len(),
    {
        let ghost k = t@.len() - rest@.len();
        let p = rest.remove(0);
        proof {
            assert(p == t@[k]);
            assert(all[k] == p@);
            assert(rest@ =~= t@.skip(k + 1));
            assert(all.take(k + 1).drop_last() =~= all.take(k));
            assert(all.take(k + 1).last() == all[k]);
            idmap::put_maps(pile@, p.id.0.bits, (p.card, p.count), counted_view());
        }
        pile.insert(p.id.0.bits, (p.card, p.count));
    }
    assert(all.take(t@.len() as int) =~= all);
}

/// The pile for a list, from the rows that the database has of each card of it.
pub fn expand_cards(card_list: &CardList, rows: Vec<Vec<ScryfallCardRow>>) -> (r: Result<CardPile, CardError>)
    requires
        rows@.len() == card_list@.len(),
    ensures
        match r {
            Ok(pile) => pile.wf() && expanded(card_list@, rows@, card_list@.len() as int) == Ok::<
                PileCards,
                CardError,
            >(pile_cards(pile@)),
            Err(e) => expanded(card_list@, rows@, card_list@.len() as int) == Err::<PileCards, CardError>(e),
        },
{
    let ghost list = card_list@;
    let mut output: CardPile = IdMap::new();
    let mut rest = rows;
    assert(pile_cards(output@) =~= Seq::empty());
    let mut i: usize = 0;
    while i < card_list.len()
        invariant
            list == card_list@,
            rows@.len() == list.len(),
            i <= list.len(),
            rest@ == rows@.skip(i as int),
            output.wf(),
            expanded(list, rows@, i as int) == Ok::<PileCards, CardError>(pile_cards(output@)),
        decreases list.len() - i,
    {
        let found = rest.remove(0);
        let oracle_id = ScryfallOracleId(Uuid { bits: card_list.entry(i).0 });
        let oracle_count: u8 = card_list.entry(i).1.1;
        proof {
            assert(found == rows@[i as int]);
            assert(rest@ =~= rows@.skip(i + 1));
            if expanded(list, rows@, i + 1) is Err {
                expanded_stays_wrong(list, rows@, i + 1, list.len() as int);
            }
        }
        match printings::expand_oracle_id(oracle_id, found, oracle_count) {
            Err(e) => {
                return Err(e);
            },
            Ok(t) => add_printings(&mut output, t),
        }
        i = i + 1;
    }
    Ok(output)
}

/// Each commander of a list once.
pub open spec fn leader_list(commanders: Seq<(u128, String)>) -> Seq<(u128, (String, u8))> {
    idmap::mapped(commanders, |name: String| (name, 1u8))
}

fn one_each(commanders: IdMap<String>) -> (r: CardList)
    requires
        commanders.wf(),
    ensures
        r.wf(),
        r@ == leader_list(commanders@),
{
    let ghost start = commanders@;
    let mut entries = commanders.into_entries();
    let mut list: Vec<(u128, (String, u8))> = Vec::new();
    while entries.len() > 0
        invariant
            entries@.len() <= start.len(),
            entries@ == start.skip(start.len() - entries@.len()),
            list@ == leader_list(start).take(start.len() - entries@.len()),
        decreases entries@.len(),
    {
        let ghost k = start.len() - entries@.len();
        let e = entries.remove(0);
        assert(e == start[k]);
        assert(entries@ =~= start.skip(k + 1));
        list.push((e.0, (e.1, 1)));
        assert(leader_list(start)[k] == (e.0, (e.1, 1u8)));
        assert(list@ =~= leader_list(start).take(k + 1));
    }
    assert(list@ =~= leader_list(start));
    assert forall|i: int, j: int| 0 <= i < j < list@.len() implies (#[trigger] list@[i]).0 != (#[trigger] list@[
        j]).0 by {
        assert(leader_list(start)[i].0 == start[i].0);
        assert(leader_list(start)[j].0 == start[j].0);
    }
    IdMap::from_entries(list)
}

/// Whether there is one copy of each card.
pub open spec fn all_single(pile: PileCards) -> bool {
    forall|i: int| 0 <= i < pile.len() ==> (#[trigger] pile[i]).1.1 == 1
}

/// One copy of a card is one printing of it.
proof fn one_is_single(id: ScryfallOracleId, rows: Seq<ScryfallCardRow>)
    requires
        printings::expansion(id, rows, 1) is Ok,
    ensures
        ({
            let t = printings::expansion(id, rows, 1)->Ok_0;
            t.len() == 1 && t[0].count == 1
        }),
{
    let o = printings::options(printings::readable(rows));
    reveal_with_fuel(printings::dealt, 3);
    reveal_with_fuel(printings::place_of, 2);
}

/// The pile for commanders has one copy of each.
proof fn leaders_are_single(commanders: Seq<(u128, String)>, rows: Seq<Vec<ScryfallCardRow>>, n: int)
    requires
        0 <= n <= commanders.len(),
        expanded(leader_list(commanders), rows, n) is Ok,
    ensures
        all_single(expanded(leader_list(commanders), rows, n)->Ok_0),
    decreases n,
{
    if n > 0 {
        let list = leader_list(commanders);
        leaders_are_single(commanders, rows, n - 1);
        assert(list[n - 1].1.1 == 1);
        let id = ScryfallOracleId(Uuid { bits: list[n - 1].0 });
        one_is_single(id, rows[n - 1]@);
        let t = printings::expansion(id, rows[n - 1]@, 1)->Ok_0;
        let before = expanded(list, rows, n - 1)->Ok_0;
        reveal_with_fuel(with_printings, 2);
        assert(t.drop_last().len() == 0);
        let after = idmap::put(before, t[0].id, (t[0].card, t[0].count));
        assert(with_printings(before, t) == after);
        idmap::place_is_first(before, t[0].id);
        assert forall|i: int| 0 <= i < after.len() implies (#[trigger] after[i]).1.1 == 1 by {
            if i < before.len() {
                assert(before[i].1.1 == 1);
            }
        }
    }
}

/// The cards of a deck.
#[derive(Debug)]
pub struct DeckCards {
    pub commanders: IdMap<ScryfallCard>,
    pub main_deck: CardPile,
    pub sideboard: CardPile,
}

impl DeckCards {
    /// Whether no card stands twice in a pile.
    pub open spec fn wf(&self) -> bool {
        self.commanders.wf() && self.main_deck.wf() && self.sideboard.wf()
    }
}

/// The cards of a pile without their numbers of copies.
pub open spec fn only_cards(pile: PileCards) -> Seq<(u128, CardView)> {
    idmap::mapped(pile, |p: (CardView, int)| p.0)
}

fn drop_counts(pile: CardPile) -> (r: IdMap<ScryfallCard>)
    requires
        pile.wf(),
    ensures
        r.wf(),
        leader_cards(r@) == only_cards(pile_cards(pile@)),
{
    let ghost start = pile@;
    let mut entries = pile.into_entries();
    let mut list: Vec<(u128, ScryfallCard)> = Vec::new();
    while entries.len() > 0
        invariant
            entries@.len() <= start.len(),
            entries@ == start.skip(start.len() - entries@.len()),
            list@.len() == start.len() - entries@.len(),
            forall|i: int| 0 <= i < list@.len() ==> #[trigger] list@[i] == (start[i].0, start[i].1.0),
        decreases entries@.len(),
    {
        let ghost k = start.len() - entries@.len();
        let e = entries.remove(0);
        assert(e == start[k]);
        assert(entries@ =~= start.skip(k + 1));
        list.push((e.0, e.1.0));
    }
    proof {
        let a = leader_cards(list@);
        let b = only_cards(pile_cards(start));
        assert forall|i: int| 0 <= i < a.len() implies #[trigger] a[i] == b[i] by {
            assert(list@[i] == (start[i].0, start[i].1.0));
            assert(pile_cards(start)[i] == (start[i].0, (start[i].1.0@, start[i].1.1 as int)));
        }
        assert(a =~= b);
        assert forall|i: int, j: int| 0 <= i < j < list@.len() implies (#[trigger] list@[i]).0 != (
        #[trigger] list@[j]).0 by {
            assert(start[i].0 != start[j].0);
        }
    }
    IdMap::from_entries(list)
}

/// The cards for a deck's lists: one printing of each commander, and the printings of the other cards,
/// from the rows that the database has of each. Whatever is wrong first is what is wrong with the deck.
pub fn find_cards(
    commanders: IdMap<String>,
    main_deck: CardList,
    sideboard: CardList,
    commander_rows: Vec<Vec<ScryfallCardRow>>,
    main_rows: Vec<Vec<ScryfallCardRow>>,
    side_rows: Vec<Vec<ScryfallCardRow>>,
) -> (r: Result<DeckCards, CardError>)
    requires
        commanders.wf(),
        commander_rows@.len() == commanders@.len(),
        main_rows@.len() == main_deck@.len(),
        side_rows@.len() == sideboard@.len(),
    ensures
        ({
            let leaders = expanded(leader_list(commanders@), commander_rows@, commanders@.len() as int);
            let main_pile = expanded(main_deck@, main_rows@, main_deck@.len() as int);
            let side_pile = expanded(sideboard@, side_rows@, sideboard@.len() as int);
            match r {
                Ok(cards) => {
                    &&& cards.wf()
                    &&& leaders is Ok
                    &&& all_single(leaders->Ok_0)
                    &&& leader_cards(cards.commanders@) == only_cards(leaders->Ok_0)
                    &&& main_pile == Ok::<PileCards, CardError>(pile_cards(cards.main_deck@))
                    &&& side_pile == Ok::<PileCards, CardError>(pile_cards(cards.sideboard@))
                },
                Err(e) => if leaders is Err {
                    leaders == Err::<PileCards, CardError>(e)
                } else if main_pile is Err {
                    main_pile == Err::<PileCards, CardError>(e)
                } else {
                    side_pile == Err::<PileCards, CardError>(e)
                },
            }
        }),
{
    let ghost named = commanders@;
    let leaders = one_each(commanders);
    assert(leader_list(named).len() == named.len());
    let commanders = match expand_cards(&leaders, commander_rows) {
        Ok(pile) => {
            proof {
                leaders_are_single(named, commander_rows@, named.len() as int);
            }
            drop_counts(pile)
        },
        Err(e) => {
            return Err(e);
        },
    };
    let main_deck = match expand_cards(&main_deck, main_rows) {
        Ok(pile) => pile,
        Err(e) => {
            return Err(e);
        },
    };
    let sideboard = match expand_cards(&sideboard, side_rows) {
        Ok(pile) => pile,
        Err(e) => {
            return Err(e);
        },
    };
    Ok(DeckCards { commanders, main_deck, sideboard })
}

/// How many copies of cards are in a pile.
pub open spec fn copies(pile: PileCards) -> int
    decreases pile.len(),
{
    if pile.len() == 0 {
        0
    } else {
        copies(pile.drop_last()) + pile.last().1.1
    }
}

/// How many copies the first `n` entries of a list ask for.
pub open spec fn listed_copies(list: Seq<(u128, (String, u8))>, n: int) -> int
    decreases n,
{
    if n <= 0 {
        0
    } else {
        listed_copies(list, n - 1) + list[n - 1].1.1
    }
}

/// Whether some rows hold a printing with an ID.
pub open spec fn holds_printing(rows: Seq<ScryfallCardRow>, id: u128) -> bool {
    exists|i: int|
        0 <= i < printings::readable(rows).len() && id_field((#[trigger] printings::readable(rows)[i]).json, Field::Id)
            == Ok::<u128, CardError>(id)
}

/// Whether no printing stands among the rows of two entries.
pub open spec fn printings_part(rows: Seq<Vec<ScryfallCardRow>>) -> bool {
    forall|i: int, j: int, id: u128|
        0 <= i < j < rows.len() && #[trigger] holds_printing(rows[i]@, id) ==> !#[trigger] holds_printing(rows[j]@, id)
}

/// The options are cards that were read.
proof fn options_are_read(all: Seq<CardView>, card: CardView)
    requires
        printings::options(all).contains(card),
    ensures
        all.contains(card),
{
    let full_plain = |c: CardView| printings::full_face(c.json) == true && printings::funny(c.json) == false;
    let half_plain = |c: CardView| printings::full_face(c.json) == false && printings::funny(c.json) == false;
    let full_fun = |c: CardView| printings::full_face(c.json) == true && printings::funny(c.json) == true;
    let half_fun = |c: CardView| printings::full_face(c.json) == false && printings::funny(c.json) == true;
    assert(printings::of_kind(all, true, false) == all.filter(full_plain));
    assert(printings::of_kind(all, false, false) == all.filter(half_plain));
    assert(printings::of_kind(all, true, true) == all.filter(full_fun));
    assert(printings::of_kind(all, false, true) == all.filter(half_fun));
    if printings::of_kind(all, true, false).len() > 0 {
        all.lemma_filter_contains_rev(full_plain, card);
    } else if printings::of_kind(all, false, false).len() > 0 {
        all.lemma_filter_contains_rev(half_plain, card);
    } else if printings::of_kind(all, true, true).len() > 0 {
        all.lemma_filter_contains_rev(full_fun, card);
    } else {
        all.lemma_filter_contains_rev(half_fun, card);
    }
}

/// Printings that a pile does not have yet come with all their copies.
proof fn printings_add(pile: PileCards, t: Seq<PrintingView>)
    requires
        forall|i: int, j: int| 0 <= i < j < t.len() ==> (#[trigger] t[i]).id != (#[trigger] t[j]).id,
        forall|i: int| 0 <= i < t.len() ==> !idmap::has_key(pile, (#[trigger] t[i]).id),
    ensures
        copies(with_printings(pile, t)) == copies(pile) + printings::total(t),
        with_printings(pile, t).len() == pile.len() + t.len(),
        forall|i: int| 0 <= i < pile.len() ==> #[trigger] with_printings(pile, t)[i] == pile[i],
        forall|i: int| 0 <= i < t.len() ==> with_printings(pile, t)[pile.len() + i].0 == (#[trigger] t[i]).id,
    decreases t.len(),
{
    if t.len() > 0 {
        let rest = t.drop_last();
        let p = t.last();
        assert forall|i: int| 0 <= i < rest.len() implies !idmap::has_key(pile, (#[trigger] rest[i]).id) by {
            assert(t[i] == rest[i]);
        }
        printings_add(pile, rest);
        let before = with_printings(pile, rest);
        idmap::place_is_first(before, p.id);
        idmap::place_is_first(pile, p.id);
        if idmap::has_key(before, p.id) {
            let k = idmap::place(before, p.id);
            assert(!idmap::has_key(pile, t[t.len() - 1].id));
            if k < pile.len() {
                assert(before[k] == pile[k]);
            } else {
                let i = k - pile.len();
                assert(before[pile.len() + i].0 == rest[i].id);
                assert(t[i].id != t[t.len() - 1].id);
            }
        }
        let after = with_printings(pile, t);
        assert(after == before.push((p.id, (p.card, p.count))));
        assert(after.drop_last() =~= before);
        assert forall|i: int| 0 <= i < t.len() implies after[pile.len() + i].0 == (#[trigger] t[i]).id by {
            if i < rest.len() {
                assert(before[pile.len() + i].0 == rest[i].id);
            }
        }
    }
}

/// Where no printing stands under two entries of a list, the pile for the list has as many copies as the list asks for.
pub proof fn expansion_keeps_copies(list: Seq<(u128, (String, u8))>, rows: Seq<Vec<ScryfallCardRow>>, n: int)
    requires
        0 <= n <= list.len(),
        rows.len() == list.len(),
        printings_part(rows),
    ensures
        expanded(list, rows, n) matches Ok(pile) ==> {
            &&& copies(pile) == listed_copies(list, n)
            &&& forall|k: int|
                0 <= k < pile.len() ==> exists|m: int| 0 <= m < n && holds_printing(#[trigger] rows[m]@, (#[trigger] pile[k]).0)
        },
    decreases n,
{
    if n > 0 && expanded(list, rows, n) is Ok {
        expansion_keeps_copies(list, rows, n - 1);
        let before = expanded(list, rows, n - 1)->Ok_0;
        let id = ScryfallOracleId(Uuid { bits: list[n - 1].0 });
        let count = list[n - 1].1.1 as int;
        let t = printings::expansion(id, rows[n - 1]@, count)->Ok_0;
        let all = printings::readable(rows[n - 1]@);
        let o = printings::options(all);
        printings::dealt_counts(o, count);
        printings::dealt_from_options(o, count);
        assert forall|i: int| 0 <= i < t.len() implies holds_printing(rows[n - 1]@, (#[trigger] t[i]).id) by {
            options_are_read(all, t[i].card);
            let j = choose|j: int| 0 <= j < all.len() && all[j] == t[i].card;
            assert(id_field(all[j].json, Field::Id) == Ok::<u128, CardError>(t[i].id));
        }
        assert forall|i: int| 0 <= i < t.len() implies !idmap::has_key(before, (#[trigger] t[i]).id) by {
            idmap::place_is_first(before, t[i].id);
            if idmap::has_key(before, t[i].id) {
                let k = idmap::place(before, t[i].id);
                let m = choose|m: int| 0 <= m < n - 1 && holds_printing(#[trigger] rows[m]@, before[k].0);
                assert(holds_printing(rows[m]@, t[i].id));
                assert(holds_printing(rows[n - 1]@, t[i].id));
            }
        }
        printings_add(before, t);
        let pile = with_printings(before, t);
        assert forall|k: int| 0 <= k < pile.len() implies exists|m: int|
            0 <= m < n && holds_printing(#[trigger] rows[m]@, (#[trigger] pile[k]).0) by {
            if k < before.len() {
                assert(pile[k] == before[k]);
                let m = choose|m: int| 0 <= m < n - 1 && holds_printing(#[trigger] rows[m]@, before[k].0);
                assert(holds_printing(rows[m]@, pile[k].0));
            } else {
                let i = k - before.len();
                assert(pile[before.len() + i].0 == t[i].id);
                assert(holds_printing(rows[n - 1]@, pile[k].0));
            }
        }
    }
}

/// A pile with one copy of each card has as many cards as copies.
proof fn single_copies(pile: PileCards)
    requires
        all_single(pile),
    ensures
        copies(pile) == pile.len(),
    decreases pile.len(),
{
    if pile.len() > 0 {
        assert(pile[pile.len() - 1].1.1 == 1);
        assert forall|i: int| 0 <= i < pile.drop_last().len() implies (#[trigger] pile.drop_last()[i]).1.1 == 1 by {
            assert(pile[i].1.1 == 1);
        }
        single_copies(pile.drop_last());
    }
}

/// A list of commanders asks for one copy of each.
proof fn leaders_listed_once(commanders: Seq<(u128, String)>, n: int)
    requires
        0 <= n <= commanders.len(),
    ensures
        listed_copies(leader_list(commanders), n) == n,
    decreases n,
{
    if n > 0 {
        leaders_listed_once(commanders, n - 1);
        assert(leader_list(commanders)[n - 1].1.1 == 1);
    }
}

/// Where no printing stands under two commanders, there are as many commanders as the list has.
pub proof fn every_leader_is_there(commanders: Seq<(u128, String)>, rows: Seq<Vec<ScryfallCardRow>>)
    requires
        rows.len() == commanders.len(),
        printings_part(rows),
    ensures
        expanded(leader_list(commanders), rows, commanders.len() as int) matches Ok(pile) ==> only_cards(pile).len()
            == commanders.len(),
{
    let n = commanders.len() as int;
    let list = leader_list(commanders);
    assert(list.len() == n);
    expansion_keeps_copies(list, rows, n);
    leaders_listed_once(commanders, n);
    if expanded(list, rows, n) is Ok {
        leaders_are_single(commanders, rows, n);
        single_copies(expanded(list, rows, n)->Ok_0);
    }
}

/// The piles that the database tells apart.
#[derive(Clone, Copy, Debug, PartialEq, Eq, Structural)]
pub enum PileKind {
    Commander,
    MainDeck,
    Sideboard,
}

/// What the database calls a pile.
pub open spec fn pile_name(kind: PileKind) -> Seq<char> {
    match kind {
        PileKind::Commander => "commander"@,
        PileKind::MainDeck => "main_deck"@,
        PileKind::Sideboard => "sideboard"@,
    }
}

/// The pile that the database calls by a name.
pub open spec fn pile_called(name: Seq<char>) -> Option<PileKind> {
    if name == "commander"@ {
        Some(PileKind::Commander)
    } else if name == "main_deck"@ {
        Some(PileKind::MainDeck)
    } else if name == "sideboard"@ {
        Some(PileKind::Sideboard)
    } else {
        None
    }
}

impl PileKind {
    /// What the database calls the pile.
    pub fn name(&self) -> (r: &'static str)
        ensures
            r@ == pile_name(*self),
    {
        match self {
            PileKind::Commander => "commander",
            PileKind::MainDeck => "main_deck",
            PileKind::Sideboard => "sideboard",
        }
    }

    /// The pile that the database calls by a name.
    pub fn called(name: &str) -> (r: Option<PileKind>)
        ensures
            r == pile_called(name@),
    {
        if text::same_text(name, "commander") {
            Some(PileKind::Commander)
        } else if text::same_text(name, "main_deck") {
            Some(PileKind::MainDeck)
        } else if text::same_text(name, "sideboard") {
            Some(PileKind::Sideboard)
        } else {
            None
        }
    }
}

/// The name of a pile leads back to it.
pub proof fn called_undoes_name(kind: PileKind)
    ensures
        pile_called(pile_name(kind)) == Some(kind),
{
    reveal_strlit("commander");
    reveal_strlit("main_deck");
    reveal_strlit("sideboard");
    assert("commander"@[0] == 'c' && "main_deck"@[0] == 'm' && "sideboard"@[0] == 's');
}

/// A row of the table of the cards in decks.
#[derive(Clone, Copy, Debug, PartialEq, Eq, Structural)]
pub struct DeckEntry {
    pub card: ScryfallId,
    pub copies: u8,
    pub pile: PileKind,
}

/// The rows for a pile.
pub open spec fn pile_entries(pile: Seq<(u128, (ScryfallCard, u8))>, kind: PileKind) -> Seq<DeckEntry> {
    pile.map_values(
        |e: (u128, (ScryfallCard, u8))| DeckEntry {
            card: ScryfallId(Uuid { bits: e.0 }),
            copies: e.1.1,
            pile: kind,
        },
    )
}

/// The rows for commanders: there is one copy of each.
pub open spec fn leader_entries(leaders: Seq<(u128, ScryfallCard)>) -> Seq<DeckEntry> {
    leaders.map_values(
        |e: (u128, ScryfallCard)| DeckEntry {
            card: ScryfallId(Uuid { bits: e.0 }),
            copies: 1,
            pile: PileKind::Commander,
        },
    )
}

fn add_entries(rows: &mut Vec<DeckEntry>, pile: &CardPile, kind: PileKind)
    ensures
        final(rows)@ == old(rows)@ + pile_entries(pile@, kind),
{
    let ghost start = rows@;
    let ghost all = pile_entries(pile@, kind);
    let mut i: usize = 0;
    assert(start + all.take(0) =~= start);
    while i < pile.len()
        invariant
            i <= pile@.len(),
            all == pile_entries(pile@, kind),
            rows@ == start + all.take(i as int),
        decreases pile@.len() - i,
    {
        let e = pile.entry(i);
        rows.push(DeckEntry { card: ScryfallId(Uuid { bits: e.0 }), copies: e.1.1, pile: kind });
        assert(rows@ =~= start + all.take(i + 1));
        i = i + 1;
    }
    assert(all.take(i as int) =~= all);
}

/// The rows for a deck: first its commanders, then its main deck, then its sideboard.
pub fn deck_entries(cards: &DeckCards) -> (r: Vec<DeckEntry>)
    ensures
        r@ == leader_entries(cards.commanders@) + pile_entries(cards.main_deck@, PileKind::MainDeck)
            + pile_entries(cards.sideboard@, PileKind::Sideboard),
{
    let mut rows: Vec<DeckEntry> = Vec::new();
    let ghost all = leader_entries(cards.commanders@);
    let mut i: usize = 0;
    while i < cards.commanders.len()
        invariant
            i <= cards.commanders@.len(),
            all == leader_entries(cards.commanders@),
            rows@ == all.take(i as int),
        decreases cards.commanders@.len() - i,
    {
        rows.push(
            DeckEntry {
                card: ScryfallId(Uuid { bits: cards.commanders.entry(i).0 }),
                copies: 1,
                pile: PileKind::Commander,
            },
        );
        assert(rows@ =~= all.take(i + 1));
        i = i + 1;
    }
    assert(rows@ =~= all);
    add_entries(&mut rows, &cards.main_deck, PileKind::MainDeck);
    add_entries(&mut rows, &cards.sideboard, PileKind::Sideboard);
    rows
}

/// The color identity that some letters stand for: any other text stands for no color.
pub open spec fn letters_identity(letters: Seq<Seq<char>>) -> DeckColorIdentity {
    DeckColorIdentity {
        black: letters.contains("B"@),
        blue: letters.contains("U"@),
        green: letters.contains("G"@),
        red: letters.contains("R"@),
        white: letters.contains("W"@),
    }
}

fn has_letter(letters: &Vec<String>, letter: &str) -> (r: bool)
    ensures
        r == text::texts(letters@).contains(letter@),
{
    let ghost all = text::texts(letters@);
    let mut i: usize = 0;
    while i < letters.len()
        invariant
            i <= letters@.len(),
            all == text::texts(letters@),
            forall|j: int| 0 <= j < i ==> all[j] != letter@,
        decreases letters.len() - i,
    {
        assert(all[i as int] == letters@[i as int]@);
        if text::same_text(letters[i].as_str(), letter) {
            return true;
        }
        i = i + 1;
    }
    false
}

/// The color identity that some letters stand for.
pub fn color_identity(letters: &Vec<String>) -> (r: DeckColorIdentity)
    ensures
        r == letters_identity(text::texts(letters@)),
{
    DeckColorIdentity {
        black: has_letter(letters, "B"),
        blue: has_letter(letters, "U"),
        green: has_letter(letters, "G"),
        red: has_letter(letters, "R"),
        white: has_letter(letters, "W"),
    }
}

/// The numbers of copies in a pile, and those that a list asks for, add up.
pub proof fn copies_add_up(pile: PileCards, e: (u128, (CardView, int)), list: Seq<(u128, (String, u8))>, n: int)
    requires
        0 <= n < list.len(),
    ensures
        copies(Seq::<(u128, (CardView, int))>::empty()) == 0,
        copies(pile.push(e)) == copies(pile) + e.1.1,
        listed_copies(list, 0) == 0,
        listed_copies(list, n + 1) == listed_copies(list, n) + list[n].1.1,
{
    assert(pile.push(e).drop_last() =~= pile);
}

/// In a pile with some printings put into it, a card has the number of copies of the last printing of it; a card
/// without a printing stays as it was.
pub proof fn last_printing_stays(pile: PileCards, t: Seq<PrintingView>, id: u128)
    ensures
        (forall|i: int| 0 <= i < t.len() ==> (#[trigger] t[i]).id != id) ==> idmap::lookup(
            with_printings(pile, t),
            id,
        ) == idmap::lookup(pile, id),
        forall|k: int|
            0 <= k < t.len() && (#[trigger] t[k]).id == id && (forall|i: int|
                k < i < t.len() ==> (#[trigger] t[i]).id != id) ==> idmap::lookup(with_printings(pile, t), id) == Some(
                (t[k].card, t[k].count),
            ),
    decreases t.len(),
{
    if t.len() > 0 {
        let before = t.drop_last();
        let n = t.len() - 1;
        last_printing_stays(pile, before, id);
        idmap::lookup_after_put(with_printings(pile, before), t[n].id, (t[n].card, t[n].count), id);
        if t[n].id != id {
            if forall|i: int| 0 <= i < t.len() ==> (#[trigger] t[i]).id != id {
                assert forall|i: int| 0 <= i < before.len() implies (#[trigger] before[i]).id != id by {
                    assert(t[i].id != id);
                }
            }
            assert forall|k: int|
                0 <= k < t.len() && (#[trigger] t[k]).id == id && (forall|i: int|
                    k < i < t.len() ==> (#[trigger] t[i]).id != id) implies idmap::lookup(with_printings(pile, t), id)
                == Some((t[k].card, t[k].count)) by {
                assert(before[k] == t[k]);
                assert forall|i: int| k < i < before.len() implies (#[trigger] before[i]).id != id by {
                    assert(t[i].id != id);
                }
            }
        } else {
            assert(t[n].id == id);
            assert forall|k: int|
                0 <= k < t.len() && (#[trigger] t[k]).id == id && (forall|i: int|
                    k < i < t.len() ==> (#[trigger] t[i]).id != id) implies k == n by {
                if k < n {
                    assert(t[n].id != id);
                }
            }
        }
    }
}

/// A deck has its colors from the letters of its cards: each letter gives its color, and any other text none.
pub proof fn letters_give_colors(letters: Seq<Seq<char>>, letter: Seq<char>)
    ensures
        ({
            let before = letters_identity(letters);
            let after = letters_identity(letters.push(letter));
            let none = letters_identity(Seq::<Seq<char>>::empty());
            &&& after.black == (before.black || letter == "B"@)
            &&& after.blue == (before.blue || letter == "U"@)
            &&& after.green == (before.green || letter == "G"@)
            &&& after.red == (before.red || letter == "R"@)
            &&& after.white == (before.white || letter == "W"@)
            &&& !none.black && !none.blue && !none.green && !none.red && !none.white
        }),
{
    letter_is_added(letters, letter, "B"@);
    letter_is_added(letters, letter, "U"@);
    letter_is_added(letters, letter, "G"@);
    letter_is_added(letters, letter, "R"@);
    letter_is_added(letters, letter, "W"@);
}

proof fn letter_is_added(letters: Seq<Seq<char>>, letter: Seq<char>, other: Seq<char>)
    ensures
        letters.push(letter).contains(other) == (letters.contains(other) || letter == other),
{
    let all = letters.push(letter);
    assert(all[letters.len() as int] == letter);
    if letters.contains(other) {
        let i = choose|i: int| 0 <= i < letters.len() && letters[i] == other;
        assert(all[i] == other);
    }
    if all.contains(other) && letter != other {
        let i = choose|i: int| 0 <= i < all.len() && all[i] == other;
        assert(letters[i] == other);
    }
}

/// Every card of a pile has a row with its ID, its number of copies and its pile, and every commander one with
/// one copy.
pub proof fn every_card_has_a_row(
    pile: Seq<(u128, (ScryfallCard, u8))>,
    kind: PileKind,
    leaders: Seq<(u128, ScryfallCard)>,
)
    ensures
        pile_entries(pile, kind).len() == pile.len(),
        forall|i: int|
            0 <= i < pile.len() ==> (#[trigger] pile_entries(pile, kind)[i]).card.0.bits == pile[i].0 && pile_entries(
                pile,
                kind,
            )[i].copies == pile[i].1.1 && pile_entries(pile, kind)[i].pile == kind,
        leader_entries(leaders).len() == leaders.len(),
        forall|i: int|
            0 <= i < leaders.len() ==> (#[trigger] leader_entries(leaders)[i]).card.0.bits == leaders[i].0
                && leader_entries(leaders)[i].copies == 1 && leader_entries(leaders)[i].pile == PileKind::Commander,
{
}

/// Of each commander a list asks for one copy, under its name, and of a pile's cards the cards alone stay, in their
/// order.
pub proof fn leaders_are_listed_once(commanders: Seq<(u128, String)>, pile: PileCards)
    ensures
        leader_list(commanders).len() == commanders.len(),
        forall|i: int|
            0 <= i < commanders.len() ==> #[trigger] leader_list(commanders)[i] == (
                commanders[i].0,
                (commanders[i].1, 1u8),
            ),
        only_cards(pile).len() == pile.len(),
        forall|i: int| 0 <= i < pile.len() ==> #[trigger] only_cards(pile)[i] == (pile[i].0, pile[i].1.0),
{
}

/// A pile stands for its cards under their IDs, each with its number of copies, in their order; so do commanders,
/// without numbers.
pub proof fn piles_stand_for_their_cards(
    pile: Seq<(u128, (ScryfallCard, u8))>,
    leaders: Seq<(u128, ScryfallCard)>,
    i: int,
)
    ensures
        pile_cards(pile).len() == pile.len(),
        0 <= i < pile.len() ==> pile_cards(pile)[i] == (pile[i].0, (pile[i].1.0@, pile[i].1.1 as int)),
        leader_cards(leaders).len() == leaders.len(),
        0 <= i < leaders.len() ==> leader_cards(leaders)[i] == (leaders[i].0, leaders[i].1@),
{
}

/// A list is expanded exactly where each of its cards is; otherwise the first card that is not is the problem.
pub proof fn first_bad_card_is_reported(list: Seq<(u128, (String, u8))>, rows: Seq<Vec<ScryfallCardRow>>, n: int)
    requires
        0 <= n <= list.len(),
    ensures
        match expanded(list, rows, n) {
            Ok(_) => forall|i: int|
                0 <= i < n ==> printings::expansion(
                    ScryfallOracleId(Uuid { bits: (#[trigger] list[i]).0 }),
                    rows[i]@,
                    list[i].1.1 as int,
                ) is Ok,
            Err(e) => exists|i: int|
                0 <= i < n && printings::expansion(
                    ScryfallOracleId(Uuid { bits: (#[trigger] list[i]).0 }),
                    rows[i]@,
                    list[i].1.1 as int,
                ) == Err::<Seq<PrintingView>, CardError>(e) && expanded(list, rows, i) is Ok,
        },
    decreases n,
{
    if n > 0 {
        first_bad_card_is_reported(list, rows, n - 1);
        let last = list[n - 1];
        if expanded(list, rows, n - 1) is Ok {
            assert(list[n - 1] == last);
        }
    }
}

} // verus!
