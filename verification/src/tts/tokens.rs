//! The search for the tokens that a deck's cards make.
//!
//! A card names the cards that are related to it. The search follows those relations: it asks for one
//! related card after the other, and is told each of them.
use crate::idmap;
use crate::idmap::IdMap;
use crate::json::{Json, JsonView};
use crate::scryfall::{cards, id_field, CardError, CardView, Field, ScryfallCard, ScryfallId};
use crate::tts::piles::{by_name, counted, once, sort_by_name};
use crate::uuids;
use crate::uuids::Uuid;
use std::collections::{HashSet, VecDeque};
use vstd::prelude::*;

verus! {

/// What is wrong with a card or with what it says about its related cards.
#[derive(Clone, Copy, Debug, PartialEq, Eq, Structural)]
pub enum TokenError {
    /// The card has no ID, or a related card has no oracle ID.
    Card(CardError),
    /// The related card at this place has no ID.
    PartWithoutId(usize),
    /// The ID of the related card at this place is not a string.
    PartIdNotText(usize),
    /// The ID of the related card at this place is no ID.
    PartBadId(usize),
    /// What the related card is to the card is not a string.
    ComponentNotText(ScryfallId),
}

/// What a search asks for next.
#[derive(Clone, Copy, Debug, PartialEq, Eq, Structural)]
pub enum Step {
    /// The card with this ID.
    Need(ScryfallId),
    /// Nothing: it is done.
    Done,
    /// Nothing: it has failed.
    Failed(TokenError),
}

/// What a card says about its related cards.
pub open spec fn related(card: JsonView) -> Seq<JsonView> {
    match card.get("all_parts"@) {
        Some(v) => match v.as_array() {
            Some(parts) => parts,
            None => Seq::empty(),
        },
        None => Seq::empty(),
    }
}

/// The ID of a related card that is wanted: the pieces of a combo and the parts of a meld are not.
pub open spec fn wanted(part: JsonView, i: int) -> Result<Option<u128>, TokenError> {
    match part.get("id"@) {
        None => Err(TokenError::PartWithoutId(i as usize)),
        Some(v) => match v.as_str() {
            None => Err(TokenError::PartIdNotText(i as usize)),
            Some(s) => match uuids::uuid_of(s) {
                None => Err(TokenError::PartBadId(i as usize)),
                Some(id) => match part.get("component"@) {
                    None => Ok(None),
                    Some(c) => match c.as_str() {
                        None => Err(TokenError::ComponentNotText(ScryfallId(Uuid { bits: id }))),
                        Some(t) => if t == "combo_piece"@ || t == "meld_part"@ {
                            Ok(None)
                        } else {
                            Ok(Some(id))
                        },
                    },
                },
            },
        },
    }
}

/// How far a search has come.
#[verifier::ext_equal]
pub struct SearchView {
    /// The cards that are still to be looked at.
    pub queue: Seq<CardView>,
    /// The cards that were looked at.
    pub seen: Set<u128>,
    /// The tokens that were found, by their oracle IDs.
    pub found: Seq<(u128, CardView)>,
    /// The card that is being looked at.
    pub current: Option<CardView>,
    /// How many of its related cards were looked at.
    pub index: int,
}

/// How much is left to do before the next card is taken from the queue.
pub open spec fn left(current: Option<CardView>, index: int) -> int {
    match current {
        Some(c) => if 0 <= index < related(c.json).len() {
            related(c.json).len() - index + 1
        } else {
            1
        },
        None => 1,
    }
}

/// Where a search goes on to, and what it asks for there.
pub open spec fn advance(s: SearchView) -> (SearchView, Step)
    decreases s.queue.len(), left(s.current, s.index),
{
    match s.current {
        Some(card) => {
            let parts = related(card.json);
            if s.index < 0 || s.index >= parts.len() {
                advance_queue(s)
            } else {
                let next = SearchView { index: s.index + 1, ..s };
                match wanted(parts[s.index], s.index) {
                    Err(e) => (s, Step::Failed(e)),
                    Ok(None) => advance(next),
                    Ok(Some(id)) => if s.seen.contains(id) {
                        advance(next)
                    } else {
                        (next, Step::Need(ScryfallId(Uuid { bits: id })))
                    },
                }
            }
        },
        None => advance_queue(s),
    }
}

/// Where a search goes on to once it is done with a card.
pub open spec fn advance_queue(s: SearchView) -> (SearchView, Step)
    decreases s.queue.len(), 0int,
{
    let idle = SearchView { current: None, index: 0, ..s };
    if s.queue.len() == 0 {
        (idle, Step::Done)
    } else {
        let card = s.queue[0];
        let rest = SearchView { queue: s.queue.drop_first(), ..idle };
        match id_field(card.json, Field::Id) {
            Err(e) => (rest, Step::Failed(TokenError::Card(e))),
            Ok(id) => if s.seen.contains(id) {
                advance(rest)
            } else {
                advance(SearchView { seen: s.seen.insert(id), current: Some(card), ..rest })
            },
        }
    }
}

/// A search for tokens.
pub struct TokenSearch {
    queue: VecDeque<ScryfallCard>,
    seen: HashSet<u128>,
    found: IdMap<ScryfallCard>,
    current: Option<ScryfallCard>,
    index: usize,
}

/// The views of cards under their oracle IDs.
pub open spec fn found_views(v: Seq<(u128, ScryfallCard)>) -> Seq<(u128, CardView)> {
    v.map_values(|p: (u128, ScryfallCard)| (p.0, p.1@))
}

impl View for TokenSearch {
    type V = SearchView;

    closed spec fn view(&self) -> SearchView {
        SearchView {
            queue: cards(self.queue@),
            seen: self.seen@,
            found: found_views(self.found@),
            current: match self.current {
                Some(c) => Some(c@),
                None => None,
            },
            index: self.index as int,
        }
    }
}

/// The ID of a related card that is wanted.
fn wanted_part(part: &Json, i: usize) -> (r: Result<Option<u128>, TokenError>)
    ensures
        r == wanted(part@, i as int),
{
    let id = match part.get("id") {
        None => {
            return Err(TokenError::PartWithoutId(i));
        },
        Some(v) => match v.as_str() {
            None => {
                return Err(TokenError::PartIdNotText(i));
            },
            Some(s) => match ScryfallId::parse(s) {
                Err(_) => {
                    return Err(TokenError::PartBadId(i));
                },
                Ok(id) => id,
            },
        },
    };
    match part.get("component") {
        None => Ok(None),
        Some(c) => match c.as_str() {
            None => Err(TokenError::ComponentNotText(id)),
            Some(t) => if crate::text::same_text(t, "combo_piece") || crate::text::same_text(t, "meld_part") {
                Ok(None)
            } else {
                Ok(Some(id.0.bits))
            },
        },
    }
}

/// One of a card's related cards.
fn related_part(card: &ScryfallCard, i: usize) -> (r: Option<&Json>)
    ensures
        match r {
            Some(part) => i < related(card.json@).len() && part@ == related(card.json@)[i as int] && i
                < usize::MAX,
            None => i >= related(card.json@).len(),
        },
{
    match card.raw_json().get("all_parts") {
        Some(v) => match v.as_array() {
            Some(parts) => {
                assert(related(card.json@) == parts@.map_values(|j: Json| j@));
                if i < parts.len() {
                    Some(&parts[i])
                } else {
                    None
                }
            },
            None => None,
        },
        None => None,
    }
}

impl TokenSearch {
    /// Whether no oracle ID stands there twice.
    pub closed spec fn wf(&self) -> bool {
        self.found.wf()
    }

    /// A search that begins with some cards.
    pub fn new(start: Vec<ScryfallCard>) -> (r: TokenSearch)
        ensures
            r.wf(),
            r@ == search_from(cards(start@)),
    {
        let mut queue: VecDeque<ScryfallCard> = VecDeque::new();
        let mut rest = start;
        while rest.len() > 0
            invariant
                rest@.len() <= start@.len(),
                queue@ == start@.take(start@.len() - rest@.len()),
                rest@ == start@.skip(start@.len() - rest@.len()),
            decreases rest@.len(),
        {
            let ghost k = start@.len() - rest@.len();
            let card = rest.remove(0);
            assert(card == start@[k]);
            queue.push_back(card);
            assert(queue@ =~= start@.take(k + 1));
            assert(rest@ =~= start@.skip(k + 1));
        }
        assert(queue@ =~= start@);
        let r = TokenSearch { queue, seen: HashSet::new(), found: IdMap::new(), current: None, index: 0 };
        assert(r@ =~= search_from(cards(start@)));
        r
    }

    /// Goes on until a card is needed, or until there is nothing left to do.
    pub fn next(&mut self) -> (r: Step)
        requires
            old(self).wf(),
        ensures
            final(self).wf(),
            (final(self)@, r) == advance(old(self)@),
    {
        broadcast use vstd::std_specs::hash::group_hash_axioms;

        loop
            invariant
                self.wf(),
                advance(old(self)@) == advance(self@),
            decreases self.queue@.len(), left(self@.current, self@.index),
        {
            let ghost before = self@;
            let part = match &self.current {
                None => None,
                Some(card) => match related_part(card, self.index) {
                    None => None,
                    Some(part) => Some(wanted_part(part, self.index)),
                },
            };
            match part {
                Some(Err(e)) => {
                    return Step::Failed(e);
                },
                Some(Ok(want)) => {
                    self.index = self.index + 1;
                    assert(self@ =~= (SearchView { index: before.index + 1, ..before }));
                    if let Some(id) = want {
                        if !self.seen.contains(&id) {
                            return Step::Need(ScryfallId(Uuid { bits: id }));
                        }
                    }
                },
                None => {
                    self.current = None;
                    self.index = 0;
                    let ghost idle = SearchView { current: None, index: 0, ..before };
                    assert(self@ =~= idle);
                    assert(advance(before) == advance_queue(before));
                    match self.queue.pop_front() {
                        None => {
                            assert(cards(self.queue@).len() == self.queue@.len());
                            assert(self@ =~= idle);
                            return Step::Done;
                        },
                        Some(card) => {
                            assert(before.queue[0] == card@);
                            let ghost rest = SearchView { queue: before.queue.drop_first(), ..idle };
                            assert(self@ =~= rest);
                            match card.id() {
                                Err(e) => {
                                    return Step::Failed(TokenError::Card(e));
                                },
                                Ok(id) => {
                                    if !self.seen.contains(&id.0.bits) {
                                        self.seen.insert(id.0.bits);
                                        self.current = Some(card);
                                    }
                                },
                            }
                        },
                    }
                },
            }
        }
    }

    /// Takes a card that was asked for: it is a token of the deck, and its own related cards are to be
    /// looked at too.
    pub fn provide(&mut self, card: ScryfallCard) -> (r: Result<(), TokenError>)
        requires
            old(self).wf(),
        ensures
            final(self).wf(),
            match id_field(card.json@, Field::OracleId) {
                Ok(id) => r is Ok && final(self)@ == provided(old(self)@, card@, id),
                Err(e) => r == Err::<(), TokenError>(TokenError::Card(e)) && final(self)@ == old(self)@,
            },
    {
        let oracle_id = match card.oracle_id() {
            Ok(id) => id,
            Err(e) => {
                return Err(TokenError::Card(e));
            },
        };
        let ghost key = oracle_id.0.bits;
        self.queue.push_back(card.clone());
        let ghost before = self.found@;
        self.found.insert_new(oracle_id.0.bits, card);
        proof {
            views_keep_places(before, key);
            assert(self@.queue =~= old(self)@.queue.push(card@));
            assert(self@.found =~= idmap::put_new(old(self)@.found, key, card@));
        }
        Ok(())
    }

    /// The tokens that were found, in the order of their names, each once.
    pub fn finish(self) -> (r: Vec<(ScryfallCard, u8)>)
        ensures
            counted(r@) == by_name(once(self@.found.map_values(|p: (u128, CardView)| p.1))),
    {
        let ghost all = found_views(self.found@).map_values(|p: (u128, CardView)| p.1);
        let mut entries = self.found.into_entries();
        let ghost start = entries@;
        let mut tokens: Vec<(ScryfallCard, u8)> = Vec::new();
        assert(counted(tokens@) =~= once(all.take(0)));
        while entries.len() > 0
            invariant
                all == found_views(start).map_values(|p: (u128, CardView)| p.1),
                entries@.len() <= start.len(),
                entries@ == start.skip(start.len() - entries@.len()),
                counted(tokens@) == once(all.take(start.len() - entries@.len())),
            decreases entries@.len(),
        {
            let ghost k = start.len() - entries@.len();
            let ghost before = tokens@;
            let e = entries.remove(0);
            assert(e == start[k]);
            assert(entries@ =~= start.skip(k + 1));
            tokens.push((e.1, 1));
            assert(all.take(k + 1) =~= all.take(k).push(all[k]));
            assert(counted(tokens@) =~= counted(before).push((all[k], 1int)));
            assert(counted(tokens@) =~= once(all.take(k + 1)));
        }
        assert(all.take(start.len() as int) =~= all);
        sort_by_name(tokens)
    }
}

/// Whether a card wants the card with an ID.
pub open spec fn wants(card: JsonView, id: u128) -> bool {
    exists|i: int| 0 <= i < related(card).len() && wanted(#[trigger] related(card)[i], i) == Ok::<Option<u128>, TokenError>(Some(id))
}

/// Whether one of some cards has an ID.
pub open spec fn has_id(cards: Seq<CardView>, id: u128) -> bool {
    exists|j: int| 0 <= j < cards.len() && id_field((#[trigger] cards[j]).json, Field::Id) == Ok::<u128, CardError>(id)
}

/// Whether the card with an ID can be reached from some cards: along a path each card on which wants the next.
pub open spec fn is_path(start: Seq<CardView>, card_of: spec_fn(u128) -> CardView, path: Seq<u128>) -> bool {
    &&& path.len() > 0
    &&& has_id(start, path[0])
    &&& forall|k: int| 0 <= k < path.len() - 1 ==> wants(card_of(#[trigger] path[k]).json, path[k + 1])
}

/// Whether every card has the ID under which it is kept, and those with which a search begins name the same related
/// cards as those that are kept.
pub open spec fn is_kept(start: Seq<CardView>, card_of: spec_fn(u128) -> CardView) -> bool {
    &&& forall|id: u128| id_field((#[trigger] card_of(id)).json, Field::Id) == Ok::<u128, CardError>(id)
    &&& forall|j: int| 0 <= j < start.len() ==> is_alike(#[trigger] start[j], card_of)
}

/// Whether a card names the same related cards as the one that is kept under its ID.
pub open spec fn is_alike(card: CardView, card_of: spec_fn(u128) -> CardView) -> bool {
    id_field(card.json, Field::Id) matches Ok(id) ==> related(card.json) == related(card_of(id).json)
}

/// Where a search begins.
pub open spec fn search_from(start: Seq<CardView>) -> SearchView {
    SearchView { queue: start, seen: Set::empty(), found: Seq::empty(), current: None, index: 0 }
}

/// Where a search goes on to that is told a card.
pub open spec fn provided(s: SearchView, card: CardView, oracle_id: u128) -> SearchView {
    SearchView { queue: s.queue.push(card), found: idmap::put_new(s.found, oracle_id, card), ..s }
}

/// The search after `n` cards that it asked for were provided; none where it did not ask for so many, or where one
/// of them has no oracle ID.
pub open spec fn after_cards(start: Seq<CardView>, card_of: spec_fn(u128) -> CardView, n: int) -> Option<SearchView>
    decreases n,
{
    if n <= 0 {
        Some(search_from(start))
    } else {
        match after_cards(start, card_of, n - 1) {
            None => None,
            Some(s) => match advance(s).1 {
                Step::Need(id) => match id_field(card_of(id.0.bits).json, Field::OracleId) {
                    Ok(oracle_id) => Some(provided(advance(s).0, card_of(id.0.bits), oracle_id)),
                    Err(_) => None,
                },
                _ => None,
            },
        }
    }
}

/// Whether a card was looked at or will be.
spec fn covered(s: SearchView, id: u128) -> bool {
    s.seen.contains(id) || has_id(s.queue, id)
}

/// Whether a card's related cards were gone through up to a place.
spec fn gone_through(s: SearchView, id: u128, i: int) -> bool {
    match s.current {
        Some(c) => id_field(c.json, Field::Id) == Ok::<u128, CardError>(id) ==> i < s.index,
        None => true,
    }
}

/// Whether a card has its oracle ID among those found.
pub open spec fn is_found(found: Seq<(u128, CardView)>, card: CardView) -> bool {
    id_field(card.json, Field::OracleId) matches Ok(id) && idmap::has_key(found, id)
}

/// What holds of a search: nothing that it came across was lost, but a card that it asks for.
spec fn loses_none(
    s: SearchView,
    start: Seq<CardView>,
    card_of: spec_fn(u128) -> CardView,
    asked: Option<u128>,
) -> bool {
    &&& forall|id: u128| #[trigger] has_id(start, id) ==> covered(s, id)
    &&& forall|id: u128, i: int|
        #![trigger s.seen.contains(id), related(card_of(id).json)[i]]
        s.seen.contains(id) && 0 <= i < related(card_of(id).json).len() && gone_through(s, id, i) ==> match wanted(
            related(card_of(id).json)[i],
            i,
        ) {
            Ok(Some(other)) => covered(s, other) || asked == Some(other),
            _ => true,
        }
    &&& forall|id: u128| #[trigger] covered(s, id) ==> has_id(start, id) || is_found(s.found, card_of(id))
    &&& forall|j: int| 0 <= j < s.queue.len() ==> is_alike(#[trigger] s.queue[j], card_of)
    &&& s.current matches Some(c) ==> {
        &&& id_field(c.json, Field::Id) is Ok
        &&& s.seen.contains(id_field(c.json, Field::Id)->Ok_0)
        &&& is_alike(c, card_of)
    }
    &&& s.index >= 0
}

/// Going on loses nothing.
proof fn advance_loses_none(s: SearchView, start: Seq<CardView>, card_of: spec_fn(u128) -> CardView)
    requires
        loses_none(s, start, card_of, None),
    ensures
        match advance(s).1 {
            Step::Need(id) => loses_none(advance(s).0, start, card_of, Some(id.0.bits)),
            Step::Done => {
                &&& loses_none(advance(s).0, start, card_of, None)
                &&& advance(s).0.queue.len() == 0
                &&& advance(s).0.current is None
            },
            Step::Failed(_) => true,
        },
    decreases s.queue.len(), left(s.current, s.index),
{
    match s.current {
        Some(card) => {
            let parts = related(card.json);
            let own = id_field(card.json, Field::Id)->Ok_0;
            if s.index >= parts.len() {
                advance_queue_loses_none(s, start, card_of);
            } else {
                let next = SearchView { index: s.index + 1, ..s };
                let want = wanted(parts[s.index], s.index);
                if want is Ok {
                    let asked = match want->Ok_0 {
                        Some(id) => if s.seen.contains(id) {
                            None
                        } else {
                            Some(id)
                        },
                        None => None,
                    };
                    assert(forall|id: u128| #[trigger] covered(next, id) == covered(s, id));
                    assert forall|id: u128, i: int|
                        #![trigger next.seen.contains(id), related(card_of(id).json)[i]]
                        next.seen.contains(id) && 0 <= i < related(card_of(id).json).len() && gone_through(
                            next,
                            id,
                            i,
                        ) implies match wanted(related(card_of(id).json)[i], i) {
                        Ok(Some(other)) => covered(next, other) || asked == Some(other),
                        _ => true,
                    } by {
                        assert(s.seen.contains(id));
                        if gone_through(s, id, i) {
                        } else {
                            assert(id == own);
                            assert(i == s.index);
                        }
                    }
                    assert(loses_none(next, start, card_of, asked));
                    if asked is None {
                        advance_loses_none(next, start, card_of);
                    }
                }
            }
        },
        None => advance_queue_loses_none(s, start, card_of),
    }
}

/// Going on to the next card in the queue loses nothing.
proof fn advance_queue_loses_none(s: SearchView, start: Seq<CardView>, card_of: spec_fn(u128) -> CardView)
    requires
        loses_none(s, start, card_of, None),
        s.current matches Some(c) ==> s.index >= related(c.json).len(),
    ensures
        match advance_queue(s).1 {
            Step::Need(id) => loses_none(advance_queue(s).0, start, card_of, Some(id.0.bits)),
            Step::Done => {
                &&& loses_none(advance_queue(s).0, start, card_of, None)
                &&& advance_queue(s).0.queue.len() == 0
                &&& advance_queue(s).0.current is None
            },
            Step::Failed(_) => true,
        },
    decreases s.queue.len(), 0int,
{
    let idle = SearchView { current: None, index: 0, ..s };
    assert forall|id: u128| #[trigger] covered(idle, id) == covered(s, id) by {}
    assert forall|id: u128, i: int|
        #![trigger idle.seen.contains(id), related(card_of(id).json)[i]]
        idle.seen.contains(id) && 0 <= i < related(card_of(id).json).len() && gone_through(idle, id, i) implies match wanted(
        related(card_of(id).json)[i],
        i,
    ) {
        Ok(Some(other)) => covered(idle, other),
        _ => true,
    } by {
        assert(s.seen.contains(id));
        assert(gone_through(s, id, i));
    }
    assert(loses_none(idle, start, card_of, None));
    if s.queue.len() > 0 {
        let card = s.queue[0];
        let rest = SearchView { queue: s.queue.drop_first(), ..idle };
        if id_field(card.json, Field::Id) is Ok {
            let own = id_field(card.json, Field::Id)->Ok_0;
            let next = if s.seen.contains(own) {
                rest
            } else {
                SearchView { seen: s.seen.insert(own), current: Some(card), ..rest }
            };
            assert(is_alike(card, card_of));
            assert(has_id(s.queue, own));
            assert(covered(idle, own));
            assert forall|id: u128| #[trigger] covered(next, id) == covered(idle, id) by {
                if has_id(s.queue, id) {
                    let j = choose|j: int|
                        0 <= j < s.queue.len() && id_field((#[trigger] s.queue[j]).json, Field::Id) == Ok::<
                            u128,
                            CardError,
                        >(id);
                    if j > 0 {
                        assert(rest.queue[j - 1] == s.queue[j]);
                    }
                }
                if has_id(rest.queue, id) {
                    let j = choose|j: int|
                        0 <= j < rest.queue.len() && id_field((#[trigger] rest.queue[j]).json, Field::Id) == Ok::<
                            u128,
                            CardError,
                        >(id);
                    assert(s.queue[j + 1] == rest.queue[j]);
                }
            }
            assert forall|id: u128, i: int|
                #![trigger next.seen.contains(id), related(card_of(id).json)[i]]
                next.seen.contains(id) && 0 <= i < related(card_of(id).json).len() && gone_through(
                    next,
                    id,
                    i,
                ) implies match wanted(related(card_of(id).json)[i], i) {
                Ok(Some(other)) => covered(next, other),
                _ => true,
            } by {
                if idle.seen.contains(id) {
                    assert(gone_through(idle, id, i));
                    if let Ok(Some(other)) = wanted(related(card_of(id).json)[i], i) {
                        assert(covered(idle, other));
                    }
                }
            }
            assert forall|j: int| 0 <= j < next.queue.len() implies is_alike(#[trigger] next.queue[j], card_of) by {
                assert(next.queue[j] == s.queue[j + 1]);
            }
            assert forall|id: u128| #[trigger] has_id(start, id) implies covered(next, id) by {
                assert(covered(idle, id));
            }
            assert forall|id: u128| #[trigger] covered(next, id) implies has_id(start, id) || is_found(
                next.found,
                card_of(id),
            ) by {
                assert(covered(idle, id));
            }
            assert(loses_none(next, start, card_of, None));
            advance_loses_none(next, start, card_of);
        }
    }
}

/// Taking the card that was asked for loses nothing.
proof fn provided_loses_none(
    s: SearchView,
    start: Seq<CardView>,
    card_of: spec_fn(u128) -> CardView,
    asked: u128,
    oracle_id: u128,
)
    requires
        is_kept(start, card_of),
        loses_none(s, start, card_of, Some(asked)),
        id_field(card_of(asked).json, Field::OracleId) == Ok::<u128, CardError>(oracle_id),
    ensures
        loses_none(provided(s, card_of(asked), oracle_id), start, card_of, None),
{
    let card = card_of(asked);
    let t = provided(s, card, oracle_id);
    assert(t.queue[s.queue.len() as int] == card);
    assert(covered(t, asked));
    assert forall|id: u128| covered(s, id) implies #[trigger] covered(t, id) by {
        if has_id(s.queue, id) {
            let j = choose|j: int|
                0 <= j < s.queue.len() && id_field((#[trigger] s.queue[j]).json, Field::Id) == Ok::<u128, CardError>(
                    id,
                );
            assert(t.queue[j] == s.queue[j]);
        }
    }
    assert forall|id: u128| #[trigger] has_id(start, id) implies covered(t, id) by {
        assert(covered(s, id));
    }
    assert forall|id: u128, i: int|
        #![trigger t.seen.contains(id), related(card_of(id).json)[i]]
        t.seen.contains(id) && 0 <= i < related(card_of(id).json).len() && gone_through(t, id, i) implies match wanted(
        related(card_of(id).json)[i],
        i,
    ) {
        Ok(Some(other)) => covered(t, other),
        _ => true,
    } by {
        assert(s.seen.contains(id));
        assert(gone_through(s, id, i));
        if let Ok(Some(other)) = wanted(related(card_of(id).json)[i], i) {
            assert(covered(s, other) || asked == other);
        }
    }
    assert forall|id: u128| #[trigger] covered(t, id) implies has_id(start, id) || is_found(t.found, card_of(id)) by {
        idmap::place_is_first(s.found, oracle_id);
        if covered(s, id) {
            if is_found(s.found, card_of(id)) {
                still_found(s.found, oracle_id, card, id_field(card_of(id).json, Field::OracleId)->Ok_0);
            }
        } else {
            let j = choose|j: int|
                0 <= j < t.queue.len() && id_field((#[trigger] t.queue[j]).json, Field::Id) == Ok::<u128, CardError>(
                    id,
                );
            if j < s.queue.len() {
                assert(t.queue[j] == s.queue[j]);
                assert(has_id(s.queue, id));
            }
            assert(id == asked);
            still_found(s.found, oracle_id, card, oracle_id);
        }
    }
    assert forall|j: int| 0 <= j < t.queue.len() implies is_alike(#[trigger] t.queue[j], card_of) by {
        if j < s.queue.len() {
            assert(t.queue[j] == s.queue[j]);
        }
    }
}

/// A key that was there, or was put there, is there.
proof fn still_found(found: Seq<(u128, CardView)>, oracle_id: u128, card: CardView, other: u128)
    requires
        other == oracle_id || idmap::has_key(found, other),
    ensures
        idmap::has_key(idmap::put_new(found, oracle_id, card), other),
{
    if !idmap::has_key(found, oracle_id) {
        idmap::lookup_after_put(found, oracle_id, card, other);
    }
}

/// A search loses nothing.
proof fn search_loses_none(start: Seq<CardView>, card_of: spec_fn(u128) -> CardView, n: int)
    requires
        is_kept(start, card_of),
        0 <= n,
    ensures
        after_cards(start, card_of, n) matches Some(s) ==> loses_none(s, start, card_of, None),
    decreases n,
{
    if n == 0 {
        let s = search_from(start);
        assert(loses_none(s, start, card_of, None));
    } else {
        search_loses_none(start, card_of, n - 1);
        if let Some(s) = after_cards(start, card_of, n - 1) {
            advance_loses_none(s, start, card_of);
            if let Step::Need(id) = advance(s).1 {
                if let Ok(oracle_id) = id_field(card_of(id.0.bits).json, Field::OracleId) {
                    provided_loses_none(advance(s).0, start, card_of, id.0.bits, oracle_id);
                }
            }
        }
    }
}

/// Every card on a path was looked at once the search is done.
proof fn path_is_seen(t: SearchView, start: Seq<CardView>, card_of: spec_fn(u128) -> CardView, path: Seq<u128>, k: int)
    requires
        loses_none(t, start, card_of, None),
        t.queue.len() == 0,
        t.current is None,
        is_path(start, card_of, path),
        0 <= k < path.len(),
    ensures
        t.seen.contains(path[k]),
    decreases k,
{
    if k == 0 {
        assert(covered(t, path[0]));
    } else {
        path_is_seen(t, start, card_of, path, k - 1);
        let id = path[k - 1];
        assert(wants(card_of(id).json, path[k]));
        let i = choose|i: int|
            0 <= i < related(card_of(id).json).len() && wanted(#[trigger] related(card_of(id).json)[i], i) == Ok::<
                Option<u128>,
                TokenError,
            >(Some(path[k]));
        assert(t.seen.contains(id));
        assert(gone_through(t, id, i));
        assert(covered(t, path[k]));
    }
}

/// Once a search is done, every card that can be reached from those with which it began, and that is none of them,
/// has its oracle ID among those found.
pub proof fn reachable_cards_are_found(
    start: Seq<CardView>,
    card_of: spec_fn(u128) -> CardView,
    n: int,
    path: Seq<u128>,
)
    requires
        is_kept(start, card_of),
        0 <= n,
        after_cards(start, card_of, n) matches Some(s) && advance(s).1 is Done,
        is_path(start, card_of, path),
        !has_id(start, path.last()),
    ensures
        is_found(advance(after_cards(start, card_of, n)->0).0.found, card_of(path.last())),
{
    search_loses_none(start, card_of, n);
    let s = after_cards(start, card_of, n)->0;
    advance_loses_none(s, start, card_of);
    let t = advance(s).0;
    path_is_seen(t, start, card_of, path, path.len() - 1);
    assert(covered(t, path.last()));
}

/// Whether the card with an ID can be reached from some cards.
pub open spec fn reaches(start: Seq<CardView>, card_of: spec_fn(u128) -> CardView, id: u128) -> bool {
    exists|path: Seq<u128>| #[trigger] is_path(start, card_of, path) && path.last() == id
}

/// Whether a card that was found is one that can be reached, under its oracle ID.
pub open spec fn is_reached(
    found: (u128, CardView),
    start: Seq<CardView>,
    card_of: spec_fn(u128) -> CardView,
) -> bool {
    exists|id: u128| #[trigger]
        reaches(start, card_of, id) && found.1 == card_of(id) && id_field(found.1.json, Field::OracleId) == Ok::<
            u128,
            CardError,
        >(found.0)
}

/// A card with which a search begins can be reached.
proof fn start_is_reached(start: Seq<CardView>, card_of: spec_fn(u128) -> CardView, id: u128)
    requires
        has_id(start, id),
    ensures
        reaches(start, card_of, id),
{
    assert(is_path(start, card_of, seq![id]));
}

/// What a card that can be reached wants can be reached.
proof fn wanted_is_reached(start: Seq<CardView>, card_of: spec_fn(u128) -> CardView, id: u128, other: u128)
    requires
        reaches(start, card_of, id),
        wants(card_of(id).json, other),
    ensures
        reaches(start, card_of, other),
{
    let path = choose|path: Seq<u128>| #[trigger] is_path(start, card_of, path) && path.last() == id;
    let longer = path.push(other);
    assert forall|k: int| 0 <= k < longer.len() - 1 implies wants(card_of(#[trigger] longer[k]).json, longer[k + 1]) by {
        if k < path.len() - 1 {
            assert(wants(card_of(path[k]).json, path[k + 1]));
        }
    }
    assert(longer[0] == path[0]);
    assert(is_path(start, card_of, longer));
}

/// What holds of a search: all that it came across can be reached.
spec fn strays_nowhere(s: SearchView, start: Seq<CardView>, card_of: spec_fn(u128) -> CardView) -> bool {
    &&& forall|j: int| 0 <= j < s.queue.len() ==> is_alike(#[trigger] s.queue[j], card_of)
    &&& forall|j: int|
        0 <= j < s.queue.len() ==> (id_field((#[trigger] s.queue[j]).json, Field::Id) matches Ok(id) ==> reaches(
            start,
            card_of,
            id,
        ))
    &&& s.current matches Some(c) ==> {
        &&& is_alike(c, card_of)
        &&& id_field(c.json, Field::Id) matches Ok(id) && reaches(start, card_of, id)
    }
    &&& forall|j: int| 0 <= j < s.found.len() ==> is_reached(#[trigger] s.found[j], start, card_of)
    &&& idmap::distinct(s.found)
    &&& s.index >= 0
}

/// Going on strays nowhere, and asks only for what can be reached.
proof fn advance_strays_nowhere(s: SearchView, start: Seq<CardView>, card_of: spec_fn(u128) -> CardView)
    requires
        strays_nowhere(s, start, card_of),
    ensures
        strays_nowhere(advance(s).0, start, card_of),
        advance(s).1 matches Step::Need(id) ==> reaches(start, card_of, id.0.bits),
    decreases s.queue.len(), left(s.current, s.index),
{
    match s.current {
        Some(card) => {
            let parts = related(card.json);
            let own = id_field(card.json, Field::Id)->Ok_0;
            if s.index >= parts.len() {
                advance_queue_strays_nowhere(s, start, card_of);
            } else {
                let next = SearchView { index: s.index + 1, ..s };
                assert(strays_nowhere(next, start, card_of));
                match wanted(parts[s.index], s.index) {
                    Err(_) => {},
                    Ok(None) => advance_strays_nowhere(next, start, card_of),
                    Ok(Some(id)) => {
                        if s.seen.contains(id) {
                            advance_strays_nowhere(next, start, card_of);
                        } else {
                            assert(wanted(related(card_of(own).json)[s.index], s.index) == Ok::<
                                Option<u128>,
                                TokenError,
                            >(Some(id)));
                            wanted_is_reached(start, card_of, own, id);
                        }
                    },
                }
            }
        },
        None => advance_queue_strays_nowhere(s, start, card_of),
    }
}

/// Going on to the next card in the queue strays nowhere.
proof fn advance_queue_strays_nowhere(s: SearchView, start: Seq<CardView>, card_of: spec_fn(u128) -> CardView)
    requires
        strays_nowhere(s, start, card_of),
    ensures
        strays_nowhere(advance_queue(s).0, start, card_of),
        advance_queue(s).1 matches Step::Need(id) ==> reaches(start, card_of, id.0.bits),
    decreases s.queue.len(), 0int,
{
    let idle = SearchView { current: None, index: 0, ..s };
    assert(strays_nowhere(idle, start, card_of));
    if s.queue.len() > 0 {
        let card = s.queue[0];
        let rest = SearchView { queue: s.queue.drop_first(), ..idle };
        assert(is_alike(card, card_of));
        assert forall|j: int| 0 <= j < rest.queue.len() implies is_alike(#[trigger] rest.queue[j], card_of) && (
        id_field(rest.queue[j].json, Field::Id) matches Ok(id) ==> reaches(start, card_of, id)) by {
            assert(rest.queue[j] == s.queue[j + 1]);
        }
        assert(strays_nowhere(rest, start, card_of));
        if let Ok(id) = id_field(card.json, Field::Id) {
            if s.seen.contains(id) {
                advance_strays_nowhere(rest, start, card_of);
            } else {
                let next = SearchView { seen: s.seen.insert(id), current: Some(card), ..rest };
                assert(strays_nowhere(next, start, card_of));
                advance_strays_nowhere(next, start, card_of);
            }
        }
    }
}

/// A search strays nowhere.
proof fn search_strays_nowhere(start: Seq<CardView>, card_of: spec_fn(u128) -> CardView, n: int)
    requires
        is_kept(start, card_of),
        0 <= n,
    ensures
        after_cards(start, card_of, n) matches Some(s) ==> strays_nowhere(s, start, card_of),
    decreases n,
{
    if n == 0 {
        let s = search_from(start);
        assert forall|j: int| 0 <= j < s.queue.len() implies (id_field((#[trigger] s.queue[j]).json, Field::Id) matches Ok(
            id,
        ) ==> reaches(start, card_of, id)) by {
            if let Ok(id) = id_field(start[j].json, Field::Id) {
                assert(has_id(start, id));
                start_is_reached(start, card_of, id);
            }
        }
        assert(strays_nowhere(s, start, card_of));
    } else {
        search_strays_nowhere(start, card_of, n - 1);
        if let Some(s) = after_cards(start, card_of, n - 1) {
            advance_strays_nowhere(s, start, card_of);
            if let Step::Need(id) = advance(s).1 {
                let card = card_of(id.0.bits);
                if let Ok(oracle_id) = id_field(card.json, Field::OracleId) {
                    let a = advance(s).0;
                    let t = provided(a, card, oracle_id);
                    idmap::put_keeps_distinct(a.found, oracle_id, card);
                    assert(is_reached((oracle_id, card), start, card_of));
                    assert forall|j: int| 0 <= j < t.found.len() implies is_reached(
                        #[trigger] t.found[j],
                        start,
                        card_of,
                    ) by {
                        if j < a.found.len() {
                            assert(t.found[j] == a.found[j]);
                        }
                    }
                    assert forall|j: int| 0 <= j < t.queue.len() implies is_alike(#[trigger] t.queue[j], card_of) && (
                    id_field(t.queue[j].json, Field::Id) matches Ok(x) ==> reaches(start, card_of, x)) by {
                        if j < a.queue.len() {
                            assert(t.queue[j] == a.queue[j]);
                        }
                    }
                    assert(strays_nowhere(t, start, card_of));
                }
            }
        }
    }
}

/// Every token that a search has found can be reached from the cards with which it began, under its oracle ID, and no
/// two have the same one.
pub proof fn found_cards_are_reachable(start: Seq<CardView>, card_of: spec_fn(u128) -> CardView, n: int)
    requires
        is_kept(start, card_of),
        0 <= n,
        after_cards(start, card_of, n) is Some,
    ensures
        ({
            let found = advance(after_cards(start, card_of, n)->0).0.found;
            &&& forall|j: int| 0 <= j < found.len() ==> is_reached(#[trigger] found[j], start, card_of)
            &&& idmap::distinct(found)
        }),
{
    search_strays_nowhere(start, card_of, n);
    advance_strays_nowhere(after_cards(start, card_of, n)->0, start, card_of);
}

/// A key has the same place whether the cards or their views are looked at.
proof fn views_keep_places(s: Seq<(u128, ScryfallCard)>, key: u128)
    ensures
        idmap::place(found_views(s), key) == idmap::place(s, key),
    decreases s.len(),
{
    if s.len() > 0 {
        assert(found_views(s).drop_first() =~= found_views(s.drop_first()));
        assert(found_views(s)[0] == (s[0].0, s[0].1@));
        views_keep_places(s.drop_first(), key);
    }
}

/// A related card is wanted for its ID and for what it is to the card alone: with an ID that can be read it is
/// wanted whatever it is to the card, but for the pieces of a combo and the parts of a meld.
pub proof fn part_is_wanted(part: JsonView, i: int, s: Seq<char>, id: u128, component: Seq<char>)
    requires
        part.get("id"@) == Some(JsonView::Text(s)),
        uuids::uuid_of(s) == Some(id),
        part.get("component"@) == Some(JsonView::Text(component)),
    ensures
        component != "combo_piece"@ && component != "meld_part"@ ==> wanted(part, i) == Ok::<
            Option<u128>,
            TokenError,
        >(Some(id)),
        component == "token"@ || component == "meld_result"@ ==> wanted(part, i) == Ok::<Option<u128>, TokenError>(
            Some(id),
        ),
        component == "combo_piece"@ || component == "meld_part"@ ==> wanted(part, i) == Ok::<
            Option<u128>,
            TokenError,
        >(None),
{
    reveal_strlit("token");
    reveal_strlit("meld_result");
    reveal_strlit("combo_piece");
    reveal_strlit("meld_part");
    assert("meld_result"@[0] == 'm' && "combo_piece"@[0] == 'c');
    assert("token"@.len() == 5 && "combo_piece"@.len() == 11 && "meld_part"@.len() == 9);
    assert("meld_result"@.len() == 11);
}

/// A related card that is wanted has an ID that can be read, and says that it is something else to the card
/// than a piece of a combo or a part of a meld.
pub proof fn wanted_parts_say_so(part: JsonView, i: int, id: u128)
    requires
        wanted(part, i) == Ok::<Option<u128>, TokenError>(Some(id)),
    ensures
        part.get("id"@) is Some && part.get("id"@)->0 is Text,
        uuids::uuid_of(part.get("id"@)->0->Text_0) == Some(id),
        part.get("component"@) is Some && part.get("component"@)->0 is Text,
        part.get("component"@)->0->Text_0 != "combo_piece"@,
        part.get("component"@)->0->Text_0 != "meld_part"@,
{
}

/// A related card without a component is passed over where its ID can be read; without such an ID, or with a
/// component that is no text, it is a problem.
pub proof fn other_parts(part: JsonView, i: int)
    ensures
        wanted(part, i) is Err <==> {
            ||| part.get("id"@) is None
            ||| !(part.get("id"@)->0 is Text)
            ||| uuids::uuid_of(part.get("id"@)->0->Text_0) is None
            ||| (part.get("component"@) is Some && !(part.get("component"@)->0 is Text))
        },
        wanted(part, i) is Ok && part.get("component"@) is None ==> wanted(part, i) == Ok::<
            Option<u128>,
            TokenError,
        >(None),
{
}

/// Nothing but the ID and the component of a related card says whether it is wanted.
pub proof fn other_members_say_nothing(part: JsonView, other: JsonView, i: int)
    requires
        part.get("id"@) == other.get("id"@),
        part.get("component"@) == other.get("component"@),
    ensures
        wanted(part, i) == wanted(other, i),
{
}

/// A card wants exactly the cards in the array under "all_parts" that have an ID that can be read and a
/// component other than those of a combo or of the parts of a meld.
pub proof fn card_wants_its_parts(card: JsonView, parts: Seq<JsonView>, id: u128)
    requires
        card.get("all_parts"@) == Some(JsonView::Array(parts)),
    ensures
        wants(card, id) <==> exists|i: int|
            0 <= i < parts.len() && {
                let part = #[trigger] parts[i];
                &&& part.get("id"@) is Some && part.get("id"@)->0 is Text
                &&& uuids::uuid_of(part.get("id"@)->0->Text_0) == Some(id)
                &&& part.get("component"@) is Some && part.get("component"@)->0 is Text
                &&& part.get("component"@)->0->Text_0 != "combo_piece"@
                &&& part.get("component"@)->0->Text_0 != "meld_part"@
            },
{
    assert(related(card) == parts);
    if wants(card, id) {
        let i = choose|i: int|
            0 <= i < related(card).len() && wanted(#[trigger] related(card)[i], i) == Ok::<
                Option<u128>,
                TokenError,
            >(Some(id));
        wanted_parts_say_so(parts[i], i, id);
    }
    if exists|i: int|
        0 <= i < parts.len() && {
            let part = #[trigger] parts[i];
            &&& part.get("id"@) is Some && part.get("id"@)->0 is Text
            &&& uuids::uuid_of(part.get("id"@)->0->Text_0) == Some(id)
            &&& part.get("component"@) is Some && part.get("component"@)->0 is Text
            &&& part.get("component"@)->0->Text_0 != "combo_piece"@
            &&& part.get("component"@)->0->Text_0 != "meld_part"@
        } {
        let i = choose|i: int|
            0 <= i < parts.len() && {
                let part = #[trigger] parts[i];
                &&& part.get("id"@) is Some && part.get("id"@)->0 is Text
                &&& uuids::uuid_of(part.get("id"@)->0->Text_0) == Some(id)
                &&& part.get("component"@) is Some && part.get("component"@)->0 is Text
                &&& part.get("component"@)->0->Text_0 != "combo_piece"@
                &&& part.get("component"@)->0->Text_0 != "meld_part"@
            };
        assert(wanted(related(card)[i], i) == Ok::<Option<u128>, TokenError>(Some(id)));
    }
}

/// A card without an array under "all_parts" wants no card.
pub proof fn card_without_parts_wants_none(card: JsonView, id: u128)
    requires
        card.get("all_parts"@) is None || !(card.get("all_parts"@)->0 is Array),
    ensures
        !wants(card, id),
{
}

/// A search asks for the next related card that is wanted and that was not looked at yet.
pub proof fn wanted_part_is_asked_for(s: SearchView, i: int, id: u128)
    requires
        s.current is Some,
        0 <= s.index <= i < related(s.current->0.json).len(),
        wanted(related(s.current->0.json)[i], i) == Ok::<Option<u128>, TokenError>(Some(id)),
        !s.seen.contains(id),
        forall|j: int|
            s.index <= j < i ==> wanted(#[trigger] related(s.current->0.json)[j], j) == Ok::<
                Option<u128>,
                TokenError,
            >(None) || (wanted(related(s.current->0.json)[j], j) is Ok && s.seen.contains(
                wanted(related(s.current->0.json)[j], j)->Ok_0->0,
            )),
    ensures
        advance(s).1 == Step::Need(ScryfallId(Uuid { bits: id })),
        advance(s).0 == (SearchView { index: i + 1, ..s }),
    decreases i - s.index,
{
    if s.index < i {
        let w = wanted(related(s.current->0.json)[s.index], s.index);
        assert(w == Ok::<Option<u128>, TokenError>(None) || (w is Ok && s.seen.contains(w->Ok_0->0)));
        wanted_part_is_asked_for(SearchView { index: s.index + 1, ..s }, i, id);
    }
}

/// A card that the search is told is a token, unless one with its oracle ID is already: that one stays. In any case
/// its related cards are looked at, behind those of the cards before it, and nothing else changes.
pub proof fn first_token_stays(s: SearchView, card: CardView, oracle_id: u128, other: u128)
    ensures
        ({
            let t = provided(s, card, oracle_id);
            &&& idmap::lookup(t.found, oracle_id) == if idmap::has_key(s.found, oracle_id) {
                idmap::lookup(s.found, oracle_id)
            } else {
                Some(card)
            }
            &&& other != oracle_id ==> idmap::lookup(t.found, other) == idmap::lookup(s.found, other)
            &&& t.queue == s.queue.push(card)
            &&& t.seen == s.seen
            &&& t.current == s.current
            &&& t.index == s.index
        }),
{
    idmap::first_value_stays(s.found, oracle_id, card, other);
}

/// What is wrong with a related card: its ID is missing, is no text or is no ID, or its component is no text; the
/// first of these is what is reported.
pub proof fn bad_parts_are_reported(part: JsonView, i: int)
    ensures
        ({
            let id = part.get("id"@);
            let component = part.get("component"@);
            &&& id is None ==> wanted(part, i) == Err::<Option<u128>, TokenError>(TokenError::PartWithoutId(i as usize))
            &&& id is Some && !(id->0 is Text) ==> wanted(part, i) == Err::<Option<u128>, TokenError>(
                TokenError::PartIdNotText(i as usize),
            )
            &&& id is Some && id->0 is Text && uuids::uuid_of(id->0->Text_0) is None ==> wanted(part, i) == Err::<
                Option<u128>,
                TokenError,
            >(TokenError::PartBadId(i as usize))
            &&& id is Some && id->0 is Text && uuids::uuid_of(id->0->Text_0) is Some && component is Some && !(
            component->0 is Text) ==> wanted(part, i) == Err::<Option<u128>, TokenError>(
                TokenError::ComponentNotText(ScryfallId(Uuid { bits: uuids::uuid_of(id->0->Text_0)->0 })),
            )
        }),
{
}

/// A search that is done with a card goes on with the first card that waits, unless it was looked at before; it is
/// over where none waits, and a card without an ID stops it.
pub proof fn next_card_is_the_first_that_waits(s: SearchView)
    requires
        match s.current {
            Some(c) => s.index >= related(c.json).len(),
            None => true,
        },
    ensures
        s.queue.len() == 0 ==> advance(s).1 is Done && advance(s).0.found == s.found,
        s.queue.len() > 0 ==> match id_field(s.queue[0].json, Field::Id) {
            Err(e) => advance(s).1 == Step::Failed(TokenError::Card(e)),
            Ok(id) => advance(s) == advance(
                SearchView {
                    queue: s.queue.drop_first(),
                    seen: s.seen.insert(id),
                    found: s.found,
                    current: if s.seen.contains(id) {
                        None
                    } else {
                        Some(s.queue[0])
                    },
                    index: 0,
                },
            ),
        },
{
    assert(advance(s) == advance_queue(s));
    if s.queue.len() > 0 && id_field(s.queue[0].json, Field::Id) is Ok {
        let id = id_field(s.queue[0].json, Field::Id)->Ok_0;
        if s.seen.contains(id) {
            assert(s.seen.insert(id) =~= s.seen);
        }
        let idle = SearchView { current: None, index: 0, ..s };
        let rest = SearchView { queue: s.queue.drop_first(), ..idle };
        let next = SearchView {
            queue: s.queue.drop_first(),
            seen: s.seen.insert(id),
            found: s.found,
            current: if s.seen.contains(id) {
                None
            } else {
                Some(s.queue[0])
            },
            index: 0,
        };
        assert(next =~= if s.seen.contains(id) {
            rest
        } else {
            SearchView { seen: s.seen.insert(id), current: Some(s.queue[0]), ..rest }
        });
    }
}

/// A related card with which something is wrong stops the search.
pub proof fn bad_part_stops_the_search(s: SearchView, e: TokenError)
    requires
        s.current is Some,
        0 <= s.index < related(s.current->0.json).len(),
        wanted(related(s.current->0.json)[s.index], s.index) == Err::<Option<u128>, TokenError>(e),
    ensures
        advance(s).1 == Step::Failed(e),
{
}

} // verus!
