//! Finding the commanders in a deck's list.
use crate::deck::loaders::CardList;
use crate::idmap;
use crate::idmap::IdMap;
use crate::scryfall::ScryfallOracleId;
use crate::uuids::Uuid;
use vstd::prelude::*;

verus! {

/// How many cards a commander deck has.
pub const COMMANDER_DECK_SIZE: u128 = 100;

/// How many cards there are, all copies counted.
pub open spec fn card_total(list: Seq<(u128, (String, u8))>) -> int
    decreases list.len(),
{
    if list.len() == 0 {
        0
    } else {
        card_total(list.drop_last()) + list.last().1.1
    }
}

/// How many cards there are, all copies counted.
pub fn count_cards(list: &CardList) -> (r: u128)
    ensures
        r == card_total(list@),
{
    let mut sum: u128 = 0;
    let mut i: usize = 0;
    assert(list@.take(0) =~= Seq::empty());
    while i < list.len()
        invariant
            i <= list@.len(),
            sum == card_total(list@.take(i as int)),
            sum <= 255 * i,
        decreases list@.len() - i,
    {
        assert(list@.take(i + 1).drop_last() =~= list@.take(i as int));
        sum = sum + list.entry(i).1.1 as u128;
        i = i + 1;
    }
    assert(list@.take(i as int) =~= list@);
    sum
}

/// What has to be found out next.
#[derive(Clone, Copy, Debug, PartialEq, Eq, Structural)]
pub enum CommanderStep {
    /// Whether a card is legal in commander.
    CheckLegality(ScryfallOracleId),
    /// Which colors the deck has.
    GetColors,
    /// Whether a card can be the commander of the deck.
    CheckLeader(ScryfallOracleId),
    /// Nothing is left to find out.
    Done,
}

/// What is being found out.
#[derive(Clone, Copy, Debug, PartialEq, Eq, Structural)]
pub enum Phase {
    Legality,
    Leaders,
    Finished,
}

/// The search for the commanders in a list.
#[derive(Debug)]
pub struct CommanderSearch {
    list: CardList,
    phase: Phase,
    at: usize,
    leaders: Vec<u128>,
}

/// What a search stands for: the list, what is being found out, which card is next, and the commanders
/// that were found.
pub struct CommanderSearchView {
    pub list: Seq<(u128, (String, u8))>,
    pub phase: Phase,
    pub at: int,
    pub leaders: Seq<u128>,
}

impl View for CommanderSearch {
    type V = CommanderSearchView;

    closed spec fn view(&self) -> CommanderSearchView {
        CommanderSearchView {
            list: self.list@,
            phase: self.phase,
            at: self.at as int,
            leaders: self.leaders@,
        }
    }
}

/// The place of the first card from a place on of which there is one copy.
pub open spec fn next_single(list: Seq<(u128, (String, u8))>, from: int) -> int
    decreases list.len() - from,
{
    if from < 0 || from >= list.len() || list[from].1.1 == 1 {
        from
    } else {
        next_single(list, from + 1)
    }
}

/// What has to be found out next: whether each card is legal, then the deck's colors, then of each card of
/// which there is one copy whether it can be the commander.
pub open spec fn step_of(s: CommanderSearchView) -> CommanderStep {
    match s.phase {
        Phase::Legality => if s.at < s.list.len() {
            CommanderStep::CheckLegality(ScryfallOracleId(Uuid { bits: s.list[s.at].0 }))
        } else {
            CommanderStep::GetColors
        },
        Phase::Leaders => {
            let i = next_single(s.list, s.at);
            if i < s.list.len() {
                CommanderStep::CheckLeader(ScryfallOracleId(Uuid { bits: s.list[i].0 }))
            } else {
                CommanderStep::Done
            }
        },
        Phase::Finished => CommanderStep::Done,
    }
}

/// A search after the answer whether a card is legal.
pub open spec fn after_legality(s: CommanderSearchView, legal: bool) -> CommanderSearchView {
    if legal {
        CommanderSearchView { at: s.at + 1, ..s }
    } else {
        CommanderSearchView { phase: Phase::Finished, ..s }
    }
}

/// A search after the answer which colors the deck has.
pub open spec fn after_colors(s: CommanderSearchView) -> CommanderSearchView {
    CommanderSearchView { phase: Phase::Leaders, at: 0, ..s }
}

/// A search after the answer whether a card can be the commander.
pub open spec fn after_leader(s: CommanderSearchView, can_lead: bool) -> CommanderSearchView {
    let i = next_single(s.list, s.at);
    CommanderSearchView {
        at: i + 1,
        leaders: if can_lead {
            s.leaders.push(s.list[i].0)
        } else {
            s.leaders
        },
        ..s
    }
}

/// Whether every commander is a card of the list of which there is one copy.
pub open spec fn leaders_listed(s: CommanderSearchView) -> bool {
    forall|i: int|
        0 <= i < s.leaders.len() ==> idmap::lookup(s.list, #[trigger] s.leaders[i]) is Some
            && (idmap::lookup(s.list, s.leaders[i])->0).1 == 1
}

/// The cards of a list that are among some cards.
pub open spec fn led(list: Seq<(u128, (String, u8))>, ids: Seq<u128>) -> Seq<(u128, (String, u8))> {
    list.filter(|e: (u128, (String, u8))| ids.contains(e.0))
}

/// The cards of a list that are not among some cards.
pub open spec fn rest(list: Seq<(u128, (String, u8))>, ids: Seq<u128>) -> Seq<(u128, (String, u8))> {
    list.filter(|e: (u128, (String, u8))| !ids.contains(e.0))
}

/// The names of some cards.
pub open spec fn named(list: Seq<(u128, (String, u8))>) -> Seq<(u128, String)> {
    list.map_values(|e: (u128, (String, u8))| (e.0, e.1.0))
}

fn is_among(ids: &Vec<u128>, id: u128) -> (r: bool)
    ensures
        r == ids@.contains(id),
{
    let mut i: usize = 0;
    while i < ids.len()
        invariant
            i <= ids@.len(),
            forall|j: int| 0 <= j < i ==> ids@[j] != id,
        decreases ids.len() - i,
    {
        if ids[i] == id {
            assert(ids@[i as int] == id);
            return true;
        }
        i = i + 1;
    }
    false
}

/// A chosen part of a list has no key twice either.
proof fn part_is_distinct<V>(s: Seq<(u128, V)>, p: spec_fn((u128, V)) -> bool)
    requires
        idmap::distinct(s),
    ensures
        idmap::distinct(s.filter(p)),
    decreases s.len(),
{
    reveal(Seq::filter);
    if s.len() > 0 {
        let t = s.drop_last();
        part_is_distinct(t, p);
        let f = t.filter(p);
        if p(s.last()) {
            assert forall|i: int, j: int| 0 <= i < j < f.push(s.last()).len() implies (#[trigger] f.push(
                s.last(),
            )[i]).0 != (#[trigger] f.push(s.last())[j]).0 by {
                if j == f.len() {
                    t.lemma_filter_contains_rev(p, f[i]);
                    let k = choose|k: int| 0 <= k < t.len() && t[k] == f[i];
                    assert(s[k].0 != s[s.len() - 1].0);
                }
            }
        }
    }
}

impl CommanderSearch {
    /// Whether no card stands twice in the list, and every commander found is a card of it.
    pub closed spec fn wf(&self) -> bool {
        &&& self.list.wf()
        &&& self.at <= self.list@.len()
        &&& leaders_listed(self@)
    }

    /// A search in a list. In a deck of any other size than that of a commander deck nothing is searched for.
    pub fn new(main_deck: CardList) -> (r: CommanderSearch)
        requires
            main_deck.wf(),
        ensures
            r.wf(),
            r@.list == main_deck@,
            r@.phase == if card_total(main_deck@) == COMMANDER_DECK_SIZE {
                Phase::Legality
            } else {
                Phase::Finished
            },
            r@.at == 0,
            r@.leaders == Seq::<u128>::empty(),
    {
        let phase = if count_cards(&main_deck) == COMMANDER_DECK_SIZE {
            Phase::Legality
        } else {
            Phase::Finished
        };
        CommanderSearch { list: main_deck, phase, at: 0, leaders: Vec::new() }
    }

    fn single(&self) -> (r: usize)
        requires
            self.at <= self.list@.len(),
        ensures
            r == next_single(self.list@, self.at as int),
            self.at <= r <= self.list@.len(),
            r < self.list@.len() ==> self.list@[r as int].1.1 == 1,
    {
        let mut i: usize = self.at;
        while i < self.list.len() && self.list.entry(i).1.1 != 1
            invariant
                self.at <= i <= self.list@.len(),
                next_single(self.list@, self.at as int) == next_single(self.list@, i as int),
            decreases self.list@.len() - i,
        {
            i = i + 1;
        }
        i
    }

    /// What has to be found out next.
    pub fn next(&self) -> (r: CommanderStep)
        requires
            self.wf(),
        ensures
            r == step_of(self@),
    {
        match self.phase {
            Phase::Legality => if self.at < self.list.len() {
                CommanderStep::CheckLegality(ScryfallOracleId(Uuid { bits: self.list.entry(self.at).0 }))
            } else {
                CommanderStep::GetColors
            },
            Phase::Leaders => {
                let i: usize = self.single();
                if i < self.list.len() {
                    CommanderStep::CheckLeader(ScryfallOracleId(Uuid { bits: self.list.entry(i).0 }))
                } else {
                    CommanderStep::Done
                }
            },
            Phase::Finished => CommanderStep::Done,
        }
    }

    /// Takes the answer whether a card is legal. One card that is not ends the search.
    pub fn legality(&mut self, legal: bool)
        requires
            old(self).wf(),
            step_of(old(self)@) is CheckLegality,
        ensures
            final(self).wf(),
            final(self)@ == if legal {
                (CommanderSearchView { at: old(self)@.at + 1, ..old(self)@ })
            } else {
                (CommanderSearchView { phase: Phase::Finished, ..old(self)@ })
            },
            final(self)@ == after_legality(old(self)@, legal),
    {
        let len: usize = self.list.len();
        if legal {
            assert(self.at < len);
            self.at = self.at + 1;
        } else {
            self.phase = Phase::Finished;
        }
    }

    /// Goes on to the commanders, once the colors of the deck are known.
    pub fn colors_known(&mut self)
        requires
            old(self).wf(),
            step_of(old(self)@) is GetColors,
        ensures
            final(self).wf(),
            final(self)@ == (CommanderSearchView { phase: Phase::Leaders, at: 0, ..old(self)@ }),
            final(self)@ == after_colors(old(self)@),
    {
        self.phase = Phase::Leaders;
        self.at = 0;
    }

    /// Takes the answer whether a card can be the commander.
    pub fn leader(&mut self, can_lead: bool)
        requires
            old(self).wf(),
            step_of(old(self)@) is CheckLeader,
        ensures
            final(self).wf(),
            ({
                let i = next_single(old(self)@.list, old(self)@.at);
                &&& 0 <= i < old(self)@.list.len()
                &&& final(self)@ == (CommanderSearchView {
                    at: i + 1,
                    leaders: if can_lead {
                        old(self)@.leaders.push(old(self)@.list[i].0)
                    } else {
                        old(self)@.leaders
                    },
                    ..old(self)@
                })
            }),
            final(self)@ == after_leader(old(self)@, can_lead),
    {
        let i: usize = self.single();
        let len: usize = self.list.len();
        assert(i < len);
        self.at = i + 1;
        if can_lead {
            let id: u128 = self.list.entry(i).0;
            proof {
                idmap::place_at(self.list@, id, i as int);
            }
            self.leaders.push(id);
        }
    }

    /// The commanders that were found, and the list without them.
    pub fn finish(self) -> (r: (IdMap<String>, CardList))
        requires
            self.wf(),
        ensures
            r.0.wf(),
            r.1.wf(),
            r.0@ == named(led(self@.list, self@.leaders)),
            r.1@ == rest(self@.list, self@.leaders),
    {
        let CommanderSearch { list, phase: _, at: _, leaders } = self;
        let ghost start = list@;
        let ghost ids = leaders@;
        let ghost chosen = |e: (u128, (String, u8))| ids.contains(e.0);
        let ghost other = |e: (u128, (String, u8))| !ids.contains(e.0);
        let mut entries = list.into_entries();
        let mut commanders: Vec<(u128, String)> = Vec::new();
        let mut main_deck: Vec<(u128, (String, u8))> = Vec::new();
        proof {
            reveal(Seq::filter);
            assert(start.take(0) =~= Seq::empty());
            assert(named(led(start.take(0), ids)) =~= Seq::empty());
            assert(rest(start.take(0), ids) =~= Seq::empty());
        }
        while entries.len() > 0
            invariant
                entries@.len() <= start.len(),
                entries@ == start.skip(start.len() - entries@.len()),
                ids == leaders@,
                commanders@ == named(led(start.take(start.len() - entries@.len()), ids)),
                main_deck@ == rest(start.take(start.len() - entries@.len()), ids),
            decreases entries@.len(),
        {
            let ghost k = start.len() - entries@.len();
            let e = entries.remove(0);
            proof {
                reveal(Seq::filter);
                assert(e == start[k]);
                assert(entries@ =~= start.skip(k + 1));
                assert(start.take(k + 1).drop_last() =~= start.take(k));
                assert(start.take(k + 1).last() == e);
            }
            if is_among(&leaders, e.0) {
                let ghost before = led(start.take(k), ids);
                assert(led(start.take(k + 1), ids) == before.push(e));
                assert(named(before.push(e)) =~= named(before).push((e.0, e.1.0)));
                commanders.push((e.0, e.1.0));
            } else {
                main_deck.push(e);
            }
        }
        proof {
            assert(start.take(start.len() as int) =~= start);
            part_is_distinct(start, chosen);
            part_is_distinct(start, other);
            assert(led(start, ids) == start.filter(chosen));
            assert(rest(start, ids) == start.filter(other));
            let l = led(start, ids);
            assert forall|i: int, j: int| 0 <= i < j < named(l).len() implies (#[trigger] named(l)[i]).0 != (
            #[trigger] named(l)[j]).0 by {
                assert(l[i].0 != l[j].0);
            }
        }
        (IdMap::from_entries(commanders), IdMap::from_entries(main_deck))
    }
}

/// Taking the commanders out of a list loses no card and adds none.
pub proof fn commanders_part_the_list(list: Seq<(u128, (String, u8))>, ids: Seq<u128>)
    ensures
        card_total(led(list, ids)) + card_total(rest(list, ids)) == card_total(list),
        led(list, ids).to_multiset().add(rest(list, ids).to_multiset()) =~= list.to_multiset(),
    decreases list.len(),
{
    broadcast use vstd::seq_lib::group_to_multiset_ensures;

    reveal(Seq::filter);
    if list.len() > 0 {
        let t = list.drop_last();
        let e = list.last();
        commanders_part_the_list(t, ids);
        assert(list =~= t.push(e));
        if ids.contains(e.0) {
            assert(led(list, ids) == led(t, ids).push(e));
            assert(led(t, ids).push(e).drop_last() =~= led(t, ids));
        } else {
            assert(rest(list, ids) == rest(t, ids).push(e));
            assert(rest(t, ids).push(e).drop_last() =~= rest(t, ids));
        }
    }
}

/// How many questions are left at most.
pub open spec fn questions_left(s: CommanderSearchView) -> int {
    match s.phase {
        Phase::Legality => 2 * s.list.len() + 1 - s.at,
        Phase::Leaders => s.list.len() - s.at,
        Phase::Finished => 0,
    }
}

proof fn single_is_later(list: Seq<(u128, (String, u8))>, from: int)
    requires
        0 <= from <= list.len(),
    ensures
        from <= next_single(list, from) <= list.len(),
    decreases list.len() - from,
{
    if from < list.len() && list[from].1.1 != 1 {
        single_is_later(list, from + 1);
    }
}

/// The search ends: every answer leaves fewer questions, and none is left where nothing has to be found out.
pub proof fn search_ends(s: CommanderSearchView)
    requires
        0 <= s.at <= s.list.len(),
    ensures
        questions_left(s) >= 0,
        step_of(s) is CheckLegality ==> 0 <= questions_left(CommanderSearchView { at: s.at + 1, ..s })
            < questions_left(s) && 0 <= questions_left(CommanderSearchView { phase: Phase::Finished, ..s })
            < questions_left(s),
        step_of(s) is GetColors ==> 0 <= questions_left(
            CommanderSearchView { phase: Phase::Leaders, at: 0, ..s },
        ) < questions_left(s),
        step_of(s) is CheckLeader ==> 0 <= questions_left(
            CommanderSearchView { at: next_single(s.list, s.at) + 1, ..s },
        ) < questions_left(s),
{
    single_is_later(s.list, s.at);
}

/// The number of cards is the sum of the numbers of copies.
pub proof fn total_adds_up(list: Seq<(u128, (String, u8))>, e: (u128, (String, u8)))
    ensures
        card_total(Seq::<(u128, (String, u8))>::empty()) == 0,
        card_total(list.push(e)) == card_total(list) + e.1.1,
{
    assert(list.push(e).drop_last() =~= list);
}

/// Of no card that is passed over is there one copy, and of the card that is stopped at there is one.
pub proof fn no_single_is_passed_over(list: Seq<(u128, (String, u8))>, at: int)
    requires
        0 <= at <= list.len(),
    ensures
        at <= next_single(list, at) <= list.len(),
        forall|i: int| at <= i < next_single(list, at) ==> (#[trigger] list[i]).1.1 != 1,
        next_single(list, at) < list.len() ==> list[next_single(list, at)].1.1 == 1,
    decreases list.len() - at,
{
    if at < list.len() && list[at].1.1 != 1 {
        no_single_is_passed_over(list, at + 1);
    }
}

/// A search after its question is answered, where it has one: which cards are legal and which can be the
/// commander is given.
pub open spec fn answered(
    s: CommanderSearchView,
    legal: spec_fn(u128) -> bool,
    can_lead: spec_fn(u128) -> bool,
) -> CommanderSearchView {
    match step_of(s) {
        CommanderStep::CheckLegality(id) => after_legality(s, legal(id.0.bits)),
        CommanderStep::GetColors => after_colors(s),
        CommanderStep::CheckLeader(id) => after_leader(s, can_lead(id.0.bits)),
        CommanderStep::Done => s,
    }
}

/// A search after some answers.
pub open spec fn after_answers(
    s: CommanderSearchView,
    legal: spec_fn(u128) -> bool,
    can_lead: spec_fn(u128) -> bool,
    n: nat,
) -> CommanderSearchView
    decreases n,
{
    if n == 0 {
        s
    } else {
        after_answers(answered(s, legal, can_lead), legal, can_lead, (n - 1) as nat)
    }
}

proof fn answers_add_up(
    s: CommanderSearchView,
    legal: spec_fn(u128) -> bool,
    can_lead: spec_fn(u128) -> bool,
    n: nat,
    m: nat,
)
    ensures
        after_answers(s, legal, can_lead, n + m) == after_answers(
            after_answers(s, legal, can_lead, n),
            legal,
            can_lead,
            m,
        ),
    decreases n,
{
    if n > 0 {
        answers_add_up(answered(s, legal, can_lead), legal, can_lead, (n - 1) as nat, m);
    }
}

proof fn done_stays_done(
    s: CommanderSearchView,
    legal: spec_fn(u128) -> bool,
    can_lead: spec_fn(u128) -> bool,
    n: nat,
)
    requires
        step_of(s) is Done,
    ensures
        after_answers(s, legal, can_lead, n) == s,
    decreases n,
{
    if n > 0 {
        done_stays_done(s, legal, can_lead, (n - 1) as nat);
    }
}

/// Every card from the one that is next on is checked: where all of them are legal the colors are asked for
/// after them, and where one is not, nothing is.
pub proof fn every_card_is_checked(
    s: CommanderSearchView,
    legal: spec_fn(u128) -> bool,
    can_lead: spec_fn(u128) -> bool,
)
    requires
        s.phase == Phase::Legality,
        0 <= s.at <= s.list.len(),
    ensures
        ({
            let end = after_answers(s, legal, can_lead, (s.list.len() - s.at) as nat);
            &&& end.list == s.list
            &&& end.leaders == s.leaders
            &&& step_of(end) == if forall|i: int| s.at <= i < s.list.len() ==> legal((#[trigger] s.list[i]).0) {
                CommanderStep::GetColors
            } else {
                CommanderStep::Done
            }
        }),
    decreases s.list.len() - s.at,
{
    if s.at < s.list.len() {
        let t = answered(s, legal, can_lead);
        let n = (s.list.len() - s.at - 1) as nat;
        if legal(s.list[s.at].0) {
            every_card_is_checked(t, legal, can_lead);
            if forall|i: int| t.at <= i < t.list.len() ==> legal((#[trigger] t.list[i]).0) {
                assert forall|i: int| s.at <= i < s.list.len() implies legal((#[trigger] s.list[i]).0) by {
                    if i != s.at {
                        assert(legal(t.list[i].0));
                    }
                }
            } else {
                let i = choose|i: int| t.at <= i < t.list.len() && !legal((#[trigger] t.list[i]).0);
                assert(!legal(s.list[i].0));
            }
        } else {
            done_stays_done(t, legal, can_lead, n);
        }
    }
}

/// Of the cards from one place on, the commanders are those of which there is one copy and which can be the
/// commander.
pub proof fn every_single_is_checked(
    s: CommanderSearchView,
    legal: spec_fn(u128) -> bool,
    can_lead: spec_fn(u128) -> bool,
    n: nat,
)
    requires
        s.phase == Phase::Leaders,
        0 <= s.at <= s.list.len(),
        n >= s.list.len() - s.at,
    ensures
        ({
            let end = after_answers(s, legal, can_lead, n);
            &&& step_of(end) is Done
            &&& end.list == s.list
            &&& end.leaders == s.leaders + s.list.skip(s.at).filter(
                |e: (u128, (String, u8))| e.1.1 == 1 && can_lead(e.0),
            ).map_values(|e: (u128, (String, u8))| e.0)
        }),
    decreases s.list.len() - s.at,
{
    reveal(Seq::filter);
    let p = |e: (u128, (String, u8))| e.1.1 == 1 && can_lead(e.0);
    let f = |e: (u128, (String, u8))| e.0;
    let found = s.list.skip(s.at).filter(p).map_values(f);
    if s.at == s.list.len() {
        done_stays_done(s, legal, can_lead, n);
        assert(s.list.skip(s.at).filter(p) =~= Seq::empty());
        assert(s.leaders + found =~= s.leaders);
    } else {
        let e = s.list[s.at];
        let one = seq![e];
        let later = s.list.skip(s.at + 1);
        assert(s.list.skip(s.at) =~= one + later);
        Seq::filter_distributes_over_add(one, later, p);
        assert(one.drop_last() =~= Seq::empty());
        assert(one.last() == e);
        assert(one.drop_last().filter(p) =~= Seq::empty());
        if e.1.1 != 1 {
            assert(one.filter(p) =~= Seq::empty());
            assert(one.filter(p) + later.filter(p) =~= later.filter(p));
            let t = CommanderSearchView { at: s.at + 1, ..s };
            every_single_is_checked(t, legal, can_lead, n);
            assert(step_of(s) == step_of(t));
            if step_of(s) is Done {
                done_stays_done(s, legal, can_lead, n);
                done_stays_done(t, legal, can_lead, n);
            } else {
                assert(answered(s, legal, can_lead) == answered(t, legal, can_lead));
            }
        } else {
            let t = answered(s, legal, can_lead);
            every_single_is_checked(t, legal, can_lead, (n - 1) as nat);
            if can_lead(e.0) {
                assert(one.filter(p) =~= one);
                assert(found =~= seq![e.0] + later.filter(p).map_values(f));
                assert(s.leaders + found =~= t.leaders + later.filter(p).map_values(f));
            } else {
                assert(one.filter(p) =~= Seq::empty());
                assert(one.filter(p) + later.filter(p) =~= later.filter(p));
            }
        }
    }
}

/// What a whole search finds: where every card is legal, the commanders are the cards of which there is one
/// copy and which can be the commander, and the other cards stay in the list; where a card is not legal, or
/// the deck has not the size of a commander deck, there are no commanders and all cards stay.
pub proof fn search_finds_the_commanders(
    s: CommanderSearchView,
    legal: spec_fn(u128) -> bool,
    can_lead: spec_fn(u128) -> bool,
    n: nat,
    e: (u128, (String, u8)),
)
    requires
        idmap::distinct(s.list),
        s.phase != Phase::Leaders,
        s.at == 0,
        s.leaders == Seq::<u128>::empty(),
        n > 2 * s.list.len(),
    ensures
        ({
            let end = after_answers(s, legal, can_lead, n);
            let all_legal = forall|i: int| 0 <= i < s.list.len() ==> legal((#[trigger] s.list[i]).0);
            let chosen = s.phase == Phase::Legality && all_legal && e.1.1 == 1 && can_lead(e.0);
            &&& step_of(end) is Done
            &&& end.list == s.list
            &&& led(end.list, end.leaders).contains(e) <==> s.list.contains(e) && chosen
            &&& rest(end.list, end.leaders).contains(e) <==> s.list.contains(e) && !chosen
        }),
{
    let end = after_answers(s, legal, can_lead, n);
    let all_legal = forall|i: int| 0 <= i < s.list.len() ==> legal((#[trigger] s.list[i]).0);
    let p = |e: (u128, (String, u8))| e.1.1 == 1 && can_lead(e.0);
    let f = |e: (u128, (String, u8))| e.0;
    let chosen = s.phase == Phase::Legality && all_legal && p(e);
    if s.phase == Phase::Legality {
        let len = s.list.len();
        every_card_is_checked(s, legal, can_lead);
        let checked = after_answers(s, legal, can_lead, len);
        answers_add_up(s, legal, can_lead, len, (n - len) as nat);
        if all_legal {
            let t = answered(checked, legal, can_lead);
            every_single_is_checked(t, legal, can_lead, (n - len - 1) as nat);
            assert(s.list.skip(0) =~= s.list);
            assert(end.leaders =~= s.list.filter(p).map_values(f));
        } else {
            done_stays_done(checked, legal, can_lead, (n - len) as nat);
        }
    } else {
        done_stays_done(s, legal, can_lead, n);
    }
    let among = |e: (u128, (String, u8))| end.leaders.contains(e.0);
    let other = |e: (u128, (String, u8))| !end.leaders.contains(e.0);
    if s.list.contains(e) {
        let k = choose|k: int| 0 <= k < s.list.len() && s.list[k] == e;
        let found = s.list.filter(p);
        if chosen {
            s.list.lemma_filter_contains(p, k);
            let j = choose|j: int| 0 <= j < found.len() && found[j] == e;
            assert(end.leaders[j] == e.0);
        } else if end.leaders.contains(e.0) {
            let j = choose|j: int| 0 <= j < end.leaders.len() && end.leaders[j] == e.0;
            assert(found.contains(found[j]));
            s.list.lemma_filter_contains_rev(p, found[j]);
            s.list.lemma_filter_pred(p, j);
            let i = choose|i: int| 0 <= i < s.list.len() && s.list[i] == found[j];
            assert(s.list[i].0 == s.list[k].0);
            assert(i == k);
        }
        assert(end.leaders.contains(e.0) == chosen);
        if chosen {
            s.list.lemma_filter_contains(among, k);
        } else {
            s.list.lemma_filter_contains(other, k);
        }
    }
    if led(end.list, end.leaders).contains(e) {
        s.list.lemma_filter_contains_rev(among, e);
        let j = choose|j: int| 0 <= j < s.list.filter(among).len() && s.list.filter(among)[j] == e;
        s.list.lemma_filter_pred(among, j);
    }
    if rest(end.list, end.leaders).contains(e) {
        s.list.lemma_filter_contains_rev(other, e);
        let j = choose|j: int| 0 <= j < s.list.filter(other).len() && s.list.filter(other)[j] == e;
        s.list.lemma_filter_pred(other, j);
    }
}

/// A commander deck has a hundred cards, and only such a deck is searched.
pub proof fn commander_decks_have_a_hundred_cards()
    ensures
        COMMANDER_DECK_SIZE == 100,
{
}

/// The commanders and the other cards keep their order, and the commanders their names.
pub proof fn parts_keep_order(
    a: Seq<(u128, (String, u8))>,
    e: (u128, (String, u8)),
    b: Seq<(u128, (String, u8))>,
    ids: Seq<u128>,
)
    ensures
        ids.contains(e.0) ==> named(led(a.push(e) + b, ids)) == named(led(a, ids)).push((e.0, e.1.0)) + named(
            led(b, ids),
        ) && rest(a.push(e) + b, ids) == rest(a, ids) + rest(b, ids),
        !ids.contains(e.0) ==> rest(a.push(e) + b, ids) == rest(a, ids).push(e) + rest(b, ids) && named(
            led(a.push(e) + b, ids),
        ) == named(led(a, ids)) + named(led(b, ids)),
{
    reveal(Seq::filter);
    let among = |x: (u128, (String, u8))| ids.contains(x.0);
    let other = |x: (u128, (String, u8))| !ids.contains(x.0);
    let start = a.push(e);
    Seq::filter_distributes_over_add(start, b, among);
    Seq::filter_distributes_over_add(start, b, other);
    assert(start.drop_last() =~= a);
    assert(start.last() == e);
    assert(led(start + b, ids) == led(start, ids) + led(b, ids));
    assert(rest(start + b, ids) == rest(start, ids) + rest(b, ids));
    if ids.contains(e.0) {
        assert(led(start, ids) == led(a, ids).push(e));
        assert(named(led(a, ids).push(e) + led(b, ids)) =~= named(led(a, ids)).push((e.0, e.1.0)) + named(led(b, ids)));
    } else {
        assert(rest(start, ids) == rest(a, ids).push(e));
        assert(named(led(a, ids) + led(b, ids)) =~= named(led(a, ids)) + named(led(b, ids)));
    }
}

} // verus!
