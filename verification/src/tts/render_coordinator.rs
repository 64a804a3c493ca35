//! Lets one deck at a time be rendered, and tells the owners of the others how long the queue is.
use crate::idmap;
use crate::idmap::IdMap;
use crate::types::deck::DeckId;
use crate::types::nonzero::NonZeroU16;
use crate::types::server_to_frontend::{Notification, RenderProgress};
use crate::types::user::UserId;
use crate::uuids::Uuid;
use vstd::prelude::*;

verus! {

/// The decks that wait, with their owners, and whether a deck is being rendered.
#[derive(Debug)]
pub struct Pending {
    pub decks: IdMap<UserId>,
    pub running: bool,
}

/// What decks wait, and whether one is being rendered.
#[verifier::ext_equal]
pub struct QueueView {
    pub decks: Seq<(u128, UserId)>,
    pub running: bool,
}

impl View for Pending {
    type V = QueueView;

    open spec fn view(&self) -> QueueView {
        QueueView { decks: self.decks@, running: self.running }
    }
}

/// What happens to the queue.
pub enum Event {
    /// A deck is let wait for its turn.
    Wait(DeckId, UserId),
    /// A deck asks whether it is its turn.
    Start(DeckId),
    /// The deck that was rendered is done.
    Finish,
}

/// The queue with a deck that waits.
pub open spec fn waited(q: QueueView, deck: DeckId, user: UserId) -> QueueView {
    QueueView { decks: idmap::put(q.decks, deck.0.bits, user), ..q }
}

/// The queue after a deck asked for its turn: it gets it where no other is being rendered.
pub open spec fn started(q: QueueView, deck: DeckId) -> QueueView {
    if q.running {
        q
    } else {
        QueueView { decks: idmap::without(q.decks, deck.0.bits), running: true }
    }
}

/// The queue after something happened.
pub open spec fn after(q: QueueView, event: Event) -> QueueView {
    match event {
        Event::Wait(deck, user) => waited(q, deck, user),
        Event::Start(deck) => started(q, deck),
        Event::Finish => QueueView { running: false, ..q },
    }
}

/// The queue after the first `n` of some events, from the empty queue on.
pub open spec fn after_events(events: Seq<Event>, n: int) -> QueueView
    decreases n,
{
    if n <= 0 {
        QueueView { decks: Seq::empty(), running: false }
    } else {
        after(after_events(events, n - 1), events[n - 1])
    }
}

/// Whether one of some events is that a deck's turn comes.
pub open spec fn turn_comes(events: Seq<Event>, i: int) -> bool {
    events[i] is Start && !after_events(events, i).running
}

/// How long the queue is said to be while some decks wait: the one that is rendered counts too. The number
/// stops at the largest one that can be told.
pub open spec fn queue_length(waiting: nat) -> int {
    if waiting >= 0xffff {
        0xffff
    } else {
        waiting as int + 1
    }
}

/// Whether some news tells the owner of a waiting deck how long the queue is.
pub open spec fn tells(news: (UserId, Notification), waiting: (u128, UserId), length: int) -> bool {
    &&& news.0 == waiting.1
    &&& news.1 matches Notification::RenderProgress { deck_id, progress }
    &&& deck_id == DeckId(Uuid { bits: waiting.0 })
    &&& progress matches RenderProgress::Waiting { queue_length }
    &&& queue_length.value() == length
}

impl Pending {
    /// Whether no deck waits twice.
    pub open spec fn wf(&self) -> bool {
        self.decks.wf()
    }

    /// No deck waits, and none is being rendered.
    pub fn new() -> (r: Pending)
        ensures
            r.wf(),
            r@ == (QueueView { decks: Seq::empty(), running: false }),
    {
        let r = Pending { decks: IdMap::new(), running: false };
        assert(r@ =~= (QueueView { decks: Seq::empty(), running: false }));
        r
    }

    /// Lets a deck wait.
    pub fn wait(&mut self, deck: DeckId, user: UserId)
        requires
            old(self).wf(),
        ensures
            final(self).wf(),
            final(self)@ == waited(old(self)@, deck, user),
    {
        self.decks.insert(deck.0.bits, user);
    }

    /// Gives a deck its turn, unless another is being rendered: it no longer waits, and there is news for the
    /// owners of all that do.
    pub fn start(&mut self, deck: DeckId) -> (r: Option<Vec<(UserId, Notification)>>)
        requires
            old(self).wf(),
        ensures
            final(self).wf(),
            final(self)@ == started(old(self)@, deck),
            r is Some == !old(self)@.running,
            r matches Some(news) ==> {
                &&& news@.len() == final(self).decks@.len()
                &&& forall|i: int|
                    0 <= i < news@.len() ==> tells(
                        #[trigger] news@[i],
                        final(self).decks@[i],
                        queue_length(final(self).decks@.len()),
                    )
            },
    {
        if self.running {
            return None;
        }
        self.running = true;
        let _ = self.decks.remove(deck.0.bits);
        let waiting: usize = self.decks.len();
        let length: u16 = if waiting >= 0xffff {
            0xffff
        } else {
            waiting as u16 + 1
        };
        let mut news: Vec<(UserId, Notification)> = Vec::new();
        if let Some(queue_length) = NonZeroU16::new(length) {
            let mut i: usize = 0;
            while i < waiting
                invariant
                    i <= waiting,
                    waiting == self.decks@.len(),
                    queue_length.value() == length,
                    length == self::queue_length(waiting as nat),
                    news@.len() == i,
                    forall|j: int|
                        0 <= j < i ==> tells(#[trigger] news@[j], self.decks@[j], length as int),
                decreases waiting - i,
            {
                let e = self.decks.entry(i);
                let progress = RenderProgress::Waiting { queue_length };
                let deck_id = DeckId(Uuid { bits: e.0 });
                news.push((e.1, Notification::RenderProgress { deck_id, progress }));
                i = i + 1;
            }
        }
        Some(news)
    }

    /// The deck that was rendered is done.
    pub fn finish(&mut self)
        requires
            old(self).wf(),
        ensures
            final(self).wf(),
            final(self)@ == (QueueView { running: false, ..old(self)@ }),
    {
        self.running = false;
    }
}

/// A deck is being rendered until it is done.
proof fn runs_until_finished(events: Seq<Event>, i: int, j: int)
    requires
        0 <= i <= j <= events.len(),
        after_events(events, i).running,
        forall|k: int| i <= k < j ==> !((#[trigger] events[k]) is Finish),
    ensures
        after_events(events, j).running,
    decreases j - i,
{
    if i < j {
        runs_until_finished(events, i, j - 1);
        assert(!(events[j - 1] is Finish));
    }
}

/// Only one deck is rendered at a time: between two turns the first deck was done.
pub proof fn one_at_a_time(events: Seq<Event>, i: int, j: int)
    requires
        0 <= i < j < events.len(),
        turn_comes(events, i),
        turn_comes(events, j),
    ensures
        exists|k: int| i < k < j && (#[trigger] events[k]) is Finish,
{
    if !(exists|k: int| i < k < j && (#[trigger] events[k]) is Finish) {
        assert(after_events(events, i + 1).running);
        runs_until_finished(events, i + 1, j);
    }
}

/// A deck whose turn comes no longer waits, and every other deck waits as before.
pub proof fn turn_ends_waiting(events: Seq<Event>, i: int, deck: DeckId, other: u128)
    requires
        0 <= i < events.len(),
        turn_comes(events, i),
        events[i] == Event::Start(deck),
    ensures
        ({
            let before = after_events(events, i).decks;
            let now = after_events(events, i + 1).decks;
            &&& !idmap::has_key(now, deck.0.bits)
            &&& other != deck.0.bits ==> idmap::lookup(now, other) == idmap::lookup(before, other)
        }),
{
    no_deck_waits_twice(events, i);
    let before = after_events(events, i).decks;
    idmap::without_removes(before, deck.0.bits);
    if other != deck.0.bits {
        lookup_without(before, deck.0.bits, other);
    }
}

/// No deck ever waits twice.
proof fn no_deck_waits_twice(events: Seq<Event>, n: int)
    requires
        0 <= n <= events.len(),
    ensures
        idmap::distinct(after_events(events, n).decks),
    decreases n,
{
    if n > 0 {
        no_deck_waits_twice(events, n - 1);
        let before = after_events(events, n - 1).decks;
        match events[n - 1] {
            Event::Wait(deck, user) => idmap::put_keeps_distinct(before, deck.0.bits, user),
            Event::Start(deck) => idmap::without_removes(before, deck.0.bits),
            Event::Finish => {},
        }
    }
}

/// A deck that was let wait and then rendered waits no longer, and every other deck waits as before.
pub proof fn started_deck_waits_no_longer(decks: Seq<(u128, UserId)>, deck: u128, user: UserId, other: u128)
    requires
        idmap::distinct(decks),
    ensures
        ({
            let after = idmap::without(idmap::put(decks, deck, user), deck);
            &&& !idmap::has_key(after, deck)
            &&& other != deck ==> idmap::lookup(after, other) == idmap::lookup(decks, other)
        }),
{
    let waiting = idmap::put(decks, deck, user);
    idmap::put_keeps_distinct(decks, deck, user);
    idmap::lookup_after_put(decks, deck, user, other);
    idmap::lookup_after_put(decks, deck, user, deck);
    idmap::without_removes(waiting, deck);
    if other != deck {
        lookup_without(waiting, deck, other);
    }
}

proof fn lookup_without(s: Seq<(u128, UserId)>, key: u128, other: u128)
    requires
        idmap::distinct(s),
        other != key,
    ensures
        idmap::lookup(idmap::without(s, key), other) == idmap::lookup(s, other),
{
    idmap::place_is_first(s, key);
    idmap::place_is_first(s, other);
    let w = idmap::without(s, key);
    idmap::place_is_first(w, other);
    if idmap::has_key(s, key) {
        let p = idmap::place(s, key);
        if idmap::has_key(s, other) {
            let q = idmap::place(s, other);
            let q1 = if q < p {
                q
            } else {
                q - 1
            };
            assert(w[q1] == s[q]);
            assert forall|j: int| 0 <= j < q1 implies (#[trigger] w[j]).0 != other by {
                let j1 = if j < p {
                    j
                } else {
                    j + 1
                };
                assert(w[j] == s[j1]);
            }
            idmap::place_at(w, other, q1);
        } else {
            if idmap::has_key(w, other) {
                let q = idmap::place(w, other);
                let q1 = if q < p {
                    q
                } else {
                    q + 1
                };
                assert(w[q] == s[q1]);
                assert(s[q1].0 != other);
            }
        }
    }
}

/// A deck that is let wait waits, under its owner, and changes nothing for the others.
pub proof fn waiting_deck_waits(q: QueueView, deck: DeckId, user: UserId, other: u128)
    ensures
        ({
            let now = after(q, Event::Wait(deck, user));
            &&& idmap::lookup(now.decks, deck.0.bits) == Some(user)
            &&& other != deck.0.bits ==> idmap::lookup(now.decks, other) == idmap::lookup(q.decks, other)
            &&& now.running == q.running
        }),
{
    idmap::lookup_after_put(q.decks, deck.0.bits, user, other);
}

/// A deck gets its turn exactly where none is being rendered, and after a deck is done the next may get it.
pub proof fn turns_are_given(q: QueueView, deck: DeckId)
    ensures
        after(q, Event::Start(deck)).running,
        q.running ==> after(q, Event::Start(deck)) == q,
        !after(q, Event::Finish).running,
        after(q, Event::Finish).decks == q.decks,
{
}

/// The queue is said to be one longer than the number of decks that wait, as far as that can be told.
pub proof fn length_counts_the_running_deck(waiting: nat)
    ensures
        waiting + 1 <= u16::MAX ==> queue_length(waiting) == waiting + 1,
        waiting + 1 > u16::MAX ==> queue_length(waiting) == u16::MAX,
{
}

/// The owner of each waiting deck is told how long the queue is, and for which deck.
pub proof fn owners_are_told(user: UserId, deck: DeckId, queue_length: NonZeroU16, waiting: (u128, UserId), length: int)
    ensures
        tells(
            (user, Notification::RenderProgress { deck_id: deck, progress: RenderProgress::Waiting { queue_length } }),
            waiting,
            length,
        ) <==> user == waiting.1 && deck.0.bits == waiting.0 && queue_length.value() == length,
{
}

} // verus!
