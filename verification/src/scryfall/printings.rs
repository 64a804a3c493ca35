//! Which printings of a card go into a deck.
use crate::json::JsonView;
use crate::scryfall::{
    cards, id_field, row_card, CardError, CardView, Field, ScryfallCard, ScryfallCardRow, ScryfallId,
    ScryfallOracleId,
};
use crate::text;
use vstd::prelude::*;

verus! {

/// The cards of those rows that can be read.
pub open spec fn readable(rows: Seq<ScryfallCardRow>) -> Seq<CardView>
    decreases rows.len(),
{
    if rows.len() == 0 {
        Seq::empty()
    } else {
        match row_card(rows.last()) {
            Some(c) => readable(rows.drop_last()).push(c),
            None => readable(rows.drop_last()),
        }
    }
}

/// Whether a card's picture fills its whole face.
pub open spec fn full_face(card: JsonView) -> bool {
    match card.get("full_art"@) {
        Some(v) => v.as_bool() == Some(true),
        None => false,
    }
}

/// Whether a card was printed for fun.
pub open spec fn funny(card: JsonView) -> bool {
    card.text_of("set_type"@) == Some("funny"@)
}

/// The cards of one kind, in their order.
pub open spec fn of_kind(all: Seq<CardView>, full: bool, fun: bool) -> Seq<CardView> {
    all.filter(|c: CardView| full_face(c.json) == full && funny(c.json) == fun)
}

/// The printings to choose from: full-faced cards before others, and cards printed for fun only
/// where there is nothing else.
pub open spec fn options(all: Seq<CardView>) -> Seq<CardView> {
    if of_kind(all, true, false).len() > 0 {
        of_kind(all, true, false)
    } else if of_kind(all, false, false).len() > 0 {
        of_kind(all, false, false)
    } else if of_kind(all, true, true).len() > 0 {
        of_kind(all, true, true)
    } else {
        of_kind(all, false, true)
    }
}

/// A printing and how many of it there are.
pub struct PrintingView {
    pub id: u128,
    pub card: CardView,
    pub count: int,
}

/// The place of a printing; the number of printings where it is not among them.
pub open spec fn place_of(t: Seq<PrintingView>, id: u128) -> int
    decreases t.len(),
{
    if t.len() == 0 || t[0].id == id {
        0
    } else {
        1 + place_of(t.drop_first(), id)
    }
}

/// One more of a printing.
pub open spec fn one_more(t: Seq<PrintingView>, id: u128, card: CardView) -> Seq<PrintingView> {
    let i = place_of(t, id);
    if i < t.len() {
        t.update(i, PrintingView { id: t[i].id, card: t[i].card, count: t[i].count + 1 })
    } else {
        t.push(PrintingView { id, card, count: 1 })
    }
}

/// `n` cards, taken from the options in turn, counted by printing.
pub open spec fn dealt(options: Seq<CardView>, n: int) -> Result<Seq<PrintingView>, CardError>
    decreases n,
{
    if n <= 0 {
        Ok(Seq::empty())
    } else {
        match dealt(options, n - 1) {
            Err(e) => Err(e),
            Ok(t) => {
                let card = options[(n - 1) % (options.len() as int)];
                match id_field(card.json, Field::Id) {
                    Err(e) => Err(e),
                    Ok(id) => Ok(one_more(t, id, card)),
                }
            },
        }
    }
}

/// The printings for a number of copies of a card.
pub open spec fn expansion(
    oracle_id: ScryfallOracleId,
    rows: Seq<ScryfallCardRow>,
    n: int,
) -> Result<Seq<PrintingView>, CardError> {
    let o = options(readable(rows));
    if o.len() == 0 {
        Err(CardError::NoPrintings(oracle_id))
    } else {
        dealt(o, n)
    }
}

/// A printing and how many of it there are.
#[derive(Debug)]
pub struct Printing {
    pub id: ScryfallId,
    pub card: ScryfallCard,
    pub count: u8,
}

impl View for Printing {
    type V = PrintingView;

    open spec fn view(&self) -> PrintingView {
        PrintingView { id: self.id.0.bits, card: self.card@, count: self.count as int }
    }
}

/// The views of a vector of printings.
pub open spec fn printings(v: Seq<Printing>) -> Seq<PrintingView> {
    v.map_values(|p: Printing| p@)
}

/// How many cards some printings are together.
pub open spec fn total(t: Seq<PrintingView>) -> int
    decreases t.len(),
{
    if t.len() == 0 {
        0
    } else {
        total(t.drop_last()) + t.last().count
    }
}

proof fn total_update(t: Seq<PrintingView>, i: int, p: PrintingView)
    requires
        0 <= i < t.len(),
    ensures
        total(t.update(i, p)) == total(t) - t[i].count + p.count,
    decreases t.len(),
{
    if i == t.len() - 1 {
        assert(t.update(i, p).drop_last() =~= t.drop_last());
    } else {
        assert(t.update(i, p).drop_last() =~= t.drop_last().update(i, p));
        total_update(t.drop_last(), i, p);
    }
}

proof fn place_of_bounds(t: Seq<PrintingView>, id: u128)
    ensures
        0 <= place_of(t, id) <= t.len(),
        place_of(t, id) < t.len() ==> t[place_of(t, id)].id == id,
        forall|j: int| 0 <= j < place_of(t, id) ==> (#[trigger] t[j]).id != id,
    decreases t.len(),
{
    if t.len() > 0 && t[0].id != id {
        place_of_bounds(t.drop_first(), id);
        let k = place_of(t.drop_first(), id);
        assert forall|j: int| 0 <= j < k + 1 implies (#[trigger] t[j]).id != id by {
            if j > 0 {
                assert(t.drop_first()[j - 1].id != id);
            }
        }
    }
}

/// The printings of an expansion are as many cards as were asked for, no printing stands there
/// twice, and each is there at least once and no more often than there are cards.
pub proof fn dealt_counts(options: Seq<CardView>, n: int)
    requires
        n >= 0,
    ensures
        dealt(options, n) matches Ok(t) ==> {
            &&& total(t) == n
            &&& forall|i: int, j: int| 0 <= i < j < t.len() ==> (#[trigger] t[i]).id != (#[trigger] t[j]).id
            &&& forall|i: int| 0 <= i < t.len() ==> 1 <= (#[trigger] t[i]).count <= n
        },
    decreases n,
{
    if n > 0 {
        dealt_counts(options, n - 1);
        if dealt(options, n) is Ok {
            let t = dealt(options, n - 1)->Ok_0;
            let card = options[(n - 1) % (options.len() as int)];
            let id = id_field(card.json, Field::Id)->Ok_0;
            let i = place_of(t, id);
            place_of_bounds(t, id);
            if i < t.len() {
                let p = PrintingView { id: t[i].id, card: t[i].card, count: t[i].count + 1 };
                total_update(t, i, p);
            } else {
                let p = PrintingView { id, card, count: 1 };
                assert(t.push(p).drop_last() =~= t);
            }
        }
    }
}

/// Every printing of an expansion is one of the options, under its own ID.
pub proof fn dealt_from_options(options: Seq<CardView>, n: int)
    requires
        n >= 0,
        options.len() > 0,
    ensures
        dealt(options, n) matches Ok(t) ==> forall|i: int|
            0 <= i < t.len() ==> options.contains((#[trigger] t[i]).card) && id_field(t[i].card.json, Field::Id)
                == Ok::<u128, CardError>(t[i].id),
    decreases n,
{
    if n > 0 {
        dealt_from_options(options, n - 1);
        if dealt(options, n) is Ok {
            let t = dealt(options, n - 1)->Ok_0;
            let k = (n - 1) % (options.len() as int);
            assert(0 <= k < options.len()) by (nonlinear_arith)
                requires
                    k == (n - 1) % (options.len() as int),
                    options.len() > 0,
            ;
            let card = options[k];
            assert(options.contains(card));
            let id = id_field(card.json, Field::Id)->Ok_0;
            place_of_bounds(t, id);
        }
    }
}

/// Whether each of some cards has an ID, and no two have the same.
pub open spec fn ids_differ(cards: Seq<CardView>) -> bool {
    &&& forall|i: int| 0 <= i < cards.len() ==> id_field((#[trigger] cards[i]).json, Field::Id) is Ok
    &&& forall|i: int, j: int|
        0 <= i < j < cards.len() ==> id_field((#[trigger] cards[i]).json, Field::Id) != id_field(
            (#[trigger] cards[j]).json,
            Field::Id,
        )
}

/// How often one of the options is dealt: each as often as all of them were gone through, and the first of them once
/// more.
pub open spec fn share(options: Seq<CardView>, n: int, i: int) -> PrintingView {
    PrintingView {
        id: id_field(options[i].json, Field::Id)->Ok_0,
        card: options[i],
        count: n / options.len() as int + if i < n % options.len() as int {
            1int
        } else {
            0int
        },
    }
}

/// Where the options have different IDs they are dealt evenly: there are as many printings as cards, or as options
/// where those are fewer, in the order of the options, and of no printing are there two more than of another.
pub proof fn dealt_evenly(options: Seq<CardView>, n: int)
    requires
        options.len() > 0,
        n >= 0,
        ids_differ(options),
    ensures
        dealt(options, n) matches Ok(t) && {
            &&& t.len() == if n < options.len() {
                n
            } else {
                options.len() as int
            }
            &&& forall|i: int| 0 <= i < t.len() ==> #[trigger] t[i] == share(options, n, i)
            &&& forall|i: int, j: int|
                0 <= i < t.len() && 0 <= j < t.len() ==> (#[trigger] t[i]).count <= (#[trigger] t[j]).count + 1
        },
    decreases n,
{
    let len = options.len() as int;
    if n > 0 {
        dealt_evenly(options, n - 1);
        let m = n - 1;
        let t = dealt(options, m)->Ok_0;
        let k = m % len;
        assert(0 <= k < len && (m < len ==> k == m && m / len == 0)) by (nonlinear_arith)
            requires
                k == m % len,
                len > 0,
                m >= 0,
        ;
        assert((n % len == k + 1 && n / len == m / len) || (k + 1 == len && n % len == 0 && n / len == m / len + 1))
            by (nonlinear_arith)
            requires
                k == m % len,
                n == m + 1,
                len > 0,
                m >= 0,
        ;
        let card = options[k];
        let id = id_field(card.json, Field::Id)->Ok_0;
        place_of_bounds(t, id);
        let p = place_of(t, id);
        if p < t.len() && p != k {
            assert(t[p] == share(options, m, p));
            assert(id_field(options[p].json, Field::Id) != id_field(options[k].json, Field::Id));
        }
        if k < t.len() {
            assert(t[k] == share(options, m, k));
            assert(t[k].id == id);
        }
        let after = one_more(t, id, card);
        assert forall|i: int| 0 <= i < after.len() implies #[trigger] after[i] == share(options, n, i) by {
            if i < t.len() {
                assert(t[i] == share(options, m, i));
            }
        }
        assert forall|i: int, j: int|
            0 <= i < after.len() && 0 <= j < after.len() implies (#[trigger] after[i]).count <= (
        #[trigger] after[j]).count + 1 by {
            assert(after[i] == share(options, n, i));
            assert(after[j] == share(options, n, j));
        }
    }
}

/// The cards of one kind among some cards.
fn pick(all: &Vec<ScryfallCard>, full: bool, fun: bool) -> (r: Vec<ScryfallCard>)
    ensures
        cards(r@) == of_kind(cards(all@), full, fun),
{
    let ghost keep = |c: CardView| full_face(c.json) == full && funny(c.json) == fun;
    let mut picked: Vec<ScryfallCard> = Vec::new();
    let mut i: usize = 0;
    proof {
        reveal(Seq::filter);
        assert(cards(all@).take(0).filter(keep) =~= Seq::empty());
        assert(cards(picked@) =~= Seq::empty());
    }
    while i < all.len()
        invariant
            i <= all@.len(),
            keep == (|c: CardView| full_face(c.json) == full && funny(c.json) == fun),
            cards(picked@) == cards(all@).take(i as int).filter(keep),
        decreases all.len() - i,
    {
        let ghost before = picked@;
        let card = &all[i];
        let full_art = match card.raw_json().get("full_art") {
            Some(v) => match v.as_bool() {
                Some(b) => b,
                None => false,
            },
            None => false,
        };
        let for_fun = match card.raw_json().text_of("set_type") {
            Some(s) => text::same_text(s, "funny"),
            None => false,
        };
        proof {
            reveal(Seq::filter);
            assert(cards(all@).take(i + 1).drop_last() =~= cards(all@).take(i as int));
            assert(cards(all@).take(i + 1).last() == all@[i as int]@);
        }
        if full_art == full && for_fun == fun {
            picked.push(card.clone());
            assert(cards(picked@) =~= cards(before).push(all@[i as int]@));
        }
        i = i + 1;
    }
    assert(cards(all@).take(i as int) =~= cards(all@));
    assert(cards(picked@).len() == picked@.len());
    picked
}

/// The cards of those rows that can be read.
fn read_rows(rows: Vec<ScryfallCardRow>) -> (r: Vec<ScryfallCard>)
    ensures
        cards(r@) == readable(rows@),
{
    let mut rest = rows;
    let mut read: Vec<ScryfallCard> = Vec::new();
    assert(cards(read@) =~= Seq::empty());
    while rest.len() > 0
        invariant
            rest@.len() <= rows@.len(),
            rest@ == rows@.skip(rows@.len() - rest@.len()),
            cards(read@) == readable(rows@.take(rows@.len() - rest@.len())),
        decreases rest@.len(),
    {
        let ghost k = rows@.len() - rest@.len();
        let row = rest.remove(0);
        proof {
            assert(row == rows@[k]);
            assert(rest@ =~= rows@.skip(k + 1));
            assert(rows@.take(k + 1).drop_last() =~= rows@.take(k));
            assert(rows@.take(k + 1).last() == row);
        }
        let ghost before = read@;
        if let Ok(card) = ScryfallCard::from_row(row) {
            read.push(card);
            assert(cards(read@) =~= cards(before).push(card@));
        }
    }
    assert(rows@.take(rows@.len() as int) =~= rows@);
    read
}

/// The printings to choose from.
pub fn choose_options(all: &Vec<ScryfallCard>) -> (r: Vec<ScryfallCard>)
    ensures
        cards(r@) == options(cards(all@)),
{
    let best = pick(all, true, false);
    assert(cards(best@).len() == best@.len());
    if best.len() > 0 {
        return best;
    }
    let plain = pick(all, false, false);
    assert(cards(plain@).len() == plain@.len());
    if plain.len() > 0 {
        return plain;
    }
    let full_fun = pick(all, true, true);
    assert(cards(full_fun@).len() == full_fun@.len());
    if full_fun.len() > 0 {
        return full_fun;
    }
    pick(all, false, true)
}

/// The place of a printing.
fn find(t: &Vec<Printing>, id: ScryfallId) -> (r: usize)
    ensures
        r == place_of(printings(t@), id.0.bits),
{
    let ghost all = printings(t@);
    let mut i: usize = 0;
    assert(all.skip(0) =~= all);
    while i < t.len()
        invariant
            i <= t@.len(),
            all == printings(t@),
            place_of(all, id.0.bits) == i + place_of(all.skip(i as int), id.0.bits),
        decreases t.len() - i,
    {
        assert(all.skip(i as int)[0] == t@[i as int]@);
        if t[i].id == id {
            return i;
        }
        assert(all.skip(i as int).drop_first() =~= all.skip(i + 1));
        i = i + 1;
    }
    i
}

/// Takes cards from the options in turn, and counts them by printing.
pub fn deal(options: &Vec<ScryfallCard>, n: u8) -> (r: Result<Vec<Printing>, CardError>)
    requires
        options@.len() > 0,
    ensures
        match r {
            Ok(t) => dealt(cards(options@), n as int) == Ok::<Seq<PrintingView>, CardError>(printings(t@)),
            Err(e) => dealt(cards(options@), n as int) == Err::<Seq<PrintingView>, CardError>(e),
        },
{
    let ghost o = cards(options@);
    let mut t: Vec<Printing> = Vec::new();
    let mut i: u8 = 0;
    let mut next: usize = 0;
    assert(printings(t@) =~= Seq::empty());
    while i < n
        invariant
            i <= n,
            o == cards(options@),
            options@.len() > 0,
            next < options@.len(),
            next == i as int % (options@.len() as int),
            dealt(o, i as int) == Ok::<Seq<PrintingView>, CardError>(printings(t@)),
        decreases n - i,
    {
        let card = &options[next];
        let ghost before = t@;
        assert(o[next as int] == card@);
        proof {
            if dealt(o, i + 1) is Err {
                dealt_stays_wrong(o, i + 1, n as int);
            }
        }
        let id = match card.id() {
            Ok(id) => id,
            Err(e) => {
                return Err(e);
            },
        };
        let k: usize = find(&t, id);
        proof {
            dealt_counts(o, i as int);
        }
        if k < t.len() {
            proof {
                assert(printings(t@)[k as int].count == t@[k as int].count);
            }
            let p = Printing { id: t[k].id, card: t[k].card.clone(), count: t[k].count + 1 };
            t.set(k, p);
            assert(printings(t@) =~= one_more(printings(before), id.0.bits, card@));
        } else {
            t.push(Printing { id, card: card.clone(), count: 1 });
            proof {
                place_of_bounds(printings(before), id.0.bits);
            }
            assert(printings(t@) =~= one_more(printings(before), id.0.bits, card@));
        }
        proof {
            let len = options@.len() as int;
            let j = i as int;
            assert((j + 1) % len == if j % len + 1 == len {
                0
            } else {
                j % len + 1
            }) by (nonlinear_arith)
                requires
                    len > 0,
                    j >= 0,
            ;
        }
        next = if next == options.len() - 1 {
            0
        } else {
            next + 1
        };
        i = i + 1;
    }
    Ok(t)
}

/// An option without an ID stays a problem for every greater number of cards.
proof fn dealt_stays_wrong(options: Seq<CardView>, m: int, n: int)
    requires
        dealt(options, m) is Err,
        m <= n,
    ensures
        dealt(options, n) == dealt(options, m),
    decreases n - m,
{
    if m < n {
        dealt_stays_wrong(options, m, n - 1);
    }
}

/// The printings for a number of copies of a card, from the rows that the database has of it.
pub fn expand_oracle_id(oracle_id: ScryfallOracleId, rows: Vec<ScryfallCardRow>, oracle_count: u8) -> (r: Result<
    Vec<Printing>,
    CardError,
>)
    ensures
        match r {
            Ok(t) => {
                &&& expansion(oracle_id, rows@, oracle_count as int) == Ok::<Seq<PrintingView>, CardError>(
                    printings(t@),
                )
                &&& total(printings(t@)) == oracle_count
            },
            Err(e) => expansion(oracle_id, rows@, oracle_count as int) == Err::<Seq<PrintingView>, CardError>(e),
        },
{
    let all = read_rows(rows);
    let options = choose_options(&all);
    assert(cards(options@).len() == options@.len());
    if options.len() == 0 {
        return Err(CardError::NoPrintings(oracle_id));
    }
    proof {
        dealt_counts(cards(options@), oracle_count as int);
    }
    deal(&options, oracle_count)
}

/// A card's picture fills its whole face exactly where "full_art" is true, and it was printed for fun exactly
/// where "set_type" is "funny".
pub proof fn kinds_of_printings(card: JsonView)
    ensures
        full_face(card) <==> card.get("full_art"@) == Some(JsonView::Bool(true)),
        funny(card) <==> card.get("set_type"@) == Some(JsonView::Text("funny"@)),
{
}

proof fn of_kind_keeps(all: Seq<CardView>, full: bool, fun: bool, c: CardView)
    ensures
        of_kind(all, full, fun).contains(c) <==> all.contains(c) && full_face(c.json) == full && funny(c.json)
            == fun,
        of_kind(all, full, fun).contains(c) ==> of_kind(all, full, fun).to_multiset().count(c)
            == all.to_multiset().count(c),
    decreases all.len(),
{
    broadcast use vstd::seq_lib::group_to_multiset_ensures;

    reveal(Seq::filter);
    let kept = of_kind(all, full, fun);
    if all.len() > 0 {
        let before = all.drop_last();
        let last = all.last();
        of_kind_keeps(before, full, fun, c);
        assert(all =~= before.push(last));
        let b = of_kind(before, full, fun);
        let fits = full_face(last.json) == full && funny(last.json) == fun;
        assert(kept == if fits {
            b.push(last)
        } else {
            b
        });
        if all.contains(c) {
            let i = choose|i: int| 0 <= i < all.len() && all[i] == c;
            if i < before.len() {
                assert(before[i] == c);
            }
        }
        if before.contains(c) {
            let i = choose|i: int| 0 <= i < before.len() && before[i] == c;
            assert(all[i] == c);
        }
        assert(all[before.len() as int] == last);
        if fits {
            assert(kept[b.len() as int] == last);
            if b.contains(c) {
                let i = choose|i: int| 0 <= i < b.len() && b[i] == c;
                assert(kept[i] == c);
            }
            if kept.contains(c) {
                let i = choose|i: int| 0 <= i < kept.len() && kept[i] == c;
                if i < b.len() {
                    assert(b[i] == c);
                }
            }
        }
        if c == last && !before.contains(c) {
            assert(before.to_multiset().count(c) == 0);
            assert(b.to_multiset().count(c) == 0);
        }
    }
}

/// The best printings are chosen from, all of them and as often as they are there. No printing for fun is
/// among them where there is another, and no printing without a full face where there is one with it that is
/// not worse in the first way.
pub proof fn best_printings_are_chosen(all: Seq<CardView>, c: CardView, d: CardView)
    requires
        all.contains(c),
        options(all).contains(d),
    ensures
        ({
            let funny_c = c.json.get("set_type"@) == Some(JsonView::Text("funny"@));
            let funny_d = d.json.get("set_type"@) == Some(JsonView::Text("funny"@));
            let full_c = c.json.get("full_art"@) == Some(JsonView::Bool(true));
            let full_d = d.json.get("full_art"@) == Some(JsonView::Bool(true));
            &&& all.contains(d)
            &&& !funny_c ==> !funny_d
            &&& funny_c == funny_d && full_c ==> full_d
            &&& funny_c == funny_d && full_c == full_d ==> options(all).contains(c)
            &&& options(all).to_multiset().count(d) == all.to_multiset().count(d)
        }),
{
    of_kind_keeps(all, true, false, c);
    of_kind_keeps(all, false, false, c);
    of_kind_keeps(all, true, true, c);
    of_kind_keeps(all, false, true, c);
    of_kind_keeps(all, true, false, d);
    of_kind_keeps(all, false, false, d);
    of_kind_keeps(all, true, true, d);
    of_kind_keeps(all, false, true, d);
}

/// Where there is a printing, there is one to choose.
pub proof fn some_printing_is_chosen(all: Seq<CardView>)
    ensures
        options(all).len() > 0 <==> all.len() > 0,
{
    if all.len() > 0 {
        let c = all[0];
        assert(all.contains(c));
        of_kind_keeps(all, full_face(c.json), funny(c.json), c);
    }
    if options(all).len() > 0 {
        let d = options(all)[0];
        assert(options(all).contains(d));
        of_kind_keeps(all, true, false, d);
        of_kind_keeps(all, false, false, d);
        of_kind_keeps(all, true, true, d);
        of_kind_keeps(all, false, true, d);
    }
}

/// Every row that can be read gives its card, in the order of the rows, and the other rows give none.
pub proof fn every_row_is_read(a: Seq<ScryfallCardRow>, row: ScryfallCardRow, b: Seq<ScryfallCardRow>)
    ensures
        readable(a.push(row) + b) == readable(a) + (match row_card(row) {
            Some(c) => seq![c],
            None => Seq::empty(),
        }) + readable(b),
        readable(Seq::empty()) == Seq::<CardView>::empty(),
    decreases b.len(),
{
    let all = a.push(row) + b;
    if b.len() == 0 {
        assert(all.drop_last() =~= a);
        assert(all.last() == row);
    } else {
        every_row_is_read(a, row, b.drop_last());
        assert(all.drop_last() =~= a.push(row) + b.drop_last());
        assert(all.last() == b.last());
    }
    assert(readable(all) =~= readable(a) + (match row_card(row) {
        Some(c) => seq![c],
        None => Seq::empty(),
    }) + readable(b));
}

/// Where no row can be read there are no printings, and nothing else is a problem of the rows: with a printing
/// whose ID can be read in each of them, any number of copies has its printings.
pub proof fn printings_are_found(oracle_id: ScryfallOracleId, rows: Seq<ScryfallCardRow>, n: int)
    requires
        n >= 0,
    ensures
        readable(rows).len() == 0 <==> expansion(oracle_id, rows, n) == Err::<Seq<PrintingView>, CardError>(
            CardError::NoPrintings(oracle_id),
        ),
        readable(rows).len() > 0 && (forall|i: int|
            0 <= i < readable(rows).len() ==> id_field((#[trigger] readable(rows)[i]).json, Field::Id) is Ok)
            ==> expansion(oracle_id, rows, n) is Ok,
{
    let all = readable(rows);
    let o = options(all);
    some_printing_is_chosen(all);
    if o.len() > 0 {
        deal_fails_for_ids(o, n);
        if forall|i: int| 0 <= i < all.len() ==> id_field((#[trigger] all[i]).json, Field::Id) is Ok {
            assert forall|i: int| 0 <= i < o.len() implies id_field((#[trigger] o[i]).json, Field::Id) is Ok by {
                assert(o.contains(o[i]));
                best_printings_are_chosen(all, all[0], o[i]);
                let k = choose|k: int| 0 <= k < all.len() && all[k] == o[i];
                assert(id_field(all[k].json, Field::Id) is Ok);
            }
        }
    }
}

proof fn deal_fails_for_ids(o: Seq<CardView>, n: int)
    requires
        n >= 0,
        o.len() > 0,
    ensures
        match dealt(o, n) {
            Ok(_) => true,
            Err(e) => !(e is NoPrintings) && exists|i: int|
                0 <= i < o.len() && id_field((#[trigger] o[i]).json, Field::Id) is Err,
        },
    decreases n,
{
    if n > 0 {
        deal_fails_for_ids(o, n - 1);
        let k = (n - 1) % (o.len() as int);
        assert(0 <= k < o.len()) by (nonlinear_arith)
            requires
                k == (n - 1) % (o.len() as int),
                o.len() > 0,
        ;
        assert(o[k] == o[k]);
    }
}

/// The number of cards is the sum of the numbers of the printings.
pub proof fn total_adds_up(t: Seq<PrintingView>, p: PrintingView)
    ensures
        total(Seq::<PrintingView>::empty()) == 0,
        total(t.push(p)) == total(t) + p.count,
{
    assert(t.push(p).drop_last() =~= t);
}

/// Where the options have different IDs, the cards are taken from them in their order: the first options first, and
/// none has fewer copies than one behind it, or two more.
pub proof fn first_options_come_first(options: Seq<CardView>, n: int, i: int)
    requires
        options.len() > 0,
        n >= 0,
        ids_differ(options),
        0 <= i < n,
        i < options.len(),
    ensures
        dealt(options, n) matches Ok(t) && {
            &&& i < t.len()
            &&& t[i].card == options[i]
            &&& id_field(options[i].json, Field::Id) == Ok::<u128, CardError>(t[i].id)
            &&& forall|j: int| i <= j < t.len() ==> t[i].count - 1 <= (#[trigger] t[j]).count <= t[i].count
        },
{
    dealt_evenly(options, n);
    let t = dealt(options, n)->Ok_0;
    assert(t[i] == share(options, n, i));
    assert forall|j: int| i <= j < t.len() implies t[i].count - 1 <= (#[trigger] t[j]).count <= t[i].count by {
        assert(t[j] == share(options, n, j));
    }
}

/// Printings stand for their IDs, their cards and their numbers, in their order.
pub proof fn printings_stand_for_themselves(v: Seq<Printing>, i: int)
    requires
        0 <= i < v.len(),
    ensures
        printings(v).len() == v.len(),
        printings(v)[i].id == v[i].id.0.bits,
        printings(v)[i].card == v[i].card@,
        printings(v)[i].count == v[i].count,
{
}

} // verus!
