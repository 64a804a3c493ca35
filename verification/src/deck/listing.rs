//! The decks of a user.
use crate::deck::cards;
use crate::sort;
use crate::text;
use crate::types::deck::{Deck, DeckId};
use crate::urls;
use crate::urls::{Url, UrlError};
use vstd::prelude::*;

verus! {

/// A deck in the database, with the letters of its colors.
#[derive(Debug)]
pub struct UserDeckRow {
    pub id: DeckId,
    pub title: String,
    pub url: String,
    pub rendered: bool,
    pub color_identity: Vec<String>,
}

/// Whether a deck is the one in a row.
pub open spec fn is_row_deck(d: Deck, row: UserDeckRow) -> bool {
    &&& d.id == row.id
    &&& d.title == row.title
    &&& urls::parsed_url(row.url@) == Some(d.url@)
    &&& d.rendered == row.rendered
    &&& d.color_identity == cards::letters_identity(text::texts(row.color_identity@))
}

/// Whether every row has a URL.
pub open spec fn all_have_urls(rows: Seq<UserDeckRow>) -> bool {
    forall|i: int| 0 <= i < rows.len() ==> urls::parsed_url((#[trigger] rows[i]).url@) is Some
}

/// The titles of some decks.
pub open spec fn titles(decks: Seq<Deck>) -> Seq<Seq<char>> {
    decks.map_values(|d: Deck| d.title@)
}

/// The URLs of some decks.
pub open spec fn deck_urls(decks: Seq<Deck>) -> Seq<Seq<char>> {
    decks.map_values(|d: Deck| d.url@)
}

/// Decks in the order of their URLs.
pub open spec fn by_url(decks: Seq<Deck>) -> Seq<Deck> {
    sort::items_of(sort::sort_by_key(sort::keyed(deck_urls(decks), decks)))
}

/// Decks in the order of their titles, those with the same title in the order of their URLs.
pub open spec fn by_title_and_url(decks: Seq<Deck>) -> Seq<Deck> {
    let d = by_url(decks);
    sort::items_of(sort::sort_by_key(sort::keyed(titles(d), d)))
}

fn read_row(row: UserDeckRow) -> (r: Result<Deck, UrlError>)
    ensures
        match r {
            Ok(d) => is_row_deck(d, row),
            Err(_) => urls::parsed_url(row.url@) is None,
        },
{
    let color_identity = cards::color_identity(&row.color_identity);
    match Url::parse(row.url.as_str()) {
        Ok(url) => Ok(Deck { id: row.id, title: row.title, url, rendered: row.rendered, color_identity }),
        Err(e) => Err(e),
    }
}

/// The decks in some rows, in the order of the rows.
fn read_rows(rows: Vec<UserDeckRow>) -> (r: Result<Vec<Deck>, UrlError>)
    ensures
        match r {
            Ok(v) => v@.len() == rows@.len() && forall|i: int|
                0 <= i < rows@.len() ==> is_row_deck(#[trigger] v@[i], rows@[i]),
            Err(_) => !all_have_urls(rows@),
        },
{
    let n: usize = rows.len();
    let mut rest = rows;
    let mut decks: Vec<Deck> = Vec::new();
    let mut i: usize = 0;
    while i < n
        invariant
            n == rows@.len(),
            i <= n,
            rest@ == rows@.skip(i as int),
            decks@.len() == i,
            forall|j: int| 0 <= j < i ==> is_row_deck(#[trigger] decks@[j], rows@[j]),
        decreases n - i,
    {
        let row = rest.remove(0);
        assert(row == rows@[i as int]);
        assert(rest@ =~= rows@.skip(i + 1));
        match read_row(row) {
            Ok(d) => decks.push(d),
            Err(e) => {
                return Err(e);
            },
        }
        i = i + 1;
    }
    Ok(decks)
}

fn sort_decks(decks: Vec<Deck>) -> (r: Vec<Deck>)
    ensures
        r@ == by_title_and_url(decks@),
{
    let mut keys: Vec<String> = Vec::new();
    let mut i: usize = 0;
    assert(text::texts(keys@) =~= deck_urls(decks@).take(0));
    while i < decks.len()
        invariant
            i <= decks@.len(),
            keys@.len() == i,
            text::texts(keys@) == deck_urls(decks@).take(i as int),
        decreases decks.len() - i,
    {
        let ghost before = keys@;
        keys.push(decks[i].url.as_str().to_string());
        assert(text::texts(keys@) =~= text::texts(before).push(decks@[i as int].url@));
        assert(text::texts(keys@) =~= deck_urls(decks@).take(i + 1));
        i = i + 1;
    }
    assert(deck_urls(decks@).take(i as int) =~= deck_urls(decks@));
    let sorted = sort::sort_with_keys(keys, decks);
    let mut keys: Vec<String> = Vec::new();
    let mut i: usize = 0;
    assert(text::texts(keys@) =~= titles(sorted@).take(0));
    while i < sorted.len()
        invariant
            i <= sorted@.len(),
            keys@.len() == i,
            text::texts(keys@) == titles(sorted@).take(i as int),
        decreases sorted.len() - i,
    {
        let ghost before = keys@;
        keys.push(sorted[i].title.clone());
        assert(text::texts(keys@) =~= text::texts(before).push(sorted@[i as int].title@));
        assert(text::texts(keys@) =~= titles(sorted@).take(i + 1));
        i = i + 1;
    }
    assert(titles(sorted@).take(i as int) =~= titles(sorted@));
    sort::sort_with_keys(keys, sorted)
}

/// The decks of a user, in the order of their titles, those with the same title in the order of their URLs.
/// There are none where one of them has no URL.
pub fn get_decks_for_user(rows: Vec<UserDeckRow>) -> (r: Result<Vec<Deck>, UrlError>)
    ensures
        match r {
            Ok(v) => exists|decks: Seq<Deck>|
                decks.len() == rows@.len() && (forall|i: int|
                    0 <= i < rows@.len() ==> is_row_deck(#[trigger] decks[i], rows@[i])) && v@
                    == #[trigger] by_title_and_url(decks),
            Err(_) => !all_have_urls(rows@),
        },
{
    match read_rows(rows) {
        Ok(decks) => {
            let ghost read = decks@;
            let r = sort_decks(decks);
            assert(r@ == by_title_and_url(read));
            Ok(r)
        },
        Err(e) => Err(e),
    }
}

/// Whether one deck may stand before another: its title comes first, or they have the same title and its
/// URL comes first.
pub open spec fn may_precede(a: Deck, b: Deck) -> bool {
    text::text_le(a.title@, b.title@) && (a.title@ == b.title@ ==> text::text_le(a.url@, b.url@))
}

proof fn sorted_by(keys: Seq<Seq<char>>, decks: Seq<Deck>, key: spec_fn(Deck) -> Seq<char>)
    requires
        keys.len() == decks.len(),
        forall|i: int| 0 <= i < keys.len() ==> #[trigger] keys[i] == key(decks[i]),
    ensures
        ({
            let s = sort::sort_by_key(sort::keyed(keys, decks));
            let r = sort::items_of(s);
            &&& s.len() == decks.len()
            &&& r.len() == decks.len()
            &&& forall|i: int| 0 <= i < s.len() ==> (#[trigger] s[i]).0 == key(s[i].1)
            &&& forall|i: int, j: int|
                0 <= i <= j < r.len() ==> text::text_le(key(#[trigger] r[i]), key(#[trigger] r[j]))
            &&& r.to_multiset() == decks.to_multiset()
        }),
{
    let k = sort::keyed(keys, decks);
    let s = sort::sort_by_key(k);
    let r = sort::items_of(s);
    let p = |e: (Seq<char>, Deck)| e.0 == key(e.1);
    assert forall|i: int| 0 <= i < k.len() implies p(#[trigger] k[i]) by {
        assert(keys[i] == key(decks[i]));
    }
    sort::sort_by_key_keeps(k, p);
    sort::sort_by_key_orders(k);
    sort::sort_by_key_permutes(k);
    s.to_multiset_ensures();
    k.to_multiset_ensures();
    assert forall|i: int| 0 <= i < s.len() implies (#[trigger] s[i]).0 == key(s[i].1) by {
        assert(p(s[i]));
    }
    assert forall|i: int, j: int| 0 <= i <= j < r.len() implies text::text_le(
        key(#[trigger] r[i]),
        key(#[trigger] r[j]),
    ) by {
        assert(text::text_le(s[i].0, s[j].0));
    }
    items_permute(s, k);
    assert(sort::items_of(k) =~= decks);
}

/// Items that are the same with their keys, but for the order, are the same without them.
proof fn items_permute<T>(a: Seq<(Seq<char>, T)>, b: Seq<(Seq<char>, T)>)
    requires
        a.to_multiset() == b.to_multiset(),
    ensures
        sort::items_of(a).to_multiset() == sort::items_of(b).to_multiset(),
    decreases a.len(),
{
    broadcast use vstd::seq_lib::group_to_multiset_ensures;

    a.to_multiset_ensures();
    b.to_multiset_ensures();
    if a.len() == 0 {
        assert(sort::items_of(a) =~= sort::items_of(b));
    } else {
        let e = a.last();
        assert(a.contains(e)) by {
            assert(a[a.len() - 1] == e);
        }
        assert(a.to_multiset().count(e) > 0);
        assert(b.to_multiset().count(e) > 0);
        assert(b.contains(e));
        let k = choose|k: int| 0 <= k < b.len() && b[k] == e;
        let a1 = a.drop_last();
        let b1 = b.remove(k);
        assert(a =~= a1.push(e));
        assert(a.to_multiset() =~= a1.to_multiset().insert(e));
        assert(b =~= b1.insert(k, e));
        assert(b1.to_multiset() =~= b.to_multiset().remove(e));
        assert(a1.to_multiset() =~= b1.to_multiset());
        items_permute(a1, b1);
        assert(sort::items_of(a) =~= sort::items_of(a1).push(e.1));
        assert(sort::items_of(b) =~= sort::items_of(b1).insert(k, e.1));
        assert(sort::items_of(b1) =~= sort::items_of(b).remove(k));
        let ib = sort::items_of(b);
        ib.to_multiset_ensures();
        assert(ib[k] == e.1);
        assert(ib.remove(k).to_multiset() =~= ib.to_multiset().remove(e.1));
        assert(ib.to_multiset().count(e.1) > 0) by {
            assert(ib.contains(e.1));
        }
        assert(ib.to_multiset() =~= ib.remove(k).to_multiset().insert(e.1));
    }
}

/// The list of a user's decks is in order, and holds each deck once.
pub proof fn listed_in_order(decks: Seq<Deck>)
    ensures
        ({
            let r = by_title_and_url(decks);
            &&& forall|i: int, j: int|
                0 <= i < j < r.len() ==> may_precede(#[trigger] r[i], #[trigger] r[j])
            &&& r.to_multiset() == decks.to_multiset()
        }),
{
    let u = by_url(decks);
    sorted_by(deck_urls(decks), decks, |d: Deck| d.url@);
    sorted_by(titles(u), u, |d: Deck| d.title@);
    let k = sort::keyed(titles(u), u);
    let rel = |a: Deck, b: Deck| text::text_le(a.url@, b.url@);
    assert(sort::ranked(k, rel)) by {
        assert forall|i: int, j: int| 0 <= i < j < k.len() && k[i].0 == k[j].0 implies rel(
            (#[trigger] k[i]).1,
            (#[trigger] k[j]).1,
        ) by {
            assert(text::text_le(u[i].url@, u[j].url@));
        }
    }
    sort::sort_by_key_ranks(k, rel);
    let s = sort::sort_by_key(k);
    let r = by_title_and_url(decks);
    assert forall|i: int, j: int| 0 <= i < j < r.len() implies may_precede(#[trigger] r[i], #[trigger] r[j]) by {
        assert(text::text_le(r[i].title@, r[j].title@));
        if r[i].title@ == r[j].title@ {
            assert(s[i].0 == s[j].0);
            assert(rel(s[i].1, s[j].1));
        }
    }
}

/// A user's decks are listed by their titles, those with the same title by their URLs, and each as it is.
pub proof fn listed_by_title_and_url(decks: Seq<Deck>, i: int, j: int)
    requires
        0 <= i < j < by_title_and_url(decks).len(),
    ensures
        ({
            let a = by_title_and_url(decks)[i];
            let b = by_title_and_url(decks)[j];
            &&& text::text_le(a.title@, b.title@)
            &&& a.title@ == b.title@ ==> text::text_le(a.url@, b.url@)
            &&& decks.contains(a)
            &&& by_title_and_url(decks).len() == decks.len()
        }),
{
    broadcast use vstd::seq_lib::group_to_multiset_ensures;

    listed_in_order(decks);
    let r = by_title_and_url(decks);
    let a = r[i];
    assert(may_precede(r[i], r[j]));
    assert(r.contains(a));
    assert(r.to_multiset().count(a) > 0);
    assert(decks.to_multiset().count(a) > 0);
    r.to_multiset_ensures();
    decks.to_multiset_ensures();
}

/// A deck of the list has the ID, the title and the state of its row, its URL, and the colors of its letters.
pub proof fn row_deck_says_what_its_row_does(d: Deck, row: UserDeckRow)
    requires
        is_row_deck(d, row),
    ensures
        d.id == row.id,
        d.title@ == row.title@,
        d.rendered == row.rendered,
        urls::parsed_url(row.url@) == Some(d.url@),
        d.color_identity.black <==> text::texts(row.color_identity@).contains("B"@),
        d.color_identity.blue <==> text::texts(row.color_identity@).contains("U"@),
        d.color_identity.green <==> text::texts(row.color_identity@).contains("G"@),
        d.color_identity.red <==> text::texts(row.color_identity@).contains("R"@),
        d.color_identity.white <==> text::texts(row.color_identity@).contains("W"@),
{
}

/// The list of a user's decks is refused only where one of them has no URL.
pub proof fn each_deck_needs_a_url(rows: Seq<UserDeckRow>)
    ensures
        all_have_urls(rows) <==> forall|i: int|
            0 <= i < rows.len() ==> urls::parsed_url((#[trigger] rows[i]).url@) is Some,
{
}

} // verus!
