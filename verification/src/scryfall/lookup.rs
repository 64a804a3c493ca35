//! What the database says of cards.
use crate::scryfall::api::{ImageFace, ImageFormat, ImageSearch, ImageStep};
use crate::scryfall::{cards, id_field, row_card, CardError, CardView, Field, ScryfallCard, ScryfallCardRow, ScryfallId};
use crate::text;
use vstd::prelude::*;

verus! {

/// The card with an ID, from the row that the database has of it.
pub fn card_by_id(id: ScryfallId, row: Option<ScryfallCardRow>) -> (r: Result<ScryfallCard, CardError>)
    ensures
        match row {
            None => r == Err::<ScryfallCard, CardError>(CardError::Unknown(id)),
            Some(row) => match row_card(row) {
                Some(c) => r is Ok && r->Ok_0@ == c,
                None => r == Err::<ScryfallCard, CardError>(CardError::BadJson),
            },
        },
{
    match row {
        None => Err(CardError::Unknown(id)),
        Some(row) => ScryfallCard::from_row(row),
    }
}

/// The cards of some rows. There are none where one of the rows cannot be read.
pub open spec fn all_cards(rows: Seq<ScryfallCardRow>) -> Option<Seq<CardView>>
    decreases rows.len(),
{
    if rows.len() == 0 {
        Some(Seq::empty())
    } else {
        match (all_cards(rows.drop_last()), row_card(rows.last())) {
            (Some(before), Some(c)) => Some(before.push(c)),
            (_, _) => None,
        }
    }
}

proof fn all_cards_stay_wrong(rows: Seq<ScryfallCardRow>, n: int)
    requires
        0 <= n <= rows.len(),
        all_cards(rows.take(n)) is None,
    ensures
        all_cards(rows) is None,
    decreases rows.len() - n,
{
    if n == rows.len() {
        assert(rows.take(n) =~= rows);
    } else {
        assert(rows.take(n + 1).drop_last() =~= rows.take(n));
        all_cards_stay_wrong(rows, n + 1);
    }
}

/// The full-faced printings of a basic land, from the rows that the database has of them.
pub fn full_faced_lands(rows: Vec<ScryfallCardRow>) -> (r: Result<Vec<ScryfallCard>, CardError>)
    ensures
        match r {
            Ok(v) => all_cards(rows@) == Some(cards(v@)),
            Err(e) => all_cards(rows@) is None && e == CardError::BadJson,
        },
{
    let mut rest = rows;
    let mut read: Vec<ScryfallCard> = Vec::new();
    assert(rows@.take(0) =~= Seq::empty());
    assert(cards(read@) =~= Seq::empty());
    while rest.len() > 0
        invariant
            rest@.len() <= rows@.len(),
            rest@ == rows@.skip(rows@.len() - rest@.len()),
            all_cards(rows@.take(rows@.len() - rest@.len())) == Some(cards(read@)),
        decreases rest@.len(),
    {
        let ghost k = rows@.len() - rest@.len();
        let row = rest.remove(0);
        proof {
            assert(row == rows@[k]);
            assert(rest@ =~= rows@.skip(k + 1));
            assert(rows@.take(k + 1).drop_last() =~= rows@.take(k));
            assert(rows@.take(k + 1).last() == row);
        }
        let ghost before = read@;
        match ScryfallCard::from_row(row) {
            Ok(card) => {
                read.push(card);
                assert(cards(read@) =~= cards(before).push(card@));
            },
            Err(e) => {
                proof {
                    all_cards_stay_wrong(rows@, k + 1);
                }
                return Err(e);
            },
        }
    }
    assert(rows@.take(rows@.len() as int) =~= rows@);
    Ok(read)
}

/// Some texts, each where it stands first.
pub open spec fn first_of_each(s: Seq<Seq<char>>) -> Seq<Seq<char>>
    decreases s.len(),
{
    if s.len() == 0 {
        Seq::empty()
    } else {
        let before = first_of_each(s.drop_last());
        if before.contains(s.last()) {
            before
        } else {
            before.push(s.last())
        }
    }
}

/// The colors of a deck, each once. Every color is one letter.
pub fn deck_color_identity(colors: Vec<String>) -> (r: Vec<String>)
    requires
        forall|i: int| 0 <= i < colors@.len() ==> (#[trigger] colors@[i])@.len() == 1 && (colors@[i]@[0] as u32)
            < 128,
    ensures
        text::texts(r@) == first_of_each(text::texts(colors@)),
{
    let ghost all = text::texts(colors@);
    let mut rest = colors;
    let mut found: Vec<String> = Vec::new();
    assert(all.take(0) =~= Seq::empty());
    assert(text::texts(found@) =~= Seq::empty());
    while rest.len() > 0
        invariant
            all == text::texts(colors@),
            rest@.len() <= colors@.len(),
            rest@ == colors@.skip(colors@.len() - rest@.len()),
            text::texts(found@) == first_of_each(all.take(colors@.len() - rest@.len())),
        decreases rest@.len(),
    {
        let ghost k = colors@.len() - rest@.len();
        let ghost before = text::texts(found@);
        let color = rest.remove(0);
        proof {
            assert(color == colors@[k]);
            assert(all[k] == color@);
            assert(rest@ =~= colors@.skip(k + 1));
            assert(all.take(k + 1).drop_last() =~= all.take(k));
        }
        let mut known = false;
        let mut i: usize = 0;
        while i < found.len()
            invariant
                i <= found@.len(),
                before == text::texts(found@),
                known == exists|j: int| 0 <= j < i && #[trigger] before[j] == color@,
            decreases found.len() - i,
        {
            assert(before[i as int] == found@[i as int]@);
            if text::same_text(found[i].as_str(), color.as_str()) {
                known = true;
            }
            i = i + 1;
        }
        assert(known == before.contains(color@));
        if !known {
            found.push(color);
            assert(text::texts(found@) =~= before.push(color@));
        }
    }
    assert(all.take(colors@.len() as int) =~= all);
    found
}

impl ScryfallCard {
    /// Begins to search for the picture of the card's front.
    pub fn ensure_image(&self) -> (r: Result<ImageSearch, CardError>)
        ensures
            match id_field(self.json@, Field::Id) {
                Ok(id) => {
                    &&& r is Ok
                    &&& r->Ok_0.id.0.bits == id
                    &&& r->Ok_0.face == ImageFace::Front
                    &&& r->Ok_0.wanted == ImageFormat::PNG
                    &&& r->Ok_0.step == ImageStep::OpenKept(ImageFormat::PNG)
                },
                Err(e) => r == Err::<ImageSearch, CardError>(e),
            },
    {
        match self.id() {
            Ok(id) => Ok(ImageSearch::new(id, ImageFormat::PNG, ImageFace::Front)),
            Err(e) => Err(e),
        }
    }
}

/// Where every row can be read each gives its card, in the order of the rows; otherwise there are none.
pub proof fn every_row_gives_a_card(rows: Seq<ScryfallCardRow>)
    ensures
        match all_cards(rows) {
            Some(found) => found.len() == rows.len() && forall|i: int|
                0 <= i < rows.len() ==> row_card(#[trigger] rows[i]) == Some(found[i]),
            None => exists|i: int| 0 <= i < rows.len() && row_card(#[trigger] rows[i]) is None,
        },
    decreases rows.len(),
{
    if rows.len() > 0 {
        let before = rows.drop_last();
        let n = rows.len() - 1;
        every_row_gives_a_card(before);
        match all_cards(before) {
            Some(found) => {
                if row_card(rows[n]) is Some {
                    let all = all_cards(rows)->0;
                    assert forall|i: int| 0 <= i < rows.len() implies row_card(#[trigger] rows[i]) == Some(all[i]) by {
                        if i < n {
                            assert(before[i] == rows[i]);
                        }
                    }
                }
            },
            None => {
                let i = choose|i: int| 0 <= i < before.len() && row_card(#[trigger] before[i]) is None;
                assert(rows[i] == before[i]);
            },
        }
    }
}

/// Each color of a deck is there once, and no other is; more colors come behind those that are there.
pub proof fn each_color_is_there_once(a: Seq<Seq<char>>, b: Seq<Seq<char>>, c: Seq<char>)
    ensures
        first_of_each(a).no_duplicates(),
        first_of_each(a).contains(c) <==> a.contains(c),
        first_of_each(a).len() <= first_of_each(a + b).len(),
        first_of_each(a + b).take(first_of_each(a).len() as int) == first_of_each(a),
    decreases a.len() + b.len(),
{
    if b.len() > 0 {
        let t = b.drop_last();
        each_color_is_there_once(a, t, c);
        assert((a + b).drop_last() =~= a + t);
        assert(first_of_each(a + b).take(first_of_each(a).len() as int) =~= first_of_each(a));
    } else {
        assert(a + b =~= a);
        assert(first_of_each(a).take(first_of_each(a).len() as int) =~= first_of_each(a));
        if a.len() > 0 {
            let t = a.drop_last();
            let last = a.last();
            each_color_is_there_once(t, Seq::empty(), c);
            each_color_is_there_once(t, Seq::empty(), last);
            let before = first_of_each(t);
            let all = first_of_each(a);
            assert(a[a.len() - 1] == last);
            if t.contains(c) {
                let i = choose|i: int| 0 <= i < t.len() && t[i] == c;
                assert(a[i] == c);
            }
            if a.contains(c) && c != last {
                let i = choose|i: int| 0 <= i < a.len() && a[i] == c;
                assert(t[i] == c);
            }
            if !before.contains(last) {
                assert(all[before.len() as int] == last);
                if before.contains(c) {
                    let i = choose|i: int| 0 <= i < before.len() && before[i] == c;
                    assert(all[i] == c);
                }
                if all.contains(c) && c != last {
                    let i = choose|i: int| 0 <= i < all.len() && all[i] == c;
                    assert(before[i] == c);
                }
            }
        }
    }
}

} // verus!
