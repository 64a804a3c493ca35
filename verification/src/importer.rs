//! Bringing over the decks of the old system, and tidying up their URLs.
use crate::decimal;
use crate::deck::loaders;
use crate::deck::loaders::find_loader;
use crate::types::deck::DeckId;
use crate::types::user::UserId;
use crate::urls;
use crate::urls::{Url, UrlError};
use vstd::prelude::*;

verus! {

/// Whether the decks of a user are to be loaded.
pub fn is_wanted(only_user: Option<UserId>, user: UserId) -> (r: bool)
    ensures
        r == (only_user is None || only_user == Some(user)),
{
    match only_user {
        None => true,
        Some(only) => only.0 == user.0,
    }
}

/// A user and the URL of one of their decks.
#[derive(Debug)]
pub struct DeckToLoad {
    pub user_id: UserId,
    pub url: Url,
}

/// Whether a deck is the one in a row: a user's ID as the database has it, and a URL.
pub open spec fn is_row_deck(d: DeckToLoad, row: (i64, String)) -> bool {
    d.user_id == UserId(crate::types::user::as_unsigned(row.0)) && urls::parsed_url(row.1@) == Some(d.url@)
}

/// The decks to load. There are none where one of the URLs is none.
pub fn decks_to_load(rows: &Vec<(i64, String)>) -> (r: Result<Vec<DeckToLoad>, UrlError>)
    ensures
        match r {
            Ok(v) => v@.len() == rows@.len() && forall|i: int|
                0 <= i < rows@.len() ==> is_row_deck(#[trigger] v@[i], rows@[i]),
            Err(_) => exists|i: int| 0 <= i < rows@.len() && urls::parsed_url((#[trigger] rows@[i]).1@) is None,
        },
{
    let mut decks: Vec<DeckToLoad> = Vec::new();
    let mut i: usize = 0;
    while i < rows.len()
        invariant
            i <= rows@.len(),
            decks@.len() == i,
            forall|j: int| 0 <= j < i ==> is_row_deck(#[trigger] decks@[j], rows@[j]),
        decreases rows.len() - i,
    {
        match Url::parse(rows[i].1.as_str()) {
            Ok(url) => decks.push(DeckToLoad { user_id: UserId::from_queryable(rows[i].0), url }),
            Err(e) => {
                assert(urls::parsed_url(rows@[i as int].1@) is None);
                return Err(e);
            },
        }
        i = i + 1;
    }
    Ok(decks)
}

/// A deck as the database has it.
#[derive(Debug)]
pub struct DeckRow {
    pub id: DeckId,
    pub user_id: i64,
    pub title: String,
    pub url: String,
}

/// A deck that is to be tidied up.
#[derive(Debug)]
pub struct DeckToCheck {
    pub id: DeckId,
    pub user_id: UserId,
    pub title: String,
    pub url: Url,
}

/// What a deck that is to be tidied up stands for.
pub struct CheckView {
    pub id: DeckId,
    pub user_id: UserId,
    pub title: Seq<char>,
    pub url: Seq<char>,
}

impl View for DeckToCheck {
    type V = CheckView;

    open spec fn view(&self) -> CheckView {
        CheckView { id: self.id, user_id: self.user_id, title: self.title@, url: self.url@ }
    }
}

/// The deck in a row, where its URL is one.
pub open spec fn row_check(row: DeckRow) -> Option<CheckView> {
    match urls::parsed_url(row.url@) {
        Some(url) => Some(
            CheckView {
                id: row.id,
                user_id: UserId(crate::types::user::as_unsigned(row.user_id)),
                title: row.title@,
                url,
            },
        ),
        None => None,
    }
}

/// The decks in some rows; those whose URL is none are left out.
pub open spec fn row_checks(rows: Seq<DeckRow>) -> Seq<CheckView>
    decreases rows.len(),
{
    if rows.len() == 0 {
        Seq::empty()
    } else {
        match row_check(rows.last()) {
            Some(c) => row_checks(rows.drop_last()).push(c),
            None => row_checks(rows.drop_last()),
        }
    }
}

/// The decks that are to be tidied up; those whose URL is none are left out.
pub fn decks_to_check(rows: &Vec<DeckRow>) -> (r: Vec<DeckToCheck>)
    ensures
        r@.map_values(|d: DeckToCheck| d@) == row_checks(rows@),
{
    let mut decks: Vec<DeckToCheck> = Vec::new();
    let mut i: usize = 0;
    assert(rows@.take(0) =~= Seq::empty());
    assert(decks@.map_values(|d: DeckToCheck| d@) =~= Seq::empty());
    while i < rows.len()
        invariant
            i <= rows@.len(),
            decks@.map_values(|d: DeckToCheck| d@) == row_checks(rows@.take(i as int)),
        decreases rows.len() - i,
    {
        let ghost before = decks@;
        assert(rows@.take(i + 1).drop_last() =~= rows@.take(i as int));
        match Url::parse(rows[i].url.as_str()) {
            Ok(url) => {
                let d = DeckToCheck {
                    id: rows[i].id,
                    user_id: UserId::from_queryable(rows[i].user_id),
                    title: rows[i].title.clone(),
                    url,
                };
                decks.push(d);
                assert(decks@.map_values(|d: DeckToCheck| d@) =~= before.map_values(|d: DeckToCheck| d@).push(d@));
            },
            Err(_) => {},
        }
        i = i + 1;
    }
    assert(rows@.take(i as int) =~= rows@);
    decks
}

/// What has to be done with a deck.
#[derive(Debug)]
pub enum Cleanup {
    /// Nothing: its URL is that of no known site.
    NoLoader,
    /// Nothing: its URL is the right one.
    Fine,
    /// Find out whether its owner has a deck with this URL, which is the right one.
    Correct(Url),
}

/// The canonical URL of the deck at a URL, where it is a deck of a known site.
pub open spec fn right_url(url: Seq<char>) -> Option<Option<Seq<char>>> {
    match loaders::deckbox_id(url) {
        Some(id) => Some(loaders::deckbox_url(id)),
        None => match loaders::tappedout_slug(url) {
            Some(slug) => Some(loaders::tappedout_url(slug)),
            None => match loaders::archidekt_id(url) {
                Some(id) => Some(
                    urls::parsed_url("https://archidekt.com/decks/"@ + decimal::decimal(id as nat)),
                ),
                None => None,
            },
        },
    }
}

/// What has to be done with a deck, as its URL says.
pub fn cleanup_deck(url: &Url) -> (r: Result<Cleanup, UrlError>)
    ensures
        match r {
            Ok(Cleanup::NoLoader) => right_url(url@) is None,
            Ok(Cleanup::Fine) => right_url(url@) == Some(Some(url@)),
            Ok(Cleanup::Correct(canonical)) => right_url(url@) == Some(Some(canonical@)) && canonical@ != url@,
            Err(_) => right_url(url@) == Some(None::<Seq<char>>),
        },
{
    let loader = match find_loader(url) {
        Ok(l) => l,
        Err(_) => {
            return Ok(Cleanup::NoLoader);
        },
    };
    match loader.canonical_deck_url() {
        Err(e) => Err(e),
        Ok(canonical) => if canonical.same(url) {
            Ok(Cleanup::Fine)
        } else {
            Ok(Cleanup::Correct(canonical))
        },
    }
}

/// What is done with a deck whose URL is not the right one.
#[derive(Debug)]
pub enum Correction {
    /// It is deleted: its owner has the deck under the right URL.
    Delete,
    /// It gets the right URL.
    SetUrl(Url),
}

/// What is done with a deck whose URL is not the right one.
pub fn correction(canonical: Url, duplicate: bool) -> (r: Correction)
    ensures
        r == if duplicate {
            Correction::Delete
        } else {
            Correction::SetUrl(canonical)
        },
{
    if duplicate {
        Correction::Delete
    } else {
        Correction::SetUrl(canonical)
    }
}

/// Every deck whose URL is one is to be tidied up, in the order of the rows, with its own ID, owner and title,
/// and no other deck is.
pub proof fn every_deck_is_checked(a: Seq<DeckRow>, row: DeckRow, b: Seq<DeckRow>)
    ensures
        row_checks(a.push(row) + b) == row_checks(a) + (match urls::parsed_url(row.url@) {
            Some(url) => seq![
                CheckView {
                    id: row.id,
                    user_id: UserId(crate::types::user::as_unsigned(row.user_id)),
                    title: row.title@,
                    url,
                },
            ],
            None => Seq::empty(),
        }) + row_checks(b),
        row_checks(Seq::empty()) == Seq::<CheckView>::empty(),
    decreases b.len(),
{
    let all = a.push(row) + b;
    if b.len() == 0 {
        assert(all.drop_last() =~= a);
        assert(all.last() == row);
    } else {
        every_deck_is_checked(a, row, b.drop_last());
        assert(all.drop_last() =~= a.push(row) + b.drop_last());
        assert(all.last() == b.last());
    }
    assert(row_checks(all) =~= row_checks(a) + (match row_check(row) {
        Some(c) => seq![c],
        None => Seq::empty(),
    }) + row_checks(b));
}

/// A deck of a known site has the right URL that its site gives it, and a URL of no known site has none.
pub proof fn right_url_is_that_of_the_site(url: Seq<char>)
    ensures
        right_url(url) is None <==> loaders::deckbox_id(url) is None && loaders::tappedout_slug(url) is None
            && loaders::archidekt_id(url) is None,
        loaders::deckbox_id(url) matches Some(id) ==> right_url(url) == Some(loaders::deckbox_url(id)),
        loaders::deckbox_id(url) is None && loaders::tappedout_slug(url) is Some ==> right_url(url) == Some(
            loaders::tappedout_url(loaders::tappedout_slug(url)->0),
        ),
        loaders::deckbox_id(url) is None && loaders::tappedout_slug(url) is None && loaders::archidekt_id(url) is Some
            ==> right_url(url) == Some(
            urls::parsed_url("https://archidekt.com/decks/"@ + decimal::decimal(loaders::archidekt_id(url)->0 as nat)),
        ),
{
}

/// A deck to load has the owner that its row names, in the database's form, and the URL of its row.
pub proof fn row_deck_says_what_its_row_does(d: DeckToLoad, row: (i64, String))
    requires
        is_row_deck(d, row),
    ensures
        crate::types::user::as_signed(d.user_id.0) == row.0,
        urls::parsed_url(row.1@) == Some(d.url@),
{
}

} // verus!
