//! The list of a user's decks.
use crate::decimal;
use crate::frontend::remote_resource::RemoteResource;
use crate::sort;
use crate::text;
use crate::types::deck::{Deck, DeckColorIdentity, DeckId};
use crate::types::frontend_to_server::FrontendToServerMessage;
use crate::types::nonzero::NonZeroU16;
use crate::types::server_to_frontend::{Notification, RenderProgress, ServerToFrontendMessage};
use crate::urls::Url;
use crate::uuids;
use vstd::prelude::*;

verus! {

/// What the list shows of a deck's state.
#[derive(Clone, Copy, Debug)]
pub enum DeckStatus {
    Loading,
    Waiting { queue_length: NonZeroU16 },
    RenderingCards { complete: u16, total: NonZeroU16 },
    RenderingPages { complete: u16, total: NonZeroU16 },
    Complete,
}

/// A deck of the list with its state.
pub struct DeckInfo {
    pub deck: Deck,
    pub status: DeckStatus,
}

/// A color as red, green and blue.
pub type Rgb = (u8, u8, u8);

/// The sections of a deck's background, from left to right.
pub open spec fn sections(ci: DeckColorIdentity) -> Seq<Rgb> {
    let colors = section(ci.white, (248, 231, 185)) + section(ci.blue, (14, 104, 171)) + section(
        ci.red,
        (211, 32, 42),
    ) + section(ci.black, (21, 11, 0)) + section(ci.green, (0, 115, 62));
    if colors.len() == 0 {
        seq![(0xccu8, 0xccu8, 0xccu8)]
    } else {
        colors
    }
}

/// One section, where its color is there.
pub open spec fn section(there: bool, color: Rgb) -> Seq<Rgb> {
    if there {
        seq![color]
    } else {
        Seq::empty()
    }
}

/// A fraction as the nearest whole number; the even one where two are as near.
pub open spec fn rounded(a: int, n: int) -> int {
    let q = a / n;
    let r = a % n;
    if 2 * r > n || (2 * r == n && q % 2 == 1) {
        q + 1
    } else {
        q
    }
}

/// At how many percent of the background the color of a section is reached: behind the first quarter of the
/// section, and in the first section at once.
pub open spec fn full_from(k: int, n: int) -> int {
    if k == 0 {
        0
    } else {
        rounded(100 * k + 25, n)
    }
}

/// At how many percent of the background the color of a section is left: before the last quarter of the
/// section, and in the last section never.
pub open spec fn full_to(k: int, n: int) -> int {
    if k == n - 1 {
        100
    } else {
        rounded(100 * (k + 1) - 25, n)
    }
}

/// A section of the background in CSS.
pub open spec fn section_css(color: Rgb, k: int, n: int) -> Seq<char> {
    ", rgba("@ + decimal::decimal(color.0 as nat) + ","@ + decimal::decimal(color.1 as nat) + ","@ + decimal::decimal(
        color.2 as nat,
    ) + ",0.20) "@ + decimal::decimal(full_from(k, n) as nat) + "% "@ + decimal::decimal(full_to(k, n) as nat) + "%"@
}

/// The first `k` sections of the background in CSS.
pub open spec fn sections_css(colors: Seq<Rgb>, k: int) -> Seq<char>
    decreases k,
{
    if k <= 0 {
        Seq::empty()
    } else {
        sections_css(colors, k - 1) + section_css(colors[k - 1], k - 1, colors.len() as int)
    }
}

/// The background in CSS.
pub open spec fn background_css(ci: DeckColorIdentity) -> Seq<char> {
    "background: #eee; background: linear-gradient(120deg"@ + sections_css(
        sections(ci),
        sections(ci).len() as int,
    ) + ");"@
}

/// A fraction as the nearest whole number.
fn round(a: u64, n: u64) -> (r: u64)
    requires
        0 < n <= 5,
        a <= 1000,
    ensures
        r == rounded(a as int, n as int),
{
    let q: u64 = a / n;
    let r: u64 = a % n;
    assert(q <= a) by (nonlinear_arith)
        requires
            q == a / n,
            0 < n,
    ;
    if 2 * r > n || (2 * r == n && q % 2 == 1) {
        q + 1
    } else {
        q
    }
}

/// Writes a section of the background.
fn append_section(css: &mut String, color: Rgb, k: u64, n: u64)
    requires
        k < n <= 5,
    ensures
        final(css)@ == old(css)@ + section_css(color, k as int, n as int),
{
    let from: u64 = if k == 0 {
        0
    } else {
        round(100 * k + 25, n)
    };
    let to: u64 = if k == n - 1 {
        100
    } else {
        round(100 * (k + 1) - 25, n)
    };
    let ghost before = css@;
    css.append(", rgba(");
    css.append(decimal::to_decimal(color.0 as u64).as_str());
    css.append(",");
    css.append(decimal::to_decimal(color.1 as u64).as_str());
    css.append(",");
    css.append(decimal::to_decimal(color.2 as u64).as_str());
    css.append(",0.20) ");
    css.append(decimal::to_decimal(from).as_str());
    css.append("% ");
    css.append(decimal::to_decimal(to).as_str());
    css.append("%");
    assert(css@ =~= before + section_css(color, k as int, n as int));
}

impl DeckInfo {
    /// The background in CSS: the deck's colors from left to right.
    pub fn bg_gradient_css(&self) -> (r: String)
        ensures
            r@ == background_css(self.deck.color_identity),
    {
        let colors = self.bg_sections();
        let ghost all = sections(self.deck.color_identity);
        let ghost head = "background: #eee; background: linear-gradient(120deg"@;
        let mut css = "background: #eee; background: linear-gradient(120deg".to_string();
        let mut k: usize = 0;
        assert(css@ =~= head + sections_css(all, 0));
        while k < colors.len()
            invariant
                k <= colors@.len() <= 5,
                colors@ == all,
                css@ == head + sections_css(all, k as int),
            decreases colors.len() - k,
        {
            append_section(&mut css, colors[k], k as u64, colors.len() as u64);
            k = k + 1;
            assert(css@ =~= head + sections_css(all, k as int));
        }
        css.append(");");
        css
    }

    /// The colors of the deck's background, one section each; the sections are equally wide.
    pub fn bg_sections(&self) -> (r: Vec<Rgb>)
        ensures
            r@ == sections(self.deck.color_identity),
            1 <= r@.len() <= 5,
    {
        let ci = self.deck.color_identity;
        let mut r: Vec<Rgb> = Vec::new();
        if ci.white {
            r.push((248, 231, 185));
        }
        if ci.blue {
            r.push((14, 104, 171));
        }
        if ci.red {
            r.push((211, 32, 42));
        }
        if ci.black {
            r.push((21, 11, 0));
        }
        if ci.green {
            r.push((0, 115, 62));
        }
        if r.len() == 0 {
            r.push((0xcc, 0xcc, 0xcc));
        }
        assert(r@ =~= sections(ci));
        r
    }

    /// Where the deck can be downloaded, once it is rendered.
    pub fn download_path(&self) -> (r: Option<String>)
        ensures
            match r {
                Some(p) => self.deck.rendered && p@ == "/decks/"@ + uuids::hyphenated(
                    self.deck.id.0.bits as int,
                ) + ".json"@,
                None => !self.deck.rendered,
            },
    {
        if self.deck.rendered {
            Some(text::concat3("/decks/", self.deck.id.to_text().as_str(), ".json"))
        } else {
            None
        }
    }

    /// What is said of the deck's state, and how far a progress bar has come.
    pub fn status_message(&self) -> (r: (String, Option<(u16, u16)>))
        ensures
            r.0@ == status_text(self.status),
            r.1 == status_progress(self.status),
    {
        match self.status {
            DeckStatus::Waiting { queue_length } => {
                let ahead: u16 = queue_length.get() - 1;
                let s = if ahead == 1 {
                    ""
                } else {
                    "s"
                };
                let mut m = text::concat3("Waiting\u{2026} (", decimal::to_decimal(ahead as u64).as_str(), " deck");
                m.append(s);
                m.append(" ahead of this one)");
                (m, None)
            },
            DeckStatus::Loading => ("Loading\u{2026}".to_string(), None),
            DeckStatus::RenderingCards { complete, total } => (
                "Loading cards".to_string(),
                Some((complete, total.get())),
            ),
            DeckStatus::RenderingPages { complete, total } => (
                "Saving page image".to_string(),
                Some((complete, total.get())),
            ),
            DeckStatus::Complete => {
                let empty = String::new();
                assert(empty@ =~= Seq::empty());
                (empty, None)
            },
        }
    }
}

/// What is said of a deck's state.
pub open spec fn status_text(status: DeckStatus) -> Seq<char> {
    match status {
        DeckStatus::Waiting { queue_length } => "Waiting\u{2026} ("@ + decimal::decimal(
            (queue_length.value() - 1) as nat,
        ) + " deck"@ + (if queue_length.value() == 2 {
            ""@
        } else {
            "s"@
        }) + " ahead of this one)"@,
        DeckStatus::Loading => "Loading\u{2026}"@,
        DeckStatus::RenderingCards { .. } => "Loading cards"@,
        DeckStatus::RenderingPages { .. } => "Saving page image"@,
        DeckStatus::Complete => Seq::empty(),
    }
}

/// How far a progress bar has come, and how far it goes.
pub open spec fn status_progress(status: DeckStatus) -> Option<(u16, u16)> {
    match status {
        DeckStatus::RenderingCards { complete, total } => Some((complete, total.value())),
        DeckStatus::RenderingPages { complete, total } => Some((complete, total.value())),
        _ => None,
    }
}

/// What `str::to_lowercase` makes of a text.
pub uninterp spec fn lowercase(s: Seq<char>) -> Seq<char>;

/// `str::to_lowercase`: the text with its upper-case characters mapped to lower case.
#[verifier::external_body]
fn to_lowercase(s: &str) -> (r: String)
    ensures
        r@ == lowercase(s@),
{
    s.to_lowercase()
}

/// The titles of decks in lower case.
pub open spec fn title_keys(decks: Seq<DeckInfo>) -> Seq<Seq<char>> {
    decks.map_values(|d: DeckInfo| lowercase(d.deck.title@))
}

/// Decks with the keys by which they are sorted.
pub open spec fn keyed_decks(decks: Seq<DeckInfo>) -> Seq<(Seq<char>, DeckInfo)> {
    sort::keyed(title_keys(decks), decks)
}

/// Decks in the order of their titles, without regard to case.
pub open spec fn by_title(decks: Seq<DeckInfo>) -> Seq<DeckInfo> {
    sort::items_of(sort::sort_by_key(keyed_decks(decks)))
}

/// A deck as it comes from the server, with nothing to be done for it.
pub open spec fn complete(decks: Seq<Deck>) -> Seq<DeckInfo> {
    decks.map_values(|d: Deck| DeckInfo { deck: d, status: DeckStatus::Complete })
}

/// The first place at which a deck stands; the length where it does not.
pub open spec fn place_of(decks: Seq<DeckInfo>, id: DeckId) -> int
    decreases decks.len(),
{
    if decks.len() == 0 {
        0
    } else if decks[0].deck.id == id {
        0
    } else {
        1 + place_of(decks.drop_first(), id)
    }
}

/// The state that news of a rendering gives.
pub open spec fn status_of(progress: RenderProgress) -> DeckStatus {
    match progress {
        RenderProgress::Waiting { queue_length } => DeckStatus::Waiting { queue_length },
        RenderProgress::RenderingImages { rendered_cards, total_cards } => DeckStatus::RenderingCards {
            complete: rendered_cards,
            total: total_cards,
        },
        RenderProgress::SavingPages { saved_pages, total_pages } => DeckStatus::RenderingPages {
            complete: saved_pages,
            total: total_pages,
        },
        RenderProgress::Rendered => DeckStatus::Complete,
    }
}

/// A deck whose parsing has begun.
pub open spec fn started(id: DeckId, title: String, url: Url) -> DeckInfo {
    DeckInfo {
        deck: Deck {
            id,
            title,
            url,
            rendered: false,
            color_identity: DeckColorIdentity { black: false, blue: false, green: false, red: false, white: false },
        },
        status: DeckStatus::Loading,
    }
}

/// A deck after it was parsed.
pub open spec fn parsed(d: DeckInfo, title: String, url: Url, color_identity: DeckColorIdentity) -> DeckInfo {
    DeckInfo {
        deck: Deck { id: d.deck.id, title, url, rendered: d.deck.rendered, color_identity },
        status: DeckStatus::Loading,
    }
}

/// The decks after some news, before they are put in order.
pub open spec fn after_news(decks: Seq<DeckInfo>, news: Notification) -> Seq<DeckInfo> {
    match news {
        Notification::DeckDeleted { deck_id } => decks.filter(|d: DeckInfo| d.deck.id != deck_id),
        Notification::DeckParseStarted { deck_id, title, url } => {
            let i = place_of(decks, deck_id);
            if i < decks.len() {
                decks.update(i, started(deck_id, title, url))
            } else {
                decks.push(started(deck_id, title, url))
            }
        },
        Notification::DeckParsed { deck_id, title, url, color_identity } => decks.map_values(
            |d: DeckInfo|
                if d.deck.id == deck_id {
                    parsed(d, title, url, color_identity)
                } else {
                    d
                },
        ),
        Notification::Error(_) => decks,
        Notification::RenderProgress { deck_id, progress } => {
            let i = place_of(decks, deck_id);
            if i < decks.len() {
                let d = decks[i];
                decks.update(
                    i,
                    DeckInfo {
                        deck: Deck {
                            id: d.deck.id,
                            title: d.deck.title,
                            url: d.deck.url,
                            rendered: progress is Rendered,
                            color_identity: d.deck.color_identity,
                        },
                        status: status_of(progress),
                    },
                )
            } else {
                decks
            }
        },
    }
}

/// Whether news changes what the list shows.
pub open spec fn shows(news: Notification) -> bool {
    !(news is Error)
}

/// What the list reacts to.
pub enum Msg {
    DeleteDeck(DeckId),
    FromServer(ServerToFrontendMessage),
    RebuildDeck(DeckId),
}

/// The list of a user's decks.
pub struct DeckList<E> {
    pub decks: RemoteResource<Vec<DeckInfo>, E>,
}

/// What an update asks for: whether the list has to be shown anew, and what is to be sent to the
/// server.
pub struct Reaction {
    pub should_render: bool,
    pub send: Option<FrontendToServerMessage>,
}

/// A loaded list of decks, as a sequence.
pub open spec fn loaded<E>(r: RemoteResource<Vec<DeckInfo>, E>) -> Option<Seq<DeckInfo>> {
    match r {
        RemoteResource::Loaded(v) => Some(v@),
        _ => None,
    }
}

/// The decks after a message; none while they are not loaded.
pub open spec fn decks_after(decks: Option<Seq<DeckInfo>>, msg: Msg) -> Option<Seq<DeckInfo>> {
    match msg {
        Msg::FromServer(ServerToFrontendMessage::DeckList { decks: new }) => Some(by_title(complete(new@))),
        Msg::FromServer(ServerToFrontendMessage::Notification(news)) => match decks {
            Some(d) => Some(by_title(after_news(d, news))),
            None => None,
        },
        _ => match decks {
            Some(d) => Some(by_title(d)),
            None => None,
        },
    }
}

/// Whether the list has to be shown anew after a message.
pub open spec fn rendered_after(decks: Option<Seq<DeckInfo>>, msg: Msg) -> bool {
    match msg {
        Msg::DeleteDeck(_) => true,
        Msg::FromServer(ServerToFrontendMessage::DeckList { .. }) => true,
        Msg::FromServer(ServerToFrontendMessage::FatalError(_)) => false,
        Msg::FromServer(ServerToFrontendMessage::Notification(news)) => decks is Some && shows(news),
        Msg::RebuildDeck(_) => false,
    }
}

/// Whether what is sent to the server is what a message asks for.
pub open spec fn sends(decks: Option<Seq<DeckInfo>>, msg: Msg, send: Option<FrontendToServerMessage>) -> bool {
    match msg {
        Msg::DeleteDeck(id) => send == Some(FrontendToServerMessage::DeleteDeck { id }),
        Msg::FromServer(_) => send is None,
        Msg::RebuildDeck(id) => match decks {
            Some(d) if place_of(d, id) < d.len() => send == Some(
                FrontendToServerMessage::RenderDeck { url: d[place_of(d, id)].deck.url },
            ),
            _ => send is None,
        },
    }
}

proof fn place_of_prefix(decks: Seq<DeckInfo>, id: DeckId, i: int)
    requires
        0 <= i <= decks.len(),
        forall|j: int| 0 <= j < i ==> (#[trigger] decks[j]).deck.id != id,
    ensures
        i < decks.len() && decks[i].deck.id == id ==> place_of(decks, id) == i,
        i == decks.len() ==> place_of(decks, id) == i,
        place_of(decks, id) >= 0,
    decreases decks.len(),
{
    if decks.len() > 0 && i > 0 {
        assert(decks[0].deck.id != id);
        let rest = decks.drop_first();
        assert forall|j: int| 0 <= j < i - 1 implies (#[trigger] rest[j]).deck.id != id by {
            assert(decks[j + 1].deck.id != id);
        }
        place_of_prefix(rest, id, i - 1);
    } else if decks.len() > 0 {
        place_of_prefix(decks.drop_first(), id, 0);
    }
}

/// The first place at which a deck stands.
fn find_place(decks: &Vec<DeckInfo>, id: DeckId) -> (r: usize)
    ensures
        r == place_of(decks@, id),
        r <= decks@.len(),
{
    let mut i: usize = 0;
    while i < decks.len()
        invariant
            i <= decks@.len(),
            forall|j: int| 0 <= j < i ==> (#[trigger] decks@[j]).deck.id != id,
        decreases decks.len() - i,
    {
        if decks[i].deck.id == id {
            proof {
                place_of_prefix(decks@, id, i as int);
            }
            return i;
        }
        i = i + 1;
    }
    proof {
        place_of_prefix(decks@, id, i as int);
    }
    i
}

/// Puts decks in the order of their titles, without regard to case.
pub fn sort_by_title(decks: Vec<DeckInfo>) -> (r: Vec<DeckInfo>)
    ensures
        r@ == by_title(decks@),
{
    let mut keys: Vec<String> = Vec::new();
    let mut i: usize = 0;
    while i < decks.len()
        invariant
            i <= decks@.len(),
            text::texts(keys@) == title_keys(decks@.take(i as int)),
        decreases decks.len() - i,
    {
        let ghost before = keys@;
        keys.push(to_lowercase(decks[i].deck.title.as_str()));
        proof {
            assert(text::texts(keys@) =~= text::texts(before).push(lowercase(decks@[i as int].deck.title@)));
            assert(decks@.take(i + 1) =~= decks@.take(i as int).push(decks@[i as int]));
            assert(title_keys(decks@.take(i + 1)) =~= title_keys(decks@.take(i as int)).push(
                lowercase(decks@[i as int].deck.title@),
            ));
        }
        i = i + 1;
    }
    assert(decks@.take(i as int) =~= decks@);
    assert(text::texts(keys@).len() == keys@.len());
    sort::sort_with_keys(keys, decks)
}

/// The decks that the server lists, each complete.
fn all_complete(decks: Vec<Deck>) -> (r: Vec<DeckInfo>)
    ensures
        r@ == complete(decks@),
{
    let mut decks = decks;
    let ghost all = decks@;
    let mut infos: Vec<DeckInfo> = Vec::new();
    while decks.len() > 0
        invariant
            infos@ == complete(all.take(all.len() - decks@.len())),
            decks@ == all.skip(all.len() - decks@.len()),
            decks@.len() <= all.len(),
        decreases decks@.len(),
    {
        let ghost k = all.len() - decks@.len();
        let deck = decks.remove(0);
        assert(deck == all[k]);
        infos.push(DeckInfo { deck, status: DeckStatus::Complete });
        assert(all.take(k + 1) =~= all.take(k).push(all[k]));
        assert(infos@ =~= complete(all.take(k + 1)));
        assert(decks@ =~= all.skip(k + 1));
    }
    assert(all.take(all.len() as int) =~= all);
    infos
}

/// The decks without one of them.
fn without(decks: Vec<DeckInfo>, id: DeckId) -> (r: Vec<DeckInfo>)
    ensures
        r@ == decks@.filter(|d: DeckInfo| d.deck.id != id),
{
    let mut decks = decks;
    let ghost all = decks@;
    let ghost keep = |d: DeckInfo| d.deck.id != id;
    let mut kept: Vec<DeckInfo> = Vec::new();
    assert(all.take(0).filter(keep) =~= Seq::empty()) by {
        reveal(Seq::filter);
    }
    while decks.len() > 0
        invariant
            kept@ == all.take(all.len() - decks@.len()).filter(keep),
            decks@ == all.skip(all.len() - decks@.len()),
            decks@.len() <= all.len(),
            keep == (|d: DeckInfo| d.deck.id != id),
        decreases decks@.len(),
    {
        let ghost k = all.len() - decks@.len();
        let deck = decks.remove(0);
        assert(deck == all[k]);
        proof {
            reveal(Seq::filter);
            assert(all.take(k + 1).drop_last() =~= all.take(k));
            assert(all.take(k + 1).last() == all[k]);
        }
        if !(deck.deck.id == id) {
            kept.push(deck);
        }
        assert(decks@ =~= all.skip(k + 1));
    }
    assert(all.take(all.len() as int) =~= all);
    kept
}

/// The decks after news.
pub fn apply(decks: Vec<DeckInfo>, news: Notification) -> (r: Vec<DeckInfo>)
    ensures
        r@ == after_news(decks@, news),
{
    let mut decks = decks;
    match news {
        Notification::DeckDeleted { deck_id } => without(decks, deck_id),
        Notification::DeckParseStarted { deck_id, title, url } => {
            let i: usize = find_place(&decks, deck_id);
            let info = DeckInfo {
                deck: Deck {
                    id: deck_id,
                    title,
                    url,
                    rendered: false,
                    color_identity: DeckColorIdentity::colorless(),
                },
                status: DeckStatus::Loading,
            };
            if i < decks.len() {
                decks.set(i, info);
            } else {
                decks.push(info);
            }
            decks
        },
        Notification::DeckParsed { deck_id, title, url, color_identity } => {
            let ghost all = decks@;
            let ghost news = Notification::DeckParsed { deck_id, title, url, color_identity };
            let n: usize = decks.len();
            let mut i: usize = 0;
            while i < n
                invariant
                    i <= n,
                    n == decks@.len(),
                    decks@.len() == all.len(),
                    forall|j: int| 0 <= j < i ==> #[trigger] decks@[j] == (if all[j].deck.id == deck_id {
                        parsed(all[j], title, url, color_identity)
                    } else {
                        all[j]
                    }),
                    forall|j: int| i <= j < n ==> #[trigger] decks@[j] == all[j],
                decreases n - i,
            {
                if decks[i].deck.id == deck_id {
                    let rendered = decks[i].deck.rendered;
                    let info = DeckInfo {
                        deck: Deck {
                            id: deck_id,
                            title: title.clone(),
                            url: url.clone(),
                            rendered,
                            color_identity,
                        },
                        status: DeckStatus::Loading,
                    };
                    decks.set(i, info);
                }
                i = i + 1;
            }
            assert(decks@ =~= after_news(all, news));
            decks
        },
        Notification::Error(_) => decks,
        Notification::RenderProgress { deck_id, progress } => {
            let status = match progress {
                RenderProgress::Waiting { queue_length } => DeckStatus::Waiting { queue_length },
                RenderProgress::RenderingImages { rendered_cards, total_cards } => DeckStatus::RenderingCards {
                    complete: rendered_cards,
                    total: total_cards,
                },
                RenderProgress::SavingPages { saved_pages, total_pages } => DeckStatus::RenderingPages {
                    complete: saved_pages,
                    total: total_pages,
                },
                RenderProgress::Rendered => DeckStatus::Complete,
            };
            let rendered = match progress {
                RenderProgress::Rendered => true,
                _ => false,
            };
            let i: usize = find_place(&decks, deck_id);
            if i < decks.len() {
                let d = &decks[i].deck;
                let info = DeckInfo {
                    deck: Deck {
                        id: d.id,
                        title: d.title.clone(),
                        url: d.url.clone(),
                        rendered,
                        color_identity: d.color_identity,
                    },
                    status,
                };
                decks.set(i, info);
            }
            decks
        },
    }
}

impl<E> DeckList<E> {
    /// The list before anything has come, and the request for the decks.
    pub fn create() -> (r: (DeckList<E>, FrontendToServerMessage))
        ensures
            r.0.decks is Loading,
            r.1 is GetDecks,
    {
        (DeckList { decks: RemoteResource::Loading }, FrontendToServerMessage::GetDecks)
    }

    /// Reacts to a message.
    pub fn update(&mut self, msg: Msg) -> (r: Reaction)
        ensures
            loaded(final(self).decks) == decks_after(loaded(old(self).decks), msg),
            loaded(final(self).decks) is None ==> final(self).decks == old(self).decks,
            r.should_render == rendered_after(loaded(old(self).decks), msg),
            sends(loaded(old(self).decks), msg, r.send),
    {
        let mut old_decks = RemoteResource::Loading;
        std::mem::swap(&mut old_decks, &mut self.decks);
        let ghost before = loaded(old(self).decks);
        let mut send: Option<FrontendToServerMessage> = None;
        let mut should_render = false;
        let new_decks = match msg {
            Msg::DeleteDeck(id) => {
                send = Some(FrontendToServerMessage::DeleteDeck { id });
                should_render = true;
                old_decks
            },
            Msg::FromServer(from_server) => match from_server {
                ServerToFrontendMessage::DeckList { decks } => {
                    should_render = true;
                    RemoteResource::Loaded(all_complete(decks))
                },
                ServerToFrontendMessage::FatalError(_) => old_decks,
                ServerToFrontendMessage::Notification(news) => match old_decks {
                    RemoteResource::Loaded(decks) => {
                        should_render = match &news {
                            Notification::Error(_) => false,
                            _ => true,
                        };
                        RemoteResource::Loaded(apply(decks, news))
                    },
                    other => other,
                },
            },
            Msg::RebuildDeck(id) => {
                match &old_decks {
                    RemoteResource::Loaded(decks) => {
                        let i: usize = find_place(decks, id);
                        if i < decks.len() {
                            send = Some(FrontendToServerMessage::RenderDeck { url: decks[i].deck.url.clone() });
                        }
                    },
                    _ => {},
                }
                old_decks
            },
        };
        self.decks = match new_decks {
            RemoteResource::Loaded(decks) => RemoteResource::Loaded(sort_by_title(decks)),
            other => other,
        };
        Reaction { should_render, send }
    }
}

/// The keys and decks of a list in order are those of the sorted pairs.
proof fn keyed_by_title(decks: Seq<DeckInfo>)
    ensures
        keyed_decks(by_title(decks)) == sort::sort_by_key(keyed_decks(decks)),
{
    let k = keyed_decks(decks);
    let p = |e: (Seq<char>, DeckInfo)| e.0 == lowercase(e.1.deck.title@);
    sort::sort_by_key_keeps(k, p);
    let s = sort::sort_by_key(k);
    assert forall|i: int| 0 <= i < s.len() implies #[trigger] keyed_decks(by_title(decks))[i] == s[i] by {
        assert(p(s[i]));
    }
    assert(keyed_decks(by_title(decks)) =~= s);
}

/// After every message a loaded list stands in the order of its titles, without regard to case.
pub proof fn update_keeps_order(decks: Option<Seq<DeckInfo>>, msg: Msg)
    ensures
        decks_after(decks, msg) matches Some(after) ==> sort::in_order(keyed_decks(after)),
{
    let before = match msg {
        Msg::FromServer(ServerToFrontendMessage::DeckList { decks: new }) => complete(new@),
        Msg::FromServer(ServerToFrontendMessage::Notification(news)) => after_news(decks->0, news),
        _ => decks->0,
    };
    keyed_by_title(before);
    sort::sort_by_key_orders(keyed_decks(before));
}

/// Putting a list in order a second time changes nothing.
pub proof fn by_title_twice(decks: Seq<DeckInfo>)
    ensures
        by_title(by_title(decks)) == by_title(decks),
{
    keyed_by_title(decks);
    sort::sort_by_key_orders(keyed_decks(decks));
    sort::sort_by_key_fixes(keyed_decks(by_title(decks)));
}

/// Putting a list in order loses no deck and adds none.
pub proof fn by_title_permutes(decks: Seq<DeckInfo>)
    ensures
        keyed_decks(by_title(decks)).to_multiset() == keyed_decks(decks).to_multiset(),
        by_title(decks).len() == decks.len(),
{
    keyed_by_title(decks);
    sort::sort_by_key_orders(keyed_decks(decks));
    sort::sort_by_key_permutes(keyed_decks(decks));
}

/// Whether a deck stands in a list.
pub open spec fn lists(decks: Seq<DeckInfo>, id: DeckId) -> bool {
    exists|i: int| 0 <= i < decks.len() && (#[trigger] decks[i]).deck.id == id
}

/// Putting a list in order keeps which decks stand in it.
pub proof fn by_title_lists(decks: Seq<DeckInfo>, id: DeckId)
    ensures
        lists(by_title(decks), id) == lists(decks, id),
{
    broadcast use vstd::seq_lib::group_to_multiset_ensures;

    by_title_permutes(decks);
    let a = keyed_decks(decks);
    let b = keyed_decks(by_title(decks));
    if lists(decks, id) {
        let i = choose|i: int| 0 <= i < decks.len() && (#[trigger] decks[i]).deck.id == id;
        assert(a[i].1 == decks[i]);
        assert(a.contains(a[i]));
        assert(b.to_multiset().contains(a[i]));
        assert(b.contains(a[i]));
        let j = choose|j: int| 0 <= j < b.len() && b[j] == a[i];
        assert(by_title(decks)[j] == b[j].1);
    }
    if lists(by_title(decks), id) {
        let i = choose|i: int| 0 <= i < by_title(decks).len() && (#[trigger] by_title(decks)[i]).deck.id == id;
        assert(b[i].1 == by_title(decks)[i]);
        assert(b.contains(b[i]));
        assert(a.to_multiset().contains(b[i]));
        assert(a.contains(b[i]));
        let j = choose|j: int| 0 <= j < a.len() && a[j] == b[i];
        assert(decks[j] == a[j].1);
    }
}

/// A deck that was deleted stands in the list no more, and every other deck stays.
pub proof fn deleted_deck_is_gone(decks: Seq<DeckInfo>, deleted: DeckId, other: DeckId)
    requires
        other != deleted,
    ensures
        ({
            let after = decks_after(
                Some(decks),
                Msg::FromServer(
                    ServerToFrontendMessage::Notification(Notification::DeckDeleted { deck_id: deleted }),
                ),
            )->0;
            !lists(after, deleted) && lists(after, other) == lists(decks, other)
        }),
{
    let keep = |d: DeckInfo| d.deck.id != deleted;
    let kept = decks.filter(keep);
    assert forall|i: int| 0 <= i < kept.len() implies (#[trigger] kept[i]).deck.id != deleted by {
        decks.lemma_filter_pred(keep, i);
        assert(keep(kept[i]));
    }
    by_title_lists(kept, deleted);
    by_title_lists(kept, other);
    if lists(decks, other) {
        let i = choose|i: int| 0 <= i < decks.len() && (#[trigger] decks[i]).deck.id == other;
        decks.lemma_filter_contains(keep, i);
        let j = choose|j: int| 0 <= j < kept.len() && kept[j] == decks[i];
        assert(kept[j].deck.id == other);
    }
    if lists(kept, other) {
        let i = choose|i: int| 0 <= i < kept.len() && (#[trigger] kept[i]).deck.id == other;
        assert(kept.contains(kept[i]));
        decks.lemma_filter_contains_rev(keep, kept[i]);
        let j = choose|j: int| 0 <= j < decks.len() && decks[j] == kept[i];
        assert(decks[j].deck.id == other);
    }
}

/// A deck whose parsing has begun stands in a loaded list.
pub proof fn started_deck_is_listed(decks: Seq<DeckInfo>, id: DeckId, title: String, url: Url)
    ensures
        lists(
            decks_after(
                Some(decks),
                Msg::FromServer(
                    ServerToFrontendMessage::Notification(
                        Notification::DeckParseStarted { deck_id: id, title, url },
                    ),
                ),
            )->0,
            id,
        ),
{
    let after = after_news(decks, Notification::DeckParseStarted { deck_id: id, title, url });
    place_of_prefix(decks, id, 0);
    let i = place_of(decks, id);
    if i < decks.len() {
        assert(after[i].deck.id == id);
    } else {
        assert(after[decks.len() as int].deck.id == id);
    }
    by_title_lists(after, id);
}

/// The place of a deck is the first one at which its ID stands.
pub proof fn place_is_first(decks: Seq<DeckInfo>, id: DeckId)
    ensures
        0 <= place_of(decks, id) <= decks.len(),
        place_of(decks, id) < decks.len() ==> decks[place_of(decks, id)].deck.id == id,
        forall|j: int| 0 <= j < place_of(decks, id) ==> (#[trigger] decks[j]).deck.id != id,
        place_of(decks, id) < decks.len() <==> lists(decks, id),
    decreases decks.len(),
{
    if decks.len() > 0 && decks[0].deck.id != id {
        let rest = decks.drop_first();
        place_is_first(rest, id);
        assert forall|j: int| 0 <= j < place_of(decks, id) implies (#[trigger] decks[j]).deck.id != id by {
            if j > 0 {
                assert(rest[j - 1].deck.id != id);
            }
        }
        if place_of(decks, id) < decks.len() {
            assert(decks[place_of(decks, id)].deck.id == id);
        }
        if lists(decks, id) {
            let i = choose|i: int| 0 <= i < decks.len() && (#[trigger] decks[i]).deck.id == id;
            assert(rest[i - 1].deck.id == id);
        }
    } else if decks.len() > 0 {
        assert(decks[0].deck.id == id);
    }
}

/// Putting a list in order keeps every deck as it is.
pub proof fn by_title_keeps(decks: Seq<DeckInfo>, d: DeckInfo)
    ensures
        by_title(decks).contains(d) <==> decks.contains(d),
{
    broadcast use vstd::seq_lib::group_to_multiset_ensures;

    by_title_permutes(decks);
    let sorted = by_title(decks);
    let a = keyed_decks(decks);
    let b = keyed_decks(sorted);
    let e = (lowercase(d.deck.title@), d);
    assert(a.to_multiset().count(e) == b.to_multiset().count(e));
    assert(a.contains(e) == b.contains(e));
    if decks.contains(d) {
        let i = choose|i: int| 0 <= i < decks.len() && decks[i] == d;
        assert(a[i] == e);
        let k = choose|k: int| 0 <= k < b.len() && b[k] == e;
        assert(sorted[k] == d);
    }
    if sorted.contains(d) {
        let i = choose|i: int| 0 <= i < sorted.len() && sorted[i] == d;
        assert(b[i] == e);
        let k = choose|k: int| 0 <= k < a.len() && a[k] == e;
        assert(decks[k] == d);
    }
}

/// The decks that the server lists are those of the list, with nothing to be done for them.
pub proof fn listed_decks_are_shown(before: Option<Seq<DeckInfo>>, new: Vec<Deck>, d: DeckInfo)
    ensures
        ({
            let after = decks_after(before, Msg::FromServer(ServerToFrontendMessage::DeckList { decks: new }));
            &&& after is Some
            &&& after->0.len() == new@.len()
            &&& after->0.contains(d) <==> new@.contains(d.deck) && d.status is Complete
        }),
{
    let all = complete(new@);
    by_title_keeps(all, d);
    by_title_permutes(all);
    if all.contains(d) {
        let i = choose|i: int| 0 <= i < all.len() && all[i] == d;
        assert(new@[i] == d.deck);
    }
    if new@.contains(d.deck) && d.status is Complete {
        let i = choose|i: int| 0 <= i < new@.len() && new@[i] == d.deck;
        assert(all[i] == d);
    }
}

/// After a deck is deleted the list has every other deck as it was, and no deck with its ID.
pub proof fn deletion_leaves_the_others(decks: Seq<DeckInfo>, deck_id: DeckId, d: DeckInfo)
    ensures
        after_news(decks, Notification::DeckDeleted { deck_id }).contains(d) <==> decks.contains(d) && d.deck.id
            != deck_id,
{
    let keep = |d: DeckInfo| d.deck.id != deck_id;
    let kept = decks.filter(keep);
    if kept.contains(d) {
        decks.lemma_filter_contains_rev(keep, d);
        let i = choose|i: int| 0 <= i < kept.len() && kept[i] == d;
        decks.lemma_filter_pred(keep, i);
    }
    if decks.contains(d) && d.deck.id != deck_id {
        let i = choose|i: int| 0 <= i < decks.len() && decks[i] == d;
        decks.lemma_filter_contains(keep, i);
    }
}

/// A deck whose parsing has begun stands in the list under its new title and URL, as one that is being loaded: in
/// its place where it stood there, and behind the others where it did not. Every other deck stays as it was.
pub proof fn started_deck_is_being_loaded(decks: Seq<DeckInfo>, deck_id: DeckId, title: String, url: Url, j: int)
    ensures
        ({
            let after = after_news(decks, Notification::DeckParseStarted { deck_id, title, url });
            let i = place_of(after, deck_id);
            &&& i < after.len()
            &&& after[i].deck.title == title
            &&& after[i].deck.url == url
            &&& !after[i].deck.rendered
            &&& after[i].status is Loading
            &&& after.len() == if lists(decks, deck_id) {
                decks.len()
            } else {
                decks.len() + 1
            }
            &&& 0 <= j < decks.len() && j != i ==> after[j] == decks[j]
        }),
{
    let after = after_news(decks, Notification::DeckParseStarted { deck_id, title, url });
    place_is_first(decks, deck_id);
    place_is_first(after, deck_id);
    let i = place_of(decks, deck_id);
    assert(after[i].deck.id == deck_id);
    let k = place_of(after, deck_id);
    if k < i {
        assert(after[k] == decks[k]);
        assert(decks[k].deck.id != deck_id);
    }
    assert(k <= i) by {
        if k > i {
            assert(after[i].deck.id != deck_id);
        }
    }
}

/// A deck that was parsed has its title, its URL and its colors, and every other deck stays as it was.
pub proof fn parsed_deck_is_named(
    decks: Seq<DeckInfo>,
    deck_id: DeckId,
    title: String,
    url: Url,
    color_identity: DeckColorIdentity,
    j: int,
)
    requires
        0 <= j < decks.len(),
    ensures
        ({
            let after = after_news(decks, Notification::DeckParsed { deck_id, title, url, color_identity });
            &&& after.len() == decks.len()
            &&& decks[j].deck.id != deck_id ==> after[j] == decks[j]
            &&& decks[j].deck.id == deck_id ==> {
                &&& after[j].deck.id == deck_id
                &&& after[j].deck.title == title
                &&& after[j].deck.url == url
                &&& after[j].deck.color_identity == color_identity
                &&& after[j].deck.rendered == decks[j].deck.rendered
                &&& after[j].status is Loading
            }
        }),
{
}

/// News of a deck's rendering say how far it has come, and that it is rendered once it is; its title, its URL and
/// its colors stay, and so does every other deck.
pub proof fn progress_is_shown(decks: Seq<DeckInfo>, deck_id: DeckId, progress: RenderProgress, j: int)
    requires
        0 <= j < decks.len(),
    ensures
        ({
            let after = after_news(decks, Notification::RenderProgress { deck_id, progress });
            &&& after.len() == decks.len()
            &&& decks[j].deck.id != deck_id ==> after[j] == decks[j]
            &&& j == place_of(decks, deck_id) ==> {
                &&& after[j].deck.id == deck_id
                &&& after[j].deck.title == decks[j].deck.title
                &&& after[j].deck.url == decks[j].deck.url
                &&& after[j].deck.color_identity == decks[j].deck.color_identity
                &&& after[j].deck.rendered <==> progress is Rendered
                &&& after[j].status is Complete <==> progress is Rendered
                &&& progress matches RenderProgress::Waiting { queue_length } ==> after[j].status == (
                DeckStatus::Waiting { queue_length })
                &&& progress matches RenderProgress::RenderingImages { rendered_cards, total_cards }
                    ==> status_progress(after[j].status) == Some((rendered_cards, total_cards.value()))
                    && after[j].status is RenderingCards
                &&& progress matches RenderProgress::SavingPages { saved_pages, total_pages } ==> status_progress(
                    after[j].status,
                ) == Some((saved_pages, total_pages.value())) && after[j].status is RenderingPages
            }
        }),
{
    place_is_first(decks, deck_id);
}

/// Where no deck stands in the list under an ID, news of its rendering, of its having been parsed or of an error
/// change nothing.
pub proof fn news_of_others_change_nothing(decks: Seq<DeckInfo>, deck_id: DeckId, progress: RenderProgress)
    requires
        !lists(decks, deck_id),
    ensures
        after_news(decks, Notification::RenderProgress { deck_id, progress }) == decks,
        after_news(decks, Notification::DeckDeleted { deck_id }).len() == decks.len(),
{
    place_is_first(decks, deck_id);
    let keep = |d: DeckInfo| d.deck.id != deck_id;
    assert forall|i: int| 0 <= i < decks.len() implies keep(#[trigger] decks[i]) by {
        assert(decks[i].deck.id != deck_id);
    }
    all_are_kept(decks, keep);
}

proof fn all_are_kept(decks: Seq<DeckInfo>, keep: spec_fn(DeckInfo) -> bool)
    requires
        forall|i: int| 0 <= i < decks.len() ==> keep(#[trigger] decks[i]),
    ensures
        decks.filter(keep) == decks,
    decreases decks.len(),
{
    reveal(Seq::filter);
    if decks.len() > 0 {
        let before = decks.drop_last();
        assert forall|i: int| 0 <= i < before.len() implies keep(#[trigger] before[i]) by {
            assert(before[i] == decks[i]);
        }
        all_are_kept(before, keep);
        assert(keep(decks[decks.len() - 1]));
        assert(before.push(decks.last()) =~= decks);
    }
}

/// News change a loaded list as they change its decks, but for the order, and a list that is not loaded not at all.
pub proof fn news_reach_the_list(decks: Seq<DeckInfo>, news: Notification, d: DeckInfo)
    ensures
        ({
            let msg = Msg::FromServer(ServerToFrontendMessage::Notification(news));
            &&& decks_after(None, msg) is None
            &&& decks_after(Some(decks), msg) is Some
            &&& decks_after(Some(decks), msg)->0.contains(d) <==> after_news(decks, news).contains(d)
            &&& rendered_after(Some(decks), msg) <==> !(news is Error)
            &&& !rendered_after(None, msg)
        }),
{
    by_title_keeps(after_news(decks, news), d);
}

/// The user's wishes are sent to the server: a deck is deleted under its ID, and rendered anew from the URL under
/// which the list has it; nothing else is sent.
pub proof fn wishes_are_sent(decks: Seq<DeckInfo>, id: DeckId, send: Option<FrontendToServerMessage>, j: int)
    ensures
        sends(Some(decks), Msg::DeleteDeck(id), send) <==> send == Some(FrontendToServerMessage::DeleteDeck { id }),
        sends(None, Msg::RebuildDeck(id), send) <==> send is None,
        !lists(decks, id) ==> (sends(Some(decks), Msg::RebuildDeck(id), send) <==> send is None),
        0 <= j < decks.len() && decks[j].deck.id == id && (forall|k: int|
            0 <= k < j ==> (#[trigger] decks[k]).deck.id != id) ==> (sends(Some(decks), Msg::RebuildDeck(id), send)
            <==> send == Some(FrontendToServerMessage::RenderDeck { url: decks[j].deck.url })),
{
    place_is_first(decks, id);
    if 0 <= j < decks.len() && decks[j].deck.id == id && (forall|k: int|
        0 <= k < j ==> (#[trigger] decks[k]).deck.id != id) {
        let i = place_of(decks, id);
        if i < j {
            assert(decks[i].deck.id != id);
        } else if i > j {
            assert(decks[j].deck.id != id);
        }
    }
}

/// A deck's background has a section for each of its colors, in the order in which they are always named, and one
/// gray section where there is no color.
pub proof fn background_has_the_colors(ci: DeckColorIdentity)
    ensures
        sections(ci).contains((248u8, 231u8, 185u8)) <==> ci.white,
        sections(ci).contains((14u8, 104u8, 171u8)) <==> ci.blue,
        sections(ci).contains((211u8, 32u8, 42u8)) <==> ci.red,
        sections(ci).contains((21u8, 11u8, 0u8)) <==> ci.black,
        sections(ci).contains((0u8, 115u8, 62u8)) <==> ci.green,
        !ci.white && !ci.blue && !ci.red && !ci.black && !ci.green <==> sections(ci) == seq![(0xccu8, 0xccu8, 0xccu8)],
        ci.white ==> sections(ci)[0] == (248u8, 231u8, 185u8),
        ci.green ==> sections(ci).last() == (0u8, 115u8, 62u8),
        ci.white && ci.blue ==> sections(ci)[1] == (14u8, 104u8, 171u8),
        ci.black && ci.green ==> sections(ci)[sections(ci).len() - 2] == (21u8, 11u8, 0u8),
{
    let white = (248u8, 231u8, 185u8);
    let blue = (14u8, 104u8, 171u8);
    let red = (211u8, 32u8, 42u8);
    let black = (21u8, 11u8, 0u8);
    let green = (0u8, 115u8, 62u8);
    let s = sections(ci);
    let a = section(ci.white, white);
    let b = section(ci.blue, blue);
    let c = section(ci.red, red);
    let d = section(ci.black, black);
    let e = section(ci.green, green);
    if ci.white {
        assert(s[0] == white);
    }
    if ci.blue {
        assert(s[a.len() as int] == blue);
    }
    if ci.red {
        assert(s[(a.len() + b.len()) as int] == red);
    }
    if ci.black {
        assert(s[(a.len() + b.len() + c.len()) as int] == black);
    }
    if ci.green {
        assert(s[(a.len() + b.len() + c.len() + d.len()) as int] == green);
    }
    if !ci.white && !ci.blue && !ci.red && !ci.black && !ci.green {
        assert(s =~= seq![(0xccu8, 0xccu8, 0xccu8)]);
    } else if s == seq![(0xccu8, 0xccu8, 0xccu8)] {
        assert(s[0] == (0xccu8, 0xccu8, 0xccu8));
    }
}

/// A fraction is rounded to a whole number that is no more than a half away, and to the even one of two.
pub proof fn rounding_is_to_nearest(a: int, n: int)
    requires
        0 <= a,
        0 < n,
    ensures
        -n <= 2 * (a - n * rounded(a, n)) <= n,
        2 * (a - n * rounded(a, n)) == n || 2 * (a - n * rounded(a, n)) == -n ==> rounded(a, n) % 2 == 0,
{
    let q = a / n;
    let r = a % n;
    assert(a == n * q + r && 0 <= r < n) by (nonlinear_arith)
        requires
            q == a / n,
            r == a % n,
            0 < n,
    ;
    assert(n * (q + 1) == n * q + n) by (nonlinear_arith);
}

/// After every message a loaded list stands in the order of its titles in lower case.
pub proof fn titles_are_in_order(decks: Option<Seq<DeckInfo>>, msg: Msg, i: int, j: int)
    requires
        decks_after(decks, msg) is Some,
        0 <= i <= j < decks_after(decks, msg)->0.len(),
    ensures
        text::text_le(
            lowercase(decks_after(decks, msg)->0[i].deck.title@),
            lowercase(decks_after(decks, msg)->0[j].deck.title@),
        ),
{
    update_keeps_order(decks, msg);
    let after = decks_after(decks, msg)->0;
    let k = keyed_decks(after);
    assert(k[i].0 == lowercase(after[i].deck.title@));
    assert(k[j].0 == lowercase(after[j].deck.title@));
    assert(text::text_le(k[i].0, k[j].0));
}

/// A deck that waits is said to have all decks of the queue but itself ahead of it.
pub proof fn waiting_says_how_many(queue_length: NonZeroU16)
    ensures
        ({
            let ahead = queue_length.value() - 1;
            status_text(DeckStatus::Waiting { queue_length }) == "Waiting\u{2026} ("@ + decimal::decimal(ahead as nat)
                + if ahead == 1 {
                " deck ahead of this one)"@
            } else {
                " decks ahead of this one)"@
            }
        }),
{
    reveal_strlit(" deck");
    reveal_strlit("");
    reveal_strlit("s");
    reveal_strlit(" ahead of this one)");
    reveal_strlit(" deck ahead of this one)");
    reveal_strlit(" decks ahead of this one)");
    let start = "Waiting\u{2026} ("@ + decimal::decimal((queue_length.value() - 1) as nat);
    assert(start + " deck"@ + ""@ + " ahead of this one)"@ =~= start + " deck ahead of this one)"@);
    assert(start + " deck"@ + "s"@ + " ahead of this one)"@ =~= start + " decks ahead of this one)"@);
}

/// What is said of a deck in any other state, and which states have a bar.
pub proof fn states_are_named(complete: u16, total: NonZeroU16)
    ensures
        status_text(DeckStatus::Loading) == "Loading\u{2026}"@,
        status_text(DeckStatus::RenderingCards { complete, total }) == "Loading cards"@,
        status_text(DeckStatus::RenderingPages { complete, total }) == "Saving page image"@,
        status_text(DeckStatus::Complete) == Seq::<char>::empty(),
        status_progress(DeckStatus::RenderingCards { complete, total }) == Some((complete, total.value())),
        status_progress(DeckStatus::RenderingPages { complete, total }) == Some((complete, total.value())),
        status_progress(DeckStatus::Loading) is None,
        status_progress(DeckStatus::Complete) is None,
{
}

/// A section of a background has its color in full in its middle half, but that the first section begins and the
/// last one ends with its color.
pub proof fn sections_fill_their_middle(k: int, n: int)
    requires
        0 <= k < n,
    ensures
        full_from(0, n) == 0,
        full_to(n - 1, n) == 100,
        k > 0 ==> -n <= 2 * (100 * k + 25 - n * full_from(k, n)) <= n,
        k < n - 1 ==> -n <= 2 * (100 * k + 75 - n * full_to(k, n)) <= n,
{
    rounding_is_to_nearest(100 * k + 25, n);
    rounding_is_to_nearest(100 * (k + 1) - 25, n);
}

/// A background is written as its sections, one behind the other, each with its color and where it is in full.
pub proof fn background_lists_sections(ci: DeckColorIdentity, colors: Seq<Rgb>, k: int)
    requires
        0 <= k < colors.len(),
    ensures
        background_css(ci) == "background: #eee; background: linear-gradient(120deg"@ + sections_css(
            sections(ci),
            sections(ci).len() as int,
        ) + ");"@,
        sections_css(colors, 0) == Seq::<char>::empty(),
        sections_css(colors, k + 1) == sections_css(colors, k) + (", rgba("@ + decimal::decimal(colors[k].0 as nat)
            + ","@ + decimal::decimal(colors[k].1 as nat) + ","@ + decimal::decimal(colors[k].2 as nat) + ",0.20) "@
            + decimal::decimal(full_from(k, colors.len() as int) as nat) + "% "@ + decimal::decimal(
            full_to(k, colors.len() as int) as nat,
        ) + "%"@),
{
}

/// A list has decks exactly where they are loaded.
pub proof fn loaded_lists_have_decks<E>(decks: Vec<DeckInfo>, e: E)
    ensures
        loaded(RemoteResource::<Vec<DeckInfo>, E>::Loaded(decks)) == Some(decks@),
        loaded(RemoteResource::<Vec<DeckInfo>, E>::Loading) is None,
        loaded(RemoteResource::<Vec<DeckInfo>, E>::Error(e)) is None,
{
}

/// What the user asks for, and a fatal error, leave the decks of a list as they are until the server has news; the
/// list is shown anew where a deck is to be deleted.
pub proof fn decks_stay_until_there_is_news(decks: Seq<DeckInfo>, id: DeckId, msg: Msg, d: DeckInfo)
    requires
        msg == Msg::DeleteDeck(id) || msg == Msg::RebuildDeck(id) || (msg is FromServer && msg->FromServer_0
            is FatalError),
    ensures
        decks_after(None, msg) is None,
        decks_after(Some(decks), msg) is Some,
        decks_after(Some(decks), msg)->0.len() == decks.len(),
        decks_after(Some(decks), msg)->0.contains(d) <==> decks.contains(d),
        rendered_after(Some(decks), msg) <==> msg == Msg::DeleteDeck(id),
{
    by_title_keeps(decks, d);
    by_title_permutes(decks);
}

} // verus!
