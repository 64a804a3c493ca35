//! The file with all of Scryfall's cards.
use crate::json::{first_json, Json, JsonView};
use crate::text;
use vstd::prelude::*;
use vstd::string::StringSliceAdditionalSpecFns;

verus! {

/// How old the file may grow: 23 hours, in seconds.
pub const CUTOFF_SECONDS: u64 = 82_800;

/// Whether the file has to be downloaded: where that is forced, where it is missing, and where it
/// is too old. The times are in nanoseconds.
pub fn should_download(force: bool, modified: Option<i128>, now: i128) -> (r: bool)
    requires
        now >= i64::MIN,
    ensures
        r == (force || modified is None || modified->0 < now - CUTOFF_SECONDS * 1_000_000_000),
{
    if force {
        return true;
    }
    match modified {
        None => true,
        Some(m) => m < now - CUTOFF_SECONDS as i128 * 1_000_000_000,
    }
}

/// How many cards to expect, for a number of cards that are known: fifty thousand at least.
pub fn estimated_count(known: i64) -> (r: u64)
    ensures
        r == if known > 50_000 {
            known as int
        } else {
            50_000
        },
{
    if known > 50_000 {
        known as u64
    } else {
        50_000
    }
}

/// Why the file could not be read.
#[derive(Clone, Copy, Debug, PartialEq, Eq, Structural)]
pub enum BulkError {
    /// No JSON value stands at this position.
    BadJson(usize),
}

/// Reads the cards of the file one after the other. The file is an array: before each card stands
/// one byte, a bracket or a comma.
pub struct BulkCards {
    /// Where the byte before the next card stands.
    pub position: usize,
    /// How many cards were read.
    pub seen_cards: u64,
}

/// What reading on from a position gives: the next card and the position behind it, none at the end
/// of the file, or an error.
pub open spec fn next_card(bytes: Seq<u8>, position: int) -> Option<Result<(JsonView, int), BulkError>> {
    if position + 2 >= bytes.len() {
        None
    } else {
        match first_json(bytes.skip(position + 1)) {
            Some((card, n)) => Some(Ok((card, position + 1 + n))),
            None => Some(Err(BulkError::BadJson((position + 1) as usize))),
        }
    }
}

impl BulkCards {
    /// Nothing was read yet.
    pub fn new() -> (r: BulkCards)
        ensures
            r.position == 0,
            r.seen_cards == 0,
    {
        BulkCards { position: 0, seen_cards: 0 }
    }

    /// The next card; none at the end of the file.
    pub fn next(&mut self, bytes: &[u8]) -> (r: Option<Result<Json, BulkError>>)
        requires
            old(self).position <= bytes@.len(),
            old(self).seen_cards <= old(self).position,
        ensures
            final(self).position <= bytes@.len(),
            final(self).seen_cards <= final(self).position,
            match next_card(bytes@, old(self).position as int) {
                None => r is None && *final(self) == *old(self),
                Some(Err(e)) => r == Some(Err::<Json, BulkError>(e)) && *final(self) == *old(self),
                Some(Ok((card, position))) => {
                    &&& r is Some
                    &&& r->0 is Ok
                    &&& r->0->Ok_0@ == card
                    &&& final(self).position == position
                    &&& final(self).position > old(self).position
                    &&& final(self).seen_cards == old(self).seen_cards + 1
                },
            },
    {
        if bytes.len() - self.position <= 2 {
            return None;
        }
        match Json::parse_at(bytes, self.position + 1) {
            None => Some(Err(BulkError::BadJson(self.position + 1))),
            Some((card, end)) => {
                self.position = end;
                self.seen_cards = self.seen_cards + 1;
                Some(Ok(card))
            },
        }
    }
}

/// The cards of the file from a position on, up to its end or to the first error.
pub open spec fn cards_from(bytes: Seq<u8>, position: int) -> Result<Seq<JsonView>, BulkError>
    decreases bytes.len() - position,
{
    match next_card(bytes, position) {
        None => Ok(Seq::empty()),
        Some(Err(e)) => Err(e),
        Some(Ok((card, next))) => if next <= position || next > bytes.len() {
            Ok(seq![card])
        } else {
            match cards_from(bytes, next) {
                Ok(rest) => Ok(seq![card] + rest),
                Err(e) => Err(e),
            }
        },
    }
}

/// All cards of the file.
pub fn read_all(bytes: &[u8]) -> (r: Result<Vec<Json>, BulkError>)
    ensures
        match r {
            Ok(v) => cards_from(bytes@, 0) == Ok::<Seq<JsonView>, BulkError>(v@.map_values(|j: Json| j@)),
            Err(e) => cards_from(bytes@, 0) == Err::<Seq<JsonView>, BulkError>(e),
        },
{
    let mut reader = BulkCards::new();
    let mut out: Vec<Json> = Vec::new();
    let ghost all = cards_from(bytes@, 0);
    proof {
        assert(out@.map_values(|j: Json| j@) =~= Seq::empty());
        if all is Ok {
            assert(Seq::<JsonView>::empty() + all->Ok_0 =~= all->Ok_0);
        }
    }
    loop
        invariant
            reader.position <= bytes@.len(),
            reader.seen_cards <= reader.position,
            all == cards_from(bytes@, 0),
            match cards_from(bytes@, reader.position as int) {
                Err(e) => all == Err::<Seq<JsonView>, BulkError>(e),
                Ok(rest) => all == Ok::<Seq<JsonView>, BulkError>(out@.map_values(|j: Json| j@) + rest),
            },
        decreases bytes@.len() - reader.position,
    {
        let ghost position = reader.position;
        let ghost before = out@.map_values(|j: Json| j@);
        match reader.next(bytes) {
            None => {
                assert(before + Seq::<JsonView>::empty() =~= before);
                return Ok(out);
            },
            Some(Err(e)) => {
                return Err(e);
            },
            Some(Ok(card)) => {
                out.push(card);
                proof {
                    assert(out@.map_values(|j: Json| j@) =~= before.push(card@));
                    let tail = cards_from(bytes@, reader.position as int);
                    if tail is Ok {
                        assert(out@.map_values(|j: Json| j@) + tail->Ok_0 =~= before + (seq![card@] + tail->Ok_0));
                    }
                }
            },
        }
    }
}

/// How many cards to show as the total, once more were seen than that.
pub fn adjusted_total(total: u64, seen_cards: u64) -> (r: u64)
    requires
        total + seen_cards <= u64::MAX,
    ensures
        r == if seen_cards > total {
            total + seen_cards
        } else {
            total as int
        },
{
    if seen_cards > total {
        total + seen_cards
    } else {
        total
    }
}

/// A text with blanks before it, so that it has at least a number of characters.
pub open spec fn right_aligned(s: Seq<char>, width: nat) -> Seq<char> {
    if s.len() < width {
        Seq::new((width - s.len()) as nat, |i: int| ' ') + s
    } else {
        s
    }
}

/// A text with blanks behind it, so that it has at least a number of characters.
pub open spec fn left_aligned(s: Seq<char>, width: nat) -> Seq<char> {
    if s.len() < width {
        s + Seq::new((width - s.len()) as nat, |i: int| ' ')
    } else {
        s
    }
}

fn blanks(n: usize) -> (r: String)
    ensures
        r@ == Seq::new(n as nat, |i: int| ' '),
{
    let mut r = String::new();
    let mut i: usize = 0;
    while i < n
        invariant
            i <= n,
            r@ == Seq::new(i as nat, |i: int| ' '),
        decreases n - i,
    {
        r.push(' ');
        i = i + 1;
        assert(r@ =~= Seq::new(i as nat, |i: int| ' '));
    }
    r
}

fn align_right(s: &str, width: usize) -> (r: String)
    ensures
        r@ == right_aligned(s@, width as nat),
{
    let n: usize = text::to_chars(s).len();
    if n < width {
        text::concat2(blanks(width - n).as_str(), s)
    } else {
        s.to_string()
    }
}

fn align_left(s: &str, width: usize) -> (r: String)
    ensures
        r@ == left_aligned(s@, width as nat),
{
    let n: usize = text::to_chars(s).len();
    if n < width {
        text::concat2(s, blanks(width - n).as_str())
    } else {
        s.to_string()
    }
}

/// Whether a text can be cut behind its 30th byte: it has no more, or a character ends there.
pub open spec fn can_be_cut(s: Seq<char>) -> bool {
    let b = vstd::utf8::encode_utf8(s);
    b.len() > 30 ==> vstd::utf8::is_char_boundary(b, 30)
}

/// A text up to its 30th byte.
pub open spec fn cut(s: Seq<char>) -> Seq<char> {
    let b = vstd::utf8::encode_utf8(s);
    if b.len() > 30 {
        vstd::utf8::decode_utf8(b.subrange(0, 30))
    } else {
        s
    }
}

/// A text of a card, or what stands in for it.
pub open spec fn shown(card: JsonView, field: Seq<char>, unknown: Seq<char>) -> Seq<char> {
    match card.text_of(field) {
        Some(s) => s,
        None => unknown,
    }
}

/// What is said of a card while the file is read.
pub open spec fn message(card: JsonView) -> Seq<char> {
    right_aligned(shown(card, "released_at"@, "????-??-??"@), 10) + " "@ + right_aligned(
        "["@ + shown(card, "set"@, "???"@) + "]"@,
        7,
    ) + " "@ + left_aligned(cut(shown(card, "set_name"@, "<unknown set>"@)), 30) + " | "@ + left_aligned(
        cut(shown(card, "name"@, "<unknown card>"@)),
        30,
    ) + " "@
}

fn show(card: &Json, field: &str, unknown: &str) -> (r: String)
    ensures
        r@ == shown(card@, field@, unknown@),
{
    match card.text_of(field) {
        Some(s) => s.to_string(),
        None => unknown.to_string(),
    }
}

fn cut_text(s: &str) -> (r: String)
    requires
        can_be_cut(s@),
    ensures
        r@ == cut(s@),
{
    if s.as_bytes().len() > 30 {
        let (head, _) = s.split_at(30);
        proof {
            vstd::utf8::encode_utf8_decode_utf8(head@);
        }
        head.to_string()
    } else {
        s.to_string()
    }
}

/// Whether a text can be cut behind its 30th byte.
fn check_cut(s: &str) -> (r: bool)
    ensures
        r == can_be_cut(s@),
{
    s.as_bytes().len() <= 30 || s.is_char_boundary(30)
}

/// Whether a card's name and the name of its set can be cut for the message.
pub open spec fn has_message(card: JsonView) -> bool {
    can_be_cut(shown(card, "set_name"@, "<unknown set>"@)) && can_be_cut(
        shown(card, "name"@, "<unknown card>"@),
    )
}

/// Whether a card's name and the name of its set can be cut for the message.
pub fn can_show(card: &Json) -> (r: bool)
    ensures
        r == has_message(card@),
{
    check_cut(show(card, "set_name", "<unknown set>").as_str()) && check_cut(
        show(card, "name", "<unknown card>").as_str(),
    )
}

/// What is said of a card while the file is read.
pub fn progress_message(card: &Json) -> (r: String)
    requires
        has_message(card@),
    ensures
        r@ == message(card@),
{
    let released_at = show(card, "released_at", "????-??-??");
    let set_code = text::concat3("[", show(card, "set", "???").as_str(), "]");
    let set_name = cut_text(show(card, "set_name", "<unknown set>").as_str());
    let name = cut_text(show(card, "name", "<unknown card>").as_str());
    let mut m = align_right(released_at.as_str(), 10);
    m.append(" ");
    m.append(align_right(set_code.as_str(), 7).as_str());
    m.append(" ");
    m.append(align_left(set_name.as_str(), 30).as_str());
    m.append(" | ");
    m.append(align_left(name.as_str(), 30).as_str());
    m.append(" ");
    m
}

/// The cards of the file follow each other with one byte before each; the file ends where no more than two bytes
/// are left, and what is no JSON before that is a problem at its place.
pub proof fn cards_follow_each_other(bytes: Seq<u8>, position: int, card: JsonView, n: int)
    requires
        0 <= position <= bytes.len(),
    ensures
        bytes.len() - position <= 2 ==> cards_from(bytes, position) == Ok::<Seq<JsonView>, BulkError>(Seq::empty()),
        bytes.len() - position > 2 && first_json(bytes.skip(position + 1)) is None ==> cards_from(bytes, position)
            == Err::<Seq<JsonView>, BulkError>(BulkError::BadJson((position + 1) as usize)),
        bytes.len() - position > 2 && first_json(bytes.skip(position + 1)) == Some((card, n)) && 0 < n <= bytes.len()
            - position - 1 ==> match cards_from(bytes, position + 1 + n) {
            Ok(rest) => cards_from(bytes, position) == Ok::<Seq<JsonView>, BulkError>(seq![card] + rest),
            Err(e) => cards_from(bytes, position) == Err::<Seq<JsonView>, BulkError>(e),
        },
{
}

/// An aligned text keeps its characters and has at least the width that is asked for.
pub proof fn aligned_texts_keep_theirs(s: Seq<char>, width: nat)
    ensures
        right_aligned(s, width).len() == if s.len() < width {
            width
        } else {
            s.len()
        },
        left_aligned(s, width).len() == right_aligned(s, width).len(),
        right_aligned(s, width).skip(right_aligned(s, width).len() - s.len()) == s,
        left_aligned(s, width).take(s.len() as int) == s,
        forall|i: int|
            0 <= i < right_aligned(s, width).len() - s.len() ==> #[trigger] right_aligned(s, width)[i] == ' ',
        forall|i: int|
            s.len() <= i < left_aligned(s, width).len() ==> #[trigger] left_aligned(s, width)[i] == ' ',
{
    assert(right_aligned(s, width).skip(right_aligned(s, width).len() - s.len()) =~= s);
    assert(left_aligned(s, width).take(s.len() as int) =~= s);
}

/// The file may grow 23 hours old.
pub proof fn file_may_grow_old()
    ensures
        CUTOFF_SECONDS == 23 * 60 * 60,
{
}

/// A text that is cut keeps its first 30 bytes, and one with no more stays whole.
pub proof fn cut_texts_keep_their_start(s: Seq<char>)
    requires
        can_be_cut(s),
    ensures
        vstd::utf8::encode_utf8(s).len() <= 30 ==> cut(s) == s,
        vstd::utf8::encode_utf8(s).len() > 30 ==> cut(s) == vstd::utf8::decode_utf8(
            vstd::utf8::encode_utf8(s).take(30),
        ),
{
    let b = vstd::utf8::encode_utf8(s);
    if b.len() > 30 {
        assert(b.subrange(0, 30) =~= b.take(30));
    }
}

/// Of a card it is said when it was released, what its set is called in short and in full, and what it is called.
pub proof fn message_names_the_card(
    card: JsonView,
    released: Seq<char>,
    set: Seq<char>,
    set_name: Seq<char>,
    name: Seq<char>,
)
    requires
        card.get("released_at"@) == Some(JsonView::Text(released)),
        card.get("set"@) == Some(JsonView::Text(set)),
        card.get("set_name"@) == Some(JsonView::Text(set_name)),
        card.get("name"@) == Some(JsonView::Text(name)),
    ensures
        message(card) == right_aligned(released, 10) + " "@ + right_aligned("["@ + set + "]"@, 7) + " "@ + left_aligned(
            cut(set_name),
            30,
        ) + " | "@ + left_aligned(cut(name), 30) + " "@,
        has_message(card) <==> can_be_cut(set_name) && can_be_cut(name),
{
}

/// What stands in for a text that a card does not have.
pub proof fn message_without_texts(card: JsonView)
    requires
        card.get("released_at"@) is None,
        card.get("set"@) is None,
        card.get("set_name"@) is None,
        card.get("name"@) is None,
    ensures
        message(card) == right_aligned("????-??-??"@, 10) + " "@ + right_aligned("["@ + "???"@ + "]"@, 7) + " "@
            + left_aligned(cut("<unknown set>"@), 30) + " | "@ + left_aligned(cut("<unknown card>"@), 30) + " "@,
{
}

} // verus!
