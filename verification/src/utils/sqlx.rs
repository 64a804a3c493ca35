//! One-dimensional arrays in the binary format of PostgreSQL.
//!
//! An array is a run of big-endian 32-bit words and element bytes: the number of dimensions, a
//! flags word, the type of the elements, their number, the index of the first one, and then each
//! element as its length followed by that many bytes. The length `0xffff_ffff` stands for a null
//! element.
use crate::text;
use vstd::prelude::*;

verus! {

/// The length word of a null element.
pub const NULL_LENGTH: u32 = 0xffff_ffff;

/// Why one element could not be read.
#[derive(Clone, Copy, Debug, PartialEq, Eq, Structural)]
pub enum ElementError {
    /// A null stands where the type has none.
    UnexpectedNull,
    /// The bytes are no value of the type.
    Malformed,
}

/// Why an array could not be read.
#[derive(Clone, Copy, Debug, PartialEq, Eq, Structural)]
pub enum DecodeError {
    /// A word was due where fewer than four bytes are left.
    TooShort,
    /// An array without dimensions is followed by this many bytes, and not by eight.
    EmptyArrayLength(usize),
    /// The array has this many dimensions.
    Dimensions(u32),
    /// The elements are of another type.
    ElementType { expected_type: u32, found_type: u32 },
    /// An element could not be read.
    Element(ElementError),
    /// The array announces another number of elements than it holds.
    Count { expected: u32, found: usize },
}

/// A type that an element of an array can have.
pub trait PgElement: Sized {
    /// What a value stands for.
    type Val;

    spec fn val(&self) -> Self::Val;

    /// The type's object identifier.
    spec fn oid() -> u32;

    /// The value that some bytes encode.
    spec fn of_bytes(raw: Seq<u8>) -> Result<Self::Val, ElementError>;

    /// The value that stands for null.
    spec fn of_null() -> Result<Self::Val, ElementError>;

    fn type_oid() -> (r: u32)
        ensures
            r == Self::oid(),
    ;

    fn decode(raw: &[u8]) -> (r: Result<Self, ElementError>)
        ensures
            match r {
                Ok(v) => Self::of_bytes(raw@) == Ok::<Self::Val, ElementError>(v.val()),
                Err(e) => Self::of_bytes(raw@) == Err::<Self::Val, ElementError>(e),
            },
    ;

    fn decode_null() -> (r: Result<Self, ElementError>)
        ensures
            match r {
                Ok(v) => Self::of_null() == Ok::<Self::Val, ElementError>(v.val()),
                Err(e) => Self::of_null() == Err::<Self::Val, ElementError>(e),
            },
    ;
}

/// The big-endian 32-bit word at the start of some bytes.
pub open spec fn word(b: Seq<u8>) -> u32 {
    (b[0] * 0x100_0000 + b[1] * 0x1_0000 + b[2] * 0x100 + b[3]) as u32
}

/// The same four bytes as a number in two's complement.
pub open spec fn signed_word(b: Seq<u8>) -> i32 {
    if word(b) < 0x8000_0000 {
        word(b) as i32
    } else {
        (word(b) - 0x1_0000_0000) as i32
    }
}

impl PgElement for i32 {
    type Val = i32;

    open spec fn val(&self) -> i32 {
        *self
    }

    open spec fn oid() -> u32 {
        23
    }

    open spec fn of_bytes(raw: Seq<u8>) -> Result<i32, ElementError> {
        if raw.len() == 4 {
            Ok(signed_word(raw))
        } else {
            Err(ElementError::Malformed)
        }
    }

    open spec fn of_null() -> Result<i32, ElementError> {
        Err(ElementError::UnexpectedNull)
    }

    fn type_oid() -> u32 {
        23
    }

    fn decode(raw: &[u8]) -> Result<i32, ElementError> {
        if raw.len() == 4 {
            let w: u32 = read_word(raw, 0);
            assert(raw@.skip(0) =~= raw@);
            if w < 0x8000_0000 {
                Ok(w as i32)
            } else {
                Ok((w as i64 - 0x1_0000_0000) as i32)
            }
        } else {
            Err(ElementError::Malformed)
        }
    }

    fn decode_null() -> Result<i32, ElementError> {
        Err(ElementError::UnexpectedNull)
    }
}

impl PgElement for String {
    type Val = Seq<char>;

    open spec fn val(&self) -> Seq<char> {
        self@
    }

    open spec fn oid() -> u32 {
        25
    }

    open spec fn of_bytes(raw: Seq<u8>) -> Result<Seq<char>, ElementError> {
        if vstd::utf8::valid_utf8(raw) {
            Ok(vstd::utf8::decode_utf8(raw))
        } else {
            Err(ElementError::Malformed)
        }
    }

    open spec fn of_null() -> Result<Seq<char>, ElementError> {
        Err(ElementError::UnexpectedNull)
    }

    fn type_oid() -> u32 {
        25
    }

    fn decode(raw: &[u8]) -> Result<String, ElementError> {
        match text::utf8_text(raw) {
            Some(s) => Ok(s),
            None => Err(ElementError::Malformed),
        }
    }

    fn decode_null() -> Result<String, ElementError> {
        Err(ElementError::UnexpectedNull)
    }
}

impl<T: PgElement> PgElement for Option<T> {
    type Val = Option<T::Val>;

    open spec fn val(&self) -> Option<T::Val> {
        match *self {
            Some(v) => Some(v.val()),
            None => None,
        }
    }

    open spec fn oid() -> u32 {
        T::oid()
    }

    open spec fn of_bytes(raw: Seq<u8>) -> Result<Option<T::Val>, ElementError> {
        match T::of_bytes(raw) {
            Ok(v) => Ok(Some(v)),
            Err(e) => Err(e),
        }
    }

    open spec fn of_null() -> Result<Option<T::Val>, ElementError> {
        Ok(None)
    }

    fn type_oid() -> u32 {
        T::type_oid()
    }

    fn decode(raw: &[u8]) -> Result<Option<T>, ElementError> {
        match T::decode(raw) {
            Ok(v) => Ok(Some(v)),
            Err(e) => Err(e),
        }
    }

    fn decode_null() -> Result<Option<T>, ElementError> {
        Ok(None)
    }
}

/// The bytes after the first element of a non-empty run of elements.
pub open spec fn after_element(b: Seq<u8>) -> Seq<u8> {
    if word(b) == NULL_LENGTH {
        b.skip(4)
    } else {
        b.skip(4 + word(b))
    }
}

/// The value of the first element of a non-empty run of elements.
pub open spec fn first_element<T: PgElement>(b: Seq<u8>) -> Result<T::Val, ElementError> {
    if word(b) == NULL_LENGTH {
        T::of_null()
    } else {
        T::of_bytes(b.subrange(4, 4 + word(b)))
    }
}

/// Whether no element of the run announces more bytes than are left. Only the elements up to the first one that
/// cannot be read count.
pub open spec fn elements_fit<T: PgElement>(b: Seq<u8>) -> bool
    decreases b.len(),
{
    if b.len() < 4 {
        true
    } else if word(b) != NULL_LENGTH && 4 + word(b) > b.len() {
        false
    } else if first_element::<T>(b) is Err {
        true
    } else {
        elements_fit::<T>(after_element(b))
    }
}

/// The values of a run of elements, or what is wrong with the first one that cannot be read.
pub open spec fn elements<T: PgElement>(b: Seq<u8>) -> Result<Seq<T::Val>, DecodeError>
    decreases b.len(),
{
    if b.len() == 0 {
        Ok(Seq::empty())
    } else if b.len() < 4 {
        Err(DecodeError::TooShort)
    } else if word(b) != NULL_LENGTH && 4 + word(b) > b.len() {
        Err(DecodeError::TooShort)
    } else {
        match first_element::<T>(b) {
            Err(e) => Err(DecodeError::Element(e)),
            Ok(v) => match elements::<T>(after_element(b)) {
                Err(e) => Err(e),
                Ok(rest) => Ok(seq![v] + rest),
            },
        }
    }
}

/// Where the run of elements starts.
pub const HEADER_LENGTH: usize = 20;

/// Whether the elements of an array are read: it has one dimension, elements of the type, and a whole header.
pub open spec fn elements_are_read<T: PgElement>(b: Seq<u8>) -> bool {
    b.len() >= HEADER_LENGTH && word(b) == 1 && word(b.skip(8)) == T::oid()
}

/// Whether the bytes of an array can be read without running over the end of an element.
pub open spec fn array_fits<T: PgElement>(b: Seq<u8>) -> bool {
    elements_are_read::<T>(b) ==> elements_fit::<T>(b.skip(HEADER_LENGTH as int))
}

/// The values of an array, or what is wrong with it.
pub open spec fn array<T: PgElement>(b: Seq<u8>) -> Result<Seq<T::Val>, DecodeError> {
    if b.len() < 4 {
        Err(DecodeError::TooShort)
    } else if word(b) == 0 {
        if b.len() == 12 {
            Ok(Seq::empty())
        } else {
            Err(DecodeError::EmptyArrayLength((b.len() - 4) as usize))
        }
    } else if word(b) != 1 {
        Err(DecodeError::Dimensions(word(b)))
    } else if b.len() < 12 {
        Err(DecodeError::TooShort)
    } else if word(b.skip(8)) != T::oid() {
        Err(DecodeError::ElementType { expected_type: T::oid(), found_type: word(b.skip(8)) })
    } else if b.len() < HEADER_LENGTH {
        Err(DecodeError::TooShort)
    } else {
        match elements::<T>(b.skip(HEADER_LENGTH as int)) {
            Err(e) => Err(e),
            Ok(values) => if values.len() == word(b.skip(12)) {
                Ok(values)
            } else {
                Err(DecodeError::Count { expected: word(b.skip(12)), found: values.len() as usize })
            },
        }
    }
}

/// What the elements of a vector stand for.
pub open spec fn vals<T: PgElement>(v: Seq<T>) -> Seq<T::Val> {
    v.map_values(|t: T| t.val())
}

/// The word at some position.
fn read_word(raw: &[u8], at: usize) -> (r: u32)
    requires
        at + 4 <= raw@.len(),
    ensures
        r == word(raw@.skip(at as int)),
{
    raw[at] as u32 * 0x100_0000 + raw[at + 1] as u32 * 0x1_0000 + raw[at + 2] as u32 * 0x100 + raw[at
        + 3] as u32
}

/// A one-dimensional array.
#[derive(Clone, Debug)]
pub struct PgArray1D<T> {
    inner: Vec<T>,
}

impl<T> View for PgArray1D<T> {
    type V = Seq<T>;

    closed spec fn view(&self) -> Seq<T> {
        self.inner@
    }
}

impl<T> PgArray1D<T> {
    /// The elements.
    pub fn get(self) -> (r: Vec<T>)
        ensures
            r@ == self@,
    {
        self.inner
    }
}

impl<T: PgElement> PgArray1D<T> {
    /// Reads one element.
    pub fn decode_elem(raw: &[u8]) -> (r: Result<T, DecodeError>)
        ensures
            match r {
                Ok(v) => T::of_bytes(raw@) == Ok::<T::Val, ElementError>(v.val()),
                Err(e) => e is Element && T::of_bytes(raw@) == Err::<T::Val, ElementError>(e->Element_0),
            },
    {
        match T::decode(raw) {
            Ok(v) => Ok(v),
            Err(e) => Err(DecodeError::Element(e)),
        }
    }

    /// Whether the bytes can be read without running over the end of an element.
    pub fn fits(raw: &[u8]) -> (r: bool)
        ensures
            r == array_fits::<T>(raw@),
    {
        assert(raw@.skip(0) =~= raw@);
        if raw.len() < HEADER_LENGTH || read_word(raw, 0) != 1 || read_word(raw, 8) != T::type_oid() {
            return true;
        }
        let mut at: usize = HEADER_LENGTH;
        while raw.len() - at >= 4
            invariant
                HEADER_LENGTH <= at <= raw@.len(),
                elements_are_read::<T>(raw@),
                array_fits::<T>(raw@) == elements_fit::<T>(raw@.skip(at as int)),
            decreases raw.len() - at,
        {
            let ghost rest = raw@.skip(at as int);
            let len: u32 = read_word(raw, at);
            at = at + 4;
            let readable = if len == NULL_LENGTH {
                assert(rest.skip(4) =~= raw@.skip(at as int));
                T::decode_null().is_ok()
            } else if len as usize > raw.len() - at {
                return false;
            } else {
                let from: usize = at;
                at = at + len as usize;
                let elem_bytes = vstd::slice::slice_subrange(raw, from, at);
                assert(elem_bytes@ =~= rest.subrange(4, 4 + word(rest)));
                assert(rest.skip(4 + word(rest)) =~= raw@.skip(at as int));
                T::decode(elem_bytes).is_ok()
            };
            if !readable {
                return true;
            }
        }
        true
    }

    /// Reads an array.
    pub fn decode_bytes(raw: &[u8]) -> (r: Result<Self, DecodeError>)
        requires
            array_fits::<T>(raw@),
        ensures
            match r {
                Ok(a) => array::<T>(raw@) == Ok::<Seq<T::Val>, DecodeError>(vals(a@)),
                Err(e) => array::<T>(raw@) == Err::<Seq<T::Val>, DecodeError>(e),
            },
    {
        if raw.len() < 4 {
            return Err(DecodeError::TooShort);
        }
        assert(raw@.skip(0) =~= raw@);
        let ndim: u32 = read_word(raw, 0);
        if ndim == 0 {
            if raw.len() != 12 {
                return Err(DecodeError::EmptyArrayLength(raw.len() - 4));
            }
            let inner: Vec<T> = Vec::new();
            assert(vals(inner@) =~= Seq::empty());
            return Ok(PgArray1D { inner });
        }
        if ndim != 1 {
            return Err(DecodeError::Dimensions(ndim));
        }
        if raw.len() < 12 {
            return Err(DecodeError::TooShort);
        }
        let oid: u32 = read_word(raw, 8);
        let expected_oid: u32 = T::type_oid();
        if oid != expected_oid {
            return Err(DecodeError::ElementType { expected_type: expected_oid, found_type: oid });
        }
        if raw.len() < HEADER_LENGTH {
            return Err(DecodeError::TooShort);
        }
        let expected_len: u32 = read_word(raw, 12);
        let ghost all = elements::<T>(raw@.skip(HEADER_LENGTH as int));
        let mut at: usize = HEADER_LENGTH;
        let mut elems: Vec<T> = Vec::new();
        proof {
            assert(vals(elems@) =~= Seq::empty());
            if all is Ok {
                assert(vals(elems@) + all->Ok_0 =~= all->Ok_0);
            }
        }
        while at < raw.len()
            invariant
                HEADER_LENGTH <= at <= raw@.len(),
                raw@.len() >= HEADER_LENGTH,
                word(raw@) == 1,
                word(raw@.skip(8)) == T::oid(),
                all == elements::<T>(raw@.skip(HEADER_LENGTH as int)),
                elements_fit::<T>(raw@.skip(at as int)),
                match elements::<T>(raw@.skip(at as int)) {
                    Err(e) => all == Err::<Seq<T::Val>, DecodeError>(e),
                    Ok(rest) => all == Ok::<Seq<T::Val>, DecodeError>(vals(elems@) + rest),
                },
            decreases raw.len() - at,
        {
            let ghost rest = raw@.skip(at as int);
            let ghost before = elems@;
            if raw.len() - at < 4 {
                return Err(DecodeError::TooShort);
            }
            let len: u32 = read_word(raw, at);
            at = at + 4;
            let val = if len == NULL_LENGTH {
                assert(rest.skip(4) =~= raw@.skip(at as int));
                match T::decode_null() {
                    Ok(v) => v,
                    Err(e) => {
                        return Err(DecodeError::Element(e));
                    },
                }
            } else {
                let from: usize = at;
                assert(4 + word(rest) <= rest.len());
                at = at + len as usize;
                let elem_bytes = vstd::slice::slice_subrange(raw, from, at);
                assert(elem_bytes@ =~= rest.subrange(4, 4 + word(rest)));
                assert(rest.skip(4 + word(rest)) =~= raw@.skip(at as int));
                match Self::decode_elem(elem_bytes) {
                    Ok(v) => v,
                    Err(e) => {
                        return Err(e);
                    },
                }
            };
            elems.push(val);
            proof {
                assert(vals(elems@) =~= vals(before).push(val.val()));
                let tail = elements::<T>(raw@.skip(at as int));
                if tail is Ok {
                    assert(vals(elems@) + tail->Ok_0 =~= vals(before) + (seq![val.val()] + tail->Ok_0));
                }
            }
        }
        assert(vals(elems@) + Seq::<T::Val>::empty() =~= vals(elems@));
        if expected_len as u64 != elems.len() as u64 {
            return Err(DecodeError::Count { expected: expected_len, found: elems.len() });
        }
        Ok(PgArray1D { inner: elems })
    }

    /// Reads an array. One that cannot be read counts as empty.
    pub fn decode(raw: &[u8]) -> (r: Result<Self, DecodeError>)
        requires
            array_fits::<T>(raw@),
        ensures
            r is Ok,
            match array::<T>(raw@) {
                Ok(values) => vals(r->Ok_0@) == values,
                Err(_) => r->Ok_0@.len() == 0,
            },
    {
        match Self::decode_bytes(raw) {
            Ok(array) => Ok(array),
            Err(_) => Ok(PgArray1D { inner: Vec::new() }),
        }
    }
}

/// The four bytes of a word, the highest first.
pub open spec fn word_bytes(n: u32) -> Seq<u8> {
    seq![
        (n as int / 0x100_0000) as u8,
        (n as int / 0x1_0000 % 0x100) as u8,
        (n as int / 0x100 % 0x100) as u8,
        (n as int % 0x100) as u8,
    ]
}

/// An element as it is sent: its length and its bytes, or the mark of a null.
pub open spec fn sent_element(e: Option<Seq<u8>>) -> Seq<u8> {
    match e {
        Some(raw) => word_bytes(raw.len() as u32) + raw,
        None => word_bytes(0xffff_ffff),
    }
}

/// Elements as they are sent, one behind the other.
pub open spec fn sent_elements(es: Seq<Option<Seq<u8>>>) -> Seq<u8>
    decreases es.len(),
{
    if es.len() == 0 {
        Seq::empty()
    } else {
        sent_element(es[0]) + sent_elements(es.drop_first())
    }
}

/// An array as it is sent: one dimension, flags, the type of its elements, their number, the index of the first
/// one, and the elements.
pub open spec fn sent_array(flags: u32, oid: u32, lower: u32, es: Seq<Option<Seq<u8>>>) -> Seq<u8> {
    word_bytes(1) + word_bytes(flags) + word_bytes(oid) + word_bytes(es.len() as u32) + word_bytes(lower)
        + sent_elements(es)
}

/// What an element that is sent stands for.
pub open spec fn sent_value<T: PgElement>(e: Option<Seq<u8>>) -> Result<T::Val, ElementError> {
    match e {
        Some(raw) => T::of_bytes(raw),
        None => T::of_null(),
    }
}

/// The bytes of a word are read as the word.
pub proof fn word_undoes_bytes(n: u32, rest: Seq<u8>)
    ensures
        word(word_bytes(n) + rest) == n,
        word_bytes(n).len() == 4,
{
    let m = n as int;
    let b = word_bytes(n) + rest;
    assert(b[0] == (m / 0x100_0000) as u8 && b[1] == (m / 0x1_0000 % 0x100) as u8);
    assert(b[2] == (m / 0x100 % 0x100) as u8 && b[3] == (m % 0x100) as u8);
    assert(0 <= m / 0x100_0000 < 0x100 && m / 0x100_0000 * 0x100_0000 + m / 0x1_0000 % 0x100 * 0x1_0000 + m / 0x100
        % 0x100 * 0x100 + m % 0x100 == m);
}

/// Elements that are sent are read as what they stand for, each in its place.
pub proof fn sent_elements_are_read<T: PgElement>(es: Seq<Option<Seq<u8>>>)
    requires
        forall|i: int|
            0 <= i < es.len() ==> sent_value::<T>(#[trigger] es[i]) is Ok && (es[i] is Some ==> es[i]->0.len()
                < 0xffff_ffff),
    ensures
        ({
            let b = sent_elements(es);
            &&& elements_fit::<T>(b)
            &&& elements::<T>(b) == Ok::<Seq<T::Val>, DecodeError>(
                es.map_values(|e: Option<Seq<u8>>| sent_value::<T>(e)->Ok_0),
            )
        }),
    decreases es.len(),
{
    let b = sent_elements(es);
    let f = |e: Option<Seq<u8>>| sent_value::<T>(e)->Ok_0;
    if es.len() == 0 {
        assert(es.map_values(f) =~= Seq::empty());
    } else {
        let later = es.drop_first();
        assert forall|i: int| 0 <= i < later.len() implies sent_value::<T>(#[trigger] later[i]) is Ok && (
        later[i] is Some ==> later[i]->0.len() < 0xffff_ffff) by {
            assert(later[i] == es[i + 1]);
        }
        sent_elements_are_read::<T>(later);
        let rest = sent_elements(later);
        assert(sent_value::<T>(es[0]) is Ok);
        match es[0] {
            Some(raw) => {
                let n = raw.len() as u32;
                word_undoes_bytes(n, raw + rest);
                assert(b =~= word_bytes(n) + (raw + rest));
                assert(b.subrange(4, 4 + n) =~= raw);
                assert(b.skip(4 + n) =~= rest);
            },
            None => {
                word_undoes_bytes(0xffff_ffff, rest);
                assert(b.skip(4) =~= rest);
            },
        }
        assert(after_element(b) == rest);
        assert(first_element::<T>(b) == sent_value::<T>(es[0]));
        assert(seq![f(es[0])] + later.map_values(f) =~= es.map_values(f));
    }
}

/// An array that is sent is read back with all its elements, whatever its flags and the index of its first
/// element are.
pub proof fn sent_array_is_read<T: PgElement>(flags: u32, lower: u32, es: Seq<Option<Seq<u8>>>)
    requires
        es.len() <= u32::MAX,
        forall|i: int|
            0 <= i < es.len() ==> sent_value::<T>(#[trigger] es[i]) is Ok && (es[i] is Some ==> es[i]->0.len()
                < 0xffff_ffff),
    ensures
        ({
            let b = sent_array(flags, T::oid(), lower, es);
            &&& array_fits::<T>(b)
            &&& array::<T>(b) matches Ok(values) && values.len() == es.len() && forall|i: int|
                0 <= i < es.len() ==> sent_value::<T>(#[trigger] es[i]) == Ok::<T::Val, ElementError>(values[i])
        }),
{
    let b = sent_array(flags, T::oid(), lower, es);
    let run = sent_elements(es);
    let count = es.len() as u32;
    sent_elements_are_read::<T>(es);
    word_undoes_bytes(flags, Seq::empty());
    word_undoes_bytes(lower, run);
    word_undoes_bytes(count, word_bytes(lower) + run);
    word_undoes_bytes(T::oid(), word_bytes(count) + word_bytes(lower) + run);
    word_undoes_bytes(1, word_bytes(flags) + word_bytes(T::oid()) + word_bytes(count) + word_bytes(lower) + run);
    assert(b =~= word_bytes(1) + (word_bytes(flags) + word_bytes(T::oid()) + word_bytes(count) + word_bytes(lower)
        + run));
    assert(b.skip(8) =~= word_bytes(T::oid()) + (word_bytes(count) + word_bytes(lower) + run));
    assert(b.skip(12) =~= word_bytes(count) + (word_bytes(lower) + run));
    assert(b.skip(HEADER_LENGTH as int) =~= run);
}

/// An array that announces another number of elements than it holds, has elements of another type or more than one
/// dimension is refused.
pub proof fn other_arrays_are_refused<T: PgElement>(b: Seq<u8>)
    requires
        array::<T>(b) is Ok,
    ensures
        b.len() == 12 && word(b) == 0 && array::<T>(b)->Ok_0.len() == 0 || {
            &&& b.len() >= 20
            &&& word(b) == 1
            &&& word(b.skip(8)) == T::oid()
            &&& array::<T>(b)->Ok_0.len() == word(b.skip(12))
        },
{
}

/// A number is read from its four bytes in two's complement.
pub proof fn numbers_are_read(n: i32)
    ensures
        <i32 as PgElement>::of_bytes(
            word_bytes(
                if n >= 0 {
                    n as u32
                } else {
                    (n + 0x1_0000_0000) as u32
                },
            ),
        ) == Ok::<i32, ElementError>(n),
{
    let m = if n >= 0 {
        n as u32
    } else {
        (n + 0x1_0000_0000) as u32
    };
    word_undoes_bytes(m, Seq::empty());
    assert(word_bytes(m) + Seq::<u8>::empty() =~= word_bytes(m));
}

/// A text is read from its UTF-8 encoding.
pub proof fn texts_are_read(s: Seq<char>)
    ensures
        <String as PgElement>::of_bytes(vstd::utf8::encode_utf8(s)) == Ok::<Seq<char>, ElementError>(s),
{
    vstd::utf8::encode_utf8_valid_utf8(s);
    vstd::utf8::encode_utf8_decode_utf8(s);
}

/// The types of the elements that can be read, and what a null is in each of them: one alone may be missing.
pub proof fn element_types<T: PgElement>(raw: Seq<u8>, value: T::Val)
    ensures
        <i32 as PgElement>::oid() == 23,
        <String as PgElement>::oid() == 25,
        <Option<T> as PgElement>::oid() == T::oid(),
        <i32 as PgElement>::of_null() == Err::<i32, ElementError>(ElementError::UnexpectedNull),
        <String as PgElement>::of_null() == Err::<Seq<char>, ElementError>(ElementError::UnexpectedNull),
        <Option<T> as PgElement>::of_null() == Ok::<Option<T::Val>, ElementError>(None),
        T::of_bytes(raw) == Ok::<T::Val, ElementError>(value) <==> <Option<T> as PgElement>::of_bytes(raw) == Ok::<
            Option<T::Val>,
            ElementError,
        >(Some(value)),
{
}

/// Elements stand for their values, in their order.
pub proof fn elements_stand_for_their_values<T: PgElement>(v: Seq<T>, i: int)
    requires
        0 <= i < v.len(),
    ensures
        vals(v).len() == v.len(),
        vals(v)[i] == v[i].val(),
{
}

/// What is wrong with an array whose header is not that of one: it has other dimensions or elements of another
/// type, or it ends too soon.
pub proof fn bad_headers_are_reported<T: PgElement>(b: Seq<u8>)
    ensures
        b.len() < 4 ==> array::<T>(b) == Err::<Seq<T::Val>, DecodeError>(DecodeError::TooShort),
        b.len() >= 4 && word(b) == 0 && b.len() != 12 ==> array::<T>(b) == Err::<Seq<T::Val>, DecodeError>(
            DecodeError::EmptyArrayLength((b.len() - 4) as usize),
        ),
        b.len() == 12 && word(b) == 0 ==> array::<T>(b) == Ok::<Seq<T::Val>, DecodeError>(Seq::empty()),
        b.len() >= 4 && word(b) > 1 ==> array::<T>(b) == Err::<Seq<T::Val>, DecodeError>(
            DecodeError::Dimensions(word(b)),
        ),
        b.len() >= 12 && word(b) == 1 && word(b.skip(8)) != T::oid() ==> array::<T>(b) == Err::<
            Seq<T::Val>,
            DecodeError,
        >(DecodeError::ElementType { expected_type: T::oid(), found_type: word(b.skip(8)) }),
{
}

} // verus!
