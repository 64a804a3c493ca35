//! Universally unique identifiers.
use crate::hexadecimal;
use crate::hexadecimal::{hex_fixed, hex_number};
use vstd::prelude::*;

verus! {

/// An identifier of 128 bits.
#[derive(Clone, Copy, Debug, PartialEq, Eq, Hash, Structural)]
pub struct Uuid {
    pub bits: u128,
}

/// The text is no identifier.
#[derive(Clone, Copy, Debug, PartialEq, Eq, Structural)]
pub struct UuidError;

/// The digits of an identifier in five groups with hyphens between them.
pub open spec fn hyphenated(bits: int) -> Seq<char> {
    hex_fixed(bits / 0x1_0000_0000_0000_0000_0000_0000, 8) + seq!['-'] + hex_fixed(
        bits / 0x1_0000_0000_0000_0000_0000,
        4,
    ) + seq!['-'] + hex_fixed(bits / 0x1_0000_0000_0000_0000, 4) + seq!['-'] + hex_fixed(
        bits / 0x1_0000_0000_0000,
        4,
    ) + seq!['-'] + hex_fixed(bits, 12)
}

/// The digits of a hyphenated identifier, where the hyphens stand in their places.
pub open spec fn group_digits(s: Seq<char>) -> Option<Seq<char>> {
    if s.len() == 36 && s[8] == '-' && s[13] == '-' && s[18] == '-' && s[23] == '-' {
        Some(s.subrange(0, 8) + s.subrange(9, 13) + s.subrange(14, 18) + s.subrange(19, 23) + s.subrange(24, 36))
    } else {
        None
    }
}

/// Whether two texts are the same but for the case of ASCII letters.
pub open spec fn same_but_case(a: Seq<char>, b: Seq<char>) -> bool {
    a.len() == b.len() && forall|i: int| 0 <= i < a.len() ==> ascii_lower(#[trigger] a[i]) == ascii_lower(b[i])
}

/// An ASCII letter in lower case; any other character as it is.
pub open spec fn ascii_lower(c: char) -> char {
    if 'A' <= c <= 'Z' {
        (c as int + 32) as char
    } else {
        c
    }
}

/// The digits of an identifier written plainly, with hyphens, in braces or as a URN.
pub open spec fn uuid_digits(s: Seq<char>) -> Option<Seq<char>> {
    if s.len() == 32 {
        Some(s)
    } else if s.len() == 38 && s[0] == '{' && s[37] == '}' {
        group_digits(s.subrange(1, 37))
    } else if s.len() == 45 && same_but_case(s.take(9), "urn:uuid:"@) {
        group_digits(s.skip(9))
    } else {
        group_digits(s)
    }
}

/// The identifier that a text writes.
pub open spec fn uuid_of(s: Seq<char>) -> Option<u128> {
    match uuid_digits(s) {
        Some(d) => if hexadecimal::all_hex(d) {
            Some(hex_number(d) as u128)
        } else {
            None
        },
        None => None,
    }
}

/// `uuid::Uuid::parse_str` reads 32 digits of either case, plain, in groups with hyphens, the
/// same in braces, or the same after `urn:uuid:`, and fails on any other text.
#[verifier::external_body]
fn parse_bits(s: &str) -> (r: Option<u128>)
    ensures
        r == uuid_of(s@),
{
    match uuid::Uuid::parse_str(s) {
        Ok(id) => Some(id.as_u128()),
        Err(_) => None,
    }
}

/// What the error of `uuid::Uuid::parse_str` on a text says; empty where there is no error.
pub uninterp spec fn parse_error_text(s: Seq<char>) -> Seq<char>;

/// The `Display` of the error of `uuid::Uuid::parse_str` on a text, and the empty text where there
/// is none.
#[verifier::external_body]
fn parse_error(s: &str) -> (r: String)
    ensures
        r@ == parse_error_text(s@),
{
    match uuid::Uuid::parse_str(s) {
        Ok(_) => String::new(),
        Err(e) => e.to_string(),
    }
}

/// `uuid::Uuid`'s `Display` writes the lower-case digits in groups with hyphens.
#[verifier::external_body]
fn bits_text(bits: u128) -> (r: String)
    ensures
        r@ == hyphenated(bits as int),
{
    uuid::Uuid::from_u128(bits).to_string()
}

/// Whether an identifier is of version 4, in the RFC variant.
pub open spec fn is_v4(bits: u128) -> bool {
    bits / 0x1000_0000_0000_0000_0000 % 16 == 4 && bits / 0x4000_0000_0000_0000 % 4 == 2
}

/// `uuid::Uuid::new_v4` draws a random identifier of version 4 in the RFC variant.
#[verifier::external_body]
fn random_bits() -> (r: u128)
    ensures
        is_v4(r),
{
    uuid::Uuid::new_v4().as_u128()
}

impl Uuid {
    /// Reads an identifier.
    pub fn parse_str(s: &str) -> (r: Result<Uuid, UuidError>)
        ensures
            match r {
                Ok(id) => uuid_of(s@) == Some(id.bits),
                Err(_) => uuid_of(s@) is None,
            },
    {
        match parse_bits(s) {
            Some(bits) => Ok(Uuid { bits }),
            None => Err(UuidError),
        }
    }

    /// What is wrong with a text that is no identifier.
    pub fn problem_of(s: &str) -> (r: String)
        ensures
            r@ == parse_error_text(s@),
    {
        parse_error(s)
    }

    /// The identifier in groups with hyphens.
    pub fn to_text(&self) -> (r: String)
        ensures
            r@ == hyphenated(self.bits as int),
    {
        bits_text(self.bits)
    }

    /// A random identifier, of version 4 in the RFC variant.
    pub fn new_v4() -> (r: Uuid)
        ensures
            is_v4(r.bits),
    {
        Uuid { bits: random_bits() }
    }
}

/// A hyphenated identifier has 36 characters, each a lower-case digit or a hyphen.
pub proof fn hyphenated_shape(bits: int)
    requires
        0 <= bits,
    ensures
        hyphenated(bits).len() == 36,
        forall|i: int|
            0 <= i < 36 ==> (#[trigger] hyphenated(bits)[i] == '-' || '0' <= hyphenated(bits)[i] <= '9' || 'a'
                <= hyphenated(bits)[i] <= 'f'),
{
    hexadecimal::hex_fixed_digits(bits / 0x1_0000_0000_0000_0000_0000_0000, 8);
    hexadecimal::hex_fixed_digits(bits / 0x1_0000_0000_0000_0000_0000, 4);
    hexadecimal::hex_fixed_digits(bits / 0x1_0000_0000_0000_0000, 4);
    hexadecimal::hex_fixed_digits(bits / 0x1_0000_0000_0000, 4);
    hexadecimal::hex_fixed_digits(bits, 12);
}

/// Reading the text of an identifier gives the identifier back.
pub proof fn parse_undoes_text(bits: u128)
    ensures
        uuid_of(hyphenated(bits as int)) == Some(bits),
{
    let n = bits as int;
    let s = hyphenated(n);
    hyphenated_shape(n);
    let a = hex_fixed(n / 0x1_0000_0000_0000_0000_0000_0000, 8);
    let b = hex_fixed(n / 0x1_0000_0000_0000_0000_0000, 4);
    let c = hex_fixed(n / 0x1_0000_0000_0000_0000, 4);
    let d = hex_fixed(n / 0x1_0000_0000_0000, 4);
    let e = hex_fixed(n, 12);
    hexadecimal::hex_fixed_digits(n / 0x1_0000_0000_0000_0000_0000_0000, 8);
    hexadecimal::hex_fixed_digits(n / 0x1_0000_0000_0000_0000_0000, 4);
    hexadecimal::hex_fixed_digits(n / 0x1_0000_0000_0000_0000, 4);
    hexadecimal::hex_fixed_digits(n / 0x1_0000_0000_0000, 4);
    hexadecimal::hex_fixed_digits(n, 12);
    assert(s.subrange(0, 8) =~= a);
    assert(s.subrange(9, 13) =~= b);
    assert(s.subrange(14, 18) =~= c);
    assert(s.subrange(19, 23) =~= d);
    assert(s.subrange(24, 36) =~= e);
    assert(s[8] == '-' && s[13] == '-' && s[18] == '-' && s[23] == '-');
    let whole = hex_fixed(n, 32);
    assert(whole == a + b + c + d + e) by {
        reveal_with_fuel(hexadecimal::pow16, 33);
        hexadecimal::hex_fixed_joins(n, 20, 12);
        hexadecimal::hex_fixed_joins(n / 0x1_0000_0000_0000, 16, 4);
        hexadecimal::hex_fixed_joins(n / 0x1_0000_0000_0000_0000, 12, 4);
        hexadecimal::hex_fixed_joins(n / 0x1_0000_0000_0000_0000_0000, 8, 4);
        assert(n / 0x1_0000_0000_0000 / 0x1_0000 == n / 0x1_0000_0000_0000_0000);
        assert(n / 0x1_0000_0000_0000_0000 / 0x1_0000 == n / 0x1_0000_0000_0000_0000_0000);
        assert(n / 0x1_0000_0000_0000_0000_0000 / 0x1_0000 == n / 0x1_0000_0000_0000_0000_0000_0000);
        assert(a + b + c + d + e =~= a + (b + (c + (d + e))));
        assert(whole =~= a + b + c + d + e);
    }
    assert(uuid_digits(s) == Some(whole));
    hexadecimal::hex_fixed_digits(n, 32);
    assert(n < hexadecimal::pow16(32)) by {
        reveal_with_fuel(hexadecimal::pow16, 33);
    }
    hexadecimal::hex_number_undoes_fixed(n, 32);
}

/// Different identifiers have different texts.
pub proof fn hyphenated_injective(a: u128, b: u128)
    requires
        hyphenated(a as int) == hyphenated(b as int),
    ensures
        a == b,
{
    parse_undoes_text(a);
    parse_undoes_text(b);
}

} // verus!
