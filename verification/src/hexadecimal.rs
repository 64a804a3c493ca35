//! Bytes and numbers in hexadecimal.
use vstd::prelude::*;

verus! {

/// The lower-case digit for a number below sixteen.
pub open spec fn hex_digit(n: int) -> char {
    if n < 10 {
        (48 + n) as char
    } else {
        (87 + n) as char
    }
}

/// Whether a character is a hexadecimal digit, of either case.
pub open spec fn is_hex(c: char) -> bool {
    '0' <= c <= '9' || 'a' <= c <= 'f' || 'A' <= c <= 'F'
}

/// What a hexadecimal digit counts.
pub open spec fn hex_value(c: char) -> int {
    if '0' <= c <= '9' {
        c as int - 48
    } else if 'a' <= c <= 'f' {
        c as int - 87
    } else {
        c as int - 55
    }
}

/// Whether a text holds hexadecimal digits alone.
pub open spec fn all_hex(s: Seq<char>) -> bool {
    forall|i: int| 0 <= i < s.len() ==> is_hex(#[trigger] s[i])
}

/// Two digits for each byte, the higher one first.
pub open spec fn hex_encoded(bytes: Seq<u8>) -> Seq<char> {
    Seq::new(
        2 * bytes.len(),
        |i: int|
            if i % 2 == 0 {
                hex_digit(bytes[i / 2] as int / 16)
            } else {
                hex_digit(bytes[i / 2] as int % 16)
            },
    )
}

/// The bytes that pairs of digits write; none where a character is no digit or one is left over.
pub open spec fn hex_decoded(s: Seq<char>) -> Option<Seq<u8>> {
    if s.len() % 2 == 0 && all_hex(s) {
        Some(Seq::new(s.len() / 2, |i: int| (hex_value(s[2 * i]) * 16 + hex_value(s[2 * i + 1])) as u8))
    } else {
        None
    }
}

/// The last `width` hexadecimal digits of a number.
pub open spec fn hex_fixed(n: int, width: nat) -> Seq<char>
    decreases width,
{
    if width == 0 {
        Seq::empty()
    } else {
        hex_fixed(n / 16, (width - 1) as nat).push(hex_digit(n % 16))
    }
}

/// The number that a run of hexadecimal digits writes.
pub open spec fn hex_number(s: Seq<char>) -> int
    decreases s.len(),
{
    if s.len() == 0 {
        0
    } else {
        hex_number(s.drop_last()) * 16 + hex_value(s.last())
    }
}

/// Sixteen to a power.
pub open spec fn pow16(k: nat) -> int
    decreases k,
{
    if k == 0 {
        1
    } else {
        16 * pow16((k - 1) as nat)
    }
}

/// `hex::encode` writes two lower-case digits for each byte.
#[verifier::external_body]
pub(crate) fn encode(bytes: &Vec<u8>) -> (r: String)
    ensures
        r@ == hex_encoded(bytes@),
{
    hex::encode(bytes)
}

/// Bytes as the characters with the same numbers.
pub open spec fn latin(bytes: Seq<u8>) -> Seq<char> {
    bytes.map_values(|b: u8| b as char)
}

/// `hex::decode` reads pairs of digits of either case, and fails exactly where a byte is no
/// hexadecimal digit or the number of digits is odd.
#[verifier::external_body]
pub(crate) fn decode(digits: &[u8]) -> (r: Option<Vec<u8>>)
    ensures
        match r {
            Some(v) => hex_decoded(latin(digits@)) == Some(v@),
            None => hex_decoded(latin(digits@)) is None,
        },
{
    match hex::decode(digits) {
        Ok(v) => Some(v),
        Err(_) => None,
    }
}

/// The UTF-8 encoding of an ASCII text, read byte by byte, is the text.
pub proof fn latin_undoes_ascii(s: Seq<char>)
    requires
        vstd::utf8::is_ascii_chars(s),
    ensures
        latin(vstd::utf8::encode_utf8(s)) == s,
{
    vstd::utf8::is_ascii_chars_encode_utf8(s);
    assert(latin(vstd::utf8::encode_utf8(s)) =~= s);
}

/// Decoding the digits of some bytes gives the bytes back.
pub proof fn decode_undoes_encode(bytes: Seq<u8>)
    ensures
        hex_decoded(hex_encoded(bytes)) == Some(bytes),
{
    let s = hex_encoded(bytes);
    assert(s.len() % 2 == 0);
    assert forall|i: int| 0 <= i < s.len() implies is_hex(#[trigger] s[i]) by {
        let b = bytes[i / 2] as int;
        assert(0 <= b / 16 < 16 && 0 <= b % 16 < 16);
    }
    let d = hex_decoded(s)->0;
    assert forall|i: int| 0 <= i < bytes.len() implies #[trigger] d[i] == bytes[i] by {
        let b = bytes[i] as int;
        assert((2 * i) / 2 == i && (2 * i) % 2 == 0);
        assert((2 * i + 1) / 2 == i && (2 * i + 1) % 2 == 1);
        assert(s[2 * i] == hex_digit(b / 16));
        assert(s[2 * i + 1] == hex_digit(b % 16));
        assert(b == (b / 16) * 16 + b % 16);
    }
    assert(d =~= bytes);
}

/// The digits that `hex_fixed` gives are hexadecimal, `width` of them.
pub proof fn hex_fixed_digits(n: int, width: nat)
    requires
        0 <= n,
    ensures
        hex_fixed(n, width).len() == width,
        all_hex(hex_fixed(n, width)),
        forall|i: int| 0 <= i < width ==> ('0' <= #[trigger] hex_fixed(n, width)[i] <= '9' || 'a' <= hex_fixed(n, width)[i] <= 'f'),
    decreases width,
{
    if width > 0 {
        hex_fixed_digits(n / 16, (width - 1) as nat);
    }
}

/// More digits are the digits of the higher part, then those of the lower part.
pub proof fn hex_fixed_joins(n: int, high: nat, low: nat)
    requires
        0 <= n,
    ensures
        pow16(low) > 0,
        hex_fixed(n, high + low) == hex_fixed(n / pow16(low), high) + hex_fixed(n, low),
    decreases low,
{
    if low == 0 {
        assert(hex_fixed(n, high) + hex_fixed(n, 0) =~= hex_fixed(n, high));
    } else {
        let l = (low - 1) as nat;
        hex_fixed_joins(n / 16, high, l);
        let p = pow16(l);
        assert((n / 16) / p == n / (16 * p)) by {
            vstd::arithmetic::div_mod::lemma_div_denominator(n, 16, p);
        }
        assert(hex_fixed(n, high + low) =~= hex_fixed(n / pow16(low), high) + hex_fixed(n, low));
    }
}

/// The digits of a number write it, where they are enough.
pub proof fn hex_number_undoes_fixed(n: int, width: nat)
    requires
        0 <= n < pow16(width),
    ensures
        hex_number(hex_fixed(n, width)) == n,
    decreases width,
{
    if width > 0 {
        let w = (width - 1) as nat;
        assert(n / 16 < pow16(w));
        hex_number_undoes_fixed(n / 16, w);
        assert(hex_fixed(n, width).drop_last() =~= hex_fixed(n / 16, w));
    }
}

} // verus!
