//! Whole numbers written in decimal.
use crate::text;
use vstd::prelude::*;

verus! {

/// Whether a character is a decimal digit.
pub open spec fn is_digit(c: char) -> bool {
    '0' <= c <= '9'
}

/// The digit for a number below ten.
pub open spec fn digit(n: int) -> char {
    (48 + n) as char
}

/// What a digit counts.
pub open spec fn digit_value(c: char) -> int {
    c as int - 48
}

/// Whether a text holds digits alone.
pub open spec fn all_digits(s: Seq<char>) -> bool {
    forall|i: int| 0 <= i < s.len() ==> is_digit(#[trigger] s[i])
}

/// The number that a run of digits writes.
pub open spec fn digits_value(s: Seq<char>) -> int
    decreases s.len(),
{
    if s.len() == 0 {
        0
    } else {
        digits_value(s.drop_last()) * 10 + digit_value(s.last())
    }
}

/// A number in decimal, without leading zeros.
pub open spec fn decimal(n: nat) -> Seq<char>
    decreases n,
{
    if n < 10 {
        seq![digit(n as int)]
    } else {
        decimal(n / 10).push(digit((n % 10) as int))
    }
}

/// The digits of a written number: a plus sign may stand before them.
pub open spec fn unsigned_digits(s: Seq<char>) -> Seq<char> {
    if s.len() > 0 && s[0] == '+' {
        s.skip(1)
    } else {
        s
    }
}

/// The number from 0 to `max` that a text writes, where it writes one.
pub open spec fn parsed_number(s: Seq<char>, max: int) -> Option<int> {
    let d = unsigned_digits(s);
    if d.len() > 0 && all_digits(d) && digits_value(d) <= max {
        Some(digits_value(d))
    } else {
        None
    }
}

/// Each further digit makes the number no smaller.
proof fn digits_value_grows(s: Seq<char>, k: int)
    requires
        all_digits(s),
        0 <= k <= s.len(),
    ensures
        0 <= digits_value(s.take(k)) <= digits_value(s),
    decreases s.len(),
{
    if s.len() > 0 {
        assert(is_digit(s[s.len() - 1]));
        assert forall|i: int| 0 <= i < s.drop_last().len() implies is_digit(#[trigger] s.drop_last()[i]) by {
            assert(is_digit(s[i]));
        }
        if k < s.len() {
            digits_value_grows(s.drop_last(), k);
            assert(s.drop_last().take(k) =~= s.take(k));
        } else {
            digits_value_grows(s.drop_last(), 0);
            assert(s.take(k) =~= s);
        }
    } else {
        assert(s.take(k) =~= s);
    }
}

/// Reads a number from 0 to `max`.
pub fn parse_number(s: &str, max: u64) -> (r: Option<u64>)
    ensures
        match r {
            Some(n) => parsed_number(s@, max as int) == Some(n as int),
            None => parsed_number(s@, max as int) is None,
        },
{
    let c = text::to_chars(s);
    let start: usize = if c.len() > 0 && c[0] == '+' {
        1
    } else {
        0
    };
    let ghost d = unsigned_digits(s@);
    assert(d =~= c@.skip(start as int));
    if start == c.len() {
        return None;
    }
    let mut n: u64 = 0;
    let mut i: usize = start;
    assert(d.take(0) =~= Seq::<char>::empty());
    while i < c.len()
        invariant
            c@ == s@,
            d == c@.skip(start as int),
            d == unsigned_digits(s@),
            start <= i <= c@.len(),
            all_digits(d.take(i - start)),
            n == digits_value(d.take(i - start)),
            n <= max,
        decreases c.len() - i,
    {
        let ghost k = i - start;
        assert(d[k] == c@[i as int]);
        if c[i] < '0' || c[i] > '9' {
            assert(!is_digit(d[k]));
            return None;
        }
        let v: u64 = (c[i] as u32 - 48) as u64;
        assert(d.take(k + 1).drop_last() =~= d.take(k));
        assert(d.take(k + 1).last() == c@[i as int]);
        assert(digits_value(d.take(k + 1)) == n * 10 + v);
        assert(all_digits(d.take(k + 1)));
        if n > u64::MAX / 10 || v > u64::MAX - n * 10 || n * 10 + v > max {
            proof {
                if all_digits(d) {
                    digits_value_grows(d, k + 1);
                }
            }
            return None;
        }
        n = n * 10 + v;
        i = i + 1;
    }
    assert(d.take(i - start) =~= d);
    Some(n)
}

/// Writes a number in decimal.
pub fn to_decimal(n: u64) -> (r: String)
    ensures
        r@ == decimal(n as nat),
    decreases n,
{
    if n < 10 {
        let mut s = String::new();
        s.push((48 + n as u8) as char);
        assert(s@ =~= decimal(n as nat));
        s
    } else {
        let mut s = to_decimal(n / 10);
        s.push((48 + (n % 10) as u8) as char);
        s
    }
}

/// A number in decimal is a run of digits, and they write the number.
pub proof fn decimal_writes(n: nat)
    ensures
        decimal(n).len() > 0,
        all_digits(decimal(n)),
        digits_value(decimal(n)) == n,
    decreases n,
{
    if n < 10 {
        assert(decimal(n).drop_last() =~= Seq::<char>::empty());
        assert(digits_value(Seq::<char>::empty()) == 0);
    } else {
        decimal_writes(n / 10);
        assert(decimal(n).drop_last() =~= decimal(n / 10));
    }
}

/// Reading a number that was written in decimal gives the number back.
pub proof fn parse_undoes_decimal(n: nat, max: int)
    requires
        n <= max,
    ensures
        parsed_number(decimal(n), max) == Some(n as int),
{
    decimal_writes(n);
    assert(is_digit(decimal(n)[0]));
}

/// Different numbers are written differently.
pub proof fn decimal_injective(a: nat, b: nat)
    requires
        decimal(a) == decimal(b),
    ensures
        a == b,
{
    decimal_writes(a);
    decimal_writes(b);
}

/// A number that is written in decimal is read where it is not above the greatest that is wanted, and only
/// there; with zeros or a plus sign before it, it is read as without them.
pub proof fn written_numbers_are_read(n: nat, max: int, zeros: nat)
    ensures
        ({
            let padded = Seq::new(zeros, |i: int| '0') + decimal(n);
            let read = if n <= max {
                Some(n as int)
            } else {
                None
            };
            &&& parsed_number(padded, max) == read
            &&& parsed_number(seq!['+'] + padded, max) == read
        }),
{
    let padded = Seq::new(zeros, |i: int| '0') + decimal(n);
    decimal_writes(n);
    zeros_count_nothing(decimal(n), zeros);
    assert(all_digits(padded)) by {
        assert forall|i: int| 0 <= i < padded.len() implies is_digit(#[trigger] padded[i]) by {
            if i >= zeros {
                assert(is_digit(decimal(n)[i - zeros]));
            }
        }
    }
    assert(is_digit(padded[0]));
    assert((seq!['+'] + padded).skip(1) =~= padded);
}

proof fn zeros_count_nothing(s: Seq<char>, zeros: nat)
    ensures
        digits_value(Seq::new(zeros, |i: int| '0') + s) == digits_value(s),
    decreases zeros + s.len(),
{
    let padded = Seq::new(zeros, |i: int| '0') + s;
    if s.len() > 0 {
        zeros_count_nothing(s.drop_last(), zeros);
        assert(padded.drop_last() =~= Seq::new(zeros, |i: int| '0') + s.drop_last());
    } else if zeros > 0 {
        let fewer = (zeros - 1) as nat;
        zeros_count_nothing(s, fewer);
        assert(padded.drop_last() =~= Seq::new(fewer, |i: int| '0') + s);
        assert(padded.last() == '0');
    } else {
        assert(padded =~= s);
    }
}

/// A text that writes a number holds a digit, and nothing but digits behind a plus sign at its start.
pub proof fn read_numbers_are_digits(s: Seq<char>, max: int)
    requires
        parsed_number(s, max) is Some,
    ensures
        s.len() > 0,
        '0' <= s.last() <= '9',
        forall|i: int| 0 <= i < s.len() && !(i == 0 && s[i] == '+') ==> '0' <= #[trigger] s[i] <= '9',
        parsed_number(s, max)->0 <= max,
{
    let d = unsigned_digits(s);
    let k = s.len() - d.len();
    assert forall|i: int| 0 <= i < s.len() && !(i == 0 && s[i] == '+') implies '0' <= #[trigger] s[i] <= '9' by {
        assert(d[i - k] == s[i]);
        assert(is_digit(d[i - k]));
    }
    assert(is_digit(d[d.len() - 1]));
}

/// A number is written without zeros before it.
pub proof fn no_zeros_come_first(n: nat)
    ensures
        n > 0 ==> decimal(n)[0] != '0',
        n < 10 ==> decimal(n).len() == 1,
        n >= 10 ==> decimal(n).len() == decimal(n / 10).len() + 1,
    decreases n,
{
    decimal_writes(n);
    if n >= 10 {
        no_zeros_come_first(n / 10);
        decimal_writes(n / 10);
        assert(decimal(n)[0] == decimal(n / 10)[0]);
    }
}

} // verus!
