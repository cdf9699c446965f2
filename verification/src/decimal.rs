//! Decimal numerals: what a text denotes as an integer, and the text that
//! denotes an integer.

use vstd::prelude::*;
use crate::text::chars_of;

verus! {

/// Whether a character is a decimal digit.
pub open spec fn is_digit(c: char) -> bool {
    '0' <= c && c <= '9'
}

/// The number that a decimal digit denotes.
pub open spec fn digit_value(c: char) -> nat {
    (c as nat - '0' as nat) as nat
}

/// The decimal digit that denotes a number below 10.
pub open spec fn digit_char(d: nat) -> char {
    ((d + '0' as nat) as u8) as char
}

/// Whether every character is a decimal digit.
pub open spec fn all_digits(s: Seq<char>) -> bool {
    forall|i: int| 0 <= i < s.len() ==> is_digit(#[trigger] s[i])
}

/// The number that a run of decimal digits denotes, most significant first.
pub open spec fn digits_value(s: Seq<char>) -> nat
    decreases s.len(),
{
    if s.len() == 0 {
        0
    } else {
        digits_value(s.drop_last()) * 10 + digit_value(s.last())
    }
}

/// The integer that a numeral denotes: an optional `+` (or, where `signed`,
/// `-`), then one or more decimal digits and nothing else.
pub open spec fn numeral_value(s: Seq<char>, signed: bool) -> Option<int> {
    let negative = signed && s.len() > 0 && s[0] == '-';
    let digits = if s.len() > 0 && (s[0] == '+' || negative) {
        s.drop_first()
    } else {
        s
    };
    if digits.len() > 0 && all_digits(digits) {
        Some(
            if negative {
                -(digits_value(digits) as int)
            } else {
                digits_value(digits) as int
            },
        )
    } else {
        None
    }
}

/// The value of a numeral, if it has one within `min..=max`.
pub open spec fn numeral_in_range(s: Seq<char>, signed: bool, min: int, max: int) -> Option<int> {
    match numeral_value(s, signed) {
        Some(v) => if min <= v <= max {
            Some(v)
        } else {
            None
        },
        None => None,
    }
}

/// A run of digits denotes no less than each of its beginnings.
proof fn lemma_digits_value_prefix(s: Seq<char>, n: int)
    requires
        0 <= n <= s.len(),
    ensures
        digits_value(s.take(n)) <= digits_value(s),
    decreases s.len(),
{
    if n < s.len() {
        lemma_digits_value_prefix(s.drop_last(), n);
        assert(s.drop_last().take(n) == s.take(n));
    } else {
        assert(s.take(n) == s);
    }
}

/// Reads the digits `v[from..]` as a number no larger than `limit`.
fn read_digits(v: &Vec<char>, from: usize, limit: u64) -> (r: Option<u64>)
    requires
        from <= v.len(),
    ensures
        r == (if v@.skip(from as int).len() > 0 && all_digits(v@.skip(from as int))
            && digits_value(v@.skip(from as int)) <= limit {
            Some(digits_value(v@.skip(from as int)) as u64)
        } else {
            None
        }),
{
    let ghost d = v@.skip(from as int);
    if from == v.len() {
        return None;
    }
    let mut acc: u64 = 0;
    let mut i: usize = from;
    while i < v.len()
        invariant
            from <= i <= v.len(),
            d == v@.skip(from as int),
            acc <= limit,
            acc == digits_value(d.take(i - from)),
            forall|j: int| 0 <= j < i - from ==> is_digit(#[trigger] d[j]),
        decreases v.len() - i,
    {
        let c = v[i];
        if !('0' <= c && c <= '9') {
            assert(!is_digit(d[i - from]));
            return None;
        }
        let digit: u64 = (c as u8 - '0' as u8) as u64;
        proof {
            let p = d.take(i - from + 1);
            assert(p.drop_last() == d.take(i - from));
            lemma_digits_value_prefix(d, i - from + 1);
        }
        if digit > limit || acc > (limit - digit) / 10 {
            return None;
        }
        acc = acc * 10 + digit;
        i += 1;
    }
    assert(d.take(d.len() as int) == d);
    Some(acc)
}

/// The value of a numeral that lies within `-below..=above`, where `below`
/// is 0 for an unsigned reading.
fn read_numeral(s: &str, signed: bool, below: u64, above: u64) -> (r: Option<(bool, u64)>)
    requires
        !signed ==> below == 0,
    ensures
        match numeral_in_range(s@, signed, -(below as int), above as int) {
            Some(v) => r matches Some((negative, magnitude)) && (if negative {
                v == -(magnitude as int)
            } else {
                v == magnitude as int
            }) && (negative ==> magnitude <= below) && (!negative ==> magnitude <= above),
            None => r is None,
        },
{
    let v = chars_of(s);
    if v.len() == 0 {
        return None;
    }
    let negative = signed && v[0] == '-';
    let from: usize = if v[0] == '+' || negative {
        1
    } else {
        0
    };
    assert(v@.skip(0) == v@);
    let limit = if negative {
        below
    } else {
        above
    };
    match read_digits(&v, from, limit) {
        Some(magnitude) => Some((negative, magnitude)),
        None => None,
    }
}

/// Reads a signed 64-bit integer.
pub fn parse_i64(s: &str) -> (r: Option<i64>)
    ensures
        r == match numeral_in_range(s@, true, i64::MIN as int, i64::MAX as int) {
            Some(v) => Some(v as i64),
            None => None,
        },
{
    match read_numeral(s, true, 0x8000_0000_0000_0000u64, 0x7fff_ffff_ffff_ffffu64) {
        Some((negative, magnitude)) => {
            if negative {
                if magnitude == 0x8000_0000_0000_0000u64 {
                    Some(i64::MIN)
                } else {
                    Some(-(magnitude as i64))
                }
            } else {
                Some(magnitude as i64)
            }
        },
        None => None,
    }
}

/// Reads a signed 32-bit integer.
pub fn parse_i32(s: &str) -> (r: Option<i32>)
    ensures
        r == match numeral_in_range(s@, true, i32::MIN as int, i32::MAX as int) {
            Some(v) => Some(v as i32),
            None => None,
        },
{
    match read_numeral(s, true, 0x8000_0000u64, 0x7fff_ffffu64) {
        Some((negative, magnitude)) => {
            if negative {
                Some((-(magnitude as i64)) as i32)
            } else {
                Some(magnitude as i32)
            }
        },
        None => None,
    }
}

/// Reads an unsigned 8-bit integer.
pub fn parse_u8(s: &str) -> (r: Option<u8>)
    ensures
        r == match numeral_in_range(s@, false, 0, u8::MAX as int) {
            Some(v) => Some(v as u8),
            None => None,
        },
{
    match read_numeral(s, false, 0, 255) {
        Some((_, magnitude)) => Some(magnitude as u8),
        None => None,
    }
}

/// The decimal digits of a number, most significant first, without leading
/// zeros (`0` is written `0`).
pub open spec fn decimal_digits(n: nat) -> Seq<char>
    decreases n,
{
    if n < 10 {
        seq![digit_char(n)]
    } else {
        decimal_digits(n / 10).push(digit_char(n % 10))
    }
}

/// The numeral of an integer: its decimal digits, after a `-` if it is
/// negative.
pub open spec fn numeral(n: int) -> Seq<char> {
    if n < 0 {
        seq!['-'] + decimal_digits((-n) as nat)
    } else {
        decimal_digits(n as nat)
    }
}

/// The numeral of an unsigned 64-bit integer.
pub fn render_u64(n: u64) -> (r: String)
    ensures
        r@ == decimal_digits(n as nat),
{
    let mut reversed: Vec<char> = Vec::new();
    let mut rest: u64 = n;
    while rest >= 10
        invariant
            decimal_digits(n as nat) == decimal_digits(rest as nat) + reversed@.reverse(),
        decreases rest,
    {
        let c = ((rest % 10) as u8 + '0' as u8) as char;
        proof {
            let before = reversed@;
            assert(decimal_digits((rest / 10) as nat).push(c) + before.reverse()
                == decimal_digits((rest / 10) as nat) + (seq![c] + before.reverse()));
        }
        reversed.push(c);
        rest = rest / 10;
    }
    let first = (rest as u8 + '0' as u8) as char;
    let mut r = String::new();
    r.push(first);
    let mut i: usize = reversed.len();
    while i > 0
        invariant
            i <= reversed.len(),
            r@ == decimal_digits(rest as nat) + reversed@.reverse().take(reversed.len() - i),
        decreases i,
    {
        i -= 1;
        proof {
            let rev = reversed@.reverse();
            let k = reversed.len() - i - 1;
            assert((decimal_digits(rest as nat) + rev.take(k)).push(rev[k])
                == decimal_digits(rest as nat) + rev.take(k).push(rev[k]));
        }
        r.push(reversed[i]);
    }
    r
}

/// The numeral of a signed 64-bit integer.
pub fn render_i64(n: i64) -> (r: String)
    ensures
        r@ == numeral(n as int),
{
    if n < 0 {
        let magnitude: u64 = if n == i64::MIN {
            0x8000_0000_0000_0000u64
        } else {
            (-n) as u64
        };
        let digits = render_u64(magnitude);
        let mut r = String::new();
        r.push('-');
        r.append(digits.as_str());
        r
    } else {
        render_u64(n as u64)
    }
}

/// The decimal digits of a number are digits, at least one, and denote
/// the number.
pub proof fn lemma_decimal_digits_are_digits(n: nat)
    ensures
        decimal_digits(n).len() > 0,
        all_digits(decimal_digits(n)),
        digits_value(decimal_digits(n)) == n,
    decreases n,
{
    if n < 10 {
        let s = decimal_digits(n);
        assert(s.drop_last() == Seq::<char>::empty());
        assert(digits_value(s.drop_last()) == 0);
    } else {
        lemma_decimal_digits_are_digits(n / 10);
        let s = decimal_digits(n);
        assert(s.drop_last() == decimal_digits(n / 10));
        assert(s.last() == digit_char(n % 10));
    }
}

/// Reading the numeral of an integer gives that integer back.
pub proof fn lemma_numeral_round_trip(n: int)
    ensures
        numeral_value(numeral(n), true) == Some(n),
        n >= 0 ==> numeral_value(numeral(n), false) == Some(n),
{
    if n < 0 {
        lemma_decimal_digits_are_digits((-n) as nat);
        let s = numeral(n);
        assert(s[0] == '-');
        assert(s.drop_first() == decimal_digits((-n) as nat));
    } else {
        lemma_decimal_digits_are_digits(n as nat);
        let s = numeral(n);
        assert(is_digit(s[0]));
    }
}

} // verus!
