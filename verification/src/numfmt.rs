//! Decimal rendering of integers and cent amounts, with exact
//! character-level contracts.

use vstd::prelude::*;
use vstd::string::StringSliceAdditionalSpecFns;

verus! {

/// The decimal digit character for `d` (0 through 9).
pub open spec fn digit_char(d: nat) -> char {
    if d == 0 { '0' }
    else if d == 1 { '1' }
    else if d == 2 { '2' }
    else if d == 3 { '3' }
    else if d == 4 { '4' }
    else if d == 5 { '5' }
    else if d == 6 { '6' }
    else if d == 7 { '7' }
    else if d == 8 { '8' }
    else { '9' }
}

/// The decimal rendering of a natural number, most significant digit first,
/// with no leading zeros (a single `'0'` for zero).
pub open spec fn dec_str(n: nat) -> Seq<char>
    decreases n,
{
    if n < 10 {
        seq![digit_char(n)]
    } else {
        dec_str(n / 10).push(digit_char(n % 10))
    }
}

/// The decimal rendering of a signed integer: a leading `'-'` for
/// negative values, then the digits of the magnitude.
pub open spec fn int_str(n: int) -> Seq<char> {
    if n < 0 {
        seq!['-'] + dec_str((-n) as nat)
    } else {
        dec_str(n as nat)
    }
}

fn digit_str(d: u64) -> (s: &'static str)
    requires
        d < 10,
    ensures
        s@ =~= seq![digit_char(d as nat)],
{
    proof {
        reveal_strlit("0");
        reveal_strlit("1");
        reveal_strlit("2");
        reveal_strlit("3");
        reveal_strlit("4");
        reveal_strlit("5");
        reveal_strlit("6");
        reveal_strlit("7");
        reveal_strlit("8");
        reveal_strlit("9");
    }
    if d == 0 { "0" }
    else if d == 1 { "1" }
    else if d == 2 { "2" }
    else if d == 3 { "3" }
    else if d == 4 { "4" }
    else if d == 5 { "5" }
    else if d == 6 { "6" }
    else if d == 7 { "7" }
    else if d == 8 { "8" }
    else { "9" }
}

/// Renders an unsigned integer in decimal.
pub fn u64_to_string(n: u64) -> (s: String)
    ensures
        s@ == dec_str(n as nat),
    decreases n,
{
    if n < 10 {
        String::from_str(digit_str(n))
    } else {
        let mut s = u64_to_string(n / 10);
        s.append(digit_str(n % 10));
        proof {
            assert(s@ =~= dec_str((n / 10) as nat).push(digit_char((n % 10) as nat)));
        }
        s
    }
}

/// Renders a signed integer in decimal.
pub fn i64_to_string(n: i64) -> (s: String)
    ensures
        s@ == int_str(n as int),
{
    if n >= 0 {
        u64_to_string(n as u64)
    } else {
        let mag: u64 = if n == i64::MIN {
            9223372036854775808u64
        } else {
            (-n) as u64
        };
        proof {
            reveal_strlit("-");
        }
        let mut s = String::from_str("-");
        let rest = u64_to_string(mag);
        s.append(rest.as_str());
        proof {
            assert(s@ =~= seq!['-'] + dec_str((-(n as int)) as nat));
        }
        s
    }
}

/// The rendering of a nonnegative amount of cents as a decimal number of
/// whole units: no fraction when the cents part is zero, one fractional
/// digit when the cents part is a multiple of ten, two otherwise.
pub open spec fn amount_str(cents: nat) -> Seq<char> {
    let whole = cents / 100;
    let frac = cents % 100;
    if frac == 0 {
        dec_str(whole)
    } else if frac % 10 == 0 {
        dec_str(whole).push('.').push(digit_char(frac / 10))
    } else {
        dec_str(whole).push('.').push(digit_char(frac / 10)).push(digit_char(frac % 10))
    }
}

/// Renders an amount of cents as a decimal number of whole units
/// (`2050` cents renders as `20.5`).
pub fn cents_to_string(cents: u64) -> (s: String)
    ensures
        s@ == amount_str(cents as nat),
{
    let whole = cents / 100;
    let frac = cents % 100;
    let mut s = u64_to_string(whole);
    if frac == 0 {
        s
    } else {
        proof {
            reveal_strlit(".");
        }
        s.append(".");
        s.append(digit_str(frac / 10));
        if frac % 10 == 0 {
            proof {
                assert(s@ =~= amount_str(cents as nat));
            }
            s
        } else {
            s.append(digit_str(frac % 10));
            proof {
                assert(s@ =~= amount_str(cents as nat));
            }
            s
        }
    }
}

/// Whether `c` is a decimal digit.
pub open spec fn is_digit(c: char) -> bool {
    '0' <= c <= '9'
}

/// The value of a digit character.
pub open spec fn digit_val(c: char) -> int {
    c as int - '0' as int
}

/// All characters are decimal digits.
pub open spec fn all_digits(s: Seq<char>) -> bool {
    forall|i: int| 0 <= i < s.len() ==> is_digit(#[trigger] s[i])
}

/// The value of a digit string, most significant digit first.
pub open spec fn digits_val(s: Seq<char>) -> int
    decreases s.len(),
{
    if s.len() == 0 {
        0
    } else {
        digits_val(s.drop_last()) * 10 + digit_val(s.last())
    }
}

/// What parsing an unsigned decimal returns: the value of the digits,
/// if the text is one or more digits and the value fits.
pub open spec fn spec_parse_u64(s: Seq<char>) -> Option<u64> {
    if s.len() > 0 && all_digits(s) && digits_val(s) <= u64::MAX {
        Some(digits_val(s) as u64)
    } else {
        None
    }
}

/// Parses an unsigned decimal number.
pub fn parse_u64(s: &str) -> (r: Option<u64>)
    ensures
        r == spec_parse_u64(s@),
{
    let ghost cs = s@;
    if !s.is_ascii() {
        proof {
            let bad = choose|i: int| 0 <= i < cs.len() && !('\0' <= #[trigger] cs[i] <= '\u{7f}');
            if cs.len() > 0 && all_digits(cs) {
                assert(is_digit(cs[bad]));
            }
        }
        return None;
    }
    let bytes = s.as_bytes();
    if bytes.len() == 0 {
        return None;
    }
    proof {
        vstd::string::is_ascii_spec_bytes(s);
        assert(bytes@.len() == cs.len());
    }
    let mut i: usize = 0;
    let mut acc: u64 = 0;
    while i < bytes.len()
        invariant
            s.spec_bytes() == bytes@,
            i <= bytes@.len(),
            cs == s@,
            cs.len() == bytes@.len(),
            forall|j: int| 0 <= j < cs.len() ==> #[trigger] bytes@[j] == cs[j] as u8,
            forall|j: int| 0 <= j < cs.len() ==> '\0' <= #[trigger] cs[j] <= '\u{7f}',
            all_digits(cs.subrange(0, i as int)),
            acc as int == digits_val(cs.subrange(0, i as int)),
            digits_val(cs.subrange(0, i as int)) <= u64::MAX,
        decreases bytes@.len() - i,
    {
        let b = bytes[i];
        if b < 48 || b > 57 {
            proof {
                assert((cs[i as int]) as u8 == b);
                assert(((cs[i as int]) as int) < 128);
                assert(!is_digit(cs[i as int]));
                assert(!all_digits(cs));
            }
            return None;
        }
        let d = (b - 48) as u64;
        proof {
            assert((cs[i as int]) as u8 == b);
            assert(((cs[i as int]) as int) < 128);
            assert(is_digit(cs[i as int]));
            assert(digit_val(cs[i as int]) == d as int);
        }
        if acc > (u64::MAX - d) / 10 {
            proof {
                let pre = cs.subrange(0, i + 1);
                assert(pre.drop_last() =~= cs.subrange(0, i as int));
                assert(digits_val(pre) > u64::MAX);
                digits_val_prefix_monotonic(cs, i + 1);
            }
            return None;
        }
        acc = acc * 10 + d;
        proof {
            let pre = cs.subrange(0, i + 1);
            assert(pre.drop_last() =~= cs.subrange(0, i as int));
            assert(pre.last() == cs[i as int]);
        }
        i += 1;
    }
    proof {
        assert(cs.subrange(0, cs.len() as int) =~= cs);
    }
    Some(acc)
}

/// A string of digits has a nonnegative value.
proof fn digits_val_nonneg(s: Seq<char>)
    requires
        all_digits(s),
    ensures
        digits_val(s) >= 0,
    decreases s.len(),
{
    if s.len() > 0 {
        assert(all_digits(s.drop_last()));
        digits_val_nonneg(s.drop_last());
    }
}

/// A digit string's value only grows as digits are appended.
proof fn digits_val_prefix_monotonic(s: Seq<char>, i: int)
    requires
        0 < i <= s.len(),
        all_digits(s.subrange(0, i)),
    ensures
        digits_val(s) >= digits_val(s.subrange(0, i)) || !all_digits(s),
    decreases s.len() - i,
{
    if i == s.len() {
        assert(s.subrange(0, i) =~= s);
    } else {
        if is_digit(s[i]) {
            let pre = s.subrange(0, i + 1);
            assert(pre.drop_last() =~= s.subrange(0, i));
            assert(pre.last() == s[i]);
            assert(all_digits(pre));
            digits_val_nonneg(s.subrange(0, i));
            assert(digits_val(pre) >= digits_val(s.subrange(0, i)));
            digits_val_prefix_monotonic(s, i + 1);
        } else {
            assert(!all_digits(s));
        }
    }
}

} // verus!
