//! Whole numbers as text: reading decimal digits and writing them.

use vstd::prelude::*;
use vstd::string::StringExecFns;

verus! {

/// The value of a decimal digit.
pub open spec fn digit_value(c: char) -> Option<int> {
    if '0' <= c && c <= '9' {
        Some(c as int - '0' as int)
    } else {
        None
    }
}

/// The number that the digits `s` spell; `None` where `s` is empty or
/// holds anything but digits.
pub open spec fn decimal(s: Seq<char>) -> Option<int>
    decreases s.len(),
{
    if s.len() == 0 {
        None
    } else if s.len() == 1 {
        digit_value(s[0])
    } else {
        match (decimal(s.drop_last()), digit_value(s.last())) {
            (Some(a), Some(d)) => Some(a * 10 + d),
            _ => None,
        }
    }
}

/// The whole number that `s` spells: digits, with a minus sign in front
/// for a negative number.
pub open spec fn integer(s: Seq<char>) -> Option<int> {
    if s.len() > 0 && s[0] == '-' {
        match decimal(s.drop_first()) {
            Some(n) => Some(-n),
            None => None,
        }
    } else {
        decimal(s)
    }
}

/// The number that `s` spells, where it fits in an `i64`.
pub open spec fn integer_i64(s: Seq<char>) -> Option<i64> {
    match integer(s) {
        Some(n) => if i64::MIN <= n <= i64::MAX {
            Some(n as i64)
        } else {
            None
        },
        None => None,
    }
}

/// Digits spell no negative number, and more digits spell no smaller one.
pub proof fn lemma_decimal_grows(s: Seq<char>, k: int)
    requires
        1 <= k <= s.len(),
        decimal(s) is Some,
    ensures
        decimal(s.subrange(0, k)) is Some,
        0 <= decimal(s.subrange(0, k))->0 <= decimal(s)->0,
    decreases s.len(),
{
    if k == s.len() {
        assert(s.subrange(0, k) =~= s);
        if s.len() > 1 {
            lemma_decimal_grows(s.drop_last(), s.len() - 1);
            assert(s.drop_last().subrange(0, s.len() - 1) =~= s.drop_last());
        }
    } else {
        lemma_decimal_grows(s.drop_last(), k);
        assert(s.drop_last().subrange(0, k) =~= s.subrange(0, k));
    }
}

/// The value of the digit `c`, if it is one.
pub fn digit_of(c: char) -> (r: Option<u8>)
    ensures
        match r {
            Some(d) => digit_value(c) == Some(d as int) && d <= 9,
            None => digit_value(c) is None,
        },
{
    if '0' <= c && c <= '9' {
        let d: u32 = c as u32 - '0' as u32;
        Some(d as u8)
    } else {
        None
    }
}

/// Reads the digits of `s` from `start` to `end` as a number of at most
/// `limit`. `None` where there is no digit, something else than a digit,
/// or a greater number.
pub fn parse_decimal(s: &str, start: usize, end: usize, limit: u64) -> (r: Option<u64>)
    requires
        start <= end <= s@.len(),
    ensures
        match r {
            Some(n) => decimal(s@.subrange(start as int, end as int)) == Some(n as int) && n
                <= limit,
            None => decimal(s@.subrange(start as int, end as int)) is None || decimal(
                s@.subrange(start as int, end as int),
            )->0 > limit,
        },
{
    let ghost digits = s@.subrange(start as int, end as int);
    if start == end {
        return None;
    }
    let mut value: u64 = 0;
    let mut i: usize = start;
    while i < end
        invariant
            start <= i <= end <= s@.len(),
            digits == s@.subrange(start as int, end as int),
            i > start ==> decimal(digits.subrange(0, i - start)) == Some(value as int),
            i == start ==> value == 0,
            value <= limit,
        decreases end - i,
    {
        let ghost part = digits.subrange(0, i + 1 - start);
        assert(part.last() == s@[i as int]);
        assert(part.drop_last() =~= digits.subrange(0, i - start));
        match digit_of(s.get_char(i)) {
            Some(d) => {
                if limit < d as u64 || value > (limit - d as u64) / 10 {
                    proof {
                        if decimal(digits) is Some {
                            lemma_decimal_grows(digits, i + 1 - start);
                        }
                    }
                    return None;
                }
                value = value * 10 + d as u64;
            },
            None => {
                proof {
                    if decimal(digits) is Some {
                        lemma_decimal_grows(digits, i + 1 - start);
                    }
                }
                return None;
            },
        }
        i += 1;
    }
    assert(digits.subrange(0, end - start) =~= digits);
    Some(value)
}

/// Reads `s` as a whole number that fits in an `i64`.
pub fn parse_integer(s: &str) -> (r: Option<i64>)
    ensures
        r == integer_i64(s@),
{
    let n = s.unicode_len();
    if n == 0 {
        return None;
    }
    if s.get_char(0) == '-' {
        assert(s@.drop_first() =~= s@.subrange(1, n as int));
        match parse_decimal(s, 1, n, 0x8000_0000_0000_0000) {
            Some(v) => {
                if v == 0x8000_0000_0000_0000 {
                    Some(i64::MIN)
                } else {
                    Some(-(v as i64))
                }
            },
            None => None,
        }
    } else {
        assert(s@ =~= s@.subrange(0, n as int));
        match parse_decimal(s, 0, n, 0x7fff_ffff_ffff_ffff) {
            Some(v) => Some(v as i64),
            None => {
                proof {
                    if decimal(s@) is Some {
                        lemma_decimal_grows(s@, 1);
                    }
                }
                None
            },
        }
    }
}

/// The character of the digit `d`.
pub open spec fn digit_char(d: int) -> char {
    ('0' as int + d) as char
}

/// The decimal digits of `n`, without leading zeros.
pub open spec fn decimal_text(n: nat) -> Seq<char>
    decreases n,
{
    if n < 10 {
        seq![digit_char(n as int)]
    } else {
        decimal_text(n / 10).push(digit_char((n % 10) as int))
    }
}

/// The text of the whole number `n`.
pub open spec fn integer_text(n: int) -> Seq<char> {
    if n < 0 {
        seq!['-'] + decimal_text((-n) as nat)
    } else {
        decimal_text(n as nat)
    }
}

/// The one-character text of the digit `d`.
pub fn digit_str(d: u8) -> (r: &'static str)
    requires
        d <= 9,
    ensures
        r@ == seq![digit_char(d as int)],
{
    proof {
        reveal_strlit("0");
        reveal_strlit("1");
        reveal_strlit("2");
        reveal_strlit("3");
        reveal_strlit("4");
        reveal_strlit("5");
        reveal_strlit("6");
        reveal_strlit("7");
        reveal_strlit("8");
        reveal_strlit("9");
    }
    let r = if d == 0 {
        "0"
    } else if d == 1 {
        "1"
    } else if d == 2 {
        "2"
    } else if d == 3 {
        "3"
    } else if d == 4 {
        "4"
    } else if d == 5 {
        "5"
    } else if d == 6 {
        "6"
    } else if d == 7 {
        "7"
    } else if d == 8 {
        "8"
    } else {
        "9"
    };
    assert(r@ =~= seq![digit_char(d as int)]);
    r
}

/// Writes the decimal digits of `n` at the end of `out`.
pub fn write_decimal(n: u64, out: &mut String)
    ensures
        final(out)@ == old(out)@ + decimal_text(n as nat),
    decreases n,
{
    if n >= 10 {
        write_decimal(n / 10, out);
    }
    out.append(digit_str((n % 10) as u8));
    assert(out@ =~= old(out)@ + decimal_text(n as nat));
}

/// The text of the whole number `n`.
pub fn integer_to_string(n: i64) -> (r: String)
    ensures
        r@ == integer_text(n as int),
{
    let mut out = String::new();
    if n < 0 {
        proof {
            reveal_strlit("-");
        }
        out.append("-");
        let magnitude: u64 = if n == i64::MIN {
            0x8000_0000_0000_0000
        } else {
            (-n) as u64
        };
        write_decimal(magnitude, &mut out);
        assert(out@ =~= integer_text(n as int));
    } else {
        write_decimal(n as u64, &mut out);
        assert(out@ =~= integer_text(n as int));
    }
    out
}

/// The digits behind the point of `r / count`, at most `places` of them,
/// up to the place where the division comes out even.
pub open spec fn fraction_digits(r: int, count: int, places: nat) -> Seq<char>
    decreases places,
{
    if r <= 0 || count <= 0 || places == 0 {
        Seq::empty()
    } else {
        seq![digit_char(r * 10 / count)] + fraction_digits(
            r * 10 % count,
            count,
            (places - 1) as nat,
        )
    }
}

/// The text of a number with digits behind the point.
pub open spec fn fraction_text(negative: bool, whole: nat, fraction: Seq<char>) -> Seq<char> {
    (if negative {
        seq!['-']
    } else {
        Seq::empty()
    }) + decimal_text(whole) + seq!['.'] + fraction
}

/// The digits behind the point of `r / count`, at most nine of them.
pub fn fraction_to_string(r: u128, count: u128) -> (out: String)
    requires
        r < count,
        count <= 0x1_0000_0000_0000_0000_0000_0000,
    ensures
        out@ == fraction_digits(r as int, count as int, 9),
{
    let mut out = String::new();
    let mut rem: u128 = r;
    let mut left: u8 = 9;
    while rem > 0 && left > 0
        invariant
            rem < count,
            count <= 0x1_0000_0000_0000_0000_0000_0000,
            left <= 9,
            out@ + fraction_digits(rem as int, count as int, left as nat) == fraction_digits(
                r as int,
                count as int,
                9,
            ),
        decreases left,
    {
        let ghost rm = rem as int;
        let ghost ct = count as int;
        assert(0 <= rm * 10 / ct <= 9 && 0 <= rm * 10 % ct < ct) by (nonlinear_arith)
            requires
                0 <= rm < ct,
        ;
        let d: u128 = rem * 10 / count;
        let ghost before = out@;
        out.append(digit_str(d as u8));
        assert(before + fraction_digits(rm, ct, left as nat) =~= out@ + fraction_digits(
            rm * 10 % ct,
            ct,
            (left - 1) as nat,
        ));
        rem = rem * 10 % count;
        left -= 1;
    }
    assert(out@ + fraction_digits(rem as int, count as int, left as nat) =~= out@);
    out
}

/// The text of a number with digits behind the point.
pub fn fraction_to_text(negative: bool, whole: u64, fraction: &str) -> (out: String)
    ensures
        out@ == fraction_text(negative, whole as nat, fraction@),
{
    let mut out = String::new();
    proof {
        reveal_strlit("-");
        reveal_strlit(".");
    }
    if negative {
        out.append("-");
    }
    write_decimal(whole, &mut out);
    out.append(".");
    out.append(fraction);
    assert(out@ =~= fraction_text(negative, whole as nat, fraction@));
    out
}

} // verus!
