//! Decimal numbers as text.

use vstd::prelude::*;

verus! {

/// Whether `c` is one of the digits `0` to `9`.
pub open spec fn is_digit(c: char) -> bool {
    '0' <= c <= '9'
}

/// The value of a digit.
pub open spec fn digit_value(c: char) -> nat {
    (c as u32 - '0' as u32) as nat
}

/// Whether every character of `s` is a digit.
pub open spec fn all_digits(s: Seq<char>) -> bool {
    forall|i: int| 0 <= i < s.len() ==> is_digit(#[trigger] s[i])
}

/// The number that the digits of `s` write in base ten; 0 for no digits.
pub open spec fn digits_value(s: Seq<char>) -> nat
    decreases s.len(),
{
    if s.len() == 0 {
        0
    } else {
        digits_value(s.drop_last()) * 10 + digit_value(s.last())
    }
}

/// `s` without a leading plus sign.
pub open spec fn unsigned_body(s: Seq<char>) -> Seq<char> {
    if s.len() > 0 && s[0] == '+' {
        s.subrange(1, s.len() as int)
    } else {
        s
    }
}

/// The number that `s` writes, when `s` is an optional plus sign followed by
/// one or more digits whose value does not exceed `max`.
pub open spec fn parse_number(s: Seq<char>, max: nat) -> Option<nat> {
    let body = unsigned_body(s);
    if body.len() > 0 && all_digits(body) && digits_value(body) <= max {
        Some(digits_value(body))
    } else {
        None
    }
}

/// A longer run of digits does not write a smaller number than its prefix.
pub proof fn lemma_digits_monotonic(s: Seq<char>, n: int)
    requires
        0 <= n <= s.len(),
    ensures
        digits_value(s.take(n)) <= digits_value(s),
    decreases s.len() - n,
{
    if n == s.len() {
        assert(s.take(n) =~= s);
    } else {
        lemma_digits_monotonic(s, n + 1);
        assert(s.take(n + 1).drop_last() =~= s.take(n));
        assert(digits_value(s.take(n + 1)) == digits_value(s.take(n)) * 10 + digit_value(
            s.take(n + 1).last(),
        ));
    }
}

/// The value of an optional machine integer.
pub open spec fn number_view(r: Option<u64>) -> Option<nat> {
    match r {
        Some(v) => Some(v as nat),
        None => None,
    }
}

/// Reads a decimal number of at most `max`: an optional plus sign, then one
/// or more digits.
pub fn parse_decimal(s: &[char], max: u64) -> (r: Option<u64>)
    ensures
        number_view(r) == parse_number(s@, max as nat),
{
    let start: usize = if s.len() > 0 && s[0] == '+' {
        1
    } else {
        0
    };
    let ghost body = unsigned_body(s@);
    proof {
        assert(body =~= s@.subrange(start as int, s.len() as int));
    }
    if start >= s.len() {
        return None;
    }
    let mut value: u64 = 0;
    let mut i: usize = start;
    while i < s.len()
        invariant
            start <= i <= s.len(),
            body == s@.subrange(start as int, s.len() as int),
            body == unsigned_body(s@),
            all_digits(body.take(i - start)),
            value == digits_value(body.take(i - start)),
            value <= max,
        decreases s.len() - i,
    {
        let c = s[i];
        let ghost k = i - start;
        proof {
            assert(body[k] == c);
            assert(body.take(k + 1).drop_last() =~= body.take(k));
            assert(body.take(k + 1).last() == c);
        }
        if c < '0' || c > '9' {
            proof {
                assert(!is_digit(body[k]));
            }
            return None;
        }
        let d: u64 = (c as u32 - '0' as u32) as u64;
        proof {
            assert(digits_value(body.take(k + 1)) == value * 10 + d);
            lemma_digits_monotonic(body, k + 1);
        }
        if d > max {
            return None;
        }
        if value > (max - d) / 10 {
            proof {
                // the digits read so far already write a number above `max`
                assert(value * 10 + d > max) by (nonlinear_arith)
                    requires
                        value > (max - d) / 10,
                        d <= max,
                ;
            }
            return None;
        }
        proof {
            assert(value * 10 + d <= max) by (nonlinear_arith)
                requires
                    value <= (max - d) / 10,
                    d <= max,
            ;
            assert forall|m: int| 0 <= m < k + 1 implies is_digit(#[trigger] body.take(k + 1)[m]) by {
                if m < k {
                    assert(body.take(k + 1)[m] == body.take(k)[m]);
                }
            }
        }
        value = value * 10 + d;
        i = i + 1;
    }
    proof {
        assert(body.take(i - start) =~= body);
    }
    Some(value)
}

/// The digits that write `n` in base ten, without leading zeros; `0` for 0.
pub open spec fn decimal(n: nat) -> Seq<char>
    decreases n,
{
    if n < 10 {
        seq![digit_char(n)]
    } else {
        decimal(n / 10).push(digit_char(n % 10))
    }
}

/// The digit that writes `d`, for `d` below ten.
pub open spec fn digit_char(d: nat) -> char {
    ('0' as u32 + d) as char
}

/// Writes `n` in base ten.
pub fn decimal_text(n: u64) -> (out: Vec<char>)
    ensures
        out@ == decimal(n as nat),
{
    let mut reversed: Vec<char> = Vec::new();
    let mut rest: u64 = n;
    while rest >= 10
        invariant
            decimal(n as nat) == decimal(rest as nat) + reversed@.reverse(),
        decreases rest,
    {
        let d: u32 = (rest % 10) as u32;
        let c = digit(d);
        proof {
            assert(decimal(rest as nat) == decimal(rest as nat / 10).push(c));
            assert(reversed@.push(c).reverse() =~= seq![c] + reversed@.reverse());
            assert(decimal(rest as nat / 10).push(c) + reversed@.reverse() =~= decimal(
                rest as nat / 10,
            ) + reversed@.push(c).reverse());
        }
        reversed.push(c);
        rest = rest / 10;
    }
    let mut out: Vec<char> = Vec::new();
    out.push(digit(rest as u32));
    let mut i: usize = reversed.len();
    while i > 0
        invariant
            i <= reversed.len(),
            out@ == decimal(rest as nat) + reversed@.reverse().take(reversed.len() - i),
        decreases i,
    {
        i = i - 1;
        out.push(reversed[i]);
        proof {
            let r = reversed@.reverse();
            let k = reversed.len() - i - 1;
            assert(r[k] == reversed@[i as int]);
            assert(r.take(k + 1) =~= r.take(k).push(r[k]));
            assert(out@ =~= decimal(rest as nat) + r.take(k + 1));
        }
    }
    proof {
        assert(reversed@.reverse().take(reversed.len() as int) =~= reversed@.reverse());
    }
    out
}

/// The digit that writes `d`.
pub fn digit(d: u32) -> (c: char)
    requires
        d < 10,
    ensures
        c == digit_char(d as nat),
{
    if d == 0 {
        '0'
    } else if d == 1 {
        '1'
    } else if d == 2 {
        '2'
    } else if d == 3 {
        '3'
    } else if d == 4 {
        '4'
    } else if d == 5 {
        '5'
    } else if d == 6 {
        '6'
    } else if d == 7 {
        '7'
    } else if d == 8 {
        '8'
    } else {
        '9'
    }
}

} // verus!
