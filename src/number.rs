//! Decimal integers: how a token is read as an integer of a given range, and
//! how an integer is written back in canonical form.
use vstd::prelude::*;
use crate::text::push_char;

verus! {

pub open spec fn is_digit(c: char) -> bool {
    '0' <= c && c <= '9'
}

pub open spec fn digit_value(c: char) -> nat {
    (c as int - '0' as int) as nat
}

pub open spec fn all_digits(s: Seq<char>) -> bool {
    forall|i: int| 0 <= i < s.len() ==> is_digit(#[trigger] s[i])
}

/// The number written by the decimal digits `s` (leading zeros allowed).
pub open spec fn digits_value(s: Seq<char>) -> nat
    decreases s.len(),
{
    if s.len() == 0 {
        0
    } else {
        digits_value(s.drop_last()) * 10 + digit_value(s.last())
    }
}

/// The unsigned part of a token: one or more decimal digits.
pub open spec fn magnitude_of(s: Seq<char>) -> Option<nat> {
    if s.len() > 0 && all_digits(s) {
        Some(digits_value(s))
    } else {
        None
    }
}

/// The integer that `s` spells: an optional `+` (or `-` when `signed`),
/// then at least one decimal digit. No bounds are applied here.
pub open spec fn integer_of(s: Seq<char>, signed: bool) -> Option<int> {
    if s.len() > 0 && s[0] == '+' {
        match magnitude_of(s.drop_first()) {
            Some(m) => Some(m as int),
            None => None,
        }
    } else if signed && s.len() > 0 && s[0] == '-' {
        match magnitude_of(s.drop_first()) {
            Some(m) => Some(-(m as int)),
            None => None,
        }
    } else {
        match magnitude_of(s) {
            Some(m) => Some(m as int),
            None => None,
        }
    }
}

pub open spec fn digit_char(d: nat) -> char {
    if d == 0 { '0' }
    else if d == 1 { '1' }
    else if d == 2 { '2' }
    else if d == 3 { '3' }
    else if d == 4 { '4' }
    else if d == 5 { '5' }
    else if d == 6 { '6' }
    else if d == 7 { '7' }
    else if d == 8 { '8' }
    else { '9' }
}

/// The canonical decimal form of `n`: no sign, no leading zero.
pub open spec fn decimal_of_nat(n: nat) -> Seq<char>
    decreases n,
{
    if n < 10 {
        seq![digit_char(n)]
    } else {
        decimal_of_nat(n / 10).push(digit_char(n % 10))
    }
}

/// The canonical decimal form of `v`, with a `-` when it is negative.
pub open spec fn decimal_of_int(v: int) -> Seq<char> {
    if v < 0 {
        seq!['-'] + decimal_of_nat((-v) as nat)
    } else {
        decimal_of_nat(v as nat)
    }
}

/// The largest magnitude tracked while reading digits; anything at least
/// this large is out of every supported range.
pub const MAGNITUDE_CAP: u128 = 0x1_0000_0000_0000_0000;

/// Reads the digits `s[start..]`, capping the value at `MAGNITUDE_CAP`.
fn read_magnitude(s: &Vec<char>, start: usize) -> (r: Option<u128>)
    requires
        start <= s@.len(),
    ensures
        match magnitude_of(s@.subrange(start as int, s@.len() as int)) {
            Some(m) => r == Some(if m < MAGNITUDE_CAP { m as u128 } else { MAGNITUDE_CAP }),
            None => r is None,
        },
{
    let ghost whole = s@.subrange(start as int, s@.len() as int);
    if start == s.len() {
        return None;
    }
    let mut acc: u128 = 0;
    let mut i: usize = start;
    while i < s.len()
        invariant
            start <= i <= s@.len(),
            whole == s@.subrange(start as int, s@.len() as int),
            all_digits(s@.subrange(start as int, i as int)),
            acc == if digits_value(s@.subrange(start as int, i as int)) < MAGNITUDE_CAP {
                digits_value(s@.subrange(start as int, i as int)) as u128
            } else {
                MAGNITUDE_CAP
            },
        decreases s@.len() - i,
    {
        let c = s[i];
        if !('0' <= c && c <= '9') {
            proof {
                assert(whole[i - start] == c);
            }
            return None;
        }
        let d = (c as u32 - '0' as u32) as u128;
        let ghost before = s@.subrange(start as int, i as int);
        let ghost after = s@.subrange(start as int, i + 1);
        proof {
            assert(after.drop_last() =~= before);
            assert(after.last() == c);
            assert(digits_value(after) == digits_value(before) * 10 + d);
            assert forall|k: int| 0 <= k < after.len() implies is_digit(#[trigger] after[k]) by {
                if k < before.len() {
                    assert(after[k] == before[k]);
                }
            }
        }
        if acc < MAGNITUDE_CAP {
            assert(acc * 10 + d < 0x100_0000_0000_0000_0000) by (nonlinear_arith)
                requires acc < MAGNITUDE_CAP, d < 10;
            acc = acc * 10 + d;
            if acc > MAGNITUDE_CAP {
                acc = MAGNITUDE_CAP;
            }
        } else {
            assert(digits_value(before) * 10 + d >= MAGNITUDE_CAP) by (nonlinear_arith)
                requires digits_value(before) >= MAGNITUDE_CAP;
        }
        i = i + 1;
    }
    proof {
        assert(s@.subrange(start as int, i as int) =~= whole);
    }
    Some(acc)
}

/// Reads `s` as an integer of `integer_of(s@, signed)`; the magnitude is
/// capped at `MAGNITUDE_CAP`, and the flag tells a negative sign.
pub fn read_integer(s: &Vec<char>, signed: bool) -> (r: Option<(bool, u128)>)
    ensures
        match integer_of(s@, signed) {
            Some(v) => r == Some((v < 0, if abs(v) < MAGNITUDE_CAP { abs(v) as u128 } else { MAGNITUDE_CAP })),
            None => r is None,
        },
        r matches Some((neg, m)) ==> (neg ==> m > 0),
{
    if s.len() > 0 && s[0] == '+' {
        proof {
            assert(s@.subrange(1, s@.len() as int) =~= s@.drop_first());
        }
        match read_magnitude(s, 1) {
            Some(m) => Some((false, m)),
            None => None,
        }
    } else if signed && s.len() > 0 && s[0] == '-' {
        proof {
            assert(s@.subrange(1, s@.len() as int) =~= s@.drop_first());
        }
        match read_magnitude(s, 1) {
            Some(m) => Some((m > 0, m)),
            None => None,
        }
    } else {
        proof {
            assert(s@.subrange(0, s@.len() as int) =~= s@);
        }
        read_magnitude(s, 0)
            .map(|m: u128| -> (p: (bool, u128)) ensures p == (false, m) { (false, m) })
    }
}

pub open spec fn abs(v: int) -> nat {
    if v < 0 { (-v) as nat } else { v as nat }
}

fn digit_char_exec(d: u128) -> (c: char)
    requires
        d < 10,
    ensures
        c == digit_char(d as nat),
{
    if d == 0 { '0' }
    else if d == 1 { '1' }
    else if d == 2 { '2' }
    else if d == 3 { '3' }
    else if d == 4 { '4' }
    else if d == 5 { '5' }
    else if d == 6 { '6' }
    else if d == 7 { '7' }
    else if d == 8 { '8' }
    else { '9' }
}

/// Appends the canonical decimal form of `n` to `out`.
pub fn push_decimal(out: &mut String, n: u128)
    ensures
        final(out)@ == old(out)@ + decimal_of_nat(n as nat),
    decreases n,
{
    if n >= 10 {
        push_decimal(out, n / 10);
    }
    push_char(out, digit_char_exec(n % 10));
}

} // verus!
