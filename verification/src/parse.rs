//! The parser: a duration literal such as `"2 days"`, `"1.5 hours"` or
//! `"-500 ms"` becomes a signed count of milliseconds.
//!
//! A literal is an optional leading `-`, decimal digits, an optional
//! fractional part (`.` followed by digits), optional whitespace, and
//! an optional unit token of letters or underscores; whitespace
//! around the whole literal is ignored. A fractional count of
//! milliseconds is rounded half-up on the magnitude, i.e. ties round
//! away from zero.
use vstd::prelude::*;

use vstd::arithmetic::power::pow;

use crate::chars::{digit_val, digit_value_of, is_digit};
use crate::scan::{lemma_digits_value_bound, lemma_digits_value_left, lemma_digits_value_mono,
    lemma_digits_value_nonneg};
use vstd::arithmetic::power::lemma_pow_positive;
use vstd::string::StrSliceExecFns;
use crate::scan::{digit_run, digits_value, word_run, space_run, trimmed};
use crate::scan::{lemma_digit_run_facts, scan_digits, scan_word, scan_spaces,
    scan_trimmed_end};
use crate::units::{match_unit, multiplier, spec_multiplier, unit_of, Unit};

verus! {

/// The longest input the parser accepts, a guard against pathological
/// inputs.
pub const MAX_INPUT_LEN: usize = 100;

/// Why a string failed to parse as a duration literal.
#[derive(Clone, Copy, PartialEq, Eq, Structural, Debug)]
pub enum ErrorKind {
    /// The input is longer than [`MAX_INPUT_LEN`] characters.
    InputTooLong,
    /// The input does not have the shape `number [unit]`.
    InvalidFormat,
    /// The unit suffix is not in the alias table.
    UnknownUnit,
    /// The value does not fit in a signed 64-bit count of milliseconds.
    Overflow,
}

/// `num / den` rounded to the nearest integer, halves up.
pub open spec fn round_half_up(num: int, den: int) -> int {
    (2 * num + den) / (2 * den)
}

/// The magnitude in milliseconds of an unsigned literal with integer
/// digits `t[di..dj]`, fractional digits `t[fi..fj]`, and a unit worth
/// `m` milliseconds; the fractional contribution is rounded half-up.
pub open spec fn literal_magnitude(t: Seq<char>, di: int, dj: int, fi: int, fj: int, m: int) -> int {
    digits_value(t, di, dj) * m + round_half_up(
        digits_value(t, fi, fj) * m,
        pow(10, (fj - fi) as nat),
    )
}

/// What parsing the whitespace-trimmed literal `t` yields.
pub open spec fn parse_trimmed(t: Seq<char>) -> Result<i64, ErrorKind> {
    let neg = t.len() > 0 && t[0] == '-';
    let di = if neg {
        1int
    } else {
        0int
    };
    let dj = di + digit_run(t, di);
    if dj == di {
        Err(ErrorKind::InvalidFormat)
    } else {
        let dot = dj < t.len() && t[dj] == '.';
        let fi = if dot {
            dj + 1
        } else {
            dj
        };
        let fj = fi + digit_run(t, fi);
        if dot && fj == fi {
            Err(ErrorKind::InvalidFormat)
        } else {
            let ui = fj + space_run(t, fj);
            let uj = ui + word_run(t, ui);
            if uj != t.len() {
                Err(ErrorKind::InvalidFormat)
            } else {
                match unit_of(t.subrange(ui, uj)) {
                    None => Err(ErrorKind::UnknownUnit),
                    Some(u) => {
                        let mag = literal_magnitude(t, di, dj, fi, fj, spec_multiplier(u) as int);
                        if neg {
                            if mag > 0x8000_0000_0000_0000 {
                                Err(ErrorKind::Overflow)
                            } else {
                                Ok((-mag) as i64)
                            }
                        } else {
                            if mag > 0x7fff_ffff_ffff_ffff {
                                Err(ErrorKind::Overflow)
                            } else {
                                Ok(mag as i64)
                            }
                        }
                    },
                }
            }
        }
    }
}

/// What parsing the string `s` yields: the length guard, then the
/// grammar on the trimmed input.
pub open spec fn parse_spec(s: Seq<char>) -> Result<i64, ErrorKind> {
    if s.len() > MAX_INPUT_LEN {
        Err(ErrorKind::InputTooLong)
    } else {
        parse_trimmed(trimmed(s))
    }
}

/// Half-up rounding of `num / den`, read off the first decimal digit
/// of the quotient: with `w == (10 * num) / den` the result is
/// `w / 10`, plus one when the digit `w % 10` is five or more.
proof fn lemma_round_via_tenths(num: int, den: int)
    requires
        num >= 0,
        den >= 1,
    ensures
        ({
            let w = (10 * num) / den;
            round_half_up(num, den) == w / 10 + if w % 10 >= 5 {
                1int
            } else {
                0int
            }
        }),
{
    let w = (10 * num) / den;
    let a = w / 10;
    let b = w % 10;
    let q = a + if b >= 5 {
        1int
    } else {
        0int
    };
    vstd::arithmetic::div_mod::lemma_div_pos_is_pos(10 * num, den);
    vstd::arithmetic::div_mod::lemma_fundamental_div_mod(10 * num, den);
    vstd::arithmetic::div_mod::lemma_mod_bound(10 * num, den);
    let r1 = (10 * num) % den;
    vstd::arithmetic::div_mod::lemma_fundamental_div_mod(w, 10);
    vstd::arithmetic::div_mod::lemma_mod_bound(w, 10);
    assert(10 * num == (10 * a + b) * den + r1) by (nonlinear_arith)
        requires
            10 * num == den * w + r1,
            w == 10 * a + b,
    ;
    assert(q * (2 * den) <= 2 * num + den) by (nonlinear_arith)
        requires
            10 * num == (10 * a + b) * den + r1,
            0 <= r1,
            0 <= b < 10,
            den >= 1,
            q == a + (if b >= 5 {
                1int
            } else {
                0int
            }),
    ;
    assert(2 * num + den < (q + 1) * (2 * den)) by (nonlinear_arith)
        requires
            10 * num == (10 * a + b) * den + r1,
            r1 < den,
            0 <= b < 10,
            den >= 1,
            q == a + (if b >= 5 {
                1int
            } else {
                0int
            }),
    ;
    assert((q + 1) * (2 * den) == q * (2 * den) + 2 * den) by (nonlinear_arith);
    vstd::arithmetic::div_mod::lemma_fundamental_div_mod_converse(
        2 * num + den,
        2 * den,
        q,
        2 * num + den - q * (2 * den),
    );
}

/// The value of the digits `s[from..to]`, when it stays within the
/// magnitude `2^63` a signed 64-bit count could still reach; a larger
/// value is reported as such, since it can only overflow.
fn digits_to_u128(s: &str, from: usize, to: usize) -> (r: Option<u128>)
    requires
        from <= to && to <= s@.len(),
        forall|x: int| from <= x < to ==> is_digit(#[trigger] s@[x]),
    ensures
        match r {
            Some(v) => v == digits_value(s@, from as int, to as int) && v
                <= 0x8000_0000_0000_0000u128,
            None => digits_value(s@, from as int, to as int) > 0x8000_0000_0000_0000,
        },
{
    let mut acc: u128 = 0;
    let mut i = from;
    while i < to
        invariant
            from <= i <= to <= s@.len(),
            forall|x: int| from <= x < to ==> is_digit(#[trigger] s@[x]),
            acc == digits_value(s@, from as int, i as int),
            acc <= 0x8000_0000_0000_0000u128,
        decreases to - i,
    {
        let d = digit_value_of(s.get_char(i));
        let next: u128 = acc * 10 + (d as u128);
        proof {
            assert(digits_value(s@, from as int, i + 1) == digits_value(s@, from as int, i as int)
                * 10 + digit_val(s@[i as int]));
        }
        if next > 0x8000_0000_0000_0000u128 {
            proof {
                lemma_digits_value_mono(s@, from as int, i + 1, to as int);
            }
            return None;
        }
        acc = next;
        i = i + 1;
    }
    Some(acc)
}

/// The rounded contribution of the fractional digits `s[fi..fj]` for a
/// unit worth `m` milliseconds: `0.<digits> * m`, rounded half-up.
fn frac_contribution(s: &str, fi: usize, fj: usize, m: u64) -> (r: u64)
    requires
        fi <= fj && fj <= s@.len(),
        forall|x: int| fi <= x < fj ==> is_digit(#[trigger] s@[x]),
        1 <= m <= 0x8_0000_0000u64,
    ensures
        r == round_half_up(
            digits_value(s@, fi as int, fj as int) * m,
            pow(10, (fj - fi) as nat),
        ),
        r <= m,
{
    if fj == fi {
        proof {
            vstd::arithmetic::power::lemma_pow0(10);
            assert(round_half_up(0, 1) == 0) by {
                vstd::arithmetic::div_mod::lemma_fundamental_div_mod_converse(1, 2, 0, 1);
            }
        }
        return 0;
    }
    let ghost sq = s@;
    proof {
        vstd::arithmetic::power::lemma_pow0(10);
        assert(digits_value(sq, fj as int, fj as int) == 0);
        vstd::arithmetic::div_mod::lemma_div_of0(1);
    }
    let mut c: u64 = 0;
    let mut i = fj;
    while i > fi + 1
        invariant
            fi + 1 <= i <= fj <= sq.len(),
            sq == s@,
            forall|x: int| fi <= x < fj ==> is_digit(#[trigger] sq[x]),
            1 <= m <= 0x8_0000_0000u64,
            c == digits_value(sq, i as int, fj as int) * m / pow(10, (fj - i) as nat),
            c < m,
        decreases i,
    {
        let d = digit_value_of(s.get_char(i - 1)) as u64;
        proof {
            lemma_frac_step(sq, i - 1, fj as int, m as int, c as int, d as int);
        }
        c = (d * m + c) / 10;
        i = i - 1;
    }
    let d0 = digit_value_of(s.get_char(fi)) as u64;
    proof {
        vstd::arithmetic::mul::lemma_mul_inequality(d0 as int, 9, m as int);
    }
    let w = d0 * m + c;
    proof {
        let fii = fi as int;
        let fjj = fj as int;
        let k = (fj - fi) as nat;
        let f = digits_value(sq, fii, fjj);
        let p1 = pow(10, (k - 1) as nat);
        lemma_pow_positive(10, (k - 1) as nat);
        lemma_digits_value_nonneg(sq, fii + 1, fjj);
        lemma_digits_value_left(sq, fii, fjj);
        // w == (f * m) / p1
        assert(f * m == (digits_value(sq, fii + 1, fjj) * m) + (digit_val(sq[fii]) * m) * p1)
            by (nonlinear_arith)
            requires
                f == digit_val(sq[fii]) * p1 + digits_value(sq, fii + 1, fjj),
        ;
        vstd::arithmetic::div_mod::lemma_hoist_over_denominator(
            digits_value(sq, fii + 1, fjj) * m,
            (digit_val(sq[fii]) * m) as int,
            p1 as nat,
        );
        assert(w == f * m / p1);
        // f * m / p1 == 10 * (f * m) / pow(10, k)
        lemma_digits_value_nonneg(sq, fii, fjj);
        vstd::arithmetic::mul::lemma_mul_nonnegative(f, m as int);
        vstd::arithmetic::div_mod::lemma_div_multiples_vanish(f * m, 10);
        vstd::arithmetic::div_mod::lemma_div_denominator(10 * (f * m), 10, p1);
        vstd::arithmetic::power::lemma_pow1(10);
        vstd::arithmetic::power::lemma_pow_adds(10, 1, (k - 1) as nat);
        assert(pow(10, k) == 10 * p1);
        assert(w == 10 * (f * m) / pow(10, k));
        lemma_round_via_tenths(f * m, pow(10, k));
        // the result stays at or below m
        lemma_digits_value_bound(sq, fii, fjj);
        assert(f * m <= (pow(10, k) - 1) * m) by (nonlinear_arith)
            requires
                f <= pow(10, k) - 1,
                m >= 1,
        ;
        assert(pow(10, k) >= 10) by {
            vstd::arithmetic::power::lemma_pow1(10);
            vstd::arithmetic::power::lemma_pow_increases(10, 1, k);
        }
        assert((pow(10, k) - 1) * m * 2 + pow(10, k) <= (2 * pow(10, k)) * m + pow(10, k) - 2)
            by (nonlinear_arith)
            requires
                m >= 1,
                pow(10, k) >= 10,
        ;
        lemma_round_upper(f * m, pow(10, k), m as int);
    }
    let r = w / 10 + if w % 10 >= 5 {
        1u64
    } else {
        0u64
    };
    r
}

/// One right-to-left step of the fractional long division: absorbing
/// the next digit keeps the running quotient exact and below `m`.
proof fn lemma_frac_step(s: Seq<char>, i: int, fj: int, m: int, c: int, d: int)
    requires
        0 <= i < fj <= s.len(),
        forall|x: int| i <= x < fj ==> is_digit(#[trigger] s[x]),
        m >= 1,
        d == digit_val(s[i]),
        c == digits_value(s, i + 1, fj) * m / pow(10, (fj - i - 1) as nat),
        c < m,
    ensures
        (d * m + c) / 10 == digits_value(s, i, fj) * m / pow(10, (fj - i) as nat),
        (d * m + c) / 10 < m,
{
    let p = pow(10, (fj - i - 1) as nat);
    let s1 = digits_value(s, i + 1, fj);
    let s2 = digits_value(s, i, fj);
    lemma_pow_positive(10, (fj - i - 1) as nat);
    lemma_digits_value_nonneg(s, i + 1, fj);
    lemma_digits_value_left(s, i, fj);
    assert(s2 * m == s1 * m + (d * m) * p) by (nonlinear_arith)
        requires
            s2 == d * p + s1,
    ;
    vstd::arithmetic::div_mod::lemma_hoist_over_denominator(s1 * m, d * m, p as nat);
    assert(d * m + c == (s2 * m) / p);
    vstd::arithmetic::mul::lemma_mul_nonnegative(s1, m);
    assert(s2 * m >= 0) by (nonlinear_arith)
        requires
            s2 == d * p + s1,
            s1 * m >= 0,
            d >= 0,
            p >= 1,
            m >= 1,
    ;
    vstd::arithmetic::div_mod::lemma_div_denominator(s2 * m, p, 10);
    vstd::arithmetic::power::lemma_pow1(10);
    vstd::arithmetic::power::lemma_pow_adds(10, (fj - i - 1) as nat, 1);
    assert(pow(10, (fj - i) as nat) == p * 10);
    // the new quotient is below m
    assert(is_digit(s[i]));
    assert(d <= 9);
    vstd::arithmetic::mul::lemma_mul_inequality(d, 9, m);
    assert(d * m + c <= 10 * m - 1);
    vstd::arithmetic::div_mod::lemma_div_is_ordered(d * m + c, 10 * m - 1, 10);
    vstd::arithmetic::div_mod::lemma_fundamental_div_mod_converse(10 * m - 1, 10, m - 1, 9);
}

/// Parses a duration literal such as `"2 days"`, `"1.5h"` or
/// `"-500 ms"` to a signed count of milliseconds, exactly as
/// [`parse_spec`] describes: the length guard first, then the grammar
/// on the whitespace-trimmed input, the case-insensitive unit lookup,
/// and the overflow check against the signed 64-bit range.
#[verifier::rlimit(100)]
pub fn parse(s: &str) -> (r: Result<i64, ErrorKind>)
    ensures
        r == parse_spec(s@),
{
    let n = s.unicode_len();
    if n > MAX_INPUT_LEN {
        return Err(ErrorKind::InputTooLong);
    }
    let a = scan_spaces(s, 0);
    let b = scan_trimmed_end(s, n);
    if a >= b {
        proof {
            assert(trimmed(s@) == Seq::<char>::empty());
            assert(digit_run(Seq::<char>::empty(), 0) == 0);
        }
        return Err(ErrorKind::InvalidFormat);
    }
    let t = s.substring_char(a, b);
    let ghost tq = trimmed(s@);
    proof {
        assert(t@ == tq);
    }
    let tn = t.unicode_len();
    let neg = t.get_char(0) == '-';
    let di: usize = if neg {
        1
    } else {
        0
    };
    let dr = scan_digits(t, di);
    let dj = di + dr;
    if dr == 0 {
        return Err(ErrorKind::InvalidFormat);
    }
    let dot = dj < tn && t.get_char(dj) == '.';
    let fi = if dot {
        dj + 1
    } else {
        dj
    };
    let fr = scan_digits(t, fi);
    let fj = fi + fr;
    if dot && fr == 0 {
        return Err(ErrorKind::InvalidFormat);
    }
    let ui = fj + scan_spaces(t, fj);
    let uj = ui + scan_word(t, ui);
    if uj != tn {
        return Err(ErrorKind::InvalidFormat);
    }
    let unit = match match_unit(t, ui, uj) {
        Some(u) => u,
        None => {
            return Err(ErrorKind::UnknownUnit);
        },
    };
    let m = multiplier(unit);
    proof {
        lemma_digit_run_facts(tq, di as int);
        lemma_digit_run_facts(tq, fi as int);
        lemma_digits_value_nonneg(tq, fi as int, fj as int);
        vstd::arithmetic::mul::lemma_mul_nonnegative(
            digits_value(tq, fi as int, fj as int),
            m as int,
        );
        lemma_pow_positive(10, (fj - fi) as nat);
        vstd::arithmetic::div_mod::lemma_div_pos_is_pos(
            2 * (digits_value(tq, fi as int, fj as int) * m) + pow(10, (fj - fi) as nat),
            2 * pow(10, (fj - fi) as nat),
        );
    }
    let dv = match digits_to_u128(t, di, dj) {
        Some(v) => v,
        None => {
            proof {
                vstd::arithmetic::mul::lemma_mul_inequality(
                    1,
                    m as int,
                    digits_value(tq, di as int, dj as int),
                );
            }
            return Err(ErrorKind::Overflow);
        },
    };
    let fc = frac_contribution(t, fi, fj, m);
    proof {
        vstd::arithmetic::mul::lemma_mul_upper_bound(
            dv as int,
            0x8000_0000_0000_0000,
            m as int,
            0x8_0000_0000,
        );
    }
    let mag: u128 = dv * (m as u128) + (fc as u128);
    proof {
        assert(mag == literal_magnitude(tq, di as int, dj as int, fi as int, fj as int, m as int));
    }
    if neg {
        if mag > 0x8000_0000_0000_0000u128 {
            Err(ErrorKind::Overflow)
        } else if mag == 0x8000_0000_0000_0000u128 {
            Ok(i64::MIN)
        } else {
            Ok(-(mag as i64))
        }
    } else {
        if mag > 0x7fff_ffff_ffff_ffffu128 {
            Err(ErrorKind::Overflow)
        } else {
            Ok(mag as i64)
        }
    }
}

/// Half-up rounding never exceeds the quotient bound: with
/// `2 * num + den <= (2 * den) * b + den - 2` the rounded value stays
/// at or below `b`.
proof fn lemma_round_upper(num: int, den: int, b: int)
    requires
        num >= 0,
        den >= 1,
        2 * num + den <= (2 * den) * b + den - 2,
    ensures
        round_half_up(num, den) <= b,
{
    assert((2 * den) * b + den - 2 < (2 * den) * b + 2 * den);
    vstd::arithmetic::div_mod::lemma_div_pos_is_pos(2 * num + den, 2 * den);
    vstd::arithmetic::div_mod::lemma_fundamental_div_mod(2 * num + den, 2 * den);
    vstd::arithmetic::div_mod::lemma_mod_bound(2 * num + den, 2 * den);
    let q = (2 * num + den) / (2 * den);
    assert(q <= b) by (nonlinear_arith)
        requires
            2 * num + den == (2 * den) * q + (2 * num + den) % (2 * den),
            0 <= (2 * num + den) % (2 * den),
            2 * num + den < (2 * den) * b + 2 * den,
            den >= 1,
            q >= 0,
    ;
}

} // verus!
