//! The formatter: a signed count of milliseconds becomes a short
//! human-readable string such as `"2 days"` or `"-500 ms"`.
//!
//! The magnitude picks the coarsest unit it still reaches; the count
//! in that unit is rounded half-up and printed with the unit's long
//! name, singular exactly when the count is one. A sub-second
//! magnitude is printed verbatim as milliseconds.
use vstd::prelude::*;

use crate::chars::{digit_char, digit_val, is_digit};
use crate::scan::{digits_value, lemma_digits_value_congruent};
use vstd::arithmetic::power::pow;
use crate::parse::round_half_up;
use crate::units::{multiplier, plural_name, singular_name, spec_multiplier, Unit, MS_PER_DAY,
    MS_PER_HOUR, MS_PER_MINUTE, MS_PER_SECOND, MS_PER_WEEK, MS_PER_YEAR};
use vstd::string::StringExecFns;

verus! {

/// The magnitude of a signed 64-bit count, as an unbounded integer so
/// the smallest count has one too.
pub open spec fn magnitude_of(v: i64) -> int {
    if v < 0 {
        -(v as int)
    } else {
        v as int
    }
}

/// The decimal digit string of a non-negative integer.
pub open spec fn dec_str(n: int) -> Seq<char>
    decreases n,
{
    if n < 10 {
        seq![digit_char(n)]
    } else {
        dec_str(n / 10).push(digit_char(n % 10))
    }
}

/// A decimal digit string is never empty and holds digits only.
pub proof fn lemma_dec_str_digits(n: int)
    requires
        n >= 0,
    ensures
        dec_str(n).len() >= 1,
        forall|x: int| 0 <= x < dec_str(n).len() ==> is_digit(#[trigger] dec_str(n)[x]),
    decreases n,
{
    vstd::arithmetic::div_mod::lemma_mod_bound(n, 10);
    if n < 10 {
        crate::chars::lemma_digit_char_val(n);
    } else {
        vstd::arithmetic::div_mod::lemma_div_pos_is_pos(n, 10);
        vstd::arithmetic::div_mod::lemma_div_is_strictly_smaller(n, 10);
        lemma_dec_str_digits(n / 10);
        crate::chars::lemma_digit_char_val(n % 10);
    }
}

/// Reading a decimal digit string back gives the number it came from.
pub proof fn lemma_dec_str_value(n: int)
    requires
        n >= 0,
    ensures
        digits_value(dec_str(n), 0, dec_str(n).len() as int) == n,
    decreases n,
{
    vstd::arithmetic::div_mod::lemma_mod_bound(n, 10);
    crate::chars::lemma_digit_char_val(n % 10);
    if n < 10 {
        crate::chars::lemma_digit_char_val(n);
        assert(digits_value(dec_str(n), 0, 0) == 0);
        assert(digits_value(dec_str(n), 0, 1) == digit_val(dec_str(n)[0]));
    } else {
        vstd::arithmetic::div_mod::lemma_div_pos_is_pos(n, 10);
        vstd::arithmetic::div_mod::lemma_div_is_strictly_smaller(n, 10);
        lemma_dec_str_value(n / 10);
        let s = dec_str(n / 10);
        let l = s.len() as int;
        lemma_digits_value_congruent(s, dec_str(n), 0, 0, l);
        assert(digits_value(dec_str(n), 0, l + 1) == digits_value(dec_str(n), 0, l) * 10
            + digit_val(dec_str(n)[l]));
        vstd::arithmetic::div_mod::lemma_fundamental_div_mod(n, 10);
    }
}

/// A number below `10^k` prints in at most `k` digits.
pub proof fn lemma_dec_str_len(n: int, k: nat)
    requires
        0 <= n,
        1 <= k,
        n < pow(10, k),
    ensures
        dec_str(n).len() <= k,
    decreases n,
{
    if n >= 10 {
        let p = pow(10, (k - 1) as nat);
        vstd::arithmetic::power::lemma_pow1(10);
        vstd::arithmetic::power::lemma_pow_adds(10, 1, (k - 1) as nat);
        assert(pow(10, k) == 10 * p);
        vstd::arithmetic::power::lemma_pow_positive(10, (k - 1) as nat);
        vstd::arithmetic::div_mod::lemma_div_pos_is_pos(n, 10);
        vstd::arithmetic::div_mod::lemma_div_is_strictly_smaller(n, 10);
        vstd::arithmetic::div_mod::lemma_div_is_ordered(n, 10 * p - 1, 10);
        vstd::arithmetic::div_mod::lemma_fundamental_div_mod_converse(10 * p - 1, 10, p - 1, 9);
        lemma_dec_str_len(n / 10, (k - 1) as nat);
    }
}

/// The unit the formatter selects: the coarsest whose multiplier the
/// magnitude reaches, or milliseconds below one second.
pub open spec fn selected_unit(mag: int) -> Unit {
    if mag >= MS_PER_YEAR {
        Unit::Years
    } else if mag >= MS_PER_WEEK {
        Unit::Weeks
    } else if mag >= MS_PER_DAY {
        Unit::Days
    } else if mag >= MS_PER_HOUR {
        Unit::Hours
    } else if mag >= MS_PER_MINUTE {
        Unit::Minutes
    } else if mag >= MS_PER_SECOND {
        Unit::Seconds
    } else {
        Unit::Milliseconds
    }
}

/// The unit name printed after a count: singular exactly for one.
pub open spec fn unit_label(u: Unit, count: int) -> Seq<char> {
    if count == 1 {
        singular_name(u)
    } else {
        plural_name(u)
    }
}

/// The rounded count the formatter prints for a magnitude: the
/// magnitude in the selected unit, rounded half-up. In the
/// milliseconds case this is the magnitude itself.
pub open spec fn formatted_count(mag: int) -> int {
    round_half_up(mag, spec_multiplier(selected_unit(mag)) as int)
}

/// The string format yields: an optional sign, the rounded count in
/// the selected unit, a space, and the unit's name.
pub open spec fn format_spec(v: i64) -> Seq<char> {
    let mag = magnitude_of(v);
    let sign: Seq<char> = if v < 0 {
        seq!['-']
    } else {
        Seq::empty()
    };
    sign + dec_str(formatted_count(mag)) + seq![' '] + unit_label(
        selected_unit(mag),
        formatted_count(mag),
    )
}

/// The one-character string for a decimal digit value.
fn digit_str(d: u64) -> (r: &'static str)
    requires
        d < 10,
    ensures
        r@ == seq![digit_char(d as int)],
{
    let r: &'static str = if d == 0 {
        "0"
    } else if d == 1 {
        "1"
    } else if d == 2 {
        "2"
    } else if d == 3 {
        "3"
    } else if d == 4 {
        "4"
    } else if d == 5 {
        "5"
    } else if d == 6 {
        "6"
    } else if d == 7 {
        "7"
    } else if d == 8 {
        "8"
    } else {
        "9"
    };
    proof {
        reveal_strlit("0");
        reveal_strlit("1");
        reveal_strlit("2");
        reveal_strlit("3");
        reveal_strlit("4");
        reveal_strlit("5");
        reveal_strlit("6");
        reveal_strlit("7");
        reveal_strlit("8");
        reveal_strlit("9");
        assert(r@ =~= seq![digit_char(d as int)]);
    }
    r
}

/// Appends the decimal digit string of `n`.
fn push_decimal(out: &mut String, n: u64)
    ensures
        final(out)@ == old(out)@ + dec_str(n as int),
    decreases n,
{
    if n < 10 {
        out.append(digit_str(n));
        proof {
            assert(final(out)@ =~= old(out)@ + dec_str(n as int));
        }
    } else {
        proof {
            vstd::arithmetic::div_mod::lemma_div_is_ordered_by_denominator(n as int, 1, 10);
            vstd::arithmetic::div_mod::lemma_div_is_strictly_smaller(n as int, 10);
        }
        push_decimal(out, n / 10);
        out.append(digit_str(n % 10));
        proof {
            assert(final(out)@ =~= old(out)@ + dec_str(n as int));
        }
    }
}

/// The printed unit name for a rounded count.
fn unit_label_str(u: Unit, count: u64) -> (r: &'static str)
    ensures
        r@ == unit_label(u, count as int),
{
    if count == 1 {
        match u {
            Unit::Years => "year",
            Unit::Weeks => "week",
            Unit::Days => "day",
            Unit::Hours => "hour",
            Unit::Minutes => "minute",
            Unit::Seconds => "second",
            Unit::Milliseconds => "ms",
        }
    } else {
        match u {
            Unit::Years => "years",
            Unit::Weeks => "weeks",
            Unit::Days => "days",
            Unit::Hours => "hours",
            Unit::Minutes => "minutes",
            Unit::Seconds => "seconds",
            Unit::Milliseconds => "ms",
        }
    }
}

/// Formats a signed count of milliseconds as a short human-readable
/// duration, exactly as [`format_spec`] describes; total over the
/// whole signed 64-bit range.
pub fn format(v: i64) -> (r: String)
    ensures
        r@ == format_spec(v),
{
    let mag: u64 = if v == i64::MIN {
        0x8000_0000_0000_0000u64
    } else if v < 0 {
        (-v) as u64
    } else {
        v as u64
    };
    let u = if mag >= MS_PER_YEAR {
        Unit::Years
    } else if mag >= MS_PER_WEEK {
        Unit::Weeks
    } else if mag >= MS_PER_DAY {
        Unit::Days
    } else if mag >= MS_PER_HOUR {
        Unit::Hours
    } else if mag >= MS_PER_MINUTE {
        Unit::Minutes
    } else if mag >= MS_PER_SECOND {
        Unit::Seconds
    } else {
        Unit::Milliseconds
    };
    let m = multiplier(u);
    let c = (mag + m / 2) / m;
    proof {
        lemma_halved_rounding(mag as int, m as int);
    }
    let mut out = String::new();
    if v < 0 {
        out.append("-");
    }
    push_decimal(&mut out, c);
    out.append(" ");
    out.append(unit_label_str(u, c));
    proof {
        reveal_strlit("-");
        reveal_strlit(" ");
        assert(out@ =~= format_spec(v));
    }
    out
}

/// For an even divisor (or one), adding half of it before dividing is
/// exactly half-up rounding.
proof fn lemma_halved_rounding(mag: int, m: int)
    requires
        mag >= 0,
        m == 1 || (m >= 2 && m % 2 == 0),
    ensures
        (mag + m / 2) / m == round_half_up(mag, m),
{
    if m == 1 {
        vstd::arithmetic::div_mod::lemma_fundamental_div_mod_converse(2 * mag + 1, 2, mag, 1);
        vstd::arithmetic::div_mod::lemma_fundamental_div_mod_converse(mag, 1, mag, 0);
    } else {
        let h = m / 2;
        vstd::arithmetic::div_mod::lemma_fundamental_div_mod(m, 2);
        assert(m == 2 * h);
        vstd::arithmetic::div_mod::lemma_div_multiples_vanish(mag + h, 2);
        vstd::arithmetic::div_mod::lemma_div_denominator(2 * (mag + h), 2, m);
        assert(2 * mag + m == 2 * (mag + h));
        assert((mag + h) / m == (2 * (mag + h)) / (2 * m));
    }
}

} // verus!
