//! The general laws of the library, stated over the parser's and the
//! formatter's spec models and proved once for all inputs: round
//! tripping, sign symmetry, case insensitivity, whitespace tolerance,
//! and threshold selection.
use vstd::prelude::*;

use vstd::arithmetic::power::pow;

use crate::chars::{digit_val, is_digit, is_word, is_space, lower_char};
use crate::scan::{digit_run, digits_value, word_run, space_run, trimmed, trimmed_end};
use crate::scan::{lemma_digit_run_congruent, lemma_digit_run_is, lemma_digits_value_congruent,
    lemma_digits_value_nonneg, lemma_word_run_congruent, lemma_word_run_is,
    lemma_space_run_congruent, lemma_space_run_is};
use crate::parse::{literal_magnitude, parse_spec, parse_trimmed, round_half_up, ErrorKind,
    MAX_INPUT_LEN};
use crate::units::{lemma_lower_seq, lower_seq, singular_name, spec_multiplier,
    unit_of, unit_of_lower, Unit};
use crate::format::{dec_str, format_spec, formatted_count, lemma_dec_str_digits,
    lemma_dec_str_len, lemma_dec_str_value, magnitude_of, selected_unit, unit_label};

verus! {

/// What a well-shaped literal assembled from its parts must parse to:
/// the unit lookup on the suffix, then the rounded magnitude and the
/// overflow check.
pub open spec fn assembled_result(
    neg: bool,
    digs: Seq<char>,
    fracs: Seq<char>,
    letters: Seq<char>,
) -> Result<i64, ErrorKind> {
    match unit_of(letters) {
        None => Err(ErrorKind::UnknownUnit),
        Some(u) => {
            let m = spec_multiplier(u) as int;
            let mag = digits_value(digs, 0, digs.len() as int) * m + round_half_up(
                digits_value(fracs, 0, fracs.len() as int) * m,
                pow(10, fracs.len()),
            );
            if neg {
                if mag > 0x8000_0000_0000_0000 {
                    Err(ErrorKind::Overflow)
                } else {
                    Ok((-mag) as i64)
                }
            } else {
                if mag > 0x7fff_ffff_ffff_ffff {
                    Err(ErrorKind::Overflow)
                } else {
                    Ok(mag as i64)
                }
            }
        },
    }
}

/// The literal assembled from a sign, integer digits, fractional
/// digits, whitespace and a unit token.
pub open spec fn assembled(
    neg: bool,
    digs: Seq<char>,
    fracs: Seq<char>,
    ws: Seq<char>,
    letters: Seq<char>,
) -> Seq<char> {
    let sign: Seq<char> = if neg {
        seq!['-']
    } else {
        Seq::empty()
    };
    let frac: Seq<char> = if fracs.len() > 0 {
        seq!['.'] + fracs
    } else {
        Seq::empty()
    };
    sign + digs + frac + ws + letters
}

/// Parsing a well-shaped literal, already free of surrounding
/// whitespace, gives exactly [`assembled_result`].
#[verifier::rlimit(100)]
proof fn lemma_parse_assembled_trimmed(
    neg: bool,
    digs: Seq<char>,
    fracs: Seq<char>,
    ws: Seq<char>,
    letters: Seq<char>,
)
    requires
        1 <= digs.len(),
        forall|x: int| 0 <= x < digs.len() ==> is_digit(#[trigger] digs[x]),
        forall|x: int| 0 <= x < fracs.len() ==> is_digit(#[trigger] fracs[x]),
        forall|x: int| 0 <= x < ws.len() ==> is_space(#[trigger] ws[x]),
        forall|x: int| 0 <= x < letters.len() ==> is_word(#[trigger] letters[x]),
    ensures
        parse_trimmed(assembled(neg, digs, fracs, ws, letters)) == assembled_result(
            neg,
            digs,
            fracs,
            letters,
        ),
{
    let t = assembled(neg, digs, fracs, ws, letters);
    let sl: int = if neg {
        1
    } else {
        0
    };
    let dl = digs.len() as int;
    let fl: int = if fracs.len() > 0 {
        1 + fracs.len() as int
    } else {
        0
    };
    let wl = ws.len() as int;
    let ll = letters.len() as int;
    let n = t.len() as int;
    assert(n == sl + dl + fl + wl + ll);
    // where each part of the literal sits in t
    assert(neg ==> t[0] == '-');
    assert(forall|x: int| 0 <= x < dl ==> t[sl + x] == digs[x]);
    assert(fracs.len() > 0 ==> t[sl + dl] == '.');
    assert(forall|x: int|
        0 <= x < fracs.len() ==> t[sl + dl + 1 + x] == fracs[x]);
    assert(forall|x: int| 0 <= x < wl ==> t[sl + dl + fl + x] == ws[x]);
    assert(forall|x: int| 0 <= x < ll ==> t[sl + dl + fl + wl + x] == letters[x]);
    // character classes keep the segments apart
    assert(!is_space('-') && !is_digit('-') && !is_word('-'));
    assert(!is_space('.') && !is_digit('.') && !is_word('.'));
    // the leading digit run is exactly digs
    let di = sl;
    lemma_digit_run_is(t, di, di + dl);
    let dj = di + dl;
    // the fractional run is exactly fracs
    let fi: int = if fracs.len() > 0 {
        dj + 1
    } else {
        dj
    };
    let fj = fi + fracs.len();
    assert(digit_run(t, fi) == fracs.len()) by {
        lemma_digit_run_is(t, fi, fj);
    }
    assert((dj < n && t[dj] == '.') == (fracs.len() > 0));
    // then the whitespace run, then the token, then the end
    lemma_space_run_is(t, fj, fj + wl);
    let ui = fj + wl;
    lemma_word_run_is(t, ui, ui + ll);
    let uj = ui + ll;
    assert(uj == n);
    // the parsed pieces equal the assembled parts
    assert(t.subrange(ui, uj) =~= letters);
    lemma_digits_value_congruent(digs, t, sl, 0, dl);
    lemma_digits_value_congruent(fracs, t, fi, 0, fracs.len() as int);
    assert(digits_value(t, di, dj) == digits_value(digs, 0, dl));
    assert(digits_value(t, fi, fj) == digits_value(fracs, 0, fracs.len() as int));
}

/// Parsing a literal assembled from its parts gives exactly
/// [`assembled_result`], whatever whitespace separates number and
/// unit.
#[verifier::rlimit(100)]
pub proof fn lemma_parse_assembled(
    neg: bool,
    digs: Seq<char>,
    fracs: Seq<char>,
    ws: Seq<char>,
    letters: Seq<char>,
)
    requires
        1 <= digs.len(),
        forall|x: int| 0 <= x < digs.len() ==> is_digit(#[trigger] digs[x]),
        forall|x: int| 0 <= x < fracs.len() ==> is_digit(#[trigger] fracs[x]),
        forall|x: int| 0 <= x < ws.len() ==> is_space(#[trigger] ws[x]),
        forall|x: int| 0 <= x < letters.len() ==> is_word(#[trigger] letters[x]),
        ws.len() == 0 || letters.len() >= 1,
        assembled(neg, digs, fracs, ws, letters).len() <= MAX_INPUT_LEN,
    ensures
        parse_spec(assembled(neg, digs, fracs, ws, letters)) == assembled_result(
            neg,
            digs,
            fracs,
            letters,
        ),
{
    let t = assembled(neg, digs, fracs, ws, letters);
    let n = t.len() as int;
    // no whitespace at either end, so trimming is the identity
    assert(!is_space(t[0]));
    assert(!is_space(t[n - 1]));
    assert(space_run(t, 0) == 0);
    assert(trimmed_end(t, n) == n);
    assert(trimmed(t) =~= t);
    lemma_parse_assembled_trimmed(neg, digs, fracs, ws, letters);
}

/// The name the formatter prints for a unit is made of letters and
/// resolves, through the case-insensitive alias table, back to that
/// very unit.
#[verifier::rlimit(100)]
proof fn lemma_unit_label_resolves(u: Unit, c: int)
    ensures
        1 <= unit_label(u, c).len(),
        forall|x: int| 0 <= x < unit_label(u, c).len() ==> is_word(#[trigger] unit_label(u, c)[x]),
        unit_label(u, c).len() <= 12,
        unit_of(unit_label(u, c)) == Some(u),
{
    reveal_strlit("ms");
    reveal_strlit("msec");
    reveal_strlit("msecs");
    reveal_strlit("millisecond");
    reveal_strlit("milliseconds");
    reveal_strlit("s");
    reveal_strlit("sec");
    reveal_strlit("secs");
    reveal_strlit("second");
    reveal_strlit("seconds");
    reveal_strlit("m");
    reveal_strlit("min");
    reveal_strlit("mins");
    reveal_strlit("minute");
    reveal_strlit("minutes");
    reveal_strlit("h");
    reveal_strlit("hr");
    reveal_strlit("hrs");
    reveal_strlit("hour");
    reveal_strlit("hours");
    reveal_strlit("d");
    reveal_strlit("day");
    reveal_strlit("days");
    reveal_strlit("w");
    reveal_strlit("wk");
    reveal_strlit("wks");
    reveal_strlit("week");
    reveal_strlit("weeks");
    reveal_strlit("y");
    reveal_strlit("yr");
    reveal_strlit("yrs");
    reveal_strlit("year");
    reveal_strlit("years");
    assert("ms"@.len() == 2);
    assert("ms"@[0] == 'm');
    assert("msec"@.len() == 4);
    assert("msec"@[0] == 'm');
    assert("msecs"@.len() == 5);
    assert("msecs"@[0] == 'm');
    assert("millisecond"@.len() == 11);
    assert("millisecond"@[0] == 'm');
    assert("milliseconds"@.len() == 12);
    assert("milliseconds"@[0] == 'm');
    assert("s"@.len() == 1);
    assert("s"@[0] == 's');
    assert("sec"@.len() == 3);
    assert("sec"@[0] == 's');
    assert("secs"@.len() == 4);
    assert("secs"@[0] == 's');
    assert("second"@.len() == 6);
    assert("second"@[0] == 's');
    assert("seconds"@.len() == 7);
    assert("seconds"@[0] == 's');
    assert("m"@.len() == 1);
    assert("m"@[0] == 'm');
    assert("min"@.len() == 3);
    assert("min"@[0] == 'm');
    assert("mins"@.len() == 4);
    assert("mins"@[0] == 'm');
    assert("minute"@.len() == 6);
    assert("minute"@[0] == 'm');
    assert("minutes"@.len() == 7);
    assert("minutes"@[0] == 'm');
    assert("h"@.len() == 1);
    assert("h"@[0] == 'h');
    assert("hr"@.len() == 2);
    assert("hr"@[0] == 'h');
    assert("hrs"@.len() == 3);
    assert("hrs"@[0] == 'h');
    assert("hour"@.len() == 4);
    assert("hour"@[0] == 'h');
    assert("hours"@.len() == 5);
    assert("hours"@[0] == 'h');
    assert("d"@.len() == 1);
    assert("d"@[0] == 'd');
    assert("day"@.len() == 3);
    assert("day"@[0] == 'd');
    assert("days"@.len() == 4);
    assert("days"@[0] == 'd');
    assert("w"@.len() == 1);
    assert("w"@[0] == 'w');
    assert("wk"@.len() == 2);
    assert("wk"@[0] == 'w');
    assert("wks"@.len() == 3);
    assert("wks"@[0] == 'w');
    assert("week"@.len() == 4);
    assert("week"@[0] == 'w');
    assert("weeks"@.len() == 5);
    assert("weeks"@[0] == 'w');
    assert("y"@.len() == 1);
    assert("y"@[0] == 'y');
    assert("yr"@.len() == 2);
    assert("yr"@[0] == 'y');
    assert("yrs"@.len() == 3);
    assert("yrs"@[0] == 'y');
    assert("year"@.len() == 4);
    assert("year"@[0] == 'y');
    assert("years"@.len() == 5);
    assert("years"@[0] == 'y');
    let lab = unit_label(u, c);
    lemma_lower_seq(lab);
    assert(lower_seq(lab) =~= lab);
    assert(unit_of(lab) == unit_of_lower(lab));
    match u {
        Unit::Years => {
            assert(unit_of_lower("year"@) == Some(Unit::Years));
            assert(unit_of_lower("years"@) == Some(Unit::Years));
        },
        Unit::Weeks => {
            assert(unit_of_lower("week"@) == Some(Unit::Weeks));
            assert(unit_of_lower("weeks"@) == Some(Unit::Weeks));
        },
        Unit::Days => {
            assert(unit_of_lower("day"@) == Some(Unit::Days));
            assert(unit_of_lower("days"@) == Some(Unit::Days));
        },
        Unit::Hours => {
            assert(unit_of_lower("hour"@) == Some(Unit::Hours));
            assert(unit_of_lower("hours"@) == Some(Unit::Hours));
        },
        Unit::Minutes => {
            assert(unit_of_lower("minute"@) == Some(Unit::Minutes));
            assert(unit_of_lower("minutes"@) == Some(Unit::Minutes));
        },
        Unit::Seconds => {
            assert(unit_of_lower("second"@) == Some(Unit::Seconds));
            assert(unit_of_lower("seconds"@) == Some(Unit::Seconds));
        },
        Unit::Milliseconds => {
            assert(unit_of_lower("ms"@) == Some(Unit::Milliseconds));
        },
    }
}

/// Rounding is exact on an exact multiple of the divisor.
proof fn lemma_exact_rounding(mag: int, m: int)
    requires
        mag >= 0,
        m >= 1,
        mag % m == 0,
    ensures
        round_half_up(mag, m) == mag / m,
        (mag / m) * m == mag,
{
    let q = mag / m;
    vstd::arithmetic::div_mod::lemma_fundamental_div_mod(mag, m);
    vstd::arithmetic::div_mod::lemma_div_pos_is_pos(mag, m);
    assert(2 * mag + m == q * (2 * m) + m) by (nonlinear_arith)
        requires
            mag == m * q,
    ;
    vstd::arithmetic::div_mod::lemma_fundamental_div_mod_converse(2 * mag + m, 2 * m, q, m);
}

/// `10^20` is large enough to hold any unsigned 64-bit magnitude.
proof fn lemma_pow10_20()
    ensures
        pow(10, 20) == 0x56bc75e2d63100000,
{
    vstd::arithmetic::power::lemma_pow1(10);
    vstd::arithmetic::power::lemma_pow_adds(10, 1, 1);
    assert(pow(10, 2) == 100);
    vstd::arithmetic::power::lemma_pow_adds(10, 2, 2);
    assert(pow(10, 4) == 10000);
    vstd::arithmetic::power::lemma_pow_adds(10, 4, 4);
    assert(pow(10, 8) == 0x5f5e100);
    vstd::arithmetic::power::lemma_pow_adds(10, 8, 8);
    assert(pow(10, 16) == 0x2386f26fc10000);
    vstd::arithmetic::power::lemma_pow_adds(10, 16, 4);
}

/// Round trip: a count that is an exact multiple of the unit the
/// formatter selects for it parses back from its formatted string to
/// the very same count.
pub proof fn lemma_format_parse_round_trip(v: i64)
    requires
        magnitude_of(v) % (spec_multiplier(selected_unit(magnitude_of(v))) as int) == 0,
    ensures
        parse_spec(format_spec(v)) == Ok::<i64, ErrorKind>(v),
{
    let mag = magnitude_of(v);
    let u = selected_unit(mag);
    let m = spec_multiplier(u) as int;
    let c = formatted_count(mag);
    lemma_exact_rounding(mag, m);
    vstd::arithmetic::div_mod::lemma_div_pos_is_pos(mag, m);
    let digs = dec_str(c);
    let lab = unit_label(u, c);
    lemma_dec_str_digits(c);
    lemma_dec_str_value(c);
    lemma_pow10_20();
    lemma_dec_str_len(c, 20);
    lemma_unit_label_resolves(u, c);
    assert(lab.len() <= 12);
    assert(format_spec(v) =~= assembled(v < 0, digs, Seq::empty(), seq![' '], lab));
    lemma_parse_assembled(v < 0, digs, Seq::empty(), seq![' '], lab);
    vstd::arithmetic::power::lemma_pow0(10);
    assert(round_half_up(0, 1) == 0) by {
        vstd::arithmetic::div_mod::lemma_fundamental_div_mod_converse(1, 2, 0, 1);
    }
    assert(digits_value(digs, 0, digs.len() as int) * m + round_half_up(
        digits_value(Seq::<char>::empty(), 0, 0) * m,
        pow(10, 0),
    ) == mag);
}

/// Whitespace tolerance: the amount and kind of whitespace between
/// the number and the unit token never changes what a literal parses
/// to.
pub proof fn lemma_whitespace_tolerance(
    neg: bool,
    digs: Seq<char>,
    fracs: Seq<char>,
    ws1: Seq<char>,
    ws2: Seq<char>,
    letters: Seq<char>,
)
    requires
        1 <= digs.len(),
        forall|x: int| 0 <= x < digs.len() ==> is_digit(#[trigger] digs[x]),
        forall|x: int| 0 <= x < fracs.len() ==> is_digit(#[trigger] fracs[x]),
        forall|x: int| 0 <= x < ws1.len() ==> is_space(#[trigger] ws1[x]),
        forall|x: int| 0 <= x < ws2.len() ==> is_space(#[trigger] ws2[x]),
        forall|x: int| 0 <= x < letters.len() ==> is_word(#[trigger] letters[x]),
        1 <= letters.len(),
        assembled(neg, digs, fracs, ws1, letters).len() <= MAX_INPUT_LEN,
        assembled(neg, digs, fracs, ws2, letters).len() <= MAX_INPUT_LEN,
    ensures
        parse_spec(assembled(neg, digs, fracs, ws1, letters)) == parse_spec(
            assembled(neg, digs, fracs, ws2, letters),
        ),
{
    lemma_parse_assembled(neg, digs, fracs, ws1, letters);
    lemma_parse_assembled(neg, digs, fracs, ws2, letters);
}

/// Prepending to a sequence moves the end of its non-whitespace
/// content along, as long as some content is there.
proof fn lemma_trimmed_end_prefix(u: Seq<char>, s: Seq<char>, j: int)
    requires
        0 <= j <= s.len(),
        trimmed_end(s, j) >= 1,
    ensures
        trimmed_end(u + s, u.len() + j) == u.len() + trimmed_end(s, j),
    decreases j,
{
    assert((u + s)[u.len() + j - 1] == s[j - 1]);
    if is_space(s[j - 1]) {
        lemma_trimmed_end_prefix(u, s, j - 1);
    }
}

/// Sign symmetry, parsing side: a literal that parses and starts with
/// neither whitespace nor a sign yields a non-negative count, and the
/// same literal with `-` in front parses to its negation.
#[verifier::rlimit(100)]
pub proof fn lemma_parse_negation(s: Seq<char>, v: i64)
    requires
        parse_spec(s) == Ok::<i64, ErrorKind>(v),
        s.len() + 1 <= MAX_INPUT_LEN,
        1 <= s.len(),
        !is_space(s[0]),
        s[0] != '-',
    ensures
        0 <= v,
        parse_spec(seq!['-'] + s) == Ok::<i64, ErrorKind>((-(v as int)) as i64),
{
    let s2 = seq!['-'] + s;
    assert(s2[0] == '-');
    assert(space_run(s, 0) == 0);
    assert(space_run(s2, 0) == 0);
    crate::scan::lemma_trimmed_end_bounds(s, s.len() as int);
    crate::scan::lemma_trimmed_end_bounds(s2, s2.len() as int);
    let b = trimmed_end(s, s.len() as int);
    if b == 0 {
        assert(trimmed(s) == Seq::<char>::empty());
        assert(digit_run(Seq::<char>::empty(), 0) == 0);
        assert(false);
    }
    lemma_trimmed_end_prefix(seq!['-'], s, s.len() as int);
    let t = trimmed(s);
    let t2 = trimmed(s2);
    assert(t == s.subrange(0, b));
    assert(t2 =~= seq!['-'] + t);
    assert(t.len() >= 1 && t[0] == s[0]);
    assert(forall|x: int| 0 <= x < t.len() ==> t2[1 + x] == t[x]);
    let dr = digit_run(t, 0);
    lemma_digit_run_congruent(t, t2, 1, 0);
    if dr == 0 {
        assert(false);
    }
    let dj = dr;
    let dot = dj < t.len() && t[dj] == '.';
    let fi: int = if dot {
        dj + 1
    } else {
        dj
    };
    lemma_digit_run_congruent(t, t2, 1, fi);
    let fj = fi + digit_run(t, fi);
    if dot && fj == fi {
        assert(false);
    }
    lemma_space_run_congruent(t, t2, 1, fj);
    let ui = fj + space_run(t, fj);
    lemma_word_run_congruent(t, t2, 1, ui);
    let uj = ui + word_run(t, ui);
    if uj != t.len() {
        assert(false);
    }
    assert(t2.subrange(1 + ui, 1 + uj) =~= t.subrange(ui, uj));
    let u = unit_of(t.subrange(ui, uj));
    if u is None {
        assert(false);
    }
    let m = spec_multiplier(u->0) as int;
    crate::scan::lemma_digit_run_facts(t, 0);
    crate::scan::lemma_digit_run_facts(t, fi);
    lemma_digits_value_congruent(t, t2, 1, 0, dj);
    lemma_digits_value_congruent(t, t2, 1, fi, fj);
    let mag = literal_magnitude(t, 0, dj, fi, fj, m);
    assert(literal_magnitude(t2, 1, 1 + dj, 1 + fi, 1 + fj, m) == mag);
    // the magnitude is non-negative, so the unsigned reading succeeded
    lemma_digits_value_nonneg(t, 0, dj);
    lemma_digits_value_nonneg(t, fi, fj);
    vstd::arithmetic::mul::lemma_mul_nonnegative(digits_value(t, 0, dj), m);
    vstd::arithmetic::mul::lemma_mul_nonnegative(digits_value(t, fi, fj), m);
    vstd::arithmetic::power::lemma_pow_positive(10, (fj - fi) as nat);
    vstd::arithmetic::div_mod::lemma_div_pos_is_pos(
        2 * (digits_value(t, fi, fj) * m) + pow(10, (fj - fi) as nat),
        2 * pow(10, (fj - fi) as nat),
    );
    assert(mag >= 0);
    assert(v == mag as i64);
}

/// Sign symmetry, formatting side: a negative count formats as its
/// magnitude's string with `-` in front.
pub proof fn lemma_format_negation(v: i64)
    requires
        0 < v,
    ensures
        format_spec((-(v as int)) as i64) == seq!['-'] + format_spec(v),
{
    let w = (-(v as int)) as i64;
    assert(magnitude_of(w) == magnitude_of(v));
    assert(format_spec(w) =~= seq!['-'] + format_spec(v));
}

/// Lower-casing is idempotent.
proof fn lemma_lower_lower(c: char)
    ensures
        lower_char(lower_char(c)) == lower_char(c),
{
}

/// Whitespace content ends at the same place in two sequences showing
/// the same whitespace pattern.
proof fn lemma_trimmed_end_congruent(s: Seq<char>, t: Seq<char>, j: int)
    requires
        t.len() == s.len(),
        0 <= j <= s.len(),
        forall|x: int| 0 <= x < s.len() ==> is_space(#[trigger] t[x]) == is_space(s[x]),
    ensures
        trimmed_end(t, j) == trimmed_end(s, j),
    decreases j,
{
    if j > 0 && is_space(s[j - 1]) {
        lemma_trimmed_end_congruent(s, t, j - 1);
    }
}

/// Parsing a whitespace-trimmed literal sees only its lower-cased
/// characters.
#[verifier::rlimit(100)]
proof fn lemma_parse_trimmed_lower(t: Seq<char>)
    ensures
        parse_trimmed(lower_seq(t)) == parse_trimmed(t),
{
    let l = lower_seq(t);
    lemma_lower_seq(t);
    assert(l.len() == t.len());
    assert forall|x: int| 0 <= x < t.len() implies is_space(#[trigger] l[x]) == is_space(t[x])
        && is_digit(l[x]) == is_digit(t[x]) && is_word(l[x]) == is_word(t[x]) && (is_digit(
        t[x],
    ) ==> digit_val(l[x]) == digit_val(t[x])) && (l[x] == '-') == (t[x] == '-') && (l[x] == '.')
        == (t[x] == '.') by {
        assert(l[x] == lower_char(t[x]));
    }
    if t.len() == 0 {
        assert(l =~= t);
    } else {
        let di: int = if t[0] == '-' {
            1
        } else {
            0
        };
        lemma_digit_run_congruent(t, l, 0, di);
        crate::scan::lemma_digit_run_facts(t, di);
        let dj = di + digit_run(t, di);
        if dj == di {
        } else {
            let dot = dj < t.len() && t[dj] == '.';
            let fi: int = if dot {
                dj + 1
            } else {
                dj
            };
            lemma_digit_run_congruent(t, l, 0, fi);
            crate::scan::lemma_digit_run_facts(t, fi);
            let fj = fi + digit_run(t, fi);
            if dot && fj == fi {
            } else {
                lemma_space_run_congruent(t, l, 0, fj);
                crate::scan::lemma_space_run_facts(t, fj);
                let ui = fj + space_run(t, fj);
                lemma_word_run_congruent(t, l, 0, ui);
                crate::scan::lemma_word_run_facts(t, ui);
                let uj = ui + word_run(t, ui);
                if uj != t.len() {
                } else {
                    // the unit lookup lower-cases its token either way
                    let tok = t.subrange(ui, uj);
                    let ltok = l.subrange(ui, uj);
                    assert(ltok =~= lower_seq(tok)) by {
                        lemma_lower_seq(tok);
                    }
                    assert(lower_seq(lower_seq(tok)) =~= lower_seq(tok)) by {
                        lemma_lower_seq(tok);
                        lemma_lower_seq(lower_seq(tok));
                        assert forall|x: int|
                            0 <= x < tok.len() implies lower_seq(lower_seq(tok))[x] == lower_seq(
                            tok,
                        )[x] by {
                            lemma_lower_lower(tok[x]);
                        }
                    }
                    assert(unit_of(ltok) == unit_of(tok));
                    crate::scan::lemma_digit_run_facts(t, di);
                    crate::scan::lemma_digit_run_facts(t, fi);
                    lemma_digits_value_congruent(t, l, 0, di, dj);
                    lemma_digits_value_congruent(t, l, 0, fi, fj);
                }
            }
        }
    }
}

/// Case insensitivity: a literal parses exactly as its lower-cased
/// form does.
pub proof fn lemma_case_insensitive(s: Seq<char>)
    ensures
        parse_spec(lower_seq(s)) == parse_spec(s),
{
    let l = lower_seq(s);
    lemma_lower_seq(s);
    assert(l.len() == s.len());
    assert forall|x: int| 0 <= x < s.len() implies is_space(#[trigger] l[x]) == is_space(s[x]) by {
        assert(l[x] == lower_char(s[x]));
    }
    if s.len() <= MAX_INPUT_LEN {
        lemma_space_run_congruent(s, l, 0, 0);
        lemma_trimmed_end_congruent(s, l, s.len() as int);
        crate::scan::lemma_trimmed_end_bounds(s, s.len() as int);
        crate::scan::lemma_space_run_facts(s, 0);
        let a = space_run(s, 0);
        let b = trimmed_end(s, s.len() as int);
        assert(trimmed(l) =~= lower_seq(trimmed(s))) by {
            lemma_lower_seq(trimmed(s));
            assert(space_run(l, 0) == a);
            assert(trimmed_end(l, l.len() as int) == b);
            if a < b {
                assert(trimmed(l) == l.subrange(a, b));
                assert(trimmed(s) == s.subrange(a, b));
                assert forall|x: int|
                    0 <= x < b - a implies trimmed(l)[x] == lower_seq(trimmed(s))[x] by {
                    assert(trimmed(l)[x] == l[a + x]);
                    assert(trimmed(s)[x] == s[a + x]);
                    assert(l[a + x] == lower_char(s[a + x]));
                }
            }
        }
        lemma_parse_trimmed_lower(trimmed(s));
    }
}

/// Threshold selection: a magnitude exactly at a unit's multiplier is
/// formatted in that unit, as one of it, under its singular name.
pub proof fn lemma_threshold_selects_unit(u: Unit)
    requires
        u != Unit::Milliseconds,
    ensures
        selected_unit(spec_multiplier(u) as int) == u,
        format_spec(spec_multiplier(u) as i64) == seq!['1', ' '] + singular_name(u),
{
    let m = spec_multiplier(u) as int;
    assert(round_half_up(m, m) == 1) by {
        vstd::arithmetic::div_mod::lemma_fundamental_div_mod_converse(3 * m, 2 * m, 1, m);
    }
    assert(dec_str(1) =~= seq!['1']);
    assert(format_spec(spec_multiplier(u) as i64) =~= seq!['1', ' '] + singular_name(u));
}

} // verus!
