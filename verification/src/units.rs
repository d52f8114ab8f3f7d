//! The closed table of time units: milliseconds-per-unit multipliers,
//! the case-insensitive alias set each unit answers to, and the long
//! names the formatter prints.
use vstd::prelude::*;

use crate::chars::{lower_char, to_lower};
use vstd::string::StrSliceExecFns;

verus! {

/// Milliseconds in one second.
pub const MS_PER_SECOND: u64 = 1000;

/// Milliseconds in one minute.
pub const MS_PER_MINUTE: u64 = 60_000;

/// Milliseconds in one hour.
pub const MS_PER_HOUR: u64 = 3_600_000;

/// Milliseconds in one day.
pub const MS_PER_DAY: u64 = 86_400_000;

/// Milliseconds in one week.
pub const MS_PER_WEEK: u64 = 604_800_000;

/// Milliseconds in one year of 365.25 days.
pub const MS_PER_YEAR: u64 = 31_557_600_000;

/// One unit of the closed table.
#[derive(Clone, Copy, PartialEq, Eq, Structural, Debug)]
pub enum Unit {
    Years,
    Weeks,
    Days,
    Hours,
    Minutes,
    Seconds,
    Milliseconds,
}

/// Milliseconds per unit.
pub open spec fn spec_multiplier(u: Unit) -> u64 {
    match u {
        Unit::Years => MS_PER_YEAR,
        Unit::Weeks => MS_PER_WEEK,
        Unit::Days => MS_PER_DAY,
        Unit::Hours => MS_PER_HOUR,
        Unit::Minutes => MS_PER_MINUTE,
        Unit::Seconds => MS_PER_SECOND,
        Unit::Milliseconds => 1,
    }
}

/// Milliseconds per unit.
pub fn multiplier(u: Unit) -> (m: u64)
    ensures
        m == spec_multiplier(u),
{
    match u {
        Unit::Years => MS_PER_YEAR,
        Unit::Weeks => MS_PER_WEEK,
        Unit::Days => MS_PER_DAY,
        Unit::Hours => MS_PER_HOUR,
        Unit::Minutes => MS_PER_MINUTE,
        Unit::Seconds => MS_PER_SECOND,
        Unit::Milliseconds => 1,
    }
}

/// The long singular name the formatter prints, e.g. `"day"`.
pub open spec fn singular_name(u: Unit) -> Seq<char> {
    match u {
        Unit::Years => "year"@,
        Unit::Weeks => "week"@,
        Unit::Days => "day"@,
        Unit::Hours => "hour"@,
        Unit::Minutes => "minute"@,
        Unit::Seconds => "second"@,
        Unit::Milliseconds => "ms"@,
    }
}

/// The long plural name the formatter prints, e.g. `"days"`.
pub open spec fn plural_name(u: Unit) -> Seq<char> {
    match u {
        Unit::Years => "years"@,
        Unit::Weeks => "weeks"@,
        Unit::Days => "days"@,
        Unit::Hours => "hours"@,
        Unit::Minutes => "minutes"@,
        Unit::Seconds => "seconds"@,
        Unit::Milliseconds => "ms"@,
    }
}

/// The unit a lower-cased suffix token resolves to. The empty suffix
/// means milliseconds; a token outside the alias table resolves to
/// nothing.
pub open spec fn unit_of_lower(t: Seq<char>) -> Option<Unit> {
    if t.len() == 0 || t == "ms"@ || t == "msec"@ || t == "msecs"@ || t == "millisecond"@ || t
        == "milliseconds"@ {
        Some(Unit::Milliseconds)
    } else if t == "s"@ || t == "sec"@ || t == "secs"@ || t == "second"@ || t == "seconds"@ {
        Some(Unit::Seconds)
    } else if t == "m"@ || t == "min"@ || t == "mins"@ || t == "minute"@ || t == "minutes"@ {
        Some(Unit::Minutes)
    } else if t == "h"@ || t == "hr"@ || t == "hrs"@ || t == "hour"@ || t == "hours"@ {
        Some(Unit::Hours)
    } else if t == "d"@ || t == "day"@ || t == "days"@ {
        Some(Unit::Days)
    } else if t == "w"@ || t == "wk"@ || t == "wks"@ || t == "week"@ || t == "weeks"@ {
        Some(Unit::Weeks)
    } else if t == "y"@ || t == "yr"@ || t == "yrs"@ || t == "year"@ || t == "years"@ {
        Some(Unit::Years)
    } else {
        None
    }
}

/// `t` with every character ASCII lower-cased.
pub open spec fn lower_seq(t: Seq<char>) -> Seq<char> {
    t.map_values(|c: char| lower_char(c))
}

pub proof fn lemma_lower_seq(t: Seq<char>)
    ensures
        lower_seq(t).len() == t.len(),
        forall|i: int| 0 <= i < t.len() ==> lower_seq(t)[i] == lower_char(t[i]),
{
}

/// The unit a suffix token resolves to, case-insensitively.
pub open spec fn unit_of(t: Seq<char>) -> Option<Unit> {
    unit_of_lower(lower_seq(t))
}

/// Whether the characters `s[from..to]`, lower-cased, are exactly the
/// (lower-case) alias `alias`.
pub fn token_matches(s: &str, from: usize, to: usize, alias: &str) -> (r: bool)
    requires
        from <= to && to <= s@.len(),
    ensures
        r == (lower_seq(s@.subrange(from as int, to as int)) == alias@),
{
    let ghost t = lower_seq(s@.subrange(from as int, to as int));
    proof {
        lemma_lower_seq(s@.subrange(from as int, to as int));
    }
    let alen = alias.unicode_len();
    if to - from != alen {
        proof {
            assert(t.len() != alias@.len());
        }
        return false;
    }
    let mut i: usize = 0;
    while i < alen
        invariant
            0 <= i <= alen,
            from + alen == to,
            to <= s@.len(),
            alen == alias@.len(),
            t == lower_seq(s@.subrange(from as int, to as int)),
            t.len() == alen,
            forall|j: int| 0 <= j < i ==> t[j] == alias@[j],
        decreases alen - i,
    {
        let c = to_lower(s.get_char(from + i));
        let a = alias.get_char(i);
        proof {
            lemma_lower_seq(s@.subrange(from as int, to as int));
            assert(s@.subrange(from as int, to as int)[i as int] == s@[from + i]);
            assert(t[i as int] == lower_char(s@[from + i]));
        }
        if c != a {
            proof {
                assert(t[i as int] != alias@[i as int]);
            }
            return false;
        }
        i = i + 1;
    }
    proof {
        assert(t =~= alias@);
    }
    true
}

/// The unit the suffix token `s[from..to]` resolves to,
/// case-insensitively; the empty token means milliseconds.
pub fn match_unit(s: &str, from: usize, to: usize) -> (r: Option<Unit>)
    requires
        from <= to && to <= s@.len(),
    ensures
        r == unit_of(s@.subrange(from as int, to as int)),
{
    proof {
        lemma_lower_seq(s@.subrange(from as int, to as int));
    }
    if to == from {
        return Some(Unit::Milliseconds);
    }
    if token_matches(s, from, to, "ms") || token_matches(s, from, to, "msec") || token_matches(
        s,
        from,
        to,
        "msecs",
    ) || token_matches(s, from, to, "millisecond") || token_matches(s, from, to, "milliseconds") {
        Some(Unit::Milliseconds)
    } else if token_matches(s, from, to, "s") || token_matches(s, from, to, "sec")
        || token_matches(s, from, to, "secs") || token_matches(s, from, to, "second")
        || token_matches(s, from, to, "seconds") {
        Some(Unit::Seconds)
    } else if token_matches(s, from, to, "m") || token_matches(s, from, to, "min")
        || token_matches(s, from, to, "mins") || token_matches(s, from, to, "minute")
        || token_matches(s, from, to, "minutes") {
        Some(Unit::Minutes)
    } else if token_matches(s, from, to, "h") || token_matches(s, from, to, "hr")
        || token_matches(s, from, to, "hrs") || token_matches(s, from, to, "hour")
        || token_matches(s, from, to, "hours") {
        Some(Unit::Hours)
    } else if token_matches(s, from, to, "d") || token_matches(s, from, to, "day")
        || token_matches(s, from, to, "days") {
        Some(Unit::Days)
    } else if token_matches(s, from, to, "w") || token_matches(s, from, to, "wk") || token_matches(
        s,
        from,
        to,
        "wks",
    ) || token_matches(s, from, to, "week") || token_matches(s, from, to, "weeks") {
        Some(Unit::Weeks)
    } else if token_matches(s, from, to, "y") || token_matches(s, from, to, "yr") || token_matches(
        s,
        from,
        to,
        "yrs",
    ) || token_matches(s, from, to, "year") || token_matches(s, from, to, "years") {
        Some(Unit::Years)
    } else {
        None
    }
}

} // verus!
