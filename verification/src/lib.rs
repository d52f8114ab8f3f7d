//! Conversion between human-readable duration strings such as
//! `"2 days"` and a signed count of milliseconds: a verified parser
//! and formatter, and a small polymorphic entry point that routes a
//! string to the parser and an integer to the formatter.
pub mod chars;
pub mod units;
pub mod parse;
pub mod scan;
pub mod format;
pub mod laws;

use vstd::prelude::*;

use crate::format::format_spec;
use crate::parse::{parse_spec, ErrorKind};

verus! {

/// Either input shape the entry point accepts: a duration literal to
/// parse, or a millisecond count to format.
pub enum MsInput {
    Str(String),
    Int(i64),
}

impl From<&str> for MsInput {
    fn from(s: &str) -> (r: Self)
        ensures
            r is Str && r->Str_0@ == s@,
    {
        MsInput::Str(s.to_owned())
    }
}

impl From<String> for MsInput {
    fn from(s: String) -> (r: Self)
        ensures
            r == MsInput::Str(s),
    {
        MsInput::Str(s)
    }
}

impl From<i64> for MsInput {
    fn from(i: i64) -> (r: Self)
        ensures
            r == MsInput::Int(i),
    {
        MsInput::Int(i)
    }
}

// A conversion from `&str` allocates a fresh `String`, whose identity
// no spec-level function of the input can name; its contract instead
// stands on the `from` impl above.
impl vstd::std_specs::convert::FromSpecImpl<&str> for MsInput {
    open spec fn obeys_from_spec() -> bool {
        false
    }

    open spec fn from_spec(s: &str) -> MsInput {
        arbitrary()
    }
}

impl vstd::std_specs::convert::FromSpecImpl<String> for MsInput {
    open spec fn obeys_from_spec() -> bool {
        true
    }

    open spec fn from_spec(s: String) -> MsInput {
        MsInput::Str(s)
    }
}

impl vstd::std_specs::convert::FromSpecImpl<i64> for MsInput {
    open spec fn obeys_from_spec() -> bool {
        true
    }

    open spec fn from_spec(i: i64) -> MsInput {
        MsInput::Int(i)
    }
}

/// The tagged outcome of the entry point: a formatted string for an
/// integer input, a millisecond count for a string input.
pub enum MsOutput {
    Str(String),
    Milliseconds(i64),
}

/// The message reported for each way a literal can fail to parse.
pub open spec fn spec_error_message(k: ErrorKind) -> Seq<char> {
    match k {
        ErrorKind::InputTooLong => "input is too long"@,
        ErrorKind::InvalidFormat => "invalid duration format"@,
        ErrorKind::UnknownUnit => "unknown unit"@,
        ErrorKind::Overflow => "duration is out of the 64-bit millisecond range"@,
    }
}

/// The message reported for each way a literal can fail to parse.
pub fn error_message(k: ErrorKind) -> (r: &'static str)
    ensures
        r@ == spec_error_message(k),
{
    match k {
        ErrorKind::InputTooLong => "input is too long",
        ErrorKind::InvalidFormat => "invalid duration format",
        ErrorKind::UnknownUnit => "unknown unit",
        ErrorKind::Overflow => "duration is out of the 64-bit millisecond range",
    }
}

/// What the entry point owes for a given routed input: a string is
/// parsed, with the parser's error mapped to its message; an integer
/// is formatted, which always succeeds.
pub open spec fn ms_spec_matches(inp: MsInput, r: Result<MsOutput, &'static str>) -> bool {
    match inp {
        MsInput::Str(s) => match parse_spec(s@) {
            Ok(v) => r is Ok && r->Ok_0 == MsOutput::Milliseconds(v),
            Err(k) => r is Err && r->Err_0@ == spec_error_message(k),
        },
        MsInput::Int(i) => r is Ok && r->Ok_0 is Str && r->Ok_0->Str_0@ == format_spec(i),
    }
}

/// Routes an already-tagged input: a string to the parser, an integer
/// to the formatter.
pub fn ms_routed(input: MsInput) -> (r: Result<MsOutput, &'static str>)
    ensures
        ms_spec_matches(input, r),
{
    match input {
        MsInput::Str(s) => match parse::parse(s.as_str()) {
            Ok(v) => Ok(MsOutput::Milliseconds(v)),
            Err(k) => Err(error_message(k)),
        },
        MsInput::Int(i) => Ok(MsOutput::Str(format::format(i))),
    }
}

/// The polymorphic entry point: anything convertible to [`MsInput`]
/// is routed to the parser or the formatter. The result is correct
/// for whatever [`MsInput`] the conversion yielded; for the provided
/// conversions that value is pinned by their contracts.
pub fn ms<T: Into<MsInput>>(input: T) -> (r: Result<MsOutput, &'static str>)
    ensures
        exists|inp: MsInput|
            #[trigger] call_ensures(<T as Into<MsInput>>::into, (input,), inp)
                && ms_spec_matches(inp, r),
{
    let inp = input.into();
    ms_routed(inp)
}

/// Extraction helpers that assume success and a specific variant; the
/// preconditions are the caller's promise, as for the helpers on
/// [`MsOutput`] itself.
pub trait UnwrapMsOutput: Sized {
    /// Whether the value holds a formatted string.
    spec fn has_str(&self) -> bool;

    /// Whether the value holds a millisecond count.
    spec fn has_number(&self) -> bool;

    /// The formatted string held, as a sequence of characters.
    spec fn str_value(&self) -> Seq<char>;

    /// The millisecond count held.
    spec fn number_value(&self) -> i64;

    /// The formatted string, owed only when `has_str` holds.
    fn unwrap_str(self) -> (r: String)
        requires
            self.has_str(),
        ensures
            r@ == self.str_value(),
    ;

    /// The millisecond count, owed only when `has_number` holds.
    fn unwrap_number(self) -> (r: i64)
        requires
            self.has_number(),
        ensures
            r == self.number_value(),
    ;
}

impl MsOutput {
    /// The formatted string held; the caller promises the variant.
    pub fn unwrap_str(self) -> (r: String)
        requires
            self is Str,
        ensures
            r@ == self->Str_0@,
    {
        match self {
            MsOutput::Str(s) => s,
            MsOutput::Milliseconds(_) => vstd::pervasive::unreached(),
        }
    }

    /// The millisecond count held; the caller promises the variant.
    pub fn unwrap_number(self) -> (r: i64)
        requires
            self is Milliseconds,
        ensures
            r == self->Milliseconds_0,
    {
        match self {
            MsOutput::Milliseconds(v) => v,
            MsOutput::Str(_) => vstd::pervasive::unreached(),
        }
    }
}

impl<E> UnwrapMsOutput for Result<MsOutput, E> {
    open spec fn has_str(&self) -> bool {
        self is Ok && self->Ok_0 is Str
    }

    open spec fn has_number(&self) -> bool {
        self is Ok && self->Ok_0 is Milliseconds
    }

    open spec fn str_value(&self) -> Seq<char> {
        self->Ok_0->Str_0@
    }

    open spec fn number_value(&self) -> i64 {
        self->Ok_0->Milliseconds_0
    }

    fn unwrap_str(self) -> (r: String) {
        match self {
            Ok(out) => out.unwrap_str(),
            Err(_) => vstd::pervasive::unreached(),
        }
    }

    fn unwrap_number(self) -> (r: i64) {
        match self {
            Ok(out) => out.unwrap_number(),
            Err(_) => vstd::pervasive::unreached(),
        }
    }
}

} // verus!
