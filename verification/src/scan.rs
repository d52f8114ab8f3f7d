//! Scanning of character runs and decimal digit sequences: the spec
//! view of each run, its value, and the executable scanners the parser
//! uses.
use vstd::prelude::*;

use vstd::arithmetic::power::pow;
use vstd::string::StrSliceExecFns;

use crate::chars::{digit_of, digit_val, is_digit, is_word, is_space, word_char, space_char};

verus! {

/// Length of the run of digit characters starting at `i`.
pub open spec fn digit_run(s: Seq<char>, i: int) -> int
    decreases s.len() - i,
{
    if i < 0 || i >= s.len() || !is_digit(s[i]) {
        0
    } else {
        1 + digit_run(s, i + 1)
    }
}

/// Length of the run of whitespace characters starting at `i`.
pub open spec fn space_run(s: Seq<char>, i: int) -> int
    decreases s.len() - i,
{
    if i < 0 || i >= s.len() || !is_space(s[i]) {
        0
    } else {
        1 + space_run(s, i + 1)
    }
}

/// Length of the run of unit-token characters starting at `i`.
pub open spec fn word_run(s: Seq<char>, i: int) -> int
    decreases s.len() - i,
{
    if i < 0 || i >= s.len() || !is_word(s[i]) {
        0
    } else {
        1 + word_run(s, i + 1)
    }
}

/// The value of the decimal digits `s[i..j]` read as an integer.
pub open spec fn digits_value(s: Seq<char>, i: int, j: int) -> int
    decreases j - i,
{
    if i >= j {
        0
    } else {
        digits_value(s, i, j - 1) * 10 + digit_val(s[j - 1])
    }
}

/// The index past the last non-whitespace character of `s[..j]`.
pub open spec fn trimmed_end(s: Seq<char>, j: int) -> int
    decreases j,
{
    if j <= 0 {
        0
    } else if is_space(s[j - 1]) {
        trimmed_end(s, j - 1)
    } else {
        j
    }
}

/// The end of the non-whitespace content never moves past `j`.
pub proof fn lemma_trimmed_end_bounds(s: Seq<char>, j: int)
    requires
        0 <= j <= s.len(),
    ensures
        0 <= trimmed_end(s, j) <= j,
    decreases j,
{
    if j > 0 && is_space(s[j - 1]) {
        lemma_trimmed_end_bounds(s, j - 1);
    }
}

/// `s` without leading and trailing whitespace.
pub open spec fn trimmed(s: Seq<char>) -> Seq<char> {
    let a = space_run(s, 0);
    let b = trimmed_end(s, s.len() as int);
    if a >= b {
        Seq::empty()
    } else {
        s.subrange(a, b)
    }
}

/// A digit run stays inside the sequence and covers digits only, with
/// a non-digit (or the end) just past it.
pub proof fn lemma_digit_run_facts(s: Seq<char>, i: int)
    requires
        0 <= i <= s.len(),
    ensures
        0 <= digit_run(s, i),
        i + digit_run(s, i) <= s.len(),
        forall|j: int| i <= j < i + digit_run(s, i) ==> is_digit(s[j]),
        i + digit_run(s, i) < s.len() ==> !is_digit(s[i + digit_run(s, i)]),
    decreases s.len() - i,
{
    if i < s.len() && is_digit(s[i]) {
        lemma_digit_run_facts(s, i + 1);
    }
}

/// A whitespace run stays inside the sequence and covers whitespace
/// only, with a non-space (or the end) just past it.
pub proof fn lemma_space_run_facts(s: Seq<char>, i: int)
    requires
        0 <= i <= s.len(),
    ensures
        0 <= space_run(s, i),
        i + space_run(s, i) <= s.len(),
        forall|j: int| i <= j < i + space_run(s, i) ==> is_space(s[j]),
        i + space_run(s, i) < s.len() ==> !is_space(s[i + space_run(s, i)]),
    decreases s.len() - i,
{
    if i < s.len() && is_space(s[i]) {
        lemma_space_run_facts(s, i + 1);
    }
}

/// A token run stays inside the sequence and covers token characters
/// only, with some other character (or the end) just past it.
pub proof fn lemma_word_run_facts(s: Seq<char>, i: int)
    requires
        0 <= i <= s.len(),
    ensures
        0 <= word_run(s, i),
        i + word_run(s, i) <= s.len(),
        forall|j: int| i <= j < i + word_run(s, i) ==> is_word(s[j]),
        i + word_run(s, i) < s.len() ==> !is_word(s[i + word_run(s, i)]),
    decreases s.len() - i,
{
    if i < s.len() && is_word(s[i]) {
        lemma_word_run_facts(s, i + 1);
    }
}

/// The value of a digit sequence is never negative.
pub proof fn lemma_digits_value_nonneg(s: Seq<char>, i: int, j: int)
    requires
        forall|x: int| i <= x < j ==> is_digit(#[trigger] s[x]),
        0 <= i,
        j <= s.len(),
    ensures
        0 <= digits_value(s, i, j),
    decreases j - i,
{
    if i < j {
        lemma_digits_value_nonneg(s, i, j - 1);
    }
}

/// `n` digits encode a value below `10^n`.
pub proof fn lemma_digits_value_bound(s: Seq<char>, i: int, j: int)
    requires
        forall|x: int| i <= x < j ==> is_digit(#[trigger] s[x]),
        0 <= i <= j,
        j <= s.len(),
    ensures
        0 <= digits_value(s, i, j) < pow(10, (j - i) as nat),
    decreases j - i,
{
    if i >= j {
        vstd::arithmetic::power::lemma_pow0(10);
    } else {
        lemma_digits_value_bound(s, i, j - 1);
        vstd::arithmetic::power::lemma_pow1(10);
        vstd::arithmetic::power::lemma_pow_adds(10, 1, (j - i - 1) as nat);
        assert(pow(10, (j - i) as nat) == 10 * pow(10, (j - i - 1) as nat));
    }
}

/// Appending further digits never shrinks the value.
pub proof fn lemma_digits_value_mono(s: Seq<char>, i: int, j: int, k: int)
    requires
        forall|x: int| i <= x < k ==> is_digit(#[trigger] s[x]),
        0 <= i <= j <= k,
        k <= s.len(),
    ensures
        digits_value(s, i, j) <= digits_value(s, i, k),
    decreases k - j,
{
    if j < k {
        lemma_digits_value_mono(s, i, j, k - 1);
        lemma_digits_value_nonneg(s, i, k - 1);
    }
}

/// Peeling the leading digit off a digit sequence.
pub proof fn lemma_digits_value_left(s: Seq<char>, i: int, j: int)
    requires
        0 <= i < j <= s.len(),
    ensures
        digits_value(s, i, j) == digit_val(s[i]) * pow(10, (j - i - 1) as nat) + digits_value(
            s,
            i + 1,
            j,
        ),
    decreases j - i,
{
    if j == i + 1 {
        vstd::arithmetic::power::lemma_pow0(10);
        assert(digits_value(s, i, i) == 0);
        assert(digits_value(s, i + 1, j) == 0);
        assert(digits_value(s, i, j) == digits_value(s, i, i) * 10 + digit_val(s[i]));
    } else {
        lemma_digits_value_left(s, i, j - 1);
        let p = pow(10, (j - i - 2) as nat);
        vstd::arithmetic::power::lemma_pow1(10);
        vstd::arithmetic::power::lemma_pow_adds(10, 1, (j - i - 2) as nat);
        assert(pow(10, (j - i - 1) as nat) == 10 * p);
        let dv = digit_val(s[i]);
        let rest = digits_value(s, i + 1, j - 1);
        assert(digits_value(s, i, j) == digits_value(s, i, j - 1) * 10 + digit_val(s[j - 1]));
        assert(digits_value(s, i + 1, j) == rest * 10 + digit_val(s[j - 1]));
        assert((dv * p + rest) * 10 == dv * (10 * p) + rest * 10) by (nonlinear_arith);
    }
}

/// A run of digits is as long in one sequence as in another that
/// shows the same digit pattern from `i` on.
pub proof fn lemma_digit_run_congruent(s: Seq<char>, t: Seq<char>, off: int, i: int)
    requires
        0 <= i <= s.len(),
        0 <= off,
        t.len() == off + s.len(),
        forall|x: int| i <= x < s.len() ==> is_digit(#[trigger] t[off + x]) == is_digit(s[x]),
    ensures
        digit_run(t, off + i) == digit_run(s, i),
    decreases s.len() - i,
{
    if i < s.len() && is_digit(s[i]) {
        lemma_digit_run_congruent(s, t, off, i + 1);
    }
}

/// A run of whitespace is as long in one sequence as in another that
/// shows the same whitespace pattern from `i` on.
pub proof fn lemma_space_run_congruent(s: Seq<char>, t: Seq<char>, off: int, i: int)
    requires
        0 <= i <= s.len(),
        0 <= off,
        t.len() == off + s.len(),
        forall|x: int| i <= x < s.len() ==> is_space(#[trigger] t[off + x]) == is_space(s[x]),
    ensures
        space_run(t, off + i) == space_run(s, i),
    decreases s.len() - i,
{
    if i < s.len() && is_space(s[i]) {
        lemma_space_run_congruent(s, t, off, i + 1);
    }
}

/// A run of token characters is as long in one sequence as in
/// another that shows the same token pattern from `i` on.
pub proof fn lemma_word_run_congruent(s: Seq<char>, t: Seq<char>, off: int, i: int)
    requires
        0 <= i <= s.len(),
        0 <= off,
        t.len() == off + s.len(),
        forall|x: int| i <= x < s.len() ==> is_word(#[trigger] t[off + x]) == is_word(s[x]),
    ensures
        word_run(t, off + i) == word_run(s, i),
    decreases s.len() - i,
{
    if i < s.len() && is_word(s[i]) {
        lemma_word_run_congruent(s, t, off, i + 1);
    }
}

/// Digit sequences with the same digit values encode the same number.
pub proof fn lemma_digits_value_congruent(s: Seq<char>, t: Seq<char>, off: int, i: int, j: int)
    requires
        0 <= i <= j <= s.len(),
        0 <= off,
        off + j <= t.len(),
        forall|x: int| i <= x < j ==> digit_val(#[trigger] t[off + x]) == digit_val(s[x]),
    ensures
        digits_value(t, off + i, off + j) == digits_value(s, i, j),
    decreases j - i,
{
    if i < j {
        lemma_digits_value_congruent(s, t, off, i, j - 1);
    }
}

/// A stretch known to be all digits, ended by a non-digit or the end,
/// is exactly the digit run.
pub proof fn lemma_digit_run_is(s: Seq<char>, i: int, j: int)
    requires
        0 <= i <= j <= s.len(),
        forall|x: int| i <= x < j ==> is_digit(#[trigger] s[x]),
        j == s.len() || !is_digit(s[j]),
    ensures
        digit_run(s, i) == j - i,
    decreases j - i,
{
    if i < j {
        lemma_digit_run_is(s, i + 1, j);
    }
}

/// A stretch known to be all whitespace, ended by a non-space or the
/// end, is exactly the whitespace run.
pub proof fn lemma_space_run_is(s: Seq<char>, i: int, j: int)
    requires
        0 <= i <= j <= s.len(),
        forall|x: int| i <= x < j ==> is_space(#[trigger] s[x]),
        j == s.len() || !is_space(s[j]),
    ensures
        space_run(s, i) == j - i,
    decreases j - i,
{
    if i < j {
        lemma_space_run_is(s, i + 1, j);
    }
}

/// A stretch known to be all token characters, ended by any other
/// character or the end, is exactly the token run.
pub proof fn lemma_word_run_is(s: Seq<char>, i: int, j: int)
    requires
        0 <= i <= j <= s.len(),
        forall|x: int| i <= x < j ==> is_word(#[trigger] s[x]),
        j == s.len() || !is_word(s[j]),
    ensures
        word_run(s, i) == j - i,
    decreases j - i,
{
    if i < j {
        lemma_word_run_is(s, i + 1, j);
    }
}

/// Executable scan of the digit run starting at `from`.
pub fn scan_digits(s: &str, from: usize) -> (r: usize)
    requires
        from <= s@.len(),
    ensures
        r == digit_run(s@, from as int),
        from + r <= s@.len(),
{
    let n = s.unicode_len();
    let mut i = from;
    while i < n && digit_of(s.get_char(i)).is_some()
        invariant
            from <= i <= n,
            n == s@.len(),
            digit_run(s@, from as int) == i - from + digit_run(s@, i as int),
        decreases n - i,
    {
        i = i + 1;
    }
    i - from
}

/// Executable scan of the whitespace run starting at `from`.
pub fn scan_spaces(s: &str, from: usize) -> (r: usize)
    requires
        from <= s@.len(),
    ensures
        r == space_run(s@, from as int),
        from + r <= s@.len(),
{
    let n = s.unicode_len();
    let mut i = from;
    while i < n && space_char(s.get_char(i))
        invariant
            from <= i <= n,
            n == s@.len(),
            space_run(s@, from as int) == i - from + space_run(s@, i as int),
        decreases n - i,
    {
        i = i + 1;
    }
    i - from
}

/// Executable scan of the unit-token run starting at `from`.
pub fn scan_word(s: &str, from: usize) -> (r: usize)
    requires
        from <= s@.len(),
    ensures
        r == word_run(s@, from as int),
        from + r <= s@.len(),
{
    let n = s.unicode_len();
    let mut i = from;
    while i < n && word_char(s.get_char(i))
        invariant
            from <= i <= n,
            n == s@.len(),
            word_run(s@, from as int) == i - from + word_run(s@, i as int),
        decreases n - i,
    {
        i = i + 1;
    }
    i - from
}

/// Executable scan for the end of the non-whitespace content of
/// `s[..j]`.
pub fn scan_trimmed_end(s: &str, j: usize) -> (r: usize)
    requires
        j <= s@.len(),
    ensures
        r == trimmed_end(s@, j as int),
        r <= j,
{
    let mut i = j;
    while i > 0 && space_char(s.get_char(i - 1))
        invariant
            i <= j <= s@.len(),
            trimmed_end(s@, j as int) == trimmed_end(s@, i as int),
        decreases i,
    {
        i = i - 1;
    }
    i
}

} // verus!
