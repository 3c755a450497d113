//! The RTF texts that `rtf_parser` cannot read without panicking, told apart by their
//! characters before the reader sees them.
//!
//! The reader (version 0.4.3) panics in five places:
//! - it unwraps `String::from_utf16` on each run of adjacent `\u` values, so a UTF-16
//!   surrogate that is not paired up within its run panics;
//! - it reserves `\uc` count plus one UTF-16 units as a `usize`, which overflows for a
//!   negative count (and cannot be reserved on a 32-bit machine for a count from `2^30 - 1`);
//! - it takes the absolute value of a negative `\sl` value, which overflows for
//!   `-2147483648`;
//! - it numbers the colours of the colour table in a `u16` from 1, which overflows at the
//!   65535th `\blue`;
//! - it counts nested braces in an `i32`, which needs a text of `2^31` characters to
//!   overflow.
//! The checks below read characters, not the reader's tokens, so they refuse some texts that
//! the reader takes (a `\u` that is escaped text, a `\blue` outside the colour table); they
//! never let one through on which it panics. A surrogate pair is let through where its high
//! half is a control word followed, with at most a `;` and a space between, by its low half.

use vstd::prelude::*;
use crate::numbers::{digits_value, is_digit};
use crate::text::{chars_of, occurs_at, occurs_at_exec};

verus! {

/// The end of the run of ASCII digits of `t` that starts at `k`.
pub open spec fn digit_run_end(t: Seq<char>, k: int) -> int
    decreases t.len() - k,
{
    if 0 <= k < t.len() && is_digit(t[k]) {
        digit_run_end(t, k + 1)
    } else {
        k
    }
}

/// The value of the run of ASCII digits of `t` that starts at `k`.
pub open spec fn digits_at(t: Seq<char>, k: int) -> nat {
    digits_value(t.subrange(k, digit_run_end(t, k)))
}

/// Whether digits start at `k`.
pub open spec fn has_digits_at(t: Seq<char>, k: int) -> bool {
    digit_run_end(t, k) > k
}

/// Whether a `-` stands at `k`.
pub open spec fn minus_at(t: Seq<char>, k: int) -> bool {
    0 <= k < t.len() && t[k] == '-'
}

/// Whether a number (a `-` or not, then digits) is written at `k`.
pub open spec fn number_at(t: Seq<char>, k: int) -> bool {
    if minus_at(t, k) {
        has_digits_at(t, k + 1)
    } else {
        has_digits_at(t, k)
    }
}

/// Where the number written at `k` ends.
pub open spec fn number_end(t: Seq<char>, k: int) -> int {
    if minus_at(t, k) {
        digit_run_end(t, k + 1)
    } else {
        digit_run_end(t, k)
    }
}

/// The UTF-16 unit that the reader makes of the number at `k`: 65536 is added to a negative
/// value.
pub open spec fn unit_value(t: Seq<char>, k: int) -> int {
    if minus_at(t, k) {
        65536 - digits_at(t, k + 1)
    } else {
        digits_at(t, k) as int
    }
}

/// Whether the number at `k` is a high surrogate for the reader.
pub open spec fn high_at(t: Seq<char>, k: int) -> bool {
    number_at(t, k) && 55296 <= unit_value(t, k) <= 56319
}

/// Whether the number at `k` is a low surrogate for the reader.
pub open spec fn low_at(t: Seq<char>, k: int) -> bool {
    number_at(t, k) && 56320 <= unit_value(t, k) <= 57343
}

/// Whether `\u` starts at `i`.
pub open spec fn unit_start_at(t: Seq<char>, i: int) -> bool {
    0 <= i && i + 1 < t.len() && t[i] == '\\' && t[i + 1] == 'u'
}

/// The characters that end a control word for the reader.
pub open spec fn word_break(c: char) -> bool {
    c == ' ' || c == '\t' || c == '\r' || c == '\n' || c == '\x0C' || c == '\\' || c == '{'
        || c == '}'
}

/// Whether a control word ends at `e` for the reader (after at most a `;`).
pub open spec fn word_ends_at(t: Seq<char>, e: int) -> bool {
    ||| e >= t.len()
    ||| (0 <= e < t.len() && word_break(t[e]))
    ||| (0 <= e < t.len() && t[e] == ';' && (e + 1 >= t.len() || word_break(t[e + 1])))
}

/// Where the `\u` that follows a control word ending at `e` starts, when nothing but a `;`
/// and a space stands between them; -1 otherwise.
pub open spec fn next_unit(t: Seq<char>, e: int) -> int {
    if unit_start_at(t, e) {
        e
    } else if 0 <= e < t.len() && (t[e] == ' ' || t[e] == ';') && unit_start_at(t, e + 1) {
        e + 1
    } else if 0 <= e && e + 1 < t.len() && t[e] == ';' && t[e + 1] == ' ' && unit_start_at(
        t,
        e + 2,
    ) {
        e + 2
    } else {
        -1
    }
}

/// Where the `\u` paired with the one at `i` starts.
pub open spec fn partner(t: Seq<char>, i: int) -> int {
    next_unit(t, number_end(t, i + 2))
}

/// Whether a high surrogate `\u` control word starts at `i` and is followed at once by a
/// low surrogate `\u` control word.
pub open spec fn high_paired(t: Seq<char>, i: int) -> bool {
    &&& unit_start_at(t, i)
    &&& (i == 0 || t[i - 1] != '\\')
    &&& high_at(t, i + 2)
    &&& partner(t, i) >= 0
    &&& low_at(t, partner(t, i) + 2)
    &&& word_ends_at(t, number_end(t, partner(t, i) + 2))
}

/// Whether a paired high surrogate before `c` has its partner at `j`.
pub open spec fn paired_before(t: Seq<char>, c: int, j: int) -> bool {
    exists|m: int| 0 <= m < c && #[trigger] high_paired(t, m) && partner(t, m) == j
}

/// Whether a surrogate `\u` at `i` can be left unpaired.
pub open spec fn surrogate_hazard(t: Seq<char>, i: int) -> bool {
    &&& unit_start_at(t, i)
    &&& (high_at(t, i + 2) || low_at(t, i + 2))
    &&& !high_paired(t, i)
    &&& !paired_before(t, i, i)
}

/// Whether the count written at `k` is a negative `i32`, or an `i32` from `2^30 - 1` on.
pub open spec fn bad_count_at(t: Seq<char>, k: int) -> bool {
    if minus_at(t, k) {
        has_digits_at(t, k + 1) && 1 <= digits_at(t, k + 1) <= 2147483648
    } else {
        has_digits_at(t, k) && 1073741823 <= digits_at(t, k) <= 2147483647
    }
}

/// Whether `\uc` starts at `i` with a count the reader cannot reserve.
pub open spec fn count_hazard(t: Seq<char>, i: int) -> bool {
    unit_start_at(t, i) && i + 2 < t.len() && t[i + 2] == 'c' && bad_count_at(t, i + 3)
}

/// Whether `\sl-2147483648` starts at `i`.
pub open spec fn spacing_hazard(t: Seq<char>, i: int) -> bool {
    &&& 0 <= i
    &&& i + 2 < t.len()
    &&& t[i] == '\\'
    &&& t[i + 1] == 's'
    &&& t[i + 2] == 'l'
    &&& minus_at(t, i + 3)
    &&& has_digits_at(t, i + 4)
    &&& digits_at(t, i + 4) == 2147483648
}

/// Whether the reader can panic on what starts at `i`.
pub open spec fn hazard_at(t: Seq<char>, i: int) -> bool {
    surrogate_hazard(t, i) || count_hazard(t, i) || spacing_hazard(t, i)
}

/// How many times `\blue` starts before position `n`.
pub open spec fn blue_count(t: Seq<char>, n: int) -> nat
    decreases n,
{
    if n <= 0 {
        0
    } else {
        blue_count(t, n - 1) + if occurs_at(t, "\\blue"@, n - 1) {
            1nat
        } else {
            0nat
        }
    }
}

/// The texts that the RTF reader may panic on (see the module's comment).
pub open spec fn rtf_reader_hazard(t: Seq<char>) -> bool {
    ||| t.len() >= 2147483648
    ||| blue_count(t, t.len() as int) >= 65535
    ||| exists|i: int| hazard_at(t, i)
}

// ---------------------------------------------------------------------------
// Facts.

proof fn lemma_digit_run(t: Seq<char>, k: int)
    requires
        0 <= k <= t.len(),
    ensures
        k <= digit_run_end(t, k) <= t.len(),
        forall|x: int| k <= x < digit_run_end(t, k) ==> is_digit(#[trigger] t[x]),
    decreases t.len() - k,
{
    if k < t.len() && is_digit(t[k]) {
        lemma_digit_run(t, k + 1);
    }
}

proof fn lemma_number_end(t: Seq<char>, k: int)
    requires
        0 <= k <= t.len(),
    ensures
        k <= number_end(t, k) <= t.len(),
        forall|x: int| k <= x < number_end(t, k) ==> #[trigger] t[x] != '\\',
{
    if minus_at(t, k) {
        lemma_digit_run(t, k + 1);
    } else {
        lemma_digit_run(t, k);
    }
}

/// No `\` stands between a paired high surrogate and its partner.
proof fn lemma_no_backslash_before_partner(t: Seq<char>, m: int, x: int)
    requires
        high_paired(t, m),
        m < x < partner(t, m),
    ensures
        t[x] != '\\',
{
    lemma_number_end(t, m + 2);
}

// ---------------------------------------------------------------------------
// The checks.

/// The end of the run of digits from `k` and its value, held at `2^31 + 1` when larger.
fn digit_run(t: &Vec<char>, k: usize) -> (r: (usize, u64))
    requires
        k <= t.len(),
    ensures
        r.0 == digit_run_end(t@, k as int),
        r.1 == (if digits_at(t@, k as int) > 2147483648 {
            2147483649
        } else {
            digits_at(t@, k as int)
        }),
{
    let mut j = k;
    let mut v: u64 = 0;
    while j < t.len() && '0' <= t[j] && t[j] <= '9'
        invariant
            k <= j <= t.len(),
            digit_run_end(t@, k as int) == digit_run_end(t@, j as int),
            v == (if digits_value(t@.subrange(k as int, j as int)) > 2147483648 {
                2147483649
            } else {
                digits_value(t@.subrange(k as int, j as int))
            }),
        decreases t.len() - j,
    {
        let ghost prev = t@.subrange(k as int, j as int);
        let ghost next = t@.subrange(k as int, j as int + 1);
        assert(next.drop_last() == prev);
        assert(next.last() == t@[j as int]);
        let d = ((t[j] as u32) - 48) as u64;
        assert(digits_value(next) == digits_value(prev) * 10 + d);
        if v > 2147483648 {
            assert(digits_value(next) >= digits_value(prev)) by (nonlinear_arith)
                requires
                    digits_value(next) == digits_value(prev) * 10 + d,
            ;
        } else {
            let w = v * 10 + d;
            v = if w > 2147483648 {
                2147483649
            } else {
                w
            };
        }
        j = j + 1;
    }
    (j, v)
}

/// Where the number at `k` ends, whether it is one, and its UTF-16 unit (held at 0 when
/// the value is out of the unit's range).
fn read_number(t: &Vec<char>, k: usize) -> (r: (usize, bool, u64))
    requires
        k <= t.len(),
    ensures
        r.0 == number_end(t@, k as int),
        r.1 == number_at(t@, k as int),
        r.1 && 0 <= unit_value(t@, k as int) <= 65535 ==> r.2 == unit_value(t@, k as int),
        r.1 && !(0 <= unit_value(t@, k as int) <= 65535) ==> r.2 == 0,
{
    if k < t.len() && t[k] == '-' {
        let (e, v) = digit_run(t, k + 1);
        let unit: u64 = if v <= 65536 {
            65536 - v
        } else {
            0
        };
        let unit = if unit == 65536 { 0 } else { unit };
        (e, e > k + 1, unit)
    } else {
        let (e, v) = digit_run(t, k);
        let unit: u64 = if v <= 65535 {
            v
        } else {
            0
        };
        (e, e > k, unit)
    }
}

fn word_break_exec(c: char) -> (r: bool)
    ensures
        r == word_break(c),
{
    c == ' ' || c == '\t' || c == '\r' || c == '\n' || c == '\x0C' || c == '\\' || c == '{'
        || c == '}'
}

fn word_ends_exec(t: &Vec<char>, e: usize) -> (r: bool)
    ensures
        r == word_ends_at(t@, e as int),
{
    if e >= t.len() {
        true
    } else if word_break_exec(t[e]) {
        true
    } else {
        t[e] == ';' && (e + 1 >= t.len() || word_break_exec(t[e + 1]))
    }
}

fn unit_start_exec(t: &Vec<char>, i: usize) -> (r: bool)
    ensures
        r == unit_start_at(t@, i as int),
{
    i < t.len() && i + 1 < t.len() && t[i] == '\\' && t[i + 1] == 'u'
}

fn next_unit_exec(t: &Vec<char>, e: usize) -> (r: Option<usize>)
    requires
        e <= t.len(),
    ensures
        match r {
            Some(j) => j as int == next_unit(t@, e as int),
            None => next_unit(t@, e as int) == -1,
        },
{
    if unit_start_exec(t, e) {
        Some(e)
    } else if e < t.len() && (t[e] == ' ' || t[e] == ';') && unit_start_exec(t, e + 1) {
        Some(e + 1)
    } else if e < t.len() && e + 1 < t.len() && t[e] == ';' && t[e + 1] == ' ' && unit_start_exec(t, e + 2) {
        Some(e + 2)
    } else {
        None
    }
}

/// Where the partner of the paired high surrogate at `i` starts; `None` when the `\u` at
/// `i` is no paired high surrogate.
fn paired_high_exec(t: &Vec<char>, i: usize) -> (r: Option<usize>)
    requires
        i < t.len(),
    ensures
        r is Some <==> high_paired(t@, i as int),
        r matches Some(j) ==> j as int == partner(t@, i as int),
{
    if !unit_start_exec(t, i) || (i > 0 && t[i - 1] == '\\') {
        return None;
    }
    let (e, is_num, unit) = read_number(t, i + 2);
    if !(is_num && 55296 <= unit && unit <= 56319) {
        return None;
    }
    proof {
        lemma_number_end(t@, i as int + 2);
    }
    match next_unit_exec(t, e) {
        None => None,
        Some(j) => {
            proof {
                assert(j + 2 <= t.len());
            }
            let (e2, is_num2, unit2) = read_number(t, j + 2);
            if is_num2 && 56320 <= unit2 && unit2 <= 57343 && word_ends_exec(t, e2) {
                Some(j)
            } else {
                None
            }
        },
    }
}

fn bad_count_exec(t: &Vec<char>, k: usize) -> (r: bool)
    requires
        k <= t.len(),
    ensures
        r == bad_count_at(t@, k as int),
{
    if k < t.len() && t[k] == '-' {
        let (e, v) = digit_run(t, k + 1);
        e > k + 1 && 1 <= v && v <= 2147483648
    } else {
        let (e, v) = digit_run(t, k);
        e > k && 1073741823 <= v && v <= 2147483647
    }
}

fn spacing_hazard_exec(t: &Vec<char>, i: usize) -> (r: bool)
    ensures
        r == spacing_hazard(t@, i as int),
{
    if i < t.len() && t.len() - i >= 4 && t[i] == '\\' && t[i + 1] == 's' && t[i + 2] == 'l' && t[i + 3] == '-' {
        let (e, v) = digit_run(t, i + 4);
        e > i + 4 && v == 2147483648
    } else {
        false
    }
}

/// Whether `\blue` starts at least 65535 times in the text.
fn too_many_colours(t: &Vec<char>) -> (r: bool)
    ensures
        r == (blue_count(t@, t@.len() as int) >= 65535),
{
    let blue = chars_of("\\blue");
    let mut count: u32 = 0;
    let mut i: usize = 0;
    while i < t.len()
        invariant
            i <= t.len(),
            blue@ == "\\blue"@,
            count == blue_count(t@, i as int),
            count < 65535,
        decreases t.len() - i,
    {
        if occurs_at_exec(t, &blue, i) {
            count = count + 1;
        }
        i = i + 1;
        if count >= 65535 {
            proof {
                lemma_blue_count_grows(t@, i as int, t@.len() as int);
            }
            return true;
        }
    }
    false
}

proof fn lemma_blue_count_grows(t: Seq<char>, a: int, b: int)
    requires
        a <= b,
    ensures
        blue_count(t, a) <= blue_count(t, b),
    decreases b - a,
{
    if a < b {
        lemma_blue_count_grows(t, a, b - 1);
    }
}

/// Whether the RTF reader may panic on the text (see the module's comment).
pub fn rtf_reader_hazard_chars(t: &Vec<char>) -> (r: bool)
    ensures
        r == rtf_reader_hazard(t@),
{
    if t.len() >= 2147483648 {
        return true;
    }
    if too_many_colours(t) {
        return true;
    }
    let mut pending: Option<usize> = None;
    let mut i: usize = 0;
    while i < t.len()
        invariant
            i <= t.len(),
            forall|m: int| 0 <= m < i ==> !hazard_at(t@, m),
            forall|j: int|
                j >= i ==> (#[trigger] paired_before(t@, i as int, j) <==> (pending matches Some(p) && p
                    == j)),
        decreases t.len() - i,
    {
        let low_ok = match pending {
            Some(p) => p == i,
            None => false,
        };
        let high = paired_high_exec(t, i);
        let high_ok = match high {
            Some(_) => true,
            None => false,
        };
        let mut hazard = false;
        if unit_start_exec(t, i) {
            let (e, is_num, unit) = read_number(t, i + 2);
            if is_num && 55296 <= unit && unit <= 57343 && !high_ok && !low_ok {
                hazard = true;
            }
            if i + 2 < t.len() && t[i + 2] == 'c' && bad_count_exec(t, i + 3) {
                hazard = true;
            }
        }
        if spacing_hazard_exec(t, i) {
            hazard = true;
        }
        if hazard {
            assert(hazard_at(t@, i as int));
            return true;
        }
        assert(!hazard_at(t@, i as int));
        proof {
            assert forall|j: int| j >= i + 1 implies (#[trigger] paired_before(t@, i as int + 1, j) <==> (
                (if high_ok { high } else { pending }) matches Some(p) && p == j)) by {
                let old_pb = paired_before(t@, i as int, j);
                if high_ok {
                    assert(high_paired(t@, i as int));
                    if old_pb {
                        let m = choose|m: int|
                            0 <= m < i && #[trigger] high_paired(t@, m) && partner(t@, m) == j;
                        lemma_no_backslash_before_partner(t@, m, i as int);
                        assert(false);
                    }
                    if partner(t@, i as int) == j {
                        assert(0 <= i < i + 1 && high_paired(t@, i as int) && partner(t@, i as int) == j);
                    }
                    if paired_before(t@, i as int + 1, j) {
                        let m = choose|m: int|
                            0 <= m < i + 1 && #[trigger] high_paired(t@, m) && partner(t@, m) == j;
                        if m < i {
                            assert(paired_before(t@, i as int, j));
                        }
                    }
                } else {
                    if paired_before(t@, i as int + 1, j) {
                        let m = choose|m: int|
                            0 <= m < i + 1 && #[trigger] high_paired(t@, m) && partner(t@, m) == j;
                        if m < i {
                            assert(paired_before(t@, i as int, j));
                        }
                    }
                    if old_pb {
                        let m = choose|m: int|
                            0 <= m < i && #[trigger] high_paired(t@, m) && partner(t@, m) == j;
                        assert(0 <= m < i + 1 && high_paired(t@, m) && partner(t@, m) == j);
                    }
                }
            }
        }
        if high_ok {
            pending = high;
        }
        i = i + 1;
    }
    assert forall|m: int| !hazard_at(t@, m) by {
        if 0 <= m < t.len() {
        }
    }
    false
}

} // verus!
