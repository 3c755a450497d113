//! Decimal text of integers, as `to_string` writes it and `str::parse` reads it.

use vstd::prelude::*;

verus! {

/// The ASCII digit for `d` in `0..10`.
pub open spec fn digit_char(d: int) -> char {
    (('0' as u32) + d) as u32 as char
}

/// The decimal digits of a natural number, most significant first, without leading zeros.
pub open spec fn nat_decimal(n: nat) -> Seq<char>
    decreases n,
{
    if n < 10 {
        seq![digit_char(n as int)]
    } else {
        nat_decimal(n / 10) + seq![digit_char((n % 10) as int)]
    }
}

/// The decimal text of an integer, with a leading `-` when it is negative.
pub open spec fn int_decimal(n: int) -> Seq<char> {
    if n < 0 {
        seq!['-'] + nat_decimal((-n) as nat)
    } else {
        nat_decimal(n as nat)
    }
}

fn digit_char_exec(d: u128) -> (c: char)
    requires
        d < 10,
    ensures
        c == digit_char(d as int),
{
    let v: u32 = 48 + d as u32;
    match char::from_u32(v) {
        Some(c) => {
            proof {
                vstd::utf8::char_u32_cast(c, v);
            }
            c
        },
        None => {
            assert(false);
            '0'
        },
    }
}

/// The decimal digits of `n`.
pub fn nat_decimal_chars(n: u128) -> (r: Vec<char>)
    ensures
        r@ == nat_decimal(n as nat),
{
    let mut m = n;
    let mut rev: Vec<char> = Vec::new();
    while m >= 10
        invariant
            nat_decimal(n as nat) == nat_decimal(m as nat) + rev@.reverse(),
        decreases m,
    {
        let d = digit_char_exec(m % 10);
        let ghost old_rev = rev@;
        rev.push(d);
        assert(rev@.reverse() =~= seq![d] + old_rev.reverse());
        m = m / 10;
    }
    let mut out: Vec<char> = Vec::new();
    out.push(digit_char_exec(m));
    let mut k = rev.len();
    while k > 0
        invariant
            k <= rev.len(),
            out@ == seq![digit_char(m as int)] + rev@.skip(k as int).reverse(),
        decreases k,
    {
        k = k - 1;
        let ghost before = rev@.skip(k as int + 1);
        out.push(rev[k]);
        assert(rev@.skip(k as int) =~= seq![rev@[k as int]] + before);
        assert(rev@.skip(k as int).reverse() =~= before.reverse().push(rev@[k as int]));
    }
    assert(rev@.skip(0) == rev@);
    out
}

/// The decimal text of `n` (`i64::to_string`).
pub fn i64_decimal(n: i64) -> (r: String)
    ensures
        r@ == int_decimal(n as int),
{
    if n < 0 {
        let m: u128 = (0i128 - (n as i128)) as u128;
        let digits = nat_decimal_chars(m);
        let mut out: Vec<char> = Vec::new();
        out.push('-');
        crate::text::extend_chars(&mut out, &digits);
        assert(out@ =~= seq!['-'] + digits@);
        crate::text::string_of(&out)
    } else {
        crate::text::string_of(&nat_decimal_chars(n as u128))
    }
}

/// The decimal text of `n` (`usize::to_string`).
pub fn usize_decimal(n: usize) -> (r: String)
    ensures
        r@ == nat_decimal(n as nat),
{
    crate::text::string_of(&nat_decimal_chars(n as u128))
}

/// Whether the character is an ASCII digit.
pub open spec fn is_digit(c: char) -> bool {
    '0' <= c && c <= '9'
}

/// The value of a run of ASCII digits.
pub open spec fn digits_value(s: Seq<char>) -> nat
    decreases s.len(),
{
    if s.len() == 0 {
        0
    } else {
        digits_value(s.drop_last()) * 10 + ((s.last() as u32) - ('0' as u32)) as nat
    }
}

/// `s` without the one `+` it may start with.
pub open spec fn unsigned_digits(s: Seq<char>) -> Seq<char> {
    if s.len() > 0 && s[0] == '+' {
        s.drop_first()
    } else {
        s
    }
}

/// Whether every character of `d` is an ASCII digit.
pub open spec fn all_digits(d: Seq<char>) -> bool {
    forall|i: int| 0 <= i < d.len() ==> is_digit(#[trigger] d[i])
}

/// The unsigned number that `s` spells: an optional `+`, then one or more ASCII digits.
pub open spec fn parse_unsigned(s: Seq<char>) -> Option<nat> {
    let d = unsigned_digits(s);
    if d.len() > 0 && all_digits(d) {
        Some(digits_value(d))
    } else {
        None
    }
}

/// `str::parse::<usize>`: the number `s` spells, when it fits in a `usize`.
pub open spec fn parse_usize(s: Seq<char>) -> Option<usize> {
    match parse_unsigned(s) {
        Some(n) => if n <= usize::MAX {
            Some(n as usize)
        } else {
            None
        },
        None => None,
    }
}

proof fn lemma_digits_value_monotone(s: Seq<char>, k: int)
    requires
        0 <= k <= s.len(),
        forall|i: int| 0 <= i < s.len() ==> is_digit(#[trigger] s[i]),
    ensures
        digits_value(s.take(k)) <= digits_value(s),
    decreases s.len() - k,
{
    if k < s.len() {
        lemma_digits_value_monotone(s, k + 1);
        assert(s.take(k + 1).drop_last() == s.take(k));
    } else {
        assert(s.take(k) == s);
    }
}

fn all_digits_from(s: &Vec<char>, start: usize) -> (r: bool)
    requires
        start <= s.len(),
    ensures
        r <==> forall|k: int| start <= k < s.len() ==> is_digit(#[trigger] s@[k]),
{
    let mut i = start;
    while i < s.len()
        invariant
            start <= i <= s.len(),
            forall|k: int| start <= k < i ==> is_digit(#[trigger] s@[k]),
        decreases s.len() - i,
    {
        let c = s[i];
        if !('0' <= c && c <= '9') {
            assert(!is_digit(s@[i as int]));
            return false;
        }
        i = i + 1;
    }
    true
}

/// Reads a `usize` written in decimal, as `str::parse::<usize>` does.
pub fn parse_usize_chars(s: &Vec<char>) -> (r: Option<usize>)
    ensures
        r == parse_usize(s@),
{
    let start: usize = if s.len() > 0 && s[0] == '+' {
        1
    } else {
        0
    };
    let ghost d = s@.skip(start as int);
    assert(d == unsigned_digits(s@));
    if start >= s.len() {
        return None;
    }
    if !all_digits_from(s, start) {
        assert(!all_digits(d)) by {
            let w = choose|k: int| start <= k < s.len() && !is_digit(#[trigger] s@[k]);
            assert(d[w - start] == s@[w]);
        }
        return None;
    }
    assert forall|k: int| 0 <= k < d.len() implies is_digit(#[trigger] d[k]) by {
        assert(d[k] == s@[k + start]);
    }
    let mut value: u128 = 0;
    let mut i = start;
    let mut overflow = false;
    while i < s.len()
        invariant
            start <= i <= s.len(),
            d == s@.skip(start as int),
            forall|k: int| 0 <= k < d.len() ==> is_digit(#[trigger] d[k]),
            !overflow ==> value == digits_value(d.take(i - start)),
            !overflow ==> value <= usize::MAX,
            overflow ==> digits_value(d.take(i - start)) > usize::MAX,
        decreases s.len() - i,
    {
        let c = s[i];
        let ghost prev = d.take(i - start);
        assert(d.take(i - start + 1).drop_last() == prev);
        assert(d.take(i - start + 1).last() == c);
        assert(is_digit(d[i - start]));
        if !overflow {
            let v = value * 10 + ((c as u32) - 48) as u128;
            if v > usize::MAX as u128 {
                overflow = true;
            } else {
                value = v;
            }
        } else {
            assert(digits_value(d.take(i - start + 1)) >= digits_value(prev) * 10) by (nonlinear_arith)
                requires
                    digits_value(d.take(i - start + 1)) == digits_value(prev) * 10 + ((c as u32) - ('0' as u32)) as nat,
            ;
        }
        i = i + 1;
    }
    assert(d.take(i - start) == d);
    if overflow {
        None
    } else {
        Some(value as usize)
    }
}


proof fn lemma_digit_char(d: int)
    requires
        0 <= d < 10,
    ensures
        is_digit(digit_char(d)),
        (digit_char(d) as u32) - ('0' as u32) == d,
{
}

proof fn lemma_nat_decimal_digits(n: nat)
    ensures
        nat_decimal(n).len() > 0,
        all_digits(nat_decimal(n)),
        digits_value(nat_decimal(n)) == n,
    decreases n,
{
    lemma_digit_char((n % 10) as int);
    if n >= 10 {
        lemma_nat_decimal_digits(n / 10);
        let s = nat_decimal(n);
        assert(s.drop_last() == nat_decimal(n / 10));
        assert((n / 10) * 10 + n % 10 == n) by (nonlinear_arith);
        assert(s.last() == digit_char((n % 10) as int));
        assert(digits_value(s) == digits_value(nat_decimal(n / 10)) * 10 + (n % 10));
        assert(digits_value(s) == n);
    } else {
        let s = nat_decimal(n);
        assert(s.drop_last() =~= Seq::<char>::empty());
        assert(s.last() == digit_char(n as int));
        assert(digits_value(s.drop_last()) == 0);
        assert(digits_value(s) == n);
        assert forall|i: int| 0 <= i < s.len() implies is_digit(#[trigger] s[i]) by {
            if i < s.len() - 1 {
                assert(s[i] == nat_decimal(n / 10)[i]);
            }
        }
    }
}

/// Reading back the decimal text of a `usize` gives the number: a setting stored as text
/// loads as the number that was saved.
pub proof fn lemma_parse_usize_decimal(n: usize)
    ensures
        parse_usize(nat_decimal(n as nat)) == Some(n),
{
    lemma_nat_decimal_digits(n as nat);
    lemma_digit_char(0);
    let s = nat_decimal(n as nat);
    assert(s[0] != '+');
    assert(unsigned_digits(s) == s);
}

} // verus!
