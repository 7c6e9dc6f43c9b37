//! Numbers written as text: decimal and hexadecimal, both ways.

use crate::text;
use vstd::prelude::*;

verus! {

/// The character of a decimal or hexadecimal digit, small letters above nine.
pub open spec fn digit(d: int) -> char {
    if d < 10 {
        (48 + d) as char
    } else {
        (87 + d) as char
    }
}

/// `n` in decimal, without leading zeros.
pub open spec fn dec(n: nat) -> Seq<char>
    decreases n,
{
    if n < 10 {
        seq![digit(n as int)]
    } else {
        dec(n / 10).push(digit((n % 10) as int))
    }
}

/// `n` in hexadecimal with small letters, without leading zeros.
pub open spec fn hex(n: nat) -> Seq<char>
    decreases n,
{
    if n < 16 {
        seq![digit(n as int)]
    } else {
        hex(n / 16).push(digit((n % 16) as int))
    }
}

/// `s` filled up with zeros on the left to `width` characters.
pub open spec fn pad(s: Seq<char>, width: nat) -> Seq<char> {
    if s.len() >= width {
        s
    } else {
        Seq::new((width - s.len()) as nat, |i: int| '0') + s
    }
}

/// Whether a character is a decimal digit.
pub open spec fn is_digit(c: char) -> bool {
    48 <= c as int <= 57
}

/// Whether every character is a decimal digit.
pub open spec fn all_digits(s: Seq<char>) -> bool {
    forall|i: int| 0 <= i < s.len() ==> is_digit(#[trigger] s[i])
}

/// The number that a run of decimal digits denotes.
pub open spec fn value(s: Seq<char>) -> nat
    decreases s.len(),
{
    if s.len() == 0 {
        0
    } else {
        10 * value(s.drop_last()) + (s.last() as int - 48) as nat
    }
}

/// The digits of a number after an optional plus sign.
pub open spec fn unsigned_part(s: Seq<char>) -> Seq<char> {
    if s.len() > 1 && s[0] == '+' {
        s.skip(1)
    } else {
        s
    }
}

/// The unsigned number that `s` denotes: an optional plus sign and at least one digit, not more
/// than `max`.
pub open spec fn parse(s: Seq<char>, max: nat) -> Option<nat> {
    let d = unsigned_part(s);
    if d.len() > 0 && all_digits(d) && value(d) <= max {
        Some(value(d))
    } else {
        None
    }
}

/// A number's decimal digits are digits, the first is no sign, and they denote the number.
pub proof fn lemma_dec(n: nat)
    ensures
        dec(n).len() > 0,
        all_digits(dec(n)),
        value(dec(n)) == n,
    decreases n,
{
    if n < 10 {
        assert(dec(n).drop_last() =~= Seq::<char>::empty());
        assert(value(dec(n).drop_last()) == 0);
    } else {
        lemma_dec(n / 10);
        assert(dec(n).drop_last() =~= dec(n / 10));
    }
}

/// Reading back a written number gives the number.
pub proof fn lemma_parse_dec(n: nat, max: nat)
    requires
        n <= max,
    ensures
        parse(dec(n), max) == Some(n),
{
    lemma_dec(n);
    assert(is_digit(dec(n)[0]));
    assert(unsigned_part(dec(n)) == dec(n));
}

proof fn lemma_value_grows(s: Seq<char>, i: int)
    requires
        0 <= i <= s.len(),
        all_digits(s),
    ensures
        value(s.take(i)) <= value(s),
    decreases s.len() - i,
{
    if i == s.len() {
        assert(s.take(i) =~= s);
    } else {
        assert(is_digit(s[i]));
        assert(s.take(i + 1).drop_last() =~= s.take(i));
        lemma_value_grows(s, i + 1);
    }
}

/// The character of a digit below sixteen.
pub fn digit_char(d: u8) -> (r: char)
    requires
        d < 16,
    ensures
        r == digit(d as int),
{
    if d < 10 {
        (48 + d) as char
    } else {
        (87 + d) as char
    }
}

/// `n` in decimal.
pub fn dec_text(n: u128) -> (r: String)
    ensures
        r@ == dec(n as nat),
    decreases n,
{
    if n < 10 {
        let mut s = String::new();
        s.push(digit_char(n as u8));
        assert(s@ =~= dec(n as nat));
        s
    } else {
        let mut s = dec_text(n / 10);
        s.push(digit_char((n % 10) as u8));
        s
    }
}

/// `n` in hexadecimal.
pub fn hex_text(n: u128) -> (r: String)
    ensures
        r@ == hex(n as nat),
    decreases n,
{
    if n < 16 {
        let mut s = String::new();
        s.push(digit_char(n as u8));
        assert(s@ =~= hex(n as nat));
        s
    } else {
        let mut s = hex_text(n / 16);
        s.push(digit_char((n % 16) as u8));
        s
    }
}

/// `s` filled up with zeros on the left to `width` characters.
pub fn padded(s: &str, width: usize) -> (r: String)
    ensures
        r@ == pad(s@, width as nat),
{
    let n: usize = text::chars_of(s).len();
    let mut out = String::new();
    if n < width {
        let mut k: usize = 0;
        while k < width - n
            invariant
                n < width,
                k <= width - n,
                out@ == Seq::new(k as nat, |i: int| '0'),
            decreases width - n - k,
        {
            out.push('0');
            assert(out@ =~= Seq::new((k + 1) as nat, |i: int| '0'));
            k += 1;
        }
    }
    out.append(s);
    assert(out@ =~= pad(s@, width as nat));
    out
}

/// The number that `s` denotes, if it fits 128 bits.
pub fn parse_u128(s: &str) -> (r: Option<u128>)
    ensures
        r is Some <==> parse(s@, u128::MAX as nat) is Some,
        r is Some ==> parse(s@, u128::MAX as nat) == Some(r->0 as nat),
{
    let v = text::chars_of(s);
    let from: usize = if v.len() > 1 && v[0] == '+' {
        1
    } else {
        0
    };
    let ghost d = unsigned_part(s@);
    assert(d =~= v@.skip(from as int));
    if from == v.len() {
        return None;
    }
    let mut total: u128 = 0;
    let mut i: usize = from;
    assert(d.take(0) =~= Seq::<char>::empty());
    while i < v.len()
        invariant
            from <= i <= v.len(),
            d == v@.skip(from as int),
            d == unsigned_part(s@),
            total == value(d.take(i - from)),
            forall|k: int| 0 <= k < i - from ==> is_digit(#[trigger] d[k]),
        decreases v.len() - i,
    {
        let c: u32 = text::code(v[i]);
        assert(d[i - from] == v@[i as int]);
        if c < 48 || c > 57 {
            assert(!is_digit(d[i - from]));
            return None;
        }
        let next = d_step(total, (c - 48) as u8);
        assert(d.take(i - from + 1).drop_last() =~= d.take(i - from));
        match next {
            Some(t) => {
                total = t;
            },
            None => {
                proof {
                    if all_digits(d) {
                        lemma_value_grows(d, i - from + 1);
                    }
                }
                return None;
            },
        }
        i += 1;
    }
    assert(d.take(d.len() as int) =~= d);
    Some(total)
}

fn d_step(total: u128, d: u8) -> (r: Option<u128>)
    requires
        d < 10,
    ensures
        r == (if 10 * total + d <= u128::MAX {
            Some((10 * total + d) as u128)
        } else {
            None
        }),
{
    match total.checked_mul(10) {
        Some(t) => t.checked_add(d as u128),
        None => None,
    }
}

/// The number that `s` denotes, if it fits 64 bits.
pub fn parse_u64(s: &str) -> (r: Option<u64>)
    ensures
        r is Some <==> parse(s@, u64::MAX as nat) is Some,
        r is Some ==> parse(s@, u64::MAX as nat) == Some(r->0 as nat),
{
    match parse_u128(s) {
        Some(v) if v <= u64::MAX as u128 => Some(v as u64),
        _ => None,
    }
}

/// The number that `s` denotes, if it fits 32 bits.
pub fn parse_u32(s: &str) -> (r: Option<u32>)
    ensures
        r is Some <==> parse(s@, u32::MAX as nat) is Some,
        r is Some ==> parse(s@, u32::MAX as nat) == Some(r->0 as nat),
{
    match parse_u128(s) {
        Some(v) if v <= u32::MAX as u128 => Some(v as u32),
        _ => None,
    }
}

/// The number that `s` denotes, if it fits a `usize`.
pub fn parse_usize(s: &str) -> (r: Option<usize>)
    ensures
        r is Some <==> parse(s@, usize::MAX as nat) is Some,
        r is Some ==> parse(s@, usize::MAX as nat) == Some(r->0 as nat),
{
    match parse_u128(s) {
        Some(v) if v <= usize::MAX as u128 => Some(v as usize),
        _ => None,
    }
}

/// What is wrong with digits that denote no 64-bit number: of a bad character and a number that
/// grows too large, whichever comes first.
pub open spec fn digits_problem(s: Seq<char>) -> Seq<char>
    decreases s.len(),
{
    if s.len() == 0 {
        "invalid digit found in string"@
    } else if all_digits(s.drop_last()) && value(s.drop_last()) <= u64::MAX {
        if !is_digit(s.last()) {
            "invalid digit found in string"@
        } else {
            "number too large to fit in target type"@
        }
    } else {
        digits_problem(s.drop_last())
    }
}

/// What is wrong with a text that denotes no 64-bit number.
pub open spec fn number_problem(s: Seq<char>) -> Seq<char> {
    if s.len() == 0 {
        "cannot parse integer from empty string"@
    } else {
        digits_problem(unsigned_part(s))
    }
}

/// The 64-bit number that `s` denotes, or what is wrong with it.
pub fn read_u64(s: &str) -> (r: Result<u64, String>)
    ensures
        match r {
            Ok(n) => parse(s@, u64::MAX as nat) == Some(n as nat),
            Err(m) => parse(s@, u64::MAX as nat) is None && m@ == number_problem(s@),
        },
{
    match parse_u64(s) {
        Some(n) => Ok(n),
        None => Err(number_problem_text(s)),
    }
}

fn number_problem_text(s: &str) -> (r: String)
    requires
        parse(s@, u64::MAX as nat) is None,
    ensures
        r@ == number_problem(s@),
{
    let v = text::chars_of(s);
    if v.len() == 0 {
        return "cannot parse integer from empty string".to_string();
    }
    let from: usize = if v.len() > 1 && v[0] == '+' {
        1
    } else {
        0
    };
    let ghost d = unsigned_part(s@);
    assert(d =~= v@.skip(from as int));
    let mut total: u64 = 0;
    let mut i: usize = from;
    assert(d.take(0) =~= Seq::<char>::empty());
    while i < v.len()
        invariant
            from <= i <= v.len(),
            v.len() > 0,
            v@ == s@,
            d == v@.skip(from as int),
            d == unsigned_part(s@),
            total == value(d.take(i - from)),
            all_digits(d.take(i - from)),
        decreases v.len() - i,
    {
        let c: u32 = text::code(v[i]);
        let ghost now = d.take(i - from + 1);
        assert(now.drop_last() =~= d.take(i - from));
        assert(now.last() == v@[i as int]);
        if c < 48 || c > 57 {
            proof {
                lemma_problem_stays(d, i - from + 1);
            }
            return "invalid digit found in string".to_string();
        }
        match d_step(total as u128, (c - 48) as u8) {
            Some(t) if t <= u64::MAX as u128 => {
                total = t as u64;
            },
            _ => {
                proof {
                    assert(is_digit(now.last()));
                    assert(value(now) > u64::MAX);
                    lemma_problem_stays(d, i - from + 1);
                }
                return "number too large to fit in target type".to_string();
            },
        }
        assert forall|k: int| 0 <= k < now.len() implies is_digit(#[trigger] now[k]) by {
            if k < now.len() - 1 {
                assert(is_digit(d.take(i - from)[k]));
            }
        }
        i += 1;
    }
    assert(d.take(d.len() as int) =~= d);
    "invalid digit found in string".to_string()
}

proof fn lemma_problem_stays(d: Seq<char>, i: int)
    requires
        1 <= i <= d.len(),
        !(all_digits(d.take(i)) && value(d.take(i)) <= u64::MAX),
    ensures
        digits_problem(d) == digits_problem(d.take(i)),
    decreases d.len() - i,
{
    if i == d.len() {
        assert(d.take(i) =~= d);
    } else {
        let next = d.take(i + 1);
        assert(next.drop_last() =~= d.take(i));
        if all_digits(next) {
            assert forall|k: int| 0 <= k < d.take(i).len() implies is_digit(
                #[trigger] d.take(i)[k],
            ) by {
                assert(is_digit(next[k]));
            }
            lemma_value_grows(next, i);
            assert(next.take(i) =~= d.take(i));
        }
        lemma_problem_stays(d, i + 1);
    }
}

/// A written number has no leading zero, unless it is zero.
pub proof fn lemma_dec_has_no_leading_zero(n: nat)
    ensures
        n > 0 ==> dec(n)[0] != '0',
        n == 0 ==> dec(n) == seq!['0'],
        n < 10 ==> dec(n).len() == 1,
        n >= 10 ==> dec(n).len() == dec(n / 10).len() + 1,
    decreases n,
{
    if n >= 10 {
        lemma_dec_has_no_leading_zero(n / 10);
        assert(dec(n)[0] == dec(n / 10)[0]) by {
            lemma_dec(n / 10);
        }
    }
}

/// Zeros on the left change neither that a text is a number nor which one, and fill the text up to the width.
pub proof fn lemma_padded_number_is_the_same(s: Seq<char>, width: nat)
    requires
        all_digits(s),
    ensures
        all_digits(pad(s, width)),
        value(pad(s, width)) == value(s),
        s.len() < width ==> pad(s, width).len() == width,
        s.len() >= width ==> pad(s, width) == s,
        pad(s, width).skip(pad(s, width).len() - s.len()) == s,
{
    if s.len() < width {
        let n = (width - s.len()) as nat;
        let zeros = Seq::new(n, |i: int| '0');
        lemma_zeros_add_nothing(zeros, s);
        assert(pad(s, width).skip(n as int) =~= s);
    } else {
        assert(s.skip(0) =~= s);
    }
}

proof fn lemma_zeros_add_nothing(zeros: Seq<char>, s: Seq<char>)
    requires
        forall|i: int| 0 <= i < zeros.len() ==> #[trigger] zeros[i] == '0',
    ensures
        value(zeros + s) == value(s),
    decreases zeros.len() + s.len(),
{
    if s.len() > 0 {
        lemma_zeros_add_nothing(zeros, s.drop_last());
        assert((zeros + s).drop_last() =~= zeros + s.drop_last());
    } else if zeros.len() > 0 {
        assert(zeros + s =~= zeros);
        assert(zeros[zeros.len() - 1] == '0');
        lemma_zeros_add_nothing(zeros.drop_last(), s);
        assert(zeros.drop_last() + s =~= zeros.drop_last());
    } else {
        assert(zeros + s =~= s);
    }
}

/// Different numbers are written differently, also where they are filled up with zeros.
pub proof fn lemma_numbers_are_told_apart(a: nat, b: nat, width: nat)
    requires
        pad(dec(a), width) == pad(dec(b), width),
    ensures
        a == b,
{
    lemma_dec(a);
    lemma_dec(b);
    lemma_padded_number_is_the_same(dec(a), width);
    lemma_padded_number_is_the_same(dec(b), width);
}

/// Only digits, with a plus sign before them or without, are a number, and only up to the largest one.
pub proof fn lemma_only_digits_are_numbers(s: Seq<char>, max: nat)
    ensures
        s.len() == 0 ==> parse(s, max) is None,
        s == seq!['+'] ==> parse(s, max) is None,
        s.len() > 0 && all_digits(s) ==> (parse(s, max) is Some <==> value(s) <= max) && (value(s)
            <= max ==> parse(s, max) == Some(value(s))),
        s.len() > 1 && s[0] == '+' ==> parse(s, max) == parse_digits(s.skip(1), max),
        s.len() > 0 && s[0] != '+' ==> parse(s, max) == parse_digits(s, max),
{
    if s.len() > 0 && all_digits(s) {
        assert(is_digit(s[0]));
    }
}

/// The number that digits alone denote, if it is not more than `max`.
pub open spec fn parse_digits(s: Seq<char>, max: nat) -> Option<nat> {
    if s.len() > 0 && (forall|i: int| 0 <= i < s.len() ==> '0' <= #[trigger] s[i] <= '9') && value(s)
        <= max {
        Some(value(s))
    } else {
        None
    }
}

/// Hexadecimal digits are those and small letters, and a number of sixteen and more has one more of them than
/// its sixteenth.
pub proof fn lemma_hex_has_small_letters(n: nat)
    ensures
        hex(n).len() > 0,
        forall|i: int|
            0 <= i < hex(n).len() ==> '0' <= #[trigger] hex(n)[i] <= '9' || 'a' <= hex(n)[i] <= 'f',
        n < 10 ==> hex(n) == seq![(48 + n) as char],
        10 <= n < 16 ==> hex(n) == seq![(87 + n) as char],
        n >= 16 ==> hex(n) == hex(n / 16) + hex(n % 16),
    decreases n,
{
    if n >= 16 {
        lemma_hex_has_small_letters(n / 16);
        assert(hex(n) =~= hex(n / 16) + hex(n % 16));
        assert forall|i: int| 0 <= i < hex(n).len() implies '0' <= #[trigger] hex(n)[i] <= '9'
            || 'a' <= hex(n)[i] <= 'f' by {
            if i < hex(n / 16).len() {
                assert(hex(n)[i] == hex(n / 16)[i]);
            }
        }
    }
}

} // verus!
