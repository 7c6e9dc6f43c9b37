//! Bytes as text and text as bytes: base64, percent encoding, big-endian numbers.

use crate::checkpoint;
use crate::decimal;
use crate::text;
use vstd::prelude::*;
use vstd::utf8::{encode_utf8, is_ascii_chars, is_ascii_chars_encode_utf8};

verus! {

/// The base64 character of a six-bit number.
pub open spec fn base64_char(i: int) -> char {
    if i < 26 {
        (65 + i) as char
    } else if i < 52 {
        (71 + i) as char
    } else if i < 62 {
        (i - 4) as char
    } else if i == 62 {
        '+'
    } else {
        '/'
    }
}

/// Bytes as base64 text with padding.
pub open spec fn base64(s: Seq<u8>) -> Seq<char>
    decreases s.len(),
{
    if s.len() == 0 {
        Seq::empty()
    } else if s.len() == 1 {
        seq![
            base64_char((s[0] / 4) as int),
            base64_char((s[0] % 4) * 16),
            '=',
            '=',
        ]
    } else if s.len() == 2 {
        seq![
            base64_char((s[0] / 4) as int),
            base64_char((s[0] % 4) * 16 + s[1] / 16),
            base64_char((s[1] % 16) * 4),
            '=',
        ]
    } else {
        seq![
            base64_char((s[0] / 4) as int),
            base64_char((s[0] % 4) * 16 + s[1] / 16),
            base64_char((s[1] % 16) * 4 + s[2] / 64),
            base64_char((s[2] % 64) as int),
        ] + base64(s.skip(3))
    }
}

fn base64_digit(i: u8) -> (r: char)
    requires
        i < 64,
    ensures
        r == base64_char(i as int),
{
    if i < 26 {
        (65 + i) as char
    } else if i < 52 {
        (71 + i) as char
    } else if i < 62 {
        (i - 4) as char
    } else if i == 62 {
        '+'
    } else {
        '/'
    }
}

/// Bytes as base64 text with padding.
pub fn base64_encode(input: &[u8]) -> (r: String)
    ensures
        r@ == base64(input@),
{
    let mut out = String::new();
    let mut i: usize = 0;
    assert(input@.skip(0) =~= input@);
    assert(out@ + base64(input@) =~= base64(input@));
    while i < input.len()
        invariant
            i <= input.len(),
            out@ + base64(input@.skip(i as int)) == base64(input@),
        decreases input.len() - i,
    {
        let ghost before = out@;
        let ghost rest = input@.skip(i as int);
        let left: usize = input.len() - i;
        let a: u8 = input[i];
        out.push(base64_digit(a / 4));
        if left == 1 {
            out.push(base64_digit((a % 4) * 16));
            out.push('=');
            out.push('=');
            assert(out@ =~= before + base64(rest));
            assert(out@ + base64(input@.skip(i + 1)) =~= base64(input@));
            i += 1;
        } else {
            let b: u8 = input[i + 1];
            out.push(base64_digit((a % 4) * 16 + b / 16));
            if left == 2 {
                out.push(base64_digit((b % 16) * 4));
                out.push('=');
                assert(rest[1] == b);
                assert(out@ =~= before + base64(rest));
                assert(out@ + base64(input@.skip(i + 2)) =~= base64(input@));
                i += 2;
            } else {
                let c: u8 = input[i + 2];
                out.push(base64_digit((b % 16) * 4 + c / 64));
                out.push(base64_digit(c % 64));
                assert(rest[1] == b && rest[2] == c);
                assert(rest.skip(3) =~= input@.skip(i + 3));
                assert(out@ + base64(input@.skip(i + 3)) =~= before + base64(rest));
                i += 3;
            }
        }
    }
    assert(out@ + base64(input@.skip(i as int)) =~= out@);
    out
}

/// The number of a base64 byte; the padding byte counts as 64.
pub open spec fn base64_value(b: u8) -> Option<u8> {
    if 65 <= b <= 90 {
        Some((b - 65) as u8)
    } else if 97 <= b <= 122 {
        Some((b - 71) as u8)
    } else if 48 <= b <= 57 {
        Some((b + 4) as u8)
    } else if b == 43 {
        Some(62u8)
    } else if b == 47 {
        Some(63u8)
    } else if b == 61 {
        Some(64u8)
    } else {
        None
    }
}

/// Whether a byte is passed over: blank, tab, line feed, form feed or carriage return.
pub open spec fn is_blank(b: u8) -> bool {
    b == 32 || b == 9 || b == 10 || b == 12 || b == 13
}

/// The bytes that are not passed over.
pub open spec fn solid(s: Seq<u8>) -> Seq<u8>
    decreases s.len(),
{
    if s.len() == 0 {
        Seq::empty()
    } else if is_blank(s.last()) {
        solid(s.drop_last())
    } else {
        solid(s.drop_last()).push(s.last())
    }
}

/// The bytes of four base64 numbers.
pub open spec fn quad(a: u8, b: u8, c: u8, d: u8) -> Seq<u8> {
    seq![(a << 2) | (b >> 4)] + (if c != 64 {
        seq![(b << 4) | (c >> 2)]
    } else {
        Seq::empty()
    }) + (if d != 64 {
        seq![(c << 6) | d]
    } else {
        Seq::empty()
    })
}

/// The bytes of base64 numbers, four at a time; what is left over counts for nothing.
pub open spec fn quads(s: Seq<u8>) -> Seq<u8>
    decreases s.len(),
{
    if s.len() < 4 {
        Seq::empty()
    } else {
        quad(s[0], s[1], s[2], s[3]) + quads(s.skip(4))
    }
}

/// The numbers of base64 bytes, or the first byte that is none.
pub open spec fn base64_values(s: Seq<u8>) -> Result<Seq<u8>, u8>
    decreases s.len(),
{
    if s.len() == 0 {
        Ok(Seq::empty())
    } else {
        match base64_values(s.drop_last()) {
            Err(b) => Err(b),
            Ok(v) => match base64_value(s.last()) {
                Some(n) => Ok(v.push(n)),
                None => Err(s.last()),
            },
        }
    }
}

/// The bytes that base64 bytes stand for, or what is wrong with them.
pub open spec fn unbase64(s: Seq<u8>) -> Result<Seq<u8>, Seq<char>> {
    match base64_values(solid(s)) {
        Err(b) => Err("invalid base64 byte "@ + decimal::dec(b as nat)),
        Ok(v) => if v.len() % 4 != 0 {
            Err("invalid base64 length"@)
        } else {
            Ok(quads(v))
        },
    }
}

/// The number of a base64 byte.
pub fn decode_base64_byte(b: u8) -> (r: Result<u8, String>)
    ensures
        match r {
            Ok(n) => base64_value(b) == Some(n),
            Err(m) => base64_value(b) is None && m@ == "invalid base64 byte "@ + decimal::dec(
                b as nat,
            ),
        },
{
    if 65 <= b && b <= 90 {
        Ok(b - 65)
    } else if 97 <= b && b <= 122 {
        Ok(b - 71)
    } else if 48 <= b && b <= 57 {
        Ok(b + 4)
    } else if b == 43 {
        Ok(62)
    } else if b == 47 {
        Ok(63)
    } else if b == 61 {
        Ok(64)
    } else {
        Err(checkpoint::about("invalid base64 byte ", decimal::dec_text(b as u128).as_str()))
    }
}

proof fn lemma_values_stop(s: Seq<u8>, t: Seq<u8>, b: u8)
    requires
        base64_values(s) == Err::<Seq<u8>, u8>(b),
    ensures
        base64_values(s + t) == Err::<Seq<u8>, u8>(b),
    decreases t.len(),
{
    if t.len() == 0 {
        assert(s + t =~= s);
    } else {
        assert((s + t).drop_last() =~= s + t.drop_last());
        lemma_values_stop(s, t.drop_last(), b);
    }
}

proof fn lemma_solid_prefix(s: Seq<u8>, i: int) -> (t: Seq<u8>)
    requires
        0 <= i <= s.len(),
    ensures
        solid(s) == solid(s.take(i)) + t,
    decreases s.len() - i,
{
    if i == s.len() {
        assert(s.take(i) =~= s);
        assert(solid(s) =~= solid(s.take(i)) + Seq::<u8>::empty());
        Seq::empty()
    } else {
        let t = lemma_solid_prefix(s, i + 1);
        assert(s.take(i + 1).drop_last() =~= s.take(i));
        if is_blank(s[i]) {
            t
        } else {
            let u = seq![s[i]] + t;
            assert(solid(s) =~= solid(s.take(i)) + u);
            u
        }
    }
}

proof fn lemma_quads_append(s: Seq<u8>, a: u8, b: u8, c: u8, d: u8)
    requires
        s.len() % 4 == 0,
    ensures
        quads(s + seq![a, b, c, d]) == quads(s) + quad(a, b, c, d),
    decreases s.len(),
{
    let t = seq![a, b, c, d];
    let whole = s + t;
    if s.len() == 0 {
        assert(whole =~= t);
        assert(t.skip(4) =~= Seq::<u8>::empty());
        assert(quads(t.skip(4)) =~= Seq::<u8>::empty());
        assert(quads(whole) =~= quads(s) + quad(a, b, c, d));
    } else {
        assert(whole.skip(4) =~= s.skip(4) + t);
        lemma_quads_append(s.skip(4), a, b, c, d);
        assert(quads(whole) =~= quads(s) + quad(a, b, c, d));
    }
}

/// The bytes that base64 text stands for.
pub fn base64_decode(input: &str) -> (r: Result<Vec<u8>, String>)
    ensures
        match r {
            Ok(v) => unbase64(encode_utf8(input@)) == Ok::<Seq<u8>, Seq<char>>(v@),
            Err(m) => unbase64(encode_utf8(input@)) == Err::<Seq<u8>, Seq<char>>(m@),
        },
{
    let bytes = input.as_bytes();
    let ghost all = bytes@;
    let mut out: Vec<u8> = Vec::new();
    let mut held: Vec<u8> = Vec::new();
    let ghost mut done: Seq<u8> = Seq::empty();
    let mut i: usize = 0;
    while i < bytes.len()
        invariant
            i <= bytes.len(),
            all == bytes@,
            all == encode_utf8(input@),
            held.len() < 4,
            done.len() % 4 == 0,
            out@ == quads(done),
            base64_values(solid(all.take(i as int))) == Ok::<Seq<u8>, u8>(done + held@),
        decreases bytes.len() - i,
    {
        let b: u8 = bytes[i];
        assert(all.take(i + 1).drop_last() =~= all.take(i as int));
        if !(b == 32 || b == 9 || b == 10 || b == 12 || b == 13) {
            let ghost now = solid(all.take(i + 1));
            assert(now.drop_last() =~= solid(all.take(i as int)));
            match decode_base64_byte(b) {
                Ok(n) => {
                    let ghost before = done + held@;
                    held.push(n);
                    assert(done + held@ =~= before.push(n));
                    if held.len() == 4 {
                        let a: u8 = held[0];
                        let c: u8 = held[1];
                        let d: u8 = held[2];
                        let e: u8 = held[3];
                        let ghost so_far = out@;
                        out.push((a << 2) | (c >> 4));
                        if d != 64 {
                            out.push((c << 4) | (d >> 2));
                        }
                        if e != 64 {
                            out.push((d << 6) | e);
                        }
                        proof {
                            lemma_quads_append(done, a, c, d, e);
                            assert(held@ =~= seq![a, c, d, e]);
                            assert(out@ =~= so_far + quad(a, c, d, e));
                            done = done + held@;
                        }
                        held = Vec::new();
                        assert(done + held@ =~= done);
                    }
                },
                Err(m) => {
                    proof {
                        let t = lemma_solid_prefix(all, i + 1);
                        assert(base64_values(now) == Err::<Seq<u8>, u8>(b));
                        lemma_values_stop(now, t, b);
                    }
                    return Err(m);
                },
            }
        }
        i += 1;
    }
    assert(all.take(all.len() as int) =~= all);
    if held.len() != 0 {
        return Err("invalid base64 length".to_string());
    }
    assert(done + held@ =~= done);
    Ok(out)
}

proof fn lemma_base64_char(i: int)
    requires
        0 <= i < 64,
    ensures
        0 <= base64_char(i) as int,
        (base64_char(i) as int) < 128,
        base64_value(base64_char(i) as u8) == Some(i as u8),
        !is_blank(base64_char(i) as u8),
{
}

proof fn lemma_sextets(a: u8, b: u8, c: u8)
    ensures
        (((a / 4) << 2) | (((a % 4) * 16) as u8 >> 4)) == a,
        (((a / 4) << 2) | (((a % 4) * 16 + b / 16) as u8 >> 4)) == a,
        ((((a % 4) * 16 + b / 16) as u8) << 4 | (((b % 16) * 4) as u8 >> 2)) == b,
        ((((a % 4) * 16 + b / 16) as u8) << 4 | (((b % 16) * 4 + c / 64) as u8 >> 2)) == b,
        ((((b % 16) * 4 + c / 64) as u8) << 6 | (c % 64)) == c,
{
    assert((((a / 4) << 2) | (((a % 4) * 16) as u8 >> 4)) == a) by (bit_vector);
    assert((((a / 4) << 2) | (((a % 4) * 16 + b / 16) as u8 >> 4)) == a) by (bit_vector);
    assert(((((a % 4) * 16 + b / 16) as u8) << 4 | (((b % 16) * 4) as u8 >> 2)) == b)
        by (bit_vector);
    assert(((((a % 4) * 16 + b / 16) as u8) << 4 | (((b % 16) * 4 + c / 64) as u8 >> 2)) == b)
        by (bit_vector);
    assert(((((b % 16) * 4 + c / 64) as u8) << 6 | (c % 64)) == c) by (bit_vector);
}

/// ASCII text as bytes.
pub open spec fn ascii(s: Seq<char>) -> Seq<u8> {
    Seq::new(s.len(), |i: int| s[i] as u8)
}

/// The base64 numbers of bytes.
spec fn sextets(s: Seq<u8>) -> Seq<u8>
    decreases s.len(),
{
    if s.len() == 0 {
        Seq::empty()
    } else if s.len() == 1 {
        seq![s[0] / 4, ((s[0] % 4) * 16) as u8, 64u8, 64u8]
    } else if s.len() == 2 {
        seq![
            s[0] / 4,
            ((s[0] % 4) * 16 + s[1] / 16) as u8,
            ((s[1] % 16) * 4) as u8,
            64u8,
        ]
    } else {
        seq![
            s[0] / 4,
            ((s[0] % 4) * 16 + s[1] / 16) as u8,
            ((s[1] % 16) * 4 + s[2] / 64) as u8,
            s[2] % 64,
        ] + sextets(s.skip(3))
    }
}

spec fn stands_for(c: char, n: u8) -> bool {
    &&& 0 <= c as int
    &&& (c as int) < 128
    &&& base64_value(c as u8) == Some(n)
    &&& !is_blank(c as u8)
}

proof fn lemma_base64_stands_for(s: Seq<u8>)
    ensures
        base64(s).len() == sextets(s).len(),
        sextets(s).len() % 4 == 0,
        forall|i: int| 0 <= i < base64(s).len() ==> stands_for(#[trigger] base64(s)[i], sextets(s)[i]),
    decreases s.len(),
{
    if s.len() > 0 {
        let a = s[0];
        lemma_base64_char((a / 4) as int);
        lemma_base64_char((a % 4) * 16);
        if s.len() >= 2 {
            let b = s[1];
            lemma_base64_char((a % 4) * 16 + b / 16);
            lemma_base64_char((b % 16) * 4);
            if s.len() >= 3 {
                let c = s[2];
                lemma_base64_char((b % 16) * 4 + c / 64);
                lemma_base64_char((c % 64) as int);
                lemma_base64_stands_for(s.skip(3));
                let tail = base64(s.skip(3));
                let nums = sextets(s.skip(3));
                assert forall|i: int| 0 <= i < base64(s).len() implies stands_for(
                    #[trigger] base64(s)[i],
                    sextets(s)[i],
                ) by {
                    if i >= 4 {
                        assert(base64(s)[i] == tail[i - 4]);
                        assert(sextets(s)[i] == nums[i - 4]);
                    }
                }
            }
        }
    }
}

proof fn lemma_quads_of_sextets(s: Seq<u8>)
    ensures
        quads(sextets(s)) == s,
    decreases s.len(),
{
    let n = sextets(s);
    if s.len() == 0 {
        assert(s =~= Seq::<u8>::empty());
    } else if s.len() == 1 {
        lemma_sextets(s[0], 0, 0);
        assert(n.skip(4) =~= Seq::<u8>::empty());
        assert(quads(n.skip(4)) =~= Seq::<u8>::empty());
        assert(quads(n) =~= s);
    } else if s.len() == 2 {
        lemma_sextets(s[0], s[1], 0);
        assert(((s[1] % 16) * 4) as u8 != 64);
        assert(n.skip(4) =~= Seq::<u8>::empty());
        assert(quads(n.skip(4)) =~= Seq::<u8>::empty());
        assert(quads(n) =~= s);
    } else {
        lemma_sextets(s[0], s[1], s[2]);
        assert(((s[1] % 16) * 4 + s[2] / 64) as u8 != 64);
        assert(s[2] % 64 != 64);
        lemma_quads_of_sextets(s.skip(3));
        assert(n.skip(4) =~= sextets(s.skip(3)));
        assert(quads(n) =~= s);
    }
}

proof fn lemma_values_of(c: Seq<char>, n: Seq<u8>)
    requires
        c.len() == n.len(),
        forall|i: int| 0 <= i < c.len() ==> stands_for(#[trigger] c[i], n[i]),
    ensures
        solid(ascii(c)) == ascii(c),
        base64_values(ascii(c)) == Ok::<Seq<u8>, u8>(n),
    decreases c.len(),
{
    if c.len() == 0 {
        assert(ascii(c) =~= Seq::<u8>::empty());
        assert(n =~= Seq::<u8>::empty());
    } else {
        let d = c.drop_last();
        let m = n.drop_last();
        assert forall|i: int| 0 <= i < d.len() implies stands_for(#[trigger] d[i], m[i]) by {
            assert(stands_for(c[i], n[i]));
        }
        lemma_values_of(d, m);
        assert(ascii(c).drop_last() =~= ascii(d));
        assert(stands_for(c[c.len() - 1], n[n.len() - 1]));
        assert(ascii(d).push(ascii(c).last()) =~= ascii(c));
        assert(m.push(n.last()) =~= n);
    }
}

/// Decoding what was encoded gives the bytes back.
pub proof fn lemma_base64_reads_back(s: Seq<u8>)
    ensures
        unbase64(encode_utf8(base64(s))) == Ok::<Seq<u8>, Seq<char>>(s),
{
    lemma_base64_stands_for(s);
    let c = base64(s);
    assert(is_ascii_chars(c)) by {
        assert forall|i: int| 0 <= i < c.len() implies '\0' <= #[trigger] c[i] <= '\u{7f}' by {
            assert(stands_for(c[i], sextets(s)[i]));
        }
    }
    is_ascii_chars_encode_utf8(c);
    assert(encode_utf8(c) =~= ascii(c));
    lemma_values_of(c, sextets(s));
    lemma_quads_of_sextets(s);
}

/// Whether a byte stands for itself in a path argument.
pub open spec fn is_plain_byte(b: u8) -> bool {
    48 <= b <= 57 || 65 <= b <= 90 || 97 <= b <= 122 || b == 46 || b == 45 || b == 95 || b == 47
}

/// A hexadecimal digit with capital letters.
pub open spec fn capital_digit(d: int) -> char {
    if d < 10 {
        (48 + d) as char
    } else {
        (55 + d) as char
    }
}

/// A byte in a path argument: itself, or a percent sign and two digits.
pub open spec fn percent_byte(b: u8) -> Seq<char> {
    if is_plain_byte(b) {
        seq![b as char]
    } else {
        seq!['%', capital_digit((b / 16) as int), capital_digit((b % 16) as int)]
    }
}

/// Bytes in a path argument.
pub open spec fn percent(s: Seq<u8>) -> Seq<char>
    decreases s.len(),
{
    if s.len() == 0 {
        Seq::empty()
    } else {
        percent_byte(s[0]) + percent(s.drop_first())
    }
}

/// A path as an argument of a command: slashes for backslashes, and all but letters, digits, dot,
/// hyphen, underscore and slash as percent-encoded UTF-8.
pub open spec fn path_arg(path: Seq<char>) -> Seq<char> {
    percent(encode_utf8(text::swap_char(path, '\\', '/')))
}

fn capital_digit_char(d: u8) -> (r: char)
    requires
        d < 16,
    ensures
        r == capital_digit(d as int),
{
    if d < 10 {
        (48 + d) as char
    } else {
        (55 + d) as char
    }
}

/// A path as an argument of a command.
pub fn encode_path_arg(value: &str) -> (r: String)
    ensures
        r@ == path_arg(value@),
{
    let normalized = text::swapped_char(value, '\\', '/');
    let bytes = normalized.as_str().as_bytes();
    let ghost all = bytes@;
    let mut out = String::new();
    let mut i: usize = 0;
    assert(all.skip(0) =~= all);
    assert(out@ + percent(all) =~= percent(all));
    while i < bytes.len()
        invariant
            i <= bytes.len(),
            all == bytes@,
            out@ + percent(all.skip(i as int)) == percent(all),
        decreases bytes.len() - i,
    {
        let ghost before = out@;
        let ghost rest = all.skip(i as int);
        let b: u8 = bytes[i];
        if (48 <= b && b <= 57) || (65 <= b && b <= 90) || (97 <= b && b <= 122) || b == 46 || b
            == 45 || b == 95 || b == 47 {
            out.push(b as char);
        } else {
            out.push('%');
            out.push(capital_digit_char(b / 16));
            out.push(capital_digit_char(b % 16));
        }
        assert(rest.drop_first() =~= all.skip(i + 1));
        assert(out@ =~= before + percent_byte(b));
        assert(out@ + percent(all.skip(i + 1)) =~= before + percent(rest));
        i += 1;
    }
    assert(out@ + percent(all.skip(i as int)) =~= out@);
    out
}

/// The number of a capital hexadecimal digit.
pub open spec fn digit_number(c: char) -> int {
    if c as int <= 57 {
        c as int - 48
    } else {
        c as int - 55
    }
}

/// The bytes that a percent-encoded text stands for.
pub open spec fn unpercent(s: Seq<char>) -> Seq<u8>
    decreases s.len(),
{
    if s.len() == 0 {
        Seq::empty()
    } else if s[0] == '%' && s.len() >= 3 {
        seq![(digit_number(s[1]) * 16 + digit_number(s[2])) as u8] + unpercent(s.skip(3))
    } else {
        seq![s[0] as u8] + unpercent(s.drop_first())
    }
}

/// Decoding a percent-encoded argument gives its bytes back.
pub proof fn lemma_percent_reads_back(s: Seq<u8>)
    ensures
        unpercent(percent(s)) == s,
    decreases s.len(),
{
    if s.len() > 0 {
        let rest = s.drop_first();
        lemma_percent_reads_back(rest);
        let b = s[0];
        let e = percent_byte(b) + percent(rest);
        if is_plain_byte(b) {
            assert(e.drop_first() =~= percent(rest));
            assert(e[0] == b as char);
            assert((b as char) as int == b);
        } else {
            assert(e.skip(3) =~= percent(rest));
            assert(e[1] == capital_digit((b / 16) as int));
            assert(e[2] == capital_digit((b % 16) as int));
            assert(digit_number(e[1]) == b / 16);
            assert(digit_number(e[2]) == b % 16);
        }
        assert(seq![b] + rest =~= s);
    } else {
        assert(s =~= Seq::<u8>::empty());
    }
}

/// Whether a character may stand in a path argument.
pub open spec fn is_arg_char(c: char) -> bool {
    ('0' <= c <= '9') || ('A' <= c <= 'Z') || ('a' <= c <= 'z') || c == '.' || c == '-' || c == '_'
        || c == '/' || c == '%'
}

/// A path argument holds neither blanks nor line ends nor anything else that would split the
/// command line.
pub proof fn lemma_path_arg_is_one_word(path: Seq<char>)
    ensures
        forall|i: int| 0 <= i < path_arg(path).len() ==> is_arg_char(#[trigger] path_arg(path)[i]),
{
    lemma_percent_chars(encode_utf8(text::swap_char(path, '\\', '/')));
}

proof fn lemma_percent_chars(s: Seq<u8>)
    ensures
        forall|i: int| 0 <= i < percent(s).len() ==> is_arg_char(#[trigger] percent(s)[i]),
    decreases s.len(),
{
    if s.len() > 0 {
        lemma_percent_chars(s.drop_first());
        let head = percent_byte(s[0]);
        let tail = percent(s.drop_first());
        assert forall|i: int| 0 <= i < head.len() implies is_arg_char(#[trigger] head[i]) by {}
        assert forall|i: int| 0 <= i < percent(s).len() implies is_arg_char(
            #[trigger] percent(s)[i],
        ) by {
            if i < head.len() {
                assert(percent(s)[i] == head[i]);
            } else {
                assert(percent(s)[i] == tail[i - head.len()]);
            }
        }
    }
}

/// A 32-bit number as four bytes, the highest first.
pub open spec fn be32(n: u32) -> Seq<u8> {
    seq![
        (n / 0x100_0000) as u8,
        (n / 0x1_0000 % 0x100) as u8,
        (n / 0x100 % 0x100) as u8,
        (n % 0x100) as u8,
    ]
}

/// A 64-bit number as eight bytes, the highest first.
pub open spec fn be64(n: u64) -> Seq<u8> {
    be32((n / 0x1_0000_0000) as u32) + be32((n % 0x1_0000_0000) as u32)
}

/// Appends a 32-bit number as four bytes, the highest first.
pub fn push_be32(out: &mut Vec<u8>, n: u32)
    ensures
        final(out)@ == old(out)@ + be32(n),
{
    out.push((n / 0x100_0000) as u8);
    out.push((n / 0x1_0000 % 0x100) as u8);
    out.push((n / 0x100 % 0x100) as u8);
    out.push((n % 0x100) as u8);
    assert(out@ =~= old(out)@ + be32(n));
}

/// Appends a 64-bit number as eight bytes, the highest first.
pub fn push_be64(out: &mut Vec<u8>, n: u64)
    ensures
        final(out)@ == old(out)@ + be64(n),
{
    push_be32(out, (n / 0x1_0000_0000) as u32);
    push_be32(out, (n % 0x1_0000_0000) as u32);
    assert(out@ =~= old(out)@ + be64(n));
}

/// Appends bytes.
pub fn push_bytes(out: &mut Vec<u8>, bytes: &[u8])
    ensures
        final(out)@ == old(out)@ + bytes@,
{
    let mut i: usize = 0;
    while i < bytes.len()
        invariant
            i <= bytes.len(),
            out@ == old(out)@ + bytes@.take(i as int),
        decreases bytes.len() - i,
    {
        out.push(bytes[i]);
        assert(out@ =~= old(out)@ + bytes@.take(i + 1));
        i += 1;
    }
    assert(bytes@.take(bytes@.len() as int) =~= bytes@);
}

/// Base64 uses the letters A to Z, a to z, the digits, plus and slash, in this order.
pub proof fn lemma_base64_alphabet(i: int)
    requires
        0 <= i < 64,
    ensures
        0 <= i < 26 ==> base64_char(i) as int == 'A' as int + i,
        26 <= i < 52 ==> base64_char(i) as int == 'a' as int + i - 26,
        52 <= i < 62 ==> base64_char(i) as int == '0' as int + i - 52,
        base64_char(62) == '+',
        base64_char(63) == '/',
{
}

/// Base64 text is as long as its groups of three bytes are, four characters for each, and ends in one or two
/// equals signs where the last group is not whole.
pub proof fn lemma_base64_length(s: Seq<u8>)
    ensures
        base64(s).len() == 4 * ((s.len() + 2) / 3),
        s.len() % 3 == 1 ==> base64(s).last() == '=' && base64(s)[base64(s).len() - 2] == '=',
        s.len() % 3 == 2 ==> base64(s).last() == '=' && base64(s)[base64(s).len() - 2] != '=',
    decreases s.len(),
{
    if s.len() >= 3 {
        lemma_base64_length(s.skip(3));
    }
}

/// A number is written with its highest byte first.
pub proof fn lemma_bytes_come_highest_first(n: u32, m: u64)
    ensures
        be32(n).len() == 4,
        be32(n)[0] * 0x100_0000 + be32(n)[1] * 0x1_0000 + be32(n)[2] * 0x100 + be32(n)[3] == n,
        be64(m).len() == 8,
        be64(m).take(4) == be32((m / 0x1_0000_0000) as u32),
        be64(m).skip(4) == be32((m % 0x1_0000_0000) as u32),
{
    assert(be64(m).take(4) =~= be32((m / 0x1_0000_0000) as u32));
    assert(be64(m).skip(4) =~= be32((m % 0x1_0000_0000) as u32));
}

/// A path argument stands for the path, with slashes for backslashes: letters, digits, dots, dashes, underscores
/// and slashes for themselves, and each other byte by a percent sign and two capital digits.
pub proof fn lemma_path_argument_stands_for_the_path(path: Seq<char>, b: u8)
    ensures
        unpercent(path_arg(path)) == encode_utf8(text::swap_char(path, '\\', '/')),
        is_plain_byte(b) <==> {
            let c = b as char;
            b < 128 && ('0' <= c <= '9' || 'A' <= c <= 'Z' || 'a' <= c <= 'z' || c == '.' || c == '-'
                || c == '_' || c == '/')
        },
        is_plain_byte(b) ==> percent_byte(b) == seq![b as char],
        !is_plain_byte(b) ==> percent_byte(b).len() == 3 && percent_byte(b)[0] == '%',
{
    lemma_percent_reads_back(encode_utf8(text::swap_char(path, '\\', '/')));
}

} // verus!
