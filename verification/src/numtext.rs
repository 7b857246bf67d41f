//! Verified text encodings of numbers and characters: decimal rendering,
//! decimal parsing with overflow detection, hexadecimal digit pairs, and
//! the UTF-8 byte length of a character.

use vstd::prelude::*;
use crate::shim::push_char;

verus! {

/// The decimal digit character for `d` (0 to 9).
pub open spec fn digit_char(d: int) -> char {
    if d == 0 { '0' } else if d == 1 { '1' } else if d == 2 { '2' } else if d == 3 { '3' }
    else if d == 4 { '4' } else if d == 5 { '5' } else if d == 6 { '6' } else if d == 7 { '7' }
    else if d == 8 { '8' } else { '9' }
}

/// The uppercase hexadecimal digit character for `d` (0 to 15).
pub open spec fn hex_char(d: int) -> char {
    if d < 10 { digit_char(d) }
    else if d == 10 { 'A' } else if d == 11 { 'B' } else if d == 12 { 'C' }
    else if d == 13 { 'D' } else if d == 14 { 'E' } else { 'F' }
}

/// Decimal representation of a nonnegative integer, no leading zeros
/// (a single `'0'` for zero).
pub open spec fn dec_u64(n: nat) -> Seq<char>
    decreases n,
{
    if n < 10 {
        seq![digit_char(n as int)]
    } else {
        dec_u64(n / 10).push(digit_char((n % 10) as int))
    }
}

/// Decimal representation of a signed integer: a leading minus sign when
/// negative.
pub open spec fn dec_i64(n: int) -> Seq<char> {
    if n < 0 {
        seq!['-'] + dec_u64((-n) as nat)
    } else {
        dec_u64(n as nat)
    }
}

/// The digit character for `d`.
pub fn digit_char_of(d: u64) -> (r: char)
    requires
        d < 10,
    ensures
        r == digit_char(d as int),
{
    if d == 0 { '0' } else if d == 1 { '1' } else if d == 2 { '2' } else if d == 3 { '3' }
    else if d == 4 { '4' } else if d == 5 { '5' } else if d == 6 { '6' } else if d == 7 { '7' }
    else if d == 8 { '8' } else { '9' }
}

/// The uppercase hexadecimal digit character for `d`.
pub fn hex_char_of(d: u64) -> (r: char)
    requires
        d < 16,
    ensures
        r == hex_char(d as int),
{
    if d < 10 { digit_char_of(d) }
    else if d == 10 { 'A' } else if d == 11 { 'B' } else if d == 12 { 'C' }
    else if d == 13 { 'D' } else if d == 14 { 'E' } else { 'F' }
}

/// Append the decimal representation of `n` to `s`.
pub fn push_dec_u64(s: &mut String, n: u64)
    ensures
        final(s)@ == old(s)@ + dec_u64(n as nat),
    decreases n,
{
    if n < 10 {
        push_char(s, digit_char_of(n));
    } else {
        push_dec_u64(s, n / 10);
        push_char(s, digit_char_of(n % 10));
        proof {
            assert(final(s)@ =~= old(s)@ + dec_u64(n as nat));
        }
    }
}

/// The decimal representation of `n` as a string.
pub fn u64_to_dec(n: u64) -> (r: String)
    ensures
        r@ == dec_u64(n as nat),
{
    let mut s = String::new();
    push_dec_u64(&mut s, n);
    proof {
        assert(s@ =~= dec_u64(n as nat));
    }
    s
}

/// Append the decimal representation of the signed `n` to `s`.
pub fn push_dec_i64(s: &mut String, n: i64)
    ensures
        final(s)@ == old(s)@ + dec_i64(n as int),
{
    if n >= 0 {
        push_dec_u64(s, n as u64);
    } else {
        push_char(s, '-');
        let mag: u64 = if n == i64::MIN {
            9223372036854775808u64
        } else {
            (-n) as u64
        };
        proof {
            assert(mag as int == -(n as int));
        }
        push_dec_u64(s, mag);
        proof {
            assert(final(s)@ =~= old(s)@ + dec_i64(n as int));
        }
    }
}

/// The decimal representation of the signed `n` as a string.
pub fn i64_to_dec(n: i64) -> (r: String)
    ensures
        r@ == dec_i64(n as int),
{
    let mut s = String::new();
    push_dec_i64(&mut s, n);
    proof {
        assert(s@ =~= dec_i64(n as int));
    }
    s
}

/// Whether `c` is a decimal digit character.
pub open spec fn is_digit(c: char) -> bool {
    48 <= c as u32 && c as u32 <= 57
}

/// The numeric value of a digit character.
pub open spec fn digit_val(c: char) -> int {
    (c as u32) as int - 48
}

/// Whether `ds` is a nonempty run of decimal digits.
pub open spec fn all_digits(ds: Seq<char>) -> bool {
    ds.len() > 0 && forall|i: int| 0 <= i < ds.len() ==> is_digit(ds[i])
}

/// The value of a digit run, most significant first.
pub open spec fn dec_val(ds: Seq<char>) -> int
    decreases ds,
{
    if ds.len() == 0 {
        0
    } else {
        dec_val(ds.drop_last()) * 10 + digit_val(ds.last())
    }
}

/// Whether the characters form an optionally negated digit run.
pub open spec fn int_lexeme_ok(s: Seq<char>) -> bool {
    if s.len() > 0 && s[0] == '-' {
        all_digits(s.drop_first())
    } else {
        all_digits(s)
    }
}

/// The integer value of an optionally negated digit run.
pub open spec fn int_lexeme_val(s: Seq<char>) -> int {
    if s.len() > 0 && s[0] == '-' {
        -dec_val(s.drop_first())
    } else {
        dec_val(s)
    }
}

proof fn lemma_dec_val_nonneg(ds: Seq<char>)
    requires
        forall|i: int| 0 <= i < ds.len() ==> is_digit(ds[i]),
    ensures
        dec_val(ds) >= 0,
    decreases ds,
{
    if ds.len() > 0 {
        lemma_dec_val_nonneg(ds.drop_last());
        assert(dec_val(ds.drop_last()) * 10 >= 0);
    }
}

/// Extending a digit run can only grow its value.
proof fn lemma_dec_val_mono(ds: Seq<char>, i: int)
    requires
        0 <= i <= ds.len(),
        forall|j: int| 0 <= j < ds.len() ==> is_digit(ds[j]),
    ensures
        dec_val(ds) >= dec_val(ds.subrange(0, i)),
    decreases ds.len() - i,
{
    if i == ds.len() {
        assert(ds.subrange(0, i) =~= ds);
    } else {
        lemma_dec_val_mono(ds, i + 1);
        let p = ds.subrange(0, i + 1);
        assert(p.drop_last() =~= ds.subrange(0, i));
        lemma_dec_val_nonneg(ds.subrange(0, i));
        assert(dec_val(p) == dec_val(ds.subrange(0, i)) * 10 + digit_val(ds[i]));
        assert(dec_val(ds.subrange(0, i)) * 10 >= dec_val(ds.subrange(0, i)));
        assert(digit_val(ds[i]) >= 0);
    }
}

/// The magnitude of an i64: 2^63 when negative, 2^63 - 1 when not.
const I64_MAG: u64 = 9223372036854775808u64;

/// Parse the run of digits `ds` (all of `ds`) as a magnitude bounded by
/// `limit`; `None` when some character is not a digit, the run is empty,
/// or the value exceeds `limit`.
fn parse_magnitude(ds: &Vec<char>, limit: u64) -> (r: Option<u64>)
    requires
        limit >= 9,
    ensures
        match r {
            Some(m) => all_digits(ds@) && m as int == dec_val(ds@) && m <= limit,
            None => !all_digits(ds@) || dec_val(ds@) > limit,
        },
{
    if ds.len() == 0 {
        return None;
    }
    let mut m: u64 = 0;
    let mut i: usize = 0;
    proof {
        assert(ds@.subrange(0, 0) =~= Seq::<char>::empty());
    }
    while i < ds.len()
        invariant
            limit >= 9,
            0 <= i <= ds@.len(),
            forall|j: int| 0 <= j < i ==> is_digit(ds@[j]),
            m as int == dec_val(ds@.subrange(0, i as int)),
            m <= limit,
        decreases ds@.len() - i,
    {
        let c = ds[i];
        let u = c as u32;
        if !(48 <= u && u <= 57) {
            return None;
        }
        let d: u64 = (u as u64) - 48;
        proof {
            assert(d as int == digit_val(ds@[i as int]));
            assert(ds@.subrange(0, i + 1).drop_last() =~= ds@.subrange(0, i as int));
            assert(dec_val(ds@.subrange(0, i + 1)) == m as int * 10 + d as int);
        }
        if m > (limit - d) / 10 {
            // The value up to here already exceeds the limit, so the whole
            // run does too.
            proof {
                assert(m as int * 10 + d as int > limit as int);
                if all_digits(ds@) {
                    lemma_dec_val_mono(ds@, i + 1);
                    assert(dec_val(ds@) >= dec_val(ds@.subrange(0, i + 1)));
                }
            }
            return None;
        }
        proof {
            assert(m as int * 10 + d as int <= limit as int);
        }
        m = m * 10 + d;
        i = i + 1;
    }
    proof {
        assert(ds@.subrange(0, ds@.len() as int) =~= ds@);
    }
    Some(m)
}

/// Parse an optionally negated decimal lexeme as an `i64`. `None` exactly
/// when the lexeme is not an optionally negated digit run, or its value
/// does not fit in an `i64`.
pub fn parse_i64(s: &str) -> (r: Option<i64>)
    ensures
        match r {
            Some(v) => int_lexeme_ok(s@) && v as int == int_lexeme_val(s@),
            None => !int_lexeme_ok(s@) || int_lexeme_val(s@) < i64::MIN
                || int_lexeme_val(s@) > i64::MAX,
        },
{
    let cs = crate::shim::chars_of(s);
    if cs.len() > 0 && cs[0] == '-' {
        let mut rest: Vec<char> = Vec::new();
        let mut i: usize = 1;
        while i < cs.len()
            invariant
                1 <= i <= cs@.len(),
                cs@.len() > 0,
                rest@ == cs@.subrange(1, i as int),
            decreases cs@.len() - i,
        {
            rest.push(cs[i]);
            proof {
                assert(cs@.subrange(1, i + 1) =~= cs@.subrange(1, i as int).push(cs@[i as int]));
            }
            i = i + 1;
        }
        proof {
            assert(rest@ =~= cs@.drop_first());
        }
        match parse_magnitude(&rest, I64_MAG) {
            Some(m) => {
                let v: i64 = if m == I64_MAG {
                    i64::MIN
                } else {
                    -(m as i64)
                };
                Some(v)
            },
            None => None,
        }
    } else {
        match parse_magnitude(&cs, I64_MAG - 1) {
            Some(m) => Some(m as i64),
            None => None,
        }
    }
}

/// The number of bytes in the UTF-8 encoding of a character.
pub open spec fn utf8_len(c: char) -> int {
    let u = c as int;
    if u < 0x80 { 1 } else if u < 0x800 { 2 } else if u < 0x10000 { 3 } else { 4 }
}

/// The total number of UTF-8 bytes of a character sequence.
pub open spec fn utf8_len_seq(s: Seq<char>) -> int
    decreases s,
{
    if s.len() == 0 {
        0
    } else {
        utf8_len_seq(s.drop_last()) + utf8_len(s.last())
    }
}

/// The number of bytes in the UTF-8 encoding of `c`.
pub fn utf8_len_of(c: char) -> (r: u64)
    ensures
        r as int == utf8_len(c),
{
    let u = c as u32;
    if u < 0x80 { 1 } else if u < 0x800 { 2 } else if u < 0x10000 { 3 } else { 4 }
}

/// The UTF-8 encoding of `c`, as byte values.
pub open spec fn utf8_bytes(c: char) -> Seq<u8> {
    let u = c as int;
    if u < 0x80 {
        seq![u as u8]
    } else if u < 0x800 {
        seq![(0xC0 + u / 0x40) as u8, (0x80 + u % 0x40) as u8]
    } else if u < 0x10000 {
        seq![
            (0xE0 + u / 0x1000) as u8,
            (0x80 + (u / 0x40) % 0x40) as u8,
            (0x80 + u % 0x40) as u8,
        ]
    } else {
        seq![
            (0xF0 + u / 0x40000) as u8,
            (0x80 + (u / 0x1000) % 0x40) as u8,
            (0x80 + (u / 0x40) % 0x40) as u8,
            (0x80 + u % 0x40) as u8,
        ]
    }
}

/// The UTF-8 encoding of `c` pushed onto `out`.
pub fn push_utf8_bytes(out: &mut Vec<u8>, c: char)
    ensures
        final(out)@ == old(out)@ + utf8_bytes(c),
{
    let u = c as u32;
    if u < 0x80 {
        out.push(u as u8);
    } else if u < 0x800 {
        out.push((0xC0 + u / 0x40) as u8);
        out.push((0x80 + u % 0x40) as u8);
    } else if u < 0x10000 {
        out.push((0xE0 + u / 0x1000) as u8);
        out.push((0x80 + (u / 0x40) % 0x40) as u8);
        out.push((0x80 + u % 0x40) as u8);
    } else {
        out.push((0xF0 + u / 0x40000) as u8);
        out.push((0x80 + (u / 0x1000) % 0x40) as u8);
        out.push((0x80 + (u / 0x40) % 0x40) as u8);
        out.push((0x80 + u % 0x40) as u8);
    }
    proof {
        assert(final(out)@ =~= old(out)@ + utf8_bytes(c));
    }
}

} // verus!
