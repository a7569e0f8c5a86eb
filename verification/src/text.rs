//! Rendering of numbers as decimal and hexadecimal text.

use vstd::prelude::*;

verus! {

/// The character for a single decimal digit value (0 to 9).
pub open spec fn digit_char(d: nat) -> char {
    ((d + 48) as u8) as char
}

/// The character for a hexadecimal digit value (0 to 15), upper case.
pub open spec fn hex_digit_char(d: nat) -> char {
    if d < 10 {
        digit_char(d)
    } else {
        ((d + 55) as u8) as char
    }
}

/// Decimal rendering of a natural number, most significant digit first,
/// no leading zeros (zero itself renders as "0").
pub open spec fn dec_chars(n: nat) -> Seq<char>
    decreases n,
{
    if n < 10 {
        seq![digit_char(n)]
    } else {
        dec_chars(n / 10).push(digit_char(n % 10))
    }
}

/// Decimal rendering of a (possibly negative) integer.
pub open spec fn signed_dec_chars(v: int) -> Seq<char> {
    if v >= 0 {
        dec_chars(v as nat)
    } else {
        seq!['-'] + dec_chars((-v) as nat)
    }
}

/// Two upper-case hex digits for one byte.
pub open spec fn hex_pair_chars(b: u8) -> Seq<char> {
    seq![hex_digit_char(b as nat / 16), hex_digit_char(b as nat % 16)]
}

/// Bytes rendered as space-separated upper-case hex pairs.
pub open spec fn hex_spaced_chars(bytes: Seq<u8>) -> Seq<char>
    decreases bytes.len(),
{
    if bytes.len() == 0 {
        Seq::empty()
    } else if bytes.len() == 1 {
        hex_pair_chars(bytes[0])
    } else {
        hex_pair_chars(bytes[0]) + seq![' '] + hex_spaced_chars(bytes.drop_first())
    }
}

/// Relies on String::push: appends one character at the end.
#[verifier::external_body]
pub fn push_char(s: &mut String, c: char)
    ensures
        final(s)@ == old(s)@ + seq![c],
{
    s.push(c);
}

/// The digit character for a value below 10.
pub fn digit_char_exec(d: u8) -> (c: char)
    requires
        d < 10,
    ensures
        c == digit_char(d as nat),
{
    (48 + d) as char
}

/// The upper-case hex digit character for a value below 16.
pub fn hex_digit_char_exec(d: u8) -> (c: char)
    requires
        d < 16,
    ensures
        c == hex_digit_char(d as nat),
{
    if d < 10 {
        (48 + d) as char
    } else {
        (55 + d) as char
    }
}

/// Decimal rendering of a u64.
pub fn u64_to_decimal(n: u64) -> (r: String)
    ensures
        r@ == dec_chars(n as nat),
    decreases n,
{
    if n < 10 {
        let mut s = String::new();
        push_char(&mut s, digit_char_exec(n as u8));
        proof {
            assert(s@ =~= dec_chars(n as nat));
        }
        s
    } else {
        let mut s = u64_to_decimal(n / 10);
        push_char(&mut s, digit_char_exec((n % 10) as u8));
        proof {
            assert(s@ =~= dec_chars(n as nat));
        }
        s
    }
}

/// Decimal rendering of a u128.
pub fn u128_to_decimal(n: u128) -> (r: String)
    ensures
        r@ == dec_chars(n as nat),
    decreases n,
{
    if n < 10 {
        let mut s = String::new();
        push_char(&mut s, digit_char_exec(n as u8));
        proof {
            assert(s@ =~= dec_chars(n as nat));
        }
        s
    } else {
        let mut s = u128_to_decimal(n / 10);
        push_char(&mut s, digit_char_exec((n % 10) as u8));
        proof {
            assert(s@ =~= dec_chars(n as nat));
        }
        s
    }
}

/// Decimal rendering of an i64, with a leading minus sign when negative.
pub fn i64_to_decimal(v: i64) -> (r: String)
    ensures
        r@ == signed_dec_chars(v as int),
{
    if v >= 0 {
        u64_to_decimal(v as u64)
    } else {
        let mag: u64 = ((-(v + 1)) as u64) + 1;
        assert(mag as int == -(v as int));
        let mut s = String::new();
        push_char(&mut s, '-');
        let d = u64_to_decimal(mag);
        s.append(d.as_str());
        proof {
            assert(s@ =~= signed_dec_chars(v as int));
        }
        s
    }
}

/// Extending the rendered prefix by one byte appends one pair,
/// preceded by a space unless it is the first.
proof fn lemma_hex_spaced_take_succ(bytes: Seq<u8>, i: int)
    requires
        0 <= i < bytes.len(),
    ensures
        i == 0 ==> hex_spaced_chars(bytes.take(1)) == hex_pair_chars(bytes[0]),
        i > 0 ==> hex_spaced_chars(bytes.take(i + 1)) =~= hex_spaced_chars(bytes.take(i))
            + seq![' '] + hex_pair_chars(bytes[i]),
    decreases i,
{
    if i == 0 {
        assert(bytes.take(1) =~= seq![bytes[0]]);
    } else {
        let t1 = bytes.take(i + 1);
        let t0 = bytes.take(i);
        assert(t1.drop_first() =~= bytes.drop_first().take(i));
        assert(t0.drop_first() =~= bytes.drop_first().take(i - 1));
        lemma_hex_spaced_take_succ(bytes.drop_first(), i - 1);
        if i == 1 {
            assert(t0 =~= seq![bytes[0]]);
            assert(bytes.drop_first().take(1) =~= seq![bytes[1]]);
        }
    }
}

/// Bytes rendered as upper-case hex pairs separated by single spaces.
pub fn to_hex_spaced(bytes: &[u8]) -> (r: String)
    ensures
        r@ == hex_spaced_chars(bytes@),
{
    let mut s = String::new();
    let mut i: usize = 0;
    while i < bytes.len()
        invariant
            0 <= i <= bytes@.len(),
            s@ == hex_spaced_chars(bytes@.take(i as int)),
        decreases bytes@.len() - i,
    {
        if i > 0 {
            push_char(&mut s, ' ');
        }
        let b = bytes[i];
        push_char(&mut s, hex_digit_char_exec(b / 16));
        push_char(&mut s, hex_digit_char_exec(b % 16));
        proof {
            lemma_hex_spaced_take_succ(bytes@, i as int);
            assert(s@ =~= hex_spaced_chars(bytes@.take(i + 1)));
        }
        i = i + 1;
    }
    proof {
        assert(bytes@.take(bytes@.len() as int) =~= bytes@);
    }
    s
}

} // verus!
