//! Fixed-precision decimal rendering of binary floating-point bit patterns.
//!
//! A finite IEEE-754 value is sign * m * 2^e2 for a mantissa m and a binary
//! exponent e2. Its fixed-precision decimal form with `frac` digits after
//! the point is the correctly rounded (ties to even) value of
//! m * 10^frac * 2^e2, written with a decimal point `frac` digits from the
//! end. All of it is computed here in integer arithmetic.

use vstd::prelude::*;
use vstd::arithmetic::power2::{
    pow2,
    lemma2_to64,
    lemma_pow2_adds,
    lemma_pow2_unfold,
    lemma_pow2_strictly_increases,
};
use vstd::arithmetic::div_mod::lemma_fundamental_div_mod_converse;
use crate::digits::{
    pow10,
    lemma_pow10_pos,
    lemma_pow10_10,
    lemma_pow10_mono,
    digits_wf,
    digits_value,
    lemma_digits_value_push,
    lemma_digits_split,
    lemma_digits_value_bound,
    lemma_digit_extract,
    lemma_digits_drop_high_zeros,
    rev_digit_chars,
    lemma_rev_digits_are_dec_chars,
    digits_from_u128,
    double_digits,
};
use crate::text::{dec_chars, digit_char, digit_char_exec, push_char};

verus! {

/// The quotient rounded to the nearest integer, ties going to the even
/// neighbour.
pub open spec fn round_half_even(num: nat, den: nat) -> nat {
    let q = num / den;
    let r = num % den;
    if 2 * r > den {
        q + 1
    } else if 2 * r < den {
        q
    } else if q % 2 == 0 {
        q
    } else {
        q + 1
    }
}

/// m * 2^e2 scaled by 10^frac and rounded to an integer (exactly, when
/// e2 is non-negative; to nearest, ties to even, otherwise).
pub open spec fn scaled_fixed(m: nat, e2: int, frac: nat) -> nat {
    if e2 >= 0 {
        m * pow10(frac) * pow2(e2 as nat)
    } else {
        round_half_even(m * pow10(frac), pow2((-e2) as nat))
    }
}

/// The last `frac` decimal digits of a number, most significant first.
pub open spec fn frac_digit_chars(d: nat, frac: nat) -> Seq<char> {
    Seq::new(frac, |i: int| digit_char((d / pow10((frac - 1 - i) as nat)) % 10))
}

/// A scaled integer written with a decimal point `frac` digits from the
/// end, with an optional leading minus sign.
pub open spec fn fixed_chars(neg: bool, d: nat, frac: nat) -> Seq<char> {
    let sign = if neg {
        seq!['-']
    } else {
        Seq::<char>::empty()
    };
    sign + dec_chars(d / pow10(frac)) + seq!['.'] + frac_digit_chars(d, frac)
}

/// 10 raised to a small power, as a machine integer.
pub fn pow10_u64(n: usize) -> (r: u64)
    requires
        n <= 10,
    ensures
        r as nat == pow10(n as nat),
{
    let mut p: u64 = 1;
    let mut i: usize = 0;
    while i < n
        invariant
            0 <= i <= n <= 10,
            p as nat == pow10(i as nat),
        decreases n - i,
    {
        proof {
            lemma_pow10_mono(i as nat, 9);
            lemma_pow10_10();
        }
        p = p * 10;
        i = i + 1;
    }
    p
}

/// 2 raised to a power below 128, as a machine integer.
pub fn pow2_u128(k: u32) -> (r: u128)
    requires
        k <= 127,
    ensures
        r as nat == pow2(k as nat),
{
    proof {
        lemma2_to64();
    }
    let mut p: u128 = 1;
    let mut i: u32 = 0;
    while i < k
        invariant
            0 <= i <= k <= 127,
            p as nat == pow2(i as nat),
        decreases k - i,
    {
        proof {
            lemma_pow2_strictly_increases(i as nat, 127);
            lemma_pow2_adds(63, 64);
            lemma2_to64();
            vstd::arithmetic::power2::lemma2_to64_rest();
            assert(pow2(127) == pow2(63) * pow2(64));
            lemma_pow2_unfold((i + 1) as nat);
        }
        p = p * 2;
        i = i + 1;
    }
    p
}

/// Writes a value with `frac` fractional digits, reading the digits out
/// of a machine integer.
fn render_from_u128(neg: bool, d: u128, frac: usize) -> (r: String)
    requires
        frac <= 10,
    ensures
        r@ == fixed_chars(neg, d as nat, frac as nat),
{
    let p10f = pow10_u64(frac) as u128;
    proof {
        lemma_pow10_pos(frac as nat);
    }
    let ip = d / p10f;
    let mut s = String::new();
    if neg {
        push_char(&mut s, '-');
    }
    let ghost sign = if neg {
        seq!['-']
    } else {
        Seq::<char>::empty()
    };
    let ips = crate::text::u128_to_decimal(ip);
    s.append(ips.as_str());
    push_char(&mut s, '.');
    let ghost prefix = sign + dec_chars(d as nat / pow10(frac as nat)) + seq!['.'];
    proof {
        assert(s@ =~= prefix);
    }
    let mut i: usize = 0;
    while i < frac
        invariant
            0 <= i <= frac <= 10,
            s@ == prefix + frac_digit_chars(d as nat, frac as nat).take(i as int),
        decreases frac - i,
    {
        let p = pow10_u64(frac - 1 - i) as u128;
        proof {
            lemma_pow10_pos((frac - 1 - i) as nat);
        }
        let dig = ((d / p) % 10) as u8;
        push_char(&mut s, digit_char_exec(dig));
        proof {
            assert(frac_digit_chars(d as nat, frac as nat).take(i + 1)
                =~= frac_digit_chars(d as nat, frac as nat).take(i as int).push(
                digit_char(dig as nat),
            ));
            assert(s@ =~= prefix + frac_digit_chars(d as nat, frac as nat).take(i + 1));
        }
        i = i + 1;
    }
    proof {
        assert(frac_digit_chars(d as nat, frac as nat).take(frac as int) =~= frac_digit_chars(
            d as nat,
            frac as nat,
        ));
        assert(s@ =~= fixed_chars(neg, d as nat, frac as nat));
    }
    s
}

/// Writes a value with `frac` fractional digits, reading the digits out
/// of a digit vector (for values beyond any machine integer).
fn render_from_digits(neg: bool, digits: Vec<u8>, frac: usize) -> (r: String)
    requires
        frac <= 10,
        digits_wf(digits@),
    ensures
        r@ == fixed_chars(neg, digits_value(digits@), frac as nat),
{
    let ghost dval = digits_value(digits@);
    let mut v = digits;
    // Pad so that integer and fractional parts can both be read off.
    while v.len() < frac + 1
        invariant
            frac <= 10,
            digits_wf(v@),
            digits_value(v@) == dval,
        decreases frac + 1 - v.len(),
    {
        proof {
            lemma_digits_value_push(v@, 0);
        }
        v.push(0);
    }
    // Find the end of the integer part, skipping high zeros.
    let mut top: usize = v.len();
    while top > frac + 1 && v[top - 1] == 0
        invariant
            frac <= 10,
            frac + 1 <= top <= v@.len(),
            forall|j: int| top <= j < v@.len() ==> v@[j] == 0,
        decreases top,
    {
        top = top - 1;
    }
    let ghost stripped = v@.subrange(frac as int, top as int);
    proof {
        lemma_digits_drop_high_zeros(v@, top as int);
        lemma_digits_split(v@.take(top as int), frac as int);
        assert(v@.take(top as int).take(frac as int) =~= v@.take(frac as int));
        assert(v@.take(top as int).skip(frac as int) =~= stripped);
        lemma_digits_value_bound(v@.take(frac as int));
        lemma_pow10_pos(frac as nat);
        let lo = digits_value(v@.take(frac as int));
        let hi = digits_value(stripped);
        assert(lo + pow10(frac as nat) * hi == hi * pow10(frac as nat) + lo) by (nonlinear_arith);
        lemma_fundamental_div_mod_converse(
            dval as int,
            pow10(frac as nat) as int,
            hi as int,
            lo as int,
        );
        assert(hi == dval / pow10(frac as nat));
        lemma_rev_digits_are_dec_chars(stripped);
    }
    let mut s = String::new();
    if neg {
        push_char(&mut s, '-');
    }
    let ghost sign = if neg {
        seq!['-']
    } else {
        Seq::<char>::empty()
    };
    let mut j: usize = top;
    while j > frac
        invariant
            frac <= j <= top <= v@.len(),
            frac <= 10,
            digits_wf(v@),
            stripped == v@.subrange(frac as int, top as int),
            s@ == sign + rev_digit_chars(stripped).take(top - j),
        decreases j,
    {
        j = j - 1;
        push_char(&mut s, digit_char_exec(v[j]));
        proof {
            assert(rev_digit_chars(stripped).len() == top - frac);
            assert(stripped[j - frac] == v@[j as int]);
            assert(rev_digit_chars(stripped)[top - j - 1] == digit_char(v@[j as int] as nat));
            assert(rev_digit_chars(stripped).take(top - j) =~= rev_digit_chars(stripped).take(
                top - j - 1,
            ).push(digit_char(v@[j as int] as nat)));
            assert(s@ =~= sign + rev_digit_chars(stripped).take(top - j));
        }
    }
    push_char(&mut s, '.');
    let ghost prefix = sign + dec_chars(dval / pow10(frac as nat)) + seq!['.'];
    proof {
        assert(rev_digit_chars(stripped).take(top - frac) =~= rev_digit_chars(stripped));
        assert(s@ =~= prefix);
    }
    let mut i: usize = 0;
    while i < frac
        invariant
            0 <= i <= frac <= 10,
            frac < v@.len() + 1,
            frac <= v@.len(),
            digits_wf(v@),
            digits_value(v@) == dval,
            s@ == prefix + frac_digit_chars(dval, frac as nat).take(i as int),
        decreases frac - i,
    {
        let dig = v[frac - 1 - i];
        proof {
            lemma_digit_extract(v@, frac - 1 - i);
        }
        push_char(&mut s, digit_char_exec(dig));
        proof {
            assert(frac_digit_chars(dval, frac as nat).take(i + 1) =~= frac_digit_chars(
                dval,
                frac as nat,
            ).take(i as int).push(digit_char(dig as nat)));
            assert(s@ =~= prefix + frac_digit_chars(dval, frac as nat).take(i + 1));
        }
        i = i + 1;
    }
    proof {
        assert(frac_digit_chars(dval, frac as nat).take(frac as int) =~= frac_digit_chars(
            dval,
            frac as nat,
        ));
        assert(s@ =~= fixed_chars(neg, dval, frac as nat));
    }
    s
}

/// Renders sign * m * 2^e2 with `frac` fractional decimal digits,
/// rounded to nearest with ties to even.
pub fn render_fixed(neg: bool, m: u64, e2: i32, frac: usize) -> (r: String)
    requires
        m < 0x20000000000000,
        frac <= 10,
        -1075 <= e2 <= 975,
    ensures
        r@ == fixed_chars(neg, scaled_fixed(m as nat, e2 as int, frac as nat), frac as nat),
{
    let p10f = pow10_u64(frac);
    proof {
        lemma_pow10_mono(frac as nat, 10);
        lemma_pow10_10();
        assert((m as nat) * (p10f as nat) < 0x20000000000000 * 0x400000000) by (nonlinear_arith)
            requires
                m < 0x20000000000000,
                p10f as nat <= 0x2540be400,
        ;
        lemma_pow2_adds(64, 23);
        lemma_pow2_adds(64, 24);
        lemma2_to64();
        vstd::arithmetic::power2::lemma2_to64_rest();
        assert(pow2(87) == pow2(64) * pow2(23));
        assert(pow2(87) == 0x8000000000000000000000);
        assert(pow2(88) == pow2(64) * pow2(24));
        assert(pow2(88) == 0x10000000000000000000000);
    }
    let nv: u128 = (m as u128) * (p10f as u128);
    if e2 >= 0 {
        let mut v = digits_from_u128(nv);
        let e2u = e2 as u32;
        let mut j: u32 = 0;
        while j < e2u
            invariant
                0 <= j <= e2u,
                digits_wf(v@),
                digits_value(v@) == (nv as nat) * pow2(j as nat),
            decreases e2u - j,
        {
            double_digits(&mut v);
            proof {
                lemma_pow2_unfold((j + 1) as nat);
                assert(2 * ((nv as nat) * pow2(j as nat)) == (nv as nat) * pow2((j + 1) as nat))
                    by (nonlinear_arith)
                    requires
                        pow2((j + 1) as nat) == 2 * pow2(j as nat),
                ;
            }
            j = j + 1;
        }
        proof {
            lemma2_to64();
            assert((nv as nat) * pow2(e2u as nat) == (m as nat) * pow10(frac as nat) * pow2(
                e2u as nat,
            )) by (nonlinear_arith)
                requires
                    nv as nat == (m as nat) * pow10(frac as nat),
            ;
        }
        render_from_digits(neg, v, frac)
    } else {
        let k: u32 = (-e2) as u32;
        let ghost den = pow2(k as nat);
        proof {
            vstd::arithmetic::power2::lemma_pow2_pos(k as nat);
        }
        let d: u128;
        if k >= 88 {
            proof {
                if k > 88 {
                    lemma_pow2_strictly_increases(88, k as nat);
                }
                assert(2 * (nv as nat) < pow2(88));
                assert((nv as nat) < den);
                lemma_fundamental_div_mod_converse(nv as int, den as int, 0, nv as int);
                assert(nv as nat / den == 0);
                assert(nv as nat % den == nv as nat);
                assert(round_half_even(nv as nat, den) == 0);
            }
            d = 0;
        } else {
            let denx = pow2_u128(k);
            let q = nv / denx;
            let rem = nv % denx;
            proof {
                if k < 88 {
                    lemma_pow2_strictly_increases(k as nat, 88);
                }
                assert(rem < denx);
                vstd::arithmetic::div_mod::lemma_fundamental_div_mod(nv as int, denx as int);
                assert(q as int <= nv as int) by (nonlinear_arith)
                    requires
                        nv as int == (denx as int) * (q as int) + (rem as int),
                        denx >= 1,
                        rem >= 0,
                        q >= 0,
                ;
            }
            let t = 2 * rem;
            d = if t > denx {
                q + 1
            } else if t < denx {
                q
            } else if q % 2 == 0 {
                q
            } else {
                q + 1
            };
            proof {
                assert(d as nat == round_half_even(nv as nat, den));
            }
        }
        render_from_u128(neg, d, frac)
    }
}

/// The fixed-precision decimal reading of an IEEE-754 single-precision
/// bit pattern, with 6 fractional digits (infinities and NaN render as
/// their names).
pub open spec fn f32_fixed_chars(bits: u32) -> Seq<char> {
    let neg = bits >= 0x80000000;
    let a = (bits % 0x80000000) as nat;
    let e = a / 0x800000;
    let f = a % 0x800000;
    if e == 255 {
        if f != 0 {
            "NaN"@
        } else if neg {
            "-inf"@
        } else {
            "inf"@
        }
    } else if e == 0 {
        fixed_chars(neg, scaled_fixed(f, -149, 6), 6)
    } else {
        fixed_chars(neg, scaled_fixed((f + 0x800000) as nat, e - 150, 6), 6)
    }
}

/// The fixed-precision decimal reading of an IEEE-754 double-precision
/// bit pattern, with 10 fractional digits.
pub open spec fn f64_fixed_chars(bits: u64) -> Seq<char> {
    let neg = bits >= 0x8000000000000000;
    let a = (bits % 0x8000000000000000) as nat;
    let e = a / 0x10000000000000;
    let f = a % 0x10000000000000;
    if e == 2047 {
        if f != 0 {
            "NaN"@
        } else if neg {
            "-inf"@
        } else {
            "inf"@
        }
    } else if e == 0 {
        fixed_chars(neg, scaled_fixed(f, -1074, 10), 10)
    } else {
        fixed_chars(neg, scaled_fixed((f + 0x10000000000000) as nat, e - 1075, 10), 10)
    }
}

/// Renders a single-precision bit pattern with 6 fractional digits.
pub fn render_f32_bits(bits: u32) -> (r: String)
    ensures
        r@ == f32_fixed_chars(bits),
{
    let neg = bits >= 0x80000000;
    let a = bits % 0x80000000;
    let e = a / 0x800000;
    let f = a % 0x800000;
    if e == 255 {
        if f != 0 {
            String::from_str("NaN")
        } else if neg {
            String::from_str("-inf")
        } else {
            String::from_str("inf")
        }
    } else if e == 0 {
        render_fixed(neg, f as u64, -149, 6)
    } else {
        render_fixed(neg, (f + 0x800000) as u64, e as i32 - 150, 6)
    }
}

/// Renders a double-precision bit pattern with 10 fractional digits.
pub fn render_f64_bits(bits: u64) -> (r: String)
    ensures
        r@ == f64_fixed_chars(bits),
{
    let neg = bits >= 0x8000000000000000;
    let a = bits % 0x8000000000000000;
    let e = a / 0x10000000000000;
    let f = a % 0x10000000000000;
    if e == 2047 {
        if f != 0 {
            String::from_str("NaN")
        } else if neg {
            String::from_str("-inf")
        } else {
            String::from_str("inf")
        }
    } else if e == 0 {
        render_fixed(neg, f, -1074, 10)
    } else {
        render_fixed(neg, f + 0x10000000000000, e as i32 - 1075, 10)
    }
}

} // verus!
