//! Unbounded decimal arithmetic on vectors of digits, least significant
//! digit first. Supports rendering values that exceed any machine integer.

use vstd::prelude::*;
use crate::text::{dec_chars, digit_char};

verus! {

/// 10 raised to a power.
pub open spec fn pow10(n: nat) -> nat
    decreases n,
{
    if n == 0 {
        1
    } else {
        10 * pow10((n - 1) as nat)
    }
}

pub proof fn lemma_pow10_pos(n: nat)
    ensures
        pow10(n) >= 1,
    decreases n,
{
    if n > 0 {
        lemma_pow10_pos((n - 1) as nat);
    }
}

pub proof fn lemma_pow10_10()
    ensures
        pow10(0) == 1,
        pow10(1) == 10,
        pow10(2) == 100,
        pow10(3) == 1000,
        pow10(4) == 0x2710,
        pow10(5) == 0x186a0,
        pow10(6) == 0xf4240,
        pow10(7) == 0x989680,
        pow10(8) == 0x5f5e100,
        pow10(9) == 0x3b9aca00,
        pow10(10) == 0x2540be400,
{
}

pub proof fn lemma_pow10_mono(a: nat, b: nat)
    requires
        a <= b,
    ensures
        pow10(a) <= pow10(b),
    decreases b,
{
    if a < b {
        lemma_pow10_mono(a, (b - 1) as nat);
        lemma_pow10_pos(a);
    }
}

/// Every entry is a decimal digit.
pub open spec fn digits_wf(s: Seq<u8>) -> bool {
    forall|i: int| 0 <= i < s.len() ==> s[i] < 10
}

/// The number a digit vector stands for, least significant digit first.
pub open spec fn digits_value(s: Seq<u8>) -> nat
    decreases s.len(),
{
    if s.len() == 0 {
        0
    } else {
        (s[0] + 10 * digits_value(s.drop_first())) as nat
    }
}

pub proof fn lemma_digits_value_empty()
    ensures
        digits_value(Seq::<u8>::empty()) == 0,
{
}

/// The value of a single digit is itself.
pub proof fn lemma_digits_value_singleton(d: u8)
    ensures
        digits_value(seq![d]) == d,
{
    assert(seq![d].drop_first() =~= Seq::<u8>::empty());
    lemma_digits_value_empty();
}

/// The value of two concatenated digit strings: the later one is scaled
/// by 10 to the length of the earlier one.
pub proof fn lemma_digits_value_concat(a: Seq<u8>, b: Seq<u8>)
    ensures
        digits_value(a + b) == digits_value(a) + pow10(a.len()) * digits_value(b),
    decreases a.len(),
{
    if a.len() == 0 {
        assert(a + b =~= b);
        assert(digits_value(a) == 0);
        assert(pow10(0) == 1);
    } else {
        assert((a + b).drop_first() =~= a.drop_first() + b);
        lemma_digits_value_concat(a.drop_first(), b);
        assert(10 * (digits_value(a.drop_first()) + pow10((a.len() - 1) as nat) * digits_value(b))
            == 10 * digits_value(a.drop_first()) + pow10(a.len()) * digits_value(b))
            by (nonlinear_arith)
            requires
                pow10(a.len()) == 10 * pow10((a.len() - 1) as nat),
        ;
    }
}

/// Splitting a digit string at any point splits its value.
pub proof fn lemma_digits_split(s: Seq<u8>, i: int)
    requires
        0 <= i <= s.len(),
    ensures
        digits_value(s) == digits_value(s.take(i)) + pow10(i as nat) * digits_value(s.skip(i)),
{
    assert(s.take(i) + s.skip(i) =~= s);
    lemma_digits_value_concat(s.take(i), s.skip(i));
}

/// Appending one digit adds it at the most significant end.
pub proof fn lemma_digits_value_push(s: Seq<u8>, d: u8)
    ensures
        digits_value(s.push(d)) == digits_value(s) + d * pow10(s.len()),
{
    assert(s.push(d) =~= s + seq![d]);
    lemma_digits_value_concat(s, seq![d]);
    lemma_digits_value_singleton(d);
    assert(pow10(s.len()) * (d as nat) == (d as nat) * pow10(s.len())) by (nonlinear_arith);
}

/// A digit string's value is below 10 to its length.
pub proof fn lemma_digits_value_bound(s: Seq<u8>)
    requires
        digits_wf(s),
    ensures
        digits_value(s) < pow10(s.len()),
    decreases s.len(),
{
    if s.len() > 0 {
        lemma_digits_value_bound(s.drop_first());
        assert(s[0] + 10 * digits_value(s.drop_first()) < pow10(s.len())) by (nonlinear_arith)
            requires
                s[0] < 10,
                digits_value(s.drop_first()) < pow10((s.len() - 1) as nat),
                pow10(s.len()) == 10 * pow10((s.len() - 1) as nat),
        ;
    }
}

/// A digit string whose most significant digit is not zero stands for
/// a positive number.
pub proof fn lemma_digits_value_nonzero(s: Seq<u8>)
    requires
        s.len() > 0,
        s.last() != 0,
    ensures
        digits_value(s) >= 1,
    decreases s.len(),
{
    if s.len() == 1 {
    } else {
        lemma_digits_value_nonzero(s.drop_first());
    }
}

/// Each digit is what division and remainder by powers of 10 extract
/// from the value.
pub proof fn lemma_digit_extract(s: Seq<u8>, j: int)
    requires
        digits_wf(s),
        0 <= j < s.len(),
    ensures
        s[j] == (digits_value(s) / pow10(j as nat)) % 10,
{
    lemma_digits_split(s, j);
    lemma_digits_value_bound(s.take(j));
    lemma_pow10_pos(j as nat);
    let lo = digits_value(s.take(j));
    let hi = digits_value(s.skip(j));
    let p = pow10(j as nat);
    assert(lo + p * hi == hi * p + lo) by (nonlinear_arith);
    vstd::arithmetic::div_mod::lemma_fundamental_div_mod_converse(
        digits_value(s) as int,
        p as int,
        hi as int,
        lo as int,
    );
    assert(digits_value(s) as int / p as int == hi);
    assert(s.skip(j)[0] == s[j]);
    assert(hi == s[j] + 10 * digits_value(s.skip(j).drop_first()));
    vstd::arithmetic::div_mod::lemma_fundamental_div_mod_converse(
        hi as int,
        10,
        digits_value(s.skip(j).drop_first()) as int,
        s[j] as int,
    );
}

/// The digit characters of a digit string, most significant first.
pub open spec fn rev_digit_chars(s: Seq<u8>) -> Seq<char> {
    Seq::new(s.len(), |i: int| digit_char(s[s.len() - 1 - i] as nat))
}

/// A well-formed digit string without leading zeros reads, most
/// significant digit first, exactly as the decimal rendering of its value.
pub proof fn lemma_rev_digits_are_dec_chars(s: Seq<u8>)
    requires
        digits_wf(s),
        s.len() > 0,
        s.len() == 1 || s.last() != 0,
    ensures
        rev_digit_chars(s) == dec_chars(digits_value(s)),
    decreases s.len(),
{
    let v = digits_value(s);
    if s.len() == 1 {
        assert(s =~= seq![s[0]]);
        lemma_digits_value_singleton(s[0]);
        assert(rev_digit_chars(s) =~= seq![digit_char(s[0] as nat)]);
    } else {
        let rest = s.drop_first();
        lemma_digits_value_nonzero(rest);
        lemma_rev_digits_are_dec_chars(rest);
        assert(v == s[0] + 10 * digits_value(rest));
        vstd::arithmetic::div_mod::lemma_fundamental_div_mod_converse(
            v as int,
            10,
            digits_value(rest) as int,
            s[0] as int,
        );
        assert(v / 10 == digits_value(rest));
        assert(v % 10 == s[0]);
        assert(v >= 10);
        assert(dec_chars(v) == dec_chars(digits_value(rest)).push(digit_char(s[0] as nat)));
        assert(rev_digit_chars(s) =~= rev_digit_chars(rest).push(digit_char(s[0] as nat)));
    }
}

/// Digits beyond a point that are all zero do not change the value.
pub proof fn lemma_digits_drop_high_zeros(s: Seq<u8>, t: int)
    requires
        0 <= t <= s.len(),
        forall|j: int| t <= j < s.len() ==> s[j] == 0,
    ensures
        digits_value(s) == digits_value(s.take(t)),
    decreases s.len(),
{
    if s.len() > t {
        assert(s =~= s.take(s.len() - 1).push(s.last()));
        lemma_digits_value_push(s.take(s.len() - 1), s.last());
        lemma_digits_drop_high_zeros(s.take(s.len() - 1), t);
        assert(s.take(s.len() - 1).take(t) =~= s.take(t));
        assert(digits_value(s) == digits_value(s.take(s.len() - 1)) + s.last() * pow10(
            (s.len() - 1) as nat,
        ));
    } else {
        assert(s.take(t) =~= s);
    }
}

/// The digit vector of a machine integer.
pub fn digits_from_u128(n: u128) -> (v: Vec<u8>)
    ensures
        digits_wf(v@),
        digits_value(v@) == n as nat,
        v@.len() >= 1,
{
    let mut v: Vec<u8> = Vec::new();
    let mut m: u128 = n;
    let d0 = (m % 10) as u8;
    v.push(d0);
    m = m / 10;
    proof {
        lemma_digits_value_singleton(d0);
        assert(v@ =~= seq![d0]);
        assert(pow10(0) == 1);
        assert(pow10(1) == 10);
        assert(digits_value(v@) == d0);
        assert(d0 + (n as nat / 10) * 10 == n as nat) by (nonlinear_arith)
            requires
                d0 == n as nat % 10,
        ;
        if m > 0 {
            assert((m as nat) * 10 >= 1) by (nonlinear_arith)
                requires
                    m as nat >= 1,
            ;
        }
    }
    while m > 0
        invariant
            digits_wf(v@),
            v@.len() >= 1,
            digits_value(v@) + (m as nat) * pow10(v@.len()) == n as nat,
            m > 0 ==> (m as nat) * pow10(v@.len()) >= 1,
        decreases m,
    {
        let d = (m % 10) as u8;
        proof {
            lemma_digits_value_push(v@, d);
            lemma_pow10_pos(v@.len() + 1);
            let p = pow10(v@.len());
            assert(digits_value(v@) + d * p + (m as nat / 10) * (10 * p) == digits_value(v@) + (
            m as nat) * p) by (nonlinear_arith)
                requires
                    d == m as nat % 10,
                    m as nat / 10 * 10 + m as nat % 10 == m as nat,
            ;
            if m / 10 > 0 {
                assert((m as nat / 10) * (10 * p) >= 1) by (nonlinear_arith)
                    requires
                        m as nat / 10 >= 1,
                        p >= 1,
                ;
            }
        }
        v.push(d);
        m = m / 10;
    }
    proof {
        assert((m as nat) * pow10(v@.len()) == 0) by (nonlinear_arith)
            requires
                m as nat == 0,
        ;
    }
    v
}

/// Doubles the number a digit vector stands for, in place.
pub fn double_digits(v: &mut Vec<u8>)
    requires
        digits_wf(old(v)@),
    ensures
        digits_wf(final(v)@),
        digits_value(final(v)@) == 2 * digits_value(old(v)@),
        final(v)@.len() >= old(v)@.len(),
{
    let ghost orig = v@;
    let mut carry: u8 = 0;
    let mut i: usize = 0;
    proof {
        assert(v@.take(0) =~= Seq::<u8>::empty());
        assert(orig.skip(0) =~= orig);
        lemma_digits_value_empty();
        assert(pow10(0) == 1);
    }
    while i < v.len()
        invariant
            digits_wf(v@),
            digits_wf(orig),
            v@.len() == orig.len(),
            0 <= i <= v@.len(),
            carry <= 1,
            v@.skip(i as int) =~= orig.skip(i as int),
            2 * digits_value(orig) == digits_value(v@.take(i as int)) + (carry + 2 * digits_value(
                orig.skip(i as int),
            )) * pow10(i as nat),
        decreases v@.len() - i,
    {
        let d = v[i];
        let t = 2 * d + carry;
        let nd = t % 10;
        let nc = t / 10;
        proof {
            let gi = i as int;
            let p = pow10(i as nat);
            lemma_pow10_pos(i as nat);
            assert(orig.skip(gi)[0] == orig[gi]);
            assert(digits_value(orig.skip(gi)) == orig[gi] + 10 * digits_value(
                orig.skip(gi).drop_first(),
            ));
            assert(orig.skip(gi).drop_first() =~= orig.skip(gi + 1));
            let vafter = v@.update(gi, nd);
            assert(vafter.take(gi + 1) =~= v@.take(gi).push(nd));
            lemma_digits_value_push(v@.take(gi), nd);
            assert(vafter.skip(gi + 1) =~= orig.skip(gi + 1));
            // arithmetic: carry + 2*(d + 10*rest) == nd + 10*(nc + 2*rest)
            assert((carry + 2 * digits_value(orig.skip(gi))) * p == nd * p + (nc + 2
                * digits_value(orig.skip(gi + 1))) * (10 * p)) by (nonlinear_arith)
                requires
                    digits_value(orig.skip(gi)) == orig[gi] + 10 * digits_value(orig.skip(gi + 1)),
                    nd == (2 * orig[gi] + carry) as nat % 10,
                    nc == (2 * orig[gi] + carry) as nat / 10,
                    d == orig[gi],
                    (2 * orig[gi] + carry) as nat == 2 * orig[gi] + carry,
            ;
            assert(pow10((i + 1) as nat) == 10 * p);
        }
        v.set(i, nd);
        carry = nc;
        i = i + 1;
    }
    proof {
        assert(v@.take(v@.len() as int) =~= v@);
        assert(orig.skip(orig.len() as int) =~= Seq::<u8>::empty());
    }
    if carry > 0 {
        proof {
            lemma_digits_value_push(v@, carry);
        }
        v.push(carry);
    }
    proof {
        assert((0 + 2 * 0) * pow10(orig.len()) == 0) by (nonlinear_arith);
    }
}

} // verus!
