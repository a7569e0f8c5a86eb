//! Big- and little-endian interpretation of byte slices as integers.

use vstd::prelude::*;

verus! {

/// 256 raised to a power: the number of values a byte string of that
/// length can take.
pub open spec fn pow256(n: nat) -> nat
    decreases n,
{
    if n == 0 {
        1
    } else {
        256 * pow256((n - 1) as nat)
    }
}

/// The value of a byte string read most significant byte first.
pub open spec fn be_value(bytes: Seq<u8>) -> nat
    decreases bytes.len(),
{
    if bytes.len() == 0 {
        0
    } else {
        (be_value(bytes.drop_last()) * 256 + bytes.last()) as nat
    }
}

/// The value of a byte string read least significant byte first.
pub open spec fn le_value(bytes: Seq<u8>) -> nat
    decreases bytes.len(),
{
    if bytes.len() == 0 {
        0
    } else {
        (bytes[0] + 256 * le_value(bytes.drop_first())) as nat
    }
}

/// The signed reading of an unsigned value of the given byte width,
/// in two's complement.
pub open spec fn twos_complement(v: nat, width: nat) -> int {
    if 2 * v < pow256(width) {
        v as int
    } else {
        v - pow256(width)
    }
}

pub proof fn lemma_be_value_bound(bytes: Seq<u8>)
    ensures
        be_value(bytes) < pow256(bytes.len()),
    decreases bytes.len(),
{
    if bytes.len() > 0 {
        lemma_be_value_bound(bytes.drop_last());
        assert(be_value(bytes.drop_last()) * 256 + 255 < pow256(bytes.len())) by (nonlinear_arith)
            requires
                be_value(bytes.drop_last()) < pow256((bytes.len() - 1) as nat),
                pow256(bytes.len()) == 256 * pow256((bytes.len() - 1) as nat),
        ;
    }
}

pub proof fn lemma_le_value_bound(bytes: Seq<u8>)
    ensures
        le_value(bytes) < pow256(bytes.len()),
    decreases bytes.len(),
{
    if bytes.len() > 0 {
        lemma_le_value_bound(bytes.drop_first());
        assert(255 + 256 * le_value(bytes.drop_first()) < pow256(bytes.len())) by (nonlinear_arith)
            requires
                le_value(bytes.drop_first()) < pow256((bytes.len() - 1) as nat),
                pow256(bytes.len()) == 256 * pow256((bytes.len() - 1) as nat),
        ;
    }
}

pub proof fn lemma_pow256_7()
    ensures
        pow256(1) == 0x100,
        pow256(2) == 0x10000,
        pow256(3) == 0x1000000,
        pow256(4) == 0x100000000,
        pow256(7) == 0x100000000000000,
        pow256(8) == 0x10000000000000000,
{
    assert(pow256(8) == 256 * pow256(7));
    assert(pow256(0) == 1);
    assert(pow256(1) == 256);
    assert(pow256(2) == 0x10000);
    assert(pow256(3) == 0x1000000);
    assert(pow256(4) == 0x100000000);
    assert(pow256(5) == 0x10000000000);
    assert(pow256(6) == 0x1000000000000);
}

pub proof fn lemma_pow256_mono(a: nat, b: nat)
    requires
        a <= b,
    ensures
        pow256(a) <= pow256(b),
    decreases b,
{
    if a < b {
        lemma_pow256_mono(a, (b - 1) as nat);
    }
}

/// Reads a byte slice as a big-endian unsigned integer.
pub fn be_bytes_value(bytes: &[u8]) -> (r: u64)
    requires
        bytes@.len() <= 8,
    ensures
        r as nat == be_value(bytes@),
{
    let mut acc: u64 = 0;
    let mut i: usize = 0;
    while i < bytes.len()
        invariant
            0 <= i <= bytes@.len() <= 8,
            acc as nat == be_value(bytes@.take(i as int)),
            (acc as nat) < pow256(i as nat),
        decreases bytes@.len() - i,
    {
        proof {
            assert(bytes@.take(i + 1).drop_last() =~= bytes@.take(i as int));
            lemma_pow256_mono(i as nat, 7);
            lemma_pow256_7();
            assert(acc * 256 + bytes@[i as int] < pow256((i + 1) as nat)) by (nonlinear_arith)
                requires
                    (acc as nat) < pow256(i as nat),
                    bytes@[i as int] < 256,
                    pow256((i + 1) as nat) == 256 * pow256(i as nat),
            ;
        }
        acc = acc * 256 + (bytes[i] as u64);
        i = i + 1;
    }
    proof {
        assert(bytes@.take(bytes@.len() as int) =~= bytes@);
    }
    acc
}

/// Reads a byte slice as a little-endian unsigned integer.
pub fn le_bytes_value(bytes: &[u8]) -> (r: u64)
    requires
        bytes@.len() <= 8,
    ensures
        r as nat == le_value(bytes@),
{
    let mut acc: u64 = 0;
    let mut i: usize = bytes.len();
    while i > 0
        invariant
            0 <= i <= bytes@.len() <= 8,
            acc as nat == le_value(bytes@.skip(i as int)),
            (acc as nat) < pow256((bytes@.len() - i) as nat),
        decreases i,
    {
        proof {
            assert(bytes@.skip(i - 1).drop_first() =~= bytes@.skip(i as int));
            lemma_pow256_mono((bytes@.len() - i) as nat, 7);
            lemma_pow256_7();
            assert(bytes@[i - 1] + 256 * acc < pow256((bytes@.len() - i + 1) as nat))
                by (nonlinear_arith)
                requires
                    (acc as nat) < pow256((bytes@.len() - i) as nat),
                    bytes@[i - 1] < 256,
                    pow256((bytes@.len() - i + 1) as nat) == 256 * pow256(
                        (bytes@.len() - i) as nat,
                    ),
            ;
        }
        acc = acc * 256 + (bytes[i - 1] as u64);
        i = i - 1;
    }
    proof {
        assert(bytes@.skip(0) =~= bytes@);
    }
    acc
}

} // verus!
