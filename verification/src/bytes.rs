//! Stateless conversions from raw byte sequences to fixed-width integers.
//!
//! The tracer serializes every numeric payload big-endian; these functions
//! reassemble the integer a byte run denotes and are proved exact against
//! [`be_nat`], the mathematical value of a big-endian digit string.

use vstd::prelude::*;

verus! {

/// The value of `s` read as a big-endian base-256 numeral.
pub open spec fn be_nat(s: Seq<u8>) -> nat
    decreases s.len(),
{
    if s.len() == 0 {
        0
    } else {
        be_nat(s.drop_last()) * 256 + (s.last() as nat)
    }
}

/// 256 raised to `n`, the exclusive upper bound of an `n`-byte numeral.
pub open spec fn pow256(n: nat) -> nat
    decreases n,
{
    if n == 0 {
        1
    } else {
        256 * pow256((n - 1) as nat)
    }
}

/// A big-endian numeral of `n` bytes is below `256^n`.
pub proof fn lemma_be_nat_bound(s: Seq<u8>)
    ensures
        be_nat(s) < pow256(s.len()),
    decreases s.len(),
{
    if s.len() > 0 {
        lemma_be_nat_bound(s.drop_last());
    }
}

/// Big-endian value of `v[from..to]`, accumulated left to right.
///
/// Runs of up to eight bytes fit in a `u64`.
pub fn be_u64(v: &Vec<u8>, from: usize, to: usize) -> (r: u64)
    requires
        from <= to <= v@.len(),
        to - from <= 8,
    ensures
        r as nat == be_nat(v@.subrange(from as int, to as int)),
{
    let mut acc: u64 = 0;
    let mut i: usize = from;
    proof {
        assert(v@.subrange(from as int, from as int) =~= Seq::<u8>::empty());
    }
    while i < to
        invariant
            from <= i <= to <= v@.len(),
            to - from <= 8,
            acc as nat == be_nat(v@.subrange(from as int, i as int)),
        decreases to - i,
    {
        proof {
            lemma_be_nat_bound(v@.subrange(from as int, i as int));
            lemma_pow256_mono((i - from) as nat, 7);
            reveal_with_fuel(pow256, 9);
            assert(pow256(7) == 0x100000000000000);
            assert(v@.subrange(from as int, i as int + 1).drop_last() =~= v@.subrange(
                from as int,
                i as int,
            ));
            assert(v@.subrange(from as int, i as int + 1).last() == v@[i as int]);
        }
        acc = acc * 256 + (v[i] as u64);
        i = i + 1;
    }
    acc
}

/// `pow256` is monotone in its exponent.
proof fn lemma_pow256_mono(a: nat, b: nat)
    requires
        a <= b,
    ensures
        pow256(a) <= pow256(b),
    decreases b,
{
    if a < b {
        lemma_pow256_mono(a, (b - 1) as nat);
    }
}

/// Big-endian value of `v[from..to]` as a `u32`; the run must be four bytes.
pub fn be_u32(v: &Vec<u8>, from: usize, to: usize) -> (r: u32)
    requires
        from <= to <= v@.len(),
        to - from == 4,
    ensures
        r as nat == be_nat(v@.subrange(from as int, to as int)),
{
    let wide = be_u64(v, from, to);
    proof {
        lemma_be_nat_bound(v@.subrange(from as int, to as int));
        reveal_with_fuel(pow256, 5);
        assert(pow256(4) == 0x100000000);
    }
    wide as u32
}

/// Big-endian value of `v[from..to]` as a `u16`; the run must be two bytes.
pub fn be_u16(v: &Vec<u8>, from: usize, to: usize) -> (r: u16)
    requires
        from <= to <= v@.len(),
        to - from == 2,
    ensures
        r as nat == be_nat(v@.subrange(from as int, to as int)),
{
    let wide = be_u64(v, from, to);
    proof {
        lemma_be_nat_bound(v@.subrange(from as int, to as int));
        reveal_with_fuel(pow256, 3);
        assert(pow256(2) == 0x10000);
    }
    wide as u16
}

} // verus!
