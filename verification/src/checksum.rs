//! 8-bit wrapping additive checksum over a byte sequence.
//!
//! Used both by the frame codec (trailer of every outbound frame) and by
//! the identity decoder (validation of the inbound payload). The device's
//! own accumulator is an unsigned 8-bit adder with no carry propagation,
//! so every addition wraps.

use vstd::prelude::*;

verus! {

/// Mathematical model of the device's accumulator: fold the bytes of `s`
/// onto `acc` with wrap-around 8-bit addition.
pub open spec fn checksum_fold(acc: u8, s: Seq<u8>) -> u8
    decreases s.len(),
{
    if s.len() == 0 {
        acc
    } else {
        checksum_fold(acc, s.drop_last()).wrapping_add(s.last())
    }
}

/// The checksum of a byte sequence: the fold started from zero.
pub open spec fn spec_checksum(s: Seq<u8>) -> u8 {
    checksum_fold(0, s)
}

/// 8-bit truncated sum (wrapping addition) of all input bytes.
pub fn checksum(bytes: &[u8]) -> (r: u8)
    ensures
        r == spec_checksum(bytes@),
{
    let mut acc: u8 = 0;
    let mut i: usize = 0;
    while i < bytes.len()
        invariant
            i <= bytes@.len(),
            acc == checksum_fold(0, bytes@.subrange(0, i as int)),
        decreases bytes@.len() - i,
    {
        proof {
            assert(bytes@.subrange(0, i + 1).drop_last() =~= bytes@.subrange(0, i as int));
        }
        acc = acc.wrapping_add(bytes[i]);
        i = i + 1;
    }
    proof {
        assert(bytes@.subrange(0, bytes@.len() as int) =~= bytes@);
    }
    acc
}

/// Accumulating a concatenation is the same as accumulating the two parts
/// in order: the checksum state after `a ++ b` equals the state reached by
/// folding `b` onto the state reached by folding `a`.
pub proof fn lemma_checksum_fold_append(acc: u8, a: Seq<u8>, b: Seq<u8>)
    ensures
        checksum_fold(acc, a + b) == checksum_fold(checksum_fold(acc, a), b),
    decreases b.len(),
{
    if b.len() == 0 {
        assert(a + b =~= a);
    } else {
        lemma_checksum_fold_append(acc, a, b.drop_last());
        assert((a + b).drop_last() =~= a + b.drop_last());
        assert((a + b).last() == b.last());
    }
}

/// The checksum of a concatenation can be computed from partial sums:
/// `checksum(a ++ b)` equals folding `b` onto the checksum of `a`.
pub proof fn lemma_checksum_append(a: Seq<u8>, b: Seq<u8>)
    ensures
        spec_checksum(a + b) == checksum_fold(spec_checksum(a), b),
{
    lemma_checksum_fold_append(0, a, b);
}

/// The unwrapped sum of a byte sequence.
pub open spec fn byte_sum(s: Seq<u8>) -> int
    decreases s.len(),
{
    if s.len() == 0 {
        0
    } else {
        byte_sum(s.drop_last()) + s.last()
    }
}

/// The checksum fold is the unwrapped sum reduced modulo 256.
proof fn lemma_fold_is_sum_mod(acc: u8, s: Seq<u8>)
    ensures
        checksum_fold(acc, s) == ((acc + byte_sum(s)) % 256) as u8,
    decreases s.len(),
{
    if s.len() == 0 {
        vstd::arithmetic::div_mod::lemma_small_mod(acc as nat, 256);
    } else {
        lemma_fold_is_sum_mod(acc, s.drop_last());
        let a = acc + byte_sum(s.drop_last());
        let prev = checksum_fold(acc, s.drop_last());
        vstd::arithmetic::div_mod::lemma_mod_bound(a, 256);
        vstd::arithmetic::div_mod::lemma_add_mod_noop(a, s.last() as int, 256);
        vstd::arithmetic::div_mod::lemma_small_mod(s.last() as nat, 256);
        assert(prev.wrapping_add(s.last()) == ((prev + s.last()) % 256) as u8) by {
            vstd::arithmetic::div_mod::lemma_mod_bound(prev + s.last(), 256);
            if prev + s.last() > u8::MAX {
                vstd::arithmetic::div_mod::lemma_mod_sub_multiples_vanish(
                    prev + s.last(),
                    256,
                );
                vstd::arithmetic::div_mod::lemma_small_mod(
                    (prev + s.last() - 256) as nat,
                    256,
                );
            } else {
                vstd::arithmetic::div_mod::lemma_small_mod((prev + s.last()) as nat, 256);
            }
        }
    }
}

/// Changing one element changes the unwrapped sum by the difference.
proof fn lemma_byte_sum_update(s: Seq<u8>, i: int, v: u8)
    requires
        0 <= i < s.len(),
    ensures
        byte_sum(s.update(i, v)) == byte_sum(s) - s[i] + v,
    decreases s.len(),
{
    if i == s.len() - 1 {
        assert(s.update(i, v).drop_last() =~= s.drop_last());
        assert(s.update(i, v).last() == v);
    } else {
        lemma_byte_sum_update(s.drop_last(), i, v);
        assert(s.update(i, v).drop_last() =~= s.drop_last().update(i, v));
        assert(s.update(i, v).last() == s.last());
    }
}

/// Changing a single byte of a sequence, without anything else, always
/// changes its checksum: an 8-bit additive checksum detects every
/// single-byte corruption.
pub proof fn lemma_checksum_detects_single_change(s: Seq<u8>, i: int, v: u8)
    requires
        0 <= i < s.len(),
        v != s[i],
    ensures
        spec_checksum(s.update(i, v)) != spec_checksum(s),
{
    lemma_fold_is_sum_mod(0, s);
    lemma_fold_is_sum_mod(0, s.update(i, v));
    lemma_byte_sum_update(s, i, v);
    let a = byte_sum(s);
    let d = v - s[i];
    vstd::arithmetic::div_mod::lemma_mod_bound(a, 256);
    vstd::arithmetic::div_mod::lemma_mod_bound(a + d, 256);
    vstd::arithmetic::div_mod::lemma_add_mod_noop(a, d, 256);
    assert(d % 256 != 0) by {
        if d > 0 {
            vstd::arithmetic::div_mod::lemma_small_mod(d as nat, 256);
        } else {
            vstd::arithmetic::div_mod::lemma_mod_add_multiples_vanish(d, 256);
            vstd::arithmetic::div_mod::lemma_small_mod((d + 256) as nat, 256);
        }
    }
    vstd::arithmetic::div_mod::lemma_mod_bound(d, 256);
    assert((a % 256 + d % 256) % 256 != a % 256) by {
        let am = a % 256;
        let dm = d % 256;
        if am + dm < 256 {
            vstd::arithmetic::div_mod::lemma_small_mod((am + dm) as nat, 256);
        } else {
            vstd::arithmetic::div_mod::lemma_mod_sub_multiples_vanish(am + dm, 256);
            vstd::arithmetic::div_mod::lemma_small_mod((am + dm - 256) as nat, 256);
        }
    }
}

} // verus!
