//! Little-endian base-2^32 digit sequences and their values.
//!
//! A 256-bit circuit value is carried as exactly 8 such digits. This module
//! defines what a digit sequence is worth, when a sequence fits in 256 bits,
//! and the zero-extension to exactly 8 digits that every construction path
//! of the representation uses.

use vstd::prelude::*;

verus! {

/// The base of one limb: each limb is a digit in `[0, 2^32)`.
pub open spec fn limb_base() -> nat {
    0x1_0000_0000
}

/// `2^(32*k)`: the positional weight of the `k`-th limb.
pub open spec fn limb_weight(k: nat) -> nat
    decreases k,
{
    if k == 0 {
        1
    } else {
        limb_base() * limb_weight((k - 1) as nat)
    }
}

/// One more than the largest value 8 limbs can carry: `2^256`.
pub open spec fn u256_bound() -> nat {
    limb_weight(8)
}

/// The value denoted by a little-endian base-2^32 digit sequence:
/// the sum of `s[i] * 2^(32*i)`.
pub open spec fn digits_value(s: Seq<u32>) -> nat
    decreases s.len(),
{
    if s.len() == 0 {
        0
    } else {
        (s[0] + limb_base() * digits_value(s.skip(1))) as nat
    }
}

/// A digit sequence fits the representation when its value needs at most
/// 8 base-2^32 digits.
pub open spec fn fits_u256(s: Seq<u32>) -> bool {
    digits_value(s) < u256_bound()
}

/// The input zero-extended (or stripped of digits that must be zero)
/// to exactly 8 digits.
pub open spec fn padded8(s: Seq<u32>) -> Seq<u32> {
    Seq::new(8, |i: int| if i < s.len() { s[i] } else { 0 })
}

/// The value denoted by limb contents read back as 64-bit field values:
/// the same positional sum as `digits_value`.
pub open spec fn limbs_value_u64(s: Seq<u64>) -> nat
    decreases s.len(),
{
    if s.len() == 0 {
        0
    } else {
        (s[0] + limb_base() * limbs_value_u64(s.skip(1))) as nat
    }
}

/// Digits carried through 64-bit field values keep their worth.
pub proof fn lemma_limbs_value_u64_matches(s64: Seq<u64>, s32: Seq<u32>)
    requires
        s64.len() == s32.len(),
        forall|i: int| 0 <= i < s64.len() ==> s64[i] == s32[i] as u64,
    ensures
        limbs_value_u64(s64) == digits_value(s32),
    decreases s64.len(),
{
    if s64.len() > 0 {
        assert(forall|j: int| 0 <= j < s64.skip(1).len() ==> s64.skip(1)[j] == s64[j + 1]);
        assert(forall|j: int| 0 <= j < s32.skip(1).len() ==> s32.skip(1)[j] == s32[j + 1]);
        lemma_limbs_value_u64_matches(s64.skip(1), s32.skip(1));
    }
}

/// Every sequence of `k` digits is worth less than `2^(32*k)`.
pub proof fn lemma_digits_value_bound(s: Seq<u32>)
    ensures
        digits_value(s) < limb_weight(s.len()),
    decreases s.len(),
{
    if s.len() > 0 {
        lemma_digits_value_bound(s.skip(1));
    }
}

/// Splitting a sequence after its first `k` digits splits its value at
/// the weight `2^(32*k)`.
pub proof fn lemma_digits_value_split(s: Seq<u32>, k: nat)
    requires
        k <= s.len(),
    ensures
        digits_value(s) == digits_value(s.take(k as int)) + limb_weight(k) * digits_value(
            s.skip(k as int),
        ),
    decreases k,
{
    if k == 0 {
        assert(s.take(0) =~= Seq::<u32>::empty());
        assert(s.skip(0) =~= s);
        assert(digits_value(s.take(0)) == 0);
        assert(limb_weight(0) == 1);
        assert(digits_value(s.skip(0)) == digits_value(s));
    } else {
        lemma_digits_value_split(s.skip(1), (k - 1) as nat);
        assert(s.skip(1).take(k - 1) =~= s.take(k as int).skip(1));
        assert(s.skip(1).skip(k - 1) =~= s.skip(k as int));
        let mid = digits_value(s.take(k as int).skip(1));
        let rest = digits_value(s.skip(k as int));
        let w1 = limb_weight((k - 1) as nat);
        assert(digits_value(s.skip(1)) == mid + w1 * rest);
        assert(s.take(k as int).len() == k && s.take(k as int)[0] == s[0]);
        assert(digits_value(s.take(k as int)) == s[0] + limb_base() * mid);
        assert(limb_base() * (w1 * rest) == (limb_base() * w1) * rest) by (nonlinear_arith);
        assert(limb_weight(k) == limb_base() * w1);
        assert(digits_value(s) == s[0] + limb_base() * (mid + w1 * rest));
        assert(limb_base() * (mid + w1 * rest) == limb_base() * mid + limb_base() * (w1 * rest))
            by (nonlinear_arith);
        assert(digits_value(s) == digits_value(s.take(k as int)) + (limb_base() * w1) * rest);
        assert(digits_value(s) == digits_value(s.take(k as int)) + limb_weight(k) * digits_value(
            s.skip(k as int),
        ));
    }
}

/// A digit sequence is worth zero exactly when every digit is zero.
pub proof fn lemma_digits_value_zero(s: Seq<u32>)
    ensures
        digits_value(s) == 0 <==> (forall|i: int| 0 <= i < s.len() ==> s[i] == 0),
    decreases s.len(),
{
    if s.len() > 0 {
        lemma_digits_value_zero(s.skip(1));
        assert(forall|j: int| 0 <= j < s.skip(1).len() ==> s.skip(1)[j] == s[j + 1]);
        if digits_value(s) == 0 {
            assert(digits_value(s.skip(1)) == 0);
            assert forall|i: int| 0 <= i < s.len() implies s[i] == 0 by {
                if i >= 1 {
                    assert(s.skip(1)[i - 1] == s[i]);
                }
            }
        }
        if forall|i: int| 0 <= i < s.len() ==> s[i] == 0 {
            assert forall|j: int| 0 <= j < s.skip(1).len() implies s.skip(1)[j] == 0 by {
                assert(s[j + 1] == 0);
            }
            assert(digits_value(s.skip(1)) == 0);
            assert(s[0] == 0);
            assert(digits_value(s) == (s[0] + limb_base() * digits_value(s.skip(1))) as nat);
            assert(limb_base() * digits_value(s.skip(1)) == 0);
            assert(digits_value(s) == 0);
        }
    }
}

/// Positional weights never shrink as the position grows.
pub proof fn lemma_limb_weight_mono(a: nat, b: nat)
    requires
        a <= b,
    ensures
        limb_weight(a) <= limb_weight(b),
    decreases b,
{
    if a < b {
        lemma_limb_weight_mono(a, (b - 1) as nat);
    }
}

/// A sequence fits in 256 bits exactly when every digit past the first 8
/// is zero.
pub proof fn lemma_fits_iff_high_digits_zero(s: Seq<u32>)
    ensures
        fits_u256(s) <==> (forall|i: int| 8 <= i < s.len() ==> s[i] == 0),
{
    if s.len() <= 8 {
        lemma_digits_value_bound(s);
        lemma_limb_weight_mono(s.len(), 8);
    } else {
        lemma_digits_value_split(s, 8);
        lemma_digits_value_bound(s.take(8));
        lemma_digits_value_zero(s.skip(8));
        if digits_value(s.skip(8)) >= 1 {
            assert(limb_weight(8) * digits_value(s.skip(8)) >= limb_weight(8) * 1)
                by (nonlinear_arith)
                requires
                    digits_value(s.skip(8)) >= 1,
            ;
            assert(!fits_u256(s));
            assert(exists|i: int| 0 <= i < s.skip(8).len() && s.skip(8)[i] != 0);
            let j = choose|i: int| 0 <= i < s.skip(8).len() && s.skip(8)[i] != 0;
            assert(s[j + 8] != 0);
        } else {
            assert(forall|i: int| 8 <= i < s.len() ==> s[i] == s.skip(8)[i - 8]);
        }
    }
}

/// Zero-extension to 8 digits keeps the value of every sequence that fits.
pub proof fn lemma_padded8_value(s: Seq<u32>)
    requires
        fits_u256(s),
    ensures
        digits_value(padded8(s)) == digits_value(s),
{
    if s.len() >= 8 {
        assert(padded8(s) =~= s.take(8));
        lemma_digits_value_split(s, 8);
        lemma_digits_value_bound(s.take(8));
        if digits_value(s.skip(8)) >= 1 {
            assert(limb_weight(8) * digits_value(s.skip(8)) >= limb_weight(8) * 1)
                by (nonlinear_arith)
                requires
                    digits_value(s.skip(8)) >= 1,
            ;
        }
    } else {
        lemma_digits_value_split(padded8(s), s.len());
        assert(padded8(s).take(s.len() as int) =~= s);
        lemma_digits_value_zero(padded8(s).skip(s.len() as int));
    }
}

/// Whether a digit sequence fits in 256 bits: only the first 8 digits may
/// be non-zero.
pub fn digits_fit_u256(digits: &Vec<u32>) -> (b: bool)
    ensures
        b == fits_u256(digits@),
{
    let mut i: usize = 8;
    while i < digits.len()
        invariant
            8 <= i,
            i <= digits@.len() || i == 8,
            forall|j: int| 8 <= j < i && j < digits@.len() ==> digits@[j] == 0,
        decreases digits@.len() - i,
    {
        if digits[i] != 0 {
            proof {
                lemma_fits_iff_high_digits_zero(digits@);
            }
            return false;
        }
        i = i + 1;
    }
    proof {
        lemma_fits_iff_high_digits_zero(digits@);
    }
    true
}

/// The input zero-extended to exactly 8 digits; the value is unchanged.
pub fn pad_digits(digits: &Vec<u32>) -> (r: Vec<u32>)
    requires
        fits_u256(digits@),
    ensures
        r@ == padded8(digits@),
        r@.len() == 8,
        digits_value(r@) == digits_value(digits@),
{
    let mut r: Vec<u32> = Vec::new();
    let mut i: usize = 0;
    while i < 8
        invariant
            i <= 8,
            r@.len() == i,
            forall|j: int| 0 <= j < i ==> r@[j] == padded8(digits@)[j],
        decreases 8 - i,
    {
        if i < digits.len() {
            let d = digits[i];
            r.push(d);
        } else {
            r.push(0);
        }
        i = i + 1;
    }
    proof {
        assert(r@ =~= padded8(digits@));
        lemma_padded8_value(digits@);
    }
    r
}

} // verus!
