//! Comparison, subtraction and modular reduction of 8-limb values.
//!
//! This is the value-level arithmetic behind the field conversions: what
//! a limb sequence is worth once reduced modulo a field modulus. The
//! reduction subtracts the modulus until the value falls below it, which
//! for a 256-bit value and a 254-bit modulus takes a handful of rounds.

use vstd::arithmetic::div_mod::lemma_mod_sub_multiples_vanish;
use vstd::arithmetic::div_mod::lemma_small_mod;
use vstd::prelude::*;

use crate::digits::digits_value;
use crate::digits::lemma_digits_value_bound;
use crate::digits::lemma_digits_value_split;
use crate::digits::limb_base;
use crate::digits::limb_weight;

verus! {

/// Taking one more limb adds that limb at its positional weight.
pub proof fn lemma_take_step(s: Seq<u32>, i: int)
    requires
        0 <= i < s.len(),
    ensures
        digits_value(s.take(i + 1)) == digits_value(s.take(i)) + limb_weight(i as nat) * s[i],
{
    reveal_with_fuel(digits_value, 3);
    lemma_digits_value_split(s.take(i + 1), i as nat);
    assert(s.take(i + 1).take(i) =~= s.take(i));
    assert(s.take(i + 1).skip(i) =~= seq![s[i]]);
    assert(seq![s[i]].skip(1) =~= Seq::<u32>::empty());
    assert(digits_value(seq![s[i]]) == s[i]);
}

/// Two equally long limb sequences that agree above position `k` and
/// differ at `k` are ordered by their digits at `k`.
proof fn lemma_digits_compare(a: Seq<u32>, b: Seq<u32>, k: int)
    requires
        a.len() == b.len(),
        0 <= k < a.len(),
        a[k] > b[k],
        forall|j: int| k < j < a.len() ==> a[j] == b[j],
    ensures
        digits_value(a) > digits_value(b),
{
    lemma_digits_value_split(a, (k + 1) as nat);
    lemma_digits_value_split(b, (k + 1) as nat);
    assert(a.skip(k + 1) =~= b.skip(k + 1));
    lemma_take_step(a, k);
    lemma_take_step(b, k);
    lemma_digits_value_bound(a.take(k));
    lemma_digits_value_bound(b.take(k));
    let w = limb_weight(k as nat);
    assert(w * a[k] >= w * b[k] + w) by (nonlinear_arith)
        requires
            a[k] >= b[k] + 1,
            w >= 0,
    ;
    assert(digits_value(a.take(k + 1)) > digits_value(b.take(k + 1)));
}

/// Whether one limb value is at least another, comparing most-significant
/// limbs first.
pub fn ge_digits(a: &Vec<u32>, b: &Vec<u32>) -> (r: bool)
    requires
        a@.len() == b@.len(),
    ensures
        r == (digits_value(a@) >= digits_value(b@)),
{
    let mut i: usize = a.len();
    while i > 0
        invariant
            i <= a@.len(),
            a@.len() == b@.len(),
            forall|j: int| i <= j < a@.len() ==> a@[j] == b@[j],
        decreases i,
    {
        i = i - 1;
        if a[i] > b[i] {
            proof {
                lemma_digits_compare(a@, b@, i as int);
            }
            return true;
        }
        if a[i] < b[i] {
            proof {
                lemma_digits_compare(b@, a@, i as int);
            }
            return false;
        }
    }
    proof {
        assert(a@ =~= b@);
    }
    true
}

/// Limbwise subtraction with borrow of one limb value from another, never
/// called on a smaller minuend.
pub fn sub_digits(a: &Vec<u32>, b: &Vec<u32>) -> (r: Vec<u32>)
    requires
        a@.len() == b@.len(),
        digits_value(a@) >= digits_value(b@),
    ensures
        r@.len() == a@.len(),
        digits_value(r@) == digits_value(a@) - digits_value(b@),
{
    let n = a.len();
    let mut r: Vec<u32> = Vec::new();
    let mut borrow: u64 = 0;
    let mut i: usize = 0;
    while i < n
        invariant
            i <= n,
            n == a@.len(),
            a@.len() == b@.len(),
            r@.len() == i,
            borrow <= 1,
            digits_value(r@) - borrow * limb_weight(i as nat) == digits_value(a@.take(i as int))
                - digits_value(b@.take(i as int)),
            digits_value(r@) < limb_weight(i as nat),
        decreases n - i,
    {
        let ghost pre_r = r@;
        let ghost pre_borrow = borrow;
        let d: u64 = a[i] as u64 + 0x1_0000_0000u64 - b[i] as u64 - borrow;
        let limb: u32;
        if d >= 0x1_0000_0000u64 {
            limb = (d - 0x1_0000_0000u64) as u32;
            borrow = 0;
        } else {
            limb = d as u32;
            borrow = 1;
        }
        r.push(limb);
        proof {
            let w = limb_weight(i as nat);
            let wn = limb_weight((i + 1) as nat);
            let la = a@[i as int] as int;
            let lb = b@[i as int] as int;
            let lr = limb as int;
            let pb = pre_borrow as int;
            let nb = borrow as int;
            assert(wn == limb_base() * w);
            assert(lr == la - lb - pb + limb_base() * nb);
            assert(r@.take(i as int) =~= pre_r);
            assert(r@.take(i + 1) =~= r@);
            lemma_take_step(r@, i as int);
            lemma_take_step(a@, i as int);
            lemma_take_step(b@, i as int);
            assert(w * lr == w * la - w * lb - w * pb + (limb_base() * w) * nb)
                by (nonlinear_arith)
                requires
                    lr == la - lb - pb + limb_base() * nb,
            ;
            assert(digits_value(r@) == digits_value(pre_r) + w * lr);
            assert(digits_value(r@) - nb * wn == digits_value(a@.take(i + 1)) - digits_value(
                b@.take(i + 1),
            ));
            assert(w * lr <= w * (limb_base() - 1)) by (nonlinear_arith)
                requires
                    lr <= limb_base() - 1,
                    w >= 0,
            ;
            assert(digits_value(r@) < wn);
        }
        i = i + 1;
    }
    proof {
        assert(a@.take(n as int) =~= a@);
        assert(b@.take(n as int) =~= b@);
        if borrow == 1 {
            assert(digits_value(r@) - limb_weight(n as nat) < 0);
        }
    }
    r
}

/// The remainder of an 8-limb value modulo a non-zero 8-limb modulus,
/// again as 8 limbs: the modulus is subtracted until the value falls
/// below it.
pub fn reduce_digits(v: &Vec<u32>, m: &Vec<u32>) -> (r: Vec<u32>)
    requires
        v@.len() == 8,
        m@.len() == 8,
        digits_value(m@) > 0,
    ensures
        r@.len() == 8,
        digits_value(r@) == digits_value(v@) % digits_value(m@),
{
    let mut cur: Vec<u32> = Vec::new();
    let mut i: usize = 0;
    while i < 8
        invariant
            i <= 8,
            v@.len() == 8,
            cur@ == v@.take(i as int),
        decreases 8 - i,
    {
        cur.push(v[i]);
        proof {
            assert(v@.take(i + 1) =~= v@.take(i as int).push(v@[i as int]));
        }
        i = i + 1;
    }
    proof {
        assert(v@.take(8) =~= v@);
    }
    while ge_digits(&cur, m)
        invariant
            cur@.len() == 8,
            m@.len() == 8,
            digits_value(m@) > 0,
            digits_value(cur@) % digits_value(m@) == digits_value(v@) % digits_value(m@),
        decreases digits_value(cur@),
    {
        let ghost pre = digits_value(cur@);
        cur = sub_digits(&cur, m);
        proof {
            lemma_mod_sub_multiples_vanish(pre as int, digits_value(m@) as int);
        }
    }
    proof {
        lemma_small_mod(digits_value(cur@), digits_value(m@));
    }
    cur
}

} // verus!
