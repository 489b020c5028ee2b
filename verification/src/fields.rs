//! Base-field, scalar-field and generic big-integer views of the limbs.
//!
//! Converting hands the 8 limb wires to the sibling gadget unchanged. The
//! base- and scalar-field gadgets reduce the limbs' positional sum modulo
//! their modulus, so the element denoted under any assignment is the
//! reduction of the 256-bit value; the generic big-integer array is a pure
//! relabeling of the limbs as 32-bit digit wires.

use vstd::arithmetic::div_mod::lemma_mod_add_multiples_vanish;
use vstd::arithmetic::div_mod::lemma_mod_self_0;
use vstd::arithmetic::div_mod::lemma_small_mod;
use vstd::prelude::*;

use crate::digits::digits_value;
use crate::digits::limb_weight;
use crate::reduction::lemma_take_step;
use crate::reduction::reduce_digits;
use crate::u256::U256Target;

verus! {

/// The modulus of the curve's base field.
pub open spec fn fq_modulus() -> nat {
    0x30644e72e131a029b85045b68181585d97816a916871ca8d3c208c16d87cfd47nat
}

/// The modulus of the curve's scalar field.
pub open spec fn fr_modulus() -> nat {
    0x30644e72e131a029b85045b68181585d2833e84879b9709143e1f593f0000001nat
}

/// The base-field element a 256-bit value denotes: its reduction modulo
/// the base-field modulus. Values at or above the modulus wrap around;
/// the conversion is not injective.
pub open spec fn fq_reduce(v: nat) -> nat {
    v % fq_modulus()
}

/// The scalar-field element a 256-bit value denotes: its reduction modulo
/// the scalar-field modulus.
pub open spec fn fr_reduce(v: nat) -> nat {
    v % fr_modulus()
}

/// A base-field element in the circuit: 8 limb wires whose positional sum
/// the base-field gadget reduces modulo `fq_modulus`.
pub struct FqTarget {
    pub limbs: Vec<usize>,
}

/// A scalar-field element in the circuit: 8 limb wires whose positional
/// sum the scalar-field gadget reduces modulo `fr_modulus`.
pub struct FrTarget {
    pub limbs: Vec<usize>,
}

/// A generic big-integer wire array: each entry one wire carrying a
/// 32-bit digit.
pub struct BigUintTarget {
    pub limbs: Vec<usize>,
}

impl FqTarget {
    /// The base-field gadget's constructor boundary: accepts the 8 limb
    /// wires as they stand.
    pub fn from_limbs(limbs: Vec<usize>) -> (r: Self)
        requires
            limbs@.len() == 8,
        ensures
            r.limbs@ == limbs@,
    {
        FqTarget { limbs }
    }
}

impl FrTarget {
    /// The scalar-field gadget's constructor boundary: accepts the 8 limb
    /// wires as they stand.
    pub fn from_limbs(limbs: Vec<usize>) -> (r: Self)
        requires
            limbs@.len() == 8,
        ensures
            r.limbs@ == limbs@,
    {
        FrTarget { limbs }
    }
}

impl U256Target {
    /// Hands the limbs to the base-field gadget; the denoted element is
    /// the 256-bit value reduced modulo `fq_modulus`.
    pub fn to_fq(&self) -> (r: FqTarget)
        requires
            self.wf(),
        ensures
            r.limbs@ == self.limbs@,
    {
        FqTarget::from_limbs(self.to_vec())
    }

    /// Hands the limbs to the scalar-field gadget; the denoted element is
    /// the 256-bit value reduced modulo `fr_modulus`.
    pub fn to_fr(&self) -> (r: FrTarget)
        requires
            self.wf(),
        ensures
            r.limbs@ == self.limbs@,
    {
        FrTarget::from_limbs(self.to_vec())
    }

    /// Relabels each limb wire as a 32-bit digit of a generic big-integer
    /// wire array: no constraint is added, no reduction is performed.
    pub fn to_biguint_target(&self) -> (r: BigUintTarget)
        requires
            self.wf(),
        ensures
            r.limbs@ == self.limbs@,
    {
        BigUintTarget { limbs: self.to_vec() }
    }
}

/// The base-field modulus as 8 little-endian base-2^32 limbs.
pub fn fq_modulus_digits() -> (r: Vec<u32>)
    ensures
        r@.len() == 8,
        digits_value(r@) == fq_modulus(),
{
    let r: Vec<u32> = vec![
        0xd87cfd47,
        0x3c208c16,
        0x6871ca8d,
        0x97816a91,
        0x8181585d,
        0xb85045b6,
        0xe131a029,
        0x30644e72,
    ];
    proof {
        lemma_eight_limb_value(r@);
    }
    r
}

/// The scalar-field modulus as 8 little-endian base-2^32 limbs.
pub fn fr_modulus_digits() -> (r: Vec<u32>)
    ensures
        r@.len() == 8,
        digits_value(r@) == fr_modulus(),
{
    let r: Vec<u32> = vec![
        0xf0000001,
        0x43e1f593,
        0x79b97091,
        0x2833e848,
        0x8181585d,
        0xb85045b6,
        0xe131a029,
        0x30644e72,
    ];
    proof {
        lemma_eight_limb_value(r@);
    }
    r
}

/// An 8-limb sequence is worth the positional sum of its limbs, written
/// out term by term.
#[verifier::rlimit(50)]
proof fn lemma_eight_limb_value(s: Seq<u32>)
    requires
        s.len() == 8,
    ensures
        digits_value(s) == s[0] + s[1] * 0x1_0000_0000nat + s[2] * 0x1_0000_0000_0000_0000nat
            + s[3] * 0x1_0000_0000_0000_0000_0000_0000nat + s[4]
            * 0x1_0000_0000_0000_0000_0000_0000_0000_0000nat + s[5]
            * 0x1_0000_0000_0000_0000_0000_0000_0000_0000_0000_0000nat + s[6]
            * 0x1_0000_0000_0000_0000_0000_0000_0000_0000_0000_0000_0000_0000nat + s[7]
            * 0x1_0000_0000_0000_0000_0000_0000_0000_0000_0000_0000_0000_0000_0000_0000nat,
{
    reveal_with_fuel(limb_weight, 9);
    assert(s.take(0) =~= Seq::<u32>::empty());
    assert(digits_value(s.take(0)) == 0);
    assert(limb_weight(0) == 1);
    assert(limb_weight(1) == 0x1_0000_0000);
    lemma_take_step(s, 0);
    assert(digits_value(s.take(0int + 1)) == digits_value(s.take(0)) + limb_weight(0 as nat)
        * s[0]);
    lemma_take_step(s, 1);
    assert(digits_value(s.take(1int + 1)) == digits_value(s.take(1)) + limb_weight(1 as nat)
        * s[1]);
    lemma_take_step(s, 2);
    assert(digits_value(s.take(2int + 1)) == digits_value(s.take(2)) + limb_weight(2 as nat)
        * s[2]);
    lemma_take_step(s, 3);
    assert(digits_value(s.take(3int + 1)) == digits_value(s.take(3)) + limb_weight(3 as nat)
        * s[3]);
    lemma_take_step(s, 4);
    assert(digits_value(s.take(4int + 1)) == digits_value(s.take(4)) + limb_weight(4 as nat)
        * s[4]);
    lemma_take_step(s, 5);
    assert(digits_value(s.take(5int + 1)) == digits_value(s.take(5)) + limb_weight(5 as nat)
        * s[5]);
    lemma_take_step(s, 6);
    assert(digits_value(s.take(6int + 1)) == digits_value(s.take(6)) + limb_weight(6 as nat)
        * s[6]);
    lemma_take_step(s, 7);
    assert(digits_value(s.take(7int + 1)) == digits_value(s.take(7)) + limb_weight(7 as nat)
        * s[7]);
    assert(s.take(8) =~= s);
    assert(limb_weight(0 as nat) * s[0] == s[0]) by (nonlinear_arith)
        requires
            limb_weight(0 as nat) == 1,
    ;
    assert(limb_weight(1 as nat) * s[1] == s[1] * 0x1_0000_0000nat) by (nonlinear_arith)
        requires
            limb_weight(1 as nat) == 0x1_0000_0000nat,
    ;
    assert(limb_weight(2 as nat) * s[2] == s[2] * 0x1_0000_0000_0000_0000nat) by (nonlinear_arith)
        requires
            limb_weight(2 as nat) == 0x1_0000_0000_0000_0000nat,
    ;
    assert(limb_weight(3 as nat) * s[3] == s[3] * 0x1_0000_0000_0000_0000_0000_0000nat) by (nonlinear_arith)
        requires
            limb_weight(3 as nat) == 0x1_0000_0000_0000_0000_0000_0000nat,
    ;
    assert(limb_weight(4 as nat) * s[4] == s[4] * 0x1_0000_0000_0000_0000_0000_0000_0000_0000nat) by (nonlinear_arith)
        requires
            limb_weight(4 as nat) == 0x1_0000_0000_0000_0000_0000_0000_0000_0000nat,
    ;
    assert(limb_weight(5 as nat) * s[5] == s[5] * 0x1_0000_0000_0000_0000_0000_0000_0000_0000_0000_0000nat) by (nonlinear_arith)
        requires
            limb_weight(5 as nat) == 0x1_0000_0000_0000_0000_0000_0000_0000_0000_0000_0000nat,
    ;
    assert(limb_weight(6 as nat) * s[6] == s[6] * 0x1_0000_0000_0000_0000_0000_0000_0000_0000_0000_0000_0000_0000nat) by (nonlinear_arith)
        requires
            limb_weight(6 as nat) == 0x1_0000_0000_0000_0000_0000_0000_0000_0000_0000_0000_0000_0000nat,
    ;
    assert(limb_weight(7 as nat) * s[7] == s[7] * 0x1_0000_0000_0000_0000_0000_0000_0000_0000_0000_0000_0000_0000_0000_0000nat) by (nonlinear_arith)
        requires
            limb_weight(7 as nat) == 0x1_0000_0000_0000_0000_0000_0000_0000_0000_0000_0000_0000_0000_0000_0000nat,
    ;
}

/// The 8-limb remainder of a 256-bit value modulo the base-field modulus:
/// the value the base-field gadget leaves on its wires.
pub fn fq_reduced_digits(digits: &Vec<u32>) -> (r: Vec<u32>)
    requires
        digits@.len() == 8,
    ensures
        r@.len() == 8,
        digits_value(r@) == fq_reduce(digits_value(digits@)),
{
    let m = fq_modulus_digits();
    reduce_digits(digits, &m)
}

/// The 8-limb remainder of a 256-bit value modulo the scalar-field
/// modulus: the value the scalar-field gadget leaves on its wires.
pub fn fr_reduced_digits(digits: &Vec<u32>) -> (r: Vec<u32>)
    requires
        digits@.len() == 8,
    ensures
        r@.len() == 8,
        digits_value(r@) == fr_reduce(digits_value(digits@)),
{
    let m = fr_modulus_digits();
    reduce_digits(digits, &m)
}

/// Reduction reproduces every value strictly below the base-field modulus
/// exactly.
pub proof fn lemma_fq_reduce_identity(v: nat)
    requires
        v < fq_modulus(),
    ensures
        fq_reduce(v) == v,
{
    lemma_small_mod(v, fq_modulus());
}

/// Reduction reproduces every value strictly below the scalar-field
/// modulus exactly.
pub proof fn lemma_fr_reduce_identity(v: nat)
    requires
        v < fr_modulus(),
    ensures
        fr_reduce(v) == v,
{
    lemma_small_mod(v, fr_modulus());
}

/// Wrap-around at the base-field modulus: one below it is kept, the
/// modulus itself wraps to zero, one above it to one.
pub proof fn lemma_fq_reduce_wraparound()
    ensures
        fq_reduce((fq_modulus() - 1) as nat) == fq_modulus() - 1,
        fq_reduce(fq_modulus()) == 0,
        fq_reduce(fq_modulus() + 1) == 1,
{
    lemma_small_mod((fq_modulus() - 1) as nat, fq_modulus());
    lemma_mod_self_0(fq_modulus() as int);
    lemma_mod_add_multiples_vanish(1, fq_modulus() as int);
    lemma_small_mod(1, fq_modulus());
}

/// Wrap-around at the scalar-field modulus: one below it is kept, the
/// modulus itself wraps to zero, one above it to one.
pub proof fn lemma_fr_reduce_wraparound()
    ensures
        fr_reduce((fr_modulus() - 1) as nat) == fr_modulus() - 1,
        fr_reduce(fr_modulus()) == 0,
        fr_reduce(fr_modulus() + 1) == 1,
{
    lemma_small_mod((fr_modulus() - 1) as nat, fr_modulus());
    lemma_mod_self_0(fr_modulus() as int);
    lemma_mod_add_multiples_vanish(1, fr_modulus() as int);
    lemma_small_mod(1, fr_modulus());
}

} // verus!
