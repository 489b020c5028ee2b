//! The 256-bit circuit representation.
//!
//! A value is carried as exactly 8 wire handles, the `i`-th meant to hold
//! the `i`-th little-endian base-2^32 limb, so that the represented value
//! is the sum of `limb[i] * 2^(32*i)`. Construction paths either decompose
//! an arbitrary-precision constant into constant wires, allocate 8 free
//! wires for later witness assignment, or relabel an existing 8-wire
//! sequence. A value needing more than 8 digits does not fit and is
//! rejected by every decomposing path.

use num_bigint::BigUint;
use vstd::prelude::*;

use crate::bignum::biguint_digits;
use crate::bignum::biguint_to_digits;
use crate::builder::assignment_satisfies;
use crate::builder::lemma_agreeing_equalities_satisfiable;
use crate::builder::lemma_conflicting_equality_unsatisfiable;
use crate::builder::CircuitBuilder;
use crate::builder::WireDef;
use crate::builder::WitnessStore;
use crate::digits::digits_fit_u256;
use crate::digits::digits_value;
use crate::digits::fits_u256;
use crate::digits::lemma_limbs_value_u64_matches;
use crate::digits::lemma_padded8_value;
use crate::digits::limbs_value_u64;
use crate::digits::pad_digits;
use crate::digits::padded8;

verus! {

/// A 256-bit value in the circuit: exactly 8 limb wires, little-endian
/// base-2^32. The type adds no range constraint of its own; that each limb
/// wire really carries a value below 2^32 is owed by whoever allocates it.
pub struct U256Target {
    pub limbs: Vec<usize>,
}

/// The wire definitions that materializing a digit sequence appends to the
/// builder: one constant wire per digit.
pub open spec fn constant_defs(d: Seq<u32>) -> Seq<WireDef> {
    Seq::new(d.len(), |i: int| WireDef::Constant(d[i] as u64))
}

/// `n` fresh free-wire definitions.
pub open spec fn free_defs(n: nat) -> Seq<WireDef> {
    Seq::new(n, |i: int| WireDef::Free)
}

/// The limb-by-limb equality constraints that connecting two
/// representations appends to the builder.
pub open spec fn limb_pairs(a: Seq<usize>, b: Seq<usize>) -> Seq<(usize, usize)>
    recommends
        a.len() == b.len(),
{
    Seq::new(a.len(), |i: int| (a[i], b[i]))
}

/// What materializing the digits `d` as a constant does: the builder gains
/// exactly 8 constant-wire definitions holding the zero-extended digits,
/// no constraint is added, and the fresh handles are consecutive.
pub open spec fn constant_built(
    pre: CircuitBuilder,
    post: CircuitBuilder,
    t: U256Target,
    d: Seq<u32>,
) -> bool {
    &&& t.wf()
    &&& post.wires@ == pre.wires@ + constant_defs(padded8(d))
    &&& post.equalities@ == pre.equalities@
    &&& forall|i: int| 0 <= i < 8 ==> t.limbs@[i] == pre.wires@.len() + i
    &&& forall|i: int|
        0 <= i < 8 ==> post.wire_constant(t.limbs@[i] as nat) == Some(padded8(d)[i] as u64)
}

/// What assigning the digits `d` as a witness does: each limb wire is
/// bound to its zero-extended digit and every other wire keeps its
/// binding.
pub open spec fn witness_assigned(
    pre: WitnessStore,
    post: WitnessStore,
    t: U256Target,
    d: Seq<u32>,
) -> bool {
    &&& forall|i: int|
        0 <= i < 8 ==> post.wire_value(t.limbs@[i] as nat) == Some(padded8(d)[i] as u64)
    &&& forall|x: nat|
        (forall|i: int| 0 <= i < 8 ==> t.limbs@[i] as nat != x) ==> post.wire_value(x)
            == pre.wire_value(x)
}

impl U256Target {
    /// Exactly 8 limb wires; every construction path establishes this.
    pub open spec fn wf(self) -> bool {
        self.limbs@.len() == 8
    }

    /// The raw constructor: accepts an 8-wire sequence as it stands.
    pub fn new(limbs: Vec<usize>) -> (r: Self)
        requires
            limbs@.len() == 8,
        ensures
            r.limbs@ == limbs@,
            r.wf(),
    {
        U256Target { limbs }
    }

    /// Materializes a compile-time constant: decomposes the value into
    /// little-endian base-2^32 digits, zero-extends them to 8, and injects
    /// each as a constant wire. Values of 2^256 or more do not fit and are
    /// excluded.
    pub fn constant(builder: &mut CircuitBuilder, value: &BigUint) -> (r: Self)
        requires
            fits_u256(biguint_digits(*value)),
        ensures
            constant_built(*old(builder), *final(builder), r, biguint_digits(*value)),
            digits_value(padded8(biguint_digits(*value))) == digits_value(biguint_digits(*value)),
    {
        let digits = biguint_to_digits(value);
        let padded = pad_digits(&digits);
        proof {
            lemma_padded8_value(digits@);
        }
        let ghost pre = *builder;
        let mut limbs: Vec<usize> = Vec::new();
        let mut i: usize = 0;
        while i < 8
            invariant
                i <= 8,
                padded@ == padded8(biguint_digits(*value)),
                padded@.len() == 8,
                limbs@.len() == i,
                builder.wires@ == pre.wires@ + constant_defs(padded@.take(i as int)),
                builder.equalities@ == pre.equalities@,
                forall|k: int| 0 <= k < i ==> limbs@[k] == pre.wires@.len() + k,
            decreases 8 - i,
        {
            let d = padded[i];
            let w = builder.inject_constant_wire(d as u64);
            limbs.push(w);
            proof {
                assert(constant_defs(padded@.take(i + 1)) =~= constant_defs(
                    padded@.take(i as int),
                ).push(WireDef::Constant(padded@[i as int] as u64)));
                assert(pre.wires@ + constant_defs(padded@.take(i + 1)) =~= (pre.wires@
                    + constant_defs(padded@.take(i as int))).push(
                    WireDef::Constant(padded@[i as int] as u64),
                ));
            }
            i = i + 1;
        }
        let r = U256Target { limbs };
        proof {
            assert(padded@.take(8) =~= padded@);
            assert forall|k: int| 0 <= k < 8 implies builder.wire_constant(r.limbs@[k] as nat)
                == Some(padded8(biguint_digits(*value))[k] as u64) by {
                assert(builder.wires@[pre.wires@.len() + k] == constant_defs(padded@)[k]);
            }
        }
        r
    }

    /// Materializes a constant when it fits, and reports a value of 2^256
    /// or more instead of failing: nothing is added to the builder then.
    pub fn try_constant(builder: &mut CircuitBuilder, value: &BigUint) -> (r: Option<Self>)
        ensures
            match r {
                Some(t) => fits_u256(biguint_digits(*value)) && constant_built(
                    *old(builder),
                    *final(builder),
                    t,
                    biguint_digits(*value),
                ),
                None => !fits_u256(biguint_digits(*value)) && *final(builder) == *old(builder),
            },
    {
        let digits = biguint_to_digits(value);
        if digits_fit_u256(&digits) {
            Some(Self::constant(builder, value))
        } else {
            None
        }
    }

    /// Allocates 8 fresh, unconstrained wires; their values must be
    /// supplied later through witness assignment. No range constraint is
    /// added.
    pub fn empty(builder: &mut CircuitBuilder) -> (r: Self)
        ensures
            r.wf(),
            final(builder).wires@ == old(builder).wires@ + free_defs(8),
            final(builder).equalities@ == old(builder).equalities@,
            forall|i: int| 0 <= i < 8 ==> r.limbs@[i] == old(builder).wires@.len() + i,
    {
        let ghost pre = *builder;
        let mut limbs: Vec<usize> = Vec::new();
        let mut i: usize = 0;
        while i < 8
            invariant
                i <= 8,
                limbs@.len() == i,
                builder.wires@ == pre.wires@ + free_defs(i as nat),
                builder.equalities@ == pre.equalities@,
                forall|k: int| 0 <= k < i ==> limbs@[k] == pre.wires@.len() + k,
            decreases 8 - i,
        {
            let w = builder.allocate_free_wire();
            limbs.push(w);
            proof {
                assert(free_defs((i + 1) as nat) =~= free_defs(i as nat).push(WireDef::Free));
                assert(pre.wires@ + free_defs((i + 1) as nat) =~= (pre.wires@ + free_defs(
                    i as nat,
                )).push(WireDef::Free));
            }
            i = i + 1;
        }
        U256Target { limbs }
    }

    /// Ties two representations together limb by limb: adds exactly 8
    /// equality constraints, one per corresponding limb pair.
    pub fn connect(builder: &mut CircuitBuilder, lhs: &Self, rhs: &Self)
        requires
            lhs.wf(),
            rhs.wf(),
        ensures
            final(builder).wires@ == old(builder).wires@,
            final(builder).equalities@ == old(builder).equalities@ + limb_pairs(
                lhs.limbs@,
                rhs.limbs@,
            ),
    {
        let ghost pre = *builder;
        let mut i: usize = 0;
        while i < 8
            invariant
                i <= 8,
                lhs.wf(),
                rhs.wf(),
                builder.wires@ == pre.wires@,
                builder.equalities@ == pre.equalities@ + limb_pairs(
                    lhs.limbs@.take(i as int),
                    rhs.limbs@.take(i as int),
                ),
            decreases 8 - i,
        {
            builder.enforce_wire_equal(lhs.limbs[i], rhs.limbs[i]);
            proof {
                assert(limb_pairs(lhs.limbs@.take(i + 1), rhs.limbs@.take(i + 1)) =~= limb_pairs(
                    lhs.limbs@.take(i as int),
                    rhs.limbs@.take(i as int),
                ).push((lhs.limbs@[i as int], rhs.limbs@[i as int])));
                assert(pre.equalities@ + limb_pairs(lhs.limbs@.take(i + 1), rhs.limbs@.take(i + 1))
                    =~= (pre.equalities@ + limb_pairs(
                    lhs.limbs@.take(i as int),
                    rhs.limbs@.take(i as int),
                )).push((lhs.limbs@[i as int], rhs.limbs@[i as int])));
            }
            i = i + 1;
        }
        proof {
            assert(lhs.limbs@.take(8) =~= lhs.limbs@);
            assert(rhs.limbs@.take(8) =~= rhs.limbs@);
        }
    }

    /// Exposes the limbs as an ordered 8-wire sequence, least significant
    /// limb first.
    pub fn to_vec(&self) -> (r: Vec<usize>)
        requires
            self.wf(),
        ensures
            r@ == self.limbs@,
    {
        let mut r: Vec<usize> = Vec::new();
        let mut i: usize = 0;
        while i < self.limbs.len()
            invariant
                i <= self.limbs@.len(),
                r@ == self.limbs@.take(i as int),
            decreases self.limbs@.len() - i,
        {
            r.push(self.limbs[i]);
            proof {
                assert(self.limbs@.take(i + 1) =~= self.limbs@.take(i as int).push(
                    self.limbs@[i as int],
                ));
            }
            i = i + 1;
        }
        proof {
            assert(self.limbs@.take(self.limbs@.len() as int) =~= self.limbs@);
        }
        r
    }

    /// Rebuilds a representation from an 8-wire sequence; any other length
    /// is a shape mismatch and is excluded. Relative to `to_vec` this is
    /// the identity.
    pub fn from_vec(input: &Vec<usize>) -> (r: Self)
        requires
            input@.len() == 8,
        ensures
            r.limbs@ == input@,
            r.wf(),
    {
        let mut limbs: Vec<usize> = Vec::new();
        let mut i: usize = 0;
        while i < input.len()
            invariant
                i <= input@.len(),
                limbs@ == input@.take(i as int),
            decreases input@.len() - i,
        {
            limbs.push(input[i]);
            proof {
                assert(input@.take(i + 1) =~= input@.take(i as int).push(input@[i as int]));
            }
            i = i + 1;
        }
        proof {
            assert(input@.take(input@.len() as int) =~= input@);
        }
        U256Target { limbs }
    }

    /// Rebuilds a representation when the sequence has exactly 8 wires,
    /// and reports any other length as a shape mismatch instead of
    /// failing.
    pub fn try_from_vec(input: &Vec<usize>) -> (r: Option<Self>)
        ensures
            match r {
                Some(t) => input@.len() == 8 && t.limbs@ == input@ && t.wf(),
                None => input@.len() != 8,
            },
    {
        if input.len() == 8 {
            Some(Self::from_vec(input))
        } else {
            None
        }
    }

    /// Binds each limb wire to its little-endian base-2^32 digit of the
    /// given value, zero-extended to 8 digits. Values of 2^256 or more do
    /// not fit and are excluded, as are representations whose limb wires
    /// repeat: assignment is meant for the 8 distinct wires of a free
    /// allocation.
    pub fn set_witness(&self, store: &mut WitnessStore, value: &BigUint)
        requires
            self.wf(),
            fits_u256(biguint_digits(*value)),
            forall|i: int, j: int| 0 <= i < j < 8 ==> self.limbs@[i] != self.limbs@[j],
        ensures
            witness_assigned(*old(store), *final(store), *self, biguint_digits(*value)),
    {
        let digits = biguint_to_digits(value);
        let padded = pad_digits(&digits);
        let ghost pre = *store;
        let mut i: usize = 0;
        while i < 8
            invariant
                i <= 8,
                self.wf(),
                padded@ == padded8(biguint_digits(*value)),
                padded@.len() == 8,
                forall|p: int, q: int| 0 <= p < q < 8 ==> self.limbs@[p] != self.limbs@[q],
                forall|k: int|
                    0 <= k < i ==> store.wire_value(self.limbs@[k] as nat) == Some(
                        padded@[k] as u64,
                    ),
                forall|x: nat|
                    (forall|k: int| 0 <= k < i ==> self.limbs@[k] as nat != x)
                        ==> store.wire_value(x) == pre.wire_value(x),
            decreases 8 - i,
        {
            let d = padded[i];
            store.set_wire_value(self.limbs[i], d as u64);
            i = i + 1;
        }
    }

    /// Assigns the witness when the value fits, and reports a value of
    /// 2^256 or more instead of failing: the store is untouched then.
    pub fn try_set_witness(&self, store: &mut WitnessStore, value: &BigUint) -> (ok: bool)
        requires
            self.wf(),
            forall|i: int, j: int| 0 <= i < j < 8 ==> self.limbs@[i] != self.limbs@[j],
        ensures
            ok == fits_u256(biguint_digits(*value)),
            ok ==> witness_assigned(*old(store), *final(store), *self, biguint_digits(*value)),
            !ok ==> *final(store) == *old(store),
    {
        let digits = biguint_to_digits(value);
        if digits_fit_u256(&digits) {
            self.set_witness(store, value);
            true
        } else {
            false
        }
    }

    /// Reads back the values bound to the 8 limb wires, if all of them
    /// have one.
    pub fn read_witness(&self, store: &WitnessStore) -> (r: Option<Vec<u64>>)
        requires
            self.wf(),
        ensures
            match r {
                Some(vs) => vs@.len() == 8 && forall|i: int|
                    0 <= i < 8 ==> store.wire_value(self.limbs@[i] as nat) == Some(vs@[i]),
                None => exists|i: int|
                    0 <= i < 8 && store.wire_value(#[trigger] self.limbs@[i] as nat) is None,
            },
    {
        let mut vs: Vec<u64> = Vec::new();
        let mut i: usize = 0;
        while i < 8
            invariant
                i <= 8,
                self.wf(),
                vs@.len() == i,
                forall|k: int|
                    0 <= k < i ==> store.wire_value(self.limbs@[k] as nat) == Some(vs@[k]),
            decreases 8 - i,
        {
            match store.get_wire_value(self.limbs[i]) {
                Some(v) => {
                    vs.push(v);
                },
                None => {
                    return None;
                },
            }
            i = i + 1;
        }
        Some(vs)
    }
}

/// Assigning a value below 2^256 as a witness and reading the 8 limb wires
/// back reconstructs exactly that value from the positional sum of the
/// limbs.
pub proof fn lemma_witness_round_trip(
    pre: WitnessStore,
    post: WitnessStore,
    t: U256Target,
    d: Seq<u32>,
    vs: Seq<u64>,
)
    requires
        t.wf(),
        fits_u256(d),
        witness_assigned(pre, post, t, d),
        vs.len() == 8,
        forall|i: int| 0 <= i < 8 ==> post.wire_value(t.limbs@[i] as nat) == Some(vs[i]),
    ensures
        limbs_value_u64(vs) == digits_value(d),
{
    assert(forall|i: int| 0 <= i < 8 ==> vs[i] == padded8(d)[i] as u64);
    lemma_limbs_value_u64_matches(vs, padded8(d));
    lemma_padded8_value(d);
}

/// Connecting two representations materialized from the same constant
/// leaves the circuit satisfiable: binding every constant wire to its
/// constant satisfies all 8 equality constraints.
pub proof fn lemma_connect_same_value_satisfiable(
    b0: CircuitBuilder,
    b1: CircuitBuilder,
    b2: CircuitBuilder,
    b3: CircuitBuilder,
    t1: U256Target,
    t2: U256Target,
    d: Seq<u32>,
)
    requires
        b0.equalities@.len() == 0,
        constant_built(b0, b1, t1, d),
        constant_built(b1, b2, t2, d),
        b3.wires@ == b2.wires@,
        b3.equalities@ == b2.equalities@ + limb_pairs(t1.limbs@, t2.limbs@),
    ensures
        exists|a: Map<nat, u64>| assignment_satisfies(a, b3),
{
    assert forall|j: int| 0 <= j < b3.equalities@.len() implies {
        &&& b3.wire_constant(b3.equalities@[j].0 as nat) is Some
        &&& b3.wire_constant(b3.equalities@[j].0 as nat) == b3.wire_constant(
            b3.equalities@[j].1 as nat,
        )
    } by {
        assert(b3.equalities@[j] == limb_pairs(t1.limbs@, t2.limbs@)[j]);
        let x = t1.limbs@[j] as nat;
        let y = t2.limbs@[j] as nat;
        assert(b1.wire_constant(x) == Some(padded8(d)[j] as u64));
        assert(x < b1.wires@.len());
        assert(b2.wires@[x as int] == b1.wires@[x as int]);
        assert(b3.wire_constant(x) == Some(padded8(d)[j] as u64));
        assert(b3.wire_constant(y) == Some(padded8(d)[j] as u64));
    }
    lemma_agreeing_equalities_satisfiable(b3);
}

/// Connecting two representations materialized from constants of
/// different values makes the circuit unsatisfiable: some limb pair ties
/// two constant wires whose constants differ, and no assignment can
/// respect both.
pub proof fn lemma_connect_differing_values_unsatisfiable(
    b0: CircuitBuilder,
    b1: CircuitBuilder,
    b2: CircuitBuilder,
    b3: CircuitBuilder,
    t1: U256Target,
    t2: U256Target,
    d1: Seq<u32>,
    d2: Seq<u32>,
    a: Map<nat, u64>,
)
    requires
        constant_built(b0, b1, t1, d1),
        constant_built(b1, b2, t2, d2),
        b3.wires@ == b2.wires@,
        b3.equalities@ == b2.equalities@ + limb_pairs(t1.limbs@, t2.limbs@),
        fits_u256(d1),
        fits_u256(d2),
        digits_value(d1) != digits_value(d2),
    ensures
        !assignment_satisfies(a, b3),
{
    lemma_padded8_value(d1);
    lemma_padded8_value(d2);
    assert(exists|i: int| 0 <= i < 8 && padded8(d1)[i] != padded8(d2)[i]) by {
        if forall|i: int| 0 <= i < 8 ==> padded8(d1)[i] == padded8(d2)[i] {
            assert(padded8(d1) =~= padded8(d2));
        }
    }
    let i = choose|i: int| 0 <= i < 8 && padded8(d1)[i] != padded8(d2)[i];
    let j = b2.equalities@.len() + i;
    assert(b3.equalities@[j as int] == limb_pairs(t1.limbs@, t2.limbs@)[i]);
    let x = t1.limbs@[i] as nat;
    let y = t2.limbs@[i] as nat;
    assert(b1.wire_constant(x) == Some(padded8(d1)[i] as u64));
    assert(x < b1.wires@.len());
    assert(b2.wires@[x as int] == b1.wires@[x as int]);
    assert(b3.wire_constant(x) == Some(padded8(d1)[i] as u64));
    assert(b3.wire_constant(y) == Some(padded8(d2)[i] as u64));
    lemma_conflicting_equality_unsatisfiable(b3, j as int, a);
}

} // verus!
