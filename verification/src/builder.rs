//! The circuit builder and the witness store.
//!
//! The builder owns the global wire table: an arena of wire definitions,
//! indexed by small copyable handles, together with the equality
//! constraints laid between wires. A wire is either fixed to a field value
//! at compile time (a constant wire) or free, to be bound to a concrete
//! value only during witness generation. The witness store holds those
//! later bindings, one concrete field value per free wire.

use vstd::prelude::*;

verus! {

/// One wire of the circuit: fixed at compile time, or free until witness
/// assignment.
#[derive(Clone, Copy, Debug)]
pub enum WireDef {
    Constant(u64),
    Free,
}

/// The arithmetic-circuit builder: the wire arena and the equality
/// constraints. A wire handle is an index into `wires`.
pub struct CircuitBuilder {
    pub wires: Vec<WireDef>,
    pub equalities: Vec<(usize, usize)>,
}

impl CircuitBuilder {
    /// The compile-time value of a wire, when the wire is a constant wire.
    pub open spec fn wire_constant(self, w: nat) -> Option<u64> {
        if w < self.wires@.len() {
            match self.wires@[w as int] {
                WireDef::Constant(v) => Some(v),
                WireDef::Free => None,
            }
        } else {
            None
        }
    }

    /// A builder that has allocated no wires and laid no constraints.
    pub fn new() -> (b: Self)
        ensures
            b.wires@ == Seq::<WireDef>::empty(),
            b.equalities@ == Seq::<(usize, usize)>::empty(),
    {
        let b = CircuitBuilder { wires: Vec::new(), equalities: Vec::new() };
        proof {
            assert(b.wires@ =~= Seq::<WireDef>::empty());
            assert(b.equalities@ =~= Seq::<(usize, usize)>::empty());
        }
        b
    }

    /// Injects a wire whose value is fixed at compile time and returns its
    /// handle.
    pub fn inject_constant_wire(&mut self, value: u64) -> (w: usize)
        ensures
            w == old(self).wires@.len(),
            final(self).wires@ == old(self).wires@.push(WireDef::Constant(value)),
            final(self).equalities@ == old(self).equalities@,
    {
        let w = self.wires.len();
        self.wires.push(WireDef::Constant(value));
        w
    }

    /// Allocates a fresh wire with no predetermined value and returns its
    /// handle.
    pub fn allocate_free_wire(&mut self) -> (w: usize)
        ensures
            w == old(self).wires@.len(),
            final(self).wires@ == old(self).wires@.push(WireDef::Free),
            final(self).equalities@ == old(self).equalities@,
    {
        let w = self.wires.len();
        self.wires.push(WireDef::Free);
        w
    }

    /// Adds one equality constraint between two wires.
    pub fn enforce_wire_equal(&mut self, a: usize, b: usize)
        ensures
            final(self).wires@ == old(self).wires@,
            final(self).equalities@ == old(self).equalities@.push((a, b)),
    {
        self.equalities.push((a, b));
    }

    /// The number of wires allocated so far.
    pub fn wire_count(&self) -> (n: usize)
        ensures
            n == self.wires@.len(),
    {
        self.wires.len()
    }

    /// The compile-time value of a wire: its constant if the handle names a
    /// constant wire, nothing for a free or unallocated wire.
    pub fn constant_value(&self, w: usize) -> (r: Option<u64>)
        ensures
            r == self.wire_constant(w as nat),
    {
        if w < self.wires.len() {
            match self.wires[w] {
                WireDef::Constant(v) => Some(v),
                WireDef::Free => None,
            }
        } else {
            None
        }
    }
}

/// The witness store: the concrete field value bound to each wire during
/// witness generation, if one has been bound yet.
pub struct WitnessStore {
    pub values: Vec<Option<u64>>,
}

impl WitnessStore {
    /// The value bound to a wire, if any.
    pub open spec fn wire_value(self, w: nat) -> Option<u64> {
        if w < self.values@.len() {
            self.values@[w as int]
        } else {
            None
        }
    }

    /// A store with no wire bound yet.
    pub fn new() -> (s: Self)
        ensures
            forall|w: nat| s.wire_value(w) == Option::<u64>::None,
    {
        WitnessStore { values: Vec::new() }
    }

    /// Binds a concrete value to a wire, leaving every other wire as it
    /// was.
    pub fn set_wire_value(&mut self, w: usize, value: u64)
        ensures
            final(self).wire_value(w as nat) == Some(value),
            forall|x: nat| x != w as nat ==> final(self).wire_value(x) == old(self).wire_value(
                x,
            ),
    {
        while self.values.len() <= w
            invariant
                forall|x: nat| self.wire_value(x) == old(self).wire_value(x),
            decreases w + 1 - self.values.len(),
        {
            self.values.push(None);
        }
        self.values.set(w, Some(value));
    }

    /// The value bound to a wire so far, if any.
    pub fn get_wire_value(&self, w: usize) -> (r: Option<u64>)
        ensures
            r == self.wire_value(w as nat),
    {
        if w < self.values.len() {
            self.values[w]
        } else {
            None
        }
    }
}

/// An assignment of field values to wires satisfies a circuit when every
/// constant wire carries exactly its fixed value and the two sides of every
/// equality constraint carry the same value.
pub open spec fn assignment_satisfies(a: Map<nat, u64>, b: CircuitBuilder) -> bool {
    &&& forall|i: int|
        0 <= i < b.wires@.len() ==> match (#[trigger] b.wires@[i]) {
            WireDef::Constant(v) => a.dom().contains(i as nat) && a[i as nat] == v,
            WireDef::Free => true,
        }
    &&& forall|j: int|
        0 <= j < b.equalities@.len() ==> {
            &&& a.dom().contains(b.equalities@[j].0 as nat)
            &&& a.dom().contains(b.equalities@[j].1 as nat)
            &&& a[b.equalities@[j].0 as nat] == a[b.equalities@[j].1 as nat]
        }
}

/// The assignment a witness store denotes: every wire it binds, at its
/// bound value.
pub open spec fn store_assignment(w: WitnessStore) -> Map<nat, u64> {
    Map::new(|x: nat| w.wire_value(x) is Some, |x: nat| w.wire_value(x)->0)
}

/// Whether a witness store satisfies the circuit as built: every constant
/// wire must be bound to exactly its constant, and the two sides of every
/// equality constraint must be bound to the same value.
pub fn check_satisfied(b: &CircuitBuilder, w: &WitnessStore) -> (r: bool)
    ensures
        r == assignment_satisfies(store_assignment(*w), *b),
{
    let ghost a = store_assignment(*w);
    let mut i: usize = 0;
    while i < b.wires.len()
        invariant
            i <= b.wires@.len(),
            a == store_assignment(*w),
            forall|k: int|
                0 <= k < i ==> match (#[trigger] b.wires@[k]) {
                    WireDef::Constant(v) => a.dom().contains(k as nat) && a[k as nat] == v,
                    WireDef::Free => true,
                },
        decreases b.wires@.len() - i,
    {
        match b.wires[i] {
            WireDef::Constant(v) => {
                match w.get_wire_value(i) {
                    Some(x) => {
                        if x != v {
                            return false;
                        }
                    },
                    None => {
                        return false;
                    },
                }
            },
            WireDef::Free => {},
        }
        i = i + 1;
    }
    let mut j: usize = 0;
    while j < b.equalities.len()
        invariant
            j <= b.equalities@.len(),
            a == store_assignment(*w),
            forall|k: int|
                0 <= k < j ==> {
                    &&& a.dom().contains(#[trigger] b.equalities@[k].0 as nat)
                    &&& a.dom().contains(b.equalities@[k].1 as nat)
                    &&& a[b.equalities@[k].0 as nat] == a[b.equalities@[k].1 as nat]
                },
            forall|k: int|
                0 <= k < b.wires@.len() ==> match (#[trigger] b.wires@[k]) {
                    WireDef::Constant(v) => a.dom().contains(k as nat) && a[k as nat] == v,
                    WireDef::Free => true,
                },
        decreases b.equalities@.len() - j,
    {
        let (x, y) = b.equalities[j];
        let vx = w.get_wire_value(x);
        let vy = w.get_wire_value(y);
        match (vx, vy) {
            (Some(cx), Some(cy)) => {
                if cx != cy {
                    return false;
                }
                proof {
                    assert(w.wire_value(x as nat) == Some(cx));
                    assert(a.dom().contains(x as nat) && a[x as nat] == cx);
                    assert(w.wire_value(y as nat) == Some(cy));
                    assert(a.dom().contains(y as nat) && a[y as nat] == cy);
                }
            },
            _ => {
                return false;
            },
        }
        j = j + 1;
    }
    true
}

/// A circuit whose equality constraints each tie together two constant
/// wires carrying the same value is satisfiable: binding every constant
/// wire to its constant and every free wire to zero satisfies it.
pub proof fn lemma_agreeing_equalities_satisfiable(b: CircuitBuilder)
    requires
        forall|j: int|
            0 <= j < b.equalities@.len() ==> {
                &&& b.wire_constant(b.equalities@[j].0 as nat) is Some
                &&& b.wire_constant(b.equalities@[j].0 as nat) == b.wire_constant(
                    b.equalities@[j].1 as nat,
                )
            },
    ensures
        exists|a: Map<nat, u64>| assignment_satisfies(a, b),
{
    let a = Map::<nat, u64>::new(
        |w: nat| w < b.wires@.len(),
        |w: nat|
            match b.wires@[w as int] {
                WireDef::Constant(v) => v,
                WireDef::Free => 0,
            },
    );
    assert forall|j: int| 0 <= j < b.equalities@.len() implies {
        &&& a.dom().contains(b.equalities@[j].0 as nat)
        &&& a.dom().contains(b.equalities@[j].1 as nat)
        &&& a[b.equalities@[j].0 as nat] == a[b.equalities@[j].1 as nat]
    } by {
        assert(b.wire_constant(b.equalities@[j].0 as nat) is Some);
    }
    assert(assignment_satisfies(a, b));
}

/// A circuit with an equality constraint between two constant wires whose
/// constants differ is unsatisfiable: no assignment can respect both the
/// constants and the constraint.
pub proof fn lemma_conflicting_equality_unsatisfiable(
    b: CircuitBuilder,
    j: int,
    a: Map<nat, u64>,
)
    requires
        0 <= j < b.equalities@.len(),
        b.wire_constant(b.equalities@[j].0 as nat) is Some,
        b.wire_constant(b.equalities@[j].1 as nat) is Some,
        b.wire_constant(b.equalities@[j].0 as nat) != b.wire_constant(
            b.equalities@[j].1 as nat,
        ),
    ensures
        !assignment_satisfies(a, b),
{
    if assignment_satisfies(a, b) {
        let x = b.equalities@[j].0 as nat;
        let y = b.equalities@[j].1 as nat;
        assert(a[x] == a[y]);
        assert(a[x] == b.wire_constant(x)->0);
        assert(a[y] == b.wire_constant(y)->0);
    }
}

} // verus!
