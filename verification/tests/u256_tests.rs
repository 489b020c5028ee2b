use num_bigint::BigUint;
use plonky2_u256::builder::CircuitBuilder;
use plonky2_u256::builder::WitnessStore;
use plonky2_u256::u256::U256Target;

fn limb_constants(b: &CircuitBuilder, t: &U256Target) -> Vec<Option<u64>> {
    let mut out = Vec::new();
    for i in 0..8 {
        out.push(b.constant_value(t.limbs[i]));
    }
    out
}

#[test]
fn materialize_zero_gives_eight_zero_limbs() {
    let mut b = CircuitBuilder::new();
    let t = U256Target::constant(&mut b, &BigUint::from(0u32));
    assert_eq!(limb_constants(&b, &t), vec![Some(0); 8]);
}

#[test]
fn materialize_two_pow_32_gives_second_limb_one() {
    let mut b = CircuitBuilder::new();
    let t = U256Target::constant(&mut b, &BigUint::from(0x1_0000_0000u64));
    let expected = vec![
        Some(0),
        Some(1),
        Some(0),
        Some(0),
        Some(0),
        Some(0),
        Some(0),
        Some(0),
    ];
    assert_eq!(limb_constants(&b, &t), expected);
}

#[test]
fn materialize_max_value_fills_every_limb() {
    let mut b = CircuitBuilder::new();
    let v = (BigUint::from(1u8) << 256u32) - BigUint::from(1u8);
    let t = U256Target::constant(&mut b, &v);
    assert_eq!(limb_constants(&b, &t), vec![Some(0xFFFF_FFFF); 8]);
}

#[test]
fn materialize_two_pow_256_is_rejected() {
    let mut b = CircuitBuilder::new();
    let v = BigUint::from(1u8) << 256u32;
    assert!(U256Target::try_constant(&mut b, &v).is_none());
    assert_eq!(b.wire_count(), 0);
}

#[test]
fn witness_assignment_of_two_pow_256_is_rejected() {
    let mut b = CircuitBuilder::new();
    let t = U256Target::empty(&mut b);
    let mut w = WitnessStore::new();
    let v = BigUint::from(1u8) << 256u32;
    assert!(!t.try_set_witness(&mut w, &v));
    assert!(t.read_witness(&w).is_none());
}

#[test]
fn witness_round_trip_reconstructs_the_value() {
    let mut b = CircuitBuilder::new();
    let t = U256Target::empty(&mut b);
    let mut w = WitnessStore::new();
    let v = BigUint::parse_bytes(
        b"f1e2d3c4b5a6978812345678deadbeef00000000cafebabe0123456789abcdef",
        16,
    )
    .unwrap();
    t.set_witness(&mut w, &v);
    let limbs = t.read_witness(&w).unwrap();
    let mut rebuilt = BigUint::from(0u32);
    for (i, limb) in limbs.iter().enumerate() {
        assert!(*limb < (1u64 << 32));
        rebuilt += BigUint::from(*limb) << (32 * i as u32);
    }
    assert_eq!(rebuilt, v);
}

#[test]
fn witness_round_trip_reconstructs_small_values() {
    for v in [0u64, 1, 2, 0xFFFF_FFFF, 0x1_0000_0000, u64::MAX] {
        let mut b = CircuitBuilder::new();
        let t = U256Target::empty(&mut b);
        let mut w = WitnessStore::new();
        let value = BigUint::from(v);
        t.set_witness(&mut w, &value);
        let limbs = t.read_witness(&w).unwrap();
        let mut rebuilt = BigUint::from(0u32);
        for (i, limb) in limbs.iter().enumerate() {
            rebuilt += BigUint::from(*limb) << (32 * i as u32);
        }
        assert_eq!(rebuilt, value);
    }
}

#[test]
fn serialize_then_deserialize_is_identity() {
    let mut b = CircuitBuilder::new();
    let t = U256Target::empty(&mut b);
    let wires = t.to_vec();
    let back = U256Target::from_vec(&wires);
    assert_eq!(back.limbs, t.limbs);
}

#[test]
fn deserialize_of_seven_or_nine_wires_is_rejected() {
    assert!(U256Target::try_from_vec(&vec![0usize; 7]).is_none());
    assert!(U256Target::try_from_vec(&vec![0usize; 9]).is_none());
    let eight: Vec<usize> = (10..18).collect();
    let t = U256Target::try_from_vec(&eight).unwrap();
    assert_eq!(t.limbs, eight);
}

#[test]
fn empty_allocates_eight_fresh_free_wires() {
    let mut b = CircuitBuilder::new();
    let before = b.wire_count();
    let t = U256Target::empty(&mut b);
    assert_eq!(b.wire_count(), before + 8);
    for i in 0..8 {
        assert_eq!(t.limbs[i], before + i);
        assert_eq!(b.constant_value(t.limbs[i]), None);
    }
}

#[test]
fn connect_adds_one_equality_per_limb_pair() {
    let mut b = CircuitBuilder::new();
    let v = BigUint::from(42u32);
    let t1 = U256Target::constant(&mut b, &v);
    let t2 = U256Target::constant(&mut b, &v);
    U256Target::connect(&mut b, &t1, &t2);
    assert_eq!(b.equalities.len(), 8);
    for i in 0..8 {
        assert_eq!(b.equalities[i], (t1.limbs[i], t2.limbs[i]));
    }
}

#[test]
fn connect_of_same_constant_ties_agreeing_wires() {
    let mut b = CircuitBuilder::new();
    let v = BigUint::parse_bytes(b"123456789abcdef0fedcba9876543210", 16).unwrap();
    let t1 = U256Target::constant(&mut b, &v);
    let t2 = U256Target::constant(&mut b, &v);
    U256Target::connect(&mut b, &t1, &t2);
    for (x, y) in b.equalities.iter() {
        let cx = b.constant_value(*x).unwrap();
        let cy = b.constant_value(*y).unwrap();
        assert_eq!(cx, cy);
    }
}

#[test]
fn connect_of_differing_constants_ties_conflicting_wires() {
    let mut b = CircuitBuilder::new();
    let t1 = U256Target::constant(&mut b, &BigUint::from(5u32));
    let t2 = U256Target::constant(&mut b, &BigUint::from(6u32));
    U256Target::connect(&mut b, &t1, &t2);
    let conflicting = b.equalities.iter().any(|(x, y)| {
        b.constant_value(*x).unwrap() != b.constant_value(*y).unwrap()
    });
    assert!(conflicting);
}

fn bind_constants(b: &CircuitBuilder) -> WitnessStore {
    let mut w = WitnessStore::new();
    for wire in 0..b.wire_count() {
        if let Some(v) = b.constant_value(wire) {
            w.set_wire_value(wire, v);
        }
    }
    w
}

#[test]
fn same_constant_connection_is_satisfied_by_its_constants() {
    let mut b = CircuitBuilder::new();
    let v = BigUint::from(77u32);
    let t1 = U256Target::constant(&mut b, &v);
    let t2 = U256Target::constant(&mut b, &v);
    U256Target::connect(&mut b, &t1, &t2);
    let w = bind_constants(&b);
    assert!(plonky2_u256::builder::check_satisfied(&b, &w));
}

#[test]
fn differing_constants_connection_is_never_satisfied_by_constants() {
    let mut b = CircuitBuilder::new();
    let t1 = U256Target::constant(&mut b, &BigUint::from(77u32));
    let t2 = U256Target::constant(&mut b, &BigUint::from(78u32));
    U256Target::connect(&mut b, &t1, &t2);
    let w = bind_constants(&b);
    assert!(!plonky2_u256::builder::check_satisfied(&b, &w));
}

#[test]
fn field_and_bigint_views_keep_the_limbs() {
    let mut b = CircuitBuilder::new();
    let t = U256Target::empty(&mut b);
    assert_eq!(t.to_fq().limbs, t.limbs);
    assert_eq!(t.to_fr().limbs, t.limbs);
    assert_eq!(t.to_biguint_target().limbs, t.limbs);
}

#[test]
fn new_keeps_the_eight_wires_in_order() {
    let wires: Vec<usize> = vec![3, 1, 4, 1, 5, 9, 2, 6];
    let t = U256Target::new(wires.clone());
    assert_eq!(t.limbs, wires);
    assert_eq!(t.to_vec(), wires);
}
