use num_bigint::BigUint;
use plonky2_u256::fields::fq_modulus_digits;
use plonky2_u256::fields::fq_reduced_digits;
use plonky2_u256::fields::fr_modulus_digits;
use plonky2_u256::fields::fr_reduced_digits;

fn eight_limbs(v: &BigUint) -> Vec<u32> {
    let mut limbs = v.to_u32_digits();
    assert!(limbs.len() <= 8);
    limbs.resize(8, 0);
    limbs
}

fn fq() -> BigUint {
    BigUint::parse_bytes(
        b"30644e72e131a029b85045b68181585d97816a916871ca8d3c208c16d87cfd47",
        16,
    )
    .unwrap()
}

fn fr() -> BigUint {
    BigUint::parse_bytes(
        b"30644e72e131a029b85045b68181585d2833e84879b9709143e1f593f0000001",
        16,
    )
    .unwrap()
}

#[test]
fn modulus_digits_match_the_field_moduli() {
    assert_eq!(fq_modulus_digits(), eight_limbs(&fq()));
    assert_eq!(fr_modulus_digits(), eight_limbs(&fr()));
}

#[test]
fn reduction_keeps_values_below_the_modulus() {
    for v in [
        BigUint::from(0u32),
        BigUint::from(1u32),
        BigUint::from(0xdead_beefu32),
        fq() - BigUint::from(1u8),
    ] {
        assert_eq!(fq_reduced_digits(&eight_limbs(&v)), eight_limbs(&v));
    }
    let v = fr() - BigUint::from(1u8);
    assert_eq!(fr_reduced_digits(&eight_limbs(&v)), eight_limbs(&v));
}

#[test]
fn reduction_wraps_at_the_modulus() {
    assert_eq!(
        fq_reduced_digits(&eight_limbs(&fq())),
        eight_limbs(&BigUint::from(0u32))
    );
    assert_eq!(
        fq_reduced_digits(&eight_limbs(&(fq() + BigUint::from(1u8)))),
        eight_limbs(&BigUint::from(1u32))
    );
    assert_eq!(
        fr_reduced_digits(&eight_limbs(&fr())),
        eight_limbs(&BigUint::from(0u32))
    );
    assert_eq!(
        fr_reduced_digits(&eight_limbs(&(fr() + BigUint::from(1u8)))),
        eight_limbs(&BigUint::from(1u32))
    );
}

#[test]
fn reduction_of_the_largest_value_matches_bignum_arithmetic() {
    let max = (BigUint::from(1u8) << 256u32) - BigUint::from(1u8);
    let expected_fq = &max % fq();
    let expected_fr = &max % fr();
    assert_eq!(fq_reduced_digits(&eight_limbs(&max)), eight_limbs(&expected_fq));
    assert_eq!(fr_reduced_digits(&eight_limbs(&max)), eight_limbs(&expected_fr));
}
