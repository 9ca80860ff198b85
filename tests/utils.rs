use ark_bn254::{Fr, G1Affine, G1Projective};
use ark_ec::AffineRepr;
use ark_ff::Field;
use co_ultrahonk::curve::{G1Point, ProverCrs, Scalar};
use co_ultrahonk::utils::Utils;
use co_ultrahonk::HonkProofError;

#[test]
fn msb32_of_small_and_large_values() {
    assert_eq!(Utils::get_msb32(1), 0);
    assert_eq!(Utils::get_msb32(2), 1);
    assert_eq!(Utils::get_msb32(3), 1);
    assert_eq!(Utils::get_msb32(8), 3);
    assert_eq!(Utils::get_msb32(u32::MAX), 31);
}

#[test]
fn msb64_of_small_and_large_values() {
    assert_eq!(Utils::get_msb64(1), 0);
    assert_eq!(Utils::get_msb64(1 << 40), 40);
    assert_eq!(Utils::get_msb64((1 << 40) + 12345), 40);
    assert_eq!(Utils::get_msb64(u64::MAX), 63);
}

#[test]
fn round_up_power_2_keeps_powers_and_rounds_others() {
    assert_eq!(Utils::round_up_power_2(1), 1);
    assert_eq!(Utils::round_up_power_2(2), 2);
    assert_eq!(Utils::round_up_power_2(3), 4);
    assert_eq!(Utils::round_up_power_2(5), 8);
    assert_eq!(Utils::round_up_power_2(8), 8);
    assert_eq!(Utils::round_up_power_2(1000), 1024);
    assert_eq!(Utils::round_up_power_2(1 << 62), 1 << 62);
    assert_eq!(Utils::round_up_power_2((1 << 62) + 1), 1 << 63);
}

#[test]
fn field_from_hex_string_with_and_without_prefix() {
    let a = Utils::field_from_hex_string("0x1f").unwrap();
    let b = Utils::field_from_hex_string("1F").unwrap();
    assert_eq!(a.0, Fr::from(31u64));
    assert_eq!(b.0, Fr::from(31u64));
    let c = Utils::field_from_hex_string("0x1_00").unwrap();
    assert_eq!(c.0, Fr::from(256u64));
}

#[test]
fn field_from_hex_string_reduces_modulo_order() {
    // The scalar field order r of BN254, plus one.
    let r_plus_one = "0x30644e72e131a029b85045b68181585d2833e84879b9709143e1f593f0000002";
    assert_eq!(Utils::field_from_hex_string(r_plus_one).unwrap().0, Fr::from(1u64));
}

#[test]
fn field_from_hex_string_rejects_bad_text() {
    assert_eq!(Utils::field_from_hex_string("0x").err(), Some(HonkProofError::InvalidHexString));
    assert_eq!(Utils::field_from_hex_string("").err(), Some(HonkProofError::InvalidHexString));
    assert_eq!(Utils::field_from_hex_string("0xzz").err(), Some(HonkProofError::InvalidHexString));
    assert_eq!(Utils::field_from_hex_string("_1").err(), Some(HonkProofError::InvalidHexString));
}

fn generator_multiples(n: u64) -> Vec<G1Point> {
    let g = G1Affine::generator();
    (1..=n).map(|i| G1Point((g * Fr::from(i)).into())).collect()
}

#[test]
fn msm_combines_scalars_and_bases() {
    let bases = generator_multiples(3);
    let scalars = vec![Scalar(Fr::from(2u64)), Scalar(Fr::from(3u64))];
    let r = Utils::msm(&scalars, &bases).unwrap();
    // 2 * G + 3 * (2G) = 8G
    let expected: G1Projective = G1Affine::generator() * Fr::from(8u64);
    assert_eq!(r.0, expected);
}

#[test]
fn msm_refuses_short_basis() {
    let bases = generator_multiples(1);
    let scalars = vec![Scalar(Fr::from(2u64)), Scalar(Fr::from(3u64))];
    assert!(matches!(Utils::msm(&scalars, &bases), Err(HonkProofError::CrsTooSmall)));
}

#[test]
fn commit_uses_monomial_basis() {
    let crs = ProverCrs { monomials: generator_multiples(4) };
    let poly = vec![Scalar(Fr::from(1u64)), Scalar(Fr::from(1u64))];
    let r = Utils::commit(&poly, &crs).unwrap();
    let expected: G1Projective = G1Affine::generator() * Fr::from(3u64);
    assert_eq!(r.0, expected);
    let long: Vec<Scalar> = (0..5).map(|i| Scalar(Fr::from(i as u64))).collect();
    assert!(matches!(Utils::commit(&long, &crs), Err(HonkProofError::CrsTooSmall)));
}

#[test]
fn batch_invert_skips_zeros() {
    let mut v = vec![Scalar(Fr::from(2u64)), Scalar(Fr::from(0u64)), Scalar(Fr::from(4u64))];
    Utils::batch_invert(&mut v);
    assert_eq!(v.len(), 3);
    assert_eq!(v[0].0, Fr::from(2u64).inverse().unwrap());
    assert_eq!(v[1].0, Fr::from(0u64));
    assert_eq!(v[2].0, Fr::from(4u64).inverse().unwrap());
}

#[test]
fn commit_equals_msm_on_monomials() {
    let crs = ProverCrs { monomials: generator_multiples(3) };
    let poly = vec![Scalar(Fr::from(4u64)), Scalar(Fr::from(5u64)), Scalar(Fr::from(6u64))];
    let a = Utils::commit(&poly, &crs).unwrap();
    let b = Utils::msm(&poly, &crs.monomials).unwrap();
    assert_eq!(a.0, b.0);
    // 4G + 10G + 18G = 32G
    let expected: G1Projective = G1Affine::generator() * Fr::from(32u64);
    assert_eq!(a.0, expected);
}

#[test]
fn hex_prefix_and_case_do_not_matter() {
    let plain = Utils::field_from_hex_string("abcdef0123").unwrap();
    let prefixed = Utils::field_from_hex_string("0xabcdef0123").unwrap();
    let upper = Utils::field_from_hex_string("ABCDEF0123").unwrap();
    assert_eq!(plain.0, prefixed.0);
    assert_eq!(plain.0, upper.0);
    assert_eq!(plain.0, Fr::from(0xabcdef0123u64));
}
