use ark_bn254::{Fr, G1Affine, G2Affine};
use ark_ec::AffineRepr;
use co_ultrahonk::curve::{G1Point, G2Point, ProverCrs, Scalar};
use co_ultrahonk::proving_key::{
    PlainPolynomials, PlainProvingKey, ProvingKey, WitnessValue, LAGRANGE_FIRST, LAGRANGE_LAST,
    NUM_LOOKUP_POLYNOMIALS, NUM_WIRES,
};
use co_ultrahonk::verification_key::{FieldLimbs, PRECOMPUTED_ENTITIES_SIZE};
use co_ultrahonk::HonkProofError;

fn s(v: u64) -> Scalar {
    Scalar(Fr::from(v))
}

fn basis(n: u64) -> ProverCrs {
    let g = G1Affine::generator();
    ProverCrs { monomials: (1..=n).map(|i| G1Point((g * Fr::from(i)).into())).collect() }
}

fn plain_key(circuit_size: u32) -> PlainProvingKey {
    let n = circuit_size as u64;
    PlainProvingKey {
        crs: basis(n),
        circuit_size,
        public_inputs: vec![s(42)],
        num_public_inputs: 1,
        pub_inputs_offset: 1,
        polynomials: PlainPolynomials {
            precomputed: (0..PRECOMPUTED_ENTITIES_SIZE as u64)
                .map(|p| (0..n).map(|j| s(100 * p + j)).collect())
                .collect(),
            wires: (0..NUM_WIRES as u64).map(|_| (0..n).map(s).collect()).collect(),
            lookup_read_counts_and_tags: (0..NUM_LOOKUP_POLYNOMIALS as u64)
                .map(|p| (0..n).map(|j| s(7 + p + j)).collect())
                .collect(),
        },
        memory_read_records: vec![3, 4],
        memory_write_records: vec![5],
    }
}

#[test]
fn from_plain_key_and_shares_splits_wires() {
    let plain = plain_key(2);
    let shares: Vec<u64> = (10..18).collect();
    let key = ProvingKey::from_plain_key_and_shares(&plain, shares).unwrap();
    assert_eq!(key.polynomials.wires, vec![vec![10, 11], vec![12, 13], vec![14, 15], vec![16, 17]]);
    assert_eq!(key.circuit_size, 2);
    assert_eq!(key.num_public_inputs, 1);
    assert_eq!(key.pub_inputs_offset, 1);
    assert_eq!(key.memory_read_records, vec![3, 4]);
    assert_eq!(key.memory_write_records, vec![5]);
    assert_eq!(key.get_public_inputs().len(), 1);
    assert_eq!(key.get_public_inputs()[0].0, Fr::from(42u64));
    assert_eq!(key.polynomials.precomputed.len(), PRECOMPUTED_ENTITIES_SIZE);
    assert_eq!(key.polynomials.precomputed[3][1].0, Fr::from(301u64));
    assert_eq!(key.polynomials.lookup_read_counts_and_tags[1][1].0, Fr::from(9u64));
    assert_eq!(key.crs.monomials.len(), 2);
}

#[test]
fn from_plain_key_and_shares_refuses_wrong_share_count() {
    let plain = plain_key(2);
    let shares: Vec<u64> = (0..7).collect();
    assert!(matches!(
        ProvingKey::from_plain_key_and_shares(&plain, shares),
        Err(HonkProofError::ShareLengthMismatch)
    ));
    let shares: Vec<u64> = (0..9).collect();
    assert!(matches!(
        ProvingKey::from_plain_key_and_shares(&plain, shares),
        Err(HonkProofError::ShareLengthMismatch)
    ));
}

#[test]
fn new_key_is_zero_and_sized() {
    let key = ProvingKey::new(4, 2, basis(4), 0u64);
    assert_eq!(key.circuit_size, 4);
    assert_eq!(key.num_public_inputs, 2);
    assert_eq!(key.pub_inputs_offset, 0);
    assert!(key.public_inputs.is_empty());
    assert_eq!(key.polynomials.precomputed.len(), PRECOMPUTED_ENTITIES_SIZE);
    assert!(key.polynomials.precomputed.iter().all(|p| p.len() == 4));
    assert!(key.polynomials.precomputed.iter().flatten().all(|v| v.0 == Fr::from(0u64)));
    assert_eq!(key.polynomials.wires, vec![vec![0u64; 4]; NUM_WIRES]);
    assert_eq!(key.polynomials.lookup_read_counts_and_tags.len(), NUM_LOOKUP_POLYNOMIALS);
}

#[test]
fn lagrange_polynomials_mark_first_and_last_rows() {
    let mut key = ProvingKey::new(4, 0, basis(4), 0u64);
    key.set_lagrange_polynomials();
    let first: Vec<Fr> = key.polynomials.precomputed[LAGRANGE_FIRST].iter().map(|v| v.0).collect();
    let last: Vec<Fr> = key.polynomials.precomputed[LAGRANGE_LAST].iter().map(|v| v.0).collect();
    let (zero, one) = (Fr::from(0u64), Fr::from(1u64));
    assert_eq!(first, vec![one, zero, zero, zero]);
    assert_eq!(last, vec![zero, zero, zero, one]);
    assert!(key.polynomials.precomputed[0].iter().all(|v| v.0 == zero));
}

#[test]
fn public_inputs_follow_the_public_wire() {
    let mut key = ProvingKey::new(4, 2, basis(4), 0u64);
    let variables = vec![
        WitnessValue::Public(s(5)),
        WitnessValue::Shared(9u64),
        WitnessValue::Public(s(6)),
        WitnessValue::Public(s(7)),
    ];
    let wire = vec![3, 0, 1];
    key.set_public_inputs(&wire, &variables).unwrap();
    let values: Vec<Fr> = key.get_public_inputs().iter().map(|v| v.0).collect();
    assert_eq!(values, vec![Fr::from(7u64), Fr::from(5u64)]);
}

#[test]
fn shared_public_slot_is_refused() {
    let mut key = ProvingKey::new(4, 2, basis(4), 0u64);
    let variables = vec![WitnessValue::Public(s(5)), WitnessValue::Shared(9u64)];
    let wire = vec![0, 1];
    assert_eq!(key.set_public_inputs(&wire, &variables), Err(HonkProofError::ExpectedPublicWitness));
    assert!(key.public_inputs.is_empty());
}

#[test]
fn create_keys_commits_precomputed_polynomials() {
    let mut key = ProvingKey::new(2, 0, basis(2), 0u64);
    key.set_lagrange_polynomials();
    let g2 = G2Point(G2Affine::generator());
    let (pk, vk) = ProvingKey::create_keys(key, g2).unwrap();
    assert_eq!(pk.circuit_size, 2);
    assert_eq!(vk.circuit_size, 2);
    assert_eq!(vk.commitments.len(), PRECOMPUTED_ENTITIES_SIZE);
    let zero = FieldLimbs { l0: 0, l1: 0, l2: 0, l3: 0 };
    // A zero polynomial commits to the point at infinity.
    assert_eq!(vk.commitments[0].x, zero);
    assert_eq!(vk.commitments[0].y, zero);
    // The first Lagrange polynomial commits to the generator (1, 2).
    assert_eq!(vk.commitments[LAGRANGE_FIRST].x, FieldLimbs { l0: 1, l1: 0, l2: 0, l3: 0 });
    assert_eq!(vk.commitments[LAGRANGE_FIRST].y, FieldLimbs { l0: 2, l1: 0, l2: 0, l3: 0 });
    assert_eq!(vk.crs.0, G2Affine::generator());
}

#[test]
fn create_keys_refuses_short_basis() {
    let key = ProvingKey::new(4, 0, basis(3), 0u64);
    let g2 = G2Point(G2Affine::generator());
    assert!(matches!(ProvingKey::create_keys(key, g2), Err(HonkProofError::CrsTooSmall)));
}

#[test]
fn create_rounds_size_and_reads_public_inputs() {
    let variables = vec![
        WitnessValue::Public(s(11)),
        WitnessValue::Shared(3u64),
        WitnessValue::Public(s(12)),
    ];
    let wire = vec![2, 0, 1];
    let key = ProvingKey::create(5, &wire, &variables, 2, basis(8), 0u64).unwrap();
    assert_eq!(key.circuit_size, 8);
    assert_eq!(key.num_public_inputs, 2);
    assert_eq!(key.pub_inputs_offset, 0);
    let values: Vec<Fr> = key.get_public_inputs().iter().map(|v| v.0).collect();
    assert_eq!(values, vec![Fr::from(12u64), Fr::from(11u64)]);
    let (zero, one) = (Fr::from(0u64), Fr::from(1u64));
    let first: Vec<Fr> = key.polynomials.precomputed[LAGRANGE_FIRST].iter().map(|v| v.0).collect();
    let last: Vec<Fr> = key.polynomials.precomputed[LAGRANGE_LAST].iter().map(|v| v.0).collect();
    let mut expected_first = vec![zero; 8];
    expected_first[0] = one;
    let mut expected_last = vec![zero; 8];
    expected_last[7] = one;
    assert_eq!(first, expected_first);
    assert_eq!(last, expected_last);
    assert_eq!(key.polynomials.wires, vec![vec![0u64; 8]; NUM_WIRES]);
}

#[test]
fn create_refuses_shared_public_input() {
    let variables = vec![WitnessValue::Public(s(11)), WitnessValue::Shared(3u64)];
    let wire = vec![0, 1];
    assert!(matches!(
        ProvingKey::create(4, &wire, &variables, 2, basis(4), 0u64),
        Err(HonkProofError::ExpectedPublicWitness)
    ));
    // Only the declared public slots are read.
    assert!(ProvingKey::create(4, &wire, &variables, 1, basis(4), 0u64).is_ok());
}

#[test]
fn verifying_key_ignores_witness_shares() {
    let plain = plain_key(2);
    let a = ProvingKey::from_plain_key_and_shares(&plain, (0..8).collect::<Vec<u64>>()).unwrap();
    let b = ProvingKey::from_plain_key_and_shares(&plain, (50..58).collect::<Vec<u64>>()).unwrap();
    let g2 = G2Point(G2Affine::generator());
    let (_, vka) = ProvingKey::create_keys(a, g2).unwrap();
    let (_, vkb) = ProvingKey::create_keys(b, G2Point(G2Affine::generator())).unwrap();
    assert_eq!(vka.commitments, vkb.commitments);
    assert_eq!(vka.circuit_size, vkb.circuit_size);
}
