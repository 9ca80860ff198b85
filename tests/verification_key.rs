use ark_bn254::G2Affine;
use ark_ec::AffineRepr;
use co_ultrahonk::curve::G2Point;
use co_ultrahonk::verification_key::{
    FieldLimbs, G1Commitment, VerifyingKey, VerifyingKeyBarretenberg, AGGREGATION_OBJECT_SIZE,
    PRECOMPUTED_ENTITIES_SIZE, SER_COMPRESSED_SIZE, SER_FULL_SIZE,
};
use co_ultrahonk::HonkProofError;

fn sample_commitment(i: u64) -> G1Commitment {
    G1Commitment {
        x: FieldLimbs { l0: i, l1: i + 1, l2: 0x0102_0304_0506_0708, l3: u64::MAX - i },
        y: FieldLimbs { l0: 7 * i, l1: 0, l2: i << 32, l3: 0xdead_beef },
    }
}

fn sample_key(recursive: bool) -> VerifyingKeyBarretenberg {
    VerifyingKeyBarretenberg {
        circuit_size: 1024,
        log_circuit_size: 10,
        num_public_inputs: 3,
        pub_inputs_offset: 1,
        contains_recursive_proof: recursive,
        recursive_proof_public_input_indices: if recursive {
            (0..AGGREGATION_OBJECT_SIZE as u32).map(|i| 100 + i).collect()
        } else {
            vec![0; AGGREGATION_OBJECT_SIZE]
        },
        commitments: (0..PRECOMPUTED_ENTITIES_SIZE as u64).map(sample_commitment).collect(),
    }
}

fn same(a: &VerifyingKeyBarretenberg, b: &VerifyingKeyBarretenberg) -> bool {
    a.circuit_size == b.circuit_size
        && a.log_circuit_size == b.log_circuit_size
        && a.num_public_inputs == b.num_public_inputs
        && a.pub_inputs_offset == b.pub_inputs_offset
        && a.contains_recursive_proof == b.contains_recursive_proof
        && a.recursive_proof_public_input_indices == b.recursive_proof_public_input_indices
        && a.commitments == b.commitments
}

#[test]
fn encoded_lengths() {
    assert_eq!(SER_FULL_SIZE, 1825);
    assert_eq!(SER_COMPRESSED_SIZE, 1760);
    let vk = sample_key(true);
    assert_eq!(vk.to_buffer().len(), SER_FULL_SIZE);
    assert_eq!(vk.to_buffer_keccak().len(), SER_COMPRESSED_SIZE);
}

#[test]
fn full_layout_is_big_endian() {
    let vk = sample_key(true);
    let buf = vk.to_buffer();
    assert_eq!(&buf[0..8], &[0, 0, 0, 0, 0, 0, 4, 0]);
    assert_eq!(&buf[8..16], &[0, 0, 0, 0, 0, 0, 0, 10]);
    assert_eq!(&buf[16..24], &[0, 0, 0, 0, 0, 0, 0, 3]);
    assert_eq!(&buf[24..32], &[0, 0, 0, 0, 0, 0, 0, 1]);
    assert_eq!(buf[32], 1);
    assert_eq!(&buf[33..37], &[0, 0, 0, 100]);
    // First commitment: x's most significant limb first.
    assert_eq!(&buf[97..105], &u64::MAX.to_be_bytes());
    assert_eq!(&buf[113..121], &[0, 0, 0, 0, 0, 0, 0, 1]);
    assert_eq!(&buf[121..129], &[0, 0, 0, 0, 0, 0, 0, 0]);
    assert_eq!(&buf[129..137], &[0, 0, 0, 0, 0xde, 0xad, 0xbe, 0xef]);
}

#[test]
fn compressed_layout_skips_recursive_section() {
    let vk = sample_key(true);
    let full = vk.to_buffer();
    let compressed = vk.to_buffer_keccak();
    assert_eq!(&compressed[0..32], &full[0..32]);
    assert_eq!(&compressed[32..], &full[97..]);
}

#[test]
fn full_round_trip() {
    let vk = sample_key(true);
    let back = VerifyingKeyBarretenberg::from_buffer(&vk.to_buffer()).unwrap();
    assert!(same(&vk, &back));
}

#[test]
fn compressed_round_trip() {
    let vk = sample_key(false);
    let back = VerifyingKeyBarretenberg::from_buffer(&vk.to_buffer_keccak()).unwrap();
    assert!(same(&vk, &back));
}

#[test]
fn compressed_encoding_drops_recursive_section() {
    let vk = sample_key(true);
    let back = VerifyingKeyBarretenberg::from_buffer(&vk.to_buffer_keccak()).unwrap();
    assert!(!back.contains_recursive_proof);
    assert_eq!(back.recursive_proof_public_input_indices, vec![0; AGGREGATION_OBJECT_SIZE]);
    assert_eq!(back.commitments, vk.commitments);
}

#[test]
fn other_lengths_are_invalid() {
    let vk = sample_key(true);
    let mut buf = vk.to_buffer();
    buf.push(0);
    assert_eq!(
        VerifyingKeyBarretenberg::from_buffer(&buf).err(),
        Some(HonkProofError::InvalidKeyLength)
    );
    assert_eq!(
        VerifyingKeyBarretenberg::from_buffer(&[]).err(),
        Some(HonkProofError::InvalidKeyLength)
    );
    assert_eq!(
        VerifyingKeyBarretenberg::from_buffer(&buf[..SER_COMPRESSED_SIZE - 1]).err(),
        Some(HonkProofError::InvalidKeyLength)
    );
}

#[test]
fn wrong_log_is_corrupted() {
    let mut vk = sample_key(true);
    vk.log_circuit_size = 9;
    assert_eq!(
        VerifyingKeyBarretenberg::from_buffer(&vk.to_buffer()).err(),
        Some(HonkProofError::CorruptedKey)
    );
    assert_eq!(
        VerifyingKeyBarretenberg::from_buffer(&vk.to_buffer_keccak()).err(),
        Some(HonkProofError::CorruptedKey)
    );
}

#[test]
fn non_power_circuit_size_uses_floor_log() {
    let mut vk = sample_key(true);
    vk.circuit_size = 1500;
    assert!(VerifyingKeyBarretenberg::from_buffer(&vk.to_buffer()).is_ok());
    vk.log_circuit_size = 11;
    assert_eq!(
        VerifyingKeyBarretenberg::from_buffer(&vk.to_buffer()).err(),
        Some(HonkProofError::CorruptedKey)
    );
}

#[test]
fn zero_circuit_size_is_corrupted() {
    let mut vk = sample_key(false);
    vk.circuit_size = 0;
    vk.log_circuit_size = 0;
    assert_eq!(
        VerifyingKeyBarretenberg::from_buffer(&vk.to_buffer_keccak()).err(),
        Some(HonkProofError::CorruptedKey)
    );
}

#[test]
fn recursive_flag_above_one_is_corrupted() {
    let vk = sample_key(true);
    let mut buf = vk.to_buffer();
    buf[32] = 2;
    assert_eq!(
        VerifyingKeyBarretenberg::from_buffer(&buf).err(),
        Some(HonkProofError::CorruptedKey)
    );
}

#[test]
fn from_barrettenberg_and_crs_keeps_low_bits() {
    let mut bb = sample_key(false);
    bb.circuit_size = (1u64 << 32) + 16;
    bb.num_public_inputs = 5;
    bb.pub_inputs_offset = 2;
    let commitments = bb.commitments.clone();
    let g2 = G2Point(G2Affine::generator());
    let vk = VerifyingKey::from_barrettenberg_and_crs(bb, g2);
    assert_eq!(vk.circuit_size, 16);
    assert_eq!(vk.num_public_inputs, 5);
    assert_eq!(vk.pub_inputs_offset, 2);
    assert_eq!(vk.commitments, commitments);
    assert_eq!(vk.crs.0, G2Affine::generator());
}
