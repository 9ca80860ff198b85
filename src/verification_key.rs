use crate::curve::G2Point;
use crate::utils::{log2_floor, Utils};
use crate::HonkProofError;
use vstd::prelude::*;

verus! {

/// Number of public-input indices reserved for a recursive aggregation object.
pub const AGGREGATION_OBJECT_SIZE: usize = 16;

/// Number of precomputed (selector, permutation, table, Lagrange) polynomials.
pub const PRECOMPUTED_ENTITIES_SIZE: usize = 27;

/// Bytes of one serialised base-field element.
pub const FIELDSIZE_BYTES: usize = 32;

/// Length of the full encoding, which carries the recursive-proof section.
pub const SER_FULL_SIZE: usize = 4 * 8 + 1 + AGGREGATION_OBJECT_SIZE * 4
    + PRECOMPUTED_ENTITIES_SIZE * 2 * FIELDSIZE_BYTES;

/// Length of the compressed encoding, without the recursive-proof section.
pub const SER_COMPRESSED_SIZE: usize = SER_FULL_SIZE - 1 - AGGREGATION_OBJECT_SIZE * 4;

/// A base-field element as the four 64-bit limbs of its canonical integer,
/// least significant limb first.
#[derive(Debug, Clone, Copy, PartialEq, Eq, Structural)]
pub struct FieldLimbs {
    pub l0: u64,
    pub l1: u64,
    pub l2: u64,
    pub l3: u64,
}

/// An affine G1 commitment given by its two coordinates.
#[derive(Debug, Clone, Copy, PartialEq, Eq, Structural)]
pub struct G1Commitment {
    pub x: FieldLimbs,
    pub y: FieldLimbs,
}

/// A verifying key: the verifier's G2 point, the circuit's shape and the
/// commitments to its precomputed polynomials.
pub struct VerifyingKey {
    pub crs: G2Point,
    pub circuit_size: u32,
    pub num_public_inputs: u32,
    pub pub_inputs_offset: u32,
    pub commitments: Vec<G1Commitment>,
}

impl VerifyingKey {
    /// Pairs a decoded key with the verifier's G2 point; the sizes are cut to
    /// 32 bits.
    pub fn from_barrettenberg_and_crs(barretenberg_vk: VerifyingKeyBarretenberg, crs: G2Point) -> (r:
        Self)
        ensures
            r.crs == crs,
            r.circuit_size == barretenberg_vk.circuit_size as u32,
            r.num_public_inputs == barretenberg_vk.num_public_inputs as u32,
            r.pub_inputs_offset == barretenberg_vk.pub_inputs_offset as u32,
            r.commitments@ == barretenberg_vk.commitments@,
    {
        VerifyingKey {
            crs,
            circuit_size: barretenberg_vk.circuit_size as u32,
            num_public_inputs: barretenberg_vk.num_public_inputs as u32,
            pub_inputs_offset: barretenberg_vk.pub_inputs_offset as u32,
            commitments: barretenberg_vk.commitments,
        }
    }
}

/// A verifying key in the byte layout shared with the external verifier.
pub struct VerifyingKeyBarretenberg {
    pub circuit_size: u64,
    pub log_circuit_size: u64,
    pub num_public_inputs: u64,
    pub pub_inputs_offset: u64,
    pub contains_recursive_proof: bool,
    pub recursive_proof_public_input_indices: Vec<u32>,
    pub commitments: Vec<G1Commitment>,
}

// ---------------------------------------------------------------------------
// Encoding, as sequences of bytes (all integers big-endian).

pub open spec fn u64_be(v: u64) -> Seq<u8> {
    seq![
        (v >> 56u64) as u8,
        (v >> 48u64) as u8,
        (v >> 40u64) as u8,
        (v >> 32u64) as u8,
        (v >> 24u64) as u8,
        (v >> 16u64) as u8,
        (v >> 8u64) as u8,
        v as u8,
    ]
}

pub open spec fn u32_be(v: u32) -> Seq<u8> {
    seq![(v >> 24u32) as u8, (v >> 16u32) as u8, (v >> 8u32) as u8, v as u8]
}

/// A field element: its most significant limb first.
pub open spec fn field_be(f: FieldLimbs) -> Seq<u8> {
    u64_be(f.l3) + u64_be(f.l2) + u64_be(f.l1) + u64_be(f.l0)
}

/// A point: `x`, then `y`.
pub open spec fn point_be(c: G1Commitment) -> Seq<u8> {
    field_be(c.x) + field_be(c.y)
}

pub open spec fn u32s_be(s: Seq<u32>) -> Seq<u8>
    decreases s.len(),
{
    if s.len() == 0 {
        Seq::empty()
    } else {
        u32s_be(s.drop_last()) + u32_be(s.last())
    }
}

pub open spec fn points_be(s: Seq<G1Commitment>) -> Seq<u8>
    decreases s.len(),
{
    if s.len() == 0 {
        Seq::empty()
    } else {
        points_be(s.drop_last()) + point_be(s.last())
    }
}

// ---------------------------------------------------------------------------
// Decoding, as reads at an offset.

pub open spec fn u64_at(b: Seq<u8>, o: int) -> u64 {
    ((b[o] as u64) << 56u64) | ((b[o + 1] as u64) << 48u64) | ((b[o + 2] as u64) << 40u64) | ((
    b[o + 3] as u64) << 32u64) | ((b[o + 4] as u64) << 24u64) | ((b[o + 5] as u64) << 16u64) | ((
    b[o + 6] as u64) << 8u64) | (b[o + 7] as u64)
}

pub open spec fn u32_at(b: Seq<u8>, o: int) -> u32 {
    ((b[o] as u32) << 24u32) | ((b[o + 1] as u32) << 16u32) | ((b[o + 2] as u32) << 8u32) | (b[o
        + 3] as u32)
}

pub open spec fn field_at(b: Seq<u8>, o: int) -> FieldLimbs {
    FieldLimbs { l3: u64_at(b, o), l2: u64_at(b, o + 8), l1: u64_at(b, o + 16), l0: u64_at(b, o + 24) }
}

pub open spec fn point_at(b: Seq<u8>, o: int) -> G1Commitment {
    G1Commitment { x: field_at(b, o), y: field_at(b, o + 32) }
}

/// Offset of the commitments in an encoding of length `len`.
pub open spec fn commitments_offset(len: int) -> int {
    if len == SER_FULL_SIZE {
        33 + 4 * AGGREGATION_OBJECT_SIZE
    } else {
        32
    }
}

/// The error that decoding `b` yields, if any.
pub open spec fn key_error(b: Seq<u8>) -> Option<HonkProofError> {
    if b.len() != SER_FULL_SIZE && b.len() != SER_COMPRESSED_SIZE {
        Some(HonkProofError::InvalidKeyLength)
    } else if u64_at(b, 0) == 0 || u64_at(b, 8) as nat != log2_floor(u64_at(b, 0) as nat) {
        Some(HonkProofError::CorruptedKey)
    } else if b.len() == SER_FULL_SIZE && b[32] > 1 {
        Some(HonkProofError::CorruptedKey)
    } else {
        None
    }
}

/// `k` is the key that the bytes `b` (of a legal length) describe.
pub open spec fn key_decodes(k: VerifyingKeyBarretenberg, b: Seq<u8>) -> bool {
    let full = b.len() == SER_FULL_SIZE;
    &&& k.circuit_size == u64_at(b, 0)
    &&& k.log_circuit_size == u64_at(b, 8)
    &&& k.num_public_inputs == u64_at(b, 16)
    &&& k.pub_inputs_offset == u64_at(b, 24)
    &&& k.contains_recursive_proof == (full && b[32] == 1)
    &&& k.recursive_proof_public_input_indices@ == Seq::new(
        AGGREGATION_OBJECT_SIZE as nat,
        |i: int|
            if full {
                u32_at(b, 33 + 4 * i)
            } else {
                0u32
            },
    )
    &&& k.commitments@ == Seq::new(
        PRECOMPUTED_ENTITIES_SIZE as nat,
        |i: int| point_at(b, commitments_offset(b.len() as int) + 64 * i),
    )
}

/// Two keys hold the same values in every field.
pub open spec fn same_fields(a: VerifyingKeyBarretenberg, b: VerifyingKeyBarretenberg) -> bool {
    &&& a.circuit_size == b.circuit_size
    &&& a.log_circuit_size == b.log_circuit_size
    &&& a.num_public_inputs == b.num_public_inputs
    &&& a.pub_inputs_offset == b.pub_inputs_offset
    &&& a.contains_recursive_proof == b.contains_recursive_proof
    &&& a.recursive_proof_public_input_indices@ == b.recursive_proof_public_input_indices@
    &&& a.commitments@ == b.commitments@
}

impl VerifyingKeyBarretenberg {
    /// The fixed-size sections have their sizes.
    pub open spec fn wf(&self) -> bool {
        &&& self.recursive_proof_public_input_indices@.len() == AGGREGATION_OBJECT_SIZE
        &&& self.commitments@.len() == PRECOMPUTED_ENTITIES_SIZE
    }

    pub open spec fn header_bytes(&self) -> Seq<u8> {
        u64_be(self.circuit_size) + u64_be(self.log_circuit_size) + u64_be(self.num_public_inputs)
            + u64_be(self.pub_inputs_offset)
    }

    /// The full encoding.
    pub open spec fn full_bytes(&self) -> Seq<u8> {
        self.header_bytes() + seq![
            if self.contains_recursive_proof {
                1u8
            } else {
                0u8
            },
        ] + u32s_be(self.recursive_proof_public_input_indices@) + points_be(self.commitments@)
    }

    /// The compressed encoding.
    pub open spec fn compressed_bytes(&self) -> Seq<u8> {
        self.header_bytes() + points_be(self.commitments@)
    }
}

// ---------------------------------------------------------------------------
// Facts about the encoding.

proof fn lemma_u64_read(b: Seq<u8>, o: int, v: u64)
    requires
        0 <= o,
        o + 8 <= b.len(),
        forall|j: int| 0 <= j < 8 ==> b[o + j] == #[trigger] u64_be(v)[j],
    ensures
        u64_at(b, o) == v,
{
    assert(b[o] == u64_be(v)[0] && b[o + 1] == u64_be(v)[1] && b[o + 2] == u64_be(v)[2] && b[o
        + 3] == u64_be(v)[3]);
    assert(b[o + 4] == u64_be(v)[4] && b[o + 5] == u64_be(v)[5] && b[o + 6] == u64_be(v)[6] && b[o
        + 7] == u64_be(v)[7]);
    assert(((((v >> 56u64) as u8) as u64) << 56u64) | ((((v >> 48u64) as u8) as u64) << 48u64) | ((
    ((v >> 40u64) as u8) as u64) << 40u64) | ((((v >> 32u64) as u8) as u64) << 32u64) | ((((v
        >> 24u64) as u8) as u64) << 24u64) | ((((v >> 16u64) as u8) as u64) << 16u64) | ((((v
        >> 8u64) as u8) as u64) << 8u64) | ((v as u8) as u64) == v) by (bit_vector);
}

proof fn lemma_u32_read(b: Seq<u8>, o: int, v: u32)
    requires
        0 <= o,
        o + 4 <= b.len(),
        forall|j: int| 0 <= j < 4 ==> b[o + j] == #[trigger] u32_be(v)[j],
    ensures
        u32_at(b, o) == v,
{
    assert(b[o] == u32_be(v)[0] && b[o + 1] == u32_be(v)[1] && b[o + 2] == u32_be(v)[2] && b[o
        + 3] == u32_be(v)[3]);
    assert(((((v >> 24u32) as u8) as u32) << 24u32) | ((((v >> 16u32) as u8) as u32) << 16u32) | ((
    ((v >> 8u32) as u8) as u32) << 8u32) | ((v as u8) as u32) == v) by (bit_vector);
}

proof fn lemma_point_read(b: Seq<u8>, o: int, c: G1Commitment)
    requires
        0 <= o,
        o + 64 <= b.len(),
        forall|j: int| 0 <= j < 64 ==> b[o + j] == #[trigger] point_be(c)[j],
    ensures
        point_at(b, o) == c,
{
    let p = point_be(c);
    assert forall|j: int| 0 <= j < 8 implies b[o + j] == #[trigger] u64_be(c.x.l3)[j] by {
        assert(b[o + (0 + j)] == p[0 + j]);
    }
    lemma_u64_read(b, o, c.x.l3);
    assert forall|j: int| 0 <= j < 8 implies b[o + 8 + j] == #[trigger] u64_be(c.x.l2)[j] by {
        assert(b[o + (8 + j)] == p[8 + j]);
    }
    lemma_u64_read(b, o + 8, c.x.l2);
    assert forall|j: int| 0 <= j < 8 implies b[o + 16 + j] == #[trigger] u64_be(c.x.l1)[j] by {
        assert(b[o + (16 + j)] == p[16 + j]);
    }
    lemma_u64_read(b, o + 16, c.x.l1);
    assert forall|j: int| 0 <= j < 8 implies b[o + 24 + j] == #[trigger] u64_be(c.x.l0)[j] by {
        assert(b[o + (24 + j)] == p[24 + j]);
    }
    lemma_u64_read(b, o + 24, c.x.l0);
    assert forall|j: int| 0 <= j < 8 implies b[o + 32 + j] == #[trigger] u64_be(c.y.l3)[j] by {
        assert(b[o + (32 + j)] == p[32 + j]);
    }
    lemma_u64_read(b, o + 32, c.y.l3);
    assert forall|j: int| 0 <= j < 8 implies b[o + 40 + j] == #[trigger] u64_be(c.y.l2)[j] by {
        assert(b[o + (40 + j)] == p[40 + j]);
    }
    lemma_u64_read(b, o + 40, c.y.l2);
    assert forall|j: int| 0 <= j < 8 implies b[o + 48 + j] == #[trigger] u64_be(c.y.l1)[j] by {
        assert(b[o + (48 + j)] == p[48 + j]);
    }
    lemma_u64_read(b, o + 48, c.y.l1);
    assert forall|j: int| 0 <= j < 8 implies b[o + 56 + j] == #[trigger] u64_be(c.y.l0)[j] by {
        assert(b[o + (56 + j)] == p[56 + j]);
    }
    lemma_u64_read(b, o + 56, c.y.l0);
}

proof fn lemma_u32s_be(s: Seq<u32>)
    ensures
        u32s_be(s).len() == 4 * s.len(),
        forall|i: int, j: int|
            0 <= i < s.len() && 0 <= j < 4 ==> u32s_be(s)[4 * i + j] == #[trigger] u32_be(s[i])[j],
    decreases s.len(),
{
    if s.len() > 0 {
        let init = s.drop_last();
        lemma_u32s_be(init);
        let p = u32s_be(init);
        let q = u32_be(s.last());
        assert(u32s_be(s) == p + q);
        assert(q.len() == 4);
        assert forall|i: int, j: int| 0 <= i < s.len() && 0 <= j < 4 implies u32s_be(s)[4 * i
            + j] == #[trigger] u32_be(s[i])[j] by {
            if i < s.len() - 1 {
                assert(init[i] == s[i]);
                assert(p[4 * i + j] == u32_be(init[i])[j]);
                assert((p + q)[4 * i + j] == p[4 * i + j]);
            } else {
                assert((p + q)[4 * i + j] == q[j]);
            }
        }
    }
}

proof fn lemma_points_be(s: Seq<G1Commitment>)
    ensures
        points_be(s).len() == 64 * s.len(),
        forall|i: int, j: int|
            0 <= i < s.len() && 0 <= j < 64 ==> points_be(s)[64 * i + j] == #[trigger] point_be(
                s[i],
            )[j],
    decreases s.len(),
{
    if s.len() > 0 {
        let init = s.drop_last();
        lemma_points_be(init);
        let p = points_be(init);
        let q = point_be(s.last());
        assert(points_be(s) == p + q);
        assert(q.len() == 64);
        assert forall|i: int, j: int| 0 <= i < s.len() && 0 <= j < 64 implies points_be(s)[64 * i
            + j] == #[trigger] point_be(s[i])[j] by {
            if i < s.len() - 1 {
                assert(init[i] == s[i]);
                assert(p[64 * i + j] == point_be(init[i])[j]);
                assert((p + q)[64 * i + j] == p[64 * i + j]);
            } else {
                assert((p + q)[64 * i + j] == q[j]);
            }
        }
    }
}

/// The commitments encoded from offset `o` of `b` read back as `s`.
proof fn lemma_points_read(b: Seq<u8>, o: int, s: Seq<G1Commitment>)
    requires
        0 <= o,
        o + 64 * s.len() <= b.len(),
        forall|k: int| 0 <= k < 64 * s.len() ==> b[o + k] == #[trigger] points_be(s)[k],
    ensures
        Seq::new(s.len(), |i: int| point_at(b, o + 64 * i)) == s,
{
    lemma_points_be(s);
    assert forall|i: int| 0 <= i < s.len() implies point_at(b, o + 64 * i) == #[trigger] s[i] by {
        assert forall|j: int| 0 <= j < 64 implies b[o + 64 * i + j] == #[trigger] point_be(s[i])[j] by {
            assert(points_be(s)[64 * i + j] == point_be(s[i])[j]);
            assert(b[o + (64 * i + j)] == points_be(s)[64 * i + j]);
        }
        lemma_point_read(b, o + 64 * i, s[i]);
    }
    assert(Seq::new(s.len(), |i: int| point_at(b, o + 64 * i)) =~= s);
}

/// The indices encoded from offset `o` of `b` read back as `s`.
proof fn lemma_u32s_read(b: Seq<u8>, o: int, s: Seq<u32>)
    requires
        0 <= o,
        o + 4 * s.len() <= b.len(),
        forall|k: int| 0 <= k < 4 * s.len() ==> b[o + k] == #[trigger] u32s_be(s)[k],
    ensures
        Seq::new(s.len(), |i: int| u32_at(b, o + 4 * i)) == s,
{
    lemma_u32s_be(s);
    assert forall|i: int| 0 <= i < s.len() implies u32_at(b, o + 4 * i) == #[trigger] s[i] by {
        assert forall|j: int| 0 <= j < 4 implies b[o + 4 * i + j] == #[trigger] u32_be(s[i])[j] by {
            assert(u32s_be(s)[4 * i + j] == u32_be(s[i])[j]);
            assert(b[o + (4 * i + j)] == u32s_be(s)[4 * i + j]);
        }
        lemma_u32_read(b, o + 4 * i, s[i]);
    }
    assert(Seq::new(s.len(), |i: int| u32_at(b, o + 4 * i)) =~= s);
}

proof fn lemma_header_read(vk: VerifyingKeyBarretenberg, b: Seq<u8>)
    requires
        b.len() >= 32,
        forall|k: int| 0 <= k < 32 ==> b[k] == #[trigger] vk.header_bytes()[k],
    ensures
        u64_at(b, 0) == vk.circuit_size,
        u64_at(b, 8) == vk.log_circuit_size,
        u64_at(b, 16) == vk.num_public_inputs,
        u64_at(b, 24) == vk.pub_inputs_offset,
{
    let h = vk.header_bytes();
    assert forall|j: int| 0 <= j < 8 implies b[j] == #[trigger] u64_be(vk.circuit_size)[j] by {
        assert(b[j] == h[j]);
    }
    lemma_u64_read(b, 0, vk.circuit_size);
    assert forall|j: int| 0 <= j < 8 implies b[8 + j] == #[trigger] u64_be(vk.log_circuit_size)[j] by {
        assert(b[8 + j] == h[8 + j]);
    }
    lemma_u64_read(b, 8, vk.log_circuit_size);
    assert forall|j: int| 0 <= j < 8 implies b[16 + j] == #[trigger] u64_be(vk.num_public_inputs)[j] by {
        assert(b[16 + j] == h[16 + j]);
    }
    lemma_u64_read(b, 16, vk.num_public_inputs);
    assert forall|j: int| 0 <= j < 8 implies b[24 + j] == #[trigger] u64_be(vk.pub_inputs_offset)[j] by {
        assert(b[24 + j] == h[24 + j]);
    }
    lemma_u64_read(b, 24, vk.pub_inputs_offset);
}

// ---------------------------------------------------------------------------
// Writers and readers.

fn write_u64(buf: &mut Vec<u8>, v: u64)
    ensures
        final(buf)@ == old(buf)@ + u64_be(v),
{
    buf.push((v >> 56u64) as u8);
    buf.push((v >> 48u64) as u8);
    buf.push((v >> 40u64) as u8);
    buf.push((v >> 32u64) as u8);
    buf.push((v >> 24u64) as u8);
    buf.push((v >> 16u64) as u8);
    buf.push((v >> 8u64) as u8);
    buf.push(v as u8);
    assert(buf@ =~= old(buf)@ + u64_be(v));
}

fn write_u32(buf: &mut Vec<u8>, v: u32)
    ensures
        final(buf)@ == old(buf)@ + u32_be(v),
{
    buf.push((v >> 24u32) as u8);
    buf.push((v >> 16u32) as u8);
    buf.push((v >> 8u32) as u8);
    buf.push(v as u8);
    assert(buf@ =~= old(buf)@ + u32_be(v));
}

fn write_g1_element(buf: &mut Vec<u8>, c: &G1Commitment)
    ensures
        final(buf)@ == old(buf)@ + point_be(*c),
{
    write_u64(buf, c.x.l3);
    write_u64(buf, c.x.l2);
    write_u64(buf, c.x.l1);
    write_u64(buf, c.x.l0);
    write_u64(buf, c.y.l3);
    write_u64(buf, c.y.l2);
    write_u64(buf, c.y.l1);
    write_u64(buf, c.y.l0);
    assert(buf@ =~= old(buf)@ + point_be(*c));
}

fn write_commitments(buf: &mut Vec<u8>, commitments: &Vec<G1Commitment>)
    ensures
        final(buf)@ == old(buf)@ + points_be(commitments@),
{
    let mut i: usize = 0;
    while i < commitments.len()
        invariant
            i <= commitments@.len(),
            buf@ == old(buf)@ + points_be(commitments@.subrange(0, i as int)),
        decreases commitments@.len() - i,
    {
        write_g1_element(buf, &commitments[i]);
        proof {
            let next = commitments@.subrange(0, i + 1);
            assert(next.drop_last() =~= commitments@.subrange(0, i as int));
            assert(buf@ =~= old(buf)@ + points_be(next));
        }
        i = i + 1;
    }
    assert(commitments@.subrange(0, i as int) =~= commitments@);
}

fn read_u64(buf: &[u8], offset: &mut usize) -> (r: u64)
    requires
        *old(offset) + 8 <= buf@.len(),
    ensures
        r == u64_at(buf@, *old(offset) as int),
        *final(offset) == *old(offset) + 8,
{
    let o = *offset;
    let r = ((buf[o] as u64) << 56u64) | ((buf[o + 1] as u64) << 48u64) | ((buf[o + 2] as u64)
        << 40u64) | ((buf[o + 3] as u64) << 32u64) | ((buf[o + 4] as u64) << 24u64) | ((buf[o
        + 5] as u64) << 16u64) | ((buf[o + 6] as u64) << 8u64) | (buf[o + 7] as u64);
    *offset = o + 8;
    r
}

fn read_u32(buf: &[u8], offset: &mut usize) -> (r: u32)
    requires
        *old(offset) + 4 <= buf@.len(),
    ensures
        r == u32_at(buf@, *old(offset) as int),
        *final(offset) == *old(offset) + 4,
{
    let o = *offset;
    let r = ((buf[o] as u32) << 24u32) | ((buf[o + 1] as u32) << 16u32) | ((buf[o + 2] as u32)
        << 8u32) | (buf[o + 3] as u32);
    *offset = o + 4;
    r
}

fn read_g1_element(buf: &[u8], offset: &mut usize) -> (r: G1Commitment)
    requires
        *old(offset) + 64 <= buf@.len(),
    ensures
        r == point_at(buf@, *old(offset) as int),
        *final(offset) == *old(offset) + 64,
{
    let x3 = read_u64(buf, offset);
    let x2 = read_u64(buf, offset);
    let x1 = read_u64(buf, offset);
    let x0 = read_u64(buf, offset);
    let y3 = read_u64(buf, offset);
    let y2 = read_u64(buf, offset);
    let y1 = read_u64(buf, offset);
    let y0 = read_u64(buf, offset);
    G1Commitment {
        x: FieldLimbs { l0: x0, l1: x1, l2: x2, l3: x3 },
        y: FieldLimbs { l0: y0, l1: y1, l2: y2, l3: y3 },
    }
}

impl VerifyingKeyBarretenberg {
    /// Serialises the key in the full layout: header, recursive-proof flag and
    /// indices, then the commitments.
    pub fn to_buffer(&self) -> (r: Vec<u8>)
        requires
            self.wf(),
        ensures
            r@ == self.full_bytes(),
            r@.len() == SER_FULL_SIZE,
    {
        let mut buffer: Vec<u8> = Vec::with_capacity(SER_FULL_SIZE);
        write_u64(&mut buffer, self.circuit_size);
        write_u64(&mut buffer, self.log_circuit_size);
        write_u64(&mut buffer, self.num_public_inputs);
        write_u64(&mut buffer, self.pub_inputs_offset);
        let flag: u8 = if self.contains_recursive_proof {
            1
        } else {
            0
        };
        buffer.push(flag);
        let ghost prefix = buffer@;
        assert(prefix =~= self.header_bytes() + seq![flag]);
        let indices = &self.recursive_proof_public_input_indices;
        let mut i: usize = 0;
        while i < indices.len()
            invariant
                i <= indices@.len(),
                buffer@ == prefix + u32s_be(indices@.subrange(0, i as int)),
            decreases indices@.len() - i,
        {
            write_u32(&mut buffer, indices[i]);
            proof {
                let next = indices@.subrange(0, i + 1);
                assert(next.drop_last() =~= indices@.subrange(0, i as int));
                assert(buffer@ =~= prefix + u32s_be(next));
            }
            i = i + 1;
        }
        assert(indices@.subrange(0, i as int) =~= indices@);
        write_commitments(&mut buffer, &self.commitments);
        proof {
            lemma_u32s_be(indices@);
            lemma_points_be(self.commitments@);
        }
        buffer
    }

    /// Serialises the key in the compressed layout: header, then the commitments.
    pub fn to_buffer_keccak(&self) -> (r: Vec<u8>)
        requires
            self.wf(),
        ensures
            r@ == self.compressed_bytes(),
            r@.len() == SER_COMPRESSED_SIZE,
    {
        let mut buffer: Vec<u8> = Vec::with_capacity(SER_COMPRESSED_SIZE);
        write_u64(&mut buffer, self.circuit_size);
        write_u64(&mut buffer, self.log_circuit_size);
        write_u64(&mut buffer, self.num_public_inputs);
        write_u64(&mut buffer, self.pub_inputs_offset);
        write_commitments(&mut buffer, &self.commitments);
        proof {
            lemma_points_be(self.commitments@);
        }
        buffer
    }

    /// Reads a key from either layout, telling them apart by length.
    pub fn from_buffer(buf: &[u8]) -> (r: Result<Self, HonkProofError>)
        ensures
            match r {
                Ok(k) => key_error(buf@) is None && key_decodes(k, buf@) && k.wf(),
                Err(e) => key_error(buf@) == Some(e),
            },
    {
        let size = buf.len();
        if size != SER_FULL_SIZE && size != SER_COMPRESSED_SIZE {
            return Err(HonkProofError::InvalidKeyLength);
        }
        let mut offset: usize = 0;
        let circuit_size = read_u64(buf, &mut offset);
        let log_circuit_size = read_u64(buf, &mut offset);
        if circuit_size == 0 || log_circuit_size != Utils::get_msb64(circuit_size) as u64 {
            return Err(HonkProofError::CorruptedKey);
        }
        let num_public_inputs = read_u64(buf, &mut offset);
        let pub_inputs_offset = read_u64(buf, &mut offset);

        let full = size == SER_FULL_SIZE;
        let mut contains_recursive_proof = false;
        let mut indices: Vec<u32> = Vec::with_capacity(AGGREGATION_OBJECT_SIZE);
        if full {
            let flag = buf[offset];
            offset = offset + 1;
            if flag > 1 {
                return Err(HonkProofError::CorruptedKey);
            }
            contains_recursive_proof = flag == 1;
            let mut i: usize = 0;
            while i < AGGREGATION_OBJECT_SIZE
                invariant
                    size == buf@.len() == SER_FULL_SIZE,
                    i <= AGGREGATION_OBJECT_SIZE,
                    offset == 33 + 4 * i,
                    indices@ == Seq::new(i as nat, |j: int| u32_at(buf@, 33 + 4 * j)),
                decreases AGGREGATION_OBJECT_SIZE - i,
            {
                let v = read_u32(buf, &mut offset);
                indices.push(v);
                assert(indices@ =~= Seq::new((i + 1) as nat, |j: int| u32_at(buf@, 33 + 4 * j)));
                i = i + 1;
            }
        } else {
            let mut i: usize = 0;
            while i < AGGREGATION_OBJECT_SIZE
                invariant
                    i <= AGGREGATION_OBJECT_SIZE,
                    indices@ == Seq::new(i as nat, |j: int| 0u32),
                decreases AGGREGATION_OBJECT_SIZE - i,
            {
                indices.push(0u32);
                assert(indices@ =~= Seq::new((i + 1) as nat, |j: int| 0u32));
                i = i + 1;
            }
        }
        let ghost c_off = commitments_offset(size as int);
        assert(offset == c_off);
        let mut commitments: Vec<G1Commitment> = Vec::with_capacity(PRECOMPUTED_ENTITIES_SIZE);
        let mut i: usize = 0;
        while i < PRECOMPUTED_ENTITIES_SIZE
            invariant
                size == buf@.len(),
                size == SER_FULL_SIZE || size == SER_COMPRESSED_SIZE,
                c_off == commitments_offset(size as int),
                i <= PRECOMPUTED_ENTITIES_SIZE,
                offset == c_off + 64 * i,
                commitments@ == Seq::new(i as nat, |j: int| point_at(buf@, c_off + 64 * j)),
            decreases PRECOMPUTED_ENTITIES_SIZE - i,
        {
            let c = read_g1_element(buf, &mut offset);
            commitments.push(c);
            assert(commitments@ =~= Seq::new(
                (i + 1) as nat,
                |j: int| point_at(buf@, c_off + 64 * j),
            ));
            i = i + 1;
        }
        assert(indices@ =~= Seq::new(
            AGGREGATION_OBJECT_SIZE as nat,
            |j: int|
                if full {
                    u32_at(buf@, 33 + 4 * j)
                } else {
                    0u32
                },
        ));
        Ok(VerifyingKeyBarretenberg {
            circuit_size,
            log_circuit_size,
            num_public_inputs,
            pub_inputs_offset,
            contains_recursive_proof,
            recursive_proof_public_input_indices: indices,
            commitments,
        })
    }
}

// ---------------------------------------------------------------------------
// Laws of the encoding.

proof fn lemma_full_parts(vk: VerifyingKeyBarretenberg)
    requires
        u32s_be(vk.recursive_proof_public_input_indices@).len() == 64,
        points_be(vk.commitments@).len() == 64 * PRECOMPUTED_ENTITIES_SIZE,
    ensures
        vk.full_bytes().len() == SER_FULL_SIZE,
        forall|k: int| 0 <= k < 32 ==> vk.full_bytes()[k] == #[trigger] vk.header_bytes()[k],
        vk.full_bytes()[32] == (if vk.contains_recursive_proof {
            1u8
        } else {
            0u8
        }),
        forall|k: int|
            0 <= k < 64 ==> vk.full_bytes()[33 + k] == #[trigger] u32s_be(
                vk.recursive_proof_public_input_indices@,
            )[k],
        forall|k: int|
            0 <= k < 64 * PRECOMPUTED_ENTITIES_SIZE ==> vk.full_bytes()[97 + k]
                == #[trigger] points_be(vk.commitments@)[k],
{
    let h = vk.header_bytes();
    let f = seq![
        if vk.contains_recursive_proof {
            1u8
        } else {
            0u8
        },
    ];
    let u = u32s_be(vk.recursive_proof_public_input_indices@);
    let p = points_be(vk.commitments@);
    let b = vk.full_bytes();
    assert(b == h + f + u + p);
    assert(h.len() == 32);
    assert forall|k: int| 0 <= k < 32 implies b[k] == #[trigger] h[k] by {
        assert((h + f + u)[k] == h[k]);
    }
    assert forall|k: int| 0 <= k < 64 implies b[33 + k] == #[trigger] u[k] by {
        assert((h + f + u)[33 + k] == u[k]);
    }
    assert forall|k: int| 0 <= k < 64 * PRECOMPUTED_ENTITIES_SIZE implies b[97 + k]
        == #[trigger] p[k] by {}
    assert((h + f + u)[32] == f[0]);
}

proof fn lemma_compressed_parts(vk: VerifyingKeyBarretenberg)
    requires
        points_be(vk.commitments@).len() == 64 * PRECOMPUTED_ENTITIES_SIZE,
    ensures
        vk.compressed_bytes().len() == SER_COMPRESSED_SIZE,
        forall|k: int| 0 <= k < 32 ==> vk.compressed_bytes()[k] == #[trigger] vk.header_bytes()[k],
        forall|k: int|
            0 <= k < 64 * PRECOMPUTED_ENTITIES_SIZE ==> vk.compressed_bytes()[32 + k]
                == #[trigger] points_be(vk.commitments@)[k],
{
    let h = vk.header_bytes();
    assert(h.len() == 32);
}

/// Decoding the full encoding of a key whose logarithm matches its circuit size
/// succeeds, and every key it can yield holds the same fields as `vk`.
pub proof fn lemma_full_round_trip(vk: VerifyingKeyBarretenberg)
    requires
        vk.wf(),
        vk.circuit_size > 0,
        vk.log_circuit_size as nat == log2_floor(vk.circuit_size as nat),
    ensures
        key_error(vk.full_bytes()) is None,
        key_decodes(vk, vk.full_bytes()),
        forall|k: VerifyingKeyBarretenberg| #[trigger]
            key_decodes(k, vk.full_bytes()) ==> same_fields(k, vk),
{
    let b = vk.full_bytes();
    let idx = vk.recursive_proof_public_input_indices@;
    let cs = vk.commitments@;
    assert(u32s_be(idx).len() == 64) by {
        lemma_u32s_be(idx);
    }
    assert(points_be(cs).len() == 64 * PRECOMPUTED_ENTITIES_SIZE) by {
        lemma_points_be(cs);
    }
    lemma_full_parts(vk);
    lemma_header_read(vk, b);
    assert(Seq::new(idx.len(), |i: int| u32_at(b, 33 + 4 * i)) == idx) by {
        lemma_u32s_read(b, 33, idx);
    }
    assert(Seq::new(cs.len(), |i: int| point_at(b, 97 + 64 * i)) == cs) by {
        lemma_points_read(b, 97, cs);
    }
    assert(idx =~= Seq::new(AGGREGATION_OBJECT_SIZE as nat, |i: int| u32_at(b, 33 + 4 * i)));
    assert(commitments_offset(b.len() as int) == 97);
    assert(cs =~= Seq::new(
        PRECOMPUTED_ENTITIES_SIZE as nat,
        |i: int| point_at(b, commitments_offset(b.len() as int) + 64 * i),
    ));
    assert(idx =~= Seq::new(
        AGGREGATION_OBJECT_SIZE as nat,
        |i: int|
            if b.len() == SER_FULL_SIZE {
                u32_at(b, 33 + 4 * i)
            } else {
                0u32
            },
    ));
    assert(key_error(b) is None);
    assert(key_decodes(vk, b));
}

/// Decoding the compressed encoding of a key whose logarithm matches its circuit
/// size, and which has no recursive-proof section to lose, gives back its fields.
pub proof fn lemma_compressed_round_trip(vk: VerifyingKeyBarretenberg)
    requires
        vk.wf(),
        vk.circuit_size > 0,
        vk.log_circuit_size as nat == log2_floor(vk.circuit_size as nat),
        !vk.contains_recursive_proof,
        forall|i: int|
            0 <= i < AGGREGATION_OBJECT_SIZE ==> #[trigger] vk.recursive_proof_public_input_indices@[i]
                == 0,
    ensures
        key_error(vk.compressed_bytes()) is None,
        key_decodes(vk, vk.compressed_bytes()),
        forall|k: VerifyingKeyBarretenberg| #[trigger]
            key_decodes(k, vk.compressed_bytes()) ==> same_fields(k, vk),
{
    let b = vk.compressed_bytes();
    let cs = vk.commitments@;
    assert(points_be(cs).len() == 64 * PRECOMPUTED_ENTITIES_SIZE) by {
        lemma_points_be(cs);
    }
    lemma_compressed_parts(vk);
    lemma_header_read(vk, b);
    assert(Seq::new(cs.len(), |i: int| point_at(b, 32 + 64 * i)) == cs) by {
        lemma_points_read(b, 32, cs);
    }
    assert(commitments_offset(b.len() as int) == 32);
    assert(cs =~= Seq::new(
        PRECOMPUTED_ENTITIES_SIZE as nat,
        |i: int| point_at(b, commitments_offset(b.len() as int) + 64 * i),
    ));
    assert(vk.recursive_proof_public_input_indices@ =~= Seq::new(
        AGGREGATION_OBJECT_SIZE as nat,
        |i: int|
            if b.len() == SER_FULL_SIZE {
                u32_at(b, 33 + 4 * i)
            } else {
                0u32
            },
    ));
    assert(key_error(b) is None);
    assert(key_decodes(vk, b));
}

/// A key whose logarithm field disagrees with its circuit size is refused as
/// corrupted, in either encoding.
pub proof fn lemma_wrong_log_is_corrupted(vk: VerifyingKeyBarretenberg)
    requires
        vk.wf(),
        vk.log_circuit_size as nat != log2_floor(vk.circuit_size as nat),
    ensures
        key_error(vk.full_bytes()) == Some(HonkProofError::CorruptedKey),
        key_error(vk.compressed_bytes()) == Some(HonkProofError::CorruptedKey),
{
    let b = vk.full_bytes();
    let c = vk.compressed_bytes();
    lemma_u32s_be(vk.recursive_proof_public_input_indices@);
    lemma_points_be(vk.commitments@);
    lemma_header_read(vk, b);
    lemma_header_read(vk, c);
}

/// A buffer of any length other than the two legal ones is refused for its length.
pub proof fn lemma_bad_length(b: Seq<u8>)
    requires
        b.len() != SER_FULL_SIZE,
        b.len() != SER_COMPRESSED_SIZE,
    ensures
        key_error(b) == Some(HonkProofError::InvalidKeyLength),
{
}

} // verus!
