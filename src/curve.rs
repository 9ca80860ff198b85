use crate::verification_key::{FieldLimbs, G1Commitment};
use vstd::prelude::*;

verus! {

// Verus refuses to declare arkworks' curve and field types (their generic
// parameters are bound by arkworks traits it cannot resolve), so each value
// is carried in an opaque newtype of this crate.

/// An element of the BN254 scalar field.
#[verifier::external_body]
pub struct Scalar(pub ark_bn254::Fr);

impl Clone for Scalar {
    fn clone(&self) -> (r: Self)
        ensures
            r == *self,
    {
        *self
    }
}

impl Copy for Scalar {

}

/// An affine point of BN254's G1 group.
#[verifier::external_body]
pub struct G1Point(pub ark_bn254::G1Affine);

impl Clone for G1Point {
    fn clone(&self) -> (r: Self)
        ensures
            r == *self,
    {
        *self
    }
}

impl Copy for G1Point {

}

/// A point of BN254's G1 group in Jacobian coordinates.
#[verifier::external_body]
pub struct G1Jacobian(pub ark_bn254::G1Projective);

/// An affine point of BN254's G2 group.
#[verifier::external_body]
pub struct G2Point(pub ark_bn254::G2Affine);

/// The sum of `scalars[i] * bases[i]` over the shorter of the two sequences.
pub uninterp spec fn msm_of(bases: Seq<G1Point>, scalars: Seq<Scalar>) -> G1Jacobian;

/// The affine form of a point.
pub uninterp spec fn affine_of(p: G1Jacobian) -> G1Point;

/// The canonical coordinates of an affine point ((0, 0) for the point at infinity).
pub uninterp spec fn coordinates_of(p: G1Point) -> G1Commitment;

/// Each non-zero element inverted, zeros kept, in place.
pub uninterp spec fn batch_inverse_of(v: Seq<Scalar>) -> Seq<Scalar>;

/// The scalar with the given integer value.
pub uninterp spec fn scalar_from_u64(v: u64) -> Scalar;

/// The value of a hexadecimal big integer, reduced modulo the scalar field's order.
pub uninterp spec fn hex_scalar_of(s: Seq<char>) -> Scalar;

/// Relies on ark_ec's `VariableBaseMSM::msm_unchecked`: the sum of
/// `scalars[i] * bases[i]` over the shorter of the two slices, a function of
/// the two slices alone.
#[verifier::external_body]
pub(crate) fn msm_unchecked(bases: &[G1Point], scalars: &[Scalar]) -> (r: G1Jacobian)
    ensures
        r == msm_of(bases@, scalars@),
{
    let bases: Vec<ark_bn254::G1Affine> = bases.iter().map(|p| p.0).collect();
    let scalars: Vec<ark_bn254::Fr> = scalars.iter().map(|s| s.0).collect();
    G1Jacobian(<ark_bn254::G1Projective as ark_ec::VariableBaseMSM>::msm_unchecked(
        &bases,
        &scalars,
    ))
}

/// Relies on ark_ec's `From<Projective> for Affine`: normalises a point.
#[verifier::external_body]
pub(crate) fn to_affine(p: &G1Jacobian) -> (r: G1Point)
    ensures
        r == affine_of(*p),
{
    G1Point(ark_bn254::G1Affine::from(p.0))
}

/// Relies on ark_ff's `batch_inversion`: inverts every non-zero element in
/// place and leaves zeros as they are.
#[verifier::external_body]
pub(crate) fn batch_inversion(v: &mut [Scalar])
    ensures
        final(v)@ == batch_inverse_of(old(v)@),
        final(v)@.len() == old(v)@.len(),
{
    let mut inner: Vec<ark_bn254::Fr> = v.iter().map(|s| s.0).collect();
    ark_ff::batch_inversion(&mut inner);
    for (dst, src) in v.iter_mut().zip(inner) {
        dst.0 = src;
    }
}

/// Relies on ark_ff's `From<u64>` for the scalar field.
#[verifier::external_body]
pub(crate) fn scalar_of(v: u64) -> (r: Scalar)
    ensures
        r == scalar_from_u64(v),
{
    Scalar(ark_bn254::Fr::from(v))
}

/// Relies on ark_ff's `PrimeField::into_bigint`: the canonical limbs of each
/// coordinate (the point at infinity has both coordinates zero).
#[verifier::external_body]
pub(crate) fn g1_coordinates(p: &G1Point) -> (r: G1Commitment)
    ensures
        r == coordinates_of(*p),
{
    let x = ark_ff::PrimeField::into_bigint(p.0.x).0;
    let y = ark_ff::PrimeField::into_bigint(p.0.y).0;
    G1Commitment {
        x: FieldLimbs { l0: x[0], l1: x[1], l2: x[2], l3: x[3] },
        y: FieldLimbs { l0: y[0], l1: y[1], l2: y[2], l3: y[3] },
    }
}

#[verifier::external_type_specification]
#[verifier::external_body]
pub struct ExParseBigIntError(num_bigint::ParseBigIntError);

/// A character that a hexadecimal big integer may hold: a digit of either case
/// or the `_` separator.
pub open spec fn is_hex_char(c: char) -> bool {
    ('0' <= c <= '9') || ('a' <= c <= 'f') || ('A' <= c <= 'F') || c == '_'
}

/// The text after one leading `+`, unless a second `+` follows it.
pub open spec fn unsigned_part(s: Seq<char>) -> Seq<char> {
    if s.len() > 0 && s[0] == '+' && !(s.len() > 1 && s[1] == '+') {
        s.drop_first()
    } else {
        s
    }
}

/// The text is a hexadecimal big integer: after an optional `+`, non-empty,
/// not led by `_`, and made of hexadecimal digits and `_`.
pub open spec fn is_hex_biguint(s: Seq<char>) -> bool {
    let t = unsigned_part(s);
    &&& t.len() > 0
    &&& t[0] != '_'
    &&& forall|i: int| 0 <= i < t.len() ==> is_hex_char(#[trigger] t[i])
}

/// Relies on num_bigint's `BigUint::from_str_radix` with radix 16, which
/// succeeds exactly on the texts described by `is_hex_biguint`, and on ark_ff's
/// `From<BigUint>` for the scalar field, which reduces the integer modulo the
/// field order.
#[verifier::external_body]
pub(crate) fn scalar_from_hex(t: &str) -> (r: Result<Scalar, num_bigint::ParseBigIntError>)
    ensures
        r is Ok <==> is_hex_biguint(t@),
        r matches Ok(v) ==> v == hex_scalar_of(t@),
{
    <num_bigint::BigUint as num_traits::Num>::from_str_radix(t, 16).map(|v| Scalar(v.into()))
}

/// The prover's commitment basis: G1 points in monomial order.
pub struct ProverCrs {
    pub monomials: Vec<G1Point>,
}

/// The full reference string: the prover's basis and the verifier's G2 point.
pub struct Crs {
    pub monomials: Vec<G1Point>,
    pub g2_x: G2Point,
}

} // verus!
