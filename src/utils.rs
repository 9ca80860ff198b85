use vstd::arithmetic::power2::{lemma2_to64, lemma_pow2_pos, lemma_pow2_unfold, pow2};
use crate::curve::{
    batch_inverse_of, batch_inversion, hex_scalar_of, is_hex_biguint, msm_of, msm_unchecked,
    scalar_from_hex, G1Jacobian, G1Point, ProverCrs, Scalar,
};
use vstd::string::StrSliceExecFns;
use crate::HonkProofError;
use vstd::prelude::*;

verus! {

/// Floor of the base-two logarithm of a positive number (0 for 0 and 1).
pub open spec fn log2_floor(n: nat) -> nat
    decreases n,
{
    if n <= 1 {
        0
    } else {
        1 + log2_floor(n / 2)
    }
}

/// `n` is a power of two.
pub open spec fn is_power_of_two(n: nat) -> bool {
    exists|k: nat| pow2(k) == n
}

/// The smallest power of two that is at least `n`, for `n >= 1`.
pub open spec fn next_power_of_two(n: nat) -> nat {
    if pow2(log2_floor(n)) == n {
        n
    } else {
        2 * pow2(log2_floor(n))
    }
}

/// `2^log2_floor(n) <= n < 2^(log2_floor(n) + 1)` for every positive `n`.
pub proof fn lemma_log2_floor_bounds(n: nat)
    requires
        n >= 1,
    ensures
        pow2(log2_floor(n)) <= n < pow2(log2_floor(n) + 1),
    decreases n,
{
    if n <= 1 {
        lemma2_to64();
    } else {
        lemma_log2_floor_bounds(n / 2);
        lemma_pow2_unfold(log2_floor(n / 2) + 1);
        lemma_pow2_unfold(log2_floor(n / 2) + 2);
    }
}

/// A number below `2^k` has a logarithm below `k`.
pub proof fn lemma_log2_floor_below(n: nat, k: nat)
    requires
        1 <= n < pow2(k),
    ensures
        log2_floor(n) < k,
{
    lemma_log2_floor_bounds(n);
    if log2_floor(n) >= k {
        vstd::arithmetic::power2::lemma_pow2_adds(k, (log2_floor(n) - k) as nat);
        lemma_pow2_pos((log2_floor(n) - k) as nat);
        assert(pow2(k) <= pow2(k) * pow2((log2_floor(n) - k) as nat)) by (nonlinear_arith)
            requires
                pow2((log2_floor(n) - k) as nat) >= 1,
        ;
    }
}

/// The text without a leading `0x`, if it has one.
pub open spec fn without_hex_prefix(s: Seq<char>) -> Seq<char> {
    if s.len() >= 2 && s[0] == '0' && s[1] == 'x' {
        s.subrange(2, s.len() as int)
    } else {
        s
    }
}

/// A leading `0x` is optional: text that does not start with it reads the same
/// with it prepended.
pub proof fn lemma_hex_prefix_optional(t: Seq<char>)
    requires
        !(t.len() >= 2 && t[0] == '0' && t[1] == 'x'),
    ensures
        without_hex_prefix(seq!['0', 'x'] + t) == without_hex_prefix(t),
{
    let p = seq!['0', 'x'] + t;
    assert(p[0] == '0' && p[1] == 'x');
    assert(p.subrange(2, p.len() as int) =~= t);
}

/// Helpers on circuit sizes and bit positions.
pub struct Utils {}

impl Utils {
    /// Reads a scalar from hexadecimal text, with or without a `0x` prefix; the
    /// value is reduced modulo the field order.
    pub fn field_from_hex_string(s: &str) -> (r: Result<Scalar, HonkProofError>)
        ensures
            r is Ok <==> is_hex_biguint(without_hex_prefix(s@)),
            r matches Ok(v) ==> v == hex_scalar_of(without_hex_prefix(s@)),
            r is Err ==> r == Err::<Scalar, HonkProofError>(HonkProofError::InvalidHexString),
    {
        let len = s.unicode_len();
        let digits = if len >= 2 && s.get_char(0) == '0' && s.get_char(1) == 'x' {
            s.substring_char(2, len)
        } else {
            s
        };
        match scalar_from_hex(digits) {
            Ok(v) => Ok(v),
            Err(_) => Err(HonkProofError::InvalidHexString),
        }
    }

    /// Inverts every non-zero scalar in place; zeros stay zero.
    pub fn batch_invert(coeffs: &mut [Scalar])
        ensures
            final(coeffs)@ == batch_inverse_of(old(coeffs)@),
            final(coeffs)@.len() == old(coeffs)@.len(),
    {
        batch_inversion(coeffs);
    }

    /// Commits to a polynomial's coefficients against the prover's basis.
    pub fn commit(poly: &[Scalar], crs: &ProverCrs) -> (r: Result<G1Jacobian, HonkProofError>)
        ensures
            r is Err <==> poly@.len() > crs.monomials@.len(),
            r is Err ==> r == Err::<G1Jacobian, HonkProofError>(HonkProofError::CrsTooSmall),
            r is Ok ==> r == Ok::<G1Jacobian, HonkProofError>(msm_of(crs.monomials@, poly@)),
    {
        Self::msm(poly, crs.monomials.as_slice())
    }

    /// Multi-scalar multiplication of `poly` against the first points of `crs`;
    /// refused when the basis is shorter than the polynomial.
    pub fn msm(poly: &[Scalar], crs: &[G1Point]) -> (r: Result<G1Jacobian, HonkProofError>)
        ensures
            r is Err <==> poly@.len() > crs@.len(),
            r is Err ==> r == Err::<G1Jacobian, HonkProofError>(HonkProofError::CrsTooSmall),
            r is Ok ==> r == Ok::<G1Jacobian, HonkProofError>(msm_of(crs@, poly@)),
    {
        if poly.len() > crs.len() {
            return Err(HonkProofError::CrsTooSmall);
        }
        Ok(msm_unchecked(crs, poly))
    }

    /// Index of the most significant set bit of a positive 32-bit number.
    pub fn get_msb32(inp: u32) -> (r: u32)
        requires
            inp > 0,
        ensures
            r as nat == log2_floor(inp as nat),
            pow2(r as nat) <= inp as nat,
            (inp as nat) < pow2(r as nat + 1),
            r < 32,
    {
        proof {
            lemma_log2_floor_bounds(inp as nat);
            lemma2_to64();
            lemma_log2_floor_below(inp as nat, 32);
        }
        let mut v: u32 = inp;
        let mut r: u32 = 0;
        while v > 1
            invariant
                v >= 1,
                r as nat + log2_floor(v as nat) == log2_floor(inp as nat),
                log2_floor(inp as nat) < 32,
            decreases v,
        {
            v = v / 2;
            r = r + 1;
        }
        r
    }

    /// Index of the most significant set bit of a positive 64-bit number.
    pub fn get_msb64(inp: u64) -> (r: u32)
        requires
            inp > 0,
        ensures
            r as nat == log2_floor(inp as nat),
            pow2(r as nat) <= inp as nat,
            (inp as nat) < pow2(r as nat + 1),
            r < 64,
    {
        proof {
            lemma_log2_floor_bounds(inp as nat);
            lemma2_to64();
            lemma_log2_floor_below(inp as nat, 64);
        }
        let mut v: u64 = inp;
        let mut r: u32 = 0;
        while v > 1
            invariant
                v >= 1,
                r as nat + log2_floor(v as nat) == log2_floor(inp as nat),
                log2_floor(inp as nat) < 64,
            decreases v,
        {
            v = v / 2;
            r = r + 1;
        }
        r
    }

    /// Rounds a positive size up to the next power of two (a power of two is kept).
    pub fn round_up_power_2(inp: usize) -> (r: usize)
        requires
            1 <= inp,
            inp as nat <= usize::MAX as nat / 2 + 1,
        ensures
            r as nat == next_power_of_two(inp as nat),
            is_power_of_two(r as nat),
            inp <= r,
            (r as nat) < 2 * inp,
    {
        let msb = Self::get_msb64(inp as u64);
        proof {
            lemma2_to64();
            lemma_pow2_unfold(msb as nat + 1);
        }
        let lower_bound: u64 = 1u64 << msb;
        assert(lower_bound as nat == pow2(msb as nat)) by {
            vstd::bits::lemma_u64_shl_is_mul(1, msb as u64);
            vstd::arithmetic::power2::lemma_pow2(msb as nat);
        };
        if lower_bound == inp as u64 || lower_bound == 1 {
            proof {
                if lower_bound == 1 && lower_bound != inp as u64 {
                    lemma2_to64();
                }
                assert(pow2(msb as nat) == inp as nat);
            }
            inp
        } else {
            proof {
                assert(inp as nat > pow2(msb as nat));
                assert(is_power_of_two(2 * pow2(msb as nat)));
            }
            (lower_bound * 2) as usize
        }
    }
}

} // verus!
