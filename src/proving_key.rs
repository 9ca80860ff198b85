use crate::curve::{
    affine_of, coordinates_of, g1_coordinates, msm_of, scalar_from_u64, scalar_of, to_affine, G1Point,
    G2Point, ProverCrs, Scalar,
};
use crate::utils::{next_power_of_two, Utils};
use crate::verification_key::{G1Commitment, VerifyingKey, PRECOMPUTED_ENTITIES_SIZE};
use crate::HonkProofError;
use vstd::prelude::*;

verus! {

/// Number of wire polynomials, which carry the secret-shared witness.
pub const NUM_WIRES: usize = 4;

/// Number of lookup polynomials (read counts and read tags), which are public.
pub const NUM_LOOKUP_POLYNOMIALS: usize = 2;

/// Position of the first Lagrange polynomial among the precomputed ones.
pub const LAGRANGE_FIRST: usize = 25;

/// Position of the last Lagrange polynomial among the precomputed ones.
pub const LAGRANGE_LAST: usize = 26;

/// The wire whose first rows hold the public inputs.
pub const PUBLIC_INPUT_WIRE_INDEX: usize = 1;

/// Two sequences of vectors hold the same values, vector by vector.
pub open spec fn same_polys<T>(a: Seq<Vec<T>>, b: Seq<Vec<T>>) -> bool {
    &&& a.len() == b.len()
    &&& forall|j: int| 0 <= j < a.len() ==> (#[trigger] a[j])@ == b[j]@
}

/// A witness value as the witness extension leaves it: known to all, or shared.
pub enum WitnessValue<S> {
    Public(Scalar),
    Shared(S),
}

/// The polynomials of a single-party proving key.
pub struct PlainPolynomials {
    pub precomputed: Vec<Vec<Scalar>>,
    pub wires: Vec<Vec<Scalar>>,
    pub lookup_read_counts_and_tags: Vec<Vec<Scalar>>,
}

/// A single-party proving key, as the circuit builder produces it.
pub struct PlainProvingKey {
    pub crs: ProverCrs,
    pub circuit_size: u32,
    pub public_inputs: Vec<Scalar>,
    pub num_public_inputs: u32,
    pub pub_inputs_offset: u32,
    pub polynomials: PlainPolynomials,
    pub memory_read_records: Vec<u32>,
    pub memory_write_records: Vec<u32>,
}

/// The polynomials of a collaborative proving key: the wires hold shares `S`,
/// everything else is public.
pub struct Polynomials<S> {
    pub precomputed: Vec<Vec<Scalar>>,
    pub wires: Vec<Vec<S>>,
    pub lookup_read_counts_and_tags: Vec<Vec<Scalar>>,
}

/// A proving key whose witness polynomials are secret-shared.
pub struct ProvingKey<S> {
    pub crs: ProverCrs,
    pub circuit_size: u32,
    pub public_inputs: Vec<Scalar>,
    pub num_public_inputs: u32,
    pub pub_inputs_offset: u32,
    pub polynomials: Polynomials<S>,
    pub memory_read_records: Vec<u32>,
    pub memory_write_records: Vec<u32>,
}

/// The commitment to a polynomial against a basis, as affine coordinates.
pub open spec fn precomputed_commitment(crs: Seq<G1Point>, poly: Seq<Scalar>) -> G1Commitment {
    coordinates_of(affine_of(msm_of(crs, poly)))
}

/// The verifying key's commitments depend only on public data: two proving keys
/// with the same basis and the same precomputed polynomials (whatever their
/// witness shares) commit to the same points.
pub proof fn lemma_commitments_depend_on_public_data<S, T>(a: ProvingKey<S>, b: ProvingKey<T>)
    requires
        a.crs.monomials@ == b.crs.monomials@,
        same_polys(a.polynomials.precomputed@, b.polynomials.precomputed@),
    ensures
        forall|i: int|
            0 <= i < a.polynomials.precomputed@.len() ==> #[trigger] precomputed_commitment(
                a.crs.monomials@,
                a.polynomials.precomputed@[i]@,
            ) == precomputed_commitment(b.crs.monomials@, b.polynomials.precomputed@[i]@),
{
    assert forall|i: int| 0 <= i < a.polynomials.precomputed@.len() implies #[trigger] precomputed_commitment(
        a.crs.monomials@,
        a.polynomials.precomputed@[i]@,
    ) == precomputed_commitment(b.crs.monomials@, b.polynomials.precomputed@[i]@) by {
        assert(a.polynomials.precomputed@[i]@ == b.polynomials.precomputed@[i]@);
    }
}

/// The number of public inputs read from a public-input wire of `wire_len` rows.
pub open spec fn public_count(wire_len: int, num_public_inputs: int) -> int {
    if num_public_inputs <= wire_len {
        num_public_inputs
    } else {
        wire_len
    }
}

/// Every slot read as a public input holds a public value.
pub open spec fn public_slots_are_public<S>(
    wire: Seq<u32>,
    variables: Seq<WitnessValue<S>>,
    num_public_inputs: int,
) -> bool {
    forall|i: int|
        0 <= i < public_count(wire.len() as int, num_public_inputs) ==> (#[trigger] variables[wire[i] as int]) is Public
}

/// The public inputs: the values at the first slots of the public-input wire.
pub open spec fn public_values<S>(
    wire: Seq<u32>,
    variables: Seq<WitnessValue<S>>,
    num_public_inputs: int,
) -> Seq<Scalar> {
    Seq::new(
        public_count(wire.len() as int, num_public_inputs) as nat,
        |i: int| variables[wire[i] as int]->Public_0,
    )
}

/// When every slot read as a public input is public, the public inputs are
/// exactly as many as requested (bounded by the wire's length), and each one is
/// the value at the matching slot of the public-input wire, in order.
pub proof fn lemma_public_values<S>(
    wire: Seq<u32>,
    variables: Seq<WitnessValue<S>>,
    num_public_inputs: int,
)
    requires
        0 <= num_public_inputs,
        public_slots_are_public(wire, variables, num_public_inputs),
    ensures
        num_public_inputs <= wire.len() ==> public_values(wire, variables, num_public_inputs).len()
            == num_public_inputs,
        forall|i: int|
            0 <= i < public_count(wire.len() as int, num_public_inputs) ==> variables[wire[i] as int]
                == WitnessValue::<S>::Public(
                #[trigger] public_values(wire, variables, num_public_inputs)[i],
            ),
{
    assert forall|i: int|
        0 <= i < public_count(wire.len() as int, num_public_inputs) implies variables[wire[i] as int]
            == WitnessValue::<S>::Public(
            #[trigger] public_values(wire, variables, num_public_inputs)[i],
        ) by {
        assert(variables[wire[i] as int] is Public);
    }
}

fn filled<T: Copy>(value: T, n: usize) -> (r: Vec<T>)
    ensures
        r@ == Seq::new(n as nat, |i: int| value),
{
    let mut r: Vec<T> = Vec::with_capacity(n);
    let mut i: usize = 0;
    while i < n
        invariant
            i <= n,
            r@ == Seq::new(i as nat, |j: int| value),
        decreases n - i,
    {
        r.push(value);
        assert(r@ =~= Seq::new((i + 1) as nat, |j: int| value));
        i = i + 1;
    }
    r
}

fn filled_polys<T: Copy>(value: T, count: usize, n: usize) -> (r: Vec<Vec<T>>)
    ensures
        r@.len() == count,
        forall|i: int| 0 <= i < count ==> (#[trigger] r@[i])@ == Seq::new(n as nat, |j: int| value),
{
    let mut r: Vec<Vec<T>> = Vec::with_capacity(count);
    let mut i: usize = 0;
    while i < count
        invariant
            i <= count,
            r@.len() == i,
            forall|k: int| 0 <= k < i ==> (#[trigger] r@[k])@ == Seq::new(n as nat, |j: int| value),
        decreases count - i,
    {
        r.push(filled(value, n));
        i = i + 1;
    }
    r
}

fn copy_vec<T: Copy>(v: &Vec<T>) -> (r: Vec<T>)
    ensures
        r@ == v@,
{
    let mut r: Vec<T> = Vec::with_capacity(v.len());
    let mut i: usize = 0;
    while i < v.len()
        invariant
            i <= v@.len(),
            r@ == v@.subrange(0, i as int),
        decreases v@.len() - i,
    {
        r.push(v[i]);
        assert(r@ =~= v@.subrange(0, i + 1));
        i = i + 1;
    }
    assert(r@ =~= v@);
    r
}

fn copy_polys<T: Copy>(v: &Vec<Vec<T>>) -> (r: Vec<Vec<T>>)
    ensures
        same_polys(r@, v@),
{
    let mut r: Vec<Vec<T>> = Vec::with_capacity(v.len());
    let mut i: usize = 0;
    while i < v.len()
        invariant
            i <= v@.len(),
            r@.len() == i,
            forall|j: int| 0 <= j < i ==> (#[trigger] r@[j])@ == v@[j]@,
        decreases v@.len() - i,
    {
        r.push(copy_vec(&v[i]));
        i = i + 1;
    }
    r
}

impl<S: Copy> ProvingKey<S> {
    /// An empty key of the given size: every polynomial is zero (the wires
    /// hold `zero_share`), no public input is read yet, no memory record kept.
    pub fn new(circuit_size: usize, num_public_inputs: usize, crs: ProverCrs, zero_share: S) -> (r:
        Self)
        ensures
            r.wf(),
            r.crs == crs,
            r.circuit_size == circuit_size as u32,
            r.num_public_inputs == num_public_inputs as u32,
            r.pub_inputs_offset == 0,
            r.public_inputs@.len() == 0,
            r.memory_read_records@.len() == 0,
            r.memory_write_records@.len() == 0,
            forall|i: int|
                0 <= i < PRECOMPUTED_ENTITIES_SIZE ==> (#[trigger] r.polynomials.precomputed@[i])@
                    == Seq::new(circuit_size as nat, |j: int| scalar_from_u64(0)),
            forall|i: int|
                0 <= i < NUM_LOOKUP_POLYNOMIALS ==> (
                #[trigger] r.polynomials.lookup_read_counts_and_tags@[i])@ == Seq::new(
                    circuit_size as nat,
                    |j: int| scalar_from_u64(0),
                ),
            forall|i: int|
                0 <= i < NUM_WIRES ==> (#[trigger] r.polynomials.wires@[i])@ == Seq::new(
                    circuit_size as nat,
                    |j: int| zero_share,
                ),
    {
        let zero = scalar_of(0);
        let polynomials = Polynomials {
            precomputed: filled_polys(zero, PRECOMPUTED_ENTITIES_SIZE, circuit_size),
            wires: filled_polys(zero_share, NUM_WIRES, circuit_size),
            lookup_read_counts_and_tags: filled_polys(zero, NUM_LOOKUP_POLYNOMIALS, circuit_size),
        };
        ProvingKey {
            crs,
            circuit_size: circuit_size as u32,
            public_inputs: Vec::with_capacity(num_public_inputs),
            num_public_inputs: num_public_inputs as u32,
            pub_inputs_offset: 0,
            polynomials,
            memory_read_records: Vec::new(),
            memory_write_records: Vec::new(),
        }
    }
}

impl<S: Copy> ProvingKey<S> {
    /// Builds the key of a circuit that needs `num_rows` rows (gates and
    /// padding): the size is the next power of two, every polynomial starts at
    /// zero (the wires at `zero_share`), the Lagrange polynomials mark the first
    /// and last rows, and the public inputs are read from the first
    /// `num_public_inputs` rows of the public-input wire.
    pub fn create(
        num_rows: usize,
        public_wire: &Vec<u32>,
        variables: &Vec<WitnessValue<S>>,
        num_public_inputs: usize,
        crs: ProverCrs,
        zero_share: S,
    ) -> (r: Result<Self, HonkProofError>)
        requires
            1 <= num_rows <= 0x8000_0000,
            num_public_inputs <= public_wire@.len(),
            num_public_inputs <= u32::MAX,
            forall|i: int|
                0 <= i < public_wire@.len() ==> (#[trigger] public_wire@[i]) < variables@.len(),
        ensures
            r is Ok <==> public_slots_are_public(public_wire@, variables@, num_public_inputs as int),
            r is Err ==> r == Err::<Self, HonkProofError>(HonkProofError::ExpectedPublicWitness),
            r matches Ok(pk) ==> {
                let n = next_power_of_two(num_rows as nat);
                let zero = scalar_from_u64(0);
                let one = scalar_from_u64(1);
                &&& pk.wf()
                &&& pk.crs == crs
                &&& pk.circuit_size == n
                &&& pk.num_public_inputs == num_public_inputs
                &&& pk.pub_inputs_offset == 0
                &&& pk.public_inputs@.len() == num_public_inputs
                &&& pk.public_inputs@ == public_values(
                    public_wire@,
                    variables@,
                    num_public_inputs as int,
                )
                &&& pk.polynomials.precomputed@[LAGRANGE_FIRST as int]@ == Seq::new(
                    n,
                    |j: int|
                        if j == 0 {
                            one
                        } else {
                            zero
                        },
                )
                &&& pk.polynomials.precomputed@[LAGRANGE_LAST as int]@ == Seq::new(
                    n,
                    |j: int|
                        if j == n - 1 {
                            one
                        } else {
                            zero
                        },
                )
                &&& forall|i: int|
                    0 <= i < PRECOMPUTED_ENTITIES_SIZE && i != LAGRANGE_FIRST && i != LAGRANGE_LAST
                        ==> (#[trigger] pk.polynomials.precomputed@[i])@ == Seq::new(
                        n,
                        |j: int| zero,
                    )
                &&& forall|i: int|
                    0 <= i < NUM_LOOKUP_POLYNOMIALS ==> (
                    #[trigger] pk.polynomials.lookup_read_counts_and_tags@[i])@ == Seq::new(
                        n,
                        |j: int| zero,
                    )
                &&& forall|i: int|
                    0 <= i < NUM_WIRES ==> (#[trigger] pk.polynomials.wires@[i])@ == Seq::new(
                        n,
                        |j: int| zero_share,
                    )
            },
    {
        let dyadic_circuit_size = Utils::round_up_power_2(num_rows);
        let ghost n = dyadic_circuit_size as nat;
        let mut proving_key = Self::new(dyadic_circuit_size, num_public_inputs, crs, zero_share);
        let ghost fresh = proving_key;
        proving_key.set_lagrange_polynomials();
        proof {
            let zero = scalar_from_u64(0);
            let one = scalar_from_u64(1);
            assert(fresh.polynomials.precomputed@[LAGRANGE_FIRST as int]@.update(0, one) =~= Seq::new(
                n,
                |j: int|
                    if j == 0 {
                        one
                    } else {
                        zero
                    },
            ));
            assert(fresh.polynomials.precomputed@[LAGRANGE_LAST as int]@.update(n - 1, one)
                =~= Seq::new(
                n,
                |j: int|
                    if j == n - 1 {
                        one
                    } else {
                        zero
                    },
            ));
        }
        match proving_key.set_public_inputs(public_wire, variables) {
            Ok(()) => Ok(proving_key),
            Err(e) => Err(e),
        }
    }
}

impl<S> ProvingKey<S> {
    /// Sets the first row of the first Lagrange polynomial and the last row of
    /// the last one to one.
    pub fn set_lagrange_polynomials(&mut self)
        requires
            old(self).wf(),
            old(self).circuit_size > 0,
            old(self).polynomials.precomputed@[LAGRANGE_FIRST as int]@.len() == old(self).circuit_size,
            old(self).polynomials.precomputed@[LAGRANGE_LAST as int]@.len() == old(self).circuit_size,
        ensures
            final(self).wf(),
            ({
                let one = scalar_from_u64(1);
                &&& final(self).polynomials.precomputed@[LAGRANGE_FIRST as int]@ == old(
                    self,
                ).polynomials.precomputed@[LAGRANGE_FIRST as int]@.update(0, one)
                &&& final(self).polynomials.precomputed@[LAGRANGE_LAST as int]@ == old(
                    self,
                ).polynomials.precomputed@[LAGRANGE_LAST as int]@.update(
                    old(self).circuit_size - 1,
                    one,
                )
            }),
            forall|i: int|
                0 <= i < PRECOMPUTED_ENTITIES_SIZE && i != LAGRANGE_FIRST && i != LAGRANGE_LAST
                    ==> #[trigger] final(self).polynomials.precomputed@[i] == old(
                    self,
                ).polynomials.precomputed@[i],
            final(self).polynomials.wires == old(self).polynomials.wires,
            final(self).polynomials.lookup_read_counts_and_tags == old(
                self,
            ).polynomials.lookup_read_counts_and_tags,
            final(self).crs == old(self).crs,
            final(self).circuit_size == old(self).circuit_size,
            final(self).public_inputs == old(self).public_inputs,
            final(self).num_public_inputs == old(self).num_public_inputs,
            final(self).pub_inputs_offset == old(self).pub_inputs_offset,
            final(self).memory_read_records == old(self).memory_read_records,
            final(self).memory_write_records == old(self).memory_write_records,
    {
        let one = scalar_of(1);
        let last = self.circuit_size as usize - 1;
        self.polynomials.precomputed[LAGRANGE_FIRST][0] = one;
        self.polynomials.precomputed[LAGRANGE_LAST][last] = one;
    }

    /// The counts of the named polynomial groups.
    pub open spec fn wf(&self) -> bool {
        &&& self.polynomials.precomputed@.len() == PRECOMPUTED_ENTITIES_SIZE
        &&& self.polynomials.wires@.len() == NUM_WIRES
        &&& self.polynomials.lookup_read_counts_and_tags@.len() == NUM_LOOKUP_POLYNOMIALS
    }

    /// Reads the public inputs from the first `num_public_inputs` rows of the
    /// public-input wire (fewer if the wire is shorter); each must be a public
    /// value.
    pub fn set_public_inputs(
        &mut self,
        public_wire: &Vec<u32>,
        variables: &Vec<WitnessValue<S>>,
    ) -> (r: Result<(), HonkProofError>)
        requires
            forall|i: int|
                0 <= i < public_wire@.len() ==> (#[trigger] public_wire@[i]) < variables@.len(),
        ensures
            r is Ok <==> public_slots_are_public(
                public_wire@,
                variables@,
                old(self).num_public_inputs as int,
            ),
            r is Err ==> r == Err::<(), HonkProofError>(HonkProofError::ExpectedPublicWitness),
            r is Ok ==> final(self).public_inputs@ == public_values(
                public_wire@,
                variables@,
                old(self).num_public_inputs as int,
            ),
            r is Err ==> final(self).public_inputs == old(self).public_inputs,
            final(self).crs == old(self).crs,
            final(self).circuit_size == old(self).circuit_size,
            final(self).num_public_inputs == old(self).num_public_inputs,
            final(self).pub_inputs_offset == old(self).pub_inputs_offset,
            final(self).polynomials == old(self).polynomials,
            final(self).memory_read_records == old(self).memory_read_records,
            final(self).memory_write_records == old(self).memory_write_records,
    {
        let ghost k = public_count(public_wire@.len() as int, self.num_public_inputs as int);
        let take: usize = if (self.num_public_inputs as u64) <= (public_wire.len() as u64) {
            self.num_public_inputs as usize
        } else {
            public_wire.len()
        };
        assert(take == k);
        let mut values: Vec<Scalar> = Vec::with_capacity(take);
        let mut i: usize = 0;
        while i < take
            invariant
                take == k,
                k == public_count(public_wire@.len() as int, self.num_public_inputs as int),
                self.num_public_inputs == old(self).num_public_inputs,
                k <= public_wire@.len(),
                i <= take,
                forall|j: int|
                    0 <= j < public_wire@.len() ==> (#[trigger] public_wire@[j]) < variables@.len(),
                forall|j: int| 0 <= j < i ==> (#[trigger] variables@[public_wire@[j] as int]) is Public,
                values@ == Seq::new(i as nat, |j: int| variables@[public_wire@[j] as int]->Public_0),
            decreases take - i,
        {
            let var_idx = public_wire[i] as usize;
            match &variables[var_idx] {
                WitnessValue::Public(v) => {
                    values.push(*v);
                },
                WitnessValue::Shared(_) => {
                    assert(!(variables@[public_wire@[i as int] as int] is Public));
                    return Err(HonkProofError::ExpectedPublicWitness);
                },
            }
            assert(values@ =~= Seq::new(
                (i + 1) as nat,
                |j: int| variables@[public_wire@[j] as int]->Public_0,
            ));
            i = i + 1;
        }
        self.public_inputs = values;
        Ok(())
    }

    /// Commits to every precomputed polynomial against the prover's basis and
    /// returns the key together with the matching verifying key.
    pub fn create_keys(proving_key: Self, verifier_crs: G2Point) -> (r: Result<
        (Self, VerifyingKey),
        HonkProofError,
    >)
        requires
            proving_key.wf(),
        ensures
            r is Ok <==> forall|i: int|
                0 <= i < PRECOMPUTED_ENTITIES_SIZE ==> (#[trigger] proving_key.polynomials.precomputed@[i])@.len()
                    <= proving_key.crs.monomials@.len(),
            r is Err ==> r == Err::<(Self, VerifyingKey), HonkProofError>(
                HonkProofError::CrsTooSmall,
            ),
            r matches Ok((pk, vk)) ==> {
                &&& pk == proving_key
                &&& vk.crs == verifier_crs
                &&& vk.circuit_size == proving_key.circuit_size
                &&& vk.num_public_inputs == proving_key.num_public_inputs
                &&& vk.pub_inputs_offset == proving_key.pub_inputs_offset
                &&& vk.commitments@.len() == PRECOMPUTED_ENTITIES_SIZE
                &&& forall|i: int|
                    0 <= i < PRECOMPUTED_ENTITIES_SIZE ==> #[trigger] vk.commitments@[i]
                        == precomputed_commitment(
                        proving_key.crs.monomials@,
                        proving_key.polynomials.precomputed@[i]@,
                    )
            },
    {
        let mut commitments: Vec<G1Commitment> = Vec::with_capacity(PRECOMPUTED_ENTITIES_SIZE);
        let mut i: usize = 0;
        while i < proving_key.polynomials.precomputed.len()
            invariant
                proving_key.wf(),
                i <= PRECOMPUTED_ENTITIES_SIZE,
                commitments@.len() == i,
                forall|j: int|
                    0 <= j < i ==> #[trigger] commitments@[j] == precomputed_commitment(
                        proving_key.crs.monomials@,
                        proving_key.polynomials.precomputed@[j]@,
                    ),
                forall|j: int|
                    0 <= j < i ==> (#[trigger] proving_key.polynomials.precomputed@[j])@.len()
                        <= proving_key.crs.monomials@.len(),
            decreases PRECOMPUTED_ENTITIES_SIZE - i,
        {
            match Utils::commit(proving_key.polynomials.precomputed[i].as_slice(), &proving_key.crs) {
                Ok(comm) => {
                    commitments.push(g1_coordinates(&to_affine(&comm)));
                },
                Err(e) => {
                    return Err(e);
                },
            }
            i = i + 1;
        }
        let vk = VerifyingKey {
            crs: verifier_crs,
            circuit_size: proving_key.circuit_size,
            num_public_inputs: proving_key.num_public_inputs,
            pub_inputs_offset: proving_key.pub_inputs_offset,
            commitments,
        };
        Ok((proving_key, vk))
    }

    /// The public inputs, in order.
    pub fn get_public_inputs(&self) -> (r: Vec<Scalar>)
        ensures
            r@ == self.public_inputs@,
    {
        copy_vec(&self.public_inputs)
    }

    /// Builds a collaborative key from a single-party key, replacing its wire
    /// polynomials by this party's shares: four consecutive chunks of
    /// `circuit_size` shares, one per wire.
    pub fn from_plain_key_and_shares(plain_key: &PlainProvingKey, shares: Vec<S>) -> (r: Result<
        Self,
        HonkProofError,
    >)
        ensures
            r is Ok <==> shares@.len() == NUM_WIRES * plain_key.circuit_size,
            r is Err ==> r == Err::<Self, HonkProofError>(HonkProofError::ShareLengthMismatch),
            r matches Ok(k) ==> {
                let n = plain_key.circuit_size as int;
                &&& k.crs.monomials@ == plain_key.crs.monomials@
                &&& k.circuit_size == plain_key.circuit_size
                &&& k.public_inputs@ == plain_key.public_inputs@
                &&& k.num_public_inputs == plain_key.num_public_inputs
                &&& k.pub_inputs_offset == plain_key.pub_inputs_offset
                &&& k.memory_read_records@ == plain_key.memory_read_records@
                &&& k.memory_write_records@ == plain_key.memory_write_records@
                &&& same_polys(k.polynomials.precomputed@, plain_key.polynomials.precomputed@)
                &&& same_polys(
                    k.polynomials.lookup_read_counts_and_tags@,
                    plain_key.polynomials.lookup_read_counts_and_tags@,
                )
                &&& k.polynomials.wires@.len() == NUM_WIRES
                &&& forall|w: int|
                    0 <= w < NUM_WIRES ==> (#[trigger] k.polynomials.wires@[w])@ == shares@.subrange(
                        w * n,
                        (w + 1) * n,
                    )
            },
    {
        let circuit_size = plain_key.circuit_size;
        if shares.len() as u64 != circuit_size as u64 * 4 {
            return Err(HonkProofError::ShareLengthMismatch);
        }
        let n = circuit_size as usize;
        let ghost all = shares@;
        let mut w0 = shares;
        let w3 = w0.split_off(3 * n);
        let w2 = w0.split_off(2 * n);
        let w1 = w0.split_off(n);
        assert(w0@ =~= all.subrange(0, n as int));
        assert(w1@ =~= all.subrange(n as int, 2 * n));
        assert(w2@ =~= all.subrange(2 * n, 3 * n));
        assert(w3@ =~= all.subrange(3 * n, 4 * n));
        let ghost views = seq![w0@, w1@, w2@, w3@];
        let mut wires: Vec<Vec<S>> = Vec::with_capacity(NUM_WIRES);
        wires.push(w0);
        wires.push(w1);
        wires.push(w2);
        wires.push(w3);
        assert forall|w: int| 0 <= w < NUM_WIRES implies (#[trigger] wires@[w])@ == all.subrange(
            w * n,
            (w + 1) * n,
        ) by {
            assert(wires@[w]@ == views[w]);
            if w == 0 {
                assert(w * n == 0 && (w + 1) * n == n);
            } else if w == 1 {
                assert(w * n == n && (w + 1) * n == 2 * n);
            } else if w == 2 {
                assert(w * n == 2 * n && (w + 1) * n == 3 * n);
            } else {
                assert(w * n == 3 * n && (w + 1) * n == 4 * n);
            }
        }

        let polynomials = Polynomials {
            precomputed: copy_polys(&plain_key.polynomials.precomputed),
            wires,
            lookup_read_counts_and_tags: copy_polys(
                &plain_key.polynomials.lookup_read_counts_and_tags,
            ),
        };
        Ok(ProvingKey {
            crs: ProverCrs { monomials: copy_vec(&plain_key.crs.monomials) },
            circuit_size,
            public_inputs: copy_vec(&plain_key.public_inputs),
            num_public_inputs: plain_key.num_public_inputs,
            pub_inputs_offset: plain_key.pub_inputs_offset,
            polynomials,
            memory_read_records: copy_vec(&plain_key.memory_read_records),
            memory_write_records: copy_vec(&plain_key.memory_write_records),
        })
    }
}

} // verus!
