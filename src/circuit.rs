//! The statement that the Shuffle proof circuit enforces, over the results
//! of the schemes it uses (PRF, commitment, signatures).
use crate::bignum::le_le;
use crate::bytes_le::le_nat;
use crate::bignum::two_pow_64;
use crate::bytes_le::max_value;
use crate::mechanism::{
    bucket_index, bucket_window, circuit_mechanism_check, circuit_mechanism_holds, ldp_apply,
    ldp_bit, lemma_mechanism_consistency, valid_shape,
};
use crate::messages::{le_bytes, put_le, WORD_BYTES};
use crate::parameters::ParametersShuffle;
use crate::randomness::{assemble_randomness, assembled, evals_for, xor_bytes, xor_seq, PRF_OUTPUT_BYTES};
use vstd::prelude::*;

verus! {

/// Errors of building or checking the circuit's statement.
#[derive(Debug, Clone, Copy, PartialEq, Eq)]
pub enum CircuitError {
    /// A public input or witness is absent outside setup.
    AssignmentMissing,
    /// A byte string does not have its configured width.
    WidthMismatch,
}

/// The sizes the circuit is built for.
#[derive(Clone, Copy, Debug, PartialEq, Eq)]
pub struct CircuitShape {
    pub input_bytes: usize,
    pub time_bytes: usize,
    pub randomness_bytes: usize,
    pub k: u64,
    pub is_real_input: bool,
}

impl CircuitShape {
    pub open spec fn valid(&self, gamma_bytes: nat) -> bool {
        &&& self.randomness_bytes >= 1
        &&& valid_shape(self.input_bytes as nat, gamma_bytes, self.randomness_bytes as nat, self.k as nat, self.is_real_input)
    }
}

/// Public inputs of one report.
#[derive(Clone, Debug)]
pub struct PublicInputs {
    pub ldp_value: u64,
    pub time_lower: Vec<u8>,
    pub time_upper: Vec<u8>,
    pub server_sig_pk: Vec<u8>,
    pub prf_eval_points: Vec<Vec<u8>>,
}

/// Private witnesses of one report.
#[derive(Clone, Debug)]
pub struct Witness {
    pub true_value: Vec<u8>,
    pub time: Vec<u8>,
    pub true_value_signature: Vec<u8>,
    pub client_sig_pk: Vec<u8>,
    pub client_seed: Vec<u8>,
    pub client_seed_commitment_randomness: Vec<u8>,
    pub server_seed: Vec<u8>,
    pub server_signature: Vec<u8>,
}

/// What the schemes give on the values the circuit hands them: the PRF outputs
/// under the joint seed at each evaluation point, whether the true value's
/// signature verifies, and whether the server's signature verifies.
#[derive(Clone, Debug)]
pub struct SchemeResults {
    pub prf_outputs: Vec<Vec<u8>>,
    pub true_value_signature_valid: bool,
    pub server_signature_valid: bool,
}

/// `lower < time <= upper`, each read as a little-endian number.
pub open spec fn time_window_holds(lower: Seq<u8>, time: Seq<u8>, upper: Seq<u8>) -> bool {
    le_nat(lower) < le_nat(time) && le_nat(time) <= le_nat(upper)
}

/// Whether `time` lies in the window: strictly after `lower`, at or before `upper`.
pub fn time_in_window(lower: &Vec<u8>, time: &Vec<u8>, upper: &Vec<u8>) -> (ok: bool)
    ensures
        ok == time_window_holds(lower@, time@, upper@),
{
    !le_le(time, lower) && le_le(time, upper)
}

/// The circuit for one report of the Shuffle scheme: parameters and sizes,
/// and the public inputs and witnesses, which are absent in setup.
#[derive(Clone)]
pub struct CircuitShuffle {
    pub params: ParametersShuffle,
    pub shape: CircuitShape,
    pub public: Option<PublicInputs>,
    pub witness: Option<Witness>,
}

/// The statement on present values: the mechanism relation on the randomness
/// assembled from the PRF outputs, both signatures, the time window, and one
/// public evaluation point per PRF output.
pub open spec fn statement(
    params: ParametersShuffle,
    shape: CircuitShape,
    p: PublicInputs,
    w: Witness,
    res: SchemeResults,
) -> bool {
    let randomness = assembled(res.prf_outputs@.map_values(|o: Vec<u8>| o@), shape.randomness_bytes as nat);
    &&& circuit_mechanism_holds(
        p.ldp_value as nat,
        randomness,
        params.gamma_seq(),
        w.true_value@,
        shape.input_bytes as nat,
        shape.k as nat,
        shape.is_real_input,
    )
    &&& res.true_value_signature_valid
    &&& res.server_signature_valid
    &&& time_window_holds(p.time_lower@, w.time@, p.time_upper@)
    &&& p.prf_eval_points@.len() == evals_for(shape.randomness_bytes as nat)
}

/// The PRF outputs fit the randomness width.
pub open spec fn results_fit(res: SchemeResults, len: nat) -> bool {
    &&& res.prf_outputs@.len() == evals_for(len)
    &&& forall|j: int| 0 <= j < res.prf_outputs@.len() ==> #[trigger] res.prf_outputs@[j]@.len() >= PRF_OUTPUT_BYTES
}

/// The byte strings of a report have their configured widths.
pub open spec fn widths_match(shape: CircuitShape, p: PublicInputs, w: Witness) -> bool {
    &&& w.true_value@.len() == shape.input_bytes
    &&& w.time@.len() == shape.time_bytes
    &&& p.time_lower@.len() == shape.time_bytes
    &&& p.time_upper@.len() == shape.time_bytes
    &&& w.client_seed@.len() == w.server_seed@.len()
}

impl CircuitShuffle {
    /// The circuit in setup mode: parameters and sizes only, from which the
    /// proving system derives its keys.
    pub fn keygen(params: ParametersShuffle, shape: CircuitShape) -> (c: Self)
        ensures
            c.params == params,
            c.shape == shape,
            c.public is None,
            c.witness is None,
    {
        CircuitShuffle { params, shape, public: None, witness: None }
    }

    /// The circuit with every public input and witness of one report; refused
    /// when the true value, the time or a time bound does not have its
    /// configured width, or the two seeds differ in length.
    pub fn prove(params: ParametersShuffle, shape: CircuitShape, public: PublicInputs, witness: Witness) -> (r: Result<Self, CircuitError>)
        ensures
            widths_match(shape, public, witness) <==> r is Ok,
            r is Err ==> r == Err::<Self, CircuitError>(CircuitError::WidthMismatch),
            r matches Ok(c) ==> c.params == params && c.shape == shape && c.public == Some(public)
                && c.witness == Some(witness),
    {
        let t = shape.time_bytes;
        if witness.true_value.len() != shape.input_bytes || witness.time.len() != t
            || public.time_lower.len() != t || public.time_upper.len() != t
            || witness.client_seed.len() != witness.server_seed.len() {
            return Err(CircuitError::WidthMismatch);
        }
        Ok(CircuitShuffle { params, shape, public: Some(public), witness: Some(witness) })
    }

    /// The public input a verifier hands the proving system, in the order the
    /// circuit allocates it: the report value in 8 little-endian bytes, the
    /// lower and the upper time bound, the server's key, each evaluation point.
    pub fn verify_public_input(
        ldp_value: u64,
        time_bounds: (&Vec<u8>, &Vec<u8>),
        server_sig_pk: &Vec<u8>,
        prf_eval_points: &Vec<Vec<u8>>,
    ) -> (r: Vec<Vec<u8>>)
        ensures
            r@.len() == 4 + prf_eval_points@.len(),
            r@[0]@ == le_bytes(ldp_value as nat, 8),
            r@[1]@ == time_bounds.0@,
            r@[2]@ == time_bounds.1@,
            r@[3]@ == server_sig_pk@,
            forall|j: int| 0 <= j < prf_eval_points@.len() ==> #[trigger] r@[4 + j]@ == prf_eval_points@[j]@,
    {
        let mut r: Vec<Vec<u8>> = Vec::new();
        r.push(put_le(ldp_value, WORD_BYTES));
        r.push(time_bounds.0.clone());
        r.push(time_bounds.1.clone());
        r.push(server_sig_pk.clone());
        let mut j: usize = 0;
        while j < prf_eval_points.len()
            invariant
                j <= prf_eval_points@.len(),
                r@.len() == 4 + j,
                r@[0]@ == le_bytes(ldp_value as nat, 8),
                r@[1]@ == time_bounds.0@,
                r@[2]@ == time_bounds.1@,
                r@[3]@ == server_sig_pk@,
                forall|i: int| 0 <= i < j ==> #[trigger] r@[4 + i]@ == prf_eval_points@[i]@,
            decreases prf_eval_points@.len() - j,
        {
            r.push(prf_eval_points[j].clone());
            j = j + 1;
        }
        r
    }

    /// The PRF seed: the client's and the server's seeds combined by exclusive or.
    pub fn prf_seed(w: &Witness) -> (s: Vec<u8>)
        requires
            w.client_seed@.len() == w.server_seed@.len(),
        ensures
            s@ == xor_seq(w.client_seed@, w.server_seed@),
    {
        xor_bytes(&w.client_seed, &w.server_seed)
    }

    /// The message the true value's signature signs: the true value, then the time.
    pub fn true_value_message(w: &Witness) -> (m: Vec<u8>)
        ensures
            m@ == w.true_value@ + w.time@,
    {
        let mut m = w.true_value.clone();
        let mut t = w.time.clone();
        m.append(&mut t);
        m
    }

    /// The message the server's signature signs: the commitment to the client
    /// seed, the client's key, the server seed.
    pub fn server_signature_message(w: &Witness, client_seed_commitment: &Vec<u8>) -> (m: Vec<u8>)
        ensures
            m@ == client_seed_commitment@ + w.client_sig_pk@ + w.server_seed@,
    {
        let mut m = client_seed_commitment.clone();
        let mut pk = w.client_sig_pk.clone();
        let mut seed = w.server_seed.clone();
        m.append(&mut pk);
        m.append(&mut seed);
        m
    }

    /// Whether the statement holds, given what the schemes gave. Absent values
    /// are an error: only setup runs without them.
    pub fn is_satisfied(&self, res: &SchemeResults) -> (r: Result<bool, CircuitError>)
        requires
            self.params.wf(),
            self.shape.valid(self.params.gamma_width()),
            results_fit(*res, self.shape.randomness_bytes as nat),
        ensures
            match (self.public, self.witness) {
                (Some(p), Some(w)) => if w.true_value@.len() == self.shape.input_bytes {
                    r == Ok::<bool, CircuitError>(statement(self.params, self.shape, p, w, *res))
                } else {
                    r == Ok::<bool, CircuitError>(false)
                },
                _ => r == Err::<bool, CircuitError>(CircuitError::AssignmentMissing),
            },
    {
        let (p, w) = match (&self.public, &self.witness) {
            (Some(p), Some(w)) => (p, w),
            _ => return Err(CircuitError::AssignmentMissing),
        };
        if w.true_value.len() != self.shape.input_bytes {
            return Ok(false);
        }
        let randomness = assemble_randomness(&res.prf_outputs, self.shape.randomness_bytes);
        let gamma = self.params.gamma_as_bytes();
        let mechanism_ok = circuit_mechanism_check(
            p.ldp_value,
            &randomness,
            &gamma,
            &w.true_value,
            self.shape.input_bytes,
            self.shape.k,
            self.shape.is_real_input,
        );
        let time_ok = time_in_window(&p.time_lower, &w.time, &p.time_upper);
        let points_ok = p.prf_eval_points.len() == res.prf_outputs.len();
        Ok(mechanism_ok && res.true_value_signature_valid && res.server_signature_valid && time_ok && points_ok)
    }
}

/// The statement holds for a report exactly when its value is what the
/// mechanism computes on the randomness from the PRF outputs, both signatures
/// verify and the time lies in the window (for boolean input whose true value
/// needs more than 64 bits, see `lemma_mechanism_consistency`). Altering the
/// report value alone therefore makes an honest statement false.
pub proof fn lemma_statement_matches_mechanism(
    params: ParametersShuffle,
    shape: CircuitShape,
    p: PublicInputs,
    w: Witness,
    res: SchemeResults,
)
    requires
        params.wf(),
        shape.valid(params.gamma_width()),
        results_fit(res, shape.randomness_bytes as nat),
        w.true_value@.len() == shape.input_bytes,
        ({
            let r = assembled(res.prf_outputs@.map_values(|o: Vec<u8>| o@), shape.randomness_bytes as nat);
            let n = shape.input_bytes as nat;
            let g = params.gamma_width();
            let b = le_nat(bucket_window(r, g, n));
            &&& (shape.is_real_input || ldp_bit(r, params.gamma_seq()) || le_nat(w.true_value@) < two_pow_64())
        }),
    ensures
        statement(params, shape, p, w, res) <==> {
            &&& p.ldp_value as nat == ldp_apply(
                assembled(res.prf_outputs@.map_values(|o: Vec<u8>| o@), shape.randomness_bytes as nat),
                params.gamma_seq(),
                w.true_value@,
                shape.input_bytes as nat,
                shape.k as nat,
                shape.is_real_input,
            )
            &&& res.true_value_signature_valid
            &&& res.server_signature_valid
            &&& time_window_holds(p.time_lower@, w.time@, p.time_upper@)
            &&& p.prf_eval_points@.len() == evals_for(shape.randomness_bytes as nat)
        },
{
    let r = assembled(res.prf_outputs@.map_values(|o: Vec<u8>| o@), shape.randomness_bytes as nat);
    crate::messages::lemma_le_bytes_len(
        crate::parameters::gamma_encoding(params.gamma_num(), params.gamma_den(), params.gamma_width()),
        params.gamma_width(),
    );
    lemma_mechanism_consistency(
        p.ldp_value,
        r,
        params.gamma_seq(),
        w.true_value@,
        shape.input_bytes as nat,
        shape.k as nat,
        shape.is_real_input,
    );
}

} // verus!
