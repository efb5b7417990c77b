//! The client of the Expand scheme: a session that commits to a batch of
//! randomness, checks the server's signed answer, and produces reports.
use crate::bignum::le_le;
use crate::bytes_le::{le_nat, max_bytes, max_value, pow256, window};
use crate::bignum::two_pow_64;
use crate::mechanism::{
    apply_ldp, circuit_mechanism_holds, ldp_apply, ldp_bit, lemma_mechanism_consistency, valid_shape,
};
use crate::messages::{
    commit_encoding, lemma_le_bytes_value, put_le, report_encoding, signature_input,
    signature_input_bytes, split_two_fields, ClientCommitMessage, ClientReportMessage,
    ServerResponseMessage, WORD_BYTES,
};
use crate::parameters::ParametersShuffle;
use crate::randomness::{
    assemble_randomness, assembled, chacha_draw, chacha_stream, eval_index, eval_point, evals_for,
    num_evals, xor_bytes, xor_seq, PRF_OUTPUT_BYTES,
};
use vstd::arithmetic::power2::pow2;
use vstd::prelude::*;

verus! {

/// Bytes of a PRF seed.
pub const SEED_BYTES: usize = 32;

/// Errors of a client step.
#[derive(Debug, Clone, Copy, PartialEq, Eq)]
pub enum ClientError {
    /// A value that an earlier step stores has not been stored yet.
    UnobtainedValue,
    /// The server's message is not a well-formed encoding.
    Deserialization,
    /// The configured widths and bucket count do not fit together.
    InvalidShape,
    /// The round lies beyond the rounds of the committed batch.
    BatchExhausted,
}

/// Values a client keeps between steps.
#[derive(Clone)]
pub struct ClientExpandStorage {
    pub generator_seed: Option<[u8; 32]>,
    pub index: usize,
    pub merkle_root: Option<Vec<u8>>,
    pub server_seed: Option<Vec<u8>>,
    pub server_signature: Option<Vec<u8>>,
}

impl ClientExpandStorage {
    /// Storage before any step: nothing stored, round zero.
    pub fn new() -> (s: Self)
        ensures
            s.generator_seed is None,
            s.index == 0,
            s.merkle_root is None,
            s.server_seed is None,
            s.server_signature is None,
    {
        ClientExpandStorage {
            generator_seed: None,
            index: 0,
            merkle_root: None,
            server_seed: None,
            server_signature: None,
        }
    }
}

/// The sizes a client works with.
#[derive(Clone, Copy, Debug, PartialEq, Eq)]
pub struct ClientShape {
    pub mt_depth: usize,
    pub input_bytes: usize,
    pub time_bytes: usize,
    pub randomness_bytes: usize,
    pub k: u64,
    pub is_real_input: bool,
    pub commitment_randomness_bytes: usize,
}

impl ClientShape {
    /// The number of leaves (rounds) of one batch: `2^(depth - 1)`.
    pub open spec fn leaves(&self) -> nat {
        pow2((self.mt_depth - 1) as nat)
    }

    /// The bytes drawn from the generator for one batch: the client seed, then
    /// the commitment randomness of each leaf in order.
    pub open spec fn draw_len(&self) -> nat {
        SEED_BYTES as nat + self.leaves() * (self.commitment_randomness_bytes as nat)
    }

    /// The sizes fit together for gamma encoded in `gamma_bytes` bytes.
    pub open spec fn valid(&self, gamma_bytes: nat) -> bool {
        &&& self.mt_depth >= 1
        &&& self.mt_depth <= 64
        &&& self.randomness_bytes >= 1
        &&& valid_shape(self.input_bytes as nat, gamma_bytes, self.randomness_bytes as nat, self.k as nat, self.is_real_input)
        &&& self.leaves() * evals_for(self.randomness_bytes as nat) <= usize::MAX
        &&& self.draw_len() <= usize::MAX
    }
}

/// The seed, evaluation points and commitment randomness of one leaf, as drawn
/// from the generator stream `draws`.
pub open spec fn leaf_matches(leaf: LeafInputs, draws: Seq<u8>, i: nat, c: nat, ne: nat) -> bool {
    &&& leaf.commitment_randomness@ == draws.subrange(SEED_BYTES + i * c, SEED_BYTES + (i + 1) * c)
    &&& leaf.eval_points@.len() == ne
    &&& forall|j: int| 0 <= j < ne ==> {
        &&& #[trigger] leaf.eval_points@[j]@.len() == 32
        &&& le_nat(leaf.eval_points@[j]@) == eval_index(i, j as nat, ne)
    }
}

/// What a client commits to for one leaf (round) of a batch: the PRF
/// evaluation points under its seed and the commitment randomness.
#[derive(Clone, Debug)]
pub struct LeafInputs {
    pub eval_points: Vec<Vec<u8>>,
    pub commitment_randomness: Vec<u8>,
}

/// `2^(depth - 1)`.
fn leaves_for_depth(depth: usize) -> (n: u64)
    requires
        1 <= depth <= 64,
    ensures
        n as nat == pow2((depth - 1) as nat),
{
    let d = depth - 1;
    let mut n: u64 = 1;
    let mut i: usize = 0;
    proof {
        vstd::arithmetic::power2::lemma2_to64();
    }
    while i < d
        invariant
            i <= d,
            d < 64,
            n as nat == pow2(i as nat),
        decreases d - i,
    {
        proof {
            vstd::arithmetic::power2::lemma_pow2_strictly_increases((i + 1) as nat, 64);
            vstd::arithmetic::power2::lemma2_to64();
            vstd::arithmetic::power2::lemma_pow2_unfold((i + 1) as nat);
        }
        n = n * 2;
        i = i + 1;
    }
    n
}

/// What a client needs from outside to randomize round `index`: its own seed,
/// the points at which the PRF is evaluated under it, the round's commitment
/// randomness, and the server's seed.
#[derive(Clone, Debug)]
pub struct RandomizationRequest {
    pub client_seed: Vec<u8>,
    pub client_eval_points: Vec<Vec<u8>>,
    pub commitment_randomness: Vec<u8>,
    pub server_seed: Vec<u8>,
}

/// Whether `d` is at most the largest value of `n` bytes.
fn fits_in_width(d: u64, n: usize) -> (r: bool)
    ensures
        r == (d as nat <= max_value(n as nat)),
{
    let db = put_le(d, WORD_BYTES);
    proof {
        reveal_with_fuel(pow256, 9);
        lemma_le_bytes_value(d as nat, 8);
    }
    le_le(&db, &max_bytes(n))
}

/// The randomness of a report: the server's PRF outputs assembled, combined by
/// exclusive or with the client's.
pub open spec fn report_randomness(client_outs: Seq<Seq<u8>>, server_outs: Seq<Seq<u8>>, len: nat) -> Seq<u8> {
    xor_seq(assembled(server_outs, len), assembled(client_outs, len))
}

/// The PRF outputs for a report: one per evaluation, each a full output.
pub open spec fn outputs_fit(outs: Seq<Vec<u8>>, len: nat) -> bool {
    &&& outs.len() == evals_for(len)
    &&& forall|j: int| 0 <= j < outs.len() ==> #[trigger] outs[j]@.len() >= PRF_OUTPUT_BYTES
}

/// Client of the Expand scheme.
pub struct ClientExpand {
    parameters: ParametersShuffle,
    server_sig_pk: Vec<u8>,
    client_sig_pk: Vec<u8>,
    proving_key: Vec<u8>,
    shape: ClientShape,
    storage: ClientExpandStorage,
}

impl ClientExpand {
    pub closed spec fn params(&self) -> ParametersShuffle {
        self.parameters
    }

    pub closed spec fn shape_of(&self) -> ClientShape {
        self.shape
    }

    pub closed spec fn stored(&self) -> ClientExpandStorage {
        self.storage
    }

    pub closed spec fn client_pk(&self) -> Seq<u8> {
        self.client_sig_pk@
    }

    pub closed spec fn server_pk(&self) -> Seq<u8> {
        self.server_sig_pk@
    }

    pub closed spec fn proving_key_bytes(&self) -> Seq<u8> {
        self.proving_key@
    }

    /// The parameters are well formed and the sizes fit them.
    pub open spec fn wf(&self) -> bool {
        &&& self.params().wf()
        &&& self.shape_of().valid(self.params().gamma_width())
    }

    /// A client with the given parameters, keys and sizes, and empty storage;
    /// refused when the sizes do not fit together.
    pub fn new(
        parameters: ParametersShuffle,
        server_sig_pk: Vec<u8>,
        client_sig_pk: Vec<u8>,
        proving_key: Vec<u8>,
        shape: ClientShape,
    ) -> (r: Result<Self, ClientError>)
        requires
            parameters.wf(),
        ensures
            shape.valid(parameters.gamma_width()) <==> r is Ok,
            r is Err ==> r == Err::<Self, ClientError>(ClientError::InvalidShape),
            r matches Ok(c) ==> {
                &&& c.wf()
                &&& c.params() == parameters
                &&& c.shape_of() == shape
                &&& c.server_pk() == server_sig_pk@
                &&& c.client_pk() == client_sig_pk@
                &&& c.proving_key_bytes() == proving_key@
                &&& c.stored().generator_seed is None
                &&& c.stored().index == 0
                &&& c.stored().merkle_root is None
                &&& c.stored().server_seed is None
                &&& c.stored().server_signature is None
            },
    {
        let g = parameters.gamma_width_bytes();
        let n = shape.input_bytes;
        let k = shape.k;
        let ok_sizes = shape.mt_depth >= 1 && shape.mt_depth <= 64 && shape.randomness_bytes >= 1
            && n >= 1 && k < u64::MAX && (shape.is_real_input || k >= 1);
        if !ok_sizes {
            return Err(ClientError::InvalidShape);
        }
        let windows: u128 = if shape.is_real_input { 2 * (n as u128) } else { n as u128 };
        if g as u128 + windows > shape.randomness_bytes as u128 {
            return Err(ClientError::InvalidShape);
        }
        let d: u64 = if shape.is_real_input { k + 1 } else { k };
        if !fits_in_width(d, n) {
            return Err(ClientError::InvalidShape);
        }
        let leaves = leaves_for_depth(shape.mt_depth) as u128;
        let ne = num_evals(shape.randomness_bytes) as u128;
        proof {
            vstd::arithmetic::power2::lemma_pow2_strictly_increases((shape.mt_depth - 1) as nat, 64);
            vstd::arithmetic::power2::lemma2_to64();
            assert(leaves * ne < 0x1_0000_0000_0000_0000_0000_0000_0000_0000) by (nonlinear_arith)
                requires
                    leaves < 0x1_0000_0000_0000_0000,
                    ne < 0x1_0000_0000_0000_0000,
            ;
            assert(leaves * (shape.commitment_randomness_bytes as u128) < 0x1_0000_0000_0000_0000_0000_0000_0000_0000)
                by (nonlinear_arith)
                requires
                    leaves < 0x1_0000_0000_0000_0000,
                    shape.commitment_randomness_bytes < 0x1_0000_0000_0000_0000,
            ;
        }
        if leaves * ne > usize::MAX as u128 {
            return Err(ClientError::InvalidShape);
        }
        let c = shape.commitment_randomness_bytes as u128;
        if leaves * c > usize::MAX as u128 - 32 {
            return Err(ClientError::InvalidShape);
        }
        Ok(ClientExpand {
            parameters,
            server_sig_pk,
            client_sig_pk,
            proving_key,
            shape,
            storage: ClientExpandStorage::new(),
        })
    }

    /// The sizes the client works with.
    pub fn shape(&self) -> (s: ClientShape)
        ensures
            s == self.shape_of(),
    {
        self.shape
    }

    /// The server's signature public key.
    pub fn server_sig_pk(&self) -> (k: &Vec<u8>)
        ensures
            k@ == self.server_pk(),
    {
        &self.server_sig_pk
    }

    /// The storage of the session.
    pub fn storage(&self) -> (s: &ClientExpandStorage)
        ensures
            *s == self.stored(),
    {
        &self.storage
    }

    /// The number of leaves of the Merkle tree of one batch: `2^(depth - 1)`.
    pub fn num_leaves(&self) -> (n: u64)
        requires
            self.wf(),
        ensures
            n as nat == self.shape_of().leaves(),
    {
        leaves_for_depth(self.shape.mt_depth)
    }

    /// The number of leaves of one batch, as a length.
    fn leaves_len(&self) -> (n: usize)
        requires
            self.wf(),
        ensures
            n as nat == self.shape_of().leaves(),
    {
        let n = leaves_for_depth(self.shape.mt_depth);
        let ghost ne = evals_for(self.shape.randomness_bytes as nat);
        assert(n <= n * ne) by (nonlinear_arith)
            requires
                ne >= 1,
        ;
        n as usize
    }

    /// The PRF evaluation points under the client seed for round `round`.
    pub fn round_eval_points(&self, round: usize) -> (r: Vec<Vec<u8>>)
        requires
            self.wf(),
            (round + 1) * evals_for(self.shape_of().randomness_bytes as nat) <= usize::MAX,
        ensures
            r@.len() == evals_for(self.shape_of().randomness_bytes as nat),
            forall|j: int| 0 <= j < r@.len() ==> {
                &&& #[trigger] r@[j]@.len() == 32
                &&& le_nat(r@[j]@) == eval_index(round as nat, j as nat, r@.len())
            },
    {
        let ne = num_evals(self.shape.randomness_bytes);
        let mut r: Vec<Vec<u8>> = Vec::new();
        let mut j: usize = 0;
        while j < ne
            invariant
                j <= ne,
                ne >= 1,
                (round + 1) * ne <= usize::MAX,
                r@.len() == j,
                forall|i: int| 0 <= i < j ==> {
                    &&& #[trigger] r@[i]@.len() == 32
                    &&& le_nat(r@[i]@) == eval_index(round as nat, i as nat, ne as nat)
                },
            decreases ne - j,
        {
            assert(round * ne + j <= (round + 1) * ne) by (nonlinear_arith)
                requires
                    j < ne,
            ;
            let p = eval_point(round, j, ne);
            r.push(p);
            j = j + 1;
        }
        r
    }

    /// First part of the randomness generation: stores the seed of the
    /// generator that the batch was drawn from and the root of the Merkle tree
    /// over the batch's commitments, and returns the commitment message.
    pub fn generate_randomness_create(&mut self, generator_seed: [u8; 32], merkle_root: Vec<u8>) -> (m: Vec<u8>)
        ensures
            m@ == commit_encoding(merkle_root@, old(self).client_pk()),
            final(self).stored().generator_seed == Some(generator_seed),
            final(self).stored().merkle_root == Some(merkle_root),
            final(self).stored().index == old(self).stored().index,
            final(self).stored().server_seed == old(self).stored().server_seed,
            final(self).stored().server_signature == old(self).stored().server_signature,
            final(self).params() == old(self).params(),
            final(self).shape_of() == old(self).shape_of(),
            final(self).client_pk() == old(self).client_pk(),
            final(self).server_pk() == old(self).server_pk(),
            final(self).proving_key_bytes() == old(self).proving_key_bytes(),
    {
        let msg = ClientCommitMessage {
            merkle_root_or_commitment: merkle_root.clone(),
            client_signature_public_key: self.client_sig_pk.clone(),
        };
        let m = msg.to_bytes();
        self.storage.generator_seed = Some(generator_seed);
        self.storage.merkle_root = Some(merkle_root);
        m
    }

    /// The bytes that the server's signature in `server_message` must sign.
    pub fn server_signature_input(&self, server_message: &Vec<u8>) -> (r: Result<Vec<u8>, ClientError>)
        ensures
            match split_two_fields(server_message@) {
                None => r == Err::<Vec<u8>, ClientError>(ClientError::Deserialization),
                Some((seed, _sig)) => match self.stored().merkle_root {
                    None => r == Err::<Vec<u8>, ClientError>(ClientError::UnobtainedValue),
                    Some(root) => r matches Ok(b) && b@ == signature_input(root@, self.client_pk(), seed),
                },
            },
    {
        let msg = match ServerResponseMessage::from_bytes(server_message) {
            Ok(m) => m,
            Err(_) => return Err(ClientError::Deserialization),
        };
        match &self.storage.merkle_root {
            None => Err(ClientError::UnobtainedValue),
            Some(root) => Ok(signature_input_bytes(root, &self.client_sig_pk, &msg.server_seed)),
        }
    }

    /// Second part of the randomness generation. `signature_valid` says whether
    /// the server's signature verifies on `server_signature_input`. Only then
    /// are the server's seed and signature stored.
    pub fn generate_randomness_verify(&mut self, server_message: &Vec<u8>, signature_valid: bool) -> (r: Result<bool, ClientError>)
        ensures
            final(self).params() == old(self).params(),
            final(self).shape_of() == old(self).shape_of(),
            final(self).client_pk() == old(self).client_pk(),
            final(self).server_pk() == old(self).server_pk(),
            final(self).proving_key_bytes() == old(self).proving_key_bytes(),
            match split_two_fields(server_message@) {
                None => r == Err::<bool, ClientError>(ClientError::Deserialization)
                    && final(self).stored() == old(self).stored(),
                Some((seed, sig)) => match old(self).stored().merkle_root {
                    None => r == Err::<bool, ClientError>(ClientError::UnobtainedValue)
                        && final(self).stored() == old(self).stored(),
                    Some(_) => r == Ok::<bool, ClientError>(signature_valid) && if signature_valid {
                        &&& final(self).stored().server_seed matches Some(s) && s@ == seed
                        &&& final(self).stored().server_signature matches Some(g) && g@ == sig
                        &&& final(self).stored().generator_seed == old(self).stored().generator_seed
                        &&& final(self).stored().index == old(self).stored().index
                        &&& final(self).stored().merkle_root == old(self).stored().merkle_root
                    } else {
                        final(self).stored() == old(self).stored()
                    },
                },
            },
    {
        let msg = match ServerResponseMessage::from_bytes(server_message) {
            Ok(m) => m,
            Err(_) => return Err(ClientError::Deserialization),
        };
        if self.storage.merkle_root.is_none() {
            return Err(ClientError::UnobtainedValue);
        }
        if signature_valid {
            self.storage.server_seed = Some(msg.server_seed);
            self.storage.server_signature = Some(msg.server_signature);
            Ok(true)
        } else {
            Ok(false)
        }
    }

    /// The report value of the client with these parameters on the true value
    /// `input_value`, given the PRF outputs under the client seed and under the
    /// server seed.
    pub open spec fn report_value_spec(
        &self,
        input_value: Seq<u8>,
        client_outs: Seq<Vec<u8>>,
        server_outs: Seq<Vec<u8>>,
    ) -> nat {
        let sh = self.shape_of();
        ldp_apply(
            report_randomness(
                client_outs.map_values(|o: Vec<u8>| o@),
                server_outs.map_values(|o: Vec<u8>| o@),
                sh.randomness_bytes as nat,
            ),
            self.params().gamma_seq(),
            input_value,
            sh.input_bytes as nat,
            sh.k as nat,
            sh.is_real_input,
        )
    }

    /// The bytes a ChaCha generator seeded with `generator_seed` draws for one
    /// batch: the client seed, then each leaf's commitment randomness.
    pub fn generator_draws(&self, generator_seed: [u8; 32]) -> (r: Vec<u8>)
        requires
            self.wf(),
        ensures
            r@ == chacha_stream(generator_seed@, self.shape_of().draw_len()),
            r@.len() == self.shape_of().draw_len(),
    {
        let leaves = self.leaves_len();
        let c = self.shape.commitment_randomness_bytes;
        assert(leaves * c <= usize::MAX - 32) by (nonlinear_arith)
            requires
                SEED_BYTES + leaves * c <= usize::MAX,
                SEED_BYTES == 32;
        chacha_draw(generator_seed, SEED_BYTES + leaves * c)
    }

    /// Leaf `leaf` of the batch drawn as `draws`: its evaluation points and its
    /// commitment randomness.
    pub fn leaf_inputs(&self, draws: &Vec<u8>, leaf: usize) -> (r: LeafInputs)
        requires
            self.wf(),
            draws@.len() == self.shape_of().draw_len(),
            leaf < self.shape_of().leaves(),
        ensures
            leaf_matches(
                r,
                draws@,
                leaf as nat,
                self.shape_of().commitment_randomness_bytes as nat,
                evals_for(self.shape_of().randomness_bytes as nat),
            ),
    {
        let c = self.shape.commitment_randomness_bytes;
        let ghost ne = evals_for(self.shape.randomness_bytes as nat);
        let ghost leaves = self.shape.leaves();
        assert((leaf + 1) * ne <= leaves * ne && (leaf + 1) * c <= leaves * c) by (nonlinear_arith)
            requires
                leaf + 1 <= leaves,
                ne >= 0,
                c >= 0,
        ;
        assert(self.shape_of().draw_len() == 32 + leaves * c);
        assert(32 + (leaf + 1) * c <= usize::MAX);
        assert(leaf * c + c == (leaf + 1) * c) by (nonlinear_arith);
        assert(leaf * c >= 0) by (nonlinear_arith);
        let eval_points = self.round_eval_points(leaf);
        let start = SEED_BYTES + leaf * c;
        let end = start + c;
        assert(end == SEED_BYTES + (leaf + 1) * c) by (nonlinear_arith)
            requires
                end == SEED_BYTES + leaf * c + c,
        ;
        let commitment_randomness = window(draws, start, end);
        LeafInputs { eval_points, commitment_randomness }
    }

    /// Everything a client commits to for one batch, drawn from the generator
    /// seeded with `generator_seed` in a fixed order: the client seed, then for
    /// each leaf in turn its commitment randomness; each leaf also has the
    /// evaluation points of its round.
    pub fn batch(&self, generator_seed: [u8; 32]) -> (r: (Vec<u8>, Vec<LeafInputs>))
        requires
            self.wf(),
        ensures
            r.0@ == chacha_stream(generator_seed@, self.shape_of().draw_len()).subrange(0, SEED_BYTES as int),
            r.1@.len() == self.shape_of().leaves(),
            forall|i: int| 0 <= i < r.1@.len() ==> #[trigger] leaf_matches(
                r.1@[i],
                chacha_stream(generator_seed@, self.shape_of().draw_len()),
                i as nat,
                self.shape_of().commitment_randomness_bytes as nat,
                evals_for(self.shape_of().randomness_bytes as nat),
            ),
    {
        let draws = self.generator_draws(generator_seed);
        let client_seed = window(&draws, 0, SEED_BYTES);
        let leaves = self.leaves_len();
        let ghost c = self.shape.commitment_randomness_bytes as nat;
        let ghost ne = evals_for(self.shape.randomness_bytes as nat);
        let mut out: Vec<LeafInputs> = Vec::new();
        let mut i: usize = 0;
        while i < leaves
            invariant
                self.wf(),
                i <= leaves,
                leaves == self.shape_of().leaves(),
                draws@ == chacha_stream(generator_seed@, self.shape_of().draw_len()),
                draws@.len() == self.shape_of().draw_len(),
                c == self.shape_of().commitment_randomness_bytes,
                ne == evals_for(self.shape_of().randomness_bytes as nat),
                out@.len() == i,
                forall|j: int| 0 <= j < i ==> #[trigger] leaf_matches(out@[j], draws@, j as nat, c, ne),
            decreases leaves - i,
        {
            out.push(self.leaf_inputs(&draws, i));
            i = i + 1;
        }
        (client_seed, out)
    }

    /// What the outside must supply for round `index`, replayed from the stored
    /// generator seed: the client seed, the round's evaluation points and
    /// commitment randomness, and the stored server seed.
    pub fn randomization_request(&self, index: usize) -> (r: Result<RandomizationRequest, ClientError>)
        requires
            self.wf(),
        ensures
            match (self.stored().generator_seed, self.stored().server_seed) {
                (Some(g), Some(ss)) => if index < self.shape_of().leaves() {
                    r matches Ok(q) && {
                        let draws = chacha_stream(g@, self.shape_of().draw_len());
                        &&& q.client_seed@ == draws.subrange(0, SEED_BYTES as int)
                        &&& q.server_seed@ == ss@
                        &&& leaf_matches(
                            LeafInputs { eval_points: q.client_eval_points, commitment_randomness: q.commitment_randomness },
                            draws,
                            index as nat,
                            self.shape_of().commitment_randomness_bytes as nat,
                            evals_for(self.shape_of().randomness_bytes as nat),
                        )
                    }
                } else {
                    r == Err::<RandomizationRequest, ClientError>(ClientError::BatchExhausted)
                },
                _ => r == Err::<RandomizationRequest, ClientError>(ClientError::UnobtainedValue),
            },
    {
        let g = match self.storage.generator_seed {
            Some(g) => g,
            None => return Err(ClientError::UnobtainedValue),
        };
        let server_seed = match &self.storage.server_seed {
            Some(ss) => ss.clone(),
            None => return Err(ClientError::UnobtainedValue),
        };
        if index >= self.leaves_len() {
            return Err(ClientError::BatchExhausted);
        }
        let draws = self.generator_draws(g);
        let client_seed = window(&draws, 0, SEED_BYTES);
        let leaf = self.leaf_inputs(&draws, index);
        Ok(RandomizationRequest {
            client_seed,
            client_eval_points: leaf.eval_points,
            commitment_randomness: leaf.commitment_randomness,
            server_seed,
        })
    }

    /// The report value on the true value `input_value`, from the PRF outputs
    /// under the client seed and under the server seed.
    pub fn report_value(&self, input_value: &Vec<u8>, client_outs: &Vec<Vec<u8>>, server_outs: &Vec<Vec<u8>>) -> (v: u64)
        requires
            self.wf(),
            input_value@.len() == self.shape_of().input_bytes,
            outputs_fit(client_outs@, self.shape_of().randomness_bytes as nat),
            outputs_fit(server_outs@, self.shape_of().randomness_bytes as nat),
        ensures
            v as nat == self.report_value_spec(input_value@, client_outs@, server_outs@),
    {
        let len = self.shape.randomness_bytes;
        let client_randomness = assemble_randomness(client_outs, len);
        let server_randomness = assemble_randomness(server_outs, len);
        let randomness = xor_bytes(&server_randomness, &client_randomness);
        let gamma = self.parameters.gamma_as_bytes();
        apply_ldp(
            &randomness,
            &gamma,
            input_value,
            self.shape.input_bytes,
            self.shape.k,
            self.shape.is_real_input,
        )
    }

    /// The `Randomize` step: computes the report value of `input_value` from the
    /// PRF outputs, advances the round, and returns the report message carrying
    /// `proof` (empty when proof generation was skipped). The round advances
    /// whether or not the message can be built.
    pub fn verifiable_randomization_create(
        &mut self,
        input_value: &Vec<u8>,
        client_outs: &Vec<Vec<u8>>,
        server_outs: &Vec<Vec<u8>>,
        proof: Vec<u8>,
    ) -> (r: Result<Vec<u8>, ClientError>)
        requires
            old(self).wf(),
            old(self).stored().index < usize::MAX,
            input_value@.len() == old(self).shape_of().input_bytes,
            outputs_fit(client_outs@, old(self).shape_of().randomness_bytes as nat),
            outputs_fit(server_outs@, old(self).shape_of().randomness_bytes as nat),
        ensures
            final(self).params() == old(self).params(),
            final(self).shape_of() == old(self).shape_of(),
            final(self).client_pk() == old(self).client_pk(),
            final(self).server_pk() == old(self).server_pk(),
            final(self).proving_key_bytes() == old(self).proving_key_bytes(),
            final(self).wf(),
            ({
                let s0 = old(self).stored();
                let s1 = final(self).stored();
                if s0.generator_seed is None || s0.server_seed is None {
                    r == Err::<Vec<u8>, ClientError>(ClientError::UnobtainedValue) && s1 == s0
                } else {
                    &&& s1.index == s0.index + 1
                    &&& s1.generator_seed == s0.generator_seed
                    &&& s1.merkle_root == s0.merkle_root
                    &&& s1.server_seed == s0.server_seed
                    &&& s1.server_signature == s0.server_signature
                    &&& match (s0.merkle_root, s0.server_signature) {
                        (Some(root), Some(sig)) => r matches Ok(m) && m@ == report_encoding(
                            old(self).client_pk(),
                            root@,
                            s0.server_seed.unwrap()@,
                            sig@,
                            proof@,
                            old(self).report_value_spec(input_value@, client_outs@, server_outs@) as u64,
                        ),
                        _ => r == Err::<Vec<u8>, ClientError>(ClientError::UnobtainedValue),
                    }
                }
            }),
    {
        if self.storage.generator_seed.is_none() {
            return Err(ClientError::UnobtainedValue);
        }
        let server_seed = match &self.storage.server_seed {
            Some(ss) => ss.clone(),
            None => return Err(ClientError::UnobtainedValue),
        };
        let ldp_value = self.report_value(input_value, client_outs, server_outs);
        self.storage.index = self.storage.index + 1;
        let root = match &self.storage.merkle_root {
            Some(root) => root.clone(),
            None => return Err(ClientError::UnobtainedValue),
        };
        let server_signature = match &self.storage.server_signature {
            Some(sig) => sig.clone(),
            None => return Err(ClientError::UnobtainedValue),
        };
        let msg = ClientReportMessage {
            client_signature_public_key: self.client_sig_pk.clone(),
            root_or_commitment_reference: root,
            server_seed,
            server_signature,
            proof,
            ldp_value,
        };
        Ok(msg.to_bytes())
    }
}

/// The report value the client computes is the one value that the circuit's
/// mechanism relation accepts on the same randomness (for boolean input whose
/// true value fits in 64 bits when the true value is reported).
pub proof fn lemma_report_accepted_by_circuit(
    c: ClientExpand,
    input_value: Seq<u8>,
    client_outs: Seq<Vec<u8>>,
    server_outs: Seq<Vec<u8>>,
    v: u64,
)
    requires
        c.wf(),
        input_value.len() == c.shape_of().input_bytes,
        outputs_fit(client_outs, c.shape_of().randomness_bytes as nat),
        outputs_fit(server_outs, c.shape_of().randomness_bytes as nat),
        c.shape_of().is_real_input || le_nat(input_value) < two_pow_64() || ldp_bit(
            report_randomness(
                client_outs.map_values(|o: Vec<u8>| o@),
                server_outs.map_values(|o: Vec<u8>| o@),
                c.shape_of().randomness_bytes as nat,
            ),
            c.params().gamma_seq(),
        ),
    ensures
        circuit_mechanism_holds(
            v as nat,
            report_randomness(
                client_outs.map_values(|o: Vec<u8>| o@),
                server_outs.map_values(|o: Vec<u8>| o@),
                c.shape_of().randomness_bytes as nat,
            ),
            c.params().gamma_seq(),
            input_value,
            c.shape_of().input_bytes as nat,
            c.shape_of().k as nat,
            c.shape_of().is_real_input,
        ) <==> v as nat == c.report_value_spec(input_value, client_outs, server_outs),
{
    let sh = c.shape_of();
    let r = report_randomness(
        client_outs.map_values(|o: Vec<u8>| o@),
        server_outs.map_values(|o: Vec<u8>| o@),
        sh.randomness_bytes as nat,
    );
    crate::messages::lemma_le_bytes_len(
        crate::parameters::gamma_encoding(c.params().gamma_num(), c.params().gamma_den(), c.params().gamma_width()),
        c.params().gamma_width(),
    );
    lemma_mechanism_consistency(
        v,
        r,
        c.params().gamma_seq(),
        input_value,
        sh.input_bytes as nat,
        sh.k as nat,
        sh.is_real_input,
    );
}

} // verus!
