//! Derivation of the joint randomness from client and server PRF outputs.
use crate::bytes_le::{le_nat, pow256};
use rand::RngCore;
use rand::SeedableRng;
use rand_chacha::ChaChaRng;
use vstd::prelude::*;

verus! {

/// Bytes of one PRF output that the randomness takes.
pub const PRF_OUTPUT_BYTES: usize = 32;

/// Bytes of one PRF evaluation point.
pub const EVAL_POINT_BYTES: usize = 32;

/// The number of PRF evaluations that fill `len` bytes of randomness.
pub open spec fn evals_for(len: nat) -> nat {
    ((len - 1) as nat / 32) + 1
}

/// The index of evaluation `inner` of round `round`.
pub open spec fn eval_index(round: nat, inner: nat, num_evals: nat) -> nat {
    round * num_evals + inner
}

/// The randomness assembled from the PRF outputs `outs`: byte `i` is byte
/// `i % 32` of output `i / 32`.
pub open spec fn assembled(outs: Seq<Seq<u8>>, len: nat) -> Seq<u8> {
    Seq::new(len, |i: int| outs[i / 32][i % 32])
}

/// The bytewise exclusive or of `a` and `b`.
pub open spec fn xor_seq(a: Seq<u8>, b: Seq<u8>) -> Seq<u8> {
    Seq::new(a.len(), |i: int| a[i] ^ b[i])
}

/// The first `len` bytes that a ChaCha generator seeded with `seed` draws.
pub uninterp spec fn chacha_stream(seed: Seq<u8>, len: nat) -> Seq<u8>;

pub proof fn lemma_le_nat_push(s: Seq<u8>, b: u8)
    ensures
        le_nat(s.push(b)) == le_nat(s) + pow256(s.len()) * b,
    decreases s.len(),
{
    let t = s.push(b);
    if s.len() == 0 {
        assert(t.subrange(1, t.len() as int) =~= Seq::<u8>::empty());
        assert(le_nat(Seq::<u8>::empty()) == 0);
        assert(le_nat(t) == t[0] as nat + 256 * le_nat(t.subrange(1, t.len() as int)));
        assert(pow256(0) == 1);
    } else {
        let s1 = s.subrange(1, s.len() as int);
        lemma_le_nat_push(s1, b);
        assert(t.subrange(1, t.len() as int) =~= s1.push(b));
        assert(256 * (le_nat(s1) + pow256(s1.len()) * b) == 256 * le_nat(s1) + (256 * pow256(s1.len())) * b)
            by (nonlinear_arith);
        assert(pow256(s.len()) == 256 * pow256(s1.len()));
        assert(t[0] == s[0]);
        assert(le_nat(t) == t[0] as nat + 256 * le_nat(t.subrange(1, t.len() as int)));
        assert(le_nat(s) == s[0] as nat + 256 * le_nat(s1));
    }
}

/// The number of PRF evaluations that fill `len` bytes of randomness.
pub fn num_evals(len: usize) -> (r: usize)
    requires
        len >= 1,
    ensures
        r as nat == evals_for(len as nat),
        r >= 1,
        r * 32 >= len,
{
    (len - 1) / 32 + 1
}

/// The evaluation point of evaluation `inner` of round `round`: the index
/// `round * num_evals + inner` in little-endian bytes, padded with zeros.
pub fn eval_point(round: usize, inner: usize, num_evals: usize) -> (p: Vec<u8>)
    requires
        round * num_evals + inner <= usize::MAX,
    ensures
        p@.len() == EVAL_POINT_BYTES,
        le_nat(p@) == eval_index(round as nat, inner as nat, num_evals as nat),
{
    assert(round * num_evals >= 0) by (nonlinear_arith);
    let idx: usize = round * num_evals + inner;
    let mut v: usize = idx;
    let mut p: Vec<u8> = Vec::new();
    let mut j: usize = 0;
    while j < EVAL_POINT_BYTES
        invariant
            j <= EVAL_POINT_BYTES,
            p@.len() == j,
            le_nat(p@) + pow256(j as nat) * v == idx,
        decreases EVAL_POINT_BYTES - j,
    {
        let b: u8 = (v % 256) as u8;
        proof {
            lemma_le_nat_push(p@, b);
            assert(pow256(j as nat) * (v % 256) + pow256((j + 1) as nat) * (v / 256) == pow256(j as nat) * v)
                by (nonlinear_arith)
                requires
                    pow256((j + 1) as nat) == 256 * pow256(j as nat),
                    v == 256 * (v / 256) + v % 256,
            ;
        }
        p.push(b);
        v = v / 256;
        j = j + 1;
    }
    proof {
        reveal_with_fuel(pow256, 33);
        assert(pow256(32) > usize::MAX);
        assert(v == 0) by (nonlinear_arith)
            requires
                le_nat(p@) + pow256(32) * v == idx,
                pow256(32) > usize::MAX,
                idx <= usize::MAX,
                le_nat(p@) >= 0,
        ;
    }
    p
}

/// Evaluation points of distinct evaluations differ: within a round the inner
/// index stays below the number of evaluations, so rounds never share a point.
pub proof fn lemma_eval_points_distinct(
    point_a: Seq<u8>,
    point_b: Seq<u8>,
    round1: nat,
    inner1: nat,
    round2: nat,
    inner2: nat,
    num_evals: nat,
)
    requires
        inner1 < num_evals,
        inner2 < num_evals,
        round1 != round2 || inner1 != inner2,
        le_nat(point_a) == eval_index(round1, inner1, num_evals),
        le_nat(point_b) == eval_index(round2, inner2, num_evals),
    ensures
        point_a != point_b,
{
    if round1 == round2 {
    } else if round1 < round2 {
        assert(round1 * num_evals + inner1 < round2 * num_evals + inner2) by (nonlinear_arith)
            requires
                round1 + 1 <= round2,
                inner1 < num_evals,
        ;
    } else {
        assert(round2 * num_evals + inner2 < round1 * num_evals + inner1) by (nonlinear_arith)
            requires
                round2 + 1 <= round1,
                inner2 < num_evals,
        ;
    }
}

/// The bytewise exclusive or of two strings of one length.
pub fn xor_bytes(a: &Vec<u8>, b: &Vec<u8>) -> (r: Vec<u8>)
    requires
        a@.len() == b@.len(),
    ensures
        r@ == xor_seq(a@, b@),
{
    let mut r: Vec<u8> = Vec::new();
    let mut i: usize = 0;
    while i < a.len()
        invariant
            i <= a@.len(),
            a@.len() == b@.len(),
            r@ =~= xor_seq(a@, b@).subrange(0, i as int),
        decreases a@.len() - i,
    {
        r.push(a[i] ^ b[i]);
        i = i + 1;
    }
    assert(r@ =~= xor_seq(a@, b@));
    r
}

/// Fills `len` bytes of randomness from the PRF outputs `outs`, each truncated
/// to what its chunk of 32 bytes needs.
pub fn assemble_randomness(outs: &Vec<Vec<u8>>, len: usize) -> (r: Vec<u8>)
    requires
        len >= 1,
        outs@.len() == evals_for(len as nat),
        forall|j: int| 0 <= j < outs@.len() ==> #[trigger] outs@[j]@.len() >= PRF_OUTPUT_BYTES,
    ensures
        r@ == assembled(outs@.map_values(|o: Vec<u8>| o@), len as nat),
{
    let ghost views = outs@.map_values(|o: Vec<u8>| o@);
    let mut r: Vec<u8> = Vec::new();
    let mut i: usize = 0;
    while i < len
        invariant
            i <= len,
            len >= 1,
            outs@.len() == evals_for(len as nat),
            forall|j: int| 0 <= j < outs@.len() ==> #[trigger] outs@[j]@.len() >= PRF_OUTPUT_BYTES,
            views == outs@.map_values(|o: Vec<u8>| o@),
            r@ =~= assembled(views, len as nat).subrange(0, i as int),
        decreases len - i,
    {
        let j: usize = i / 32;
        assert(j < outs@.len()) by (nonlinear_arith)
            requires
                j == i / 32,
                i < len,
                outs@.len() == ((len - 1) as nat / 32) + 1,
        ;
        r.push(outs[j][i % 32]);
        i = i + 1;
    }
    assert(r@ =~= assembled(views, len as nat));
    r
}

/// Relies on `ChaChaRng::from_seed` and `RngCore::fill_bytes` of rand_chacha:
/// the bytes drawn depend on the seed and their count alone.
#[verifier::external_body]
pub(crate) fn chacha_draw(seed: [u8; 32], len: usize) -> (r: Vec<u8>)
    ensures
        r@ == chacha_stream(seed@, len as nat),
        r@.len() == len,
{
    let mut out = vec![0u8; len];
    ChaChaRng::from_seed(seed).fill_bytes(&mut out);
    out
}

} // verus!
