//! Protocol messages: flat encodings of their fields in a fixed order. A byte
//! field is its length as 8 little-endian bytes followed by its bytes; an
//! integer is 8 little-endian bytes.
use crate::bytes_le::{le_nat, lemma_le_nat_bound, lemma_pow256_pos, pow256, window};
use vstd::arithmetic::div_mod::{lemma_fundamental_div_mod, lemma_mod_bound};
use vstd::prelude::*;

verus! {

/// Width of a length prefix or an integer field.
pub const WORD_BYTES: usize = 8;

/// `v` in `w` little-endian bytes (higher bytes dropped).
pub open spec fn le_bytes(v: nat, w: nat) -> Seq<u8>
    decreases w,
{
    if w == 0 {
        Seq::empty()
    } else {
        seq![(v % 256) as u8] + le_bytes(v / 256, (w - 1) as nat)
    }
}

/// A byte field: its length, then its bytes.
pub open spec fn field(f: Seq<u8>) -> Seq<u8> {
    le_bytes(f.len(), 8) + f
}

/// Splits the leading byte field off `s`.
pub open spec fn split_field(s: Seq<u8>) -> Option<(Seq<u8>, Seq<u8>)> {
    if s.len() < 8 {
        None
    } else {
        let n = le_nat(s.subrange(0, 8));
        if 8 + n <= s.len() {
            Some((s.subrange(8, (8 + n) as int), s.subrange((8 + n) as int, s.len() as int)))
        } else {
            None
        }
    }
}

/// The two byte fields that make up all of `s`, if they do.
pub open spec fn split_two_fields(s: Seq<u8>) -> Option<(Seq<u8>, Seq<u8>)> {
    match split_field(s) {
        Some((a, rest)) => match split_field(rest) {
            Some((b, tail)) => if tail.len() == 0 { Some((a, b)) } else { None },
            None => None,
        },
        None => None,
    }
}

pub proof fn lemma_le_bytes_len(v: nat, w: nat)
    ensures
        le_bytes(v, w).len() == w,
    decreases w,
{
    if w > 0 {
        lemma_le_bytes_len(v / 256, (w - 1) as nat);
    }
}

/// Reading `le_bytes(v, w)` gives `v` back when it fits.
pub proof fn lemma_le_bytes_value(v: nat, w: nat)
    requires
        v < pow256(w),
    ensures
        le_nat(le_bytes(v, w)) == v,
    decreases w,
{
    let s = le_bytes(v, w);
    if w == 0 {
        assert(v == 0);
    } else {
        let q = v / 256;
        lemma_fundamental_div_mod(v as int, 256);
        lemma_mod_bound(v as int, 256);
        assert(q < pow256((w - 1) as nat)) by (nonlinear_arith)
            requires
                v == 256 * q + v % 256,
                v < 256 * pow256((w - 1) as nat),
                v % 256 >= 0,
        ;
        lemma_le_bytes_value(q, (w - 1) as nat);
        lemma_le_bytes_len(q, (w - 1) as nat);
        assert(s.subrange(1, s.len() as int) =~= le_bytes(q, (w - 1) as nat));
    }
}

/// Splitting a field off its own encoding gives the field and what followed.
pub proof fn lemma_split_field(f: Seq<u8>, rest: Seq<u8>)
    requires
        f.len() < pow256(8),
    ensures
        split_field(field(f) + rest) == Some((f, rest)),
{
    lemma_le_bytes_len(f.len(), 8);
    lemma_le_bytes_value(f.len(), 8);
    let s = field(f) + rest;
    assert(s.subrange(0, 8) =~= le_bytes(f.len(), 8));
    assert(s.subrange(8, (8 + f.len()) as int) =~= f);
    assert(s.subrange((8 + f.len()) as int, s.len() as int) =~= rest);
}

/// `v` in `w` little-endian bytes.
pub fn put_le(v: u64, w: usize) -> (r: Vec<u8>)
    ensures
        r@ == le_bytes(v as nat, w as nat),
    decreases w,
{
    if w == 0 {
        Vec::new()
    } else {
        let mut r: Vec<u8> = Vec::new();
        r.push((v % 256) as u8);
        let mut rest = put_le(v / 256, w - 1);
        r.append(&mut rest);
        assert(r@ =~= le_bytes(v as nat, w as nat));
        r
    }
}

/// Appends the byte field `f` to `out`.
pub fn put_field(out: &mut Vec<u8>, f: &Vec<u8>)
    ensures
        final(out)@ == old(out)@ + field(f@),
{
    let mut len_bytes = put_le(f.len() as u64, WORD_BYTES);
    let mut body = f.clone();
    assert(body@ == f@);
    out.append(&mut len_bytes);
    out.append(&mut body);
    assert(final(out)@ =~= old(out)@ + field(f@));
}

/// The value of the 8 bytes of `s` at `pos`.
pub fn get_word(s: &Vec<u8>, pos: usize) -> (v: u64)
    requires
        pos + 8 <= s@.len(),
    ensures
        v as nat == le_nat(s@.subrange(pos as int, pos + 8)),
{
    let total: usize = s.len();
    let mut acc: u64 = 0;
    let mut j: usize = 8;
    while j > 0
        invariant
            j <= 8,
            total == s@.len(),
            pos + 8 <= s@.len(),
            acc as nat == le_nat(s@.subrange(pos + j, pos + 8)),
        decreases j,
    {
        let ghost t = s@.subrange(pos + j, pos + 8);
        proof {
            lemma_le_nat_bound(t);
            lemma_pow256_pos(t.len());
            reveal_with_fuel(pow256, 9);
            assert(pow256(t.len()) <= pow256(7)) by {
                lemma_pow256_mono(t.len(), 7);
            }
            assert(256 * acc + 255 < 0x1_0000_0000_0000_0000) by (nonlinear_arith)
                requires
                    acc < pow256(7),
                    pow256(7) == 0x100_0000_0000_0000,
            ;
        }
        j = j - 1;
        let b: u64 = s[pos + j] as u64;
        assert(b <= 255);
        assert(256 * acc + b < 0x1_0000_0000_0000_0000);
        acc = b + 256 * acc;
        assert(s@.subrange(pos + j, pos + 8).subrange(1, 8 - j as int) =~= t);
    }
    acc
}

proof fn lemma_pow256_mono(a: nat, b: nat)
    requires
        a <= b,
    ensures
        pow256(a) <= pow256(b),
    decreases b,
{
    if a < b {
        lemma_pow256_mono(a, (b - 1) as nat);
        lemma_pow256_pos((b - 1) as nat);
    }
}

/// Splits the leading byte field off `s[pos..]`: the field and the position
/// after it.
pub fn take_field(s: &Vec<u8>, pos: usize) -> (r: Option<(Vec<u8>, usize)>)
    requires
        pos <= s@.len(),
    ensures
        match split_field(s@.subrange(pos as int, s@.len() as int)) {
            Some((f, rest)) => r matches Some((g, next)) && g@ == f && next <= s@.len()
                && rest == s@.subrange(next as int, s@.len() as int),
            None => r is None,
        },
{
    let ghost t = s@.subrange(pos as int, s@.len() as int);
    if s.len() - pos < WORD_BYTES {
        return None;
    }
    let n = get_word(s, pos);
    assert(s@.subrange(pos as int, pos + 8) =~= t.subrange(0, 8));
    if n as usize > s.len() - pos - WORD_BYTES || n > (usize::MAX as u64) {
        return None;
    }
    let start = pos + WORD_BYTES;
    let end = start + n as usize;
    let f = window(s, start, end);
    assert(f@ =~= t.subrange(8, 8 + n));
    assert(s@.subrange(end as int, s@.len() as int) =~= t.subrange(8 + n, t.len() as int));
    Some((f, end))
}

/// Errors of decoding a message.
#[derive(Debug, Clone, Copy, PartialEq, Eq)]
pub enum MessageError {
    Malformed,
}

/// The server's answer to a client commitment.
#[derive(Debug, Clone, PartialEq, Eq)]
pub struct ServerResponseMessage {
    pub server_seed: Vec<u8>,
    pub server_signature: Vec<u8>,
}

impl ServerResponseMessage {
    pub open spec fn encoding(&self) -> Seq<u8> {
        field(self.server_seed@) + field(self.server_signature@)
    }

    pub fn to_bytes(&self) -> (r: Vec<u8>)
        ensures
            r@ == self.encoding(),
    {
        let mut r: Vec<u8> = Vec::new();
        put_field(&mut r, &self.server_seed);
        put_field(&mut r, &self.server_signature);
        assert(r@ =~= self.encoding());
        r
    }

    /// Decodes a message that consists of exactly two byte fields.
    pub fn from_bytes(s: &Vec<u8>) -> (r: Result<ServerResponseMessage, MessageError>)
        ensures
            match split_two_fields(s@) {
                Some((a, b)) => r matches Ok(m) && m.server_seed@ == a && m.server_signature@ == b,
                None => r == Err::<ServerResponseMessage, MessageError>(MessageError::Malformed),
            },
    {
        assert(s@.subrange(0, s@.len() as int) =~= s@);
        match take_field(s, 0) {
            None => Err(MessageError::Malformed),
            Some((a, p)) => match take_field(s, p) {
                None => Err(MessageError::Malformed),
                Some((b, q)) => {
                    if q == s.len() {
                        Ok(ServerResponseMessage { server_seed: a, server_signature: b })
                    } else {
                        Err(MessageError::Malformed)
                    }
                },
            },
        }
    }
}

/// Decoding an encoded server response gives it back.
pub proof fn lemma_server_response_round_trip(m: ServerResponseMessage)
    requires
        m.server_seed@.len() < pow256(8),
        m.server_signature@.len() < pow256(8),
    ensures
        split_two_fields(m.encoding()) == Some((m.server_seed@, m.server_signature@)),
{
    let a = field(m.server_seed@);
    let b = field(m.server_signature@);
    lemma_split_field(m.server_seed@, b);
    lemma_split_field(m.server_signature@, Seq::empty());
    assert(b + Seq::<u8>::empty() =~= b);
}

/// The client's opening message: its Merkle root (or commitment) and its
/// signature public key.
#[derive(Debug, Clone, PartialEq, Eq)]
pub struct ClientCommitMessage {
    pub merkle_root_or_commitment: Vec<u8>,
    pub client_signature_public_key: Vec<u8>,
}

/// The encoding of a client commitment message.
pub open spec fn commit_encoding(root: Seq<u8>, client_pk: Seq<u8>) -> Seq<u8> {
    field(root) + field(client_pk)
}

/// The encoding of a client report message.
pub open spec fn report_encoding(
    client_pk: Seq<u8>,
    root: Seq<u8>,
    server_seed: Seq<u8>,
    server_signature: Seq<u8>,
    proof: Seq<u8>,
    ldp_value: u64,
) -> Seq<u8> {
    field(client_pk) + field(root) + field(server_seed) + field(server_signature) + field(proof)
        + le_bytes(ldp_value as nat, 8)
}

impl ClientCommitMessage {
    pub open spec fn encoding(&self) -> Seq<u8> {
        commit_encoding(self.merkle_root_or_commitment@, self.client_signature_public_key@)
    }

    pub fn to_bytes(&self) -> (r: Vec<u8>)
        ensures
            r@ == self.encoding(),
    {
        let mut r: Vec<u8> = Vec::new();
        put_field(&mut r, &self.merkle_root_or_commitment);
        put_field(&mut r, &self.client_signature_public_key);
        assert(r@ =~= self.encoding());
        r
    }
}

/// The bytes that the server signs: the client's root, the client's signature
/// public key and the server seed.
pub open spec fn signature_input(root: Seq<u8>, client_pk: Seq<u8>, server_seed: Seq<u8>) -> Seq<u8> {
    field(root) + field(client_pk) + field(server_seed)
}

pub fn signature_input_bytes(root: &Vec<u8>, client_pk: &Vec<u8>, server_seed: &Vec<u8>) -> (r: Vec<u8>)
    ensures
        r@ == signature_input(root@, client_pk@, server_seed@),
{
    let mut r: Vec<u8> = Vec::new();
    put_field(&mut r, root);
    put_field(&mut r, client_pk);
    put_field(&mut r, server_seed);
    assert(r@ =~= signature_input(root@, client_pk@, server_seed@));
    r
}

/// The client's report: its key, root, the server's seed and signature, the
/// proof, and the report value.
#[derive(Debug, Clone, PartialEq, Eq)]
pub struct ClientReportMessage {
    pub client_signature_public_key: Vec<u8>,
    pub root_or_commitment_reference: Vec<u8>,
    pub server_seed: Vec<u8>,
    pub server_signature: Vec<u8>,
    pub proof: Vec<u8>,
    pub ldp_value: u64,
}

impl ClientReportMessage {
    pub open spec fn encoding(&self) -> Seq<u8> {
        report_encoding(
            self.client_signature_public_key@,
            self.root_or_commitment_reference@,
            self.server_seed@,
            self.server_signature@,
            self.proof@,
            self.ldp_value,
        )
    }

    pub fn to_bytes(&self) -> (r: Vec<u8>)
        ensures
            r@ == self.encoding(),
    {
        let mut r: Vec<u8> = Vec::new();
        put_field(&mut r, &self.client_signature_public_key);
        put_field(&mut r, &self.root_or_commitment_reference);
        put_field(&mut r, &self.server_seed);
        put_field(&mut r, &self.server_signature);
        put_field(&mut r, &self.proof);
        let mut v = put_le(self.ldp_value, WORD_BYTES);
        r.append(&mut v);
        assert(r@ =~= self.encoding());
        r
    }
}

} // verus!
