//! System parameters: the privacy parameter gamma and the setup parameters of
//! the commitment and signature schemes.
use crate::bignum::{le_div, le_le, le_mul};
use crate::messages::{le_bytes, lemma_le_bytes_len, lemma_le_bytes_value};
use crate::bytes_le::{fit_width, le_nat, lemma_pow256_pos, max_bytes, max_value, pow256};
use vstd::arithmetic::div_mod::{lemma_div_is_ordered, lemma_div_multiples_vanish};
use vstd::prelude::*;

verus! {

/// Gamma, a fraction in `(0, 1]`, as the integer of `g` bytes that the proof
/// circuit compares with: `gamma * (256^g - 1)` rounded down.
pub open spec fn gamma_encoding(numerator: nat, denominator: nat, g: nat) -> nat {
    (numerator * max_value(g)) / denominator
}

/// Errors of setting the scheme up.
#[derive(Debug, Clone, Copy, PartialEq, Eq)]
pub enum ParamError {
    /// Gamma is not in `(0, 1]`, or its encoding has no bytes.
    InvalidGamma,
}

/// All parameters of the shuffle scheme. Gamma is kept exactly, as the
/// fraction of two little-endian numbers of any length, and is reachable only
/// through its fixed-width encoding.
#[derive(Clone)]
pub struct ParametersShuffle {
    gamma_numerator: Vec<u8>,
    gamma_denominator: Vec<u8>,
    gamma_bytes: usize,
    pub client_commitment_scheme: Vec<u8>,
    pub server_signature_scheme: Vec<u8>,
    pub client_signature_scheme: Vec<u8>,
}

impl ParametersShuffle {
    pub closed spec fn gamma_num(&self) -> nat {
        le_nat(self.gamma_numerator@)
    }

    pub closed spec fn gamma_den(&self) -> nat {
        le_nat(self.gamma_denominator@)
    }

    pub closed spec fn gamma_width(&self) -> nat {
        self.gamma_bytes as nat
    }

    /// The parameters of the client commitment, server signature and client
    /// signature schemes.
    pub closed spec fn scheme_params(&self) -> (Seq<u8>, Seq<u8>, Seq<u8>) {
        (self.client_commitment_scheme@, self.server_signature_scheme@, self.client_signature_scheme@)
    }

    /// The encoding of gamma as bytes.
    pub open spec fn gamma_seq(&self) -> Seq<u8> {
        le_bytes(gamma_encoding(self.gamma_num(), self.gamma_den(), self.gamma_width()), self.gamma_width())
    }

    /// Gamma lies in `(0, 1]` and is encoded in at least one byte.
    pub open spec fn wf(&self) -> bool {
        &&& 0 < self.gamma_num() <= self.gamma_den()
        &&& self.gamma_width() >= 1
    }

    /// Sets the scheme up for gamma `gamma_numerator / gamma_denominator` (both
    /// little-endian), encoded in `gamma_bytes` bytes, with the given primitive
    /// parameters; refused unless gamma lies in `(0, 1]` and `gamma_bytes >= 1`.
    pub fn setup(
        gamma_numerator: Vec<u8>,
        gamma_denominator: Vec<u8>,
        gamma_bytes: usize,
        client_commitment_scheme: Vec<u8>,
        server_signature_scheme: Vec<u8>,
        client_signature_scheme: Vec<u8>,
    ) -> (r: Result<Self, ParamError>)
        ensures
            (0 < le_nat(gamma_numerator@) <= le_nat(gamma_denominator@) && gamma_bytes >= 1) <==> r is Ok,
            r is Err ==> r == Err::<Self, ParamError>(ParamError::InvalidGamma),
            r matches Ok(p) ==> {
                &&& p.wf()
                &&& p.gamma_num() == le_nat(gamma_numerator@)
                &&& p.gamma_den() == le_nat(gamma_denominator@)
                &&& p.gamma_width() == gamma_bytes
                &&& p.scheme_params() == (client_commitment_scheme@, server_signature_scheme@, client_signature_scheme@)
            },
    {
        let zero: Vec<u8> = Vec::new();
        proof {
            assert(le_nat(zero@) == 0);
        }
        if gamma_bytes == 0 || le_le(&gamma_numerator, &zero) || !le_le(&gamma_numerator, &gamma_denominator) {
            return Err(ParamError::InvalidGamma);
        }
        Ok(ParametersShuffle {
            gamma_numerator,
            gamma_denominator,
            gamma_bytes,
            client_commitment_scheme,
            server_signature_scheme,
            client_signature_scheme,
        })
    }

    /// The number of bytes of the gamma encoding.
    pub fn gamma_width_bytes(&self) -> (g: usize)
        ensures
            g as nat == self.gamma_width(),
    {
        self.gamma_bytes
    }

    /// Gamma as little-endian bytes of its fixed width, rounded down.
    pub fn gamma_as_bytes(&self) -> (r: Vec<u8>)
        requires
            self.wf(),
        ensures
            r@.len() == self.gamma_width(),
            le_nat(r@) == gamma_encoding(self.gamma_num(), self.gamma_den(), self.gamma_width()),
            le_nat(r@) * self.gamma_den() <= self.gamma_num() * max_value(self.gamma_width()),
            r@ == self.gamma_seq(),
    {
        let g = self.gamma_bytes;
        let m = max_bytes(g);
        let p = le_mul(&m, &self.gamma_numerator);
        let q = le_div(&p, &self.gamma_denominator);
        let ghost mv = max_value(g as nat) as int;
        let ghost num = self.gamma_num() as int;
        let ghost den = self.gamma_den() as int;
        proof {
            assert(mv * num == num * mv) by (nonlinear_arith);
            assert(num * mv <= den * mv) by (nonlinear_arith)
                requires
                    num <= den,
                    mv >= 0,
            ;
            lemma_div_is_ordered(num * mv, den * mv, den);
            lemma_div_multiples_vanish(mv, den);
            lemma_pow256_pos(g as nat);
            assert(le_nat(q@) < pow256(g as nat));
            vstd::arithmetic::div_mod::lemma_fundamental_div_mod(num * mv, den);
            vstd::arithmetic::div_mod::lemma_mod_bound(num * mv, den);
            assert(((num * mv) / den) * den <= num * mv) by (nonlinear_arith)
                requires
                    num * mv == den * ((num * mv) / den) + (num * mv) % den,
                    (num * mv) % den >= 0,
            ;
        }
        let r = fit_width(&q, g);
        proof {
            let e = gamma_encoding(self.gamma_num(), self.gamma_den(), self.gamma_width());
            lemma_le_bytes_value(e, g as nat);
            lemma_le_bytes_len(e, g as nat);
            lemma_le_nat_injective(r@, self.gamma_seq());
        }
        r
    }
}

/// Byte strings of one width that hold the same value are equal.
pub proof fn lemma_le_nat_injective(a: Seq<u8>, b: Seq<u8>)
    requires
        a.len() == b.len(),
        le_nat(a) == le_nat(b),
    ensures
        a == b,
    decreases a.len(),
{
    if a.len() > 0 {
        let ta = a.subrange(1, a.len() as int);
        let tb = b.subrange(1, b.len() as int);
        assert(a[0] as nat == b[0] as nat && le_nat(ta) == le_nat(tb)) by (nonlinear_arith)
            requires
                a[0] as nat + 256 * le_nat(ta) == b[0] as nat + 256 * le_nat(tb),
                a[0] < 256,
                b[0] < 256,
        ;
        lemma_le_nat_injective(ta, tb);
        assert(a =~= seq![a[0]] + ta);
        assert(b =~= seq![b[0]] + tb);
    }
}

/// Reading the gamma encoding of `p` back as the fraction
/// `encoding / (256^g - 1)` and setting up `again` with it in the same width
/// gives the same encoding. (An encoding of zero reads back as gamma zero,
/// which `setup` refuses.)
pub proof fn lemma_gamma_round_trip(p: ParametersShuffle, again: ParametersShuffle)
    requires
        p.wf(),
        again.wf(),
        again.gamma_width() == p.gamma_width(),
        again.gamma_num() == le_nat(p.gamma_seq()),
        again.gamma_den() == max_value(p.gamma_width()),
    ensures
        again.gamma_seq() == p.gamma_seq(),
{
    let g = p.gamma_width();
    let e = gamma_encoding(p.gamma_num(), p.gamma_den(), g);
    let mv = max_value(g) as int;
    lemma_pow256_pos((g - 1) as nat);
    assert(pow256(g) == 256 * pow256((g - 1) as nat));
    assert(e < pow256(g)) by {
        assert(p.gamma_num() * mv == mv * p.gamma_num()) by (nonlinear_arith);
        assert(mv * p.gamma_num() <= mv * p.gamma_den()) by (nonlinear_arith)
            requires
                p.gamma_num() <= p.gamma_den(),
                mv >= 0,
        ;
        lemma_div_is_ordered(mv * p.gamma_num(), mv * p.gamma_den(), p.gamma_den() as int);
        lemma_div_multiples_vanish(mv, p.gamma_den() as int);
    }
    lemma_le_bytes_value(e, g);
    assert(e * mv == mv * e) by (nonlinear_arith);
    lemma_div_multiples_vanish(e as int, mv);
}

/// Calibration: of the `256^g` equally likely values of the gamma window,
/// exactly `G + 1` select a uniformly chosen bucket, where `G` is the gamma
/// encoding; the rest (`256^g - G - 1`) report the true value. `G` rounds
/// `gamma * (256^g - 1)` down, so `G <= gamma * (256^g - 1) < G + 1`.
pub proof fn lemma_calibration(p: ParametersShuffle)
    requires
        p.wf(),
    ensures
        Set::new(|w: int| 0 <= w < pow256(p.gamma_width()) && w <= le_nat(p.gamma_seq()))
            == vstd::set_lib::set_int_range(0, (le_nat(p.gamma_seq()) + 1) as int),
        vstd::set_lib::set_int_range(0, (le_nat(p.gamma_seq()) + 1) as int).len() == le_nat(p.gamma_seq()) + 1,
        le_nat(p.gamma_seq()) * p.gamma_den() <= p.gamma_num() * max_value(p.gamma_width()),
        p.gamma_num() * max_value(p.gamma_width()) < (le_nat(p.gamma_seq()) + 1) * p.gamma_den(),
{
    let g = p.gamma_width();
    let e = gamma_encoding(p.gamma_num(), p.gamma_den(), g);
    let mv = max_value(g) as int;
    let num = p.gamma_num() as int;
    let den = p.gamma_den() as int;
    lemma_pow256_pos((g - 1) as nat);
    assert(pow256(g) == 256 * pow256((g - 1) as nat));
    assert(num * mv == mv * num) by (nonlinear_arith);
    assert(mv * num <= mv * den) by (nonlinear_arith)
        requires
            num <= den,
            mv >= 0,
    ;
    lemma_div_is_ordered(mv * num, mv * den, den);
    lemma_div_multiples_vanish(mv, den);
    lemma_le_bytes_value(e, g);
    vstd::arithmetic::div_mod::lemma_fundamental_div_mod(num * mv, den);
    vstd::arithmetic::div_mod::lemma_mod_bound(num * mv, den);
    assert(e * den <= num * mv && num * mv < (e + 1) * den) by (nonlinear_arith)
        requires
            num * mv == den * e + (num * mv) % den,
            0 <= (num * mv) % den < den,
    ;
    vstd::set_lib::lemma_int_range(0, (e + 1) as int);
    assert(Set::new(|w: int| 0 <= w < pow256(g) && w <= e) =~= vstd::set_lib::set_int_range(0, (e + 1) as int));
}

} // verus!
