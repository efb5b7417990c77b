//! Little-endian byte strings read as natural numbers.
use vstd::prelude::*;

verus! {

/// `256^n`.
pub open spec fn pow256(n: nat) -> nat
    decreases n,
{
    if n == 0 {
        1
    } else {
        256 * pow256((n - 1) as nat)
    }
}

/// The natural number whose little-endian bytes are `s`.
pub open spec fn le_nat(s: Seq<u8>) -> nat
    decreases s.len(),
{
    if s.len() == 0 {
        0
    } else {
        s[0] as nat + 256 * le_nat(s.subrange(1, s.len() as int))
    }
}

/// The largest value that `n` bytes can hold.
pub open spec fn max_value(n: nat) -> nat {
    (pow256(n) - 1) as nat
}

/// `s` cut or padded with zero bytes to exactly `w` bytes.
pub open spec fn fit_seq(s: Seq<u8>, w: nat) -> Seq<u8> {
    Seq::new(w, |i: int| if i < s.len() { s[i] } else { 0u8 })
}

pub proof fn lemma_pow256_pos(n: nat)
    ensures
        pow256(n) >= 1,
    decreases n,
{
    if n > 0 {
        lemma_pow256_pos((n - 1) as nat);
    }
}

/// A value of `s.len()` bytes is below `256^len`.
pub proof fn lemma_le_nat_bound(s: Seq<u8>)
    ensures
        le_nat(s) < pow256(s.len()),
    decreases s.len(),
{
    if s.len() > 0 {
        let t = s.subrange(1, s.len() as int);
        lemma_le_nat_bound(t);
        assert(le_nat(t) + 1 <= pow256(t.len()));
        assert(256 * le_nat(t) + 256 <= 256 * pow256(t.len())) by (nonlinear_arith)
            requires
                le_nat(t) + 1 <= pow256(t.len()),
        ;
    }
}

/// Bytes that are all `0xff` hold the largest value of their width.
pub proof fn lemma_le_nat_all_ones(s: Seq<u8>)
    requires
        forall|i: int| 0 <= i < s.len() ==> s[i] == 255u8,
    ensures
        le_nat(s) == max_value(s.len()),
    decreases s.len(),
{
    lemma_pow256_pos(s.len());
    if s.len() > 0 {
        let t = s.subrange(1, s.len() as int);
        lemma_le_nat_all_ones(t);
        lemma_pow256_pos(t.len());
    }
}

/// Bytes that are all zero hold zero.
pub proof fn lemma_le_nat_zeros(s: Seq<u8>)
    requires
        forall|i: int| 0 <= i < s.len() ==> s[i] == 0u8,
    ensures
        le_nat(s) == 0,
    decreases s.len(),
{
    if s.len() > 0 {
        lemma_le_nat_zeros(s.subrange(1, s.len() as int));
    }
}

/// Cutting or padding to `w` bytes keeps a value that fits in `w` bytes.
pub proof fn lemma_fit_seq(s: Seq<u8>, w: nat)
    requires
        le_nat(s) < pow256(w),
    ensures
        le_nat(fit_seq(s, w)) == le_nat(s),
    decreases w,
{
    let f = fit_seq(s, w);
    if s.len() == 0 {
        lemma_le_nat_zeros(f);
    } else if w == 0 {
        assert(le_nat(s) == 0);
        assert(f.len() == 0);
    } else {
        let t = s.subrange(1, s.len() as int);
        let ft = fit_seq(t, (w - 1) as nat);
        assert(le_nat(t) < pow256((w - 1) as nat)) by (nonlinear_arith)
            requires
                s[0] as nat + 256 * le_nat(t) < 256 * pow256((w - 1) as nat),
        ;
        lemma_fit_seq(t, (w - 1) as nat);
        assert(f.subrange(1, f.len() as int) =~= ft);
    }
}

/// A vector of `n` bytes `0xff`.
pub fn max_bytes(n: usize) -> (r: Vec<u8>)
    ensures
        r@.len() == n,
        le_nat(r@) == max_value(n as nat),
{
    let mut r: Vec<u8> = Vec::new();
    let mut i: usize = 0;
    while i < n
        invariant
            i <= n,
            r@.len() == i,
            forall|j: int| 0 <= j < i ==> r@[j] == 255u8,
        decreases n - i,
    {
        r.push(255u8);
        i = i + 1;
    }
    proof {
        lemma_le_nat_all_ones(r@);
    }
    r
}

/// The bytes `v[start..end]` as a vector of their own.
pub fn window(v: &Vec<u8>, start: usize, end: usize) -> (r: Vec<u8>)
    requires
        start <= end <= v@.len(),
    ensures
        r@ == v@.subrange(start as int, end as int),
{
    let mut r: Vec<u8> = Vec::new();
    let mut i: usize = start;
    while i < end
        invariant
            start <= i <= end,
            end <= v@.len(),
            r@ == v@.subrange(start as int, i as int),
        decreases end - i,
    {
        r.push(v[i]);
        i = i + 1;
        assert(r@ =~= v@.subrange(start as int, i as int));
    }
    r
}

/// `v` cut or padded with zero bytes to exactly `w` bytes.
pub fn fit_width(v: &Vec<u8>, w: usize) -> (r: Vec<u8>)
    ensures
        r@ == fit_seq(v@, w as nat),
        le_nat(v@) < pow256(w as nat) ==> le_nat(r@) == le_nat(v@),
{
    let mut r: Vec<u8> = Vec::new();
    let mut i: usize = 0;
    while i < w
        invariant
            i <= w,
            r@.len() == i,
            forall|j: int| 0 <= j < i ==> r@[j] == (if j < v@.len() { v@[j] } else { 0u8 }),
        decreases w - i,
    {
        if i < v.len() {
            r.push(v[i]);
        } else {
            r.push(0u8);
        }
        i = i + 1;
    }
    assert(r@ =~= fit_seq(v@, w as nat));
    proof {
        if le_nat(v@) < pow256(w as nat) {
            lemma_fit_seq(v@, w as nat);
        }
    }
    r
}

} // verus!
