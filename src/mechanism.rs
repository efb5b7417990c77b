//! The discretized randomized-response mechanism, computed directly and as
//! the relation that the proof circuit enforces.
use crate::bignum::{le_div, le_div_u64, le_le, le_low_u64, le_mul_u64, le_sub, le_to_u64, two_pow_64};
use crate::bytes_le::{lemma_le_nat_bound, lemma_pow256_pos, le_nat, pow256, max_bytes, max_value, window};
use vstd::arithmetic::div_mod::{lemma_div_is_ordered, lemma_div_multiples_vanish, lemma_fundamental_div_mod, lemma_mod_bound};
use vstd::prelude::*;

verus! {

/// The number of equal-width buckets the value range is cut into.
pub open spec fn gap_divisor(k: nat, is_real_input: bool) -> nat {
    if is_real_input { k + 1 } else { k }
}

/// The width of one bucket.
pub open spec fn boundary_gap(n: nat, k: nat, is_real_input: bool) -> nat {
    max_value(n) / gap_divisor(k, is_real_input)
}

/// The widths and bucket count for which the mechanism is defined: inputs of
/// `n >= 1` bytes, `k + 1` representable, buckets at least one value wide, and
/// a randomness string long enough for all its windows.
pub open spec fn valid_shape(n: nat, g: nat, rlen: nat, k: nat, is_real_input: bool) -> bool {
    &&& n >= 1
    &&& k < 0xffff_ffff_ffff_ffffnat
    &&& (is_real_input || k >= 1)
    &&& gap_divisor(k, is_real_input) <= max_value(n)
    &&& g + (if is_real_input { 2 * n } else { n }) <= rlen
}

/// The first `g` bytes of the randomness.
pub open spec fn gamma_window(r: Seq<u8>, g: nat) -> Seq<u8> {
    r.subrange(0, g as int)
}

/// The `n` bytes after the gamma window.
pub open spec fn bucket_window(r: Seq<u8>, g: nat, n: nat) -> Seq<u8> {
    r.subrange(g as int, (g + n) as int)
}

/// The `n` bytes after the bucket window.
pub open spec fn tie_break_window(r: Seq<u8>, g: nat, n: nat) -> Seq<u8> {
    r.subrange((g + n) as int, (g + 2 * n) as int)
}

/// Whether the report is a uniformly chosen bucket rather than the true value.
pub open spec fn ldp_bit(r: Seq<u8>, gamma: Seq<u8>) -> bool {
    le_nat(gamma_window(r, gamma.len())) <= le_nat(gamma)
}

/// The bucket that the value `b` of the bucket window falls into, clamped to
/// `[0, k]` (real input) or `[1, k]` (boolean input).
pub open spec fn bucket_index(b: nat, n: nat, k: nat, is_real_input: bool) -> nat {
    let q = b / boundary_gap(n, k, is_real_input);
    if is_real_input {
        if q <= k { q } else { k }
    } else {
        if q + 1 <= k { q + 1 } else { k }
    }
}

/// `tv * k` scaled down by the largest input value, its remainder rounded up
/// when the tie-break value `t` lies below it (a zero remainder never rounds up).
pub open spec fn scaled_value(tv: nat, t: nat, n: nat, k: nat) -> nat {
    let p = tv * k;
    let m = max_value(n);
    p / m + (if t < p % m { 1nat } else { 0nat })
}

/// The report of the mechanism on the true value `tv`, randomness `r` and the
/// encoded gamma.
pub open spec fn ldp_apply(
    r: Seq<u8>,
    gamma: Seq<u8>,
    tv: Seq<u8>,
    n: nat,
    k: nat,
    is_real_input: bool,
) -> nat {
    let g = gamma.len();
    if ldp_bit(r, gamma) {
        bucket_index(le_nat(bucket_window(r, g, n)), n, k, is_real_input)
    } else if is_real_input {
        scaled_value(le_nat(tv), le_nat(tie_break_window(r, g, n)), n, k)
    } else {
        le_nat(tv) % two_pow_64()
    }
}

/// Lower edge of bucket `c` in the circuit.
pub open spec fn bucket_lower(c: nat, n: nat, k: nat, is_real_input: bool) -> int {
    let gap = boundary_gap(n, k, is_real_input);
    if is_real_input { (c * gap) as int } else { (c - 1) * gap }
}

/// Upper edge of bucket `c` in the circuit: exclusive for the inner buckets;
/// the top bucket reaches the largest input value and includes it.
pub open spec fn bucket_upper(c: nat, n: nat, k: nat, is_real_input: bool) -> nat {
    let gap = boundary_gap(n, k, is_real_input);
    if c == k {
        max_value(n)
    } else if is_real_input {
        (c + 1) * gap
    } else {
        c * gap
    }
}

/// The mechanism as the circuit enforces it for the report `v`: the bucket
/// computed from the bucket window lies between its edges, and `v` is that
/// bucket or the (scaled) true value as the gamma window selects.
pub open spec fn circuit_mechanism_holds(
    v: nat,
    r: Seq<u8>,
    gamma: Seq<u8>,
    tv: Seq<u8>,
    n: nat,
    k: nat,
    is_real_input: bool,
) -> bool {
    let g = gamma.len();
    let b = le_nat(bucket_window(r, g, n));
    let c = bucket_index(b, n, k, is_real_input);
    let true_computed = if is_real_input {
        scaled_value(le_nat(tv), le_nat(tie_break_window(r, g, n)), n, k)
    } else {
        le_nat(tv)
    };
    &&& bucket_lower(c, n, k, is_real_input) <= b
    &&& if c == k { b <= bucket_upper(c, n, k, is_real_input) } else { b < bucket_upper(c, n, k, is_real_input) }
    &&& if ldp_bit(r, gamma) { v == c } else { v == true_computed }
}

proof fn lemma_gap_pos(n: nat, k: nat, is_real_input: bool)
    requires
        gap_divisor(k, is_real_input) >= 1,
        gap_divisor(k, is_real_input) <= max_value(n),
    ensures
        boundary_gap(n, k, is_real_input) >= 1,
{
    let d = gap_divisor(k, is_real_input) as int;
    lemma_div_is_ordered(d, max_value(n) as int, d);
    lemma_div_multiples_vanish(1, d);
}

/// The bucket of the bucket window `bw`.
pub fn compute_bucket(bw: &Vec<u8>, n: usize, k: u64, is_real_input: bool) -> (c: u64)
    requires
        n >= 1,
        k < u64::MAX,
        is_real_input || k >= 1,
        gap_divisor(k as nat, is_real_input) <= max_value(n as nat),
    ensures
        c as nat == bucket_index(le_nat(bw@), n as nat, k as nat, is_real_input),
        c <= k,
{
    proof {
        lemma_gap_pos(n as nat, k as nat, is_real_input);
    }
    let m = max_bytes(n);
    let d: u64 = if is_real_input { k + 1 } else { k };
    let gap = le_div_u64(&m, d);
    let q = le_div(bw, &gap);
    let cap: u64 = if is_real_input { k } else { k - 1 };
    let clamped: u64 = match le_to_u64(&q) {
        Some(v) => if v <= cap { v } else { cap },
        None => cap,
    };
    if is_real_input { clamped } else { clamped + 1 }
}

/// The true value `tv` scaled to the report range, with the tie-break value
/// `t` rounding its remainder.
pub fn compute_scaled(tv: &Vec<u8>, t: &Vec<u8>, n: usize, k: u64) -> (v: u64)
    requires
        n >= 1,
        k < u64::MAX,
        tv@.len() == n,
    ensures
        v as nat == scaled_value(le_nat(tv@), le_nat(t@), n as nat, k as nat),
        v <= k + 1,
{
    let m = max_bytes(n);
    let ghost mv = max_value(n as nat) as int;
    let ghost tvv = le_nat(tv@) as int;
    let ghost kk = k as int;
    proof {
        lemma_le_nat_bound(tv@);
        lemma_pow256_pos(n as nat);
        assert(mv >= 255) by {
            assert(pow256(n as nat) == 256 * pow256((n - 1) as nat));
            lemma_pow256_pos((n - 1) as nat);
        }
    }
    let p = le_mul_u64(tv, k);
    let mult_big = le_div(&p, &m);
    proof {
        assert(tvv * kk <= mv * kk) by (nonlinear_arith)
            requires
                tvv <= mv,
                kk >= 0,
        ;
        lemma_div_is_ordered(tvv * kk, mv * kk, mv);
        lemma_div_multiples_vanish(kk, mv);
        assert(mv * kk == kk * mv) by (nonlinear_arith);
        assert((tvv * kk) / mv <= kk);
        assert(0 <= (tvv * kk) / mv) by (nonlinear_arith)
            requires
                tvv >= 0,
                kk >= 0,
                mv > 0,
        ;
    }
    let mult = le_low_u64(&mult_big);
    assert(mult as int == (tvv * kk) / mv);
    let mm = le_mul_u64(&m, mult);
    proof {
        lemma_fundamental_div_mod(tvv * kk, mv);
        lemma_mod_bound(tvv * kk, mv);
        assert(mv * mult == mult * mv) by (nonlinear_arith);
    }
    let rem = le_sub(&p, &mm);
    assert(le_nat(rem@) == (tvv * kk) % mv);
    if le_le(&rem, t) {
        mult
    } else {
        mult + 1
    }
}

/// Applies the mechanism to the true value `true_value` with the randomness
/// `randomness` and the encoded gamma `gamma`.
pub fn apply_ldp(
    randomness: &Vec<u8>,
    gamma: &Vec<u8>,
    true_value: &Vec<u8>,
    input_bytes: usize,
    k: u64,
    is_real_input: bool,
) -> (v: u64)
    requires
        valid_shape(input_bytes as nat, gamma@.len(), randomness@.len(), k as nat, is_real_input),
        true_value@.len() == input_bytes,
    ensures
        v as nat == ldp_apply(randomness@, gamma@, true_value@, input_bytes as nat, k as nat, is_real_input),
{
    let g = gamma.len();
    let n = input_bytes;
    let rl = randomness.len();
    assert(g + n <= rl);
    let gw = window(randomness, 0, g);
    if le_le(&gw, gamma) {
        let bw = window(randomness, g, g + n);
        compute_bucket(&bw, n, k, is_real_input)
    } else if is_real_input {
        let tw = window(randomness, g + n, g + n + n);
        assert(tw@ == tie_break_window(randomness@, g as nat, n as nat));
        compute_scaled(true_value, &tw, n, k)
    } else {
        le_low_u64(true_value)
    }
}

/// The edges `[lower, upper)` of bucket `c` as little-endian bytes.
pub fn bucket_bounds(c: u64, n: usize, k: u64, is_real_input: bool) -> (r: (Vec<u8>, Vec<u8>))
    requires
        n >= 1,
        k < u64::MAX,
        is_real_input || 1 <= c,
        is_real_input || k >= 1,
        c <= k,
        gap_divisor(k as nat, is_real_input) <= max_value(n as nat),
    ensures
        le_nat(r.0@) == bucket_lower(c as nat, n as nat, k as nat, is_real_input),
        le_nat(r.1@) == bucket_upper(c as nat, n as nat, k as nat, is_real_input),
        c == k ==> le_nat(r.1@) == max_value(n as nat),
{
    let m = max_bytes(n);
    let d: u64 = if is_real_input { k + 1 } else { k };
    let gap = le_div_u64(&m, d);
    let lower_factor: u64 = if is_real_input { c } else { c - 1 };
    let lower = le_mul_u64(&gap, lower_factor);
    assert(le_nat(gap@) * lower_factor == lower_factor * le_nat(gap@)) by (nonlinear_arith);
    let upper = if c == k {
        m
    } else {
        let upper_factor: u64 = if is_real_input { c + 1 } else { c };
        let u = le_mul_u64(&gap, upper_factor);
        assert(le_nat(gap@) * upper_factor == upper_factor * le_nat(gap@)) by (nonlinear_arith);
        u
    };
    (lower, upper)
}

/// Whether the circuit's mechanism constraints hold for the report `v`.
pub fn circuit_mechanism_check(
    v: u64,
    randomness: &Vec<u8>,
    gamma: &Vec<u8>,
    true_value: &Vec<u8>,
    input_bytes: usize,
    k: u64,
    is_real_input: bool,
) -> (ok: bool)
    requires
        valid_shape(input_bytes as nat, gamma@.len(), randomness@.len(), k as nat, is_real_input),
        true_value@.len() == input_bytes,
    ensures
        ok == circuit_mechanism_holds(
            v as nat,
            randomness@,
            gamma@,
            true_value@,
            input_bytes as nat,
            k as nat,
            is_real_input,
        ),
{
    let g = gamma.len();
    let n = input_bytes;
    let rl = randomness.len();
    assert(g + n <= rl);
    let bw = window(randomness, g, g + n);
    let c = compute_bucket(&bw, n, k, is_real_input);
    proof {
        if !is_real_input {
            lemma_gap_pos(n as nat, k as nat, is_real_input);
        }
    }
    let (lower, upper) = bucket_bounds(c, n, k, is_real_input);
    let below_upper = if c == k { le_le(&bw, &upper) } else { !le_le(&upper, &bw) };
    let in_bucket = le_le(&lower, &bw) && below_upper;
    let selected = if le_le(&window(randomness, 0, g), gamma) {
        v == c
    } else if is_real_input {
        let tw = window(randomness, g + n, g + n + n);
        assert(tw@ == tie_break_window(randomness@, g as nat, n as nat));
        v == compute_scaled(true_value, &tw, n, k)
    } else {
        match le_to_u64(true_value) {
            Some(t) => v == t,
            None => false,
        }
    };
    in_bucket && selected
}

/// The direct computation and the circuit agree: the circuit accepts exactly
/// the report that the mechanism computes, on every input but, for boolean
/// input, those whose true value needs more than 64 bits (a report is a `u64`).
pub proof fn lemma_mechanism_consistency(
    v: u64,
    randomness: Seq<u8>,
    gamma: Seq<u8>,
    true_value: Seq<u8>,
    input_bytes: nat,
    k: nat,
    is_real_input: bool,
)
    requires
        valid_shape(input_bytes, gamma.len(), randomness.len(), k, is_real_input),
        true_value.len() == input_bytes,
        is_real_input || ldp_bit(randomness, gamma) || le_nat(true_value) < two_pow_64(),
    ensures
        circuit_mechanism_holds(v as nat, randomness, gamma, true_value, input_bytes, k, is_real_input)
            <==> v as nat == ldp_apply(randomness, gamma, true_value, input_bytes, k, is_real_input),
{
    let g = gamma.len();
    let n = input_bytes;
    let bw = bucket_window(randomness, g, n);
    let b = le_nat(bw);
    let gap = boundary_gap(n, k, is_real_input);
    let c = bucket_index(b, n, k, is_real_input);
    lemma_gap_pos(n, k, is_real_input);
    lemma_le_nat_bound(bw);
    let q = b / gap;
    lemma_fundamental_div_mod(b as int, gap as int);
    lemma_mod_bound(b as int, gap as int);
    assert(gap * q <= b < gap * q + gap);
    if is_real_input {
        if q <= k {
            assert(c * gap <= b) by (nonlinear_arith) requires c == q, gap * q <= b;
            assert(b < (c + 1) * gap) by (nonlinear_arith) requires c == q, b < gap * q + gap;
        } else {
            assert(c * gap <= b) by (nonlinear_arith) requires c == k, k < q, gap * q <= b, gap >= 1;
        }
    } else {
        if q + 1 <= k {
            assert((c - 1) * gap <= b) by (nonlinear_arith) requires c == q + 1, gap * q <= b;
            assert(b < c * gap) by (nonlinear_arith) requires c == q + 1, b < gap * q + gap;
        } else {
            assert((c - 1) * gap <= b) by (nonlinear_arith) requires c == k, k <= q + 1, gap * q <= b, gap >= 1, k >= 1;
        }
    }
    assert(b <= max_value(n));
}

/// Reports of real input lie in `[0, k]`.
pub proof fn lemma_range_real(
    randomness: Seq<u8>,
    gamma: Seq<u8>,
    true_value: Seq<u8>,
    input_bytes: nat,
    k: nat,
)
    requires
        valid_shape(input_bytes, gamma.len(), randomness.len(), k, true),
        true_value.len() == input_bytes,
    ensures
        ldp_apply(randomness, gamma, true_value, input_bytes, k, true) <= k,
{
    if !ldp_bit(randomness, gamma) {
        let m = max_value(input_bytes) as int;
        let tvv = le_nat(true_value) as int;
        let kk = k as int;
        let t = le_nat(tie_break_window(randomness, gamma.len(), input_bytes)) as int;
        lemma_le_nat_bound(true_value);
        lemma_pow256_pos(input_bytes);
        assert(m >= 1) by {
            assert(pow256(input_bytes) == 256 * pow256((input_bytes - 1) as nat));
            lemma_pow256_pos((input_bytes - 1) as nat);
        }
        lemma_fundamental_div_mod(tvv * kk, m);
        lemma_mod_bound(tvv * kk, m);
        assert(tvv * kk <= m * kk) by (nonlinear_arith) requires tvv <= m, kk >= 0;
        lemma_div_is_ordered(tvv * kk, m * kk, m);
        lemma_div_multiples_vanish(kk, m);
        assert(m * kk == kk * m) by (nonlinear_arith);
        let d = (tvv * kk) / m;
        let rem = (tvv * kk) % m;
        if d == kk {
            assert(m * kk + rem == tvv * kk);
            assert(rem == 0);
        }
    }
}

/// Reports of boolean input lie in `[1, k]` whenever the true value does or the
/// gamma window selects a bucket.
pub proof fn lemma_range_boolean(
    randomness: Seq<u8>,
    gamma: Seq<u8>,
    true_value: Seq<u8>,
    input_bytes: nat,
    k: nat,
)
    requires
        valid_shape(input_bytes, gamma.len(), randomness.len(), k, false),
        true_value.len() == input_bytes,
        ldp_bit(randomness, gamma) || (1 <= le_nat(true_value) % two_pow_64() <= k),
    ensures
        1 <= ldp_apply(randomness, gamma, true_value, input_bytes, k, false) <= k,
{
    if ldp_bit(randomness, gamma) {
        let b = le_nat(bucket_window(randomness, gamma.len(), input_bytes));
        let c = bucket_index(b, input_bytes, k, false);
        let q = b / boundary_gap(input_bytes, k, false);
        lemma_gap_pos(input_bytes, k, false);
        vstd::arithmetic::div_mod::lemma_div_pos_is_pos(b as int, boundary_gap(input_bytes, k, false) as int);
        assert(k >= 1);
        assert(c == if q + 1 <= k { q + 1 } else { k });
    }
}

} // verus!
