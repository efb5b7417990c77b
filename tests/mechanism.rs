use vldp::mechanism::{apply_ldp, bucket_bounds, circuit_mechanism_check, compute_bucket, compute_scaled};

// One input byte (largest value 255), one gamma byte, four buckets: a bucket
// of real input is 255 / 5 = 51 wide, of boolean input 255 / 4 = 63.

#[test]
fn bucket_selected_when_gamma_window_small() {
    let r = vec![0u8, 102, 0];
    assert_eq!(apply_ldp(&r, &vec![128u8], &vec![77u8], 1, 4, true), 2);
}

#[test]
fn gamma_window_equal_to_gamma_selects_bucket() {
    let r = vec![128u8, 160, 0];
    assert_eq!(apply_ldp(&r, &vec![128u8], &vec![0u8], 1, 4, true), 3);
}

#[test]
fn top_bucket_clamped_to_k() {
    let r = vec![0u8, 255, 0];
    assert_eq!(apply_ldp(&r, &vec![128u8], &vec![0u8], 1, 4, true), 4);
    assert_eq!(compute_bucket(&vec![255u8], 1, 4, true), 4);
    assert_eq!(compute_bucket(&vec![204u8], 1, 4, true), 4);
    assert_eq!(compute_bucket(&vec![203u8], 1, 4, true), 3);
}

#[test]
fn real_true_value_scaled_with_tie_break() {
    // 100 * 4 = 400 = 1 * 255 + 145: rounds up when the tie-break is below 145
    assert_eq!(apply_ldp(&vec![200u8, 0, 144], &vec![128u8], &vec![100u8], 1, 4, true), 2);
    assert_eq!(apply_ldp(&vec![200u8, 0, 145], &vec![128u8], &vec![100u8], 1, 4, true), 1);
    assert_eq!(apply_ldp(&vec![200u8, 0, 146], &vec![128u8], &vec![100u8], 1, 4, true), 1);
}

#[test]
fn real_zero_true_value() {
    assert_eq!(compute_scaled(&vec![0u8], &vec![0u8], 1, 4), 0);
    assert_eq!(compute_scaled(&vec![0u8], &vec![1u8], 1, 4), 0);
}

#[test]
fn real_max_true_value() {
    // 255 * 4 = 4 * 255 exactly: no remainder
    assert_eq!(compute_scaled(&vec![255u8], &vec![1u8], 1, 4), 4);
    // a zero remainder never rounds up, so the report stays at k
    assert_eq!(compute_scaled(&vec![255u8], &vec![0u8], 1, 4), 4);
}

#[test]
fn boolean_buckets_start_at_one() {
    assert_eq!(apply_ldp(&vec![0u8, 0], &vec![128u8], &vec![2u8], 1, 4, false), 1);
    assert_eq!(apply_ldp(&vec![0u8, 130], &vec![128u8], &vec![2u8], 1, 4, false), 3);
    assert_eq!(apply_ldp(&vec![0u8, 255], &vec![128u8], &vec![2u8], 1, 4, false), 4);
}

#[test]
fn boolean_true_value_passes_through() {
    assert_eq!(apply_ldp(&vec![129u8, 255], &vec![128u8], &vec![3u8], 1, 4, false), 3);
}

#[test]
fn two_byte_windows() {
    // gamma 0x8000, gamma window 0x7fff, bucket window 0xffff / 3 = 21845 wide
    let r = vec![0xffu8, 0x7f, 0x56, 0x55, 0, 0];
    assert_eq!(apply_ldp(&r, &vec![0u8, 0x80], &vec![0u8, 0], 2, 2, true), 1);
    let r = vec![0x01u8, 0x80, 0, 0, 0, 0];
    // 0x8000 * 2 = 65536 = 1 * 65535 + 1; tie window 0 < 1
    assert_eq!(apply_ldp(&r, &vec![0u8, 0x80], &vec![0u8, 0x80], 2, 2, true), 2);
}

#[test]
fn bucket_bounds_of_inner_and_top_bucket() {
    let (lo, hi) = bucket_bounds(2, 1, 4, true);
    assert_eq!(lo, vec![102u8]);
    assert_eq!(hi, vec![153u8]);
    let (lo, hi) = bucket_bounds(4, 1, 4, true);
    assert_eq!(lo, vec![204u8]);
    assert_eq!(hi, vec![255u8]);
    let (lo, hi) = bucket_bounds(1, 1, 4, false);
    assert_eq!(lo, vec![0u8]);
    assert_eq!(hi, vec![63u8]);
}

#[test]
fn circuit_accepts_exactly_the_computed_report() {
    let gamma = vec![128u8];
    for r in [vec![0u8, 102, 0], vec![200u8, 17, 145], vec![200u8, 250, 146], vec![5u8, 0, 9], vec![0u8, 255, 0], vec![200u8, 255, 0]] {
        let tv = vec![100u8];
        let v = apply_ldp(&r, &gamma, &tv, 1, 4, true);
        for w in 0..7u64 {
            assert_eq!(circuit_mechanism_check(w, &r, &gamma, &tv, 1, 4, true), w == v);
        }
    }
}

#[test]
fn circuit_accepts_largest_bucket_window_in_top_bucket() {
    let gamma = vec![128u8];
    let r = vec![0u8, 255, 0];
    for w in 0..7u64 {
        assert_eq!(circuit_mechanism_check(w, &r, &gamma, &vec![9u8], 1, 4, true), w == 4);
    }
    let r = vec![0u8, 255];
    for w in 0..7u64 {
        assert_eq!(circuit_mechanism_check(w, &r, &gamma, &vec![2u8], 1, 4, false), w == 4);
    }
    // the report of the pass-through branch is accepted as well
    let r = vec![200u8, 255, 7];
    let v = apply_ldp(&r, &gamma, &vec![9u8], 1, 4, true);
    assert!(circuit_mechanism_check(v, &r, &gamma, &vec![9u8], 1, 4, true));
}

#[test]
fn boolean_circuit_matches_plain() {
    let gamma = vec![128u8];
    for r in [vec![0u8, 0], vec![0u8, 130], vec![200u8, 40]] {
        let tv = vec![2u8];
        let v = apply_ldp(&r, &gamma, &tv, 1, 4, false);
        for w in 0..6u64 {
            assert_eq!(circuit_mechanism_check(w, &r, &gamma, &tv, 1, 4, false), w == v);
        }
    }
}

#[test]
fn range_over_all_one_byte_windows() {
    let gamma = vec![100u8];
    for g in [0u8, 100, 101, 255] {
        for b in 0..=255u8 {
            for t in [1u8, 128, 255] {
                let r = vec![g, b, t];
                for tv in [0u8, 1, 128, 254, 255] {
                    assert!(apply_ldp(&vec![g, b, 0], &gamma, &vec![tv], 1, 4, true) <= 4);
                    assert!(apply_ldp(&r, &gamma, &vec![tv], 1, 4, true) <= 4);
                }
                let v = apply_ldp(&r, &gamma, &vec![3u8], 1, 4, false);
                assert!(1 <= v && v <= 4);
            }
        }
    }
}

#[test]
fn calibration_over_all_gamma_windows() {
    // gamma window uniform over 0..=255 with gamma byte 63: 64 of 256 draws
    // pick a bucket, the rest report the true value's bucket
    let gamma = vec![63u8];
    let mut true_reports: u32 = 0;
    for g in 0..=255u8 {
        // bucket window 0 lies in bucket 0, the true value 0 scales to 0
        let v = apply_ldp(&vec![g, 200, 1], &gamma, &vec![0u8], 1, 4, true);
        if v == 0 {
            true_reports += 1;
        }
    }
    assert_eq!(true_reports, 256 - 64);
}
