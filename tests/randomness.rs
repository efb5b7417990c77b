use vldp::client::{ClientExpand, ClientShape};
use vldp::parameters::ParametersShuffle;
use vldp::randomness::{assemble_randomness, eval_point, num_evals, xor_bytes};

#[test]
fn evaluation_counts() {
    assert_eq!(num_evals(1), 1);
    assert_eq!(num_evals(32), 1);
    assert_eq!(num_evals(33), 2);
    assert_eq!(num_evals(64), 2);
    assert_eq!(num_evals(65), 3);
}

#[test]
fn evaluation_point_bytes() {
    let p = eval_point(1, 2, 3);
    assert_eq!(p.len(), 32);
    assert_eq!(p[0], 5);
    assert!(p[1..].iter().all(|b| *b == 0));
    let p = eval_point(300, 0, 1);
    assert_eq!(&p[0..3], &[44u8, 1, 0]);
}

#[test]
fn evaluation_points_never_repeat() {
    let mut seen: Vec<Vec<u8>> = Vec::new();
    for round in 0..20usize {
        for inner in 0..3usize {
            let p = eval_point(round, inner, 3);
            assert!(!seen.contains(&p));
            seen.push(p);
        }
    }
}

#[test]
fn xor_of_seeds() {
    assert_eq!(xor_bytes(&vec![0xf0u8, 0x0f, 0xaa], &vec![0xffu8, 0x0f, 0x55]), vec![0x0fu8, 0x00, 0xff]);
    assert_eq!(xor_bytes(&vec![], &vec![]), Vec::<u8>::new());
}

#[test]
fn randomness_from_truncated_outputs() {
    let a: Vec<u8> = (0..40u8).collect();
    let b: Vec<u8> = (100..140u8).collect();
    let r = assemble_randomness(&vec![a.clone(), b.clone()], 40);
    assert_eq!(r.len(), 40);
    assert_eq!(&r[0..32], &a[0..32]);
    assert_eq!(&r[32..40], &b[0..8]);
}

#[test]
fn client_seed_from_zero_generator_seed() {
    // the first ChaCha20 block for an all-zero key and nonce
    let params = ParametersShuffle::setup(vec![1u8], vec![2u8], 1, vec![], vec![], vec![]).unwrap();
    let shape = ClientShape {
        mt_depth: 1,
        input_bytes: 1,
        time_bytes: 1,
        randomness_bytes: 3,
        k: 4,
        is_real_input: true,
        commitment_randomness_bytes: 8,
    };
    let c = ClientExpand::new(params, vec![], vec![], vec![], shape).unwrap();
    let s = c.generator_draws([0u8; 32]);
    assert_eq!(s.len(), 40);
    assert_eq!(&s[0..8], &[0x76u8, 0xb8, 0xe0, 0xad, 0xa0, 0xf1, 0x3d, 0x90]);
    assert_eq!(s, c.generator_draws([0u8; 32]));
    assert_ne!(s, c.generator_draws([1u8; 32]));
}
