use vldp::client::{ClientError, ClientExpand, ClientExpandStorage, ClientShape};
use vldp::messages::{signature_input_bytes, ServerResponseMessage};
use vldp::parameters::ParametersShuffle;

fn shape() -> ClientShape {
    ClientShape {
        mt_depth: 2,
        input_bytes: 1,
        time_bytes: 1,
        randomness_bytes: 3,
        k: 4,
        is_real_input: true,
        commitment_randomness_bytes: 4,
    }
}

fn client() -> ClientExpand {
    let params = ParametersShuffle::setup(vec![1u8], vec![2u8], 1, vec![], vec![], vec![]).unwrap();
    ClientExpand::new(params, vec![0xaau8], vec![0xbbu8, 0xcc], vec![], shape()).unwrap()
}

fn response() -> ServerResponseMessage {
    ServerResponseMessage { server_seed: vec![4u8; 32], server_signature: vec![6u8, 6] }
}

fn outputs(first: &[u8]) -> Vec<Vec<u8>> {
    let mut o = vec![0u8; 32];
    o[..first.len()].copy_from_slice(first);
    vec![o]
}

#[test]
fn empty_storage() {
    let s = ClientExpandStorage::new();
    assert!(s.generator_seed.is_none());
    assert_eq!(s.index, 0);
    assert!(s.merkle_root.is_none());
    assert!(s.server_seed.is_none());
    assert!(s.server_signature.is_none());
}

#[test]
fn new_client_has_empty_storage() {
    let c = client();
    assert_eq!(c.storage().index, 0);
    assert!(c.storage().generator_seed.is_none());
}

#[test]
fn new_refuses_sizes_that_do_not_fit() {
    let params = || ParametersShuffle::setup(vec![1u8], vec![2u8], 1, vec![], vec![], vec![]).unwrap();
    let bad = [
        ClientShape { k: 0, is_real_input: false, ..shape() },
        ClientShape { randomness_bytes: 2, ..shape() },
        ClientShape { k: 255, ..shape() },
        ClientShape { mt_depth: 0, ..shape() },
        ClientShape { input_bytes: 0, ..shape() },
        ClientShape { mt_depth: 64, commitment_randomness_bytes: 4, ..shape() },
    ];
    for s in bad {
        assert_eq!(ClientExpand::new(params(), vec![], vec![], vec![], s).err(), Some(ClientError::InvalidShape));
    }
    assert!(ClientExpand::new(params(), vec![], vec![], vec![], ClientShape { k: 254, ..shape() }).is_ok());
    assert!(ClientExpand::new(params(), vec![], vec![], vec![], ClientShape { k: 255, is_real_input: false, ..shape() }).is_ok());
}

#[test]
fn leaves_and_round_points() {
    let c = client();
    assert_eq!(c.num_leaves(), 2);
    let pts = c.round_eval_points(2);
    assert_eq!(pts.len(), 1);
    assert_eq!(pts[0][0], 2);
    assert!(pts[0][1..].iter().all(|b| *b == 0));
}

#[test]
fn create_stores_seed_and_root() {
    let mut c = client();
    let m = c.generate_randomness_create([3u8; 32], vec![5u8, 5]);
    assert_eq!(m, vec![2u8, 0, 0, 0, 0, 0, 0, 0, 5, 5, 2, 0, 0, 0, 0, 0, 0, 0, 0xbb, 0xcc]);
    assert_eq!(c.storage().generator_seed, Some([3u8; 32]));
    assert_eq!(c.storage().merkle_root, Some(vec![5u8, 5]));
}

#[test]
fn verify_before_create_is_refused() {
    let mut c = client();
    assert_eq!(c.generate_randomness_verify(&response().to_bytes(), true), Err(ClientError::UnobtainedValue));
    assert!(c.storage().server_seed.is_none());
}

#[test]
fn verify_refuses_malformed_message() {
    let mut c = client();
    c.generate_randomness_create([3u8; 32], vec![5u8]);
    assert_eq!(c.generate_randomness_verify(&vec![1u8, 2, 3], true), Err(ClientError::Deserialization));
    assert_eq!(c.server_signature_input(&vec![1u8]), Err(ClientError::Deserialization));
}

#[test]
fn forged_signature_leaves_storage_empty() {
    let mut c = client();
    c.generate_randomness_create([3u8; 32], vec![5u8]);
    assert_eq!(c.generate_randomness_verify(&response().to_bytes(), false), Ok(false));
    assert!(c.storage().server_seed.is_none());
    assert!(c.storage().server_signature.is_none());
}

#[test]
fn valid_signature_is_stored() {
    let mut c = client();
    c.generate_randomness_create([3u8; 32], vec![5u8]);
    let input = c.server_signature_input(&response().to_bytes()).unwrap();
    assert_eq!(input, signature_input_bytes(&vec![5u8], &vec![0xbbu8, 0xcc], &vec![4u8; 32]));
    assert_eq!(c.generate_randomness_verify(&response().to_bytes(), true), Ok(true));
    assert_eq!(c.storage().server_seed, Some(vec![4u8; 32]));
    assert_eq!(c.storage().server_signature, Some(vec![6u8, 6]));
}

#[test]
fn report_before_handshake_is_refused() {
    let mut c = client();
    let r = c.verifiable_randomization_create(&vec![1u8], &outputs(&[]), &outputs(&[]), vec![]);
    assert_eq!(r, Err(ClientError::UnobtainedValue));
    assert_eq!(c.storage().index, 0);
    assert!(c.randomization_request(0).is_err());
    c.generate_randomness_create([3u8; 32], vec![5u8]);
    assert_eq!(c.randomization_request(0).err(), Some(ClientError::UnobtainedValue));
}

#[test]
fn report_after_handshake() {
    let mut c = client();
    c.generate_randomness_create([3u8; 32], vec![5u8]);
    c.generate_randomness_verify(&response().to_bytes(), true).unwrap();
    let req = c.randomization_request(0).unwrap();
    let draws = c.generator_draws([3u8; 32]);
    assert_eq!(req.client_seed, draws[0..32].to_vec());
    assert_eq!(req.commitment_randomness, draws[32..36].to_vec());
    assert_eq!(req.server_seed, vec![4u8; 32]);
    assert_eq!(req.client_eval_points.len(), 1);
    // client outputs 0x0f.. and server outputs 0x0f, 0x69, .. combine to 0, 102, 0
    let client_outs = vec![vec![0x0fu8; 32]];
    let server_outs = outputs(&[0x0f, 0x69, 0x0f]);
    assert_eq!(c.report_value(&vec![9u8], &client_outs, &server_outs), 2);
    let m = c.verifiable_randomization_create(&vec![9u8], &client_outs, &server_outs, vec![]).unwrap();
    assert_eq!(&m[m.len() - 8..], &[2u8, 0, 0, 0, 0, 0, 0, 0]);
    assert_eq!(&m[0..11], &[2u8, 0, 0, 0, 0, 0, 0, 0, 0xbb, 0xcc, 1]);
    assert_eq!(c.storage().index, 1);
    assert_eq!(c.storage().generator_seed, Some([3u8; 32]));
    c.verifiable_randomization_create(&vec![9u8], &client_outs, &server_outs, vec![7u8]).unwrap();
    assert_eq!(c.storage().index, 2);
}

#[test]
fn report_of_true_value() {
    let mut c = client();
    c.generate_randomness_create([3u8; 32], vec![5u8]);
    c.generate_randomness_verify(&response().to_bytes(), true).unwrap();
    // gamma window 200 > 127 reports the scaled true value: 100 * 4 = 255 + 145
    assert_eq!(c.report_value(&vec![100u8], &outputs(&[0, 0, 0]), &outputs(&[200, 0, 144])), 2);
    assert_eq!(c.report_value(&vec![100u8], &outputs(&[0, 0, 0]), &outputs(&[200, 0, 145])), 1);
    // largest true value, zero tie-break window: the report stays at k
    assert_eq!(c.report_value(&vec![255u8], &outputs(&[0, 0, 0]), &outputs(&[200, 0, 0])), 4);
}

#[test]
fn batch_draw_order() {
    let c = client();
    let draws = c.generator_draws([3u8; 32]);
    assert_eq!(draws.len(), 32 + 2 * 4);
    let (seed, leaves) = c.batch([3u8; 32]);
    assert_eq!(seed, draws[0..32].to_vec());
    assert_eq!(leaves.len(), 2);
    assert_eq!(leaves[0].commitment_randomness, draws[32..36].to_vec());
    assert_eq!(leaves[1].commitment_randomness, draws[36..40].to_vec());
    assert_eq!(leaves[1].eval_points.len(), 1);
    assert_eq!(leaves[1].eval_points[0][0], 1);
    assert_eq!(leaves[1].eval_points, c.round_eval_points(1));
}

#[test]
fn request_beyond_batch_is_refused() {
    let mut c = client();
    c.generate_randomness_create([3u8; 32], vec![5u8]);
    c.generate_randomness_verify(&response().to_bytes(), true).unwrap();
    let req = c.randomization_request(1).unwrap();
    assert_eq!(req.commitment_randomness, c.generator_draws([3u8; 32])[36..40].to_vec());
    assert_eq!(req.client_eval_points, c.round_eval_points(1));
    assert_eq!(c.randomization_request(2).err(), Some(ClientError::BatchExhausted));
}
