use vldp::messages::{
    signature_input_bytes, ClientCommitMessage, ClientReportMessage, MessageError, ServerResponseMessage,
};

#[test]
fn server_response_encoding() {
    let m = ServerResponseMessage { server_seed: vec![1u8, 2], server_signature: vec![3u8] };
    assert_eq!(m.to_bytes(), vec![2u8, 0, 0, 0, 0, 0, 0, 0, 1, 2, 1, 0, 0, 0, 0, 0, 0, 0, 3]);
}

#[test]
fn server_response_round_trip() {
    let m = ServerResponseMessage { server_seed: vec![9u8; 32], server_signature: (0..70u8).collect() };
    assert_eq!(ServerResponseMessage::from_bytes(&m.to_bytes()), Ok(m));
    let e = ServerResponseMessage { server_seed: vec![], server_signature: vec![] };
    assert_eq!(ServerResponseMessage::from_bytes(&e.to_bytes()), Ok(e));
}

#[test]
fn server_response_malformed() {
    let m = ServerResponseMessage { server_seed: vec![1u8, 2], server_signature: vec![3u8] };
    let mut b = m.to_bytes();
    b.push(0);
    assert_eq!(ServerResponseMessage::from_bytes(&b), Err(MessageError::Malformed));
    let b = m.to_bytes();
    assert_eq!(ServerResponseMessage::from_bytes(&b[..b.len() - 1].to_vec()), Err(MessageError::Malformed));
    assert_eq!(ServerResponseMessage::from_bytes(&vec![1u8, 2, 3]), Err(MessageError::Malformed));
    assert_eq!(ServerResponseMessage::from_bytes(&vec![0xffu8; 20]), Err(MessageError::Malformed));
}

#[test]
fn commit_and_signature_input_encoding() {
    let m = ClientCommitMessage { merkle_root_or_commitment: vec![7u8], client_signature_public_key: vec![8u8, 9] };
    assert_eq!(m.to_bytes(), vec![1u8, 0, 0, 0, 0, 0, 0, 0, 7, 2, 0, 0, 0, 0, 0, 0, 0, 8, 9]);
    let s = signature_input_bytes(&vec![7u8], &vec![8u8, 9], &vec![]);
    let mut expected = m.to_bytes();
    expected.extend_from_slice(&[0u8; 8]);
    assert_eq!(s, expected);
}

#[test]
fn report_encoding_ends_with_value() {
    let m = ClientReportMessage {
        client_signature_public_key: vec![1u8],
        root_or_commitment_reference: vec![2u8],
        server_seed: vec![3u8],
        server_signature: vec![4u8],
        proof: vec![],
        ldp_value: 0x0102,
    };
    let b = m.to_bytes();
    assert_eq!(b.len(), 4 * 9 + 8 + 8);
    assert_eq!(&b[b.len() - 8..], &[2u8, 1, 0, 0, 0, 0, 0, 0]);
    assert_eq!(&b[36..44], &[0u8; 8]);
}
