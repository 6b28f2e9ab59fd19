use oblivious_transfer::{AliceMessage2, OTReceiver, OTSender};

#[test]
fn framing_layout_is_length_prefixed() {
    let msg = AliceMessage2 { encrypted_m0: vec![1, 2, 3], encrypted_m1: vec![9] };
    let bytes = msg.to_bytes();
    assert_eq!(
        bytes,
        vec![3, 0, 0, 0, 0, 0, 0, 0, 1, 2, 3, 1, 0, 0, 0, 0, 0, 0, 0, 9]
    );
}

#[test]
fn framing_round_trip_then_decrypt() {
    let (alice, alice_msg1) = OTSender::new();
    let (bob, bob_msg) = OTReceiver::new(true, &alice_msg1);
    let sent = alice.send_encrypted(&bob_msg, b"", b"the second one");
    let bytes = sent.to_bytes();
    assert_eq!(bytes.len(), 16 + 14);
    let parsed = AliceMessage2::from_bytes(&bytes).expect("well-framed bytes");
    assert_eq!(parsed.encrypted_m0, sent.encrypted_m0);
    assert_eq!(parsed.encrypted_m1, sent.encrypted_m1);
    assert_eq!(bob.receive(&parsed, &alice_msg1), b"the second one");
}

#[test]
fn framing_rejects_bad_lengths() {
    assert!(AliceMessage2::from_bytes(&[]).is_none());
    assert!(AliceMessage2::from_bytes(&[0u8; 15]).is_none());
    let empty = AliceMessage2::from_bytes(&[0u8; 16]).expect("two empty ciphertexts");
    assert!(empty.encrypted_m0.is_empty() && empty.encrypted_m1.is_empty());
    // First length claims more bytes than there are.
    let mut too_long = vec![200u8, 0, 0, 0, 0, 0, 0, 0];
    too_long.extend_from_slice(&[0u8; 20]);
    assert!(AliceMessage2::from_bytes(&too_long).is_none());
    // Second length disagrees with what is left.
    let mut bytes = AliceMessage2 { encrypted_m0: vec![5], encrypted_m1: vec![6, 7] }.to_bytes();
    bytes.push(8);
    assert!(AliceMessage2::from_bytes(&bytes).is_none());
}
