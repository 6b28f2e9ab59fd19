use oblivious_transfer::{hash_point, xor_decrypt, xor_encrypt, GroupElement, OTSender};
use sha2::Digest;

fn sha256(data: &[u8]) -> Vec<u8> {
    sha2::Sha256::digest(data).to_vec()
}

#[test]
fn cipher_round_trip_for_many_lengths() {
    let key = b"a key that is not 32 bytes long";
    for len in [0usize, 1, 31, 32, 33, 64, 65, 100, 1000] {
        let data: Vec<u8> = (0..len).map(|i| (i * 37 % 251) as u8).collect();
        let encrypted = xor_encrypt(&data, key);
        assert_eq!(encrypted.len(), len);
        if len > 0 {
            assert_ne!(encrypted, data);
        }
        assert_eq!(xor_decrypt(&encrypted, key), data);
    }
}

#[test]
fn keystream_is_the_hash_chain_of_the_key() {
    let key = [0x42u8; 32];
    let zeros = vec![0u8; 70];
    let stream = xor_encrypt(&zeros, &key);
    let block0 = sha256(&key);
    let block1 = sha256(&block0);
    let block2 = sha256(&block1);
    let mut expected = Vec::new();
    expected.extend_from_slice(&block0);
    expected.extend_from_slice(&block1);
    expected.extend_from_slice(&block2[..6]);
    assert_eq!(stream, expected);
}

#[test]
fn cipher_xors_each_byte() {
    let key = b"k";
    let data = b"hello";
    let block0 = sha256(key);
    let expected: Vec<u8> = data.iter().zip(block0.iter()).map(|(d, k)| d ^ k).collect();
    assert_eq!(xor_encrypt(data, key), expected);
}

#[test]
fn empty_data_gives_empty_output() {
    assert!(xor_encrypt(b"", b"any key").is_empty());
    assert!(xor_decrypt(b"", b"").is_empty());
}

#[test]
fn point_hash_is_deterministic() {
    let (_alice, msg) = OTSender::from_random_bytes(&[9u8; 64]);
    let bytes = msg.public_key.to_bytes();
    let first = hash_point(&bytes);
    let second = hash_point(&msg.public_key.to_bytes());
    assert_eq!(first, second);
    assert_eq!(first.len(), 32);
    assert_eq!(first, sha256(&bytes));
    assert_ne!(first, bytes.to_vec());
}

#[test]
fn malformed_encodings_are_rejected() {
    assert!(GroupElement::from_bytes([0xffu8; 32]).is_none());
    let mut bad = [0u8; 32];
    bad[0] = 1;
    assert!(GroupElement::from_bytes(bad).is_none());
    let identity = GroupElement::from_bytes([0u8; 32]).expect("the identity decodes");
    assert_eq!(identity.to_bytes(), [0u8; 32]);
}

#[test]
fn scalar_times_base_point_matches_known_encoding() {
    // The Ristretto base point's compressed encoding.
    let base = [
        0xe2, 0xf2, 0xae, 0x0a, 0x6a, 0xbc, 0x4e, 0x71, 0xa8, 0x84, 0xa9, 0x61, 0xc5, 0x00, 0x51,
        0x5f, 0x58, 0xe3, 0x0b, 0x6a, 0xa5, 0x82, 0xdd, 0x8d, 0xb6, 0xa6, 0x59, 0x45, 0xe0, 0x8d,
        0x2d, 0x76,
    ];
    let mut one = [0u8; 32];
    one[0] = 1;
    assert_eq!(GroupElement::from_scalar(&one).to_bytes(), base);
    let element = GroupElement::from_bytes(base).expect("the base point decodes");
    let mut two = [0u8; 32];
    two[0] = 2;
    assert_eq!(element.times(&two).to_bytes(), element.plus(&element).to_bytes());
    assert_eq!(element.minus(&element).to_bytes(), [0u8; 32]);
}
