//! Key derivation from group elements and the hash-chain keystream cipher.
use sha2::Digest;
use vstd::prelude::*;

verus! {

/// The SHA-256 digest of `data`.
pub uninterp spec fn sha256_of(data: Seq<u8>) -> Seq<u8>;

/// Relies on `sha2::Sha256::digest`: the digest depends on the input bytes
/// alone and is always 32 bytes long.
#[verifier::external_body]
fn sha256(data: &[u8]) -> (r: Vec<u8>)
    ensures
        r@ == sha256_of(data@),
        r@.len() == 32,
{
    sha2::Sha256::digest(data).to_vec()
}

/// The symmetric key derived from a group element: the SHA-256 digest of its
/// 32-byte compressed encoding.
pub open spec fn derive_key(encoding: Seq<u8>) -> Seq<u8> {
    sha256_of(encoding)
}

/// Hashes the compressed encoding of a group element to a 32-byte key.
pub fn hash_point(point: &[u8; 32]) -> (r: Vec<u8>)
    ensures
        r@ == derive_key(point@),
        r@.len() == 32,
{
    sha256(point)
}

/// Key derivation is deterministic: equal encodings give equal keys, however
/// often and wherever the key is computed.
pub proof fn lemma_derive_key_deterministic(p: Seq<u8>, q: Seq<u8>)
    requires
        p == q,
    ensures
        derive_key(p) == derive_key(q),
{
}

/// Block `n` of the keystream for `key`: the first block is the digest of
/// the key, each later block the digest of the block before it.
pub open spec fn chain_block(key: Seq<u8>, n: nat) -> Seq<u8>
    decreases n,
{
    if n == 0 {
        sha256_of(key)
    } else {
        sha256_of(chain_block(key, (n - 1) as nat))
    }
}

/// Byte `i` of the keystream: byte `i % 32` of block `i / 32`.
pub open spec fn keystream_byte(key: Seq<u8>, i: int) -> u8 {
    chain_block(key, (i / 32) as nat)[i % 32]
}

/// The keystream cipher: each byte of `data` XORed with the keystream byte at
/// the same position. The output is as long as the input.
pub open spec fn xor_cipher(data: Seq<u8>, key: Seq<u8>) -> Seq<u8> {
    Seq::new(data.len(), |i: int| data[i] ^ keystream_byte(key, i))
}

proof fn lemma_block_position(j: int, u: int)
    requires
        0 <= j,
        0 <= u < 32,
    ensures
        (32 * j + u) / 32 == j,
        (32 * j + u) % 32 == u,
{
    vstd::arithmetic::div_mod::lemma_fundamental_div_mod_converse(32 * j + u, 32, j, u);
}

/// Encrypts `plaintext` under `key` with the hash-chain keystream.
///
/// The keystream is deterministic in the key and nothing authenticates the
/// output: this gives confidentiality against a passive observer only.
pub fn xor_encrypt(plaintext: &[u8], key: &[u8]) -> (r: Vec<u8>)
    ensures
        r@ == xor_cipher(plaintext@, key@),
{
    let mut keystream: Vec<u8> = Vec::new();
    let mut current: Vec<u8> = Vec::new();
    let mut c: usize = 0;
    while c < key.len()
        invariant
            c <= key.len(),
            current@ == key@.subrange(0, c as int),
        decreases key.len() - c,
    {
        current.push(key[c]);
        c = c + 1;
    }
    assert(current@ =~= key@);
    let ghost mut blocks: nat = 0;
    while keystream.len() < plaintext.len()
        invariant
            keystream@.len() == 32 * blocks,
            blocks == 0 ==> current@ == key@,
            blocks > 0 ==> current@ == chain_block(key@, (blocks - 1) as nat),
            forall|i: int| 0 <= i < keystream@.len() ==> keystream@[i] == keystream_byte(key@, i),
        decreases plaintext.len() + 32 - keystream.len(),
    {
        let hash = sha256(current.as_slice());
        assert(hash@ == chain_block(key@, blocks));
        let ghost start = keystream@.len();
        let mut t: usize = 0;
        while t < hash.len()
            invariant
                hash@.len() == 32,
                hash@ == chain_block(key@, blocks),
                start == 32 * blocks,
                t <= 32,
                keystream@.len() == start + t,
                forall|i: int| 0 <= i < start ==> keystream@[i] == keystream_byte(key@, i),
                forall|u: int| 0 <= u < t ==> keystream@[start + u] == hash@[u],
            decreases 32 - t,
        {
            keystream.push(hash[t]);
            t = t + 1;
        }
        proof {
            assert forall|i: int| 0 <= i < keystream@.len() implies keystream@[i] == keystream_byte(
                key@,
                i,
            ) by {
                if i >= start {
                    lemma_block_position(blocks as int, i - start);
                    assert(keystream@[start + (i - start)] == hash@[i - start]);
                }
            }
            blocks = blocks + 1;
        }
        current = hash;
    }
    let mut out: Vec<u8> = Vec::new();
    let mut i: usize = 0;
    while i < plaintext.len()
        invariant
            i <= plaintext.len(),
            plaintext.len() <= keystream@.len(),
            forall|k: int| 0 <= k < keystream@.len() ==> keystream@[k] == keystream_byte(key@, k),
            out@.len() == i,
            forall|k: int| 0 <= k < i ==> out@[k] == plaintext@[k] ^ keystream_byte(key@, k),
        decreases plaintext.len() - i,
    {
        out.push(plaintext[i] ^ keystream[i]);
        i = i + 1;
    }
    assert(out@ =~= xor_cipher(plaintext@, key@));
    out
}

/// Decrypts `ciphertext` under `key`: the keystream cipher is its own inverse.
pub fn xor_decrypt(ciphertext: &[u8], key: &[u8]) -> (r: Vec<u8>)
    ensures
        r@ == xor_cipher(ciphertext@, key@),
{
    xor_encrypt(ciphertext, key)
}

/// Applying the cipher twice under the same key gives the data back.
pub proof fn lemma_cipher_involution(data: Seq<u8>, key: Seq<u8>)
    ensures
        xor_cipher(xor_cipher(data, key), key) == data,
{
    let once = xor_cipher(data, key);
    let twice = xor_cipher(once, key);
    assert forall|i: int| 0 <= i < data.len() implies twice[i] == data[i] by {
        let d = data[i];
        let k = keystream_byte(key, i);
        assert((d ^ k) ^ k == d) by (bit_vector);
    }
    assert(twice =~= data);
}

} // verus!
