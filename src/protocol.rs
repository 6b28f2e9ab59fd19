//! The two roles of the transfer and the messages that pass between them.
use crate::cipher::{derive_key, hash_point, lemma_cipher_involution, xor_cipher, xor_decrypt, xor_encrypt};
use crate::group::{base_encoding, group_order, le_value, scalar_from_wide, GroupElement};
use rand::RngCore;
use vstd::prelude::*;

verus! {

/// Relies on `rand::rngs::OsRng::fill_bytes`: 64 bytes from the operating
/// system's secure random source. Nothing is known of their values. It
/// panics where that source fails, which ends the run: there is no safe
/// fallback for missing entropy.
#[verifier::external_body]
fn random_wide_bytes() -> (r: [u8; 64]) {
    let mut bytes = [0u8; 64];
    rand::rngs::OsRng.fill_bytes(&mut bytes);
    bytes
}

/// The key that a party holding the scalar `secret` derives from the element
/// with logarithm `log`: the hash of `secret · log` times the base point.
pub open spec fn shared_key(secret: int, log: int) -> Seq<u8> {
    derive_key(base_encoding(secret * log))
}

/// The sender's first message: its public element.
#[derive(Clone, Copy)]
pub struct AliceMessage1 {
    pub public_key: GroupElement,
}

/// The receiver's message: its public element, which carries the choice.
#[derive(Clone, Copy)]
pub struct BobMessage {
    pub public_key: GroupElement,
}

/// The sender's second message: both messages, each under its own key.
#[derive(Clone, Debug)]
pub struct AliceMessage2 {
    pub encrypted_m0: Vec<u8>,
    pub encrypted_m1: Vec<u8>,
}

/// The sender of one transfer: a secret scalar `a` and its public element `A = a·B`.
pub struct OTSender {
    private_key: [u8; 32],
    public_key: GroupElement,
}

/// The receiver of one transfer: its choice, a secret scalar `b`, and its
/// public element, `b·B` for the first message or `b·B + A` for the second.
pub struct OTReceiver {
    choice: bool,
    private_key: [u8; 32],
    public_key: GroupElement,
}

impl OTSender {
    /// The secret scalar, as an integer.
    pub closed spec fn secret(&self) -> int {
        le_value(self.private_key@) as int
    }

    /// The logarithm of the public element.
    pub closed spec fn public_log(&self) -> int {
        self.public_key.log()
    }

    /// This sender's public element is its secret times the base point, and
    /// `msg` announces that element.
    pub open spec fn announced(&self, msg: AliceMessage1) -> bool {
        &&& self.public_log() == self.secret()
        &&& msg.public_key.log() == self.public_log()
    }

    /// The two ciphertexts for `m0` and `m1` when the receiver's element has
    /// logarithm `bob_log`: `m0` under the key of `a·B'`, `m1` under the key of
    /// `a·(B' - A)`.
    pub open spec fn ciphertexts(&self, bob_log: int, m0: Seq<u8>, m1: Seq<u8>) -> (Seq<u8>, Seq<u8>) {
        (
            xor_cipher(m0, shared_key(self.secret(), bob_log)),
            xor_cipher(m1, shared_key(self.secret(), bob_log - self.public_log())),
        )
    }

    /// Starts a transfer from 64 random bytes: the secret scalar is those bytes
    /// reduced modulo the group order.
    pub fn from_random_bytes(wide: &[u8; 64]) -> (r: (OTSender, AliceMessage1))
        ensures
            r.0.secret() == (le_value(wide@) as int) % group_order(),
            r.0.announced(r.1),
    {
        let private_key = scalar_from_wide(wide);
        let public_key = GroupElement::from_scalar(&private_key);
        (OTSender { private_key, public_key }, AliceMessage1 { public_key })
    }

    /// Starts a transfer with a secret scalar drawn from the system's secure
    /// random source.
    pub fn new() -> (r: (OTSender, AliceMessage1))
        ensures
            0 <= r.0.secret() < group_order(),
            r.0.announced(r.1),
    {
        let wide = random_wide_bytes();
        OTSender::from_random_bytes(&wide)
    }

    /// Encrypts `m0` and `m1` for the receiver that sent `bob_message`; only
    /// the one it chose can be decrypted with the receiver's own key.
    pub fn send_encrypted(&self, bob_message: &BobMessage, m0: &[u8], m1: &[u8]) -> (r: AliceMessage2)
        ensures
            (r.encrypted_m0@, r.encrypted_m1@) == self.ciphertexts(
                bob_message.public_key.log(),
                m0@,
                m1@,
            ),
    {
        let k0_point = bob_message.public_key.times(&self.private_key);
        let k1_point = bob_message.public_key.minus(&self.public_key).times(&self.private_key);
        let k0 = hash_point(&k0_point.to_bytes());
        let k1 = hash_point(&k1_point.to_bytes());
        let encrypted_m0 = xor_encrypt(m0, k0.as_slice());
        let encrypted_m1 = xor_encrypt(m1, k1.as_slice());
        AliceMessage2 { encrypted_m0, encrypted_m1 }
    }
}

impl OTReceiver {
    /// The message this receiver chose: `false` for the first, `true` for the second.
    pub closed spec fn choice(&self) -> bool {
        self.choice
    }

    /// The secret scalar, as an integer.
    pub closed spec fn secret(&self) -> int {
        le_value(self.private_key@) as int
    }

    /// The logarithm of the public element.
    pub closed spec fn public_log(&self) -> int {
        self.public_key.log()
    }

    /// This receiver answered `msg1` with `msg2`: its public element is
    /// `b·B`, plus the sender's element where it chose the second message.
    pub open spec fn answered(&self, msg1: AliceMessage1, msg2: BobMessage) -> bool {
        &&& self.public_log() == self.secret() + if self.choice() {
            msg1.public_key.log()
        } else {
            0
        }
        &&& msg2.public_key.log() == self.public_log()
    }

    /// What this receiver reads from the ciphertexts `c0` and `c1`: the one it
    /// chose, decrypted under the key of `b·A`.
    pub open spec fn plaintext(&self, c0: Seq<u8>, c1: Seq<u8>, alice_log: int) -> Seq<u8> {
        xor_cipher(
            if self.choice() {
                c1
            } else {
                c0
            },
            shared_key(self.secret(), alice_log),
        )
    }

    /// Answers the sender's first message from 64 random bytes: the secret
    /// scalar is those bytes reduced modulo the group order.
    pub fn from_random_bytes(choice: bool, alice_msg: &AliceMessage1, wide: &[u8; 64]) -> (r: (
        OTReceiver,
        BobMessage,
    ))
        ensures
            r.0.choice() == choice,
            r.0.secret() == (le_value(wide@) as int) % group_order(),
            r.0.answered(*alice_msg, r.1),
    {
        let private_key = scalar_from_wide(wide);
        let mut public_key = GroupElement::from_scalar(&private_key);
        if choice {
            public_key = public_key.plus(&alice_msg.public_key);
        }
        (OTReceiver { choice, private_key, public_key }, BobMessage { public_key })
    }

    /// Answers the sender's first message with a secret scalar drawn from the
    /// system's secure random source.
    pub fn new(choice: bool, alice_msg: &AliceMessage1) -> (r: (OTReceiver, BobMessage))
        ensures
            r.0.choice() == choice,
            0 <= r.0.secret() < group_order(),
            r.0.answered(*alice_msg, r.1),
    {
        let wide = random_wide_bytes();
        OTReceiver::from_random_bytes(choice, alice_msg, &wide)
    }

    /// Decrypts the chosen ciphertext of `alice_msg2` with the key derived
    /// from `b·A`.
    pub fn receive(&self, alice_msg2: &AliceMessage2, alice_msg1: &AliceMessage1) -> (r: Vec<u8>)
        ensures
            r@ == self.plaintext(
                alice_msg2.encrypted_m0@,
                alice_msg2.encrypted_m1@,
                alice_msg1.public_key.log(),
            ),
    {
        let k_point = alice_msg1.public_key.times(&self.private_key);
        let k = hash_point(&k_point.to_bytes());
        if self.choice {
            xor_decrypt(alice_msg2.encrypted_m1.as_slice(), k.as_slice())
        } else {
            xor_decrypt(alice_msg2.encrypted_m0.as_slice(), k.as_slice())
        }
    }
}

/// A receiver that follows the protocol recovers exactly the message it
/// chose, whatever both parties' secret scalars and whatever the messages.
pub proof fn lemma_receiver_gets_chosen(
    sender: OTSender,
    msg1: AliceMessage1,
    receiver: OTReceiver,
    msg2: BobMessage,
    m0: Seq<u8>,
    m1: Seq<u8>,
)
    requires
        sender.announced(msg1),
        receiver.answered(msg1, msg2),
    ensures
        ({
            let (c0, c1) = sender.ciphertexts(msg2.public_key.log(), m0, m1);
            receiver.plaintext(c0, c1, msg1.public_key.log()) == if receiver.choice() {
                m1
            } else {
                m0
            }
        }),
{
    let a = sender.secret();
    let b = receiver.secret();
    if receiver.choice() {
        assert(a * ((b + a) - a) == b * a) by (nonlinear_arith);
        lemma_cipher_involution(m1, shared_key(b, a));
    } else {
        assert(a * b == b * a) by (nonlinear_arith);
        lemma_cipher_involution(m0, shared_key(b, a));
    }
}

} // verus!
