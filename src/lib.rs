//! One-out-of-two oblivious transfer over the Ristretto group.
//!
//! A sender holds two messages; a receiver holds a choice bit and learns
//! exactly the message it chose, while the sender's view of the exchange is
//! independent of that bit (under the decisional Diffie-Hellman assumption).
//!
//! The symmetric layer is a SHA-256 hash-chain keystream XORed onto the data.
//! It has no authentication and is deterministic in its key: it is a teaching
//! construction, not a production cipher.
pub mod cipher;
pub mod group;
pub mod protocol;
pub mod wire;

pub use cipher::{hash_point, xor_decrypt, xor_encrypt};
pub use group::GroupElement;
pub use protocol::{AliceMessage1, AliceMessage2, BobMessage, OTReceiver, OTSender};
