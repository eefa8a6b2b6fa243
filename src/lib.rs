//! Elliptic-curve keys and signatures over secp256k1, with verified
//! modular, point and key algebra.

pub mod bytes;
pub mod bignum;
pub mod consts;
pub mod field;
pub mod scalar;
pub mod group;
pub mod error;
pub mod keys;
pub mod message;
pub mod schnorr;

pub use error::Error;
pub use keys::{PublicKey, SecretKey};
pub use message::{Message, RecoveryId, Signature};
