//! The ways in which an operation of the library can fail.
use vstd::prelude::*;

verus! {

#[derive(Debug, Clone, Copy, PartialEq, Eq, Structural)]
pub enum Error {
    /// A signature whose `r` or `s` is out of range or zero.
    InvalidSignature,
    /// A public key with a bad tag byte, off the curve, or whose parity
    /// does not match its tag.
    InvalidPublicKey,
    /// A secret key that is zero or not below the group order.
    InvalidSecretKey,
    /// A message for which no signature can be made.
    InvalidMessage,
    /// A byte buffer of the wrong size.
    InvalidInputLength,
}

} // verus!
