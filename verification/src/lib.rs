//! An n-of-n threshold ECDSA signing core over secp256k1, in the GG18 style:
//! a pairwise multiplicative-to-additive (MtA) share conversion built on
//! Paillier encryption, and a per-party five-phase signing state machine.

pub mod bigint;
pub mod cipher;
pub mod etude;
pub mod mta;
pub mod point;
pub mod scalar;
pub mod sums;

use vstd::prelude::*;

verus! {

/// The ways a protocol step can fail.
///
/// Two variants are part of the taxonomy but are never returned by the
/// library itself: the final check surfaces a plain `bool` through
/// `verify`, so `VerificationFailure` is left to callers that want an
/// error value for it, and a failing operating-system randomness source
/// aborts inside the sampling routines before `EntropyFailure` could be
/// raised.
#[derive(Clone, Copy, Debug, PartialEq, Eq, Structural)]
pub enum ProtocolError {
    /// An operation was invoked in the wrong phase.
    StateError,
    /// A peer message arrived for a slot that is already filled.
    SlotAlreadyFilled,
    /// A peer's Paillier message is malformed.
    DecryptionFailure,
    /// The final ECDSA check failed.
    VerificationFailure,
    /// The randomness source did not deliver.
    EntropyFailure,
}

} // verus!
