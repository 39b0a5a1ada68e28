//! Gennaro's distributed key generation over the secp256k1 group.
//!
//! A fixed set of `n` participants, each holding a unique identifier in
//! `[1, n]`, runs a five-round protocol that produces one shared public key
//! and gives each participant a private Shamir share of the corresponding
//! secret, which any `t` shares recover by Lagrange interpolation. Rounds 1
//! and 2 deal and verify Pedersen-committed shares, round 3 echoes each
//! participant's view of who is still honest, round 4 aggregates the share
//! and the key under Feldman verification, and round 5 echo-checks the key.

use vstd::prelude::*;

pub mod group;
pub mod idmap;
pub mod vss;
pub mod participant;
pub mod laws;
pub mod codec;

verus! {

/// The round a participant's state machine is currently in; `Done` is the
/// terminal state after a successful round 5.
#[derive(Copy, Clone, PartialEq, Eq, Structural, Debug)]
pub enum Round {
    One,
    Two,
    Three,
    Four,
    Five,
    Done,
}

/// An error surfaced at the protocol boundary. Errors never carry secret
/// material.
#[derive(Debug)]
pub enum DkgError {
    /// Bad parameters or bad Pedersen splitter output at construction.
    InitializationError(&'static str),
    /// A round was entered out of order, fed unacceptable input, or failed a
    /// fatal check; the number names the round that refused.
    RoundError(usize, &'static str),
    /// A value failed to decode from its byte encoding.
    SerializationError(&'static str),
}

} // verus!
