//! Core of a permissioned proof-of-stake protocol: an authenticated account
//! state behind a sparse Merkle commitment, deterministic state transitions,
//! stake-weighted validator selection, weighted voting, and the cryptographic
//! primitives these rest on (hashing to a scalar field, Schnorr-style
//! signatures over a pairing-friendly curve, and a Groth16-style identity
//! proof carried by every block).

pub mod account;
pub mod algebra;
pub mod block;
pub mod config;
pub mod validator;
pub mod encryption;
pub mod errors;
pub mod hash;
pub mod identity;
pub mod keys;
pub mod merkle;
pub mod selection;
pub mod signature;
pub mod state;
pub mod storage;
pub mod transaction;
pub mod transition;
pub mod utils;
pub mod voting;
pub mod wire;
pub mod zk;
