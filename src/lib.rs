//! Transaction model, canonical transaction hashing and ledger snapshots of a
//! single-node Starknet emulator.
pub mod codec;
pub mod error;
pub mod felt;
pub mod hash;
pub mod declare_transaction;
pub mod snapshot;
pub mod validation;
