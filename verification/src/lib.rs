//! Coin selection and commit/reveal transaction construction for a
//! Bitcoin wallet automation suite.
//!
//! The core consists of a pure coin selector, an envelope codec that embeds
//! typed payloads in a guarded script fragment, a taproot committer, a
//! transaction builder for the two-transaction commit/reveal pattern, and
//! the multisig descriptor extraction used for N-of-M funding. All wallet
//! and node interaction (RPC transport, signing of funding inputs,
//! broadcasting) is delegated to an external collaborator outside this
//! library.

pub mod builder;
pub mod envelope;
pub mod errors;
pub mod flows;
pub mod multisig;
pub mod runes;
pub mod script;
pub mod selection;
pub mod taproot;
pub mod txser;

pub use errors::{UtilsError, WalletError};
