//! Typed failures surfaced by the coin-selection and transaction-building core.
//!
//! Every failure is a terminal result for the call that produced it; nothing
//! here is retried. Arithmetic bound violations are always reported, never
//! silently wrapped.

use vstd::prelude::*;

verus! {

/// Failures of coin selection and of multisig descriptor extraction.
#[derive(Clone, Copy, Debug, PartialEq, Eq, Structural)]
pub enum UtilsError {
    /// No subset of the candidate outputs (within the strategy's search
    /// space) reaches `target + fee`.
    InsufficientUTXOs,
    /// A participant's descriptor set lacks a required watch-only entry.
    DescriptorNotFound,
    /// An amount computation exceeded the 64-bit satoshi range.
    AmountOverflow,
}

/// Failures of envelope encoding and commit/reveal transaction construction.
#[derive(Clone, Copy, Debug, PartialEq, Eq, Structural)]
pub enum WalletError {
    /// The funding output cannot cover `amount + fee` in the commit phase.
    InsufficientFunds,
    /// The reveal outputs plus fee exceed the committed amount.
    InsufficientAmount,
    /// No subset of the candidate outputs reaches the required total.
    InsufficientUTXOs,
    /// A non-chunked envelope field exceeds the maximum single push size.
    FieldTooLarge,
    /// The content type is not valid text or does not contain a '/'.
    InvalidContentType,
    /// An amount computation exceeded the 64-bit satoshi range.
    AmountOverflow,
    /// An amount computation went below zero.
    AmountUnderflow,
    /// A cryptographic library call failed; treated as fatal.
    SigningFailed,
    /// The external node or wallet collaborator could not be reached.
    CollaboratorUnavailable,
}

} // verus!
