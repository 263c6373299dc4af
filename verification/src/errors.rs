//! The closed error taxonomy of the validator.
//!
//! Every failure aborts the current operation with the persistent state
//! unchanged. Consensus-rule failures are permanent rejections of the data;
//! `StorageFailure` means the store itself was unavailable or corrupt, so the
//! caller may retry.

use vstd::prelude::*;

verus! {

#[derive(Clone, Copy, Debug, PartialEq, Eq, Structural)]
pub enum ConsensusError {
    /// The block's byte length exceeds the admission cap.
    OversizedBlock,
    /// The block header is absent, incomplete, or carries an unsupported version.
    UnsupportedVersion,
    /// The bytes do not form a complete transaction of the supported layout.
    UnsupportedTxVersion,
    /// The block header's digest does not satisfy the difficulty predicate.
    InvalidNonce,
    /// The header's previous-block id differs from the current chain tip.
    PrevHashMismatch,
    /// The header's transaction-root digest differs from the payload digest.
    TxRootMismatch,
    /// An input references an output id that is absent, already spent, or
    /// whose stored record is corrupt.
    InvalidUtxoReference,
    /// An input's signature does not verify against the referenced owner key.
    InvalidSignature,
    /// The running output total exceeds the running input total.
    OutputsExceedInputs,
    /// The stored mempool blob is not a whole number of output records.
    MalformedMempoolState,
    /// The underlying store failed; the operation may be retried.
    StorageFailure,
}

} // verus!
