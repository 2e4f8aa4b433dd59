//! Error taxonomy: replay/codec failures, proof-pipeline failures, and the
//! ledger state machine's rejection reasons.

use vstd::prelude::*;

verus! {

/// A failure of the replay-scoring computation or of the wire codecs.
/// Any of these aborts the whole computation: no partial journal is produced.
#[derive(Clone, Copy, Debug, PartialEq, Eq, Structural)]
pub enum ReplayError {
    /// The prompt holds a byte outside the ASCII range.
    PromptNotAscii,
    /// The recomputed prompt hash disagrees with the claimed prompt hash.
    PromptHashMismatch,
    /// The normalized prompt is empty.
    EmptyPrompt,
    /// The declared event count disagrees with the actual byte count.
    EventsTruncated,
    /// An event's key code is outside the accepted range.
    InvalidKey,
    /// An event's inter-key delay is below the anti-automation floor.
    DelayTooShort,
    /// The total duration is below the per-character floor.
    DurationTooShort,
    /// Accumulating the total duration overflowed. The bounds of the event
    /// wire format make this unreachable, but checked addition reports it.
    DurationOverflow,
    /// An encoded journal is not exactly `JOURNAL_LEN` bytes, or the event
    /// list is too long to carry a 16-bit count.
    LengthMismatch,
}

/// A failure of the proof-issuance pipeline after the opaque prover ran.
#[derive(Clone, Copy, Debug, PartialEq, Eq, Structural)]
pub enum PipelineError {
    /// The local check of the proof against the program identity failed.
    VerificationFailed,
    /// The strongest proof strength was required but not produced.
    StrengthNotMet,
    /// The committed journal is not exactly `JOURNAL_LEN` bytes.
    JournalLengthMismatch,
    /// The proof artifact's shape admits no seal extraction.
    UnsupportedSeal,
}

/// A rejection by the score-submission state machine. The first failing
/// check of a call determines the error, and no state changes.
#[derive(Clone, Copy, Debug, PartialEq, Eq, Structural)]
pub enum Error {
    /// Initialization was attempted twice, or a challenge's prompt hash,
    /// which is immutable once set, was set a second time.
    AlreadyInitialized,
    /// The ledger's admin, verifier, or program identity is not yet recorded.
    NotInitialized,
    /// The display name has a bad length or a byte outside printable ASCII.
    InvalidName,
    /// The caller-supplied prompt hash disagrees with the stored one.
    InvalidPromptHash,
    /// The challenge has no configured prompt hash, or is not current.
    InvalidChallenge,
    /// The caller's authenticated identity does not authorize the call.
    InvalidPlayer,
    /// The submitted program identity disagrees with the recorded one.
    InvalidImageId,
    /// The external proof verifier rejected the submission.
    ProofVerificationFailed,
}

} // verus!
