use vstd::prelude::*;

verus! {

/// The failure taxonomy of the replay pipeline. Every failure is terminal:
/// nothing is retried and nothing is recovered locally.
#[derive(Debug, PartialEq, Eq, Structural, Clone, Copy)]
pub enum ReplayError {
    /// The command line did not hold exactly the two expected paths.
    UsageError,
    /// An input stream could not be opened or read.
    IoError,
    /// A timing line did not hold exactly two well-formed fields.
    MalformedTimingLine,
    /// The typescript stream ended before the declared chunk sizes were met.
    TruncatedScript,
    /// A chunk about to be emitted was not well-formed text.
    UndecodableOutput,
    /// No capture target handle could be resolved.
    CaptureTargetUnresolved,
    /// An external collaborator process failed or was absent.
    ExternalToolFailure,
}

} // verus!
