//! The outcomes that end a generation before or while it runs.

use vstd::prelude::*;

verus! {

/// What is wrong with a request's configuration.
#[derive(Debug, Clone, Copy, PartialEq, Eq, Structural)]
pub enum ConfigIssue {
    /// The buffer, divided between the workers, is smaller than `unit`.
    BufferTooSmall { workers: usize, unit: usize },
    /// The requested size is smaller than the encoding's smallest symbol.
    SizeTooSmall { unit: usize },
    /// The requested size is not a multiple of the encoding's smallest symbol.
    SizeNotAligned { unit: usize },
    /// A size or the length of a label exceeds the machine's range.
    OutOfRange,
    /// No worker was asked for.
    NoWorkers,
    /// Streaming was asked of an encoding that has no streaming mode.
    StreamingUnsupported,
    /// A range of integers whose lower end lies above its upper end.
    EmptyRange,
}

/// Why a generation failed.
#[derive(Debug, Clone, Copy, PartialEq, Eq, Structural)]
pub enum GenError {
    /// The resolved alphabet holds no symbol.
    EmptyAlphabet,
    /// The request cannot be planned.
    ConfigError(ConfigIssue),
    /// A write to the sink failed in finite mode.
    IoFailure,
    /// A worker ended abnormally.
    ThreadFailure,
}

} // verus!
