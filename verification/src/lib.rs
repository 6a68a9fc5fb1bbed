//! Core of a waveform visualizer: a canonical PCM container parser, a sample
//! decoder, and supporting logic for the spectral transforms.
#![verifier::loop_isolation(false)]

use vstd::prelude::*;

pub mod cli;
pub mod decode;
pub mod spectral;

verus! {

/// Failure taxonomy shared by the container parser, the sample decoder, and
/// the spectral-transform preconditions.
#[derive(Clone, Copy, Debug, PartialEq, Eq, Structural)]
pub enum FormatError {
    /// The byte buffer is shorter than a field that must be read.
    Truncated,
    /// A fixed tag field does not match its required literal.
    InvalidHeader,
    /// Non-PCM format code, format sub-chunk size other than 16, or an
    /// unsupported bit depth.
    UnsupportedEncoding,
    /// A transform precondition does not hold (input length is not a power of
    /// two).
    PreconditionError,
}

} // verus!
