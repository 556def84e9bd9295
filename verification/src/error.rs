//! The ways in which decoding or encoding can fail.

use vstd::prelude::*;

verus! {

/// Why a buffer was not accepted as a WAV file, or why audio data could not
/// be written as one.
#[derive(Clone, Copy, Debug, PartialEq, Eq, Structural)]
pub enum WavError {
    /// The buffer does not start with the tag `RIFF`.
    NotRiff,
    /// The form type that follows the RIFF header is not `WAVE`.
    NotWave,
    /// The chunk after the RIFF header is not tagged `fmt `.
    FormatChunkMissing,
    /// The format chunk does not declare the 16 bytes of the base PCM layout.
    FormatChunkWrongSize,
    /// The audio format tag is not 1 (linear PCM).
    NotPcm,
    /// Byte rate or block alignment contradict the other format fields.
    InconsistentFormatChunk,
    /// The chunk list ended before a chunk tagged `data` was seen.
    DataChunkNotFound,
    /// The number of channels is neither 1 nor 2.
    UnsupportedChannelCount,
    /// The buffer ends inside a field that had to be read.
    UnexpectedEof,
}

impl WavError {
    /// A short English description of the failure.
    pub fn message(&self) -> (text: &'static str)
        ensures
            text@ == match *self {
                WavError::NotRiff => "not a RIFF file"@,
                WavError::NotWave => "not a WAVE file"@,
                WavError::FormatChunkMissing => "fmt chunk not found"@,
                WavError::FormatChunkWrongSize => "fmt chunk wrong size"@,
                WavError::NotPcm => "not a PCM file"@,
                WavError::InconsistentFormatChunk => "byte rate or block align does not match with other parameters"@,
                WavError::DataChunkNotFound => "data chunk not found"@,
                WavError::UnsupportedChannelCount => "unsupported number of channels"@,
                WavError::UnexpectedEof => "unexpected end of input"@,
            },
    {
        match self {
            WavError::NotRiff => "not a RIFF file",
            WavError::NotWave => "not a WAVE file",
            WavError::FormatChunkMissing => "fmt chunk not found",
            WavError::FormatChunkWrongSize => "fmt chunk wrong size",
            WavError::NotPcm => "not a PCM file",
            WavError::InconsistentFormatChunk => "byte rate or block align does not match with other parameters",
            WavError::DataChunkNotFound => "data chunk not found",
            WavError::UnsupportedChannelCount => "unsupported number of channels",
            WavError::UnexpectedEof => "unexpected end of input",
        }
    }
}

} // verus!
