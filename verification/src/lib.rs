//! Reader and writer for 16-bit PCM audio in the RIFF/WAVE container.
//!
//! [`parse_bytes`] turns the bytes of a WAV file into a [`WavData`]: sample
//! rate, channel count and the samples of each channel. [`create_bytes`]
//! turns the samples of one or two channels into the bytes of a WAV file.
//! Only linear PCM with 16-bit samples and one or two channels is handled;
//! chunks other than the format chunk and the data chunk are passed over.
//!
//! What a buffer decodes to is stated by the spec function
//! [`read::decoded`], what audio encodes to by [`write::encoded`]; the
//! module [`theorems`] proves how the two fit together.
//!
//! # The file
//!
//! All integers are little-endian.
//!
//! | offset | size | field                                              |
//! |--------|------|----------------------------------------------------|
//! | 0      | 4    | `RIFF`                                             |
//! | 4      | 4    | chunk size: not read; written as 36 + data size    |
//! | 8      | 4    | `WAVE`                                             |
//! | 12     | 4    | `fmt `                                             |
//! | 16     | 4    | size of the format chunk: 16                       |
//! | 20     | 2    | audio format: 1                                    |
//! | 22     | 2    | channel count                                      |
//! | 24     | 4    | sample rate                                        |
//! | 28     | 4    | byte rate: sample rate * channels * bits / 8       |
//! | 32     | 2    | block alignment: channels * bits / 8               |
//! | 34     | 2    | bits per sample: written as 16, read as it stands  |
//! | ...    |      | any chunks, each a tag, a size and as many bytes   |
//! | n      | 4    | `data`                                             |
//! | n + 4  | 4    | data size                                          |
//! | n + 8  |      | samples, frame by frame, left before right         |
//!
//! # The size of the data chunk
//!
//! The reader takes the size field of the data chunk in one of two ways,
//! named by [`DataSizeRule`]. As a cursor bound, the field is the offset in
//! the buffer at which the samples end; [`parse_bytes`] reads it so. As a
//! byte count, it is the number of bytes that the samples take;
//! [`parse_bytes_with`] reads it either way. The writer declares a byte
//! count, so what it writes comes back whole by that rule alone.
//!
//! # Failures
//!
//! Every failure is a [`WavError`]. The reader never looks beyond the end of
//! the buffer: a field that the buffer is too short for is an
//! `UnexpectedEof`.

pub mod endian;
pub mod error;
pub mod format;
pub mod read;
pub mod theorems;
pub mod write;

pub use crate::error::WavError;
pub use crate::format::ChannelLayout;
pub use crate::read::{parse_bytes, parse_bytes_with, DataSizeRule, FormatSpec, WavData};
pub use crate::write::create_bytes;
