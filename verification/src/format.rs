//! What the reader and the writer both know of the file format: the fixed
//! values of the format chunk, the chunk tags and the two channel layouts.

use vstd::prelude::*;
use vstd::string::*;
use crate::error::WavError;

verus! {

/// Audio format tag of linear PCM.
pub const PCM_FORMAT: u16 = 1;

/// Width of one sample in bits.
pub const BITS_PER_SAMPLE: u16 = 16;

/// Size that the format chunk declares for the base PCM layout.
pub const FMT_CHUNK_SIZE: u32 = 16;

/// Bytes of a file that come after the size field of the RIFF header and
/// before the sample data, where the data chunk follows the format chunk
/// directly.
pub const HEADER_AFTER_RIFF_SIZE: u32 = 36;

/// The channel layouts that can be read and written.
#[derive(Clone, Copy, Debug, PartialEq, Eq, Structural)]
pub enum ChannelLayout {
    /// One channel.
    Mono,
    /// Two channels, stored left sample first.
    Stereo,
}

impl ChannelLayout {
    /// The layout with `count` channels, if there is one.
    pub open spec fn of_count(count: int) -> Option<ChannelLayout> {
        if count == 1 {
            Some(ChannelLayout::Mono)
        } else if count == 2 {
            Some(ChannelLayout::Stereo)
        } else {
            None
        }
    }

    /// Number of channels.
    pub open spec fn channels(self) -> int {
        match self {
            ChannelLayout::Mono => 1,
            ChannelLayout::Stereo => 2,
        }
    }

    /// Bytes taken by one frame, that is one sample of every channel.
    pub open spec fn frame_bytes(self) -> int {
        match self {
            ChannelLayout::Mono => 2,
            ChannelLayout::Stereo => 4,
        }
    }

    /// The layout with `count` channels; any count but 1 and 2 is refused.
    pub fn from_count(count: usize) -> (r: Result<ChannelLayout, WavError>)
        ensures
            match Self::of_count(count as int) {
                Some(layout) => r == Ok::<ChannelLayout, WavError>(layout),
                None => r == Err::<ChannelLayout, WavError>(WavError::UnsupportedChannelCount),
            },
    {
        if count == 1 {
            Ok(ChannelLayout::Mono)
        } else if count == 2 {
            Ok(ChannelLayout::Stereo)
        } else {
            Err(WavError::UnsupportedChannelCount)
        }
    }

    /// Number of channels, as the format chunk stores it.
    pub fn count(self) -> (n: u16)
        ensures
            n == self.channels(),
    {
        match self {
            ChannelLayout::Mono => 1,
            ChannelLayout::Stereo => 2,
        }
    }
}

/// The bytes of a chunk tag.
pub open spec fn tag_bytes(tag: &str) -> Seq<u8> {
    tag.spec_bytes()
}

/// The tag `tag` lies in `s` at `at`.
pub open spec fn tag_at(s: Seq<u8>, at: int, tag: &str) -> bool {
    s.subrange(at, at + tag_bytes(tag).len()) == tag_bytes(tag)
}

/// The four tags of the format, byte by byte. Each is four ASCII characters.
pub proof fn lemma_tag_bytes()
    ensures
        tag_bytes("RIFF") == seq![0x52u8, 0x49u8, 0x46u8, 0x46u8],
        tag_bytes("WAVE") == seq![0x57u8, 0x41u8, 0x56u8, 0x45u8],
        tag_bytes("fmt ") == seq![0x66u8, 0x6du8, 0x74u8, 0x20u8],
        tag_bytes("data") == seq![0x64u8, 0x61u8, 0x74u8, 0x61u8],
{
    broadcast use is_ascii_spec_bytes;

    reveal_strlit("RIFF");
    reveal_strlit("WAVE");
    reveal_strlit("fmt ");
    reveal_strlit("data");
    assert(is_ascii("RIFF"));
    assert(is_ascii("WAVE"));
    assert(is_ascii("fmt "));
    assert(is_ascii("data"));
}

} // verus!
