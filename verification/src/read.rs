//! The decoder: from the bytes of a WAV file to sample rate, channel count
//! and the samples of each channel.
//!
//! A file is read in one pass by a cursor that runs over the buffer: the RIFF
//! header, the format chunk, any chunks up to the one tagged `data`, and the
//! samples. Each step either moves the cursor past what it read, or fails and
//! leaves the cursor where it was. The first failure ends the reading.
//!
//! The reader is lenient in three places. The chunk size of the RIFF header
//! is not looked at. The sample width of the format chunk is held against
//! byte rate and block alignment, but not against 16: samples are read as
//! 16-bit whatever it says. And the last frame is read whole where it starts
//! below the bound of the samples and ends beyond it.

use vstd::prelude::*;
use vstd::string::*;
use crate::endian::{has_bytes, i16_le, parse_i16, parse_u16, parse_u32, u16_le, u32_le};
use crate::error::WavError;
use crate::format::{
    lemma_tag_bytes,
    tag_at,
    tag_bytes,
    ChannelLayout,
    FMT_CHUNK_SIZE,
    PCM_FORMAT,
};

verus! {

/// Audio read from or to be written to a WAV file. `audiodata` holds one
/// vector of 16-bit samples for each channel.
#[derive(Debug, PartialEq, Eq)]
pub struct WavData {
    pub num_channels: u16,
    pub samplerate: u32,
    pub audiodata: Vec<Vec<i16>>,
}

/// What a `WavData` stands for: its fields, with the samples as sequences.
pub struct WavDataView {
    pub num_channels: u16,
    pub samplerate: u32,
    pub audiodata: Seq<Seq<i16>>,
}

/// The samples of each channel, as sequences.
pub open spec fn channels_view(channels: Seq<Vec<i16>>) -> Seq<Seq<i16>> {
    Seq::new(channels.len(), |i: int| channels[i]@)
}

/// One or two channels; two channels are equally long.
pub open spec fn well_formed(channels: Seq<Seq<i16>>) -> bool {
    &&& 1 <= channels.len() <= 2
    &&& channels.len() == 2 ==> channels[0].len() == channels[1].len()
}

impl WavDataView {
    /// The channel count is 1 or 2, there are as many channels as it says,
    /// and two channels are equally long.
    pub open spec fn well_formed(self) -> bool {
        &&& well_formed(self.audiodata)
        &&& self.audiodata.len() == self.num_channels
    }
}

impl View for WavData {
    type V = WavDataView;

    open spec fn view(&self) -> WavDataView {
        WavDataView {
            num_channels: self.num_channels,
            samplerate: self.samplerate,
            audiodata: channels_view(self.audiodata@),
        }
    }
}

impl Clone for WavData {
    /// A copy with the same fields and the same samples.
    fn clone(&self) -> (copy: WavData)
        ensures
            copy@ == self@,
    {
        let mut audiodata: Vec<Vec<i16>> = Vec::new();
        let mut i: usize = 0;
        while i < self.audiodata.len()
            invariant
                i <= self.audiodata.len(),
                audiodata.len() == i,
                forall|j: int| 0 <= j < i ==> audiodata[j]@ == self.audiodata[j]@,
            decreases self.audiodata.len() - i,
        {
            let channel: Vec<i16> = self.audiodata[i].clone();
            assert(channel@ =~= self.audiodata[i as int]@);
            audiodata.push(channel);
            i += 1;
        }
        assert(channels_view(audiodata@) =~= channels_view(self.audiodata@));
        WavData { num_channels: self.num_channels, samplerate: self.samplerate, audiodata }
    }
}

/// The two fields of the format chunk that decide how samples are read.
#[derive(Clone, Copy, Debug, PartialEq, Eq, Structural)]
pub struct FormatSpec {
    pub num_channels: u16,
    pub samplerate: u32,
}

/// How the size field of the data chunk bounds the samples.
///
/// By `CursorBound` a file whose size field holds a byte count loses as many
/// bytes at its end as lie before its samples.
#[derive(Clone, Copy, Debug, PartialEq, Eq, Structural)]
pub enum DataSizeRule {
    /// The size is the offset in the whole buffer at which the samples end:
    /// frames are read while the cursor is below it.
    CursorBound,
    /// The size is the number of sample bytes: frames are read while fewer
    /// bytes than that have been taken from the chunk.
    ByteCount,
}

/// Compares the bytes at the cursor with those of `string` and moves the
/// cursor past them. Where fewer bytes are left than `string` has, nothing is
/// compared and the cursor stays.
pub fn compare_str_bytes(buf: &[u8], offset: &mut usize, string: &str) -> (r: Result<
    bool,
    WavError,
>)
    ensures
        match r {
            Ok(same) => {
                &&& has_bytes(buf@, *old(offset) as int, tag_bytes(string).len() as int)
                &&& same == tag_at(buf@, *old(offset) as int, string)
                &&& *final(offset) == *old(offset) + tag_bytes(string).len()
            },
            Err(e) => {
                &&& !has_bytes(buf@, *old(offset) as int, tag_bytes(string).len() as int)
                &&& e == WavError::UnexpectedEof
                &&& *final(offset) == *old(offset)
            },
        },
{
    let tag = string.as_bytes();
    let at: usize = *offset;
    let n: usize = tag.len();
    if at > buf.len() || buf.len() - at < n {
        return Err(WavError::UnexpectedEof);
    }
    let mut same = true;
    let mut i: usize = 0;
    while i < n
        invariant
            i <= n,
            n == tag@.len(),
            at + n <= buf.len(),
            same == (forall|j: int| 0 <= j < i ==> buf@[at + j] == tag@[j]),
        decreases n - i,
    {
        if buf[at + i] != tag[i] {
            same = false;
        }
        i += 1;
    }
    proof {
        let part = buf@.subrange(at as int, at + n);
        if same {
            assert(part =~= tag@);
        } else {
            let j = choose|j: int| 0 <= j < n && buf@[at + j] != tag@[j];
            assert(part[j] != tag@[j]);
        }
    }
    *offset = at + n;
    Ok(same)
}

/// What the RIFF header at `at` amounts to: accepted, or the first fault.
pub open spec fn riff_chunk(s: Seq<u8>, at: int) -> Result<(), WavError> {
    if !has_bytes(s, at, 4) {
        Err(WavError::UnexpectedEof)
    } else if !tag_at(s, at, "RIFF") {
        Err(WavError::NotRiff)
    } else if !has_bytes(s, at + 8, 4) {
        Err(WavError::UnexpectedEof)
    } else if !tag_at(s, at + 8, "WAVE") {
        Err(WavError::NotWave)
    } else {
        Ok(())
    }
}

/// Reads the RIFF header: the tag `RIFF`, four bytes of chunk size that are
/// passed over without a look, and the tag `WAVE`.
pub fn parse_riff_chunk(buf: &[u8], offset: &mut usize) -> (r: Result<(), WavError>)
    ensures
        r == riff_chunk(buf@, *old(offset) as int),
        *final(offset) == if r.is_ok() {
            *old(offset) + 12
        } else {
            *old(offset) as int
        },
{
    proof {
        lemma_tag_bytes();
    }
    let mut pos: usize = *offset;
    if !compare_str_bytes(buf, &mut pos, "RIFF")? {
        return Err(WavError::NotRiff);
    }
    // The chunk size is not held against the length of the buffer.
    if buf.len() - pos < 4 {
        return Err(WavError::UnexpectedEof);
    }
    pos += 4;
    if !compare_str_bytes(buf, &mut pos, "WAVE")? {
        return Err(WavError::NotWave);
    }
    *offset = pos;
    Ok(())
}

/// What the format chunk at `at` amounts to: the fields that the samples are
/// read by, or the first fault.
pub open spec fn fmt_chunk(s: Seq<u8>, at: int) -> Result<FormatSpec, WavError> {
    if !has_bytes(s, at, 4) {
        Err(WavError::UnexpectedEof)
    } else if !tag_at(s, at, "fmt ") {
        Err(WavError::FormatChunkMissing)
    } else if !has_bytes(s, at + 4, 4) {
        Err(WavError::UnexpectedEof)
    } else if u32_le(s, at + 4) != FMT_CHUNK_SIZE {
        Err(WavError::FormatChunkWrongSize)
    } else if !has_bytes(s, at + 8, 2) {
        Err(WavError::UnexpectedEof)
    } else if u16_le(s, at + 8) != PCM_FORMAT {
        Err(WavError::NotPcm)
    } else if !has_bytes(s, at + 10, 14) {
        Err(WavError::UnexpectedEof)
    } else {
        let num_channels = u16_le(s, at + 10);
        let samplerate = u32_le(s, at + 12);
        let byterate = u32_le(s, at + 16);
        let block_align = u16_le(s, at + 20);
        let bits_per_sample = u16_le(s, at + 22);
        if byterate != samplerate * num_channels * bits_per_sample / 8 {
            Err(WavError::InconsistentFormatChunk)
        } else if block_align != num_channels * bits_per_sample / 8 {
            Err(WavError::InconsistentFormatChunk)
        } else {
            Ok(FormatSpec { num_channels, samplerate })
        }
    }
}

/// Reads the format chunk and checks it: the tag `fmt `, a size of 16, the
/// PCM format tag, and a byte rate and a block alignment that agree with
/// sample rate, channel count and sample width. The sample width itself is
/// not held to 16.
pub fn parse_fmt_chunk(buf: &[u8], offset: &mut usize) -> (r: Result<FormatSpec, WavError>)
    ensures
        r == fmt_chunk(buf@, *old(offset) as int),
        *final(offset) == if r.is_ok() {
            *old(offset) + 24
        } else {
            *old(offset) as int
        },
{
    proof {
        lemma_tag_bytes();
    }
    let mut pos: usize = *offset;
    if !compare_str_bytes(buf, &mut pos, "fmt ")? {
        return Err(WavError::FormatChunkMissing);
    }
    if parse_u32(buf, &mut pos)? != FMT_CHUNK_SIZE {
        return Err(WavError::FormatChunkWrongSize);
    }
    if parse_u16(buf, &mut pos)? != PCM_FORMAT {
        return Err(WavError::NotPcm);
    }
    let num_channels: u16 = parse_u16(buf, &mut pos)?;
    let samplerate: u32 = parse_u32(buf, &mut pos)?;
    let byterate: u32 = parse_u32(buf, &mut pos)?;
    let block_align: u16 = parse_u16(buf, &mut pos)?;
    let bits_per_sample: u16 = parse_u16(buf, &mut pos)?;

    assert(num_channels * bits_per_sample <= 0xffff * 0xffff) by (nonlinear_arith)
        requires
            num_channels <= 0xffff,
            bits_per_sample <= 0xffff,
    ;
    let frame_bits: u64 = num_channels as u64 * bits_per_sample as u64;
    assert(samplerate * frame_bits <= 0xffff_ffff * 0xffff_ffff) by (nonlinear_arith)
        requires
            samplerate <= 0xffff_ffff,
            frame_bits <= 0xffff_ffff,
    ;
    assert(samplerate * num_channels * bits_per_sample == samplerate * (num_channels
        * bits_per_sample)) by (nonlinear_arith);
    if byterate as u64 != samplerate as u64 * frame_bits / 8 {
        return Err(WavError::InconsistentFormatChunk);
    }
    if block_align as u64 != frame_bits / 8 {
        return Err(WavError::InconsistentFormatChunk);
    }
    *offset = pos;
    Ok(FormatSpec { num_channels, samplerate })
}

/// Where the samples' size field lies: just past the first tag `data` that
/// the chunk list starting at `at` leads to, or why none is reached. A chunk
/// with another tag is passed over by its declared size.
pub open spec fn data_offset(s: Seq<u8>, at: int) -> Result<int, WavError>
    decreases s.len() - at,
{
    if at < 0 || at >= s.len() {
        Err(WavError::DataChunkNotFound)
    } else if !has_bytes(s, at, 4) {
        Err(WavError::UnexpectedEof)
    } else if tag_at(s, at, "data") {
        Ok(at + 4)
    } else if at + 4 >= s.len() {
        Err(WavError::DataChunkNotFound)
    } else if !has_bytes(s, at + 4, 4) {
        Err(WavError::UnexpectedEof)
    } else {
        let next = at + 8 + u32_le(s, at + 4);
        if next >= s.len() {
            Err(WavError::DataChunkNotFound)
        } else {
            data_offset(s, next)
        }
    }
}

/// Moves the cursor over the chunk list until it stands just past a tag
/// `data`, at the size field of the data chunk. A chunk with any other tag is
/// skipped by the size it declares. Fails with `DataChunkNotFound` once the
/// cursor has reached the end of the buffer.
pub fn find_data_offset(buf: &[u8], offset: &mut usize) -> (r: Result<(), WavError>)
    ensures
        match data_offset(buf@, *old(offset) as int) {
            Ok(end) => r.is_ok() && *final(offset) == end,
            Err(e) => r == Err::<(), WavError>(e) && *final(offset) == *old(offset),
        },
{
    proof {
        lemma_tag_bytes();
    }
    let mut pos: usize = *offset;
    loop
        invariant
            *offset == *old(offset),
            data_offset(buf@, pos as int) == data_offset(buf@, *old(offset) as int),
            tag_bytes("data").len() == 4,
        decreases buf.len() - pos,
    {
        if pos >= buf.len() {
            return Err(WavError::DataChunkNotFound);
        }
        if compare_str_bytes(buf, &mut pos, "data")? {
            *offset = pos;
            return Ok(());
        }
        if pos >= buf.len() {
            return Err(WavError::DataChunkNotFound);
        }
        let size: usize = parse_u32(buf, &mut pos)? as usize;
        if size >= buf.len() - pos {
            return Err(WavError::DataChunkNotFound);
        }
        pos += size;
    }
}

/// The offset that bounds the samples, for a data chunk whose samples start
/// at `start` and whose size field holds `size`.
pub open spec fn data_end(rule: DataSizeRule, start: int, size: int) -> int {
    match rule {
        DataSizeRule::CursorBound => size,
        DataSizeRule::ByteCount => start + size,
    }
}

/// Number of frames read from `start`: frames are read as long as the cursor
/// is below `end`, so the last one may reach beyond it.
pub open spec fn frame_count(start: int, end: int, layout: ChannelLayout) -> int {
    if end <= start {
        0
    } else {
        (end - start + layout.frame_bytes() - 1) / layout.frame_bytes()
    }
}

/// The samples of the one channel of mono data that starts at `start`.
pub open spec fn mono_samples(s: Seq<u8>, start: int, frames: int) -> Seq<i16> {
    Seq::new(frames as nat, |k: int| i16_le(s, start + 2 * k))
}

/// The samples of one channel of stereo data that starts at `start`:
/// `side` is 0 for the left channel and 1 for the right one.
pub open spec fn stereo_samples(s: Seq<u8>, start: int, frames: int, side: int) -> Seq<i16> {
    Seq::new(frames as nat, |k: int| i16_le(s, start + 4 * k + 2 * side))
}

/// The channels that `frames` frames starting at `start` hold.
pub open spec fn frames_at(s: Seq<u8>, start: int, frames: int, layout: ChannelLayout) -> Seq<
    Seq<i16>,
> {
    match layout {
        ChannelLayout::Mono => seq![mono_samples(s, start, frames)],
        ChannelLayout::Stereo => seq![
            stereo_samples(s, start, frames, 0),
            stereo_samples(s, start, frames, 1),
        ],
    }
}

/// Where the cursor stands after the data chunk whose size field lies at
/// `at` has been read, provided that it could be read.
pub open spec fn data_chunk_end(s: Seq<u8>, at: int, num_channels: u16, rule: DataSizeRule) -> int {
    match ChannelLayout::of_count(num_channels as int) {
        Some(layout) => {
            let start = at + 4;
            let end = data_end(rule, start, u32_le(s, at) as int);
            start + layout.frame_bytes() * frame_count(start, end, layout)
        },
        None => at,
    }
}

/// What the data chunk whose size field lies at `at` amounts to: the samples
/// of each channel, or the first fault.
pub open spec fn data_chunk(s: Seq<u8>, at: int, num_channels: u16, rule: DataSizeRule) -> Result<
    Seq<Seq<i16>>,
    WavError,
> {
    if !has_bytes(s, at, 4) {
        Err(WavError::UnexpectedEof)
    } else {
        match ChannelLayout::of_count(num_channels as int) {
            None => Err(WavError::UnsupportedChannelCount),
            Some(layout) => {
                let start = at + 4;
                let end = data_end(rule, start, u32_le(s, at) as int);
                let frames = frame_count(start, end, layout);
                if start + layout.frame_bytes() * frames > s.len() {
                    Err(WavError::UnexpectedEof)
                } else {
                    Ok(frames_at(s, start, frames, layout))
                }
            },
        }
    }
}

/// Reads the size field of the data chunk and then whole frames up to the
/// bound that `rule` makes of it: one sample a frame for one channel, a left
/// and a right sample for two. Any other channel count is refused once the
/// size has been read.
pub fn parse_data_chunk(
    buf: &[u8],
    offset: &mut usize,
    format: FormatSpec,
    rule: DataSizeRule,
) -> (r: Result<Vec<Vec<i16>>, WavError>)
    ensures
        match data_chunk(buf@, *old(offset) as int, format.num_channels, rule) {
            Ok(channels) => {
                &&& r matches Ok(v)
                &&& channels_view(v@) == channels
                &&& *final(offset) == data_chunk_end(
                    buf@,
                    *old(offset) as int,
                    format.num_channels,
                    rule,
                )
            },
            Err(e) => {
                &&& r matches Err(f)
                &&& f == e
                &&& *final(offset) == *old(offset)
            },
        },
{
    let mut pos: usize = *offset;
    let size: usize = parse_u32(buf, &mut pos)? as usize;
    let layout = ChannelLayout::from_count(format.num_channels as usize)?;
    let start: usize = pos;
    let end: usize = match rule {
        DataSizeRule::CursorBound => size,
        DataSizeRule::ByteCount => {
            if size > buf.len() - start {
                assert(start + layout.frame_bytes() * frame_count(
                    start as int,
                    start + size,
                    layout,
                ) > buf.len());
                return Err(WavError::UnexpectedEof);
            }
            start + size
        },
    };
    let ghost frames = frame_count(start as int, end as int, layout);
    assert(end == data_end(rule, start as int, u32_le(buf@, *old(offset) as int) as int));
    let mut channels: Vec<Vec<i16>> = Vec::new();
    match layout {
        ChannelLayout::Mono => {
            let mut samples: Vec<i16> = Vec::new();
            while pos < end
                invariant
                    layout == ChannelLayout::Mono,
                    frames == frame_count(start as int, end as int, layout),
                    *offset == *old(offset),
                    data_chunk(buf@, *old(offset) as int, format.num_channels, rule) == if start
                        + 2 * frames > buf.len() {
                        Err::<Seq<Seq<i16>>, WavError>(WavError::UnexpectedEof)
                    } else {
                        Ok(frames_at(buf@, start as int, frames, layout))
                    },
                    pos == start + 2 * samples.len(),
                    pos <= buf.len(),
                    samples.len() <= frames,
                    samples@ == mono_samples(buf@, start as int, samples.len() as int),
                decreases buf.len() - pos,
            {
                let sample: i16 = parse_i16(buf, &mut pos)?;
                samples.push(sample);
            }
            channels.push(samples);
        },
        ChannelLayout::Stereo => {
            let mut samples_l: Vec<i16> = Vec::new();
            let mut samples_r: Vec<i16> = Vec::new();
            while pos < end
                invariant
                    layout == ChannelLayout::Stereo,
                    frames == frame_count(start as int, end as int, layout),
                    *offset == *old(offset),
                    data_chunk(buf@, *old(offset) as int, format.num_channels, rule) == if start
                        + 4 * frames > buf.len() {
                        Err::<Seq<Seq<i16>>, WavError>(WavError::UnexpectedEof)
                    } else {
                        Ok(frames_at(buf@, start as int, frames, layout))
                    },
                    samples_l.len() == samples_r.len(),
                    pos == start + 4 * samples_l.len(),
                    pos <= buf.len(),
                    samples_l.len() <= frames,
                    samples_l@ == stereo_samples(buf@, start as int, samples_l.len() as int, 0),
                    samples_r@ == stereo_samples(buf@, start as int, samples_r.len() as int, 1),
                decreases buf.len() - pos,
            {
                let left: i16 = parse_i16(buf, &mut pos)?;
                let right: i16 = parse_i16(buf, &mut pos)?;
                samples_l.push(left);
                samples_r.push(right);
            }
            channels.push(samples_l);
            channels.push(samples_r);
        },
    }
    assert(channels_view(channels@) == frames_at(buf@, start as int, frames, layout));
    *offset = pos;
    Ok(channels)
}

/// What a buffer decodes to: the audio it holds, or the first fault that the
/// reader meets on its way through RIFF header, format chunk, chunk list and
/// data chunk.
pub open spec fn decoded(s: Seq<u8>, rule: DataSizeRule) -> Result<WavDataView, WavError> {
    match riff_chunk(s, 0) {
        Err(e) => Err(e),
        Ok(_) => match fmt_chunk(s, 12) {
            Err(e) => Err(e),
            Ok(format) => match data_offset(s, 36) {
                Err(e) => Err(e),
                Ok(at) => match data_chunk(s, at, format.num_channels, rule) {
                    Err(e) => Err(e),
                    Ok(channels) => Ok(
                        WavDataView {
                            num_channels: format.num_channels,
                            samplerate: format.samplerate,
                            audiodata: channels,
                        },
                    ),
                },
            },
        },
    }
}

/// Parses a WAV file from a byte buffer, reading the size field of the data
/// chunk by `rule`.
pub fn parse_bytes_with(buf: &[u8], rule: DataSizeRule) -> (r: Result<WavData, WavError>)
    ensures
        match decoded(buf@, rule) {
            Ok(wav) => r matches Ok(w) && w@ == wav,
            Err(e) => r matches Err(f) && f == e,
        },
        r matches Ok(w) ==> w@.well_formed(),
{
    let mut offset: usize = 0;
    parse_riff_chunk(buf, &mut offset)?;
    let format = parse_fmt_chunk(buf, &mut offset)?;
    find_data_offset(buf, &mut offset)?;
    let data = parse_data_chunk(buf, &mut offset, format, rule)?;
    Ok(WavData { num_channels: format.num_channels, samplerate: format.samplerate, audiodata: data })
}

/// Parses a WAV file from a byte buffer. The size field of the data chunk is
/// read as the buffer offset at which the samples end
/// (`DataSizeRule::CursorBound`).
pub fn parse_bytes(buf: &[u8]) -> (r: Result<WavData, WavError>)
    ensures
        match decoded(buf@, DataSizeRule::CursorBound) {
            Ok(wav) => r matches Ok(w) && w@ == wav,
            Err(e) => r matches Err(f) && f == e,
        },
        r matches Ok(w) ==> w@.well_formed(),
{
    parse_bytes_with(buf, DataSizeRule::CursorBound)
}

} // verus!
