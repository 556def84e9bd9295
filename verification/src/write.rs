//! The encoder: from the samples of each channel and a sample rate to the
//! bytes of a WAV file.
//!
//! A file is the RIFF header, the format chunk and the data chunk, in that
//! order and with nothing between them. One channel is written sample by
//! sample; two channels are written frame by frame, the left sample before
//! the right one.
//!
//! The 32-bit fields bound what can be written: the chunk size of the RIFF
//! header, which is the data size and 36, and the byte rate. [`sizes_fit`]
//! tells whether audio is within them.

use vstd::prelude::*;
use vstd::string::*;
use crate::endian::{i16_bytes, u16_bytes, u32_bytes, write_i16, write_u16, write_u32};
use crate::error::WavError;
use crate::format::{
    tag_bytes,
    ChannelLayout,
    BITS_PER_SAMPLE,
    FMT_CHUNK_SIZE,
    HEADER_AFTER_RIFF_SIZE,
    PCM_FORMAT,
};
use crate::read::channels_view;

verus! {

/// The bytes of the RIFF header of a file with `data_size` bytes of samples.
pub open spec fn riff_chunk_bytes(data_size: u32) -> Seq<u8> {
    tag_bytes("RIFF") + u32_bytes((HEADER_AFTER_RIFF_SIZE + data_size) as u32) + tag_bytes("WAVE")
}

/// The byte rate of 16-bit audio: bytes of samples for one second.
pub open spec fn byte_rate(num_channels: u16, samplerate: u32) -> int {
    samplerate * num_channels * BITS_PER_SAMPLE / 8
}

/// The block alignment of 16-bit audio: bytes of one frame.
pub open spec fn block_align(num_channels: u16) -> int {
    num_channels * BITS_PER_SAMPLE / 8
}

/// The bytes of the format chunk of 16-bit PCM audio.
pub open spec fn fmt_chunk_bytes(num_channels: u16, samplerate: u32) -> Seq<u8> {
    tag_bytes("fmt ") + u32_bytes(FMT_CHUNK_SIZE) + u16_bytes(PCM_FORMAT) + u16_bytes(num_channels)
        + u32_bytes(samplerate) + u32_bytes(byte_rate(num_channels, samplerate) as u32)
        + u16_bytes(block_align(num_channels) as u16) + u16_bytes(BITS_PER_SAMPLE)
}

/// The bytes of the first `frames` samples of one channel.
pub open spec fn mono_bytes(channel: Seq<i16>, frames: int) -> Seq<u8> {
    Seq::new((2 * frames) as nat, |j: int| i16_bytes(channel[j / 2])[j % 2])
}

/// The bytes of the first `frames` frames of two channels: in each frame the
/// left sample comes first.
pub open spec fn stereo_bytes(left: Seq<i16>, right: Seq<i16>, frames: int) -> Seq<u8> {
    Seq::new(
        (4 * frames) as nat,
        |j: int|
            if j % 4 < 2 {
                i16_bytes(left[j / 4])[j % 2]
            } else {
                i16_bytes(right[j / 4])[j % 2]
            },
    )
}

/// Number of frames that are written: all of one channel; of two channels as
/// many as the shorter one has.
pub open spec fn frames_written(channels: Seq<Seq<i16>>) -> int {
    match ChannelLayout::of_count(channels.len() as int) {
        Some(ChannelLayout::Mono) => channels[0].len() as int,
        Some(ChannelLayout::Stereo) => if channels[0].len() <= channels[1].len() {
            channels[0].len() as int
        } else {
            channels[1].len() as int
        },
        None => 0,
    }
}

/// The sample bytes of one or two channels, frame by frame.
pub open spec fn payload(channels: Seq<Seq<i16>>) -> Seq<u8> {
    match ChannelLayout::of_count(channels.len() as int) {
        Some(ChannelLayout::Mono) => mono_bytes(channels[0], frames_written(channels)),
        Some(ChannelLayout::Stereo) => stereo_bytes(
            channels[0],
            channels[1],
            frames_written(channels),
        ),
        None => Seq::empty(),
    }
}

/// The bytes of a data chunk that declares `data_size` bytes of samples.
pub open spec fn data_chunk_bytes(channels: Seq<Seq<i16>>, data_size: u32) -> Seq<u8> {
    tag_bytes("data") + u32_bytes(data_size) + payload(channels)
}

/// The size that the data chunk declares: two bytes for each sample of a
/// frame, and as many frames as the first channel has samples.
pub open spec fn declared_data_size(channels: Seq<Seq<i16>>) -> int {
    channels[0].len() * channels.len() * BITS_PER_SAMPLE / 8
}

/// The fields of the file that depend on the audio fit their width: the
/// chunk size of the RIFF header and the byte rate are 32-bit.
pub open spec fn encodable(channels: Seq<Seq<i16>>, samplerate: u32) -> bool {
    &&& HEADER_AFTER_RIFF_SIZE + declared_data_size(channels) <= u32::MAX
    &&& byte_rate(channels.len() as u16, samplerate) <= u32::MAX
}

/// The bytes of the file that holds `channels` at `samplerate`.
pub open spec fn encoded(channels: Seq<Seq<i16>>, samplerate: u32) -> Seq<u8> {
    riff_chunk_bytes(declared_data_size(channels) as u32) + fmt_chunk_bytes(
        channels.len() as u16,
        samplerate,
    ) + data_chunk_bytes(channels, declared_data_size(channels) as u32)
}

/// The sizes of 16-bit audio for each of the two layouts: two bytes a frame
/// for one channel, four for two.
pub proof fn lemma_sizes(channels: Seq<Seq<i16>>, samplerate: u32)
    requires
        1 <= channels.len() <= 2,
    ensures
        channels.len() == 1 ==> {
            &&& declared_data_size(channels) == 2 * channels[0].len()
            &&& payload(channels).len() == 2 * frames_written(channels)
            &&& byte_rate(1, samplerate) == 2 * samplerate
            &&& block_align(1) == 2
        },
        channels.len() == 2 ==> {
            &&& declared_data_size(channels) == 4 * channels[0].len()
            &&& payload(channels).len() == 4 * frames_written(channels)
            &&& byte_rate(2, samplerate) == 4 * samplerate
            &&& block_align(2) == 4
        },
        0 <= frames_written(channels) <= channels[0].len(),
{
    let n = channels[0].len();
    if channels.len() == 1 {
        assert(n * channels.len() * BITS_PER_SAMPLE == 16 * n) by (nonlinear_arith)
            requires
                channels.len() == 1,
                BITS_PER_SAMPLE == 16,
        ;
        assert(samplerate * 1u16 * BITS_PER_SAMPLE == 16 * samplerate) by (nonlinear_arith)
            requires
                BITS_PER_SAMPLE == 16,
        ;
    } else {
        assert(n * channels.len() * BITS_PER_SAMPLE == 32 * n) by (nonlinear_arith)
            requires
                channels.len() == 2,
                BITS_PER_SAMPLE == 16,
        ;
        assert(samplerate * 2u16 * BITS_PER_SAMPLE == 32 * samplerate) by (nonlinear_arith)
            requires
                BITS_PER_SAMPLE == 16,
        ;
    }
}

/// Tells whether `create_bytes` may be called on this audio: with one or two
/// channels, whether the chunk size of the RIFF header and the byte rate fit
/// their 32 bits. Any other number of channels needs no room, since it is
/// refused.
pub fn sizes_fit(audiodata: &[Vec<i16>], samplerate: u32) -> (ok: bool)
    ensures
        ok == (1 <= audiodata@.len() <= 2 ==> encodable(channels_view(audiodata@), samplerate)),
{
    let frame_bytes: u64 = match ChannelLayout::from_count(audiodata.len()) {
        Ok(ChannelLayout::Mono) => 2,
        Ok(ChannelLayout::Stereo) => 4,
        Err(_) => {
            return true;
        },
    };
    proof {
        lemma_sizes(channels_view(audiodata@), samplerate);
    }
    let room: u64 = (u32::MAX - HEADER_AFTER_RIFF_SIZE) as u64 / frame_bytes;
    audiodata[0].len() as u64 <= room && samplerate as u64 * frame_bytes <= u32::MAX as u64
}

/// Creates the bytes of a WAV file from audio data: one vector of samples
/// for each channel, one or two channels.
///
/// The data chunk declares the size that the first channel calls for. Of
/// two channels of unequal length only as many frames are written as the
/// shorter one has.
pub fn create_bytes(audiodata: &[Vec<i16>], samplerate: u32) -> (r: Result<Vec<u8>, WavError>)
    requires
        1 <= audiodata@.len() <= 2 ==> encodable(channels_view(audiodata@), samplerate),
    ensures
        match r {
            Ok(bytes) => {
                &&& 1 <= audiodata@.len() <= 2
                &&& bytes@ == encoded(channels_view(audiodata@), samplerate)
            },
            Err(e) => {
                &&& !(1 <= audiodata@.len() <= 2)
                &&& e == WavError::UnsupportedChannelCount
            },
        },
{
    let layout = ChannelLayout::from_count(audiodata.len())?;
    let num_channels: u16 = layout.count();
    let ghost channels = channels_view(audiodata@);
    assert(channels[0].len() * channels.len() * BITS_PER_SAMPLE == channels[0].len() * (
    num_channels * BITS_PER_SAMPLE)) by (nonlinear_arith)
        requires
            channels.len() == num_channels,
    ;
    let audiodata_size: u32 = (audiodata[0].len() as u64 * (num_channels as u64
        * BITS_PER_SAMPLE as u64) / 8) as u32;

    let mut buf: Vec<u8> = Vec::new();
    write_riff_chunk(&mut buf, audiodata_size);
    write_fmt_chunk(&mut buf, num_channels, samplerate);
    write_data_chunk(&mut buf, audiodata, audiodata_size);
    Ok(buf)
}

/// Appends the RIFF header: the tag `RIFF`, the size of all that follows the
/// size field, and the tag `WAVE`.
pub fn write_riff_chunk(buf: &mut Vec<u8>, audiodata_size: u32)
    requires
        HEADER_AFTER_RIFF_SIZE + audiodata_size <= u32::MAX,
    ensures
        final(buf)@ == old(buf)@ + riff_chunk_bytes(audiodata_size),
{
    buf.extend_from_slice("RIFF".as_bytes());
    let chunksize: u32 = HEADER_AFTER_RIFF_SIZE + audiodata_size;
    write_u32(buf, chunksize);
    buf.extend_from_slice("WAVE".as_bytes());
}

/// Appends the format chunk of 16-bit PCM audio.
pub fn write_fmt_chunk(buf: &mut Vec<u8>, num_channels: u16, samplerate: u32)
    requires
        byte_rate(num_channels, samplerate) <= u32::MAX,
        block_align(num_channels) <= u16::MAX,
    ensures
        final(buf)@ == old(buf)@ + fmt_chunk_bytes(num_channels, samplerate),
{
    let frame_bits: u64 = num_channels as u64 * BITS_PER_SAMPLE as u64;
    assert(samplerate * frame_bits <= 0xffff_ffff * 0xffff_ffff) by (nonlinear_arith)
        requires
            samplerate <= 0xffff_ffff,
            frame_bits <= 0xffff_ffff,
    ;
    assert(samplerate * num_channels * BITS_PER_SAMPLE == samplerate * (num_channels
        * BITS_PER_SAMPLE)) by (nonlinear_arith);
    let byterate: u32 = (samplerate as u64 * frame_bits / 8) as u32;
    let block_align: u16 = (frame_bits / 8) as u16;

    buf.extend_from_slice("fmt ".as_bytes());
    write_u32(buf, FMT_CHUNK_SIZE);
    write_u16(buf, PCM_FORMAT);
    write_u16(buf, num_channels);
    write_u32(buf, samplerate);
    write_u32(buf, byterate);
    write_u16(buf, block_align);
    write_u16(buf, BITS_PER_SAMPLE);
}

/// Appends the data chunk: the tag `data`, the size given, and the samples
/// frame by frame.
pub fn write_data_chunk(buf: &mut Vec<u8>, audiodata: &[Vec<i16>], audiodata_size: u32)
    requires
        1 <= audiodata@.len() <= 2,
    ensures
        final(buf)@ == old(buf)@ + data_chunk_bytes(channels_view(audiodata@), audiodata_size),
{
    buf.extend_from_slice("data".as_bytes());
    write_u32(buf, audiodata_size);
    let ghost head = buf@;
    let ghost channels = channels_view(audiodata@);
    if audiodata.len() == 1 {
        let channel: &Vec<i16> = &audiodata[0];
        let mut i: usize = 0;
        while i < channel.len()
            invariant
                i <= channel.len(),
                buf@ == head + mono_bytes(channel@, i as int),
            decreases channel.len() - i,
        {
            write_i16(buf, channel[i]);
            i += 1;
            assert(buf@ =~= head + mono_bytes(channel@, i as int));
        }
        assert(channel@ == channels[0]);
    } else {
        let left: &Vec<i16> = &audiodata[0];
        let right: &Vec<i16> = &audiodata[1];
        let frames: usize = if left.len() <= right.len() {
            left.len()
        } else {
            right.len()
        };
        let mut i: usize = 0;
        while i < frames
            invariant
                i <= frames,
                frames <= left.len(),
                frames <= right.len(),
                buf@ == head + stereo_bytes(left@, right@, i as int),
            decreases frames - i,
        {
            write_i16(buf, left[i]);
            write_i16(buf, right[i]);
            i += 1;
            assert(buf@ =~= head + stereo_bytes(left@, right@, i as int));
        }
        assert(left@ == channels[0]);
        assert(right@ == channels[1]);
    }
}

} // verus!
