//! What holds of reader and writer together, and of the reader on every
//! buffer.
//!
//! - Reading back what was written: [`lemma_round_trip`] for the size field
//!   taken as a byte count, [`lemma_round_trip_cursor_bound`] for the size
//!   field taken as a cursor bound.
//! - What the reader refuses: [`lemma_tag_rejection`],
//!   [`lemma_format_validation`], [`lemma_channel_bound`].
//! - What the reader gives: [`lemma_decoded_well_formed`].
//! - Chunks that the reader passes over: [`lemma_unknown_chunk_is_skipped`].

use vstd::prelude::*;
use vstd::string::*;
use crate::endian::{
    has_bytes,
    i16_bytes,
    i16_le,
    lemma_i16_le_of_bytes,
    lemma_u16_le_of_bytes,
    lemma_u32_le_of_bytes,
    u16_bytes,
    u16_le,
    u32_bytes,
    u32_le,
};
use crate::error::WavError;
use crate::format::{
    lemma_tag_bytes,
    tag_at,
    tag_bytes,
    ChannelLayout,
    BITS_PER_SAMPLE,
    FMT_CHUNK_SIZE,
    PCM_FORMAT,
};
use crate::read::{
    data_chunk,
    data_offset,
    decoded,
    fmt_chunk,
    frame_count,
    frames_at,
    mono_samples,
    riff_chunk,
    stereo_samples,
    well_formed,
    DataSizeRule,
    FormatSpec,
    WavDataView,
};
use crate::write::{
    block_align,
    byte_rate,
    data_chunk_bytes,
    declared_data_size,
    encodable,
    encoded,
    fmt_chunk_bytes,
    frames_written,
    lemma_sizes,
    payload,
    riff_chunk_bytes,
};

verus! {

/// A stretch of a buffer, read where it lies, is read as it would be alone.
proof fn lemma_stretch(s: Seq<u8>, at: int, part: Seq<u8>, from: int, to: int)
    requires
        has_bytes(s, at, part.len() as int),
        s.subrange(at, at + part.len()) == part,
        0 <= from <= to <= part.len(),
    ensures
        s.subrange(at + from, at + to) == part.subrange(from, to),
{
    let whole = s.subrange(at, at + part.len());
    assert forall|j: int| 0 <= j < to - from implies s.subrange(at + from, at + to)[j]
        == part.subrange(from, to)[j] by {
        assert(s[at + from + j] == whole[from + j]);
    }
    assert(s.subrange(at + from, at + to) =~= part.subrange(from, to));
}

/// The RIFF header that the writer makes is accepted by the reader.
pub proof fn lemma_riff_chunk_reads_back(s: Seq<u8>, at: int, data_size: u32)
    requires
        has_bytes(s, at, 12),
        s.subrange(at, at + 12) == riff_chunk_bytes(data_size),
    ensures
        riff_chunk(s, at) == Ok::<(), WavError>(()),
{
    lemma_tag_bytes();
    let part = riff_chunk_bytes(data_size);
    assert(part.len() == 12);
    lemma_stretch(s, at, part, 0, 4);
    lemma_stretch(s, at, part, 8, 12);
    assert(part.subrange(0, 4) =~= tag_bytes("RIFF"));
    assert(part.subrange(8, 12) =~= tag_bytes("WAVE"));
}

/// The fields of a format chunk that the writer makes, each where it lies.
proof fn lemma_fmt_chunk_layout(num_channels: u16, samplerate: u32)
    ensures
        fmt_chunk_bytes(num_channels, samplerate).len() == 24,
        fmt_chunk_bytes(num_channels, samplerate).subrange(0, 4) == tag_bytes("fmt "),
        fmt_chunk_bytes(num_channels, samplerate).subrange(4, 8) == u32_bytes(FMT_CHUNK_SIZE),
        fmt_chunk_bytes(num_channels, samplerate).subrange(8, 10) == u16_bytes(PCM_FORMAT),
        fmt_chunk_bytes(num_channels, samplerate).subrange(10, 12) == u16_bytes(num_channels),
        fmt_chunk_bytes(num_channels, samplerate).subrange(12, 16) == u32_bytes(samplerate),
        fmt_chunk_bytes(num_channels, samplerate).subrange(16, 20) == u32_bytes(
            byte_rate(num_channels, samplerate) as u32,
        ),
        fmt_chunk_bytes(num_channels, samplerate).subrange(20, 22) == u16_bytes(
            block_align(num_channels) as u16,
        ),
        fmt_chunk_bytes(num_channels, samplerate).subrange(22, 24) == u16_bytes(BITS_PER_SAMPLE),
{
    lemma_tag_bytes();
    let part = fmt_chunk_bytes(num_channels, samplerate);
    assert(part.len() == 24);
    assert(part.subrange(0, 4) =~= tag_bytes("fmt "));
    assert(part.subrange(4, 8) =~= u32_bytes(FMT_CHUNK_SIZE));
    assert(part.subrange(8, 10) =~= u16_bytes(PCM_FORMAT));
    assert(part.subrange(10, 12) =~= u16_bytes(num_channels));
    assert(part.subrange(12, 16) =~= u32_bytes(samplerate));
    assert(part.subrange(16, 20) =~= u32_bytes(byte_rate(num_channels, samplerate) as u32));
    assert(part.subrange(20, 22) =~= u16_bytes(block_align(num_channels) as u16));
    assert(part.subrange(22, 24) =~= u16_bytes(BITS_PER_SAMPLE));
}

/// The format chunk that the writer makes is accepted by the reader, with
/// the channel count and the sample rate that were written.
pub proof fn lemma_fmt_chunk_reads_back(s: Seq<u8>, at: int, num_channels: u16, samplerate: u32)
    requires
        has_bytes(s, at, 24),
        s.subrange(at, at + 24) == fmt_chunk_bytes(num_channels, samplerate),
        byte_rate(num_channels, samplerate) <= u32::MAX,
        block_align(num_channels) <= u16::MAX,
    ensures
        fmt_chunk(s, at) == Ok::<FormatSpec, WavError>(FormatSpec { num_channels, samplerate }),
{
    lemma_tag_bytes();
    lemma_fmt_chunk_layout(num_channels, samplerate);
    let part = fmt_chunk_bytes(num_channels, samplerate);
    lemma_stretch(s, at, part, 0, 4);
    lemma_stretch(s, at, part, 4, 8);
    lemma_stretch(s, at, part, 8, 10);
    lemma_stretch(s, at, part, 10, 12);
    lemma_stretch(s, at, part, 12, 16);
    lemma_stretch(s, at, part, 16, 20);
    lemma_stretch(s, at, part, 20, 22);
    lemma_stretch(s, at, part, 22, 24);
    lemma_u32_le_of_bytes(s, at + 4, FMT_CHUNK_SIZE);
    lemma_u16_le_of_bytes(s, at + 8, PCM_FORMAT);
    lemma_u16_le_of_bytes(s, at + 10, num_channels);
    lemma_u32_le_of_bytes(s, at + 12, samplerate);
    lemma_u32_le_of_bytes(s, at + 16, byte_rate(num_channels, samplerate) as u32);
    lemma_u16_le_of_bytes(s, at + 20, block_align(num_channels) as u16);
    lemma_u16_le_of_bytes(s, at + 22, BITS_PER_SAMPLE);
}

/// Three stretches laid end to end, each found again where it lies.
proof fn lemma_concat3(a: Seq<u8>, b: Seq<u8>, c: Seq<u8>)
    ensures
        (a + b + c).len() == a.len() + b.len() + c.len(),
        (a + b + c).subrange(0, a.len() as int) == a,
        (a + b + c).subrange(a.len() as int, (a.len() + b.len()) as int) == b,
        (a + b + c).subrange((a.len() + b.len()) as int, (a.len() + b.len() + c.len()) as int)
            == c,
{
    let s = a + b + c;
    assert(s.subrange(0, a.len() as int) =~= a);
    assert(s.subrange(a.len() as int, (a.len() + b.len()) as int) =~= b);
    assert(s.subrange((a.len() + b.len()) as int, (a.len() + b.len() + c.len()) as int) =~= c);
}

/// An encoded file is 44 bytes of header and then the samples: the RIFF
/// header at offset 0, the format chunk at 12, the data chunk at 36. Of
/// well-formed audio the samples take as many bytes as the data chunk
/// declares.
pub proof fn lemma_encoded_layout(channels: Seq<Seq<i16>>, samplerate: u32)
    requires
        1 <= channels.len() <= 2,
    ensures
        encoded(channels, samplerate).len() == 44 + payload(channels).len(),
        well_formed(channels) ==> payload(channels).len() == declared_data_size(channels),
        encoded(channels, samplerate).subrange(0, 12) == riff_chunk_bytes(
            declared_data_size(channels) as u32,
        ),
        encoded(channels, samplerate).subrange(12, 36) == fmt_chunk_bytes(
            channels.len() as u16,
            samplerate,
        ),
        encoded(channels, samplerate).subrange(36, 44 + payload(channels).len() as int)
            == data_chunk_bytes(channels, declared_data_size(channels) as u32),
{
    lemma_tag_bytes();
    let size = declared_data_size(channels) as u32;
    let riff = riff_chunk_bytes(size);
    let fmt = fmt_chunk_bytes(channels.len() as u16, samplerate);
    let data = data_chunk_bytes(channels, size);
    assert(riff.len() == 12);
    assert(fmt.len() == 24);
    assert(data.len() == 8 + payload(channels).len());
    lemma_concat3(riff, fmt, data);
    lemma_sizes(channels, samplerate);
}

/// The data chunk that the writer makes leads the chunk scan to its size
/// field, which reads as the size that was written, and its samples lie
/// behind that.
proof fn lemma_data_chunk_layout(s: Seq<u8>, at: int, channels: Seq<Seq<i16>>, data_size: u32)
    requires
        has_bytes(s, at, 8 + payload(channels).len() as int),
        s.subrange(at, at + 8 + payload(channels).len()) == data_chunk_bytes(channels, data_size),
    ensures
        data_offset(s, at) == Ok::<int, WavError>(at + 4),
        u32_le(s, at + 4) == data_size,
        s.subrange(at + 8, at + 8 + payload(channels).len()) == payload(channels),
{
    lemma_tag_bytes();
    let p = payload(channels);
    let part = data_chunk_bytes(channels, data_size);
    lemma_concat3(tag_bytes("data"), u32_bytes(data_size), p);
    lemma_stretch(s, at, part, 0, 4);
    lemma_stretch(s, at, part, 4, 8);
    lemma_stretch(s, at, part, 8, 8 + p.len() as int);
    lemma_u32_le_of_bytes(s, at + 4, data_size);
}

/// The channels cut to their first `frames` samples.
pub open spec fn leading_frames(channels: Seq<Seq<i16>>, frames: int) -> Seq<Seq<i16>> {
    Seq::new(channels.len(), |c: int| channels[c].take(frames))
}

/// Samples that the writer laid down at `start`, read back frame by frame,
/// are the samples of the channels.
proof fn lemma_frames_read_back(s: Seq<u8>, start: int, channels: Seq<Seq<i16>>, frames: int)
    requires
        1 <= channels.len() <= 2,
        0 <= frames <= frames_written(channels),
        has_bytes(s, start, payload(channels).len() as int),
        s.subrange(start, start + payload(channels).len()) == payload(channels),
    ensures
        ChannelLayout::of_count(channels.len() as int) matches Some(layout) && frames_at(
            s,
            start,
            frames,
            layout,
        ) == leading_frames(channels, frames),
{
    lemma_sizes(channels, 0);
    let p = payload(channels);
    let whole = s.subrange(start, start + p.len());
    let cut = leading_frames(channels, frames);
    if channels.len() == 1 {
        let got = mono_samples(s, start, frames);
        assert forall|k: int| 0 <= k < frames implies got[k] == channels[0][k] by {
            assert(s[start + 2 * k] == whole[2 * k]);
            assert(s[start + 2 * k + 1] == whole[2 * k + 1]);
            assert(s.subrange(start + 2 * k, start + 2 * k + 2) =~= i16_bytes(channels[0][k]));
            lemma_i16_le_of_bytes(s, start + 2 * k, channels[0][k]);
        }
        assert(got =~= cut[0]);
        assert(frames_at(s, start, frames, ChannelLayout::Mono) =~= cut);
    } else {
        let left = stereo_samples(s, start, frames, 0);
        let right = stereo_samples(s, start, frames, 1);
        assert forall|k: int| 0 <= k < frames implies left[k] == channels[0][k] && right[k]
            == channels[1][k] by {
            assert(s[start + 4 * k] == whole[4 * k]);
            assert(s[start + 4 * k + 1] == whole[4 * k + 1]);
            assert(s[start + 4 * k + 2] == whole[4 * k + 2]);
            assert(s[start + 4 * k + 3] == whole[4 * k + 3]);
            assert(s.subrange(start + 4 * k, start + 4 * k + 2) =~= i16_bytes(channels[0][k]));
            assert(s.subrange(start + 4 * k + 2, start + 4 * k + 4) =~= i16_bytes(
                channels[1][k],
            ));
            lemma_i16_le_of_bytes(s, start + 4 * k, channels[0][k]);
            lemma_i16_le_of_bytes(s, start + 4 * k + 2, channels[1][k]);
        }
        assert(left =~= cut[0]);
        assert(right =~= cut[1]);
        assert(frames_at(s, start, frames, ChannelLayout::Stereo) =~= cut);
    }
}

/// Cutting channels to their full length changes nothing.
proof fn lemma_leading_frames_all(channels: Seq<Seq<i16>>, frames: int)
    requires
        forall|c: int| 0 <= c < channels.len() ==> (#[trigger] channels[c]).len() == frames,
    ensures
        leading_frames(channels, frames) == channels,
{
    assert forall|c: int| 0 <= c < channels.len() implies leading_frames(channels, frames)[c]
        == channels[c] by {
        assert(channels[c].take(frames) =~= channels[c]);
    }
    assert(leading_frames(channels, frames) =~= channels);
}

/// The data chunk that the writer makes of well-formed audio is found by
/// the chunk scan and read, with the size field taken as a byte count, as
/// the samples that were written.
pub proof fn lemma_data_chunk_reads_back(s: Seq<u8>, at: int, channels: Seq<Seq<i16>>)
    requires
        well_formed(channels),
        declared_data_size(channels) <= u32::MAX,
        has_bytes(s, at, 8 + payload(channels).len() as int),
        s.subrange(at, at + 8 + payload(channels).len()) == data_chunk_bytes(
            channels,
            declared_data_size(channels) as u32,
        ),
    ensures
        data_offset(s, at) == Ok::<int, WavError>(at + 4),
        data_chunk(s, at + 4, channels.len() as u16, DataSizeRule::ByteCount) == Ok::<
            Seq<Seq<i16>>,
            WavError,
        >(channels),
{
    let frames = channels[0].len() as int;
    lemma_sizes(channels, 0);
    lemma_data_chunk_layout(s, at, channels, declared_data_size(channels) as u32);
    lemma_frames_read_back(s, at + 8, channels, frames);
    lemma_leading_frames_all(channels, frames);
    let layout = ChannelLayout::of_count(channels.len() as int).unwrap();
    assert(frame_count(at + 8, at + 8 + declared_data_size(channels), layout) == frames);
}

/// Audio of one channel, or of two equally long channels, that is written
/// and then read with the size field taken as a byte count comes back as it
/// was: the same channel count, sample rate and samples.
pub proof fn lemma_round_trip(channels: Seq<Seq<i16>>, samplerate: u32)
    requires
        well_formed(channels),
        encodable(channels, samplerate),
    ensures
        decoded(encoded(channels, samplerate), DataSizeRule::ByteCount) == Ok::<
            WavDataView,
            WavError,
        >(WavDataView { num_channels: channels.len() as u16, samplerate, audiodata: channels }),
{
    let s = encoded(channels, samplerate);
    lemma_encoded_layout(channels, samplerate);
    lemma_sizes(channels, samplerate);
    lemma_riff_chunk_reads_back(s, 0, declared_data_size(channels) as u32);
    lemma_fmt_chunk_reads_back(s, 12, channels.len() as u16, samplerate);
    lemma_data_chunk_reads_back(s, 36, channels);
}

/// Number of frames that come back when a written file is read with the
/// size field taken as a cursor bound: the samples start at offset 44, so
/// the bound is reached 44 bytes early.
pub open spec fn frames_within_cursor_bound(channels: Seq<Seq<i16>>) -> int {
    let lost = if channels.len() == 1 {
        22int
    } else {
        11int
    };
    if channels[0].len() <= lost {
        0
    } else {
        channels[0].len() - lost
    }
}

/// All frames are within the cursor bound exactly where there are none.
proof fn lemma_frames_within_cursor_bound(channels: Seq<Seq<i16>>)
    requires
        well_formed(channels),
    ensures
        leading_frames(channels, frames_within_cursor_bound(channels)) == channels
            <==> channels[0].len() == 0,
{
    let frames = frames_within_cursor_bound(channels);
    if channels[0].len() == 0 {
        lemma_leading_frames_all(channels, 0);
    } else {
        assert(leading_frames(channels, frames)[0].len() != channels[0].len());
    }
}

/// The data chunk that the writer makes of well-formed audio, where it
/// lies in a written file, is read with the size field taken as a cursor
/// bound as the leading frames of what was written.
proof fn lemma_data_chunk_by_cursor_bound(s: Seq<u8>, channels: Seq<Seq<i16>>)
    requires
        well_formed(channels),
        declared_data_size(channels) <= u32::MAX,
        has_bytes(s, 36, 8 + payload(channels).len() as int),
        s.subrange(36, 44 + payload(channels).len() as int) == data_chunk_bytes(
            channels,
            declared_data_size(channels) as u32,
        ),
    ensures
        data_offset(s, 36) == Ok::<int, WavError>(40),
        data_chunk(s, 40, channels.len() as u16, DataSizeRule::CursorBound) == Ok::<
            Seq<Seq<i16>>,
            WavError,
        >(leading_frames(channels, frames_within_cursor_bound(channels))),
{
    let frames = frames_within_cursor_bound(channels);
    lemma_sizes(channels, 0);
    lemma_data_chunk_layout(s, 36, channels, declared_data_size(channels) as u32);
    lemma_frames_read_back(s, 44, channels, frames);
    let layout = ChannelLayout::of_count(channels.len() as int).unwrap();
    assert(frame_count(44, declared_data_size(channels), layout) == frames);
}

/// Audio of one channel, or of two equally long channels, that is written
/// and then read with the size field taken as a cursor bound comes back with
/// the same channel count and sample rate, and with the leading samples of
/// each channel: the last 22 samples of one channel, or the last 11 of each
/// of two, are not read. So the audio comes back as it was exactly where it
/// has no samples.
pub proof fn lemma_round_trip_cursor_bound(channels: Seq<Seq<i16>>, samplerate: u32)
    requires
        well_formed(channels),
        encodable(channels, samplerate),
    ensures
        decoded(encoded(channels, samplerate), DataSizeRule::CursorBound) == Ok::<
            WavDataView,
            WavError,
        >(
            WavDataView {
                num_channels: channels.len() as u16,
                samplerate,
                audiodata: leading_frames(channels, frames_within_cursor_bound(channels)),
            },
        ),
        decoded(encoded(channels, samplerate), DataSizeRule::CursorBound) == Ok::<
            WavDataView,
            WavError,
        >(WavDataView { num_channels: channels.len() as u16, samplerate, audiodata: channels })
            <==> channels[0].len() == 0,
{
    let s = encoded(channels, samplerate);
    lemma_encoded_layout(channels, samplerate);
    lemma_sizes(channels, samplerate);
    lemma_riff_chunk_reads_back(s, 0, declared_data_size(channels) as u32);
    lemma_fmt_chunk_reads_back(s, 12, channels.len() as u16, samplerate);
    lemma_data_chunk_by_cursor_bound(s, channels);
    lemma_frames_within_cursor_bound(channels);
}

/// A buffer that does not start with the tag `RIFF` is refused as `NotRiff`;
/// one that does, and holds another four bytes than `WAVE` at offset 8, is
/// refused as `NotWave`.
pub proof fn lemma_tag_rejection(s: Seq<u8>, rule: DataSizeRule)
    ensures
        has_bytes(s, 0, 4) && !tag_at(s, 0, "RIFF") ==> decoded(s, rule) == Err::<
            WavDataView,
            WavError,
        >(WavError::NotRiff),
        has_bytes(s, 0, 12) && tag_at(s, 0, "RIFF") && !tag_at(s, 8, "WAVE") ==> decoded(s, rule)
            == Err::<WavDataView, WavError>(WavError::NotWave),
{
}

/// The first 20 bytes of the buffer are a RIFF header and the start of a
/// format chunk of the size that is read.
pub open spec fn format_chunk_opens(s: Seq<u8>) -> bool {
    &&& riff_chunk(s, 0).is_ok()
    &&& has_bytes(s, 12, 8)
    &&& tag_at(s, 12, "fmt ")
    &&& u32_le(s, 16) == FMT_CHUNK_SIZE
}

/// Of a buffer with a RIFF header and a format chunk of the right tag and
/// size: an audio format tag other than 1 is refused as `NotPcm`; with the
/// tag 1, a byte rate or a block alignment that is not what sample rate,
/// channel count and sample width give is refused as
/// `InconsistentFormatChunk`.
pub proof fn lemma_format_validation(s: Seq<u8>, rule: DataSizeRule)
    requires
        format_chunk_opens(s),
    ensures
        has_bytes(s, 20, 2) && u16_le(s, 20) != PCM_FORMAT ==> decoded(s, rule) == Err::<
            WavDataView,
            WavError,
        >(WavError::NotPcm),
        has_bytes(s, 20, 16) && u16_le(s, 20) == PCM_FORMAT && u32_le(s, 28) != u32_le(s, 24)
            * u16_le(s, 22) * u16_le(s, 34) / 8 ==> decoded(s, rule) == Err::<
            WavDataView,
            WavError,
        >(WavError::InconsistentFormatChunk),
        has_bytes(s, 20, 16) && u16_le(s, 20) == PCM_FORMAT && u16_le(s, 32) != u16_le(s, 22)
            * u16_le(s, 34) / 8 ==> decoded(s, rule) == Err::<WavDataView, WavError>(
            WavError::InconsistentFormatChunk,
        ),
{
}

/// Where header and format chunk are accepted and the chunk list leads to a
/// data chunk with its size field, a channel count other than 1 and 2 is
/// refused as `UnsupportedChannelCount`.
pub proof fn lemma_channel_bound(s: Seq<u8>, rule: DataSizeRule)
    requires
        riff_chunk(s, 0).is_ok(),
        fmt_chunk(s, 12) matches Ok(format) && format.num_channels != 1 && format.num_channels
            != 2,
        data_offset(s, 36) matches Ok(at) && has_bytes(s, at, 4),
    ensures
        decoded(s, rule) == Err::<WavDataView, WavError>(WavError::UnsupportedChannelCount),
{
}

/// What is decoded has one or two channels, as many as its channel count
/// says, and its channels are equally long.
pub proof fn lemma_decoded_well_formed(s: Seq<u8>, rule: DataSizeRule)
    ensures
        decoded(s, rule) matches Ok(wav) ==> wav.well_formed(),
{
}

/// The bytes of `a` from `from_a` on are those of `b` from `from_b` on.
pub open spec fn same_tail(a: Seq<u8>, from_a: int, b: Seq<u8>, from_b: int) -> bool {
    &&& 0 <= from_a <= a.len()
    &&& 0 <= from_b <= b.len()
    &&& a.subrange(from_a, a.len() as int) == b.subrange(from_b, b.len() as int)
}

/// In two buffers with the same tail, a byte of the one is the byte of the
/// other that lies as far into the tail.
proof fn lemma_same_tail_byte(a: Seq<u8>, from_a: int, b: Seq<u8>, from_b: int, at: int)
    requires
        same_tail(a, from_a, b, from_b),
        from_a <= at < a.len(),
    ensures
        a.len() - from_a == b.len() - from_b,
        a[at] == b[at - from_a + from_b],
{
    let tail_a = a.subrange(from_a, a.len() as int);
    let tail_b = b.subrange(from_b, b.len() as int);
    assert(tail_a.len() == tail_b.len());
    assert(a[at] == tail_a[at - from_a]);
    assert(b[at - from_a + from_b] == tail_b[at - from_a]);
}

/// In two buffers with the same tail, fields that lie as far into the tail
/// read the same.
proof fn lemma_same_tail_fields(a: Seq<u8>, from_a: int, b: Seq<u8>, from_b: int, at: int)
    requires
        same_tail(a, from_a, b, from_b),
        from_a <= at,
    ensures
        a.len() - from_a == b.len() - from_b,
        has_bytes(a, at, 2) ==> u16_le(a, at) == u16_le(b, at - from_a + from_b),
        has_bytes(a, at, 2) ==> i16_le(a, at) == i16_le(b, at - from_a + from_b),
        has_bytes(a, at, 4) ==> u32_le(a, at) == u32_le(b, at - from_a + from_b),
        has_bytes(a, at, 4) ==> a.subrange(at, at + 4) == b.subrange(
            at - from_a + from_b,
            at - from_a + from_b + 4,
        ),
{
    assert(a.subrange(from_a, a.len() as int).len() == b.subrange(from_b, b.len() as int).len());
    if has_bytes(a, at, 2) {
        lemma_same_tail_byte(a, from_a, b, from_b, at);
        lemma_same_tail_byte(a, from_a, b, from_b, at + 1);
    }
    if has_bytes(a, at, 4) {
        lemma_same_tail_byte(a, from_a, b, from_b, at + 2);
        lemma_same_tail_byte(a, from_a, b, from_b, at + 3);
        assert(a.subrange(at, at + 4) =~= b.subrange(
            at - from_a + from_b,
            at - from_a + from_b + 4,
        ));
    }
}

/// In two buffers with the same tail, the chunk scan fares the same from
/// places that lie as far into the tail: it fails alike, or it ends as far
/// into the tail.
proof fn lemma_scan_same_tail(a: Seq<u8>, from_a: int, b: Seq<u8>, from_b: int, at: int)
    requires
        same_tail(a, from_a, b, from_b),
        from_a <= at,
    ensures
        match data_offset(a, at) {
            Ok(end) => from_a <= end && data_offset(b, at - from_a + from_b) == Ok::<
                int,
                WavError,
            >(end - from_a + from_b),
            Err(e) => data_offset(b, at - from_a + from_b) == Err::<int, WavError>(e),
        },
    decreases a.len() - at,
{
    lemma_tag_bytes();
    lemma_same_tail_fields(a, from_a, b, from_b, at);
    lemma_same_tail_fields(a, from_a, b, from_b, at + 4);
    if at < a.len() && has_bytes(a, at, 4) && !tag_at(a, at, "data") && has_bytes(a, at + 4, 4) {
        let next = at + 8 + u32_le(a, at + 4);
        if next < a.len() {
            lemma_scan_same_tail(a, from_a, b, from_b, next);
        }
    }
}

/// In two buffers with the same tail, data chunks that lie as far into the
/// tail hold the same samples, the size field taken as a byte count.
proof fn lemma_data_chunk_same_tail(
    a: Seq<u8>,
    from_a: int,
    b: Seq<u8>,
    from_b: int,
    at: int,
    num_channels: u16,
)
    requires
        same_tail(a, from_a, b, from_b),
        from_a <= at,
    ensures
        data_chunk(a, at, num_channels, DataSizeRule::ByteCount) == data_chunk(
            b,
            at - from_a + from_b,
            num_channels,
            DataSizeRule::ByteCount,
        ),
{
    let shift = from_b - from_a;
    lemma_same_tail_fields(a, from_a, b, from_b, at);
    if has_bytes(a, at, 4) {
        let start = at + 4;
        let size = u32_le(a, at) as int;
        match ChannelLayout::of_count(num_channels as int) {
            None => {},
            Some(layout) => {
                let frames = frame_count(start, start + size, layout);
                assert(frames == frame_count(start + shift, start + shift + size, layout));
                if start + layout.frame_bytes() * frames <= a.len() {
                    match layout {
                        ChannelLayout::Mono => {
                            let in_a = mono_samples(a, start, frames);
                            let in_b = mono_samples(b, start + shift, frames);
                            assert forall|k: int| 0 <= k < frames implies in_a[k] == in_b[k] by {
                                lemma_same_tail_fields(a, from_a, b, from_b, start + 2 * k);
                            }
                            assert(in_a =~= in_b);
                        },
                        ChannelLayout::Stereo => {
                            let left_a = stereo_samples(a, start, frames, 0);
                            let left_b = stereo_samples(b, start + shift, frames, 0);
                            let right_a = stereo_samples(a, start, frames, 1);
                            let right_b = stereo_samples(b, start + shift, frames, 1);
                            assert forall|k: int| 0 <= k < frames implies left_a[k] == left_b[k]
                                && right_a[k] == right_b[k] by {
                                lemma_same_tail_fields(a, from_a, b, from_b, start + 4 * k);
                                lemma_same_tail_fields(a, from_a, b, from_b, start + 4 * k + 2);
                            }
                            assert(left_a =~= left_b);
                            assert(right_a =~= right_b);
                        },
                    }
                }
            },
        }
    }
}

/// RIFF header and format chunk are read from the first 36 bytes alone.
proof fn lemma_header_same_head(a: Seq<u8>, b: Seq<u8>)
    requires
        a.len() >= 36,
        b.len() >= 36,
        a.subrange(0, 36) == b.subrange(0, 36),
    ensures
        riff_chunk(a, 0) == riff_chunk(b, 0),
        fmt_chunk(a, 12) == fmt_chunk(b, 12),
{
    lemma_tag_bytes();
    let head = a.subrange(0, 36);
    assert forall|i: int| 0 <= i < 36 implies a[i] == b[i] by {
        assert(a[i] == head[i]);
        assert(b[i] == b.subrange(0, 36)[i]);
    }
    assert(a.subrange(0, 4) =~= b.subrange(0, 4));
    assert(a.subrange(8, 12) =~= b.subrange(8, 12));
    assert(a.subrange(12, 16) =~= b.subrange(12, 16));
}

/// In two buffers with the same tail, of which the second has the tail
/// further in, a data chunk that can be read in the first with the size
/// field taken as a cursor bound can be read in the second where it lies as
/// far into the tail.
proof fn lemma_data_chunk_cursor_bound_later(
    a: Seq<u8>,
    from_a: int,
    b: Seq<u8>,
    from_b: int,
    at: int,
    num_channels: u16,
)
    requires
        same_tail(a, from_a, b, from_b),
        from_a <= at,
        from_a <= from_b,
        data_chunk(a, at, num_channels, DataSizeRule::CursorBound).is_ok(),
    ensures
        data_chunk(b, at - from_a + from_b, num_channels, DataSizeRule::CursorBound).is_ok(),
{
    let shift = from_b - from_a;
    lemma_same_tail_fields(a, from_a, b, from_b, at);
    let start = at + 4;
    let end = u32_le(a, at) as int;
    match ChannelLayout::of_count(num_channels as int) {
        None => {},
        Some(layout) => {
            assert(frame_count(start + shift, end, layout) <= frame_count(start, end, layout));
        },
    }
}

/// A buffer that holds, behind its first 36 bytes, a chunk of `size` bytes
/// with another tag than `data`, against the buffer without that chunk.
proof fn lemma_chunk_is_skipped(with: Seq<u8>, without: Seq<u8>, size: u32)
    requires
        without.len() >= 36,
        with.len() == without.len() + 8 + size,
        with.subrange(0, 36) == without.subrange(0, 36),
        !tag_at(with, 36, "data"),
        u32_le(with, 40) == size,
        same_tail(without, 36, with, 44 + size),
    ensures
        data_offset(with, 36) == data_offset(with, 44 + size),
        decoded(with, DataSizeRule::ByteCount) == decoded(without, DataSizeRule::ByteCount),
        decoded(without, DataSizeRule::CursorBound).is_ok() ==> decoded(
            with,
            DataSizeRule::CursorBound,
        ).is_ok(),
{
    lemma_tag_bytes();
    let next = 44 + size;
    lemma_header_same_head(with, without);
    assert(data_offset(with, 36) == data_offset(with, next));
    lemma_scan_same_tail(without, 36, with, next, 36);
    match (fmt_chunk(without, 12), data_offset(without, 36)) {
        (Ok(format), Ok(at)) => {
            lemma_data_chunk_same_tail(without, 36, with, next, at, format.num_channels);
            if data_chunk(without, at, format.num_channels, DataSizeRule::CursorBound).is_ok() {
                lemma_data_chunk_cursor_bound_later(
                    without,
                    36,
                    with,
                    next,
                    at,
                    format.num_channels,
                );
            }
        },
        _ => {},
    }
}

/// The bytes of a chunk with the given tag and body.
pub open spec fn chunk_bytes(tag: Seq<u8>, body: Seq<u8>) -> Seq<u8> {
    tag + u32_bytes(body.len() as u32) + body
}

/// Where the parts lie in a buffer that holds a chunk between its first 36
/// bytes and the rest.
proof fn lemma_chunk_between(head: Seq<u8>, tag: Seq<u8>, body: Seq<u8>, rest: Seq<u8>)
    requires
        head.len() == 36,
        tag.len() == 4,
        body.len() <= u32::MAX,
    ensures
        (head + chunk_bytes(tag, body) + rest).len() == (head + rest).len() + 8 + body.len(),
        (head + chunk_bytes(tag, body) + rest).subrange(0, 36) == (head + rest).subrange(0, 36),
        (head + chunk_bytes(tag, body) + rest).subrange(36, 40) == tag,
        u32_le(head + chunk_bytes(tag, body) + rest, 40) == body.len(),
        same_tail(
            head + rest,
            36,
            head + chunk_bytes(tag, body) + rest,
            44 + body.len() as int,
        ),
{
    let chunk = chunk_bytes(tag, body);
    let with = head + chunk + rest;
    let without = head + rest;
    let next = 44 + body.len() as int;
    lemma_concat3(head, chunk, rest);
    lemma_concat3(tag, u32_bytes(body.len() as u32), body);
    assert(with.subrange(0, 36) =~= without.subrange(0, 36));
    lemma_stretch(with, 36, chunk, 0, 4);
    lemma_stretch(with, 36, chunk, 4, 8);
    lemma_u32_le_of_bytes(with, 40, body.len() as u32);
    assert(with.subrange(next, with.len() as int) =~= rest);
    assert(without.subrange(36, without.len() as int) =~= rest);
}

/// A chunk with any tag but `data`, put between the format chunk and what
/// follows it, is passed over by exactly its declared size. With the size
/// field of the data chunk taken as a byte count, the buffer decodes to what
/// it decodes to without that chunk. With it taken as a cursor bound, a
/// buffer that decodes without the chunk still decodes with it.
pub proof fn lemma_unknown_chunk_is_skipped(
    head: Seq<u8>,
    tag: Seq<u8>,
    body: Seq<u8>,
    rest: Seq<u8>,
)
    requires
        head.len() == 36,
        tag.len() == 4,
        tag != tag_bytes("data"),
        body.len() <= u32::MAX,
    ensures
        data_offset(head + chunk_bytes(tag, body) + rest, 36) == data_offset(
            head + chunk_bytes(tag, body) + rest,
            36 + 8 + body.len() as int,
        ),
        decoded(head + chunk_bytes(tag, body) + rest, DataSizeRule::ByteCount) == decoded(
            head + rest,
            DataSizeRule::ByteCount,
        ),
        decoded(head + rest, DataSizeRule::CursorBound).is_ok() ==> decoded(
            head + chunk_bytes(tag, body) + rest,
            DataSizeRule::CursorBound,
        ).is_ok(),
{
    lemma_tag_bytes();
    lemma_chunk_between(head, tag, body, rest);
    lemma_chunk_is_skipped(
        head + chunk_bytes(tag, body) + rest,
        head + rest,
        body.len() as u32,
    );
}

} // verus!
