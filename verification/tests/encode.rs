use pcm_wav::endian::{write_i16, write_u16, write_u32};
use pcm_wav::write::{sizes_fit, write_data_chunk, write_fmt_chunk, write_riff_chunk};
use pcm_wav::{create_bytes, ChannelLayout, WavData, WavError};

#[test]
fn mono_file_is_written_byte_for_byte() {
    let channels: Vec<Vec<i16>> = vec![vec![100, -200, 32767]];
    let bytes: Vec<u8> = create_bytes(&channels, 8000).unwrap();
    let expected: Vec<u8> = vec![
        0x52, 0x49, 0x46, 0x46, // RIFF
        42, 0, 0, 0, // 36 + 6
        0x57, 0x41, 0x56, 0x45, // WAVE
        0x66, 0x6d, 0x74, 0x20, // fmt
        16, 0, 0, 0, // chunk size
        1, 0, // PCM
        1, 0, // channels
        0x40, 0x1f, 0, 0, // 8000
        0x80, 0x3e, 0, 0, // 8000 * 1 * 16 / 8 = 16000
        2, 0, // 1 * 16 / 8
        16, 0, // bits per sample
        0x64, 0x61, 0x74, 0x61, // data
        6, 0, 0, 0, // 3 * 1 * 2
        0x64, 0x00, // 100
        0x38, 0xff, // -200
        0xff, 0x7f, // 32767
    ];
    assert_eq!(bytes.len(), 50);
    assert_eq!(bytes, expected);
}

#[test]
fn stereo_samples_are_interleaved_left_first() {
    let channels: Vec<Vec<i16>> = vec![vec![1, 2], vec![3, 4]];
    let bytes: Vec<u8> = create_bytes(&channels, 44100).unwrap();
    assert_eq!(bytes.len(), 52);
    let payload: Vec<u8> = vec![1, 0, 3, 0, 2, 0, 4, 0];
    assert_eq!(&bytes[44..], &payload[..]);
    // data size 2 * 2 * 2 = 8 and chunk size 36 + 8
    assert_eq!(&bytes[40..44], &[8u8, 0, 0, 0][..]);
    assert_eq!(&bytes[4..8], &[44u8, 0, 0, 0][..]);
}

#[test]
fn stereo_format_chunk_holds_the_computed_fields() {
    let channels: Vec<Vec<i16>> = vec![vec![], vec![]];
    let bytes: Vec<u8> = create_bytes(&channels, 44100).unwrap();
    assert_eq!(bytes.len(), 44);
    // channel count
    assert_eq!(&bytes[22..24], &[2u8, 0][..]);
    // sample rate 44100 = 0x0000ac44
    assert_eq!(&bytes[24..28], &[0x44u8, 0xac, 0, 0][..]);
    // byte rate 44100 * 2 * 16 / 8 = 176400 = 0x0002b110
    assert_eq!(&bytes[28..32], &[0x10u8, 0xb1, 0x02, 0][..]);
    // block align 2 * 16 / 8 = 4
    assert_eq!(&bytes[32..34], &[4u8, 0][..]);
    // bits per sample
    assert_eq!(&bytes[34..36], &[16u8, 0][..]);
    // empty data chunk
    assert_eq!(&bytes[36..44], &[0x64u8, 0x61, 0x74, 0x61, 0, 0, 0, 0][..]);
}

#[test]
fn three_channels_are_refused() {
    let channels: Vec<Vec<i16>> = vec![vec![1], vec![2], vec![3]];
    assert_eq!(create_bytes(&channels, 8000), Err(WavError::UnsupportedChannelCount));
}

#[test]
fn no_channel_is_refused() {
    let channels: Vec<Vec<i16>> = vec![];
    assert_eq!(create_bytes(&channels, 8000), Err(WavError::UnsupportedChannelCount));
}

#[test]
fn shorter_right_channel_cuts_the_frames_but_not_the_declared_size() {
    let channels: Vec<Vec<i16>> = vec![vec![1, 2, 3], vec![7]];
    let bytes: Vec<u8> = create_bytes(&channels, 8000).unwrap();
    // one frame written, three declared
    assert_eq!(bytes.len(), 48);
    assert_eq!(&bytes[40..44], &[12u8, 0, 0, 0][..]);
    assert_eq!(&bytes[44..], &[1u8, 0, 7, 0][..]);
}

#[test]
fn shorter_left_channel_cuts_the_frames() {
    let channels: Vec<Vec<i16>> = vec![vec![5], vec![7, 8, 9]];
    let bytes: Vec<u8> = create_bytes(&channels, 8000).unwrap();
    assert_eq!(bytes.len(), 48);
    assert_eq!(&bytes[40..44], &[4u8, 0, 0, 0][..]);
    assert_eq!(&bytes[44..], &[5u8, 0, 7, 0][..]);
}

#[test]
fn largest_sample_rate_of_one_channel_is_written() {
    let channels: Vec<Vec<i16>> = vec![vec![]];
    // byte rate 2147483647 * 2 = 4294967294 still fits 32 bits
    let bytes: Vec<u8> = create_bytes(&channels, 2147483647).unwrap();
    assert_eq!(&bytes[24..28], &[0xffu8, 0xff, 0xff, 0x7f][..]);
    assert_eq!(&bytes[28..32], &[0xfeu8, 0xff, 0xff, 0xff][..]);
}

#[test]
fn riff_chunk_holds_size_plus_36() {
    let mut buf: Vec<u8> = vec![9];
    write_riff_chunk(&mut buf, 1000);
    // 1036 = 0x040c
    assert_eq!(buf, vec![9, 0x52, 0x49, 0x46, 0x46, 0x0c, 0x04, 0, 0, 0x57, 0x41, 0x56, 0x45]);
}

#[test]
fn fmt_chunk_is_24_bytes() {
    let mut buf: Vec<u8> = Vec::new();
    write_fmt_chunk(&mut buf, 2, 48000);
    let expected: Vec<u8> = vec![
        0x66, 0x6d, 0x74, 0x20, 16, 0, 0, 0, 1, 0, 2, 0, 0x80, 0xbb, 0, 0, 0x00, 0xee, 0x02, 0,
        4, 0, 16, 0,
    ];
    assert_eq!(buf, expected);
}

#[test]
fn data_chunk_writes_the_size_it_is_given() {
    let mut buf: Vec<u8> = Vec::new();
    let channels: Vec<Vec<i16>> = vec![vec![-1, 256]];
    write_data_chunk(&mut buf, &channels, 4);
    assert_eq!(buf, vec![0x64, 0x61, 0x74, 0x61, 4, 0, 0, 0, 0xff, 0xff, 0x00, 0x01]);
}

#[test]
fn integers_are_written_least_significant_byte_first() {
    let mut buf: Vec<u8> = Vec::new();
    write_u16(&mut buf, 0x1234);
    write_u32(&mut buf, 0x89abcdef);
    write_i16(&mut buf, -32768);
    write_i16(&mut buf, -1);
    write_i16(&mut buf, 0);
    write_u32(&mut buf, 0);
    write_u16(&mut buf, 0xffff);
    assert_eq!(
        buf,
        vec![
            0x34, 0x12, 0xef, 0xcd, 0xab, 0x89, 0x00, 0x80, 0xff, 0xff, 0, 0, 0, 0, 0, 0, 0xff,
            0xff
        ]
    );
}

#[test]
fn channel_layouts_are_one_and_two_channels() {
    assert_eq!(ChannelLayout::from_count(1), Ok(ChannelLayout::Mono));
    assert_eq!(ChannelLayout::from_count(2), Ok(ChannelLayout::Stereo));
    assert_eq!(ChannelLayout::from_count(0), Err(WavError::UnsupportedChannelCount));
    assert_eq!(ChannelLayout::from_count(3), Err(WavError::UnsupportedChannelCount));
    assert_eq!(ChannelLayout::Mono.count(), 1);
    assert_eq!(ChannelLayout::Stereo.count(), 2);
}

#[test]
fn every_error_has_its_message() {
    assert_eq!(WavError::NotRiff.message(), "not a RIFF file");
    assert_eq!(WavError::NotWave.message(), "not a WAVE file");
    assert_eq!(WavError::FormatChunkMissing.message(), "fmt chunk not found");
    assert_eq!(WavError::FormatChunkWrongSize.message(), "fmt chunk wrong size");
    assert_eq!(WavError::NotPcm.message(), "not a PCM file");
    assert_eq!(
        WavError::InconsistentFormatChunk.message(),
        "byte rate or block align does not match with other parameters"
    );
    assert_eq!(WavError::DataChunkNotFound.message(), "data chunk not found");
    assert_eq!(WavError::UnsupportedChannelCount.message(), "unsupported number of channels");
    assert_eq!(WavError::UnexpectedEof.message(), "unexpected end of input");
}

#[test]
fn byte_rate_must_fit_32_bits() {
    let mono: Vec<Vec<i16>> = vec![vec![1, 2, 3]];
    let stereo: Vec<Vec<i16>> = vec![vec![1], vec![2]];
    assert!(sizes_fit(&mono, 0));
    assert!(sizes_fit(&mono, 44100));
    // 2147483647 * 2 = 4294967294, 2147483648 * 2 = 4294967296
    assert!(sizes_fit(&mono, 2147483647));
    assert!(!sizes_fit(&mono, 2147483648));
    assert!(!sizes_fit(&mono, u32::MAX));
    // 1073741823 * 4 = 4294967292, 1073741824 * 4 = 4294967296
    assert!(sizes_fit(&stereo, 1073741823));
    assert!(!sizes_fit(&stereo, 1073741824));
}

#[test]
fn audio_that_is_refused_anyway_needs_no_room() {
    let none: Vec<Vec<i16>> = vec![];
    let three: Vec<Vec<i16>> = vec![vec![], vec![], vec![]];
    assert!(sizes_fit(&none, u32::MAX));
    assert!(sizes_fit(&three, u32::MAX));
}

#[test]
fn clone_keeps_fields_and_samples() {
    let wav: WavData =
        WavData { num_channels: 2, samplerate: 48000, audiodata: vec![vec![1, -1], vec![2, -2]] };
    let copy: WavData = wav.clone();
    assert_eq!(copy.num_channels, 2);
    assert_eq!(copy.samplerate, 48000);
    assert_eq!(copy.audiodata, vec![vec![1i16, -1], vec![2i16, -2]]);
    assert_eq!(copy, wav);
    let empty: WavData = WavData { num_channels: 0, samplerate: 0, audiodata: vec![] };
    assert_eq!(empty.clone(), empty);
}
