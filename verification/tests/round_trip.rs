use pcm_wav::{create_bytes, parse_bytes, parse_bytes_with, DataSizeRule, WavData};

fn there_and_back(channels: &Vec<Vec<i16>>, rate: u32) -> WavData {
    let bytes: Vec<u8> = create_bytes(channels, rate).unwrap();
    parse_bytes_with(&bytes, DataSizeRule::ByteCount).unwrap()
}

fn ramp(len: usize, first: i16, step: i16) -> Vec<i16> {
    let mut v: Vec<i16> = Vec::new();
    let mut x: i16 = first;
    for _ in 0..len {
        v.push(x);
        x = x.wrapping_add(step);
    }
    v
}

#[test]
fn mono_scenario_comes_back() {
    let channels: Vec<Vec<i16>> = vec![vec![100, -200, 32767]];
    let wav: WavData = there_and_back(&channels, 8000);
    assert_eq!(wav.num_channels, 1);
    assert_eq!(wav.samplerate, 8000);
    assert_eq!(wav.audiodata, vec![vec![100i16, -200, 32767]]);
}

#[test]
fn stereo_scenario_comes_back() {
    let channels: Vec<Vec<i16>> = vec![vec![1, 2], vec![3, 4]];
    let wav: WavData = there_and_back(&channels, 44100);
    assert_eq!(wav.num_channels, 2);
    assert_eq!(wav.samplerate, 44100);
    assert_eq!(wav.audiodata, vec![vec![1i16, 2], vec![3i16, 4]]);
}

#[test]
fn every_sample_value_comes_back() {
    let mut all: Vec<i16> = Vec::new();
    for x in i16::MIN..=i16::MAX {
        all.push(x);
    }
    let channels: Vec<Vec<i16>> = vec![all];
    let wav: WavData = there_and_back(&channels, 1);
    assert_eq!(wav.num_channels, 1);
    assert_eq!(wav.samplerate, 1);
    assert_eq!(wav.audiodata, channels);
}

#[test]
fn long_stereo_comes_back() {
    let channels: Vec<Vec<i16>> = vec![ramp(5000, -32768, 13), ramp(5000, 32767, -7)];
    let wav: WavData = there_and_back(&channels, 96000);
    assert_eq!(wav.num_channels, 2);
    assert_eq!(wav.samplerate, 96000);
    assert_eq!(wav.audiodata, channels);
}

#[test]
fn empty_channels_come_back_under_both_rules() {
    let mono: Vec<Vec<i16>> = vec![vec![]];
    let stereo: Vec<Vec<i16>> = vec![vec![], vec![]];
    assert_eq!(there_and_back(&mono, 8000).audiodata, mono);
    assert_eq!(there_and_back(&stereo, 8000).audiodata, stereo);
    let m: WavData = parse_bytes(&create_bytes(&mono, 8000).unwrap()).unwrap();
    assert_eq!(m.num_channels, 1);
    assert_eq!(m.samplerate, 8000);
    assert_eq!(m.audiodata, mono);
    let s: WavData = parse_bytes(&create_bytes(&stereo, 8000).unwrap()).unwrap();
    assert_eq!(s.num_channels, 2);
    assert_eq!(s.audiodata, stereo);
}

#[test]
fn sample_rates_at_the_edges_come_back() {
    let channels: Vec<Vec<i16>> = vec![vec![7]];
    assert_eq!(there_and_back(&channels, 0).samplerate, 0);
    assert_eq!(there_and_back(&channels, 2147483647).samplerate, 2147483647);
    let two: Vec<Vec<i16>> = vec![vec![7], vec![8]];
    assert_eq!(there_and_back(&two, 1073741823).samplerate, 1073741823);
}

#[test]
fn cursor_bound_loses_the_last_22_samples_of_one_channel() {
    let channels: Vec<Vec<i16>> = vec![ramp(30, 0, 1)];
    let bytes: Vec<u8> = create_bytes(&channels, 8000).unwrap();
    let wav: WavData = parse_bytes(&bytes).unwrap();
    assert_eq!(wav.num_channels, 1);
    assert_eq!(wav.samplerate, 8000);
    assert_eq!(wav.audiodata, vec![ramp(8, 0, 1)]);
    let short: Vec<Vec<i16>> = vec![ramp(22, 0, 1)];
    let none: WavData = parse_bytes(&create_bytes(&short, 8000).unwrap()).unwrap();
    assert_eq!(none.audiodata, vec![Vec::<i16>::new()]);
    let scenario: Vec<Vec<i16>> = vec![vec![100, -200, 32767]];
    let lost: WavData = parse_bytes(&create_bytes(&scenario, 8000).unwrap()).unwrap();
    assert_eq!(lost.audiodata, vec![Vec::<i16>::new()]);
}

#[test]
fn cursor_bound_loses_the_last_11_frames_of_two_channels() {
    let channels: Vec<Vec<i16>> = vec![ramp(15, 0, 1), ramp(15, 100, 1)];
    let bytes: Vec<u8> = create_bytes(&channels, 8000).unwrap();
    let wav: WavData = parse_bytes_with(&bytes, DataSizeRule::CursorBound).unwrap();
    assert_eq!(wav.num_channels, 2);
    assert_eq!(wav.audiodata, vec![ramp(4, 0, 1), ramp(4, 100, 1)]);
}

#[test]
fn unequal_channels_do_not_come_back() {
    // the right channel is cut to the left one's length
    let longer_right: Vec<Vec<i16>> = vec![vec![1, 2], vec![3, 4, 5]];
    let wav: WavData = there_and_back(&longer_right, 8000);
    assert_eq!(wav.audiodata, vec![vec![1i16, 2], vec![3i16, 4]]);
    // the declared size asks for more frames than were written
    let longer_left: Vec<Vec<i16>> = vec![vec![1, 2, 3], vec![4]];
    let bytes: Vec<u8> = create_bytes(&longer_left, 8000).unwrap();
    assert!(parse_bytes_with(&bytes, DataSizeRule::ByteCount).is_err());
}

#[test]
fn chunk_put_into_a_written_file_is_skipped() {
    let channels: Vec<Vec<i16>> = vec![vec![10, 20, 30], vec![-10, -20, -30]];
    let bytes: Vec<u8> = create_bytes(&channels, 22050).unwrap();
    let mut with_chunk: Vec<u8> = Vec::new();
    with_chunk.extend_from_slice(&bytes[..36]);
    with_chunk.extend_from_slice(b"LIST");
    with_chunk.extend_from_slice(&7u32.to_le_bytes());
    with_chunk.extend_from_slice(&[0xde, 0xad, 0xbe, 0xef, 0, 1, 2]);
    with_chunk.extend_from_slice(&bytes[36..]);
    let wav: WavData = parse_bytes_with(&with_chunk, DataSizeRule::ByteCount).unwrap();
    assert_eq!(wav.num_channels, 2);
    assert_eq!(wav.samplerate, 22050);
    assert_eq!(wav.audiodata, channels);
}
