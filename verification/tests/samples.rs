use pipecap::audio::sink_monitor::AudioCapturer;
use pipecap::audio::{
    audio_format_params, bytes_as_f32, encode, settle_format, AudioFormatParams, ParamChange,
    SampleFormat, MAX_SAMPLES, SINGLE_SOURCE,
};

#[test]
fn constants_are_two_seconds_and_source_zero() {
    assert_eq!(MAX_SAMPLES, 48000 * 2 * 2);
    assert_eq!(SINGLE_SOURCE, 0);
}

#[test]
fn single_precision_is_asked_for() {
    let expected = AudioFormatParams { format: SampleFormat::F32LE, rate: 0, channels: 0 };
    assert_eq!(audio_format_params(), expected);
}

#[test]
fn samples_survive_encoding() {
    let samples: Vec<u32> = [0.0f32, 1.0, -0.5, f32::MAX, f32::MIN_POSITIVE]
        .iter()
        .map(|s| s.to_bits())
        .collect();
    assert_eq!(bytes_as_f32(&encode(&samples), 0), Some(samples));
}

#[test]
fn bytes_survive_decoding() {
    let bytes: Vec<u8> = (0..=255).collect();
    assert_eq!(encode(&bytes_as_f32(&bytes, 16).unwrap()), bytes);
}

#[test]
fn encoding_is_little_endian() {
    assert_eq!(encode(&[0x0403_0201, 1.0f32.to_bits()]), vec![1, 2, 3, 4, 0, 0, 0x80, 0x3f]);
    assert_eq!(encode(&[0x1234_5678]), 0x1234_5678u32.to_le_bytes().to_vec());
}

#[test]
fn misaligned_bytes_are_no_samples() {
    let bytes = [1u8, 2, 3, 4, 5, 6, 7, 8];
    assert_eq!(bytes_as_f32(&bytes, 4), Some(vec![0x0403_0201, 0x0807_0605]));
    assert_eq!(bytes_as_f32(&bytes, 5), None);
    assert_eq!(bytes_as_f32(&bytes[..7], 4), None);
    assert_eq!(bytes_as_f32(&[], 3), Some(vec![]));
}

#[test]
fn format_of_unknown_kind_is_taken_for_audio() {
    let change = ParamChange { is_format: true, raw_audio: None, audio: Some((2, 96000)) };
    assert_eq!(settle_format(Some(change)), Some((2, 96000)));
    assert_eq!(settle_format(Some(ParamChange { raw_audio: Some(false), ..change })), None);
    assert_eq!(settle_format(Some(ParamChange { is_format: false, ..change })), None);
    assert_eq!(settle_format(None), None);
}

#[test]
fn monitor_buffer_is_taken_whole() {
    let mut capturer = AudioCapturer::new();
    assert!(capturer.read_audio().is_none());
    let mapped = encode(&[1, 2, 3]);
    capturer.push_chunk(&mapped, 12);
    capturer.push_chunk(&mapped, 0);
    capturer.push_chunk(&mapped, 13);
    let taken = capturer.read_audio().unwrap();
    assert_eq!(taken.data, vec![1, 2, 3]);
    assert_eq!((taken.channels, taken.sample_rate), (2, 48000));
    assert!(capturer.read_audio().is_none());
}

#[test]
fn monitor_ignores_a_rest_of_bytes() {
    let mut capturer = AudioCapturer::new();
    capturer.push_chunk(&encode(&[5, 6, 7]), 11);
    assert_eq!(capturer.read_audio().unwrap().data, vec![5, 6]);
}

#[test]
fn monitor_keeps_the_newest_samples() {
    let mut capturer = AudioCapturer::new();
    let many: Vec<u32> = (0..MAX_SAMPLES as u32).collect();
    let mapped = encode(&many);
    capturer.push_chunk(&mapped, mapped.len());
    capturer.push_chunk(&encode(&[77, 88]), 8);
    let taken = capturer.read_audio().unwrap().data;
    assert_eq!(taken.len(), MAX_SAMPLES);
    assert_eq!(taken[0], 2);
    assert_eq!(taken[MAX_SAMPLES - 2..], [77, 88]);
}

#[test]
fn monitor_takes_the_negotiated_format() {
    let mut capturer = AudioCapturer::new();
    capturer.on_param_changed(Some(ParamChange {
        is_format: true,
        raw_audio: Some(true),
        audio: Some((1, 16000)),
    }));
    capturer.on_param_changed(None);
    capturer.push_chunk(&encode(&[9]), 4);
    let taken = capturer.read_audio().unwrap();
    assert_eq!((taken.channels, taken.sample_rate), (1, 16000));
}

#[test]
fn monitor_is_active_until_stopped() {
    let mut capturer = AudioCapturer::new();
    assert!(capturer.is_active());
    capturer.stop();
    assert!(!capturer.is_active());
}
