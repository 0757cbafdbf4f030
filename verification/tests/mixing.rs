use pipecap::audio::mix::{Chunk, MixBuffer, SILENCE, STALE_AFTER};
use pipecap::audio::{ParamChange, MAX_SAMPLES};

fn bits(samples: &[f32]) -> Vec<u32> {
    samples.iter().map(|s| s.to_bits()).collect()
}

fn plus(a: u32, b: u32) -> u32 {
    (f32::from_bits(a) + f32::from_bits(b)).to_bits()
}

fn bytes(samples: &[f32]) -> Vec<u8> {
    samples.iter().flat_map(|s| s.to_le_bytes()).collect()
}

#[test]
fn empty_mixer_has_nothing() {
    let mut mix = MixBuffer::new();
    assert!(mix.drain(0, plus).is_none());
}

#[test]
fn silence_is_the_number_zero() {
    assert_eq!(SILENCE, 0.0f32.to_bits());
}

#[test]
fn single_source_passes_through() {
    let mut mix = MixBuffer::new();
    mix.push(7, &bits(&[0.5, -0.25, 1.0]), 10);
    let drained = mix.drain(20, plus).unwrap();
    assert_eq!(drained.data, bits(&[0.5, -0.25, 1.0]));
    assert_eq!((drained.channels, drained.sample_rate), (2, 48000));
    assert!(mix.drain(30, plus).is_none());
}

#[test]
fn sources_are_added_sample_by_sample() {
    let mut mix = MixBuffer::new();
    mix.push(1, &bits(&[0.5, 0.25]), 0);
    mix.push(2, &bits(&[0.25, 0.5]), 0);
    mix.push(3, &bits(&[1.0, -1.0]), 0);
    assert_eq!(mix.drain(1, plus).unwrap().data, bits(&[1.75, -0.25]));
}

#[test]
fn common_prefix_is_drained_and_the_rest_is_kept() {
    let mut mix = MixBuffer::new();
    mix.push(1, &bits(&[1.0, 2.0, 3.0, 4.0]), 0);
    mix.push(2, &bits(&[10.0, 20.0]), 0);
    assert_eq!(mix.drain(1, plus).unwrap().data, bits(&[11.0, 22.0]));
    // Source 2 has none left, and does not hold up the other one.
    assert_eq!(mix.drain(2, plus).unwrap().data, bits(&[3.0, 4.0]));
    assert!(mix.drain(3, plus).is_none());
}

#[test]
fn empty_source_holds_up_nothing() {
    let mut with = MixBuffer::new();
    with.push(9, &bits(&[1.0]), 0);
    assert_eq!(with.drain(0, plus).unwrap().data.len(), 1);
    with.push(1, &bits(&[0.5, 0.75]), 5);
    assert_eq!(with.drain(6, plus).unwrap().data, bits(&[0.5, 0.75]));
}

#[test]
fn recent_source_keeps_its_samples() {
    let mut mix = MixBuffer::new();
    mix.push(1, &bits(&[0.5]), 0);
    assert_eq!(mix.drain(STALE_AFTER - 1, plus).unwrap().data, bits(&[0.5]));
}

#[test]
fn stale_source_is_dropped_with_its_samples() {
    let mut mix = MixBuffer::new();
    mix.push(1, &bits(&[0.5]), 0);
    assert!(mix.drain(STALE_AFTER, plus).is_none());
    mix.push(1, &bits(&[0.25]), STALE_AFTER + 1);
    assert_eq!(mix.drain(STALE_AFTER + 2, plus).unwrap().data, bits(&[0.25]));
}

#[test]
fn stale_source_is_not_mixed_in() {
    let mut mix = MixBuffer::new();
    mix.push(1, &bits(&[1.0, 2.0]), 0);
    mix.push(2, &bits(&[10.0]), 600_000_000);
    assert_eq!(mix.drain(601_000_000, plus).unwrap().data, bits(&[10.0]));
    assert!(mix.drain(602_000_000, plus).is_none());
}

#[test]
fn a_clock_that_runs_back_drops_nothing() {
    let mut mix = MixBuffer::new();
    mix.push(1, &bits(&[0.5]), 100);
    assert_eq!(mix.drain(50, plus).unwrap().data, bits(&[0.5]));
}

#[test]
fn queue_keeps_the_newest_samples() {
    let mut mix = MixBuffer::new();
    let many: Vec<u32> = (0..MAX_SAMPLES as u32 + 3).collect();
    mix.push(1, &many, 0);
    let drained = mix.drain(0, |_, b| b).unwrap().data;
    assert_eq!(drained.len(), MAX_SAMPLES);
    assert_eq!(drained[0], 3);
    assert_eq!(drained[MAX_SAMPLES - 1], MAX_SAMPLES as u32 + 2);
}

#[test]
fn pushes_join() {
    let mut cut = MixBuffer::new();
    cut.push(1, &bits(&[0.5]), 0);
    cut.push(1, &bits(&[0.25, 0.75]), 5);
    let mut whole = MixBuffer::new();
    whole.push(1, &bits(&[0.5, 0.25, 0.75]), 5);
    assert_eq!(cut.drain(6, plus).unwrap().data, whole.drain(6, plus).unwrap().data);
}

#[test]
fn empty_push_makes_no_source() {
    let mut mix = MixBuffer::new();
    mix.push(1, &[], 0);
    assert!(mix.drain(0, plus).is_none());
}

#[test]
fn removing_a_source_undoes_its_pushes() {
    let mut mix = MixBuffer::new();
    mix.push(1, &bits(&[0.5]), 0);
    mix.push(2, &bits(&[0.25]), 0);
    mix.remove_source(2);
    mix.remove_source(3);
    assert_eq!(mix.drain(1, plus).unwrap().data, bits(&[0.5]));
}

#[test]
fn format_labels_the_drained_buffer() {
    let mut mix = MixBuffer::new();
    mix.set_format(6, 44100);
    mix.push(1, &bits(&[0.5]), 0);
    let drained = mix.drain(0, plus).unwrap();
    assert_eq!((drained.channels, drained.sample_rate), (6, 44100));
}

#[test]
fn only_a_readable_audio_format_is_taken() {
    let format = |change| {
        let mut mix = MixBuffer::new();
        mix.on_param_changed(change);
        mix.push(1, &bits(&[0.5]), 0);
        let drained = mix.drain(0, plus).unwrap();
        (drained.channels, drained.sample_rate)
    };
    let change = |is_format, raw_audio, audio| Some(ParamChange { is_format, raw_audio, audio });
    assert_eq!(format(None), (2, 48000));
    assert_eq!(format(change(false, None, Some((1, 8000)))), (2, 48000));
    assert_eq!(format(change(true, None, None)), (2, 48000));
    assert_eq!(format(change(true, Some(false), Some((1, 8000)))), (2, 48000));
    assert_eq!(format(change(true, Some(true), Some((1, 8000)))), (1, 8000));
    assert_eq!(format(change(true, None, Some((1, 8000)))), (1, 8000));
}

#[test]
fn chunks_are_pushed_where_they_are_aligned() {
    let mut mix = MixBuffer::new();
    let mapped = bytes(&[0.5, -1.0, 8.0]);
    assert_eq!(mix.push_chunk(1, &mapped, 0, 64, 0), Chunk::Unusable);
    assert_eq!(mix.push_chunk(1, &mapped, 16, 64, 0), Chunk::Unusable);
    assert_eq!(mix.push_chunk(1, &mapped, 6, 64, 0), Chunk::Misaligned);
    assert_eq!(mix.push_chunk(1, &mapped, 8, 66, 0), Chunk::Misaligned);
    assert!(mix.drain(0, plus).is_none());
    assert_eq!(mix.push_chunk(1, &mapped, 8, 64, 0), Chunk::Pushed);
    assert_eq!(mix.drain(0, plus).unwrap().data, bits(&[0.5, -1.0]));
}

#[test]
fn single_source_is_a_queue() {
    let mut mix = MixBuffer::new();
    let (mut pushed, mut drained): (Vec<u32>, Vec<u32>) = (Vec::new(), Vec::new());
    for (i, len) in [3usize, 0, 5, 1, 0, 2].into_iter().enumerate() {
        let samples = bits(&vec![i as f32 + 0.5; len]);
        mix.push(4, &samples, i as u64);
        pushed.extend(&samples);
        if i % 2 == 1 {
            if let Some(buffer) = mix.drain(i as u64, plus) {
                drained.extend(buffer.data);
            }
            assert_eq!(drained, pushed);
        }
    }
    assert!(mix.drain(9, plus).is_none());
}
