use beat_detector::conversion::stereo_to_mono;
use beat_detector::{
    AudioHistory, BeatDetector, DownsamplingMetrics, Downsampler, RootIterator, ValidInputFrequencies,
};

fn half_wave(amp: i32, len: usize, positive: bool) -> Vec<i16> {
    let half = (len / 2) as i32;
    (0..len)
        .map(|j| {
            let ramp = (j as i32 + 1).min(len as i32 - j as i32);
            let v = (amp * ramp / half).min(amp);
            (if positive { v } else { -v }) as i16
        })
        .collect()
}

fn burst(amps: &[i32], len: usize) -> Vec<i16> {
    let mut out = Vec::new();
    for (k, &a) in amps.iter().enumerate() {
        out.extend(half_wave(a, len, k % 2 == 0));
    }
    out
}

fn beat_amplitudes(background: usize) -> Vec<i32> {
    let mut amps = vec![2500; background];
    amps.extend([5000, 30000, 28000, 26000, 22000, 18000, 14000, 10000, 7000, 5000, 3500, 2500, 2000]);
    amps
}

/// A clip of 0.4 s at 44.1 kHz with one beat.
fn single_beat_clip() -> Vec<i16> {
    let mut s = vec![0i16; 1000];
    s.extend(burst(&beat_amplitudes(20), 200));
    s.resize(17640, 0);
    s
}

fn detector(do_downsample: bool) -> BeatDetector {
    BeatDetector::new(ValidInputFrequencies::new(44100, 100).unwrap(), do_downsample, None)
}

/// Feeds the samples chunk by chunk; returns the chunk number and the total
/// indices (from, max, to) of each beat.
fn simulate_dynamic_audio_source(
    chunk_size: usize,
    samples: &[i16],
    detector: &mut BeatDetector,
) -> Vec<(usize, usize, usize, usize)> {
    let mut out = Vec::new();
    for (n, chunk) in samples.chunks(chunk_size).enumerate() {
        if let Some(beat) = detector.update_and_detect_beat(chunk) {
            out.push((n, beat.from.total_index, beat.max.total_index, beat.to.total_index));
        }
    }
    out
}

#[test]
fn beat_detector_test_beat_detection_1() {
    let samples = single_beat_clip();
    let mut detector = detector(false);
    let beats = simulate_dynamic_audio_source(256, &samples, &mut detector);
    assert_eq!(beats.len(), 1);
    assert_eq!(&beats[0].1..=&beats[0].3, &5100..=&7100);
}

#[test]
fn test_with_downsampler() {
    // The roots of a downsampled signal are found in the downsampled history.
    let frequencies = ValidInputFrequencies::new(44100, 100).unwrap();
    let metrics = DownsamplingMetrics::new(frequencies);
    assert_eq!(metrics.factor(), 105);
    let mut downsampler = Downsampler::new(metrics);
    let mut samples = vec![0i16; 4410];
    samples.extend(burst(&[3000, 6000, 8000, 4000], 4200));
    samples.extend(vec![0i16; 4410]);
    let samples = downsampler.downsample(&samples);
    assert_eq!(samples.len(), (4410 * 2 + 4 * 4200 + 104) / 105);
    let mut history = AudioHistory::new(frequencies.sample_rate_hz(), Some(metrics), None);
    history.update(&samples);
    let mut roots = RootIterator::new(&history, None);
    let mut found = Vec::new();
    while let Some(info) = roots.next() {
        found.push((info.total_index, info.total_index_original));
    }
    assert_eq!(found, [(81, 8505), (121, 12705), (161, 16905)]);
}

#[test]
fn single_beat_in_one_shot_then_nothing_on_an_empty_feed() {
    let samples = single_beat_clip();
    let mut detector = detector(false);
    let beat = detector.update_and_detect_beat(&samples).unwrap();
    assert_eq!(beat.max.index, 5299);
    assert_eq!(beat.from.index, 5100);
    assert_eq!(beat.to.index, 7100);
    assert_eq!(beat.max.amplitude, -30000);
    assert_eq!(beat.max.timestamp_ns, 120_158_730);
    assert_eq!(beat.max.duration_behind_ns, 279_818_594);
    assert_eq!(detector.update_and_detect_beat(&[]), None);
    assert_eq!(detector.update_and_detect_beat(&[]), None);
    assert_eq!(detector.last_beat(), Some(beat));
}

#[test]
fn same_beat_whatever_the_chunk_size() {
    let samples = single_beat_clip();
    for chunk_size in [256, 2048] {
        let mut detector = detector(false);
        let beats = simulate_dynamic_audio_source(chunk_size, &samples, &mut detector);
        assert_eq!(beats.len(), 1);
        assert_eq!((beats[0].1, beats[0].2, beats[0].3), (5100, 5299, 7100));
    }
}

#[test]
fn two_beats_in_one_history_are_reported_one_per_call() {
    let amps = beat_amplitudes(6);
    let mut samples = vec![0i16; 500];
    samples.extend(burst(&amps, 200));
    samples.extend(vec![0i16; 2000]);
    samples.extend(burst(&amps, 200));
    samples.resize(18000, 0);
    let mut detector = detector(false);
    let first = detector.update_and_detect_beat(&samples).unwrap();
    assert_eq!((first.from.total_index, first.max.total_index, first.to.total_index), (1800, 1999, 4000));
    // an empty feed reports the second beat, which the history already holds
    let second = detector.update_and_detect_beat(&[]).unwrap();
    assert_eq!((second.from.total_index, second.max.total_index, second.to.total_index), (7600, 7799, 9600));
    assert!(!first.overlap(&second) && !second.overlap(&first));
    assert_eq!(detector.update_and_detect_beat(&[]), None);
}

#[test]
fn beats_of_a_long_stream_across_buffer_overflow() {
    let amps = beat_amplitudes(20);
    let mut samples = vec![0i16; 2000];
    for _ in 0..3 {
        samples.extend(burst(&amps, 200));
        samples.extend(vec![0i16; 15000]);
    }
    let mut detector = detector(false);
    let beats = simulate_dynamic_audio_source(2048, &samples, &mut detector);
    assert_eq!(
        beats,
        [(5, 6100, 6299, 8100), (16, 27700, 27899, 29700), (27, 49300, 49499, 51300)]
    );
    for pair in beats.windows(2) {
        assert!(pair[0].3 <= pair[1].1);
    }
    assert_eq!(detector.history().total_consumed_samples(), samples.len());
}

#[test]
fn downsampled_detection_maps_back_to_the_original_stream() {
    let mut samples = vec![0i16; 4410];
    samples.extend(burst(&beat_amplitudes(20), 4200));
    samples.resize(200000, 0);
    let mut detector = detector(true);
    let mut beats = Vec::new();
    for (n, chunk) in samples.chunks(4410).enumerate() {
        if let Some(beat) = detector.update_and_detect_beat(chunk) {
            beats.push((
                n,
                beat.from.total_index,
                beat.max.total_index,
                beat.to.total_index,
                beat.max.total_index_original,
                beat.max.amplitude,
            ));
        }
    }
    assert_eq!(
        beats,
        [(24, 862, 901, 941, 94605, -28514), (27, 981, 1021, 1061, 107205, 20910)]
    );
    assert_eq!(detector.history().sample_rate(), 420);
}

#[test]
fn group_delay_shifts_the_original_index() {
    let samples = single_beat_clip();
    let mut detector =
        BeatDetector::new(ValidInputFrequencies::new(44100, 100).unwrap(), false, Some(99));
    let beat = detector.update_and_detect_beat(&samples).unwrap();
    assert_eq!(beat.max.total_index_original, 5299 - 99);
}

#[test]
fn an_empty_history_has_no_beat() {
    let mut detector = detector(false);
    assert_eq!(detector.update_and_detect_beat(&[]), None);
    assert_eq!(detector.update_and_detect_beat(&[0; 100]), None);
}

#[test]
fn stereo_input_detects_the_same_beat() {
    let mono = single_beat_clip();
    let stereo: Vec<i16> = mono.iter().flat_map(|&x| [x, x]).collect();
    let downmixed: Vec<i16> = stereo.chunks(2).map(|lr| stereo_to_mono(lr[0], lr[1])).collect();
    let mut detector = detector(false);
    let beat = detector.update_and_detect_beat(&downmixed).unwrap();
    assert_eq!(beat.max.index, 5299);
}

#[test]
fn is_send_and_sync() {
    fn accept<I: Send + Sync>() {}

    accept::<BeatDetector>();
}
