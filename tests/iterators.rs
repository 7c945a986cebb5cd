use beat_detector::envelope_iterator::find_descending_peak_trend_end;
use beat_detector::{AudioHistory, EnvelopeInfo, EnvelopeIterator, MaxMinIterator, RootIterator, SampleInfo};

/// One half-wave of a triangle wave: rises to `amp` and falls back.
fn half_wave(amp: i32, len: usize, positive: bool) -> Vec<i16> {
    let half = (len / 2) as i32;
    (0..len)
        .map(|j| {
            let ramp = (j as i32 + 1).min(len as i32 - j as i32);
            let v = (amp * ramp / half).min(amp);
            (if positive { v } else { -v }) as i16
        })
        .collect()
}

/// Half-waves of alternating sign with the given peak amplitudes.
fn burst(amps: &[i32], len: usize) -> Vec<i16> {
    let mut out = Vec::new();
    for (k, &a) in amps.iter().enumerate() {
        out.extend(half_wave(a, len, k % 2 == 0));
    }
    out
}

fn small_signal() -> Vec<i16> {
    let mut s = vec![0i16; 50];
    s.extend(burst(&[3000, 6000, 1000, 8000, 2000, 4000], 100));
    s.extend(vec![0i16; 200]);
    s
}

fn beat_signal() -> Vec<i16> {
    let mut amps = vec![2500; 20];
    amps.extend([5000, 30000, 28000, 26000, 22000, 18000, 14000, 10000, 7000, 5000, 3500, 2500, 2000]);
    let mut s = vec![0i16; 1000];
    s.extend(burst(&amps, 200));
    s.resize(17640, 0);
    s
}

fn history_of(samples: &[i16], rate: u32) -> AudioHistory {
    let mut history = AudioHistory::new(rate, None, None);
    history.update(samples);
    history
}

fn roots(mut iter: RootIterator) -> Vec<(usize, i16)> {
    let mut out = Vec::new();
    while let Some(info) = iter.next() {
        out.push((info.total_index, info.amplitude));
    }
    out
}

fn peaks(mut iter: MaxMinIterator) -> Vec<(usize, i16)> {
    let mut out = Vec::new();
    while let Some(info) = iter.next() {
        out.push((info.total_index, info.amplitude));
    }
    out
}

#[test]
fn envelope_info_overlap() {
    let mut this = EnvelopeInfo::default();
    let mut that = EnvelopeInfo::default();

    this.from.total_index = 0;
    this.to.total_index = 10;

    that.from.total_index = 11;
    that.to.total_index = 20;

    assert!(this.overlap(&this));
    assert!(that.overlap(&that));

    assert!(!this.overlap(&that));
    assert!(!that.overlap(&this));

    that.from.total_index = 10;
    assert!(!this.overlap(&that));
    assert!(!that.overlap(&this));

    that.from.total_index = 9;
    assert!(this.overlap(&that));
    assert!(that.overlap(&this));

    this.from.total_index = 10;
    this.to.total_index = 20;
    that.from.total_index = 10;
    that.to.total_index = 20;
    assert!(this.overlap(&that));
    assert!(that.overlap(&this));

    this.to.total_index = 16;
    assert!(this.overlap(&that));
    assert!(that.overlap(&this));

    this.from.total_index = 10;
    this.to.total_index = 20;
    that.from.total_index = 0;
    that.to.total_index = 10;
    assert!(!this.overlap(&that));
    assert!(!that.overlap(&this));

    this.from.total_index = 10;
    this.to.total_index = 20;
    that.from.total_index = 5;
    that.to.total_index = 15;
    assert!(this.overlap(&that));
    assert!(that.overlap(&this));
}

#[test]
fn envelope_equality_is_overlap_and_order_is_by_begin() {
    let mut a = EnvelopeInfo::default();
    let mut b = EnvelopeInfo::default();
    a.from.total_index = 0;
    a.to.total_index = 10;
    b.from.total_index = 5;
    b.to.total_index = 15;
    assert!(a == b);
    assert!(a < b);
    b.from.total_index = 10;
    assert!(a != b);
    a.from.timestamp_ns = 3;
    a.to.timestamp_ns = 10;
    a.max.timestamp_ns = 7;
    assert_eq!(a.duration(), 7);
    assert_eq!(a.timestamp(), 7);
}

#[test]
fn roots_skip_noise_and_mark_the_sample_before_the_crossing() {
    let signal = small_signal();
    let history = history_of(&signal, 1000);
    assert_eq!(
        roots(RootIterator::new(&history, None)),
        [(149, 60), (249, -120), (449, -160), (549, 40)]
    );
    assert_eq!(roots(RootIterator::new(&history, Some(250))), [(449, -160), (549, 40)]);
}

#[test]
fn peaks_are_the_loudest_samples_between_roots() {
    let signal = small_signal();
    let history = history_of(&signal, 1000);
    // the first half-wave lies before the first root and is not reported
    assert_eq!(
        peaks(MaxMinIterator::new(&history, None)),
        [(199, -6000), (400, -8000), (500, 2000)]
    );
    assert_eq!(peaks(MaxMinIterator::new(&history, Some(260))), [(499, 2000)]);
}

#[test]
fn trend_end_follows_descending_peaks() {
    let signal = beat_signal();
    let history = history_of(&signal, 44100);
    let end = find_descending_peak_trend_end(&history, 5299).map(|info| info.index);
    assert_eq!(end, Some(7100));
    // a silent history has no trend
    let silent = history_of(&[0; 100], 44100);
    assert_eq!(find_descending_peak_trend_end(&silent, 0), None);
}

#[test]
fn envelope_of_a_single_beat() {
    let signal = beat_signal();
    let history = history_of(&signal, 44100);
    let mut envelopes = EnvelopeIterator::new(&history, None);
    let envelope = envelopes.next().unwrap();
    assert_eq!(
        (envelope.from.index, envelope.max.index, envelope.to.index),
        (5100, 5299, 7100)
    );
    assert_eq!(envelope.max.amplitude, -30000);
    assert_eq!(envelopes.next(), None);
}

#[test]
fn a_beat_too_close_to_the_latest_sample_is_not_reported_yet() {
    let mut signal = beat_signal();
    signal.truncate(7500);
    let history = history_of(&signal, 44100);
    assert_eq!(EnvelopeIterator::new(&history, None).next(), None);
}

#[test]
fn sample_info_of_an_envelope_begin() {
    let signal = beat_signal();
    let history = history_of(&signal, 44100);
    let from: SampleInfo = EnvelopeIterator::new(&history, None).next().unwrap().from;
    assert_eq!(from.amplitude, 5000);
    assert_eq!(from.total_index_original, 5100);
    assert_eq!(from.timestamp_ns, 115_646_258);
    assert_eq!(from.duration_behind_ns, 284_331_066);
}
