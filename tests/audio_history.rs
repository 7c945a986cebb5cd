use beat_detector::audio_history::NANOS_PER_SECOND;
use beat_detector::ring::HISTORY_CAPACITY;
use beat_detector::{AudioHistory, DownsamplingMetrics, SampleInfo, ValidInputFrequencies};
use ringbuffer::RingBuffer;

const MS: u128 = 1_000_000;

#[test]
fn audio_history_buffer_len_sane() {
    // The buffer covers a sane window at the de-facto default rate of 44.1 kHz.
    let duration_ms = HISTORY_CAPACITY as u128 * 1000 / 44100;
    assert!(duration_ms > 10);
    assert!(duration_ms <= 1000);
}

#[test]
fn audio_history_audio_duration_is_updated_properly() {
    let mut hist = AudioHistory::new(2, None, None);
    assert_eq!(hist.total_consumed_samples(), 0);

    hist.update(&[0]);
    assert_eq!(hist.total_consumed_samples(), 1);
    assert_eq!(hist.passed_time(), 500 * MS);

    hist.update(&[0, 0]);
    assert_eq!(hist.total_consumed_samples(), 3);
    assert_eq!(hist.passed_time(), 1500 * MS);
}

#[test]
fn audio_history_index_to_sample_number_works_across_ringbuffer_overflow() {
    let mut hist = AudioHistory::new(2, None, None);
    let test_data = vec![0i16; HISTORY_CAPACITY + 10];

    hist.update(&test_data[0..10]);
    assert_eq!(hist.index_to_sample_number(0), 0);
    assert_eq!(hist.index_to_sample_number(10), 10);

    // now the buffer is full, but no overflow yet
    hist.update(&test_data[10..HISTORY_CAPACITY]);
    assert_eq!(hist.index_to_sample_number(0), 0);
    assert_eq!(hist.index_to_sample_number(10), 10);
    assert_eq!(hist.index_to_sample_number(HISTORY_CAPACITY), HISTORY_CAPACITY);

    // now the buffer overflowed
    hist.update(&test_data[HISTORY_CAPACITY..HISTORY_CAPACITY + 10]);
    assert_eq!(hist.index_to_sample_number(0), 10);
    assert_eq!(hist.index_to_sample_number(10), 20);
    assert_eq!(
        hist.index_to_sample_number(HISTORY_CAPACITY),
        HISTORY_CAPACITY + 10
    );
}

#[test]
fn audio_history_timestamp_of_index_properly_calculated() {
    let mut hist = AudioHistory::new(2, None, None);
    let test_data = vec![0i16; HISTORY_CAPACITY + 10];

    hist.update(&test_data[0..10]);
    assert_eq!(hist.timestamp_of_index(0), 0);
    assert_eq!(hist.timestamp_of_index(10), 5 * NANOS_PER_SECOND);

    // now the buffer is full, but no overflow yet
    hist.update(&test_data[10..HISTORY_CAPACITY]);
    assert_eq!(hist.timestamp_of_index(0), 0);
    assert_eq!(hist.timestamp_of_index(10), 5 * NANOS_PER_SECOND);

    // now the buffer overflowed
    hist.update(&test_data[HISTORY_CAPACITY..HISTORY_CAPACITY + 10]);
    assert_eq!(hist.timestamp_of_index(0), 5 * NANOS_PER_SECOND);
    assert_eq!(hist.timestamp_of_index(10), 10 * NANOS_PER_SECOND);
}

#[test]
fn audio_history_sample_info() {
    let mut hist = AudioHistory::new(1, None, None);

    hist.update(&[0]);
    assert_eq!(hist.index_to_sample_info(0).duration_behind_ns, 0);
    hist.update(&[0]);
    assert_eq!(hist.index_to_sample_info(0).duration_behind_ns, NANOS_PER_SECOND);
    assert_eq!(hist.index_to_sample_info(1).duration_behind_ns, 0);

    let capacity = hist.data().capacity();
    hist.update(&vec![0i16; capacity * 2]);

    assert_eq!(
        hist.index_to_sample_info(0).duration_behind_ns,
        (HISTORY_CAPACITY as u128 - 1) * NANOS_PER_SECOND
    );
    assert_eq!(
        hist.index_to_sample_info(HISTORY_CAPACITY - 10).duration_behind_ns,
        9 * NANOS_PER_SECOND
    );
    assert_eq!(
        hist.index_to_sample_info(HISTORY_CAPACITY - 1).duration_behind_ns,
        0
    );
}

#[test]
fn audio_history_sample_info_ordering() {
    assert_eq!(
        SampleInfo {
            total_index: 0,
            ..Default::default()
        },
        SampleInfo {
            total_index: 0,
            ..Default::default()
        }
    );

    assert!(
        SampleInfo {
            total_index: 0,
            ..Default::default()
        } < SampleInfo {
            total_index: 1,
            ..Default::default()
        }
    );

    assert!(
        SampleInfo {
            total_index: 11,
            ..Default::default()
        } > SampleInfo {
            total_index: 10,
            ..Default::default()
        }
    );
}

#[test]
fn audio_history_total_index_to_index_works() {
    let mut history = AudioHistory::new(1, None, None);
    for i in 0..history.data().capacity() {
        assert_eq!(history.total_index_to_index(i), None);
        history.update(&[0]);
        assert_eq!(history.total_index_to_index(i), Some(i));
    }

    history.update(&[0]);
    // No longer existing.
    assert_eq!(history.total_index_to_index(0), None);
    assert_eq!(history.total_index_to_index(1), Some(0));
    assert_eq!(history.total_index_to_index(2), Some(1));
    // The next sample of the stream has not arrived yet.
    assert_eq!(
        history.total_index_to_index(history.total_consumed_samples()),
        None
    );
}

#[test]
fn total_index_original_works() {
    let input = ValidInputFrequencies::new(100, 10).unwrap();
    let metrics = DownsamplingMetrics::new(input);
    assert_eq!(metrics.factor(), 2);
    assert_eq!(metrics.effective_sample_rate_hz(), 50);

    const N: usize = 10;
    let mut history = AudioHistory::new(input.sample_rate_hz(), Some(metrics), None);
    let mut delayed = AudioHistory::new(input.sample_rate_hz(), Some(metrics), Some(5));
    history.update(&[0; N]);
    delayed.update(&[0; N]);

    assert_eq!(history.index_to_sample_info(0).total_index_original, 0);
    assert_eq!(history.index_to_sample_info(1).total_index_original, 2);
    assert_eq!(history.index_to_sample_info(9).total_index_original, 18);

    // entirely fill buffer
    for _ in 0..history.data().capacity() {
        history.update(&[0]);
        delayed.update(&[0]);
    }
    assert_eq!(history.total_consumed_samples(), HISTORY_CAPACITY + N);

    let index = history.data().capacity() - 1;
    let expected_index = HISTORY_CAPACITY + N - 1;
    assert_eq!(history.index_to_sample_info(index).total_index, expected_index);
    assert_eq!(
        history.index_to_sample_info(index).total_index_original,
        expected_index * 2
    );

    // now with group delay
    assert_eq!(
        delayed.index_to_sample_info(index).total_index_original,
        expected_index * 2 - 5
    );
}

#[test]
fn group_delay_never_moves_an_index_below_zero() {
    let mut history = AudioHistory::new(44100, None, Some(300));
    history.update(&[1, 2, 3]);
    assert_eq!(history.index_to_sample_info(2).total_index_original, 0);
}

#[test]
fn samples_are_stored_in_order_and_the_oldest_are_dropped() {
    let mut history = AudioHistory::new(8, None, None);
    let data: Vec<i16> = (0..HISTORY_CAPACITY as i32 + 3).map(|x| (x % 30000) as i16).collect();
    history.update(&data[..5]);
    assert_eq!(history.len(), 5);
    assert_eq!(history.index_to_sample_info(4).amplitude, 4);
    history.update(&data[5..]);
    assert_eq!(history.len(), HISTORY_CAPACITY);
    // the three oldest samples are gone
    let first = history.index_to_sample_info(0);
    assert_eq!(first.amplitude, 3);
    assert_eq!(first.total_index, 3);
    let last = history.index_to_sample_info(HISTORY_CAPACITY - 1);
    assert_eq!(last.amplitude, data[HISTORY_CAPACITY + 2]);
    assert_eq!(last.total_index, HISTORY_CAPACITY + 2);
}

#[test]
fn timestamps_follow_the_effective_sample_rate() {
    // 4 Hz: a quarter of a second per sample.
    let mut history = AudioHistory::new(4, None, None);
    history.update(&[0, 0, 0, 0, 0, 0]);
    let info = history.index_to_sample_info(2);
    assert_eq!(info.timestamp_ns, 500 * MS);
    assert_eq!(info.duration_behind_ns, 750 * MS);
    assert_eq!(history.passed_time(), 1500 * MS);
    assert_eq!(history.sample_rate(), 4);
}

#[test]
fn ring_bookkeeping_after_more_samples_than_capacity() {
    let mut history = AudioHistory::new(1, None, None);
    let n = HISTORY_CAPACITY + 123;
    history.update(&vec![0i16; n]);
    let lost = n - HISTORY_CAPACITY;
    assert_eq!(history.index_to_sample_number(0), lost);
    for i in [0, 1, lost - 1] {
        assert_eq!(history.total_index_to_index(i), None);
    }
    let mut previous = None;
    for i in [lost, lost + 1, lost + 500, n - 1] {
        let index = history.total_index_to_index(i);
        assert_eq!(index, Some(i - lost));
        assert!(index > previous);
        previous = index;
    }
    assert_eq!(history.total_index_to_index(n), None);
}
