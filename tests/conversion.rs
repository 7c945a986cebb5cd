use beat_detector::conversion::{stereo_to_mono, u16_data_to_i16};
use beat_detector::window_stats::WindowStats;

#[test]
fn stereo_to_mono_averages_toward_zero() {
    assert_eq!(stereo_to_mono(0, 0), 0);
    assert_eq!(stereo_to_mono(100, 300), 200);
    assert_eq!(stereo_to_mono(1, 2), 1);
    assert_eq!(stereo_to_mono(-1, -2), -1);
    assert_eq!(stereo_to_mono(i16::MAX, i16::MAX), i16::MAX);
    assert_eq!(stereo_to_mono(i16::MIN, i16::MIN), i16::MIN);
    assert_eq!(stereo_to_mono(i16::MIN, i16::MAX), 0);
}

#[test]
fn unsigned_samples_are_shifted() {
    assert_eq!(u16_data_to_i16(&[]), Vec::<i16>::new());
    assert_eq!(u16_data_to_i16(&[16383, 0, 20000]), vec![0, -16383, 3617]);
    // beyond i16::MAX the low 16 bits are kept
    assert_eq!(u16_data_to_i16(&[65535]), vec![(65535 - 16383) as i16]);
}

#[test]
fn window_stats_max_is_the_largest_magnitude() {
    assert_eq!(WindowStats::from_samples(&[0]).max(), 0);
    assert_eq!(WindowStats::from_samples(&[3, -7, 5]).max(), 7);
    assert_eq!(WindowStats::from_samples(&[i16::MIN, 1]).max(), i16::MAX as u16);
    assert_eq!(WindowStats::from_samples(&[i16::MAX, -3]).max(), 32767);
}
