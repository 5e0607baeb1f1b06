use lxst::audio::plan_resampling;
use lxst::frame_plan::{duration_samples, plan_tone_frame, FrameMs};
use lxst::gain::GainDb;
use lxst::line_sink::tenth_of;
use lxst::opus_codec::resampled_frame_count;
use lxst::time::Nanos;
use lxst::{plan_line_source_frame, AudioError, AudioFrame, CodecProfile, OpusCodec};
use std::time::Duration;

fn ms(value: f32) -> FrameMs {
    FrameMs {
        bits: value.to_bits(),
    }
}

/// How long a frame is to be, in single precision: a multiple of the codec's step, or the
/// nearest length that the codec takes.
fn target_ms(requested: f32, profile: Option<CodecProfile>) -> f32 {
    let valid = [2.5_f32, 5.0, 10.0, 20.0, 40.0, 60.0];
    let mut target = requested.max(1.0);
    let (opus, step) = match profile {
        Some(CodecProfile::OpusAudioMax) => (true, 2.5_f32),
        Some(CodecProfile::Codec2_1600) => (false, 40.0),
        _ => return target,
    };
    if (target % step).abs() > f32::EPSILON {
        target = (target / step).ceil() * step;
    }
    if opus {
        target = target.min(60.0);
        if !valid.iter().any(|length| (length - target).abs() < f32::EPSILON) {
            let mut nearest = valid[0];
            for length in valid {
                if (length - target).abs() < (nearest - target).abs() {
                    nearest = length;
                }
            }
            target = nearest;
        }
    }
    target
}

fn frame_samples(samplerate: u32, target: f32) -> usize {
    ((samplerate as f32 * target) / 1000.0).ceil() as usize
}

#[test]
fn frame_lengths_are_counted_in_single_precision() {
    let lengths = [
        0.0_f32, -3.5, 0.1, 0.99, 1.0, 1.0000001, 1.25, 2.4999998, 2.5, 2.5000002, 3.3, 5.0, 7.0,
        7.5, 9.999999, 10.0, 15.0, 19.999998, 20.000002, 29.999999, 30.0, 33.3, 40.000004, 45.0,
        59.99, 60.0, 60.1, 79.999999, 80.0, 99.7, 119.99999, 120.0, 1000.0, 65535.0, 123456.78,
        f32::MIN_POSITIVE,
    ];
    let rates = [
        1, 7, 8_000, 11_025, 22_050, 44_100, 48_000, 96_000, 192_000, 16_777_217, 17_000_001,
        33_554_433, 999_999_999,
    ];
    for profile in [
        None,
        Some(CodecProfile::Raw),
        Some(CodecProfile::OpusAudioMax),
        Some(CodecProfile::Codec2_1600),
    ] {
        for length in lengths {
            for rate in rates {
                let plan = plan_line_source_frame(ms(length), profile, rate, 2).unwrap();
                let target = target_ms(length, profile);
                let count = frame_samples(rate, target);
                assert_eq!(plan.requested_frame_ms, ms(length), "{length} {rate} {profile:?}");
                assert_eq!(plan.target_frame_ms, ms(target), "{length} {rate} {profile:?}");
                assert_eq!(plan.frame_count, count, "{length} {rate} {profile:?}");
                assert_eq!(plan.sample_count, count * 2, "{length} {rate} {profile:?}");
            }
        }
    }
}

#[test]
fn high_rates_lose_digits() {
    let plan = plan_line_source_frame(ms(1.0), None, 17_000_001, 1).unwrap();
    assert_eq!(plan.frame_count, 17_000);
    assert_eq!(plan.sample_count, 17_000);
}

#[test]
fn a_length_that_is_no_number_is_one_millisecond() {
    let plan = plan_line_source_frame(ms(f32::NAN), None, 48_000, 1).unwrap();
    assert_eq!(plan.target_frame_ms, ms(1.0));
    assert_ne!(plan.requested_frame_ms, plan.requested_frame_ms);
    assert_eq!(plan.frame_count, 48);
    let plan = plan_line_source_frame(ms(f32::INFINITY), None, 48_000, 1).unwrap();
    assert_eq!(plan.frame_count, usize::MAX);
    assert_eq!(
        plan_line_source_frame(ms(20.0), None, 0, 1),
        Err(AudioError::InvalidSamplerate(0))
    );
    assert_eq!(
        plan_line_source_frame(ms(20.0), None, 48_000, 0),
        Err(AudioError::InvalidChannels(0))
    );
}

#[test]
fn frame_lengths_are_equal_as_numbers() {
    assert_eq!(ms(0.0), ms(-0.0));
    assert_ne!(ms(f32::NAN), ms(f32::NAN));
    assert_ne!(ms(1.0), ms(1.5));
    assert_eq!(FrameMs::from_millis(20), ms(20.0));
    assert_eq!(FrameMs::from_millis(65_535), ms(65_535.0));
    assert_eq!(FrameMs::from_millis(0), ms(0.0));
}

#[test]
fn tones_keep_the_length_that_is_asked_for() {
    for millis in [0_u16, 1, 3, 7, 20, 33, 60, 61, 120, 65_535] {
        let plan = plan_tone_frame(millis, CodecProfile::Raw, 2).unwrap();
        let target = target_ms(f32::from(millis), None);
        assert_eq!(plan.target_frame_ms, ms(target));
        assert_eq!(plan.frame_count, frame_samples(48_000, target));
    }
}

#[test]
fn times_are_counted_in_double_precision() {
    assert_eq!(duration_samples(1_100_000_000, 10, 1), 11);
    assert_eq!(duration_samples(17_000_000, 48_000, 1), 817);
    assert_eq!(duration_samples(70_000_000, 44_100, 2), 6_176);
    let spans: [Nanos; 16] = [
        0,
        1,
        2,
        20_833,
        20_834,
        1_000_000,
        20_000_000,
        75_000_000,
        225_000_000,
        1_100_000_000,
        2_300_000_000,
        4_250_000_000,
        86_400_000_000_000,
        9_007_199_254_740_993,
        1_000_000_000_000_000_001,
        u64::MAX,
    ];
    let rates = [0, 1, 3, 7, 10, 8_000, 44_100, 48_000, 192_000, 16_777_217, 4_294_967];
    for span in spans {
        for rate in rates {
            let seconds = Duration::from_nanos(span).as_secs_f64();
            let expected = (seconds * f64::from(rate)).ceil() as usize;
            assert_eq!(duration_samples(span, rate, 1), expected, "{span} {rate}");
            assert_eq!(duration_samples(span, rate, 2), expected * 2, "{span} {rate}");
        }
    }
}

#[test]
fn output_frames_find_their_place_in_double_precision() {
    for (frames, from, to) in [
        (80_usize, 8_000_u32, 16_000_u32),
        (1, 8_000, 48_000),
        (160, 48_000, 8_000),
        (441, 44_100, 48_000),
        (999, 11_025, 44_100),
        (3, 7, 10),
        (1000, 3, 1),
        (77, 4_294_967_295, 4_294_967_294),
        (33, 4_294_967_294, 4_294_967_295),
    ] {
        let steps = plan_resampling(frames, from, to);
        let count = ((frames as u64 * u64::from(to)) + u64::from(from) / 2) / u64::from(from);
        assert_eq!(steps.len(), count.max(1) as usize, "{frames} {from} {to}");
        for (index, step) in steps.iter().enumerate() {
            let place = index as f64 * f64::from(from) / f64::from(to);
            let left = place.floor() as usize;
            assert_eq!(step.left, left, "{frames} {from} {to} {index}");
            assert_eq!(step.right, (left + 1).min(frames - 1), "{frames} {from} {to} {index}");
        }
    }
}

#[test]
fn long_frames_are_counted_at_their_own_rate() {
    let frame = AudioFrame::new(8_000, 1, vec![0; 480]).unwrap();
    assert_eq!(resampled_frame_count(&frame, 8_000), 480);
    assert_eq!(resampled_frame_count(&frame, 96_000), 5_760);
    assert_eq!(resampled_frame_count(&frame, 1), 1);
    let empty = AudioFrame::new(8_000, 1, Vec::new()).unwrap();
    assert_eq!(resampled_frame_count(&empty, 48_000), 0);
    assert!(OpusCodec::new(CodecProfile::OpusVoiceLow).plan_encode(&frame).is_ok());
}

#[test]
fn frames_and_gains_are_equal_as_numbers() {
    let frame = |values: &[f32]| {
        AudioFrame::new(8_000, 1, values.iter().map(|value| value.to_bits()).collect()).unwrap()
    };
    assert_eq!(frame(&[0.0, 0.5]), frame(&[-0.0, 0.5]));
    assert_ne!(frame(&[0.5]), frame(&[-0.5]));
    assert_ne!(frame(&[0.5]), frame(&[0.5, 0.5]));
    assert_ne!(frame(&[f32::NAN]), frame(&[f32::NAN]));
    let gain = |value: f32| GainDb {
        bits: value.to_bits(),
    };
    assert_eq!(gain(0.0), gain(-0.0));
    assert_ne!(gain(f32::NAN), gain(f32::NAN));
    assert_ne!(gain(6.0), gain(-6.0));
}

#[test]
fn a_tenth_is_taken_in_single_precision() {
    assert_eq!(tenth_of(0), 0);
    assert_eq!(tenth_of(20_000_000), 2_000_000);
    let mut spans: Vec<Nanos> = vec![
        1,
        4,
        5,
        6,
        15,
        999_999_999,
        1_000_000_000,
        1_000_000_001,
        2_700_000_000,
        16_777_217_000_000_000,
        33_554_435_123_456_789,
        18_000_000_000_000_000_000,
        u64::MAX,
    ];
    let mut span: Nanos = 7;
    while span < u64::MAX / 3 {
        spans.push(span);
        span = span * 3 - span / 4 + 1;
    }
    for span in spans {
        let expected = Duration::from_nanos(span).mul_f32(0.1).as_nanos();
        assert_eq!(u128::from(tenth_of(span)), expected, "{span}");
    }
}
