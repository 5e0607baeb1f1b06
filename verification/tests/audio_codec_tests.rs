use lxst::audio::{limit_sample, plan_resampling};
use lxst::codec2_codec::CODEC2_700C_HEADER;
use lxst::float_bits::{narrow_double, narrow_to_half, widen_half, widen_to_double};
use lxst::frame_plan::{plan_tone_frame, tone_frame_samples, FrameMs};
use lxst::gain::GainDb;
use lxst::identity::IdentitySet;
use lxst::line_sink::{span_of_samples, LineStep};
use lxst::mixer::{mixer_step, MixedFrame, MixerStep};
use lxst::opus_codec::{resampled_frame_count, OpusDecodePlan};
use lxst::stream::{
    device_line, plan_input_stream, plan_output_stream, preferred_device, FrameCollector,
    FramePlayer,
};
use lxst::time::{millis, secs, Nanos};
use lxst::{
    plan_line_source_frame, plan_mixer_frame, select_audio_device_info, AudioCodec,
    AudioDeviceInfo, AudioDeviceKind, AudioError, AudioFrame, AudioStreamConfigInfo, CallEvent,
    CallProfile, CallState, CallerPolicy, Codec2Codec, CodecError, CodecFactory, CodecKind,
    CodecProfile, CodecSelection, CpalInputConfig, CpalOutputConfig, LinePlayback,
    LineSourceProcessor, Mixer, MixerSink, NullCodec, OpusCodec, QueuedLineSink,
    QueuedLineSinkConfig, RawBitDepth, RawCodec, Sample, Signal, SignalCode, Telephone,
    TelephoneConfig, MIN_ANNOUNCE_INTERVAL,
};

const NOW: Nanos = 1_000_000_000;

fn bits(value: f32) -> Sample {
    value.to_bits()
}

fn samples(values: &[f32]) -> Vec<Sample> {
    values.iter().map(|value| value.to_bits()).collect()
}

fn ms(value: f32) -> FrameMs {
    FrameMs {
        bits: value.to_bits(),
    }
}

fn gain(value: f32) -> GainDb {
    GainDb {
        bits: value.to_bits(),
    }
}

fn sum_of(frames: &[AudioFrame]) -> Vec<Sample> {
    let mut sums = vec![0.0_f32; frames[0].samples().len()];
    for frame in frames {
        for (sum, sample) in sums.iter_mut().zip(frame.samples()) {
            *sum += f32::from_bits(*sample);
        }
    }
    sums.iter()
        .map(|sum| limit_sample(sum.to_bits()))
        .collect()
}

fn blend(mixed: MixedFrame) -> Vec<Sample> {
    match mixed {
        MixedFrame::Ready(frame) => frame.samples().to_vec(),
        MixedFrame::Sum { frames, gain_db } => {
            assert_eq!(gain_db, GainDb::zero());
            sum_of(&frames)
        }
    }
}

fn device(name: &str, kind: AudioDeviceKind, is_default: bool) -> AudioDeviceInfo {
    AudioDeviceInfo {
        name: name.to_string(),
        kind,
        is_default,
        default_config: None,
        supported_configs: Vec::new(),
    }
}

fn voice(count: usize, frequency: f32) -> Vec<i16> {
    (0..count)
        .map(|n| ((n as f32 / 8_000.0) * frequency * std::f32::consts::TAU).sin() * 0.2)
        .map(|sample| (sample.clamp(-1.0, 1.0) * 32767.0) as i16)
        .collect()
}

#[test]
fn raw_codec_round_trips_f32_frames() {
    let frame = AudioFrame::new(48_000, 2, samples(&[0.0, 0.5, -0.5, 1.0])).unwrap();
    let mut codec = RawCodec::new(RawBitDepth::Float32);
    let encoded = codec.encode(&frame).unwrap();
    assert_eq!(encoded[0], 0b0100_0001);

    let decoded = codec.decode(&encoded, 48_000).unwrap();
    assert_eq!(decoded.channels(), 2);
    assert_eq!(decoded.samplerate(), 48_000);
    assert_eq!(decoded.samples(), frame.samples());
}

#[test]
fn raw_codec_round_trips_f16_frames_like_python() {
    let frame = AudioFrame::new(48_000, 1, samples(&[0.0, 0.5, -0.5, 1.0])).unwrap();
    let mut codec = RawCodec::new(RawBitDepth::Float16);
    let encoded = codec.encode(&frame).unwrap();
    assert_eq!(
        encoded,
        vec![0x00, 0x00, 0x00, 0x00, 0x38, 0x00, 0xb8, 0x00, 0x3c]
    );

    let decoded = codec.decode(&encoded, 48_000).unwrap();
    assert_eq!(decoded.channels(), 1);
    assert_eq!(decoded.samplerate(), 48_000);
    assert_eq!(decoded.samples(), frame.samples());
}

#[test]
fn raw_codec_rejects_truncated_f16_payloads() {
    let mut codec = RawCodec::new(RawBitDepth::Float16);
    assert!(matches!(
        codec.decode(&[0x00, 0x00], 48_000),
        Err(CodecError::InvalidPayloadLength(1))
    ));
}

#[test]
fn raw_codec_fixed_channels_duplicates_missing_channels_like_python() {
    let frame = AudioFrame::new(48_000, 1, samples(&[0.25, -0.5])).unwrap();
    let mut codec = RawCodec::with_channels(RawBitDepth::Float32, 2);

    let encoded = codec.encode(&frame).unwrap();
    assert_eq!(encoded[0], 0b0100_0001);

    let decoded = codec.decode(&encoded, 48_000).unwrap();
    assert_eq!(codec.channels(), Some(2));
    assert_eq!(decoded.channels(), 2);
    assert_eq!(decoded.samples(), samples(&[0.25, 0.25, -0.5, -0.5]));
}

#[test]
fn raw_codec_fixed_channels_truncates_extra_channels_like_python() {
    let frame = AudioFrame::new(48_000, 2, samples(&[0.25, 0.75, -0.5, -1.0])).unwrap();
    let mut codec = RawCodec::with_channels(RawBitDepth::Float32, 1);

    let encoded = codec.encode(&frame).unwrap();
    assert_eq!(encoded[0], 0b0100_0000);

    let decoded = codec.decode(&encoded, 48_000).unwrap();
    assert_eq!(codec.channels(), Some(1));
    assert_eq!(decoded.channels(), 1);
    assert_eq!(decoded.samples(), samples(&[0.25, -0.5]));
}

#[test]
fn raw_codec_fixed_channels_are_clamped_like_python() {
    assert_eq!(
        RawCodec::with_channels(RawBitDepth::Float32, 0).channels(),
        Some(1)
    );
    assert_eq!(
        RawCodec::with_channels(RawBitDepth::Float32, u8::MAX).channels(),
        Some(32)
    );
}

#[test]
fn audio_frame_normalizes_channels_for_device_output() {
    let mono = AudioFrame::new(48_000, 1, samples(&[0.25, -0.5])).unwrap();
    let stereo = mono.with_channels(2).unwrap();

    assert_eq!(stereo.channels(), 2);
    assert_eq!(stereo.samples(), samples(&[0.25, 0.25, -0.5, -0.5]));

    let folded = stereo.with_channels(1).unwrap();
    assert_eq!(folded.channels(), 1);
    assert_eq!(folded.samples(), samples(&[0.25, -0.5]));
}

#[test]
fn audio_frame_resamples_for_device_output() {
    let frame = AudioFrame::new(8_000, 1, vec![bits(0.0); 80]).unwrap();
    let steps = plan_resampling(frame.frame_count(), frame.samplerate(), 16_000);

    assert_eq!(steps.len(), 160);
    assert_eq!(resampled_frame_count(&frame, 16_000), 160);
}

#[test]
fn opus_codec_rejects_invalid_frame_duration() {
    let frame = AudioFrame::new(8_000, 1, vec![bits(0.0); 123]).unwrap();
    let codec = OpusCodec::new(CodecProfile::OpusVoiceLow);

    assert!(matches!(
        codec.plan_encode(&frame),
        Err(CodecError::InvalidFrameDuration {
            sample_count: 123,
            samplerate: 8_000,
        })
    ));
}

#[test]
fn opus_profile_helpers_match_python_tables() {
    assert_eq!(
        OpusCodec::profile_channels(CodecProfile::OpusVoiceMax).unwrap(),
        2
    );
    assert_eq!(
        OpusCodec::profile_samplerate(CodecProfile::OpusAudioLow).unwrap(),
        12_000
    );
    assert_eq!(
        OpusCodec::profile_bitrate_ceiling(CodecProfile::OpusAudioMax).unwrap(),
        128_000
    );
    assert_eq!(OpusCodec::max_bytes_per_frame(8_000, 600), 60);
    assert_eq!(OpusCodec::max_bytes_per_frame(6_000, 25), 2);
    assert!(OpusCodec::profile_channels(CodecProfile::Raw).is_err());
}

#[test]
fn codec2_3200_round_trips_one_frame_with_python_header() {
    let mut codec = Codec2Codec::new(CodecProfile::Codec2_3200);

    let encoded = codec.encode_pcm(&voice(160, 180.0)).unwrap();
    assert_eq!(encoded[0], 0x06);
    assert_eq!(encoded.len(), 9);

    let decoded = codec.decode_pcm(&encoded).unwrap();
    assert_eq!(decoded.len(), 160);
}

#[test]
fn codec2_1600_round_trips_one_frame_with_python_header() {
    let mut codec = Codec2Codec::new(CodecProfile::Codec2_1600);

    let encoded = codec.encode_pcm(&voice(320, 180.0)).unwrap();
    assert_eq!(encoded[0], 0x04);
    assert_eq!(encoded.len(), 9);

    let decoded = codec.decode_pcm(&encoded).unwrap();
    assert_eq!(decoded.len(), 320);
}

#[test]
fn codec2_profiles_cover_python_mode_headers() {
    let cases = [
        (CodecProfile::Codec2_1200, 0x01, 320),
        (CodecProfile::Codec2_1300, 0x02, 320),
        (CodecProfile::Codec2_1400, 0x03, 320),
        (CodecProfile::Codec2_1600, 0x04, 320),
        (CodecProfile::Codec2_2400, 0x05, 160),
        (CodecProfile::Codec2_3200, 0x06, 160),
    ];

    for (profile, header, samples_per_frame) in cases {
        let mut codec = Codec2Codec::new(profile);
        let encoded = codec.encode_pcm(&vec![0; samples_per_frame]).unwrap();
        assert_eq!(encoded[0], header, "{profile:?}");
        assert!(!encoded[1..].is_empty(), "{profile:?}");

        let decoded = codec.decode_pcm(&encoded).unwrap();
        assert_eq!(decoded.len(), samples_per_frame, "{profile:?}");
    }
    assert_eq!(CODEC2_700C_HEADER, 0x00);
}

#[test]
fn codec_factory_creates_all_python_codec2_profiles() {
    for profile in [
        CodecProfile::Codec2_700C,
        CodecProfile::Codec2_1200,
        CodecProfile::Codec2_1300,
        CodecProfile::Codec2_1400,
        CodecProfile::Codec2_1600,
        CodecProfile::Codec2_2400,
        CodecProfile::Codec2_3200,
    ] {
        let codec = CodecFactory::create(CodecSelection::Profile(profile));
        assert_eq!(codec.kind(), CodecKind::Codec2, "{profile:?}");
    }
}

#[test]
fn codec2_decode_uses_embedded_mode_header() {
    let mut encoder = Codec2Codec::new(CodecProfile::Codec2_3200);
    let encoded = encoder.encode_pcm(&[0; 160]).unwrap();
    let mut decoder = Codec2Codec::new(CodecProfile::Codec2_1600);

    let decoded = decoder.decode_pcm(&encoded).unwrap();
    assert_eq!(decoded.len(), 160);
}

#[test]
fn codec2_refuses_what_it_cannot_read_or_write() {
    let mut codec = Codec2Codec::new(CodecProfile::Codec2_3200);
    assert_eq!(codec.decode_pcm(&[]), Err(CodecError::EmptyFrame));
    assert_eq!(
        codec.decode_pcm(&[0x07, 1, 2]),
        Err(CodecError::InvalidCodec2ModeHeader(7))
    );
    assert_eq!(
        codec.decode_pcm(&[0x07]).unwrap_err().message(),
        "invalid Codec2 mode header 0x07"
    );
    assert!(matches!(
        Codec2Codec::new(CodecProfile::Codec2_700C).encode_pcm(&[0; 320]),
        Err(CodecError::Unsupported(_))
    ));
    assert_eq!(
        Codec2Codec::new(CodecProfile::Raw).encode_pcm(&[]),
        Err(CodecError::InvalidProfile(
            "Raw is not a Codec2 profile".to_string()
        ))
    );
}

#[test]
fn codec2_speech_differs_from_silence() {
    let mut codec = Codec2Codec::new(CodecProfile::Codec2_3200);
    let silent = codec.encode_pcm(&[0; 160]).unwrap();
    let mut codec = Codec2Codec::new(CodecProfile::Codec2_3200);
    let spoken = codec.encode_pcm(&voice(160, 180.0)).unwrap();
    assert_ne!(silent, spoken);
    let mut codec = Codec2Codec::new(CodecProfile::Codec2_3200);
    let decoded = codec.decode_pcm(&spoken).unwrap();
    assert!(decoded.iter().any(|sample| *sample != 0));
}

#[test]
fn mixer_sums_and_clips_frames() {
    let mut mixer = Mixer::default();
    mixer.push(1, AudioFrame::new(8_000, 1, samples(&[0.75, 0.25])).unwrap());
    mixer.push(2, AudioFrame::new(8_000, 1, samples(&[0.75, -0.5])).unwrap());

    let mixed = mixer.mix_next().unwrap().unwrap();
    assert_eq!(blend(mixed), samples(&[1.0, -0.25]));
}

#[test]
fn mixer_reports_source_backpressure() {
    let mut mixer = Mixer::default();
    mixer.set_source_max_frames(1, 2);

    assert!(mixer.can_receive(1));
    assert!(mixer.can_receive(42));
    assert_eq!(mixer.queued_frames(1), 0);

    mixer.push(1, AudioFrame::new(8_000, 1, samples(&[0.2])).unwrap());
    mixer.push(1, AudioFrame::new(8_000, 1, samples(&[0.4])).unwrap());

    assert_eq!(mixer.queued_frames(1), 2);
    assert!(!mixer.can_receive(1));
    assert!(mixer.can_receive(2));
}

#[test]
fn mixer_limits_frames_per_source() {
    let mut mixer = Mixer::default();
    mixer.set_source_max_frames(1, 2);
    mixer.push(1, AudioFrame::new(8_000, 1, samples(&[0.2])).unwrap());
    mixer.push(1, AudioFrame::new(8_000, 1, samples(&[0.4])).unwrap());
    mixer.push(1, AudioFrame::new(8_000, 1, samples(&[0.6])).unwrap());

    assert_eq!(blend(mixer.mix_next().unwrap().unwrap()), samples(&[0.4]));
    assert_eq!(blend(mixer.mix_next().unwrap().unwrap()), samples(&[0.6]));
    assert!(mixer.mix_next().unwrap().is_none());
}

#[test]
fn mixer_tightening_source_limit_updates_backpressure() {
    let mut mixer = Mixer::default();
    mixer.set_source_max_frames(1, 3);
    mixer.push(1, AudioFrame::new(8_000, 1, samples(&[0.2])).unwrap());
    mixer.push(1, AudioFrame::new(8_000, 1, samples(&[0.4])).unwrap());

    assert!(mixer.can_receive(1));

    mixer.set_source_max_frames(1, 1);

    assert_eq!(mixer.queued_frames(1), 1);
    assert!(!mixer.can_receive(1));
}

#[test]
fn mixer_tightening_source_limit_drops_oldest_frames() {
    let mut mixer = Mixer::default();
    mixer.push(1, AudioFrame::new(8_000, 1, samples(&[0.2])).unwrap());
    mixer.push(1, AudioFrame::new(8_000, 1, samples(&[0.4])).unwrap());
    mixer.push(1, AudioFrame::new(8_000, 1, samples(&[0.6])).unwrap());

    mixer.set_source_max_frames(1, 1);

    assert_eq!(blend(mixer.mix_next().unwrap().unwrap()), samples(&[0.6]));
    assert!(mixer.mix_next().unwrap().is_none());
}

struct FakeMixerSink {
    frames: Vec<AudioFrame>,
    accepting: bool,
}

impl MixerSink for FakeMixerSink {
    fn can_receive(&self) -> bool {
        self.accepting
    }

    fn handle_frame(&mut self, frame: AudioFrame) -> Result<(), AudioError> {
        self.frames.push(frame);
        Ok(())
    }
}

fn run_mixer(mixer: &mut Mixer, sink: &mut FakeMixerSink) {
    match mixer_step(mixer, sink).unwrap() {
        MixerStep::Blend { frames, .. } => {
            let sum = AudioFrame::new(
                frames[0].samplerate(),
                frames[0].channels(),
                sum_of(&frames),
            );
            sink.handle_frame(sum.unwrap()).unwrap();
        }
        MixerStep::Idle | MixerStep::Delivered => {}
    }
}

#[test]
fn mixer_runtime_drains_mixed_frames_to_sink() {
    let mut sink = FakeMixerSink {
        frames: Vec::new(),
        accepting: true,
    };
    let mut mixer = Mixer::default();
    mixer.push(1, AudioFrame::new(8_000, 1, samples(&[0.5])).unwrap());
    mixer.push(2, AudioFrame::new(8_000, 1, samples(&[0.25])).unwrap());

    for _ in 0..5 {
        run_mixer(&mut mixer, &mut sink);
    }

    assert_eq!(sink.frames.len(), 1);
    assert_eq!(sink.frames[0].samples(), samples(&[0.75]));
}

#[test]
fn mixer_runtime_respects_sink_backpressure() {
    let mut sink = FakeMixerSink {
        frames: Vec::new(),
        accepting: false,
    };
    let mut mixer = Mixer::default();
    mixer.push(1, AudioFrame::new(8_000, 1, samples(&[0.5])).unwrap());
    run_mixer(&mut mixer, &mut sink);

    assert_eq!(mixer.queued_frames(1), 1);
    assert!(sink.frames.is_empty());

    sink.accepting = true;
    run_mixer(&mut mixer, &mut sink);
    assert_eq!(mixer.queued_frames(1), 0);
    assert_eq!(sink.frames[0].samples(), samples(&[0.5]));
}

#[test]
fn frames_of_different_shapes_cannot_be_mixed() {
    let mut mixer = Mixer::default();
    mixer.push(1, AudioFrame::new(8_000, 1, samples(&[0.5])).unwrap());
    mixer.push(2, AudioFrame::new(16_000, 1, samples(&[0.5])).unwrap());
    assert_eq!(mixer.mix_next(), Err(AudioError::IncompatibleFrames));
}

#[test]
fn a_muted_mixer_gives_silence() {
    let mut mixer = Mixer::default();
    mixer.mute(true);
    mixer.push(1, AudioFrame::new(8_000, 1, samples(&[0.5, -0.5])).unwrap());
    mixer.push(2, AudioFrame::new(8_000, 1, samples(&[0.5, -0.5])).unwrap());
    assert_eq!(
        blend(mixer.mix_next().unwrap().unwrap()),
        samples(&[0.0, 0.0])
    );
    mixer.mute(false);
    mixer.set_gain_db(gain(6.0));
    mixer.push(1, AudioFrame::new(8_000, 1, samples(&[0.1])).unwrap());
    assert!(matches!(
        mixer.mix_next(),
        Ok(Some(MixedFrame::Sum { frames, gain_db })) if frames.len() == 1 && gain_db == gain(6.0)
    ));
}

#[test]
fn line_source_frame_plan_clamps_opus_to_valid_maximum() {
    let plan = plan_line_source_frame(ms(80.0), Some(CodecProfile::OpusVoiceLow), 48_000, 1).unwrap();

    assert_eq!(plan.requested_frame_ms, ms(80.0));
    assert_eq!(plan.target_frame_ms, ms(60.0));
    assert_eq!(plan.frame_count, 2_880);
    assert_eq!(plan.sample_count, 2_880);
}

#[test]
fn line_source_frame_plan_matches_python_opus_quantize_then_nearest_valid() {
    let plan = plan_line_source_frame(ms(7.0), Some(CodecProfile::OpusVoiceLow), 8_000, 1).unwrap();

    assert_eq!(plan.target_frame_ms, ms(5.0));
    assert_eq!(plan.frame_count, 40);
    assert_eq!(plan.sample_count, 40);
}

#[test]
fn line_source_frame_plan_quantizes_all_codec2_profiles_to_40ms_blocks() {
    for profile in [
        CodecProfile::Codec2_700C,
        CodecProfile::Codec2_1200,
        CodecProfile::Codec2_1300,
        CodecProfile::Codec2_1400,
        CodecProfile::Codec2_1600,
        CodecProfile::Codec2_2400,
        CodecProfile::Codec2_3200,
    ] {
        let plan = plan_line_source_frame(ms(45.0), Some(profile), 8_000, 1).unwrap();
        assert_eq!(plan.target_frame_ms, ms(80.0), "{profile:?}");
        assert_eq!(plan.frame_count, 640, "{profile:?}");
        assert_eq!(plan.sample_count, 640, "{profile:?}");
    }
}

#[test]
fn line_source_frame_plan_quantizes_codec2_to_40ms_blocks() {
    let plan = plan_line_source_frame(ms(45.0), Some(CodecProfile::Codec2_3200), 8_000, 1).unwrap();

    assert_eq!(plan.target_frame_ms, ms(80.0));
    assert_eq!(plan.frame_count, 640);
    assert_eq!(plan.sample_count, 640);
}

#[test]
fn line_source_frame_plan_leaves_unconstrained_profiles_unchanged() {
    let plan = plan_line_source_frame(ms(80.0), Some(CodecProfile::Raw), 48_000, 2).unwrap();

    assert_eq!(plan.target_frame_ms, ms(80.0));
    assert_eq!(plan.frame_count, 3_840);
    assert_eq!(plan.sample_count, 7_680);
}

#[test]
fn mixer_frame_plan_reuses_codec_target_sizing() {
    let opus = plan_mixer_frame(ms(7.0), Some(CodecProfile::OpusVoiceLow), 8_000, 1).unwrap();
    assert_eq!(opus.requested_frame_ms, ms(7.0));
    assert_eq!(opus.target_frame_ms, ms(5.0));
    assert_eq!(opus.frame_count, 40);
    assert_eq!(opus.sample_count, 40);

    let codec2 = plan_mixer_frame(ms(45.0), Some(CodecProfile::Codec2_3200), 8_000, 1).unwrap();
    assert_eq!(codec2.target_frame_ms, ms(80.0));
    assert_eq!(codec2.frame_count, 640);
}

#[test]
fn mixer_frame_plan_keeps_raw_output_unconstrained() {
    let plan = plan_mixer_frame(ms(33.0), None, 48_000, 2).unwrap();

    assert_eq!(plan.target_frame_ms, ms(33.0));
    assert_eq!(plan.frame_count, 1_584);
    assert_eq!(plan.sample_count, 3_168);
}

#[test]
fn line_source_processor_skips_before_filters() {
    let mut calls = 0;
    let mut processor = LineSourceProcessor::new(0, millis(1), 1_000, 1);
    let frame = AudioFrame::new(1_000, 1, samples(&[0.5])).unwrap();

    if processor.admit_frame(frame.samples().len()) {
        calls += 1;
    }
    assert_eq!(calls, 0);
    assert_eq!(processor.skipped_samples(), 1);

    if processor.admit_frame(frame.samples().len()) {
        calls += 1;
    }
    assert_eq!(calls, 1);
    assert_eq!(processor.frame_done(1), None);
}

#[test]
fn line_source_processor_filters_before_frame_level_ease() {
    let mut processor = LineSourceProcessor::new(millis(2), 0, 1_000, 1);
    assert_eq!(processor.ease_samples(), 2);
    let mut current_gain = 0.0_f32;

    assert!(processor.admit_frame(2));
    let muted: Vec<f32> = [-0.5_f32, -0.5]
        .iter()
        .map(|sample| (sample + 1.0) * current_gain)
        .collect();
    assert_eq!(muted, vec![0.0, 0.0]);
    let (done, all) = processor.frame_done(2).unwrap();
    current_gain = done as f32 / all as f32;
    assert_eq!(processor.processed_samples(), 2);

    assert!(processor.admit_frame(1));
    assert_eq!((-0.5 + 1.0) * current_gain, 0.5);
}

#[derive(Default)]
struct FakePlayback {
    played: std::rc::Rc<std::cell::RefCell<Vec<AudioFrame>>>,
    low_latency_requests: std::rc::Rc<std::cell::Cell<usize>>,
    fails: bool,
}

impl LinePlayback for FakePlayback {
    fn start(&mut self) -> Result<(), AudioError> {
        Ok(())
    }

    fn stop(&mut self) -> Result<(), AudioError> {
        Ok(())
    }

    fn play(&mut self, frame: AudioFrame) -> Result<(), AudioError> {
        if self.fails {
            return Err(AudioError::Stream("line is gone".to_string()));
        }
        self.played.borrow_mut().push(frame);
        Ok(())
    }

    fn enable_low_latency(&mut self) -> Result<bool, AudioError> {
        self.low_latency_requests
            .set(self.low_latency_requests.get() + 1);
        Ok(true)
    }
}

fn tone(value: f32) -> AudioFrame {
    AudioFrame::new(8_000, 1, vec![bits(value); 8]).unwrap()
}

#[test]
fn queued_line_sink_applies_backpressure_height() {
    let mut sink = QueuedLineSink::new(
        FakePlayback::default(),
        QueuedLineSinkConfig {
            samplerate: 8_000,
            channels: 1,
            max_frames: 5,
            autodigest: false,
            ..QueuedLineSinkConfig::default()
        },
    )
    .unwrap();

    assert!(sink.can_receive());
    sink.handle_frame(tone(0.1)).unwrap();
    sink.handle_frame(tone(0.2)).unwrap();

    assert_eq!(sink.queued_frames(), 2);
    assert_eq!(sink.samples_per_frame(), Some(8));
    assert_eq!(sink.frame_time(), Some(millis(1)));
    assert!(!sink.can_receive());
}

fn line(playback: FakePlayback, frame_timeout: usize) -> QueuedLineSink<FakePlayback> {
    QueuedLineSink::new(
        playback,
        QueuedLineSinkConfig {
            samplerate: 8_000,
            channels: 1,
            frame_timeout,
            ..QueuedLineSinkConfig::default()
        },
    )
    .unwrap()
}

#[test]
fn queued_line_sink_autodigests_frames() {
    let fake = FakePlayback::default();
    let played = fake.played.clone();
    let mut sink = line(fake, 100);

    sink.handle_frame(tone(0.3)).unwrap();
    assert!(sink.is_working());
    assert_eq!(sink.step(NOW), LineStep::Played);

    assert_eq!(played.borrow().len(), 1);
    assert_eq!(played.borrow()[0].samples(), [bits(0.3); 8]);
    assert_eq!(sink.stats().max_latency, millis(3));
    sink.stop(NOW).unwrap();
}

#[test]
fn queued_line_sink_stops_after_underrun_timeout() {
    let mut sink = line(FakePlayback::default(), 2);
    sink.handle_frame(tone(0.0)).unwrap();

    let mut now = NOW;
    while sink.is_running() {
        sink.step(now);
        now += millis(1);
        assert!(now < NOW + secs(1));
    }
    assert!(sink.stats().underrun_at.is_some());
    sink.stop(now).unwrap();
}

#[test]
fn queued_line_sink_can_restart_after_stop() {
    let fake = FakePlayback::default();
    let played = fake.played.clone();
    let mut sink = line(fake, 100);

    sink.handle_frame(tone(0.1)).unwrap();
    sink.step(NOW);
    assert_eq!(played.borrow().len(), 1);
    sink.stop(NOW).unwrap();

    sink.handle_frame(tone(0.2)).unwrap();
    sink.step(NOW);
    assert_eq!(played.borrow().len(), 2);
    sink.stop(NOW).unwrap();
}

#[test]
fn queued_line_sink_enables_low_latency_at_runtime() {
    let fake = FakePlayback::default();
    let requests = fake.low_latency_requests.clone();
    let mut sink = line(fake, 100);

    sink.handle_frame(tone(0.0)).unwrap();
    sink.enable_low_latency();
    sink.step(NOW);

    assert_eq!(requests.get(), 1);
    assert!(sink.stats().low_latency_enabled);
    sink.stop(NOW).unwrap();
}

#[test]
fn queued_line_sink_tells_why_playing_failed() {
    let mut sink = line(
        FakePlayback {
            fails: true,
            ..FakePlayback::default()
        },
        100,
    );
    sink.handle_frame(tone(0.0)).unwrap();
    assert_eq!(sink.step(NOW), LineStep::Stopped);
    assert!(sink.stop(NOW).is_err());
}

#[test]
fn telephone_rejects_blocked_callers_and_emits_busy() {
    let blocked = [0x42; 16];
    let mut config = TelephoneConfig::default();
    config.blocked_callers.insert(blocked);
    let mut telephone = Telephone::new(config);

    assert!(!telephone.begin_incoming_call(blocked, NOW));
    assert_eq!(telephone.state(), CallState::Available);
    assert!(matches!(
        telephone.take_events()[0],
        CallEvent::Busy { .. }
    ));
}

#[test]
fn telephone_follows_basic_incoming_flow() {
    let caller = [0x11; 16];
    let mut telephone = Telephone::new(TelephoneConfig::default());

    assert!(telephone.begin_incoming_call(caller, NOW));
    assert_eq!(telephone.state(), CallState::Ringing);
    assert!(telephone.answer(NOW));
    assert_eq!(telephone.state(), CallState::Connecting);
    assert!(telephone.establish());
    assert_eq!(telephone.state(), CallState::Established);
    telephone.hangup();
    assert_eq!(telephone.state(), CallState::Available);
}

#[test]
fn telephone_incoming_event_order_matches_call_flow() {
    let caller = [0x18; 16];
    let mut telephone = Telephone::new(TelephoneConfig::default());

    assert!(telephone.begin_incoming_call(caller, NOW));
    assert!(telephone.answer(NOW));
    assert!(telephone.establish());

    let events = telephone.take_events();
    assert_eq!(
        events
            .iter()
            .filter_map(|event| match event {
                CallEvent::StateChanged(state) => Some(*state),
                _ => None,
            })
            .collect::<Vec<_>>(),
        vec![
            CallState::Ringing,
            CallState::Connecting,
            CallState::Established
        ]
    );
    assert!(matches!(
        events.get(1),
        Some(CallEvent::IncomingCall { identity_hash })
            if *identity_hash == caller
    ));
    assert!(matches!(
        events.last(),
        Some(CallEvent::CallEstablished { identity_hash })
            if *identity_hash == caller
    ));
}

#[test]
fn telephone_outgoing_event_order_matches_call_flow() {
    let remote = [0x19; 16];
    let mut telephone = Telephone::new(TelephoneConfig::default());

    assert!(telephone.begin_outgoing_call(remote, NOW));
    telephone.apply_signal(Signal::Code(SignalCode::Ringing), NOW);
    telephone.apply_signal(Signal::Code(SignalCode::Connecting), NOW);
    telephone.apply_signal(Signal::Code(SignalCode::Established), NOW);

    let events = telephone.take_events();
    assert_eq!(
        events
            .iter()
            .filter_map(|event| match event {
                CallEvent::StateChanged(state) => Some(*state),
                _ => None,
            })
            .collect::<Vec<_>>(),
        vec![
            CallState::Calling,
            CallState::Ringing,
            CallState::Connecting,
            CallState::Established
        ]
    );
    assert!(matches!(
        events.last(),
        Some(CallEvent::CallEstablished { identity_hash })
            if *identity_hash == remote
    ));
}

#[test]
fn telephone_cannot_establish_unanswered_incoming_call() {
    let caller = [0x17; 16];
    let mut telephone = Telephone::new(TelephoneConfig::default());

    assert!(telephone.begin_incoming_call(caller, NOW));
    assert!(!telephone.establish());

    assert_eq!(telephone.state(), CallState::Ringing);
    let events = telephone.take_events();
    assert!(!events
        .iter()
        .any(|event| matches!(event, CallEvent::CallEstablished { .. })));
}

#[test]
fn telephone_idle_hangup_is_noop() {
    let mut telephone = Telephone::new(TelephoneConfig::default());

    telephone.hangup();

    assert_eq!(telephone.state(), CallState::Available);
    assert!(telephone.take_events().is_empty());
}

#[test]
fn telephone_hangup_rejects_ringing_incoming_call() {
    let caller = [0x12; 16];
    let mut telephone = Telephone::new(TelephoneConfig::default());

    assert!(telephone.begin_incoming_call(caller, NOW));
    telephone.hangup();

    assert_eq!(telephone.state(), CallState::Available);
    let events = telephone.take_events();
    assert!(events.iter().any(|event| matches!(
        event,
        CallEvent::Rejected {
            identity_hash: Some(identity)
        } if *identity == caller
    )));
    assert!(!events.iter().any(|event| matches!(
        event,
        CallEvent::CallEnded {
            identity_hash: Some(identity)
        } if *identity == caller
    )));
}

#[test]
fn telephone_ignores_idle_profile_signalling() {
    let mut telephone = Telephone::new(TelephoneConfig::default());

    telephone.apply_signal(Signal::PreferredProfile(CallProfile::LowLatency), NOW);

    assert_eq!(telephone.active_profile(), CallProfile::DEFAULT);
    let events = telephone.take_events();
    assert!(!events
        .iter()
        .any(|event| matches!(event, CallEvent::ProfileChanged(_))));
}

#[test]
fn telephone_applies_active_profile_signalling_without_state_change() {
    let remote = [0x14; 16];
    let mut telephone = Telephone::new(TelephoneConfig::default());

    assert!(telephone.begin_outgoing_call(remote, NOW));
    telephone.apply_signal(Signal::PreferredProfile(CallProfile::LowLatency), NOW);

    assert_eq!(telephone.state(), CallState::Calling);
    assert_eq!(telephone.active_profile(), CallProfile::LowLatency);
    let events = telephone.take_events();
    assert_eq!(
        events
            .iter()
            .filter(|event| matches!(event, CallEvent::ProfileChanged(_)))
            .count(),
        1
    );
}

#[test]
fn telephone_suppresses_duplicate_profile_signalling() {
    let remote = [0x15; 16];
    let mut telephone = Telephone::new(TelephoneConfig::default());

    assert!(telephone.begin_outgoing_call(remote, NOW));
    telephone.apply_signal(Signal::PreferredProfile(CallProfile::LowLatency), NOW);
    telephone.apply_signal(Signal::PreferredProfile(CallProfile::LowLatency), NOW);

    assert_eq!(telephone.active_profile(), CallProfile::LowLatency);
    let events = telephone.take_events();
    assert_eq!(
        events
            .iter()
            .filter(|event| {
                matches!(
                    event,
                    CallEvent::ProfileChanged(CallProfile::LowLatency)
                )
            })
            .count(),
        1
    );
}

#[test]
fn telephone_established_profile_signal_keeps_call_established() {
    let remote = [0x16; 16];
    let mut telephone = Telephone::new(TelephoneConfig::default());

    assert!(telephone.begin_outgoing_call(remote, NOW));
    assert!(telephone.establish());
    telephone.apply_signal(Signal::PreferredProfile(CallProfile::UltraLowLatency), NOW);

    assert_eq!(telephone.state(), CallState::Established);
    assert_eq!(telephone.active_profile(), CallProfile::UltraLowLatency);
    let events = telephone.take_events();
    assert!(events.iter().any(|event| matches!(
        event,
        CallEvent::ProfileChanged(CallProfile::UltraLowLatency)
    )));
    assert_eq!(
        events
            .iter()
            .filter(|event| matches!(event, CallEvent::StateChanged(_)))
            .count(),
        2
    );
}

#[test]
fn telephone_ignores_idle_status_signalling() {
    let mut telephone = Telephone::new(TelephoneConfig::default());

    telephone.apply_signal(Signal::Code(SignalCode::Available), NOW);
    telephone.apply_signal(Signal::Code(SignalCode::Established), NOW);

    assert_eq!(telephone.state(), CallState::Available);
    let events = telephone.take_events();
    assert!(!events.iter().any(|event| matches!(
        event,
        CallEvent::StateChanged(_)
            | CallEvent::CallEstablished { .. }
            | CallEvent::CallEnded { .. }
    )));
}

#[test]
fn telephone_ignores_status_signalling_before_incoming_answer() {
    let caller = [0x13; 16];
    let mut telephone = Telephone::new(TelephoneConfig::default());

    assert!(telephone.begin_incoming_call(caller, NOW));
    telephone.apply_signal(Signal::Code(SignalCode::Established), NOW);
    telephone.apply_signal(Signal::Code(SignalCode::Busy), NOW);

    assert_eq!(telephone.state(), CallState::Ringing);
    let events = telephone.take_events();
    assert!(!events.iter().any(|event| matches!(
        event,
        CallEvent::CallEstablished { .. }
            | CallEvent::Busy { .. }
            | CallEvent::CallEnded { .. }
    )));
}

#[test]
fn telephone_selects_outgoing_profile_preference() {
    let remote = [0x22; 16];
    let mut telephone = Telephone::new(TelephoneConfig::default());

    assert!(telephone.begin_outgoing_call_with_profile(remote, Some(CallProfile::HighQuality), NOW));

    assert_eq!(telephone.active_profile(), CallProfile::HighQuality);
    assert!(telephone.take_events().iter().any(|event| matches!(
        event,
        CallEvent::ProfileChanged(CallProfile::HighQuality)
    )));
}

#[test]
fn telephone_outgoing_signalling_follows_python_order() {
    let remote = [0x23; 16];
    let mut telephone = Telephone::new(TelephoneConfig::default());

    assert!(telephone.begin_outgoing_call(remote, NOW));
    assert_eq!(telephone.state(), CallState::Calling);

    telephone.apply_signal(Signal::Code(SignalCode::Available), NOW);
    assert_eq!(telephone.state(), CallState::Calling);

    telephone.apply_signal(Signal::Code(SignalCode::Ringing), NOW);
    assert_eq!(telephone.state(), CallState::Ringing);

    telephone.apply_signal(Signal::Code(SignalCode::Connecting), NOW);
    assert_eq!(telephone.state(), CallState::Connecting);

    telephone.apply_signal(Signal::Code(SignalCode::Established), NOW);
    assert_eq!(telephone.state(), CallState::Established);

    let events = telephone.take_events();
    assert!(events.iter().any(|event| matches!(
        event,
        CallEvent::CallEstablished { identity_hash } if *identity_hash == remote
    )));
}

#[test]
fn telephone_low_latency_output_setting_emits_change() {
    let mut telephone = Telephone::new(TelephoneConfig::default());

    telephone.set_low_latency_output(true);

    assert!(telephone.low_latency_output());
    assert!(matches!(
        telephone.take_events()[0],
        CallEvent::LowLatencyOutputChanged(true)
    ));
}

#[test]
fn telephone_updates_audio_control_settings() {
    let mut telephone = Telephone::new(TelephoneConfig::default());

    telephone.set_receive_gain_db(gain(3.0));
    telephone.set_transmit_gain_db(gain(-2.5));
    telephone.disable_agc(true);
    telephone.mute_receive(true);
    telephone.mute_transmit(true);
    telephone.set_connect_timeout(secs(2));
    telephone.set_announce_interval(secs(600));
    telephone.set_busy_tone_duration(0);
    telephone.set_transmit_start_skip(millis(10));
    telephone.set_transmit_start_ease_in(millis(20));

    assert_eq!(telephone.receive_gain_db(), gain(3.0));
    assert_eq!(telephone.transmit_gain_db(), gain(-2.5));
    assert!(!telephone.use_agc());
    assert!(telephone.receive_muted());
    assert!(telephone.transmit_muted());
    assert_eq!(telephone.config().connect_time, secs(2));
    assert_eq!(
        telephone.config().announce_interval,
        secs(600)
    );
    assert_eq!(telephone.busy_tone_duration(), 0);
    assert_eq!(telephone.transmit_start_skip(), millis(10));
    assert_eq!(
        telephone.transmit_start_ease_in(),
        millis(20)
    );

    let events = telephone.take_events();
    assert!(events.contains(&CallEvent::ReceiveGainChanged(gain(3.0))));
    assert!(events.contains(&CallEvent::TransmitGainChanged(gain(-2.5))));
    assert!(events.contains(&CallEvent::AgcChanged(false)));
    assert!(events.contains(&CallEvent::ReceiveMutedChanged(true)));
    assert!(events.contains(&CallEvent::TransmitMutedChanged(true)));
}

#[test]
fn telephone_announce_interval_matches_upstream_minimum() {
    let mut telephone = Telephone::new(TelephoneConfig::default());

    telephone.set_announce_interval(secs(1));

    assert_eq!(
        telephone.config().announce_interval,
        MIN_ANNOUNCE_INTERVAL
    );
}

#[test]
fn telephone_device_helpers_filter_audio_devices() {
    let devices = [
        device("Desk Mic", AudioDeviceKind::Input, false),
        device("Speaker", AudioDeviceKind::Output, true),
        device("Headset", AudioDeviceKind::Input, true),
        device("Bell", AudioDeviceKind::Output, false),
    ];
    let outputs = Telephone::available_outputs(&devices);
    assert!(outputs
        .iter()
        .all(|device| device.kind == AudioDeviceKind::Output));
    assert_eq!(outputs.len(), 2);
    let inputs = Telephone::available_inputs(&devices);
    assert!(inputs
        .iter()
        .all(|device| device.kind == AudioDeviceKind::Input));
    assert_eq!(inputs.len(), 2);

    assert_eq!(Telephone::default_output(&devices).unwrap().name, "Speaker");
    assert_eq!(Telephone::default_input(&devices).unwrap().name, "Headset");
    assert_eq!(Telephone::default_input(&devices[3..]), None);
}

#[test]
fn telephone_busy_signal_clears_pending_timeout() {
    let remote = [0x24; 16];
    let config = TelephoneConfig {
        wait_time: 0,
        ..TelephoneConfig::default()
    };
    let mut telephone = Telephone::new(config);

    assert!(telephone.begin_outgoing_call(remote, NOW));
    telephone.apply_signal(Signal::Code(SignalCode::Busy), NOW);
    telephone.tick(NOW);

    assert_eq!(telephone.state(), CallState::Available);
    let events = telephone.take_events();
    assert!(events.iter().any(|event| matches!(
        event,
        CallEvent::Busy {
            identity_hash: Some(identity)
        } if *identity == remote
    )));
    assert!(!events
        .iter()
        .any(|event| matches!(event, CallEvent::TimedOut { .. })));
}

#[test]
fn telephone_hangup_resets_mute_state() {
    let remote = [0x25; 16];
    let mut telephone = Telephone::new(TelephoneConfig::default());
    assert!(telephone.begin_outgoing_call(remote, NOW));
    telephone.mute_receive(true);
    telephone.mute_transmit(true);

    telephone.hangup();

    assert!(!telephone.receive_muted());
    assert!(!telephone.transmit_muted());
    let events = telephone.take_events();
    assert!(events.contains(&CallEvent::ReceiveMutedChanged(false)));
    assert!(events.contains(&CallEvent::TransmitMutedChanged(false)));
}

#[test]
fn telephone_hangup_resets_active_profile_to_default() {
    let remote = [0x26; 16];
    let mut telephone = Telephone::new(TelephoneConfig::default());

    assert!(telephone.begin_outgoing_call(remote, NOW));
    telephone.apply_signal(Signal::PreferredProfile(CallProfile::UltraLowLatency), NOW);
    assert_eq!(telephone.active_profile(), CallProfile::UltraLowLatency);

    telephone.hangup();

    assert_eq!(telephone.state(), CallState::Available);
    assert_eq!(telephone.active_profile(), CallProfile::DEFAULT);
}

#[test]
fn telephone_reject_resets_active_profile_to_default() {
    let caller = [0x27; 16];
    let mut telephone = Telephone::new(TelephoneConfig::default());

    assert!(telephone.begin_incoming_call(caller, NOW));
    telephone.apply_signal(Signal::PreferredProfile(CallProfile::LowLatency), NOW);
    assert_eq!(telephone.active_profile(), CallProfile::LowLatency);

    telephone.reject();

    assert_eq!(telephone.state(), CallState::Available);
    assert_eq!(telephone.active_profile(), CallProfile::DEFAULT);
}

#[test]
fn caller_policy_list_allows_only_members() {
    let allowed = [0x01; 16];
    let denied = [0x02; 16];
    let mut set = IdentitySet::new();
    set.insert(allowed);
    let policy = CallerPolicy::List(set);
    assert!(policy.allows(&allowed));
    assert!(!policy.allows(&denied));
}

#[test]
fn telephone_busy_signal_returns_to_available() {
    let remote = [0x33; 16];
    let mut telephone = Telephone::new(TelephoneConfig::default());
    assert!(telephone.begin_outgoing_call(remote, NOW));
    telephone.apply_signal(Signal::Code(SignalCode::Busy), NOW);
    assert_eq!(telephone.state(), CallState::Available);
}

#[test]
fn telephone_external_busy_blocks_incoming_calls() {
    let caller = [0x44; 16];
    let mut telephone = Telephone::new(TelephoneConfig::default());
    telephone.set_busy(true);

    assert!(!telephone.begin_incoming_call(caller, NOW));
    assert_eq!(telephone.state(), CallState::Available);
    assert!(matches!(
        telephone.take_events()[0],
        CallEvent::Busy {
            identity_hash: Some(identity)
        } if identity == caller
    ));
}

#[test]
fn telephone_tick_times_out_pending_call() {
    let remote = [0x55; 16];
    let config = TelephoneConfig {
        wait_time: 0,
        ..TelephoneConfig::default()
    };
    let mut telephone = Telephone::new(config);

    assert!(telephone.begin_outgoing_call(remote, NOW));
    telephone.tick(NOW);
    assert_eq!(telephone.state(), CallState::Available);
    assert!(telephone.take_events().iter().any(|event| matches!(event, CallEvent::TimedOut { .. })));
}

#[test]
fn telephone_tick_auto_answers_ringing_call() {
    let caller = [0x66; 16];
    let config = TelephoneConfig {
        auto_answer_after: Some(0),
        ..TelephoneConfig::default()
    };
    let mut telephone = Telephone::new(config);

    assert!(telephone.begin_incoming_call(caller, NOW));
    telephone.tick(NOW);
    assert_eq!(telephone.state(), CallState::Connecting);
}

#[test]
fn raw_frames_of_every_depth_come_back() {
    let frame = AudioFrame::new(48_000, 2, samples(&[0.0, 0.5, -0.25, 1.0])).unwrap();
    for depth in [RawBitDepth::Float16, RawBitDepth::Float32, RawBitDepth::Float64] {
        let mut codec = RawCodec::new(depth);
        let encoded = codec.encode(&frame).unwrap();
        assert_eq!(codec.decode(&encoded, 48_000).unwrap(), frame);
    }
    let mut codec = RawCodec::new(RawBitDepth::Float128);
    assert!(codec.encode(&frame).is_err());
    assert_eq!(codec.decode(&[], 48_000), Err(CodecError::EmptyFrame));
    assert_eq!(RawCodec::default().kind(), CodecKind::Raw);
    assert_eq!(NullCodec.kind(), CodecKind::Null);
}

#[test]
fn numbers_keep_their_value_in_other_widths() {
    for value in [0.0_f32, -0.0, 1.0, -2.5, 65504.0, 6.1035156e-5, 5.9604645e-8, f32::INFINITY] {
        let half = narrow_to_half(value.to_bits());
        assert_eq!(widen_half(half), value.to_bits(), "{value}");
    }
    assert_eq!(narrow_to_half(1.0e6_f32.to_bits()), 0x7c00);
    for value in [0.0_f32, 0.1, -3.25, 1.0e-40, f32::MAX, f32::NEG_INFINITY] {
        let double = widen_to_double(value.to_bits());
        assert_eq!(double, (value as f64).to_bits(), "{value}");
        assert_eq!(narrow_double(double), value.to_bits(), "{value}");
    }
    assert_eq!(narrow_double(0.1_f64.to_bits()), 0.1_f32.to_bits());
    assert_eq!(narrow_double(1.0e300_f64.to_bits()), f32::INFINITY.to_bits());
}

#[test]
fn samples_are_limited() {
    assert_eq!(limit_sample(bits(1.5)), bits(1.0));
    assert_eq!(limit_sample(bits(-7.0)), bits(-1.0));
    assert_eq!(limit_sample(bits(0.25)), bits(0.25));
}

#[test]
fn frames_must_have_a_format() {
    assert_eq!(
        AudioFrame::new(0, 1, Vec::new()),
        Err(AudioError::InvalidSamplerate(0))
    );
    assert_eq!(
        AudioFrame::new(8_000, 0, Vec::new()),
        Err(AudioError::InvalidChannels(0))
    );
    assert!(AudioFrame::new(8_000, 2, samples(&[0.0])).is_err());
    let silence = AudioFrame::silence(8_000, 2, 3).unwrap();
    assert_eq!(silence.samples(), [bits(0.0); 6]);
    let louder = silence.map_samples(|_| bits(2.0));
    assert_eq!(louder.clipped().samples(), [bits(1.0); 6]);
}

#[test]
fn opus_frames_are_planned() {
    let codec = OpusCodec::new(CodecProfile::OpusVoiceLow);
    let frame = AudioFrame::new(48_000, 2, vec![bits(0.0); 960 * 2]).unwrap();
    let plan = codec.plan_encode(&frame).unwrap();
    assert_eq!((plan.samplerate, plan.channels), (8_000, 1));
    assert_eq!(plan.sample_count, 160);
    assert_eq!(plan.max_frame_bytes, 15);
    assert_eq!(codec.plan_decode(&[], 8_000), Err(CodecError::EmptyFrame));
    assert_eq!(
        codec.plan_decode(&[1], 44_100),
        Err(CodecError::InvalidOpusSamplerate(44_100))
    );
    assert_eq!(
        codec.plan_decode(&[1], 8_000),
        Ok(OpusDecodePlan {
            samplerate: 8_000,
            channels: 1
        })
    );
    assert!(matches!(
        OpusCodec::new(CodecProfile::Raw).plan_encode(&frame),
        Err(CodecError::InvalidProfile(_))
    ));
}

#[test]
fn tone_frames_are_planned_for_a_codec() {
    let plan = plan_tone_frame(7, CodecProfile::OpusVoiceLow, 2).unwrap();
    assert_eq!((plan.samplerate, plan.channels), (8_000, 1));
    assert_eq!(plan.frame_count, 40);
    let plan = plan_tone_frame(45, CodecProfile::Codec2_3200, 2).unwrap();
    assert_eq!((plan.samplerate, plan.channels), (8_000, 1));
    assert_eq!(plan.frame_count, 640);
    assert_eq!(tone_frame_samples(8_000, 20), 160);
}

#[test]
fn devices_are_selected_by_name() {
    let devices = [
        device("Desk Mic", AudioDeviceKind::Input, false),
        device("Headset", AudioDeviceKind::Input, true),
        device("Headset", AudioDeviceKind::Output, true),
    ];
    let select = |name| {
        select_audio_device_info(&devices, AudioDeviceKind::Input, name).map(|device| device.name)
    };
    assert_eq!(select(Some("Mic")), Some("Desk Mic".to_string()));
    assert_eq!(select(Some("DMc")), Some("Desk Mic".to_string()));
    assert_eq!(select(Some("other")), Some("Headset".to_string()));
    assert_eq!(select(None), Some("Headset".to_string()));
    assert!(select_audio_device_info(&[], AudioDeviceKind::Input, None).is_none());
    let names = ["Desk Mic".to_string(), "Headset".to_string()];
    assert_eq!(preferred_device(&names, Some("Head")), Some(1));
    assert_eq!(preferred_device(&names, Some("other")), None);
    assert_eq!(preferred_device(&names, None), None);
}

#[test]
fn devices_are_listed() {
    let mut listed = device("Desk Mic", AudioDeviceKind::Input, true);
    assert_eq!(device_line(&listed), "  [input default] Desk Mic");
    listed.default_config = Some(AudioStreamConfigInfo {
        channels: 2,
        sample_format: "f32".to_string(),
        min_sample_rate: 44_100,
        max_sample_rate: 48_000,
        buffer_size: None,
    });
    listed.is_default = false;
    assert_eq!(
        device_line(&listed),
        "  [input] Desk Mic - 2 ch, 44100 Hz, f32"
    );
}

#[test]
fn streams_are_planned_for_devices() {
    let plan = plan_input_stream(&CpalInputConfig::default(), 48_000, 2).unwrap();
    assert_eq!(plan.frame_count, 3_840);
    assert_eq!(plan.sample_count, 7_680);
    assert_eq!(
        plan_input_stream(&CpalInputConfig::default(), 48_000, 300),
        Err(AudioError::InvalidChannels(255))
    );
    let plan = plan_output_stream(&CpalOutputConfig::default(), 48_000, 2).unwrap();
    assert_eq!(plan.max_frames, 6);
    assert_eq!((plan.samplerate, plan.channels), (48_000, 2));
    assert_eq!(
        plan_output_stream(&CpalOutputConfig::default(), 48_000, 256),
        Err(AudioError::InvalidChannels(255))
    );
}

#[test]
fn recorded_samples_become_frames() {
    let plan = plan_line_source_frame(ms(2.0), None, 1_000, 1).unwrap();
    let mut collector = FrameCollector::new(plan);
    assert!(collector.collect(&samples(&[0.1])).is_empty());
    let frames = collector.collect(&samples(&[0.2, 0.3, 0.4, 0.5]));
    assert_eq!(frames.len(), 2);
    assert_eq!(frames[0].samples(), samples(&[0.1, 0.2]));
    assert_eq!(frames[1].samples(), samples(&[0.3, 0.4]));
    assert_eq!(
        collector.collect(&samples(&[0.6]))[0].samples(),
        samples(&[0.5, 0.6])
    );
}

#[test]
fn queued_frames_are_played_in_order() {
    let mut player = FramePlayer::new(2);
    for value in [0.1, 0.2, 0.3] {
        player.push(AudioFrame::new(8_000, 1, samples(&[value, value])).unwrap());
    }
    assert_eq!(player.fill(3, 1), samples(&[0.2, 0.2, 0.3]));
    assert_eq!(player.fill(3, 2), samples(&[0.3, 0.0, 0.0]));
}

#[test]
fn time_ends_what_nobody_answers() {
    let mut telephone = Telephone::new(TelephoneConfig::default());
    assert!(telephone.begin_incoming_call([0x31; 16], NOW));
    telephone.tick(NOW + secs(59));
    assert_eq!(telephone.state(), CallState::Ringing);
    telephone.tick(NOW + secs(60));
    assert_eq!(telephone.state(), CallState::Available);
    assert!(telephone
        .take_events()
        .iter()
        .any(|event| matches!(event, CallEvent::TimedOut { .. })));
}

#[test]
fn nobody_may_call_where_nobody_is_allowed() {
    assert!(!CallerPolicy::Nobody.allows(&[1; 16]));
    assert!(CallerPolicy::All.allows(&[1; 16]));
    let mut set = IdentitySet::new();
    assert!(set.insert([1; 16]));
    assert!(!set.insert([1; 16]));
    assert_eq!(set.len(), 1);
    assert!(set.remove(&[1; 16]));
    assert!(set.is_empty());
}

#[test]
fn a_line_that_fell_behind_catches_up() {
    let fake = FakePlayback::default();
    let played = fake.played.clone();
    let mut sink = QueuedLineSink::new(
        fake,
        QueuedLineSinkConfig {
            samplerate: 8_000,
            channels: 1,
            max_frames: 6,
            autodigest: false,
            ..QueuedLineSinkConfig::default()
        },
    )
    .unwrap();
    for value in [0.1, 0.2, 0.3, 0.4, 0.5, 0.6, 0.7] {
        sink.handle_frame(tone(value)).unwrap();
    }
    assert_eq!(sink.queued_frames(), 6);

    sink.start().unwrap();
    while sink.queued_frames() > 0 {
        assert_eq!(sink.step(NOW), LineStep::Played);
    }
    let heard: Vec<Sample> = played.borrow().iter().map(|frame| frame.samples()[0]).collect();
    assert_eq!(heard, samples(&[0.2, 0.4, 0.5, 0.6, 0.7]));
}

#[test]
fn a_source_keeps_its_newest_frames() {
    let mut mixer = Mixer::default();
    mixer.set_source_max_frames(7, 2);
    for value in [0.1, 0.2, 0.3] {
        mixer.push(7, tone(value));
    }
    assert_eq!(mixer.queued_frames(7), 2);
    assert!(!mixer.can_receive(7));
    match mixer.mix_next().unwrap() {
        Some(MixedFrame::Ready(frame)) => assert_eq!(frame, tone(0.2)),
        other => panic!("unexpected {:?}", other),
    }
    assert_eq!(mixer.queued_frames(7), 1);

    mixer.set_source_max_frames(7, 0);
    mixer.push(7, tone(0.4));
    assert_eq!(mixer.queued_frames(7), 1);
}

#[test]
fn clipping_twice_is_clipping_once() {
    let frame = AudioFrame::new(8_000, 1, samples(&[1.5, -0.5, -7.0, 0.25])).unwrap();
    let once = frame.clipped();
    assert_eq!(once.samples(), samples(&[1.0, -0.5, -1.0, 0.25]));
    assert_eq!(once.clone().clipped(), once);
}

#[test]
fn a_widened_frame_is_narrowed_back() {
    let frame = AudioFrame::new(8_000, 2, samples(&[0.1, 0.2, 0.3, 0.4])).unwrap();
    let wide = frame.with_channels(3).unwrap();
    assert_eq!(wide.samples(), samples(&[0.1, 0.2, 0.2, 0.3, 0.4, 0.4]));
    assert_eq!(wide.with_channels(2).unwrap(), frame);
    assert_eq!(frame.with_channels(0), Err(AudioError::InvalidChannels(0)));
}

#[test]
fn a_call_waits_until_its_deadline() {
    let mut telephone = Telephone::new(TelephoneConfig::default());
    let wait_time = TelephoneConfig::default().wait_time;
    assert!(telephone.begin_outgoing_call([0x21; 16], NOW));
    telephone.tick(NOW + wait_time - 1);
    assert_eq!(telephone.state(), CallState::Calling);
    telephone.tick(NOW + wait_time);
    assert_eq!(telephone.state(), CallState::Available);
    telephone.tick(NOW + 10 * wait_time);
    assert_eq!(telephone.state(), CallState::Available);
}

#[test]
fn a_sample_can_be_set() {
    let mut frame = AudioFrame::new(8_000, 1, samples(&[0.0, 0.5])).unwrap();
    frame.set_sample(1, bits(-0.25));
    assert_eq!(frame.samples(), samples(&[0.0, -0.25]));
}

#[test]
fn frame_lengths_are_rounded_as_doubles_are() {
    assert_eq!(span_of_samples(8, 8_000), 1_000_000);
    assert_eq!(span_of_samples(0, 8_000), 0);
    assert_eq!(span_of_samples(1, 48_000), 20_833);
    assert_eq!(span_of_samples(2, 48_000), 41_667);
    assert_eq!(span_of_samples(1, 128_000), 7_813);
    for (samples, samplerate) in [(1, 44_100), (7, 96_000), (960, 48_000), (1, 64_000), (3, 3)] {
        let span = std::time::Duration::from_secs_f64(samples as f64 / f64::from(samplerate));
        assert_eq!(
            u128::from(span_of_samples(samples, samplerate)),
            span.as_nanos()
        );
    }
}

struct StubbornPlayback {
    starts: bool,
    stops: bool,
}

impl LinePlayback for StubbornPlayback {
    fn start(&mut self) -> Result<(), AudioError> {
        if self.starts {
            Ok(())
        } else {
            Err(AudioError::Device("no start".to_string()))
        }
    }

    fn stop(&mut self) -> Result<(), AudioError> {
        if self.stops {
            Ok(())
        } else {
            Err(AudioError::Device("no stop".to_string()))
        }
    }

    fn play(&mut self, _frame: AudioFrame) -> Result<(), AudioError> {
        Ok(())
    }

    fn enable_low_latency(&mut self) -> Result<bool, AudioError> {
        Err(AudioError::Device("no low latency".to_string()))
    }
}

fn stubborn_line(starts: bool, stops: bool) -> QueuedLineSink<StubbornPlayback> {
    QueuedLineSink::new(
        StubbornPlayback { starts, stops },
        QueuedLineSinkConfig {
            samplerate: 8_000,
            channels: 1,
            autodigest: false,
            ..QueuedLineSinkConfig::default()
        },
    )
    .unwrap()
}

#[test]
fn errors_of_a_playback_are_told() {
    let mut sink = stubborn_line(false, true);
    assert_eq!(sink.start(), Err(AudioError::Device("no start".to_string())));
    assert!(!sink.is_working() && !sink.is_running());
    assert_eq!(
        sink.start(),
        Err(AudioError::Stream("queued line sink backend is unavailable".to_string()))
    );

    let mut sink = stubborn_line(true, false);
    sink.start().unwrap();
    assert_eq!(sink.stop(NOW), Err(AudioError::Device("no stop".to_string())));

    let mut sink = stubborn_line(true, true);
    sink.handle_frame(tone(0.5)).unwrap();
    sink.start().unwrap();
    sink.enable_low_latency();
    assert_eq!(sink.step(NOW), LineStep::Stopped);
    assert_eq!(
        sink.stop(NOW),
        Err(AudioError::Device("no low latency".to_string()))
    );
}

#[test]
fn a_started_line_plays_its_frame_once() {
    let fake = FakePlayback::default();
    let played = fake.played.clone();
    let mut sink = QueuedLineSink::new(
        fake,
        QueuedLineSinkConfig {
            samplerate: 8_000,
            channels: 1,
            frame_timeout: 100,
            autodigest: false,
            ..QueuedLineSinkConfig::default()
        },
    )
    .unwrap();
    sink.handle_frame(tone(0.3)).unwrap();
    assert_eq!(sink.start(), Ok(()));
    assert_eq!(sink.worker_frame_time(), Some(millis(1)));
    assert_eq!(sink.wait_time(), None);
    assert_eq!(sink.step(NOW), LineStep::Played);
    assert_eq!(sink.stats().max_latency, millis(3));
    assert_eq!(sink.wait_time(), Some(millis(1)));
    assert_eq!(sink.step(NOW), LineStep::Waited);
    assert_eq!(played.borrow().len(), 1);
    assert_eq!(played.borrow()[0].samples(), [bits(0.3); 8]);
}

struct BrokenMixerSink;

impl MixerSink for BrokenMixerSink {
    fn can_receive(&self) -> bool {
        true
    }

    fn handle_frame(&mut self, _frame: AudioFrame) -> Result<(), AudioError> {
        Err(AudioError::Stream("sink is broken".to_string()))
    }
}

#[test]
fn a_running_mixer_tells_the_error_of_its_sink() {
    let mut mixer = Mixer::default();
    mixer.push(1, tone(0.5));
    assert_eq!(
        mixer_step(&mut mixer, &mut BrokenMixerSink),
        Err(AudioError::Stream("sink is broken".to_string()))
    );
    assert_eq!(mixer.queued_frames(1), 0);
    assert_eq!(
        mixer_step(&mut mixer, &mut BrokenMixerSink),
        Ok(MixerStep::Idle)
    );
}

#[test]
fn one_codec_goes_through_all_blocks() {
    let speech: Vec<i16> = (0..640_i32).map(|i| ((i * 977) % 12_000 - 6_000) as i16).collect();
    let whole = Codec2Codec::new(CodecProfile::Codec2_3200)
        .encode_pcm(&speech)
        .unwrap();
    let mut codec = Codec2Codec::new(CodecProfile::Codec2_3200);
    let first = codec.encode_pcm(&speech[..320]).unwrap();
    let second = codec.encode_pcm(&speech[320..]).unwrap();
    assert_eq!(whole.len(), 1 + 4 * 8);
    assert_eq!(whole[1..17], first[1..]);
    assert_eq!(whole[17..], second[1..]);
}

#[test]
fn policies_are_equal_by_the_identities_they_hold() {
    let list = |hashes: &[[u8; 16]]| {
        let mut set = IdentitySet::new();
        for hash in hashes {
            set.insert(*hash);
        }
        CallerPolicy::List(set)
    };
    assert_eq!(list(&[[1; 16], [2; 16]]), list(&[[2; 16], [1; 16], [2; 16]]));
    assert_ne!(list(&[[1; 16]]), list(&[[1; 16], [2; 16]]));
    assert_ne!(list(&[]), CallerPolicy::Nobody);
    assert_eq!(CallerPolicy::All, CallerPolicy::All);

    let mut left = TelephoneConfig::default();
    let mut right = TelephoneConfig::default();
    assert_eq!(left, right);
    left.receive_gain_db = gain(-0.0);
    assert_eq!(left, right);
    left.blocked_callers.insert([7; 16]);
    assert_ne!(left, right);
    right.blocked_callers.insert([7; 16]);
    assert_eq!(left, right);
    left.allowed_callers = CallerPolicy::Nobody;
    assert_ne!(left, right);
    right.allowed_callers = CallerPolicy::Nobody;
    right.transmit_gain_db = gain(f32::NAN);
    assert_ne!(right, right.clone());
}

#[test]
fn a_line_waits_a_tenth_of_a_frame() {
    let mut sink = QueuedLineSink::new(
        FakePlayback::default(),
        QueuedLineSinkConfig {
            samplerate: 8_000,
            channels: 1,
            autodigest: false,
            ..QueuedLineSinkConfig::default()
        },
    )
    .unwrap();
    sink.handle_frame(AudioFrame::new(8_000, 1, vec![bits(0.1); 400]).unwrap()).unwrap();
    assert_eq!(sink.wait_time(), None);
    assert_eq!(sink.start(), Ok(()));
    assert_eq!(sink.worker_frame_time(), Some(millis(50)));
    assert_eq!(sink.step(NOW), LineStep::Played);
    assert_eq!(sink.wait_time(), Some(millis(5)));
}
