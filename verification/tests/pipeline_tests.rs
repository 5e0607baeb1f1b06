use lxst::mixer::{mixer_step, MixerStep};
use lxst::pipeline::{runner_step, RunnerStep};
use lxst::{
    AudioCodec, AudioError, AudioFrame, AudioSink, AudioSource, BufferedSink, BufferedSource,
    CodecKind, EncodedAudioFrame, EncodedMixerSink, Loopback, Mixer, MixerSink, Pipeline,
    PipelineError, RawBitDepth, RawCodec,
};

fn frame(values: &[f32]) -> AudioFrame {
    let samples = values.iter().map(|value| value.to_bits()).collect();
    AudioFrame::new(8_000, 1, samples).unwrap()
}

fn raw_encoded_frame(values: &[f32]) -> EncodedAudioFrame {
    let mut codec = RawCodec::new(RawBitDepth::Float32);
    EncodedAudioFrame {
        codec: CodecKind::Raw,
        samplerate: 8_000,
        channels: 1,
        payload: codec.encode(&frame(values)).unwrap(),
    }
}

#[test]
fn buffered_source_obeys_running_state() {
    let mut source = BufferedSource::new(8_000, 1).unwrap();
    source.push_frame(frame(&[0.25; 80])).unwrap();

    assert!(source.next_frame().unwrap().is_none());
    source.start();
    assert!(source.next_frame().unwrap().is_some());
    assert!(source.next_frame().unwrap().is_none());
}

#[test]
fn pipeline_encodes_source_frames_into_sink() {
    let mut source = BufferedSource::new(8_000, 1).unwrap();
    source.push_frame(frame(&[0.0, 0.5])).unwrap();
    let sink = BufferedSink::new(4);
    let mut pipeline = Pipeline::new(source, RawCodec::new(RawBitDepth::Float32), sink);

    pipeline.start();
    assert!(pipeline.process_next().unwrap());
    assert!(!pipeline.process_next().unwrap());
    assert!(pipeline.is_running());
    pipeline.stop();
    assert!(!pipeline.is_running());
    assert_eq!(
        pipeline.sink_mut().pop_frame(),
        Some(raw_encoded_frame(&[0.0, 0.5]))
    );
}

#[test]
fn buffered_sink_applies_backpressure() {
    let mut sink = BufferedSink::new(1);
    assert!(sink.can_receive());
    sink.handle_frame(EncodedAudioFrame {
        codec: CodecKind::Raw,
        samplerate: 8_000,
        channels: 1,
        payload: vec![0],
    })
    .unwrap();
    assert!(!sink.can_receive());
    assert_eq!(
        sink.handle_frame(raw_encoded_frame(&[0.0])),
        Err(PipelineError::SinkFull)
    );
}

#[test]
fn buffered_source_takes_frames_of_its_format() {
    let mut source = BufferedSource::new(16_000, 1).unwrap();
    assert_eq!(
        source.push_frame(frame(&[0.0])),
        Err(PipelineError::IncompatibleSourceFrame)
    );
    assert_eq!(source.queued_frames(), 0);
    assert!(BufferedSource::new(0, 1).is_err());
}

#[derive(Default)]
struct CollectingSink {
    frames: Vec<EncodedAudioFrame>,
}

impl AudioSink for CollectingSink {
    fn can_receive(&self) -> bool {
        true
    }

    fn handle_frame(&mut self, frame: EncodedAudioFrame) -> Result<(), PipelineError> {
        self.frames.push(frame);
        Ok(())
    }
}

#[test]
fn pipeline_runner_drains_source_frames_until_stopped() {
    let mut source = BufferedSource::new(8_000, 1).unwrap();
    source.push_frame(frame(&[0.0, 0.25])).unwrap();
    source.push_frame(frame(&[0.5, 0.75])).unwrap();
    let mut pipeline = Pipeline::new(
        source,
        RawCodec::new(RawBitDepth::Float32),
        CollectingSink::default(),
    );
    pipeline.start();

    while runner_step(&mut pipeline, false) == RunnerStep::Continue {}
    assert_eq!(pipeline.sink().frames.len(), 2);

    assert_eq!(
        runner_step(&mut pipeline, true),
        RunnerStep::Finished(Ok(()))
    );
    assert!(!pipeline.is_running());
    let frames = &pipeline.sink().frames;
    assert_eq!(frames.len(), 2);
    assert!(frames.iter().all(|frame| frame.codec == CodecKind::Raw));
}

#[test]
fn pipeline_runner_can_stop_idle_pipeline() {
    let source = BufferedSource::new(8_000, 1).unwrap();
    let mut pipeline = Pipeline::new(
        source,
        RawCodec::new(RawBitDepth::Float32),
        CollectingSink::default(),
    );
    pipeline.start();
    assert_eq!(runner_step(&mut pipeline, false), RunnerStep::Wait);
    assert!(pipeline.is_running());

    assert_eq!(
        runner_step(&mut pipeline, true),
        RunnerStep::Finished(Ok(()))
    );
    assert!(!pipeline.is_running());
    assert!(pipeline.sink().frames.is_empty());
}

#[test]
fn loopback_decodes_sink_frames_into_source_queue() {
    let original = frame(&[0.0, 0.5]);
    let mut encoder = RawCodec::new(RawBitDepth::Float32);
    let encoded = EncodedAudioFrame {
        codec: CodecKind::Raw,
        samplerate: 8_000,
        channels: 1,
        payload: encoder.encode(&original).unwrap(),
    };
    let mut loopback = Loopback::new(RawCodec::new(RawBitDepth::Float32), 8_000, 1, 2).unwrap();

    loopback.handle_frame(encoded).unwrap();
    assert_eq!(loopback.queued_frames(), 1);
    assert!(loopback.next_frame().unwrap().is_none());

    loopback.start();
    let decoded = loopback.next_frame().unwrap().unwrap();
    assert_eq!(decoded.samplerate(), 8_000);
    assert_eq!(decoded.channels(), 1);
    assert_eq!(decoded.samples(), original.samples());
    assert_eq!(loopback.queued_frames(), 0);
}

#[test]
fn loopback_drops_oldest_frame_when_full() {
    let mut loopback = Loopback::new(RawCodec::new(RawBitDepth::Float32), 8_000, 1, 1).unwrap();

    loopback.handle_frame(raw_encoded_frame(&[0.25])).unwrap();
    loopback.handle_frame(raw_encoded_frame(&[0.75])).unwrap();

    loopback.start();
    let decoded = loopback.next_frame().unwrap().unwrap();
    assert_eq!(decoded.samples(), [0.75_f32.to_bits()]);
    assert!(loopback.next_frame().unwrap().is_none());
}

#[test]
fn encoded_mixer_sink_encodes_mixed_frames() {
    let sink = CollectingSink::default();
    let mut sink = EncodedMixerSink::new(RawCodec::new(RawBitDepth::Float32), sink);

    MixerSink::handle_frame(&mut sink, frame(&[0.25, -0.5])).unwrap();

    let frames = &sink.sink().frames;
    assert_eq!(frames.len(), 1);
    assert_eq!(frames[0].codec, CodecKind::Raw);
    assert_eq!(frames[0].samplerate, 8_000);
    assert_eq!(frames[0].channels, 1);

    let mut decoder = RawCodec::new(RawBitDepth::Float32);
    let decoded = decoder
        .decode(&frames[0].payload, frames[0].samplerate)
        .unwrap();
    assert_eq!(decoded, frame(&[0.25, -0.5]));
}

#[test]
fn mixer_runtime_can_feed_encoded_sink() {
    let sink = CollectingSink::default();
    let mut sink = EncodedMixerSink::new(RawCodec::new(RawBitDepth::Float32), sink);
    let mut mixer = Mixer::default();
    mixer.push(1, frame(&[0.25]));
    mixer.push(2, frame(&[0.5]));

    match mixer_step(&mut mixer, &mut sink).unwrap() {
        MixerStep::Blend { frames, .. } => {
            let sum: f32 = frames
                .iter()
                .map(|frame| f32::from_bits(frame.samples()[0]))
                .sum();
            MixerSink::handle_frame(&mut sink, frame(&[sum])).unwrap();
        }
        other => panic!("two frames are to be added, not {other:?}"),
    }
    assert_eq!(mixer_step(&mut mixer, &mut sink), Ok(MixerStep::Idle));

    let frames = &sink.sink().frames;
    assert_eq!(frames.len(), 1);
    assert_eq!(frames[0].codec, CodecKind::Raw);
    let mut decoder = RawCodec::new(RawBitDepth::Float32);
    let decoded = decoder
        .decode(&frames[0].payload, frames[0].samplerate)
        .unwrap();
    assert_eq!(decoded, frame(&[0.75]));
}

struct GatedSink {
    accepting: bool,
    frames: Vec<EncodedAudioFrame>,
}

impl AudioSink for GatedSink {
    fn can_receive(&self) -> bool {
        self.accepting
    }

    fn handle_frame(&mut self, frame: EncodedAudioFrame) -> Result<(), PipelineError> {
        if !self.can_receive() {
            return Err(PipelineError::SinkFull);
        }
        self.frames.push(frame);
        Ok(())
    }
}

#[test]
fn encoded_mixer_sink_delegates_backpressure() {
    let sink = GatedSink {
        accepting: false,
        frames: Vec::new(),
    };
    let mut sink = EncodedMixerSink::new(RawCodec::new(RawBitDepth::Float32), sink);

    assert!(!MixerSink::can_receive(&sink));
    let refused: Result<(), AudioError> = MixerSink::handle_frame(&mut sink, frame(&[0.25]));
    assert!(refused.is_err());

    sink.sink_mut().accepting = true;
    assert!(MixerSink::can_receive(&sink));
    MixerSink::handle_frame(&mut sink, frame(&[0.25])).unwrap();
    assert_eq!(sink.sink().frames.len(), 1);
}
