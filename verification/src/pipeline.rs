//! Pipelines: a source gives frames, a codec encodes them, a sink takes them.
use crate::audio::{AudioError, AudioFrame, AudioModel};
use crate::audio_codec::{AudioCodec, CodecError};
use crate::codec::CodecKind;
use crate::mixer::MixerSink;
use crate::network::NetworkError;
use std::collections::VecDeque;
use vstd::prelude::*;

verus! {

/// An encoded frame with the format that it was encoded from.
#[derive(Debug, PartialEq, Eq)]
pub struct EncodedAudioFrame {
    pub codec: CodecKind,
    pub samplerate: u32,
    pub channels: u8,
    pub payload: Vec<u8>,
}

/// An encoded frame as a mathematical value.
#[verifier::ext_equal]
pub struct EncodedModel {
    pub codec: CodecKind,
    pub samplerate: u32,
    pub channels: u8,
    pub payload: Seq<u8>,
}

impl View for EncodedAudioFrame {
    type V = EncodedModel;

    open spec fn view(&self) -> EncodedModel {
        EncodedModel {
            codec: self.codec,
            samplerate: self.samplerate,
            channels: self.channels,
            payload: self.payload@,
        }
    }
}

impl Clone for EncodedAudioFrame {
    fn clone(&self) -> (copy: Self)
        ensures
            copy@ == self@,
    {
        let payload = self.payload.clone();
        assert(payload@ =~= self.payload@);
        EncodedAudioFrame {
            codec: self.codec,
            samplerate: self.samplerate,
            channels: self.channels,
            payload,
        }
    }
}

/// Why a pipeline cannot go on.
#[derive(Debug, Clone, PartialEq)]
pub enum PipelineError {
    Audio(AudioError),
    Codec(CodecError),
    IncompatibleSourceFrame,
    SinkFull,
    WorkerPanic,
    Synchronization(String),
    Network(NetworkError),
}

impl PipelineError {
    /// The error as text.
    pub open spec fn text(&self) -> Seq<char> {
        match self {
            PipelineError::Audio(error) => error.text(),
            PipelineError::Codec(error) => error.text(),
            PipelineError::IncompatibleSourceFrame => "source frame does not match source format"@,
            PipelineError::SinkFull => "sink buffer is full"@,
            PipelineError::WorkerPanic => "pipeline worker thread panicked"@,
            PipelineError::Synchronization(detail) => "pipeline synchronization error: "@
                + detail@,
            PipelineError::Network(error) => error.text(),
        }
    }

    /// The error as text.
    pub fn message(&self) -> (text: String)
        ensures
            text@ == self.text(),
    {
        match self {
            PipelineError::Audio(error) => error.message(),
            PipelineError::Codec(error) => error.message(),
            PipelineError::IncompatibleSourceFrame => {
                "source frame does not match source format".to_owned()
            },
            PipelineError::SinkFull => "sink buffer is full".to_owned(),
            PipelineError::WorkerPanic => "pipeline worker thread panicked".to_owned(),
            PipelineError::Synchronization(detail) => {
                "pipeline synchronization error: ".to_owned().concat(detail.as_str())
            },
            PipelineError::Network(error) => error.message(),
        }
    }
}

/// What gives frames.
pub trait AudioSource: Sized {
    /// Whether the source gives frames now.
    open spec fn running(&self) -> bool {
        arbitrary()
    }

    /// The sample rate of the frames.
    open spec fn rate(&self) -> u32 {
        arbitrary()
    }

    /// The channels of the frames.
    open spec fn channel_count(&self) -> u8 {
        arbitrary()
    }

    /// Whether starting can leave the source as `after`.
    open spec fn starts(self, after: Self) -> bool {
        true
    }

    /// Whether stopping can leave the source as `after`.
    open spec fn stops(self, after: Self) -> bool {
        true
    }

    /// Whether asking for a frame can give `outcome` and leave the source as `after`.
    open spec fn gives(self, outcome: Result<Option<AudioFrame>, PipelineError>, after: Self) -> bool {
        true
    }

    /// Lets the source give frames.
    fn start(&mut self)
        ensures
            old(self).starts(*final(self)),
    ;

    /// Lets the source give no more frames.
    fn stop(&mut self)
        ensures
            old(self).stops(*final(self)),
    ;

    /// Whether the source gives frames now.
    fn is_running(&self) -> (running: bool)
        ensures
            running == self.running(),
    ;

    /// The sample rate of the frames.
    fn samplerate(&self) -> (samplerate: u32)
        ensures
            samplerate == self.rate(),
    ;

    /// The channels of the frames.
    fn channels(&self) -> (channels: u8)
        ensures
            channels == self.channel_count(),
    ;

    /// The next frame, if there is one.
    fn next_frame(&mut self) -> (outcome: Result<Option<AudioFrame>, PipelineError>)
        ensures
            old(self).gives(outcome, *final(self)),
    ;
}

/// What takes encoded frames.
pub trait AudioSink: Sized {
    /// Whether the sink takes a frame now.
    open spec fn ready(&self) -> bool {
        arbitrary()
    }

    /// Whether handing over `frame` can give `outcome` and leave the sink as `after`.
    open spec fn takes(
        self,
        frame: EncodedModel,
        outcome: Result<(), PipelineError>,
        after: Self,
    ) -> bool {
        true
    }

    /// Whether the sink takes a frame now.
    fn can_receive(&self) -> (ready: bool)
        ensures
            ready == self.ready(),
    ;

    /// Takes a frame.
    fn handle_frame(&mut self, frame: EncodedAudioFrame) -> (outcome: Result<(), PipelineError>)
        ensures
            old(self).takes(frame@, outcome, *final(self)),
    ;
}

/// What passing on one frame comes to: a frame that the source gave is encoded, and what the
/// codec made of it is handed to the sink; the first thing that fails ends it, and what comes
/// after it is not touched.
pub open spec fn passes_frame<S: AudioSource, C: AudioCodec, K: AudioSink>(
    source: S,
    codec: C,
    sink: K,
    outcome: Result<bool, PipelineError>,
    source_after: S,
    codec_after: C,
    sink_after: K,
) -> bool {
    exists|given: Result<Option<AudioFrame>, PipelineError>|
        {
            &&& #[trigger] source.gives(given, source_after)
            &&& match given {
                Err(error) => {
                    &&& outcome == Err::<bool, PipelineError>(error)
                    &&& codec_after == codec
                    &&& sink_after == sink
                },
                Ok(None) => {
                    &&& outcome == Ok::<bool, PipelineError>(false)
                    &&& codec_after == codec
                    &&& sink_after == sink
                },
                Ok(Some(frame)) => encodes_and_hands_over(
                    frame@,
                    codec,
                    sink,
                    outcome,
                    codec_after,
                    sink_after,
                ),
            }
        }
}

/// What encoding a frame and handing it over comes to.
pub open spec fn encodes_and_hands_over<C: AudioCodec, K: AudioSink>(
    frame: AudioModel,
    codec: C,
    sink: K,
    outcome: Result<bool, PipelineError>,
    codec_after: C,
    sink_after: K,
) -> bool {
    exists|encoded: Result<Vec<u8>, CodecError>|
        {
            &&& #[trigger] codec.encodes(frame, encoded, codec_after)
            &&& match encoded {
                Err(error) => {
                    &&& outcome == Err::<bool, PipelineError>(PipelineError::Codec(error))
                    &&& sink_after == sink
                },
                Ok(payload) => {
                    let handed = EncodedModel {
                        codec: codec.family(),
                        samplerate: frame.samplerate,
                        channels: frame.channels,
                        payload: payload@,
                    };
                    match outcome {
                        Ok(passed) => passed && sink.takes(
                            handed,
                            Ok::<(), PipelineError>(()),
                            sink_after,
                        ),
                        Err(error) => sink.takes(
                            handed,
                            Err::<(), PipelineError>(error),
                            sink_after,
                        ),
                    }
                },
            }
        }
}

fn pass_frame<S: AudioSource, C: AudioCodec, K: AudioSink>(
    source: &mut S,
    codec: &mut C,
    sink: &mut K,
) -> (outcome: Result<bool, PipelineError>)
    ensures
        passes_frame(
            *old(source),
            *old(codec),
            *old(sink),
            outcome,
            *final(source),
            *final(codec),
            *final(sink),
        ),
{
    let given = source.next_frame();
    let ghost given_copy = given;
    assert(old(source).gives(given_copy, *source));
    let frame = match given {
        Ok(Some(frame)) => frame,
        Ok(None) => return Ok(false),
        Err(error) => return Err(error),
    };
    let kind = codec.kind();
    let samplerate = frame.samplerate();
    let channels = frame.channels();
    let encoded = codec.encode(&frame);
    let ghost encoded_copy = encoded;
    assert(old(codec).encodes(frame@, encoded_copy, *codec));
    let payload = match encoded {
        Ok(payload) => payload,
        Err(error) => return Err(PipelineError::Codec(error)),
    };
    let handled = sink.handle_frame(
        EncodedAudioFrame { codec: kind, samplerate, channels, payload },
    );
    let ghost handled_copy = handled;
    match handled {
        Ok(unit) => {
            assert(unit == ());
            assert(handled_copy == Ok::<(), PipelineError>(()));
            Ok(true)
        },
        Err(error) => Err(error),
    }
}

/// A source, a codec and a sink.
pub struct Pipeline<S: AudioSource, C: AudioCodec, K: AudioSink> {
    pub source: S,
    pub codec: C,
    pub sink: K,
}

impl<S: AudioSource, C: AudioCodec, K: AudioSink> Pipeline<S, C, K> {
    /// A pipeline from a source through a codec to a sink.
    pub fn new(source: S, codec: C, sink: K) -> (pipeline: Self)
        ensures
            pipeline.source == source,
            pipeline.codec == codec,
            pipeline.sink == sink,
    {
        Pipeline { source, codec, sink }
    }

    /// The source.
    pub fn source(&self) -> (source: &S)
        ensures
            *source == self.source,
    {
        &self.source
    }

    /// The source, to be changed in place.
    pub fn source_mut(&mut self) -> (source: &mut S)
        ensures
            *source == old(self).source,
            *final(self) == (Pipeline { source: *final(source), ..*old(self) }),
    {
        &mut self.source
    }

    /// The codec.
    pub fn codec(&self) -> (codec: &C)
        ensures
            *codec == self.codec,
    {
        &self.codec
    }

    /// The codec, to be changed in place.
    pub fn codec_mut(&mut self) -> (codec: &mut C)
        ensures
            *codec == old(self).codec,
            *final(self) == (Pipeline { codec: *final(codec), ..*old(self) }),
    {
        &mut self.codec
    }

    /// The sink.
    pub fn sink(&self) -> (sink: &K)
        ensures
            *sink == self.sink,
    {
        &self.sink
    }

    /// The sink, to be changed in place.
    pub fn sink_mut(&mut self) -> (sink: &mut K)
        ensures
            *sink == old(self).sink,
            *final(self) == (Pipeline { sink: *final(sink), ..*old(self) }),
    {
        &mut self.sink
    }

    /// Lets the source give frames.
    pub fn start(&mut self)
        ensures
            old(self).source.starts(final(self).source),
            final(self).codec == old(self).codec,
            final(self).sink == old(self).sink,
    {
        self.source.start();
    }

    /// Lets the source give no more frames.
    pub fn stop(&mut self)
        ensures
            old(self).source.stops(final(self).source),
            final(self).codec == old(self).codec,
            final(self).sink == old(self).sink,
    {
        self.source.stop();
    }

    /// Whether the source gives frames now.
    pub fn is_running(&self) -> (running: bool)
        ensures
            running == self.source.running(),
    {
        self.source.is_running()
    }

    /// Passes on the next frame, and says whether there was one. Nothing is asked of the
    /// source unless it gives frames and the sink takes one.
    pub fn process_next(&mut self) -> (outcome: Result<bool, PipelineError>)
        ensures
            !(old(self).source.running() && old(self).sink.ready()) ==> {
                &&& outcome == Ok::<bool, PipelineError>(false)
                &&& *final(self) == *old(self)
            },
            old(self).source.running() && old(self).sink.ready() ==> passes_frame(
                old(self).source,
                old(self).codec,
                old(self).sink,
                outcome,
                final(self).source,
                final(self).codec,
                final(self).sink,
            ),
    {
        if !self.source.is_running() || !self.sink.can_receive() {
            return Ok(false);
        }
        pass_frame(&mut self.source, &mut self.codec, &mut self.sink)
    }
}

/// What a running pipeline does next.
#[derive(Debug, PartialEq)]
pub enum RunnerStep {
    /// Go on at once.
    Continue,
    /// Go on after a while.
    Wait,
    /// The pipeline was stopped, because that was asked for or because it failed.
    Finished(Result<(), PipelineError>),
}

/// One round of a running pipeline: it stops when asked to or when passing on a frame fails,
/// and waits when there was nothing to pass on.
pub fn runner_step<S: AudioSource, C: AudioCodec, K: AudioSink>(
    pipeline: &mut Pipeline<S, C, K>,
    stop_requested: bool,
) -> (step: RunnerStep)
    ensures
        stop_requested ==> {
            &&& step == RunnerStep::Finished(Ok(()))
            &&& old(pipeline).source.stops(final(pipeline).source)
            &&& final(pipeline).codec == old(pipeline).codec
            &&& final(pipeline).sink == old(pipeline).sink
        },
        !stop_requested && !(old(pipeline).source.running() && old(pipeline).sink.ready()) ==> {
            &&& step is Wait
            &&& *final(pipeline) == *old(pipeline)
        },
        !stop_requested && old(pipeline).source.running() && old(pipeline).sink.ready() ==> match step {
            RunnerStep::Continue => passes_frame(
                old(pipeline).source,
                old(pipeline).codec,
                old(pipeline).sink,
                Ok(true),
                final(pipeline).source,
                final(pipeline).codec,
                final(pipeline).sink,
            ),
            RunnerStep::Wait => passes_frame(
                old(pipeline).source,
                old(pipeline).codec,
                old(pipeline).sink,
                Ok(false),
                final(pipeline).source,
                final(pipeline).codec,
                final(pipeline).sink,
            ),
            RunnerStep::Finished(Ok(_)) => false,
            RunnerStep::Finished(Err(error)) => exists|source: S|
                {
                    &&& #[trigger] passes_frame(
                        old(pipeline).source,
                        old(pipeline).codec,
                        old(pipeline).sink,
                        Err(error),
                        source,
                        final(pipeline).codec,
                        final(pipeline).sink,
                    )
                    &&& source.stops(final(pipeline).source)
                },
        },
{
    if stop_requested {
        pipeline.stop();
        return RunnerStep::Finished(Ok(()));
    }
    match pipeline.process_next() {
        Ok(true) => RunnerStep::Continue,
        Ok(false) => RunnerStep::Wait,
        Err(error) => {
            let ghost middle = pipeline.source;
            pipeline.stop();
            assert(passes_frame(
                old(pipeline).source,
                old(pipeline).codec,
                old(pipeline).sink,
                Err(error),
                middle,
                pipeline.codec,
                pipeline.sink,
            ));
            RunnerStep::Finished(Err(error))
        },
    }
}

/// Sends the next frame of a line in, and says whether there was one. Nothing is asked of the
/// source unless the sink takes a frame.
pub fn transmit_audio_frame<S: AudioSource, C: AudioCodec, K: AudioSink>(
    source: &mut S,
    codec: &mut C,
    sink: &mut K,
) -> (sent: Result<bool, String>)
    ensures
        !old(sink).ready() ==> {
            &&& sent == Ok::<bool, String>(false)
            &&& *final(source) == *old(source)
            &&& *final(codec) == *old(codec)
            &&& *final(sink) == *old(sink)
        },
        old(sink).ready() ==> exists|outcome: Result<bool, PipelineError>|
            {
                &&& #[trigger] passes_frame(
                    *old(source),
                    *old(codec),
                    *old(sink),
                    outcome,
                    *final(source),
                    *final(codec),
                    *final(sink),
                )
                &&& match sent {
                    Ok(sent) => outcome == Ok::<bool, PipelineError>(sent),
                    Err(text) => outcome matches Err(error) && text@ == error.text(),
                }
            },
{
    if !sink.can_receive() {
        return Ok(false);
    }
    let outcome = pass_frame(source, codec, sink);
    let ghost outcome_copy = outcome;
    assert(passes_frame(
        *old(source),
        *old(codec),
        *old(sink),
        outcome_copy,
        *source,
        *codec,
        *sink,
    ));
    match outcome {
        Ok(sent) => Ok(sent),
        Err(error) => Err(error.message()),
    }
}

/// A queue of decoded frames that is fed with encoded ones.
pub struct Loopback<C: AudioCodec> {
    codec: C,
    samplerate: u32,
    channels: u8,
    frames: VecDeque<AudioFrame>,
    max_frames: usize,
    running: bool,
}

/// A loopback as a mathematical value.
#[verifier::ext_equal]
pub struct LoopbackModel<C> {
    pub codec: C,
    pub samplerate: u32,
    pub channels: u8,
    pub frames: Seq<AudioModel>,
    pub max_frames: usize,
    pub running: bool,
}

impl<C: AudioCodec> Loopback<C> {
    /// The loopback as a mathematical value.
    pub closed spec fn view(&self) -> LoopbackModel<C> {
        LoopbackModel {
            codec: self.codec,
            samplerate: self.samplerate,
            channels: self.channels,
            frames: crate::line_sink::audio_models(self.frames@),
            max_frames: self.max_frames,
            running: self.running,
        }
    }

    /// What holds of every loopback.
    pub open spec fn wf(&self) -> bool {
        self@.max_frames >= 1 && self@.frames.len() <= self@.max_frames
    }

    /// An empty loopback that holds at most `max_frames` frames, at least one.
    pub fn new(codec: C, samplerate: u32, channels: u8, max_frames: usize) -> (loopback: Result<
        Self,
        AudioError,
    >)
        ensures
            match loopback {
                Ok(loopback) => {
                    &&& samplerate > 0 && channels > 0
                    &&& loopback.wf()
                    &&& loopback@ == (LoopbackModel {
                        codec,
                        samplerate,
                        channels,
                        frames: Seq::empty(),
                        max_frames: crate::line_sink::at_least(max_frames, 1),
                        running: false,
                    })
                },
                Err(error) => crate::audio::frame_error(samplerate, channels, 0) == Some(error),
            },
    {
        match AudioFrame::silence(samplerate, channels, 0) {
            Ok(_) => {},
            Err(error) => return Err(error),
        }
        let loopback = Loopback {
            codec,
            samplerate,
            channels,
            frames: VecDeque::new(),
            max_frames: if max_frames < 1 {
                1
            } else {
                max_frames
            },
            running: false,
        };
        assert(loopback@.frames =~= Seq::empty());
        Ok(loopback)
    }

    /// How many frames wait.
    pub fn queued_frames(&self) -> (count: usize)
        ensures
            count == self@.frames.len(),
    {
        self.frames.len()
    }
}

impl<C: AudioCodec> AudioSource for Loopback<C> {
    open spec fn running(&self) -> bool {
        self@.running
    }

    open spec fn rate(&self) -> u32 {
        self@.samplerate
    }

    open spec fn channel_count(&self) -> u8 {
        self@.channels
    }

    open spec fn starts(self, after: Self) -> bool {
        after@ == (LoopbackModel { running: true, ..self@ })
    }

    open spec fn stops(self, after: Self) -> bool {
        after@ == (LoopbackModel { running: false, ..self@ })
    }

    /// While it runs, the oldest frame is given.
    open spec fn gives(
        self,
        outcome: Result<Option<AudioFrame>, PipelineError>,
        after: Self,
    ) -> bool {
        if self@.running && self@.frames.len() > 0 {
            &&& outcome matches Ok(Some(frame)) && frame@ == self@.frames[0]
            &&& after@ == (LoopbackModel { frames: self@.frames.skip(1), ..self@ })
        } else {
            &&& outcome matches Ok(None)
            &&& after@ == self@
        }
    }

    fn start(&mut self) {
        self.running = true;
    }

    fn stop(&mut self) {
        self.running = false;
    }

    fn is_running(&self) -> (running: bool) {
        self.running
    }

    fn samplerate(&self) -> (samplerate: u32) {
        self.samplerate
    }

    fn channels(&self) -> (channels: u8) {
        self.channels
    }

    fn next_frame(&mut self) -> (outcome: Result<Option<AudioFrame>, PipelineError>) {
        let ghost before = self@;
        if self.running {
            let frame = self.frames.pop_front();
            proof {
                if before.frames.len() > 0 {
                    assert(self@.frames =~= before.frames.skip(1));
                } else {
                    assert(self@.frames =~= before.frames);
                }
            }
            Ok(frame)
        } else {
            Ok(None)
        }
    }
}

impl<C: AudioCodec> AudioSink for Loopback<C> {
    open spec fn ready(&self) -> bool {
        self@.frames.len() < self@.max_frames
    }

    /// Where the queue is full the oldest frame is dropped, even if the new one cannot be
    /// decoded. The format becomes that of the decoded frame.
    open spec fn takes(
        self,
        frame: EncodedModel,
        outcome: Result<(), PipelineError>,
        after: Self,
    ) -> bool {
        let kept = if self@.frames.len() >= self@.max_frames && self@.frames.len() > 0 {
            self@.frames.skip(1)
        } else {
            self@.frames
        };
        exists|decoded: Result<AudioFrame, CodecError>|
            {
                &&& #[trigger] self@.codec.decodes(
                    frame.payload,
                    frame.samplerate,
                    decoded,
                    after@.codec,
                )
                &&& match decoded {
                    Ok(decoded) => {
                        &&& outcome is Ok
                        &&& after@ == (LoopbackModel {
                            codec: after@.codec,
                            samplerate: decoded@.samplerate,
                            channels: decoded@.channels,
                            frames: kept.push(decoded@),
                            ..self@
                        })
                    },
                    Err(error) => {
                        &&& outcome == Err::<(), PipelineError>(PipelineError::Codec(error))
                        &&& after@ == (LoopbackModel {
                            codec: after@.codec,
                            frames: kept,
                            ..self@
                        })
                    },
                }
            }
    }

    fn can_receive(&self) -> (ready: bool) {
        self.frames.len() < self.max_frames
    }

    fn handle_frame(&mut self, frame: EncodedAudioFrame) -> (outcome: Result<(), PipelineError>) {
        let ghost before = self@;
        let ghost model = frame@;
        if self.frames.len() >= self.max_frames {
            self.frames.pop_front();
            proof {
                if before.frames.len() > 0 {
                    assert(self@.frames =~= before.frames.skip(1));
                } else {
                    assert(self@.frames =~= before.frames);
                }
            }
        }
        let ghost kept = self@.frames;
        assert(kept == (if before.frames.len() >= before.max_frames && before.frames.len() > 0 {
            before.frames.skip(1)
        } else {
            before.frames
        }));
        let decoded = self.codec.decode(&frame.payload, frame.samplerate);
        let ghost decoded_copy = decoded;
        assert(before.codec.decodes(
            frame.payload@,
            frame.samplerate,
            decoded_copy,
            self@.codec,
        ));
        match decoded {
            Ok(decoded) => {
                self.samplerate = decoded.samplerate();
                self.channels = decoded.channels();
                self.frames.push_back(decoded);
                assert(self@.frames =~= kept.push(decoded@));
                assert(self@ =~= LoopbackModel {
                    codec: self@.codec,
                    samplerate: decoded@.samplerate,
                    channels: decoded@.channels,
                    frames: kept.push(decoded@),
                    ..before
                });
                assert(before.codec.decodes(
                    model.payload,
                    model.samplerate,
                    decoded_copy,
                    self@.codec,
                ));
                Ok(())
            },
            Err(error) => {
                assert(self@ =~= LoopbackModel { codec: self@.codec, frames: kept, ..before });
                assert(before.codec.decodes(
                    model.payload,
                    model.samplerate,
                    decoded_copy,
                    self@.codec,
                ));
                Err(PipelineError::Codec(error))
            },
        }
    }
}

/// A loopback never holds more frames than it may.
pub proof fn law_loopback_stays_bounded<C: AudioCodec>(
    before: Loopback<C>,
    frame: EncodedModel,
    outcome: Result<(), PipelineError>,
    after: Loopback<C>,
)
    requires
        before.wf(),
        before.takes(frame, outcome, after),
    ensures
        after.wf(),
        outcome is Ok && before.ready() ==> after@.frames.len() == before@.frames.len() + 1,
{
}

/// A sink for mixed sound that encodes it for another sink.
pub struct EncodedMixerSink<C: AudioCodec, S: AudioSink> {
    pub codec: C,
    pub sink: S,
}

impl<C: AudioCodec, S: AudioSink> EncodedMixerSink<C, S> {
    /// A sink that encodes what is mixed for `sink`.
    pub fn new(codec: C, sink: S) -> (mixer_sink: Self)
        ensures
            mixer_sink == (EncodedMixerSink { codec, sink }),
    {
        EncodedMixerSink { codec, sink }
    }

    /// The sink behind the codec.
    pub fn sink(&self) -> (sink: &S)
        ensures
            *sink == self.sink,
    {
        &self.sink
    }

    /// The sink behind the codec, to be changed in place.
    pub fn sink_mut(&mut self) -> (sink: &mut S)
        ensures
            *sink == old(self).sink,
            *final(self) == (EncodedMixerSink { sink: *final(sink), ..*old(self) }),
    {
        &mut self.sink
    }

    /// The sink behind the codec.
    pub fn into_sink(self) -> (sink: S)
        ensures
            sink == self.sink,
    {
        self.sink
    }
}

impl<C: AudioCodec, S: AudioSink> MixerSink for EncodedMixerSink<C, S> {
    open spec fn ready(&self) -> bool {
        self.sink.ready()
    }

    /// The frame is encoded and handed over. What fails is a stream error with the text of the
    /// failure.
    open spec fn takes(
        self,
        frame: AudioModel,
        outcome: Result<(), AudioError>,
        after: Self,
    ) -> bool {
        exists|passed: Result<bool, PipelineError>|
            {
                &&& #[trigger] encodes_and_hands_over(
                    frame,
                    self.codec,
                    self.sink,
                    passed,
                    after.codec,
                    after.sink,
                )
                &&& match outcome {
                    Ok(_) => passed is Ok,
                    Err(AudioError::Stream(text)) => passed matches Err(error) && text@
                        == error.text(),
                    Err(_) => false,
                }
            }
    }

    fn can_receive(&self) -> (ready: bool) {
        self.sink.can_receive()
    }

    fn handle_frame(&mut self, frame: AudioFrame) -> (handled: Result<(), AudioError>) {
        let codec = self.codec.kind();
        let encoded = self.codec.encode(&frame);
        let ghost encoded_copy = encoded;
        assert(old(self).codec.encodes(frame@, encoded_copy, self.codec));
        let payload = match encoded {
            Ok(payload) => payload,
            Err(error) => {
                let ghost outcome: Result<bool, PipelineError> = Err(PipelineError::Codec(error));
                assert(encodes_and_hands_over(
                    frame@,
                    old(self).codec,
                    old(self).sink,
                    outcome,
                    self.codec,
                    self.sink,
                ));
                return Err(AudioError::Stream(error.message()));
            },
        };
        let samplerate = frame.samplerate();
        let channels = frame.channels();
        let handled = self.sink.handle_frame(
            EncodedAudioFrame { codec, samplerate, channels, payload },
        );
        let ghost handled_copy = handled;
        match handled {
            Ok(unit) => {
                assert(unit == ());
                assert(handled_copy == Ok::<(), PipelineError>(()));
                assert(encodes_and_hands_over(
                    frame@,
                    old(self).codec,
                    old(self).sink,
                    Ok::<bool, PipelineError>(true),
                    self.codec,
                    self.sink,
                ));
                Ok(())
            },
            Err(error) => {
                let ghost outcome: Result<bool, PipelineError> = Err(error);
                assert(encodes_and_hands_over(
                    frame@,
                    old(self).codec,
                    old(self).sink,
                    outcome,
                    self.codec,
                    self.sink,
                ));
                Err(AudioError::Stream(error.message()))
            },
        }
    }
}

/// A source of frames that were put into it.
#[derive(Debug, Clone)]
pub struct BufferedSource {
    samplerate: u32,
    channels: u8,
    frames: VecDeque<AudioFrame>,
    running: bool,
}

/// A buffered source as a mathematical value.
pub struct BufferedSourceModel {
    pub samplerate: u32,
    pub channels: u8,
    pub frames: Seq<AudioModel>,
    pub running: bool,
}

impl BufferedSource {
    /// The source as a mathematical value.
    pub closed spec fn view(&self) -> BufferedSourceModel {
        BufferedSourceModel {
            samplerate: self.samplerate,
            channels: self.channels,
            frames: crate::line_sink::audio_models(self.frames@),
            running: self.running,
        }
    }

    /// An empty source of the given format.
    pub fn new(samplerate: u32, channels: u8) -> (source: Result<Self, AudioError>)
        ensures
            match source {
                Ok(source) => {
                    &&& samplerate > 0 && channels > 0
                    &&& source@ == (BufferedSourceModel {
                        samplerate,
                        channels,
                        frames: Seq::empty(),
                        running: false,
                    })
                },
                Err(error) => crate::audio::frame_error(samplerate, channels, 0) == Some(error),
            },
    {
        match AudioFrame::silence(samplerate, channels, 0) {
            Ok(_) => {},
            Err(error) => return Err(error),
        }
        let source = BufferedSource {
            samplerate,
            channels,
            frames: VecDeque::new(),
            running: false,
        };
        assert(source@.frames =~= Seq::empty());
        Ok(source)
    }

    /// Puts a frame of the source's format at the end.
    pub fn push_frame(&mut self, frame: AudioFrame) -> (pushed: Result<(), PipelineError>)
        ensures
            if frame@.samplerate == old(self)@.samplerate && frame@.channels
                == old(self)@.channels {
                &&& pushed is Ok
                &&& final(self)@ == (BufferedSourceModel {
                    frames: old(self)@.frames.push(frame@),
                    ..old(self)@
                })
            } else {
                &&& pushed == Err::<(), PipelineError>(PipelineError::IncompatibleSourceFrame)
                &&& *final(self) == *old(self)
            },
    {
        if frame.samplerate() != self.samplerate || frame.channels() != self.channels {
            return Err(PipelineError::IncompatibleSourceFrame);
        }
        self.frames.push_back(frame);
        assert(self@.frames =~= old(self)@.frames.push(frame@));
        Ok(())
    }

    /// How many frames wait.
    pub fn queued_frames(&self) -> (count: usize)
        ensures
            count == self@.frames.len(),
    {
        self.frames.len()
    }
}

impl AudioSource for BufferedSource {
    open spec fn running(&self) -> bool {
        self@.running
    }

    open spec fn rate(&self) -> u32 {
        self@.samplerate
    }

    open spec fn channel_count(&self) -> u8 {
        self@.channels
    }

    open spec fn starts(self, after: Self) -> bool {
        after@ == (BufferedSourceModel { running: true, ..self@ })
    }

    open spec fn stops(self, after: Self) -> bool {
        after@ == (BufferedSourceModel { running: false, ..self@ })
    }

    /// While it runs, the oldest frame is given.
    open spec fn gives(
        self,
        outcome: Result<Option<AudioFrame>, PipelineError>,
        after: Self,
    ) -> bool {
        if self@.running && self@.frames.len() > 0 {
            &&& outcome matches Ok(Some(frame)) && frame@ == self@.frames[0]
            &&& after@ == (BufferedSourceModel { frames: self@.frames.skip(1), ..self@ })
        } else {
            &&& outcome matches Ok(None)
            &&& after@ == self@
        }
    }

    fn start(&mut self) {
        self.running = true;
    }

    fn stop(&mut self) {
        self.running = false;
    }

    fn is_running(&self) -> (running: bool) {
        self.running
    }

    fn samplerate(&self) -> (samplerate: u32) {
        self.samplerate
    }

    fn channels(&self) -> (channels: u8) {
        self.channels
    }

    fn next_frame(&mut self) -> (outcome: Result<Option<AudioFrame>, PipelineError>) {
        let ghost before = self@;
        if self.running {
            let frame = self.frames.pop_front();
            proof {
                if before.frames.len() > 0 {
                    assert(self@.frames =~= before.frames.skip(1));
                } else {
                    assert(self@.frames =~= before.frames);
                }
            }
            Ok(frame)
        } else {
            Ok(None)
        }
    }
}

/// Encoded frames as mathematical values.
pub open spec fn encoded_models(frames: Seq<EncodedAudioFrame>) -> Seq<EncodedModel> {
    frames.map_values(|frame: EncodedAudioFrame| frame@)
}

/// A sink that keeps what it takes, up to a number of frames.
#[derive(Debug, Clone)]
pub struct BufferedSink {
    frames: VecDeque<EncodedAudioFrame>,
    max_frames: usize,
}

impl BufferedSink {
    /// The frames that are kept, oldest first.
    pub closed spec fn kept(&self) -> Seq<EncodedModel> {
        encoded_models(self.frames@)
    }

    /// How many frames are kept at most.
    pub closed spec fn limit(&self) -> usize {
        self.max_frames
    }

    /// What holds of every buffered sink.
    pub open spec fn wf(&self) -> bool {
        self.kept().len() <= self.limit()
    }

    /// An empty sink.
    pub fn new(max_frames: usize) -> (sink: Self)
        ensures
            sink.wf(),
            sink.kept() == Seq::<EncodedModel>::empty(),
            sink.limit() == max_frames,
    {
        let sink = BufferedSink { frames: VecDeque::new(), max_frames };
        assert(sink.kept() =~= Seq::<EncodedModel>::empty());
        sink
    }

    /// Takes the oldest frame out.
    pub fn pop_frame(&mut self) -> (frame: Option<EncodedAudioFrame>)
        ensures
            final(self).limit() == old(self).limit(),
            match frame {
                Some(frame) => {
                    &&& old(self).kept().len() > 0
                    &&& frame@ == old(self).kept()[0]
                    &&& final(self).kept() == old(self).kept().skip(1)
                },
                None => {
                    &&& old(self).kept().len() == 0
                    &&& final(self).kept() == old(self).kept()
                },
            },
    {
        let ghost before = self.kept();
        let frame = self.frames.pop_front();
        proof {
            if before.len() > 0 {
                assert(self.kept() =~= before.skip(1));
            } else {
                assert(self.kept() =~= before);
            }
        }
        frame
    }

    /// How many frames are kept.
    pub fn queued_frames(&self) -> (count: usize)
        ensures
            count == self.kept().len(),
    {
        self.frames.len()
    }
}

impl AudioSink for BufferedSink {
    open spec fn ready(&self) -> bool {
        self.kept().len() < self.limit()
    }

    /// A full sink takes nothing.
    open spec fn takes(
        self,
        frame: EncodedModel,
        outcome: Result<(), PipelineError>,
        after: Self,
    ) -> bool {
        &&& after.limit() == self.limit()
        &&& if self.ready() {
            &&& outcome is Ok
            &&& after.kept() == self.kept().push(frame)
        } else {
            &&& outcome == Err::<(), PipelineError>(PipelineError::SinkFull)
            &&& after.kept() == self.kept()
        }
    }

    fn can_receive(&self) -> (ready: bool) {
        self.frames.len() < self.max_frames
    }

    fn handle_frame(&mut self, frame: EncodedAudioFrame) -> (outcome: Result<(), PipelineError>) {
        if !self.can_receive() {
            return Err(PipelineError::SinkFull);
        }
        self.frames.push_back(frame);
        assert(self.kept() =~= old(self).kept().push(frame@));
        Ok(())
    }
}

/// A frame that is passed on is the one that the source gave: the codec encodes it, and the sink
/// takes what came out under the codec's family, with the rate and the channels of the frame.
pub proof fn law_passed_frame_reaches_the_sink<S: AudioSource, C: AudioCodec, K: AudioSink>(
    source: S,
    codec: C,
    sink: K,
    source_after: S,
    codec_after: C,
    sink_after: K,
)
    requires
        passes_frame(
            source,
            codec,
            sink,
            Ok::<bool, PipelineError>(true),
            source_after,
            codec_after,
            sink_after,
        ),
    ensures
        exists|frame: AudioFrame, payload: Vec<u8>, handed: EncodedModel|
            {
                &&& #[trigger] source.gives(
                    Ok::<Option<AudioFrame>, PipelineError>(Some(frame)),
                    source_after,
                )
                &&& #[trigger] codec.encodes(
                    frame@,
                    Ok::<Vec<u8>, CodecError>(payload),
                    codec_after,
                )
                &&& #[trigger] sink.takes(handed, Ok::<(), PipelineError>(()), sink_after)
                &&& handed.payload == payload@
                &&& handed.codec == codec.family()
                &&& handed.samplerate == frame@.samplerate
                &&& handed.channels == frame@.channels
            },
{
    let given = choose|given: Result<Option<AudioFrame>, PipelineError>|
        {
            &&& #[trigger] source.gives(given, source_after)
            &&& match given {
                Err(error) => false,
                Ok(None) => false,
                Ok(Some(frame)) => encodes_and_hands_over(
                    frame@,
                    codec,
                    sink,
                    Ok::<bool, PipelineError>(true),
                    codec_after,
                    sink_after,
                ),
            }
        };
    let frame = given->Ok_0->0;
    let encoded = choose|encoded: Result<Vec<u8>, CodecError>|
        {
            &&& #[trigger] codec.encodes(frame@, encoded, codec_after)
            &&& encoded matches Ok(payload) && sink.takes(
                EncodedModel {
                    codec: codec.family(),
                    samplerate: frame@.samplerate,
                    channels: frame@.channels,
                    payload: payload@,
                },
                Ok::<(), PipelineError>(()),
                sink_after,
            )
        };
    let handed = EncodedModel {
        codec: codec.family(),
        samplerate: frame@.samplerate,
        channels: frame@.channels,
        payload: encoded->Ok_0@,
    };
    assert(given == Ok::<Option<AudioFrame>, PipelineError>(Some(frame)));
    assert(encoded == Ok::<Vec<u8>, CodecError>(encoded->Ok_0));
    assert(sink.takes(handed, Ok::<(), PipelineError>(()), sink_after));
}

/// Where the source has no frame, nothing is passed on, and neither the codec nor the sink is
/// touched.
pub proof fn law_nothing_is_passed_without_a_frame<S: AudioSource, C: AudioCodec, K: AudioSink>(
    source: S,
    codec: C,
    sink: K,
    source_after: S,
    codec_after: C,
    sink_after: K,
)
    requires
        passes_frame(
            source,
            codec,
            sink,
            Ok::<bool, PipelineError>(false),
            source_after,
            codec_after,
            sink_after,
        ),
    ensures
        source.gives(Ok::<Option<AudioFrame>, PipelineError>(None), source_after),
        codec_after == codec,
        sink_after == sink,
{
}

/// Passing a frame on fails only where the source, the codec or the sink failed, and with that
/// error; what comes after the one that failed is not touched.
pub proof fn law_failed_passing_tells_why<S: AudioSource, C: AudioCodec, K: AudioSink>(
    source: S,
    codec: C,
    sink: K,
    error: PipelineError,
    source_after: S,
    codec_after: C,
    sink_after: K,
)
    requires
        passes_frame(
            source,
            codec,
            sink,
            Err::<bool, PipelineError>(error),
            source_after,
            codec_after,
            sink_after,
        ),
    ensures
        ({
            let source_failed = source.gives(
                Err::<Option<AudioFrame>, PipelineError>(error),
                source_after,
            ) && codec_after == codec && sink_after == sink;
            let codec_failed = sink_after == sink && (error matches PipelineError::Codec(fault)
                && exists|frame: AudioModel| #[trigger]
                    codec.encodes(frame, Err::<Vec<u8>, CodecError>(fault), codec_after));
            let sink_failed = exists|handed: EncodedModel| #[trigger]
                sink.takes(handed, Err::<(), PipelineError>(error), sink_after);
            source_failed || codec_failed || sink_failed
        }),
{
}

/// While it runs, a loopback gives back its frames from the oldest on, and keeps the others; one
/// that is stopped or empty gives nothing and stays as it is.
pub proof fn law_loopback_gives_the_oldest_frame<C: AudioCodec>(
    before: Loopback<C>,
    outcome: Result<Option<AudioFrame>, PipelineError>,
    after: Loopback<C>,
)
    requires
        before.gives(outcome, after),
    ensures
        outcome is Ok,
        outcome->Ok_0 is Some <==> before@.running && before@.frames.len() > 0,
        outcome->Ok_0 matches Some(frame) ==> before@.frames == seq![frame@] + after@.frames,
        outcome->Ok_0 is None ==> after@ == before@,
        after@.running == before@.running,
        after@.samplerate == before@.samplerate,
        after@.channels == before@.channels,
        after@.max_frames == before@.max_frames,
        after@.codec == before@.codec,
{
    if let Ok(Some(frame)) = outcome {
        assert(before@.frames =~= seq![frame@] + after@.frames);
    }
}

/// A loopback decodes what it takes, at the rate that came with it, and puts it behind what it
/// holds; only a full one loses its oldest frame. What cannot be decoded fails, and the rate and
/// the channels stay as they are.
pub proof fn law_loopback_takes_what_is_decoded<C: AudioCodec>(
    before: Loopback<C>,
    frame: EncodedModel,
    outcome: Result<(), PipelineError>,
    after: Loopback<C>,
)
    requires
        before.wf(),
        before.takes(frame, outcome, after),
    ensures
        outcome is Ok ==> after@.frames.len() > 0 && after@.samplerate
            == after@.frames.last().samplerate && after@.channels == after@.frames.last().channels,
        outcome is Ok ==> exists|decoded: AudioFrame|
            {
                &&& #[trigger] before@.codec.decodes(
                    frame.payload,
                    frame.samplerate,
                    Ok::<AudioFrame, CodecError>(decoded),
                    after@.codec,
                )
                &&& decoded@ == after@.frames.last()
            },
        outcome is Ok && before@.frames.len() < before@.max_frames ==> before@.frames
            == after@.frames.drop_last(),
        outcome is Ok && before@.frames.len() == before@.max_frames ==> before@.frames.skip(1)
            == after@.frames.drop_last(),
        outcome is Err ==> after@.samplerate == before@.samplerate && after@.channels
            == before@.channels,
        outcome is Err && before@.frames.len() < before@.max_frames ==> after@.frames
            == before@.frames,
        outcome matches Err(error) ==> error matches PipelineError::Codec(fault)
            && before@.codec.decodes(
            frame.payload,
            frame.samplerate,
            Err::<AudioFrame, CodecError>(fault),
            after@.codec,
        ),
        after@.max_frames == before@.max_frames,
        after@.running == before@.running,
{
    let decoded = choose|decoded: Result<AudioFrame, CodecError>|
        {
            &&& #[trigger] before@.codec.decodes(
                frame.payload,
                frame.samplerate,
                decoded,
                after@.codec,
            )
            &&& match decoded {
                Ok(decoded) => outcome is Ok && after@.frames.len() > 0 && after@.frames.last()
                    == decoded@,
                Err(error) => outcome == Err::<(), PipelineError>(PipelineError::Codec(error)),
            }
        };
    match decoded {
        Ok(frame) => {
            assert(decoded == Ok::<AudioFrame, CodecError>(frame));
            assert(before@.frames.push(frame@).drop_last() =~= before@.frames);
            assert(before@.frames.skip(1).push(frame@).drop_last() =~= before@.frames.skip(1));
        },
        Err(fault) => {
            assert(decoded == Err::<AudioFrame, CodecError>(fault));
        },
    }
}

/// A loopback is ready for frames as long as it holds fewer than it may.
pub proof fn law_loopback_is_ready_until_full<C: AudioCodec>(loopback: Loopback<C>)
    ensures
        loopback.ready() <==> loopback@.frames.len() < loopback@.max_frames,
        loopback.running() <==> loopback@.running,
        loopback.rate() == loopback@.samplerate,
        loopback.channel_count() == loopback@.channels,
{
}

/// While it runs, a buffered source gives its frames from the oldest on, and keeps the others;
/// one that is stopped or empty gives nothing and stays as it is.
pub proof fn law_buffered_source_gives_the_oldest_frame(
    before: BufferedSource,
    outcome: Result<Option<AudioFrame>, PipelineError>,
    after: BufferedSource,
)
    requires
        before.gives(outcome, after),
    ensures
        outcome is Ok,
        outcome->Ok_0 is Some <==> before@.running && before@.frames.len() > 0,
        outcome->Ok_0 matches Some(frame) ==> before@.frames == seq![frame@] + after@.frames,
        outcome->Ok_0 is None ==> after@ == before@,
        after@.running == before@.running,
        after@.samplerate == before@.samplerate,
        after@.channels == before@.channels,
{
    if let Ok(Some(frame)) = outcome {
        assert(before@.frames =~= seq![frame@] + after@.frames);
    }
}

/// Starting and stopping a source loses none of its frames.
pub proof fn law_sources_start_and_stop<C: AudioCodec>(
    source: BufferedSource,
    started: BufferedSource,
    stopped: BufferedSource,
    loopback: Loopback<C>,
    loopback_started: Loopback<C>,
    loopback_stopped: Loopback<C>,
)
    requires
        source.starts(started),
        source.stops(stopped),
        loopback.starts(loopback_started),
        loopback.stops(loopback_stopped),
    ensures
        started.running() && !stopped.running(),
        started@.frames == source@.frames && stopped@.frames == source@.frames,
        started.rate() == source.rate() && stopped.rate() == source.rate(),
        started.channel_count() == source.channel_count() && stopped.channel_count()
            == source.channel_count(),
        loopback_started.running() && !loopback_stopped.running(),
        loopback_started@.frames == loopback@.frames && loopback_stopped@.frames
            == loopback@.frames,
        loopback_started@.max_frames == loopback@.max_frames && loopback_stopped@.max_frames
            == loopback@.max_frames,
{
}

/// A buffered sink keeps every frame that it has room for, behind those it has, and refuses the
/// others without losing any.
pub proof fn law_buffered_sink_keeps_what_fits(
    before: BufferedSink,
    frame: EncodedModel,
    outcome: Result<(), PipelineError>,
    after: BufferedSink,
)
    requires
        before.takes(frame, outcome, after),
    ensures
        before.ready() <==> before.kept().len() < before.limit(),
        outcome is Ok <==> before.kept().len() < before.limit(),
        outcome is Ok ==> after.kept() == before.kept() + seq![frame],
        outcome matches Err(error) ==> error is SinkFull && after.kept() == before.kept(),
        after.limit() == before.limit(),
{
    assert(before.kept().push(frame) =~= before.kept() + seq![frame]);
}

/// What is mixed is encoded for the sink behind the codec as any frame is: it is taken where the
/// sink takes it.
pub proof fn law_mixed_frame_reaches_the_sink<C: AudioCodec, S: AudioSink>(
    before: EncodedMixerSink<C, S>,
    frame: AudioModel,
    outcome: Result<(), AudioError>,
    after: EncodedMixerSink<C, S>,
)
    requires
        before.takes(frame, outcome, after),
    ensures
        before.ready() <==> before.sink.ready(),
        outcome is Ok ==> exists|payload: Vec<u8>, handed: EncodedModel|
            {
                &&& #[trigger] before.codec.encodes(
                    frame,
                    Ok::<Vec<u8>, CodecError>(payload),
                    after.codec,
                )
                &&& #[trigger] before.sink.takes(handed, Ok::<(), PipelineError>(()), after.sink)
                &&& handed.payload == payload@
                &&& handed.codec == before.codec.family()
                &&& handed.samplerate == frame.samplerate
                &&& handed.channels == frame.channels
            },
        outcome matches Err(error) ==> error is Stream,
{
    if outcome is Ok {
        let passed = choose|passed: Result<bool, PipelineError>|
            #[trigger] encodes_and_hands_over(
                frame,
                before.codec,
                before.sink,
                passed,
                after.codec,
                after.sink,
            ) && passed is Ok;
        let encoded = choose|encoded: Result<Vec<u8>, CodecError>|
            {
                &&& #[trigger] before.codec.encodes(frame, encoded, after.codec)
                &&& encoded matches Ok(payload) && before.sink.takes(
                    EncodedModel {
                        codec: before.codec.family(),
                        samplerate: frame.samplerate,
                        channels: frame.channels,
                        payload: payload@,
                    },
                    Ok::<(), PipelineError>(()),
                    after.sink,
                )
            };
        let handed = EncodedModel {
            codec: before.codec.family(),
            samplerate: frame.samplerate,
            channels: frame.channels,
            payload: encoded->Ok_0@,
        };
        assert(encoded == Ok::<Vec<u8>, CodecError>(encoded->Ok_0));
        assert(before.sink.takes(handed, Ok::<(), PipelineError>(()), after.sink));
    }
}

} // verus!
