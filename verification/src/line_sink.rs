//! A line out: frames wait in a bounded queue and are handed to a playback one by one.
use crate::audio::{AudioError, AudioFrame, AudioModel};
use crate::rounding::{nearest_even, round_value, SINGLE_LIMIT};
use crate::time::Nanos;
use std::collections::VecDeque;
use vstd::arithmetic::power2::{
    lemma2_to64, lemma2_to64_rest, lemma_pow2_adds, lemma_pow2_pos, pow2,
};
use vstd::prelude::*;

verus! {

/// Where sound is played.
pub trait LinePlayback: Sized {
    /// The frames that were handed over, in order.
    open spec fn handed(&self) -> Seq<AudioModel> {
        arbitrary()
    }

    /// Whether beginning to play can give `outcome` and leave the playback as `after`.
    open spec fn starts(self, outcome: Result<(), AudioError>, after: Self) -> bool {
        true
    }

    /// Whether ending playing can give `outcome` and leave the playback as `after`.
    open spec fn stops(self, outcome: Result<(), AudioError>, after: Self) -> bool {
        true
    }

    /// Whether playing `frame` can give `outcome` and leave the playback as `after`.
    open spec fn plays(
        self,
        frame: AudioModel,
        outcome: Result<(), AudioError>,
        after: Self,
    ) -> bool {
        true
    }

    /// Whether asking for little delay can give `outcome` and leave the playback as `after`.
    open spec fn enables(self, outcome: Result<bool, AudioError>, after: Self) -> bool {
        true
    }

    /// Begins to play.
    fn start(&mut self) -> (started: Result<(), AudioError>)
        ensures
            old(self).starts(started, *final(self)),
            final(self).handed() == old(self).handed(),
    ;

    /// Ends playing.
    fn stop(&mut self) -> (stopped: Result<(), AudioError>)
        ensures
            old(self).stops(stopped, *final(self)),
            final(self).handed() == old(self).handed(),
    ;

    /// Plays a frame.
    fn play(&mut self, frame: AudioFrame) -> (played: Result<(), AudioError>)
        ensures
            old(self).plays(frame@, played, *final(self)),
            final(self).handed() == old(self).handed().push(frame@),
    ;

    /// Plays with little delay from now on, and says whether it can.
    fn enable_low_latency(&mut self) -> (enabled: Result<bool, AudioError>)
        ensures
            old(self).enables(enabled, *final(self)),
            final(self).handed() == old(self).handed(),
    ;
}

/// Settings of a line out.
#[derive(Debug, Clone, Copy, PartialEq, Eq, Structural)]
pub struct QueuedLineSinkConfig {
    pub samplerate: u32,
    pub channels: u8,
    pub max_frames: usize,
    pub autostart_min: usize,
    pub frame_timeout: usize,
    pub autodigest: bool,
    pub low_latency: bool,
}

impl Default for QueuedLineSinkConfig {
    fn default() -> (config: Self)
        ensures
            config == (QueuedLineSinkConfig {
                samplerate: 48_000,
                channels: 1,
                max_frames: 6,
                autostart_min: 1,
                frame_timeout: 8,
                autodigest: true,
                low_latency: false,
            }),
    {
        QueuedLineSinkConfig {
            samplerate: 48_000,
            channels: 1,
            max_frames: 6,
            autostart_min: 1,
            frame_timeout: 8,
            autodigest: true,
            low_latency: false,
        }
    }
}

/// The larger of two counts.
pub open spec fn at_least(count: usize, least: usize) -> usize {
    if count < least {
        least
    } else {
        count
    }
}

impl QueuedLineSinkConfig {
    /// The settings with no count below one.
    pub open spec fn normalized(self) -> QueuedLineSinkConfig {
        QueuedLineSinkConfig {
            max_frames: at_least(self.max_frames, 1),
            autostart_min: at_least(self.autostart_min, 1),
            frame_timeout: at_least(self.frame_timeout, 1),
            ..self
        }
    }

    /// Up to how many waiting frames the line takes more: three less than fit, at least one.
    pub open spec fn buffer_height(self) -> usize {
        if self.max_frames < 4 {
            1
        } else {
            (self.max_frames - 3) as usize
        }
    }
}

/// What was measured while playing.
#[derive(Debug, Clone, Copy, PartialEq, Eq, Structural)]
pub struct QueuedLineSinkStats {
    pub output_latency: Nanos,
    pub max_latency: Nanos,
    pub underrun_at: Option<Nanos>,
    pub low_latency_enabled: bool,
}

impl Default for QueuedLineSinkStats {
    fn default() -> (stats: Self)
        ensures
            stats == (QueuedLineSinkStats {
                output_latency: 0,
                max_latency: 0,
                underrun_at: None,
                low_latency_enabled: false,
            }),
    {
        QueuedLineSinkStats {
            output_latency: 0,
            max_latency: 0,
            underrun_at: None,
            low_latency_enabled: false,
        }
    }
}

/// What plays the queue.
pub enum LineWorker<P> {
    /// Plays, with frames of the given length.
    Running { backend: P, frame_time: Nanos },
    /// Stopped after the queue was played.
    Finished { backend: P },
    /// Stopped because playing failed.
    Failed { error: AudioError },
}

/// What one step of the worker did.
#[derive(Debug, Clone, Copy, PartialEq, Eq, Structural)]
pub enum LineStep {
    /// A frame was played.
    Played,
    /// There was no frame to play.
    Waited,
    /// The worker has nothing more to do.
    Stopped,
}

/// A line out. Whoever runs it calls `step` again and again while `is_working`.
pub struct QueuedLineSink<P: LinePlayback> {
    config: QueuedLineSinkConfig,
    buffer_max_height: usize,
    queue: VecDeque<AudioFrame>,
    should_run: bool,
    wants_low_latency: bool,
    stats: QueuedLineSinkStats,
    backend: Option<P>,
    worker: Option<LineWorker<P>>,
    samples_per_frame: Option<usize>,
    frame_time: Option<Nanos>,
}

/// A line out as a mathematical value.
pub struct LineModel<P> {
    pub config: QueuedLineSinkConfig,
    pub queue: Seq<AudioModel>,
    pub should_run: bool,
    pub wants_low_latency: bool,
    pub stats: QueuedLineSinkStats,
    pub backend: Option<P>,
    pub worker: Option<LineWorker<P>>,
    pub samples_per_frame: Option<usize>,
    pub frame_time: Option<Nanos>,
}

/// Frames as mathematical values.
pub open spec fn audio_models(frames: Seq<AudioFrame>) -> Seq<AudioModel> {
    frames.map_values(|frame: AudioFrame| frame@)
}

/// A span taken several times, as long as can be written down.
pub open spec fn repeated(span: Nanos, times: u32) -> Nanos {
    if span * times > u64::MAX {
        u64::MAX
    } else {
        (span * times) as u64
    }
}

/// A span taken several times, as long as can be written down.
pub fn repeat_span(span: Nanos, times: u32) -> (total: Nanos)
    ensures
        total == repeated(span, times),
{
    match span.checked_mul(times as u64) {
        Some(total) => total,
        None => u64::MAX,
    }
}

/// The digits of a tenth in single precision: it is so many of 2 to the power of -27.
pub const TENTH_DIGITS: u64 = 13_421_773;

/// A tenth of a span, in nanoseconds. It is taken in single precision: the whole seconds, the
/// nanoseconds, these in seconds, the sum and the product are rounded each; the product is
/// taken to the nearest nanosecond.
pub open spec fn tenth_span(span: int) -> int {
    let one = crate::rounding::single_one();
    let limit = SINGLE_LIMIT as int;
    let whole = crate::rounding::rounded((span / 1_000_000_000) * one, 1, limit);
    let nanos = crate::rounding::rounded((span % 1_000_000_000) * one, 1, limit);
    let part = crate::rounding::rounded(nanos, 1_000_000_000, limit);
    let seconds = crate::rounding::rounded(whole + part, 1, limit);
    let tenth = crate::rounding::rounded(seconds * TENTH_DIGITS, 0x800_0000, limit);
    crate::rounding::half_even(tenth * 1_000_000_000, one)
}

/// A span in seconds, in single precision, in units of 2 to the power of -54.
fn single_seconds(span: Nanos) -> (seconds: u128)
    ensures
        seconds * pow2(95) == ({
            let one = crate::rounding::single_one();
            let limit = SINGLE_LIMIT as int;
            let whole = crate::rounding::rounded((span as int / 1_000_000_000) * one, 1, limit);
            let nanos = crate::rounding::rounded((span as int % 1_000_000_000) * one, 1, limit);
            let part = crate::rounding::rounded(nanos, 1_000_000_000, limit);
            crate::rounding::rounded(whole + part, 1, limit)
        }),
        seconds == 0 || seconds >= 0x80_0000,
        seconds <= 0x500_0000_0000_0000_0000_0000,
{
    let one: u128 = 0x40_0000_0000_0000;
    let whole_number: u128 = (span / 1_000_000_000) as u128 * one;
    let nanos_number: u128 = (span % 1_000_000_000) as u128 * one;
    let whole = round_value(whole_number, 1, SINGLE_LIMIT);
    let nanos = round_value(nanos_number, 1, SINGLE_LIMIT);
    let ghost limit = SINGLE_LIMIT as int;
    proof {
        lemma2_to64();
        lemma2_to64_rest();
        crate::rounding::lemma_rounded_least(nanos_number as int, limit, 54);
        crate::rounding::lemma_rounded_least(whole_number as int, limit, 54);
    }
    let part = round_value(nanos, 1_000_000_000, SINGLE_LIMIT);
    proof {
        crate::rounding::lemma_rounded_digits(nanos as int, 1_000_000_000, limit);
    }
    let total: u128 = whole + part;
    let seconds = round_value(total, 1, SINGLE_LIMIT);
    proof {
        let high = pow2(95) as int;
        lemma2_to64();
        lemma2_to64_rest();
        lemma_pow2_adds(54, 95);
        crate::rounding::lemma_rounded_digits(total as int, 1, limit);
        crate::rounding::lemma_rounded_shifted(whole_number as int, 1, limit, 95);
        crate::rounding::lemma_rounded_shifted(nanos_number as int, 1, limit, 95);
        crate::rounding::lemma_rounded_shifted(nanos as int, 1_000_000_000, limit, 95);
        crate::rounding::lemma_rounded_shifted(total as int, 1, limit, 95);
        assert(whole_number * high == (span as int / 1_000_000_000) * (one * high))
            by (nonlinear_arith)
            requires
                whole_number == (span as int / 1_000_000_000) * one,
        ;
        assert(nanos_number * high == (span as int % 1_000_000_000) * (one * high))
            by (nonlinear_arith)
            requires
                nanos_number == (span as int % 1_000_000_000) * one,
        ;
        assert((whole + part) * high == whole * high + part * high) by (nonlinear_arith);
    }
    seconds
}

/// A tenth of a span.
pub fn tenth_of(span: Nanos) -> (tenth: Nanos)
    ensures
        tenth == tenth_span(span as int),
{
    let seconds = single_seconds(span);
    let number: u128 = seconds * 0x100 * TENTH_DIGITS as u128;
    let product = round_value(number, 0x800_0000, SINGLE_LIMIT);
    let nearest = nearest_even(product * 1_000_000_000, 0x4000_0000_0000_0000);
    proof {
        let limit = SINGLE_LIMIT as int;
        let high = pow2(87) as int;
        let wide = pow2(95) as int;
        lemma2_to64();
        lemma2_to64_rest();
        lemma_pow2_adds(8, 87);
        lemma_pow2_adds(62, 87);
        lemma_pow2_pos(87);
        crate::rounding::lemma_rounded_shifted(number as int, 0x800_0000, limit, 87);
        assert(number * high == (seconds * wide) * TENTH_DIGITS) by (nonlinear_arith)
            requires
                number == seconds * 0x100 * TENTH_DIGITS,
                wide == 0x100 * high,
        ;
        crate::rounding::lemma_half_even_common(
            product * 1_000_000_000,
            0x4000_0000_0000_0000,
            high,
        );
        assert((product * 1_000_000_000) * high == (product * high) * 1_000_000_000)
            by (nonlinear_arith);
        crate::rounding::lemma_half_even_most(
            product * 1_000_000_000,
            0x4000_0000_0000_0000,
            u64::MAX as int,
        );
    }
    nearest as Nanos
}

/// The smallest power of two that brings a number up to `least`.
pub open spec fn scale_to(number: int, least: int) -> int
    decreases 2 * least - number,
{
    if number <= 0 || number >= least {
        1
    } else {
        2 * scale_to(2 * number, least)
    }
}

/// How many units the mantissa of a double precision number has at least.
pub const DOUBLE_UNITS: u64 = 0x10_0000_0000_0000;

/// The length of a number of samples in nanoseconds: the quotient in seconds is taken to the
/// nearest double precision number, and that one to the nearest nanosecond.
pub open spec fn sample_span(samples: int, samplerate: int) -> int {
    let scale = scale_to(samples, samplerate * DOUBLE_UNITS);
    crate::rounding::half_even(
        crate::rounding::half_even(samples * scale, samplerate) * 1_000_000_000,
        scale,
    )
}

/// Samples that do not last longer than some seconds are not measured as longer.
pub proof fn lemma_span_bound(samples: int, samplerate: int, seconds: int)
    requires
        samples >= 0,
        samplerate > 0,
        samples <= seconds * samplerate,
    ensures
        sample_span(samples, samplerate) <= seconds * 1_000_000_000,
{
    let scale = scale_to(samples, samplerate * DOUBLE_UNITS);
    lemma_scale_is_positive(samples, samplerate * DOUBLE_UNITS);
    assert(samples * scale <= (seconds * scale) * samplerate) by (nonlinear_arith)
        requires
            samples <= seconds * samplerate,
            scale > 0,
    ;
    crate::rounding::lemma_half_even_most(samples * scale, samplerate, seconds * scale);
    let mantissa = crate::rounding::half_even(samples * scale, samplerate);
    assert(mantissa * 1_000_000_000 <= (seconds * 1_000_000_000) * scale) by (nonlinear_arith)
        requires
            mantissa <= seconds * scale,
    ;
    crate::rounding::lemma_half_even_most(mantissa * 1_000_000_000, scale, seconds * 1_000_000_000);
}

proof fn lemma_scale_is_positive(number: int, least: int)
    ensures
        scale_to(number, least) > 0,
    decreases 2 * least - number,
{
    if 0 < number < least {
        lemma_scale_is_positive(2 * number, least);
    }
}

/// The length of a number of samples.
pub fn span_of_samples(samples: usize, samplerate: u32) -> (span: Nanos)
    requires
        samplerate > 0,
        samples <= 2 * DOUBLE_UNITS,
        sample_span(samples as int, samplerate as int) <= u64::MAX,
    ensures
        span == sample_span(samples as int, samplerate as int),
{
    let rate: u128 = samplerate as u128;
    let least: u128 = rate * DOUBLE_UNITS as u128;
    let mut scaled: u128 = samples as u128;
    let mut scale: u128 = 1;
    while 0 < scaled && scaled < least
        invariant
            rate == samplerate,
            0 < rate <= u32::MAX,
            least == rate * DOUBLE_UNITS,
            scaled == samples * scale,
            1 <= scale,
            samples > 0 ==> scale <= scaled,
            samples == 0 ==> scale == 1,
            scaled < 2 * least || scaled <= 2 * DOUBLE_UNITS,
            scale * scale_to(scaled as int, least as int) == scale_to(samples as int, least as int),
        decreases 2 * least - scaled,
    {
        proof {
            assert(2 * scaled == samples * (2 * scale)) by (nonlinear_arith)
                requires
                    scaled == samples * scale,
            ;
            let rest = scale_to(2 * scaled as int, least as int);
            assert(scale * (2 * rest) == (2 * scale) * rest) by (nonlinear_arith);
            assert(samples > 0) by (nonlinear_arith)
                requires
                    scaled == samples * scale,
                    scaled > 0,
                    samples >= 0,
                    scale >= 1,
            ;
        }
        scaled = 2 * scaled;
        scale = 2 * scale;
    }
    proof {
        assert(scale_to(scaled as int, least as int) == 1);
        assert(scale * 1 == scale);
        assert(scale <= 0x1000_0000_0000_0000_0000_0000);
    }
    let mantissa: u128 = nearest_even(scaled, rate);
    proof {
        assert(mantissa <= 2 * DOUBLE_UNITS + 1) by {
            vstd::arithmetic::div_mod::lemma_fundamental_div_mod(scaled as int, rate as int);
            assert(scaled / rate <= 2 * DOUBLE_UNITS) by (nonlinear_arith)
                requires
                    scaled < 2 * (rate * DOUBLE_UNITS) || scaled <= 2 * DOUBLE_UNITS,
                    rate >= 1,
                    scaled >= 0,
            ;
        }
    }
    nearest_even(mantissa * 1_000_000_000u128, scale) as u64
}

impl<P> LineModel<P> {
    /// What holds of every line out.
    pub open spec fn wf(self) -> bool {
        &&& self.config.samplerate > 0
        &&& self.config.channels > 0
        &&& self.config == self.config.normalized()
        &&& self.queue.len() <= self.config.max_frames
        &&& self.frame_time is Some <==> self.samples_per_frame is Some
        &&& forall|i: int|
            0 <= i < self.queue.len() ==> {
                &&& (#[trigger] self.queue[i]).wf()
                &&& self.queue[i].samplerate == self.config.samplerate
                &&& self.queue[i].channels == self.config.channels
            }
    }

    /// The queue with one frame more at its end, the oldest one dropped where it was full.
    pub open spec fn queue_with(self, frame: AudioModel) -> Seq<AudioModel> {
        (if self.queue.len() >= self.config.max_frames {
            self.queue.skip(1)
        } else {
            self.queue
        }).push(frame)
    }

    /// A frame in the form in which it is queued.
    pub open spec fn conformed(self, frame: AudioModel) -> AudioModel {
        frame.with_channels(self.config.channels).clipped()
    }

    /// Samples per frame once this frame was taken.
    pub open spec fn samples_with(self, frame: AudioModel) -> usize {
        match self.samples_per_frame {
            Some(samples) => samples,
            None => self.conformed(frame).frame_count() as usize,
        }
    }

    /// The length of a frame once this frame was taken.
    pub open spec fn frame_time_with(self, frame: AudioModel) -> Nanos {
        match self.frame_time {
            Some(span) => span,
            None => sample_span(
                self.conformed(frame).frame_count() as int,
                self.config.samplerate as int,
            ) as Nanos,
        }
    }

    /// Whether taking this frame makes the line play by itself.
    pub open spec fn starts_with(self, frame: AudioModel) -> bool {
        self.config.autodigest && self.queue_with(frame).len() >= self.config.autostart_min
            && !self.should_run
    }

    /// The line with this frame queued.
    pub open spec fn filled(self, frame: AudioModel) -> LineModel<P> {
        LineModel {
            queue: self.queue_with(self.conformed(frame)),
            samples_per_frame: Some(self.samples_with(frame)),
            frame_time: Some(self.frame_time_with(frame)),
            ..self
        }
    }

    /// The length of a frame that a worker goes by: twenty milliseconds where it is not known.
    pub open spec fn worker_time(self) -> Nanos {
        match self.frame_time {
            Some(span) => span,
            None => 20_000_000,
        }
    }

    /// The line with a worker.
    pub open spec fn with_worker(self, worker: LineWorker<P>) -> LineModel<P> {
        LineModel { worker: Some(worker), ..self }
    }

    /// Whether a worker plays.
    pub open spec fn working(self) -> bool {
        self.worker matches Some(worker) && worker is Running
    }

    /// The line after its oldest frame was played.
    pub open spec fn played(self, frame_time: Nanos) -> LineModel<P> {
        LineModel {
            queue: self.queue_after_play(),
            stats: self.stats_on_play(frame_time),
            ..self
        }
    }

    /// The line after its oldest frame could not be played.
    pub open spec fn not_played(self, frame_time: Nanos, error: AudioError) -> LineModel<P> {
        LineModel {
            queue: self.queue.skip(1),
            stats: self.stats_on_play(frame_time),
            ..self.with_worker(LineWorker::Failed { error })
        }
    }

    /// The line after there was nothing to play.
    pub open spec fn run_dry(self, frame_time: Nanos, now: Nanos) -> LineModel<P> {
        LineModel {
            should_run: !self.gives_up(frame_time, now),
            stats: QueuedLineSinkStats {
                underrun_at: match self.stats.underrun_at {
                    Some(since) => Some(since),
                    None => Some(now),
                },
                ..self.stats
            },
            ..self
        }
    }

    /// The line after it was asked for little delay, which the playback has or has not.
    pub open spec fn low_latency_asked(self, can: bool) -> LineModel<P> {
        LineModel {
            wants_low_latency: false,
            stats: QueuedLineSinkStats {
                low_latency_enabled: self.stats.low_latency_enabled || can,
                ..self.stats
            },
            ..self
        }
    }

    /// The queue after a frame of it was played: the next one is dropped too where more are
    /// waiting than should.
    pub open spec fn queue_after_play(self) -> Seq<AudioModel> {
        if self.queue.skip(1).len() > self.config.buffer_height() {
            self.queue.skip(2)
        } else {
            self.queue.skip(1)
        }
    }

    /// What is measured when a frame is played.
    pub open spec fn stats_on_play(self, frame_time: Nanos) -> QueuedLineSinkStats {
        QueuedLineSinkStats {
            output_latency: repeated(frame_time, (self.queue.len() - 1) as u32),
            max_latency: repeated(frame_time, self.config.buffer_height() as u32),
            underrun_at: None,
            ..self.stats
        }
    }

    /// Whether the line ran dry for too long.
    pub open spec fn gives_up(self, frame_time: Nanos, now: Nanos) -> bool {
        self.stats.underrun_at matches Some(since) && now - since > repeated(
            frame_time,
            self.config.frame_timeout as u32,
        )
    }
}

impl<P: LinePlayback> QueuedLineSink<P> {
    /// The line out as a mathematical value.
    pub closed spec fn view(&self) -> LineModel<P> {
        LineModel {
            config: self.config,
            queue: audio_models(self.queue@),
            should_run: self.should_run,
            wants_low_latency: self.wants_low_latency,
            stats: self.stats,
            backend: self.backend,
            worker: self.worker,
            samples_per_frame: self.samples_per_frame,
            frame_time: self.frame_time,
        }
    }

    /// What holds of every line out.
    pub closed spec fn wf(&self) -> bool {
        &&& self@.wf()
        &&& self.buffer_max_height == self.config.buffer_height()
    }

    /// A line out that waits for frames.
    pub fn new(backend: P, config: QueuedLineSinkConfig) -> (sink: Result<Self, AudioError>)
        ensures
            match sink {
                Ok(sink) => {
                    &&& config.samplerate > 0 && config.channels > 0
                    &&& sink.wf()
                    &&& sink@ == (LineModel {
                        config: config.normalized(),
                        queue: Seq::empty(),
                        should_run: false,
                        wants_low_latency: false,
                        stats: QueuedLineSinkStats {
                            output_latency: 0,
                            max_latency: 0,
                            underrun_at: None,
                            low_latency_enabled: false,
                        },
                        backend: Some(backend),
                        worker: None,
                        samples_per_frame: None,
                        frame_time: None,
                    })
                },
                Err(error) => crate::audio::frame_error(config.samplerate, config.channels, 0)
                    == Some(error),
            },
    {
        match AudioFrame::silence(config.samplerate, config.channels, 0) {
            Ok(_) => {},
            Err(error) => return Err(error),
        }
        let max_frames: usize = if config.max_frames < 1 {
            1
        } else {
            config.max_frames
        };
        let buffer_max_height: usize = if max_frames < 4 {
            1
        } else {
            max_frames - 3
        };
        let sink = QueuedLineSink {
            buffer_max_height,
            config: QueuedLineSinkConfig {
                max_frames,
                autostart_min: if config.autostart_min < 1 {
                    1
                } else {
                    config.autostart_min
                },
                frame_timeout: if config.frame_timeout < 1 {
                    1
                } else {
                    config.frame_timeout
                },
                ..config
            },
            queue: VecDeque::new(),
            should_run: false,
            wants_low_latency: false,
            stats: QueuedLineSinkStats::default(),
            backend: Some(backend),
            worker: None,
            samples_per_frame: None,
            frame_time: None,
        };
        assert(sink@.queue =~= Seq::empty());
        Ok(sink)
    }

    /// Whether the line wants more frames.
    pub fn can_receive(&self) -> (ready: bool)
        requires
            self.wf(),
        ensures
            ready == (self@.queue.len() < self@.config.buffer_height()),
    {
        self.queue.len() < self.buffer_max_height
    }

    /// How many frames wait.
    pub fn queued_frames(&self) -> (count: usize)
        ensures
            count == self@.queue.len(),
    {
        self.queue.len()
    }

    /// Whether the line is to go on playing.
    pub fn is_running(&self) -> (running: bool)
        ensures
            running == self@.should_run,
    {
        self.should_run
    }

    /// Whether the worker has more to do.
    pub fn is_working(&self) -> (working: bool)
        ensures
            working == (self@.worker matches Some(worker) && worker is Running),
    {
        matches!(self.worker, Some(LineWorker::Running { .. }))
    }

    /// What was measured while playing.
    pub fn stats(&self) -> (stats: QueuedLineSinkStats)
        ensures
            stats == self@.stats,
    {
        self.stats
    }

    /// Samples per frame and channel, once a frame was taken.
    pub fn samples_per_frame(&self) -> (samples: Option<usize>)
        ensures
            samples == self@.samples_per_frame,
    {
        self.samples_per_frame
    }

    /// The length of a frame, once a frame was taken.
    pub fn frame_time(&self) -> (span: Option<Nanos>)
        ensures
            span == self@.frame_time,
    {
        self.frame_time
    }

    /// Asks for playing with little delay. The worker does so at its next step.
    pub fn enable_low_latency(&mut self)
        requires
            old(self).wf(),
        ensures
            final(self).wf(),
            final(self)@ == (LineModel { wants_low_latency: true, ..old(self)@ }),
    {
        self.wants_low_latency = true;
    }

    /// Whether a frame has another sample rate than the line, so that it is to be
    /// resampled before it is handed over.
    pub fn needs_resampling(&self, frame: &AudioFrame) -> (needed: bool)
        ensures
            needed == (frame@.samplerate != self@.config.samplerate),
    {
        frame.samplerate() != self.config.samplerate
    }

    /// Queues a frame of the line's sample rate, with the line's channels and limited to the
    /// range from minus one to one. Where the queue is full the oldest frame is dropped. The
    /// line may begin to play.
    pub fn handle_frame(&mut self, frame: AudioFrame) -> (handled: Result<(), AudioError>)
        requires
            old(self).wf(),
            frame@.samplerate == old(self)@.config.samplerate,
            frame@.frame_count() <= 2 * DOUBLE_UNITS,
            sample_span(frame@.frame_count() as int, frame@.samplerate as int) <= u64::MAX,
        ensures
            final(self).wf(),
            !old(self)@.starts_with(frame@) ==> handled is Ok && final(self)@ == old(self)@.filled(
                frame@,
            ),
            old(self)@.starts_with(frame@) ==> start_outcome(
                old(self)@.filled(frame@),
                handled,
                final(self)@,
            ),
    {
        frame.recall();
        let conformed = match frame.with_channels(self.config.channels) {
            Ok(frame) => frame.clipped(),
            Err(error) => return Err(error),
        };
        proof {
            lemma_rechanneled_count(frame@, self.config.channels);
            assert(conformed@ == self@.conformed(frame@));
        }
        let ghost before = self@;
        if self.samples_per_frame.is_none() {
            let frame_count = conformed.frame_count();
            self.samples_per_frame = Some(frame_count);
            self.frame_time = Some(span_of_samples(frame_count, self.config.samplerate));
        }
        let ghost old_queue = self.queue@;
        if self.queue.len() >= self.config.max_frames {
            self.queue.pop_front();
            assert(self.queue@ =~= old_queue.skip(1));
        }
        let ghost kept = self.queue@;
        self.queue.push_back(conformed);
        proof {
            assert(audio_models(old_queue) == before.queue);
            if old_queue.len() > 0 {
                assert(audio_models(old_queue.skip(1)) =~= before.queue.skip(1));
            }
            assert(audio_models(kept.push(conformed)) =~= audio_models(kept).push(conformed@));
            assert(self@.queue =~= before.queue_with(conformed@));
            assert(self@ == before.filled(frame@));
            assert forall|i: int| 0 <= i < self@.queue.len() implies {
                &&& (#[trigger] self@.queue[i]).wf()
                &&& self@.queue[i].samplerate == self@.config.samplerate
                &&& self@.queue[i].channels == self@.config.channels
            } by {
                if i < self@.queue.len() - 1 {
                    if before.queue.len() >= before.config.max_frames {
                        assert(self@.queue[i] == before.queue[i + 1]);
                    } else {
                        assert(self@.queue[i] == before.queue[i]);
                    }
                }
            }
        }
        if self.config.autodigest && self.queue.len() >= self.config.autostart_min
            && !self.should_run {
            return self.start();
        }
        Ok(())
    }

    /// Begins to play, or goes on where the worker was not collected yet.
    pub fn start(&mut self) -> (started: Result<(), AudioError>)
        requires
            old(self).wf(),
        ensures
            final(self).wf(),
            start_outcome(old(self)@, started, final(self)@),
    {
        if self.worker.is_some() {
            self.should_run = true;
            return Ok(());
        }
        let ghost before = self@;
        let mut backend = match self.backend.take() {
            Some(backend) => backend,
            None => {
                return Err(
                    AudioError::Stream("queued line sink backend is unavailable".to_owned()),
                );
            },
        };
        let began = backend.start();
        let ghost outcome = began;
        match began {
            Ok(()) => {},
            Err(error) => {
                proof {
                    lemma_start_outcome(before, outcome, backend, Err(error), self@);
                }
                return Err(error);
            },
        }
        self.should_run = true;
        if self.config.low_latency {
            self.wants_low_latency = true;
        }
        let frame_time: Nanos = match self.frame_time {
            Some(span) => span,
            None => 20_000_000,
        };
        let ghost running = backend;
        self.worker = Some(LineWorker::Running { backend, frame_time });
        proof {
            lemma_start_outcome(before, outcome, running, Ok(()), self@);
        }
        Ok(())
    }

    /// The length of a frame that a running worker goes by.
    pub fn worker_frame_time(&self) -> (span: Option<Nanos>)
        ensures
            span == (match self@.worker {
                Some(LineWorker::Running { frame_time, .. }) => Some(frame_time),
                _ => None,
            }),
    {
        match &self.worker {
            Some(LineWorker::Running { frame_time, .. }) => Some(*frame_time),
            _ => None,
        }
    }

    /// How long the worker is to wait for a frame before its next step: a tenth of the length
    /// of a frame, but at least a millisecond. Nothing where a frame is there or playing is to
    /// end.
    pub fn wait_time(&self) -> (span: Option<Nanos>)
        ensures
            span == (match self@.worker {
                Some(LineWorker::Running { frame_time, .. }) => if self@.queue.len() == 0
                    && self@.should_run {
                    Some(
                        if tenth_span(frame_time as int) < 1_000_000 {
                            1_000_000
                        } else {
                            tenth_span(frame_time as int) as Nanos
                        },
                    )
                } else {
                    None
                },
                _ => None,
            }),
    {
        match &self.worker {
            Some(LineWorker::Running { frame_time, .. }) => {
                if self.queue.len() > 0 || !self.should_run {
                    return None;
                }
                let tenth = tenth_of(*frame_time);
                if tenth < 1_000_000 {
                    Some(1_000_000)
                } else {
                    Some(tenth)
                }
            },
            _ => None,
        }
    }

    /// One step of the worker: plays the oldest frame, or notes that there is none. A line
    /// that ran dry for too long, or was stopped, ends once its queue is empty.
    pub fn step(&mut self, now: Nanos) -> (done: LineStep)
        requires
            old(self).wf(),
        ensures
            final(self).wf(),
            match old(self)@.worker {
                Some(LineWorker::Running { backend, frame_time }) => step_outcome(
                    old(self)@,
                    backend,
                    frame_time,
                    now,
                    done,
                    final(self)@,
                ),
                _ => done is Stopped && final(self)@ == old(self)@,
            },
    {
        let (mut backend, frame_time) = match self.worker.take() {
            Some(LineWorker::Running { backend, frame_time }) => (backend, frame_time),
            other => {
                self.worker = other;
                return LineStep::Stopped;
            },
        };
        let ghost begun = old(self)@;
        let ghost before = self@.queue;
        let ghost first = backend;
        assert(before == begun.queue);
        let mut done = LineStep::Waited;
        match self.queue.pop_front() {
            Some(frame) => {
                assert(before.len() > 0 && frame@ == before[0]);
                assert(self@.queue =~= before.skip(1));
                self.stats.output_latency = repeat_span(frame_time, self.queue.len() as u32);
                self.stats.max_latency = repeat_span(frame_time, self.buffer_max_height as u32);
                self.stats.underrun_at = None;
                let played = backend.play(frame);
                let ghost outcome = played;
                match played {
                    Ok(()) => {},
                    Err(error) => {
                        self.worker = Some(LineWorker::Failed { error });
                        proof {
                            assert(self@ == begun.not_played(frame_time, error));
                            lemma_play_fails(begun, first, frame_time, now, outcome, backend, self@);
                        }
                        return LineStep::Stopped;
                    },
                }
                if self.queue.len() > self.buffer_max_height {
                    self.queue.pop_front();
                    assert(self@.queue =~= before.skip(2));
                }
                done = LineStep::Played;
                assert(first.plays(begun.queue[0], outcome, backend));
                assert(outcome is Ok);
                assert(self@.queue =~= begun.queue_after_play());
            },
            None => {
                if self.should_run {
                    match self.stats.underrun_at {
                        Some(since) => {
                            if now.saturating_sub(since) > repeat_span(
                                frame_time,
                                self.config.frame_timeout as u32,
                            ) {
                                self.should_run = false;
                            }
                        },
                        None => {
                            self.stats.underrun_at = Some(now);
                        },
                    }
                } else {
                    let stopped = backend.stop();
                    let ghost outcome = stopped;
                    let ghost last = backend;
                    self.worker = Some(
                        match stopped {
                            Ok(()) => LineWorker::Finished { backend },
                            Err(error) => LineWorker::Failed { error },
                        },
                    );
                    proof {
                        lemma_end_outcome(begun, first, frame_time, now, outcome, last, self@);
                    }
                    return LineStep::Stopped;
                }
            },
        }
        let ghost line = LineModel { worker: begun.worker, ..self@ };
        let ghost next = backend;
        proof {
            if begun.queue.len() > 0 {
                assert(line == begun.played(frame_time));
            } else {
                assert(line.queue =~= begun.queue);
                assert(line == begun.run_dry(frame_time, now));
            }
        }
        if self.wants_low_latency {
            self.wants_low_latency = false;
            let enabled = backend.enable_low_latency();
            let ghost outcome = enabled;
            match enabled {
                Ok(true) => {
                    self.stats.low_latency_enabled = true;
                },
                Ok(false) => {},
                Err(error) => {
                    self.worker = Some(LineWorker::Failed { error });
                    proof {
                        assert(next.enables(outcome, backend));
                        assert(goes_on(
                            line,
                            next,
                            frame_time,
                            done,
                            LineStep::Stopped,
                            self@,
                        ));
                        lemma_step_goes_on(begun, first, frame_time, now, next, LineStep::Stopped, self@);
                    }
                    return LineStep::Stopped;
                },
            }
            assert(next.enables(outcome, backend));
        }
        self.worker = Some(LineWorker::Running { backend, frame_time });
        proof {
            assert(goes_on(line, next, frame_time, done, done, self@));
            lemma_step_goes_on(begun, first, frame_time, now, next, done, self@);
        }
        done
    }

    /// Ends playing: lets the worker play what still waits, then takes the playback back.
    pub fn stop(&mut self, now: Nanos) -> (stopped: Result<(), AudioError>)
        requires
            old(self).wf(),
        ensures
            final(self).wf(),
            stop_outcome(
                LineModel { should_run: false, ..old(self)@ },
                now,
                stopped,
                final(self)@,
            ),
            old(self)@.worker matches Some(LineWorker::Running { backend, .. }) ==> stopped is Ok ==> {
                &&& final(self)@.queue.len() == 0
                &&& final(self)@.backend is Some
                &&& backend.handed().is_prefix_of(final(self)@.backend->0.handed())
                &&& old(self)@.queue.len() <= old(self)@.config.buffer_height()
                    ==> final(self)@.backend->0.handed() == backend.handed() + old(self)@.queue
            },
    {
        self.should_run = false;
        let ghost begun = self@;
        let ghost first = match self@.worker {
            Some(LineWorker::Running { backend, .. }) => backend.handed(),
            _ => Seq::empty(),
        };
        while self.is_working()
            invariant
                self.wf(),
                !self@.should_run,
                self@.config == begun.config,
                !begun.working() ==> self@ == begun,
                begun.working() ==> drained(first, begun.queue, begun.config, self@),
                begun.worker matches Some(LineWorker::Running { backend, .. }) ==> first
                    == backend.handed(),
                forall|last: LineModel<P>| #[trigger]
                    runs_out(self@, now, last) ==> runs_out(begun, now, last),
            decreases self@.queue.len(), (if self@.working() {
                1int
            } else {
                0
            }),
        {
            let ghost before = self@;
            let done = self.step(now);
            proof {
                lemma_drained_step(first, begun.queue, begun.config, before, self@, now, done);
                assert forall|last: LineModel<P>| #[trigger] runs_out(self@, now, last) implies runs_out(
                    begun,
                    now,
                    last,
                ) by {
                    lemma_runs_out_step(before, now, done, self@, last);
                    assert(runs_out(before, now, last));
                }
            }
        }
        let ghost last = self@;
        assert(runs_out(last, now, last));
        assert(runs_out(begun, now, last));
        match self.worker.take() {
            Some(LineWorker::Finished { backend }) => {
                self.backend = Some(backend);
                Ok(())
            },
            Some(LineWorker::Failed { error }) => Err(error),
            _ => Ok(()),
        }
    }
}

/// What beginning to play does: a worker that was not collected goes on, a playback that was
/// handed back is begun, and without one there is an error. Where the playback does not begin
/// it is lost, and its error is told.
pub open spec fn start_outcome<P: LinePlayback>(
    before: LineModel<P>,
    started: Result<(), AudioError>,
    after: LineModel<P>,
) -> bool {
    if before.worker is Some {
        &&& started is Ok
        &&& after == (LineModel { should_run: true, ..before })
    } else if before.backend is None {
        &&& started matches Err(AudioError::Stream(text))
        &&& text@ == "queued line sink backend is unavailable"@
        &&& after == before
    } else {
        exists|began: Result<(), AudioError>, running: P|
            {
                &&& #[trigger] before.backend->0.starts(began, running)
                &&& running.handed() == before.backend->0.handed()
                &&& match began {
                    Ok(_) => {
                        &&& started is Ok
                        &&& after == (LineModel {
                            should_run: true,
                            wants_low_latency: before.wants_low_latency
                                || before.config.low_latency,
                            backend: None,
                            ..before
                        }).with_worker(
                            LineWorker::Running {
                                backend: running,
                                frame_time: before.worker_time(),
                            },
                        )
                    },
                    Err(error) => {
                        &&& started == Err::<(), AudioError>(error)
                        &&& after == (LineModel { backend: None, ..before })
                    },
                }
            }
    }
}

proof fn lemma_start_outcome<P: LinePlayback>(
    before: LineModel<P>,
    began: Result<(), AudioError>,
    running: P,
    started: Result<(), AudioError>,
    after: LineModel<P>,
)
    requires
        before.worker is None,
        before.backend is Some,
        before.backend->0.starts(began, running),
        running.handed() == before.backend->0.handed(),
        match began {
            Ok(_) => {
                &&& started is Ok
                &&& after == (LineModel {
                    should_run: true,
                    wants_low_latency: before.wants_low_latency || before.config.low_latency,
                    backend: None,
                    ..before
                }).with_worker(
                    LineWorker::Running { backend: running, frame_time: before.worker_time() },
                )
            },
            Err(error) => {
                &&& started == Err::<(), AudioError>(error)
                &&& after == (LineModel { backend: None, ..before })
            },
        },
    ensures
        start_outcome(before, started, after),
{
}

/// What the end of a step does: where little delay is wished the playback is asked for it, and
/// where that fails the worker fails with its error.
pub open spec fn goes_on<P: LinePlayback>(
    line: LineModel<P>,
    backend: P,
    frame_time: Nanos,
    step: LineStep,
    done: LineStep,
    after: LineModel<P>,
) -> bool {
    if line.wants_low_latency {
        exists|enabled: Result<bool, AudioError>, next: P|
            {
                &&& #[trigger] backend.enables(enabled, next)
                &&& next.handed() == backend.handed()
                &&& match enabled {
                    Ok(can) => {
                        &&& done == step
                        &&& after == line.low_latency_asked(can).with_worker(
                            LineWorker::Running { backend: next, frame_time },
                        )
                    },
                    Err(error) => {
                        &&& done is Stopped
                        &&& after == line.low_latency_asked(false).with_worker(
                            LineWorker::Failed { error },
                        )
                    },
                }
            }
    } else {
        &&& done == step
        &&& after == line.with_worker(LineWorker::Running { backend, frame_time })
    }
}

/// What a step of a running worker does: the oldest frame is handed to the playback; where
/// there is none the worker waits, or ends the playback where playing is to end. What fails
/// there makes the worker fail with that very error.
pub open spec fn step_outcome<P: LinePlayback>(
    before: LineModel<P>,
    backend: P,
    frame_time: Nanos,
    now: Nanos,
    done: LineStep,
    after: LineModel<P>,
) -> bool {
    if before.queue.len() > 0 {
        exists|played: Result<(), AudioError>, next: P|
            {
                &&& #[trigger] backend.plays(before.queue[0], played, next)
                &&& next.handed() == backend.handed().push(before.queue[0])
                &&& match played {
                    Ok(_) => goes_on(
                        before.played(frame_time),
                        next,
                        frame_time,
                        LineStep::Played,
                        done,
                        after,
                    ),
                    Err(error) => {
                        &&& done is Stopped
                        &&& after == before.not_played(frame_time, error)
                    },
                }
            }
    } else if before.should_run {
        goes_on(
            before.run_dry(frame_time, now),
            backend,
            frame_time,
            LineStep::Waited,
            done,
            after,
        )
    } else {
        &&& done is Stopped
        &&& exists|stopped: Result<(), AudioError>, last: P|
            {
                &&& #[trigger] backend.stops(stopped, last)
                &&& last.handed() == backend.handed()
                &&& after == before.with_worker(
                    match stopped {
                        Ok(_) => LineWorker::Finished { backend: last },
                        Err(error) => LineWorker::Failed { error },
                    },
                )
            }
    }
}

proof fn lemma_play_fails<P: LinePlayback>(
    before: LineModel<P>,
    backend: P,
    frame_time: Nanos,
    now: Nanos,
    played: Result<(), AudioError>,
    next: P,
    after: LineModel<P>,
)
    requires
        before.queue.len() > 0,
        backend.plays(before.queue[0], played, next),
        next.handed() == backend.handed().push(before.queue[0]),
        played is Err,
        after == before.not_played(frame_time, played->Err_0),
    ensures
        step_outcome(before, backend, frame_time, now, LineStep::Stopped, after),
{
}

proof fn lemma_end_outcome<P: LinePlayback>(
    before: LineModel<P>,
    backend: P,
    frame_time: Nanos,
    now: Nanos,
    stopped: Result<(), AudioError>,
    last: P,
    after: LineModel<P>,
)
    requires
        before.queue.len() == 0,
        !before.should_run,
        backend.stops(stopped, last),
        last.handed() == backend.handed(),
        after == before.with_worker(
            match stopped {
                Ok(_) => LineWorker::Finished { backend: last },
                Err(error) => LineWorker::Failed { error },
            },
        ),
    ensures
        step_outcome(before, backend, frame_time, now, LineStep::Stopped, after),
{
}

proof fn lemma_step_goes_on<P: LinePlayback>(
    before: LineModel<P>,
    backend: P,
    frame_time: Nanos,
    now: Nanos,
    next: P,
    done: LineStep,
    after: LineModel<P>,
)
    requires
        before.queue.len() > 0 || before.should_run,
        before.queue.len() > 0 ==> {
            &&& exists|played: Result<(), AudioError>|
                played is Ok && #[trigger] backend.plays(before.queue[0], played, next)
            &&& next.handed() == backend.handed().push(before.queue[0])
            &&& goes_on(
                before.played(frame_time),
                next,
                frame_time,
                LineStep::Played,
                done,
                after,
            )
        },
        before.queue.len() == 0 ==> next == backend && goes_on(
            before.run_dry(frame_time, now),
            backend,
            frame_time,
            LineStep::Waited,
            done,
            after,
        ),
    ensures
        step_outcome(before, backend, frame_time, now, done, after),
{
}

/// Whether taking steps until the worker has nothing more to do can lead from one line to
/// another.
pub open spec fn runs_out<P: LinePlayback>(
    before: LineModel<P>,
    now: Nanos,
    after: LineModel<P>,
) -> bool
    decreases
            before.queue.len(),
            (if before.working() {
                1int
            } else {
                0
            }),
{
    match before.worker {
        Some(LineWorker::Running { backend, frame_time }) => exists|
            done: LineStep,
            next: LineModel<P>,
        |
            {
                &&& #[trigger] step_outcome(before, backend, frame_time, now, done, next)
                &&& next.queue.len() < before.queue.len() || (next.queue.len()
                    == before.queue.len() && !next.working())
                &&& runs_out(next, now, after)
            },
        _ => after == before,
    }
}

proof fn lemma_runs_out_step<P: LinePlayback>(
    before: LineModel<P>,
    now: Nanos,
    done: LineStep,
    next: LineModel<P>,
    after: LineModel<P>,
)
    requires
        before.worker matches Some(LineWorker::Running { backend, frame_time }) && step_outcome(
            before,
            backend,
            frame_time,
            now,
            done,
            next,
        ),
        next.queue.len() < before.queue.len() || (next.queue.len() == before.queue.len()
            && !next.working()),
        runs_out(next, now, after),
    ensures
        runs_out(before, now, after),
{
}

/// What ending does: the worker takes its steps until it has nothing more to do. A playback
/// that ended is taken back, and the error of a worker that failed is told.
pub open spec fn stop_outcome<P: LinePlayback>(
    before: LineModel<P>,
    now: Nanos,
    stopped: Result<(), AudioError>,
    after: LineModel<P>,
) -> bool {
    exists|last: LineModel<P>|
        {
            &&& #[trigger] runs_out(before, now, last)
            &&& match last.worker {
                Some(LineWorker::Finished { backend }) => {
                    &&& stopped is Ok
                    &&& after == (LineModel { worker: None, backend: Some(backend), ..last })
                },
                Some(LineWorker::Failed { error }) => {
                    &&& stopped == Err::<(), AudioError>(error)
                    &&& after == (LineModel { worker: None, ..last })
                },
                _ => stopped is Ok && after == last,
            }
        }
}

/// How far a stopped line has played its queue: what was handed over continues what was
/// handed over before, and where no more frames were waiting than should, all of them are
/// handed over in order.
spec fn drained<P: LinePlayback>(
    first: Seq<AudioModel>,
    queue: Seq<AudioModel>,
    config: QueuedLineSinkConfig,
    now: LineModel<P>,
) -> bool {
    let in_full = queue.len() <= config.buffer_height();
    match now.worker {
        Some(LineWorker::Running { backend, .. }) => {
            &&& first.is_prefix_of(backend.handed())
            &&& in_full ==> now.queue.len() <= config.buffer_height() && backend.handed()
                + now.queue == first + queue
        },
        Some(LineWorker::Finished { backend }) => {
            &&& first.is_prefix_of(backend.handed())
            &&& now.queue.len() == 0
            &&& in_full ==> backend.handed() == first + queue
        },
        Some(LineWorker::Failed { .. }) => true,
        None => false,
    }
}

/// A step takes a stopped line further.
proof fn lemma_drained_step<P: LinePlayback>(
    first: Seq<AudioModel>,
    queue: Seq<AudioModel>,
    config: QueuedLineSinkConfig,
    before: LineModel<P>,
    after: LineModel<P>,
    now: Nanos,
    done: LineStep,
)
    requires
        before.config == config,
        !before.should_run,
        drained(first, queue, config, before),
        before.worker matches Some(LineWorker::Running { backend, frame_time }) && step_outcome(
            before,
            backend,
            frame_time,
            now,
            done,
            after,
        ),
    ensures
        drained(first, queue, config, after),
        before.queue.len() > 0 ==> after.queue.len() < before.queue.len(),
        before.queue.len() == 0 ==> after.queue.len() == 0 && !after.working(),
        !after.should_run,
        after.config == config,
{
    let (backend, frame_time) = match before.worker {
        Some(LineWorker::Running { backend, frame_time }) => (backend, frame_time),
        _ => arbitrary(),
    };
    if before.queue.len() > 0 {
        match after.worker {
            Some(LineWorker::Running { backend: next, .. }) => {
                assert(next.handed() == backend.handed().push(before.queue[0]));
                assert(first.is_prefix_of(next.handed())) by {
                    assert(next.handed().take(first.len() as int) =~= backend.handed().take(
                        first.len() as int,
                    ));
                }
                if queue.len() <= config.buffer_height() {
                    assert(next.handed() + before.queue.skip(1) =~= backend.handed() + before.queue);
                }
            },
            _ => {},
        }
    } else {
        assert(before.queue =~= Seq::empty());
        assert(backend.handed() + before.queue =~= backend.handed());
    }
}

/// Giving a frame other channels keeps its length, and limiting it keeps its shape.
proof fn lemma_rechanneled_count(frame: AudioModel, channels: u8)
    requires
        frame.wf(),
        channels > 0,
    ensures
        frame.with_channels(channels).frame_count() == frame.frame_count(),
        frame.with_channels(channels).clipped().frame_count() == frame.frame_count(),
{
    let count = frame.frame_count() as int;
    vstd::arithmetic::div_mod::lemma_div_multiples_vanish(count, channels as int);
    assert(count * channels == channels * count) by (nonlinear_arith);
    assert(count * channels >= 0) by (nonlinear_arith)
        requires
            count >= 0,
            channels > 0,
    ;
}

/// However many frames come, no more are queued than may be, the new one is the last, and
/// those that stay keep their order.
pub proof fn law_line_queue_stays_bounded<P>(line: LineModel<P>, frame: AudioModel)
    requires
        line.wf(),
    ensures
        line.queue_with(frame).len() <= line.config.max_frames,
        line.queue_with(frame).last() == frame,
        line.queue.len() < line.config.max_frames ==> line.queue_with(frame).drop_last()
            == line.queue,
        line.queue.len() == line.config.max_frames ==> line.queue_with(frame).drop_last()
            == line.queue.skip(1),
{
}

/// A line on which no more frames wait than should plays every frame.
pub proof fn law_short_queue_loses_nothing<P>(line: LineModel<P>)
    requires
        line.wf(),
        0 < line.queue.len() <= line.config.buffer_height() + 1,
    ensures
        line.queue_after_play() == line.queue.skip(1),
        line.queue == seq![line.queue[0]] + line.queue_after_play(),
{
}

/// A line that fell behind catches up: playing takes two frames off a queue that is longer
/// than it should be.
pub proof fn law_long_queue_shrinks<P>(line: LineModel<P>)
    requires
        line.wf(),
        line.queue.len() > line.config.buffer_height() + 1,
    ensures
        line.queue_after_play() == line.queue.skip(2),
        line.queue_after_play().len() == line.queue.len() - 2,
{
}

/// A line that has something to play, or ran dry only now, does not give up.
pub proof fn law_line_waits_before_giving_up<P: LinePlayback>(
    before: LineModel<P>,
    backend: P,
    frame_time: Nanos,
    now: Nanos,
    done: LineStep,
    after: LineModel<P>,
)
    requires
        before.wf(),
        step_outcome(before, backend, frame_time, now, done, after),
        before.should_run,
        before.queue.len() > 0 || before.stats.underrun_at is None,
    ensures
        after.should_run,
{
}

/// A line whose playback begins wherever it is asked to begins to play.
pub proof fn law_willing_playback_is_started<P: LinePlayback>(
    before: LineModel<P>,
    started: Result<(), AudioError>,
    after: LineModel<P>,
)
    requires
        start_outcome(before, started, after),
        before.worker is None,
        before.backend is Some,
        forall|began: Result<(), AudioError>, running: P| #[trigger]
            before.backend->0.starts(began, running) ==> began is Ok,
    ensures
        started is Ok,
        after.working(),
        after.should_run,
        after.queue == before.queue,
{
}

/// A frame that waits alone is handed to a willing playback once, and nothing waits then.
pub proof fn law_queued_frame_is_played_once<P: LinePlayback>(
    before: LineModel<P>,
    backend: P,
    frame_time: Nanos,
    now: Nanos,
    done: LineStep,
    after: LineModel<P>,
)
    requires
        before.wf(),
        step_outcome(before, backend, frame_time, now, done, after),
        before.queue.len() == 1,
        !before.wants_low_latency,
        forall|played: Result<(), AudioError>, next: P| #[trigger]
            backend.plays(before.queue[0], played, next) ==> played is Ok,
    ensures
        done is Played,
        after.queue.len() == 0,
        after.worker matches Some(LineWorker::Running { backend: next, .. }) && next.handed()
            == backend.handed().push(before.queue[0]),
        after.stats == before.stats_on_play(frame_time),
{
}

/// The counts of a line are at least one, and the other settings are kept. A line takes more
/// up to three frames less than fit, but always up to one.
pub proof fn law_counts_are_at_least_one(config: QueuedLineSinkConfig, count: usize)
    ensures
        at_least(count, 1) >= 1,
        count >= 1 ==> at_least(count, 1) == count,
        count == 0 ==> at_least(count, 1) == 1,
        ({
            let after = config.normalized();
            &&& after.max_frames >= 1 && (config.max_frames >= 1 ==> after.max_frames
                == config.max_frames)
            &&& after.autostart_min >= 1 && (config.autostart_min >= 1 ==> after.autostart_min
                == config.autostart_min)
            &&& after.frame_timeout >= 1 && (config.frame_timeout >= 1 ==> after.frame_timeout
                == config.frame_timeout)
            &&& after == (QueuedLineSinkConfig {
                max_frames: after.max_frames,
                autostart_min: after.autostart_min,
                frame_timeout: after.frame_timeout,
                ..config
            })
        }),
        config.buffer_height() >= 1,
        config.max_frames > 4 ==> config.buffer_height() + 3 == config.max_frames,
        config.max_frames <= 4 ==> config.buffer_height() == 1,
{
}

/// A span that is taken several times is as long as all of them, or as long as can be written
/// down.
pub proof fn law_spans_add_up(span: Nanos, times: u32)
    ensures
        span * times <= u64::MAX ==> repeated(span, times) == span * times,
        span * times > u64::MAX ==> repeated(span, times) == u64::MAX,
{
}

proof fn lemma_scale_reaches(number: int, least: int)
    requires
        number > 0,
    ensures
        number * scale_to(number, least) >= least,
        scale_to(number, least) >= 1,
    decreases 2 * least - number,
{
    if number < least {
        lemma_scale_reaches(2 * number, least);
        let inner = scale_to(2 * number, least);
        assert((2 * number) * inner == number * (2 * inner)) by (nonlinear_arith);
    } else {
        assert(number * 1 == number);
    }
}

/// Samples are measured to within a nanosecond, as long as they last no more than some weeks.
pub proof fn law_samples_are_measured_in_time(samples: int, samplerate: int)
    requires
        samplerate > 0,
        0 < samples <= 4_000_000 * samplerate,
    ensures
        (sample_span(samples, samplerate) - 1) * samplerate <= samples * 1_000_000_000,
        samples * 1_000_000_000 <= (sample_span(samples, samplerate) + 1) * samplerate,
{
    let least = samplerate * DOUBLE_UNITS;
    let scale = scale_to(samples, least);
    lemma_scale_reaches(samples, least);
    assert(scale >= 1_000_000_000) by (nonlinear_arith)
        requires
            samples * scale >= samplerate * 0x10_0000_0000_0000,
            0 < samples <= 4_000_000 * samplerate,
            samplerate > 0,
            scale >= 1,
    ;
    let mantissa = crate::rounding::half_even(samples * scale, samplerate);
    let span = crate::rounding::half_even(mantissa * 1_000_000_000, scale);
    crate::rounding::lemma_half_even_near(samples * scale, samplerate);
    crate::rounding::lemma_half_even_near(mantissa * 1_000_000_000, scale);
    let near = mantissa * samplerate;
    assert(-samplerate <= 2 * (near - samples * scale) <= samplerate);
    assert(-scale <= 2 * (span * scale - mantissa * 1_000_000_000) <= scale);
    assert(2 * ((span * samplerate - samples * 1_000_000_000) * scale) <= 2 * (samplerate * scale)
        && -2 * (samplerate * scale) <= 2 * ((span * samplerate - samples * 1_000_000_000)
        * scale)) by (nonlinear_arith)
        requires
            near == mantissa * samplerate,
            -samplerate <= 2 * (near - samples * scale) <= samplerate,
            -scale <= 2 * (span * scale - mantissa * 1_000_000_000) <= scale,
            scale >= 1_000_000_000,
            samplerate > 0,
    ;
    assert(-samplerate <= span * samplerate - samples * 1_000_000_000 <= samplerate)
        by (nonlinear_arith)
        requires
            2 * ((span * samplerate - samples * 1_000_000_000) * scale) <= 2 * (samplerate * scale),
            -2 * (samplerate * scale) <= 2 * ((span * samplerate - samples * 1_000_000_000)
                * scale),
            scale >= 1_000_000_000,
    ;
    assert((span - 1) * samplerate == span * samplerate - samplerate) by (nonlinear_arith);
    assert((span + 1) * samplerate == span * samplerate + samplerate) by (nonlinear_arith);
}

/// A frame that a line takes waits behind the others, with the line's channels and every sample
/// in the range from minus one to one. The first frame says how long frames are.
pub proof fn law_line_takes_a_frame<P>(line: LineModel<P>, frame: AudioModel)
    requires
        line.wf(),
        frame.wf(),
        frame.samplerate == line.config.samplerate,
    ensures
        ({
            let after = line.filled(frame);
            let taken = frame.with_channels(line.config.channels);
            let new = after.queue.last();
            &&& after.queue.len() > 0
            &&& after.queue.drop_last() == (if line.queue.len() == line.config.max_frames {
                line.queue.skip(1)
            } else {
                line.queue
            })
            &&& new.samplerate == line.config.samplerate
            &&& new.channels == line.config.channels
            &&& new.samples.len() == taken.samples.len()
            &&& forall|i: int|
                0 <= i < new.samples.len() ==> crate::audio::is_within_one(
                    taken.samples[i],
                    #[trigger] new.samples[i],
                )
            &&& line.samples_per_frame is Some ==> after.samples_per_frame == line.samples_per_frame
                && after.frame_time == line.frame_time
            &&& line.samples_per_frame is None ==> after.samples_per_frame == Some(
                frame.frame_count() as usize,
            ) && after.frame_time == Some(
                sample_span(frame.frame_count() as int, line.config.samplerate as int) as Nanos,
            )
            &&& after == (LineModel {
                queue: after.queue,
                samples_per_frame: after.samples_per_frame,
                frame_time: after.frame_time,
                ..line
            })
        }),
        line.starts_with(frame) <==> line.config.autodigest && !line.should_run && (if line.queue.len()
            == line.config.max_frames {
            line.queue.len() as int
        } else {
            line.queue.len() as int + 1
        }) >= line.config.autostart_min,
{
    lemma_rechanneled_count(frame, line.config.channels);
    let after = line.filled(frame);
    assert(after.queue.drop_last() =~= if line.queue.len() == line.config.max_frames {
        line.queue.skip(1)
    } else {
        line.queue
    });
}

/// Playing the oldest frame takes it off the queue, and one more where more wait than should.
/// What is measured is how long the frames last that waited behind it, and that nothing is
/// missing.
pub proof fn law_played_frame_leaves_the_queue<P>(line: LineModel<P>, frame_time: Nanos)
    requires
        line.wf(),
        line.queue.len() > 0,
        line.queue.len() <= u32::MAX,
        line.config.max_frames <= u32::MAX,
    ensures
        ({
            let after = line.played(frame_time);
            let height = if line.config.max_frames > 4 {
                line.config.max_frames - 3
            } else {
                1
            };
            let lost: int = if line.queue.len() - 1 > height {
                2
            } else {
                1
            };
            let waiting = frame_time * (line.queue.len() - 1);
            let most = frame_time * height;
            &&& after.queue == line.queue.skip(lost)
            &&& after.stats.output_latency == (if waiting > u64::MAX {
                u64::MAX as int
            } else {
                waiting
            })
            &&& after.stats.max_latency == (if most > u64::MAX {
                u64::MAX as int
            } else {
                most
            })
            &&& after.stats.underrun_at is None
            &&& after.stats.low_latency_enabled == line.stats.low_latency_enabled
            &&& after == (LineModel { queue: after.queue, stats: after.stats, ..line })
        }),
{
}

/// A line that has nothing to play keeps in mind since when; it gives up once that is longer
/// ago than the frames that it waits for last, and not before.
pub proof fn law_dry_line_gives_up_in_time<P>(line: LineModel<P>, frame_time: Nanos, now: Nanos)
    requires
        line.wf(),
        line.config.frame_timeout <= u32::MAX,
        frame_time * line.config.frame_timeout <= u64::MAX,
    ensures
        ({
            let after = line.run_dry(frame_time, now);
            &&& line.stats.underrun_at is None ==> after.should_run && after.stats.underrun_at
                == Some(now)
            &&& line.stats.underrun_at matches Some(since) ==> after.stats.underrun_at == Some(
                since,
            ) && (after.should_run <==> now - since <= frame_time * line.config.frame_timeout)
            &&& after.queue == line.queue
            &&& after.stats == (QueuedLineSinkStats {
                underrun_at: after.stats.underrun_at,
                ..line.stats
            })
            &&& after == (LineModel {
                should_run: after.should_run,
                stats: after.stats,
                ..line
            })
        }),
{
}

/// A step of a line hands the oldest frame to the playback and no other. Where that fails the
/// worker stops with the failure; otherwise it goes on, and plays on with frames of the same
/// length.
pub proof fn law_step_hands_over_the_oldest_frame<P: LinePlayback>(
    before: LineModel<P>,
    backend: P,
    frame_time: Nanos,
    now: Nanos,
    done: LineStep,
    after: LineModel<P>,
)
    requires
        before.wf(),
        before.queue.len() > 0,
        step_outcome(before, backend, frame_time, now, done, after),
    ensures
        exists|played: Result<(), AudioError>, next: P|
            {
                &&& #[trigger] backend.plays(before.queue[0], played, next)
                &&& next.handed() == backend.handed().push(before.queue[0])
                &&& played is Err ==> done is Stopped && after.queue == before.queue.skip(1)
                    && after.worker == Some(
                    LineWorker::<P>::Failed { error: played->Err_0 },
                )
                &&& played is Ok && !before.wants_low_latency ==> done is Played && after.worker
                    == Some(LineWorker::Running { backend: next, frame_time }) && (after.queue
                    == before.queue.skip(1) || after.queue == before.queue.skip(2))
            },
        after.should_run == before.should_run,
        after.config == before.config,
        after.stats.underrun_at is None,
        after.frame_time == before.frame_time,
        after.samples_per_frame == before.samples_per_frame,
{
}

/// A step without a frame waits, and plays nothing; once the line is not to go on the playback
/// is ended, and kept unless that fails.
pub proof fn law_step_without_a_frame_plays_nothing<P: LinePlayback>(
    before: LineModel<P>,
    backend: P,
    frame_time: Nanos,
    now: Nanos,
    done: LineStep,
    after: LineModel<P>,
)
    requires
        before.wf(),
        before.queue.len() == 0,
        step_outcome(before, backend, frame_time, now, done, after),
    ensures
        after.queue.len() == 0,
        !(done is Played),
        after.worker matches Some(LineWorker::Running { backend: next, .. }) ==> next.handed()
            == backend.handed(),
        after.worker matches Some(LineWorker::Finished { backend: last }) ==> last.handed()
            == backend.handed(),
        before.should_run && !before.wants_low_latency ==> done is Waited && after.worker == Some(
            LineWorker::Running { backend, frame_time },
        ),
        !before.should_run ==> done is Stopped && (after.worker matches Some(worker)
            && !(worker is Running)) && after.stats == before.stats,
        after.config == before.config,
{
}

/// Where less delay is wanted, the playback is asked for it once, and what it says is kept.
pub proof fn law_low_latency_is_asked_for_once<P: LinePlayback>(
    line: LineModel<P>,
    backend: P,
    frame_time: Nanos,
    step: LineStep,
    done: LineStep,
    after: LineModel<P>,
)
    requires
        goes_on(line, backend, frame_time, step, done, after),
    ensures
        !after.wants_low_latency,
        after.queue == line.queue,
        after.should_run == line.should_run,
        !line.wants_low_latency ==> after.stats == line.stats && done == step,
        line.wants_low_latency ==> exists|enabled: Result<bool, AudioError>, next: P|
            #[trigger] backend.enables(enabled, next) && match enabled {
                Ok(can) => done == step && after.stats.low_latency_enabled == (
                line.stats.low_latency_enabled || can) && after.worker == Some(
                    LineWorker::Running { backend: next, frame_time },
                ),
                Err(error) => done is Stopped && after.stats.low_latency_enabled
                    == line.stats.low_latency_enabled && after.worker == Some(
                    LineWorker::<P>::Failed { error },
                ),
            },
{
}

/// A line begins to play with its playback, which is asked to begin; frames of which nothing is
/// known last twenty milliseconds. A playback that does not begin is lost, and nothing plays. A
/// line that plays goes on, and one without a playback cannot begin.
pub proof fn law_line_begins_with_its_playback<P: LinePlayback>(
    before: LineModel<P>,
    started: Result<(), AudioError>,
    after: LineModel<P>,
)
    requires
        start_outcome(before, started, after),
    ensures
        after.queue == before.queue,
        after.config == before.config,
        after.stats == before.stats,
        before.worker is Some ==> started is Ok && after == (LineModel {
            should_run: true,
            ..before
        }),
        before.worker is None && before.backend is None ==> started is Err && after == before,
        before.worker is None && before.backend is Some ==> {
            &&& after.backend is None
            &&& started is Ok <==> after.worker is Some
            &&& started is Ok ==> after.should_run && after.wants_low_latency == (
            before.wants_low_latency || before.config.low_latency) && (
            after.worker matches Some(LineWorker::Running { backend, frame_time })
                && backend.handed() == before.backend->0.handed() && frame_time == (
            match before.frame_time {
                Some(span) => span,
                None => 20_000_000,
            }))
            &&& started is Err ==> after == (LineModel { backend: None, ..before })
        },
{
}

/// Once a line is ended its worker does nothing any more, and it ends only after it has taken all
/// its steps.
pub proof fn law_worker_comes_to_an_end<P: LinePlayback>(
    before: LineModel<P>,
    now: Nanos,
    after: LineModel<P>,
)
    requires
        runs_out(before, now, after),
    ensures
        !after.working(),
        after.queue.len() <= before.queue.len(),
        !before.working() ==> after == before,
        before.working() ==> exists|
            backend: P,
            frame_time: Nanos,
            done: LineStep,
            next: LineModel<P>,
        |
            {
                &&& before.worker == Some(LineWorker::Running { backend, frame_time })
                &&& #[trigger] step_outcome(before, backend, frame_time, now, done, next)
                &&& runs_out(next, now, after)
            },
    decreases
            before.queue.len(),
            (if before.working() {
                1int
            } else {
                0
            }),
{
    if let Some(LineWorker::Running { backend, frame_time }) = before.worker {
        let (done, next) = choose|done: LineStep, next: LineModel<P>|
            {
                &&& #[trigger] step_outcome(before, backend, frame_time, now, done, next)
                &&& next.queue.len() < before.queue.len() || (next.queue.len()
                    == before.queue.len() && !next.working())
                &&& runs_out(next, now, after)
            };
        law_worker_comes_to_an_end(next, now, after);
    }
}

/// Ending a line takes the playback of a worker that ended back, tells the error of one that
/// failed, and leaves no worker that runs.
pub proof fn law_ended_line_has_its_playback_back<P: LinePlayback>(
    before: LineModel<P>,
    now: Nanos,
    stopped: Result<(), AudioError>,
    after: LineModel<P>,
)
    requires
        stop_outcome(before, now, stopped, after),
    ensures
        !after.working(),
        before.worker is None ==> stopped is Ok && after == before,
        before.worker matches Some(LineWorker::Finished { backend }) ==> stopped is Ok
            && after.worker is None && after.backend == Some(backend) && after.queue
            == before.queue,
        before.worker matches Some(LineWorker::Failed { error }) ==> stopped == Err::<
            (),
            AudioError,
        >(error) && after.worker is None && after.backend == before.backend,
        exists|last: LineModel<P>|
            {
                &&& #[trigger] runs_out(before, now, last)
                &&& last.worker matches Some(LineWorker::Finished { backend }) ==> stopped is Ok
                    && after.backend == Some(backend)
                &&& last.worker matches Some(LineWorker::Failed { error }) ==> stopped == Err::<
                    (),
                    AudioError,
                >(error)
                &&& after.queue == last.queue
                &&& after.stats == last.stats
            },
{
    let last = choose|last: LineModel<P>|
        {
            &&& #[trigger] runs_out(before, now, last)
            &&& match last.worker {
                Some(LineWorker::Finished { backend }) => {
                    &&& stopped is Ok
                    &&& after == (LineModel { worker: None, backend: Some(backend), ..last })
                },
                Some(LineWorker::Failed { error }) => {
                    &&& stopped == Err::<(), AudioError>(error)
                    &&& after == (LineModel { worker: None, ..last })
                },
                _ => stopped is Ok && after == last,
            }
        };
    law_worker_comes_to_an_end(before, now, last);
}

} // verus!
