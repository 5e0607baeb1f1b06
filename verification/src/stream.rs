//! The streams of sound devices: what is recorded becomes frames, and frames become what is
//! played.
use crate::audio::{AudioError, AudioFrame, AudioModel, Sample, SAMPLE_ZERO};
use crate::codec::CodecProfile;
use crate::device::{
    device_name_matches, AudioDeviceInfo, AudioDeviceKind, AudioStreamConfigInfo,
};
use crate::frame_plan::{plan_line_source_frame, AudioFramePlan, FrameMs};
use crate::gain::GainDb;
use crate::line_sink::QueuedLineSinkConfig;
use crate::text::{decimal, same_text};
use crate::time::Nanos;
use std::collections::VecDeque;
use vstd::prelude::*;

verus! {

/// How sound is recorded.
#[derive(Debug, Clone, PartialEq)]
pub struct CpalInputConfig {
    pub preferred_device: Option<String>,
    pub target_frame_ms: u16,
    pub codec_profile: Option<CodecProfile>,
    pub gain_db: GainDb,
    pub ease_in: Nanos,
    pub skip: Nanos,
    pub max_queued_frames: usize,
}

impl Default for CpalInputConfig {
    fn default() -> (config: Self)
        ensures
            config.preferred_device is None,
            config.target_frame_ms == 80,
            config.codec_profile is None,
            config.gain_db.bits == 0,
            config.ease_in == 0,
            config.skip == 0,
            config.max_queued_frames == 128,
    {
        CpalInputConfig {
            preferred_device: None,
            target_frame_ms: 80,
            codec_profile: None,
            gain_db: GainDb::zero(),
            ease_in: 0,
            skip: 0,
            max_queued_frames: 128,
        }
    }
}

/// How sound is played.
#[derive(Debug, Clone, PartialEq)]
pub struct CpalOutputConfig {
    pub preferred_device: Option<String>,
    pub max_queued_frames: usize,
    pub low_latency: bool,
}

impl Default for CpalOutputConfig {
    fn default() -> (config: Self)
        ensures
            config.preferred_device is None,
            config.max_queued_frames == 6,
            !config.low_latency,
    {
        CpalOutputConfig { preferred_device: None, max_queued_frames: 6, low_latency: false }
    }
}

/// The number of channels of a device, where it can be handled.
pub fn device_channels(channels: u16) -> (count: Result<u8, AudioError>)
    ensures
        match count {
            Ok(count) => count == channels,
            Err(error) => channels > u8::MAX && error == AudioError::InvalidChannels(u8::MAX),
        },
{
    if channels > 255 {
        Err(AudioError::InvalidChannels(255))
    } else {
        Ok(channels as u8)
    }
}

/// How what a device records is cut into frames.
pub fn plan_input_stream(config: &CpalInputConfig, samplerate: u32, channels: u16) -> (plan: Result<
    AudioFramePlan,
    AudioError,
>)
    requires
        channels <= u8::MAX ==> crate::frame_plan::samples_for(
            crate::frame_plan::target_length(
                crate::frame_plan::millis_length(config.target_frame_ms),
                config.codec_profile,
            ),
            samplerate as int,
        ) * channels <= usize::MAX,
    ensures
        match plan {
            Ok(plan) => {
                &&& 0 < channels <= u8::MAX
                &&& samplerate > 0
                &&& crate::frame_plan::plans(
                    plan,
                    crate::frame_plan::millis_length(config.target_frame_ms),
                    config.codec_profile,
                    samplerate,
                    channels as u8,
                )
            },
            Err(error) => if channels > u8::MAX {
                error == AudioError::InvalidChannels(u8::MAX)
            } else {
                crate::audio::frame_error(samplerate, channels as u8, 0) == Some(error)
            },
        },
{
    let count = match device_channels(channels) {
        Ok(count) => count,
        Err(error) => return Err(error),
    };
    let requested = FrameMs::from_millis(config.target_frame_ms);
    plan_line_source_frame(requested, config.codec_profile, samplerate, count)
}

/// How frames are queued for a device that plays them.
pub fn plan_output_stream(config: &CpalOutputConfig, samplerate: u32, channels: u16) -> (
plan: Result<QueuedLineSinkConfig, AudioError>)
    ensures
        match plan {
            Ok(plan) => channels <= u8::MAX && plan == (QueuedLineSinkConfig {
                samplerate,
                channels: channels as u8,
                max_frames: crate::line_sink::at_least(config.max_queued_frames, 1),
                autostart_min: 1,
                frame_timeout: 8,
                autodigest: true,
                low_latency: false,
            }),
            Err(error) => channels > u8::MAX && error == AudioError::InvalidChannels(u8::MAX),
        },
{
    let count = match device_channels(channels) {
        Ok(count) => count,
        Err(error) => return Err(error),
    };
    let defaults = QueuedLineSinkConfig::default();
    Ok(
        QueuedLineSinkConfig {
            samplerate,
            channels: count,
            max_frames: if config.max_queued_frames < 1 {
                1
            } else {
                config.max_queued_frames
            },
            autostart_min: defaults.autostart_min,
            frame_timeout: defaults.frame_timeout,
            autodigest: defaults.autodigest,
            low_latency: false,
        },
    )
}

/// The first device that is meant by a name, where one is given and one is meant.
pub fn preferred_device(names: &[String], preferred_name: Option<&str>) -> (place: Option<usize>)
    ensures
        match place {
            Some(place) => {
                &&& preferred_name matches Some(preferred)
                &&& place < names@.len()
                &&& crate::device::name_is_meant(preferred@, names@[place as int]@)
                &&& forall|i: int|
                    0 <= i < place ==> !crate::device::name_is_meant(
                        preferred@,
                        #[trigger] names@[i]@,
                    )
            },
            None => preferred_name matches Some(preferred) ==> forall|i: int|
                0 <= i < names@.len() ==> !crate::device::name_is_meant(
                    preferred@,
                    #[trigger] names@[i]@,
                ),
        },
{
    let preferred = match preferred_name {
        Some(preferred) => preferred,
        None => return None,
    };
    let mut i: usize = 0;
    while i < names.len()
        invariant
            i <= names@.len(),
            preferred_name == Some(preferred),
            forall|j: int|
                0 <= j < i ==> !crate::device::name_is_meant(preferred@, #[trigger] names@[j]@),
        decreases names.len() - i,
    {
        if device_name_matches(preferred, names[i].as_str()) {
            return Some(i);
        }
        i += 1;
    }
    None
}

/// What is known of a device. It is the default one if it has the default one's name.
pub fn device_info(
    name: String,
    kind: AudioDeviceKind,
    default_name: Option<&str>,
    default_config: Option<AudioStreamConfigInfo>,
    supported_configs: Vec<AudioStreamConfigInfo>,
) -> (info: AudioDeviceInfo)
    ensures
        info.name == name,
        info.kind == kind,
        info.is_default == (default_name matches Some(default) && default@ == name@),
        info.default_config == default_config,
        info.supported_configs == supported_configs,
{
    let is_default = match default_name {
        Some(default) => same_text(default, name.as_str()),
        None => false,
    };
    AudioDeviceInfo { name, kind, is_default, default_config, supported_configs }
}

/// How a device is shown in the list of devices.
pub open spec fn device_line_text(device: crate::device::DeviceModel) -> Seq<char> {
    let start = "  ["@ + (match device.kind {
        AudioDeviceKind::Input => "input"@,
        AudioDeviceKind::Output => "output"@,
    }) + (if device.is_default {
        " default"@
    } else {
        ""@
    }) + "] "@ + device.name;
    match device.default_config {
        Some(config) => start + " - "@ + crate::text::decimal_text(config.channels as nat)
            + " ch, "@ + crate::text::decimal_text(config.min_sample_rate as nat) + " Hz, "@
            + config.sample_format,
        None => start,
    }
}

/// How a device is shown in the list of devices.
pub fn device_line(device: &AudioDeviceInfo) -> (line: String)
    ensures
        line@ == device_line_text(device@),
{
    let kind = match device.kind {
        AudioDeviceKind::Input => "input",
        AudioDeviceKind::Output => "output",
    };
    let default = if device.is_default {
        " default"
    } else {
        ""
    };
    let start = "  [".to_owned().concat(kind).concat(default).concat("] ").concat(
        device.name.as_str(),
    );
    match &device.default_config {
        Some(config) => start.concat(" - ").concat(decimal(config.channels as u64).as_str()).concat(
            " ch, ",
        ).concat(decimal(config.min_sample_rate as u64).as_str()).concat(" Hz, ").concat(
            config.sample_format.as_str(),
        ),
        None => start,
    }
}

/// Samples cut into pieces of a size, without what is left at the end.
pub open spec fn chunks(samples: Seq<Sample>, size: int) -> Seq<Seq<Sample>>
    decreases samples.len(),
    when size > 0
{
    if samples.len() < size {
        Seq::empty()
    } else {
        seq![samples.take(size)] + chunks(samples.skip(size), size)
    }
}

/// What is left when samples are cut into pieces of a size.
pub open spec fn leftover(samples: Seq<Sample>, size: int) -> Seq<Sample>
    decreases samples.len(),
    when size > 0
{
    if samples.len() < size {
        samples
    } else {
        leftover(samples.skip(size), size)
    }
}

/// Pieces as frames.
pub open spec fn frames_of(
    pieces: Seq<Seq<Sample>>,
    samplerate: u32,
    channels: u8,
) -> Seq<AudioModel> {
    pieces.map_values(|samples: Seq<Sample>| AudioModel { samplerate, channels, samples })
}

/// What is recorded, until it makes up a frame.
#[derive(Debug)]
pub struct FrameCollector {
    samplerate: u32,
    channels: u8,
    samples_per_frame: usize,
    pending: Vec<Sample>,
}

impl FrameCollector {
    /// The format of the frames, and how many samples make up one.
    pub closed spec fn format(&self) -> (u32, u8, usize) {
        (self.samplerate, self.channels, self.samples_per_frame)
    }

    /// The samples that make up no frame yet.
    pub closed spec fn waiting(&self) -> Seq<Sample> {
        self.pending@
    }

    /// What holds of every collector: no frame waits.
    pub open spec fn wf(&self) -> bool {
        self.format().2 >= 1 && self.waiting().len() < self.format().2
    }

    /// A collector for frames as they are planned.
    pub fn new(plan: AudioFramePlan) -> (collector: Self)
        requires
            plan.sample_count >= 1,
        ensures
            collector.wf(),
            collector.format() == (plan.samplerate, plan.channels, plan.sample_count),
            collector.waiting().len() == 0,
    {
        FrameCollector {
            samplerate: plan.samplerate,
            channels: plan.channels,
            samples_per_frame: plan.sample_count,
            pending: Vec::new(),
        }
    }

    /// Takes samples, and gives the frames that they make up. Samples that can make up no frame
    /// are dropped.
    pub fn collect(&mut self, samples: &[Sample]) -> (frames: Vec<AudioFrame>)
        requires
            old(self).wf(),
        ensures
            final(self).wf(),
            final(self).format() == old(self).format(),
            ({
                let (samplerate, channels, size) = old(self).format();
                let all = old(self).waiting() + samples@;
                &&& final(self).waiting() == leftover(all, size as int)
                &&& crate::line_sink::audio_models(frames@) == (if crate::audio::frame_error(
                    samplerate,
                    channels,
                    size as nat,
                ) is Some {
                    Seq::empty()
                } else {
                    frames_of(chunks(all, size as int), samplerate, channels)
                })
            }),
    {
        let ghost size = self.samples_per_frame as int;
        let ghost all = self.pending@ + samples@;
        let ghost valid = crate::audio::frame_error(
            self.samplerate,
            self.channels,
            self.samples_per_frame as nat,
        ) is None;
        let mut frames: Vec<AudioFrame> = Vec::new();
        let mut i: usize = 0;
        proof {
            assert(samples@.skip(0) =~= samples@);
            assert(crate::line_sink::audio_models(frames@) + frames_of(
                chunks(all, size),
                self.samplerate,
                self.channels,
            ) =~= frames_of(chunks(all, size), self.samplerate, self.channels));
            assert(crate::line_sink::audio_models(frames@) =~= Seq::<AudioModel>::empty());
        }
        while i < samples.len()
            invariant
                i <= samples@.len(),
                self.wf(),
                self.format() == old(self).format(),
                size == self.samples_per_frame,
                all == old(self).pending@ + samples@,
                valid == (crate::audio::frame_error(
                    self.samplerate,
                    self.channels,
                    self.samples_per_frame as nat,
                ) is None),
                leftover(self.pending@ + samples@.skip(i as int), size) == leftover(all, size),
                valid ==> crate::line_sink::audio_models(frames@) + frames_of(
                    chunks(self.pending@ + samples@.skip(i as int), size),
                    self.samplerate,
                    self.channels,
                ) == frames_of(chunks(all, size), self.samplerate, self.channels),
                !valid ==> crate::line_sink::audio_models(frames@) == Seq::<AudioModel>::empty(),
            decreases samples.len() - i,
        {
            let ghost rest = self.pending@ + samples@.skip(i as int);
            let ghost models = crate::line_sink::audio_models(frames@);
            self.pending.push(samples[i]);
            assert(self.pending@ + samples@.skip(i + 1) =~= rest);
            if self.pending.len() >= self.samples_per_frame {
                let mut full: Vec<Sample> = Vec::new();
                core::mem::swap(&mut full, &mut self.pending);
                proof {
                    assert(rest.take(size) =~= full@);
                    assert(rest.skip(size) =~= samples@.skip(i + 1));
                    assert(self.pending@ + samples@.skip(i + 1) =~= samples@.skip(i + 1));
                }
                let ghost piece = full@;
                if let Ok(frame) = AudioFrame::new(self.samplerate, self.channels, full) {
                    frames.push(frame);
                    proof {
                        let tail = chunks(samples@.skip(i + 1), size);
                        assert(crate::line_sink::audio_models(frames@) =~= models.push(frame@));
                        assert(frames_of(
                            seq![piece] + tail,
                            self.samplerate,
                            self.channels,
                        ) =~= seq![frame@] + frames_of(tail, self.samplerate, self.channels));
                        assert(models + (seq![frame@] + frames_of(
                            tail,
                            self.samplerate,
                            self.channels,
                        )) =~= models.push(frame@) + frames_of(
                            tail,
                            self.samplerate,
                            self.channels,
                        ));
                    }
                }
            }
            i += 1;
        }
        proof {
            assert(self.pending@ + samples@.skip(i as int) =~= self.pending@);
            assert(chunks(self.pending@, size) =~= Seq::<Seq<Sample>>::empty());
            assert(crate::line_sink::audio_models(frames@) + frames_of(
                Seq::<Seq<Sample>>::empty(),
                self.samplerate,
                self.channels,
            ) =~= crate::line_sink::audio_models(frames@));
        }
        frames
    }
}

/// What waits to be played.
#[verifier::ext_equal]
pub struct PlayModel {
    /// The samples of the frame that is played.
    pub pending: Seq<Sample>,
    /// The frames that wait, oldest first.
    pub queue: Seq<AudioModel>,
}

impl PlayModel {
    /// With the next frame begun, where the last one is over.
    pub open spec fn refilled(self) -> PlayModel {
        if self.pending.len() == 0 && self.queue.len() > 0 {
            PlayModel { pending: self.queue[0].samples, queue: self.queue.skip(1) }
        } else {
            self
        }
    }

    /// The next sample: silence where there is none.
    pub open spec fn next_sample(self) -> Sample {
        let ready = self.refilled();
        if ready.pending.len() > 0 {
            ready.pending[0]
        } else {
            SAMPLE_ZERO
        }
    }

    /// What waits after the next sample.
    pub open spec fn advanced(self) -> PlayModel {
        let ready = self.refilled();
        if ready.pending.len() > 0 {
            PlayModel { pending: ready.pending.skip(1), ..ready }
        } else {
            ready
        }
    }

    /// What waits after some samples.
    pub open spec fn after(self, count: int) -> PlayModel
        decreases count,
    {
        if count <= 0 {
            self
        } else {
            self.after(count - 1).advanced()
        }
    }

    /// All that is to be played.
    pub open spec fn sound(self) -> Seq<Sample> {
        self.pending + sound_of(self.queue)
    }
}

/// The samples of frames, one frame after another.
pub open spec fn sound_of(frames: Seq<AudioModel>) -> Seq<Sample>
    decreases frames.len(),
{
    if frames.len() == 0 {
        Seq::empty()
    } else {
        frames[0].samples + sound_of(frames.skip(1))
    }
}

/// What a device that plays takes its samples from.
#[derive(Debug)]
pub struct FramePlayer {
    pending: VecDeque<Sample>,
    queue: VecDeque<AudioFrame>,
    max_queued_frames: usize,
}

impl FramePlayer {
    /// What waits to be played.
    pub closed spec fn view(&self) -> PlayModel {
        PlayModel {
            pending: self.pending@,
            queue: crate::line_sink::audio_models(self.queue@),
        }
    }

    /// How many frames wait at most.
    pub closed spec fn limit(&self) -> usize {
        self.max_queued_frames
    }

    /// What holds of every player.
    pub open spec fn wf(&self) -> bool {
        self.limit() >= 1 && self@.queue.len() <= self.limit()
    }

    /// A player with nothing to play.
    pub fn new(max_queued_frames: usize) -> (player: Self)
        requires
            max_queued_frames >= 1,
        ensures
            player.wf(),
            player.limit() == max_queued_frames,
            player@ == (PlayModel { pending: Seq::empty(), queue: Seq::empty() }),
    {
        let player = FramePlayer {
            pending: VecDeque::new(),
            queue: VecDeque::new(),
            max_queued_frames,
        };
        assert(player@.queue =~= Seq::<AudioModel>::empty());
        assert(player@.pending =~= Seq::<Sample>::empty());
        player
    }

    /// Queues a frame. Where too many wait the oldest is dropped.
    pub fn push(&mut self, frame: AudioFrame)
        requires
            old(self).wf(),
        ensures
            final(self).wf(),
            final(self).limit() == old(self).limit(),
            final(self)@ == (PlayModel {
                queue: (if old(self)@.queue.len() >= old(self).limit() {
                    old(self)@.queue.skip(1)
                } else {
                    old(self)@.queue
                }).push(frame@),
                ..old(self)@
            }),
    {
        let ghost before = self@.queue;
        if self.queue.len() >= self.max_queued_frames {
            self.queue.pop_front();
            assert(self@.queue =~= before.skip(1));
        }
        let ghost kept = self@.queue;
        self.queue.push_back(frame);
        assert(self@.queue =~= kept.push(frame@));
    }

    /// The next sample.
    fn next_sample(&mut self) -> (sample: Sample)
        requires
            old(self).wf(),
        ensures
            final(self).wf(),
            final(self).limit() == old(self).limit(),
            sample == old(self)@.next_sample(),
            final(self)@ == old(self)@.advanced(),
    {
        let ghost before = self@;
        if self.pending.len() == 0 {
            if let Some(frame) = self.queue.pop_front() {
                assert(self@.queue =~= before.queue.skip(1));
                let samples = frame.samples();
                let mut i: usize = 0;
                while i < samples.len()
                    invariant
                        i <= samples@.len(),
                        self.pending@ == samples@.take(i as int),
                        self@.queue == before.queue.skip(1),
                        self.max_queued_frames == old(self).max_queued_frames,
                    decreases samples.len() - i,
                {
                    self.pending.push_back(samples[i]);
                    assert(self.pending@ =~= samples@.take(i + 1));
                    i += 1;
                }
                assert(self.pending@ =~= samples@);
            } else {
                assert(self@.queue =~= before.queue);
            }
        }
        let ghost ready = before.refilled();
        assert(self@ =~= ready);
        match self.pending.pop_front() {
            Some(sample) => {
                assert(self.pending@ =~= ready.pending.skip(1));
                sample
            },
            None => SAMPLE_ZERO,
        }
    }

    /// The next samples for a device. A part that is not for all channels is silence.
    pub fn fill(&mut self, count: usize, channels: usize) -> (samples: Vec<Sample>)
        requires
            old(self).wf(),
            channels >= 1,
        ensures
            final(self).wf(),
            final(self).limit() == old(self).limit(),
            final(self)@ == old(self)@.after(count as int),
            samples@.len() == count,
            forall|i: int|
                0 <= i < count ==> #[trigger] samples@[i] == (if i < count - count % channels {
                    old(self)@.after(i).next_sample()
                } else {
                    SAMPLE_ZERO
                }),
    {
        proof {
            vstd::arithmetic::div_mod::lemma_mod_decreases(count as nat, channels as nat);
        }
        let whole: usize = count - count % channels;
        let mut samples: Vec<Sample> = Vec::new();
        let mut i: usize = 0;
        while i < count
            invariant
                i <= count,
                whole == count - count % channels,
                self.wf(),
                self.limit() == old(self).limit(),
                self@ == old(self)@.after(i as int),
                samples@.len() == i,
                forall|j: int|
                    0 <= j < i ==> #[trigger] samples@[j] == (if j < whole {
                        old(self)@.after(j).next_sample()
                    } else {
                        SAMPLE_ZERO
                    }),
            decreases count - i,
        {
            let sample = self.next_sample();
            samples.push(
                if i < whole {
                    sample
                } else {
                    SAMPLE_ZERO
                },
            );
            i += 1;
        }
        samples
    }
}

/// What is recorded is what the frames hold: the pieces one after another, and what is left,
/// are the samples that came in.
pub proof fn law_nothing_recorded_is_lost(samples: Seq<Sample>, size: int)
    requires
        size > 0,
    ensures
        joined_pieces(chunks(samples, size)) + leftover(samples, size) == samples,
        leftover(samples, size).len() < size,
        forall|i: int|
            0 <= i < chunks(samples, size).len() ==> (#[trigger] chunks(samples, size)[i]).len()
                == size,
    decreases samples.len(),
{
    if samples.len() >= size {
        let first = samples.take(size);
        let rest = samples.skip(size);
        law_nothing_recorded_is_lost(rest, size);
        let tail = chunks(rest, size);
        let all = chunks(samples, size);
        assert(all == seq![first] + tail);
        assert(all.skip(1) =~= tail);
        assert(joined_pieces(all) == first + joined_pieces(tail));
        assert((first + joined_pieces(tail)) + leftover(rest, size) =~= first + (joined_pieces(tail)
            + leftover(rest, size)));
        assert(first + rest =~= samples);
        assert forall|i: int| 0 <= i < all.len() implies (#[trigger] all[i]).len() == size by {
            if i > 0 {
                assert(all[i] == tail[i - 1]);
            }
        }
    } else {
        assert(joined_pieces(chunks(samples, size)) + leftover(samples, size) =~= samples);
    }
}

/// Pieces one after another.
pub open spec fn joined_pieces(pieces: Seq<Seq<Sample>>) -> Seq<Sample>
    decreases pieces.len(),
{
    if pieces.len() == 0 {
        Seq::empty()
    } else {
        pieces[0] + joined_pieces(pieces.skip(1))
    }
}

/// What is played is what was queued, sample by sample, where no frame is empty.
pub proof fn law_frames_are_played_in_order(player: PlayModel, count: int)
    requires
        forall|i: int|
            0 <= i < player.queue.len() ==> (#[trigger] player.queue[i]).samples.len() > 0,
        0 <= count < player.sound().len(),
    ensures
        player.after(count).next_sample() == player.sound()[count],
{
    lemma_played(player, count);
}

proof fn lemma_played(player: PlayModel, count: int)
    requires
        forall|i: int|
            0 <= i < player.queue.len() ==> (#[trigger] player.queue[i]).samples.len() > 0,
        0 <= count < player.sound().len(),
    ensures
        player.after(count).sound() == player.sound().skip(count),
        player.after(count).next_sample() == player.sound()[count],
        forall|i: int|
            0 <= i < player.after(count).queue.len() ==> (
            #[trigger] player.after(count).queue[i]).samples.len() > 0,
    decreases count,
{
    if count > 0 {
        lemma_played(player, count - 1);
        let before = player.after(count - 1);
        lemma_step(before);
        assert(before.sound().skip(1) =~= player.sound().skip(count));
    } else {
        assert(player.sound().skip(0) =~= player.sound());
    }
    lemma_step(player.after(count));
}

proof fn lemma_step(player: PlayModel)
    requires
        forall|i: int|
            0 <= i < player.queue.len() ==> (#[trigger] player.queue[i]).samples.len() > 0,
        player.sound().len() > 0,
    ensures
        player.next_sample() == player.sound()[0],
        player.advanced().sound() == player.sound().skip(1),
        forall|i: int|
            0 <= i < player.advanced().queue.len() ==> (
            #[trigger] player.advanced().queue[i]).samples.len() > 0,
{
    let ready = player.refilled();
    if player.pending.len() == 0 {
        assert(player.queue.len() > 0);
        assert(player.queue[0].samples.len() > 0);
        assert(ready.sound() =~= player.sound());
    }
    assert(ready.pending.len() > 0);
    assert(player.advanced().sound() =~= ready.sound().skip(1));
    assert forall|i: int| 0 <= i < player.advanced().queue.len() implies (
    #[trigger] player.advanced().queue[i]).samples.len() > 0 by {
        if player.pending.len() == 0 {
            assert(player.advanced().queue[i] == player.queue[i + 1]);
        }
    }
}

/// The frames that are recorded are the pieces of the sound, in the format of the line.
pub proof fn law_recorded_frames_hold_the_pieces(
    pieces: Seq<Seq<Sample>>,
    samplerate: u32,
    channels: u8,
    place: int,
)
    requires
        0 <= place < pieces.len(),
    ensures
        frames_of(pieces, samplerate, channels).len() == pieces.len(),
        frames_of(pieces, samplerate, channels)[place].samples == pieces[place],
        frames_of(pieces, samplerate, channels)[place].samplerate == samplerate,
        frames_of(pieces, samplerate, channels)[place].channels == channels,
{
}

/// A player that has nothing left plays silence, and goes on doing so.
pub proof fn law_player_without_sound_is_silent(player: PlayModel)
    requires
        player.pending.len() == 0,
        player.queue.len() == 0,
    ensures
        player.next_sample() == 0,
        player.advanced() == player,
{
}

/// A player begins the next frame only where the one before is played to its end.
pub proof fn law_frame_is_played_to_its_end(player: PlayModel)
    requires
        player.pending.len() > 0,
    ensures
        player.next_sample() == player.pending[0],
        player.advanced().queue == player.queue,
        player.pending == seq![player.next_sample()] + player.advanced().pending,
{
    assert(player.pending =~= seq![player.next_sample()] + player.advanced().pending);
}

} // verus!
