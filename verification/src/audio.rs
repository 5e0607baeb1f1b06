//! Audio frames: interleaved samples with a sample rate and a channel count.
//!
//! A sample is held as the bits of a 32-bit floating point number, so that it can be moved,
//! compared and limited exactly.
use crate::device::AudioDeviceKind;
use crate::float_bits::same_number;
use crate::rounding::{floor_digits, round_quotient, DOUBLE_LIMIT};
use crate::text::decimal;
use vstd::arithmetic::div_mod::{
    lemma_div_is_ordered, lemma_fundamental_div_mod, lemma_fundamental_div_mod_converse,
    lemma_mod_bound,
};
use vstd::arithmetic::power2::{lemma2_to64, lemma2_to64_rest, lemma_pow2_adds, pow2};
use vstd::prelude::*;

verus! {

/// A sample: the bits of a 32-bit floating point number.
pub type Sample = u32;

/// The bits of zero.
pub const SAMPLE_ZERO: Sample = 0;

/// The bits of one.
pub const SAMPLE_ONE: Sample = 0x3f80_0000;

/// The bits of minus one.
pub const SAMPLE_MINUS_ONE: Sample = 0xbf80_0000;

/// The bits without the sign.
pub open spec fn magnitude(sample: Sample) -> int {
    sample as int % 0x8000_0000
}

/// Whether the bits stand for no number.
pub open spec fn is_nan(sample: Sample) -> bool {
    magnitude(sample) > 0x7f80_0000
}

/// The sample limited to the range from minus one to one. What is no number is kept.
///
/// Without the sign, the bits of floating point numbers are ordered as the numbers are.
pub open spec fn limited(sample: Sample) -> Sample {
    if is_nan(sample) || magnitude(sample) <= SAMPLE_ONE {
        sample
    } else if sample < 0x8000_0000 {
        SAMPLE_ONE
    } else {
        SAMPLE_MINUS_ONE
    }
}

/// The sample limited to the range from minus one to one.
pub fn limit_sample(sample: Sample) -> (result: Sample)
    ensures
        result == limited(sample),
{
    let size: u32 = sample % 0x8000_0000;
    if size > 0x7f80_0000 || size <= SAMPLE_ONE {
        sample
    } else if sample < 0x8000_0000 {
        SAMPLE_ONE
    } else {
        SAMPLE_MINUS_ONE
    }
}

/// Why audio cannot be handled.
#[derive(Debug, Clone, PartialEq)]
pub enum AudioError {
    InvalidSamplerate(u32),
    InvalidChannels(u8),
    SampleCountNotDivisible { samples: usize, channels: u8 },
    IncompatibleFrames,
    NoDevice(AudioDeviceKind),
    UnsupportedDeviceFormat(String),
    Stream(String),
    Device(String),
}

impl AudioError {
    /// The error as text.
    pub open spec fn text(&self) -> Seq<char> {
        match self {
            AudioError::InvalidSamplerate(rate) => "invalid audio samplerate "@
                + crate::text::decimal_text(*rate as nat),
            AudioError::InvalidChannels(count) => "invalid audio channel count "@
                + crate::text::decimal_text(*count as nat),
            AudioError::SampleCountNotDivisible { samples, channels } => "sample count "@
                + crate::text::decimal_text(*samples as nat)
                + " is not divisible by channel count "@ + crate::text::decimal_text(
                *channels as nat,
            ),
            AudioError::IncompatibleFrames => "audio frames are incompatible"@,
            AudioError::NoDevice(kind) => "no "@ + kind.label() + " audio device is available"@,
            AudioError::UnsupportedDeviceFormat(detail) => "unsupported audio device format: "@
                + detail@,
            AudioError::Stream(detail) => "audio stream error: "@ + detail@,
            AudioError::Device(detail) => "audio device error: "@ + detail@,
        }
    }

    /// The error as text.
    pub fn message(&self) -> (text: String)
        ensures
            text@ == self.text(),
    {
        match self {
            AudioError::InvalidSamplerate(rate) => "invalid audio samplerate ".to_owned().concat(
                decimal(*rate as u64).as_str(),
            ),
            AudioError::InvalidChannels(count) => "invalid audio channel count ".to_owned().concat(
                decimal(*count as u64).as_str(),
            ),
            AudioError::SampleCountNotDivisible { samples, channels } => {
                "sample count ".to_owned().concat(decimal(*samples as u64).as_str()).concat(
                    " is not divisible by channel count ",
                ).concat(decimal(*channels as u64).as_str())
            },
            AudioError::IncompatibleFrames => "audio frames are incompatible".to_owned(),
            AudioError::NoDevice(kind) => "no ".to_owned().concat(kind.name()).concat(
                " audio device is available",
            ),
            AudioError::UnsupportedDeviceFormat(detail) => {
                "unsupported audio device format: ".to_owned().concat(detail.as_str())
            },
            AudioError::Stream(detail) => "audio stream error: ".to_owned().concat(detail.as_str()),
            AudioError::Device(detail) => "audio device error: ".to_owned().concat(detail.as_str()),
        }
    }
}

/// A frame of sound: samples of all channels in turn.
#[derive(Debug)]
pub struct AudioFrame {
    samplerate: u32,
    channels: u8,
    samples: Vec<Sample>,
}

impl PartialEq for AudioFrame {
    fn eq(&self, other: &Self) -> (same: bool) {
        if self.samplerate != other.samplerate || self.channels != other.channels
            || self.samples.len() != other.samples.len() {
            return false;
        }
        let mut i: usize = 0;
        while i < self.samples.len()
            invariant
                i <= self.samples@.len() == other.samples@.len(),
                forall|j: int|
                    0 <= j < i ==> crate::float_bits::are_equal(
                        #[trigger] self.samples@[j],
                        other.samples@[j],
                    ),
            decreases self.samples.len() - i,
        {
            if !same_number(self.samples[i], other.samples[i]) {
                assert(!crate::float_bits::are_equal(
                    self@.samples[i as int],
                    other@.samples[i as int],
                ));
                return false;
            }
            i += 1;
        }
        true
    }
}

impl vstd::std_specs::cmp::PartialEqSpecImpl for AudioFrame {
    open spec fn obeys_eq_spec() -> bool {
        true
    }

    open spec fn eq_spec(&self, other: &Self) -> bool {
        self@.equals(other@)
    }
}

/// A frame as a mathematical value.
#[verifier::ext_equal]
pub struct AudioModel {
    pub samplerate: u32,
    pub channels: u8,
    pub samples: Seq<Sample>,
}

impl AudioModel {
    /// Whether two frames are of one format and their samples are equal as numbers.
    pub open spec fn equals(self, other: AudioModel) -> bool {
        &&& self.samplerate == other.samplerate
        &&& self.channels == other.channels
        &&& self.samples.len() == other.samples.len()
        &&& forall|i: int|
            0 <= i < self.samples.len() ==> crate::float_bits::are_equal(
                #[trigger] self.samples[i],
                other.samples[i],
            )
    }

    /// Whether there is a sample rate, a channel, and as many samples for every channel.
    pub open spec fn wf(self) -> bool {
        &&& self.samplerate > 0
        &&& self.channels > 0
        &&& self.samples.len() % (self.channels as nat) == 0
    }

    /// The number of samples per channel.
    pub open spec fn frame_count(self) -> nat {
        self.samples.len() / (self.channels as nat)
    }

    /// Whether two frames can be added sample by sample.
    pub open spec fn matches_shape(self, other: AudioModel) -> bool {
        &&& self.samplerate == other.samplerate
        &&& self.channels == other.channels
        &&& self.samples.len() == other.samples.len()
    }

    /// The frame with every sample limited to the range from minus one to one.
    pub open spec fn clipped(self) -> AudioModel {
        AudioModel { samples: self.samples.map_values(|sample: Sample| limited(sample)), ..self }
    }

    /// The frame with every sample zero.
    pub open spec fn silenced(self) -> AudioModel {
        AudioModel { samples: self.samples.map_values(|sample: Sample| SAMPLE_ZERO), ..self }
    }

    /// The frame with another number of channels: the last channel is repeated where there
    /// are too few, and left out where there are too many.
    pub open spec fn with_channels(self, channels: u8) -> AudioModel {
        AudioModel {
            channels,
            samples: rechanneled(self.samples, self.channels as int, channels as int),
            ..self
        }
    }
}

/// Samples of `input` channels given `output` channels: the last channel is repeated where
/// there are too few, and left out where there are too many.
pub open spec fn rechanneled(samples: Seq<Sample>, input: int, output: int) -> Seq<Sample> {
    Seq::new(
        ((samples.len() as int / input) * output) as nat,
        |i: int|
            samples[(i / output) * input + if i % output < input {
                i % output
            } else {
                input - 1
            }],
    )
}

impl View for AudioFrame {
    type V = AudioModel;

    closed spec fn view(&self) -> AudioModel {
        AudioModel {
            samplerate: self.samplerate,
            channels: self.channels,
            samples: self.samples@,
        }
    }
}

impl Clone for AudioFrame {
    fn clone(&self) -> (copy: Self)
        ensures
            copy@ == self@,
    {
        proof {
            use_type_invariant(self);
        }
        let samples = self.samples.clone();
        assert(samples@ =~= self.samples@);
        AudioFrame { samplerate: self.samplerate, channels: self.channels, samples }
    }
}

/// The error of a frame that cannot be, if it cannot.
pub open spec fn frame_error(samplerate: u32, channels: u8, samples: nat) -> Option<AudioError> {
    if samplerate == 0 {
        Some(AudioError::InvalidSamplerate(0))
    } else if channels == 0 {
        Some(AudioError::InvalidChannels(0))
    } else if samples % (channels as nat) != 0 {
        Some(AudioError::SampleCountNotDivisible { samples: samples as usize, channels })
    } else {
        None
    }
}

impl AudioFrame {
    /// Whether there is a sample rate, a channel, and as many samples for every channel. This
    /// holds of every frame.
    pub open spec fn wf(&self) -> bool {
        self@.wf()
    }

    #[verifier::type_invariant]
    spec fn always_wf(self) -> bool {
        self@.wf()
    }

    /// Recalls what holds of every frame.
    pub(crate) fn recall(&self)
        ensures
            self.wf(),
    {
        proof {
            use_type_invariant(self);
        }
    }

    /// A frame of the given samples.
    pub fn new(samplerate: u32, channels: u8, samples: Vec<Sample>) -> (frame: Result<
        Self,
        AudioError,
    >)
        ensures
            match frame {
                Ok(frame) => {
                    &&& frame_error(samplerate, channels, samples@.len()) is None
                    &&& frame.wf()
                    &&& frame@ == (AudioModel { samplerate, channels, samples: samples@ })
                },
                Err(error) => frame_error(samplerate, channels, samples@.len()) == Some(error),
            },
    {
        if samplerate == 0 {
            return Err(AudioError::InvalidSamplerate(samplerate));
        }
        if channels == 0 {
            return Err(AudioError::InvalidChannels(channels));
        }
        if samples.len() % channels as usize != 0 {
            return Err(
                AudioError::SampleCountNotDivisible { samples: samples.len(), channels },
            );
        }
        Ok(AudioFrame { samplerate, channels, samples })
    }

    /// A frame of `frames` zero samples per channel.
    pub fn silence(samplerate: u32, channels: u8, frames: usize) -> (frame: Result<
        Self,
        AudioError,
    >)
        requires
            frames * channels <= usize::MAX,
        ensures
            match frame {
                Ok(frame) => {
                    &&& samplerate > 0 && channels > 0
                    &&& frame.wf()
                    &&& frame@ == (AudioModel {
                        samplerate,
                        channels,
                        samples: Seq::new((frames * channels) as nat, |i: int| SAMPLE_ZERO),
                    })
                },
                Err(error) => frame_error(samplerate, channels, 0) == Some(error),
            },
    {
        let count: usize = frames * channels as usize;
        let samples: Vec<Sample> = vec![SAMPLE_ZERO; count];
        assert(samples@ =~= Seq::new(count as nat, |i: int| SAMPLE_ZERO));
        proof {
            if channels > 0 {
                vstd::arithmetic::div_mod::lemma_mod_multiples_basic(
                    frames as int,
                    channels as int,
                );
            }
        }
        Self::new(samplerate, channels, samples)
    }

    /// Samples per second and channel.
    pub fn samplerate(&self) -> (samplerate: u32)
        ensures
            samplerate == self@.samplerate,
    {
        self.samplerate
    }

    /// The number of channels.
    pub fn channels(&self) -> (channels: u8)
        ensures
            channels == self@.channels,
    {
        self.channels
    }

    /// The samples of all channels in turn.
    pub fn samples(&self) -> (samples: &[Sample])
        ensures
            samples@ == self@.samples,
    {
        self.samples.as_slice()
    }

    /// Changes one sample.
    pub fn set_sample(&mut self, index: usize, sample: Sample)
        requires
            index < old(self)@.samples.len(),
        ensures
            final(self)@ == (AudioModel {
                samples: old(self)@.samples.update(index as int, sample),
                ..old(self)@
            }),
    {
        proof {
            use_type_invariant(&*self);
        }
        let mut samples: Vec<Sample> = Vec::new();
        let ghost channels = self@.channels as nat;
        assert(0nat % channels == 0) by (nonlinear_arith)
            requires
                channels > 0,
        ;
        core::mem::swap(&mut samples, &mut self.samples);
        samples[index] = sample;
        self.samples = samples;
    }

    /// The number of samples per channel.
    pub fn frame_count(&self) -> (count: usize)
        ensures
            count == self@.frame_count(),
    {
        proof {
            use_type_invariant(self);
        }
        self.samples.len() / self.channels as usize
    }

    /// The frame with a function applied to every sample.
    pub fn map_samples<F: Fn(Sample) -> Sample>(self, f: F) -> (frame: Self)
        requires
            forall|sample: Sample| self@.samples.contains(sample) ==> call_requires(f, (sample,)),
        ensures
            frame@.samplerate == self@.samplerate,
            frame@.channels == self@.channels,
            frame@.samples.len() == self@.samples.len(),
            forall|i: int|
                0 <= i < self@.samples.len() ==> call_ensures(
                    f,
                    (self@.samples[i],),
                    #[trigger] frame@.samples[i],
                ),
    {
        proof {
            use_type_invariant(&self);
        }
        let mut samples: Vec<Sample> = Vec::new();
        let mut i: usize = 0;
        while i < self.samples.len()
            invariant
                self.wf(),
                i <= self.samples@.len(),
                samples@.len() == i,
                forall|sample: Sample|
                    self@.samples.contains(sample) ==> call_requires(f, (sample,)),
                forall|j: int|
                    0 <= j < i ==> call_ensures(f, (self.samples@[j],), #[trigger] samples@[j]),
            decreases self.samples.len() - i,
        {
            assert(self@.samples.contains(self.samples@[i as int]));
            samples.push(f(self.samples[i]));
            i += 1;
        }
        AudioFrame { samplerate: self.samplerate, channels: self.channels, samples }
    }

    /// The frame with another number of channels: the last channel is repeated where there
    /// are too few, and left out where there are too many.
    pub fn with_channels(&self, channels: u8) -> (frame: Result<Self, AudioError>)
        ensures
            match frame {
                Ok(frame) => channels > 0 && frame.wf() && frame@ == self@.with_channels(channels),
                Err(error) => channels == 0 && error == AudioError::InvalidChannels(0),
            },
    {
        proof {
            use_type_invariant(self);
        }
        match normalize_audio_channels(self.samples.as_slice(), self.channels, channels) {
            Ok(samples) => {
                proof {
                    vstd::arithmetic::div_mod::lemma_mod_multiples_basic(
                        self@.frame_count() as int,
                        channels as int,
                    );
                }
                Self::new(self.samplerate, channels, samples)
            },
            Err(error) => Err(error),
        }
    }

    /// The frame with every sample limited to the range from minus one to one.
    pub fn clipped(self) -> (frame: Self)
        ensures
            frame@ == self@.clipped(),
            frame.wf(),
    {
        proof {
            use_type_invariant(&self);
        }
        let mut samples: Vec<Sample> = Vec::new();
        let mut i: usize = 0;
        while i < self.samples.len()
            invariant
                self.wf(),
                i <= self.samples@.len(),
                samples@.len() == i,
                forall|j: int| 0 <= j < i ==> samples@[j] == limited(self.samples@[j]),
            decreases self.samples.len() - i,
        {
            samples.push(limit_sample(self.samples[i]));
            i += 1;
        }
        let frame = AudioFrame { samplerate: self.samplerate, channels: self.channels, samples };
        assert(frame@ =~= self@.clipped());
        frame
    }

    /// The frame with every sample zero.
    pub fn silenced(self) -> (frame: Self)
        ensures
            frame@ == self@.silenced(),
            frame.wf(),
    {
        proof {
            use_type_invariant(&self);
        }
        let samples: Vec<Sample> = vec![SAMPLE_ZERO; self.samples.len()];
        let frame = AudioFrame { samplerate: self.samplerate, channels: self.channels, samples };
        assert(frame@ =~= self@.silenced());
        frame
    }

    /// Whether two frames can be added sample by sample.
    pub fn same_shape(&self, other: &AudioFrame) -> (same: bool)
        ensures
            same == self@.matches_shape(other@),
    {
        self.samplerate == other.samplerate && self.channels == other.channels
            && self.samples.len() == other.samples.len()
    }
}

/// Within as many frames as there are samples for, every channel's index is a sample's.
pub proof fn lemma_channel_index_in_bounds(len: nat, input: int, frame: int, channel: int)
    requires
        input > 0,
        0 <= frame < len as int / input,
        0 <= channel < input,
    ensures
        0 <= frame * input + channel < len,
{
    lemma_fundamental_div_mod(len as int, input);
    lemma_mod_bound(len as int, input);
    assert(0 <= frame * input) by (nonlinear_arith)
        requires
            0 <= frame,
            input > 0,
    ;
    assert((frame + 1) * input <= (len as int / input) * input) by (nonlinear_arith)
        requires
            frame + 1 <= len as int / input,
            input > 0,
    ;
    assert((frame + 1) * input == frame * input + input) by (nonlinear_arith);
    assert(input * (len as int / input) == (len as int / input) * input) by (nonlinear_arith);
}

/// Samples given another number of channels.
pub fn normalize_audio_channels(
    samples: &[Sample],
    input_channels: u8,
    output_channels: u8,
) -> (normalized: Result<Vec<Sample>, AudioError>)
    ensures
        match normalized {
            Ok(normalized) => {
                &&& input_channels > 0 && output_channels > 0
                &&& normalized@ == rechanneled(
                    samples@,
                    input_channels as int,
                    output_channels as int,
                )
            },
            Err(error) => {
                &&& input_channels == 0 || output_channels == 0
                &&& error == AudioError::InvalidChannels(0)
            },
        },
{
    if input_channels == 0 {
        return Err(AudioError::InvalidChannels(input_channels));
    }
    if output_channels == 0 {
        return Err(AudioError::InvalidChannels(output_channels));
    }
    let input: usize = input_channels as usize;
    let output: usize = output_channels as usize;
    let frames: usize = samples.len() / input;
    let ghost expected = rechanneled(samples@, input as int, output as int);
    let mut normalized: Vec<Sample> = Vec::new();
    let mut frame: usize = 0;
    proof {
        assert(frames as int * output as int >= 0) by (nonlinear_arith)
            requires
                frames >= 0,
                output >= 0,
        ;
        assert(0 * output as int == 0);
        assert(expected.take(0) =~= Seq::empty());
    }
    while frame < frames
        invariant
            frame <= frames,
            input > 0,
            output > 0,
            samples@.len() <= usize::MAX,
            frames == samples@.len() as int / input as int,
            expected == rechanneled(samples@, input as int, output as int),
            expected.len() == frames * output,
            normalized@ == expected.take(frame * output),
        decreases frames - frame,
    {
        let mut channel: usize = 0;
        while channel < output
            invariant
                frame < frames,
                channel <= output,
                input > 0,
                output > 0,
                samples@.len() <= usize::MAX,
                frames == samples@.len() as int / input as int,
                expected == rechanneled(samples@, input as int, output as int),
                expected.len() == frames * output,
                normalized@ == expected.take(frame * output + channel),
            decreases output - channel,
        {
            let source: usize = if channel < input {
                channel
            } else {
                input - 1
            };
            let ghost place = frame * output + channel;
            proof {
                lemma_channel_index_in_bounds(
                    samples@.len(),
                    input as int,
                    frame as int,
                    source as int,
                );
                assert(0 <= frame * input <= samples@.len()) by (nonlinear_arith)
                    requires
                        0 <= frame * input + source < samples@.len(),
                        0 <= source,
                        0 <= frame,
                        0 <= input,
                ;
                assert(0 <= place < frames * output) by (nonlinear_arith)
                    requires
                        place == frame * output + channel,
                        0 <= frame,
                        frame + 1 <= frames,
                        0 <= channel < output,
                ;
                lemma_fundamental_div_mod_converse(
                    place,
                    output as int,
                    frame as int,
                    channel as int,
                );
                assert(expected[place] == samples@[frame * input + source]);
                assert(expected.take(place + 1) =~= expected.take(place).push(expected[place]));
            }
            normalized.push(samples[frame * input + source]);
            channel += 1;
        }
        assert((frame + 1) * output == frame * output + output) by (nonlinear_arith);
        frame += 1;
    }
    assert(expected.take(frames * output) =~= expected);
    Ok(normalized)
}

/// The number of frames that sound has at another rate: the nearest whole number, at least
/// one.
pub open spec fn resampled_count(frames: int, input_rate: int, output_rate: int) -> int {
    let nearest = (frames * output_rate + input_rate / 2) / input_rate;
    if nearest < 1 {
        1
    } else {
        nearest
    }
}

/// Where an output frame lies among the input frames, in double precision.
pub open spec fn resample_position(out_frame: int, input_rate: int, output_rate: int) -> int {
    let limit = DOUBLE_LIMIT as int;
    let place = crate::rounding::rounded(out_frame * crate::rounding::double_one(), 1, limit);
    let product = crate::rounding::rounded(place * input_rate, 1, limit);
    crate::rounding::rounded(product, output_rate, limit)
}

/// Between which two input frames an output frame lies: the last one not after it, and the
/// one after that, or the last one where there is no more.
pub open spec fn resample_neighbours(
    out_frame: int,
    frames: int,
    input_rate: int,
    output_rate: int,
) -> (int, int) {
    let left = crate::rounding::saturated(
        resample_position(out_frame, input_rate, output_rate) / crate::rounding::double_one(),
    ) as int;
    (left, if left + 1 < frames {
        left + 1
    } else {
        frames - 1
    })
}

/// Every output frame lies between two frames of the input, as long as double precision has
/// the digits to tell.
pub proof fn law_resample_neighbours_exist(
    out_frame: int,
    frames: int,
    input_rate: int,
    output_rate: int,
)
    requires
        frames > 0,
        input_rate > 0,
        output_rate > 0,
        0 <= out_frame < resampled_count(frames, input_rate, output_rate),
        out_frame * input_rate < DOUBLE_LIMIT,
        input_rate <= u32::MAX,
        output_rate <= u32::MAX,
        frames <= usize::MAX,
    ensures
        resample_neighbours(out_frame, frames, input_rate, output_rate).0 == out_frame * input_rate
            / output_rate,
        0 <= resample_neighbours(out_frame, frames, input_rate, output_rate).0 < frames,
        0 <= resample_neighbours(out_frame, frames, input_rate, output_rate).1 < frames,
{
    let scaled = frames * output_rate + input_rate / 2;
    let nearest = scaled / input_rate;
    assert(out_frame * input_rate >= 0) by (nonlinear_arith)
        requires
            out_frame >= 0,
            input_rate > 0,
    ;
    lemma_exact_position(out_frame, input_rate, output_rate);
    lemma_div_is_ordered(0, out_frame * input_rate, output_rate);
    assert(frames * output_rate > 0) by (nonlinear_arith)
        requires
            frames > 0,
            output_rate > 0,
    ;
    if out_frame == 0 {
        assert(out_frame * input_rate == 0) by (nonlinear_arith)
            requires
                out_frame == 0,
        ;
        assert(0int / output_rate == 0) by (nonlinear_arith)
            requires
                output_rate > 0,
        ;
    } else {
        lemma_fundamental_div_mod(scaled, input_rate);
        lemma_mod_bound(scaled, input_rate);
        assert(out_frame * input_rate < frames * output_rate) by (nonlinear_arith)
            requires
                out_frame + 1 <= nearest,
                scaled == input_rate * nearest + scaled % input_rate,
                scaled % input_rate >= 0,
                scaled == frames * output_rate + input_rate / 2,
                input_rate > 0,
                input_rate / 2 < input_rate,
        ;
        let left = out_frame * input_rate / output_rate;
        lemma_fundamental_div_mod(out_frame * input_rate, output_rate);
        lemma_mod_bound(out_frame * input_rate, output_rate);
        assert(left < frames) by (nonlinear_arith)
            requires
                out_frame * input_rate == output_rate * left + (out_frame * input_rate)
                    % output_rate,
                (out_frame * input_rate) % output_rate >= 0,
                out_frame * input_rate < frames * output_rate,
                output_rate > 0,
        ;
    }
}

proof fn lemma_exact_position(out_frame: int, input_rate: int, output_rate: int)
    requires
        out_frame >= 0,
        0 < input_rate,
        0 < output_rate <= u32::MAX,
        out_frame * input_rate < DOUBLE_LIMIT,
    ensures
        resample_position(out_frame, input_rate, output_rate) / crate::rounding::double_one()
            == out_frame * input_rate / output_rate,
{
    let limit = DOUBLE_LIMIT as int;
    let one = crate::rounding::double_one();
    assert(0 <= out_frame <= out_frame * input_rate) by (nonlinear_arith)
        requires
            out_frame >= 0,
            input_rate >= 1,
    ;
    crate::rounding::lemma_rounded_exact(out_frame, limit, 1074);
    crate::rounding::lemma_rounded_exact(out_frame * input_rate, limit, 1074);
    assert((out_frame * one) * input_rate == (out_frame * input_rate) * one) by (nonlinear_arith);
    crate::rounding::lemma_double_floor(out_frame * input_rate, output_rate);
}

/// The last input frame that is not after an output frame.
fn left_neighbour(out_frame: usize, input_rate: u32, output_rate: u32) -> (left: usize)
    requires
        input_rate > 0,
        output_rate > 0,
    ensures
        left == crate::rounding::saturated(
            resample_position(out_frame as int, input_rate as int, output_rate as int)
                / crate::rounding::double_one(),
        ),
{
    if out_frame == 0 {
        proof {
            lemma_exact_position(0, input_rate as int, output_rate as int);
            assert(0 * input_rate == 0);
            lemma_fundamental_div_mod_converse(0, output_rate as int, 0, 0);
        }
        return 0;
    }
    let wide: u128 = out_frame as u128 * 0x20_0000_0000_0000;
    let (place, first) = round_quotient(wide, 1, DOUBLE_LIMIT);
    assert(place <= place * input_rate <= 0x20_0000_0000_0000 * 0xffff_ffff) by (nonlinear_arith)
        requires
            0 <= place <= 0x20_0000_0000_0000,
            1 <= input_rate <= 0xffff_ffff,
    ;
    let product: u128 = place as u128 * input_rate as u128;
    let (total, second) = round_quotient(product, 1, DOUBLE_LIMIT);
    let tall: u128 = total as u128 * 0x1_0000_0000;
    let (quotient, third) = round_quotient(tall, output_rate as u128, DOUBLE_LIMIT);
    proof {
        let limit = DOUBLE_LIMIT as int;
        let one = crate::rounding::double_one();
        lemma2_to64();
        lemma_pow2_adds(53, 1021);
        lemma2_to64_rest();
        let high = pow2(1021) as int;
        assert(one == 0x20_0000_0000_0000 * high);
        crate::rounding::lemma_rounded_scaled(wide as int, 1, limit, 1021);
        assert(out_frame * one == wide * high) by (nonlinear_arith)
            requires
                one == 0x20_0000_0000_0000 * high,
                wide == out_frame * 0x20_0000_0000_0000,
        ;
        let p1 = pow2(first as nat) as int;
        let place_value = (place * p1) * high;
        assert(place_value == crate::rounding::rounded(out_frame * one, 1, limit));
        lemma_pow2_adds(first as nat, 1021);
        let joined = pow2((first + 1021) as nat) as int;
        assert(place_value * input_rate == product * joined) by (nonlinear_arith)
            requires
                place_value == (place * p1) * high,
                joined == p1 * high,
                product == place * input_rate,
        ;
        crate::rounding::lemma_rounded_scaled(product as int, 1, limit, (first + 1021) as nat);
        let p2 = pow2(second as nat) as int;
        let product_value = (total * p2) * joined;
        assert(product_value == crate::rounding::rounded(place_value * input_rate, 1, limit));
        lemma_pow2_adds(second as nat, (first + 1021) as nat);
        let more = (first + second + 989) as nat;
        lemma_pow2_adds(32, more);
        let low = pow2(more) as int;
        assert(product_value == tall * low) by (nonlinear_arith)
            requires
                product_value == (total * p2) * joined,
                p2 * joined == 0x1_0000_0000 * low,
                tall == total * 0x1_0000_0000,
        ;
        crate::rounding::lemma_rounded_scaled(tall as int, output_rate as int, limit, more);
        let p3 = pow2(third as nat) as int;
        let sum = (first + second + third) as nat;
        lemma_pow2_adds((first + second) as nat, third as nat);
        lemma_pow2_adds((first + second) as nat, 989);
        let p12 = pow2((first + second) as nat) as int;
        let common = pow2(989) as int;
        assert((quotient * p3) * low == quotient * pow2(sum) * common) by (nonlinear_arith)
            requires
                low == p12 * common,
                pow2(sum) == p12 * p3,
        ;
        lemma_pow2_adds(85, 989);
    }
    floor_digits(quotient, first + second + third, 85, Ghost(989))
}

/// Where the samples of an output frame come from.
#[derive(Debug, Clone, Copy, PartialEq, Eq, Structural)]
pub struct ResampleStep {
    pub left: usize,
    pub right: usize,
}

/// For every output frame the two input frames between which it lies. How far it lies
/// between them is what its place is more than `left`.
pub fn plan_resampling(frames: usize, input_rate: u32, output_rate: u32) -> (steps: Vec<
    ResampleStep,
>)
    requires
        frames > 0,
        input_rate > 0,
        output_rate > 0,
        frames * output_rate + input_rate / 2 <= u64::MAX,
        resampled_count(frames as int, input_rate as int, output_rate as int) <= usize::MAX,
    ensures
        steps@.len() == resampled_count(frames as int, input_rate as int, output_rate as int),
        forall|i: int|
            0 <= i < steps@.len() ==> ((#[trigger] steps@[i]).left as int, steps@[i].right as int)
                == resample_neighbours(
                i,
                frames as int,
                input_rate as int,
                output_rate as int,
            ),
{
    let total: u64 = frames as u64 * output_rate as u64;
    let nearest: u64 = (total + input_rate as u64 / 2) / input_rate as u64;
    let count: usize = if nearest < 1 {
        1
    } else {
        nearest as usize
    };
    let mut steps: Vec<ResampleStep> = Vec::new();
    let mut out_frame: usize = 0;
    while out_frame < count
        invariant
            out_frame <= count,
            frames > 0,
            input_rate > 0,
            output_rate > 0,
            count == resampled_count(frames as int, input_rate as int, output_rate as int),
            steps@.len() == out_frame,
            forall|i: int|
                0 <= i < steps@.len() ==> (
                (#[trigger] steps@[i]).left as int,
                steps@[i].right as int,
                ) == resample_neighbours(
                    i,
                    frames as int,
                    input_rate as int,
                    output_rate as int,
                ),
        decreases count - out_frame,
    {
        let left = left_neighbour(out_frame, input_rate, output_rate);
        let right: usize = if left < frames - 1 {
            left + 1
        } else {
            frames - 1
        };
        steps.push(ResampleStep { left, right });
        out_frame += 1;
    }
    steps
}

/// Limiting what was limited changes nothing.
pub proof fn law_clipping_twice_is_clipping_once(frame: AudioModel)
    ensures
        frame.clipped().clipped() == frame.clipped(),
{
    assert forall|sample: Sample| limited(#[trigger] limited(sample)) == limited(sample) by {}
    assert(frame.clipped().clipped().samples =~= frame.clipped().samples);
}

/// A frame that was given more channels has its own channels back once the others are left
/// out.
pub proof fn law_widened_frame_is_narrowed_back(frame: AudioModel, channels: u8)
    requires
        frame.wf(),
        channels >= frame.channels,
    ensures
        frame.with_channels(channels).with_channels(frame.channels) == frame,
{
    let input = frame.channels as int;
    let output = channels as int;
    let count = frame.samples.len() as int / input;
    let wide = rechanneled(frame.samples, input, output);
    vstd::arithmetic::div_mod::lemma_fundamental_div_mod(frame.samples.len() as int, input);
    vstd::arithmetic::div_mod::lemma_div_multiples_vanish(count, output);
    vstd::arithmetic::mul::lemma_mul_is_commutative(count, output);
    vstd::arithmetic::mul::lemma_mul_is_commutative(count, input);
    vstd::arithmetic::mul::lemma_mul_nonnegative(count, output);
    assert(wide.len() == count * output);
    let narrow = rechanneled(wide, output, input);
    assert(narrow.len() == frame.samples.len());
    assert forall|i: int| 0 <= i < narrow.len() implies narrow[i] == frame.samples[i] by {
        let row = i / input;
        let column = i % input;
        vstd::arithmetic::div_mod::lemma_fundamental_div_mod(i, input);
        vstd::arithmetic::mul::lemma_mul_is_commutative(input, row);
        assert(0 <= row < count) by (nonlinear_arith)
            requires
                0 <= i < count * input,
                i == row * input + column,
                0 <= column < input,
        ;
        let at = row * output + column;
        assert(0 <= at < count * output) by (nonlinear_arith)
            requires
                0 <= row < count,
                0 <= column < output,
                at == row * output + column,
        ;
        vstd::arithmetic::div_mod::lemma_fundamental_div_mod_converse(at, output, row, column);
        assert(narrow[i] == wide[at]);
        assert(wide[at] == frame.samples[row * input + column]);
    }
    assert(narrow =~= frame.samples);
}

/// Whether a number is another one limited to the range from minus one to one: one within the
/// range is kept, as is what is no number; a larger one becomes one, a smaller one minus one.
pub open spec fn is_within_one(sample: u32, kept: u32) -> bool {
    if sample <= 0x3f80_0000 || 0x8000_0000 <= sample <= 0xbf80_0000 {
        kept == sample
    } else if sample <= 0x7f80_0000 {
        kept == 0x3f80_0000
    } else if sample < 0x8000_0000 {
        kept == sample
    } else if sample <= 0xff80_0000 {
        kept == 0xbf80_0000
    } else {
        kept == sample
    }
}

/// Clipping keeps the format of a frame and limits every sample to the range from minus one to
/// one.
pub proof fn law_clipping_limits_every_sample(frame: AudioModel)
    ensures
        ({
            let clipped = frame.clipped();
            &&& clipped.samplerate == frame.samplerate
            &&& clipped.channels == frame.channels
            &&& clipped.samples.len() == frame.samples.len()
            &&& forall|i: int|
                0 <= i < frame.samples.len() ==> is_within_one(
                    frame.samples[i],
                    #[trigger] clipped.samples[i],
                )
        }),
        forall|sample: Sample| is_within_one(sample, #[trigger] limited(sample)),
{
}

/// Silence keeps the format and the length of a frame, and has no sample but zero.
pub proof fn law_silenced_frame_is_silent(frame: AudioModel)
    ensures
        frame.silenced().samplerate == frame.samplerate,
        frame.silenced().channels == frame.channels,
        frame.silenced().samples.len() == frame.samples.len(),
        forall|i: int| 0 <= i < frame.samples.len() ==> #[trigger] frame.silenced().samples[i] == 0,
{
}

/// A frame that is given another number of channels keeps its rate and its length; of every
/// moment each channel is what it was, and a channel that was not there is the last that was.
pub proof fn law_channels_are_kept_or_repeated(
    frame: AudioModel,
    channels: u8,
    row: int,
    channel: int,
)
    requires
        frame.wf(),
        channels > 0,
        0 <= row < frame.samples.len() as int / frame.channels as int,
        0 <= channel < channels,
    ensures
        ({
            let after = frame.with_channels(channels);
            let from = if channel < frame.channels {
                channel
            } else {
                frame.channels - 1
            };
            &&& after.samplerate == frame.samplerate
            &&& after.channels == channels
            &&& after.samples.len() == (frame.samples.len() as int / frame.channels as int)
                * channels
            &&& 0 <= row * channels + channel < after.samples.len()
            &&& after.samples[row * channels + channel] == frame.samples[row * frame.channels
                + from]
        }),
{
    let input = frame.channels as int;
    let output = channels as int;
    let count = frame.samples.len() as int / input;
    let at = row * output + channel;
    assert(0 <= at < count * output) by (nonlinear_arith)
        requires
            0 <= row < count,
            0 <= channel < output,
            at == row * output + channel,
    ;
    lemma_fundamental_div_mod_converse(at, output, row, channel);
}

/// A frame has as many samples at another rate as it lasts, to the nearest whole number, and at
/// least one.
pub proof fn law_resampling_keeps_the_length(frames: int, input_rate: int, output_rate: int)
    requires
        frames >= 0,
        input_rate > 0,
        output_rate > 0,
    ensures
        ({
            let count = resampled_count(frames, input_rate, output_rate);
            &&& count >= 1
            &&& 2 * (frames * output_rate) <= 2 * (count * input_rate) + input_rate
            &&& count > 1 ==> 2 * (count * input_rate) <= 2 * (frames * output_rate) + input_rate
        }),
        input_rate == output_rate && frames > 0 ==> resampled_count(frames, input_rate, output_rate)
            == frames,
{
    let scaled = frames * output_rate + input_rate / 2;
    let nearest = scaled / input_rate;
    assert(frames * output_rate >= 0) by (nonlinear_arith)
        requires
            frames >= 0,
            output_rate > 0,
    ;
    lemma_fundamental_div_mod(scaled, input_rate);
    lemma_mod_bound(scaled, input_rate);
    let count = resampled_count(frames, input_rate, output_rate);
    assert(input_rate * nearest == nearest * input_rate) by (nonlinear_arith);
    assert(count * input_rate >= nearest * input_rate) by (nonlinear_arith)
        requires
            count >= nearest,
            input_rate > 0,
    ;
    if input_rate == output_rate && frames > 0 {
        lemma_fundamental_div_mod_converse(scaled, input_rate, frames, input_rate / 2);
    }
}

/// The second of the two frames between which an output frame lies is the one behind the first,
/// or the last where there is none.
pub proof fn law_neighbours_lie_together(
    out_frame: int,
    frames: int,
    input_rate: int,
    output_rate: int,
)
    requires
        frames > 0,
    ensures
        ({
            let (left, right) = resample_neighbours(out_frame, frames, input_rate, output_rate);
            &&& left < frames - 1 ==> right == left + 1
            &&& left >= frames - 1 ==> right == frames - 1
        }),
{
}

/// A frame can be made exactly of samples that every channel has as many of, at a rate above
/// zero; what is wrong first is told.
pub proof fn law_frames_have_a_rate_and_whole_moments(samplerate: u32, channels: u8, samples: nat)
    ensures
        frame_error(samplerate, channels, samples) is None <==> samplerate > 0 && channels > 0
            && samples % (channels as nat) == 0,
        samplerate == 0 ==> frame_error(samplerate, channels, samples) == Some(
            AudioError::InvalidSamplerate(0),
        ),
        samplerate > 0 && channels == 0 ==> frame_error(samplerate, channels, samples) == Some(
            AudioError::InvalidChannels(0),
        ),
        samplerate > 0 && channels > 0 && samples % (channels as nat) != 0 ==> frame_error(
            samplerate,
            channels,
            samples,
        ) == Some(AudioError::SampleCountNotDivisible { samples: samples as usize, channels }),
{
}

/// Sound whose rate is a whole multiple of the one that is wanted is thinned out: of that many
/// moments the first is taken.
pub proof fn law_whole_multiples_are_thinned_out(
    out_frame: int,
    frames: int,
    times: int,
    output_rate: int,
)
    requires
        0 <= out_frame,
        times > 0,
        output_rate > 0,
        out_frame * (times * output_rate) < 0x20_0000_0000_0000,
        out_frame * times < frames <= usize::MAX,
    ensures
        resample_neighbours(out_frame, frames, times * output_rate, output_rate).0 == out_frame
            * times,
{
    let limit = DOUBLE_LIMIT as int;
    let one = crate::rounding::double_one();
    let input_rate = times * output_rate;
    let whole = out_frame * times;
    vstd::arithmetic::power2::lemma_pow2_pos(1074);
    assert(out_frame <= out_frame * input_rate) by (nonlinear_arith)
        requires
            0 <= out_frame,
            input_rate == times * output_rate,
            times > 0,
            output_rate > 0,
    ;
    assert(0 <= whole <= out_frame * input_rate) by (nonlinear_arith)
        requires
            0 <= out_frame,
            whole == out_frame * times,
            input_rate == times * output_rate,
            times > 0,
            output_rate > 0,
    ;
    crate::rounding::lemma_rounded_exact(out_frame, limit, 1074);
    assert((out_frame * one) * input_rate == (out_frame * input_rate) * one) by (nonlinear_arith);
    crate::rounding::lemma_rounded_exact(out_frame * input_rate, limit, 1074);
    assert((out_frame * input_rate) * one == (whole * one) * output_rate) by (nonlinear_arith)
        requires
            whole == out_frame * times,
            input_rate == times * output_rate,
    ;
    crate::rounding::law_common_factors_do_not_matter(whole * one, 1, limit, output_rate);
    assert(1 * output_rate == output_rate);
    crate::rounding::lemma_rounded_exact(whole, limit, 1074);
    assert(resample_position(out_frame, input_rate, output_rate) == whole * one);
    vstd::arithmetic::div_mod::lemma_div_multiples_vanish(whole, one);
    assert(whole * one == one * whole) by (nonlinear_arith);
}

} // verus!
