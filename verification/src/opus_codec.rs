//! Opus: which settings a profile stands for, and what an encoder or decoder is asked to do.
use crate::audio::AudioModel;
use crate::audio::AudioFrame;
use crate::audio_codec::CodecError;
use crate::codec::{CodecKind, CodecProfile, CodecProfileInfo, OpusApplication};
use vstd::prelude::*;

verus! {

/// The lengths of Opus frames, in tenths of a millisecond.
pub open spec fn opus_tenths() -> Seq<u32> {
    seq![25, 50, 100, 200, 400, 600]
}

/// Whether so many samples are a frame of the given length.
pub open spec fn lasts(sample_count: int, samplerate: int, tenths: int) -> bool {
    samplerate * tenths == sample_count * 10_000
}

/// Whether Opus works at a sample rate.
pub open spec fn opus_rate(samplerate: u32) -> bool {
    ||| samplerate == 8_000
    ||| samplerate == 12_000
    ||| samplerate == 16_000
    ||| samplerate == 24_000
    ||| samplerate == 48_000
}

/// The most bytes that a frame may take at a bit rate, a started byte counted in full.
pub open spec fn most_bytes(bitrate: int, tenths: int) -> int {
    (bitrate * tenths + 79_999) / 80_000
}

/// What an encoder is asked to do.
#[derive(Debug, Clone, Copy, PartialEq, Eq, Structural)]
pub struct OpusEncodePlan {
    pub samplerate: u32,
    pub channels: u8,
    pub application: OpusApplication,
    pub bitrate: u32,
    pub sample_count: usize,
    pub max_frame_bytes: usize,
}

/// What a decoder is asked to do.
#[derive(Debug, Clone, Copy, PartialEq, Eq, Structural)]
pub struct OpusDecodePlan {
    pub samplerate: u32,
    pub channels: u8,
}

/// Opus with the settings of a profile.
#[derive(Debug, Clone, Copy, PartialEq, Eq, Structural)]
pub struct OpusCodec {
    profile: CodecProfile,
}

/// The error of a profile that is none of Opus.
pub open spec fn not_opus(profile: CodecProfile, error: CodecError) -> bool {
    error matches CodecError::InvalidProfile(text) && text@ == profile.label()
        + " is not an Opus profile"@
}

/// The samples per channel that a frame has at another rate.
pub open spec fn resampled_frames(frame: AudioModel, samplerate: u32) -> int {
    if frame.samplerate == samplerate {
        frame.frame_count() as int
    } else if frame.samples.len() == 0 {
        0
    } else {
        crate::audio::resampled_count(
            frame.frame_count() as int,
            frame.samplerate as int,
            samplerate as int,
        )
    }
}

/// Whether the samples per channel that a frame has at another rate can be counted.
pub open spec fn resampling_fits(frame: AudioModel, samplerate: u32) -> bool {
    frame.samplerate != samplerate && frame.samples.len() > 0 ==> {
        &&& frame.frame_count() * samplerate + frame.samplerate / 2 <= u64::MAX
        &&& resampled_frames(frame, samplerate) <= usize::MAX
    }
}

/// The samples per channel that a frame has at another rate.
pub fn resampled_frame_count(frame: &AudioFrame, samplerate: u32) -> (count: usize)
    requires
        resampling_fits(frame@, samplerate),
    ensures
        count == resampled_frames(frame@, samplerate),
{
    frame.recall();
    let frames = frame.frame_count();
    if frame.samplerate() == samplerate {
        frames
    } else if frame.samples().len() == 0 {
        0
    } else {
        resampled_len(frames, frame.samplerate(), samplerate)
    }
}

/// Opus takes a frame where the length after resampling is one that it has.
pub open spec fn takes(sample_count: int, samplerate: int) -> bool {
    exists|tenths: u32| #[trigger]
        opus_tenths().contains(tenths) && lasts(sample_count, samplerate, tenths as int)
}

impl OpusCodec {
    /// The profile that frames are encoded for.
    pub closed spec fn profile_of(&self) -> CodecProfile {
        self.profile
    }

    /// Opus with the settings of a profile.
    pub fn new(profile: CodecProfile) -> (codec: Self)
        ensures
            codec.profile_of() == profile,
    {
        OpusCodec { profile }
    }

    /// The profile that frames are encoded for.
    pub fn profile(&self) -> (profile: CodecProfile)
        ensures
            profile == self.profile_of(),
    {
        self.profile
    }

    /// The codec's family.
    pub fn kind(&self) -> (kind: CodecKind)
        ensures
            kind is Opus,
    {
        CodecKind::Opus
    }

    /// The settings of a profile, where it is one of Opus.
    pub fn profile_info(profile: CodecProfile) -> (info: Result<CodecProfileInfo, CodecError>)
        ensures
            match info {
                Ok(info) => profile.is_opus() && info == profile.info_of(),
                Err(error) => !profile.is_opus() && not_opus(profile, error),
            },
    {
        let info = profile.info();
        if info.opus_application.is_none() {
            return Err(
                CodecError::InvalidProfile(
                    profile.name().to_owned().concat(" is not an Opus profile"),
                ),
            );
        }
        Ok(info)
    }

    /// The channels of an Opus profile.
    pub fn profile_channels(profile: CodecProfile) -> (channels: Result<u8, CodecError>)
        ensures
            match channels {
                Ok(channels) => profile.is_opus() && channels == profile.limits().0,
                Err(error) => !profile.is_opus() && not_opus(profile, error),
            },
    {
        match Self::profile_info(profile) {
            Ok(info) => Ok(info.channels),
            Err(error) => Err(error),
        }
    }

    /// The sample rate of an Opus profile.
    pub fn profile_samplerate(profile: CodecProfile) -> (samplerate: Result<u32, CodecError>)
        ensures
            match samplerate {
                Ok(samplerate) => profile.is_opus() && samplerate == profile.limits().1,
                Err(error) => !profile.is_opus() && not_opus(profile, error),
            },
    {
        match Self::profile_info(profile) {
            Ok(info) => Ok(info.samplerate),
            Err(error) => Err(error),
        }
    }

    /// The highest bit rate of an Opus profile.
    pub fn profile_bitrate_ceiling(profile: CodecProfile) -> (bitrate: Result<u32, CodecError>)
        ensures
            match bitrate {
                Ok(bitrate) => profile.is_opus() && bitrate == profile.limits().2,
                Err(error) => !profile.is_opus() && not_opus(profile, error),
            },
    {
        match Self::profile_info(profile) {
            Ok(info) => Ok(info.bitrate_ceiling),
            Err(error) => Err(error),
        }
    }

    /// The most bytes that a frame may take at a bit rate, its length given in tenths of a
    /// millisecond.
    pub fn max_bytes_per_frame(bitrate_ceiling: u32, frame_duration_tenths_ms: u32) -> (bytes: u64)
        ensures
            bytes == most_bytes(bitrate_ceiling as int, frame_duration_tenths_ms as int),
    {
        assert(bitrate_ceiling as u64 * frame_duration_tenths_ms as u64 <= 0xffff_ffff
            * 0xffff_ffff) by (nonlinear_arith)
            requires
                bitrate_ceiling <= 0xffff_ffff,
                frame_duration_tenths_ms <= 0xffff_ffff,
        ;
        let product: u64 = bitrate_ceiling as u64 * frame_duration_tenths_ms as u64;
        product / 80_000 + if product % 80_000 == 0 {
            0
        } else {
            1
        }
    }

    /// The settings of the codec's profile, where it is one of Opus.
    pub fn info(&self) -> (info: Result<CodecProfileInfo, CodecError>)
        ensures
            match info {
                Ok(info) => self.profile_of().is_opus() && info == self.profile_of().info_of(),
                Err(error) => !self.profile_of().is_opus() && not_opus(self.profile_of(), error),
            },
    {
        Self::profile_info(self.profile)
    }

    /// What an encoder is asked to do with a frame. The frame is given the profile's channels
    /// and resampled to the profile's rate; its length must then be one that Opus has.
    pub fn plan_encode(&self, frame: &AudioFrame) -> (plan: Result<OpusEncodePlan, CodecError>)
        requires
            self.profile_of().is_opus() ==> resampling_fits(frame@, self.profile_of().limits().1),
        ensures
            match plan {
                Ok(plan) => {
                    let profile = self.profile_of();
                    &&& profile.is_opus()
                    &&& plan.channels == profile.limits().0
                    &&& plan.samplerate == profile.limits().1
                    &&& plan.bitrate == profile.limits().2
                    &&& profile.application() == Some(plan.application)
                    &&& plan.sample_count == resampled_frames(frame@, plan.samplerate)
                    &&& exists|tenths: u32| #[trigger]
                        opus_tenths().contains(tenths) && lasts(
                            plan.sample_count as int,
                            plan.samplerate as int,
                            tenths as int,
                        ) && plan.max_frame_bytes == most_bytes(
                            plan.bitrate as int,
                            tenths as int,
                        )
                },
                Err(error) => if self.profile_of().is_opus() {
                    let samplerate = self.profile_of().limits().1;
                    let sample_count = resampled_frames(frame@, samplerate);
                    &&& !takes(sample_count, samplerate as int)
                    &&& error == CodecError::InvalidFrameDuration {
                        sample_count: sample_count as usize,
                        samplerate,
                    }
                } else {
                    not_opus(self.profile_of(), error)
                },
            },
    {
        let info = match self.info() {
            Ok(info) => info,
            Err(error) => return Err(error),
        };
        let application = match info.opus_application {
            Some(application) => application,
            None => OpusApplication::Audio,
        };
        let sample_count = resampled_frame_count(frame, info.samplerate);
        match valid_opus_frame_duration_tenths(sample_count, info.samplerate) {
            Some(tenths) => {
                let bytes = Self::max_bytes_per_frame(info.bitrate_ceiling, tenths);
                proof {
                    let i = choose|i: int|
                        0 <= i < opus_tenths().len() && opus_tenths()[i] == tenths;
                    assert(25 <= tenths <= 600);
                    assert(6_000 * 25 <= info.bitrate_ceiling * tenths <= 128_000 * 600)
                        by (nonlinear_arith)
                        requires
                            6_000 <= info.bitrate_ceiling <= 128_000,
                            25 <= tenths <= 600,
                    ;
                }
                let max_frame_bytes: usize = if bytes < 1 {
                    1
                } else {
                    bytes as usize
                };
                Ok(
                    OpusEncodePlan {
                        samplerate: info.samplerate,
                        channels: info.channels,
                        application,
                        bitrate: info.bitrate_ceiling,
                        sample_count,
                        max_frame_bytes,
                    },
                )
            },
            None => Err(
                CodecError::InvalidFrameDuration { sample_count, samplerate: info.samplerate },
            ),
        }
    }

    /// What a decoder is asked to do with a packet. Without a rate of its own the profile's
    /// rate is used; the rate must be one at which Opus works.
    pub fn plan_decode(&self, data: &[u8], samplerate: u32) -> (plan: Result<
        OpusDecodePlan,
        CodecError,
    >)
        ensures
            ({
                let rate = if samplerate == 0 {
                    self.profile_of().limits().1
                } else {
                    samplerate
                };
                match plan {
                    Ok(plan) => {
                        &&& data@.len() > 0
                        &&& self.profile_of().is_opus()
                        &&& opus_rate(rate)
                        &&& plan.samplerate == rate
                        &&& plan.channels == self.profile_of().limits().0
                    },
                    Err(error) => if data@.len() == 0 {
                        error == CodecError::EmptyFrame
                    } else if !self.profile_of().is_opus() {
                        not_opus(self.profile_of(), error)
                    } else {
                        &&& !opus_rate(rate)
                        &&& error == CodecError::InvalidOpusSamplerate(rate)
                    },
                }
            }),
    {
        if data.len() == 0 {
            return Err(CodecError::EmptyFrame);
        }
        let info = match self.info() {
            Ok(info) => info,
            Err(error) => return Err(error),
        };
        let samplerate: u32 = if samplerate == 0 {
            info.samplerate
        } else {
            samplerate
        };
        match validate_opus_samplerate(samplerate) {
            Ok(()) => Ok(OpusDecodePlan { samplerate, channels: info.channels }),
            Err(error) => Err(error),
        }
    }
}

/// Every profile of Opus has a rate at which Opus works and one or two channels.
pub proof fn law_opus_profiles_are_valid(profile: CodecProfile)
    requires
        profile.is_opus(),
    ensures
        opus_rate(profile.limits().1),
        1 <= profile.limits().0 <= 2,
        profile.application() is Some,
{
}

fn resampled_len(frames: usize, input_rate: u32, output_rate: u32) -> (count: usize)
    requires
        input_rate > 0,
        frames * output_rate + input_rate / 2 <= u64::MAX,
        crate::audio::resampled_count(frames as int, input_rate as int, output_rate as int)
            <= usize::MAX,
    ensures
        count == crate::audio::resampled_count(frames as int, input_rate as int, output_rate as int),
{
    assert(0 <= frames * output_rate) by (nonlinear_arith)
        requires
            frames >= 0,
            output_rate >= 0,
    ;
    let total: u64 = frames as u64 * output_rate as u64 + input_rate as u64 / 2;
    let nearest: u64 = total / input_rate as u64;
    if nearest < 1 {
        1
    } else {
        nearest as usize
    }
}

/// Whether Opus works at a sample rate.
pub fn validate_opus_samplerate(samplerate: u32) -> (valid: Result<(), CodecError>)
    ensures
        match valid {
            Ok(()) => opus_rate(samplerate),
            Err(error) => {
                &&& !opus_rate(samplerate)
                &&& error == CodecError::InvalidOpusSamplerate(samplerate)
            },
        },
{
    match samplerate {
        8_000 | 12_000 | 16_000 | 24_000 | 48_000 => Ok(()),
        other => Err(CodecError::InvalidOpusSamplerate(other)),
    }
}

/// The length of so many samples in tenths of a millisecond, where Opus has it.
pub fn valid_opus_frame_duration_tenths(sample_count: usize, samplerate: u32) -> (tenths: Option<
    u32,
>)
    ensures
        match tenths {
            Some(tenths) => opus_tenths().contains(tenths) && lasts(
                sample_count as int,
                samplerate as int,
                tenths as int,
            ),
            None => !takes(sample_count as int, samplerate as int),
        },
{
    let valid: [u32; 6] = [25, 50, 100, 200, 400, 600];
    assert(valid@ =~= opus_tenths());
    let mut i: usize = 0;
    while i < 6
        invariant
            i <= 6,
            valid@ == opus_tenths(),
            forall|j: int|
                0 <= j < i ==> !lasts(
                    sample_count as int,
                    samplerate as int,
                    #[trigger] opus_tenths()[j] as int,
                ),
        decreases 6 - i,
    {
        let tenths: u32 = valid[i];
        assert(samplerate as u64 * tenths as u64 <= 0xffff_ffff * 0xffff_ffff) by (nonlinear_arith)
            requires
                samplerate <= 0xffff_ffff,
                tenths <= 0xffff_ffff,
        ;
        if (samplerate as u64 * tenths as u64) as u128 == sample_count as u128 * 10_000 {
            assert(opus_tenths()[i as int] == tenths);
            return Some(tenths);
        }
        i += 1;
    }
    proof {
        if takes(sample_count as int, samplerate as int) {
            let tenths = choose|tenths: u32| #[trigger]
                opus_tenths().contains(tenths) && lasts(
                    sample_count as int,
                    samplerate as int,
                    tenths as int,
                );
            let j = choose|j: int| 0 <= j < opus_tenths().len() && opus_tenths()[j] == tenths;
            assert(!lasts(sample_count as int, samplerate as int, opus_tenths()[j] as int));
        }
    }
    None
}

/// Opus takes frames of 2.5, 5, 10, 20, 40 and 60 milliseconds, at whatever rate.
pub proof fn law_opus_takes_six_lengths(sample_count: int, samplerate: int)
    ensures
        takes(sample_count, samplerate) <==> (400 * sample_count == samplerate || 200
            * sample_count == samplerate || 100 * sample_count == samplerate || 50 * sample_count
            == samplerate || 25 * sample_count == samplerate || 50 * sample_count == 3
            * samplerate),
{
    let all = opus_tenths();
    assert(all[0] == 25 && all[1] == 50 && all[2] == 100 && all[3] == 200 && all[4] == 400
        && all[5] == 600);
    assert(all.contains(25) && all.contains(50) && all.contains(100) && all.contains(200)
        && all.contains(400) && all.contains(600));
    if takes(sample_count, samplerate) {
        let tenths = choose|tenths: u32| #[trigger]
            opus_tenths().contains(tenths) && lasts(sample_count, samplerate, tenths as int);
        assert(tenths == 25 || tenths == 50 || tenths == 100 || tenths == 200 || tenths == 400
            || tenths == 600);
        assert(samplerate * tenths == sample_count * 10_000);
    }
    assert(400 * sample_count == samplerate ==> lasts(sample_count, samplerate, 25));
    assert(200 * sample_count == samplerate ==> lasts(sample_count, samplerate, 50));
    assert(100 * sample_count == samplerate ==> lasts(sample_count, samplerate, 100));
    assert(50 * sample_count == samplerate ==> lasts(sample_count, samplerate, 200));
    assert(25 * sample_count == samplerate ==> lasts(sample_count, samplerate, 400));
    assert(50 * sample_count == 3 * samplerate ==> lasts(sample_count, samplerate, 600));
}

/// A frame may take the smallest number of bytes that its time fills at the bitrate.
pub proof fn law_frames_keep_to_the_bitrate(bitrate: int, tenths: int)
    requires
        bitrate >= 0,
        tenths >= 0,
    ensures
        8 * most_bytes(bitrate, tenths) * 10_000 >= bitrate * tenths,
        8 * (most_bytes(bitrate, tenths) - 1) * 10_000 < bitrate * tenths,
{
    assert(bitrate * tenths >= 0) by (nonlinear_arith)
        requires
            bitrate >= 0,
            tenths >= 0,
    ;
}

/// The rates of Opus are 8, 12, 16, 24 and 48 kHz: the multiples of 4 kHz above that which
/// divide 48 kHz.
pub proof fn law_opus_rates(thousands: u32)
    requires
        thousands <= 1_000_000,
    ensures
        opus_rate((1_000 * thousands) as u32) <==> (thousands == 8 || thousands == 12 || thousands
            == 16 || thousands == 24 || thousands == 48),
        forall|rate: u32| #[trigger] opus_rate(rate) ==> rate % 4_000 == 0,
{
}

/// Sound that has the rate of the codec keeps its length; other sound keeps its time, to the
/// nearest frame.
pub proof fn law_sound_for_opus_keeps_its_time(frame: AudioModel, samplerate: u32)
    requires
        frame.wf(),
        samplerate > 0,
    ensures
        frame.samplerate == samplerate ==> resampled_frames(frame, samplerate)
            == frame.frame_count(),
        frame.samples.len() == 0 ==> resampled_frames(frame, samplerate) == 0,
        frame.samplerate != samplerate && frame.samples.len() > 0 ==> resampled_frames(
            frame,
            samplerate,
        ) == crate::audio::resampled_count(
            frame.frame_count() as int,
            frame.samplerate as int,
            samplerate as int,
        ),
{
}

} // verus!
