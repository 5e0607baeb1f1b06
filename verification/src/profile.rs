//! Call profiles: the quality settings two parties agree on.
use crate::codec::CodecProfile;
use crate::text::push_hex_byte;
use vstd::prelude::*;
use vstd::std_specs::convert::TryFromSpecImpl;

verus! {

/// The quality settings of a call.
#[derive(Debug, Clone, Copy, PartialEq, Eq, Hash, Structural)]
pub enum CallProfile {
    UltraLowBandwidth,
    VeryLowBandwidth,
    LowBandwidth,
    MediumQuality,
    HighQuality,
    MaxQuality,
    UltraLowLatency,
    LowLatency,
}

/// A byte that names no call profile.
#[derive(Debug, Clone, Copy, PartialEq, Eq, Structural)]
pub struct CallProfileError(pub u8);

impl CallProfileError {
    /// The error as text.
    pub fn message(&self) -> (text: String)
        ensures
            text@ == "unknown LXST telephony call profile 0x"@ + crate::text::hex_byte_text(self.0),
    {
        let mut text = "unknown LXST telephony call profile 0x".to_owned();
        push_hex_byte(&mut text, self.0);
        text
    }
}

/// How much sound one frame holds, in milliseconds.
#[derive(Debug, Clone, Copy, PartialEq, Eq, Hash, Structural)]
pub struct FrameDuration {
    millis: u16,
}

impl FrameDuration {
    /// The milliseconds.
    pub closed spec fn view(&self) -> u16 {
        self.millis
    }

    /// A duration of `millis` milliseconds.
    pub fn from_millis(millis: u16) -> (duration: Self)
        ensures
            duration@ == millis,
    {
        FrameDuration { millis }
    }

    /// The milliseconds.
    pub fn as_millis(self) -> (millis: u16)
        ensures
            millis == self@,
    {
        self.millis
    }
}

/// The profiles in the order in which they are offered.
pub open spec fn profile_order() -> Seq<CallProfile> {
    seq![
        CallProfile::UltraLowBandwidth,
        CallProfile::VeryLowBandwidth,
        CallProfile::LowBandwidth,
        CallProfile::MediumQuality,
        CallProfile::HighQuality,
        CallProfile::MaxQuality,
        CallProfile::LowLatency,
        CallProfile::UltraLowLatency,
    ]
}

impl CallProfile {
    /// The profile of a call for which nothing else was agreed.
    pub const DEFAULT: CallProfile = CallProfile::MediumQuality;

    /// The byte that stands for the profile.
    pub open spec fn byte(self) -> u8 {
        match self {
            CallProfile::UltraLowBandwidth => 0x10,
            CallProfile::VeryLowBandwidth => 0x20,
            CallProfile::LowBandwidth => 0x30,
            CallProfile::MediumQuality => 0x40,
            CallProfile::HighQuality => 0x50,
            CallProfile::MaxQuality => 0x60,
            CallProfile::UltraLowLatency => 0x70,
            CallProfile::LowLatency => 0x80,
        }
    }

    /// The profile whose byte is `byte`.
    pub open spec fn of_byte(byte: u8) -> Result<CallProfile, CallProfileError> {
        if byte == 0x10 {
            Ok(CallProfile::UltraLowBandwidth)
        } else if byte == 0x20 {
            Ok(CallProfile::VeryLowBandwidth)
        } else if byte == 0x30 {
            Ok(CallProfile::LowBandwidth)
        } else if byte == 0x40 {
            Ok(CallProfile::MediumQuality)
        } else if byte == 0x50 {
            Ok(CallProfile::HighQuality)
        } else if byte == 0x60 {
            Ok(CallProfile::MaxQuality)
        } else if byte == 0x70 {
            Ok(CallProfile::UltraLowLatency)
        } else if byte == 0x80 {
            Ok(CallProfile::LowLatency)
        } else {
            Err(CallProfileError(byte))
        }
    }

    /// The place of the profile in the order in which profiles are offered.
    pub open spec fn place(self) -> int {
        match self {
            CallProfile::UltraLowBandwidth => 0,
            CallProfile::VeryLowBandwidth => 1,
            CallProfile::LowBandwidth => 2,
            CallProfile::MediumQuality => 3,
            CallProfile::HighQuality => 4,
            CallProfile::MaxQuality => 5,
            CallProfile::LowLatency => 6,
            CallProfile::UltraLowLatency => 7,
        }
    }

    /// The profile after this one, the first after the last.
    pub open spec fn following(self) -> CallProfile {
        profile_order()[(self.place() + 1) % 8]
    }

    /// The codec profile that the call is encoded with.
    pub open spec fn codec_of(self) -> CodecProfile {
        match self {
            CallProfile::UltraLowBandwidth => CodecProfile::Codec2_700C,
            CallProfile::VeryLowBandwidth => CodecProfile::Codec2_1600,
            CallProfile::LowBandwidth => CodecProfile::Codec2_3200,
            CallProfile::HighQuality => CodecProfile::OpusVoiceHigh,
            CallProfile::MaxQuality => CodecProfile::OpusVoiceMax,
            _ => CodecProfile::OpusVoiceMedium,
        }
    }

    /// Milliseconds of sound per frame.
    pub open spec fn frame_millis(self) -> u16 {
        match self {
            CallProfile::UltraLowBandwidth => 400,
            CallProfile::VeryLowBandwidth => 320,
            CallProfile::LowBandwidth => 200,
            CallProfile::LowLatency => 20,
            CallProfile::UltraLowLatency => 10,
            _ => 60,
        }
    }

    /// The name shown to people.
    pub open spec fn name_of(self) -> Seq<char> {
        match self {
            CallProfile::UltraLowBandwidth => "Ultra Low Bandwidth"@,
            CallProfile::VeryLowBandwidth => "Very Low Bandwidth"@,
            CallProfile::LowBandwidth => "Low Bandwidth"@,
            CallProfile::MediumQuality => "Medium Quality"@,
            CallProfile::HighQuality => "High Quality"@,
            CallProfile::MaxQuality => "Super High Quality"@,
            CallProfile::LowLatency => "Low Latency"@,
            CallProfile::UltraLowLatency => "Ultra Low Latency"@,
        }
    }

    /// The short form of the name.
    pub open spec fn abbreviation_of(self) -> Seq<char> {
        match self {
            CallProfile::UltraLowBandwidth => "ULBW"@,
            CallProfile::VeryLowBandwidth => "VLBW"@,
            CallProfile::LowBandwidth => "LBW"@,
            CallProfile::MediumQuality => "MQ"@,
            CallProfile::HighQuality => "HQ"@,
            CallProfile::MaxQuality => "SHQ"@,
            CallProfile::LowLatency => "LL"@,
            CallProfile::UltraLowLatency => "ULL"@,
        }
    }

    /// The byte that stands for the profile.
    pub fn as_u8(self) -> (byte: u8)
        ensures
            byte == self.byte(),
    {
        match self {
            CallProfile::UltraLowBandwidth => 0x10,
            CallProfile::VeryLowBandwidth => 0x20,
            CallProfile::LowBandwidth => 0x30,
            CallProfile::MediumQuality => 0x40,
            CallProfile::HighQuality => 0x50,
            CallProfile::MaxQuality => 0x60,
            CallProfile::UltraLowLatency => 0x70,
            CallProfile::LowLatency => 0x80,
        }
    }

    /// The profiles in the order in which they are offered.
    pub fn available_profiles() -> (profiles: [CallProfile; 8])
        ensures
            profiles@ == profile_order(),
    {
        let profiles = [
            CallProfile::UltraLowBandwidth,
            CallProfile::VeryLowBandwidth,
            CallProfile::LowBandwidth,
            CallProfile::MediumQuality,
            CallProfile::HighQuality,
            CallProfile::MaxQuality,
            CallProfile::LowLatency,
            CallProfile::UltraLowLatency,
        ];
        assert(profiles@ =~= profile_order());
        profiles
    }

    /// The place of the profile among the available ones.
    pub fn profile_index(self) -> (index: usize)
        ensures
            index == self.place(),
            profile_order()[index as int] == self,
    {
        match self {
            CallProfile::UltraLowBandwidth => 0,
            CallProfile::VeryLowBandwidth => 1,
            CallProfile::LowBandwidth => 2,
            CallProfile::MediumQuality => 3,
            CallProfile::HighQuality => 4,
            CallProfile::MaxQuality => 5,
            CallProfile::LowLatency => 6,
            CallProfile::UltraLowLatency => 7,
        }
    }

    /// The profile after this one, the first after the last.
    pub fn next_profile(self) -> (next: CallProfile)
        ensures
            next == self.following(),
    {
        let profiles = CallProfile::available_profiles();
        let index = self.profile_index();
        profiles[(index + 1) % 8]
    }

    /// The codec profile that the call is encoded with.
    pub fn codec_profile(self) -> (profile: CodecProfile)
        ensures
            profile == self.codec_of(),
    {
        match self {
            CallProfile::UltraLowBandwidth => CodecProfile::Codec2_700C,
            CallProfile::VeryLowBandwidth => CodecProfile::Codec2_1600,
            CallProfile::LowBandwidth => CodecProfile::Codec2_3200,
            CallProfile::MediumQuality => CodecProfile::OpusVoiceMedium,
            CallProfile::HighQuality => CodecProfile::OpusVoiceHigh,
            CallProfile::MaxQuality => CodecProfile::OpusVoiceMax,
            CallProfile::LowLatency | CallProfile::UltraLowLatency => CodecProfile::OpusVoiceMedium,
        }
    }

    /// How much sound one frame holds.
    pub fn frame_duration(self) -> (duration: FrameDuration)
        ensures
            duration@ == self.frame_millis(),
    {
        match self {
            CallProfile::UltraLowBandwidth => FrameDuration::from_millis(400),
            CallProfile::VeryLowBandwidth => FrameDuration::from_millis(320),
            CallProfile::LowBandwidth => FrameDuration::from_millis(200),
            CallProfile::MediumQuality | CallProfile::HighQuality | CallProfile::MaxQuality => {
                FrameDuration::from_millis(60)
            },
            CallProfile::LowLatency => FrameDuration::from_millis(20),
            CallProfile::UltraLowLatency => FrameDuration::from_millis(10),
        }
    }

    /// The name shown to people.
    pub fn name(self) -> (name: &'static str)
        ensures
            name@ == self.name_of(),
    {
        match self {
            CallProfile::UltraLowBandwidth => "Ultra Low Bandwidth",
            CallProfile::VeryLowBandwidth => "Very Low Bandwidth",
            CallProfile::LowBandwidth => "Low Bandwidth",
            CallProfile::MediumQuality => "Medium Quality",
            CallProfile::HighQuality => "High Quality",
            CallProfile::MaxQuality => "Super High Quality",
            CallProfile::LowLatency => "Low Latency",
            CallProfile::UltraLowLatency => "Ultra Low Latency",
        }
    }

    /// The short form of the name.
    pub fn abbreviation(self) -> (name: &'static str)
        ensures
            name@ == self.abbreviation_of(),
    {
        match self {
            CallProfile::UltraLowBandwidth => "ULBW",
            CallProfile::VeryLowBandwidth => "VLBW",
            CallProfile::LowBandwidth => "LBW",
            CallProfile::MediumQuality => "MQ",
            CallProfile::HighQuality => "HQ",
            CallProfile::MaxQuality => "SHQ",
            CallProfile::LowLatency => "LL",
            CallProfile::UltraLowLatency => "ULL",
        }
    }
}

impl TryFrom<u8> for CallProfile {
    type Error = CallProfileError;

    fn try_from(value: u8) -> (profile: Result<Self, CallProfileError>) {
        match value {
            0x10 => Ok(CallProfile::UltraLowBandwidth),
            0x20 => Ok(CallProfile::VeryLowBandwidth),
            0x30 => Ok(CallProfile::LowBandwidth),
            0x40 => Ok(CallProfile::MediumQuality),
            0x50 => Ok(CallProfile::HighQuality),
            0x60 => Ok(CallProfile::MaxQuality),
            0x70 => Ok(CallProfile::UltraLowLatency),
            0x80 => Ok(CallProfile::LowLatency),
            other => Err(CallProfileError(other)),
        }
    }
}

impl TryFromSpecImpl<u8> for CallProfile {
    open spec fn obeys_try_from_spec() -> bool {
        true
    }

    open spec fn try_from_spec(value: u8) -> Result<Self, CallProfileError> {
        CallProfile::of_byte(value)
    }
}

/// Reading a profile's byte gives the profile, and no other byte gives it.
pub proof fn law_call_profile_round_trip(profile: CallProfile, byte: u8)
    ensures
        CallProfile::of_byte(profile.byte()) == Ok::<CallProfile, CallProfileError>(profile),
        CallProfile::of_byte(byte) == Ok::<CallProfile, CallProfileError>(profile) ==> byte
            == profile.byte(),
{
}

/// Every profile is offered at exactly the place that it says, and following the
/// order eight times leads back to where it began.
pub proof fn law_profiles_form_a_cycle(profile: CallProfile)
    ensures
        0 <= profile.place() < profile_order().len(),
        profile_order()[profile.place()] == profile,
        profile.following() != profile,
        profile.following().following().following().following().following().following().following().following()
            == profile,
{
}

} // verus!
