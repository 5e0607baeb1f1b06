//! Codec families, frame header bytes and codec profiles.
use crate::text::push_hex_byte;
use vstd::prelude::*;
use vstd::std_specs::convert::{FromSpecImpl, TryFromSpecImpl};

verus! {

/// Codec families that a frame can be encoded with.
#[derive(Debug, Clone, Copy, PartialEq, Eq, Hash, Structural)]
#[non_exhaustive]
pub enum CodecKind {
    Null,
    Raw,
    Opus,
    Codec2,
}

/// The header byte in front of every encoded frame.
#[derive(Debug, Clone, Copy, PartialEq, Eq, Hash, Structural)]
pub enum CodecHeader {
    Raw,
    Opus,
    Codec2,
    Null,
}

/// A header byte that names no codec.
#[derive(Debug, Clone, Copy, PartialEq, Eq, Structural)]
pub struct CodecHeaderError(pub u8);

impl CodecHeaderError {
    /// The error as text.
    pub fn message(&self) -> (text: String)
        ensures
            text@ == "unknown LXST codec header byte 0x"@ + crate::text::hex_byte_text(self.0),
    {
        let mut text = "unknown LXST codec header byte 0x".to_owned();
        push_hex_byte(&mut text, self.0);
        text
    }
}

impl CodecHeader {
    /// The byte on the wire.
    pub open spec fn byte(self) -> u8 {
        match self {
            CodecHeader::Raw => 0x00,
            CodecHeader::Opus => 0x01,
            CodecHeader::Codec2 => 0x02,
            CodecHeader::Null => 0xFF,
        }
    }

    /// The codec family behind the header.
    pub open spec fn kind(self) -> CodecKind {
        match self {
            CodecHeader::Raw => CodecKind::Raw,
            CodecHeader::Opus => CodecKind::Opus,
            CodecHeader::Codec2 => CodecKind::Codec2,
            CodecHeader::Null => CodecKind::Null,
        }
    }

    /// The header whose byte is `byte`.
    pub open spec fn of_byte(byte: u8) -> Result<CodecHeader, CodecHeaderError> {
        if byte == 0x00 {
            Ok(CodecHeader::Raw)
        } else if byte == 0x01 {
            Ok(CodecHeader::Opus)
        } else if byte == 0x02 {
            Ok(CodecHeader::Codec2)
        } else if byte == 0xFF {
            Ok(CodecHeader::Null)
        } else {
            Err(CodecHeaderError(byte))
        }
    }

    /// The header of a codec family.
    pub open spec fn of_kind(kind: CodecKind) -> CodecHeader {
        match kind {
            CodecKind::Raw => CodecHeader::Raw,
            CodecKind::Opus => CodecHeader::Opus,
            CodecKind::Codec2 => CodecHeader::Codec2,
            CodecKind::Null => CodecHeader::Null,
        }
    }

    /// The byte on the wire.
    pub fn as_u8(self) -> (byte: u8)
        ensures
            byte == self.byte(),
    {
        match self {
            CodecHeader::Raw => 0x00,
            CodecHeader::Opus => 0x01,
            CodecHeader::Codec2 => 0x02,
            CodecHeader::Null => 0xFF,
        }
    }
}

impl TryFrom<u8> for CodecHeader {
    type Error = CodecHeaderError;

    fn try_from(value: u8) -> (header: Result<Self, CodecHeaderError>) {
        match value {
            0x00 => Ok(CodecHeader::Raw),
            0x01 => Ok(CodecHeader::Opus),
            0x02 => Ok(CodecHeader::Codec2),
            0xFF => Ok(CodecHeader::Null),
            other => Err(CodecHeaderError(other)),
        }
    }
}

impl TryFromSpecImpl<u8> for CodecHeader {
    open spec fn obeys_try_from_spec() -> bool {
        true
    }

    open spec fn try_from_spec(value: u8) -> Result<Self, CodecHeaderError> {
        CodecHeader::of_byte(value)
    }
}

impl From<CodecHeader> for CodecKind {
    fn from(value: CodecHeader) -> (kind: Self) {
        match value {
            CodecHeader::Raw => CodecKind::Raw,
            CodecHeader::Opus => CodecKind::Opus,
            CodecHeader::Codec2 => CodecKind::Codec2,
            CodecHeader::Null => CodecKind::Null,
        }
    }
}

impl FromSpecImpl<CodecHeader> for CodecKind {
    open spec fn obeys_from_spec() -> bool {
        true
    }

    open spec fn from_spec(value: CodecHeader) -> Self {
        value.kind()
    }
}

impl TryFrom<CodecKind> for CodecHeader {
    type Error = CodecHeaderError;

    fn try_from(value: CodecKind) -> (header: Result<Self, CodecHeaderError>) {
        match value {
            CodecKind::Raw => Ok(CodecHeader::Raw),
            CodecKind::Opus => Ok(CodecHeader::Opus),
            CodecKind::Codec2 => Ok(CodecHeader::Codec2),
            CodecKind::Null => Ok(CodecHeader::Null),
        }
    }
}

impl TryFromSpecImpl<CodecKind> for CodecHeader {
    open spec fn obeys_try_from_spec() -> bool {
        true
    }

    open spec fn try_from_spec(value: CodecKind) -> Result<Self, CodecHeaderError> {
        Ok(CodecHeader::of_kind(value))
    }
}

/// Writing a header byte and reading it back gives the header again.
pub proof fn law_codec_header_round_trip(header: CodecHeader)
    ensures
        CodecHeader::of_byte(header.byte()) == Ok::<CodecHeader, CodecHeaderError>(header),
        CodecHeader::of_kind(header.kind()) == header,
{
}

/// A byte that is accepted as a header is the byte that the header is written with.
pub proof fn law_codec_header_byte_is_canonical(byte: u8)
    ensures
        CodecHeader::of_byte(byte) matches Ok(header) ==> header.byte() == byte,
{
}

/// Codec profiles: a codec family with its quality settings.
#[derive(Debug, Clone, Copy, PartialEq, Eq, Hash, Structural)]
#[non_exhaustive]
#[allow(non_camel_case_types)]
pub enum CodecProfile {
    OpusVoiceLow,
    OpusVoiceMedium,
    OpusVoiceHigh,
    OpusVoiceMax,
    OpusAudioMin,
    OpusAudioLow,
    OpusAudioMedium,
    OpusAudioHigh,
    OpusAudioMax,
    Codec2_700C,
    Codec2_1200,
    Codec2_1300,
    Codec2_1400,
    Codec2_1600,
    Codec2_2400,
    Codec2_3200,
    Raw,
}

/// What an Opus encoder is tuned for.
#[derive(Debug, Clone, Copy, PartialEq, Eq, Hash, Structural)]
pub enum OpusApplication {
    Voip,
    Audio,
}

/// The settings behind a codec profile. Zero means "not fixed by the profile".
#[derive(Debug, Clone, Copy, PartialEq, Eq, Hash, Structural)]
pub struct CodecProfileInfo {
    pub profile: CodecProfile,
    pub channels: u8,
    pub samplerate: u32,
    pub bitrate_ceiling: u32,
    pub opus_application: Option<OpusApplication>,
}

impl CodecProfile {
    /// Whether the profile is one of the Codec2 modes.
    pub open spec fn is_codec2(self) -> bool {
        ||| self is Codec2_700C
        ||| self is Codec2_1200
        ||| self is Codec2_1300
        ||| self is Codec2_1400
        ||| self is Codec2_1600
        ||| self is Codec2_2400
        ||| self is Codec2_3200
    }

    /// Whether the profile is one of the Opus profiles.
    pub open spec fn is_opus(self) -> bool {
        !self.is_codec2() && !(self is Raw)
    }

    /// Whether the profile is an Opus voice profile.
    pub open spec fn is_opus_voice(self) -> bool {
        ||| self is OpusVoiceLow
        ||| self is OpusVoiceMedium
        ||| self is OpusVoiceHigh
        ||| self is OpusVoiceMax
    }

    /// The profile as text.
    pub open spec fn label(self) -> Seq<char> {
        match self {
            CodecProfile::OpusVoiceLow => "OpusVoiceLow"@,
            CodecProfile::OpusVoiceMedium => "OpusVoiceMedium"@,
            CodecProfile::OpusVoiceHigh => "OpusVoiceHigh"@,
            CodecProfile::OpusVoiceMax => "OpusVoiceMax"@,
            CodecProfile::OpusAudioMin => "OpusAudioMin"@,
            CodecProfile::OpusAudioLow => "OpusAudioLow"@,
            CodecProfile::OpusAudioMedium => "OpusAudioMedium"@,
            CodecProfile::OpusAudioHigh => "OpusAudioHigh"@,
            CodecProfile::OpusAudioMax => "OpusAudioMax"@,
            CodecProfile::Codec2_700C => "Codec2_700C"@,
            CodecProfile::Codec2_1200 => "Codec2_1200"@,
            CodecProfile::Codec2_1300 => "Codec2_1300"@,
            CodecProfile::Codec2_1400 => "Codec2_1400"@,
            CodecProfile::Codec2_1600 => "Codec2_1600"@,
            CodecProfile::Codec2_2400 => "Codec2_2400"@,
            CodecProfile::Codec2_3200 => "Codec2_3200"@,
            CodecProfile::Raw => "Raw"@,
        }
    }

    /// The profile as text.
    pub fn name(self) -> (name: &'static str)
        ensures
            name@ == self.label(),
    {
        match self {
            CodecProfile::OpusVoiceLow => "OpusVoiceLow",
            CodecProfile::OpusVoiceMedium => "OpusVoiceMedium",
            CodecProfile::OpusVoiceHigh => "OpusVoiceHigh",
            CodecProfile::OpusVoiceMax => "OpusVoiceMax",
            CodecProfile::OpusAudioMin => "OpusAudioMin",
            CodecProfile::OpusAudioLow => "OpusAudioLow",
            CodecProfile::OpusAudioMedium => "OpusAudioMedium",
            CodecProfile::OpusAudioHigh => "OpusAudioHigh",
            CodecProfile::OpusAudioMax => "OpusAudioMax",
            CodecProfile::Codec2_700C => "Codec2_700C",
            CodecProfile::Codec2_1200 => "Codec2_1200",
            CodecProfile::Codec2_1300 => "Codec2_1300",
            CodecProfile::Codec2_1400 => "Codec2_1400",
            CodecProfile::Codec2_1600 => "Codec2_1600",
            CodecProfile::Codec2_2400 => "Codec2_2400",
            CodecProfile::Codec2_3200 => "Codec2_3200",
            CodecProfile::Raw => "Raw",
        }
    }

    /// Channels, sample rate and bit rate ceiling of the profile.
    pub open spec fn limits(self) -> (u8, u32, u32) {
        match self {
            CodecProfile::OpusVoiceLow => (1, 8_000, 6_000),
            CodecProfile::OpusVoiceMedium => (1, 24_000, 8_000),
            CodecProfile::OpusVoiceHigh => (1, 48_000, 16_000),
            CodecProfile::OpusVoiceMax => (2, 48_000, 32_000),
            CodecProfile::OpusAudioMin => (1, 8_000, 8_000),
            CodecProfile::OpusAudioLow => (1, 12_000, 14_000),
            CodecProfile::OpusAudioMedium => (2, 24_000, 28_000),
            CodecProfile::OpusAudioHigh => (2, 48_000, 56_000),
            CodecProfile::OpusAudioMax => (2, 48_000, 128_000),
            CodecProfile::Raw => (0, 0, 0),
            _ => (1, 8_000, 0),
        }
    }

    /// What the Opus encoder of the profile is tuned for, where it is an Opus profile.
    pub open spec fn application(self) -> Option<OpusApplication> {
        if self.is_opus_voice() {
            Some(OpusApplication::Voip)
        } else if self.is_opus() {
            Some(OpusApplication::Audio)
        } else {
            None
        }
    }

    /// The settings of the profile.
    pub open spec fn info_of(self) -> CodecProfileInfo {
        CodecProfileInfo {
            profile: self,
            channels: self.limits().0,
            samplerate: self.limits().1,
            bitrate_ceiling: self.limits().2,
            opus_application: self.application(),
        }
    }

    /// The settings of the profile.
    pub fn info(self) -> (info: CodecProfileInfo)
        ensures
            info == self.info_of(),
    {
        match self {
            CodecProfile::OpusVoiceLow => CodecProfileInfo::opus(
                self,
                1,
                8_000,
                6_000,
                OpusApplication::Voip,
            ),
            CodecProfile::OpusVoiceMedium => CodecProfileInfo::opus(
                self,
                1,
                24_000,
                8_000,
                OpusApplication::Voip,
            ),
            CodecProfile::OpusVoiceHigh => CodecProfileInfo::opus(
                self,
                1,
                48_000,
                16_000,
                OpusApplication::Voip,
            ),
            CodecProfile::OpusVoiceMax => CodecProfileInfo::opus(
                self,
                2,
                48_000,
                32_000,
                OpusApplication::Voip,
            ),
            CodecProfile::OpusAudioMin => CodecProfileInfo::opus(
                self,
                1,
                8_000,
                8_000,
                OpusApplication::Audio,
            ),
            CodecProfile::OpusAudioLow => CodecProfileInfo::opus(
                self,
                1,
                12_000,
                14_000,
                OpusApplication::Audio,
            ),
            CodecProfile::OpusAudioMedium => CodecProfileInfo::opus(
                self,
                2,
                24_000,
                28_000,
                OpusApplication::Audio,
            ),
            CodecProfile::OpusAudioHigh => CodecProfileInfo::opus(
                self,
                2,
                48_000,
                56_000,
                OpusApplication::Audio,
            ),
            CodecProfile::OpusAudioMax => CodecProfileInfo::opus(
                self,
                2,
                48_000,
                128_000,
                OpusApplication::Audio,
            ),
            CodecProfile::Codec2_700C | CodecProfile::Codec2_1200 | CodecProfile::Codec2_1300
            | CodecProfile::Codec2_1400 | CodecProfile::Codec2_1600 | CodecProfile::Codec2_2400
            | CodecProfile::Codec2_3200 => CodecProfileInfo {
                profile: self,
                channels: 1,
                samplerate: 8_000,
                bitrate_ceiling: 0,
                opus_application: None,
            },
            CodecProfile::Raw => CodecProfileInfo {
                profile: self,
                channels: 0,
                samplerate: 0,
                bitrate_ceiling: 0,
                opus_application: None,
            },
        }
    }
}

impl CodecProfileInfo {
    fn opus(
        profile: CodecProfile,
        channels: u8,
        samplerate: u32,
        bitrate_ceiling: u32,
        opus_application: OpusApplication,
    ) -> (info: Self)
        ensures
            info == (CodecProfileInfo {
                profile,
                channels,
                samplerate,
                bitrate_ceiling,
                opus_application: Some(opus_application),
            }),
    {
        CodecProfileInfo {
            profile,
            channels,
            samplerate,
            bitrate_ceiling,
            opus_application: Some(opus_application),
        }
    }
}

/// How wide the floating point samples of a raw frame are.
#[derive(Debug, Clone, Copy, PartialEq, Eq, Hash, Structural)]
pub enum RawBitDepth {
    Float16,
    Float32,
    Float64,
    Float128,
}

/// The most channels that a raw frame can carry.
pub const MAX_RAW_CHANNELS: u8 = 32;

impl RawBitDepth {
    /// The value in the two upper bits of a raw frame header.
    pub open spec fn code(self) -> u8 {
        match self {
            RawBitDepth::Float16 => 0,
            RawBitDepth::Float32 => 1,
            RawBitDepth::Float64 => 2,
            RawBitDepth::Float128 => 3,
        }
    }

    /// Bits per sample.
    pub open spec fn width(self) -> u16 {
        match self {
            RawBitDepth::Float16 => 16,
            RawBitDepth::Float32 => 32,
            RawBitDepth::Float64 => 64,
            RawBitDepth::Float128 => 128,
        }
    }

    /// The bit depth whose code is `code`.
    pub open spec fn of_code(code: u8) -> Result<RawBitDepth, RawFrameHeaderError> {
        if code == 0 {
            Ok(RawBitDepth::Float16)
        } else if code == 1 {
            Ok(RawBitDepth::Float32)
        } else if code == 2 {
            Ok(RawBitDepth::Float64)
        } else if code == 3 {
            Ok(RawBitDepth::Float128)
        } else {
            Err(RawFrameHeaderError::InvalidBitDepth(code))
        }
    }

    /// Bits per sample.
    pub fn bits(self) -> (bits: u16)
        ensures
            bits == self.width(),
    {
        match self {
            RawBitDepth::Float16 => 16,
            RawBitDepth::Float32 => 32,
            RawBitDepth::Float64 => 64,
            RawBitDepth::Float128 => 128,
        }
    }

    /// The value in the two upper bits of a raw frame header.
    pub fn as_u8(self) -> (code: u8)
        ensures
            code == self.code(),
    {
        match self {
            RawBitDepth::Float16 => 0,
            RawBitDepth::Float32 => 1,
            RawBitDepth::Float64 => 2,
            RawBitDepth::Float128 => 3,
        }
    }
}

impl TryFrom<u8> for RawBitDepth {
    type Error = RawFrameHeaderError;

    fn try_from(value: u8) -> (depth: Result<Self, RawFrameHeaderError>) {
        match value {
            0 => Ok(RawBitDepth::Float16),
            1 => Ok(RawBitDepth::Float32),
            2 => Ok(RawBitDepth::Float64),
            3 => Ok(RawBitDepth::Float128),
            other => Err(RawFrameHeaderError::InvalidBitDepth(other)),
        }
    }
}

impl TryFromSpecImpl<u8> for RawBitDepth {
    open spec fn obeys_try_from_spec() -> bool {
        true
    }

    open spec fn try_from_spec(value: u8) -> Result<Self, RawFrameHeaderError> {
        RawBitDepth::of_code(value)
    }
}

/// The header byte of a raw frame: bit depth and channel count.
#[derive(Debug, Clone, Copy, PartialEq, Eq, Hash, Structural)]
pub struct RawFrameHeader {
    pub bit_depth: RawBitDepth,
    pub channels: u8,
}

/// A raw frame header that cannot be.
#[derive(Debug, Clone, Copy, PartialEq, Eq, Structural)]
pub enum RawFrameHeaderError {
    InvalidBitDepth(u8),
    InvalidChannelCount(u8),
}

impl RawFrameHeaderError {
    /// The error as text.
    pub fn message(&self) -> (text: String)
        ensures
            text@ == match *self {
                RawFrameHeaderError::InvalidBitDepth(
                    value,
                ) => "invalid LXST raw bit depth header value "@ + crate::text::decimal_text(
                    value as nat,
                ),
                RawFrameHeaderError::InvalidChannelCount(
                    count,
                ) => "invalid LXST raw channel count "@ + crate::text::decimal_text(count as nat)
                    + "; expected 1..=32"@,
            },
    {
        match self {
            RawFrameHeaderError::InvalidBitDepth(value) => {
                "invalid LXST raw bit depth header value ".to_owned().concat(
                    crate::text::decimal(*value as u64).as_str(),
                )
            },
            RawFrameHeaderError::InvalidChannelCount(count) => {
                "invalid LXST raw channel count ".to_owned().concat(
                    crate::text::decimal(*count as u64).as_str(),
                ).concat("; expected 1..=32")
            },
        }
    }
}

impl RawFrameHeader {
    /// Whether the channel count is one that a header byte can hold.
    pub open spec fn valid(self) -> bool {
        1 <= self.channels <= MAX_RAW_CHANNELS
    }

    /// The header byte: the bit depth code above six bits of channels less one.
    pub open spec fn byte(self) -> int {
        self.bit_depth.code() * 64 + (self.channels - 1)
    }

    /// The header with the given parts, or the error where the channel count is out of range.
    pub open spec fn build(bit_depth: RawBitDepth, channels: u8) -> Result<
        RawFrameHeader,
        RawFrameHeaderError,
    > {
        if 1 <= channels <= MAX_RAW_CHANNELS {
            Ok(RawFrameHeader { bit_depth, channels })
        } else {
            Err(RawFrameHeaderError::InvalidChannelCount(channels))
        }
    }

    /// What a header byte stands for.
    pub open spec fn of_byte(byte: u8) -> Result<RawFrameHeader, RawFrameHeaderError> {
        RawFrameHeader::build(
            RawBitDepth::of_code(byte / 64)->Ok_0,
            (byte % 64 + 1) as u8,
        )
    }

    /// A header with the given bit depth and channel count.
    pub fn new(bit_depth: RawBitDepth, channels: u8) -> (header: Result<Self, RawFrameHeaderError>)
        ensures
            header == RawFrameHeader::build(bit_depth, channels),
    {
        if channels < 1 || channels > MAX_RAW_CHANNELS {
            return Err(RawFrameHeaderError::InvalidChannelCount(channels));
        }
        Ok(RawFrameHeader { bit_depth, channels })
    }

    /// The header byte.
    pub fn encode(self) -> (byte: u8)
        requires
            self.valid(),
        ensures
            byte == self.byte(),
    {
        let code = self.bit_depth.as_u8();
        let low: u8 = self.channels - 1;
        assert((code << 6) | low == code * 64 + low) by (bit_vector)
            requires
                code < 4,
                low < 64,
        ;
        (code << 6) | low
    }

    /// What a header byte stands for.
    pub fn decode(byte: u8) -> (header: Result<Self, RawFrameHeaderError>)
        ensures
            header == RawFrameHeader::of_byte(byte),
            header matches Ok(found) ==> found.valid() && found.byte() == byte,
    {
        assert(byte >> 6 == byte / 64 && byte & 0b0011_1111 == byte % 64) by (bit_vector);
        let high: u8 = byte >> 6;
        let channels: u8 = (byte & 0b0011_1111) + 1;
        match RawBitDepth::try_from(high) {
            Ok(bit_depth) => Self::new(bit_depth, channels),
            Err(error) => Err(error),
        }
    }
}

/// Writing a raw frame header and reading it back gives the header again.
pub proof fn law_raw_frame_header_round_trip(header: RawFrameHeader)
    requires
        header.valid(),
    ensures
        0 <= header.byte() <= 255,
        RawFrameHeader::of_byte(header.byte() as u8) == Ok::<RawFrameHeader, RawFrameHeaderError>(
            header,
        ),
{
}

/// A byte that is accepted as a raw frame header is the byte that the header is written with.
pub proof fn law_raw_frame_header_byte_is_canonical(byte: u8)
    ensures
        RawFrameHeader::of_byte(byte) matches Ok(header) ==> header.valid() && header.byte()
            == byte,
{
}

} // verus!
