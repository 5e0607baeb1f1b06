//! What a codec is, its errors, and how codecs are selected.
use crate::audio::{AudioError, AudioFrame, AudioModel};
use crate::codec::{CodecKind, CodecProfile, RawBitDepth, RawFrameHeaderError};
use crate::text::{decimal, push_hex_byte};
use vstd::prelude::*;

verus! {

/// Why a codec cannot encode or decode.
#[derive(Debug, Clone, PartialEq)]
pub enum CodecError {
    Audio(AudioError),
    RawHeader(RawFrameHeaderError),
    EmptyFrame,
    InvalidPayloadLength(usize),
    InvalidProfile(String),
    InvalidOpusSamplerate(u32),
    InvalidOpusChannels(u8),
    InvalidFrameDuration { sample_count: usize, samplerate: u32 },
    InvalidCodec2ModeHeader(u8),
    Opus(String),
    Unsupported(String),
}

impl CodecError {
    /// The error as text.
    pub open spec fn text(&self) -> Seq<char> {
        match self {
            CodecError::Audio(error) => error.text(),
            CodecError::RawHeader(RawFrameHeaderError::InvalidBitDepth(
                value,
            )) => "invalid LXST raw bit depth header value "@ + crate::text::decimal_text(
                *value as nat,
            ),
            CodecError::RawHeader(RawFrameHeaderError::InvalidChannelCount(
                count,
            )) => "invalid LXST raw channel count "@ + crate::text::decimal_text(*count as nat)
                + "; expected 1..=32"@,
            CodecError::EmptyFrame => "codec frame is empty"@,
            CodecError::InvalidPayloadLength(len) => "invalid codec payload length "@
                + crate::text::decimal_text(*len as nat),
            CodecError::InvalidProfile(detail) => "invalid codec profile: "@ + detail@,
            CodecError::InvalidOpusSamplerate(rate) => "invalid Opus samplerate "@
                + crate::text::decimal_text(*rate as nat),
            CodecError::InvalidOpusChannels(count) => "invalid Opus channel count "@
                + crate::text::decimal_text(*count as nat),
            CodecError::InvalidFrameDuration {
                sample_count,
                samplerate,
            } => "invalid Opus frame duration: "@ + crate::text::decimal_text(*sample_count as nat)
                + " samples at "@ + crate::text::decimal_text(*samplerate as nat) + " Hz"@,
            CodecError::InvalidCodec2ModeHeader(byte) => "invalid Codec2 mode header 0x"@
                + crate::text::hex_byte_text(*byte),
            CodecError::Opus(detail) => "opus codec error: "@ + detail@,
            CodecError::Unsupported(detail) => "unsupported codec operation: "@ + detail@,
        }
    }

    /// The error as text.
    pub fn message(&self) -> (text: String)
        ensures
            text@ == self.text(),
    {
        match self {
            CodecError::Audio(error) => error.message(),
            CodecError::RawHeader(error) => error.message(),
            CodecError::EmptyFrame => "codec frame is empty".to_owned(),
            CodecError::InvalidPayloadLength(len) => "invalid codec payload length ".to_owned(
            ).concat(decimal(*len as u64).as_str()),
            CodecError::InvalidProfile(detail) => "invalid codec profile: ".to_owned().concat(
                detail.as_str(),
            ),
            CodecError::InvalidOpusSamplerate(rate) => "invalid Opus samplerate ".to_owned(
            ).concat(decimal(*rate as u64).as_str()),
            CodecError::InvalidOpusChannels(count) => "invalid Opus channel count ".to_owned(
            ).concat(decimal(*count as u64).as_str()),
            CodecError::InvalidFrameDuration { sample_count, samplerate } => {
                "invalid Opus frame duration: ".to_owned().concat(
                    decimal(*sample_count as u64).as_str(),
                ).concat(" samples at ").concat(decimal(*samplerate as u64).as_str()).concat(" Hz")
            },
            CodecError::InvalidCodec2ModeHeader(byte) => {
                let mut text = "invalid Codec2 mode header 0x".to_owned();
                push_hex_byte(&mut text, *byte);
                text
            },
            CodecError::Opus(detail) => "opus codec error: ".to_owned().concat(detail.as_str()),
            CodecError::Unsupported(detail) => "unsupported codec operation: ".to_owned().concat(
                detail.as_str(),
            ),
        }
    }
}

/// What turns frames into bytes and back.
pub trait AudioCodec: Sized {
    /// The codec's family.
    open spec fn family(&self) -> CodecKind {
        arbitrary()
    }

    /// Whether encoding `frame` can give `outcome` and leave the codec as `after`.
    open spec fn encodes(
        self,
        frame: AudioModel,
        outcome: Result<Vec<u8>, CodecError>,
        after: Self,
    ) -> bool {
        true
    }

    /// Whether decoding `data` can give `outcome` and leave the codec as `after`.
    open spec fn decodes(
        self,
        data: Seq<u8>,
        samplerate: u32,
        outcome: Result<AudioFrame, CodecError>,
        after: Self,
    ) -> bool {
        true
    }

    /// The codec's family.
    fn kind(&self) -> (kind: CodecKind)
        ensures
            kind == self.family(),
    ;

    /// Encodes a frame.
    fn encode(&mut self, frame: &AudioFrame) -> (outcome: Result<Vec<u8>, CodecError>)
        ensures
            old(self).encodes(frame@, outcome, *final(self)),
            final(self).family() == old(self).family(),
    ;

    /// Decodes a frame.
    fn decode(&mut self, data: &[u8], samplerate: u32) -> (outcome: Result<AudioFrame, CodecError>)
        ensures
            old(self).decodes(data@, samplerate, outcome, *final(self)),
            final(self).family() == old(self).family(),
    ;
}

/// Which codec is wanted.
#[derive(Debug, Clone, Copy, PartialEq, Eq, Structural)]
pub enum CodecSelection {
    Null,
    Raw(RawBitDepth),
    Profile(CodecProfile),
}

/// Which codec a selection stands for.
#[derive(Debug, Clone, Copy, PartialEq, Eq, Structural)]
pub enum CodecChoice {
    Null,
    Raw(RawBitDepth),
    Codec2(CodecProfile),
    Opus(CodecProfile),
}

impl CodecChoice {
    /// The codec's family.
    pub open spec fn family(self) -> CodecKind {
        match self {
            CodecChoice::Null => CodecKind::Null,
            CodecChoice::Raw(_) => CodecKind::Raw,
            CodecChoice::Codec2(_) => CodecKind::Codec2,
            CodecChoice::Opus(_) => CodecKind::Opus,
        }
    }

    /// The codec's family.
    pub fn kind(self) -> (kind: CodecKind)
        ensures
            kind == self.family(),
    {
        match self {
            CodecChoice::Null => CodecKind::Null,
            CodecChoice::Raw(_) => CodecKind::Raw,
            CodecChoice::Codec2(_) => CodecKind::Codec2,
            CodecChoice::Opus(_) => CodecKind::Opus,
        }
    }
}

/// Finds codecs for selections.
#[derive(Debug, Default)]
pub struct CodecFactory;

impl CodecFactory {
    /// Which codec a selection stands for.
    pub open spec fn choice(selection: CodecSelection) -> CodecChoice {
        match selection {
            CodecSelection::Null => CodecChoice::Null,
            CodecSelection::Raw(bit_depth) => CodecChoice::Raw(bit_depth),
            CodecSelection::Profile(profile) => if profile is Raw {
                CodecChoice::Raw(RawBitDepth::Float32)
            } else if profile.is_codec2() {
                CodecChoice::Codec2(profile)
            } else {
                CodecChoice::Opus(profile)
            },
        }
    }

    /// Which codec a selection stands for.
    pub fn create(selection: CodecSelection) -> (choice: CodecChoice)
        ensures
            choice == CodecFactory::choice(selection),
    {
        match selection {
            CodecSelection::Null => CodecChoice::Null,
            CodecSelection::Raw(bit_depth) => CodecChoice::Raw(bit_depth),
            CodecSelection::Profile(profile) => match profile {
                CodecProfile::Raw => CodecChoice::Raw(RawBitDepth::Float32),
                CodecProfile::Codec2_700C | CodecProfile::Codec2_1200 | CodecProfile::Codec2_1300
                | CodecProfile::Codec2_1400 | CodecProfile::Codec2_1600
                | CodecProfile::Codec2_2400 | CodecProfile::Codec2_3200 => CodecChoice::Codec2(
                    profile,
                ),
                _ => CodecChoice::Opus(profile),
            },
        }
    }
}

/// A codec profile is served by a codec of the family that its name says.
pub proof fn law_factory_keeps_the_family(profile: CodecProfile)
    ensures
        profile.is_opus() <==> CodecFactory::choice(CodecSelection::Profile(profile)).family()
            is Opus,
        profile.is_codec2() <==> CodecFactory::choice(CodecSelection::Profile(profile)).family()
            is Codec2,
        profile is Raw <==> CodecFactory::choice(CodecSelection::Profile(profile)).family() is Raw,
{
}

/// Which codec is in use.
#[derive(Debug, Clone, Copy, PartialEq, Eq, Structural)]
pub struct CodecState {
    pub active_kind: Option<CodecKind>,
    pub channels: Option<u8>,
}

impl Default for CodecState {
    fn default() -> (state: Self)
        ensures
            state.active_kind is None,
            state.channels is None,
    {
        CodecState { active_kind: None, channels: None }
    }
}

/// A profile is encoded by the codec of its family, in that profile; raw sound in single
/// precision.
pub proof fn law_profile_chooses_its_codec(profile: CodecProfile, bit_depth: RawBitDepth)
    ensures
        CodecFactory::choice(CodecSelection::Null) == CodecChoice::Null,
        CodecFactory::choice(CodecSelection::Raw(bit_depth)) == CodecChoice::Raw(bit_depth),
        profile is Raw ==> CodecFactory::choice(CodecSelection::Profile(profile))
            == CodecChoice::Raw(RawBitDepth::Float32),
        profile.is_codec2() ==> CodecFactory::choice(CodecSelection::Profile(profile))
            == CodecChoice::Codec2(profile),
        profile.is_opus() ==> CodecFactory::choice(CodecSelection::Profile(profile))
            == CodecChoice::Opus(profile),
        CodecFactory::choice(CodecSelection::Profile(profile)).family() is Opus <==> (profile
            is OpusVoiceLow || profile is OpusVoiceMedium || profile is OpusVoiceHigh || profile
            is OpusVoiceMax || profile is OpusAudioMin || profile is OpusAudioLow || profile
            is OpusAudioMedium || profile is OpusAudioHigh || profile is OpusAudioMax),
{
}

} // verus!
