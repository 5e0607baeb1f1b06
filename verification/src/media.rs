//! Sound files: Opus packets in an Ogg stream, their recording and their playing.
use crate::audio::{AudioError, AudioFrame, AudioModel, Sample};
use crate::audio_codec::{AudioCodec, CodecError};
use crate::codec::CodecProfile;
use crate::line_sink::span_of_samples;
use crate::opus_codec::{resampled_frame_count, OpusCodec};
use crate::pipeline::{AudioSource, PipelineError};
use crate::time::Nanos;
use std::collections::VecDeque;
use vstd::prelude::*;

verus! {

/// The serial number of the streams.
pub const OPUS_SERIAL: u32 = 0x4c58_5354;

/// How many samples at the start of a stream are not to be played.
pub const OPUS_PRESKIP: u16 = 312;

/// The rate in which the place in a stream is counted.
pub const OPUS_GRANULE_RATE: u32 = 48_000;

/// How many frames of silence end a stream.
pub const OPUS_FINAL_SILENCE_FRAMES: usize = 10;

/// How many frames wait for a file at most.
pub const OPUS_FILE_MAX_FRAMES: usize = 64;

/// With how many frames that wait the writing starts.
pub const OPUS_FILE_AUTOSTART_MIN: usize = 1;

/// How long it is waited for the last frames to be written.
pub const OPUS_FILE_FINALIZE_TIMEOUT: Nanos = 2_000_000_000;

/// Why a sound file cannot be read or written.
#[derive(Debug, Clone, PartialEq)]
pub enum MediaError {
    Audio(AudioError),
    Codec(CodecError),
    Pipeline(PipelineError),
    Io(String),
    OggRead(String),
    InvalidOpusFile(String),
    SinkClosed,
    SinkFull,
    WorkerPanic,
    Synchronization(String),
}

impl MediaError {
    /// The error as text.
    pub open spec fn text(&self) -> Seq<char> {
        match self {
            MediaError::Audio(error) => error.text(),
            MediaError::Codec(error) => error.text(),
            MediaError::Pipeline(error) => error.text(),
            MediaError::Io(detail) => detail@,
            MediaError::OggRead(detail) => detail@,
            MediaError::InvalidOpusFile(detail) => "invalid Ogg Opus file: "@ + detail@,
            MediaError::SinkClosed => "media sink is closed"@,
            MediaError::SinkFull => "media sink buffer is full"@,
            MediaError::WorkerPanic => "media worker thread panicked"@,
            MediaError::Synchronization(detail) => "media synchronization error: "@ + detail@,
        }
    }

    /// The error as text.
    pub fn message(&self) -> (text: String)
        ensures
            text@ == self.text(),
    {
        match self {
            MediaError::Audio(error) => error.message(),
            MediaError::Codec(error) => error.message(),
            MediaError::Pipeline(error) => error.message(),
            MediaError::Io(detail) => detail.clone(),
            MediaError::OggRead(detail) => detail.clone(),
            MediaError::InvalidOpusFile(detail) => {
                "invalid Ogg Opus file: ".to_owned().concat(detail.as_str())
            },
            MediaError::SinkClosed => "media sink is closed".to_owned(),
            MediaError::SinkFull => "media sink buffer is full".to_owned(),
            MediaError::WorkerPanic => "media worker thread panicked".to_owned(),
            MediaError::Synchronization(detail) => {
                "media synchronization error: ".to_owned().concat(detail.as_str())
            },
        }
    }
}

/// Whether an error says that a file is no Ogg Opus file, for the given reason.
pub open spec fn is_invalid_file(error: MediaError, reason: Seq<char>) -> bool {
    error matches MediaError::InvalidOpusFile(detail) && detail@ == reason
}

/// The bytes that start the first packet of a stream.
pub open spec fn head_magic() -> Seq<u8> {
    seq![79u8, 112u8, 117u8, 115u8, 72u8, 101u8, 97u8, 100u8]
}

/// The bytes that start the second packet of a stream.
pub open spec fn tags_magic() -> Seq<u8> {
    seq![79u8, 112u8, 117u8, 115u8, 84u8, 97u8, 103u8, 115u8]
}

/// The number that two bytes are, the lower one first.
pub open spec fn number_of_2(bytes: Seq<u8>) -> int {
    bytes[0] + 256 * bytes[1]
}

/// The number that four bytes are, the lowest one first.
pub open spec fn number_of_4(bytes: Seq<u8>) -> int {
    bytes[0] + 256 * bytes[1] + 65_536 * bytes[2] + 16_777_216 * bytes[3]
}

/// What the first packet of a stream says.
#[derive(Debug, Clone, Copy, PartialEq, Eq, Structural)]
pub struct OpusHeader {
    pub channels: u8,
    pub preskip: u16,
    pub input_samplerate: u32,
}

/// Whether bytes start with others.
pub open spec fn begins(data: Seq<u8>, magic: Seq<u8>) -> bool {
    data.len() >= magic.len() && data.take(magic.len() as int) == magic
}

fn starts_with(data: &[u8], magic: &[u8]) -> (found: bool)
    ensures
        found == begins(data@, magic@),
{
    if data.len() < magic.len() {
        return false;
    }
    let mut i: usize = 0;
    while i < magic.len()
        invariant
            i <= magic@.len() <= data@.len(),
            forall|j: int| 0 <= j < i ==> data@[j] == magic@[j],
        decreases magic.len() - i,
    {
        if data[i] != magic[i] {
            assert(data@.take(magic@.len() as int)[i as int] != magic@[i as int]);
            return false;
        }
        i += 1;
    }
    assert(data@.take(magic@.len() as int) =~= magic@);
    true
}

impl OpusHeader {
    /// Whether a packet is the first packet of a stream.
    pub open spec fn heads(data: Seq<u8>) -> bool {
        data.len() >= 19 && begins(data, head_magic())
    }

    /// What the first packet of a stream says.
    pub open spec fn of_bytes(data: Seq<u8>) -> OpusHeader {
        OpusHeader {
            channels: data[9],
            preskip: number_of_2(data.subrange(10, 12)) as u16,
            input_samplerate: number_of_4(data.subrange(12, 16)) as u32,
        }
    }

    /// Reads the first packet of a stream.
    pub fn parse(data: &[u8]) -> (header: Result<Self, MediaError>)
        ensures
            match header {
                Ok(header) => Self::heads(data@) && header == Self::of_bytes(data@),
                Err(error) => !Self::heads(data@) && is_invalid_file(
                    error,
                    "missing OpusHead packet"@,
                ),
            },
    {
        let magic: [u8; 8] = [79, 112, 117, 115, 72, 101, 97, 100];
        assert(magic@ =~= head_magic());
        if data.len() < 19 || !starts_with(data, &magic) {
            return Err(MediaError::InvalidOpusFile("missing OpusHead packet".to_owned()));
        }
        Ok(
            OpusHeader {
                channels: data[9],
                preskip: data[10] as u16 + 256 * data[11] as u16,
                input_samplerate: data[12] as u32 + 256 * data[13] as u32 + 65_536 * data[14] as u32
                    + 16_777_216 * data[15] as u32,
            },
        )
    }
}

fn push_number_2(data: &mut Vec<u8>, value: u16)
    ensures
        final(data)@.len() == old(data)@.len() + 2,
        final(data)@.take(old(data)@.len() as int) == old(data)@,
        number_of_2(final(data)@.skip(old(data)@.len() as int)) == value,
{
    data.push((value % 256) as u8);
    data.push((value / 256) as u8);
    assert(data@.take(old(data)@.len() as int) =~= old(data)@);
}

fn push_number_4(data: &mut Vec<u8>, value: u32)
    ensures
        final(data)@.len() == old(data)@.len() + 4,
        final(data)@.take(old(data)@.len() as int) == old(data)@,
        number_of_4(final(data)@.skip(old(data)@.len() as int)) == value,
{
    data.push((value % 256) as u8);
    data.push((value / 256 % 256) as u8);
    data.push((value / 65_536 % 256) as u8);
    data.push((value / 16_777_216) as u8);
    assert(data@.take(old(data)@.len() as int) =~= old(data)@);
    assert(value == value % 256 + 256 * (value / 256 % 256) + 65_536 * (value / 65_536 % 256)
        + 16_777_216 * (value / 16_777_216));
}

/// Whether the bytes are the first packet of a stream: the magic, the version, the channels,
/// what is to be skipped and the sample rate, with neither gain nor mapping.
pub open spec fn is_opus_head(data: Seq<u8>, channels: u8, input_samplerate: u32) -> bool {
    &&& data.len() == 19
    &&& OpusHeader::heads(data)
    &&& data[8] == 1
    &&& OpusHeader::of_bytes(data) == (OpusHeader {
        channels,
        preskip: OPUS_PRESKIP,
        input_samplerate,
    })
    &&& data[16] == 0 && data[17] == 0 && data[18] == 0
}

/// The bytes of the second packet of a stream.
pub open spec fn opus_tag_bytes() -> Seq<u8> {
    tags_magic() + seq![7u8, 0u8, 0u8, 0u8] + vendor() + seq![0u8, 0u8, 0u8, 0u8]
}

/// The first packet of a stream. Reading it gives the channels and the sample rate back.
pub fn opus_head(channels: u8, input_samplerate: u32) -> (data: Vec<u8>)
    ensures
        is_opus_head(data@, channels, input_samplerate),
{
    let magic: [u8; 8] = [79, 112, 117, 115, 72, 101, 97, 100];
    assert(magic@ =~= head_magic());
    let mut data: Vec<u8> = Vec::new();
    push_all(&mut data, &magic);
    data.push(1);
    data.push(channels);
    assert(data@.take(8) =~= head_magic());
    let ghost part = data@;
    push_number_2(&mut data, OPUS_PRESKIP);
    assert(forall|i: int| 0 <= i < 10 ==> data@[i] == data@.take(10)[i]);
    let ghost middle = data@;
    push_number_4(&mut data, input_samplerate);
    assert(forall|i: int| 0 <= i < 12 ==> data@[i] == data@.take(12)[i]);
    push_number_2(&mut data, 0);
    assert(forall|i: int| 0 <= i < 16 ==> data@[i] == data@.take(16)[i]);
    let ghost longer = data@;
    assert(number_of_2(longer.skip(16)) == 0);
    data.push(0);
    proof {
        assert(data@.take(8) =~= head_magic());
        assert(data@.subrange(10, 12) =~= middle.skip(10));
        assert(data@.subrange(12, 16) =~= longer.take(16).skip(12));
    }
    data
}

fn push_all(data: &mut Vec<u8>, bytes: &[u8])
    ensures
        final(data)@ == old(data)@ + bytes@,
{
    let mut i: usize = 0;
    while i < bytes.len()
        invariant
            i <= bytes@.len(),
            data@ == old(data)@ + bytes@.take(i as int),
        decreases bytes.len() - i,
    {
        data.push(bytes[i]);
        assert(data@ =~= old(data)@ + bytes@.take(i + 1));
        i += 1;
    }
    assert(bytes@.take(i as int) =~= bytes@);
}

/// The vendor that the second packet of a stream names.
pub open spec fn vendor() -> Seq<u8> {
    seq![108u8, 120u8, 115u8, 116u8, 45u8, 114u8, 115u8]
}

/// The second packet of a stream: it names the vendor and has no comments.
pub fn opus_tags() -> (data: Vec<u8>)
    ensures
        data@ == opus_tag_bytes(),
{
    let bytes: [u8; 23] = [
        79,
        112,
        117,
        115,
        84,
        97,
        103,
        115,
        7,
        0,
        0,
        0,
        108,
        120,
        115,
        116,
        45,
        114,
        115,
        0,
        0,
        0,
        0,
    ];
    let mut data: Vec<u8> = Vec::new();
    push_all(&mut data, &bytes);
    assert(data@ =~= tags_magic() + seq![7u8, 0u8, 0u8, 0u8] + vendor() + seq![0u8, 0u8, 0u8, 0u8]);
    data
}

/// Whether a packet is the second packet of a stream.
pub fn is_opus_tags(data: &[u8]) -> (found: bool)
    ensures
        found == begins(data@, tags_magic()),
{
    let magic: [u8; 8] = [79, 112, 117, 115, 84, 97, 103, 115];
    assert(magic@ =~= tags_magic());
    starts_with(data, &magic)
}

/// The profile that a stream of the given format is decoded with.
pub open spec fn file_profile(channels: u8, samplerate: u32) -> CodecProfile {
    if channels == 1 && samplerate == 8_000 {
        CodecProfile::OpusAudioMin
    } else if channels == 1 && samplerate == 12_000 {
        CodecProfile::OpusAudioLow
    } else if channels == 2 && samplerate == 24_000 {
        CodecProfile::OpusAudioMedium
    } else if channels == 1 && samplerate == 24_000 {
        CodecProfile::OpusVoiceMedium
    } else if channels == 1 && samplerate == 48_000 {
        CodecProfile::OpusVoiceHigh
    } else {
        CodecProfile::OpusAudioMax
    }
}

/// The profile that a stream of the given format is decoded with.
pub fn opus_file_profile(channels: u8, samplerate: u32) -> (profile: CodecProfile)
    ensures
        profile == file_profile(channels, samplerate),
{
    match (channels, samplerate) {
        (1, 8_000) => CodecProfile::OpusAudioMin,
        (1, 12_000) => CodecProfile::OpusAudioLow,
        (2, 24_000) => CodecProfile::OpusAudioMedium,
        (2, 48_000) => CodecProfile::OpusAudioMax,
        (1, 24_000) => CodecProfile::OpusVoiceMedium,
        (1, 48_000) => CodecProfile::OpusVoiceHigh,
        _ => CodecProfile::OpusAudioMax,
    }
}

/// A stream that was written for a profile is decoded with one of the same format.
pub proof fn law_file_profile_keeps_the_format(profile: CodecProfile)
    requires
        profile.is_opus(),
    ensures
        file_profile(profile.limits().0, profile.limits().1).is_opus(),
        file_profile(profile.limits().0, profile.limits().1).limits().0 == profile.limits().0,
        file_profile(profile.limits().0, profile.limits().1).limits().1 == profile.limits().1,
{
}

/// How many samples of each channel a frame of the given length has: the length is at least a
/// millisecond, and a part of a sample counts as one.
pub open spec fn frame_samples(samplerate: u32, target_frame_ms: u16) -> int {
    let millis = if target_frame_ms < 1 {
        1
    } else {
        target_frame_ms as int
    };
    (samplerate * millis + 999) / 1000
}

/// How many samples of each channel a frame of the given length has.
pub fn samples_per_frame(samplerate: u32, target_frame_ms: u16) -> (samples: u64)
    ensures
        samples == frame_samples(samplerate, target_frame_ms),
{
    let millis: u64 = if target_frame_ms < 1 {
        1
    } else {
        target_frame_ms as u64
    };
    assert(samplerate as u64 * millis <= u32::MAX * 65_535) by (nonlinear_arith)
        requires
            samplerate <= u32::MAX,
            millis <= 65_535,
    ;
    assert(samplerate as int * millis as int >= 0) by (nonlinear_arith)
        requires
            samplerate >= 0,
            millis >= 0,
    ;
    (samplerate as u64 * millis + 999) / 1000
}

/// How a packet ends in a stream.
#[derive(Debug, Clone, Copy, PartialEq, Eq, Structural)]
pub enum PacketEnd {
    NormalPacket,
    EndPage,
    EndStream,
}

/// A packet of a stream, with the place in the stream at which it ends.
#[derive(Debug, PartialEq, Eq)]
pub struct OggPacket {
    pub data: Vec<u8>,
    pub serial: u32,
    pub end: PacketEnd,
    pub granule: u64,
}

/// A packet as a mathematical value.
pub struct OggModel {
    pub data: Seq<u8>,
    pub serial: u32,
    pub end: PacketEnd,
    pub granule: u64,
}

impl View for OggPacket {
    type V = OggModel;

    open spec fn view(&self) -> OggModel {
        OggModel {
            data: self.data@,
            serial: self.serial,
            end: self.end,
            granule: self.granule,
        }
    }
}

/// Packets as mathematical values.
pub open spec fn ogg_models(packets: Seq<OggPacket>) -> Seq<OggModel> {
    packets.map_values(|packet: OggPacket| packet@)
}

/// How far a frame moves the place in a stream.
pub open spec fn granules(sample_count: int, samplerate: int) -> int {
    (if sample_count * 48_000 > usize::MAX {
        usize::MAX as int
    } else {
        sample_count * 48_000
    }) / samplerate
}

fn granules_of(sample_count: usize, samplerate: u32) -> (count: u64)
    requires
        samplerate > 0,
    ensures
        count == granules(sample_count as int, samplerate as int),
{
    let total: usize = match sample_count.checked_mul(48_000) {
        Some(total) => total,
        None => usize::MAX,
    };
    (total as u64) / (samplerate as u64)
}

/// The writing of a sound file: what is put into the stream, one packet after another.
#[derive(Debug)]
pub struct OpusFileSink<C> {
    pub profile: CodecProfile,
    pub codec: C,
    pub samples_written_48k: u64,
    pub last_output_frame_samples: Option<usize>,
    pub finalized: bool,
}

impl<C: AudioCodec> OpusFileSink<C> {
    /// What holds of every file: its profile is one of Opus.
    pub open spec fn wf(&self) -> bool {
        self.profile.is_opus()
    }

    /// The rate of the file.
    pub open spec fn rate(self) -> u32 {
        self.profile.limits().1
    }

    /// How many samples of each channel a frame has in the file.
    pub open spec fn output_samples(self, frame: AudioModel) -> int {
        crate::opus_codec::resampled_frames(frame, self.rate())
    }

    /// Whether a frame fits into the numbers that are counted with.
    pub open spec fn countable(self, frame: AudioModel) -> bool {
        &&& crate::opus_codec::resampling_fits(frame, self.rate())
        &&& self.samples_written_48k + granules(self.output_samples(frame), self.rate() as int)
            + OPUS_PRESKIP <= u64::MAX
    }

    /// Whether writing a frame can give `outcome` and leave the file as `after`: what the codec
    /// makes of the frame is a packet that ends where the frame does.
    pub open spec fn writes_frame(
        self,
        frame: AudioModel,
        remember_duration: bool,
        outcome: Result<OggModel, MediaError>,
        after: Self,
    ) -> bool {
        exists|encoded: Result<Vec<u8>, CodecError>|
            {
                &&& #[trigger] self.codec.encodes(frame, encoded, after.codec)
                &&& match encoded {
                    Err(error) => {
                        &&& outcome == Err::<OggModel, MediaError>(MediaError::Codec(error))
                        &&& after == (OpusFileSink { codec: after.codec, ..self })
                    },
                    Ok(data) => {
                        let count = self.output_samples(frame);
                        let written = self.samples_written_48k + granules(
                            count,
                            self.rate() as int,
                        );
                        &&& outcome == Ok::<OggModel, MediaError>(
                            OggModel {
                                data: data@,
                                serial: OPUS_SERIAL,
                                end: PacketEnd::NormalPacket,
                                granule: (written + OPUS_PRESKIP) as u64,
                            },
                        )
                        &&& after == (OpusFileSink {
                            codec: after.codec,
                            samples_written_48k: written as u64,
                            last_output_frame_samples: if remember_duration {
                                Some(count as usize)
                            } else {
                                self.last_output_frame_samples
                            },
                            ..self
                        })
                    },
                }
            }
    }

    /// Whether writing a frame of silence again and again can give `packets`, end in `outcome`
    /// and leave the file as `after`.
    pub open spec fn writes_silence(
        self,
        silence: AudioModel,
        times: int,
        packets: Seq<OggModel>,
        outcome: Result<(), MediaError>,
        after: Self,
    ) -> bool
        decreases times,
    {
        if times <= 0 {
            packets.len() == 0 && outcome is Ok && after == self
        } else {
            exists|first: Result<OggModel, MediaError>, middle: Self|
                {
                    &&& #[trigger] self.writes_frame(silence, false, first, middle)
                    &&& match first {
                        Err(error) => packets.len() == 0 && outcome == Err::<(), MediaError>(error)
                            && after == middle,
                        Ok(packet) => packets.len() > 0 && packets[0] == packet
                            && middle.writes_silence(
                            silence,
                            times - 1,
                            packets.skip(1),
                            outcome,
                            after,
                        ),
                    }
                }
        }
    }

    /// A file for a profile of Opus, with the two packets that start its stream.
    pub fn create(profile: CodecProfile, codec: C) -> (created: Result<
        (Self, Vec<OggPacket>),
        MediaError,
    >)
        ensures
            match created {
                Ok((sink, packets)) => {
                    &&& profile.is_opus()
                    &&& sink == (OpusFileSink {
                        profile,
                        codec,
                        samples_written_48k: 0,
                        last_output_frame_samples: None,
                        finalized: false,
                    })
                    &&& packets@.len() == 2
                    &&& is_opus_head(
                        packets@[0].data@,
                        profile.limits().0,
                        profile.limits().1,
                    )
                    &&& packets@[1].data@ == opus_tag_bytes()
                    &&& forall|i: int|
                        0 <= i < 2 ==> (#[trigger] packets@[i]).serial == OPUS_SERIAL
                            && packets@[i].end is EndPage && packets@[i].granule == 0
                },
                Err(error) => !profile.is_opus() && (error matches MediaError::Codec(error)
                    && crate::opus_codec::not_opus(profile, error)),
            },
    {
        let info = match OpusCodec::profile_info(profile) {
            Ok(info) => info,
            Err(error) => return Err(MediaError::Codec(error)),
        };
        let head = OggPacket {
            data: opus_head(info.channels, info.samplerate),
            serial: OPUS_SERIAL,
            end: PacketEnd::EndPage,
            granule: 0,
        };
        let tags = OggPacket {
            data: opus_tags(),
            serial: OPUS_SERIAL,
            end: PacketEnd::EndPage,
            granule: 0,
        };
        let mut packets: Vec<OggPacket> = Vec::new();
        packets.push(head);
        packets.push(tags);
        Ok(
            (
                OpusFileSink {
                    profile,
                    codec,
                    samples_written_48k: 0,
                    last_output_frame_samples: None,
                    finalized: false,
                },
                packets,
            ),
        )
    }

    /// The profile of the file.
    pub fn profile(&self) -> (profile: CodecProfile)
        ensures
            profile == self.profile,
    {
        self.profile
    }

    /// Encodes a frame, and gives the packet that it is written in.
    pub fn handle_frame(&mut self, frame: &AudioFrame) -> (packet: Result<OggPacket, MediaError>)
        requires
            old(self).wf(),
            old(self).countable(frame@),
        ensures
            final(self).wf(),
            old(self).writes_frame(frame@, true, written(packet), *final(self)),
    {
        self.write_frame(frame, true)
    }

    fn write_frame(&mut self, frame: &AudioFrame, remember_duration: bool) -> (packet: Result<
        OggPacket,
        MediaError,
    >)
        requires
            old(self).wf(),
            old(self).countable(frame@),
        ensures
            final(self).wf(),
            final(self).profile == old(self).profile,
            final(self).finalized == old(self).finalized,
            old(self).writes_frame(frame@, remember_duration, written(packet), *final(self)),
    {
        let rate = self.profile.info().samplerate;
        let encoded = self.codec.encode(frame);
        let ghost encoded_copy = encoded;
        assert(old(self).codec.encodes(frame@, encoded_copy, self.codec));
        let data = match encoded {
            Ok(data) => data,
            Err(error) => return Err(MediaError::Codec(error)),
        };
        let count = resampled_frame_count(frame, rate);
        let step = granules_of(count, rate);
        if remember_duration {
            self.last_output_frame_samples = Some(count);
        }
        self.samples_written_48k = self.samples_written_48k + step;
        let packet = OggPacket {
            data,
            serial: OPUS_SERIAL,
            end: PacketEnd::NormalPacket,
            granule: self.samples_written_48k + OPUS_PRESKIP as u64,
        };
        assert(old(self).codec.encodes(frame@, encoded_copy, self.codec));
        Ok(packet)
    }

    /// The frame of silence that ends the file: as long as the last frame.
    pub open spec fn closing_silence(self) -> AudioModel {
        let count = match self.last_output_frame_samples {
            Some(count) => count as int,
            None => 0,
        };
        AudioModel {
            samplerate: self.rate(),
            channels: self.profile.limits().0,
            samples: Seq::new(
                (count * self.profile.limits().0) as nat,
                |i: int| crate::audio::SAMPLE_ZERO,
            ),
        }
    }

    /// How many frames of silence end the file: none where no frame was written.
    pub open spec fn closing_frames(self) -> int {
        if self.last_output_frame_samples is Some {
            OPUS_FINAL_SILENCE_FRAMES as int
        } else {
            0
        }
    }

    /// Whether the end of the file fits into the numbers that are counted with.
    pub open spec fn closable(self) -> bool {
        match self.last_output_frame_samples {
            Some(count) => {
                &&& count * self.profile.limits().0 <= usize::MAX
                &&& self.samples_written_48k + OPUS_FINAL_SILENCE_FRAMES * granules(
                    count as int,
                    self.rate() as int,
                ) + OPUS_PRESKIP <= u64::MAX
            },
            None => self.samples_written_48k + OPUS_PRESKIP <= u64::MAX,
        }
    }

    /// Whether ending a file that was not ended can give `packets` and `outcome` and leave the
    /// file as `after`: the frames of silence, and, if none of them fails, an empty packet that
    /// ends the stream.
    pub open spec fn closes(
        self,
        packets: Seq<OggModel>,
        outcome: Result<(), MediaError>,
        after: Self,
    ) -> bool {
        exists|silent: Seq<OggModel>, ended: Result<(), MediaError>, middle: Self|
            {
                &&& #[trigger] self.writes_silence(
                    self.closing_silence(),
                    self.closing_frames(),
                    silent,
                    ended,
                    middle,
                )
                &&& match ended {
                    Err(error) => {
                        &&& packets == silent
                        &&& outcome == Err::<(), MediaError>(error)
                        &&& after == middle
                    },
                    Ok(_) => {
                        &&& packets == silent.push(
                            OggModel {
                                data: Seq::empty(),
                                serial: OPUS_SERIAL,
                                end: PacketEnd::EndStream,
                                granule: (middle.samples_written_48k + OPUS_PRESKIP) as u64,
                            },
                        )
                        &&& outcome is Ok
                        &&& after == (OpusFileSink { finalized: true, ..middle })
                    },
                }
            }
    }

    /// Counts the file as written up to a packet, given by its granule, and as not ended: the
    /// packet could not be written.
    pub fn reopen_at(&mut self, granule: u64)
        requires
            granule >= OPUS_PRESKIP,
        ensures
            *final(self) == (OpusFileSink {
                samples_written_48k: (granule - OPUS_PRESKIP) as u64,
                finalized: false,
                ..*old(self)
            }),
    {
        self.samples_written_48k = granule - OPUS_PRESKIP as u64;
        self.finalized = false;
    }

    /// Ends the file, once: some frames of silence as long as the last frame, if there was one,
    /// and an empty packet that ends the stream. Gives the packets that are written up to the
    /// first failure.
    pub fn finalize(&mut self) -> (closed: (Vec<OggPacket>, Result<(), MediaError>))
        requires
            old(self).wf(),
            old(self).closable(),
        ensures
            final(self).wf(),
            old(self).finalized ==> {
                &&& closed.0@.len() == 0
                &&& closed.1 is Ok
                &&& *final(self) == *old(self)
            },
            !old(self).finalized ==> old(self).closes(
                ogg_models(closed.0@),
                closed.1,
                *final(self),
            ),
    {
        let mut packets: Vec<OggPacket> = Vec::new();
        if self.finalized {
            return (packets, Ok(()));
        }
        let ghost start = *self;
        let ghost silence_model = self.closing_silence();
        let ghost step = match self.last_output_frame_samples {
            Some(count) => granules(count as int, self.rate() as int),
            None => 0,
        };
        assert(ogg_models(packets@) =~= Seq::<OggModel>::empty());
        if let Some(count) = self.last_output_frame_samples {
            let info = self.profile.info();
            let silence = match AudioFrame::silence(info.samplerate, info.channels, count) {
                Ok(silence) => silence,
                Err(error) => return (packets, Err(MediaError::Audio(error))),
            };
            proof {
                assert(silence@.samples =~= silence_model.samples);
                assert(silence@.frame_count() == count) by {
                    vstd::arithmetic::div_mod::lemma_div_multiples_vanish(
                        count as int,
                        info.channels as int,
                    );
                    vstd::arithmetic::mul::lemma_mul_is_commutative(
                        count as int,
                        info.channels as int,
                    );
                }
            }
            let mut i: usize = 0;
            proof {
                assert(step >= 0) by {
                    lemma_granules(count as int, self.rate() as int);
                }
                assert(OPUS_FINAL_SILENCE_FRAMES * step == 10 * step);
            }
            while i < OPUS_FINAL_SILENCE_FRAMES
                invariant
                    i <= OPUS_FINAL_SILENCE_FRAMES,
                    start == *old(self),
                    !start.finalized,
                    silence@ == silence_model,
                    silence_model == start.closing_silence(),
                    start.closing_frames() == OPUS_FINAL_SILENCE_FRAMES,
                    self.wf(),
                    self.profile == start.profile,
                    self.last_output_frame_samples == start.last_output_frame_samples,
                    start.last_output_frame_samples == Some(count),
                    self.finalized == start.finalized,
                    silence@.frame_count() == count,
                    silence@.samplerate == start.rate(),
                    step == granules(count as int, start.rate() as int),
                    step >= 0,
                    self.samples_written_48k == start.samples_written_48k + i * step,
                    start.samples_written_48k + 10 * step + OPUS_PRESKIP <= u64::MAX,
                    packets@.len() == i,
                    forall|rest: Seq<OggModel>, outcome: Result<(), MediaError>, after: Self|
                        #[trigger] self.writes_silence(
                            silence_model,
                            OPUS_FINAL_SILENCE_FRAMES - i,
                            rest,
                            outcome,
                            after,
                        ) ==> start.writes_silence(
                            silence_model,
                            OPUS_FINAL_SILENCE_FRAMES as int,
                            ogg_models(packets@) + rest,
                            outcome,
                            after,
                        ),
                decreases OPUS_FINAL_SILENCE_FRAMES - i,
            {
                let ghost before = *self;
                let ghost packets_before = packets@;
                proof {
                    assert(i * step + step <= 10 * step) by (nonlinear_arith)
                        requires
                            i < 10,
                            step >= 0,
                    ;
                    assert((i + 1) * step == i * step + step) by (nonlinear_arith);
                    assert(self.output_samples(silence@) == count);
                }
                let ghost left = OPUS_FINAL_SILENCE_FRAMES - i;
                let one = self.write_frame(&silence, false);
                let ghost one_model = written(one);
                assert(before.writes_frame(silence_model, false, one_model, *self));
                match one {
                    Ok(packet) => {
                        packets.push(packet);
                        proof {
                            let model = packet@;
                            assert forall|rest: Seq<OggModel>, outcome: Result<
                                (),
                                MediaError,
                            >, after: Self|
                                #[trigger] self.writes_silence(
                                    silence_model,
                                    left - 1,
                                    rest,
                                    outcome,
                                    after,
                                ) implies start.writes_silence(
                                silence_model,
                                OPUS_FINAL_SILENCE_FRAMES as int,
                                ogg_models(packets@) + rest,
                                outcome,
                                after,
                            ) by {
                                let longer = seq![model] + rest;
                                assert(longer.skip(1) =~= rest);
                                assert(before.writes_silence(
                                    silence_model,
                                    left,
                                    longer,
                                    outcome,
                                    after,
                                ));
                                assert(ogg_models(packets_before) + longer =~= ogg_models(packets@)
                                    + rest);
                            }
                        }
                    },
                    Err(error) => {
                        proof {
                            let outcome: Result<(), MediaError> = Err(error);
                            assert(before.writes_silence(
                                silence_model,
                                left,
                                Seq::<OggModel>::empty(),
                                outcome,
                                *self,
                            ));
                            assert(ogg_models(packets@) + Seq::<OggModel>::empty()
                                =~= ogg_models(packets@));
                            assert(start.writes_silence(
                                start.closing_silence(),
                                start.closing_frames(),
                                ogg_models(packets@),
                                outcome,
                                *self,
                            ));
                        }
                        return (packets, Err(error));
                    },
                }
                i += 1;
            }
            proof {
                assert(self.writes_silence(
                    silence_model,
                    OPUS_FINAL_SILENCE_FRAMES - i,
                    Seq::<OggModel>::empty(),
                    Ok::<(), MediaError>(()),
                    *self,
                ));
                assert(ogg_models(packets@) + Seq::<OggModel>::empty() =~= ogg_models(packets@));
            }
        } else {
            assert(self.writes_silence(
                silence_model,
                0,
                Seq::<OggModel>::empty(),
                Ok::<(), MediaError>(()),
                *self,
            ));
        }
        let ghost silent = ogg_models(packets@);
        let ghost middle = *self;
        assert(start.writes_silence(
            start.closing_silence(),
            start.closing_frames(),
            silent,
            Ok::<(), MediaError>(()),
            middle,
        ));
        let last = OggPacket {
            data: Vec::new(),
            serial: OPUS_SERIAL,
            end: PacketEnd::EndStream,
            granule: self.samples_written_48k + OPUS_PRESKIP as u64,
        };
        assert(last.data@ =~= Seq::<u8>::empty());
        packets.push(last);
        self.finalized = true;
        assert(ogg_models(packets@) =~= silent.push(last@));
        (packets, Ok(()))
    }
}

proof fn lemma_granules(count: int, rate: int)
    requires
        count >= 0,
        rate > 0,
    ensures
        granules(count, rate) >= 0,
{
    vstd::arithmetic::div_mod::lemma_div_pos_is_pos(
        if count * 48_000 > usize::MAX {
            usize::MAX as int
        } else {
            count * 48_000
        },
        rate,
    );
}

/// What came of writing a frame, as a mathematical value.
pub open spec fn written(packet: Result<OggPacket, MediaError>) -> Result<OggModel, MediaError> {
    match packet {
        Ok(packet) => Ok(packet@),
        Err(error) => Err(error),
    }
}

/// A file that is ended without a failure has the frames of silence behind what was written,
/// one packet each, and one packet more, which alone ends the stream.
pub proof fn law_ended_file_ends_the_stream<C: AudioCodec>(
    before: OpusFileSink<C>,
    packets: Seq<OggModel>,
    after: OpusFileSink<C>,
)
    requires
        before.closes(packets, Ok::<(), MediaError>(()), after),
    ensures
        packets.len() == before.closing_frames() + 1,
        packets.last().end is EndStream,
        packets.last().data.len() == 0,
        forall|i: int|
            0 <= i < packets.len() - 1 ==> (#[trigger] packets[i]).end is NormalPacket,
        after.finalized,
{
    let (silent, ended, middle): (
        Seq<OggModel>,
        Result<(), MediaError>,
        OpusFileSink<C>,
    ) = choose|silent: Seq<OggModel>, ended: Result<(), MediaError>, middle: OpusFileSink<C>|
        {
            &&& #[trigger] before.writes_silence(
                before.closing_silence(),
                before.closing_frames(),
                silent,
                ended,
                middle,
            )
            &&& match ended {
                Err(error) => {
                    &&& packets == silent
                    &&& Ok::<(), MediaError>(()) == Err::<(), MediaError>(error)
                    &&& after == middle
                },
                Ok(_) => {
                    &&& packets == silent.push(
                        OggModel {
                            data: Seq::empty(),
                            serial: OPUS_SERIAL,
                            end: PacketEnd::EndStream,
                            granule: (middle.samples_written_48k + OPUS_PRESKIP) as u64,
                        },
                    )
                    &&& after == (OpusFileSink { finalized: true, ..middle })
                },
            }
        };
    lemma_silence_written(
        before,
        before.closing_silence(),
        before.closing_frames(),
        silent,
        ended,
        middle,
    );
}

proof fn lemma_silence_written<C: AudioCodec>(
    sink: OpusFileSink<C>,
    silence: AudioModel,
    times: int,
    packets: Seq<OggModel>,
    outcome: Result<(), MediaError>,
    after: OpusFileSink<C>,
)
    requires
        times >= 0,
        sink.writes_silence(silence, times, packets, outcome, after),
        outcome is Ok,
    ensures
        packets.len() == times,
        forall|i: int| 0 <= i < packets.len() ==> (#[trigger] packets[i]).end is NormalPacket,
    decreases times,
{
    if times > 0 {
        let (first, middle): (Result<OggModel, MediaError>, OpusFileSink<C>) = choose|
            first: Result<OggModel, MediaError>,
            middle: OpusFileSink<C>,
        |
            {
                &&& #[trigger] sink.writes_frame(silence, false, first, middle)
                &&& match first {
                    Err(error) => packets.len() == 0 && outcome == Err::<(), MediaError>(error)
                        && after == middle,
                    Ok(packet) => packets.len() > 0 && packets[0] == packet
                        && middle.writes_silence(
                        silence,
                        times - 1,
                        packets.skip(1),
                        outcome,
                        after,
                    ),
                }
            };
        lemma_silence_written(middle, silence, times - 1, packets.skip(1), outcome, after);
        assert forall|i: int| 0 <= i < packets.len() implies (
        #[trigger] packets[i]).end is NormalPacket by {
            if i > 0 {
                assert(packets[i] == packets.skip(1)[i - 1]);
            }
        }
    }
}

/// How frames are queued for a file.
#[derive(Debug, Clone, Copy, PartialEq, Eq, Structural)]
pub struct QueuedOpusFileSinkConfig {
    pub profile: CodecProfile,
    pub max_queued_frames: usize,
    pub autostart_min: usize,
    pub autodigest: bool,
    pub finalize_timeout: Nanos,
}

impl Default for QueuedOpusFileSinkConfig {
    fn default() -> (config: Self)
        ensures
            config == (QueuedOpusFileSinkConfig {
                profile: CodecProfile::OpusAudioMax,
                max_queued_frames: OPUS_FILE_MAX_FRAMES,
                autostart_min: OPUS_FILE_AUTOSTART_MIN,
                autodigest: true,
                finalize_timeout: OPUS_FILE_FINALIZE_TIMEOUT,
            }),
    {
        QueuedOpusFileSinkConfig {
            profile: CodecProfile::OpusAudioMax,
            max_queued_frames: OPUS_FILE_MAX_FRAMES,
            autostart_min: OPUS_FILE_AUTOSTART_MIN,
            autodigest: true,
            finalize_timeout: OPUS_FILE_FINALIZE_TIMEOUT,
        }
    }
}

/// A queue for a file as a mathematical value.
#[verifier::ext_equal]
pub struct FileQueueModel {
    pub path: Seq<char>,
    pub config: QueuedOpusFileSinkConfig,
    /// The frames that wait, oldest first.
    pub queue: Seq<AudioModel>,
    /// Whether frames are to be written.
    pub running: bool,
    /// Whether no more frames are taken.
    pub stopped: bool,
    /// Whether the file was ended.
    pub finalized: bool,
    /// Whether there is a worker that writes.
    pub working: bool,
}

impl FileQueueModel {
    /// What holds of every queue.
    pub open spec fn sound(self) -> bool {
        &&& self.config.profile.is_opus()
        &&& self.config.max_queued_frames >= 1
        &&& self.config.autostart_min >= 1
        &&& self.queue.len() <= self.config.max_queued_frames
    }

    /// Why a frame is not taken, if it is not.
    pub open spec fn refusal(self) -> Option<MediaError> {
        if self.stopped {
            Some(MediaError::SinkClosed)
        } else if self.queue.len() >= self.config.max_queued_frames {
            Some(MediaError::SinkFull)
        } else {
            None
        }
    }

    /// The queue with the writing started.
    pub open spec fn started(self) -> FileQueueModel {
        FileQueueModel { running: true, working: true, ..self }
    }

    /// The queue with a frame more. The writing starts once enough frames wait.
    pub open spec fn with_frame(self, frame: AudioModel) -> FileQueueModel {
        let longer = FileQueueModel { queue: self.queue.push(frame), ..self };
        if self.config.autodigest && !self.running && longer.queue.len()
            >= self.config.autostart_min {
            longer.started()
        } else {
            longer
        }
    }
}

/// What the worker of a queue does next.
#[derive(Debug)]
pub enum FileStep {
    /// Write a frame.
    Write(AudioFrame),
    /// Wait until it is told to go on.
    Wait,
    /// End the file.
    Finalize,
}

/// A queue of frames for a file, which a worker writes.
#[derive(Debug)]
pub struct QueuedOpusFileSink {
    path: String,
    config: QueuedOpusFileSinkConfig,
    queue: VecDeque<AudioFrame>,
    running: bool,
    stopped: bool,
    finalized: bool,
    working: bool,
}

impl QueuedOpusFileSink {
    /// The queue as a mathematical value.
    pub closed spec fn view(&self) -> FileQueueModel {
        FileQueueModel {
            path: self.path@,
            config: self.config,
            queue: crate::line_sink::audio_models(self.queue@),
            running: self.running,
            stopped: self.stopped,
            finalized: self.finalized,
            working: self.working,
        }
    }

    /// What holds of every queue.
    pub open spec fn wf(&self) -> bool {
        self@.sound()
    }

    /// An empty queue for a file. At least one frame may wait.
    pub fn create(path: String, config: QueuedOpusFileSinkConfig) -> (sink: Result<
        Self,
        MediaError,
    >)
        ensures
            match sink {
                Ok(sink) => {
                    &&& config.profile.is_opus()
                    &&& sink.wf()
                    &&& sink@ == (FileQueueModel {
                        path: path@,
                        config: QueuedOpusFileSinkConfig {
                            max_queued_frames: crate::line_sink::at_least(
                                config.max_queued_frames,
                                1,
                            ),
                            autostart_min: crate::line_sink::at_least(config.autostart_min, 1),
                            ..config
                        },
                        queue: Seq::empty(),
                        running: false,
                        stopped: false,
                        finalized: false,
                        working: false,
                    })
                },
                Err(error) => !config.profile.is_opus() && (error matches MediaError::Codec(error)
                    && crate::opus_codec::not_opus(config.profile, error)),
            },
    {
        match OpusCodec::profile_info(config.profile) {
            Ok(_) => {},
            Err(error) => return Err(MediaError::Codec(error)),
        }
        let sink = QueuedOpusFileSink {
            path,
            config: QueuedOpusFileSinkConfig {
                profile: config.profile,
                max_queued_frames: if config.max_queued_frames < 1 {
                    1
                } else {
                    config.max_queued_frames
                },
                autostart_min: if config.autostart_min < 1 {
                    1
                } else {
                    config.autostart_min
                },
                autodigest: config.autodigest,
                finalize_timeout: config.finalize_timeout,
            },
            queue: VecDeque::new(),
            running: false,
            stopped: false,
            finalized: false,
            working: false,
        };
        assert(sink@.queue =~= Seq::<AudioModel>::empty());
        Ok(sink)
    }

    /// Where the file is.
    pub fn path(&self) -> (path: &str)
        ensures
            path@ == self@.path,
    {
        self.path.as_str()
    }

    /// How frames are queued.
    pub fn config(&self) -> (config: QueuedOpusFileSinkConfig)
        ensures
            config == self@.config,
    {
        self.config
    }

    /// Whether a frame is taken now.
    pub fn can_receive(&self) -> (ready: bool)
        ensures
            ready == (self@.refusal() is None),
    {
        !self.stopped && self.queue.len() < self.config.max_queued_frames
    }

    /// How many frames wait.
    pub fn queued_frames(&self) -> (count: usize)
        ensures
            count == self@.queue.len(),
    {
        self.queue.len()
    }

    /// How many frames wait.
    pub fn frames_waiting(&self) -> (count: usize)
        ensures
            count == self@.queue.len(),
    {
        self.queued_frames()
    }

    /// Whether frames are to be written.
    pub fn is_running(&self) -> (running: bool)
        ensures
            running == self@.running,
    {
        self.running
    }

    /// Whether the file was ended.
    pub fn is_finalized(&self) -> (finalized: bool)
        ensures
            finalized == self@.finalized,
    {
        self.finalized
    }

    /// Whether there is a worker.
    pub fn is_working(&self) -> (working: bool)
        ensures
            working == self@.working,
    {
        self.working
    }

    /// Queues a frame. Starts the writing once enough frames wait.
    pub fn handle_frame(&mut self, frame: AudioFrame) -> (handled: Result<(), MediaError>)
        requires
            old(self).wf(),
        ensures
            final(self).wf(),
            match old(self)@.refusal() {
                Some(error) => {
                    &&& handled == Err::<(), MediaError>(error)
                    &&& *final(self) == *old(self)
                },
                None => handled is Ok && final(self)@ == old(self)@.with_frame(frame@),
            },
    {
        if self.stopped {
            return Err(MediaError::SinkClosed);
        }
        if self.queue.len() >= self.config.max_queued_frames {
            return Err(MediaError::SinkFull);
        }
        self.queue.push_back(frame);
        assert(self@.queue =~= old(self)@.queue.push(frame@));
        if self.config.autodigest && !self.running && self.queue.len()
            >= self.config.autostart_min {
            self.start();
        }
        Ok(())
    }

    /// Starts the writing: there is a worker from now on.
    pub fn start(&mut self)
        requires
            old(self).wf(),
        ensures
            final(self).wf(),
            final(self)@ == old(self)@.started(),
    {
        self.running = true;
        self.working = true;
    }

    /// What the worker does next: it writes the frames that wait, oldest first, and ends the
    /// file once there are none and it is not to go on.
    pub fn worker_step(&mut self) -> (step: FileStep)
        requires
            old(self).wf(),
        ensures
            final(self).wf(),
            match step {
                FileStep::Write(frame) => {
                    &&& old(self)@.queue.len() > 0
                    &&& frame@ == old(self)@.queue[0]
                    &&& final(self)@ == (FileQueueModel {
                        queue: old(self)@.queue.skip(1),
                        ..old(self)@
                    })
                },
                FileStep::Wait => {
                    &&& old(self)@.queue.len() == 0 && old(self)@.running
                    &&& final(self)@ == old(self)@
                },
                FileStep::Finalize => {
                    &&& old(self)@.queue.len() == 0 && !old(self)@.running
                    &&& final(self)@ == old(self)@
                },
            },
    {
        let ghost before = self@.queue;
        match self.queue.pop_front() {
            Some(frame) => {
                assert(self@.queue =~= before.skip(1));
                FileStep::Write(frame)
            },
            None => {
                assert(self@.queue =~= before);
                if self.running {
                    FileStep::Wait
                } else {
                    FileStep::Finalize
                }
            },
        }
    }

    /// Keeps in mind that the file was ended.
    pub fn mark_finalized(&mut self)
        requires
            old(self).wf(),
        ensures
            final(self).wf(),
            final(self)@ == (FileQueueModel { finalized: true, ..old(self)@ }),
    {
        self.finalized = true;
    }

    /// Takes no more frames, and says whether there is a worker that is to be waited for.
    pub fn stop(&mut self) -> (wait: bool)
        requires
            old(self).wf(),
        ensures
            final(self).wf(),
            final(self)@ == (FileQueueModel { stopped: true, ..old(self)@ }),
            wait == old(self)@.working,
    {
        self.stopped = true;
        self.working
    }

    /// Lets the worker end once no frames wait.
    pub fn release(&mut self)
        requires
            old(self).wf(),
        ensures
            final(self).wf(),
            final(self)@ == (FileQueueModel { running: false, ..old(self)@ }),
    {
        self.running = false;
    }

    /// What stopping comes to once the worker is gone: what it came to, or that it panicked.
    pub fn joined(&mut self, ended: Option<Result<(), MediaError>>) -> (outcome: Result<
        (),
        MediaError,
    >)
        requires
            old(self).wf(),
        ensures
            final(self).wf(),
            final(self)@ == (FileQueueModel { working: false, ..old(self)@ }),
            outcome == (match ended {
                Some(result) => result,
                None => Err::<(), MediaError>(MediaError::WorkerPanic),
            }),
    {
        self.working = false;
        match ended {
            Some(result) => result,
            None => Err(MediaError::WorkerPanic),
        }
    }
}

/// A frame is taken exactly where the queue says so, and a queue that is stopped takes none.
pub proof fn law_stopped_queue_takes_nothing(queue: FileQueueModel)
    requires
        queue.stopped,
    ensures
        queue.refusal() == Some(MediaError::SinkClosed),
{
}

/// A queue stays within its limit whatever frame it takes.
pub proof fn law_queue_stays_bounded(queue: FileQueueModel, frame: AudioModel)
    requires
        queue.sound(),
        queue.refusal() is None,
    ensures
        queue.with_frame(frame).sound(),
        queue.with_frame(frame).queue == queue.queue.push(frame),
{
}

/// A sound file as a mathematical value, with how far it was played.
#[verifier::ext_equal]
pub struct FileSourceModel {
    pub samplerate: u32,
    pub channels: u8,
    pub samples: Seq<Sample>,
    pub samples_per_frame: usize,
    pub frame_time: Nanos,
    pub position: int,
    pub running: bool,
    pub looping: bool,
    pub timed: bool,
    pub next_frame_at: Option<Nanos>,
}

impl FileSourceModel {
    /// What holds of every sound file.
    pub open spec fn sound(self) -> bool {
        &&& self.samplerate > 0
        &&& self.channels > 0
        &&& self.samples_per_frame >= 1
        &&& 0 <= self.position <= self.frames()
    }

    /// How many samples each channel has.
    pub open spec fn frames(self) -> int {
        self.samples.len() as int / self.channels as int
    }

    /// The samples from one place up to another.
    pub open spec fn part(self, start: int, end: int) -> AudioModel {
        AudioModel {
            samplerate: self.samplerate,
            channels: self.channels,
            samples: self.samples.subrange(start * self.channels, end * self.channels),
        }
    }

    /// What is still to be played.
    pub open spec fn rest(self) -> Seq<Sample> {
        self.part(self.position, self.frames()).samples
    }

    /// Whether no frame is due.
    pub open spec fn holds_back(self, now: Nanos) -> bool {
        ||| !self.running
        ||| self.timed && self.next_frame_at is Some && now < self.next_frame_at->0
    }

    /// Whether the file was played to its end.
    pub open spec fn ends(self) -> bool {
        self.position >= self.frames() && !self.looping
    }

    /// Where the next frame starts.
    pub open spec fn next_start(self) -> int {
        if self.position >= self.frames() {
            0
        } else {
            self.position
        }
    }

    /// Where the next frame ends.
    pub open spec fn next_end(self) -> int {
        let end = self.next_start() + self.samples_per_frame;
        if end < self.frames() {
            end
        } else {
            self.frames()
        }
    }

    /// The next frame, if there is one.
    pub open spec fn given(self, now: Nanos) -> Option<AudioModel> {
        if self.holds_back(now) || self.ends() {
            None
        } else {
            Some(self.part(self.next_start(), self.next_end()))
        }
    }

    /// The file once the next frame was asked for.
    pub open spec fn advanced(self, now: Nanos) -> FileSourceModel {
        if self.holds_back(now) {
            self
        } else if self.ends() {
            FileSourceModel { running: false, ..self }
        } else {
            FileSourceModel {
                position: self.next_end(),
                next_frame_at: if self.timed {
                    Some((now + self.frame_time) as Nanos)
                } else {
                    self.next_frame_at
                },
                ..self
            }
        }
    }
}

/// What is played of a file is what is in it: a frame is what comes next, and what is left
/// then is what comes after it.
pub proof fn law_played_frames_make_up_the_file(file: FileSourceModel, now: Nanos)
    requires
        file.sound(),
        !file.looping,
        file.given(now) is Some,
    ensures
        file.given(now)->0.samples + file.advanced(now).rest() == file.rest(),
        file.advanced(now).sound(),
        file.advanced(now).position > file.position,
{
    let channels = file.channels as int;
    let start = file.next_start();
    let end = file.next_end();
    let last = file.frames();
    assert(start * channels <= end * channels <= last * channels) by (nonlinear_arith)
        requires
            start <= end <= last,
            channels > 0,
    ;
    assert(0 <= start * channels) by (nonlinear_arith)
        requires
            start >= 0,
            channels > 0,
    ;
    assert(last * channels <= file.samples.len()) by (nonlinear_arith)
        requires
            last == file.samples.len() as int / channels,
            channels > 0,
    ;
    assert(file.given(now)->0.samples + file.advanced(now).rest() =~= file.rest());
}

/// A file that is played in a loop never ends by itself.
pub proof fn law_looping_file_goes_on(file: FileSourceModel, now: Nanos)
    requires
        file.sound(),
        file.looping,
        file.running,
    ensures
        file.advanced(now).running,
        !file.holds_back(now) ==> file.given(now) is Some,
{
}

/// A file that is played in time gives no frame before the last one is over.
pub proof fn law_timed_file_keeps_time(file: FileSourceModel, now: Nanos, later: Nanos)
    requires
        file.sound(),
        file.timed,
        file.given(now) is Some,
        now + file.frame_time <= u64::MAX,
        later < now + file.frame_time,
    ensures
        file.advanced(now).given(later) is None,
{
}

/// Whether samples start with others.
pub open spec fn begins_with(samples: Seq<Sample>, first: Seq<Sample>) -> bool {
    samples.len() >= first.len() && samples.take(first.len() as int) == first
}

/// Whether decoding packets one after another can give `samples`, end in `outcome` and leave
/// the codec as `after`. Empty packets are passed over.
pub open spec fn decodes_packets<C: AudioCodec>(
    codec: C,
    packets: Seq<Seq<u8>>,
    samplerate: u32,
    samples: Seq<Sample>,
    outcome: Result<(), MediaError>,
    after: C,
) -> bool
    decreases packets.len(),
{
    if packets.len() == 0 {
        samples.len() == 0 && outcome is Ok && after == codec
    } else if packets[0].len() == 0 {
        decodes_packets(codec, packets.skip(1), samplerate, samples, outcome, after)
    } else {
        exists|decoded: Result<AudioFrame, CodecError>, middle: C|
            {
                &&& #[trigger] codec.decodes(packets[0], samplerate, decoded, middle)
                &&& match decoded {
                    Err(error) => samples.len() == 0 && outcome == Err::<(), MediaError>(
                        MediaError::Codec(error),
                    ) && after == middle,
                    Ok(frame) => begins_with(samples, frame@.samples) && decodes_packets(
                        middle,
                        packets.skip(1),
                        samplerate,
                        samples.skip(frame@.samples.len() as int),
                        outcome,
                        after,
                    ),
                }
            }
    }
}

/// The bytes of packets.
pub open spec fn packet_bytes(packets: Seq<Vec<u8>>) -> Seq<Seq<u8>> {
    packets.map_values(|packet: Vec<u8>| packet@)
}

/// Samples without those that are not to be played, where there are more.
pub open spec fn without_preskip(samples: Seq<Sample>, header: OpusHeader) -> Seq<Sample> {
    let count = header.preskip * header.channels;
    if samples.len() > count {
        samples.skip(count)
    } else {
        samples
    }
}

/// A sound file that was read.
#[derive(Debug, Clone)]
pub struct OpusFileSource {
    samplerate: u32,
    channels: u8,
    samples: Vec<Sample>,
    samples_per_frame: usize,
    frame_time: Nanos,
    position: usize,
    running: bool,
    looping: bool,
    timed: bool,
    next_frame_at: Option<Nanos>,
}

impl OpusFileSource {
    /// The file as a mathematical value.
    pub closed spec fn view(&self) -> FileSourceModel {
        FileSourceModel {
            samplerate: self.samplerate,
            channels: self.channels,
            samples: self.samples@,
            samples_per_frame: self.samples_per_frame,
            frame_time: self.frame_time,
            position: self.position as int,
            running: self.running,
            looping: self.looping,
            timed: self.timed,
            next_frame_at: self.next_frame_at,
        }
    }

    /// What holds of every sound file.
    pub open spec fn wf(&self) -> bool {
        self@.sound()
    }

    /// Reads a file from its packets: what its first packet said, its second packet, and the
    /// packets with sound, which are decoded one after another.
    pub fn open_timed<C: AudioCodec>(
        header: OpusHeader,
        tags: &[u8],
        packets: &[Vec<u8>],
        codec: &mut C,
        target_frame_ms: u16,
        looping: bool,
        timed: bool,
    ) -> (source: Result<Self, MediaError>)
        requires
            header.channels > 0,
            header.input_samplerate > 0,
            frame_samples(header.input_samplerate, target_frame_ms) <= usize::MAX,
        ensures
            !begins(tags@, tags_magic()) ==> {
                &&& source matches Err(error) && is_invalid_file(error, "missing OpusTags packet"@)
                &&& *final(codec) == *old(codec)
            },
            begins(tags@, tags_magic()) ==> exists|samples: Seq<Sample>, outcome: Result<(), MediaError>|
                {
                    &&& #[trigger] decodes_packets(
                        *old(codec),
                        packet_bytes(packets@),
                        header.input_samplerate,
                        samples,
                        outcome,
                        *final(codec),
                    )
                    &&& match outcome {
                        Err(error) => source == Err::<Self, MediaError>(error),
                        Ok(_) => source matches Ok(source) && source.wf() && source@ == (
                        FileSourceModel {
                            samplerate: header.input_samplerate,
                            channels: header.channels,
                            samples: without_preskip(samples, header),
                            samples_per_frame: crate::line_sink::at_least(
                                frame_samples(header.input_samplerate, target_frame_ms) as usize,
                                1,
                            ),
                            frame_time: crate::line_sink::sample_span(
                                crate::line_sink::at_least(
                                    frame_samples(header.input_samplerate, target_frame_ms) as usize,
                                    1,
                                ) as int,
                                header.input_samplerate as int,
                            ) as Nanos,
                            position: 0,
                            running: false,
                            looping,
                            timed,
                            next_frame_at: None,
                        }),
                    }
                },
    {
        if !is_opus_tags(tags) {
            return Err(MediaError::InvalidOpusFile("missing OpusTags packet".to_owned()));
        }
        let ghost start = *codec;
        let ghost all = packet_bytes(packets@);
        let ghost rate = header.input_samplerate;
        let mut samples: Vec<Sample> = Vec::new();
        let mut i: usize = 0;
        proof {
            assert(all.skip(0) =~= all);
            assert forall|tail: Seq<Sample>, outcome: Result<(), MediaError>, after: C|
                #[trigger] decodes_packets(
                    *codec,
                    all.skip(0),
                    rate,
                    tail,
                    outcome,
                    after,
                ) implies decodes_packets(
                start,
                all,
                rate,
                samples@ + tail,
                outcome,
                after,
            ) by {
                assert(samples@ + tail =~= tail);
            }
        }
        while i < packets.len()
            invariant
                i <= packets@.len(),
                start == *old(codec),
                all == packet_bytes(packets@),
                rate == header.input_samplerate,
                begins(tags@, tags_magic()),
                forall|tail: Seq<Sample>, outcome: Result<(), MediaError>, after: C|
                    #[trigger] decodes_packets(
                        *codec,
                        all.skip(i as int),
                        rate,
                        tail,
                        outcome,
                        after,
                    ) ==> decodes_packets(start, all, rate, samples@ + tail, outcome, after),
            decreases packets.len() - i,
        {
            let ghost before = *codec;
            let ghost rest = all.skip(i as int);
            let ghost samples_before = samples@;
            assert(rest.skip(1) =~= all.skip(i + 1));
            assert(rest[0] == packets@[i as int]@);
            if packets[i].len() > 0 {
                let decoded = codec.decode(&packets[i], header.input_samplerate);
                let ghost decoded_copy = decoded;
                assert(before.decodes(rest[0], rate, decoded_copy, *codec));
                match decoded {
                    Ok(frame) => {
                        push_samples(&mut samples, frame.samples());
                        proof {
                            assert forall|
                                tail: Seq<Sample>,
                                outcome: Result<(), MediaError>,
                                after: C,
                            |
                                #[trigger] decodes_packets(
                                    *codec,
                                    all.skip(i + 1),
                                    rate,
                                    tail,
                                    outcome,
                                    after,
                                ) implies decodes_packets(
                                start,
                                all,
                                rate,
                                samples@ + tail,
                                outcome,
                                after,
                            ) by {
                                let longer = frame@.samples + tail;
                                assert(longer.take(frame@.samples.len() as int)
                                    =~= frame@.samples);
                                assert(longer.skip(frame@.samples.len() as int) =~= tail);
                                assert(decodes_packets(
                                    before,
                                    rest,
                                    rate,
                                    longer,
                                    outcome,
                                    after,
                                ));
                                assert(samples_before + longer =~= samples@ + tail);
                            }
                        }
                    },
                    Err(error) => {
                        let failed: Result<Self, MediaError> = Err(MediaError::Codec(error));
                        proof {
                            let outcome: Result<(), MediaError> = Err(MediaError::Codec(error));
                            assert(decodes_packets(
                                before,
                                rest,
                                rate,
                                Seq::<Sample>::empty(),
                                outcome,
                                *codec,
                            ));
                            assert(decodes_packets(
                                start,
                                all,
                                rate,
                                samples@ + Seq::<Sample>::empty(),
                                outcome,
                                *codec,
                            ));
                        }
                        return failed;
                    },
                }
            } else {
                proof {
                    assert forall|
                        tail: Seq<Sample>,
                        outcome: Result<(), MediaError>,
                        after: C,
                    |
                        #[trigger] decodes_packets(
                            *codec,
                            all.skip(i + 1),
                            rate,
                            tail,
                            outcome,
                            after,
                        ) implies decodes_packets(
                        start,
                        all,
                        rate,
                        samples@ + tail,
                        outcome,
                        after,
                    ) by {
                        assert(decodes_packets(before, rest, rate, tail, outcome, after));
                    }
                }
            }
            i += 1;
        }
        let ghost decoded = samples@;
        proof {
            assert(decodes_packets(
                *codec,
                all.skip(i as int),
                rate,
                Seq::<Sample>::empty(),
                Ok::<(), MediaError>(()),
                *codec,
            ));
            assert(decoded + Seq::<Sample>::empty() =~= decoded);
        }
        assert(header.preskip * header.channels <= 65_535 * 255) by (nonlinear_arith)
            requires
                header.preskip <= 65_535,
                header.channels <= 255,
        ;
        assert(header.preskip * header.channels >= 0) by (nonlinear_arith)
            requires
                header.preskip >= 0,
                header.channels >= 0,
        ;
        let skipped: usize = header.preskip as usize * header.channels as usize;
        assert(skipped == header.preskip * header.channels);
        let samples = if samples.len() > skipped {
            samples_from(&samples, skipped)
        } else {
            samples
        };
        assert(samples@ =~= without_preskip(decoded, header));
        let wanted = samples_per_frame(header.input_samplerate, target_frame_ms);
        let samples_per_frame: usize = if wanted < 1 {
            1
        } else {
            wanted as usize
        };
        proof {
            lemma_frame_time(header.input_samplerate, target_frame_ms);
        }
        let frame_time = span_of_samples(samples_per_frame, header.input_samplerate);
        let source = OpusFileSource {
            samplerate: header.input_samplerate,
            channels: header.channels,
            samples,
            samples_per_frame,
            frame_time,
            position: 0,
            running: false,
            looping,
            timed,
            next_frame_at: None,
        };
        proof {
            vstd::arithmetic::div_mod::lemma_div_pos_is_pos(
                source.samples@.len() as int,
                source.channels as int,
            );
        }
        Ok(source)
    }

    /// How many samples each channel has.
    pub fn len_samples(&self) -> (count: usize)
        requires
            self.wf(),
        ensures
            count == self@.frames(),
    {
        self.samples.len() / self.channels as usize
    }

    /// How long the file lasts.
    pub fn duration(&self) -> (span: Nanos)
        requires
            self.wf(),
            self@.frames() <= 2 * crate::line_sink::DOUBLE_UNITS,
            crate::line_sink::sample_span(self@.frames(), self@.samplerate as int) <= u64::MAX,
        ensures
            span == crate::line_sink::sample_span(self@.frames(), self@.samplerate as int),
    {
        span_of_samples(self.len_samples(), self.samplerate)
    }

    /// How long a frame lasts.
    pub fn frame_time(&self) -> (span: Nanos)
        ensures
            span == self@.frame_time,
    {
        self.frame_time
    }

    /// Whether the file is played in time.
    pub fn timed(&self) -> (timed: bool)
        ensures
            timed == self@.timed,
    {
        self.timed
    }

    /// Lets the file be played in time from now on, or not.
    pub fn set_timed(&mut self, timed: bool, now: Nanos)
        requires
            old(self).wf(),
        ensures
            final(self).wf(),
            final(self)@ == (FileSourceModel {
                timed,
                next_frame_at: if timed && old(self)@.running {
                    Some(now)
                } else {
                    None
                },
                ..old(self)@
            }),
    {
        self.timed = timed;
        self.next_frame_at = if timed && self.running {
            Some(now)
        } else {
            None
        };
    }

    /// Whether the file is played again and again.
    pub fn looping(&self) -> (looping: bool)
        ensures
            looping == self@.looping,
    {
        self.looping
    }

    /// Lets the file be played again and again, or not.
    pub fn set_looping(&mut self, looping: bool)
        requires
            old(self).wf(),
        ensures
            final(self).wf(),
            final(self)@ == (FileSourceModel { looping, ..old(self)@ }),
    {
        self.looping = looping;
    }

    /// Lets the file give frames.
    pub fn start(&mut self, now: Nanos)
        requires
            old(self).wf(),
        ensures
            final(self).wf(),
            final(self)@ == (FileSourceModel {
                running: true,
                next_frame_at: if old(self)@.timed {
                    Some(now)
                } else {
                    None
                },
                ..old(self)@
            }),
    {
        self.running = true;
        self.next_frame_at = if self.timed {
            Some(now)
        } else {
            None
        };
    }

    /// Lets the file give no more frames.
    pub fn stop(&mut self)
        requires
            old(self).wf(),
        ensures
            final(self).wf(),
            final(self)@ == (FileSourceModel {
                running: false,
                next_frame_at: None,
                ..old(self)@
            }),
    {
        self.running = false;
        self.next_frame_at = None;
    }

    /// Whether the file gives frames now.
    pub fn is_running(&self) -> (running: bool)
        ensures
            running == self@.running,
    {
        self.running
    }

    /// The sample rate of the file.
    pub fn samplerate(&self) -> (samplerate: u32)
        ensures
            samplerate == self@.samplerate,
    {
        self.samplerate
    }

    /// The channels of the file.
    pub fn channels(&self) -> (channels: u8)
        ensures
            channels == self@.channels,
    {
        self.channels
    }

    /// The next frame, if there is one and it is time for it.
    pub fn next_frame(&mut self, now: Nanos) -> (frame: Result<Option<AudioFrame>, PipelineError>)
        requires
            old(self).wf(),
            now + old(self)@.frame_time <= u64::MAX,
        ensures
            final(self).wf(),
            final(self)@ == old(self)@.advanced(now),
            match frame {
                Ok(Some(frame)) => old(self)@.given(now) == Some(frame@),
                Ok(None) => old(self)@.given(now) is None,
                Err(_) => false,
            },
    {
        if !self.running {
            return Ok(None);
        }
        if self.timed {
            if let Some(next_frame_at) = self.next_frame_at {
                if now < next_frame_at {
                    return Ok(None);
                }
            }
        }
        let total = self.len_samples();
        if self.position >= total {
            if self.looping {
                self.position = 0;
            } else {
                self.running = false;
                return Ok(None);
            }
        }
        let start_frame = self.position;
        let left: usize = total - start_frame;
        let end_frame: usize = if self.samples_per_frame < left {
            start_frame + self.samples_per_frame
        } else {
            total
        };
        let channels = self.channels as usize;
        proof {
            let len = self.samples@.len() as int;
            assert(total * channels <= len) by (nonlinear_arith)
                requires
                    total == len / channels as int,
                    channels > 0,
            ;
            assert(0 <= start_frame * channels <= end_frame * channels <= total * channels)
                by (nonlinear_arith)
                requires
                    0 <= start_frame <= end_frame <= total,
                    channels > 0,
            ;
            let size = (end_frame - start_frame) * channels;
            assert(end_frame * channels - start_frame * channels == size) by (nonlinear_arith)
                requires
                    size == (end_frame - start_frame) * channels,
            ;
            vstd::arithmetic::div_mod::lemma_mod_multiples_basic(
                end_frame - start_frame,
                channels as int,
            );
        }
        let count = self.samples.len();
        assert(end_frame * channels <= count);
        let part = samples_between(
            &self.samples,
            start_frame * channels,
            end_frame * channels,
        );
        self.position = end_frame;
        if self.timed {
            self.next_frame_at = Some(now + self.frame_time);
        }
        match AudioFrame::new(self.samplerate, self.channels, part) {
            Ok(frame) => Ok(Some(frame)),
            Err(error) => Err(PipelineError::Audio(error)),
        }
    }
}

/// A frame lasts for no longer than can be counted.
proof fn lemma_frame_time(samplerate: u32, target_frame_ms: u16)
    requires
        samplerate > 0,
    ensures
        frame_samples(samplerate, target_frame_ms) >= 1,
        frame_samples(samplerate, target_frame_ms) <= 2 * crate::line_sink::DOUBLE_UNITS,
        crate::line_sink::sample_span(
            frame_samples(samplerate, target_frame_ms),
            samplerate as int,
        ) <= u64::MAX,
{
    let rate = samplerate as int;
    let millis = if target_frame_ms < 1 {
        1
    } else {
        target_frame_ms as int
    };
    let samples = frame_samples(samplerate, target_frame_ms);
    assert(rate * millis >= 1) by (nonlinear_arith)
        requires
            rate >= 1,
            millis >= 1,
    ;
    assert(1000 * samples <= rate * millis + 999);
    assert(samples <= 67 * rate) by (nonlinear_arith)
        requires
            1000 * samples <= rate * millis + 999,
            millis <= 0xffff,
            rate >= 1,
    ;
    crate::line_sink::lemma_span_bound(samples, rate, 67);
}

/// The samples from a place on.
fn samples_from(samples: &[Sample], start: usize) -> (rest: Vec<Sample>)
    requires
        start <= samples@.len(),
    ensures
        rest@ == samples@.skip(start as int),
{
    samples_between(samples, start, samples.len())
}

/// The samples from one place up to another.
fn samples_between(samples: &[Sample], start: usize, end: usize) -> (part: Vec<Sample>)
    requires
        start <= end <= samples@.len(),
    ensures
        part@ == samples@.subrange(start as int, end as int),
{
    let mut part: Vec<Sample> = Vec::new();
    let mut i: usize = start;
    while i < end
        invariant
            start <= i <= end <= samples@.len(),
            part@ == samples@.subrange(start as int, i as int),
        decreases end - i,
    {
        part.push(samples[i]);
        assert(part@ =~= samples@.subrange(start as int, i + 1));
        i += 1;
    }
    part
}

/// Appends samples.
fn push_samples(samples: &mut Vec<Sample>, more: &[Sample])
    ensures
        final(samples)@ == old(samples)@ + more@,
{
    let mut i: usize = 0;
    while i < more.len()
        invariant
            i <= more@.len(),
            samples@ == old(samples)@ + more@.take(i as int),
        decreases more.len() - i,
    {
        samples.push(more[i]);
        assert(samples@ =~= old(samples)@ + more@.take(i + 1));
        i += 1;
    }
    assert(more@.take(i as int) =~= more@);
}

/// What plays frames.
pub trait AudioFrameSink: Sized {
    /// Whether the sink takes a frame now.
    open spec fn ready(&self) -> bool {
        arbitrary()
    }

    /// Whether starting can give `outcome` and leave the sink as `after`.
    open spec fn starts(self, outcome: Result<(), MediaError>, after: Self) -> bool {
        true
    }

    /// Whether stopping can give `outcome` and leave the sink as `after`.
    open spec fn stops(self, outcome: Result<(), MediaError>, after: Self) -> bool {
        true
    }

    /// Whether handing over `frame` can give `outcome` and leave the sink as `after`.
    open spec fn takes(self, frame: AudioModel, outcome: Result<(), MediaError>, after: Self) -> bool {
        true
    }

    /// Lets the sink play.
    fn start(&mut self) -> (outcome: Result<(), MediaError>)
        ensures
            old(self).starts(outcome, *final(self)),
    ;

    /// Lets the sink play no more.
    fn stop(&mut self) -> (outcome: Result<(), MediaError>)
        ensures
            old(self).stops(outcome, *final(self)),
    ;

    /// Whether the sink takes a frame now.
    fn can_receive(&self) -> (ready: bool)
        ensures
            ready == self.ready(),
    ;

    /// Takes a frame.
    fn handle_frame(&mut self, frame: AudioFrame) -> (outcome: Result<(), MediaError>)
        ensures
            old(self).takes(frame@, outcome, *final(self)),
    ;
}

/// A source whose frames are played.
pub struct SourcePlayer<S: AudioSource, K: AudioFrameSink> {
    pub source: S,
    pub sink: K,
    /// Whether the source came to its end and that was not taken note of yet.
    pub finished: bool,
}

impl<S: AudioSource, K: AudioFrameSink> SourcePlayer<S, K> {
    /// A player of a source.
    pub fn new(source: S, sink: K) -> (player: Self)
        ensures
            player == (SourcePlayer { source, sink, finished: false }),
    {
        SourcePlayer { source, sink, finished: false }
    }

    /// The source.
    pub fn source(&self) -> (source: &S)
        ensures
            *source == self.source,
    {
        &self.source
    }

    /// The source, to be changed in place.
    pub fn source_mut(&mut self) -> (source: &mut S)
        ensures
            *source == old(self).source,
            *final(self) == (SourcePlayer { source: *final(source), ..*old(self) }),
    {
        &mut self.source
    }

    /// The sink.
    pub fn sink(&self) -> (sink: &K)
        ensures
            *sink == self.sink,
    {
        &self.sink
    }

    /// The sink, to be changed in place.
    pub fn sink_mut(&mut self) -> (sink: &mut K)
        ensures
            *sink == old(self).sink,
            *final(self) == (SourcePlayer { sink: *final(sink), ..*old(self) }),
    {
        &mut self.sink
    }

    /// Whether the source gives frames now.
    pub fn is_playing(&self) -> (playing: bool)
        ensures
            playing == self.source.running(),
    {
        self.source.is_running()
    }

    /// Whether the source gives frames now.
    pub fn playing(&self) -> (playing: bool)
        ensures
            playing == self.source.running(),
    {
        self.is_playing()
    }

    /// Lets the source give frames and the sink play them.
    pub fn start(&mut self) -> (outcome: Result<(), MediaError>)
        ensures
            old(self).source.starts(final(self).source),
            old(self).sink.starts(outcome, final(self).sink),
            final(self).finished == old(self).finished,
    {
        self.source.start();
        self.sink.start()
    }

    /// Lets the source give no more frames and the sink play no more.
    pub fn stop(&mut self) -> (outcome: Result<(), MediaError>)
        ensures
            old(self).source.stops(final(self).source),
            old(self).sink.stops(outcome, final(self).sink),
            final(self).finished == old(self).finished,
    {
        self.source.stop();
        self.sink.stop()
    }

    /// Whether playing the next frame can give `outcome` and leave the player as `after`.
    pub open spec fn plays_next(self, outcome: Result<bool, MediaError>, after: Self) -> bool {
        exists|given: Result<Option<AudioFrame>, PipelineError>|
            {
                &&& #[trigger] self.source.gives(given, after.source)
                &&& match given {
                    Err(error) => {
                        &&& outcome == Err::<bool, MediaError>(MediaError::Pipeline(error))
                        &&& after.sink == self.sink
                        &&& after.finished == self.finished
                    },
                    Ok(None) => {
                        &&& outcome == Ok::<bool, MediaError>(false)
                        &&& after.sink == self.sink
                        &&& after.finished == (self.finished || (self.source.running()
                            && !after.source.running()))
                    },
                    Ok(Some(frame)) => {
                        &&& after.finished == self.finished
                        &&& match outcome {
                            Ok(played) => played && self.sink.takes(
                                frame@,
                                Ok::<(), MediaError>(()),
                                after.sink,
                            ),
                            Err(error) => self.sink.takes(
                                frame@,
                                Err::<(), MediaError>(error),
                                after.sink,
                            ),
                        }
                    },
                }
            }
    }

    /// Plays the next frame, and says whether there was one. Nothing is asked of the source
    /// unless the sink takes a frame.
    pub fn process_next(&mut self) -> (outcome: Result<bool, MediaError>)
        ensures
            !old(self).sink.ready() ==> {
                &&& outcome == Ok::<bool, MediaError>(false)
                &&& *final(self) == *old(self)
            },
            old(self).sink.ready() ==> old(self).plays_next(outcome, *final(self)),
    {
        if !self.sink.can_receive() {
            return Ok(false);
        }
        let was_playing = self.source.is_running();
        let given = self.source.next_frame();
        let ghost given_copy = given;
        assert(old(self).source.gives(given_copy, self.source));
        match given {
            Err(error) => Err(MediaError::Pipeline(error)),
            Ok(None) => {
                if was_playing && !self.source.is_running() {
                    self.finished = true;
                }
                assert(old(self).source.gives(given_copy, self.source));
                Ok(false)
            },
            Ok(Some(frame)) => {
                let handled = self.sink.handle_frame(frame);
                let ghost handled_copy = handled;
                assert(old(self).source.gives(given_copy, self.source));
                match handled {
                    Ok(unit) => {
                        assert(unit == ());
                        assert(handled_copy == Ok::<(), MediaError>(()));
                        Ok(true)
                    },
                    Err(error) => Err(error),
                }
            },
        }
    }

    /// Whether the source came to its end since this was last asked.
    pub fn take_finished(&mut self) -> (finished: bool)
        ensures
            finished == old(self).finished,
            *final(self) == (SourcePlayer { finished: false, ..*old(self) }),
    {
        let finished = self.finished;
        self.finished = false;
        finished
    }
}

/// Whether playing what `source` has received can give `outcome` and leave the two as
/// `source_after` and `sink_after`.
pub open spec fn plays_received<S: AudioSource, K: AudioFrameSink>(
    source: S,
    sink: K,
    outcome: Result<bool, String>,
    source_after: S,
    sink_after: K,
) -> bool {
    exists|given: Result<Option<AudioFrame>, PipelineError>|
        {
            &&& #[trigger] source.gives(given, source_after)
            &&& match given {
                Err(error) => {
                    &&& outcome matches Err(text)
                    &&& text@ == error.text()
                    &&& sink_after == sink
                },
                Ok(None) => {
                    &&& outcome == Ok::<bool, String>(false)
                    &&& sink_after == sink
                },
                Ok(Some(frame)) => if sink.ready() {
                    exists|taken: Result<(), MediaError>|
                        {
                            &&& #[trigger] sink.takes(frame@, taken, sink_after)
                            &&& match taken {
                                Ok(_) => outcome == Ok::<bool, String>(true),
                                Err(error) => outcome matches Err(text) && text@ == error.text(),
                            }
                        }
                } else {
                    &&& outcome == Ok::<bool, String>(false)
                    &&& sink_after == sink
                },
            }
        }
}

/// Plays the next frame that was received, and says whether there may be more to play now. A
/// frame that the sink cannot take is dropped.
pub fn play_received_frame<S: AudioSource, K: AudioFrameSink>(source: &mut S, sink: &mut K) -> (
outcome: Result<bool, String>)
    ensures
        plays_received(*old(source), *old(sink), outcome, *final(source), *final(sink)),
{
    let given = source.next_frame();
    let ghost given_copy = given;
    assert(old(source).gives(given_copy, *source));
    match given {
        Err(error) => Err(error.message()),
        Ok(None) => Ok(false),
        Ok(Some(frame)) => {
            if !sink.can_receive() {
                return Ok(false);
            }
            let taken = sink.handle_frame(frame);
            let ghost taken_copy = taken;
            assert(old(sink).takes(frame@, taken_copy, *sink));
            match taken {
                Ok(_) => Ok(true),
                Err(error) => Err(error.message()),
            }
        },
    }
}

/// A source whose frames are recorded.
pub struct SourceRecorder<S: AudioSource> {
    pub source: S,
    pub sink: QueuedOpusFileSink,
}

impl<S: AudioSource> SourceRecorder<S> {
    /// A recorder of a source into a file.
    pub fn create(source: S, path: String, config: QueuedOpusFileSinkConfig) -> (recorder: Result<
        Self,
        MediaError,
    >)
        ensures
            match recorder {
                Ok(recorder) => {
                    &&& config.profile.is_opus()
                    &&& recorder.source == source
                    &&& recorder.sink.wf()
                    &&& recorder.sink@ == (FileQueueModel {
                        path: path@,
                        config: QueuedOpusFileSinkConfig {
                            max_queued_frames: crate::line_sink::at_least(
                                config.max_queued_frames,
                                1,
                            ),
                            autostart_min: crate::line_sink::at_least(config.autostart_min, 1),
                            ..config
                        },
                        queue: Seq::empty(),
                        running: false,
                        stopped: false,
                        finalized: false,
                        working: false,
                    })
                },
                Err(error) => !config.profile.is_opus() && (error matches MediaError::Codec(error)
                    && crate::opus_codec::not_opus(config.profile, error)),
            },
    {
        match QueuedOpusFileSink::create(path, config) {
            Ok(sink) => Ok(SourceRecorder { source, sink }),
            Err(error) => Err(error),
        }
    }

    /// The source.
    pub fn source(&self) -> (source: &S)
        ensures
            *source == self.source,
    {
        &self.source
    }

    /// The source, to be changed in place.
    pub fn source_mut(&mut self) -> (source: &mut S)
        ensures
            *source == old(self).source,
            *final(self) == (SourceRecorder { source: *final(source), ..*old(self) }),
    {
        &mut self.source
    }

    /// How many frames wait.
    pub fn frames_waiting(&self) -> (count: usize)
        ensures
            count == self.sink@.queue.len(),
    {
        self.sink.frames_waiting()
    }

    /// Whether a frame is taken now.
    pub fn can_receive(&self) -> (ready: bool)
        ensures
            ready == (self.sink@.refusal() is None),
    {
        self.sink.can_receive()
    }

    /// Whether the source gives frames now.
    pub fn is_recording(&self) -> (recording: bool)
        ensures
            recording == self.source.running(),
    {
        self.source.is_running()
    }

    /// Lets the source give frames.
    pub fn start(&mut self)
        ensures
            old(self).source.starts(final(self).source),
            final(self).sink == old(self).sink,
    {
        self.source.start();
    }

    /// Lets the source give no more frames and the file take no more, and says whether there is
    /// a worker that is to be waited for.
    pub fn stop(&mut self) -> (wait: bool)
        requires
            old(self).sink.wf(),
        ensures
            final(self).sink.wf(),
            old(self).source.stops(final(self).source),
            final(self).sink@ == (FileQueueModel { stopped: true, ..old(self).sink@ }),
            wait == old(self).sink@.working,
    {
        self.source.stop();
        self.sink.stop()
    }

    /// Records the next frame, and says whether there was one. Nothing is asked of the source
    /// unless the file takes a frame.
    pub fn process_next(&mut self) -> (outcome: Result<bool, MediaError>)
        requires
            old(self).sink.wf(),
        ensures
            final(self).sink.wf(),
            old(self).sink@.refusal() is Some ==> {
                &&& outcome == Ok::<bool, MediaError>(false)
                &&& *final(self) == *old(self)
            },
            old(self).sink@.refusal() is None ==> exists|
                given: Result<Option<AudioFrame>, PipelineError>,
            |
                {
                    &&& #[trigger] old(self).source.gives(given, final(self).source)
                    &&& match given {
                        Err(error) => {
                            &&& outcome == Err::<bool, MediaError>(MediaError::Pipeline(error))
                            &&& final(self).sink == old(self).sink
                        },
                        Ok(None) => {
                            &&& outcome == Ok::<bool, MediaError>(false)
                            &&& final(self).sink == old(self).sink
                        },
                        Ok(Some(frame)) => {
                            &&& outcome == Ok::<bool, MediaError>(true)
                            &&& final(self).sink@ == old(self).sink@.with_frame(frame@)
                        },
                    }
                },
    {
        if !self.sink.can_receive() {
            return Ok(false);
        }
        let given = self.source.next_frame();
        let ghost given_copy = given;
        assert(old(self).source.gives(given_copy, self.source));
        match given {
            Err(error) => Err(MediaError::Pipeline(error)),
            Ok(None) => Ok(false),
            Ok(Some(frame)) => {
                let handled = self.sink.handle_frame(frame);
                assert(old(self).source.gives(given_copy, self.source));
                match handled {
                    Ok(()) => Ok(true),
                    Err(error) => Err(error),
                }
            },
        }
    }
}

/// The place in a stream is counted in forty-eighths of a millisecond: samples at any rate move
/// it by the time that they last, a part of a forty-eighth left out.
pub proof fn law_place_is_counted_in_time(sample_count: int, samplerate: int)
    requires
        0 <= sample_count,
        sample_count * 48_000 <= usize::MAX,
        samplerate > 0,
    ensures
        granules(sample_count, samplerate) * samplerate <= 48_000 * sample_count,
        48_000 * sample_count < (granules(sample_count, samplerate) + 1) * samplerate,
        samplerate == 48_000 ==> granules(sample_count, samplerate) == sample_count,
{
    let total = sample_count * 48_000;
    vstd::arithmetic::div_mod::lemma_fundamental_div_mod(total, samplerate);
    vstd::arithmetic::div_mod::lemma_mod_bound(total, samplerate);
    let count = granules(sample_count, samplerate);
    assert(count * samplerate == samplerate * count) by (nonlinear_arith);
    assert((count + 1) * samplerate == samplerate * count + samplerate) by (nonlinear_arith);
}

/// Samples that are too many to be counted so move the place as far as can be counted.
pub proof fn law_place_is_counted_as_far_as_can_be(sample_count: int, samplerate: int)
    requires
        sample_count * 48_000 > usize::MAX,
        samplerate > 0,
    ensures
        granules(sample_count, samplerate) * samplerate <= usize::MAX,
        usize::MAX < (granules(sample_count, samplerate) + 1) * samplerate,
{
    let total = usize::MAX as int;
    vstd::arithmetic::div_mod::lemma_fundamental_div_mod(total, samplerate);
    vstd::arithmetic::div_mod::lemma_mod_bound(total, samplerate);
    let count = granules(sample_count, samplerate);
    assert(count * samplerate == samplerate * count) by (nonlinear_arith);
    assert((count + 1) * samplerate == samplerate * count + samplerate) by (nonlinear_arith);
}

/// A frame of some milliseconds moves the place by forty-eight times as many, in a file of
/// whatever profile.
pub proof fn law_frame_moves_the_place_by_its_time(profile: CodecProfile, millis: int)
    requires
        profile.is_opus(),
        0 <= millis,
        millis * 48 * 48_000 <= usize::MAX,
    ensures
        granules(millis * (profile.limits().1 as int / 1000), profile.limits().1 as int) == 48
            * millis,
{
    let rate = profile.limits().1 as int;
    let count = millis * (rate / 1000);
    assert(count * 48_000 == (48 * millis) * rate && 0 <= count <= millis * 48)
        by (nonlinear_arith)
        requires
            count == millis * (rate / 1000),
            millis >= 0,
            rate == 8_000 || rate == 12_000 || rate == 24_000 || rate == 48_000,
    ;
    vstd::arithmetic::div_mod::lemma_fundamental_div_mod_converse(
        count * 48_000,
        rate,
        48 * millis,
        0,
    );
}

/// A frame that is written moves the place in the stream by the time that it lasts in the file,
/// and its packet ends there, behind what is not to be played. A frame that is not encoded
/// moves nothing.
pub proof fn law_written_frame_moves_the_place<C: AudioCodec>(
    before: OpusFileSink<C>,
    frame: AudioModel,
    remember_duration: bool,
    outcome: Result<OggModel, MediaError>,
    after: OpusFileSink<C>,
)
    requires
        before.wf(),
        frame.wf(),
        before.countable(frame),
        before.writes_frame(frame, remember_duration, outcome, after),
    ensures
        after.profile == before.profile,
        after.finalized == before.finalized,
        match outcome {
            Ok(packet) => {
                let rate = before.profile.limits().1;
                let count = crate::opus_codec::resampled_frames(frame, rate);
                let step = after.samples_written_48k - before.samples_written_48k;
                &&& packet.granule == after.samples_written_48k + 312
                &&& packet.serial == 0x4c58_5354
                &&& packet.end is NormalPacket
                &&& count * 48_000 <= usize::MAX ==> step * rate <= 48_000 * count && 48_000 * count
                    < (step + 1) * rate
                &&& after.last_output_frame_samples == (if remember_duration {
                    Some(count as usize)
                } else {
                    before.last_output_frame_samples
                })
                &&& exists|data: Vec<u8>| #[trigger]
                    before.codec.encodes(frame, Ok(data), after.codec) && packet.data == data@
            },
            Err(error) => {
                &&& after.samples_written_48k == before.samples_written_48k
                &&& after.last_output_frame_samples == before.last_output_frame_samples
                &&& error matches MediaError::Codec(reason) && before.codec.encodes(
                    frame,
                    Err(reason),
                    after.codec,
                )
            },
        },
{
    let rate = before.profile.limits().1;
    let count = crate::opus_codec::resampled_frames(frame, rate);
    if frame.samplerate != rate && frame.samples.len() > 0 {
        crate::audio::law_resampling_keeps_the_length(
            frame.frame_count() as int,
            frame.samplerate as int,
            rate as int,
        );
    }
    lemma_granules(count, rate as int);
    if count * 48_000 <= usize::MAX {
        law_place_is_counted_in_time(count, rate as int);
    }
}

/// The silence that ends a file lasts as long as the last frame, in the format of the file:
/// there are ten frames of it, and none in a file without frames.
pub proof fn law_silence_is_as_long_as_the_last_frame<C: AudioCodec>(file: OpusFileSink<C>)
    requires
        file.wf(),
    ensures
        file.last_output_frame_samples is None ==> file.closing_frames() == 0,
        file.last_output_frame_samples matches Some(count) ==> {
            let silence = file.closing_silence();
            &&& file.closing_frames() == 10
            &&& silence.samplerate == file.profile.limits().1
            &&& silence.channels == file.profile.limits().0
            &&& silence.samples.len() == count * file.profile.limits().0
            &&& silence.wf()
            &&& crate::opus_codec::resampled_frames(silence, file.profile.limits().1) == count
            &&& forall|i: int| 0 <= i < silence.samples.len() ==> #[trigger] silence.samples[i] == 0
        },
{
    if let Some(count) = file.last_output_frame_samples {
        let channels = file.profile.limits().0 as int;
        assert(count * channels >= 0) by (nonlinear_arith)
            requires
                count >= 0,
                channels >= 0,
        ;
        vstd::arithmetic::div_mod::lemma_div_multiples_vanish(count as int, channels);
        vstd::arithmetic::div_mod::lemma_mod_multiples_basic(count as int, channels);
        vstd::arithmetic::mul::lemma_mul_is_commutative(count as int, channels);
    }
}

proof fn lemma_silence_moves_the_place<C: AudioCodec>(
    sink: OpusFileSink<C>,
    silence: AudioModel,
    times: int,
    packets: Seq<OggModel>,
    outcome: Result<(), MediaError>,
    after: OpusFileSink<C>,
)
    requires
        times >= 0,
        sink.writes_silence(silence, times, packets, outcome, after),
        outcome is Ok,
        granules(sink.output_samples(silence), sink.rate() as int) >= 0,
        sink.samples_written_48k + times * granules(
            sink.output_samples(silence),
            sink.rate() as int,
        ) + OPUS_PRESKIP <= u64::MAX,
    ensures
        packets.len() == times,
        after.profile == sink.profile,
        after.samples_written_48k == sink.samples_written_48k + times * granules(
            sink.output_samples(silence),
            sink.rate() as int,
        ),
        after.last_output_frame_samples == sink.last_output_frame_samples,
        forall|i: int|
            0 <= i < packets.len() ==> (#[trigger] packets[i]).granule == sink.samples_written_48k
                + (i + 1) * granules(sink.output_samples(silence), sink.rate() as int) + 312
                && packets[i].serial == 0x4c58_5354,
    decreases times,
{
    let step = granules(sink.output_samples(silence), sink.rate() as int);
    if times > 0 {
        let (first, middle): (Result<OggModel, MediaError>, OpusFileSink<C>) = choose|
            first: Result<OggModel, MediaError>,
            middle: OpusFileSink<C>,
        |
            {
                &&& #[trigger] sink.writes_frame(silence, false, first, middle)
                &&& match first {
                    Err(error) => packets.len() == 0 && outcome == Err::<(), MediaError>(error)
                        && after == middle,
                    Ok(packet) => packets.len() > 0 && packets[0] == packet
                        && middle.writes_silence(
                        silence,
                        times - 1,
                        packets.skip(1),
                        outcome,
                        after,
                    ),
                }
            };
        assert(times * step == step + (times - 1) * step) by (nonlinear_arith);
        assert((times - 1) * step >= 0) by (nonlinear_arith)
            requires
                times >= 1,
                step >= 0,
        ;
        assert(middle.samples_written_48k == sink.samples_written_48k + step);
        lemma_silence_moves_the_place(middle, silence, times - 1, packets.skip(1), outcome, after);
        assert forall|i: int| 0 <= i < packets.len() implies (#[trigger] packets[i]).granule
            == sink.samples_written_48k + (i + 1) * step + 312 && packets[i].serial
            == 0x4c58_5354 by {
            if i > 0 {
                assert(packets[i] == packets.skip(1)[i - 1]);
                assert((i + 1) * step == i * step + step) by (nonlinear_arith);
            }
        }
    } else {
        assert(0 * step == 0);
    }
}

/// A file that is ended without a failure goes on by the time of its silence: every packet of
/// it ends one frame later than the one before, and the packet that ends the stream ends where
/// the last of them does.
pub proof fn law_ended_file_is_as_long_as_its_frames<C: AudioCodec>(
    before: OpusFileSink<C>,
    packets: Seq<OggModel>,
    after: OpusFileSink<C>,
)
    requires
        before.wf(),
        before.closable(),
        before.closes(packets, Ok::<(), MediaError>(()), after),
    ensures
        ({
            let step = match before.last_output_frame_samples {
                Some(count) => granules(count as int, before.profile.limits().1 as int),
                None => 0,
            };
            let times: int = if before.last_output_frame_samples is Some {
                10
            } else {
                0
            };
            &&& packets.len() == times + 1
            &&& after.finalized
            &&& after.profile == before.profile
            &&& after.samples_written_48k == before.samples_written_48k + times * step
            &&& packets.last().granule == after.samples_written_48k + 312
            &&& packets.last().serial == 0x4c58_5354
            &&& forall|i: int|
                0 <= i < times ==> (#[trigger] packets[i]).granule == before.samples_written_48k
                    + (i + 1) * step + 312
        }),
{
    law_silence_is_as_long_as_the_last_frame(before);
    let (silent, ended, middle): (
        Seq<OggModel>,
        Result<(), MediaError>,
        OpusFileSink<C>,
    ) = choose|silent: Seq<OggModel>, ended: Result<(), MediaError>, middle: OpusFileSink<C>|
        {
            &&& #[trigger] before.writes_silence(
                before.closing_silence(),
                before.closing_frames(),
                silent,
                ended,
                middle,
            )
            &&& match ended {
                Err(error) => {
                    &&& packets == silent
                    &&& Ok::<(), MediaError>(()) == Err::<(), MediaError>(error)
                    &&& after == middle
                },
                Ok(_) => {
                    &&& packets == silent.push(
                        OggModel {
                            data: Seq::empty(),
                            serial: OPUS_SERIAL,
                            end: PacketEnd::EndStream,
                            granule: (middle.samples_written_48k + OPUS_PRESKIP) as u64,
                        },
                    )
                    &&& after == (OpusFileSink { finalized: true, ..middle })
                },
            }
        };
    match before.last_output_frame_samples {
        Some(count) => {
            lemma_granules(count as int, before.rate() as int);
            lemma_silence_moves_the_place(
                before,
                before.closing_silence(),
                10,
                silent,
                ended,
                middle,
            );
        },
        None => {},
    }
}

/// The first packet of a stream holds the channels, the samples that are not to be played and
/// the sample rate, the lowest byte first, behind its name and version.
pub proof fn law_header_is_read_as_it_is_written(
    data: Seq<u8>,
    channels: u8,
    input_samplerate: u32,
)
    requires
        is_opus_head(data, channels, input_samplerate),
    ensures
        data.len() == 19,
        data.take(8) == seq![79u8, 112u8, 117u8, 115u8, 72u8, 101u8, 97u8, 100u8],
        data[8] == 1,
        data[9] == channels,
        data[10] + 256 * data[11] == 312,
        data[12] + 256 * data[13] + 65_536 * data[14] + 16_777_216 * data[15] == input_samplerate,
        data[16] == 0 && data[17] == 0 && data[18] == 0,
        OpusHeader::heads(data),
        OpusHeader::of_bytes(data).channels == channels,
        OpusHeader::of_bytes(data).preskip == 312,
        OpusHeader::of_bytes(data).input_samplerate == input_samplerate,
{
}

/// What a packet says is where it stands, whatever comes behind; only packets that are long
/// enough and have the name are headers.
pub proof fn law_header_stands_in_its_place(data: Seq<u8>)
    ensures
        OpusHeader::heads(data) <==> data.len() >= 19 && data.take(8) == seq![
            79u8,
            112u8,
            117u8,
            115u8,
            72u8,
            101u8,
            97u8,
            100u8,
        ],
        data.len() >= 19 ==> {
            let header = OpusHeader::of_bytes(data);
            &&& header.channels == data[9]
            &&& header.preskip == data[10] + 256 * data[11]
            &&& header.input_samplerate == data[12] + 256 * data[13] + 65_536 * data[14]
                + 16_777_216 * data[15]
        },
{
}

/// The second packet of a stream is told by its name, names who wrote it, and has no comments.
pub proof fn law_tags_are_told_by_their_name(data: Seq<u8>)
    ensures
        begins(data, tags_magic()) <==> data.len() >= 8 && data.take(8) == seq![
            79u8,
            112u8,
            117u8,
            115u8,
            84u8,
            97u8,
            103u8,
            115u8,
        ],
        begins(opus_tag_bytes(), tags_magic()),
        opus_tag_bytes().len() == 12 + opus_tag_bytes()[8] + 4,
        opus_tag_bytes().skip(19) == seq![0u8, 0u8, 0u8, 0u8],
{
    assert(opus_tag_bytes().take(8) =~= tags_magic());
    assert(opus_tag_bytes().skip(19) =~= seq![0u8, 0u8, 0u8, 0u8]);
}

/// A stream of any format is decoded with a profile of Opus: one of that format where there is
/// one, else the one with two channels at 48 kHz.
pub proof fn law_every_format_is_decoded(channels: u8, samplerate: u32, profile: CodecProfile)
    requires
        profile.is_opus(),
    ensures
        file_profile(channels, samplerate).is_opus(),
        profile.limits().0 == channels && profile.limits().1 == samplerate ==> file_profile(
            channels,
            samplerate,
        ).limits().0 == channels && file_profile(channels, samplerate).limits().1 == samplerate,
        !(file_profile(channels, samplerate).limits().0 == channels && file_profile(
            channels,
            samplerate,
        ).limits().1 == samplerate) ==> file_profile(channels, samplerate)
            == CodecProfile::OpusAudioMax,
        !(file_profile(channels, samplerate) is OpusVoiceLow || file_profile(channels, samplerate)
            is OpusVoiceMax || file_profile(channels, samplerate) is OpusAudioHigh),
{
}

/// A frame lasts as long as it is to, a started sample counted in full, and no less than a
/// millisecond.
pub proof fn law_frame_samples_cover_the_time(samplerate: u32, target_frame_ms: u16)
    ensures
        ({
            let millis: int = if target_frame_ms == 0 {
                1
            } else {
                target_frame_ms as int
            };
            let samples = frame_samples(samplerate, target_frame_ms);
            &&& samplerate * millis <= 1000 * samples
            &&& 1000 * samples < samplerate * millis + 1000
        }),
{
}

/// A queue takes a frame exactly if it was not stopped and is not full, and says which of them
/// it was. The frame then waits behind the others; writing starts by itself once enough frames
/// wait, where that is wanted, and nothing else changes.
pub proof fn law_frames_wait_in_order(queue: FileQueueModel, frame: AudioModel)
    ensures
        queue.refusal() is None <==> !queue.stopped && queue.queue.len()
            < queue.config.max_queued_frames,
        queue.stopped ==> queue.refusal() == Some(MediaError::SinkClosed),
        !queue.stopped && queue.queue.len() >= queue.config.max_queued_frames ==> queue.refusal()
            == Some(MediaError::SinkFull),
        ({
            let after = queue.with_frame(frame);
            let starts = queue.config.autodigest && !queue.running && queue.queue.len() + 1
                >= queue.config.autostart_min;
            &&& after.queue == queue.queue.push(frame)
            &&& after.running == (queue.running || starts)
            &&& after.working == (queue.working || starts)
            &&& after.stopped == queue.stopped
            &&& after.finalized == queue.finalized
            &&& after.path == queue.path
            &&& after.config == queue.config
        }),
        queue.started() == (FileQueueModel { running: true, working: true, ..queue }),
{
}

/// A file that was stopped, or whose next frame is not due, gives nothing and stays as it is; a
/// file at its end that is not played again gives nothing and stops.
pub proof fn law_file_gives_nothing_before_its_time(file: FileSourceModel, now: Nanos)
    requires
        file.sound(),
    ensures
        !file.running || (file.timed && file.next_frame_at is Some && now
            < file.next_frame_at->0) ==> file.given(now) is None && file.advanced(now) == file,
        file.running && !(file.timed && file.next_frame_at is Some && now
            < file.next_frame_at->0) ==> {
            let last = file.samples.len() as int / file.channels as int;
            &&& file.given(now) is None <==> file.position >= last && !file.looping
            &&& file.given(now) is None ==> file.advanced(now) == (FileSourceModel {
                running: false,
                ..file
            })
        },
{
}

/// A frame of a file begins where the last one ended, or at the start of a file that is played
/// again, and is as long as a frame is to be, or as what is left. It has the format of the
/// file, and the next one is due when it is over.
pub proof fn law_file_goes_on_where_it_was(file: FileSourceModel, now: Nanos, index: int)
    requires
        file.sound(),
        file.given(now) is Some,
        now + file.frame_time <= u64::MAX,
    ensures
        ({
            let last = file.samples.len() as int / file.channels as int;
            let start = if file.position >= last {
                0
            } else {
                file.position
            };
            let frame = file.given(now)->0;
            let after = file.advanced(now);
            let count = after.position - start;
            &&& frame.samplerate == file.samplerate
            &&& frame.channels == file.channels
            &&& count == (if file.samples_per_frame <= last - start {
                file.samples_per_frame as int
            } else {
                last - start
            })
            &&& frame.samples.len() == count * file.channels
            &&& 0 <= index < frame.samples.len() ==> frame.samples[index] == file.samples[start
                * file.channels + index]
            &&& file.timed ==> after.next_frame_at == Some((now + file.frame_time) as Nanos)
            &&& !file.timed ==> after.next_frame_at == file.next_frame_at
            &&& after == (FileSourceModel {
                position: after.position,
                next_frame_at: after.next_frame_at,
                ..file
            })
        }),
{
    let channels = file.channels as int;
    let last = file.samples.len() as int / channels;
    let start = file.next_start();
    let end = file.next_end();
    vstd::arithmetic::div_mod::lemma_fundamental_div_mod(file.samples.len() as int, channels);
    vstd::arithmetic::div_mod::lemma_mod_bound(file.samples.len() as int, channels);
    assert(0 <= start <= end <= last) by {
        vstd::arithmetic::div_mod::lemma_div_pos_is_pos(file.samples.len() as int, channels);
    }
    assert(0 <= start * channels <= end * channels <= last * channels) by (nonlinear_arith)
        requires
            0 <= start <= end <= last,
            channels > 0,
    ;
    vstd::arithmetic::mul::lemma_mul_is_commutative(last, channels);
    assert(end * channels - start * channels == (end - start) * channels) by (nonlinear_arith);
}

/// Exactly the samples that are not to be played are left out at the start of a file, of every
/// channel; a file that has no more than these is kept whole.
pub proof fn law_preskip_is_left_out(samples: Seq<Sample>, header: OpusHeader)
    ensures
        ({
            let count = header.preskip * header.channels;
            let kept = without_preskip(samples, header);
            &&& samples.len() > count ==> samples.take(count) + kept == samples
            &&& samples.len() <= count ==> kept == samples
        }),
{
    let count = header.preskip * header.channels;
    assert(count >= 0) by (nonlinear_arith)
        requires
            count == header.preskip * header.channels,
    ;
    if samples.len() > count {
        assert(samples.take(count) + without_preskip(samples, header) =~= samples);
    }
}

/// A player says that it played exactly if a frame of its source was taken by its sink, that
/// frame and no other.
pub proof fn law_played_frame_is_the_next<S: AudioSource, K: AudioFrameSink>(
    before: SourcePlayer<S, K>,
    outcome: Result<bool, MediaError>,
    after: SourcePlayer<S, K>,
)
    requires
        before.plays_next(outcome, after),
    ensures
        outcome == Ok::<bool, MediaError>(true) ==> exists|frame: AudioFrame|
            #[trigger] before.source.gives(Ok(Some(frame)), after.source) && before.sink.takes(
                frame@,
                Ok(()),
                after.sink,
            ),
        outcome == Ok::<bool, MediaError>(false) ==> after.sink == before.sink
            && before.source.gives(Ok(None), after.source),
        after.finished ==> before.finished || (before.source.running()
            && !after.source.running()),
        before.finished ==> after.finished,
        outcome == Ok::<bool, MediaError>(false) && before.source.running()
            && !after.source.running() ==> after.finished,
{
}

/// What was received is played in the same way: a frame that the sink cannot take now is
/// dropped.
pub proof fn law_received_frame_is_played<S: AudioSource, K: AudioFrameSink>(
    source: S,
    sink: K,
    outcome: Result<bool, String>,
    source_after: S,
    sink_after: K,
)
    requires
        plays_received(source, sink, outcome, source_after, sink_after),
    ensures
        outcome == Ok::<bool, String>(true) ==> sink.ready() && exists|frame: AudioFrame|
            #[trigger] source.gives(Ok(Some(frame)), source_after) && sink.takes(
                frame@,
                Ok(()),
                sink_after,
            ),
        outcome == Ok::<bool, String>(false) ==> sink_after == sink && (!sink.ready()
            || source.gives(Ok(None), source_after)),
        !sink.ready() ==> sink_after == sink,
{
    let given: Result<Option<AudioFrame>, PipelineError> = choose|
        given: Result<Option<AudioFrame>, PipelineError>,
    |
        {
            &&& #[trigger] source.gives(given, source_after)
            &&& match given {
                Err(error) => {
                    &&& outcome matches Err(text)
                    &&& text@ == error.text()
                    &&& sink_after == sink
                },
                Ok(None) => {
                    &&& outcome == Ok::<bool, String>(false)
                    &&& sink_after == sink
                },
                Ok(Some(frame)) => if sink.ready() {
                    exists|taken: Result<(), MediaError>|
                        {
                            &&& #[trigger] sink.takes(frame@, taken, sink_after)
                            &&& match taken {
                                Ok(_) => outcome == Ok::<bool, String>(true),
                                Err(error) => outcome matches Err(text) && text@ == error.text(),
                            }
                        }
                } else {
                    &&& outcome == Ok::<bool, String>(false)
                    &&& sink_after == sink
                },
            }
        };
    if let Ok(Some(frame)) = given {
        assert(source.gives(Ok(Some(frame)), source_after));
        if sink.ready() && outcome is Ok {
            let taken: Result<(), MediaError> = choose|taken: Result<(), MediaError>|
                {
                    &&& #[trigger] sink.takes(frame@, taken, sink_after)
                    &&& match taken {
                        Ok(_) => outcome == Ok::<bool, String>(true),
                        Err(error) => outcome matches Err(text) && text@ == error.text(),
                    }
                };
            assert(taken->Ok_0 == ());
            assert(taken == Ok::<(), MediaError>(()));
        }
    }
}

/// Packets are decoded one after another, each with the codec as the one before left it, and their
/// sound is put together in that order.
pub proof fn law_packets_are_decoded_in_order<C: AudioCodec>(
    codec: C,
    packet: Seq<u8>,
    packets: Seq<Seq<u8>>,
    samplerate: u32,
    decoded: AudioFrame,
    middle: C,
    samples: Seq<Sample>,
    outcome: Result<(), MediaError>,
    after: C,
)
    requires
        packet.len() > 0,
        codec.decodes(packet, samplerate, Ok::<AudioFrame, CodecError>(decoded), middle),
        decodes_packets(middle, packets, samplerate, samples, outcome, after),
    ensures
        decodes_packets(
            codec,
            seq![packet] + packets,
            samplerate,
            decoded@.samples + samples,
            outcome,
            after,
        ),
{
    let all = seq![packet] + packets;
    let sound = decoded@.samples + samples;
    assert(all.skip(1) =~= packets);
    assert(all[0] == packet);
    assert(sound.take(decoded@.samples.len() as int) =~= decoded@.samples);
    assert(sound.skip(decoded@.samples.len() as int) =~= samples);
    assert(codec.decodes(
        all[0],
        samplerate,
        Ok::<AudioFrame, CodecError>(decoded),
        middle,
    ));
}

/// Whatever comes out of packets is what the codec made of them: nothing comes of no packets, an
/// empty one is passed over, and one that cannot be decoded ends it with the error of the codec.
pub proof fn law_only_packets_give_sound<C: AudioCodec>(
    codec: C,
    packets: Seq<Seq<u8>>,
    samplerate: u32,
    samples: Seq<Sample>,
    outcome: Result<(), MediaError>,
    after: C,
)
    requires
        decodes_packets(codec, packets, samplerate, samples, outcome, after),
    ensures
        packets.len() == 0 ==> samples.len() == 0 && outcome is Ok && after == codec,
        packets.len() > 0 && packets[0].len() == 0 ==> decodes_packets(
            codec,
            packets.skip(1),
            samplerate,
            samples,
            outcome,
            after,
        ),
        packets.len() > 0 && packets[0].len() > 0 ==> exists|
            decoded: Result<AudioFrame, CodecError>,
            middle: C,
        |
            {
                &&& #[trigger] codec.decodes(packets[0], samplerate, decoded, middle)
                &&& decoded matches Ok(frame) ==> {
                    &&& samples == frame@.samples + samples.skip(frame@.samples.len() as int)
                    &&& decodes_packets(
                        middle,
                        packets.skip(1),
                        samplerate,
                        samples.skip(frame@.samples.len() as int),
                        outcome,
                        after,
                    )
                }
                &&& decoded matches Err(error) ==> {
                    &&& samples.len() == 0
                    &&& outcome == Err::<(), MediaError>(MediaError::Codec(error))
                }
            },
{
    if packets.len() > 0 && packets[0].len() > 0 {
        let (decoded, middle) = choose|decoded: Result<AudioFrame, CodecError>, middle: C|
            {
                &&& #[trigger] codec.decodes(packets[0], samplerate, decoded, middle)
                &&& match decoded {
                    Err(error) => samples.len() == 0 && outcome == Err::<(), MediaError>(
                        MediaError::Codec(error),
                    ) && after == middle,
                    Ok(frame) => begins_with(samples, frame@.samples) && decodes_packets(
                        middle,
                        packets.skip(1),
                        samplerate,
                        samples.skip(frame@.samples.len() as int),
                        outcome,
                        after,
                    ),
                }
            };
        if let Ok(frame) = decoded {
            assert(samples =~= frame@.samples + samples.skip(frame@.samples.len() as int));
        }
    }
}

} // verus!
