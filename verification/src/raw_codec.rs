//! Raw frames: a header byte, then the samples as little-endian floating point numbers.
use crate::audio::{AudioError, AudioFrame, AudioModel, Sample};
use crate::audio_codec::{AudioCodec, CodecError};
use crate::codec::{CodecKind, RawBitDepth, RawFrameHeader, RawFrameHeaderError, MAX_RAW_CHANNELS};
use crate::float_bits::{narrow_double, narrow_to_half, widen_half, widen_to_double};
use crate::text::decimal;
use vstd::prelude::*;

verus! {

/// The number that `size` bytes from `start` on are, the lowest byte first.
pub open spec fn word_at(bytes: Seq<u8>, start: int, size: nat) -> nat
    decreases size,
{
    if size == 0 {
        0
    } else {
        bytes[start] as nat + 256 * word_at(bytes, start + 1, (size - 1) as nat)
    }
}

/// How many bytes a sample takes.
pub open spec fn sample_width(bit_depth: RawBitDepth) -> nat {
    match bit_depth {
        RawBitDepth::Float16 => 2,
        RawBitDepth::Float32 => 4,
        RawBitDepth::Float64 => 8,
        RawBitDepth::Float128 => 16,
    }
}

/// Whether a sample is written as the word `word`: as the nearest half-precision number, as
/// it is, or as the same double-precision number.
pub open spec fn writes_sample(bit_depth: RawBitDepth, sample: Sample, word: nat) -> bool {
    match bit_depth {
        RawBitDepth::Float16 => word <= u16::MAX && crate::float_bits::half_for(
            sample,
            word as u16,
        ),
        RawBitDepth::Float32 => word == sample,
        RawBitDepth::Float64 => word <= u64::MAX && crate::float_bits::double_for(
            sample,
            word as u64,
        ),
        RawBitDepth::Float128 => false,
    }
}

/// Whether the word `word` is read as a sample: as the same number, as it is, or as the
/// nearest single-precision number.
pub open spec fn reads_sample(bit_depth: RawBitDepth, word: nat, sample: Sample) -> bool {
    match bit_depth {
        RawBitDepth::Float16 => word <= u16::MAX && crate::float_bits::sample_for_half(
            word as u16,
            sample,
        ),
        RawBitDepth::Float32 => word == sample,
        RawBitDepth::Float64 => word <= u64::MAX && crate::float_bits::sample_for_double(
            word as u64,
            sample,
        ),
        RawBitDepth::Float128 => false,
    }
}

/// Whether the bytes are a raw frame of the given header and samples.
pub open spec fn raw_bytes(header: RawFrameHeader, samples: Seq<Sample>, bytes: Seq<u8>) -> bool {
    &&& bytes.len() == 1 + samples.len() * sample_width(header.bit_depth)
    &&& bytes[0] == header.byte()
    &&& forall|i: int|
        0 <= i < samples.len() ==> writes_sample(
            header.bit_depth,
            #[trigger] samples[i],
            word_at(
                bytes,
                1 + i * sample_width(header.bit_depth),
                sample_width(header.bit_depth),
            ),
        )
}

/// The error text of samples that no number type here has.
pub open spec fn unsupported_depth(bit_depth: RawBitDepth) -> Seq<char> {
    "raw "@ + crate::text::decimal_text(bit_depth.width() as nat)
        + "-bit samples are not implemented"@
}

/// Reading back what was written gives the sample, where it is a number: for single and
/// double precision any number, for half precision one that it holds.
pub proof fn law_raw_sample_round_trip(
    bit_depth: RawBitDepth,
    sample: Sample,
    word: nat,
    back: Sample,
)
    requires
        writes_sample(bit_depth, sample, word),
        reads_sample(bit_depth, word, back),
        bit_depth is Float64 ==> crate::float_bits::sample_size(sample) <= 0x7f80_0000,
        bit_depth is Float16 ==> exists|half: u16|
            crate::float_bits::half_size(half) <= 0x7c00
                && #[trigger] crate::float_bits::sample_for_half(half, sample),
    ensures
        back == sample,
{
    match bit_depth {
        RawBitDepth::Float16 => {
            let half = choose|half: u16|
                crate::float_bits::half_size(half) <= 0x7c00
                    && #[trigger] crate::float_bits::sample_for_half(half, sample);
            crate::float_bits::law_half_round_trip(half, sample, word as u16);
            crate::float_bits::law_units_are_distinct(
                crate::float_bits::sample_size(sample),
                crate::float_bits::sample_size(back),
                23,
            );
        },
        RawBitDepth::Float64 => {
            crate::float_bits::law_double_round_trip(sample, word as u64, back);
        },
        _ => {},
    }
}

/// The raw codec.
#[derive(Debug, Clone, Copy, PartialEq, Eq, Structural)]
pub struct RawCodec {
    bit_depth: RawBitDepth,
    fixed_channels: Option<u8>,
    channels: Option<u8>,
}

impl RawCodec {
    /// How wide samples are written.
    pub closed spec fn depth(&self) -> RawBitDepth {
        self.bit_depth
    }

    /// The number of channels that every frame is given, if it is fixed.
    pub closed spec fn fixed(&self) -> Option<u8> {
        self.fixed_channels
    }

    /// The number of channels that was seen last.
    pub closed spec fn seen(&self) -> Option<u8> {
        self.channels
    }

    /// The number of channels that a frame of `channels` channels is written with.
    pub open spec fn written_channels(&self, channels: u8) -> u8 {
        match self.fixed() {
            Some(fixed) => fixed,
            None => channels,
        }
    }

    /// What holds of every raw codec.
    pub closed spec fn wf(&self) -> bool {
        self.fixed_channels matches Some(count) ==> 1 <= count <= MAX_RAW_CHANNELS
    }

    /// A raw codec that writes as many channels as a frame has.
    pub fn new(bit_depth: RawBitDepth) -> (codec: Self)
        ensures
            codec.depth() == bit_depth,
            codec.fixed() is None,
            codec.seen() is None,
    {
        RawCodec { bit_depth, fixed_channels: None, channels: None }
    }

    /// A raw codec that writes a fixed number of channels, from one to thirty-two.
    pub fn with_channels(bit_depth: RawBitDepth, channels: u8) -> (codec: Self)
        ensures
            codec.depth() == bit_depth,
            codec.fixed() == Some(
                if channels < 1 {
                    1u8
                } else if channels > MAX_RAW_CHANNELS {
                    MAX_RAW_CHANNELS
                } else {
                    channels
                },
            ),
            codec.seen() == codec.fixed(),
    {
        let channels: u8 = if channels < 1 {
            1
        } else if channels > MAX_RAW_CHANNELS {
            MAX_RAW_CHANNELS
        } else {
            channels
        };
        RawCodec { bit_depth, fixed_channels: Some(channels), channels: Some(channels) }
    }

    /// The number of channels that was seen last.
    pub fn channels(&self) -> (channels: Option<u8>)
        ensures
            channels == self.seen(),
    {
        self.channels
    }
}

impl Default for RawCodec {
    fn default() -> (codec: Self)
        ensures
            codec.depth() == RawBitDepth::Float32,
            codec.fixed() is None,
            codec.seen() is None,
    {
        RawCodec::new(RawBitDepth::Float32)
    }
}

/// A number of `size` bytes is below the size-th power of 256, and two numbers that agree in
/// all bytes are the same.
proof fn lemma_word_depends_on_bytes(left: Seq<u8>, right: Seq<u8>, start: int, size: nat)
    requires
        forall|i: int| start <= i < start + size ==> left[i] == right[i],
    ensures
        word_at(left, start, size) == word_at(right, start, size),
    decreases size,
{
    if size > 0 {
        lemma_word_depends_on_bytes(left, right, start + 1, (size - 1) as nat);
    }
}

fn push_word(bytes: &mut Vec<u8>, value: u64, size: usize)
    requires
        size <= 8,
        size < 8 ==> value < vstd::arithmetic::power::pow(256, size as nat),
    ensures
        final(bytes)@.len() == old(bytes)@.len() + size,
        final(bytes)@.take(old(bytes)@.len() as int) == old(bytes)@,
        word_at(final(bytes)@, old(bytes)@.len() as int, size as nat) == value,
    decreases size,
{
    let ghost start = bytes@.len() as int;
    if size > 0 {
        let low: u8 = (value % 256) as u8;
        bytes.push(low);
        let ghost before = bytes@;
        proof {
            vstd::arithmetic::power::lemma_pow1(256);
            vstd::arithmetic::power::lemma_pow_adds(256, 1, (size - 1) as nat);
            reveal_with_fuel(vstd::arithmetic::power::pow, 9);
        }
        push_word(bytes, value / 256, size - 1);
        proof {
            assert(bytes@[start] == before[start]) by {
                assert(bytes@.take(start + 1)[start] == before[start]);
            }
            assert(bytes@.take(start) =~= old(bytes)@) by {
                assert forall|i: int| 0 <= i < start implies bytes@[i] == old(bytes)@[i] by {
                    assert(bytes@.take(start + 1)[i] == before[i]);
                }
            }
        }
    } else {
        proof {
            vstd::arithmetic::power::lemma_pow0(256);
            assert(bytes@.take(start) =~= old(bytes)@);
        }
    }
}

fn read_word(bytes: &[u8], start: usize, size: usize) -> (value: u64)
    requires
        start + size <= bytes@.len(),
        size <= 8,
    ensures
        value == word_at(bytes@, start as int, size as nat),
        value < vstd::arithmetic::power::pow(256, size as nat),
    decreases size,
{
    if size == 0 {
        proof {
            vstd::arithmetic::power::lemma_pow0(256);
        }
        0
    } else {
        assert(start < bytes.len());
        let rest = read_word(bytes, start + 1, size - 1);
        proof {
            reveal_with_fuel(vstd::arithmetic::power::pow, 10);
        }
        bytes[start] as u64 + 256 * rest
    }
}

fn width_of(bit_depth: RawBitDepth) -> (width: usize)
    ensures
        width == sample_width(bit_depth),
{
    match bit_depth {
        RawBitDepth::Float16 => 2,
        RawBitDepth::Float32 => 4,
        RawBitDepth::Float64 => 8,
        RawBitDepth::Float128 => 16,
    }
}

fn unsupported(bit_depth: RawBitDepth) -> (error: CodecError)
    ensures
        error matches CodecError::Unsupported(text) && text@ == unsupported_depth(bit_depth),
{
    CodecError::Unsupported(
        "raw ".to_owned().concat(decimal(bit_depth.bits() as u64).as_str()).concat(
            "-bit samples are not implemented",
        ),
    )
}

fn push_sample(bytes: &mut Vec<u8>, bit_depth: RawBitDepth, sample: Sample)
    requires
        !(bit_depth is Float128),
    ensures
        final(bytes)@.len() == old(bytes)@.len() + sample_width(bit_depth),
        final(bytes)@.take(old(bytes)@.len() as int) == old(bytes)@,
        writes_sample(
            bit_depth,
            sample,
            word_at(final(bytes)@, old(bytes)@.len() as int, sample_width(bit_depth)),
        ),
{
    proof {
        reveal_with_fuel(vstd::arithmetic::power::pow, 9);
    }
    match bit_depth {
        RawBitDepth::Float16 => push_word(bytes, narrow_to_half(sample) as u64, 2),
        RawBitDepth::Float32 => push_word(bytes, sample as u64, 4),
        _ => push_word(bytes, widen_to_double(sample), 8),
    }
}

fn read_sample(bytes: &[u8], start: usize, bit_depth: RawBitDepth) -> (sample: Sample)
    requires
        !(bit_depth is Float128),
        start + sample_width(bit_depth) <= bytes@.len(),
    ensures
        reads_sample(bit_depth, word_at(bytes@, start as int, sample_width(bit_depth)), sample),
{
    proof {
        reveal_with_fuel(vstd::arithmetic::power::pow, 9);
    }
    match bit_depth {
        RawBitDepth::Float16 => widen_half(read_word(bytes, start, 2) as u16),
        RawBitDepth::Float32 => read_word(bytes, start, 4) as u32,
        _ => narrow_double(read_word(bytes, start, 8)),
    }
}

/// What encoding a frame as a raw frame gives.
pub open spec fn raw_encoding(
    bit_depth: RawBitDepth,
    channels: u8,
    frame: AudioModel,
    outcome: Result<Vec<u8>, CodecError>,
) -> bool {
    match RawFrameHeader::build(bit_depth, channels) {
        Err(error) => outcome == Err::<Vec<u8>, CodecError>(CodecError::RawHeader(error)),
        Ok(header) => if bit_depth is Float128 {
            outcome matches Err(CodecError::Unsupported(text)) && text@ == unsupported_depth(
                bit_depth,
            )
        } else {
            outcome matches Ok(bytes) && raw_bytes(
                header,
                frame.with_channels(channels).samples,
                bytes@,
            )
        },
    }
}

/// What decoding bytes as a raw frame gives.
pub open spec fn raw_decoding(
    data: Seq<u8>,
    samplerate: u32,
    outcome: Result<AudioFrame, CodecError>,
) -> bool {
    if data.len() == 0 {
        outcome == Err::<AudioFrame, CodecError>(CodecError::EmptyFrame)
    } else {
        match RawFrameHeader::of_byte(data[0]) {
            Err(error) => outcome == Err::<AudioFrame, CodecError>(CodecError::RawHeader(error)),
            Ok(header) => {
                let width = sample_width(header.bit_depth);
                let len = (data.len() - 1) as nat;
                if header.bit_depth is Float128 {
                    outcome matches Err(CodecError::Unsupported(text)) && text@
                        == unsupported_depth(header.bit_depth)
                } else if len % width != 0 {
                    outcome == Err::<AudioFrame, CodecError>(
                        CodecError::InvalidPayloadLength(len as usize),
                    )
                } else {
                    match outcome {
                        Err(error) => crate::audio::frame_error(
                            samplerate,
                            header.channels,
                            len / width,
                        ) matches Some(reason) && error == CodecError::Audio(reason),
                        Ok(frame) => {
                            &&& crate::audio::frame_error(samplerate, header.channels, len / width)
                                is None
                            &&& frame.wf()
                            &&& frame@.samplerate == samplerate
                            &&& frame@.channels == header.channels
                            &&& frame@.samples.len() == len / width
                            &&& forall|i: int|
                                0 <= i < frame@.samples.len() ==> reads_sample(
                                    header.bit_depth,
                                    word_at(data, 1 + i * width, width),
                                    #[trigger] frame@.samples[i],
                                )
                        },
                    }
                }
            },
        }
    }
}

/// What is written as single-precision samples is read back as the frame, with the channels
/// that it was written with.
pub proof fn law_raw_frame_round_trip(
    channels: u8,
    frame: AudioModel,
    encoded: Result<Vec<u8>, CodecError>,
    decoded: Result<AudioFrame, CodecError>,
)
    requires
        frame.wf(),
        1 <= channels <= MAX_RAW_CHANNELS,
        raw_encoding(RawBitDepth::Float32, channels, frame, encoded),
        raw_decoding(encoded->Ok_0@, frame.samplerate, decoded),
    ensures
        decoded matches Ok(back) && back@ == frame.with_channels(channels),
{
    let bytes = encoded->Ok_0@;
    let header = RawFrameHeader { bit_depth: RawBitDepth::Float32, channels };
    let samples = frame.with_channels(channels).samples;
    crate::codec::law_raw_frame_header_round_trip(header);
    assert(RawFrameHeader::of_byte(bytes[0]) == Ok::<RawFrameHeader, RawFrameHeaderError>(header));
    let len = (bytes.len() - 1) as nat;
    assert(len == samples.len() * 4);
    assert(len % 4 == 0 && len / 4 == samples.len());
    let count = frame.frame_count() as int;
    assert(samples.len() == count * channels) by {
        assert(count * channels >= 0) by (nonlinear_arith)
            requires
                count >= 0,
                channels >= 0,
        ;
    }
    vstd::arithmetic::div_mod::lemma_mod_multiples_basic(count, channels as int);
    assert(crate::audio::frame_error(frame.samplerate, channels, samples.len()) is None);
    let back = decoded->Ok_0;
    assert(back@.samples =~= samples);
    assert(back@ =~= frame.with_channels(channels));
}

fn encode_raw(bit_depth: RawBitDepth, channels: u8, frame: &AudioFrame) -> (outcome: Result<
    Vec<u8>,
    CodecError,
>)
    ensures
        raw_encoding(bit_depth, channels, frame@, outcome),
{
    frame.recall();
    let header = match RawFrameHeader::new(bit_depth, channels) {
        Ok(header) => header,
        Err(error) => return Err(CodecError::RawHeader(error)),
    };
    if bit_depth == RawBitDepth::Float128 {
        return Err(unsupported(bit_depth));
    }
    let shaped = match frame.with_channels(channels) {
        Ok(shaped) => shaped,
        Err(error) => return Err(CodecError::Audio(error)),
    };
    let samples = shaped.samples();
    let ghost width = sample_width(bit_depth) as int;
    let mut bytes: Vec<u8> = Vec::new();
    bytes.push(header.encode());
    let mut i: usize = 0;
    while i < samples.len()
        invariant
            i <= samples@.len(),
            samples@ == shaped@.samples,
            !(bit_depth is Float128),
            width == sample_width(bit_depth),
            bytes@.len() == 1 + i * width,
            bytes@[0] == header.byte(),
            forall|j: int|
                0 <= j < i ==> writes_sample(
                    bit_depth,
                    #[trigger] samples@[j],
                    word_at(bytes@, 1 + j * width, width as nat),
                ),
        decreases samples.len() - i,
    {
        let ghost before = bytes@;
        push_sample(&mut bytes, bit_depth, samples[i]);
        proof {
            assert forall|k: int| 0 <= k < before.len() implies bytes@[k] == before[k] by {
                assert(bytes@.take(before.len() as int)[k] == before[k]);
            }
            assert((i + 1) * width == i * width + width) by (nonlinear_arith);
            assert(i * width >= 0) by (nonlinear_arith)
                requires
                    i >= 0,
                    width >= 0,
            ;
            assert forall|j: int| 0 <= j < i + 1 implies writes_sample(
                bit_depth,
                #[trigger] samples@[j],
                word_at(bytes@, 1 + j * width, width as nat),
            ) by {
                if j < i {
                    assert(1 + j * width + width <= before.len()) by (nonlinear_arith)
                        requires
                            j + 1 <= i,
                            width > 0,
                            before.len() == 1 + i * width,
                    ;
                    assert(0 <= j * width) by (nonlinear_arith)
                        requires
                            0 <= j,
                            width > 0,
                    ;
                    lemma_word_depends_on_bytes(
                        bytes@,
                        before,
                        1 + j * width,
                        width as nat,
                    );
                    assert(writes_sample(
                        bit_depth,
                        samples@[j],
                        word_at(before, 1 + j * width, width as nat),
                    ));
                }
            }
        }
        i += 1;
    }
    Ok(bytes)
}

fn decode_raw(data: &[u8], samplerate: u32) -> (outcome: Result<AudioFrame, CodecError>)
    ensures
        raw_decoding(data@, samplerate, outcome),
{
    if data.len() == 0 {
        return Err(CodecError::EmptyFrame);
    }
    let header = match RawFrameHeader::decode(data[0]) {
        Ok(header) => header,
        Err(error) => return Err(CodecError::RawHeader(error)),
    };
    if header.bit_depth == RawBitDepth::Float128 {
        return Err(unsupported(header.bit_depth));
    }
    let len: usize = data.len() - 1;
    let width: usize = width_of(header.bit_depth);
    if len % width != 0 {
        return Err(CodecError::InvalidPayloadLength(len));
    }
    let count: usize = len / width;
    let mut samples: Vec<Sample> = Vec::new();
    let mut i: usize = 0;
    while i < count
        invariant
            i <= count,
            !(header.bit_depth is Float128),
            data@.len() == len + 1,
            data@.len() <= usize::MAX,
            width == sample_width(header.bit_depth),
            count == len as int / width as int,
            samples@.len() == i,
            forall|j: int|
                0 <= j < i ==> reads_sample(
                    header.bit_depth,
                    word_at(data@, 1 + j * width, width as nat),
                    #[trigger] samples@[j],
                ),
        decreases count - i,
    {
        proof {
            vstd::arithmetic::div_mod::lemma_fundamental_div_mod(len as int, width as int);
            assert(i * width + width <= len) by (nonlinear_arith)
                requires
                    i + 1 <= count,
                    len >= width * count,
                    width > 0,
            ;
            assert(0 <= i * width) by (nonlinear_arith)
                requires
                    0 <= i,
                    0 < width,
            ;
        }
        samples.push(read_sample(data, 1 + i * width, header.bit_depth));
        i += 1;
    }
    match AudioFrame::new(samplerate, header.channels, samples) {
        Ok(frame) => Ok(frame),
        Err(error) => Err(CodecError::Audio(error)),
    }
}

impl AudioCodec for RawCodec {
    open spec fn family(&self) -> CodecKind {
        CodecKind::Raw
    }

    /// The frame is written with the fixed number of channels, or with its own. That number
    /// is the one seen last, even where it cannot be written.
    open spec fn encodes(
        self,
        frame: AudioModel,
        outcome: Result<Vec<u8>, CodecError>,
        after: Self,
    ) -> bool {
        &&& raw_encoding(self.depth(), self.written_channels(frame.channels), frame, outcome)
        &&& after.depth() == self.depth()
        &&& after.fixed() == self.fixed()
        &&& after.seen() == Some(self.written_channels(frame.channels))
    }

    /// The bytes say how wide the samples are. The number of channels that the header says
    /// is the one seen last.
    open spec fn decodes(
        self,
        data: Seq<u8>,
        samplerate: u32,
        outcome: Result<AudioFrame, CodecError>,
        after: Self,
    ) -> bool {
        &&& raw_decoding(data, samplerate, outcome)
        &&& after.depth() == self.depth()
        &&& after.fixed() == self.fixed()
        &&& after.seen() == (if data.len() > 0 && RawFrameHeader::of_byte(data[0]) is Ok {
            Some(RawFrameHeader::of_byte(data[0])->Ok_0.channels)
        } else {
            self.seen()
        })
    }

    fn kind(&self) -> (kind: CodecKind) {
        CodecKind::Raw
    }

    fn encode(&mut self, frame: &AudioFrame) -> (outcome: Result<Vec<u8>, CodecError>) {
        let channels: u8 = match self.fixed_channels {
            Some(fixed) => fixed,
            None => frame.channels(),
        };
        self.channels = Some(channels);
        encode_raw(self.bit_depth, channels, frame)
    }

    fn decode(&mut self, data: &[u8], samplerate: u32) -> (outcome: Result<
        AudioFrame,
        CodecError,
    >) {
        if data.len() > 0 {
            if let Ok(header) = RawFrameHeader::decode(data[0]) {
                self.channels = Some(header.channels);
            }
        }
        decode_raw(data, samplerate)
    }
}

/// The codec that passes sound on as it is.
#[derive(Debug, Clone, Copy, PartialEq, Eq, Structural)]
pub struct NullCodec;

impl Default for NullCodec {
    fn default() -> (codec: Self)
        ensures
            codec == NullCodec,
    {
        NullCodec
    }
}

impl AudioCodec for NullCodec {
    open spec fn family(&self) -> CodecKind {
        CodecKind::Null
    }

    /// The frame is written as a raw frame of single-precision samples.
    open spec fn encodes(
        self,
        frame: AudioModel,
        outcome: Result<Vec<u8>, CodecError>,
        after: Self,
    ) -> bool {
        raw_encoding(RawBitDepth::Float32, frame.channels, frame, outcome)
    }

    /// The bytes are read as a raw frame.
    open spec fn decodes(
        self,
        data: Seq<u8>,
        samplerate: u32,
        outcome: Result<AudioFrame, CodecError>,
        after: Self,
    ) -> bool {
        raw_decoding(data, samplerate, outcome)
    }

    fn kind(&self) -> (kind: CodecKind) {
        CodecKind::Null
    }

    fn encode(&mut self, frame: &AudioFrame) -> (outcome: Result<Vec<u8>, CodecError>) {
        encode_raw(RawBitDepth::Float32, frame.channels(), frame)
    }

    fn decode(&mut self, data: &[u8], samplerate: u32) -> (outcome: Result<
        AudioFrame,
        CodecError,
    >) {
        decode_raw(data, samplerate)
    }
}

/// Numbers are written with their lowest byte first.
pub proof fn law_lowest_byte_comes_first(bytes: Seq<u8>, start: int, size: nat)
    requires
        0 <= start,
        start + size <= bytes.len(),
        size > 0,
    ensures
        word_at(bytes, start, size) % 256 == bytes[start],
        word_at(bytes, start, size) / 256 == word_at(bytes, start + 1, (size - 1) as nat),
        word_at(bytes, start, 0) == 0,
{
}

/// A sample takes as many bytes as its bits fill.
pub proof fn law_samples_fill_whole_bytes(bit_depth: RawBitDepth)
    ensures
        8 * sample_width(bit_depth) == bit_depth.width(),
{
}

/// A raw frame says with how many channels it was written: those of the codec where it fixes
/// them, otherwise those of the frame. It holds every sample of the frame in these channels.
pub proof fn law_raw_frame_tells_its_channels(
    codec: RawCodec,
    frame: AudioModel,
    bytes: Vec<u8>,
    after: RawCodec,
)
    requires
        codec.encodes(frame, Ok::<Vec<u8>, CodecError>(bytes), after),
    ensures
        ({
            let channels = match codec.fixed() {
                Some(fixed) => fixed,
                None => frame.channels,
            };
            &&& RawFrameHeader::of_byte(bytes@[0]) == Ok::<RawFrameHeader, RawFrameHeaderError>(
                RawFrameHeader { bit_depth: codec.depth(), channels },
            )
            &&& bytes@.len() == 1 + frame.with_channels(channels).samples.len() * sample_width(
                codec.depth(),
            )
            &&& after.seen() == Some(channels)
            &&& after.depth() == codec.depth()
            &&& after.fixed() == codec.fixed()
        }),
{
    let channels = codec.written_channels(frame.channels);
    let header = RawFrameHeader { bit_depth: codec.depth(), channels };
    crate::codec::law_raw_frame_header_round_trip(header);
}

/// A raw frame is decoded at the rate that the listener gives, with the channels that the frame
/// names; only whole samples are taken.
pub proof fn law_raw_frame_is_read_by_its_header(
    codec: RawCodec,
    data: Seq<u8>,
    samplerate: u32,
    frame: AudioFrame,
    after: RawCodec,
)
    requires
        codec.decodes(data, samplerate, Ok::<AudioFrame, CodecError>(frame), after),
    ensures
        data.len() > 0,
        RawFrameHeader::of_byte(data[0]) matches Ok(header) && {
            &&& frame@.channels == header.channels
            &&& frame@.samplerate == samplerate
            &&& frame@.samples.len() * sample_width(header.bit_depth) == data.len() - 1
            &&& after.seen() == Some(header.channels)
            &&& !(header.bit_depth is Float128)
        },
        after.depth() == codec.depth(),
        after.fixed() == codec.fixed(),
{
    let width = sample_width(RawFrameHeader::of_byte(data[0])->Ok_0.bit_depth) as int;
    let len = data.len() - 1;
    vstd::arithmetic::div_mod::lemma_fundamental_div_mod(len, width);
    assert((len / width) * width == width * (len / width)) by (nonlinear_arith);
}

} // verus!
