//! Codec2: speech at 8 kHz in blocks, behind a byte that says which mode they are in.
use crate::audio_codec::CodecError;
use crate::codec::{CodecKind, CodecProfile};
use codec2::Codec2;
use vstd::prelude::*;

verus! {

/// `codec2::Codec2`: an encoder and decoder of one mode.
#[verifier::external_type_specification]
#[verifier::external_body]
pub struct ExCodec2(codec2::Codec2);

/// The bit rates at which speech can be encoded here.
#[derive(Debug, Clone, Copy, PartialEq, Eq, Structural)]
pub enum Codec2Rate {
    Rate3200,
    Rate2400,
    Rate1600,
    Rate1400,
    Rate1300,
    Rate1200,
}

impl Codec2Rate {
    /// Samples per block.
    pub open spec fn block_samples(self) -> nat {
        match self {
            Codec2Rate::Rate3200 => 160,
            Codec2Rate::Rate2400 => 160,
            _ => 320,
        }
    }

    /// Bits per block.
    pub open spec fn block_bits(self) -> nat {
        match self {
            Codec2Rate::Rate3200 => 64,
            Codec2Rate::Rate2400 => 48,
            Codec2Rate::Rate1600 => 64,
            Codec2Rate::Rate1400 => 56,
            Codec2Rate::Rate1300 => 52,
            Codec2Rate::Rate1200 => 48,
        }
    }

    /// Bytes per block.
    pub open spec fn block_bytes(self) -> nat {
        (self.block_bits() + 7) / 8
    }

    /// The byte in front of the blocks.
    pub open spec fn header(self) -> u8 {
        match self {
            Codec2Rate::Rate1200 => 0x01,
            Codec2Rate::Rate1300 => 0x02,
            Codec2Rate::Rate1400 => 0x03,
            Codec2Rate::Rate1600 => 0x04,
            Codec2Rate::Rate2400 => 0x05,
            Codec2Rate::Rate3200 => 0x06,
        }
    }

    /// The rate whose byte is `header`.
    pub open spec fn of_header(header: u8) -> Option<Codec2Rate> {
        if header == 0x01 {
            Some(Codec2Rate::Rate1200)
        } else if header == 0x02 {
            Some(Codec2Rate::Rate1300)
        } else if header == 0x03 {
            Some(Codec2Rate::Rate1400)
        } else if header == 0x04 {
            Some(Codec2Rate::Rate1600)
        } else if header == 0x05 {
            Some(Codec2Rate::Rate2400)
        } else if header == 0x06 {
            Some(Codec2Rate::Rate3200)
        } else {
            None
        }
    }

    /// The rate of a codec profile.
    pub open spec fn of_profile(profile: CodecProfile) -> Option<Codec2Rate> {
        match profile {
            CodecProfile::Codec2_1200 => Some(Codec2Rate::Rate1200),
            CodecProfile::Codec2_1300 => Some(Codec2Rate::Rate1300),
            CodecProfile::Codec2_1400 => Some(Codec2Rate::Rate1400),
            CodecProfile::Codec2_1600 => Some(Codec2Rate::Rate1600),
            CodecProfile::Codec2_2400 => Some(Codec2Rate::Rate2400),
            CodecProfile::Codec2_3200 => Some(Codec2Rate::Rate3200),
            _ => None,
        }
    }

    /// The byte in front of the blocks.
    pub fn header_byte(self) -> (header: u8)
        ensures
            header == self.header(),
    {
        match self {
            Codec2Rate::Rate1200 => 0x01,
            Codec2Rate::Rate1300 => 0x02,
            Codec2Rate::Rate1400 => 0x03,
            Codec2Rate::Rate1600 => 0x04,
            Codec2Rate::Rate2400 => 0x05,
            Codec2Rate::Rate3200 => 0x06,
        }
    }
}

/// The byte that stands for the mode of 700 bits per second.
pub const CODEC2_700C_HEADER: u8 = 0x00;

/// Every rate has a byte of its own, none of them that of the mode of 700 bits per second.
pub proof fn law_codec2_header_round_trip(rate: Codec2Rate, header: u8)
    ensures
        Codec2Rate::of_header(rate.header()) == Some(rate),
        Codec2Rate::of_header(header) == Some(rate) ==> header == rate.header(),
        rate.header() != CODEC2_700C_HEADER,
{
}

/// The rate that a codec was made for.
pub uninterp spec fn codec2_rate(codec: Codec2) -> Codec2Rate;

/// A block that a codec worked on.
pub enum Codec2Block {
    /// Speech that was encoded.
    Speech(Seq<i16>),
    /// Bytes that were decoded.
    Bits(Seq<u8>),
}

/// The blocks that a codec worked on since it was made, oldest first.
pub uninterp spec fn codec2_past(codec: Codec2) -> Seq<Codec2Block>;

/// Whether a codec of this rate with this past can turn the samples into the bytes.
pub uninterp spec fn codec2_encodes(
    rate: Codec2Rate,
    past: Seq<Codec2Block>,
    speech: Seq<i16>,
    bits: Seq<u8>,
) -> bool;

/// Whether a codec of this rate with this past can turn the bytes into the samples.
pub uninterp spec fn codec2_decodes(
    rate: Codec2Rate,
    past: Seq<Codec2Block>,
    bits: Seq<u8>,
    speech: Seq<i16>,
) -> bool;

/// `Codec2::new`: a codec of the given rate that did not work on anything yet.
#[verifier::external_body]
fn new_codec2(rate: Codec2Rate) -> (codec: Codec2)
    ensures
        codec2_rate(codec) == rate,
        codec2_past(codec) == Seq::<Codec2Block>::empty(),
{
    Codec2::new(match rate {
        Codec2Rate::Rate3200 => codec2::Codec2Mode::MODE_3200,
        Codec2Rate::Rate2400 => codec2::Codec2Mode::MODE_2400,
        Codec2Rate::Rate1600 => codec2::Codec2Mode::MODE_1600,
        Codec2Rate::Rate1400 => codec2::Codec2Mode::MODE_1400,
        Codec2Rate::Rate1300 => codec2::Codec2Mode::MODE_1300,
        Codec2Rate::Rate1200 => codec2::Codec2Mode::MODE_1200,
    })
}

/// `Codec2::samples_per_frame`: the samples of a block at the codec's rate.
#[verifier::external_body]
fn codec2_samples_per_frame(codec: &Codec2) -> (samples: usize)
    ensures
        samples == codec2_rate(*codec).block_samples(),
{
    codec.samples_per_frame()
}

/// `Codec2::bits_per_frame`: the bits of a block at the codec's rate.
#[verifier::external_body]
fn codec2_bits_per_frame(codec: &Codec2) -> (bits: usize)
    ensures
        bits == codec2_rate(*codec).block_bits(),
{
    codec.bits_per_frame()
}

/// `Codec2::encode`: writes one block of speech into as many bytes as a block takes, which
/// is then part of the codec's past. Which bytes they are rests on floating point
/// arithmetic, so nothing more is said of them than that they came from this speech in a
/// codec of this rate and past.
#[verifier::external_body]
fn codec2_encode(codec: &mut Codec2, bits: &mut Vec<u8>, speech: &[i16])
    requires
        speech@.len() == codec2_rate(*old(codec)).block_samples(),
        old(bits)@.len() == codec2_rate(*old(codec)).block_bytes(),
    ensures
        codec2_rate(*final(codec)) == codec2_rate(*old(codec)),
        final(bits)@.len() == old(bits)@.len(),
        codec2_past(*final(codec)) == codec2_past(*old(codec)).push(Codec2Block::Speech(speech@)),
        codec2_encodes(
            codec2_rate(*old(codec)),
            codec2_past(*old(codec)),
            speech@,
            final(bits)@,
        ),
{
    codec.encode(bits, speech)
}

/// `Codec2::decode`: reads one block into as many samples as a block has, which is then part
/// of the codec's past. Which samples they are rests on floating point arithmetic and on a
/// random state that all codecs of the process share, so nothing more is said of them than
/// that they can come from these bytes in a codec of this rate and past.
#[verifier::external_body]
fn codec2_decode(codec: &mut Codec2, speech: &mut Vec<i16>, bits: &[u8])
    requires
        old(speech)@.len() == codec2_rate(*old(codec)).block_samples(),
        bits@.len() == codec2_rate(*old(codec)).block_bytes(),
    ensures
        codec2_rate(*final(codec)) == codec2_rate(*old(codec)),
        final(speech)@.len() == old(speech)@.len(),
        codec2_past(*final(codec)) == codec2_past(*old(codec)).push(Codec2Block::Bits(bits@)),
        codec2_decodes(
            codec2_rate(*old(codec)),
            codec2_past(*old(codec)),
            bits@,
            final(speech)@,
        ),
{
    codec.decode(speech, bits)
}

/// Codec2 at the rate of a profile. The rate in use follows what is decoded.
#[derive(Debug, Clone)]
pub struct Codec2Codec {
    profile: CodecProfile,
    codec: Option<Codec2>,
    rate: Option<Codec2Rate>,
}

/// The first `count` blocks of samples.
pub open spec fn speech_blocks(rate: Codec2Rate, samples: Seq<i16>, count: int) -> Seq<Codec2Block> {
    let size = rate.block_samples() as int;
    Seq::new(
        count as nat,
        |i: int| Codec2Block::Speech(samples.subrange(i * size, i * size + size)),
    )
}

/// The first `count` blocks of bytes behind the first byte.
pub open spec fn bit_blocks(rate: Codec2Rate, data: Seq<u8>, count: int) -> Seq<Codec2Block> {
    let width = rate.block_bytes() as int;
    Seq::new(
        count as nat,
        |i: int| Codec2Block::Bits(data.subrange(1 + i * width, 1 + i * width + width)),
    )
}

/// How many whole blocks samples make up.
pub open spec fn speech_count(rate: Codec2Rate, samples: Seq<i16>) -> int {
    samples.len() as int / rate.block_samples() as int
}

/// How many whole blocks the bytes behind the first make up.
pub open spec fn bit_count(rate: Codec2Rate, data: Seq<u8>) -> int {
    (data.len() - 1) / rate.block_bytes() as int
}

/// Whether the bytes are the blocks of the samples that one codec with this past encoded one
/// after another: a byte for the rate, then every whole block of samples in order. Samples
/// that fill no block are left out.
pub open spec fn codec2_frame(
    rate: Codec2Rate,
    past: Seq<Codec2Block>,
    samples: Seq<i16>,
    bytes: Seq<u8>,
) -> bool {
    &&& bytes.len() == 1 + speech_count(rate, samples) * rate.block_bytes()
    &&& bytes[0] == rate.header()
    &&& forall|i: int|
        0 <= i < speech_count(rate, samples) ==> #[trigger] block_encoded(
            rate,
            past,
            samples,
            bytes,
            i,
        )
}

/// Whether block `i` of the bytes is encoded from block `i` of the samples, after the blocks
/// before it.
pub open spec fn block_encoded(
    rate: Codec2Rate,
    past: Seq<Codec2Block>,
    samples: Seq<i16>,
    bytes: Seq<u8>,
    i: int,
) -> bool {
    let size = rate.block_samples() as int;
    let width = rate.block_bytes() as int;
    codec2_encodes(
        rate,
        past + speech_blocks(rate, samples, i),
        samples.subrange(i * size, i * size + size),
        bytes.subrange(1 + i * width, 1 + i * width + width),
    )
}

/// Whether the samples are the blocks of the bytes behind the first that one codec with this
/// past decoded one after another, every whole block in order. Bytes that fill no block are
/// left out.
pub open spec fn codec2_speech(
    rate: Codec2Rate,
    past: Seq<Codec2Block>,
    data: Seq<u8>,
    samples: Seq<i16>,
) -> bool {
    &&& samples.len() == bit_count(rate, data) * rate.block_samples()
    &&& forall|i: int|
        0 <= i < bit_count(rate, data) ==> #[trigger] block_decoded(rate, past, data, samples, i)
}

/// Whether block `i` of the samples is decoded from block `i` of the bytes, after the blocks
/// before it.
pub open spec fn block_decoded(
    rate: Codec2Rate,
    past: Seq<Codec2Block>,
    data: Seq<u8>,
    samples: Seq<i16>,
    i: int,
) -> bool {
    let size = rate.block_samples() as int;
    let width = rate.block_bytes() as int;
    codec2_decodes(
        rate,
        past + bit_blocks(rate, data, i),
        data.subrange(1 + i * width, 1 + i * width + width),
        samples.subrange(i * size, i * size + size),
    )
}

/// The error text of the mode that is not offered.
pub open spec fn no_700c() -> Seq<char> {
    "Codec2 700C is not implemented by the pure Rust codec2 backend"@
}

impl Codec2Codec {
    /// The profile that frames are encoded for.
    pub closed spec fn profile_of(&self) -> CodecProfile {
        self.profile
    }

    /// The rate that is in use, once one is.
    pub closed spec fn rate_of(&self) -> Option<Codec2Rate> {
        self.rate
    }

    /// The blocks that the codec in use worked on since its rate was taken up.
    pub closed spec fn past(&self) -> Seq<Codec2Block> {
        match self.codec {
            Some(codec) => codec2_past(codec),
            None => Seq::empty(),
        }
    }

    /// The past of the codec for a rate: another rate is taken up with a new codec.
    pub open spec fn past_at(&self, rate: Codec2Rate) -> Seq<Codec2Block> {
        if self.rate_of() == Some(rate) {
            self.past()
        } else {
            Seq::empty()
        }
    }

    /// What holds of every codec: the codec in use is of the rate in use.
    pub closed spec fn wf(&self) -> bool {
        &&& self.codec is Some <==> self.rate is Some
        &&& self.codec is Some ==> codec2_rate(self.codec->0) == self.rate->0
    }

    /// A codec for a profile.
    pub fn new(profile: CodecProfile) -> (codec: Self)
        ensures
            codec.wf(),
            codec.profile_of() == profile,
            codec.rate_of() is None,
            codec.past() == Seq::<Codec2Block>::empty(),
    {
        Codec2Codec { profile, codec: None, rate: None }
    }

    /// The profile that frames are encoded for.
    pub fn profile(&self) -> (profile: CodecProfile)
        ensures
            profile == self.profile_of(),
    {
        self.profile
    }

    /// The codec's family.
    pub fn kind(&self) -> (kind: CodecKind)
        ensures
            kind is Codec2,
    {
        CodecKind::Codec2
    }

    /// The codec of a rate: the one in use where it is of that rate, a new one otherwise.
    fn take_codec(&mut self, rate: Codec2Rate) -> (codec: Codec2)
        requires
            old(self).wf(),
        ensures
            codec2_rate(codec) == rate,
            codec2_past(codec) == old(self).past_at(rate),
            final(self).profile_of() == old(self).profile_of(),
    {
        if let Some(current) = self.rate {
            if current == rate {
                if let Some(codec) = self.codec.take() {
                    return codec;
                }
            }
        }
        new_codec2(rate)
    }

    /// Encodes speech of 8 kHz.
    pub fn encode_pcm(&mut self, input: &[i16]) -> (encoded: Result<Vec<u8>, CodecError>)
        requires
            old(self).wf(),
        ensures
            final(self).wf(),
            final(self).profile_of() == old(self).profile_of(),
            match Codec2Rate::of_profile(old(self).profile_of()) {
                Some(rate) => {
                    &&& encoded matches Ok(bytes) && codec2_frame(
                        rate,
                        old(self).past_at(rate),
                        input@,
                        bytes@,
                    )
                    &&& final(self).rate_of() == Some(rate)
                    &&& final(self).past() == old(self).past_at(rate) + speech_blocks(
                        rate,
                        input@,
                        speech_count(rate, input@),
                    )
                },
                None => {
                    &&& *final(self) == *old(self)
                    &&& if old(self).profile_of() is Codec2_700C {
                        encoded matches Err(CodecError::Unsupported(text)) && text@ == no_700c()
                    } else {
                        encoded matches Err(CodecError::InvalidProfile(text)) && text@
                            == old(self).profile_of().label() + " is not a Codec2 profile"@
                    }
                },
            },
    {
        let rate = match codec2_mode(self.profile) {
            Ok(rate) => rate,
            Err(error) => return Err(error),
        };
        let mut codec = self.take_codec(rate);
        let ghost past = codec2_past(codec);
        let size = codec2_samples_per_frame(&codec);
        let width: usize = (codec2_bits_per_frame(&codec) + 7) / 8;
        let count: usize = input.len() / size;
        let mut encoded: Vec<u8> = Vec::new();
        encoded.push(rate.header_byte());
        let mut i: usize = 0;
        assert(past + speech_blocks(rate, input@, 0) =~= past);
        while i < count
            invariant
                i <= count,
                input@.len() <= usize::MAX,
                size == rate.block_samples(),
                width == rate.block_bytes(),
                count == input@.len() as int / size as int,
                codec2_rate(codec) == rate,
                codec2_past(codec) == past + speech_blocks(rate, input@, i as int),
                encoded@.len() == 1 + i * width,
                encoded@[0] == rate.header(),
                forall|j: int|
                    0 <= j < i ==> #[trigger] block_encoded(rate, past, input@, encoded@, j),
            decreases count - i,
        {
            proof {
                vstd::arithmetic::div_mod::lemma_fundamental_div_mod(
                    input@.len() as int,
                    size as int,
                );
                assert(i * size + size <= input@.len()) by (nonlinear_arith)
                    requires
                        i + 1 <= count,
                        input@.len() >= size * count,
                        size > 0,
                ;
                assert(0 <= i * size && 0 <= i * width) by (nonlinear_arith)
                    requires
                        i >= 0,
                        size > 0,
                        width > 0,
                ;
            }
            let block = vstd::slice::slice_subrange(input, i * size, i * size + size);
            let mut output: Vec<u8> = vec![0u8; width];
            assert(speech_blocks(rate, input@, i + 1) =~= speech_blocks(rate, input@, i as int).push(
                Codec2Block::Speech(block@),
            ));
            codec2_encode(&mut codec, &mut output, block);
            let ghost before = encoded@;
            encoded.extend_from_slice(&output);
            proof {
                assert(codec2_past(codec) =~= past + speech_blocks(rate, input@, i + 1));
                assert((i + 1) * width == i * width + width) by (nonlinear_arith);
                assert forall|j: int| 0 <= j < i + 1 implies #[trigger] block_encoded(
                    rate,
                    past,
                    input@,
                    encoded@,
                    j,
                ) by {
                    if j < i {
                        assert(block_encoded(rate, past, input@, before, j));
                        assert(1 + j * width + width <= before.len() && 0 <= j * width)
                            by (nonlinear_arith)
                            requires
                                0 <= j,
                                j + 1 <= i,
                                width > 0,
                                before.len() == 1 + i * width,
                        ;
                        assert(encoded@.subrange(1 + j * width, 1 + j * width + width)
                            =~= before.subrange(1 + j * width, 1 + j * width + width));
                    } else {
                        assert(encoded@.subrange(1 + i * width, 1 + i * width + width)
                            =~= output@);
                    }
                }
            }
            i += 1;
        }
        self.codec = Some(codec);
        self.rate = Some(rate);
        Ok(encoded)
    }

    /// Decodes to speech of 8 kHz, at the rate that the first byte says.
    pub fn decode_pcm(&mut self, data: &[u8]) -> (decoded: Result<Vec<i16>, CodecError>)
        requires
            old(self).wf(),
        ensures
            final(self).wf(),
            final(self).profile_of() == old(self).profile_of(),
            if data@.len() == 0 {
                &&& decoded == Err::<Vec<i16>, CodecError>(CodecError::EmptyFrame)
                &&& *final(self) == *old(self)
            } else {
                match Codec2Rate::of_header(data@[0]) {
                    Some(rate) => {
                        &&& decoded matches Ok(samples) && codec2_speech(
                            rate,
                            old(self).past_at(rate),
                            data@,
                            samples@,
                        )
                        &&& final(self).rate_of() == Some(rate)
                        &&& final(self).past() == old(self).past_at(rate) + bit_blocks(
                            rate,
                            data@,
                            bit_count(rate, data@),
                        )
                    },
                    None => {
                        &&& *final(self) == *old(self)
                        &&& if data@[0] == CODEC2_700C_HEADER {
                            decoded matches Err(CodecError::Unsupported(text)) && text@
                                == no_700c()
                        } else {
                            decoded == Err::<Vec<i16>, CodecError>(
                                CodecError::InvalidCodec2ModeHeader(data@[0]),
                            )
                        }
                    },
                }
            },
    {
        if data.len() == 0 {
            return Err(CodecError::EmptyFrame);
        }
        let rate = match codec2_mode_from_header(data[0]) {
            Ok(rate) => rate,
            Err(error) => return Err(error),
        };
        let mut codec = self.take_codec(rate);
        let ghost past = codec2_past(codec);
        let size = codec2_samples_per_frame(&codec);
        let width: usize = (codec2_bits_per_frame(&codec) + 7) / 8;
        let len: usize = data.len() - 1;
        let count: usize = len / width;
        let mut decoded: Vec<i16> = Vec::new();
        let mut i: usize = 0;
        assert(past + bit_blocks(rate, data@, 0) =~= past);
        while i < count
            invariant
                i <= count,
                data@.len() == len + 1,
                data@.len() <= usize::MAX,
                size == rate.block_samples(),
                width == rate.block_bytes(),
                count == len as int / width as int,
                codec2_rate(codec) == rate,
                codec2_past(codec) == past + bit_blocks(rate, data@, i as int),
                decoded@.len() == i * size,
                forall|j: int|
                    0 <= j < i ==> #[trigger] block_decoded(rate, past, data@, decoded@, j),
            decreases count - i,
        {
            proof {
                vstd::arithmetic::div_mod::lemma_fundamental_div_mod(len as int, width as int);
                assert(i * width + width <= len) by (nonlinear_arith)
                    requires
                        i + 1 <= count,
                        len >= width * count,
                        width > 0,
                ;
                assert(0 <= i * size && 0 <= i * width) by (nonlinear_arith)
                    requires
                        i >= 0,
                        size > 0,
                        width > 0,
                ;
            }
            let block = vstd::slice::slice_subrange(data, 1 + i * width, 1 + i * width + width);
            let mut output: Vec<i16> = vec![0i16; size];
            assert(bit_blocks(rate, data@, i + 1) =~= bit_blocks(rate, data@, i as int).push(
                Codec2Block::Bits(block@),
            ));
            codec2_decode(&mut codec, &mut output, block);
            let ghost before = decoded@;
            decoded.extend_from_slice(&output);
            proof {
                assert(codec2_past(codec) =~= past + bit_blocks(rate, data@, i + 1));
                assert((i + 1) * size == i * size + size) by (nonlinear_arith);
                assert forall|j: int| 0 <= j < i + 1 implies #[trigger] block_decoded(
                    rate,
                    past,
                    data@,
                    decoded@,
                    j,
                ) by {
                    if j < i {
                        assert(block_decoded(rate, past, data@, before, j));
                        assert(j * size + size <= before.len() && 0 <= j * size)
                            by (nonlinear_arith)
                            requires
                                0 <= j,
                                j + 1 <= i,
                                size > 0,
                                before.len() == i * size,
                        ;
                        assert(decoded@.subrange(j * size, j * size + size)
                            =~= before.subrange(j * size, j * size + size));
                    } else {
                        assert(decoded@.subrange(i * size, i * size + size) =~= output@);
                    }
                }
            }
            i += 1;
        }
        self.codec = Some(codec);
        self.rate = Some(rate);
        Ok(decoded)
    }
}

/// What decodes is as long as what was encoded, but for samples that fill no block.
pub proof fn law_codec2_keeps_whole_blocks(
    rate: Codec2Rate,
    speaker: Seq<Codec2Block>,
    input: Seq<i16>,
    bytes: Seq<u8>,
    listener: Seq<Codec2Block>,
    output: Seq<i16>,
)
    requires
        codec2_frame(rate, speaker, input, bytes),
        codec2_speech(rate, listener, bytes, output),
    ensures
        Codec2Rate::of_header(bytes[0]) == Some(rate),
        output.len() == input.len() - input.len() % rate.block_samples(),
{
    let size = rate.block_samples() as int;
    let width = rate.block_bytes() as int;
    let count = input.len() as int / size;
    law_codec2_header_round_trip(rate, bytes[0]);
    vstd::arithmetic::div_mod::lemma_div_multiples_vanish(count, width);
    vstd::arithmetic::div_mod::lemma_fundamental_div_mod(input.len() as int, size);
    assert(width * count == count * width) by (nonlinear_arith);
    assert(size * count == count * size) by (nonlinear_arith);
}

fn codec2_mode(profile: CodecProfile) -> (rate: Result<Codec2Rate, CodecError>)
    ensures
        match Codec2Rate::of_profile(profile) {
            Some(expected) => rate == Ok::<Codec2Rate, CodecError>(expected),
            None => if profile is Codec2_700C {
                rate matches Err(CodecError::Unsupported(text)) && text@ == no_700c()
            } else {
                rate matches Err(CodecError::InvalidProfile(text)) && text@ == profile.label()
                    + " is not a Codec2 profile"@
            },
        },
{
    match profile {
        CodecProfile::Codec2_1200 => Ok(Codec2Rate::Rate1200),
        CodecProfile::Codec2_1300 => Ok(Codec2Rate::Rate1300),
        CodecProfile::Codec2_1400 => Ok(Codec2Rate::Rate1400),
        CodecProfile::Codec2_1600 => Ok(Codec2Rate::Rate1600),
        CodecProfile::Codec2_2400 => Ok(Codec2Rate::Rate2400),
        CodecProfile::Codec2_3200 => Ok(Codec2Rate::Rate3200),
        CodecProfile::Codec2_700C => Err(
            CodecError::Unsupported(
                "Codec2 700C is not implemented by the pure Rust codec2 backend".to_owned(),
            ),
        ),
        other => Err(
            CodecError::InvalidProfile(
                other.name().to_owned().concat(" is not a Codec2 profile"),
            ),
        ),
    }
}

fn codec2_mode_from_header(header: u8) -> (rate: Result<Codec2Rate, CodecError>)
    ensures
        match Codec2Rate::of_header(header) {
            Some(expected) => rate == Ok::<Codec2Rate, CodecError>(expected),
            None => if header == CODEC2_700C_HEADER {
                rate matches Err(CodecError::Unsupported(text)) && text@ == no_700c()
            } else {
                rate == Err::<Codec2Rate, CodecError>(CodecError::InvalidCodec2ModeHeader(header))
            },
        },
{
    match header {
        0x01 => Ok(Codec2Rate::Rate1200),
        0x02 => Ok(Codec2Rate::Rate1300),
        0x03 => Ok(Codec2Rate::Rate1400),
        0x04 => Ok(Codec2Rate::Rate1600),
        0x05 => Ok(Codec2Rate::Rate2400),
        0x06 => Ok(Codec2Rate::Rate3200),
        0x00 => Err(
            CodecError::Unsupported(
                "Codec2 700C is not implemented by the pure Rust codec2 backend".to_owned(),
            ),
        ),
        other => Err(CodecError::InvalidCodec2ModeHeader(other)),
    }
}

/// A rate is the number of bits per second: those of a block in the time of a block, of which
/// there are 8000 samples in a second.
pub proof fn law_rate_is_bits_per_second(rate: Codec2Rate)
    ensures
        rate.block_bits() * 8_000 == rate.block_samples() * (match rate {
            Codec2Rate::Rate3200 => 3_200nat,
            Codec2Rate::Rate2400 => 2_400,
            Codec2Rate::Rate1600 => 1_600,
            Codec2Rate::Rate1400 => 1_400,
            Codec2Rate::Rate1300 => 1_300,
            Codec2Rate::Rate1200 => 1_200,
        }),
        rate.block_samples() == 160 <==> rate is Rate3200 || rate is Rate2400,
        rate.block_samples() == 320 <==> !(rate is Rate3200 || rate is Rate2400),
        8 * rate.block_bytes() >= rate.block_bits() > 8 * (rate.block_bytes() - 1),
{
}

/// A profile is encoded at the rate that it is named after, and only a Codec2 profile other than
/// the lowest has one.
pub proof fn law_profile_is_named_after_its_rate(profile: CodecProfile)
    ensures
        Codec2Rate::of_profile(profile) is Some <==> profile.is_codec2() && !(profile
            is Codec2_700C),
        Codec2Rate::of_profile(profile) == Some(Codec2Rate::Rate1200) <==> profile is Codec2_1200,
        Codec2Rate::of_profile(profile) == Some(Codec2Rate::Rate1300) <==> profile is Codec2_1300,
        Codec2Rate::of_profile(profile) == Some(Codec2Rate::Rate1400) <==> profile is Codec2_1400,
        Codec2Rate::of_profile(profile) == Some(Codec2Rate::Rate1600) <==> profile is Codec2_1600,
        Codec2Rate::of_profile(profile) == Some(Codec2Rate::Rate2400) <==> profile is Codec2_2400,
        Codec2Rate::of_profile(profile) == Some(Codec2Rate::Rate3200) <==> profile is Codec2_3200,
{
}

/// What a codec worked on before counts as long as the rate stays the same; at another rate it
/// begins anew.
pub proof fn law_codec_begins_anew_at_another_rate(codec: Codec2Codec, rate: Codec2Rate)
    ensures
        codec.rate_of() == Some(rate) ==> codec.past_at(rate) == codec.past(),
        codec.rate_of() != Some(rate) ==> codec.past_at(rate).len() == 0,
{
}

/// A frame holds its blocks behind its header, one behind another, each encoded with what came
/// before it in mind.
pub proof fn law_blocks_follow_the_header(
    rate: Codec2Rate,
    past: Seq<Codec2Block>,
    samples: Seq<i16>,
    bytes: Seq<u8>,
    place: int,
)
    requires
        codec2_frame(rate, past, samples, bytes),
        0 <= place,
        (place + 1) * rate.block_samples() <= samples.len(),
    ensures
        bytes[0] == rate.header(),
        1 + (place + 1) * rate.block_bytes() <= bytes.len(),
        ({
            let size = rate.block_samples() as int;
            let width = rate.block_bytes() as int;
            codec2_encodes(
                rate,
                past + Seq::new(
                    place as nat,
                    |i: int| Codec2Block::Speech(samples.subrange(i * size, i * size + size)),
                ),
                samples.subrange(place * size, place * size + size),
                bytes.subrange(1 + place * width, 1 + place * width + width),
            )
        }),
{
    let size = rate.block_samples() as int;
    let width = rate.block_bytes() as int;
    let count = speech_count(rate, samples);
    assert(place + 1 <= count) by (nonlinear_arith)
        requires
            (place + 1) * size <= samples.len(),
            count == samples.len() as int / size,
            size > 0,
    ;
    assert(block_encoded(rate, past, samples, bytes, place));
    assert((place + 1) * width <= count * width) by (nonlinear_arith)
        requires
            place + 1 <= count,
            width > 0,
    ;
}

} // verus!
