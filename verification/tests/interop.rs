use lxst::codec::OpusApplication;
use lxst::codec2_codec::{Codec2Rate, CODEC2_700C_HEADER};
use lxst::signalling::{FIELD_FRAMES, FIELD_SIGNALLING, PREFERRED_PROFILE_BASE};
use lxst::{
    CallProfile, CodecHeader, CodecKind, CodecProfile, EncodedFrame, LxstPacket, PacketError,
    RawBitDepth, RawFrameHeader, Signal, SignalCode,
};
use rns_core::msgpack::{pack, unpack_exact, Value};

fn decode_hex(hex: &str) -> Vec<u8> {
    assert_eq!(hex.len() % 2, 0);
    (0..hex.len())
        .step_by(2)
        .map(|index| u8::from_str_radix(&hex[index..index + 2], 16).unwrap())
        .collect()
}

#[test]
fn field_constants_match_python_lxst() {
    assert_eq!(FIELD_SIGNALLING, 0x00);
    assert_eq!(FIELD_FRAMES, 0x01);
    assert_eq!(CodecHeader::Raw.as_u8(), 0x00);
    assert_eq!(CodecHeader::Opus.as_u8(), 0x01);
    assert_eq!(CodecHeader::Codec2.as_u8(), 0x02);
    assert_eq!(CodecHeader::Null.as_u8(), 0xff);
}

#[test]
fn generated_fixture_is_from_current_upstream_shape() {
    assert_eq!(0x00, FIELD_SIGNALLING);
    assert_eq!(0x01, FIELD_FRAMES);
    assert_eq!(0x00, CodecHeader::Raw.as_u8());
    assert_eq!(0x01, CodecHeader::Opus.as_u8());
    assert_eq!(0x02, CodecHeader::Codec2.as_u8());
    assert_eq!(0xff, CodecHeader::Null.as_u8());
    assert_eq!(0xff, PREFERRED_PROFILE_BASE);
    assert_eq!(
        vec![
            (700, CODEC2_700C_HEADER),
            (1200, Codec2Rate::Rate1200.header_byte()),
            (1300, Codec2Rate::Rate1300.header_byte()),
            (1400, Codec2Rate::Rate1400.header_byte()),
            (1600, Codec2Rate::Rate1600.header_byte()),
            (2400, Codec2Rate::Rate2400.header_byte()),
            (3200, Codec2Rate::Rate3200.header_byte()),
        ],
        vec![
            (700, 0),
            (1200, 1),
            (1300, 2),
            (1400, 3),
            (1600, 4),
            (2400, 5),
            (3200, 6),
        ]
    );
}

#[test]
fn telephony_profiles_match_python_lxst() {
    let profiles = CallProfile::available_profiles();
    let values: Vec<u8> = profiles.iter().map(|profile| profile.as_u8()).collect();
    assert_eq!(values, vec![0x10, 0x20, 0x30, 0x40, 0x50, 0x60, 0x80, 0x70]);
    assert_eq!(CallProfile::LowLatency.as_u8(), 0x80);
    assert_eq!(CallProfile::UltraLowLatency.as_u8(), 0x70);
    assert_eq!(CallProfile::MediumQuality.profile_index(), 3);
    assert_eq!(
        CallProfile::LowLatency.next_profile(),
        CallProfile::UltraLowLatency
    );
    assert_eq!(
        CallProfile::UltraLowLatency.next_profile(),
        CallProfile::UltraLowBandwidth
    );
    assert_eq!(CallProfile::LowLatency.frame_duration().as_millis(), 20);
    assert_eq!(
        CallProfile::UltraLowLatency.frame_duration().as_millis(),
        10
    );
}

#[test]
fn call_profiles_match_generated_python_fixture() {
    let profiles = [
        (CallProfile::UltraLowBandwidth, 0x10, 0, "Ultra Low Bandwidth", "ULBW", 400, 0x20),
        (CallProfile::VeryLowBandwidth, 0x20, 1, "Very Low Bandwidth", "VLBW", 320, 0x30),
        (CallProfile::LowBandwidth, 0x30, 2, "Low Bandwidth", "LBW", 200, 0x40),
        (CallProfile::MediumQuality, 0x40, 3, "Medium Quality", "MQ", 60, 0x50),
        (CallProfile::HighQuality, 0x50, 4, "High Quality", "HQ", 60, 0x60),
        (CallProfile::MaxQuality, 0x60, 5, "Super High Quality", "SHQ", 60, 0x80),
        (CallProfile::LowLatency, 0x80, 6, "Low Latency", "LL", 20, 0x70),
        (CallProfile::UltraLowLatency, 0x70, 7, "Ultra Low Latency", "ULL", 10, 0x10),
    ];
    let values: Vec<u8> = profiles.iter().map(|profile| profile.1).collect();
    assert_eq!(
        values,
        CallProfile::available_profiles()
            .iter()
            .map(|profile| profile.as_u8())
            .collect::<Vec<_>>()
    );

    for (profile, value, index, display_name, abbreviation, frame_time_ms, next_value) in profiles {
        assert_eq!(profile.as_u8(), value);
        assert_eq!(profile.profile_index(), index);
        assert_eq!(profile.name(), display_name);
        assert_eq!(profile.abbreviation(), abbreviation);
        assert_eq!(profile.frame_duration().as_millis(), frame_time_ms);
        assert_eq!(profile.next_profile().as_u8(), next_value);
    }
}

#[test]
fn opus_profiles_match_generated_python_fixture() {
    let profiles = [
        (CodecProfile::OpusVoiceLow, 1, 8_000, OpusApplication::Voip, 6_000),
        (CodecProfile::OpusVoiceMedium, 1, 24_000, OpusApplication::Voip, 8_000),
        (CodecProfile::OpusVoiceHigh, 1, 48_000, OpusApplication::Voip, 16_000),
        (CodecProfile::OpusVoiceMax, 2, 48_000, OpusApplication::Voip, 32_000),
        (CodecProfile::OpusAudioMin, 1, 8_000, OpusApplication::Audio, 8_000),
        (CodecProfile::OpusAudioLow, 1, 12_000, OpusApplication::Audio, 14_000),
        (CodecProfile::OpusAudioMedium, 2, 24_000, OpusApplication::Audio, 28_000),
        (CodecProfile::OpusAudioHigh, 2, 48_000, OpusApplication::Audio, 56_000),
        (CodecProfile::OpusAudioMax, 2, 48_000, OpusApplication::Audio, 128_000),
    ];
    assert_eq!(profiles.len(), 9);

    for (profile, channels, samplerate, application, bitrate_ceiling) in profiles {
        let info = profile.info();
        assert_eq!(info.channels, channels, "{profile:?}");
        assert_eq!(info.samplerate, samplerate, "{profile:?}");
        assert_eq!(info.bitrate_ceiling, bitrate_ceiling, "{profile:?}");
        assert_eq!(info.opus_application, Some(application), "{profile:?}");
    }
}

#[test]
fn preferred_profile_signalling_uses_python_offset() {
    let signal = Signal::PreferredProfile(CallProfile::MediumQuality);
    assert_eq!(signal.to_wire_value(), PREFERRED_PROFILE_BASE as u64 + 0x40);
    assert_eq!(Signal::from_wire_value(0xff + 0x40), signal);
    assert_eq!(
        Signal::from_wire_value(0xff + 0x70),
        Signal::PreferredProfile(CallProfile::UltraLowLatency)
    );
    assert_eq!(
        Signal::from_wire_value(0xff + 0x80),
        Signal::PreferredProfile(CallProfile::LowLatency)
    );
}

#[test]
fn raw_frame_header_matches_python_layout() {
    let header = RawFrameHeader::new(RawBitDepth::Float32, 2).unwrap();
    assert_eq!(header.encode(), 0b0100_0001);
    assert_eq!(RawFrameHeader::decode(0b0100_0001).unwrap(), header);

    let header = RawFrameHeader::new(RawBitDepth::Float16, 32).unwrap();
    assert_eq!(header.encode(), 31);
    assert_eq!(RawFrameHeader::decode(31).unwrap(), header);
}

#[test]
fn raw_frame_headers_match_generated_python_fixture() {
    let headers = [
        (RawBitDepth::Float16, 0, 1, 0x00),
        (RawBitDepth::Float32, 1, 2, 0x41),
        (RawBitDepth::Float64, 2, 8, 0x87),
        (RawBitDepth::Float128, 3, 32, 0xdf),
    ];
    for (bit_depth, bitdepth_value, channels, byte) in headers {
        assert_eq!(bit_depth.as_u8(), bitdepth_value);
        let header = RawFrameHeader::new(bit_depth, channels).unwrap();
        assert_eq!(header.encode(), byte);
        assert_eq!(RawFrameHeader::decode(byte).unwrap(), header);
    }
}

#[test]
fn encodes_single_frame_like_python_packetizer() {
    let packet = LxstPacket::frame(EncodedFrame::new(CodecKind::Opus, vec![0xaa, 0xbb]));
    let encoded = packet.encode().unwrap();

    let expected = pack(&Value::Map(vec![(
        Value::UInt(FIELD_FRAMES as u64),
        Value::Bin(vec![0x01, 0xaa, 0xbb]),
    )]));
    assert_eq!(encoded, expected);
}

#[test]
fn decodes_generated_python_packet_fixtures() {
    let single_opus_frame = decode_hex("8101c40301aabb");
    let decoded = LxstPacket::decode(&single_opus_frame).unwrap();
    assert!(decoded.signals.is_empty());
    assert_eq!(
        decoded.frames,
        vec![EncodedFrame::new(CodecKind::Opus, vec![0xaa, 0xbb])]
    );
    assert_eq!(decoded.encode().unwrap(), single_opus_frame);

    let scalar_ringing_signal = decode_hex("810004");
    let decoded = LxstPacket::decode(&scalar_ringing_signal).unwrap();
    assert_eq!(decoded.signals, vec![Signal::Code(SignalCode::Ringing)]);
    assert!(decoded.frames.is_empty());

    let calling_with_preferred_medium_quality = decode_hex("81009202cd013f");
    let decoded = LxstPacket::decode(&calling_with_preferred_medium_quality).unwrap();
    assert_eq!(
        decoded.signals,
        vec![
            Signal::Code(SignalCode::Calling),
            Signal::PreferredProfile(CallProfile::MediumQuality)
        ]
    );
    assert!(decoded.frames.is_empty());
    assert_eq!(decoded.encode().unwrap(), calling_with_preferred_medium_quality);

    let mixed_raw_codec2_frames = decode_hex("810192c4020010c4020220");
    let decoded = LxstPacket::decode(&mixed_raw_codec2_frames).unwrap();
    assert!(decoded.signals.is_empty());
    assert_eq!(
        decoded.frames,
        vec![
            EncodedFrame::new(CodecKind::Raw, vec![0x10]),
            EncodedFrame::new(CodecKind::Codec2, vec![0x20]),
        ]
    );
    assert_eq!(decoded.encode().unwrap(), mixed_raw_codec2_frames);
}

#[test]
fn decodes_scalar_and_list_packet_fields() {
    let value = Value::Map(vec![
        (Value::UInt(FIELD_SIGNALLING as u64), Value::UInt(0x04)),
        (
            Value::UInt(FIELD_FRAMES as u64),
            Value::Array(vec![
                Value::Bin(vec![0x00, 0x10]),
                Value::Bin(vec![0x02, 0x20]),
            ]),
        ),
    ]);
    let bytes = pack(&value);
    let packet = LxstPacket::decode(&bytes).unwrap();

    assert_eq!(packet.signals, vec![Signal::Code(SignalCode::Ringing)]);
    assert_eq!(packet.frames.len(), 2);
    assert_eq!(
        packet.frames[0],
        EncodedFrame::new(CodecKind::Raw, vec![0x10])
    );
    assert_eq!(
        packet.frames[1],
        EncodedFrame::new(CodecKind::Codec2, vec![0x20])
    );
}

#[test]
fn ignores_unknown_packet_fields() {
    let value = Value::Map(vec![
        (Value::UInt(99), Value::Str("ignored".to_string())),
        (
            Value::UInt(FIELD_SIGNALLING as u64),
            Value::Array(vec![Value::UInt(0x06)]),
        ),
    ]);
    let packet = LxstPacket::decode(&pack(&value)).unwrap();
    assert_eq!(packet.signals, vec![Signal::Code(SignalCode::Established)]);
    assert!(packet.frames.is_empty());
}

#[test]
fn rejects_empty_or_unknown_codec_frames() {
    let empty = Value::Map(vec![(Value::UInt(FIELD_FRAMES as u64), Value::Bin(vec![]))]);
    assert!(LxstPacket::decode(&pack(&empty)).is_err());

    let unknown = Value::Map(vec![(
        Value::UInt(FIELD_FRAMES as u64),
        Value::Bin(vec![0x7f]),
    )]);
    assert!(LxstPacket::decode(&pack(&unknown)).is_err());
}

#[test]
fn encoded_packet_round_trip_preserves_values() {
    let packet = LxstPacket {
        signals: vec![
            Signal::Code(SignalCode::Calling),
            Signal::PreferredProfile(CallProfile::HighQuality),
        ],
        frames: vec![EncodedFrame::new(CodecKind::Raw, vec![0x01, 0x02, 0x03])],
    };
    let encoded = packet.encode().unwrap();
    let decoded_value = unpack_exact(&encoded).unwrap();
    assert!(decoded_value.as_map().is_some());
    assert_eq!(LxstPacket::decode(&encoded).unwrap(), packet);
}

#[test]
fn packets_that_cannot_be_read_say_why() {
    let not_a_map = pack(&Value::UInt(7));
    assert_eq!(LxstPacket::decode(&not_a_map), Err(PacketError::ExpectedMap));
    assert_eq!(
        LxstPacket::decode(&not_a_map).unwrap_err().message(),
        "LXST packet root must be a MessagePack map"
    );

    let text_frame = pack(&Value::Map(vec![(
        Value::UInt(1),
        Value::Str("frame".to_string()),
    )]));
    let value = Value::Str("frame".to_string());
    assert_eq!(
        LxstPacket::decode(&text_frame),
        Err(PacketError::InvalidFrameValue(format!("{:?}", value)))
    );

    let empty = pack(&Value::Map(vec![(Value::UInt(1), Value::Bin(vec![]))]));
    assert_eq!(LxstPacket::decode(&empty), Err(PacketError::EmptyFrame));

    let unknown = pack(&Value::Map(vec![(Value::UInt(1), Value::Bin(vec![0x7f]))]));
    assert!(matches!(
        LxstPacket::decode(&unknown),
        Err(PacketError::CodecHeader(_))
    ));

    let negative = pack(&Value::Map(vec![(Value::UInt(0), Value::Int(-1))]));
    assert!(matches!(
        LxstPacket::decode(&negative),
        Err(PacketError::InvalidSignalValue(_))
    ));

    assert!(matches!(
        LxstPacket::decode(&[0xc1]),
        Err(PacketError::Msgpack(_))
    ));
    assert!(matches!(
        LxstPacket::decode(&[0x81, 0x00]),
        Err(PacketError::Msgpack(_))
    ));
}

#[test]
fn frames_come_back_from_their_wire_bytes() {
    for kind in [
        CodecKind::Raw,
        CodecKind::Opus,
        CodecKind::Codec2,
        CodecKind::Null,
    ] {
        let frame = EncodedFrame::new(kind, vec![1, 2, 3]);
        let bytes = frame.to_wire_bytes().unwrap();
        assert_eq!(bytes[1..], [1, 2, 3]);
        assert_eq!(EncodedFrame::from_wire_bytes(&bytes).unwrap(), frame);
    }
    assert!(matches!(
        EncodedFrame::from_wire_bytes(&[0x33, 1]),
        Err(PacketError::CodecHeader(_))
    ));
    assert_eq!(
        EncodedFrame::from_wire_bytes(&[]),
        Err(PacketError::EmptyFrame)
    );
}

#[test]
fn every_signal_comes_back_from_its_wire_value() {
    for value in [0u64, 1, 2, 3, 4, 5, 6, 7, 0xfe, 0xff, 0x10f, 0x13f, 0x17f, 0x200, u64::MAX] {
        assert_eq!(Signal::from_wire_value(value).to_wire_value(), value);
    }
    assert_eq!(Signal::from_wire_value(7), Signal::Unknown(7));
    assert_eq!(Signal::from(4u8), Signal::Code(SignalCode::Ringing));
}

#[test]
fn profiles_follow_each_other_in_a_circle() {
    let mut profile = CallProfile::DEFAULT;
    for _ in 0..8 {
        profile = profile.next_profile();
    }
    assert_eq!(profile, CallProfile::DEFAULT);
    for profile in CallProfile::available_profiles() {
        assert_eq!(CallProfile::try_from(profile.as_u8()), Ok(profile));
    }
    assert_eq!(
        CallProfile::try_from(0x90).unwrap_err().message(),
        "unknown LXST telephony call profile 0x90"
    );
    assert_eq!(
        SignalCode::try_from(7).unwrap_err().message(),
        "unknown LXST telephony signal code 0x07"
    );
    assert_eq!(
        RawFrameHeader::new(RawBitDepth::Float32, 33)
            .unwrap_err()
            .message(),
        "invalid LXST raw channel count 33; expected 1..=32"
    );
}
