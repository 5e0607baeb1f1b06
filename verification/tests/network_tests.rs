use lxst::network::{
    create_telephony_link, recall_telephony_identity, telephony_dest_hash, AnnouncedIdentity,
    NodeRequest, PathSearch, PathStep, CONTEXT_NONE, DEFAULT_LINK_FRAMES,
};
use lxst::time::{millis, Nanos};
use lxst::{
    AudioCodec, AudioFrame, AudioSink, AudioSource, CodecKind, EncodedAudioFrame, EncodedFrame,
    LinkSource, LxstLinkSender, LxstPacket, NetworkError, PacketSender, Packetizer, RawBitDepth,
    RawCodec, Signal, SignalCode, TelephonyEndpoint,
};
use rns_crypto::identity::Identity;
use rns_net::{Destination, IdentityHash};
use std::collections::VecDeque;

#[derive(Debug, Default)]
struct MockSender {
    packets: Vec<LxstPacket>,
    fail: bool,
}

impl PacketSender for MockSender {
    fn send_packet(&mut self, packet: &LxstPacket) -> Result<(), NetworkError> {
        if self.fail {
            Err(NetworkError::Send)
        } else {
            self.packets.push(packet.clone());
            Ok(())
        }
    }
}

fn frame(values: &[f32]) -> AudioFrame {
    let samples = values.iter().map(|value| value.to_bits()).collect();
    AudioFrame::new(8_000, 1, samples).unwrap()
}

#[test]
fn packetizer_wraps_encoded_frame_in_lxst_packet() {
    let mut raw = RawCodec::default();
    let payload = raw.encode(&frame(&[0.0, 0.25])).unwrap();
    let mut packetizer = Packetizer::new(MockSender::default());

    packetizer
        .handle_frame(EncodedAudioFrame {
            codec: CodecKind::Raw,
            samplerate: 8_000,
            channels: 1,
            payload: payload.clone(),
        })
        .unwrap();

    let sender = packetizer.into_sender();
    assert_eq!(sender.packets.len(), 1);
    assert_eq!(sender.packets[0].frames.len(), 1);
    assert_eq!(sender.packets[0].frames[0].codec, CodecKind::Raw);
    assert_eq!(sender.packets[0].frames[0].payload, payload);
}

#[test]
fn packetizer_records_transmit_failure() {
    let mut packetizer = Packetizer::new(MockSender {
        fail: true,
        ..MockSender::default()
    });

    let result = packetizer.handle_frame(EncodedAudioFrame {
        codec: CodecKind::Raw,
        samplerate: 8_000,
        channels: 1,
        payload: vec![RawBitDepth::Float32.as_u8()],
    });

    assert!(result.is_err());
    assert!(packetizer.transmit_failure());
    assert!(!packetizer.can_receive());
}

#[test]
fn signalling_packet_round_trips_call_state() {
    let packet = LxstPacket::signalling(Signal::Code(SignalCode::Established));
    let decoded = LxstPacket::decode(&packet.encode().unwrap()).unwrap();

    assert_eq!(decoded.signals, vec![Signal::Code(SignalCode::Established)]);
    assert!(decoded.frames.is_empty());
}

#[test]
fn link_source_decodes_packet_frames_and_signals() {
    let mut raw = RawCodec::default();
    let payload = raw.encode(&frame(&[0.0, 0.25])).unwrap();
    let packet = LxstPacket {
        signals: vec![Signal::Code(SignalCode::Ringing)],
        frames: vec![EncodedFrame::new(CodecKind::Raw, payload)],
    };
    let encoded = packet.encode().unwrap();
    let mut source = LinkSource::with_null_codec(8_000, 1);

    source.handle_packet_bytes(&encoded).unwrap();
    assert_eq!(source.queued_signals(), 1);
    assert_eq!(source.pop_signal(), Some(Signal::Code(SignalCode::Ringing)));
    assert_eq!(source.queued_frames(), 1);

    source.start();
    let frame = source.next_frame().unwrap().unwrap();
    assert_eq!(frame.samplerate(), 8_000);
    assert_eq!(frame.channels(), 1);
    assert_eq!(frame.samples(), [0.0_f32.to_bits(), 0.25_f32.to_bits()]);
}

#[test]
fn link_source_applies_frame_backpressure() {
    let mut raw = RawCodec::default();
    let payload = raw.encode(&frame(&[0.0])).unwrap();
    let mut source = LinkSource::with_null_codec(8_000, 1);
    source.set_max_frames(1);

    source
        .handle_packet(LxstPacket::frame(EncodedFrame::new(
            CodecKind::Raw,
            payload.clone(),
        )))
        .unwrap();
    source
        .handle_packet(LxstPacket::frame(EncodedFrame::new(
            CodecKind::Raw,
            payload,
        )))
        .unwrap();

    assert_eq!(source.queued_frames(), 1);
}

#[test]
fn link_source_keeps_a_bounded_number_of_frames() {
    let payload = RawCodec::default().encode(&frame(&[0.5])).unwrap();
    let mut source = LinkSource::new(RawCodec::default(), 8_000, 1);
    for _ in 0..DEFAULT_LINK_FRAMES + 5 {
        let frame = EncodedFrame::new(CodecKind::Raw, payload.clone());
        source.handle_packet(LxstPacket::frame(frame)).unwrap();
    }
    assert_eq!(source.queued_frames(), DEFAULT_LINK_FRAMES);
    assert!(source.handle_packet_bytes(&[0xc1]).is_err());
}

fn fixed_identity() -> Identity {
    Identity::from_private_key(&[0x11; 64])
}

fn announced_identity(identity_hash: [u8; 16], public_key: [u8; 64]) -> AnnouncedIdentity {
    AnnouncedIdentity {
        dest_hash: telephony_dest_hash(identity_hash),
        identity_hash,
        public_key,
    }
}

#[test]
fn telephony_endpoint_registers_destination_and_link_material() {
    let identity = fixed_identity();
    let endpoint = TelephonyEndpoint::new(identity.hash());

    let private_key = identity.get_private_key().unwrap();
    let public_key = identity.get_public_key().unwrap();
    assert_eq!(
        vec![
            endpoint.register_destination(Some(private_key)),
            endpoint
                .register(Ok(()), Some(private_key), Some(public_key))
                .unwrap(),
        ],
        vec![
            NodeRequest::RegisterDestination {
                dest_hash: endpoint.dest_hash,
                signing_key: Some(private_key),
            },
            NodeRequest::RegisterLinkDestination {
                dest_hash: endpoint.dest_hash,
                sig_prv: private_key[32..64].try_into().unwrap(),
                sig_pub: public_key[32..64].try_into().unwrap(),
                resource_strategy: 0,
            },
        ]
    );
}

#[test]
fn an_endpoint_without_keys_takes_no_links() {
    let endpoint = TelephonyEndpoint::new(&[0x12; 16]);
    assert!(endpoint.register(Ok(()), None, Some([1; 64])).is_err());
    assert!(endpoint.register(Ok(()), Some([1; 64]), None).is_err());
    assert_eq!(
        endpoint.register(Err(NetworkError::Send), Some([1; 64]), Some([1; 64])),
        Err(NetworkError::Send)
    );
}

#[test]
fn telephony_endpoint_announces_destination_without_app_data() {
    let identity = fixed_identity();
    let endpoint = TelephonyEndpoint::new(identity.hash());

    assert_eq!(
        endpoint.announce(),
        NodeRequest::Announce {
            dest_hash: endpoint.dest_hash,
        }
    );
}

#[test]
fn destinations_belong_to_identities() {
    let hash = [0x12; 16];
    let destination = Destination::single_in("lxst", &["telephony"], IdentityHash(hash));
    assert_eq!(telephony_dest_hash(hash), destination.hash.0);
    assert_ne!(telephony_dest_hash(hash), hash);
    assert_ne!(telephony_dest_hash(hash), telephony_dest_hash([0x13; 16]));
}

fn search_path(
    results: impl IntoIterator<Item = bool>,
    timeout: Nanos,
    poll_interval: Nanos,
) -> (bool, Vec<&'static str>) {
    let mut results: VecDeque<bool> = results.into_iter().collect();
    let mut operations = Vec::new();
    let mut now: Nanos = 0;
    let (mut search, mut step) = PathSearch::begin(timeout, poll_interval);
    loop {
        step = match step {
            PathStep::Check => {
                operations.push("has path");
                search.checked(results.pop_front().unwrap_or(false))
            }
            PathStep::Request => {
                operations.push("request path");
                search.requested(now)
            }
            PathStep::Sleep(span) => {
                now += span;
                search.slept(now)
            }
            PathStep::Done(found) => return (found, operations),
        };
    }
}

#[test]
fn request_path_until_returns_immediately_for_known_path() {
    let (found, operations) = search_path([true], 0, 0);
    assert!(found);
    assert_eq!(operations, vec!["has path"]);
}

#[test]
fn request_path_until_requests_unknown_path_before_rechecking() {
    let (found, operations) = search_path([false, true], 0, 0);
    assert!(found);
    assert_eq!(operations, vec!["has path", "request path", "has path"]);
}

#[test]
fn a_path_is_looked_for_until_the_time_is_over() {
    let (found, operations) = search_path([], millis(100), millis(50));
    assert!(!found);
    assert_eq!(operations.len(), 5);
}

#[test]
fn recall_telephony_identity_uses_derived_telephony_destination() {
    let identity_hash = [0x44; 16];
    assert_eq!(
        recall_telephony_identity(identity_hash),
        NodeRequest::RecallIdentity {
            dest_hash: telephony_dest_hash(identity_hash),
        }
    );
}

#[test]
fn create_telephony_link_uses_announced_destination_and_signing_public_key() {
    let identity_hash = [0x66; 16];
    let mut public_key = [0u8; 64];
    for (index, byte) in public_key.iter_mut().enumerate() {
        *byte = index as u8;
    }
    let announced = announced_identity(identity_hash, public_key);

    assert_eq!(
        create_telephony_link(&announced),
        NodeRequest::CreateLink {
            dest_hash: announced.dest_hash,
            sig_pub: public_key[32..64].try_into().unwrap(),
        }
    );
}

#[test]
fn packets_are_sent_on_a_link() {
    let sender = LxstLinkSender::new([0x21; 16]);
    let packet = LxstPacket::signalling(Signal::Code(SignalCode::Busy));
    assert_eq!(
        sender.send_packet(&packet).unwrap(),
        NodeRequest::SendOnLink {
            link_id: [0x21; 16],
            data: packet.encode().unwrap(),
            context: CONTEXT_NONE,
        }
    );
    assert_eq!(CONTEXT_NONE, rns_core::constants::CONTEXT_NONE);
    assert_eq!(
        sender.teardown(),
        NodeRequest::TeardownLink {
            link_id: sender.link_id()
        }
    );
}
