//! The network side: destinations, links, and packets as sources and sinks of sound.
use crate::audio::{AudioFrame, AudioModel};
use crate::audio_codec::{AudioCodec, CodecError};
use crate::codec::CodecKind;
use crate::identity::IdentityHash;
use crate::packet::{EncodedFrame, FrameModel, LxstPacket, PacketError, PacketModel};
use crate::pipeline::{AudioSink, AudioSource, EncodedAudioFrame, EncodedModel, PipelineError};
use crate::raw_codec::NullCodec;
use crate::signalling::Signal;
use crate::time::Nanos;
use std::collections::VecDeque;
use vstd::prelude::*;

verus! {

/// Why the network cannot be used.
#[derive(Debug, Clone, PartialEq)]
pub enum NetworkError {
    Packet(PacketError),
    Send,
    MissingIdentityPrivateKey,
    MissingIdentityPublicKey,
}

impl NetworkError {
    /// The error as text.
    pub open spec fn text(&self) -> Seq<char> {
        match self {
            NetworkError::Packet(error) => error@.text(),
            NetworkError::Send => "RNS send failed"@,
            NetworkError::MissingIdentityPrivateKey => "identity has no private key"@,
            NetworkError::MissingIdentityPublicKey => "identity has no public key"@,
        }
    }

    /// The error as text.
    pub fn message(&self) -> (text: String)
        ensures
            text@ == self.text(),
    {
        match self {
            NetworkError::Packet(error) => error.message(),
            NetworkError::Send => "RNS send failed".to_owned(),
            NetworkError::MissingIdentityPrivateKey => "identity has no private key".to_owned(),
            NetworkError::MissingIdentityPublicKey => "identity has no public key".to_owned(),
        }
    }
}

/// What sends packets.
pub trait PacketSender: Sized {
    /// Whether sending `packet` can give `outcome` and leave the sender as `after`.
    open spec fn sends(self, packet: PacketModel, outcome: Result<(), NetworkError>, after: Self) -> bool {
        true
    }

    /// Sends a packet.
    fn send_packet(&mut self, packet: &LxstPacket) -> (outcome: Result<(), NetworkError>)
        ensures
            old(self).sends(packet@, outcome, *final(self)),
    ;
}

/// A sink that sends every frame as a packet of its own. Once sending failed it takes no more.
#[derive(Debug)]
pub struct Packetizer<S> {
    pub sender: S,
    pub transmit_failure: bool,
}

impl<S: PacketSender> Packetizer<S> {
    /// A sink that sends by `sender`.
    pub fn new(sender: S) -> (packetizer: Self)
        ensures
            packetizer.sender == sender,
            !packetizer.transmit_failure,
    {
        Packetizer { sender, transmit_failure: false }
    }

    /// Whether sending failed.
    pub fn transmit_failure(&self) -> (failed: bool)
        ensures
            failed == self.transmit_failure,
    {
        self.transmit_failure
    }

    /// The sender.
    pub fn sender(&self) -> (sender: &S)
        ensures
            *sender == self.sender,
    {
        &self.sender
    }

    /// The sender, to be changed in place.
    pub fn sender_mut(&mut self) -> (sender: &mut S)
        ensures
            *sender == old(self).sender,
            *final(self) == (Packetizer { sender: *final(sender), ..*old(self) }),
    {
        &mut self.sender
    }

    /// The sender.
    pub fn into_sender(self) -> (sender: S)
        ensures
            sender == self.sender,
    {
        self.sender
    }
}

/// The packet that an encoded frame is sent in.
pub open spec fn packet_of_frame(frame: EncodedModel) -> PacketModel {
    PacketModel {
        signals: Seq::empty(),
        frames: seq![FrameModel { codec: frame.codec, payload: frame.payload }],
    }
}

impl<S: PacketSender> AudioSink for Packetizer<S> {
    open spec fn ready(&self) -> bool {
        !self.transmit_failure
    }

    /// The frame is sent in a packet of its own. A failure to send is kept in mind.
    open spec fn takes(
        self,
        frame: EncodedModel,
        outcome: Result<(), PipelineError>,
        after: Self,
    ) -> bool {
        exists|sent: Result<(), NetworkError>|
            {
                &&& #[trigger] self.sender.sends(packet_of_frame(frame), sent, after.sender)
                &&& match sent {
                    Ok(()) => {
                        &&& outcome is Ok
                        &&& after.transmit_failure == self.transmit_failure
                    },
                    Err(error) => {
                        &&& outcome == Err::<(), PipelineError>(PipelineError::Network(error))
                        &&& after.transmit_failure
                    },
                }
            }
    }

    fn can_receive(&self) -> (ready: bool) {
        !self.transmit_failure
    }

    fn handle_frame(&mut self, frame: EncodedAudioFrame) -> (outcome: Result<(), PipelineError>) {
        let ghost model = frame@;
        let packet = LxstPacket::frame(EncodedFrame::new(frame.codec, frame.payload));
        assert(packet@ =~= packet_of_frame(model));
        let sent = self.sender.send_packet(&packet);
        let ghost sent_copy = sent;
        assert(old(self).sender.sends(packet_of_frame(model), sent_copy, self.sender));
        match sent {
            Ok(unit) => {
                assert(unit == ());
                assert(sent_copy == Ok::<(), NetworkError>(()));
                assert(old(self).sender.sends(packet_of_frame(model), sent_copy, self.sender));
                Ok(())
            },
            Err(error) => {
                self.transmit_failure = true;
                assert(old(self).sender.sends(packet_of_frame(model), sent_copy, self.sender));
                Err(PipelineError::Network(error))
            },
        }
    }
}

/// How many frames a link source keeps unless it is told otherwise.
pub const DEFAULT_LINK_FRAMES: usize = 128;

/// A source that is fed with the packets of a link.
pub struct LinkSource<C: AudioCodec> {
    codec: C,
    samplerate: u32,
    channels: u8,
    signals: VecDeque<Signal>,
    frames: VecDeque<AudioFrame>,
    max_frames: usize,
    running: bool,
}

/// A link source as a mathematical value.
#[verifier::ext_equal]
pub struct LinkModel<C> {
    pub codec: C,
    pub samplerate: u32,
    pub channels: u8,
    pub signals: Seq<Signal>,
    pub frames: Seq<AudioModel>,
    pub max_frames: usize,
    pub running: bool,
}

impl<C: AudioCodec> LinkModel<C> {
    /// Whether taking the first of `frames` after another leads from one source to another:
    /// a frame for which there is no room is left out, any other is decoded and queued, and
    /// the first that cannot be decoded ends it.
    pub open spec fn takes_frames(
        self,
        frames: Seq<FrameModel>,
        outcome: Result<(), PipelineError>,
        after: LinkModel<C>,
    ) -> bool
        decreases frames.len(),
    {
        if frames.len() == 0 {
            outcome is Ok && after == self
        } else if self.frames.len() >= self.max_frames {
            self.takes_frames(frames.skip(1), outcome, after)
        } else {
            exists|decoded: Result<AudioFrame, CodecError>, codec: C|
                {
                    &&& #[trigger] self.codec.decodes(
                        frames[0].payload,
                        self.samplerate,
                        decoded,
                        codec,
                    )
                    &&& match decoded {
                        Ok(frame) => (LinkModel {
                            codec,
                            frames: self.frames.push(frame@),
                            ..self
                        }).takes_frames(frames.skip(1), outcome, after),
                        Err(error) => {
                            &&& outcome == Err::<(), PipelineError>(PipelineError::Codec(error))
                            &&& after == (LinkModel { codec, ..self })
                        },
                    }
                }
        }
    }

    /// The source with room for at most `max_frames` frames, at least one: of those that are too
    /// many the newest are gone.
    pub open spec fn limited(self, max_frames: usize) -> LinkModel<C> {
        let limit = crate::line_sink::at_least(max_frames, 1);
        LinkModel {
            max_frames: limit,
            frames: if self.frames.len() > limit {
                self.frames.take(limit as int)
            } else {
                self.frames
            },
            ..self
        }
    }
}

impl LinkSource<NullCodec> {
    /// A source of sound that is passed on as it is.
    pub fn with_null_codec(samplerate: u32, channels: u8) -> (source: Self)
        ensures
            source.wf(),
            source@ == (LinkModel {
                codec: NullCodec,
                samplerate,
                channels,
                signals: Seq::empty(),
                frames: Seq::empty(),
                max_frames: DEFAULT_LINK_FRAMES,
                running: false,
            }),
    {
        LinkSource::new(NullCodec, samplerate, channels)
    }
}

impl<C: AudioCodec> LinkSource<C> {
    /// The source as a mathematical value.
    pub closed spec fn view(&self) -> LinkModel<C> {
        LinkModel {
            codec: self.codec,
            samplerate: self.samplerate,
            channels: self.channels,
            signals: self.signals@,
            frames: crate::line_sink::audio_models(self.frames@),
            max_frames: self.max_frames,
            running: self.running,
        }
    }

    /// What holds of every link source.
    pub open spec fn wf(&self) -> bool {
        self@.max_frames >= 1 && self@.frames.len() <= self@.max_frames
    }

    /// A source that decodes with `codec`.
    pub fn new(codec: C, samplerate: u32, channels: u8) -> (source: Self)
        ensures
            source.wf(),
            source@ == (LinkModel {
                codec,
                samplerate,
                channels,
                signals: Seq::empty(),
                frames: Seq::empty(),
                max_frames: DEFAULT_LINK_FRAMES,
                running: false,
            }),
    {
        let source = LinkSource {
            codec,
            samplerate,
            channels,
            signals: VecDeque::new(),
            frames: VecDeque::new(),
            max_frames: DEFAULT_LINK_FRAMES,
            running: false,
        };
        assert(source@.frames =~= Seq::empty());
        assert(source@.signals =~= Seq::empty());
        source
    }

    /// Lets the source keep at most `max_frames` frames, at least one. The newest of those
    /// that are too many are dropped.
    pub fn set_max_frames(&mut self, max_frames: usize)
        requires
            old(self).wf(),
        ensures
            final(self).wf(),
            final(self)@ == old(self)@.limited(max_frames),
    {
        let limit: usize = if max_frames < 1 {
            1
        } else {
            max_frames
        };
        let ghost before = self.frames@;
        self.max_frames = limit;
        self.frames.truncate(limit);
        proof {
            if before.len() > limit {
                assert(self.frames@ =~= before.take(limit as int));
                assert(self@.frames =~= old(self)@.frames.take(limit as int));
            } else {
                assert(self.frames@ =~= before);
            }
        }
    }

    /// Takes the signals and frames of a packet.
    pub fn handle_packet(&mut self, packet: LxstPacket) -> (outcome: Result<(), PipelineError>)
        requires
            old(self).wf(),
        ensures
            final(self).wf(),
            (LinkModel {
                signals: old(self)@.signals + packet@.signals,
                ..old(self)@
            }).takes_frames(packet@.frames, outcome, final(self)@),
    {
        let mut i: usize = 0;
        while i < packet.signals.len()
            invariant
                i <= packet.signals@.len(),
                self.wf(),
                self@ == (LinkModel {
                    signals: old(self)@.signals + packet.signals@.take(i as int),
                    ..old(self)@
                }),
            decreases packet.signals.len() - i,
        {
            self.signals.push_back(packet.signals[i]);
            assert(self@.signals =~= old(self)@.signals + packet.signals@.take(i + 1));
            i += 1;
        }
        assert(packet.signals@.take(i as int) =~= packet.signals@);
        let ghost start = self@;
        let ghost all = packet@.frames;
        let mut k: usize = 0;
        assert(all.skip(0) =~= all);
        while k < packet.frames.len()
            invariant
                k <= packet.frames@.len(),
                all == packet@.frames,
                start == (LinkModel { signals: old(self)@.signals + packet@.signals, ..old(self)@ }),
                self.wf(),
                self@.max_frames == start.max_frames,
                forall|outcome: Result<(), PipelineError>, after: LinkModel<C>|
                    #[trigger] self@.takes_frames(all.skip(k as int), outcome, after)
                        ==> start.takes_frames(all, outcome, after),
            decreases packet.frames.len() - k,
        {
            let ghost before = self@;
            let ghost rest = all.skip(k as int);
            assert(rest.skip(1) =~= all.skip(k + 1));
            assert(rest[0] == packet.frames@[k as int]@);
            if self.frames.len() < self.max_frames {
                let decoded = self.codec.decode(&packet.frames[k].payload, self.samplerate);
                let ghost decoded_copy = decoded;
                assert(before.codec.decodes(
                    rest[0].payload,
                    before.samplerate,
                    decoded_copy,
                    self.codec,
                ));
                match decoded {
                    Ok(frame) => {
                        self.frames.push_back(frame);
                        assert(self@.frames =~= before.frames.push(frame@));
                        assert(self@ =~= LinkModel {
                            codec: self.codec,
                            frames: before.frames.push(frame@),
                            ..before
                        });
                        assert forall|outcome: Result<(), PipelineError>, after: LinkModel<C>|
                            #[trigger] self@.takes_frames(
                                all.skip(k + 1),
                                outcome,
                                after,
                            ) implies start.takes_frames(all, outcome, after) by {
                            assert(before.takes_frames(rest, outcome, after));
                        }
                    },
                    Err(error) => {
                        let outcome: Result<(), PipelineError> = Err(PipelineError::Codec(error));
                        assert(self@ =~= LinkModel { codec: self.codec, ..before });
                        assert(before.takes_frames(rest, outcome, self@));
                        assert(start.takes_frames(all, outcome, self@));
                        return outcome;
                    },
                }
            } else {
                assert forall|outcome: Result<(), PipelineError>, after: LinkModel<C>|
                    #[trigger] self@.takes_frames(
                        all.skip(k + 1),
                        outcome,
                        after,
                    ) implies start.takes_frames(all, outcome, after) by {
                    assert(before.takes_frames(rest, outcome, after));
                }
            }
            k += 1;
        }
        assert(self@.takes_frames(all.skip(k as int), Ok::<(), PipelineError>(()), self@));
        Ok(())
    }

    /// Takes the signals and frames of a packet on the wire. Bytes that are no packet change
    /// nothing.
    pub fn handle_packet_bytes(&mut self, data: &[u8]) -> (outcome: Result<(), PipelineError>)
        requires
            old(self).wf(),
        ensures
            final(self).wf(),
            match crate::packet::packet_of_bytes(data@) {
                Err(fault) => {
                    &&& outcome matches Err(PipelineError::Network(NetworkError::Packet(error)))
                    &&& error@ == fault
                    &&& *final(self) == *old(self)
                },
                Ok(packet) => (LinkModel {
                    signals: old(self)@.signals + packet.signals,
                    ..old(self)@
                }).takes_frames(packet.frames, outcome, final(self)@),
            },
    {
        match LxstPacket::decode(data) {
            Ok(packet) => self.handle_packet(packet),
            Err(error) => Err(PipelineError::Network(NetworkError::Packet(error))),
        }
    }

    /// How many signals wait.
    pub fn queued_signals(&self) -> (count: usize)
        ensures
            count == self@.signals.len(),
    {
        self.signals.len()
    }

    /// Takes the oldest signal out.
    pub fn pop_signal(&mut self) -> (signal: Option<Signal>)
        requires
            old(self).wf(),
        ensures
            final(self).wf(),
            match signal {
                Some(signal) => {
                    &&& old(self)@.signals.len() > 0
                    &&& signal == old(self)@.signals[0]
                    &&& final(self)@ == (LinkModel {
                        signals: old(self)@.signals.skip(1),
                        ..old(self)@
                    })
                },
                None => old(self)@.signals.len() == 0 && final(self)@ == old(self)@,
            },
    {
        let ghost before = self@.signals;
        let signal = self.signals.pop_front();
        proof {
            if before.len() > 0 {
                assert(self@.signals =~= before.skip(1));
            } else {
                assert(self@.signals =~= before);
            }
        }
        signal
    }

    /// How many frames wait.
    pub fn queued_frames(&self) -> (count: usize)
        ensures
            count == self@.frames.len(),
    {
        self.frames.len()
    }
}

impl<C: AudioCodec> AudioSource for LinkSource<C> {
    open spec fn running(&self) -> bool {
        self@.running
    }

    open spec fn rate(&self) -> u32 {
        self@.samplerate
    }

    open spec fn channel_count(&self) -> u8 {
        self@.channels
    }

    open spec fn starts(self, after: Self) -> bool {
        after@ == (LinkModel { running: true, ..self@ })
    }

    open spec fn stops(self, after: Self) -> bool {
        after@ == (LinkModel { running: false, ..self@ })
    }

    /// While it runs, the oldest frame is given.
    open spec fn gives(
        self,
        outcome: Result<Option<AudioFrame>, PipelineError>,
        after: Self,
    ) -> bool {
        if self@.running && self@.frames.len() > 0 {
            &&& outcome matches Ok(Some(frame)) && frame@ == self@.frames[0]
            &&& after@ == (LinkModel { frames: self@.frames.skip(1), ..self@ })
        } else {
            &&& outcome matches Ok(None)
            &&& after@ == self@
        }
    }

    fn start(&mut self) {
        self.running = true;
    }

    fn stop(&mut self) {
        self.running = false;
    }

    fn is_running(&self) -> (running: bool) {
        self.running
    }

    fn samplerate(&self) -> (samplerate: u32) {
        self.samplerate
    }

    fn channels(&self) -> (channels: u8) {
        self.channels
    }

    fn next_frame(&mut self) -> (outcome: Result<Option<AudioFrame>, PipelineError>) {
        let ghost before = self@;
        if self.running {
            let frame = self.frames.pop_front();
            proof {
                if before.frames.len() > 0 {
                    assert(self@.frames =~= before.frames.skip(1));
                } else {
                    assert(self@.frames =~= before.frames);
                }
            }
            Ok(frame)
        } else {
            Ok(None)
        }
    }
}

/// The application name of the destinations.
pub const APP_NAME: &'static str = "lxst";

/// The aspect of the destinations that take calls.
pub const TELEPHONY_PRIMITIVE: &'static str = "telephony";

/// The hash of the destination that an identity has for an application and an aspect.
pub uninterp spec fn destination_hash(
    app_name: Seq<char>,
    aspect: Seq<char>,
    identity_hash: Seq<u8>,
) -> Seq<u8>;

/// `rns_net::Destination::single_in`, of which the `hash` is taken: the hash of the
/// destination, a function of the names and the identity alone. A name with a dot in it is
/// not taken.
#[verifier::external_body]
fn single_in_hash(app_name: &str, aspect: &str, identity_hash: IdentityHash) -> (hash: [u8; 16])
    requires
        !app_name@.contains('.'),
        !aspect@.contains('.'),
    ensures
        hash@ == destination_hash(app_name@, aspect@, identity_hash@),
{
    rns_net::Destination::single_in(
        app_name,
        &[aspect],
        rns_core::types::IdentityHash(identity_hash),
    ).hash.0
}

/// The hash of the destination at which an identity takes calls.
pub open spec fn telephony_destination(identity_hash: Seq<u8>) -> Seq<u8> {
    destination_hash("lxst"@, "telephony"@, identity_hash)
}

/// The hash of the destination at which an identity takes calls.
pub fn telephony_dest_hash(identity_hash: IdentityHash) -> (hash: [u8; 16])
    ensures
        hash@ == telephony_destination(identity_hash@),
{
    proof {
        reveal_strlit("lxst");
        reveal_strlit("telephony");
    }
    single_in_hash("lxst", "telephony", identity_hash)
}

/// What is known of an identity that announced itself.
#[derive(Debug, Clone, Copy, PartialEq, Eq)]
pub struct AnnouncedIdentity {
    pub dest_hash: [u8; 16],
    pub identity_hash: IdentityHash,
    pub public_key: [u8; 64],
}

/// What the node of the network is asked to do.
#[derive(Debug, PartialEq, Eq)]
pub enum NodeRequest {
    /// Register a destination with the key that proves what reaches it.
    RegisterDestination { dest_hash: [u8; 16], signing_key: Option<[u8; 64]> },
    /// Let links be opened to a destination.
    RegisterLinkDestination {
        dest_hash: [u8; 16],
        sig_prv: [u8; 32],
        sig_pub: [u8; 32],
        resource_strategy: u8,
    },
    /// Announce a destination, with no data of the application.
    Announce { dest_hash: [u8; 16] },
    /// Say what is known of the identity behind a destination.
    RecallIdentity { dest_hash: [u8; 16] },
    /// Open a link.
    CreateLink { dest_hash: [u8; 16], sig_pub: [u8; 32] },
    /// Send data on a link.
    SendOnLink { link_id: [u8; 16], data: Vec<u8>, context: u8 },
    /// Close a link.
    TeardownLink { link_id: [u8; 16] },
}

/// The upper half of a key: the part that signs.
pub fn signing_half(key: &[u8; 64]) -> (half: [u8; 32])
    ensures
        half@ == key@.skip(32),
{
    let mut half: [u8; 32] = [0u8; 32];
    let mut i: usize = 0;
    while i < 32
        invariant
            i <= 32,
            forall|j: int| 0 <= j < i ==> half@[j] == key@[32 + j],
        decreases 32 - i,
    {
        half[i] = key[32 + i];
        i += 1;
    }
    assert(half@ =~= key@.skip(32));
    half
}

/// The place at which an identity takes calls.
#[derive(Debug, Clone, Copy, PartialEq, Eq)]
pub struct TelephonyEndpoint {
    pub dest_hash: [u8; 16],
}

impl TelephonyEndpoint {
    /// The place at which an identity takes calls.
    pub fn new(identity_hash: &IdentityHash) -> (endpoint: Self)
        ensures
            endpoint.dest_hash@ == telephony_destination(identity_hash@),
    {
        TelephonyEndpoint { dest_hash: telephony_dest_hash(*identity_hash) }
    }

    /// The first request that registers the place: that for the destination itself.
    pub fn register_destination(&self, private_key: Option<[u8; 64]>) -> (request: NodeRequest)
        ensures
            request == (NodeRequest::RegisterDestination {
                dest_hash: self.dest_hash,
                signing_key: private_key,
            }),
    {
        NodeRequest::RegisterDestination { dest_hash: self.dest_hash, signing_key: private_key }
    }

    /// The second request that registers the place: once the destination is registered, that
    /// for its links, with the signing halves of both keys.
    pub fn register(
        &self,
        registered: Result<(), NetworkError>,
        private_key: Option<[u8; 64]>,
        public_key: Option<[u8; 64]>,
    ) -> (request: Result<NodeRequest, NetworkError>)
        ensures
            match registered {
                Err(error) => request == Err::<NodeRequest, NetworkError>(error),
                Ok(_) => match request {
                    Ok(
                        NodeRequest::RegisterLinkDestination {
                            dest_hash,
                            sig_prv,
                            sig_pub,
                            resource_strategy,
                        },
                    ) => {
                        &&& private_key is Some && public_key is Some
                        &&& dest_hash == self.dest_hash
                        &&& sig_prv@ == private_key->0@.skip(32)
                        &&& sig_pub@ == public_key->0@.skip(32)
                        &&& resource_strategy == 0
                    },
                    Ok(_) => false,
                    Err(error) => error == (if private_key is None {
                        NetworkError::MissingIdentityPrivateKey
                    } else {
                        NetworkError::MissingIdentityPublicKey
                    }) && (private_key is None || public_key is None),
                },
            },
    {
        match registered {
            Ok(()) => {},
            Err(error) => return Err(error),
        }
        match link_material(private_key, public_key) {
            Ok((sig_prv, sig_pub)) => Ok(
                NodeRequest::RegisterLinkDestination {
                    dest_hash: self.dest_hash,
                    sig_prv,
                    sig_pub,
                    resource_strategy: 0,
                },
            ),
            Err(error) => Err(error),
        }
    }

    /// The request that announces the place.
    pub fn announce(&self) -> (request: NodeRequest)
        ensures
            request == (NodeRequest::Announce { dest_hash: self.dest_hash }),
    {
        NodeRequest::Announce { dest_hash: self.dest_hash }
    }
}

/// The signing halves of the keys that links are registered with.
pub fn link_material(private_key: Option<[u8; 64]>, public_key: Option<[u8; 64]>) -> (halves: Result<
    ([u8; 32], [u8; 32]),
    NetworkError,
>)
    ensures
        match halves {
            Ok(halves) => {
                &&& private_key is Some && public_key is Some
                &&& halves.0@ == private_key->0@.skip(32)
                &&& halves.1@ == public_key->0@.skip(32)
            },
            Err(error) => if private_key is None {
                error == NetworkError::MissingIdentityPrivateKey
            } else {
                public_key is None && error == NetworkError::MissingIdentityPublicKey
            },
        },
{
    match private_key {
        None => Err(NetworkError::MissingIdentityPrivateKey),
        Some(private_key) => match public_key {
            None => Err(NetworkError::MissingIdentityPublicKey),
            Some(public_key) => Ok((signing_half(&private_key), signing_half(&public_key))),
        },
    }
}

/// The request for what is known of an identity that takes calls.
pub fn recall_telephony_identity(identity_hash: IdentityHash) -> (request: NodeRequest)
    ensures
        request matches NodeRequest::RecallIdentity { dest_hash } && dest_hash@
            == telephony_destination(identity_hash@),
{
    NodeRequest::RecallIdentity { dest_hash: telephony_dest_hash(identity_hash) }
}

/// The request for a link to an identity that takes calls, with the signing half of its key.
pub fn create_telephony_link(announced: &AnnouncedIdentity) -> (request: NodeRequest)
    ensures
        request matches NodeRequest::CreateLink { dest_hash, sig_pub } && dest_hash
            == announced.dest_hash && sig_pub@ == announced.public_key@.skip(32),
{
    NodeRequest::CreateLink {
        dest_hash: announced.dest_hash,
        sig_pub: signing_half(&announced.public_key),
    }
}

/// The context of the packets of a call: none.
pub const CONTEXT_NONE: u8 = 0;

/// The sending end of a link.
#[derive(Debug, Clone, Copy, PartialEq, Eq)]
pub struct LxstLinkSender {
    pub link_id: [u8; 16],
}

impl LxstLinkSender {
    /// The sending end of a link.
    pub fn new(link_id: [u8; 16]) -> (sender: Self)
        ensures
            sender.link_id == link_id,
    {
        LxstLinkSender { link_id }
    }

    /// The link.
    pub fn link_id(&self) -> (link_id: [u8; 16])
        ensures
            link_id == self.link_id,
    {
        self.link_id
    }

    /// The request that sends a packet.
    pub fn send_packet(&self, packet: &LxstPacket) -> (request: Result<NodeRequest, NetworkError>)
        ensures
            request matches Ok(NodeRequest::SendOnLink { link_id, data, context }) && {
                &&& link_id == self.link_id
                &&& context == CONTEXT_NONE
                &&& data@ == crate::packed::packed_bytes(packet@.tree())
                &&& packet@.fits_wire() ==> crate::packet::packet_of_bytes(data@) == Ok::<
                    PacketModel,
                    crate::packet::PacketFault,
                >(packet@.with_read_signals())
            },
    {
        match packet.encode() {
            Ok(data) => Ok(
                NodeRequest::SendOnLink { link_id: self.link_id, data, context: CONTEXT_NONE },
            ),
            Err(error) => Err(NetworkError::Packet(error)),
        }
    }

    /// The request that closes the link.
    pub fn teardown(&self) -> (request: NodeRequest)
        ensures
            request == (NodeRequest::TeardownLink { link_id: self.link_id }),
    {
        NodeRequest::TeardownLink { link_id: self.link_id }
    }
}

/// What the search for a path asks for next.
#[derive(Debug, Clone, Copy, PartialEq, Eq, Structural)]
pub enum PathStep {
    /// Look whether there is a path.
    Check,
    /// Ask the network for a path.
    Request,
    /// Wait, then say so.
    Sleep(Nanos),
    /// The search is over, with or without a path.
    Done(bool),
}

/// How far a search for a path is.
#[derive(Debug, Clone, Copy, PartialEq, Eq, Structural)]
pub enum PathState {
    /// It is looked for a path before asking.
    First,
    /// A path was asked for.
    Requested,
    /// It is looked for a path until the deadline.
    Polling { deadline: Nanos },
    /// It is looked for a path one last time.
    Last,
    /// The search is over.
    Over,
}

/// A search for a path: it looks once, asks, then looks again and again until the time is
/// over, and once more at the end.
#[derive(Debug, Clone, Copy, PartialEq, Eq, Structural)]
pub struct PathSearch {
    pub timeout: Nanos,
    pub poll_interval: Nanos,
    pub state: PathState,
}

impl PathSearch {
    /// A search that looks for the first time.
    pub fn begin(timeout: Nanos, poll_interval: Nanos) -> (search: (Self, PathStep))
        ensures
            search.0 == (PathSearch { timeout, poll_interval, state: PathState::First }),
            search.1 == PathStep::Check,
    {
        (PathSearch { timeout, poll_interval, state: PathState::First }, PathStep::Check)
    }

    /// Whether to look again or for the last time.
    pub open spec fn round(deadline: Nanos, now: Nanos) -> PathState {
        if now < deadline {
            PathState::Polling { deadline }
        } else {
            PathState::Last
        }
    }

    /// The search after it was looked for a path, and what to do then.
    pub open spec fn after_check(self, found: bool) -> (PathSearch, PathStep) {
        let over = PathSearch { state: PathState::Over, ..self };
        if found {
            (over, PathStep::Done(true))
        } else {
            match self.state {
                PathState::First => (
                    PathSearch { state: PathState::Requested, ..self },
                    PathStep::Request,
                ),
                PathState::Polling { .. } => (self, PathStep::Sleep(self.poll_interval)),
                _ => (over, PathStep::Done(false)),
            }
        }
    }

    /// The search after waiting.
    pub open spec fn after_sleep(self, now: Nanos) -> PathSearch {
        match self.state {
            PathState::Polling { deadline } => PathSearch {
                state: PathSearch::round(deadline, now),
                ..self
            },
            _ => self,
        }
    }

    /// Goes on after it was looked for a path.
    pub fn checked(&mut self, found: bool) -> (step: PathStep)
        ensures
            (*final(self), step) == old(self).after_check(found),
    {
        if found {
            self.state = PathState::Over;
            return PathStep::Done(true);
        }
        match self.state {
            PathState::First => {
                self.state = PathState::Requested;
                PathStep::Request
            },
            PathState::Polling { .. } => PathStep::Sleep(self.poll_interval),
            _ => {
                self.state = PathState::Over;
                PathStep::Done(false)
            },
        }
    }

    /// Goes on after a path was asked for.
    pub fn requested(&mut self, now: Nanos) -> (step: PathStep)
        requires
            now + old(self).timeout <= u64::MAX,
        ensures
            final(self).timeout == old(self).timeout,
            final(self).poll_interval == old(self).poll_interval,
            step is Check,
            final(self).state == PathSearch::round((now + old(self).timeout) as Nanos, now),
    {
        let deadline: Nanos = now + self.timeout;
        self.state = if now < deadline {
            PathState::Polling { deadline }
        } else {
            PathState::Last
        };
        PathStep::Check
    }

    /// Goes on after waiting.
    pub fn slept(&mut self, now: Nanos) -> (step: PathStep)
        ensures
            *final(self) == old(self).after_sleep(now),
            step is Check,
    {
        if let PathState::Polling { deadline } = self.state {
            self.state = if now < deadline {
                PathState::Polling { deadline }
            } else {
                PathState::Last
            };
        }
        PathStep::Check
    }
}

/// What the network brings.
#[derive(Debug, PartialEq, Eq)]
pub enum TelephonyNetworkEvent {
    /// An identity announced itself.
    Announce(AnnouncedIdentity),
    /// The way to a destination is known.
    PathUpdated { dest_hash: [u8; 16], hops: u8 },
    /// A packet came that is for no link.
    LocalDelivery { dest_hash: [u8; 16] },
    /// A link was opened, from here or from there.
    LinkEstablished { link_id: [u8; 16], dest_hash: [u8; 16], is_initiator: bool },
    /// A link was closed.
    LinkClosed { link_id: [u8; 16] },
    /// The party at the other end of a link said who it is.
    RemoteIdentified { link_id: [u8; 16], identity_hash: IdentityHash },
    /// Data came on a link.
    LinkData { link_id: [u8; 16], context: u8, data: Vec<u8> },
}

/// A link source holds no more frames than it may, whatever comes in, and what it held
/// stays in front.
pub proof fn law_link_source_stays_bounded<C: AudioCodec>(
    source: LinkModel<C>,
    frames: Seq<FrameModel>,
    outcome: Result<(), PipelineError>,
    after: LinkModel<C>,
)
    requires
        source.takes_frames(frames, outcome, after),
        source.frames.len() <= source.max_frames,
    ensures
        after.frames.len() <= source.max_frames,
        source.frames.is_prefix_of(after.frames),
        after.max_frames == source.max_frames,
        after.signals == source.signals,
    decreases frames.len(),
{
    if frames.len() == 0 {
    } else if source.frames.len() >= source.max_frames {
        law_link_source_stays_bounded(source, frames.skip(1), outcome, after);
    } else {
        let (decoded, codec) = choose|decoded: Result<AudioFrame, CodecError>, codec: C|
            {
                &&& #[trigger] source.codec.decodes(
                    frames[0].payload,
                    source.samplerate,
                    decoded,
                    codec,
                )
                &&& match decoded {
                    Ok(frame) => (LinkModel {
                        codec,
                        frames: source.frames.push(frame@),
                        ..source
                    }).takes_frames(frames.skip(1), outcome, after),
                    Err(error) => {
                        &&& outcome == Err::<(), PipelineError>(PipelineError::Codec(error))
                        &&& after == (LinkModel { codec, ..source })
                    },
                }
            };
        if let Ok(frame) = decoded {
            let next = LinkModel { codec, frames: source.frames.push(frame@), ..source };
            law_link_source_stays_bounded(next, frames.skip(1), outcome, after);
            assert(source.frames.is_prefix_of(next.frames));
        }
    }
}

/// A search that waits for a path goes on looking until its time is over, and then looks
/// once more before it gives up.
pub proof fn law_path_search_gives_up_late(search: PathSearch, deadline: Nanos, now: Nanos)
    requires
        search.state == (PathState::Polling { deadline }),
    ensures
        search.after_check(false).1 == PathStep::Sleep(search.poll_interval),
        search.after_check(false).0 == search,
        now < deadline ==> search.after_sleep(now) == search,
        now >= deadline ==> search.after_sleep(now).state is Last,
        now >= deadline ==> search.after_sleep(now).after_check(false).1 == PathStep::Done(false),
{
}

/// A path that is found ends the search at once.
pub proof fn law_found_path_ends_the_search(search: PathSearch)
    ensures
        search.after_check(true).1 == PathStep::Done(true),
        search.after_check(true).0.state is Over,
{
}

/// A link source takes every frame that it has room for, and fails only at a frame that cannot
/// be decoded.
pub proof fn law_link_source_takes_what_fits<C: AudioCodec>(
    source: LinkModel<C>,
    frames: Seq<FrameModel>,
    outcome: Result<(), PipelineError>,
    after: LinkModel<C>,
)
    requires
        source.takes_frames(frames, outcome, after),
        source.frames.len() <= source.max_frames,
    ensures
        outcome is Ok ==> after.frames.len() == (if source.frames.len() + frames.len()
            <= source.max_frames {
            (source.frames.len() + frames.len()) as int
        } else {
            source.max_frames as int
        }),
        outcome is Err ==> outcome->Err_0 is Codec && after.frames.len() < source.frames.len()
            + frames.len() && after.frames.len() < source.max_frames,
        after.samplerate == source.samplerate,
        after.channels == source.channels,
        after.running == source.running,
    decreases frames.len(),
{
    if frames.len() == 0 {
    } else if source.frames.len() >= source.max_frames {
        law_link_source_takes_what_fits(source, frames.skip(1), outcome, after);
        law_link_source_stays_bounded(source, frames.skip(1), outcome, after);
    } else {
        let (decoded, codec) = choose|decoded: Result<AudioFrame, CodecError>, codec: C|
            {
                &&& #[trigger] source.codec.decodes(
                    frames[0].payload,
                    source.samplerate,
                    decoded,
                    codec,
                )
                &&& match decoded {
                    Ok(frame) => (LinkModel {
                        codec,
                        frames: source.frames.push(frame@),
                        ..source
                    }).takes_frames(frames.skip(1), outcome, after),
                    Err(error) => {
                        &&& outcome == Err::<(), PipelineError>(PipelineError::Codec(error))
                        &&& after == (LinkModel { codec, ..source })
                    },
                }
            };
        if let Ok(frame) = decoded {
            let next = LinkModel { codec, frames: source.frames.push(frame@), ..source };
            law_link_source_takes_what_fits(next, frames.skip(1), outcome, after);
        }
    }
}

/// A frame that a link source has room for is decoded at the rate of the source and put behind
/// what waits.
pub proof fn law_link_source_decodes_at_its_rate<C: AudioCodec>(
    source: LinkModel<C>,
    frame: FrameModel,
    outcome: Result<(), PipelineError>,
    after: LinkModel<C>,
)
    requires
        source.takes_frames(seq![frame], outcome, after),
        source.frames.len() < source.max_frames,
    ensures
        match outcome {
            Ok(_) => exists|decoded: AudioFrame| #[trigger]
                source.codec.decodes(
                    frame.payload,
                    source.samplerate,
                    Ok::<AudioFrame, CodecError>(decoded),
                    after.codec,
                ) && after.frames == source.frames + seq![decoded@],
            Err(error) => after.frames == source.frames && (error matches PipelineError::Codec(
                fault,
            ) && source.codec.decodes(
                frame.payload,
                source.samplerate,
                Err::<AudioFrame, CodecError>(fault),
                after.codec,
            )),
        },
{
    let frames = seq![frame];
    assert(frames.skip(1) =~= Seq::<FrameModel>::empty());
    let (decoded, codec) = choose|decoded: Result<AudioFrame, CodecError>, codec: C|
        {
            &&& #[trigger] source.codec.decodes(
                frames[0].payload,
                source.samplerate,
                decoded,
                codec,
            )
            &&& match decoded {
                Ok(frame) => (LinkModel {
                    codec,
                    frames: source.frames.push(frame@),
                    ..source
                }).takes_frames(frames.skip(1), outcome, after),
                Err(error) => {
                    &&& outcome == Err::<(), PipelineError>(PipelineError::Codec(error))
                    &&& after == (LinkModel { codec, ..source })
                },
            }
        };
    match decoded {
        Ok(sound) => {
            assert(source.frames.push(sound@) =~= source.frames + seq![sound@]);
            let next = LinkModel { codec, frames: source.frames.push(sound@), ..source };
            assert(next.takes_frames(Seq::empty(), outcome, after));
            assert(after == next);
            assert(source.codec.decodes(
                frame.payload,
                source.samplerate,
                Ok::<AudioFrame, CodecError>(sound),
                after.codec,
            ));
        },
        Err(fault) => {
            assert(decoded == Err::<AudioFrame, CodecError>(fault));
        },
    }
}

/// Frames are taken in the order in which they came: those of two packets one after another, as
/// if they had come in one.
pub proof fn law_link_source_takes_in_order<C: AudioCodec>(
    source: LinkModel<C>,
    first: Seq<FrameModel>,
    second: Seq<FrameModel>,
    middle: LinkModel<C>,
    outcome: Result<(), PipelineError>,
    after: LinkModel<C>,
)
    requires
        source.takes_frames(first, Ok::<(), PipelineError>(()), middle),
        middle.takes_frames(second, outcome, after),
    ensures
        source.takes_frames(first + second, outcome, after),
    decreases first.len(),
{
    let all = first + second;
    if first.len() == 0 {
        assert(all =~= second);
    } else {
        assert(all.skip(1) =~= first.skip(1) + second);
        if source.frames.len() >= source.max_frames {
            law_link_source_takes_in_order(source, first.skip(1), second, middle, outcome, after);
        } else {
            let (decoded, codec) = choose|decoded: Result<AudioFrame, CodecError>, codec: C|
                {
                    &&& #[trigger] source.codec.decodes(
                        first[0].payload,
                        source.samplerate,
                        decoded,
                        codec,
                    )
                    &&& decoded matches Ok(frame) && (LinkModel {
                        codec,
                        frames: source.frames.push(frame@),
                        ..source
                    }).takes_frames(first.skip(1), Ok::<(), PipelineError>(()), middle)
                };
            let next = LinkModel { codec, frames: source.frames.push(decoded->Ok_0@), ..source };
            law_link_source_takes_in_order(next, first.skip(1), second, middle, outcome, after);
            assert(all[0] == first[0]);
            assert(source.codec.decodes(all[0].payload, source.samplerate, decoded, codec));
        }
    }
}

/// While it runs, a link source gives its frames from the oldest on, and keeps the others; one
/// that is stopped or empty gives nothing and stays as it is.
pub proof fn law_link_source_gives_the_oldest_frame<C: AudioCodec>(
    before: LinkSource<C>,
    outcome: Result<Option<AudioFrame>, PipelineError>,
    after: LinkSource<C>,
)
    requires
        before.gives(outcome, after),
    ensures
        outcome is Ok,
        outcome->Ok_0 is Some <==> before@.running && before@.frames.len() > 0,
        outcome->Ok_0 matches Some(frame) ==> before@.frames == seq![frame@] + after@.frames,
        outcome->Ok_0 is None ==> after@ == before@,
        after@.signals == before@.signals,
        after@.running == before@.running,
        after@.samplerate == before@.samplerate,
        after@.channels == before@.channels,
        after@.max_frames == before@.max_frames,
{
    if let Ok(Some(frame)) = outcome {
        assert(before@.frames =~= seq![frame@] + after@.frames);
    }
}

/// Starting and stopping a link source loses neither frames nor signals.
pub proof fn law_link_source_starts_and_stops<C: AudioCodec>(
    source: LinkSource<C>,
    started: LinkSource<C>,
    stopped: LinkSource<C>,
)
    requires
        source.starts(started),
        source.stops(stopped),
    ensures
        started.running() && !stopped.running(),
        started@.frames == source@.frames && stopped@.frames == source@.frames,
        started@.signals == source@.signals && stopped@.signals == source@.signals,
        started.rate() == source@.samplerate && stopped.rate() == source@.samplerate,
        started.channel_count() == source@.channels && stopped.channel_count()
            == source@.channels,
{
}

/// A frame is sent in a packet of its own, without signals.
pub proof fn law_packet_carries_the_frame(frame: EncodedModel)
    ensures
        packet_of_frame(frame).signals.len() == 0,
        packet_of_frame(frame).frames.len() == 1,
        packet_of_frame(frame).frames[0].codec == frame.codec,
        packet_of_frame(frame).frames[0].payload == frame.payload,
{
}

/// A packetizer sends each frame that it takes; a failure to send is told and remembered, and no
/// success takes it back.
pub proof fn law_packetizer_remembers_a_failure<S: PacketSender>(
    before: Packetizer<S>,
    frame: EncodedModel,
    outcome: Result<(), PipelineError>,
    after: Packetizer<S>,
)
    requires
        before.takes(frame, outcome, after),
    ensures
        exists|packet: PacketModel, sent: Result<(), NetworkError>|
            {
                &&& #[trigger] before.sender.sends(packet, sent, after.sender)
                &&& packet.signals.len() == 0
                &&& packet.frames == seq![FrameModel { codec: frame.codec, payload: frame.payload }]
                &&& sent is Ok <==> outcome is Ok
                &&& sent matches Err(error) ==> outcome == Err::<(), PipelineError>(
                    PipelineError::Network(error),
                )
            },
        outcome is Err ==> !after.ready(),
        outcome is Ok ==> after.ready() == before.ready(),
        before.ready() <==> !before.transmit_failure,
{
    let sent = choose|sent: Result<(), NetworkError>|
        {
            &&& #[trigger] before.sender.sends(packet_of_frame(frame), sent, after.sender)
            &&& match sent {
                Ok(()) => outcome is Ok,
                Err(error) => outcome == Err::<(), PipelineError>(PipelineError::Network(error)),
            }
        };
    let packet = packet_of_frame(frame);
    assert(before.sender.sends(packet, sent, after.sender));
    assert(packet.frames =~= seq![FrameModel { codec: frame.codec, payload: frame.payload }]);
}

/// An identity takes calls at the destination of the application `lxst` and the aspect
/// `telephony`.
pub proof fn law_calls_are_taken_at_one_place(identity_hash: Seq<u8>)
    ensures
        telephony_destination(identity_hash) == destination_hash(
            "lxst"@,
            "telephony"@,
            identity_hash,
        ),
{
}

/// A search that found no path at its first look asks the network for one, once; a path that is
/// not there at the last look ends it without one. Its times stay as they were set.
pub proof fn law_path_is_asked_for_once(search: PathSearch, now: Nanos)
    ensures
        search.after_check(false).1 is Request <==> search.state is First,
        search.state is First ==> search.after_check(false).0.state is Requested,
        search.state is Last ==> search.after_check(false).1 == PathStep::Done(false)
            && search.after_check(false).0.state is Over,
        search.after_check(false).1 is Sleep <==> search.state is Polling,
        search.after_check(false).0.timeout == search.timeout,
        search.after_check(false).0.poll_interval == search.poll_interval,
        search.after_check(true).0.timeout == search.timeout,
        search.after_sleep(now).timeout == search.timeout,
        search.after_sleep(now).poll_interval == search.poll_interval,
        !(search.state is Polling) ==> search.after_sleep(now) == search,
{
}

/// A path that was asked for is looked for until the timeout is over.
pub proof fn law_path_is_looked_for_until_the_deadline(asked: Nanos, timeout: Nanos, now: Nanos)
    requires
        asked + timeout <= u64::MAX,
        asked <= now,
    ensures
        PathSearch::round((asked + timeout) as Nanos, now) is Polling <==> now - asked < timeout,
        PathSearch::round((asked + timeout) as Nanos, now) is Last <==> now - asked >= timeout,
        PathSearch::round((asked + timeout) as Nanos, now) matches PathState::Polling { deadline }
            ==> deadline == asked + timeout,
{
}

/// A link source that is given less room keeps its oldest frames, and everything else; it always
/// has room for one.
pub proof fn law_less_room_drops_the_newest_frames<C: AudioCodec>(
    source: LinkModel<C>,
    max_frames: usize,
)
    requires
        source.frames.len() <= source.max_frames,
    ensures
        ({
            let room: int = if max_frames == 0 {
                1
            } else {
                max_frames as int
            };
            let after = source.limited(max_frames);
            &&& after.max_frames == room
            &&& after.frames.is_prefix_of(source.frames)
            &&& source.frames.len() <= room ==> after.frames == source.frames
            &&& source.frames.len() > room ==> after.frames.len() == room
            &&& after.signals == source.signals
            &&& after.running == source.running
            &&& after.samplerate == source.samplerate
            &&& after.channels == source.channels
            &&& after.codec == source.codec
        }),
{
}

} // verus!
