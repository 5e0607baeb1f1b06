//! Packets on the wire: signals and encoded frames in a MessagePack table.
use crate::codec::{CodecHeader, CodecHeaderError, CodecKind};
use crate::packed;
use crate::packed::{
    bin_value, list_value, pack_value, table_value, uint_value, unpack_value, value_as_bin,
    value_as_int, value_as_list, value_as_table, value_as_uint, value_debug, ValueTree,
};
use crate::signalling::{Signal, FIELD_FRAMES, FIELD_SIGNALLING};
use rns_core::msgpack::Value;
use vstd::prelude::*;

verus! {

/// One encoded frame: the codec family and what the codec made of the sound.
#[derive(Debug, PartialEq, Eq)]
pub struct EncodedFrame {
    pub codec: CodecKind,
    pub payload: Vec<u8>,
}

/// A frame as a mathematical value.
#[verifier::ext_equal]
pub struct FrameModel {
    pub codec: CodecKind,
    pub payload: Seq<u8>,
}

/// A packet: signals and frames, each in order.
#[derive(Debug, PartialEq, Eq)]
pub struct LxstPacket {
    pub signals: Vec<Signal>,
    pub frames: Vec<EncodedFrame>,
}

/// A packet as a mathematical value.
#[verifier::ext_equal]
pub struct PacketModel {
    pub signals: Seq<Signal>,
    pub frames: Seq<FrameModel>,
}

/// Why bytes are no packet.
#[derive(Debug, Clone, PartialEq, Eq)]
pub enum PacketError {
    ExpectedMap,
    InvalidFrameValue(String),
    EmptyFrame,
    CodecHeader(CodecHeaderError),
    InvalidSignalValue(String),
    Msgpack(String),
}

/// A packet error as a mathematical value.
pub enum PacketFault {
    ExpectedMap,
    InvalidFrameValue(Seq<char>),
    EmptyFrame,
    CodecHeader(CodecHeaderError),
    InvalidSignalValue(Seq<char>),
    Msgpack(Seq<char>),
}

impl View for PacketError {
    type V = PacketFault;

    open spec fn view(&self) -> PacketFault {
        match self {
            PacketError::ExpectedMap => PacketFault::ExpectedMap,
            PacketError::InvalidFrameValue(text) => PacketFault::InvalidFrameValue(text@),
            PacketError::EmptyFrame => PacketFault::EmptyFrame,
            PacketError::CodecHeader(error) => PacketFault::CodecHeader(*error),
            PacketError::InvalidSignalValue(text) => PacketFault::InvalidSignalValue(text@),
            PacketError::Msgpack(text) => PacketFault::Msgpack(text@),
        }
    }
}

impl PacketFault {
    /// The error as text.
    pub open spec fn text(self) -> Seq<char> {
        match self {
            PacketFault::ExpectedMap => "LXST packet root must be a MessagePack map"@,
            PacketFault::InvalidFrameValue(text) => "LXST frame value must be a binary object: "@
                + text,
            PacketFault::EmptyFrame => "LXST frame is empty"@,
            PacketFault::CodecHeader(error) => "unknown LXST codec header byte 0x"@
                + crate::text::hex_byte_text(error.0),
            PacketFault::InvalidSignalValue(
                text,
            ) => "LXST signal value must be a non-negative integer: "@ + text,
            PacketFault::Msgpack(text) => "MessagePack error: "@ + text,
        }
    }
}

impl PacketError {
    /// The error as text.
    pub fn message(&self) -> (text: String)
        ensures
            text@ == self@.text(),
    {
        match self {
            PacketError::ExpectedMap => "LXST packet root must be a MessagePack map".to_owned(),
            PacketError::InvalidFrameValue(detail) => {
                "LXST frame value must be a binary object: ".to_owned().concat(detail.as_str())
            },
            PacketError::EmptyFrame => "LXST frame is empty".to_owned(),
            PacketError::CodecHeader(error) => error.message(),
            PacketError::InvalidSignalValue(detail) => {
                "LXST signal value must be a non-negative integer: ".to_owned().concat(
                    detail.as_str(),
                )
            },
            PacketError::Msgpack(detail) => {
                "MessagePack error: ".to_owned().concat(detail.as_str())
            },
        }
    }
}

impl View for EncodedFrame {
    type V = FrameModel;

    open spec fn view(&self) -> FrameModel {
        FrameModel { codec: self.codec, payload: self.payload@ }
    }
}

impl View for LxstPacket {
    type V = PacketModel;

    open spec fn view(&self) -> PacketModel {
        PacketModel { signals: self.signals@, frames: frame_models(self.frames@) }
    }
}

/// Frames as mathematical values.
pub open spec fn frame_models(frames: Seq<EncodedFrame>) -> Seq<FrameModel> {
    frames.map_values(|frame: EncodedFrame| frame@)
}

impl Clone for EncodedFrame {
    fn clone(&self) -> (copy: Self)
        ensures
            copy@ == self@,
    {
        let payload = self.payload.clone();
        assert(payload@ =~= self.payload@);
        EncodedFrame { codec: self.codec, payload }
    }
}

impl Clone for LxstPacket {
    fn clone(&self) -> (copy: Self)
        ensures
            copy@ == self@,
    {
        let mut signals: Vec<Signal> = Vec::new();
        let mut i: usize = 0;
        while i < self.signals.len()
            invariant
                i <= self.signals@.len(),
                signals@ == self.signals@.take(i as int),
            decreases self.signals.len() - i,
        {
            signals.push(self.signals[i]);
            assert(signals@ =~= self.signals@.take(i + 1));
            i += 1;
        }
        assert(signals@ =~= self.signals@);
        let mut frames: Vec<EncodedFrame> = Vec::new();
        let mut j: usize = 0;
        while j < self.frames.len()
            invariant
                j <= self.frames@.len(),
                frame_models(frames@) == frame_models(self.frames@).take(j as int),
            decreases self.frames.len() - j,
        {
            let frame = self.frames[j].clone();
            let ghost before = frames@;
            frames.push(frame);
            assert(frame_models(frames@) =~= frame_models(before).push(frame@));
            assert(frame_models(frames@) =~= frame_models(self.frames@).take(j + 1));
            j += 1;
        }
        assert(frame_models(frames@) =~= frame_models(self.frames@));
        LxstPacket { signals, frames }
    }
}

impl FrameModel {
    /// The frame on the wire: the header byte, then the payload.
    pub open spec fn wire(self) -> Seq<u8> {
        seq![CodecHeader::of_kind(self.codec).byte()] + self.payload
    }

    /// What bytes stand for as a frame.
    pub open spec fn of_wire(bytes: Seq<u8>) -> Result<FrameModel, PacketFault> {
        if bytes.len() == 0 {
            Err(PacketFault::EmptyFrame)
        } else {
            match CodecHeader::of_byte(bytes[0]) {
                Ok(header) => Ok(
                    FrameModel { codec: header.kind(), payload: bytes.skip(1) },
                ),
                Err(error) => Err(PacketFault::CodecHeader(error)),
            }
        }
    }
}

/// A result of reading a frame, as mathematical values.
pub open spec fn frame_outcome(outcome: Result<EncodedFrame, PacketError>) -> Result<
    FrameModel,
    PacketFault,
> {
    match outcome {
        Ok(frame) => Ok(frame@),
        Err(error) => Err(error@),
    }
}

/// A result of reading a packet, as mathematical values.
pub open spec fn packet_outcome(outcome: Result<LxstPacket, PacketError>) -> Result<
    PacketModel,
    PacketFault,
> {
    match outcome {
        Ok(packet) => Ok(packet@),
        Err(error) => Err(error@),
    }
}

/// A frame survives writing and reading.
pub proof fn law_frame_wire_round_trip(frame: FrameModel)
    ensures
        FrameModel::of_wire(frame.wire()) == Ok::<FrameModel, PacketFault>(frame),
{
    assert(frame.wire().skip(1) =~= frame.payload);
}

/// Bytes that are read as a frame are the bytes that the frame is written with.
pub proof fn law_frame_wire_is_canonical(bytes: Seq<u8>)
    ensures
        FrameModel::of_wire(bytes) matches Ok(frame) ==> frame.wire() == bytes,
{
    if FrameModel::of_wire(bytes) is Ok {
        assert(FrameModel::of_wire(bytes)->Ok_0.wire() =~= bytes);
    }
}

impl EncodedFrame {
    /// A frame of the given codec family.
    pub fn new(codec: CodecKind, payload: Vec<u8>) -> (frame: Self)
        ensures
            frame@ == (FrameModel { codec, payload: payload@ }),
    {
        EncodedFrame { codec, payload }
    }

    /// The frame on the wire: the header byte, then the payload. Every codec family has
    /// a header byte, so this succeeds.
    pub fn to_wire_bytes(&self) -> (bytes: Result<Vec<u8>, PacketError>)
        ensures
            bytes matches Ok(bytes) && bytes@ == self@.wire(),
    {
        match CodecHeader::try_from(self.codec) {
            Ok(header) => {
                let mut bytes: Vec<u8> = Vec::new();
                bytes.push(header.as_u8());
                bytes.extend_from_slice(&self.payload);
                assert(bytes@ =~= self@.wire());
                Ok(bytes)
            },
            Err(error) => Err(PacketError::CodecHeader(error)),
        }
    }

    /// What bytes stand for as a frame.
    pub fn from_wire_bytes(bytes: &[u8]) -> (frame: Result<Self, PacketError>)
        ensures
            frame_outcome(frame) == FrameModel::of_wire(bytes@),
    {
        if bytes.len() == 0 {
            return Err(PacketError::EmptyFrame);
        }
        match CodecHeader::try_from(bytes[0]) {
            Ok(header) => {
                let payload = vstd::slice::slice_to_vec(
                    vstd::slice::slice_subrange(bytes, 1, bytes.len()),
                );
                assert(payload@ =~= bytes@.skip(1));
                Ok(EncodedFrame { codec: CodecKind::from(header), payload })
            },
            Err(error) => Err(PacketError::CodecHeader(error)),
        }
    }
}

/// All the values, or the first error.
pub open spec fn all_or_first_error<T>(parts: Seq<Result<T, PacketFault>>) -> Result<
    Seq<T>,
    PacketFault,
>
    decreases parts.len(),
{
    if parts.len() == 0 {
        Ok(Seq::empty())
    } else {
        match all_or_first_error(parts.drop_last()) {
            Err(error) => Err(error),
            Ok(values) => match parts.last() {
                Ok(value) => Ok(values.push(value)),
                Err(error) => Err(error),
            },
        }
    }
}

/// Once a prefix ends in an error, what comes after it changes nothing.
proof fn lemma_first_error_stands<T>(parts: Seq<Result<T, PacketFault>>, end: int)
    requires
        0 <= end <= parts.len(),
        all_or_first_error(parts.take(end)) is Err,
    ensures
        all_or_first_error(parts) == all_or_first_error(parts.take(end)),
    decreases parts.len() - end,
{
    if end < parts.len() {
        assert(parts.take(end + 1).drop_last() =~= parts.take(end));
        lemma_first_error_stands(parts, end + 1);
    } else {
        assert(parts.take(end) =~= parts);
    }
}

/// Where every part is a value, all of them come out.
proof fn lemma_all_values<T>(parts: Seq<Result<T, PacketFault>>, values: Seq<T>)
    requires
        parts.len() == values.len(),
        forall|i: int| 0 <= i < parts.len() ==> parts[i] == Ok::<T, PacketFault>(values[i]),
    ensures
        all_or_first_error(parts) == Ok::<Seq<T>, PacketFault>(values),
    decreases parts.len(),
{
    if parts.len() > 0 {
        lemma_all_values(parts.drop_last(), values.drop_last());
        assert(values.drop_last().push(values.last()) =~= values);
    } else {
        assert(values =~= Seq::empty());
    }
}

/// The number of a table key: a non-negative integer.
pub open spec fn key_number(key: ValueTree) -> Option<u64> {
    match key {
        ValueTree::UInt(number) => Some(number),
        ValueTree::Int(number) => if number >= 0 {
            Some(number as u64)
        } else {
            None
        },
        _ => None,
    }
}

/// What a value stands for as a signal.
pub open spec fn signal_of_tree(tree: ValueTree) -> Result<Signal, PacketFault> {
    match key_number(tree) {
        Some(number) => Ok(Signal::of_wire(number)),
        None => Err(PacketFault::InvalidSignalValue(packed::value_debug_text(tree))),
    }
}

/// What a value stands for as a frame.
pub open spec fn frame_of_tree(tree: ValueTree) -> Result<FrameModel, PacketFault> {
    match tree {
        ValueTree::Bin(bytes) => FrameModel::of_wire(bytes),
        _ => Err(PacketFault::InvalidFrameValue(packed::value_debug_text(tree))),
    }
}

/// The items of a list, or the value itself where it is none.
pub open spec fn items_of_tree(tree: ValueTree) -> Seq<ValueTree> {
    match tree {
        ValueTree::List(items) => items,
        _ => seq![tree],
    }
}

/// The signals of the signalling field: a list or a single value.
pub open spec fn signals_of_tree(tree: ValueTree) -> Result<Seq<Signal>, PacketFault> {
    all_or_first_error(items_of_tree(tree).map_values(|item: ValueTree| signal_of_tree(item)))
}

/// The frames of the frame field: a list or a single value.
pub open spec fn frames_of_tree(tree: ValueTree) -> Result<Seq<FrameModel>, PacketFault> {
    all_or_first_error(items_of_tree(tree).map_values(|item: ValueTree| frame_of_tree(item)))
}

/// What one table entry adds to the packet. Entries under other keys add nothing.
pub open spec fn entry_part(entry: (ValueTree, ValueTree)) -> Result<PacketModel, PacketFault> {
    if key_number(entry.0) == Some(FIELD_SIGNALLING as u64) {
        match signals_of_tree(entry.1) {
            Ok(signals) => Ok(PacketModel { signals, frames: Seq::empty() }),
            Err(error) => Err(error),
        }
    } else if key_number(entry.0) == Some(FIELD_FRAMES as u64) {
        match frames_of_tree(entry.1) {
            Ok(frames) => Ok(PacketModel { signals: Seq::empty(), frames }),
            Err(error) => Err(error),
        }
    } else {
        Ok(PacketModel { signals: Seq::empty(), frames: Seq::empty() })
    }
}

/// The parts of a packet put together in order.
pub open spec fn joined(parts: Seq<PacketModel>) -> PacketModel
    decreases parts.len(),
{
    if parts.len() == 0 {
        PacketModel { signals: Seq::empty(), frames: Seq::empty() }
    } else {
        let before = joined(parts.drop_last());
        PacketModel {
            signals: before.signals + parts.last().signals,
            frames: before.frames + parts.last().frames,
        }
    }
}

/// What a value stands for as a packet.
pub open spec fn packet_of_tree(tree: ValueTree) -> Result<PacketModel, PacketFault> {
    match tree {
        ValueTree::Table(entries) => match all_or_first_error(
            entries.map_values(|entry: (ValueTree, ValueTree)| entry_part(entry)),
        ) {
            Ok(parts) => Ok(joined(parts)),
            Err(error) => Err(error),
        },
        _ => Err(PacketFault::ExpectedMap),
    }
}

/// What bytes stand for as a packet.
pub open spec fn packet_of_bytes(bytes: Seq<u8>) -> Result<PacketModel, PacketFault> {
    match packed::unpacked_tree(bytes) {
        Ok(tree) => packet_of_tree(tree),
        Err(text) => Err(PacketFault::Msgpack(text)),
    }
}

impl PacketModel {
    /// The signals as a list of numbers.
    pub open spec fn signals_tree(self) -> ValueTree {
        ValueTree::List(self.signals.map_values(|signal: Signal| ValueTree::UInt(signal.wire())))
    }

    /// The frames: a single one by itself, several as a list.
    pub open spec fn frames_tree(self) -> ValueTree {
        if self.frames.len() == 1 {
            ValueTree::Bin(self.frames[0].wire())
        } else {
            ValueTree::List(
                self.frames.map_values(|frame: FrameModel| ValueTree::Bin(frame.wire())),
            )
        }
    }

    /// The table entries of the packet: the signals if there are any, then the frames if
    /// there are any.
    pub open spec fn entries(self) -> Seq<(ValueTree, ValueTree)> {
        (if self.signals.len() > 0 {
            seq![(ValueTree::UInt(FIELD_SIGNALLING as u64), self.signals_tree())]
        } else {
            Seq::empty()
        }) + (if self.frames.len() > 0 {
            seq![(ValueTree::UInt(FIELD_FRAMES as u64), self.frames_tree())]
        } else {
            Seq::empty()
        })
    }

    /// The packet as a MessagePack value.
    pub open spec fn tree(self) -> ValueTree {
        ValueTree::Table(self.entries())
    }

    /// Whether all lengths fit the 32-bit length fields of the wire format.
    pub open spec fn fits_wire(self) -> bool {
        &&& self.signals.len() <= u32::MAX
        &&& self.frames.len() <= u32::MAX
        &&& forall|i: int|
            0 <= i < self.frames.len() ==> (#[trigger] self.frames[i]).payload.len() < u32::MAX
    }

    /// The packet with every signal in the form in which it would be read.
    pub open spec fn with_read_signals(self) -> PacketModel {
        PacketModel {
            signals: self.signals.map_values(|signal: Signal| Signal::of_wire(signal.wire())),
            frames: self.frames,
        }
    }

    /// Whether every signal is in the form in which it would be read.
    pub open spec fn canonical(self) -> bool {
        forall|i: int| 0 <= i < self.signals.len() ==> (#[trigger] self.signals[i]).canonical()
    }
}

/// A packet's value holds no floating point number.
proof fn lemma_tree_free_of_floats(packet: PacketModel)
    ensures
        packet.tree().free_of_floats(packed::nesting_room()),
{
    reveal_with_fuel(ValueTree::free_of_floats, 4);
    assert(packet.signals_tree().free_of_floats(32)) by {
        reveal_with_fuel(ValueTree::free_of_floats, 3);
    }
    assert(packet.frames_tree().free_of_floats(32)) by {
        reveal_with_fuel(ValueTree::free_of_floats, 3);
    }
}

/// A packet's value survives packing where its lengths fit.
proof fn lemma_tree_survives(packet: PacketModel)
    requires
        packet.fits_wire(),
    ensures
        packet.tree().survives(packed::nesting_room()),
{
    reveal_with_fuel(ValueTree::survives, 4);
    assert(packet.signals_tree().survives(32)) by {
        reveal_with_fuel(ValueTree::survives, 3);
    }
    assert(packet.frames_tree().survives(32)) by {
        reveal_with_fuel(ValueTree::survives, 3);
        if packet.frames.len() == 1 {
            assert(packet.frames[0].wire().len() == packet.frames[0].payload.len() + 1);
        }
        assert forall|i: int| 0 <= i < packet.frames.len() implies (#[trigger] packet.frames[i])
            .wire().len() <= u32::MAX by {
            assert(packet.frames[i].wire().len() == packet.frames[i].payload.len() + 1);
        }
    }
}

/// Reading the MessagePack value of a packet gives the packet.
pub proof fn law_packet_tree_round_trip(packet: PacketModel)
    ensures
        packet_of_tree(packet.tree()) == Ok::<PacketModel, PacketFault>(packet.with_read_signals()),
{
    let signals = packet.with_read_signals().signals;
    let empty = Seq::<FrameModel>::empty();
    assert(signals_of_tree(packet.signals_tree()) == Ok::<Seq<Signal>, PacketFault>(signals)) by {
        lemma_all_values(
            items_of_tree(packet.signals_tree()).map_values(
                |item: ValueTree| signal_of_tree(item),
            ),
            signals,
        );
    }
    assert(frames_of_tree(packet.frames_tree()) == Ok::<Seq<FrameModel>, PacketFault>(
        packet.frames,
    )) by {
        assert forall|i: int| 0 <= i < packet.frames.len() implies FrameModel::of_wire(
            #[trigger] packet.frames[i].wire(),
        ) == Ok::<FrameModel, PacketFault>(packet.frames[i]) by {
            law_frame_wire_round_trip(packet.frames[i]);
        }
        lemma_all_values(
            items_of_tree(packet.frames_tree()).map_values(|item: ValueTree| frame_of_tree(item)),
            packet.frames,
        );
    }
    let parts = packet.entries().map_values(|entry: (ValueTree, ValueTree)| entry_part(entry));
    let signal_part = PacketModel { signals, frames: empty };
    let frame_part = PacketModel { signals: Seq::empty(), frames: packet.frames };
    let values = (if packet.signals.len() > 0 {
        seq![signal_part]
    } else {
        Seq::empty()
    }) + (if packet.frames.len() > 0 {
        seq![frame_part]
    } else {
        Seq::empty()
    });
    lemma_all_values(parts, values);
    reveal_with_fuel(joined, 3);
    assert(joined(values) =~= packet.with_read_signals());
}

/// A packet whose signals are in the form in which they would be read comes back unchanged.
pub proof fn law_canonical_packet_is_unchanged(packet: PacketModel)
    requires
        packet.canonical(),
    ensures
        packet.with_read_signals() == packet,
{
    assert(packet.with_read_signals() =~= packet);
}

/// A packet that was read has its signals in the form in which they would be read, so it
/// comes back unchanged.
pub proof fn law_read_packet_is_canonical(tree: ValueTree)
    ensures
        packet_of_tree(tree) matches Ok(packet) ==> packet.canonical(),
{
    if packet_of_tree(tree) is Ok {
        let parts = tree->Table_0.map_values(|entry: (ValueTree, ValueTree)| entry_part(entry));
        let values = all_or_first_error(parts)->Ok_0;
        lemma_values_come_from_parts(parts);
        assert forall|i: int| 0 <= i < values.len() implies (#[trigger] values[i]).canonical() by {
            let entry = tree->Table_0[i];
            assert(parts[i] == entry_part(entry));
            if key_number(entry.0) == Some(FIELD_SIGNALLING as u64) {
                let items = items_of_tree(entry.1).map_values(
                    |item: ValueTree| signal_of_tree(item),
                );
                lemma_values_come_from_parts(items);
                let signals = all_or_first_error(items)->Ok_0;
                assert forall|j: int| 0 <= j < signals.len() implies (
                #[trigger] signals[j]).canonical() by {
                    assert(items[j] == signal_of_tree(items_of_tree(entry.1)[j]));
                    crate::signalling::law_signal_wire_value_is_kept(
                        key_number(items_of_tree(entry.1)[j])->0,
                    );
                }
            }
        }
        lemma_joined_is_canonical(values);
    }
}

/// Where all parts are values, the result holds exactly them.
proof fn lemma_values_come_from_parts<T>(parts: Seq<Result<T, PacketFault>>)
    ensures
        all_or_first_error(parts) matches Ok(values) ==> {
            &&& values.len() == parts.len()
            &&& forall|i: int|
                0 <= i < parts.len() ==> #[trigger] parts[i] == Ok::<T, PacketFault>(values[i])
        },
    decreases parts.len(),
{
    if parts.len() > 0 {
        lemma_values_come_from_parts(parts.drop_last());
        if all_or_first_error(parts) is Ok {
            let before = all_or_first_error(parts.drop_last())->Ok_0;
            assert forall|i: int| 0 <= i < parts.len() implies #[trigger] parts[i] == Ok::<
                T,
                PacketFault,
            >(all_or_first_error(parts)->Ok_0[i]) by {
                if i < parts.len() - 1 {
                    assert(parts.drop_last()[i] == Ok::<T, PacketFault>(before[i]));
                }
            }
        }
    }
}

/// Putting parts with canonical signals together gives canonical signals.
proof fn lemma_joined_is_canonical(parts: Seq<PacketModel>)
    requires
        forall|i: int| 0 <= i < parts.len() ==> (#[trigger] parts[i]).canonical(),
    ensures
        joined(parts).canonical(),
    decreases parts.len(),
{
    if parts.len() > 0 {
        assert forall|i: int| 0 <= i < parts.len() - 1 implies (
        #[trigger] parts.drop_last()[i]).canonical() by {
            assert(parts[i].canonical());
        }
        lemma_joined_is_canonical(parts.drop_last());
        let before = joined(parts.drop_last()).signals;
        let last = parts.last().signals;
        assert(parts[parts.len() - 1].canonical());
        assert forall|i: int| 0 <= i < (before + last).len() implies (
        #[trigger] (before + last)[i]).canonical() by {
            if i >= before.len() {
                assert((before + last)[i] == last[i - before.len()]);
            }
        }
    }
}

impl LxstPacket {
    /// An empty packet.
    pub fn new() -> (packet: Self)
        ensures
            packet@.signals.len() == 0,
            packet@.frames.len() == 0,
    {
        LxstPacket { signals: Vec::new(), frames: Vec::new() }
    }

    /// A packet with one signal.
    pub fn signalling(signal: Signal) -> (packet: Self)
        ensures
            packet@ == (PacketModel { signals: seq![signal], frames: Seq::empty() }),
    {
        let packet = LxstPacket { signals: vec![signal], frames: Vec::new() };
        assert(packet@ =~= PacketModel { signals: seq![signal], frames: Seq::empty() });
        packet
    }

    /// A packet with one frame.
    pub fn frame(frame: EncodedFrame) -> (packet: Self)
        ensures
            packet@ == (PacketModel { signals: Seq::empty(), frames: seq![frame@] }),
    {
        let packet = LxstPacket { signals: Vec::new(), frames: vec![frame] };
        assert(packet@ =~= PacketModel { signals: Seq::empty(), frames: seq![frame@] });
        packet
    }

    /// Whether the packet holds neither signals nor frames.
    pub fn is_empty(&self) -> (empty: bool)
        ensures
            empty == (self@.signals.len() == 0 && self@.frames.len() == 0),
    {
        self.signals.len() == 0 && self.frames.len() == 0
    }

    /// The packet on the wire. Reading the bytes gives the packet back, each signal in the
    /// form in which it is read, wherever the lengths fit the wire format.
    pub fn encode(&self) -> (bytes: Result<Vec<u8>, PacketError>)
        ensures
            bytes matches Ok(bytes) && bytes@ == packed::packed_bytes(self@.tree()),
            self@.fits_wire() ==> packet_of_bytes(bytes->Ok_0@) == Ok::<PacketModel, PacketFault>(
                self@.with_read_signals(),
            ),
    {
        let mut entries: Vec<(Value, Value)> = Vec::new();
        if self.signals.len() > 0 {
            let mut values: Vec<Value> = Vec::new();
            let mut i: usize = 0;
            while i < self.signals.len()
                invariant
                    i <= self.signals@.len(),
                    values@.len() == i,
                    forall|j: int|
                        0 <= j < i ==> packed::value_tree(#[trigger] values@[j]) == ValueTree::UInt(
                            self.signals@[j].wire(),
                        ),
                decreases self.signals.len() - i,
            {
                values.push(uint_value(self.signals[i].to_wire_value()));
                i += 1;
            }
            assert(ValueTree::List(packed::value_trees(values@)) == self@.signals_tree()) by {
                assert(packed::value_trees(values@) =~= self@.signals_tree()->List_0);
            }
            entries.push((uint_value(FIELD_SIGNALLING as u64), list_value(values)));
        }
        if self.frames.len() > 0 {
            if self.frames.len() == 1 {
                let bytes = match self.frames[0].to_wire_bytes() {
                    Ok(bytes) => bytes,
                    Err(error) => return Err(error),
                };
                entries.push((uint_value(FIELD_FRAMES as u64), bin_value(bytes)));
            } else {
                let mut values: Vec<Value> = Vec::new();
                let mut i: usize = 0;
                while i < self.frames.len()
                    invariant
                        i <= self.frames@.len(),
                        values@.len() == i,
                        forall|j: int|
                            0 <= j < i ==> packed::value_tree(#[trigger] values@[j]) == ValueTree::Bin(
                                self.frames@[j]@.wire(),
                            ),
                    decreases self.frames.len() - i,
                {
                    let bytes = match self.frames[i].to_wire_bytes() {
                        Ok(bytes) => bytes,
                        Err(error) => return Err(error),
                    };
                    values.push(bin_value(bytes));
                    i += 1;
                }
                assert(ValueTree::List(packed::value_trees(values@)) == self@.frames_tree()) by {
                    assert(packed::value_trees(values@) =~= self@.frames_tree()->List_0);
                }
                entries.push((uint_value(FIELD_FRAMES as u64), list_value(values)));
            }
        }
        assert(packed::entry_trees(entries@) =~= self@.entries());
        let packed = pack_value(&table_value(entries));
        proof {
            lemma_tree_free_of_floats(self@);
            if self@.fits_wire() {
                lemma_tree_survives(self@);
                law_packet_tree_round_trip(self@);
            }
        }
        Ok(packed)
    }

    /// What bytes stand for as a packet.
    pub fn decode(data: &[u8]) -> (packet: Result<Self, PacketError>)
        ensures
            packet_outcome(packet) == packet_of_bytes(data@),
    {
        match unpack_value(data) {
            Ok(value) => Self::from_msgpack_value(&value),
            Err(text) => Err(PacketError::Msgpack(text)),
        }
    }

    /// What a MessagePack value stands for as a packet.
    pub fn from_msgpack_value(value: &Value) -> (packet: Result<Self, PacketError>)
        ensures
            packet_outcome(packet) == packet_of_tree(packed::value_tree(*value)),
    {
        let entries = match value_as_table(value) {
            Some(entries) => entries,
            None => return Err(PacketError::ExpectedMap),
        };
        let ghost trees = packed::entry_trees(entries@);
        let ghost parts = trees.map_values(|entry: (ValueTree, ValueTree)| entry_part(entry));
        let mut signals: Vec<Signal> = Vec::new();
        let mut frames: Vec<EncodedFrame> = Vec::new();
        let ghost mut joined_parts: Seq<PacketModel> = Seq::empty();
        let mut i: usize = 0;
        while i < entries.len()
            invariant
                i <= entries@.len(),
                trees == packed::entry_trees(entries@),
                packed::value_tree(*value) == ValueTree::Table(trees),
                parts == trees.map_values(|entry: (ValueTree, ValueTree)| entry_part(entry)),
                all_or_first_error(parts.take(i as int)) == Ok::<Seq<PacketModel>, PacketFault>(
                    joined_parts,
                ),
                joined(joined_parts) == (PacketModel {
                    signals: signals@,
                    frames: frame_models(frames@),
                }),
            decreases entries.len() - i,
        {
            let key = &entries[i].0;
            let field = &entries[i].1;
            assert(trees[i as int] == (packed::value_tree(*key), packed::value_tree(*field)));
            assert(parts.take(i + 1).drop_last() =~= parts.take(i as int));
            assert(parts.take(i + 1).last() == parts[i as int]);
            let ghost before = joined_parts;
            let number = msgpack_key_to_u64(key);
            if number == Some(FIELD_SIGNALLING as u64) {
                match parse_signals(field) {
                    Ok(mut more) => {
                        let ghost part = PacketModel { signals: more@, frames: Seq::empty() };
                        signals.append(&mut more);
                        proof {
                            joined_parts = before.push(part);
                        }
                        assert(joined_parts.drop_last() =~= before);
                        assert(joined(joined_parts) =~= PacketModel {
                            signals: signals@,
                            frames: frame_models(frames@),
                        });
                    },
                    Err(error) => {
                        proof {
                            lemma_first_error_stands(parts, i + 1);
                        }
                        return Err(error);
                    },
                }
            } else if number == Some(FIELD_FRAMES as u64) {
                match parse_frames(field) {
                    Ok(mut more) => {
                        let ghost part = PacketModel {
                            signals: Seq::empty(),
                            frames: frame_models(more@),
                        };
                        frames.append(&mut more);
                        proof {
                            joined_parts = before.push(part);
                        }
                        assert(joined_parts.drop_last() =~= before);
                        assert(joined(joined_parts) =~= PacketModel {
                            signals: signals@,
                            frames: frame_models(frames@),
                        });
                    },
                    Err(error) => {
                        proof {
                            lemma_first_error_stands(parts, i + 1);
                        }
                        return Err(error);
                    },
                }
            } else {
                proof {
                    let part = PacketModel { signals: Seq::empty(), frames: Seq::empty() };
                    joined_parts = before.push(part);
                }
                assert(joined_parts.drop_last() =~= before);
                assert(joined(joined_parts) =~= PacketModel {
                    signals: signals@,
                    frames: frame_models(frames@),
                });
            }
            i += 1;
        }
        assert(parts.take(i as int) =~= parts);
        Ok(LxstPacket { signals, frames })
    }
}

impl Default for LxstPacket {
    fn default() -> (packet: Self)
        ensures
            packet@.signals.len() == 0,
            packet@.frames.len() == 0,
    {
        LxstPacket::new()
    }
}

fn msgpack_key_to_u64(key: &Value) -> (number: Option<u64>)
    ensures
        number == key_number(packed::value_tree(*key)),
{
    match value_as_uint(key) {
        Some(number) => Some(number),
        None => match value_as_int(key) {
            Some(number) if number >= 0 => Some(number as u64),
            _ => None,
        },
    }
}

fn parse_signals(value: &Value) -> (signals: Result<Vec<Signal>, PacketError>)
    ensures
        match signals {
            Ok(signals) => signals_of_tree(packed::value_tree(*value)) == Ok::<Seq<Signal>, PacketFault>(
                signals@,
            ),
            Err(error) => signals_of_tree(packed::value_tree(*value)) == Err::<Seq<Signal>, PacketFault>(
                error@,
            ),
        },
{
    let ghost parts = items_of_tree(packed::value_tree(*value)).map_values(
        |item: ValueTree| signal_of_tree(item),
    );
    let mut signals: Vec<Signal> = Vec::new();
    match value_as_list(value) {
        Some(values) => {
            let mut i: usize = 0;
            while i < values.len()
                invariant
                    i <= values@.len(),
                    packed::value_tree(*value) == ValueTree::List(packed::value_trees(values@)),
                    parts == items_of_tree(packed::value_tree(*value)).map_values(
                        |item: ValueTree| signal_of_tree(item),
                    ),
                    all_or_first_error(parts.take(i as int)) == Ok::<Seq<Signal>, PacketFault>(
                        signals@,
                    ),
                decreases values.len() - i,
            {
                assert(parts.take(i + 1).drop_last() =~= parts.take(i as int));
                assert(parts.take(i + 1).last() == signal_of_tree(packed::value_tree(values@[i as int])));
                match parse_signal(&values[i]) {
                    Ok(signal) => signals.push(signal),
                    Err(error) => {
                        proof {
                            lemma_first_error_stands(parts, i + 1);
                        }
                        return Err(error);
                    },
                }
                i += 1;
            }
            assert(parts.take(i as int) =~= parts);
            Ok(signals)
        },
        None => {
            reveal_with_fuel(all_or_first_error, 2);
            match parse_signal(value) {
                Ok(signal) => {
                    signals.push(signal);
                    assert(parts.drop_last() =~= Seq::empty());
                    Ok(signals)
                },
                Err(error) => Err(error),
            }
        },
    }
}

fn parse_signal(value: &Value) -> (signal: Result<Signal, PacketError>)
    ensures
        match signal {
            Ok(signal) => signal_of_tree(packed::value_tree(*value)) == Ok::<Signal, PacketFault>(signal),
            Err(error) => signal_of_tree(packed::value_tree(*value)) == Err::<Signal, PacketFault>(error@),
        },
{
    match msgpack_key_to_u64(value) {
        Some(number) => Ok(Signal::from_wire_value(number)),
        None => Err(PacketError::InvalidSignalValue(value_debug(value))),
    }
}

fn parse_frames(value: &Value) -> (frames: Result<Vec<EncodedFrame>, PacketError>)
    ensures
        match frames {
            Ok(frames) => frames_of_tree(packed::value_tree(*value)) == Ok::<Seq<FrameModel>, PacketFault>(
                frame_models(frames@),
            ),
            Err(error) => frames_of_tree(packed::value_tree(*value)) == Err::<
                Seq<FrameModel>,
                PacketFault,
            >(error@),
        },
{
    let ghost parts = items_of_tree(packed::value_tree(*value)).map_values(
        |item: ValueTree| frame_of_tree(item),
    );
    let mut frames: Vec<EncodedFrame> = Vec::new();
    match value_as_list(value) {
        Some(values) => {
            assert(frame_models(frames@) =~= Seq::empty());
            let mut i: usize = 0;
            while i < values.len()
                invariant
                    i <= values@.len(),
                    packed::value_tree(*value) == ValueTree::List(packed::value_trees(values@)),
                    parts == items_of_tree(packed::value_tree(*value)).map_values(
                        |item: ValueTree| frame_of_tree(item),
                    ),
                    all_or_first_error(parts.take(i as int)) == Ok::<Seq<FrameModel>, PacketFault>(
                        frame_models(frames@),
                    ),
                decreases values.len() - i,
            {
                assert(parts.take(i + 1).drop_last() =~= parts.take(i as int));
                assert(parts.take(i + 1).last() == frame_of_tree(packed::value_tree(values@[i as int])));
                let ghost before = frames@;
                match parse_frame(&values[i]) {
                    Ok(frame) => {
                        frames.push(frame);
                        assert(frame_models(frames@) =~= frame_models(before).push(frame@));
                    },
                    Err(error) => {
                        proof {
                            lemma_first_error_stands(parts, i + 1);
                        }
                        return Err(error);
                    },
                }
                i += 1;
            }
            assert(parts.take(i as int) =~= parts);
            Ok(frames)
        },
        None => {
            reveal_with_fuel(all_or_first_error, 2);
            match parse_frame(value) {
                Ok(frame) => {
                    frames.push(frame);
                    assert(parts.drop_last() =~= Seq::empty());
                    assert(frame_models(frames@) =~= Seq::empty().push(frame@));
                    Ok(frames)
                },
                Err(error) => Err(error),
            }
        },
    }
}

fn parse_frame(value: &Value) -> (frame: Result<EncodedFrame, PacketError>)
    ensures
        frame_outcome(frame) == frame_of_tree(packed::value_tree(*value)),
{
    match value_as_bin(value) {
        Some(bytes) => EncodedFrame::from_wire_bytes(bytes),
        None => Err(PacketError::InvalidFrameValue(value_debug(value))),
    }
}

/// Of some parts either all values come out, in their order, or the error of the first part that
/// has one.
pub proof fn law_first_error_counts<T>(parts: Seq<Result<T, PacketFault>>)
    ensures
        match all_or_first_error(parts) {
            Ok(values) => {
                &&& values.len() == parts.len()
                &&& forall|i: int|
                    0 <= i < parts.len() ==> #[trigger] parts[i] == Ok::<T, PacketFault>(values[i])
            },
            Err(error) => exists|place: int|
                {
                    &&& 0 <= place < parts.len()
                    &&& #[trigger] parts[place] == Err::<T, PacketFault>(error)
                    &&& forall|i: int| 0 <= i < place ==> (#[trigger] parts[i]) is Ok
                },
        },
    decreases parts.len(),
{
    if parts.len() > 0 {
        let rest = parts.drop_last();
        law_first_error_counts(rest);
        assert forall|i: int| 0 <= i < rest.len() implies rest[i] == #[trigger] parts[i] by {}
        match all_or_first_error(rest) {
            Err(error) => {
                let place = choose|place: int|
                    {
                        &&& 0 <= place < rest.len()
                        &&& #[trigger] rest[place] == Err::<T, PacketFault>(error)
                        &&& forall|i: int| 0 <= i < place ==> (#[trigger] rest[i]) is Ok
                    };
                assert(parts[place] == Err::<T, PacketFault>(error));
                assert forall|i: int| 0 <= i < place implies (#[trigger] parts[i]) is Ok by {
                    assert(rest[i] is Ok);
                }
            },
            Ok(values) => {
                let last = parts.len() - 1;
                assert(parts[last] == parts.last());
                assert forall|i: int| 0 <= i < last implies (#[trigger] parts[i]) is Ok by {
                    assert(rest[i] == Ok::<T, PacketFault>(values[i]));
                }
            },
        }
    }
}

/// Signals stand under field zero, as a list of their numbers; frames under field one, one alone
/// or several as a list. A packet without one of them lacks the field.
pub proof fn law_packet_fields(packet: PacketModel)
    ensures
        packet.tree() is Table,
        packet.signals.len() > 0 ==> {
            let entry = packet.tree()->Table_0[0];
            &&& entry.0 == ValueTree::UInt(0)
            &&& entry.1 matches ValueTree::List(items) && items.len() == packet.signals.len()
                && forall|i: int|
                0 <= i < items.len() ==> #[trigger] items[i] == ValueTree::UInt(
                    packet.signals[i].wire(),
                )
        },
        packet.frames.len() > 0 ==> {
            let entry = packet.tree()->Table_0.last();
            &&& entry.0 == ValueTree::UInt(1)
            &&& packet.frames.len() == 1 ==> entry.1 == ValueTree::Bin(packet.frames[0].wire())
            &&& packet.frames.len() > 1 ==> (entry.1 matches ValueTree::List(items) && items.len()
                == packet.frames.len() && forall|i: int|
                0 <= i < items.len() ==> #[trigger] items[i] == ValueTree::Bin(
                    packet.frames[i].wire(),
                ))
        },
        packet.tree()->Table_0.len() == (if packet.signals.len() > 0 {
            1int
        } else {
            0
        }) + (if packet.frames.len() > 0 {
            1int
        } else {
            0
        }),
{
}

/// On the wire a frame is the byte of its codec and what it carries.
pub proof fn law_frame_begins_with_its_codec(frame: FrameModel)
    ensures
        frame.wire().len() == frame.payload.len() + 1,
        frame.wire()[0] == (match frame.codec {
            CodecKind::Raw => 0x00u8,
            CodecKind::Opus => 0x01,
            CodecKind::Codec2 => 0x02,
            CodecKind::Null => 0xFF,
        }),
        frame.wire().skip(1) == frame.payload,
{
    assert(frame.wire().skip(1) =~= frame.payload);
}

/// Fields that occur again add to what came before, in their order.
pub proof fn law_fields_add_up(parts: Seq<PacketModel>, part: PacketModel)
    ensures
        joined(Seq::empty()).signals.len() == 0,
        joined(Seq::empty()).frames.len() == 0,
        joined(parts.push(part)).signals == joined(parts).signals + part.signals,
        joined(parts.push(part)).frames == joined(parts).frames + part.frames,
{
    assert(parts.push(part).drop_last() =~= parts);
}

/// A field that is neither that of the signals nor that of the frames is passed over, whatever it
/// holds.
pub proof fn law_other_fields_are_passed_over(key: ValueTree, value: ValueTree)
    requires
        key != ValueTree::UInt(0),
        key != ValueTree::UInt(1),
        key != ValueTree::Int(0),
        key != ValueTree::Int(1),
    ensures
        entry_part((key, value)) matches Ok(part) && part.signals.len() == 0 && part.frames.len()
            == 0,
{
}

/// A number that stands alone under the field of the signals is one signal, and bytes that stand
/// alone under that of the frames are one frame.
pub proof fn law_single_values_count(number: u64, frame: FrameModel)
    ensures
        entry_part((ValueTree::UInt(0), ValueTree::UInt(number))) matches Ok(part) && part.signals
            == seq![Signal::of_wire(number)] && part.frames.len() == 0,
        entry_part((ValueTree::UInt(1), ValueTree::Bin(frame.wire()))) matches Ok(part)
            && part.frames == seq![frame] && part.signals.len() == 0,
{
    law_frame_wire_round_trip(frame);
    let signals = items_of_tree(ValueTree::UInt(number)).map_values(
        |item: ValueTree| signal_of_tree(item),
    );
    assert(signals =~= seq![Ok::<Signal, PacketFault>(Signal::of_wire(number))]);
    law_first_error_counts(signals);
    if let Err(error) = all_or_first_error(signals) {
        let place = choose|place: int|
            0 <= place < signals.len() && #[trigger] signals[place] == Err::<Signal, PacketFault>(
                error,
            );
        assert(signals[place] is Ok);
    }
    assert(all_or_first_error(signals)->Ok_0 =~= seq![Signal::of_wire(number)]) by {
        assert(signals[0] == Ok::<Signal, PacketFault>(all_or_first_error(signals)->Ok_0[0]));
    }
    let frames = items_of_tree(ValueTree::Bin(frame.wire())).map_values(
        |item: ValueTree| frame_of_tree(item),
    );
    assert(frames =~= seq![Ok::<FrameModel, PacketFault>(frame)]);
    law_first_error_counts(frames);
    if let Err(error) = all_or_first_error(frames) {
        let place = choose|place: int|
            0 <= place < frames.len() && #[trigger] frames[place] == Err::<FrameModel, PacketFault>(
                error,
            );
        assert(frames[place] is Ok);
    }
    assert(all_or_first_error(frames)->Ok_0 =~= seq![frame]) by {
        assert(frames[0] == Ok::<FrameModel, PacketFault>(all_or_first_error(frames)->Ok_0[0]));
    }
}

/// A signal is a number that is not negative, and a frame is bytes; anything else is refused.
pub proof fn law_other_values_are_refused(tree: ValueTree)
    ensures
        signal_of_tree(tree) is Ok <==> (tree is UInt || (tree matches ValueTree::Int(number)
            && number >= 0)),
        tree matches ValueTree::UInt(number) ==> signal_of_tree(tree) == Ok::<Signal, PacketFault>(
            Signal::of_wire(number),
        ),
        tree matches ValueTree::Int(number) ==> number >= 0 ==> signal_of_tree(tree) == Ok::<
            Signal,
            PacketFault,
        >(Signal::of_wire(number as u64)),
        frame_of_tree(tree) is Ok ==> tree is Bin,
        tree is Bin && tree->Bin_0.len() == 0 ==> frame_of_tree(tree) == Err::<
            FrameModel,
            PacketFault,
        >(PacketFault::EmptyFrame),
        !(tree is Table) ==> packet_of_tree(tree) == Err::<PacketModel, PacketFault>(
            PacketFault::ExpectedMap,
        ),
{
}

} // verus!
