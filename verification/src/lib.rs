//! Voice calls over Reticulum links: wire format, telephony state machine,
//! audio buffering, hardware interface logic and the phone program's rules.
pub mod args;
pub mod audio;
pub mod audio_codec;
pub mod codec;
pub mod codec2_codec;
pub mod commands;
pub mod config;
pub mod device;
pub mod error;
pub mod float_bits;
pub mod frame_plan;
pub mod gain;
pub mod hash_text;
pub mod identity;
pub mod keypad;
pub mod lcd;
pub mod line_sink;
pub mod media;
pub mod mixer;
pub mod network;
pub mod opus_codec;
pub mod packed;
pub mod packet;
pub mod pipeline;
pub mod profile;
pub mod raw_codec;
pub mod rounding;
pub mod scan;
pub mod session;
pub mod signalling;
pub mod std_text;
pub mod stream;
pub mod telephony;
pub mod text;
pub mod time;
pub mod ui;

pub use audio::{normalize_audio_channels, AudioError, AudioFrame, Sample};
pub use audio_codec::{AudioCodec, CodecError, CodecFactory, CodecSelection, CodecState};
pub use codec::{CodecHeader, CodecKind, CodecProfile, RawBitDepth, RawFrameHeader};
pub use codec2_codec::Codec2Codec;
pub use device::{
    select_audio_device_info, AudioDeviceInfo, AudioDeviceKind, AudioStreamConfigInfo,
};
pub use error::Error;
pub use frame_plan::{
    plan_line_source_frame, plan_mixer_frame, AudioFramePlan, LineSourceFramePlan,
    LineSourceProcessor, MixerFramePlan,
};
pub use keypad::{
    Key, KeyTransition, KeypadEvent, MatrixKeypad, MatrixKeypadBackend, MatrixKeypadScanner,
};
pub use lcd::{BufferedLcd1602, I2cLcd1602, Lcd1602Buffer, Lcd1602Bus, Lcd1602Display};
pub use line_sink::{LinePlayback, QueuedLineSink, QueuedLineSinkConfig, QueuedLineSinkStats};
pub use media::{
    AudioFrameSink, MediaError, OpusFileSink, OpusFileSource, QueuedOpusFileSink,
    QueuedOpusFileSinkConfig, SourcePlayer, SourceRecorder,
};
pub use mixer::{Mixer, MixerSink};
pub use network::{
    LinkSource, LxstLinkSender, NetworkError, PacketSender, Packetizer, TelephonyEndpoint,
    TelephonyNetworkEvent,
};
pub use opus_codec::OpusCodec;
pub use packet::{EncodedFrame, LxstPacket, PacketError};
pub use pipeline::{
    AudioSink, AudioSource, BufferedSink, BufferedSource, EncodedAudioFrame, EncodedMixerSink,
    Loopback, Pipeline, PipelineError,
};
pub use profile::{CallProfile, FrameDuration};
pub use raw_codec::{NullCodec, RawCodec};
pub use signalling::{Signal, SignalCode};
pub use stream::{CpalInputConfig, CpalOutputConfig};
pub use telephony::{
    CallEvent, CallState, CallerPolicy, Telephone, TelephoneConfig, MIN_ANNOUNCE_INTERVAL,
};
