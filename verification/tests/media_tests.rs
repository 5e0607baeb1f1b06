use lxst::media::{
    is_opus_tags, opus_file_profile, opus_head, opus_tags, play_received_frame, samples_per_frame,
    FileStep, OggPacket, OpusHeader, PacketEnd,
};
use lxst::time::{millis, secs, Nanos};
use lxst::{
    AudioCodec, AudioFrame, AudioFrameSink, AudioSource, CodecError, CodecKind, CodecProfile,
    MediaError, OpusFileSink, OpusFileSource, PipelineError, QueuedOpusFileSink,
    QueuedOpusFileSinkConfig, RawCodec, SourcePlayer, SourceRecorder,
};
use ogg::reading::PacketReader;
use ogg::writing::{PacketWriteEndInfo, PacketWriter};
use std::collections::VecDeque;
use std::io::Cursor;

const NOW: Nanos = 9_000_000_000;

/// Stands in for Opus, with payloads that hold the samples as they are.
struct PlainCodec(RawCodec);

impl AudioCodec for PlainCodec {
    fn kind(&self) -> CodecKind {
        CodecKind::Opus
    }

    fn encode(&mut self, frame: &AudioFrame) -> Result<Vec<u8>, CodecError> {
        self.0.encode(frame)
    }

    fn decode(&mut self, data: &[u8], samplerate: u32) -> Result<AudioFrame, CodecError> {
        self.0.decode(data, samplerate)
    }
}

fn plain_codec() -> PlainCodec {
    PlainCodec(RawCodec::default())
}

fn silent_frame() -> AudioFrame {
    AudioFrame::silence(48_000, 2, 960).unwrap()
}

fn write_stream(packets: &[OggPacket]) -> Vec<u8> {
    let mut writer = PacketWriter::new(Vec::new());
    for packet in packets {
        let end = match packet.end {
            PacketEnd::NormalPacket => PacketWriteEndInfo::NormalPacket,
            PacketEnd::EndPage => PacketWriteEndInfo::EndPage,
            PacketEnd::EndStream => PacketWriteEndInfo::EndStream,
        };
        writer
            .write_packet(packet.data.clone(), packet.serial, end, packet.granule)
            .unwrap();
    }
    writer.into_inner()
}

fn open(bytes: &[u8], looping: bool, timed: bool) -> Result<OpusFileSource, MediaError> {
    let mut reader = PacketReader::new(Cursor::new(bytes));
    let head = reader.read_packet().unwrap().unwrap().data;
    let header = OpusHeader::parse(&head)?;
    let tags = reader.read_packet().unwrap().unwrap().data;
    let mut packets = Vec::new();
    while let Some(packet) = reader.read_packet().unwrap() {
        packets.push(packet.data);
    }
    let mut codec = plain_codec();
    OpusFileSource::open_timed(header, &tags, &packets, &mut codec, 20, looping, timed)
}

fn recorded(frames: &[AudioFrame]) -> Vec<u8> {
    let (mut sink, mut packets) =
        OpusFileSink::create(CodecProfile::OpusAudioMax, plain_codec()).unwrap();
    for frame in frames {
        packets.push(sink.handle_frame(frame).unwrap());
    }
    let (rest, outcome) = sink.finalize();
    outcome.unwrap();
    packets.extend(rest);
    write_stream(&packets)
}

#[test]
fn ogg_opus_file_sink_and_source_round_trip_audio() {
    let samples: Vec<u32> = (0..960)
        .flat_map(|n| {
            let sample = ((n as f32 / 48_000.0) * 440.0 * std::f32::consts::TAU).sin() * 0.2;
            [sample.to_bits(), sample.to_bits()]
        })
        .collect();
    let frame = AudioFrame::new(48_000, 2, samples).unwrap();

    let bytes = recorded(&[frame]);
    assert!(bytes.starts_with(b"OggS"));
    assert!(bytes.windows("OpusHead".len()).any(|w| w == b"OpusHead"));

    let mut source = open(&bytes, false, false).unwrap();
    assert_eq!(source.samplerate(), 48_000);
    assert_eq!(source.channels(), 2);
    assert!(source.duration() / 1_000_000 > 0);
    source.start(NOW);
    let decoded = source.next_frame(NOW).unwrap().unwrap();
    assert_eq!(decoded.samplerate(), 48_000);
    assert_eq!(decoded.channels(), 2);
    assert!(decoded.frame_count() > 0);
}

#[test]
fn ogg_opus_file_sink_writes_final_silence_padding() {
    let source = open(&recorded(&[silent_frame()]), false, false).unwrap();
    assert!(source.len_samples() >= 960 * 10);
}

#[test]
fn queued_opus_file_sink_applies_backpressure_before_autodigest() {
    let frame = silent_frame();
    let mut sink = QueuedOpusFileSink::create(
        "queued-backpressure.opus".to_string(),
        QueuedOpusFileSinkConfig {
            max_queued_frames: 1,
            autodigest: false,
            ..QueuedOpusFileSinkConfig::default()
        },
    )
    .unwrap();

    assert!(sink.can_receive());
    sink.handle_frame(frame.clone()).unwrap();
    assert_eq!(sink.frames_waiting(), 1);
    assert!(!sink.can_receive());
    assert!(matches!(
        sink.handle_frame(frame),
        Err(MediaError::SinkFull)
    ));
    assert_eq!(sink.path(), "queued-backpressure.opus");
}

/// Writes what is queued until the file is ended.
fn drain(sink: &mut QueuedOpusFileSink) -> Vec<u8> {
    let (mut file, mut packets) =
        OpusFileSink::create(sink.config().profile, plain_codec()).unwrap();
    loop {
        match sink.worker_step() {
            FileStep::Write(frame) => packets.push(file.handle_frame(&frame).unwrap()),
            FileStep::Wait => sink.release(),
            FileStep::Finalize => {
                let (rest, outcome) = file.finalize();
                outcome.unwrap();
                packets.extend(rest);
                sink.mark_finalized();
                return write_stream(&packets);
            }
        }
    }
}

#[test]
fn queued_opus_file_sink_drains_and_finalizes_on_stop() {
    let frame = silent_frame();
    let mut sink = QueuedOpusFileSink::create(
        "queued-drain.opus".to_string(),
        QueuedOpusFileSinkConfig {
            finalize_timeout: secs(2),
            ..QueuedOpusFileSinkConfig::default()
        },
    )
    .unwrap();

    sink.handle_frame(frame.clone()).unwrap();
    sink.handle_frame(frame).unwrap();
    assert!(sink.is_working());
    assert!(sink.stop());
    let bytes = drain(&mut sink);
    sink.joined(Some(Ok(()))).unwrap();

    assert!(sink.is_finalized());
    assert!(!sink.can_receive());
    assert!(matches!(
        sink.handle_frame(AudioFrame::silence(48_000, 2, 960).unwrap()),
        Err(MediaError::SinkClosed)
    ));

    let source = open(&bytes, false, false).unwrap();
    assert!(source.len_samples() >= 960 * 10);
}

#[test]
fn opus_file_source_timed_mode_waits_between_frames() {
    let bytes = recorded(&[silent_frame(), silent_frame()]);
    let mut source = open(&bytes, false, true).unwrap();
    assert!(source.timed());
    assert_eq!(source.frame_time(), millis(20));

    source.start(NOW);
    assert!(source.next_frame(NOW).unwrap().is_some());
    assert!(source.next_frame(NOW).unwrap().is_none());

    let later = NOW + source.frame_time() + millis(5);
    assert!(source.next_frame(later).unwrap().is_some());
}

#[test]
fn opus_file_source_looping_can_be_toggled_after_open() {
    let mut source = open(&recorded(&[silent_frame()]), false, false).unwrap();
    assert!(!source.looping());
    source.set_looping(true);
    assert!(source.looping());

    source.start(NOW);
    let mut produced = 0;
    for _ in 0..100 {
        if source.next_frame(NOW).unwrap().is_some() {
            produced += 1;
            if produced > 32 {
                assert!(source.is_running());
                return;
            }
        }
    }

    panic!("looping source did not continue producing frames");
}

#[test]
fn a_played_file_is_what_was_recorded() {
    let mut source = open(&recorded(&[silent_frame()]), false, false).unwrap();
    source.start(NOW);
    let mut played = 0;
    while let Some(frame) = source.next_frame(NOW).unwrap() {
        played += frame.samples().len();
    }
    assert_eq!(played, source.len_samples() * 2);
    assert!(!source.is_running());
}

#[test]
fn source_player_obeys_sink_backpressure_before_pulling() {
    let source = FakeMediaSource::new(48_000, 2, vec![silent_frame()]);
    let sink = FakeFrameSink {
        can_receive: false,
        ..FakeFrameSink::default()
    };
    let mut player = SourcePlayer::new(source, sink);

    player.start().unwrap();
    assert!(player.is_playing());
    assert!(!player.process_next().unwrap());

    assert_eq!(player.source().pulls, 0);
    assert!(player.sink().frames.is_empty());
}

#[test]
fn source_player_starts_outputs_frames_and_stops() {
    let source = FakeMediaSource::new(48_000, 2, vec![silent_frame()]);
    let sink = FakeFrameSink {
        can_receive: true,
        ..FakeFrameSink::default()
    };
    let mut player = SourcePlayer::new(source, sink);

    player.start().unwrap();
    assert!(player.is_playing());
    assert!(player.playing());
    assert!(player.sink().running);

    assert!(player.process_next().unwrap());
    assert_eq!(player.source().pulls, 1);
    assert_eq!(player.sink().frames.len(), 1);

    player.stop().unwrap();
    assert!(!player.is_playing());
    assert!(!player.playing());
    assert!(!player.sink().running);
}

#[test]
fn source_player_calls_finished_callback_once_on_eof() {
    let source = FakeMediaSource::new(48_000, 2, vec![silent_frame()]);
    let sink = FakeFrameSink {
        can_receive: true,
        ..FakeFrameSink::default()
    };
    let mut calls = 0;
    let mut player = SourcePlayer::new(source, sink);

    player.start().unwrap();
    assert!(player.process_next().unwrap());
    calls += usize::from(player.take_finished());
    assert!(!player.process_next().unwrap());
    calls += usize::from(player.take_finished());
    assert!(!player.is_playing());
    assert_eq!(calls, 1);

    assert!(!player.process_next().unwrap());
    calls += usize::from(player.take_finished());
    assert_eq!(calls, 1);
}

#[test]
fn source_recorder_obeys_sink_backpressure_before_pulling() {
    let source = FakeMediaSource::new(48_000, 2, vec![silent_frame(), silent_frame()]);
    let mut recorder = SourceRecorder::create(
        source,
        "source-recorder-backpressure.opus".to_string(),
        QueuedOpusFileSinkConfig {
            max_queued_frames: 1,
            autodigest: false,
            ..QueuedOpusFileSinkConfig::default()
        },
    )
    .unwrap();

    recorder.start();
    assert!(recorder.process_next().unwrap());
    assert_eq!(recorder.source().pulls, 1);
    assert_eq!(recorder.frames_waiting(), 1);
    assert!(!recorder.can_receive());

    assert!(!recorder.process_next().unwrap());
    assert_eq!(recorder.source().pulls, 1);
}

#[test]
fn source_recorder_records_source_to_opus_file() {
    let source = FakeMediaSource::new(48_000, 2, vec![silent_frame()]);
    let mut recorder = SourceRecorder::create(
        source,
        "source-recorder-file.opus".to_string(),
        QueuedOpusFileSinkConfig {
            finalize_timeout: secs(2),
            ..QueuedOpusFileSinkConfig::default()
        },
    )
    .unwrap();

    recorder.start();
    assert!(recorder.is_recording());
    assert!(recorder.process_next().unwrap());
    assert!(recorder.stop());
    assert!(!recorder.is_recording());

    let bytes = drain(&mut recorder.sink);
    let source = open(&bytes, false, false).unwrap();
    assert!(source.len_samples() >= 960 * 10);
}

#[test]
fn headers_of_files_are_read_and_refused() {
    let head = opus_head(2, 24_000);
    assert_eq!(head.len(), 19);
    assert_eq!(&head[..8], b"OpusHead");
    let header = OpusHeader::parse(&head).unwrap();
    assert_eq!(header.channels, 2);
    assert!(is_opus_tags(&opus_tags()));
    assert!(!is_opus_tags(b"OpusHead"));
    for bad in [&head[..18], &b"OpusHeed\x01\x02\0\0\0\0\0\0\0\0\0"[..]] {
        assert!(matches!(
            OpusHeader::parse(bad),
            Err(MediaError::InvalidOpusFile(_))
        ));
    }
    let mut codec = plain_codec();
    assert!(matches!(
        OpusFileSource::open_timed(header, b"no tags", &[], &mut codec, 20, false, false),
        Err(MediaError::InvalidOpusFile(_))
    ));
    assert_eq!(opus_file_profile(2, 48_000), CodecProfile::OpusAudioMax);
    assert_eq!(samples_per_frame(48_000, 20), 960);
}

#[test]
fn received_frames_are_played_while_there_is_room() {
    let mut source = FakeMediaSource::new(48_000, 2, vec![silent_frame(), silent_frame()]);
    source.start();
    let mut sink = FakeFrameSink {
        can_receive: true,
        ..FakeFrameSink::default()
    };
    assert_eq!(play_received_frame(&mut source, &mut sink), Ok(true));
    sink.can_receive = false;
    assert_eq!(play_received_frame(&mut source, &mut sink), Ok(false));
    assert_eq!(source.pulls, 2);
    assert_eq!(sink.frames.len(), 1);
    assert_eq!(play_received_frame(&mut source, &mut sink), Ok(false));
}

#[derive(Default)]
struct FakeFrameSink {
    can_receive: bool,
    running: bool,
    frames: Vec<AudioFrame>,
}

impl AudioFrameSink for FakeFrameSink {
    fn start(&mut self) -> Result<(), MediaError> {
        self.running = true;
        Ok(())
    }

    fn stop(&mut self) -> Result<(), MediaError> {
        self.running = false;
        Ok(())
    }

    fn can_receive(&self) -> bool {
        self.can_receive
    }

    fn handle_frame(&mut self, frame: AudioFrame) -> Result<(), MediaError> {
        self.frames.push(frame);
        Ok(())
    }
}

struct FakeMediaSource {
    samplerate: u32,
    channels: u8,
    frames: VecDeque<AudioFrame>,
    running: bool,
    pulls: usize,
}

impl FakeMediaSource {
    fn new(samplerate: u32, channels: u8, frames: Vec<AudioFrame>) -> Self {
        Self {
            samplerate,
            channels,
            frames: frames.into(),
            running: false,
            pulls: 0,
        }
    }
}

impl AudioSource for FakeMediaSource {
    fn start(&mut self) {
        self.running = true;
    }

    fn stop(&mut self) {
        self.running = false;
    }

    fn is_running(&self) -> bool {
        self.running
    }

    fn samplerate(&self) -> u32 {
        self.samplerate
    }

    fn channels(&self) -> u8 {
        self.channels
    }

    fn next_frame(&mut self) -> Result<Option<AudioFrame>, PipelineError> {
        if !self.running {
            return Ok(None);
        }
        self.pulls += 1;
        let frame = self.frames.pop_front();
        if frame.is_none() {
            self.running = false;
        }
        Ok(frame)
    }
}

#[test]
fn a_new_recorder_has_nothing_to_end() {
    let recorder = SourceRecorder::create(
        FakeMediaSource::new(48_000, 2, Vec::new()),
        "new.opus".to_string(),
        QueuedOpusFileSinkConfig::default(),
    )
    .unwrap();
    assert!(!recorder.sink.is_finalized());
    assert!(!recorder.sink.is_working());
    assert_eq!(recorder.frames_waiting(), 0);
    assert!(recorder.can_receive());
}

#[test]
fn a_file_whose_end_was_not_written_is_ended_again() {
    let (mut sink, _) = OpusFileSink::create(CodecProfile::OpusAudioMax, plain_codec()).unwrap();
    let packet = sink.handle_frame(&silent_frame()).unwrap();
    assert_eq!(packet.granule, 960 + 312);
    let (packets, outcome) = sink.finalize();
    assert!(outcome.is_ok() && sink.finalized);
    assert_eq!(packets.len(), 11);
    assert!(sink.finalize().0.is_empty());

    // The second frame of silence could not be written.
    sink.reopen_at(packets[1].granule);
    assert!(!sink.finalized);
    assert_eq!(sink.samples_written_48k, 3 * 960);
    let (again, outcome) = sink.finalize();
    assert!(outcome.is_ok() && sink.finalized);
    assert_eq!(again.len(), 11);
    assert_eq!(again[10].granule, 13 * 960 + 312);
}
