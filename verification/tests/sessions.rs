use sonic_span::android::{
    bytes_read, channel_config, check_written, pack_samples, record_buffer_size, track_buffer_size,
    unpack_samples,
};
use sonic_span::buffer::AudioRingBuffer;
use sonic_span::capture::{
    choose_output_config, fill_tail, from_offset_binary, play_from, select_input_device,
    select_output_device, stream_conversion, to_offset_binary, AudioDeviceInfo, CaptureError,
    Conversion, DeviceChoice, FormatRange, SampleFormat, StreamFormat,
};
use sonic_span::duration::Duration;
use sonic_span::player::{connect, MessageAction};
use sonic_span::protocol::{PcmPacket, ProtocolError};
use sonic_span::protocol::v2;
use sonic_span::session::{
    address_text, check_packet_frames, understand, CaptureSession, DatagramError, MicSession,
    MicStep, PlaybackSession, ReceiveSession,
};
use sonic_span::startup::{
    check_receiver_slot, check_transmitter_slot, ReceiveStep, RebuildStep, TransmitStep,
};
use sonic_span::udp::{UdpStats, RECEIVE_BUFFER_BYTES};
use sonic_span::websocket::{ClientSet, PrefixedStream};

#[test]
fn udp_counters() {
    let mut stats = UdpStats::default();
    assert_eq!(stats.packets_sent(), 0);
    stats.record_sent(5);
    stats.record_sent(7);
    stats.record_received(11);
    assert_eq!(stats.packets_sent(), 2);
    assert_eq!(stats.bytes_sent(), 12);
    assert_eq!(stats.packets_received(), 1);
    assert_eq!(stats.bytes_received(), 11);
    assert_eq!(RECEIVE_BUFFER_BYTES, 1264);
}

#[test]
fn durations() {
    let d = Duration::from_millis(1234);
    assert_eq!(d, Duration { secs: 1, nanos: 234_000_000 });
    assert_eq!(d.as_millis(), 1234);
    assert_eq!(Duration { secs: 0, nanos: 1_999_999 }.as_millis(), 1);
}

#[test]
fn clients_come_and_go() {
    let mut clients = ClientSet::new();
    assert_eq!(clients.register("a"), 0);
    assert_eq!(clients.register("b"), 1);
    assert_eq!(clients.register("c"), 2);
    assert_eq!(clients.client_count(), 3);
    let mut ids = clients.ids();
    ids.sort();
    assert_eq!(ids, vec![0, 1, 2]);
    clients.remove_dead(&[0, 2, 9]);
    assert_eq!(clients.client_count(), 1);
    assert_eq!(clients.get(1), Some(&"b"));
    assert_eq!(clients.get(0), None);
    clients.remove(1);
    assert_eq!(clients.client_count(), 0);
    assert_eq!(clients.register("d"), 3);
}

#[test]
fn prefixes_are_replayed_before_the_stream() {
    let mut stream = PrefixedStream::new(b"GET /".to_vec(), 42u8);
    assert_eq!(stream.read_prefix(0), Some(vec![]));
    assert_eq!(stream.read_prefix(2), Some(b"GE".to_vec()));
    assert_eq!(stream.read_prefix(100), Some(b"T /".to_vec()));
    assert_eq!(stream.read_prefix(100), None);
    *stream.inner_mut() += 1;
    assert_eq!(*stream.inner_mut(), 43);
}

#[test]
fn packet_sizes_are_checked() {
    assert!(check_packet_frames(0).is_ok());
    assert!(check_packet_frames(300).is_ok());
    assert_eq!(
        check_packet_frames(301).unwrap_err(),
        "--packet-frames 301 would produce a 1204-byte payload; keep it at or below 300"
    );
}

#[test]
fn accepted_packets_fit_the_receive_buffer() {
    let mut capture = CaptureSession::new(48_000, 2);
    let bytes = capture.datagram(&[7; 300]).unwrap();
    assert_eq!(bytes.len(), 1219);
    assert!(bytes.len() <= RECEIVE_BUFFER_BYTES);
}

#[test]
fn captured_samples_are_received() {
    let mut capture = CaptureSession::new(48_000, 2);
    let mut receive = ReceiveSession::new();
    assert!(capture.datagram(&[]).is_none());

    let bytes = capture.datagram(&[1, 2, 3, 4]).unwrap();
    let (packet, reopen) = receive.receive(&bytes).unwrap();
    assert!(reopen);
    assert_eq!(packet.sequence, 0);
    assert_eq!(packet.samples, vec![1, 2, 3, 4]);
    receive.opened(packet.sample_rate, packet.channels);

    let bytes = capture.datagram(&[5]).unwrap();
    let (packet, reopen) = receive.receive(&bytes).unwrap();
    assert!(!reopen);
    assert_eq!(packet.sequence, 1);
    assert_eq!(receive.received_packets(), 2);

    let mut other = CaptureSession::new(44_100, 2);
    let bytes = other.datagram(&[5]).unwrap();
    assert!(receive.receive(&bytes).unwrap().1);
    assert_eq!(
        receive.receive(&bytes[..3]).unwrap_err(),
        ProtocolError::TooShort(3)
    );
    assert_eq!(receive.received_packets(), 3);
}

#[test]
fn reports_come_every_so_often() {
    let mut capture = CaptureSession::new(48_000, 2);
    let due: Vec<u64> = (1..=1000u64).filter(|_| capture.sent(10)).collect();
    assert_eq!(due, vec![500, 1000]);
    assert_eq!(capture.sent_packets(), 1000);
    assert_eq!(capture.sent_bytes(), 10_000);

    let mut source = CaptureSession::new(48_000, 2);
    let bytes = source.datagram(&[1]).unwrap();
    let mut receive = ReceiveSession::new();
    assert!(receive.report_due());
    let mut due = Vec::new();
    for i in 1..=2000u64 {
        receive.receive(&bytes).unwrap();
        if receive.report_due() {
            due.push(i);
        }
    }
    assert_eq!(due, vec![1000, 2000]);
}

#[test]
fn playback_rebuilds_on_a_new_configuration() {
    let mut session = PlaybackSession::new();
    let mut bytes = Vec::new();
    v2::PcmPacket::from_opus(3, 48_000, 2, vec![1]).encode(&mut bytes);
    let (packet, rebuild) = session.receive(&bytes).unwrap();
    assert!(rebuild);
    assert_eq!(packet.sequence, 3);
    assert_eq!(session.rebuilt(48_000, 2), "playing 48000 Hz / 2 ch");
    assert!(!session.receive(&bytes).unwrap().1);
    assert_eq!(
        session.receive(&[]).unwrap_err(),
        DatagramError::Second(v2::ProtocolError::TooShort(0))
    );
    let due: Vec<u64> = (1..=400u64).filter(|_| session.processed()).collect();
    assert_eq!(due, vec![200, 400]);
}

#[test]
fn playback_takes_both_formats() {
    let session = PlaybackSession::new();
    let mut capture = CaptureSession::new(44_100, 1);
    let bytes = capture.datagram(&[7, 8]).unwrap();
    let (packet, rebuild) = session.receive(&bytes).unwrap();
    assert!(rebuild);
    assert_eq!(packet.sequence, 0);
    assert_eq!(packet.sample_rate, 44_100);
    assert_eq!(packet.channels, 1);
    assert_eq!(packet.codec, v2::Codec::Pcm);
    assert_eq!(packet.samples().unwrap(), vec![7, 8]);

    let short = session.receive(&bytes[..18]).unwrap_err();
    assert_eq!(short, DatagramError::First(ProtocolError::TooShort(18)));
    assert_eq!(
        short.message(),
        "packet too short: 18 bytes (header is 19 bytes)"
    );
    let mut strange = bytes.clone();
    strange[4] = 9;
    let error = session.receive(&strange).unwrap_err();
    assert_eq!(
        error,
        DatagramError::Second(v2::ProtocolError::UnsupportedVersion(9))
    );
    assert_eq!(error.message(), "unsupported protocol version 9");
    assert_eq!(understand(&bytes).unwrap(), packet);
}

#[test]
fn microphone_loop_steps() {
    let mut session = MicSession::new();
    assert_eq!(session.after_read(0, false), MicStep::Wait);
    assert_eq!(session.after_read(0, true), MicStep::Stop);
    assert_eq!(session.after_read(7, true), MicStep::Process(7));
    assert_eq!(session.report(), None);
    for _ in 0..100 {
        session.sent(3);
    }
    assert_eq!(session.report(), Some((100, 300)));
    session.sent(1);
    assert_eq!(session.report(), None);
}

#[test]
fn addresses() {
    assert_eq!(address_text("10.0.0.1", 9000), "10.0.0.1:9000");
    assert_eq!(address_text("h", -1), "h:-1");
    assert_eq!(address_text("h", i32::MIN), "h:-2147483648");
}

#[test]
fn one_session_at_a_time() {
    assert!(check_receiver_slot(false).is_ok());
    assert_eq!(
        check_receiver_slot(true).unwrap_err(),
        "already running; press Stop first"
    );
    assert!(check_transmitter_slot(false).is_ok());
    assert_eq!(
        check_transmitter_slot(true).unwrap_err(),
        "already transmitting; press Stop first"
    );
    assert_eq!(
        connect(true).err().unwrap(),
        "SonicSpan is already connected; call stop() first"
    );
}

#[test]
fn receiver_start_steps() {
    let mut step = ReceiveStep::ParseAddress;
    let mut seen = vec![step];
    while step != ReceiveStep::Done {
        let (next, status) = step.advance(Ok(()));
        assert_eq!(status, None);
        step = next;
        seen.push(step);
    }
    assert_eq!(
        seen,
        vec![
            ReceiveStep::ParseAddress,
            ReceiveStep::StartRuntime,
            ReceiveStep::BindSocket,
            ReceiveStep::Run,
            ReceiveStep::Done
        ]
    );
    for (step, text) in [
        (ReceiveStep::ParseAddress, "invalid address: x"),
        (ReceiveStep::StartRuntime, "failed to start runtime: x"),
        (ReceiveStep::BindSocket, "failed to bind: x"),
        (ReceiveStep::Run, "error: x"),
    ] {
        assert_eq!(
            step.advance(Err("x".to_string())),
            (ReceiveStep::Done, Some(text.to_string()))
        );
    }
}

#[test]
fn transmitter_start_steps() {
    let mut step = TransmitStep::ParseAddress;
    let mut said = Vec::new();
    let mut count = 0;
    while step != TransmitStep::Done {
        let (next, status) = step.advance(Ok(()), "1.2.3.4:9000");
        said.extend(status);
        step = next;
        count += 1;
    }
    assert_eq!(count, 7);
    assert_eq!(
        said,
        vec![
            "transmitting to 1.2.3.4:9000 (48 kHz mono, Opus)".to_string(),
            "transmit stopped".to_string()
        ]
    );
    for (step, text) in [
        (TransmitStep::ParseAddress, "invalid address: x"),
        (TransmitStep::OpenSocket, "failed to open UDP socket: x"),
        (TransmitStep::ConnectSocket, "failed to connect to addr: x"),
        (TransmitStep::OpenMicrophone, "microphone unavailable: x"),
        (TransmitStep::CreateTransmitter, "failed to create transmitter: x"),
    ] {
        assert_eq!(
            step.advance(Err("x".to_string()), "addr"),
            (TransmitStep::Done, Some(text.to_string()))
        );
    }
    assert_eq!(
        TransmitStep::Run.advance(Err("x".to_string()), "addr"),
        (TransmitStep::Release, Some("microphone read failed: x".to_string()))
    );
}

#[test]
fn rebuild_steps() {
    let mut step = RebuildStep::CreateContext;
    let mut count = 0;
    while step != RebuildStep::Install {
        step = step.advance(Ok(())).0;
        count += 1;
    }
    assert_eq!(count, 6);
    for (step, text) in [
        (RebuildStep::CreateContext, "failed to create audio context: x"),
        (RebuildStep::AccessWorklet, "failed to access audio worklet: x"),
        (RebuildStep::LoadModule, "failed to load audio worklet: x"),
        (RebuildStep::CreateGain, "failed to create gain node: x"),
        (RebuildStep::CreateNode, "failed to create worklet node: x"),
        (RebuildStep::ConnectGraph, "failed to connect audio graph"),
    ] {
        assert_eq!(
            step.advance(Err("x".to_string())),
            (RebuildStep::Abandoned, Some(text.to_string()))
        );
    }
}

fn message(sequence: u32, sample_rate: u32, channels: u16, samples: Vec<u32>) -> Vec<u8> {
    let mut bytes = Vec::new();
    PcmPacket {
        sequence,
        sample_rate,
        channels,
        samples,
    }
    .encode(&mut bytes);
    bytes
}

#[test]
fn browser_player_buffers_until_it_is_built() {
    let mut player = connect(false).unwrap();
    assert_eq!(
        player.handle_message(b"no").unwrap_err(),
        ProtocolError::TooShort(2)
    );
    assert_eq!(player.counters(), (0, 0));

    for i in 0..2u32 {
        let handled = player
            .handle_message(&message(i, 48_000, 2, vec![i, i + 10]))
            .unwrap();
        assert!(matches!(
            handled.action,
            MessageAction::Rebuild { sample_rate: 48_000, channels: 2 }
        ));
        assert!(handled.stats.is_none());
    }
    assert_eq!(player.finish_rebuild(48_000, 2), vec![0, 10, 1, 11]);
    let handled = player
        .handle_message(&message(2, 48_000, 2, vec![7]))
        .unwrap();
    match handled.action {
        MessageAction::Play(packet) => assert_eq!(packet.samples, vec![7]),
        other => panic!("unexpected action {other:?}"),
    }
    let handled = player
        .handle_message(&message(3, 44_100, 2, vec![8]))
        .unwrap();
    assert!(matches!(
        handled.action,
        MessageAction::Rebuild { sample_rate: 44_100, channels: 2 }
    ));
    assert_eq!(player.finish_rebuild(44_100, 2), vec![8]);
}

#[test]
fn browser_player_buffers_two_seconds_at_most() {
    let mut player = connect(false).unwrap();
    // Two seconds at 3 Hz mono are six samples.
    for i in 0..4u32 {
        player.handle_message(&message(i, 3, 1, vec![i; 4])).unwrap();
    }
    assert_eq!(player.finish_rebuild(3, 1), vec![0, 0, 0, 0, 1, 1, 1, 1]);
}

#[test]
fn browser_player_reports_every_hundred_packets() {
    let mut player = connect(false).unwrap();
    let bytes = message(0, 8_000, 1, vec![1]);
    let mut reports = Vec::new();
    for _ in 0..250 {
        reports.extend(player.handle_message(&bytes).unwrap().stats);
    }
    assert_eq!(reports, vec![(100, 2300), (200, 4600)]);
}

#[test]
fn devices_are_summed_up() {
    let format = StreamFormat {
        sample_rate: 48_000,
        channels: 2,
        sample_format: SampleFormat::F32,
    };
    let info = AudioDeviceInfo::new(
        1,
        Some("Mix".to_string()),
        Some("Mix".to_string()),
        Some(format),
    );
    assert_eq!(info.line(), "  [1] Mix (default) — 48000 Hz, 2 ch, F32");
    let info = AudioDeviceInfo::new(0, None, Some("Mix".to_string()), None);
    assert_eq!(info.line(), "  [0] (unknown) — 0 Hz, 0 ch, ");
    assert!(!info.is_default);
    assert!(!AudioDeviceInfo::new(0, Some("Mix".to_string()), None, None).is_default);
    assert_eq!(format.config().sample_rate, 48_000);
    assert_eq!(format.config().channels, 2);
}

#[test]
fn devices_are_selected() {
    assert_eq!(
        select_input_device(Some(1), Ok(2), false).unwrap(),
        DeviceChoice::Nth(1)
    );
    assert_eq!(
        select_input_device(None, Err("unused".to_string()), true).unwrap(),
        DeviceChoice::Default
    );
    assert_eq!(
        select_input_device(Some(2), Ok(2), true).unwrap_err().message(),
        "audio device #2 not found; run `list-devices` to see available devices"
    );
    assert_eq!(
        select_output_device(Some(0), Err("gone".to_string()), true)
            .unwrap_err()
            .message(),
        "failed to query audio device: gone"
    );
    assert_eq!(
        select_input_device(None, Ok(1), false).unwrap_err().message(),
        "no default audio input device available; run `list-devices` and pass --device <index>"
    );
    assert_eq!(
        select_output_device(None, Ok(1), false).unwrap_err().message(),
        "no default audio output device available; run `list-devices` and pass --device <index>"
    );
}

#[test]
fn capture_error_messages() {
    assert_eq!(
        CaptureError::BuildStream("x".to_string()).message(),
        "failed to build audio stream: x"
    );
    assert_eq!(
        CaptureError::StartStream("x".to_string()).message(),
        "failed to start audio stream: x"
    );
    assert_eq!(
        CaptureError::StopStream("x".to_string()).message(),
        "failed to stop audio stream: x"
    );
}

#[test]
fn output_configurations_are_chosen() {
    let default = StreamFormat {
        sample_rate: 44_100,
        channels: 6,
        sample_format: SampleFormat::I32,
    };
    let ranges = [
        FormatRange {
            channels: 1,
            min_sample_rate: 8_000,
            max_sample_rate: 96_000,
            sample_format: SampleFormat::U8,
        },
        FormatRange {
            channels: 2,
            min_sample_rate: 48_000,
            max_sample_rate: 48_000,
            sample_format: SampleFormat::I16,
        },
        FormatRange {
            channels: 2,
            min_sample_rate: 8_000,
            max_sample_rate: 96_000,
            sample_format: SampleFormat::F32,
        },
    ];
    assert_eq!(
        choose_output_config(default, &ranges, 48_000, 2),
        StreamFormat {
            sample_rate: 48_000,
            channels: 2,
            sample_format: SampleFormat::I16
        }
    );
    assert_eq!(
        choose_output_config(default, &ranges, 48_001, 2).sample_format,
        SampleFormat::F32
    );
    assert_eq!(choose_output_config(default, &ranges, 96_001, 2), default);
    assert_eq!(choose_output_config(default, &[], 48_000, 2), default);
}

#[test]
fn sample_formats() {
    assert_eq!(stream_conversion(SampleFormat::F32).unwrap(), Conversion::F32);
    assert_eq!(stream_conversion(SampleFormat::I16).unwrap(), Conversion::I16);
    assert_eq!(stream_conversion(SampleFormat::U16).unwrap(), Conversion::U16);
    assert_eq!(stream_conversion(SampleFormat::I32).unwrap(), Conversion::I32);
    assert_eq!(
        stream_conversion(SampleFormat::F64).unwrap_err().message(),
        "unsupported sample format F64"
    );
    let names = [
        (SampleFormat::I8, "I8"),
        (SampleFormat::I64, "I64"),
        (SampleFormat::U8, "U8"),
        (SampleFormat::U32, "U32"),
        (SampleFormat::U64, "U64"),
    ];
    for (format, name) in names {
        assert_eq!(format.name(), name);
        assert!(stream_conversion(format).is_err());
    }
}

#[test]
fn offset_binary_is_the_sign_bit_flipped() {
    for v in [i16::MIN, -1, 0, 1, i16::MAX] {
        assert_eq!(to_offset_binary(v), v as u16 ^ 0x8000);
        assert_eq!(from_offset_binary(to_offset_binary(v)), v);
    }
    assert_eq!(to_offset_binary(0), 0x8000);
}

#[test]
fn playback_is_padded_with_silence() {
    let mut ring = AudioRingBuffer::new(8);
    ring.push(&[1, 2, 3]);
    let mut data = [9u32; 5];
    assert_eq!(play_from(&mut ring, &mut data), 3);
    assert_eq!(data, [1, 2, 3, 0, 0]);

    let mut words = [1u16, 2, 3];
    fill_tail(&mut words, 1, 0x8000);
    assert_eq!(words, [1, 0x8000, 0x8000]);
}

#[test]
fn android_buffers_and_samples() {
    assert_eq!(channel_config(0), 4);
    assert_eq!(channel_config(1), 4);
    assert_eq!(channel_config(2), 12);
    assert_eq!(track_buffer_size(1000), 4096);
    assert_eq!(track_buffer_size(3000), 6000);
    assert_eq!(track_buffer_size(-2), 4096);
    assert_eq!(record_buffer_size(5000).unwrap(), 10_000);
    assert_eq!(
        record_buffer_size(-2).unwrap_err(),
        "AudioRecord.getMinBufferSize returned -2"
    );
    assert_eq!(bytes_read(-3), 0);
    assert_eq!(bytes_read(4), 4);

    let samples = [0i16, 1, -1, i16::MIN, i16::MAX];
    let bytes = pack_samples(&samples);
    let expected: Vec<u8> = samples.iter().flat_map(|s| s.to_le_bytes()).collect();
    assert_eq!(bytes, expected);
    let mut out = [7i16; 6];
    assert_eq!(unpack_samples(&bytes, &mut out), 5);
    assert_eq!(out, [0, 1, -1, i16::MIN, i16::MAX, 7]);
    assert_eq!(unpack_samples(&bytes[..3], &mut out), 1);

    assert!(check_written(10, 10).is_ok());
    assert_eq!(
        check_written(-6, 10).unwrap_err(),
        "AudioTrack write short: -6 of 10 bytes"
    );
}
