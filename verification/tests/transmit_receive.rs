use sonic_span::buffer::Sample;
use sonic_span::codec::{
    channel_setting, decode_failed, decoder_unavailable, encode_failed, encoder_unavailable,
    opus_frame_size, ChannelLayout, OpusSettings,
};
use sonic_span::duration::Duration;
use sonic_span::errors::{AudioError, NetworkError};
use sonic_span::jitter::{JitterBuffer, JitterBufferConfig, LatencyFrames};
use sonic_span::protocol::v2::{Codec, PcmPacket};
use sonic_span::protocol::MAX_PAYLOAD_BYTES;
use sonic_span::receiver::{Decoded, Playout, Receiver, ReceiverConfig, ReceiverStats};
use sonic_span::resampler::{adjust_for_occupancy, Drift};
use sonic_span::transmitter::{Transmitter, TransmitterConfig};

fn bits(values: &[f32]) -> Vec<Sample> {
    values.iter().map(|v| v.to_bits()).collect()
}

fn duration_frames(sample_rate: u32, duration: Duration) -> usize {
    let secs = duration.secs as f64 + duration.nanos as f64 / 1e9;
    (sample_rate as f64 * secs) as usize
}

fn frames_of(config: JitterBufferConfig) -> LatencyFrames {
    LatencyFrames {
        initial: duration_frames(config.sample_rate, config.initial_latency),
        min: duration_frames(config.sample_rate, config.min_latency),
        max: duration_frames(config.sample_rate, config.max_latency),
        step: duration_frames(config.sample_rate, Duration::from_millis(5)),
    }
}

fn process(
    receiver: &mut Receiver,
    packet: &PcmPacket,
    decoded: Decoded,
) -> Result<Playout, AudioError> {
    let frames = frames_of(receiver.jitter_config(packet));
    let playout = receiver.process_packet(packet, frames, decoded)?;
    let target = receiver.target_frames().unwrap();
    let latency =
        std::time::Duration::from_secs_f64(target as f64 / packet.sample_rate as f64);
    receiver.sync_stats(Duration {
        secs: latency.as_secs(),
        nanos: latency.subsec_nanos(),
    });
    Ok(playout)
}

fn pcm_packet(sequence: u32, tag: f32) -> PcmPacket {
    let samples: Vec<f32> = (0..1920).map(|i| tag + i as f32 * 0.001).collect();
    PcmPacket::from_pcm(sequence, 48_000, 2, &bits(&samples))
}

#[test]
fn reorders_and_plays_pcm() {
    let mut receiver = Receiver::new(ReceiverConfig::default());
    let mut played: Vec<f32> = Vec::new();
    for seq in [1u32, 2, 4, 3] {
        let playout = process(
            &mut receiver,
            &pcm_packet(seq, seq as f32),
            Decoded::NotNeeded,
        )
        .unwrap();
        played.extend(playout.samples.iter().map(|s| f32::from_bits(*s)));
    }
    // All four packets play, in sequence order.
    assert!(!played.is_empty());
    assert!(played.iter().any(|&s| (s - 1.0).abs() < 0.01));
    assert!(played.iter().any(|&s| (s - 4.0).abs() < 0.01));
    assert_eq!(receiver.stats().packets_received, 4);
    assert_eq!(receiver.stats().packets_lost, 0);
}

#[test]
fn tracks_lost_packets() {
    let mut receiver = Receiver::new(ReceiverConfig::default());
    process(&mut receiver, &pcm_packet(1, 1.0), Decoded::NotNeeded).unwrap();
    process(&mut receiver, &pcm_packet(2, 2.0), Decoded::NotNeeded).unwrap();
    // Sequence 5 means 3 and 4 were lost; they are reported once playback
    // stalls on the gap.
    for _ in 0..8 {
        let _ = process(&mut receiver, &pcm_packet(5, 5.0), Decoded::NotNeeded).unwrap();
    }
    assert_eq!(receiver.stats().packets_lost, 2);
}

fn sine(sample_rate: u32, samples: usize) -> Vec<Sample> {
    let values: Vec<f32> = (0..samples)
        .map(|i| ((i as f32) * 440.0 * std::f32::consts::TAU / sample_rate as f32).sin() * 0.5)
        .collect();
    bits(&values)
}

#[test]
fn pcm_transmit_chunks_under_datagram_limit() {
    let mut transmitter = Transmitter::new(TransmitterConfig {
        sample_rate: 48_000,
        channels: 2,
        codec: Codec::Pcm,
    })
    .unwrap();
    let packets = transmitter.process_pcm(&sine(48_000, 48_000 * 2));

    assert!(!packets.is_empty());
    for packet in &packets {
        assert!(packet.payload.len() <= MAX_PAYLOAD_BYTES);
        assert_eq!(packet.samples().unwrap().len() % 2, 0);
    }
    // Sequence numbers are contiguous across packets.
    for (i, packet) in packets.iter().enumerate() {
        assert_eq!(packet.sequence, i as u32);
    }
}

/// Drain the whole frames of an Opus transmitter, with a stand-in for the
/// encoder.
fn opus_packets(transmitter: &mut Transmitter, samples: &[Sample]) -> Vec<PcmPacket> {
    transmitter.feed(samples);
    let mut packets = Vec::new();
    while let Some(frame) = transmitter.next_frame() {
        packets.push(transmitter.opus_packet(vec![frame.len() as u8; 3]));
    }
    packets
}

#[test]
fn accumulates_partial_opus_frames() {
    let mut transmitter = Transmitter::new(TransmitterConfig::default()).unwrap();
    // Less than one 20 ms frame (960 samples).
    assert!(opus_packets(&mut transmitter, &sine(48_000, 500)).is_empty());
    // The remainder completes the frame on the next call.
    let packets = opus_packets(&mut transmitter, &sine(48_000, 460));
    assert_eq!(packets.len(), 1);
    assert!(!packets[0].payload.is_empty());
}

#[test]
fn opus_frames_hold_twenty_milliseconds() {
    let mut transmitter = Transmitter::new(TransmitterConfig::default()).unwrap();
    assert_eq!(transmitter.frame_samples(), 960);
    let input = sine(48_000, 48_000);
    let mut packets = Vec::new();
    for chunk in input.chunks(960) {
        packets.extend(opus_packets(&mut transmitter, chunk));
    }
    assert_eq!(packets.len(), 50); // 50 × 20 ms frames
    assert_eq!(packets[49].sequence, 49);
    assert_eq!(packets[0].codec, Codec::Opus);
    assert_eq!(packets[0].sample_rate, 48_000);
    assert_eq!(packets[0].channels, 1);
}

#[test]
fn transmitter_defaults() {
    let config = TransmitterConfig::default();
    assert_eq!(config.sample_rate, 48_000);
    assert_eq!(config.channels, 1);
    assert_eq!(config.codec, Codec::Opus);
}

#[test]
fn opus_transmitters_need_one_or_two_channels() {
    let refused = Transmitter::new(TransmitterConfig {
        sample_rate: 48_000,
        channels: 3,
        codec: Codec::Opus,
    });
    match refused {
        Err(e) => assert_eq!(
            e.message(),
            "Audio processing error: Opus supports 1 or 2 channels, got 3"
        ),
        Ok(_) => panic!("three channels were accepted"),
    }
    assert!(Transmitter::new(TransmitterConfig {
        sample_rate: 48_000,
        channels: 3,
        codec: Codec::Pcm,
    })
    .is_ok());
}

#[test]
fn packets_carry_every_sample_however_they_are_fed() {
    let config = TransmitterConfig {
        sample_rate: 44_100,
        channels: 2,
        codec: Codec::Pcm,
    };
    let input: Vec<Sample> = (0..1000).collect();
    let mut whole = Transmitter::new(config).unwrap();
    let at_once = whole.process_pcm(&input);
    assert_eq!(at_once.len(), 3);

    let mut parts = Transmitter::new(config).unwrap();
    let mut in_parts = Vec::new();
    for chunk in input.chunks(77) {
        in_parts.extend(parts.process_pcm(chunk));
    }
    assert_eq!(at_once, in_parts);

    let mut carried = Vec::new();
    for packet in &at_once {
        carried.extend(packet.samples().unwrap());
    }
    assert_eq!(carried, input[..900]);
}

#[test]
fn transmitted_samples_are_played_in_order() {
    let config = TransmitterConfig {
        sample_rate: 48_000,
        channels: 1,
        codec: Codec::Pcm,
    };
    let input: Vec<Sample> = (1..=3000).collect();
    let packets = Transmitter::new(config).unwrap().process_pcm(&input);
    assert_eq!(packets.len(), 10);

    let setup = JitterBufferConfig::new(48_000, 1);
    let mut jitter = JitterBuffer::new(setup, frames_of(setup));
    // The first packet fixes where playback starts.
    jitter.push(packets[0].sequence, packets[0].samples().unwrap());
    for i in [3usize, 1, 9, 2, 8, 7, 4, 6, 5] {
        let mut bytes = Vec::new();
        packets[i].encode(&mut bytes);
        let packet = PcmPacket::decode(&bytes).unwrap();
        jitter.push(packet.sequence, packet.samples().unwrap());
    }
    let mut out = vec![0u32; 3000];
    assert_eq!(jitter.read(&mut out), 3000);
    assert_eq!(out, input);
}

#[test]
fn reads_between_packets_return_what_was_fed() {
    let config = TransmitterConfig {
        sample_rate: 48_000,
        channels: 1,
        codec: Codec::Pcm,
    };
    let input: Vec<Sample> = (1..=3000).collect();
    let packets = Transmitter::new(config).unwrap().process_pcm(&input);
    let setup = JitterBufferConfig::new(48_000, 1);
    let mut jitter = JitterBuffer::new(setup, frames_of(setup));
    let mut heard = Vec::new();
    for i in [0usize, 2, 1, 4, 3, 5, 7, 6, 9, 8] {
        jitter.push(packets[i].sequence, packets[i].samples().unwrap());
        let mut out = vec![0u32; 500];
        let n = jitter.read(&mut out);
        heard.extend_from_slice(&out[..n]);
    }
    let mut out = vec![0u32; 500];
    let n = jitter.read(&mut out);
    heard.extend_from_slice(&out[..n]);
    assert_eq!(heard, input);
    assert_eq!(jitter.buffered_frames(), 0);
}

#[test]
fn expected_packets_play_at_once() {
    let mut receiver = Receiver::new(ReceiverConfig::default());
    for seq in 10..15u32 {
        let packet = pcm_packet(seq, 0.5);
        let playout = process(&mut receiver, &packet, Decoded::NotNeeded).unwrap();
        assert_eq!(playout.samples, packet.samples().unwrap());
    }
    let stats = receiver.stats();
    assert_eq!(stats.packets_received, 5);
    assert_eq!(stats.late_packets, 0);
    assert_eq!(stats.underruns, 5);
    // Every read was short, so the target grew by 5 ms each time.
    assert_eq!(stats.latency_ms, 85);
}

#[test]
fn receiver_decides_on_drift() {
    let mut receiver = Receiver::new(ReceiverConfig::default());
    // 20000 samples are far more than one chunk of 8192.
    let samples: Vec<Sample> = vec![1; 20_000];
    let packet = PcmPacket::from_pcm(0, 48_000, 2, &samples);
    let playout = process(&mut receiver, &packet, Decoded::NotNeeded).unwrap();
    assert_eq!(playout.samples.len(), 8192);
    assert_eq!(playout.drift, Drift::SpeedUp);
    let late = process(&mut receiver, &packet, Decoded::NotNeeded).unwrap();
    assert_eq!(late.samples.len(), 8192);
    let rest = process(&mut receiver, &packet, Decoded::NotNeeded).unwrap();
    assert_eq!(rest.samples.len(), 20_000 - 2 * 8192);
    assert_eq!(rest.drift, Drift::SlowDown);
    let nothing = process(&mut receiver, &packet, Decoded::NotNeeded).unwrap();
    assert!(nothing.samples.is_empty());
    assert_eq!(nothing.drift, Drift::Hold);
    assert_eq!(receiver.stats().late_packets, 3);
}

#[test]
fn opus_payloads_come_from_the_decoder() {
    let mut receiver = Receiver::new(ReceiverConfig::default());
    let packet = PcmPacket::from_opus(1, 48_000, 2, vec![1, 2, 3]);
    assert!(receiver.needs_init(&packet));
    let failed = process(
        &mut receiver,
        &packet,
        Decoded::NoDecoder(decoder_unavailable("no codec")),
    );
    assert_eq!(
        failed.unwrap_err().message(),
        "Audio processing error: failed to create Opus decoder: no codec"
    );
    assert!(receiver.needs_init(&packet));
    assert!(!receiver.has_decoder());

    let refused = process(
        &mut receiver,
        &packet,
        Decoded::Failed(decode_failed("corrupted")),
    );
    assert_eq!(
        refused.unwrap_err().message(),
        "Audio processing error: Opus decode failed: corrupted"
    );
    assert!(!receiver.needs_init(&packet));
    assert!(receiver.has_decoder());
    assert_eq!(receiver.stats(), ReceiverStats::default());

    let playout = process(&mut receiver, &packet, Decoded::Samples(vec![5; 1920])).unwrap();
    assert_eq!(playout.samples, vec![5; 1920]);
    assert_eq!(receiver.stats().packets_received, 1);
}

#[test]
fn statistics_go_on_at_a_new_sample_rate() {
    let mut receiver = Receiver::new(ReceiverConfig::default());
    process(&mut receiver, &pcm_packet(7, 0.1), Decoded::NotNeeded).unwrap();
    process(&mut receiver, &pcm_packet(3, 0.1), Decoded::NotNeeded).unwrap();
    process(&mut receiver, &pcm_packet(108, 0.1), Decoded::NotNeeded).unwrap();
    let before = receiver.stats();
    assert_eq!(before.packets_received, 3);
    assert_eq!(before.late_packets, 1);
    assert_eq!(before.packets_lost, 100);
    assert_eq!(before.underruns, 3);
    let other = PcmPacket::from_pcm(900, 44_100, 2, &[1, 2, 3, 4]);
    assert!(receiver.needs_init(&other));
    let playout = process(&mut receiver, &other, Decoded::NotNeeded).unwrap();
    assert_eq!(playout.samples, vec![1, 2, 3, 4]);
    let stats = receiver.stats();
    assert_eq!(stats.packets_received, 4);
    assert_eq!(stats.late_packets, 1);
    assert_eq!(stats.packets_lost, 100);
    assert_eq!(stats.underruns, 4);
    assert_eq!(stats.latency_ms, 64);
    assert!(receiver.has_room(100));
}

#[test]
fn an_error_counts_nothing() {
    let mut receiver = Receiver::new(ReceiverConfig::default());
    process(&mut receiver, &pcm_packet(7, 0.1), Decoded::NotNeeded).unwrap();
    let before = receiver.stats();
    // The error comes with a new sample rate, so the stream is set up anew.
    let other = PcmPacket::from_opus(1, 16_000, 1, vec![1]);
    process(&mut receiver, &other, Decoded::Failed(decode_failed("x"))).unwrap_err();
    assert_eq!(receiver.stats(), before);
    process(&mut receiver, &other, Decoded::Samples(vec![9])).unwrap();
    assert_eq!(receiver.stats().packets_received, 2);
}

#[test]
fn opus_may_follow_pcm() {
    let mut receiver = Receiver::new(ReceiverConfig::default());
    process(&mut receiver, &pcm_packet(1, 0.1), Decoded::NotNeeded).unwrap();
    assert!(!receiver.has_decoder());
    let opus = PcmPacket::from_opus(2, 48_000, 2, vec![1, 2, 3]);
    assert!(!receiver.needs_init(&opus));
    let unavailable = process(
        &mut receiver,
        &opus,
        Decoded::NoDecoder(decoder_unavailable("no codec")),
    );
    assert!(unavailable.is_err());
    assert!(!receiver.has_decoder());
    let playout = process(&mut receiver, &opus, Decoded::Samples(vec![5; 1920])).unwrap();
    assert_eq!(playout.samples, vec![5; 1920]);
    assert!(receiver.has_decoder());
    let stats = receiver.stats();
    assert_eq!(stats.packets_received, 2);
    assert_eq!(stats.packets_lost, 0);
}

#[test]
fn a_stream_plays_whole_packets_in_order() {
    let mut receiver = Receiver::new(ReceiverConfig::default());
    let mut heard = Vec::new();
    for sequence in [10u32, 12, 11, 15, 13, 16, 100, 20, 101] {
        let packet = PcmPacket::from_pcm(sequence, 48_000, 1, &[sequence, sequence]);
        heard.extend(process(&mut receiver, &packet, Decoded::NotNeeded).unwrap().samples);
    }
    let expected: Vec<Sample> = [10u32, 11, 12, 13, 15, 16, 100, 101]
        .iter()
        .flat_map(|s| [*s, *s])
        .collect();
    assert_eq!(heard, expected);
    let stats = receiver.stats();
    assert_eq!(stats.packets_received, 9);
    assert_eq!(stats.late_packets, 1); // packet 20
    assert_eq!(stats.packets_lost, 1 + 83); // packets 14 and 17 to 99
}

#[test]
fn receiver_setup_uses_its_own_latency() {
    let receiver = Receiver::new(ReceiverConfig {
        buffer_latency: Duration::from_millis(90),
    });
    let setup = receiver.jitter_config(&pcm_packet(1, 0.0));
    assert_eq!(setup.initial_latency, Duration::from_millis(90));
    assert_eq!(setup.min_latency, Duration::from_millis(20));
    assert_eq!(setup.max_latency, Duration::from_millis(200));
    assert_eq!(
        ReceiverConfig::default().buffer_latency,
        Duration::from_millis(60)
    );
}

#[test]
fn syncing_without_a_stream_shows_zeros() {
    let mut receiver = Receiver::new(ReceiverConfig::default());
    assert_eq!(receiver.target_frames(), None);
    receiver.sync_stats(Duration::from_millis(5));
    assert_eq!(receiver.stats(), ReceiverStats::default());
}

#[test]
fn drift_follows_occupancy() {
    assert_eq!(adjust_for_occupancy(10_000, 2_000), Drift::SpeedUp);
    assert_eq!(adjust_for_occupancy(0, 2_000), Drift::SlowDown);
    assert_eq!(adjust_for_occupancy(2_000, 2_000), Drift::Hold);
    assert_eq!(adjust_for_occupancy(3_000, 2_000), Drift::Hold);
    assert_eq!(adjust_for_occupancy(3_001, 2_000), Drift::SpeedUp);
    assert_eq!(adjust_for_occupancy(1_999, 2_000), Drift::SlowDown);
    assert_eq!(adjust_for_occupancy(1_500, 2_000), Drift::SlowDown);
    assert_eq!(adjust_for_occupancy(0, 1), Drift::SlowDown);
    assert_eq!(adjust_for_occupancy(1, 0), Drift::Hold);
    assert_eq!(adjust_for_occupancy(2, 0), Drift::SpeedUp);
    assert_eq!(adjust_for_occupancy(usize::MAX, usize::MAX), Drift::Hold);
}

#[test]
fn opus_frame_sizes() {
    assert_eq!(opus_frame_size(48_000), 960);
    assert_eq!(opus_frame_size(8_000), 160);
    assert_eq!(opus_frame_size(44_100), 882);
    assert_eq!(opus_frame_size(49), 0);
}

#[test]
fn opus_settings() {
    assert_eq!(channel_setting(1).unwrap(), ChannelLayout::Mono);
    assert_eq!(channel_setting(2).unwrap(), ChannelLayout::Stereo);
    assert_eq!(
        channel_setting(0).unwrap_err().message(),
        "Audio processing error: Opus supports 1 or 2 channels, got 0"
    );
    let settings = OpusSettings::new(48_000, 2).unwrap();
    assert_eq!(settings.frame_size(), 960);
    assert_eq!(settings.decode_capacity(), 48_000 * 120 / 1000 * 2);
    assert_eq!(settings.trim_decoded(vec![1, 2, 3, 4, 5], 2), vec![1, 2, 3, 4]);
    assert_eq!(settings.trim_decoded(vec![1, 2], 9), vec![1, 2]);
    assert!(OpusSettings::new(48_000, 6).is_err());
}

#[test]
fn error_messages() {
    assert_eq!(
        AudioError::SourceError("a".to_string()).message(),
        "Audio source error: a"
    );
    assert_eq!(
        AudioError::OutputError("b".to_string()).message(),
        "Audio output error: b"
    );
    assert_eq!(
        encoder_unavailable("x").message(),
        "Audio processing error: failed to create Opus encoder: x"
    );
    assert_eq!(
        encode_failed("y").message(),
        "Audio processing error: Opus encode failed: y"
    );
    assert_eq!(
        NetworkError::SendError("c".to_string()).message(),
        "Network send error: c"
    );
    assert_eq!(
        NetworkError::ReceiveError("d".to_string()).message(),
        "Network receive error: d"
    );
    assert_eq!(
        NetworkError::StatsError("e".to_string()).message(),
        "Network stats error: e"
    );
}
