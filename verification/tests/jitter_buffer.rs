use sonic_span::buffer::Sample;
use sonic_span::duration::Duration;
use sonic_span::jitter::{JitterBuffer, JitterBufferConfig, JitterStats, LatencyFrames};

fn duration_frames(sample_rate: u32, duration: Duration) -> usize {
    let secs = duration.secs as f64 + duration.nanos as f64 / 1e9;
    (sample_rate as f64 * secs) as usize
}

fn frames_duration(sample_rate: u32, frames: usize) -> Duration {
    let d = std::time::Duration::from_secs_f64(frames as f64 / sample_rate as f64);
    Duration {
        secs: d.as_secs(),
        nanos: d.subsec_nanos(),
    }
}

fn config() -> JitterBufferConfig {
    JitterBufferConfig::new(48_000, 2)
}

fn new_buffer(config: JitterBufferConfig) -> JitterBuffer {
    JitterBuffer::new(
        config,
        LatencyFrames {
            initial: duration_frames(config.sample_rate, config.initial_latency),
            min: duration_frames(config.sample_rate, config.min_latency),
            max: duration_frames(config.sample_rate, config.max_latency),
            step: duration_frames(config.sample_rate, Duration::from_millis(5)),
        },
    )
}

fn stats(jitter: &JitterBuffer) -> JitterStats {
    jitter.stats(frames_duration(
        jitter.config().sample_rate,
        jitter.target_frames(),
    ))
}

fn packet(tag: f32, frames: usize) -> Vec<Sample> {
    (0..frames * 2)
        .map(|i| (tag + i as f32 * 0.001).to_bits())
        .collect()
}

fn read(jitter: &mut JitterBuffer, out: &mut [f32]) -> usize {
    let mut samples: Vec<Sample> = out.iter().map(|v| v.to_bits()).collect();
    let n = jitter.read(&mut samples);
    for (slot, sample) in out.iter_mut().zip(&samples) {
        *slot = f32::from_bits(*sample);
    }
    n
}

#[test]
fn reorders_out_of_order_packets() {
    let mut jitter = new_buffer(config());
    let frames = 100;
    jitter.push(1, packet(1.0, frames));
    jitter.push(2, packet(2.0, frames));
    jitter.push(4, packet(4.0, frames));
    jitter.push(3, packet(3.0, frames)); // arrives late but in-window

    let mut out = vec![0.0f32; frames * 2 * 4];
    assert_eq!(read(&mut jitter, &mut out), frames * 2 * 4);
    assert_eq!(out[0], 1.0);
    assert_eq!(out[frames * 2], 2.0);
    assert_eq!(out[frames * 4], 3.0);
    assert_eq!(out[frames * 6], 4.0);
    assert_eq!(stats(&jitter).late_packets, 0);
    assert_eq!(stats(&jitter).packets_lost, 0);
}

#[test]
fn reports_lost_packets_and_plays_waiting_audio() {
    let mut jitter = new_buffer(config());
    let frames = 100;
    jitter.push(1, packet(1.0, frames));
    jitter.push(2, packet(2.0, frames));
    jitter.push(5, packet(5.0, frames)); // packets 3 and 4 are lost

    let mut out = vec![0.0f32; frames * 2 * 5];
    let n1 = read(&mut jitter, &mut out); // packets 1 and 2
    let n2 = read(&mut jitter, &mut out[n1..]); // packet 5, gap declared lost
    assert_eq!(n1, frames * 2 * 2);
    assert_eq!(n2, frames * 2);
    assert_eq!(out[frames * 2], 2.0);
    assert_eq!(out[n1], 5.0);
    assert_eq!(stats(&jitter).packets_lost, 2);
}

#[test]
fn drops_late_packets() {
    let mut jitter = new_buffer(config());
    let frames = 10;
    jitter.push(1, packet(1.0, frames));
    jitter.push(2, packet(2.0, frames));
    jitter.push(1, packet(9.0, frames)); // replay of an old packet

    assert_eq!(stats(&jitter).late_packets, 1);
    let mut out = vec![0.0f32; frames * 2 * 2];
    read(&mut jitter, &mut out);
    assert_eq!(out[0], 1.0);
    assert_eq!(out[frames * 2], 2.0);
}

#[test]
fn grows_latency_after_underrun() {
    let mut jitter = new_buffer(config());
    let before = jitter.target_frames();
    jitter.push(1, packet(1.0, 10));
    let mut out = vec![0.0f32; 48_000 * 2]; // far more than buffered
    read(&mut jitter, &mut out);
    assert!(jitter.target_frames() > before);
    assert_eq!(stats(&jitter).underruns, 1);
}

#[test]
fn exposes_buffered_frames() {
    let mut jitter = new_buffer(config());
    assert_eq!(jitter.buffered_frames(), 0);
    jitter.push(1, packet(1.0, 100));
    assert_eq!(jitter.buffered_frames(), 200);
}

#[test]
fn default_latencies() {
    let c = config();
    assert_eq!(c.initial_latency.as_millis(), 60);
    assert_eq!(c.min_latency.as_millis(), 20);
    assert_eq!(c.max_latency.as_millis(), 200);
    let jitter = new_buffer(c);
    assert_eq!(jitter.target_frames(), 2880);
    assert_eq!(stats(&jitter).latency, Duration::from_millis(60));
    assert_eq!(jitter.config(), c);
}

#[test]
fn reads_before_the_first_packet_are_silent_and_free() {
    let mut jitter = new_buffer(config());
    let before = stats(&jitter);
    let mut out = vec![1u32; 16];
    assert_eq!(jitter.read(&mut out), 0);
    assert_eq!(out, vec![0u32; 16]);
    assert_eq!(stats(&jitter), before);
}

#[test]
fn jumps_past_the_window_are_losses() {
    let mut jitter = new_buffer(config());
    jitter.push(10, vec![1]);
    jitter.push(75, vec![2]); // 64 ahead of 11: waits
    assert_eq!(stats(&jitter).packets_lost, 0);
    assert_eq!(jitter.buffered_frames(), 2);
    let mut jitter = new_buffer(config());
    jitter.push(10, vec![1]);
    jitter.push(76, vec![2]); // 65 ahead of 11: lost
    assert_eq!(stats(&jitter).packets_lost, 65);
    let mut out = vec![0u32; 2];
    assert_eq!(jitter.read(&mut out), 2);
    assert_eq!(out, vec![1, 2]);
}

#[test]
fn a_jump_plays_what_waits_first() {
    let mut jitter = new_buffer(config());
    jitter.push(1, vec![1, 1]);
    jitter.push(5, vec![5, 5]);
    jitter.push(9, vec![9]);
    jitter.push(100, vec![100]);
    let mut out = vec![0u32; 6];
    assert_eq!(jitter.read(&mut out), 6);
    assert_eq!(out, vec![1, 1, 5, 5, 9, 100]);
    // 2 to 4, 6 to 8 and 10 to 99 never arrived.
    assert_eq!(stats(&jitter).packets_lost, 3 + 3 + 90);
    jitter.push(3, vec![3]);
    assert_eq!(stats(&jitter).late_packets, 1);
    jitter.push(101, vec![101]);
    assert_eq!(jitter.read(&mut out[..1]), 1);
    assert_eq!(out[0], 101);
}

#[test]
fn every_sample_is_accounted_for() {
    let mut jitter = new_buffer(config());
    let mut accepted = 0;
    let mut returned = 0;
    let mut heard: Vec<Sample> = Vec::new();
    // Packet 17 never comes, packet 30 comes far too late.
    let arrivals = [10u32, 12, 11, 13, 15, 14, 16, 19, 18, 20, 90, 30, 91];
    for (i, sequence) in arrivals.into_iter().enumerate() {
        jitter.push(sequence, vec![sequence; 5]);
        if sequence != 30 {
            accepted += 5;
        }
        let mut out = vec![0u32; 7];
        let n = jitter.read(&mut out);
        heard.extend_from_slice(&out[..n]);
        returned += n;
        let stats = stats(&jitter);
        assert_eq!(stats.packets_received, i as u64 + 1);
        assert_eq!(
            accepted,
            returned + jitter.buffered_frames() + stats.overruns as usize
        );
    }
    let mut out = vec![0u32; 100];
    let n = jitter.read(&mut out);
    heard.extend_from_slice(&out[..n]);
    let expected: Vec<Sample> = [10u32, 11, 12, 13, 14, 15, 16, 18, 19, 20, 90, 91]
        .iter()
        .flat_map(|s| [*s; 5])
        .collect();
    assert_eq!(heard, expected);
    assert_eq!(stats(&jitter).packets_lost, 1 + 69);
    assert_eq!(stats(&jitter).late_packets, 1);
}

#[test]
fn any_order_within_the_window_plays_in_sequence() {
    for stride in [3usize, 7, 32, 64] {
        let mut jitter = new_buffer(config());
        jitter.push(99, vec![]);
        // 65 packets, visited with a stride that is prime to their number.
        let mut index = stride;
        for _ in 0..65 {
            jitter.push(100 + index as u32, vec![1000 + index as u32]);
            index = (index + stride) % 65;
        }
        let mut out = vec![0u32; 65];
        assert_eq!(jitter.read(&mut out), 65);
        let expected: Vec<Sample> = (0..65).map(|i| 1000 + i).collect();
        assert_eq!(out, expected);
        assert_eq!(stats(&jitter).packets_lost, 0);
        assert_eq!(stats(&jitter).late_packets, 0);
    }
}

#[test]
fn sequence_numbers_continue_after_the_last_one() {
    let mut jitter = new_buffer(config());
    jitter.push(u32::MAX, vec![1]);
    jitter.push(0, vec![2]);
    let mut out = vec![0u32; 2];
    assert_eq!(jitter.read(&mut out), 2);
    assert_eq!(out, vec![1, 2]);
}

#[test]
fn a_duplicate_of_a_waiting_packet_replaces_it() {
    let mut jitter = new_buffer(config());
    jitter.push(1, vec![1]);
    jitter.push(3, vec![3]);
    jitter.push(3, vec![33, 34]);
    assert_eq!(jitter.buffered_frames(), 3);
    jitter.push(2, vec![2]);
    let mut out = vec![0u32; 4];
    assert_eq!(jitter.read(&mut out), 4);
    assert_eq!(out, vec![1, 2, 33, 34]);
}

#[test]
fn samples_that_do_not_fit_are_counted() {
    let frames = LatencyFrames {
        initial: 0,
        min: 0,
        max: 10,
        step: 0,
    };
    // Without channels the queue holds its minimum of 1024 samples.
    let mut jitter = JitterBuffer::new(JitterBufferConfig::new(8_000, 0), frames);
    assert_eq!(jitter.target_frames(), 1);
    jitter.push(0, vec![5; 1000]);
    jitter.push(1, vec![6; 100]);
    assert_eq!(stats(&jitter).overruns, 76);
    assert_eq!(jitter.buffered_frames(), 1024);
}

#[test]
fn target_grows_to_the_maximum_and_shrinks_to_the_minimum() {
    let frames = LatencyFrames {
        initial: 4,
        min: 2,
        max: 10,
        step: 3,
    };
    let mut jitter = JitterBuffer::new(JitterBufferConfig::new(8_000, 1), frames);
    jitter.push(0, vec![]);
    let mut seen = Vec::new();
    for _ in 0..3 {
        jitter.read(&mut [0u32; 1]);
        seen.push(jitter.target_frames());
    }
    assert_eq!(seen, vec![7, 10, 10]);
    jitter.push(1, vec![1; 100]);
    let mut seen = Vec::new();
    for _ in 0..4 {
        jitter.read(&mut [0u32; 1]);
        seen.push(jitter.target_frames());
    }
    assert_eq!(seen, vec![7, 4, 2, 2]);
}

#[test]
fn room_runs_out_with_the_samples() {
    let mut jitter = new_buffer(config());
    assert!(jitter.has_room(1, 100));
    jitter.push(0, vec![1, 2]);
    assert!(jitter.has_room(1, usize::MAX - 2));
    assert!(!jitter.has_room(1, usize::MAX - 1));
}

#[test]
fn two_reads_deliver_what_one_would() {
    let mut a = new_buffer(config());
    let mut b = new_buffer(config());
    a.push(0, (0..50).collect());
    b.push(0, (0..50).collect());
    let mut whole = vec![0u32; 40];
    a.read(&mut whole);
    let mut first = vec![0u32; 15];
    let mut second = vec![0u32; 25];
    b.read(&mut first);
    b.read(&mut second);
    first.extend_from_slice(&second);
    assert_eq!(whole, first);
}

#[test]
fn one_dry_read_waits_for_the_missing_packet() {
    let mut jitter = new_buffer(config());
    jitter.push(1, vec![1]);
    let mut out = vec![0u32; 4];
    assert_eq!(jitter.read(&mut out), 1);
    jitter.push(3, vec![3]);
    assert_eq!(jitter.read(&mut out), 0); // packet 2 may still come
    assert_eq!(out, vec![0; 4]);
    assert_eq!(stats(&jitter).packets_lost, 0);
    jitter.push(2, vec![2]);
    assert_eq!(jitter.read(&mut out), 2);
    assert_eq!(out[..2], [2, 3]);
    assert_eq!(stats(&jitter).packets_lost, 0);
    assert_eq!(stats(&jitter).late_packets, 0);
}

#[test]
fn the_second_dry_read_skips_the_gap() {
    let mut jitter = new_buffer(config());
    jitter.push(1, vec![1]);
    let mut out = vec![0u32; 4];
    assert_eq!(jitter.read(&mut out), 1);
    jitter.push(4, vec![4]);
    assert_eq!(jitter.read(&mut out), 0);
    assert_eq!(jitter.read(&mut out), 1);
    assert_eq!(out[0], 4);
    assert_eq!(stats(&jitter).packets_lost, 2);
    jitter.push(2, vec![2]);
    assert_eq!(stats(&jitter).late_packets, 1);
}
