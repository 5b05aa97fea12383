use sonic_span::buffer::{AudioRingBuffer, Sample};
use std::time::Instant;

fn to_samples(values: &[f32]) -> Vec<Sample> {
    values.iter().map(|v| v.to_bits()).collect()
}

fn push(buf: &mut AudioRingBuffer, values: &[f32]) -> usize {
    buf.push(&to_samples(values))
}

fn pop(buf: &mut AudioRingBuffer, out: &mut [f32]) -> usize {
    let mut samples = to_samples(out);
    let n = buf.pop(&mut samples);
    for (slot, sample) in out.iter_mut().zip(&samples) {
        *slot = f32::from_bits(*sample);
    }
    n
}

/// A deterministic but varied audio-like signal for testing.
fn generate_test_signal(length: usize, seed: f32) -> Vec<f32> {
    (0..length)
        .map(|i| {
            let t = i as f32;
            // Mix of sine + triangle + linear ramp to cover all amplitude ranges
            let sine = (t * 0.01 + seed).sin();
            let tri = ((t * 0.007 + seed) % 2.0 - 1.0).abs() * 2.0 - 1.0;
            let ramp = (t % 1000.0) / 500.0 - 1.0;
            (sine * 0.5 + tri * 0.3 + ramp * 0.2).clamp(-1.0, 1.0)
        })
        .collect()
}

#[test]
fn new_buffer_is_empty() {
    let mut buf = AudioRingBuffer::new(1024);
    let mut out = vec![0.0f32; 128];
    let read = pop(&mut buf, &mut out);
    assert_eq!(read, 0, "new buffer should have nothing to read");
}

#[test]
fn push_then_pop_exact() {
    let mut buf = AudioRingBuffer::new(256);
    let input = generate_test_signal(100, 0.0);
    let written = push(&mut buf, &input);
    assert_eq!(written, 100);

    let mut output = vec![0.0f32; 100];
    let read = pop(&mut buf, &mut output);
    assert_eq!(read, 100);
    assert_eq!(output, input, "data must survive round-trip unchanged");
}

#[test]
fn partial_read() {
    let mut buf = AudioRingBuffer::new(256);
    let input = generate_test_signal(100, 1.0);
    push(&mut buf, &input);

    let mut output = vec![0.0f32; 40];
    let read = pop(&mut buf, &mut output);
    assert_eq!(read, 40);
    assert_eq!(output[..], input[..40]);

    // Remaining 60 should still be readable
    let mut output2 = vec![0.0f32; 60];
    let read2 = pop(&mut buf, &mut output2);
    assert_eq!(read2, 60);
    assert_eq!(output2[..], input[40..]);
}

#[test]
fn partial_write() {
    let mut buf = AudioRingBuffer::new(256);
    let input = generate_test_signal(200, 2.0);
    // Write first 100
    let w1 = push(&mut buf, &input[..100]);
    assert_eq!(w1, 100);
    // Write next 100
    let w2 = push(&mut buf, &input[100..]);
    assert_eq!(w2, 100);

    let mut output = vec![0.0f32; 200];
    let read = pop(&mut buf, &mut output);
    assert_eq!(read, 200);
    assert_eq!(output, input);
}

#[test]
fn interleaved_push_pop() {
    let mut buf = AudioRingBuffer::new(256);
    let signal = generate_test_signal(300, 3.0);

    for chunk in signal.chunks(17) {
        push(&mut buf, chunk);
        let mut out = vec![0.0f32; 17];
        let r = pop(&mut buf, &mut out);
        assert_eq!(r, chunk.len());
        assert_eq!(&out[..r], chunk);
    }
}

#[test]
fn wrap_around_sequential() {
    let mut buf = AudioRingBuffer::new(64);
    let signal = generate_test_signal(50, 4.0);

    // Fill to near capacity
    push(&mut buf, &signal);
    let mut drain = vec![0.0f32; 40];
    pop(&mut buf, &mut drain);

    // Write more, causing wrap-around
    let more = generate_test_signal(50, 5.0);
    push(&mut buf, &more);

    // 10 from the first push and all 50 of the second
    let mut out = vec![0.0f32; 60];
    let read = pop(&mut buf, &mut out);
    assert_eq!(read, 60);
    assert_eq!(&out[..10], &signal[40..]);
    assert_eq!(&out[10..], &more[..]);
}

#[test]
fn wrap_around_with_overwrite_protection() {
    let mut buf = AudioRingBuffer::new(64);

    // Write 64 samples (max capacity)
    let signal = generate_test_signal(64, 6.0);
    let written = push(&mut buf, &signal);
    assert_eq!(written, 64);

    // Try to write more: should be rejected
    let extra = generate_test_signal(10, 7.0);
    let overflow = push(&mut buf, &extra);
    assert_eq!(overflow, 0, "must reject writes when full");

    // Read all, then write should succeed
    let mut drain = vec![0.0f32; 64];
    let read = pop(&mut buf, &mut drain);
    assert_eq!(read, 64);
    assert_eq!(drain, signal);

    let written2 = push(&mut buf, &extra);
    assert_eq!(written2, 10);
}

#[test]
fn throughput_single_thread_bulk() {
    let mut buf = AudioRingBuffer::new(1 << 16); // 65536
    let chunk = 4096;
    let rounds = 1000;
    let signal = to_samples(&generate_test_signal(chunk, 0.0));

    let start = Instant::now();
    for _ in 0..rounds {
        buf.push(&signal);
        let mut out = vec![0u32; chunk];
        buf.pop(&mut out);
    }
    let elapsed = start.elapsed();
    let total_samples = chunk * rounds * 2; // push + pop
    let throughput = total_samples as f64 / elapsed.as_secs_f64();

    println!(
        "Single-thread throughput: {:.2} Msamples/s ({:.2} MB/s as f32)",
        throughput / 1e6,
        (throughput * 4.0) / 1e6
    );
    assert!(throughput > 0.0);
}

#[test]
fn single_sample_latency() {
    let mut buf = AudioRingBuffer::new(1024);
    let iterations = 100_000;

    let start = Instant::now();
    for i in 0..iterations {
        let sample = (i as f32).sin();
        push(&mut buf, &[sample]);
        let mut out = [0.0f32; 1];
        pop(&mut buf, &mut out);
    }
    let elapsed = start.elapsed();
    let avg_ns = elapsed.as_nanos() as f64 / iterations as f64;

    println!("Average push+pop latency (1 sample): {:.0} ns", avg_ns);
    assert!(
        avg_ns < 10_000.0,
        "single-sample round-trip should be well under 10 µs"
    );
}

#[test]
fn zero_length_push() {
    let mut buf = AudioRingBuffer::new(64);
    let written = push(&mut buf, &[]);
    assert_eq!(written, 0);
    let mut out = [0.0f32; 1];
    assert_eq!(pop(&mut buf, &mut out), 0);
}

#[test]
fn zero_length_pop() {
    let mut buf = AudioRingBuffer::new(64);
    push(&mut buf, &[1.0, 2.0, 3.0]);
    let read = pop(&mut buf, &mut []);
    assert_eq!(read, 0);
    // Data should still be there
    let mut out = [0.0f32; 3];
    assert_eq!(pop(&mut buf, &mut out), 3);
}

#[test]
fn capacity_is_power_of_two_rounded_up() {
    let mut buf = AudioRingBuffer::new(100); // rounds up to 128
    let signal = generate_test_signal(128, 9.0);
    let written = push(&mut buf, &signal);
    assert_eq!(written, 128);

    // One more should fail
    assert_eq!(push(&mut buf, &[0.5]), 0);

    let mut out = vec![0.0f32; 128];
    assert_eq!(pop(&mut buf, &mut out), 128);
}

#[test]
fn minimum_capacity() {
    let mut buf = AudioRingBuffer::new(2);
    assert_eq!(push(&mut buf, &[1.0]), 1);
    assert_eq!(push(&mut buf, &[1.0]), 1);
    assert_eq!(push(&mut buf, &[2.0]), 0, "buffer should be full after 2 sample");
    let mut out = [0.0f32; 2];
    assert_eq!(pop(&mut buf, &mut out), 2);
    assert_eq!(out[0], 1.0);
    assert_eq!(out[1], 1.0);
}

#[test]
fn alternating_full_empty_cycles() {
    let mut buf = AudioRingBuffer::new(256);
    let signal = generate_test_signal(256, 10.0);

    for cycle in 0..10 {
        // Fill
        let w = push(&mut buf, &signal);
        assert_eq!(w, 256, "cycle {cycle}: should write all 256 samples");
        assert_eq!(push(&mut buf, &[0.0]), 0, "cycle {cycle}: should be full");

        // Drain
        let mut out = vec![0.0f32; 256];
        let r = pop(&mut buf, &mut out);
        assert_eq!(r, 256, "cycle {cycle}: should read all 256 samples");
        assert_eq!(out, signal, "cycle {cycle}: data mismatch");
        assert_eq!(
            pop(&mut buf, &mut [0.0f32; 1]),
            0,
            "cycle {cycle}: should be empty"
        );
    }
}

#[test]
fn very_large_capacity() {
    let cap = 1 << 20; // 1,048,576
    let mut buf = AudioRingBuffer::new(cap);
    let signal = generate_test_signal(10_000, 11.0);

    let written = push(&mut buf, &signal);
    assert_eq!(written, 10_000);

    let mut out = vec![0.0f32; 10_000];
    let read = pop(&mut buf, &mut out);
    assert_eq!(read, 10_000);
    assert_eq!(out, signal);
}

#[test]
fn zero_capacity_becomes_one() {
    let mut buf = AudioRingBuffer::new(0);
    assert!(buf.is_empty());
    assert_eq!(buf.push(&[7, 8]), 1);
    assert_eq!(buf.len(), 1);
    assert!(!buf.is_empty());
    let mut out = [0u32; 2];
    assert_eq!(buf.pop(&mut out), 1);
    assert_eq!(out, [7, 0]);
}

#[test]
fn pop_leaves_the_rest_of_the_output_alone() {
    let mut buf = AudioRingBuffer::new(4);
    buf.push(&[1, 2]);
    let mut out = [9u32; 4];
    assert_eq!(buf.pop(&mut out), 2);
    assert_eq!(out, [1, 2, 9, 9]);
}

#[test]
fn samples_come_out_once_and_in_order() {
    let mut buf = AudioRingBuffer::new(8);
    let mut next_in = 0u32;
    let mut next_out = 0u32;
    for round in 0..200usize {
        let want = round % 7;
        let data: Vec<Sample> = (0..want as u32).map(|i| next_in + i).collect();
        next_in += buf.push(&data) as u32;
        let mut out = vec![0u32; (round * 3) % 5];
        let n = buf.pop(&mut out);
        for sample in &out[..n] {
            assert_eq!(*sample, next_out);
            next_out += 1;
        }
        assert!(buf.len() <= 8);
        assert_eq!(buf.len() as u32, next_in - next_out);
    }
}

#[test]
fn describe_names_capacity_and_counters() {
    let mut buf = AudioRingBuffer::new(100);
    buf.push(&[1, 2, 3]);
    buf.pop(&mut [0u32; 2]);
    assert_eq!(
        buf.describe(),
        "AudioRingBuffer { capacity: 128, w: 3, r: 2 }"
    );
}
