use ferrite_blocks::audio_ring::AudioRing;
use ferrite_blocks::audio_sink::{AudioSink, AudioSinkParams, DEFAULT_BUFFER_SAMPLES};

#[test]
fn new_starts_empty() {
    let r = AudioRing::<f32>::new(16);
    assert_eq!(r.capacity(), 16);
    assert_eq!(r.available_read(), 0);
    assert_eq!(r.available_write(), 16);
}

#[test]
fn write_then_read_round_trips_samples() {
    let mut r = AudioRing::new(8);
    let n = r.write(&[1.0f32, 2.0, 3.0, 4.0]);
    assert_eq!(n, 4);
    assert_eq!(r.available_read(), 4);
    let mut out = [0.0; 4];
    let got = r.read(&mut out);
    assert_eq!(got, 4);
    assert_eq!(out, [1.0, 2.0, 3.0, 4.0]);
    assert_eq!(r.available_read(), 0);
}

#[test]
fn write_returns_zero_when_full() {
    let mut r = AudioRing::new(4);
    assert_eq!(r.write(&[1.0f32, 2.0, 3.0, 4.0]), 4);
    assert_eq!(r.available_write(), 0);
    assert_eq!(r.write(&[5.0]), 0);
}

#[test]
fn write_partial_when_nearly_full() {
    let mut r = AudioRing::new(4);
    r.write(&[1.0f32, 2.0]);
    let n = r.write(&[3.0, 4.0, 5.0, 6.0]);
    assert_eq!(n, 2, "only 2 free slots remain");
    let mut out = [0.0; 4];
    let got = r.read(&mut out);
    assert_eq!(got, 4);
    assert_eq!(out, [1.0, 2.0, 3.0, 4.0]);
}

#[test]
fn wraps_around_cleanly() {
    let mut r = AudioRing::new(4);
    r.write(&[1.0f32, 2.0, 3.0, 4.0]);
    let mut drain = [0.0; 4];
    r.read(&mut drain);
    let n = r.write(&[5.0, 6.0, 7.0, 8.0]);
    assert_eq!(n, 4);
    let mut out = [0.0; 4];
    r.read(&mut out);
    assert_eq!(out, [5.0, 6.0, 7.0, 8.0]);
}

#[test]
fn split_span_write_crosses_index_zero() {
    let mut r = AudioRing::new(4);
    r.write(&[1.0f32, 2.0, 3.0]);
    let mut tmp = [0.0; 2];
    r.read(&mut tmp);
    let n = r.write(&[4.0, 5.0, 6.0]);
    assert_eq!(n, 3);
    let mut out = [0.0; 4];
    let got = r.read(&mut out);
    assert_eq!(got, 4);
    assert_eq!(out, [3.0, 4.0, 5.0, 6.0]);
}

#[test]
fn read_empty_returns_zero() {
    let mut r = AudioRing::<f32>::new(4);
    let mut out = [0.0; 4];
    assert_eq!(r.read(&mut out), 0);
}

#[test]
fn reset_empties_the_ring() {
    let mut r = AudioRing::new(8);
    r.write(&[1.0f32, 2.0, 3.0]);
    assert_eq!(r.available_read(), 3);
    r.reset();
    assert_eq!(r.available_read(), 0);
    assert_eq!(r.available_write(), 8);
}

#[test]
fn fifo_round_trip_over_many_wraps() {
    let mut r = AudioRing::<u32>::new(8);
    let mut next_in = 0u32;
    let mut next_out = 0u32;
    for round in 0..50u32 {
        let chunk: Vec<u32> = (0..(round % 7) + 1).map(|k| next_in + k).collect();
        let n = r.write(&chunk);
        assert_eq!(n, chunk.len().min(8 - (next_in - next_out) as usize));
        next_in += n as u32;
        let mut out = vec![0u32; (round % 5) as usize + 1];
        let got = r.read(&mut out);
        for v in &out[..got] {
            assert_eq!(*v, next_out);
            next_out += 1;
        }
        assert_eq!(r.available_read() as u32, next_in - next_out);
        assert_eq!(r.available_write() + r.available_read(), 8);
    }
}

fn run_process(sink: &mut AudioSink<f32>, samples: &[f32]) {
    let consumed = sink.process(samples);
    assert_eq!(consumed, samples.len(), "must report full consume");
}

#[test]
fn defaults_match_ts() {
    let p = AudioSinkParams::default();
    assert_eq!(p.buffer_samples, DEFAULT_BUFFER_SAMPLES);
}

#[test]
fn process_writes_samples_into_the_ring() {
    let mut sink = AudioSink::<f32>::new(AudioSinkParams { buffer_samples: 8 });
    run_process(&mut sink, &[0.1, 0.2, 0.3]);
    assert_eq!(sink.ring_mut().available_read(), 3);
    let mut drained = [0.0; 3];
    let got = sink.ring_mut().read(&mut drained);
    assert_eq!(got, 3);
    assert_eq!(drained, [0.1, 0.2, 0.3]);
}

#[test]
fn process_tallies_overflow_dropped_samples() {
    let mut sink = AudioSink::<f32>::new(AudioSinkParams { buffer_samples: 4 });
    run_process(&mut sink, &[1.0, 2.0, 3.0, 4.0, 5.0, 6.0]);
    assert_eq!(sink.dropped_samples(), 2);
    assert_eq!(sink.ring_mut().available_read(), 4);
}

#[test]
fn init_resets_ring_and_dropped_count() {
    let mut sink = AudioSink::<f32>::new(AudioSinkParams { buffer_samples: 4 });
    run_process(&mut sink, &[1.0, 2.0, 3.0, 4.0, 5.0]);
    assert_eq!(sink.dropped_samples(), 1);
    sink.init();
    assert_eq!(sink.dropped_samples(), 0);
    assert_eq!(sink.ring_mut().available_read(), 0);
}

#[test]
fn stop_resets_ring() {
    let mut sink = AudioSink::<f32>::new(AudioSinkParams { buffer_samples: 4 });
    run_process(&mut sink, &[1.0, 2.0]);
    sink.stop();
    assert_eq!(sink.ring_mut().available_read(), 0);
}

#[test]
fn sink_keeps_its_params() {
    let sink = AudioSink::<f32>::new(AudioSinkParams { buffer_samples: 16 });
    assert_eq!(sink.params().buffer_samples, 16);
    assert_eq!(DEFAULT_BUFFER_SAMPLES, 8192);
}

#[test]
fn sink_accepts_any_capacity_and_holds_at_most_it() {
    let mut sink = AudioSink::<f32>::new(AudioSinkParams { buffer_samples: 100 });
    assert_eq!(sink.dropped_samples(), 0);
    assert_eq!(sink.params().buffer_samples, 100);
    assert_eq!(sink.ring_mut().capacity(), 128);
    let input = vec![0.5f32; 130];
    assert_eq!(sink.process(&input), 130);
    assert_eq!(sink.ring_mut().available_read(), 100);
    assert_eq!(sink.dropped_samples(), 30);
    let mut zero = AudioSink::<f32>::new(AudioSinkParams { buffer_samples: 0 });
    assert_eq!(zero.process(&[1.0, 2.0]), 2);
    assert_eq!(zero.dropped_samples(), 2);
    assert_eq!(zero.ring_mut().available_read(), 0);
}

#[test]
fn interleaved_reads_return_a_prefix_of_accepted_writes() {
    let mut r = AudioRing::new(4);
    let mut accepted: Vec<u32> = Vec::new();
    let mut got: Vec<u32> = Vec::new();
    let mut next = 0u32;
    for (write_len, read_len) in [(3usize, 1usize), (5, 2), (2, 0), (4, 3), (1, 4), (6, 2)] {
        let chunk: Vec<u32> = (next..next + write_len as u32).collect();
        next += write_len as u32;
        let n = r.write(&chunk);
        assert_eq!(n, write_len.min(4 - (accepted.len() - got.len())));
        accepted.extend_from_slice(&chunk[..n]);
        let mut out = vec![u32::MAX; read_len];
        let k = r.read(&mut out);
        assert_eq!(k, read_len.min(accepted.len() - got.len()));
        assert!(out[k..].iter().all(|&x| x == u32::MAX));
        got.extend_from_slice(&out[..k]);
        assert_eq!(got[..], accepted[..got.len()]);
    }
    assert_eq!(r.available_read(), accepted.len() - got.len());
}
