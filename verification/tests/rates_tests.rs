use ferrite_blocks::rates::{balanced_frames, decimation_plan, DecimationPhase};

/// Take samples one at a time, every `factor`-th completing an output, and
/// stop before one that would complete an output with no room for it.
fn reference(factor: usize, mut phase: usize, avail: usize, room: usize) -> (usize, usize, usize) {
    let (mut consumed, mut produced) = (0, 0);
    for _ in 0..avail {
        if phase + 1 == factor && produced == room {
            break;
        }
        consumed += 1;
        phase += 1;
        if phase == factor {
            phase = 0;
            produced += 1;
        }
    }
    (consumed, produced, phase)
}

#[test]
fn decimation_plan_matches_the_per_sample_rule() {
    for factor in 1..6 {
        for phase in 0..factor {
            for avail in 0..20 {
                for room in 0..6 {
                    let (c, p) = decimation_plan(factor, phase, avail, room);
                    let (rc, rp, _) = reference(factor, phase, avail, room);
                    assert_eq!((c, p), (rc, rp), "f={factor} ph={phase} a={avail} r={room}");
                }
            }
        }
    }
}

#[test]
fn decimation_output_count_is_chunk_independent() {
    let factor = 4;
    let (mut phase, mut total) = (0usize, 0usize);
    for chunk in [3usize, 0, 7, 1, 9, 2] {
        let (c, p) = decimation_plan(factor, phase, chunk, usize::MAX);
        assert_eq!(c, chunk);
        total += p;
        phase = (phase + c) % factor;
    }
    assert_eq!(total, 22 / 4);
    assert_eq!(phase, 22 % 4);
}

#[test]
fn stereo_frames_are_the_minimum_of_present_ports() {
    assert_eq!(balanced_frames(10, 8, Some(9), Some(12)), 8);
    assert_eq!(balanced_frames(10, 12, None, Some(5)), 5);
    assert_eq!(balanced_frames(3, 12, None, None), 3);
    assert_eq!(balanced_frames(10, 10, Some(0), None), 0);
}

/// One decimator call: plan it, then take the consumed samples one at a
/// time, counting those that complete an output.
fn run(ph: &mut DecimationPhase, avail: usize, room: usize) -> (usize, usize) {
    let (consumed, produced) = ph.plan(avail, room);
    let mut emitted = 0;
    for _ in 0..consumed {
        if ph.step() {
            emitted += 1;
        }
    }
    assert_eq!(emitted, produced);
    (consumed, produced)
}

#[test]
fn decimator_rate_invariant_holds_across_calls() {
    let mut ph = DecimationPhase::new(3);
    let chunks: [usize; 6] = [1, 2, 3, 4, 7, 11];
    let total_in: usize = chunks.iter().sum();
    let mut total_out = 0;
    for &n in &chunks {
        let (consumed, produced) = run(&mut ph, n, n + 1);
        assert_eq!(consumed, n);
        total_out += produced;
    }
    assert_eq!(total_out, total_in / 3);
}

#[test]
fn rate_invariant_for_random_sized_chunks() {
    let mut ph = DecimationPhase::new(5);
    let sizes = [0_usize, 1, 4, 5, 6, 9, 10, 17, 23, 31, 50];
    let mut total_in = 0;
    let mut total_out = 0;
    for &n in &sizes {
        let (c, p) = run(&mut ph, n, n + 1);
        assert_eq!(c, n);
        total_in += n;
        total_out += p;
    }
    assert_eq!(total_out, total_in / 5);
}

#[test]
fn decimation_phase_emits_every_factor_th_sample() {
    let mut ph = DecimationPhase::new(3);
    let emits: Vec<bool> = (0..7).map(|_| ph.step()).collect();
    assert_eq!(emits, [false, false, true, false, false, true, false]);
}

#[test]
fn decimation_phase_stops_when_output_is_full() {
    let mut ph = DecimationPhase::new(4);
    // Room for two outputs: the twelfth sample would complete a third.
    assert_eq!(run(&mut ph, 20, 2), (11, 2));
    // The phase carried on: the next sample completes an output.
    assert_eq!(run(&mut ph, 1, 1), (1, 1));
}
