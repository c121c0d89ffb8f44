use ferrite_blocks::replay::{fill_tail, replay_samples, FillStep, ReplayFill};

/// Drive a fill against a looping or one-shot source of `data` bytes.
fn run(data: usize, need: usize, looping: bool) -> (usize, bool, usize) {
    let mut pos = 0usize;
    let mut rewinds = 0;
    let mut fill = ReplayFill::new(need, looping);
    let mut guard = 0;
    while !fill.is_done() {
        guard += 1;
        assert!(guard < 10_000, "fill must end");
        let m = (data - pos).min(fill.remaining()).min(3);
        pos += m;
        match fill.on_read(m) {
            FillStep::RewindThenRead => {
                pos = 0;
                rewinds += 1;
            }
            FillStep::Read | FillStep::Done => {}
        }
    }
    (fill.filled(), fill.eof(), rewinds)
}

#[test]
fn one_shot_fill_stops_at_end_of_data() {
    assert_eq!(run(5, 16, false), (5, true, 0));
    assert_eq!(run(16, 16, false), (16, false, 0));
    assert_eq!(run(40, 16, false), (16, false, 0));
}

#[test]
fn looping_fill_wraps_around() {
    let (filled, eof, rewinds) = run(5, 16, true);
    assert_eq!((filled, eof), (16, false));
    assert_eq!(rewinds, 3);
}

#[test]
fn empty_file_with_loop_does_not_spin() {
    assert_eq!(run(0, 8, true), (0, true, 1));
}

#[test]
fn nothing_needed_is_done_at_once() {
    let f = ReplayFill::new(0, true);
    assert!(f.is_done());
    assert_eq!(f.filled(), 0);
    assert!(!f.eof());
}

#[test]
fn replay_counts_whole_samples_only() {
    assert_eq!(replay_samples(64, 8, 8), 8);
    assert_eq!(replay_samples(13, 4, 8), 3);
    assert_eq!(replay_samples(3, 4, 8), 0);
    assert_eq!(replay_samples(0, 2, 0), 0);
}

#[test]
fn fill_tail_zeroes_past_the_data() {
    let mut out = [1.0f32, 2.0, 3.0, 4.0, 5.0];
    fill_tail(&mut out, 3, 0.0);
    assert_eq!(out, [1.0, 2.0, 3.0, 0.0, 0.0]);
    fill_tail(&mut out, 9, 7.0);
    assert_eq!(out, [1.0, 2.0, 3.0, 0.0, 0.0]);
    fill_tail(&mut out, 0, 7.0);
    assert_eq!(out, [7.0; 5]);
}
