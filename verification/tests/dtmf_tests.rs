use ferrite_blocks::dtmf::{emit_event, keypad_char, tone_pair, DigitTracker, Release};
use ferrite_blocks::dtmf_sequencer::{DtmfSequencer, Segment, SequenceError};

#[test]
fn keypad_layout_round_trips() {
    let layout = ["123A", "456B", "789C", "*0#D"];
    for (r, row) in layout.iter().enumerate() {
        for (k, c) in row.chars().enumerate() {
            assert_eq!(keypad_char(r, k), c);
            assert_eq!(tone_pair(c), Some((r, k)));
        }
    }
    assert_eq!(tone_pair('E'), None);
    assert_eq!(tone_pair(' '), None);
}

#[test]
fn event_record_is_exact_json() {
    let mut out = Vec::new();
    emit_event(&mut out, '#', 120, 34_567);
    assert_eq!(
        String::from_utf8(out).unwrap(),
        "{\"kind\":\"dtmf\",\"digit\":\"#\",\"duration_ms\":120,\"t_ms\":34567}\n"
    );
    let mut out = b"x".to_vec();
    emit_event(&mut out, '0', 0, 0);
    assert_eq!(
        String::from_utf8(out).unwrap(),
        "x{\"kind\":\"dtmf\",\"digit\":\"0\",\"duration_ms\":0,\"t_ms\":0}\n"
    );
}

#[test]
fn single_digit_emits_one_event() {
    // Blocks of 100 samples, hold 300, same-digit gap 500.
    let mut t = DigitTracker::new(100, 300, 500);
    for _ in 0..5 {
        assert_eq!(t.on_block(Some('5')), None);
    }
    let r = t.on_block(None);
    assert_eq!(
        r,
        Some(Release {
            digit: '5',
            held_samples: 500,
            started_at: 0
        })
    );
    for _ in 0..5 {
        assert_eq!(t.on_block(None), None);
    }
}

#[test]
fn short_tone_below_hold_is_dropped() {
    let mut t = DigitTracker::new(100, 300, 500);
    assert_eq!(t.on_block(Some('1')), None);
    assert_eq!(t.on_block(Some('1')), None);
    assert_eq!(t.on_block(None), None);
}

#[test]
fn same_digit_is_gated_by_the_off_gap() {
    let mut t = DigitTracker::new(100, 100, 500);
    t.on_block(Some('7'));
    t.on_block(Some('7'));
    assert!(t.on_block(None).is_some());
    // Re-detection right away is ignored; a different digit is not.
    t.on_block(Some('7'));
    assert_eq!(t.on_block(None), None);
    t.on_block(Some('8'));
    t.on_block(Some('8'));
    let r = t.on_block(None).unwrap();
    assert_eq!(r.digit, '8');
}

#[test]
fn four_digits_in_order() {
    let mut t = DigitTracker::new(80, 160, 400);
    let mut got = Vec::new();
    for d in ['1', '2', '3', '4'] {
        for _ in 0..4 {
            if let Some(r) = t.on_block(Some(d)) {
                got.push(r.digit);
            }
        }
        for _ in 0..3 {
            if let Some(r) = t.on_block(None) {
                got.push(r.digit);
            }
        }
    }
    assert_eq!(got, vec!['1', '2', '3', '4']);
}

fn incs() -> ([u32; 4], [u32; 4]) {
    ([10, 11, 12, 13], [20, 21, 22, 23])
}

#[test]
fn rejects_empty_digits() {
    let (r, c) = incs();
    assert_eq!(
        DtmfSequencer::new("", 40, 80, false, r, c).err(),
        Some(SequenceError::NoKeypadDigits)
    );
    assert_eq!(
        DtmfSequencer::new(" x? ", 40, 80, false, r, c).err(),
        Some(SequenceError::NoKeypadDigits)
    );
}

#[test]
fn starts_on_first_digit() {
    let (r, c) = incs();
    let mut s = DtmfSequencer::new(" 1 2 ", 40, 80, false, r, c).unwrap();
    assert_eq!(s.current_digit(), Some('1'));
    let segs = s.fill(40);
    assert_eq!(
        segs,
        vec![Segment::Tone {
            digit_idx: 0,
            offset: 0,
            len: 40,
            row_inc: 10,
            col_inc: 20
        }]
    );
}

#[test]
fn emits_silence_in_gap() {
    let (r, c) = incs();
    let mut s = DtmfSequencer::new("12", 40, 80, false, r, c).unwrap();
    let segs = s.fill(40 + 80 + 10);
    assert_eq!(
        segs,
        vec![
            Segment::Tone { digit_idx: 0, offset: 0, len: 40, row_inc: 10, col_inc: 20 },
            Segment::Silence { len: 80 },
            Segment::Tone { digit_idx: 1, offset: 0, len: 10, row_inc: 10, col_inc: 21 },
        ]
    );
    assert_eq!(s.current_digit(), Some('2'));
}

#[test]
fn stops_when_not_looping() {
    let (r, c) = incs();
    let mut s = DtmfSequencer::new("7", 16, 16, false, r, c).unwrap();
    let segs = s.fill(128);
    let tone: usize = segs
        .iter()
        .map(|g| match g {
            Segment::Tone { len, .. } => *len,
            Segment::Silence { .. } => 0,
        })
        .sum();
    let total: usize = segs
        .iter()
        .map(|g| match g {
            Segment::Tone { len, .. } | Segment::Silence { len } => *len,
        })
        .sum();
    assert_eq!(tone, 16);
    assert_eq!(total, 128);
    assert_eq!(s.current_digit(), None);
    assert_eq!(s.fill(5), vec![Segment::Silence { len: 5 }]);
}

#[test]
fn loops_by_default() {
    let (r, c) = incs();
    let mut s = DtmfSequencer::new("5", 40, 40, true, r, c).unwrap();
    let mut tones = 0;
    for _ in 0..10 {
        for g in s.fill(80) {
            if let Segment::Tone { digit_idx, len, .. } = g {
                assert_eq!(digit_idx, 0);
                tones += len;
            }
        }
    }
    assert_eq!(tones, 400, "looping re-enters the tone every period");
}

#[test]
fn chunked_fill_matches_one_fill() {
    let (r, c) = incs();
    let mut whole = DtmfSequencer::new("19#", 7, 5, true, r, c).unwrap();
    let mut parts = DtmfSequencer::new("19#", 7, 5, true, r, c).unwrap();
    let expand = |segs: Vec<Segment>| -> Vec<(usize, u64)> {
        let mut v = Vec::new();
        for g in segs {
            match g {
                Segment::Silence { len } => v.extend((0..len).map(|_| (usize::MAX, 0))),
                Segment::Tone { digit_idx, offset, len, .. } => {
                    v.extend((0..len as u64).map(|k| (digit_idx, offset + k)))
                }
            }
        }
        v
    };
    let a = expand(whole.fill(100));
    let mut b = Vec::new();
    for n in [3, 0, 17, 1, 40, 39] {
        b.extend(expand(parts.fill(n)));
    }
    assert_eq!(a, b);
}
