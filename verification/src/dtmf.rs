//! DTMF support: the keypad layout, the digit state machine of the
//! decoder (hold / release / same-digit gap), its JSON event records, and
//! the scripted digit sequencer of the tone generator.
use vstd::prelude::*;

verus! {

/// Keypad character at `(row, col)`: rows 697/770/852/941 Hz, columns
/// 1209/1336/1477/1633 Hz.
pub open spec fn keypad_spec(row: int, col: int) -> char {
    if row == 0 {
        if col == 0 { '1' } else if col == 1 { '2' } else if col == 2 { '3' } else { 'A' }
    } else if row == 1 {
        if col == 0 { '4' } else if col == 1 { '5' } else if col == 2 { '6' } else { 'B' }
    } else if row == 2 {
        if col == 0 { '7' } else if col == 1 { '8' } else if col == 2 { '9' } else { 'C' }
    } else {
        if col == 0 { '*' } else if col == 1 { '0' } else if col == 2 { '#' } else { 'D' }
    }
}

/// The keypad character at `(row, col)`.
pub fn keypad_char(row: usize, col: usize) -> (c: char)
    requires
        row < 4,
        col < 4,
    ensures
        c == keypad_spec(row as int, col as int),
{
    if row == 0 {
        if col == 0 { '1' } else if col == 1 { '2' } else if col == 2 { '3' } else { 'A' }
    } else if row == 1 {
        if col == 0 { '4' } else if col == 1 { '5' } else if col == 2 { '6' } else { 'B' }
    } else if row == 2 {
        if col == 0 { '7' } else if col == 1 { '8' } else if col == 2 { '9' } else { 'C' }
    } else {
        if col == 0 { '*' } else if col == 1 { '0' } else if col == 2 { '#' } else { 'D' }
    }
}

/// Row and column tone indices of a keypad character; `None` for any
/// other character.
pub fn tone_pair(c: char) -> (rc: Option<(usize, usize)>)
    ensures
        rc matches Some((r, k)) ==> r < 4 && k < 4 && keypad_spec(r as int, k as int) == c,
        rc is None ==> forall|r: int, k: int| 0 <= r < 4 && 0 <= k < 4 ==> keypad_spec(r, k) != c,
{
    let row: usize = if c == '1' || c == '2' || c == '3' || c == 'A' {
        0
    } else if c == '4' || c == '5' || c == '6' || c == 'B' {
        1
    } else if c == '7' || c == '8' || c == '9' || c == 'C' {
        2
    } else if c == '*' || c == '0' || c == '#' || c == 'D' {
        3
    } else {
        return None;
    };
    let col: usize = if c == '1' || c == '4' || c == '7' || c == '*' {
        0
    } else if c == '2' || c == '5' || c == '8' || c == '0' {
        1
    } else if c == '3' || c == '6' || c == '9' || c == '#' {
        2
    } else {
        3
    };
    Some((row, col))
}

/// Whether `c` is on the keypad.
pub open spec fn is_keypad_char(c: char) -> bool {
    exists|r: int, k: int| 0 <= r < 4 && 0 <= k < 4 && keypad_spec(r, k) == c
}

/// Bytes of an ASCII string literal.
pub open spec fn ascii(s: Seq<char>) -> Seq<u8> {
    Seq::new(s.len(), |i: int| s[i] as u8)
}

/// The NDJSON record of one released digit:
/// `{"kind":"dtmf","digit":"<d>","duration_ms":<n>,"t_ms":<n>}` + newline.
pub open spec fn dtmf_event(digit: char, duration_ms: nat, t_ms: nat) -> Seq<u8> {
    ascii(seq!['{', '"', 'k', 'i', 'n', 'd', '"', ':', '"', 'd', 't', 'm', 'f', '"', ',', '"', 'd', 'i', 'g', 'i', 't', '"', ':', '"'])
        + seq![digit as u8]
        + ascii(seq!['"', ',', '"', 'd', 'u', 'r', 'a', 't', 'i', 'o', 'n', '_', 'm', 's', '"', ':'])
        + crate::text::decimal(duration_ms)
        + ascii(seq![',', '"', 't', '_', 'm', 's', '"', ':'])
        + crate::text::decimal(t_ms)
        + ascii(seq!['}', '\n'])
}

fn push_all(out: &mut Vec<u8>, bytes: &[u8])
    ensures
        final(out)@ == old(out)@ + bytes@,
{
    let mut i: usize = 0;
    while i < bytes.len()
        invariant
            0 <= i <= bytes@.len(),
            out@ == old(out)@ + bytes@.take(i as int),
        decreases bytes@.len() - i,
    {
        out.push(bytes[i]);
        assert(bytes@.take(i + 1) =~= bytes@.take(i as int).push(bytes@[i as int]));
        i = i + 1;
    }
    assert(bytes@.take(bytes@.len() as int) =~= bytes@);
}

/// Append the event record of a released digit to `pending`.
pub fn emit_event(pending: &mut Vec<u8>, digit: char, duration_ms: u64, t_ms: u64)
    requires
        is_keypad_char(digit),
    ensures
        final(pending)@ == old(pending)@ + dtmf_event(digit, duration_ms as nat, t_ms as nat),
{
    let head: [u8; 24] = [
        0x7B, 0x22, 0x6B, 0x69, 0x6E, 0x64, 0x22, 0x3A, 0x22, 0x64, 0x74, 0x6D, 0x66, 0x22, 0x2C,
        0x22, 0x64, 0x69, 0x67, 0x69, 0x74, 0x22, 0x3A, 0x22,
    ];
    let mid: [u8; 16] = [
        0x22, 0x2C, 0x22, 0x64, 0x75, 0x72, 0x61, 0x74, 0x69, 0x6F, 0x6E, 0x5F, 0x6D, 0x73, 0x22,
        0x3A,
    ];
    let tms: [u8; 8] = [0x2C, 0x22, 0x74, 0x5F, 0x6D, 0x73, 0x22, 0x3A];
    let tail: [u8; 2] = [0x7D, 0x0A];
    let ghost p0 = pending@;
    push_all(pending, &head);
    let d: u8 = if digit == '#' {
        0x23
    } else if digit == '*' {
        0x2A
    } else if digit == 'A' {
        0x41
    } else if digit == 'B' {
        0x42
    } else if digit == 'C' {
        0x43
    } else if digit == 'D' {
        0x44
    } else {
        (digit as u32 - 0x30) as u8 + 0x30
    };
    proof {
        let (r, k) = choose|r: int, k: int| 0 <= r < 4 && 0 <= k < 4 && keypad_spec(r, k) == digit;
        assert(d == digit as u8);
    }
    pending.push(d);
    push_all(pending, &mid);
    crate::text::itoa_u64_into(duration_ms, pending);
    push_all(pending, &tms);
    crate::text::itoa_u64_into(t_ms, pending);
    push_all(pending, &tail);
    proof {
        assert(head@ =~= ascii(seq!['{', '"', 'k', 'i', 'n', 'd', '"', ':', '"', 'd', 't', 'm', 'f', '"', ',', '"', 'd', 'i', 'g', 'i', 't', '"', ':', '"']));
        assert(mid@ =~= ascii(seq!['"', ',', '"', 'd', 'u', 'r', 'a', 't', 'i', 'o', 'n', '_', 'm', 's', '"', ':']));
        assert(tms@ =~= ascii(seq![',', '"', 't', '_', 'm', 's', '"', ':']));
        assert(tail@ =~= ascii(seq!['}', '\n']));
        assert(pending@ =~= p0 + dtmf_event(digit, duration_ms as nat, t_ms as nat));
    }
}

/// Decoder hold state.
#[derive(Debug, Clone, Copy, PartialEq, Eq, Structural)]
pub enum HoldState {
    Idle,
    /// A digit candidate held since the sample index `started_at`.
    Holding { digit: char, started_at: u64 },
}

/// A digit released after being held long enough.
#[derive(Debug, Clone, Copy, PartialEq, Eq, Structural)]
pub struct Release {
    pub digit: char,
    /// Samples the digit was held.
    pub held_samples: u64,
    /// Sample index at which the hold began.
    pub started_at: u64,
}

/// Abstract state of the digit state machine.
pub struct TrackerState {
    pub total: nat,
    pub hold: HoldState,
    pub since_release: nat,
    pub last_released: Option<char>,
}

/// Saturating `u64` addition.
pub open spec fn sat_add(a: nat, b: nat) -> nat {
    if a + b > u64::MAX {
        u64::MAX as nat
    } else {
        a + b
    }
}

/// Effect of one closed detection block of `block` samples, with minimum
/// hold `hold` and same-digit gap `off` (both in samples): the new state
/// and the digit released, if any.
pub open spec fn tracker_step(
    st: TrackerState,
    block: nat,
    hold: nat,
    off: nat,
    detected: Option<char>,
) -> (TrackerState, Option<Release>) {
    let total = st.total + block;
    let block_start = total - block;
    match st.hold {
        HoldState::Idle => match detected {
            None => (TrackerState { total, since_release: sat_add(st.since_release, block), ..st }, None),
            Some(d) => if st.last_released == Some(d) && st.since_release < off {
                (TrackerState { total, ..st }, None)
            } else {
                (
                    TrackerState {
                        total,
                        hold: HoldState::Holding { digit: d, started_at: block_start as u64 },
                        ..st
                    },
                    None,
                )
            },
        },
        HoldState::Holding { digit, started_at } => {
            if detected == Some(digit) {
                (TrackerState { total, ..st }, None)
            } else {
                let held = block_start - started_at;
                let next_hold = match detected {
                    Some(d) => HoldState::Holding { digit: d, started_at: block_start as u64 },
                    None => HoldState::Idle,
                };
                if held >= hold {
                    (
                        TrackerState {
                            total,
                            hold: next_hold,
                            since_release: block,
                            last_released: Some(digit),
                        },
                        Some(Release { digit, held_samples: held as u64, started_at }),
                    )
                } else {
                    (
                        TrackerState {
                            total,
                            hold: next_hold,
                            since_release: sat_add(st.since_release, block),
                            last_released: st.last_released,
                        },
                        None,
                    )
                }
            }
        },
    }
}

/// DTMF digit state machine: a detected digit is confirmed after being
/// seen for the hold time and released, with its duration, when it
/// changes or drops out; the same digit is not re-detected before the
/// off gap has passed.
pub struct DigitTracker {
    block: u64,
    hold_samples: u64,
    off_samples: u64,
    total_samples: u64,
    state: HoldState,
    samples_since_release: u64,
    last_released: Option<char>,
}

impl View for DigitTracker {
    type V = TrackerState;

    closed spec fn view(&self) -> TrackerState {
        TrackerState {
            total: self.total_samples as nat,
            hold: self.state,
            since_release: self.samples_since_release as nat,
            last_released: self.last_released,
        }
    }
}

impl DigitTracker {
    /// Samples per detection block.
    pub closed spec fn block_spec(&self) -> nat {
        self.block as nat
    }

    /// Minimum hold, samples.
    pub closed spec fn hold_spec(&self) -> nat {
        self.hold_samples as nat
    }

    /// Minimum same-digit gap, samples.
    pub closed spec fn off_spec(&self) -> nat {
        self.off_samples as nat
    }

    /// Hold starts never lie ahead of the samples seen.
    pub closed spec fn wf(&self) -> bool {
        match self.state {
            HoldState::Holding { started_at, .. } => started_at + self.block <= self.total_samples,
            HoldState::Idle => true,
        }
    }

    /// A tracker that has seen nothing; the initial gap counter is large
    /// enough that the first digit is never gated.
    pub fn new(block: u64, hold_samples: u64, off_samples: u64) -> (t: DigitTracker)
        ensures
            t.wf(),
            t.block_spec() == block,
            t.hold_spec() == hold_samples,
            t.off_spec() == off_samples,
            t@ == (TrackerState {
                total: 0,
                hold: HoldState::Idle,
                since_release: (u64::MAX / 2) as nat,
                last_released: None,
            }),
    {
        DigitTracker {
            block,
            hold_samples,
            off_samples,
            total_samples: 0,
            state: HoldState::Idle,
            samples_since_release: u64::MAX / 2,
            last_released: None,
        }
    }

    /// Handle one closed detection block and its detection result.
    pub fn on_block(&mut self, detected: Option<char>) -> (released: Option<Release>)
        requires
            old(self).wf(),
            old(self)@.total + old(self).block_spec() <= u64::MAX,
        ensures
            final(self).wf(),
            final(self).block_spec() == old(self).block_spec(),
            final(self).hold_spec() == old(self).hold_spec(),
            final(self).off_spec() == old(self).off_spec(),
            (final(self)@, released) == tracker_step(
                old(self)@,
                old(self).block_spec(),
                old(self).hold_spec(),
                old(self).off_spec(),
                detected,
            ),
    {
        let block = self.block;
        self.total_samples = self.total_samples + block;
        let block_start = self.total_samples - block;
        match self.state {
            HoldState::Idle => match detected {
                None => {
                    self.samples_since_release = self.samples_since_release.saturating_add(block);
                    None
                },
                Some(d) => {
                    if self.last_released == Some(d) && self.samples_since_release < self.off_samples {
                    } else {
                        self.state = HoldState::Holding { digit: d, started_at: block_start };
                    }
                    None
                },
            },
            HoldState::Holding { digit, started_at } => {
                if detected == Some(digit) {
                    None
                } else {
                    let held = block_start - started_at;
                    let next_hold = match detected {
                        Some(d) => HoldState::Holding { digit: d, started_at: block_start },
                        None => HoldState::Idle,
                    };
                    self.state = next_hold;
                    if held >= self.hold_samples {
                        self.last_released = Some(digit);
                        self.samples_since_release = block;
                        Some(Release { digit, held_samples: held, started_at })
                    } else {
                        self.samples_since_release = self.samples_since_release.saturating_add(
                            block,
                        );
                        None
                    }
                }
            },
        }
    }
}

/// A digit is released only after it was held at least the hold time,
/// with the duration measured from the start of its hold to the start of
/// the block that ended it; a digit still being detected is never
/// released.
pub proof fn law_release_after_hold(
    st: TrackerState,
    block: nat,
    hold: nat,
    off: nat,
    detected: Option<char>,
)
    requires
        st.hold matches HoldState::Holding { started_at, .. } ==> started_at <= st.total,
        st.total <= u64::MAX,
    ensures
        tracker_step(st, block, hold, off, detected).1 matches Some(r) ==> {
            &&& st.hold == (HoldState::Holding { digit: r.digit, started_at: r.started_at })
            &&& r.held_samples >= hold
            &&& r.held_samples == st.total - r.started_at
            &&& detected != Some(r.digit)
        },
{
}

/// After a release the same digit is not picked up again until the off
/// gap has passed: an idle tracker that saw that digit less than `off`
/// samples ago ignores it.
pub proof fn law_same_digit_gap(
    st: TrackerState,
    block: nat,
    hold: nat,
    off: nat,
    d: char,
)
    requires
        st.hold == HoldState::Idle,
        st.last_released == Some(d),
        st.since_release < off,
    ensures
        tracker_step(st, block, hold, off, Some(d)).0.hold == HoldState::Idle,
        tracker_step(st, block, hold, off, Some(d)).1 is None,
{
}

/// What one detection block does, case by case. The block just closed
/// starts at the samples seen before it (`st.total`), and:
/// - the same digit again keeps the hold as it was and releases nothing;
/// - a different digit, or none, ends the hold: the held digit is released,
///   with the samples from its start to this block's start and that start,
///   exactly when that span reaches `hold`; a different digit starts its
///   own hold at this block's start, and no digit leaves the tracker idle;
/// - an idle tracker that detects a digit starts holding it at this
///   block's start, unless it is the digit last released less than `off`
///   samples ago; an idle tracker releases nothing.
pub proof fn law_tracker_block(
    st: TrackerState,
    block: nat,
    hold: nat,
    off: nat,
    detected: Option<char>,
)
    requires
        st.hold matches HoldState::Holding { started_at, .. } ==> started_at <= st.total,
        st.total <= u64::MAX,
    ensures
        ({
            let (next, released) = tracker_step(st, block, hold, off, detected);
            &&& next.total == st.total + block
            &&& (st.hold matches HoldState::Holding { digit, started_at } ==> {
                &&& detected == Some(digit) ==> next.hold == st.hold && released is None
                &&& detected is Some && detected.unwrap() != digit ==> next.hold == (HoldState::Holding {
                    digit: detected.unwrap(),
                    started_at: st.total as u64,
                })
                &&& detected is None ==> next.hold == HoldState::Idle
                &&& detected != Some(digit) && st.total - started_at >= hold ==> {
                    &&& released == Some(
                        Release {
                            digit,
                            held_samples: (st.total - started_at) as u64,
                            started_at,
                        },
                    )
                    &&& next.last_released == Some(digit)
                    &&& next.since_release == block
                }
                &&& detected != Some(digit) && st.total - started_at < hold ==> {
                    &&& released is None
                    &&& next.last_released == st.last_released
                }
            })
            &&& (st.hold == HoldState::Idle ==> {
                &&& released is None
                &&& next.last_released == st.last_released
                &&& detected is None ==> next.hold == HoldState::Idle
                &&& detected is Some && !(st.last_released == detected && st.since_release < off)
                    ==> next.hold == (HoldState::Holding {
                    digit: detected.unwrap(),
                    started_at: st.total as u64,
                })
            })
        }),
{
}

} // verus!
