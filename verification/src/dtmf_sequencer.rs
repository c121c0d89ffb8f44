//! Scripted DTMF digit schedule: each keypad digit of the script sounds
//! for `hold` samples followed by `gap` samples of silence, the script
//! looping or ending in silence. The sequencer hands out the schedule as
//! runs of samples; turning tone runs into audio is the caller's part.
use vstd::prelude::*;

verus! {

/// Errors constructing a sequencer.
#[derive(Debug, Clone, Copy, PartialEq, Eq, Structural)]
pub enum SequenceError {
    /// The script holds no keypad character.
    NoKeypadDigits,
}

/// One sample of the schedule.
pub enum ScheduledSample {
    Silence,
    /// Sample `offset` (from the start of the tone) of digit `digit_idx`.
    Tone { digit_idx: nat, offset: nat },
}

/// A run of consecutive schedule samples.
#[derive(Debug, Clone, Copy, PartialEq, Eq)]
pub enum Segment {
    /// `len` samples of silence.
    Silence { len: usize },
    /// `len` samples of digit `digit_idx`'s tone, starting `offset`
    /// samples into the tone; the row and column oscillators advance by
    /// `row_inc` / `col_inc` (Q0.32 cycles) per sample from phase zero at
    /// the tone's start.
    Tone { digit_idx: usize, offset: u64, len: usize, row_inc: u32, col_inc: u32 },
}

/// The keypad-character predicate, as a value.
pub open spec fn keypad_pred() -> spec_fn(char) -> bool {
    |c: char| crate::dtmf::is_keypad_char(c)
}

/// Fixed parameters of a schedule.
pub struct ScheduleConfig {
    pub digits: Seq<char>,
    pub hold: nat,
    pub gap: nat,
    pub looping: bool,
}

/// Samples per digit (tone plus gap).
pub open spec fn period_of_digit(c: ScheduleConfig) -> nat {
    c.hold + c.gap
}

/// Samples per pass through the script.
pub open spec fn period(c: ScheduleConfig) -> nat {
    c.digits.len() * period_of_digit(c)
}

/// Sample `p` of the schedule.
pub open spec fn scheduled(c: ScheduleConfig, p: nat) -> ScheduledSample {
    if !c.looping && p >= period(c) {
        ScheduledSample::Silence
    } else {
        let q = if c.looping {
            p % period(c)
        } else {
            p
        };
        let l = period_of_digit(c);
        if q % l < c.hold {
            ScheduledSample::Tone { digit_idx: q / l, offset: q % l }
        } else {
            ScheduledSample::Silence
        }
    }
}

/// Position `pos` of the schedule is the position `x` of a pass.
pub open spec fn at_pos(c: ScheduleConfig, pos: nat, x: nat) -> bool {
    if c.looping {
        pos % period(c) == x % period(c)
    } else {
        pos == x
    }
}

proof fn lemma_period_bounds(c: ScheduleConfig, idx: nat)
    requires
        idx < c.digits.len(),
    ensures
        (idx + 1) * period_of_digit(c) <= period(c),
        (idx + 1) * period_of_digit(c) == idx * period_of_digit(c) + period_of_digit(c),
{
    let l = period_of_digit(c);
    let n = c.digits.len();
    assert((idx + 1) * l <= n * l) by (nonlinear_arith)
        requires
            idx + 1 <= n,
    ;
    assert((idx + 1) * l == idx * l + l) by (nonlinear_arith);
}

proof fn lemma_at_shift(c: ScheduleConfig, pos: nat, x: nat, t: nat)
    requires
        at_pos(c, pos, x),
        c.looping ==> period(c) > 0,
    ensures
        at_pos(c, pos + t, x + t),
{
    if c.looping {
        let p = period(c) as int;
        vstd::arithmetic::div_mod::lemma_add_mod_noop(pos as int, t as int, p);
        vstd::arithmetic::div_mod::lemma_add_mod_noop(x as int, t as int, p);
    }
}

/// Inside digit `idx`'s tone, the schedule plays that digit's tone.
proof fn lemma_tone_samples(c: ScheduleConfig, pos: nat, idx: nat, off: nat, k: nat)
    requires
        idx < c.digits.len(),
        off + k < c.hold,
        at_pos(c, pos, idx * period_of_digit(c) + off),
        c.looping ==> period(c) > 0,
    ensures
        scheduled(c, pos + k) == (ScheduledSample::Tone { digit_idx: idx, offset: off + k }),
{
    let l = period_of_digit(c);
    lemma_period_bounds(c, idx);
    let x = idx * l + off + k;
    assert(x < period(c));
    lemma_at_shift(c, pos, idx * l + off, k);
    if c.looping {
        vstd::arithmetic::div_mod::lemma_small_mod(x, period(c));
    }
    vstd::arithmetic::div_mod::lemma_fundamental_div_mod_converse_mod(x as int, l as int, idx as int, (off + k) as int);
    vstd::arithmetic::div_mod::lemma_fundamental_div_mod_converse_div(x as int, l as int, idx as int, (off + k) as int);
}

/// Inside the gap after digit `next - 1`, the schedule is silent.
proof fn lemma_gap_samples(c: ScheduleConfig, pos: nat, next: nat, left: nat, k: nat)
    requires
        1 <= next <= c.digits.len(),
        k < left <= c.gap,
        at_pos(c, pos, (next * period_of_digit(c) - left) as nat),
        c.looping ==> period(c) > 0,
    ensures
        scheduled(c, pos + k) == ScheduledSample::Silence,
{
    let l = period_of_digit(c);
    lemma_period_bounds(c, (next - 1) as nat);
    let r = c.hold + c.gap - left + k;
    let x = ((next - 1) * l + r) as nat;
    assert(x == (next * l - left) as nat + k);
    assert(x < period(c));
    lemma_at_shift(c, pos, (next * l - left) as nat, k);
    if c.looping {
        vstd::arithmetic::div_mod::lemma_small_mod(x, period(c));
    }
    vstd::arithmetic::div_mod::lemma_fundamental_div_mod_converse_mod(x as int, l as int, (next - 1) as int, r as int);
}

/// Runs of empty phases ahead once the gap before digit `next` ends:
/// each iteration of the sequencer either emits samples or moves to the
/// next phase, and this bounds how long it can do the latter.
pub open spec fn empties(c: ScheduleConfig, next: int) -> nat
    decreases c.digits.len() - next,
{
    if next >= c.digits.len() && !c.looping {
        1
    } else if c.hold > 0 {
        1
    } else if c.gap > 0 {
        2
    } else if next < c.digits.len() {
        2 + empties(c, next + 1)
    } else {
        0
    }
}

/// Samples of one run.
pub open spec fn segment_samples(s: Segment) -> Seq<ScheduledSample> {
    match s {
        Segment::Silence { len } => Seq::new(len as nat, |k: int| ScheduledSample::Silence),
        Segment::Tone { digit_idx, offset, len, .. } => Seq::new(
            len as nat,
            |k: int| ScheduledSample::Tone { digit_idx: digit_idx as nat, offset: (offset + k) as nat },
        ),
    }
}

/// Samples of a list of runs, in order.
pub open spec fn expand(segs: Seq<Segment>) -> Seq<ScheduledSample>
    decreases segs.len(),
{
    if segs.len() == 0 {
        Seq::empty()
    } else {
        expand(segs.drop_last()) + segment_samples(segs.last())
    }
}

/// Where the sequencer stands within the current digit.
#[derive(Debug, Clone, Copy)]
enum Phase {
    Tone { digit_idx: usize, samples_left: u64 },
    Gap { samples_left: u64 },
    Done,
}

/// Scripted digit schedule.
pub struct DtmfSequencer {
    digits: Vec<char>,
    hold_samples: u64,
    gap_samples: u64,
    loop_sequence: bool,
    row_incs: [u32; 4],
    col_incs: [u32; 4],
    phase: Phase,
    next_digit_idx_after_gap: usize,
    pos: Ghost<nat>,
}

impl DtmfSequencer {
    /// The schedule this sequencer plays.
    pub closed spec fn config(&self) -> ScheduleConfig {
        ScheduleConfig {
            digits: self.digits@,
            hold: self.hold_samples as nat,
            gap: self.gap_samples as nat,
            looping: self.loop_sequence,
        }
    }

    /// Samples of the schedule handed out so far.
    pub closed spec fn position(&self) -> nat {
        self.pos@
    }

    /// Row oscillator increments, per keypad row.
    pub closed spec fn row_incs_spec(&self) -> Seq<u32> {
        self.row_incs@
    }

    /// Column oscillator increments, per keypad column.
    pub closed spec fn col_incs_spec(&self) -> Seq<u32> {
        self.col_incs@
    }

    /// The schedule can always make progress.
    pub closed spec fn live(&self) -> bool {
        self.loop_sequence ==> self.hold_samples + self.gap_samples > 0
    }

    spec fn at(&self, x: nat) -> bool {
        at_pos(self.config(), self.pos@, x)
    }

    /// Concrete phase agrees with the schedule position.
    pub closed spec fn wf(&self) -> bool {
        let c = self.config();
        let l = period_of_digit(c);
        &&& self.digits@.len() > 0
        &&& forall|i: int|
            0 <= i < self.digits@.len() ==> crate::dtmf::is_keypad_char(#[trigger] self.digits@[i])
        &&& self.live()
        &&& (self.loop_sequence ==> period(c) > 0)
        &&& match self.phase {
            Phase::Tone { digit_idx, samples_left } => {
                &&& digit_idx < self.digits@.len()
                &&& samples_left <= self.hold_samples
                &&& (self.hold_samples > 0 ==> samples_left > 0)
                &&& self.at((digit_idx * l + (self.hold_samples - samples_left)) as nat)
            },
            Phase::Gap { samples_left } => {
                &&& 1 <= self.next_digit_idx_after_gap <= self.digits@.len()
                &&& samples_left <= self.gap_samples
                &&& (self.gap_samples > 0 ==> samples_left > 0)
                &&& self.at((self.next_digit_idx_after_gap * l - samples_left) as nat)
            },
            Phase::Done => !self.loop_sequence && self.pos@ >= period(c),
        }
    }

    spec fn measure(&self) -> nat {
        match self.phase {
            Phase::Tone { digit_idx, samples_left } => if samples_left > 0 {
                0
            } else {
                1 + if self.gap_samples > 0 {
                    0
                } else {
                    empties(self.config(), digit_idx + 1)
                }
            },
            Phase::Gap { samples_left } => if samples_left > 0 {
                0
            } else {
                empties(self.config(), self.next_digit_idx_after_gap as int)
            },
            Phase::Done => 0,
        }
    }

    /// Build the schedule for the keypad characters of `digits` (others
    /// are skipped), each held `hold_samples` then followed by
    /// `gap_samples` of silence. `row_incs` / `col_incs` are the
    /// oscillator increments of the four row and four column tones.
    pub fn new(
        digits: &str,
        hold_samples: u64,
        gap_samples: u64,
        loop_sequence: bool,
        row_incs: [u32; 4],
        col_incs: [u32; 4],
    ) -> (r: Result<DtmfSequencer, SequenceError>)
        requires
            loop_sequence ==> hold_samples + gap_samples > 0,
        ensures
            match r {
                Ok(s) => {
                    &&& s.wf()
                    &&& s.config() == (ScheduleConfig {
                        digits: digits@.filter(keypad_pred()),
                        hold: hold_samples as nat,
                        gap: gap_samples as nat,
                        looping: loop_sequence,
                    })
                    &&& s.position() == 0
                    &&& s.row_incs_spec() == row_incs@
                    &&& s.col_incs_spec() == col_incs@
                },
                Err(e) => e == SequenceError::NoKeypadDigits && digits@.filter(
                    keypad_pred(),
                ).len() == 0,
            },
            r is Ok <==> digits@.filter(keypad_pred()).len() > 0,
    {
        let n = digits.unicode_len();
        let mut kept: Vec<char> = Vec::new();
        let mut i: usize = 0;
        while i < n
            invariant
                n == digits@.len(),
                0 <= i <= n,
                kept@ == digits@.take(i as int).filter(keypad_pred()),
            decreases n - i,
        {
            let c = vstd::string::StrSliceExecFns::get_char(digits, i);
            proof {
                assert(digits@.take(i + 1).drop_last() =~= digits@.take(i as int));
                reveal_with_fuel(Seq::<char>::filter, 1);
                assert(digits@.take(i + 1) =~= digits@.take(i as int).push(c));
            }
            if crate::dtmf::tone_pair(c).is_some() {
                kept.push(c);
            }
            i = i + 1;
        }
        assert(digits@.take(n as int) =~= digits@);
        proof {
            let f = digits@.filter(keypad_pred());
            assert(f.len() <= digits@.len()) by {
                digits@.lemma_filter_len(keypad_pred());
            }
            assert forall|k: int| 0 <= k < f.len() implies crate::dtmf::is_keypad_char(#[trigger] f[k]) by {
                digits@.lemma_filter_pred(keypad_pred(), k);
            }
        }
        if kept.len() == 0 {
            return Err(SequenceError::NoKeypadDigits);
        }
        let s = DtmfSequencer {
            digits: kept,
            hold_samples,
            gap_samples,
            loop_sequence,
            row_incs,
            col_incs,
            phase: Phase::Tone { digit_idx: 0, samples_left: hold_samples },
            next_digit_idx_after_gap: 0,
            pos: Ghost(0),
        };
        assert(s.digits@ == digits@.filter(keypad_pred()));
        assert(forall|i: int|
            0 <= i < s.digits@.len() ==> crate::dtmf::is_keypad_char(#[trigger] s.digits@[i]));
        assert(s.live());
        proof {
            if loop_sequence {
                let l = period_of_digit(s.config());
                let len = s.digits@.len();
                assert(len * l > 0) by (nonlinear_arith)
                    requires
                        len > 0,
                        l > 0,
                ;
            }
        }
        assert(s.at(0));
        assert(s.at((0usize * period_of_digit(s.config()) + (s.hold_samples - hold_samples)) as nat));
        assert(s.wf());
        Ok(s)
    }

    /// Which keypad character is sounding now, if any: with a non-zero
    /// hold and gap, exactly the digit the schedule plays at the current
    /// position, and `None` in gaps and once a one-shot script has ended.
    pub fn current_digit(&self) -> (d: Option<char>)
        requires
            self.wf(),
        ensures
            d matches Some(c) ==> self.config().digits.contains(c),
            scheduled(self.config(), self.position()) matches ScheduledSample::Tone {
                digit_idx,
                offset,
            } ==> (offset > 0 ==> d == Some(self.config().digits[digit_idx as int])),
            self.config().hold > 0 && self.config().gap > 0 ==> d == match scheduled(
                self.config(),
                self.position(),
            ) {
                ScheduledSample::Tone { digit_idx, .. } => Some(
                    self.config().digits[digit_idx as int],
                ),
                ScheduledSample::Silence => None::<char>,
            },
    {
        let ghost c = self.config();
        let ghost l = period_of_digit(c);
        proof {
            match self.phase {
                Phase::Tone { digit_idx, samples_left } => {
                    if samples_left > 0 {
                        lemma_tone_samples(
                            c,
                            self.pos@,
                            digit_idx as nat,
                            (self.hold_samples - samples_left) as nat,
                            0,
                        );
                    } else {
                        lemma_period_bounds(c, digit_idx as nat);
                        let x = digit_idx * l + self.hold_samples;
                        if l > 0 {
                            if self.gap_samples > 0 {
                                vstd::arithmetic::div_mod::lemma_fundamental_div_mod_converse_mod(
                                    x as int,
                                    l as int,
                                    digit_idx as int,
                                    self.hold_samples as int,
                                );
                            } else {
                                vstd::arithmetic::div_mod::lemma_fundamental_div_mod_converse_mod(
                                    x as int,
                                    l as int,
                                    digit_idx + 1,
                                    0,
                                );
                            }
                        }
                        self.lemma_boundary_not_mid_tone(x as nat);
                    }
                },
                Phase::Gap { samples_left } => {
                    if samples_left > 0 {
                        lemma_gap_samples(
                            c,
                            self.pos@,
                            self.next_digit_idx_after_gap as nat,
                            samples_left as nat,
                            0,
                        );
                    } else {
                        let next = self.next_digit_idx_after_gap;
                        lemma_period_bounds(c, (next - 1) as nat);
                        if l > 0 {
                            vstd::arithmetic::div_mod::lemma_fundamental_div_mod_converse_mod(
                                (next * l) as int,
                                l as int,
                                next as int,
                                0,
                            );
                        }
                        self.lemma_boundary_not_mid_tone((next * l) as nat);
                    }
                },
                Phase::Done => {},
            }
        }
        match self.phase {
            Phase::Tone { digit_idx, .. } => Some(self.digits[digit_idx]),
            _ => None,
        }
    }

    /// At the end of a tone or of a gap the schedule is not inside a tone.
    proof fn lemma_boundary_not_mid_tone(&self, x: nat)
        requires
            self.wf(),
            self.at(x),
            x <= period(self.config()),
            period_of_digit(self.config()) > 0 ==> (x % period_of_digit(self.config())
                == self.config().hold || x % period_of_digit(self.config()) == 0),
        ensures
            scheduled(self.config(), self.position()) matches ScheduledSample::Tone {
                offset,
                ..
            } ==> offset == 0,
    {
        let c = self.config();
        let l = period_of_digit(c);
        let p = self.pos@;
        if !c.looping && p >= period(c) {
        } else {
            let q = if c.looping {
                p % period(c)
            } else {
                p
            };
            if c.looping {
                assert(q == x % period(c));
                if x == period(c) {
                    vstd::arithmetic::div_mod::lemma_mod_self_0(period(c) as int);
                    assert(q == 0);
                    vstd::arithmetic::div_mod::lemma_small_mod(0, l);
                } else {
                    vstd::arithmetic::div_mod::lemma_small_mod(x, period(c));
                    assert(q == x);
                }
            } else {
                assert(q == x);
            }
            if l > 0 && q % l < c.hold {
                assert(q % l == 0 || q % l == c.hold);
            }
        }
    }

    fn start_tone(&mut self, digit_idx: usize)
        requires
            digit_idx < old(self).digits@.len(),
            old(self).digits@.len() > 0,
            forall|i: int|
                0 <= i < old(self).digits@.len() ==> crate::dtmf::is_keypad_char(
                    #[trigger] old(self).digits@[i],
                ),
        ensures
            final(self).phase == (Phase::Tone {
                digit_idx,
                samples_left: old(self).hold_samples,
            }),
            final(self).digits == old(self).digits,
            final(self).hold_samples == old(self).hold_samples,
            final(self).gap_samples == old(self).gap_samples,
            final(self).loop_sequence == old(self).loop_sequence,
            final(self).row_incs == old(self).row_incs,
            final(self).col_incs == old(self).col_incs,
            final(self).next_digit_idx_after_gap == old(self).next_digit_idx_after_gap,
            final(self).pos == old(self).pos,
    {
        self.phase = Phase::Tone { digit_idx, samples_left: self.hold_samples };
    }

    /// Oscillator increments of the digit at `digit_idx`.
    fn incs_for(&self, digit_idx: usize) -> (r: (u32, u32))
        requires
            digit_idx < self.digits@.len(),
            crate::dtmf::is_keypad_char(self.digits@[digit_idx as int]),
        ensures
            exists|row: int, col: int|
                0 <= row < 4 && 0 <= col < 4 && crate::dtmf::keypad_spec(row, col)
                    == self.digits@[digit_idx as int] && r.0 == self.row_incs@[row] && r.1
                    == self.col_incs@[col],
    {
        let c = self.digits[digit_idx];
        match crate::dtmf::tone_pair(c) {
            Some((row, col)) => (self.row_incs[row], self.col_incs[col]),
            None => {
                proof {
                    let (r, k) = choose|r: int, k: int|
                        0 <= r < 4 && 0 <= k < 4 && crate::dtmf::keypad_spec(r, k) == c;
                }
                (0, 0)
            },
        }
    }

    fn advance_from_gap(&mut self, next: usize)
        requires
            old(self).digits@.len() > 0,
            forall|i: int|
                0 <= i < old(self).digits@.len() ==> crate::dtmf::is_keypad_char(
                    #[trigger] old(self).digits@[i],
                ),
            old(self).live(),
            1 <= next <= old(self).digits@.len(),
            old(self).loop_sequence ==> period(old(self).config()) > 0,
            at_pos(old(self).config(), old(self).pos@, (next * period_of_digit(old(self).config())) as nat),
        ensures
            final(self).wf(),
            final(self).config() == old(self).config(),
            final(self).pos == old(self).pos,
            final(self).row_incs == old(self).row_incs,
            final(self).col_incs == old(self).col_incs,
            final(self).next_digit_idx_after_gap == old(self).next_digit_idx_after_gap,
            final(self).phase == (if next < old(self).digits@.len() {
                Phase::Tone { digit_idx: next, samples_left: old(self).hold_samples }
            } else if old(self).loop_sequence {
                Phase::Tone { digit_idx: 0, samples_left: old(self).hold_samples }
            } else {
                Phase::Done
            }),
    {
        let ghost c = self.config();
        let ghost l = period_of_digit(c);
        if next < self.digits.len() {
            self.start_tone(next);
            assert(self.at((next * l + (self.hold_samples - self.hold_samples)) as nat));
        } else if self.loop_sequence {
            self.start_tone(0);
            proof {
                assert(next * l == period(c));
                vstd::arithmetic::div_mod::lemma_mod_self_0(period(c) as int);
                vstd::arithmetic::div_mod::lemma_small_mod(0, period(c));
                assert(self.at((0usize * l + (self.hold_samples - self.hold_samples)) as nat));
            }
        } else {
            self.phase = Phase::Done;
            assert(next * l == period(c));
        }
    }

    /// Hand out the next `n` samples of the schedule as runs.
    pub fn fill(&mut self, n: usize) -> (segs: Vec<Segment>)
        requires
            old(self).wf(),
        ensures
            final(self).wf(),
            final(self).config() == old(self).config(),
            final(self).row_incs_spec() == old(self).row_incs_spec(),
            final(self).col_incs_spec() == old(self).col_incs_spec(),
            final(self).position() == old(self).position() + n,
            expand(segs@) == Seq::new(
                n as nat,
                |k: int| scheduled(old(self).config(), (old(self).position() + k) as nat),
            ),
            forall|i: int|
                0 <= i < segs@.len() ==> (#[trigger] segs@[i] matches Segment::Tone {
                    digit_idx,
                    row_inc,
                    col_inc,
                    ..
                } ==> tone_incs_of(*old(self), digit_idx as nat, row_inc, col_inc)),
    {
        let ghost c = self.config();
        let ghost pos0 = self.pos@;
        let ghost s0 = *self;
        let mut segs: Vec<Segment> = Vec::new();
        let mut produced: usize = 0;
        while produced < n
            invariant
                self.wf(),
                self.config() == c,
                self.row_incs == s0.row_incs,
                self.col_incs == s0.col_incs,
                c == s0.config(),
                0 <= produced <= n,
                self.pos@ == pos0 + produced,
                expand(segs@) == Seq::new(produced as nat, |k: int| scheduled(c, (pos0 + k) as nat)),
                forall|i: int|
                    0 <= i < segs@.len() ==> (#[trigger] segs@[i] matches Segment::Tone {
                        digit_idx,
                        row_inc,
                        col_inc,
                        ..
                    } ==> tone_incs_of(s0, digit_idx as nat, row_inc, col_inc)),
            decreases n - produced, self.measure(),
        {
            let rem = n - produced;
            let ghost p = self.pos@;
            let ghost segs0 = segs@;
            let ghost m0 = self.measure();
            let l_ghost = Ghost(period_of_digit(c));
            match self.phase {
                Phase::Done => {
                    let seg = Segment::Silence { len: rem };
                    segs.push(seg);
                    proof {
                        assert(segs@.drop_last() =~= segs0);
                        assert(segment_samples(seg) =~= Seq::new(rem as nat, |k: int| scheduled(c, (p + k) as nat)));
                        assert(expand(segs@) =~= Seq::new((produced + rem) as nat, |k: int| scheduled(c, (pos0 + k) as nat)));
                    }
                    produced = n;
                    self.pos = Ghost((p + rem) as nat);
                },
                Phase::Gap { samples_left } => {
                    let take: u64 = if (rem as u64) < samples_left {
                        rem as u64
                    } else {
                        samples_left
                    };
                    let next = self.next_digit_idx_after_gap;
                    if take > 0 {
                        let seg = Segment::Silence { len: take as usize };
                        segs.push(seg);
                        proof {
                            assert(segs@.drop_last() =~= segs0);
                            assert forall|k: int| 0 <= k < take implies #[trigger] scheduled(c, (p + k) as nat)
                                == ScheduledSample::Silence by {
                                lemma_gap_samples(c, p, next as nat, samples_left as nat, k as nat);
                            }
                            assert(segment_samples(seg) =~= Seq::new(take as nat, |k: int| scheduled(c, (p + k) as nat)));
                            assert(expand(segs@) =~= Seq::new((produced + take) as nat, |k: int| scheduled(c, (pos0 + k) as nat)));
                        }
                    } else {
                        assert(Seq::new(produced as nat, |k: int| scheduled(c, (pos0 + k) as nat)) =~= Seq::new((produced + take) as nat, |k: int| scheduled(c, (pos0 + k) as nat)));
                    }
                    produced = produced + take as usize;
                    self.pos = Ghost((p + take) as nat);
                    let remaining = samples_left - take;
                    proof {
                        assert(next * l_ghost@ >= samples_left) by (nonlinear_arith)
                            requires
                                next >= 1,
                                l_ghost@ >= samples_left,
                        ;
                        lemma_at_shift(c, p, (next * l_ghost@ - samples_left) as nat, take as nat);
                    }
                    assert(take == 0 ==> m0 == empties(c, next as int));
                    if remaining == 0 {
                        self.advance_from_gap(next);
                        proof {
                            if take == 0 {
                                self.lemma_measure_after_gap(s0, next, m0);
                            }
                        }
                    } else {
                        self.phase = Phase::Gap { samples_left: remaining };
                    }
                },
                Phase::Tone { digit_idx, samples_left } => {
                    let take: u64 = if (rem as u64) < samples_left {
                        rem as u64
                    } else {
                        samples_left
                    };
                    let offset = self.hold_samples - samples_left;
                    if take > 0 {
                        let (row_inc, col_inc) = self.incs_for(digit_idx);
                        let seg = Segment::Tone { digit_idx, offset, len: take as usize, row_inc, col_inc };
                        segs.push(seg);
                        proof {
                            assert(segs@.drop_last() =~= segs0);
                            assert forall|k: int| 0 <= k < take implies #[trigger] scheduled(c, (p + k) as nat)
                                == (ScheduledSample::Tone { digit_idx: digit_idx as nat, offset: (offset + k) as nat }) by {
                                lemma_tone_samples(c, p, digit_idx as nat, offset as nat, k as nat);
                            }
                            assert(segment_samples(seg) =~= Seq::new(take as nat, |k: int| scheduled(c, (p + k) as nat)));
                            assert(expand(segs@) =~= Seq::new((produced + take) as nat, |k: int| scheduled(c, (pos0 + k) as nat)));
                            assert forall|i: int| 0 <= i < segs@.len() implies (#[trigger] segs@[i] matches Segment::Tone {
                                digit_idx,
                                row_inc,
                                col_inc,
                                ..
                            } ==> tone_incs_of(s0, digit_idx as nat, row_inc, col_inc)) by {
                                if i < segs0.len() {
                                    assert(segs@[i] == segs0[i]);
                                }
                            }
                        }
                    } else {
                        assert(Seq::new(produced as nat, |k: int| scheduled(c, (pos0 + k) as nat)) =~= Seq::new((produced + take) as nat, |k: int| scheduled(c, (pos0 + k) as nat)));
                    }
                    produced = produced + take as usize;
                    self.pos = Ghost((p + take) as nat);
                    let remaining = samples_left - take;
                    proof {
                        lemma_at_shift(c, p, (digit_idx * l_ghost@ + offset) as nat, take as nat);
                        lemma_period_bounds(c, digit_idx as nat);
                    }
                    if remaining == 0 {
                        let len = self.digits.len();
                        self.next_digit_idx_after_gap = digit_idx + 1;
                        self.phase = Phase::Gap { samples_left: self.gap_samples };
                    } else {
                        self.phase = Phase::Tone { digit_idx, samples_left: remaining };
                    }
                },
            }
        }
        segs
    }

    proof fn lemma_measure_after_gap(&self, s0: DtmfSequencer, next: usize, m0: nat)
        requires
            self.live(),
            1 <= next <= self.digits@.len(),
            m0 == empties(self.config(), next as int),
            self.phase == (if next < self.digits@.len() {
                Phase::Tone { digit_idx: next, samples_left: self.hold_samples }
            } else if self.loop_sequence {
                Phase::Tone { digit_idx: 0, samples_left: self.hold_samples }
            } else {
                Phase::Done
            }),
        ensures
            self.measure() < m0,
    {
        if next < self.digits@.len() {
            if self.hold_samples > 0 {
                assert(self.measure() == 0);
            } else if self.gap_samples > 0 {
                assert(empties(self.config(), next as int) == 2);
                assert(self.measure() == 1);
            } else {
                assert(empties(self.config(), next as int) == 2 + empties(self.config(), next + 1));
                assert(self.measure() == 1 + empties(self.config(), next + 1));
            }
        } else if self.loop_sequence {
            if self.hold_samples > 0 {
                assert(self.measure() == 0);
            } else {
                assert(self.gap_samples > 0);
                assert(empties(self.config(), next as int) == 2);
                assert(self.measure() == 1);
            }
        } else {
            assert(self.measure() == 0);
        }
    }
}

/// Increments a tone run of digit `idx` must carry: those of its keypad
/// row and column.
pub open spec fn tone_incs_of(s: DtmfSequencer, idx: nat, row_inc: u32, col_inc: u32) -> bool {
    idx < s.config().digits.len() && exists|row: int, col: int|
        0 <= row < 4 && 0 <= col < 4 && crate::dtmf::keypad_spec(row, col) == s.config().digits[idx as int]
            && row_inc == s.row_incs_spec()[row] && col_inc == s.col_incs_spec()[col]
}

/// Within each pass, digit `i` sounds for the first `hold` samples of its
/// slot `[i * (hold + gap), (i + 1) * (hold + gap))` and the rest of the
/// slot is silent.
pub proof fn law_schedule_digit_windows(c: ScheduleConfig, i: nat, o: nat)
    requires
        i < c.digits.len(),
        o < c.hold + c.gap,
    ensures
        scheduled(c, i * period_of_digit(c) + o) == if o < c.hold {
            ScheduledSample::Tone { digit_idx: i, offset: o }
        } else {
            ScheduledSample::Silence
        },
{
    let l = period_of_digit(c);
    lemma_period_bounds(c, i);
    let x = i * l + o;
    assert(x < period(c));
    if c.looping {
        vstd::arithmetic::div_mod::lemma_small_mod(x, period(c));
    }
    vstd::arithmetic::div_mod::lemma_fundamental_div_mod_converse_mod(x as int, l as int, i as int, o as int);
    vstd::arithmetic::div_mod::lemma_fundamental_div_mod_converse_div(x as int, l as int, i as int, o as int);
}

/// A looping schedule repeats every pass.
pub proof fn law_schedule_loops(c: ScheduleConfig, p: nat)
    requires
        c.looping,
        period(c) > 0,
    ensures
        scheduled(c, p + period(c)) == scheduled(c, p),
{
    vstd::arithmetic::div_mod::lemma_mod_add_multiples_vanish(p as int, period(c) as int);
}

/// A schedule that does not loop is silent after one pass.
pub proof fn law_schedule_ends_in_silence(c: ScheduleConfig, p: nat)
    requires
        !c.looping,
        p >= period(c),
    ensures
        scheduled(c, p) == ScheduledSample::Silence,
{
}

/// Handing the schedule out in two chunks gives the same samples as one
/// chunk of the combined length: state carries across calls.
pub proof fn law_schedule_chunks(c: ScheduleConfig, pos: nat, a: nat, b: nat)
    ensures
        Seq::new(a, |k: int| scheduled(c, (pos + k) as nat)) + Seq::new(
            b,
            |k: int| scheduled(c, (pos + a + k) as nat),
        ) == Seq::new(a + b, |k: int| scheduled(c, (pos + k) as nat)),
{
    let lhs = Seq::new(a, |k: int| scheduled(c, (pos + k) as nat)) + Seq::new(
        b,
        |k: int| scheduled(c, (pos + a + k) as nat),
    );
    let rhs = Seq::new(a + b, |k: int| scheduled(c, (pos + k) as nat));
    assert forall|k: int| 0 <= k < a + b implies lhs[k] == rhs[k] by {
        if k >= a {
            assert((pos + a + (k - a)) as nat == (pos + k) as nat);
        }
    }
    assert(lhs =~= rhs);
}

} // verus!
