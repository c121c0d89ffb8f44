//! Filling a replay buffer from a file, rewinding at the end of the data
//! when playback loops. The reads and seeks are the caller's; this is the
//! decision made after each read.
use vstd::prelude::*;

verus! {

/// What the caller does next.
#[derive(Debug, Clone, Copy, PartialEq, Eq, Structural)]
pub enum FillStep {
    /// Read more into the unfilled part of the buffer.
    Read,
    /// Seek back to the start of the data, then read.
    RewindThenRead,
    /// Stop; the buffer holds what was read.
    Done,
}

/// Abstract state of a fill.
pub struct FillState {
    pub need: nat,
    pub filled: nat,
    pub looping: bool,
    /// The last action was a rewind.
    pub after_rewind: bool,
    /// The data ran out (and, when looping, a read right after a rewind
    /// gave nothing).
    pub eof: bool,
    pub done: bool,
}

/// The state after a read of `m` bytes, and the next step.
pub open spec fn fill_step(st: FillState, m: nat) -> (FillState, FillStep) {
    if m == 0 {
        if st.looping && !st.after_rewind {
            (FillState { after_rewind: true, ..st }, FillStep::RewindThenRead)
        } else {
            (FillState { eof: true, done: true, ..st }, FillStep::Done)
        }
    } else {
        let filled = st.filled + m;
        if filled < st.need {
            (FillState { filled, after_rewind: false, ..st }, FillStep::Read)
        } else {
            (FillState { filled, after_rewind: false, done: true, ..st }, FillStep::Done)
        }
    }
}

/// Steps left at most: two per unfilled byte (a rewind and a read), one
/// fewer right after a rewind.
pub open spec fn fill_measure(st: FillState) -> nat {
    if st.done {
        0
    } else {
        (2 * (st.need - st.filled) + if st.after_rewind { 0int } else { 1int }) as nat
    }
}

/// One replay fill of `need` bytes.
pub struct ReplayFill {
    need: usize,
    filled: usize,
    looping: bool,
    after_rewind: bool,
    eof: bool,
    done: bool,
}

impl View for ReplayFill {
    type V = FillState;

    closed spec fn view(&self) -> FillState {
        FillState {
            need: self.need as nat,
            filled: self.filled as nat,
            looping: self.looping,
            after_rewind: self.after_rewind,
            eof: self.eof,
            done: self.done,
        }
    }
}

impl ReplayFill {
    /// Whether the fill is consistent: never more than needed, and
    /// finished once full.
    pub closed spec fn wf(&self) -> bool {
        &&& self.filled <= self.need
        &&& self.filled == self.need ==> self.done
    }

    /// A fill of `need` bytes, nothing read yet; done at once when nothing
    /// is needed.
    pub fn new(need: usize, looping: bool) -> (f: ReplayFill)
        ensures
            f.wf(),
            f@ == (FillState {
                need: need as nat,
                filled: 0,
                looping,
                after_rewind: false,
                eof: false,
                done: need == 0,
            }),
    {
        ReplayFill { need, filled: 0, looping, after_rewind: false, eof: false, done: need == 0 }
    }

    /// Bytes read so far.
    pub fn filled(&self) -> (n: usize)
        ensures
            n == self@.filled,
    {
        self.filled
    }

    /// Bytes still wanted.
    pub fn remaining(&self) -> (n: usize)
        requires
            self.wf(),
        ensures
            n == self@.need - self@.filled,
    {
        self.need - self.filled
    }

    /// Whether the data ran out.
    pub fn eof(&self) -> (b: bool)
        ensures
            b == self@.eof,
    {
        self.eof
    }

    /// Whether the fill is over.
    pub fn is_done(&self) -> (b: bool)
        ensures
            b == self@.done,
    {
        self.done
    }

    /// Record a read of `m` bytes into the unfilled part; returns the next
    /// step.
    pub fn on_read(&mut self, m: usize) -> (step: FillStep)
        requires
            old(self).wf(),
            !old(self)@.done,
            m <= old(self)@.need - old(self)@.filled,
        ensures
            final(self).wf(),
            (final(self)@, step) == fill_step(old(self)@, m as nat),
    {
        if m == 0 {
            if self.looping && !self.after_rewind {
                self.after_rewind = true;
                FillStep::RewindThenRead
            } else {
                self.eof = true;
                self.done = true;
                FillStep::Done
            }
        } else {
            self.filled = self.filled + m;
            self.after_rewind = false;
            if self.filled < self.need {
                FillStep::Read
            } else {
                self.done = true;
                FillStep::Done
            }
        }
    }
}

/// A fill always ends: every step that is not the last strictly lowers
/// the measure, so even a looping replay of empty data stops (after one
/// rewind) instead of spinning.
pub proof fn law_fill_terminates(st: FillState, m: nat)
    requires
        !st.done,
        st.filled <= st.need,
        m <= st.need - st.filled,
    ensures
        fill_step(st, m).1 != FillStep::Done ==> fill_measure(fill_step(st, m).0) < fill_measure(st),
        fill_step(st, m).1 == FillStep::Done <==> fill_step(st, m).0.done,
        fill_step(st, m).0.filled <= st.need,
{
}

/// The fill stops at end of data only on an empty read, and, when
/// looping, only on an empty read right after a rewind: a looping replay
/// never stops merely because the data ended once.
pub proof fn law_fill_eof_only_after_rewind(st: FillState, m: nat)
    requires
        !st.done,
    ensures
        fill_step(st, m).0.eof && !st.eof ==> m == 0 && (st.looping ==> st.after_rewind),
        st.looping && !st.after_rewind && m == 0 ==> fill_step(st, m).1 == FillStep::RewindThenRead,
{
}

/// Whole samples in a replay buffer of `n` samples of `bytes_per_sample`
/// bytes each, of which `filled` bytes were read: an output with no room
/// gets nothing, and a sample cut short by the end of the data does not
/// count.
pub fn replay_samples(filled: usize, bytes_per_sample: usize, n: usize) -> (produced: usize)
    requires
        bytes_per_sample > 0,
        filled <= n * bytes_per_sample,
    ensures
        produced == filled / bytes_per_sample,
        produced <= n,
        n == 0 ==> produced == 0,
{
    if n == 0 {
        return 0;
    }
    proof {
        vstd::arithmetic::div_mod::lemma_div_is_ordered(
            filled as int,
            n * bytes_per_sample,
            bytes_per_sample as int,
        );
        vstd::arithmetic::div_mod::lemma_div_by_multiple(n as int, bytes_per_sample as int);
    }
    filled / bytes_per_sample
}

/// Set every slot of `out` from `from` on to `value`, leaving the slots
/// before it as they were (all of them when `from` is past the end).
pub fn fill_tail<T: Copy>(out: &mut [T], from: usize, value: T)
    ensures
        final(out)@.len() == old(out)@.len(),
        forall|i: int| 0 <= i < old(out)@.len() && i < from ==> #[trigger] final(out)@[i] == old(out)@[i],
        forall|i: int| from <= i < old(out)@.len() ==> #[trigger] final(out)@[i] == value,
{
    let n = out.len();
    let mut i = from;
    while i < n
        invariant
            out@.len() == n,
            n == old(out)@.len(),
            from <= i,
            forall|k: int| 0 <= k < n && k < from ==> #[trigger] out@[k] == old(out)@[k],
            forall|k: int| from <= k < i && k < n ==> #[trigger] out@[k] == value,
        decreases n - i,
    {
        out[i] = value;
        i = i + 1;
    }
}

} // verus!
