//! Sample-count bookkeeping of rate-changing and multi-port blocks: how
//! much a decimator consumes and produces in one call, and how many frames
//! a stereo block moves so its ports stay balanced.
use vstd::prelude::*;

verus! {

/// What one call of a decimator by `factor`, `phase` samples into the
/// current output period, with `avail` input samples and room for `room`
/// outputs, consumes and produces. Samples are taken one at a time and
/// every `factor`-th completes an output; the call stops before a sample
/// that would complete an output with no room for it.
pub open spec fn plan_ok(factor: int, phase: int, avail: int, room: int, consumed: int, produced: int) -> bool {
    &&& 0 <= consumed <= avail
    &&& 0 <= produced <= room
    &&& produced == (phase + consumed) / factor
    &&& consumed == avail || (produced == room && (phase + consumed) % factor == factor - 1)
}

/// One call of a decimator: `(consumed, produced)`, as [`plan_ok`] says.
pub fn decimation_plan(factor: usize, phase: usize, avail: usize, room: usize) -> (r: (usize, usize))
    requires
        factor > 0,
        phase < factor,
    ensures
        plan_ok(factor as int, phase as int, avail as int, room as int, r.0 as int, r.1 as int),
{
    let mut consumed: usize = 0;
    let mut produced: usize = 0;
    let mut ph: usize = phase;
    proof {
        vstd::arithmetic::div_mod::lemma_small_mod(phase as nat, factor as nat);
        vstd::arithmetic::div_mod::lemma_basic_div(phase as int, factor as int);
    }
    while consumed < avail
        invariant
            factor > 0,
            phase < factor,
            ph < factor,
            consumed <= avail,
            produced <= room,
            produced == (phase + consumed) / (factor as int),
            ph == (phase + consumed) % (factor as int),
        ensures
            consumed <= avail,
            produced <= room,
            produced == (phase + consumed) / (factor as int),
            ph == (phase + consumed) % (factor as int),
            consumed == avail || (produced == room && ph + 1 == factor),
        decreases avail - consumed,
    {
        if ph + 1 == factor && produced == room {
            break;
        }
        proof {
            vstd::arithmetic::div_mod::lemma_fundamental_div_mod((phase + consumed) as int, factor as int);
            vstd::arithmetic::div_mod::lemma_fundamental_div_mod((phase + consumed + 1) as int, factor as int);
            if ph + 1 == factor {
                assert(factor * produced + factor == factor * (produced + 1)) by (nonlinear_arith);
                vstd::arithmetic::div_mod::lemma_fundamental_div_mod_converse(
                    (phase + consumed + 1) as int,
                    factor as int,
                    produced + 1,
                    0,
                );
            } else {
                vstd::arithmetic::div_mod::lemma_fundamental_div_mod_converse(
                    (phase + consumed + 1) as int,
                    factor as int,
                    produced as int,
                    ph + 1,
                );
            }
        }
        consumed = consumed + 1;
        ph = ph + 1;
        if ph == factor {
            ph = 0;
            produced = produced + 1;
        }
    }
    (consumed, produced)
}

/// A decimator's output count depends only on the input it has consumed:
/// from phase `p`, consuming `a` samples then `b` more yields
/// `(p + a + b) / factor` outputs in all, ending at phase
/// `(p + a + b) % factor`, however the input was split into calls.
pub proof fn law_decimation_chunking(factor: int, p: int, a: int, b: int)
    requires
        factor > 0,
        0 <= p < factor,
        a >= 0,
        b >= 0,
    ensures
        (p + a) / factor + ((p + a) % factor + b) / factor == (p + a + b) / factor,
        ((p + a) % factor + b) % factor == (p + a + b) % factor,
{
    let f = factor;
    vstd::arithmetic::div_mod::lemma_fundamental_div_mod(p + a, f);
    let q = (p + a) / f;
    let r = (p + a) % f;
    vstd::arithmetic::div_mod::lemma_fundamental_div_mod(r + b, f);
    let q2 = (r + b) / f;
    let r2 = (r + b) % f;
    assert(p + a + b == f * (q + q2) + r2) by (nonlinear_arith)
        requires
            p + a == f * q + r,
            r + b == f * q2 + r2,
    ;
    vstd::arithmetic::div_mod::lemma_fundamental_div_mod_converse(p + a + b, f, q + q2, r2);
}

/// Outputs and final phase of a decimator by `factor` that starts at
/// `phase` and consumes the chunks in turn.
pub open spec fn decimate_chunks(factor: int, phase: int, chunks: Seq<nat>) -> (int, int)
    decreases chunks.len(),
{
    if chunks.len() == 0 {
        (0, phase)
    } else {
        let (out, ph) = decimate_chunks(factor, phase, chunks.drop_last());
        (out + (ph + chunks.last()) / factor, (ph + chunks.last()) % factor)
    }
}

/// Sum of chunk sizes.
pub open spec fn total(chunks: Seq<nat>) -> int
    decreases chunks.len(),
{
    if chunks.len() == 0 {
        0
    } else {
        total(chunks.drop_last()) + chunks.last()
    }
}

/// However the input is cut into calls, a decimator starting at phase
/// `p` has produced `(p + n) / factor` outputs once it has consumed `n`
/// samples in all, and stands at phase `(p + n) % factor`.
pub proof fn law_decimation_any_chunking(factor: int, p: int, chunks: Seq<nat>)
    requires
        factor > 0,
        0 <= p < factor,
    ensures
        decimate_chunks(factor, p, chunks) == ((p + total(chunks)) / factor, (p + total(chunks))
            % factor),
    decreases chunks.len(),
{
    if chunks.len() == 0 {
        vstd::arithmetic::div_mod::lemma_small_mod(p as nat, factor as nat);
        vstd::arithmetic::div_mod::lemma_basic_div(p, factor);
    } else {
        let rest = chunks.drop_last();
        law_decimation_any_chunking(factor, p, rest);
        assert(total(rest) >= 0) by {
            lemma_total_nonneg(rest);
        }
        law_decimation_chunking(factor, p, total(rest), chunks.last() as int);
    }
}

proof fn lemma_total_nonneg(chunks: Seq<nat>)
    ensures
        total(chunks) >= 0,
    decreases chunks.len(),
{
    if chunks.len() > 0 {
        lemma_total_nonneg(chunks.drop_last());
    }
}

/// Outputs of a run of calls, each result being `(consumed, produced)`.
pub open spec fn total_produced(results: Seq<(int, int)>) -> int
    decreases results.len(),
{
    if results.len() == 0 {
        0
    } else {
        total_produced(results.drop_last()) + results.last().1
    }
}

/// Call `j` of a decimator by `factor`: it was handed `chunks[j]` input
/// samples and room for `rooms[j]` outputs at phase `phases[j]`, returned
/// `results[j]`, and taking the samples it consumed one at a time moved
/// the phase on to `phases[j + 1]`.
pub open spec fn decimator_call(
    factor: int,
    chunks: Seq<nat>,
    rooms: Seq<nat>,
    phases: Seq<int>,
    results: Seq<(int, int)>,
    j: int,
) -> bool {
    &&& plan_ok(factor, phases[j], chunks[j] as int, rooms[j] as int, results[j].0, results[j].1)
    &&& phases[j + 1] == (phases[j] + results[j].0) % factor
}

/// A decimator by `factor`, started at phase zero, called once per chunk.
pub open spec fn decimator_calls(
    factor: int,
    chunks: Seq<nat>,
    rooms: Seq<nat>,
    phases: Seq<int>,
    results: Seq<(int, int)>,
) -> bool {
    &&& rooms.len() == chunks.len()
    &&& results.len() == chunks.len()
    &&& phases.len() == chunks.len() + 1
    &&& phases[0] == 0
    &&& forall|j: int|
        0 <= j < chunks.len() ==> #[trigger] decimator_call(factor, chunks, rooms, phases, results, j)
}

/// With room for one output more than a chunk can fill on its own, a call
/// consumes the whole chunk.
proof fn lemma_room_enough(f: int, ph: int, n: int, room: int, c: int, p: int)
    requires
        f > 0,
        0 <= ph < f,
        n >= 0,
        room >= n / f + 1,
        plan_ok(f, ph, n, room, c, p),
    ensures
        c == n,
{
    if c < n {
        vstd::arithmetic::div_mod::lemma_fundamental_div_mod(ph + c, f);
        vstd::arithmetic::div_mod::lemma_fundamental_div_mod(n, f);
        let q = n / f;
        let r = n % f;
        assert(ph + c == f * p + f - 1);
        assert(false) by (nonlinear_arith)
            requires
                ph + c == f * p + f - 1,
                c + 1 <= n,
                ph < f,
                n == f * q + r,
                0 <= r < f,
                p == room,
                room >= q + 1,
                f > 0,
        ;
    }
}

proof fn lemma_calls_prefix(
    factor: int,
    chunks: Seq<nat>,
    rooms: Seq<nat>,
    phases: Seq<int>,
    results: Seq<(int, int)>,
    k: int,
)
    requires
        factor > 0,
        decimator_calls(factor, chunks, rooms, phases, results),
        forall|j: int| 0 <= j < chunks.len() ==> #[trigger] rooms[j] >= (chunks[j] as int) / factor + 1,
        0 <= k <= chunks.len(),
    ensures
        0 <= phases[k] < factor,
        forall|j: int| 0 <= j < k ==> #[trigger] results[j].0 == chunks[j],
        (total_produced(results.take(k)), phases[k]) == decimate_chunks(factor, 0, chunks.take(k)),
    decreases k,
{
    if k == 0 {
        assert(results.take(0) =~= Seq::<(int, int)>::empty());
        assert(chunks.take(0) =~= Seq::<nat>::empty());
    } else {
        lemma_calls_prefix(factor, chunks, rooms, phases, results, k - 1);
        let j = k - 1;
        assert(decimator_call(factor, chunks, rooms, phases, results, j));
        assert(rooms[j] >= (chunks[j] as int) / factor + 1);
        lemma_room_enough(
            factor,
            phases[j],
            chunks[j] as int,
            rooms[j] as int,
            results[j].0,
            results[j].1,
        );
        assert(results.take(k).drop_last() =~= results.take(j));
        assert(chunks.take(k).drop_last() =~= chunks.take(j));
        vstd::arithmetic::div_mod::lemma_mod_bound(phases[j] + results[j].0, factor);
    }
}

/// Rate invariant of a decimator by `factor` over any run of calls: when
/// every call has room for one output more than its chunk fills on its
/// own, every call consumes its whole chunk, and the outputs of all calls
/// together are the total input divided by `factor`, however the input
/// was cut into chunks; the phase carried on is the remainder.
pub proof fn law_decimation_rate(
    factor: int,
    chunks: Seq<nat>,
    rooms: Seq<nat>,
    phases: Seq<int>,
    results: Seq<(int, int)>,
)
    requires
        factor > 0,
        decimator_calls(factor, chunks, rooms, phases, results),
        forall|j: int| 0 <= j < chunks.len() ==> #[trigger] rooms[j] >= (chunks[j] as int) / factor + 1,
    ensures
        forall|j: int| 0 <= j < chunks.len() ==> #[trigger] results[j].0 == chunks[j],
        total_produced(results) == total(chunks) / factor,
        phases[chunks.len() as int] == total(chunks) % factor,
{
    let k = chunks.len() as int;
    lemma_calls_prefix(factor, chunks, rooms, phases, results, k);
    assert(results.take(k) =~= results);
    assert(chunks.take(k) =~= chunks);
    law_decimation_any_chunking(factor, 0, chunks);
}

/// Phase of a decimator by `factor` after taking `k` samples one at a
/// time from phase `p`, each as [`DecimationPhase::step`] takes it.
pub open spec fn phase_after_steps(factor: int, p: int, k: nat) -> int
    decreases k,
{
    if k == 0 {
        p
    } else {
        (phase_after_steps(factor, p, (k - 1) as nat) + 1) % factor
    }
}

/// Taking `k` samples one at a time moves the phase on by `k`, modulo the
/// factor: the phase a call leaves behind is what [`decimator_call`]
/// carries to the next call.
pub proof fn law_steps_advance_phase(factor: int, p: int, k: nat)
    requires
        factor > 0,
        0 <= p < factor,
    ensures
        phase_after_steps(factor, p, k) == (p + k) % factor,
    decreases k,
{
    if k == 0 {
        vstd::arithmetic::div_mod::lemma_small_mod(p as nat, factor as nat);
    } else {
        law_steps_advance_phase(factor, p, (k - 1) as nat);
        vstd::arithmetic::div_mod::lemma_add_mod_noop_right(1, p + k - 1, factor);
    }
}

/// Where a decimator by `factor` stands within its output period; carried
/// from call to call.
pub struct DecimationPhase {
    factor: usize,
    phase: usize,
}

impl DecimationPhase {
    /// The decimation factor.
    pub closed spec fn factor_spec(&self) -> nat {
        self.factor as nat
    }

    /// Input samples taken since the last output.
    pub closed spec fn phase_spec(&self) -> nat {
        self.phase as nat
    }

    /// Both are in range.
    pub closed spec fn wf(&self) -> bool {
        self.factor > 0 && self.phase < self.factor
    }

    /// A decimator by `factor` at the start of an output period.
    pub fn new(factor: usize) -> (d: DecimationPhase)
        requires
            factor > 0,
        ensures
            d.wf(),
            d.factor_spec() == factor,
            d.phase_spec() == 0,
    {
        DecimationPhase { factor, phase: 0 }
    }

    /// How much one call with `avail` input samples and room for `room`
    /// outputs consumes and produces; see [`decimation_plan`].
    pub fn plan(&self, avail: usize, room: usize) -> (r: (usize, usize))
        requires
            self.wf(),
        ensures
            plan_ok(
                self.factor_spec() as int,
                self.phase_spec() as int,
                avail as int,
                room as int,
                r.0 as int,
                r.1 as int,
            ),
    {
        decimation_plan(self.factor, self.phase, avail, room)
    }

    /// Take one input sample; returns whether it completes an output.
    pub fn step(&mut self) -> (emit: bool)
        requires
            old(self).wf(),
        ensures
            final(self).wf(),
            final(self).factor_spec() == old(self).factor_spec(),
            final(self).phase_spec() == (old(self).phase_spec() + 1) % old(self).factor_spec(),
            emit == (old(self).phase_spec() + 1 == old(self).factor_spec()),
    {
        let next = self.phase + 1;
        if next == self.factor {
            self.phase = 0;
            proof {
                vstd::arithmetic::div_mod::lemma_mod_self_0(next as int);
            }
            true
        } else {
            self.phase = next;
            proof {
                vstd::arithmetic::div_mod::lemma_small_mod(next as nat, self.factor as nat);
            }
            false
        }
    }
}

/// Frames a two-channel block moves in one call: the fewest samples on
/// either input and on each output that is present, so every port
/// consumes or produces the same count.
pub fn balanced_frames(left_in: usize, right_in: usize, left_out: Option<usize>, right_out: Option<usize>) -> (n: usize)
    ensures
        n <= left_in,
        n <= right_in,
        left_out matches Some(l) ==> n <= l,
        right_out matches Some(r) ==> n <= r,
        n == left_in || n == right_in || left_out == Some(n) || right_out == Some(n),
{
    let mut n = if left_in < right_in {
        left_in
    } else {
        right_in
    };
    if let Some(l) = left_out {
        if l < n {
            n = l;
        }
    }
    if let Some(r) = right_out {
        if r < n {
            n = r;
        }
    }
    n
}

} // verus!
