//! `EventsSink` — terminal for an `events` port. Reassembles
//! newline-delimited records across calls and buffers one entry per
//! complete non-empty line, dropping the oldest once a bound is reached.
use vstd::prelude::*;
use crate::lines::NEWLINE;

verus! {

/// Construction parameters of an [`EventsSink`].
#[derive(Debug, Clone, Copy)]
pub struct EventsSinkParams {
    /// Maximum buffered events before the oldest are dropped; zero means
    /// unbounded.
    pub capacity: u32,
}

impl Default for EventsSinkParams {
    fn default() -> (p: EventsSinkParams)
        ensures
            p.capacity == 1024,
    {
        EventsSinkParams { capacity: 1024 }
    }
}

/// Abstract state of a sink: the unterminated tail, buffered lines
/// (oldest first) and the count of lines dropped for capacity.
#[verifier::ext_equal]
pub struct SinkState {
    pub partial: Seq<u8>,
    pub ready: Seq<Seq<u8>>,
    pub dropped: nat,
}

/// One more saturating count of a `u64` counter.
pub open spec fn saturating_inc(n: nat) -> nat {
    if n < u64::MAX {
        n + 1
    } else {
        n
    }
}

/// Queue a completed line, evicting the oldest when the bound is hit.
pub open spec fn push_ready_spec(st: SinkState, cap: nat, line: Seq<u8>) -> SinkState {
    if cap > 0 && st.ready.len() >= cap {
        SinkState {
            partial: st.partial,
            ready: st.ready.drop_first().push(line),
            dropped: saturating_inc(st.dropped),
        }
    } else {
        SinkState { partial: st.partial, ready: st.ready.push(line), dropped: st.dropped }
    }
}

/// Effect of one input byte on a sink.
pub open spec fn sink_step(st: SinkState, cap: nat, b: u8) -> SinkState {
    if b == NEWLINE {
        let cleared = SinkState { partial: Seq::empty(), ready: st.ready, dropped: st.dropped };
        if st.partial.len() > 0 {
            push_ready_spec(cleared, cap, st.partial)
        } else {
            cleared
        }
    } else {
        SinkState { partial: st.partial.push(b), ready: st.ready, dropped: st.dropped }
    }
}

/// Effect of a byte stream on a sink, byte by byte.
pub open spec fn sink_feed(st: SinkState, cap: nat, bytes: Seq<u8>) -> SinkState
    decreases bytes.len(),
{
    if bytes.len() == 0 {
        st
    } else {
        sink_step(sink_feed(st, cap, bytes.drop_last()), cap, bytes.last())
    }
}

/// The state of a freshly built sink.
pub open spec fn empty_sink_state() -> SinkState {
    SinkState { partial: Seq::empty(), ready: Seq::empty(), dropped: 0 }
}

/// The newest `cap` entries of `lines` (all of them when `cap` is zero).
pub open spec fn newest(lines: Seq<Seq<u8>>, cap: nat) -> Seq<Seq<u8>> {
    if cap == 0 || lines.len() <= cap {
        lines
    } else {
        lines.subrange(lines.len() - cap, lines.len() as int)
    }
}

/// Terminal sink for an `events` port.
pub struct EventsSink {
    params: EventsSinkParams,
    partial: Vec<u8>,
    ready: Vec<Vec<u8>>,
    dropped: u64,
}

impl View for EventsSink {
    type V = SinkState;

    closed spec fn view(&self) -> SinkState {
        SinkState { partial: self.partial@, ready: self.ready@.map_values(|v: Vec<u8>| v@), dropped: self.dropped as nat }
    }
}

impl EventsSink {
    /// The configured bound on buffered events (zero: unbounded).
    pub closed spec fn capacity(&self) -> nat {
        self.params.capacity as nat
    }

    /// A sink with nothing buffered.
    pub fn new(params: EventsSinkParams) -> (s: EventsSink)
        ensures
            s@ == empty_sink_state(),
            s.capacity() == params.capacity,
    {
        let s = EventsSink { params, partial: Vec::new(), ready: Vec::new(), dropped: 0 };
        assert(s.ready.deep_view() =~= Seq::<Seq<u8>>::empty());
        s
    }

    /// Take every buffered event, oldest first, each without its newline.
    pub fn drain_events(&mut self) -> (events: Vec<Vec<u8>>)
        ensures
            events@.map_values(|v: Vec<u8>| v@) == old(self)@.ready,
            final(self)@ == (SinkState { ready: Seq::empty(), ..old(self)@ }),
            final(self).capacity() == old(self).capacity(),
    {
        let mut taken: Vec<Vec<u8>> = Vec::new();
        core::mem::swap(&mut taken, &mut self.ready);
        assert(self.ready@.map_values(|v: Vec<u8>| v@) =~= Seq::<Seq<u8>>::empty());
        taken
    }

    /// Number of buffered events.
    pub fn pending_count(&self) -> (n: usize)
        ensures
            n == self@.ready.len(),
    {
        self.ready.len()
    }

    /// Number of events dropped so far because the buffer was full.
    pub fn dropped(&self) -> (n: u64)
        ensures
            n == self@.dropped,
    {
        self.dropped
    }

    fn push_ready(&mut self, line: Vec<u8>)
        ensures
            final(self)@ == push_ready_spec(old(self)@, old(self).capacity(), line@),
            final(self).capacity() == old(self).capacity(),
    {
        let cap = self.params.capacity as usize;
        let ghost before = self.ready@.map_values(|v: Vec<u8>| v@);
        if cap > 0 && self.ready.len() >= cap {
            let _ = self.ready.remove(0);
            assert(self.ready@.map_values(|v: Vec<u8>| v@) =~= before.drop_first());
            self.dropped = self.dropped.saturating_add(1);
        }
        let ghost mid = self.ready@.map_values(|v: Vec<u8>| v@);
        self.ready.push(line);
        assert(self.ready@.map_values(|v: Vec<u8>| v@) =~= mid.push(line@));
    }

    /// Consume a chunk of the events stream; every byte is consumed.
    pub fn process(&mut self, bytes: &[u8]) -> (consumed: usize)
        ensures
            consumed == bytes@.len(),
            final(self)@ == sink_feed(old(self)@, old(self).capacity(), bytes@),
            final(self).capacity() == old(self).capacity(),
    {
        let n = bytes.len();
        let mut i: usize = 0;
        while i < n
            invariant
                n == bytes@.len(),
                0 <= i <= n,
                self.capacity() == old(self).capacity(),
                self@ == sink_feed(old(self)@, old(self).capacity(), bytes@.take(i as int)),
            decreases n - i,
        {
            let b = bytes[i];
            let ghost st = self@;
            if b == NEWLINE {
                let mut done: Vec<u8> = Vec::new();
                core::mem::swap(&mut done, &mut self.partial);
                if done.len() > 0 {
                    self.push_ready(done);
                }
            } else {
                self.partial.push(b);
            }
            assert(bytes@.take(i + 1).drop_last() =~= bytes@.take(i as int));
            i = i + 1;
        }
        assert(bytes@.take(n as int) =~= bytes@);
        n
    }
}

/// Feeding a stream in two chunks leaves a sink exactly as feeding it in
/// one: events that straddle call boundaries reassemble.
pub proof fn law_feed_chunking(st: SinkState, cap: nat, a: Seq<u8>, b: Seq<u8>)
    ensures
        sink_feed(st, cap, a + b) == sink_feed(sink_feed(st, cap, a), cap, b),
    decreases b.len(),
{
    if b.len() == 0 {
        assert(a + b =~= a);
    } else {
        law_feed_chunking(st, cap, a, b.drop_last());
        assert((a + b).drop_last() =~= a + b.drop_last());
    }
}

/// Number of lines a bound of `cap` evicts from `n` completed lines.
pub open spec fn evicted(n: nat, cap: nat) -> nat {
    if cap > 0 && n > cap {
        (n - cap) as nat
    } else {
        0
    }
}

/// What a fresh sink holds after reading a stream, however it was
/// chunked: the unterminated tail, the newest `cap` complete non-empty
/// lines in stream order, and a count of the older ones it dropped.
pub proof fn law_sink_buffers_newest_lines(s: Seq<u8>, cap: nat)
    requires
        crate::lines::complete_lines(s).len() <= u64::MAX,
    ensures
        sink_feed(empty_sink_state(), cap, s).partial == crate::lines::unterminated_tail(s),
        sink_feed(empty_sink_state(), cap, s).ready == newest(crate::lines::complete_lines(s), cap),
        sink_feed(empty_sink_state(), cap, s).dropped == evicted(
            crate::lines::complete_lines(s).len(),
            cap,
        ),
    decreases s.len(),
{
    if s.len() > 0 {
        let p = s.drop_last();
        crate::lines::lemma_split_events_shape(s);
        assert(crate::lines::complete_lines(p).len() <= crate::lines::complete_lines(s).len());
        law_sink_buffers_newest_lines(p, cap);
        let lines = crate::lines::complete_lines(p);
        let tail = crate::lines::unterminated_tail(p);
        if s.last() == crate::lines::NEWLINE && tail.len() > 0 {
            let l2 = lines.push(tail);
            let old_ready = newest(lines, cap);
            if cap > 0 && old_ready.len() >= cap {
                assert(lines.len() >= cap);
                assert(newest(l2, cap) =~= old_ready.drop_first().push(tail));
            } else {
                assert(newest(l2, cap) =~= old_ready.push(tail));
            }
        }
    }
}

/// Saturating `u64` sum of a counter and an increment.
pub open spec fn saturating_add(n: nat, k: nat) -> nat {
    if n + k > u64::MAX {
        u64::MAX as nat
    } else {
        n + k
    }
}

/// Effect of feeding chunks one call after another.
pub open spec fn feed_chunks(st: SinkState, cap: nat, chunks: Seq<Seq<u8>>) -> SinkState
    decreases chunks.len(),
{
    if chunks.len() == 0 {
        st
    } else {
        sink_feed(feed_chunks(st, cap, chunks.drop_last()), cap, chunks.last())
    }
}

/// However a stream is cut into calls, a sink ends up as if it had been
/// fed the whole stream in one call.
pub proof fn law_any_chunking(st: SinkState, cap: nat, chunks: Seq<Seq<u8>>)
    ensures
        feed_chunks(st, cap, chunks) == sink_feed(st, cap, chunks.flatten()),
    decreases chunks.len(),
{
    chunks.lemma_flatten_and_flatten_alt_are_equivalent();
    if chunks.len() == 0 {
    } else {
        law_any_chunking(st, cap, chunks.drop_last());
        chunks.drop_last().lemma_flatten_and_flatten_alt_are_equivalent();
        law_feed_chunking(st, cap, chunks.drop_last().flatten(), chunks.last());
    }
}

/// What a sink holds after a drain and then more input: the lines that
/// input completes (joining the unterminated tail kept from before), the
/// newest `cap` of them (all when `cap` is zero), so its pending count is
/// that number of lines capped at `cap`; the older ones are counted as
/// dropped, on top of the count before, saturating.
pub proof fn law_sink_after_drain(st: SinkState, cap: nat, s: Seq<u8>)
    requires
        st.ready.len() == 0,
        st.dropped <= u64::MAX,
    ensures
        ({
            let (lines, tail) = crate::lines::split_events_from(Seq::empty(), st.partial, s);
            let after = sink_feed(st, cap, s);
            &&& after.partial == tail
            &&& after.ready == newest(lines, cap)
            &&& after.ready.len() == if cap == 0 || lines.len() <= cap {
                lines.len()
            } else {
                cap
            }
            &&& after.dropped == saturating_add(st.dropped, evicted(lines.len(), cap))
        }),
    decreases s.len(),
{
    if s.len() == 0 {
        assert(st.ready =~= newest(Seq::empty(), cap));
    } else {
        let p = s.drop_last();
        law_sink_after_drain(st, cap, p);
        let (lines, tail) = crate::lines::split_events_from(Seq::empty(), st.partial, p);
        if s.last() == crate::lines::NEWLINE && tail.len() > 0 {
            let l2 = lines.push(tail);
            let old_ready = newest(lines, cap);
            if cap > 0 && old_ready.len() >= cap {
                assert(lines.len() >= cap);
                assert(newest(l2, cap) =~= old_ready.drop_first().push(tail));
            } else {
                assert(newest(l2, cap) =~= old_ready.push(tail));
            }
        }
    }
}

/// What a sink holds after any number of calls since it was built or last
/// drained: however the input was cut into calls, the unterminated tail
/// and, in stream order, the newest `cap` of the non-empty lines that the
/// calls completed (all of them when `cap` is zero), so that its pending
/// count is that number of lines capped at `cap`; the older lines are
/// counted as dropped, on top of the count before, saturating.
pub proof fn law_sink_calls_after_drain(st: SinkState, cap: nat, chunks: Seq<Seq<u8>>)
    requires
        st.ready.len() == 0,
        st.dropped <= u64::MAX,
    ensures
        ({
            let (lines, tail) = crate::lines::split_events_from(
                Seq::empty(),
                st.partial,
                chunks.flatten(),
            );
            let after = feed_chunks(st, cap, chunks);
            &&& after.partial == tail
            &&& after.ready == newest(lines, cap)
            &&& after.ready.len() == if cap == 0 || lines.len() <= cap {
                lines.len()
            } else {
                cap
            }
            &&& after.dropped == saturating_add(st.dropped, evicted(lines.len(), cap))
        }),
{
    law_any_chunking(st, cap, chunks);
    law_sink_after_drain(st, cap, chunks.flatten());
}

} // verus!
