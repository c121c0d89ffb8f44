//! `EventStore` — terminal sink for `events` ports that feeds a decoder
//! store. Complete newline-delimited records are handed on to the
//! attached store (the caller pushes them through its sink) or, with no
//! store attached, buffered until drained.
use vstd::prelude::*;
use crate::lines::NEWLINE;

verus! {

/// Construction parameters of an [`EventStore`].
#[derive(Debug, Clone)]
pub struct EventStoreParams {
    /// Store kind this sink feeds (e.g. `adsb`, `aprs`, `ft8`).
    pub kind: String,
    /// Clear the kind when a store is attached, so a new decode session
    /// starts clean.
    pub reset_on_init: bool,
}

impl Default for EventStoreParams {
    fn default() -> (p: EventStoreParams)
        ensures
            p.kind@ == Seq::<char>::empty(),
            p.reset_on_init,
    {
        EventStoreParams { kind: String::new(), reset_on_init: true }
    }
}

/// Abstract state of an event store.
#[verifier::ext_equal]
pub struct StoreState {
    /// Whether a store sink is attached.
    pub attached: bool,
    /// Bytes received after the last newline.
    pub partial: Seq<u8>,
    /// Complete lines buffered for drain (no store attached).
    pub ready: Seq<Seq<u8>>,
}

/// Terminal sink for decoder `events` ports.
pub struct EventStore {
    params: EventStoreParams,
    attached: bool,
    partial: Vec<u8>,
    ready: Vec<Vec<u8>>,
}

impl View for EventStore {
    type V = StoreState;

    closed spec fn view(&self) -> StoreState {
        StoreState {
            attached: self.attached,
            partial: self.partial@,
            ready: self.ready@.map_values(|v: Vec<u8>| v@),
        }
    }
}

impl EventStore {
    /// The store kind this sink feeds.
    pub closed spec fn kind_spec(&self) -> Seq<char> {
        self.params.kind@
    }

    /// Whether attaching a store resets its kind first.
    pub closed spec fn resets_on_attach(&self) -> bool {
        self.params.reset_on_init
    }

    /// A sink with no store attached and nothing buffered.
    pub fn new(params: EventStoreParams) -> (s: EventStore)
        ensures
            s@ == (StoreState { attached: false, partial: Seq::empty(), ready: Seq::empty() }),
            s.kind_spec() == params.kind@,
            s.resets_on_attach() == params.reset_on_init,
    {
        let s = EventStore { params, attached: false, partial: Vec::new(), ready: Vec::new() };
        assert(s@ =~= (StoreState { attached: false, partial: Seq::empty(), ready: Seq::empty() }));
        s
    }

    /// The store kind this sink feeds.
    pub fn kind(&self) -> (k: &str)
        ensures
            k@ == self.kind_spec(),
    {
        self.params.kind.as_str()
    }

    /// Mark a store as attached. Returns whether the caller must first
    /// reset the store's state for this kind (a fresh decode session).
    pub fn attach_store(&mut self) -> (reset_first: bool)
        ensures
            reset_first == old(self).resets_on_attach(),
            final(self)@ == (StoreState { attached: true, ..old(self)@ }),
            final(self).kind_spec() == old(self).kind_spec(),
            final(self).resets_on_attach() == old(self).resets_on_attach(),
    {
        self.attached = true;
        self.params.reset_on_init
    }

    /// Take the lines buffered while no store was attached.
    pub fn drain_events(&mut self) -> (events: Vec<Vec<u8>>)
        ensures
            events@.map_values(|v: Vec<u8>| v@) == old(self)@.ready,
            final(self)@ == (StoreState { ready: Seq::empty(), ..old(self)@ }),
            final(self).kind_spec() == old(self).kind_spec(),
            final(self).resets_on_attach() == old(self).resets_on_attach(),
    {
        let mut taken: Vec<Vec<u8>> = Vec::new();
        core::mem::swap(&mut taken, &mut self.ready);
        assert(self.ready@.map_values(|v: Vec<u8>| v@) =~= Seq::<Seq<u8>>::empty());
        taken
    }

    /// Consume a chunk of the events stream. Every byte is consumed; the
    /// lines it completes are returned for the attached store to ingest,
    /// or buffered for drain when no store is attached.
    pub fn process(&mut self, bytes: &[u8]) -> (forward: Vec<Vec<u8>>)
        ensures
            final(self)@.attached == old(self)@.attached,
            final(self)@.partial == crate::lines::split_events_from(
                Seq::empty(),
                old(self)@.partial,
                bytes@,
            ).1,
            old(self)@.attached ==> forward@.map_values(|v: Vec<u8>| v@)
                == crate::lines::split_events_from(Seq::empty(), old(self)@.partial, bytes@).0
                && final(self)@.ready == old(self)@.ready,
            !old(self)@.attached ==> forward@.len() == 0 && final(self)@.ready
                == crate::lines::split_events_from(old(self)@.ready, old(self)@.partial, bytes@).0,
            final(self).kind_spec() == old(self).kind_spec(),
            final(self).resets_on_attach() == old(self).resets_on_attach(),
    {
        let mut forward: Vec<Vec<u8>> = Vec::new();
        let n = bytes.len();
        let mut i: usize = 0;
        while i < n
            invariant
                n == bytes@.len(),
                0 <= i <= n,
                self.params == old(self).params,
                self.attached == old(self).attached,
                self.partial@ == crate::lines::split_events_from(
                    Seq::empty(),
                    old(self)@.partial,
                    bytes@.take(i as int),
                ).1,
                self.attached ==> forward@.map_values(|v: Vec<u8>| v@)
                    == crate::lines::split_events_from(
                    Seq::empty(),
                    old(self)@.partial,
                    bytes@.take(i as int),
                ).0 && self@.ready == old(self)@.ready,
                !self.attached ==> forward@.len() == 0 && self@.ready
                    == crate::lines::split_events_from(
                    old(self)@.ready,
                    old(self)@.partial,
                    bytes@.take(i as int),
                ).0,
            decreases n - i,
        {
            proof {
                crate::lines::lemma_split_from_prefix(
                    old(self)@.ready,
                    old(self)@.partial,
                    bytes@.take(i as int),
                );
                crate::lines::lemma_split_from_prefix(
                    old(self)@.ready,
                    old(self)@.partial,
                    bytes@.take(i + 1),
                );
            }
            let b = bytes[i];
            assert(bytes@.take(i + 1).drop_last() =~= bytes@.take(i as int));
            if b == NEWLINE {
                let mut done: Vec<u8> = Vec::new();
                core::mem::swap(&mut done, &mut self.partial);
                if done.len() > 0 {
                    if self.attached {
                        let ghost f0 = forward@.map_values(|v: Vec<u8>| v@);
                        forward.push(done);
                        assert(forward@.map_values(|v: Vec<u8>| v@) =~= f0.push(done@));
                    } else {
                        let ghost r0 = self@.ready;
                        self.ready.push(done);
                        assert(self@.ready =~= r0.push(done@));
                    }
                }
            } else {
                self.partial.push(b);
            }
            i = i + 1;
        }
        assert(bytes@.take(n as int) =~= bytes@);
        forward
    }
}

/// Records that straddle calls reassemble: feeding a freshly attached
/// store two chunks forwards, across both calls, exactly the complete
/// non-empty lines of the joined stream, and keeps its unterminated tail.
pub proof fn law_store_forwards_complete_lines(a: Seq<u8>, b: Seq<u8>)
    ensures
        ({
            let first = crate::lines::split_events_from(Seq::empty(), Seq::empty(), a);
            let second = crate::lines::split_events_from(Seq::empty(), first.1, b);
            &&& first.0 + second.0 == crate::lines::complete_lines(a + b)
            &&& second.1 == crate::lines::unterminated_tail(a + b)
        }),
{
    let first = crate::lines::split_events_from(Seq::empty(), Seq::empty(), a);
    crate::lines::lemma_split_from_append(Seq::empty(), Seq::empty(), a, b);
    crate::lines::lemma_split_from_prefix(first.0, first.1, b);
    crate::lines::lemma_split_from_empty(a + b);
}

} // verus!
