//! `AudioSink` — terminal for demodulated audio: samples go into an
//! internal ring that a playback clock drains; overflow is counted and
//! dropped rather than back-pressuring the pipeline.
use vstd::prelude::*;
use crate::audio_ring::AudioRing;

verus! {

/// Default ring capacity in samples.
pub const DEFAULT_BUFFER_SAMPLES: usize = 8192;

/// Construction parameters of an [`AudioSink`].
#[derive(Debug, Clone, Copy)]
pub struct AudioSinkParams {
    /// Capacity in samples: the most the sink holds unread. Any size is
    /// accepted; the ring behind it is the next power of two.
    pub buffer_samples: usize,
}

impl Default for AudioSinkParams {
    fn default() -> (p: AudioSinkParams)
        ensures
            p.buffer_samples == DEFAULT_BUFFER_SAMPLES,
    {
        AudioSinkParams { buffer_samples: DEFAULT_BUFFER_SAMPLES }
    }
}

/// How many of `len` samples a sink of capacity `limit` accepts when its
/// ring of `ring_cap` slots holds `used` unread: what fits under the
/// capacity and in the ring.
pub open spec fn sink_accepts(limit: nat, ring_cap: nat, used: nat, len: nat) -> nat {
    let room = if used < limit {
        (limit - used) as nat
    } else {
        0
    };
    let ring_free = (ring_cap - used) as nat;
    crate::audio_ring::accepted(ring_free, crate::audio_ring::accepted(room, len))
}

/// Audio terminal: a ring plus a count of samples dropped on overflow.
pub struct AudioSink<T> {
    params: AudioSinkParams,
    ring: AudioRing<T>,
    dropped_samples: u64,
}

impl<T: Copy + Default> AudioSink<T> {
    /// The sink's ring.
    pub closed spec fn ring_spec(&self) -> AudioRing<T> {
        self.ring
    }

    /// Samples dropped so far because the ring was full.
    pub closed spec fn dropped_spec(&self) -> nat {
        self.dropped_samples as nat
    }

    /// The parameters the sink was built with.
    pub closed spec fn params_spec(&self) -> AudioSinkParams {
        self.params
    }

    /// An empty sink holding up to `params.buffer_samples` samples, over a
    /// ring of the smallest power of two at least that large (the ring's
    /// cursors count modulo 2^32, which bounds the size).
    pub fn new(params: AudioSinkParams) -> (s: AudioSink<T>)
        requires
            params.buffer_samples <= 0x4000_0000,
        ensures
            s.ring_spec().wf(),
            crate::pow2::is_pow2(s.ring_spec().capacity_spec()),
            s.ring_spec().capacity_spec() >= params.buffer_samples,
            s.ring_spec().capacity_spec() == 1 || s.ring_spec().capacity_spec() / 2
                < params.buffer_samples,
            s.ring_spec().contents() == Seq::<T>::empty(),
            s.dropped_spec() == 0,
            s.params_spec() == params,
    {
        let cap = crate::pow2::power_of_two_at_least(params.buffer_samples);
        let ring = AudioRing::new(cap);
        AudioSink { params, ring, dropped_samples: 0 }
    }

    /// Cumulative count of samples dropped because the ring was full.
    pub fn dropped_samples(&self) -> (n: u64)
        ensures
            n == self.dropped_spec(),
    {
        self.dropped_samples
    }

    /// The ring, for the host to drain.
    pub fn ring_mut(&mut self) -> (r: &mut AudioRing<T>)
        ensures
            *r == old(self).ring_spec(),
            final(self).ring_spec() == *final(r),
            final(self).dropped_spec() == old(self).dropped_spec(),
            final(self).params_spec() == old(self).params_spec(),
    {
        &mut self.ring
    }

    /// The parameters the sink was built with.
    pub fn params(&self) -> (p: &AudioSinkParams)
        ensures
            *p == self.params_spec(),
    {
        &self.params
    }

    /// Start of a run: empty the ring and clear the drop count.
    pub fn init(&mut self)
        requires
            old(self).ring_spec().wf(),
        ensures
            final(self).ring_spec().wf(),
            final(self).ring_spec().capacity_spec() == old(self).ring_spec().capacity_spec(),
            final(self).ring_spec().contents() == Seq::<T>::empty(),
            final(self).dropped_spec() == 0,
            final(self).params_spec() == old(self).params_spec(),
    {
        self.ring.reset();
        self.dropped_samples = 0;
    }

    /// One tick: write into the ring what fits under the sink's capacity
    /// (`buffer_samples` unread at most) and in the ring. The whole input
    /// is reported consumed; what did not fit is dropped and counted.
    pub fn process(&mut self, samples: &[T]) -> (consumed: usize)
        requires
            old(self).ring_spec().wf(),
            old(self).dropped_spec() + samples@.len() <= u64::MAX,
        ensures
            consumed == samples@.len(),
            final(self).ring_spec().wf(),
            final(self).ring_spec().capacity_spec() == old(self).ring_spec().capacity_spec(),
            ({
                let used = old(self).ring_spec().contents().len();
                let n = sink_accepts(
                    old(self).params_spec().buffer_samples as nat,
                    old(self).ring_spec().capacity_spec(),
                    used,
                    samples@.len(),
                );
                &&& final(self).ring_spec().contents() == old(self).ring_spec().contents()
                    + samples@.take(n as int)
                &&& final(self).dropped_spec() == old(self).dropped_spec() + (samples@.len() - n)
            }),
            final(self).params_spec() == old(self).params_spec(),
    {
        let used = self.ring.available_read();
        let limit = self.params.buffer_samples;
        let room = if used < limit {
            limit - used
        } else {
            0
        };
        let take = if room < samples.len() {
            room
        } else {
            samples.len()
        };
        let part = vstd::slice::slice_subrange(samples, 0, take);
        let written = self.ring.write(part);
        assert(part@.take(written as int) =~= samples@.take(written as int));
        if written < samples.len() {
            self.dropped_samples = self.dropped_samples + (samples.len() - written) as u64;
        }
        samples.len()
    }

    /// End of a run: empty the ring.
    pub fn stop(&mut self)
        requires
            old(self).ring_spec().wf(),
        ensures
            final(self).ring_spec().wf(),
            final(self).ring_spec().capacity_spec() == old(self).ring_spec().capacity_spec(),
            final(self).ring_spec().contents() == Seq::<T>::empty(),
            final(self).dropped_spec() == old(self).dropped_spec(),
            final(self).params_spec() == old(self).params_spec(),
    {
        self.ring.reset();
    }
}

} // verus!
