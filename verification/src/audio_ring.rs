//! Single-producer / single-consumer sample ring. Overruns drop samples
//! (the writer is told how many it got in) and underruns read short;
//! `head` and `tail` count modulo 2^32 so the arithmetic stays wrap-safe.
use vstd::prelude::*;

verus! {

/// 2^32, the modulus of the ring's cursors.
pub open spec fn cursor_modulus() -> int {
    0x1_0000_0000
}

/// Samples the ring accepts from a write of `len` with `free` slots.
pub open spec fn accepted(free: nat, len: nat) -> nat {
    if free < len {
        free
    } else {
        len
    }
}

/// Ring of `capacity` samples, capacity a power of two.
pub struct AudioRing<T> {
    capacity: usize,
    head: u32,
    tail: u32,
    data: Vec<T>,
}

impl<T: Copy + Default> AudioRing<T> {
    /// Fixed number of slots.
    pub closed spec fn capacity_spec(&self) -> nat {
        self.capacity as nat
    }

    /// Samples written but not yet read.
    pub closed spec fn used(&self) -> nat {
        ((self.head as int - self.tail as int) % cursor_modulus()) as nat
    }

    /// Internal consistency of cursors and storage.
    pub closed spec fn wf(&self) -> bool {
        &&& self.capacity > 0
        &&& crate::pow2::is_pow2(self.capacity as nat)
        &&& self.capacity <= u32::MAX / 2
        &&& self.data@.len() == self.capacity
        &&& self.used() <= self.capacity
    }

    /// Unread samples, oldest first.
    pub closed spec fn contents(&self) -> Seq<T> {
        Seq::new(self.used(), |k: int| self.data@[(self.tail as int + k) % (self.capacity as int)])
    }

    /// An empty ring with `capacity` slots.
    pub fn new(capacity: usize) -> (r: AudioRing<T>)
        requires
            capacity > 0,
            crate::pow2::is_pow2(capacity as nat),
            capacity <= u32::MAX / 2,
        ensures
            r.wf(),
            r.capacity_spec() == capacity,
            r.contents() == Seq::<T>::empty(),
    {
        let fill = T::default();
        let data = vec![fill; capacity];
        let r = AudioRing { capacity, head: 0, tail: 0, data };
        assert(r.contents() =~= Seq::<T>::empty());
        r
    }

    /// Number of slots.
    pub fn capacity(&self) -> (c: usize)
        requires
            self.wf(),
        ensures
            c == self.capacity_spec(),
    {
        self.capacity
    }

    /// Samples currently written but not yet read.
    pub fn available_read(&self) -> (n: usize)
        requires
            self.wf(),
        ensures
            n == self.contents().len(),
    {
        let used = self.head.wrapping_sub(self.tail);
        proof {
            self.lemma_used_is_wrapping_sub();
        }
        used as usize
    }

    /// Samples the producer can write before overrunning the consumer.
    pub fn available_write(&self) -> (n: usize)
        requires
            self.wf(),
        ensures
            n == self.capacity_spec() - self.contents().len(),
    {
        self.capacity - self.available_read()
    }

    proof fn lemma_used_is_wrapping_sub(&self)
        requires
            self.wf(),
        ensures
            self.head.wrapping_sub(self.tail) as nat == self.used(),
    {
        lemma_wrap(self.head as int - self.tail as int, cursor_modulus());
    }

    /// Slot of the unread sample `k` positions past `start`.
    proof fn lemma_slot(&self, start: u32, k: int)
        requires
            self.wf(),
            0 <= k,
        ensures
            ((start as int + k) % cursor_modulus()) % (self.capacity as int) == (start as int + k)
                % (self.capacity as int),
    {
        crate::pow2::lemma_pow2_u32_range();
        crate::pow2::lemma_pow2_divides(self.capacity as nat, 0x1_0000_0000);
        let c = self.capacity as int;
        let q = cursor_modulus() / c;
        assert(cursor_modulus() == c * q) by (nonlinear_arith)
            requires
                cursor_modulus() % c == 0,
                c > 0,
                q == cursor_modulus() / c,
        ;
        assert(q > 0) by (nonlinear_arith)
            requires
                cursor_modulus() == c * q,
                c > 0,
        ;
        vstd::arithmetic::div_mod::lemma_mod_mod(start as int + k, c, q);
    }

    /// Write up to `samples.len()` samples; returns how many were
    /// accepted. Never overwrites unread samples.
    pub fn write(&mut self, samples: &[T]) -> (n: usize)
        requires
            old(self).wf(),
        ensures
            final(self).wf(),
            final(self).capacity_spec() == old(self).capacity_spec(),
            n == accepted(
                (old(self).capacity_spec() - old(self).contents().len()) as nat,
                samples@.len(),
            ),
            final(self).contents() == old(self).contents() + samples@.take(n as int),
    {
        proof {
            self.lemma_used_is_wrapping_sub();
        }
        let used = self.head.wrapping_sub(self.tail) as usize;
        let free = self.capacity - used;
        if free == 0 {
            assert(samples@.take(0) =~= Seq::<T>::empty());
            assert(self.contents() + samples@.take(0) =~= self.contents());
            return 0;
        }
        let to_write = if free < samples.len() {
            free
        } else {
            samples.len()
        };
        let cap = self.capacity;
        let write_pos = (self.head % (cap as u32)) as usize;
        let ghost old_contents = self.contents();
        let ghost t = self.tail as int;
        let ghost u = used as int;
        let ghost head0 = self.head;
        let ghost tail0 = self.tail;
        proof {
            self.lemma_slot(self.tail, u);
            lemma_wrap(self.head as int - t, cursor_modulus());
            lemma_wrap(t + u, cursor_modulus());
            assert((self.head as int) == (t + u) % cursor_modulus());
            assert(write_pos as int == (t + u) % (cap as int));
        }
        let mut j: usize = 0;
        while j < to_write
            invariant
                0 <= j <= to_write,
                to_write <= samples@.len(),
                to_write + used <= cap,
                u == used,
                old_contents.len() == u,
                self.head == head0,
                self.tail == tail0,
                t == tail0 as int,
                head0 as int == (t + u) % cursor_modulus(),
                crate::pow2::is_pow2(cap as nat),
                cap <= u32::MAX / 2,
                cap == self.capacity,
                self.data@.len() == cap,
                cap > 0,
                write_pos < cap,
                write_pos as int == (t + u) % (cap as int),
                forall|k: int|
                    0 <= k < u ==> #[trigger] self.data@[(t + k) % (cap as int)] == old_contents[k],
                forall|k: int|
                    0 <= k < j ==> #[trigger] self.data@[(t + u + k) % (cap as int)]
                        == samples@[k],
            decreases to_write - j,
        {
            let idx = (write_pos + j) % cap;
            proof {
                assert(idx as int == (t + u + j) % (cap as int)) by {
                    vstd::arithmetic::div_mod::lemma_add_mod_noop(t + u, j as int, cap as int);
                    vstd::arithmetic::div_mod::lemma_mod_twice(t + u, cap as int);
                    vstd::arithmetic::div_mod::lemma_add_mod_noop(write_pos as int, j as int, cap as int);
                }
            }
            let ghost prev = self.data@;
            self.data.set(idx, samples[j]);
            proof {
                assert forall|k: int| 0 <= k < u implies #[trigger] self.data@[(t + k) % (cap
                    as int)] == old_contents[k] by {
                    lemma_distinct_slots(t + k, t + u + j, cap as int);
                    assert(prev[(t + k) % (cap as int)] == old_contents[k]);
                }
                assert forall|k: int| 0 <= k < j + 1 implies #[trigger] self.data@[(t + u + k) % (
                cap as int)] == samples@[k] by {
                    if k < j {
                        lemma_distinct_slots(t + u + k, t + u + j, cap as int);
                        assert(prev[(t + u + k) % (cap as int)] == samples@[k]);
                    }
                }
            }
            j = j + 1;
        }
        self.head = self.head.wrapping_add(to_write as u32);
        proof {
            lemma_wrap(t + u, cursor_modulus());
            lemma_wrap(t + u + to_write, cursor_modulus());
            lemma_wrap(self.head as int - t, cursor_modulus());
            assert(self.used() == u + to_write);
            assert forall|k: int| 0 <= k < self.used() implies #[trigger] self.contents()[k]
                == (old_contents + samples@.take(to_write as int))[k] by {
                if k >= u {
                    assert(self.data@[(t + u + (k - u)) % (cap as int)] == samples@[k - u]);
                    assert(t + u + (k - u) == t + k);
                }
            }
            assert(self.contents() =~= old_contents + samples@.take(to_write as int));
        }
        to_write
    }

    /// Read up to `out.len()` samples into `out`; returns how many were
    /// copied. Slots of `out` past that count are left as they were.
    pub fn read(&mut self, out: &mut [T]) -> (n: usize)
        requires
            old(self).wf(),
        ensures
            final(self).wf(),
            final(self).capacity_spec() == old(self).capacity_spec(),
            n == accepted(old(self).contents().len(), old(out)@.len()),
            final(out)@.len() == old(out)@.len(),
            final(out)@.take(n as int) == old(self).contents().take(n as int),
            final(out)@.skip(n as int) == old(out)@.skip(n as int),
            final(self).contents() == old(self).contents().skip(n as int),
    {
        proof {
            self.lemma_used_is_wrapping_sub();
        }
        let avail = self.head.wrapping_sub(self.tail) as usize;
        if avail == 0 {
            assert(out@.take(0) =~= self.contents().take(0));
            assert(self.contents().skip(0) =~= self.contents());
            return 0;
        }
        let to_read = if avail < out.len() {
            avail
        } else {
            out.len()
        };
        let cap = self.capacity;
        let read_pos = (self.tail % (cap as u32)) as usize;
        let ghost old_contents = self.contents();
        let ghost old_out = out@;
        let ghost t = self.tail as int;
        let ghost u = avail as int;
        let ghost head0 = self.head;
        let ghost tail0 = self.tail;
        proof {
            lemma_wrap(self.head as int - self.tail as int, cursor_modulus());
            vstd::arithmetic::div_mod::lemma_small_mod(self.tail as nat, cursor_modulus() as nat);
            self.lemma_slot(self.tail, 0);
        }
        let mut j: usize = 0;
        while j < to_read
            invariant
                0 <= j <= to_read,
                to_read <= u,
                to_read <= old_out.len(),
                out@.len() == old_out.len(),
                self.head == head0,
                self.tail == tail0,
                t == tail0 as int,
                u == avail,
                u <= cap,
                crate::pow2::is_pow2(cap as nat),
                (head0 as int - t) % cursor_modulus() == u,
                cap <= u32::MAX / 2,
                cap == self.capacity,
                self.data@.len() == cap,
                cap > 0,
                read_pos < cap,
                read_pos as int == t % (cap as int),
                old_contents.len() == u,
                forall|k: int|
                    0 <= k < u ==> #[trigger] self.data@[(t + k) % (cap as int)] == old_contents[k],
                forall|k: int| 0 <= k < j ==> #[trigger] out@[k] == old_contents[k],
                forall|k: int| j <= k < out@.len() ==> #[trigger] out@[k] == old_out[k],
            decreases to_read - j,
        {
            let idx = (read_pos + j) % cap;
            proof {
                assert(idx as int == (t + j) % (cap as int)) by {
                    vstd::arithmetic::div_mod::lemma_add_mod_noop(t, j as int, cap as int);
                    vstd::arithmetic::div_mod::lemma_mod_twice(t, cap as int);
                    vstd::arithmetic::div_mod::lemma_add_mod_noop(read_pos as int, j as int, cap as int);
                }
                assert(self.data@[(t + j) % (cap as int)] == old_contents[j as int]);
            }
            out[j] = self.data[idx];
            j = j + 1;
        }
        self.tail = self.tail.wrapping_add(to_read as u32);
        proof {
            lemma_wrap(t + to_read, cursor_modulus());
            lemma_wrap(self.head as int - t, cursor_modulus());
            lemma_wrap(self.head as int - self.tail as int, cursor_modulus());
            assert(self.used() == u - to_read);
            assert forall|k: int| 0 <= k < self.used() implies #[trigger] self.contents()[k]
                == old_contents.skip(to_read as int)[k] by {
                self.lemma_slot(self.tail, k);
                assert(self.tail as int == (t + to_read) % cursor_modulus());
                crate::pow2::lemma_pow2_u32_range();
                crate::pow2::lemma_pow2_divides(cap as nat, 0x1_0000_0000);
                lemma_mod_shift(t + to_read, k, cursor_modulus(), cap as int, self.tail as int);
                assert(self.data@[(t + (to_read + k)) % (cap as int)] == old_contents[to_read + k]);
                assert(t + (to_read + k) == t + to_read + k);
            }
            assert(self.contents() =~= old_contents.skip(to_read as int));
            assert(out@.take(to_read as int) =~= old_contents.take(to_read as int));
            assert(out@.skip(to_read as int) =~= old_out.skip(to_read as int));
        }
        to_read
    }

    /// Empty the ring.
    pub fn reset(&mut self)
        requires
            old(self).wf(),
        ensures
            final(self).wf(),
            final(self).capacity_spec() == old(self).capacity_spec(),
            final(self).contents() == Seq::<T>::empty(),
    {
        self.head = 0;
        self.tail = 0;
        assert(self.contents() =~= Seq::<T>::empty());
    }
}

/// Reduction of a value within one modulus of the range `[0, m)`.
proof fn lemma_wrap(x: int, m: int)
    requires
        m > 0,
        -m <= x < 2 * m,
    ensures
        x % m == if x < 0 {
            x + m
        } else if x >= m {
            x - m
        } else {
            x
        },
{
    if x < 0 {
        vstd::arithmetic::div_mod::lemma_small_mod((x + m) as nat, m as nat);
        vstd::arithmetic::div_mod::lemma_mod_add_multiples_vanish(x, m);
    } else if x >= m {
        vstd::arithmetic::div_mod::lemma_small_mod((x - m) as nat, m as nat);
        vstd::arithmetic::div_mod::lemma_mod_sub_multiples_vanish(x, m);
    } else {
        vstd::arithmetic::div_mod::lemma_small_mod(x as nat, m as nat);
    }
}

/// Two positions less than `m` apart fall in different slots.
proof fn lemma_distinct_slots(a: int, b: int, m: int)
    requires
        m > 0,
        a < b,
        b - a < m,
    ensures
        a % m != b % m,
{
    vstd::arithmetic::div_mod::lemma_fundamental_div_mod(a, m);
    vstd::arithmetic::div_mod::lemma_fundamental_div_mod(b, m);
    if a % m == b % m {
        assert(b - a == m * (b / m - a / m)) by (nonlinear_arith)
            requires
                a == m * (a / m) + a % m,
                b == m * (b / m) + b % m,
                a % m == b % m,
        ;
        assert(false) by (nonlinear_arith)
            requires
                b - a == m * (b / m - a / m),
                0 < b - a < m,
                m > 0,
        ;
    }
}

/// Reducing a position modulo the cursor modulus first keeps its slot.
proof fn lemma_mod_shift(x: int, k: int, big: int, m: int, reduced: int)
    requires
        m > 0,
        big > 0,
        big % m == 0,
        reduced == x % big,
        0 <= k,
        0 <= x,
    ensures
        (reduced + k) % m == (x + k) % m,
{
    let q = big / m;
    assert(big == m * q) by (nonlinear_arith)
        requires
            big % m == 0,
            m > 0,
            q == big / m,
    ;
    vstd::arithmetic::div_mod::lemma_fundamental_div_mod(x, big);
    let d = x / big;
    assert(x + k == reduced + k + m * (q * d)) by (nonlinear_arith)
        requires
            x == big * d + reduced,
            big == m * q,
    ;
    vstd::arithmetic::div_mod::lemma_mod_multiples_vanish(q * d, reduced + k, m);
}

/// Ring contents are first-in, first-out: whatever a write accepts is
/// appended after the unread samples, and a read hands back the oldest
/// samples and removes exactly those. Writing `x` into an empty ring and
/// reading with room for all of it returns the accepted prefix of `x`.
pub proof fn law_ring_fifo_round_trip<T>(x: Seq<T>, cap: nat, room: nat)
    requires
        room >= accepted(cap, x.len()),
    ensures
        ({
            let n = accepted(cap, x.len());
            let after_write = Seq::<T>::empty() + x.take(n as int);
            let m = accepted(after_write.len(), room);
            &&& m == n
            &&& after_write.take(m as int) == x.take(n as int)
            &&& after_write.skip(m as int) == Seq::<T>::empty()
        }),
{
    let n = accepted(cap, x.len());
    let after_write = Seq::<T>::empty() + x.take(n as int);
    assert(after_write =~= x.take(n as int));
    assert(after_write.take(n as int) =~= x.take(n as int));
    assert(after_write.skip(n as int) =~= Seq::<T>::empty());
}

/// One call on a ring: a write of these samples, or a read with room for
/// this many.
pub enum RingOp<T> {
    Write(Seq<T>),
    Read(nat),
}

/// A run of calls on a ring of `cap` slots holding `start`, each call
/// acting as `write` and `read` state: `(contents, accepted, read)` with
/// the unread samples at the end, everything the writes accepted and
/// everything the reads handed back, in order.
pub open spec fn ring_run<T>(cap: nat, start: Seq<T>, ops: Seq<RingOp<T>>) -> (Seq<T>, Seq<T>, Seq<T>)
    decreases ops.len(),
{
    if ops.len() == 0 {
        (start, Seq::empty(), Seq::empty())
    } else {
        let (c, w, r) = ring_run(cap, start, ops.drop_last());
        match ops.last() {
            RingOp::Write(x) => {
                let n = accepted((cap - c.len()) as nat, x.len());
                (c + x.take(n as int), w + x.take(n as int), r)
            },
            RingOp::Read(room) => {
                let n = accepted(c.len(), room);
                (c.skip(n as int), w, r + c.take(n as int))
            },
        }
    }
}

/// First in, first out over any interleaving of writes and reads: what
/// the reads hand back, followed by what is still unread, is what the
/// ring held at the start followed by everything the writes accepted.
/// From an empty ring the reads thus return a prefix of the accepted
/// samples, nothing invented, lost or reordered, and the ring never holds
/// more than its capacity.
pub proof fn law_ring_fifo_any_interleaving<T>(cap: nat, start: Seq<T>, ops: Seq<RingOp<T>>)
    requires
        start.len() <= cap,
    ensures
        ({
            let (c, w, r) = ring_run(cap, start, ops);
            &&& r + c == start + w
            &&& c.len() <= cap
            &&& start.len() == 0 ==> r == w.take(r.len() as int)
        }),
    decreases ops.len(),
{
    if ops.len() > 0 {
        law_ring_fifo_any_interleaving(cap, start, ops.drop_last());
        let (c, w, r) = ring_run(cap, start, ops.drop_last());
        match ops.last() {
            RingOp::Write(x) => {
                let n = accepted((cap - c.len()) as nat, x.len());
                assert(r + (c + x.take(n as int)) =~= (start + w) + x.take(n as int));
                assert(start + (w + x.take(n as int)) =~= (start + w) + x.take(n as int));
            },
            RingOp::Read(room) => {
                let n = accepted(c.len(), room);
                assert((r + c.take(n as int)) + c.skip(n as int) =~= r + c);
            },
        }
    }
    let (c, w, r) = ring_run(cap, start, ops);
    if start.len() == 0 {
        assert(start + w =~= w);
        assert((r + c).take(r.len() as int) =~= r);
    }
}

} // verus!
