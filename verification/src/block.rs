//! Block descriptors shared between block authors and the scheduler:
//! placement, port types, reconfigure scopes and per-call work tallies.
use vstd::prelude::*;
use vstd::string::StringSliceAdditionalSpecFns;

verus! {

/// Where a block instance may run.
#[derive(Debug, Clone, Copy, PartialEq, Eq, Structural)]
pub enum Placement {
    Either,
    NativeOnly,
    WasmOnly,
}

/// The sample-stream kind a port carries.
#[derive(Debug, Clone, Copy, PartialEq, Eq, Structural)]
pub enum PortType {
    /// Complex 32-bit float, interleaved I,Q.
    IqF32,
    /// Complex 16-bit int, interleaved I,Q.
    IqS16,
    /// Real 32-bit float.
    RealF32,
    /// Real 16-bit int.
    RealI16,
    /// FFT magnitude bins, 32-bit float.
    FftF32,
    /// FFT magnitude bins, `u8`.
    FftU8,
    /// Packed bit stream.
    Bits,
    /// Discrete framed packets.
    Frames,
    /// Structured JSON events.
    Events,
}

/// Bytes per sample element on a port of the given type.
pub open spec fn element_size_spec(t: PortType) -> nat {
    match t {
        PortType::IqF32 => 8,
        PortType::IqS16 | PortType::RealF32 | PortType::FftF32 => 4,
        PortType::RealI16 => 2,
        PortType::FftU8 | PortType::Bits | PortType::Frames | PortType::Events => 1,
    }
}

impl PortType {
    /// Bytes per sample element on this port.
    pub fn element_size(self) -> (n: usize)
        ensures
            n == element_size_spec(self),
    {
        match self {
            PortType::IqF32 => 8,
            PortType::IqS16 | PortType::RealF32 | PortType::FftF32 => 4,
            PortType::RealI16 => 2,
            PortType::FftU8 | PortType::Bits | PortType::Frames | PortType::Events => 1,
        }
    }
}

/// One input or output port on a block.
#[derive(Debug, Clone, Copy)]
pub struct PortSpec {
    pub name: &'static str,
    pub port_type: PortType,
}

/// Scope of runtime action required when a parameter changes while the
/// graph is running, from cheapest to most disruptive.
#[derive(Debug, Clone, Copy, PartialEq, Eq, Hash, Structural)]
pub enum ReconfigureScope {
    /// Apply in place inside the owning block.
    SelfBlock,
    /// Re-initialise the owning block and everything downstream.
    Downstream,
    /// Tear down and re-open the source end of the graph.
    SourceRestart,
}

/// Position of a scope in the cheapest-to-most-disruptive order.
pub open spec fn scope_cost(s: ReconfigureScope) -> nat {
    match s {
        ReconfigureScope::SelfBlock => 0,
        ReconfigureScope::Downstream => 1,
        ReconfigureScope::SourceRestart => 2,
    }
}

/// Wire-format tag of a scope.
pub open spec fn scope_wire(s: ReconfigureScope) -> Seq<char> {
    match s {
        ReconfigureScope::SelfBlock => seq!['s', 'e', 'l', 'f'],
        ReconfigureScope::Downstream => seq!['d', 'o', 'w', 'n', 's', 't', 'r', 'e', 'a', 'm'],
        ReconfigureScope::SourceRestart => seq![
            's', 'o', 'u', 'r', 'c', 'e', 'R', 'e', 's', 't', 'a', 'r', 't'
        ],
    }
}

/// The scope that covers both: the costlier one, the left one on a tie.
pub open spec fn scope_merge(a: ReconfigureScope, b: ReconfigureScope) -> ReconfigureScope {
    if scope_cost(a) >= scope_cost(b) {
        a
    } else {
        b
    }
}

/// Whether `s` is the byte string `lit`.
fn bytes_are(s: &[u8], lit: &[u8]) -> (r: bool)
    ensures
        r == (s@ == lit@),
{
    if s.len() != lit.len() {
        return false;
    }
    let mut i: usize = 0;
    while i < s.len()
        invariant
            s@.len() == lit@.len(),
            0 <= i <= s@.len(),
            forall|j: int| 0 <= j < i ==> s@[j] == lit@[j],
        decreases s@.len() - i,
    {
        if s[i] != lit[i] {
            return false;
        }
        i = i + 1;
    }
    assert(s@ =~= lit@);
    true
}

impl ReconfigureScope {
    /// Wire-format tag emitted in the capability schema.
    pub fn as_wire_str(self) -> (s: &'static str)
        ensures
            s@ == scope_wire(self),
    {
        match self {
            ReconfigureScope::SelfBlock => {
                proof {
                    reveal_strlit("self");
                }
                "self"
            },
            ReconfigureScope::Downstream => {
                proof {
                    reveal_strlit("downstream");
                }
                "downstream"
            },
            ReconfigureScope::SourceRestart => {
                proof {
                    reveal_strlit("sourceRestart");
                }
                "sourceRestart"
            },
        }
    }

    /// Parse the wire-format tag; `None` on anything else.
    pub fn from_wire_str(s: &str) -> (r: Option<ReconfigureScope>)
        ensures
            r matches Some(x) ==> scope_wire(x) == s@,
            r is None ==> forall|x: ReconfigureScope| scope_wire(x) != s@,
    {
        proof {
            reveal_strlit("self");
            reveal_strlit("downstream");
            reveal_strlit("sourceRestart");
        }
        let b = s.as_bytes();
        if bytes_are(b, "self".as_bytes()) {
            proof {
                lemma_bytes_determine_str(s, "self");
            }
            Some(ReconfigureScope::SelfBlock)
        } else if bytes_are(b, "downstream".as_bytes()) {
            proof {
                lemma_bytes_determine_str(s, "downstream");
            }
            Some(ReconfigureScope::Downstream)
        } else if bytes_are(b, "sourceRestart".as_bytes()) {
            proof {
                lemma_bytes_determine_str(s, "sourceRestart");
            }
            Some(ReconfigureScope::SourceRestart)
        } else {
            proof {
                lemma_bytes_of_equal_strs(s, "self");
                lemma_bytes_of_equal_strs(s, "downstream");
                lemma_bytes_of_equal_strs(s, "sourceRestart");
                assert("self"@ =~= scope_wire(ReconfigureScope::SelfBlock));
                assert("downstream"@ =~= scope_wire(ReconfigureScope::Downstream));
                assert("sourceRestart"@ =~= scope_wire(ReconfigureScope::SourceRestart));
            }
            None
        }
    }

    /// Ordering of scopes from cheapest to most disruptive.
    pub fn cost(self) -> (c: u8)
        ensures
            c == scope_cost(self),
    {
        match self {
            ReconfigureScope::SelfBlock => 0,
            ReconfigureScope::Downstream => 1,
            ReconfigureScope::SourceRestart => 2,
        }
    }

    /// Combine two scopes into the one that covers both.
    pub fn merge(self, other: ReconfigureScope) -> (m: ReconfigureScope)
        ensures
            m == scope_merge(self, other),
    {
        if self.cost() >= other.cost() {
            self
        } else {
            other
        }
    }
}

impl Default for ReconfigureScope {
    /// Conservative default: the most disruptive scope.
    fn default() -> (s: ReconfigureScope)
        ensures
            s == ReconfigureScope::SourceRestart,
    {
        ReconfigureScope::SourceRestart
    }
}

/// Equal strings have equal encodings.
proof fn lemma_bytes_of_equal_strs(a: &str, b: &str)
    ensures
        a@ == b@ ==> a.spec_bytes() == b.spec_bytes(),
{
}

/// Two strings with the same encoding are equal.
pub proof fn lemma_bytes_determine_str(a: &str, b: &str)
    requires
        a.spec_bytes() == b.spec_bytes(),
    ensures
        a@ == b@,
{
    vstd::utf8::encode_utf8_decode_utf8(a@);
    vstd::utf8::encode_utf8_decode_utf8(b@);
}

/// Maximum input/output ports a single block may declare.
pub const MAX_PORTS: usize = 8;

/// Items consumed on each input port and produced on each output port
/// during one `process` call, in port declaration order.
#[derive(Debug, Clone, Copy, Default)]
pub struct Work {
    pub consumed: [usize; 8],
    pub produced: [usize; 8],
}

impl Work {
    /// An all-zero tally.
    pub fn new() -> (w: Work)
        ensures
            forall|i: int| 0 <= i < 8 ==> w.consumed@[i] == 0 && w.produced@[i] == 0,
    {
        Work { consumed: [0; 8], produced: [0; 8] }
    }
}

} // verus!

verus! {

/// A scope's wire tag names it alone: two scopes with the same tag are
/// the same scope, so parsing a scope's own tag gives it back.
pub proof fn law_wire_tag_round_trip(a: ReconfigureScope, b: ReconfigureScope)
    ensures
        scope_wire(a) == scope_wire(b) ==> a == b,
{
    if scope_wire(a) == scope_wire(b) {
        match a {
            ReconfigureScope::SelfBlock => {
                assert(scope_wire(a).len() == 4);
            },
            ReconfigureScope::Downstream => {
                assert(scope_wire(a).len() == 10);
            },
            ReconfigureScope::SourceRestart => {
                assert(scope_wire(a).len() == 13);
            },
        }
        match b {
            ReconfigureScope::SelfBlock => {
                assert(scope_wire(b).len() == 4);
            },
            ReconfigureScope::Downstream => {
                assert(scope_wire(b).len() == 10);
            },
            ReconfigureScope::SourceRestart => {
                assert(scope_wire(b).len() == 13);
            },
        }
    }
}

/// Costs are strictly ordered `SelfBlock < Downstream < SourceRestart`,
/// and no two scopes share a cost.
pub proof fn law_cost_strictly_ordered(a: ReconfigureScope, b: ReconfigureScope)
    ensures
        scope_cost(ReconfigureScope::SelfBlock) < scope_cost(ReconfigureScope::Downstream),
        scope_cost(ReconfigureScope::Downstream) < scope_cost(ReconfigureScope::SourceRestart),
        scope_cost(a) == scope_cost(b) ==> a == b,
{
}

/// Merging covers both inputs: the result is one of them, at least as
/// costly as each, and exactly as costly as the costlier one.
pub proof fn law_merge_covers_both(a: ReconfigureScope, b: ReconfigureScope)
    ensures
        scope_merge(a, b) == a || scope_merge(a, b) == b,
        scope_cost(scope_merge(a, b)) >= scope_cost(a),
        scope_cost(scope_merge(a, b)) >= scope_cost(b),
        scope_cost(scope_merge(a, b)) == if scope_cost(a) >= scope_cost(b) {
            scope_cost(a)
        } else {
            scope_cost(b)
        },
{
}

/// Merging is commutative, associative and idempotent, so the order in
/// which a plan folds its params' scopes does not matter.
pub proof fn law_merge_is_a_join(a: ReconfigureScope, b: ReconfigureScope, c: ReconfigureScope)
    ensures
        scope_merge(a, b) == scope_merge(b, a),
        scope_merge(scope_merge(a, b), c) == scope_merge(a, scope_merge(b, c)),
        scope_merge(a, a) == a,
{
    law_cost_strictly_ordered(a, b);
    law_cost_strictly_ordered(a, c);
    law_cost_strictly_ordered(b, c);
}

/// The default scope is the most disruptive one: merging anything into
/// it leaves it unchanged.
pub proof fn law_default_is_top(a: ReconfigureScope)
    ensures
        scope_merge(ReconfigureScope::SourceRestart, a) == ReconfigureScope::SourceRestart,
        scope_merge(a, ReconfigureScope::SourceRestart) == ReconfigureScope::SourceRestart,
{
}

/// Move as much of a queued events buffer as fits into an `events`
/// port's buffer; returns the byte count (the caller records it as the
/// port's production). What does not fit stays queued, in order.
pub fn drain_events_port(queue: &mut Vec<u8>, dst: &mut [u8]) -> (take: usize)
    ensures
        take == if old(queue)@.len() < old(dst)@.len() {
            old(queue)@.len()
        } else {
            old(dst)@.len()
        },
        final(dst)@.len() == old(dst)@.len(),
        final(dst)@.take(take as int) == old(queue)@.take(take as int),
        final(dst)@.skip(take as int) == old(dst)@.skip(take as int),
        final(queue)@ == old(queue)@.skip(take as int),
        final(dst)@.take(take as int) + final(queue)@ == old(queue)@,
{
    let take = if queue.len() < dst.len() {
        queue.len()
    } else {
        dst.len()
    };
    if take == 0 {
        assert(dst@.take(0) =~= queue@.take(0));
        assert(dst@.skip(0) =~= dst@);
        assert(queue@.skip(0) =~= queue@);
        assert(dst@.take(0) + queue@ =~= queue@);
        return 0;
    }
    let ghost old_dst = dst@;
    let mut i: usize = 0;
    while i < take
        invariant
            0 <= i <= take,
            take <= queue@.len(),
            take <= old_dst.len(),
            dst@.len() == old_dst.len(),
            forall|k: int| 0 <= k < i ==> dst@[k] == queue@[k],
            forall|k: int| i <= k < dst@.len() ==> dst@[k] == old_dst[k],
        decreases take - i,
    {
        dst[i] = queue[i];
        i = i + 1;
    }
    let mut rest: Vec<u8> = Vec::new();
    let mut j: usize = take;
    while j < queue.len()
        invariant
            take <= j <= queue@.len(),
            rest@ == queue@.subrange(take as int, j as int),
        decreases queue@.len() - j,
    {
        rest.push(queue[j]);
        assert(queue@.subrange(take as int, j + 1) =~= queue@.subrange(take as int, j as int).push(queue@[j as int]));
        j = j + 1;
    }
    let ghost q0 = queue@;
    assert(dst@.take(take as int) =~= q0.take(take as int));
    assert(dst@.skip(take as int) =~= old_dst.skip(take as int));
    assert(rest@ =~= q0.skip(take as int));
    assert(dst@.take(take as int) + rest@ =~= q0);
    *queue = rest;
    take
}

} // verus!
