//! FT8 / FT4 support: slot timing, the UTC-slot tracker that decides when
//! to feed, decode and reset the waterfall, and the message parser that
//! pulls callsigns and grid out of decoded text.
use vstd::prelude::*;
use vstd::string::StrSliceExecFns;

verus! {

/// Required input sample rate of the decoder.
pub const FT8_INPUT_RATE_HZ: u32 = 12_000;

/// FT8 (15 s slots) or FT4 (7.5 s slots).
#[derive(Debug, Clone, Copy, PartialEq, Eq, Structural)]
pub enum Ft8Mode {
    Ft8,
    Ft4,
}

impl Default for Ft8Mode {
    fn default() -> (m: Ft8Mode)
        ensures
            m == Ft8Mode::Ft8,
    {
        Ft8Mode::Ft8
    }
}

/// Slot length in milliseconds.
pub open spec fn slot_ms_spec(m: Ft8Mode) -> nat {
    match m {
        Ft8Mode::Ft8 => 15_000,
        Ft8Mode::Ft4 => 7_500,
    }
}

/// Length of the transmission window at the start of each slot, ms.
pub open spec fn active_ms_spec(m: Ft8Mode) -> nat {
    match m {
        Ft8Mode::Ft8 => 12_640,
        Ft8Mode::Ft4 => 5_040,
    }
}

impl Ft8Mode {
    /// Slot length in milliseconds; UTC boundaries land at multiples.
    pub fn slot_ms(self) -> (ms: u64)
        ensures
            ms == slot_ms_spec(self),
    {
        match self {
            Ft8Mode::Ft8 => 15_000,
            Ft8Mode::Ft4 => 7_500,
        }
    }

    /// Length of the transmission window inside a slot, milliseconds.
    pub fn active_ms(self) -> (ms: u64)
        ensures
            ms == active_ms_spec(self),
    {
        match self {
            Ft8Mode::Ft8 => 12_640,
            Ft8Mode::Ft4 => 5_040,
        }
    }
}

/// What the decoder does with one tick of audio at a given time.
#[derive(Debug, Clone, Copy, PartialEq, Eq)]
pub struct SlotPlan {
    /// Decode the waterfall of a slot that rolled over before it was
    /// decoded; the value is that slot's start time, ms.
    pub drain_completed: Option<u64>,
    /// Reset the waterfall and the partial-block scratch (slot rollover).
    pub reset: bool,
    /// Feed this tick's samples to the waterfall (inside the TX window).
    pub feed: bool,
    /// Decode the current slot now (just entered its dead zone); the
    /// value is the slot's start time, ms.
    pub drain_current: Option<u64>,
}

/// Tracks which UTC slot is being filled and whether it was decoded.
pub struct SlotTracker {
    mode: Ft8Mode,
    active_slot: Option<u64>,
    decoded_this_slot: bool,
}

/// Abstract state of a slot tracker.
pub struct SlotState {
    pub mode: Ft8Mode,
    pub active_slot: Option<u64>,
    pub decoded: bool,
}

/// The plan for a tick at `now` and the state after it.
pub open spec fn slot_tick(st: SlotState, now: nat) -> (SlotPlan, SlotState) {
    let slot = slot_ms_spec(st.mode);
    let current = now / slot;
    let time_in_slot = now % slot;
    let active = match st.active_slot {
        Some(a) => a as nat,
        None => current,
    };
    let rolled = active != current;
    let drain_completed = if rolled && !st.decoded {
        Some((active * slot) as u64)
    } else {
        None
    };
    let decoded_after_roll = if rolled {
        false
    } else {
        st.decoded
    };
    let feed = time_in_slot < active_ms_spec(st.mode);
    let drain_current = if !feed && !decoded_after_roll {
        Some((current * slot) as u64)
    } else {
        None
    };
    let plan = SlotPlan { drain_completed, reset: rolled, feed, drain_current };
    let next = SlotState {
        mode: st.mode,
        active_slot: Some(current as u64),
        decoded: decoded_after_roll || drain_current is Some,
    };
    (plan, next)
}

impl View for SlotTracker {
    type V = SlotState;

    closed spec fn view(&self) -> SlotState {
        SlotState { mode: self.mode, active_slot: self.active_slot, decoded: self.decoded_this_slot }
    }
}

impl SlotTracker {
    /// Slot indices the tracker holds were computed from real times.
    pub closed spec fn wf(&self) -> bool {
        match self.active_slot {
            Some(a) => a * slot_ms_spec(self.mode) <= u64::MAX,
            None => true,
        }
    }

    /// A tracker that has not yet seen a sample.
    pub fn new(mode: Ft8Mode) -> (t: SlotTracker)
        ensures
            t.wf(),
            t@ == (SlotState { mode, active_slot: None, decoded: false }),
    {
        SlotTracker { mode, active_slot: None, decoded_this_slot: false }
    }

    /// Decide what to do with a tick of audio arriving at `now_ms`
    /// (milliseconds since the Unix epoch) and advance the tracker.
    pub fn on_tick(&mut self, now_ms: u64) -> (plan: SlotPlan)
        requires
            old(self).wf(),
        ensures
            final(self).wf(),
            (plan, final(self)@) == slot_tick(old(self)@, now_ms as nat),
    {
        let slot_ms = self.mode.slot_ms();
        let active_ms = self.mode.active_ms();
        let current_slot = now_ms / slot_ms;
        let time_in_slot = now_ms - current_slot * slot_ms;
        proof {
            assert(current_slot * slot_ms <= now_ms) by (nonlinear_arith)
                requires
                    current_slot == now_ms / slot_ms,
                    slot_ms > 0,
            ;
            vstd::arithmetic::div_mod::lemma_fundamental_div_mod(now_ms as int, slot_ms as int);
        }
        let active = match self.active_slot {
            Some(a) => a,
            None => current_slot,
        };
        let mut drain_completed: Option<u64> = None;
        let mut reset = false;
        if active != current_slot {
            if !self.decoded_this_slot {
                drain_completed = Some(active * slot_ms);
            }
            reset = true;
            self.decoded_this_slot = false;
        }
        self.active_slot = Some(current_slot);
        let feed = time_in_slot < active_ms;
        let mut drain_current: Option<u64> = None;
        if !feed && !self.decoded_this_slot {
            drain_current = Some(current_slot * slot_ms);
            self.decoded_this_slot = true;
        }
        SlotPlan { drain_completed, reset, feed, drain_current }
    }
}

/// A slot's waterfall is decoded at most once: once the current slot has
/// been drained, further ticks inside that slot drain nothing, and only
/// ticks inside the transmission window feed samples.
pub proof fn law_slot_decoded_once(st: SlotState, now: nat)
    requires
        st.active_slot matches Some(a) && a == now / slot_ms_spec(st.mode),
        st.decoded,
    ensures
        slot_tick(st, now).0.drain_completed is None,
        slot_tick(st, now).0.drain_current is None,
        !slot_tick(st, now).0.reset,
        slot_tick(st, now).1.decoded,
        slot_tick(st, now).0.feed <==> now % slot_ms_spec(st.mode) < active_ms_spec(st.mode),
{
}

/// Every slot the tracker leaves is decoded exactly once: on the tick
/// that rolls over to a new slot, the old one is drained then unless it
/// already was, and the new slot starts undecoded.
pub proof fn law_slot_rollover_drains_pending(st: SlotState, now: nat)
    requires
        st.active_slot matches Some(a) && a != now / slot_ms_spec(st.mode),
    ensures
        slot_tick(st, now).0.reset,
        slot_tick(st, now).0.drain_completed is Some <==> !st.decoded,
        slot_tick(st, now).1.active_slot == Some((now / slot_ms_spec(st.mode)) as u64),
        slot_tick(st, now).1.decoded <==> slot_tick(st, now).0.drain_current is Some,
{
}

/// A 4-character Maidenhead locator `[A-R]{2}[0-9]{2}`.
pub open spec fn is_grid_spec(t: Seq<char>) -> bool {
    &&& t.len() == 4
    &&& 'A' <= t[0] <= 'R'
    &&& 'A' <= t[1] <= 'R'
    &&& '0' <= t[2] <= '9'
    &&& '0' <= t[3] <= '9'
}

/// ASCII letter or digit.
pub open spec fn is_alnum(c: char) -> bool {
    ('0' <= c <= '9') || ('A' <= c <= 'Z') || ('a' <= c <= 'z')
}

/// Loose callsign test: at least three characters, not a locator, all
/// ASCII alphanumerics or `/`, with at least one digit.
pub open spec fn is_call_spec(t: Seq<char>) -> bool {
    &&& t.len() >= 3
    &&& !is_grid_spec(t)
    &&& exists|i: int| 0 <= i < t.len() && '0' <= #[trigger] t[i] <= '9'
    &&& forall|i: int| 0 <= i < t.len() ==> is_alnum(#[trigger] t[i]) || t[i] == '/'
}

/// 4-char Maidenhead locator test.
pub fn is_ft8_grid(t: &str) -> (b: bool)
    ensures
        b == is_grid_spec(t@),
{
    if t.unicode_len() != 4 {
        return false;
    }
    let c0 = t.get_char(0);
    let c1 = t.get_char(1);
    let c2 = t.get_char(2);
    let c3 = t.get_char(3);
    'A' <= c0 && c0 <= 'R' && 'A' <= c1 && c1 <= 'R' && '0' <= c2 && c2 <= '9' && '0' <= c3 && c3
        <= '9'
}

/// Loose callsign test — tells a call from a directional tag (`DX`,
/// `POTA`) or a report.
pub fn is_ft8_call(t: &str) -> (b: bool)
    ensures
        b == is_call_spec(t@),
{
    let n = t.unicode_len();
    if n < 3 || is_ft8_grid(t) {
        return false;
    }
    let mut any_digit = false;
    let mut i: usize = 0;
    while i < n
        invariant
            n == t@.len(),
            0 <= i <= n,
            any_digit <==> exists|k: int| 0 <= k < i && '0' <= #[trigger] t@[k] <= '9',
            forall|k: int| 0 <= k < i ==> is_alnum(#[trigger] t@[k]) || t@[k] == '/',
        decreases n - i,
    {
        let c = t.get_char(i);
        let alnum = ('0' <= c && c <= '9') || ('A' <= c && c <= 'Z') || ('a' <= c && c <= 'z');
        if !(alnum || c == '/') {
            return false;
        }
        if '0' <= c && c <= '9' {
            any_digit = true;
        }
        i = i + 1;
    }
    any_digit
}

/// Whether two strings hold the same characters.
pub fn str_eq(a: &str, b: &str) -> (r: bool)
    ensures
        r == (a@ == b@),
{
    let n = a.unicode_len();
    if n != b.unicode_len() {
        return false;
    }
    let mut i: usize = 0;
    while i < n
        invariant
            n == a@.len(),
            n == b@.len(),
            0 <= i <= n,
            forall|k: int| 0 <= k < i ==> a@[k] == b@[k],
        decreases n - i,
    {
        if a.get_char(i) != b.get_char(i) {
            return false;
        }
        i = i + 1;
    }
    assert(a@ =~= b@);
    true
}

/// First token at or after `from` that looks like a callsign.
pub open spec fn first_call_from(toks: Seq<Seq<char>>, from: int) -> Option<Seq<char>>
    decreases toks.len() - from,
{
    if from < 0 || from >= toks.len() {
        None
    } else if is_call_spec(toks[from]) {
        Some(toks[from])
    } else {
        first_call_from(toks, from + 1)
    }
}

/// A token read as a locator: grid-like and not the `RR73` sign-off.
pub open spec fn is_msg_grid(t: Seq<char>) -> bool {
    is_grid_spec(t) && t != seq!['R', 'R', '7', '3']
}

/// `(de, dx, grid)` of a message, given its whitespace tokens.
pub open spec fn parse_ft8_spec(toks: Seq<Seq<char>>) -> (
    Option<Seq<char>>,
    Option<Seq<char>>,
    Option<Seq<char>>,
) {
    if toks.len() == 0 {
        (None, None, None)
    } else if toks[0] == seq!['C', 'Q'] {
        let grid = if is_msg_grid(toks.last()) {
            Some(toks.last())
        } else {
            None
        };
        (first_call_from(toks, 1), None, grid)
    } else {
        let dx = if is_call_spec(toks[0]) {
            Some(toks[0])
        } else {
            None
        };
        let de = if toks.len() > 1 && is_call_spec(toks[1]) {
            Some(toks[1])
        } else {
            None
        };
        let grid = if toks.len() > 2 && is_msg_grid(toks[2]) {
            Some(toks[2])
        } else {
            None
        };
        (de, dx, grid)
    }
}

/// The characters of an optional string.
pub open spec fn opt_chars(o: Option<&str>) -> Option<Seq<char>> {
    match o {
        Some(s) => Some(s@),
        None => None,
    }
}

/// Pull `(de, dx, grid)` out of an FT8/FT4 message: `CQ [tag] <call>
/// <grid>` gives the caller and its grid; `<dx> <de> <grid|report>` a
/// directed exchange. Reports, `RRR`, `RR73`, `73` carry no grid.
pub fn parse_ft8(text: &str) -> (r: (Option<&str>, Option<&str>, Option<&str>))
    ensures
        (opt_chars(r.0), opt_chars(r.1), opt_chars(r.2)) == parse_ft8_spec(
            crate::text::ws_tokens(text@),
        ),
{
    let toks = crate::text::split_whitespace(text);
    let ghost ts = toks@.map_values(|t: &str| t@);
    if toks.len() == 0 {
        return (None, None, None);
    }
    proof {
        reveal_strlit("CQ");
        reveal_strlit("RR73");
        assert("CQ"@ =~= seq!['C', 'Q']);
        assert("RR73"@ =~= seq!['R', 'R', '7', '3']);
    }
    let first = toks[0];
    assert(first@ == ts[0]);
    if str_eq(first, "CQ") {
        let mut de: Option<&str> = None;
        let mut i: usize = 1;
        while i < toks.len()
            invariant_except_break
                de is None,
            invariant
                ts == toks@.map_values(|t: &str| t@),
                1 <= i <= toks@.len(),
                first_call_from(ts, 1) == first_call_from(ts, i as int),
            ensures
                opt_chars(de) == first_call_from(ts, 1),
            decreases toks@.len() - i,
        {
            let t = toks[i];
            assert(t@ == ts[i as int]);
            if is_ft8_call(t) {
                de = Some(t);
                break ;
            }
            i = i + 1;
        }
        let last = toks[toks.len() - 1];
        assert(last@ == ts.last());
        let grid = if is_ft8_grid(last) && !str_eq(last, "RR73") {
            Some(last)
        } else {
            None
        };
        assert(opt_chars(de) == first_call_from(ts, 1));
        (de, None, grid)
    } else {
        let dx = if is_ft8_call(first) {
            Some(first)
        } else {
            None
        };
        let de = if toks.len() > 1 && is_ft8_call(toks[1]) {
            Some(toks[1])
        } else {
            None
        };
        let grid = if toks.len() > 2 && is_ft8_grid(toks[2]) && !str_eq(toks[2], "RR73") {
            Some(toks[2])
        } else {
            None
        };
        proof {
            if toks@.len() > 1 {
                assert(toks@[1]@ == ts[1]);
            }
            if toks@.len() > 2 {
                assert(toks@[2]@ == ts[2]);
            }
        }
        (de, dx, grid)
    }
}

/// A callsign found from `from` on is one of the tokens and has the shape
/// of a callsign.
proof fn lemma_first_call_from(toks: Seq<Seq<char>>, from: int)
    ensures
        first_call_from(toks, from) matches Some(c) ==> is_call_spec(c) && toks.contains(c),
    decreases toks.len() - from,
{
    if 0 <= from < toks.len() {
        if is_call_spec(toks[from]) {
            assert(toks[from] == toks[from]);
        } else {
            lemma_first_call_from(toks, from + 1);
        }
    }
}

/// What a message yields is read from its own tokens and never
/// misread: stations have the shape of callsigns, and a grid is a
/// four-character locator other than the `RR73` sign-off, so reports and
/// sign-offs are never taken for a grid.
pub proof fn law_ft8_fields_are_shaped_tokens(toks: Seq<Seq<char>>)
    ensures
        parse_ft8_spec(toks).0 matches Some(de) ==> is_call_spec(de) && toks.contains(de),
        parse_ft8_spec(toks).1 matches Some(dx) ==> is_call_spec(dx) && toks.contains(dx),
        parse_ft8_spec(toks).2 matches Some(g) ==> is_grid_spec(g) && g != seq!['R', 'R', '7', '3']
            && toks.contains(g),
{
    lemma_first_call_from(toks, 1);
    if toks.len() > 0 {
        assert(toks[toks.len() - 1] == toks.last());
        assert(toks[0] == toks[0]);
        if toks.len() > 1 {
            assert(toks[1] == toks[1]);
        }
        if toks.len() > 2 {
            assert(toks[2] == toks[2]);
        }
    }
}

/// The tokens that are callsigns, spelled out: at least three characters,
/// each an ASCII letter or digit or `/`, at least one a digit, and not a
/// four-character locator (two letters `A`..`R`, then two digits).
pub proof fn law_ft8_callsign_shape(t: Seq<char>)
    ensures
        is_call_spec(t) <==> {
            &&& t.len() >= 3
            &&& forall|i: int|
                0 <= i < t.len() ==> ('0' <= #[trigger] t[i] <= '9') || ('A' <= t[i] <= 'Z') || (
                'a' <= t[i] <= 'z') || t[i] == '/'
            &&& exists|i: int| 0 <= i < t.len() && '0' <= #[trigger] t[i] <= '9'
            &&& !(t.len() == 4 && 'A' <= t[0] <= 'R' && 'A' <= t[1] <= 'R' && '0' <= t[2] <= '9'
                && '0' <= t[3] <= '9')
        },
{
}

/// A CQ names its caller: in `CQ <call> ...` the caller is the token
/// after `CQ` whenever that token has the shape of a callsign (three or
/// more ASCII letters, digits or `/`, a digit among them, not a locator),
/// and `CQ <call> <grid>` yields that call and the grid, with no
/// addressee.
pub proof fn law_ft8_cq_names_caller(c: Seq<char>, g: Seq<char>)
    requires
        c.len() >= 3,
        forall|i: int|
            0 <= i < c.len() ==> ('0' <= #[trigger] c[i] <= '9') || ('A' <= c[i] <= 'Z') || ('a' <= c[i]
                <= 'z') || c[i] == '/',
        exists|i: int| 0 <= i < c.len() && '0' <= #[trigger] c[i] <= '9',
        !(c.len() == 4 && 'A' <= c[0] <= 'R' && 'A' <= c[1] <= 'R' && '0' <= c[2] <= '9' && '0' <= c[3]
            <= '9'),
    ensures
        is_call_spec(c),
        parse_ft8_spec(seq![seq!['C', 'Q'], c]).0 == Some(c),
        parse_ft8_spec(seq![seq!['C', 'Q'], c, g]).0 == Some(c),
        parse_ft8_spec(seq![seq!['C', 'Q'], c, g]).1 is None,
        (g.len() == 4 && 'A' <= g[0] <= 'R' && 'A' <= g[1] <= 'R' && '0' <= g[2] <= '9' && '0' <= g[3]
            <= '9' && g != seq!['R', 'R', '7', '3']) ==> parse_ft8_spec(seq![seq!['C', 'Q'], c, g]).2
            == Some(g),
{
    law_ft8_callsign_shape(c);
    let t2 = seq![seq!['C', 'Q'], c];
    let t3 = seq![seq!['C', 'Q'], c, g];
    assert(t2[1] == c);
    assert(t3[1] == c);
    assert(t3.last() == g);
}

/// A directed message `<dx> <de> ...` names its sender: whatever the
/// number of tokens, when the first is not `CQ` and the second is a
/// callsign, the sender is the second token; the addressee is the first
/// token exactly when that is a callsign; and a third token that is a
/// locator other than `RR73` is the grid.
pub proof fn law_ft8_directed(toks: Seq<Seq<char>>)
    requires
        toks.len() >= 2,
        toks[0] != seq!['C', 'Q'],
    ensures
        is_call_spec(toks[1]) ==> parse_ft8_spec(toks).0 == Some(toks[1]),
        !is_call_spec(toks[1]) ==> parse_ft8_spec(toks).0 is None,
        parse_ft8_spec(toks).1 == if is_call_spec(toks[0]) {
            Some(toks[0])
        } else {
            None
        },
        toks.len() == 2 ==> parse_ft8_spec(toks).2 is None,
        toks.len() > 2 && is_grid_spec(toks[2]) && toks[2] != seq!['R', 'R', '7', '3'] ==> parse_ft8_spec(
            toks,
        ).2 == Some(toks[2]),
{
}

/// A CQ with a directional tag (`CQ DX <call>`, `CQ POTA <call>`) skips a
/// tag that is no callsign and names the call after it; the grid of a CQ
/// is its last token when that is a locator other than `RR73`, and a CQ
/// never has an addressee.
pub proof fn law_ft8_cq_tag_and_grid(tag: Seq<char>, c: Seq<char>, toks: Seq<Seq<char>>)
    requires
        !is_call_spec(tag),
        is_call_spec(c),
    ensures
        parse_ft8_spec(seq![seq!['C', 'Q'], tag, c]).0 == Some(c),
        toks.len() > 0 && toks[0] == seq!['C', 'Q'] ==> parse_ft8_spec(toks).1 is None,
        toks.len() > 0 && toks[0] == seq!['C', 'Q'] ==> parse_ft8_spec(toks).2 == if is_grid_spec(
            toks.last(),
        ) && toks.last() != seq!['R', 'R', '7', '3'] {
            Some(toks.last())
        } else {
            None
        },
        toks.len() > 1 && toks[0] == seq!['C', 'Q'] && is_call_spec(toks[1]) ==> parse_ft8_spec(toks).0
            == Some(toks[1]),
{
    let t = seq![seq!['C', 'Q'], tag, c];
    assert(t[1] == tag);
    assert(t[2] == c);
    assert(first_call_from(t, 2) == Some(c));
    assert(first_call_from(t, 1) == Some(c));
}

} // verus!
