//! Newline-delimited event streams: the mathematical split of a byte
//! stream into complete, non-empty lines plus the unterminated tail, and
//! the per-byte step that sinks use to reassemble lines across calls.
use vstd::prelude::*;

verus! {

/// The line terminator of an events stream.
pub const NEWLINE: u8 = 10u8;

/// Splits a byte stream into its complete non-empty lines (terminators
/// removed, empty lines skipped) and the bytes after the last newline.
pub open spec fn split_events(s: Seq<u8>) -> (Seq<Seq<u8>>, Seq<u8>)
    decreases s.len(),
{
    if s.len() == 0 {
        (Seq::empty(), Seq::empty())
    } else {
        let (lines, tail) = split_events(s.drop_last());
        if s.last() == NEWLINE {
            if tail.len() > 0 {
                (lines.push(tail), Seq::empty())
            } else {
                (lines, Seq::empty())
            }
        } else {
            (lines, tail.push(s.last()))
        }
    }
}

/// Complete, non-empty lines of a stream.
pub open spec fn complete_lines(s: Seq<u8>) -> Seq<Seq<u8>> {
    split_events(s).0
}

/// Bytes after the last newline of a stream.
pub open spec fn unterminated_tail(s: Seq<u8>) -> Seq<u8> {
    split_events(s).1
}

/// A byte sequence holding no newline.
pub open spec fn newline_free(s: Seq<u8>) -> bool {
    forall|i: int| 0 <= i < s.len() ==> s[i] != NEWLINE
}

/// The tail is exactly the bytes after the last newline, every complete
/// line is non-empty and newline-free, and a stream without any newline
/// has no complete line.
pub proof fn lemma_split_events_shape(s: Seq<u8>)
    ensures
        newline_free(unterminated_tail(s)),
        forall|i: int|
            0 <= i < complete_lines(s).len() ==> #[trigger] complete_lines(s)[i].len() > 0
                && newline_free(complete_lines(s)[i]),
        unterminated_tail(s).len() <= s.len(),
        unterminated_tail(s) == s.subrange(
            s.len() - unterminated_tail(s).len(),
            s.len() as int,
        ),
        newline_free(s) ==> complete_lines(s).len() == 0 && unterminated_tail(s) == s,
    decreases s.len(),
{
    if s.len() > 0 {
        lemma_split_events_shape(s.drop_last());
        let (lines, tail) = split_events(s.drop_last());
        let l2 = complete_lines(s);
        assert forall|i: int| 0 <= i < l2.len() implies #[trigger] l2[i].len() > 0
            && newline_free(l2[i]) by {
            if i < lines.len() {
                assert(l2[i] == complete_lines(s.drop_last())[i]);
            }
        }
        if s.last() != NEWLINE {
            let t = tail.push(s.last());
            assert(t =~= s.subrange(s.len() - t.len(), s.len() as int));
            if newline_free(s) {
                assert(newline_free(s.drop_last()));
                assert(tail == s.drop_last());
                assert(t =~= s);
            }
        } else {
            assert(Seq::<u8>::empty() =~= s.subrange(s.len() as int, s.len() as int));

            assert(!newline_free(s)) by {
                assert(s[s.len() - 1] == NEWLINE);
            }
        }
    } else {
        assert(s.subrange(0, 0) =~= Seq::<u8>::empty());
    }
}

/// Splitting a concatenation: the lines of `a + b` are those of `a`
/// followed by the lines that `b` completes, starting from `a`'s tail.
pub open spec fn split_events_from(lines: Seq<Seq<u8>>, tail: Seq<u8>, s: Seq<u8>) -> (
    Seq<Seq<u8>>,
    Seq<u8>,
)
    decreases s.len(),
{
    if s.len() == 0 {
        (lines, tail)
    } else {
        let (l, t) = split_events_from(lines, tail, s.drop_last());
        if s.last() == NEWLINE {
            if t.len() > 0 {
                (l.push(t), Seq::empty())
            } else {
                (l, Seq::empty())
            }
        } else {
            (l, t.push(s.last()))
        }
    }
}

/// Splitting `a + b` is splitting `b` onward from where `a` left off.
pub proof fn lemma_split_events_append(a: Seq<u8>, b: Seq<u8>)
    ensures
        split_events(a + b) == split_events_from(split_events(a).0, split_events(a).1, b),
    decreases b.len(),
{
    if b.len() == 0 {
        assert(a + b =~= a);
    } else {
        lemma_split_events_append(a, b.drop_last());
        assert((a + b).drop_last() =~= a + b.drop_last());
        assert((a + b).last() == b.last());
    }
}

/// Starting from no lines and no tail, the onward split is the split.
pub proof fn lemma_split_from_empty(s: Seq<u8>)
    ensures
        split_events_from(Seq::empty(), Seq::empty(), s) == split_events(s),
    decreases s.len(),
{
    if s.len() > 0 {
        lemma_split_from_empty(s.drop_last());
    }
}

/// Lines already completed before are kept in front, untouched.
pub proof fn lemma_split_from_prefix(lines: Seq<Seq<u8>>, tail: Seq<u8>, s: Seq<u8>)
    ensures
        split_events_from(lines, tail, s).0 == lines + split_events_from(
            Seq::empty(),
            tail,
            s,
        ).0,
        split_events_from(lines, tail, s).1 == split_events_from(Seq::empty(), tail, s).1,
    decreases s.len(),
{
    if s.len() == 0 {
        assert(lines + Seq::<Seq<u8>>::empty() =~= lines);
    } else {
        lemma_split_from_prefix(lines, tail, s.drop_last());
        let (l, t) = split_events_from(Seq::empty(), tail, s.drop_last());
        if s.last() == NEWLINE && t.len() > 0 {
            assert(lines + l.push(t) =~= (lines + l).push(t));
        }
    }
}

/// Splitting onward over `a + b` is splitting over `a`, then over `b`.
pub proof fn lemma_split_from_append(lines: Seq<Seq<u8>>, tail: Seq<u8>, a: Seq<u8>, b: Seq<u8>)
    ensures
        split_events_from(lines, tail, a + b) == split_events_from(
            split_events_from(lines, tail, a).0,
            split_events_from(lines, tail, a).1,
            b,
        ),
    decreases b.len(),
{
    if b.len() == 0 {
        assert(a + b =~= a);
    } else {
        lemma_split_from_append(lines, tail, a, b.drop_last());
        assert((a + b).drop_last() =~= a + b.drop_last());
    }
}

} // verus!
