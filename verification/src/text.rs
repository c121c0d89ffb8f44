//! Text helpers shared by the decoders: Unicode whitespace, trimming and
//! splitting on it, JSON string escaping of wire records and decimal
//! rendering of counters.
use vstd::prelude::*;
use vstd::string::StrSliceExecFns;
use vstd::string::StringSliceAdditionalSpecFns;

verus! {

/// Unicode `White_Space` property, the definition `char::is_whitespace`
/// documents.
pub open spec fn is_white_space(c: char) -> bool {
    let u = c as u32;
    ||| 0x09 <= u <= 0x0D
    ||| u == 0x20
    ||| u == 0x85
    ||| u == 0xA0
    ||| u == 0x1680
    ||| 0x2000 <= u <= 0x200A
    ||| u == 0x2028
    ||| u == 0x2029
    ||| u == 0x202F
    ||| u == 0x205F
    ||| u == 0x3000
}

/// Whether `c` is Unicode whitespace.
pub fn is_whitespace(c: char) -> (b: bool)
    ensures
        b == is_white_space(c),
{
    let u = c as u32;
    (0x09 <= u && u <= 0x0D) || u == 0x20 || u == 0x85 || u == 0xA0 || u == 0x1680 || (0x2000
        <= u && u <= 0x200A) || u == 0x2028 || u == 0x2029 || u == 0x202F || u == 0x205F || u
        == 0x3000
}

/// `s` without its leading whitespace.
pub open spec fn trim_start_spec(s: Seq<char>) -> Seq<char>
    decreases s.len(),
{
    if s.len() > 0 && is_white_space(s[0]) {
        trim_start_spec(s.drop_first())
    } else {
        s
    }
}

/// `s` without its trailing whitespace.
pub open spec fn trim_end_spec(s: Seq<char>) -> Seq<char>
    decreases s.len(),
{
    if s.len() > 0 && is_white_space(s.last()) {
        trim_end_spec(s.drop_last())
    } else {
        s
    }
}

/// `s` without leading and trailing whitespace.
pub open spec fn trim_spec(s: Seq<char>) -> Seq<char> {
    trim_end_spec(trim_start_spec(s))
}

/// `s` with leading and trailing whitespace removed.
pub fn trim(s: &str) -> (r: &str)
    ensures
        r@ == trim_spec(s@),
{
    let n = s.unicode_len();
    let mut i: usize = 0;
    assert(s@.subrange(0, n as int) =~= s@);
    while i < n && is_whitespace(s.get_char(i))
        invariant
            n == s@.len(),
            0 <= i <= n,
            trim_start_spec(s@) == trim_start_spec(s@.subrange(i as int, n as int)),
        decreases n - i,
    {
        proof {
            let t = s@.subrange(i as int, n as int);
            assert(t.drop_first() =~= s@.subrange(i + 1, n as int));
        }
        i = i + 1;
    }
    let mut j: usize = n;
    proof {
        let t = s@.subrange(i as int, n as int);
        if i < n {
            assert(t[0] == s@[i as int]);
        }
        assert(trim_start_spec(t) == t);
    }
    while j > i && is_whitespace(s.get_char(j - 1))
        invariant
            n == s@.len(),
            0 <= i <= j <= n,
            trim_spec(s@) == trim_end_spec(s@.subrange(i as int, j as int)),
        decreases j,
    {
        proof {
            let t = s@.subrange(i as int, j as int);
            assert(t.drop_last() =~= s@.subrange(i as int, j - 1));
        }
        j = j - 1;
    }
    proof {
        let t = s@.subrange(i as int, j as int);
        if j > i {
            assert(t.last() == s@[j - 1]);
        }
        assert(trim_end_spec(t) == t);
    }
    s.substring_char(i, j)
}

/// Whitespace-separated tokens completed so far and the token in progress.
pub open spec fn ws_split(s: Seq<char>) -> (Seq<Seq<char>>, Seq<char>)
    decreases s.len(),
{
    if s.len() == 0 {
        (Seq::empty(), Seq::empty())
    } else {
        let (done, cur) = ws_split(s.drop_last());
        if is_white_space(s.last()) {
            if cur.len() > 0 {
                (done.push(cur), Seq::empty())
            } else {
                (done, Seq::empty())
            }
        } else {
            (done, cur.push(s.last()))
        }
    }
}

/// The maximal runs of non-whitespace characters of `s`, in order.
pub open spec fn ws_tokens(s: Seq<char>) -> Seq<Seq<char>> {
    let (done, cur) = ws_split(s);
    if cur.len() > 0 {
        done.push(cur)
    } else {
        done
    }
}

/// The token in progress is the non-whitespace run ending the input.
proof fn lemma_ws_split_current(s: Seq<char>)
    ensures
        ws_split(s).1.len() <= s.len(),
        ws_split(s).1 == s.subrange(s.len() - ws_split(s).1.len(), s.len() as int),
    decreases s.len(),
{
    if s.len() > 0 {
        lemma_ws_split_current(s.drop_last());
        let c = ws_split(s.drop_last()).1;
        if !is_white_space(s.last()) {
            assert(c.push(s.last()) =~= s.subrange(s.len() - (c.len() + 1), s.len() as int));
        } else {
            assert(Seq::<char>::empty() =~= s.subrange(s.len() as int, s.len() as int));
        }
    } else {
        assert(s.subrange(0, 0) =~= Seq::<char>::empty());
    }
}

/// Split `s` on Unicode whitespace, dropping empty pieces.
pub fn split_whitespace(s: &str) -> (toks: Vec<&str>)
    ensures
        toks@.map_values(|t: &str| t@) == ws_tokens(s@),
{
    let n = s.unicode_len();
    let mut toks: Vec<&str> = Vec::new();
    let mut start: usize = 0;
    let mut i: usize = 0;
    while i < n
        invariant
            n == s@.len(),
            0 <= start <= i <= n,
            toks@.map_values(|t: &str| t@) == ws_split(s@.take(i as int)).0,
            s@.subrange(start as int, i as int) == ws_split(s@.take(i as int)).1,
        decreases n - i,
    {
        let c = s.get_char(i);
        proof {
            assert(s@.take(i + 1).drop_last() =~= s@.take(i as int));
            assert(s@.take(i + 1).last() == c);
        }
        if is_whitespace(c) {
            if start < i {
                let tok = s.substring_char(start, i);
                let ghost before = toks@.map_values(|t: &str| t@);
                toks.push(tok);
                assert(toks@.map_values(|t: &str| t@) =~= before.push(tok@));
            } else {
                assert(s@.subrange(start as int, i as int).len() == 0);
            }
            i = i + 1;
            start = i;
            assert(s@.subrange(start as int, i as int) =~= Seq::<char>::empty());
        } else {
            assert(s@.subrange(start as int, i + 1) =~= s@.subrange(start as int, i as int).push(
                c,
            ));
            i = i + 1;
        }
    }
    assert(s@.take(n as int) =~= s@);
    if start < n {
        let tok = s.substring_char(start, n);
        let ghost before = toks@.map_values(|t: &str| t@);
        toks.push(tok);
        assert(toks@.map_values(|t: &str| t@) =~= before.push(tok@));
    }
    toks
}

/// JSON-safe rendering of one byte: printable ASCII kept (with `"` and
/// `\` backslash-escaped), anything else replaced by a space.
pub open spec fn escape_byte(b: u8) -> Seq<u8> {
    let ch: u8 = if 0x20 <= b <= 0x7E {
        b
    } else {
        0x20u8
    };
    if ch == 0x22 {
        seq![0x5Cu8, 0x22u8]
    } else if ch == 0x5C {
        seq![0x5Cu8, 0x5Cu8]
    } else {
        seq![ch]
    }
}

/// JSON-safe rendering of a byte string.
pub open spec fn escape_bytes(s: Seq<u8>) -> Seq<u8>
    decreases s.len(),
{
    if s.len() == 0 {
        Seq::empty()
    } else {
        escape_bytes(s.drop_last()) + escape_byte(s.last())
    }
}

/// Append the UTF-8 bytes of `s` to `out`, unescaped.
pub fn push_str(out: &mut Vec<u8>, s: &str)
    ensures
        final(out)@ == old(out)@ + s.spec_bytes(),
{
    let b = s.as_bytes();
    let mut i: usize = 0;
    while i < b.len()
        invariant
            0 <= i <= b@.len(),
            b@ == s.spec_bytes(),
            out@ == old(out)@ + b@.take(i as int),
        decreases b@.len() - i,
    {
        out.push(b[i]);
        assert(b@.take(i + 1) =~= b@.take(i as int).push(b@[i as int]));
        i = i + 1;
    }
    assert(b@.take(b@.len() as int) =~= b@);
}

/// Append `s` to `out` as the body of a JSON string: printable ASCII is
/// kept, quote and backslash are escaped, other bytes become spaces.
pub fn write_str(out: &mut Vec<u8>, s: &str)
    ensures
        final(out)@ == old(out)@ + escape_bytes(s.spec_bytes()),
{
    let b = s.as_bytes();
    let mut i: usize = 0;
    while i < b.len()
        invariant
            0 <= i <= b@.len(),
            b@ == s.spec_bytes(),
            out@ == old(out)@ + escape_bytes(b@.take(i as int)),
        decreases b@.len() - i,
    {
        let x = b[i];
        let ch: u8 = if 0x20 <= x && x <= 0x7E {
            x
        } else {
            0x20
        };
        let ghost before = out@;
        if ch == 0x22 {
            out.push(0x5C);
            out.push(0x22);
        } else if ch == 0x5C {
            out.push(0x5C);
            out.push(0x5C);
        } else {
            out.push(ch);
        }
        proof {
            assert(b@.take(i + 1).drop_last() =~= b@.take(i as int));
            assert(out@ =~= before + escape_byte(x));
            assert(old(out)@ + escape_bytes(b@.take(i + 1)) =~= old(out)@ + escape_bytes(
                b@.take(i as int),
            ) + escape_byte(x));
        }
        i = i + 1;
    }
    assert(b@.take(b@.len() as int) =~= b@);
}

/// Base-10 ASCII digits of `n`, most significant first, no leading zeros.
pub open spec fn decimal(n: nat) -> Seq<u8>
    decreases n,
{
    if n < 10 {
        seq![(0x30 + n) as u8]
    } else {
        decimal(n / 10).push((0x30 + n % 10) as u8)
    }
}

/// Append the decimal representation of `n` to `buf`.
pub fn itoa_u64_into(n: u64, buf: &mut Vec<u8>)
    ensures
        final(buf)@ == old(buf)@ + decimal(n as nat),
{
    if n == 0 {
        buf.push(0x30);
        assert(decimal(0) =~= seq![0x30u8]);
        return ;
    }
    let mut digits: Vec<u8> = Vec::new();
    let mut m = n;
    assert(decimal(n as nat) =~= decimal(n as nat) + digits@.reverse());
    // digits, least significant first
    while m > 0
        invariant
            m <= n,
            m > 0 ==> decimal(n as nat) == decimal(m as nat) + digits@.reverse(),
            m == 0 ==> decimal(n as nat) == digits@.reverse(),
        decreases m,
    {
        let d = (m % 10) as u8;
        let ghost before = digits@;
        digits.push(0x30 + d);
        proof {
            assert(digits@.reverse() =~= seq![(0x30 + d) as u8] + before.reverse());
            if m >= 10 {
                assert(decimal(m as nat) == decimal((m / 10) as nat).push((0x30 + m % 10) as u8));
                assert(decimal((m / 10) as nat) + digits@.reverse() =~= decimal(
                    (m / 10) as nat,
                ).push((0x30 + m % 10) as u8) + before.reverse());
            } else {
                assert(decimal(m as nat) =~= seq![(0x30 + m) as u8]);
                assert(digits@.reverse() =~= decimal(m as nat) + before.reverse());
            }
        }
        m = m / 10;
    }
    let ghost start = buf@;
    let mut k: usize = digits.len();
    while k > 0
        invariant
            k <= digits@.len(),
            buf@ == start + digits@.subrange(k as int, digits@.len() as int).reverse(),
        decreases k,
    {
        k = k - 1;
        let ghost b0 = buf@;
        buf.push(digits[k]);
        assert(digits@.subrange(k as int, digits@.len() as int).reverse() =~= digits@.subrange(
            k + 1,
            digits@.len() as int,
        ).reverse().push(digits@[k as int]));
    }
    assert(digits@.subrange(0, digits@.len() as int) =~= digits@);
    assert(buf@ =~= start + decimal(n as nat));
}

/// Decimal rendering of a signed number: a minus sign before the
/// magnitude's digits when negative.
pub open spec fn signed_decimal(n: int) -> Seq<u8> {
    if n < 0 {
        seq![0x2Du8] + decimal((-n) as nat)
    } else {
        decimal(n as nat)
    }
}

/// Append the decimal representation of the signed `n` to `buf`.
pub fn itoa_i64_into(n: i64, buf: &mut Vec<u8>)
    ensures
        final(buf)@ == old(buf)@ + signed_decimal(n as int),
{
    if n < 0 {
        let ghost b0 = buf@;
        buf.push(0x2D);
        let m: u64 = (-(n + 1)) as u64 + 1;
        itoa_u64_into(m, buf);
        assert(buf@ =~= b0 + signed_decimal(n as int));
    } else {
        itoa_u64_into(n as u64, buf);
    }
}

/// Upper-case hexadecimal digit of `d` (below 16).
pub open spec fn hex_digit(d: nat) -> u8 {
    if d < 10 {
        (0x30 + d) as u8
    } else {
        (0x41 + d - 10) as u8
    }
}

/// Upper-case hexadecimal digits of `n`, most significant first, no
/// leading zeros.
pub open spec fn upper_hex(n: nat) -> Seq<u8>
    decreases n,
{
    if n < 16 {
        seq![hex_digit(n)]
    } else {
        upper_hex(n / 16).push(hex_digit(n % 16))
    }
}

/// `s` left-padded with `0` to at least `width` bytes.
pub open spec fn zero_padded(s: Seq<u8>, width: nat) -> Seq<u8> {
    if s.len() < width {
        Seq::new((width - s.len()) as nat, |i: int| 0x30u8) + s
    } else {
        s
    }
}

/// Append `n` in upper-case hexadecimal, zero-padded to at least `width`
/// digits (`{:0width$X}`).
pub fn push_upper_hex(n: u64, width: usize, buf: &mut Vec<u8>)
    ensures
        final(buf)@ == old(buf)@ + zero_padded(upper_hex(n as nat), width as nat),
{
    let mut digits: Vec<u8> = Vec::new();
    let ghost hx = upper_hex(n as nat);
    if n == 0 {
        digits.push(0x30);
        assert(hx =~= digits@.reverse());
    } else {
        let mut m = n;
        assert(hx =~= hx + digits@.reverse());
        // digits, least significant first
        while m > 0
            invariant
                m <= n,
                hx == upper_hex(n as nat),
                m > 0 ==> hx == upper_hex(m as nat) + digits@.reverse(),
                m == 0 ==> hx == digits@.reverse(),
            decreases m,
        {
            let d = (m % 16) as u8;
            let c: u8 = if d < 10 {
                0x30 + d
            } else {
                0x41 + d - 10
            };
            let ghost before = digits@;
            digits.push(c);
            proof {
                assert(c == hex_digit((m % 16) as nat));
                assert(digits@.reverse() =~= seq![c] + before.reverse());
                if m >= 16 {
                    assert(upper_hex((m / 16) as nat) + digits@.reverse() =~= upper_hex(
                        (m / 16) as nat,
                    ).push(c) + before.reverse());
                } else {
                    assert(upper_hex(m as nat) =~= seq![c]);
                    assert(digits@.reverse() =~= upper_hex(m as nat) + before.reverse());
                }
            }
            m = m / 16;
        }
    }
    assert(digits@.reverse() == hx);
    let ghost start = buf@;
    let len = digits.len();
    let mut pad: usize = 0;
    let pads: usize = if len < width {
        width - len
    } else {
        0
    };
    while pad < pads
        invariant
            pad <= pads,
            buf@ == start + Seq::new(pad as nat, |i: int| 0x30u8),
        decreases pads - pad,
    {
        buf.push(0x30);
        assert(Seq::new((pad + 1) as nat, |i: int| 0x30u8) =~= Seq::new(
            pad as nat,
            |i: int| 0x30u8,
        ).push(0x30u8));
        pad = pad + 1;
    }
    let ghost mid = buf@;
    let mut k: usize = digits.len();
    while k > 0
        invariant
            k <= digits@.len(),
            buf@ == mid + digits@.subrange(k as int, digits@.len() as int).reverse(),
        decreases k,
    {
        k = k - 1;
        buf.push(digits[k]);
        assert(digits@.subrange(k as int, digits@.len() as int).reverse() =~= digits@.subrange(
            k + 1,
            digits@.len() as int,
        ).reverse().push(digits@[k as int]));
    }
    assert(digits@.subrange(0, digits@.len() as int) =~= digits@);
    assert(hx.len() == len);
    if len < width {
        assert(buf@ =~= start + zero_padded(hx, width as nat));
    } else {
        assert(Seq::new(0nat, |i: int| 0x30u8) =~= Seq::<u8>::empty());
        assert(buf@ =~= start + zero_padded(hx, width as nat));
    }
}

/// A JSON string member: the bytes of `key` (which opens the member up to
/// its value's quote), the escaped `value`, and the closing quote.
pub open spec fn str_member(key: &str, value: Seq<u8>) -> Seq<u8> {
    key.spec_bytes() + escape_bytes(value) + "\"".spec_bytes()
}

/// Append the member `key` + escaped `value` + closing quote.
pub fn write_member(out: &mut Vec<u8>, key: &str, value: &str)
    ensures
        final(out)@ == old(out)@ + str_member(key, value.spec_bytes()),
{
    let ghost o = out@;
    push_str(out, key);
    write_str(out, value);
    push_str(out, "\"");
    assert(out@ =~= o + str_member(key, value.spec_bytes()));
}

/// Escaped text is safe inside a JSON string: every byte is printable
/// ASCII, and every quote comes right after a backslash.
pub proof fn law_escape_is_json_safe(s: Seq<u8>)
    ensures
        forall|i: int| 0 <= i < escape_bytes(s).len() ==> 0x20 <= #[trigger] escape_bytes(s)[i] <= 0x7E,
        forall|i: int|
            0 <= i < escape_bytes(s).len() && #[trigger] escape_bytes(s)[i] == 0x22 ==> i > 0
                && escape_bytes(s)[i - 1] == 0x5C,
    decreases s.len(),
{
    if s.len() > 0 {
        law_escape_is_json_safe(s.drop_last());
        let pre = escape_bytes(s.drop_last());
        let e = escape_byte(s.last());
        assert(escape_bytes(s) == pre + e);
        assert forall|i: int| 0 <= i < escape_bytes(s).len() implies 0x20 <= #[trigger] escape_bytes(
            s,
        )[i] <= 0x7E by {
            if i < pre.len() {
                assert(escape_bytes(s)[i] == pre[i]);
            } else {
                assert(escape_bytes(s)[i] == e[i - pre.len()]);
            }
        }
        assert forall|i: int|
            0 <= i < escape_bytes(s).len() && #[trigger] escape_bytes(s)[i] == 0x22 implies i > 0
                && escape_bytes(s)[i - 1] == 0x5C by {
            if i < pre.len() {
                assert(escape_bytes(s)[i] == pre[i]);
                assert(escape_bytes(s)[i - 1] == pre[i - 1]);
            } else {
                assert(escape_bytes(s)[i] == e[i - pre.len()]);
                assert(e.len() == 2 && i - pre.len() == 1);
                assert(escape_bytes(s)[i - 1] == e[0]);
            }
        }
    }
}

} // verus!
