//! APRS: the TNC2 monitor line that the packet demodulator prints for each
//! AX.25 UI frame, and the APRS information field it carries.
//!
//! ```text
//! APRS: KK6ABC-9>APRS,WIDE1-1,WIDE2-1:!3745.60N/12225.10W>hiking
//! ```
//!
//! All offsets of the APRS formats are byte offsets; slicing a field that
//! would split a multi-byte character fails, as `str::get` does.
use vstd::prelude::*;
use vstd::string::StringSliceAdditionalSpecFns;
use vstd::utf8::*;
use crate::text::{escape_bytes, push_str, str_member, trim, trim_spec, write_member, write_str};

verus! {

// ---------------------------------------------------------------------
// Byte-level slicing of UTF-8 text
// ---------------------------------------------------------------------

/// `s[from..to]` exists: the range is in bounds and both ends fall on
/// character boundaries.
pub open spec fn slice_ok(s: Seq<u8>, from: int, to: int) -> bool {
    &&& 0 <= from <= to <= s.len()
    &&& is_char_boundary(s, from)
    &&& is_char_boundary(s, to)
}

/// The text of `s[from..to]`, if that slice exists.
pub open spec fn slice_text(s: Seq<u8>, from: int, to: int) -> Option<Seq<char>> {
    if slice_ok(s, from, to) {
        Some(decode_utf8(s.subrange(from, to)))
    } else {
        None
    }
}

/// The text of `s[from..to]`, or the empty text where that slice does not
/// exist.
pub open spec fn slice_or_empty(s: Seq<u8>, from: int, to: int) -> Seq<char> {
    match slice_text(s, from, to) {
        Some(t) => t,
        None => Seq::empty(),
    }
}

/// Index of the first byte of `s` equal to `x` or `y`; -1 if there is none.
pub open spec fn byte_pos(s: Seq<u8>, x: u8, y: u8) -> int
    decreases s.len(),
{
    if s.len() == 0 {
        -1
    } else {
        let k = byte_pos(s.drop_last(), x, y);
        if k >= 0 {
            k
        } else if s.last() == x || s.last() == y {
            s.len() - 1
        } else {
            -1
        }
    }
}

proof fn lemma_byte_pos(s: Seq<u8>, x: u8, y: u8)
    ensures
        -1 <= byte_pos(s, x, y) < s.len(),
        byte_pos(s, x, y) >= 0 ==> (s[byte_pos(s, x, y)] == x || s[byte_pos(s, x, y)] == y),
        forall|j: int| 0 <= j < s.len() && j < byte_pos(s, x, y) ==> s[j] != x && s[j] != y,
        byte_pos(s, x, y) == -1 ==> forall|j: int| 0 <= j < s.len() ==> s[j] != x && s[j] != y,
    decreases s.len(),
{
    if s.len() > 0 {
        lemma_byte_pos(s.drop_last(), x, y);
        assert forall|j: int| 0 <= j < s.len() - 1 implies s[j] == s.drop_last()[j] by {}
    }
}

proof fn lemma_str_valid(s: &str)
    ensures
        valid_utf8(s.spec_bytes()),
        is_char_boundary(s.spec_bytes(), 0),
        is_char_boundary(s.spec_bytes(), s.spec_bytes().len() as int),
        decode_utf8(s.spec_bytes()) == s@,
{
    encode_utf8_valid_utf8(s@);
    encode_utf8_decode_utf8(s@);
    is_char_boundary_start_end_of_seq(s.spec_bytes());
}

/// An ASCII byte starts a character, and so does whatever follows it.
proof fn lemma_ascii_boundaries(b: Seq<u8>, i: int)
    requires
        valid_utf8(b),
        0 <= i < b.len(),
        b[i] < 0x80,
    ensures
        is_char_boundary(b, i),
        is_char_boundary(b, i + 1),
{
    is_char_boundary_iff_not_is_continuation_byte(b, i);
    if i + 1 == b.len() {
        is_char_boundary_start_end_of_seq(b);
    } else {
        valid_utf8_split(b, i);
        let t = b.subrange(i, b.len() as int);
        assert(t[0] == b[i]);
        assert(length_of_first_scalar(t) == 1);
        let u = pop_first_scalar(t);
        assert(valid_utf8(u));
        assert(u[0] == b[i + 1]);
        assert(valid_first_scalar(u));
        is_char_boundary_iff_not_is_continuation_byte(b, i + 1);
    }
}

/// `s[from..to]`, as `str::get` gives it.
fn str_slice(s: &str, from: usize, to: usize) -> (r: Option<&str>)
    ensures
        r is Some <==> slice_ok(s.spec_bytes(), from as int, to as int),
        r matches Some(x) ==> x.spec_bytes() == s.spec_bytes().subrange(from as int, to as int),
        r matches Some(x) ==> slice_text(s.spec_bytes(), from as int, to as int) == Some(x@),
{
    proof {
        lemma_str_valid(s);
    }
    let n = s.as_bytes().len();
    if from > to || to > n {
        return None;
    }
    if !s.is_char_boundary(from) || !s.is_char_boundary(to) {
        return None;
    }
    let ghost b = s.spec_bytes();
    let (head, _tail) = s.split_at(to);
    proof {
        let h = head.spec_bytes();
        lemma_str_valid(head);
        if 0 < from && from < to {
            is_char_boundary_iff_not_is_continuation_byte(b, from as int);
            assert(h[from as int] == b[from as int]);
            is_char_boundary_iff_not_is_continuation_byte(h, from as int);
        }
        assert(h.len() == to);
    }
    let (_front, mid) = head.split_at(from);
    proof {
        lemma_str_valid(mid);
        assert(mid.spec_bytes() =~= b.subrange(from as int, to as int));
    }
    Some(mid)
}

/// Position of the first byte of `s` equal to `x` or `y`.
fn find_byte(s: &str, x: u8, y: u8) -> (r: Option<usize>)
    ensures
        byte_pos(s.spec_bytes(), x, y) == match r {
            Some(i) => i as int,
            None => -1,
        },
{
    let b = s.as_bytes();
    let mut i: usize = 0;
    while i < b.len()
        invariant
            b@ == s.spec_bytes(),
            i <= b@.len(),
            forall|j: int| 0 <= j < i ==> b@[j] != x && b@[j] != y,
        decreases b@.len() - i,
    {
        if b[i] == x || b[i] == y {
            proof {
                lemma_byte_pos(b@, x, y);
            }
            return Some(i);
        }
        i = i + 1;
    }
    proof {
        lemma_byte_pos(b@, x, y);
    }
    None
}

/// Split `s` around the ASCII byte at `i`: `(s[..i], s[i + 1..])`.
fn split_around(s: &str, i: usize) -> (r: (&str, &str))
    requires
        i < s.spec_bytes().len(),
        s.spec_bytes()[i as int] < 0x80,
    ensures
        r.0@ == decode_utf8(s.spec_bytes().take(i as int)),
        r.1@ == decode_utf8(s.spec_bytes().skip(i + 1)),
        r.0.spec_bytes() == s.spec_bytes().take(i as int),
        r.1.spec_bytes() == s.spec_bytes().skip(i + 1),
{
    proof {
        lemma_str_valid(s);
        lemma_ascii_boundaries(s.spec_bytes(), i as int);
    }
    let n = s.as_bytes().len();
    let a = str_slice(s, 0, i);
    let c = str_slice(s, i + 1, n);
    match (a, c) {
        (Some(a), Some(c)) => {
            proof {
                assert(s.spec_bytes().take(i as int) =~= s.spec_bytes().subrange(0, i as int));
                assert(s.spec_bytes().skip(i + 1) =~= s.spec_bytes().subrange(
                    i + 1,
                    n as int,
                ));
            }
            (a, c)
        },
        _ => {
            proof {
                assert(false);
            }
            (s, s)
        },
    }
}

// ---------------------------------------------------------------------
// TNC2 monitor line
// ---------------------------------------------------------------------

/// The tag `APRS: ` that starts each APRS monitor line.
pub open spec fn aprs_tag() -> Seq<u8> {
    seq![0x41u8, 0x50u8, 0x52u8, 0x53u8, 0x3Au8, 0x20u8]
}

/// Source, digipeater path and information field of a monitor line
/// `APRS: SRC>DEST[,VIA...]:INFO`. The header ends at the first `:`,
/// the source at the first `>`, and the path is what follows the first
/// comma after the destination (empty without one); source and path are
/// trimmed of whitespace.
pub open spec fn split_tnc2_spec(line: Seq<u8>) -> Option<(Seq<char>, Seq<char>, Seq<char>)> {
    if line.len() >= 6 && line.take(6) == aprs_tag() {
        let body = line.skip(6);
        let i = byte_pos(body, 0x3A, 0x3A);
        if i < 0 {
            None
        } else {
            let header = body.take(i);
            let info = body.skip(i + 1);
            let j = byte_pos(header, 0x3E, 0x3E);
            if j < 0 {
                None
            } else {
                let src = header.take(j);
                let rest = header.skip(j + 1);
                let k = byte_pos(rest, 0x2C, 0x2C);
                let path = if k < 0 {
                    Seq::empty()
                } else {
                    rest.skip(k + 1)
                };
                Some(
                    (
                        trim_spec(decode_utf8(src)),
                        trim_spec(decode_utf8(path)),
                        decode_utf8(info),
                    ),
                )
            }
        }
    } else {
        None
    }
}

/// Split a monitor line `APRS: src>dest,via,via:info` into
/// `(source, path, info)`; `None` if it is not an APRS line.
pub fn split_tnc2(line: &str) -> (r: Option<(&str, &str, &str)>)
    ensures
        match r {
            Some((src, path, info)) => split_tnc2_spec(line.spec_bytes()) == Some(
                (src@, path@, info@),
            ),
            None => split_tnc2_spec(line.spec_bytes()) is None,
        },
{
    let b = line.as_bytes();
    let n = b.len();
    if n < 6 || b[0] != 0x41 || b[1] != 0x50 || b[2] != 0x52 || b[3] != 0x53 || b[4] != 0x3A
        || b[5] != 0x20 {
        proof {
            if n >= 6 && b@.take(6) == aprs_tag() {
                assert(b@.take(6)[0] == b@[0]);
                assert(b@.take(6)[1] == b@[1]);
                assert(b@.take(6)[2] == b@[2]);
                assert(b@.take(6)[3] == b@[3]);
                assert(b@.take(6)[4] == b@[4]);
                assert(b@.take(6)[5] == b@[5]);
            }
        }
        return None;
    }
    assert(b@.take(6) =~= aprs_tag());
    let (_tag, body) = split_around(line, 5);
    assert(body.spec_bytes() =~= line.spec_bytes().skip(6));
    let i = match find_byte(body, 0x3A, 0x3A) {
        Some(i) => i,
        None => {
            return None;
        },
    };
    proof {
        lemma_byte_pos(body.spec_bytes(), 0x3A, 0x3A);
    }
    let (header, info) = split_around(body, i);
    let j = match find_byte(header, 0x3E, 0x3E) {
        Some(j) => j,
        None => {
            return None;
        },
    };
    proof {
        lemma_byte_pos(header.spec_bytes(), 0x3E, 0x3E);
    }
    let (src, rest) = split_around(header, j);
    let path = match find_byte(rest, 0x2C, 0x2C) {
        Some(k) => {
            proof {
                lemma_byte_pos(rest.spec_bytes(), 0x2C, 0x2C);
            }
            let (_dest, p) = split_around(rest, k);
            p
        },
        None => {
            proof {
                reveal_strlit("");
                lemma_str_valid("");
            }
            ""
        },
    };
    Some((trim(src), trim(path), info))
}

// ---------------------------------------------------------------------
// Information field
// ---------------------------------------------------------------------

/// Largest base-91 field value that stays on the globe: `90 - v / 380926`
/// is at least -90 and `-180 + v / 190463` at most 180 exactly when
/// `v <= 180 * 380926 == 360 * 190463`.
pub const MAX_BASE91_COORD: u32 = 68566680;

/// Position carried by an APRS report.
#[derive(Debug, Clone, Copy, PartialEq, Eq, Structural)]
pub enum AprsPosition {
    /// Uncompressed `DDMM.mmN/DDDMM.mmW`: the coordinates are decimal
    /// numbers in the text, read as floating point by the caller.
    Uncompressed,
    /// Base-91 compressed: latitude is `90 - lat / 380926`, longitude
    /// `-180 + lon / 190463`.
    Compressed { lat: u32, lon: u32 },
}

/// Parsed information field. The kind is static; name and text borrow the
/// input.
pub struct Parsed<'a> {
    /// `position`, `object`, `item`, `status`, `message`, `mic-e` or `other`.
    pub kind: &'static str,
    pub pos: Option<AprsPosition>,
    /// Object/item name, or message addressee.
    pub name: Option<&'a str>,
    /// Comment, status text, message body, or the raw field.
    pub text: &'a str,
}

/// The model of a [`Parsed`]: its strings as character sequences.
pub struct ParsedView {
    pub kind: Seq<char>,
    pub pos: Option<AprsPosition>,
    pub name: Option<Seq<char>>,
    pub text: Seq<char>,
}

impl<'a> View for Parsed<'a> {
    type V = ParsedView;

    open spec fn view(&self) -> ParsedView {
        ParsedView {
            kind: self.kind@,
            pos: self.pos,
            name: match self.name {
                Some(n) => Some(n@),
                None => None,
            },
            text: self.text@,
        }
    }
}

/// The bytes of `s[from..]`, or nothing where that slice does not exist.
pub open spec fn tail_bytes(s: Seq<u8>, from: int) -> Seq<u8> {
    if slice_ok(s, from, s.len() as int) {
        s.skip(from)
    } else {
        Seq::empty()
    }
}

/// Value of four base-91 digits, each a byte offset from `!`.
pub open spec fn base91(x: Seq<u8>) -> int {
    (((x[0] - 33) * 91 + (x[1] - 33)) * 91 + (x[2] - 33)) * 91 + (x[3] - 33)
}

/// Base-91 compressed coordinates: eight bytes in `!..=|`, latitude then
/// longitude, both within range.
pub open spec fn compressed_spec(cc: Seq<u8>) -> Option<AprsPosition> {
    if cc.len() == 8 && (forall|i: int| 0 <= i < 8 ==> 33 <= #[trigger] cc[i] <= 124) {
        let lat = base91(cc.subrange(0, 4));
        let lon = base91(cc.subrange(4, 8));
        if lat <= MAX_BASE91_COORD && lon <= MAX_BASE91_COORD {
            Some(AprsPosition::Compressed { lat: lat as u32, lon: lon as u32 })
        } else {
            None
        }
    } else {
        None
    }
}

/// Whether a position body is shaped as an uncompressed report: at least
/// 19 bytes with the latitude's decimal point at byte 4. Only then are its
/// numbers read.
pub open spec fn uncompressed_shape(s: Seq<u8>) -> bool {
    s.len() >= 19 && s[4] == 0x2E
}

/// A position report body (timestamp or name already stripped). Where it
/// is shaped as an uncompressed report and `uncompressed` says that its
/// numbers and hemispheres read as a finite position, it is that position
/// with its comment from byte 19; else, where bytes 1..9 hold compressed
/// coordinates, those, with the comment from byte 13; else no position and
/// the whole body as text.
pub open spec fn position_spec(s: Seq<u8>, kind: Seq<char>, uncompressed: bool) -> ParsedView {
    if uncompressed_shape(s) && uncompressed {
        ParsedView {
            kind,
            pos: Some(AprsPosition::Uncompressed),
            name: None,
            text: slice_or_empty(s, 19, s.len() as int),
        }
    } else if s.len() >= 13 && compressed_spec(
        if slice_ok(s, 1, 9) { s.subrange(1, 9) } else { Seq::empty() },
    ) is Some {
        ParsedView {
            kind,
            pos: compressed_spec(s.subrange(1, 9)),
            name: None,
            text: slice_or_empty(s, 13, s.len() as int),
        }
    } else {
        ParsedView { kind, pos: None, name: None, text: decode_utf8(s) }
    }
}

/// The trimmed 9-byte name field at the start of `body`.
pub open spec fn name_field(body: Seq<u8>) -> Option<Seq<char>> {
    match slice_text(body, 0, 9) {
        Some(t) => Some(trim_spec(t)),
        None => None,
    }
}

/// Object `;NAME_____*DDHHMMz<position>`: 9-byte name, live/killed flag,
/// 7-byte timestamp, then a position.
pub open spec fn object_spec(body: Seq<u8>, uncompressed: bool) -> ParsedView {
    let p = position_spec(tail_bytes(body, 17), "object"@, uncompressed);
    ParsedView { name: name_field(body), ..p }
}

/// Item `)NAME!<position>`: the name runs up to the first `!` (live) or
/// `_` (killed) flag; without a flag the body is plain text.
pub open spec fn item_spec(body: Seq<u8>, uncompressed: bool) -> ParsedView {
    let i = byte_pos(body, 0x21, 0x5F);
    if i >= 0 {
        let p = position_spec(tail_bytes(body, i + 1), "item"@, uncompressed);
        ParsedView { name: Some(decode_utf8(body.take(i))), ..p }
    } else {
        ParsedView { kind: "item"@, pos: None, name: None, text: decode_utf8(body) }
    }
}

/// The bytes that the information field `info` hands to the position
/// decoder, by its data type identifier (its first byte); `None` for
/// formats without a position.
pub open spec fn position_body_spec(info: Seq<u8>) -> Option<Seq<u8>> {
    if info.len() == 0 {
        None
    } else {
        let dti = info[0];
        let body = info.skip(1);
        if dti == 0x21 || dti == 0x3D {
            Some(body)
        } else if dti == 0x2F || dti == 0x40 {
            Some(tail_bytes(body, 7))
        } else if dti == 0x3B {
            Some(tail_bytes(body, 17))
        } else if dti == 0x29 && byte_pos(body, 0x21, 0x5F) >= 0 {
            Some(tail_bytes(body, byte_pos(body, 0x21, 0x5F) + 1))
        } else {
            None
        }
    }
}

/// The information field `info` read by its data type identifier (its
/// first byte). `uncompressed` is whether the position body
/// (`position_body_spec`) reads as a finite uncompressed position.
pub open spec fn parse_aprs_spec(info: Seq<u8>, uncompressed: bool) -> ParsedView {
    if info.len() == 0 {
        ParsedView { kind: "other"@, pos: None, name: None, text: Seq::empty() }
    } else {
        let dti = info[0];
        let body = info.skip(1);
        if dti == 0x21 || dti == 0x3D {
            position_spec(body, "position"@, uncompressed)
        } else if dti == 0x2F || dti == 0x40 {
            position_spec(tail_bytes(body, 7), "position"@, uncompressed)
        } else if dti == 0x3E {
            ParsedView { kind: "status"@, pos: None, name: None, text: decode_utf8(body) }
        } else if dti == 0x3A {
            ParsedView {
                kind: "message"@,
                pos: None,
                name: name_field(body),
                text: slice_or_empty(body, 10, body.len() as int),
            }
        } else if dti == 0x3B {
            object_spec(body, uncompressed)
        } else if dti == 0x29 {
            item_spec(body, uncompressed)
        } else if dti == 0x60 || dti == 0x27 {
            ParsedView { kind: "mic-e"@, pos: None, name: None, text: decode_utf8(body) }
        } else {
            ParsedView { kind: "other"@, pos: None, name: None, text: decode_utf8(info) }
        }
    }
}

/// `s[from..]` where that slice exists, else the empty string.
fn tail_str(s: &str, from: usize) -> (r: &str)
    ensures
        r.spec_bytes() == tail_bytes(s.spec_bytes(), from as int),
        r@ == slice_or_empty(s.spec_bytes(), from as int, s.spec_bytes().len() as int),
{
    let n = s.as_bytes().len();
    proof {
        lemma_str_valid(s);
    }
    match str_slice(s, from, n) {
        Some(t) => {
            assert(s.spec_bytes().subrange(from as int, n as int) =~= s.spec_bytes().skip(
                from as int,
            ));
            t
        },
        None => {
            proof {
                reveal_strlit("");
                lemma_str_valid("");
                assert(""@ =~= Seq::<char>::empty());
                encode_utf8_decode_utf8(""@);
            }
            ""
        },
    }
}

/// The trimmed 9-byte name field at the start of `body`.
fn name_of(body: &str) -> (r: Option<&str>)
    ensures
        name_field(body.spec_bytes()) == match r {
            Some(n) => Some(n@),
            None => None,
        },
{
    match str_slice(body, 0, 9) {
        Some(n) => Some(trim(n)),
        None => None,
    }
}

/// Base-91 compressed coordinates in `cc`.
fn compressed(cc: &str) -> (r: Option<AprsPosition>)
    ensures
        r == compressed_spec(cc.spec_bytes()),
{
    let b = cc.as_bytes();
    if b.len() != 8 {
        return None;
    }
    let mut i: usize = 0;
    while i < 8
        invariant
            b@ == cc.spec_bytes(),
            b@.len() == 8,
            i <= 8,
            forall|j: int| 0 <= j < i ==> 33 <= #[trigger] b@[j] <= 124,
        decreases 8 - i,
    {
        if b[i] < 33 || b[i] > 124 {
            return None;
        }
        i = i + 1;
    }
    let lat = base91_exec(b[0], b[1], b[2], b[3]);
    let lon = base91_exec(b[4], b[5], b[6], b[7]);
    proof {
        let x = b@.subrange(0, 4);
        let y = b@.subrange(4, 8);
        assert(x[0] == b@[0] && x[1] == b@[1] && x[2] == b@[2] && x[3] == b@[3]);
        assert(y[0] == b@[4] && y[1] == b@[5] && y[2] == b@[6] && y[3] == b@[7]);
    }
    if lat <= MAX_BASE91_COORD && lon <= MAX_BASE91_COORD {
        Some(AprsPosition::Compressed { lat, lon })
    } else {
        None
    }
}

/// Value of the base-91 digits `a b c d` (each in `!..=|`).
fn base91_exec(a: u8, b: u8, c: u8, d: u8) -> (v: u32)
    requires
        33 <= a <= 124,
        33 <= b <= 124,
        33 <= c <= 124,
        33 <= d <= 124,
    ensures
        v == (((a - 33) * 91 + (b - 33)) * 91 + (c - 33)) * 91 + (d - 33),
{
    let x: u32 = (a - 33) as u32;
    let y: u32 = (b - 33) as u32;
    let z: u32 = (c - 33) as u32;
    let w: u32 = (d - 33) as u32;
    assert(x * 91 + y <= 8372) by (nonlinear_arith)
        requires
            x <= 91,
            y <= 91,
    ;
    let v1 = x * 91 + y;
    assert(v1 * 91 + z <= 761943) by (nonlinear_arith)
        requires
            v1 <= 8372,
            z <= 91,
    ;
    let v2 = v1 * 91 + z;
    assert(v2 * 91 + w <= 69336904) by (nonlinear_arith)
        requires
            v2 <= 761943,
            w <= 91,
    ;
    v2 * 91 + w
}

/// Decode a position report body; see [`position_spec`].
fn position<'a>(s: &'a str, kind: &'static str, uncompressed: bool) -> (p: Parsed<'a>)
    ensures
        p@ == position_spec(s.spec_bytes(), kind@, uncompressed),
{
    proof {
        lemma_str_valid(s);
    }
    let b = s.as_bytes();
    let n = b.len();
    if n >= 19 && b[4] == 0x2E && uncompressed {
        return Parsed {
            kind,
            pos: Some(AprsPosition::Uncompressed),
            name: None,
            text: tail_str(s, 19),
        };
    }
    if n >= 13 {
        let cc = match str_slice(s, 1, 9) {
            Some(c) => c,
            None => {
                proof {
                    reveal_strlit("");
                    assert(""@ =~= Seq::<char>::empty());
                }
                ""
            },
        };
        if let Some(pos) = compressed(cc) {
            return Parsed { kind, pos: Some(pos), name: None, text: tail_str(s, 13) };
        }
    }
    Parsed { kind, pos: None, name: None, text: s }
}

/// The part of the information field `info` that holds its position, by
/// the data type identifier: the body after `!`/`=`, after `/`/`@` and a
/// 7-byte timestamp, after an object's name, flag and timestamp, or after
/// an item's name and flag; `None` for formats without a position.
pub fn position_body(info: &str) -> (r: Option<&str>)
    ensures
        match r {
            Some(x) => position_body_spec(info.spec_bytes()) == Some(x.spec_bytes()),
            None => position_body_spec(info.spec_bytes()) is None,
        },
{
    let b = info.as_bytes();
    if b.len() == 0 {
        return None;
    }
    let dti = b[0];
    if dti >= 0x80 {
        return None;
    }
    let (_dti, body) = split_around(info, 0);
    if dti == 0x21 || dti == 0x3D {
        Some(body)
    } else if dti == 0x2F || dti == 0x40 {
        Some(tail_str(body, 7))
    } else if dti == 0x3B {
        Some(tail_str(body, 17))
    } else if dti == 0x29 {
        match find_byte(body, 0x21, 0x5F) {
            Some(i) => {
                proof {
                    lemma_byte_pos(body.spec_bytes(), 0x21, 0x5F);
                }
                Some(tail_str(body, i + 1))
            },
            None => None,
        }
    } else {
        None
    }
}

/// Decode an APRS information field, tolerantly: an unrecognised format
/// (a multi-byte first character included) is `other` with the whole field
/// as text. `uncompressed` is whether the
/// field's position body ([`position_body`]) reads as a finite
/// uncompressed position (numbers and hemisphere letters); it is consulted
/// only where that body is shaped as one.
pub fn parse_aprs(info: &str, uncompressed: bool) -> (p: Parsed<'_>)
    ensures
        p@ == parse_aprs_spec(info.spec_bytes(), uncompressed),
{
    proof {
        lemma_str_valid(info);
    }
    let b = info.as_bytes();
    if b.len() == 0 {
        proof {
            reveal_strlit("");
            assert(""@ =~= Seq::<char>::empty());
        }
        return Parsed { kind: "other", pos: None, name: None, text: "" };
    }
    let dti = b[0];
    if dti >= 0x80 {
        // A multi-byte first character is no data type identifier.
        return Parsed { kind: "other", pos: None, name: None, text: info };
    }
    let (_dti, body) = split_around(info, 0);
    proof {
        lemma_str_valid(body);
        assert(body.spec_bytes() =~= info.spec_bytes().skip(1));
    }
    if dti == 0x21 || dti == 0x3D {
        position(body, "position", uncompressed)
    } else if dti == 0x2F || dti == 0x40 {
        position(tail_str(body, 7), "position", uncompressed)
    } else if dti == 0x3E {
        Parsed { kind: "status", pos: None, name: None, text: body }
    } else if dti == 0x3A {
        Parsed { kind: "message", pos: None, name: name_of(body), text: tail_str(body, 10) }
    } else if dti == 0x3B {
        let name = name_of(body);
        let p = position(tail_str(body, 17), "object", uncompressed);
        Parsed { name, ..p }
    } else if dti == 0x29 {
        match find_byte(body, 0x21, 0x5F) {
            Some(i) => {
                proof {
                    lemma_byte_pos(body.spec_bytes(), 0x21, 0x5F);
                }
                let (name, _rest) = split_around(body, i);
                let p = position(tail_str(body, i + 1), "item", uncompressed);
                Parsed { name: Some(name), ..p }
            },
            None => Parsed { kind: "item", pos: None, name: None, text: body },
        }
    } else if dti == 0x60 || dti == 0x27 {
        Parsed { kind: "mic-e", pos: None, name: None, text: body }
    } else {
        Parsed { kind: "other", pos: None, name: None, text: info }
    }
}

// ---------------------------------------------------------------------
// Wire record
// ---------------------------------------------------------------------

/// One APRS frame, ready to serialize as a line of the `events` port.
/// Borrows from the monitor line.
pub struct AprsSpot<'a> {
    /// Source callsign-SSID, e.g. `KK6ABC-9`.
    pub call: &'a str,
    /// Digipeater path, comma-joined; may be empty.
    pub path: &'a str,
    /// Kind of report, as `parse_aprs` names it.
    pub kind: &'static str,
    /// Latitude and longitude, already rendered as decimal numbers (five
    /// decimals), when the report carried a position.
    pub pos: Option<(&'a str, &'a str)>,
    /// Object/item name or message addressee.
    pub name: Option<&'a str>,
    /// Comment, status text or message body.
    pub text: &'a str,
    /// The raw information field.
    pub raw: &'a str,
}

/// Opening of an APRS record: `call` and `kind`.
pub open spec fn aprs_head(spot: AprsSpot) -> Seq<u8> {
    "{\"call\":\"".spec_bytes() + escape_bytes(spot.call.spec_bytes()) + "\",\"kind\":\"".spec_bytes()
        + spot.kind.spec_bytes() + "\"".spec_bytes()
}

/// The `path` member, present when the path is not empty.
pub open spec fn aprs_path(spot: AprsSpot) -> Seq<u8> {
    if spot.path.spec_bytes().len() > 0 {
        str_member(",\"path\":\"", spot.path.spec_bytes())
    } else {
        Seq::empty()
    }
}

/// The `lat`/`lon` members, present with a position.
pub open spec fn aprs_pos(spot: AprsSpot) -> Seq<u8> {
    match spot.pos {
        Some((lat, lon)) => ",\"lat\":".spec_bytes() + lat.spec_bytes() + ",\"lon\":".spec_bytes()
            + lon.spec_bytes(),
        None => Seq::empty(),
    }
}

/// The `name` member, present with a name.
pub open spec fn aprs_name(spot: AprsSpot) -> Seq<u8> {
    match spot.name {
        Some(n) => str_member(",\"name\":\"", n.spec_bytes()),
        None => Seq::empty(),
    }
}

/// The `text` member, present when the text is not empty.
pub open spec fn aprs_text(spot: AprsSpot) -> Seq<u8> {
    if spot.text.spec_bytes().len() > 0 {
        str_member(",\"text\":\"", spot.text.spec_bytes())
    } else {
        Seq::empty()
    }
}

/// Closing of an APRS record: the `raw` member, the brace and a newline.
pub open spec fn aprs_tail(spot: AprsSpot) -> Seq<u8> {
    ",\"raw\":\"".spec_bytes() + escape_bytes(spot.raw.spec_bytes()) + "\"}\n".spec_bytes()
}

/// The JSON object of `spot` and its newline: `call`, `kind`, then
/// `path` (when not empty), `lat`/`lon` (with a position), `name` (when
/// present), `text` (when not empty), and `raw`.
pub open spec fn aprs_json(spot: AprsSpot) -> Seq<u8> {
    aprs_head(spot) + aprs_path(spot) + aprs_pos(spot) + aprs_name(spot) + aprs_text(spot)
        + aprs_tail(spot)
}

impl<'a> AprsSpot<'a> {
    fn write_head(&self, out: &mut Vec<u8>)
        ensures
            final(out)@ == old(out)@ + aprs_head(*self),
    {
        let ghost o = out@;
        push_str(out, "{\"call\":\"");
        write_str(out, self.call);
        push_str(out, "\",\"kind\":\"");
        push_str(out, self.kind);
        push_str(out, "\"");
        assert(out@ =~= o + aprs_head(*self));
    }

    fn write_pos(&self, out: &mut Vec<u8>)
        ensures
            final(out)@ == old(out)@ + aprs_pos(*self),
    {
        let ghost o = out@;
        if let Some((lat, lon)) = self.pos {
            push_str(out, ",\"lat\":");
            push_str(out, lat);
            push_str(out, ",\"lon\":");
            push_str(out, lon);
        }
        assert(out@ =~= o + aprs_pos(*self));
    }

    fn write_tail(&self, out: &mut Vec<u8>)
        ensures
            final(out)@ == old(out)@ + aprs_tail(*self),
    {
        let ghost o = out@;
        push_str(out, ",\"raw\":\"");
        write_str(out, self.raw);
        push_str(out, "\"}\n");
        assert(out@ =~= o + aprs_tail(*self));
    }

    /// Append the record's JSON object and a newline to `out`.
    pub fn write_json(&self, out: &mut Vec<u8>)
        ensures
            final(out)@ == old(out)@ + aprs_json(*self),
    {
        let ghost o = out@;
        self.write_head(out);
        let ghost o1 = out@;
        if self.path.as_bytes().len() > 0 {
            write_member(out, ",\"path\":\"", self.path);
        }
        let ghost o2 = out@;
        assert(o2 == o1 + aprs_path(*self));
        self.write_pos(out);
        let ghost o3 = out@;
        if let Some(name) = self.name {
            write_member(out, ",\"name\":\"", name);
        }
        let ghost o4 = out@;
        assert(o4 == o3 + aprs_name(*self));
        if self.text.as_bytes().len() > 0 {
            write_member(out, ",\"text\":\"", self.text);
        }
        let ghost o5 = out@;
        assert(o5 == o4 + aprs_text(*self));
        self.write_tail(out);
        proof {
            assert(out@ =~= o + aprs_json(*self));
        }
    }
}

/// Nothing is silently dropped: a field with an unrecognised data type
/// identifier comes back as `other`, without position or name, carrying
/// the whole field as its text; and a Mic-E report is kept as text without
/// a position.
pub proof fn law_aprs_unrecognised_kept_whole(info: Seq<u8>, uncompressed: bool)
    requires
        valid_utf8(info),
        info.len() > 0,
    ensures
        ({
            let dti = info[0];
            let known = dti == 0x21 || dti == 0x3D || dti == 0x2F || dti == 0x40 || dti == 0x3E
                || dti == 0x3A || dti == 0x3B || dti == 0x29 || dti == 0x60 || dti == 0x27;
            !known ==> parse_aprs_spec(info, uncompressed) == (ParsedView {
                kind: "other"@,
                pos: None,
                name: None,
                text: decode_utf8(info),
            })
        }),
        (info[0] == 0x60 || info[0] == 0x27) ==> parse_aprs_spec(info, uncompressed).pos is None,
{
}

/// The uncompressed-position verdict matters only where the field's
/// position body is shaped as an uncompressed report: elsewhere the parse
/// is the same whatever the verdict.
pub proof fn law_aprs_verdict_consulted_only_on_shaped_body(info: Seq<u8>)
    requires
        !(position_body_spec(info) matches Some(b) && uncompressed_shape(b)),
    ensures
        parse_aprs_spec(info, true) == parse_aprs_spec(info, false),
{
    if info.len() > 0 {
        let body = info.skip(1);
        let dti = info[0];
        if dti == 0x3B {
            assert(object_spec(body, true) == object_spec(body, false));
        } else if dti == 0x29 {
            assert(item_spec(body, true) == item_spec(body, false));
        }
    }
}

/// A position is reported only from the body that `position_body` names:
/// an uncompressed one only where that body is shaped as one and its
/// numbers read, a compressed one only from bytes 1..9 of that body.
pub proof fn law_aprs_position_from_body(info: Seq<u8>, uncompressed: bool)
    ensures
        parse_aprs_spec(info, uncompressed).pos matches Some(p) ==> (position_body_spec(info) matches Some(b) && (
            p == AprsPosition::Uncompressed ==> uncompressed && uncompressed_shape(b))
            && (p is Compressed ==> slice_ok(b, 1, 9) && p == compressed_spec(b.subrange(1, 9))->0)),
{
}

/// A position report with messaging (`=`) is read exactly as one
/// without (`!`): the same kind, position, name and text, and the same
/// body handed to the position decoder. Such a report is of kind
/// `position` whatever its body, and a body shaped as an uncompressed
/// report whose numbers read gives an uncompressed position, with the
/// comment from byte 19 of the body on.
pub proof fn law_aprs_position_reports(b: Seq<u8>, uncompressed: bool)
    ensures
        parse_aprs_spec(seq![0x3Du8] + b, uncompressed) == parse_aprs_spec(
            seq![0x21u8] + b,
            uncompressed,
        ),
        position_body_spec(seq![0x3Du8] + b) == Some(b),
        position_body_spec(seq![0x21u8] + b) == Some(b),
        parse_aprs_spec(seq![0x21u8] + b, uncompressed).kind == "position"@,
        parse_aprs_spec(seq![0x3Du8] + b, uncompressed).kind == "position"@,
        b.len() >= 19 && b[4] == 0x2E && uncompressed ==> {
            &&& parse_aprs_spec(seq![0x3Du8] + b, uncompressed).pos == Some(
                AprsPosition::Uncompressed,
            )
            &&& parse_aprs_spec(seq![0x3Du8] + b, uncompressed).name is None
            &&& slice_ok(b, 19, b.len() as int) ==> parse_aprs_spec(seq![0x3Du8] + b, uncompressed).text
                == decode_utf8(b.skip(19))
        },
{
    assert((seq![0x3Du8] + b)[0] == 0x3D);
    assert((seq![0x21u8] + b)[0] == 0x21);
    assert((seq![0x3Du8] + b).skip(1) =~= b);
    assert((seq![0x21u8] + b).skip(1) =~= b);
    assert(b.subrange(19, b.len() as int) =~= b.skip(19));
}

/// The layout of an APRS record, member by member: `call` and `kind`,
/// then `path` when the path is not empty, `lat` and `lon` with a
/// position, `name` when there is one, `text` when the text is not empty,
/// and `raw`, closing the object; strings are escaped, coordinates are
/// written as given.
pub proof fn law_aprs_record_layout(spot: AprsSpot)
    ensures
        aprs_json(spot) == "{\"call\":\"".spec_bytes() + escape_bytes(spot.call.spec_bytes())
            + "\",\"kind\":\"".spec_bytes() + spot.kind.spec_bytes() + "\"".spec_bytes() + (if spot.path.spec_bytes().len() > 0 {
            ",\"path\":\"".spec_bytes() + escape_bytes(spot.path.spec_bytes()) + "\"".spec_bytes()
        } else {
            Seq::empty()
        }) + (match spot.pos {
            Some((lat, lon)) => ",\"lat\":".spec_bytes() + lat.spec_bytes() + ",\"lon\":".spec_bytes()
                + lon.spec_bytes(),
            None => Seq::empty(),
        }) + (match spot.name {
            Some(n) => ",\"name\":\"".spec_bytes() + escape_bytes(n.spec_bytes()) + "\"".spec_bytes(),
            None => Seq::empty(),
        }) + (if spot.text.spec_bytes().len() > 0 {
            ",\"text\":\"".spec_bytes() + escape_bytes(spot.text.spec_bytes()) + "\"".spec_bytes()
        } else {
            Seq::empty()
        }) + ",\"raw\":\"".spec_bytes() + escape_bytes(spot.raw.spec_bytes()) + "\"}\n".spec_bytes(),
        spot.text.spec_bytes().len() > 0 ==> exists|pre: Seq<u8>|
            aprs_json(spot) == pre + ",\"text\":\"".spec_bytes() + escape_bytes(spot.text.spec_bytes())
                + "\"".spec_bytes() + ",\"raw\":\"".spec_bytes() + escape_bytes(spot.raw.spec_bytes())
                + "\"}\n".spec_bytes(),
{
    let head = "{\"call\":\"".spec_bytes() + escape_bytes(spot.call.spec_bytes())
        + "\",\"kind\":\"".spec_bytes() + spot.kind.spec_bytes() + "\"".spec_bytes();
    assert(aprs_head(spot) =~= head);
    let pre = aprs_head(spot) + aprs_path(spot) + aprs_pos(spot) + aprs_name(spot);
    if spot.text.spec_bytes().len() > 0 {
        assert(aprs_json(spot) =~= pre + ",\"text\":\"".spec_bytes() + escape_bytes(
            spot.text.spec_bytes(),
        ) + "\"".spec_bytes() + ",\"raw\":\"".spec_bytes() + escape_bytes(spot.raw.spec_bytes())
            + "\"}\n".spec_bytes());
    }
    assert(aprs_json(spot) =~= "{\"call\":\"".spec_bytes() + escape_bytes(spot.call.spec_bytes())
        + "\",\"kind\":\"".spec_bytes() + spot.kind.spec_bytes() + "\"".spec_bytes() + (if spot.path.spec_bytes().len() > 0 {
        ",\"path\":\"".spec_bytes() + escape_bytes(spot.path.spec_bytes()) + "\"".spec_bytes()
    } else {
        Seq::empty()
    }) + (match spot.pos {
        Some((lat, lon)) => ",\"lat\":".spec_bytes() + lat.spec_bytes() + ",\"lon\":".spec_bytes()
            + lon.spec_bytes(),
        None => Seq::empty(),
    }) + (match spot.name {
        Some(n) => ",\"name\":\"".spec_bytes() + escape_bytes(n.spec_bytes()) + "\"".spec_bytes(),
        None => Seq::empty(),
    }) + (if spot.text.spec_bytes().len() > 0 {
        ",\"text\":\"".spec_bytes() + escape_bytes(spot.text.spec_bytes()) + "\"".spec_bytes()
    } else {
        Seq::empty()
    }) + ",\"raw\":\"".spec_bytes() + escape_bytes(spot.raw.spec_bytes()) + "\"}\n".spec_bytes());
}

/// How each data type identifier is read, given the rest `b` of the
/// field: a timestamped position (`/`, `@`) is the position report of the
/// body after its 7-byte timestamp; a status (`>`) is its whole text; a
/// message (`:`) names its addressee in the 9-byte field (trimmed) and
/// carries the text after the colon at byte 9; an object (`;`) names
/// itself in the 9-byte field and carries the position report after its
/// flag and 7-byte timestamp; an item (`)`) is named by the bytes before
/// its first `!` or `_` flag and carries the position report after it;
/// and a Mic-E report (`` ` `` or `'`) is kept as text.
pub proof fn law_aprs_formats(b: Seq<u8>, uncompressed: bool)
    ensures
        slice_ok(b, 7, b.len() as int) ==> parse_aprs_spec(seq![0x2Fu8] + b, uncompressed)
            == parse_aprs_spec(seq![0x21u8] + b.skip(7), uncompressed),
        slice_ok(b, 7, b.len() as int) ==> parse_aprs_spec(seq![0x40u8] + b, uncompressed)
            == parse_aprs_spec(seq![0x21u8] + b.skip(7), uncompressed),
        parse_aprs_spec(seq![0x3Eu8] + b, uncompressed) == (ParsedView {
            kind: "status"@,
            pos: None,
            name: None,
            text: decode_utf8(b),
        }),
        parse_aprs_spec(seq![0x3Au8] + b, uncompressed).kind == "message"@,
        parse_aprs_spec(seq![0x3Au8] + b, uncompressed).pos is None,
        slice_ok(b, 0, 9) ==> parse_aprs_spec(seq![0x3Au8] + b, uncompressed).name == Some(
            trim_spec(decode_utf8(b.take(9))),
        ),
        slice_ok(b, 10, b.len() as int) ==> parse_aprs_spec(seq![0x3Au8] + b, uncompressed).text
            == decode_utf8(b.skip(10)),
        slice_ok(b, 17, b.len() as int) ==> {
            let obj = parse_aprs_spec(seq![0x3Bu8] + b, uncompressed);
            let pos = parse_aprs_spec(seq![0x21u8] + b.skip(17), uncompressed);
            &&& obj.kind == "object"@
            &&& obj.pos == pos.pos
            &&& obj.text == pos.text
            &&& slice_ok(b, 0, 9) ==> obj.name == Some(trim_spec(decode_utf8(b.take(9))))
        },
        ({
            let i = byte_pos(b, 0x21, 0x5F);
            let item = parse_aprs_spec(seq![0x29u8] + b, uncompressed);
            &&& item.kind == "item"@
            &&& i >= 0 && slice_ok(b, i + 1, b.len() as int) ==> {
                let pos = parse_aprs_spec(seq![0x21u8] + b.skip(i + 1), uncompressed);
                &&& item.name == Some(decode_utf8(b.take(i)))
                &&& item.pos == pos.pos
                &&& item.text == pos.text
            }
            &&& i < 0 ==> item.pos is None && item.text == decode_utf8(b)
        }),
        parse_aprs_spec(seq![0x60u8] + b, uncompressed) == (ParsedView {
            kind: "mic-e"@,
            pos: None,
            name: None,
            text: decode_utf8(b),
        }),
        parse_aprs_spec(seq![0x27u8] + b, uncompressed) == (ParsedView {
            kind: "mic-e"@,
            pos: None,
            name: None,
            text: decode_utf8(b),
        }),
{
    assert((seq![0x2Fu8] + b).skip(1) =~= b);
    assert((seq![0x40u8] + b).skip(1) =~= b);
    assert((seq![0x3Eu8] + b).skip(1) =~= b);
    assert((seq![0x3Au8] + b).skip(1) =~= b);
    assert((seq![0x3Bu8] + b).skip(1) =~= b);
    assert((seq![0x29u8] + b).skip(1) =~= b);
    assert((seq![0x60u8] + b).skip(1) =~= b);
    assert((seq![0x27u8] + b).skip(1) =~= b);
    assert((seq![0x21u8] + b.skip(7)).skip(1) =~= b.skip(7));
    assert((seq![0x21u8] + b.skip(17)).skip(1) =~= b.skip(17));
    assert(b.subrange(0, 9) =~= b.take(9));
    assert(b.subrange(10, b.len() as int) =~= b.skip(10));
    let i = byte_pos(b, 0x21, 0x5F);
    if i >= 0 {
        assert((seq![0x21u8] + b.skip(i + 1)).skip(1) =~= b.skip(i + 1));
    }
}

} // verus!
