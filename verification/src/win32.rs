//! Windows API constants used by the colour rules, and UTF-16 ("wide")
//! strings as the Windows API takes and gives them.
use vstd::prelude::*;
use vstd::utf8::is_scalar;
use crate::text::chars_of;

verus! {

broadcast use {vstd::utf8::char_is_scalar, vstd::utf8::char_u32_cast};

/// Tree-view: set background colour.
pub const TVM_SETBKCOLOR: u32 = 0x111D;
/// Tree-view: set text colour.
pub const TVM_SETTEXTCOLOR: u32 = 0x1120;
/// Tree-view: set line colour.
pub const TVM_SETLINECOLOR: u32 = 0x1128;
/// List-view: set background colour.
pub const LVM_SETBKCOLOR: u32 = 0x1001;
/// List-view: set text colour.
pub const LVM_SETTEXTCOLOR: u32 = 0x1024;
/// List-view: set text background colour.
pub const LVM_SETTEXTBKCOLOR: u32 = 0x1026;
/// The value that some headers name "set background colour" for header
/// controls; it is in fact `HDM_INSERTITEMA`, which takes a pointer.
pub const HDM_SETBKCOLOR: u32 = 0x1201;
/// DWM attribute: immersive dark title bar.
pub const DWMWA_USE_IMMERSIVE_DARK_MODE: u32 = 20;
/// Window style index for `GetWindowLongPtrW`.
pub const GWL_STYLE: i32 = -16;
/// Child-window style bit.
pub const WS_CHILD: u32 = 0x4000_0000;
/// Computer-based-training hook type.
pub const WH_CBT: i32 = 5;
/// CBT hook code: a window is being created.
pub const HCBT_CREATEWND: i32 = 3;
/// Hook type that sees messages after the window procedure handled them.
pub const WH_CALLWNDPROCRET: i32 = 12;
/// Hook code: the hook may process the message.
pub const HC_ACTION: i32 = 0;
/// Message sent once a window is created.
pub const WM_CREATE: u32 = 0x0001;
/// Message sent when a window is destroyed.
pub const WM_DESTROY: u32 = 0x0002;
/// Message posted for a registered hot key.
pub const WM_HOTKEY: u32 = 0x0312;

/// The replacement character that stands for an ill-formed UTF-16 unit.
pub const REPLACEMENT_CHAR: char = '\u{FFFD}';

/// The UTF-16 code units of one character: one unit inside the Basic
/// Multilingual Plane, a high/low surrogate pair above it.
pub open spec fn utf16_units(c: char) -> Seq<u16> {
    let v = c as u32;
    if v < 0x10000 {
        seq![v as u16]
    } else {
        let w = v - 0x10000;
        seq![(0xD800 + w / 0x400) as u16, (0xDC00 + w % 0x400) as u16]
    }
}

/// UTF-16 encoding of a character sequence.
pub open spec fn encode_utf16(s: Seq<char>) -> Seq<u16>
    decreases s.len(),
{
    if s.len() == 0 {
        seq![]
    } else {
        encode_utf16(s.drop_last()) + utf16_units(s.last())
    }
}

pub open spec fn is_high_surrogate(u: u16) -> bool {
    0xD800 <= u <= 0xDBFF
}

pub open spec fn is_low_surrogate(u: u16) -> bool {
    0xDC00 <= u <= 0xDFFF
}

/// The scalar value that a surrogate pair stands for.
pub open spec fn pair_scalar(hi: u16, lo: u16) -> u32 {
    (0x10000 + (hi - 0xD800) * 0x400 + (lo - 0xDC00)) as u32
}

/// Lossy UTF-16 decoding: well-formed units and surrogate pairs give their
/// character; every unpaired surrogate gives one replacement character, and
/// decoding goes on with the unit after it.
pub open spec fn decode_utf16_lossy(units: Seq<u16>) -> Seq<char>
    decreases units.len(),
{
    if units.len() == 0 {
        seq![]
    } else {
        let u = units[0];
        if !is_high_surrogate(u) && !is_low_surrogate(u) {
            seq![(u as u32) as char] + decode_utf16_lossy(units.drop_first())
        } else if is_high_surrogate(u) && units.len() >= 2 && is_low_surrogate(units[1]) {
            seq![pair_scalar(u, units[1]) as char] + decode_utf16_lossy(
                units.subrange(2, units.len() as int),
            )
        } else {
            seq![REPLACEMENT_CHAR] + decode_utf16_lossy(units.drop_first())
        }
    }
}

/// The units before the first zero unit, or all of them where none is zero.
pub open spec fn before_nul(units: Seq<u16>) -> Seq<u16>
    decreases units.len(),
{
    if units.len() == 0 || units[0] == 0 {
        seq![]
    } else {
        seq![units[0]] + before_nul(units.drop_first())
    }
}

/// Where `p` is the first zero unit (or the length), the units before the
/// first zero are the first `p` units.
proof fn lemma_before_nul_prefix(units: Seq<u16>, p: int)
    requires
        0 <= p <= units.len(),
        p < units.len() ==> units[p] == 0,
        forall|j: int| 0 <= j < p ==> units[j] != 0,
    ensures
        before_nul(units) == units.take(p),
    decreases units.len(),
{
    if units.len() == 0 || p == 0 {
    } else {
        let rest = units.drop_first();
        assert forall|j: int| 0 <= j < p - 1 implies rest[j] != 0 by {
            assert(rest[j] == units[j + 1]);
        }
        lemma_before_nul_prefix(rest, p - 1);
        assert(units.take(p) =~= seq![units[0]] + rest.take(p - 1));
    }
}

/// `char::from_u32`: the character whose scalar value is `v`, where `v` is
/// a Unicode scalar value (not a surrogate, at most 0x10FFFF), else `None`.
#[verifier::external_body]
fn char_from_u32(v: u32) -> (c: Option<char>)
    ensures
        c is Some <==> is_scalar(v),
        c matches Some(ch) ==> ch as u32 == v,
{
    char::from_u32(v)
}

/// `String::push`: appends one character at the end.
#[verifier::external_body]
fn string_push(s: &mut String, c: char)
    ensures
        final(s)@ == old(s)@.push(c),
{
    s.push(c)
}

/// Builds a string from its characters.
pub fn string_from_chars(cs: &[char]) -> (s: String)
    ensures
        s@ == cs@,
{
    let mut s = String::new();
    let mut i: usize = 0;
    while i < cs.len()
        invariant
            0 <= i <= cs.len(),
            s@ == cs@.take(i as int),
        decreases cs.len() - i,
    {
        string_push(&mut s, cs[i]);
        i = i + 1;
        assert(cs@.take(i as int) == cs@.take(i - 1).push(cs@[i - 1]));
    }
    assert(cs@.take(cs.len() as int) == cs@);
    s
}

/// The character of a scalar value, where it is one.
fn scalar_char(v: u32) -> (c: char)
    requires
        is_scalar(v),
    ensures
        c == v as char,
{
    match char_from_u32(v) {
        Some(ch) => {
            proof {
                vstd::utf8::char_u32_cast(ch, v);
            }
            ch
        },
        None => REPLACEMENT_CHAR,
    }
}

/// Appends the UTF-16 units of one character.
fn push_units(out: &mut Vec<u16>, c: char)
    ensures
        final(out)@ == old(out)@ + utf16_units(c),
{
    let v = c as u32;
    if v < 0x10000 {
        out.push(v as u16);
    } else {
        let w = v - 0x10000;
        out.push((0xD800 + w / 0x400) as u16);
        out.push((0xDC00 + w % 0x400) as u16);
    }
    assert(final(out)@ =~= old(out)@ + utf16_units(c));
}

/// The UTF-16 encoding of a string followed by one terminating zero unit.
pub fn to_wide(s: &str) -> (w: Vec<u16>)
    ensures
        w@ == encode_utf16(s@).push(0u16),
{
    let cs = chars_of(s);
    let mut out: Vec<u16> = Vec::new();
    let mut i: usize = 0;
    while i < cs.len()
        invariant
            0 <= i <= cs.len(),
            cs@ == s@,
            out@ == encode_utf16(cs@.take(i as int)),
        decreases cs.len() - i,
    {
        push_units(&mut out, cs[i]);
        assert(cs@.take(i + 1).drop_last() == cs@.take(i as int));
        i = i + 1;
    }
    assert(cs@.take(cs.len() as int) == cs@);
    out.push(0);
    out
}

/// Lossy UTF-16 decoding of a unit sequence.
pub fn decode_wide_lossy(units: &[u16]) -> (cs: Vec<char>)
    ensures
        cs@ == decode_utf16_lossy(units@),
{
    let n = units.len();
    let mut out: Vec<char> = Vec::new();
    let mut i: usize = 0;
    assert(units@.subrange(0, n as int) =~= units@);
    assert(out@ + decode_utf16_lossy(units@) =~= decode_utf16_lossy(units@));
    while i < n
        invariant
            n == units@.len(),
            0 <= i <= n,
            out@ + decode_utf16_lossy(units@.subrange(i as int, n as int)) == decode_utf16_lossy(
                units@,
            ),
        decreases n - i,
    {
        let ghost rest = units@.subrange(i as int, n as int);
        let u = units[i];
        if u < 0xD800 || u > 0xDFFF {
            proof {
                assert(rest.drop_first() =~= units@.subrange(i + 1, n as int));
            }
            let c = scalar_char(u as u32);
            out.push(c);
            i = i + 1;
        } else if u <= 0xDBFF && i + 1 < n && units[i + 1] >= 0xDC00 && units[i + 1] <= 0xDFFF {
            let lo = units[i + 1];
            proof {
                assert(rest.subrange(2, rest.len() as int) =~= units@.subrange(i + 2, n as int));
                assert(rest[1] == lo);
            }
            let v: u32 = 0x10000 + ((u - 0xD800) as u32) * 0x400 + ((lo - 0xDC00) as u32);
            let c = scalar_char(v);
            out.push(c);
            i = i + 2;
        } else {
            proof {
                assert(rest.drop_first() =~= units@.subrange(i + 1, n as int));
            }
            out.push(REPLACEMENT_CHAR);
            i = i + 1;
        }
    }
    assert(units@.subrange(n as int, n as int) =~= Seq::<u16>::empty());
    assert(out@ + Seq::<char>::empty() =~= out@);
    out
}

/// The characters held in a fixed-size wide buffer: the units before the
/// first zero unit, decoded lossily.
pub fn wide_chars(buf: &[u16]) -> (cs: Vec<char>)
    ensures
        cs@ == decode_utf16_lossy(before_nul(buf@)),
{
    let mut p: usize = 0;
    while p < buf.len() && buf[p] != 0
        invariant
            0 <= p <= buf.len(),
            forall|j: int| 0 <= j < p ==> buf@[j] != 0,
        decreases buf.len() - p,
    {
        p = p + 1;
    }
    proof {
        lemma_before_nul_prefix(buf@, p as int);
    }
    let prefix = slice_prefix(buf, p);
    decode_wide_lossy(prefix.as_slice())
}

/// The string held in a fixed-size wide buffer: the units before the first
/// zero unit, decoded lossily.
pub fn wide_to_string(buf: &[u16]) -> (s: String)
    ensures
        s@ == decode_utf16_lossy(before_nul(buf@)),
{
    let cs = wide_chars(buf);
    string_from_chars(cs.as_slice())
}

/// The first `n` units of a slice.
fn slice_prefix(buf: &[u16], n: usize) -> (r: Vec<u16>)
    requires
        n <= buf.len(),
    ensures
        r@ == buf@.take(n as int),
{
    let mut r: Vec<u16> = Vec::new();
    let mut i: usize = 0;
    while i < n
        invariant
            n <= buf.len(),
            0 <= i <= n,
            r@ == buf@.take(i as int),
        decreases n - i,
    {
        r.push(buf[i]);
        i = i + 1;
        assert(r@ =~= buf@.take(i as int));
    }
    r
}

/// Encoding from the front: the units of the first character, then those of
/// the rest.
proof fn lemma_encode_utf16_front(s: Seq<char>)
    requires
        s.len() > 0,
    ensures
        encode_utf16(s) == utf16_units(s[0]) + encode_utf16(s.drop_first()),
    decreases s.len(),
{
    if s.len() == 1 {
        assert(s.drop_last() =~= Seq::<char>::empty());
        assert(s.drop_first() =~= Seq::<char>::empty());
        assert(encode_utf16(s.drop_last()) == Seq::<u16>::empty());
        assert(s.last() == s[0]);
        assert(encode_utf16(s) == encode_utf16(s.drop_last()) + utf16_units(s.last()));
        assert(encode_utf16(s) =~= utf16_units(s[0]));
        assert(utf16_units(s[0]) + encode_utf16(s.drop_first()) =~= utf16_units(s[0]));
    } else {
        lemma_encode_utf16_front(s.drop_last());
        assert(s.drop_last().drop_first() =~= s.drop_first().drop_last());
        assert(s.drop_first().last() == s.last());
        assert(encode_utf16(s) =~= utf16_units(s[0]) + encode_utf16(s.drop_first()));
    }
}

/// Decoding the units of one character followed by more units gives that
/// character first.
proof fn lemma_decode_units(c: char, rest: Seq<u16>)
    ensures
        decode_utf16_lossy(utf16_units(c) + rest) == seq![c] + decode_utf16_lossy(rest),
{
    let units = utf16_units(c) + rest;
    let v = c as u32;
    vstd::utf8::char_is_scalar(c);
    if v < 0x10000 {
        assert(units[0] == v as u16);
        assert(units.drop_first() =~= rest);
        vstd::utf8::char_u32_cast(c, v);
    } else {
        let w = v - 0x10000;
        let hi = (0xD800 + w / 0x400) as u16;
        let lo = (0xDC00 + w % 0x400) as u16;
        assert(w < 0x100000);
        assert(w / 0x400 < 0x400) by (nonlinear_arith)
            requires
                w < 0x100000,
        ;
        assert(w == (w / 0x400) * 0x400 + w % 0x400) by (nonlinear_arith);
        assert(units[0] == hi);
        assert(units[1] == lo);
        assert(units.subrange(2, units.len() as int) =~= rest);
        assert(pair_scalar(hi, lo) == v);
        vstd::utf8::char_u32_cast(c, v);
    }
}

/// No unit of the encoding of a string without NUL characters is zero.
proof fn lemma_encode_utf16_nonzero(s: Seq<char>)
    requires
        forall|i: int| 0 <= i < s.len() ==> s[i] != '\0',
    ensures
        forall|j: int| 0 <= j < encode_utf16(s).len() ==> encode_utf16(s)[j] != 0,
    decreases s.len(),
{
    if s.len() > 0 {
        lemma_encode_utf16_nonzero(s.drop_last());
        let c = s.last();
        assert(c != '\0');
        vstd::utf8::char_u32_cast(c, c as u32);
        let prev = encode_utf16(s.drop_last());
        assert forall|j: int| 0 <= j < encode_utf16(s).len() implies encode_utf16(s)[j] != 0 by {
            if j >= prev.len() {
                assert(encode_utf16(s)[j] == utf16_units(c)[j - prev.len()]);
            } else {
                assert(encode_utf16(s)[j] == prev[j]);
            }
        }
    }
}

/// Decoding undoes encoding.
pub proof fn lemma_decode_encode_utf16(s: Seq<char>)
    ensures
        decode_utf16_lossy(encode_utf16(s)) == s,
    decreases s.len(),
{
    if s.len() > 0 {
        lemma_encode_utf16_front(s);
        lemma_decode_units(s[0], encode_utf16(s.drop_first()));
        lemma_decode_encode_utf16(s.drop_first());
        assert(seq![s[0]] + s.drop_first() =~= s);
    }
}

/// Reading back a wide string: the buffer that `to_wide` builds for a string
/// without NUL characters holds exactly that string for `wide_to_string`.
pub proof fn lemma_wide_roundtrip(s: Seq<char>)
    requires
        forall|i: int| 0 <= i < s.len() ==> s[i] != '\0',
    ensures
        decode_utf16_lossy(before_nul(encode_utf16(s).push(0u16))) == s,
{
    let e = encode_utf16(s);
    lemma_encode_utf16_nonzero(s);
    lemma_before_nul_prefix(e.push(0u16), e.len() as int);
    assert(e.push(0u16).take(e.len() as int) =~= e);
    lemma_decode_encode_utf16(s);
}

} // verus!
