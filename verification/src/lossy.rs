//! Lossy UTF-8 decoding as bytes: every well-formed character is kept, and
//! every maximal ill-formed subsequence becomes one U+FFFD (EF BF BD).
use vstd::prelude::*;

verus! {

/// A UTF-8 continuation byte.
pub open spec fn is_cont(b: u8) -> bool {
    0x80 <= b <= 0xBF
}

/// The allowed second byte after a three-byte lead.
pub open spec fn second_ok3(lead: u8, b: u8) -> bool {
    if lead == 0xE0 {
        0xA0 <= b <= 0xBF
    } else if lead == 0xED {
        0x80 <= b <= 0x9F
    } else {
        is_cont(b)
    }
}

/// The allowed second byte after a four-byte lead.
pub open spec fn second_ok4(lead: u8, b: u8) -> bool {
    if lead == 0xF0 {
        0x90 <= b <= 0xBF
    } else if lead == 0xF4 {
        0x80 <= b <= 0x8F
    } else {
        is_cont(b)
    }
}

/// One decoding step at the front of a non-empty byte sequence: whether it
/// starts with a well-formed character, and how many bytes the character
/// (or the ill-formed subsequence) takes.
pub open spec fn utf8_step(s: Seq<u8>) -> (bool, int) {
    let b = s[0];
    if b < 0x80 {
        (true, 1)
    } else if 0xC2 <= b <= 0xDF {
        if s.len() > 1 && is_cont(s[1]) {
            (true, 2)
        } else {
            (false, 1)
        }
    } else if 0xE0 <= b <= 0xEF {
        if s.len() > 1 && second_ok3(b, s[1]) {
            if s.len() > 2 && is_cont(s[2]) {
                (true, 3)
            } else {
                (false, 2)
            }
        } else {
            (false, 1)
        }
    } else if 0xF0 <= b <= 0xF4 {
        if s.len() > 1 && second_ok4(b, s[1]) {
            if s.len() > 2 && is_cont(s[2]) {
                if s.len() > 3 && is_cont(s[3]) {
                    (true, 4)
                } else {
                    (false, 3)
                }
            } else {
                (false, 2)
            }
        } else {
            (false, 1)
        }
    } else {
        (false, 1)
    }
}

/// The UTF-8 bytes of U+FFFD.
pub open spec fn replacement_bytes() -> Seq<u8> {
    seq![0xEFu8, 0xBFu8, 0xBDu8]
}

/// Lossy decoding of a byte sequence, given as the bytes of the result.
pub open spec fn spec_utf8_lossy(s: Seq<u8>) -> Seq<u8>
    decreases s.len(),
{
    if s.len() == 0 {
        seq![]
    } else {
        let (ok, k) = utf8_step(s);
        if 1 <= k <= s.len() {
            (if ok {
                s.take(k)
            } else {
                replacement_bytes()
            }) + spec_utf8_lossy(s.skip(k))
        } else {
            seq![]
        }
    }
}

/// A step takes at least one byte and no more than there are.
proof fn lemma_step_bounds(s: Seq<u8>)
    requires
        s.len() > 0,
    ensures
        1 <= utf8_step(s).1 <= s.len(),
{
}

fn cont_at(b: &[u8], i: usize, end: usize) -> (r: bool)
    requires
        end <= b.len(),
    ensures
        r == (i < end && is_cont(b@[i as int])),
{
    i < end && 0x80 <= b[i] && b[i] <= 0xBF
}

/// One decoding step of `b[i..end]`.
fn step_at(b: &[u8], i: usize, end: usize) -> (r: (bool, usize))
    requires
        i < end <= b.len(),
    ensures
        r.0 == utf8_step(b@.subrange(i as int, end as int)).0,
        r.1 as int == utf8_step(b@.subrange(i as int, end as int)).1,
{
    let ghost s = b@.subrange(i as int, end as int);
    assert(s[0] == b@[i as int]);
    assert(i + 1 < end ==> s[1] == b@[i + 1]);
    assert(i + 2 < end ==> s[2] == b@[i + 2]);
    assert(i + 3 < end ==> s[3] == b@[i + 3]);
    let lead = b[i];
    if lead < 0x80 {
        (true, 1)
    } else if 0xC2 <= lead && lead <= 0xDF {
        if cont_at(b, i + 1, end) {
            (true, 2)
        } else {
            (false, 1)
        }
    } else if 0xE0 <= lead && lead <= 0xEF {
        let second_ok = i + 1 < end && {
            let c = b[i + 1];
            if lead == 0xE0 {
                0xA0 <= c && c <= 0xBF
            } else if lead == 0xED {
                0x80 <= c && c <= 0x9F
            } else {
                0x80 <= c && c <= 0xBF
            }
        };
        if second_ok {
            if cont_at(b, i + 2, end) {
                (true, 3)
            } else {
                (false, 2)
            }
        } else {
            (false, 1)
        }
    } else if 0xF0 <= lead && lead <= 0xF4 {
        let second_ok = i + 1 < end && {
            let c = b[i + 1];
            if lead == 0xF0 {
                0x90 <= c && c <= 0xBF
            } else if lead == 0xF4 {
                0x80 <= c && c <= 0x8F
            } else {
                0x80 <= c && c <= 0xBF
            }
        };
        if second_ok {
            if cont_at(b, i + 2, end) {
                if cont_at(b, i + 3, end) {
                    (true, 4)
                } else {
                    (false, 3)
                }
            } else {
                (false, 2)
            }
        } else {
            (false, 1)
        }
    } else {
        (false, 1)
    }
}

/// Lossy decoding of `b[start..end]`, as bytes.
pub fn utf8_lossy_range(b: &[u8], start: usize, end: usize) -> (out: Vec<u8>)
    requires
        start <= end <= b.len(),
    ensures
        out@ == spec_utf8_lossy(b@.subrange(start as int, end as int)),
{
    let mut out: Vec<u8> = Vec::new();
    let mut i = start;
    assert(out@ + spec_utf8_lossy(b@.subrange(start as int, end as int)) =~= spec_utf8_lossy(
        b@.subrange(start as int, end as int),
    ));
    while i < end
        invariant
            start <= i <= end <= b.len(),
            out@ + spec_utf8_lossy(b@.subrange(i as int, end as int)) == spec_utf8_lossy(
                b@.subrange(start as int, end as int),
            ),
        decreases end - i,
    {
        let ghost s = b@.subrange(i as int, end as int);
        proof {
            lemma_step_bounds(s);
        }
        let (ok, k) = step_at(b, i, end);
        let ghost before = out@;
        if ok {
            let mut j: usize = 0;
            while j < k
                invariant
                    i + k <= end <= b.len(),
                    0 <= j <= k,
                    out@ == before + b@.subrange(i as int, i + j),
                decreases k - j,
            {
                out.push(b[i + j]);
                j = j + 1;
                assert(out@ =~= before + b@.subrange(i as int, i + j));
            }
            assert(s.take(k as int) =~= b@.subrange(i as int, i + k));
        } else {
            out.push(0xEF);
            out.push(0xBF);
            out.push(0xBD);
            assert(out@ =~= before + replacement_bytes());
        }
        assert(s.skip(k as int) =~= b@.subrange(i + k, end as int));
        i = i + k;
    }
    assert(b@.subrange(end as int, end as int) =~= Seq::<u8>::empty());
    assert(out@ + Seq::<u8>::empty() =~= out@);
    out
}

/// Lossy decoding of a byte string, as bytes.
pub fn utf8_lossy(b: &[u8]) -> (out: Vec<u8>)
    ensures
        out@ == spec_utf8_lossy(b@),
{
    assert(b@.subrange(0, b@.len() as int) =~= b@);
    utf8_lossy_range(b, 0, b.len())
}

} // verus!
