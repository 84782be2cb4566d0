//! The colour palette and how the configuration file spells a colour.
use vstd::prelude::*;
use crate::text::chars_of;

verus! {

/// A colour palette as Windows `COLORREF` values (`0x00BBGGRR`).
#[derive(Debug, Clone, Copy, PartialEq, Eq, Structural)]
pub struct Colors {
    pub bg: u32,
    pub text: u32,
    pub line: u32,
}

/// The whole configuration.
#[derive(Debug, Clone, Copy, PartialEq, Eq, Structural)]
pub struct Config {
    pub colors: Colors,
}

/// The built-in dark palette.
pub open spec fn default_palette() -> Colors {
    Colors { bg: 0x1E1E1E, text: 0xD4D4D4, line: 0x3C3C3C }
}

impl Config {
    /// The configuration used when none can be read.
    pub fn default_colors() -> (c: Config)
        ensures
            c == (Config { colors: default_palette() }),
    {
        Config { colors: Colors { bg: 0x1E1E1E, text: 0xD4D4D4, line: 0x3C3C3C } }
    }
}

/// Why a colour string was refused; the kinds that integer parsing reports.
#[derive(Debug, Clone, Copy, PartialEq, Eq, Structural)]
pub enum HexColorError {
    /// Nothing was left to parse.
    Empty,
    /// A character is not a hexadecimal digit (or a lone sign).
    InvalidDigit,
    /// The value does not fit in 32 bits.
    PosOverflow,
}

impl HexColorError {
    /// The message that integer parsing gives for this kind of failure.
    pub fn description(&self) -> (s: &'static str)
        ensures
            s@ == (match self {
                HexColorError::Empty => "cannot parse integer from empty string"@,
                HexColorError::InvalidDigit => "invalid digit found in string"@,
                HexColorError::PosOverflow => "number too large to fit in target type"@,
            }),
    {
        match self {
            HexColorError::Empty => "cannot parse integer from empty string",
            HexColorError::InvalidDigit => "invalid digit found in string",
            HexColorError::PosOverflow => "number too large to fit in target type",
        }
    }
}

/// Removes the prefix `p` from the front of `s` as many times as it occurs
/// there.
pub open spec fn strip_repeated(s: Seq<char>, p: Seq<char>) -> Seq<char>
    decreases s.len(),
{
    if p.len() > 0 && s.len() >= p.len() && s.take(p.len() as int) == p {
        strip_repeated(s.skip(p.len() as int), p)
    } else {
        s
    }
}

/// The value of a hexadecimal digit, either case.
pub open spec fn hex_digit_value(c: char) -> Option<int> {
    if '0' <= c <= '9' {
        Some(c as int - '0' as int)
    } else if 'a' <= c <= 'f' {
        Some(c as int - 'a' as int + 10)
    } else if 'A' <= c <= 'F' {
        Some(c as int - 'A' as int + 10)
    } else {
        None
    }
}

/// Reads hexadecimal digits left to right into `acc`, failing at the first
/// non-digit or as soon as the value exceeds 32 bits.
pub open spec fn scan_hex(digits: Seq<char>, acc: int) -> Result<int, HexColorError>
    decreases digits.len(),
{
    if digits.len() == 0 {
        Ok(acc)
    } else {
        match hex_digit_value(digits[0]) {
            None => Err(HexColorError::InvalidDigit),
            Some(v) => {
                let next = acc * 16 + v;
                if next > u32::MAX {
                    Err(HexColorError::PosOverflow)
                } else {
                    scan_hex(digits.drop_first(), next)
                }
            },
        }
    }
}

/// Unsigned base-16 parsing: an optional leading `+`, then one or more
/// hexadecimal digits.
pub open spec fn spec_parse_u32_hex(s: Seq<char>) -> Result<u32, HexColorError> {
    let r = if s.len() == 0 {
        Err(HexColorError::Empty)
    } else if s[0] == '+' {
        if s.len() == 1 {
            Err(HexColorError::InvalidDigit)
        } else {
            scan_hex(s.drop_first(), 0)
        }
    } else {
        scan_hex(s, 0)
    };
    narrow_result(r)
}

/// A scan result with its value as a 32-bit integer.
pub open spec fn narrow_result(r: Result<int, HexColorError>) -> Result<u32, HexColorError> {
    match r {
        Ok(v) => Ok(v as u32),
        Err(e) => Err(e),
    }
}

/// A colour as the configuration spells it: hexadecimal digits, after every
/// leading `0x` and then every leading `0X` is removed.
pub open spec fn spec_parse_hex_color(s: Seq<char>) -> Result<u32, HexColorError> {
    spec_parse_u32_hex(strip_repeated(strip_repeated(s, seq!['0', 'x']), seq!['0', 'X']))
}

/// The hexadecimal digit character of `d < 16`, in lower or upper case.
pub open spec fn hex_char(d: nat, upper: bool) -> char {
    if d < 10 {
        ((48 + d) as u8) as char
    } else if upper {
        ((55 + d) as u8) as char
    } else {
        ((87 + d) as u8) as char
    }
}

/// The hexadecimal spelling of `v`, most significant digit first, without
/// leading zeros ("0" for zero).
pub open spec fn hex_spelling(v: nat, upper: bool) -> Seq<char>
    decreases v,
{
    if v < 16 {
        seq![hex_char(v, upper)]
    } else {
        hex_spelling(v / 16, upper).push(hex_char(v % 16, upper))
    }
}

/// Every hexadecimal digit, `0`-`9`, `a`-`f` and `A`-`F`, has its value.
pub proof fn lemma_hex_digits(d: nat, upper: bool)
    requires
        d < 16,
    ensures
        hex_digit_value(hex_char(d, upper)) == Some(d as int),
        hex_char(d, upper) != '+',
        d != 0 ==> hex_char(d, upper) != '0',
{
}

/// Reading digits one more character: the value read so far times 16 plus
/// that digit.
proof fn lemma_scan_hex_push(s: Seq<char>, c: char, acc: int)
    requires
        0 <= acc,
    ensures
        scan_hex(s.push(c), acc) == (match scan_hex(s, acc) {
            Ok(a) => match hex_digit_value(c) {
                None => Err(HexColorError::InvalidDigit),
                Some(v) => if a * 16 + v > u32::MAX {
                    Err(HexColorError::PosOverflow)
                } else {
                    Ok(a * 16 + v)
                },
            },
            Err(e) => Err(e),
        }),
    decreases s.len(),
{
    if s.len() == 0 {
        assert(s.push(c).drop_first() =~= Seq::<char>::empty());
        assert(s.push(c)[0] == c);
        if let Some(v) = hex_digit_value(c) {
            assert(scan_hex(Seq::<char>::empty(), acc * 16 + v) == Ok::<int, HexColorError>(acc * 16 + v));
        }
    } else {
        assert(s.push(c)[0] == s[0]);
        assert(s.push(c).drop_first() =~= s.drop_first().push(c));
        match hex_digit_value(s[0]) {
            None => {},
            Some(v) => {
                if acc * 16 + v <= u32::MAX {
                    lemma_scan_hex_push(s.drop_first(), c, acc * 16 + v);
                }
            },
        }
    }
}

/// The digits of a spelling read back to the value, and the spelling has
/// no leading zero unless it is "0".
proof fn lemma_scan_spelling(v: nat, upper: bool)
    ensures
        scan_hex(hex_spelling(v, upper), 0) == (if v <= u32::MAX {
            Ok::<int, HexColorError>(v as int)
        } else {
            Err(HexColorError::PosOverflow)
        }),
        forall|i: int|
            0 <= i < hex_spelling(v, upper).len() ==> #[trigger] hex_digit_value(
                hex_spelling(v, upper)[i],
            ) is Some,
        hex_spelling(v, upper).len() > 0,
        hex_spelling(v, upper)[0] != '+',
        v >= 1 ==> hex_spelling(v, upper)[0] != '0',
        hex_spelling(v, upper).len() >= 2 ==> v >= 16,
    decreases v,
{
    if v < 16 {
        lemma_hex_digits(v, upper);
        let s = hex_spelling(v, upper);
        assert(s == seq![hex_char(v, upper)]);
        assert(s.drop_first() =~= Seq::<char>::empty());
        assert(scan_hex(Seq::<char>::empty(), v as int) == Ok::<int, HexColorError>(v as int));
        assert(v <= u32::MAX);
    } else {
        let q = v / 16;
        let r = v % 16;
        lemma_scan_spelling(q, upper);
        lemma_hex_digits(r, upper);
        lemma_hex_digits(q % 16, upper);
        assert(q >= 1);
        lemma_scan_hex_push(hex_spelling(q, upper), hex_char(r, upper), 0);
        assert(q * 16 + r == v);
        let s = hex_spelling(v, upper);
        assert(s[0] == hex_spelling(q, upper)[0]);
        if q < 16 {
            assert(hex_spelling(q, upper)[0] == hex_char(q, upper));
        }
        assert forall|i: int| 0 <= i < s.len() implies #[trigger] hex_digit_value(s[i]) is Some by {
            if i < s.len() - 1 {
                assert(s[i] == hex_spelling(q, upper)[i]);
            }
        }
    }
}

/// Reading a non-digit after digits that fit fails with `InvalidDigit`.
proof fn lemma_scan_bad_tail(s: Seq<char>, t: Seq<char>, c: char, acc: int)
    requires
        0 <= acc,
        hex_digit_value(c) is None,
        scan_hex(s, acc) is Ok,
    ensures
        scan_hex(s + seq![c] + t, acc) == Err::<int, HexColorError>(HexColorError::InvalidDigit),
    decreases s.len(),
{
    let w = s + seq![c] + t;
    if s.len() == 0 {
        assert(w[0] == c);
    } else {
        assert(w[0] == s[0]);
        assert(w.drop_first() =~= s.drop_first() + seq![c] + t);
        let v = hex_digit_value(s[0])->0;
        lemma_scan_bad_tail(s.drop_first(), t, c, acc * 16 + v);
    }
}

/// Every 32-bit value is read back from its hexadecimal spelling, in lower
/// or upper case, bare or after a `0x` or `0X` prefix.
pub proof fn lemma_parse_hex_round_trip(v: u32, upper: bool)
    ensures
        spec_parse_hex_color(hex_spelling(v as nat, upper)) == Ok::<u32, HexColorError>(v),
        spec_parse_hex_color(seq!['0', 'x'] + hex_spelling(v as nat, upper)) == Ok::<
            u32,
            HexColorError,
        >(v),
        spec_parse_hex_color(seq!['0', 'X'] + hex_spelling(v as nat, upper)) == Ok::<
            u32,
            HexColorError,
        >(v),
{
    let s = hex_spelling(v as nat, upper);
    lemma_scan_spelling(v as nat, upper);
    let lx = seq!['0', 'x'];
    let ux = seq!['0', 'X'];
    // the bare spelling starts with neither prefix
    assert(strip_repeated(s, lx) == s) by {
        if s.len() >= 2 {
            assert(s.take(2)[0] == s[0]);
        }
    }
    assert(strip_repeated(s, ux) == s) by {
        if s.len() >= 2 {
            assert(s.take(2)[0] == s[0]);
        }
    }
    assert(spec_parse_u32_hex(s) == Ok::<u32, HexColorError>(v));
    let t = lx + s;
    assert(t.take(2) =~= lx);
    assert(t.skip(2) =~= s);
    assert(strip_repeated(t, lx) == s);
    let w = ux + s;
    assert(w.take(2) =~= ux);
    assert(w.skip(2) =~= s);
    assert(strip_repeated(w, lx) == w) by {
        assert(w.take(2)[1] == 'X');
    }
    assert(strip_repeated(w, ux) == s);
}

/// A leading `0x` is ignored, whatever follows it.
pub proof fn lemma_parse_ignores_0x(s: Seq<char>)
    ensures
        spec_parse_hex_color(seq!['0', 'x'] + s) == spec_parse_hex_color(s),
{
    let lx = seq!['0', 'x'];
    let t = lx + s;
    assert(t.take(2) =~= lx);
    assert(t.skip(2) =~= s);
}

/// The hexadecimal digits are exactly `0`-`9`, `a`-`f` and `A`-`F`: a
/// character with a digit value is the spelling of that value in one case.
pub proof fn lemma_hex_digit_alphabet(c: char)
    ensures
        hex_digit_value(c) matches Some(d) ==> 0 <= d < 16 && (c == hex_char(d as nat, false) || c
            == hex_char(d as nat, true)),
{
}

/// A value too large for 32 bits is refused as an overflow; a spelling
/// with a leading `+` is read as without it; an empty string, or one that
/// is only the prefix, is refused as empty; and a character that is not a
/// hexadecimal digit after the digits of a 32-bit value is refused as an
/// invalid digit, whatever follows it.
pub proof fn lemma_parse_hex_errors(v: nat, w: u32, upper: bool, c: char, t: Seq<char>)
    ensures
        v > u32::MAX ==> spec_parse_hex_color(hex_spelling(v, upper)) == Err::<u32, HexColorError>(
            HexColorError::PosOverflow,
        ),
        spec_parse_hex_color(seq!['+'] + hex_spelling(w as nat, upper)) == Ok::<u32, HexColorError>(
            w,
        ),
        spec_parse_hex_color(Seq::<char>::empty()) == Err::<u32, HexColorError>(HexColorError::Empty),
        spec_parse_hex_color(seq!['0', 'x']) == Err::<u32, HexColorError>(HexColorError::Empty),
        hex_digit_value(c) is None && c != 'x' && c != 'X' ==> spec_parse_hex_color(
            hex_spelling(w as nat, upper) + seq![c] + t,
        ) == Err::<u32, HexColorError>(HexColorError::InvalidDigit),
{
    let lx = seq!['0', 'x'];
    let ux = seq!['0', 'X'];
    // no spelling starts with a prefix
    assert forall|n: nat| #[trigger] hex_spelling(n, upper).len() > 0 implies strip_repeated(
        hex_spelling(n, upper),
        lx,
    ) == hex_spelling(n, upper) && strip_repeated(hex_spelling(n, upper), ux) == hex_spelling(
        n,
        upper,
    ) by {
        lemma_scan_spelling(n, upper);
        let sp = hex_spelling(n, upper);
        if sp.len() >= 2 {
            assert(sp.take(2)[0] == sp[0]);
        }
    }
    lemma_scan_spelling(v, upper);
    lemma_scan_spelling(w as nat, upper);
    // overflow
    assert(hex_spelling(v, upper).len() > 0);
    // leading '+'
    let sp = hex_spelling(w as nat, upper);
    let plus = seq!['+'] + sp;
    assert(plus.len() >= 2 ==> plus.take(2)[0] == '+');
    assert(strip_repeated(plus, lx) == plus);
    assert(strip_repeated(plus, ux) == plus);
    assert(plus.drop_first() =~= sp);
    // prefix only
    assert(lx.take(2) =~= lx);
    assert(lx.skip(2) =~= Seq::<char>::empty());
    assert(strip_repeated(Seq::<char>::empty(), lx) == Seq::<char>::empty());
    assert(strip_repeated(Seq::<char>::empty(), ux) == Seq::<char>::empty());
    // invalid digit
    if hex_digit_value(c) is None && c != 'x' && c != 'X' {
        let bad = sp + seq![c] + t;
        assert(bad[0] == sp[0]);
        if bad.len() >= 2 {
            assert(bad.take(2)[0] == sp[0]);
            if sp.len() == 1 {
                assert(bad.take(2)[1] == c);
            } else {
                assert(sp[0] != '0');
            }
        }
        assert(strip_repeated(bad, lx) == bad);
        assert(strip_repeated(bad, ux) == bad);
        lemma_scan_bad_tail(sp, t, c, 0);
    }
}

/// The position after every repetition of the two-character prefix `a b`
/// at `from`.
fn skip_repeated_pair(cs: &[char], from: usize, a: char, b: char) -> (end: usize)
    requires
        from <= cs.len(),
    ensures
        from <= end <= cs.len(),
        cs@.skip(end as int) == strip_repeated(cs@.skip(from as int), seq![a, b]),
{
    let ghost p = seq![a, b];
    let mut i = from;
    while cs.len() - i >= 2 && cs[i] == a && cs[i + 1] == b
        invariant
            from <= i <= cs.len(),
            p == seq![a, b],
            strip_repeated(cs@.skip(i as int), p) == strip_repeated(cs@.skip(from as int), p),
        decreases cs.len() - i,
    {
        proof {
            let s = cs@.skip(i as int);
            assert(s.take(2) =~= p);
            assert(s.skip(2) =~= cs@.skip(i + 2));
        }
        i = i + 2;
    }
    proof {
        let s = cs@.skip(i as int);
        if s.len() >= 2 && s.take(2) == p {
            assert(s.take(2)[0] == cs@[i as int]);
            assert(s.take(2)[1] == cs@[i + 1]);
        }
    }
    i
}

/// The value of a hexadecimal digit character.
fn hex_digit(c: char) -> (v: Option<u32>)
    ensures
        match hex_digit_value(c) {
            Some(d) => v == Some(d as u32),
            None => v is None,
        },
{
    if '0' <= c && c <= '9' {
        Some((c as u32) - ('0' as u32))
    } else if 'a' <= c && c <= 'f' {
        Some((c as u32) - ('a' as u32) + 10)
    } else if 'A' <= c && c <= 'F' {
        Some((c as u32) - ('A' as u32) + 10)
    } else {
        None
    }
}

/// Parses a colour string as the configuration file spells it.
pub fn parse_hex_color(s: &str) -> (r: Result<u32, HexColorError>)
    ensures
        r == spec_parse_hex_color(s@),
{
    let cs = chars_of(s);
    let after_lower = skip_repeated_pair(cs.as_slice(), 0, '0', 'x');
    let start0 = skip_repeated_pair(cs.as_slice(), after_lower, '0', 'X');
    proof {
        assert(cs@.skip(0) =~= cs@);
    }
    let ghost t = cs@.skip(start0 as int);
    assert(t == strip_repeated(strip_repeated(s@, seq!['0', 'x']), seq!['0', 'X']));
    let n = cs.len();
    if start0 == n {
        assert(t.len() == 0);
        return Err(HexColorError::Empty);
    }
    let mut start = start0;
    if cs[start0] == '+' {
        if start0 + 1 == n {
            return Err(HexColorError::InvalidDigit);
        }
        start = start0 + 1;
        assert(cs@.skip(start as int) =~= t.drop_first());
    }
    let ghost digits = cs@.skip(start as int);
    assert(spec_parse_hex_color(s@) == narrow_result(scan_hex(digits, 0)));
    let mut acc: u32 = 0;
    let mut i = start;
    while i < n
        invariant
            start <= i <= n,
            n == cs@.len(),
            digits == cs@.skip(start as int),
            scan_hex(cs@.skip(i as int), acc as int) == scan_hex(digits, 0),
            spec_parse_hex_color(s@) == narrow_result(scan_hex(digits, 0)),
        decreases n - i,
    {
        let c = cs[i];
        assert(cs@.skip(i as int)[0] == c);
        assert(cs@.skip(i as int).drop_first() =~= cs@.skip(i + 1));
        match hex_digit(c) {
            None => {
                return Err(HexColorError::InvalidDigit);
            },
            Some(v) => {
                if acc > 0x0FFF_FFFF || acc * 16 > u32::MAX - v {
                    return Err(HexColorError::PosOverflow);
                }
                acc = acc * 16 + v;
            },
        }
        i = i + 1;
    }
    assert(cs@.skip(n as int).len() == 0);
    Ok(acc)
}

} // verus!
