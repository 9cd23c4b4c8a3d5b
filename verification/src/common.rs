//! Shared value-parsing primitives: digit strings, bounded unsigned and
//! signed integers, exact fixed-point decimals, and comma-field splitting.
//!
//! Numeric wire fields are decoded without rounding: a fixed-point value is
//! kept as an integer mantissa and a decimal scale, so `15.2` is stored as
//! `152 / 10^1`.  Machine limits bound a field to 15 significant digits and
//! 12 fractional digits; longer fields are rejected as malformed.

use vstd::prelude::*;

use crate::Error;

verus! {

/// ASCII `0`.
pub const D0: u8 = 48;

/// ASCII `9`.
pub const D9: u8 = 57;

/// ASCII `-`.
pub const MINUS: u8 = 45;

/// ASCII `.`.
pub const DOT: u8 = 46;

/// ASCII `,`.
pub const COMMA: u8 = 44;

/// ASCII `$`: starts a sentence.
pub const DOLLAR: u8 = 36;

/// ASCII `*`: ends a sentence body.
pub const STAR: u8 = 42;

/// ASCII carriage return.
pub const CR: u8 = 13;

/// ASCII line feed.
pub const LF: u8 = 10;

/// ASCII `A`.
pub const LET_A: u8 = 65;

/// ASCII `B`.
pub const LET_B: u8 = 66;

/// ASCII `C`.
pub const LET_C: u8 = 67;

/// ASCII `D`.
pub const LET_D: u8 = 68;

/// ASCII `E`.
pub const LET_E: u8 = 69;

/// ASCII `F`.
pub const LET_F: u8 = 70;

/// ASCII `G`.
pub const LET_G: u8 = 71;

/// ASCII `K`.
pub const LET_K: u8 = 75;

/// ASCII `L`.
pub const LET_L: u8 = 76;

/// ASCII `M`.
pub const LET_M: u8 = 77;

/// ASCII `N`.
pub const LET_N: u8 = 78;

/// ASCII `P`.
pub const LET_P: u8 = 80;

/// ASCII `R`.
pub const LET_R: u8 = 82;

/// ASCII `S`.
pub const LET_S: u8 = 83;

/// ASCII `T`.
pub const LET_T: u8 = 84;

/// ASCII `V`.
pub const LET_V: u8 = 86;

/// ASCII `W`.
pub const LET_W: u8 = 87;

/// ASCII `Z`.
pub const LET_Z: u8 = 90;

/// ASCII `a`.
pub const LOW_A: u8 = 97;

/// ASCII `f`.
pub const LOW_F: u8 = 102;

/// The largest mantissa a decimal field may produce: `10^15`.
pub const MAX_MANTISSA: u64 = 1_000_000_000_000_000;

/// The largest decimal scale (count of fractional digits) kept: `10^12`ths.
pub const MAX_SCALE: u32 = 12;

/// ASCII decimal digit.
pub open spec fn is_digit(b: u8) -> bool {
    D0 <= b && b <= D9
}

/// Every byte of `s` is an ASCII digit.
pub open spec fn all_digits(s: Seq<u8>) -> bool {
    forall|i: int| 0 <= i < s.len() ==> is_digit(s[i])
}

/// The number denoted by the digit string `s`, most significant first.
pub open spec fn digits_val(s: Seq<u8>) -> int
    decreases s.len(),
{
    if s.len() == 0 {
        0
    } else {
        digits_val(s.drop_last()) * 10 + (s.last() - D0)
    }
}

/// `10^n`.
pub open spec fn pow10(n: int) -> int
    decreases n,
{
    if n <= 0 {
        1
    } else {
        10 * pow10(n - 1)
    }
}

pub proof fn lemma_pow10_15()
    ensures
        pow10(15) == MAX_MANTISSA,
{
    reveal_with_fuel(pow10, 17);
}

pub proof fn lemma_pow10_19()
    ensures
        pow10(19) == 10_000_000_000_000_000_000,
{
    reveal_with_fuel(pow10, 21);
}

pub proof fn lemma_pow10_pos(n: int)
    ensures
        pow10(n) >= 1,
    decreases n,
{
    if n > 0 {
        lemma_pow10_pos(n - 1);
    }
}

pub proof fn lemma_pow10_mono(a: int, b: int)
    requires
        a <= b,
    ensures
        pow10(a) <= pow10(b),
    decreases b - a,
{
    if a < b {
        lemma_pow10_mono(a, b - 1);
        lemma_pow10_pos(b - 1);
    }
}

pub proof fn lemma_pow10_add(a: int, b: int)
    requires
        0 <= a,
        0 <= b,
    ensures
        pow10(a + b) == pow10(a) * pow10(b),
    decreases a,
{
    if a > 0 {
        lemma_pow10_add(a - 1, b);
        assert(pow10(a + b) == 10 * pow10(a - 1 + b));
        assert(10 * (pow10(a - 1) * pow10(b)) == (10 * pow10(a - 1)) * pow10(b))
            by (nonlinear_arith);
    }
}

/// Appending a digit multiplies the value by ten and adds the digit.
pub proof fn lemma_digits_val_push(s: Seq<u8>, d: u8)
    ensures
        digits_val(s.push(d)) == digits_val(s) * 10 + (d - D0),
{
    assert(s.push(d).drop_last() =~= s);
    assert(s.push(d).last() == d);
}

/// A digit string of `n` digits denotes a value below `10^n`.
pub proof fn lemma_digits_val_bound(s: Seq<u8>)
    requires
        all_digits(s),
    ensures
        0 <= digits_val(s) < pow10(s.len() as int),
    decreases s.len(),
{
    if s.len() > 0 {
        assert(forall|i: int| 0 <= i < s.drop_last().len() ==> s.drop_last()[i] == s[i]);
        lemma_digits_val_bound(s.drop_last());
        assert(s.last() - D0 <= 9);
        assert(pow10(s.len() as int) == 10 * pow10(s.len() - 1));
    }
}

/// The index of the first occurrence of `c` in `s`, or `-1`.
pub open spec fn find_byte(s: Seq<u8>, c: u8) -> int
    decreases s.len(),
{
    if s.len() == 0 {
        -1
    } else if s[0] == c {
        0
    } else {
        let r = find_byte(s.skip(1), c);
        if r < 0 {
            -1
        } else {
            r + 1
        }
    }
}

pub proof fn lemma_find_byte(s: Seq<u8>, c: u8)
    ensures
        find_byte(s, c) == -1 ==> forall|j: int| 0 <= j < s.len() ==> s[j] != c,
        find_byte(s, c) >= 0 ==> 0 <= find_byte(s, c) < s.len() && s[find_byte(s, c)] == c
            && forall|j: int| 0 <= j < find_byte(s, c) ==> s[j] != c,
    decreases s.len(),
{
    if s.len() > 0 && s[0] != c {
        lemma_find_byte(s.skip(1), c);
        let rr = find_byte(s.skip(1), c);
        if rr == -1 {
            assert forall|j: int| 0 <= j < s.len() implies s[j] != c by {
                if j > 0 {
                    assert(s.skip(1)[j - 1] == s[j]);
                    assert(s.skip(1)[j - 1] != c);
                }
            }
        } else {
            let r = find_byte(s, c);
            assert(r == rr + 1);
            assert(s[r] == s.skip(1)[rr]);
            assert forall|j: int| 0 <= j < r implies s[j] != c by {
                if j > 0 {
                    assert(s.skip(1)[j - 1] == s[j]);
                    assert(s.skip(1)[j - 1] != c);
                }
            }
        }
    }
}

/// An exact decimal fixed-point number: `mantissa / 10^scale`, negated when
/// `negative` is set.  Values are kept normalized, so equal numbers have
/// equal representations.
#[derive(Clone, Copy, Debug, PartialEq, Eq)]
pub struct Decimal {
    /// The value is negative (never set for a zero mantissa).
    pub negative: bool,
    /// Unsigned significand.
    pub mantissa: u64,
    /// Count of decimal fractional digits.
    pub scale: u32,
}

impl Decimal {
    /// Well-formed: normalized (no trailing zero in the fraction, zero has
    /// scale zero and positive sign) and within the machine bounds.
    pub open spec fn wf(self) -> bool {
        &&& self.scale == 0 || self.mantissa % 10 != 0
        &&& self.mantissa == 0 ==> !self.negative && self.scale == 0
        &&& self.scale <= MAX_SCALE
        &&& self.mantissa < MAX_MANTISSA
    }

    /// The signed numerator of the value over `10^scale`.
    pub open spec fn num(self) -> int {
        if self.negative {
            -(self.mantissa as int)
        } else {
            self.mantissa as int
        }
    }

    /// Builds a normalized decimal from a raw mantissa and scale.
    pub fn new(negative: bool, mantissa: u64, scale: u32) -> (r: Decimal)
        ensures
            r == dec_make(negative, mantissa as int, scale as int),
    {
        let (m2, s2) = normalize(mantissa, scale);
        Decimal { negative: negative && m2 != 0, mantissa: m2, scale: s2 }
    }
}

/// Strips trailing decimal zeros: divides the mantissa by ten while the
/// scale allows, and forces a zero mantissa to scale zero.
pub open spec fn norm_spec(m: int, s: int) -> (int, int)
    decreases s,
{
    if m == 0 {
        (0, 0)
    } else if s > 0 && m % 10 == 0 {
        norm_spec(m / 10, s - 1)
    } else {
        (m, s)
    }
}

pub proof fn lemma_norm(m: int, s: int)
    requires
        0 <= m,
        0 <= s,
    ensures
        0 <= norm_spec(m, s).0 <= m,
        0 <= norm_spec(m, s).1 <= s,
        norm_spec(m, s).1 == 0 || norm_spec(m, s).0 % 10 != 0,
        norm_spec(m, s).0 == 0 ==> norm_spec(m, s).1 == 0,
        norm_spec(m, s).0 * pow10(s - norm_spec(m, s).1) == m * pow10(0),
    decreases s,
{
    if m != 0 && s > 0 && m % 10 == 0 {
        lemma_norm(m / 10, s - 1);
        let m2 = norm_spec(m, s).0;
        let s2 = norm_spec(m, s).1;
        assert(m2 * pow10(s - 1 - s2) == m / 10);
        assert(pow10(s - s2) == 10 * pow10(s - 1 - s2));
        assert(m2 * (10 * pow10(s - 1 - s2)) == (m2 * pow10(s - 1 - s2)) * 10)
            by (nonlinear_arith);
        assert((m / 10) * 10 == m);
    }
}

/// Normalization keeps any bound of the form `m < c * 10^s`.
pub proof fn lemma_norm_bound(m: int, s: int, c: int)
    requires
        0 <= m,
        0 <= s,
        0 < c,
        m < c * pow10(s),
    ensures
        norm_spec(m, s).0 < c * pow10(norm_spec(m, s).1),
{
    lemma_norm(m, s);
    let m2 = norm_spec(m, s).0;
    let s2 = norm_spec(m, s).1;
    let d = s - s2;
    lemma_pow10_add(s2, d);
    lemma_pow10_pos(d);
    assert(m2 * pow10(d) == m);
    assert(m < c * (pow10(s2) * pow10(d)));
    assert(c * (pow10(s2) * pow10(d)) == (c * pow10(s2)) * pow10(d)) by (nonlinear_arith);
    assert(m2 * pow10(d) < (c * pow10(s2)) * pow10(d));
    assert(m2 < c * pow10(s2)) by (nonlinear_arith)
        requires
            m2 * pow10(d) < (c * pow10(s2)) * pow10(d),
            pow10(d) >= 1,
    ;
}

/// Executable normalization matching [`norm_spec`].
pub fn normalize(m: u64, s: u32) -> (r: (u64, u32))
    ensures
        (r.0 as int, r.1 as int) == norm_spec(m as int, s as int),
        r.0 <= m,
        r.1 <= s,
    decreases s,
{
    if m == 0 {
        (0, 0)
    } else if s > 0 && m % 10 == 0 {
        normalize(m / 10, s - 1)
    } else {
        (m, s)
    }
}

/// The normalized decimal with raw value `raw / 10^scale`, negative when
/// `neg` holds and the value is not zero.
pub open spec fn dec_make(neg: bool, raw: int, scale: int) -> Decimal {
    let m2 = norm_spec(raw, scale).0;
    let s2 = norm_spec(raw, scale).1;
    Decimal { negative: neg && m2 != 0, mantissa: m2 as u64, scale: s2 as u32 }
}

/// An unsigned integer field: empty means absent; a digit string of at most
/// 19 digits whose value is at most `max` is the value; anything else is
/// malformed.
pub open spec fn spec_parse_uint(s: Seq<u8>, max: int) -> Result<Option<int>, Error> {
    if s.len() == 0 {
        Ok(None)
    } else if all_digits(s) && s.len() <= 19 && digits_val(s) <= max {
        Ok(Some(digits_val(s)))
    } else {
        Err(Error::MalformedField)
    }
}

/// Decodes an unsigned integer field of value at most `max`.
pub fn parse_uint(f: &[u8], max: u64) -> (r: Result<Option<u64>, Error>)
    ensures
        spec_parse_uint(f@, max as int) == match r {
            Ok(Some(v)) => Ok::<Option<int>, Error>(Some(v as int)),
            Ok(None) => Ok::<Option<int>, Error>(None),
            Err(e) => Err::<Option<int>, Error>(e),
        },
        r matches Ok(Some(v)) ==> v <= max,
{
    let n = f.len();
    if n == 0 {
        return Ok(None);
    }
    if n > 19 {
        return Err(Error::MalformedField);
    }
    let mut acc: u64 = 0;
    let mut i: usize = 0;
    while i < n
        invariant
            0 <= i <= n,
            n == f@.len() <= 19,
            all_digits(f@.subrange(0, i as int)),
            acc == digits_val(f@.subrange(0, i as int)),
            acc < pow10(i as int),
        decreases n - i,
    {
        let b = f[i];
        if b < D0 || b > D9 {
            assert(!is_digit(f@[i as int]));
            return Err(Error::MalformedField);
        }
        proof {
            assert(f@.subrange(0, i + 1) =~= f@.subrange(0, i as int).push(f@[i as int]));
            lemma_digits_val_push(f@.subrange(0, i as int), f@[i as int]);
            assert(pow10(i as int + 1) == 10 * pow10(i as int));
            lemma_pow10_mono(i as int + 1, 19);
            lemma_pow10_19();
        }
        acc = acc * 10 + ((b - D0) as u64);
        i = i + 1;
    }
    proof {
        assert(f@.subrange(0, n as int) =~= f@);
    }
    if acc > max {
        Err(Error::MalformedField)
    } else {
        Ok(Some(acc))
    }
}

/// An unsigned byte field.
pub open spec fn spec_parse_u8(s: Seq<u8>) -> Result<Option<u8>, Error> {
    match spec_parse_uint(s, 255) {
        Ok(Some(v)) => Ok(Some(v as u8)),
        Ok(None) => Ok(None),
        Err(e) => Err(e),
    }
}

pub fn parse_u8(f: &[u8]) -> (r: Result<Option<u8>, Error>)
    ensures
        r == spec_parse_u8(f@),
{
    match parse_uint(f, 255) {
        Ok(Some(v)) => Ok(Some(v as u8)),
        Ok(None) => Ok(None),
        Err(e) => Err(e),
    }
}

/// An unsigned 16-bit field.
pub open spec fn spec_parse_u16(s: Seq<u8>) -> Result<Option<u16>, Error> {
    match spec_parse_uint(s, 65535) {
        Ok(Some(v)) => Ok(Some(v as u16)),
        Ok(None) => Ok(None),
        Err(e) => Err(e),
    }
}

pub fn parse_u16(f: &[u8]) -> (r: Result<Option<u16>, Error>)
    ensures
        r == spec_parse_u16(f@),
{
    match parse_uint(f, 65535) {
        Ok(Some(v)) => Ok(Some(v as u16)),
        Ok(None) => Ok(None),
        Err(e) => Err(e),
    }
}

/// A signed byte field: an optional leading minus sign before the digits.
pub open spec fn spec_parse_i8(s: Seq<u8>) -> Result<Option<i8>, Error> {
    if s.len() == 0 {
        Ok(None)
    } else if s[0] == MINUS {
        match spec_parse_uint(s.skip(1), 128) {
            Ok(Some(v)) => Ok(Some((-v) as i8)),
            Ok(None) => Err(Error::MalformedField),
            Err(e) => Err(e),
        }
    } else {
        match spec_parse_uint(s, 127) {
            Ok(Some(v)) => Ok(Some(v as i8)),
            Ok(None) => Err(Error::MalformedField),
            Err(e) => Err(e),
        }
    }
}

pub fn parse_i8(f: &[u8]) -> (r: Result<Option<i8>, Error>)
    ensures
        r == spec_parse_i8(f@),
{
    let n = f.len();
    if n == 0 {
        return Ok(None);
    }
    if f[0] == MINUS {
        let rest = vstd::slice::slice_subrange(f, 1, n);
        match parse_uint(rest, 128) {
            Ok(Some(v)) => Ok(Some((0i32 - (v as i32)) as i8)),
            Ok(None) => Err(Error::MalformedField),
            Err(e) => Err(e),
        }
    } else {
        match parse_uint(f, 127) {
            Ok(Some(v)) => Ok(Some(v as i8)),
            Ok(None) => Err(Error::MalformedField),
            Err(e) => Err(e),
        }
    }
}

/// A decimal fixed-point field: an optional minus sign, then digits with at
/// most one decimal point.  Empty means absent.  The result keeps the given
/// precision exactly, normalized.
pub open spec fn spec_parse_decimal(s: Seq<u8>) -> Result<Option<Decimal>, Error> {
    if s.len() == 0 {
        Ok(None)
    } else {
        let neg = s[0] == MINUS;
        let t = if neg {
            s.skip(1)
        } else {
            s
        };
        let dot = find_byte(t, DOT);
        let ip = if dot < 0 {
            t
        } else {
            t.take(dot)
        };
        let fp = if dot < 0 {
            Seq::<u8>::empty()
        } else {
            t.skip(dot + 1)
        };
        if all_digits(ip) && all_digits(fp) && ip.len() + fp.len() >= 1 && ip.len() + fp.len()
            <= 15 && fp.len() <= MAX_SCALE {
            Ok(Some(dec_make(neg, digits_val(ip + fp), fp.len() as int)))
        } else {
            Err(Error::MalformedField)
        }
    }
}

/// A decimal produced by [`spec_parse_decimal`] is well-formed.
pub proof fn lemma_spec_parse_decimal_wf(s: Seq<u8>)
    ensures
        spec_parse_decimal(s) matches Ok(r) ==> (r matches Some(d) ==> d.wf()),
{
    if s.len() > 0 {
        let neg = s[0] == MINUS;
        let t = if neg {
            s.skip(1)
        } else {
            s
        };
        let dot = find_byte(t, DOT);
        let ip = if dot < 0 {
            t
        } else {
            t.take(dot)
        };
        let fp = if dot < 0 {
            Seq::<u8>::empty()
        } else {
            t.skip(dot + 1)
        };
        if all_digits(ip) && all_digits(fp) && ip.len() + fp.len() >= 1 && ip.len() + fp.len()
            <= 15 && fp.len() <= MAX_SCALE {
            let raw = digits_val(ip + fp);
            assert(all_digits(ip + fp));
            lemma_digits_val_bound(ip + fp);
            lemma_pow10_mono((ip + fp).len() as int, 15);
            assert(pow10(15) == MAX_MANTISSA) by {
                reveal_with_fuel(pow10, 17);
            }
            lemma_norm(raw, fp.len() as int);
        }
    }
}

/// Accumulates the digit run `f[lo..hi]` onto `acc0`, which already holds
/// the value of the digit string `pre`; fails on any non-digit byte.
pub(crate) fn scan_digits(f: &[u8], lo: usize, hi: usize, acc0: u64, Ghost(pre): Ghost<Seq<u8>>) -> (r: Result<
    u64,
    Error,
>)
    requires
        lo <= hi <= f@.len(),
        all_digits(pre),
        acc0 == digits_val(pre),
        pre.len() + (hi - lo) <= 15,
    ensures
        ({
            let seg = f@.subrange(lo as int, hi as int);
            if all_digits(seg) {
                r == Ok::<u64, Error>((digits_val(pre + seg) as u64)) && all_digits(pre + seg)
                    && 0 <= digits_val(pre + seg) < pow10((pre + seg).len() as int)
            } else {
                r == Err::<u64, Error>(Error::MalformedField)
            }
        }),
{
    proof {
        lemma_digits_val_bound(pre);
    }
    let ghost seg: Seq<u8> = f@.subrange(lo as int, hi as int);
    let mut acc: u64 = acc0;
    let mut i: usize = lo;
    proof {
        assert(pre + seg.subrange(0, 0) =~= pre);
    }
    while i < hi
        invariant
            lo <= i <= hi <= f@.len(),
            seg == f@.subrange(lo as int, hi as int),
            all_digits(pre),
            pre.len() + (hi - lo) <= 15,
            all_digits(pre + seg.subrange(0, i - lo)),
            acc == digits_val(pre + seg.subrange(0, i - lo)),
            acc < pow10(pre.len() + i - lo),
        decreases hi - i,
    {
        let b = f[i];
        assert(seg[i - lo] == f@[i as int]);
        if b < D0 || b > D9 {
            assert(!is_digit(seg[i - lo]));
            return Err(Error::MalformedField);
        }
        proof {
            let cur = pre + seg.subrange(0, i - lo);
            assert(pre + seg.subrange(0, i - lo + 1) =~= cur.push(seg[i - lo]));
            lemma_digits_val_push(cur, seg[i - lo]);
            assert(pow10(cur.len() as int + 1) == 10 * pow10(cur.len() as int));
            lemma_pow10_mono(cur.len() as int + 1, 15);
            lemma_pow10_15();
        }
        acc = acc * 10 + ((b - D0) as u64);
        i = i + 1;
    }
    proof {
        assert(seg.subrange(0, hi - lo) =~= seg);
        assert forall|j: int| 0 <= j < seg.len() implies is_digit(seg[j]) by {
            assert(seg[j] == (pre + seg)[pre.len() + j]);
        }
    }
    Ok(acc)
}

/// Decodes a decimal fixed-point field.
#[verifier::rlimit(60)]
pub fn parse_decimal(f: &[u8]) -> (r: Result<Option<Decimal>, Error>)
    ensures
        r == spec_parse_decimal(f@),
        r matches Ok(Some(d)) ==> d.wf(),
{
    proof {
        lemma_spec_parse_decimal_wf(f@);
    }
    let n = f.len();
    if n == 0 {
        return Ok(None);
    }
    let neg = f[0] == MINUS;
    let start: usize = if neg {
        1
    } else {
        0
    };
    let ghost t: Seq<u8> = if neg {
        f@.skip(1)
    } else {
        f@
    };
    assert(t.len() == n - start);
    assert(forall|j: int| 0 <= j < t.len() ==> t[j] == f@[j + start]);
    // Find the first decimal point.
    let mut dot_abs: usize = start;
    while dot_abs < n && f[dot_abs] != DOT
        invariant
            start <= dot_abs <= n,
            n == f@.len(),
            forall|j: int| 0 <= j < t.len() ==> t[j] == f@[j + start],
            t.len() == n - start,
            forall|j: int| 0 <= j < dot_abs - start ==> t[j] != DOT,
        decreases n - dot_abs,
    {
        dot_abs = dot_abs + 1;
    }
    proof {
        lemma_find_byte(t, DOT);
    }
    let ghost dot: int = find_byte(t, DOT);
    if dot_abs == n {
        assert(dot == -1) by {
            if dot >= 0 {
                assert(t[dot] == DOT);
            }
        }
    } else {
        assert(t[dot_abs - start] == DOT);
        assert(dot == dot_abs - start) by {
            if dot == -1 {
                assert(t[dot_abs - start] != DOT);
            } else if dot < dot_abs - start {
                assert(t[dot] != DOT);
            } else if dot > dot_abs - start {
                assert(t[dot_abs - start] != DOT);
            }
        }
    }
    let ghost ip: Seq<u8> = if dot < 0 {
        t
    } else {
        t.take(dot)
    };
    let ghost fp: Seq<u8> = if dot < 0 {
        Seq::<u8>::empty()
    } else {
        t.skip(dot + 1)
    };
    let ip_len: usize = dot_abs - start;
    let fp_len: usize = if dot_abs == n {
        0
    } else {
        n - dot_abs - 1
    };
    assert(ip.len() == ip_len && fp.len() == fp_len);
    if ip_len + fp_len < 1 || ip_len + fp_len > 15 || fp_len > 12 {
        return Err(Error::MalformedField);
    }
    proof {
        assert(ip =~= f@.subrange(start as int, dot_abs as int));
        assert(Seq::<u8>::empty() + ip =~= ip);
        assert(digits_val(Seq::<u8>::empty()) == 0);
    }
    let acc1 = match scan_digits(f, start, dot_abs, 0, Ghost(Seq::<u8>::empty())) {
        Ok(v) => v,
        Err(e) => {
            assert(!all_digits(ip));
            return Err(e);
        },
    };
    proof {
        lemma_pow10_15();
        lemma_pow10_mono(ip.len() as int, 15);
        lemma_pow10_mono(ip.len() + fp.len() as int, 15);
    }
    let acc = if dot_abs == n {
        proof {
            assert(ip + fp =~= ip);
        }
        acc1
    } else {
        proof {
            assert(fp =~= f@.subrange(dot_abs + 1, n as int));
        }
        match scan_digits(f, dot_abs + 1, n, acc1, Ghost(ip)) {
            Ok(v) => v,
            Err(e) => {
                assert(!all_digits(fp));
                return Err(e);
            },
        }
    };
    assert(all_digits(ip) && all_digits(fp));
    assert(acc == digits_val(ip + fp));
    let d = Decimal::new(neg, acc, fp_len as u32);
    Ok(Some(d))
}
/// The field at index `i`, or the empty field when the sentence carried
/// fewer fields: a missing field and an empty field both mean "absent".
pub open spec fn fld(fs: Seq<Seq<u8>>, i: int) -> Seq<u8> {
    if 0 <= i < fs.len() {
        fs[i]
    } else {
        Seq::<u8>::empty()
    }
}

/// The mathematical view of a split field list.
pub open spec fn fields_view(v: Seq<Vec<u8>>) -> Seq<Seq<u8>> {
    v.map_values(|x: Vec<u8>| x@)
}

/// Splitting on commas: every comma separates two fields, so `n` commas
/// yield `n + 1` fields and an empty input yields one empty field.
pub open spec fn split_spec(s: Seq<u8>) -> Seq<Seq<u8>>
    decreases s.len(),
{
    let k = find_byte(s, COMMA);
    if k < 0 || k >= s.len() {
        seq![s]
    } else {
        seq![s.take(k)] + split_spec(s.skip(k + 1))
    }
}

/// Splits a byte string into its comma-separated fields.
pub fn split_fields(f: &[u8]) -> (r: Vec<Vec<u8>>)
    ensures
        fields_view(r@) == split_spec(f@),
    decreases f@.len(),
{
    let n = f.len();
    let mut k: usize = 0;
    while k < n && f[k] != COMMA
        invariant
            0 <= k <= n,
            n == f@.len(),
            forall|j: int| 0 <= j < k ==> f@[j] != COMMA,
        decreases n - k,
    {
        k = k + 1;
    }
    proof {
        lemma_find_byte(f@, COMMA);
    }
    let ghost ks: int = find_byte(f@, COMMA);
    if k == n {
        assert(ks == -1) by {
            if ks >= 0 {
                assert(f@[ks] == COMMA);
            }
        }
        let mut out: Vec<Vec<u8>> = Vec::new();
        out.push(vstd::slice::slice_to_vec(f));
        proof {
            assert(fields_view(out@) =~= split_spec(f@));
        }
        out
    } else {
        assert(f@[k as int] == COMMA);
        assert(ks == k) by {
            if ks == -1 {
                assert(f@[k as int] != COMMA);
            } else if ks < k {
                assert(f@[ks] != COMMA);
            } else if ks > k {
                assert(f@[k as int] != COMMA);
            }
        }
        let head = vstd::slice::slice_to_vec(vstd::slice::slice_subrange(f, 0, k));
        let rest = split_fields(vstd::slice::slice_subrange(f, k + 1, n));
        let mut out = rest;
        out.insert(0, head);
        proof {
            assert(f@.subrange(0, k as int) =~= f@.take(k as int));
            assert(f@.subrange(k + 1, n as int) =~= f@.skip(k + 1));
            assert(fields_view(out@) =~= split_spec(f@));
        }
        out
    }
}

/// Decodes the unsigned byte field at index `i`.
pub fn field_u8(fields: &Vec<Vec<u8>>, i: usize) -> (r: Result<Option<u8>, Error>)
    ensures
        r == spec_parse_u8(fld(fields_view(fields@), i as int)),
{
    if i < fields.len() {
        parse_u8(fields[i].as_slice())
    } else {
        Ok(None)
    }
}

/// Decodes the unsigned 16-bit field at index `i`.
pub fn field_u16(fields: &Vec<Vec<u8>>, i: usize) -> (r: Result<Option<u16>, Error>)
    ensures
        r == spec_parse_u16(fld(fields_view(fields@), i as int)),
{
    if i < fields.len() {
        parse_u16(fields[i].as_slice())
    } else {
        Ok(None)
    }
}

/// Decodes the signed byte field at index `i`.
pub fn field_i8(fields: &Vec<Vec<u8>>, i: usize) -> (r: Result<Option<i8>, Error>)
    ensures
        r == spec_parse_i8(fld(fields_view(fields@), i as int)),
{
    if i < fields.len() {
        parse_i8(fields[i].as_slice())
    } else {
        Ok(None)
    }
}

/// Decodes the decimal field at index `i`.
pub fn field_decimal(fields: &Vec<Vec<u8>>, i: usize) -> (r: Result<Option<Decimal>, Error>)
    ensures
        r == spec_parse_decimal(fld(fields_view(fields@), i as int)),
        r matches Ok(Some(d)) ==> d.wf(),
{
    if i < fields.len() {
        parse_decimal(fields[i].as_slice())
    } else {
        Ok(None)
    }
}

/// Aligned mantissas in decimal arithmetic stay at or below `10^18`.
pub const ALIGN_LIMIT: u64 = 1_000_000_000_000_000_000;

pub proof fn lemma_pow10_12()
    ensures
        pow10(12) == 1_000_000_000_000,
{
    reveal_with_fuel(pow10, 14);
}

/// `10^e` as a machine integer.
pub fn pow10_u64(e: u32) -> (r: u64)
    requires
        e <= 19,
    ensures
        r as int == pow10(e as int),
    decreases e,
{
    proof {
        lemma_pow10_mono(e as int, 19);
        lemma_pow10_19();
        if e > 0 {
            lemma_pow10_pos(e as int - 1);
        }
    }
    if e == 0 {
        1
    } else {
        10 * pow10_u64(e - 1)
    }
}

/// Reads the two-digit number at `f[at..at + 2]`.
pub fn read2(f: &[u8], at: usize) -> (r: Option<u8>)
    requires
        at + 2 <= f@.len(),
    ensures
        ({
            let s = f@.subrange(at as int, at + 2);
            if all_digits(s) {
                r == Some((digits_val(s) as u8)) && 0 <= digits_val(s) <= 99
            } else {
                r is None
            }
        }),
{
    let ghost s: Seq<u8> = f@.subrange(at as int, at + 2);
    let a = f[at];
    let b = f[at + 1];
    assert(s[0] == a && s[1] == b);
    if a < D0 || a > D9 || b < D0 || b > D9 {
        assert(!is_digit(s[0]) || !is_digit(s[1]));
        return None;
    }
    proof {
        assert(digits_val(Seq::<u8>::empty()) == 0);
        assert(s.drop_last() =~= f@.subrange(at as int, at + 1));
        assert(s.drop_last().drop_last() =~= Seq::<u8>::empty());
        assert(s.drop_last().len() == 1);
        assert(s.drop_last().last() == a);
        assert(digits_val(s.drop_last()) == digits_val(s.drop_last().drop_last()) * 10 + (
        s.drop_last().last() - D0));
        assert(digits_val(s.drop_last()) == a - D0);
        assert(digits_val(s) == (a - D0) * 10 + (b - D0));
    }
    Some((a - D0) * 10 + (b - D0))
}

/// Reads the three-digit number at `f[at..at + 3]`.
pub fn read3(f: &[u8], at: usize) -> (r: Option<u16>)
    requires
        at + 3 <= f@.len(),
    ensures
        ({
            let s = f@.subrange(at as int, at + 3);
            if all_digits(s) {
                r == Some((digits_val(s) as u16)) && 0 <= digits_val(s) <= 999
            } else {
                r is None
            }
        }),
{
    let ghost s: Seq<u8> = f@.subrange(at as int, at + 3);
    let n = f.len();
    assert(at + 3 <= n);
    let c = f[at + 2];
    assert(s[2] == c);
    match read2(f, at) {
        Some(hi) => {
            assert(all_digits(f@.subrange(at as int, at + 2)));
            if c < D0 || c > D9 {
                assert(!is_digit(s[2]));
                return None;
            }
            proof {
                assert(s.drop_last() =~= f@.subrange(at as int, at + 2));
                assert(s.last() == c);
            }
            Some((hi as u16) * 10 + ((c - D0) as u16))
        },
        None => {
            assert(!all_digits(s)) by {
                let p = f@.subrange(at as int, at + 2);
                if all_digits(s) {
                    assert(is_digit(p[0]) && is_digit(p[1])) by {
                        assert(p[0] == s[0] && p[1] == s[1]);
                    }
                }
            }
            None
        },
    }
}

/// A signed 16-bit field: an optional leading minus sign before the digits.
pub open spec fn spec_parse_i16(s: Seq<u8>) -> Result<Option<i16>, Error> {
    if s.len() == 0 {
        Ok(None)
    } else if s[0] == MINUS {
        match spec_parse_uint(s.skip(1), 32768) {
            Ok(Some(v)) => Ok(Some((-v) as i16)),
            Ok(None) => Err(Error::MalformedField),
            Err(e) => Err(e),
        }
    } else {
        match spec_parse_uint(s, 32767) {
            Ok(Some(v)) => Ok(Some(v as i16)),
            Ok(None) => Err(Error::MalformedField),
            Err(e) => Err(e),
        }
    }
}

pub fn parse_i16(f: &[u8]) -> (r: Result<Option<i16>, Error>)
    ensures
        r == spec_parse_i16(f@),
{
    let n = f.len();
    if n == 0 {
        return Ok(None);
    }
    if f[0] == MINUS {
        let rest = vstd::slice::slice_subrange(f, 1, n);
        match parse_uint(rest, 32768) {
            Ok(Some(v)) => Ok(Some((0i32 - (v as i32)) as i16)),
            Ok(None) => Err(Error::MalformedField),
            Err(e) => Err(e),
        }
    } else {
        match parse_uint(f, 32767) {
            Ok(Some(v)) => Ok(Some(v as i16)),
            Ok(None) => Err(Error::MalformedField),
            Err(e) => Err(e),
        }
    }
}

/// Decodes the signed 16-bit field at index `i`.
pub fn field_i16(fields: &Vec<Vec<u8>>, i: usize) -> (r: Result<Option<i16>, Error>)
    ensures
        r == spec_parse_i16(fld(fields_view(fields@), i as int)),
{
    if i < fields.len() {
        parse_i16(fields[i].as_slice())
    } else {
        Ok(None)
    }
}

/// The same number with the opposite sign (zero is unchanged).
pub open spec fn dec_neg_spec(b: Decimal) -> Decimal {
    if b.mantissa == 0 {
        b
    } else {
        Decimal { negative: !b.negative, mantissa: b.mantissa, scale: b.scale }
    }
}

/// Negates a decimal.
pub fn dec_neg(b: Decimal) -> (r: Decimal)
    ensures
        r == dec_neg_spec(b),
{
    if b.mantissa == 0 {
        b
    } else {
        Decimal { negative: !b.negative, mantissa: b.mantissa, scale: b.scale }
    }
}

/// The exact difference `a - b`, aligned to the finer scale; `None` when an
/// aligned mantissa would not fit the machine bound.
pub open spec fn dec_sub_spec(a: Decimal, b: Decimal) -> Option<Decimal> {
    let s = if a.scale >= b.scale {
        a.scale as int
    } else {
        b.scale as int
    };
    let na = a.num() * pow10(s - a.scale);
    let nb = b.num() * pow10(s - b.scale);
    if a.mantissa * pow10(s - a.scale) <= ALIGN_LIMIT && b.mantissa * pow10(s - b.scale)
        <= ALIGN_LIMIT {
        Some(dec_make(na - nb < 0, if na - nb < 0 { nb - na } else { na - nb }, s))
    } else {
        None
    }
}

/// The exact sum `a + b`.
pub open spec fn dec_add_spec(a: Decimal, b: Decimal) -> Option<Decimal> {
    dec_sub_spec(a, dec_neg_spec(b))
}

/// Subtracts two decimals exactly.
pub fn dec_sub(a: Decimal, b: Decimal) -> (r: Option<Decimal>)
    requires
        a.wf(),
        b.wf(),
    ensures
        r == dec_sub_spec(a, b),
{
    let s: u32 = if a.scale >= b.scale {
        a.scale
    } else {
        b.scale
    };
    let pa = pow10_u64(s - a.scale);
    let pb = pow10_u64(s - b.scale);
    proof {
        lemma_pow10_pos(s - a.scale);
        lemma_pow10_pos(s - b.scale);
    }
    if (pa > 1 && a.mantissa > ALIGN_LIMIT / pa) || (pb > 1 && b.mantissa > ALIGN_LIMIT / pb) {
        proof {
            if pa > 1 && a.mantissa > ALIGN_LIMIT / pa {
                assert(a.mantissa * pa > ALIGN_LIMIT) by (nonlinear_arith)
                    requires
                        a.mantissa > ALIGN_LIMIT as int / pa as int,
                        pa > 1,
                ;
            } else {
                assert(b.mantissa * pb > ALIGN_LIMIT) by (nonlinear_arith)
                    requires
                        b.mantissa > ALIGN_LIMIT as int / pb as int,
                        pb > 1,
                ;
            }
        }
        return None;
    }
    proof {
        assert(a.mantissa * pa <= ALIGN_LIMIT) by (nonlinear_arith)
            requires
                pa >= 1,
                a.mantissa < MAX_MANTISSA,
                pa > 1 ==> a.mantissa <= ALIGN_LIMIT as int / pa as int,
                MAX_MANTISSA <= ALIGN_LIMIT,
        ;
        assert(b.mantissa * pb <= ALIGN_LIMIT) by (nonlinear_arith)
            requires
                pb >= 1,
                b.mantissa < MAX_MANTISSA,
                pb > 1 ==> b.mantissa <= ALIGN_LIMIT as int / pb as int,
                MAX_MANTISSA <= ALIGN_LIMIT,
        ;
    }
    let ma = a.mantissa * pa;
    let mb = b.mantissa * pb;
    let rneg: bool;
    let rmag: u64;
    if !a.negative && !b.negative {
        if ma >= mb {
            rneg = false;
            rmag = ma - mb;
        } else {
            rneg = true;
            rmag = mb - ma;
        }
    } else if a.negative && b.negative {
        if mb >= ma {
            rneg = false;
            rmag = mb - ma;
        } else {
            rneg = true;
            rmag = ma - mb;
        }
    } else if !a.negative {
        rneg = false;
        rmag = ma + mb;
    } else {
        rneg = true;
        rmag = ma + mb;
    }
    let d = Decimal::new(rneg, rmag, s);
    proof {
        let na = a.num() * pow10(s - a.scale);
        let nb = b.num() * pow10(s - b.scale);
        assert((a.mantissa as int) * (pa as int) == ma as int);
        assert((b.mantissa as int) * (pb as int) == mb as int);
        assert((-(a.mantissa as int)) * (pa as int) == -((a.mantissa as int) * (pa as int)))
            by (nonlinear_arith);
        assert((-(b.mantissa as int)) * (pb as int) == -((b.mantissa as int) * (pb as int)))
            by (nonlinear_arith);
        assert(na == if a.negative { -(ma as int) } else { ma as int });
        assert(nb == if b.negative { -(mb as int) } else { mb as int });
        if na - nb == 0 {
            assert(norm_spec(rmag as int, s as int).0 == 0);
        }
    }
    Some(d)
}

/// Adds two decimals exactly.
pub fn dec_add(a: Decimal, b: Decimal) -> (r: Option<Decimal>)
    requires
        a.wf(),
        b.wf(),
    ensures
        r == dec_add_spec(a, b),
{
    dec_sub(a, dec_neg(b))
}

} // verus!
