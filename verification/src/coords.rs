//! Geographic coordinates, speed and course values.
//!
//! A wire coordinate is a fixed-width integer-degree prefix concatenated
//! with fractional minutes (`ddmm.mmmm` for latitude, `dddmm.mmmm` for
//! longitude) plus a separate hemisphere letter.  The canonical stored form
//! is unsigned degrees, minutes and fractional seconds with a hemisphere
//! tag; a signed decimal-degrees view is derived from it exactly, as a
//! numerator over a denominator.

use vstd::prelude::*;

use crate::common;
use crate::common::all_digits;
use crate::common::dec_make;
use crate::common::digits_val;
use crate::common::fld;
use crate::common::fields_view;
use crate::common::pow10;
use crate::common::Decimal;
use crate::common::DOT;
use crate::common::LET_E;
use crate::common::LET_N;
use crate::common::LET_S;
use crate::common::LET_W;
use crate::Error;

verus! {

/// The half of the globe a coordinate lies in.
#[derive(Clone, Copy, Debug, PartialEq, Eq)]
pub enum Hemisphere {
    /// Latitude `N`.
    North,
    /// Latitude `S`.
    South,
    /// Longitude `E`.
    East,
    /// Longitude `W`.
    West,
}

/// A latitude in canonical unsigned form.
#[derive(Clone, Copy, Debug, PartialEq, Eq)]
pub struct Latitude {
    /// Whole degrees, `0..=90`.
    pub degrees: u8,
    /// Whole minutes, `0..=59`.
    pub minutes: u8,
    /// Fractional seconds, `0 <= s < 60`.
    pub seconds: Decimal,
    /// `North` or `South`.
    pub hemisphere: Hemisphere,
}

/// A longitude in canonical unsigned form.
#[derive(Clone, Copy, Debug, PartialEq, Eq)]
pub struct Longitude {
    /// Whole degrees, `0..=180`.
    pub degrees: u16,
    /// Whole minutes, `0..=59`.
    pub minutes: u8,
    /// Fractional seconds, `0 <= s < 60`.
    pub seconds: Decimal,
    /// `East` or `West`.
    pub hemisphere: Hemisphere,
}

impl Latitude {
    /// The protocol invariant of a decoded latitude.
    pub open spec fn wf(self) -> bool {
        &&& self.degrees <= 90
        &&& self.minutes <= 59
        &&& self.seconds.wf()
        &&& !self.seconds.negative
        &&& self.seconds.mantissa < 60 * pow10(self.seconds.scale as int)
        &&& self.hemisphere == Hemisphere::North || self.hemisphere == Hemisphere::South
    }

    /// The numerator of the signed decimal-degree value, over [`Self::den_spec`].
    pub open spec fn num_spec(self) -> int {
        let mag = (self.degrees as int) * 3600 * pow10(self.seconds.scale as int) + (
        self.minutes as int) * 60 * pow10(self.seconds.scale as int) + self.seconds.mantissa as int;
        if self.hemisphere == Hemisphere::South {
            -mag
        } else {
            mag
        }
    }

    /// The denominator of the signed decimal-degree value.
    pub open spec fn den_spec(self) -> int {
        3600 * pow10(self.seconds.scale as int)
    }

    /// The signed decimal-degree view as an exact fraction: south is
    /// negative; the fraction always agrees with the stored unsigned
    /// degrees, minutes and seconds.
    pub fn decimal_degrees(&self) -> (r: (i64, u64))
        requires
            self.wf(),
        ensures
            r.0 == self.num_spec(),
            r.1 == self.den_spec(),
    {
        proof {
            common::lemma_pow10_12();
            common::lemma_pow10_mono(self.seconds.scale as int, 12);
            common::lemma_pow10_pos(self.seconds.scale as int);
        }
        let p = common::pow10_u64(self.seconds.scale);
        proof {
            let pi = p as int;
            assert((self.degrees as int) * 3600 * pi <= 90 * 3600 * 1_000_000_000_000)
                by (nonlinear_arith)
                requires
                    0 <= self.degrees <= 90,
                    1 <= pi <= 1_000_000_000_000,
            ;
            assert((self.minutes as int) * 60 * pi <= 59 * 60 * 1_000_000_000_000)
                by (nonlinear_arith)
                requires
                    0 <= self.minutes <= 59,
                    1 <= pi <= 1_000_000_000_000,
            ;
            assert((self.degrees as int) * 3600 * pi >= 0 && (self.minutes as int) * 60 * pi >= 0)
                by (nonlinear_arith)
                requires
                    0 <= self.degrees,
                    0 <= self.minutes,
                    1 <= pi,
            ;
        }
        let mag: u64 = (self.degrees as u64) * 3600 * p + (self.minutes as u64) * 60 * p
            + self.seconds.mantissa;
        let num: i64 = if matches!(self.hemisphere, Hemisphere::South) {
            0 - (mag as i64)
        } else {
            mag as i64
        };
        (num, 3600 * p)
    }
}

impl Longitude {
    /// The protocol invariant of a decoded longitude.
    pub open spec fn wf(self) -> bool {
        &&& self.degrees <= 180
        &&& self.minutes <= 59
        &&& self.seconds.wf()
        &&& !self.seconds.negative
        &&& self.seconds.mantissa < 60 * pow10(self.seconds.scale as int)
        &&& self.hemisphere == Hemisphere::East || self.hemisphere == Hemisphere::West
    }

    /// The numerator of the signed decimal-degree value, over [`Self::den_spec`].
    pub open spec fn num_spec(self) -> int {
        let mag = (self.degrees as int) * 3600 * pow10(self.seconds.scale as int) + (
        self.minutes as int) * 60 * pow10(self.seconds.scale as int) + self.seconds.mantissa as int;
        if self.hemisphere == Hemisphere::West {
            -mag
        } else {
            mag
        }
    }

    /// The denominator of the signed decimal-degree value.
    pub open spec fn den_spec(self) -> int {
        3600 * pow10(self.seconds.scale as int)
    }

    /// The signed decimal-degree view as an exact fraction: west is
    /// negative; the fraction always agrees with the stored unsigned
    /// degrees, minutes and seconds.
    pub fn decimal_degrees(&self) -> (r: (i64, u64))
        requires
            self.wf(),
        ensures
            r.0 == self.num_spec(),
            r.1 == self.den_spec(),
    {
        proof {
            common::lemma_pow10_12();
            common::lemma_pow10_mono(self.seconds.scale as int, 12);
            common::lemma_pow10_pos(self.seconds.scale as int);
        }
        let p = common::pow10_u64(self.seconds.scale);
        proof {
            let pi = p as int;
            assert((self.degrees as int) * 3600 * pi <= 180 * 3600 * 1_000_000_000_000)
                by (nonlinear_arith)
                requires
                    0 <= self.degrees <= 180,
                    1 <= pi <= 1_000_000_000_000,
            ;
            assert((self.minutes as int) * 60 * pi <= 59 * 60 * 1_000_000_000_000)
                by (nonlinear_arith)
                requires
                    0 <= self.minutes <= 59,
                    1 <= pi <= 1_000_000_000_000,
            ;
            assert((self.degrees as int) * 3600 * pi >= 0 && (self.minutes as int) * 60 * pi >= 0)
                by (nonlinear_arith)
                requires
                    0 <= self.degrees,
                    0 <= self.minutes,
                    1 <= pi,
            ;
        }
        let mag: u64 = (self.degrees as u64) * 3600 * p + (self.minutes as u64) * 60 * p
            + self.seconds.mantissa;
        let num: i64 = if matches!(self.hemisphere, Hemisphere::West) {
            0 - (mag as i64)
        } else {
            mag as i64
        };
        (num, 3600 * p)
    }
}

/// The shared minutes grammar after the degree prefix: two whole-minute
/// digits, then an optional point and at most twelve fraction digits.
pub open spec fn minutes_ok(s: Seq<u8>, d: int) -> bool {
    &&& s.len() >= d + 2
    &&& all_digits(s.subrange(d, d + 2))
    &&& (s.len() == d + 2 || (s.len() >= d + 4 && s[d + 2] == DOT && all_digits(s.skip(d + 3))
        && s.len() - d - 3 <= 12))
}

/// The fractional-minute digits of a coordinate field.
pub open spec fn min_frac(s: Seq<u8>, d: int) -> Seq<u8> {
    if s.len() == d + 2 {
        Seq::<u8>::empty()
    } else {
        s.skip(d + 3)
    }
}

/// The seconds carried by the fractional minutes: `frac * 60`, scaled.
pub open spec fn seconds_of(s: Seq<u8>, d: int) -> Decimal {
    dec_make(false, digits_val(min_frac(s, d)) * 60, min_frac(s, d).len() as int)
}

/// A latitude field pair: `ddmm.mmmm` and a hemisphere letter `N`/`S`.
/// Both empty means absent; degrees above 90 or minutes above 59 are
/// malformed.
pub open spec fn spec_parse_latitude(s: Seq<u8>, h: Seq<u8>) -> Result<Option<Latitude>, Error> {
    if s.len() == 0 && h.len() == 0 {
        Ok(None)
    } else if s.len() >= 2 && all_digits(s.subrange(0, 2)) && minutes_ok(s, 2) && h.len() == 1 && (
    h[0] == LET_N || h[0] == LET_S) {
        let deg = digits_val(s.subrange(0, 2));
        let minw = digits_val(s.subrange(2, 4));
        if deg <= 90 && minw <= 59 {
            Ok(
                Some(
                    Latitude {
                        degrees: deg as u8,
                        minutes: minw as u8,
                        seconds: seconds_of(s, 2),
                        hemisphere: if h[0] == LET_N {
                            Hemisphere::North
                        } else {
                            Hemisphere::South
                        },
                    },
                ),
            )
        } else {
            Err(Error::MalformedField)
        }
    } else {
        Err(Error::MalformedField)
    }
}

/// A longitude field pair: `dddmm.mmmm` and a hemisphere letter `E`/`W`.
pub open spec fn spec_parse_longitude(s: Seq<u8>, h: Seq<u8>) -> Result<Option<Longitude>, Error> {
    if s.len() == 0 && h.len() == 0 {
        Ok(None)
    } else if s.len() >= 3 && all_digits(s.subrange(0, 3)) && minutes_ok(s, 3) && h.len() == 1 && (
    h[0] == LET_E || h[0] == LET_W) {
        let deg = digits_val(s.subrange(0, 3));
        let minw = digits_val(s.subrange(3, 5));
        if deg <= 180 && minw <= 59 {
            Ok(
                Some(
                    Longitude {
                        degrees: deg as u16,
                        minutes: minw as u8,
                        seconds: seconds_of(s, 3),
                        hemisphere: if h[0] == LET_E {
                            Hemisphere::East
                        } else {
                            Hemisphere::West
                        },
                    },
                ),
            )
        } else {
            Err(Error::MalformedField)
        }
    } else {
        Err(Error::MalformedField)
    }
}

/// The seconds derived from a well-formed fractional-minute run are a
/// well-formed decimal below 60.
pub proof fn lemma_seconds_wf(s: Seq<u8>, d: int)
    requires
        minutes_ok(s, d),
        0 <= d,
    ensures
        seconds_of(s, d).wf(),
        !seconds_of(s, d).negative,
        seconds_of(s, d).mantissa < 60 * pow10(seconds_of(s, d).scale as int),
{
    let frac = min_frac(s, d);
    let ln = frac.len() as int;
    common::lemma_digits_val_bound(frac);
    assert(digits_val(frac) * 60 < 60 * pow10(ln)) by (nonlinear_arith)
        requires
            digits_val(frac) < pow10(ln),
            digits_val(frac) >= 0,
    ;
    let raw = digits_val(frac) * 60;
    common::lemma_norm(raw, ln);
    common::lemma_norm_bound(raw, ln, 60);
    common::lemma_pow10_12();
    common::lemma_pow10_15();
    common::lemma_pow10_mono(ln, 12);
    assert(raw < 60 * pow10(12));
}

/// Decodes the latitude field pair at indexes `i` (digits) and `j`
/// (hemisphere letter).
pub fn parse_latitude(fields: &Vec<Vec<u8>>, i: usize, j: usize) -> (r: Result<
    Option<Latitude>,
    Error,
>)
    ensures
        r == spec_parse_latitude(
            fld(fields_view(fields@), i as int),
            fld(fields_view(fields@), j as int),
        ),
        r matches Ok(Some(lat)) ==> lat.wf(),
{
    let has_s = i < fields.len() && fields[i].len() > 0;
    let has_h = j < fields.len() && fields[j].len() > 0;
    if !has_s && !has_h {
        return Ok(None);
    }
    if !has_s || !has_h {
        return Err(Error::MalformedField);
    }
    let f = fields[i].as_slice();
    let h = fields[j].as_slice();
    let ghost sv: Seq<u8> = fld(fields_view(fields@), i as int);
    let ghost hv: Seq<u8> = fld(fields_view(fields@), j as int);
    assert(f@ == sv && h@ == hv);
    let hemi = if h.len() == 1 && h[0] == LET_N {
        Hemisphere::North
    } else if h.len() == 1 && h[0] == LET_S {
        Hemisphere::South
    } else {
        return Err(Error::MalformedField);
    };
    let n = f.len();
    if n < 4 {
        return Err(Error::MalformedField);
    }
    let deg = match common::read2(f, 0) {
        Some(v) => v,
        None => {
            return Err(Error::MalformedField);
        },
    };
    let minw = match common::read2(f, 2) {
        Some(v) => v,
        None => {
            return Err(Error::MalformedField);
        },
    };
    if deg > 90 || minw > 59 {
        return Err(Error::MalformedField);
    }
    let sec = match parse_min_frac(f, 4) {
        Ok(v) => v,
        Err(e) => {
            return Err(e);
        },
    };
    proof {
        lemma_seconds_wf(sv, 2);
    }
    Ok(Some(Latitude { degrees: deg, minutes: minw, seconds: sec, hemisphere: hemi }))
}

/// Decodes the longitude field pair at indexes `i` (digits) and `j`
/// (hemisphere letter).
pub fn parse_longitude(fields: &Vec<Vec<u8>>, i: usize, j: usize) -> (r: Result<
    Option<Longitude>,
    Error,
>)
    ensures
        r == spec_parse_longitude(
            fld(fields_view(fields@), i as int),
            fld(fields_view(fields@), j as int),
        ),
        r matches Ok(Some(lon)) ==> lon.wf(),
{
    let has_s = i < fields.len() && fields[i].len() > 0;
    let has_h = j < fields.len() && fields[j].len() > 0;
    if !has_s && !has_h {
        return Ok(None);
    }
    if !has_s || !has_h {
        return Err(Error::MalformedField);
    }
    let f = fields[i].as_slice();
    let h = fields[j].as_slice();
    let ghost sv: Seq<u8> = fld(fields_view(fields@), i as int);
    let ghost hv: Seq<u8> = fld(fields_view(fields@), j as int);
    assert(f@ == sv && h@ == hv);
    let hemi = if h.len() == 1 && h[0] == LET_E {
        Hemisphere::East
    } else if h.len() == 1 && h[0] == LET_W {
        Hemisphere::West
    } else {
        return Err(Error::MalformedField);
    };
    let n = f.len();
    if n < 5 {
        return Err(Error::MalformedField);
    }
    let deg = match common::read3(f, 0) {
        Some(v) => v,
        None => {
            return Err(Error::MalformedField);
        },
    };
    let minw = match common::read2(f, 3) {
        Some(v) => v,
        None => {
            return Err(Error::MalformedField);
        },
    };
    if deg > 180 || minw > 59 {
        return Err(Error::MalformedField);
    }
    let sec = match parse_min_frac(f, 5) {
        Ok(v) => v,
        Err(e) => {
            return Err(e);
        },
    };
    proof {
        lemma_seconds_wf(sv, 3);
    }
    Ok(Some(Longitude { degrees: deg, minutes: minw, seconds: sec, hemisphere: hemi }))
}

/// Decodes the fractional-minute run that starts at `at` (the position of
/// the optional decimal point) into seconds.
fn parse_min_frac(f: &[u8], at: usize) -> (r: Result<Decimal, Error>)
    requires
        4 <= at <= f@.len(),
    ensures
        minutes_ok(f@, at - 2) ==> r == Ok::<Decimal, Error>(seconds_of(f@, at - 2)),
        !(f@.len() == at || (f@.len() >= at + 2 && f@[at as int] == DOT && all_digits(
            f@.skip(at + 1),
        ) && f@.len() - at - 1 <= 12)) ==> r == Err::<Decimal, Error>(Error::MalformedField),
    decreases f@.len(),
{
    let n = f.len();
    let ghost d: int = at - 2;
    if n == at {
        proof {
            assert(min_frac(f@, d) =~= Seq::<u8>::empty());
            assert(digits_val(Seq::<u8>::empty()) == 0);
        }
        return Ok(Decimal::new(false, 0, 0));
    }
    if n - at < 2 || f[at] != DOT || n - at - 1 > 12 {
        return Err(Error::MalformedField);
    }
    let ghost frac: Seq<u8> = f@.skip(at + 1);
    proof {
        assert(frac =~= f@.subrange(at + 1, n as int));
        assert(Seq::<u8>::empty() + frac =~= frac);
        assert(digits_val(Seq::<u8>::empty()) == 0);
    }
    let v = match common::scan_digits(f, at + 1, n, 0, Ghost(Seq::<u8>::empty())) {
        Ok(v) => v,
        Err(e) => {
            assert(!all_digits(frac));
            return Err(e);
        },
    };
    proof {
        common::lemma_digits_val_bound(frac);
        common::lemma_pow10_12();
        common::lemma_pow10_mono(frac.len() as int, 12);
        assert(min_frac(f@, d) == frac);
    }
    Ok(Decimal::new(false, v * 60, (n - at - 1) as u32))
}

/// A horizontal speed, stored in knots at the transmitted precision.
#[derive(Clone, Copy, Debug, PartialEq, Eq)]
pub struct Speed {
    /// Knots.
    pub knots: Decimal,
}

impl Speed {
    /// Wraps a knots value.
    pub fn from_knots(knots: Decimal) -> (r: Speed)
        ensures
            r.knots == knots,
    {
        Speed { knots }
    }

    /// The stored knots value.
    pub fn as_knots(&self) -> (r: Decimal)
        ensures
            r == self.knots,
    {
        self.knots
    }

    /// The exact conversion to kilometres per hour: one knot is 1.852 km/h.
    pub fn as_kph(&self) -> (r: Decimal)
        requires
            self.knots.wf(),
        ensures
            r == dec_make(
                self.knots.negative,
                self.knots.mantissa * 1852,
                self.knots.scale + 3,
            ),
    {
        Decimal::new(self.knots.negative, self.knots.mantissa * 1852, self.knots.scale + 3)
    }

    /// The exact conversion to metres per second, as a fraction: one knot
    /// is 1852/3600 m/s, so the value is `knots * 463 / 900`.
    pub fn as_mps_fraction(&self) -> (r: (i64, u64))
        requires
            self.knots.wf(),
        ensures
            r.0 == self.knots.num() * 463,
            r.1 == 900 * pow10(self.knots.scale as int),
    {
        proof {
            common::lemma_pow10_12();
            common::lemma_pow10_mono(self.knots.scale as int, 12);
            common::lemma_pow10_pos(self.knots.scale as int);
        }
        let p = common::pow10_u64(self.knots.scale);
        let mag = (self.knots.mantissa as i64) * 463;
        let num: i64 = if self.knots.negative {
            0 - mag
        } else {
            mag
        };
        (num, 900 * p)
    }
}

/// A course over ground in degrees from true north.
#[derive(Clone, Copy, Debug, PartialEq, Eq)]
pub struct Course {
    /// Degrees.
    pub degrees: Decimal,
}

impl From<Decimal> for Course {
    /// Wraps a degrees value.
    fn from(degrees: Decimal) -> (r: Course) {
        Course { degrees }
    }
}

impl vstd::std_specs::convert::FromSpecImpl<Decimal> for Course {
    open spec fn obeys_from_spec() -> bool {
        true
    }

    open spec fn from_spec(degrees: Decimal) -> Course {
        Course { degrees }
    }
}

/// An antenna altitude above mean sea level.
#[derive(Clone, Copy, Debug, PartialEq, Eq)]
pub struct Altitude {
    /// Metres.
    pub meters: Decimal,
}

} // verus!
