//! `RMC`: the recommended minimum sentence — position, speed, course and
//! date/time.

use vstd::prelude::*;

use crate::common;
use crate::common::fld;
use crate::common::fields_view;
use crate::common::Decimal;
use crate::common::LET_E;
use crate::common::LET_W;
use crate::coords;
use crate::coords::Course;
use crate::coords::Speed;
use crate::datetime::spec_parse_date;
use crate::datetime::spec_parse_time;
use crate::datetime::Date;
use crate::datetime::DateTime;
use crate::datetime::Time;
use crate::Error;
use crate::Mode;
use crate::Source;

verus! {

/// Position, ground speed, true course and UTC date/time; the magnetic
/// course is derived from the true course and the magnetic variation.
#[derive(Clone, Copy, Debug, PartialEq, Eq)]
pub struct RMC {
    /// Navigational system.
    pub source: Source,
    /// Date and time of the fix in UTC.
    pub datetime: DateTime,
    /// Latitude of the fix.
    pub latitude: coords::Latitude,
    /// Longitude of the fix.
    pub longitude: coords::Longitude,
    /// Ground speed.
    pub speed: Speed,
    /// Course over ground, degrees true.
    pub course: Option<Course>,
    /// Course over ground, degrees magnetic.
    pub magnetic: Option<Course>,
    /// Positioning mode.
    pub mode: Mode,
}

/// A magnetic-variation direction letter: `E` or `W`; empty means absent.
pub open spec fn spec_parse_var_dir(s: Seq<u8>) -> Result<Option<bool>, Error> {
    if s.len() == 0 {
        Ok(None)
    } else if s.len() == 1 && s[0] == LET_E {
        Ok(Some(true))
    } else if s.len() == 1 && s[0] == LET_W {
        Ok(Some(false))
    } else {
        Err(Error::MalformedField)
    }
}

/// The magnetic course: an easterly variation is subtracted from the true
/// course, a westerly one added.  A variation without a direction letter is
/// malformed, as is one whose aligned arithmetic would overflow.
pub open spec fn spec_magnetic(
    course: Option<Decimal>,
    var: Option<Decimal>,
    east: Option<bool>,
) -> Result<Option<Course>, Error> {
    match var {
        None => Ok(None),
        Some(v) => match east {
            None => Err(Error::MalformedField),
            Some(e) => match course {
                None => Ok(None),
                Some(c) => {
                    let m = if e {
                        common::dec_sub_spec(c, v)
                    } else {
                        common::dec_add_spec(c, v)
                    };
                    match m {
                        Some(d) => Ok(Some(Course { degrees: d })),
                        None => Err(Error::MalformedField),
                    }
                },
            },
        },
    }
}

/// The `RMC` schema: time, status, latitude pair, longitude pair, knots
/// speed, true course, date, magnetic variation with its direction, and an
/// optional mode.  A void status or an absent mandatory field means
/// "recognized, no payload".
pub open spec fn spec_parse_rmc(source: Source, fs: Seq<Seq<u8>>) -> Result<Option<RMC>, Error> {
    match spec_parse_time(fld(fs, 0)) {
        Err(e) => Err(e),
        Ok(time) => match crate::spec_parse_status(fld(fs, 1)) {
            Err(e) => Err(e),
            Ok(status) => match coords::spec_parse_latitude(fld(fs, 2), fld(fs, 3)) {
                Err(e) => Err(e),
                Ok(lat) => match coords::spec_parse_longitude(fld(fs, 4), fld(fs, 5)) {
                    Err(e) => Err(e),
                    Ok(lon) => match common::spec_parse_decimal(fld(fs, 6)) {
                        Err(e) => Err(e),
                        Ok(speed) => match common::spec_parse_decimal(fld(fs, 7)) {
                            Err(e) => Err(e),
                            Ok(course) => match spec_parse_date(fld(fs, 8)) {
                                Err(e) => Err(e),
                                Ok(date) => match common::spec_parse_decimal(fld(fs, 9)) {
                                    Err(e) => Err(e),
                                    Ok(var) => match spec_parse_var_dir(fld(fs, 10)) {
                                        Err(e) => Err(e),
                                        Ok(east) => match crate::spec_parse_mode(fld(fs, 11)) {
                                            Err(e) => Err(e),
                                            Ok(mode) => match spec_magnetic(course, var, east) {
                                                Err(e) => Err(e),
                                                Ok(magnetic) => match (
                                                    time,
                                                    status,
                                                    lat,
                                                    lon,
                                                    speed,
                                                    date,
                                                ) {
                                                    (
                                                        Some(t),
                                                        Some(true),
                                                        Some(latitude),
                                                        Some(longitude),
                                                        Some(kn),
                                                        Some(d),
                                                    ) => Ok(
                                                        Some(
                                                            RMC {
                                                                source,
                                                                datetime: DateTime {
                                                                    date: d,
                                                                    time: t,
                                                                },
                                                                latitude,
                                                                longitude,
                                                                speed: Speed { knots: kn },
                                                                course: match course {
                                                                    Some(c) => Some(
                                                                        Course { degrees: c },
                                                                    ),
                                                                    None => None,
                                                                },
                                                                magnetic,
                                                                mode,
                                                            },
                                                        ),
                                                    ),
                                                    _ => Ok(None),
                                                },
                                            },
                                        },
                                    },
                                },
                            },
                        },
                    },
                },
            },
        },
    }
}

impl RMC {
    /// Decodes the `RMC` field sequence.
    pub fn parse(source: Source, fields: &Vec<Vec<u8>>) -> (r: Result<Option<RMC>, Error>)
        ensures
            r == spec_parse_rmc(source, fields_view(fields@)),
    {
        let time = match Time::parse_from_hhmmss(fields, 0) {
            Ok(v) => v,
            Err(e) => {
                return Err(e);
            },
        };
        let status = match crate::parse_status_field(fields, 1) {
            Ok(v) => v,
            Err(e) => {
                return Err(e);
            },
        };
        let lat = match coords::parse_latitude(fields, 2, 3) {
            Ok(v) => v,
            Err(e) => {
                return Err(e);
            },
        };
        let lon = match coords::parse_longitude(fields, 4, 5) {
            Ok(v) => v,
            Err(e) => {
                return Err(e);
            },
        };
        let speed = match common::field_decimal(fields, 6) {
            Ok(v) => v,
            Err(e) => {
                return Err(e);
            },
        };
        let course = match common::field_decimal(fields, 7) {
            Ok(v) => v,
            Err(e) => {
                return Err(e);
            },
        };
        let date = match Date::parse_from_ddmmyy(fields, 8) {
            Ok(v) => v,
            Err(e) => {
                return Err(e);
            },
        };
        let var = match common::field_decimal(fields, 9) {
            Ok(v) => v,
            Err(e) => {
                return Err(e);
            },
        };
        let east = match parse_var_dir_field(fields, 10) {
            Ok(v) => v,
            Err(e) => {
                return Err(e);
            },
        };
        let mode = match crate::parse_mode_field(fields, 11) {
            Ok(v) => v,
            Err(e) => {
                return Err(e);
            },
        };
        let magnetic = match compute_magnetic(course, var, east) {
            Ok(v) => v,
            Err(e) => {
                return Err(e);
            },
        };
        match (time, status, lat, lon, speed, date) {
            (Some(t), Some(true), Some(latitude), Some(longitude), Some(kn), Some(d)) => Ok(
                Some(
                    RMC {
                        source,
                        datetime: DateTime { date: d, time: t },
                        latitude,
                        longitude,
                        speed: Speed { knots: kn },
                        course: match course {
                            Some(c) => Some(Course { degrees: c }),
                            None => None,
                        },
                        magnetic,
                        mode,
                    },
                ),
            ),
            _ => Ok(None),
        }
    }
}

/// Decodes the variation-direction field at index `i`.
fn parse_var_dir_field(fields: &Vec<Vec<u8>>, i: usize) -> (r: Result<Option<bool>, Error>)
    ensures
        r == spec_parse_var_dir(fld(fields_view(fields@), i as int)),
{
    if i < fields.len() && fields[i].len() > 0 {
        let f = &fields[i];
        if f.len() == 1 && f[0] == LET_E {
            Ok(Some(true))
        } else if f.len() == 1 && f[0] == LET_W {
            Ok(Some(false))
        } else {
            Err(Error::MalformedField)
        }
    } else {
        Ok(None)
    }
}

/// Applies the magnetic variation to the true course.
fn compute_magnetic(
    course: Option<Decimal>,
    var: Option<Decimal>,
    east: Option<bool>,
) -> (r: Result<Option<Course>, Error>)
    requires
        course matches Some(c) ==> c.wf(),
        var matches Some(v) ==> v.wf(),
    ensures
        r == spec_magnetic(course, var, east),
{
    match var {
        None => Ok(None),
        Some(v) => match east {
            None => Err(Error::MalformedField),
            Some(e) => match course {
                None => Ok(None),
                Some(c) => {
                    let m = if e {
                        common::dec_sub(c, v)
                    } else {
                        common::dec_add(c, v)
                    };
                    match m {
                        Some(d) => Ok(Some(Course { degrees: d })),
                        None => Err(Error::MalformedField),
                    }
                },
            },
        },
    }
}

} // verus!
