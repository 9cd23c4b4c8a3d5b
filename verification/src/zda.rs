//! `ZDA`: UTC date and time with the local zone offset.

use vstd::prelude::*;

use crate::common;
use crate::common::fld;
use crate::common::fields_view;
use crate::datetime::spec_parse_time;
use crate::datetime::Time;
use crate::Error;
use crate::Source;

verus! {

/// UTC time of day, full calendar date, and the receiver's local zone
/// offset from UTC.
#[derive(Clone, Copy, Debug, PartialEq, Eq)]
pub struct ZDA {
    /// Navigational system.
    pub source: Source,
    /// Current time in UTC.
    pub time: Time,
    /// Current day.
    pub day: u8,
    /// Current month.
    pub month: u8,
    /// Current year, four digits as transmitted.
    pub year: u16,
    /// Offset in hours from UTC.
    pub offset_hours: Option<i8>,
    /// Offset in minutes from UTC.
    pub offset_minutes: Option<u8>,
}

/// The `ZDA` schema: time, day, month and four-digit year are mandatory
/// for a payload; the zone offset fields are optional.  Absent mandatory
/// fields mean "recognized, no payload"; unparseable text is an error.
pub open spec fn spec_parse_zda(source: Source, fs: Seq<Seq<u8>>) -> Result<Option<ZDA>, Error> {
    match spec_parse_time(fld(fs, 0)) {
        Err(e) => Err(e),
        Ok(time) => match common::spec_parse_u8(fld(fs, 1)) {
            Err(e) => Err(e),
            Ok(day) => match common::spec_parse_u8(fld(fs, 2)) {
                Err(e) => Err(e),
                Ok(month) => match common::spec_parse_u16(fld(fs, 3)) {
                    Err(e) => Err(e),
                    Ok(year) => match common::spec_parse_i8(fld(fs, 4)) {
                        Err(e) => Err(e),
                        Ok(offset_hours) => match common::spec_parse_u8(fld(fs, 5)) {
                            Err(e) => Err(e),
                            Ok(offset_minutes) => match (time, day, month, year) {
                                (Some(t), Some(d), Some(m), Some(y)) => Ok(
                                    Some(
                                        ZDA {
                                            source,
                                            time: t,
                                            day: d,
                                            month: m,
                                            year: y,
                                            offset_hours,
                                            offset_minutes,
                                        },
                                    ),
                                ),
                                _ => Ok(None),
                            },
                        },
                    },
                },
            },
        },
    }
}

impl ZDA {
    /// Decodes the `ZDA` field sequence.
    pub fn parse(source: Source, fields: &Vec<Vec<u8>>) -> (r: Result<Option<ZDA>, Error>)
        ensures
            r == spec_parse_zda(source, fields_view(fields@)),
    {
        let time = match Time::parse_from_hhmmss(fields, 0) {
            Ok(v) => v,
            Err(e) => {
                return Err(e);
            },
        };
        let day = match common::field_u8(fields, 1) {
            Ok(v) => v,
            Err(e) => {
                return Err(e);
            },
        };
        let month = match common::field_u8(fields, 2) {
            Ok(v) => v,
            Err(e) => {
                return Err(e);
            },
        };
        let year = match common::field_u16(fields, 3) {
            Ok(v) => v,
            Err(e) => {
                return Err(e);
            },
        };
        let offset_hours = match common::field_i8(fields, 4) {
            Ok(v) => v,
            Err(e) => {
                return Err(e);
            },
        };
        let offset_minutes = match common::field_u8(fields, 5) {
            Ok(v) => v,
            Err(e) => {
                return Err(e);
            },
        };
        match (time, day, month, year) {
            (Some(t), Some(d), Some(m), Some(y)) => Ok(
                Some(
                    ZDA {
                        source,
                        time: t,
                        day: d,
                        month: m,
                        year: y,
                        offset_hours,
                        offset_minutes,
                    },
                ),
            ),
            _ => Ok(None),
        }
    }
}

} // verus!
