//! `GLL`: geographic position with time of fix and receiver status.

use vstd::prelude::*;

use crate::common::fld;
use crate::common::fields_view;
use crate::coords::spec_parse_latitude;
use crate::coords::spec_parse_longitude;
use crate::coords;
use crate::datetime::spec_parse_time;
use crate::datetime::Time;
use crate::Error;
use crate::Mode;
use crate::Source;

verus! {

/// Latitude and longitude with the time of the fix.
#[derive(Clone, Copy, Debug, PartialEq, Eq)]
pub struct GLL {
    /// Navigational system.
    pub source: Source,
    /// Time of the fix in UTC.
    pub time: Time,
    /// Latitude of the fix.
    pub latitude: coords::Latitude,
    /// Longitude of the fix.
    pub longitude: coords::Longitude,
    /// Positioning mode.
    pub mode: Mode,
}

/// The `GLL` schema: latitude pair, longitude pair, time, a status letter
/// and an optional mode.  A void status or an absent mandatory field means
/// "recognized, no payload".
pub open spec fn spec_parse_gll(source: Source, fs: Seq<Seq<u8>>) -> Result<Option<GLL>, Error> {
    match spec_parse_latitude(fld(fs, 0), fld(fs, 1)) {
        Err(e) => Err(e),
        Ok(lat) => match spec_parse_longitude(fld(fs, 2), fld(fs, 3)) {
            Err(e) => Err(e),
            Ok(lon) => match spec_parse_time(fld(fs, 4)) {
                Err(e) => Err(e),
                Ok(time) => match crate::spec_parse_status(fld(fs, 5)) {
                    Err(e) => Err(e),
                    Ok(status) => match crate::spec_parse_mode(fld(fs, 6)) {
                        Err(e) => Err(e),
                        Ok(mode) => match (lat, lon, time, status) {
                            (Some(latitude), Some(longitude), Some(t), Some(true)) => Ok(
                                Some(GLL { source, time: t, latitude, longitude, mode }),
                            ),
                            _ => Ok(None),
                        },
                    },
                },
            },
        },
    }
}

impl GLL {
    /// Decodes the `GLL` field sequence.
    pub fn parse(source: Source, fields: &Vec<Vec<u8>>) -> (r: Result<Option<GLL>, Error>)
        ensures
            r == spec_parse_gll(source, fields_view(fields@)),
    {
        let lat = match coords::parse_latitude(fields, 0, 1) {
            Ok(v) => v,
            Err(e) => {
                return Err(e);
            },
        };
        let lon = match coords::parse_longitude(fields, 2, 3) {
            Ok(v) => v,
            Err(e) => {
                return Err(e);
            },
        };
        let time = match Time::parse_from_hhmmss(fields, 4) {
            Ok(v) => v,
            Err(e) => {
                return Err(e);
            },
        };
        let status = match crate::parse_status_field(fields, 5) {
            Ok(v) => v,
            Err(e) => {
                return Err(e);
            },
        };
        let mode = match crate::parse_mode_field(fields, 6) {
            Ok(v) => v,
            Err(e) => {
                return Err(e);
            },
        };
        match (lat, lon, time, status) {
            (Some(latitude), Some(longitude), Some(t), Some(true)) => Ok(
                Some(GLL { source, time: t, latitude, longitude, mode }),
            ),
            _ => Ok(None),
        }
    }
}

} // verus!
