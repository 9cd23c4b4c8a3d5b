//! `GGA`: the global positioning fix with quality metadata.

use vstd::prelude::*;

use crate::common;
use crate::common::fld;
use crate::common::fields_view;
use crate::common::Decimal;
use crate::coords;
use crate::coords::Altitude;
use crate::datetime::spec_parse_time;
use crate::datetime::Time;
use crate::Error;
use crate::Source;

verus! {

/// The method that produced a fix, a closed enumeration of the wire
/// quality codes.
#[derive(Clone, Copy, Debug, PartialEq, Eq)]
pub enum GPSQuality {
    /// Code 0: no fix available.
    NoFix,
    /// Code 1: autonomous GPS fix.
    GPS,
    /// Code 2: differential correction applied.
    DGPS,
    /// Code 3: precise positioning service.
    PPS,
    /// Code 4: fixed real-time kinematic.
    RTK,
    /// Code 5: float real-time kinematic.
    FloatRTK,
    /// Code 6: dead-reckoning estimate.
    Estimated,
    /// Code 7: manually entered position.
    Manual,
    /// Code 8: simulator output.
    Simulated,
}

/// The wire codes of [`GPSQuality`].
pub open spec fn quality_of(v: int) -> Option<GPSQuality> {
    if v == 0 {
        Some(GPSQuality::NoFix)
    } else if v == 1 {
        Some(GPSQuality::GPS)
    } else if v == 2 {
        Some(GPSQuality::DGPS)
    } else if v == 3 {
        Some(GPSQuality::PPS)
    } else if v == 4 {
        Some(GPSQuality::RTK)
    } else if v == 5 {
        Some(GPSQuality::FloatRTK)
    } else if v == 6 {
        Some(GPSQuality::Estimated)
    } else if v == 7 {
        Some(GPSQuality::Manual)
    } else if v == 8 {
        Some(GPSQuality::Simulated)
    } else {
        None
    }
}

/// A quality field: one of the closed codes, or absent.
pub open spec fn spec_parse_quality(s: Seq<u8>) -> Result<Option<GPSQuality>, Error> {
    match common::spec_parse_u8(s) {
        Err(e) => Err(e),
        Ok(None) => Ok(None),
        Ok(Some(v)) => match quality_of(v as int) {
            Some(q) => Ok(Some(q)),
            None => Err(Error::MalformedField),
        },
    }
}

/// Position fix with its quality metadata.
#[derive(Clone, Copy, Debug, PartialEq, Eq)]
pub struct GGA {
    /// Navigational system.
    pub source: Source,
    /// Time of the fix in UTC.
    pub time: Time,
    /// Latitude of the fix.
    pub latitude: coords::Latitude,
    /// Longitude of the fix.
    pub longitude: coords::Longitude,
    /// How the fix was produced.
    pub gps_quality: GPSQuality,
    /// Count of satellites used in the fix.
    pub sat_in_use: u8,
    /// Horizontal dilution of precision.
    pub hdop: Decimal,
    /// Antenna altitude above mean sea level; absent when not reported.
    pub altitude: Option<Altitude>,
    /// Geoidal separation in metres; absent when not reported.
    pub geoidal_separation: Option<Decimal>,
    /// Age of the differential correction in seconds, if differential.
    pub age_dgps: Option<Decimal>,
    /// Identifier of the differential reference station.
    pub dgps_station_id: Option<u16>,
}

/// The `GGA` schema: time, latitude pair, longitude pair, quality code,
/// satellites in use and HDOP are mandatory for a payload; altitude,
/// geoidal separation, correction age and station id are optional.  The
/// unit-letter fields are not interpreted.
pub open spec fn spec_parse_gga(source: Source, fs: Seq<Seq<u8>>) -> Result<Option<GGA>, Error> {
    match spec_parse_time(fld(fs, 0)) {
        Err(e) => Err(e),
        Ok(time) => match coords::spec_parse_latitude(fld(fs, 1), fld(fs, 2)) {
            Err(e) => Err(e),
            Ok(lat) => match coords::spec_parse_longitude(fld(fs, 3), fld(fs, 4)) {
                Err(e) => Err(e),
                Ok(lon) => match spec_parse_quality(fld(fs, 5)) {
                    Err(e) => Err(e),
                    Ok(quality) => match common::spec_parse_u8(fld(fs, 6)) {
                        Err(e) => Err(e),
                        Ok(sats) => match common::spec_parse_decimal(fld(fs, 7)) {
                            Err(e) => Err(e),
                            Ok(hdop) => match common::spec_parse_decimal(fld(fs, 8)) {
                                Err(e) => Err(e),
                                Ok(alt) => match common::spec_parse_decimal(fld(fs, 10)) {
                                    Err(e) => Err(e),
                                    Ok(sep) => match common::spec_parse_decimal(fld(fs, 12)) {
                                        Err(e) => Err(e),
                                        Ok(age) => match common::spec_parse_u16(fld(fs, 13)) {
                                            Err(e) => Err(e),
                                            Ok(station) => match (time, lat, lon, quality, sats, hdop) {
                                                (
                                                    Some(t),
                                                    Some(latitude),
                                                    Some(longitude),
                                                    Some(q),
                                                    Some(n),
                                                    Some(h),
                                                ) => Ok(
                                                    Some(
                                                        GGA {
                                                            source,
                                                            time: t,
                                                            latitude,
                                                            longitude,
                                                            gps_quality: q,
                                                            sat_in_use: n,
                                                            hdop: h,
                                                            altitude: match alt {
                                                                Some(a) => Some(
                                                                    Altitude { meters: a },
                                                                ),
                                                                None => None,
                                                            },
                                                            geoidal_separation: sep,
                                                            age_dgps: age,
                                                            dgps_station_id: station,
                                                        },
                                                    ),
                                                ),
                                                _ => Ok(None),
                                            },
                                        },
                                    },
                                },
                            },
                        },
                    },
                },
            },
        },
    }
}

impl GGA {
    /// Decodes the `GGA` field sequence.
    pub fn parse(source: Source, fields: &Vec<Vec<u8>>) -> (r: Result<Option<GGA>, Error>)
        ensures
            r == spec_parse_gga(source, fields_view(fields@)),
    {
        let time = match Time::parse_from_hhmmss(fields, 0) {
            Ok(v) => v,
            Err(e) => {
                return Err(e);
            },
        };
        let lat = match coords::parse_latitude(fields, 1, 2) {
            Ok(v) => v,
            Err(e) => {
                return Err(e);
            },
        };
        let lon = match coords::parse_longitude(fields, 3, 4) {
            Ok(v) => v,
            Err(e) => {
                return Err(e);
            },
        };
        let quality = match parse_quality_field(fields, 5) {
            Ok(v) => v,
            Err(e) => {
                return Err(e);
            },
        };
        let sats = match common::field_u8(fields, 6) {
            Ok(v) => v,
            Err(e) => {
                return Err(e);
            },
        };
        let hdop = match common::field_decimal(fields, 7) {
            Ok(v) => v,
            Err(e) => {
                return Err(e);
            },
        };
        let alt = match common::field_decimal(fields, 8) {
            Ok(v) => v,
            Err(e) => {
                return Err(e);
            },
        };
        let sep = match common::field_decimal(fields, 10) {
            Ok(v) => v,
            Err(e) => {
                return Err(e);
            },
        };
        let age = match common::field_decimal(fields, 12) {
            Ok(v) => v,
            Err(e) => {
                return Err(e);
            },
        };
        let station = match common::field_u16(fields, 13) {
            Ok(v) => v,
            Err(e) => {
                return Err(e);
            },
        };
        match (time, lat, lon, quality, sats, hdop) {
            (Some(t), Some(latitude), Some(longitude), Some(q), Some(n), Some(h)) => Ok(
                Some(
                    GGA {
                        source,
                        time: t,
                        latitude,
                        longitude,
                        gps_quality: q,
                        sat_in_use: n,
                        hdop: h,
                        altitude: match alt {
                            Some(a) => Some(Altitude { meters: a }),
                            None => None,
                        },
                        geoidal_separation: sep,
                        age_dgps: age,
                        dgps_station_id: station,
                    },
                ),
            ),
            _ => Ok(None),
        }
    }
}

/// Decodes the quality field at index `i`.
fn parse_quality_field(fields: &Vec<Vec<u8>>, i: usize) -> (r: Result<Option<GPSQuality>, Error>)
    ensures
        r == spec_parse_quality(fld(fields_view(fields@), i as int)),
{
    match common::field_u8(fields, i) {
        Err(e) => Err(e),
        Ok(None) => Ok(None),
        Ok(Some(v)) => {
            if v == 0 {
                Ok(Some(GPSQuality::NoFix))
            } else if v == 1 {
                Ok(Some(GPSQuality::GPS))
            } else if v == 2 {
                Ok(Some(GPSQuality::DGPS))
            } else if v == 3 {
                Ok(Some(GPSQuality::PPS))
            } else if v == 4 {
                Ok(Some(GPSQuality::RTK))
            } else if v == 5 {
                Ok(Some(GPSQuality::FloatRTK))
            } else if v == 6 {
                Ok(Some(GPSQuality::Estimated))
            } else if v == 7 {
                Ok(Some(GPSQuality::Manual))
            } else if v == 8 {
                Ok(Some(GPSQuality::Simulated))
            } else {
                Err(Error::MalformedField)
            }
        },
    }
}

} // verus!
