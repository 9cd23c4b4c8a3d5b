//! `VTG`: track made good and ground speed.

use vstd::prelude::*;

use crate::common;
use crate::common::fld;
use crate::common::fields_view;
use crate::coords::Course;
use crate::coords::Speed;
use crate::Error;
use crate::Mode;
use crate::Source;

verus! {

/// Course over ground and speed, with true and magnetic course kept as two
/// independent optional attributes.
#[derive(Clone, Copy, Debug, PartialEq, Eq)]
pub struct VTG {
    /// Navigational system.
    pub source: Source,
    /// Course over ground, degrees true.
    pub course: Option<Course>,
    /// Course over ground, degrees magnetic.
    pub magnetic: Option<Course>,
    /// Ground speed.
    pub speed: Speed,
    /// Positioning mode.
    pub mode: Mode,
}

/// The `VTG` schema: true course, magnetic course and knots speed, each
/// optional on the wire, with unit letters between them; the sentence has
/// a payload only when the speed is present.
pub open spec fn spec_parse_vtg(source: Source, fs: Seq<Seq<u8>>) -> Result<Option<VTG>, Error> {
    match common::spec_parse_decimal(fld(fs, 0)) {
        Err(e) => Err(e),
        Ok(course) => match common::spec_parse_decimal(fld(fs, 2)) {
            Err(e) => Err(e),
            Ok(magnetic) => match common::spec_parse_decimal(fld(fs, 4)) {
                Err(e) => Err(e),
                Ok(speed) => match crate::spec_parse_mode(fld(fs, 8)) {
                    Err(e) => Err(e),
                    Ok(mode) => match speed {
                        Some(kn) => Ok(
                            Some(
                                VTG {
                                    source,
                                    course: match course {
                                        Some(c) => Some(Course { degrees: c }),
                                        None => None,
                                    },
                                    magnetic: match magnetic {
                                        Some(c) => Some(Course { degrees: c }),
                                        None => None,
                                    },
                                    speed: Speed { knots: kn },
                                    mode,
                                },
                            ),
                        ),
                        None => Ok(None),
                    },
                },
            },
        },
    }
}

impl VTG {
    /// Decodes the `VTG` field sequence.
    pub fn parse(source: Source, fields: &Vec<Vec<u8>>) -> (r: Result<Option<VTG>, Error>)
        ensures
            r == spec_parse_vtg(source, fields_view(fields@)),
    {
        let course = match common::field_decimal(fields, 0) {
            Ok(v) => v,
            Err(e) => {
                return Err(e);
            },
        };
        let magnetic = match common::field_decimal(fields, 2) {
            Ok(v) => v,
            Err(e) => {
                return Err(e);
            },
        };
        let speed = match common::field_decimal(fields, 4) {
            Ok(v) => v,
            Err(e) => {
                return Err(e);
            },
        };
        let mode = match crate::parse_mode_field(fields, 8) {
            Ok(v) => v,
            Err(e) => {
                return Err(e);
            },
        };
        match speed {
            Some(kn) => Ok(
                Some(
                    VTG {
                        source,
                        course: match course {
                            Some(c) => Some(Course { degrees: c }),
                            None => None,
                        },
                        magnetic: match magnetic {
                            Some(c) => Some(Course { degrees: c }),
                            None => None,
                        },
                        speed: Speed { knots: kn },
                        mode,
                    },
                ),
            ),
            None => Ok(None),
        }
    }
}

} // verus!
