//! `PMTK` vendor sentences: the `SPF` jamming-status report.

use vstd::prelude::*;

use crate::common;
use crate::common::fld;
use crate::common::fields_view;
use crate::Error;
use crate::Source;

verus! {

/// The receiver's jamming assessment, a closed enumeration of the wire
/// codes; an unrecognized code is a decode failure, never a default.
#[derive(Clone, Copy, Debug, PartialEq, Eq)]
pub enum JammingStatus {
    /// Code 1: no interference seen.
    Normal,
    /// Code 2: interference suspected.
    Warning,
    /// Code 3: interference confirmed.
    Critical,
}

/// The jamming-status report of the `PMTK` `SPF` sentence.
#[derive(Clone, Copy, Debug, PartialEq, Eq)]
pub struct PMTKSPF {
    /// Navigational system (always the vendor source).
    pub source: Source,
    /// Decoded jamming status.
    pub jamming_status: JammingStatus,
}

/// The wire codes of [`JammingStatus`].
pub open spec fn jamming_of(v: int) -> Option<JammingStatus> {
    if v == 1 {
        Some(JammingStatus::Normal)
    } else if v == 2 {
        Some(JammingStatus::Warning)
    } else if v == 3 {
        Some(JammingStatus::Critical)
    } else {
        None
    }
}

/// The `SPF` schema: one numeric status code, mapped through a closed
/// enumeration; an absent code means "recognized, no payload".
pub open spec fn spec_parse_spf(source: Source, fs: Seq<Seq<u8>>) -> Result<
    Option<PMTKSPF>,
    Error,
> {
    match common::spec_parse_u8(fld(fs, 0)) {
        Err(e) => Err(e),
        Ok(None) => Ok(None),
        Ok(Some(v)) => match jamming_of(v as int) {
            Some(j) => Ok(Some(PMTKSPF { source, jamming_status: j })),
            None => Err(Error::MalformedField),
        },
    }
}

impl PMTKSPF {
    /// Decodes the `SPF` field sequence.
    pub fn parse(source: Source, fields: &Vec<Vec<u8>>) -> (r: Result<Option<PMTKSPF>, Error>)
        ensures
            r == spec_parse_spf(source, fields_view(fields@)),
    {
        match common::field_u8(fields, 0) {
            Err(e) => Err(e),
            Ok(None) => Ok(None),
            Ok(Some(v)) => {
                if v == 1 {
                    Ok(Some(PMTKSPF { source, jamming_status: JammingStatus::Normal }))
                } else if v == 2 {
                    Ok(Some(PMTKSPF { source, jamming_status: JammingStatus::Warning }))
                } else if v == 3 {
                    Ok(Some(PMTKSPF { source, jamming_status: JammingStatus::Critical }))
                } else {
                    Err(Error::MalformedField)
                }
            },
        }
    }
}

} // verus!
