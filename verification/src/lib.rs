//! Streaming decoder for NMEA 0183 navigation sentences.
//!
//! Bytes are fed to a [`Parser`] one at a time or in chunks; the parser
//! frames sentences between `$` and the checksum trailer, validates the
//! XOR checksum, dispatches on the talker prefix and sentence type, and
//! decodes the comma-separated fields into typed records.

use vstd::prelude::*;

pub mod checksum;
pub mod common;
pub mod coords;
pub mod datetime;
pub mod gga;
pub mod gll;
pub mod gsa;
pub mod gsv;
pub mod pmtk;
pub mod parser;
pub mod rmc;
pub mod satellite;
pub mod vtg;
pub mod zda;

pub use gga::GGA;
pub use gga::GPSQuality;
pub use gll::GLL;
pub use gsa::FixType;
pub use gsa::GSA;
pub use gsv::GSV;
pub use parser::ParseResult;
pub use parser::Parser;
pub use rmc::RMC;
pub use pmtk::JammingStatus;
pub use pmtk::PMTKSPF;
pub use vtg::VTG;
pub use zda::ZDA;

verus! {

/// Why a physical sentence was rejected.  Every error is local to one
/// sentence: the parser always returns to its idle state afterwards.
#[derive(Clone, Copy, Debug, PartialEq, Eq)]
pub enum Error {
    /// An unterminated body exceeded the configured maximum length.
    SentenceTooLong,
    /// The body's XOR checksum does not match the declared hex value.
    ChecksumMismatch,
    /// The two-character talker prefix is not a recognized source.
    UnsupportedSource,
    /// The three-character sentence type has no decoder.
    UnsupportedSentenceType,
    /// A protocol-mandatory field held unparseable text.
    MalformedField,
}

impl Error {
    /// A human-readable description of the error.
    pub fn message(&self) -> (r: &'static str)
        ensures
            r@ == self.message_spec(),
    {
        match self {
            Error::SentenceTooLong => "NMEA sentence is too long!",
            Error::ChecksumMismatch => "Checksum mismatch!",
            Error::UnsupportedSource => "Source is not supported!",
            Error::UnsupportedSentenceType => "Unsupported sentence type.",
            Error::MalformedField => "Malformed field!",
        }
    }

    pub open spec fn message_spec(self) -> Seq<char> {
        match self {
            Error::SentenceTooLong => "NMEA sentence is too long!"@,
            Error::ChecksumMismatch => "Checksum mismatch!"@,
            Error::UnsupportedSource => "Source is not supported!"@,
            Error::UnsupportedSentenceType => "Unsupported sentence type."@,
            Error::MalformedField => "Malformed field!"@,
        }
    }
}

/// The navigational system that transmitted a sentence, derived from the
/// talker prefix.
#[derive(Clone, Copy, Debug, PartialEq, Eq, Structural)]
pub enum Source {
    /// `GP`: United States GPS.
    GPS,
    /// `GL`: Russian GLONASS.
    GLONASS,
    /// `GA`: European Galileo.
    Galileo,
    /// `BD`: Chinese BeiDou.
    Beidou,
    /// `GN`: combined multi-constellation solution.
    GNSS,
    /// `PMTK`: MediaTek vendor sentences.
    MTK,
}

/// The two-character talker prefix lookup; `PMTK` is handled separately by
/// the dispatcher because vendor prefixes are four characters long.
pub open spec fn source_of(a: u8, b: u8) -> Option<Source> {
    if a == common::LET_G && b == common::LET_P {
        Some(Source::GPS)
    } else if a == common::LET_G && b == common::LET_L {
        Some(Source::GLONASS)
    } else if a == common::LET_G && b == common::LET_A {
        Some(Source::Galileo)
    } else if a == common::LET_G && b == common::LET_N {
        Some(Source::GNSS)
    } else if a == common::LET_B && b == common::LET_D {
        Some(Source::Beidou)
    } else {
        None
    }
}

/// Looks up the talker prefix `ab`.
pub fn lookup_source(a: u8, b: u8) -> (r: Option<Source>)
    ensures
        r == source_of(a, b),
{
    if a == common::LET_G && b == common::LET_P {
        Some(Source::GPS)
    } else if a == common::LET_G && b == common::LET_L {
        Some(Source::GLONASS)
    } else if a == common::LET_G && b == common::LET_A {
        Some(Source::Galileo)
    } else if a == common::LET_G && b == common::LET_N {
        Some(Source::GNSS)
    } else if a == common::LET_B && b == common::LET_D {
        Some(Source::Beidou)
    } else {
        None
    }
}

/// The positioning-mode indicator carried by several sentence types.
#[derive(Clone, Copy, Debug, PartialEq, Eq, Structural)]
pub enum Mode {
    /// `A`: autonomous satellite solution.
    Autonomous,
    /// `D`: differential correction applied.
    Differential,
    /// `E`: dead-reckoning estimate.
    Estimated,
    /// `M`: manually entered position.
    Manual,
    /// `N`: data not valid.
    NotValid,
}

/// The single-letter mode codes.
pub open spec fn mode_of(c: u8) -> Option<Mode> {
    if c == common::LET_A {
        Some(Mode::Autonomous)
    } else if c == common::LET_D {
        Some(Mode::Differential)
    } else if c == common::LET_E {
        Some(Mode::Estimated)
    } else if c == common::LET_M {
        Some(Mode::Manual)
    } else if c == common::LET_N {
        Some(Mode::NotValid)
    } else {
        None
    }
}

/// A mode field: absent means autonomous (older sentences omit the field),
/// a single recognized letter maps through [`mode_of`], anything else is a
/// malformed field.
pub open spec fn spec_parse_mode(s: Seq<u8>) -> Result<Mode, Error> {
    if s.len() == 0 {
        Ok(Mode::Autonomous)
    } else if s.len() == 1 {
        match mode_of(s[0]) {
            Some(m) => Ok(m),
            None => Err(Error::MalformedField),
        }
    } else {
        Err(Error::MalformedField)
    }
}

/// Decodes the mode field at index `i`, treating a missing field as absent.
pub fn parse_mode_field(fields: &Vec<Vec<u8>>, i: usize) -> (r: Result<Mode, Error>)
    ensures
        r == spec_parse_mode(common::fld(common::fields_view(fields@), i as int)),
{
    if i < fields.len() && fields[i].len() > 0 {
        let f = &fields[i];
        if f.len() == 1 {
            match lookup_mode(f[0]) {
                Some(m) => Ok(m),
                None => Err(Error::MalformedField),
            }
        } else {
            Err(Error::MalformedField)
        }
    } else {
        Ok(Mode::Autonomous)
    }
}

/// A receiver-status field: `A` marks a valid fix, `V` a void one; empty
/// means absent.
pub open spec fn spec_parse_status(s: Seq<u8>) -> Result<Option<bool>, Error> {
    if s.len() == 0 {
        Ok(None)
    } else if s.len() == 1 && s[0] == common::LET_A {
        Ok(Some(true))
    } else if s.len() == 1 && s[0] == common::LET_V {
        Ok(Some(false))
    } else {
        Err(Error::MalformedField)
    }
}

/// Decodes the status field at index `i`: `Some(true)` for a valid fix.
pub fn parse_status_field(fields: &Vec<Vec<u8>>, i: usize) -> (r: Result<Option<bool>, Error>)
    ensures
        r == spec_parse_status(common::fld(common::fields_view(fields@), i as int)),
{
    if i < fields.len() && fields[i].len() > 0 {
        let f = &fields[i];
        if f.len() == 1 && f[0] == common::LET_A {
            Ok(Some(true))
        } else if f.len() == 1 && f[0] == common::LET_V {
            Ok(Some(false))
        } else {
            Err(Error::MalformedField)
        }
    } else {
        Ok(None)
    }
}

/// Looks up a single mode letter.
pub fn lookup_mode(c: u8) -> (r: Option<Mode>)
    ensures
        r == mode_of(c),
{
    if c == common::LET_A {
        Some(Mode::Autonomous)
    } else if c == common::LET_D {
        Some(Mode::Differential)
    } else if c == common::LET_E {
        Some(Mode::Estimated)
    } else if c == common::LET_M {
        Some(Mode::Manual)
    } else if c == common::LET_N {
        Some(Mode::NotValid)
    } else {
        None
    }
}

} // verus!
