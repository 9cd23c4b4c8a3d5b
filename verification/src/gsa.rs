//! `GSA`: the active satellite selection and dilution-of-precision values.

use vstd::prelude::*;

use crate::common;
use crate::common::fld;
use crate::common::fields_view;
use crate::common::Decimal;
use crate::Error;
use crate::Mode;
use crate::mode_of;
use crate::Source;

verus! {

/// The dimensionality of a fix, a closed enumeration of the wire codes.
#[derive(Clone, Copy, Debug, PartialEq, Eq)]
pub enum FixType {
    /// Code 1: no fix available.
    NoFix,
    /// Code 2: two-dimensional fix.
    Fix2D,
    /// Code 3: three-dimensional fix.
    Fix3D,
}

/// The wire codes of [`FixType`].
pub open spec fn fix_type_of(v: int) -> Option<FixType> {
    if v == 1 {
        Some(FixType::NoFix)
    } else if v == 2 {
        Some(FixType::Fix2D)
    } else if v == 3 {
        Some(FixType::Fix3D)
    } else {
        None
    }
}

/// The satellites actively used for the fix, with the precision metrics.
#[derive(Clone, Debug, PartialEq, Eq)]
pub struct GSA {
    /// Navigational system.
    pub source: Source,
    /// Selection mode (automatic or manual).
    pub mode: Mode,
    /// Fix dimensionality.
    pub fix_type: FixType,
    /// PRNs of the satellites contributing to the fix, empty slots skipped.
    pub prns: Vec<u16>,
    /// Positional dilution of precision.
    pub pdop: Decimal,
    /// Horizontal dilution of precision.
    pub hdop: Decimal,
    /// Vertical dilution of precision.
    pub vdop: Decimal,
}

/// The mathematical view of a [`GSA`] record.
pub struct GsaModel {
    /// Navigational system.
    pub source: Source,
    /// Selection mode.
    pub mode: Mode,
    /// Fix dimensionality.
    pub fix_type: FixType,
    /// PRNs actively used, in wire order.
    pub prns: Seq<u16>,
    /// Positional dilution of precision.
    pub pdop: Decimal,
    /// Horizontal dilution of precision.
    pub hdop: Decimal,
    /// Vertical dilution of precision.
    pub vdop: Decimal,
}

impl View for GSA {
    type V = GsaModel;

    open spec fn view(&self) -> GsaModel {
        GsaModel {
            source: self.source,
            mode: self.mode,
            fix_type: self.fix_type,
            prns: self.prns@,
            pdop: self.pdop,
            hdop: self.hdop,
            vdop: self.vdop,
        }
    }
}

impl GSA {
    /// The PRNs of the satellites actively contributing to the fix.
    pub fn get_fix_satellites_prn(&self) -> (r: Vec<u16>)
        ensures
            r@ == self@.prns,
    {
        let mut out: Vec<u16> = Vec::new();
        let n = self.prns.len();
        let mut i: usize = 0;
        while i < n
            invariant
                0 <= i <= n,
                n == self.prns@.len(),
                out@ == self.prns@.subrange(0, i as int),
            decreases n - i,
        {
            out.push(self.prns[i]);
            proof {
                assert(out@ =~= self.prns@.subrange(0, i + 1));
            }
            i = i + 1;
        }
        proof {
            assert(self.prns@.subrange(0, n as int) =~= self.prns@);
        }
        out
    }
}

/// A selection-mode field: `A` (automatic) or `M` (manual); empty means
/// absent.
pub open spec fn spec_parse_sel_mode(s: Seq<u8>) -> Result<Option<Mode>, Error> {
    if s.len() == 0 {
        Ok(None)
    } else if s.len() == 1 {
        match mode_of(s[0]) {
            Some(m) => Ok(Some(m)),
            None => Err(Error::MalformedField),
        }
    } else {
        Err(Error::MalformedField)
    }
}

/// A fix-type field: one of the closed codes; empty means absent.
pub open spec fn spec_parse_fix_type(s: Seq<u8>) -> Result<Option<FixType>, Error> {
    match common::spec_parse_u8(s) {
        Err(e) => Err(e),
        Ok(None) => Ok(None),
        Ok(Some(v)) => match fix_type_of(v as int) {
            Some(t) => Ok(Some(t)),
            None => Err(Error::MalformedField),
        },
    }
}

/// The PRNs of the twelve selection slots from field `i` up to field 13,
/// skipping empty slots.
pub open spec fn spec_gsa_prns(fs: Seq<Seq<u8>>, i: int) -> Result<Seq<u16>, Error>
    decreases 14 - i,
{
    if i >= 14 {
        Ok(Seq::<u16>::empty())
    } else {
        match common::spec_parse_u16(fld(fs, i)) {
            Err(e) => Err(e),
            Ok(None) => spec_gsa_prns(fs, i + 1),
            Ok(Some(v)) => match spec_gsa_prns(fs, i + 1) {
                Err(e) => Err(e),
                Ok(rest) => Ok(seq![v] + rest),
            },
        }
    }
}

/// The `GSA` schema: selection mode, fix type, twelve PRN slots and the
/// three dilution metrics; mode, fix type and the metrics are mandatory
/// for a payload.
pub open spec fn spec_parse_gsa(source: Source, fs: Seq<Seq<u8>>) -> Result<Option<GsaModel>, Error> {
    match spec_parse_sel_mode(fld(fs, 0)) {
        Err(e) => Err(e),
        Ok(mode) => match spec_parse_fix_type(fld(fs, 1)) {
            Err(e) => Err(e),
            Ok(fix) => match spec_gsa_prns(fs, 2) {
                Err(e) => Err(e),
                Ok(prns) => match common::spec_parse_decimal(fld(fs, 14)) {
                    Err(e) => Err(e),
                    Ok(pdop) => match common::spec_parse_decimal(fld(fs, 15)) {
                        Err(e) => Err(e),
                        Ok(hdop) => match common::spec_parse_decimal(fld(fs, 16)) {
                            Err(e) => Err(e),
                            Ok(vdop) => match (mode, fix, pdop, hdop, vdop) {
                                (Some(m), Some(t), Some(p), Some(h), Some(v)) => Ok(
                                    Some(
                                        GsaModel {
                                            source,
                                            mode: m,
                                            fix_type: t,
                                            prns,
                                            pdop: p,
                                            hdop: h,
                                            vdop: v,
                                        },
                                    ),
                                ),
                                _ => Ok(None),
                            },
                        },
                    },
                },
            },
        },
    }
}

impl GSA {
    /// Decodes the `GSA` field sequence.
    pub fn parse(source: Source, fields: &Vec<Vec<u8>>) -> (r: Result<Option<GSA>, Error>)
        ensures
            match (r, spec_parse_gsa(source, fields_view(fields@))) {
                (Ok(Some(g)), Ok(Some(m))) => g@ == m,
                (Ok(None), Ok(None)) => true,
                (Err(e1), Err(e2)) => e1 == e2,
                _ => false,
            },
    {
        let ghost fs: Seq<Seq<u8>> = fields_view(fields@);
        let mode = match parse_sel_mode_field(fields, 0) {
            Ok(v) => v,
            Err(e) => {
                return Err(e);
            },
        };
        let fix = match parse_fix_type_field(fields, 1) {
            Ok(v) => v,
            Err(e) => {
                return Err(e);
            },
        };
        let mut prns: Vec<u16> = Vec::new();
        let mut i: usize = 2;
        while i < 14
            invariant
                2 <= i <= 14,
                fs == fields_view(fields@),
                spec_gsa_prns(fs, 2) == match spec_gsa_prns(fs, i as int) {
                    Ok(rest) => Ok::<Seq<u16>, Error>(prns@ + rest),
                    Err(e) => Err::<Seq<u16>, Error>(e),
                },
            decreases 14 - i,
        {
            match common::field_u16(fields, i) {
                Err(e) => {
                    return Err(e);
                },
                Ok(None) => {
                    proof {
                        assert(spec_gsa_prns(fs, i as int) == spec_gsa_prns(fs, i + 1));
                    }
                },
                Ok(Some(v)) => {
                    let ghost oldp: Seq<u16> = prns@;
                    prns.push(v);
                    proof {
                        assert(prns@ == oldp.push(v));
                        match spec_gsa_prns(fs, i + 1) {
                            Ok(rest) => {
                                assert(spec_gsa_prns(fs, i as int) == Ok::<Seq<u16>, Error>(
                                    seq![v] + rest,
                                ));
                                assert(oldp + (seq![v] + rest) =~= prns@ + rest);
                            },
                            Err(e) => {
                                assert(spec_gsa_prns(fs, i as int) == Err::<Seq<u16>, Error>(e));
                            },
                        }
                    }
                },
            }
            i = i + 1;
        }
        proof {
            assert(prns@ + Seq::<u16>::empty() =~= prns@);
            assert(spec_gsa_prns(fs, 2) == Ok::<Seq<u16>, Error>(prns@));
        }
        let pdop = match common::field_decimal(fields, 14) {
            Ok(v) => v,
            Err(e) => {
                return Err(e);
            },
        };
        let hdop = match common::field_decimal(fields, 15) {
            Ok(v) => v,
            Err(e) => {
                return Err(e);
            },
        };
        let vdop = match common::field_decimal(fields, 16) {
            Ok(v) => v,
            Err(e) => {
                return Err(e);
            },
        };
        match (mode, fix, pdop, hdop, vdop) {
            (Some(m), Some(t), Some(p), Some(h), Some(v)) => Ok(
                Some(GSA { source, mode: m, fix_type: t, prns, pdop: p, hdop: h, vdop: v }),
            ),
            _ => Ok(None),
        }
    }
}

/// Decodes the selection-mode field at index `i`.
fn parse_sel_mode_field(fields: &Vec<Vec<u8>>, i: usize) -> (r: Result<Option<Mode>, Error>)
    ensures
        r == spec_parse_sel_mode(fld(fields_view(fields@), i as int)),
{
    if i < fields.len() && fields[i].len() > 0 {
        let f = &fields[i];
        if f.len() == 1 {
            match crate::lookup_mode(f[0]) {
                Some(m) => Ok(Some(m)),
                None => Err(Error::MalformedField),
            }
        } else {
            Err(Error::MalformedField)
        }
    } else {
        Ok(None)
    }
}

/// Decodes the fix-type field at index `i`.
fn parse_fix_type_field(fields: &Vec<Vec<u8>>, i: usize) -> (r: Result<Option<FixType>, Error>)
    ensures
        r == spec_parse_fix_type(fld(fields_view(fields@), i as int)),
{
    match common::field_u8(fields, i) {
        Err(e) => Err(e),
        Ok(None) => Ok(None),
        Ok(Some(v)) => {
            if v == 1 {
                Ok(Some(FixType::NoFix))
            } else if v == 2 {
                Ok(Some(FixType::Fix2D))
            } else if v == 3 {
                Ok(Some(FixType::Fix3D))
            } else {
                Err(Error::MalformedField)
            }
        },
    }
}

} // verus!
