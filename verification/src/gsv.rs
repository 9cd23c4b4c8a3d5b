//! `GSV`: satellites in view, a multi-message sequence.
//!
//! One logical report is split over `total_messages_number` physical
//! sentences, each carrying at most four satellites.  The parser
//! accumulates the sequence keyed by source and total-message count: a
//! record exposes the satellites reported so far, unpadded, and a message
//! number restarting at one (or any break in the sequence) resets the
//! accumulation.

use vstd::prelude::*;

use crate::common;
use crate::common::fld;
use crate::common::fields_view;
use crate::satellite::Satellite;
use crate::Error;
use crate::Source;

verus! {

/// Satellites in view, as accumulated up to one physical sentence.
#[derive(Clone, Debug, PartialEq, Eq)]
pub struct GSV {
    /// Navigational system.
    pub source: Source,
    /// Count of physical sentences in this report.
    pub total_messages_number: u8,
    /// One-based index of this sentence in the report.
    pub message_number: u8,
    /// Count of satellites in view as declared by the sentence.
    pub sat_in_view: u16,
    /// The satellites reported by the sequence so far, unpadded.
    pub satellites: Vec<Satellite>,
}

/// The mathematical view of a [`GSV`] record.
pub struct GsvModel {
    /// Navigational system.
    pub source: Source,
    /// Count of physical sentences in this report.
    pub total_messages_number: u8,
    /// One-based index of this sentence in the report.
    pub message_number: u8,
    /// Count of satellites in view as declared by the sentence.
    pub sat_in_view: u16,
    /// The satellites reported by the sequence so far, in wire order.
    pub satellites: Seq<Satellite>,
}

impl View for GSV {
    type V = GsvModel;

    open spec fn view(&self) -> GsvModel {
        GsvModel {
            source: self.source,
            total_messages_number: self.total_messages_number,
            message_number: self.message_number,
            sat_in_view: self.sat_in_view,
            satellites: self.satellites@,
        }
    }
}

impl GSV {
    /// The satellites reported so far in this report's sequence.
    pub fn get_in_view_satellites(&self) -> (r: Vec<Satellite>)
        ensures
            r@ == self@.satellites,
    {
        let mut out: Vec<Satellite> = Vec::new();
        let n = self.satellites.len();
        let mut i: usize = 0;
        while i < n
            invariant
                0 <= i <= n,
                n == self.satellites@.len(),
                out@ == self.satellites@.subrange(0, i as int),
            decreases n - i,
        {
            out.push(self.satellites[i]);
            proof {
                assert(out@ =~= self.satellites@.subrange(0, i + 1));
            }
            i = i + 1;
        }
        proof {
            assert(self.satellites@.subrange(0, n as int) =~= self.satellites@);
        }
        out
    }
}

/// One four-field satellite group: PRN, elevation and azimuth together
/// give a satellite (signal level optional); an all-empty group is
/// skipped; a partially filled group is malformed.
pub open spec fn spec_parse_group(fs: Seq<Seq<u8>>, base: int) -> Result<Option<Satellite>, Error> {
    match common::spec_parse_u16(fld(fs, base)) {
        Err(e) => Err(e),
        Ok(prn) => match common::spec_parse_i16(fld(fs, base + 1)) {
            Err(e) => Err(e),
            Ok(elev) => match common::spec_parse_u16(fld(fs, base + 2)) {
                Err(e) => Err(e),
                Ok(azi) => match common::spec_parse_u16(fld(fs, base + 3)) {
                    Err(e) => Err(e),
                    Ok(snr) => match (prn, elev, azi) {
                        (Some(p), Some(e2), Some(a)) => Ok(
                            Some(Satellite { prn: p, elevation: e2, azimuth: a, snr }),
                        ),
                        (None, None, None) => {
                            if snr is None {
                                Ok(None)
                            } else {
                                Err(Error::MalformedField)
                            }
                        },
                        _ => Err(Error::MalformedField),
                    },
                },
            },
        },
    }
}

/// The satellites of the complete four-field groups from group `g` on.
pub open spec fn spec_gsv_sats(fs: Seq<Seq<u8>>, g: int) -> Result<Seq<Satellite>, Error>
    decreases 4 - g,
{
    if g >= 4 || fs.len() < 3 + (g + 1) * 4 {
        Ok(Seq::<Satellite>::empty())
    } else {
        match spec_parse_group(fs, 3 + g * 4) {
            Err(e) => Err(e),
            Ok(None) => spec_gsv_sats(fs, g + 1),
            Ok(Some(sat)) => match spec_gsv_sats(fs, g + 1) {
                Err(e) => Err(e),
                Ok(rest) => Ok(seq![sat] + rest),
            },
        }
    }
}

/// One physical `GSV` sentence before accumulation.
pub struct GsvMsg {
    /// Count of physical sentences in the report.
    pub total: u8,
    /// One-based index of this sentence.
    pub num: u8,
    /// Declared count of satellites in view.
    pub siv: u16,
    /// The satellites this sentence carries, at most four.
    pub sats: Seq<Satellite>,
}

/// The `GSV` schema of one physical sentence: total message count, message
/// number and satellites-in-view count are mandatory for a payload; then
/// up to four satellite groups.
pub open spec fn spec_parse_gsv_msg(fs: Seq<Seq<u8>>) -> Result<Option<GsvMsg>, Error> {
    match common::spec_parse_u8(fld(fs, 0)) {
        Err(e) => Err(e),
        Ok(total) => match common::spec_parse_u8(fld(fs, 1)) {
            Err(e) => Err(e),
            Ok(num) => match common::spec_parse_u16(fld(fs, 2)) {
                Err(e) => Err(e),
                Ok(siv) => match spec_gsv_sats(fs, 0) {
                    Err(e) => Err(e),
                    Ok(sats) => match (total, num, siv) {
                        (Some(t), Some(m), Some(s)) => Ok(
                            Some(GsvMsg { total: t, num: m, siv: s, sats }),
                        ),
                        _ => Ok(None),
                    },
                },
            },
        },
    }
}

/// The accumulation state of one satellites-in-view sequence.
pub struct GsvAccModel {
    /// The source whose sequence is being accumulated.
    pub source: Source,
    /// The sequence key: its declared total message count.
    pub total: u8,
    /// The last message number folded in.
    pub last_msg: u8,
    /// The satellites gathered so far.
    pub sats: Seq<Satellite>,
}

/// Folds one physical sentence into the accumulation state: the sentence
/// continues the sequence when the source and total match and its number
/// is the successor of the last one (and not a restart at one); otherwise
/// it starts a fresh sequence.  A completed sequence clears the state.
pub open spec fn gsv_accumulate(src: Source, m: GsvMsg, acc: Option<GsvAccModel>) -> (
    Seq<Satellite>,
    Option<GsvAccModel>,
) {
    let all = match acc {
        Some(a) => {
            if a.source == src && a.total == m.total && m.num == a.last_msg + 1 && m.num != 1 {
                a.sats + m.sats
            } else {
                m.sats
            }
        },
        None => m.sats,
    };
    let nxt = if m.num >= m.total {
        None::<GsvAccModel>
    } else {
        Some(GsvAccModel { source: src, total: m.total, last_msg: m.num, sats: all })
    };
    (all, nxt)
}

/// Decoding one `GSV` sentence against the accumulation state: the
/// decoded record (on a payload) carries the satellites accumulated so
/// far, and the state advances as [`gsv_accumulate`] says.
pub open spec fn spec_parse_gsv(source: Source, fs: Seq<Seq<u8>>, acc: Option<GsvAccModel>) -> (
    Result<Option<GsvModel>, Error>,
    Option<GsvAccModel>,
) {
    match spec_parse_gsv_msg(fs) {
        Err(e) => (Err(e), acc),
        Ok(None) => (Ok(None), acc),
        Ok(Some(m)) => {
            let folded = gsv_accumulate(source, m, acc);
            (
                Ok(
                    Some(
                        GsvModel {
                            source,
                            total_messages_number: m.total,
                            message_number: m.num,
                            sat_in_view: m.siv,
                            satellites: folded.0,
                        },
                    ),
                ),
                folded.1,
            )
        },
    }
}

/// Decodes the fields of one physical `GSV` sentence.
pub fn parse_gsv_msg(fields: &Vec<Vec<u8>>) -> (r: Result<Option<(u8, u8, u16, Vec<Satellite>)>, Error>)
    ensures
        match (r, spec_parse_gsv_msg(fields_view(fields@))) {
            (Ok(Some((t, n, s, v))), Ok(Some(m))) => t == m.total && n == m.num && s == m.siv && v@
                == m.sats,
            (Ok(None), Ok(None)) => true,
            (Err(e1), Err(e2)) => e1 == e2,
            _ => false,
        },
{
    let ghost fs: Seq<Seq<u8>> = fields_view(fields@);
    let total = match common::field_u8(fields, 0) {
        Ok(v) => v,
        Err(e) => {
            return Err(e);
        },
    };
    let num = match common::field_u8(fields, 1) {
        Ok(v) => v,
        Err(e) => {
            return Err(e);
        },
    };
    let siv = match common::field_u16(fields, 2) {
        Ok(v) => v,
        Err(e) => {
            return Err(e);
        },
    };
    let mut sats: Vec<Satellite> = Vec::new();
    let mut g: usize = 0;
    while g < 4 && fields.len() >= 3 + (g + 1) * 4
        invariant
            0 <= g <= 4,
            fs == fields_view(fields@),
            fs.len() == fields@.len(),
            spec_gsv_sats(fs, 0) == match spec_gsv_sats(fs, g as int) {
                Ok(rest) => Ok::<Seq<Satellite>, Error>(sats@ + rest),
                Err(e) => Err::<Seq<Satellite>, Error>(e),
            },
        decreases 4 - g,
    {
        let base = 3 + g * 4;
        let prn = match common::field_u16(fields, base) {
            Ok(v) => v,
            Err(e) => {
                return Err(e);
            },
        };
        let elev = match common::field_i16(fields, base + 1) {
            Ok(v) => v,
            Err(e) => {
                return Err(e);
            },
        };
        let azi = match common::field_u16(fields, base + 2) {
            Ok(v) => v,
            Err(e) => {
                return Err(e);
            },
        };
        let snr = match common::field_u16(fields, base + 3) {
            Ok(v) => v,
            Err(e) => {
                return Err(e);
            },
        };
        proof {
            assert(spec_parse_group(fs, 3 + (g as int) * 4) == spec_parse_group(
                fs,
                base as int,
            ));
        }
        match (prn, elev, azi) {
            (Some(p), Some(e2), Some(a)) => {
                let sat = Satellite { prn: p, elevation: e2, azimuth: a, snr };
                let ghost olds: Seq<Satellite> = sats@;
                sats.push(sat);
                proof {
                    assert(sats@ == olds.push(sat));
                    match spec_gsv_sats(fs, g + 1) {
                        Ok(rest) => {
                            assert(spec_gsv_sats(fs, g as int) == Ok::<Seq<Satellite>, Error>(
                                seq![sat] + rest,
                            ));
                            assert(olds + (seq![sat] + rest) =~= sats@ + rest);
                        },
                        Err(e) => {
                            assert(spec_gsv_sats(fs, g as int) == Err::<Seq<Satellite>, Error>(e));
                        },
                    }
                }
            },
            (None, None, None) => {
                if matches!(snr, Some(_)) {
                    return Err(Error::MalformedField);
                }
                proof {
                    assert(spec_gsv_sats(fs, g as int) == spec_gsv_sats(fs, g + 1));
                }
            },
            _ => {
                return Err(Error::MalformedField);
            },
        }
        g = g + 1;
    }
    proof {
        assert(spec_gsv_sats(fs, g as int) == Ok::<Seq<Satellite>, Error>(
            Seq::<Satellite>::empty(),
        ));
        assert(sats@ + Seq::<Satellite>::empty() =~= sats@);
    }
    match (total, num, siv) {
        (Some(t), Some(m), Some(s)) => Ok(Some((t, m, s, sats))),
        _ => Ok(None),
    }
}

} // verus!
