//! Wire time (`hhmmss.sss`) and date (`ddmmyy`) decoding.
//!
//! Two-digit years are expanded by a fixed pivot: `00`–`69` mean the 2000s,
//! `70`–`99` mean the 1900s.  Calendar validity of a date is not enforced:
//! day and month pass through typed but uninterpreted.

use vstd::prelude::*;

use crate::common;
use crate::common::all_digits;
use crate::common::dec_make;
use crate::common::digits_val;
use crate::common::fld;
use crate::common::fields_view;
use crate::common::is_digit;
use crate::common::Decimal;
use crate::common::DOT;
use crate::Error;

verus! {

/// A UTC time of day; seconds keep the transmitted fractional precision.
#[derive(Clone, Copy, Debug, PartialEq, Eq)]
pub struct Time {
    /// Hours, `0..=23`.
    pub hours: u8,
    /// Minutes, `0..=59`.
    pub minutes: u8,
    /// Seconds, `0 <= s < 61` (a leap second reads `60.x`).
    pub seconds: Decimal,
}

/// A calendar date.
#[derive(Clone, Copy, Debug, PartialEq, Eq)]
pub struct Date {
    /// Day of month as transmitted.
    pub day: u8,
    /// Month as transmitted.
    pub month: u8,
    /// Full four-digit year.
    pub year: u16,
}

/// A date and a time of day taken from one sentence.
#[derive(Clone, Copy, Debug, PartialEq, Eq)]
pub struct DateTime {
    /// The date part.
    pub date: Date,
    /// The time part.
    pub time: Time,
}

/// A `hhmmss[.sss]` field: six digits, then an optional fraction of at
/// most twelve digits; hours at most 23, minutes at most 59, whole seconds
/// at most 60.  Empty means absent.
pub open spec fn spec_parse_time(s: Seq<u8>) -> Result<Option<Time>, Error> {
    if s.len() == 0 {
        Ok(None)
    } else if s.len() >= 6 && all_digits(s.take(6)) && (s.len() == 6 || (s.len() >= 8 && s[6]
        == DOT && all_digits(s.skip(7)) && s.len() - 7 <= 12)) {
        let hh = digits_val(s.subrange(0, 2));
        let mm = digits_val(s.subrange(2, 4));
        let ss = digits_val(s.subrange(4, 6));
        let frac = if s.len() == 6 {
            Seq::<u8>::empty()
        } else {
            s.skip(7)
        };
        if hh <= 23 && mm <= 59 && ss <= 60 {
            Ok(
                Some(
                    Time {
                        hours: hh as u8,
                        minutes: mm as u8,
                        seconds: dec_make(
                            false,
                            digits_val(s.subrange(4, 6) + frac),
                            frac.len() as int,
                        ),
                    },
                ),
            )
        } else {
            Err(Error::MalformedField)
        }
    } else {
        Err(Error::MalformedField)
    }
}

impl Time {
    /// Decodes the `hhmmss[.sss]` field at index `i`.
    pub fn parse_from_hhmmss(fields: &Vec<Vec<u8>>, i: usize) -> (r: Result<Option<Time>, Error>)
        ensures
            r == spec_parse_time(fld(fields_view(fields@), i as int)),
    {
        if i >= fields.len() {
            return Ok(None);
        }
        let f = fields[i].as_slice();
        let n = f.len();
        if n == 0 {
            return Ok(None);
        }
        if n < 6 {
            assert(!(f@.len() >= 6));
            return Err(Error::MalformedField);
        }
        let hh = match common::read2(f, 0) {
            Some(v) => v,
            None => {
                assert(!all_digits(f@.take(6))) by {
                    let s2 = f@.subrange(0, 2);
                    if all_digits(f@.take(6)) {
                        assert(is_digit(s2[0]) && is_digit(s2[1])) by {
                            assert(s2[0] == f@.take(6)[0] && s2[1] == f@.take(6)[1]);
                        }
                    }
                }
                return Err(Error::MalformedField);
            },
        };
        let mm = match common::read2(f, 2) {
            Some(v) => v,
            None => {
                assert(!all_digits(f@.take(6))) by {
                    let s2 = f@.subrange(2, 4);
                    if all_digits(f@.take(6)) {
                        assert(is_digit(s2[0]) && is_digit(s2[1])) by {
                            assert(s2[0] == f@.take(6)[2] && s2[1] == f@.take(6)[3]);
                        }
                    }
                }
                return Err(Error::MalformedField);
            },
        };
        let ss = match common::read2(f, 4) {
            Some(v) => v,
            None => {
                assert(!all_digits(f@.take(6))) by {
                    let s2 = f@.subrange(4, 6);
                    if all_digits(f@.take(6)) {
                        assert(is_digit(s2[0]) && is_digit(s2[1])) by {
                            assert(s2[0] == f@.take(6)[4] && s2[1] == f@.take(6)[5]);
                        }
                    }
                }
                return Err(Error::MalformedField);
            },
        };
        assert(all_digits(f@.take(6))) by {
            let s = f@.take(6);
            assert(forall|j: int| 0 <= j < 2 ==> s[j] == f@.subrange(0, 2)[j]);
            assert(forall|j: int| 2 <= j < 4 ==> s[j] == f@.subrange(2, 4)[j - 2]);
            assert(forall|j: int| 4 <= j < 6 ==> s[j] == f@.subrange(4, 6)[j - 4]);
        }
        if hh > 23 || mm > 59 || ss > 60 {
            return Err(Error::MalformedField);
        }
        let ghost frac: Seq<u8> = if f@.len() == 6 {
            Seq::<u8>::empty()
        } else {
            f@.skip(7)
        };
        if n == 6 {
            proof {
                assert(f@.subrange(4, 6) + frac =~= f@.subrange(4, 6));
            }
            let sec = common::Decimal::new(false, ss as u64, 0);
            return Ok(Some(Time { hours: hh, minutes: mm, seconds: sec }));
        }
        if n < 8 || f[6] != DOT || n - 7 > 12 {
            return Err(Error::MalformedField);
        }
        proof {
            assert(frac =~= f@.subrange(7, n as int));
        }
        let raw = match common::scan_digits(f, 7, n, ss as u64, Ghost(f@.subrange(4, 6))) {
            Ok(v) => v,
            Err(e) => {
                assert(!all_digits(f@.skip(7)));
                return Err(e);
            },
        };
        proof {
            common::lemma_pow10_15();
            common::lemma_pow10_mono(2 + (n - 7), 15);
        }
        let sec = common::Decimal::new(false, raw, (n - 7) as u32);
        Ok(Some(Time { hours: hh, minutes: mm, seconds: sec }))
    }
}

/// The fixed two-digit-year pivot: `00`–`69` are the 2000s, `70`–`99` the
/// 1900s.
pub open spec fn expand_year(yy: int) -> int {
    if yy < 70 {
        2000 + yy
    } else {
        1900 + yy
    }
}

/// A `ddmmyy` field: exactly six digits; the year expands through
/// [`expand_year`].  Day and month are not range-checked.  Empty means
/// absent.
pub open spec fn spec_parse_date(s: Seq<u8>) -> Result<Option<Date>, Error> {
    if s.len() == 0 {
        Ok(None)
    } else if s.len() == 6 && all_digits(s) {
        Ok(
            Some(
                Date {
                    day: digits_val(s.subrange(0, 2)) as u8,
                    month: digits_val(s.subrange(2, 4)) as u8,
                    year: expand_year(digits_val(s.subrange(4, 6))) as u16,
                },
            ),
        )
    } else {
        Err(Error::MalformedField)
    }
}

impl Date {
    /// Decodes the `ddmmyy` field at index `i`.
    pub fn parse_from_ddmmyy(fields: &Vec<Vec<u8>>, i: usize) -> (r: Result<Option<Date>, Error>)
        ensures
            r == spec_parse_date(fld(fields_view(fields@), i as int)),
    {
        if i >= fields.len() {
            return Ok(None);
        }
        let f = fields[i].as_slice();
        let n = f.len();
        if n == 0 {
            return Ok(None);
        }
        if n != 6 {
            return Err(Error::MalformedField);
        }
        let dd = match common::read2(f, 0) {
            Some(v) => v,
            None => {
                assert(!all_digits(f@)) by {
                    let s2 = f@.subrange(0, 2);
                    if all_digits(f@) {
                        assert(is_digit(s2[0]) && is_digit(s2[1])) by {
                            assert(s2[0] == f@[0] && s2[1] == f@[1]);
                        }
                    }
                }
                return Err(Error::MalformedField);
            },
        };
        let mm = match common::read2(f, 2) {
            Some(v) => v,
            None => {
                assert(!all_digits(f@)) by {
                    let s2 = f@.subrange(2, 4);
                    if all_digits(f@) {
                        assert(is_digit(s2[0]) && is_digit(s2[1])) by {
                            assert(s2[0] == f@[2] && s2[1] == f@[3]);
                        }
                    }
                }
                return Err(Error::MalformedField);
            },
        };
        let yy = match common::read2(f, 4) {
            Some(v) => v,
            None => {
                assert(!all_digits(f@)) by {
                    let s2 = f@.subrange(4, 6);
                    if all_digits(f@) {
                        assert(is_digit(s2[0]) && is_digit(s2[1])) by {
                            assert(s2[0] == f@[4] && s2[1] == f@[5]);
                        }
                    }
                }
                return Err(Error::MalformedField);
            },
        };
        assert(all_digits(f@)) by {
            assert(forall|j: int| 0 <= j < 2 ==> f@[j] == f@.subrange(0, 2)[j]);
            assert(forall|j: int| 2 <= j < 4 ==> f@[j] == f@.subrange(2, 4)[j - 2]);
            assert(forall|j: int| 4 <= j < 6 ==> f@[j] == f@.subrange(4, 6)[j - 4]);
        }
        let year: u16 = if yy < 70 {
            2000 + (yy as u16)
        } else {
            1900 + (yy as u16)
        };
        Ok(Some(Date { day: dd, month: mm, year }))
    }
}

} // verus!
