//! The streaming sentence parser: a byte-level frame assembler, checksum
//! validation and sentence-type dispatch.
//!
//! The frame assembler is a state machine over single bytes.  A `$` in any
//! state begins a fresh sentence (resynchronization); body bytes
//! accumulate up to a configured maximum; `*` freezes the body; two hex
//! digits and `\r\n` complete the frame.  A completed frame is checksum
//! validated and dispatched; every outcome — success or per-sentence
//! error — leaves the parser idle and ready for the next sentence.

use vstd::prelude::*;

use crate::checksum;
use crate::checksum::hex_val;
use crate::checksum::xor_of;
use crate::common;
use crate::common::fields_view;
use crate::common::COMMA;
use crate::common::CR;
use crate::common::DOLLAR;
use crate::common::LET_A;
use crate::common::LET_C;
use crate::common::LET_D;
use crate::common::LET_F;
use crate::common::LET_G;
use crate::common::LET_K;
use crate::common::LET_L;
use crate::common::LET_M;
use crate::common::LET_P;
use crate::common::LET_R;
use crate::common::LET_S;
use crate::common::LET_T;
use crate::common::LET_V;
use crate::common::LET_Z;
use crate::common::LF;
use crate::common::STAR;
use crate::gga::GGA;
use crate::gll::GLL;
use crate::gsa::GsaModel;
use crate::gsa::GSA;
use crate::gsv;
use crate::gsv::GsvAccModel;
use crate::gsv::GsvModel;
use crate::gsv::GSV;
use crate::pmtk::PMTKSPF;
use crate::rmc::RMC;
use crate::satellite::Satellite;
use crate::source_of;
use crate::vtg::VTG;
use crate::zda::ZDA;
use crate::Error;
use crate::Source;

verus! {

/// The sentence length bound of strict framing: the standard's 79 bytes
/// between `$` and `*`.
pub const MAX_LENGTH_STRICT: usize = 79;

/// The sentence length bound of relaxed framing, for receivers that
/// exceed the standard.
pub const MAX_LENGTH_RELAXED: usize = 120;

/// The frame assembler's control state.
#[derive(Clone, Copy, Debug, PartialEq, Eq, Structural)]
pub enum Stage {
    /// Waiting for a `$`; other bytes are line noise and are discarded.
    Idle,
    /// Accumulating body bytes until `*`.
    InBody,
    /// Expecting the high checksum hex digit.
    ChkHigh,
    /// Expecting the low checksum hex digit.
    ChkLow,
    /// Expecting the carriage return.
    AwaitCr,
    /// Expecting the line feed that completes the frame.
    AwaitLf,
}

/// The mathematical state of the frame assembler.
pub struct FrameModel {
    /// Control state.
    pub stage: Stage,
    /// The body accumulated so far.
    pub buf: Seq<u8>,
    /// The declared checksum as read so far.
    pub chk: u8,
    /// The configured maximum body length.
    pub max: int,
}

/// What feeding one byte to the frame assembler produces.
pub enum FrameOut {
    /// No complete frame yet.
    Nothing,
    /// A per-sentence framing failure.
    Fail(Error),
    /// A complete, checksum-validated body.
    Frame(Seq<u8>),
}

/// One step of the frame assembler.  `$` always begins a fresh sentence;
/// an over-long body fails with `SentenceTooLong` and resynchronizes; a
/// completed frame is emitted only when its checksum matches, else it
/// fails with `ChecksumMismatch`; malformed trailers are discarded as
/// noise.
pub open spec fn frame_step(m: FrameModel, b: u8) -> (FrameModel, FrameOut) {
    if b == DOLLAR {
        (
            FrameModel { stage: Stage::InBody, buf: Seq::<u8>::empty(), chk: 0, max: m.max },
            FrameOut::Nothing,
        )
    } else {
        match m.stage {
            Stage::Idle => (m, FrameOut::Nothing),
            Stage::InBody => {
                if b == STAR {
                    (FrameModel { stage: Stage::ChkHigh, buf: m.buf, chk: m.chk, max: m.max },
                    FrameOut::Nothing)
                } else if m.buf.len() >= m.max {
                    (FrameModel { stage: Stage::Idle, buf: m.buf, chk: m.chk, max: m.max },
                    FrameOut::Fail(Error::SentenceTooLong))
                } else {
                    (FrameModel { stage: Stage::InBody, buf: m.buf.push(b), chk: m.chk, max: m.max },
                    FrameOut::Nothing)
                }
            },
            Stage::ChkHigh => match hex_val(b) {
                Some(v) => (FrameModel { stage: Stage::ChkLow, buf: m.buf, chk: v, max: m.max },
                FrameOut::Nothing),
                None => (FrameModel { stage: Stage::Idle, buf: m.buf, chk: m.chk, max: m.max },
                FrameOut::Nothing),
            },
            Stage::ChkLow => match hex_val(b) {
                Some(v) => (
                    FrameModel {
                        stage: Stage::AwaitCr,
                        buf: m.buf,
                        chk: (((m.chk as int) * 16 + v) % 256) as u8,
                        max: m.max,
                    },
                    FrameOut::Nothing,
                ),
                None => (FrameModel { stage: Stage::Idle, buf: m.buf, chk: m.chk, max: m.max },
                FrameOut::Nothing),
            },
            Stage::AwaitCr => {
                if b == CR {
                    (FrameModel { stage: Stage::AwaitLf, buf: m.buf, chk: m.chk, max: m.max },
                    FrameOut::Nothing)
                } else {
                    (FrameModel { stage: Stage::Idle, buf: m.buf, chk: m.chk, max: m.max },
                    FrameOut::Nothing)
                }
            },
            Stage::AwaitLf => {
                if b == LF {
                    (
                        FrameModel {
                            stage: Stage::Idle,
                            buf: Seq::<u8>::empty(),
                            chk: m.chk,
                            max: m.max,
                        },
                        if xor_of(m.buf) == m.chk {
                            FrameOut::Frame(m.buf)
                        } else {
                            FrameOut::Fail(Error::ChecksumMismatch)
                        },
                    )
                } else {
                    (FrameModel { stage: Stage::Idle, buf: m.buf, chk: m.chk, max: m.max },
                    FrameOut::Nothing)
                }
            },
        }
    }
}

/// The abstract outcome of one decoded sentence, with sequence views in
/// place of the records' vectors.
pub enum ParseOut {
    /// Recommended minimum sentence.
    RMC(Option<RMC>),
    /// Position fix.
    GGA(Option<GGA>),
    /// Geographic position.
    GLL(Option<GLL>),
    /// Course and speed.
    VTG(Option<VTG>),
    /// Satellites in view.
    GSV(Option<GsvModel>),
    /// Active satellite selection.
    GSA(Option<GsaModel>),
    /// Date and time.
    ZDA(Option<ZDA>),
    /// Vendor jamming status.
    PMTK(Option<PMTKSPF>),
}

/// One decoded sentence: either a typed record, or a "recognized, no
/// payload" marker (`None`) for sentences that legitimately carry no
/// informative payload.
#[derive(Clone, Debug, PartialEq)]
pub enum ParseResult {
    /// Recommended minimum sentence.
    RMC(Option<RMC>),
    /// Position fix.
    GGA(Option<GGA>),
    /// Geographic position.
    GLL(Option<GLL>),
    /// Course and speed.
    VTG(Option<VTG>),
    /// Satellites in view.
    GSV(Option<GSV>),
    /// Active satellite selection.
    GSA(Option<GSA>),
    /// Date and time.
    ZDA(Option<ZDA>),
    /// Vendor jamming status.
    PMTK(Option<PMTKSPF>),
}

impl View for ParseResult {
    type V = ParseOut;

    open spec fn view(&self) -> ParseOut {
        match self {
            ParseResult::RMC(o) => ParseOut::RMC(*o),
            ParseResult::GGA(o) => ParseOut::GGA(*o),
            ParseResult::GLL(o) => ParseOut::GLL(*o),
            ParseResult::VTG(o) => ParseOut::VTG(*o),
            ParseResult::GSV(o) => ParseOut::GSV(
                match o {
                    Some(g) => Some(g@),
                    None => None,
                },
            ),
            ParseResult::GSA(o) => ParseOut::GSA(
                match o {
                    Some(g) => Some(g@),
                    None => None,
                },
            ),
            ParseResult::ZDA(o) => ParseOut::ZDA(*o),
            ParseResult::PMTK(o) => ParseOut::PMTK(*o),
        }
    }
}

/// The comma-split fields after the type token ending at `t`: none when a
/// non-comma byte follows the token.
pub open spec fn spec_fields_after(body: Seq<u8>, t: int) -> Option<Seq<Seq<u8>>> {
    if body.len() == t {
        Some(Seq::<Seq<u8>>::empty())
    } else if body[t] == COMMA {
        Some(common::split_spec(body.skip(t + 1)))
    } else {
        None
    }
}

/// Dispatch of a checksum-validated body on its type token, given the
/// satellites-in-view accumulation state.
pub open spec fn spec_dispatch_type(
    src: Source,
    t0: u8,
    t1: u8,
    t2: u8,
    fs: Seq<Seq<u8>>,
    gsv: Option<GsvAccModel>,
) -> (Result<ParseOut, Error>, Option<GsvAccModel>) {
    if t0 == LET_R && t1 == LET_M && t2 == LET_C {
        (
            match crate::rmc::spec_parse_rmc(src, fs) {
                Ok(o) => Ok(ParseOut::RMC(o)),
                Err(e) => Err(e),
            },
            gsv,
        )
    } else if t0 == LET_G && t1 == LET_G && t2 == LET_A {
        (
            match crate::gga::spec_parse_gga(src, fs) {
                Ok(o) => Ok(ParseOut::GGA(o)),
                Err(e) => Err(e),
            },
            gsv,
        )
    } else if t0 == LET_G && t1 == LET_L && t2 == LET_L {
        (
            match crate::gll::spec_parse_gll(src, fs) {
                Ok(o) => Ok(ParseOut::GLL(o)),
                Err(e) => Err(e),
            },
            gsv,
        )
    } else if t0 == LET_V && t1 == LET_T && t2 == LET_G {
        (
            match crate::vtg::spec_parse_vtg(src, fs) {
                Ok(o) => Ok(ParseOut::VTG(o)),
                Err(e) => Err(e),
            },
            gsv,
        )
    } else if t0 == LET_G && t1 == LET_S && t2 == LET_A {
        (
            match crate::gsa::spec_parse_gsa(src, fs) {
                Ok(o) => Ok(ParseOut::GSA(o)),
                Err(e) => Err(e),
            },
            gsv,
        )
    } else if t0 == LET_Z && t1 == LET_D && t2 == LET_A {
        (
            match crate::zda::spec_parse_zda(src, fs) {
                Ok(o) => Ok(ParseOut::ZDA(o)),
                Err(e) => Err(e),
            },
            gsv,
        )
    } else if t0 == LET_G && t1 == LET_S && t2 == LET_V {
        let d = gsv::spec_parse_gsv(src, fs, gsv);
        (
            match d.0 {
                Ok(o) => Ok(ParseOut::GSV(o)),
                Err(e) => Err(e),
            },
            d.1,
        )
    } else {
        (Err(Error::UnsupportedSentenceType), gsv)
    }
}

/// Dispatch of a checksum-validated body: the talker prefix picks the
/// source (`PMTK` is the four-character vendor prefix), the three-letter
/// type picks the decoder, and the rest splits into fields on commas.
/// Unknown prefixes and types fail without touching the accumulation
/// state.
pub open spec fn spec_dispatch(body: Seq<u8>, gsv: Option<GsvAccModel>) -> (
    Result<ParseOut, Error>,
    Option<GsvAccModel>,
) {
    if body.len() >= 4 && body[0] == LET_P && body[1] == LET_M && body[2] == LET_T && body[3]
        == LET_K {
        if body.len() < 7 {
            (Err(Error::UnsupportedSentenceType), gsv)
        } else {
            match spec_fields_after(body, 7) {
                None => (Err(Error::UnsupportedSentenceType), gsv),
                Some(fs) => {
                    if body[4] == LET_S && body[5] == LET_P && body[6] == LET_F {
                        (
                            match crate::pmtk::spec_parse_spf(Source::MTK, fs) {
                                Ok(o) => Ok(ParseOut::PMTK(o)),
                                Err(e) => Err(e),
                            },
                            gsv,
                        )
                    } else {
                        (Err(Error::UnsupportedSentenceType), gsv)
                    }
                },
            }
        }
    } else if body.len() >= 2 {
        match source_of(body[0], body[1]) {
            None => (Err(Error::UnsupportedSource), gsv),
            Some(src) => {
                if body.len() < 5 {
                    (Err(Error::UnsupportedSentenceType), gsv)
                } else {
                    match spec_fields_after(body, 5) {
                        None => (Err(Error::UnsupportedSentenceType), gsv),
                        Some(fs) => spec_dispatch_type(src, body[2], body[3], body[4], fs, gsv),
                    }
                }
            },
        }
    } else {
        (Err(Error::UnsupportedSource), gsv)
    }
}

/// The whole parser's mathematical state.
pub struct ParserModel {
    /// The frame assembler.
    pub frame: FrameModel,
    /// The satellites-in-view accumulation.
    pub gsv: Option<GsvAccModel>,
}

/// One byte fed to the whole parser.
pub open spec fn spec_step(m: ParserModel, b: u8) -> (
    ParserModel,
    Option<Result<ParseOut, Error>>,
) {
    let fr = frame_step(m.frame, b);
    match fr.1 {
        FrameOut::Nothing => (ParserModel { frame: fr.0, gsv: m.gsv }, None),
        FrameOut::Fail(e) => (ParserModel { frame: fr.0, gsv: m.gsv }, Some(Err(e))),
        FrameOut::Frame(body) => {
            let d = spec_dispatch(body, m.gsv);
            (ParserModel { frame: fr.0, gsv: d.1 }, Some(d.0))
        },
    }
}

/// A byte sequence fed to the parser: the final state and the outcomes in
/// order.
pub open spec fn spec_run(m: ParserModel, s: Seq<u8>) -> (
    ParserModel,
    Seq<Result<ParseOut, Error>>,
)
    decreases s.len(),
{
    if s.len() == 0 {
        (m, Seq::<Result<ParseOut, Error>>::empty())
    } else {
        let st = spec_step(m, s[0]);
        let rest = spec_run(st.0, s.skip(1));
        (
            rest.0,
            match st.1 {
                Some(o) => seq![o] + rest.1,
                None => rest.1,
            },
        )
    }
}

/// The parser's initial state for a given length bound.
pub open spec fn initial_model(max: int) -> ParserModel {
    ParserModel {
        frame: FrameModel { stage: Stage::Idle, buf: Seq::<u8>::empty(), chk: 0, max },
        gsv: None,
    }
}

/// An exec outcome matches an abstract one when they are the same variant
/// with the same contents.
pub open spec fn out_matches(r: Result<ParseResult, Error>, m: Result<ParseOut, Error>) -> bool {
    match (r, m) {
        (Ok(p), Ok(o)) => p@ == o,
        (Err(e1), Err(e2)) => e1 == e2,
        _ => false,
    }
}

/// Optional outcomes match pointwise.
pub open spec fn out_opt_matches(
    r: Option<Result<ParseResult, Error>>,
    m: Option<Result<ParseOut, Error>>,
) -> bool {
    match (r, m) {
        (None, None) => true,
        (Some(a), Some(b)) => out_matches(a, b),
        _ => false,
    }
}

/// Outcome sequences match pointwise.
pub open spec fn outs_match(
    rs: Seq<Result<ParseResult, Error>>,
    ms: Seq<Result<ParseOut, Error>>,
) -> bool {
    rs.len() == ms.len() && forall|i: int| 0 <= i < rs.len() ==> out_matches(rs[i], ms[i])
}

/// The satellites-in-view accumulation as held by the parser.
pub struct GsvAccum {
    /// A sequence is being accumulated.
    pub active: bool,
    /// The accumulated sequence's source.
    pub source: Source,
    /// The accumulated sequence's declared total message count.
    pub total: u8,
    /// The last message number folded in.
    pub last: u8,
    /// The satellites gathered so far.
    pub sats: Vec<Satellite>,
}

/// The accumulation state's mathematical view.
pub open spec fn acc_view(a: GsvAccum) -> Option<GsvAccModel> {
    if a.active {
        Some(
            GsvAccModel {
                source: a.source,
                total: a.total,
                last_msg: a.last,
                sats: a.sats@,
            },
        )
    } else {
        None
    }
}

/// The streaming sentence parser.  Feed it bytes one at a time or in
/// chunks; each complete physical sentence produces exactly one outcome.
pub struct Parser {
    stage: Stage,
    buffer: Vec<u8>,
    chk: u8,
    max_len: usize,
    acc: GsvAccum,
}

impl View for Parser {
    type V = ParserModel;

    closed spec fn view(&self) -> ParserModel {
        ParserModel {
            frame: FrameModel {
                stage: self.stage,
                buf: self.buffer@,
                chk: self.chk,
                max: self.max_len as int,
            },
            gsv: acc_view(self.acc),
        }
    }
}

impl Parser {
    /// A parser with the relaxed length bound.
    pub fn new() -> (r: Parser)
        ensures
            r@ == initial_model(MAX_LENGTH_RELAXED as int),
    {
        Parser {
            stage: Stage::Idle,
            buffer: Vec::new(),
            chk: 0,
            max_len: MAX_LENGTH_RELAXED,
            acc: GsvAccum {
                active: false,
                source: Source::GPS,
                total: 0,
                last: 0,
                sats: Vec::new(),
            },
        }
    }

    /// A parser that holds sentences to the standard's strict length
    /// bound.
    pub fn new_strict() -> (r: Parser)
        ensures
            r@ == initial_model(MAX_LENGTH_STRICT as int),
    {
        Parser {
            stage: Stage::Idle,
            buffer: Vec::new(),
            chk: 0,
            max_len: MAX_LENGTH_STRICT,
            acc: GsvAccum {
                active: false,
                source: Source::GPS,
                total: 0,
                last: 0,
                sats: Vec::new(),
            },
        }
    }

    /// Feeds one byte; returns an outcome exactly when this byte completes
    /// a physical sentence attempt.
    pub fn parse_from_byte(&mut self, b: u8) -> (r: Option<Result<ParseResult, Error>>)
        ensures
            final(self)@ == spec_step(old(self)@, b).0,
            out_opt_matches(r, spec_step(old(self)@, b).1),
    {
        if b == DOLLAR {
            self.stage = Stage::InBody;
            self.buffer.clear();
            self.chk = 0;
            proof {
                assert(self@.frame.buf =~= Seq::<u8>::empty());
            }
            return None;
        }
        match self.stage {
            Stage::Idle => None,
            Stage::InBody => {
                if b == STAR {
                    self.stage = Stage::ChkHigh;
                    None
                } else if self.buffer.len() >= self.max_len {
                    self.stage = Stage::Idle;
                    Some(Err(Error::SentenceTooLong))
                } else {
                    self.buffer.push(b);
                    None
                }
            },
            Stage::ChkHigh => match checksum::hex_digit(b) {
                Some(v) => {
                    self.chk = v;
                    self.stage = Stage::ChkLow;
                    None
                },
                None => {
                    self.stage = Stage::Idle;
                    None
                },
            },
            Stage::ChkLow => match checksum::hex_digit(b) {
                Some(v) => {
                    self.chk = ((((self.chk as u16) * 16 + (v as u16)) % 256) as u8);
                    self.stage = Stage::AwaitCr;
                    None
                },
                None => {
                    self.stage = Stage::Idle;
                    None
                },
            },
            Stage::AwaitCr => {
                if b == CR {
                    self.stage = Stage::AwaitLf;
                } else {
                    self.stage = Stage::Idle;
                }
                None
            },
            Stage::AwaitLf => {
                self.stage = Stage::Idle;
                if b == LF {
                    let c = checksum::checksum(self.buffer.as_slice());
                    if c == self.chk {
                        let out = dispatch_body(&self.buffer, &mut self.acc);
                        self.buffer.clear();
                        proof {
                            assert(self@.frame.buf =~= Seq::<u8>::empty());
                        }
                        Some(out)
                    } else {
                        self.buffer.clear();
                        proof {
                            assert(self@.frame.buf =~= Seq::<u8>::empty());
                        }
                        Some(Err(Error::ChecksumMismatch))
                    }
                } else {
                    None
                }
            },
        }
    }

    /// Feeds a chunk of bytes; returns the outcomes the chunk completed,
    /// in order.  Splitting one input across chunks at any position gives
    /// the same outcomes as feeding it whole.
    pub fn parse_from_bytes(&mut self, bytes: &[u8]) -> (r: Vec<Result<ParseResult, Error>>)
        ensures
            final(self)@ == spec_run(old(self)@, bytes@).0,
            outs_match(r@, spec_run(old(self)@, bytes@).1),
    {
        let ghost m0: ParserModel = self@;
        let ghost full = spec_run(m0, bytes@);
        let mut out: Vec<Result<ParseResult, Error>> = Vec::new();
        let ghost mut mouts: Seq<Result<ParseOut, Error>> = Seq::empty();
        let n = bytes.len();
        let mut i: usize = 0;
        proof {
            assert(bytes@.skip(0) =~= bytes@);
        }
        while i < n
            invariant
                0 <= i <= n,
                n == bytes@.len(),
                full == spec_run(m0, bytes@),
                outs_match(out@, mouts),
                full.0 == spec_run(self@, bytes@.skip(i as int)).0,
                full.1 == mouts + spec_run(self@, bytes@.skip(i as int)).1,
            decreases n - i,
        {
            let ghost mpre: ParserModel = self@;
            let ghost st = spec_step(mpre, bytes@[i as int]);
            let r = self.parse_from_byte(bytes[i]);
            proof {
                assert(bytes@.skip(i as int)[0] == bytes@[i as int]);
                assert(bytes@.skip(i as int).skip(1) =~= bytes@.skip(i + 1));
            }
            match r {
                Some(o) => {
                    out.push(o);
                    proof {
                        let mo = st.1->Some_0;
                        mouts = mouts + seq![mo];
                        assert(mouts + spec_run(self@, bytes@.skip(i + 1)).1 =~= (mouts.drop_last()
                            + (seq![mo] + spec_run(self@, bytes@.skip(i + 1)).1)));
                    }
                },
                None => {
                },
            }
            i = i + 1;
        }
        proof {
            assert(bytes@.skip(n as int) =~= Seq::<u8>::empty());
            assert(mouts + Seq::<Result<ParseOut, Error>>::empty() =~= mouts);
        }
        out
    }
}

/// Copies a satellite list.
fn copy_sats(v: &Vec<Satellite>) -> (r: Vec<Satellite>)
    ensures
        r@ == v@,
{
    let mut out: Vec<Satellite> = Vec::new();
    let n = v.len();
    let mut i: usize = 0;
    while i < n
        invariant
            0 <= i <= n,
            n == v@.len(),
            out@ == v@.subrange(0, i as int),
        decreases n - i,
    {
        out.push(v[i]);
        proof {
            assert(out@ =~= v@.subrange(0, i + 1));
        }
        i = i + 1;
    }
    proof {
        assert(v@.subrange(0, n as int) =~= v@);
    }
    out
}

/// Appends a satellite list onto another.
fn extend_sats(dst: &mut Vec<Satellite>, src: &Vec<Satellite>)
    ensures
        final(dst)@ == old(dst)@ + src@,
{
    let ghost base: Seq<Satellite> = dst@;
    let n = src.len();
    let mut i: usize = 0;
    proof {
        assert(base + src@.subrange(0, 0) =~= base);
    }
    while i < n
        invariant
            0 <= i <= n,
            n == src@.len(),
            dst@ == base + src@.subrange(0, i as int),
        decreases n - i,
    {
        dst.push(src[i]);
        proof {
            assert(dst@ =~= base + src@.subrange(0, i + 1));
        }
        i = i + 1;
    }
    proof {
        assert(src@.subrange(0, n as int) =~= src@);
    }
}

/// Splits the fields after the type token that ends at `t`.
fn fields_after(body: &Vec<u8>, t: usize) -> (r: Option<Vec<Vec<u8>>>)
    requires
        t <= body@.len(),
    ensures
        match (r, spec_fields_after(body@, t as int)) {
            (Some(v), Some(fs)) => fields_view(v@) == fs,
            (None, None) => true,
            _ => false,
        },
{
    let n = body.len();
    if n == t {
        let v: Vec<Vec<u8>> = Vec::new();
        proof {
            assert(fields_view(v@) =~= Seq::<Seq<u8>>::empty());
        }
        Some(v)
    } else if body[t] == COMMA {
        Some(common::split_fields(vstd::slice::slice_subrange(body.as_slice(), t + 1, n)))
    } else {
        None
    }
}

/// Decodes the satellites-in-view sentence against the accumulation
/// state.
fn dispatch_gsv(src: Source, fields: &Vec<Vec<u8>>, acc: &mut GsvAccum) -> (r: Result<
    ParseResult,
    Error,
>)
    ensures
        ({
            let d = gsv::spec_parse_gsv(src, fields_view(fields@), acc_view(*old(acc)));
            out_matches(r, match d.0 {
                Ok(o) => Ok(ParseOut::GSV(o)),
                Err(e) => Err(e),
            }) && acc_view(*final(acc)) == d.1
        }),
{
    match gsv::parse_gsv_msg(fields) {
        Err(e) => Err(e),
        Ok(None) => Ok(ParseResult::GSV(None)),
        Ok(Some((total, num, siv, msats))) => {
            let cont = acc.active && src == acc.source && total == acc.total && (num as u16) == (
            acc.last as u16) + 1 && num != 1;
            if cont {
                extend_sats(&mut acc.sats, &msats);
            } else {
                acc.sats = msats;
            }
            let record_sats = copy_sats(&acc.sats);
            let rec = GSV {
                source: src,
                total_messages_number: total,
                message_number: num,
                sat_in_view: siv,
                satellites: record_sats,
            };
            if num >= total {
                acc.active = false;
            } else {
                acc.active = true;
                acc.source = src;
                acc.total = total;
                acc.last = num;
            }
            Ok(ParseResult::GSV(Some(rec)))
        },
    }
}

/// Dispatches a checksum-validated body to its decoder.
#[verifier::rlimit(80)]
fn dispatch_body(body: &Vec<u8>, acc: &mut GsvAccum) -> (r: Result<ParseResult, Error>)
    ensures
        ({
            let d = spec_dispatch(body@, acc_view(*old(acc)));
            out_matches(r, d.0) && acc_view(*final(acc)) == d.1
        }),
{
    let n = body.len();
    if n >= 4 && body[0] == LET_P && body[1] == LET_M && body[2] == LET_T && body[3] == LET_K {
        if n < 7 {
            return Err(Error::UnsupportedSentenceType);
        }
        let fields = match fields_after(body, 7) {
            Some(f) => f,
            None => {
                return Err(Error::UnsupportedSentenceType);
            },
        };
        if body[4] == LET_S && body[5] == LET_P && body[6] == LET_F {
            match PMTKSPF::parse(Source::MTK, &fields) {
                Ok(o) => Ok(ParseResult::PMTK(o)),
                Err(e) => Err(e),
            }
        } else {
            Err(Error::UnsupportedSentenceType)
        }
    } else if n >= 2 {
        let src = match crate::lookup_source(body[0], body[1]) {
            Some(s) => s,
            None => {
                return Err(Error::UnsupportedSource);
            },
        };
        if n < 5 {
            return Err(Error::UnsupportedSentenceType);
        }
        let fields = match fields_after(body, 5) {
            Some(f) => f,
            None => {
                return Err(Error::UnsupportedSentenceType);
            },
        };
        let t0 = body[2];
        let t1 = body[3];
        let t2 = body[4];
        if t0 == LET_R && t1 == LET_M && t2 == LET_C {
            match RMC::parse(src, &fields) {
                Ok(o) => Ok(ParseResult::RMC(o)),
                Err(e) => Err(e),
            }
        } else if t0 == LET_G && t1 == LET_G && t2 == LET_A {
            match GGA::parse(src, &fields) {
                Ok(o) => Ok(ParseResult::GGA(o)),
                Err(e) => Err(e),
            }
        } else if t0 == LET_G && t1 == LET_L && t2 == LET_L {
            match GLL::parse(src, &fields) {
                Ok(o) => Ok(ParseResult::GLL(o)),
                Err(e) => Err(e),
            }
        } else if t0 == LET_V && t1 == LET_T && t2 == LET_G {
            match VTG::parse(src, &fields) {
                Ok(o) => Ok(ParseResult::VTG(o)),
                Err(e) => Err(e),
            }
        } else if t0 == LET_G && t1 == LET_S && t2 == LET_A {
            match GSA::parse(src, &fields) {
                Ok(o) => Ok(ParseResult::GSA(o)),
                Err(e) => Err(e),
            }
        } else if t0 == LET_Z && t1 == LET_D && t2 == LET_A {
            match ZDA::parse(src, &fields) {
                Ok(o) => Ok(ParseResult::ZDA(o)),
                Err(e) => Err(e),
            }
        } else if t0 == LET_G && t1 == LET_S && t2 == LET_V {
            dispatch_gsv(src, &fields, acc)
        } else {
            Err(Error::UnsupportedSentenceType)
        }
    } else {
        Err(Error::UnsupportedSource)
    }
}

/// No byte of `s` is the `$` that starts a sentence.
pub open spec fn no_dollar(s: Seq<u8>) -> bool {
    forall|i: int| 0 <= i < s.len() ==> s[i] != DOLLAR
}

/// Chunk-boundary independence: feeding `a + b` is the same as feeding
/// `a`, then `b`, from the state `a` left behind — the final state is the
/// same and the outcomes concatenate.  Splitting an input at any position
/// across two deliveries therefore decodes identically to feeding it
/// whole.
pub proof fn lemma_chunk_boundary_independence(m: ParserModel, a: Seq<u8>, b: Seq<u8>)
    ensures
        spec_run(m, a + b).0 == spec_run(spec_run(m, a).0, b).0,
        spec_run(m, a + b).1 == spec_run(m, a).1 + spec_run(spec_run(m, a).0, b).1,
    decreases a.len(),
{
    if a.len() == 0 {
        assert(a + b =~= b);
        assert(spec_run(m, a).1 + spec_run(m, b).1 =~= spec_run(m, b).1);
    } else {
        let st = spec_step(m, a[0]);
        assert((a + b)[0] == a[0]);
        assert((a + b).skip(1) =~= a.skip(1) + b);
        lemma_chunk_boundary_independence(st.0, a.skip(1), b);
        let tail = spec_run(st.0, a.skip(1)).1;
        let cont = spec_run(spec_run(st.0, a.skip(1)).0, b).1;
        match st.1 {
            Some(o) => {
                assert(seq![o] + (tail + cont) =~= (seq![o] + tail) + cont);
            },
            None => {
            },
        }
    }
}

/// Bytes outside an active sentence are discarded silently: from the idle
/// state, input without a `$` changes nothing and produces no outcome.
pub proof fn lemma_garbage_is_discarded(m: ParserModel, g: Seq<u8>)
    requires
        m.frame.stage is Idle,
        no_dollar(g),
    ensures
        spec_run(m, g).0 == m,
        spec_run(m, g).1 == Seq::<Result<ParseOut, Error>>::empty(),
    decreases g.len(),
{
    if g.len() > 0 {
        let st = spec_step(m, g[0]);
        assert(st.0 == m);
        lemma_garbage_is_discarded(m, g.skip(1));
    }
}

/// Resynchronization: a sentence embedded between arbitrary `$`-free
/// garbage yields exactly the outcomes of the sentence alone — the
/// garbage produces no spurious outcome.  The last premise says the
/// sentence is complete: it has returned the frame assembler to idle.
pub proof fn lemma_resynchronization(m: ParserModel, g1: Seq<u8>, sent: Seq<u8>, g2: Seq<u8>)
    requires
        m.frame.stage is Idle,
        no_dollar(g1),
        no_dollar(g2),
        spec_run(m, sent).0.frame.stage is Idle,
    ensures
        spec_run(m, g1 + sent + g2).1 == spec_run(m, sent).1,
{
    lemma_garbage_is_discarded(m, g1);
    lemma_chunk_boundary_independence(m, g1, sent);
    assert(spec_run(m, g1 + sent).0 == spec_run(m, sent).0);
    assert(spec_run(m, g1 + sent).1 =~= spec_run(m, sent).1);
    lemma_chunk_boundary_independence(m, g1 + sent, g2);
    let m1 = spec_run(m, sent).0;
    lemma_garbage_is_discarded(m1, g2);
    assert(spec_run(m, g1 + sent + g2).1 =~= spec_run(m, sent).1);
}

/// The length bound: the accumulation buffer never grows past the
/// configured maximum, whatever bytes arrive, and the maximum itself
/// never changes.
pub proof fn lemma_buffer_bounded(m: ParserModel, s: Seq<u8>)
    requires
        m.frame.buf.len() <= m.frame.max,
    ensures
        spec_run(m, s).0.frame.buf.len() <= m.frame.max,
        spec_run(m, s).0.frame.max == m.frame.max,
    decreases s.len(),
{
    if s.len() > 0 {
        let st = spec_step(m, s[0]);
        assert(st.0.frame.buf.len() <= m.frame.max && st.0.frame.max == m.frame.max);
        lemma_buffer_bounded(st.0, s.skip(1));
    }
}

/// The bytes of one complete wire sentence: `$`, the body, `*`, the two
/// checksum digits, and the line terminator.
pub open spec fn wire_sentence(body: Seq<u8>, c1: u8, c2: u8) -> Seq<u8> {
    seq![DOLLAR] + body + seq![STAR, c1, c2, CR, LF]
}

/// A body the assembler can carry whole: within the length bound and free
/// of the framing bytes.
pub open spec fn body_ok(body: Seq<u8>, max: int) -> bool {
    body.len() <= max && forall|i: int|
        0 <= i < body.len() ==> body[i] != DOLLAR && body[i] != STAR
}

/// While accumulating, ordinary bytes append to the buffer in order and
/// produce no outcome.
proof fn lemma_body_accumulates(m: ParserModel, rest: Seq<u8>)
    requires
        m.frame.stage is InBody,
        m.frame.buf.len() + rest.len() <= m.frame.max,
        forall|i: int| 0 <= i < rest.len() ==> rest[i] != DOLLAR && rest[i] != STAR,
    ensures
        spec_run(m, rest).0 == (ParserModel {
            frame: FrameModel {
                stage: Stage::InBody,
                buf: m.frame.buf + rest,
                chk: m.frame.chk,
                max: m.frame.max,
            },
            gsv: m.gsv,
        }),
        spec_run(m, rest).1 == Seq::<Result<ParseOut, Error>>::empty(),
    decreases rest.len(),
{
    if rest.len() == 0 {
        assert(m.frame.buf + rest =~= m.frame.buf);
    } else {
        let st = spec_step(m, rest[0]);
        assert(st.0.frame.buf == m.frame.buf.push(rest[0]));
        lemma_body_accumulates(st.0, rest.skip(1));
        assert(m.frame.buf.push(rest[0]) + rest.skip(1) =~= m.frame.buf + rest);
    }
}

/// One complete well-formed sentence, fed from any state, yields exactly
/// one outcome: the dispatch of its body when the declared checksum
/// matches the body's XOR, and a checksum failure otherwise.  Either way
/// the assembler returns to idle.
#[verifier::rlimit(100)]
pub proof fn lemma_sentence_yields_one_outcome(m: ParserModel, body: Seq<u8>, c1: u8, c2: u8)
    requires
        body_ok(body, m.frame.max),
        hex_val(c1) is Some,
        hex_val(c2) is Some,
    ensures
        ({
            let chk = (hex_val(c1)->Some_0 as int * 16 + hex_val(c2)->Some_0 as int) % 256;
            let d = spec_dispatch(body, m.gsv);
            let run = spec_run(m, wire_sentence(body, c1, c2));
            run.0.frame.stage is Idle && run.1 == seq![
                if xor_of(body) as int == chk {
                    d.0
                } else {
                    Err::<ParseOut, Error>(Error::ChecksumMismatch)
                },
            ]
        }),
{
    reveal_with_fuel(spec_run, 8);
    let w = wire_sentence(body, c1, c2);
    let head = seq![DOLLAR];
    let tail = seq![STAR, c1, c2, CR, LF];
    assert(head[0] == DOLLAR);
    assert(tail[0] == STAR && tail[1] == c1 && tail[2] == c2 && tail[3] == CR && tail[4] == LF);
    assert(w =~= head + (body + tail));
    lemma_chunk_boundary_independence(m, head, body + tail);
    let m1 = spec_run(m, head).0;
    assert(head.skip(1) =~= Seq::<u8>::empty());
    assert(m1 == spec_step(m, DOLLAR).0);
    assert(m1.frame.stage is InBody && m1.frame.buf =~= Seq::<u8>::empty() && m1.frame.chk == 0
        && m1.frame.max == m.frame.max && m1.gsv == m.gsv);
    assert(spec_run(m, head).1 =~= Seq::<Result<ParseOut, Error>>::empty());
    lemma_chunk_boundary_independence(m1, body, tail);
    lemma_body_accumulates(m1, body);
    let m2 = spec_run(m1, body).0;
    assert(m2.frame.buf =~= body);
    // The five trailer bytes, one step at a time.
    let s2 = spec_step(m2, STAR);
    assert(s2.0.frame.stage is ChkHigh && s2.1 is None);
    let s3 = spec_step(s2.0, c1);
    assert(s3.0.frame.stage is ChkLow && s3.0.frame.chk == hex_val(c1)->Some_0 && s3.1 is None);
    let s4 = spec_step(s3.0, c2);
    assert(s4.0.frame.stage is AwaitCr && s4.0.frame.chk as int == (hex_val(c1)->Some_0 as int
        * 16 + hex_val(c2)->Some_0 as int) % 256 && s4.1 is None);
    let s5 = spec_step(s4.0, CR);
    assert(s5.0.frame.stage is AwaitLf && s5.1 is None);
    let s6 = spec_step(s5.0, LF);
    assert(s6.0.frame.stage is Idle);
    assert(tail.skip(1) =~= seq![c1, c2, CR, LF]);
    assert(seq![c1, c2, CR, LF].skip(1) =~= seq![c2, CR, LF]);
    assert(seq![c2, CR, LF].skip(1) =~= seq![CR, LF]);
    assert(seq![CR, LF].skip(1) =~= seq![LF]);
    assert(seq![LF].skip(1) =~= Seq::<u8>::empty());
    assert(spec_run(s6.0, Seq::<u8>::empty()).1 =~= Seq::<Result<ParseOut, Error>>::empty());
    let chk = (hex_val(c1)->Some_0 as int * 16 + hex_val(c2)->Some_0 as int) % 256;
    let d = spec_dispatch(body, m.gsv);
    let expect = if xor_of(body) as int == chk {
        d.0
    } else {
        Err::<ParseOut, Error>(Error::ChecksumMismatch)
    };
    assert(s6.1 == Some(expect));
    assert(spec_run(m2, tail).1 =~= seq![expect]);
    assert(spec_run(m, w).1 =~= seq![expect]);
}

} // verus!
