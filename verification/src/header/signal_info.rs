//! Signal specification lines: file name, format field with its modifiers,
//! and positional optional fields with type-sensitive disambiguation.

use vstd::prelude::*;

use crate::{Error, SignalFormat, spec_format_from_code};
use crate::header::decimal::{Decimal, spec_parse_decimal};
use crate::header::text::{spec_tokens, spec_find, spec_parse_uint, spec_parse_int,
    spec_parse_u64, tokenize, find_char, parse_u64, parse_u32, parse_u16, parse_u8, parse_i32,
    parse_i16, lemma_spec_find, lemma_digits_val_nonneg};

verus! {

/// The parsed format field: format, samples per frame, skew, byte offset.
pub ghost struct FormatFieldSpec {
    /// The signal format.
    pub format: SignalFormat,
    /// Samples per frame, when `xN` is present (must be positive).
    pub samples_per_frame: Option<u32>,
    /// Skew, when `:N` is present.
    pub skew: Option<u32>,
    /// Byte offset, when `+N` is present.
    pub byte_offset: Option<u64>,
}

/// The format field `code[xspf][:skew][+offset]`, parsed by stripping the
/// offset, the skew and the samples-per-frame markers from the right.
pub open spec fn spec_format_field(tok: Seq<char>) -> Option<FormatFieldSpec> {
    let plus = spec_find(tok, '+');
    let offset: Option<Option<u64>> = if plus < tok.len() {
        match spec_parse_u64(tok.skip(plus + 1)) {
            Some(v) => Some(Some(v)),
            None => None,
        }
    } else {
        Some(None)
    };
    let rest1 = tok.take(plus);
    let colon = spec_find(rest1, ':');
    let skew: Option<Option<u32>> = if colon < rest1.len() {
        match spec_parse_uint(rest1.skip(colon + 1)) {
            Some(v) => if v <= u32::MAX {
                Some(Some(v as u32))
            } else {
                None
            },
            None => None,
        }
    } else {
        Some(None)
    };
    let rest2 = rest1.take(colon);
    let xpos = spec_find(rest2, 'x');
    let spf: Option<Option<u32>> = if xpos < rest2.len() {
        match spec_parse_uint(rest2.skip(xpos + 1)) {
            Some(v) => if 1 <= v <= u32::MAX {
                Some(Some(v as u32))
            } else {
                None
            },
            None => None,
        }
    } else {
        Some(None)
    };
    let code_tok = rest2.take(xpos);
    if offset is None || skew is None || spf is None {
        None
    } else {
        match spec_parse_uint(code_tok) {
            Some(c) => {
                if c <= u16::MAX {
                    match spec_format_from_code(c as u16) {
                        Some(f) => Some(
                            FormatFieldSpec {
                                format: f,
                                samples_per_frame: spf->Some_0,
                                skew: skew->Some_0,
                                byte_offset: offset->Some_0,
                            },
                        ),
                        None => None,
                    }
                } else {
                    None
                }
            },
            None => None,
        }
    }
}

/// The gain field `gain[(baseline)][/units]`: a positive decimal gain, an
/// optional integer baseline in parentheses, optional non-empty units after
/// a slash.
pub open spec fn spec_gain_field(tok: Seq<char>) -> Option<
    ((int, int), Option<int>, Option<Seq<char>>),
> {
    let sl = spec_find(tok, '/');
    let units: Option<Option<Seq<char>>> = if sl < tok.len() {
        if tok.skip(sl + 1).len() == 0 {
            None
        } else {
            Some(Some(tok.skip(sl + 1)))
        }
    } else {
        Some(None)
    };
    let gpart = tok.take(sl);
    let ps = spec_find(gpart, '(');
    let baseline: Option<Option<int>> = if ps < gpart.len() {
        let pe = spec_find(gpart, ')');
        if pe >= gpart.len() || pe < ps {
            None
        } else {
            match spec_parse_int(gpart.subrange(ps + 1, pe)) {
                Some(b) => if i32::MIN <= b <= i32::MAX {
                    Some(Some(b))
                } else {
                    None
                },
                None => None,
            }
        }
    } else {
        Some(None)
    };
    let gtok = gpart.take(ps);
    if units is None || baseline is None || gtok.len() == 0 {
        None
    } else {
        match spec_parse_decimal(gtok) {
            Some(g) => if g.0 > 0 {
                Some((g, baseline->Some_0, units->Some_0))
            } else {
                None
            },
            None => None,
        }
    }
}

/// How the first optional token is read.
pub ghost enum StartKind {
    /// A gain field, with its baseline and units.
    Gain((int, int), Option<int>, Option<Seq<char>>),
    /// A block size.
    Block(int),
    /// The start of the description.
    Desc,
}

/// Classification of the first optional token: a token with a slash or a
/// parenthesis is a gain field if it parses as one; a positive number is a
/// gain; a non-positive integer is a block size; anything else starts the
/// description.
pub open spec fn spec_classify_start(tok: Seq<char>) -> StartKind {
    if spec_find(tok, '/') < tok.len() || spec_find(tok, '(') < tok.len() {
        match spec_gain_field(tok) {
            Some((g, b, u)) => StartKind::Gain(g, b, u),
            None => StartKind::Desc,
        }
    } else {
        match spec_parse_decimal(tok) {
            Some(d) => {
                if d.0 > 0 {
                    match spec_gain_field(tok) {
                        Some((g, b, u)) => StartKind::Gain(g, b, u),
                        None => StartKind::Desc,
                    }
                } else {
                    match spec_parse_int(tok) {
                        Some(v) => if i32::MIN <= v <= i32::MAX {
                            StartKind::Block(v)
                        } else {
                            StartKind::Desc
                        },
                        None => StartKind::Desc,
                    }
                }
            },
            None => {
                match spec_parse_int(tok) {
                    Some(v) => if i32::MIN <= v <= i32::MAX {
                        StartKind::Block(v)
                    } else {
                        StartKind::Desc
                    },
                    None => StartKind::Desc,
                }
            },
        }
    }
}

/// Tokens joined with single spaces.
pub open spec fn spec_join(toks: Seq<Seq<char>>) -> Seq<char>
    decreases toks.len(),
{
    if toks.len() == 0 {
        Seq::empty()
    } else if toks.len() == 1 {
        toks[0]
    } else {
        spec_join(toks.drop_last()) + seq![' '] + toks.last()
    }
}

/// The spec-level optional fields of a signal line.
pub ghost struct SignalOptSpec {
    /// The ADC gain, as a canonical decimal pair.
    pub gain: Option<(int, int)>,
    /// The baseline.
    pub baseline: Option<int>,
    /// The units string.
    pub units: Option<Seq<char>>,
    /// The ADC resolution.
    pub resolution: Option<int>,
    /// The ADC zero.
    pub zero: Option<int>,
    /// The initial value.
    pub initial: Option<int>,
    /// The checksum.
    pub checksum: Option<int>,
    /// The block size.
    pub block: Option<int>,
    /// The description.
    pub desc: Option<Seq<char>>,
}

/// The empty optional-field accumulator.
pub open spec fn spec_sig_opt_empty() -> SignalOptSpec {
    SignalOptSpec {
        gain: None,
        baseline: None,
        units: None,
        resolution: None,
        zero: None,
        initial: None,
        checksum: None,
        block: None,
        desc: None,
    }
}

/// The optional fields of a signal line, consumed left to right. The state
/// advances through the numeric slots (gain, resolution, zero, initial value,
/// checksum, block size); after a gain each following token must parse at its
/// slot's width until the block size is filled, after which the description
/// begins. States: 0 start, 1 after gain, 2 after resolution, 3 after zero,
/// 4 after initial value, 5 after checksum, 6 after block size.
pub open spec fn spec_sig_opt_fields(
    toks: Seq<Seq<char>>,
    i: int,
    state: int,
    acc: SignalOptSpec,
) -> Option<SignalOptSpec>
    decreases toks.len() - i,
{
    if i >= toks.len() {
        Some(acc)
    } else if state == 0 {
        match spec_classify_start(toks[i]) {
            StartKind::Gain(g, b, u) => spec_sig_opt_fields(
                toks,
                i + 1,
                1,
                SignalOptSpec { gain: Some(g), baseline: b, units: u, ..acc },
            ),
            StartKind::Block(v) => spec_sig_opt_fields(
                toks,
                i + 1,
                6,
                SignalOptSpec { block: Some(v), ..acc },
            ),
            StartKind::Desc => Some(SignalOptSpec { desc: Some(spec_join(toks.skip(i))), ..acc }),
        }
    } else if state == 1 {
        match spec_parse_uint(toks[i]) {
            Some(v) => if v <= u8::MAX {
                spec_sig_opt_fields(toks, i + 1, 2, SignalOptSpec { resolution: Some(v), ..acc })
            } else {
                None
            },
            None => None,
        }
    } else if state == 2 {
        match spec_parse_int(toks[i]) {
            Some(v) => if i32::MIN <= v <= i32::MAX {
                spec_sig_opt_fields(toks, i + 1, 3, SignalOptSpec { zero: Some(v), ..acc })
            } else {
                None
            },
            None => None,
        }
    } else if state == 3 {
        match spec_parse_int(toks[i]) {
            Some(v) => if i32::MIN <= v <= i32::MAX {
                spec_sig_opt_fields(toks, i + 1, 4, SignalOptSpec { initial: Some(v), ..acc })
            } else {
                None
            },
            None => None,
        }
    } else if state == 4 {
        match spec_parse_int(toks[i]) {
            Some(v) => if i16::MIN <= v <= i16::MAX {
                spec_sig_opt_fields(toks, i + 1, 5, SignalOptSpec { checksum: Some(v), ..acc })
            } else {
                None
            },
            None => None,
        }
    } else if state == 5 {
        match spec_parse_int(toks[i]) {
            Some(v) => if i32::MIN <= v <= i32::MAX {
                spec_sig_opt_fields(toks, i + 1, 6, SignalOptSpec { block: Some(v), ..acc })
            } else {
                None
            },
            None => None,
        }
    } else {
        Some(SignalOptSpec { desc: Some(spec_join(toks.skip(i))), ..acc })
    }
}

/// The spec-level content of a whole signal line.
pub ghost struct SignalFields {
    /// The file name token.
    pub file_name: Seq<char>,
    /// The format field.
    pub format: FormatFieldSpec,
    /// The optional fields.
    pub opt: SignalOptSpec,
}

/// The content of a signal specification line: a file name, a format field,
/// then the optional fields.
pub open spec fn spec_signal_line(line: Seq<char>) -> Option<SignalFields> {
    let toks = spec_tokens(line);
    if toks.len() < 2 {
        None
    } else {
        match spec_format_field(toks[1]) {
            None => None,
            Some(ff) => {
                match spec_sig_opt_fields(toks, 2, 0, spec_sig_opt_empty()) {
                    None => None,
                    Some(opt) => Some(SignalFields { file_name: toks[0], format: ff, opt }),
                }
            },
        }
    }
}

/// One signal of a single-segment record, as parsed from its specification
/// line. Absent fields are `None`; the accessors apply the defaults.
#[derive(Debug)]
pub struct SignalInfo {
    /// Name of the file containing the signal samples.
    pub file_name: String,
    /// Storage format of the signal.
    pub format: SignalFormat,
    /// Number of samples per frame.
    pub samples_per_frame: Option<u32>,
    /// Number of samples of skew relative to sample 0.
    pub skew: Option<u32>,
    /// Byte offset from the beginning of the file to sample 0.
    pub byte_offset: Option<u64>,
    /// ADC gain in ADC units per physical unit.
    pub adc_gain: Option<Decimal>,
    /// Baseline value in ADC units corresponding to 0 physical units.
    pub baseline: Option<i32>,
    /// Physical unit name.
    pub units: Option<String>,
    /// ADC resolution in bits.
    pub adc_resolution: Option<u8>,
    /// ADC zero value.
    pub adc_zero: Option<i32>,
    /// Initial sample value, for the differential format.
    pub initial_value: Option<i32>,
    /// 16-bit checksum of all samples.
    pub checksum: Option<i16>,
    /// Block size in bytes for special files.
    pub block_size: Option<i32>,
    /// Human-readable description of the signal.
    pub description: Option<String>,
}

/// The spec-level content of a signal info value.
pub open spec fn signal_fields(si: &SignalInfo) -> SignalFields {
    SignalFields {
        file_name: si.file_name@,
        format: FormatFieldSpec {
            format: si.format,
            samples_per_frame: si.samples_per_frame,
            skew: si.skew,
            byte_offset: si.byte_offset,
        },
        opt: SignalOptSpec {
            gain: (match si.adc_gain {
                Some(d) => Some(d.spec_pair()),
                None => None,
            }),
            baseline: (match si.baseline {
                Some(v) => Some(v as int),
                None => None,
            }),
            units: (match si.units {
                Some(ref u) => Some(u@),
                None => None,
            }),
            resolution: (match si.adc_resolution {
                Some(v) => Some(v as int),
                None => None,
            }),
            zero: (match si.adc_zero {
                Some(v) => Some(v as int),
                None => None,
            }),
            initial: (match si.initial_value {
                Some(v) => Some(v as int),
                None => None,
            }),
            checksum: (match si.checksum {
                Some(v) => Some(v as int),
                None => None,
            }),
            block: (match si.block_size {
                Some(v) => Some(v as int),
                None => None,
            }),
            desc: (match si.description {
                Some(ref d) => Some(d@),
                None => None,
            }),
        },
    }
}

impl Clone for SignalInfo {
    /// A clone carries exactly the same fields.
    fn clone(&self) -> (r: Self)
        ensures
            r == *self,
    {
        let r = SignalInfo {
            file_name: self.file_name.clone(),
            format: self.format,
            samples_per_frame: self.samples_per_frame,
            skew: self.skew,
            byte_offset: self.byte_offset,
            adc_gain: self.adc_gain,
            baseline: self.baseline,
            units: (match &self.units {
                Some(u) => Some(u.clone()),
                None => None,
            }),
            adc_resolution: self.adc_resolution,
            adc_zero: self.adc_zero,
            initial_value: self.initial_value,
            checksum: self.checksum,
            block_size: self.block_size,
            description: (match &self.description {
                Some(d) => Some(d.clone()),
                None => None,
            }),
        };
        proof {
            assert(r == *self);
        }
        r
    }
}

impl PartialEq for SignalInfo {
    fn eq(&self, other: &SignalInfo) -> (r: bool) {
        self.file_name == other.file_name && self.format == other.format
            && self.samples_per_frame == other.samples_per_frame && self.skew == other.skew
            && self.byte_offset == other.byte_offset && self.adc_gain == other.adc_gain
            && self.baseline == other.baseline && self.units == other.units
            && self.adc_resolution == other.adc_resolution && self.adc_zero == other.adc_zero
            && self.initial_value == other.initial_value && self.checksum == other.checksum
            && self.block_size == other.block_size && self.description == other.description
    }
}

impl vstd::std_specs::cmp::PartialEqSpecImpl for SignalInfo {
    open spec fn obeys_eq_spec() -> bool {
        false
    }

    open spec fn eq_spec(&self, other: &SignalInfo) -> bool {
        true
    }
}

/// Parses the format field, per `spec_format_field`.
fn parse_format_field(tok: &str) -> (r: Option<
    (SignalFormat, Option<u32>, Option<u32>, Option<u64>),
>)
    ensures
        match r {
            Some((f, spf, skew, off)) => spec_format_field(tok@) == Some(
                FormatFieldSpec { format: f, samples_per_frame: spf, skew, byte_offset: off },
            ),
            None => spec_format_field(tok@) is None,
        },
{
    broadcast use lemma_digits_val_nonneg;

    let n = tok.unicode_len();
    let plus = find_char(tok, '+');
    proof {
        lemma_spec_find(tok@, '+');
    }
    let byte_offset: Option<u64> = if plus < n {
        let off_tok = tok.substring_char(plus + 1, n);
        proof {
            assert(off_tok@ =~= tok@.skip(plus as int + 1));
        }
        match parse_u64(off_tok) {
            Some(v) => Some(v),
            None => {
                return None;
            },
        }
    } else {
        None
    };
    let rest1 = tok.substring_char(0, plus);
    proof {
        assert(rest1@ =~= tok@.take(plus as int));
        lemma_spec_find(rest1@, ':');
    }
    let r1_len = rest1.unicode_len();
    let colon = find_char(rest1, ':');
    let skew: Option<u32> = if colon < r1_len {
        let skew_tok = rest1.substring_char(colon + 1, r1_len);
        proof {
            assert(skew_tok@ =~= rest1@.skip(colon as int + 1));
        }
        match parse_u32(skew_tok) {
            Some(v) => Some(v),
            None => {
                return None;
            },
        }
    } else {
        None
    };
    let rest2 = rest1.substring_char(0, colon);
    proof {
        assert(rest2@ =~= rest1@.take(colon as int));
        lemma_spec_find(rest2@, 'x');
    }
    let r2_len = rest2.unicode_len();
    let xpos = find_char(rest2, 'x');
    let spf: Option<u32> = if xpos < r2_len {
        let spf_tok = rest2.substring_char(xpos + 1, r2_len);
        proof {
            assert(spf_tok@ =~= rest2@.skip(xpos as int + 1));
        }
        match parse_u32(spf_tok) {
            Some(v) => {
                if v == 0 {
                    return None;
                }
                Some(v)
            },
            None => {
                return None;
            },
        }
    } else {
        None
    };
    let code_tok = rest2.substring_char(0, xpos);
    proof {
        assert(code_tok@ =~= rest2@.take(xpos as int));
    }
    let code = match parse_u16(code_tok) {
        Some(c) => c,
        None => {
            return None;
        },
    };
    match SignalFormat::from_code(code) {
        Ok(f) => Some((f, spf, skew, byte_offset)),
        Err(_) => None,
    }
}

/// Parses the gain field, per `spec_gain_field`.
fn parse_gain_field(tok: &str) -> (r: Option<(Decimal, Option<i32>, Option<String>)>)
    ensures
        match r {
            Some((g, b, u)) => spec_gain_field(tok@) == Some(
                (
                    g.spec_pair(),
                    match b {
                        Some(v) => Some(v as int),
                        None => None,
                    },
                    match u {
                        Some(ref s) => Some(s@),
                        None => None,
                    },
                ),
            ),
            None => spec_gain_field(tok@) is None,
        },
{
    broadcast use lemma_digits_val_nonneg;

    let n = tok.unicode_len();
    let sl = find_char(tok, '/');
    proof {
        lemma_spec_find(tok@, '/');
    }
    let units: Option<String> = if sl < n {
        if sl + 1 == n {
            return None;
        }
        let u = tok.substring_char(sl + 1, n);
        proof {
            assert(u@ =~= tok@.skip(sl as int + 1));
        }
        Some(u.to_owned())
    } else {
        None
    };
    let gpart = tok.substring_char(0, sl);
    proof {
        assert(gpart@ =~= tok@.take(sl as int));
        lemma_spec_find(gpart@, '(');
        lemma_spec_find(gpart@, ')');
    }
    let gp_len = gpart.unicode_len();
    let ps = find_char(gpart, '(');
    let baseline: Option<i32> = if ps < gp_len {
        let pe = find_char(gpart, ')');
        if pe >= gp_len || pe < ps {
            return None;
        }
        let b_tok = gpart.substring_char(ps + 1, pe);
        proof {
            assert(b_tok@ =~= gpart@.subrange(ps as int + 1, pe as int));
        }
        match parse_i32(b_tok) {
            Some(b) => Some(b),
            None => {
                return None;
            },
        }
    } else {
        None
    };
    let gtok = gpart.substring_char(0, ps);
    proof {
        assert(gtok@ =~= gpart@.take(ps as int));
    }
    if gtok.unicode_len() == 0 {
        return None;
    }
    match Decimal::parse(gtok) {
        Some(g) => {
            if g.is_positive() {
                Some((g, baseline, units))
            } else {
                None
            }
        },
        None => None,
    }
}

/// Joins `toks[from..]` with single spaces.
fn join_tokens(toks: &Vec<String>, from: usize) -> (r: String)
    requires
        from < toks.len(),
    ensures
        r@ == spec_join(toks@.map_values(|t: String| t@).skip(from as int)),
{
    let ghost tv = toks@.map_values(|t: String| t@);
    let mut acc: String = toks[from].clone();
    let mut k: usize = from + 1;
    proof {
        assert(tv.subrange(from as int, k as int) =~= seq![tv[from as int]]);
        assert(spec_join(tv.subrange(from as int, k as int)) == tv[from as int]);
    }
    while k < toks.len()
        invariant
            from < k <= toks.len(),
            tv == toks@.map_values(|t: String| t@),
            tv.len() == toks.len(),
            acc@ == spec_join(tv.subrange(from as int, k as int)),
        decreases toks.len() - k,
    {
        proof {
            reveal_strlit(" ");
            assert(" "@ =~= seq![' ']);
        }
        acc.append(" ");
        acc.append(toks[k].as_str());
        proof {
            let sub2 = tv.subrange(from as int, k as int + 1);
            assert(sub2.drop_last() =~= tv.subrange(from as int, k as int));
            assert(sub2.last() == tv[k as int]);
            assert(sub2.len() >= 2);
            assert(acc@ =~= spec_join(sub2.drop_last()) + seq![' '] + sub2.last());
        }
        k = k + 1;
    }
    proof {
        assert(tv.subrange(from as int, toks.len() as int) =~= tv.skip(from as int));
    }
    acc
}

impl SignalInfo {
    /// Builds signal information from one signal specification line.
    ///
    /// Returns `Ok` exactly when the line is well-formed per the signal-line
    /// grammar; the fields then carry the parsed values. Every malformed
    /// line yields `Error::InvalidHeader`.
    #[verifier::rlimit(100)]
    pub fn from_signal_line(line: &str) -> (r: Result<SignalInfo, Error>)
        ensures
            match r {
                Ok(si) => spec_signal_line(line@) == Some(signal_fields(&si)),
                Err(e) => spec_signal_line(line@) is None && e is InvalidHeader,
            },
    {
        broadcast use lemma_digits_val_nonneg;

        let toks = tokenize(line);
        let ghost tv = spec_tokens(line@);
        if toks.len() < 2 {
            return Err(Error::InvalidHeader(String::from_str("Missing file name or format field")));
        }
        let file_name = toks[0].clone();
        let (format, samples_per_frame, skew, byte_offset) = match parse_format_field(
            toks[1].as_str(),
        ) {
            Some(t) => t,
            None => {
                let mut m = String::from_str("Invalid format field: ");
                m.append(toks[1].as_str());
                return Err(Error::InvalidHeader(m));
            },
        };
        let mut adc_gain: Option<Decimal> = None;
        let mut baseline: Option<i32> = None;
        let mut units: Option<String> = None;
        let mut adc_resolution: Option<u8> = None;
        let mut adc_zero: Option<i32> = None;
        let mut initial_value: Option<i32> = None;
        let mut checksum: Option<i16> = None;
        let mut block_size: Option<i32> = None;
        let mut description: Option<String> = None;
        let mut state: u8 = 0;
        let mut i: usize = 2;
        let ghost opt0 = spec_sig_opt_fields(tv, 2, 0, spec_sig_opt_empty());
        while i < toks.len()
            invariant_except_break
                state == 0 || state == 1 || state == 2 || state == 3 || state == 4 || state == 5,
                description is None,
                spec_sig_opt_fields(
                    tv,
                    i as int,
                    state as int,
                    SignalOptSpec {
                        gain: (match adc_gain {
                            Some(d) => Some(d.spec_pair()),
                            None => None,
                        }),
                        baseline: (match baseline {
                            Some(v) => Some(v as int),
                            None => None,
                        }),
                        units: (match units {
                            Some(ref u) => Some(u@),
                            None => None,
                        }),
                        resolution: (match adc_resolution {
                            Some(v) => Some(v as int),
                            None => None,
                        }),
                        zero: (match adc_zero {
                            Some(v) => Some(v as int),
                            None => None,
                        }),
                        initial: (match initial_value {
                            Some(v) => Some(v as int),
                            None => None,
                        }),
                        checksum: (match checksum {
                            Some(v) => Some(v as int),
                            None => None,
                        }),
                        block: (match block_size {
                            Some(v) => Some(v as int),
                            None => None,
                        }),
                        desc: None,
                    },
                ) == opt0,
            invariant
                2 <= i <= toks.len(),
                toks.len() == tv.len(),
                forall|k: int| 0 <= k < toks.len() ==> toks@[k]@ == tv[k],
                tv == spec_tokens(line@),
                opt0 == spec_sig_opt_fields(tv, 2, 0, spec_sig_opt_empty()),
            ensures
                2 <= i <= toks.len(),
                toks.len() == tv.len(),
                opt0 == Some(
                    SignalOptSpec {
                        gain: (match adc_gain {
                            Some(d) => Some(d.spec_pair()),
                            None => None,
                        }),
                        baseline: (match baseline {
                            Some(v) => Some(v as int),
                            None => None,
                        }),
                        units: (match units {
                            Some(ref u) => Some(u@),
                            None => None,
                        }),
                        resolution: (match adc_resolution {
                            Some(v) => Some(v as int),
                            None => None,
                        }),
                        zero: (match adc_zero {
                            Some(v) => Some(v as int),
                            None => None,
                        }),
                        initial: (match initial_value {
                            Some(v) => Some(v as int),
                            None => None,
                        }),
                        checksum: (match checksum {
                            Some(v) => Some(v as int),
                            None => None,
                        }),
                        block: (match block_size {
                            Some(v) => Some(v as int),
                            None => None,
                        }),
                        desc: (match description {
                            Some(ref d) => Some(d@),
                            None => None,
                        }),
                    },
                ),
            decreases toks.len() - i,
        {
            broadcast use lemma_digits_val_nonneg;

            let tok = &toks[i];
            if state == 0 {
                // Try a gain field; a non-positive integer is a block size;
                // anything else starts the description.
                let n = tok.as_str().unicode_len();
                let has_slash_or_paren = {
                    proof {
                        lemma_spec_find(tok@, '/');
                        lemma_spec_find(tok@, '(');
                    }
                    find_char(tok.as_str(), '/') < n || find_char(tok.as_str(), '(') < n
                };
                if has_slash_or_paren {
                    match parse_gain_field(tok.as_str()) {
                        Some((g, b, u)) => {
                            adc_gain = Some(g);
                            baseline = b;
                            units = u;
                            state = 1;
                        },
                        None => {
                            proof {
                                assert(toks@.map_values(|t: String| t@) =~= tv);
                            }
                            description = Some(join_tokens(&toks, i));
                            break;
                        },
                    }
                } else {
                    let dec = Decimal::parse(tok.as_str());
                    match dec {
                        Some(d) if d.is_positive() => {
                            match parse_gain_field(tok.as_str()) {
                                Some((g, b, u)) => {
                                    adc_gain = Some(g);
                                    baseline = b;
                                    units = u;
                                    state = 1;
                                },
                                None => {
                                    proof {
                                        assert(toks@.map_values(|t: String| t@) =~= tv);
                                    }
                                    description = Some(join_tokens(&toks, i));
                                    break;
                                },
                            }
                        },
                        _ => {
                            match parse_i32(tok.as_str()) {
                                Some(v) => {
                                    block_size = Some(v);
                                    state = 6;
                                    // The block size ends the numeric slots;
                                    // anything further is the description.
                                    if i + 1 < toks.len() {
                                        proof {
                                            assert(toks@.map_values(|t: String| t@) =~= tv);
                                        }
                                        description = Some(join_tokens(&toks, i + 1));
                                        proof {
                                            assert(spec_sig_opt_fields(
                                                tv,
                                                i as int + 1,
                                                6,
                                                SignalOptSpec {
                                                    block: Some(v as int),
                                                    gain: (match adc_gain {
                                                        Some(d) => Some(d.spec_pair()),
                                                        None => None,
                                                    }),
                                                    baseline: (match baseline {
                                                        Some(bv) => Some(bv as int),
                                                        None => None,
                                                    }),
                                                    units: (match units {
                                                        Some(ref u) => Some(u@),
                                                        None => None,
                                                    }),
                                                    resolution: (match adc_resolution {
                                                        Some(rv) => Some(rv as int),
                                                        None => None,
                                                    }),
                                                    zero: (match adc_zero {
                                                        Some(zv) => Some(zv as int),
                                                        None => None,
                                                    }),
                                                    initial: (match initial_value {
                                                        Some(iv) => Some(iv as int),
                                                        None => None,
                                                    }),
                                                    checksum: (match checksum {
                                                        Some(cv) => Some(cv as int),
                                                        None => None,
                                                    }),
                                                    desc: None,
                                                },
                                            ) == opt0);
                                        }
                                        i = i + 1;
                                        break;
                                    }
                                    i = i + 1;
                                    break;
                                },
                                None => {
                                    proof {
                                        assert(toks@.map_values(|t: String| t@) =~= tv);
                                    }
                                    description = Some(join_tokens(&toks, i));
                                    break;
                                },
                            }
                        },
                    }
                }
            } else if state == 1 {
                match parse_u8(tok.as_str()) {
                    Some(v) => {
                        adc_resolution = Some(v);
                        state = 2;
                    },
                    None => {
                        let mut m = String::from_str("Expected ADC resolution after gain, found '");
                        m.append(tok.as_str());
                        m.append("'");
                        return Err(Error::InvalidHeader(m));
                    },
                }
            } else if state == 2 {
                match parse_i32(tok.as_str()) {
                    Some(v) => {
                        adc_zero = Some(v);
                        state = 3;
                    },
                    None => {
                        let mut m = String::from_str(
                            "Expected ADC zero after resolution, found '",
                        );
                        m.append(tok.as_str());
                        m.append("'");
                        return Err(Error::InvalidHeader(m));
                    },
                }
            } else if state == 3 {
                match parse_i32(tok.as_str()) {
                    Some(v) => {
                        initial_value = Some(v);
                        state = 4;
                    },
                    None => {
                        let mut m = String::from_str(
                            "Expected initial value after ADC zero, found '",
                        );
                        m.append(tok.as_str());
                        m.append("'");
                        return Err(Error::InvalidHeader(m));
                    },
                }
            } else if state == 4 {
                match parse_i16(tok.as_str()) {
                    Some(v) => {
                        checksum = Some(v);
                        state = 5;
                    },
                    None => {
                        let mut m = String::from_str(
                            "Expected checksum after initial value, found '",
                        );
                        m.append(tok.as_str());
                        m.append("'");
                        return Err(Error::InvalidHeader(m));
                    },
                }
            } else {
                match parse_i32(tok.as_str()) {
                    Some(v) => {
                        block_size = Some(v);
                        // The block size ends the numeric slots; anything
                        // further is the description.
                        if i + 1 < toks.len() {
                            proof {
                                assert(toks@.map_values(|t: String| t@) =~= tv);
                            }
                            description = Some(join_tokens(&toks, i + 1));
                            proof {
                                assert(spec_sig_opt_fields(
                                    tv,
                                    i as int + 1,
                                    6,
                                    SignalOptSpec {
                                        block: Some(v as int),
                                        gain: (match adc_gain {
                                            Some(d) => Some(d.spec_pair()),
                                            None => None,
                                        }),
                                        baseline: (match baseline {
                                            Some(bv) => Some(bv as int),
                                            None => None,
                                        }),
                                        units: (match units {
                                            Some(ref u) => Some(u@),
                                            None => None,
                                        }),
                                        resolution: (match adc_resolution {
                                            Some(rv) => Some(rv as int),
                                            None => None,
                                        }),
                                        zero: (match adc_zero {
                                            Some(zv) => Some(zv as int),
                                            None => None,
                                        }),
                                        initial: (match initial_value {
                                            Some(iv) => Some(iv as int),
                                            None => None,
                                        }),
                                        checksum: (match checksum {
                                            Some(cv) => Some(cv as int),
                                            None => None,
                                        }),
                                        desc: None,
                                    },
                                ) == opt0);
                            }
                            i = i + 1;
                            break;
                        }
                        i = i + 1;
                        break;
                    },
                    None => {
                        let mut m = String::from_str("Expected block size after checksum, found '");
                        m.append(tok.as_str());
                        m.append("'");
                        return Err(Error::InvalidHeader(m));
                    },
                }
            }
            i = i + 1;
        }
        Ok(
            SignalInfo {
                file_name,
                format,
                samples_per_frame,
                skew,
                byte_offset,
                adc_gain,
                baseline,
                units,
                adc_resolution,
                adc_zero,
                initial_value,
                checksum,
                block_size,
                description,
            },
        )
    }
}

impl SignalInfo {
    /// The file name of the signal.
    pub fn file_name(&self) -> (r: &str)
        ensures
            r@ == self.file_name@,
    {
        self.file_name.as_str()
    }

    /// The signal's format.
    pub fn format(&self) -> (r: SignalFormat)
        ensures
            r == self.format,
    {
        self.format
    }

    /// Samples per frame, defaulting to 1.
    pub fn samples_per_frame(&self) -> (r: u32)
        ensures
            r as int == (match self.samples_per_frame {
                Some(v) => v as int,
                None => 1int,
            }),
    {
        match self.samples_per_frame {
            Some(v) => v,
            None => 1,
        }
    }

    /// The skew, defaulting to 0.
    pub fn skew(&self) -> (r: u32)
        ensures
            r as int == (match self.skew {
                Some(v) => v as int,
                None => 0int,
            }),
    {
        match self.skew {
            Some(v) => v,
            None => 0,
        }
    }

    /// The byte offset, defaulting to 0.
    pub fn byte_offset(&self) -> (r: u64)
        ensures
            r as int == (match self.byte_offset {
                Some(v) => v as int,
                None => 0int,
            }),
    {
        match self.byte_offset {
            Some(v) => v,
            None => 0,
        }
    }

    /// The ADC gain, defaulting to 200.
    pub fn adc_gain(&self) -> (r: crate::header::decimal::Decimal)
        ensures
            self.adc_gain matches Some(g) ==> r == g,
            self.adc_gain is None ==> r.spec_pair() == (200int, 0int),
    {
        match &self.adc_gain {
            Some(g) => *g,
            None => crate::header::decimal::Decimal::new(200, 0),
        }
    }

    /// The baseline, defaulting to the ADC zero.
    pub fn baseline(&self) -> (r: i32)
        ensures
            r as int == (match self.baseline {
                Some(b) => b as int,
                None => (match self.adc_zero {
                    Some(z) => z as int,
                    None => 0int,
                }),
            }),
    {
        match self.baseline {
            Some(b) => b,
            None => self.adc_zero(),
        }
    }

    /// The physical units, defaulting to millivolts.
    pub fn units(&self) -> (r: &str)
        ensures
            self.units matches Some(u) ==> r@ == u@,
            self.units is None ==> r@ =~= seq!['m', 'V'],
    {
        match &self.units {
            Some(u) => u.as_str(),
            None => {
                let d = "mV";
                proof {
                    reveal_strlit("mV");
                    assert(d@ =~= seq!['m', 'V']);
                }
                d
            },
        }
    }

    /// The ADC resolution, defaulting to 12 bits for amplitude formats and
    /// 10 bits for the differential format.
    pub fn adc_resolution(&self) -> (r: u8)
        ensures
            r as int == (match self.adc_resolution {
                Some(v) => v as int,
                None => (if self.format is Format8 {
                    10int
                } else {
                    12int
                }),
            }),
    {
        match self.adc_resolution {
            Some(v) => v,
            None => {
                if self.format.code() == 8 {
                    10
                } else {
                    12
                }
            },
        }
    }

    /// The ADC zero, defaulting to 0.
    pub fn adc_zero(&self) -> (r: i32)
        ensures
            r as int == (match self.adc_zero {
                Some(z) => z as int,
                None => 0int,
            }),
    {
        match self.adc_zero {
            Some(z) => z,
            None => 0,
        }
    }

    /// The initial value, defaulting to the ADC zero.
    pub fn initial_value(&self) -> (r: i32)
        ensures
            r as int == (match self.initial_value {
                Some(v) => v as int,
                None => (match self.adc_zero {
                    Some(z) => z as int,
                    None => 0int,
                }),
            }),
    {
        match self.initial_value {
            Some(v) => v,
            None => self.adc_zero(),
        }
    }

    /// The checksum, when declared.
    pub fn checksum(&self) -> (r: Option<i16>)
        ensures
            r == self.checksum,
    {
        self.checksum
    }

    /// The block size, defaulting to 0.
    pub fn block_size(&self) -> (r: i32)
        ensures
            r as int == (match self.block_size {
                Some(v) => v as int,
                None => 0int,
            }),
    {
        match self.block_size {
            Some(v) => v,
            None => 0,
        }
    }

    /// The description, when declared.
    pub fn description(&self) -> (r: Option<&str>)
        ensures
            self.description matches Some(d) ==> (r matches Some(s) && s@ == d@),
            self.description is None <==> r is None,
    {
        match &self.description {
            Some(d) => Some(d.as_str()),
            None => None,
        }
    }
}

} // verus!
