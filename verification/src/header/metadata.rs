//! The record line of a header: record name with an optional segment count,
//! the number of signals, and four individually omissible fields (sampling
//! frequency with optional counter frequency and base counter, total sample
//! count, base time, base date), classified by shape.

use vstd::prelude::*;

use crate::Error;
use crate::header::decimal::{Decimal, spec_parse_decimal};
use crate::header::text::{spec_tokens, spec_find, spec_count, spec_is_name, spec_parse_uint,
    spec_parse_u64, contains_char, tokenize, find_char, count_char, check_name, parse_usize,
    parse_u64, lemma_spec_find};
use crate::header::timedate::{BaseTime, BaseDate, spec_parse_time, spec_parse_date,
    parse_base_time, parse_base_date};

verus! {

/// The spec-level content of a record line.
pub ghost struct RecordFields {
    /// The record name.
    pub name: Seq<char>,
    /// The number of segments, when the name carries `/segments`.
    pub num_segments: Option<int>,
    /// The number of signals.
    pub num_signals: int,
    /// The sampling frequency, as a canonical decimal pair.
    pub sampling_frequency: Option<(int, int)>,
    /// The counter frequency, kept only when positive.
    pub counter_frequency: Option<(int, int)>,
    /// The base counter value.
    pub base_counter: Option<(int, int)>,
    /// The total number of samples per signal.
    pub num_samples: Option<u64>,
    /// The base time, as (hour, minute, second).
    pub base_time: Option<(int, int, int)>,
    /// The base date, as (day, month, year).
    pub base_date: Option<(int, int, int)>,
}

/// The spec-level content of the optional record-line fields.
pub ghost struct OptionalSpec {
    /// The sampling frequency as parsed.
    pub freq: Option<(int, int)>,
    /// The counter frequency as parsed.
    pub counter: Option<(int, int)>,
    /// The base counter as parsed.
    pub base: Option<(int, int)>,
    /// The total sample count.
    pub nsamp: Option<u64>,
    /// The base time.
    pub time: Option<(int, int, int)>,
    /// The base date.
    pub date: Option<(int, int, int)>,
}

/// The first record-line token: `name[/segments]`. The name must be
/// non-empty with only letters, digits and underscores; the segment count,
/// when present, an unsigned integer.
pub open spec fn spec_record_name(tok: Seq<char>) -> Option<(Seq<char>, Option<int>)> {
    let sl = spec_find(tok, '/');
    let name = tok.take(sl);
    if !spec_is_name(name) {
        None
    } else if sl < tok.len() {
        match spec_parse_uint(tok.skip(sl + 1)) {
            Some(v) => if v <= usize::MAX {
                Some((name, Some(v)))
            } else {
                None
            },
            None => None,
        }
    } else {
        Some((name, None))
    }
}

/// Field kinds of the optional record-line tokens.
pub open spec fn spec_classify(tok: Seq<char>, state: int) -> Option<int> {
    if contains_char(tok, ':') {
        if state >= 3 {
            None
        } else {
            Some(2int)
        }
    } else if spec_count(tok, '/') == 2 {
        if state >= 4 {
            None
        } else {
            Some(3int)
        }
    } else if contains_char(tok, '/') || contains_char(tok, '(') {
        if state >= 1 {
            None
        } else {
            Some(0int)
        }
    } else if state == 0 {
        Some(0int)
    } else if state == 1 {
        Some(1int)
    } else {
        None
    }
}

/// The counter part of a frequency field: `counter[(base)]`.
pub open spec fn spec_counter_field(ct: Seq<char>) -> Option<((int, int), Option<(int, int)>)> {
    let ps = spec_find(ct, '(');
    if ps < ct.len() {
        let pe = spec_find(ct, ')');
        if pe >= ct.len() || pe < ps {
            None
        } else {
            match (spec_parse_decimal(ct.take(ps)), spec_parse_decimal(ct.subrange(ps + 1, pe))) {
                (Some(c), Some(b)) => Some((c, Some(b))),
                _ => None,
            }
        }
    } else {
        match spec_parse_decimal(ct) {
            Some(c) => Some((c, None)),
            None => None,
        }
    }
}

/// A frequency field: `samp[/counter[(base)]]`.
pub open spec fn spec_frequency_field(tok: Seq<char>) -> Option<
    ((int, int), Option<(int, int)>, Option<(int, int)>),
> {
    let sl = spec_find(tok, '/');
    match spec_parse_decimal(tok.take(sl)) {
        None => None,
        Some(samp) => {
            if sl < tok.len() {
                match spec_counter_field(tok.skip(sl + 1)) {
                    Some((c, b)) => Some((samp, Some(c), b)),
                    None => None,
                }
            } else {
                Some((samp, None, None))
            }
        },
    }
}

/// The optional fields of a record line, consumed left to right with the
/// state machine over the fixed order (frequency, samples, time, date).
pub open spec fn spec_opt_fields(
    toks: Seq<Seq<char>>,
    i: int,
    state: int,
    acc: OptionalSpec,
) -> Option<OptionalSpec>
    decreases toks.len() - i,
{
    if i >= toks.len() {
        Some(acc)
    } else {
        match spec_classify(toks[i], state) {
            None => None,
            Some(kind) => {
                if kind == 0 {
                    match spec_frequency_field(toks[i]) {
                        None => None,
                        Some((f, c, b)) => spec_opt_fields(
                            toks,
                            i + 1,
                            1,
                            OptionalSpec { freq: Some(f), counter: c, base: b, ..acc },
                        ),
                    }
                } else if kind == 1 {
                    match spec_parse_u64(toks[i]) {
                        None => None,
                        Some(v) => spec_opt_fields(
                            toks,
                            i + 1,
                            2,
                            OptionalSpec { nsamp: Some(v), ..acc },
                        ),
                    }
                } else if kind == 2 {
                    match spec_parse_time(toks[i]) {
                        None => None,
                        Some(t) => spec_opt_fields(
                            toks,
                            i + 1,
                            3,
                            OptionalSpec { time: Some(t), ..acc },
                        ),
                    }
                } else {
                    match spec_parse_date(toks[i]) {
                        None => None,
                        Some(d) => spec_opt_fields(
                            toks,
                            i + 1,
                            4,
                            OptionalSpec { date: Some(d), ..acc },
                        ),
                    }
                }
            },
        }
    }
}

/// The empty optional-field accumulator.
pub open spec fn spec_opt_empty() -> OptionalSpec {
    OptionalSpec { freq: None, counter: None, base: None, nsamp: None, time: None, date: None }
}

/// The content of a whole record line: name and segment count, a positive
/// signal count, then the optional fields, validated: the segment count must
/// be positive when present, the sampling frequency positive when present,
/// and a non-positive counter frequency is treated as absent.
pub open spec fn spec_record_line(line: Seq<char>) -> Option<RecordFields> {
    let toks = spec_tokens(line);
    if toks.len() < 2 {
        None
    } else {
        match spec_record_name(toks[0]) {
            None => None,
            Some((name, segs)) => {
                match spec_parse_uint(toks[1]) {
                    None => None,
                    Some(nsig) => {
                        if nsig > usize::MAX {
                            None
                        } else {
                            match spec_opt_fields(toks, 2, 0, spec_opt_empty()) {
                                None => None,
                                Some(opt) => {
                                    if nsig < 1 {
                                        None
                                    } else if segs matches Some(k) && k < 1 {
                                        None
                                    } else if opt.freq matches Some(f) && f.0 <= 0 {
                                        None
                                    } else {
                                        Some(
                                            RecordFields {
                                                name,
                                                num_segments: segs,
                                                num_signals: nsig,
                                                sampling_frequency: opt.freq,
                                                counter_frequency: (if opt.counter matches Some(c)
                                                    && c.0 > 0 {
                                                    opt.counter
                                                } else {
                                                    None
                                                }),
                                                base_counter: opt.base,
                                                num_samples: opt.nsamp,
                                                base_time: opt.time,
                                                base_date: opt.date,
                                            },
                                        )
                                    }
                                },
                            }
                        }
                    },
                }
            },
        }
    }
}

/// Metadata from the record line of a header.
#[derive(Debug, Clone)]
pub struct Metadata {
    /// Identifier for the record: letters, digits and underscores only.
    pub name: String,
    /// When present, the record is multi-segment with this many segments.
    pub num_segments: Option<usize>,
    /// Number of signals described in the header.
    pub num_signals: usize,
    /// Samples per second per signal; 250 applies when absent.
    pub sampling_frequency: Option<Decimal>,
    /// Frequency of the secondary counter clock; kept only when positive.
    pub counter_frequency: Option<Decimal>,
    /// Offset value for the counter.
    pub base_counter: Option<Decimal>,
    /// Total samples per signal.
    pub num_samples: Option<u64>,
    /// Start time of the recording.
    pub base_time: Option<BaseTime>,
    /// Start date of the recording.
    pub base_date: Option<BaseDate>,
}

/// The spec-level content of a metadata value.
pub open spec fn metadata_fields(m: &Metadata) -> RecordFields {
    RecordFields {
        name: m.name@,
        num_segments: (match m.num_segments {
            Some(k) => Some(k as int),
            None => None,
        }),
        num_signals: m.num_signals as int,
        sampling_frequency: (match m.sampling_frequency {
            Some(d) => Some(d.spec_pair()),
            None => None,
        }),
        counter_frequency: (match m.counter_frequency {
            Some(d) => Some(d.spec_pair()),
            None => None,
        }),
        base_counter: (match m.base_counter {
            Some(d) => Some(d.spec_pair()),
            None => None,
        }),
        num_samples: m.num_samples,
        base_time: (match m.base_time {
            Some(t) => Some((t.hour as int, t.minute as int, t.second as int)),
            None => None,
        }),
        base_date: (match m.base_date {
            Some(d) => Some((d.day as int, d.month as int, d.year as int)),
            None => None,
        }),
    }
}

impl PartialEq for Metadata {
    fn eq(&self, other: &Metadata) -> (r: bool) {
        self.name == other.name && self.num_segments == other.num_segments && self.num_signals
            == other.num_signals && self.sampling_frequency == other.sampling_frequency
            && self.counter_frequency == other.counter_frequency && self.base_counter
            == other.base_counter && self.num_samples == other.num_samples && self.base_time
            == other.base_time && self.base_date == other.base_date
    }
}

impl vstd::std_specs::cmp::PartialEqSpecImpl for Metadata {
    open spec fn obeys_eq_spec() -> bool {
        false
    }

    open spec fn eq_spec(&self, other: &Metadata) -> bool {
        true
    }
}

/// Parses the counter part of a frequency field, per `spec_counter_field`.
fn parse_counter_field(ct: &str) -> (r: Option<(Decimal, Option<Decimal>)>)
    ensures
        match r {
            Some((c, b)) => spec_counter_field(ct@) == Some(
                (
                    c.spec_pair(),
                    match b {
                        Some(bd) => Some(bd.spec_pair()),
                        None => None,
                    },
                ),
            ),
            None => spec_counter_field(ct@) is None,
        },
{
    let n = ct.unicode_len();
    let ps = find_char(ct, '(');
    proof {
        lemma_spec_find(ct@, '(');
        lemma_spec_find(ct@, ')');
    }
    if ps < n {
        let pe = find_char(ct, ')');
        if pe >= n || pe < ps {
            return None;
        }
        let c_tok = ct.substring_char(0, ps);
        let b_tok = ct.substring_char(ps + 1, pe);
        proof {
            assert(c_tok@ =~= ct@.take(ps as int));
            assert(b_tok@ =~= ct@.subrange(ps as int + 1, pe as int));
        }
        match (Decimal::parse(c_tok), Decimal::parse(b_tok)) {
            (Some(c), Some(b)) => Some((c, Some(b))),
            _ => None,
        }
    } else {
        match Decimal::parse(ct) {
            Some(c) => Some((c, None)),
            None => None,
        }
    }
}

/// Parses a frequency field, per `spec_frequency_field`.
fn parse_frequency_field(tok: &str) -> (r: Option<(Decimal, Option<Decimal>, Option<Decimal>)>)
    ensures
        match r {
            Some((f, c, b)) => spec_frequency_field(tok@) == Some(
                (
                    f.spec_pair(),
                    match c {
                        Some(cd) => Some(cd.spec_pair()),
                        None => None,
                    },
                    match b {
                        Some(bd) => Some(bd.spec_pair()),
                        None => None,
                    },
                ),
            ),
            None => spec_frequency_field(tok@) is None,
        },
{
    let n = tok.unicode_len();
    let sl = find_char(tok, '/');
    proof {
        lemma_spec_find(tok@, '/');
    }
    let samp_tok = tok.substring_char(0, sl);
    proof {
        assert(samp_tok@ =~= tok@.take(sl as int));
    }
    let samp = match Decimal::parse(samp_tok) {
        Some(d) => d,
        None => {
            return None;
        },
    };
    if sl < n {
        let ct = tok.substring_char(sl + 1, n);
        proof {
            assert(ct@ =~= tok@.skip(sl as int + 1));
        }
        match parse_counter_field(ct) {
            Some((c, b)) => Some((samp, Some(c), b)),
            None => None,
        }
    } else {
        Some((samp, None, None))
    }
}

/// Classifies an optional record-line token, per `spec_classify`.
fn classify(tok: &str, state: u8) -> (r: Option<u8>)
    ensures
        match r {
            Some(k) => spec_classify(tok@, state as int) == Some(k as int),
            None => spec_classify(tok@, state as int) is None,
        },
{
    proof {
        lemma_spec_find(tok@, ':');
        lemma_spec_find(tok@, '/');
        lemma_spec_find(tok@, '(');
    }
    let n = tok.unicode_len();
    if find_char(tok, ':') < n {
        if state >= 3 {
            None
        } else {
            Some(2)
        }
    } else if count_char(tok, '/') == 2 {
        if state >= 4 {
            None
        } else {
            Some(3)
        }
    } else if find_char(tok, '/') < n || find_char(tok, '(') < n {
        if state >= 1 {
            None
        } else {
            Some(0)
        }
    } else if state == 0 {
        Some(0)
    } else if state == 1 {
        Some(1)
    } else {
        None
    }
}

impl Metadata {
    /// Builds the metadata from the record line of a header.
    ///
    /// Returns `Ok` exactly when the line is well-formed per the record-line
    /// grammar and its validation rules; the fields then carry the parsed
    /// values. Every malformed line yields `Error::InvalidHeader`.
    pub fn from_record_line(line: &str) -> (r: Result<Metadata, Error>)
        ensures
            match r {
                Ok(m) => spec_record_line(line@) == Some(metadata_fields(&m)),
                Err(e) => spec_record_line(line@) is None && e is InvalidHeader,
            },
    {
        let toks = tokenize(line);
        let ghost tv = spec_tokens(line@);
        if toks.len() < 2 {
            return Err(
                Error::InvalidHeader(String::from_str("Missing record name or signal count")),
            );
        }
        // First token: record name, optionally with a segment count.
        let tok0 = &toks[0];
        let t0_len = tok0.as_str().unicode_len();
        let sl = find_char(tok0.as_str(), '/');
        proof {
            lemma_spec_find(tok0@, '/');
        }
        let name_part = tok0.as_str().substring_char(0, sl);
        proof {
            assert(name_part@ =~= tok0@.take(sl as int));
        }
        if !check_name(name_part) {
            let mut m = String::from_str("Record name '");
            m.append(name_part);
            m.append("' contains invalid characters, expected letters, digits, and underscores");
            return Err(Error::InvalidHeader(m));
        }
        let num_segments: Option<usize> = if sl < t0_len {
            let seg_tok = tok0.as_str().substring_char(sl + 1, t0_len);
            proof {
                assert(seg_tok@ =~= tok0@.skip(sl as int + 1));
            }
            match parse_usize(seg_tok) {
                Some(v) => Some(v),
                None => {
                    let mut m = String::from_str("Invalid number of segments: ");
                    m.append(seg_tok);
                    return Err(Error::InvalidHeader(m));
                },
            }
        } else {
            None
        };
        // Second token: number of signals.
        let num_signals = match parse_usize(toks[1].as_str()) {
            Some(v) => v,
            None => {
                let mut m = String::from_str("Invalid number of signals: ");
                m.append(toks[1].as_str());
                return Err(Error::InvalidHeader(m));
            },
        };
        // Remaining tokens: the optional fields, in their fixed order.
        let mut sampling_frequency: Option<Decimal> = None;
        let mut counter_frequency: Option<Decimal> = None;
        let mut base_counter: Option<Decimal> = None;
        let mut num_samples: Option<u64> = None;
        let mut base_time: Option<BaseTime> = None;
        let mut base_date: Option<BaseDate> = None;
        let mut state: u8 = 0;
        let mut i: usize = 2;
        let ghost opt0 = spec_opt_fields(tv, 2, 0, spec_opt_empty());
        while i < toks.len()
            invariant
                2 <= i <= toks.len(),
                state <= 4,
                toks.len() == tv.len(),
                forall|k: int| 0 <= k < toks.len() ==> toks@[k]@ == tv[k],
                tv == spec_tokens(line@),
                opt0 == spec_opt_fields(tv, 2, 0, spec_opt_empty()),
                spec_opt_fields(
                    tv,
                    i as int,
                    state as int,
                    OptionalSpec {
                        freq: (match sampling_frequency {
                            Some(d) => Some(d.spec_pair()),
                            None => None,
                        }),
                        counter: (match counter_frequency {
                            Some(d) => Some(d.spec_pair()),
                            None => None,
                        }),
                        base: (match base_counter {
                            Some(d) => Some(d.spec_pair()),
                            None => None,
                        }),
                        nsamp: num_samples,
                        time: (match base_time {
                            Some(t) => Some((t.hour as int, t.minute as int, t.second as int)),
                            None => None,
                        }),
                        date: (match base_date {
                            Some(d) => Some((d.day as int, d.month as int, d.year as int)),
                            None => None,
                        }),
                    },
                ) == opt0,
            decreases toks.len() - i,
        {
            let tok = &toks[i];
            let kind = match classify(tok.as_str(), state) {
                Some(k) => k,
                None => {
                    let mut m = String::from_str("Duplicate or out-of-order field: ");
                    m.append(tok.as_str());
                    return Err(Error::InvalidHeader(m));
                },
            };
            if kind == 0 {
                match parse_frequency_field(tok.as_str()) {
                    Some((f, c, b)) => {
                        sampling_frequency = Some(f);
                        counter_frequency = c;
                        base_counter = b;
                        state = 1;
                    },
                    None => {
                        let mut m = String::from_str("Invalid frequency field: ");
                        m.append(tok.as_str());
                        return Err(Error::InvalidHeader(m));
                    },
                }
            } else if kind == 1 {
                match parse_u64(tok.as_str()) {
                    Some(v) => {
                        num_samples = Some(v);
                        state = 2;
                    },
                    None => {
                        let mut m = String::from_str("Invalid number of samples: ");
                        m.append(tok.as_str());
                        return Err(Error::InvalidHeader(m));
                    },
                }
            } else if kind == 2 {
                match parse_base_time(tok.as_str()) {
                    Some(t) => {
                        base_time = Some(t);
                        state = 3;
                    },
                    None => {
                        let mut m = String::from_str("Invalid base time '");
                        m.append(tok.as_str());
                        m.append("', expected HH:MM:SS");
                        return Err(Error::InvalidHeader(m));
                    },
                }
            } else {
                match parse_base_date(tok.as_str()) {
                    Some(d) => {
                        base_date = Some(d);
                        state = 4;
                    },
                    None => {
                        let mut m = String::from_str("Invalid base date '");
                        m.append(tok.as_str());
                        m.append("', expected DD/MM/YYYY");
                        return Err(Error::InvalidHeader(m));
                    },
                }
            }
            i = i + 1;
        }
        // Validation: positive signal count and segment count, positive
        // sampling frequency, non-positive counter frequency dropped.
        if num_signals < 1 {
            return Err(Error::InvalidHeader(String::from_str("Number of signals must be positive")));
        }
        match num_segments {
            Some(k) if k < 1 => {
                return Err(
                    Error::InvalidHeader(String::from_str("Number of segments must be positive")),
                );
            },
            _ => {},
        }
        match &sampling_frequency {
            Some(f) => {
                if !f.is_positive() {
                    return Err(
                        Error::InvalidHeader(
                            String::from_str("Sampling frequency must be positive"),
                        ),
                    );
                }
            },
            None => {},
        }
        let counter_frequency = match counter_frequency {
            Some(c) => {
                if c.is_positive() {
                    Some(c)
                } else {
                    None
                }
            },
            None => None,
        };
        Ok(
            Metadata {
                name: name_part.to_owned(),
                num_segments,
                num_signals,
                sampling_frequency,
                counter_frequency,
                base_counter,
                num_samples,
                base_time,
                base_date,
            },
        )
    }

    /// The record name.
    pub fn name(&self) -> (r: &str)
        ensures
            r@ == self.name@,
    {
        self.name.as_str()
    }

    /// The number of signals.
    pub fn num_signals(&self) -> (r: usize)
        ensures
            r == self.num_signals,
    {
        self.num_signals
    }

    /// The sampling frequency, with the default of 250 Hz when absent.
    pub fn sampling_frequency(&self) -> (r: Decimal)
        ensures
            self.sampling_frequency matches Some(f) ==> r == f,
            self.sampling_frequency is None ==> r.spec_pair() == (250int, 0int),
    {
        match &self.sampling_frequency {
            Some(f) => *f,
            None => Decimal::new(250, 0),
        }
    }

    /// The number of segments, for a multi-segment record.
    pub fn num_segments(&self) -> (r: Option<usize>)
        ensures
            r == self.num_segments,
    {
        self.num_segments
    }

    /// The total number of samples per signal, when declared.
    pub fn num_samples(&self) -> (r: Option<u64>)
        ensures
            r == self.num_samples,
    {
        self.num_samples
    }

    /// The base time, when declared.
    pub fn base_time(&self) -> (r: Option<BaseTime>)
        ensures
            r == self.base_time,
    {
        self.base_time
    }

    /// The base date, when declared.
    pub fn base_date(&self) -> (r: Option<BaseDate>)
        ensures
            r == self.base_date,
    {
        self.base_date
    }

    /// The counter frequency, defaulting to the sampling frequency when
    /// absent.
    pub fn counter_frequency(&self) -> (r: Decimal)
        ensures
            self.counter_frequency matches Some(f) ==> r == f,
            self.counter_frequency is None ==> (self.sampling_frequency matches Some(f) ==> r
                == f),
            self.counter_frequency is None && self.sampling_frequency is None ==> r.spec_pair()
                == (250int, 0int),
    {
        match &self.counter_frequency {
            Some(f) => *f,
            None => self.sampling_frequency(),
        }
    }

    /// The base counter value, defaulting to zero when absent.
    pub fn base_counter(&self) -> (r: Decimal)
        ensures
            self.base_counter matches Some(b) ==> r == b,
            self.base_counter is None ==> r.spec_pair() == (0int, 0int),
    {
        match &self.base_counter {
            Some(b) => *b,
            None => Decimal::new(0, 0),
        }
    }

    /// Whether the record line declared segments.
    pub fn is_multi_segment(&self) -> (r: bool)
        ensures
            r == (self.num_segments is Some),
    {
        self.num_segments.is_some()
    }
}

} // verus!
