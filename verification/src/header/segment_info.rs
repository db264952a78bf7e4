//! Segment specification lines of a multi-segment header: a record name (or
//! `~` for a null segment) and a sample count.

use vstd::prelude::*;

use crate::Error;
use crate::header::text::{spec_tokens, spec_is_name, spec_parse_u64, tokenize, check_name,
    parse_u64};

verus! {

/// Whether a token is a valid segment record name: letters, digits and
/// underscores, or the single character `~` marking a null segment.
pub open spec fn spec_valid_segment_name(s: Seq<char>) -> bool {
    s =~= seq!['~'] || spec_is_name(s)
}

/// The content of a segment specification line: exactly two tokens, a valid
/// record name and a sample count. `None` when malformed.
pub open spec fn spec_segment_line(line: Seq<char>) -> Option<(Seq<char>, u64)> {
    let toks = spec_tokens(line);
    if toks.len() != 2 {
        None
    } else if !spec_valid_segment_name(toks[0]) {
        None
    } else {
        match spec_parse_u64(toks[1]) {
            Some(v) => Some((toks[0], v)),
            None => None,
        }
    }
}

/// One segment of a multi-segment record: the name of the child record that
/// holds its data (`~` when the data is missing) and the number of samples
/// per signal it spans.
#[derive(Debug, Clone)]
pub struct SegmentInfo {
    /// Name of the record that comprises this segment; `~` for a null
    /// segment.
    pub record_name: String,
    /// Number of samples per signal in this segment.
    pub num_samples: u64,
}

impl PartialEq for SegmentInfo {
    fn eq(&self, other: &SegmentInfo) -> (r: bool) {
        self.record_name == other.record_name && self.num_samples == other.num_samples
    }
}

impl vstd::std_specs::cmp::PartialEqSpecImpl for SegmentInfo {
    open spec fn obeys_eq_spec() -> bool {
        true
    }

    open spec fn eq_spec(&self, other: &SegmentInfo) -> bool {
        self.record_name@ == other.record_name@ && self.num_samples == other.num_samples
    }
}

impl SegmentInfo {
    /// Builds segment information from one segment specification line.
    ///
    /// Returns `Ok` exactly when the line holds two tokens, a valid record
    /// name and an unsigned sample count; the fields carry them. Every
    /// malformed line yields `Error::InvalidHeader`.
    pub fn from_segment_line(line: &str) -> (r: Result<SegmentInfo, Error>)
        ensures
            match r {
                Ok(si) => spec_segment_line(line@) == Some((si.record_name@, si.num_samples)),
                Err(e) => spec_segment_line(line@) is None && e is InvalidHeader,
            },
    {
        let toks = tokenize(line);
        if toks.len() < 1 {
            return Err(Error::InvalidHeader(String::from_str("Missing record name")));
        }
        let name = &toks[0];
        if !Self::is_valid_record_name(name.as_str()) {
            let mut m = String::from_str("Invalid record name '");
            m.append(name.as_str());
            m.append("': must contain only letters, digits, underscores, or '~'");
            return Err(Error::InvalidHeader(m));
        }
        if toks.len() < 2 {
            return Err(Error::InvalidHeader(String::from_str("Missing number of samples")));
        }
        let num_samples = match parse_u64(toks[1].as_str()) {
            Some(v) => v,
            None => {
                let mut m = String::from_str("Invalid number of samples: ");
                m.append(toks[1].as_str());
                return Err(Error::InvalidHeader(m));
            },
        };
        if toks.len() > 2 {
            return Err(
                Error::InvalidHeader(
                    String::from_str("Extra fields found in segment specification line"),
                ),
            );
        }
        Ok(SegmentInfo { record_name: name.clone(), num_samples })
    }

    /// Whether a token is a valid segment record name: only letters, digits
    /// and underscores, or exactly `~`.
    pub fn is_valid_record_name(name: &str) -> (r: bool)
        ensures
            r == spec_valid_segment_name(name@),
    {
        let n = name.unicode_len();
        if n == 1 && name.get_char(0) == '~' {
            proof {
                assert(name@ =~= seq!['~']);
            }
            return true;
        }
        proof {
            if name@ =~= seq!['~'] {
                assert(name@.len() == 1 && name@[0] == '~');
            }
        }
        check_name(name)
    }

    /// The record name of the segment.
    pub fn record_name(&self) -> (r: &str)
        ensures
            r@ == self.record_name@,
    {
        self.record_name.as_str()
    }

    /// The number of samples per signal in this segment.
    pub fn num_samples(&self) -> (r: u64)
        ensures
            r == self.num_samples,
    {
        self.num_samples
    }

    /// Whether this is a null segment: record name `~`, standing for missing
    /// data.
    pub fn is_null_segment(&self) -> (r: bool)
        ensures
            r == (self.record_name@ =~= seq!['~']),
    {
        let s = self.record_name.as_str();
        let r = s.unicode_len() == 1 && s.get_char(0) == '~';
        proof {
            if r {
                assert(self.record_name@ =~= seq!['~']);
            }
            if self.record_name@ =~= seq!['~'] {
                assert(self.record_name@.len() == 1 && self.record_name@[0] == '~');
            }
        }
        r
    }
}

} // verus!
