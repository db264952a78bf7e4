//! Whole-header parsing: the record line, then signal or segment
//! specification lines, then trailing comment lines kept as info strings.

use vstd::prelude::*;

use crate::Error;
use crate::header::metadata::{Metadata, RecordFields, metadata_fields, spec_record_line};
use crate::header::segment_info::{SegmentInfo, spec_segment_line};
use crate::header::signal_info::{SignalInfo, SignalFields, signal_fields, spec_signal_line};
use crate::header::text::{is_space, space, spec_find, find_char, lemma_spec_find};

verus! {

/// The index of the first non-space character, or the length.
pub open spec fn spec_skip_spaces(s: Seq<char>) -> int
    decreases s.len(),
{
    if s.len() == 0 {
        0
    } else if is_space(s[0]) {
        1 + spec_skip_spaces(s.skip(1))
    } else {
        0
    }
}

/// `spec_skip_spaces` is bounded and points at the first non-space.
pub proof fn lemma_spec_skip_spaces(s: Seq<char>)
    ensures
        0 <= spec_skip_spaces(s) <= s.len(),
        spec_skip_spaces(s) < s.len() ==> !is_space(s[spec_skip_spaces(s)]),
        forall|i: int| 0 <= i < spec_skip_spaces(s) ==> is_space(s[i]),
    decreases s.len(),
{
    if s.len() > 0 && is_space(s[0]) {
        lemma_spec_skip_spaces(s.skip(1));
        assert forall|i: int| 0 <= i < spec_skip_spaces(s) implies is_space(s[i]) by {
            if i > 0 {
                assert(s.skip(1)[i - 1] == s[i]);
            }
        }
        if spec_skip_spaces(s) < s.len() {
            assert(s.skip(1)[spec_skip_spaces(s) - 1] == s[spec_skip_spaces(s)]);
        }
    }
}

/// One past the index of the last non-space character, or 0.
pub open spec fn spec_trim_end(s: Seq<char>) -> int
    decreases s.len(),
{
    if s.len() == 0 {
        0
    } else if is_space(s.last()) {
        spec_trim_end(s.drop_last())
    } else {
        s.len() as int
    }
}

/// `spec_trim_end` is bounded and marks a non-space end.
pub proof fn lemma_spec_trim_end(s: Seq<char>)
    ensures
        0 <= spec_trim_end(s) <= s.len(),
        spec_trim_end(s) > 0 ==> !is_space(s[spec_trim_end(s) - 1]),
        forall|i: int| spec_trim_end(s) <= i < s.len() ==> is_space(s[i]),
    decreases s.len(),
{
    if s.len() > 0 && is_space(s.last()) {
        lemma_spec_trim_end(s.drop_last());
        assert forall|i: int| spec_trim_end(s) <= i < s.len() implies is_space(s[i]) by {
            if i < s.len() - 1 {
                assert(s.drop_last()[i] == s[i]);
            }
        }
        if spec_trim_end(s) > 0 {
            assert(s.drop_last()[spec_trim_end(s) - 1] == s[spec_trim_end(s) - 1]);
        }
    }
}

/// The line with surrounding whitespace removed.
pub open spec fn spec_trim(s: Seq<char>) -> Seq<char> {
    if spec_skip_spaces(s) <= spec_trim_end(s) {
        s.subrange(spec_skip_spaces(s), spec_trim_end(s))
    } else {
        Seq::empty()
    }
}

/// A line holding only whitespace.
pub open spec fn spec_is_blank(s: Seq<char>) -> bool {
    spec_skip_spaces(s) == s.len()
}

/// A comment line: the first non-space character is `#`.
pub open spec fn spec_is_comment(s: Seq<char>) -> bool {
    spec_skip_spaces(s) < s.len() && s[spec_skip_spaces(s)] == '#'
}

/// The string with every leading `#` removed.
pub open spec fn spec_strip_hashes(s: Seq<char>) -> Seq<char>
    decreases s.len(),
{
    if s.len() > 0 && s[0] == '#' {
        spec_strip_hashes(s.skip(1))
    } else {
        s
    }
}

/// The index of the first line that is neither blank nor a comment, or the
/// number of lines.
pub open spec fn spec_first_content(lines: Seq<Seq<char>>, i: int) -> int
    decreases lines.len() - i,
{
    if i >= lines.len() {
        i
    } else if spec_is_blank(lines[i]) || spec_is_comment(lines[i]) {
        spec_first_content(lines, i + 1)
    } else {
        i
    }
}

/// Collects `n` segment specifications starting at line `i`, skipping blank
/// and comment lines; `None` when a line is malformed or the lines run out.
/// Returns the parsed segments and the index after the last one consumed.
pub open spec fn spec_collect_segments(lines: Seq<Seq<char>>, i: int, n: int) -> Option<
    (Seq<(Seq<char>, u64)>, int),
>
    decreases lines.len() - i,
{
    if n <= 0 {
        Some((Seq::empty(), i))
    } else if i >= lines.len() {
        None
    } else if spec_is_blank(lines[i]) || spec_is_comment(lines[i]) {
        spec_collect_segments(lines, i + 1, n)
    } else {
        match spec_segment_line(lines[i]) {
            None => None,
            Some(s) => {
                match spec_collect_segments(lines, i + 1, n - 1) {
                    None => None,
                    Some((rest, end)) => Some((seq![s] + rest, end)),
                }
            },
        }
    }
}

/// Collects `n` signal specifications starting at line `i`, skipping blank
/// and comment lines; `None` when a line is malformed or the lines run out.
pub open spec fn spec_collect_signals(lines: Seq<Seq<char>>, i: int, n: int) -> Option<
    (Seq<SignalFields>, int),
>
    decreases lines.len() - i,
{
    if n <= 0 {
        Some((Seq::empty(), i))
    } else if i >= lines.len() {
        None
    } else if spec_is_blank(lines[i]) || spec_is_comment(lines[i]) {
        spec_collect_signals(lines, i + 1, n)
    } else {
        match spec_signal_line(lines[i]) {
            None => None,
            Some(s) => {
                match spec_collect_signals(lines, i + 1, n - 1) {
                    None => None,
                    Some((rest, end)) => Some((seq![s] + rest, end)),
                }
            },
        }
    }
}

/// The info strings: the trailing comment lines from line `i` on, trimmed and
/// with their leading `#`s removed. Other lines are ignored.
pub open spec fn spec_infos(lines: Seq<Seq<char>>, i: int) -> Seq<Seq<char>>
    decreases lines.len() - i,
{
    if i >= lines.len() {
        Seq::empty()
    } else if spec_is_comment(lines[i]) {
        seq![spec_strip_hashes(spec_trim(lines[i]))] + spec_infos(lines, i + 1)
    } else {
        spec_infos(lines, i + 1)
    }
}

/// The spec-level content of a parsed header.
pub ghost struct HeaderFields {
    /// The record line's content.
    pub metadata: RecordFields,
    /// The signal specifications, for a single-segment record.
    pub signals: Option<Seq<SignalFields>>,
    /// The segment specifications, for a multi-segment record.
    pub segments: Option<Seq<(Seq<char>, u64)>>,
    /// The trailing info strings.
    pub infos: Seq<Seq<char>>,
}

/// The content of a whole header, from its lines: the first non-comment,
/// non-blank line is the record line; a multi-segment record is followed by
/// its segment lines, a single-segment one by its signal lines; trailing
/// comment lines are the info strings.
pub open spec fn spec_header_lines(lines: Seq<Seq<char>>) -> Option<HeaderFields> {
    let ri = spec_first_content(lines, 0);
    if ri >= lines.len() {
        None
    } else {
        match spec_record_line(lines[ri]) {
            None => None,
            Some(md) => {
                if md.num_segments is Some {
                    match spec_collect_segments(lines, ri + 1, md.num_segments->Some_0) {
                        None => None,
                        Some((segs, end)) => Some(
                            HeaderFields {
                                metadata: md,
                                signals: None,
                                segments: Some(segs),
                                infos: spec_infos(lines, end),
                            },
                        ),
                    }
                } else {
                    match spec_collect_signals(lines, ri + 1, md.num_signals) {
                        None => None,
                        Some((sigs, end)) => Some(
                            HeaderFields {
                                metadata: md,
                                signals: Some(sigs),
                                segments: None,
                                infos: spec_infos(lines, end),
                            },
                        ),
                    }
                }
            },
        }
    }
}

/// The text split into lines at `\n` (a trailing `\r` is treated as
/// whitespace by the line parsers).
pub open spec fn spec_split_lines(s: Seq<char>) -> Seq<Seq<char>>
    decreases s.len(), 0int via spec_split_lines_dec
{
    let f = spec_find(s, '\n');
    if f >= s.len() {
        seq![s]
    } else {
        seq![s.take(f)] + spec_split_lines(s.skip(f + 1))
    }
}

#[via_fn]
proof fn spec_split_lines_dec(s: Seq<char>) {
    lemma_spec_find(s, '\n');
}

/// Header specifications: signal specifications for a single-segment record,
/// or segment specifications for a multi-segment one. Mutually exclusive.
#[derive(Debug, Clone)]
pub enum Specifications {
    /// A single-segment record, with one specification per signal.
    SingleSegment {
        /// Signal specifications, in header order.
        signals: Vec<SignalInfo>,
    },
    /// A multi-segment record, with one specification per segment.
    MultiSegment {
        /// Segment specifications, in header order.
        segments: Vec<SegmentInfo>,
    },
}

impl Specifications {
    /// The signal specifications of a single-segment record.
    pub fn signals(&self) -> (r: Option<&Vec<SignalInfo>>)
        ensures
            self is SingleSegment <==> (r matches Some(v) && v == &self->SingleSegment_signals),
            self is MultiSegment <==> r is None,
    {
        match self {
            Specifications::SingleSegment { signals } => Some(signals),
            Specifications::MultiSegment { .. } => None,
        }
    }

    /// The segment specifications of a multi-segment record.
    pub fn segments(&self) -> (r: Option<&Vec<SegmentInfo>>)
        ensures
            self is MultiSegment <==> (r matches Some(v) && v == &self->MultiSegment_segments),
            self is SingleSegment <==> r is None,
    {
        match self {
            Specifications::SingleSegment { .. } => None,
            Specifications::MultiSegment { segments } => Some(segments),
        }
    }

    /// Whether this is a multi-segment record.
    pub fn is_multi_segment(&self) -> (r: bool)
        ensures
            r == (self is MultiSegment),
    {
        match self {
            Specifications::MultiSegment { .. } => true,
            Specifications::SingleSegment { .. } => false,
        }
    }

    /// Whether this is a single-segment record.
    pub fn is_single_segment(&self) -> (r: bool)
        ensures
            r == (self is SingleSegment),
    {
        match self {
            Specifications::SingleSegment { .. } => true,
            Specifications::MultiSegment { .. } => false,
        }
    }
}

/// A parsed header: the record metadata, the signal or segment
/// specifications, and the trailing info strings.
#[derive(Debug, Clone)]
pub struct Header {
    /// Record metadata from the record line.
    pub metadata: Metadata,
    /// Signal specifications (single-segment) or segment specifications
    /// (multi-segment).
    pub specifications: Specifications,
    /// Info strings: the content of each trailing comment line, without its
    /// leading `#`s.
    pub info_strings: Vec<String>,
}

/// The spec-level content of a header value.
pub open spec fn header_fields(h: &Header) -> HeaderFields {
    HeaderFields {
        metadata: metadata_fields(&h.metadata),
        signals: (match h.specifications {
            Specifications::SingleSegment { ref signals } => Some(
                signals@.map_values(|s: SignalInfo| signal_fields(&s)),
            ),
            _ => None,
        }),
        segments: (match h.specifications {
            Specifications::MultiSegment { ref segments } => Some(
                segments@.map_values(|s: SegmentInfo| (s.record_name@, s.num_samples)),
            ),
            _ => None,
        }),
        infos: h.info_strings@.map_values(|s: String| s@),
    }
}

/// Trims a line and reports whether it is blank and whether it is a comment.
fn classify_line(line: &str) -> (r: (bool, bool))
    ensures
        r.0 == spec_is_blank(line@),
        r.1 == spec_is_comment(line@),
{
    proof {
        lemma_spec_skip_spaces(line@);
    }
    let n = line.unicode_len();
    let mut i: usize = 0;
    proof {
        assert(line@.skip(0) =~= line@);
    }
    while i < n
        invariant
            i <= n,
            n == line@.len(),
            spec_skip_spaces(line@) == i + spec_skip_spaces(line@.skip(i as int)),
            forall|k: int| 0 <= k < i ==> is_space(line@[k]),
        decreases n - i,
    {
        let c = line.get_char(i);
        proof {
            assert(line@.skip(i as int)[0] == line@[i as int]);
            vstd::seq_lib::lemma_seq_skip_of_skip(line@, i as int, 1int);
            assert(line@.skip(i as int).skip(1) =~= line@.skip(i as int + 1));
        }
        if !space(c) {
            proof {
                assert(spec_skip_spaces(line@.skip(i as int)) == 0);
            }
            return (false, c == '#');
        }
        i = i + 1;
    }
    proof {
        assert(line@.skip(i as int).len() == 0);
    }
    (true, false)
}

/// Trims a line and strips its leading `#`s: the info-string content of a
/// comment line.
fn info_content(line: &str) -> (r: String)
    ensures
        r@ == spec_strip_hashes(spec_trim(line@)),
{
    proof {
        lemma_spec_skip_spaces(line@);
        lemma_spec_trim_end(line@);
    }
    let n = line.unicode_len();
    // Find the trimmed bounds.
    let mut start: usize = 0;
    proof {
        assert(line@.skip(0) =~= line@);
    }
    while start < n && space(line.get_char(start))
        invariant
            start <= n,
            n == line@.len(),
            spec_skip_spaces(line@) == start + spec_skip_spaces(line@.skip(start as int)),
        decreases n - start,
    {
        proof {
            assert(line@.skip(start as int)[0] == line@[start as int]);
            vstd::seq_lib::lemma_seq_skip_of_skip(line@, start as int, 1int);
            assert(line@.skip(start as int).skip(1) =~= line@.skip(start as int + 1));
        }
        start = start + 1;
    }
    proof {
        if start < n {
            assert(line@.skip(start as int)[0] == line@[start as int]);
            assert(spec_skip_spaces(line@.skip(start as int)) == 0);
        } else {
            assert(line@.skip(start as int).len() == 0);
        }
        assert(start == spec_skip_spaces(line@));
    }
    let mut end: usize = n;
    proof {
        assert(line@.take(n as int) =~= line@);
    }
    while end > start && space(line.get_char(end - 1))
        invariant
            start <= end <= n,
            n == line@.len(),
            start == spec_skip_spaces(line@),
            spec_trim_end(line@) == spec_trim_end(line@.take(end as int)),
            spec_trim_end(line@) <= end,
        decreases end,
    {
        proof {
            assert(line@.take(end as int).last() == line@[end - 1]);
            assert(line@.take(end as int).drop_last() =~= line@.take(end as int - 1));
            lemma_spec_trim_end(line@.take(end as int - 1));
        }
        end = end - 1;
    }
    proof {
        if end > start {
            assert(line@.take(end as int).last() == line@[end - 1]);
            assert(spec_trim_end(line@.take(end as int)) == end);
        } else {
            // All of the trimmed range is empty: end == start.
            assert(forall|k: int|
                start <= k < line@.take(end as int).len() ==> is_space(line@[k]));
            if spec_trim_end(line@) > start {
                assert(!is_space(line@[spec_trim_end(line@) - 1]));
            }
            assert(spec_trim_end(line@) <= start || spec_trim_end(line@) == end);
        }
    }
    // Strip the leading hashes.
    let mut from: usize = start;
    let ghost trimmed = spec_trim(line@);
    proof {
        if spec_trim_end(line@) >= start {
            assert(trimmed =~= line@.subrange(start as int, spec_trim_end(line@)));
        }
    }
    while from < end && line.get_char(from) == '#'
        invariant
            start <= from <= end <= n,
            n == line@.len(),
            start == spec_skip_spaces(line@),
            trimmed == spec_trim(line@),
            end as int == if spec_trim_end(line@) >= start {
                spec_trim_end(line@)
            } else {
                start as int
            },
            spec_strip_hashes(trimmed) == spec_strip_hashes(
                line@.subrange(from as int, end as int),
            ),
        decreases end - from,
    {
        proof {
            let cur = line@.subrange(from as int, end as int);
            assert(cur[0] == line@[from as int]);
            assert(cur.skip(1) =~= line@.subrange(from as int + 1, end as int));
        }
        from = from + 1;
    }
    proof {
        let cur = line@.subrange(from as int, end as int);
        if from < end {
            assert(cur[0] == line@[from as int]);
            assert(spec_strip_hashes(cur) == cur);
        } else {
            assert(cur.len() == 0);
            assert(spec_strip_hashes(cur) == cur);
        }
    }
    let r = line.substring_char(from, end).to_owned();
    proof {
        assert(r@ =~= line@.subrange(from as int, end as int));
    }
    r
}

/// The index of the first line that is neither blank nor a comment.
fn first_content_index(lines: &Vec<String>) -> (r: usize)
    ensures
        r as int == spec_first_content(lines@.map_values(|l: String| l@), 0),
        r <= lines.len(),
{
    let ghost lv = lines@.map_values(|l: String| l@);
    let mut ri: usize = 0;
    while ri < lines.len()
        invariant
            ri <= lines.len(),
            lv == lines@.map_values(|l: String| l@),
            lv.len() == lines.len(),
            spec_first_content(lv, 0) == spec_first_content(lv, ri as int),
        ensures
            ri <= lines.len(),
            spec_first_content(lv, 0) == ri as int,
        decreases lines.len() - ri,
    {
        let (blank, comment) = classify_line(lines[ri].as_str());
        if !blank && !comment {
            proof {
                assert(spec_first_content(lv, ri as int) == ri as int);
            }
            break;
        }
        ri = ri + 1;
    }
    ri
}

impl Header {
    /// Parses a header from its lines.
    ///
    /// Returns `Ok` exactly when the lines form a well-formed header; the
    /// result then carries the record metadata, the signal or segment
    /// specifications, and the info strings. Every malformed header yields
    /// `Error::InvalidHeader`.
    #[verifier::rlimit(100)]
    #[verifier::loop_isolation(false)]
    pub fn from_lines(lines: &Vec<String>) -> (r: Result<Header, Error>)
        ensures
            match r {
                Ok(h) => spec_header_lines(lines@.map_values(|l: String| l@)) == Some(
                    header_fields(&h),
                ),
                Err(e) => spec_header_lines(lines@.map_values(|l: String| l@)) is None && e
                    is InvalidHeader,
            },
    {
        let ghost lv = lines@.map_values(|l: String| l@);
        // Find the record line.
        let ri = first_content_index(lines);
        if ri >= lines.len() {
            return Err(Error::InvalidHeader(String::from_str("Missing record line in header")));
        }
        let metadata = match Metadata::from_record_line(lines[ri].as_str()) {
            Ok(m) => m,
            Err(e) => {
                return Err(e);
            },
        };
        let is_multi = metadata.is_multi_segment();
        let mut i: usize = ri + 1;
        if is_multi {
            let n = match metadata.num_segments {
                Some(n) => n,
                None => {
                    // Unreachable: `is_multi` implies the count is present.
                    return Err(Error::InvalidHeader(String::from_str("Missing segment count")));
                },
            };
            let mut segments: Vec<SegmentInfo> = Vec::new();
            let ghost full = spec_collect_segments(lv, ri + 1 as int, n as int);
            while segments.len() < n
                invariant
                    ri < i <= lv.len() + 1,
                    i <= lv.len() || segments.len() >= n,
                    segments.len() <= n,
                    lv == lines@.map_values(|l: String| l@),
                    lv.len() == lines.len(),
                    full == (match spec_collect_segments(
                        lv,
                        i as int,
                        n - segments.len(),
                    ) {
                        Some((s, e)) => Some(
                            (
                                segments@.map_values(
                                    |x: SegmentInfo| (x.record_name@, x.num_samples),
                                ) + s,
                                e,
                            ),
                        ),
                        None => None,
                    }),
                decreases n - segments.len(), lv.len() - i,
            {
                if i >= lines.len() {
                    let mut m = String::from_str("Expected ");
                    m.append(n.to_string().as_str());
                    m.append(" segment specifications, found ");
                    m.append(segments.len().to_string().as_str());
                    return Err(Error::InvalidHeader(m));
                }
                let (blank, comment) = classify_line(lines[i].as_str());
                if blank || comment {
                    i = i + 1;
                    continue;
                }
                let seg = match SegmentInfo::from_segment_line(lines[i].as_str()) {
                    Ok(s) => s,
                    Err(e) => {
                        return Err(e);
                    },
                };
                let ghost prev = segments@;
                segments.push(seg);
                proof {
                    assert(segments@.map_values(|x: SegmentInfo| (x.record_name@, x.num_samples))
                        =~= prev.map_values(|x: SegmentInfo| (x.record_name@, x.num_samples))
                        + seq![(seg.record_name@, seg.num_samples)]);
                    assert(prev.map_values(|x: SegmentInfo| (x.record_name@, x.num_samples))
                        + (seq![(seg.record_name@, seg.num_samples)]
                        + spec_collect_segments(lv, i as int + 1, n - prev.len() - 1)->Some_0.0)
                        =~= (prev.map_values(|x: SegmentInfo| (x.record_name@, x.num_samples))
                        + seq![(seg.record_name@, seg.num_samples)])
                        + spec_collect_segments(lv, i as int + 1, n - prev.len() - 1)->Some_0.0);
                }
                i = i + 1;
            }
            let ghost end = full->Some_0.1;
            proof {
                assert(spec_collect_segments(lv, i as int, 0) == Some(
                    (Seq::<(Seq<char>, u64)>::empty(), i as int),
                ));
                assert(segments@.map_values(|x: SegmentInfo| (x.record_name@, x.num_samples))
                    + Seq::<(Seq<char>, u64)>::empty() =~= segments@.map_values(
                    |x: SegmentInfo| (x.record_name@, x.num_samples),
                ));
            }
            let info_strings = Self::collect_infos(lines, i);
            Ok(
                Header {
                    metadata,
                    specifications: Specifications::MultiSegment { segments },
                    info_strings,
                },
            )
        } else {
            let n = metadata.num_signals;
            let mut signals: Vec<SignalInfo> = Vec::new();
            let ghost full = spec_collect_signals(lv, ri + 1 as int, n as int);
            while signals.len() < n
                invariant
                    ri < i <= lv.len() + 1,
                    i <= lv.len() || signals.len() >= n,
                    signals.len() <= n,
                    lv == lines@.map_values(|l: String| l@),
                    lv.len() == lines.len(),
                    full == (match spec_collect_signals(
                        lv,
                        i as int,
                        n - signals.len(),
                    ) {
                        Some((s, e)) => Some(
                            (
                                signals@.map_values(|x: SignalInfo| signal_fields(&x)) + s,
                                e,
                            ),
                        ),
                        None => None,
                    }),
                decreases n - signals.len(), lv.len() - i,
            {
                if i >= lines.len() {
                    let mut m = String::from_str("Expected ");
                    m.append(n.to_string().as_str());
                    m.append(" signal specifications, found ");
                    m.append(signals.len().to_string().as_str());
                    return Err(Error::InvalidHeader(m));
                }
                let (blank, comment) = classify_line(lines[i].as_str());
                if blank || comment {
                    i = i + 1;
                    continue;
                }
                let sig = match SignalInfo::from_signal_line(lines[i].as_str()) {
                    Ok(s) => s,
                    Err(e) => {
                        return Err(e);
                    },
                };
                let ghost prev = signals@;
                signals.push(sig);
                proof {
                    assert(signals@.map_values(|x: SignalInfo| signal_fields(&x)) =~= prev
                        .map_values(|x: SignalInfo| signal_fields(&x)) + seq![
                        signal_fields(&sig),
                    ]);
                    assert(prev.map_values(|x: SignalInfo| signal_fields(&x)) + (seq![
                        signal_fields(&sig),
                    ] + spec_collect_signals(lv, i as int + 1, n - prev.len() - 1)->Some_0.0) =~= (
                    prev.map_values(|x: SignalInfo| signal_fields(&x)) + seq![
                        signal_fields(&sig),
                    ]) + spec_collect_signals(lv, i as int + 1, n - prev.len() - 1)->Some_0.0);
                }
                i = i + 1;
            }
            proof {
                assert(spec_collect_signals(lv, i as int, 0) == Some(
                    (Seq::<SignalFields>::empty(), i as int),
                ));
                assert(signals@.map_values(|x: SignalInfo| signal_fields(&x))
                    + Seq::<SignalFields>::empty() =~= signals@.map_values(
                    |x: SignalInfo| signal_fields(&x),
                ));
            }
            let info_strings = Self::collect_infos(lines, i);
            Ok(
                Header {
                    metadata,
                    specifications: Specifications::SingleSegment { signals },
                    info_strings,
                },
            )
        }
    }

    /// Collects the trailing info strings from line `from` on.
    fn collect_infos(lines: &Vec<String>, from: usize) -> (r: Vec<String>)
        ensures
            r@.map_values(|s: String| s@) == spec_infos(
                lines@.map_values(|l: String| l@),
                from as int,
            ),
    {
        let ghost lv = lines@.map_values(|l: String| l@);
        let mut infos: Vec<String> = Vec::new();
        let mut i: usize = from;
        proof {
            assert(infos@.map_values(|s: String| s@) =~= Seq::<Seq<char>>::empty());
        }
        while i < lines.len()
            invariant
                from <= i <= lv.len() || i >= lv.len(),
                lv == lines@.map_values(|l: String| l@),
                lv.len() == lines.len(),
                spec_infos(lv, from as int) == infos@.map_values(|s: String| s@) + spec_infos(
                    lv,
                    i as int,
                ),
            decreases lines.len() - i,
        {
            let (_, comment) = classify_line(lines[i].as_str());
            if comment {
                let c = info_content(lines[i].as_str());
                let ghost prev = infos@;
                infos.push(c);
                proof {
                    assert(infos@.map_values(|s: String| s@) =~= prev.map_values(|s: String| s@)
                        + seq![c@]);
                    assert(prev.map_values(|s: String| s@) + (seq![c@] + spec_infos(
                        lv,
                        i as int + 1,
                    )) =~= (prev.map_values(|s: String| s@) + seq![c@]) + spec_infos(
                        lv,
                        i as int + 1,
                    ));
                }
            }
            i = i + 1;
        }
        proof {
            assert(spec_infos(lv, i as int) =~= Seq::<Seq<char>>::empty());
        }
        infos
    }

    /// Parses a header from its full text, split into lines at `\n`.
    pub fn from_text(text: &str) -> (r: Result<Header, Error>)
        ensures
            match r {
                Ok(h) => spec_header_lines(spec_split_lines(text@)) == Some(header_fields(&h)),
                Err(e) => spec_header_lines(spec_split_lines(text@)) is None && e
                    is InvalidHeader,
            },
    {
        let lines = Self::split_lines(text);
        Header::from_lines(&lines)
    }

    /// Splits a text into its lines at `\n`.
    pub fn split_lines(text: &str) -> (r: Vec<String>)
        ensures
            r@.map_values(|l: String| l@) == spec_split_lines(text@),
    {
        let n = text.unicode_len();
        let mut lines: Vec<String> = Vec::new();
        let mut start: usize = 0;
        proof {
            assert(lines@.map_values(|l: String| l@) =~= Seq::<Seq<char>>::empty());
            assert(text@.skip(0) =~= text@);
        }
        loop
            invariant_except_break
                spec_split_lines(text@) == lines@.map_values(|l: String| l@)
                    + spec_split_lines(text@.skip(start as int)),
            invariant
                start <= n,
                n == text@.len(),
            ensures
                spec_split_lines(text@) == lines@.map_values(|l: String| l@),
            decreases n - start + 1,
        {
            let ghost rest = text@.skip(start as int);
            proof {
                lemma_spec_find(rest, '\n');
            }
            // Find the end of the current line.
            let mut j: usize = start;
            while j < n && text.get_char(j) != '\n'
                invariant
                    start <= j <= n,
                    n == text@.len(),
                    rest == text@.skip(start as int),
                    spec_find(rest, '\n') == (j - start) + spec_find(text@.skip(j as int), '\n'),
                decreases n - j,
            {
                proof {
                    assert(text@.skip(j as int)[0] == text@[j as int]);
                    vstd::seq_lib::lemma_seq_skip_of_skip(text@, j as int, 1int);
                    assert(text@.skip(j as int).skip(1) =~= text@.skip(j as int + 1));
                }
                j = j + 1;
            }
            proof {
                if j < n {
                    assert(text@.skip(j as int)[0] == text@[j as int]);
                    assert(spec_find(text@.skip(j as int), '\n') == 0);
                } else {
                    assert(text@.skip(j as int).len() == 0);
                }
                assert(spec_find(rest, '\n') == j - start);
            }
            let line = text.substring_char(start, j).to_owned();
            let ghost prev = lines@;
            lines.push(line);
            proof {
                assert(line@ =~= rest.take(j - start));
                assert(lines@.map_values(|l: String| l@) =~= prev.map_values(|l: String| l@)
                    + seq![line@]);
            }
            if j >= n {
                proof {
                    assert(spec_split_lines(rest) =~= seq![rest.take(j - start)]);
                    assert(lines@.map_values(|l: String| l@) =~= spec_split_lines(text@));
                }
                break;
            }
            proof {
                vstd::seq_lib::lemma_seq_skip_of_skip(text@, start as int, (j - start + 1) as int);
                assert(rest.skip(j - start + 1) =~= text@.skip(j as int + 1));
                assert(spec_split_lines(rest) =~= seq![rest.take(j - start)] + spec_split_lines(
                    rest.skip(j - start + 1),
                ));
                assert(prev.map_values(|l: String| l@) + (seq![line@] + spec_split_lines(
                    text@.skip(j as int + 1),
                )) =~= (prev.map_values(|l: String| l@) + seq![line@]) + spec_split_lines(
                    text@.skip(j as int + 1),
                ));
            }
            start = j + 1;
        }
        lines
    }

    /// The record metadata.
    pub fn metadata(&self) -> (r: &Metadata)
        ensures
            r == &self.metadata,
    {
        &self.metadata
    }

    /// The specifications: signals or segments.
    pub fn specifications(&self) -> (r: &Specifications)
        ensures
            r == &self.specifications,
    {
        &self.specifications
    }

    /// The signal specifications, for a single-segment record.
    pub fn signals(&self) -> (r: Option<&Vec<SignalInfo>>)
        ensures
            self.specifications is SingleSegment <==> (r matches Some(v) && v
                == &self.specifications->SingleSegment_signals),
            self.specifications is MultiSegment <==> r is None,
    {
        self.specifications.signals()
    }

    /// The segment specifications, for a multi-segment record.
    pub fn segments(&self) -> (r: Option<&Vec<SegmentInfo>>)
        ensures
            self.specifications is MultiSegment <==> (r matches Some(v) && v
                == &self.specifications->MultiSegment_segments),
            self.specifications is SingleSegment <==> r is None,
    {
        self.specifications.segments()
    }

    /// The info strings.
    pub fn info_strings(&self) -> (r: &Vec<String>)
        ensures
            r == &self.info_strings,
    {
        &self.info_strings
    }

    /// Whether this is a multi-segment record.
    pub fn is_multi_segment(&self) -> (r: bool)
        ensures
            r == (self.specifications is MultiSegment),
    {
        self.specifications.is_multi_segment()
    }

    /// Whether this is a single-segment record.
    pub fn is_single_segment(&self) -> (r: bool)
        ensures
            r == (self.specifications is SingleSegment),
    {
        self.specifications.is_single_segment()
    }

    /// The number of signals declared on the record line.
    pub fn num_signals(&self) -> (r: usize)
        ensures
            r == self.metadata.num_signals,
    {
        self.metadata.num_signals
    }

    /// The number of segments declared on the record line, for a
    /// multi-segment record.
    pub fn num_segments(&self) -> (r: Option<usize>)
        ensures
            r == self.metadata.num_segments,
    {
        self.metadata.num_segments
    }
}

} // verus!
