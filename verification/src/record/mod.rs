//! Reading records: per-signal readers, the multi-signal frame reader, the
//! multi-segment coordinator, and the record facade, all over in-memory
//! bytes.

mod multi_signal_reader;
mod segment;
mod segment_reader;
mod signal_reader;
mod store;

pub use multi_signal_reader::MultiSignalReader;
pub use segment::SegmentManager;
pub use segment_reader::{SegmentReader, spec_cumulative, spec_segment_for};
pub use store::{FileStore, spec_store_lookup};
pub use signal_reader::{SignalReader, spec_frame_stream, spec_group_count, spec_interleaved_run,
    spec_sat64};

use vstd::prelude::*;

use crate::Error;
use crate::header::{Header, Metadata, SegmentInfo, SignalInfo, Specifications};

verus! {

/// The index of the last occurrence of `c` in `s`, or -1 when absent.
pub open spec fn spec_rfind(s: Seq<char>, c: char) -> int
    decreases s.len(),
{
    if s.len() == 0 {
        -1
    } else if s.last() == c {
        s.len() - 1
    } else {
        spec_rfind(s.drop_last(), c)
    }
}

/// `spec_rfind` is bounded, points at `c`, and nothing after it is `c`.
pub proof fn lemma_spec_rfind(s: Seq<char>, c: char)
    ensures
        -1 <= spec_rfind(s, c) < s.len(),
        spec_rfind(s, c) >= 0 ==> s[spec_rfind(s, c)] == c,
        forall|i: int| spec_rfind(s, c) < i < s.len() ==> s[i] != c,
    decreases s.len(),
{
    if s.len() > 0 && s.last() != c {
        lemma_spec_rfind(s.drop_last(), c);
        assert forall|i: int| spec_rfind(s, c) < i < s.len() implies s[i] != c by {
            if i < s.len() - 1 {
                assert(s.drop_last()[i] == s[i]);
            }
        }
        if spec_rfind(s, c) >= 0 {
            assert(s.drop_last()[spec_rfind(s, c)] == s[spec_rfind(s, c)]);
        }
    }
}

/// Finds the last occurrence of `c`, as an index, or the length when absent.
fn rfind_char(s: &str, c: char) -> (r: usize)
    ensures
        spec_rfind(s@, c) >= 0 ==> r as int == spec_rfind(s@, c),
        spec_rfind(s@, c) < 0 ==> r as int == s@.len(),
{
    proof {
        lemma_spec_rfind(s@, c);
    }
    let n = s.unicode_len();
    let mut i: usize = n;
    while i > 0
        invariant
            i <= n,
            n == s@.len(),
            forall|k: int| i <= k < n ==> s@[k] != c,
        decreases i,
    {
        if s.get_char(i - 1) == c {
            proof {
                lemma_spec_rfind(s@, c);
                if spec_rfind(s@, c) > i - 1 {
                    assert(s@[spec_rfind(s@, c)] != c);
                }
            }
            return i - 1;
        }
        i = i - 1;
    }
    proof {
        lemma_spec_rfind(s@, c);
        if spec_rfind(s@, c) >= 0 {
            assert(s@[spec_rfind(s@, c)] != c);
        }
    }
    n
}

/// The parts of a record path: the text before the last slash (the
/// directory), the last component, and that component split at its last dot
/// into a stem and an extension.
pub open spec fn spec_path_component(path: Seq<char>) -> Seq<char> {
    path.skip(spec_rfind(path, '/') + 1)
}

/// The stem of the last component: the part before its last dot, or the
/// whole component when it has no dot (or only a leading one).
pub open spec fn spec_path_stem(path: Seq<char>) -> Seq<char> {
    let comp = spec_path_component(path);
    let dot = spec_rfind(comp, '.');
    if dot > 0 {
        comp.take(dot)
    } else {
        comp
    }
}

/// Whether the path's last component carries the header extension.
pub open spec fn spec_has_hea_ext(path: Seq<char>) -> bool {
    let comp = spec_path_component(path);
    let dot = spec_rfind(comp, '.');
    dot > 0 && comp.skip(dot + 1) =~= seq!['h', 'e', 'a']
}

/// Resolves a record path into the header file path, the base directory and
/// the record name.
///
/// A path ending in the header extension names the header directly;
/// otherwise the extension of its last component (when any) is replaced by
/// the header extension. The record name is the last component's stem; the
/// base directory is the text before the last slash, or `.` when there is
/// none.
pub fn resolve_record_path(path: &str) -> (r: (String, String, String))
    ensures
        r.2@ == spec_path_stem(path@),
        spec_has_hea_ext(path@) ==> r.0@ == path@,
        !spec_has_hea_ext(path@) ==> r.0@ == path@.take(spec_rfind(path@, '/') + 1)
            + spec_path_stem(path@) + seq!['.', 'h', 'e', 'a'],
        spec_rfind(path@, '/') >= 0 ==> r.1@ == path@.take(spec_rfind(path@, '/')),
        spec_rfind(path@, '/') < 0 ==> r.1@ =~= seq!['.'],
{
    proof {
        lemma_spec_rfind(path@, '/');
        reveal_strlit(".");
        reveal_strlit(".hea");
        reveal_strlit("hea");
    }
    let n = path.unicode_len();
    let slash = rfind_char(path, '/');
    let comp_start: usize = if slash < n {
        slash + 1
    } else {
        0
    };
    proof {
        if spec_rfind(path@, '/') < 0 {
            assert(path@.skip(0) =~= spec_path_component(path@));
        }
    }
    let comp = path.substring_char(comp_start, n);
    proof {
        assert(comp@ =~= spec_path_component(path@));
        lemma_spec_rfind(comp@, '.');
    }
    let comp_len = comp.unicode_len();
    let dot = rfind_char(comp, '.');
    let stem = if dot > 0 && dot < comp_len {
        comp.substring_char(0, dot)
    } else {
        comp
    };
    proof {
        assert(stem@ =~= spec_path_stem(path@));
    }
    let is_hea = if dot > 0 && dot < comp_len {
        let ext = comp.substring_char(dot + 1, comp_len);
        proof {
            assert(ext@ =~= spec_path_component(path@).skip(spec_rfind(
                spec_path_component(path@),
                '.',
            ) + 1));
        }
        crate::header::text::str_eq(ext, "hea")
    } else {
        false
    };
    proof {
        assert("hea"@ =~= seq!['h', 'e', 'a']);
        assert(is_hea == spec_has_hea_ext(path@));
    }
    let dir: String = if slash < n {
        path.substring_char(0, slash).to_owned()
    } else {
        String::from_str(".")
    };
    proof {
        assert("."@ =~= seq!['.']);
    }
    let header: String = if is_hea {
        path.to_owned()
    } else {
        let mut h = path.substring_char(0, comp_start).to_owned();
        h.append(stem);
        h.append(".hea");
        proof {
            assert(".hea"@ =~= seq!['.', 'h', 'e', 'a']);
            assert(h@ =~= path@.take(spec_rfind(path@, '/') + 1) + spec_path_stem(path@) + seq![
                '.',
                'h',
                'e',
                'a',
            ]);
        }
        h
    };
    let name = stem.to_owned();
    (header, dir, name)
}

/// A record: the parsed header together with the in-memory store of the
/// files that back it. Readers are created on demand.
pub struct Record {
    header: Header,
    store: FileStore,
}

impl Record {
    /// The parsed header.
    pub closed spec fn spec_header(&self) -> Header {
        self.header
    }

    /// The file store.
    pub closed spec fn spec_store(&self) -> FileStore {
        self.store
    }

    /// Validity: the store is consistent.
    pub open spec fn wf(&self) -> bool {
        self.spec_store().wf()
    }

    /// Builds a record from a parsed header and the store of its files.
    pub fn from_header(header: Header, store: FileStore) -> (r: Record)
        requires
            store.wf(),
        ensures
            r.wf(),
            r.spec_header() == header,
            r.spec_store() == store,
    {
        Record { header, store }
    }

    /// The record metadata.
    pub fn metadata(&self) -> (r: &Metadata)
        ensures
            r == &self.spec_header().metadata,
    {
        &self.header.metadata
    }

    /// The header's specifications: signals or segments.
    pub fn specifications(&self) -> (r: &Specifications)
        ensures
            r == &self.spec_header().specifications,
    {
        &self.header.specifications
    }

    /// The signal specifications, for a single-segment record.
    pub fn signal_info(&self) -> (r: Option<&Vec<SignalInfo>>)
        ensures
            self.spec_header().specifications is SingleSegment <==> (r matches Some(v) && v
                == &self.spec_header().specifications->SingleSegment_signals),
            self.spec_header().specifications is MultiSegment <==> r is None,
    {
        self.header.signals()
    }

    /// The segment specifications, for a multi-segment record.
    pub fn segment_info(&self) -> (r: Option<&Vec<SegmentInfo>>)
        ensures
            self.spec_header().specifications is MultiSegment <==> (r matches Some(v) && v
                == &self.spec_header().specifications->MultiSegment_segments),
            self.spec_header().specifications is SingleSegment <==> r is None,
    {
        self.header.segments()
    }

    /// The header's info strings.
    pub fn info_strings(&self) -> (r: &Vec<String>)
        ensures
            r == &self.spec_header().info_strings,
    {
        &self.header.info_strings
    }

    /// Whether this is a multi-segment record.
    pub fn is_multi_segment(&self) -> (r: bool)
        ensures
            r == (self.spec_header().specifications is MultiSegment),
    {
        self.header.is_multi_segment()
    }

    /// The number of signals of a single-segment record; 0 for a
    /// multi-segment one.
    pub fn signal_count(&self) -> (r: usize)
        ensures
            self.spec_header().specifications is SingleSegment ==> r == self.spec_header(
            ).specifications->SingleSegment_signals@.len(),
            self.spec_header().specifications is MultiSegment ==> r == 0,
    {
        match self.header.signals() {
            Some(v) => v.len(),
            None => 0,
        }
    }

    /// The number of segments of a multi-segment record; 0 for a
    /// single-segment one.
    pub fn segment_count(&self) -> (r: usize)
        ensures
            self.spec_header().specifications is MultiSegment ==> r == self.spec_header(
            ).specifications->MultiSegment_segments@.len(),
            self.spec_header().specifications is SingleSegment ==> r == 0,
    {
        match self.header.segments() {
            Some(v) => v.len(),
            None => 0,
        }
    }

    /// Creates a reader for one signal of a single-segment record.
    ///
    /// Succeeds exactly when the record is single-segment, the index is in
    /// range (and the signal count sane), the signal's backing file is in
    /// the store, and its format is decodable; the reader then decodes that
    /// file's bytes. Fails with `InvalidHeader`, `InvalidPath` or
    /// `UnsupportedSignalFormat` otherwise.
    pub fn signal_reader(&self, signal_index: usize) -> (r: Result<SignalReader, Error>)
        requires
            self.wf(),
        ensures
            r is Ok <==> ({
                let specs = self.spec_header().specifications;
                &&& specs is SingleSegment
                &&& signal_index < specs->SingleSegment_signals@.len()
                &&& specs->SingleSegment_signals@.len() <= 0x1000_0000
                &&& spec_store_lookup(
                    self.spec_store().spec_file_names(),
                    self.spec_store().spec_file_data(),
                    specs->SingleSegment_signals@[signal_index as int].file_name@,
                    0,
                ) is Some
                &&& crate::signal::spec_decodable(
                    specs->SingleSegment_signals@[signal_index as int].format,
                )
            }),
            r matches Err(e) ==> (e is InvalidHeader || e is InvalidPath || e
                is UnsupportedSignalFormat),
            r matches Ok(sr) ==> {
                let signals = self.spec_header().specifications->SingleSegment_signals@;
                let info = signals[signal_index as int];
                &&& sr.wf()
                &&& sr.spec_signal_info() == info
                &&& spec_store_lookup(
                    self.spec_store().spec_file_names(),
                    self.spec_store().spec_file_data(),
                    info.file_name@,
                    0,
                ) == Some(sr.spec_data())
                &&& sr.spec_fmt() == info.format
                &&& sr.is_null() == (info.format is Format0)
                &&& sr.spec_init() == crate::record::multi_signal_reader::spec_sig_init(info)
                &&& sr.spec_width() == spec_group_count(
                    signals,
                    info.file_name@,
                    info.format,
                    signals.len() as int,
                )
                &&& sr.spec_idx() == spec_group_count(
                    signals,
                    info.file_name@,
                    info.format,
                    signal_index as int,
                )
                &&& sr.spec_offset() == crate::record::multi_signal_reader::spec_clip(
                    crate::record::multi_signal_reader::spec_sig_offset(info),
                    sr.spec_data().len() as int,
                )
                &&& sr.spec_position() == 0
                &&& sr.spec_sequential_future() == crate::signal::decode_stream(
                    info.format,
                    sr.spec_init(),
                    sr.spec_data().skip(sr.spec_offset()),
                )
            },
    {
        let signals = match self.header.signals() {
            Some(v) => v,
            None => {
                return Err(
                    Error::InvalidHeader(
                        String::from_str(
                            "Single signal readers are not supported for multi-segment records",
                        ),
                    ),
                );
            },
        };
        if signal_index >= signals.len() {
            return Err(Error::InvalidHeader(String::from_str("Signal index out of bounds")));
        }
        if signals.len() > 0x1000_0000 {
            return Err(Error::InvalidHeader(String::from_str("Too many signals")));
        }
        let info = &signals[signal_index];
        let data = match self.store.lookup_file(info.file_name.as_str()) {
            Some(d) => d,
            None => {
                let mut m = String::from_str("Missing signal file: ");
                m.append(info.file_name.as_str());
                return Err(Error::InvalidPath(m));
            },
        };
        SignalReader::new(data, info, signals, signal_index)
    }

    /// Creates a frame reader over all signals of a single-segment record.
    ///
    /// Succeeds exactly when the record is single-segment and a frame reader
    /// can be built over its signals out of the store; each signal is then
    /// carried by its file group per `MultiSignalReader::spec_covers`.
    pub fn multi_signal_reader(&self) -> (r: Result<MultiSignalReader, Error>)
        requires
            self.wf(),
        ensures
            r is Ok <==> (self.spec_header().specifications is SingleSegment
                && crate::record::multi_signal_reader::spec_msr_buildable(
                self.spec_store(),
                self.spec_header().specifications->SingleSegment_signals@,
            )),
            r matches Err(e) ==> (e is InvalidHeader || e is InvalidPath || e
                is UnsupportedSignalFormat),
            r matches Ok(msr) ==> {
                let signals = self.spec_header().specifications->SingleSegment_signals@;
                &&& msr.wf()
                &&& msr.spec_num_signals() == signals.len()
                &&& msr.spec_position() == 0
                &&& !msr.spec_done()
                &&& (forall|g: int|
                    0 <= g < msr.spec_group_count() ==> #[trigger] msr.spec_group_stream(g)
                        == crate::signal::decode_stream(
                        msr.spec_group_fmt(g),
                        msr.spec_group_init(g),
                        msr.spec_group_data(g).skip(msr.spec_group_offset(g)),
                    ))
                &&& (forall|k: int|
                    0 <= k < signals.len() ==> #[trigger] msr.spec_covers(
                        signals,
                        self.spec_store(),
                        k,
                    ))
            },
    {
        let signals = match self.header.signals() {
            Some(v) => v,
            None => {
                return Err(
                    Error::InvalidHeader(
                        String::from_str(
                            "Multi-signal readers are not supported for multi-segment records",
                        ),
                    ),
                );
            },
        };
        MultiSignalReader::new(&self.store, signals)
    }

    /// Creates a segment reader over a multi-segment record.
    pub fn segment_reader(&self) -> (r: Result<SegmentReader, Error>)
        requires
            self.wf(),
        ensures
            self.spec_header().specifications is SingleSegment <==> r is Err,
            r matches Err(e) ==> e is InvalidHeader,
            r matches Ok(sr) ==> {
                &&& sr.wf()
                &&& sr.spec_segments() == self.spec_header(
                ).specifications->MultiSegment_segments@
                &&& sr.spec_position() == 0
            },
    {
        let segments = match self.header.segments() {
            Some(v) => v,
            None => {
                return Err(
                    Error::InvalidHeader(
                        String::from_str(
                            "Segment readers are only supported for multi-segment records",
                        ),
                    ),
                );
            },
        };
        let mut segs: Vec<SegmentInfo> = Vec::new();
        let mut i: usize = 0;
        while i < segments.len()
            invariant
                i <= segments@.len(),
                segs@.len() == i,
                forall|k: int| 0 <= k < i ==> #[trigger] segs@[k] == segments@[k],
            decreases segments.len() - i,
        {
            let si = &segments[i];
            segs.push(SegmentInfo { record_name: si.record_name.clone(), num_samples: si.num_samples });
            proof {
                assert(segs@[i as int].record_name@ == segments@[i as int].record_name@);
            }
            i = i + 1;
        }
        proof {
            assert(segs@ =~= self.spec_header().specifications->MultiSegment_segments@);
        }
        Ok(SegmentReader::new(self.store.clone_store(), segs))
    }
}

} // verus!
