//! The segment manager of a multi-segment record: lazy loading of child
//! record headers out of the file store.

use vstd::prelude::*;

use crate::Error;
use crate::header::{Header, SegmentInfo};
use crate::header::common::{header_fields, spec_header_lines, spec_split_lines};
use crate::record::store::{FileStore, spec_store_lookup};

verus! {

/// Manager of a multi-segment record: the segment specifications from the
/// master header and the lazily parsed child headers.
pub struct SegmentManager {
    store: FileStore,
    segments: Vec<SegmentInfo>,
    headers: Vec<Option<Header>>,
    current: usize,
}

impl SegmentManager {
    /// The number of segments.
    pub open spec fn spec_num_segments(&self) -> int {
        self.spec_segments().len() as int
    }

    /// The segment specifications.
    pub closed spec fn spec_segments(&self) -> Seq<SegmentInfo> {
        self.segments@
    }

    /// The current segment index.
    pub closed spec fn spec_current(&self) -> int {
        self.current as int
    }

    /// Whether segment `i` has been loaded.
    pub closed spec fn spec_loaded(&self, i: int) -> bool {
        self.headers@[i] is Some
    }

    /// The loaded header of segment `i`.
    pub closed spec fn spec_header(&self, i: int) -> Header {
        self.headers@[i]->0
    }

    /// The file store the children are read from.
    pub closed spec fn spec_store(&self) -> FileStore {
        self.store
    }

    /// One load-state slot per segment; loaded children are single-segment
    /// headers parsed from the store under the segment's record name.
    pub closed spec fn wf(&self) -> bool {
        &&& self.headers@.len() == self.segments@.len()
        &&& self.store.wf()
        &&& forall|i: int|
            0 <= i < self.segments@.len() && #[trigger] self.headers@[i] is Some ==> {
                &&& (self.headers@[i]->0).specifications is SingleSegment
                &&& (spec_store_lookup(
                    self.store.spec_header_names(),
                    self.store.spec_header_texts(),
                    self.segments@[i].record_name@,
                    0,
                ) matches Some(text) && spec_header_lines(spec_split_lines(text)) == Some(
                    header_fields(&(self.headers@[i]->0)),
                ))
            }
    }

    /// Creates a manager; no segment is loaded yet, the cursor is at 0.
    pub fn new(store: FileStore, segments: Vec<SegmentInfo>) -> (r: SegmentManager)
        requires
            store.wf(),
        ensures
            r.wf(),
            r.spec_segments() == segments@,
            r.spec_current() == 0,
            forall|i: int| 0 <= i < segments@.len() ==> !r.spec_loaded(i),
    {
        let mut headers: Vec<Option<Header>> = Vec::new();
        let mut i: usize = 0;
        while i < segments.len()
            invariant
                i <= segments@.len(),
                headers@.len() == i,
                forall|k: int| 0 <= k < i ==> #[trigger] headers@[k] is None,
            decreases segments.len() - i,
        {
            headers.push(None);
            i = i + 1;
        }
        SegmentManager { store, segments, headers, current: 0 }
    }

    /// Loads segment `index`'s child header, when not yet loaded.
    ///
    /// A null segment (`~`) cannot be loaded: its data is unavailable. A
    /// missing child header is `InvalidPath`; a malformed one, or a nested
    /// multi-segment child, is `InvalidHeader`. On success the child header
    /// is recorded: it is single-segment and parses from the store's text
    /// under the segment's record name.
    pub fn load_segment(&mut self, index: usize) -> (r: Result<(), Error>)
        requires
            old(self).wf(),
        ensures
            final(self).wf(),
            final(self).spec_segments() == old(self).spec_segments(),
            final(self).spec_current() == old(self).spec_current(),
            final(self).spec_num_segments() == old(self).spec_num_segments(),
            forall|i: int|
                0 <= i < old(self).spec_num_segments() && i != index ==> #[trigger] final(self).spec_loaded(i)
                    == old(self).spec_loaded(i) && (old(self).spec_loaded(i) ==> final(self).spec_header(i)
                    == old(self).spec_header(i)),
            r is Ok ==> index < old(self).spec_num_segments() && final(self).spec_loaded(index as int),
            r is Ok ==> ({
                let name = old(self).spec_segments()[index as int].record_name@;
                let child = final(self).spec_header(index as int);
                &&& child.specifications is SingleSegment
                &&& (spec_store_lookup(
                    old(self).spec_store().spec_header_names(),
                    old(self).spec_store().spec_header_texts(),
                    name,
                    0,
                ) matches Some(text) && spec_header_lines(spec_split_lines(text)) == Some(
                    header_fields(&child),
                ))
            }),
            r matches Err(e) ==> (e is InvalidHeader || e is InvalidPath),
            index < old(self).spec_num_segments() && old(self).spec_loaded(index as int) ==> r
                is Ok,
            index >= old(self).spec_num_segments() ==> (r matches Err(e) && e is InvalidHeader),
            ({
                let name = old(self).spec_segments()[index as int].record_name@;
                let looked = spec_store_lookup(
                    old(self).spec_store().spec_header_names(),
                    old(self).spec_store().spec_header_texts(),
                    name,
                    0,
                );
                &&& (index < old(self).spec_num_segments() && !old(self).spec_loaded(
                    index as int,
                ) && name =~= seq!['~'] ==> (r matches Err(e) && e is InvalidHeader))
                &&& (index < old(self).spec_num_segments() && !old(self).spec_loaded(
                    index as int,
                ) && !(name =~= seq!['~']) && looked is None ==> (r matches Err(e) && e
                    is InvalidPath))
                &&& (index < old(self).spec_num_segments() && !old(self).spec_loaded(
                    index as int,
                ) && !(name =~= seq!['~']) && (looked matches Some(text)
                    && spec_header_lines(spec_split_lines(text)) is None) ==> (r matches Err(e)
                    && e is InvalidHeader))
                &&& (index < old(self).spec_num_segments() && !old(self).spec_loaded(
                    index as int,
                ) && !(name =~= seq!['~']) && (looked matches Some(text)
                    && spec_header_lines(spec_split_lines(text)) matches Some(hf) && hf.segments
                    is None) ==> r is Ok)
            }),
    {
        if index >= self.segments.len() {
            return Err(Error::InvalidHeader(String::from_str("Segment index out of bounds")));
        }
        match &self.headers[index] {
            Some(_) => {
                return Ok(());
            },
            None => {},
        }
        if self.segments[index].is_null_segment() {
            return Err(Error::InvalidHeader(String::from_str("Segment is null (missing data)")));
        }
        let text = match self.store.lookup_header(self.segments[index].record_name()) {
            Some(t) => t,
            None => {
                let mut m = String::from_str("Missing segment header: ");
                m.append(self.segments[index].record_name());
                return Err(Error::InvalidPath(m));
            },
        };
        let header = match Header::from_text(text.as_str()) {
            Ok(h) => h,
            Err(e) => {
                return Err(e);
            },
        };
        if header.is_multi_segment() {
            return Err(
                Error::InvalidHeader(
                    String::from_str("Nested multi-segment records are not supported"),
                ),
            );
        }
        let ghost pre = self.headers@;
        self.headers[index] = Some(header);
        proof {
            assert(forall|i: int|
                0 <= i < self.headers@.len() && i != index ==> #[trigger] self.headers@[i]
                    == pre[i]);
        }
        Ok(())
    }

    /// The signals of a loaded segment.
    pub fn segment_signals(&self, index: usize) -> (r: Option<&Vec<crate::header::SignalInfo>>)
        requires
            self.wf(),
            index < self.spec_num_segments(),
        ensures
            self.spec_loaded(index as int) <==> r is Some,
            r matches Some(v) ==> self.spec_header(index as int).specifications is SingleSegment
                && v == &self.spec_header(index as int).specifications->SingleSegment_signals,
    {
        match &self.headers[index] {
            Some(h) => {
                match &h.specifications {
                    crate::header::Specifications::SingleSegment { signals } => Some(signals),
                    crate::header::Specifications::MultiSegment { .. } => {
                        proof {
                            assert(false);
                        }
                        None
                    },
                }
            },
            None => None,
        }
    }

    /// The store the children are read from.
    pub fn store(&self) -> (r: &FileStore)
        ensures
            r == &self.spec_store(),
            self.wf() ==> r.wf(),
    {
        &self.store
    }

    /// Whether segment `index` is a null segment.
    pub fn is_null_segment(&self, index: usize) -> (r: bool)
        requires
            self.wf(),
            index < self.spec_num_segments(),
        ensures
            r == (self.spec_segments()[index as int].record_name@ =~= seq!['~']),
    {
        self.segments[index].is_null_segment()
    }

    /// The current segment index.
    pub fn current_index(&self) -> (r: usize)
        ensures
            r as int == self.spec_current(),
    {
        self.current
    }

    /// Moves the segment cursor.
    pub fn set_current(&mut self, index: usize)
        requires
            old(self).wf(),
        ensures
            final(self).wf(),
            final(self).spec_current() == index as int,
            final(self).spec_segments() == old(self).spec_segments(),
            forall|i: int|
                0 <= i < old(self).spec_num_segments() ==> #[trigger] final(self).spec_loaded(i)
                    == old(self).spec_loaded(i),
    {
        self.current = index;
    }

    /// The number of segments.
    pub fn num_segments(&self) -> (r: usize)
        ensures
            r as int == self.spec_num_segments(),
    {
        self.segments.len()
    }

    /// The specification of segment `index`.
    pub fn segment_info(&self, index: usize) -> (r: Option<&SegmentInfo>)
        ensures
            index < self.spec_num_segments() <==> (r matches Some(s) && s == &self.spec_segments()[
                index as int
            ]),
            index >= self.spec_num_segments() <==> r is None,
    {
        if index < self.segments.len() {
            Some(&self.segments[index])
        } else {
            None
        }
    }
}

} // verus!
