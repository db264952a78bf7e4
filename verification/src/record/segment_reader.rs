//! The multi-segment reader: a unified, seekable sample timeline over the
//! segments of a multi-segment record, loading each child lazily.

use vstd::prelude::*;

use crate::{Error, Sample};
use crate::header::SegmentInfo;
use crate::record::multi_signal_reader::MultiSignalReader;
use crate::record::segment::SegmentManager;
use crate::record::signal_reader::spec_sat64;
use crate::record::store::{FileStore, spec_store_lookup};
use crate::header::Specifications;
use crate::header::common::{spec_header_lines, spec_split_lines};
use crate::record::multi_signal_reader::spec_msr_buildable;
use crate::signal::spec_invalid;

verus! {

/// The total number of samples in segments `[0, i)`.
pub open spec fn spec_cumulative(segs: Seq<SegmentInfo>, i: int) -> int
    decreases i,
{
    if i <= 0 {
        0
    } else {
        spec_cumulative(segs, i - 1) + segs[i - 1].num_samples
    }
}

/// The index of the segment holding global sample `s`: the first `i` with
/// `cumulative(i) <= s < cumulative(i + 1)`; the number of segments when `s`
/// lies past the end.
pub open spec fn spec_segment_for(segs: Seq<SegmentInfo>, s: int, i: int) -> int
    decreases segs.len() - i,
{
    if i >= segs.len() {
        i
    } else if s < spec_cumulative(segs, i + 1) {
        i
    } else {
        spec_segment_for(segs, s, i + 1)
    }
}

/// Cumulative counts are monotone.
pub proof fn lemma_cumulative_monotone(segs: Seq<SegmentInfo>, a: int, b: int)
    requires
        0 <= a <= b,
    ensures
        spec_cumulative(segs, a) <= spec_cumulative(segs, b),
    decreases b - a,
{
    if a < b {
        lemma_cumulative_monotone(segs, a, b - 1);
    }
}

/// Reader over all segments of a multi-segment record.
///
/// Frames come from the current segment's reader; when a segment is
/// exhausted the next one is loaded and reading continues. Seeking finds the
/// segment holding the target sample, loads it, and positions its reader.
pub struct SegmentReader {
    manager: SegmentManager,
    current_reader: Option<MultiSignalReader>,
    samples_read: u64,
}

impl SegmentReader {
    /// The global sample position.
    pub closed spec fn spec_position(&self) -> int {
        self.samples_read as int
    }

    /// The segment specifications.
    pub closed spec fn spec_segments(&self) -> Seq<SegmentInfo> {
        self.manager.spec_segments()
    }

    /// The number of segments.
    pub open spec fn spec_num_segments(&self) -> int {
        self.spec_segments().len() as int
    }

    /// The current segment index.
    pub closed spec fn spec_current(&self) -> int {
        self.manager.spec_current()
    }

    /// Whether a segment reader is active.
    pub closed spec fn spec_active(&self) -> bool {
        self.current_reader is Some
    }

    /// The segment manager's state.
    pub closed spec fn spec_manager(&self) -> SegmentManager {
        self.manager
    }

    /// The current segment's reader, when one is active.
    pub closed spec fn spec_inner(&self) -> Option<MultiSignalReader> {
        self.current_reader
    }

    /// Whether the current segment's child header is loaded.
    pub closed spec fn spec_loaded_at_current(&self) -> bool {
        0 <= self.spec_current() < self.spec_num_segments() && self.manager.spec_loaded(
            self.spec_current(),
        )
    }

    /// Structural validity.
    pub closed spec fn wf(&self) -> bool {
        &&& self.manager.wf()
        &&& (self.current_reader matches Some(r) ==> r.wf())
    }

    /// Creates a reader over the segments; nothing is loaded yet.
    pub fn new(store: FileStore, segments: Vec<SegmentInfo>) -> (r: SegmentReader)
        requires
            store.wf(),
        ensures
            r.wf(),
            r.spec_position() == 0,
            r.spec_segments() == segments@,
            r.spec_current() == 0,
            !r.spec_active(),
    {
        SegmentReader {
            manager: SegmentManager::new(store, segments),
            current_reader: None,
            samples_read: 0,
        }
    }

    /// Read one frame from the current segment, loading it first when
    /// needed; on a clean end of segment, advance to the next one and retry.
    /// Returns `None` when every segment is exhausted: in particular when no
    /// reader is active and the cursor is already past the last segment.
    /// While the active segment's reader still holds a whole frame for every
    /// group, that frame comes back, one sample per signal at its slot, and
    /// the reader's streams advance by one frame. At a clean end of the
    /// active segment, the record ends (`None`) when no segment follows;
    /// reaching an unloaded null segment instead surfaces an error: its data
    /// is unavailable.
    pub fn read_frame(&mut self) -> (r: Result<Option<Vec<Sample>>, Error>)
        requires
            old(self).wf(),
        ensures
            final(self).wf(),
            final(self).spec_segments() == old(self).spec_segments(),
            final(self).spec_num_segments() == old(self).spec_num_segments(),
            (r matches Ok(f) && f is Some) ==> (r->Ok_0->Some_0).len() >= 1
                && final(self).spec_position() == spec_sat64(old(self).spec_position(), 1),
            (r matches Ok(f) && f is None) ==> final(self).spec_current()
                >= final(self).spec_num_segments() && final(self).spec_position()
                == old(self).spec_position(),
            r matches Err(e) ==> (e is InvalidHeader || e is InvalidPath || e
                is UnsupportedSignalFormat),
            !old(self).spec_active() && old(self).spec_current() < old(self).spec_num_segments()
                && old(self).spec_segments()[old(self).spec_current()].record_name@ =~= seq!['~']
                && !old(self).spec_loaded_at_current() ==> r is Err,
            !old(self).spec_active() && old(self).spec_current() >= old(self).spec_num_segments()
                ==> (r matches Ok(f) && f is None),
            (old(self).spec_inner() matches Some(inner) && !inner.spec_done()
                && inner.spec_all_full()) ==> ({
                let inner = old(self).spec_inner()->Some_0;
                &&& r matches Ok(f) && f matches Some(v) && v.len() == inner.spec_num_signals()
                &&& (forall|g: int, j: int|
                    0 <= g < inner.spec_group_count() && 0 <= j < inner.spec_group_width(g) ==> (
                    r->Ok_0->Some_0)@[#[trigger] inner.spec_group_slot(g, j)] as int == (
                    if inner.spec_group_null(g) {
                        spec_invalid()
                    } else {
                        inner.spec_group_stream(g)[j]
                    }))
                &&& final(self).spec_active()
                &&& ({
                    let fi = final(self).spec_inner()->Some_0;
                    &&& fi.spec_group_count() == inner.spec_group_count()
                    &&& (forall|g: int|
                        0 <= g < inner.spec_group_count() && !inner.spec_group_null(g)
                            ==> #[trigger] fi.spec_group_stream(g) == inner.spec_group_stream(
                            g,
                        ).skip(inner.spec_group_width(g)))
                })
                &&& final(self).spec_current() == old(self).spec_current()
            }),
            (old(self).spec_inner() matches Some(inner) && !inner.spec_done()
                && !inner.spec_all_full() && inner.spec_clean_eof() && old(self).spec_current() + 1
                >= old(self).spec_num_segments()) ==> (r matches Ok(f) && f is None),
            (old(self).spec_inner() matches Some(inner) && !inner.spec_done()
                && !inner.spec_all_full() && inner.spec_clean_eof() && old(self).spec_current() + 1
                < old(self).spec_num_segments() && old(self).spec_segments()[old(
                self,
            ).spec_current() + 1].record_name@ =~= seq!['~'] && !old(self).spec_manager().spec_loaded(
                old(self).spec_current() + 1,
            )) ==> (r matches Err(e) && e is InvalidHeader),
    {
        loop
            invariant_except_break
                self.wf(),
                self.spec_segments() == old(self).spec_segments(),
                self.spec_num_segments() == old(self).spec_num_segments(),
                self.spec_position() == old(self).spec_position(),
                old(self).spec_current() <= self.spec_current(),
                !old(self).spec_active() && self.spec_current() == old(self).spec_current()
                    ==> !self.spec_active(),
                (!old(self).spec_active() && old(self).spec_current() < old(
                    self,
                ).spec_num_segments() && old(self).spec_segments()[old(
                    self,
                ).spec_current()].record_name@ =~= seq!['~'] && !old(self).spec_loaded_at_current())
                    ==> (self.spec_current() == old(self).spec_current() && !self.spec_active()
                    && !self.spec_loaded_at_current()),
                (!old(self).spec_active() && old(self).spec_current() >= old(
                    self,
                ).spec_num_segments()) ==> *self == *old(self),
                (old(self).spec_inner() matches Some(inner) && !inner.spec_done()
                    && inner.spec_all_full()) ==> *self == *old(self),
                (old(self).spec_inner() matches Some(inner) && !inner.spec_done()
                    && !inner.spec_all_full() && inner.spec_clean_eof() && old(
                    self,
                ).spec_current() + 1 >= old(self).spec_num_segments()) ==> (*self == *old(self) || (
                self.spec_current() >= old(self).spec_current() + 1 && !self.spec_active())),
                (old(self).spec_inner() matches Some(inner) && !inner.spec_done()
                    && !inner.spec_all_full() && inner.spec_clean_eof() && old(
                    self,
                ).spec_current() + 1 < old(self).spec_num_segments() && old(self).spec_segments()[
                    old(self).spec_current() + 1
                ].record_name@ =~= seq!['~'] && !old(self).spec_manager().spec_loaded(
                    old(self).spec_current() + 1,
                )) ==> (*self == *old(self) || (self.spec_current() == old(self).spec_current() + 1
                    && !self.spec_active() && (forall|i: int|
                    0 <= i < old(self).spec_num_segments()
                        ==> #[trigger] self.spec_manager().spec_loaded(i) == old(
                        self,
                    ).spec_manager().spec_loaded(i)))),
            ensures
                self.wf(),
                self.spec_segments() == old(self).spec_segments(),
                self.spec_num_segments() == old(self).spec_num_segments(),
                self.spec_position() == old(self).spec_position(),
                self.spec_current() >= self.spec_num_segments(),
                !(!old(self).spec_active() && old(self).spec_current() < old(
                    self,
                ).spec_num_segments() && old(self).spec_segments()[old(
                    self,
                ).spec_current()].record_name@ =~= seq!['~'] && !old(
                    self,
                ).spec_loaded_at_current()),
                !(old(self).spec_inner() matches Some(inner) && !inner.spec_done()
                    && inner.spec_all_full()),
                !(old(self).spec_inner() matches Some(inner) && !inner.spec_done()
                    && !inner.spec_all_full() && inner.spec_clean_eof() && old(
                    self,
                ).spec_current() + 1 < old(self).spec_num_segments() && old(self).spec_segments()[
                    old(self).spec_current() + 1
                ].record_name@ =~= seq!['~'] && !old(self).spec_manager().spec_loaded(
                    old(self).spec_current() + 1,
                )),
            decreases 2 * (if self.spec_num_segments() >= self.spec_current() {
                self.spec_num_segments() - self.spec_current()
            } else {
                0
            }) + (if self.spec_active() {
                1int
            } else {
                0int
            }),
        {
            let cur = self.manager.current_index();
            let has_reader = match &self.current_reader {
                Some(_) => true,
                None => false,
            };
            let ghost c2h = old(self).spec_inner() matches Some(inner) && !inner.spec_done()
                && !inner.spec_all_full() && inner.spec_clean_eof() && old(self).spec_current() + 1
                < old(self).spec_num_segments() && (old(self).spec_segments()[old(
                self,
            ).spec_current() + 1].record_name@ =~= seq!['~']) && !old(
                self,
            ).spec_manager().spec_loaded(old(self).spec_current() + 1);
            proof {
                if old(self).spec_inner() is Some && *self == *old(self) {
                    assert(old(self).spec_active());
                    assert(self.current_reader is Some);
                }
                if c2h && !(*self == *old(self)) {
                    assert(self.spec_manager().spec_loaded(old(self).spec_current() + 1) == old(
                        self,
                    ).spec_manager().spec_loaded(old(self).spec_current() + 1));
                }
            }
            if !has_reader {
                if cur >= self.manager.num_segments() {
                    break;
                }
                match self.manager.load_segment(cur) {
                    Ok(()) => {},
                    Err(e) => {
                        return Err(e);
                    },
                }
                let reader = match self.manager.segment_signals(cur) {
                    Some(signals) => {
                        match MultiSignalReader::new(self.manager.store(), signals) {
                            Ok(r) => r,
                            Err(e) => {
                                return Err(e);
                            },
                        }
                    },
                    None => {
                        return Err(
                            Error::InvalidHeader(String::from_str("Segment has no signals")),
                        );
                    },
                };
                self.current_reader = Some(reader);
            }
            let ghost pre = *self;
            let frame = match &mut self.current_reader {
                Some(reader) => {
                    match reader.read_frame() {
                        Ok(f) => f,
                        Err(e) => {
                            return Err(e);
                        },
                    }
                },
                None => {
                    return Err(Error::InvalidHeader(String::from_str("No active segment")));
                },
            };
            if frame.len() > 0 {
                self.samples_read = crate::record::signal_reader::sat_add64(self.samples_read, 1);
                return Ok(Some(frame));
            }
            // The current segment is exhausted: advance.
            self.current_reader = None;
            if cur >= self.manager.num_segments() {
                break;
            }
            self.manager.set_current(cur + 1);
            proof {
                if pre == *old(self) {
                    assert forall|i: int|
                        0 <= i < old(self).spec_num_segments() implies #[trigger] self.spec_manager().spec_loaded(
                        i,
                    ) == old(self).spec_manager().spec_loaded(i) by {
                        assert(self.manager.spec_loaded(i) == pre.manager.spec_loaded(i));
                    }
                }
            }
        }
        Ok(None)
    }

    /// Read up to `count` frames; stops early when the record is exhausted:
    /// a shorter result leaves the segment cursor past the last segment, and
    /// the position advances by exactly the frames returned.
    pub fn read_frames(&mut self, count: usize) -> (r: Result<Vec<Vec<Sample>>, Error>)
        requires
            old(self).wf(),
        ensures
            final(self).wf(),
            final(self).spec_segments() == old(self).spec_segments(),
            r matches Ok(v) ==> v.len() <= count,
            r matches Ok(v) ==> forall|i: int|
                0 <= i < (r->Ok_0).len() ==> (#[trigger] (r->Ok_0)@[i]).len() >= 1,
            r matches Ok(v) ==> final(self).spec_position() == spec_sat64(
                old(self).spec_position(),
                v.len() as int,
            ),
            r matches Ok(v) ==> (v.len() < count ==> final(self).spec_current()
                >= final(self).spec_num_segments()),
    {
        let mut frames: Vec<Vec<Sample>> = Vec::new();
        let mut k: usize = 0;
        while k < count
            invariant_except_break
                k <= count,
                frames.len() == k,
                self.wf(),
                self.spec_segments() == old(self).spec_segments(),
                self.spec_position() == spec_sat64(old(self).spec_position(), k as int),
                forall|i: int| 0 <= i < frames@.len() ==> (#[trigger] frames@[i]).len() >= 1,
            ensures
                self.wf(),
                self.spec_segments() == old(self).spec_segments(),
                frames.len() <= count,
                self.spec_position() == spec_sat64(old(self).spec_position(), frames.len() as int),
                frames.len() < count ==> self.spec_current() >= self.spec_num_segments(),
                forall|i: int| 0 <= i < frames@.len() ==> (#[trigger] frames@[i]).len() >= 1,
            decreases count - k,
        {
            let frame = match self.read_frame() {
                Ok(Some(f)) => f,
                Ok(None) => {
                    break;
                },
                Err(e) => {
                    return Err(e);
                },
            };
            frames.push(frame);
            k = k + 1;
        }
        Ok(frames)
    }

    /// Seek to a global sample index: find the segment holding it in the
    /// cumulative timeline, load that segment, and position its reader at
    /// the offset within it. The segment's reader then stands exactly at
    /// that offset. Failure is owed to a cause: the sample lies beyond the
    /// record's end, the target segment cannot be loaded (it is null, its
    /// header is missing or malformed, or it nests segments), or its signals
    /// cannot be opened from the store.
    pub fn seek_to_sample(&mut self, sample: u64) -> (r: Result<u64, Error>)
        requires
            old(self).wf(),
        ensures
            final(self).wf(),
            final(self).spec_segments() == old(self).spec_segments(),
            final(self).spec_num_segments() == old(self).spec_num_segments(),
            r matches Ok(p) ==> {
                &&& p == sample
                &&& final(self).spec_position() == sample as int
                &&& final(self).spec_current() == spec_segment_for(old(self).spec_segments(), sample as int, 0)
                &&& final(self).spec_active()
                &&& (final(self).spec_inner() matches Some(inner) && inner.spec_position()
                    == sample as int - spec_cumulative(
                    old(self).spec_segments(),
                    spec_segment_for(old(self).spec_segments(), sample as int, 0),
                ))
            },
            spec_segment_for(old(self).spec_segments(), sample as int, 0) >= old(
                self,
            ).spec_num_segments() ==> (r matches Err(e) && e is InvalidHeader),
            r matches Err(e) ==> (e is InvalidHeader || e is InvalidPath || e
                is UnsupportedSignalFormat),
            r is Err ==> ({
                let segs = old(self).spec_segments();
                let i = spec_segment_for(segs, sample as int, 0);
                let mgr = old(self).spec_manager();
                let name = segs[i].record_name@;
                let looked = spec_store_lookup(
                    mgr.spec_store().spec_header_names(),
                    mgr.spec_store().spec_header_texts(),
                    name,
                    0,
                );
                ||| i >= old(self).spec_num_segments()
                ||| (!mgr.spec_loaded(i) && ((name =~= seq!['~']) || looked is None || (
                looked matches Some(text) && spec_header_lines(spec_split_lines(text)) is None) || (
                looked matches Some(text2) && spec_header_lines(spec_split_lines(text2)) matches Some(
                    hf,
                ) && hf.segments is Some)))
                ||| (final(self).spec_manager().spec_header(i).specifications matches Specifications::SingleSegment {
                    signals,
                } && final(self).spec_manager().spec_loaded(i) && !spec_msr_buildable(
                    final(self).spec_manager().spec_store(),
                    signals@,
                ))
            }),
    {
        let ghost segs = self.spec_segments();
        let n = self.manager.num_segments();
        let mut i: usize = 0;
        let mut cum: u64 = 0;
        while i < n
            invariant_except_break
                i <= n,
                self.wf(),
                n as int == self.spec_num_segments(),
                segs == self.spec_segments(),
                cum as int == spec_cumulative(segs, i as int),
                cum <= sample,
                spec_segment_for(segs, sample as int, 0) == spec_segment_for(
                    segs,
                    sample as int,
                    i as int,
                ),
            ensures
                self.wf(),
                n as int == self.spec_num_segments(),
                segs == self.spec_segments(),
                i < n ==> {
                    &&& spec_segment_for(segs, sample as int, 0) == i as int
                    &&& cum as int == spec_cumulative(segs, i as int)
                    &&& cum <= sample
                    &&& sample - cum < segs[i as int].num_samples
                },
                i >= n ==> spec_segment_for(segs, sample as int, 0) >= n as int,
            decreases n - i,
        {
            let ns = match self.manager.segment_info(i) {
                Some(s) => s.num_samples,
                None => 0,
            };
            proof {
                assert(spec_cumulative(segs, i as int + 1) == spec_cumulative(segs, i as int)
                    + segs[i as int].num_samples);
            }
            if sample - cum < ns {
                break;
            }
            proof {
                assert(spec_segment_for(segs, sample as int, i as int) == spec_segment_for(
                    segs,
                    sample as int,
                    i as int + 1,
                ));
            }
            cum = match cum.checked_add(ns) {
                Some(c) => c,
                None => {
                    // The cumulative count exceeded `u64::MAX`, yet the
                    // target sample fits in a `u64`: unreachable.
                    proof {
                        assert(sample - cum >= ns);
                        assert(false);
                    }
                    u64::MAX
                },
            };
            i = i + 1;
        }
        if i >= n {
            return Err(
                Error::InvalidHeader(String::from_str("Sample is beyond the end of the record")),
            );
        }
        let offset = sample - cum;
        match self.manager.load_segment(i) {
            Ok(()) => {},
            Err(e) => {
                return Err(e);
            },
        }
        let mut reader = match self.manager.segment_signals(i) {
            Some(signals) => {
                match MultiSignalReader::new(self.manager.store(), signals) {
                    Ok(r) => r,
                    Err(e) => {
                        return Err(e);
                    },
                }
            },
            None => {
                return Err(Error::InvalidHeader(String::from_str("Segment has no signals")));
            },
        };
        match reader.seek_to_frame(offset) {
            Ok(_) => {},
            Err(e) => {
                return Err(e);
            },
        }
        self.manager.set_current(i);
        self.current_reader = Some(reader);
        self.samples_read = sample;
        Ok(sample)
    }

    /// The global sample position.
    pub fn position(&self) -> (r: u64)
        ensures
            r as int == self.spec_position(),
    {
        self.samples_read
    }

    /// The total number of samples across all segments, saturated at the
    /// counter's range.
    pub fn total_samples(&self) -> (r: u64)
        requires
            self.wf(),
        ensures
            r as int == (if spec_cumulative(self.spec_segments(), self.spec_num_segments())
                <= u64::MAX {
                spec_cumulative(self.spec_segments(), self.spec_num_segments())
            } else {
                u64::MAX as int
            }),
    {
        let n = self.manager.num_segments();
        let mut i: usize = 0;
        let mut total: u64 = 0;
        while i < n
            invariant
                i <= n,
                self.wf(),
                n as int == self.spec_num_segments(),
                total as int == (if spec_cumulative(self.spec_segments(), i as int) <= u64::MAX {
                    spec_cumulative(self.spec_segments(), i as int)
                } else {
                    u64::MAX as int
                }),
            decreases n - i,
        {
            let ns = match self.manager.segment_info(i) {
                Some(s) => s.num_samples,
                None => 0,
            };
            total = crate::record::signal_reader::sat_add64(total, ns);
            i = i + 1;
        }
        total
    }

    /// The current segment index.
    pub fn current_segment(&self) -> (r: usize)
        ensures
            r as int == self.spec_current(),
    {
        self.manager.current_index()
    }

    /// The number of segments.
    pub fn num_segments(&self) -> (r: usize)
        ensures
            r as int == self.spec_num_segments(),
    {
        self.manager.num_segments()
    }
}

} // verus!
