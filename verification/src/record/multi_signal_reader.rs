//! The frame reader: one sample per signal per frame, across the files that
//! back a single-segment record.

use vstd::prelude::*;

use crate::{Error, Sample};
use crate::header::SignalInfo;
use crate::record::store::{FileStore, spec_store_lookup};
use crate::record::signal_reader::spec_sat64;
use crate::signal::{ByteCursor, Decoder, decode_stream, get_decoder, spec_bytes_per_frame,
    spec_decodable, spec_invalid};
use crate::SignalFormat;

verus! {


/// The number of signals among `sigs[0..k]` whose file name is `name`: the
/// width of a file group over a prefix, and a signal's rank within its group
/// when `k` is its index.
pub open spec fn spec_name_count(sigs: Seq<SignalInfo>, name: Seq<char>, k: int) -> int
    decreases k,
{
    if k <= 0 {
        0
    } else {
        spec_name_count(sigs, name, k - 1) + (if sigs[k - 1].file_name@ == name {
            1int
        } else {
            0int
        })
    }
}

/// The name count is bounded by the prefix length.
pub proof fn lemma_name_count_bounds(sigs: Seq<SignalInfo>, name: Seq<char>, k: int)
    ensures
        0 <= spec_name_count(sigs, name, k) <= (if k >= 0 {
            k
        } else {
            0
        }),
    decreases k,
{
    if k > 0 {
        lemma_name_count_bounds(sigs, name, k - 1);
    }
}

/// When nothing in `sigs[0..k]` carries `name`, the count is zero.
proof fn lemma_name_count_zero(sigs: Seq<SignalInfo>, name: Seq<char>, k: int)
    requires
        forall|j: int| 0 <= j < k ==> sigs[j].file_name@ != name,
    ensures
        spec_name_count(sigs, name, k) == 0,
    decreases k,
{
    if k > 0 {
        lemma_name_count_zero(sigs, name, k - 1);
    }
}

/// The index of the first signal whose file name is `name`, or the length.
pub open spec fn spec_first_with_name(sigs: Seq<SignalInfo>, name: Seq<char>, i: int) -> int
    decreases sigs.len() - i,
{
    if i >= sigs.len() {
        i
    } else if sigs[i].file_name@ == name {
        i
    } else {
        spec_first_with_name(sigs, name, i + 1)
    }
}

/// `spec_first_with_name` is bounded, points at a match, and nothing before
/// it matches.
pub proof fn lemma_first_with_name(sigs: Seq<SignalInfo>, name: Seq<char>, i: int)
    requires
        0 <= i <= sigs.len(),
    ensures
        i <= spec_first_with_name(sigs, name, i) <= sigs.len(),
        spec_first_with_name(sigs, name, i) < sigs.len() ==> sigs[spec_first_with_name(
            sigs,
            name,
            i,
        )].file_name@ == name,
        forall|j: int|
            i <= j < spec_first_with_name(sigs, name, i) ==> sigs[j].file_name@ != name,
    decreases sigs.len() - i,
{
    if i < sigs.len() && sigs[i].file_name@ != name {
        lemma_first_with_name(sigs, name, i + 1);
    }
}

/// The initial accumulator value a signal configures: its declared initial
/// value for the differential format, zero otherwise.
pub open spec fn spec_sig_init(si: SignalInfo) -> int {
    if si.format is Format8 {
        match si.initial_value {
            Some(v) => v as int,
            None => 0int,
        }
    } else {
        0int
    }
}

/// The byte offset a signal declares (zero when absent).
pub open spec fn spec_sig_offset(si: SignalInfo) -> int {
    match si.byte_offset {
        Some(o) => o as int,
        None => 0int,
    }
}

/// `x` clamped to the interval `[0, len]`.
pub open spec fn spec_clip(x: int, len: int) -> int {
    if x <= len {
        x
    } else {
        len
    }
}

/// Whether a frame reader can be built over `signals` out of `store`: at
/// least one signal (and not absurdly many), every backing file present, and
/// every file group's leading signal of a decodable format.
pub open spec fn spec_msr_buildable(store: FileStore, signals: Seq<SignalInfo>) -> bool {
    &&& 1 <= signals.len() <= 0x1000_0000
    &&& forall|k: int|
        #![trigger signals[k]]
        0 <= k < signals.len() ==> spec_store_lookup(
            store.spec_file_names(),
            store.spec_file_data(),
            signals[k].file_name@,
            0,
        ) is Some
    &&& forall|k: int|
        #![trigger signals[k]]
        0 <= k < signals.len() ==> spec_decodable(
            signals[spec_first_with_name(signals, signals[k].file_name@, 0)].format,
        )
}

/// The minimum frame count over the non-null groups among `groups[0..upto]`,
/// or `None` when all of them are null.
spec fn spec_min_avail(groups: Seq<FileGroup>, upto: int) -> Option<int>
    decreases upto,
{
    if upto <= 0 {
        None
    } else {
        let rest = spec_min_avail(groups, upto - 1);
        if groups[upto - 1].decoder.is_null() {
            rest
        } else {
            let a = groups[upto - 1].decoder.future(groups[upto - 1].cursor.remaining()).len()
                as int / groups[upto - 1].slots@.len() as int;
            match rest {
                None => Some(a),
                Some(b) => if a < b {
                    Some(a)
                } else {
                    Some(b)
                },
            }
        }
    }
}

/// The minimum is a lower bound attained by some non-null group; `None`
/// means every group is null.
proof fn lemma_min_avail(groups: Seq<FileGroup>, upto: int)
    requires
        0 <= upto <= groups.len(),
    ensures
        spec_min_avail(groups, upto) is None ==> forall|g: int|
            0 <= g < upto ==> #[trigger] groups[g].decoder.is_null(),
        spec_min_avail(groups, upto) matches Some(m) ==> forall|g: int|
            0 <= g < upto && !(#[trigger] groups[g].decoder.is_null()) ==> m <= groups[
                g
            ].decoder.future(groups[g].cursor.remaining()).len() as int / groups[
                g
            ].slots@.len() as int,
        spec_min_avail(groups, upto) matches Some(m) ==> exists|g: int|
            0 <= g < upto && !(#[trigger] groups[g].decoder.is_null()) && m == groups[
                g
            ].decoder.future(groups[g].cursor.remaining()).len() as int / groups[
                g
            ].slots@.len() as int,
    decreases upto,
{
    if upto > 0 {
        lemma_min_avail(groups, upto - 1);
    }
}

/// With a positive frame width, holding `i + 1` whole frames is the same as
/// `i` lying below the stream's frame count.
proof fn lemma_frames_div(len: int, w: int, i: int)
    requires
        w >= 1,
        len >= 0,
        i >= 0,
    ensures
        ((i + 1) * w <= len) <==> (i < len / w),
        (len < (i + 1) * w && len >= i * w) ==> len / w == i,
{
    vstd::arithmetic::div_mod::lemma_fundamental_div_mod(len, w);
    vstd::arithmetic::div_mod::lemma_mod_bound(len, w);
    vstd::arithmetic::div_mod::lemma_div_pos_is_pos(len, w);
    assert((((i + 1) * w <= len) <==> (i < len / w)) && ((len < (i + 1) * w && len >= i * w)
        ==> len / w == i)) by (nonlinear_arith)
        requires
            len == w * (len / w) + len % w,
            0 <= len % w < w,
            w >= 1,
            i >= 0,
            len / w >= 0,
    ;
}

/// `k` whole frames fit inside a stream holding at least `k` of them.
proof fn lemma_frames_fit(len: int, w: int, k: int)
    requires
        w >= 1,
        len >= 0,
        0 <= k <= len / w,
    ensures
        k * w <= len,
{
    vstd::arithmetic::div_mod::lemma_fundamental_div_mod(len, w);
    vstd::arithmetic::div_mod::lemma_mod_bound(len, w);
    assert(k * w <= len) by (nonlinear_arith)
        requires
            len == w * (len / w) + len % w,
            0 <= len % w,
            0 <= k <= len / w,
            w >= 1,
    ;
}

/// Whether some group member holds output slot `kk`.
spec fn spec_slot_covered(groups: Seq<FileGroup>, kk: int) -> bool {
    exists|g: int, j: int|
        0 <= g < groups.len() && 0 <= j < groups[g].slots@.len() && #[trigger] groups[g].slots@[j]
            == kk
}

/// One group of signals sharing a backing file: the file's cursor, the
/// group's decoder, and the output slot of each member, in header order.
struct FileGroup {
    file_name: String,
    decoder: Decoder,
    cursor: ByteCursor,
    /// Byte offset of sample 0, clamped to the file length.
    initial_offset: u64,
    /// Output slots: the signal index of each group member.
    slots: Vec<usize>,
}

/// Validity carries over to a reader whose groups differ only in decoder
/// and cursor state.
proof fn lemma_wf_like(pre: &MultiSignalReader, cur: &MultiSignalReader)
    requires
        pre.wf(),
        cur.spec_num_signals() == pre.spec_num_signals(),
        cur.spec_group_count() == pre.spec_group_count(),
        forall|x: int|
            #![trigger cur.groups@[x]]
            0 <= x < cur.spec_group_count() ==> {
                &&& cur.groups@[x].slots == pre.groups@[x].slots
                &&& cur.groups@[x].cursor.wf()
                &&& cur.groups@[x].cursor.spec_data() == pre.groups@[x].cursor.spec_data()
                &&& cur.groups@[x].initial_offset == pre.groups@[x].initial_offset
            },
    ensures
        cur.wf(),
{
    assert forall|g1: int, j1: int, g2: int, j2: int|
        #![trigger cur.spec_group_slot(g1, j1), cur.spec_group_slot(g2, j2)]
        0 <= g1 < cur.spec_group_count() && 0 <= j1 < cur.spec_group_width(g1) && 0 <= g2
            < cur.spec_group_count() && 0 <= j2 < cur.spec_group_width(g2) && (g1 != g2 || j1
            != j2) implies cur.spec_group_slot(g1, j1) != cur.spec_group_slot(g2, j2) by {
        assert(cur.groups@[g1].slots == pre.groups@[g1].slots);
        assert(cur.groups@[g2].slots == pre.groups@[g2].slots);
        assert(pre.spec_group_slot(g1, j1) != pre.spec_group_slot(g2, j2));
    }
    assert forall|g: int| #![trigger cur.groups@[g]] 0 <= g < cur.spec_group_count() implies {
        &&& 1 <= cur.spec_group_width(g) <= 0x1000_0000
        &&& cur.groups@[g].cursor.wf()
        &&& cur.groups@[g].initial_offset <= cur.spec_group_data(g).len()
        &&& forall|j: int|
            0 <= j < cur.spec_group_width(g) ==> 0 <= #[trigger] cur.spec_group_slot(g, j)
                < cur.spec_num_signals()
    } by {
        assert(pre.groups@[g] == pre.groups@[g]);
        assert(1 <= pre.spec_group_width(g) <= 0x1000_0000);
        assert forall|j: int|
            0 <= j < cur.spec_group_width(g) implies 0 <= #[trigger] cur.spec_group_slot(g, j)
                < cur.spec_num_signals() by {
            assert(0 <= pre.spec_group_slot(g, j) < pre.spec_num_signals());
        }
    }
}

/// Reader for all signals of a single-segment record, one frame at a time.
///
/// Each frame carries one sample per signal, in header order. Signals
/// sharing a backing file form one group decoded together; a frame is read
/// by decoding one group-width of samples from every group and placing each
/// at its signal's slot.
pub struct MultiSignalReader {
    groups: Vec<FileGroup>,
    num_signals: usize,
    current_frame: u64,
    done: bool,
}

impl MultiSignalReader {
    /// The number of signals; every frame has this length.
    pub closed spec fn spec_num_signals(&self) -> int {
        self.num_signals as int
    }

    /// The current frame position.
    pub closed spec fn spec_position(&self) -> int {
        self.current_frame as int
    }

    /// Whether the reader has hit end of stream or an error.
    pub closed spec fn spec_done(&self) -> bool {
        self.done
    }

    /// The number of file groups.
    pub closed spec fn spec_group_count(&self) -> int {
        self.groups@.len() as int
    }

    /// The interleave width of group `g`.
    pub closed spec fn spec_group_width(&self, g: int) -> int {
        self.groups@[g].slots@.len() as int
    }

    /// The output slot of member `j` of group `g`.
    pub closed spec fn spec_group_slot(&self, g: int, j: int) -> int {
        self.groups@[g].slots@[j] as int
    }

    /// Whether group `g` decodes the null format.
    pub closed spec fn spec_group_null(&self, g: int) -> bool {
        self.groups@[g].decoder.is_null()
    }

    /// The format group `g` decodes.
    pub closed spec fn spec_group_fmt(&self, g: int) -> SignalFormat {
        self.groups@[g].decoder.spec_fmt()
    }

    /// The initial accumulator value of group `g`.
    pub closed spec fn spec_group_init(&self, g: int) -> int {
        self.groups@[g].decoder.spec_init()
    }

    /// The file bytes backing group `g`.
    pub closed spec fn spec_group_data(&self, g: int) -> Seq<u8> {
        self.groups@[g].cursor.spec_data()
    }

    /// The byte offset of sample 0 in group `g`.
    pub closed spec fn spec_group_offset(&self, g: int) -> int {
        self.groups@[g].initial_offset as int
    }

    /// The samples still ahead of group `g` from its current state.
    pub closed spec fn spec_group_stream(&self, g: int) -> Seq<int> {
        self.groups@[g].decoder.future(self.groups@[g].cursor.remaining())
    }

    /// The number of whole frames group `g`'s remaining stream still holds.
    pub open spec fn spec_group_avail(&self, g: int) -> int {
        self.spec_group_stream(g).len() as int / self.spec_group_width(g)
    }

    /// The number of whole frames every group still holds: the minimum over
    /// the non-null groups, or `None` when every group is null (a null
    /// record never runs out).
    pub closed spec fn spec_frames_avail(&self) -> Option<int> {
        spec_min_avail(self.groups@, self.groups@.len() as int)
    }

    /// How many frames a budget of `count` can actually produce.
    pub open spec fn spec_frames_budget(&self, count: int) -> int {
        match self.spec_frames_avail() {
            None => count,
            Some(a) => if a < 0 {
                0
            } else if a < count {
                a
            } else {
                count
            },
        }
    }

    /// Every non-null group still holds at least one whole frame.
    pub open spec fn spec_all_full(&self) -> bool {
        forall|g: int|
            0 <= g < self.spec_group_count() ==> self.spec_group_null(g)
                || #[trigger] self.spec_group_stream(g).len() >= self.spec_group_width(g)
    }

    /// Every non-null group holds a whole frame or nothing at all: the
    /// streams can only end cleanly on a frame boundary.
    pub open spec fn spec_clean_eof(&self) -> bool {
        forall|g: int|
            0 <= g < self.spec_group_count() ==> self.spec_group_null(g)
                || #[trigger] self.spec_group_stream(g).len() >= self.spec_group_width(g)
                || self.spec_group_stream(g).len() == 0
    }

    /// No two group members share an output slot.
    pub open spec fn slots_injective(&self) -> bool {
        forall|g1: int, j1: int, g2: int, j2: int|
            #![trigger self.spec_group_slot(g1, j1), self.spec_group_slot(g2, j2)]
            0 <= g1 < self.spec_group_count() && 0 <= j1 < self.spec_group_width(g1) && 0 <= g2
                < self.spec_group_count() && 0 <= j2 < self.spec_group_width(g2) && (g1 != g2 || j1
                != j2) ==> self.spec_group_slot(g1, j1) != self.spec_group_slot(g2, j2)
    }

    /// Structural validity: sane widths, slots in range and not shared,
    /// cursors in bounds.
    pub closed spec fn wf(&self) -> bool {
        &&& self.num_signals >= 1
        &&& self.slots_injective()
        &&& forall|g: int|
            #![trigger self.groups@[g]]
            0 <= g < self.spec_group_count() ==> {
                &&& 1 <= self.spec_group_width(g) <= 0x1000_0000
                &&& self.groups@[g].cursor.wf()
                &&& self.groups@[g].initial_offset <= self.spec_group_data(g).len()
                &&& forall|j: int|
                    0 <= j < self.spec_group_width(g) ==> 0 <= #[trigger] self.spec_group_slot(
                        g,
                        j,
                    ) < self.spec_num_signals()
            }
    }


    /// How signal `k` of `signals` is carried by this reader: some group
    /// member holds output slot `k`, at the signal's rank among the signals
    /// sharing its file; the group decodes that file's bytes from the store,
    /// with the format, initial value and byte offset of the group's first
    /// signal.
    pub open spec fn spec_covers(&self, signals: Seq<SignalInfo>, store: FileStore, k: int) -> bool {
        exists|g: int, j: int|
            {
                let name = signals[k].file_name@;
                let leader = signals[spec_first_with_name(signals, name, 0)];
                &&& 0 <= g < self.spec_group_count()
                &&& 0 <= j < self.spec_group_width(g)
                &&& #[trigger] self.spec_group_slot(g, j) == k
                &&& j == spec_name_count(signals, name, k)
                &&& self.spec_group_width(g) == spec_name_count(signals, name, signals.len() as int)
                &&& self.spec_group_fmt(g) == leader.format
                &&& self.spec_group_init(g) == spec_sig_init(leader)
                &&& self.spec_group_null(g) == (leader.format is Format0)
                &&& spec_store_lookup(
                    store.spec_file_names(),
                    store.spec_file_data(),
                    name,
                    0,
                ) == Some(self.spec_group_data(g))
                &&& self.spec_group_offset(g) == spec_clip(
                    spec_sig_offset(leader),
                    self.spec_group_data(g).len() as int,
                )
            }
    }

    /// Creates a frame reader over the files that back `signals`.
    ///
    /// Fails with `InvalidHeader` when there are no signals (or absurdly
    /// many), with `InvalidPath` when a backing file is missing from the
    /// store, and with `UnsupportedSignalFormat` when a group's format
    /// cannot be decoded. Each group's decoder is built from the group's
    /// first signal; the reader starts at frame 0.
    #[verifier::rlimit(100)]
    pub fn new(files: &FileStore, signals: &Vec<SignalInfo>) -> (r: Result<
        MultiSignalReader,
        Error,
    >)
        requires
            files.wf(),
        ensures
            r is Ok <==> spec_msr_buildable(*files, signals@),
            match r {
                Ok(msr) => {
                    &&& msr.wf()
                    &&& msr.spec_num_signals() == signals@.len()
                    &&& msr.spec_position() == 0
                    &&& !msr.spec_done()
                    &&& (forall|g: int|
                        0 <= g < msr.spec_group_count() ==> #[trigger] msr.spec_group_stream(g)
                            == decode_stream(
                            msr.spec_group_fmt(g),
                            msr.spec_group_init(g),
                            msr.spec_group_data(g).skip(msr.spec_group_offset(g)),
                        ))
                    &&& (forall|k: int|
                        0 <= k < signals@.len() ==> #[trigger] msr.spec_covers(
                            signals@,
                            *files,
                            k,
                        ))
                },
                Err(e) => e is InvalidHeader || e is InvalidPath || e
                    is UnsupportedSignalFormat,
            },
    {
        let ghost sv = signals@;
        let ghost names = files.spec_file_names();
        let ghost datas = files.spec_file_data();
        if signals.len() == 0 {
            return Err(Error::InvalidHeader(String::from_str("No signals to read")));
        }
        if signals.len() > 0x1000_0000 {
            return Err(Error::InvalidHeader(String::from_str("Too many signals")));
        }
        let mut groups: Vec<FileGroup> = Vec::new();
        let mut k: usize = 0;
        while k < signals.len()
            invariant
                k <= signals.len(),
                1 <= signals.len() <= 0x1000_0000,
                files.wf(),
                sv == signals@,
                names == files.spec_file_names(),
                datas == files.spec_file_data(),
                forall|g: int|
                    #![trigger groups@[g]]
                    0 <= g < groups@.len() ==> {
                        let name = groups@[g].file_name@;
                        let fi = spec_first_with_name(sv, name, 0);
                        &&& 1 <= groups@[g].slots@.len() <= k
                        &&& groups@[g].cursor.wf()
                        &&& groups@[g].initial_offset <= groups@[g].cursor.spec_data().len()
                        &&& groups@[g].decoder.future(groups@[g].cursor.remaining())
                            == decode_stream(
                            groups@[g].decoder.spec_fmt(),
                            groups@[g].decoder.spec_init(),
                            groups@[g].cursor.spec_data().skip(groups@[g].initial_offset as int),
                        )
                        &&& 0 <= fi < k
                        &&& sv[fi].file_name@ == name
                        &&& groups@[g].decoder.spec_fmt() == sv[fi].format
                        &&& groups@[g].decoder.spec_init() == spec_sig_init(sv[fi])
                        &&& spec_store_lookup(names, datas, name, 0) == Some(
                            groups@[g].cursor.spec_data(),
                        )
                        &&& groups@[g].initial_offset as int == spec_clip(
                            spec_sig_offset(sv[fi]),
                            groups@[g].cursor.spec_data().len() as int,
                        )
                        &&& groups@[g].slots@.len() == spec_name_count(sv, name, k as int)
                        &&& (forall|j: int|
                            0 <= j < groups@[g].slots@.len() ==> {
                                &&& #[trigger] groups@[g].slots@[j] < k
                                &&& sv[groups@[g].slots@[j] as int].file_name@ == name
                                &&& j == spec_name_count(sv, name, groups@[g].slots@[j] as int)
                            })
                    },
                forall|g1: int, g2: int|
                    0 <= g1 < groups@.len() && 0 <= g2 < groups@.len() && g1 != g2
                        ==> #[trigger] groups@[g1].file_name@ != #[trigger] groups@[
                        g2
                    ].file_name@,
                forall|kk: int| 0 <= kk < k ==> #[trigger] spec_slot_covered(groups@, kk),
            decreases signals.len() - k,
        {
            // Is this signal's file already grouped?
            let sig = &signals[k];
            let mut gi: usize = 0;
            while gi < groups.len()
                invariant
                    gi <= groups.len(),
                    sv == signals@,
                    k < sv.len(),
                    sig.file_name@ == sv[k as int].file_name@,
                    forall|x: int| 0 <= x < gi ==> #[trigger] groups@[x].file_name@ != sv[
                        k as int
                    ].file_name@,
                ensures
                    gi <= groups.len(),
                    gi < groups@.len() ==> groups@[gi as int].file_name@ == sv[
                        k as int
                    ].file_name@,
                    forall|x: int| 0 <= x < gi ==> #[trigger] groups@[x].file_name@ != sv[
                        k as int
                    ].file_name@,
                decreases groups.len() - gi,
            {
                if groups[gi].file_name.eq(&sig.file_name) {
                    break;
                }
                gi = gi + 1;
            }
            if gi < groups.len() {
                // This signal joins its file's existing group.
                let ghost oldg = groups@;
                let ghost name = oldg[gi as int].file_name@;
                let slot: usize = k;
                let g = &mut groups[gi];
                g.slots.push(slot);
                proof {
                    assert(groups@[gi as int].slots@ =~= oldg[gi as int].slots@.push(slot));
                    assert(groups@[gi as int].decoder == oldg[gi as int].decoder);
                    assert(groups@[gi as int].cursor == oldg[gi as int].cursor);
                    assert(groups@[gi as int].initial_offset == oldg[gi as int].initial_offset);
                    assert(groups@[gi as int].file_name == oldg[gi as int].file_name);
                    assert(forall|x: int|
                        0 <= x < groups@.len() && x != gi ==> groups@[x] == oldg[x]);
                    // The name counts advance by one for this group's name
                    // and stay put for every other group's.
                    assert(spec_name_count(sv, name, k + 1) == spec_name_count(sv, name, k as int)
                        + 1);
                    assert forall|g2: int|
                        0 <= g2 < groups@.len() && g2 != gi implies spec_name_count(
                        sv,
                        groups@[g2].file_name@,
                        k + 1,
                    ) == spec_name_count(sv, groups@[g2].file_name@, k as int) by {
                        assert(oldg[g2].file_name@ != name);
                    }
                    // Coverage: old witnesses survive the push, and the new
                    // signal is covered by the extended group.
                    assert forall|kk: int| 0 <= kk < k + 1 implies #[trigger] spec_slot_covered(
                        groups@,
                        kk,
                    ) by {
                        if kk < k {
                            assert(spec_slot_covered(oldg, kk));
                            let (g2, j): (int, int) = choose|g2: int, j: int|
                                0 <= g2 < oldg.len() && 0 <= j < oldg[g2].slots@.len()
                                    && #[trigger] oldg[g2].slots@[j] == kk;
                            assert(groups@[g2].slots@[j] == kk);
                        } else {
                            assert(groups@[gi as int].slots@[oldg[gi as int].slots@.len() as int]
                                == kk);
                        }
                    }
                }
            } else {
                // A new group, led by this signal: nothing before `k` shares
                // its file.
                proof {
                    assert forall|j: int| 0 <= j < k implies sv[j].file_name@ != sv[
                        k as int
                    ].file_name@ by {
                        assert(spec_slot_covered(groups@, j));
                        let (g2, jj): (int, int) = choose|g2: int, jj: int|
                            0 <= g2 < groups@.len() && 0 <= jj < groups@[g2].slots@.len()
                                && #[trigger] groups@[g2].slots@[jj] == j;
                        assert(sv[j].file_name@ == groups@[g2].file_name@);
                    }
                    lemma_first_with_name(sv, sv[k as int].file_name@, 0);
                    let fi = spec_first_with_name(sv, sv[k as int].file_name@, 0);
                    if fi < k {
                        assert(sv[fi].file_name@ != sv[k as int].file_name@);
                        assert(false);
                    }
                    if fi > k {
                        assert(sv[k as int].file_name@ != sv[k as int].file_name@);
                        assert(false);
                    }
                    lemma_name_count_zero(sv, sv[k as int].file_name@, k as int);
                }
                let data = match files.lookup_file(sig.file_name.as_str()) {
                    Some(d) => d,
                    None => {
                        let mut m = String::from_str("Missing signal file: ");
                        m.append(sig.file_name.as_str());
                        return Err(Error::InvalidPath(m));
                    },
                };
                let initial_value = match sig.initial_value {
                    Some(v) => v,
                    None => 0,
                };
                let decoder = match get_decoder(sig.format, initial_value) {
                    Ok(d) => d,
                    Err(e) => {
                        return Err(e);
                    },
                };
                let mut cursor = ByteCursor::new(data);
                let offset = match sig.byte_offset {
                    Some(o) => o,
                    None => 0,
                };
                cursor.seek(offset);
                let clamped: u64 = cursor.position() as u64;
                proof {
                    decoder.lemma_fresh_future(cursor.remaining());
                }
                let mut slots: Vec<usize> = Vec::new();
                slots.push(k);
                let ghost oldg = groups@;
                groups.push(
                    FileGroup {
                        file_name: sig.file_name.clone(),
                        decoder,
                        cursor,
                        initial_offset: clamped,
                        slots,
                    },
                );
                proof {
                    assert(forall|x: int| 0 <= x < oldg.len() ==> groups@[x] == oldg[x]);
                    let gn = oldg.len() as int;
                    let name = sv[k as int].file_name@;
                    assert(groups@[gn].file_name@ == name);
                    assert(spec_name_count(sv, name, k + 1) == 1);
                    assert forall|g2: int|
                        0 <= g2 < gn implies spec_name_count(sv, groups@[g2].file_name@, k + 1)
                        == spec_name_count(sv, groups@[g2].file_name@, k as int) by {
                        assert(groups@[g2].file_name@ != name);
                    }
                    assert forall|kk: int| 0 <= kk < k + 1 implies #[trigger] spec_slot_covered(
                        groups@,
                        kk,
                    ) by {
                        if kk < k {
                            assert(spec_slot_covered(oldg, kk));
                            let (g2, j): (int, int) = choose|g2: int, j: int|
                                0 <= g2 < oldg.len() && 0 <= j < oldg[g2].slots@.len()
                                    && #[trigger] oldg[g2].slots@[j] == kk;
                            assert(groups@[g2].slots@[j] == kk);
                        } else {
                            assert(groups@[gn].slots@[0] == kk);
                        }
                    }
                }
            }
            k = k + 1;
        }
        let result = MultiSignalReader {
            groups,
            num_signals: signals.len(),
            current_frame: 0,
            done: false,
        };
        proof {
            // Every format a decoder variant carries is decodable.
            assert forall|g: int|
                0 <= g < result.spec_group_count() implies spec_decodable(
                #[trigger] result.spec_group_fmt(g),
            ) by {
                assert(result.spec_group_fmt(g) == result.groups@[g].decoder.spec_fmt());
            }
            // Each signal is covered by its group, at its rank.
            assert forall|kk: int| 0 <= kk < sv.len() implies #[trigger] result.spec_covers(
                sv,
                *files,
                kk,
            ) by {
                assert(spec_slot_covered(result.groups@, kk));
                let (g2, j): (int, int) = choose|g2: int, j: int|
                    0 <= g2 < result.groups@.len() && 0 <= j < result.groups@[g2].slots@.len()
                        && #[trigger] result.groups@[g2].slots@[j] == kk;
                assert(result.groups@[g2] == result.groups@[g2]);
                assert(result.spec_group_slot(g2, j) == kk);
            }
            // Buildable: each file present and each leader decodable.
            assert forall|kk: int|
                #![trigger sv[kk]]
                0 <= kk < sv.len() implies spec_store_lookup(
                names,
                datas,
                sv[kk].file_name@,
                0,
            ) is Some && spec_decodable(
                sv[spec_first_with_name(sv, sv[kk].file_name@, 0)].format,
            ) by {
                assert(spec_slot_covered(result.groups@, kk));
                let (g2, j): (int, int) = choose|g2: int, j: int|
                    0 <= g2 < result.groups@.len() && 0 <= j < result.groups@[g2].slots@.len()
                        && #[trigger] result.groups@[g2].slots@[j] == kk;
                assert(result.groups@[g2] == result.groups@[g2]);
                assert(sv[kk].file_name@ == result.groups@[g2].file_name@);
                assert(spec_decodable(result.groups@[g2].decoder.spec_fmt()));
            }
            // Slots are injective: ranks within one group differ, and names
            // (hence members) across groups differ.
            assert forall|g1: int, j1: int, g2: int, j2: int|
                #![trigger result.spec_group_slot(g1, j1), result.spec_group_slot(g2, j2)]
                0 <= g1 < result.spec_group_count() && 0 <= j1 < result.spec_group_width(g1) && 0
                    <= g2 < result.spec_group_count() && 0 <= j2 < result.spec_group_width(g2) && (
                g1 != g2 || j1 != j2) implies result.spec_group_slot(g1, j1)
                != result.spec_group_slot(g2, j2) by {
                assert(result.groups@[g1] == result.groups@[g1]);
                assert(result.groups@[g2] == result.groups@[g2]);
                if result.groups@[g1].slots@[j1] == result.groups@[g2].slots@[j2] {
                    let kk = result.groups@[g1].slots@[j1] as int;
                    assert(sv[kk].file_name@ == result.groups@[g1].file_name@);
                    assert(sv[kk].file_name@ == result.groups@[g2].file_name@);
                    assert(g1 == g2);
                    assert(j1 == spec_name_count(sv, result.groups@[g1].file_name@, kk));
                    assert(j2 == spec_name_count(sv, result.groups@[g2].file_name@, kk));
                }
            }
        }
        Ok(result)
    }

    /// Read one frame: one sample per signal, in header order.
    ///
    /// When every group still holds a full frame of samples, the frame is
    /// returned and the position advances. When the stream is exhausted
    /// (some group yields nothing, the rest only whole frames), an empty
    /// vector is returned and the reader stays finished. A group cut short
    /// mid-frame is an `InvalidHeader` error; partial frames are never
    /// spliced.
    pub fn read_frame(&mut self) -> (r: Result<Vec<Sample>, Error>)
        requires
            old(self).wf(),
        ensures
            final(self).wf(),
            old(self).spec_num_signals() >= 1,
            final(self).spec_num_signals() == old(self).spec_num_signals(),
            final(self).spec_group_count() == old(self).spec_group_count(),
            forall|g: int|
                0 <= g < old(self).spec_group_count() ==> #[trigger] final(self).spec_group_width(
                    g,
                ) == old(self).spec_group_width(g),
            forall|g: int|
                0 <= g < old(self).spec_group_count() ==> #[trigger] final(self).spec_group_null(
                    g,
                ) == old(self).spec_group_null(g),
            forall|g: int|
                0 <= g < old(self).spec_group_count() ==> #[trigger] final(self).spec_group_fmt(g)
                    == old(self).spec_group_fmt(g),
            forall|g: int|
                0 <= g < old(self).spec_group_count() ==> #[trigger] final(self).spec_group_init(
                    g,
                ) == old(self).spec_group_init(g),
            forall|g: int|
                0 <= g < old(self).spec_group_count() ==> #[trigger] final(self).spec_group_data(
                    g,
                ) == old(self).spec_group_data(g),
            forall|g: int|
                0 <= g < old(self).spec_group_count() ==> #[trigger] final(self).spec_group_offset(
                    g,
                ) == old(self).spec_group_offset(g),
            forall|g: int, j: int|
                0 <= g < old(self).spec_group_count() && 0 <= j < old(self).spec_group_width(g)
                    ==> #[trigger] final(self).spec_group_slot(g, j) == old(self).spec_group_slot(
                    g,
                    j,
                ),
            old(self).spec_done() ==> (r matches Ok(v) && v.len() == 0 && final(self).spec_done()
                && final(self).spec_position() == old(self).spec_position()),
            !old(self).spec_done() && (forall|g: int|
                0 <= g < old(self).spec_group_count() ==> old(self).spec_group_null(g) || #[trigger] old(
                    self,
                ).spec_group_stream(g).len() >= old(self).spec_group_width(g)) ==> {
                &&& r matches Ok(v) && v.len() == old(self).spec_num_signals()
                &&& (forall|g: int, j: int|
                    0 <= g < old(self).spec_group_count() && 0 <= j < old(self).spec_group_width(g)
                        ==> (r->Ok_0)@[#[trigger] old(self).spec_group_slot(g, j)] as int == (
                    if old(self).spec_group_null(g) {
                        spec_invalid()
                    } else {
                        old(self).spec_group_stream(g)[j]
                    }))
                &&& (forall|g: int|
                    0 <= g < old(self).spec_group_count() && !old(self).spec_group_null(g)
                        ==> #[trigger] final(self).spec_group_stream(g) == old(
                        self,
                    ).spec_group_stream(g).skip(old(self).spec_group_width(g)))
                &&& final(self).spec_position() == spec_sat64(old(self).spec_position(), 1)
                &&& !final(self).spec_done()
            },
            !old(self).spec_done() && !(forall|g: int|
                0 <= g < old(self).spec_group_count() ==> old(self).spec_group_null(g) || #[trigger] old(
                    self,
                ).spec_group_stream(g).len() >= old(self).spec_group_width(g)) ==> {
                &&& final(self).spec_done()
                &&& final(self).spec_position() == old(self).spec_position()
                &&& ((forall|g: int|
                    0 <= g < old(self).spec_group_count() ==> old(self).spec_group_null(g)
                        || #[trigger] old(self).spec_group_stream(g).len() >= old(
                        self,
                    ).spec_group_width(g) || old(self).spec_group_stream(g).len() == 0) ==> (
                r matches Ok(v) && v.len() == 0))
                &&& (!(forall|g: int|
                    0 <= g < old(self).spec_group_count() ==> old(self).spec_group_null(g)
                        || #[trigger] old(self).spec_group_stream(g).len() >= old(
                        self,
                    ).spec_group_width(g) || old(self).spec_group_stream(g).len() == 0) ==> (
                r matches Err(e) && e is InvalidHeader))
            },
    {
        if self.done {
            return Ok(Vec::new());
        }
        let ghost pre = *self;
        let mut frame: Vec<Sample> = vec![0; self.num_signals];
        let mut g: usize = 0;
        let mut saw_eof: bool = false;
        let mut saw_partial: bool = false;
        while g < self.groups.len()
            invariant
                g <= self.groups@.len(),
                pre.wf(),
                !pre.spec_done(),
                self.num_signals == pre.num_signals,
                self.current_frame == pre.current_frame,
                self.done == pre.done,
                frame.len() == self.num_signals,
                self.groups@.len() == pre.groups@.len(),
                forall|x: int|
                    #![trigger self.groups@[x]]
                    0 <= x < self.groups@.len() ==> {
                        &&& self.groups@[x].slots == pre.groups@[x].slots
                        &&& self.groups@[x].file_name == pre.groups@[x].file_name
                        &&& self.groups@[x].initial_offset == pre.groups@[x].initial_offset
                        &&& self.groups@[x].cursor.spec_data() == pre.groups@[x].cursor.spec_data()
                        &&& self.groups@[x].cursor.wf()
                        &&& self.groups@[x].decoder.spec_fmt() == pre.groups@[x].decoder.spec_fmt()
                        &&& self.groups@[x].decoder.spec_init() == pre.groups@[
                            x
                        ].decoder.spec_init()
                    },
                forall|x: int|
                    #![trigger self.groups@[x]]
                    g <= x < self.groups@.len() ==> self.groups@[x] == pre.groups@[x],
                !saw_eof && !saw_partial ==> forall|x: int, j: int|
                    0 <= x < g && 0 <= j < pre.spec_group_width(x) ==> frame@[#[trigger] pre.spec_group_slot(
                        x,
                        j,
                    )] as int == (if pre.spec_group_null(x) {
                        spec_invalid()
                    } else {
                        pre.spec_group_stream(x)[j]
                    }),
                !saw_eof && !saw_partial ==> forall|x: int|
                    0 <= x < g && !pre.spec_group_null(x) ==> #[trigger] self.groups@[
                        x
                    ].decoder.future(self.groups@[x].cursor.remaining()) == pre.spec_group_stream(
                        x,
                    ).skip(pre.spec_group_width(x)),
                !saw_eof && !saw_partial ==> forall|x: int|
                    0 <= x < g && !pre.spec_group_null(x) ==> #[trigger] pre.spec_group_stream(
                        x,
                    ).len() >= pre.spec_group_width(x),
                saw_eof || saw_partial ==> exists|x: int|
                    0 <= x < g && !pre.spec_group_null(x) && #[trigger] pre.spec_group_stream(
                        x,
                    ).len() < pre.spec_group_width(x),
                saw_partial ==> exists|x: int|
                    0 <= x < g && !pre.spec_group_null(x) && 0 < #[trigger] pre.spec_group_stream(
                        x,
                    ).len() < pre.spec_group_width(x),
                !saw_partial && saw_eof ==> forall|x: int|
                    0 <= x < g && !pre.spec_group_null(x) && #[trigger] pre.spec_group_stream(
                        x,
                    ).len() < pre.spec_group_width(x) ==> pre.spec_group_stream(x).len() == 0,
            decreases self.groups@.len() - g,
        {
            let width = self.groups[g].slots.len();
            let mut scratch: Vec<Sample> = vec![0; width];
            let ghost gpre = self.groups@[g as int];
            let gr = &mut self.groups[g];
            let is_null = gr.decoder.is_null_format();
            let n = gr.decoder.decode_buf(&mut gr.cursor, &mut scratch);
            if !is_null && n < width {
                if n == 0 {
                    saw_eof = true;
                } else {
                    saw_partial = true;
                }
                proof {
                    assert(pre.spec_group_stream(g as int).len() < pre.spec_group_width(g as int));
                }
                g = g + 1;
                continue;
            }
            // Place this group's samples at their slots.
            proof {
                assert forall|x: int| 0 <= x < width implies #[trigger] gpre.slots@[x]
                    < frame@.len() by {
                    assert(0 <= pre.spec_group_slot(g as int, x) < pre.spec_num_signals());
                }
            }
            let ghost fpre = frame@;
            let mut j: usize = 0;
            while j < width
                invariant
                    j <= width,
                    width == gpre.slots@.len(),
                    frame.len() == fpre.len(),
                    scratch.len() == width,
                    g < self.groups@.len(),
                    gpre.slots == self.groups@[g as int].slots,
                    pre.wf(),
                    self.groups@.len() == pre.groups@.len(),
                    gpre.slots@ == pre.groups@[g as int].slots@,
                    forall|x: int| 0 <= x < width ==> #[trigger] gpre.slots@[x] < frame@.len(),
                    forall|i: int|
                        0 <= i < j ==> frame@[#[trigger] gpre.slots@[i] as int] == scratch@[i],
                    forall|s: int|
                        0 <= s < frame@.len() && (forall|i: int|
                            0 <= i < j ==> #[trigger] gpre.slots@[i] as int != s) ==> frame@[s]
                            == fpre[s],
                decreases width - j,
            {
                let slot = self.groups[g].slots[j];
                proof {
                    assert forall|i: int| 0 <= i < j implies #[trigger] gpre.slots@[i] as int
                        != slot as int by {
                        assert(pre.spec_group_slot(g as int, i) != pre.spec_group_slot(
                            g as int,
                            j as int,
                        ));
                    }
                }
                frame[slot] = scratch[j];
                j = j + 1;
            }
            proof {
                // Earlier groups' slots are untouched: no two members share
                // a slot.
                assert forall|x: int, jx: int|
                    0 <= x < g && 0 <= jx < pre.spec_group_width(x) implies frame@[#[trigger] pre.spec_group_slot(
                    x,
                    jx,
                )] == fpre[pre.spec_group_slot(x, jx)] by {
                    assert forall|i: int| 0 <= i < width implies #[trigger] gpre.slots@[i] as int
                        != pre.spec_group_slot(x, jx) by {
                        assert(pre.spec_group_slot(g as int, i) != pre.spec_group_slot(x, jx));
                    }
                }
                // This group's samples landed at its slots with the right
                // values.
                if !is_null {
                    assert(pre.spec_group_stream(g as int).len() >= width);
                    assert(forall|i: int|
                        0 <= i < width ==> scratch@[i] as int == pre.spec_group_stream(g as int)[
                            i
                        ]);
                } else {
                    assert(forall|i: int|
                        0 <= i < width ==> scratch@[i] as int == spec_invalid());
                }
            }
            g = g + 1;
        }
        if saw_partial {
            self.done = true;
            proof {
                lemma_wf_like(&pre, self);
            }
            return Err(
                Error::InvalidHeader(String::from_str("Incomplete frame read from signal group")),
            );
        }
        if saw_eof {
            self.done = true;
            proof {
                lemma_wf_like(&pre, self);
            }
            return Ok(Vec::new());
        }
        self.current_frame = if self.current_frame < u64::MAX {
            self.current_frame + 1
        } else {
            u64::MAX
        };
        proof {
            lemma_wf_like(&pre, self);
        }
        Ok(frame)
    }

    /// Read up to `count` frames; stops early at end of stream.
    ///
    /// When the streams hold at least `count` whole frames (a record of only
    /// null signals never runs out), exactly `count` frames come back; in
    /// every successful case the result holds exactly `min(count,
    /// available)` frames, and frame `i` carries, at each member's slot,
    /// sample `i * width + j` of its group's stream (invalid for a null
    /// group). When no end of stream was met, every group's stream has
    /// advanced by exactly the frames read; a shorter result leaves the
    /// reader finished.
    #[verifier::rlimit(100)]
    pub fn read_frames(&mut self, count: usize) -> (r: Result<Vec<Vec<Sample>>, Error>)
        requires
            old(self).wf(),
        ensures
            final(self).wf(),
            final(self).spec_num_signals() == old(self).spec_num_signals(),
            r matches Ok(v) ==> v.len() <= count,
            r matches Ok(v) ==> forall|i: int|
                0 <= i < (r->Ok_0).len() ==> (#[trigger] (r->Ok_0)@[i]).len() == old(
                    self,
                ).spec_num_signals(),
            r matches Err(e) ==> e is InvalidHeader,
            old(self).spec_done() ==> (r matches Ok(v) && v.len() == 0),
            !old(self).spec_done() ==> ({
                let m = old(self).spec_frames_budget(count as int);
                &&& (m == count ==> r is Ok)
                &&& (r matches Ok(v) ==> {
                    &&& v.len() == m
                    &&& (forall|i: int, g: int, j: int|
                        #![trigger v@[i], old(self).spec_group_slot(g, j)]
                        0 <= i < v.len() && 0 <= g < old(self).spec_group_count() && 0 <= j < old(
                            self,
                        ).spec_group_width(g) ==> v@[i]@[old(self).spec_group_slot(g, j)] as int
                            == (if old(self).spec_group_null(g) {
                            spec_invalid()
                        } else {
                            old(self).spec_group_stream(g)[i * old(self).spec_group_width(g) + j]
                        }))
                    &&& (v.len() == count ==> forall|g: int|
                        0 <= g < old(self).spec_group_count() && !old(self).spec_group_null(g)
                            ==> #[trigger] final(self).spec_group_stream(g) == old(
                            self,
                        ).spec_group_stream(g).skip(count as int * old(self).spec_group_width(g)))
                    &&& (v.len() < count ==> final(self).spec_done())
                })
            }),
    {
        let mut frames: Vec<Vec<Sample>> = Vec::new();
        if self.done {
            return Ok(frames);
        }
        let ghost pre = *self;
        let ghost m = pre.spec_frames_budget(count as int);
        let mut k: usize = 0;
        let mut clean_end: bool = false;
        while k < count
            invariant_except_break
                k <= count,
                !clean_end,
                frames.len() == k,
                k as int <= m,
                pre == *old(self),
                self.wf(),
                !self.spec_done(),
                pre.wf(),
                !pre.spec_done(),
                m == pre.spec_frames_budget(count as int),
                self.spec_num_signals() == pre.spec_num_signals(),
                self.spec_group_count() == pre.spec_group_count(),
                forall|g: int|
                    0 <= g < pre.spec_group_count() ==> {
                        &&& #[trigger] self.spec_group_width(g) == pre.spec_group_width(g)
                        &&& self.spec_group_null(g) == pre.spec_group_null(g)
                    },
                forall|g: int, j: int|
                    0 <= g < pre.spec_group_count() && 0 <= j < pre.spec_group_width(g)
                        ==> #[trigger] self.spec_group_slot(g, j) == pre.spec_group_slot(g, j),
                forall|g: int|
                    0 <= g < pre.spec_group_count() && !pre.spec_group_null(g)
                        ==> #[trigger] self.spec_group_stream(g) == pre.spec_group_stream(g).skip(
                        k as int * pre.spec_group_width(g),
                    ),
                forall|i: int, g: int, j: int|
                    #![trigger frames@[i], pre.spec_group_slot(g, j)]
                    0 <= i < k && 0 <= g < pre.spec_group_count() && 0 <= j
                        < pre.spec_group_width(g) ==> frames@[i]@[pre.spec_group_slot(
                        g,
                        j,
                    )] as int == (if pre.spec_group_null(g) {
                        spec_invalid()
                    } else {
                        pre.spec_group_stream(g)[i * pre.spec_group_width(g) + j]
                    }),
                forall|i: int|
                    0 <= i < k ==> (#[trigger] frames@[i]).len() == pre.spec_num_signals(),
            ensures
                self.wf(),
                pre == *old(self),
                m == pre.spec_frames_budget(count as int),
                self.spec_num_signals() == pre.spec_num_signals(),
                frames.len() <= count,
                clean_end ==> frames.len() as int == m && m < count && self.spec_done(),
                !clean_end ==> frames.len() == count && count as int <= m,
                forall|i: int|
                    0 <= i < frames@.len() ==> (#[trigger] frames@[i]).len()
                        == pre.spec_num_signals(),
                forall|i: int, g: int, j: int|
                    #![trigger frames@[i], pre.spec_group_slot(g, j)]
                    0 <= i < frames@.len() && 0 <= g < pre.spec_group_count() && 0 <= j
                        < pre.spec_group_width(g) ==> frames@[i]@[pre.spec_group_slot(
                        g,
                        j,
                    )] as int == (if pre.spec_group_null(g) {
                        spec_invalid()
                    } else {
                        pre.spec_group_stream(g)[i * pre.spec_group_width(g) + j]
                    }),
                !clean_end ==> forall|g: int|
                    0 <= g < pre.spec_group_count() && !pre.spec_group_null(g)
                        ==> #[trigger] self.spec_group_stream(g) == pre.spec_group_stream(g).skip(
                        frames@.len() * pre.spec_group_width(g),
                    ),
            decreases count - k,
        {
            let ghost cur = *self;
            proof {
                // Below the budget, every group still holds a whole frame; at
                // the budget, the minimum-attaining group is short.
                lemma_min_avail(pre.groups@, pre.groups@.len() as int);
                if (k as int) < m {
                    assert forall|g: int|
                        0 <= g < cur.spec_group_count() implies cur.spec_group_null(g)
                        || #[trigger] cur.spec_group_stream(g).len() >= cur.spec_group_width(
                        g,
                    ) by {
                        if !cur.spec_group_null(g) {
                            let w = pre.spec_group_width(g);
                            let len = pre.spec_group_stream(g).len() as int;
                            assert(cur.spec_group_width(g) == w);
                            assert(cur.spec_group_stream(g) == pre.spec_group_stream(g).skip(
                                k as int * w,
                            ));
                            assert((k as int) < pre.spec_group_avail(g));
                            lemma_frames_fit(len, w, k as int + 1);
                            assert((k as int + 1) * w == k as int * w + w) by (nonlinear_arith);
                            assert(cur.spec_group_stream(g).len() == len - k as int * w);
                        }
                    }
                } else {
                    assert(k as int == m);
                    // The budget is short of the request, so it is the
                    // attained minimum of some non-null group.
                    let avail = spec_min_avail(pre.groups@, pre.groups@.len() as int);
                    assert(avail matches Some(a) && a == m) by {
                        if avail is Some {
                            let a = avail->Some_0;
                            if a < 0 {
                                let g0: int = choose|g0: int|
                                    0 <= g0 < pre.groups@.len() && !(#[trigger] pre.groups@[
                                        g0
                                    ].decoder.is_null()) && a == pre.groups@[g0].decoder.future(
                                        pre.groups@[g0].cursor.remaining(),
                                    ).len() as int / pre.groups@[g0].slots@.len() as int;
                                assert(pre.spec_group_width(g0) >= 1);
                                vstd::arithmetic::div_mod::lemma_div_pos_is_pos(
                                    pre.groups@[g0].decoder.future(
                                        pre.groups@[g0].cursor.remaining(),
                                    ).len() as int,
                                    pre.groups@[g0].slots@.len() as int,
                                );
                            }
                        }
                    }
                    let ga: int = choose|ga: int|
                        0 <= ga < pre.groups@.len() && !(#[trigger] pre.groups@[
                            ga
                        ].decoder.is_null()) && m == pre.groups@[ga].decoder.future(
                            pre.groups@[ga].cursor.remaining(),
                        ).len() as int / pre.groups@[ga].slots@.len() as int;
                    let w = pre.spec_group_width(ga);
                    let len = pre.spec_group_stream(ga).len() as int;
                    assert(m == len / w);
                    assert(cur.spec_group_width(ga) == w);
                    assert(cur.spec_group_stream(ga) == pre.spec_group_stream(ga).skip(
                        k as int * w,
                    ));
                    lemma_frames_div(len, w, m);
                    lemma_frames_fit(len, w, m);
                    assert((m + 1) * w == m * w + w) by (nonlinear_arith);
                    assert(cur.spec_group_stream(ga).len() == len - m * w);
                    assert(cur.spec_group_stream(ga).len() < w);
                }
            }
            let frame = match self.read_frame() {
                Ok(f) => f,
                Err(e) => {
                    proof {
                        // An error can only arise at the budget, which is
                        // then below the requested count.
                        assert(k as int == m);
                    }
                    return Err(e);
                },
            };
            if frame.len() == 0 {
                proof {
                    assert(k as int == m);
                    assert(self.spec_done());
                }
                clean_end = true;
                break;
            }
            proof {
                // The frame was full, so the budget was not yet exhausted.
                assert((k as int) < m);
                // Stream advance composes with the frames already read.
                assert forall|g: int|
                    0 <= g < pre.spec_group_count() && !pre.spec_group_null(g)
                        implies #[trigger] self.spec_group_stream(g) == pre.spec_group_stream(
                    g,
                ).skip((k + 1) * pre.spec_group_width(g)) by {
                    let w = pre.spec_group_width(g);
                    let base = pre.spec_group_stream(g);
                    assert(cur.spec_group_stream(g) == base.skip(k as int * w));
                    assert(self.spec_group_stream(g) == cur.spec_group_stream(g).skip(w));
                    assert((k as int) < pre.spec_group_avail(g));
                    lemma_frames_fit(base.len() as int, w, k as int + 1);
                    assert(k as int * w + w == (k + 1) * w) by (nonlinear_arith);
                    vstd::seq_lib::lemma_seq_skip_of_skip(base, k as int * w, w);
                    assert(base.skip(k as int * w).skip(w) =~= base.skip((k + 1) * w));
                }
                // The frame's values line up with the initial streams.
                assert forall|g: int, j: int|
                    0 <= g < pre.spec_group_count() && 0 <= j < pre.spec_group_width(g)
                        implies frame@[#[trigger] pre.spec_group_slot(g, j)] as int == (
                if pre.spec_group_null(g) {
                    spec_invalid()
                } else {
                    pre.spec_group_stream(g)[k as int * pre.spec_group_width(g) + j]
                }) by {
                    assert(cur.spec_group_slot(g, j) == pre.spec_group_slot(g, j));
                    if !pre.spec_group_null(g) {
                        let w = pre.spec_group_width(g);
                        let base = pre.spec_group_stream(g);
                        assert(cur.spec_group_stream(g) == base.skip(k as int * w));
                        lemma_frames_fit(base.len() as int, w, k as int + 1);
                        assert(k as int * w + w == (k + 1) * w) by (nonlinear_arith);
                        assert(frame@[cur.spec_group_slot(g, j)] as int == cur.spec_group_stream(
                            g,
                        )[j]);
                        assert(base.skip(k as int * w)[j] == base[k as int * w + j]);
                    } else {
                        assert(frame@[cur.spec_group_slot(g, j)] as int == spec_invalid());
                    }
                }
            }
            frames.push(frame);
            k = k + 1;
        }
        Ok(frames)
    }

    /// The number of signals: the length of every frame.
    pub fn num_signals(&self) -> (r: usize)
        ensures
            r as int == self.spec_num_signals(),
    {
        self.num_signals
    }

    /// Seek every group to frame `frame`: each cursor moves to the frame's
    /// byte position (clamped to its file), each decoder is reset, and the
    /// reader is live again at the new position.
    pub fn seek_to_frame(&mut self, frame: u64) -> (r: Result<u64, Error>)
        requires
            old(self).wf(),
        ensures
            final(self).wf(),
            final(self).spec_num_signals() == old(self).spec_num_signals(),
            final(self).spec_group_count() == old(self).spec_group_count(),
            forall|g: int|
                0 <= g < old(self).spec_group_count() ==> #[trigger] final(self).spec_group_width(
                    g,
                ) == old(self).spec_group_width(g),
            forall|g: int|
                0 <= g < old(self).spec_group_count() ==> #[trigger] final(self).spec_group_null(
                    g,
                ) == old(self).spec_group_null(g),
            forall|g: int|
                0 <= g < old(self).spec_group_count() ==> #[trigger] final(self).spec_group_fmt(g)
                    == old(self).spec_group_fmt(g),
            forall|g: int|
                0 <= g < old(self).spec_group_count() ==> #[trigger] final(self).spec_group_init(
                    g,
                ) == old(self).spec_group_init(g),
            forall|g: int|
                0 <= g < old(self).spec_group_count() ==> #[trigger] final(self).spec_group_data(
                    g,
                ) == old(self).spec_group_data(g),
            forall|g: int|
                0 <= g < old(self).spec_group_count() ==> #[trigger] final(self).spec_group_offset(
                    g,
                ) == old(self).spec_group_offset(g),
            forall|g: int, j: int|
                0 <= g < old(self).spec_group_count() && 0 <= j < old(self).spec_group_width(g)
                    ==> #[trigger] final(self).spec_group_slot(g, j) == old(self).spec_group_slot(
                    g,
                    j,
                ),
            r matches Ok(p) && p == frame,
            final(self).spec_position() == frame as int,
            !final(self).spec_done(),
            forall|g: int|
                0 <= g < old(self).spec_group_count() ==> #[trigger] final(self).spec_group_stream(
                    g,
                ) == crate::record::signal_reader::spec_frame_stream(
                    old(self).spec_group_data(g),
                    old(self).spec_group_offset(g),
                    spec_bytes_per_frame(
                        old(self).spec_group_fmt(g),
                        old(self).spec_group_width(g),
                    )->Some_0,
                    old(self).spec_group_fmt(g),
                    old(self).spec_group_init(g),
                    frame as int,
                ),
    {
        let ghost pre = *self;
        let mut g: usize = 0;
        while g < self.groups.len()
            invariant
                g <= self.groups@.len(),
                pre.wf(),
                self.num_signals == pre.num_signals,
                self.done == pre.done,
                self.current_frame == pre.current_frame,
                self.groups@.len() == pre.groups@.len(),
                forall|x: int|
                    #![trigger self.groups@[x]]
                    0 <= x < self.groups@.len() ==> {
                        &&& self.groups@[x].slots == pre.groups@[x].slots
                        &&& self.groups@[x].file_name == pre.groups@[x].file_name
                        &&& self.groups@[x].initial_offset == pre.groups@[x].initial_offset
                        &&& self.groups@[x].cursor.spec_data() == pre.groups@[x].cursor.spec_data()
                        &&& self.groups@[x].cursor.wf()
                        &&& self.groups@[x].decoder.spec_fmt() == pre.groups@[x].decoder.spec_fmt()
                        &&& self.groups@[x].decoder.spec_init() == pre.groups@[
                            x
                        ].decoder.spec_init()
                    },
                forall|x: int|
                    #![trigger self.groups@[x]]
                    g <= x < self.groups@.len() ==> self.groups@[x] == pre.groups@[x],
                forall|x: int|
                    0 <= x < g ==> #[trigger] self.groups@[x].decoder.future(
                        self.groups@[x].cursor.remaining(),
                    ) == crate::record::signal_reader::spec_frame_stream(
                        pre.spec_group_data(x),
                        pre.spec_group_offset(x),
                        spec_bytes_per_frame(
                            pre.spec_group_fmt(x),
                            pre.spec_group_width(x),
                        )->Some_0,
                        pre.spec_group_fmt(x),
                        pre.spec_group_init(x),
                        frame as int,
                    ),
            decreases self.groups@.len() - g,
        {
            let width = self.groups[g].slots.len();
            let gr = &mut self.groups[g];
            let bpf = match gr.decoder.bytes_per_frame(width) {
                Some(b) => b,
                None => {
                    // Every decodable format defines a frame cost.
                    proof {
                        assert(false);
                    }
                    0
                },
            };
            let byte: u64 = match frame.checked_mul(bpf as u64) {
                Some(p) => match p.checked_add(gr.initial_offset) {
                    Some(q) => q,
                    None => u64::MAX,
                },
                None => u64::MAX,
            };
            gr.cursor.seek(byte);
            gr.decoder.reset();
            proof {
                gr.decoder.lemma_fresh_future(gr.cursor.remaining());
                assert(gr.cursor.spec_data().len() <= u64::MAX);
                let model_byte = pre.spec_group_offset(g as int) + (frame as int) * (bpf as int);
                if model_byte > u64::MAX {
                    assert(byte == u64::MAX);
                    assert(model_byte > gr.cursor.spec_data().len());
                } else {
                    assert(byte == model_byte);
                }
            }
            g = g + 1;
        }
        self.current_frame = frame;
        self.done = false;
        proof {
            lemma_wf_like(&pre, self);
        }
        Ok(frame)
    }

    /// The current frame position.
    pub fn position(&self) -> (r: u64)
        ensures
            r as int == self.spec_position(),
    {
        self.current_frame
    }
}

} // verus!
