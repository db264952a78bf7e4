//! A per-signal view over one signal file: sequential reads, de-interleaving
//! of signals that share a file, and seeking.

use vstd::prelude::*;

use crate::{Error, Sample};
use crate::header::SignalInfo;
use crate::signal::{ByteCursor, Decoder, decode_stream, get_decoder, spec_bytes_per_frame,
    spec_bytes_per_sample, spec_decodable, spec_invalid};
use crate::SignalFormat;

verus! {

/// `a + b` clamped to the `u64` range: how the position counter advances.
pub open spec fn spec_sat64(a: int, b: int) -> int {
    if a + b > u64::MAX {
        u64::MAX as int
    } else {
        a + b
    }
}

/// The number of signals in `sigs[0..k]` sharing `name` and `fmt`: the width
/// of the interleave group a signal belongs to, when `k` is the list length,
/// and a signal's rank within its group, when `k` is its index.
pub open spec fn spec_group_count(
    sigs: Seq<SignalInfo>,
    name: Seq<char>,
    fmt: SignalFormat,
    k: int,
) -> int
    decreases k,
{
    if k <= 0 {
        0
    } else {
        spec_group_count(sigs, name, fmt, k - 1) + (if sigs[k - 1].file_name@ == name
            && sigs[k - 1].format == fmt {
            1int
        } else {
            0int
        })
    }
}

/// The group count grows by at most one per signal and never shrinks.
pub proof fn lemma_group_count_bounds(
    sigs: Seq<SignalInfo>,
    name: Seq<char>,
    fmt: SignalFormat,
    k: int,
)
    ensures
        0 <= spec_group_count(sigs, name, fmt, k) <= (if k >= 0 {
            k
        } else {
            0
        }),
    decreases k,
{
    if k > 0 {
        lemma_group_count_bounds(sigs, name, fmt, k - 1);
    }
}

/// The group count over a longer prefix is at least the count over a
/// shorter one.
pub proof fn lemma_group_count_monotone(
    sigs: Seq<SignalInfo>,
    name: Seq<char>,
    fmt: SignalFormat,
    a: int,
    b: int,
)
    requires
        a <= b,
    ensures
        spec_group_count(sigs, name, fmt, a) <= spec_group_count(sigs, name, fmt, b),
    decreases b - a,
{
    if a < b {
        lemma_group_count_monotone(sigs, name, fmt, a, b - 1);
        lemma_group_count_bounds(sigs, name, fmt, b);
    }
}

/// The sample stream seen by an interleaved read of one frame at frame
/// index `pos`: the full decode of the file from the frame's byte position,
/// clamped at the end of the data.
pub open spec fn spec_frame_stream(
    data: Seq<u8>,
    off: int,
    bpf: int,
    fmt: SignalFormat,
    init: int,
    pos: int,
) -> Seq<int> {
    let byte = off + pos * bpf;
    let clipped = if 0 <= byte <= data.len() {
        byte
    } else {
        data.len() as int
    };
    decode_stream(fmt, init, data.skip(clipped))
}

/// The samples an interleaved reader yields for one signal, starting at
/// frame `pos`: at each frame the decoder is reset, the frame's group is
/// decoded from its byte position, and the signal's slot is taken. The run
/// stops cleanly at a frame with no samples at all; a frame with some but
/// not a full group of samples is an error (second component true).
pub open spec fn spec_interleaved_run(
    data: Seq<u8>,
    off: int,
    bpf: int,
    fmt: SignalFormat,
    init: int,
    width: int,
    idx: int,
    pos: int,
    max: nat,
) -> (Seq<int>, bool)
    decreases max,
{
    if max == 0 {
        (Seq::empty(), false)
    } else {
        let st = spec_frame_stream(data, off, bpf, fmt, init, pos);
        if st.len() >= width {
            let rest = spec_interleaved_run(
                data,
                off,
                bpf,
                fmt,
                init,
                width,
                idx,
                pos + 1,
                (max - 1) as nat,
            );
            (seq![st[idx]] + rest.0, rest.1)
        } else if st.len() == 0 {
            (Seq::empty(), false)
        } else {
            (Seq::empty(), true)
        }
    }
}

/// An interleaved run never yields more samples than its budget.
pub proof fn lemma_interleaved_run_len(
    data: Seq<u8>,
    off: int,
    bpf: int,
    fmt: SignalFormat,
    init: int,
    width: int,
    idx: int,
    pos: int,
    max: nat,
)
    ensures
        spec_interleaved_run(data, off, bpf, fmt, init, width, idx, pos, max).0.len() <= max,
    decreases max,
{
    if max > 0 {
        let st = spec_frame_stream(data, off, bpf, fmt, init, pos);
        if st.len() >= width {
            lemma_interleaved_run_len(
                data,
                off,
                bpf,
                fmt,
                init,
                width,
                idx,
                pos + 1,
                (max - 1) as nat,
            );
        }
    }
}

/// Reader for a single signal of a single-segment record, over the signal
/// file's bytes.
///
/// When several signals share one file they are stored interleaved, one
/// sample per signal per frame; this reader extracts its signal's slot from
/// each frame, resetting the decoder at each frame boundary. With a single
/// signal per file, reads decode sequentially.
pub struct SignalReader {
    decoder: Decoder,
    cursor: ByteCursor,
    signal_info: SignalInfo,
    /// This signal's rank within the signals sharing its file and format.
    idx_in_file: usize,
    /// How many signals share this file and format.
    width: usize,
    /// Byte offset of sample 0 in the file, clamped to its length.
    initial_offset: u64,
    /// The next sample (frame) index to read.
    current_sample: u64,
}

impl SignalReader {
    /// The file bytes this reader decodes.
    pub closed spec fn spec_data(&self) -> Seq<u8> {
        self.cursor.spec_data()
    }

    /// The interleave width.
    pub closed spec fn spec_width(&self) -> int {
        self.width as int
    }

    /// The signal's rank within its interleave group.
    pub closed spec fn spec_idx(&self) -> int {
        self.idx_in_file as int
    }

    /// The signal format decoded.
    pub closed spec fn spec_fmt(&self) -> SignalFormat {
        self.decoder.spec_fmt()
    }

    /// The configured initial accumulator value.
    pub closed spec fn spec_init(&self) -> int {
        self.decoder.spec_init()
    }

    /// The byte offset of sample 0.
    pub closed spec fn spec_offset(&self) -> int {
        self.initial_offset as int
    }

    /// The next sample index.
    pub closed spec fn spec_position(&self) -> int {
        self.current_sample as int
    }

    /// The signal information this reader was built from.
    pub closed spec fn spec_signal_info(&self) -> SignalInfo {
        self.signal_info
    }

    /// Structural validity: cursor in bounds, a sane width and rank, the
    /// offset within the data.
    pub closed spec fn wf(&self) -> bool {
        &&& self.cursor.wf()
        &&& 1 <= self.width <= 0x1000_0000
        &&& 0 <= self.idx_in_file < self.width
        &&& self.initial_offset <= self.spec_data().len()
    }

    /// The samples still ahead of the reader in sequential (width 1) mode.
    pub closed spec fn spec_sequential_future(&self) -> Seq<int> {
        self.decoder.future(self.cursor.remaining())
    }

    /// Whether this reader decodes the null format.
    pub closed spec fn is_null(&self) -> bool {
        self.decoder.is_null()
    }

    /// Creates a reader for the signal `signal_info`, which is
    /// `all_signals[signal_index]`, over the bytes of its backing file.
    ///
    /// Fails with `UnsupportedSignalFormat` exactly when the format cannot
    /// be decoded. The reader starts at sample 0, past the signal's byte
    /// offset (clamped to the file's length).
    pub fn new(
        data: Vec<u8>,
        signal_info: &SignalInfo,
        all_signals: &Vec<SignalInfo>,
        signal_index: usize,
    ) -> (r: Result<SignalReader, Error>)
        requires
            all_signals@.len() <= 0x1000_0000,
            signal_index < all_signals@.len(),
            all_signals@[signal_index as int].file_name@ == signal_info.file_name@,
            all_signals@[signal_index as int].format == signal_info.format,
        ensures
            match r {
                Ok(sr) => {
                    &&& spec_decodable(signal_info.format)
                    &&& sr.wf()
                    &&& sr.spec_data() == data@
                    &&& sr.spec_fmt() == signal_info.format
                    &&& sr.is_null() == (signal_info.format is Format0)
                    &&& sr.spec_init() == (if signal_info.format is Format8 {
                        (match signal_info.initial_value {
                            Some(v) => v as int,
                            None => 0int,
                        })
                    } else {
                        0int
                    })
                    &&& sr.spec_width() == spec_group_count(
                        all_signals@,
                        signal_info.file_name@,
                        signal_info.format,
                        all_signals@.len() as int,
                    )
                    &&& sr.spec_idx() == spec_group_count(
                        all_signals@,
                        signal_info.file_name@,
                        signal_info.format,
                        signal_index as int,
                    )
                    &&& sr.spec_offset() == (if (match signal_info.byte_offset {
                        Some(o) => o as int,
                        None => 0int,
                    }) <= data@.len() {
                        (match signal_info.byte_offset {
                            Some(o) => o as int,
                            None => 0int,
                        })
                    } else {
                        data@.len() as int
                    })
                    &&& sr.spec_position() == 0
                    &&& sr.spec_signal_info() == *signal_info
                    &&& sr.spec_sequential_future() == decode_stream(
                        signal_info.format,
                        sr.spec_init(),
                        data@.skip(sr.spec_offset()),
                    )
                },
                Err(e) => !spec_decodable(signal_info.format) && e is UnsupportedSignalFormat,
            },
    {
        let initial_value = match signal_info.initial_value {
            Some(v) => v,
            None => 0,
        };
        let decoder = match get_decoder(signal_info.format, initial_value) {
            Ok(d) => d,
            Err(e) => {
                return Err(e);
            },
        };
        let mut cursor = ByteCursor::new(data);
        let offset = match signal_info.byte_offset {
            Some(o) => o,
            None => 0,
        };
        cursor.seek(offset);
        let clamped: u64 = cursor.position() as u64;
        proof {
            decoder.lemma_fresh_future(cursor.remaining());
        }
        // Count the signals sharing this file and format, and this signal's
        // rank among them.
        let ghost sv = all_signals@;
        let ghost name = signal_info.file_name@;
        let ghost fmt = signal_info.format;
        let mut width: usize = 0;
        let mut idx_in_file: usize = 0;
        let mut k: usize = 0;
        while k < all_signals.len()
            invariant
                k <= all_signals.len(),
                all_signals@.len() <= 0x1000_0000,
                sv == all_signals@,
                name == signal_info.file_name@,
                fmt == signal_info.format,
                signal_index < sv.len(),
                sv[signal_index as int].file_name@ == name,
                sv[signal_index as int].format == fmt,
                width as int == spec_group_count(sv, name, fmt, k as int),
                width <= k,
                idx_in_file as int == if k <= signal_index {
                    0int
                } else {
                    spec_group_count(sv, name, fmt, signal_index as int)
                },
            decreases all_signals.len() - k,
        {
            let sig = &all_signals[k];
            if sig.file_name.eq(&signal_info.file_name) && sig.format == signal_info.format {
                if k == signal_index {
                    idx_in_file = width;
                }
                width = width + 1;
            } else {
                proof {
                    // The signal at `signal_index` always matches.
                    assert(k != signal_index);
                }
            }
            k = k + 1;
        }
        proof {
            // The signal itself is in its group: the width is positive and
            // the rank lies below it.
            assert(spec_group_count(sv, name, fmt, signal_index as int + 1) == spec_group_count(
                sv,
                name,
                fmt,
                signal_index as int,
            ) + 1);
            lemma_group_count_monotone(sv, name, fmt, signal_index as int + 1, sv.len() as int);
        }
        let result = SignalReader {
            decoder,
            cursor,
            signal_info: signal_info.clone(),
            idx_in_file,
            width,
            initial_offset: clamped,
            current_sample: 0,
        };
        proof {
            assert(result.wf());
            assert(result.spec_data() == data@);
            assert(result.spec_fmt() == signal_info.format);
            assert(result.spec_width() == spec_group_count(sv, name, fmt, sv.len() as int));
            assert(result.spec_idx() == spec_group_count(sv, name, fmt, signal_index as int));
            assert(result.spec_position() == 0);
            assert(result.spec_signal_info() == *signal_info);
            assert(result.spec_sequential_future() == decode_stream(
                signal_info.format,
                result.spec_init(),
                data@.skip(result.spec_offset()),
            ));
        }
        Ok(result)
    }

    /// Read samples into `buffer` (raw ADC values); returns how many were
    /// written. A single-signal file is decoded sequentially; an interleaved
    /// file is read frame by frame, the decoder reset and repositioned at
    /// each frame, and this signal's slot extracted. The read stops cleanly
    /// at end of stream; an interleaved frame cut short mid-group is an
    /// `InvalidHeader` error. The null format always fills the buffer with
    /// invalid samples.
    pub fn read_samples_buf(&mut self, buffer: &mut Vec<Sample>) -> (r: Result<usize, Error>)
        requires
            old(self).wf(),
        ensures
            final(self).wf(),
            final(self).spec_data() == old(self).spec_data(),
            final(self).spec_width() == old(self).spec_width(),
            final(self).spec_idx() == old(self).spec_idx(),
            final(self).spec_fmt() == old(self).spec_fmt(),
            final(self).spec_init() == old(self).spec_init(),
            final(self).spec_offset() == old(self).spec_offset(),
            final(self).spec_signal_info() == old(self).spec_signal_info(),
            final(self).is_null() == old(self).is_null(),
            final(buffer).len() == old(buffer).len(),
            old(self).is_null() ==> (r matches Ok(n) && n == old(buffer).len() && forall|i: int|
                0 <= i < old(buffer).len() ==> final(buffer)@[i] as int == spec_invalid()),
            !old(self).is_null() && old(self).spec_width() == 1 ==> ({
                let fut = old(self).spec_sequential_future();
                let count = if (old(buffer).len() as int) <= fut.len() {
                    old(buffer).len() as int
                } else {
                    fut.len() as int
                };
                &&& r matches Ok(n) && n == count
                &&& forall|i: int| 0 <= i < count ==> final(buffer)@[i] as int == fut[i]
                &&& forall|i: int|
                    count <= i < old(buffer).len() ==> final(buffer)@[i] == old(buffer)@[i]
                &&& final(self).spec_sequential_future() == fut.skip(count)
                &&& final(self).spec_position() == spec_sat64(old(self).spec_position(), count)
            }),
            !old(self).is_null() && old(self).spec_width() > 1 ==> ({
                let run = spec_interleaved_run(
                    old(self).spec_data(),
                    old(self).spec_offset(),
                    spec_bytes_per_frame(old(self).spec_fmt(), old(self).spec_width())->Some_0,
                    old(self).spec_fmt(),
                    old(self).spec_init(),
                    old(self).spec_width(),
                    old(self).spec_idx(),
                    old(self).spec_position(),
                    old(buffer).len() as nat,
                );
                &&& (forall|i: int| 0 <= i < run.0.len() ==> final(buffer)@[i] as int == run.0[i])
                &&& (forall|i: int|
                    run.0.len() <= i < old(buffer).len() ==> final(buffer)@[i] == old(buffer)@[i])
                &&& final(self).spec_position() == spec_sat64(
                    old(self).spec_position(),
                    run.0.len() as int,
                )
                &&& (run.1 ==> (r matches Err(e) && e is InvalidHeader))
                &&& (!run.1 ==> (r matches Ok(n) && n == run.0.len()))
            }),
    {
        if self.decoder.is_null_format() {
            // Null signal: every sample is invalid, nothing is consumed.
            let n = self.decoder.decode_buf(&mut self.cursor, buffer);
            self.current_sample = sat_add64(self.current_sample, n as u64);
            return Ok(n);
        }
        if self.width <= 1 {
            let n = self.decoder.decode_buf(&mut self.cursor, buffer);
            self.current_sample = sat_add64(self.current_sample, n as u64);
            return Ok(n);
        }
        // Interleaved: one frame per output sample.
        let bpf = match self.decoder.bytes_per_frame(self.width) {
            Some(b) => b,
            None => {
                return Err(
                    Error::InvalidHeader(
                        String::from_str(
                            "Format does not support frame size calculation for interleaved reading",
                        ),
                    ),
                );
            },
        };
        let ghost data = self.spec_data();
        let ghost off = self.spec_offset();
        let ghost fmt = self.spec_fmt();
        let ghost init = self.spec_init();
        let ghost width = self.spec_width();
        let ghost idx = self.spec_idx();
        let ghost pos0 = self.spec_position();
        let ghost full = spec_interleaved_run(
            data,
            off,
            bpf as int,
            fmt,
            init,
            width,
            idx,
            pos0,
            old(buffer).len() as nat,
        );
        let mut count: usize = 0;
        let mut failed: bool = false;
        loop
            invariant_except_break
                count <= buffer.len(),
                !failed,
                self.cursor.wf(),
                self.spec_data() == data,
                self.spec_offset() == off,
                self.spec_fmt() == fmt,
                self.spec_init() == init,
                self.spec_width() == width,
                self.spec_idx() == idx,
                self.initial_offset <= data.len(),
                self.spec_signal_info() == old(self).spec_signal_info(),
                1 < width <= 0x1000_0000,
                !self.decoder.is_null(),
                0 <= idx < width,
                bpf as int == spec_bytes_per_frame(fmt, width)->Some_0,
                bpf >= 1,
                buffer.len() == old(buffer).len(),
                self.spec_position() == spec_sat64(pos0, count as int),
                full.0 == buffer@.subrange(0, count as int).map_values(|x: Sample| x as int)
                    + spec_interleaved_run(
                    data,
                    off,
                    bpf as int,
                    fmt,
                    init,
                    width,
                    idx,
                    pos0 + count,
                    (buffer.len() - count) as nat,
                ).0,
                full.1 == spec_interleaved_run(
                    data,
                    off,
                    bpf as int,
                    fmt,
                    init,
                    width,
                    idx,
                    pos0 + count,
                    (buffer.len() - count) as nat,
                ).1,
                forall|i: int| count <= i < buffer.len() ==> buffer@[i] == old(buffer)@[i],
            ensures
                self.cursor.wf(),
                self.spec_data() == data,
                self.spec_offset() == off,
                self.spec_fmt() == fmt,
                self.spec_init() == init,
                self.spec_width() == width,
                self.spec_idx() == idx,
                self.initial_offset <= data.len(),
                self.spec_signal_info() == old(self).spec_signal_info(),
                buffer.len() == old(buffer).len(),
                count as int == full.0.len(),
                self.spec_position() == spec_sat64(pos0, count as int),
                failed == full.1,
                forall|i: int| 0 <= i < count ==> buffer@[i] as int == full.0[i],
                forall|i: int| count <= i < buffer.len() ==> buffer@[i] == old(buffer)@[i],
            decreases buffer.len() - count,
        {
            let ghost run_here = spec_interleaved_run(
                data,
                off,
                bpf as int,
                fmt,
                init,
                width,
                idx,
                pos0 + count,
                (buffer.len() - count) as nat,
            );
            if count >= buffer.len() {
                proof {
                    assert(run_here.0 =~= Seq::<int>::empty());
                    assert(full.0 =~= buffer@.subrange(0, count as int).map_values(
                        |x: Sample| x as int,
                    ));
                    lemma_subrange_map_index(buffer@, count as int);
                }
                break;
            }
            // Position the cursor at this frame and reset the decoder.
            let byte: u64 = match self.current_sample.checked_mul(bpf as u64) {
                Some(p) => match p.checked_add(self.initial_offset) {
                    Some(q) => q,
                    None => u64::MAX,
                },
                None => u64::MAX,
            };
            self.decoder.reset();
            self.cursor.seek(byte);
            let ghost st = spec_frame_stream(data, off, bpf as int, fmt, init, pos0 + count);
            proof {
                self.decoder.lemma_fresh_future(self.cursor.remaining());
                // The cursor's clamped position matches the model's clipped
                // byte position: past the end both see an empty suffix.
                assert(data.len() <= u64::MAX);
                let model_byte = off + (pos0 + count) * bpf;
                assert(model_byte >= pos0 + count) by (nonlinear_arith)
                    requires
                        bpf >= 1,
                        off >= 0,
                        pos0 + count >= 0,
                        model_byte == off + (pos0 + count) * bpf,
                ;
                if self.spec_position() == pos0 + count {
                    assert((pos0 + count) * bpf == self.spec_position() * bpf);
                    if model_byte <= u64::MAX {
                        assert(byte == model_byte);
                    } else {
                        assert(byte == u64::MAX);
                        assert(model_byte > data.len());
                    }
                } else {
                    // The position saturated, so the model position is
                    // beyond any byte of the data.
                    assert(self.spec_position() == u64::MAX);
                    assert(pos0 + count > u64::MAX);
                    assert(model_byte > data.len());
                }
                assert(self.decoder.future(self.cursor.remaining()) == st);
            }
            let mut scratch: Vec<Sample> = vec![0; self.width];
            let n = self.decoder.decode_buf(&mut self.cursor, &mut scratch);
            if n == 0 {
                proof {
                    assert(st.len() == 0);
                    assert(run_here.0 =~= Seq::<int>::empty());
                    assert(!run_here.1);
                    assert(full.0 =~= buffer@.subrange(0, count as int).map_values(
                        |x: Sample| x as int,
                    ));
                    lemma_subrange_map_index(buffer@, count as int);
                }
                break;
            }
            if n < self.width {
                proof {
                    assert(0 < st.len() < width);
                    assert(run_here.1);
                    assert(run_here.0 =~= Seq::<int>::empty());
                    assert(full.0 =~= buffer@.subrange(0, count as int).map_values(
                        |x: Sample| x as int,
                    ));
                    lemma_subrange_map_index(buffer@, count as int);
                }
                failed = true;
                break;
            }
            let s = scratch[self.idx_in_file];
            let ghost prevbuf = buffer@;
            buffer[count] = s;
            self.current_sample = sat_add64(self.current_sample, 1);
            count = count + 1;
            proof {
                assert(st.len() >= width);
                assert(s as int == st[idx]);
                let run_next = spec_interleaved_run(data, off, bpf as int, fmt, init, width, idx,
                    pos0 + count, (buffer.len() - count) as nat);
                assert(run_here.0 == seq![st[idx]] + run_next.0);
                assert(run_here.1 == run_next.1);
                assert(buffer@.subrange(0, count as int).map_values(|x: Sample| x as int) =~=
                    prevbuf.subrange(0, count as int - 1).map_values(|x: Sample| x as int) + seq![
                    s as int,
                ]);
                assert(full.0 =~= buffer@.subrange(0, count as int).map_values(
                    |x: Sample| x as int,
                ) + run_next.0);
            }
        }
        if failed {
            return Err(
                Error::InvalidHeader(
                    String::from_str("Incomplete frame in interleaved signal file"),
                ),
            );
        }
        Ok(count)
    }

    /// Read up to `count` samples as a vector of raw ADC values.
    pub fn read_samples(&mut self, count: usize) -> (r: Result<Vec<Sample>, Error>)
        requires
            old(self).wf(),
        ensures
            final(self).wf(),
            final(self).spec_data() == old(self).spec_data(),
            final(self).spec_width() == old(self).spec_width(),
            final(self).spec_idx() == old(self).spec_idx(),
            final(self).spec_fmt() == old(self).spec_fmt(),
            final(self).spec_init() == old(self).spec_init(),
            final(self).spec_offset() == old(self).spec_offset(),
            final(self).spec_signal_info() == old(self).spec_signal_info(),
            final(self).is_null() == old(self).is_null(),
            !old(self).is_null() && old(self).spec_width() == 1 ==> ({
                let fut = old(self).spec_sequential_future();
                let c = if (count as int) <= fut.len() {
                    count as int
                } else {
                    fut.len() as int
                };
                &&& r matches Ok(v) && v.len() == c
                &&& (forall|i: int| 0 <= i < c ==> (r->Ok_0)@[i] as int == fut[i])
                &&& final(self).spec_sequential_future() == fut.skip(c)
                &&& final(self).spec_position() == spec_sat64(old(self).spec_position(), c)
            }),
            !old(self).is_null() && old(self).spec_width() > 1 ==> ({
                let run = spec_interleaved_run(
                    old(self).spec_data(),
                    old(self).spec_offset(),
                    spec_bytes_per_frame(old(self).spec_fmt(), old(self).spec_width())->Some_0,
                    old(self).spec_fmt(),
                    old(self).spec_init(),
                    old(self).spec_width(),
                    old(self).spec_idx(),
                    old(self).spec_position(),
                    count as nat,
                );
                &&& (run.1 ==> (r matches Err(e) && e is InvalidHeader))
                &&& (!run.1 ==> (r matches Ok(v) && v.len() == run.0.len() && forall|i: int|
                    0 <= i < run.0.len() ==> (r->Ok_0)@[i] as int == run.0[i]))
                &&& final(self).spec_position() == spec_sat64(
                    old(self).spec_position(),
                    run.0.len() as int,
                )
            }),
            old(self).is_null() ==> (r matches Ok(v) && v.len() == count && forall|i: int|
                0 <= i < count ==> (r->Ok_0)@[i] as int == spec_invalid()),
    {
        proof {
            if !self.is_null() && self.spec_width() > 1 {
                lemma_interleaved_run_len(
                    self.spec_data(),
                    self.spec_offset(),
                    spec_bytes_per_frame(self.spec_fmt(), self.spec_width())->Some_0,
                    self.spec_fmt(),
                    self.spec_init(),
                    self.spec_width(),
                    self.spec_idx(),
                    self.spec_position(),
                    count as nat,
                );
            }
        }
        let mut buffer: Vec<Sample> = vec![0; count];
        match self.read_samples_buf(&mut buffer) {
            Ok(n) => {
                buffer.truncate(n);
                Ok(buffer)
            },
            Err(e) => Err(e),
        }
    }

    /// Seek to a sample (frame) index. A sequential reader needs a
    /// fixed-width format with a positive sample size; an interleaved reader
    /// uses the frame byte cost, which every decodable format defines. On
    /// success the decoder is reset, the cursor moved to the frame's byte
    /// position (clamped to the data), and the position counter set.
    pub fn seek_to_sample(&mut self, sample: u64) -> (r: Result<u64, Error>)
        requires
            old(self).wf(),
        ensures
            final(self).wf(),
            final(self).spec_data() == old(self).spec_data(),
            final(self).spec_width() == old(self).spec_width(),
            final(self).spec_idx() == old(self).spec_idx(),
            final(self).spec_fmt() == old(self).spec_fmt(),
            final(self).spec_init() == old(self).spec_init(),
            final(self).spec_offset() == old(self).spec_offset(),
            final(self).spec_signal_info() == old(self).spec_signal_info(),
            final(self).is_null() == old(self).is_null(),
            ({
                let seekable = if old(self).spec_width() == 1 {
                    spec_bytes_per_sample(old(self).spec_fmt()) matches Some(b) && b > 0
                } else {
                    spec_bytes_per_frame(old(self).spec_fmt(), old(self).spec_width()) is Some
                };
                &&& (seekable <==> (r matches Ok(p) && p == sample))
                &&& (!seekable ==> (r matches Err(e) && e is InvalidHeader) && *final(self)
                    == *old(self))
            }),
            r is Ok ==> final(self).spec_position() == sample as int,
            r is Ok && old(self).spec_width() == 1 ==> final(self).spec_sequential_future()
                == decode_stream(
                old(self).spec_fmt(),
                old(self).spec_init(),
                ({
                    let byte = old(self).spec_offset() + sample * spec_bytes_per_sample(
                        old(self).spec_fmt(),
                    )->Some_0;
                    old(self).spec_data().skip(
                        if byte <= old(self).spec_data().len() {
                            byte
                        } else {
                            old(self).spec_data().len() as int
                        },
                    )
                }),
            ),
    {
        if self.width <= 1 {
            let bps = match self.decoder.bytes_per_sample() {
                Some(b) => {
                    if b == 0 {
                        return Err(
                            Error::InvalidHeader(
                                String::from_str("Seeking not supported for this signal format"),
                            ),
                        );
                    }
                    b
                },
                None => {
                    return Err(
                        Error::InvalidHeader(
                            String::from_str("Seeking not supported for this signal format"),
                        ),
                    );
                },
            };
            let byte: u64 = match sample.checked_mul(bps as u64) {
                Some(p) => match p.checked_add(self.initial_offset) {
                    Some(q) => q,
                    None => u64::MAX,
                },
                None => u64::MAX,
            };
            self.cursor.seek(byte);
            self.decoder.reset();
            proof {
                self.decoder.lemma_fresh_future(self.cursor.remaining());
                assert(self.spec_data().len() <= u64::MAX);
                let model_byte = self.spec_offset() + sample * (bps as int);
                if model_byte > u64::MAX {
                    assert(byte == u64::MAX);
                    assert(model_byte > self.spec_data().len());
                } else {
                    assert(byte == model_byte);
                }
            }
            self.current_sample = sample;
            Ok(sample)
        } else {
            let bpf = match self.decoder.bytes_per_frame(self.width) {
                Some(b) => b,
                None => {
                    return Err(
                        Error::InvalidHeader(
                            String::from_str("Seeking not supported for this signal format"),
                        ),
                    );
                },
            };
            let byte: u64 = match sample.checked_mul(bpf as u64) {
                Some(p) => match p.checked_add(self.initial_offset) {
                    Some(q) => q,
                    None => u64::MAX,
                },
                None => u64::MAX,
            };
            self.cursor.seek(byte);
            self.decoder.reset();
            self.current_sample = sample;
            Ok(sample)
        }
    }

    /// The current sample position.
    pub fn position(&self) -> (r: u64)
        ensures
            r as int == self.spec_position(),
    {
        self.current_sample
    }

    /// The signal information for this reader.
    pub fn signal_info(&self) -> (r: &SignalInfo)
        ensures
            r == &self.spec_signal_info(),
    {
        &self.signal_info
    }

    /// The signal's description, when the header carried one.
    pub fn description(&self) -> (r: Option<&str>)
        ensures
            self.spec_signal_info().description matches Some(d) ==> (r matches Some(s) && s@
                == d@),
            self.spec_signal_info().description is None <==> r is None,
    {
        match &self.signal_info.description {
            Some(d) => Some(d.as_str()),
            None => None,
        }
    }

    /// The baseline: the explicit baseline, else the ADC zero, else 0.
    pub fn baseline(&self) -> (r: i32)
        ensures
            r as int == (match self.spec_signal_info().baseline {
                Some(b) => b as int,
                None => (match self.spec_signal_info().adc_zero {
                    Some(z) => z as int,
                    None => 0int,
                }),
            }),
    {
        match self.signal_info.baseline {
            Some(b) => b,
            None => match self.signal_info.adc_zero {
                Some(z) => z,
                None => 0,
            },
        }
    }
}

/// Saturating `u64` addition.
pub fn sat_add64(a: u64, b: u64) -> (r: u64)
    ensures
        r as int == spec_sat64(a as int, b as int),
{
    match a.checked_add(b) {
        Some(v) => v,
        None => u64::MAX,
    }
}

/// Mapping a subrange preserves its elements pointwise.
pub proof fn lemma_subrange_map_index(s: Seq<Sample>, k: int)
    requires
        0 <= k <= s.len(),
    ensures
        forall|i: int|
            0 <= i < k ==> s.subrange(0, k).map_values(|x: Sample| x as int)[i] == s[i] as int,
        s.subrange(0, k).map_values(|x: Sample| x as int).len() == k,
{
}

} // verus!
