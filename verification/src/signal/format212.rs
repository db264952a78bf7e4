//! Format 212: two 12-bit two's complement samples packed into three bytes.
//!
//! Per triple `b0 b1 b2`: the first sample is the low 12 bits of the
//! little-endian word `b0 b1`; the second sample's high four bits are the high
//! nibble of `b1` and its low eight bits are `b2`.

use vstd::prelude::*;

use crate::{Sample, INVALID_SAMPLE};
use crate::signal::common::{ByteCursor, spec_invalid};

verus! {

/// Sign extension of a 12-bit value, with the reserved minimum (-2048)
/// mapped to the invalid marker.
pub open spec fn fmt212_extend(u: int) -> int {
    let v = if u >= 0x800 {
        u - 0x1000
    } else {
        u
    };
    if v == -0x800 {
        spec_invalid()
    } else {
        v
    }
}

/// The first sample of a pair: low 12 bits of the little-endian word
/// `b0 b1`.
pub open spec fn fmt212_first(b0: u8, b1: u8) -> int {
    fmt212_extend(b0 + 256 * ((b1 % 16) as int))
}

/// The second sample of a pair: high nibble of `b1`, then `b2`.
pub open spec fn fmt212_second(b1: u8, b2: u8) -> int {
    fmt212_extend(256 * ((b1 / 16) as int) + b2)
}

/// The full sample stream a byte sequence decodes to under format 212,
/// starting from the given packing state: `pending` holds the middle byte of
/// the current triple when the first sample of the pair has already been
/// emitted. A trailing partial pair at the end of the bytes is discarded.
pub open spec fn fmt212_future(pending: Option<u8>, bytes: Seq<u8>) -> Seq<int>
    decreases bytes.len(),
{
    match pending {
        Some(b1) => {
            if bytes.len() == 0 {
                Seq::empty()
            } else {
                seq![fmt212_second(b1, bytes[0])] + fmt212_future(None, bytes.skip(1))
            }
        },
        None => {
            if bytes.len() < 2 {
                Seq::empty()
            } else {
                seq![fmt212_first(bytes[0], bytes[1])] + fmt212_future(
                    Some(bytes[1]),
                    bytes.skip(2),
                )
            }
        },
    }
}

/// The number of samples a fresh decoder produces from `len` bytes: two per
/// complete triple, plus one more when exactly two bytes of a triple remain.
pub open spec fn fmt212_count(len: int) -> int {
    2 * (len / 3) + if len % 3 == 2 {
        1int
    } else {
        0int
    }
}

/// From a fresh state, the stream length follows `fmt212_count`; in
/// particular three bytes always yield exactly two samples.
pub proof fn lemma_fmt212_future_len(bytes: Seq<u8>)
    ensures
        fmt212_future(None, bytes).len() == fmt212_count(bytes.len() as int),
    decreases bytes.len(),
{
    if bytes.len() >= 2 {
        lemma_fmt212_mid_len(bytes.skip(2));
        let rest = bytes.len() - 3;
        assert(fmt212_future(Some(bytes[1]), bytes.skip(2)).len() == 1 + fmt212_count(
            bytes.skip(2).len() - 1,
        ));
        assert(fmt212_future(None, bytes).len() == 1 + fmt212_future(
            Some(bytes[1]),
            bytes.skip(2),
        ).len());
        vstd::arithmetic::div_mod::lemma_hoist_over_denominator(rest, 1, 3nat);
        vstd::arithmetic::div_mod::lemma_mod_add_multiples_vanish(rest, 3);
        assert(fmt212_count(bytes.len() as int) == 2 + fmt212_count(rest));
    } else {
        assert(fmt212_future(None, bytes).len() == 0);
        assert(fmt212_count(bytes.len() as int) == 0);
    }
}

/// From a mid-pair state, one sample is emitted for the buffered byte and the
/// rest follows the fresh-state count.
pub proof fn lemma_fmt212_mid_len(bytes: Seq<u8>)
    ensures
        forall|b1: u8|
            fmt212_future(Some(b1), bytes).len() == 1 + fmt212_count(bytes.len() - 1),
    decreases bytes.len(),
{
    if bytes.len() == 0 {
        assert(forall|b1: u8| fmt212_future(Some(b1), bytes).len() == 0);
        assert(fmt212_count(-1) == -1) by {
            assert(-1int / 3 == -1);
            assert(-1int % 3 == 2);
        }
    } else {
        lemma_fmt212_future_len(bytes.skip(1));
    }
}

/// Decoder for format 212 (packed 12-bit samples).
///
/// Cycles between expecting the first and the second sample of a pair; the
/// middle byte of the triple is buffered between the two. Resetting returns
/// to the start of a pair with nothing buffered.
#[derive(Debug, Clone)]
pub struct Format212Decoder {
    /// The middle byte of the current triple, once the first sample of the
    /// pair has been emitted.
    pending: Option<u8>,
}

impl Format212Decoder {
    /// The packing state: the buffered middle byte, if any.
    pub closed spec fn spec_pending(&self) -> Option<u8> {
        self.pending
    }

    /// Create a new format 212 decoder, at the start of a pair.
    pub fn new() -> (r: Self)
        ensures
            r.spec_pending() == Option::<u8>::None,
    {
        Format212Decoder { pending: None }
    }

    /// Decode samples into `output` until it is full or the source cannot
    /// complete another sample. A trailing partial pair is discarded and the
    /// state reset. Returns the number of samples written; entries past it
    /// keep their old values.
    pub fn decode_buf(&mut self, src: &mut ByteCursor, output: &mut Vec<Sample>) -> (n: usize)
        requires
            old(src).wf(),
        ensures
            final(src).wf(),
            final(src).spec_data() == old(src).spec_data(),
            ({
                let fut = fmt212_future(old(self).spec_pending(), old(src).remaining());
                let count = if (old(output).len() as int) <= fut.len() {
                    old(output).len() as int
                } else {
                    fut.len() as int
                };
                &&& n == count
                &&& final(output).len() == old(output).len()
                &&& forall|i: int| 0 <= i < count ==> final(output)@[i] as int == fut[i]
                &&& forall|i: int|
                    count <= i < old(output).len() ==> final(output)@[i] == old(output)@[i]
                &&& fmt212_future(final(self).spec_pending(), final(src).remaining()) == fut.skip(
                    count,
                )
                &&& final(src).spec_pos() >= old(src).spec_pos()
            }),
    {
        let ghost orig = src.remaining();
        let ghost fut = fmt212_future(old(self).spec_pending(), orig);
        let mut i: usize = 0;
        loop
            invariant
                src.wf(),
                src.spec_data() == old(src).spec_data(),
                output.len() == old(output).len(),
                i <= output.len(),
                i <= fut.len(),
                src.spec_pos() >= old(src).spec_pos(),
                fut == fmt212_future(old(self).spec_pending(), orig),
                orig == old(src).remaining(),
                fmt212_future(self.spec_pending(), src.remaining()) == fut.skip(i as int),
                forall|j: int| 0 <= j < i ==> output@[j] as int == fut[j],
                forall|j: int| i <= j < output.len() ==> output@[j] == old(output)@[j],
            ensures
                i == if (output.len() as int) <= fut.len() {
                    output.len() as int
                } else {
                    fut.len() as int
                },
                src.wf(),
                src.spec_data() == old(src).spec_data(),
                output.len() == old(output).len(),
                src.spec_pos() >= old(src).spec_pos(),
                fmt212_future(self.spec_pending(), src.remaining()) == fut.skip(i as int),
                forall|j: int| 0 <= j < i ==> output@[j] as int == fut[j],
                forall|j: int| i <= j < output.len() ==> output@[j] == old(output)@[j],
            decreases output.len() - i,
        {
            if i >= output.len() {
                break;
            }
            let ghost rem = src.remaining();
            match self.pending {
                Some(b1) => {
                    if src.remaining_len() < 1 {
                        // Partial pair at end of stream: discard and reset.
                        self.pending = None;
                        proof {
                            assert(fut.skip(i as int) =~= Seq::<int>::empty());
                        }
                        break;
                    }
    let b2 = src.peek_at(0);
                    src.advance(1);
                    proof {
                        assert(fmt212_future(Some(b1), rem) =~= seq![fmt212_second(b1, rem[0])]
                            + fmt212_future(None, rem.skip(1)));
                        assert(fut.skip(i as int).len() >= 1);
                        assert(fut[i as int] == fut.skip(i as int)[0]);
                        assert(fut.skip(i as int).skip(1) =~= fut.skip(i as int + 1));
                        assert(fmt212_future(None, rem.skip(1)) =~= fut.skip(i as int + 1));
                    }
                    let u: u32 = 256 * ((b1 / 16) as u32) + b2 as u32;
                    let v: i32 = if u >= 0x800 {
                        (u as i32) - 0x1000
                    } else {
                        u as i32
                    };
                    let s: Sample = if v == -0x800 {
                        INVALID_SAMPLE
                    } else {
                        v
                    };
                    self.pending = None;
                    output[i] = s;
                    i = i + 1;
                },
                None => {
                    if src.remaining_len() < 2 {
                        proof {
                            assert(fut.skip(i as int) =~= Seq::<int>::empty());
                        }
                        break;
                    }
                    let b0 = src.peek_at(0);
                    let b1 = src.peek_at(1);
                    src.advance(2);
                    proof {
                        assert(fmt212_future(None, rem) =~= seq![fmt212_first(rem[0], rem[1])]
                            + fmt212_future(Some(rem[1]), rem.skip(2)));
                        assert(fut.skip(i as int).len() >= 1);
                        assert(fut[i as int] == fut.skip(i as int)[0]);
                        assert(fut.skip(i as int).skip(1) =~= fut.skip(i as int + 1));
                        assert(fmt212_future(Some(rem[1]), rem.skip(2)) =~= fut.skip(
                            i as int + 1,
                        ));
                    }
                    let u: u32 = b0 as u32 + 256 * ((b1 % 16) as u32);
                    let v: i32 = if u >= 0x800 {
                        (u as i32) - 0x1000
                    } else {
                        u as i32
                    };
                    let s: Sample = if v == -0x800 {
                        INVALID_SAMPLE
                    } else {
                        v
                    };
                    self.pending = Some(b1);
                    output[i] = s;
                    i = i + 1;
                },
            }
        }
        i
    }

    /// Decode up to `count` samples and return them as a vector: the head of
    /// the remaining stream.
    pub fn decode(&mut self, src: &mut ByteCursor, count: usize) -> (r: Vec<Sample>)
        requires
            old(src).wf(),
        ensures
            final(src).wf(),
            final(src).spec_data() == old(src).spec_data(),
            ({
                let fut = fmt212_future(old(self).spec_pending(), old(src).remaining());
                let c = if (count as int) <= fut.len() {
                    count as int
                } else {
                    fut.len() as int
                };
                &&& r.len() == c
                &&& forall|i: int| 0 <= i < c ==> r@[i] as int == fut[i]
                &&& fmt212_future(final(self).spec_pending(), final(src).remaining()) == fut.skip(c)
            }),
    {
        let mut buffer: Vec<Sample> = vec![0; count];
        let n = self.decode_buf(src, &mut buffer);
        buffer.truncate(n);
        buffer
    }

    /// Reset the decoder: back to the start of a pair, nothing buffered.
    pub fn reset(&mut self)
        ensures
            final(self).spec_pending() == Option::<u8>::None,
    {
        self.pending = None;
    }

    /// Bytes per sample: undefined; the format is variable-width (three bytes
    /// for each two samples).
    pub fn bytes_per_sample(&self) -> (r: Option<usize>)
        ensures
            r is None,
    {
        None
    }

    /// Bytes per frame of `num_signals` interleaved samples: three bytes per
    /// started pair.
    pub fn bytes_per_frame(&self, num_signals: usize) -> (r: Option<usize>)
        requires
            num_signals + 1 <= usize::MAX,
            3 * ((num_signals + 1) / 2) <= usize::MAX,
        ensures
            r == Some((3 * ((num_signals + 1) / 2)) as usize),
    {
        Some(3 * ((num_signals + 1) / 2))
    }
}

} // verus!
