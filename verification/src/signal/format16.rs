//! Format 16: 16-bit two's complement samples, little-endian.

use vstd::prelude::*;

use crate::{Sample, INVALID_SAMPLE};
use crate::signal::common::{ByteCursor, spec_invalid};

verus! {

/// The value encoded by one little-endian 16-bit pair, sign-extended.
pub open spec fn fmt16_value(b0: u8, b1: u8) -> int {
    let u = b0 + 256 * b1;
    if u >= 0x8000 {
        u - 0x1_0000
    } else {
        u as int
    }
}

/// One decoded format-16 sample: the encoded value, with the reserved
/// minimum (-32768) mapped to the invalid marker.
pub open spec fn fmt16_sample(b0: u8, b1: u8) -> int {
    if fmt16_value(b0, b1) == -0x8000 {
        spec_invalid()
    } else {
        fmt16_value(b0, b1)
    }
}

/// The full sample stream a byte sequence decodes to under format 16:
/// one sample per complete 2-byte pair, trailing partial pair ignored.
pub open spec fn fmt16_stream(bytes: Seq<u8>) -> Seq<int> {
    Seq::new((bytes.len() / 2) as nat, |i: int| fmt16_sample(bytes[2 * i], bytes[2 * i + 1]))
}

/// Decoder for format 16 (16-bit two's complement, little-endian).
///
/// Each sample occupies two bytes, least significant first. The encoded value
/// -32768 is reserved to mark an invalid sample.
#[derive(Debug, Clone, Default)]
pub struct Format16Decoder;

impl Format16Decoder {
    /// Create a new format 16 decoder.
    pub fn new() -> Self {
        Format16Decoder
    }

    /// Decode samples into `output`, starting at its beginning, until either
    /// `output` is full or the source has no complete pair left. Returns the
    /// number of samples written; entries past it keep their old values.
    pub fn decode_buf(&mut self, src: &mut ByteCursor, output: &mut Vec<Sample>) -> (n: usize)
        requires
            old(src).wf(),
        ensures
            final(src).wf(),
            final(src).spec_data() == old(src).spec_data(),
            ({
                let stream = fmt16_stream(old(src).remaining());
                let count = if (old(output).len() as int) <= stream.len() {
                    old(output).len() as int
                } else {
                    stream.len() as int
                };
                &&& n == count
                &&& final(src).spec_pos() == old(src).spec_pos() + 2 * count
                &&& final(output).len() == old(output).len()
                &&& forall|i: int| 0 <= i < count ==> final(output)@[i] as int == stream[i]
                &&& forall|i: int|
                    count <= i < old(output).len() ==> final(output)@[i] == old(output)@[i]
            }),
    {
        let ghost orig = src.remaining();
        let ghost stream = fmt16_stream(orig);
        let mut i: usize = 0;
        while i < output.len() && src.remaining_len() >= 2
            invariant
                src.wf(),
                src.spec_data() == old(src).spec_data(),
                output.len() == old(output).len(),
                i <= output.len(),
                2 * i <= orig.len(),
                src.spec_pos() == old(src).spec_pos() + 2 * i,
                src.remaining() == orig.skip(2 * i),
                i <= stream.len(),
                stream == fmt16_stream(orig),
                orig == old(src).remaining(),
                forall|j: int| 0 <= j < i ==> output@[j] as int == stream[j],
                forall|j: int| i <= j < output.len() ==> output@[j] == old(output)@[j],
            decreases output.len() - i,
        {
            let b0 = src.peek_at(0);
            let b1 = src.peek_at(1);
            assert(orig.skip(2 * i as int)[0] == orig[2 * i as int]);
            assert(orig.skip(2 * i as int)[1] == orig[2 * i as int + 1]);
            src.advance(2);
            proof {
                assert(orig.skip(2 * i as int).skip(2) =~= orig.skip(2 * (i + 1) as int));
            }
            let u: u32 = b0 as u32 + 256 * (b1 as u32);
            let v: i32 = if u >= 0x8000 {
                (u as i32) - 0x1_0000
            } else {
                u as i32
            };
            let s: Sample = if v == -0x8000 {
                INVALID_SAMPLE
            } else {
                v
            };
            output[i] = s;
            i = i + 1;
        }
        proof {
            if i < output.len() {
                assert(orig.len() - 2 * i < 2);
                assert(i == orig.len() / 2);
            }
        }
        i
    }

    /// Decode up to `count` samples and return them as a vector: the head of
    /// the remaining stream.
    pub fn decode(&mut self, src: &mut ByteCursor, count: usize) -> (r: Vec<Sample>)
        requires
            old(src).wf(),
        ensures
            final(src).wf(),
            final(src).spec_data() == old(src).spec_data(),
            ({
                let stream = fmt16_stream(old(src).remaining());
                let c = if (count as int) <= stream.len() {
                    count as int
                } else {
                    stream.len() as int
                };
                &&& r.len() == c
                &&& forall|i: int| 0 <= i < c ==> r@[i] as int == stream[i]
            }),
    {
        let mut buffer: Vec<Sample> = vec![0; count];
        let n = self.decode_buf(src, &mut buffer);
        buffer.truncate(n);
        buffer
    }

    /// Reset the decoder. Format 16 keeps no state.
    pub fn reset(&mut self) {
    }

    /// Bytes per sample: 2.
    pub fn bytes_per_sample(&self) -> (r: Option<usize>)
        ensures
            r == Some(2usize),
    {
        Some(2)
    }

    /// Bytes per frame of `num_signals` interleaved samples.
    pub fn bytes_per_frame(&self, num_signals: usize) -> (r: Option<usize>)
        requires
            2 * num_signals <= usize::MAX,
        ensures
            r == Some((2 * num_signals) as usize),
    {
        Some(2 * num_signals)
    }
}

} // verus!
