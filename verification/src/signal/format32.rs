//! Format 32: 32-bit two's complement samples, little-endian.

use vstd::prelude::*;

use crate::Sample;
use crate::signal::common::ByteCursor;

verus! {

/// The value encoded by one little-endian 32-bit quadruple, sign-extended.
/// The reserved minimum of the 32-bit range is itself the invalid marker, so
/// no remapping is needed.
pub open spec fn fmt32_sample(b0: u8, b1: u8, b2: u8, b3: u8) -> int {
    let u = b0 + 256 * b1 + 0x1_0000 * b2 + 0x100_0000 * b3;
    if u >= 0x8000_0000 {
        u - 0x1_0000_0000
    } else {
        u as int
    }
}

/// The full sample stream a byte sequence decodes to under format 32.
pub open spec fn fmt32_stream(bytes: Seq<u8>) -> Seq<int> {
    Seq::new(
        (bytes.len() / 4) as nat,
        |i: int| fmt32_sample(bytes[4 * i], bytes[4 * i + 1], bytes[4 * i + 2], bytes[4 * i + 3]),
    )
}

/// Decoder for format 32 (32-bit two's complement, little-endian).
#[derive(Debug, Clone, Default)]
pub struct Format32Decoder;

impl Format32Decoder {
    /// Create a new format 32 decoder.
    pub fn new() -> Self {
        Format32Decoder
    }

    /// Decode samples into `output` until it is full or no complete quadruple
    /// is left. Returns the number of samples written; entries past it keep
    /// their old values.
    pub fn decode_buf(&mut self, src: &mut ByteCursor, output: &mut Vec<Sample>) -> (n: usize)
        requires
            old(src).wf(),
        ensures
            final(src).wf(),
            final(src).spec_data() == old(src).spec_data(),
            ({
                let stream = fmt32_stream(old(src).remaining());
                let count = if (old(output).len() as int) <= stream.len() {
                    old(output).len() as int
                } else {
                    stream.len() as int
                };
                &&& n == count
                &&& final(src).spec_pos() == old(src).spec_pos() + 4 * count
                &&& final(output).len() == old(output).len()
                &&& forall|i: int| 0 <= i < count ==> final(output)@[i] as int == stream[i]
                &&& forall|i: int|
                    count <= i < old(output).len() ==> final(output)@[i] == old(output)@[i]
            }),
    {
        let ghost orig = src.remaining();
        let ghost stream = fmt32_stream(orig);
        let mut i: usize = 0;
        while i < output.len() && src.remaining_len() >= 4
            invariant
                src.wf(),
                src.spec_data() == old(src).spec_data(),
                output.len() == old(output).len(),
                i <= output.len(),
                4 * i <= orig.len(),
                src.spec_pos() == old(src).spec_pos() + 4 * i,
                src.remaining() == orig.skip(4 * i),
                i <= stream.len(),
                stream == fmt32_stream(orig),
                orig == old(src).remaining(),
                forall|j: int| 0 <= j < i ==> output@[j] as int == stream[j],
                forall|j: int| i <= j < output.len() ==> output@[j] == old(output)@[j],
            decreases output.len() - i,
        {
            let b0 = src.peek_at(0);
            let b1 = src.peek_at(1);
            let b2 = src.peek_at(2);
            let b3 = src.peek_at(3);
            assert(orig.skip(4 * i as int)[0] == orig[4 * i as int]);
            assert(orig.skip(4 * i as int)[1] == orig[4 * i as int + 1]);
            assert(orig.skip(4 * i as int)[2] == orig[4 * i as int + 2]);
            assert(orig.skip(4 * i as int)[3] == orig[4 * i as int + 3]);
            src.advance(4);
            proof {
                assert(orig.skip(4 * i as int).skip(4) =~= orig.skip(4 * (i + 1) as int));
            }
            let u: u32 = b0 as u32 + 256 * (b1 as u32) + 0x1_0000 * (b2 as u32) + 0x100_0000 * (
            b3 as u32);
            let s: Sample = if u >= 0x8000_0000 {
                let wide: i64 = (u as i64) - 0x1_0000_0000;
                wide as i32
            } else {
                u as i32
            };
            output[i] = s;
            i = i + 1;
        }
        proof {
            if i < output.len() {
                assert(i == orig.len() / 4);
            }
        }
        i
    }

    /// Reset the decoder. Format 32 keeps no state.
    pub fn reset(&mut self) {
    }

    /// Bytes per sample: 4.
    pub fn bytes_per_sample(&self) -> (r: Option<usize>)
        ensures
            r == Some(4usize),
    {
        Some(4)
    }

    /// Bytes per frame of `num_signals` interleaved samples.
    pub fn bytes_per_frame(&self, num_signals: usize) -> (r: Option<usize>)
        requires
            4 * num_signals <= usize::MAX,
        ensures
            r == Some((4 * num_signals) as usize),
    {
        Some(4 * num_signals)
    }
}

} // verus!
