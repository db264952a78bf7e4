//! Format 24: 24-bit two's complement samples, little-endian.

use vstd::prelude::*;

use crate::{Sample, INVALID_SAMPLE};
use crate::signal::common::{ByteCursor, spec_invalid};

verus! {

/// The value encoded by one little-endian 24-bit triple, sign-extended.
pub open spec fn fmt24_value(b0: u8, b1: u8, b2: u8) -> int {
    let u = b0 + 256 * b1 + 0x1_0000 * b2;
    if u >= 0x80_0000 {
        u - 0x100_0000
    } else {
        u as int
    }
}

/// One decoded format-24 sample: the encoded value, with the reserved
/// minimum (-(1<<23)) mapped to the invalid marker.
pub open spec fn fmt24_sample(b0: u8, b1: u8, b2: u8) -> int {
    if fmt24_value(b0, b1, b2) == -0x80_0000 {
        spec_invalid()
    } else {
        fmt24_value(b0, b1, b2)
    }
}

/// The full sample stream a byte sequence decodes to under format 24.
pub open spec fn fmt24_stream(bytes: Seq<u8>) -> Seq<int> {
    Seq::new(
        (bytes.len() / 3) as nat,
        |i: int| fmt24_sample(bytes[3 * i], bytes[3 * i + 1], bytes[3 * i + 2]),
    )
}

/// Decoder for format 24 (24-bit two's complement, little-endian).
#[derive(Debug, Clone, Default)]
pub struct Format24Decoder;

impl Format24Decoder {
    /// Create a new format 24 decoder.
    pub fn new() -> Self {
        Format24Decoder
    }

    /// Decode samples into `output` until it is full or no complete triple is
    /// left. Returns the number of samples written; entries past it keep
    /// their old values.
    pub fn decode_buf(&mut self, src: &mut ByteCursor, output: &mut Vec<Sample>) -> (n: usize)
        requires
            old(src).wf(),
        ensures
            final(src).wf(),
            final(src).spec_data() == old(src).spec_data(),
            ({
                let stream = fmt24_stream(old(src).remaining());
                let count = if (old(output).len() as int) <= stream.len() {
                    old(output).len() as int
                } else {
                    stream.len() as int
                };
                &&& n == count
                &&& final(src).spec_pos() == old(src).spec_pos() + 3 * count
                &&& final(output).len() == old(output).len()
                &&& forall|i: int| 0 <= i < count ==> final(output)@[i] as int == stream[i]
                &&& forall|i: int|
                    count <= i < old(output).len() ==> final(output)@[i] == old(output)@[i]
            }),
    {
        let ghost orig = src.remaining();
        let ghost stream = fmt24_stream(orig);
        let mut i: usize = 0;
        while i < output.len() && src.remaining_len() >= 3
            invariant
                src.wf(),
                src.spec_data() == old(src).spec_data(),
                output.len() == old(output).len(),
                i <= output.len(),
                3 * i <= orig.len(),
                src.spec_pos() == old(src).spec_pos() + 3 * i,
                src.remaining() == orig.skip(3 * i),
                i <= stream.len(),
                stream == fmt24_stream(orig),
                orig == old(src).remaining(),
                forall|j: int| 0 <= j < i ==> output@[j] as int == stream[j],
                forall|j: int| i <= j < output.len() ==> output@[j] == old(output)@[j],
            decreases output.len() - i,
        {
            let b0 = src.peek_at(0);
            let b1 = src.peek_at(1);
            let b2 = src.peek_at(2);
            assert(orig.skip(3 * i as int)[0] == orig[3 * i as int]);
            assert(orig.skip(3 * i as int)[1] == orig[3 * i as int + 1]);
            assert(orig.skip(3 * i as int)[2] == orig[3 * i as int + 2]);
            src.advance(3);
            proof {
                assert(orig.skip(3 * i as int).skip(3) =~= orig.skip(3 * (i + 1) as int));
            }
            let u: u32 = b0 as u32 + 256 * (b1 as u32) + 0x1_0000 * (b2 as u32);
            let v: i32 = if u >= 0x80_0000 {
                (u as i32) - 0x100_0000
            } else {
                u as i32
            };
            let s: Sample = if v == -0x80_0000 {
                INVALID_SAMPLE
            } else {
                v
            };
            output[i] = s;
            i = i + 1;
        }
        proof {
            if i < output.len() {
                assert(i == orig.len() / 3);
            }
        }
        i
    }

    /// Reset the decoder. Format 24 keeps no state.
    pub fn reset(&mut self) {
    }

    /// Bytes per sample: 3.
    pub fn bytes_per_sample(&self) -> (r: Option<usize>)
        ensures
            r == Some(3usize),
    {
        Some(3)
    }

    /// Bytes per frame of `num_signals` interleaved samples.
    pub fn bytes_per_frame(&self, num_signals: usize) -> (r: Option<usize>)
        requires
            3 * num_signals <= usize::MAX,
        ensures
            r == Some((3 * num_signals) as usize),
    {
        Some(3 * num_signals)
    }
}

} // verus!
