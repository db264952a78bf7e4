//! Format 80: 8-bit offset binary (unsigned byte minus 128).

use vstd::prelude::*;

use crate::{Sample, INVALID_SAMPLE};
use crate::signal::common::{ByteCursor, spec_invalid};

verus! {

/// The value encoded by one offset-binary byte.
pub open spec fn fmt80_value(b: u8) -> int {
    b - 128
}

/// One decoded format-80 sample: the encoded value, with the reserved
/// minimum (-128) mapped to the invalid marker.
pub open spec fn fmt80_sample(b: u8) -> int {
    if fmt80_value(b) == -128 {
        spec_invalid()
    } else {
        fmt80_value(b)
    }
}

/// The full sample stream a byte sequence decodes to under format 80.
pub open spec fn fmt80_stream(bytes: Seq<u8>) -> Seq<int> {
    Seq::new(bytes.len(), |i: int| fmt80_sample(bytes[i]))
}

/// Decoder for format 80 (8-bit offset binary).
#[derive(Debug, Clone, Default)]
pub struct Format80Decoder;

impl Format80Decoder {
    /// Create a new format 80 decoder.
    pub fn new() -> Self {
        Format80Decoder
    }

    /// Decode samples into `output` until it is full or the source is empty.
    /// Returns the number of samples written; entries past it keep their old
    /// values.
    pub fn decode_buf(&mut self, src: &mut ByteCursor, output: &mut Vec<Sample>) -> (n: usize)
        requires
            old(src).wf(),
        ensures
            final(src).wf(),
            final(src).spec_data() == old(src).spec_data(),
            ({
                let stream = fmt80_stream(old(src).remaining());
                let count = if (old(output).len() as int) <= stream.len() {
                    old(output).len() as int
                } else {
                    stream.len() as int
                };
                &&& n == count
                &&& final(src).spec_pos() == old(src).spec_pos() + count
                &&& final(output).len() == old(output).len()
                &&& forall|i: int| 0 <= i < count ==> final(output)@[i] as int == stream[i]
                &&& forall|i: int|
                    count <= i < old(output).len() ==> final(output)@[i] == old(output)@[i]
            }),
    {
        let ghost orig = src.remaining();
        let ghost stream = fmt80_stream(orig);
        let mut i: usize = 0;
        while i < output.len() && src.remaining_len() >= 1
            invariant
                src.wf(),
                src.spec_data() == old(src).spec_data(),
                output.len() == old(output).len(),
                i <= output.len(),
                i <= orig.len(),
                src.spec_pos() == old(src).spec_pos() + i,
                src.remaining() == orig.skip(i as int),
                stream == fmt80_stream(orig),
                orig == old(src).remaining(),
                forall|j: int| 0 <= j < i ==> output@[j] as int == stream[j],
                forall|j: int| i <= j < output.len() ==> output@[j] == old(output)@[j],
            decreases output.len() - i,
        {
            let b = src.peek_at(0);
            assert(orig.skip(i as int)[0] == orig[i as int]);
            src.advance(1);
            proof {
                assert(orig.skip(i as int).skip(1) =~= orig.skip(i as int + 1));
            }
            let s: Sample = if b == 0 {
                INVALID_SAMPLE
            } else {
                (b as i32) - 128
            };
            output[i] = s;
            i = i + 1;
        }
        i
    }

    /// Reset the decoder. Format 80 keeps no state.
    pub fn reset(&mut self) {
    }

    /// Bytes per sample: 1.
    pub fn bytes_per_sample(&self) -> (r: Option<usize>)
        ensures
            r == Some(1usize),
    {
        Some(1)
    }

    /// Bytes per frame of `num_signals` interleaved samples.
    pub fn bytes_per_frame(&self, num_signals: usize) -> (r: Option<usize>)
        ensures
            r == Some(num_signals),
    {
        Some(num_signals)
    }
}

} // verus!
