//! Format 0: the null signal. No bytes are read; every sample is invalid.

use vstd::prelude::*;

use crate::{Sample, INVALID_SAMPLE};
use crate::signal::common::{ByteCursor, spec_invalid};

verus! {

/// Decoder for format 0 (null signal).
///
/// Nothing is read from the source; every decoded sample is the invalid
/// marker.
#[derive(Debug, Clone, Default)]
pub struct Format0Decoder;

impl Format0Decoder {
    /// Create a new format 0 decoder.
    pub fn new() -> Self {
        Format0Decoder
    }

    /// Fill `output` with invalid samples. Consumes no bytes and always
    /// reports a full buffer.
    pub fn decode_buf(&mut self, src: &mut ByteCursor, output: &mut Vec<Sample>) -> (n: usize)
        requires
            old(src).wf(),
        ensures
            *final(src) == *old(src),
            n == old(output).len(),
            final(output).len() == old(output).len(),
            forall|i: int| 0 <= i < old(output).len() ==> final(output)@[i] as int == spec_invalid(),
    {
        let mut i: usize = 0;
        while i < output.len()
            invariant
                i <= output.len(),
                output.len() == old(output).len(),
                forall|j: int| 0 <= j < i ==> output@[j] as int == spec_invalid(),
            decreases output.len() - i,
        {
            output[i] = INVALID_SAMPLE;
            i = i + 1;
        }
        i
    }

    /// Reset the decoder. Format 0 keeps no state.
    pub fn reset(&mut self) {
    }

    /// Bytes per sample: 0.
    pub fn bytes_per_sample(&self) -> (r: Option<usize>)
        ensures
            r == Some(0usize),
    {
        Some(0)
    }

    /// Bytes per frame: 0, whatever the number of signals.
    pub fn bytes_per_frame(&self, num_signals: usize) -> (r: Option<usize>)
        ensures
            r == Some(0usize),
    {
        Some(0)
    }
}

} // verus!
