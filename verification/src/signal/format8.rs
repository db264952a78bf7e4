//! Format 8: signed 8-bit first differences, accumulated from an initial
//! value with saturating addition.

use vstd::prelude::*;

use crate::Sample;
use crate::signal::common::{ByteCursor, spec_saturating_add, saturating_add_i32};

verus! {

/// The signed difference encoded by one byte.
pub open spec fn fmt8_diff(b: u8) -> int {
    if b >= 128 {
        b - 256
    } else {
        b as int
    }
}

/// The full sample stream a byte sequence decodes to under format 8, starting
/// from accumulator value `acc`: each byte's difference is added to the
/// accumulator with saturation, and the accumulator is emitted.
pub open spec fn fmt8_future(acc: int, bytes: Seq<u8>) -> Seq<int>
    decreases bytes.len(),
{
    if bytes.len() == 0 {
        Seq::empty()
    } else {
        let v = spec_saturating_add(acc, fmt8_diff(bytes[0]));
        seq![v] + fmt8_future(v, bytes.skip(1))
    }
}

/// The stream has exactly one sample per byte.
pub proof fn lemma_fmt8_future_len(acc: int, bytes: Seq<u8>)
    ensures
        fmt8_future(acc, bytes).len() == bytes.len(),
    decreases bytes.len(),
{
    if bytes.len() > 0 {
        let v = spec_saturating_add(acc, fmt8_diff(bytes[0]));
        lemma_fmt8_future_len(v, bytes.skip(1));
    }
}

/// Decoder for format 8 (8-bit first differences).
///
/// Holds a running accumulator, initialized to the configured initial value.
/// Resetting restores the initial value.
#[derive(Debug, Clone)]
pub struct Format8Decoder {
    /// The configured starting value of the accumulator.
    initial_value: Sample,
    /// The current accumulator value.
    current_value: Sample,
}

impl Format8Decoder {
    /// The configured initial value.
    pub closed spec fn spec_initial(&self) -> int {
        self.initial_value as int
    }

    /// The current accumulator value.
    pub closed spec fn spec_current(&self) -> int {
        self.current_value as int
    }

    /// Create a new format 8 decoder whose accumulator starts at
    /// `initial_value`.
    pub fn new(initial_value: Sample) -> (r: Self)
        ensures
            r.spec_initial() == initial_value as int,
            r.spec_current() == initial_value as int,
    {
        Format8Decoder { initial_value, current_value: initial_value }
    }

    /// Decode samples into `output` until it is full or the source is empty,
    /// accumulating each byte's difference. Returns the number of samples
    /// written; entries past it keep their old values.
    pub fn decode_buf(&mut self, src: &mut ByteCursor, output: &mut Vec<Sample>) -> (n: usize)
        requires
            old(src).wf(),
        ensures
            final(src).wf(),
            final(src).spec_data() == old(src).spec_data(),
            final(self).spec_initial() == old(self).spec_initial(),
            ({
                let fut = fmt8_future(old(self).spec_current(), old(src).remaining());
                let count = if (old(output).len() as int) <= fut.len() {
                    old(output).len() as int
                } else {
                    fut.len() as int
                };
                &&& n == count
                &&& final(src).spec_pos() == old(src).spec_pos() + count
                &&& final(output).len() == old(output).len()
                &&& forall|i: int| 0 <= i < count ==> final(output)@[i] as int == fut[i]
                &&& forall|i: int|
                    count <= i < old(output).len() ==> final(output)@[i] == old(output)@[i]
                &&& final(self).spec_current() == if count == 0 {
                    old(self).spec_current()
                } else {
                    fut[count - 1]
                }
                &&& fmt8_future(final(self).spec_current(), final(src).remaining()) == fut.skip(
                    count,
                )
            }),
    {
        let ghost orig = src.remaining();
        let ghost fut = fmt8_future(old(self).spec_current(), orig);
        proof {
            lemma_fmt8_future_len(old(self).spec_current(), orig);
        }
        let mut i: usize = 0;
        while i < output.len() && src.remaining_len() >= 1
            invariant
                src.wf(),
                src.spec_data() == old(src).spec_data(),
                output.len() == old(output).len(),
                i <= output.len(),
                i <= orig.len(),
                src.spec_pos() == old(src).spec_pos() + i,
                src.remaining() == orig.skip(i as int),
                fut == fmt8_future(old(self).spec_current(), orig),
                fut.len() == orig.len(),
                orig == old(src).remaining(),
                self.spec_initial() == old(self).spec_initial(),
                self.spec_current() == if i == 0 {
                    old(self).spec_current()
                } else {
                    fut[i - 1]
                },
                fmt8_future(self.spec_current(), src.remaining()) == fut.skip(i as int),
                forall|j: int| 0 <= j < i ==> output@[j] as int == fut[j],
                forall|j: int| i <= j < output.len() ==> output@[j] == old(output)@[j],
            decreases output.len() - i,
        {
            let b = src.peek_at(0);
            assert(orig.skip(i as int)[0] == orig[i as int]);
            src.advance(1);
            proof {
                assert(orig.skip(i as int).skip(1) =~= orig.skip(i as int + 1));
            }
            let diff: i32 = if b >= 128 {
                (b as i32) - 256
            } else {
                b as i32
            };
            let v = saturating_add_i32(self.current_value, diff);
            proof {
                assert(fut.skip(i as int)[0] == fut[i as int]);
                assert(fut.skip(i as int).skip(1) =~= fut.skip(i as int + 1));
            }
            self.current_value = v;
            output[i] = v;
            i = i + 1;
        }
        i
    }

    /// Reset the decoder: the accumulator returns to the initial value.
    pub fn reset(&mut self)
        ensures
            final(self).spec_initial() == old(self).spec_initial(),
            final(self).spec_current() == old(self).spec_initial(),
    {
        self.current_value = self.initial_value;
    }

    /// Bytes per sample: 1.
    pub fn bytes_per_sample(&self) -> (r: Option<usize>)
        ensures
            r == Some(1usize),
    {
        Some(1)
    }

    /// Bytes per frame of `num_signals` interleaved samples.
    pub fn bytes_per_frame(&self, num_signals: usize) -> (r: Option<usize>)
        ensures
            r == Some(num_signals),
    {
        Some(num_signals)
    }
}

} // verus!
