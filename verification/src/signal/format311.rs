//! Format 311: three 10-bit two's complement samples packed into one
//! little-endian 32-bit word, at bit offsets 0, 10 and 20.

use vstd::prelude::*;

use crate::{Sample, INVALID_SAMPLE};
use crate::signal::common::{ByteCursor, spec_invalid};

verus! {

/// Sign extension of a 10-bit value, with the reserved minimum (-512) mapped
/// to the invalid marker.
pub open spec fn fmt311_extend(u: int) -> int {
    let v = if u >= 0x200 {
        u - 0x400
    } else {
        u
    };
    if v == -0x200 {
        spec_invalid()
    } else {
        v
    }
}

/// The little-endian 32-bit word formed by four bytes.
pub open spec fn le32(b0: u8, b1: u8, b2: u8, b3: u8) -> int {
    b0 + 256 * b1 + 0x1_0000 * b2 + 0x100_0000 * b3
}

/// The sample at 10-bit field `k` (0, 1 or 2) of a group word.
pub open spec fn fmt311_field(w: int, k: int) -> int {
    fmt311_extend(
        if k == 0 {
            w % 0x400
        } else if k == 1 {
            (w / 0x400) % 0x400
        } else {
            (w / 0x10_0000) % 0x400
        },
    )
}

/// The full sample stream a byte sequence decodes to under format 311,
/// starting from the given packing state: `pos` counts the samples of the
/// current group already emitted, `w` buffers the group's word. A trailing
/// partial word is discarded.
pub open spec fn fmt311_future(pos: u8, w: u32, bytes: Seq<u8>) -> Seq<int>
    decreases bytes.len(), (if pos == 1 { 2int } else if pos == 0 { 0int } else { 1int }),
{
    if pos == 0 {
        if bytes.len() < 4 {
            Seq::empty()
        } else {
            let word = le32(bytes[0], bytes[1], bytes[2], bytes[3]);
            seq![fmt311_field(word, 0)] + fmt311_future(1, (word as u32), bytes.skip(4))
        }
    } else if pos == 1 {
        seq![fmt311_field(w as int, 1)] + fmt311_future(2, w, bytes)
    } else {
        seq![fmt311_field(w as int, 2)] + fmt311_future(0, w, bytes)
    }
}

/// The recursive sample count per state, mirroring `fmt311_future`.
pub open spec fn fmt311_count_from(pos: u8, len: int) -> int
    decreases
            (if len >= 0 {
                len
            } else {
                0int
            }),
            (if pos == 1 {
                2int
            } else if pos == 0 {
                0int
            } else {
                1int
            }),
{
    if pos == 0 {
        if len < 4 {
            0
        } else {
            1 + fmt311_count_from(1, len - 4)
        }
    } else if pos == 1 {
        1 + fmt311_count_from(2, len)
    } else {
        1 + fmt311_count_from(0, len)
    }
}

/// The stream length depends only on the state's position and the number of
/// bytes.
pub proof fn lemma_fmt311_future_len(pos: u8, w: u32, bytes: Seq<u8>)
    ensures
        fmt311_future(pos, w, bytes).len() == fmt311_count_from(pos, bytes.len() as int),
    decreases bytes.len(), (if pos == 1 { 2int } else if pos == 0 { 0int } else { 1int }),
{
    if pos == 0 {
        if bytes.len() >= 4 {
            let word = le32(bytes[0], bytes[1], bytes[2], bytes[3]);
            lemma_fmt311_future_len(1, word as u32, bytes.skip(4));
        }
    } else if pos == 1 {
        lemma_fmt311_future_len(2, w, bytes);
    } else {
        lemma_fmt311_future_len(0, w, bytes);
    }
}

/// The closed-form count from a fresh state: three samples per complete
/// four-byte group, nothing for a trailing partial word. In particular
/// `4 * k` bytes always yield exactly `3 * k` samples.
pub proof fn lemma_fmt311_count_closed(len: int)
    requires
        len >= 0,
    ensures
        fmt311_count_from(0, len) == 3 * (len / 4),
    decreases len,
{
    if len >= 4 {
        lemma_fmt311_count_closed(len - 4);
        assert(fmt311_count_from(1, len - 4) == 1 + fmt311_count_from(2, len - 4));
        assert(fmt311_count_from(2, len - 4) == 1 + fmt311_count_from(0, len - 4));
        vstd::arithmetic::div_mod::lemma_hoist_over_denominator(len - 4, 1, 4nat);
    } else {
        assert(len / 4 == 0) by {
            vstd::arithmetic::div_mod::lemma_basic_div(len, 4);
        }
    }
}

/// Decoder for format 311 (packed 10-bit samples, one 32-bit word per group).
///
/// Cycles through the three samples of a group, buffering the group word.
/// Resetting returns to the start of a group.
#[derive(Debug, Clone)]
pub struct Format311Decoder {
    /// The buffered word of the current group.
    word: u32,
    /// How many samples of the current group have been emitted (0, 1 or 2).
    position: u8,
}

impl Format311Decoder {
    /// The packing position within the current group.
    pub closed spec fn spec_position(&self) -> u8 {
        self.position
    }

    /// The buffered group word.
    pub closed spec fn spec_word(&self) -> u32 {
        self.word
    }

    /// Create a new format 311 decoder, at the start of a group.
    pub fn new() -> (r: Self)
        ensures
            r.spec_position() == 0,
            r.spec_word() == 0,
    {
        Format311Decoder { word: 0, position: 0 }
    }

    /// Decode samples into `output` until it is full or the source cannot
    /// complete another sample. A trailing partial group is discarded.
    /// Returns the number of samples written; entries past it keep their old
    /// values.
    pub fn decode_buf(&mut self, src: &mut ByteCursor, output: &mut Vec<Sample>) -> (n: usize)
        requires
            old(src).wf(),
        ensures
            final(src).wf(),
            final(src).spec_data() == old(src).spec_data(),
            ({
                let fut = fmt311_future(
                    old(self).spec_position(),
                    old(self).spec_word(),
                    old(src).remaining(),
                );
                let count = if (old(output).len() as int) <= fut.len() {
                    old(output).len() as int
                } else {
                    fut.len() as int
                };
                &&& n == count
                &&& final(output).len() == old(output).len()
                &&& forall|i: int| 0 <= i < count ==> final(output)@[i] as int == fut[i]
                &&& forall|i: int|
                    count <= i < old(output).len() ==> final(output)@[i] == old(output)@[i]
                &&& fmt311_future(
                    final(self).spec_position(),
                    final(self).spec_word(),
                    final(src).remaining(),
                ) == fut.skip(count)
                &&& final(src).spec_pos() >= old(src).spec_pos()
            }),
    {
        let ghost orig = src.remaining();
        let ghost fut = fmt311_future(old(self).spec_position(), old(self).spec_word(), orig);
        let mut i: usize = 0;
        loop
            invariant
                src.wf(),
                src.spec_data() == old(src).spec_data(),
                output.len() == old(output).len(),
                i <= output.len(),
                i <= fut.len(),
                src.spec_pos() >= old(src).spec_pos(),
                fmt311_future(self.spec_position(), self.spec_word(), src.remaining())
                    == fut.skip(i as int),
                forall|j: int| 0 <= j < i ==> output@[j] as int == fut[j],
                forall|j: int| i <= j < output.len() ==> output@[j] == old(output)@[j],
            ensures
                i == if (output.len() as int) <= fut.len() {
                    output.len() as int
                } else {
                    fut.len() as int
                },
                src.wf(),
                src.spec_data() == old(src).spec_data(),
                output.len() == old(output).len(),
                src.spec_pos() >= old(src).spec_pos(),
                fmt311_future(self.spec_position(), self.spec_word(), src.remaining())
                    == fut.skip(i as int),
                forall|j: int| 0 <= j < i ==> output@[j] as int == fut[j],
                forall|j: int| i <= j < output.len() ==> output@[j] == old(output)@[j],
            decreases output.len() - i,
        {
            if i >= output.len() {
                break;
            }
            let ghost rem = src.remaining();
            let ghost st = (self.spec_position(), self.spec_word());
            match self.position {
                0u8 => {
                    if src.remaining_len() < 4 {
                        proof {
                            assert(fut.skip(i as int) =~= Seq::<int>::empty());
                        }
                        break;
                    }
                    let b0 = src.peek_at(0);
                    let b1 = src.peek_at(1);
                    let b2 = src.peek_at(2);
                    let b3 = src.peek_at(3);
                    src.advance(4);
                    let w: u32 = b0 as u32 + 256 * (b1 as u32) + 0x1_0000 * (b2 as u32)
                        + 0x100_0000 * (b3 as u32);
                    proof {
                        assert(fmt311_future(0, st.1, rem) =~= seq![
                            fmt311_field(le32(rem[0], rem[1], rem[2], rem[3]), 0),
                        ] + fmt311_future(
                            1,
                            (le32(rem[0], rem[1], rem[2], rem[3]) as u32),
                            rem.skip(4),
                        ));
                        assert(fut[i as int] == fut.skip(i as int)[0]);
                        assert(fut.skip(i as int).skip(1) =~= fut.skip(i as int + 1));
                    }
                    let u: u32 = w % 0x400;
                    let v: i32 = if u >= 0x200 {
                        (u as i32) - 0x400
                    } else {
                        u as i32
                    };
                    let s: Sample = if v == -0x200 {
                        INVALID_SAMPLE
                    } else {
                        v
                    };
                    self.word = w;
                    self.position = 1;
                    output[i] = s;
                    i = i + 1;
                },
                1u8 => {
                    proof {
                        assert(fmt311_future(1, st.1, rem) =~= seq![fmt311_field(st.1 as int, 1)]
                            + fmt311_future(2, st.1, rem));
                        assert(fut[i as int] == fut.skip(i as int)[0]);
                        assert(fut.skip(i as int).skip(1) =~= fut.skip(i as int + 1));
                    }
                    let u: u32 = (self.word / 0x400) % 0x400;
                    let v: i32 = if u >= 0x200 {
                        (u as i32) - 0x400
                    } else {
                        u as i32
                    };
                    let s: Sample = if v == -0x200 {
                        INVALID_SAMPLE
                    } else {
                        v
                    };
                    self.position = 2;
                    output[i] = s;
                    i = i + 1;
                },
                _ => {
                    proof {
                        assert(fmt311_future(st.0, st.1, rem) =~= seq![
                            fmt311_field(st.1 as int, 2),
                        ] + fmt311_future(0, st.1, rem));
                        assert(fut[i as int] == fut.skip(i as int)[0]);
                        assert(fut.skip(i as int).skip(1) =~= fut.skip(i as int + 1));
                    }
                    let u: u32 = (self.word / 0x10_0000) % 0x400;
                    let v: i32 = if u >= 0x200 {
                        (u as i32) - 0x400
                    } else {
                        u as i32
                    };
                    let s: Sample = if v == -0x200 {
                        INVALID_SAMPLE
                    } else {
                        v
                    };
                    self.position = 0;
                    output[i] = s;
                    i = i + 1;
                },
            }
        }
        i
    }

    /// Reset the decoder: back to the start of a group, nothing buffered.
    pub fn reset(&mut self)
        ensures
            final(self).spec_position() == 0,
            final(self).spec_word() == 0,
    {
        self.word = 0;
        self.position = 0;
    }

    /// Bytes per sample: undefined; the format is variable-width (four bytes
    /// for each three samples).
    pub fn bytes_per_sample(&self) -> (r: Option<usize>)
        ensures
            r is None,
    {
        None
    }

    /// Bytes per frame of `num_signals` interleaved samples: four bytes per
    /// started group of three.
    pub fn bytes_per_frame(&self, num_signals: usize) -> (r: Option<usize>)
        requires
            num_signals + 2 <= usize::MAX,
            4 * ((num_signals + 2) / 3) <= usize::MAX,
        ensures
            r == Some((4 * ((num_signals + 2) / 3)) as usize),
    {
        Some(4 * ((num_signals + 2) / 3))
    }
}

} // verus!
