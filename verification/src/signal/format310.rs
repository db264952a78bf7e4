//! Format 310: three 10-bit two's complement samples packed into four bytes.
//!
//! A group is two little-endian 16-bit words `w0 w1`. The first two samples
//! are bits 1..=10 of each word; the third is bits 11..=15 of `w0` (low) and
//! bits 11..=15 of `w1` (high).

use vstd::prelude::*;

use crate::{Sample, INVALID_SAMPLE};
use crate::signal::common::{ByteCursor, spec_invalid};

verus! {

/// Sign extension of a 10-bit value, with the reserved minimum (-512) mapped
/// to the invalid marker.
pub open spec fn fmt310_extend(u: int) -> int {
    let v = if u >= 0x200 {
        u - 0x400
    } else {
        u
    };
    if v == -0x200 {
        spec_invalid()
    } else {
        v
    }
}

/// The little-endian 16-bit word formed by two bytes.
pub open spec fn le16(b0: u8, b1: u8) -> int {
    b0 + 256 * b1
}

/// The sample held in bits 1..=10 of a word.
pub open spec fn fmt310_word_sample(w: int) -> int {
    fmt310_extend((w / 2) % 0x400)
}

/// The third sample of a group: the top five bits of each word.
pub open spec fn fmt310_third_sample(w0: int, w1: int) -> int {
    fmt310_extend((w0 / 0x800) % 0x20 + 0x20 * ((w1 / 0x800) % 0x20))
}

/// The full sample stream a byte sequence decodes to under format 310,
/// starting from the given packing state: `pos` counts the samples of the
/// current group already emitted, and `w0`, `w1` buffer the group's words.
/// A trailing partial word is discarded.
pub open spec fn fmt310_future(pos: u8, w0: u16, w1: u16, bytes: Seq<u8>) -> Seq<int>
    decreases bytes.len(), (if pos == 2 || pos >= 3 { 1int } else { 0int }),
{
    if pos == 0 {
        if bytes.len() < 2 {
            Seq::empty()
        } else {
            let w = le16(bytes[0], bytes[1]);
            seq![fmt310_word_sample(w)] + fmt310_future(1, (w as u16), w1, bytes.skip(2))
        }
    } else if pos == 1 {
        if bytes.len() < 2 {
            Seq::empty()
        } else {
            let w = le16(bytes[0], bytes[1]);
            seq![fmt310_word_sample(w)] + fmt310_future(2, w0, (w as u16), bytes.skip(2))
        }
    } else {
        seq![fmt310_third_sample(w0 as int, w1 as int)] + fmt310_future(0, w0, w1, bytes)
    }
}

/// The recursive sample count per state, mirroring `fmt310_future`.
pub open spec fn fmt310_count_from(pos: u8, len: int) -> int
    decreases
            (if len >= 0 {
                len
            } else {
                0int
            }),
            (if pos == 2 || pos >= 3 {
                1int
            } else {
                0int
            }),
{
    if pos == 0 {
        if len < 2 {
            0
        } else {
            1 + fmt310_count_from(1, len - 2)
        }
    } else if pos == 1 {
        if len < 2 {
            0
        } else {
            1 + fmt310_count_from(2, len - 2)
        }
    } else {
        1 + fmt310_count_from(0, len)
    }
}

/// The stream length depends only on the state's position and the number of
/// bytes.
pub proof fn lemma_fmt310_future_len(pos: u8, w0: u16, w1: u16, bytes: Seq<u8>)
    ensures
        fmt310_future(pos, w0, w1, bytes).len() == fmt310_count_from(pos, bytes.len() as int),
    decreases bytes.len(), (if pos == 2 || pos >= 3 { 1int } else { 0int }),
{
    if pos == 0 {
        if bytes.len() >= 2 {
            let w = le16(bytes[0], bytes[1]);
            lemma_fmt310_future_len(1, w as u16, w1, bytes.skip(2));
        }
    } else if pos == 1 {
        if bytes.len() >= 2 {
            let w = le16(bytes[0], bytes[1]);
            lemma_fmt310_future_len(2, w0, w as u16, bytes.skip(2));
        }
    } else {
        lemma_fmt310_future_len(0, w0, w1, bytes);
    }
}

/// The closed-form count from a fresh state: three samples per complete
/// four-byte group, one more for a single extra complete word. In particular
/// `4 * k` bytes always yield exactly `3 * k` samples.
pub proof fn lemma_fmt310_count_closed(len: int)
    requires
        len >= 0,
    ensures
        fmt310_count_from(0, len) == 3 * (len / 4) + if len % 4 >= 2 {
            1int
        } else {
            0int
        },
    decreases len,
{
    if len >= 4 {
        lemma_fmt310_count_closed(len - 4);
        assert(fmt310_count_from(1, len - 2) == 1 + fmt310_count_from(2, len - 4));
        assert(fmt310_count_from(2, len - 4) == 1 + fmt310_count_from(0, len - 4));
        vstd::arithmetic::div_mod::lemma_hoist_over_denominator(len - 4, 1, 4nat);
        vstd::arithmetic::div_mod::lemma_mod_add_multiples_vanish(len - 4, 4);
    } else {
        assert(len / 4 == 0) by {
            vstd::arithmetic::div_mod::lemma_basic_div(len, 4);
        }
        if len >= 2 {
            assert(fmt310_count_from(1, len - 2) == 0);
        }
    }
}

/// Decoder for format 310 (packed 10-bit samples).
///
/// Cycles through the three samples of a group, buffering the group's two
/// words. Resetting returns to the start of a group.
#[derive(Debug, Clone)]
pub struct Format310Decoder {
    /// The first buffered word of the current group.
    w0: u16,
    /// The second buffered word of the current group.
    w1: u16,
    /// How many samples of the current group have been emitted (0, 1 or 2).
    position: u8,
}

impl Format310Decoder {
    /// The packing position within the current group.
    pub closed spec fn spec_position(&self) -> u8 {
        self.position
    }

    /// The buffered words of the current group.
    pub closed spec fn spec_words(&self) -> (u16, u16) {
        (self.w0, self.w1)
    }

    /// Create a new format 310 decoder, at the start of a group.
    pub fn new() -> (r: Self)
        ensures
            r.spec_position() == 0,
            r.spec_words() == (0u16, 0u16),
    {
        Format310Decoder { w0: 0, w1: 0, position: 0 }
    }

    /// Decode samples into `output` until it is full or the source cannot
    /// complete another sample. A trailing partial group is discarded and the
    /// state reset. Returns the number of samples written; entries past it
    /// keep their old values.
    pub fn decode_buf(&mut self, src: &mut ByteCursor, output: &mut Vec<Sample>) -> (n: usize)
        requires
            old(src).wf(),
        ensures
            final(src).wf(),
            final(src).spec_data() == old(src).spec_data(),
            ({
                let fut = fmt310_future(
                    old(self).spec_position(),
                    old(self).spec_words().0,
                    old(self).spec_words().1,
                    old(src).remaining(),
                );
                let count = if (old(output).len() as int) <= fut.len() {
                    old(output).len() as int
                } else {
                    fut.len() as int
                };
                &&& n == count
                &&& final(output).len() == old(output).len()
                &&& forall|i: int| 0 <= i < count ==> final(output)@[i] as int == fut[i]
                &&& forall|i: int|
                    count <= i < old(output).len() ==> final(output)@[i] == old(output)@[i]
                &&& fmt310_future(
                    final(self).spec_position(),
                    final(self).spec_words().0,
                    final(self).spec_words().1,
                    final(src).remaining(),
                ) == fut.skip(count)
                &&& final(src).spec_pos() >= old(src).spec_pos()
            }),
    {
        let ghost orig = src.remaining();
        let ghost fut = fmt310_future(
            old(self).spec_position(),
            old(self).spec_words().0,
            old(self).spec_words().1,
            orig,
        );
        let mut i: usize = 0;
        loop
            invariant
                src.wf(),
                src.spec_data() == old(src).spec_data(),
                output.len() == old(output).len(),
                i <= output.len(),
                i <= fut.len(),
                src.spec_pos() >= old(src).spec_pos(),
                fmt310_future(self.spec_position(), self.spec_words().0, self.spec_words().1,
                    src.remaining()) == fut.skip(i as int),
                forall|j: int| 0 <= j < i ==> output@[j] as int == fut[j],
                forall|j: int| i <= j < output.len() ==> output@[j] == old(output)@[j],
            ensures
                i == if (output.len() as int) <= fut.len() {
                    output.len() as int
                } else {
                    fut.len() as int
                },
                src.wf(),
                src.spec_data() == old(src).spec_data(),
                output.len() == old(output).len(),
                src.spec_pos() >= old(src).spec_pos(),
                fmt310_future(self.spec_position(), self.spec_words().0, self.spec_words().1,
                    src.remaining()) == fut.skip(i as int),
                forall|j: int| 0 <= j < i ==> output@[j] as int == fut[j],
                forall|j: int| i <= j < output.len() ==> output@[j] == old(output)@[j],
            decreases output.len() - i,
        {
            if i >= output.len() {
                break;
            }
            let ghost rem = src.remaining();
            let ghost st = (self.spec_position(), self.spec_words().0, self.spec_words().1);
            match self.position {
                0u8 => {
                    if src.remaining_len() < 2 {
                        proof {
                            assert(fut.skip(i as int) =~= Seq::<int>::empty());
                        }
                        break;
                    }
                    let b0 = src.peek_at(0);
                    let b1 = src.peek_at(1);
                    src.advance(2);
                    let w: u16 = b0 as u16 + 256 * (b1 as u16);
                    proof {
                        assert(fmt310_future(0, st.1, st.2, rem) =~= seq![
                            fmt310_word_sample(le16(rem[0], rem[1])),
                        ] + fmt310_future(1, (le16(rem[0], rem[1]) as u16), st.2, rem.skip(2)));
                        assert(fut[i as int] == fut.skip(i as int)[0]);
                        assert(fut.skip(i as int).skip(1) =~= fut.skip(i as int + 1));
                    }
                    let u: u32 = ((w / 2) % 0x400) as u32;
                    let v: i32 = if u >= 0x200 {
                        (u as i32) - 0x400
                    } else {
                        u as i32
                    };
                    let s: Sample = if v == -0x200 {
                        INVALID_SAMPLE
                    } else {
                        v
                    };
                    self.w0 = w;
                    self.position = 1;
                    output[i] = s;
                    i = i + 1;
                },
                1u8 => {
                    if src.remaining_len() < 2 {
                        self.position = 0;
                        proof {
                            assert(fut.skip(i as int) =~= Seq::<int>::empty());
                            assert(fmt310_future(0, st.1, st.2, rem) =~= Seq::<int>::empty());
                        }
                        break;
                    }
                    let b0 = src.peek_at(0);
                    let b1 = src.peek_at(1);
                    src.advance(2);
                    let w: u16 = b0 as u16 + 256 * (b1 as u16);
                    proof {
                        assert(fmt310_future(1, st.1, st.2, rem) =~= seq![
                            fmt310_word_sample(le16(rem[0], rem[1])),
                        ] + fmt310_future(2, st.1, (le16(rem[0], rem[1]) as u16), rem.skip(2)));
                        assert(fut[i as int] == fut.skip(i as int)[0]);
                        assert(fut.skip(i as int).skip(1) =~= fut.skip(i as int + 1));
                    }
                    let u: u32 = ((w / 2) % 0x400) as u32;
                    let v: i32 = if u >= 0x200 {
                        (u as i32) - 0x400
                    } else {
                        u as i32
                    };
                    let s: Sample = if v == -0x200 {
                        INVALID_SAMPLE
                    } else {
                        v
                    };
                    self.w1 = w;
                    self.position = 2;
                    output[i] = s;
                    i = i + 1;
                },
                _ => {
                    proof {
                        assert(fmt310_future(st.0, st.1, st.2, rem) =~= seq![
                            fmt310_third_sample(st.1 as int, st.2 as int),
                        ] + fmt310_future(0, st.1, st.2, rem));
                        assert(fut[i as int] == fut.skip(i as int)[0]);
                        assert(fut.skip(i as int).skip(1) =~= fut.skip(i as int + 1));
                    }
                    let high0: u16 = (self.w0 / 0x800) % 0x20;
                    let high1: u16 = (self.w1 / 0x800) % 0x20;
                    let u: u32 = high0 as u32 + 0x20 * (high1 as u32);
                    let v: i32 = if u >= 0x200 {
                        (u as i32) - 0x400
                    } else {
                        u as i32
                    };
                    let s: Sample = if v == -0x200 {
                        INVALID_SAMPLE
                    } else {
                        v
                    };
                    self.position = 0;
                    output[i] = s;
                    i = i + 1;
                },
            }
        }
        i
    }

    /// Reset the decoder: back to the start of a group, nothing buffered.
    pub fn reset(&mut self)
        ensures
            final(self).spec_position() == 0,
            final(self).spec_words() == (0u16, 0u16),
    {
        self.w0 = 0;
        self.w1 = 0;
        self.position = 0;
    }

    /// Bytes per sample: undefined; the format is variable-width (four bytes
    /// for each three samples).
    pub fn bytes_per_sample(&self) -> (r: Option<usize>)
        ensures
            r is None,
    {
        None
    }

    /// Bytes per frame of `num_signals` interleaved samples: four bytes per
    /// started group of three.
    pub fn bytes_per_frame(&self, num_signals: usize) -> (r: Option<usize>)
        requires
            num_signals + 2 <= usize::MAX,
            4 * ((num_signals + 2) / 3) <= usize::MAX,
        ensures
            r == Some((4 * ((num_signals + 2) / 3)) as usize),
    {
        Some(4 * ((num_signals + 2) / 3))
    }
}

} // verus!
