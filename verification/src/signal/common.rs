//! Shared pieces of the signal decoders: the invalid-sample marker, sign
//! extension, saturating accumulation, and the in-memory byte source.

use vstd::prelude::*;
use vstd::arithmetic::power2::{pow2, lemma_pow2_pos, lemma_pow2_unfold, lemma2_to64};

use crate::{Sample, INVALID_SAMPLE};

verus! {

/// The invalid sample value, as a spec-level integer.
pub open spec fn spec_invalid() -> int {
    -0x8000_0000
}

/// Configuration for format decoders: the per-signal parameters a decoder may
/// need.
#[derive(Debug, Clone)]
pub struct DecoderConfig {
    /// Initial sample value, used by the differential format.
    pub initial_value: Sample,
    /// Number of samples per frame for multiplexed signals.
    pub samples_per_frame: usize,
    /// Byte offset from the beginning of the file to sample 0.
    pub byte_offset: u64,
}

impl Default for DecoderConfig {
    /// The default configuration: initial value 0, one sample per frame, no
    /// byte offset.
    fn default() -> (r: Self)
        ensures
            r.initial_value == 0,
            r.samples_per_frame == 1,
            r.byte_offset == 0,
    {
        DecoderConfig { initial_value: 0, samples_per_frame: 1, byte_offset: 0 }
    }
}

/// Interprets `v` (already reduced below `pow2(bits)`) as a `bits`-wide two's
/// complement integer.
pub open spec fn spec_sign_extend(v: int, bits: nat) -> int {
    if v >= pow2((bits - 1) as nat) {
        v - pow2(bits)
    } else {
        v
    }
}

/// `pow2(e)` as a `u32`, for exponents up to 31.
fn pow2_u32(e: u32) -> (r: u32)
    requires
        e <= 31,
    ensures
        r == pow2(e as nat),
{
    proof {
        lemma2_to64();
    }
    let mut r: u32 = 1;
    let mut i: u32 = 0;
    while i < e
        invariant
            i <= e <= 31,
            r == pow2(i as nat),
            pow2(31) == 0x8000_0000,
        decreases e - i,
    {
        proof {
            lemma_pow2_unfold((i + 1) as nat);
            vstd::arithmetic::power2::lemma_pow2_strictly_increases(i as nat, 31);
        }
        r = r * 2;
        i = i + 1;
    }
    r
}

/// Sign-extend a `bits`-wide two's complement value.
///
/// Bits of `value` at or above position `bits` are ignored; the low `bits`
/// bits are interpreted as a two's complement integer.
pub fn sign_extend(value: u32, bits: u32) -> (r: i32)
    requires
        1 <= bits <= 31,
    ensures
        r as int == spec_sign_extend(value as int % pow2(bits as nat) as int, bits as nat),
{
    let p: u32 = pow2_u32(bits);
    proof {
        lemma_pow2_pos(bits as nat);
        lemma_pow2_unfold(bits as nat);
    }
    let m: u32 = value % p;
    let half: u32 = p / 2;
    if m >= half {
        let wide: i64 = m as i64 - p as i64;
        proof {
            lemma2_to64();
            vstd::arithmetic::power2::lemma_pow2_strictly_increases(bits as nat, 32);
        }
        wide as i32
    } else {
        m as i32
    }
}

/// `a + b` clamped to the `i32` range.
pub open spec fn spec_saturating_add(a: int, b: int) -> int {
    if a + b > 0x7fff_ffff {
        0x7fff_ffff
    } else if a + b < -0x8000_0000 {
        -0x8000_0000
    } else {
        a + b
    }
}

/// Saturating `i32` addition.
pub fn saturating_add_i32(a: i32, b: i32) -> (r: i32)
    ensures
        r as int == spec_saturating_add(a as int, b as int),
{
    match a.checked_add(b) {
        Some(v) => v,
        None => {
            if b > 0 {
                0x7fff_ffffi32
            } else {
                -0x8000_0000i32
            }
        },
    }
}

/// An in-memory byte source with a read position: the decoders' view of a
/// signal file. Reads past the end simply yield nothing.
pub struct ByteCursor {
    data: Vec<u8>,
    pos: usize,
}

impl ByteCursor {
    /// The byte contents backing this cursor.
    pub closed spec fn spec_data(&self) -> Seq<u8> {
        self.data@
    }

    /// The current read position.
    pub closed spec fn spec_pos(&self) -> int {
        self.pos as int
    }

    /// The position never exceeds the length of the data, which fits the
    /// address space.
    pub open spec fn wf(&self) -> bool {
        0 <= self.spec_pos() <= self.spec_data().len() <= usize::MAX
    }

    /// The bytes not yet consumed.
    pub open spec fn remaining(&self) -> Seq<u8> {
        self.spec_data().skip(self.spec_pos())
    }

    /// Wraps a byte vector in a cursor positioned at its start.
    pub fn new(data: Vec<u8>) -> (r: Self)
        ensures
            r.wf(),
            r.spec_data() == data@,
            r.spec_pos() == 0,
    {
        proof {
            vstd::std_specs::vec::axiom_spec_len(&data);
        }
        ByteCursor { data, pos: 0 }
    }

    /// The total length of the backing bytes.
    pub fn len(&self) -> (r: usize)
        ensures
            r == self.spec_data().len(),
    {
        self.data.len()
    }

    /// The current read position.
    pub fn position(&self) -> (r: usize)
        ensures
            r == self.spec_pos(),
    {
        self.pos
    }

    /// The number of bytes left to read.
    pub fn remaining_len(&self) -> (r: usize)
        requires
            self.wf(),
        ensures
            r == self.remaining().len(),
    {
        self.data.len() - self.pos
    }

    /// Moves the read position to `pos`, clamped to the end of the data.
    pub fn seek(&mut self, pos: u64)
        requires
            old(self).wf(),
        ensures
            final(self).wf(),
            final(self).spec_data() == old(self).spec_data(),
            final(self).spec_pos() == if pos <= old(self).spec_data().len() {
                pos as int
            } else {
                old(self).spec_data().len() as int
            },
    {
        if pos <= self.data.len() as u64 {
            self.pos = pos as usize;
        } else {
            self.pos = self.data.len();
        }
    }

    /// The byte at offset `i` past the read position.
    pub fn peek_at(&self, i: usize) -> (r: u8)
        requires
            self.wf(),
            i < self.remaining().len(),
        ensures
            r == self.remaining()[i as int],
    {
        proof {
            vstd::std_specs::vec::axiom_spec_len(&self.data);
            assert(self.remaining().len() == self.spec_data().len() - self.spec_pos());
        }
        self.data[self.pos + i]
    }

    /// Consumes `n` bytes.
    pub fn advance(&mut self, n: usize)
        requires
            old(self).wf(),
            n <= old(self).remaining().len(),
        ensures
            final(self).wf(),
            final(self).spec_data() == old(self).spec_data(),
            final(self).spec_pos() == old(self).spec_pos() + n,
            final(self).remaining() == old(self).remaining().skip(n as int),
    {
        proof {
            vstd::std_specs::vec::axiom_spec_len(&self.data);
            assert(old(self).remaining().len() == old(self).spec_data().len() - old(
                self,
            ).spec_pos());
        }
        self.pos = self.pos + n;
        proof {
            assert(self.remaining() =~= old(self).remaining().skip(n as int));
        }
    }
}

} // verus!
