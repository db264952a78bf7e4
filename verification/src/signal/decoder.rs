//! A tagged decoder over the enumerated formats, with one uniform contract:
//! every decoder's meaning is the sample stream `future` it would produce
//! from its current state, and `decode_buf` consumes a prefix of that stream.

use vstd::prelude::*;

use crate::{Error, Sample, SignalFormat, spec_format_code};
use crate::signal::common::{ByteCursor, spec_invalid};
use crate::signal::format0::Format0Decoder;
use crate::signal::format8::{Format8Decoder, fmt8_future};
use crate::signal::format16::{Format16Decoder, fmt16_stream};
use crate::signal::format160::{Format160Decoder, fmt160_stream};
use crate::signal::format24::{Format24Decoder, fmt24_stream};
use crate::signal::format212::{Format212Decoder, fmt212_future};
use crate::signal::format310::{Format310Decoder, fmt310_future};
use crate::signal::format311::{Format311Decoder, fmt311_future};
use crate::signal::format32::{Format32Decoder, fmt32_stream};
use crate::signal::format61::{Format61Decoder, fmt61_stream};
use crate::signal::format80::{Format80Decoder, fmt80_stream};

verus! {

/// Whether a format can be decoded: every format of the enumeration except
/// the FLAC-compressed ones.
pub open spec fn spec_decodable(fmt: SignalFormat) -> bool {
    !(fmt is Flac8 || fmt is Flac16 || fmt is Flac24)
}

/// The full sample stream `bytes` decodes to under a decodable format,
/// starting from a fresh decoder whose accumulator (format 8 only) starts at
/// `init`. The null format and the FLAC formats produce no stream.
pub open spec fn decode_stream(fmt: SignalFormat, init: int, bytes: Seq<u8>) -> Seq<int> {
    match fmt {
        SignalFormat::Format0 => Seq::empty(),
        SignalFormat::Format8 => fmt8_future(init, bytes),
        SignalFormat::Format16 => fmt16_stream(bytes),
        SignalFormat::Format24 => fmt24_stream(bytes),
        SignalFormat::Format32 => fmt32_stream(bytes),
        SignalFormat::Format61 => fmt61_stream(bytes),
        SignalFormat::Format80 => fmt80_stream(bytes),
        SignalFormat::Format160 => fmt160_stream(bytes),
        SignalFormat::Format212 => fmt212_future(None, bytes),
        SignalFormat::Format310 => fmt310_future(0, 0, 0, bytes),
        SignalFormat::Format311 => fmt311_future(0, 0, bytes),
        SignalFormat::Flac8 => Seq::empty(),
        SignalFormat::Flac16 => Seq::empty(),
        SignalFormat::Flac24 => Seq::empty(),
    }
}

/// Bytes consumed by one frame of `n` interleaved samples, where defined:
/// the per-sample width times `n` for the fixed-width formats, a whole number
/// of packing groups for the packed ones, nothing for the null format.
pub open spec fn spec_bytes_per_frame(fmt: SignalFormat, n: int) -> Option<int> {
    match fmt {
        SignalFormat::Format0 => Some(0int),
        SignalFormat::Format8 => Some(n),
        SignalFormat::Format16 => Some(2 * n),
        SignalFormat::Format24 => Some(3 * n),
        SignalFormat::Format32 => Some(4 * n),
        SignalFormat::Format61 => Some(2 * n),
        SignalFormat::Format80 => Some(n),
        SignalFormat::Format160 => Some(2 * n),
        SignalFormat::Format212 => Some(3 * ((n + 1) / 2)),
        SignalFormat::Format310 => Some(4 * ((n + 2) / 3)),
        SignalFormat::Format311 => Some(4 * ((n + 2) / 3)),
        _ => None,
    }
}

/// Bytes per sample, where the format is fixed-width.
pub open spec fn spec_bytes_per_sample(fmt: SignalFormat) -> Option<int> {
    match fmt {
        SignalFormat::Format0 => Some(0int),
        SignalFormat::Format8 => Some(1int),
        SignalFormat::Format16 => Some(2int),
        SignalFormat::Format24 => Some(3int),
        SignalFormat::Format32 => Some(4int),
        SignalFormat::Format61 => Some(2int),
        SignalFormat::Format80 => Some(1int),
        SignalFormat::Format160 => Some(2int),
        _ => None,
    }
}

/// Skipping `2 * n` bytes skips `n` format-16 samples.
pub proof fn lemma_fmt16_stream_skip(bytes: Seq<u8>, n: int)
    requires
        0 <= n,
        2 * n <= bytes.len(),
    ensures
        fmt16_stream(bytes.skip(2 * n)) =~= fmt16_stream(bytes).skip(n),
{
    vstd::arithmetic::div_mod::lemma_hoist_over_denominator(bytes.len() - 2 * n, n, 2nat);
}

/// Skipping `2 * n` bytes skips `n` format-61 samples.
pub proof fn lemma_fmt61_stream_skip(bytes: Seq<u8>, n: int)
    requires
        0 <= n,
        2 * n <= bytes.len(),
    ensures
        fmt61_stream(bytes.skip(2 * n)) =~= fmt61_stream(bytes).skip(n),
{
    vstd::arithmetic::div_mod::lemma_hoist_over_denominator(bytes.len() - 2 * n, n, 2nat);
}

/// Skipping `2 * n` bytes skips `n` format-160 samples.
pub proof fn lemma_fmt160_stream_skip(bytes: Seq<u8>, n: int)
    requires
        0 <= n,
        2 * n <= bytes.len(),
    ensures
        fmt160_stream(bytes.skip(2 * n)) =~= fmt160_stream(bytes).skip(n),
{
    vstd::arithmetic::div_mod::lemma_hoist_over_denominator(bytes.len() - 2 * n, n, 2nat);
}

/// Skipping `3 * n` bytes skips `n` format-24 samples.
pub proof fn lemma_fmt24_stream_skip(bytes: Seq<u8>, n: int)
    requires
        0 <= n,
        3 * n <= bytes.len(),
    ensures
        fmt24_stream(bytes.skip(3 * n)) =~= fmt24_stream(bytes).skip(n),
{
    vstd::arithmetic::div_mod::lemma_hoist_over_denominator(bytes.len() - 3 * n, n, 3nat);
}

/// Skipping `4 * n` bytes skips `n` format-32 samples.
pub proof fn lemma_fmt32_stream_skip(bytes: Seq<u8>, n: int)
    requires
        0 <= n,
        4 * n <= bytes.len(),
    ensures
        fmt32_stream(bytes.skip(4 * n)) =~= fmt32_stream(bytes).skip(n),
{
    vstd::arithmetic::div_mod::lemma_hoist_over_denominator(bytes.len() - 4 * n, n, 4nat);
}

/// Skipping `n` bytes skips `n` format-80 samples.
pub proof fn lemma_fmt80_stream_skip(bytes: Seq<u8>, n: int)
    requires
        0 <= n,
        n <= bytes.len(),
    ensures
        fmt80_stream(bytes.skip(n)) =~= fmt80_stream(bytes).skip(n),
{
}

/// A format decoder: a tagged variant over the decodable formats.
///
/// Stateful formats keep their packing state inside their variant; the
/// uniform contract of [`Decoder::decode_buf`] speaks of the sample stream
/// that remains from the current state.
pub enum Decoder {
    /// Format 0.
    D0(Format0Decoder),
    /// Format 8.
    D8(Format8Decoder),
    /// Format 16.
    D16(Format16Decoder),
    /// Format 24.
    D24(Format24Decoder),
    /// Format 32.
    D32(Format32Decoder),
    /// Format 61.
    D61(Format61Decoder),
    /// Format 80.
    D80(Format80Decoder),
    /// Format 160.
    D160(Format160Decoder),
    /// Format 212.
    D212(Format212Decoder),
    /// Format 310.
    D310(Format310Decoder),
    /// Format 311.
    D311(Format311Decoder),
}

impl Decoder {
    /// The format this decoder decodes.
    pub open spec fn spec_fmt(self) -> SignalFormat {
        match self {
            Decoder::D0(_) => SignalFormat::Format0,
            Decoder::D8(_) => SignalFormat::Format8,
            Decoder::D16(_) => SignalFormat::Format16,
            Decoder::D24(_) => SignalFormat::Format24,
            Decoder::D32(_) => SignalFormat::Format32,
            Decoder::D61(_) => SignalFormat::Format61,
            Decoder::D80(_) => SignalFormat::Format80,
            Decoder::D160(_) => SignalFormat::Format160,
            Decoder::D212(_) => SignalFormat::Format212,
            Decoder::D310(_) => SignalFormat::Format310,
            Decoder::D311(_) => SignalFormat::Format311,
        }
    }

    /// The configured initial accumulator value (format 8; 0 elsewhere).
    pub open spec fn spec_init(self) -> int {
        match self {
            Decoder::D8(d) => d.spec_initial(),
            _ => 0,
        }
    }

    /// Whether this is the null format, which produces invalid samples
    /// without consuming bytes.
    pub open spec fn is_null(self) -> bool {
        self is D0
    }

    /// Whether the decoder is in its fresh state: at a packing group
    /// boundary, nothing buffered, the accumulator at its initial value.
    pub open spec fn is_fresh(self) -> bool {
        match self {
            Decoder::D0(_) => true,
            Decoder::D8(d) => d.spec_current() == d.spec_initial(),
            Decoder::D16(_) => true,
            Decoder::D24(_) => true,
            Decoder::D32(_) => true,
            Decoder::D61(_) => true,
            Decoder::D80(_) => true,
            Decoder::D160(_) => true,
            Decoder::D212(d) => d.spec_pending() is None,
            Decoder::D310(d) => d.spec_position() == 0 && d.spec_words() == (0u16, 0u16),
            Decoder::D311(d) => d.spec_position() == 0 && d.spec_word() == 0,
        }
    }

    /// The sample stream that remains from the decoder's current state over
    /// `bytes`. Meaningless for the null format, which never exhausts.
    pub open spec fn future(self, bytes: Seq<u8>) -> Seq<int> {
        match self {
            Decoder::D0(_) => Seq::empty(),
            Decoder::D8(d) => fmt8_future(d.spec_current(), bytes),
            Decoder::D16(_) => fmt16_stream(bytes),
            Decoder::D24(_) => fmt24_stream(bytes),
            Decoder::D32(_) => fmt32_stream(bytes),
            Decoder::D61(_) => fmt61_stream(bytes),
            Decoder::D80(_) => fmt80_stream(bytes),
            Decoder::D160(_) => fmt160_stream(bytes),
            Decoder::D212(d) => fmt212_future(d.spec_pending(), bytes),
            Decoder::D310(d) => fmt310_future(d.spec_position(), d.spec_words().0, d.spec_words().1, bytes),
            Decoder::D311(d) => fmt311_future(d.spec_position(), d.spec_word(), bytes),
        }
    }

    /// A fresh decoder's future is the closed-form stream of the format.
    pub proof fn lemma_fresh_future(self, bytes: Seq<u8>)
        requires
            self.is_fresh(),
        ensures
            self.future(bytes) == decode_stream(self.spec_fmt(), self.spec_init(), bytes),
    {
    }

    /// Create a fresh decoder for a decodable format; for the other formats
    /// report the unsupported code.
    pub fn get_decoder(format: SignalFormat, initial_value: Sample) -> (r: Result<Decoder, Error>)
        ensures
            match r {
                Ok(d) => spec_decodable(format) && d.spec_fmt() == format && d.is_fresh()
                    && d.spec_init() == if format is Format8 {
                    initial_value as int
                } else {
                    0int
                },
                Err(e) => !spec_decodable(format) && (e matches Error::UnsupportedSignalFormat(c)
                    && c == spec_format_code(format)),
            },
    {
        match format {
            SignalFormat::Format0 => Ok(Decoder::D0(Format0Decoder::new())),
            SignalFormat::Format8 => Ok(Decoder::D8(Format8Decoder::new(initial_value))),
            SignalFormat::Format16 => Ok(Decoder::D16(Format16Decoder::new())),
            SignalFormat::Format24 => Ok(Decoder::D24(Format24Decoder::new())),
            SignalFormat::Format32 => Ok(Decoder::D32(Format32Decoder::new())),
            SignalFormat::Format61 => Ok(Decoder::D61(Format61Decoder::new())),
            SignalFormat::Format80 => Ok(Decoder::D80(Format80Decoder::new())),
            SignalFormat::Format160 => Ok(Decoder::D160(Format160Decoder::new())),
            SignalFormat::Format212 => Ok(Decoder::D212(Format212Decoder::new())),
            SignalFormat::Format310 => Ok(Decoder::D310(Format310Decoder::new())),
            SignalFormat::Format311 => Ok(Decoder::D311(Format311Decoder::new())),
            _ => Err(Error::UnsupportedSignalFormat(format.code())),
        }
    }

    /// Decode samples into `output` until it is full or the stream is
    /// exhausted. For the null format, `output` is filled with invalid
    /// samples and nothing is consumed. For every other format, the written
    /// prefix is the head of the remaining stream, and the decoder's new
    /// state carries exactly the rest of it.
    pub fn decode_buf(&mut self, src: &mut ByteCursor, output: &mut Vec<Sample>) -> (n: usize)
        requires
            old(src).wf(),
        ensures
            final(src).wf(),
            final(src).spec_data() == old(src).spec_data(),
            final(src).spec_pos() >= old(src).spec_pos(),
            final(output).len() == old(output).len(),
            final(self).spec_fmt() == old(self).spec_fmt(),
            final(self).spec_init() == old(self).spec_init(),
            old(self).is_null() ==> {
                &&& n == old(output).len()
                &&& *final(src) == *old(src)
                &&& forall|i: int|
                    0 <= i < old(output).len() ==> final(output)@[i] as int == spec_invalid()
            },
            !old(self).is_null() ==> ({
                let fut = old(self).future(old(src).remaining());
                let count = if (old(output).len() as int) <= fut.len() {
                    old(output).len() as int
                } else {
                    fut.len() as int
                };
                &&& n == count
                &&& forall|i: int| 0 <= i < count ==> final(output)@[i] as int == fut[i]
                &&& forall|i: int|
                    count <= i < old(output).len() ==> final(output)@[i] == old(output)@[i]
                &&& final(self).future(final(src).remaining()) == fut.skip(count)
            }),
    {
        match self {
            Decoder::D0(d) => {
                let n = d.decode_buf(src, output);
                proof {
                    assert((*self) is D0);
                    assert(old(self).is_null());
                    assert((*self).future(src.remaining()) =~= Seq::<int>::empty());
                }
                n
            },
            Decoder::D8(d) => {
                let n = d.decode_buf(src, output);
                n
            },
            Decoder::D16(d) => {
                let ghost rem = src.remaining();
                let ghost p0 = src.spec_pos();
                let n = d.decode_buf(src, output);
                proof {
                    assert(n <= fmt16_stream(rem).len());
                    assert(2 * (n as int) <= rem.len());
                    assert(src.spec_pos() == p0 + 2 * (n as int));
                    vstd::seq_lib::lemma_seq_skip_of_skip(src.spec_data(), p0, 2 * n as int);
                    assert(src.remaining() =~= rem.skip(2 * n as int));
                    lemma_fmt16_stream_skip(rem, n as int);
                }
                n
            },
            Decoder::D24(d) => {
                let ghost rem = src.remaining();
                let n = d.decode_buf(src, output);
                proof {
                    vstd::seq_lib::lemma_seq_skip_of_skip(src.spec_data(), old(src).spec_pos(), 3 * n as int);
                    assert(src.remaining() =~= rem.skip(3 * n as int));
                    lemma_fmt24_stream_skip(rem, n as int);
                }
                n
            },
            Decoder::D32(d) => {
                let ghost rem = src.remaining();
                let n = d.decode_buf(src, output);
                proof {
                    vstd::seq_lib::lemma_seq_skip_of_skip(src.spec_data(), old(src).spec_pos(), 4 * n as int);
                    assert(src.remaining() =~= rem.skip(4 * n as int));
                    lemma_fmt32_stream_skip(rem, n as int);
                }
                n
            },
            Decoder::D61(d) => {
                let ghost rem = src.remaining();
                let n = d.decode_buf(src, output);
                proof {
                    vstd::seq_lib::lemma_seq_skip_of_skip(src.spec_data(), old(src).spec_pos(), 2 * n as int);
                    assert(src.remaining() =~= rem.skip(2 * n as int));
                    lemma_fmt61_stream_skip(rem, n as int);
                }
                n
            },
            Decoder::D80(d) => {
                let ghost rem = src.remaining();
                let n = d.decode_buf(src, output);
                proof {
                    vstd::seq_lib::lemma_seq_skip_of_skip(src.spec_data(), old(src).spec_pos(), n as int);
                    assert(src.remaining() =~= rem.skip(n as int));
                    lemma_fmt80_stream_skip(rem, n as int);
                }
                n
            },
            Decoder::D160(d) => {
                let ghost rem = src.remaining();
                let n = d.decode_buf(src, output);
                proof {
                    vstd::seq_lib::lemma_seq_skip_of_skip(src.spec_data(), old(src).spec_pos(), 2 * n as int);
                    assert(src.remaining() =~= rem.skip(2 * n as int));
                    lemma_fmt160_stream_skip(rem, n as int);
                }
                n
            },
            Decoder::D212(d) => d.decode_buf(src, output),
            Decoder::D310(d) => d.decode_buf(src, output),
            Decoder::D311(d) => d.decode_buf(src, output),
        }
    }

    /// Whether this decoder decodes the null format.
    pub fn is_null_format(&self) -> (r: bool)
        ensures
            r == self.is_null(),
    {
        match self {
            Decoder::D0(_) => true,
            _ => false,
        }
    }

    /// Reset the decoder to its fresh state; the configured format and
    /// initial value are kept.
    pub fn reset(&mut self)
        ensures
            final(self).is_fresh(),
            final(self).spec_fmt() == old(self).spec_fmt(),
            final(self).spec_init() == old(self).spec_init(),
    {
        match self {
            Decoder::D0(d) => d.reset(),
            Decoder::D8(d) => d.reset(),
            Decoder::D16(d) => d.reset(),
            Decoder::D24(d) => d.reset(),
            Decoder::D32(d) => d.reset(),
            Decoder::D61(d) => d.reset(),
            Decoder::D80(d) => d.reset(),
            Decoder::D160(d) => d.reset(),
            Decoder::D212(d) => d.reset(),
            Decoder::D310(d) => d.reset(),
            Decoder::D311(d) => d.reset(),
        }
    }

    /// Bytes per sample, for the fixed-width formats.
    pub fn bytes_per_sample(&self) -> (r: Option<usize>)
        ensures
            r matches Some(b) ==> spec_bytes_per_sample(self.spec_fmt()) == Some(b as int),
            r is None <==> spec_bytes_per_sample(self.spec_fmt()) is None,
    {
        match self {
            Decoder::D0(d) => d.bytes_per_sample(),
            Decoder::D8(d) => d.bytes_per_sample(),
            Decoder::D16(d) => d.bytes_per_sample(),
            Decoder::D24(d) => d.bytes_per_sample(),
            Decoder::D32(d) => d.bytes_per_sample(),
            Decoder::D61(d) => d.bytes_per_sample(),
            Decoder::D80(d) => d.bytes_per_sample(),
            Decoder::D160(d) => d.bytes_per_sample(),
            Decoder::D212(d) => d.bytes_per_sample(),
            Decoder::D310(d) => d.bytes_per_sample(),
            Decoder::D311(d) => d.bytes_per_sample(),
        }
    }

    /// Bytes consumed by one frame of `num_signals` interleaved samples.
    pub fn bytes_per_frame(&self, num_signals: usize) -> (r: Option<usize>)
        requires
            num_signals <= 0x1000_0000,
        ensures
            r matches Some(b) ==> spec_bytes_per_frame(self.spec_fmt(), num_signals as int)
                == Some(b as int),
            r is None <==> spec_bytes_per_frame(self.spec_fmt(), num_signals as int) is None,
    {
        match self {
            Decoder::D0(d) => d.bytes_per_frame(num_signals),
            Decoder::D8(d) => d.bytes_per_frame(num_signals),
            Decoder::D16(d) => d.bytes_per_frame(num_signals),
            Decoder::D24(d) => d.bytes_per_frame(num_signals),
            Decoder::D32(d) => d.bytes_per_frame(num_signals),
            Decoder::D61(d) => d.bytes_per_frame(num_signals),
            Decoder::D80(d) => d.bytes_per_frame(num_signals),
            Decoder::D160(d) => d.bytes_per_frame(num_signals),
            Decoder::D212(d) => d.bytes_per_frame(num_signals),
            Decoder::D310(d) => d.bytes_per_frame(num_signals),
            Decoder::D311(d) => d.bytes_per_frame(num_signals),
        }
    }
}

/// Create a decoder for the given signal format.
///
/// Returns `Err(Error::UnsupportedSignalFormat(code))` exactly for the
/// formats that cannot be decoded (the FLAC-compressed ones).
pub fn get_decoder(format: SignalFormat, initial_value: Sample) -> (r: Result<Decoder, Error>)
    ensures
        match r {
            Ok(d) => spec_decodable(format) && d.spec_fmt() == format && d.is_fresh()
                && d.spec_init() == if format is Format8 {
                initial_value as int
            } else {
                0int
            },
            Err(e) => !spec_decodable(format) && (e matches Error::UnsupportedSignalFormat(c)
                && c == spec_format_code(format)),
        },
{
    Decoder::get_decoder(format, initial_value)
}

} // verus!
