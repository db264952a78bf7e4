//! Decoder for the PhysioNet Waveform Database (WFDB) record format: an ASCII
//! header paired with one or more binary signal files.
//!
//! The crate parses `.hea` headers into typed metadata, decodes the binary
//! signal formats (packed 10/12-bit two's complement, stateful differential,
//! several endiannesses, offset binary, 24-bit integers), de-interleaves
//! multi-signal files, and coordinates multi-segment records over a unified
//! sample timeline. All decoding works over in-memory bytes; file access is
//! left to the caller.

use vstd::prelude::*;

mod error;
mod types;

pub mod header;
pub mod laws;
pub mod record;
pub mod signal;

pub use error::Error;
pub use header::{Header, Metadata, SegmentInfo, SignalInfo};
pub use record::{FileStore, MultiSignalReader, Record, SegmentManager, SegmentReader,
    SignalReader, resolve_record_path};
pub use types::{SignalFormat, spec_format_code, spec_format_from_code};

verus! {

/// A decoded sample value. Signed, 32 bits: wide enough for every supported
/// wire format.
pub type Sample = i32;

/// Sentinel for a missing or invalid sample: the most negative `Sample`.
pub const INVALID_SAMPLE: Sample = -2147483648;

} // verus!
