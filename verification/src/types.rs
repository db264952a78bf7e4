//! Shared scalar types: the signal format enumeration and its codes.

use vstd::prelude::*;

use crate::Error;

verus! {

/// The wire format of a waveform signal file.
///
/// A closed enumeration of the format codes that may appear in a header's
/// signal specification. The first eleven are decodable; the FLAC-compressed
/// variants are recognized by the header parser but cannot be decoded.
#[derive(Debug, Clone, Copy, PartialEq, Eq, Structural)]
pub enum SignalFormat {
    /// Null signal: nothing to read, every sample is invalid.
    Format0,
    /// First differences stored as signed 8-bit integers, accumulated from an
    /// initial value.
    Format8,
    /// 16-bit two's complement integers, little-endian.
    Format16,
    /// 24-bit two's complement integers, little-endian.
    Format24,
    /// 32-bit two's complement integers, little-endian.
    Format32,
    /// 16-bit two's complement integers, big-endian.
    Format61,
    /// 8-bit offset binary (unsigned 8-bit minus 128).
    Format80,
    /// 16-bit offset binary (unsigned 16-bit minus 32768, little-endian).
    Format160,
    /// Two 12-bit two's complement samples packed into three bytes.
    Format212,
    /// Three 10-bit two's complement samples packed into two 16-bit words.
    Format310,
    /// Three 10-bit two's complement samples packed into one 32-bit word.
    Format311,
    /// Signals compressed with FLAC, 8 bits per sample (format code 508).
    Flac8,
    /// Signals compressed with FLAC, 16 bits per sample (format code 516).
    Flac16,
    /// Signals compressed with FLAC, 24 bits per sample (format code 524).
    Flac24,
}

/// The format codes of the closed enumeration, as a spec-level map from code
/// to variant. `None` for every other integer.
pub open spec fn spec_format_from_code(code: u16) -> Option<SignalFormat> {
    if code == 0 {
        Some(SignalFormat::Format0)
    } else if code == 8 {
        Some(SignalFormat::Format8)
    } else if code == 16 {
        Some(SignalFormat::Format16)
    } else if code == 24 {
        Some(SignalFormat::Format24)
    } else if code == 32 {
        Some(SignalFormat::Format32)
    } else if code == 61 {
        Some(SignalFormat::Format61)
    } else if code == 80 {
        Some(SignalFormat::Format80)
    } else if code == 160 {
        Some(SignalFormat::Format160)
    } else if code == 212 {
        Some(SignalFormat::Format212)
    } else if code == 310 {
        Some(SignalFormat::Format310)
    } else if code == 311 {
        Some(SignalFormat::Format311)
    } else if code == 508 {
        Some(SignalFormat::Flac8)
    } else if code == 516 {
        Some(SignalFormat::Flac16)
    } else if code == 524 {
        Some(SignalFormat::Flac24)
    } else {
        None
    }
}

/// The integer code of each format variant.
pub open spec fn spec_format_code(f: SignalFormat) -> u16 {
    match f {
        SignalFormat::Format0 => 0,
        SignalFormat::Format8 => 8,
        SignalFormat::Format16 => 16,
        SignalFormat::Format24 => 24,
        SignalFormat::Format32 => 32,
        SignalFormat::Format61 => 61,
        SignalFormat::Format80 => 80,
        SignalFormat::Format160 => 160,
        SignalFormat::Format212 => 212,
        SignalFormat::Format310 => 310,
        SignalFormat::Format311 => 311,
        SignalFormat::Flac8 => 508,
        SignalFormat::Flac16 => 516,
        SignalFormat::Flac24 => 524,
    }
}

impl SignalFormat {
    /// Converts a format code to a `SignalFormat`.
    ///
    /// Returns `Err(Error::UnsupportedSignalFormat(code))` exactly when the
    /// code is not in the closed enumeration.
    pub fn from_code(format_code: u16) -> (r: Result<Self, Error>)
        ensures
            match r {
                Ok(f) => spec_format_from_code(format_code) == Some(f),
                Err(e) => spec_format_from_code(format_code) is None && (e matches
                    Error::UnsupportedSignalFormat(c) && c == format_code),
            },
    {
        match format_code {
            0u16 => Ok(Self::Format0),
            8u16 => Ok(Self::Format8),
            16u16 => Ok(Self::Format16),
            24u16 => Ok(Self::Format24),
            32u16 => Ok(Self::Format32),
            61u16 => Ok(Self::Format61),
            80u16 => Ok(Self::Format80),
            160u16 => Ok(Self::Format160),
            212u16 => Ok(Self::Format212),
            310u16 => Ok(Self::Format310),
            311u16 => Ok(Self::Format311),
            508u16 => Ok(Self::Flac8),
            516u16 => Ok(Self::Flac16),
            524u16 => Ok(Self::Flac24),
            _ => Err(Error::UnsupportedSignalFormat(format_code)),
        }
    }

    /// The format code of this variant.
    pub fn code(self) -> (r: u16)
        ensures
            r == spec_format_code(self),
            spec_format_from_code(r) == Some(self),
    {
        match self {
            Self::Format0 => 0,
            Self::Format8 => 8,
            Self::Format16 => 16,
            Self::Format24 => 24,
            Self::Format32 => 32,
            Self::Format61 => 61,
            Self::Format80 => 80,
            Self::Format160 => 160,
            Self::Format212 => 212,
            Self::Format310 => 310,
            Self::Format311 => 311,
            Self::Flac8 => 508,
            Self::Flac16 => 516,
            Self::Flac24 => 524,
        }
    }
}

} // verus!
