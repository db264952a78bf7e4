//! Error taxonomy shared by the header parser, the decoders and the readers.

use vstd::prelude::*;

verus! {

/// Errors that may arise while working with waveform database records.
#[derive(Debug)]
pub enum Error {
    /// The header names a signal format code that the decoder does not
    /// implement. Carries the offending format code.
    UnsupportedSignalFormat(u16),
    /// An annotation code outside the valid range was encountered.
    /// Carries the invalid code. (The annotation subsystem is a separate,
    /// loosely coupled collaborator; the variant is part of the shared
    /// taxonomy.)
    InvalidAnnotationCode(u8),
    /// An unsupported annotation format was requested.
    UnsupportedAnnotationFormat(String),
    /// An invalid file or path was encountered.
    InvalidPath(String),
    /// An I/O failure, described in text.
    Io(String),
    /// A malformed record, signal or segment line, or other header defect.
    InvalidHeader(String),
}

impl Error {
    /// A human-readable description of the error, naming the offending value.
    pub fn message(&self) -> String {
        match self {
            Error::UnsupportedSignalFormat(code) => {
                let mut m = String::from_str("Unsupported signal format: ");
                m.append(code.to_string().as_str());
                m
            },
            Error::InvalidAnnotationCode(code) => {
                let mut m = String::from_str("Invalid annotation code: ");
                m.append(code.to_string().as_str());
                m
            },
            Error::UnsupportedAnnotationFormat(s) => {
                let mut m = String::from_str("Unsupported annotation format: ");
                m.append(s.as_str());
                m
            },
            Error::InvalidPath(s) => {
                let mut m = String::from_str("Invalid path: ");
                m.append(s.as_str());
                m
            },
            Error::Io(s) => {
                let mut m = String::from_str("I/O error: ");
                m.append(s.as_str());
                m
            },
            Error::InvalidHeader(s) => {
                let mut m = String::from_str("Invalid header: ");
                m.append(s.as_str());
                m
            },
        }
    }
}

} // verus!
