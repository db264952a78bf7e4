//! Header parsing: tokenize record, signal and segment lines and produce the
//! typed metadata they carry.

pub mod common;
pub mod decimal;
pub mod metadata;
pub mod timedate;
pub mod segment_info;
pub mod signal_info;
pub mod text;
pub use segment_info::{SegmentInfo, spec_segment_line, spec_valid_segment_name};
pub use common::{Header, Specifications};
pub use decimal::Decimal;
pub use metadata::Metadata;
pub use signal_info::SignalInfo;
pub use timedate::{BaseDate, BaseTime};
