//! Signal decoding: one decoder per wire format, over in-memory bytes.
//!
//! Each decoder consumes bytes from a [`ByteCursor`] and produces `Sample`
//! values. The meaning of every decoder is pinned down by a spec function
//! giving the full sample stream a byte sequence decodes to; `decode_buf`
//! consumes a prefix of that stream.

mod common;
mod format8;
mod format212;
mod format310;
mod format311;
mod decoder;
mod format0;
mod format16;
mod format160;
mod format24;
mod format32;
mod format61;
mod format80;

pub use decoder::{Decoder, decode_stream, get_decoder, lemma_fmt16_stream_skip, lemma_fmt160_stream_skip, lemma_fmt24_stream_skip, lemma_fmt32_stream_skip, lemma_fmt61_stream_skip, lemma_fmt80_stream_skip, spec_bytes_per_frame, spec_bytes_per_sample, spec_decodable};
pub use common::{spec_invalid, ByteCursor, DecoderConfig, sign_extend, spec_sign_extend, spec_saturating_add};
pub use format0::Format0Decoder;
pub use format8::{Format8Decoder, fmt8_diff, fmt8_future, lemma_fmt8_future_len};
pub use format212::{Format212Decoder, fmt212_count, fmt212_first, fmt212_future, fmt212_second, lemma_fmt212_future_len};
pub use format310::{Format310Decoder, fmt310_count_from, fmt310_future, fmt310_third_sample, fmt310_word_sample, le16, lemma_fmt310_count_closed, lemma_fmt310_future_len};
pub use format311::{Format311Decoder, fmt311_count_from, fmt311_field, fmt311_future, le32, lemma_fmt311_count_closed, lemma_fmt311_future_len};
pub use format16::{Format16Decoder, fmt16_sample, fmt16_stream, fmt16_value};
pub use format160::{Format160Decoder, fmt160_sample, fmt160_stream, fmt160_value};
pub use format24::{Format24Decoder, fmt24_sample, fmt24_stream, fmt24_value};
pub use format32::{Format32Decoder, fmt32_sample, fmt32_stream};
pub use format61::{Format61Decoder, fmt61_sample, fmt61_stream, fmt61_value};
pub use format80::{Format80Decoder, fmt80_sample, fmt80_stream, fmt80_value};

pub use crate::INVALID_SAMPLE;
