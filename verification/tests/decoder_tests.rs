//! Signal format decoders over in-memory bytes.

use wfdb::signal::{
    ByteCursor, Format0Decoder, Format160Decoder, Format16Decoder, Format212Decoder,
    Format24Decoder, Format310Decoder, Format311Decoder, Format32Decoder, Format61Decoder,
    Format80Decoder, Format8Decoder, sign_extend,
};
use wfdb::INVALID_SAMPLE;

#[test]
fn test_sign_extend_12bit() {
    assert_eq!(sign_extend(0x000, 12), 0);
    assert_eq!(sign_extend(0x7FF, 12), 2047);
    assert_eq!(sign_extend(0x001, 12), 1);
    assert_eq!(sign_extend(0x800, 12), -2048);
    assert_eq!(sign_extend(0xFFF, 12), -1);
    assert_eq!(sign_extend(0xFFE, 12), -2);
}

#[test]
fn test_sign_extend_10bit() {
    assert_eq!(sign_extend(0x000, 10), 0);
    assert_eq!(sign_extend(0x1FF, 10), 511);
    assert_eq!(sign_extend(0x200, 10), -512);
    assert_eq!(sign_extend(0x3FF, 10), -1);
}

#[test]
fn test_sign_extend_8bit() {
    assert_eq!(sign_extend(0x00, 8), 0);
    assert_eq!(sign_extend(0x7F, 8), 127);
    assert_eq!(sign_extend(0x80, 8), -128);
    assert_eq!(sign_extend(0xFF, 8), -1);
}

#[test]
fn test_format0_decoder() {
    let data: Vec<u8> = vec![];
    let mut reader = ByteCursor::new(data);
    let mut decoder = Format0Decoder::new();

    let mut samples = vec![0; 100];
    let n = decoder.decode_buf(&mut reader, &mut samples);

    assert_eq!(n, 100);
    assert!(samples.iter().all(|&s| s == INVALID_SAMPLE));
}

#[test]
fn test_format16_decoder() {
    // Sample data: [1, -1, 100, -32768 (invalid)]
    let data: Vec<u8> = vec![0x01, 0x00, 0xFF, 0xFF, 0x64, 0x00, 0x00, 0x80];
    let mut reader = ByteCursor::new(data);
    let mut decoder = Format16Decoder::new();

    let mut samples = vec![0; 4];
    let n = decoder.decode_buf(&mut reader, &mut samples);

    assert_eq!(n, 4);
    assert_eq!(samples[0], 1);
    assert_eq!(samples[1], -1);
    assert_eq!(samples[2], 100);
    assert_eq!(samples[3], INVALID_SAMPLE);
}

#[test]
fn test_format16_decoder_partial() {
    // Only 3 bytes (incomplete sample)
    let data: Vec<u8> = vec![0x01, 0x00, 0xFF];
    let mut reader = ByteCursor::new(data);
    let mut decoder = Format16Decoder::new();

    let mut samples = vec![0; 4];
    let n = decoder.decode_buf(&mut reader, &mut samples);

    assert_eq!(n, 1);
    assert_eq!(samples[0], 1);
}

#[test]
fn test_format16_bytes_per_sample() {
    let decoder = Format16Decoder::new();
    assert_eq!(decoder.bytes_per_sample(), Some(2));
}

#[test]
fn test_format16_decode_ergonomic() {
    let data: Vec<u8> = vec![0x01, 0x00, 0xFF, 0xFF, 0x64, 0x00];
    let mut reader = ByteCursor::new(data);
    let mut decoder = Format16Decoder::new();

    let samples = decoder.decode(&mut reader, 3);

    assert_eq!(samples.len(), 3);
    assert_eq!(samples[0], 1);
    assert_eq!(samples[1], -1);
    assert_eq!(samples[2], 100);
}

#[test]
fn test_format16_samples_iterator() {
    // Sample-at-a-time reads through the buffer interface.
    let data: Vec<u8> = vec![0x00, 0x00, 0x01, 0x00, 0xFF, 0xFF, 0x00, 0x80, 0x10, 0x00];
    let mut reader = ByteCursor::new(data);
    let mut decoder = Format16Decoder::new();

    let mut first_three: Vec<i32> = Vec::new();
    for _ in 0..3 {
        let mut one = vec![0; 1];
        let n = decoder.decode_buf(&mut reader, &mut one);
        assert_eq!(n, 1);
        first_three.push(one[0]);
    }
    assert_eq!(first_three, vec![0, 1, -1]);

    let data: Vec<u8> = vec![0x00, 0x00, 0x01, 0x00, 0xFF, 0xFF, 0x10, 0x00];
    let mut reader = ByteCursor::new(data);
    let mut decoder = Format16Decoder::new();

    let mut positive: Vec<i32> = Vec::new();
    loop {
        let mut one = vec![0; 1];
        let n = decoder.decode_buf(&mut reader, &mut one);
        if n == 0 {
            break;
        }
        if one[0] > 0 {
            positive.push(one[0]);
        }
    }
    assert_eq!(positive, vec![1, 16]);
}

#[test]
fn test_format8_decoder() {
    // Initial value: 100; differences: +10, -5, +3 (251 = -5 as signed 8-bit)
    let data: Vec<u8> = vec![10, 251, 3];
    let mut reader = ByteCursor::new(data);
    let mut decoder = Format8Decoder::new(100);

    let mut samples = vec![0; 3];
    let n = decoder.decode_buf(&mut reader, &mut samples);

    assert_eq!(n, 3);
    assert_eq!(samples[0], 110);
    assert_eq!(samples[1], 105);
    assert_eq!(samples[2], 108);
}

#[test]
fn test_format8_saturation() {
    let data: Vec<u8> = vec![127, 127, 127];
    let mut reader = ByteCursor::new(data);
    let mut decoder = Format8Decoder::new(0);

    let mut samples = vec![0; 3];
    let n = decoder.decode_buf(&mut reader, &mut samples);

    assert_eq!(n, 3);
    assert_eq!(samples[0], 127);
    assert_eq!(samples[1], 254);
    assert_eq!(samples[2], 381);
}

#[test]
fn test_format8_reset() {
    let data: Vec<u8> = vec![10];
    let mut reader = ByteCursor::new(data);
    let mut decoder = Format8Decoder::new(100);

    let mut samples = vec![0; 1];
    decoder.decode_buf(&mut reader, &mut samples);
    assert_eq!(samples[0], 110);

    // Resetting restores the configured initial value, so decoding the same
    // bytes again replays the fresh decoder's output.
    decoder.reset();

    let data2: Vec<u8> = vec![10];
    let mut reader2 = ByteCursor::new(data2);
    let mut samples2 = vec![0; 1];
    decoder.decode_buf(&mut reader2, &mut samples2);
    assert_eq!(samples2[0], 110);
}

#[test]
fn test_format8_bytes_per_sample() {
    let decoder = Format8Decoder::new(0);
    assert_eq!(decoder.bytes_per_sample(), Some(1));
}

#[test]
fn test_format212_decoder() {
    // Sample 0: 0x001 (1), sample 1: 0xFFF (-1);
    // sample 0: 0x7FF (2047), sample 1: 0x000 (0).
    let data: Vec<u8> = vec![0x01, 0xF0, 0xFF, 0xFF, 0x07, 0x00];
    let mut reader = ByteCursor::new(data);
    let mut decoder = Format212Decoder::new();

    let mut samples = vec![0; 4];
    let n = decoder.decode_buf(&mut reader, &mut samples);

    assert_eq!(n, 4);
    assert_eq!(samples[0], 1);
    assert_eq!(samples[1], -1);
    assert_eq!(samples[2], 2047);
    assert_eq!(samples[3], 0);
}

#[test]
fn test_format212_invalid_marker() {
    // Sample 0: 0x800 (-2048, the invalid marker); sample 1: 0.
    let data: Vec<u8> = vec![0x00, 0x08, 0x00];
    let mut reader = ByteCursor::new(data);
    let mut decoder = Format212Decoder::new();

    let mut samples = vec![0; 2];
    let n = decoder.decode_buf(&mut reader, &mut samples);

    assert_eq!(n, 2);
    assert_eq!(samples[0], INVALID_SAMPLE);
    assert_eq!(samples[1], 0);
}

#[test]
fn test_format212_reset() {
    let data: Vec<u8> = vec![0x01, 0x00, 0x00];
    let mut reader = ByteCursor::new(data);
    let mut decoder = Format212Decoder::new();

    let mut samples = vec![0; 2];
    decoder.decode_buf(&mut reader, &mut samples);

    decoder.reset();

    let data2: Vec<u8> = vec![0x01, 0xF0, 0xFF];
    let mut reader2 = ByteCursor::new(data2);
    let mut samples2 = vec![0; 2];
    let n = decoder.decode_buf(&mut reader2, &mut samples2);
    assert_eq!(n, 2);
    assert_eq!(samples2[0], 1);
    assert_eq!(samples2[1], -1);
}

#[test]
fn test_format212_decode_ergonomic() {
    let data: Vec<u8> = vec![0x01, 0xF0, 0xFF];
    let mut reader = ByteCursor::new(data);
    let mut decoder = Format212Decoder::new();

    let samples = decoder.decode(&mut reader, 2);

    assert_eq!(samples.len(), 2);
    assert_eq!(samples[0], 1);
    assert_eq!(samples[1], -1);
}

#[test]
fn test_format310_reset() {
    let data: Vec<u8> = vec![0x02, 0x00, 0x00, 0x00];
    let mut reader = ByteCursor::new(data);
    let mut decoder = Format310Decoder::new();

    let mut samples = vec![0; 1];
    decoder.decode_buf(&mut reader, &mut samples);

    decoder.reset();

    let data2: Vec<u8> = vec![0x02, 0x00, 0x00, 0x00];
    let mut reader2 = ByteCursor::new(data2);
    let mut samples2 = vec![0; 1];
    let n = decoder.decode_buf(&mut reader2, &mut samples2);
    assert_eq!(n, 1);
}

#[test]
fn test_format311_decoder() {
    // Bits 0-9: 0x001, bits 10-19: 0x3FF, bits 20-29: 0x000.
    let data: Vec<u8> = vec![0x01, 0xFC, 0x0F, 0x00];
    let mut reader = ByteCursor::new(data);
    let mut decoder = Format311Decoder::new();

    let mut samples = vec![0; 3];
    let n = decoder.decode_buf(&mut reader, &mut samples);

    assert_eq!(n, 3);
    assert_eq!(samples[0], 1);
    assert_eq!(samples[1], -1);
    assert_eq!(samples[2], 0);
}

#[test]
fn test_format311_reset() {
    let data: Vec<u8> = vec![0x01, 0x00, 0x00, 0x00];
    let mut reader = ByteCursor::new(data);
    let mut decoder = Format311Decoder::new();

    let mut samples = vec![0; 1];
    decoder.decode_buf(&mut reader, &mut samples);

    decoder.reset();

    let data2: Vec<u8> = vec![0x01, 0xFC, 0x0F, 0x00];
    let mut reader2 = ByteCursor::new(data2);
    let mut samples2 = vec![0; 3];
    let n = decoder.decode_buf(&mut reader2, &mut samples2);
    assert_eq!(n, 3);
    assert_eq!(samples2[0], 1);
    assert_eq!(samples2[1], -1);
    assert_eq!(samples2[2], 0);
}

#[test]
fn test_format24_decoder_values() {
    // 1, -1, and the invalid marker -(1<<23).
    let data: Vec<u8> = vec![0x01, 0x00, 0x00, 0xFF, 0xFF, 0xFF, 0x00, 0x00, 0x80];
    let mut reader = ByteCursor::new(data);
    let mut decoder = Format24Decoder::new();

    let mut samples = vec![0; 3];
    let n = decoder.decode_buf(&mut reader, &mut samples);
    assert_eq!(n, 3);
    assert_eq!(samples[0], 1);
    assert_eq!(samples[1], -1);
    assert_eq!(samples[2], INVALID_SAMPLE);
    assert_eq!(decoder.bytes_per_sample(), Some(3));
}

#[test]
fn test_format32_decoder_values() {
    // 1, -2, and the invalid marker (the most negative 32-bit value).
    let data: Vec<u8> = vec![
        0x01, 0x00, 0x00, 0x00, 0xFE, 0xFF, 0xFF, 0xFF, 0x00, 0x00, 0x00, 0x80,
    ];
    let mut reader = ByteCursor::new(data);
    let mut decoder = Format32Decoder::new();

    let mut samples = vec![0; 3];
    let n = decoder.decode_buf(&mut reader, &mut samples);
    assert_eq!(n, 3);
    assert_eq!(samples[0], 1);
    assert_eq!(samples[1], -2);
    assert_eq!(samples[2], INVALID_SAMPLE);
    assert_eq!(decoder.bytes_per_sample(), Some(4));
}

#[test]
fn test_format61_decoder_values() {
    // Big-endian: 1, -1, invalid marker.
    let data: Vec<u8> = vec![0x00, 0x01, 0xFF, 0xFF, 0x80, 0x00];
    let mut reader = ByteCursor::new(data);
    let mut decoder = Format61Decoder::new();

    let mut samples = vec![0; 3];
    let n = decoder.decode_buf(&mut reader, &mut samples);
    assert_eq!(n, 3);
    assert_eq!(samples[0], 1);
    assert_eq!(samples[1], -1);
    assert_eq!(samples[2], INVALID_SAMPLE);
    assert_eq!(decoder.bytes_per_sample(), Some(2));
}

#[test]
fn test_format80_decoder_values() {
    // Offset binary: 128 -> 0, 129 -> 1, 127 -> -1, 0 -> invalid.
    let data: Vec<u8> = vec![128, 129, 127, 0];
    let mut reader = ByteCursor::new(data);
    let mut decoder = Format80Decoder::new();

    let mut samples = vec![0; 4];
    let n = decoder.decode_buf(&mut reader, &mut samples);
    assert_eq!(n, 4);
    assert_eq!(samples[0], 0);
    assert_eq!(samples[1], 1);
    assert_eq!(samples[2], -1);
    assert_eq!(samples[3], INVALID_SAMPLE);
    assert_eq!(decoder.bytes_per_sample(), Some(1));
}

#[test]
fn test_format160_decoder_values() {
    // Offset binary 16-bit: 0x8000 -> 0, 0x8001 -> 1, 0x7FFF -> -1,
    // 0x0000 -> invalid.
    let data: Vec<u8> = vec![0x00, 0x80, 0x01, 0x80, 0xFF, 0x7F, 0x00, 0x00];
    let mut reader = ByteCursor::new(data);
    let mut decoder = Format160Decoder::new();

    let mut samples = vec![0; 4];
    let n = decoder.decode_buf(&mut reader, &mut samples);
    assert_eq!(n, 4);
    assert_eq!(samples[0], 0);
    assert_eq!(samples[1], 1);
    assert_eq!(samples[2], -1);
    assert_eq!(samples[3], INVALID_SAMPLE);
    assert_eq!(decoder.bytes_per_sample(), Some(2));
}

#[test]
fn test_format310_decoder_values() {
    // Word 0 = 0x0004 (sample 0 = 2), word 1 = 0x0006 (sample 1 = 3),
    // sample 2 from the top five bits of each word = 0.
    let data: Vec<u8> = vec![0x04, 0x00, 0x06, 0x00];
    let mut reader = ByteCursor::new(data);
    let mut decoder = Format310Decoder::new();

    let mut samples = vec![0; 3];
    let n = decoder.decode_buf(&mut reader, &mut samples);
    assert_eq!(n, 3);
    assert_eq!(samples[0], 2);
    assert_eq!(samples[1], 3);
    assert_eq!(samples[2], 0);
    assert_eq!(decoder.bytes_per_sample(), None);
    assert_eq!(decoder.bytes_per_frame(3), Some(4));
}

#[test]
fn test_fixed_width_byte_budget_sample_count() {
    // b * k bytes yield exactly k samples; fewer yield the floor.
    let data: Vec<u8> = vec![0; 10];
    let mut reader = ByteCursor::new(data);
    let mut decoder = Format16Decoder::new();
    let mut samples = vec![0; 100];
    assert_eq!(decoder.decode_buf(&mut reader, &mut samples), 5);

    let data: Vec<u8> = vec![0; 11];
    let mut reader = ByteCursor::new(data);
    let mut samples = vec![0; 100];
    assert_eq!(decoder.decode_buf(&mut reader, &mut samples), 5);
}

#[test]
fn test_format212_byte_budget_sample_count() {
    // 3 * k bytes yield exactly 2 * k samples.
    let data: Vec<u8> = vec![0x11; 9];
    let mut reader = ByteCursor::new(data);
    let mut decoder = Format212Decoder::new();
    let mut samples = vec![0; 100];
    assert_eq!(decoder.decode_buf(&mut reader, &mut samples), 6);
}

#[test]
fn test_format310_byte_budget_sample_count() {
    // 4 * k bytes yield exactly 3 * k samples.
    let data: Vec<u8> = vec![0x11; 12];
    let mut reader = ByteCursor::new(data);
    let mut decoder = Format310Decoder::new();
    let mut samples = vec![0; 100];
    assert_eq!(decoder.decode_buf(&mut reader, &mut samples), 9);
}

#[test]
fn test_format311_byte_budget_sample_count() {
    // 4 * k bytes yield exactly 3 * k samples.
    let data: Vec<u8> = vec![0x11; 12];
    let mut reader = ByteCursor::new(data);
    let mut decoder = Format311Decoder::new();
    let mut samples = vec![0; 100];
    assert_eq!(decoder.decode_buf(&mut reader, &mut samples), 9);
}
