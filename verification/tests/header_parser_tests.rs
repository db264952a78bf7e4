//! Whole-header parsing from text.

use wfdb::header::Decimal;
use wfdb::{Error, Header};

#[test]
fn test_single_segment_record() {
    let header_text = "100 2 360 650000\n\
                      100.dat 212 200\n\
                      100.dat 212 200\n\
                      # Info string 1\n\
                      # Info string 2\n";

    let header = Header::from_text(header_text).unwrap();

    assert_eq!(header.metadata().name(), "100");
    assert_eq!(header.metadata().num_signals(), 2);
    assert!(!header.is_multi_segment());
    assert_eq!(header.signals().unwrap().len(), 2);
    assert!(header.segments().is_none());
    assert_eq!(header.info_strings().len(), 2);
    assert_eq!(header.info_strings()[0], " Info string 1");
    assert_eq!(header.info_strings()[1], " Info string 2");
}

#[test]
fn test_multi_segment_record() {
    let header_text = "multi/3 2 360 45000\n\
                      100s 21600\n\
                      null 1800\n\
                      100s 21600\n";

    let header = Header::from_text(header_text).unwrap();

    assert_eq!(header.metadata().name(), "multi");
    assert_eq!(header.metadata().num_signals(), 2);
    assert!(header.is_multi_segment());
    assert_eq!(header.num_segments(), Some(3));
    assert!(header.signals().is_none());
    assert_eq!(header.segments().unwrap().len(), 3);
    assert_eq!(header.info_strings().len(), 0);
}

#[test]
fn test_with_leading_comments() {
    let header_text = "# Comment 1\n\
                      # Comment 2\n\
                      100 2 360\n\
                      100.dat 212 200\n\
                      100.dat 212 200\n";

    let header = Header::from_text(header_text).unwrap();

    assert_eq!(header.metadata().name(), "100");
    assert_eq!(header.signals().unwrap().len(), 2);
}

#[test]
fn test_empty_lines_before_record() {
    let header_text = "\n\n100 2 360\n\
                      100.dat 212 200\n\
                      100.dat 212 200\n";

    let header = Header::from_text(header_text).unwrap();

    assert_eq!(header.metadata().name(), "100");
    assert_eq!(header.signals().unwrap().len(), 2);
}

#[test]
fn test_mixed_comments_and_empty_lines() {
    let header_text = "# Comment 1\n\
                      \n\
                      # Comment 2\n\
                      100 2 360\n\
                      100.dat 212 200\n\
                      100.dat 212 200\n";

    let header = Header::from_text(header_text).unwrap();

    assert_eq!(header.metadata().name(), "100");
}

#[test]
fn test_info_strings_without_leading_space() {
    let header_text = "100 2 360\n\
                      100.dat 212 200\n\
                      100.dat 212 200\n\
                      #Info1\n\
                      #Info2\n";

    let header = Header::from_text(header_text).unwrap();

    assert_eq!(header.info_strings().len(), 2);
    assert_eq!(header.info_strings()[0], "Info1");
    assert_eq!(header.info_strings()[1], "Info2");
}

#[test]
fn test_multiple_info_strings() {
    let header_text = "100 2 360\n\
                      100.dat 212 200\n\
                      100.dat 212 200\n\
                      # Line 1\n\
                      # Line 2\n\
                      # Line 3\n\
                      # Line 4\n";

    let header = Header::from_text(header_text).unwrap();

    assert_eq!(header.info_strings().len(), 4);
}

#[test]
fn test_no_info_strings() {
    let header_text = "100 2 360\n\
                      100.dat 212 200\n\
                      100.dat 212 200\n";

    let header = Header::from_text(header_text).unwrap();

    assert_eq!(header.info_strings().len(), 0);
}

#[test]
fn test_multi_segment_with_null_segment() {
    let header_text = "rec/3 2 360 45000\n\
                      seg1 21600\n\
                      ~ 1800\n\
                      seg2 21600\n";

    let header = Header::from_text(header_text).unwrap();

    assert!(header.is_multi_segment());
    let segments = header.segments().unwrap();
    assert_eq!(segments.len(), 3);
    assert_eq!(segments[0].record_name(), "seg1");
    assert_eq!(segments[1].record_name(), "~");
    assert!(segments[1].is_null_segment());
    assert_eq!(segments[2].record_name(), "seg2");
}

#[test]
fn test_multi_segment_single_segment() {
    let header_text = "rec/1 2 360 21600\n\
                      seg1 21600\n";

    let header = Header::from_text(header_text).unwrap();

    assert!(header.is_multi_segment());
    assert_eq!(header.num_segments(), Some(1));
    assert_eq!(header.segments().unwrap().len(), 1);
}

#[test]
fn test_missing_record_line() {
    let header_text = "# Only comments\n\
                      # No record line\n";

    let result = Header::from_text(header_text);

    assert!(result.is_err());
    if let Err(Error::InvalidHeader(msg)) = result {
        assert!(msg.contains("Missing record line"));
    } else {
        panic!("Expected InvalidHeader error");
    }
}

#[test]
fn test_insufficient_signal_specifications() {
    let header_text = "100 2 360\n\
                      100.dat 212 200\n";

    let result = Header::from_text(header_text);

    assert!(result.is_err());
    if let Err(Error::InvalidHeader(msg)) = result {
        assert!(msg.contains("Expected 2 signal specifications"));
    } else {
        panic!("Expected InvalidHeader error");
    }
}

#[test]
fn test_insufficient_segment_specifications() {
    let header_text = "multi/3 2 360\n\
                      100s 21600\n";

    let result = Header::from_text(header_text);

    assert!(result.is_err());
    if let Err(Error::InvalidHeader(msg)) = result {
        assert!(msg.contains("Expected 3 segment specifications"));
    } else {
        panic!("Expected InvalidHeader error");
    }
}

#[test]
fn test_empty_header() {
    let result = Header::from_text("");
    assert!(result.is_err());
}

#[test]
fn header_parser_test_only_whitespace() {
    let result = Header::from_text("   \n\t\n   ");
    assert!(result.is_err());
}

#[test]
fn test_metadata_accessor() {
    let header_text = "100 2 360 650000\n\
                      100.dat 212 200\n\
                      100.dat 212 200\n";

    let header = Header::from_text(header_text).unwrap();

    let metadata = header.metadata();
    assert_eq!(metadata.name(), "100");
    assert_eq!(metadata.num_signals(), 2);
    assert_eq!(metadata.sampling_frequency(), Decimal::new(360, 0));
}

#[test]
fn header_parser_test_num_signals_accessor() {
    let header_text = "100 3 360\n\
                      100.dat 212 200\n\
                      100.dat 212 200\n\
                      100.dat 212 200\n";

    let header = Header::from_text(header_text).unwrap();

    assert_eq!(header.num_signals(), 3);
}

#[test]
fn test_mit_bih_style_header() {
    let header_text = "100 2 360 650000\n\
                      100.dat 212 200 11 1024 995 -22131 0 MLII\n\
                      100.dat 212 200 11 1024 1011 20052 0 V5\n\
                      # 69 M 1085 1629 x1\n\
                      # Aldomet, Inderal\n";

    let header = Header::from_text(header_text).unwrap();

    assert_eq!(header.metadata().name(), "100");
    assert_eq!(header.num_signals(), 2);
    assert!(!header.is_multi_segment());

    let signals = header.signals().unwrap();
    assert_eq!(signals[0].description(), Some("MLII"));
    assert_eq!(signals[1].description(), Some("V5"));

    assert_eq!(header.info_strings().len(), 2);
}

#[test]
fn test_aha_db_style_header() {
    // The checksum 64257 does not fit the signed 16-bit checksum field,
    // so the first signal line is rejected.
    let header_text = "7001 2 250 525000\n\
                      data0 8 100 10 0 -53 64257 0 ECG signal 0\n\
                      data1 8 100 10 0 -69 15626 0 ECG signal 1\n";

    let result = Header::from_text(header_text);
    assert!(matches!(result, Err(Error::InvalidHeader(_))));
}

#[test]
fn test_carriage_return_line_endings() {
    let header_text = "100 2 360\r\n100.dat 212 200\r\n100.dat 212 200\r\n";

    let header = Header::from_text(header_text).unwrap();

    assert_eq!(header.metadata().name(), "100");
    assert_eq!(header.signals().unwrap().len(), 2);
}

#[test]
fn test_mixed_line_endings() {
    let header_text = "100 2 360\r\n100.dat 212 200\n100.dat 212 200\r\n";

    let header = Header::from_text(header_text).unwrap();

    assert_eq!(header.metadata().name(), "100");
    assert_eq!(header.signals().unwrap().len(), 2);
}

#[test]
fn test_parse_simple_header() {
    // A simple two-signal header; each signal line fills every numeric slot
    // (gain, resolution, zero, initial value, checksum, block size) before
    // the description.
    let header_content = "100 2 360 650000 12:00:00 01/01/2000\n\
100.dat 212 200 11 1024 995 0 0 MLII\n\
100.dat 212 200 11 1024 995 0 0 V5";

    let header = Header::from_text(header_content).unwrap();

    assert_eq!(header.metadata.name, "100");
    assert_eq!(header.metadata.num_signals, 2);
    assert_eq!(header.metadata.sampling_frequency, Some(Decimal::new(360, 0)));
    assert_eq!(header.metadata.num_samples, Some(650000));
    assert_eq!(header.metadata.base_time, wfdb::header::BaseTime::new(12, 0, 0));
    assert_eq!(header.metadata.base_date, wfdb::header::BaseDate::new(2000, 1, 1));

    let signals = header.signals().unwrap();
    assert_eq!(signals.len(), 2);

    let sig0 = &signals[0];
    assert_eq!(sig0.file_name, "100.dat");
    assert_eq!(sig0.format, wfdb::SignalFormat::Format212);
    assert_eq!(sig0.adc_gain, Some(Decimal::new(200, 0)));
    assert_eq!(sig0.adc_resolution, Some(11));
    assert_eq!(sig0.adc_zero, Some(1024));
    assert_eq!(sig0.initial_value, Some(995));
    assert_eq!(sig0.checksum, Some(0));
    assert_eq!(sig0.description, Some("MLII".to_string()));
}

#[test]
fn test_parse_multi_segment_header() {
    let header_content = "multi/2 2 360 650000\n\
100s 21600\n\
null 21600";

    let header = Header::from_text(header_content).unwrap();

    assert_eq!(header.metadata.name, "multi");
    assert!(header.segments().is_some());

    let segments = header.segments().unwrap();
    assert_eq!(segments.len(), 2);
    assert_eq!(segments[0].record_name, "100s");
    assert_eq!(segments[0].num_samples, 21600);
    assert_eq!(segments[1].record_name, "null");
    assert_eq!(segments[1].num_samples, 21600);
}

#[test]
fn test_parse_complex_header() {
    // A twelve-lead header; the checksums are 16-bit signed values.
    let header_content = "100 12 100 1000\n\
100.dat 16 1000.0(0)/mV 16 0 -119 1508 0 I\n\
100.dat 16 1000.0(0)/mV 16 0 -55 723 0 II\n\
100.dat 16 1000.0(0)/mV 16 0 64 -778 0 III\n\
100.dat 16 1000.0(0)/mV 16 0 86 -1113 0 AVR\n\
100.dat 16 1000.0(0)/mV 16 0 -91 1211 0 AVL\n\
100.dat 16 1000.0(0)/mV 16 0 4 7 0 AVF\n\
100.dat 16 1000.0(0)/mV 16 0 -69 -1709 0 V1\n\
100.dat 16 1000.0(0)/mV 16 0 -31 6999 0 V2\n\
100.dat 16 1000.0(0)/mV 16 0 0 -1777 0 V3\n\
100.dat 16 1000.0(0)/mV 16 0 -26 -4089 0 V4\n\
100.dat 16 1000.0(0)/mV 16 0 -39 -557 0 V5\n\
100.dat 16 1000.0(0)/mV 16 0 -79 832 0 V6";

    let header = Header::from_text(header_content).unwrap();

    assert_eq!(header.metadata.name, "100");
    assert_eq!(header.metadata.num_signals, 12);
    assert_eq!(header.metadata.sampling_frequency, Some(Decimal::new(100, 0)));
    assert_eq!(header.metadata.num_samples, Some(1000));

    let signals = header.signals().unwrap();
    assert_eq!(signals.len(), 12);

    let sig0 = &signals[0];
    assert_eq!(sig0.file_name, "100.dat");
    assert_eq!(sig0.format, wfdb::SignalFormat::Format16);
    assert_eq!(sig0.adc_gain, Some(Decimal::new(1000, 0)));
    assert_eq!(sig0.baseline, Some(0));
    assert_eq!(sig0.units, Some("mV".to_string()));
    assert_eq!(sig0.adc_resolution, Some(16));
    assert_eq!(sig0.adc_zero, Some(0));
    assert_eq!(sig0.initial_value, Some(-119));
    assert_eq!(sig0.checksum, Some(1508));
    assert_eq!(sig0.block_size, Some(0));
    assert_eq!(sig0.description, Some("I".to_string()));

    let sig6 = &signals[6];
    assert_eq!(sig6.description, Some("V1".to_string()));
    assert_eq!(sig6.initial_value, Some(-69));
    assert_eq!(sig6.checksum, Some(-1709));
}
