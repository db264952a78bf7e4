//! Records and readers over in-memory files, including the end-to-end
//! decode scenarios.

use wfdb::header::Decimal;
use wfdb::{Error, FileStore, Header, Record, INVALID_SAMPLE};

fn record_from(header_text: &str, files: &[(&str, &[u8])]) -> Record {
    let header = Header::from_text(header_text).unwrap();
    let mut store = FileStore::new();
    for (name, data) in files {
        store.add_file((*name).to_string(), data.to_vec());
    }
    Record::from_header(header, store)
}

#[test]
fn test_record_open_from_memory() {
    let header_text = "100 2 360 650000\n\
                      100.dat 212 200 11 1024 995 -22131 0 MLII\n\
                      100.dat 212 200 11 1024 1011 20052 0 V5\n";

    let record = record_from(header_text, &[]);

    assert_eq!(record.metadata().name(), "100");
    assert!(!record.is_multi_segment());
    assert_eq!(record.signal_count(), 2);
    assert_eq!(record.segment_count(), 0);

    let signals = record.signal_info().unwrap();
    assert_eq!(signals[0].file_name, "100.dat");
    assert_eq!(signals[0].description, Some("MLII".to_string()));
    assert_eq!(signals[1].description, Some("V5".to_string()));
}

#[test]
fn test_record_multi_segment() {
    let header_text = "multi/3 2 360 45000\n\
                      100s 21600\n\
                      ~ 1800\n\
                      100s 21600\n";

    let record = record_from(header_text, &[]);

    assert!(record.is_multi_segment());
    assert_eq!(record.segment_count(), 3);
    assert_eq!(record.signal_count(), 0);

    let segments = record.segment_info().unwrap();
    assert_eq!(segments[0].record_name, "100s");
    assert_eq!(segments[0].num_samples, 21600);
    assert_eq!(segments[1].record_name, "~");
    assert_eq!(segments[1].num_samples, 1800);
    assert_eq!(segments[2].record_name, "100s");
}

#[test]
fn test_record_accessors() {
    let header_text = "test 1 250 1000\n\
                      test.dat 16 200 12 0 0 0 0 ECG\n";

    let record = record_from(header_text, &[]);

    assert_eq!(record.metadata().name(), "test");
    assert_eq!(record.metadata().sampling_frequency(), Decimal::new(250, 0));
    assert_eq!(record.metadata().num_samples, Some(1000));

    let signals = record.signal_info().unwrap();
    assert_eq!(signals.len(), 1);
    assert_eq!(signals[0].file_name, "test.dat");
}

#[test]
fn test_read_format_16() {
    // Two interleaved format-16 signals.
    let header_content = "test16 2 100 10\n\
                          test16.dat 16 200 0 0 0 0 0 sig1\n\
                          test16.dat 16 200 0 0 0 0 0 sig2";
    let data: [u8; 8] = [10, 0, 20, 0, 246, 255, 236, 255];

    let record = record_from(header_content, &[("test16.dat", &data)]);
    let mut reader = record.multi_signal_reader().unwrap();

    let frame0 = reader.read_frame().unwrap();
    assert_eq!(frame0.len(), 2);
    assert_eq!(frame0[0], 10);
    assert_eq!(frame0[1], 20);

    let frame1 = reader.read_frame().unwrap();
    assert_eq!(frame1.len(), 2);
    assert_eq!(frame1[0], -10);
    assert_eq!(frame1[1], -20);

    // End of stream: the empty frame.
    assert!(reader.read_frame().unwrap().is_empty());
}

#[test]
fn test_read_format_212() {
    // Two interleaved format-212 signals: frame 0 is (10, 20), frame 1 is
    // (-10, -20).
    let header_content = "test212 2 100 10\n\
                          test212.dat 212 200 0 0 0 0 0 sig1\n\
                          test212.dat 212 200 0 0 0 0 0 sig2";
    let data: [u8; 6] = [10, 0, 20, 246, 255, 236];

    let record = record_from(header_content, &[("test212.dat", &data)]);
    let mut reader = record.multi_signal_reader().unwrap();

    let frame0 = reader.read_frame().unwrap();
    assert_eq!(frame0[0], 10);
    assert_eq!(frame0[1], 20);

    let frame1 = reader.read_frame().unwrap();
    assert_eq!(frame1[0], -10);
    assert_eq!(frame1[1], -20);

    assert!(reader.read_frame().unwrap().is_empty());
}

#[test]
fn test_single_channel_format16_sequential() {
    // Header `test 1 100 3` with one format-16 signal; the data decodes to
    // [1, -1, 100].
    let header_content = "test 1 100 3\n\
                          test.dat 16 200";
    let data: [u8; 6] = [0x01, 0x00, 0xFF, 0xFF, 0x64, 0x00];

    let record = record_from(header_content, &[("test.dat", &data)]);
    let mut reader = record.signal_reader(0).unwrap();

    let samples = reader.read_samples(10).unwrap();
    assert_eq!(samples, vec![1, -1, 100]);
}

#[test]
fn test_seek_round_trip_single_channel() {
    // Seeking to sample 2 and reading one sample returns exactly the third
    // sample of the sequential decode.
    let header_content = "test 1 100 3\n\
                          test.dat 16 200";
    let data: [u8; 6] = [0x01, 0x00, 0xFF, 0xFF, 0x64, 0x00];

    let record = record_from(header_content, &[("test.dat", &data)]);
    let mut reader = record.signal_reader(0).unwrap();
    let sequential = reader.read_samples(3).unwrap();

    let mut reader2 = record.signal_reader(0).unwrap();
    let pos = reader2.seek_to_sample(2).unwrap();
    assert_eq!(pos, 2);
    let after_seek = reader2.read_samples(1).unwrap();
    assert_eq!(after_seek, vec![100]);
    assert_eq!(after_seek[0], sequential[2]);
}

#[test]
fn test_seek_round_trip_frame_reader() {
    // Seek the frame reader to frame 1 and read: the same frame as the
    // second sequential frame.
    let header_content = "t 2 100 2\n\
                          t.dat 16 200\n\
                          t.dat 16 200";
    let data: [u8; 8] = [10, 0, 20, 0, 246, 255, 236, 255];

    let record = record_from(header_content, &[("t.dat", &data)]);
    let mut reader = record.multi_signal_reader().unwrap();
    let _frame0 = reader.read_frame().unwrap();
    let frame1 = reader.read_frame().unwrap();

    let mut reader2 = record.multi_signal_reader().unwrap();
    reader2.seek_to_frame(1).unwrap();
    let frame1_again = reader2.read_frame().unwrap();
    assert_eq!(frame1, frame1_again);
    assert_eq!(frame1_again, vec![-10, -20]);
}

#[test]
fn test_multi_segment_concatenation() {
    // Master header `m/2 1 100 5` with segments `s1 3` and `s2 2`: reading
    // five frames yields each child's samples in order, and seeking to
    // sample 3 lands in the second segment at offset 0.
    let master = "m/2 1 100 5\n\
                  s1 3\n\
                  s2 2\n";
    let s1_header = "s1 1 100 3\n\
                     s1.dat 16 200\n";
    let s2_header = "s2 1 100 2\n\
                     s2.dat 16 200\n";
    let s1_data: [u8; 6] = [0x01, 0x00, 0x02, 0x00, 0x03, 0x00];
    let s2_data: [u8; 4] = [0x04, 0x00, 0x05, 0x00];

    let header = Header::from_text(master).unwrap();
    let mut store = FileStore::new();
    store.add_header("s1".to_string(), s1_header.to_string());
    store.add_header("s2".to_string(), s2_header.to_string());
    store.add_file("s1.dat".to_string(), s1_data.to_vec());
    store.add_file("s2.dat".to_string(), s2_data.to_vec());
    let record = Record::from_header(header, store);

    let mut reader = record.segment_reader().unwrap();
    let mut all: Vec<i32> = Vec::new();
    loop {
        match reader.read_frame().unwrap() {
            Some(frame) => all.push(frame[0]),
            None => break,
        }
    }
    assert_eq!(all, vec![1, 2, 3, 4, 5]);

    let mut reader2 = record.segment_reader().unwrap();
    let pos = reader2.seek_to_sample(3).unwrap();
    assert_eq!(pos, 3);
    assert_eq!(reader2.current_segment(), 1);
    let frame = reader2.read_frame().unwrap().unwrap();
    assert_eq!(frame[0], 4);
}

#[test]
fn test_null_segment_skip() {
    // Master header with segments `s1 2`, `~ 1`, `s2 2`: reading into the
    // null segment surfaces an error; seeking past it lands in segment 2.
    let master = "m/3 1 100 5\n\
                  s1 2\n\
                  ~ 1\n\
                  s2 2\n";
    let s1_header = "s1 1 100 2\n\
                     s1.dat 16 200\n";
    let s2_header = "s2 1 100 2\n\
                     s2.dat 16 200\n";
    let s1_data: [u8; 4] = [0x01, 0x00, 0x02, 0x00];
    let s2_data: [u8; 4] = [0x04, 0x00, 0x05, 0x00];

    let header = Header::from_text(master).unwrap();
    let mut store = FileStore::new();
    store.add_header("s1".to_string(), s1_header.to_string());
    store.add_header("s2".to_string(), s2_header.to_string());
    store.add_file("s1.dat".to_string(), s1_data.to_vec());
    store.add_file("s2.dat".to_string(), s2_data.to_vec());
    let record = Record::from_header(header, store);

    let mut reader = record.segment_reader().unwrap();
    assert_eq!(reader.read_frame().unwrap().unwrap()[0], 1);
    assert_eq!(reader.read_frame().unwrap().unwrap()[0], 2);
    // The next read reaches the null segment: its data is unavailable.
    let result = reader.read_frame();
    assert!(matches!(result, Err(Error::InvalidHeader(_))));

    // Seeking past the null segment lands at segment 2, sample 0.
    let mut reader2 = record.segment_reader().unwrap();
    let pos = reader2.seek_to_sample(3).unwrap();
    assert_eq!(pos, 3);
    assert_eq!(reader2.current_segment(), 2);
    let frame = reader2.read_frame().unwrap().unwrap();
    assert_eq!(frame[0], 4);
}

#[test]
fn test_seek_into_null_segment_fails() {
    let master = "m/3 1 100 5\n\
                  s1 2\n\
                  ~ 1\n\
                  s2 2\n";
    let header = Header::from_text(master).unwrap();
    let store = FileStore::new();
    let record = Record::from_header(header, store);

    let mut reader = record.segment_reader().unwrap();
    // Sample 2 lies inside the null segment.
    let result = reader.seek_to_sample(2);
    assert!(matches!(result, Err(Error::InvalidHeader(_))));
}

#[test]
fn test_seek_beyond_record_end() {
    let master = "m/2 1 100 5\n\
                  s1 3\n\
                  s2 2\n";
    let header = Header::from_text(master).unwrap();
    let record = Record::from_header(header, FileStore::new());

    let mut reader = record.segment_reader().unwrap();
    let result = reader.seek_to_sample(5);
    assert!(matches!(result, Err(Error::InvalidHeader(_))));
}

#[test]
fn test_segment_reader_total_samples() {
    let master = "m/2 1 100 5\n\
                  s1 3\n\
                  s2 2\n";
    let header = Header::from_text(master).unwrap();
    let record = Record::from_header(header, FileStore::new());
    let reader = record.segment_reader().unwrap();
    assert_eq!(reader.total_samples(), 5);
    assert_eq!(reader.num_segments(), 2);
}

#[test]
fn test_signal_reader_missing_file() {
    let header_content = "test 1 100 3\n\
                          test.dat 16 200";
    let record = record_from(header_content, &[]);
    let result = record.signal_reader(0);
    assert!(matches!(result, Err(Error::InvalidPath(_))));
}

#[test]
fn test_signal_reader_unsupported_format() {
    // Format 508 is recognized by the header parser but cannot be decoded.
    let header_content = "test 1 100 3\n\
                          test.dat 508 200";
    let record = record_from(header_content, &[("test.dat", &[0u8; 4])]);
    let result = record.signal_reader(0);
    assert!(matches!(result, Err(Error::UnsupportedSignalFormat(508))));
}

#[test]
fn test_null_format_signal() {
    // A format-0 signal consumes nothing and yields only invalid samples.
    let header_content = "test 1 100 3\n\
                          test.dat 0 200";
    let record = record_from(header_content, &[("test.dat", &[])]);
    let mut reader = record.signal_reader(0).unwrap();
    let samples = reader.read_samples(4).unwrap();
    assert_eq!(samples.len(), 4);
    assert!(samples.iter().all(|&s| s == INVALID_SAMPLE));
}

#[test]
fn test_resolve_record_path_plain_name() {
    let (header, dir, name) = wfdb::resolve_record_path("data/100");
    assert_eq!(header, "data/100.hea");
    assert_eq!(dir, "data");
    assert_eq!(name, "100");
}

#[test]
fn test_resolve_record_path_hea_extension() {
    let (header, dir, name) = wfdb::resolve_record_path("data/100.hea");
    assert_eq!(header, "data/100.hea");
    assert_eq!(dir, "data");
    assert_eq!(name, "100");
}

#[test]
fn test_resolve_record_path_other_extension() {
    let (header, dir, name) = wfdb::resolve_record_path("data/100.dat");
    assert_eq!(header, "data/100.hea");
    assert_eq!(dir, "data");
    assert_eq!(name, "100");
}

#[test]
fn test_resolve_record_path_no_directory() {
    let (header, dir, name) = wfdb::resolve_record_path("100");
    assert_eq!(header, "100.hea");
    assert_eq!(dir, ".");
    assert_eq!(name, "100");
}

#[test]
fn test_error_messages_name_the_offending_value() {
    let e = Error::UnsupportedSignalFormat(999);
    assert!(e.message().contains("999"));
    let e = Error::InvalidHeader("Invalid format code: abc".to_string());
    assert!(e.message().contains("abc"));
}
