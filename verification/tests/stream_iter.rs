use data_postprocessor::record::Record;
use data_postprocessor::stream::TrexDataFile;

fn bytes_of_pairs(pairs: &[(f64, f64)]) -> Vec<u8> {
    let mut bytes: Vec<u8> = Vec::new();
    for (t, a) in pairs {
        bytes.extend_from_slice(&t.to_le_bytes());
        bytes.extend_from_slice(&a.to_le_bytes());
    }
    bytes
}

#[test]
fn next_yields_records_in_order_then_none() {
    let bytes = bytes_of_pairs(&[(0.0, 0.5), (1.0, 1.5)]);
    let mut stream = TrexDataFile::new(bytes);
    let first = stream.next().expect("first record");
    assert_eq!(f64::from_bits(first.transmit_bits), 0.0);
    assert_eq!(f64::from_bits(first.arrival_bits), 0.5);
    let second = stream.next().expect("second record");
    assert_eq!(f64::from_bits(second.transmit_bits), 1.0);
    assert!(stream.next().is_none());
    assert!(stream.next().is_none());
}

#[test]
fn len_counts_down_as_records_are_read() {
    let bytes = bytes_of_pairs(&[(0.0, 0.1), (1.0, 1.1), (2.0, 2.1)]);
    let mut stream = TrexDataFile::new(bytes);
    assert_eq!(stream.len(), 3);
    stream.next();
    assert_eq!(stream.len(), 2);
    stream.next();
    stream.next();
    assert_eq!(stream.len(), 0);
}

#[test]
fn reset_reiterates_identical_sequence() {
    let bytes = bytes_of_pairs(&[(0.0, 0.25), (1.0, 1.75), (2.0, 2.125)]);
    let mut stream = TrexDataFile::new(bytes);
    let first_pass: Vec<Record> = stream.read_all();
    stream.reset();
    let second_pass: Vec<Record> = stream.read_all();
    assert_eq!(first_pass, second_pass);
    assert_eq!(first_pass.len(), 3);
}

#[test]
fn reset_mid_stream_restarts_from_record_zero() {
    let bytes = bytes_of_pairs(&[(0.0, 0.25), (1.0, 1.75), (2.0, 2.125)]);
    let mut stream = TrexDataFile::new(bytes.clone());
    let full: Vec<Record> = TrexDataFile::new(bytes).read_all();
    stream.next();
    stream.next();
    stream.reset();
    assert_eq!(stream.len(), 3);
    assert_eq!(stream.read_all(), full);
}

#[test]
fn get_last_point_reads_final_record_without_moving_cursor() {
    let bytes = bytes_of_pairs(&[(0.0, 0.25), (7.5, 7.75)]);
    let mut stream = TrexDataFile::new(bytes);
    let last = stream.get_last_point().expect("last point");
    assert_eq!(f64::from_bits(last.transmit_bits), 7.5);
    assert_eq!(f64::from_bits(last.arrival_bits), 7.75);
    let first = stream.next().expect("first record still there");
    assert_eq!(f64::from_bits(first.transmit_bits), 0.0);
}

#[test]
fn get_last_point_is_none_under_sixteen_bytes() {
    let stream = TrexDataFile::new(vec![1u8, 2, 3]);
    assert!(stream.get_last_point().is_none());
    let empty = TrexDataFile::new(Vec::new());
    assert!(empty.get_last_point().is_none());
}

#[test]
fn empty_file_yields_no_records() {
    let mut stream = TrexDataFile::new(Vec::new());
    assert_eq!(stream.total_records(), 0);
    assert_eq!(stream.len(), 0);
    assert!(stream.next().is_none());
}
