use data_postprocessor::record::{decode_record_at, decode_record_at_offset, encode_record, Record};
use data_postprocessor::stream::TrexDataFile;

fn record_of(transmit: f64, arrival: f64) -> Record {
    Record { transmit_bits: transmit.to_bits(), arrival_bits: arrival.to_bits() }
}

fn bytes_of_pairs(pairs: &[(f64, f64)]) -> Vec<u8> {
    let mut bytes: Vec<u8> = Vec::new();
    for (t, a) in pairs {
        bytes.extend_from_slice(&t.to_le_bytes());
        bytes.extend_from_slice(&a.to_le_bytes());
    }
    bytes
}

#[test]
fn encode_record_matches_le_bytes() {
    let r = record_of(1.25, 1.75);
    let out = encode_record(&r);
    let mut expect: Vec<u8> = Vec::new();
    expect.extend_from_slice(&1.25f64.to_le_bytes());
    expect.extend_from_slice(&1.75f64.to_le_bytes());
    assert_eq!(out, expect);
    assert_eq!(out.len(), 16);
}

#[test]
fn decode_reads_little_endian_doubles() {
    let bytes = bytes_of_pairs(&[(0.5, 0.625), (-3.0, 1e-9)]);
    let first = decode_record_at(&bytes, 0);
    let second = decode_record_at(&bytes, 1);
    assert_eq!(f64::from_bits(first.transmit_bits), 0.5);
    assert_eq!(f64::from_bits(first.arrival_bits), 0.625);
    assert_eq!(f64::from_bits(second.transmit_bits), -3.0);
    assert_eq!(f64::from_bits(second.arrival_bits), 1e-9);
}

#[test]
fn round_trip_preserves_records_in_order() {
    let pairs: [(f64, f64); 4] = [(0.0, 0.001), (1.0, 1.0005), (2.0, 2.25), (3.5, 3.5)];
    let originals: Vec<Record> = pairs.iter().map(|(t, a)| record_of(*t, *a)).collect();
    let mut bytes: Vec<u8> = Vec::new();
    for r in &originals {
        bytes.extend_from_slice(&encode_record(r));
    }
    let mut stream = TrexDataFile::new(bytes);
    assert_eq!(stream.total_records(), 4);
    let decoded = stream.read_all();
    assert_eq!(decoded, originals);
}

#[test]
fn trailing_partial_record_is_dropped() {
    let pairs: [(f64, f64); 3] = [(0.0, 0.1), (1.0, 1.1), (2.0, 2.1)];
    let clean = bytes_of_pairs(&pairs);
    for extra_len in 1usize..16 {
        let mut padded = clean.clone();
        for k in 0..extra_len {
            padded.push(0xA5u8.wrapping_add(k as u8));
        }
        let mut s1 = TrexDataFile::new(clean.clone());
        let mut s2 = TrexDataFile::new(padded);
        assert_eq!(s2.total_records(), 3);
        assert_eq!(s1.read_all(), s2.read_all());
    }
}

#[test]
fn decode_at_offset_reads_any_alignment() {
    let bytes: Vec<u8> = (0u8..40).collect();
    let r = decode_record_at_offset(&bytes, 3);
    let mut t_bytes = [0u8; 8];
    let mut a_bytes = [0u8; 8];
    t_bytes.copy_from_slice(&bytes[3..11]);
    a_bytes.copy_from_slice(&bytes[11..19]);
    assert_eq!(r.transmit_bits, u64::from_le_bytes(t_bytes));
    assert_eq!(r.arrival_bits, u64::from_le_bytes(a_bytes));
}
