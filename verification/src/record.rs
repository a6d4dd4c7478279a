//! The on-disk record format: 16-byte little-endian double pairs.
//!
//! A trace file is a flat byte sequence; every full 16-byte group is one
//! record, and a trailing partial group is ignored, never an error. The
//! library keeps each double as its raw `u64` bit pattern: any 8 bytes decode
//! to some double, so decoding cannot fail, and the bit patterns round-trip
//! exactly where floating-point values could not be spoken about at all.

use vstd::bytes::*;
use vstd::prelude::*;
use vstd::slice::slice_subrange;

verus! {

/// One transmit/arrival timestamp pair, as the raw bit patterns of the two
/// little-endian IEEE-754 doubles a trace file stores. The library never
/// interprets the bits; callers convert them to numeric time at the edge.
#[derive(Clone, Copy, Debug, PartialEq, Eq, Structural)]
pub struct Record {
    /// Bit pattern of the transmit timestamp (seconds since test start).
    pub transmit_bits: u64,
    /// Bit pattern of the arrival timestamp (seconds since test start).
    pub arrival_bits: u64,
}

/// The record a 16-byte group holds.
pub open spec fn spec_record_of_bytes(s: Seq<u8>) -> Record
    recommends
        s.len() == 16,
{
    Record {
        transmit_bits: spec_u64_from_le_bytes(s.subrange(0, 8)),
        arrival_bits: spec_u64_from_le_bytes(s.subrange(8, 16)),
    }
}

/// All records a byte sequence holds: consecutive 16-byte groups, any
/// trailing partial group dropped.
pub open spec fn spec_records_of_bytes(bytes: Seq<u8>) -> Seq<Record> {
    Seq::new(bytes.len() / 16, |i: int| spec_record_of_bytes(bytes.subrange(16 * i, 16 * i + 16)))
}

/// The 16 bytes that encode one record.
pub open spec fn spec_record_to_bytes(r: Record) -> Seq<u8> {
    spec_u64_to_le_bytes(r.transmit_bits) + spec_u64_to_le_bytes(r.arrival_bits)
}

/// The bytes that encode a record sequence, in order.
pub open spec fn spec_records_to_bytes(rs: Seq<Record>) -> Seq<u8>
    decreases rs.len(),
{
    if rs.len() == 0 {
        Seq::empty()
    } else {
        spec_record_to_bytes(rs.first()) + spec_records_to_bytes(rs.drop_first())
    }
}

/// Decode the record held in the 16 bytes starting at a byte offset.
pub fn decode_record_at_offset(bytes: &Vec<u8>, offset: usize) -> (r: Record)
    requires
        offset as int + 16 <= bytes@.len(),
    ensures
        r == spec_record_of_bytes(bytes@.subrange(offset as int, offset as int + 16)),
{
    let n: usize = bytes.len();
    proof {
        assert(offset as int + 16 <= n as int);
    }
    let t = u64_from_le_bytes(slice_subrange(bytes.as_slice(), offset, offset + 8));
    let a = u64_from_le_bytes(slice_subrange(bytes.as_slice(), offset + 8, offset + 16));
    proof {
        let o = offset as int;
        let whole = bytes@.subrange(o, o + 16);
        assert(bytes@.subrange(o, o + 8) =~= whole.subrange(0, 8));
        assert(bytes@.subrange(o + 8, o + 16) =~= whole.subrange(8, 16));
    }
    Record { transmit_bits: t, arrival_bits: a }
}

/// Decode the record at a record index (byte offset 16 * `index`).
pub fn decode_record_at(bytes: &Vec<u8>, index: usize) -> (r: Record)
    requires
        16 * (index as int) + 16 <= bytes@.len(),
    ensures
        r == spec_records_of_bytes(bytes@)[index as int],
{
    let n: usize = bytes.len();
    proof {
        let i = index as int;
        assert(16 * i + 16 <= n as int);
        assert(index < bytes@.len() / 16) by {
            vstd::arithmetic::div_mod::lemma_div_is_ordered(16 * i + 16, bytes@.len() as int, 16);
            vstd::arithmetic::div_mod::lemma_div_multiples_vanish_fancy(i + 1, 0, 16);
        }
    }
    decode_record_at_offset(bytes, 16 * index)
}

/// For a trace of whole records, the final 16 bytes hold the last record.
pub proof fn lemma_last_group_is_last_record(bytes: Seq<u8>)
    requires
        bytes.len() % 16 == 0,
        bytes.len() >= 16,
    ensures
        spec_record_of_bytes(bytes.subrange(bytes.len() - 16, bytes.len() as int))
            == spec_records_of_bytes(bytes).last(),
{
    let k = bytes.len() as int / 16;
    vstd::arithmetic::div_mod::lemma_fundamental_div_mod(bytes.len() as int, 16);
    assert(bytes.len() == 16 * k);
    assert(bytes.subrange(16 * (k - 1), 16 * (k - 1) + 16) =~= bytes.subrange(
        bytes.len() - 16,
        bytes.len() as int,
    ));
}

/// The bytes of one record are always 16, so N records encode as 16 * N bytes.
pub proof fn lemma_records_to_bytes_len(rs: Seq<Record>)
    ensures
        spec_records_to_bytes(rs).len() == 16 * rs.len(),
    decreases rs.len(),
{
    lemma_auto_spec_u64_to_from_le_bytes();
    if rs.len() > 0 {
        lemma_records_to_bytes_len(rs.drop_first());
    }
}

/// Decoding the 16 bytes that encode a record gives the record back.
pub proof fn lemma_record_round_trip(r: Record)
    ensures
        spec_record_of_bytes(spec_record_to_bytes(r)) == r,
{
    lemma_auto_spec_u64_to_from_le_bytes();
    let b = spec_record_to_bytes(r);
    assert(b.subrange(0, 8) =~= spec_u64_to_le_bytes(r.transmit_bits));
    assert(b.subrange(8, 16) =~= spec_u64_to_le_bytes(r.arrival_bits));
}

/// Round-trip law: any sequence of N records written as 16 * N bytes decodes
/// to exactly the same N records, in order.
pub proof fn lemma_records_round_trip(rs: Seq<Record>)
    ensures
        spec_records_of_bytes(spec_records_to_bytes(rs)) == rs,
    decreases rs.len(),
{
    lemma_auto_spec_u64_to_from_le_bytes();
    lemma_records_to_bytes_len(rs);
    let b = spec_records_to_bytes(rs);
    if rs.len() == 0 {
        assert(spec_records_of_bytes(b) =~= rs);
    } else {
        let head = spec_record_to_bytes(rs.first());
        let rest = spec_records_to_bytes(rs.drop_first());
        lemma_records_to_bytes_len(rs.drop_first());
        lemma_records_round_trip(rs.drop_first());
        lemma_record_round_trip(rs.first());
        assert(b.subrange(0, 16) =~= head);
        assert forall|i: int| 1 <= i < rs.len() implies spec_records_of_bytes(b)[i] == rs[i] by {
            assert(b.subrange(16 * i, 16 * i + 16) =~= rest.subrange(
                16 * (i - 1),
                16 * (i - 1) + 16,
            ));
            assert(spec_records_of_bytes(rest)[i - 1] == rs.drop_first()[i - 1]);
        }
        assert(spec_records_of_bytes(b) =~= rs);
    }
}

/// Truncation-tolerance law: appending fewer than 16 extra bytes to a file of
/// whole records changes neither the record count nor any record's value.
pub proof fn lemma_trailing_bytes_ignored(b: Seq<u8>, extra: Seq<u8>)
    requires
        b.len() % 16 == 0,
        extra.len() < 16,
    ensures
        spec_records_of_bytes(b + extra) == spec_records_of_bytes(b),
{
    let k = b.len() as int / 16;
    vstd::arithmetic::div_mod::lemma_fundamental_div_mod(b.len() as int, 16);
    assert(b.len() == 16 * k);
    vstd::arithmetic::div_mod::lemma_div_multiples_vanish_fancy(k, extra.len() as int, 16);
    assert((b + extra).len() as int / 16 == k);
    assert forall|i: int| 0 <= i < k implies spec_records_of_bytes(b + extra)[i]
        == spec_records_of_bytes(b)[i] by {
        assert((b + extra).subrange(16 * i, 16 * i + 16) =~= b.subrange(16 * i, 16 * i + 16));
    }
    assert(spec_records_of_bytes(b + extra) =~= spec_records_of_bytes(b));
}

/// Encode one record as its 16 bytes.
pub fn encode_record(r: &Record) -> (out: Vec<u8>)
    ensures
        out@ == spec_record_to_bytes(*r),
        out@.len() == 16,
{
    let mut out = u64_to_le_bytes(r.transmit_bits);
    let mut tail = u64_to_le_bytes(r.arrival_bits);
    out.append(&mut tail);
    out
}

} // verus!
