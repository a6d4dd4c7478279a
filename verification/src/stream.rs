//! A lazy, restartable pull-stream of records over one trace's bytes.

use crate::record::{
    decode_record_at, decode_record_at_offset, lemma_last_group_is_last_record,
    spec_record_of_bytes, spec_records_of_bytes, Record,
};
use vstd::prelude::*;

verus! {

/// A restartable pull-stream of `Record`s over the bytes of one trace.
///
/// The caller reads the file and hands its bytes over in whole; the stream
/// keeps only a cursor, so every yielded record is a pure function of the
/// bytes and of how many records were yielded before it.
pub struct TrexDataFile {
    bytes: Vec<u8>,
    points_read: usize,
}

impl TrexDataFile {
    /// The bytes the stream was opened over.
    pub closed spec fn byte_view(&self) -> Seq<u8> {
        self.bytes@
    }

    /// How many records have been yielded since the start or the last reset.
    pub closed spec fn position(&self) -> int {
        self.points_read as int
    }

    /// All records the trace holds.
    pub open spec fn records(&self) -> Seq<Record> {
        spec_records_of_bytes(self.byte_view())
    }

    /// The records a continued iteration will still yield.
    pub open spec fn remaining_records(&self) -> Seq<Record> {
        self.records().skip(self.position())
    }

    /// The cursor never passes the record count.
    pub open spec fn wf(&self) -> bool {
        0 <= self.position() <= self.records().len()
    }

    /// Open a stream over the bytes of one trace file.
    pub fn new(bytes: Vec<u8>) -> (s: Self)
        ensures
            s.wf(),
            s.byte_view() == bytes@,
            s.position() == 0,
    {
        TrexDataFile { bytes, points_read: 0 }
    }

    /// How many whole records the trace holds: its byte length divided by 16,
    /// so a trailing partial record is excluded from the count a priori.
    pub fn total_records(&self) -> (n: usize)
        ensures
            n == self.records().len(),
    {
        self.bytes.len() / 16
    }

    /// How many records a continued iteration will still yield.
    pub fn len(&self) -> (n: usize)
        requires
            self.wf(),
        ensures
            n == self.remaining_records().len(),
    {
        self.bytes.len() / 16 - self.points_read
    }

    /// Yield the next record, or `None` at the end of the trace.
    pub fn next(&mut self) -> (r: Option<Record>)
        requires
            old(self).wf(),
        ensures
            final(self).wf(),
            final(self).byte_view() == old(self).byte_view(),
            old(self).position() < old(self).records().len() ==> {
                &&& r == Some(old(self).records()[old(self).position()])
                &&& final(self).position() == old(self).position() + 1
            },
            old(self).position() >= old(self).records().len() ==> {
                &&& r is None
                &&& final(self).position() == old(self).position()
            },
    {
        let total = self.bytes.len() / 16;
        if self.points_read >= total {
            return None;
        }
        proof {
            let n = self.bytes@.len() as int;
            vstd::arithmetic::div_mod::lemma_fundamental_div_mod(n, 16);
            assert(16 * (self.points_read as int) + 16 <= 16 * (n / 16));
        }
        let rec = decode_record_at(&self.bytes, self.points_read);
        self.points_read = self.points_read + 1;
        Some(rec)
    }

    /// Rewind to the start, so iteration restarts from record zero.
    pub fn reset(&mut self)
        ensures
            final(self).wf(),
            final(self).byte_view() == old(self).byte_view(),
            final(self).position() == 0,
    {
        self.points_read = 0;
    }

    /// Decode the final 16 bytes of the trace as one record, without moving
    /// the cursor; `None` when the trace holds fewer than 16 bytes. On a
    /// trace of whole records this is the last record, used to learn the
    /// total test duration without a full forward pass.
    pub fn get_last_point(&self) -> (r: Option<Record>)
        ensures
            self.byte_view().len() >= 16 ==> r == Some(
                spec_record_of_bytes(
                    self.byte_view().subrange(
                        self.byte_view().len() - 16,
                        self.byte_view().len() as int,
                    ),
                ),
            ),
            self.byte_view().len() >= 16 && self.byte_view().len() % 16 == 0 ==> r == Some(
                self.records().last(),
            ),
            self.byte_view().len() < 16 ==> r is None,
    {
        let n = self.bytes.len();
        if n < 16 {
            return None;
        }
        proof {
            if self.byte_view().len() % 16 == 0 {
                lemma_last_group_is_last_record(self.byte_view());
            }
        }
        Some(decode_record_at_offset(&self.bytes, n - 16))
    }

    /// Yield every remaining record at once, leaving the cursor at the end.
    pub fn read_all(&mut self) -> (v: Vec<Record>)
        requires
            old(self).wf(),
        ensures
            final(self).wf(),
            final(self).byte_view() == old(self).byte_view(),
            v@ == old(self).remaining_records(),
            final(self).position() == final(self).records().len(),
    {
        let mut v: Vec<Record> = Vec::new();
        let total = self.bytes.len() / 16;
        while self.points_read < total
            invariant
                self.wf(),
                total == self.records().len(),
                self.byte_view() == old(self).byte_view(),
                old(self).position() <= self.position() <= total,
                v@ == self.records().subrange(old(self).position(), self.position()),
            decreases total - self.points_read,
        {
            let r = self.next();
            match r {
                Some(rec) => {
                    v.push(rec);
                    proof {
                        assert(v@ =~= self.records().subrange(
                            old(self).position(),
                            self.position(),
                        ));
                    }
                },
                None => {},
            }
        }
        proof {
            assert(v@ =~= old(self).remaining_records());
        }
        v
    }
}

/// Idempotence law: once `reset()` has put a stream's cursor back to zero
/// over unchanged bytes, a full re-iteration yields exactly the sequence a
/// first full pass yields — iteration is a function of the bytes alone.
pub proof fn lemma_reset_restarts_iteration(before: TrexDataFile, after: TrexDataFile)
    requires
        after.byte_view() == before.byte_view(),
        after.position() == 0,
    ensures
        after.remaining_records() == before.records(),
{
    assert(after.remaining_records() =~= before.records());
}

} // verus!
