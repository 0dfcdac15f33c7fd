//! The tracker: a timing anchor, the nesting depth of the executions in
//! progress, the time measured for repeat executions, and the access records
//! of the flat and the partitioned keyspace.

use std::time::Instant;
use vstd::prelude::*;
use crate::access::AccessInfo;
use crate::encoding::{encode_lines, scale_encoding};
use crate::partitions::ChildTable;
use crate::records::AccessTable;
use crate::report::{buckets_of, tally_table, AccessReport};
use crate::state::{capped, total, TrackerState};
use crate::summary::{
    child_records, lemma_child_records_add, lemma_few_records_are_countable,
    lemma_front_is_countable, lemma_touched_are_recorded, qualified, report_lines, summarize,
    touched_prefixes,
};

verus! {

/// Records timing and storage accesses for one benchmark session.
pub struct BenchTracker {
    instant: Instant,
    depth: u32,
    redundant: Instant,
    results: Vec<u128>,
    main_keys: AccessTable,
    child_keys: ChildTable,
}

impl View for BenchTracker {
    type V = TrackerState;

    closed spec fn view(&self) -> TrackerState {
        TrackerState {
            instant: self.instant,
            depth: self.depth as nat,
            redundant: self.redundant,
            results: self.results@,
            main_keys: self.main_keys@,
            child_keys: self.child_keys@,
        }
    }
}

impl BenchTracker {
    /// No key has two records in its keyspace, and no partition two tables.
    pub open spec fn wf(&self) -> bool {
        self@.wf()
    }

    /// An idle tracker without samples and without records. Both clock
    /// anchors are set to the time of the call.
    pub fn new() -> (tracker: BenchTracker)
        ensures
            tracker.wf(),
            tracker@.depth == 0,
            tracker@.results == Seq::<u128>::empty(),
            tracker@.main_keys == Seq::<(Seq<u8>, AccessInfo)>::empty(),
            tracker@.child_keys == Seq::<(Seq<u8>, Seq<(Seq<u8>, AccessInfo)>)>::empty(),
    {
        BenchTracker {
            instant: Instant::now(),
            depth: 0,
            redundant: Instant::now(),
            results: Vec::new(),
            main_keys: AccessTable::new(),
            child_keys: ChildTable::new(),
        }
    }

    /// Starts a new measured interval at the time of the call.
    pub fn instant(&mut self)
        ensures
            exists|now: Instant| final(self)@ == #[trigger] old(self)@.restarted(now),
    {
        let now = Instant::now();
        self.instant_at(now);
    }

    /// Starts a new measured interval at the clock reading `now`.
    pub fn instant_at(&mut self, now: Instant)
        ensures
            final(self)@ == old(self)@.restarted(now),
    {
        self.instant = now;
    }

    /// Nanoseconds since the measured interval was started.
    pub fn elapsed(&self) -> (nanos: u128) {
        self.instant.elapsed().as_nanos()
    }

    /// How many executions are in progress, one inside the other.
    pub fn depth(&self) -> (depth: u32)
        ensures
            depth == self@.depth,
    {
        self.depth
    }

    /// The length in nanoseconds of each repeat window that was closed.
    pub fn results(&self) -> (results: &Vec<u128>)
        ensures
            results@ == self@.results,
    {
        &self.results
    }

    /// The records of the flat keyspace.
    pub fn main_keys(&self) -> (table: &AccessTable)
        ensures
            table@ == self@.main_keys,
    {
        &self.main_keys
    }

    /// The records of the child keyspaces.
    pub fn child_keys(&self) -> (table: &ChildTable)
        ensures
            table@ == self@.child_keys,
    {
        &self.child_keys
    }

    /// Whether an access made now belongs to a repeat execution.
    pub fn is_redundant(&self) -> (redundant: bool)
        ensures
            redundant == self@.is_redundant(),
    {
        self.depth > 1
    }

    /// Records a read of `key` in the flat keyspace.
    pub fn reading_key(&mut self, key: Vec<u8>)
        requires
            old(self).wf(),
        ensures
            final(self).wf(),
            final(self)@ == old(self)@.read_key(key@),
    {
        let redundant = self.is_redundant();
        self.main_keys.note_read(key, redundant);
    }

    /// Records a read of `key` in the child keyspace whose storage key is
    /// `child_storage_key`.
    pub fn reading_child_key(&mut self, child_storage_key: Vec<u8>, key: Vec<u8>)
        requires
            old(self).wf(),
        ensures
            final(self).wf(),
            final(self)@ == old(self)@.read_child_key(child_storage_key@, key@),
    {
        let redundant = self.is_redundant();
        self.child_keys.note_read(child_storage_key, key, redundant);
    }

    /// Records a write of `key` in the flat keyspace.
    pub fn changing_key(&mut self, key: Vec<u8>)
        requires
            old(self).wf(),
        ensures
            final(self).wf(),
            final(self)@ == old(self)@.changed_key(key@),
    {
        let redundant = self.is_redundant();
        self.main_keys.note_write(key, redundant);
    }

    /// Records a write of `key` in the child keyspace whose storage key is
    /// `child_storage_key`.
    pub fn changing_child_key(&mut self, child_storage_key: Vec<u8>, key: Vec<u8>)
        requires
            old(self).wf(),
        ensures
            final(self).wf(),
            final(self)@ == old(self)@.changed_child_key(child_storage_key@, key@),
    {
        let redundant = self.is_redundant();
        self.child_keys.note_write(child_storage_key, key, redundant);
    }

    /// How many keys have a record, over all keyspaces, if that number fits
    /// in 32 bits. A tracker that has such a number can be summarized and
    /// reported.
    pub fn key_count(&self) -> (count: Option<u32>)
        ensures
            match count {
                Some(n) => n == self@.records().len() && self@.reportable(),
                None => self@.records().len() > u32::MAX,
            },
    {
        let limit: usize = u32::MAX as usize;
        let mut count: usize = self.main_keys.len();
        if count > limit {
            return None;
        }
        let mut p: usize = 0;
        while p < self.child_keys.len()
            invariant
                limit == u32::MAX,
                p <= self@.child_keys.len(),
                count <= limit,
                count == self@.main_keys.len() + child_records(
                    self@.child_keys.subrange(0, p as int),
                ).len(),
            decreases self@.child_keys.len() - p,
        {
            let more: usize = self.child_keys.table_at(p).len();
            proof {
                let upto = self@.child_keys.subrange(0, p + 1);
                let rest = self@.child_keys.subrange(p + 1, self@.child_keys.len() as int);
                assert(upto.drop_last() =~= self@.child_keys.subrange(0, p as int));
                assert(upto + rest =~= self@.child_keys);
                lemma_child_records_add(upto, rest);
            }
            if more > limit - count {
                return None;
            }
            count += more;
            p += 1;
        }
        proof {
            assert(self@.child_keys.subrange(0, p as int) =~= self@.child_keys);
            lemma_few_records_are_countable(self@.records());
        }
        Some(count as u32)
    }

    /// The summary of the access records: for each touched address prefix
    /// one line with the number of keys under it that have an important read
    /// and the number that have an important write, in the order in which
    /// the prefixes were first touched. The counts are 32-bit numbers, so no
    /// prefix may have more such keys than that.
    pub fn summary(&self) -> (report: Vec<(Vec<u8>, AccessReport)>)
        requires
            self@.summable(),
        ensures
            buckets_of(report@) == self@.summary(),
    {
        let mut report: Vec<(Vec<u8>, AccessReport)> = Vec::new();
        let flat: Vec<u8> = Vec::new();
        proof {
            assert(buckets_of(report@) =~= summarize(Seq::empty()));
            assert(Seq::empty() + qualified(flat@, self@.main_keys) =~= self@.main_keys);
            lemma_front_is_countable(self@.main_keys, child_records(self@.child_keys));
        }
        tally_table(&mut report, &flat, &self.main_keys, Ghost(Seq::empty()));
        let mut p: usize = 0;
        while p < self.child_keys.len()
            invariant
                p <= self@.child_keys.len(),
                self@.summable(),
                buckets_of(report@) == summarize(
                    self@.main_keys + child_records(self@.child_keys.subrange(0, p as int)),
                ),
            decreases self@.child_keys.len() - p,
        {
            let ghost seen = self@.main_keys + child_records(
                self@.child_keys.subrange(0, p as int),
            );
            let partition = self.child_keys.partition_at(p);
            let table = self.child_keys.table_at(p);
            proof {
                let upto = self@.child_keys.subrange(0, p + 1);
                let rest = self@.child_keys.subrange(p + 1, self@.child_keys.len() as int);
                assert(upto.drop_last() =~= self@.child_keys.subrange(0, p as int));
                assert(seen + qualified(partition@, table@) =~= self@.main_keys + child_records(
                    upto,
                ));
                assert(upto + rest =~= self@.child_keys);
                lemma_child_records_add(upto, rest);
                assert((self@.main_keys + child_records(upto)) + child_records(rest)
                    =~= self@.records());
                lemma_front_is_countable(
                    self@.main_keys + child_records(upto),
                    child_records(rest),
                );
            }
            tally_table(&mut report, partition, table, Ghost(seen));
            p += 1;
        }
        assert(self@.child_keys.subrange(0, p as int) =~= self@.child_keys);
        report
    }

    /// The summary of the access records, encoded as a list of
    /// `(prefix, read count, write count)` lines. The encoding counts the
    /// lines in 32 bits, so there may be no more lines than that.
    pub fn read_written_keys(&self) -> (bytes: Vec<u8>)
        requires
            self@.reportable(),
        ensures
            bytes@ == scale_encoding(report_lines(self@.summary())),
    {
        let report = self.summary();
        let mut lines: Vec<(Vec<u8>, u32, u32)> = Vec::new();
        let mut i: usize = 0;
        while i < report.len()
            invariant
                i <= report.len(),
                lines.len() == i,
                forall|j: int|
                    0 <= j < i ==> {
                        &&& (#[trigger] lines[j]).0@ == report[j].0@
                        &&& lines[j].1 == report[j].1.read
                        &&& lines[j].2 == report[j].1.written
                    },
            decreases report.len() - i,
        {
            let prefix = report[i].0.clone();
            lines.push((prefix, report[i].1.read, report[i].1.written));
            i += 1;
        }
        proof {
            let summary = self@.summary();
            assert forall|j: int| 0 <= j < lines.len() implies lines.deep_view()[j]
                == report_lines(summary)[j] && (#[trigger] lines[j]).0.len() <= u32::MAX by {
                lemma_touched_are_recorded(self@.records(), j);
                assert(buckets_of(report@)[j] == summary[j]);
            }
            assert(lines.deep_view() =~= report_lines(summary));
        }
        encode_lines(&lines)
    }

    /// Enters an execution at the time of the call.
    pub fn before_block(&mut self)
        requires
            old(self)@.depth < u32::MAX,
        ensures
            exists|now: Instant| final(self)@ == #[trigger] old(self)@.entered(now),
    {
        let timestamp = Instant::now();
        self.before_block_at(timestamp);
    }

    /// Enters an execution at the clock reading `timestamp`.
    pub fn before_block_at(&mut self, timestamp: Instant)
        requires
            old(self)@.depth < u32::MAX,
        ensures
            final(self)@ == old(self)@.entered(timestamp),
    {
        if self.depth == 0 {
            self.depth = 1;
            return;
        }
        if self.depth == 1 {
            self.redundant = timestamp;
        }
        self.depth += 1;
    }

    /// Leaves an execution at the time of the call. Only the exit that
    /// closes the repeat window reads the clock; no other exit uses a reading.
    pub fn after_block(&mut self)
        requires
            old(self)@.depth > 0,
        ensures
            exists|elapsed: u128| final(self)@ == #[trigger] old(self)@.exited(elapsed),
    {
        let elapsed: u128 = if self.depth == 2 {
            self.redundant.elapsed().as_nanos()
        } else {
            0
        };
        self.after_block_with(elapsed);
    }

    /// Leaves an execution, `elapsed` nanoseconds after the start of the
    /// repeat window.
    pub fn after_block_with(&mut self, elapsed: u128)
        requires
            old(self)@.depth > 0,
        ensures
            final(self)@ == old(self)@.exited(elapsed),
    {
        if self.depth == 2 {
            self.results.push(elapsed);
        }
        self.depth -= 1;
    }

    /// The time spent in repeat windows, in nanoseconds. Only an idle
    /// tracker can say: while an execution is in progress the last window
    /// may still be open.
    pub fn redundant_time(&self) -> (nanos: u128)
        requires
            self@.depth == 0,
        ensures
            nanos == self@.redundant_time(),
    {
        let mut elapsed: u128 = 0;
        let mut i: usize = 0;
        while i < self.results.len()
            invariant
                i <= self.results.len(),
                elapsed == capped(total(self.results@.subrange(0, i as int))),
            decreases self.results.len() - i,
        {
            proof {
                let upto = self.results@.subrange(0, i as int);
                let next = self.results@.subrange(0, i + 1);
                assert(next.drop_last() =~= upto);
            }
            elapsed = elapsed.saturating_add(self.results[i]);
            i += 1;
        }
        assert(self.results@.subrange(0, i as int) =~= self.results@);
        elapsed
    }

    /// The time spent in repeat windows, in nanoseconds, or nothing while an
    /// execution is in progress.
    pub fn try_redundant_time(&self) -> (nanos: Option<u128>)
        ensures
            nanos == if self@.depth == 0 {
                Some(self@.redundant_time())
            } else {
                None
            },
    {
        if self.depth == 0 {
            Some(self.redundant_time())
        } else {
            None
        }
    }

    /// Drops the access records. Depth, samples and clock anchors stay.
    pub fn reset_storage_tracker(&mut self)
        ensures
            final(self).wf(),
            final(self)@ == old(self)@.without_keys(),
    {
        self.main_keys.clear();
        self.child_keys.clear();
    }

    /// Makes the tracker idle and drops the samples. The access records and
    /// the clock anchors stay.
    pub fn reset_redundant(&mut self)
        ensures
            final(self)@ == old(self)@.without_samples(),
    {
        self.depth = 0;
        self.results.clear();
    }
}

} // verus!
