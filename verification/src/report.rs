//! The summary as the tracker computes and holds it: a list of lines with
//! 32-bit counts, filled record by record.

use vstd::prelude::*;
use crate::access::AccessInfo;
use crate::keyed::find_key;
use crate::records::AccessTable;
use crate::summary::{
    address_prefix, countable, important_reads, important_writes, lemma_front_is_countable,
    lemma_one_more_record, lemma_touched_iff_counted, lemma_touched_once, qualified, summarize,
    touched_prefixes, Bucket, PREFIX_LEN,
};

verus! {

/// The counts of one line of the summary.
#[derive(Clone, Copy, Debug, PartialEq, Eq, Structural)]
pub struct AccessReport {
    /// How many keys under the prefix have an important read.
    pub read: u32,
    /// How many keys under the prefix have an important write.
    pub written: u32,
}

impl Default for AccessReport {
    fn default() -> (report: AccessReport)
        ensures
            report == (AccessReport { read: 0, written: 0 }),
    {
        AccessReport { read: 0, written: 0 }
    }
}

/// The lines that `report` holds.
pub open spec fn buckets_of(report: Seq<(Vec<u8>, AccessReport)>) -> Seq<Bucket> {
    Seq::new(
        report.len(),
        |i: int|
            Bucket {
                prefix: report[i].0@,
                read: report[i].1.read as nat,
                written: report[i].1.written as nat,
            },
    )
}

/// Copies the address prefix of `key` in `partition`: the first 32 bytes of
/// the partition's identifier followed by the key.
pub fn prefix_of(partition: &Vec<u8>, key: &Vec<u8>) -> (prefix: Vec<u8>)
    ensures
        prefix@ == address_prefix(partition@ + key@),
{
    let mut prefix: Vec<u8> = Vec::new();
    let mut i: usize = 0;
    while i < partition.len() && i < PREFIX_LEN
        invariant
            i <= partition.len(),
            i <= PREFIX_LEN,
            prefix@ == partition@.subrange(0, i as int),
        decreases partition.len() - i,
    {
        prefix.push(partition[i]);
        i += 1;
    }
    let mut j: usize = 0;
    while j < key.len() && i + j < PREFIX_LEN
        invariant
            i <= partition.len(),
            j <= key.len(),
            i + j <= PREFIX_LEN,
            i < partition.len() ==> i == PREFIX_LEN,
            prefix@ == partition@.subrange(0, i as int) + key@.subrange(0, j as int),
        decreases key.len() - j,
    {
        prefix.push(key[j]);
        j += 1;
    }
    prefix
}

/// Whether `report` holds, line by line, the touched prefixes of `records`
/// and the counts over `records` for each.
spec fn holds_counts(
    report: Seq<(Vec<u8>, AccessReport)>,
    records: Seq<(Seq<u8>, AccessInfo)>,
) -> bool {
    &&& report.len() == touched_prefixes(records).len()
    &&& forall|i: int|
        0 <= i < report.len() ==> {
            &&& (#[trigger] report[i]).0@ == touched_prefixes(records)[i]
            &&& report[i].1.read == important_reads(records, touched_prefixes(records)[i])
            &&& report[i].1.written == important_writes(records, touched_prefixes(records)[i])
        }
}

/// A report holds the summary of some records exactly if it holds their
/// touched prefixes and counts line by line.
proof fn lemma_holds_counts(
    report: Seq<(Vec<u8>, AccessReport)>,
    records: Seq<(Seq<u8>, AccessInfo)>,
)
    ensures
        holds_counts(report, records) <==> buckets_of(report) == summarize(records),
{
    let lines = summarize(records);
    if holds_counts(report, records) {
        assert(buckets_of(report) =~= lines);
    }
    if buckets_of(report) == lines {
        assert(report.len() == buckets_of(report).len());
        assert forall|i: int| 0 <= i < report.len() implies {
            &&& (#[trigger] report[i]).0@ == touched_prefixes(records)[i]
            &&& report[i].1.read == important_reads(records, touched_prefixes(records)[i])
            &&& report[i].1.written == important_writes(records, touched_prefixes(records)[i])
        } by {
            assert(buckets_of(report)[i] == lines[i]);
        }
    }
}

/// Counts one more record into `report`, which summarizes the records `seen`.
fn tally(
    report: &mut Vec<(Vec<u8>, AccessReport)>,
    prefix: Vec<u8>,
    info: AccessInfo,
    Ghost(seen): Ghost<Seq<(Seq<u8>, AccessInfo)>>,
    Ghost(address): Ghost<Seq<u8>>,
)
    requires
        buckets_of(old(report)@) == summarize(seen),
        prefix@ == address_prefix(address),
        countable(seen.push((address, info))),
    ensures
        buckets_of(final(report)@) == summarize(seen.push((address, info))),
{
    let ghost record = (address, info);
    let ghost after = seen.push(record);
    let ghost touched = touched_prefixes(seen);
    proof {
        lemma_holds_counts(report@, seen);
        lemma_one_more_record(seen, record, prefix@);
        lemma_touched_once(seen);
    }
    match find_key(report, &prefix) {
        Some(at) => {
            let counts = report[at].1;
            let read: u32 = if info.read.is_important() {
                counts.read + 1
            } else {
                counts.read
            };
            let written: u32 = if info.written.is_important() {
                counts.written + 1
            } else {
                counts.written
            };
            report[at].1 = AccessReport { read, written };
            proof {
                assert forall|i: int| 0 <= i < report@.len() implies {
                    &&& (#[trigger] report@[i]).0@ == touched[i]
                    &&& report@[i].1.read == important_reads(after, touched[i])
                    &&& report@[i].1.written == important_writes(after, touched[i])
                } by {
                    lemma_one_more_record(seen, record, touched[i]);
                }
            }
        },
        None => {
            proof {
                assert forall|i: int| 0 <= i < touched.len() implies touched[i] != prefix@ by {
                    assert(report@[i].0@ == touched[i]);
                }
                lemma_touched_iff_counted(seen, prefix@);
            }
            let mut counts = AccessReport::default();
            if info.read.is_important() {
                counts.read += 1;
            }
            if info.written.is_important() {
                counts.written += 1;
            }
            if counts.read + counts.written > 0 {
                report.push((prefix, counts));
            }
            proof {
                let touched_after = touched_prefixes(after);
                assert forall|i: int| 0 <= i < report@.len() implies {
                    &&& (#[trigger] report@[i]).0@ == touched_after[i]
                    &&& report@[i].1.read == important_reads(after, touched_after[i])
                    &&& report@[i].1.written == important_writes(after, touched_after[i])
                } by {
                    lemma_one_more_record(seen, record, touched_after[i]);
                }
            }
        },
    }
    proof {
        lemma_holds_counts(report@, after);
    }
}

/// Counts the records of one partition into `report`, which summarizes the
/// records `seen`.
pub(crate) fn tally_table(
    report: &mut Vec<(Vec<u8>, AccessReport)>,
    partition: &Vec<u8>,
    table: &AccessTable,
    Ghost(seen): Ghost<Seq<(Seq<u8>, AccessInfo)>>,
)
    requires
        buckets_of(old(report)@) == summarize(seen),
        countable(seen + qualified(partition@, table@)),
    ensures
        buckets_of(final(report)@) == summarize(seen + qualified(partition@, table@)),
{
    let ghost whole = seen + qualified(partition@, table@);
    let mut i: usize = 0;
    while i < table.len()
        invariant
            i <= table@.len(),
            whole == seen + qualified(partition@, table@),
            countable(whole),
            buckets_of(report@) == summarize(
                seen + qualified(partition@, table@.subrange(0, i as int)),
            ),
        decreases table@.len() - i,
    {
        let key = table.key_at(i);
        let info = table.info_at(i);
        let prefix = prefix_of(partition, key);
        let ghost so_far = seen + qualified(partition@, table@.subrange(0, i as int));
        proof {
            let next = seen + qualified(partition@, table@.subrange(0, i + 1));
            let rest = qualified(partition@, table@.subrange(i + 1, table@.len() as int));
            assert(so_far.push((partition@ + key@, info)) =~= next);
            assert(next + rest =~= whole);
            lemma_front_is_countable(next, rest);
        }
        tally(report, prefix, info, Ghost(so_far), Ghost(partition@ + key@));
        i += 1;
    }
    assert(table@.subrange(0, i as int) =~= table@);
}

} // verus!
