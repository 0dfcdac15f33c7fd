//! The summary of the access records: for each 32-byte storage address
//! prefix, how many keys under it were read and how many were written by the
//! meaningful execution.

use vstd::prelude::*;
use crate::access::{AccessInfo, AccessType};

verus! {

/// The length in bytes of the address prefix that names a line of the summary.
pub const PREFIX_LEN: usize = 32;

/// The first 32 bytes of `address`, or all of it where it is shorter.
pub open spec fn address_prefix(address: Seq<u8>) -> Seq<u8> {
    if address.len() <= PREFIX_LEN {
        address
    } else {
        address.subrange(0, PREFIX_LEN as int)
    }
}

/// The records of one partition under their full addresses: the partition's
/// identifier followed by the key. The flat keyspace is the partition with
/// the empty identifier.
pub open spec fn qualified(partition: Seq<u8>, entries: Seq<(Seq<u8>, AccessInfo)>) -> Seq<
    (Seq<u8>, AccessInfo),
> {
    Seq::new(entries.len(), |i: int| (partition + entries[i].0, entries[i].1))
}

/// The records of all partitions under their full addresses, partition after
/// partition.
pub open spec fn child_records(parts: Seq<(Seq<u8>, Seq<(Seq<u8>, AccessInfo)>)>) -> Seq<
    (Seq<u8>, AccessInfo),
>
    decreases parts.len(),
{
    if parts.len() == 0 {
        Seq::empty()
    } else {
        child_records(parts.drop_last()) + qualified(parts.last().0, parts.last().1)
    }
}

/// 1 if the read of `record` is important and its address begins with
/// `prefix`, else 0.
pub open spec fn read_weight(record: (Seq<u8>, AccessInfo), prefix: Seq<u8>) -> nat {
    if address_prefix(record.0) == prefix && record.1.read == AccessType::Important {
        1
    } else {
        0
    }
}

/// 1 if the write of `record` is important and its address begins with
/// `prefix`, else 0.
pub open spec fn write_weight(record: (Seq<u8>, AccessInfo), prefix: Seq<u8>) -> nat {
    if address_prefix(record.0) == prefix && record.1.written == AccessType::Important {
        1
    } else {
        0
    }
}

/// How many of `records` have the address prefix `prefix` and an important read.
pub open spec fn important_reads(records: Seq<(Seq<u8>, AccessInfo)>, prefix: Seq<u8>) -> nat
    decreases records.len(),
{
    if records.len() == 0 {
        0
    } else {
        important_reads(records.drop_last(), prefix) + read_weight(records.last(), prefix)
    }
}

/// How many of `records` have the address prefix `prefix` and an important write.
pub open spec fn important_writes(records: Seq<(Seq<u8>, AccessInfo)>, prefix: Seq<u8>) -> nat
    decreases records.len(),
{
    if records.len() == 0 {
        0
    } else {
        important_writes(records.drop_last(), prefix) + write_weight(records.last(), prefix)
    }
}

/// The address prefixes under which `records` hold an important access, each
/// once, in the order of the first record that has one.
pub open spec fn touched_prefixes(records: Seq<(Seq<u8>, AccessInfo)>) -> Seq<Seq<u8>>
    decreases records.len(),
{
    if records.len() == 0 {
        Seq::empty()
    } else {
        let before = touched_prefixes(records.drop_last());
        let prefix = address_prefix(records.last().0);
        if records.last().1.is_counted() && !before.contains(prefix) {
            before.push(prefix)
        } else {
            before
        }
    }
}

/// One line of the summary.
pub struct Bucket {
    /// The address prefix that the line is about.
    pub prefix: Seq<u8>,
    /// How many keys under the prefix have an important read.
    pub read: nat,
    /// How many keys under the prefix have an important write.
    pub written: nat,
}

/// The summary of `records`: one line for each touched prefix, with the
/// number of records under it that have an important read and the number
/// that have an important write.
pub open spec fn summarize(records: Seq<(Seq<u8>, AccessInfo)>) -> Seq<Bucket> {
    let prefixes = touched_prefixes(records);
    Seq::new(
        prefixes.len(),
        |i: int|
            Bucket {
                prefix: prefixes[i],
                read: important_reads(records, prefixes[i]),
                written: important_writes(records, prefixes[i]),
            },
    )
}

/// The line of `buckets` for `prefix`, if there is one.
pub open spec fn bucket_for(buckets: Seq<Bucket>, prefix: Seq<u8>) -> Option<Bucket> {
    if exists|i: int| 0 <= i < buckets.len() && (#[trigger] buckets[i]).prefix == prefix {
        Some(
            buckets[choose|i: int|
                0 <= i < buckets.len() && (#[trigger] buckets[i]).prefix == prefix],
        )
    } else {
        None
    }
}

/// The lines of a summary with their counts as 32-bit numbers, the form in
/// which they are encoded.
pub open spec fn report_lines(buckets: Seq<Bucket>) -> Seq<(Seq<u8>, u32, u32)> {
    Seq::new(
        buckets.len(),
        |i: int| (buckets[i].prefix, buckets[i].read as u32, buckets[i].written as u32),
    )
}

/// Every count over `records` fits in 32 bits.
pub open spec fn countable(records: Seq<(Seq<u8>, AccessInfo)>) -> bool {
    forall|prefix: Seq<u8>|
        #![trigger important_reads(records, prefix)]
        #![trigger important_writes(records, prefix)]
        important_reads(records, prefix) <= u32::MAX && important_writes(records, prefix)
            <= u32::MAX
}

/// One more record adds its weights to the counts, and its prefix to the
/// touched prefixes if it has an important access and the prefix is new.
pub proof fn lemma_one_more_record(
    seen: Seq<(Seq<u8>, AccessInfo)>,
    record: (Seq<u8>, AccessInfo),
    prefix: Seq<u8>,
)
    ensures
        important_reads(seen.push(record), prefix) == important_reads(seen, prefix) + read_weight(
            record,
            prefix,
        ),
        important_writes(seen.push(record), prefix) == important_writes(seen, prefix)
            + write_weight(record, prefix),
        touched_prefixes(seen.push(record)) == if record.1.is_counted() && !touched_prefixes(
            seen,
        ).contains(address_prefix(record.0)) {
            touched_prefixes(seen).push(address_prefix(record.0))
        } else {
            touched_prefixes(seen)
        },
{
    assert(seen.push(record).drop_last() =~= seen);
}

/// No count of important accesses is larger than the number of records.
pub proof fn lemma_counts_bounded(records: Seq<(Seq<u8>, AccessInfo)>, prefix: Seq<u8>)
    ensures
        important_reads(records, prefix) <= records.len(),
        important_writes(records, prefix) <= records.len(),
    decreases records.len(),
{
    if records.len() > 0 {
        lemma_counts_bounded(records.drop_last(), prefix);
    }
}

/// A prefix is touched exactly if some record under it has an important
/// access, that is, if one of its two counts is not zero.
pub proof fn lemma_touched_iff_counted(records: Seq<(Seq<u8>, AccessInfo)>, prefix: Seq<u8>)
    ensures
        touched_prefixes(records).contains(prefix) <==> important_reads(records, prefix)
            + important_writes(records, prefix) > 0,
    decreases records.len(),
{
    if records.len() > 0 {
        let before = touched_prefixes(records.drop_last());
        let own = address_prefix(records.last().0);
        lemma_touched_iff_counted(records.drop_last(), prefix);
        if records.last().1.is_counted() && !before.contains(own) {
            assert forall|i: int| 0 <= i < before.len() implies before.push(own)[i]
                == before[i] by {}
            if prefix == own {
                assert(before.push(own)[before.len() as int] == prefix);
            }
        }
    }
}

/// No prefix is touched twice.
pub proof fn lemma_touched_once(records: Seq<(Seq<u8>, AccessInfo)>)
    ensures
        touched_prefixes(records).no_duplicates(),
    decreases records.len(),
{
    if records.len() > 0 {
        lemma_touched_once(records.drop_last());
    }
}

/// Every touched prefix is the address prefix of some record that has an
/// important access, so it is at most 32 bytes long.
pub proof fn lemma_touched_are_recorded(records: Seq<(Seq<u8>, AccessInfo)>, i: int)
    requires
        0 <= i < touched_prefixes(records).len(),
    ensures
        touched_prefixes(records)[i].len() <= PREFIX_LEN,
        exists|j: int|
            0 <= j < records.len() && (#[trigger] records[j]).1.is_counted() && address_prefix(
                records[j].0,
            ) == touched_prefixes(records)[i],
    decreases records.len(),
{
    let before = touched_prefixes(records.drop_last());
    if i < before.len() {
        lemma_touched_are_recorded(records.drop_last(), i);
    }
}

/// There are no more touched prefixes than records.
pub proof fn lemma_touched_bounded(records: Seq<(Seq<u8>, AccessInfo)>)
    ensures
        touched_prefixes(records).len() <= records.len(),
    decreases records.len(),
{
    if records.len() > 0 {
        lemma_touched_bounded(records.drop_last());
    }
}

/// The records of two lists of partitions, one after the other, are the
/// records of the first followed by the records of the second.
pub proof fn lemma_child_records_add(
    first: Seq<(Seq<u8>, Seq<(Seq<u8>, AccessInfo)>)>,
    second: Seq<(Seq<u8>, Seq<(Seq<u8>, AccessInfo)>)>,
)
    ensures
        child_records(first + second) == child_records(first) + child_records(second),
    decreases second.len(),
{
    if second.len() > 0 {
        assert((first + second).drop_last() =~= first + second.drop_last());
        lemma_child_records_add(first, second.drop_last());
    }
}

/// Where the counts over a list of records fit in 32 bits, so do the counts
/// over any front part of it.
pub proof fn lemma_front_is_countable(
    front: Seq<(Seq<u8>, AccessInfo)>,
    rest: Seq<(Seq<u8>, AccessInfo)>,
)
    requires
        countable(front + rest),
    ensures
        countable(front),
{
    assert forall|prefix: Seq<u8>|
        #![trigger important_reads(front, prefix)]
        #![trigger important_writes(front, prefix)]
        important_reads(front, prefix) <= u32::MAX && important_writes(front, prefix)
            <= u32::MAX by {
        lemma_counts_add(front, rest, prefix);
    }
}

/// With no more records than a 32-bit number can count, every count fits in
/// 32 bits, and so does the number of lines of the summary.
pub proof fn lemma_few_records_are_countable(records: Seq<(Seq<u8>, AccessInfo)>)
    requires
        records.len() <= u32::MAX,
    ensures
        countable(records),
        summarize(records).len() <= u32::MAX,
{
    assert forall|prefix: Seq<u8>|
        #![trigger important_reads(records, prefix)]
        #![trigger important_writes(records, prefix)]
        important_reads(records, prefix) <= u32::MAX && important_writes(records, prefix)
            <= u32::MAX by {
        lemma_counts_bounded(records, prefix);
    }
    lemma_touched_bounded(records);
}

/// The summary has a line for a prefix exactly if some record under it has
/// an important access, and the line holds the two counts for that prefix.
pub proof fn lemma_summary_line(records: Seq<(Seq<u8>, AccessInfo)>, prefix: Seq<u8>)
    ensures
        bucket_for(summarize(records), prefix) == if important_reads(records, prefix)
            + important_writes(records, prefix) > 0 {
            Some(
                Bucket {
                    prefix,
                    read: important_reads(records, prefix),
                    written: important_writes(records, prefix),
                },
            )
        } else {
            None
        },
{
    let touched = touched_prefixes(records);
    let lines = summarize(records);
    lemma_touched_iff_counted(records, prefix);
    if touched.contains(prefix) {
        let i = choose|i: int| 0 <= i < touched.len() && touched[i] == prefix;
        assert(lines[i].prefix == prefix);
    }
}

/// No two lines of the summary are about the same prefix.
pub proof fn lemma_summary_lines_differ(records: Seq<(Seq<u8>, AccessInfo)>, i: int, j: int)
    requires
        0 <= i < j < summarize(records).len(),
    ensures
        summarize(records)[i].prefix != summarize(records)[j].prefix,
{
    lemma_touched_once(records);
}

/// A prefix under which no record stands has no line in the summary: what
/// was never recorded is never reported.
pub proof fn lemma_unrecorded_prefix_has_no_line(
    records: Seq<(Seq<u8>, AccessInfo)>,
    prefix: Seq<u8>,
)
    requires
        forall|j: int|
            0 <= j < records.len() ==> address_prefix((#[trigger] records[j]).0) != prefix,
    ensures
        bucket_for(summarize(records), prefix) is None,
        important_reads(records, prefix) == 0,
        important_writes(records, prefix) == 0,
    decreases records.len(),
{
    if records.len() > 0 {
        lemma_unrecorded_prefix_has_no_line(records.drop_last(), prefix);
    }
    lemma_summary_line(records, prefix);
}

/// Where one record alone stands under its prefix, the counts for that
/// prefix are 1 or 0 each, as the record's read and write are important or
/// not, and the summary has the line exactly if one of them is.
pub proof fn lemma_single_key_line(records: Seq<(Seq<u8>, AccessInfo)>, at: int)
    requires
        0 <= at < records.len(),
        forall|j: int|
            0 <= j < records.len() && j != at ==> address_prefix((#[trigger] records[j]).0)
                != address_prefix(records[at].0),
    ensures
        bucket_for(summarize(records), address_prefix(records[at].0))
            == if records[at].1.is_counted() {
            Some(
                Bucket {
                    prefix: address_prefix(records[at].0),
                    read: if records[at].1.read == AccessType::Important {
                        1
                    } else {
                        0
                    },
                    written: if records[at].1.written == AccessType::Important {
                        1
                    } else {
                        0
                    },
                },
            )
        } else {
            None
        },
    decreases records.len(),
{
    let prefix = address_prefix(records[at].0);
    let before = records.drop_last();
    if at == records.len() - 1 {
        lemma_unrecorded_prefix_has_no_line(before, prefix);
    } else {
        lemma_single_key_line(before, at);
        lemma_summary_line(before, prefix);
    }
    lemma_summary_line(records, prefix);
}

/// Counting over two lists of records, one after the other, adds the counts
/// of each.
pub proof fn lemma_counts_add(
    first: Seq<(Seq<u8>, AccessInfo)>,
    second: Seq<(Seq<u8>, AccessInfo)>,
    prefix: Seq<u8>,
)
    ensures
        important_reads(first + second, prefix) == important_reads(first, prefix)
            + important_reads(second, prefix),
        important_writes(first + second, prefix) == important_writes(first, prefix)
            + important_writes(second, prefix),
    decreases second.len(),
{
    if second.len() > 0 {
        assert((first + second).drop_last() =~= first + second.drop_last());
        lemma_counts_add(first, second.drop_last(), prefix);
    }
}

/// Every record of the partitions is a record of one partition, under the
/// partition's identifier followed by its key.
pub proof fn lemma_child_record_origin(
    parts: Seq<(Seq<u8>, Seq<(Seq<u8>, AccessInfo)>)>,
    j: int,
)
    requires
        0 <= j < child_records(parts).len(),
    ensures
        exists|p: int, k: int|
            0 <= p < parts.len() && 0 <= k < parts[p].1.len() && child_records(parts)[j] == (
                parts[p].0 + #[trigger] parts[p].1[k].0,
                parts[p].1[k].1,
            ),
    decreases parts.len(),
{
    let before = child_records(parts.drop_last());
    if j < before.len() {
        lemma_child_record_origin(parts.drop_last(), j);
    } else {
        let p = parts.len() - 1;
        let k = j - before.len();
        assert(child_records(parts)[j] == (parts[p].0 + parts[p].1[k].0, parts[p].1[k].1));
    }
}

} // verus!
