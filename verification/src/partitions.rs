//! The access records of the child keyspaces, one table per partition, in
//! the order in which the partitions were first seen.

use vstd::prelude::*;
use crate::access::{AccessInfo, AccessType};
use crate::keyed::{distinct_keys, find_key, has_key, lemma_position_is_unique, position};
use crate::records::{
    lemma_important_write_outranks_reads, lemma_record_after_read, lemma_record_after_write,
    lemma_recording_keeps_keys_distinct, lemma_repeat_changes_nothing, read_into, record_of,
    write_into, AccessTable,
};

verus! {

/// No partition occurs twice, and within a partition no key occurs twice.
pub open spec fn partitions_wf(parts: Seq<(Seq<u8>, Seq<(Seq<u8>, AccessInfo)>)>) -> bool {
    &&& distinct_keys(parts)
    &&& forall|p: int| 0 <= p < parts.len() ==> distinct_keys((#[trigger] parts[p]).1)
}

/// The partitions after a read of `key` in `partition`: a new partition is
/// appended with `key` as its only record, a known partition has the read
/// folded into its records in place.
pub open spec fn child_read_into(
    parts: Seq<(Seq<u8>, Seq<(Seq<u8>, AccessInfo)>)>,
    partition: Seq<u8>,
    key: Seq<u8>,
    redundant: bool,
) -> Seq<(Seq<u8>, Seq<(Seq<u8>, AccessInfo)>)> {
    if has_key(parts, partition) {
        let at = position(parts, partition);
        parts.update(at, (partition, read_into(parts[at].1, key, redundant)))
    } else {
        parts.push((partition, read_into(Seq::empty(), key, redundant)))
    }
}

/// The partitions after a write of `key` in `partition`: a new partition is
/// appended with `key` as its only record, a known partition has the write
/// folded into its records in place.
pub open spec fn child_write_into(
    parts: Seq<(Seq<u8>, Seq<(Seq<u8>, AccessInfo)>)>,
    partition: Seq<u8>,
    key: Seq<u8>,
    redundant: bool,
) -> Seq<(Seq<u8>, Seq<(Seq<u8>, AccessInfo)>)> {
    if has_key(parts, partition) {
        let at = position(parts, partition);
        parts.update(at, (partition, write_into(parts[at].1, key, redundant)))
    } else {
        parts.push((partition, write_into(Seq::empty(), key, redundant)))
    }
}

/// The record of `key` in `partition`, if it has one.
pub open spec fn child_record_of(
    parts: Seq<(Seq<u8>, Seq<(Seq<u8>, AccessInfo)>)>,
    partition: Seq<u8>,
    key: Seq<u8>,
) -> Option<AccessInfo> {
    if has_key(parts, partition) {
        record_of(parts[position(parts, partition)].1, key)
    } else {
        None
    }
}

/// Recording an access never makes a partition or a key occur twice.
pub proof fn lemma_child_recording_keeps_wf(
    parts: Seq<(Seq<u8>, Seq<(Seq<u8>, AccessInfo)>)>,
    partition: Seq<u8>,
    key: Seq<u8>,
    redundant: bool,
)
    requires
        partitions_wf(parts),
    ensures
        partitions_wf(child_read_into(parts, partition, key, redundant)),
        partitions_wf(child_write_into(parts, partition, key, redundant)),
{
    let own = if has_key(parts, partition) {
        parts[position(parts, partition)].1
    } else {
        Seq::empty()
    };
    lemma_recording_keeps_keys_distinct(own, key, redundant);
}

/// A read in a partition changes the record of its own key there and no
/// other record of any partition.
pub proof fn lemma_child_record_after_read(
    parts: Seq<(Seq<u8>, Seq<(Seq<u8>, AccessInfo)>)>,
    partition: Seq<u8>,
    key: Seq<u8>,
    redundant: bool,
    other_partition: Seq<u8>,
    other_key: Seq<u8>,
)
    requires
        partitions_wf(parts),
    ensures
        child_record_of(child_read_into(parts, partition, key, redundant), partition, key)
            == Some(
            match child_record_of(parts, partition, key) {
                Some(info) => info.after_read(redundant),
                None => AccessInfo::read_spec(redundant),
            },
        ),
        other_partition != partition || other_key != key ==> child_record_of(
            child_read_into(parts, partition, key, redundant),
            other_partition,
            other_key,
        ) == child_record_of(parts, other_partition, other_key),
{
    let after = child_read_into(parts, partition, key, redundant);
    let known = has_key(parts, partition);
    let at = if known {
        position(parts, partition)
    } else {
        parts.len() as int
    };
    let own = if known {
        parts[at].1
    } else {
        Seq::empty()
    };
    lemma_position_is_unique(after, partition, at);
    lemma_record_after_read(own, key, redundant, other_key);
    if other_partition != partition {
        if has_key(parts, other_partition) {
            let there = position(parts, other_partition);
            lemma_position_is_unique(after, other_partition, there);
        }
    }
}

/// A write in a partition changes the record of its own key there and no
/// other record of any partition.
pub proof fn lemma_child_record_after_write(
    parts: Seq<(Seq<u8>, Seq<(Seq<u8>, AccessInfo)>)>,
    partition: Seq<u8>,
    key: Seq<u8>,
    redundant: bool,
    other_partition: Seq<u8>,
    other_key: Seq<u8>,
)
    requires
        partitions_wf(parts),
    ensures
        child_record_of(child_write_into(parts, partition, key, redundant), partition, key)
            == Some(
            match child_record_of(parts, partition, key) {
                Some(info) => info.after_write(redundant),
                None => AccessInfo::written_spec(redundant),
            },
        ),
        other_partition != partition || other_key != key ==> child_record_of(
            child_write_into(parts, partition, key, redundant),
            other_partition,
            other_key,
        ) == child_record_of(parts, other_partition, other_key),
{
    let after = child_write_into(parts, partition, key, redundant);
    let known = has_key(parts, partition);
    let at = if known {
        position(parts, partition)
    } else {
        parts.len() as int
    };
    let own = if known {
        parts[at].1
    } else {
        Seq::empty()
    };
    lemma_position_is_unique(after, partition, at);
    lemma_record_after_write(own, key, redundant, other_key);
    if other_partition != partition {
        if has_key(parts, other_partition) {
            let there = position(parts, other_partition);
            lemma_position_is_unique(after, other_partition, there);
        }
    }
}

/// Once a key has a record in its partition, the accesses of a repeat
/// execution change nothing at all.
pub proof fn lemma_child_repeat_changes_nothing(
    parts: Seq<(Seq<u8>, Seq<(Seq<u8>, AccessInfo)>)>,
    partition: Seq<u8>,
    key: Seq<u8>,
)
    requires
        child_record_of(parts, partition, key) is Some,
    ensures
        child_read_into(parts, partition, key, true) == parts,
        child_write_into(parts, partition, key, true) == parts,
{
    let own = parts[position(parts, partition)].1;
    lemma_repeat_changes_nothing(own, key);
}

/// Once the write of a key is important, no read in its partition changes
/// anything at all.
pub proof fn lemma_child_important_write_outranks_reads(
    parts: Seq<(Seq<u8>, Seq<(Seq<u8>, AccessInfo)>)>,
    partition: Seq<u8>,
    key: Seq<u8>,
    redundant: bool,
)
    requires
        child_record_of(parts, partition, key) matches Some(info) && info.written
            == AccessType::Important,
    ensures
        child_read_into(parts, partition, key, redundant) == parts,
{
    let own = parts[position(parts, partition)].1;
    lemma_important_write_outranks_reads(own, key, redundant);
}

/// The access records of the child keyspaces.
pub struct ChildTable {
    parts: Vec<(Vec<u8>, AccessTable)>,
}

impl View for ChildTable {
    type V = Seq<(Seq<u8>, Seq<(Seq<u8>, AccessInfo)>)>;

    closed spec fn view(&self) -> Seq<(Seq<u8>, Seq<(Seq<u8>, AccessInfo)>)> {
        Seq::new(self.parts@.len(), |p: int| (self.parts@[p].0@, self.parts@[p].1@))
    }
}

impl ChildTable {
    /// No partition has two tables, and no key has two records in one.
    pub open spec fn wf(&self) -> bool {
        partitions_wf(self@)
    }

    /// No partitions.
    pub fn new() -> (table: ChildTable)
        ensures
            table.wf(),
            table@ == Seq::<(Seq<u8>, Seq<(Seq<u8>, AccessInfo)>)>::empty(),
    {
        ChildTable { parts: Vec::new() }
    }

    /// The number of partitions.
    pub fn len(&self) -> (len: usize)
        ensures
            len == self@.len(),
    {
        self.parts.len()
    }

    /// The identifier of the partition at `at`.
    pub fn partition_at(&self, at: usize) -> (partition: &Vec<u8>)
        requires
            at < self@.len(),
        ensures
            partition@ == self@[at as int].0,
    {
        &self.parts[at].0
    }

    /// The records of the partition at `at`.
    pub fn table_at(&self, at: usize) -> (table: &AccessTable)
        requires
            at < self@.len(),
        ensures
            table@ == self@[at as int].1,
    {
        &self.parts[at].1
    }

    /// The record of `key` in `partition`, if it has one.
    pub fn get(&self, partition: &Vec<u8>, key: &Vec<u8>) -> (info: Option<AccessInfo>)
        requires
            self.wf(),
        ensures
            info == child_record_of(self@, partition@, key@),
    {
        match find_key(&self.parts, partition) {
            Some(at) => {
                assert(self@[at as int].0 == partition@);
                self.parts[at].1.get(key)
            },
            None => {
                None
            },
        }
    }

    /// Folds a read of `key` in `partition` into the table.
    pub fn note_read(&mut self, partition: Vec<u8>, key: Vec<u8>, redundant: bool)
        requires
            old(self).wf(),
        ensures
            final(self).wf(),
            final(self)@ == child_read_into(old(self)@, partition@, key@, redundant),
    {
        match find_key(&self.parts, &partition) {
            Some(at) => {
                assert(self@[at as int].0 == partition@);
                self.parts[at].1.note_read(key, redundant);
            },
            None => {
                let mut table = AccessTable::new();
                table.note_read(key, redundant);
                self.parts.push((partition, table));
            },
        }
        assert(self@ =~= child_read_into(old(self)@, partition@, key@, redundant));
    }

    /// Folds a write of `key` in `partition` into the table.
    pub fn note_write(&mut self, partition: Vec<u8>, key: Vec<u8>, redundant: bool)
        requires
            old(self).wf(),
        ensures
            final(self).wf(),
            final(self)@ == child_write_into(old(self)@, partition@, key@, redundant),
    {
        match find_key(&self.parts, &partition) {
            Some(at) => {
                assert(self@[at as int].0 == partition@);
                self.parts[at].1.note_write(key, redundant);
            },
            None => {
                let mut table = AccessTable::new();
                table.note_write(key, redundant);
                self.parts.push((partition, table));
            },
        }
        assert(self@ =~= child_write_into(old(self)@, partition@, key@, redundant));
    }

    /// Forgets every partition.
    pub fn clear(&mut self)
        ensures
            final(self).wf(),
            final(self)@ == Seq::<(Seq<u8>, Seq<(Seq<u8>, AccessInfo)>)>::empty(),
    {
        self.parts.clear();
    }
}

} // verus!
