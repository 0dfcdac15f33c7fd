//! The access records of one keyspace, in the order in which the keys were
//! first seen.

use vstd::prelude::*;
use crate::access::{AccessInfo, AccessType};
use crate::keyed::{distinct_keys, find_key, has_key, lemma_position_is_unique, position};

verus! {

/// The records after a read of `key`: a new key is appended with the record
/// of a first read, a known key has the read folded into its record in place.
pub open spec fn read_into(
    entries: Seq<(Seq<u8>, AccessInfo)>,
    key: Seq<u8>,
    redundant: bool,
) -> Seq<(Seq<u8>, AccessInfo)> {
    if has_key(entries, key) {
        let at = position(entries, key);
        entries.update(at, (key, entries[at].1.after_read(redundant)))
    } else {
        entries.push((key, AccessInfo::read_spec(redundant)))
    }
}

/// The records after a write of `key`: a new key is appended with the record
/// of a first write, a known key has the write folded into its record in place.
pub open spec fn write_into(
    entries: Seq<(Seq<u8>, AccessInfo)>,
    key: Seq<u8>,
    redundant: bool,
) -> Seq<(Seq<u8>, AccessInfo)> {
    if has_key(entries, key) {
        let at = position(entries, key);
        entries.update(at, (key, entries[at].1.after_write(redundant)))
    } else {
        entries.push((key, AccessInfo::written_spec(redundant)))
    }
}

/// The record of `key` in `entries`, if it has one.
pub open spec fn record_of(entries: Seq<(Seq<u8>, AccessInfo)>, key: Seq<u8>) -> Option<
    AccessInfo,
> {
    if has_key(entries, key) {
        Some(entries[position(entries, key)].1)
    } else {
        None
    }
}

/// Recording an access never makes a key occur twice.
pub proof fn lemma_recording_keeps_keys_distinct(
    entries: Seq<(Seq<u8>, AccessInfo)>,
    key: Seq<u8>,
    redundant: bool,
)
    requires
        distinct_keys(entries),
    ensures
        distinct_keys(read_into(entries, key, redundant)),
        distinct_keys(write_into(entries, key, redundant)),
{
}

/// A read changes the record of its own key and of no other: the key's
/// record becomes what `after_read` makes of it, or the record of a first
/// read where the key had none, and every other key keeps the record it had
/// or stays without one.
pub proof fn lemma_record_after_read(
    entries: Seq<(Seq<u8>, AccessInfo)>,
    key: Seq<u8>,
    redundant: bool,
    other: Seq<u8>,
)
    requires
        distinct_keys(entries),
    ensures
        record_of(read_into(entries, key, redundant), key) == Some(
            match record_of(entries, key) {
                Some(info) => info.after_read(redundant),
                None => AccessInfo::read_spec(redundant),
            },
        ),
        other != key ==> record_of(read_into(entries, key, redundant), other) == record_of(
            entries,
            other,
        ),
{
    let after = read_into(entries, key, redundant);
    let at = if has_key(entries, key) {
        position(entries, key)
    } else {
        entries.len() as int
    };
    lemma_position_is_unique(after, key, at);
    if other != key {
        if has_key(entries, other) {
            let there = position(entries, other);
            lemma_position_is_unique(after, other, there);
        }
    }
}

/// A write changes the record of its own key and of no other: the key's
/// record becomes what `after_write` makes of it, or the record of a first
/// write where the key had none, and every other key keeps the record it had
/// or stays without one.
pub proof fn lemma_record_after_write(
    entries: Seq<(Seq<u8>, AccessInfo)>,
    key: Seq<u8>,
    redundant: bool,
    other: Seq<u8>,
)
    requires
        distinct_keys(entries),
    ensures
        record_of(write_into(entries, key, redundant), key) == Some(
            match record_of(entries, key) {
                Some(info) => info.after_write(redundant),
                None => AccessInfo::written_spec(redundant),
            },
        ),
        other != key ==> record_of(write_into(entries, key, redundant), other) == record_of(
            entries,
            other,
        ),
{
    let after = write_into(entries, key, redundant);
    let at = if has_key(entries, key) {
        position(entries, key)
    } else {
        entries.len() as int
    };
    lemma_position_is_unique(after, key, at);
    if other != key {
        if has_key(entries, other) {
            let there = position(entries, other);
            lemma_position_is_unique(after, other, there);
        }
    }
}

/// Once a key has a record, the accesses of a repeat execution change
/// nothing at all.
pub proof fn lemma_repeat_changes_nothing(entries: Seq<(Seq<u8>, AccessInfo)>, key: Seq<u8>)
    requires
        has_key(entries, key),
    ensures
        read_into(entries, key, true) == entries,
        write_into(entries, key, true) == entries,
{
}

/// Once the write of a key is important, no read changes anything at all.
pub proof fn lemma_important_write_outranks_reads(
    entries: Seq<(Seq<u8>, AccessInfo)>,
    key: Seq<u8>,
    redundant: bool,
)
    requires
        record_of(entries, key) matches Some(info) && info.written == AccessType::Important,
    ensures
        read_into(entries, key, redundant) == entries,
{
}

/// The access records of one keyspace.
pub struct AccessTable {
    entries: Vec<(Vec<u8>, AccessInfo)>,
}

impl View for AccessTable {
    type V = Seq<(Seq<u8>, AccessInfo)>;

    closed spec fn view(&self) -> Seq<(Seq<u8>, AccessInfo)> {
        Seq::new(self.entries@.len(), |i: int| (self.entries@[i].0@, self.entries@[i].1))
    }
}

impl AccessTable {
    /// No key has two records.
    pub open spec fn wf(&self) -> bool {
        distinct_keys(self@)
    }

    /// A table without records.
    pub fn new() -> (table: AccessTable)
        ensures
            table.wf(),
            table@ == Seq::<(Seq<u8>, AccessInfo)>::empty(),
    {
        AccessTable { entries: Vec::new() }
    }

    /// The number of keys that have a record.
    pub fn len(&self) -> (len: usize)
        ensures
            len == self@.len(),
    {
        self.entries.len()
    }

    /// The key of the record at `at`.
    pub fn key_at(&self, at: usize) -> (key: &Vec<u8>)
        requires
            at < self@.len(),
        ensures
            key@ == self@[at as int].0,
    {
        &self.entries[at].0
    }

    /// The record at `at`.
    pub fn info_at(&self, at: usize) -> (info: AccessInfo)
        requires
            at < self@.len(),
        ensures
            info == self@[at as int].1,
    {
        self.entries[at].1
    }

    /// The record of `key`, if it has one.
    pub fn get(&self, key: &Vec<u8>) -> (info: Option<AccessInfo>)
        requires
            self.wf(),
        ensures
            info == record_of(self@, key@),
    {
        match find_key(&self.entries, key) {
            Some(at) => {
                assert(self@[at as int].0 == key@);
                Some(self.entries[at].1)
            },
            None => {
                None
            },
        }
    }

    /// Folds a read of `key` into the table.
    pub fn note_read(&mut self, key: Vec<u8>, redundant: bool)
        requires
            old(self).wf(),
        ensures
            final(self).wf(),
            final(self)@ == read_into(old(self)@, key@, redundant),
    {
        match find_key(&self.entries, &key) {
            Some(at) => {
                assert(self@[at as int].0 == key@);
                self.entries[at].1.note_read(redundant);
            },
            None => {
                self.entries.push((key, AccessInfo::read(redundant)));
            },
        }
        assert(self@ =~= read_into(old(self)@, key@, redundant));
    }

    /// Folds a write of `key` into the table.
    pub fn note_write(&mut self, key: Vec<u8>, redundant: bool)
        requires
            old(self).wf(),
        ensures
            final(self).wf(),
            final(self)@ == write_into(old(self)@, key@, redundant),
    {
        match find_key(&self.entries, &key) {
            Some(at) => {
                assert(self@[at as int].0 == key@);
                self.entries[at].1.note_write(redundant);
            },
            None => {
                self.entries.push((key, AccessInfo::written(redundant)));
            },
        }
        assert(self@ =~= write_into(old(self)@, key@, redundant));
    }

    /// Forgets every record.
    pub fn clear(&mut self)
        ensures
            final(self).wf(),
            final(self)@ == Seq::<(Seq<u8>, AccessInfo)>::empty(),
    {
        self.entries.clear();
    }
}

} // verus!
