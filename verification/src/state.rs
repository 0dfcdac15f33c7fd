//! What a tracker holds, as plain mathematical values, and what each of its
//! operations makes of it.

use std::time::Instant;
use vstd::prelude::*;
use crate::access::AccessInfo;
use crate::keyed::distinct_keys;
use crate::partitions::{child_read_into, child_write_into, partitions_wf};
use crate::records::{read_into, write_into};
use crate::summary::{child_records, countable, summarize, Bucket};

verus! {

/// The sum of `samples`, as a mathematical number.
pub open spec fn total(samples: Seq<u128>) -> nat
    decreases samples.len(),
{
    if samples.len() == 0 {
        0
    } else {
        (total(samples.drop_last()) + samples.last()) as nat
    }
}

/// `n` where it fits in 128 bits, the largest 128-bit number where it does not.
pub open spec fn capped(n: nat) -> u128 {
    if n > u128::MAX {
        u128::MAX
    } else {
        n as u128
    }
}

/// Everything a tracker holds, as plain mathematical values.
pub struct TrackerState {
    /// Start of the interval that `elapsed` measures.
    pub instant: Instant,
    /// How many executions are in progress, one inside the other: 0 when
    /// idle, 1 inside the meaningful execution, 2 or more inside a repeat.
    pub depth: nat,
    /// Start of the repeat window that is open or was open last.
    pub redundant: Instant,
    /// The length in nanoseconds of each repeat window that was closed.
    pub results: Seq<u128>,
    /// The records of the flat keyspace.
    pub main_keys: Seq<(Seq<u8>, AccessInfo)>,
    /// The records of the child keyspaces, by partition.
    pub child_keys: Seq<(Seq<u8>, Seq<(Seq<u8>, AccessInfo)>)>,
}

impl TrackerState {
    /// No key has two records in its keyspace, and no partition two tables.
    pub open spec fn wf(self) -> bool {
        &&& distinct_keys(self.main_keys)
        &&& partitions_wf(self.child_keys)
    }

    /// Whether an access made now belongs to a repeat execution.
    pub open spec fn is_redundant(self) -> bool {
        self.depth > 1
    }

    /// The state after the clock was read for a new measured interval.
    pub open spec fn restarted(self, now: Instant) -> TrackerState {
        TrackerState { instant: now, ..self }
    }

    /// The state after a read of `key` in the flat keyspace.
    pub open spec fn read_key(self, key: Seq<u8>) -> TrackerState {
        TrackerState { main_keys: read_into(self.main_keys, key, self.is_redundant()), ..self }
    }

    /// The state after a write of `key` in the flat keyspace.
    pub open spec fn changed_key(self, key: Seq<u8>) -> TrackerState {
        TrackerState { main_keys: write_into(self.main_keys, key, self.is_redundant()), ..self }
    }

    /// The state after a read of `key` in the child keyspace `partition`.
    pub open spec fn read_child_key(self, partition: Seq<u8>, key: Seq<u8>) -> TrackerState {
        TrackerState {
            child_keys: child_read_into(self.child_keys, partition, key, self.is_redundant()),
            ..self
        }
    }

    /// The state after a write of `key` in the child keyspace `partition`.
    pub open spec fn changed_child_key(self, partition: Seq<u8>, key: Seq<u8>) -> TrackerState {
        TrackerState {
            child_keys: child_write_into(self.child_keys, partition, key, self.is_redundant()),
            ..self
        }
    }

    /// The state after an execution was entered at the clock reading `now`.
    ///
    /// From idle the meaningful execution begins. From there the first
    /// repeat window opens and `now` becomes its start. Deeper entries only
    /// count.
    pub open spec fn entered(self, now: Instant) -> TrackerState {
        if self.depth == 0 {
            TrackerState { depth: 1, ..self }
        } else if self.depth == 1 {
            TrackerState { depth: 2, redundant: now, ..self }
        } else {
            TrackerState { depth: self.depth + 1, ..self }
        }
    }

    /// The state after an execution was left, `elapsed` nanoseconds after
    /// the start of the repeat window.
    ///
    /// Leaving the outermost repeat closes the window and records `elapsed`.
    /// Every other exit only counts. An idle tracker has nothing to leave
    /// and stays as it is.
    pub open spec fn exited(self, elapsed: u128) -> TrackerState {
        if self.depth == 2 {
            TrackerState { depth: 1, results: self.results.push(elapsed), ..self }
        } else if self.depth > 0 {
            TrackerState { depth: (self.depth - 1) as nat, ..self }
        } else {
            self
        }
    }

    /// The time spent in repeat windows: the sum of the samples, or the
    /// largest 128-bit number where the sum is larger than that.
    pub open spec fn redundant_time(self) -> u128 {
        capped(total(self.results))
    }

    /// All records under their full storage addresses: those of the flat
    /// keyspace, then those of the partitions.
    pub open spec fn records(self) -> Seq<(Seq<u8>, AccessInfo)> {
        self.main_keys + child_records(self.child_keys)
    }

    /// The summary of all records.
    pub open spec fn summary(self) -> Seq<Bucket> {
        summarize(self.records())
    }

    /// Whether the summary can be held in 32-bit counts: under no prefix
    /// stand more important reads or writes than such a count can hold.
    pub open spec fn summable(self) -> bool {
        countable(self.records())
    }

    /// Whether the summary can be encoded: its counts fit in 32 bits, and
    /// so does the number of its lines.
    pub open spec fn reportable(self) -> bool {
        self.summable() && self.summary().len() <= u32::MAX
    }

    /// The state after the access records were dropped.
    pub open spec fn without_keys(self) -> TrackerState {
        TrackerState { main_keys: Seq::empty(), child_keys: Seq::empty(), ..self }
    }

    /// The state after the depth and the samples were reset.
    pub open spec fn without_samples(self) -> TrackerState {
        TrackerState { depth: 0, results: Seq::empty(), ..self }
    }
}

/// One step in the history of a tracker: a call of one of its operations,
/// with the clock reading that the call took where it took one.
pub enum Step {
    /// `instant`, at the clock reading `now`.
    Restart { now: Instant },
    /// `before_block`, at the clock reading `now`.
    Enter { now: Instant },
    /// `after_block`, `elapsed` nanoseconds after the start of the window.
    Exit { elapsed: u128 },
    /// `reading_key`.
    Read { key: Seq<u8> },
    /// `changing_key`.
    Write { key: Seq<u8> },
    /// `reading_child_key`.
    ChildRead { partition: Seq<u8>, key: Seq<u8> },
    /// `changing_child_key`.
    ChildWrite { partition: Seq<u8>, key: Seq<u8> },
    /// `reset_storage_tracker`.
    ResetKeys,
    /// `reset_redundant`.
    ResetSamples,
}

impl Step {
    /// The storage address whose access the step records, if it records one.
    pub open spec fn address(self) -> Option<Seq<u8>> {
        match self {
            Step::Read { key } => Some(key),
            Step::Write { key } => Some(key),
            Step::ChildRead { partition, key } => Some(partition + key),
            Step::ChildWrite { partition, key } => Some(partition + key),
            _ => None,
        }
    }
}

impl TrackerState {
    /// The state after `step`.
    pub open spec fn after(self, step: Step) -> TrackerState {
        match step {
            Step::Restart { now } => self.restarted(now),
            Step::Enter { now } => self.entered(now),
            Step::Exit { elapsed } => self.exited(elapsed),
            Step::Read { key } => self.read_key(key),
            Step::Write { key } => self.changed_key(key),
            Step::ChildRead { partition, key } => self.read_child_key(partition, key),
            Step::ChildWrite { partition, key } => self.changed_child_key(partition, key),
            Step::ResetKeys => self.without_keys(),
            Step::ResetSamples => self.without_samples(),
        }
    }

    /// The state after `steps`, one after the other.
    pub open spec fn after_all(self, steps: Seq<Step>) -> TrackerState
        decreases steps.len(),
    {
        if steps.len() == 0 {
            self
        } else {
            self.after_all(steps.drop_last()).after(steps.last())
        }
    }
}

} // verus!
