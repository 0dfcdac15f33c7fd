//! What holds of every tracker, whatever was recorded in it.

use std::time::Instant;
use vstd::prelude::*;
use crate::access::AccessType;
use crate::keyed::has_key;
use crate::partitions::{
    child_record_of, lemma_child_important_write_outranks_reads, lemma_child_record_after_read,
    lemma_child_record_after_write, lemma_child_repeat_changes_nothing,
};
use crate::records::{
    lemma_important_write_outranks_reads, lemma_record_after_read, lemma_record_after_write,
    lemma_repeat_changes_nothing, record_of,
};
use crate::summary::{
    address_prefix, bucket_for, child_records, important_reads, important_writes,
    lemma_child_record_origin, lemma_counts_add, lemma_summary_line,
    lemma_unrecorded_prefix_has_no_line,
};
use crate::state::{capped, total, Step, TrackerState};

verus! {

/// No step of the tracker makes a key or a partition occur twice.
pub proof fn lemma_steps_keep_wf(
    state: TrackerState,
    partition: Seq<u8>,
    key: Seq<u8>,
    now: Instant,
    elapsed: u128,
)
    requires
        state.wf(),
    ensures
        state.restarted(now).wf(),
        state.entered(now).wf(),
        state.exited(elapsed).wf(),
        state.read_key(key).wf(),
        state.changed_key(key).wf(),
        state.read_child_key(partition, key).wf(),
        state.changed_child_key(partition, key).wf(),
        state.without_keys().wf(),
        state.without_samples().wf(),
{
}

/// No step but the reset of the records takes a record away or lowers one
/// of its two states: what was important stays important.
pub proof fn lemma_importance_is_kept(state: TrackerState, step: Step, key: Seq<u8>)
    requires
        state.wf(),
        step != Step::ResetKeys,
        record_of(state.main_keys, key) is Some,
    ensures
        record_of(state.after(step).main_keys, key) is Some,
        record_of(state.after(step).main_keys, key)->0.read.rank() >= record_of(
            state.main_keys,
            key,
        )->0.read.rank(),
        record_of(state.after(step).main_keys, key)->0.written.rank() >= record_of(
            state.main_keys,
            key,
        )->0.written.rank(),
{
    match step {
        Step::Read { key: read } => {
            lemma_record_after_read(state.main_keys, read, state.is_redundant(), key);
        },
        Step::Write { key: written } => {
            lemma_record_after_write(state.main_keys, written, state.is_redundant(), key);
        },
        _ => {},
    }
}

/// The same in a child keyspace: no step but the reset of the records takes
/// a record away or lowers one of its two states.
pub proof fn lemma_child_importance_is_kept(
    state: TrackerState,
    step: Step,
    partition: Seq<u8>,
    key: Seq<u8>,
)
    requires
        state.wf(),
        step != Step::ResetKeys,
        child_record_of(state.child_keys, partition, key) is Some,
    ensures
        child_record_of(state.after(step).child_keys, partition, key) is Some,
        child_record_of(state.after(step).child_keys, partition, key)->0.read.rank()
            >= child_record_of(state.child_keys, partition, key)->0.read.rank(),
        child_record_of(state.after(step).child_keys, partition, key)->0.written.rank()
            >= child_record_of(state.child_keys, partition, key)->0.written.rank(),
{
    match step {
        Step::ChildRead { partition: in_partition, key: read } => {
            lemma_child_record_after_read(
                state.child_keys,
                in_partition,
                read,
                state.is_redundant(),
                partition,
                key,
            );
        },
        Step::ChildWrite { partition: in_partition, key: written } => {
            lemma_child_record_after_write(
                state.child_keys,
                in_partition,
                written,
                state.is_redundant(),
                partition,
                key,
            );
        },
        _ => {},
    }
}

/// A key of the flat keyspace that no step reads or writes has no record
/// after the steps, if it had none before them.
pub proof fn lemma_unrecorded_key_is_absent(start: TrackerState, steps: Seq<Step>, key: Seq<u8>)
    requires
        !has_key(start.main_keys, key),
        forall|i: int|
            0 <= i < steps.len() ==> (#[trigger] steps[i]) != (Step::Read { key }) && steps[i] != (
            Step::Write { key }),
    ensures
        !has_key(start.after_all(steps).main_keys, key),
    decreases steps.len(),
{
    if steps.len() > 0 {
        assert forall|i: int| 0 <= i < steps.drop_last().len() implies (
        #[trigger] steps.drop_last()[i]) != (Step::Read { key }) && steps.drop_last()[i] != (
        Step::Write { key }) by {}
        lemma_unrecorded_key_is_absent(start, steps.drop_last(), key);
    }
}

/// No record of the tracker stands under `prefix`.
pub open spec fn nothing_under(state: TrackerState, prefix: Seq<u8>) -> bool {
    &&& forall|k: int|
        0 <= k < state.main_keys.len() ==> address_prefix((#[trigger] state.main_keys[k]).0)
            != prefix
    &&& forall|p: int, k: int|
        0 <= p < state.child_keys.len() && 0 <= k < state.child_keys[p].1.len()
            ==> address_prefix(state.child_keys[p].0 + #[trigger] state.child_keys[p].1[k].0)
            != prefix
}

/// A step that records no access under `prefix` puts no record under it.
pub proof fn lemma_step_keeps_nothing_under(state: TrackerState, step: Step, prefix: Seq<u8>)
    requires
        nothing_under(state, prefix),
        step.address() matches Some(address) ==> address_prefix(address) != prefix,
    ensures
        nothing_under(state.after(step), prefix),
{
}

/// A prefix under which no step records an access has no line in the
/// summary after the steps, if no record stood under it before them.
pub proof fn lemma_unrecorded_prefix_is_not_reported(
    start: TrackerState,
    steps: Seq<Step>,
    prefix: Seq<u8>,
)
    requires
        nothing_under(start, prefix),
        forall|i: int|
            0 <= i < steps.len() ==> ((#[trigger] steps[i]).address() matches Some(address)
                ==> address_prefix(address) != prefix),
    ensures
        nothing_under(start.after_all(steps), prefix),
        bucket_for(start.after_all(steps).summary(), prefix) is None,
    decreases steps.len(),
{
    if steps.len() > 0 {
        lemma_unrecorded_prefix_is_not_reported(start, steps.drop_last(), prefix);
        lemma_step_keeps_nothing_under(start.after_all(steps.drop_last()), steps.last(), prefix);
    }
    let end = start.after_all(steps);
    assert forall|j: int| 0 <= j < end.records().len() implies address_prefix(
        (#[trigger] end.records()[j]).0,
    ) != prefix by {
        if j >= end.main_keys.len() {
            lemma_child_record_origin(end.child_keys, j - end.main_keys.len());
        }
    }
    lemma_unrecorded_prefix_has_no_line(end.records(), prefix);
}

/// A read by the meaningful execution makes the read of its key important,
/// unless the write of the key is important already. The same read by a
/// repeat execution afterwards leaves the tracker exactly as it is.
pub proof fn lemma_read_then_repeat(state: TrackerState, key: Seq<u8>, later: TrackerState)
    requires
        state.wf(),
        !state.is_redundant(),
        record_of(state.main_keys, key) matches Some(info) ==> info.written
            != AccessType::Important,
        later.main_keys == state.read_key(key).main_keys,
        later.is_redundant(),
    ensures
        record_of(state.read_key(key).main_keys, key) matches Some(info) && info.read
            == AccessType::Important,
        later.read_key(key) == later,
{
    lemma_record_after_read(state.main_keys, key, false, key);
    lemma_repeat_changes_nothing(later.main_keys, key);
}

/// The same in a child keyspace: a read by the meaningful execution makes
/// the read of its key important, unless the write of the key is important
/// already, and the same read by a repeat execution changes nothing.
pub proof fn lemma_child_read_then_repeat(
    state: TrackerState,
    partition: Seq<u8>,
    key: Seq<u8>,
    later: TrackerState,
)
    requires
        state.wf(),
        !state.is_redundant(),
        child_record_of(state.child_keys, partition, key) matches Some(info) ==> info.written
            != AccessType::Important,
        later.child_keys == state.read_child_key(partition, key).child_keys,
        later.is_redundant(),
    ensures
        child_record_of(
            state.read_child_key(partition, key).child_keys,
            partition,
            key,
        ) matches Some(info) && info.read == AccessType::Important,
        later.read_child_key(partition, key) == later,
{
    lemma_child_record_after_read(state.child_keys, partition, key, false, partition, key);
    lemma_child_repeat_changes_nothing(later.child_keys, partition, key);
}

/// After a write of a key its record says whether the write is important.
/// Where it is, a read of the same key leaves the tracker exactly as it is,
/// at whatever depth the read is made.
pub proof fn lemma_write_then_read(state: TrackerState, key: Seq<u8>, later: TrackerState)
    requires
        state.wf(),
        later.main_keys == state.changed_key(key).main_keys,
    ensures
        record_of(later.main_keys, key) is Some,
        !state.is_redundant() ==> record_of(later.main_keys, key)->0.written
            == AccessType::Important,
        record_of(later.main_keys, key)->0.written == AccessType::Important ==> later.read_key(key)
            == later,
{
    lemma_record_after_write(state.main_keys, key, state.is_redundant(), key);
    if record_of(later.main_keys, key)->0.written == AccessType::Important {
        lemma_important_write_outranks_reads(later.main_keys, key, later.is_redundant());
    }
}

/// The same in a child keyspace: where the write of a key is important, a
/// read of the same key leaves the tracker exactly as it is.
pub proof fn lemma_child_write_then_read(
    state: TrackerState,
    partition: Seq<u8>,
    key: Seq<u8>,
    later: TrackerState,
)
    requires
        state.wf(),
        later.child_keys == state.changed_child_key(partition, key).child_keys,
    ensures
        child_record_of(later.child_keys, partition, key) is Some,
        !state.is_redundant() ==> child_record_of(later.child_keys, partition, key)->0.written
            == AccessType::Important,
        child_record_of(later.child_keys, partition, key)->0.written == AccessType::Important
            ==> later.read_child_key(partition, key) == later,
{
    lemma_child_record_after_write(
        state.child_keys,
        partition,
        key,
        state.is_redundant(),
        partition,
        key,
    );
    if child_record_of(later.child_keys, partition, key)->0.written == AccessType::Important {
        lemma_child_important_write_outranks_reads(
            later.child_keys,
            partition,
            key,
            later.is_redundant(),
        );
    }
}

/// Adding one more sample to the total is a saturating addition.
pub proof fn lemma_total_saturates(samples: Seq<u128>, elapsed: u128)
    ensures
        capped(total(samples.push(elapsed))) == if capped(total(samples)) + elapsed > u128::MAX {
            u128::MAX
        } else {
            (capped(total(samples)) + elapsed) as u128
        },
{
    assert(samples.push(elapsed).drop_last() =~= samples);
}

/// Entering twice and leaving twice from idle measures one window: the
/// window starts at the second entry, the tracker is idle again, and the one
/// sample that was added is what the clock said when the inner execution was
/// left. With no samples before, that is the redundant time.
pub proof fn lemma_one_window_one_sample(
    state: TrackerState,
    outer_start: Instant,
    inner_start: Instant,
    inner_elapsed: u128,
    outer_elapsed: u128,
)
    requires
        state.depth == 0,
    ensures
        ({
            let inside = state.entered(outer_start).entered(inner_start);
            let after = inside.exited(inner_elapsed).exited(outer_elapsed);
            &&& inside.depth == 2
            &&& inside.redundant == inner_start
            &&& after.depth == 0
            &&& after.results == state.results.push(inner_elapsed)
            &&& state.results.len() == 0 ==> after.redundant_time() == inner_elapsed
        }),
{
    lemma_total_saturates(state.results, inner_elapsed);
}

/// Executions nested more than two deep add no sample and do not move the
/// start of the open window.
pub proof fn lemma_deeper_nesting_is_silent(state: TrackerState, now: Instant, elapsed: u128)
    requires
        state.depth >= 2,
    ensures
        state.entered(now).results == state.results,
        state.entered(now).redundant == state.redundant,
        state.entered(now).exited(elapsed) == state,
{
}

/// The two resets do not touch each other's part of the tracker: dropping
/// the records keeps depth, samples and clock anchors, dropping the samples
/// keeps the records and the clock anchors, and the order of the two makes
/// no difference.
pub proof fn lemma_resets_are_independent(state: TrackerState)
    ensures
        state.without_keys().depth == state.depth,
        state.without_keys().results == state.results,
        state.without_keys().instant == state.instant,
        state.without_keys().redundant == state.redundant,
        state.without_keys().main_keys.len() == 0,
        state.without_keys().child_keys.len() == 0,
        state.without_samples().main_keys == state.main_keys,
        state.without_samples().child_keys == state.child_keys,
        state.without_samples().instant == state.instant,
        state.without_samples().redundant == state.redundant,
        state.without_samples().depth == 0,
        state.without_samples().results.len() == 0,
        state.without_keys().without_samples() == state.without_samples().without_keys(),
{
}

/// Flat and partitioned keys whose addresses share a prefix are counted
/// together: each count of the line is the count over the flat records plus
/// the count over the records of the partitions.
pub proof fn lemma_colliding_prefixes_merge(state: TrackerState, prefix: Seq<u8>)
    ensures
        ({
            let reads = important_reads(state.main_keys, prefix) + important_reads(
                child_records(state.child_keys),
                prefix,
            );
            let writes = important_writes(state.main_keys, prefix) + important_writes(
                child_records(state.child_keys),
                prefix,
            );
            match bucket_for(state.summary(), prefix) {
                Some(line) => line.prefix == prefix && line.read == reads && line.written
                    == writes && reads + writes > 0,
                None => reads + writes == 0,
            }
        }),
{
    lemma_counts_add(state.main_keys, child_records(state.child_keys), prefix);
    lemma_summary_line(state.records(), prefix);
}

} // verus!
