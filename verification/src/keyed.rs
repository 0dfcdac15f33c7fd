//! Lists of entries keyed by byte strings: what it means for a key to be in
//! such a list, and the search that finds it.

use vstd::prelude::*;

verus! {

/// Whether some entry of `entries` has the key `key`.
pub open spec fn has_key<V>(entries: Seq<(Seq<u8>, V)>, key: Seq<u8>) -> bool {
    exists|i: int| 0 <= i < entries.len() && (#[trigger] entries[i]).0 == key
}

/// The place of `key` in `entries`, where it has one.
pub open spec fn position<V>(entries: Seq<(Seq<u8>, V)>, key: Seq<u8>) -> int {
    choose|i: int| 0 <= i < entries.len() && (#[trigger] entries[i]).0 == key
}

/// No two entries of `entries` have the same key.
pub open spec fn distinct_keys<V>(entries: Seq<(Seq<u8>, V)>) -> bool {
    forall|i: int, j: int|
        0 <= i < j < entries.len() ==> (#[trigger] entries[i]).0 != (#[trigger] entries[j]).0
}

/// In a list without repeated keys, the entry that holds `key` is the one
/// that `position` names.
pub proof fn lemma_position_is_unique<V>(entries: Seq<(Seq<u8>, V)>, key: Seq<u8>, at: int)
    requires
        distinct_keys(entries),
        0 <= at < entries.len(),
        entries[at].0 == key,
    ensures
        has_key(entries, key),
        position(entries, key) == at,
{
}

/// Whether two byte strings hold the same bytes.
pub fn same_bytes(a: &Vec<u8>, b: &Vec<u8>) -> (same: bool)
    ensures
        same == (a@ == b@),
{
    if a.len() != b.len() {
        return false;
    }
    let mut i: usize = 0;
    while i < a.len()
        invariant
            a.len() == b.len(),
            i <= a.len(),
            forall|j: int| 0 <= j < i ==> a@[j] == b@[j],
        decreases a.len() - i,
    {
        if a[i] != b[i] {
            return false;
        }
        i += 1;
    }
    assert(a@ =~= b@);
    true
}

/// Searches `entries` from the front for the key `key`.
pub fn find_key<V>(entries: &Vec<(Vec<u8>, V)>, key: &Vec<u8>) -> (found: Option<usize>)
    ensures
        match found {
            Some(at) => at < entries.len() && entries[at as int].0@ == key@ && forall|j: int|
                0 <= j < at ==> (#[trigger] entries[j]).0@ != key@,
            None => forall|j: int| 0 <= j < entries.len() ==> (#[trigger] entries[j]).0@ != key@,
        },
{
    let mut i: usize = 0;
    while i < entries.len()
        invariant
            i <= entries.len(),
            forall|j: int| 0 <= j < i ==> (#[trigger] entries[j]).0@ != key@,
        decreases entries.len() - i,
    {
        if same_bytes(&entries[i].0, key) {
            return Some(i);
        }
        i += 1;
    }
    None
}

} // verus!
