//! How important an access to a storage key was, per key and per direction.

use vstd::prelude::*;

verus! {

/// What is known of one direction of access (reading or writing) to a key.
///
/// An access state only ever moves towards `Important`: a key starts out
/// `Unset`, a repeat execution can make it `Redundant`, and the first
/// meaningful execution makes it `Important` for good.
#[derive(Clone, Copy, Debug, PartialEq, Eq, Structural)]
pub enum AccessType {
    /// No access of this direction has been seen.
    Unset,
    /// The key was touched, but only by a repeat execution or only implicitly.
    Redundant,
    /// The key was touched by the meaningful execution.
    Important,
}

impl AccessType {
    /// Position of a state in the order `Unset < Redundant < Important`.
    pub open spec fn rank(self) -> nat {
        match self {
            AccessType::Unset => 0,
            AccessType::Redundant => 1,
            AccessType::Important => 2,
        }
    }

    /// The state that a first access gets: `Redundant` inside a repeat,
    /// `Important` otherwise.
    pub open spec fn first_seen(redundant: bool) -> AccessType {
        if redundant {
            AccessType::Redundant
        } else {
            AccessType::Important
        }
    }

    /// Whether the state is `Important`.
    pub fn is_important(&self) -> (important: bool)
        ensures
            important == (*self == AccessType::Important),
    {
        *self == AccessType::Important
    }

    /// Raises the state to `Important`, whatever it was.
    pub fn mark_important(&mut self)
        ensures
            *final(self) == AccessType::Important,
    {
        *self = AccessType::Important;
    }
}

impl Default for AccessType {
    fn default() -> (state: AccessType)
        ensures
            state == AccessType::Unset,
    {
        AccessType::Unset
    }
}

/// The record kept for one storage key: its read state and its write state.
#[derive(Clone, Copy, Debug, PartialEq, Eq, Structural)]
pub struct AccessInfo {
    /// What is known of the reads of the key.
    pub read: AccessType,
    /// What is known of the writes of the key.
    pub written: AccessType,
}

impl AccessInfo {
    /// The record of a key whose first access is a read.
    pub open spec fn read_spec(redundant: bool) -> AccessInfo {
        AccessInfo { read: AccessType::first_seen(redundant), written: AccessType::Unset }
    }

    /// The record of a key whose first access is a write. A write goes
    /// through the key, so the key counts as read too, but never importantly.
    pub open spec fn written_spec(redundant: bool) -> AccessInfo {
        AccessInfo { read: AccessType::Redundant, written: AccessType::first_seen(redundant) }
    }

    /// The record after one more read of a key that already has a record.
    ///
    /// A repeat changes nothing, and neither does a read of a key whose
    /// write is already important; any other read becomes important.
    pub open spec fn after_read(self, redundant: bool) -> AccessInfo {
        if redundant || self.written == AccessType::Important {
            self
        } else {
            AccessInfo { read: AccessType::Important, written: self.written }
        }
    }

    /// The record after one more write of a key that already has a record.
    ///
    /// A repeat changes nothing; any other write becomes important.
    pub open spec fn after_write(self, redundant: bool) -> AccessInfo {
        if redundant {
            self
        } else {
            AccessInfo { read: self.read, written: AccessType::Important }
        }
    }

    /// Whether either direction is `Important`.
    pub open spec fn is_counted(self) -> bool {
        self.read == AccessType::Important || self.written == AccessType::Important
    }

    /// Builds the record of a key whose first access is a read.
    pub fn read(redundant: bool) -> (info: AccessInfo)
        ensures
            info == AccessInfo::read_spec(redundant),
    {
        let read = if redundant {
            AccessType::Redundant
        } else {
            AccessType::Important
        };
        AccessInfo { read, written: AccessType::Unset }
    }

    /// Builds the record of a key whose first access is a write.
    pub fn written(redundant: bool) -> (info: AccessInfo)
        ensures
            info == AccessInfo::written_spec(redundant),
    {
        let written = if redundant {
            AccessType::Redundant
        } else {
            AccessType::Important
        };
        AccessInfo { read: AccessType::Redundant, written }
    }

    /// Folds one more read into the record.
    pub fn note_read(&mut self, redundant: bool)
        ensures
            *final(self) == old(self).after_read(redundant),
    {
        if redundant {
            return;
        }
        if self.written.is_important() {
            return;
        }
        self.read.mark_important();
    }

    /// Folds one more write into the record.
    pub fn note_write(&mut self, redundant: bool)
        ensures
            *final(self) == old(self).after_write(redundant),
    {
        if redundant {
            return;
        }
        self.written.mark_important();
    }
}

/// An access only ever raises a record: a read leaves the write state alone
/// and never lowers the read state, a write leaves the read state alone and
/// never lowers the write state, and a first access leaves neither direction
/// below what it found.
pub proof fn lemma_access_only_rises(info: AccessInfo, redundant: bool)
    ensures
        info.after_read(redundant).read.rank() >= info.read.rank(),
        info.after_read(redundant).written == info.written,
        info.after_write(redundant).written.rank() >= info.written.rank(),
        info.after_write(redundant).read == info.read,
        info.read == AccessType::Important ==> info.after_read(redundant).read
            == AccessType::Important,
        info.written == AccessType::Important ==> info.after_write(redundant).written
            == AccessType::Important,
{
}

impl Default for AccessInfo {
    fn default() -> (info: AccessInfo)
        ensures
            info == (AccessInfo { read: AccessType::Unset, written: AccessType::Unset }),
    {
        AccessInfo { read: AccessType::Unset, written: AccessType::Unset }
    }
}

} // verus!
