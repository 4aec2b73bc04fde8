//! Core data model: submarines, their owning characters, and the transient
//! per-submarine notification record.
//!
//! All times are absolute UTC timestamps in milliseconds since the Unix epoch,
//! so that due-time comparison never depends on a local timezone.

use vstd::prelude::*;

verus! {

/// One submarine together with its owning character, as one row of the
/// backing store. `return_time` is in milliseconds since the Unix epoch.
pub struct SubInfo {
    pub id: i64,
    pub name: String,
    pub return_time: i64,
    pub tag: String,
    pub character_name: String,
}

/// Per-submarine transient notification state. Never persisted: it is rebuilt
/// the first time a submarine is observed in a process lifetime.
#[derive(Clone, Copy, PartialEq, Eq, Structural)]
pub struct NotifyMeta {
    pub submarine_id: i64,
    pub will_notify: bool,
    pub last_return_time: i64,
}

/// Emitted by the state machine when a submarine's due time has elapsed while
/// it was armed; the caller presents it as a desktop notification.
pub struct FireEvent {
    pub entity: SubInfo,
}

impl SubInfo {
    /// An explicit copy whose result is known to equal the copied value,
    /// which a derived `Clone` would not give inside proofs.
    pub fn duplicate(&self) -> (r: SubInfo)
        ensures
            r == *self,
    {
        SubInfo {
            id: self.id,
            name: self.name.clone(),
            return_time: self.return_time,
            tag: self.tag.clone(),
            character_name: self.character_name.clone(),
        }
    }
}

/// The backing store hands out submarines in ascending order of return time.
pub open spec fn sorted_by_return_time(s: Seq<SubInfo>) -> bool {
    forall|i: int, j: int| 0 <= i < j < s.len() ==> s[i].return_time <= s[j].return_time
}

} // verus!
