//! The debounce that turns a burst of document changes into one snapshot
//! save: the first unsaved change schedules a save one second later, later
//! changes do not push it back, and firing clears it.

use vstd::prelude::*;

verus! {

/// How long after the first unsaved change the snapshot is saved.
pub const SNAPSHOT_DEBOUNCE_MS: i64 = 1000;

/// The pending save, if any, as a Unix-millisecond deadline.
#[derive(Clone, Copy, Debug, PartialEq, Eq)]
pub struct SaveDebounce {
    pub deadline: Option<i64>,
}

/// The deadline after a change at `now_ms`.
pub open spec fn after_change(deadline: Option<i64>, now_ms: i64) -> Option<i64> {
    match deadline {
        Some(d) => Some(d),
        None => Some((now_ms + SNAPSHOT_DEBOUNCE_MS) as i64),
    }
}

impl SaveDebounce {
    /// Nothing to save yet.
    pub fn new() -> (d: SaveDebounce)
        ensures
            d.deadline is None,
    {
        SaveDebounce { deadline: None }
    }

    /// A change happened at `now_ms`: schedule a save unless one is pending.
    pub fn on_change(&mut self, now_ms: i64)
        requires
            now_ms + SNAPSHOT_DEBOUNCE_MS <= i64::MAX,
        ensures
            final(self).deadline == after_change(old(self).deadline, now_ms),
    {
        if self.deadline.is_none() {
            self.deadline = Some(now_ms + SNAPSHOT_DEBOUNCE_MS);
        }
    }

    /// The timer fired: save when a save was pending, and clear it.
    pub fn on_deadline(&mut self) -> (save: bool)
        ensures
            save == old(self).deadline is Some,
            final(self).deadline is None,
    {
        let save = self.deadline.is_some();
        self.deadline = None;
        save
    }
}

} // verus!
