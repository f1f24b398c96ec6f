//! The persisted per-alert record: one status and one transition time per
//! label ever observed, the time of the last repeat pass, and the tick
//! counter of the evaluation cadence.

use crate::label_map::{index_of_key, seq_contains_key, LabelMap};
use crate::status::AlertStatus;
use vstd::prelude::*;

verus! {

/// The persisted state of one alert, keyed by the alert's name.
pub struct AlertState {
    pub id: String,
    /// Status per label ever observed.
    pub status: LabelMap<AlertStatus>,
    /// Time (epoch seconds) of the most recent status transition per label.
    pub status_last_changed: LabelMap<u64>,
    /// Time (epoch seconds) of the last repeat-notification pass.
    pub status_last_repeated: u64,
    /// Ticks since the last real evaluation.
    pub counter: u32,
}

impl AlertState {
    pub open spec fn wf(&self) -> bool {
        self.status.wf() && self.status_last_changed.wf()
    }

    /// The data-model invariant: the two per-label maps carry the same keys.
    pub open spec fn keys_matched(&self) -> bool {
        self.status.as_map().dom() == self.status_last_changed.as_map().dom()
    }

    /// The default record created on first access: empty maps, counter 0.
    pub fn new(id: String) -> (s: Self)
        ensures
            s.id@ == id@,
            s.status@ == Seq::<(Seq<char>, AlertStatus)>::empty(),
            s.status_last_changed@ == Seq::<(Seq<char>, u64)>::empty(),
            s.status_last_repeated == 0,
            s.counter == 0,
            s.wf(),
            s.keys_matched(),
    {
        AlertState {
            id,
            status: LabelMap::new(),
            status_last_changed: LabelMap::new(),
            status_last_repeated: 0,
            counter: 0,
        }
    }

    /// Record a label's status as of `now`; the transition time is touched
    /// only on a genuine transition (`update_timestamp`).
    pub fn update_status_at(
        &mut self,
        label: String,
        new_status: AlertStatus,
        update_timestamp: bool,
        now: u64,
    )
        requires
            old(self).wf(),
        ensures
            final(self).wf(),
            final(self).status.as_map() == old(self).status.as_map().insert(label@, new_status),
            seq_contains_key(old(self).status@, label@) ==> final(self).status@ == old(
                self,
            ).status@.update(index_of_key(old(self).status@, label@), (label@, new_status)),
            !seq_contains_key(old(self).status@, label@) ==> final(self).status@ == old(
                self,
            ).status@.push((label@, new_status)),
            update_timestamp ==> final(self).status_last_changed.as_map() == old(
                self,
            ).status_last_changed.as_map().insert(label@, now),
            !update_timestamp ==> final(self).status_last_changed@ == old(
                self,
            ).status_last_changed@,
            final(self).id == old(self).id,
            final(self).status_last_repeated == old(self).status_last_repeated,
            final(self).counter == old(self).counter,
    {
        if update_timestamp {
            self.status_last_changed.insert(label.clone(), now);
        }
        self.status.insert(label, new_status);
    }

    /// Record a label's status as of the wall clock, which is returned; the
    /// transition time is touched only on a genuine transition.
    pub fn update_status(&mut self, label: String, new_status: AlertStatus, update_timestamp: bool)
        -> (t: u64)
        requires
            old(self).wf(),
        ensures
            final(self).wf(),
            final(self).status.as_map() == old(self).status.as_map().insert(label@, new_status),
            update_timestamp ==> final(self).status_last_changed.as_map() == old(
                self,
            ).status_last_changed.as_map().insert(label@, t),
            !update_timestamp ==> final(self).status_last_changed@ == old(
                self,
            ).status_last_changed@,
            final(self).id == old(self).id,
            final(self).status_last_repeated == old(self).status_last_repeated,
            final(self).counter == old(self).counter,
    {
        let now = crate::clock::now_seconds();
        self.update_status_at(label, new_status, update_timestamp, now);
        now
    }

    /// The time of the label's most recent transition, or 0 when the label
    /// was never recorded.
    pub fn status_last_changed(&self, label: String) -> (t: u64)
        requires
            self.wf(),
        ensures
            t == if self.status_last_changed.as_map().dom().contains(label@) {
                self.status_last_changed.as_map()[label@]
            } else {
                0u64
            },
    {
        match self.status_last_changed.get(&label) {
            Some(t) => *t,
            None => 0,
        }
    }

    /// Mark that a repeat pass ran at the wall clock's time, which is
    /// returned.
    pub fn update_repeat(&mut self) -> (t: u64)
        ensures
            final(self).status_last_repeated == t,
            final(self).id == old(self).id,
            final(self).status == old(self).status,
            final(self).status_last_changed == old(self).status_last_changed,
            final(self).counter == old(self).counter,
    {
        let now = crate::clock::now_seconds();
        self.update_repeat_at(now);
        now
    }

    /// Mark that a repeat pass ran at `now`.
    pub fn update_repeat_at(&mut self, now: u64)
        ensures
            final(self).status_last_repeated == now,
            final(self).id == old(self).id,
            final(self).status == old(self).status,
            final(self).status_last_changed == old(self).status_last_changed,
            final(self).counter == old(self).counter,
    {
        self.status_last_repeated = now;
    }
}

} // verus!
