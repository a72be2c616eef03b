//! Date-based rotation of the displayed message.
//!
//! A scheduler wakes periodically; on a wake whose UTC calendar day
//! differs from the day of the last rotation, and while the displayed
//! message is not yet the last one, the displayed index advances by one
//! and the rotation time is recorded. Rotation does not wrap: once the
//! last message is displayed, further day changes leave the record
//! untouched.

use vstd::prelude::*;

use crate::record::Messages;
use crate::record::MessagesView;

verus! {

/// The UTC calendar day that a Unix-epoch-millisecond timestamp falls
/// on, counted in days since the epoch.
pub open spec fn day_of(millis: int) -> int {
    millis / 86400000
}

/// Whether a wake at time `now` advances the record: the UTC day has
/// changed since the last rotation and the displayed message is not the
/// last one.
pub open spec fn rotation_enabled(m: MessagesView, now: int) -> bool {
    day_of(now) != day_of(m.last_motd_update) && m.current_motd != m.motds.len() - 1
}

/// The record after a rotation at time `now`.
pub open spec fn spec_rotate(m: MessagesView, now: int) -> MessagesView {
    MessagesView { current_motd: m.current_motd + 1, last_motd_update: now, ..m }
}

impl Messages {
    /// One scheduler wake at time `now` (Unix-epoch milliseconds):
    /// advances the displayed message at most once per UTC calendar day,
    /// and never past the last message; otherwise leaves the record
    /// unchanged.
    pub fn rotation_step(&mut self, now: u64) -> (rotated: bool)
        requires
            old(self)@.wf(),
        ensures
            rotated == rotation_enabled(old(self)@, now as int),
            rotated ==> final(self)@ == spec_rotate(old(self)@, now as int),
            !rotated ==> final(self)@ == old(self)@,
            final(self)@.wf(),
    {
        let today = now / 86400000;
        let last_day = self.last_motd_update / 86400000;
        if today != last_day && self.current_motd != self.motds.len() - 1 {
            self.current_motd = self.current_motd + 1;
            self.last_motd_update = now;
            assert(self@ =~= spec_rotate(old(self)@, now as int));
            true
        } else {
            assert(self@ =~= old(self)@);
            false
        }
    }
}

/// Law: rotation happens at most once per calendar day. After a
/// rotation at time `now`, no wake on the same UTC day rotates again.
pub proof fn lemma_rotation_once_per_day(m: MessagesView, now: int, later: int)
    requires
        rotation_enabled(m, now),
        day_of(later) == day_of(now),
    ensures
        !rotation_enabled(spec_rotate(m, now), later),
{
}

/// Law: rotation dead-ends at the last message. Once the displayed
/// index is the last one, no wake rotates, whatever the day.
pub proof fn lemma_rotation_stops_at_end(m: MessagesView, now: int)
    requires
        m.current_motd == m.motds.len() - 1,
    ensures
        !rotation_enabled(m, now),
{
}

} // verus!
