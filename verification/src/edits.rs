//! Validated editing operations on the message record.
//!
//! Each index-taking operation checks its index before touching the
//! record: an out-of-range index is reported as `IndexError` and leaves
//! the record unchanged. No operation renumbers `current_motd`; removing
//! an entry below the displayed index can therefore leave the index past
//! the end, which the contracts state exactly.

use vstd::prelude::*;

use crate::record::Messages;
use crate::record::MessagesView;
use crate::record::StoreError;

verus! {

impl Messages {
    /// Appends a new message at the end of the list.
    pub fn add_motd(&mut self, motd: String)
        ensures
            final(self)@ == (MessagesView { motds: old(self)@.motds.push(motd@), ..old(self)@ }),
            old(self)@.wf() ==> final(self)@.wf(),
    {
        self.motds.push(motd);
        assert(self@.motds =~= old(self)@.motds.push(motd@));
        assert(self@ =~= (MessagesView { motds: old(self)@.motds.push(motd@), ..old(self)@ }));
    }

    /// Replaces the message at index `id`; rejects an out-of-range index.
    pub fn edit_motd(&mut self, id: usize, motd: String) -> (r: Result<(), StoreError>)
        ensures
            match r {
                Ok(()) => id < old(self)@.motds.len() && final(self)@ == (MessagesView {
                    motds: old(self)@.motds.update(id as int, motd@),
                    ..old(self)@
                }),
                Err(e) => e == StoreError::IndexError && id >= old(self)@.motds.len()
                    && final(self)@ == old(self)@,
            },
            old(self)@.wf() ==> final(self)@.wf(),
    {
        if id < self.motds.len() {
            self.motds[id] = motd;
            assert(self@.motds =~= old(self)@.motds.update(id as int, motd@));
            assert(self@ =~= (MessagesView {
                motds: old(self)@.motds.update(id as int, motd@),
                ..old(self)@
            }));
            Ok(())
        } else {
            Err(StoreError::IndexError)
        }
    }

    /// Removes the message at index `id`; rejects an out-of-range index.
    /// The displayed index is not adjusted: when it pointed at the last
    /// entry and an earlier entry is removed, it now points past the end.
    pub fn delete_motd(&mut self, id: usize) -> (r: Result<(), StoreError>)
        ensures
            match r {
                Ok(()) => id < old(self)@.motds.len() && final(self)@ == (MessagesView {
                    motds: old(self)@.motds.remove(id as int),
                    ..old(self)@
                }),
                Err(e) => e == StoreError::IndexError && id >= old(self)@.motds.len()
                    && final(self)@ == old(self)@,
            },
            old(self)@.wf() && old(self)@.current_motd < old(self)@.motds.len() - 1
                ==> final(self)@.wf(),
    {
        if id < self.motds.len() {
            self.motds.remove(id);
            assert(self@.motds =~= old(self)@.motds.remove(id as int));
            assert(self@ =~= (MessagesView {
                motds: old(self)@.motds.remove(id as int),
                ..old(self)@
            }));
            Ok(())
        } else {
            Err(StoreError::IndexError)
        }
    }

    /// Swaps the messages at indices `a` and `b`, both known to be in range.
    fn swap_motds(&mut self, a: usize, b: usize)
        requires
            a < old(self)@.motds.len(),
            b < old(self)@.motds.len(),
        ensures
            final(self)@ == (MessagesView {
                motds: old(self)@.motds.update(a as int, old(self)@.motds[b as int]).update(
                    b as int,
                    old(self)@.motds[a as int],
                ),
                ..old(self)@
            }),
    {
        let first = self.motds[a].clone();
        let second = self.motds[b].clone();
        self.motds[a] = second;
        self.motds[b] = first;
        assert(self@.motds =~= old(self)@.motds.update(a as int, old(self)@.motds[b as int])
            .update(b as int, old(self)@.motds[a as int]));
        assert(self@ =~= (MessagesView {
            motds: old(self)@.motds.update(a as int, old(self)@.motds[b as int]).update(
                b as int,
                old(self)@.motds[a as int],
            ),
            ..old(self)@
        }));
    }

    /// Moves the message at index `id` one place up, swapping it with its
    /// neighbor at `id - 1`; rejects `id == 0` (no neighbor above) and any
    /// out-of-range index.
    pub fn motd_up(&mut self, id: usize) -> (r: Result<(), StoreError>)
        ensures
            match r {
                Ok(()) => 0 < id < old(self)@.motds.len() && final(self)@ == (MessagesView {
                    motds: old(self)@.motds.update(
                        id - 1,
                        old(self)@.motds[id as int],
                    ).update(id as int, old(self)@.motds[id - 1]),
                    ..old(self)@
                }),
                Err(e) => e == StoreError::IndexError
                    && !(0 < id < old(self)@.motds.len())
                    && final(self)@ == old(self)@,
            },
            old(self)@.wf() ==> final(self)@.wf(),
    {
        if 0 < id && id < self.motds.len() {
            self.swap_motds(id - 1, id);
            Ok(())
        } else {
            Err(StoreError::IndexError)
        }
    }

    /// Moves the message at index `id` one place down, swapping it with
    /// its neighbor at `id + 1`; rejects an index whose neighbor below is
    /// out of range.
    pub fn motd_down(&mut self, id: usize) -> (r: Result<(), StoreError>)
        ensures
            match r {
                Ok(()) => id + 1 < old(self)@.motds.len() && final(self)@ == (MessagesView {
                    motds: old(self)@.motds.update(
                        id as int,
                        old(self)@.motds[id + 1],
                    ).update(id + 1, old(self)@.motds[id as int]),
                    ..old(self)@
                }),
                Err(e) => e == StoreError::IndexError && id + 1 >= old(self)@.motds.len()
                    && final(self)@ == old(self)@,
            },
            old(self)@.wf() ==> final(self)@.wf(),
    {
        let len = self.motds.len();
        if len >= 2 && id < len - 1 {
            self.swap_motds(id, id + 1);
            Ok(())
        } else {
            Err(StoreError::IndexError)
        }
    }

    /// Replaces the `likes` status field.
    pub fn set_likes(&mut self, likes: String)
        ensures
            final(self)@ == (MessagesView { likes: likes@, ..old(self)@ }),
            old(self)@.wf() ==> final(self)@.wf(),
    {
        self.likes = likes;
        assert(self@ =~= (MessagesView { likes: likes@, ..old(self)@ }));
    }

    /// Replaces the `working_on` status field.
    pub fn set_working_on(&mut self, working_on: String)
        ensures
            final(self)@ == (MessagesView { working_on: working_on@, ..old(self)@ }),
            old(self)@.wf() ==> final(self)@.wf(),
    {
        self.working_on = working_on;
        assert(self@ =~= (MessagesView { working_on: working_on@, ..old(self)@ }));
    }
}

} // verus!
