//! Decisions for the external-edit watcher.
//!
//! A background observer reports events on the record's backing file.
//! Only a modification or a creation triggers a reload; a reload whose
//! text does not parse is dropped and the prior record is kept, so an
//! external edit can never corrupt the in-memory record.

use vstd::prelude::*;

use crate::codec::parse_messages;
use crate::codec::spec_parse_messages;
use crate::record::Messages;

verus! {

/// A file event's kind, as plain data.
pub enum WatchEventKind {
    Create,
    Modify,
    Remove,
    Access,
    Other,
}

/// Whether a watcher notification triggers a reload: only modification
/// or creation of the backing file does.
pub fn should_reload(kind: &WatchEventKind) -> (r: bool)
    ensures
        r == (kind is Create || kind is Modify),
{
    match kind {
        WatchEventKind::Create => true,
        WatchEventKind::Modify => true,
        _ => false,
    }
}

impl Messages {
    /// Applies an externally observed file text: a text that parses
    /// replaces the record wholesale; one that does not is dropped and
    /// the prior record is kept unchanged.
    pub fn apply_reload(&mut self, text: &str) -> (reloaded: bool)
        ensures
            match spec_parse_messages(text@) {
                Option::Some(v) => reloaded && final(self)@ == v,
                Option::None => !reloaded && final(self)@ == old(self)@,
            },
    {
        match parse_messages(text) {
            Ok(fresh) => {
                *self = fresh;
                true
            },
            Err(_) => false,
        }
    }
}

} // verus!
