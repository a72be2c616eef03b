//! The two persisted records: the mutable message record and the
//! immutable boot-time settings, with their mathematical views.

use vstd::prelude::*;

verus! {

/// Errors reported by the store's operations.
#[derive(Clone, Copy, Debug, PartialEq, Eq, Structural)]
pub enum StoreError {
    /// The backing file could not be read or written.
    IoError,
    /// The backing file's text is not a well-formed record.
    ParseError,
    /// An edit named an entry index that is out of range.
    IndexError,
}

/// The mathematical view of a [`Messages`] record.
#[verifier::ext_equal]
pub struct MessagesView {
    pub motds: Seq<Seq<char>>,
    pub likes: Seq<char>,
    pub working_on: Seq<char>,
    pub current_motd: int,
    pub last_motd_update: int,
}

/// The mutable record: the ordered messages of the day, two free-text
/// status fields, the index of the currently displayed message, and the
/// time of the last automatic rotation in milliseconds since the Unix
/// epoch (UTC).
#[derive(Clone, Debug, PartialEq)]
pub struct Messages {
    pub motds: Vec<String>,
    pub likes: String,
    pub working_on: String,
    pub current_motd: usize,
    pub last_motd_update: u64,
}

impl View for Messages {
    type V = MessagesView;

    open spec fn view(&self) -> MessagesView {
        MessagesView {
            motds: self.motds@.map_values(|s: String| s@),
            likes: self.likes@,
            working_on: self.working_on@,
            current_motd: self.current_motd as int,
            last_motd_update: self.last_motd_update as int,
        }
    }
}

impl MessagesView {
    /// A record is well formed when it has at least one message and the
    /// displayed index points at one of them.
    pub open spec fn wf(self) -> bool {
        &&& self.motds.len() > 0
        &&& 0 <= self.current_motd < self.motds.len()
    }

    /// Field bounds that hold of the view of every executable record.
    pub open spec fn in_bounds(self) -> bool {
        &&& 0 <= self.current_motd <= usize::MAX
        &&& 0 <= self.last_motd_update <= u64::MAX
    }
}

impl Messages {
    /// The executable record's fields always lie within the machine bounds.
    pub proof fn lemma_in_bounds(&self)
        ensures
            self@.in_bounds(),
    {
    }
}

/// The mathematical view of a [`Config`] record.
#[verifier::ext_equal]
pub struct ConfigView {
    pub admin_password: Seq<char>,
    pub port: int,
}

/// The immutable settings, loaded once at boot and never rewritten: the
/// admin credential and the port to listen on.
#[derive(Clone, Debug, PartialEq)]
pub struct Config {
    pub admin_password: String,
    pub port: u16,
}

impl View for Config {
    type V = ConfigView;

    open spec fn view(&self) -> ConfigView {
        ConfigView { admin_password: self.admin_password@, port: self.port as int }
    }
}

} // verus!
