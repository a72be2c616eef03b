//! A file-backed store for a rotating "message of the day" record.
//!
//! The store keeps an ordered list of messages, two free-text status
//! fields, the index of the currently displayed message, and the time of
//! the last automatic rotation. It offers validated editing operations,
//! a text codec for durable storage with a proved round trip, planning of
//! backup-before-overwrite saves, date-based rotation of the active
//! message, and a constant-time credential check.

mod auth;
mod codec;
mod edits;
mod persist;
mod record;
mod rotate;
mod watch;

pub use codec::lemma_messages_round_trip;
pub use codec::lemma_record_round_trip;
pub use codec::parse_config;
pub use codec::parse_messages;
pub use codec::serialize_messages;
pub use codec::spec_parse_config;
pub use codec::spec_parse_messages;
pub use codec::spec_ser_messages;
pub use persist::backup_file_name;
pub use persist::now_millis;
pub use persist::plan_save;
pub use persist::spec_backup_name;
pub use persist::BackupStep;
pub use persist::SavePlan;
pub use record::Config;
pub use record::ConfigView;
pub use record::Messages;
pub use record::MessagesView;
pub use record::StoreError;
pub use rotate::day_of;
pub use rotate::lemma_rotation_once_per_day;
pub use rotate::lemma_rotation_stops_at_end;
pub use rotate::rotation_enabled;
pub use rotate::spec_rotate;
pub use watch::should_reload;
pub use watch::WatchEventKind;
