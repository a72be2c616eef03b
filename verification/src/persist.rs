//! Planning of durable saves: backup-before-overwrite.
//!
//! Writing the record's file is the caller's input/output; what this
//! module fixes is everything the write must contain. A save plan holds
//! the exact new file text and, when the file already exists, a backup
//! step holding the file's prior text under a timestamped name in the
//! backup directory. No plan ever removes a backup.

use vstd::prelude::*;

use crate::codec::append_dec;
use crate::codec::append_lit;
use crate::codec::chars_to_string;
use crate::codec::dec_digits;
use crate::codec::serialize_messages;
use crate::codec::spec_ser_messages;
use crate::record::Messages;

verus! {

/// The backup file's path for a record file `path` saved at time
/// `millis`: the record file's own name under the backup directory,
/// with the timestamp appended.
pub open spec fn spec_backup_name(path: Seq<char>, millis: nat) -> Seq<char> {
    "./backups/"@ + path + ".bak-"@ + dec_digits(millis)
}

/// Builds the backup file's path for a save of `path` at time `millis`.
pub fn backup_file_name(path: &str, millis: u64) -> (r: String)
    ensures
        r@ == spec_backup_name(path@, millis as nat),
{
    let mut out: Vec<char> = Vec::new();
    append_lit(&mut out, "./backups/");
    append_lit(&mut out, path);
    append_lit(&mut out, ".bak-");
    append_dec(&mut out, millis);
    assert(out@ =~= spec_backup_name(path@, millis as nat));
    chars_to_string(&out)
}

/// The backup half of a save plan: write `content` to `path` before the
/// record's file is overwritten.
pub struct BackupStep {
    pub path: String,
    pub content: String,
}

/// Everything a save must write: first the backup, when one is owed,
/// then the record's file with the new content.
pub struct SavePlan {
    pub backup: Option<BackupStep>,
    pub content: String,
}

/// Plans the save of a record to `path` at time `now`. `prior` is the
/// file's current text when the file exists. A backup is planned exactly
/// when the file exists, preserves the prior text verbatim, and is named
/// after the path and the timestamp; the new file text is the serialized
/// record. Plans only add files: no step deletes or truncates a backup.
pub fn plan_save(path: &str, prior: Option<String>, m: &Messages, now: u64) -> (plan: SavePlan)
    ensures
        plan.content@ == spec_ser_messages(m@),
        plan.backup is Some <==> prior is Some,
        prior is Some ==> plan.backup->Some_0.path@ == spec_backup_name(path@, now as nat),
        prior is Some ==> plan.backup->Some_0.content@ == prior->Some_0@,
{
    let content = serialize_messages(m);
    match prior {
        Option::Some(p) => {
            let bpath = backup_file_name(path, now);
            SavePlan { backup: Some(BackupStep { path: bpath, content: p }), content }
        },
        Option::None => SavePlan { backup: None, content },
    }
}

/// Relies on chrono::Utc::now and DateTime::timestamp_millis: the
/// current UTC time as milliseconds since the Unix epoch. Nothing is
/// promised of the clock's value; chrono itself aborts the process on a
/// machine whose clock stands before the epoch.
#[verifier::external_body]
fn now_millis_raw() -> i64 {
    chrono::Utc::now().timestamp_millis()
}

/// The current time in milliseconds since the Unix epoch, clamped below
/// at zero: a clock reading before 1970 is treated as the epoch. The
/// clock's value is the environment's; nothing can be stated of it.
pub fn now_millis() -> u64 {
    let t = now_millis_raw();
    if t < 0 {
        0
    } else {
        t as u64
    }
}

} // verus!
