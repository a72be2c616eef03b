use motd_store::Config;
use motd_store::Messages;
use motd_store::StoreError;
use motd_store::WatchEventKind;

fn sample(motds: &[&str], likes: &str, working_on: &str, current: usize, last: u64) -> Messages {
    Messages {
        motds: motds.iter().map(|s| s.to_string()).collect(),
        likes: likes.to_string(),
        working_on: working_on.to_string(),
        current_motd: current,
        last_motd_update: last,
    }
}

#[test]
fn serialize_exact_text() {
    let m = sample(&["a"], "x", "y", 0, 5);
    let text = motd_store::serialize_messages(&m);
    assert_eq!(
        text,
        "motds = [\"a\"]\nlikes = \"x\"\nworking_on = \"y\"\ncurrent_motd = 0\nlast_motd_update = 5\n"
    );
}

#[test]
fn serialize_escapes_and_several_entries() {
    let m = sample(&["he said \"hi\"", "a\\b", "line\nbreak\ttab"], "x", "y", 2, 7);
    let text = motd_store::serialize_messages(&m);
    assert_eq!(
        text,
        "motds = [\"he said \\\"hi\\\"\", \"a\\\\b\", \"line\\nbreak\\ttab\"]\nlikes = \"x\"\nworking_on = \"y\"\ncurrent_motd = 2\nlast_motd_update = 7\n"
    );
}

#[test]
fn round_trip_simple() {
    let m = sample(&["a", "b"], "likes this", "working on that", 1, 1700000000000);
    let text = motd_store::serialize_messages(&m);
    let parsed = motd_store::parse_messages(&text).expect("round trip must parse");
    assert_eq!(parsed, m);
}

#[test]
fn round_trip_special_characters() {
    let m = sample(
        &["quote \" backslash \\", "tabs\tand\nnewlines\r", "unicode: héllo wörld ✓", ""],
        "likes: \"quoted\"",
        "working\\on",
        3,
        u64::MAX,
    );
    let text = motd_store::serialize_messages(&m);
    let parsed = motd_store::parse_messages(&text).expect("round trip must parse");
    assert_eq!(parsed, m);
}

#[test]
fn round_trip_empty_list() {
    let m = sample(&[], "", "", 0, 0);
    let text = motd_store::serialize_messages(&m);
    assert_eq!(
        text,
        "motds = []\nlikes = \"\"\nworking_on = \"\"\ncurrent_motd = 0\nlast_motd_update = 0\n"
    );
    let parsed = motd_store::parse_messages(&text).expect("round trip must parse");
    assert_eq!(parsed, m);
}

#[test]
fn parse_rejects_garbage() {
    assert_eq!(motd_store::parse_messages(""), Err(StoreError::ParseError));
    assert_eq!(motd_store::parse_messages("not a record"), Err(StoreError::ParseError));
    assert_eq!(
        motd_store::parse_messages("motds = [\"a\"]\nlikes = \"x\"\n"),
        Err(StoreError::ParseError)
    );
}

#[test]
fn parse_rejects_unterminated_string() {
    let text = "motds = [\"a]\nlikes = \"x\"\nworking_on = \"y\"\ncurrent_motd = 0\nlast_motd_update = 5\n";
    assert_eq!(motd_store::parse_messages(text), Err(StoreError::ParseError));
}

#[test]
fn parse_rejects_oversized_number() {
    let text = "motds = [\"a\"]\nlikes = \"x\"\nworking_on = \"y\"\ncurrent_motd = 0\nlast_motd_update = 99999999999999999999999\n";
    assert_eq!(motd_store::parse_messages(text), Err(StoreError::ParseError));
}

#[test]
fn parse_rejects_trailing_text() {
    let m = sample(&["a"], "x", "y", 0, 5);
    let mut text = motd_store::serialize_messages(&m);
    text.push_str("extra");
    assert_eq!(motd_store::parse_messages(&text), Err(StoreError::ParseError));
}

#[test]
fn parse_config_values() {
    let c = motd_store::parse_config("admin_password = \"SECRET-REDACTED\"\nport = 3000\n")
        .expect("config must parse");
    assert_eq!(c.admin_password, "SECRET-REDACTED");
    assert_eq!(c.port, 3000);
}

#[test]
fn parse_config_rejects_bad_port() {
    assert_eq!(
        motd_store::parse_config("admin_password = \"p\"\nport = 65536\n"),
        Err(StoreError::ParseError)
    );
    assert_eq!(motd_store::parse_config("port = 1\n"), Err(StoreError::ParseError));
}

#[test]
fn add_motd_appends() {
    let mut m = sample(&["a"], "x", "y", 0, 0);
    m.add_motd("b".to_string());
    assert_eq!(m.motds, vec!["a".to_string(), "b".to_string()]);
    assert_eq!(m.current_motd, 0);
}

#[test]
fn edit_motd_replaces_and_rejects() {
    let mut m = sample(&["a", "b"], "x", "y", 0, 0);
    assert_eq!(m.edit_motd(1, "z".to_string()), Ok(()));
    assert_eq!(m.motds, vec!["a".to_string(), "z".to_string()]);
    let before = m.clone();
    assert_eq!(m.edit_motd(2, "w".to_string()), Err(StoreError::IndexError));
    assert_eq!(m, before);
}

#[test]
fn move_down_swaps_with_next() {
    let mut m = sample(&["a", "b", "c"], "x", "y", 0, 0);
    assert_eq!(m.motd_down(1), Ok(()));
    assert_eq!(m.motds, vec!["a".to_string(), "c".to_string(), "b".to_string()]);
}

#[test]
fn move_up_of_first_entry_is_rejected() {
    let mut m = sample(&["a", "b", "c"], "x", "y", 0, 0);
    let before = m.clone();
    assert_eq!(m.motd_up(0), Err(StoreError::IndexError));
    assert_eq!(m, before);
    assert_eq!(m.motd_up(2), Ok(()));
    assert_eq!(m.motds, vec!["a".to_string(), "c".to_string(), "b".to_string()]);
}

#[test]
fn move_down_of_last_entry_is_rejected() {
    let mut m = sample(&["a", "b"], "x", "y", 0, 0);
    let before = m.clone();
    assert_eq!(m.motd_down(1), Err(StoreError::IndexError));
    assert_eq!(m, before);
}

#[test]
fn remove_keeps_displayed_index_unclamped() {
    // The displayed index is deliberately not renumbered on removal: after
    // removing index 0 from two entries while the second was displayed, the
    // index points past the end until the next edit or rotation.
    let mut m = sample(&["a", "b"], "x", "y", 1, 0);
    assert_eq!(m.delete_motd(0), Ok(()));
    assert_eq!(m.motds, vec!["b".to_string()]);
    assert_eq!(m.current_motd, 1);
}

#[test]
fn remove_rejects_out_of_range() {
    let mut m = sample(&["a", "b"], "x", "y", 0, 0);
    let before = m.clone();
    assert_eq!(m.delete_motd(2), Err(StoreError::IndexError));
    assert_eq!(m, before);
}

#[test]
fn set_status_fields() {
    let mut m = sample(&["a"], "x", "y", 0, 0);
    m.set_likes("new likes".to_string());
    m.set_working_on("new work".to_string());
    assert_eq!(m.likes, "new likes");
    assert_eq!(m.working_on, "new work");
    assert_eq!(m.motds, vec!["a".to_string()]);
}

const DAY: u64 = 86400000;

#[test]
fn rotation_advances_once_per_day() {
    let mut m = sample(&["a", "b", "c"], "x", "y", 0, 0);
    // A wake on a later UTC day advances the index once and records the time.
    assert!(m.rotation_step(5 * DAY + 123));
    assert_eq!(m.current_motd, 1);
    assert_eq!(m.last_motd_update, 5 * DAY + 123);
    // A second wake on the same day does nothing.
    assert!(!m.rotation_step(5 * DAY + 999));
    assert_eq!(m.current_motd, 1);
    assert_eq!(m.last_motd_update, 5 * DAY + 123);
    // The next day advances again.
    assert!(m.rotation_step(6 * DAY));
    assert_eq!(m.current_motd, 2);
}

#[test]
fn rotation_dead_ends_at_last_entry() {
    let mut m = sample(&["a", "b"], "x", "y", 1, 0);
    assert!(!m.rotation_step(10 * DAY));
    assert_eq!(m.current_motd, 1);
    assert_eq!(m.last_motd_update, 0);
}

#[test]
fn rotation_same_day_is_noop() {
    let mut m = sample(&["a", "b"], "x", "y", 0, 5 * DAY);
    assert!(!m.rotation_step(5 * DAY + 1000));
    assert_eq!(m.current_motd, 0);
}

#[test]
fn external_edit_reloads_wholesale() {
    let mut m = sample(&["a", "b"], "x", "y", 0, 0);
    let edited = sample(&["a", "b", "c"], "x", "y", 0, 0);
    let text = motd_store::serialize_messages(&edited);
    assert!(m.apply_reload(&text));
    assert_eq!(m, edited);
}

#[test]
fn bad_external_edit_keeps_prior_record() {
    let mut m = sample(&["a", "b"], "x", "y", 0, 0);
    let before = m.clone();
    assert!(!m.apply_reload("broken ["));
    assert_eq!(m, before);
}

#[test]
fn reload_only_on_create_or_modify() {
    assert!(motd_store::should_reload(&WatchEventKind::Create));
    assert!(motd_store::should_reload(&WatchEventKind::Modify));
    assert!(!motd_store::should_reload(&WatchEventKind::Remove));
    assert!(!motd_store::should_reload(&WatchEventKind::Access));
    assert!(!motd_store::should_reload(&WatchEventKind::Other));
}

#[test]
fn backup_name_is_exact() {
    assert_eq!(
        motd_store::backup_file_name("messages.toml", 42),
        "./backups/messages.toml.bak-42"
    );
}

#[test]
fn save_plan_backs_up_existing_file_verbatim() {
    let m = sample(&["a"], "x", "y", 0, 5);
    let prior = "the old file text".to_string();
    let plan = motd_store::plan_save("messages.toml", Some(prior.clone()), &m, 1234);
    assert_eq!(plan.content, motd_store::serialize_messages(&m));
    let backup = plan.backup.expect("an existing file must be backed up");
    assert_eq!(backup.path, "./backups/messages.toml.bak-1234");
    assert_eq!(backup.content, prior);
}

#[test]
fn save_plan_skips_backup_for_fresh_file() {
    let m = sample(&["a"], "x", "y", 0, 5);
    let plan = motd_store::plan_save("messages.toml", None, &m, 1234);
    assert!(plan.backup.is_none());
    assert_eq!(plan.content, motd_store::serialize_messages(&m));
}

#[test]
fn password_check_is_exact_equality() {
    let c = Config { admin_password: "SECRET-REDACTED".to_string(), port: 3000 };
    assert!(c.check_password("SECRET-REDACTED"));
    assert!(!c.check_password("secret-redacted"));
    assert!(!c.check_password(""));
    assert!(!c.check_password("SECRET-REDACTED "));
}

#[test]
fn clock_reads_after_epoch() {
    // The store's clock is the real one; all that can be checked is that
    // it returns a time after the library was written.
    let t = motd_store::now_millis();
    assert!(t > 1_700_000_000_000);
}
