use job_mailer::store::encode_log;
use job_mailer::store::from_stored;
use job_mailer::store::parse_stored;
use job_mailer::SentLog;
use job_mailer::SentRecord;

fn record(email: &str, sent_at: &str, success: bool, error: Option<&str>) -> SentRecord {
    SentRecord {
        email: email.to_string(),
        sent_at: sent_at.to_string(),
        success,
        error: error.map(|e| e.to_string()),
    }
}

#[test]
fn test_save_and_load_log() {
    let mut log = SentLog::default();
    log.append(record("test@example.com", "2024-05-01 10:00:00", true, None));
    let stored = encode_log(&log);

    let loaded = from_stored(stored.as_str());
    assert_eq!(loaded.records.len(), 1);
    assert_eq!(loaded.records[0].email, "test@example.com");
    assert!(loaded.records[0].success);
}

#[test]
fn append_two_and_reload_round_trips_in_order() {
    let mut log = from_stored("");
    assert_eq!(log.records.len(), 0);

    log.append(record("a@example.com", "2024-05-01 10:00:00", true, None));
    log.append(record("b@example.com", "2024-05-01 10:01:00", false, Some("mailbox full")));
    let stored = encode_log(&log);

    let loaded = from_stored(stored.as_str());
    assert_eq!(loaded.records.len(), 2);
    assert_eq!(loaded.records[0].email, "a@example.com");
    assert_eq!(loaded.records[0].sent_at, "2024-05-01 10:00:00");
    assert!(loaded.records[0].success);
    assert_eq!(loaded.records[0].error, None);
    assert_eq!(loaded.records[1].email, "b@example.com");
    assert!(!loaded.records[1].success);
    assert_eq!(loaded.records[1].error, Some("mailbox full".to_string()));
}

#[test]
fn round_trip_keeps_special_characters() {
    let mut log = SentLog::default();
    log.append(record("odd|address@example.com", "line\nbreak", false, Some("back\\slash | pipe\n")));
    let stored = encode_log(&log);

    let loaded = from_stored(stored.as_str());
    assert_eq!(loaded.records.len(), 1);
    assert_eq!(loaded.records[0].email, "odd|address@example.com");
    assert_eq!(loaded.records[0].sent_at, "line\nbreak");
    assert_eq!(loaded.records[0].error, Some("back\\slash | pipe\n".to_string()));
}

#[test]
fn empty_text_loads_as_empty_log() {
    let log = from_stored("");
    assert!(log.records.is_empty());
}

#[test]
fn corrupt_text_degrades_to_empty_log() {
    assert!(parse_stored("not a stored log").is_none());
    let log = from_stored("not a stored log");
    assert!(log.records.is_empty());

    let truncated = "a@example.com|2024|1|N"; // no closing newline
    assert!(from_stored(truncated).records.is_empty());
}

#[test]
fn stored_text_has_one_escaped_line_per_record() {
    let mut log = SentLog::default();
    log.append(record("a@x.com", "t1", true, None));
    log.append(record("b@x.com", "t|2", false, Some("no route")));
    let stored = encode_log(&log);
    assert_eq!(stored, "a@x.com|t1|1|N\nb@x.com|t\\p2|0|Sno route\n");
}

#[test]
fn trailing_garbage_invalidates_the_whole_document() {
    let mut log = SentLog::default();
    log.append(record("a@x.com", "t1", true, None));
    let mut stored = encode_log(&log);
    stored.push_str("junk");
    assert!(parse_stored(&stored).is_none());
    assert!(from_stored(&stored).records.is_empty());
}

#[test]
fn summarize_empty_log_is_all_zero() {
    let log = SentLog::new();
    let s = log.summarize();
    assert_eq!(s.total, 0);
    assert_eq!(s.successes, 0);
    assert_eq!(s.failures, 0);
}

#[test]
fn summarize_partitions_total() {
    let mut log = SentLog::new();
    log.append(record("a@x.com", "t1", true, None));
    log.append(record("b@x.com", "t2", false, Some("refused")));
    log.append(record("c@x.com", "t3", true, None));
    let s = log.summarize();
    assert_eq!(s.total, 3);
    assert_eq!(s.successes, 2);
    assert_eq!(s.failures, 1);
    assert_eq!(s.successes + s.failures, s.total);
}

#[test]
fn recent_records_are_newest_first() {
    let mut log = SentLog::new();
    log.append(record("a@x.com", "t1", true, None));
    log.append(record("b@x.com", "t2", true, None));
    log.append(record("c@x.com", "t3", false, None));
    let recent = log.recent_records(2);
    assert_eq!(recent.len(), 2);
    assert_eq!(recent[0].email, "c@x.com");
    assert_eq!(recent[1].email, "b@x.com");

    let all = log.recent_records(20);
    assert_eq!(all.len(), 3);
    assert_eq!(all[2].email, "a@x.com");
}
