//! Log lines of tasks and agents.

use nekotrans::agent_log::{
    agent_log_dedupe_key, agent_log_file_name, augment_agent_log_record, export_file_name,
    is_agent_log_name, line_passes, list_task_logs_filtered, log_line_matches_filters,
    numbers_to_set, persist_agent_log_batch, read_log_records, LogAppend, LogFilter,
};

fn no_filter() -> LogFilter {
    LogFilter::new(&None, &None, None, None, &None, &None)
}

fn some(text: &str) -> Option<String> {
    Some(text.to_string())
}

const LINE: &str = r#"{"ts_epoch_ms":50,"level":"warn","task_id":"t1","device_host":"10.0.0.2","message":"disk slow"}"#;

#[test]
fn blank_filters_pass_everything() {
    let filter = LogFilter::new(&some(" "), &some(""), None, None, &some("\t"), &some(" "));
    assert_eq!(filter, no_filter());
    assert!(log_line_matches_filters("not json", &filter));
}

#[test]
fn filters_compare_what_a_line_says() {
    let passes = |filter: LogFilter| log_line_matches_filters(LINE, &filter);
    assert!(passes(LogFilter::new(&some("t1"), &None, None, None, &None, &None)));
    assert!(!passes(LogFilter::new(&some("t2"), &None, None, None, &None, &None)));
    assert!(passes(LogFilter::new(&None, &some("10.0.0.2"), None, None, &None, &None)));
    assert!(!passes(LogFilter::new(&None, &some("10.0.0.3"), None, None, &None, &None)));
    assert!(passes(LogFilter::new(&None, &None, Some(50), Some(50), &None, &None)));
    assert!(!passes(LogFilter::new(&None, &None, Some(51), None, &None, &None)));
    assert!(!passes(LogFilter::new(&None, &None, None, Some(49), &None, &None)));
    assert!(passes(LogFilter::new(&None, &None, None, None, &some(" WARN "), &None)));
    assert!(!passes(LogFilter::new(&None, &None, None, None, &some("info"), &None)));
    assert!(passes(LogFilter::new(&None, &None, None, None, &None, &some("disk"))));
    assert!(!passes(LogFilter::new(&None, &None, None, None, &None, &some("Disk"))));
    let timed = LogFilter::new(&None, &None, Some(1), None, &None, &None);
    assert!(!log_line_matches_filters("not json", &timed));
    assert!(!log_line_matches_filters(r#"{"ts_epoch_ms":"50"}"#, &timed));
}

#[test]
fn given_facts_decide_whether_a_line_passes() {
    let filter = LogFilter::new(&some("t1"), &None, Some(10), None, &None, &some("x"));
    assert!(line_passes("x", Some("t1"), None, Some(10), &filter));
    assert!(!line_passes("y", Some("t1"), None, Some(10), &filter));
    assert!(!line_passes("x", None, None, Some(10), &filter));
    assert!(!line_passes("x", Some("t1"), None, None, &filter));
}

#[test]
fn agent_lines_are_listed_without_a_task() {
    let filter = LogFilter::new(&some("t1"), &None, None, None, &None, &some("m"));
    let task_lines = vec![
        r#"{"task_id":"t1","message":"m1"}"#.to_string(),
        r#"{"task_id":"t2","message":"m2"}"#.to_string(),
    ];
    let agent_lines = vec![r#"{"message":"m3"}"#.to_string(), "other".to_string()];
    assert_eq!(
        list_task_logs_filtered(&task_lines, &agent_lines, &filter),
        vec![task_lines[0].clone(), agent_lines[0].clone()]
    );
}

#[test]
fn log_files_are_named_after_their_agent() {
    assert_eq!(agent_log_file_name("10.0.0.2"), "android-10-0-0-2.jsonl");
    assert!(is_agent_log_name(&agent_log_file_name("phone")));
    assert!(!is_agent_log_name("export-1.jsonl"));
    assert!(!is_agent_log_name("android-1.json"));
    assert_eq!(export_file_name(17), "export-17.jsonl");
}

fn reply(records: &[&str]) -> String {
    format!("{{\"records\":[{}]}}", records.join(","))
}

fn kept_record(record: &str, host: &str, at: u64) -> Result<String, String> {
    augment_agent_log_record(&reply(&[record]), 0, host, at).map(|(line, _)| line)
}

#[test]
fn records_are_read_from_a_reply() {
    let payload = r#"{"records":[{"message":"a"},{"message":"b"}]}"#;
    assert_eq!(read_log_records(payload), Ok(Some(2)));
    assert_eq!(read_log_records(r#"{"records":3}"#), Ok(None));
    assert_eq!(read_log_records("{}"), Ok(None));
    assert!(read_log_records("{").is_err());
    let nothing = persist_agent_log_batch("h", "{}", "", 10).expect("batch");
    assert!(nothing.lines.is_empty());
    assert!(persist_agent_log_batch("h", "{", "", 10).is_err());
}

#[test]
fn kept_records_name_their_device_and_times() {
    assert_eq!(
        kept_record(r#"{"message":"a"}"#, "10.0.0.2", 9),
        Ok(r#"{"device_host":"10.0.0.2","fetched_at_epoch_ms":9,"message":"a","ts_epoch_ms":9}"#
            .to_string())
    );
    assert_eq!(
        kept_record(r#"{"ts_epoch_ms":4}"#, "h", 9),
        Ok(r#"{"device_host":"h","fetched_at_epoch_ms":9,"ts_epoch_ms":4}"#.to_string())
    );
    assert_eq!(
        kept_record("[1]", "h", 9),
        Err("agent log record was not a JSON object".to_string())
    );
    let payload = reply(&["{}", r#"{"a":1,"fetched_at_epoch_ms":3}"#]);
    let (line, key) = augment_agent_log_record(&payload, 1, "h", 9).expect("record");
    assert_eq!(
        line,
        r#"{"a":1,"device_host":"h","fetched_at_epoch_ms":9,"ts_epoch_ms":9}"#
    );
    assert_eq!(key, r#"{"a":1,"device_host":"h","ts_epoch_ms":9}"#);
    assert_eq!(agent_log_dedupe_key(&line), key);
    assert!(augment_agent_log_record(&payload, 2, "h", 9).is_err());
    let (all, lasting) = numbers_to_set(true, 3);
    assert_eq!(all, vec![("fetched_at_epoch_ms".to_string(), 3)]);
    assert!(lasting.is_empty());
    let (all, lasting) = numbers_to_set(false, 3);
    assert_eq!(all.len(), 2);
    assert_eq!(lasting, vec![("ts_epoch_ms".to_string(), 3)]);
}

#[test]
fn kept_fractions_are_written_as_they_were_read() {
    let line = kept_record(r#"{"ts_epoch_ms":1,"x":1.7976931348623155e308}"#, "h", 9)
        .expect("record");
    let value: serde_json::Value =
        serde_json::from_str(r#"{"x":1.7976931348623155e308}"#).expect("value");
    assert!(line.ends_with(&format!("\"x\":{}}}", value["x"])));
}

#[test]
fn keys_leave_the_fetch_time_out() {
    assert_eq!(
        agent_log_dedupe_key(r#"{"b":1,"fetched_at_epoch_ms":9,"a":2}"#),
        r#"{"a":2,"b":1}"#
    );
    assert_eq!(agent_log_dedupe_key("[1]"), "[1]");
    assert_eq!(agent_log_dedupe_key("not json"), "not json");
}

#[test]
fn fetching_again_adds_no_line() {
    let records = reply(&[
        r#"{"ts_epoch_ms":1,"message":"a"}"#,
        r#"{"ts_epoch_ms":2,"message":"b"}"#,
        r#"{"ts_epoch_ms":1,"message":"a"}"#,
    ]);
    let first = persist_agent_log_batch("h", &records, "", 10).expect("batch");
    assert_eq!(first.lines.len(), 2);
    assert_eq!(first.error, None);
    let kept = first.lines.join("\n");
    for line in &first.lines {
        let filter = LogFilter::new(&None, &some("h"), None, None, &None, &None);
        assert!(log_line_matches_filters(line, &filter));
    }
    let again = persist_agent_log_batch("h", &records, &kept, 99).expect("batch");
    assert!(again.lines.is_empty());
    assert_eq!(again.error, None);
}

#[test]
fn a_record_that_is_no_object_ends_a_batch() {
    let records = reply(&[r#"{"ts_epoch_ms":1}"#, "7", r#"{"ts_epoch_ms":2}"#]);
    let batch = persist_agent_log_batch("h", &records, "", 10).expect("batch");
    assert_eq!(batch.lines.len(), 1);
    assert_eq!(
        batch.error.as_deref(),
        Some("agent log record was not a JSON object")
    );
}

#[test]
fn lines_of_known_keys_are_left_out() {
    let mut append = LogAppend::beside("one\ntwo\n");
    append.take_line("line".to_string(), "two".to_string());
    append.take_line("line".to_string(), "three".to_string());
    append.take_line("other".to_string(), "three".to_string());
    append.take_error("stop".to_string());
    append.take_line("late".to_string(), "four".to_string());
    assert_eq!(append.lines, vec!["line".to_string()]);
    assert_eq!(append.error.as_deref(), Some("stop"));
}
