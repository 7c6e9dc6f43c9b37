//! The engine from the first task to the last, its errors, and what it keeps on disk.

use nekotrans::checkpoint::{
    initialize_checkpoint, parse_direction, parse_lane, parse_state, parse_transport_mode,
    serialize_direction, serialize_lane, serialize_state, serialize_transport_mode,
    CheckpointEntry, CheckpointError,
};
use nekotrans::checkpoint_store::CheckpointStore;
use nekotrans::checkpoint_text::{deserialize_entry, serialize_entry};
use nekotrans::engine::{ListedCheckpoint, TransferEngine, TransferEngineError};
use nekotrans::inventory::{
    expand_sources, fast_fingerprint, relative_below, InventoryBuildError, ScannedFile,
    SelectedScan, SourceScan, WalkStep,
};
use nekotrans::models::{
    ChunkDescriptor, Direction, TaskConfig, TaskState, TransferItem, TransportMode,
};
use nekotrans::notes::{take_note_at, EngineNote};
use nekotrans::scheduler::{ChunkLease, LaneAssignment, Scheduler, SchedulerDecision};

fn config(task_id: &str, chunk_size: u64) -> TaskConfig {
    let mut config = TaskConfig::new_at(
        7,
        task_id,
        Direction::PcToAndroid,
        TransportMode::Dual,
        true,
        "/l|x",
        "/sdcard/%",
    );
    config.chunk_size_bytes = chunk_size;
    config
}

fn item(path: &str, size_bytes: u64) -> TransferItem {
    TransferItem {
        relative_path: path.to_string(),
        size_bytes,
        modified_at_epoch_ms: 3,
        fingerprint: Some(fast_fingerprint(size_bytes, Some(3))),
    }
}

fn chunk(file_index: usize, chunk_index: u32, length: u64) -> ChunkDescriptor {
    ChunkDescriptor {
        file_index,
        chunk_index,
        offset: chunk_index as u64 * 4,
        length,
    }
}

fn engine_with(items: Vec<TransferItem>) -> TransferEngine {
    let mut engine = TransferEngine::new("/checkpoints");
    engine
        .create_task_at(config("t", 4), items, 10)
        .expect("task");
    engine
}

fn content_of(engine: &TransferEngine, task_id: &str) -> String {
    engine.checkpoint_file(task_id).expect("file").content
}

#[test]
fn unknown_tasks_are_named() {
    let mut engine = TransferEngine::new("/checkpoints");
    let lease = ChunkLease {
        lane: LaneAssignment::Adb,
        chunk: chunk(0, 0, 4),
    };
    let errors = vec![
        engine.pause_task("x").err(),
        engine.resume_task("x").err(),
        engine.cancel_task("x").err(),
        engine.retry_task("x").err(),
        engine.record_task_failure("x", "m").err(),
        engine.tick_task("x", 1).err(),
        engine
            .record_real_chunk_commit("x", chunk(0, 0, 4), LaneAssignment::Adb, false)
            .err(),
        engine
            .record_real_chunk_commit_pending("x", chunk(0, 0, 4), LaneAssignment::Adb, false)
            .err(),
        engine.complete_real_chunk_lease("x", lease, false).err(),
        engine
            .record_real_file_complete("x", 0, LaneAssignment::Adb, false)
            .err(),
        engine.reconfigure_task_chunk_size("x", 4).err(),
        engine.lease_real_chunk("x", LaneAssignment::Adb).err(),
        engine.log_lines("x").err(),
    ];
    for error in errors {
        match error {
            Some(TransferEngineError::UnknownTask(task_id)) => assert_eq!(task_id, "x"),
            _ => panic!("an unknown task expected"),
        }
    }
    assert_eq!(
        TransferEngineError::UnknownTask("x".to_string()).message(),
        "unknown task x"
    );
    assert!(engine.snapshots().is_empty());
    assert!(!engine.delete_task_record("x"));
}

#[test]
fn states_follow_the_requests() {
    let mut engine = engine_with(vec![item("a", 10)]);
    assert_eq!(
        engine.resume_task_at("t", 11).unwrap_err().message(),
        "task t is not paused"
    );
    assert_eq!(
        engine.pause_task_at("t", 11).expect("pause").state,
        TaskState::Paused
    );
    let update = engine.tick_task_at("t", 9, 12).expect("tick");
    assert_eq!(update.snapshot.state, TaskState::Paused);
    assert_eq!(update.snapshot.committed_bytes, 0);
    assert_eq!(update.new_logs.len(), 2);
    assert!(engine
        .lease_real_chunk_at("t", LaneAssignment::Adb, 12)
        .expect("lease")
        .is_none());
    engine.resume_task_at("t", 13).expect("resume");
    assert_eq!(
        engine.cancel_task_at("t", 14).expect("cancel").state,
        TaskState::Cancelled
    );
    assert_eq!(
        engine.cancel_task_at("t", 15).expect("cancel").state,
        TaskState::Cancelled
    );
    assert_eq!(
        engine.retry_task_at("t", 15).unwrap_err().message(),
        "task t cannot be retried from terminal state"
    );
    assert_eq!(
        engine.pause_task_at("t", 15).unwrap_err().message(),
        "task t can no longer be paused"
    );
    assert_eq!(
        engine.tick_task_at("t", 1, 15).err().expect("error").message(),
        "task t is already terminal"
    );
    assert_eq!(
        engine
            .lease_real_chunk_at("t", LaneAssignment::Wifi, 15)
            .unwrap_err()
            .message(),
        "task t can no longer record progress"
    );
    assert_eq!(engine.log_lines("t").expect("logs").len(), 4);
}

#[test]
fn failures_can_be_retried() {
    let mut engine = engine_with(vec![item("a", 10)]);
    let failed = engine
        .record_task_failure_at("t", "disk full", 11)
        .expect("failure");
    assert_eq!(failed.state, TaskState::Failed);
    assert_eq!(failed.last_error.as_deref(), Some("disk full"));
    let staged = engine.retry_task_at("t", 12).expect("retry");
    assert_eq!(staged.state, TaskState::Paused);
    assert_eq!(staged.last_error, None);
    assert!(content_of(&engine, "t").contains("\nstate=paused\n"));
}

#[test]
fn commits_count_once() {
    let mut engine = engine_with(vec![item("a", 10), item("b", 0)]);
    let first = engine
        .record_real_chunk_commit_at("t", chunk(0, 1, 4), LaneAssignment::Wifi, false, 11)
        .expect("commit");
    assert_eq!(first.snapshot.wifi_bytes, 4);
    let again = engine
        .record_real_chunk_commit_at("t", chunk(0, 1, 4), LaneAssignment::Adb, false, 12)
        .expect("commit");
    assert_eq!(again.snapshot.committed_bytes, 4);
    assert_eq!(again.snapshot.adb_bytes, 0);
    assert!(again.new_logs.is_empty());
    assert_eq!(
        engine
            .record_real_file_complete_at("t", 2, LaneAssignment::Adb, false, 13)
            .err()
            .expect("error")
            .message(),
        "unknown file 2"
    );
    let whole = engine
        .record_real_file_complete_at("t", 0, LaneAssignment::Adb, true, 13)
        .expect("file");
    assert_eq!(whole.snapshot.adb_bytes, 6);
    assert_eq!(whole.snapshot.state, TaskState::Running);
    let last = engine
        .record_real_file_complete_at("t", 1, LaneAssignment::Wifi, false, 14)
        .expect("file");
    assert_eq!(last.snapshot.state, TaskState::Completed);
    assert_eq!(last.snapshot.completed_chunks, 4);
    assert_eq!(last.snapshot.committed_bytes, 10);
    assert!(last
        .new_logs
        .iter()
        .any(|record| record.message == "task completed"));
}

#[test]
fn pending_commits_leave_the_task_open() {
    let mut engine = engine_with(vec![item("a", 4)]);
    let update = engine
        .record_real_chunk_commit_pending_at("t", chunk(0, 0, 4), LaneAssignment::Adb, false, 11)
        .expect("commit");
    assert_eq!(update.snapshot.state, TaskState::Running);
    assert_eq!(update.snapshot.committed_bytes, 4);
    let done = engine
        .record_real_file_complete_at("t", 0, LaneAssignment::Adb, false, 12)
        .expect("file");
    assert_eq!(done.snapshot.state, TaskState::Completed);
    assert_eq!(done.snapshot.committed_bytes, 4);
}

#[test]
fn notes_reach_the_engine() {
    let mut engine = engine_with(vec![item("a", 8)]);
    let note = EngineNote::Chunk {
        chunk: chunk(0, 0, 4),
        lane: LaneAssignment::Adb,
        skipped: false,
    };
    let update = take_note_at(&mut engine, "t", note, 11)
        .expect("room")
        .expect("commit");
    assert_eq!(update.snapshot.adb_bytes, 4);
    let huge = EngineNote::Chunk {
        chunk: chunk(0, 1, u64::MAX),
        lane: LaneAssignment::Adb,
        skipped: false,
    };
    assert!(take_note_at(&mut engine, "t", huge, 12).is_none());
    assert_eq!(engine.snapshots()[0].adb_bytes, 4);
}

#[test]
fn leases_hand_out_every_chunk_once() {
    let config = config("t", 4);
    let items = [item("a", 40 * 1024 * 1024), item("b", 4)];
    let mut small = config.clone();
    small.chunk_size_bytes = 8 * 1024 * 1024;
    let mut scheduler =
        Scheduler::new_with_completed(&small, &items, &[vec![1, 3], vec![]]);
    let mut seen = Vec::new();
    loop {
        match scheduler.lease_next(&small, LaneAssignment::Wifi) {
            SchedulerDecision::Lease(lease) => {
                seen.push((lease.chunk.file_index, lease.chunk.chunk_index));
                scheduler.complete(lease);
            }
            SchedulerDecision::Idle => break,
        }
    }
    assert!(scheduler.is_drained());
    seen.sort();
    assert_eq!(seen, vec![(0, 0), (0, 2), (0, 4), (1, 0)]);
}

#[test]
fn rechunking_drops_what_was_counted() {
    let mut engine = engine_with(vec![item("a", 10)]);
    engine
        .record_real_chunk_commit_at("t", chunk(0, 0, 4), LaneAssignment::Adb, false, 11)
        .expect("commit");
    let same = engine
        .reconfigure_task_chunk_size_at("t", 4, 12)
        .expect("size");
    assert_eq!(same.committed_bytes, 4);
    let other = engine
        .reconfigure_task_chunk_size_at("t", 5, 13)
        .expect("size");
    assert_eq!(other.committed_bytes, 0);
    assert_eq!(other.total_bytes, 10);
    assert!(content_of(&engine, "t").contains("\nchunk_size_bytes=5\n"));
}

#[test]
fn recovered_tasks_go_on() {
    let mut engine = engine_with(vec![item("a|%\n1", 10), item("b", 3)]);
    engine
        .record_real_chunk_commit_at("t", chunk(0, 2, 2), LaneAssignment::Wifi, false, 11)
        .expect("commit");
    let content = content_of(&engine, "t");
    let mut other = TransferEngine::new("/checkpoints");
    let recovered = other
        .recover_task_at("t", Ok(content.clone()), 12)
        .expect("recover");
    assert_eq!(recovered.state, TaskState::Paused);
    assert_eq!(recovered.wifi_bytes, 2);
    assert_eq!(recovered.total_bytes, 13);
    let again = other
        .recover_task_at("t", Err("unread".to_string()), 13)
        .expect("recover");
    assert_eq!(again.state, TaskState::Paused);
    other.resume_task_at("t", 13).expect("resume");
    let done = other.tick_task_at("t", 99, 14).expect("tick");
    assert_eq!(done.snapshot.state, TaskState::Completed);
    assert_eq!(done.snapshot.committed_bytes, 13);

    assert_eq!(
        other
            .recover_task_at("u", Err("no file".to_string()), 15)
            .unwrap_err()
            .message(),
        "no file"
    );
    let entry = other
        .checkpoint_entry("v", Ok(content.clone()))
        .expect("entry");
    assert_eq!(entry.checkpoint.files[0].relative_path, "a|%\n1");
    let listed = vec![
        ListedCheckpoint {
            name: other.checkpoint_store().file_name_of("open"),
            read: Ok(content),
        },
        ListedCheckpoint {
            name: other.checkpoint_store().file_name_of("done"),
            read: Ok(content_of(&other, "t")),
        },
    ];
    assert_eq!(
        other.recoverable_tasks(&listed).expect("tasks"),
        vec!["open".to_string()]
    );
    let unread = vec![ListedCheckpoint {
        name: other.checkpoint_store().file_name_of("open"),
        read: Err("denied".to_string()),
    }];
    assert!(matches!(
        other.recoverable_tasks(&unread),
        Err(TransferEngineError::Persistence(message)) if message == "denied"
    ));
}

#[test]
fn sources_are_expanded() {
    let file = |path: &str, size: u64| -> WalkStep {
        WalkStep::File(ScannedFile {
            canonical_path: path.to_string(),
            size_bytes: size,
            modified_ms: Some(16),
        })
    };
    let scan = SourceScan {
        root_exists: true,
        canonical_root: Ok("/r".to_string()),
        selected: vec![
            SelectedScan {
                resolved: "/r/b".to_string(),
                exists: true,
                walk: vec![file("/r/b/2", 2), file("/r/b/1", 26)],
            },
            SelectedScan {
                resolved: "/r/b/1".to_string(),
                exists: true,
                walk: vec![file("/r/b/1", 26)],
            },
        ],
    };
    let items = expand_sources("/r", &scan, 5).expect("items");
    let paths = items
        .iter()
        .map(|item| item.relative_path.as_str())
        .collect::<Vec<_>>();
    assert_eq!(paths, vec!["b/1", "b/2"]);
    assert_eq!(
        items[0]
            .fingerprint
            .as_ref()
            .map(|print| print.hex_digest.as_str()),
        Some("1a-10")
    );
    assert_eq!(fast_fingerprint(255, None).hex_digest, "ff-0");
    assert_eq!(relative_below("/r", "/r/a/b").as_deref(), Some("a/b"));
    assert_eq!(relative_below("/r", "/ra"), None);

    let mut missing = SourceScan {
        root_exists: true,
        canonical_root: Ok("/r".to_string()),
        selected: vec![SelectedScan {
            resolved: "/r/x".to_string(),
            exists: false,
            walk: vec![],
        }],
    };
    assert!(matches!(
        expand_sources("/r", &missing, 5),
        Err(InventoryBuildError::MissingPath(path)) if path == "/r/x"
    ));
    missing.selected[0].exists = true;
    missing.selected[0].walk = vec![WalkStep::Failed("denied".to_string())];
    assert!(matches!(
        expand_sources("/r", &missing, 5),
        Err(InventoryBuildError::Io(message)) if message == "denied"
    ));
    missing.selected[0].walk = vec![file("/elsewhere/x", 1)];
    assert_eq!(
        expand_sources("/r", &missing, 5).unwrap_err().message(),
        "invalid source root /r"
    );
    missing.root_exists = false;
    assert!(matches!(
        expand_sources("/s", &missing, 5),
        Err(InventoryBuildError::InvalidSourceRoot(path)) if path == "/s"
    ));
    let mut engine = TransferEngine::new("/checkpoints");
    assert!(matches!(
        engine.create_task_from_paths_at(config("n", 4), &missing, 5),
        Err(TransferEngineError::Inventory(_))
    ));
    let created = engine
        .create_or_recover_task_from_paths_at(
            config("n", 4),
            Err("no checkpoint".to_string()),
            &scan,
            6,
        )
        .expect("task");
    assert_eq!(created.total_bytes, 28);
    let known = engine
        .create_or_recover_task_from_paths_at(config("n", 4), Err("unread".to_string()), &missing, 7)
        .expect("task");
    assert_eq!(known.total_files, 2);
}

fn sample_entry() -> CheckpointEntry {
    let items = [item("dir/a|b%c\r\n", 10), item("", 0)];
    let mut entry = initialize_checkpoint(&config("t", 4), &items);
    entry.checkpoint.files[0].completed_chunks = vec![0, 2];
    entry.checkpoint.files[0]
        .completed_chunk_lanes
        .insert(2, LaneAssignment::Wifi);
    entry.checkpoint.files[0].verification_digest = Some("d|e".to_string());
    entry
}

#[test]
fn checkpoints_are_read_back() {
    let entry = sample_entry();
    let text = serialize_entry(&entry);
    let back = deserialize_entry(&text).expect("entry");
    assert_eq!(back.config.source_root, "/l|x");
    assert_eq!(back.config.target_root, "/sdcard/%");
    let file = &back.checkpoint.files[0];
    assert_eq!(file.relative_path, "dir/a|b%c\r\n");
    assert_eq!(file.completed_chunks, vec![0, 2]);
    assert_eq!(
        file.completed_chunk_lanes.get(&2),
        Some(&LaneAssignment::Wifi)
    );
    assert_eq!(file.verification_digest.as_deref(), Some("d|e"));
    assert_eq!(serialize_entry(&back), text);
    let store = CheckpointStore::new("/checkpoints");
    assert_eq!(store.root(), "/checkpoints");
    assert_eq!(store.persist(&entry).content, text);
    assert!(matches!(
        store.load(Err("denied".to_string())),
        Err(CheckpointError::Io(message)) if message == "denied"
    ));
}

#[test]
fn broken_checkpoints_say_what_is_wrong() {
    let text = serialize_entry(&sample_entry());
    let complaint = |content: &str| -> String {
        match deserialize_entry(content) {
            Err(CheckpointError::Parse(message)) => message,
            _ => panic!("a complaint expected"),
        }
    };
    assert_eq!(complaint(""), "missing task_id");
    assert_eq!(complaint("file=a"), "missing file size");
    assert_eq!(complaint("file=a|1"), "missing chunk data");
    assert_eq!(complaint("file=a|x|"), "invalid file size x");
    assert_eq!(complaint("file=a|1|2,z|"), "invalid chunk z");
    assert_eq!(
        complaint("file=a|1|q|||"),
        "invalid modified_at_epoch_ms q"
    );
    assert_eq!(complaint("file=a|1|2||||5"), "invalid completed lane 5");
    assert_eq!(
        complaint("file=a|1|2||||z:adb"),
        "invalid completed lane chunk z"
    );
    assert_eq!(complaint("file=a|1|2||||5:air"), "invalid lane air");
    let with = |key: &str, value: &str| -> String {
        text.lines()
            .map(|line| {
                if line.starts_with(&format!("{key}=")) {
                    format!("{key}={value}")
                } else {
                    line.to_string()
                }
            })
            .collect::<Vec<_>>()
            .join("\n")
    };
    assert_eq!(complaint(&with("direction", "up")), "invalid direction up");
    assert_eq!(
        complaint(&with("transport_mode", "air")),
        "invalid transport mode air"
    );
    assert_eq!(
        complaint(&with("verify_enabled", "yes")),
        "invalid verify_enabled"
    );
    assert_eq!(
        complaint(&with("chunk_size_bytes", "-1")),
        "invalid chunk_size_bytes"
    );
    assert_eq!(complaint(&with("state", "odd")), "invalid task state odd");
    assert_eq!(
        complaint(&with("updated_at_epoch_ms", "")),
        "invalid updated_at_epoch_ms"
    );
    assert_eq!(
        CheckpointError::Parse("missing x".to_string()).message(),
        "missing x"
    );
}

#[test]
fn names_are_read_back() {
    for direction in [Direction::PcToAndroid, Direction::AndroidToPc] {
        assert_eq!(parse_direction(serialize_direction(direction)), Ok(direction));
    }
    for mode in [
        TransportMode::AdbOnly,
        TransportMode::WifiOnly,
        TransportMode::Dual,
    ] {
        assert_eq!(parse_transport_mode(serialize_transport_mode(mode)), Ok(mode));
    }
    for state in [
        TaskState::Pending,
        TaskState::Running,
        TaskState::Paused,
        TaskState::Completed,
        TaskState::Failed,
        TaskState::Cancelled,
    ] {
        assert_eq!(parse_state(serialize_state(state)), Ok(state));
    }
    for lane in [LaneAssignment::Adb, LaneAssignment::Wifi] {
        assert_eq!(parse_lane(serialize_lane(lane)), Ok(lane));
    }
}
