//! The transfer engine, its scheduler, its checkpoints and its log.

use nekotrans::checkpoint::initialize_checkpoint;
use nekotrans::checkpoint_store::CheckpointStore;
use nekotrans::engine::{ListedCheckpoint, TransferEngine};
use nekotrans::inventory::{expand_sources, ScannedFile, SelectedScan, SourceScan, WalkStep};
use nekotrans::logging::{LogLevel, LogRecord, LogScope};
use nekotrans::models::{
    ChunkDescriptor, Direction, TaskConfig, TaskState, TransferItem, TransportMode,
};
use nekotrans::scheduler::{LaneAssignment, Scheduler, SchedulerDecision};

fn sample_item(name: &str, size_bytes: u64) -> TransferItem {
    TransferItem {
        relative_path: name.to_string(),
        size_bytes,
        modified_at_epoch_ms: 1,
        fingerprint: None,
    }
}

fn scanned(path: &str, size_bytes: u64) -> WalkStep {
    WalkStep::File(ScannedFile {
        canonical_path: path.to_string(),
        size_bytes,
        modified_ms: Some(5),
    })
}

fn scan_of(root: &str, selected: Vec<(&str, Vec<WalkStep>)>) -> SourceScan {
    SourceScan {
        root_exists: true,
        canonical_root: Ok(root.to_string()),
        selected: selected
            .into_iter()
            .map(|(path, walk)| SelectedScan {
                resolved: format!("{root}/{path}"),
                exists: true,
                walk,
            })
            .collect(),
    }
}

#[test]
fn checkpoint_roundtrip_works() {
    let config = TaskConfig::new(
        "task-1",
        Direction::PcToAndroid,
        TransportMode::Dual,
        true,
        "C:/Users/example/Documents",
        "/sdcard/Backup",
    );
    let items = vec![TransferItem {
        relative_path: "photos/cat.png".to_string(),
        size_bytes: 1234,
        modified_at_epoch_ms: 5,
        fingerprint: None,
    }];
    let mut entry = initialize_checkpoint(&config, &items);
    entry.checkpoint.files[0].completed_chunks = vec![0, 1];
    entry.checkpoint.files[0]
        .completed_chunk_lanes
        .insert(0, LaneAssignment::Adb);
    entry.checkpoint.files[0]
        .completed_chunk_lanes
        .insert(1, LaneAssignment::Wifi);
    entry.checkpoint.files[0].verification_digest = Some("abc123".to_string());
    entry.checkpoint.files[0].fingerprint_hex = Some("meta-digest".to_string());

    let store = CheckpointStore::new("checkpoints");
    let file = store.persist(&entry);
    let loaded = store.load(Ok(file.content)).expect("load should succeed");

    assert_eq!(file.name, "task-1.ckpt");
    assert_eq!(loaded, entry);
}

#[test]
fn engine_can_advance_demo_task() {
    let mut engine = TransferEngine::new("state");
    let snapshot = engine.ensure_demo_task().expect("demo task should exist");
    assert_eq!(snapshot.state, TaskState::Pending);

    let update = engine
        .tick_task("demo-task", 3)
        .expect("tick should succeed");
    assert!(update.snapshot.committed_bytes > 0);
    assert!(!update.new_logs.is_empty());
}

#[test]
fn pause_and_resume_roundtrip() {
    let mut engine = TransferEngine::new("state");
    engine.ensure_demo_task().expect("demo task should exist");

    let paused = engine.pause_task("demo-task").expect("pause should work");
    assert_eq!(paused.state, TaskState::Paused);

    let resumed = engine.resume_task("demo-task").expect("resume should work");
    assert_eq!(resumed.state, TaskState::Running);
}

#[test]
fn engine_can_create_task_from_real_paths() {
    let mut engine = TransferEngine::new("/data/.state");
    let config = TaskConfig::new(
        "task-from-paths",
        Direction::PcToAndroid,
        TransportMode::AdbOnly,
        false,
        "/data",
        "/sdcard/Backup",
    );
    let scan = scan_of("/data", vec![("docs", vec![scanned("/data/docs/readme.txt", 5)])]);

    let snapshot = engine
        .create_task_from_paths(config, &scan)
        .expect("task creation should succeed");

    assert_eq!(snapshot.total_files, 1);
    assert!(snapshot.total_bytes > 0);
}

#[test]
fn recoverable_task_list_includes_persisted_entries() {
    let mut engine = TransferEngine::new("state");
    engine.ensure_demo_task().expect("demo task should exist");
    let file = engine.checkpoint_file("demo-task").expect("checkpoint");
    let recoverables = engine
        .recoverable_tasks(&vec![ListedCheckpoint {
            name: file.name,
            read: Ok(file.content),
        }])
        .expect("recovery enumeration should work");
    assert!(recoverables.iter().any(|task_id| task_id == "demo-task"));
}

#[test]
fn recovered_task_keeps_progress_and_resumes_from_remaining_chunks() {
    let mut engine = TransferEngine::new("state");
    engine.ensure_demo_task().expect("demo task should exist");
    let first_update = engine
        .tick_task("demo-task", 4)
        .expect("tick should persist progress");
    let committed_before = first_update.snapshot.committed_bytes;
    let file = engine.checkpoint_file("demo-task").expect("checkpoint");
    drop(engine);

    let mut recovered_engine = TransferEngine::new("state");
    let recovered = recovered_engine
        .recover_task("demo-task", Ok(file.content))
        .expect("recovery should work");
    assert_eq!(recovered.state, TaskState::Paused);
    assert_eq!(recovered.committed_bytes, committed_before);

    let resumed = recovered_engine
        .resume_task("demo-task")
        .expect("resume should work after recovery");
    assert_eq!(resumed.state, TaskState::Running);

    let progressed = recovered_engine
        .tick_task("demo-task", 1)
        .expect("should continue remaining chunks");
    assert!(progressed.snapshot.committed_bytes > committed_before);
}

#[test]
fn records_real_adb_chunk_progress_into_checkpoint() {
    let mut engine = TransferEngine::new("/data/.state");
    let mut config = TaskConfig::new(
        "real-adb-task",
        Direction::PcToAndroid,
        TransportMode::AdbOnly,
        false,
        "/data/docs",
        "/sdcard/NekotransDocs",
    );
    config.chunk_size_bytes = 4;
    let scan = scan_of("/data/docs", vec![(".", vec![scanned("/data/docs/readme.txt", 11)])]);

    engine
        .create_task_from_paths(config, &scan)
        .expect("task creation should succeed");
    let update = engine
        .record_real_chunk_commit(
            "real-adb-task",
            ChunkDescriptor {
                file_index: 0,
                chunk_index: 0,
                offset: 0,
                length: 4,
            },
            LaneAssignment::Adb,
            false,
        )
        .expect("real chunk commit should persist");

    assert_eq!(update.snapshot.committed_bytes, 4);
    assert_eq!(update.snapshot.adb_bytes, 4);
    assert_eq!(update.snapshot.completed_chunks, 1);
    assert!(!update.new_logs.is_empty());

    let file = engine.checkpoint_file("real-adb-task").expect("checkpoint");
    drop(engine);
    let mut recovered = TransferEngine::new("/data/.state");
    let snapshot = recovered
        .recover_task("real-adb-task", Ok(file.content))
        .expect("real task should recover");
    assert_eq!(snapshot.committed_bytes, 4);
    assert_eq!(snapshot.adb_bytes, 4);
}

#[test]
fn real_workers_can_lease_and_complete_dual_chunks() {
    let mut engine = TransferEngine::new("/data/.state");
    let mut config = TaskConfig::new(
        "dual-real-workers",
        Direction::PcToAndroid,
        TransportMode::Dual,
        false,
        "/data",
        "/sdcard/Nekotrans",
    );
    config.chunk_size_bytes = 4;
    config.small_file_threshold_bytes = 1;
    let scan = scan_of("/data", vec![("movie.bin", vec![scanned("/data/movie.bin", 16)])]);

    engine
        .create_task_from_paths(config, &scan)
        .expect("task creation should succeed");

    let adb_lease = engine
        .lease_real_chunk("dual-real-workers", LaneAssignment::Adb)
        .expect("lease should succeed")
        .expect("adb lease should exist");
    let wifi_lease = engine
        .lease_real_chunk("dual-real-workers", LaneAssignment::Wifi)
        .expect("lease should succeed")
        .expect("wifi lease should exist");
    assert_eq!(adb_lease.lane, LaneAssignment::Adb);
    assert_eq!(wifi_lease.lane, LaneAssignment::Wifi);

    let first = engine
        .complete_real_chunk_lease("dual-real-workers", adb_lease, false)
        .expect("complete adb lease");
    assert_eq!(first.snapshot.adb_bytes, 4);

    let second = engine
        .complete_real_chunk_lease("dual-real-workers", wifi_lease, false)
        .expect("complete wifi lease");
    assert_eq!(second.snapshot.wifi_bytes, 4);
    assert_eq!(second.snapshot.completed_chunks, 2);
}

#[test]
fn recovered_dual_task_preserves_real_lane_metrics() {
    let mut engine = TransferEngine::new("/data/.state");
    let mut config = TaskConfig::new(
        "dual-recovery-lanes",
        Direction::PcToAndroid,
        TransportMode::Dual,
        false,
        "/data",
        "/sdcard/Nekotrans",
    );
    config.chunk_size_bytes = 4;
    config.small_file_threshold_bytes = 1024;
    let scan = scan_of(
        "/data",
        vec![
            ("tiny-a.bin", vec![scanned("/data/tiny-a.bin", 2)]),
            ("tiny-b.bin", vec![scanned("/data/tiny-b.bin", 2)]),
        ],
    );

    engine
        .create_task_from_paths(config, &scan)
        .expect("task creation should succeed");

    let first = engine
        .lease_real_chunk("dual-recovery-lanes", LaneAssignment::Adb)
        .expect("first lease should succeed")
        .expect("first lease should exist");
    let second = engine
        .lease_real_chunk("dual-recovery-lanes", LaneAssignment::Wifi)
        .expect("second lease should succeed")
        .expect("second lease should exist");

    engine
        .complete_real_chunk_lease("dual-recovery-lanes", first, false)
        .expect("complete first");
    let update = engine
        .complete_real_chunk_lease("dual-recovery-lanes", second, false)
        .expect("complete second");
    assert_eq!(update.snapshot.adb_bytes, 2);
    assert_eq!(update.snapshot.wifi_bytes, 2);
    let file = engine
        .checkpoint_file("dual-recovery-lanes")
        .expect("checkpoint");
    drop(engine);

    let mut recovered = TransferEngine::new("/data/.state");
    let snapshot = recovered
        .recover_task("dual-recovery-lanes", Ok(file.content))
        .expect("task should recover");
    assert_eq!(snapshot.adb_bytes, 2);
    assert_eq!(snapshot.wifi_bytes, 2);
    assert_eq!(snapshot.committed_bytes, 4);
}

#[test]
fn inventory_expands_files_from_root() {
    let scan = scan_of(
        "/data",
        vec![
            ("nested", vec![scanned("/data/nested/a.txt", 5)]),
            ("b.txt", vec![scanned("/data/b.txt", 5)]),
        ],
    );
    let items = expand_sources("/data", &scan, 7).expect("inventory should succeed");

    let relative_paths = items
        .iter()
        .map(|item| item.relative_path.clone())
        .collect::<Vec<_>>();

    assert_eq!(relative_paths.len(), 2);
    assert!(
        relative_paths.contains(&"nested\\a.txt".to_string())
            || relative_paths.contains(&"nested/a.txt".to_string())
    );
    assert!(relative_paths.contains(&"b.txt".to_string()));
}

#[test]
fn log_record_serializes_to_json_line() {
    let output = LogRecord::new(LogLevel::Info, LogScope::Transfer, "chunk committed")
        .with_task_id("task-1")
        .with_lane("adb")
        .to_json_line();

    assert!(output.contains("\"task_id\":\"task-1\""));
    assert!(output.contains("\"lane\":\"adb\""));
    assert!(output.contains("\"scope\":\"transfer\""));
    assert!(output.contains("\"chunk_id\":null"));
}

#[test]
fn dual_mode_splits_large_file_across_lanes() {
    let mut config = TaskConfig::new(
        "t1",
        Direction::PcToAndroid,
        TransportMode::Dual,
        false,
        "C:/src",
        "/sdcard/Backup",
    );
    config.chunk_size_bytes = 4;
    config.small_file_threshold_bytes = 8;

    let mut scheduler = Scheduler::new(&config, &[sample_item("movie.mkv", 16)]);
    let mut lanes = Vec::new();

    for _ in 0..4 {
        match scheduler.lease_next(&config, LaneAssignment::Adb) {
            SchedulerDecision::Lease(lease) => {
                lanes.push(lease.lane);
                scheduler.complete(lease);
            }
            SchedulerDecision::Idle => break,
        }
    }

    assert!(lanes.contains(&LaneAssignment::Adb));
    assert!(lanes.contains(&LaneAssignment::Wifi));
}

#[test]
fn single_track_uses_requested_lane_only() {
    let config = TaskConfig::new(
        "t1",
        Direction::PcToAndroid,
        TransportMode::AdbOnly,
        false,
        "C:/src",
        "/sdcard/Backup",
    );

    let mut scheduler = Scheduler::new(&config, &[sample_item("doc.txt", 1024)]);
    match scheduler.lease_next(&config, LaneAssignment::Adb) {
        SchedulerDecision::Lease(lease) => assert_eq!(lease.lane, LaneAssignment::Adb),
        SchedulerDecision::Idle => panic!("scheduler should have emitted a chunk"),
    }
}

#[test]
fn resume_skips_completed_chunks() {
    let mut config = TaskConfig::new(
        "t1",
        Direction::PcToAndroid,
        TransportMode::Dual,
        false,
        "C:/src",
        "/sdcard/Backup",
    );
    config.chunk_size_bytes = 4;
    config.small_file_threshold_bytes = 1;

    let mut scheduler =
        Scheduler::new_with_completed(&config, &[sample_item("movie.mkv", 16)], &[vec![0, 1]]);
    let mut seen_chunks = Vec::new();

    for _ in 0..4 {
        match scheduler.lease_next(&config, LaneAssignment::Adb) {
            SchedulerDecision::Lease(lease) => {
                seen_chunks.push(lease.chunk.chunk_index);
                scheduler.complete(lease);
            }
            SchedulerDecision::Idle => break,
        }
    }

    assert_eq!(seen_chunks, vec![2, 3]);
}
