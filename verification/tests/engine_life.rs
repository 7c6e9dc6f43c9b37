//! What holds of a task over its whole life, on tasks of a few chunks.

use nekotrans::checkpoint_text::deserialize_entry;
use nekotrans::engine::{content_would_fit, scan_would_fit, TransferEngine};
use nekotrans::inventory::{ScannedFile, SelectedScan, SourceScan, WalkStep};
use nekotrans::models::{
    ChunkDescriptor, Direction, TaskConfig, TaskState, TransferItem, TransportMode,
};
use nekotrans::notes::{take_note_at, EngineNote};
use nekotrans::remote_verify::{may_wait, WAIT_LIMIT_MS, WAIT_PAUSE_MS};
use nekotrans::scheduler::{LaneAssignment, Scheduler, SchedulerDecision};

fn config(task_id: &str, chunk_size: u64) -> TaskConfig {
    let mut config = TaskConfig::new_at(
        5,
        task_id,
        Direction::PcToAndroid,
        TransportMode::Dual,
        false,
        "/photos",
        "/sdcard/Photos",
    );
    config.chunk_size_bytes = chunk_size;
    config
}

fn item(path: &str, size_bytes: u64) -> TransferItem {
    TransferItem {
        relative_path: path.to_string(),
        size_bytes,
        modified_at_epoch_ms: 2,
        fingerprint: None,
    }
}

fn engine_with(items: Vec<TransferItem>) -> TransferEngine {
    let mut engine = TransferEngine::new("/kept");
    engine
        .create_task_at(config("t", 4), items, 10)
        .expect("task");
    engine
}

fn scan(sizes: Vec<u64>) -> SourceScan {
    SourceScan {
        root_exists: true,
        canonical_root: Ok("/photos".to_string()),
        selected: vec![SelectedScan {
            resolved: "/photos".to_string(),
            exists: true,
            walk: sizes
                .into_iter()
                .enumerate()
                .map(|(index, size_bytes)| {
                    WalkStep::File(ScannedFile {
                        canonical_path: format!("/photos/{index}.jpg"),
                        size_bytes,
                        modified_ms: Some(9),
                    })
                })
                .collect(),
        }],
    }
}

#[test]
fn the_log_only_grows() {
    let mut engine = engine_with(vec![item("a", 10), item("b", 4)]);
    let mut before = engine.log_lines("t").expect("log");
    assert_eq!(before.len(), 1);
    for turn in 0..9 {
        match turn {
            0 => assert!(engine.tick_task_at("t", 1, 11).is_ok()),
            1 => assert!(engine.pause_task_at("t", 12).is_ok()),
            2 => assert!(engine.tick_task_at("t", 1, 13).is_ok()),
            3 => assert!(engine.resume_task_at("t", 14).is_ok()),
            4 => assert!(engine
                .lease_real_chunk_at("t", LaneAssignment::Wifi, 15)
                .is_ok()),
            5 => assert!(engine.record_task_failure_at("t", "lost", 16).is_ok()),
            6 => assert!(engine.tick_task_at("t", 1, 17).is_err()),
            7 => assert!(engine.retry_task_at("t", 18).is_ok()),
            _ => assert!(engine.cancel_task_at("t", 19).is_ok()),
        }
        let after = engine.log_lines("t").expect("log");
        assert_eq!(&after[..before.len()], &before[..]);
        before = after;
    }
    assert_eq!(before.len(), 8);
}

#[test]
fn no_chunk_is_leased_twice() {
    let mut engine = engine_with(vec![item("a", 10), item("b", 5)]);
    let mut seen: Vec<(usize, u32)> = Vec::new();
    let mut turn: u128 = 0;
    let mut state = TaskState::Pending;
    loop {
        let lane = if turn % 2 == 0 {
            LaneAssignment::Adb
        } else {
            LaneAssignment::Wifi
        };
        let lease = match engine.lease_real_chunk_at("t", lane, 20 + turn).expect("lease") {
            Some(lease) => lease,
            None => break,
        };
        seen.push((lease.chunk.file_index, lease.chunk.chunk_index));
        if turn == 1 {
            engine.pause_task_at("t", 22).expect("pause");
            assert!(engine
                .lease_real_chunk_at("t", lane, 22)
                .expect("lease")
                .is_none());
            engine.resume_task_at("t", 22).expect("resume");
        }
        let update = engine
            .complete_real_chunk_lease_at("t", lease, false, 30 + turn)
            .expect("complete");
        state = update.snapshot.state;
        turn += 1;
    }
    seen.sort();
    assert_eq!(seen, vec![(0, 0), (0, 1), (0, 2), (1, 0), (1, 1)]);
    assert_eq!(state, TaskState::Completed);
}

#[test]
fn drained_means_leased_and_completed() {
    let config = config("t", 4);
    let mut scheduler = Scheduler::new(&config, &[item("a", 10)]);
    let mut leases = Vec::new();
    assert!(!scheduler.is_drained());
    for lane in [LaneAssignment::Adb, LaneAssignment::Wifi, LaneAssignment::Adb] {
        match scheduler.lease_next(&config, lane) {
            SchedulerDecision::Lease(lease) => leases.push(lease),
            SchedulerDecision::Idle => panic!("a chunk still waits"),
        }
        assert!(!scheduler.is_drained());
    }
    assert!(matches!(
        scheduler.lease_next(&config, LaneAssignment::Adb),
        SchedulerDecision::Idle
    ));
    let last = leases.pop().expect("a lease");
    for lease in leases {
        scheduler.complete(lease);
        assert!(!scheduler.is_drained());
    }
    scheduler.complete(last);
    assert!(scheduler.is_drained());
    assert!(Scheduler::new(&config, &[]).is_drained());
}

#[test]
fn snapshots_ascend_by_id() {
    let mut engine = TransferEngine::new("/kept");
    for task_id in ["m", "b", "z", "a"] {
        engine
            .create_task_at(config(task_id, 4), vec![item("x", 6)], 10)
            .expect("task");
    }
    engine.tick_task_at("m", 1, 11).expect("tick");
    let ids = engine
        .snapshots()
        .into_iter()
        .map(|snapshot| {
            assert_eq!(
                snapshot.adb_bytes + snapshot.wifi_bytes,
                snapshot.committed_bytes
            );
            snapshot.task_id
        })
        .collect::<Vec<_>>();
    assert_eq!(ids, vec!["a", "b", "m", "z"]);
}

#[test]
fn a_second_request_finds_the_task() {
    let mut engine = TransferEngine::new("/kept");
    let first = engine
        .create_or_recover_task_from_paths_at(
            config("t", 4),
            Err("no such file".to_string()),
            &scan(vec![10]),
            10,
        )
        .expect("created");
    assert_eq!(first.total_bytes, 10);
    let kept = engine.checkpoint_file("t").expect("file").content;
    let second = engine
        .create_or_recover_task_from_paths_at(
            config("t", 8),
            Ok("broken".to_string()),
            &scan(vec![1, 2, 3]),
            20,
        )
        .expect("found");
    assert_eq!(second, first);
    assert_eq!(engine.checkpoint_file("t").expect("file").content, kept);
    assert_eq!(engine.log_lines("t").expect("log").len(), 1);
}

#[test]
fn checkpoint_and_snapshot_agree() {
    let mut engine = engine_with(vec![item("a", 10), item("b", 4)]);
    engine.tick_task_at("t", 2, 11).expect("tick");
    engine
        .record_real_chunk_commit_at(
            "t",
            ChunkDescriptor {
                file_index: 0,
                chunk_index: 2,
                offset: 8,
                length: 2,
            },
            LaneAssignment::Wifi,
            false,
            12,
        )
        .expect("commit");
    engine.pause_task_at("t", 13).expect("pause");
    let entry = engine
        .checkpoint_entry("t", Err("unread".to_string()))
        .expect("entry");
    let snapshot = &engine.snapshots()[0];
    let done = entry
        .checkpoint
        .files
        .iter()
        .map(|file| file.completed_chunks.len() as u64)
        .sum::<u64>();
    assert_eq!(entry.checkpoint.state, TaskState::Paused);
    assert_eq!(snapshot.state, TaskState::Paused);
    assert_eq!(done, 3);
    assert_eq!(snapshot.completed_chunks, 3);
    assert_eq!(entry.checkpoint.files.len(), snapshot.total_files);
}

#[test]
fn a_task_comes_back_after_a_mixed_life() {
    let mut engine = engine_with(vec![item("a", 10), item("b", 4)]);
    engine.tick_task_at("t", 1, 11).expect("tick");
    let lease = engine
        .lease_real_chunk_at("t", LaneAssignment::Wifi, 12)
        .expect("lease")
        .expect("a chunk");
    engine
        .complete_real_chunk_lease_at("t", lease, false, 13)
        .expect("complete");
    engine
        .record_task_failure_at("t", "cable pulled", 14)
        .expect("failure");
    let before = engine.snapshots().remove(0);
    let content = engine.checkpoint_file("t").expect("file").content;
    assert!(deserialize_entry(&content).is_ok());
    assert!(engine.delete_task_record("t"));
    let after = engine
        .recover_task_at("t", Ok(content), 20)
        .expect("recovered");
    assert_eq!(before.state, TaskState::Failed);
    assert_eq!(after.state, TaskState::Paused);
    assert_eq!(after.last_error, None);
    assert_eq!(after.committed_bytes, before.committed_bytes);
    assert_eq!(after.adb_bytes, before.adb_bytes);
    assert_eq!(after.wifi_bytes, before.wifi_bytes);
    assert_eq!(after.completed_chunks, 2);
    assert_eq!(after.total_bytes, 14);
}

#[test]
fn changes_are_told_ahead() {
    let mut engine = engine_with(vec![item("a", 10)]);
    assert!(!engine.cancel_would_change("x"));
    assert!(!engine.tick_would_change("x"));
    assert!(engine.tick_would_change("t"));
    engine.pause_task_at("t", 11).expect("pause");
    assert!(!engine.tick_would_change("t"));
    assert!(engine.cancel_would_change("t"));
    engine.cancel_task_at("t", 12).expect("cancel");
    assert!(!engine.cancel_would_change("t"));
    assert!(!engine.tick_would_change("t"));
}

#[test]
fn numbers_that_fit_are_told_ahead() {
    let mut engine = engine_with(vec![item("a", 10)]);
    assert!(engine.tick_would_fit("x"));
    assert!(engine.tick_would_fit("t"));
    let huge = ChunkDescriptor {
        file_index: 0,
        chunk_index: 7,
        offset: 28,
        length: u64::MAX,
    };
    engine
        .record_real_chunk_commit_at("t", huge, LaneAssignment::Adb, false, 11)
        .expect("commit");
    assert!(!engine.tick_would_fit("t"));
    engine.pause_task_at("t", 12).expect("pause");
    assert!(engine.tick_would_fit("t"));

    assert!(scan_would_fit(&scan(vec![u64::MAX])));
    assert!(!scan_would_fit(&scan(vec![u64::MAX, 1])));

    assert!(content_would_fit(&Err("no such file".to_string())));
    assert!(content_would_fit(&Ok("broken".to_string())));
    let kept = engine.checkpoint_file("t").expect("file").content;
    assert!(content_would_fit(&Ok(kept)));
}

#[test]
fn waiting_ends_after_twenty_seconds() {
    assert_eq!(WAIT_LIMIT_MS, 20_000);
    assert_eq!(WAIT_PAUSE_MS, 250);
    assert!(may_wait(0));
    assert!(may_wait(20_000));
    assert!(!may_wait(20_001));
}

#[test]
fn what_is_done_needs_no_room() {
    let mut engine = engine_with(vec![item("a", 10)]);
    let huge = ChunkDescriptor {
        file_index: 0,
        chunk_index: 0,
        offset: 0,
        length: u64::MAX - 6,
    };
    engine
        .record_real_chunk_commit_at("t", huge, LaneAssignment::Adb, false, 11)
        .expect("commit");
    assert!(engine.commit_would_fit("t", huge));
    let again = EngineNote::Chunk {
        chunk: huge,
        lane: LaneAssignment::Wifi,
        skipped: true,
    };
    let update = take_note_at(&mut engine, "t", again, 12)
        .expect("room")
        .expect("update");
    assert_eq!(update.snapshot.completed_chunks, 1);
    assert_eq!(update.snapshot.committed_bytes, u64::MAX - 6);

    assert!(engine.file_would_fit("t", 0));
    let other = ChunkDescriptor {
        chunk_index: 9,
        length: 7,
        ..huge
    };
    assert!(!engine.commit_would_fit("t", other));
    let file = EngineNote::File {
        file_index: 0,
        lane: LaneAssignment::Adb,
        skipped: false,
    };
    let update = take_note_at(&mut engine, "t", file, 13)
        .expect("room")
        .expect("update");
    assert_eq!(update.snapshot.completed_chunks, 3);
    assert_eq!(update.snapshot.committed_bytes, u64::MAX);
    assert!(engine.file_would_fit("t", 0));

    engine
        .record_task_failure_at("t", "lost", 14)
        .expect("failure");
    assert!(engine.commit_would_fit("t", other));
}

#[test]
fn a_file_without_room_is_told() {
    let mut engine = engine_with(vec![item("a", 10)]);
    let huge = ChunkDescriptor {
        file_index: 0,
        chunk_index: 0,
        offset: 0,
        length: u64::MAX - 5,
    };
    engine
        .record_real_chunk_commit_at("t", huge, LaneAssignment::Adb, false, 11)
        .expect("commit");
    assert!(!engine.file_would_fit("t", 0));
    let file = EngineNote::File {
        file_index: 0,
        lane: LaneAssignment::Adb,
        skipped: false,
    };
    assert!(take_note_at(&mut engine, "t", file, 12).is_none());
    assert_eq!(engine.snapshots()[0].completed_chunks, 1);
}

#[test]
fn progress_survives_texts_that_are_cut() {
    let mut settings = config("t", 4);
    settings.source_root = "/photos\r".to_string();
    settings.target_root = "/sdcard\r\r".to_string();
    let mut engine = TransferEngine::new("/kept");
    engine
        .create_task_at(settings, vec![item("a\r", 10)], 10)
        .expect("task");
    engine.tick_task_at("t", 2, 11).expect("tick");
    let before = engine.snapshots().remove(0);
    let content = engine.checkpoint_file("t").expect("file").content;
    let entry = deserialize_entry(&content).expect("entry");
    assert_eq!(entry.config.source_root, "/photos");
    assert_eq!(entry.config.target_root, "/sdcard\r");
    assert_eq!(entry.checkpoint.files[0].relative_path, "a\r");
    engine.delete_task_record("t");
    let after = engine
        .recover_task_at("t", Ok(content), 12)
        .expect("recovered");
    assert_eq!(after.task_id, before.task_id);
    assert_eq!(after.completed_chunks, before.completed_chunks);
    assert_eq!(after.committed_bytes, before.committed_bytes);
}

#[test]
fn recovered_tasks_lease_what_is_missing() {
    let mut engine = engine_with(vec![item("a", 10), item("b", 4)]);
    engine.tick_task_at("t", 2, 11).expect("tick");
    let entry = engine
        .checkpoint_entry("t", Err("unread".to_string()))
        .expect("entry");
    let content = engine.checkpoint_file("t").expect("file").content;
    engine.delete_task_record("t");
    engine
        .recover_task_at("t", Ok(content), 12)
        .expect("recovered");
    engine.resume_task_at("t", 13).expect("resume");
    let mut leased = 0;
    for lane in [LaneAssignment::Adb, LaneAssignment::Wifi] {
        while let Some(lease) = engine.lease_real_chunk_at("t", lane, 14).expect("lease") {
            let file = &entry.checkpoint.files[lease.chunk.file_index];
            assert!(!file.completed_chunks.contains(&lease.chunk.chunk_index));
            leased += 1;
            engine
                .complete_real_chunk_lease_at("t", lease, false, 15)
                .expect("complete");
        }
    }
    assert_eq!(leased, 2);
}
