//! Drafted and kept tasks, and how they are started.

use nekotrans::manifest::LocalTransferFile;
use nekotrans::models::{Direction, TransportMode};
use nekotrans::records::{
    check_pull_pause, combine_dual_results, create_transfer_task, delete_transfer_task,
    dual_lanes_of, list_ids, recover_persisted_task_records, recoverable_task_ids,
    source_size_from, start_adb_pull_from_record, start_adb_transfer_from_record,
    start_dual_pc_to_android_from_record, start_transfer_task, start_wifi_pull_from_record,
    start_wifi_transfer_from_record, validate_task_draft_inputs, Deletion, DualStart, RemoteSize,
    SourceFacts, TaskCreateDraft, TaskFileRecord, Worker,
};

const MIB: u64 = 1024 * 1024;

fn draft() -> TaskCreateDraft {
    TaskCreateDraft {
        source_path: " /home/cat/photos ".to_string(),
        target_root: " /sdcard/Nekotrans ".to_string(),
        direction: "PC -> Android".to_string(),
        transport_mode: "Dual Track".to_string(),
        verify_enabled: true,
        source_size_bytes: None,
        chunk_size_bytes: None,
        max_in_flight_chunks_per_lane: None,
        device_serial: Some("R3CN30".to_string()),
        agent_host: Some("  ".to_string()),
        target_path_policy: Some("preserve_relative".to_string()),
    }
}

fn folder() -> SourceFacts {
    SourceFacts {
        exists: true,
        is_file: false,
        parent: Some("/home/cat".to_string()),
        file_name: Some("photos".to_string()),
    }
}

fn record() -> TaskFileRecord {
    TaskFileRecord::from_draft(&draft(), "task-1", 5)
}

fn file(name: &str, size_bytes: u64) -> LocalTransferFile {
    LocalTransferFile {
        file_index: 0,
        local_path: format!("/home/cat/{name}"),
        relative_path: name.to_string(),
        size_bytes,
    }
}

fn texts(values: &[&str]) -> Vec<String> {
    values.iter().map(|value| value.to_string()).collect()
}

#[test]
fn records_leave_blank_lanes_out() {
    let record = record();
    assert_eq!(record.device_serial.as_deref(), Some("R3CN30"));
    assert_eq!(record.agent_host, None);
    assert_eq!(record.source_path, " /home/cat/photos ");
    assert_eq!(record.created_at_epoch_ms, 5);
    assert_eq!(record.requested_chunk_size(), 8 * MIB);
    assert_eq!(TaskFileRecord::file_name("task-1"), "task-1.json");
}

#[test]
fn docs_push_record_is_fixed() {
    let record = TaskFileRecord::docs_push("192.168.1.9:5555", "/repo/docs", 9);
    assert_eq!(record.task_id, "adb-docs-192-168-1-9-5555");
    assert_eq!(record.target_root, "/sdcard/NekotransDocs");
    assert_eq!(record.chunk_size_bytes, Some(8 * MIB));
    assert_eq!(start_transfer_task(&record), Ok(Worker::AdbPush));
}

#[test]
fn a_folder_draft_becomes_a_plan() {
    let plan = create_transfer_task(&draft(), &folder(), 77).expect("plan");
    assert_eq!(plan.source_path, "/home/cat/photos");
    assert_eq!(plan.selected, ".");
    assert_eq!(plan.config.task_id, "draft-photos-77");
    assert_eq!(plan.config.source_root, "/home/cat/photos");
    assert_eq!(plan.config.target_root, "/sdcard/Nekotrans");
    assert_eq!(plan.config.chunk_size_bytes, 8 * MIB);
    assert_eq!(plan.config.max_in_flight_chunks_per_lane, 4);
    assert!(plan.needs_manifest());
}

#[test]
fn a_file_draft_selects_the_file() {
    let facts = SourceFacts {
        is_file: true,
        ..folder()
    };
    let mut drafted = draft();
    drafted.chunk_size_bytes = Some(0);
    drafted.max_in_flight_chunks_per_lane = Some(9);
    let plan = create_transfer_task(&drafted, &facts, 1).expect("plan");
    assert_eq!(plan.config.source_root, "/home/cat");
    assert_eq!(plan.selected, "photos");
    assert_eq!(plan.config.chunk_size_bytes, 8 * MIB);
    assert_eq!(plan.config.max_in_flight_chunks_per_lane, 9);
}

#[test]
fn shared_files_decide_on_the_chunk_length() {
    let mut plan = create_transfer_task(&draft(), &folder(), 1).expect("plan");
    plan.suit_files(vec![file("note.txt", 10)]);
    assert_eq!(plan.config.chunk_size_bytes, 8 * MIB);
    plan.suit_files(vec![file("a.iso", 2048 * MIB), file("b.iso", 64 * MIB)]);
    assert_eq!(plan.config.chunk_size_bytes, 32 * MIB);
}

#[test]
fn drafts_are_refused_in_order() {
    let refused = |change: fn(&mut TaskCreateDraft), facts: &SourceFacts| {
        let mut drafted = draft();
        change(&mut drafted);
        create_transfer_task(&drafted, facts, 1).err().expect("refusal")
    };
    assert_eq!(
        refused(|d| d.source_path = " \t".to_string(), &folder()),
        "source path is required"
    );
    assert_eq!(
        refused(|d| d.direction = "sideways".to_string(), &folder()),
        "unsupported direction: sideways"
    );
    let missing = SourceFacts {
        exists: false,
        ..folder()
    };
    assert_eq!(
        refused(|d| d.target_root = String::new(), &missing),
        "source path does not exist: /home/cat/photos"
    );
    assert_eq!(
        refused(|d| d.target_root = "  ".to_string(), &folder()),
        "target root is required"
    );
    assert_eq!(
        refused(|d| d.transport_mode = "pigeon".to_string(), &folder()),
        "unsupported transport mode: pigeon"
    );
    assert_eq!(
        refused(|d| d.device_serial = None, &folder()),
        "Dual Track tasks currently require at least one usable lane: ADB serial or agent host"
    );
    assert_eq!(
        refused(|d| d.target_root = "C:\\target".to_string(), &folder()),
        "PC -> Android target root should be an Android-style path like /sdcard/Nekotrans"
    );
    let rootless = SourceFacts {
        is_file: true,
        parent: None,
        ..folder()
    };
    assert_eq!(
        refused(|_| {}, &rootless),
        "source file has no parent: /home/cat/photos"
    );
    let nameless = SourceFacts {
        is_file: true,
        file_name: None,
        ..folder()
    };
    assert_eq!(
        refused(|_| {}, &nameless),
        "source file has no name: /home/cat/photos"
    );
}

#[test]
fn lanes_are_asked_of_drafts() {
    let mut drafted = draft();
    drafted.device_serial = Some(" ".to_string());
    assert_eq!(
        validate_task_draft_inputs(&drafted, Direction::PcToAndroid, TransportMode::AdbOnly),
        Err("ADB-only tasks require an ADB serial".to_string())
    );
    assert_eq!(
        validate_task_draft_inputs(&drafted, Direction::PcToAndroid, TransportMode::WifiOnly),
        Err("Wi-Fi-only tasks require an agent host".to_string())
    );
    drafted.agent_host = Some("10.0.0.2".to_string());
    drafted.target_root = " ".to_string();
    assert_eq!(
        validate_task_draft_inputs(&drafted, Direction::AndroidToPc, TransportMode::WifiOnly),
        Err("Android -> PC tasks require a local target folder".to_string())
    );
    drafted.target_root = "C:\\target".to_string();
    assert_eq!(
        validate_task_draft_inputs(&drafted, Direction::AndroidToPc, TransportMode::Dual),
        Ok(())
    );
}

#[test]
fn pulled_sizes_come_from_the_draft_or_the_device() {
    let mut drafted = draft();
    assert_eq!(
        source_size_from(&drafted, Direction::PcToAndroid),
        RemoteSize::Known(0)
    );
    assert_eq!(
        source_size_from(&drafted, Direction::AndroidToPc),
        RemoteSize::Ask("R3CN30".to_string())
    );
    drafted.source_size_bytes = Some(12);
    assert_eq!(
        source_size_from(&drafted, Direction::AndroidToPc),
        RemoteSize::Known(12)
    );
    drafted.source_size_bytes = None;
    drafted.device_serial = None;
    assert_eq!(
        source_size_from(&drafted, Direction::AndroidToPc),
        RemoteSize::Known(0)
    );
}

#[test]
fn record_names_become_sorted_ids() {
    let names = texts(&["b.json", ".json", "a.json", "a.b.json", "notes.txt", "c.JSON"]);
    assert_eq!(list_ids(&names), texts(&["a", "a.b", "b"]));
    assert_eq!(
        recoverable_task_ids(&texts(&["z", "a"]), &texts(&["a", "m"])),
        texts(&["a", "m", "z"])
    );
    assert_eq!(
        recover_persisted_task_records(&texts(&["a", "m", "z"]), &texts(&["m"])),
        texts(&["a", "z"])
    );
}

#[test]
fn workers_follow_the_lanes_of_a_record() {
    let started = |direction: &str, mode: &str, serial: bool, host: bool| {
        let mut kept = record();
        kept.direction = direction.to_string();
        kept.transport_mode = mode.to_string();
        kept.device_serial = serial.then(|| "S".to_string());
        kept.agent_host = host.then(|| "H".to_string());
        start_transfer_task(&kept)
    };
    let push = "PC -> Android";
    let pull = "Android -> PC";
    assert_eq!(started(push, "ADB-only", false, false), Ok(Worker::AdbPush));
    assert_eq!(started(push, "Wi-Fi-only", true, false), Ok(Worker::WifiPush));
    assert_eq!(started(push, "Dual Track", true, true), Ok(Worker::DualPush));
    assert_eq!(started(push, "Dual Track", true, false), Ok(Worker::AdbPush));
    assert_eq!(started(push, "Dual Track", false, true), Ok(Worker::WifiPush));
    assert_eq!(started(pull, "ADB-only", true, true), Ok(Worker::AdbPull));
    assert_eq!(started(pull, "Wi-Fi-only", true, true), Ok(Worker::WifiPull));
    assert_eq!(started(pull, "Dual Track", true, true), Ok(Worker::WifiPull));
    assert_eq!(started(pull, "Dual Track", true, false), Ok(Worker::AdbPull));
    assert_eq!(
        started("up", "ADB-only", true, true),
        Err("unsupported direction: up".to_string())
    );
}

#[test]
fn single_lane_starts_need_their_lane() {
    let mut kept = record();
    let adb = start_adb_transfer_from_record(&kept).expect("push");
    assert_eq!(adb.card.serial, "R3CN30");
    assert_eq!(adb.card.remote_path, " /sdcard/Nekotrans ");
    assert_eq!(adb.card.state, "Running");
    assert_eq!(adb.chunk_size, 8 * MIB);
    assert!(!adb.rechunk);
    assert_eq!(
        start_wifi_transfer_from_record(&kept, &Vec::new()).err(),
        Some("agent_host is required for Wi-Fi transfer".to_string())
    );
    assert_eq!(
        start_wifi_pull_from_record(&kept).err(),
        Some("agent_host is required for Android -> PC transfer".to_string())
    );
    kept.device_serial = None;
    assert_eq!(
        start_adb_transfer_from_record(&kept).err(),
        Some("device_serial is required for ADB transfer".to_string())
    );
    assert_eq!(
        start_adb_pull_from_record(&kept).err(),
        Some("device_serial is required for ADB Android -> PC transfer".to_string())
    );
    kept.direction = "Android -> PC".to_string();
    assert_eq!(
        start_wifi_transfer_from_record(&kept, &Vec::new()).err(),
        Some("Wi-Fi worker currently supports PC -> Android tasks".to_string())
    );
}

#[test]
fn network_starts_choose_the_chunk_length() {
    let mut kept = record();
    kept.agent_host = Some("10.0.0.2".to_string());
    let plan = start_wifi_transfer_from_record(&kept, &vec![file("a.bin", 32 * MIB)])
        .expect("push");
    assert_eq!(plan.card.serial, "wifi:10.0.0.2");
    assert!(plan.rechunk);
    kept.chunk_size_bytes = Some(plan.chunk_size);
    let again = start_wifi_transfer_from_record(&kept, &vec![file("a.bin", 32 * MIB)])
        .expect("push");
    assert_eq!(again.chunk_size, plan.chunk_size);
    assert!(!again.rechunk);
    let pull = start_wifi_pull_from_record(&kept).expect("pull");
    assert_eq!(pull.card.serial, "wifi:10.0.0.2");
}

#[test]
fn dual_starts_split_the_files() {
    let mut kept = record();
    assert_eq!(
        dual_lanes_of(&kept),
        Err("agent_host is required for Dual transfer".to_string())
    );
    kept.agent_host = Some("10.0.0.2".to_string());
    assert_eq!(
        dual_lanes_of(&kept),
        Ok(("R3CN30".to_string(), "10.0.0.2".to_string()))
    );
    let start = |files| {
        start_dual_pc_to_android_from_record(&kept, "R3CN30", "10.0.0.2", false, files)
    };
    assert!(matches!(start(Vec::new()), DualStart::AdbOnly));
    match start(vec![
        file("a.txt", 1),
        file("b.txt", 2),
        file("movie.bin", 1024 * MIB),
    ]) {
        DualStart::Both(plan) => {
            assert_eq!(plan.wifi_files[0].relative_path, "a.txt");
            assert_eq!(plan.adb_files[0].relative_path, "b.txt");
            assert_eq!(plan.shared_files[0].relative_path, "movie.bin");
            assert_eq!(plan.card.serial, "dual:R3CN30+wifi:10.0.0.2");
            assert_eq!(plan.chunk_size, 32 * MIB);
            assert_eq!(plan.wifi_chunk_size, 256 * 1024);
            assert!(plan.rechunk);
            assert_eq!(plan.total_files, 3);
            assert_eq!(plan.total_bytes, Some(1024 * MIB + 3));
        }
        DualStart::AdbOnly => panic!("both lanes expected"),
    }
    kept.device_serial = None;
    assert_eq!(
        dual_lanes_of(&kept),
        Err("device_serial is required for Dual transfer".to_string())
    );
    kept.direction = "Android -> PC".to_string();
    assert_eq!(
        dual_lanes_of(&kept),
        Err("Dual worker currently supports PC -> Android tasks only".to_string())
    );
}

#[test]
fn dual_results_keep_the_first_complaint() {
    let ok = |text: &str| Ok::<String, String>(text.to_string());
    let err = |text: &str| Err::<String, String>(text.to_string());
    assert_eq!(
        combine_dual_results(&ok("a"), &ok("w"), &ok("s")),
        ok("Dual transfer completed.\nADB: a\nWi-Fi: w\nSame-file: s")
    );
    assert_eq!(
        combine_dual_results(&err("a"), &err("w"), &err("s")),
        err("a")
    );
    assert_eq!(combine_dual_results(&ok("a"), &err("w"), &err("s")), err("w"));
    assert_eq!(
        combine_dual_results(&ok("a"), &ok("w"), &err("s")),
        err("same-file Dual transfer failed: s")
    );
}

#[test]
fn deletions_spare_running_tasks() {
    assert_eq!(delete_transfer_task("demo-task", true), Deletion::Keep);
    assert_eq!(delete_transfer_task("task-1", false), Deletion::Delete);
    assert_eq!(
        delete_transfer_task("task-1", true),
        Deletion::Refuse("任务正在运行，请先取消后再删除记录。".to_string())
    );
    assert_eq!(check_pull_pause(false), Ok(()));
    assert_eq!(
        check_pull_pause(true),
        Err("transfer paused before adb pull".to_string())
    );
}
