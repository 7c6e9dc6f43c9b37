//! What the dashboard shows.

use nekotrans::adb_device::{DiscoveredAdbDevice, PreflightCheck, ProbedAdbDevice};
use nekotrans::dashboard::{
    default_agent_apk_path, default_docs_path, discover_device_cards, find_snapshot,
    sample_task_template, task_is_cancelled, DeviceCard, TaskCard,
};
use nekotrans::engine_task::EngineTaskSnapshot;
use nekotrans::models::{Direction, TaskState, TransportMode};

fn snapshot(task_id: &str, committed: u64, total: u64) -> EngineTaskSnapshot {
    EngineTaskSnapshot {
        task_id: task_id.to_string(),
        state: TaskState::Running,
        direction: Direction::PcToAndroid,
        transport_mode: TransportMode::Dual,
        verify_enabled: true,
        total_files: 2,
        total_bytes: total,
        committed_bytes: committed,
        adb_bytes: 1,
        wifi_bytes: 2,
        completed_chunks: 3,
        last_error: None,
    }
}

fn device() -> ProbedAdbDevice {
    ProbedAdbDevice {
        discovered: DiscoveredAdbDevice {
            serial: "R3CN30".to_string(),
            status: "device".to_string(),
            model: None,
            product: None,
            device_name: Some("cheetah".to_string()),
            transport_id: None,
            transport_hint: "ADB (USB)".to_string(),
        },
        adb_state: Some("device".to_string()),
        manufacturer: Some("Google".to_string()),
        android_release: Some("14".to_string()),
        sdk_level: None,
        cpu_abi: None,
        adb_tcp_port: Some("5555".to_string()),
        agent_package_path: None,
        wifi_agent_ip: None,
        wifi_agent_capability: None,
        remote_sdcard_ready: true,
        shell_ready: true,
        probe_error: None,
        preflight_checks: vec![PreflightCheck {
            key: "adb_link",
            label: "ADB Link",
            passed: true,
            detail: "status=device".to_string(),
        }],
    }
}

#[test]
fn progress_is_told_in_percent() {
    let percent =
        |committed, total| TaskCard::from_snapshot(&snapshot("t", committed, total)).progress_percent;
    assert_eq!(percent(0, 0), 100);
    assert_eq!(percent(0, 7), 0);
    assert_eq!(percent(1, 3), 33);
    assert_eq!(percent(3, 3), 100);
    assert_eq!(percent(u64::MAX, u64::MAX), 1);
    let card = TaskCard::from_snapshot(&snapshot("t", 1, 3));
    assert_eq!(card.state, "Running");
    assert_eq!(card.direction, "PC -> Android");
    assert_eq!(card.transport_mode, "Dual Track");
    assert_eq!(card.completed_chunks, 3);
}

#[test]
fn snapshots_are_found_by_task() {
    let mut cancelled = snapshot("b", 0, 1);
    cancelled.state = TaskState::Cancelled;
    let all = vec![snapshot("a", 0, 1), cancelled];
    assert_eq!(find_snapshot(&all, "b"), Some(1));
    assert_eq!(find_snapshot(&all, "c"), None);
    assert!(task_is_cancelled(&all, "b"));
    assert!(!task_is_cancelled(&all, "a"));
    assert!(!task_is_cancelled(&all, "c"));
    let template = sample_task_template(&all[0]);
    assert_eq!(template.chunk_size_mb, 8);
    assert_eq!(template.task_id, "a");
}

#[test]
fn devices_tell_how_they_are_reached() {
    let card = DeviceCard::from_adb_probe(&device());
    assert_eq!(card.label, "cheetah");
    assert_eq!(card.lane_mode, "ADB (USB) + TCP Candidate");
    assert!(card.wifi_ready && card.adb_ready && card.transfer_ready);
    assert_eq!(card.protocol_version, "adb-preflight");
    assert_eq!(card.status_text, "adb shell ready");
    assert_eq!(card.platform_text, "Google / Android 14 / SDK ?");
    assert_eq!(card.preflight_checks[0].label, "ADB Link");

    let mut agent = device();
    agent.wifi_agent_ip = Some("10.0.0.2".to_string());
    assert_eq!(
        DeviceCard::from_adb_probe(&agent).lane_mode,
        "ADB (USB) + LAN 10.0.0.2"
    );
    agent.wifi_agent_capability = Some("{}".to_string());
    let shown = DeviceCard::from_adb_probe(&agent);
    assert_eq!(shown.lane_mode, "ADB (USB) + Agent 10.0.0.2:38997");
    assert_eq!(shown.protocol_version, "agent-capability");
    assert_eq!(shown.agent_host.as_deref(), Some("10.0.0.2"));

    let mut quiet = device();
    quiet.adb_tcp_port = Some("-1".to_string());
    quiet.shell_ready = false;
    quiet.manufacturer = None;
    let shown = DeviceCard::from_adb_probe(&quiet);
    assert_eq!(shown.lane_mode, "ADB (USB)");
    assert!(!shown.wifi_ready);
    assert_eq!(shown.status_text, "device status is device");
    assert_eq!(shown.platform_text, "Unknown OEM / Android 14 / SDK ?");

    let mut networked = device();
    networked.discovered.serial = "10.0.0.9:5555".to_string();
    networked.adb_tcp_port = None;
    networked.probe_error = Some("timeout".to_string());
    let shown = DeviceCard::from_adb_probe(&networked);
    assert_eq!(shown.lane_mode, "ADB (TCP)");
    assert!(shown.wifi_ready);
    assert_eq!(shown.status_text, "timeout");
}

#[test]
fn searches_for_devices_are_logged() {
    let (cards, line) = discover_device_cards(&Ok(vec![device()]), 5);
    assert_eq!(cards.len(), 1);
    assert!(line.contains("\"message\":\"adb discovery completed\""));
    assert!(line.contains("\"ts_epoch_ms\":5"));
    let (cards, line) = discover_device_cards(&Ok(Vec::new()), 5);
    assert!(cards.is_empty());
    assert!(line.contains("adb discovery completed with no attached devices"));
    let (cards, line) = discover_device_cards(&Err("no adb".to_string()), 5);
    assert!(cards.is_empty());
    assert!(line.contains("\"level\":\"warn\""));
    assert!(line.contains("adb discovery failed: no adb"));
}

#[test]
fn the_first_place_that_is_there_is_taken() {
    let places = vec!["a".to_string(), "b".to_string()];
    assert_eq!(
        default_docs_path(&places, &vec![false, true]),
        Ok("b".to_string())
    );
    assert_eq!(
        default_docs_path(&places, &vec![true, true]),
        Ok("a".to_string())
    );
    assert_eq!(
        default_docs_path(&places, &vec![false, false]),
        Err("Demo docs directory was not found. Tried:\n  - a\n  - b".to_string())
    );
    assert_eq!(
        default_agent_apk_path(&places, &vec![false, false]),
        Err("Android agent APK was not found. Build it first, then retry Install Agent. Tried:\n  - a\n  - b".to_string())
    );
}
