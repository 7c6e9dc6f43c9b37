//! The smoke run of the workers.

use nekotrans::adb_device::{DiscoveredAdbDevice, ProbedAdbDevice};
use nekotrans::engine_task::EngineTaskSnapshot;
use nekotrans::models::{Direction, TaskState, TransportMode};
use nekotrans::smoke::{
    create_desktop_worker_smoke_task, deterministic_smoke_bytes, parse_desktop_worker_smoke_modes,
    run_desktop_worker_smoke, smoke_dual_problem, smoke_remote_base, DesktopWorkerSmokeMode,
    SmokeStep,
};

fn texts(values: &[&str]) -> Vec<String> {
    values.iter().map(|value| value.to_string()).collect()
}

fn device(serial: &str, ip: Option<&str>) -> ProbedAdbDevice {
    ProbedAdbDevice {
        discovered: DiscoveredAdbDevice {
            serial: serial.to_string(),
            status: "device".to_string(),
            model: None,
            product: None,
            device_name: None,
            transport_id: None,
            transport_hint: "ADB (USB)".to_string(),
        },
        adb_state: None,
        manufacturer: None,
        android_release: None,
        sdk_level: None,
        cpu_abi: None,
        adb_tcp_port: None,
        agent_package_path: None,
        wifi_agent_ip: ip.map(|ip| ip.to_string()),
        wifi_agent_capability: None,
        remote_sdcard_ready: true,
        shell_ready: true,
        probe_error: None,
        preflight_checks: Vec::new(),
    }
}

fn snapshot(task_id: &str, state: TaskState) -> EngineTaskSnapshot {
    EngineTaskSnapshot {
        task_id: task_id.to_string(),
        state,
        direction: Direction::PcToAndroid,
        transport_mode: TransportMode::AdbOnly,
        verify_enabled: true,
        total_files: 2,
        total_bytes: 76,
        committed_bytes: 76,
        adb_bytes: 76,
        wifi_bytes: 0,
        completed_chunks: 2,
        last_error: None,
    }
}

#[test]
fn smoke_modes_are_read_from_labels() {
    let adb = DesktopWorkerSmokeMode::Adb;
    let wifi = DesktopWorkerSmokeMode::Wifi;
    let dual = DesktopWorkerSmokeMode::Dual;
    let parse = |labels: &[&str]| parse_desktop_worker_smoke_modes(&texts(labels));
    assert_eq!(parse(&[]), Ok(vec![adb, wifi, dual]));
    assert_eq!(
        parse(&["dual-track, ADB", "Wi-Fi-Only,dual"]),
        Ok(vec![dual, adb, wifi])
    );
    assert_eq!(
        parse(&["adb,Pigeon,owl"]),
        Err("unknown desktop worker smoke mode: pigeon".to_string())
    );
    assert_eq!(
        parse(&[" , "]),
        Err("desktop worker smoke mode list is empty".to_string())
    );
    assert_eq!(wifi.chunk_size(), 256 * 1024);
    assert_eq!(dual.chunk_size(), 8 * 1024 * 1024);
    assert_eq!(adb.transport_mode(), TransportMode::AdbOnly);
    assert!(!adb.needs_agent() && wifi.needs_agent() && dual.needs_agent());
}

#[test]
fn smoke_runs_refuse_what_they_cannot_use() {
    let begin = |serial: &str, host: Option<&str>, labels: &[&str]| {
        run_desktop_worker_smoke(serial, host, &texts(labels), 1)
            .err()
            .expect("refusal")
    };
    assert_eq!(
        begin(" ", None, &[]),
        "desktop worker smoke requires an ADB serial"
    );
    assert_eq!(
        begin("S", None, &["owl"]),
        "unknown desktop worker smoke mode: owl"
    );
    assert_eq!(
        begin("S", Some("10.0.0.2:38997"), &["wifi"]),
        "agent host should be a host/IP without port; the desktop agent client uses 38997"
    );
}

#[test]
fn an_adb_smoke_run_needs_no_agent() {
    let mut run = run_desktop_worker_smoke(" S ", Some("a:b"), &texts(&["adb"]), 7).expect("run");
    assert_eq!(run.id(), "desktop-worker-smoke-7");
    assert_eq!(
        smoke_remote_base(&run.id()),
        "/sdcard/Download/NekotransDesktopSmoke/desktop-worker-smoke-7"
    );
    match run.next_step().expect("step") {
        SmokeStep::Run(mode, part) => {
            assert_eq!(mode, DesktopWorkerSmokeMode::Adb);
            assert_eq!(part.source_name, "source-adb");
            assert_eq!(part.task_id, "desktop-worker-smoke-7-adb");
            assert_eq!(
                part.remote_root,
                "/sdcard/Download/NekotransDesktopSmoke/desktop-worker-smoke-7/adb"
            );
            assert_eq!(part.lane_label, "S");
        }
        _ => panic!("a worker expected"),
    }
    let done = vec![snapshot("desktop-worker-smoke-7-adb", TaskState::Completed)];
    run.take_part(&Ok(()), &done, None, "0.50");
    match run.next_step().expect("step") {
        SmokeStep::Done(report) => assert_eq!(
            report,
            "desktop worker smoke completed for S\nadb ok: files=2 bytes=76 elapsed=0.50s"
        ),
        _ => panic!("the end expected"),
    }
}

#[test]
fn a_probed_host_is_greeted_first() {
    let mut run = run_desktop_worker_smoke("S", Some(" "), &texts(&["dual"]), 7).expect("run");
    assert!(matches!(run.next_step(), Ok(SmokeStep::Probe)));
    run.take_devices(&Ok(vec![device("T", None), device("S", Some("10.0.0.2"))]));
    assert!(matches!(run.next_step(), Ok(SmokeStep::Greet(host)) if host == "10.0.0.2"));
    run.take_greeting(&Ok("{}".to_string()));
    match run.next_step().expect("step") {
        SmokeStep::Run(_, part) => assert_eq!(part.lane_label, "dual:S+wifi:10.0.0.2"),
        _ => panic!("a worker expected"),
    }
    let done = vec![snapshot("desktop-worker-smoke-7-dual", TaskState::Completed)];
    run.take_part(&Ok(()), &done, None, "1.00");
    match run.next_step().expect("step") {
        SmokeStep::Done(report) => assert_eq!(
            report,
            "desktop worker smoke completed for S\nagent_host=10.0.0.2\ndual ok: files=2 bytes=76 elapsed=1.00s"
        ),
        _ => panic!("the end expected"),
    }
}

#[test]
fn hosts_that_do_not_answer_end_the_run() {
    let begin = || run_desktop_worker_smoke("S", None, &texts(&["wifi"]), 7).expect("run");
    let mut run = begin();
    run.take_devices(&Ok(vec![device("S", Some("10.0.0.2"))]));
    run.take_greeting(&Err("refused".to_string()));
    assert_eq!(
        run.next_step().err().expect("failure"),
        "direct LAN agent probe failed at 10.0.0.2: refused; pass --host <agent-ip> after confirming the phone is reachable on port 38997"
    );
    let mut run = begin();
    run.take_devices(&Ok(vec![device("S", None)]));
    assert_eq!(
        run.next_step().err().expect("failure"),
        "ADB device S did not report a Wi-Fi agent IP"
    );
    let mut run = begin();
    run.take_devices(&Ok(Vec::new()));
    assert_eq!(
        run.next_step().err().expect("failure"),
        "ADB device S was not found"
    );
    let mut run =
        run_desktop_worker_smoke("S", Some("10.0.0.3"), &texts(&["wifi"]), 7).expect("run");
    run.take_greeting(&Err("refused".to_string()));
    assert_eq!(run.next_step().err().expect("failure"), "refused");
}

#[test]
fn unfinished_workers_fail_the_run() {
    let begin = || run_desktop_worker_smoke("S", None, &texts(&["adb"]), 7).expect("run");
    let mut run = begin();
    run.take_part(&Err("no space".to_string()), &Vec::new(), None, "0.10");
    assert_eq!(run.next_step().err().expect("failure"), "no space");
    let mut run = begin();
    run.take_part(&Ok(()), &Vec::new(), None, "0.10");
    assert_eq!(
        run.next_step().err().expect("failure"),
        "desktop worker smoke task desktop-worker-smoke-7-adb was not found"
    );
    let mut run = begin();
    let failed = vec![snapshot("desktop-worker-smoke-7-adb", TaskState::Failed)];
    run.take_part(&Ok(()), &failed, Some("\"lost\""), "0.10");
    assert_eq!(
        run.next_step().err().expect("failure"),
        "desktop worker smoke task desktop-worker-smoke-7-adb ended in Failed: Some(\"lost\")"
    );
}

#[test]
fn smoke_files_repeat_after_251_bytes() {
    let bytes = deterministic_smoke_bytes(250, 4, 17);
    assert_eq!(bytes, vec![11, 17, 18, 19]);
    let config = create_desktop_worker_smoke_task(
        3,
        "t",
        DesktopWorkerSmokeMode::Wifi,
        "/src",
        "/sdcard/x",
    );
    assert_eq!(config.chunk_size_bytes, 256 * 1024);
    assert!(config.verify_enabled);
    assert_eq!(config.created_at_epoch_ms, 3);
    let ok = Ok::<String, String>(String::new());
    assert_eq!(smoke_dual_problem(&ok, &ok), None);
    assert_eq!(
        smoke_dual_problem(&ok, &Err("w".to_string())).as_deref(),
        Some("w")
    );
    assert_eq!(
        smoke_dual_problem(&Err("a".to_string()), &Err("w".to_string())).as_deref(),
        Some("a")
    );
}
