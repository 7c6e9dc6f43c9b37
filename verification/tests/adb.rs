//! Talking to devices over ADB.

use nekotrans::adb_command::{
    local_agent_forward_port, remote_chunk_dir, remote_chunk_part, remote_join, remote_parent,
    sanitize_remote_fragment, shell_quote,
};
use nekotrans::adb_device::{
    build_preflight_checks, parse_adb_devices_output,
    parse_getprop_output, AdbDiscoveryError, AgentCapabilityProbe, DiscoveredAdbDevice,
};
use nekotrans::adb_push::{check_pause, AdbTransferControl};
use nekotrans::digest::blake3_digest_reader;
use std::sync::atomic::{AtomicBool, Ordering};
use std::sync::Arc;

#[test]
fn parses_usb_and_tcp_devices() {
    let output = r#"List of devices attached
R3CN30ABCDEF       device usb:1-4 product:cheetah model:Pixel_7_Pro device:cheetah transport_id:3
192.168.31.9:5555  unauthorized transport_id:5

"#;

    let devices = parse_adb_devices_output(output);
    assert_eq!(devices.len(), 2);
    assert_eq!(devices[0].serial, "R3CN30ABCDEF");
    assert_eq!(devices[0].status, "device");
    assert_eq!(devices[0].model.as_deref(), Some("Pixel_7_Pro"));
    assert_eq!(devices[0].transport_hint, "ADB (USB)");
    assert_eq!(devices[1].transport_hint, "ADB (TCP)");
    assert_eq!(devices[1].status, "unauthorized");
}

#[test]
fn ignores_header_and_empty_lines() {
    let output = "List of devices attached\n\n";
    let devices = parse_adb_devices_output(output);
    assert!(devices.is_empty());
}

#[test]
fn parses_getprop_key_values() {
    let output = r#"
[ro.product.manufacturer]: [Google]
[ro.build.version.release]: [14]
[ro.build.version.sdk]: [34]
[service.adb.tcp.port]: [5555]
"#;

    let props = parse_getprop_output(output);
    assert_eq!(
        props.get("ro.product.manufacturer").as_deref(),
        Some("Google")
    );
    assert_eq!(props.get("ro.build.version.release").as_deref(), Some("14"));
    assert_eq!(props.get("service.adb.tcp.port").as_deref(), Some("5555"));
}

#[test]
fn builds_preflight_checks_from_probe_inputs() {
    let device = DiscoveredAdbDevice {
        serial: "R3CN30ABCDEF".to_string(),
        status: "device".to_string(),
        model: Some("Pixel_7_Pro".to_string()),
        product: Some("cheetah".to_string()),
        device_name: Some("cheetah".to_string()),
        transport_id: Some("3".to_string()),
        transport_hint: "ADB (USB)".to_string(),
    };

    let checks = build_preflight_checks(
        &device,
        Some("device"),
        Some("14"),
        Some("34"),
        Some("arm64-v8a"),
        Some("5555"),
        Some("package:/data/app/~~abc/base.apk"),
        Some(&AgentCapabilityProbe {
            ip: Some("192.168.31.20".to_string()),
            capability_json: Some("{\"type\":\"Capability\"}".to_string()),
            detail: "192.168.31.20:38997 ready".to_string(),
        }),
        true,
        true,
        None,
    );

    assert!(checks.iter().any(|check| check.key == "adb_shell" && check.passed));
    assert!(checks.iter().any(|check| check.key == "android_sdk" && check.passed));
    assert!(checks.iter().any(|check| check.key == "wifi_candidate" && check.passed));
    assert!(checks.iter().any(|check| check.key == "agent_package" && check.passed));
    assert!(checks.iter().any(|check| check.key == "agent_capability" && check.passed));
    assert!(checks.iter().any(|check| check.key == "remote_sdcard" && check.passed));
}

#[test]
fn parses_default_route_source_ip() {
    let output = "8.8.8.8 via 192.168.31.1 dev wlan0 src 192.168.31.20 uid 2000";
    assert_eq!(
        nekotrans::adb_device::parse_default_route_source_ip(output).as_deref(),
        Some("192.168.31.20")
    );
    assert_eq!(
        nekotrans::adb_device::parse_default_route_source_ip("unreachable").as_deref(),
        None
    );
}

#[test]
fn derives_stable_local_forward_port_from_serial() {
    let first = local_agent_forward_port("R3CN30ABCDEF");
    let second = local_agent_forward_port("R3CN30ABCDEF");
    let other = local_agent_forward_port("ZX1G22");
    assert_eq!(first, second);
    assert_ne!(first, other);
    assert!((39000..40000).contains(&first));
}

#[test]
fn hashes_streamed_bytes_with_blake3() {
    let pieces = vec![b"nekotrans ".to_vec(), b"remote bytes".to_vec()];
    let digest = blake3_digest_reader(&pieces);
    let expected = blake3::hash(b"nekotrans remote bytes").to_hex().to_string();
    assert_eq!(digest, expected);
}

#[test]
fn computes_remote_parent_paths() {
    assert_eq!(remote_parent("/sdcard/NekotransDocs"), "/sdcard");
    assert_eq!(remote_parent("/sdcard/NekotransDocs/"), "/sdcard");
    assert_eq!(remote_parent("relative.txt"), ".");
    assert_eq!(remote_parent("/file.txt"), "/");
}

#[test]
fn quotes_shell_arguments() {
    assert_eq!(shell_quote("/sdcard/My Docs"), "'/sdcard/My Docs'");
    assert_eq!(shell_quote("/sdcard/it's"), "'/sdcard/it'\\''s'");
}

#[test]
fn joins_remote_paths_with_unix_separators() {
    assert_eq!(
        remote_join("/sdcard/NekotransDocs", "a/b/readme.txt"),
        "/sdcard/NekotransDocs/a/b/readme.txt"
    );
    assert_eq!(
        remote_join("/sdcard/NekotransDocs/", "readme.txt"),
        "/sdcard/NekotransDocs/readme.txt"
    );
}

#[test]
fn builds_stable_remote_chunk_dirs() {
    let first = remote_chunk_dir("/sdcard/NekotransDocs/archive.bin");
    let second = remote_chunk_dir("/sdcard/NekotransDocs/archive.bin");
    assert_eq!(first, second);
    assert!(first.starts_with("/sdcard/Nekotrans/.chunks/"));
    assert!(first.contains("archive.bin"));
}

#[test]
fn builds_stable_remote_chunk_part_paths() {
    assert_eq!(
        remote_chunk_part("/sdcard/NekotransDocs/archive.bin", 7),
        format!(
            "{}/part-00000007",
            remote_chunk_dir("/sdcard/NekotransDocs/archive.bin")
        )
    );
}

#[test]
fn sanitizes_remote_fragments_for_shell_paths() {
    assert_eq!(
        sanitize_remote_fragment("/sdcard/My Docs/it's.bin"),
        "sdcard_My_Docs_it_s.bin"
    );
}

#[test]
fn pause_control_stops_at_boundaries() {
    let flag = Arc::new(AtomicBool::new(true));
    let control = Some(AdbTransferControl::new(flag.clone()));
    let paused = |c: &Option<AdbTransferControl>| c.as_ref().map_or(false, |c| c.is_paused());
    let result = check_pause(paused(&control));
    assert!(matches!(result, Err(AdbDiscoveryError::Paused(_))));

    flag.store(false, Ordering::Relaxed);
    assert!(check_pause(paused(&control)).is_ok());
}
