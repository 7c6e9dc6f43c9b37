//! Exact values of the small functions that everything else is built on.

use nekotrans::adb_command::{
    assemble_remote_chunks, assemble_remote_file_from_chunks, chunk_streamed_message,
    finish_command, forward_agent_port, install_agent_apk, local_agent_forward_port,
    make_chunk_dirs, pull_path_from_device, push_to_device, read_failed_message,
    read_remote_file, remote_chunk_dir, remote_chunk_part, remote_file_size, remote_join,
    remote_parent, remote_path_join, remove_remote_path, run_adb_for_serial,
    run_adb_shell_script, sanitize_remote_fragment, shell_quote, stable_hash,
    stat_remote_file_size, write_file_chunk_at_offset,
};
use nekotrans::adb_device::{
    parse_adb_devices_output, parse_default_route_source_ip, parse_device_line,
    parse_getprop_output, AdbDiscoveryError,
};
use nekotrans::adb_probe::{
    next_probe_step, probe_adb_devices, probe_agent_capability, probe_single_device, DeviceFacts,
    ProbeStep,
};
use nekotrans::adb_push::{
    collect_push_files, push_fits, push_single_file_chunk_to_device, temp_chunk_name, LocalPath,
    PushFile, SingleChunk,
};
use nekotrans::adb_run::{blake3_digest_remote_file, compare_digests};
use nekotrans::agent::{
    ack_chunk, binary_reply_length, chunk_status, complete_file, encode_batch, file_snapshot,
    hello, log_snapshot, pause_task, ping, pull_chunk_binary, pull_chunk_payload,
    push_chunk_batch_binary, push_chunk_binary, push_chunk_payload, push_file_bundle_binary,
    reply_length_from, resume_task, set_target_root, start_file, start_task, stat_file,
    task_snapshot, verify_file, AgentClientError, AgentEndpoint, BinaryChunkFrame,
};
use nekotrans::cards::{settle_worker_result, AdbTransferCard, Settlement};
use nekotrans::codec::{
    base64_decode, base64_encode, decode_base64_byte, encode_path_arg, push_be32, push_be64,
};
use nekotrans::decimal::{
    dec_text, hex_text, padded, parse_u128, parse_u32, parse_u64, parse_usize, read_u64,
};
use nekotrans::digest::{blake3_digest_reader, digest_of, RangeDigest, StreamDigest};
use nekotrans::labels::{
    display_direction, display_state, display_transport_mode,
    is_recoverable_transfer_interruption, parse_direction_label, parse_transport_label,
};
use nekotrans::logging::{escape_json, optional_json_string, LogLevel, LogRecord, LogScope};
use nekotrans::manifest::{
    collect_local_transfer_manifest, partition_dual_transfer_files,
    same_file_dual_task_chunk_size, sum_bytes, wifi_task_chunk_size_for_files, LocalTransferFile,
    LocalTree,
};
use nekotrans::models::{
    is_large_file, now_epoch_ms, split_into_chunks, ChunkDescriptor, Direction, TaskState,
    TransportMode,
};
use nekotrans::order::{path_components, rank_paths, sorted_places, text_less, Rank};
use nekotrans::paths::{
    adb_like_remote_join, resolve_adb_pull_local_target, resolve_agent_pull_source,
    safe_local_join, sanitize_agent_relative_path, sanitize_task_id,
};
use nekotrans::remote_verify::ensure_verify_algorithm;
use nekotrans::same_file::{
    calibrate_same_file_lanes, completed_below, plan_same_file_lanes,
    same_file_resume_guard_chunks, DualSameFileLane, LaneRates,
};
use nekotrans::scheduler::LaneAssignment;
use nekotrans::sizing::{
    android_verify_sample_ranges, chunk_count_for_size, chunk_length_for,
    configured_same_file_wifi_stride, dual_same_file_chunk_size, is_file_fully_checkpointed,
    same_file_calibration_sample_bytes, same_file_wifi_batch_chunks,
    should_sample_android_verify, wifi_transfer_chunk_size,
};
use nekotrans::wifi_chunk::{
    ensure_chunk_response_status, take_raw_chunk, take_text_chunk, WifiChunkPushOutcome,
};

const KIB: u64 = 1024;
const MIB: u64 = 1024 * 1024;
const GIB: u64 = 1024 * 1024 * 1024;

fn texts(parts: &[&str]) -> Vec<String> {
    parts.iter().map(|part| part.to_string()).collect()
}

fn listed(index: usize, size_bytes: u64) -> LocalTransferFile {
    LocalTransferFile {
        file_index: index,
        local_path: format!("/l/{index}"),
        relative_path: format!("{index}"),
        size_bytes,
    }
}

#[test]
fn numbers_are_written_and_read() {
    assert_eq!(dec_text(0), "0");
    assert_eq!(dec_text(u128::MAX), u128::MAX.to_string());
    assert_eq!(hex_text(0), "0");
    assert_eq!(hex_text(0xdead_beef), "deadbeef");
    assert_eq!(padded("7", 3), "007");
    assert_eq!(padded("1234", 3), "1234");
    for text in ["", "+", "-1", "1 ", "0x1", "18446744073709551616", "+07", "٣"] {
        assert_eq!(parse_u64(text), text.parse::<u64>().ok());
        assert_eq!(parse_u32(text), text.parse::<u32>().ok());
        assert_eq!(parse_usize(text), text.parse::<usize>().ok());
        assert_eq!(parse_u128(text), text.parse::<u128>().ok());
        assert_eq!(
            read_u64(text),
            text.parse::<u64>().map_err(|err| err.to_string())
        );
    }
    assert_eq!(parse_u32("4294967296"), None);
    assert_eq!(parse_u32("4294967295"), Some(u32::MAX));
}

#[test]
fn chunks_are_counted_and_measured() {
    assert_eq!(chunk_count_for_size(0, 4), 1);
    assert_eq!(chunk_count_for_size(9, 4), 3);
    assert_eq!(chunk_count_for_size(9, 0), 9);
    assert_eq!(chunk_count_for_size(1 << 32, 1), 0);
    assert_eq!(chunk_length_for(0, 4, 3), 0);
    assert_eq!(chunk_length_for(9, 4, 2), 1);
    assert_eq!(chunk_length_for(9, 4, 3), 0);
    assert!(is_file_fully_checkpointed(9, 4, &vec![0, 1, 2]));
    assert!(!is_file_fully_checkpointed(9, 4, &vec![0, 1]));
    assert!(!is_file_fully_checkpointed(0, 4, &vec![]));
    let chunks = split_into_chunks(7, 9, 4);
    assert_eq!(
        chunks.last(),
        Some(&ChunkDescriptor {
            file_index: 7,
            chunk_index: 2,
            offset: 8,
            length: 1,
        })
    );
    assert_eq!(chunks.iter().map(|chunk| chunk.length).sum::<u64>(), 9);
    assert_eq!(split_into_chunks(0, 0, 4).len(), 1);
    assert_eq!(chunks[1].describe(), "file=7 chunk=1 offset=4 length=4");
    assert!(is_large_file(32, 32));
    assert!(!is_large_file(31, 32));
}

#[test]
fn chunk_sizes_follow_the_file() {
    assert_eq!(wifi_transfer_chunk_size(0, 1), MIB);
    assert_eq!(wifi_transfer_chunk_size(1, 1), 256 * KIB);
    assert_eq!(wifi_transfer_chunk_size(MIB, 1), 512 * KIB);
    assert_eq!(wifi_transfer_chunk_size(16 * MIB, 1), MIB);
    assert_eq!(wifi_transfer_chunk_size(128 * MIB, 1), 2 * MIB);
    assert_eq!(wifi_transfer_chunk_size(GIB, 1), 4 * MIB);
    assert_eq!(wifi_transfer_chunk_size(4 * GIB, 1), 8 * MIB);
    assert_eq!(wifi_transfer_chunk_size(1, u64::MAX), 8 * MIB);
    assert_eq!(dual_same_file_chunk_size(GIB - 1, 1), 8 * MIB);
    assert_eq!(dual_same_file_chunk_size(GIB, 1), 32 * MIB);
    assert_eq!(dual_same_file_chunk_size(4 * GIB, 1), 64 * MIB);
    assert_eq!(dual_same_file_chunk_size(1, u64::MAX), 64 * MIB);
    assert_eq!(same_file_calibration_sample_bytes(5, 64 * MIB), 5);
    assert_eq!(same_file_calibration_sample_bytes(GIB, 1), 8 * MIB);
    assert_eq!(configured_same_file_wifi_stride(None), None);
    assert_eq!(configured_same_file_wifi_stride(Some("x")), None);
    assert_eq!(configured_same_file_wifi_stride(Some("1")), Some(2));
    assert_eq!(configured_same_file_wifi_stride(Some("99")), Some(16));
    assert_eq!(same_file_wifi_batch_chunks(None), 4);
    assert_eq!(same_file_wifi_batch_chunks(Some("0")), 1);
    assert_eq!(same_file_wifi_batch_chunks(Some("9")), 8);
    let files = vec![listed(0, 1), listed(1, 4 * GIB)];
    assert_eq!(wifi_task_chunk_size_for_files(&files, 1), 8 * MIB);
    assert_eq!(sum_bytes(&files), Some(4 * GIB + 1));
    assert_eq!(sum_bytes(&vec![listed(0, 1), listed(1, u64::MAX)]), None);
    assert_eq!(same_file_dual_task_chunk_size(vec![listed(0, 1)], 1), None);
}

#[test]
fn samples_touch_both_ends() {
    assert_eq!(android_verify_sample_ranges(0), vec![(0, 0)]);
    assert_eq!(android_verify_sample_ranges(10), vec![(0, 10)]);
    assert_eq!(
        android_verify_sample_ranges(MIB),
        vec![
            (0, 256 * KIB),
            (384 * KIB, 256 * KIB),
            (768 * KIB, 256 * KIB)
        ]
    );
    assert!(!should_sample_android_verify(1));
    assert!(should_sample_android_verify(8 * GIB));
}

#[test]
fn files_are_dealt_to_lanes_once() {
    let sizes = [1, 40 * MIB, 3, 600 * MIB, 5 * MIB, 0];
    let files = sizes
        .iter()
        .enumerate()
        .map(|(index, size)| listed(index, *size))
        .collect::<Vec<_>>();
    let (adb, wifi, shared) = partition_dual_transfer_files(files);
    let mut dealt = adb
        .iter()
        .chain(&wifi)
        .chain(&shared)
        .map(|file| file.file_index)
        .collect::<Vec<_>>();
    dealt.sort();
    assert_eq!(dealt, vec![0, 1, 2, 3, 4, 5]);
    assert!(shared.iter().any(|file| file.size_bytes == 600 * MIB));
}

#[test]
fn local_listings_are_ordered() {
    let found = LocalTree::Directory(
        vec![
            PushFile {
                local_path: "/l/b.txt".to_string(),
                relative_path: "b.txt".to_string(),
                size_bytes: 2,
            },
            PushFile {
                local_path: "/l/a/c.txt".to_string(),
                relative_path: "a/c.txt".to_string(),
                size_bytes: 3,
            },
        ],
        texts(&["z", "a"]),
    );
    let manifest = collect_local_transfer_manifest("/l", &found).expect("manifest");
    let names = manifest
        .files
        .iter()
        .map(|file| (file.file_index, file.relative_path.as_str()))
        .collect::<Vec<_>>();
    assert_eq!(names, vec![(0, "a/c.txt"), (1, "b.txt")]);
    assert_eq!(manifest.directories[0].relative_path, "a");
    let single = collect_local_transfer_manifest(
        "/l/b.txt",
        &LocalTree::File(Some("b.txt".to_string()), 2),
    )
    .expect("manifest");
    assert_eq!(single.files[0].relative_path, "b.txt");
    assert!(single.directories.is_empty());
    assert!(collect_local_transfer_manifest("/gone", &LocalTree::Missing).is_err());

    let files = collect_push_files("/l/b.txt", &LocalPath::File(None, 2)).expect("files");
    assert_eq!(files[0].relative_path, ".");
    assert_eq!(
        collect_push_files("/gone", &LocalPath::Missing)
            .unwrap_err()
            .message(),
        "local path does not exist: /gone"
    );
    assert!(push_fits(&files));
    assert!(!push_fits(&vec![PushFile {
        local_path: String::new(),
        relative_path: String::new(),
        size_bytes: u64::MAX,
    }]));
}

#[test]
fn bytes_survive_the_text_encoding() {
    for length in 0..40usize {
        let bytes = (0..length).map(|i| (i * 37) as u8).collect::<Vec<_>>();
        assert_eq!(base64_decode(&base64_encode(&bytes)), Ok(bytes));
    }
    assert_eq!(base64_decode(" aGVs\nbG8= "), Ok(b"hello".to_vec()));
    assert_eq!(
        base64_decode("abc"),
        Err("invalid base64 length".to_string())
    );
    assert_eq!(
        base64_decode("ab*d"),
        Err("invalid base64 byte 42".to_string())
    );
    assert_eq!(decode_base64_byte(b'/'), Ok(63));
    assert_eq!(decode_base64_byte(b'='), Ok(64));
    assert_eq!(encode_path_arg("a b\\名"), "a%20b/%E5%90%8D");
    let mut out = Vec::new();
    push_be32(&mut out, 0x0102_0304);
    push_be64(&mut out, 5);
    assert_eq!(out, vec![1, 2, 3, 4, 0, 0, 0, 0, 0, 0, 0, 5]);
}

#[test]
fn paths_are_made_safe() {
    assert_eq!(
        sanitize_agent_relative_path("../a//./b\u{7}c\\d"),
        "a/bc/d"
    );
    assert_eq!(safe_local_join("/root", "..\\x/./y"), Ok("/root/x/y".to_string()));
    assert_eq!(
        safe_local_join("/root", ".\u{1}./.\u{1}/a"),
        Ok("/root/.././a".to_string())
    );
    assert!(safe_local_join("/root", ".\u{1}").is_err());
    assert_eq!(sanitize_agent_relative_path("\u{1}../.\u{7}."), "../..");
    assert_eq!(
        safe_local_join("/root", "../."),
        Err("relative path did not contain a safe file name".to_string())
    );
    assert_eq!(adb_like_remote_join("/sdcard//", "./a\\b"), "/sdcard/a/b");
    assert_eq!(adb_like_remote_join("/", "a"), "a");
    assert_eq!(adb_like_remote_join("/sdcard", ""), "/sdcard");
    assert_eq!(
        resolve_adb_pull_local_target("C:/t", "/sdcard/a/"),
        Ok("C:/t/a".to_string())
    );
    assert_eq!(
        resolve_adb_pull_local_target("C:/t", "//"),
        Err("remote path has no file name: //".to_string())
    );
    assert_eq!(sanitize_task_id("a b/ç9"), "a-b--9");

    let absolute = resolve_agent_pull_source("/cat.jpg").expect("source");
    assert_eq!(absolute.agent_root.as_deref(), Some("/"));
    assert_eq!(absolute.agent_relative_path, "cat.jpg");
    let nested = resolve_agent_pull_source("\\sdcard\\a\\cat.jpg/").expect("source");
    assert_eq!(nested.agent_root.as_deref(), Some("/sdcard/a"));
    let relative = resolve_agent_pull_source("a/../cat.jpg").expect("source");
    assert_eq!(relative.agent_root, None);
    assert_eq!(relative.local_relative_path, "a/cat.jpg");
    assert_eq!(
        resolve_agent_pull_source("/").err(),
        Some("remote path has no file name: /".to_string())
    );
    assert_eq!(
        resolve_agent_pull_source("/a/ ").err(),
        Some("remote path has no file name: /a/ ".to_string())
    );
}

#[test]
fn texts_and_paths_are_ordered() {
    assert!(text_less("a", "b"));
    assert!(text_less("a", "aa"));
    assert!(!text_less("a", "a"));
    assert_eq!(path_components("a//./b/."), texts(&["a", "b"]));
    assert!(matches!(rank_paths("a/b", "a//b"), Rank::Same));
    assert!(matches!(rank_paths("a/b", "a.b"), Rank::Before));
    assert_eq!(sorted_places(&texts(&["b", "a/z", "a"])), vec![2, 1, 0]);
}

#[test]
fn labels_name_everything() {
    assert_eq!(display_direction(Direction::PcToAndroid), "PC -> Android");
    assert_eq!(display_direction(Direction::AndroidToPc), "Android -> PC");
    assert_eq!(display_transport_mode(TransportMode::WifiOnly), "Wi-Fi-only");
    assert_eq!(display_state(TaskState::Cancelled), "Cancelled");
    for mode in [
        TransportMode::AdbOnly,
        TransportMode::WifiOnly,
        TransportMode::Dual,
    ] {
        assert_eq!(parse_transport_label(&display_transport_mode(mode)), Ok(mode));
    }
    assert!(parse_transport_label("carrier pigeon").is_err());
    assert!(parse_direction_label("sideways").is_err());
    assert!(is_recoverable_transfer_interruption("Connection REFUSED"));
    assert!(is_recoverable_transfer_interruption("连接尝试失败"));
    assert!(!is_recoverable_transfer_interruption("disk full"));
}

#[test]
fn logs_are_single_lines() {
    let record = LogRecord::new_at(5, LogLevel::Warn, LogScope::Device, "a\"b\\\n\t\r")
        .with_task_id("t")
        .with_file_path("p")
        .with_chunk_id("3")
        .with_lane("adb");
    assert_eq!(
        record.to_json_line(),
        "{\"ts_epoch_ms\":5,\"level\":\"warn\",\"scope\":\"device\",\"task_id\":\"t\",\"file_path\":\"p\",\"chunk_id\":\"3\",\"lane\":\"adb\",\"message\":\"a\\\"b\\\\\\n\\t\\r\"}"
    );
    assert_eq!(escape_json("\\n"), "\\\\n");
    assert_eq!(optional_json_string(&None), "null");
    assert_eq!(optional_json_string(&Some("x".to_string())), "\"x\"");
    assert_eq!(LogLevel::Error.as_str(), "error");
    assert_eq!(LogScope::Protocol.as_str(), "protocol");
}

#[test]
fn device_commands_are_spelled_out() {
    assert_eq!(
        run_adb_for_serial("S", &["get-state"]),
        texts(&["-s", "S", "get-state"])
    );
    assert_eq!(
        run_adb_shell_script("S", "ls"),
        texts(&["-s", "S", "shell", "ls"])
    );
    assert_eq!(
        install_agent_apk("S", "a.apk"),
        texts(&["-s", "S", "install", "-r", "a.apk"])
    );
    assert_eq!(
        pull_path_from_device("S", "/r", "/l"),
        texts(&["-s", "S", "pull", "/r", "/l"])
    );
    assert_eq!(
        push_to_device("S", "/l", "/r"),
        texts(&["-s", "S", "push", "/l", "/r"])
    );
    assert_eq!(
        stat_remote_file_size("S", "/a b"),
        texts(&[
            "-s",
            "S",
            "shell",
            "if [ -f '/a b' ]; then stat -c %s '/a b'; else echo missing; fi"
        ])
    );
    assert_eq!(
        remove_remote_path("S", "/it's"),
        texts(&["-s", "S", "shell", "rm -rf '/it'\\''s'"])
    );
    assert_eq!(
        assemble_remote_chunks("S", "/f", "/c")[3],
        "cat '/c'/part-* > '/f.nekotrans-tmp' && mv '/f.nekotrans-tmp' '/f' && rm -rf '/c'"
    );
    assert_eq!(
        assemble_remote_file_from_chunks("S", "/f"),
        assemble_remote_chunks("S", "/f", &remote_chunk_dir("/f"))
    );
    assert_eq!(
        make_chunk_dirs("S", "/d/f")[3],
        format!("mkdir -p '/d' '{}'", remote_chunk_dir("/d/f"))
    );
    let write = |offset: u64, length: u64| -> String {
        write_file_chunk_at_offset("S", "/d/f", offset, length)
            .last()
            .expect("script")
            .clone()
    };
    assert_eq!(write(0, 0), "mkdir -p '/d' && touch '/d/f'");
    assert_eq!(
        write(3 * MIB, 1),
        "mkdir -p '/d' && dd of='/d/f' bs=1048576 seek=3 conv=notrunc status=none"
    );
    assert_eq!(
        write(8192, 1),
        "mkdir -p '/d' && dd of='/d/f' bs=4096 seek=2 conv=notrunc status=none"
    );
    assert_eq!(
        write(7, 1),
        "mkdir -p '/d' && dd of='/d/f' bs=1 seek=7 conv=notrunc status=none"
    );
    assert_eq!(chunk_streamed_message(4), "chunk 4 streamed via adb stdin");
    assert_eq!(
        read_remote_file("S", "/f"),
        texts(&["-s", "S", "exec-out", "sh", "-c", "cat '/f'"])
    );
    assert_eq!(
        read_failed_message("/f", " "),
        "adb exec-out cat failed for remote file: /f"
    );
    assert_eq!(
        read_failed_message("/f", " no \n"),
        "adb exec-out cat failed for remote file /f: no"
    );
    let (port, remove, add) = forward_agent_port("S");
    assert_eq!(port, 39083);
    assert_eq!(local_agent_forward_port("S"), 39083);
    assert_eq!(
        remove,
        texts(&["-s", "S", "forward", "--remove", "tcp:39083"])
    );
    assert_eq!(add[2..], texts(&["forward", "tcp:39083", "tcp:38997"]));
}

#[test]
fn remote_names_are_built() {
    assert_eq!(remote_parent("/a/b/"), "/a");
    assert_eq!(remote_parent("/a"), "/");
    assert_eq!(remote_parent("a"), ".");
    assert_eq!(remote_join("/r/", "./a\\b"), "/r/a/b");
    assert_eq!(remote_join("", ""), ".");
    assert_eq!(remote_path_join("/r", "a"), "/r/a");
    assert_eq!(shell_quote("a'b"), "'a'\\''b'");
    assert_eq!(sanitize_remote_fragment("/a b/c.txt"), "a_b_c.txt");
    assert_eq!(sanitize_remote_fragment(&"x".repeat(99)).len(), 80);
    assert_eq!(stable_hash(""), 0xcbf2_9ce4_8422_2325);
    assert_eq!(stable_hash("a"), 0xaf63_dc4c_8601_ec8c);
    assert_eq!(
        remote_chunk_part("a", 3),
        "/sdcard/Nekotrans/.chunks/af63dc4c8601ec8c-a/part-00000003"
    );
    assert_eq!(
        temp_chunk_name(12, Some("a b"), 3),
        "12-a_b-00000003.part"
    );
    assert_eq!(temp_chunk_name(12, None, 3), "12-chunk-00000003.part");
    assert!(matches!(
        push_single_file_chunk_to_device("a", 3, 9, Some(9)),
        SingleChunk::Present(message) if message == "chunk 3 already exists"
    ));
    assert!(matches!(
        push_single_file_chunk_to_device("a", 3, 9, None),
        SingleChunk::Push(part) if part == remote_chunk_part("a", 3)
    ));
}

#[test]
fn command_endings_are_judged() {
    assert_eq!(
        finish_command(true, Ok("out".to_string()), Ok(String::new())).ok(),
        Some("out".to_string())
    );
    assert!(matches!(
        finish_command(false, Ok("out".to_string()), Ok(" bad \n".to_string())),
        Err(AdbDiscoveryError::CommandFailed(message)) if message == "bad"
    ));
    assert!(matches!(
        finish_command(true, Err("no text".to_string()), Ok(String::new())),
        Err(AdbDiscoveryError::Utf8(message)) if message == "no text"
    ));
    assert_eq!(remote_file_size(" 12\n").ok(), Some(Some(12)));
    assert_eq!(remote_file_size("missing\n").ok(), Some(None));
    assert_eq!(remote_file_size("").ok(), Some(None));
    assert_eq!(
        remote_file_size("x").unwrap_err().message(),
        "invalid digit found in string"
    );
    assert_eq!(
        blake3_digest_remote_file("/f", None, true, "d", ""),
        Ok(None)
    );
    assert_eq!(
        blake3_digest_remote_file("/f", Some(1), true, "d", ""),
        Ok(Some("d".to_string()))
    );
    assert_eq!(
        blake3_digest_remote_file("/f", Some(1), false, "d", "gone"),
        Err("adb exec-out cat failed for remote file /f: gone".to_string())
    );
    assert_eq!(
        compare_digests("s", "/f", &Err("io".to_string()), &Ok(None)),
        Err("io".to_string())
    );
}

#[test]
fn devices_are_read_off_a_list() {
    let devices = parse_adb_devices_output(
        "* daemon started\nList of devices attached\n\nA1 device model:X product:p device:d transport_id:4 odd\n10.0.0.1:5555 offline\nlone\n",
    );
    assert_eq!(devices.len(), 2);
    assert_eq!(devices[0].model.as_deref(), Some("X"));
    assert_eq!(devices[0].transport_id.as_deref(), Some("4"));
    assert_eq!(devices[0].transport_hint, "ADB (USB)");
    assert_eq!(devices[1].transport_hint, "ADB (TCP)");
    assert!(parse_device_line("lone").is_none());
    let props = parse_getprop_output("[a.b]: [c]\nnoise\n [d]: [e]] \n[a.b]: [f]");
    assert_eq!(props.get("a.b").as_deref(), Some("f"));
    assert_eq!(props.get("d").as_deref(), Some("e"));
    assert_eq!(props.get("g"), None);
    assert_eq!(
        parse_default_route_source_ip("8.8.8.8 via 10.0.0.1 dev wlan0 src 10.0.0.5 uid 0")
            .as_deref(),
        Some("10.0.0.5")
    );
    assert_eq!(parse_default_route_source_ip("unreachable"), None);
}

#[test]
fn probes_ask_in_order() {
    let device = parse_device_line("A1 device model:X").expect("device");
    let mut facts = DeviceFacts::new();
    let mut asked = Vec::new();
    loop {
        match next_probe_step(&device, &facts) {
            ProbeStep::State => {
                asked.push("state");
                facts.state = Some(Ok("device\n".to_string()));
            }
            ProbeStep::Props => {
                asked.push("props");
                facts.props = Some(Ok(
                    "[ro.build.version.sdk]: [34]\n[ro.build.version.release]: [14]".to_string(),
                ));
            }
            ProbeStep::Package => {
                asked.push("package");
                facts.package = Some(Ok("package:/a.apk\n".to_string()));
            }
            ProbeStep::Sdcard => {
                asked.push("sdcard");
                facts.sdcard = Some(Ok("ready\n".to_string()));
            }
            ProbeStep::Route => {
                asked.push("route");
                facts.route = Some(Ok("x src 10.0.0.5".to_string()));
            }
            ProbeStep::Direct(ip) => {
                asked.push("direct");
                assert_eq!(ip, "10.0.0.5");
                facts.direct = Some(Err("refused".to_string()));
            }
            ProbeStep::Tunnel => {
                asked.push("tunnel");
                facts.tunnel = Some(Ok("{}".to_string()));
            }
            ProbeStep::Done => break,
        }
    }
    assert_eq!(
        asked,
        vec!["state", "props", "package", "sdcard", "route", "direct", "tunnel"]
    );
    let agent = probe_agent_capability(&facts);
    assert_eq!(agent.detail, "10.0.0.5:38997 unavailable; ADB tunnel ready");
    let probed = probe_single_device(&device, &facts);
    assert!(probed.shell_ready);
    assert!(probed.remote_sdcard_ready);
    assert_eq!(probed.wifi_agent_ip.as_deref(), Some("10.0.0.5"));
    assert_eq!(probed.preflight_checks.len(), 9);
    assert_eq!(probed.preflight_checks[2].detail, "Android 14 / SDK 34");
    assert!(probed.preflight_checks[2].passed);
    assert!(!probed.preflight_checks[3].passed);
    assert_eq!(probed.preflight_checks[8].detail, "none");

    let offline = parse_device_line("B2 offline").expect("device");
    assert!(matches!(
        next_probe_step(&offline, &DeviceFacts::new()),
        ProbeStep::Done
    ));
    let all = probe_adb_devices(&vec![(offline, DeviceFacts::new()), (device, facts)]);
    assert_eq!(all.len(), 2);
    assert_eq!(
        all[0].probe_error.as_deref(),
        Some("device status is offline")
    );
}

#[test]
fn agent_requests_are_spelled_out() {
    let host = "10.0.0.2";
    let lines = [
        (hello(host), "HELLO"),
        (ping(host), "PING"),
        (task_snapshot(host), "TASK_SNAPSHOT"),
        (pause_task(host), "PAUSE_TASK"),
        (resume_task(host), "RESUME_TASK"),
        (file_snapshot(host), "FILE_SNAPSHOT"),
        (log_snapshot(host), "LOG_SNAPSHOT"),
        (start_task(host, "t 1"), "START_TASK t1"),
        (set_target_root(host, "/a b"), "SET_TARGET_ROOT /a%20b"),
        (start_file(host, "a\\b", 9), "START_FILE a/b 9"),
        (complete_file(host, "a", 9), "COMPLETE_FILE a 9"),
        (ack_chunk(host, 3), "CHUNK_ACK 3"),
        (stat_file(host, "a"), "STAT_FILE a"),
        (verify_file(host, "a"), "VERIFY_FILE a BLAKE3"),
        (chunk_status(host, "a", 1, 2, 3), "CHUNK_STATUS a 1 2 3"),
        (pull_chunk_payload(host, "a", 2, 3), "PULL_CHUNK a 2 3"),
        (pull_chunk_binary(host, "a", 2, 3), "PULL_CHUNK_BIN a 2 3"),
        (
            push_chunk_payload(host, "a", 1, 2, b"foo"),
            "PUSH_CHUNK a 1 2 Zm9v",
        ),
        (
            push_chunk_binary(host, "a", 1, 2, b"foo"),
            "PUSH_CHUNK_BIN a 1 2 3",
        ),
        (
            push_file_bundle_binary(host, "b 1", b"mm", b"ppp"),
            "PUSH_FILE_BUNDLE_BIN b1 2 3",
        ),
    ];
    for (request, line) in &lines {
        assert_eq!(request.command, *line);
        assert_eq!(request.line(), format!("{line}\n"));
        assert_eq!(request.endpoint.socket_addr(), "10.0.0.2:38997");
    }
    assert_eq!(lines[13].0.timeout_ms, 1_800_000);
    assert_eq!(lines[16].0.timeout_ms, 120_000);
    assert_eq!(lines[0].0.timeout_ms, 5000);
    assert_eq!(lines[18].0.body, b"foo".to_vec());
    assert_eq!(lines[19].0.body, b"mmppp".to_vec());
    let frames = [BinaryChunkFrame {
        chunk_index: 1,
        offset: 2,
        payload: b"xy",
    }];
    let batch = push_chunk_batch_binary(host, "a", &frames).expect("batch");
    assert_eq!(batch.command, "PUSH_CHUNK_BATCH_BIN a 1");
    assert_eq!(batch.timeout_ms, 120_000);
    assert_eq!(
        batch.body,
        vec![0, 0, 0, 1, 0, 0, 0, 0, 0, 0, 0, 2, 0, 0, 0, 2, b'x', b'y']
    );
    assert_eq!(encode_batch(&[]).expect("batch"), Vec::<u8>::new());
    assert_eq!(AgentEndpoint::new("h", 1).socket_addr(), "h:1");
}

#[test]
fn reply_headers_are_judged() {
    assert_eq!(binary_reply_length("{\"length\":5}").ok(), Some(5));
    assert_eq!(
        binary_reply_length("{\"type\":\"Error\",\"length\":5}")
            .unwrap_err()
            .message(),
        "{\"type\":\"Error\",\"length\":5}"
    );
    assert_eq!(
        binary_reply_length("{\"length\":\"5\"}").unwrap_err().message(),
        "binary reply header missing length: {\"length\":\"5\"}"
    );
    let broken = binary_reply_length("{").unwrap_err();
    assert!(matches!(&broken, AgentClientError::Io(_)));
    assert!(broken.message().starts_with("invalid binary reply header: EOF"));
    assert_eq!(
        reply_length_from("h", Some("p".to_string()), None, Some(1))
            .unwrap_err()
            .message(),
        "invalid binary reply header: p"
    );
    assert_eq!(
        ensure_chunk_response_status("{\"status\":\"written\"}", &["written"]),
        Ok(())
    );
    assert!(ensure_chunk_response_status("{\"status\":\"denied\"}", &["written"]).is_err());
    assert!(ensure_chunk_response_status("{}", &["written"]).is_err());
    assert_eq!(
        ensure_verify_algorithm("{\"algorithm\":\"blake3\"}", "BLAKE3"),
        Ok(())
    );
    assert!(ensure_verify_algorithm("{\"algorithm\":\"md5\"}", "BLAKE3").is_err());
    assert!(ensure_verify_algorithm("{}", "BLAKE3").is_err());
    assert_eq!(
        take_raw_chunk("a", 2, "{\"length\":2}", vec![1, 2]),
        Ok(vec![1, 2])
    );
    assert!(take_raw_chunk("a", 3, "{\"length\":2}", vec![1, 2]).is_err());
    assert_eq!(
        take_text_chunk("a", 3, "raw", &Ok("{\"payload\":\"Zm9v\"}".to_string())),
        Ok(b"foo".to_vec())
    );
    assert!(take_text_chunk("a", 2, "raw", &Ok("{\"payload\":\"Zm9v\"}".to_string())).is_err());
    assert!(take_text_chunk("a", 3, "raw", &Err("gone".to_string())).is_err());
    assert_eq!(
        WifiChunkPushOutcome::Pushed.event_name(),
        "wifi-chunk-pushed"
    );
}

#[test]
fn digests_do_not_depend_on_the_pieces() {
    let bytes = (0..200_000u32).map(|i| i as u8).collect::<Vec<_>>();
    let whole = digest_of(&bytes);
    assert_eq!(
        digest_of(b""),
        "af1349b9f5f9a1a6a0404dea36dcc9499bcb25c9adc112b7cc9a93cae41f3262"
    );
    assert_eq!(
        blake3_digest_reader(&vec![bytes[..7].to_vec(), Vec::new(), bytes[7..].to_vec()]),
        whole
    );
    let mut stream = StreamDigest::new();
    stream.feed(&bytes[..100]);
    stream.feed(&bytes[100..]);
    assert_eq!(stream.finish(), whole);

    let mut range = RangeDigest::new(10, 70_000);
    let mut at = 10usize;
    while range.wanted() > 0 {
        let count = range.wanted() as usize;
        range.feed(&bytes[at..at + count]);
        at += count;
    }
    assert_eq!(range.finish(), Ok(digest_of(&bytes[10..70_010])));
    let mut short = RangeDigest::new(10, 7);
    short.feed(&bytes[10..12]);
    assert_eq!(
        short.finish(),
        Err("short local read while hashing range: offset=10 length=7".to_string())
    );
}

#[test]
fn worker_endings_are_settled() {
    let paused = Err("device offline".to_string());
    let failed = Err("disk full".to_string());
    assert!(matches!(
        settle_worker_result(true, &failed),
        Settlement::Leave
    ));
    assert!(matches!(
        settle_worker_result(false, &Ok("done".to_string())),
        Settlement::Leave
    ));
    assert!(matches!(
        settle_worker_result(false, &paused),
        Settlement::Pause
    ));
    assert!(matches!(
        settle_worker_result(false, &failed),
        Settlement::Fail(message) if message == "disk full"
    ));
    let mut card = AdbTransferCard::new("t", "S", "/r");
    assert!(card.is_busy());
    card.note_pause_requested();
    card.settle(false, &paused, "completed");
    assert_eq!((card.state.as_str(), card.last_event.as_str()), ("Paused", "paused"));
    card.settle(false, &failed, "completed");
    assert_eq!((card.state.as_str(), card.last_event.as_str()), ("Failed", "failed"));
    card.settle(false, &Ok("done".to_string()), "adb-completed");
    assert_eq!(card.state, "Completed");
    assert_eq!(card.last_event, "adb-completed");
    assert_eq!(card.last_message, "done");
    assert!(!card.is_busy());
    card.settle(true, &failed, "completed");
    assert_eq!(card.last_message, "task cancelled by user");
}

#[test]
fn shared_files_are_planned() {
    assert_eq!(DualSameFileLane::Adb.assignment(), LaneAssignment::Adb);
    for index in 0..9u32 {
        assert_ne!(
            DualSameFileLane::Adb.owns_chunk(index, 4),
            DualSameFileLane::Wifi.owns_chunk(index, 4)
        );
    }
    assert_eq!(
        same_file_resume_guard_chunks(&vec![0, 1, 2, 3, 4, 5, 6, 7, 8], 4),
        vec![0, 1, 5, 7, 8]
    );
    assert_eq!(same_file_resume_guard_chunks(&vec![], 4), Vec::<u32>::new());
    assert_eq!(completed_below(&vec![5, 1, 3, 1], 5), vec![1, 3]);

    let rates = LaneRates {
        sample_bytes: 8,
        adb: "1 MiB/s".to_string(),
        wifi: "2 MiB/s".to_string(),
    };
    let env = plan_same_file_lanes(Some(7), 3, Err("unused".to_string()));
    assert_eq!(env.summary(), "lane_plan=env wifi_stride=7 wifi_batch_chunks=3");
    let tried = plan_same_file_lanes(None, 3, Ok((2, rates)));
    assert_eq!(
        tried.summary(),
        "lane_plan=startup-calibration wifi_stride=2 wifi_batch_chunks=3 sample=8 adb=1 MiB/s wifi=2 MiB/s"
    );
    let trial = calibrate_same_file_lanes("t 1", "/r", GIB, 1, 42).expect("trial");
    assert_eq!(trial.sample_bytes, 32 * MIB);
    assert_eq!(trial.remote_root, "/r/.nekotrans-calibration");
    assert_eq!(trial.adb_file, "/r/.nekotrans-calibration/t-1-42-adb.bin");
    assert_eq!(
        trial.wifi_relative,
        ".nekotrans-calibration/t-1-42-wifi.bin"
    );
    assert_eq!(
        calibrate_same_file_lanes("t", "/r", 0, 1, 42).err(),
        Some("empty calibration sample".to_string())
    );
}

#[test]
fn the_clock_is_past_the_epoch() {
    assert!(now_epoch_ms() > 1_600_000_000_000);
}
