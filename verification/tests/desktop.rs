//! Sizes, paths, bundles and lanes of transfers.

use nekotrans::adb_push::PushFile;
use nekotrans::bundle::{
    is_small_file_bundle_candidate, new_small_file_bundle, small_file_bundle_can_accept,
    SmallFileBundleEntry,
};
use nekotrans::codec::base64_decode;
use nekotrans::manifest::{
    collect_local_transfer_manifest, partition_dual_transfer_files, LocalTransferFile, LocalTree,
};
use nekotrans::paths::{safe_local_join, sanitize_agent_relative_path};
use nekotrans::same_file::DualSameFileLane;
use nekotrans::sizing::{
    android_verify_sample_ranges, dual_same_file_chunk_size, dual_wifi_chunk_size,
    same_file_calibration_sample_bytes, same_file_wifi_stride, small_file_bundle_max_bytes,
    small_file_bundle_max_files, wifi_transfer_chunk_size,
};
use nekotrans::wifi_chunk::{
    parse_chunk_status_state, remote_size_confirms_chunk_commit, ChunkStatusState,
};

fn local_file(index: usize, name: &str, size_bytes: u64) -> LocalTransferFile {
    LocalTransferFile {
        file_index: index,
        local_path: name.to_string(),
        relative_path: name.to_string(),
        size_bytes,
    }
}

#[test]
fn decodes_base64_payloads() {
    assert_eq!(base64_decode("").expect("empty"), b"");
    assert_eq!(base64_decode("Zg==").expect("f"), b"f");
    assert_eq!(base64_decode("Zm8=").expect("fo"), b"fo");
    assert_eq!(base64_decode("Zm9v").expect("foo"), b"foo");
    assert_eq!(base64_decode("aGVsbG8=").expect("hello"), b"hello");
}

#[test]
fn safe_local_join_removes_parent_segments() {
    let joined = safe_local_join("C:/target", "../bad/./file.txt").expect("safe path");
    assert_eq!(joined, "C:/target/bad/file.txt");
}

#[test]
fn safe_path_helpers_preserve_real_fixture_names() {
    let relative = ".minecraft/versions/L_Ender's Cataclysm 1.21.1-3.16.jar";
    assert_eq!(
        sanitize_agent_relative_path(relative),
        ".minecraft/versions/L_Ender's Cataclysm 1.21.1-3.16.jar"
    );

    let joined = safe_local_join("C:/target", ".minecraft/versions/坏 name's.jar")
        .expect("safe join should preserve normal unicode names");
    assert_eq!(joined, "C:/target/.minecraft/versions/坏 name's.jar");
}

#[test]
fn local_manifest_preserves_empty_directories() {
    let tree = LocalTree::Directory(
        vec![PushFile {
            local_path: "/tmp/root/with-file/a.txt".to_string(),
            relative_path: "with-file/a.txt".to_string(),
            size_bytes: 5,
        }],
        vec![
            "with-file".to_string(),
            "empty".to_string(),
            "empty/nested".to_string(),
        ],
    );

    let manifest = collect_local_transfer_manifest("/tmp/root", &tree).expect("collect manifest");
    let directories = manifest
        .directories
        .iter()
        .map(|dir| dir.relative_path.replace('\\', "/"))
        .collect::<Vec<_>>();
    let files = manifest
        .files
        .iter()
        .map(|file| file.relative_path.replace('\\', "/"))
        .collect::<Vec<_>>();

    assert!(directories.contains(&"empty".to_string()));
    assert!(directories.contains(&"empty/nested".to_string()));
    assert!(files.contains(&"with-file/a.txt".to_string()));
}

#[test]
fn remote_size_confirms_committed_chunk_at_expected_boundary() {
    assert!(remote_size_confirms_chunk_commit(1024, 1024));
    assert!(remote_size_confirms_chunk_commit(2048, 1024));
}

#[test]
fn remote_size_does_not_confirm_short_chunk_commit() {
    assert!(!remote_size_confirms_chunk_commit(1023, 1024));
}

#[test]
fn parses_committed_chunk_status() {
    let payload = r#"{"type":"ChunkAck","relative_path":"docs/file.bin","chunk_index":3,"status":"committed"}"#;
    assert_eq!(
        parse_chunk_status_state(payload, "docs/file.bin", 3),
        ChunkStatusState::Committed
    );
}

#[test]
fn parses_not_committed_chunk_status() {
    let payload = r#"{"type":"ChunkAck","relative_path":"docs/file.bin","chunk_index":3,"status":"not_committed"}"#;
    assert_eq!(
        parse_chunk_status_state(payload, "docs/file.bin", 3),
        ChunkStatusState::NotCommitted
    );
}

#[test]
fn parses_committed_on_disk_chunk_status() {
    let payload = r#"{"type":"ChunkAck","relative_path":"docs/file.bin","chunk_index":3,"status":"committed_on_disk"}"#;
    assert_eq!(
        parse_chunk_status_state(payload, "docs/file.bin", 3),
        ChunkStatusState::Committed
    );
}

#[test]
fn parses_path_mismatch_chunk_status() {
    let payload = r#"{"type":"ChunkAck","relative_path":"docs/file.bin","chunk_index":3,"status":"path_mismatch"}"#;
    assert_eq!(
        parse_chunk_status_state(payload, "docs/file.bin", 3),
        ChunkStatusState::PathMismatch
    );
}

#[test]
fn dual_partition_routes_large_files_to_same_file_dual_lane() {
    let (adb_files, wifi_files, same_file_dual_files) = partition_dual_transfer_files(vec![
        local_file(0, "movie.bin", 33 * 1024 * 1024),
        local_file(1, "note.txt", 128),
    ]);

    assert!(adb_files.is_empty());
    assert_eq!(wifi_files.len(), 1);
    assert_eq!(wifi_files[0].relative_path, "note.txt");
    assert_eq!(same_file_dual_files.len(), 1);
    assert_eq!(same_file_dual_files[0].relative_path, "movie.bin");
}

#[test]
fn dual_partition_alternates_small_files_between_lanes() {
    let (adb_files, wifi_files, same_file_dual_files) = partition_dual_transfer_files(vec![
        local_file(0, "a.txt", 100),
        local_file(1, "b.txt", 100),
        local_file(2, "c.txt", 100),
        local_file(3, "d.txt", 100),
    ]);

    assert!(same_file_dual_files.is_empty());
    assert_eq!(
        wifi_files
            .iter()
            .map(|file| file.relative_path.clone())
            .collect::<Vec<_>>(),
        vec!["a.txt".to_string(), "c.txt".to_string()]
    );
    assert_eq!(
        adb_files
            .iter()
            .map(|file| file.relative_path.clone())
            .collect::<Vec<_>>(),
        vec!["b.txt".to_string(), "d.txt".to_string()]
    );
}

#[test]
fn dual_same_file_keeps_large_real_fixture_chunk_size() {
    assert_eq!(dual_wifi_chunk_size(8 * 1024 * 1024), 256 * 1024);
    assert_eq!(
        dual_same_file_chunk_size(64 * 1024 * 1024, 8 * 1024 * 1024),
        8 * 1024 * 1024
    );
    assert_eq!(
        dual_same_file_chunk_size(1024 * 1024 * 1024, 8 * 1024 * 1024),
        32 * 1024 * 1024
    );
    assert_eq!(
        dual_same_file_chunk_size(8 * 1024 * 1024 * 1024, 8 * 1024 * 1024),
        64 * 1024 * 1024
    );
}

#[test]
fn small_file_bundle_flush_thresholds_are_decision_complete() {
    let bundle = new_small_file_bundle("task", 0);
    assert!(is_small_file_bundle_candidate(&local_file(0, "tiny.txt", 1)));
    assert!(is_small_file_bundle_candidate(&local_file(
        1,
        "empty.txt",
        0
    )));
    assert!(!is_small_file_bundle_candidate(&local_file(
        2,
        "large.bin",
        small_file_bundle_max_bytes() + 1
    )));
    assert!(small_file_bundle_can_accept(
        &bundle,
        &local_file(3, "final.txt", 1)
    ));

    let mut full_by_count = new_small_file_bundle("task", 1);
    for index in 0..small_file_bundle_max_files() {
        full_by_count.entries.push(SmallFileBundleEntry {
            file: local_file(index, "x.txt", 1),
            relative_path: format!("x-{index}.txt"),
            size_bytes: 1,
        });
    }
    assert!(!small_file_bundle_can_accept(
        &full_by_count,
        &local_file(4, "overflow.txt", 1)
    ));

    let mut nearly_full = new_small_file_bundle("task", 2);
    nearly_full
        .payload
        .resize(small_file_bundle_max_bytes() as usize, 0);
    nearly_full.entries.push(SmallFileBundleEntry {
        file: local_file(5, "filled.txt", 1),
        relative_path: "filled.txt".to_string(),
        size_bytes: 1,
    });
    assert!(!small_file_bundle_can_accept(
        &nearly_full,
        &local_file(6, "overflow.bin", 1)
    ));
}

#[test]
fn same_file_wifi_stride_uses_adb_heavy_distribution() {
    assert_eq!(same_file_wifi_stride(8 * 1024 * 1024 * 1024), 4);
    assert!(DualSameFileLane::Wifi.owns_chunk(1, 4));
    assert!(DualSameFileLane::Wifi.owns_chunk(5, 4));
    assert!(DualSameFileLane::Adb.owns_chunk(0, 4));
    assert!(DualSameFileLane::Adb.owns_chunk(2, 4));
    assert!(DualSameFileLane::Adb.owns_chunk(3, 4));
}

#[test]
fn same_file_calibration_sample_is_bounded() {
    assert_eq!(
        same_file_calibration_sample_bytes(1024 * 1024, 64 * 1024 * 1024),
        1024 * 1024
    );
    assert_eq!(
        same_file_calibration_sample_bytes(128 * 1024 * 1024, 4 * 1024 * 1024),
        8 * 1024 * 1024
    );
    assert_eq!(
        same_file_calibration_sample_bytes(1024 * 1024 * 1024, 256 * 1024 * 1024),
        64 * 1024 * 1024
    );
}

#[test]
fn android_verify_samples_cover_edges_without_duplicates() {
    let ranges = android_verify_sample_ranges(5 * 1024 * 1024 * 1024);
    assert!(ranges.len() >= 3);
    assert_eq!(ranges.first().copied(), Some((0, 256 * 1024)));
    assert_eq!(
        ranges.last().copied(),
        Some((5 * 1024 * 1024 * 1024 - 256 * 1024, 256 * 1024))
    );

    let unique = ranges
        .iter()
        .copied()
        .collect::<std::collections::BTreeSet<_>>();
    assert_eq!(unique.len(), ranges.len());
}

#[test]
fn wifi_transfer_chunk_size_scales_with_file_size() {
    assert_eq!(
        wifi_transfer_chunk_size(512 * 1024, 64 * 1024),
        256 * 1024
    );
    assert_eq!(
        wifi_transfer_chunk_size(32 * 1024 * 1024, 512 * 1024),
        1024 * 1024
    );
    assert_eq!(
        wifi_transfer_chunk_size(2 * 1024 * 1024 * 1024, 1024 * 1024),
        4 * 1024 * 1024
    );
    assert_eq!(
        wifi_transfer_chunk_size(8 * 1024 * 1024 * 1024, 16 * 1024 * 1024),
        8 * 1024 * 1024
    );
}
