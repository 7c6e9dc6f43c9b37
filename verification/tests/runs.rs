//! Whole transfers, against a phone that is played in memory.

use nekotrans::adb_command::{remote_chunk_dir, stat_remote_file_size};
use nekotrans::adb_pull_run::{run_adb_android_to_pc, AdbPullStep};
use nekotrans::adb_push::{
    push_path_to_device, push_path_to_device_with_control, AdbPushProgress, PushFile, PushStep,
};
use nekotrans::adb_run::{
    run_dual_adb_pc_to_android_files, verify_adb_pc_to_android_transfer, AdbLaneStep,
};
use nekotrans::agent_ask::AgentAsk;
use nekotrans::bundle::{
    add_file_to_small_file_bundle, bundle_path_of, new_small_file_bundle, push_directory_bundle,
    small_file_bundle_can_accept,
};
use nekotrans::cards::{AdbTransferCard, DualNote, DualTransferAggregate};
use nekotrans::checkpoint::{initialize_checkpoint, CheckpointEntry};
use nekotrans::codec::base64_encode;
use nekotrans::digest::digest_of;
use nekotrans::dual_wifi_run::{run_dual_wifi_pc_to_android_files, LaneStep};
use nekotrans::manifest::{LocalTransferDirectory, LocalTransferFile};
use nekotrans::models::{Direction, TaskConfig, TransferItem, TransportMode};
use nekotrans::notes::EngineNote;
use nekotrans::pull_run::{
    pull_wifi_chunk_bytes, run_wifi_android_to_pc, ChunkPullStage, PullStep,
};
use nekotrans::remote_verify::{
    verify_android_remote_file, wait_for_remote_file_size, VerifyStep,
};
use nekotrans::same_file::{
    prepare_same_file_resume_chunks, resume_chunk_range, verify_same_file_checkpoint_chunk,
    CompareStep, DualSameFileLane, ResumeStep,
};
use nekotrans::same_file_lane::{run_dual_same_file_lane, ShareStep};
use nekotrans::same_file_run::{run_dual_same_file_pc_to_android_files, SharedFile, SharedStep};
use nekotrans::scheduler::LaneAssignment;
use nekotrans::wifi_chunk::{
    push_wifi_chunk_with_recovery, ChunkPushEnd, WifiChunkPushOutcome,
};
use nekotrans::wifi_run::{run_wifi_pc_to_android, WifiStep};
use std::collections::BTreeMap;

const HOST: &str = "10.0.0.2";

/// A phone with files and an agent.
#[derive(Default)]
struct Phone {
    files: BTreeMap<String, Vec<u8>>,
    directories: Vec<String>,
    asked: Vec<String>,
    /// How many raw pushes are dropped before one arrives.
    drop_raw: usize,
    /// Whether text pushes are dropped too.
    drop_text: bool,
    /// Whether batches are refused.
    refuse_batches: bool,
    /// Whether raw pulls are refused.
    refuse_raw_pulls: bool,
}

fn decode(path: &str) -> String {
    let bytes = path.as_bytes();
    let mut out = Vec::new();
    let mut i = 0;
    while i < bytes.len() {
        if bytes[i] == b'%' {
            let hex = std::str::from_utf8(&bytes[i + 1..i + 3]).expect("hex");
            out.push(u8::from_str_radix(hex, 16).expect("hex"));
            i += 3;
        } else {
            out.push(bytes[i]);
            i += 1;
        }
    }
    String::from_utf8(out).expect("utf-8")
}

impl Phone {
    fn write(&mut self, path: &str, offset: u64, bytes: &[u8]) {
        let file = self.files.entry(path.to_string()).or_default();
        let end = offset as usize + bytes.len();
        if file.len() < end {
            file.resize(end, 0);
        }
        file[offset as usize..end].copy_from_slice(bytes);
    }

    fn read(&self, path: &str, offset: u64, length: u64) -> Vec<u8> {
        let file = &self.files[path];
        let end = file.len().min((offset + length) as usize);
        file[(offset as usize).min(end)..end].to_vec()
    }

    fn ask(&mut self, ask: &AgentAsk) -> Result<String, String> {
        let request = ask.request(HOST).map_err(|err| err.message())?;
        self.asked.push(request.line().trim().to_string());
        match ask {
            AgentAsk::StartTask(_) => Ok("{\"type\":\"TaskSnapshot\"}".to_string()),
            AgentAsk::SetTargetRoot(root) => Ok(format!("{{\"target_root\":\"{root}\"}}")),
            AgentAsk::StartFile(path, _) => {
                self.files.entry(path.clone()).or_default();
                Ok("{\"type\":\"FileSnapshot\"}".to_string())
            }
            AgentAsk::CompleteFile(_, _) => Ok("{\"status\":\"completed\"}".to_string()),
            AgentAsk::Stat(path) => match self.files.get(path) {
                Some(file) => Ok(format!("{{\"size_bytes\":{}}}", file.len())),
                None => Ok("{\"exists\":false}".to_string()),
            },
            AgentAsk::Verify(path) => Ok(format!(
                "{{\"algorithm\":\"blake3\",\"digest\":\"{}\"}}",
                digest_of(&self.files[path])
            )),
            AgentAsk::PushBinary(path, _, offset, bytes) => {
                if self.drop_raw > 0 {
                    self.drop_raw -= 1;
                    return Err("connection reset".to_string());
                }
                self.write(path, *offset, bytes);
                Ok("{\"status\":\"written\"}".to_string())
            }
            AgentAsk::PushText(path, _, offset, bytes) => {
                if self.drop_text {
                    return Err("connection reset".to_string());
                }
                self.write(path, *offset, bytes);
                Ok("{\"status\":\"already_committed\"}".to_string())
            }
            AgentAsk::ChunkStatus(path, index, offset, length) => {
                let stands = self
                    .files
                    .get(path)
                    .map_or(false, |file| file.len() as u64 >= offset + length);
                let status = if stands { "committed_on_disk" } else { "not_committed" };
                Ok(format!(
                    "{{\"status\":\"{status}\",\"relative_path\":\"{path}\",\"chunk_index\":{index}}}"
                ))
            }
            AgentAsk::PullText(path, offset, length) => Ok(format!(
                "{{\"payload\":\"{}\"}}",
                base64_encode(&self.read(path, *offset, *length))
            )),
            AgentAsk::PullBinary(_, _, _) => Err("asked for text".to_string()),
            AgentAsk::Bundle(_, manifest, payload) => {
                let mut at = 0usize;
                for row in manifest.lines() {
                    let cells = row.split('\t').collect::<Vec<_>>();
                    let path = decode(cells[1]);
                    if cells[0] == "D" {
                        self.directories.push(path);
                    } else {
                        let size = cells[2].parse::<usize>().expect("size");
                        self.files.insert(path, payload[at..at + size].to_vec());
                        at += size;
                    }
                }
                assert_eq!(at, payload.len());
                Ok("{\"status\":\"bundle_written\"}".to_string())
            }
            AgentAsk::Batch(path, chunks) => {
                if self.refuse_batches {
                    return Ok("{\"status\":\"unsupported\"}".to_string());
                }
                for chunk in chunks {
                    self.write(path, chunk.offset, &chunk.payload);
                }
                Ok("{\"status\":\"batch_written\"}".to_string())
            }
        }
    }

    fn fetch(&mut self, ask: &AgentAsk) -> Result<(String, Vec<u8>), String> {
        match ask {
            AgentAsk::PullBinary(path, offset, length) if !self.refuse_raw_pulls => {
                let bytes = self.read(path, *offset, *length);
                Ok((format!("{{\"length\":{}}}", bytes.len()), bytes))
            }
            _ => Err("unsupported".to_string()),
        }
    }

    fn push_chunk(
        &mut self,
        path: &str,
        index: u32,
        offset: u64,
        payload: Vec<u8>,
    ) -> Result<WifiChunkPushOutcome, String> {
        let mut push = push_wifi_chunk_with_recovery(path, index, offset, payload);
        loop {
            match push.end() {
                ChunkPushEnd::Done(outcome) => return Ok(outcome),
                ChunkPushEnd::Failed(message) => return Err(message),
                ChunkPushEnd::Open => {
                    let reply = self.ask(&push.next_ask());
                    push.answer(&reply);
                }
            }
        }
    }

    fn verify(&mut self, path: &str, size: u64, local: &[u8]) -> Result<(), String> {
        let mut verify = verify_android_remote_file(path, size);
        let mut tries = 0;
        loop {
            if verify.waits_for_size() && tries == 3 {
                verify.expire();
                continue;
            }
            tries += 1;
            match verify.next_step() {
                VerifyStep::Ask(ask) => {
                    let reply = self.ask(&ask);
                    verify.answer(&reply);
                }
                VerifyStep::Fetch(ask) => {
                    let bytes = self.fetch(&ask).map(|(_, bytes)| bytes);
                    verify.take_bytes(&bytes);
                }
                VerifyStep::DigestFile => verify.take_digest(&Ok(digest_of(local))),
                VerifyStep::DigestRange(offset, length) => {
                    let range = &local[offset as usize..(offset + length) as usize];
                    verify.take_digest(&Ok(digest_of(range)));
                }
                VerifyStep::Passed => return Ok(()),
                VerifyStep::Failed(message) => return Err(message),
            }
        }
    }

    fn compare(&mut self, path: &str, offset: u64, length: u64, local: &[u8]) -> Result<bool, String> {
        let mut compare = verify_same_file_checkpoint_chunk(path, offset, length);
        loop {
            match compare.next_step()? {
                CompareStep::Fetch(ask) => {
                    let bytes = self.fetch(&ask).map(|(_, bytes)| bytes);
                    compare.take_bytes(&bytes);
                }
                CompareStep::DigestRange(offset, length) => {
                    let range = &local[offset as usize..(offset + length) as usize];
                    compare.take_digest(&Ok(digest_of(range)));
                }
                CompareStep::Told(same) => return Ok(same),
            }
        }
    }
}

fn bytes_of(length: usize, seed: u8) -> Vec<u8> {
    (0..length).map(|i| seed.wrapping_add((i % 251) as u8)).collect()
}

fn local_file(index: usize, name: &str, size_bytes: u64) -> LocalTransferFile {
    LocalTransferFile {
        file_index: index,
        local_path: format!("/local/{name}"),
        relative_path: name.to_string(),
        size_bytes,
    }
}

fn checkpoint(files: &[(&str, u64)], chunk_size: u64, completed: &[Vec<u32>]) -> CheckpointEntry {
    let mut config = TaskConfig::new(
        "task",
        Direction::PcToAndroid,
        TransportMode::Dual,
        false,
        "/local",
        "/sdcard/x",
    );
    config.chunk_size_bytes = chunk_size;
    let items = files
        .iter()
        .map(|(name, size)| TransferItem {
            relative_path: name.to_string(),
            size_bytes: *size,
            modified_at_epoch_ms: 1,
            fingerprint: None,
        })
        .collect::<Vec<_>>();
    let mut entry = initialize_checkpoint(&config, &items);
    for (file, chunks) in entry.checkpoint.files.iter_mut().zip(completed) {
        file.completed_chunks = chunks.clone();
    }
    entry
}

struct WifiEnd {
    result: Result<String, String>,
    notes: Vec<EngineNote>,
    card: AdbTransferCard,
}

#[allow(clippy::too_many_arguments)]
fn wifi_push(
    phone: &mut Phone,
    directories: &[&str],
    files: &[(&str, Vec<u8>)],
    kept: Option<&CheckpointEntry>,
    chunk_size: u64,
    verify_enabled: bool,
    pause_after: usize,
) -> WifiEnd {
    let directories = directories
        .iter()
        .map(|path| LocalTransferDirectory {
            relative_path: path.to_string(),
        })
        .collect::<Vec<_>>();
    let listed = files
        .iter()
        .enumerate()
        .map(|(index, (name, bytes))| local_file(index, name, bytes.len() as u64))
        .collect();
    let local = files
        .iter()
        .map(|(name, bytes)| (format!("/local/{name}"), bytes.clone()))
        .collect::<BTreeMap<_, _>>();
    let mut run = run_wifi_pc_to_android(
        HOST,
        "task",
        "/sdcard/x",
        &directories,
        listed,
        kept,
        chunk_size,
        verify_enabled,
    );
    let mut card = AdbTransferCard::new("task", "wifi:10.0.0.2", "/sdcard/x");
    let mut notes = Vec::new();
    let mut payload = Vec::new();
    let mut pushes = 0usize;
    let result = loop {
        let told = match run.next_step(pushes >= pause_after) {
            Err(message) => break Err(message),
            Ok(WifiStep::Ask(ask)) => {
                let reply = phone.ask(&ask);
                run.answer(&reply)
            }
            Ok(WifiStep::SkipChunk) => run.skip_chunk(),
            Ok(WifiStep::Read {
                local_path,
                offset,
                length,
            }) => {
                let file = &local[&local_path];
                let end = file.len().min((offset + length) as usize);
                payload = file[offset as usize..end].to_vec();
                run.take_read(&Ok(payload.len() as u64));
                continue;
            }
            Ok(WifiStep::Push {
                relative_path,
                chunk_index,
                offset,
            }) => {
                pushes += 1;
                let outcome =
                    phone.push_chunk(&relative_path, chunk_index, offset, payload.clone());
                run.take_push(&outcome)
            }
            Ok(WifiStep::Verify {
                relative_path,
                local_path,
                size_bytes,
            }) => {
                let outcome = phone.verify(&relative_path, size_bytes, &local[&local_path]);
                run.take_verify(&outcome);
                continue;
            }
            Ok(WifiStep::Done(message)) => break Ok(message),
        };
        notes.extend(told.engine);
        if let Some(progress) = told.card {
            card.show(progress);
        }
    };
    WifiEnd {
        result,
        notes,
        card,
    }
}

#[test]
fn network_pushes_deliver_every_byte() {
    let mut phone = Phone::default();
    let files = [
        ("photos\\cat 1.jpg", bytes_of(10, 3)),
        ("empty.txt", Vec::new()),
    ];
    let end = wifi_push(&mut phone, &["photos", ".."], &files, None, 4, true, 99);
    assert_eq!(
        end.result,
        Ok("Wi-Fi transfer completed: directories=1 pushed_files=2 skipped_files=0 pushed_chunks=4 skipped_chunks=0 bytes_pushed=10".to_string())
    );
    assert_eq!(phone.files["photos/cat 1.jpg"], bytes_of(10, 3));
    assert_eq!(phone.files["empty.txt"], Vec::<u8>::new());
    assert_eq!(phone.directories, vec!["photos".to_string()]);
    assert_eq!(end.notes.len(), 6);
    assert_eq!(end.card.pushed_chunks, 4);
    assert_eq!(end.card.last_event, "wifi-chunk-pushed");
    assert_eq!(phone.asked[0], "START_TASK task");
    assert!(phone
        .asked
        .contains(&"START_FILE photos/cat%201.jpg 10".to_string()));
    assert!(phone
        .asked
        .contains(&"COMPLETE_FILE photos/cat%201.jpg 10".to_string()));
}

#[test]
fn network_pushes_resume_from_a_checkpoint() {
    let kept = checkpoint(&[("a.bin", 10), ("b.bin", 3)], 4, &[vec![0, 2], vec![0]]);
    let mut phone = Phone::default();
    phone.write("a.bin", 0, &bytes_of(10, 1));
    let files = [("a.bin", bytes_of(10, 1)), ("b.bin", bytes_of(3, 2))];
    let end = wifi_push(&mut phone, &[], &files, Some(&kept), 4, false, 99);
    assert_eq!(
        end.result,
        Ok("Wi-Fi transfer completed: directories=0 pushed_files=1 skipped_files=1 pushed_chunks=1 skipped_chunks=3 bytes_pushed=4".to_string())
    );
    assert_eq!(phone.files["a.bin"], bytes_of(10, 1));
    let pushed = end
        .notes
        .iter()
        .filter(|note| matches!(note, EngineNote::Chunk { .. }))
        .count();
    assert_eq!(pushed, 1);
}

#[test]
fn network_pushes_pause_between_chunks() {
    let mut phone = Phone::default();
    let files = [("a.bin", bytes_of(10, 1))];
    let end = wifi_push(&mut phone, &[], &files, None, 4, false, 1);
    assert_eq!(
        end.result,
        Err("transfer paused at chunk boundary".to_string())
    );
    assert_eq!(phone.files["a.bin"], bytes_of(4, 1));
    assert_eq!(
        end.notes,
        vec![EngineNote::Chunk {
            chunk: nekotrans::models::ChunkDescriptor {
                file_index: 0,
                chunk_index: 0,
                offset: 0,
                length: 4,
            },
            lane: LaneAssignment::Wifi,
            skipped: false,
        }]
    );
}

#[test]
fn corrupted_files_fail_their_check() {
    let mut phone = Phone::default();
    phone.files.insert("a.bin".to_string(), bytes_of(10, 2));
    let message = phone.verify("a.bin", 10, &bytes_of(10, 1)).unwrap_err();
    assert!(message.starts_with("verify failed for a.bin: local="));
    assert_eq!(phone.verify("a.bin", 10, &bytes_of(10, 2)), Ok(()));
    assert_eq!(
        phone.verify("a.bin", 11, &bytes_of(11, 2)),
        Err("size mismatch for a.bin: local=11 remote=10".to_string())
    );
    let large = 129 * 1024 * 1024;
    phone.files.insert("big.bin".to_string(), bytes_of(large, 2));
    assert_eq!(
        phone.verify("big.bin", large as u64, &bytes_of(large, 2)),
        Ok(())
    );
    let last = large - 1;
    phone.files.get_mut("big.bin").expect("file")[last] ^= 1;
    assert_eq!(
        phone.verify("big.bin", large as u64, &bytes_of(large, 2)),
        Err(format!(
            "sample verify failed for big.bin: offset={} length=262144",
            large - 262144
        ))
    );
}

#[test]
fn sizes_are_waited_for() {
    let mut wait = wait_for_remote_file_size("a.bin", 5);
    assert_eq!(wait.next_ask(), AgentAsk::Stat("a.bin".to_string()));
    assert_eq!(wait.answer(&Ok("{\"size_bytes\":3}".to_string())), Ok(None));
    assert_eq!(wait.expire(), 3);
    assert_eq!(
        wait.answer(&Ok("{\"size_bytes\":5}".to_string())),
        Ok(Some(5))
    );
    assert_eq!(
        wait.answer(&Ok("{}".to_string())),
        Err("agent stat did not include size_bytes: {}".to_string())
    );
    assert_eq!(wait.answer(&Err("gone".to_string())), Err("gone".to_string()));
}

#[test]
fn lost_chunks_are_asked_after() {
    let mut phone = Phone {
        drop_raw: 1,
        ..Phone::default()
    };
    assert_eq!(
        phone.push_chunk("a.bin", 0, 0, vec![1, 2]),
        Ok(WifiChunkPushOutcome::Pushed)
    );

    let mut phone = Phone {
        drop_raw: 1,
        drop_text: true,
        ..Phone::default()
    };
    assert_eq!(
        phone.push_chunk("a.bin", 0, 0, vec![1, 2]),
        Ok(WifiChunkPushOutcome::RetriedAfterChunkStatus)
    );

    let mut phone = Phone {
        drop_raw: 9,
        drop_text: true,
        ..Phone::default()
    };
    phone.write("a.bin", 0, &[1, 2]);
    assert_eq!(
        phone.push_chunk("a.bin", 0, 0, vec![1, 2]),
        Ok(WifiChunkPushOutcome::RecoveredByChunkStatus)
    );

    let mut phone = Phone {
        drop_raw: 9,
        drop_text: true,
        ..Phone::default()
    };
    phone.write("a.bin", 0, &[1]);
    assert_eq!(
        phone.push_chunk("a.bin", 0, 0, vec![1, 2]),
        Err("binary push failed and base64 fallback failed: connection reset; connection reset".to_string())
    );
}

#[test]
fn mismatched_paths_end_a_push() {
    let mut push = push_wifi_chunk_with_recovery("a.bin", 3, 0, vec![1]);
    push.answer(&Err("lost".to_string()));
    push.answer(&Ok("{\"status\":\"denied\"}".to_string()));
    push.answer(&Ok(
        "{\"status\":\"path_mismatch\",\"relative_path\":\"a.bin\",\"chunk_index\":3}".to_string(),
    ));
    match push.end() {
        ChunkPushEnd::Failed(message) => assert_eq!(
            message,
            "agent reported path_mismatch for chunk 3 on a.bin"
        ),
        _ => panic!("a failure expected"),
    }
    let mut push = push_wifi_chunk_with_recovery("a.bin", 3, 4, vec![1]);
    push.answer(&Err("lost".to_string()));
    push.answer(&Err("lost".to_string()));
    push.answer(&Err("lost".to_string()));
    push.answer(&Ok("{\"size_bytes\":5}".to_string()));
    assert!(matches!(
        push.end(),
        ChunkPushEnd::Done(WifiChunkPushOutcome::RecoveredByStat)
    ));
}

#[test]
fn dual_network_lane_bundles_small_files() {
    let mut phone = Phone::default();
    let small = [("a.txt", bytes_of(3, 1)), ("名 b.txt", bytes_of(4, 2))];
    let large_size = 64 * 1024 * 1024 + 1;
    let large = bytes_of(large_size, 5);
    let files = vec![
        local_file(0, "a.txt", 3),
        local_file(1, "名 b.txt", 4),
        local_file(2, "big.bin", large_size as u64),
        local_file(3, "empty.txt", 0),
    ];
    let local = |path: &str| -> Vec<u8> {
        match path.trim_start_matches("/local/") {
            "big.bin" => large.clone(),
            "empty.txt" => Vec::new(),
            name => small
                .iter()
                .find(|(known, _)| *known == name)
                .expect("file")
                .1
                .clone(),
        }
    };
    let mut run = run_dual_wifi_pc_to_android_files(
        "task",
        "/sdcard/x",
        &vec![LocalTransferDirectory {
            relative_path: "d/e".to_string(),
        }],
        files,
        32 * 1024 * 1024,
        true,
    );
    let mut aggregate = DualTransferAggregate::new(4, 7 + large_size as u64);
    let mut notes = Vec::new();
    let mut payload = Vec::new();
    let mut read_to = 0usize;
    let message = loop {
        let told = match run.next_step(false).expect("step") {
            LaneStep::Ask(ask) => {
                let reply = phone.ask(&ask);
                run.answer(&reply)
            }
            LaneStep::Pick => {
                run.pick(false);
                continue;
            }
            LaneStep::Load(file) => {
                let bytes = local(&file.local_path);
                run.take_file(bytes.len() as u64, 11, &bytes);
                continue;
            }
            LaneStep::Tell => run.tell(),
            LaneStep::Read { local_path, length } => {
                let file = local(&local_path);
                let end = file.len().min(read_to + length as usize);
                payload = file[read_to..end].to_vec();
                read_to = end;
                run.take_read(&Ok(payload.len() as u64));
                continue;
            }
            LaneStep::Push {
                relative_path,
                chunk_index,
                offset,
            } => {
                let outcome =
                    phone.push_chunk(&relative_path, chunk_index, offset, payload.clone());
                run.take_push(&outcome)
            }
            LaneStep::Verify {
                relative_path,
                local_path,
                size_bytes,
            } => {
                let outcome = phone.verify(&relative_path, size_bytes, &local(&local_path));
                run.take_verify(&outcome);
                continue;
            }
            LaneStep::Done(message) => break message,
        };
        for note in &told.dual {
            aggregate.note(note);
        }
        notes.extend(told.engine);
    };
    assert_eq!(
        message,
        "Wi-Fi lane completed directory_entries=1, bundled_files=3, direct_files=1"
    );
    assert_eq!(phone.files["a.txt"], bytes_of(3, 1));
    assert_eq!(phone.files["名 b.txt"], bytes_of(4, 2));
    assert_eq!(phone.files["big.bin"], large);
    assert_eq!(phone.directories, vec!["d/e".to_string()]);
    let finished = notes
        .iter()
        .filter(|note| matches!(note, EngineNote::File { .. }))
        .count();
    assert_eq!(finished, 4);
    let card = aggregate.sync_dual_card_from_aggregate();
    assert_eq!(card.pushed_files, 4);
    assert_eq!(card.bytes_pushed, 7 + large_size as u64);
}

#[test]
fn a_pause_sends_the_open_bundle() {
    let mut phone = Phone::default();
    let mut run = run_dual_wifi_pc_to_android_files(
        "task",
        "/sdcard/x",
        &Vec::new(),
        vec![local_file(0, "a.txt", 3), local_file(1, "b.txt", 3)],
        4,
        false,
    );
    let mut loaded = 0;
    let message = loop {
        let paused = loaded == 1;
        match run.next_step(paused) {
            Ok(LaneStep::Ask(ask)) => {
                let reply = phone.ask(&ask);
                run.answer(&reply);
            }
            Ok(LaneStep::Pick) => run.pick(paused),
            Ok(LaneStep::Load(_)) => {
                loaded += 1;
                run.take_file(3, 11, &vec![1, 2, 3]);
            }
            Ok(LaneStep::Tell) => {
                run.tell();
            }
            Ok(_) => panic!("no chunk expected"),
            Err(message) => break message,
        }
    };
    assert_eq!(message, "transfer paused at chunk boundary");
    assert_eq!(phone.files["a.txt"], vec![1, 2, 3]);
    assert!(!phone.files.contains_key("b.txt"));
}

#[test]
fn changed_files_are_not_bundled() {
    let mut phone = Phone::default();
    let mut run = run_dual_wifi_pc_to_android_files(
        "task",
        "/sdcard/x",
        &Vec::new(),
        vec![local_file(0, "a.txt", 3)],
        4,
        false,
    );
    let message = loop {
        match run.next_step(false) {
            Ok(LaneStep::Ask(ask)) => {
                let reply = phone.ask(&ask);
                run.answer(&reply);
            }
            Ok(LaneStep::Pick) => run.pick(false),
            Ok(LaneStep::Load(_)) => run.take_file(4, 11, &vec![1, 2, 3, 4]),
            Ok(_) => panic!("nothing to send expected"),
            Err(message) => break message,
        }
    };
    assert_eq!(
        message,
        "file size changed while bundling /local/a.txt: expected 3 actual 4"
    );
}

/// Plays the shell of a device for the commands of a push.
fn adb_push(
    files: &mut BTreeMap<String, Vec<u8>>,
    local: &BTreeMap<String, Vec<u8>>,
    below: bool,
    remote_path: &str,
    chunk_size: u64,
    pause_after: usize,
) -> (Result<String, String>, Vec<AdbPushProgress>) {
    let listed = local
        .iter()
        .map(|(name, bytes)| PushFile {
            local_path: format!("/local/{name}"),
            relative_path: name.clone(),
            size_bytes: bytes.len() as u64,
        })
        .collect();
    let mut run =
        push_path_to_device_with_control("SERIAL", listed, below, remote_path, chunk_size);
    let mut told = Vec::new();
    let mut read_to: BTreeMap<String, usize> = BTreeMap::new();
    let mut pushes = 0usize;
    loop {
        let step = match run.next_step(pushes >= pause_after) {
            Ok(step) => step,
            Err(err) => return (Err(err.message()), told),
        };
        let progress = match step {
            PushStep::AskSize(args) => {
                assert_eq!(args[..3], ["-s", "SERIAL", "shell"]);
                let size = files
                    .iter()
                    .find(|(path, _)| stat_remote_file_size("SERIAL", path) == args)
                    .map(|(_, bytes)| bytes.len() as u64);
                run.size_told(size)
            }
            PushStep::Run(args) => {
                if args[3].starts_with("cat ") {
                    let target = local
                        .keys()
                        .map(|name| {
                            if below {
                                format!("{remote_path}/{name}")
                            } else {
                                remote_path.to_string()
                            }
                        })
                        .find(|path| args[3].contains(&remote_chunk_dir(path)))
                        .expect("target");
                    let parts = files
                        .iter()
                        .filter(|(path, _)| path.starts_with(&remote_chunk_dir(&target)))
                        .flat_map(|(_, bytes)| bytes.clone())
                        .collect::<Vec<_>>();
                    files.retain(|path, _| !path.starts_with(&remote_chunk_dir(&target)));
                    files.insert(target, parts);
                } else {
                    assert!(args[3].starts_with("mkdir -p "));
                }
                run.work_done("")
            }
            PushStep::PassOver { local_path, length } => {
                *read_to.entry(local_path).or_default() += length as usize;
                run.work_done("")
            }
            PushStep::Push {
                local_path,
                length,
                remote_chunk,
                ..
            } => {
                pushes += 1;
                let from = read_to.entry(local_path.clone()).or_default();
                let source = &local[local_path.trim_start_matches("/local/")];
                files.insert(
                    remote_chunk,
                    source[*from..*from + length as usize].to_vec(),
                );
                *from += length as usize;
                run.work_done(" pushed \n")
            }
            PushStep::Finished(summary) => return (Ok(summary), told),
        };
        told.extend(progress);
    }
}

#[test]
fn adb_pushes_assemble_every_file() {
    let local = BTreeMap::from([
        ("a.bin".to_string(), bytes_of(10, 1)),
        ("sub/empty.txt".to_string(), Vec::new()),
    ]);
    let mut device = BTreeMap::new();
    let (result, told) = adb_push(&mut device, &local, true, "/sdcard/x", 4, 99);
    assert_eq!(
        result,
        Ok("ADB chunk push completed: scanned_files=2 pushed_files=2 skipped_files=0 pushed_chunks=4 skipped_chunks=0 bytes_scanned=10 bytes_pushed=10\npushed\npushed\npushed\npushed".to_string())
    );
    assert_eq!(device["/sdcard/x/a.bin"], bytes_of(10, 1));
    assert_eq!(device["/sdcard/x/sub/empty.txt"], Vec::<u8>::new());
    assert_eq!(device.len(), 2);
    assert_eq!(told.len(), 6);
    assert_eq!(told[0].event, "chunk-pushed");
    assert_eq!(told[0].message, "chunk 0 pushed");
    assert_eq!(told[3].event, "file-completed");

    let (result, told) = adb_push(&mut device, &local, true, "/sdcard/x", 4, 99);
    assert_eq!(
        result,
        Ok("ADB chunk push completed: scanned_files=2 pushed_files=0 skipped_files=2 pushed_chunks=0 skipped_chunks=0 bytes_scanned=10 bytes_pushed=0\n".to_string())
    );
    assert!(told.iter().all(|progress| progress.event == "file-skipped"));
}

#[test]
fn adb_pushes_take_up_after_a_pause() {
    let local = BTreeMap::from([("a.bin".to_string(), bytes_of(10, 1))]);
    let mut device = BTreeMap::new();
    let (result, told) = adb_push(&mut device, &local, false, "/sdcard/a.bin", 4, 1);
    assert_eq!(
        result,
        Err("transfer paused at chunk boundary".to_string())
    );
    assert_eq!(told.len(), 1);
    let (result, told) = adb_push(&mut device, &local, false, "/sdcard/a.bin", 4, 99);
    assert!(result.is_ok());
    assert_eq!(told[0].event, "chunk-skipped");
    assert_eq!(told[0].skipped_chunks, 1);
    assert_eq!(device["/sdcard/a.bin"], bytes_of(10, 1));
}

#[test]
fn adb_lane_checks_what_it_pushed() {
    let mut run = run_dual_adb_pc_to_android_files(
        "/sdcard/x/",
        vec![local_file(0, "a.bin", 3), local_file(2, "b.bin", 3)],
        true,
    );
    let mut started = 0;
    let message = loop {
        match run.next_step() {
            Ok(AdbLaneStep::Tell) => {
                let notes = run.tell();
                assert!(matches!(notes.dual[0], DualNote::Started { .. }));
                started += 1;
            }
            Ok(AdbLaneStep::Push { remote_file, .. }) => {
                assert!(remote_file.starts_with("/sdcard/x/"));
                run.take_push(&Ok("done".to_string()));
            }
            Ok(AdbLaneStep::Digests { remote_file, .. }) => {
                let remote = if remote_file == "/sdcard/x/a.bin" {
                    Some("same".to_string())
                } else {
                    Some("other".to_string())
                };
                run.take_digests(&Ok("same".to_string()), &Ok(remote));
            }
            Ok(AdbLaneStep::Done(_)) => panic!("a failed check expected"),
            Err(message) => break message,
        }
    };
    assert_eq!(started, 2);
    assert_eq!(message, "ADB verify failed for b.bin: local=same remote=other");
}

#[test]
fn adb_checks_name_missing_files() {
    let mut check = verify_adb_pc_to_android_transfer(
        vec![local_file(0, "a.bin", 3)],
        true,
        "/sdcard/x",
    );
    let (local_path, remote_file) = check.next_file().expect("file");
    assert_eq!(local_path, "/local/a.bin");
    assert_eq!(remote_file, "/sdcard/x/a.bin");
    assert_eq!(
        check.take_digests(&Ok("d".to_string()), &Ok(None)),
        Err("remote file not found for verify: /sdcard/x/a.bin".to_string())
    );
    assert_eq!(
        check.take_digests(&Ok("d".to_string()), &Ok(Some("d".to_string()))),
        Ok(())
    );
    assert!(check.next_file().is_none());
}

fn shared_push(
    phone: &mut Phone,
    name: &str,
    bytes: &[u8],
    kept: Option<&CheckpointEntry>,
    break_adb_at: Option<u32>,
) -> (Result<String, String>, Vec<EngineNote>) {
    let mut run = run_dual_same_file_pc_to_android_files(
        "task",
        "/sdcard/x",
        vec![local_file(0, name, bytes.len() as u64)],
        kept,
        8 * 1024 * 1024,
        true,
    );
    let mut notes = Vec::new();
    loop {
        let step = match run.next_step() {
            Ok(step) => step,
            Err(message) => return (Err(message), notes),
        };
        match step {
            SharedStep::Ask(ask) => {
                let reply = phone.ask(&ask);
                run.answer(&reply);
            }
            SharedStep::Plan { first, target_root } => {
                assert!(first.is_some());
                assert_eq!(target_root, "/sdcard/x");
                run.take_plan(None, 2, Err("no sample".to_string()));
            }
            SharedStep::Pick => run.pick(false),
            SharedStep::Tell => notes.extend(run.tell().engine),
            SharedStep::Remove { temp_file, .. } => {
                assert_eq!(temp_file, format!("/sdcard/x/{name}.nekotrans-tmp"));
                phone.files.remove(name);
                run.take_removed();
            }
            SharedStep::Resume(shared) => {
                let kept = resume(phone, &shared, bytes);
                run.take_resume(kept);
            }
            SharedStep::Lanes(shared) => {
                let adb = shared_lane(
                    phone,
                    DualSameFileLane::Adb,
                    &shared,
                    bytes,
                    break_adb_at,
                    &mut notes,
                );
                let wifi = shared_lane(
                    phone,
                    DualSameFileLane::Wifi,
                    &shared,
                    bytes,
                    None,
                    &mut notes,
                );
                run.take_lanes(&adb, &wifi);
            }
            SharedStep::WaitSize { relative_path, .. } => {
                run.take_size(&Ok(phone.files[&relative_path].len() as u64))
            }
            SharedStep::Verify {
                relative_path,
                size_bytes,
                ..
            } => {
                let outcome = phone.verify(&relative_path, size_bytes, bytes);
                run.take_verify(&outcome);
            }
            SharedStep::Done(message) => return (Ok(message), notes),
        }
    }
}

fn resume(phone: &mut Phone, shared: &SharedFile, bytes: &[u8]) -> Result<Vec<u32>, String> {
    let mut check = prepare_same_file_resume_chunks(
        &shared.completed,
        shared.total_chunks,
        shared.wifi_stride,
    );
    loop {
        match check.next_step()? {
            ResumeStep::Tell => {
                check.tell();
            }
            ResumeStep::Compare(chunk) => {
                let (offset, length) =
                    resume_chunk_range(bytes.len() as u64, shared.chunk_size, chunk);
                let same = phone.compare(&shared.relative_path, offset, length, bytes);
                check.take_compare(&same);
            }
            ResumeStep::Done(kept) => return Ok(kept),
        }
    }
}

fn shared_lane(
    phone: &mut Phone,
    lane: DualSameFileLane,
    shared: &SharedFile,
    bytes: &[u8],
    break_at: Option<u32>,
    notes: &mut Vec<EngineNote>,
) -> Result<(), String> {
    let mut run = run_dual_same_file_lane(
        lane,
        &shared.relative_path,
        &shared.remote_temp_file,
        shared.file.clone(),
        shared.chunk_size,
        shared.total_chunks,
        shared.wifi_stride,
        shared.wifi_batch_chunks,
        &shared.completed,
    );
    loop {
        let step = match run.next_step() {
            Ok(step) => step,
            Err(message) => {
                assert!(run.stops_other());
                return Err(message);
            }
        };
        let told = match step {
            ShareStep::Pick => {
                run.pick(false);
                continue;
            }
            ShareStep::Write {
                chunk_index,
                offset,
                length,
            } => {
                assert_eq!(lane, DualSameFileLane::Adb);
                let outcome = if break_at == Some(chunk_index) {
                    Err("device offline".to_string())
                } else {
                    phone.write(
                        &shared.relative_path,
                        offset,
                        &bytes[offset as usize..(offset + length) as usize],
                    );
                    Ok("streamed".to_string())
                };
                run.take_write(&outcome)
            }
            ShareStep::Read { offset, length } => {
                run.take_bytes(Ok(bytes[offset as usize..(offset + length) as usize].to_vec()));
                continue;
            }
            ShareStep::Ask(ask) => {
                let reply = phone.ask(&ask);
                run.answer(&reply)
            }
            ShareStep::Push {
                chunk_index,
                offset,
                payload,
            } => {
                let outcome =
                    phone.push_chunk(&shared.relative_path, chunk_index, offset, payload);
                run.take_push(&outcome)
            }
            ShareStep::Done => return Ok(()),
        };
        notes.extend(told.engine);
    }
}

#[test]
fn both_lanes_fill_one_file() {
    let bytes = bytes_of(40 * 1024 * 1024 + 5, 9);
    let mut phone = Phone::default();
    let (result, notes) = shared_push(&mut phone, "movie.bin", &bytes, None, None);
    assert_eq!(
        result,
        Ok("same-file Dual completed 1 large file(s); lane_plan=fallback(no sample) wifi_stride=4 wifi_batch_chunks=2".to_string())
    );
    assert_eq!(phone.files["movie.bin"], bytes);
    assert_eq!(notes.len(), 7);
    let wifi = notes
        .iter()
        .filter(|note| {
            matches!(note, EngineNote::Pending { chunk, lane, .. }
                if *lane == LaneAssignment::Wifi && chunk.chunk_index % 4 == 1)
        })
        .count();
    assert_eq!(wifi, 2);
    assert!(phone
        .asked
        .iter()
        .any(|line| line == "PUSH_CHUNK_BATCH_BIN movie.bin 2"));

    let mut phone = Phone {
        refuse_batches: true,
        ..Phone::default()
    };
    let (result, _) = shared_push(&mut phone, "movie.bin", &bytes, None, None);
    assert!(result.is_ok());
    assert_eq!(phone.files["movie.bin"], bytes);
}

#[test]
fn a_broken_lane_can_be_taken_up_again() {
    let chunk = 8 * 1024 * 1024u64;
    let bytes = bytes_of(5 * chunk as usize, 9);
    let mut phone = Phone::default();
    let (result, notes) = shared_push(&mut phone, "movie.bin", &bytes, None, Some(2));
    assert_eq!(
        result,
        Err("transfer paused: ADB lane interrupted; resume will verify committed chunks before skipping them. device offline".to_string())
    );
    let mut done = notes
        .iter()
        .filter_map(|note| match note {
            EngineNote::Pending { chunk, .. } => Some(chunk.chunk_index),
            _ => None,
        })
        .collect::<Vec<_>>();
    done.sort();
    assert_eq!(done, vec![0, 1]);
    let kept = checkpoint(&[("movie.bin", bytes.len() as u64)], chunk, &[done]);
    let (result, notes) = shared_push(&mut phone, "movie.bin", &bytes, Some(&kept), None);
    assert!(result.is_ok());
    assert_eq!(phone.files["movie.bin"], bytes);
    let resent = notes
        .iter()
        .filter(|note| matches!(note, EngineNote::Pending { .. }))
        .count();
    assert_eq!(resent, 3);
}

#[test]
fn damaged_chunks_are_sent_again() {
    let chunk = 8 * 1024 * 1024u64;
    let bytes = bytes_of(5 * chunk as usize, 9);
    let mut phone = Phone::default();
    phone.files.insert("movie.bin".to_string(), bytes.clone());
    phone.files.get_mut("movie.bin").expect("file")[0] ^= 1;
    let kept = checkpoint(
        &[("movie.bin", bytes.len() as u64)],
        chunk,
        &[vec![0, 1, 2, 3, 4]],
    );
    let (result, notes) = shared_push(&mut phone, "movie.bin", &bytes, Some(&kept), None);
    assert!(result.is_ok());
    assert_eq!(phone.files["movie.bin"], bytes);
    let resent = notes
        .iter()
        .filter_map(|note| match note {
            EngineNote::Pending { chunk, .. } => Some(chunk.chunk_index),
            _ => None,
        })
        .collect::<Vec<_>>();
    assert_eq!(resent, vec![0]);
}

fn pull(
    phone: &mut Phone,
    source: &str,
    completed: &[u32],
    target: &mut Vec<u8>,
    verify_enabled: bool,
) -> (Result<String, String>, Option<String>, Vec<EngineNote>) {
    let mut run = run_wifi_android_to_pc(
        "task",
        source,
        "C:/target",
        &completed.to_vec(),
        4,
        verify_enabled,
    );
    let mut opened = None;
    let mut notes = Vec::new();
    let mut fetched = Vec::new();
    loop {
        let step = match run.next_step() {
            Ok(step) => step,
            Err(message) => return (Err(message), opened, notes),
        };
        match step {
            PullStep::Ask(ask) => {
                let reply = phone.ask(&ask);
                run.answer(&reply);
            }
            PullStep::Open(path) => {
                opened = Some(path);
                run.take_open(&Ok(()));
            }
            PullStep::Pick => run.pick(false),
            PullStep::Fetch {
                relative_path,
                offset,
                length,
            } => {
                let mut chunk = pull_wifi_chunk_bytes(&relative_path, offset, length);
                while let Some((ask, raw)) = chunk.next_ask() {
                    if raw {
                        let reply = phone.fetch(&ask);
                        chunk.answer_raw(reply);
                    } else {
                        let reply = phone.ask(&ask);
                        chunk.answer_text(&reply);
                    }
                }
                match chunk.stage {
                    ChunkPullStage::Got(bytes, raw) => {
                        run.take_fetch(&Ok((bytes.len() as u64, raw)));
                        fetched = bytes;
                    }
                    ChunkPullStage::Failed(message) => run.take_fetch(&Err(message)),
                    _ => panic!("an end expected"),
                }
            }
            PullStep::Write { offset } => {
                let end = offset as usize + fetched.len();
                if target.len() < end {
                    target.resize(end, 0);
                }
                target[offset as usize..end].copy_from_slice(&fetched);
                notes.extend(run.take_write(&Ok(())).engine);
            }
            PullStep::Tell => notes.extend(run.tell().engine),
            PullStep::Verify {
                relative_path,
                size_bytes,
                ..
            } => {
                let outcome = phone.verify(&relative_path, size_bytes, target);
                run.take_verify(&outcome);
            }
            PullStep::Done(message) => return (Ok(message), opened, notes),
        }
    }
}

#[test]
fn network_pulls_fetch_every_byte() {
    let mut phone = Phone::default();
    phone.files.insert("cat.jpg".to_string(), bytes_of(10, 4));
    let mut target = Vec::new();
    let (result, opened, notes) = pull(&mut phone, "/sdcard/DCIM/cat.jpg", &[], &mut target, true);
    assert_eq!(
        result,
        Ok("Wi-Fi Android -> PC transfer completed: bytes_pulled=10 chunks=3 skipped_chunks=0".to_string())
    );
    assert_eq!(target, bytes_of(10, 4));
    assert_eq!(opened.as_deref(), Some("C:/target/cat.jpg"));
    assert_eq!(notes.len(), 4);
    assert!(phone
        .asked
        .iter()
        .any(|line| line == "SET_TARGET_ROOT /sdcard/DCIM"));

    phone.refuse_raw_pulls = true;
    let mut again = bytes_of(4, 4);
    let (result, _, _) = pull(&mut phone, "cat.jpg", &[0], &mut again, false);
    assert_eq!(
        result,
        Ok("Wi-Fi Android -> PC transfer completed: bytes_pulled=10 chunks=2 skipped_chunks=1".to_string())
    );
    assert_eq!(again, bytes_of(10, 4));
}

#[test]
fn pulls_stay_below_their_target() {
    let mut phone = Phone::default();
    phone.files.insert("a/b.txt".to_string(), bytes_of(3, 4));
    let mut target = Vec::new();
    let (result, opened, _) = pull(&mut phone, "../a/./b.txt", &[0], &mut target, false);
    assert_eq!(
        result,
        Ok("Wi-Fi Android -> PC transfer resumed from checkpoint: bytes_pulled=3 chunks=1".to_string())
    );
    assert_eq!(opened.as_deref(), Some("C:/target/a/b.txt"));
    let (result, opened, _) = pull(&mut phone, "../..", &[], &mut target, false);
    assert_eq!(
        result,
        Err("source path did not contain a safe Android file name".to_string())
    );
    assert_eq!(opened, None);
}

fn adb_pull(
    verify_enabled: bool,
    size: Result<Option<u64>, String>,
    remote_digest: Option<&str>,
) -> (Result<String, String>, Vec<EngineNote>, AdbTransferCard) {
    let mut run = run_adb_android_to_pc("/sdcard/a.bin", "C:/t", verify_enabled);
    let mut card = AdbTransferCard::new("task", "SERIAL", "/sdcard/a.bin");
    let mut notes = Vec::new();
    loop {
        let step = match run.next_step() {
            Ok(step) => step,
            Err(message) => return (Err(message), notes, card),
        };
        let note = match step {
            AdbPullStep::AskSize => run.take_size(&size),
            AdbPullStep::Pull => run.take_pull(&Ok("1 file pulled".to_string())),
            AdbPullStep::Digests(target) => {
                assert_eq!(target, "C:/t/a.bin");
                run.take_digests(
                    &Ok("d".to_string()),
                    &Ok(remote_digest.map(|digest| digest.to_string())),
                )
            }
            AdbPullStep::Done(message) => return (Ok(message), notes, card),
        };
        run.show(&note, &mut card);
        notes.extend(note.engine_note());
    }
}

#[test]
fn adb_pulls_are_checked_before_they_count() {
    let (result, notes, card) = adb_pull(true, Ok(Some(7)), Some("d"));
    assert_eq!(
        result,
        Ok("ADB Android -> PC pull completed: remote=/sdcard/a.bin local=C:/t bytes=7\n1 file pulled".to_string())
    );
    assert_eq!(
        notes,
        vec![EngineNote::File {
            file_index: 0,
            lane: LaneAssignment::Adb,
            skipped: false,
        }]
    );
    assert_eq!(card.last_event, "adb-pull-completed");
    assert_eq!(card.last_message, "1 file pulled\nADB verify completed");
    assert_eq!(card.bytes_pushed, 7);
    let (result, notes, card) = adb_pull(true, Ok(Some(7)), Some("other"));
    assert_eq!(
        result,
        Err("ADB verify failed for /sdcard/a.bin: local=d remote=other".to_string())
    );
    assert!(notes.is_empty());
    assert_eq!(card.last_event, "adb-pull-started");
    let (result, _, _) = adb_pull(true, Ok(Some(7)), None);
    assert_eq!(
        result,
        Err("remote file not found for verify: /sdcard/a.bin".to_string())
    );
    let (result, notes, _) = adb_pull(false, Ok(None), None);
    assert!(result.expect("pull").contains(" bytes=0\n"));
    assert_eq!(notes.len(), 1);
    let (result, _, _) = adb_pull(false, Err("device offline".to_string()), None);
    assert_eq!(result, Err("device offline".to_string()));
}

#[test]
fn plain_pushes_use_whole_chunks() {
    let files = vec![PushFile {
        local_path: "/local/a.bin".to_string(),
        relative_path: "a.bin".to_string(),
        size_bytes: 20 * 1024 * 1024,
    }];
    let mut run = push_path_to_device("SERIAL", files, false, "/sdcard/a.bin");
    let mut lengths = Vec::new();
    loop {
        match run.next_step(false).expect("step") {
            PushStep::AskSize(_) => {
                run.size_told(None);
            }
            PushStep::Run(_) => {
                run.work_done("");
            }
            PushStep::Push { length, .. } => {
                lengths.push(length);
                run.work_done("");
            }
            PushStep::PassOver { .. } => panic!("nothing to skip"),
            PushStep::Finished(_) => break,
        }
    }
    let whole = 8 * 1024 * 1024;
    assert_eq!(lengths, vec![whole, whole, whole / 2]);
}

#[test]
fn bundles_keep_to_their_limits() {
    let mut bundle = new_small_file_bundle("task", 3);
    assert_eq!(bundle.bundle_id, "task-bundle-000003");
    assert!(small_file_bundle_can_accept(&bundle, &local_file(0, "a", 5)));
    add_file_to_small_file_bundle(&mut bundle, local_file(0, "a b", 2), 2, 9, &vec![1, 2])
        .expect("file");
    assert_eq!(bundle.manifest, "F\ta%20b\t2\t9\n");
    assert_eq!(bundle.payload, vec![1, 2]);
    let most = 64 * 1024 * 1024;
    assert!(small_file_bundle_can_accept(&bundle, &local_file(1, "c", most - 2)));
    assert!(!small_file_bundle_can_accept(&bundle, &local_file(1, "c", most - 1)));
    let unsafe_path = add_file_to_small_file_bundle(
        &mut bundle,
        local_file(1, "../..", 0),
        0,
        9,
        &Vec::new(),
    );
    assert!(unsafe_path.is_err());
    assert!(bundle_path_of(&local_file(1, "..", 0)).is_err());
    assert_eq!(bundle.entries.len(), 1);
    let directories = vec![
        LocalTransferDirectory {
            relative_path: "d e".to_string(),
        },
        LocalTransferDirectory {
            relative_path: ".".to_string(),
        },
    ];
    assert_eq!(
        push_directory_bundle(&directories),
        ("D\td%20e\n".to_string(), 1)
    );
}
