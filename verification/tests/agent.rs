//! Talking to the agent on a device.

use nekotrans::agent::{
    binary_reply_length, encode_batch, push_chunk_batch_binary, sanitize_command_arg,
    sanitize_path_arg, send_chunk_status, send_command, send_with_body, AgentEndpoint,
    BinaryChunkFrame,
};
use nekotrans::codec::base64_encode;

#[test]
fn sends_line_command_and_reads_reply() {
    let request = send_command(&AgentEndpoint::new("127.0.0.1", 38997), "PING");
    assert_eq!(request.line().trim(), "PING");
    assert!(request.body.is_empty());
    let reply = request.reply("{\"type\":\"Pong\",\"protocol_version\":\"0.1\"}\n");
    assert_eq!(
        reply.payload,
        "{\"type\":\"Pong\",\"protocol_version\":\"0.1\"}"
    );
}

#[test]
fn sanitizes_start_task_command_argument() {
    assert_eq!(sanitize_command_arg("task-01_ok"), "task-01_ok");
    assert_eq!(sanitize_command_arg("task 01;rm"), "task01rm");
}

#[test]
fn encodes_file_path_command_argument() {
    assert_eq!(
        sanitize_path_arg("photos\\cat 01.jpg"),
        "photos/cat%2001.jpg"
    );
    assert_eq!(
        sanitize_path_arg("../坏 name's.bin"),
        "../%E5%9D%8F%20name%27s.bin"
    );
}

#[test]
fn encodes_base64_payloads() {
    assert_eq!(base64_encode(b""), "");
    assert_eq!(base64_encode(b"f"), "Zg==");
    assert_eq!(base64_encode(b"fo"), "Zm8=");
    assert_eq!(base64_encode(b"foo"), "Zm9v");
    assert_eq!(base64_encode(b"hello"), "aGVsbG8=");
}

#[test]
fn sends_chunk_status_command_with_encoded_path() {
    let request = send_chunk_status(
        &AgentEndpoint::new("127.0.0.1", 38997),
        "photos\\cat 01.jpg",
        7,
        1024,
        4096,
    );
    assert_eq!(
        request.line().trim(),
        "CHUNK_STATUS photos/cat%2001.jpg 7 1024 4096"
    );
    let reply = request.reply(
        "{\"status\":\"committed\",\"relative_path\":\"photos/cat01.jpg\",\"chunk_index\":7}\n",
    );
    assert_eq!(
        reply.command,
        "CHUNK_STATUS photos/cat%2001.jpg 7 1024 4096"
    );
    assert_eq!(
        reply.payload,
        "{\"status\":\"committed\",\"relative_path\":\"photos/cat01.jpg\",\"chunk_index\":7}"
    );
}

#[test]
fn sends_binary_chunk_command_and_raw_payload() {
    let request = send_with_body(
        &AgentEndpoint::new("127.0.0.1", 38997),
        "PUSH_CHUNK_BIN photos/cat01.jpg 7 1024 5",
        b"hello".to_vec(),
        5000,
    );
    assert_eq!(
        request.line().trim(),
        "PUSH_CHUNK_BIN photos/cat01.jpg 7 1024 5"
    );
    assert_eq!(request.body, b"hello");
    let reply = request.reply("{\"type\":\"ChunkAck\",\"relative_path\":\"photos/cat01.jpg\",\"chunk_index\":7,\"status\":\"written\"}\n");
    assert_eq!(reply.command, "PUSH_CHUNK_BIN photos/cat01.jpg 7 1024 5");
    assert!(reply.payload.contains("\"status\":\"written\""));
}

#[test]
fn sends_binary_chunk_batch_command_and_framed_payloads() {
    let frames = [
        BinaryChunkFrame {
            chunk_index: 1,
            offset: 8,
            payload: b"hello",
        },
        BinaryChunkFrame {
            chunk_index: 3,
            offset: 24,
            payload: b"world",
        },
    ];
    let request = push_chunk_batch_binary("127.0.0.1", "photos\\cat 01.jpg", &frames)
        .expect("binary batch push should succeed");
    assert_eq!(
        request.line().trim(),
        "PUSH_CHUNK_BATCH_BIN photos/cat%2001.jpg 2"
    );
    let body = &request.body;
    assert_eq!(u32::from_be_bytes(body[0..4].try_into().unwrap()), 1);
    assert_eq!(u64::from_be_bytes(body[4..12].try_into().unwrap()), 8);
    assert_eq!(u32::from_be_bytes(body[12..16].try_into().unwrap()), 5);
    assert_eq!(&body[16..21], b"hello");
    assert_eq!(u32::from_be_bytes(body[21..25].try_into().unwrap()), 3);
    assert_eq!(u64::from_be_bytes(body[25..33].try_into().unwrap()), 24);
    assert_eq!(u32::from_be_bytes(body[33..37].try_into().unwrap()), 5);
    assert_eq!(&body[37..], b"world");
    let reply = request.reply("{\"type\":\"ChunkBatchAck\",\"status\":\"batch_written\"}\n");
    assert!(reply.payload.contains("\"status\":\"batch_written\""));
    assert_eq!(encode_batch(&[]).expect("no frames"), Vec::<u8>::new());
}

#[test]
fn reads_binary_chunk_reply_header_and_payload() {
    let request = send_command(
        &AgentEndpoint::new("127.0.0.1", 38997),
        "PULL_CHUNK_BIN photos/cat%2001.jpg 1024 5",
    );
    assert_eq!(
        request.line().trim(),
        "PULL_CHUNK_BIN photos/cat%2001.jpg 1024 5"
    );
    let header = "{\"type\":\"ChunkPayloadBin\",\"relative_path\":\"photos/cat 01.jpg\",\"offset\":1024,\"length\":5}";
    assert_eq!(binary_reply_length(header).expect("length"), 5);
    let reply = request.binary_reply(header, b"hello".to_vec());
    assert!(reply.header.contains("\"type\":\"ChunkPayloadBin\""));
    assert_eq!(reply.payload, b"hello");
}
