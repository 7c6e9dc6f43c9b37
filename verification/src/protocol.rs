//! The messages that desktop and device exchange.

use crate::models::{ChunkDescriptor, DeviceCapability};
use vstd::prelude::*;

verus! {

/// A device introduces itself.
#[derive(Debug, PartialEq, Eq)]
pub struct DeviceHello {
    pub device_id: String,
    pub device_name: String,
    pub capability: DeviceCapability,
}

/// One chunk on one lane.
#[derive(Debug, PartialEq, Eq)]
pub struct FileChunk {
    pub task_id: String,
    pub session_id: String,
    pub lane: String,
    pub chunk: ChunkDescriptor,
    pub payload_len: u64,
}

/// A file whose digest is asked for.
#[derive(Debug, PartialEq, Eq)]
pub struct VerifyRequest {
    pub task_id: String,
    pub relative_path: String,
    pub algorithm: &'static str,
}

/// Messages that steer a task.
#[derive(Debug, PartialEq, Eq)]
pub enum ControlMessage {
    StartTask { task_id: String },
    PauseTask { task_id: String },
    ResumeTask { task_id: String },
    CancelTask { task_id: String },
    ChunkAck { task_id: String, chunk: ChunkDescriptor },
}

/// All messages.
#[derive(Debug, PartialEq, Eq)]
pub enum ProtocolMessage {
    Hello(DeviceHello),
    Control(ControlMessage),
    Chunk(FileChunk),
    Verify(VerifyRequest),
}

} // verus!
