//! The line protocol of the agent on the device: requests, frames and replies.

use crate::checkpoint;
use crate::codec;
use crate::decimal;
use crate::json;
use crate::text;
use vstd::prelude::*;

verus! {

/// The port on which the agent listens.
pub const DEFAULT_AGENT_PORT: u16 = 38997;

/// How long an ordinary request may take.
pub const DEFAULT_TIMEOUT_MS: u64 = 5000;

/// How long a batch of chunks or a binary reply may take.
pub const BATCH_TIMEOUT_MS: u64 = 120_000;

/// How long the digest of a file may take.
pub const VERIFY_TIMEOUT_MS: u64 = 1_800_000;

/// Where an agent listens.
#[derive(Debug, PartialEq, Eq)]
pub struct AgentEndpoint {
    pub host: String,
    pub port: u16,
}

#[verifier::ext_equal]
pub struct AgentEndpointView {
    pub host: Seq<char>,
    pub port: u16,
}

impl View for AgentEndpoint {
    type V = AgentEndpointView;

    open spec fn view(&self) -> AgentEndpointView {
        AgentEndpointView { host: self.host@, port: self.port }
    }
}

impl Clone for AgentEndpoint {
    fn clone(&self) -> (r: Self)
        ensures
            r@ == self@,
    {
        AgentEndpoint { host: self.host.clone(), port: self.port }
    }
}

impl AgentEndpoint {
    /// An endpoint.
    pub fn new(host: &str, port: u16) -> (r: Self)
        ensures
            r@ == (AgentEndpointView { host: host@, port }),
    {
        AgentEndpoint { host: host.to_string(), port }
    }

    /// The address in the form `host:port`.
    pub fn socket_addr(&self) -> (r: String)
        ensures
            r@ == self@.host + ":"@ + decimal::dec(self@.port as nat),
    {
        let mut s = self.host.clone();
        s.append(":");
        s.append(decimal::dec_text(self.port as u128).as_str());
        s
    }
}

/// What an agent answered.
#[derive(Debug, PartialEq, Eq)]
pub struct AgentReply {
    pub endpoint: AgentEndpoint,
    pub command: String,
    pub payload: String,
}

/// What an agent answered with bytes behind it.
#[derive(Debug, PartialEq, Eq)]
pub struct AgentBinaryReply {
    pub endpoint: AgentEndpoint,
    pub command: String,
    pub header: String,
    pub payload: Vec<u8>,
}

/// A chunk in a batch.
pub struct BinaryChunkFrame<'a> {
    pub chunk_index: u32,
    pub offset: u64,
    pub payload: &'a [u8],
}

/// Why an agent could not be asked.
#[derive(Debug, PartialEq, Eq)]
pub enum AgentClientError {
    InvalidEndpoint(String),
    Io(String),
}

/// An error in words.
pub open spec fn client_error_text(e: AgentClientError) -> Seq<char> {
    match e {
        AgentClientError::InvalidEndpoint(m) => "invalid agent endpoint: "@ + m@,
        AgentClientError::Io(m) => m@,
    }
}

impl AgentClientError {
    /// The error in words.
    pub fn message(&self) -> (r: String)
        ensures
            r@ == client_error_text(*self),
    {
        match self {
            AgentClientError::InvalidEndpoint(m) => checkpoint::about(
                "invalid agent endpoint: ",
                m.as_str(),
            ),
            AgentClientError::Io(m) => m.clone(),
        }
    }
}

/// What is to be sent to an agent: one line, then the bytes of the body.
#[derive(Debug, PartialEq, Eq)]
pub struct AgentRequest {
    pub endpoint: AgentEndpoint,
    pub command: String,
    pub body: Vec<u8>,
    pub timeout_ms: u64,
}

#[verifier::ext_equal]
pub struct AgentRequestView {
    pub endpoint: AgentEndpointView,
    pub command: Seq<char>,
    pub body: Seq<u8>,
    pub timeout_ms: u64,
}

impl View for AgentRequest {
    type V = AgentRequestView;

    open spec fn view(&self) -> AgentRequestView {
        AgentRequestView {
            endpoint: self.endpoint@,
            command: self.command@,
            body: self.body@,
            timeout_ms: self.timeout_ms,
        }
    }
}

/// A command to the agent on a host.
pub open spec fn request(
    host: Seq<char>,
    command: Seq<char>,
    body: Seq<u8>,
    timeout_ms: u64,
) -> AgentRequestView {
    AgentRequestView {
        endpoint: AgentEndpointView { host, port: DEFAULT_AGENT_PORT },
        command,
        body,
        timeout_ms,
    }
}

impl AgentRequest {
    /// The line that is sent: the command without blanks around it, and a line feed.
    pub fn line(&self) -> (r: String)
        ensures
            r@ == text::trim(self@.command) + "\n"@,
    {
        let mut s = text::trimmed(self.command.as_str());
        s.append("\n");
        s
    }

    /// The reply, out of the text that came back.
    pub fn reply(&self, response: &str) -> (r: AgentReply)
        ensures
            r.endpoint@ == self@.endpoint,
            r.command@ == self@.command,
            r.payload@ == text::trim(response@),
    {
        AgentReply {
            endpoint: self.endpoint.clone(),
            command: self.command.clone(),
            payload: text::trimmed(response),
        }
    }

    /// The reply with bytes behind it, out of the header line and the bytes that came back.
    pub fn binary_reply(&self, header: &str, payload: Vec<u8>) -> (r: AgentBinaryReply)
        ensures
            r.endpoint@ == self@.endpoint,
            r.command@ == self@.command,
            r.header@ == text::trim(header@),
            r.payload@ == payload@,
    {
        AgentBinaryReply {
            endpoint: self.endpoint.clone(),
            command: self.command.clone(),
            header: text::trimmed(header),
            payload,
        }
    }
}

/// A command to an endpoint, with the ordinary time limit.
pub fn send_command(endpoint: &AgentEndpoint, command: &str) -> (r: AgentRequest)
    ensures
        r@ == (AgentRequestView {
            endpoint: endpoint@,
            command: command@,
            body: Seq::empty(),
            timeout_ms: DEFAULT_TIMEOUT_MS,
        }),
{
    send_with_body(endpoint, command, Vec::new(), DEFAULT_TIMEOUT_MS)
}

/// A command to an endpoint with bytes behind it.
pub fn send_with_body(endpoint: &AgentEndpoint, command: &str, body: Vec<u8>, timeout_ms: u64) -> (r:
    AgentRequest)
    ensures
        r@ == (AgentRequestView {
            endpoint: endpoint@,
            command: command@,
            body: body@,
            timeout_ms,
        }),
{
    AgentRequest { endpoint: endpoint.clone(), command: command.to_string(), body, timeout_ms }
}

fn plain(host: &str, command: &str) -> (r: AgentRequest)
    ensures
        r@ == request(host@, command@, Seq::empty(), DEFAULT_TIMEOUT_MS),
{
    send_command(&AgentEndpoint::new(host, DEFAULT_AGENT_PORT), command)
}

/// Whether a character may stand in a plain argument: an ASCII letter or digit, a hyphen or an
/// underscore.
pub open spec fn is_word_char(c: char) -> bool {
    ('0' <= c <= '9') || ('A' <= c <= 'Z') || ('a' <= c <= 'z') || c == '-' || c == '_'
}

/// A text with only the characters of a plain argument kept.
pub open spec fn word_arg(s: Seq<char>) -> Seq<char>
    decreases s.len(),
{
    if s.len() == 0 {
        Seq::empty()
    } else if is_word_char(s.last()) {
        word_arg(s.drop_last()).push(s.last())
    } else {
        word_arg(s.drop_last())
    }
}

/// Whether a character may stand in a plain argument.
pub fn is_word_character(c: char) -> (r: bool)
    ensures
        r == is_word_char(c),
{
    ('0' <= c && c <= '9') || ('A' <= c && c <= 'Z') || ('a' <= c && c <= 'z') || c == '-' || c
        == '_'
}

/// A text with only the characters of a plain argument kept.
pub fn sanitize_command_arg(value: &str) -> (r: String)
    ensures
        r@ == word_arg(value@),
{
    let mut out = String::new();
    for c in it: value.chars()
        invariant
            it.seq() == value@,
            out@ == word_arg(value@.take(it.index())),
    {
        assert(value@.take(it.index() + 1).drop_last() =~= value@.take(it.index()));
        if is_word_character(c) {
            out.push(c);
        }
    }
    assert(value@.take(value@.len() as int) =~= value@);
    out
}

/// A path as an argument of a command.
pub fn sanitize_path_arg(value: &str) -> (r: String)
    ensures
        r@ == codec::path_arg(value@),
{
    codec::encode_path_arg(value)
}

/// A plain argument holds only letters, digits, hyphens and underscores, and making one of it
/// again changes nothing.
pub proof fn lemma_word_arg_is_one_word(s: Seq<char>)
    ensures
        forall|i: int| 0 <= i < word_arg(s).len() ==> is_word_char(#[trigger] word_arg(s)[i]),
        word_arg(word_arg(s)) == word_arg(s),
    decreases s.len(),
{
    if s.len() > 0 {
        lemma_word_arg_is_one_word(s.drop_last());
        if is_word_char(s.last()) {
            let w = word_arg(s);
            assert(w.drop_last() =~= word_arg(s.drop_last()));
        }
    }
}

/// Asks an agent who it is.
pub fn hello(host: &str) -> (r: AgentRequest)
    ensures
        r@ == request(host@, "HELLO"@, Seq::empty(), DEFAULT_TIMEOUT_MS),
{
    plain(host, "HELLO")
}

/// Asks an agent whether it is there.
pub fn ping(host: &str) -> (r: AgentRequest)
    ensures
        r@ == request(host@, "PING"@, Seq::empty(), DEFAULT_TIMEOUT_MS),
{
    plain(host, "PING")
}

/// Asks for the current task.
pub fn task_snapshot(host: &str) -> (r: AgentRequest)
    ensures
        r@ == request(host@, "TASK_SNAPSHOT"@, Seq::empty(), DEFAULT_TIMEOUT_MS),
{
    plain(host, "TASK_SNAPSHOT")
}

/// Pauses the current task.
pub fn pause_task(host: &str) -> (r: AgentRequest)
    ensures
        r@ == request(host@, "PAUSE_TASK"@, Seq::empty(), DEFAULT_TIMEOUT_MS),
{
    plain(host, "PAUSE_TASK")
}

/// Resumes the current task.
pub fn resume_task(host: &str) -> (r: AgentRequest)
    ensures
        r@ == request(host@, "RESUME_TASK"@, Seq::empty(), DEFAULT_TIMEOUT_MS),
{
    plain(host, "RESUME_TASK")
}

/// Asks for the current file.
pub fn file_snapshot(host: &str) -> (r: AgentRequest)
    ensures
        r@ == request(host@, "FILE_SNAPSHOT"@, Seq::empty(), DEFAULT_TIMEOUT_MS),
{
    plain(host, "FILE_SNAPSHOT")
}

/// Asks for the log.
pub fn log_snapshot(host: &str) -> (r: AgentRequest)
    ensures
        r@ == request(host@, "LOG_SNAPSHOT"@, Seq::empty(), DEFAULT_TIMEOUT_MS),
{
    plain(host, "LOG_SNAPSHOT")
}

/// Starts a task.
pub fn start_task(host: &str, task_id: &str) -> (r: AgentRequest)
    ensures
        r@ == request(host@, "START_TASK "@ + word_arg(task_id@), Seq::empty(), DEFAULT_TIMEOUT_MS),
{
    let mut command = "START_TASK ".to_string();
    command.append(sanitize_command_arg(task_id).as_str());
    plain(host, command.as_str())
}

/// Selects where files are written.
pub fn set_target_root(host: &str, target_root: &str) -> (r: AgentRequest)
    ensures
        r@ == request(host@, "SET_TARGET_ROOT "@ + codec::path_arg(target_root@), Seq::empty(), DEFAULT_TIMEOUT_MS),
{
    let mut command = "SET_TARGET_ROOT ".to_string();
    command.append(sanitize_path_arg(target_root).as_str());
    plain(host, command.as_str())
}

/// Starts a file.
pub fn start_file(host: &str, relative_path: &str, size_bytes: u64) -> (r: AgentRequest)
    ensures
        r@ == request(host@, "START_FILE "@ + codec::path_arg(relative_path@) + " "@ + decimal::dec(size_bytes as nat), Seq::empty(), DEFAULT_TIMEOUT_MS),
{
    let mut command = "START_FILE ".to_string();
    command.append(sanitize_path_arg(relative_path).as_str());
    command.append(" ");
    command.append(decimal::dec_text(size_bytes as u128).as_str());
    plain(host, command.as_str())
}

/// Finishes a file of the given size.
pub fn complete_file(host: &str, relative_path: &str, size_bytes: u64) -> (r: AgentRequest)
    ensures
        r@ == request(host@, "COMPLETE_FILE "@ + codec::path_arg(relative_path@) + " "@ + decimal::dec(size_bytes as nat), Seq::empty(), DEFAULT_TIMEOUT_MS),
{
    let mut command = "COMPLETE_FILE ".to_string();
    command.append(sanitize_path_arg(relative_path).as_str());
    command.append(" ");
    command.append(decimal::dec_text(size_bytes as u128).as_str());
    plain(host, command.as_str())
}

/// Acknowledges a chunk.
pub fn ack_chunk(host: &str, chunk_index: u32) -> (r: AgentRequest)
    ensures
        r@ == request(host@, "CHUNK_ACK "@ + decimal::dec(chunk_index as nat), Seq::empty(), DEFAULT_TIMEOUT_MS),
{
    let mut command = "CHUNK_ACK ".to_string();
    command.append(decimal::dec_text(chunk_index as u128).as_str());
    plain(host, command.as_str())
}

/// Sends a chunk as base64 text.
pub fn push_chunk_payload(host: &str, relative_path: &str, chunk_index: u32, offset: u64, payload: &[u8]) -> (r: AgentRequest)
    ensures
        r@ == request(host@, "PUSH_CHUNK "@ + codec::path_arg(relative_path@) + " "@ + decimal::dec(chunk_index as nat) + " "@ + decimal::dec(offset as nat) + " "@ + codec::base64(payload@), Seq::empty(), DEFAULT_TIMEOUT_MS),
{
    let mut command = "PUSH_CHUNK ".to_string();
    command.append(sanitize_path_arg(relative_path).as_str());
    command.append(" ");
    command.append(decimal::dec_text(chunk_index as u128).as_str());
    command.append(" ");
    command.append(decimal::dec_text(offset as u128).as_str());
    command.append(" ");
    command.append(codec::base64_encode(payload).as_str());
    plain(host, command.as_str())
}

/// Asks for a chunk as base64 text.
pub fn pull_chunk_payload(host: &str, relative_path: &str, offset: u64, length: u64) -> (r: AgentRequest)
    ensures
        r@ == request(host@, "PULL_CHUNK "@ + codec::path_arg(relative_path@) + " "@ + decimal::dec(offset as nat) + " "@ + decimal::dec(length as nat), Seq::empty(), DEFAULT_TIMEOUT_MS),
{
    let mut command = "PULL_CHUNK ".to_string();
    command.append(sanitize_path_arg(relative_path).as_str());
    command.append(" ");
    command.append(decimal::dec_text(offset as u128).as_str());
    command.append(" ");
    command.append(decimal::dec_text(length as u128).as_str());
    plain(host, command.as_str())
}

/// Asks for the size of a file.
pub fn stat_file(host: &str, relative_path: &str) -> (r: AgentRequest)
    ensures
        r@ == request(host@, "STAT_FILE "@ + codec::path_arg(relative_path@), Seq::empty(), DEFAULT_TIMEOUT_MS),
{
    let mut command = "STAT_FILE ".to_string();
    command.append(sanitize_path_arg(relative_path).as_str());
    plain(host, command.as_str())
}

/// The command that asks whether a chunk is committed.
pub open spec fn chunk_status_command(
    relative_path: Seq<char>,
    chunk_index: u32,
    offset: u64,
    length: u64,
) -> Seq<char> {
    "CHUNK_STATUS "@ + codec::path_arg(relative_path) + " "@ + decimal::dec(chunk_index as nat)
        + " "@ + decimal::dec(offset as nat) + " "@ + decimal::dec(length as nat)
}

/// Asks an endpoint whether a chunk is committed.
pub fn send_chunk_status(
    endpoint: &AgentEndpoint,
    relative_path: &str,
    chunk_index: u32,
    offset: u64,
    length: u64,
) -> (r: AgentRequest)
    ensures
        r@ == (AgentRequestView {
            endpoint: endpoint@,
            command: chunk_status_command(relative_path@, chunk_index, offset, length),
            body: Seq::empty(),
            timeout_ms: DEFAULT_TIMEOUT_MS,
        }),
{
    let mut command = "CHUNK_STATUS ".to_string();
    command.append(sanitize_path_arg(relative_path).as_str());
    command.append(" ");
    command.append(decimal::dec_text(chunk_index as u128).as_str());
    command.append(" ");
    command.append(decimal::dec_text(offset as u128).as_str());
    command.append(" ");
    command.append(decimal::dec_text(length as u128).as_str());
    send_command(endpoint, command.as_str())
}

/// Asks whether a chunk is committed.
pub fn chunk_status(
    host: &str,
    relative_path: &str,
    chunk_index: u32,
    offset: u64,
    length: u64,
) -> (r: AgentRequest)
    ensures
        r@ == request(
            host@,
            chunk_status_command(relative_path@, chunk_index, offset, length),
            Seq::empty(),
            DEFAULT_TIMEOUT_MS,
        ),
{
    send_chunk_status(
        &AgentEndpoint::new(host, DEFAULT_AGENT_PORT),
        relative_path,
        chunk_index,
        offset,
        length,
    )
}

/// Asks for the digest of a file.
pub fn verify_file(host: &str, relative_path: &str) -> (r: AgentRequest)
    ensures
        r@ == request(
            host@,
            "VERIFY_FILE "@ + codec::path_arg(relative_path@) + " BLAKE3"@,
            Seq::empty(),
            VERIFY_TIMEOUT_MS,
        ),
{
    let mut command = "VERIFY_FILE ".to_string();
    command.append(sanitize_path_arg(relative_path).as_str());
    command.append(" BLAKE3");
    send_with_body(
        &AgentEndpoint::new(host, DEFAULT_AGENT_PORT),
        command.as_str(),
        Vec::new(),
        VERIFY_TIMEOUT_MS,
    )
}

/// Sends a chunk as raw bytes.
pub fn push_chunk_binary(
    host: &str,
    relative_path: &str,
    chunk_index: u32,
    offset: u64,
    payload: &[u8],
) -> (r: AgentRequest)
    ensures
        r@ == request(
            host@,
            "PUSH_CHUNK_BIN "@ + codec::path_arg(relative_path@) + " "@ + decimal::dec(
                chunk_index as nat,
            ) + " "@ + decimal::dec(offset as nat) + " "@ + decimal::dec(payload@.len()),
            payload@,
            DEFAULT_TIMEOUT_MS,
        ),
{
    let mut command = "PUSH_CHUNK_BIN ".to_string();
    command.append(sanitize_path_arg(relative_path).as_str());
    command.append(" ");
    command.append(decimal::dec_text(chunk_index as u128).as_str());
    command.append(" ");
    command.append(decimal::dec_text(offset as u128).as_str());
    command.append(" ");
    command.append(decimal::dec_text(payload.len() as u128).as_str());
    let mut body: Vec<u8> = Vec::new();
    codec::push_bytes(&mut body, payload);
    assert(body@ =~= payload@);
    send_with_body(
        &AgentEndpoint::new(host, DEFAULT_AGENT_PORT),
        command.as_str(),
        body,
        DEFAULT_TIMEOUT_MS,
    )
}

/// Asks for a chunk as raw bytes.
pub fn pull_chunk_binary(host: &str, relative_path: &str, offset: u64, length: u64) -> (r:
    AgentRequest)
    ensures
        r@ == request(
            host@,
            "PULL_CHUNK_BIN "@ + codec::path_arg(relative_path@) + " "@ + decimal::dec(
                offset as nat,
            ) + " "@ + decimal::dec(length as nat),
            Seq::empty(),
            BATCH_TIMEOUT_MS,
        ),
{
    let mut command = "PULL_CHUNK_BIN ".to_string();
    command.append(sanitize_path_arg(relative_path).as_str());
    command.append(" ");
    command.append(decimal::dec_text(offset as u128).as_str());
    command.append(" ");
    command.append(decimal::dec_text(length as u128).as_str());
    send_with_body(
        &AgentEndpoint::new(host, DEFAULT_AGENT_PORT),
        command.as_str(),
        Vec::new(),
        BATCH_TIMEOUT_MS,
    )
}

/// Sends several files in one request: a manifest and their bytes.
pub fn push_file_bundle_binary(host: &str, bundle_id: &str, manifest: &[u8], payload: &[u8]) -> (r:
    AgentRequest)
    ensures
        r@ == request(
            host@,
            "PUSH_FILE_BUNDLE_BIN "@ + word_arg(bundle_id@) + " "@ + decimal::dec(
                manifest@.len(),
            ) + " "@ + decimal::dec(payload@.len()),
            manifest@ + payload@,
            DEFAULT_TIMEOUT_MS,
        ),
{
    let mut body: Vec<u8> = Vec::new();
    codec::push_bytes(&mut body, manifest);
    codec::push_bytes(&mut body, payload);
    assert(body@ =~= manifest@ + payload@);
    let mut command = "PUSH_FILE_BUNDLE_BIN ".to_string();
    command.append(sanitize_command_arg(bundle_id).as_str());
    command.append(" ");
    command.append(decimal::dec_text(manifest.len() as u128).as_str());
    command.append(" ");
    command.append(decimal::dec_text(payload.len() as u128).as_str());
    send_with_body(
        &AgentEndpoint::new(host, DEFAULT_AGENT_PORT),
        command.as_str(),
        body,
        DEFAULT_TIMEOUT_MS,
    )
}

/// A chunk in a batch: its index, its offset, its length, and its bytes.
pub open spec fn frame(f: BinaryChunkFrame<'_>) -> Seq<u8> {
    codec::be32(f.chunk_index) + codec::be64(f.offset) + codec::be32(f.payload@.len() as u32)
        + f.payload@
}

/// All chunks of a batch, one behind the other.
pub open spec fn frames(s: Seq<BinaryChunkFrame<'_>>) -> Seq<u8>
    decreases s.len(),
{
    if s.len() == 0 {
        Seq::empty()
    } else {
        frames(s.drop_last()) + frame(s.last())
    }
}

/// Whether every chunk's length fits 32 bits.
pub open spec fn frames_fit(s: Seq<BinaryChunkFrame<'_>>) -> bool {
    forall|i: int| 0 <= i < s.len() ==> (#[trigger] s[i]).payload@.len() <= u32::MAX
}

/// The bytes of a batch, unless a chunk is too large.
pub fn encode_batch(chunks: &[BinaryChunkFrame<'_>]) -> (r: Result<Vec<u8>, AgentClientError>)
    ensures
        match r {
            Ok(body) => frames_fit(chunks@) && body@ == frames(chunks@),
            Err(e) => !frames_fit(chunks@) && (e matches AgentClientError::Io(m) && m@
                == "chunk payload too large"@),
        },
{
    let mut body: Vec<u8> = Vec::new();
    let mut i: usize = 0;
    while i < chunks.len()
        invariant
            i <= chunks.len(),
            forall|k: int| 0 <= k < i ==> (#[trigger] chunks@[k]).payload@.len() <= u32::MAX,
            body@ == frames(chunks@.take(i as int)),
        decreases chunks.len() - i,
    {
        let ghost before = body@;
        assert(chunks@.take(i + 1).drop_last() =~= chunks@.take(i as int));
        let c = &chunks[i];
        codec::push_be32(&mut body, c.chunk_index);
        codec::push_be64(&mut body, c.offset);
        if c.payload.len() as u128 > u32::MAX as u128 {
            assert(chunks@[i as int].payload@.len() > u32::MAX);
            return Err(AgentClientError::Io("chunk payload too large".to_string()));
        }
        codec::push_be32(&mut body, c.payload.len() as u32);
        codec::push_bytes(&mut body, c.payload);
        assert(body@ =~= before + frame(chunks@[i as int]));
        i += 1;
    }
    assert(chunks@.take(chunks@.len() as int) =~= chunks@);
    Ok(body)
}

/// Sends several chunks of a file in one request, unless one is too large.
pub fn push_chunk_batch_binary(host: &str, relative_path: &str, chunks: &[BinaryChunkFrame<'_>])
    -> (r: Result<AgentRequest, AgentClientError>)
    ensures
        match r {
            Ok(q) => frames_fit(chunks@) && q@ == request(
                host@,
                "PUSH_CHUNK_BATCH_BIN "@ + codec::path_arg(relative_path@) + " "@ + decimal::dec(
                    chunks@.len(),
                ),
                frames(chunks@),
                BATCH_TIMEOUT_MS,
            ),
            Err(e) => !frames_fit(chunks@) && (e matches AgentClientError::Io(m) && m@
                == "chunk payload too large"@),
        },
{
    let mut command = "PUSH_CHUNK_BATCH_BIN ".to_string();
    command.append(sanitize_path_arg(relative_path).as_str());
    command.append(" ");
    command.append(decimal::dec_text(chunks.len() as u128).as_str());
    match encode_batch(chunks) {
        Err(e) => Err(e),
        Ok(body) => Ok(
            send_with_body(
                &AgentEndpoint::new(host, DEFAULT_AGENT_PORT),
                command.as_str(),
                body,
                BATCH_TIMEOUT_MS,
            ),
        ),
    }
}

/// How many bytes follow the header line of a binary reply, by what the header says: its problem
/// as JSON if it has one, its type and its length.
pub open spec fn reply_length(
    header: Seq<char>,
    problem: Option<Seq<char>>,
    kind: Option<Seq<char>>,
    length: Option<u64>,
) -> Result<u64, Seq<char>> {
    match problem {
        Some(p) => Err("invalid binary reply header: "@ + p),
        None => if kind == Some("Error"@) {
            Err(header)
        } else {
            match length {
                None => Err("binary reply header missing length: "@ + header),
                Some(n) => if n > usize::MAX {
                    Err("binary reply too large: "@ + decimal::dec(n as nat))
                } else {
                    Ok(n)
                },
            }
        },
    }
}

/// How many bytes follow a header line, from what was read out of it.
pub fn reply_length_from(
    header: &str,
    problem: Option<String>,
    kind: Option<String>,
    length: Option<u64>,
) -> (r: Result<usize, AgentClientError>)
    ensures
        match (r, reply_length(header@, text::opt_view(problem), text::opt_view(kind), length)) {
            (Ok(n), Ok(m)) => n == m,
            (Err(AgentClientError::Io(e)), Err(m)) => e@ == m,
            _ => false,
        },
{
    if let Some(p) = problem {
        return Err(
            AgentClientError::Io(checkpoint::about("invalid binary reply header: ", p.as_str())),
        );
    }
    if let Some(k) = kind {
        if text::str_eq(k.as_str(), "Error") {
            return Err(AgentClientError::Io(header.to_string()));
        }
    }
    match length {
        None => Err(
            AgentClientError::Io(checkpoint::about("binary reply header missing length: ", header)),
        ),
        Some(n) => if n as u128 > usize::MAX as u128 {
            Err(
                AgentClientError::Io(
                    checkpoint::about(
                        "binary reply too large: ",
                        decimal::dec_text(n as u128).as_str(),
                    ),
                ),
            )
        } else {
            Ok(n as usize)
        },
    }
}

/// How many bytes follow the header line of a binary reply.
pub fn binary_reply_length(header: &str) -> (r: Result<usize, AgentClientError>)
    ensures
        match (
            r,
            reply_length(
                header@,
                json::json_problem(header@),
                json::json_text(header@, "type"@),
                json::json_number(header@, "length"@),
            ),
        ) {
            (Ok(n), Ok(m)) => n == m,
            (Err(AgentClientError::Io(e)), Err(m)) => e@ == m,
            _ => false,
        },
{
    reply_length_from(
        header,
        json::problem(header),
        json::text_field(header, "type"),
        json::number_field(header, "length"),
    )
}

/// A plain argument keeps exactly the characters that may stand in one, in their order.
pub proof fn lemma_word_arg_keeps_word_characters(a: Seq<char>, b: Seq<char>, c: char)
    ensures
        word_arg(a + b) == word_arg(a) + word_arg(b),
        word_arg(seq![c]) == if ('0' <= c <= '9') || ('A' <= c <= 'Z') || ('a' <= c <= 'z') || c
            == '-' || c == '_' {
            seq![c]
        } else {
            Seq::<char>::empty()
        },
    decreases b.len(),
{
    assert(seq![c].drop_last() =~= Seq::<char>::empty());
    assert(word_arg(Seq::<char>::empty()) =~= Seq::<char>::empty());
    assert(seq![c].last() == c);
    if is_word_char(c) {
        assert(word_arg(seq![c]) =~= seq![c]);
    }
    if b.len() == 0 {
        assert(a + b =~= a);
        assert(word_arg(a) + word_arg(b) =~= word_arg(a));
    } else {
        let d = b.drop_last();
        lemma_word_arg_keeps_word_characters(a, d, c);
        assert((a + b).drop_last() =~= a + d);
        assert((a + b).last() == b.last());
        assert(word_arg(a + b) =~= word_arg(a) + word_arg(b));
    }
}

/// Every byte of a chunk stands in its batch behind sixteen bytes that tell the chunk's index, its
/// offset and how many bytes it has, and chunks stand one behind the other.
pub proof fn lemma_batch_holds_every_chunk(
    a: Seq<BinaryChunkFrame<'_>>,
    b: Seq<BinaryChunkFrame<'_>>,
    f: BinaryChunkFrame<'_>,
)
    requires
        f.payload@.len() <= u32::MAX,
    ensures
        frames(a + b) == frames(a) + frames(b),
        frames(seq![f]) == frame(f),
        frame(f).len() == 16 + f.payload@.len(),
        frame(f).subrange(0, 4) == codec::be32(f.chunk_index),
        frame(f).subrange(4, 12) == codec::be64(f.offset),
        frame(f).subrange(12, 16) == codec::be32(f.payload@.len() as u32),
        frame(f).skip(16) == f.payload@,
    decreases b.len(),
{
    let none = Seq::<BinaryChunkFrame<'_>>::empty();
    assert(seq![f].drop_last() =~= none);
    assert(frames(none) =~= Seq::<u8>::empty());
    assert(seq![f].last() == f);
    assert(frames(seq![f]) =~= frame(f));
    assert(codec::be32(f.chunk_index).len() == 4);
    assert(codec::be64(f.offset).len() == 8);
    assert(codec::be32(f.payload@.len() as u32).len() == 4);
    assert(frame(f).subrange(0, 4) =~= codec::be32(f.chunk_index));
    assert(frame(f).subrange(4, 12) =~= codec::be64(f.offset));
    assert(frame(f).subrange(12, 16) =~= codec::be32(f.payload@.len() as u32));
    assert(frame(f).skip(16) =~= f.payload@);
    if b.len() == 0 {
        assert(a + b =~= a);
        assert(frames(a) + frames(b) =~= frames(a));
    } else {
        let d = b.drop_last();
        lemma_batch_holds_every_chunk(a, d, f);
        assert((a + b).drop_last() =~= a + d);
        assert((a + b).last() == b.last());
        assert(frames(a + b) =~= frames(a) + frames(b));
    }
}

/// As many bytes follow a header line as it tells, and none are read where it is no JSON, tells of
/// an error or tells no length.
pub proof fn lemma_bytes_follow_as_told(
    header: Seq<char>,
    problem: Option<Seq<char>>,
    kind: Option<Seq<char>>,
    length: Option<u64>,
)
    ensures
        reply_length(header, problem, kind, length) is Ok <==> problem is None && kind != Some(
            "Error"@,
        ) && length is Some && length->0 <= usize::MAX,
        reply_length(header, problem, kind, length) matches Ok(n) ==> length == Some(n),
        problem is None && kind == Some("Error"@) ==> reply_length(header, problem, kind, length)
            == Err::<u64, Seq<char>>(header),
{
}

} // verus!
