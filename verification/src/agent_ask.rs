//! What a transfer asks of the agent.

use crate::agent;
use crate::agent::{AgentClientError, AgentRequest, AgentRequestView, BinaryChunkFrame};
use crate::codec;
use crate::decimal;
use crate::text;
use vstd::prelude::*;
use vstd::utf8::encode_utf8;

verus! {

/// A chunk that waits to be sent with others.
#[derive(Debug, PartialEq, Eq)]
pub struct PendingWifiChunk {
    pub chunk_index: u32,
    pub offset: u64,
    pub length: u64,
    pub payload: Vec<u8>,
}

pub struct PendingView {
    pub chunk_index: u32,
    pub offset: u64,
    pub length: u64,
    pub payload: Seq<u8>,
}

impl View for PendingWifiChunk {
    type V = PendingView;

    open spec fn view(&self) -> PendingView {
        PendingView {
            chunk_index: self.chunk_index,
            offset: self.offset,
            length: self.length,
            payload: self.payload@,
        }
    }
}

/// The views of waiting chunks.
pub open spec fn pending_views(chunks: Seq<PendingWifiChunk>) -> Seq<PendingView> {
    chunks.map_values(|c: PendingWifiChunk| c@)
}

/// Something to ask of the agent.
#[derive(Debug, PartialEq, Eq)]
pub enum AgentAsk {
    StartTask(String),
    SetTargetRoot(String),
    StartFile(String, u64),
    CompleteFile(String, u64),
    Stat(String),
    Verify(String),
    /// A chunk as raw bytes: path, index, offset and bytes.
    PushBinary(String, u32, u64, Vec<u8>),
    /// A chunk as text: path, index, offset and bytes.
    PushText(String, u32, u64, Vec<u8>),
    /// Whether a chunk is committed: path, index, offset and length.
    ChunkStatus(String, u32, u64, u64),
    /// Bytes of a file, raw: path, offset and length.
    PullBinary(String, u64, u64),
    /// Bytes of a file, as text: path, offset and length.
    PullText(String, u64, u64),
    /// Several files at once: name, manifest and bytes.
    Bundle(String, String, Vec<u8>),
    /// Several chunks of a file at once.
    Batch(String, Vec<PendingWifiChunk>),
}

pub enum AskView {
    StartTask(Seq<char>),
    SetTargetRoot(Seq<char>),
    StartFile(Seq<char>, u64),
    CompleteFile(Seq<char>, u64),
    Stat(Seq<char>),
    Verify(Seq<char>),
    PushBinary(Seq<char>, u32, u64, Seq<u8>),
    PushText(Seq<char>, u32, u64, Seq<u8>),
    ChunkStatus(Seq<char>, u32, u64, u64),
    PullBinary(Seq<char>, u64, u64),
    PullText(Seq<char>, u64, u64),
    Bundle(Seq<char>, Seq<char>, Seq<u8>),
    Batch(Seq<char>, Seq<PendingView>),
}

impl View for AgentAsk {
    type V = AskView;

    open spec fn view(&self) -> AskView {
        match self {
            AgentAsk::StartTask(id) => AskView::StartTask(id@),
            AgentAsk::SetTargetRoot(root) => AskView::SetTargetRoot(root@),
            AgentAsk::StartFile(p, n) => AskView::StartFile(p@, *n),
            AgentAsk::CompleteFile(p, n) => AskView::CompleteFile(p@, *n),
            AgentAsk::Stat(p) => AskView::Stat(p@),
            AgentAsk::Verify(p) => AskView::Verify(p@),
            AgentAsk::PushBinary(p, k, o, b) => AskView::PushBinary(p@, *k, *o, b@),
            AgentAsk::PushText(p, k, o, b) => AskView::PushText(p@, *k, *o, b@),
            AgentAsk::ChunkStatus(p, k, o, n) => AskView::ChunkStatus(p@, *k, *o, *n),
            AgentAsk::PullBinary(p, o, n) => AskView::PullBinary(p@, *o, *n),
            AgentAsk::PullText(p, o, n) => AskView::PullText(p@, *o, *n),
            AgentAsk::Bundle(id, m, b) => AskView::Bundle(id@, m@, b@),
            AgentAsk::Batch(p, c) => AskView::Batch(p@, pending_views(c@)),
        }
    }
}

/// The bytes of a batch of chunks.
pub open spec fn batch_bytes(chunks: Seq<PendingView>) -> Seq<u8>
    decreases chunks.len(),
{
    if chunks.len() == 0 {
        Seq::empty()
    } else {
        let c = chunks.last();
        batch_bytes(chunks.drop_last()) + (codec::be32(c.chunk_index) + codec::be64(c.offset)
            + codec::be32(c.payload.len() as u32) + c.payload)
    }
}

/// Whether every chunk's length fits 32 bits.
pub open spec fn lengths_fit(chunks: Seq<PendingView>) -> bool {
    forall|i: int| 0 <= i < chunks.len() ==> (#[trigger] chunks[i]).payload.len() <= u32::MAX
}

/// Whether a request can be made: in a batch, every chunk's length fits 32 bits.
pub open spec fn can_ask(ask: AskView) -> bool {
    match ask {
        AskView::Batch(_, chunks) => lengths_fit(chunks),
        _ => true,
    }
}

/// The request that asks for something.
pub open spec fn request_of(host: Seq<char>, ask: AskView) -> AgentRequestView {
    let usual = agent::DEFAULT_TIMEOUT_MS;
    let long = agent::BATCH_TIMEOUT_MS;
    match ask {
        AskView::StartTask(id) => agent::request(
            host,
            "START_TASK "@ + agent::word_arg(id),
            Seq::empty(),
            usual,
        ),
        AskView::SetTargetRoot(root) => agent::request(
            host,
            "SET_TARGET_ROOT "@ + codec::path_arg(root),
            Seq::empty(),
            usual,
        ),
        AskView::StartFile(p, n) => agent::request(
            host,
            "START_FILE "@ + codec::path_arg(p) + " "@ + decimal::dec(n as nat),
            Seq::empty(),
            usual,
        ),
        AskView::CompleteFile(p, n) => agent::request(
            host,
            "COMPLETE_FILE "@ + codec::path_arg(p) + " "@ + decimal::dec(n as nat),
            Seq::empty(),
            usual,
        ),
        AskView::Stat(p) => agent::request(
            host,
            "STAT_FILE "@ + codec::path_arg(p),
            Seq::empty(),
            usual,
        ),
        AskView::Verify(p) => agent::request(
            host,
            "VERIFY_FILE "@ + codec::path_arg(p) + " BLAKE3"@,
            Seq::empty(),
            agent::VERIFY_TIMEOUT_MS,
        ),
        AskView::PushBinary(p, k, o, b) => agent::request(
            host,
            "PUSH_CHUNK_BIN "@ + codec::path_arg(p) + " "@ + decimal::dec(k as nat) + " "@
                + decimal::dec(o as nat) + " "@ + decimal::dec(b.len()),
            b,
            usual,
        ),
        AskView::PushText(p, k, o, b) => agent::request(
            host,
            "PUSH_CHUNK "@ + codec::path_arg(p) + " "@ + decimal::dec(k as nat) + " "@
                + decimal::dec(o as nat) + " "@ + codec::base64(b),
            Seq::empty(),
            usual,
        ),
        AskView::ChunkStatus(p, k, o, n) => agent::request(
            host,
            agent::chunk_status_command(p, k, o, n),
            Seq::empty(),
            usual,
        ),
        AskView::PullBinary(p, o, n) => agent::request(
            host,
            "PULL_CHUNK_BIN "@ + codec::path_arg(p) + " "@ + decimal::dec(o as nat) + " "@
                + decimal::dec(n as nat),
            Seq::empty(),
            long,
        ),
        AskView::PullText(p, o, n) => agent::request(
            host,
            "PULL_CHUNK "@ + codec::path_arg(p) + " "@ + decimal::dec(o as nat) + " "@
                + decimal::dec(n as nat),
            Seq::empty(),
            usual,
        ),
        AskView::Bundle(id, m, b) => agent::request(
            host,
            "PUSH_FILE_BUNDLE_BIN "@ + agent::word_arg(id) + " "@ + decimal::dec(
                encode_utf8(m).len(),
            ) + " "@ + decimal::dec(b.len()),
            encode_utf8(m) + b,
            usual,
        ),
        AskView::Batch(p, chunks) => agent::request(
            host,
            "PUSH_CHUNK_BATCH_BIN "@ + codec::path_arg(p) + " "@ + decimal::dec(chunks.len()),
            batch_bytes(chunks),
            long,
        ),
    }
}

/// A copy of bytes.
pub fn copy_bytes(bytes: &Vec<u8>) -> (r: Vec<u8>)
    ensures
        r@ == bytes@,
{
    let mut out: Vec<u8> = Vec::new();
    codec::push_bytes(&mut out, bytes.as_slice());
    assert(out@ =~= bytes@);
    out
}

fn batch_request(host: &str, path: &str, chunks: &Vec<PendingWifiChunk>) -> (r: Result<
    AgentRequest,
    AgentClientError,
>)
    ensures
        match r {
            Ok(q) => can_ask(AskView::Batch(path@, pending_views(chunks@))) && q@ == request_of(
                host@,
                AskView::Batch(path@, pending_views(chunks@)),
            ),
            Err(e) => !can_ask(AskView::Batch(path@, pending_views(chunks@))) && (e matches
                AgentClientError::Io(m) && m@ == "chunk payload too large"@),
        },
{
    let ghost all = pending_views(chunks@);
    let mut frames: Vec<BinaryChunkFrame> = Vec::new();
    let mut i: usize = 0;
    while i < chunks.len()
        invariant
            i <= chunks.len(),
            frames@.len() == i,
            all == pending_views(chunks@),
            forall|k: int|
                0 <= k < i ==> (#[trigger] frames@[k]).chunk_index == all[k].chunk_index
                    && frames@[k].offset == all[k].offset && frames@[k].payload@ == all[k].payload,
        decreases chunks.len() - i,
    {
        let c = &chunks[i];
        frames.push(
            BinaryChunkFrame {
                chunk_index: c.chunk_index,
                offset: c.offset,
                payload: c.payload.as_slice(),
            },
        );
        i += 1;
    }
    proof {
        lemma_batch_bytes(frames@, all);
        assert(agent::frames_fit(frames@) ==> lengths_fit(all)) by {
            if agent::frames_fit(frames@) {
                assert forall|k: int| 0 <= k < all.len() implies (#[trigger] all[k]).payload.len()
                    <= u32::MAX by {
                    assert(frames@[k].payload@ == all[k].payload);
                }
            }
        }
        assert(lengths_fit(all) ==> agent::frames_fit(frames@)) by {
            if lengths_fit(all) {
                assert forall|k: int| 0 <= k < frames@.len() implies (
                #[trigger] frames@[k]).payload@.len() <= u32::MAX by {
                    assert(all[k].payload.len() <= u32::MAX);
                }
            }
        }
    }
    agent::push_chunk_batch_binary(host, path, frames.as_slice())
}

proof fn lemma_batch_bytes(frames: Seq<BinaryChunkFrame<'_>>, chunks: Seq<PendingView>)
    requires
        frames.len() == chunks.len(),
        forall|k: int|
            0 <= k < frames.len() ==> (#[trigger] frames[k]).chunk_index == chunks[k].chunk_index
                && frames[k].offset == chunks[k].offset && frames[k].payload@ == chunks[k].payload,
    ensures
        agent::frames(frames) == batch_bytes(chunks),
    decreases frames.len(),
{
    if frames.len() > 0 {
        let n = frames.len() - 1;
        assert(frames[n].payload@ == chunks[n].payload);
        lemma_batch_bytes(frames.drop_last(), chunks.drop_last());
    }
}

impl AgentAsk {
    /// The request that asks for this of the agent on a host, if it can be made.
    pub fn request(&self, host: &str) -> (r: Result<AgentRequest, AgentClientError>)
        ensures
            match r {
                Ok(q) => can_ask(self@) && q@ == request_of(host@, self@),
                Err(e) => !can_ask(self@) && (e matches AgentClientError::Io(m) && m@
                    == "chunk payload too large"@),
            },
    {
        let q = match self {
            AgentAsk::StartTask(id) => agent::start_task(host, id.as_str()),
            AgentAsk::SetTargetRoot(root) => agent::set_target_root(host, root.as_str()),
            AgentAsk::StartFile(p, n) => agent::start_file(host, p.as_str(), *n),
            AgentAsk::CompleteFile(p, n) => agent::complete_file(host, p.as_str(), *n),
            AgentAsk::Stat(p) => agent::stat_file(host, p.as_str()),
            AgentAsk::Verify(p) => agent::verify_file(host, p.as_str()),
            AgentAsk::PushBinary(p, k, o, b) => agent::push_chunk_binary(
                host,
                p.as_str(),
                *k,
                *o,
                b.as_slice(),
            ),
            AgentAsk::PushText(p, k, o, b) => agent::push_chunk_payload(
                host,
                p.as_str(),
                *k,
                *o,
                b.as_slice(),
            ),
            AgentAsk::ChunkStatus(p, k, o, n) => agent::chunk_status(host, p.as_str(), *k, *o, *n),
            AgentAsk::PullBinary(p, o, n) => agent::pull_chunk_binary(host, p.as_str(), *o, *n),
            AgentAsk::PullText(p, o, n) => agent::pull_chunk_payload(host, p.as_str(), *o, *n),
            AgentAsk::Bundle(id, m, b) => agent::push_file_bundle_binary(
                host,
                id.as_str(),
                m.as_str().as_bytes(),
                b.as_slice(),
            ),
            AgentAsk::Batch(p, chunks) => {
                return batch_request(host, p.as_str(), chunks);
            },
        };
        Ok(q)
    }
}

/// Whether a request says these words, and these bytes, to the agent on a host: the words stand in its line with
/// a blank between them, and none of them holds one.
pub open spec fn says(
    r: AgentRequestView,
    host: Seq<char>,
    words: Seq<Seq<char>>,
    body: Seq<u8>,
) -> bool {
    &&& r.endpoint.host == host
    &&& r.endpoint.port == 38997
    &&& text::split_on(r.command, ' ') == words
    &&& r.body == body
}

spec fn is_word(s: Seq<char>) -> bool {
    text::lacks(s, ' ')
}

spec fn are_words(words: Seq<Seq<char>>) -> bool {
    forall|i: int| 0 <= i < words.len() ==> is_word(#[trigger] words[i])
}

proof fn lemma_words(words: Seq<Seq<char>>)
    requires
        words.len() > 0,
        are_words(words),
    ensures
        text::split_on(text::join(words, seq![' ']), ' ') == words,
{
    assert forall|i: int| 0 <= i < words.len() implies text::lacks(#[trigger] words[i], ' ') by {
        assert(is_word(words[i]));
    }
    text::lemma_split_join(words, ' ');
}

proof fn lemma_two(a: Seq<char>, b: Seq<char>)
    requires
        is_word(a),
        is_word(b),
    ensures
        text::split_on(a + " "@ + b, ' ') == seq![a, b],
{
    reveal_strlit(" ");
    let w = seq![a, b];
    lemma_words(w);
    reveal_with_fuel(text::join, 3);
    assert(w.drop_last() =~= seq![a]);
    assert(text::join(w, seq![' ']) =~= a + " "@ + b);
}

proof fn lemma_one_more(head: Seq<char>, words: Seq<Seq<char>>, b: Seq<char>)
    requires
        words.len() > 0,
        are_words(words),
        text::join(words, seq![' ']) == head,
        is_word(b),
    ensures
        text::join(words.push(b), seq![' ']) == head + " "@ + b,
        text::split_on(head + " "@ + b, ' ') == words.push(b),
        are_words(words.push(b)),
{
    reveal_strlit(" ");
    let w = words.push(b);
    assert(w.drop_last() =~= words);
    assert(text::join(w, seq![' ']) =~= head + " "@ + b);
    lemma_words(w);
}

proof fn lemma_path_is_a_word(p: Seq<char>)
    ensures
        is_word(codec::path_arg(p)),
{
    codec::lemma_path_arg_is_one_word(p);
    assert forall|i: int| 0 <= i < codec::path_arg(p).len() implies #[trigger] codec::path_arg(p)[i]
        != ' ' by {
        assert(codec::is_arg_char(codec::path_arg(p)[i]));
    }
}

proof fn lemma_id_is_a_word(p: Seq<char>)
    ensures
        is_word(agent::word_arg(p)),
{
    agent::lemma_word_arg_is_one_word(p);
    assert forall|i: int| 0 <= i < agent::word_arg(p).len() implies #[trigger] agent::word_arg(p)[i]
        != ' ' by {
        assert(agent::is_word_char(agent::word_arg(p)[i]));
    }
}

proof fn lemma_number_is_a_word(n: nat)
    ensures
        is_word(decimal::dec(n)),
{
    decimal::lemma_dec(n);
    assert forall|i: int| 0 <= i < decimal::dec(n).len() implies #[trigger] decimal::dec(n)[i] != ' ' by {
        assert(decimal::is_digit(decimal::dec(n)[i]));
    }
}

proof fn lemma_base64_is_a_word(b: Seq<u8>)
    ensures
        is_word(codec::base64(b)),
    decreases b.len(),
{
    let t = codec::base64(b);
    if b.len() >= 3 {
        lemma_base64_is_a_word(b.skip(3));
        assert forall|i: int| 0 <= i < t.len() implies #[trigger] t[i] != ' ' by {
            if i >= 4 {
                assert(t[i] == codec::base64(b.skip(3))[i - 4]);
            }
        }
    }
}

proof fn lemma_line(name: Seq<char>, head: Seq<char>, a: Seq<char>)
    requires
        head == name + " "@,
        is_word(name),
        is_word(a),
    ensures
        text::split_on(head + a, ' ') == seq![name, a],
        text::join(seq![name, a], seq![' ']) == head + a,
        are_words(seq![name, a]),
{
    reveal_strlit(" ");
    lemma_two(name, a);
    assert(head + a =~= name + " "@ + a);
    reveal_with_fuel(text::join, 3);
    assert(seq![name, a].drop_last() =~= seq![name]);
    assert(text::join(seq![name, a], seq![' ']) =~= head + a);
}

/// A task, a target root, a file to start or to complete, and questions for the size and the digest of a file are
/// put to the agent in these words: the path as an argument that stands for it, and sizes as numbers.
pub proof fn lemma_files_are_named_in_requests(
    host: Seq<char>,
    id: Seq<char>,
    p: Seq<char>,
    n: u64,
)
    ensures
        says(
            request_of(host, AskView::StartTask(id)),
            host,
            seq!["START_TASK"@, agent::word_arg(id)],
            Seq::empty(),
        ),
        says(
            request_of(host, AskView::SetTargetRoot(p)),
            host,
            seq!["SET_TARGET_ROOT"@, codec::path_arg(p)],
            Seq::empty(),
        ),
        says(
            request_of(host, AskView::StartFile(p, n)),
            host,
            seq!["START_FILE"@, codec::path_arg(p), decimal::dec(n as nat)],
            Seq::empty(),
        ),
        says(
            request_of(host, AskView::CompleteFile(p, n)),
            host,
            seq!["COMPLETE_FILE"@, codec::path_arg(p), decimal::dec(n as nat)],
            Seq::empty(),
        ),
        says(
            request_of(host, AskView::Stat(p)),
            host,
            seq!["STAT_FILE"@, codec::path_arg(p)],
            Seq::empty(),
        ),
        says(
            request_of(host, AskView::Verify(p)),
            host,
            seq!["VERIFY_FILE"@, codec::path_arg(p), "BLAKE3"@],
            Seq::empty(),
        ),
{
    reveal_strlit("START_TASK");
    reveal_strlit("START_TASK ");
    reveal_strlit("SET_TARGET_ROOT");
    reveal_strlit("SET_TARGET_ROOT ");
    reveal_strlit("START_FILE");
    reveal_strlit("START_FILE ");
    reveal_strlit("COMPLETE_FILE");
    reveal_strlit("COMPLETE_FILE ");
    reveal_strlit("STAT_FILE");
    reveal_strlit("STAT_FILE ");
    reveal_strlit("VERIFY_FILE");
    reveal_strlit("VERIFY_FILE ");
    reveal_strlit("BLAKE3");
    reveal_strlit(" BLAKE3");
    reveal_strlit(" ");
    lemma_path_is_a_word(p);
    lemma_id_is_a_word(id);
    lemma_number_is_a_word(n as nat);
    let path = codec::path_arg(p);
    let size = decimal::dec(n as nat);
    assert("START_TASK "@ =~= "START_TASK"@ + " "@);
    lemma_line("START_TASK"@, "START_TASK "@, agent::word_arg(id));
    assert("SET_TARGET_ROOT "@ =~= "SET_TARGET_ROOT"@ + " "@);
    lemma_line("SET_TARGET_ROOT"@, "SET_TARGET_ROOT "@, path);
    assert("START_FILE "@ =~= "START_FILE"@ + " "@);
    lemma_line("START_FILE"@, "START_FILE "@, path);
    lemma_one_more("START_FILE "@ + path, seq!["START_FILE"@, path], size);
    assert(seq!["START_FILE"@, path].push(size) =~= seq!["START_FILE"@, path, size]);
    assert("COMPLETE_FILE "@ =~= "COMPLETE_FILE"@ + " "@);
    lemma_line("COMPLETE_FILE"@, "COMPLETE_FILE "@, path);
    lemma_one_more("COMPLETE_FILE "@ + path, seq!["COMPLETE_FILE"@, path], size);
    assert(seq!["COMPLETE_FILE"@, path].push(size) =~= seq!["COMPLETE_FILE"@, path, size]);
    assert("STAT_FILE "@ =~= "STAT_FILE"@ + " "@);
    lemma_line("STAT_FILE"@, "STAT_FILE "@, path);
    assert("VERIFY_FILE "@ =~= "VERIFY_FILE"@ + " "@);
    lemma_line("VERIFY_FILE"@, "VERIFY_FILE "@, path);
    lemma_one_more("VERIFY_FILE "@ + path, seq!["VERIFY_FILE"@, path], "BLAKE3"@);
    assert(seq!["VERIFY_FILE"@, path].push("BLAKE3"@) =~= seq!["VERIFY_FILE"@, path, "BLAKE3"@]);
    assert("VERIFY_FILE "@ + path + " BLAKE3"@ =~= "VERIFY_FILE "@ + path + " "@ + "BLAKE3"@);
}

/// A chunk is pushed, asked for and fetched with its path, its number, its offset and its length in the line: its
/// bytes follow the line, or stand in it as base64.
pub proof fn lemma_chunks_are_named_in_requests(
    host: Seq<char>,
    p: Seq<char>,
    k: u32,
    o: u64,
    n: u64,
    b: Seq<u8>,
)
    ensures
        says(
            request_of(host, AskView::PushBinary(p, k, o, b)),
            host,
            seq![
                "PUSH_CHUNK_BIN"@,
                codec::path_arg(p),
                decimal::dec(k as nat),
                decimal::dec(o as nat),
                decimal::dec(b.len()),
            ],
            b,
        ),
        says(
            request_of(host, AskView::PushText(p, k, o, b)),
            host,
            seq![
                "PUSH_CHUNK"@,
                codec::path_arg(p),
                decimal::dec(k as nat),
                decimal::dec(o as nat),
                codec::base64(b),
            ],
            Seq::empty(),
        ),
        says(
            request_of(host, AskView::ChunkStatus(p, k, o, n)),
            host,
            seq![
                "CHUNK_STATUS"@,
                codec::path_arg(p),
                decimal::dec(k as nat),
                decimal::dec(o as nat),
                decimal::dec(n as nat),
            ],
            Seq::empty(),
        ),
        says(
            request_of(host, AskView::PullBinary(p, o, n)),
            host,
            seq![
                "PULL_CHUNK_BIN"@,
                codec::path_arg(p),
                decimal::dec(o as nat),
                decimal::dec(n as nat),
            ],
            Seq::empty(),
        ),
        says(
            request_of(host, AskView::PullText(p, o, n)),
            host,
            seq![
                "PULL_CHUNK"@,
                codec::path_arg(p),
                decimal::dec(o as nat),
                decimal::dec(n as nat),
            ],
            Seq::empty(),
        ),
{
    reveal_strlit("PUSH_CHUNK_BIN");
    reveal_strlit("PUSH_CHUNK_BIN ");
    reveal_strlit("PUSH_CHUNK");
    reveal_strlit("PUSH_CHUNK ");
    reveal_strlit("CHUNK_STATUS");
    reveal_strlit("CHUNK_STATUS ");
    reveal_strlit("PULL_CHUNK_BIN");
    reveal_strlit("PULL_CHUNK_BIN ");
    reveal_strlit("PULL_CHUNK");
    reveal_strlit("PULL_CHUNK ");
    reveal_strlit(" ");
    lemma_path_is_a_word(p);
    lemma_number_is_a_word(k as nat);
    lemma_number_is_a_word(o as nat);
    lemma_number_is_a_word(n as nat);
    lemma_number_is_a_word(b.len());
    lemma_base64_is_a_word(b);
    let path = codec::path_arg(p);
    let index = decimal::dec(k as nat);
    let offset = decimal::dec(o as nat);
    let length = decimal::dec(n as nat);
    assert("PUSH_CHUNK_BIN "@ =~= "PUSH_CHUNK_BIN"@ + " "@);
    lemma_five("PUSH_CHUNK_BIN"@, "PUSH_CHUNK_BIN "@, path, index, offset, decimal::dec(b.len()));
    assert("PUSH_CHUNK "@ =~= "PUSH_CHUNK"@ + " "@);
    lemma_five("PUSH_CHUNK"@, "PUSH_CHUNK "@, path, index, offset, codec::base64(b));
    assert("CHUNK_STATUS "@ =~= "CHUNK_STATUS"@ + " "@);
    lemma_five("CHUNK_STATUS"@, "CHUNK_STATUS "@, path, index, offset, length);
    assert("PULL_CHUNK_BIN "@ =~= "PULL_CHUNK_BIN"@ + " "@);
    lemma_four("PULL_CHUNK_BIN"@, "PULL_CHUNK_BIN "@, path, offset, length);
    assert("PULL_CHUNK "@ =~= "PULL_CHUNK"@ + " "@);
    lemma_four("PULL_CHUNK"@, "PULL_CHUNK "@, path, offset, length);
}

proof fn lemma_four(
    name: Seq<char>,
    head: Seq<char>,
    a: Seq<char>,
    b: Seq<char>,
    c: Seq<char>,
)
    requires
        head == name + " "@,
        is_word(name),
        is_word(a),
        is_word(b),
        is_word(c),
    ensures
        text::split_on(head + a + " "@ + b + " "@ + c, ' ') == seq![name, a, b, c],
        text::join(seq![name, a, b, c], seq![' ']) == head + a + " "@ + b + " "@ + c,
        are_words(seq![name, a, b, c]),
{
    lemma_line(name, head, a);
    lemma_one_more(head + a, seq![name, a], b);
    assert(seq![name, a].push(b) =~= seq![name, a, b]);
    lemma_one_more(head + a + " "@ + b, seq![name, a, b], c);
    assert(seq![name, a, b].push(c) =~= seq![name, a, b, c]);
}

proof fn lemma_five(
    name: Seq<char>,
    head: Seq<char>,
    a: Seq<char>,
    b: Seq<char>,
    c: Seq<char>,
    d: Seq<char>,
)
    requires
        head == name + " "@,
        is_word(name),
        is_word(a),
        is_word(b),
        is_word(c),
        is_word(d),
    ensures
        text::split_on(head + a + " "@ + b + " "@ + c + " "@ + d, ' ') == seq![name, a, b, c, d],
{
    lemma_four(name, head, a, b, c);
    lemma_one_more(head + a + " "@ + b + " "@ + c, seq![name, a, b, c], d);
    assert(seq![name, a, b, c].push(d) =~= seq![name, a, b, c, d]);
}

/// A bundle and a batch tell their lengths or their number in the line. The manifest of a bundle is followed by its
/// bytes; each chunk of a batch by the next, with its number, offset and length before its bytes.
pub proof fn lemma_bundles_and_batches_are_sent_whole(
    host: Seq<char>,
    id: Seq<char>,
    m: Seq<char>,
    b: Seq<u8>,
    p: Seq<char>,
    chunks: Seq<PendingView>,
    c: PendingView,
)
    ensures
        says(
            request_of(host, AskView::Bundle(id, m, b)),
            host,
            seq![
                "PUSH_FILE_BUNDLE_BIN"@,
                agent::word_arg(id),
                decimal::dec(encode_utf8(m).len()),
                decimal::dec(b.len()),
            ],
            encode_utf8(m) + b,
        ),
        says(
            request_of(host, AskView::Batch(p, chunks)),
            host,
            seq!["PUSH_CHUNK_BATCH_BIN"@, codec::path_arg(p), decimal::dec(chunks.len())],
            batch_bytes(chunks),
        ),
        batch_bytes(Seq::empty()).len() == 0,
        batch_bytes(chunks.push(c)) == batch_bytes(chunks) + codec::be32(c.chunk_index)
            + codec::be64(c.offset) + codec::be32(c.payload.len() as u32) + c.payload,
{
    reveal_strlit("PUSH_FILE_BUNDLE_BIN");
    reveal_strlit("PUSH_FILE_BUNDLE_BIN ");
    reveal_strlit("PUSH_CHUNK_BATCH_BIN");
    reveal_strlit("PUSH_CHUNK_BATCH_BIN ");
    reveal_strlit(" ");
    lemma_path_is_a_word(p);
    lemma_id_is_a_word(id);
    lemma_number_is_a_word(encode_utf8(m).len());
    lemma_number_is_a_word(b.len());
    lemma_number_is_a_word(chunks.len());
    assert("PUSH_FILE_BUNDLE_BIN "@ =~= "PUSH_FILE_BUNDLE_BIN"@ + " "@);
    lemma_four(
        "PUSH_FILE_BUNDLE_BIN"@,
        "PUSH_FILE_BUNDLE_BIN "@,
        agent::word_arg(id),
        decimal::dec(encode_utf8(m).len()),
        decimal::dec(b.len()),
    );
    assert("PUSH_CHUNK_BATCH_BIN "@ =~= "PUSH_CHUNK_BATCH_BIN"@ + " "@);
    let path = codec::path_arg(p);
    let count = decimal::dec(chunks.len());
    lemma_line("PUSH_CHUNK_BATCH_BIN"@, "PUSH_CHUNK_BATCH_BIN "@, path);
    lemma_one_more("PUSH_CHUNK_BATCH_BIN "@ + path, seq!["PUSH_CHUNK_BATCH_BIN"@, path], count);
    assert(seq!["PUSH_CHUNK_BATCH_BIN"@, path].push(count) =~= seq![
        "PUSH_CHUNK_BATCH_BIN"@,
        path,
        count,
    ]);
    assert(chunks.push(c).drop_last() =~= chunks);
    assert(batch_bytes(chunks.push(c)) =~= batch_bytes(chunks) + codec::be32(c.chunk_index)
        + codec::be64(c.offset) + codec::be32(c.payload.len() as u32) + c.payload);
}

/// An answer is waited for 30 minutes where a digest is made, 2 minutes where a batch is written or bytes are
/// fetched, and else 5 seconds.
pub proof fn lemma_answers_are_waited_for(host: Seq<char>, ask: AskView)
    ensures
        request_of(host, ask).timeout_ms == (match ask {
            AskView::Verify(_) => 30 * 60 * 1000,
            AskView::Batch(_, _) => 2 * 60 * 1000,
            AskView::PullBinary(_, _, _) => 2 * 60 * 1000,
            _ => 5000nat,
        }),
{
}

} // verus!
