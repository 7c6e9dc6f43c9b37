//! Fetching a file over the network: what to do next, and what is told of the progress.

use crate::adb_command;
use crate::agent_ask::{AgentAsk, AskView};
use crate::cards::{CardProgress, ProgressView};
use crate::codec;
use crate::decimal;
use crate::json;
use crate::models;
use crate::models::ChunkDescriptor;
use crate::notes::EngineNote;
use crate::paths;
use crate::paths::AgentPullSource;
use crate::remote_verify;
use crate::same_file;
use crate::scheduler::LaneAssignment;
use crate::sizing;
use crate::text;
use crate::wifi_chunk;
use crate::wifi_run;
use crate::wifi_run::{RunNotes, RunNotesView};
use vstd::prelude::*;
use vstd::utf8::encode_utf8;

verus! {

/// Where the fetching of a chunk stands.
#[derive(Debug)]
pub enum ChunkPullStage {
    /// The bytes are to be asked for raw.
    Raw,
    /// They are to be asked for as text; what was wrong with asking for them raw.
    Text(String),
    /// The bytes, and how they came.
    Got(Vec<u8>, bool),
    Failed(String),
}

pub enum ChunkPullStageView {
    Raw,
    Text(Seq<char>),
    Got(Seq<u8>, bool),
    Failed(Seq<char>),
}

impl View for ChunkPullStage {
    type V = ChunkPullStageView;

    open spec fn view(&self) -> ChunkPullStageView {
        match self {
            ChunkPullStage::Raw => ChunkPullStageView::Raw,
            ChunkPullStage::Text(m) => ChunkPullStageView::Text(m@),
            ChunkPullStage::Got(b, raw) => ChunkPullStageView::Got(b@, *raw),
            ChunkPullStage::Failed(m) => ChunkPullStageView::Failed(m@),
        }
    }
}

/// The fetching of a chunk: raw, or as text where that fails.
#[derive(Debug)]
pub struct WifiChunkPull {
    pub relative_path: String,
    pub offset: u64,
    pub length: u64,
    pub stage: ChunkPullStage,
}

pub struct ChunkPullView {
    pub relative_path: Seq<char>,
    pub offset: u64,
    pub length: u64,
    pub stage: ChunkPullStageView,
}

impl View for WifiChunkPull {
    type V = ChunkPullView;

    open spec fn view(&self) -> ChunkPullView {
        ChunkPullView {
            relative_path: self.relative_path@,
            offset: self.offset,
            length: self.length,
            stage: self.stage@,
        }
    }
}

/// The fetching of a chunk at its start.
pub fn pull_wifi_chunk_bytes(relative_path: &str, offset: u64, length: u64) -> (r: WifiChunkPull)
    ensures
        r@ == (ChunkPullView {
            relative_path: relative_path@,
            offset,
            length,
            stage: ChunkPullStageView::Raw,
        }),
{
    WifiChunkPull {
        relative_path: relative_path.to_string(),
        offset,
        length,
        stage: ChunkPullStage::Raw,
    }
}

impl ChunkPullView {
    /// What follows an answer to the raw way: the header and the bytes, or a complaint; the length
    /// that the header tells.
    pub open spec fn raw_answered(
        self,
        reply: Result<(Seq<char>, Seq<u8>), Seq<char>>,
        header_length: Option<u64>,
    ) -> ChunkPullView {
        ChunkPullView {
            stage: match reply {
                Err(m) => ChunkPullStageView::Text(m),
                Ok((header, bytes)) => match wifi_chunk::raw_chunk(
                    self.relative_path,
                    self.length,
                    header,
                    header_length,
                    bytes,
                ) {
                    Ok(b) => ChunkPullStageView::Got(b, true),
                    Err(m) => ChunkPullStageView::Failed(m),
                },
            },
            ..self
        }
    }

    /// What follows an answer to the way by text; the text of the bytes that it tells.
    pub open spec fn text_answered(
        self,
        raw_error: Seq<char>,
        reply: Result<Seq<char>, Seq<char>>,
        encoded: Option<Seq<char>>,
    ) -> ChunkPullView {
        ChunkPullView {
            stage: match wifi_chunk::text_chunk(
                self.relative_path,
                self.length,
                raw_error,
                reply,
                encoded,
            ) {
                Ok(b) => ChunkPullStageView::Got(b, false),
                Err(m) => ChunkPullStageView::Failed(m),
            },
            ..self
        }
    }
}

/// The view of a raw answer.
pub open spec fn raw_view(r: Result<(String, Vec<u8>), String>) -> Result<
    (Seq<char>, Seq<u8>),
    Seq<char>,
> {
    match r {
        Ok((h, b)) => Ok((h@, b@)),
        Err(m) => Err(m@),
    }
}

/// The length that the header of a raw answer tells; nothing where none came.
pub open spec fn header_length(reply: Result<(Seq<char>, Seq<u8>), Seq<char>>) -> Option<u64> {
    match reply {
        Ok((h, _)) => json::json_number(h, "length"@),
        Err(_) => None,
    }
}

impl WifiChunkPull {
    /// What to ask for, and whether the answer is raw bytes; nothing once the fetching ended.
    pub fn next_ask(&self) -> (r: Option<(AgentAsk, bool)>)
        ensures
            match r {
                Some((a, raw)) => match self@.stage {
                    ChunkPullStageView::Raw => raw && a@ == AskView::PullBinary(
                        self@.relative_path,
                        self@.offset,
                        self@.length,
                    ),
                    ChunkPullStageView::Text(_) => !raw && a@ == AskView::PullText(
                        self@.relative_path,
                        self@.offset,
                        self@.length,
                    ),
                    _ => false,
                },
                None => self@.stage is Got || self@.stage is Failed,
            },
    {
        match &self.stage {
            ChunkPullStage::Raw => Some(
                (
                    AgentAsk::PullBinary(self.relative_path.clone(), self.offset, self.length),
                    true,
                ),
            ),
            ChunkPullStage::Text(_) => Some(
                (AgentAsk::PullText(self.relative_path.clone(), self.offset, self.length), false),
            ),
            _ => None,
        }
    }

    /// Takes in an answer to the raw way.
    pub fn answer_raw(&mut self, reply: Result<(String, Vec<u8>), String>)
        ensures
            final(self)@ == old(self)@.raw_answered(
                raw_view(reply),
                header_length(raw_view(reply)),
            ),
    {
        self.stage = match reply {
            Err(m) => ChunkPullStage::Text(m),
            Ok((header, bytes)) => match wifi_chunk::take_raw_chunk(
                self.relative_path.as_str(),
                self.length,
                header.as_str(),
                bytes,
            ) {
                Ok(b) => ChunkPullStage::Got(b, true),
                Err(m) => ChunkPullStage::Failed(m),
            },
        };
    }

    /// Takes in an answer to the way by text.
    pub fn answer_text(&mut self, reply: &Result<String, String>)
        requires
            old(self)@.stage is Text,
        ensures
            ({
                let told = adb_command::outcome_view(*reply);
                final(self)@ == old(self)@.text_answered(
                    old(self)@.stage->Text_0,
                    told,
                    wifi_chunk::reply_text(told, "payload"@),
                )
            }),
    {
        let raw_error = match &self.stage {
            ChunkPullStage::Text(m) => m.clone(),
            _ => String::new(),
        };
        self.stage = match wifi_chunk::take_text_chunk(
            self.relative_path.as_str(),
            self.length,
            raw_error.as_str(),
            reply,
        ) {
            Ok(b) => ChunkPullStage::Got(b, false),
            Err(m) => ChunkPullStage::Failed(m),
        };
    }
}

/// How a chunk came, in words.
pub open spec fn pull_way(raw: bool) -> Seq<char> {
    if raw {
        "binary"@
    } else {
        "base64-fallback"@
    }
}

/// Where a run stands.
#[derive(Debug)]
pub enum PullStage {
    StartTask,
    TargetRoot,
    Stat,
    /// The local file is to be opened.
    Open,
    /// The next chunk is to be found.
    Next,
    /// The chunk at hand is to be fetched.
    Fetch,
    /// The chunk at hand is to be written; its length, and how it came.
    Write(u64, bool),
    /// That the file is done is to be told.
    Finish(bool),
    Verify,
    /// The text says what was done.
    Done(String),
    Failed(String),
}

pub enum PullStageView {
    StartTask,
    TargetRoot,
    Stat,
    Open,
    Next,
    Fetch,
    Write(u64, bool),
    Finish(bool),
    Verify,
    Done(Seq<char>),
    Failed(Seq<char>),
}

impl View for PullStage {
    type V = PullStageView;

    open spec fn view(&self) -> PullStageView {
        match self {
            PullStage::StartTask => PullStageView::StartTask,
            PullStage::TargetRoot => PullStageView::TargetRoot,
            PullStage::Stat => PullStageView::Stat,
            PullStage::Open => PullStageView::Open,
            PullStage::Next => PullStageView::Next,
            PullStage::Fetch => PullStageView::Fetch,
            PullStage::Write(n, raw) => PullStageView::Write(*n, *raw),
            PullStage::Finish(skipped) => PullStageView::Finish(*skipped),
            PullStage::Verify => PullStageView::Verify,
            PullStage::Done(m) => PullStageView::Done(m@),
            PullStage::Failed(m) => PullStageView::Failed(m@),
        }
    }
}

/// What to do.
#[derive(Debug)]
pub enum PullStep {
    /// Ask the agent.
    Ask(AgentAsk),
    /// Open the local file for writing, and make its directory.
    Open(String),
    /// Let the next chunk be found.
    Pick,
    /// Fetch bytes of the file on the device.
    Fetch { relative_path: String, offset: u64, length: u64 },
    /// Write the bytes that were fetched at the offset of the local file.
    Write { offset: u64 },
    /// Take in that the file is done.
    Tell,
    /// Check the file on the device against the local one.
    Verify { relative_path: String, local_path: String, size_bytes: u64 },
    /// Nothing; the text says what was done.
    Done(String),
}

pub enum PullStepView {
    Ask(AskView),
    Open(Seq<char>),
    Pick,
    Fetch { relative_path: Seq<char>, offset: int, length: int },
    Write { offset: int },
    Tell,
    Verify { relative_path: Seq<char>, local_path: Seq<char>, size_bytes: u64 },
    Done(Seq<char>),
}

impl View for PullStep {
    type V = PullStepView;

    open spec fn view(&self) -> PullStepView {
        match self {
            PullStep::Ask(a) => PullStepView::Ask(a@),
            PullStep::Open(p) => PullStepView::Open(p@),
            PullStep::Pick => PullStepView::Pick,
            PullStep::Fetch { relative_path, offset, length } => PullStepView::Fetch {
                relative_path: relative_path@,
                offset: *offset as int,
                length: *length as int,
            },
            PullStep::Write { offset } => PullStepView::Write { offset: *offset as int },
            PullStep::Tell => PullStepView::Tell,
            PullStep::Verify { relative_path, local_path, size_bytes } => PullStepView::Verify {
                relative_path: relative_path@,
                local_path: local_path@,
                size_bytes: *size_bytes,
            },
            PullStep::Done(m) => PullStepView::Done(m@),
        }
    }
}

/// The fetching of a file under way.
#[derive(Debug)]
pub struct PullRun {
    task_id: String,
    source_relative: String,
    source: Result<AgentPullSource, String>,
    target_root: String,
    completed: Vec<u32>,
    chunk_size: u64,
    verify_enabled: bool,
    stage: PullStage,
    size_bytes: u64,
    target_file: String,
    chunk: u32,
    pulled_chunks: u64,
    skipped_chunks: u64,
}

pub struct PullView {
    pub task_id: Seq<char>,
    pub source_relative: Seq<char>,
    pub source: Result<paths::PullSourceView, Seq<char>>,
    pub target_root: Seq<char>,
    pub completed: Seq<u32>,
    pub chunk_size: u64,
    pub verify_enabled: bool,
    pub stage: PullStageView,
    pub size_bytes: u64,
    pub target_file: Seq<char>,
    pub chunk: int,
    pub pulled_chunks: int,
    pub skipped_chunks: int,
}

/// The view of a source or a complaint.
pub open spec fn source_view(s: Result<AgentPullSource, String>) -> Result<
    paths::PullSourceView,
    Seq<char>,
> {
    match s {
        Ok(a) => Ok(a@),
        Err(m) => Err(m@),
    }
}

impl View for PullRun {
    type V = PullView;

    closed spec fn view(&self) -> PullView {
        PullView {
            task_id: self.task_id@,
            source_relative: self.source_relative@,
            source: source_view(self.source),
            target_root: self.target_root@,
            completed: self.completed@,
            chunk_size: self.chunk_size,
            verify_enabled: self.verify_enabled,
            stage: self.stage@,
            size_bytes: self.size_bytes,
            target_file: self.target_file@,
            chunk: self.chunk as int,
            pulled_chunks: self.pulled_chunks as int,
            skipped_chunks: self.skipped_chunks as int,
        }
    }
}

impl PullView {
    /// The chunks of the file.
    pub open spec fn chunks(self) -> int {
        sizing::told_count(self.size_bytes, self.chunk_size) as int
    }

    pub open spec fn wf(self) -> bool {
        &&& self.chunk_size > 0
        &&& 0 <= self.chunk
        &&& self.stage is Next ==> self.chunk <= self.chunks()
        &&& self.stage is Fetch || self.stage is Write ==> self.chunk < self.chunks()
        &&& self.stage matches PullStageView::Write(n, _) ==> self.offset() + n <= u64::MAX
        &&& !(self.stage is StartTask) && !(self.stage is Failed) ==> self.source is Ok
        &&& self.stage is TargetRoot ==> self.source->Ok_0.agent_root is Some
    }

    pub open spec fn to(self, stage: PullStageView) -> PullView {
        PullView { stage, ..self }
    }

    pub open spec fn failed(self, m: Seq<char>) -> PullView {
        self.to(PullStageView::Failed(m))
    }

    /// The path of the file as the agent is told it.
    pub open spec fn path(self) -> Seq<char> {
        self.source->Ok_0.agent_relative_path
    }

    /// Where the chunk at hand starts.
    pub open spec fn offset(self) -> int {
        self.chunk * self.chunk_size
    }

    /// What to do, or why nothing more is done.
    pub open spec fn step(self) -> Result<PullStepView, Seq<char>> {
        match self.stage {
            PullStageView::StartTask => Ok(PullStepView::Ask(AskView::StartTask(self.task_id))),
            PullStageView::TargetRoot => Ok(
                PullStepView::Ask(AskView::SetTargetRoot(self.source->Ok_0.agent_root->0)),
            ),
            PullStageView::Stat => Ok(PullStepView::Ask(AskView::Stat(self.path()))),
            PullStageView::Open => Ok(PullStepView::Open(self.target_file)),
            PullStageView::Next => Ok(PullStepView::Pick),
            PullStageView::Fetch => Ok(
                PullStepView::Fetch {
                    relative_path: self.path(),
                    offset: self.offset(),
                    length: sizing::length_at(self.size_bytes, self.chunk_size, self.chunk),
                },
            ),
            PullStageView::Write(_, _) => Ok(PullStepView::Write { offset: self.offset() }),
            PullStageView::Finish(_) => Ok(PullStepView::Tell),
            PullStageView::Verify => Ok(
                PullStepView::Verify {
                    relative_path: self.path(),
                    local_path: self.target_file,
                    size_bytes: self.size_bytes,
                },
            ),
            PullStageView::Done(m) => Ok(PullStepView::Done(m)),
            PullStageView::Failed(m) => Err(m),
        }
    }

    /// Whether the agent is asked.
    pub open spec fn asks(self) -> bool {
        self.stage is StartTask || self.stage is TargetRoot || self.stage is Stat
    }

    /// The agent answered; the size that the answer tells.
    pub open spec fn answered(
        self,
        reply: Result<Seq<char>, Seq<char>>,
        size: Option<u64>,
    ) -> PullView {
        match self.stage {
            PullStageView::StartTask => match (reply, self.source) {
                (Err(m), _) => self.failed(m),
                (_, Err(m)) => self.failed(m),
                (Ok(_), Ok(s)) => if s.agent_root is Some {
                    self.to(PullStageView::TargetRoot)
                } else {
                    self.to(PullStageView::Stat)
                },
            },
            PullStageView::TargetRoot => match reply {
                Err(m) => self.failed(m),
                Ok(_) => self.to(PullStageView::Stat),
            },
            PullStageView::Stat => match remote_verify::stat_size(reply, size) {
                Err(m) => self.failed(m),
                Ok(n) => match paths::joined_safely(
                    self.target_root,
                    self.source->Ok_0.local_relative_path,
                ) {
                    Err(m) => self.failed(m),
                    Ok(target) => PullView {
                        size_bytes: n,
                        target_file: target,
                        stage: PullStageView::Open,
                        ..self
                    },
                },
            },
            _ => self,
        }
    }

    /// The local file was opened, or was not. A file that a checkpoint has in full is done.
    pub open spec fn opened(self, outcome: Result<(), Seq<char>>) -> PullView {
        match outcome {
            Err(m) => self.failed(m),
            Ok(_) => if sizing::fully_checkpointed(
                self.size_bytes,
                self.chunk_size,
                self.completed.len(),
            ) {
                self.to(PullStageView::Finish(true))
            } else {
                PullView { chunk: 0, stage: PullStageView::Next, ..self }
            },
        }
    }

    /// The next chunk is found: one that is there already is passed over. A pause takes effect
    /// before each chunk.
    pub open spec fn picked(self, paused: bool) -> PullView {
        if self.chunk == self.chunks() {
            self.to(PullStageView::Finish(false))
        } else if paused {
            self.failed(wifi_run::pause_text())
        } else if self.completed.contains(self.chunk as u32) {
            PullView {
                chunk: self.chunk + 1,
                skipped_chunks: wifi_run::capped(self.skipped_chunks + 1),
                ..self
            }
        } else {
            self.to(PullStageView::Fetch)
        }
    }

    /// So many bytes were fetched, raw or as text.
    pub open spec fn fetched(self, outcome: Result<(u64, bool), Seq<char>>) -> PullView {
        match outcome {
            Err(m) => self.failed(m),
            Ok((n, raw)) => self.to(PullStageView::Write(n, raw)),
        }
    }

    /// The bytes were written, or were not.
    pub open spec fn written(self, outcome: Result<(), Seq<char>>) -> (PullView, RunNotesView) {
        match (outcome, self.stage) {
            (Err(m), _) => (self.failed(m), wifi_run::no_notes()),
            (Ok(_), PullStageView::Write(n, raw)) => {
                let after = PullView {
                    chunk: self.chunk + 1,
                    pulled_chunks: wifi_run::capped(self.pulled_chunks + 1),
                    stage: PullStageView::Next,
                    ..self
                };
                (
                    after,
                    RunNotesView {
                        engine: Some(
                            EngineNote::Chunk {
                                chunk: ChunkDescriptor {
                                    file_index: 0,
                                    chunk_index: self.chunk as u32,
                                    offset: self.offset() as u64,
                                    length: n,
                                },
                                lane: LaneAssignment::Wifi,
                                skipped: false,
                            },
                        ),
                        card: Some(
                            ProgressView {
                                current_file: 1,
                                total_files: 1,
                                pushed_files: 0,
                                skipped_files: 0,
                                pushed_chunks: after.pulled_chunks,
                                skipped_chunks: after.skipped_chunks,
                                bytes_scanned: self.size_bytes as int,
                                bytes_pushed: self.offset() + n,
                                relative_path: self.source_relative,
                                remote_path: self.target_file,
                                last_event: "wifi-chunk-pulled"@,
                                last_message: "Wi-Fi chunk "@ + decimal::dec(self.chunk as nat)
                                    + " pulled via "@ + pull_way(raw),
                            },
                        ),
                    },
                )
            },
            _ => (self, wifi_run::no_notes()),
        }
    }

    /// What was done, in words.
    pub open spec fn summary(self) -> Seq<char> {
        "Wi-Fi Android -> PC transfer completed: bytes_pulled="@ + decimal::dec(
            self.size_bytes as nat,
        ) + " chunks="@ + decimal::dec(self.pulled_chunks as nat) + " skipped_chunks="@
            + decimal::dec(self.skipped_chunks as nat)
    }

    /// That the file is done is told.
    pub open spec fn told(self) -> (PullView, RunNotesView) {
        match self.stage {
            PullStageView::Finish(skipped) => (
                if skipped {
                    self.to(
                        PullStageView::Done(
                            "Wi-Fi Android -> PC transfer resumed from checkpoint: bytes_pulled="@
                                + decimal::dec(self.size_bytes as nat) + " chunks="@ + decimal::dec(
                                self.completed.len(),
                            ),
                        ),
                    )
                } else if self.verify_enabled {
                    self.to(PullStageView::Verify)
                } else {
                    self.to(PullStageView::Done(self.summary()))
                },
                RunNotesView {
                    engine: Some(
                        EngineNote::File { file_index: 0, lane: LaneAssignment::Wifi, skipped },
                    ),
                    card: None,
                },
            ),
            _ => (self, wifi_run::no_notes()),
        }
    }

    /// The file on the device was checked.
    pub open spec fn verified(self, outcome: Result<(), Seq<char>>) -> PullView {
        match outcome {
            Err(m) => self.failed(m),
            Ok(_) => self.to(PullStageView::Done(self.summary())),
        }
    }
}

/// The fetching of a file at its start.
pub open spec fn fresh_pull(
    task_id: Seq<char>,
    source_relative: Seq<char>,
    target_root: Seq<char>,
    completed: Seq<u32>,
    chunk_size: u64,
    verify_enabled: bool,
) -> PullView {
    PullView {
        task_id,
        source_relative,
        source: paths::pull_source(source_relative),
        target_root,
        completed,
        chunk_size,
        verify_enabled,
        stage: PullStageView::StartTask,
        size_bytes: 0,
        target_file: Seq::empty(),
        chunk: 0,
        pulled_chunks: 0,
        skipped_chunks: 0,
    }
}

/// The fetching of a file below a local root, but for the chunks that are completed.
pub fn run_wifi_android_to_pc(
    task_id: &str,
    source_relative: &str,
    target_root: &str,
    completed_chunks: &Vec<u32>,
    chunk_size: u64,
    verify_enabled: bool,
) -> (r: PullRun)
    requires
        chunk_size > 0,
    ensures
        r@ == fresh_pull(
            task_id@,
            source_relative@,
            target_root@,
            completed_chunks@,
            chunk_size,
            verify_enabled,
        ),
        r@.wf(),
{
    let target_file = String::new();
    assert(target_file@ =~= Seq::empty());
    PullRun {
        task_id: task_id.to_string(),
        source_relative: source_relative.to_string(),
        source: paths::resolve_agent_pull_source(source_relative),
        target_root: target_root.to_string(),
        completed: same_file::copy_chunks(completed_chunks),
        chunk_size,
        verify_enabled,
        stage: PullStage::StartTask,
        size_bytes: 0,
        target_file,
        chunk: 0,
        pulled_chunks: 0,
        skipped_chunks: 0,
    }
}

/// A chunk that the file has lies within it.
proof fn lemma_chunk_fits(v: PullView)
    requires
        v.wf(),
        0 <= v.chunk < v.chunks(),
    ensures
        0 <= v.offset() <= v.size_bytes,
        v.offset() == v.chunk * models::chunk_step(v.chunk_size),
        v.offset() + sizing::length_at(v.size_bytes, v.chunk_size, v.chunk) <= v.size_bytes,
{
    let n = models::chunk_count(v.size_bytes, v.chunk_size);
    assert(sizing::told_count(v.size_bytes, v.chunk_size) <= n) by {
        assert(n % 0x1_0000_0000 <= n);
    }
    models::lemma_chunk_bounds(v.size_bytes, v.chunk_size, v.chunk);
}

impl PullRun {
    fn path(&self) -> (r: String)
        requires
            self@.source is Ok,
        ensures
            r@ == self@.path(),
    {
        match &self.source {
            Ok(s) => s.agent_relative_path.clone(),
            Err(_) => String::new(),
        }
    }

    fn offset(&self) -> (r: u64)
        requires
            self@.wf(),
            self@.chunk < self@.chunks(),
        ensures
            r == self@.offset(),
    {
        proof {
            lemma_chunk_fits(self@);
        }
        self.chunk as u64 * self.chunk_size
    }

    /// What to do, or why nothing more is done.
    pub fn next_step(&self) -> (r: Result<PullStep, String>)
        requires
            self@.wf(),
        ensures
            match (r, self@.step()) {
                (Ok(a), Ok(b)) => a@ == b,
                (Err(a), Err(b)) => a@ == b,
                _ => false,
            },
    {
        match &self.stage {
            PullStage::StartTask => Ok(PullStep::Ask(AgentAsk::StartTask(self.task_id.clone()))),
            PullStage::TargetRoot => {
                let root = match &self.source {
                    Ok(s) => match &s.agent_root {
                        Some(root) => root.clone(),
                        None => String::new(),
                    },
                    Err(_) => String::new(),
                };
                Ok(PullStep::Ask(AgentAsk::SetTargetRoot(root)))
            },
            PullStage::Stat => Ok(PullStep::Ask(AgentAsk::Stat(self.path()))),
            PullStage::Open => Ok(PullStep::Open(self.target_file.clone())),
            PullStage::Next => Ok(PullStep::Pick),
            PullStage::Fetch => {
                proof {
                    lemma_chunk_fits(self@);
                }
                Ok(
                    PullStep::Fetch {
                        relative_path: self.path(),
                        offset: self.offset(),
                        length: sizing::chunk_length_for(
                            self.size_bytes,
                            self.chunk_size,
                            self.chunk,
                        ),
                    },
                )
            },
            PullStage::Write(_, _) => Ok(PullStep::Write { offset: self.offset() }),
            PullStage::Finish(_) => Ok(PullStep::Tell),
            PullStage::Verify => Ok(
                PullStep::Verify {
                    relative_path: self.path(),
                    local_path: self.target_file.clone(),
                    size_bytes: self.size_bytes,
                },
            ),
            PullStage::Done(m) => Ok(PullStep::Done(m.clone())),
            PullStage::Failed(m) => Err(m.clone()),
        }
    }

    fn fail(&mut self, m: String)
        ensures
            final(self)@ == old(self)@.failed(m@),
    {
        self.stage = PullStage::Failed(m);
    }

    /// Takes in an answer, and the size that was read out of it.
    pub fn take_answer(&mut self, reply: &Result<String, String>, size: Option<u64>)
        requires
            old(self)@.wf(),
            old(self)@.asks(),
        ensures
            final(self)@.wf(),
            final(self)@ == old(self)@.answered(adb_command::outcome_view(*reply), size),
    {
        match &self.stage {
            PullStage::StartTask => {
                let next = match (reply, &self.source) {
                    (Err(m), _) => PullStage::Failed(m.clone()),
                    (_, Err(m)) => PullStage::Failed(m.clone()),
                    (Ok(_), Ok(s)) => if s.agent_root.is_some() {
                        PullStage::TargetRoot
                    } else {
                        PullStage::Stat
                    },
                };
                self.stage = next;
            },
            PullStage::TargetRoot => {
                self.stage = match reply {
                    Err(m) => PullStage::Failed(m.clone()),
                    Ok(_) => PullStage::Stat,
                };
            },
            _ => match remote_verify::told_size(reply, size) {
                Err(m) => {
                    self.fail(m);
                },
                Ok(n) => {
                    let local = match &self.source {
                        Ok(s) => s.local_relative_path.clone(),
                        Err(_) => String::new(),
                    };
                    match paths::safe_local_join(self.target_root.as_str(), local.as_str()) {
                        Err(m) => {
                            self.fail(m);
                        },
                        Ok(target) => {
                            self.size_bytes = n;
                            self.target_file = target;
                            self.stage = PullStage::Open;
                        },
                    }
                },
            },
        }
    }

    /// Takes in an answer.
    pub fn answer(&mut self, reply: &Result<String, String>)
        requires
            old(self)@.wf(),
            old(self)@.asks(),
        ensures
            final(self)@.wf(),
            ({
                let told = adb_command::outcome_view(*reply);
                final(self)@ == old(self)@.answered(
                    told,
                    remote_verify::reply_number(told, "size_bytes"@),
                )
            }),
    {
        let size: Option<u64> = remote_verify::size_in(reply);
        self.take_answer(reply, size);
    }

    /// Takes in whether the local file was opened.
    pub fn take_open(&mut self, outcome: &Result<(), String>)
        requires
            old(self)@.wf(),
            old(self)@.stage is Open,
        ensures
            final(self)@.wf(),
            final(self)@ == old(self)@.opened(wifi_chunk::unit_view(*outcome)),
    {
        match outcome {
            Err(m) => {
                self.fail(m.clone());
            },
            Ok(_) => {
                if sizing::is_file_fully_checkpointed(
                    self.size_bytes,
                    self.chunk_size,
                    &self.completed,
                ) {
                    self.stage = PullStage::Finish(true);
                } else {
                    self.chunk = 0;
                    self.stage = PullStage::Next;
                }
            },
        }
    }

    /// Finds the next chunk.
    pub fn pick(&mut self, paused: bool)
        requires
            old(self)@.wf(),
            old(self)@.stage is Next,
        ensures
            final(self)@.wf(),
            final(self)@ == old(self)@.picked(paused),
    {
        let count: u32 = sizing::chunk_count_for_size(self.size_bytes, self.chunk_size);
        if self.chunk == count {
            self.stage = PullStage::Finish(false);
        } else if paused {
            self.fail("transfer paused at chunk boundary".to_string());
        } else if wifi_run::lists_chunk(&self.completed, self.chunk) {
            self.chunk += 1;
            self.skipped_chunks = wifi_run::capped_sum(self.skipped_chunks, 1);
        } else {
            self.stage = PullStage::Fetch;
        }
    }

    /// Takes in how many bytes were fetched, and whether they came raw.
    pub fn take_fetch(&mut self, outcome: &Result<(u64, bool), String>)
        requires
            old(self)@.wf(),
            old(self)@.stage is Fetch,
            outcome matches Ok(f) ==> f.0 == sizing::length_at(
                old(self)@.size_bytes,
                old(self)@.chunk_size,
                old(self)@.chunk,
            ),
        ensures
            final(self)@.wf(),
            final(self)@ == old(self)@.fetched(
                match outcome {
                    Ok(f) => Ok(*f),
                    Err(m) => Err(m@),
                },
            ),
    {
        match outcome {
            Err(m) => {
                self.fail(m.clone());
            },
            Ok(f) => {
                proof {
                    lemma_chunk_fits(self@);
                }
                self.stage = PullStage::Write(f.0, f.1);
            },
        }
    }

    /// Takes in whether the bytes were written.
    pub fn take_write(&mut self, outcome: &Result<(), String>) -> (r: RunNotes)
        requires
            old(self)@.wf(),
            old(self)@.stage is Write,
        ensures
            final(self)@.wf(),
            final(self)@ == old(self)@.written(wifi_chunk::unit_view(*outcome)).0,
            r@ == old(self)@.written(wifi_chunk::unit_view(*outcome)).1,
    {
        let (n, raw) = match &self.stage {
            PullStage::Write(n, raw) => (*n, *raw),
            _ => (0, false),
        };
        match outcome {
            Err(m) => {
                self.fail(m.clone());
                RunNotes { engine: None, card: None }
            },
            Ok(_) => {
                let offset: u64 = self.offset();
                let chunk: u32 = self.chunk;
                self.chunk += 1;
                self.pulled_chunks = wifi_run::capped_sum(self.pulled_chunks, 1);
                self.stage = PullStage::Next;
                let mut message = "Wi-Fi chunk ".to_string();
                message.append(decimal::dec_text(chunk as u128).as_str());
                message.append(" pulled via ");
                message.append(
                    if raw {
                        "binary"
                    } else {
                        "base64-fallback"
                    },
                );
                RunNotes {
                    engine: Some(
                        EngineNote::Chunk {
                            chunk: ChunkDescriptor {
                                file_index: 0,
                                chunk_index: chunk,
                                offset,
                                length: n,
                            },
                            lane: LaneAssignment::Wifi,
                            skipped: false,
                        },
                    ),
                    card: Some(
                        CardProgress {
                            current_file: 1,
                            total_files: 1,
                            pushed_files: 0,
                            skipped_files: 0,
                            pushed_chunks: self.pulled_chunks,
                            skipped_chunks: self.skipped_chunks,
                            bytes_scanned: self.size_bytes,
                            bytes_pushed: offset + n,
                            relative_path: self.source_relative.clone(),
                            remote_path: self.target_file.clone(),
                            last_event: "wifi-chunk-pulled".to_string(),
                            last_message: message,
                        },
                    ),
                }
            },
        }
    }

    fn summary(&self) -> (r: String)
        ensures
            r@ == self@.summary(),
    {
        let mut s = "Wi-Fi Android -> PC transfer completed: bytes_pulled=".to_string();
        s.append(decimal::dec_text(self.size_bytes as u128).as_str());
        s.append(" chunks=");
        s.append(decimal::dec_text(self.pulled_chunks as u128).as_str());
        s.append(" skipped_chunks=");
        s.append(decimal::dec_text(self.skipped_chunks as u128).as_str());
        s
    }

    /// What is told of the file that is done.
    pub fn tell(&mut self) -> (r: RunNotes)
        requires
            old(self)@.wf(),
            old(self)@.stage is Finish,
        ensures
            final(self)@.wf(),
            final(self)@ == old(self)@.told().0,
            r@ == old(self)@.told().1,
    {
        let skipped = match &self.stage {
            PullStage::Finish(skipped) => *skipped,
            _ => false,
        };
        if skipped {
            let mut m =
                "Wi-Fi Android -> PC transfer resumed from checkpoint: bytes_pulled=".to_string();
            m.append(decimal::dec_text(self.size_bytes as u128).as_str());
            m.append(" chunks=");
            m.append(decimal::dec_text(self.completed.len() as u128).as_str());
            self.stage = PullStage::Done(m);
        } else if self.verify_enabled {
            self.stage = PullStage::Verify;
        } else {
            let m = self.summary();
            self.stage = PullStage::Done(m);
        }
        RunNotes {
            engine: Some(EngineNote::File { file_index: 0, lane: LaneAssignment::Wifi, skipped }),
            card: None,
        }
    }

    /// Takes in what the check of the file came to.
    pub fn take_verify(&mut self, outcome: &Result<(), String>)
        requires
            old(self)@.wf(),
            old(self)@.stage is Verify,
        ensures
            final(self)@.wf(),
            final(self)@ == old(self)@.verified(wifi_chunk::unit_view(*outcome)),
    {
        match outcome {
            Err(m) => {
                self.fail(m.clone());
            },
            Ok(_) => {
                let m = self.summary();
                self.stage = PullStage::Done(m);
            },
        }
    }
}

/// The path that a fetched file is written to starts with the local root, and no name behind it
/// leads nowhere or upwards, unless control characters in the source hid it.
pub proof fn lemma_pull_stays_below_root(
    v: PullView,
    reply: Result<Seq<char>, Seq<char>>,
    size: Option<u64>,
)
    requires
        v.wf(),
        v.stage is Stat,
        v.answered(reply, size).stage is Open,
    ensures
        text::starts_with(v.answered(reply, size).target_file, v.target_root),
        ({
            let local = v.source->Ok_0.local_relative_path;
            let names = paths::safe_segments(local);
            &&& v.answered(reply, size).target_file == paths::with_names(v.target_root, names)
            &&& !paths::has_hidden_dots(local) ==> forall|k: int|
                0 <= k < names.len() ==> !paths::is_idle(#[trigger] names[k])
        }),
{
    paths::lemma_joined_path_stays_below(v.target_root, v.source->Ok_0.local_relative_path);
}

/// The engine is told of a chunk only when its bytes are written.
pub proof fn lemma_only_written_chunks_are_noted(v: PullView, outcome: Result<(), Seq<char>>)
    ensures
        v.written(outcome).1.engine is Some ==> outcome is Ok && v.stage is Write,
{
}

/// A chunk that is not completed is fetched where it lies in the file on the device, the bytes are
/// written at the same offset of the local file, and once they are written the engine is told of just
/// this chunk: its number, its offset and as many bytes as came. The run then goes on to the next
/// chunk.
pub proof fn lemma_fetched_chunk_is_told_of(v: PullView, n: u64, raw: bool, m: Seq<char>)
    requires
        v.wf(),
        v.stage is Next,
        v.chunk < v.chunks(),
        models::chunk_count(v.size_bytes, v.chunk_size) <= u32::MAX,
        !v.completed.contains(v.chunk as u32),
    ensures
        ({
            let rest = v.size_bytes - v.chunk * v.chunk_size;
            let a = v.picked(false);
            let b = a.fetched(Ok((n, raw)));
            let (c, notes) = b.written(Ok(()));
            &&& a.step() == Ok::<PullStepView, Seq<char>>(
                PullStepView::Fetch {
                    relative_path: v.source->Ok_0.agent_relative_path,
                    offset: v.chunk * v.chunk_size,
                    length: if rest < v.chunk_size {
                        rest
                    } else {
                        v.chunk_size as int
                    },
                },
            )
            &&& b.step() == Ok::<PullStepView, Seq<char>>(
                PullStepView::Write { offset: v.chunk * v.chunk_size },
            )
            &&& notes.engine matches Some(EngineNote::Chunk { chunk, lane, skipped }) && {
                &&& chunk.file_index == 0
                &&& chunk.chunk_index == v.chunk
                &&& chunk.offset == v.chunk * v.chunk_size
                &&& chunk.length == n
                &&& lane == LaneAssignment::Wifi
                &&& !skipped
            }
            &&& c.stage is Next && c.chunk == v.chunk + 1
            &&& v.pulled_chunks < u64::MAX ==> c.pulled_chunks == v.pulled_chunks + 1
            &&& c.skipped_chunks == v.skipped_chunks && c.size_bytes == v.size_bytes
                && c.target_file == v.target_file && c.completed == v.completed && c.chunk_size
                == v.chunk_size && c.verify_enabled == v.verify_enabled && c.source == v.source
            &&& a.fetched(Err(m)).step() == Err::<PullStepView, Seq<char>>(m)
            &&& b.written(Err(m)).0.step() == Err::<PullStepView, Seq<char>>(m)
                && b.written(Err(m)).1.engine is None
            &&& v.picked(true).step() == Err::<PullStepView, Seq<char>>(
                "transfer paused at chunk boundary"@,
            )
        }),
{
    sizing::lemma_count_reaches_the_end(v.size_bytes, v.chunk_size);
    sizing::lemma_chunk_spans(v.size_bytes, v.chunk_size, v.chunk);
    assert(0 <= v.chunk * v.chunk_size <= v.size_bytes);
}

/// A completed chunk is passed over, and only such a one; after the last chunk, and not before, the
/// file is told to be done.
pub proof fn lemma_completed_chunk_is_passed_over(v: PullView)
    requires
        v.wf(),
        v.stage is Next,
        models::chunk_count(v.size_bytes, v.chunk_size) <= u32::MAX,
    ensures
        ({
            let u = v.picked(false);
            let past = v.chunk > 0 && v.chunk * v.chunk_size >= v.size_bytes;
            &&& past ==> u.step() == Ok::<PullStepView, Seq<char>>(PullStepView::Tell) && u.stage
                == PullStageView::Finish(false) && v.picked(true) == u
            &&& !past && v.completed.contains(v.chunk as u32) ==> u.stage is Next && u.chunk
                == v.chunk + 1 && (v.skipped_chunks < u64::MAX ==> u.skipped_chunks
                == v.skipped_chunks + 1)
            &&& !past && !v.completed.contains(v.chunk as u32) ==> u.stage is Fetch && u.chunk
                == v.chunk && u.skipped_chunks == v.skipped_chunks
            &&& u.pulled_chunks == v.pulled_chunks
        }),
{
    sizing::lemma_count_reaches_the_end(v.size_bytes, v.chunk_size);
    if v.chunk < v.chunks() {
        assert(v.chunk * v.chunk_size <= v.size_bytes);
        assert(v.chunk == 0 ==> v.chunk * v.chunk_size == 0) by (nonlinear_arith);
    } else {
        assert(v.chunk == v.chunks());
    }
}

/// A file is fetched unless as many of its chunks are completed as it has; a file that could not be
/// opened ends the run.
pub proof fn lemma_file_is_fetched_from_its_start(v: PullView, m: Seq<char>)
    requires
        v.wf(),
        v.stage is Open,
        models::chunk_count(v.size_bytes, v.chunk_size) <= u32::MAX,
    ensures
        v.step() == Ok::<PullStepView, Seq<char>>(PullStepView::Open(v.target_file)),
        ({
            let done = v.completed.len();
            let complete = done >= 1 && done * v.chunk_size >= v.size_bytes;
            let u = v.opened(Ok(()));
            &&& complete ==> u.stage == PullStageView::Finish(true)
            &&& !complete ==> u.stage is Next && u.chunk == 0
            &&& v.opened(Err(m)).step() == Err::<PullStepView, Seq<char>>(m)
        }),
{
    sizing::lemma_done_file_has_all_chunks(v.size_bytes, v.chunk_size, v.completed.len());
}

/// The engine is told that the file is done, and whether the checkpoint had it. A pull that is to be
/// checked and whose chunks were fetched is not done then: the file on the device is checked against
/// the local one, and the pull is done only after a check that came to a good end. A check that
/// fails ends the run with what it complained of.
pub proof fn lemma_checked_pull_waits_for_the_check(v: PullView, m: Seq<char>)
    requires
        v.wf(),
        v.stage is Finish,
    ensures
        ({
            let held = v.stage == PullStageView::Finish(true);
            let (u, notes) = v.told();
            &&& notes.engine matches Some(EngineNote::File { file_index, lane, skipped })
                && file_index == 0 && lane == LaneAssignment::Wifi && skipped == held
            &&& u.stage is Done <==> held || !v.verify_enabled
            &&& !held && v.verify_enabled ==> {
                &&& u.step() == Ok::<PullStepView, Seq<char>>(
                    PullStepView::Verify {
                        relative_path: v.source->Ok_0.agent_relative_path,
                        local_path: v.target_file,
                        size_bytes: v.size_bytes,
                    },
                )
                &&& u.verified(Err(m)).step() == Err::<PullStepView, Seq<char>>(m)
                &&& u.verified(Ok(())).step() is Ok && u.verified(Ok(())).stage is Done
            }
        }),
{
}

/// Whatever comes back, a pull is done only by telling that the file is done, where the checkpoint
/// has the file or no check was asked for, or by a check that came to a good end; and a chunk counts
/// as fetched only once it is written.
pub proof fn lemma_pull_is_done_only_when_checked(
    v: PullView,
    reply: Result<Seq<char>, Seq<char>>,
    size: Option<u64>,
    outcome: Result<(), Seq<char>>,
    fetched: Result<(u64, bool), Seq<char>>,
    paused: bool,
)
    requires
        v.wf(),
        !(v.stage is Done),
    ensures
        !(v.answered(reply, size).stage is Done) && !(v.opened(outcome).stage is Done) && !(
        v.picked(paused).stage is Done) && !(v.fetched(fetched).stage is Done) && !(v.written(
            outcome,
        ).0.stage is Done),
        v.told().0.stage is Done ==> v.stage == PullStageView::Finish(true) || v.stage
            == PullStageView::Finish(false) && !v.verify_enabled,
        v.verified(outcome).stage is Done ==> outcome is Ok,
        v.fetched(fetched).pulled_chunks == v.pulled_chunks,
        v.written(outcome).0.pulled_chunks != v.pulled_chunks ==> outcome is Ok && v.stage is Write,
        v.written(outcome).0.chunk != v.chunk ==> outcome is Ok && v.stage is Write,
{
}

/// A pull asks the agent to start the task, to take the root of the source if it has one, and for the
/// size of the file, and writes the file below the target root; the size that is told is the one that
/// is fetched.
pub proof fn lemma_pull_starts_in_order(
    v: PullView,
    p: Seq<char>,
    size: Option<u64>,
    m: Seq<char>,
)
    requires
        v.wf(),
    ensures
        v.stage is StartTask && v.source is Ok ==> v.step() == Ok::<PullStepView, Seq<char>>(
            PullStepView::Ask(AskView::StartTask(v.task_id)),
        ) && v.answered(Ok(p), size).step() == Ok::<PullStepView, Seq<char>>(
            PullStepView::Ask(
                match v.source->Ok_0.agent_root {
                    Some(root) => AskView::SetTargetRoot(root),
                    None => AskView::Stat(v.source->Ok_0.agent_relative_path),
                },
            ),
        ),
        v.stage is TargetRoot ==> v.answered(Ok(p), size).step() == Ok::<PullStepView, Seq<char>>(
            PullStepView::Ask(AskView::Stat(v.source->Ok_0.agent_relative_path)),
        ),
        v.stage is Stat ==> ({
            let u = v.answered(Ok(p), size);
            let target = paths::joined_safely(v.target_root, v.source->Ok_0.local_relative_path);
            &&& size is Some && target is Ok ==> u.size_bytes == size->0 && u.step() == Ok::<
                PullStepView,
                Seq<char>,
            >(PullStepView::Open(target->Ok_0))
            &&& size is None || target is Err ==> u.step() is Err
        }),
        v.asks() ==> v.answered(Err(m), size).step() == Err::<PullStepView, Seq<char>>(m),
        v.stage is StartTask && v.source is Err ==> v.answered(Ok(p), size).step() == Err::<
            PullStepView,
            Seq<char>,
        >(v.source->Err_0),
{
}

/// A chunk is asked for raw, and as text only where that brought no answer; it is got with exactly
/// the bytes that came, and only if they are as many as were asked for.
pub proof fn lemma_chunk_is_got_whole(
    v: ChunkPullView,
    header: Seq<char>,
    bytes: Seq<u8>,
    told: Option<u64>,
    m: Seq<char>,
)
    requires
        v.stage is Raw,
    ensures
        v.raw_answered(Err(m), told).stage == ChunkPullStageView::Text(m),
        v.raw_answered(Ok((header, bytes)), told).stage matches ChunkPullStageView::Got(b, raw)
            ==> raw && b == bytes && bytes.len() == v.length,
        v.raw_answered(Ok((header, bytes)), told).stage is Got || v.raw_answered(
            Ok((header, bytes)),
            told,
        ).stage is Failed,
{
}

/// Bytes that came raw are got as raw ones exactly where they are as many as their header tells and
/// as were asked for. Bytes that came as text are got as such ones exactly where the text is base64
/// of as many bytes as were asked for. Anything else ends the chunk, and it stays the same chunk.
pub proof fn lemma_chunk_is_got_the_way_it_came(
    v: ChunkPullView,
    header: Seq<char>,
    bytes: Seq<u8>,
    told: Option<u64>,
    raw_error: Seq<char>,
    reply: Result<Seq<char>, Seq<char>>,
    encoded: Option<Seq<char>>,
)
    ensures
        ({
            let r = v.raw_answered(Ok((header, bytes)), told);
            let t = v.text_answered(raw_error, reply, encoded);
            let fine = told == Some(v.length) && bytes.len() == v.length;
            let decoded = match encoded {
                Some(s) => codec::unbase64(encode_utf8(s)),
                None => Err(Seq::empty()),
            };
            let readable = reply is Ok && decoded is Ok && decoded->Ok_0.len() == v.length;
            &&& fine ==> r.stage == ChunkPullStageView::Got(bytes, true)
            &&& !fine ==> r.stage is Failed
            &&& readable ==> t.stage == ChunkPullStageView::Got(decoded->Ok_0, false)
            &&& !readable ==> t.stage is Failed
            &&& r.relative_path == v.relative_path && t.relative_path == v.relative_path
            &&& r.length == v.length && t.length == v.length
        }),
{
}

/// A pull starts at the first chunk with nothing counted, for its own task and of its own file.
pub proof fn lemma_pull_starts_with_nothing_fetched(
    task_id: Seq<char>,
    source: Seq<char>,
    target_root: Seq<char>,
    completed: Seq<u32>,
    chunk_size: u64,
    verify_enabled: bool,
)
    ensures
        ({
            let v = fresh_pull(task_id, source, target_root, completed, chunk_size, verify_enabled);
            &&& v.step() == Ok::<PullStepView, Seq<char>>(
                PullStepView::Ask(AskView::StartTask(task_id)),
            )
            &&& v.source_relative == source && v.source == paths::pull_source(source)
            &&& v.target_root == target_root && v.completed == completed
            &&& v.chunk_size == chunk_size && v.verify_enabled == verify_enabled
            &&& v.chunk == 0 && v.pulled_chunks == 0 && v.skipped_chunks == 0
        }),
{
}

} // verus!
