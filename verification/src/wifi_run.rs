//! Sending a tree of files over the network: what to do next, and what is told of the progress.

use crate::agent_ask::{AgentAsk, AskView};
use crate::bundle;
use crate::cards::{CardProgress, ProgressView};
use crate::checkpoint::{CheckpointEntry, CheckpointEntryView};
use crate::decimal;
use crate::manifest;
use crate::manifest::{LocalFileView, LocalTransferDirectory, LocalTransferFile};
use crate::models;
use crate::models::ChunkDescriptor;
use crate::notes::EngineNote;
use crate::scheduler::LaneAssignment;
use crate::sizing;
use crate::text;
use crate::wifi_chunk;
use crate::wifi_chunk::WifiChunkPushOutcome;
use vstd::prelude::*;

verus! {

/// The chunks of a file that a checkpoint has as completed; none without a checkpoint.
pub open spec fn completed_of(checkpoint: Option<CheckpointEntryView>, file_index: int) -> Seq<u32> {
    match checkpoint {
        Some(e) => if 0 <= file_index < e.checkpoint.files.len() {
            e.checkpoint.files[file_index].completed_chunks
        } else {
            Seq::empty()
        },
        None => Seq::empty(),
    }
}

/// The view of a checkpoint, if there is one.
pub open spec fn entry_view(checkpoint: Option<&CheckpointEntry>) -> Option<CheckpointEntryView> {
    match checkpoint {
        Some(e) => Some(e@),
        None => None,
    }
}

/// The chunks of a file that a checkpoint has as completed.
pub fn completed_chunks_for_file(checkpoint: Option<&CheckpointEntry>, file_index: usize) -> (r: Vec<
    u32,
>)
    ensures
        r@ == completed_of(entry_view(checkpoint), file_index as int),
{
    let mut out: Vec<u32> = Vec::new();
    match checkpoint {
        Some(e) => {
            if file_index < e.checkpoint.files.len() {
                let file = &e.checkpoint.files[file_index];
                let chunks = &file.completed_chunks;
                let mut i: usize = 0;
                while i < chunks.len()
                    invariant
                        i <= chunks.len(),
                        out@ == chunks@.take(i as int),
                    decreases chunks.len() - i,
                {
                    out.push(chunks[i]);
                    assert(out@ =~= chunks@.take(i + 1));
                    i += 1;
                }
                assert(chunks@.take(chunks@.len() as int) =~= chunks@);
                assert(e@.checkpoint.files[file_index as int] == file@);
            }
        },
        None => {},
    }
    assert(out@ =~= completed_of(entry_view(checkpoint), file_index as int));
    out
}

/// What a worker tells of one step: the engine, and the card that is shown.
#[derive(Debug, PartialEq, Eq)]
pub struct RunNotes {
    pub engine: Option<EngineNote>,
    pub card: Option<CardProgress>,
}

pub struct RunNotesView {
    pub engine: Option<EngineNote>,
    pub card: Option<ProgressView>,
}

impl View for RunNotes {
    type V = RunNotesView;

    open spec fn view(&self) -> RunNotesView {
        RunNotesView {
            engine: self.engine,
            card: match self.card {
                Some(p) => Some(p@),
                None => None,
            },
        }
    }
}

/// Nothing to tell.
pub open spec fn no_notes() -> RunNotesView {
    RunNotesView { engine: None, card: None }
}

fn silent() -> (r: RunNotes)
    ensures
        r@ == no_notes(),
{
    RunNotes { engine: None, card: None }
}

/// Where a run stands.
#[derive(Debug)]
pub enum WifiStage {
    StartTask,
    TargetRoot,
    Directories,
    /// A file is to be begun, or skipped.
    File,
    /// A chunk is to be read, or skipped.
    Chunk,
    /// A chunk of so many bytes is to be pushed.
    Push(u64),
    Complete,
    Verify,
    Done,
    Failed(String),
}

pub enum WifiStageView {
    StartTask,
    TargetRoot,
    Directories,
    File,
    Chunk,
    Push(u64),
    Complete,
    Verify,
    Done,
    Failed(Seq<char>),
}

impl View for WifiStage {
    type V = WifiStageView;

    open spec fn view(&self) -> WifiStageView {
        match self {
            WifiStage::StartTask => WifiStageView::StartTask,
            WifiStage::TargetRoot => WifiStageView::TargetRoot,
            WifiStage::Directories => WifiStageView::Directories,
            WifiStage::File => WifiStageView::File,
            WifiStage::Chunk => WifiStageView::Chunk,
            WifiStage::Push(n) => WifiStageView::Push(*n),
            WifiStage::Complete => WifiStageView::Complete,
            WifiStage::Verify => WifiStageView::Verify,
            WifiStage::Done => WifiStageView::Done,
            WifiStage::Failed(m) => WifiStageView::Failed(m@),
        }
    }
}

/// What to do.
#[derive(Debug)]
pub enum WifiStep {
    /// Ask the agent.
    Ask(AgentAsk),
    /// Pass over a chunk that is there already.
    SkipChunk,
    /// Read so many bytes at an offset of the local file.
    Read { local_path: String, offset: u64, length: u64 },
    /// Push the bytes that were read.
    Push { relative_path: String, chunk_index: u32, offset: u64 },
    /// Check the file on the device against the local one.
    Verify { relative_path: String, local_path: String, size_bytes: u64 },
    /// Nothing; the text says what was done.
    Done(String),
}

pub enum WifiStepView {
    Ask(AskView),
    SkipChunk,
    Read { local_path: Seq<char>, offset: int, length: int },
    Push { relative_path: Seq<char>, chunk_index: int, offset: int },
    Verify { relative_path: Seq<char>, local_path: Seq<char>, size_bytes: u64 },
    Done(Seq<char>),
}

impl View for WifiStep {
    type V = WifiStepView;

    open spec fn view(&self) -> WifiStepView {
        match self {
            WifiStep::Ask(a) => WifiStepView::Ask(a@),
            WifiStep::SkipChunk => WifiStepView::SkipChunk,
            WifiStep::Read { local_path, offset, length } => WifiStepView::Read {
                local_path: local_path@,
                offset: *offset as int,
                length: *length as int,
            },
            WifiStep::Push { relative_path, chunk_index, offset } => WifiStepView::Push {
                relative_path: relative_path@,
                chunk_index: *chunk_index as int,
                offset: *offset as int,
            },
            WifiStep::Verify { relative_path, local_path, size_bytes } => WifiStepView::Verify {
                relative_path: relative_path@,
                local_path: local_path@,
                size_bytes: *size_bytes,
            },
            WifiStep::Done(m) => WifiStepView::Done(m@),
        }
    }
}

/// A transfer of files over the network under way.
#[derive(Debug)]
pub struct WifiRun {
    host: String,
    task_id: String,
    target_root: String,
    directories: String,
    directory_count: usize,
    files: Vec<LocalTransferFile>,
    completed: Vec<Vec<u32>>,
    chunk_size: u64,
    verify_enabled: bool,
    stage: WifiStage,
    file: usize,
    chunk: u32,
    pushed_files: usize,
    skipped_files: usize,
    pushed_chunks: u64,
    skipped_chunks: u64,
    bytes_scanned: u64,
    bytes_pushed: u64,
}

pub struct WifiRunView {
    pub host: Seq<char>,
    pub task_id: Seq<char>,
    pub target_root: Seq<char>,
    pub directories: Seq<char>,
    pub directory_count: int,
    pub files: Seq<LocalFileView>,
    /// The completed chunks of each file.
    pub completed: Seq<Seq<u32>>,
    pub chunk_size: u64,
    pub verify_enabled: bool,
    pub stage: WifiStageView,
    pub file: int,
    pub chunk: int,
    pub pushed_files: int,
    pub skipped_files: int,
    pub pushed_chunks: int,
    pub skipped_chunks: int,
    pub bytes_scanned: int,
    pub bytes_pushed: int,
}

/// A number as far as 64 bits go.
pub open spec fn capped(n: int) -> int {
    sizing::smaller(n, u64::MAX as int)
}

/// A sum as far as 64 bits go.
pub fn capped_sum(a: u64, b: u64) -> (r: u64)
    ensures
        r == capped(a + b),
{
    match a.checked_add(b) {
        Some(s) => s,
        None => u64::MAX,
    }
}

/// What is complained of when a pause was asked for.
pub open spec fn pause_text() -> Seq<char> {
    "transfer paused at chunk boundary"@
}

impl WifiRunView {
    /// The file at hand.
    pub open spec fn at(self) -> LocalFileView {
        self.files[self.file]
    }

    /// The path of the file at hand as the agent is told it.
    pub open spec fn path(self) -> Seq<char> {
        text::swap_char(self.at().relative_path, '\\', '/')
    }

    /// The chunks of the file at hand.
    pub open spec fn chunks(self) -> int {
        sizing::told_count(self.at().size_bytes, self.chunk_size) as int
    }

    /// Whether the file at hand is there already.
    pub open spec fn is_complete(self) -> bool {
        sizing::fully_checkpointed(
            self.at().size_bytes,
            self.chunk_size,
            self.completed[self.file].len(),
        )
    }

    /// Whether the chunk at hand is there already.
    pub open spec fn is_chunk_complete(self) -> bool {
        self.completed[self.file].contains(self.chunk as u32)
    }

    /// Where the chunk at hand starts.
    pub open spec fn offset(self) -> int {
        self.chunk * self.chunk_size
    }

    /// Whether a file is at hand.
    pub open spec fn in_file(self) -> bool {
        match self.stage {
            WifiStageView::File => true,
            WifiStageView::Chunk => true,
            WifiStageView::Push(_) => true,
            WifiStageView::Complete => true,
            WifiStageView::Verify => true,
            _ => false,
        }
    }

    /// Every file is either pushed or skipped, and a chunk at hand is one that the file has.
    pub open spec fn wf(self) -> bool {
        &&& self.chunk_size > 0
        &&& self.completed.len() == self.files.len()
        &&& 0 <= self.file <= self.files.len()
        &&& self.in_file() ==> self.file < self.files.len()
        &&& self.stage is Done ==> self.file == self.files.len()
        &&& self.stage is StartTask || self.stage is TargetRoot || self.stage is Directories
            ==> self.file == 0
        &&& self.stage is Chunk || self.stage is Push ==> 0 <= self.chunk < self.chunks()
        &&& self.pushed_files >= 0 && self.skipped_files >= 0
        &&& self.stage is Verify ==> self.pushed_files + self.skipped_files == self.file + 1
        &&& !(self.stage is Verify) && !(self.stage is Failed) ==> self.pushed_files
            + self.skipped_files == self.file
    }

    /// Whether a pause takes effect here: before a file and before a chunk.
    pub open spec fn at_boundary(self) -> bool {
        self.stage is File || self.stage is Chunk
    }

    /// What was done, in words.
    pub open spec fn summary(self) -> Seq<char> {
        "Wi-Fi transfer completed: directories="@ + decimal::dec(self.directory_count as nat)
            + " pushed_files="@ + decimal::dec(self.pushed_files as nat) + " skipped_files="@
            + decimal::dec(self.skipped_files as nat) + " pushed_chunks="@ + decimal::dec(
            self.pushed_chunks as nat,
        ) + " skipped_chunks="@ + decimal::dec(self.skipped_chunks as nat) + " bytes_pushed="@
            + decimal::dec(self.bytes_pushed as nat)
    }

    /// What to do, or why nothing more is done.
    pub open spec fn step(self, paused: bool) -> Result<WifiStepView, Seq<char>> {
        if paused && self.at_boundary() {
            Err(pause_text())
        } else {
            match self.stage {
                WifiStageView::StartTask => Ok(WifiStepView::Ask(AskView::StartTask(self.task_id))),
                WifiStageView::TargetRoot => Ok(
                    WifiStepView::Ask(AskView::SetTargetRoot(self.target_root)),
                ),
                WifiStageView::Directories => Ok(
                    WifiStepView::Ask(
                        AskView::Bundle(self.task_id + "-dirs"@, self.directories, Seq::empty()),
                    ),
                ),
                WifiStageView::File => Ok(
                    WifiStepView::Ask(
                        if self.is_complete() {
                            AskView::CompleteFile(self.path(), self.at().size_bytes)
                        } else {
                            AskView::StartFile(self.path(), self.at().size_bytes)
                        },
                    ),
                ),
                WifiStageView::Chunk => Ok(
                    if self.is_chunk_complete() {
                        WifiStepView::SkipChunk
                    } else {
                        WifiStepView::Read {
                            local_path: self.at().local_path,
                            offset: self.offset(),
                            length: sizing::length_at(
                                self.at().size_bytes,
                                self.chunk_size,
                                self.chunk,
                            ),
                        }
                    },
                ),
                WifiStageView::Push(_) => Ok(
                    WifiStepView::Push {
                        relative_path: self.path(),
                        chunk_index: self.chunk,
                        offset: self.offset(),
                    },
                ),
                WifiStageView::Complete => Ok(
                    WifiStepView::Ask(AskView::CompleteFile(self.path(), self.at().size_bytes)),
                ),
                WifiStageView::Verify => Ok(
                    WifiStepView::Verify {
                        relative_path: self.path(),
                        local_path: self.at().local_path,
                        size_bytes: self.at().size_bytes,
                    },
                ),
                WifiStageView::Done => Ok(WifiStepView::Done(self.summary())),
                WifiStageView::Failed(m) => Err(m),
            }
        }
    }

    /// The run stops with a complaint.
    pub open spec fn failed(self, m: Seq<char>) -> WifiRunView {
        WifiRunView { stage: WifiStageView::Failed(m), ..self }
    }

    /// Goes on to a file, or to the end.
    pub open spec fn to_file(self, file: int) -> WifiRunView {
        WifiRunView {
            file,
            chunk: 0,
            stage: if file < self.files.len() {
                WifiStageView::File
            } else {
                WifiStageView::Done
            },
            ..self
        }
    }

    /// Goes on to the chunk after the one at hand, or to the end of the file.
    pub open spec fn next_chunk(self) -> WifiRunView {
        WifiRunView {
            chunk: self.chunk + 1,
            stage: if self.chunk + 1 < self.chunks() {
                WifiStageView::Chunk
            } else {
                WifiStageView::Complete
            },
            ..self
        }
    }

    /// What is shown of the file at hand of `at`.
    pub open spec fn shown(self, at: WifiRunView, event: Seq<char>, message: Seq<char>) -> ProgressView {
        ProgressView {
            current_file: at.file + 1,
            total_files: at.files.len() as int,
            pushed_files: self.pushed_files,
            skipped_files: self.skipped_files,
            pushed_chunks: self.pushed_chunks,
            skipped_chunks: self.skipped_chunks,
            bytes_scanned: self.bytes_scanned,
            bytes_pushed: self.bytes_pushed,
            relative_path: at.path(),
            remote_path: at.host,
            last_event: event,
            last_message: message,
        }
    }

    /// The agent answered; the status that the answer tells.
    pub open spec fn answered(
        self,
        reply: Result<Seq<char>, Seq<char>>,
        status: Option<Seq<char>>,
    ) -> (WifiRunView, RunNotesView) {
        match reply {
            Err(m) => (self.failed(m), no_notes()),
            Ok(p) => match self.stage {
                WifiStageView::StartTask => (
                    WifiRunView { stage: WifiStageView::TargetRoot, ..self },
                    no_notes(),
                ),
                WifiStageView::TargetRoot => (
                    if self.directory_count > 0 {
                        WifiRunView { stage: WifiStageView::Directories, ..self }
                    } else {
                        self.to_file(0)
                    },
                    no_notes(),
                ),
                WifiStageView::Directories => (
                    match wifi_chunk::judged(status, p, seq!["bundle_written"@]) {
                        Ok(_) => self.to_file(0),
                        Err(m) => self.failed(m),
                    },
                    no_notes(),
                ),
                WifiStageView::File => {
                    let scanned = WifiRunView {
                        bytes_scanned: capped(self.bytes_scanned + self.at().size_bytes),
                        ..self
                    };
                    if self.is_complete() {
                        let after = WifiRunView {
                            skipped_files: self.skipped_files + 1,
                            skipped_chunks: capped(
                                self.skipped_chunks + self.completed[self.file].len(),
                            ),
                            ..scanned
                        }.to_file(self.file + 1);
                        (
                            after,
                            RunNotesView {
                                engine: Some(
                                    EngineNote::File {
                                        file_index: self.file as usize,
                                        lane: LaneAssignment::Wifi,
                                        skipped: true,
                                    },
                                ),
                                card: Some(
                                    after.shown(
                                        self,
                                        "wifi-file-skipped"@,
                                        "Wi-Fi file "@ + self.path() + " resumed from checkpoint"@,
                                    ),
                                ),
                            },
                        )
                    } else {
                        (
                            WifiRunView { stage: WifiStageView::Chunk, chunk: 0, ..scanned },
                            no_notes(),
                        )
                    }
                },
                WifiStageView::Complete => {
                    let pushed = WifiRunView { pushed_files: self.pushed_files + 1, ..self };
                    (
                        if self.verify_enabled {
                            WifiRunView { stage: WifiStageView::Verify, ..pushed }
                        } else {
                            pushed.to_file(self.file + 1)
                        },
                        RunNotesView {
                            engine: Some(
                                EngineNote::File {
                                    file_index: self.file as usize,
                                    lane: LaneAssignment::Wifi,
                                    skipped: false,
                                },
                            ),
                            card: None,
                        },
                    )
                },
                _ => (self, no_notes()),
            },
        }
    }

    /// Whether the agent is asked.
    pub open spec fn asks(self) -> bool {
        match self.stage {
            WifiStageView::StartTask => true,
            WifiStageView::TargetRoot => true,
            WifiStageView::Directories => true,
            WifiStageView::File => true,
            WifiStageView::Complete => true,
            _ => false,
        }
    }

    /// A chunk that is there already was passed over.
    pub open spec fn skipped(self) -> (WifiRunView, RunNotesView) {
        let after = WifiRunView {
            skipped_chunks: capped(self.skipped_chunks + 1),
            ..self
        }.next_chunk();
        (
            after,
            RunNotesView {
                engine: None,
                card: Some(
                    after.shown(
                        self,
                        "wifi-chunk-skipped"@,
                        "Wi-Fi chunk "@ + decimal::dec(self.chunk as nat)
                            + " resumed from checkpoint"@,
                    ),
                ),
            },
        )
    }

    /// So many bytes were read; the file ends where none are left.
    pub open spec fn read(self, n: Result<u64, Seq<char>>) -> WifiRunView {
        match n {
            Err(m) => self.failed(m),
            Ok(n) => if n == 0 && !(self.at().size_bytes == 0 && self.chunk == 0) {
                WifiRunView { stage: WifiStageView::Complete, ..self }
            } else {
                WifiRunView { stage: WifiStageView::Push(n), ..self }
            },
        }
    }

    /// The chunk was pushed, or was not.
    pub open spec fn pushed(self, outcome: Result<WifiChunkPushOutcome, Seq<char>>) -> (
        WifiRunView,
        RunNotesView,
    ) {
        match (outcome, self.stage) {
            (Err(m), _) => (self.failed(m), no_notes()),
            (Ok(o), WifiStageView::Push(n)) => {
                let after = WifiRunView {
                    pushed_chunks: capped(self.pushed_chunks + 1),
                    bytes_pushed: capped(self.bytes_pushed + n),
                    ..self
                }.next_chunk();
                (
                    after,
                    RunNotesView {
                        engine: Some(
                            EngineNote::Chunk {
                                chunk: ChunkDescriptor {
                                    file_index: self.file as usize,
                                    chunk_index: self.chunk as u32,
                                    offset: self.offset() as u64,
                                    length: n,
                                },
                                lane: LaneAssignment::Wifi,
                                skipped: false,
                            },
                        ),
                        card: Some(
                            after.shown(
                                self,
                                wifi_chunk::outcome_event(o),
                                wifi_chunk::outcome_text(o, self.chunk as u32),
                            ),
                        ),
                    },
                )
            },
            _ => (self, no_notes()),
        }
    }

    /// The file on the device was checked.
    pub open spec fn verified(self, outcome: Result<(), Seq<char>>) -> WifiRunView {
        match outcome {
            Err(m) => self.failed(m),
            Ok(_) => self.to_file(self.file + 1),
        }
    }
}

/// The completed chunks of each file.
pub open spec fn chunk_lists(completed: Seq<Vec<u32>>) -> Seq<Seq<u32>> {
    completed.map_values(|c: Vec<u32>| c@)
}

impl View for WifiRun {
    type V = WifiRunView;

    closed spec fn view(&self) -> WifiRunView {
        WifiRunView {
            host: self.host@,
            task_id: self.task_id@,
            target_root: self.target_root@,
            directories: self.directories@,
            directory_count: self.directory_count as int,
            files: manifest::local_views(self.files@),
            completed: chunk_lists(self.completed@),
            chunk_size: self.chunk_size,
            verify_enabled: self.verify_enabled,
            stage: self.stage@,
            file: self.file as int,
            chunk: self.chunk as int,
            pushed_files: self.pushed_files as int,
            skipped_files: self.skipped_files as int,
            pushed_chunks: self.pushed_chunks as int,
            skipped_chunks: self.skipped_chunks as int,
            bytes_scanned: self.bytes_scanned as int,
            bytes_pushed: self.bytes_pushed as int,
        }
    }
}

/// A run at its start.
pub open spec fn fresh_run(
    host: Seq<char>,
    task_id: Seq<char>,
    target_root: Seq<char>,
    directories: Seq<Seq<char>>,
    files: Seq<LocalFileView>,
    completed: Seq<Seq<u32>>,
    chunk_size: u64,
    verify_enabled: bool,
) -> WifiRunView {
    WifiRunView {
        host,
        task_id,
        target_root,
        directories: bundle::directory_lines(directories),
        directory_count: bundle::directory_count(directories) as int,
        files,
        completed,
        chunk_size,
        verify_enabled,
        stage: WifiStageView::StartTask,
        file: 0,
        chunk: 0,
        pushed_files: 0,
        skipped_files: 0,
        pushed_chunks: 0,
        skipped_chunks: 0,
        bytes_scanned: 0,
        bytes_pushed: 0,
    }
}

/// The completed chunks of the first `n` files.
pub open spec fn completed_lists(checkpoint: Option<CheckpointEntryView>, n: nat) -> Seq<Seq<u32>> {
    Seq::new(n, |i: int| completed_of(checkpoint, i))
}

/// A transfer of directories and files over the network, in chunks of the given length. What a
/// checkpoint has as completed is not sent again.
pub fn run_wifi_pc_to_android(
    host: &str,
    task_id: &str,
    target_root: &str,
    directories: &Vec<LocalTransferDirectory>,
    files: Vec<LocalTransferFile>,
    checkpoint: Option<&CheckpointEntry>,
    chunk_size: u64,
    verify_enabled: bool,
) -> (r: WifiRun)
    requires
        chunk_size > 0,
    ensures
        r@ == fresh_run(
            host@,
            task_id@,
            target_root@,
            manifest::directory_paths(directories@),
            manifest::local_views(files@),
            completed_lists(entry_view(checkpoint), files@.len()),
            chunk_size,
            verify_enabled,
        ),
        r@.wf(),
{
    let (lines, count) = bundle::push_directory_bundle(directories);
    let mut completed: Vec<Vec<u32>> = Vec::new();
    let mut i: usize = 0;
    while i < files.len()
        invariant
            i <= files.len(),
            completed@.len() == i,
            forall|k: int|
                0 <= k < i ==> (#[trigger] completed@[k])@ == completed_of(
                    entry_view(checkpoint),
                    k,
                ),
        decreases files.len() - i,
    {
        completed.push(completed_chunks_for_file(checkpoint, i));
        i += 1;
    }
    assert(chunk_lists(completed@) =~= completed_lists(entry_view(checkpoint), files@.len()));
    WifiRun {
        host: host.to_string(),
        task_id: task_id.to_string(),
        target_root: target_root.to_string(),
        directories: lines,
        directory_count: count,
        files,
        completed,
        chunk_size,
        verify_enabled,
        stage: WifiStage::StartTask,
        file: 0,
        chunk: 0,
        pushed_files: 0,
        skipped_files: 0,
        pushed_chunks: 0,
        skipped_chunks: 0,
        bytes_scanned: 0,
        bytes_pushed: 0,
    }
}

/// Whether a chunk is in a list.
pub fn lists_chunk(chunks: &Vec<u32>, index: u32) -> (r: bool)
    ensures
        r == chunks@.contains(index),
{
    let mut i: usize = 0;
    while i < chunks.len()
        invariant
            i <= chunks.len(),
            forall|k: int| 0 <= k < i ==> chunks@[k] != index,
        decreases chunks.len() - i,
    {
        if chunks[i] == index {
            assert(chunks@[i as int] == index);
            return true;
        }
        i += 1;
    }
    false
}

/// A chunk that a file has starts within it, and so does its length fit.
proof fn lemma_chunk_fits(v: WifiRunView)
    requires
        v.wf(),
        v.in_file(),
        0 <= v.chunk < v.chunks(),
    ensures
        0 <= v.offset() <= v.at().size_bytes,
        v.offset() == v.chunk * models::chunk_step(v.chunk_size),
        v.offset() + sizing::length_at(v.at().size_bytes, v.chunk_size, v.chunk)
            <= v.at().size_bytes,
{
    let size = v.at().size_bytes;
    let n = models::chunk_count(size, v.chunk_size);
    assert(sizing::told_count(size, v.chunk_size) <= n) by {
        assert(n % 0x1_0000_0000 <= n);
    }
    models::lemma_chunk_bounds(size, v.chunk_size, v.chunk);
}

impl WifiRun {
    fn path(&self) -> (r: String)
        requires
            self@.file < self@.files.len(),
        ensures
            r@ == self@.path(),
    {
        text::swapped_char(self.files[self.file].relative_path.as_str(), '\\', '/')
    }

    fn is_complete(&self) -> (r: bool)
        requires
            self@.wf(),
            self@.in_file(),
        ensures
            r == self@.is_complete(),
    {
        sizing::is_file_fully_checkpointed(
            self.files[self.file].size_bytes,
            self.chunk_size,
            &self.completed[self.file],
        )
    }

    fn offset(&self) -> (r: u64)
        requires
            self@.wf(),
            self@.in_file(),
            self@.chunk < self@.chunks(),
        ensures
            r == self@.offset(),
    {
        proof {
            lemma_chunk_fits(self@);
        }
        self.chunk as u64 * self.chunk_size
    }

    fn summary(&self) -> (r: String)
        requires
            self@.wf(),
        ensures
            r@ == self@.summary(),
    {
        let mut s = "Wi-Fi transfer completed: directories=".to_string();
        s.append(decimal::dec_text(self.directory_count as u128).as_str());
        s.append(" pushed_files=");
        s.append(decimal::dec_text(self.pushed_files as u128).as_str());
        s.append(" skipped_files=");
        s.append(decimal::dec_text(self.skipped_files as u128).as_str());
        s.append(" pushed_chunks=");
        s.append(decimal::dec_text(self.pushed_chunks as u128).as_str());
        s.append(" skipped_chunks=");
        s.append(decimal::dec_text(self.skipped_chunks as u128).as_str());
        s.append(" bytes_pushed=");
        s.append(decimal::dec_text(self.bytes_pushed as u128).as_str());
        s
    }

    /// What to do, or why nothing more is done.
    pub fn next_step(&self, paused: bool) -> (r: Result<WifiStep, String>)
        requires
            self@.wf(),
        ensures
            match (r, self@.step(paused)) {
                (Ok(a), Ok(b)) => a@ == b,
                (Err(a), Err(b)) => a@ == b,
                _ => false,
            },
    {
        let boundary = match &self.stage {
            WifiStage::File => true,
            WifiStage::Chunk => true,
            _ => false,
        };
        if paused && boundary {
            return Err("transfer paused at chunk boundary".to_string());
        }
        match &self.stage {
            WifiStage::StartTask => Ok(WifiStep::Ask(AgentAsk::StartTask(self.task_id.clone()))),
            WifiStage::TargetRoot => Ok(
                WifiStep::Ask(AgentAsk::SetTargetRoot(self.target_root.clone())),
            ),
            WifiStage::Directories => {
                let mut id = self.task_id.clone();
                id.append("-dirs");
                let empty: Vec<u8> = Vec::new();
                assert(empty@ =~= Seq::empty());
                Ok(WifiStep::Ask(AgentAsk::Bundle(id, self.directories.clone(), empty)))
            },
            WifiStage::File => {
                let size: u64 = self.files[self.file].size_bytes;
                if self.is_complete() {
                    Ok(WifiStep::Ask(AgentAsk::CompleteFile(self.path(), size)))
                } else {
                    Ok(WifiStep::Ask(AgentAsk::StartFile(self.path(), size)))
                }
            },
            WifiStage::Chunk => {
                if lists_chunk(&self.completed[self.file], self.chunk) {
                    return Ok(WifiStep::SkipChunk);
                }
                let file = &self.files[self.file];
                proof {
                    lemma_chunk_fits(self@);
                }
                Ok(
                    WifiStep::Read {
                        local_path: file.local_path.clone(),
                        offset: self.offset(),
                        length: sizing::chunk_length_for(
                            file.size_bytes,
                            self.chunk_size,
                            self.chunk,
                        ),
                    },
                )
            },
            WifiStage::Push(_) => Ok(
                WifiStep::Push {
                    relative_path: self.path(),
                    chunk_index: self.chunk,
                    offset: self.offset(),
                },
            ),
            WifiStage::Complete => Ok(
                WifiStep::Ask(
                    AgentAsk::CompleteFile(self.path(), self.files[self.file].size_bytes),
                ),
            ),
            WifiStage::Verify => Ok(
                WifiStep::Verify {
                    relative_path: self.path(),
                    local_path: self.files[self.file].local_path.clone(),
                    size_bytes: self.files[self.file].size_bytes,
                },
            ),
            WifiStage::Done => Ok(WifiStep::Done(self.summary())),
            WifiStage::Failed(m) => Err(m.clone()),
        }
    }

    fn fail(&mut self, m: String)
        ensures
            final(self)@ == old(self)@.failed(m@),
    {
        self.stage = WifiStage::Failed(m);
    }

    fn to_file(&mut self, file: usize)
        ensures
            final(self)@ == old(self)@.to_file(file as int),
    {
        self.file = file;
        self.chunk = 0;
        self.stage = if file < self.files.len() {
            WifiStage::File
        } else {
            WifiStage::Done
        };
    }

    fn go_to_next_chunk(&mut self)
        requires
            0 <= old(self)@.file < old(self)@.files.len(),
            0 <= old(self)@.chunk < old(self)@.chunks(),
        ensures
            final(self)@ == old(self)@.next_chunk(),
    {
        let count: u32 = sizing::chunk_count_for_size(
            self.files[self.file].size_bytes,
            self.chunk_size,
        );
        self.chunk += 1;
        self.stage = if self.chunk < count {
            WifiStage::Chunk
        } else {
            WifiStage::Complete
        };
    }

    fn shown(&self, file: usize, path: String, event: &str, message: String) -> (r: CardProgress)
        requires
            file < self@.files.len(),
        ensures
            r@ == (ProgressView {
                current_file: file + 1,
                total_files: self@.files.len() as int,
                pushed_files: self@.pushed_files,
                skipped_files: self@.skipped_files,
                pushed_chunks: self@.pushed_chunks,
                skipped_chunks: self@.skipped_chunks,
                bytes_scanned: self@.bytes_scanned,
                bytes_pushed: self@.bytes_pushed,
                relative_path: path@,
                remote_path: self@.host,
                last_event: event@,
                last_message: message@,
            }),
    {
        let total_files: usize = self.files.len();
        CardProgress {
            current_file: file + 1,
            total_files,
            pushed_files: self.pushed_files,
            skipped_files: self.skipped_files,
            pushed_chunks: self.pushed_chunks,
            skipped_chunks: self.skipped_chunks,
            bytes_scanned: self.bytes_scanned,
            bytes_pushed: self.bytes_pushed,
            relative_path: path,
            remote_path: self.host.clone(),
            last_event: event.to_string(),
            last_message: message,
        }
    }

    /// Takes in an answer, and the status that was read out of it.
    pub fn take_answer(&mut self, reply: &Result<String, String>, status: Option<&str>) -> (r:
        RunNotes)
        requires
            old(self)@.wf(),
            old(self)@.asks(),
        ensures
            final(self)@.wf(),
            final(self)@ == old(self)@.answered(
                crate::adb_command::outcome_view(*reply),
                text::str_view(status),
            ).0,
            r@ == old(self)@.answered(
                crate::adb_command::outcome_view(*reply),
                text::str_view(status),
            ).1,
    {
        let total: usize = self.files.len();
        let payload = match reply {
            Err(m) => {
                self.fail(m.clone());
                return silent();
            },
            Ok(p) => p,
        };
        match &self.stage {
            WifiStage::StartTask => {
                self.stage = WifiStage::TargetRoot;
                silent()
            },
            WifiStage::TargetRoot => {
                if self.directory_count > 0 {
                    self.stage = WifiStage::Directories;
                } else {
                    self.to_file(0);
                }
                silent()
            },
            WifiStage::Directories => {
                let accepted = ["bundle_written"];
                assert(wifi_chunk::str_views(accepted@) =~= seq!["bundle_written"@]);
                match wifi_chunk::judge_status(status, payload.as_str(), &accepted) {
                    Ok(_) => {
                        self.to_file(0);
                    },
                    Err(m) => {
                        self.fail(m);
                    },
                }
                silent()
            },
            WifiStage::File => {
                let file: usize = self.file;
                let complete = self.is_complete();
                let path = self.path();
                self.bytes_scanned = capped_sum(
                    self.bytes_scanned,
                    self.files[file].size_bytes,
                );
                if complete {
                    self.skipped_files += 1;
                    self.skipped_chunks = capped_sum(
                        self.skipped_chunks,
                        self.completed[file].len() as u64,
                    );
                    self.to_file(file + 1);
                    let mut m = "Wi-Fi file ".to_string();
                    m.append(path.as_str());
                    m.append(" resumed from checkpoint");
                    let card = self.shown(file, path, "wifi-file-skipped", m);
                    RunNotes {
                        engine: Some(
                            EngineNote::File {
                                file_index: file,
                                lane: LaneAssignment::Wifi,
                                skipped: true,
                            },
                        ),
                        card: Some(card),
                    }
                } else {
                    self.stage = WifiStage::Chunk;
                    self.chunk = 0;
                    silent()
                }
            },
            WifiStage::Complete => {
                let file: usize = self.file;
                self.pushed_files += 1;
                if self.verify_enabled {
                    self.stage = WifiStage::Verify;
                } else {
                    self.to_file(file + 1);
                }
                RunNotes {
                    engine: Some(
                        EngineNote::File {
                            file_index: file,
                            lane: LaneAssignment::Wifi,
                            skipped: false,
                        },
                    ),
                    card: None,
                }
            },
            _ => silent(),
        }
    }

    /// Takes in an answer.
    pub fn answer(&mut self, reply: &Result<String, String>) -> (r: RunNotes)
        requires
            old(self)@.wf(),
            old(self)@.asks(),
        ensures
            final(self)@.wf(),
            ({
                let told = crate::adb_command::outcome_view(*reply);
                let after = old(self)@.answered(told, wifi_chunk::reply_text(told, "status"@));
                final(self)@ == after.0 && r@ == after.1
            }),
    {
        let status = status_of_reply(reply);
        self.take_answer(reply, text::borrow_opt(&status))
    }

    /// Takes in that a chunk was passed over.
    pub fn skip_chunk(&mut self) -> (r: RunNotes)
        requires
            old(self)@.wf(),
            old(self)@.stage is Chunk,
        ensures
            final(self)@.wf(),
            final(self)@ == old(self)@.skipped().0,
            r@ == old(self)@.skipped().1,
    {
        let file: usize = self.file;
        let path = self.path();
        let mut m = "Wi-Fi chunk ".to_string();
        m.append(decimal::dec_text(self.chunk as u128).as_str());
        m.append(" resumed from checkpoint");
        self.skipped_chunks = capped_sum(self.skipped_chunks, 1);
        self.go_to_next_chunk();
        let card = self.shown(file, path, "wifi-chunk-skipped", m);
        RunNotes { engine: None, card: Some(card) }
    }

    /// Takes in how many bytes were read.
    pub fn take_read(&mut self, n: &Result<u64, String>)
        requires
            old(self)@.wf(),
            old(self)@.stage is Chunk,
        ensures
            final(self)@.wf(),
            final(self)@ == old(self)@.read(crate::remote_verify::size_view(*n)),
    {
        match n {
            Err(m) => {
                self.fail(m.clone());
            },
            Ok(n) => {
                if *n == 0 && !(self.files[self.file].size_bytes == 0 && self.chunk == 0) {
                    self.stage = WifiStage::Complete;
                } else {
                    self.stage = WifiStage::Push(*n);
                }
            },
        }
    }

    /// Takes in what became of the push of a chunk.
    pub fn take_push(&mut self, outcome: &Result<WifiChunkPushOutcome, String>) -> (r: RunNotes)
        requires
            old(self)@.wf(),
            old(self)@.stage is Push,
        ensures
            final(self)@.wf(),
            final(self)@ == old(self)@.pushed(outcome_view(*outcome)).0,
            r@ == old(self)@.pushed(outcome_view(*outcome)).1,
    {
        let o = match outcome {
            Err(m) => {
                self.fail(m.clone());
                return silent();
            },
            Ok(o) => *o,
        };
        let n: u64 = match &self.stage {
            WifiStage::Push(n) => *n,
            _ => 0,
        };
        let file: usize = self.file;
        let chunk: u32 = self.chunk;
        let offset: u64 = self.offset();
        let path = self.path();
        self.pushed_chunks = capped_sum(self.pushed_chunks, 1);
        self.bytes_pushed = capped_sum(self.bytes_pushed, n);
        self.go_to_next_chunk();
        let card = self.shown(file, path, o.event_name(), o.message(chunk));
        RunNotes {
            engine: Some(
                EngineNote::Chunk {
                    chunk: ChunkDescriptor {
                        file_index: file,
                        chunk_index: chunk,
                        offset,
                        length: n,
                    },
                    lane: LaneAssignment::Wifi,
                    skipped: false,
                },
            ),
            card: Some(card),
        }
    }

    /// Takes in what the check of a file came to.
    pub fn take_verify(&mut self, outcome: &Result<(), String>)
        requires
            old(self)@.wf(),
            old(self)@.stage is Verify,
        ensures
            final(self)@.wf(),
            final(self)@ == old(self)@.verified(wifi_chunk::unit_view(*outcome)),
    {
        match outcome {
            Err(m) => {
                self.fail(m.clone());
            },
            Ok(_) => {
                let total: usize = self.files.len();
                let next: usize = self.file + 1;
                self.to_file(next);
            },
        }
    }
}

/// The view of an outcome or a complaint.
pub open spec fn outcome_view(r: Result<WifiChunkPushOutcome, String>) -> Result<
    WifiChunkPushOutcome,
    Seq<char>,
> {
    match r {
        Ok(o) => Ok(o),
        Err(m) => Err(m@),
    }
}

/// The status in an answer, if there is one.
pub fn status_of_reply(reply: &Result<String, String>) -> (r: Option<String>)
    ensures
        text::opt_view(r) == wifi_chunk::reply_text(
            crate::adb_command::outcome_view(*reply),
            "status"@,
        ),
{
    match reply {
        Ok(p) => crate::json::text_field(p.as_str(), "status"),
        Err(_) => None,
    }
}

/// The engine is told of a chunk only when its push came to a good end, and then of just the bytes
/// that were read at its offset.
pub proof fn lemma_only_pushed_chunks_are_noted(
    v: WifiRunView,
    reply: Result<Seq<char>, Seq<char>>,
    status: Option<Seq<char>>,
    outcome: Result<WifiChunkPushOutcome, Seq<char>>,
)
    requires
        v.wf(),
    ensures
        !(v.answered(reply, status).1.engine matches Some(EngineNote::Chunk { .. })),
        v.skipped().1.engine is None,
        v.pushed(outcome).1.engine is Some ==> outcome is Ok,
{
}

/// A run that is done has pushed or skipped every file.
pub proof fn lemma_done_run_is_complete(v: WifiRunView)
    requires
        v.wf(),
        v.stage is Done,
    ensures
        v.pushed_files + v.skipped_files == v.files.len(),
{
}

/// How much of a run is left: files, chunks of the file at hand, and whether the chunk is still to
/// be read.
pub open spec fn left(v: WifiRunView) -> (int, int, int) {
    (
        match v.stage {
            WifiStageView::StartTask => v.files.len() as int + 3,
            WifiStageView::TargetRoot => v.files.len() as int + 2,
            WifiStageView::Directories => v.files.len() as int + 1,
            WifiStageView::Failed(_) => -1,
            _ => v.files.len() - v.file,
        },
        match v.stage {
            WifiStageView::File => v.chunks() + 2,
            WifiStageView::Chunk => v.chunks() - v.chunk + 1,
            WifiStageView::Push(_) => v.chunks() - v.chunk + 1,
            WifiStageView::Complete => 1,
            _ => 0,
        },
        if v.stage is Chunk {
            1
        } else {
            0
        },
    )
}

/// A run comes to its end: whatever comes back, less is left.
pub proof fn lemma_run_ends(
    v: WifiRunView,
    reply: Result<Seq<char>, Seq<char>>,
    status: Option<Seq<char>>,
    n: Result<u64, Seq<char>>,
    outcome: Result<WifiChunkPushOutcome, Seq<char>>,
    checked: Result<(), Seq<char>>,
)
    requires
        v.wf(),
    ensures
        v.asks() ==> crate::adb_push::less_left(left(v.answered(reply, status).0), left(v)),
        v.stage is Chunk ==> crate::adb_push::less_left(left(v.skipped().0), left(v)),
        v.stage is Chunk ==> crate::adb_push::less_left(left(v.read(n)), left(v)),
        v.stage is Push ==> crate::adb_push::less_left(left(v.pushed(outcome).0), left(v)),
        v.stage is Verify ==> crate::adb_push::less_left(left(v.verified(checked)), left(v)),
{
}

/// Whether two runs have the same settings and the same files.
pub open spec fn same_job(a: WifiRunView, b: WifiRunView) -> bool {
    &&& a.host == b.host && a.task_id == b.task_id && a.target_root == b.target_root
    &&& a.directories == b.directories && a.directory_count == b.directory_count
    &&& a.files == b.files && a.completed == b.completed && a.chunk_size == b.chunk_size
    &&& a.verify_enabled == b.verify_enabled
}

/// A chunk that is not completed is read where it lies in the local file, pushed under its number and
/// offset, and once the push came to a good end the engine is told of just this chunk: the file, the
/// number and the offset are those it was pushed with, and the length is that of the bytes read. The
/// run then goes on to the next chunk, or after the last to the end of the file.
pub proof fn lemma_pushed_chunk_is_told_of(
    v: WifiRunView,
    n: u64,
    outcome: WifiChunkPushOutcome,
    m: Seq<char>,
)
    requires
        v.wf(),
        v.stage is Chunk,
        v.files.len() <= usize::MAX,
        models::chunk_count(v.files[v.file].size_bytes, v.chunk_size) <= u32::MAX,
        !v.completed[v.file].contains(v.chunk as u32),
        n > 0 || v.files[v.file].size_bytes == 0,
    ensures
        ({
            let file = v.files[v.file];
            let rest = file.size_bytes - v.chunk * v.chunk_size;
            let u = v.read(Ok(n));
            let (w, notes) = u.pushed(Ok(outcome));
            &&& v.step(false) == Ok::<WifiStepView, Seq<char>>(
                WifiStepView::Read {
                    local_path: file.local_path,
                    offset: v.chunk * v.chunk_size,
                    length: if rest < v.chunk_size {
                        rest
                    } else {
                        v.chunk_size as int
                    },
                },
            )
            &&& u.step(false) == Ok::<WifiStepView, Seq<char>>(
                WifiStepView::Push {
                    relative_path: text::swap_char(file.relative_path, '\\', '/'),
                    chunk_index: v.chunk,
                    offset: v.chunk * v.chunk_size,
                },
            )
            &&& notes.engine matches Some(EngineNote::Chunk { chunk, lane, skipped }) && {
                &&& chunk.file_index == v.file
                &&& chunk.chunk_index == v.chunk
                &&& chunk.offset == v.chunk * v.chunk_size
                &&& chunk.length == n
                &&& lane == LaneAssignment::Wifi
                &&& !skipped
            }
            &&& w.file == v.file && w.chunk == v.chunk + 1
            &&& w.stage is Chunk <==> v.chunk * v.chunk_size + v.chunk_size < file.size_bytes
            &&& !(w.stage is Chunk) ==> w.step(false) == Ok::<WifiStepView, Seq<char>>(
                WifiStepView::Ask(
                    AskView::CompleteFile(
                        text::swap_char(file.relative_path, '\\', '/'),
                        file.size_bytes,
                    ),
                ),
            )
            &&& v.pushed_chunks < u64::MAX ==> w.pushed_chunks == v.pushed_chunks + 1
            &&& v.bytes_pushed + n <= u64::MAX ==> w.bytes_pushed == v.bytes_pushed + n
            &&& w.skipped_chunks == v.skipped_chunks && w.pushed_files == v.pushed_files
                && w.skipped_files == v.skipped_files && w.bytes_scanned == v.bytes_scanned
            &&& same_job(w, v)
            &&& u.pushed(Err(m)).1.engine is None && u.pushed(Err(m)).0.step(false) == Err::<
                WifiStepView,
                Seq<char>,
            >(m)
            &&& v.read(Err(m)).step(false) == Err::<WifiStepView, Seq<char>>(m)
        }),
{
    let size = v.files[v.file].size_bytes;
    sizing::lemma_count_reaches_the_end(size, v.chunk_size);
    sizing::lemma_chunk_spans(size, v.chunk_size, v.chunk);
    assert(0 <= v.chunk * v.chunk_size <= size);
}

/// A chunk is passed over exactly where the checkpoint has it as completed: the engine is told
/// nothing then, and the run goes on to the next chunk.
pub proof fn lemma_completed_chunk_is_passed_over(v: WifiRunView)
    requires
        v.wf(),
        v.stage is Chunk,
        models::chunk_count(v.files[v.file].size_bytes, v.chunk_size) <= u32::MAX,
    ensures
        ({
            let (w, notes) = v.skipped();
            &&& v.step(false) == Ok::<WifiStepView, Seq<char>>(WifiStepView::SkipChunk)
                <==> v.completed[v.file].contains(v.chunk as u32)
            &&& notes.engine is None
            &&& w.file == v.file && w.chunk == v.chunk + 1
            &&& w.stage is Chunk <==> v.chunk * v.chunk_size + v.chunk_size
                < v.files[v.file].size_bytes
            &&& !(w.stage is Chunk) ==> w.stage is Complete
            &&& v.skipped_chunks < u64::MAX ==> w.skipped_chunks == v.skipped_chunks + 1
            &&& w.pushed_chunks == v.pushed_chunks && w.bytes_pushed == v.bytes_pushed
                && w.pushed_files == v.pushed_files && w.skipped_files == v.skipped_files
            &&& same_job(w, v)
        }),
{
    sizing::lemma_count_reaches_the_end(v.files[v.file].size_bytes, v.chunk_size);
    assert(0 <= v.chunk * v.chunk_size);
}

/// A file is started, and its first chunk is taken up, unless as many of its chunks are completed as
/// it has: then it is told to be complete at once, counts as skipped, and the engine is told that
/// the file is done without being sent.
pub proof fn lemma_file_is_taken_up(
    v: WifiRunView,
    p: Seq<char>,
    status: Option<Seq<char>>,
)
    requires
        v.wf(),
        v.stage is File,
        v.files.len() <= usize::MAX,
        models::chunk_count(v.files[v.file].size_bytes, v.chunk_size) <= u32::MAX,
    ensures
        ({
            let file = v.files[v.file];
            let path = text::swap_char(file.relative_path, '\\', '/');
            let done = v.completed[v.file].len();
            let complete = done >= 1 && done * v.chunk_size >= file.size_bytes;
            let (w, notes) = v.answered(Ok(p), status);
            &&& v.step(false) == Ok::<WifiStepView, Seq<char>>(
                WifiStepView::Ask(
                    if complete {
                        AskView::CompleteFile(path, file.size_bytes)
                    } else {
                        AskView::StartFile(path, file.size_bytes)
                    },
                ),
            )
            &&& complete ==> {
                &&& w.file == v.file + 1
                &&& w.skipped_files == v.skipped_files + 1
                &&& v.skipped_chunks + done <= u64::MAX ==> w.skipped_chunks == v.skipped_chunks
                    + done
                &&& notes.engine matches Some(EngineNote::File { file_index, lane, skipped })
                    && file_index == v.file && lane == LaneAssignment::Wifi && skipped
            }
            &&& !complete ==> {
                &&& w.stage is Chunk && w.file == v.file && w.chunk == 0
                &&& w.skipped_files == v.skipped_files && w.skipped_chunks == v.skipped_chunks
                &&& notes.engine is None
            }
            &&& w.pushed_files == v.pushed_files && w.pushed_chunks == v.pushed_chunks
                && w.bytes_pushed == v.bytes_pushed
            &&& v.bytes_scanned + file.size_bytes <= u64::MAX ==> w.bytes_scanned
                == v.bytes_scanned + file.size_bytes
            &&& same_job(w, v)
        }),
{
    sizing::lemma_done_file_has_all_chunks(
        v.files[v.file].size_bytes,
        v.chunk_size,
        v.completed[v.file].len(),
    );
}

/// A file whose chunks are through counts as pushed when the agent took it as complete, and the
/// engine is told so. Where files are to be checked the run then checks just this file, and goes on
/// to the next one only after the check came to a good end; a check that fails ends the run.
pub proof fn lemma_checked_run_waits_for_the_check(
    v: WifiRunView,
    p: Seq<char>,
    status: Option<Seq<char>>,
    m: Seq<char>,
)
    requires
        v.wf(),
        v.stage is Complete,
        v.files.len() <= usize::MAX,
    ensures
        ({
            let file = v.files[v.file];
            let path = text::swap_char(file.relative_path, '\\', '/');
            let (w, notes) = v.answered(Ok(p), status);
            &&& v.step(false) == Ok::<WifiStepView, Seq<char>>(
                WifiStepView::Ask(AskView::CompleteFile(path, file.size_bytes)),
            )
            &&& w.pushed_files == v.pushed_files + 1 && w.skipped_files == v.skipped_files
                && w.pushed_chunks == v.pushed_chunks && w.bytes_pushed == v.bytes_pushed
                && w.skipped_chunks == v.skipped_chunks && same_job(w, v)
            &&& notes.engine matches Some(EngineNote::File { file_index, lane, skipped })
                && file_index == v.file && lane == LaneAssignment::Wifi && !skipped
            &&& v.verify_enabled ==> {
                &&& w.file == v.file
                &&& w.step(true) == Ok::<WifiStepView, Seq<char>>(
                    WifiStepView::Verify {
                        relative_path: path,
                        local_path: file.local_path,
                        size_bytes: file.size_bytes,
                    },
                )
                &&& w.verified(Ok(())).file == v.file + 1
                &&& w.verified(Ok(())).stage is Done <==> v.file + 1 == v.files.len()
                &&& w.verified(Err(m)).step(false) == Err::<WifiStepView, Seq<char>>(m)
            }
            &&& !v.verify_enabled ==> w.file == v.file + 1 && (w.stage is Done <==> v.file + 1
                == v.files.len())
            &&& v.answered(Err(m), status).1.engine is None && v.answered(Err(m), status).0.step(
                false,
            ) == Err::<WifiStepView, Seq<char>>(m)
        }),
{
}

/// Whatever comes back, a run goes on to another file only past a file that the checkpoint has, or
/// past one whose completion was answered and, where files are to be checked, whose check came to a
/// good end.
pub proof fn lemma_only_finished_files_are_left(
    v: WifiRunView,
    reply: Result<Seq<char>, Seq<char>>,
    status: Option<Seq<char>>,
    n: Result<u64, Seq<char>>,
    outcome: Result<WifiChunkPushOutcome, Seq<char>>,
    checked: Result<(), Seq<char>>,
)
    requires
        v.wf(),
        v.in_file(),
    ensures
        v.answered(reply, status).0.file != v.file ==> reply is Ok && (v.stage is File
            || v.stage is Complete && !v.verify_enabled),
        v.answered(reply, status).0.pushed_files != v.pushed_files ==> reply is Ok && v.stage
            is Complete,
        v.read(n).file == v.file && v.read(n).pushed_files == v.pushed_files,
        v.read(n).stage is Complete ==> n == Ok::<u64, Seq<char>>(0) && !(v.chunk == 0
            && v.files[v.file].size_bytes == 0),
        v.pushed(outcome).0.file == v.file && v.pushed(outcome).0.pushed_files == v.pushed_files,
        v.skipped().0.file == v.file && v.skipped().0.pushed_files == v.pushed_files,
        v.verified(checked).file != v.file ==> checked is Ok,
        v.verified(checked).file == v.file || v.verified(checked).file == v.file + 1,
{
}

/// A run asks the agent to start the task and to take the target root, makes the directories if there
/// are any, and starts with the first file; directories that were not written end it.
pub proof fn lemma_run_starts_in_order(
    host: Seq<char>,
    task_id: Seq<char>,
    target_root: Seq<char>,
    directories: Seq<Seq<char>>,
    files: Seq<LocalFileView>,
    completed: Seq<Seq<u32>>,
    chunk_size: u64,
    verify_enabled: bool,
    p: Seq<char>,
    status: Option<Seq<char>>,
)
    ensures
        ({
            let v = fresh_run(
                host,
                task_id,
                target_root,
                directories,
                files,
                completed,
                chunk_size,
                verify_enabled,
            );
            let a = v.answered(Ok(p), None).0;
            let b = a.answered(Ok(p), None).0;
            let c = b.answered(Ok(p), status).0;
            let any = bundle::directory_count(directories) > 0;
            &&& v.step(false) == Ok::<WifiStepView, Seq<char>>(
                WifiStepView::Ask(AskView::StartTask(task_id)),
            )
            &&& a.step(false) == Ok::<WifiStepView, Seq<char>>(
                WifiStepView::Ask(AskView::SetTargetRoot(target_root)),
            )
            &&& any ==> b.step(false) == Ok::<WifiStepView, Seq<char>>(
                WifiStepView::Ask(
                    AskView::Bundle(
                        task_id + "-dirs"@,
                        bundle::directory_lines(directories),
                        Seq::empty(),
                    ),
                ),
            )
            &&& any && status == Some("bundle_written"@) ==> c.file == 0 && (c.stage is File
                <==> files.len() > 0)
            &&& any && status != Some("bundle_written"@) ==> c.step(false) is Err
            &&& !any ==> b.file == 0 && (b.stage is File <==> files.len() > 0) && (b.stage is Done
                <==> files.len() == 0)
            &&& v.files == files && v.completed == completed && v.chunk_size == chunk_size
                && v.verify_enabled == verify_enabled
            &&& v.pushed_files == 0 && v.skipped_files == 0 && v.pushed_chunks == 0
                && v.skipped_chunks == 0 && v.bytes_pushed == 0 && v.bytes_scanned == 0
        }),
{
    let accepted = seq!["bundle_written"@];
    assert(accepted.contains("bundle_written"@)) by {
        assert(accepted[0] == "bundle_written"@);
    }
    assert forall|s: Seq<char>| #[trigger] accepted.contains(s) implies s == "bundle_written"@ by {
        let i = choose|i: int| 0 <= i < accepted.len() && accepted[i] == s;
        assert(i == 0);
    }
}

/// A pause ends a run before a file and before a chunk, and nowhere else.
pub proof fn lemma_pause_waits_for_a_boundary(v: WifiRunView)
    ensures
        v.stage is File || v.stage is Chunk ==> v.step(true) == Err::<WifiStepView, Seq<char>>(
            "transfer paused at chunk boundary"@,
        ),
        !(v.stage is File || v.stage is Chunk) ==> v.step(true) == v.step(false),
{
}

/// The completed chunks of a file are those that the checkpoint has of the file at its place.
pub proof fn lemma_completed_chunks_are_those_of_the_file(e: CheckpointEntryView, i: int)
    ensures
        0 <= i < e.checkpoint.files.len() ==> completed_of(Some(e), i)
            == e.checkpoint.files[i].completed_chunks,
        !(0 <= i < e.checkpoint.files.len()) ==> completed_of(Some(e), i).len() == 0,
        completed_of(None, i).len() == 0,
{
}

} // verus!
