//! The network lane beside an ADB lane: small files in bundles, others one by one.

use crate::agent_ask;
use crate::agent_ask::{AgentAsk, AskView};
use crate::bundle;
use crate::bundle::{BundleView, SmallFileBundle};
use crate::cards::{DualNote, DualNoteView};
use crate::checkpoint;
use crate::decimal;
use crate::manifest;
use crate::manifest::{LocalFileView, LocalTransferDirectory, LocalTransferFile};
use crate::models::ChunkDescriptor;
use crate::notes;
use crate::notes::EngineNote;
use crate::paths;
use crate::scheduler::LaneAssignment;
use crate::text;
use crate::wifi_chunk;
use crate::wifi_chunk::WifiChunkPushOutcome;
use crate::wifi_run;
use vstd::prelude::*;

verus! {

/// What a lane tells of one step: the engine, and both lanes' shared count.
#[derive(Debug, PartialEq, Eq)]
pub struct LaneNotes {
    pub engine: Vec<EngineNote>,
    pub dual: Vec<DualNote>,
}

pub struct LaneNotesView {
    pub engine: Seq<EngineNote>,
    pub dual: Seq<DualNoteView>,
}

impl View for LaneNotes {
    type V = LaneNotesView;

    open spec fn view(&self) -> LaneNotesView {
        LaneNotesView { engine: self.engine@, dual: notes::note_views(self.dual@) }
    }
}

/// Nothing to tell.
pub open spec fn no_lane_notes() -> LaneNotesView {
    LaneNotesView { engine: Seq::empty(), dual: Seq::empty() }
}

/// Nothing to tell.
pub fn silent_lane() -> (r: LaneNotes)
    ensures
        r@ == no_lane_notes(),
        r.dual@.len() == 0,
{
    let n = LaneNotes { engine: Vec::new(), dual: Vec::new() };
    assert(n.engine@ =~= Seq::empty());
    assert(notes::note_views(n.dual@) =~= Seq::empty());
    n
}

/// What follows once a bundle is sent.
#[derive(Debug, Clone, Copy, PartialEq, Eq, Structural)]
pub enum AfterBundle {
    /// The next file goes into a new bundle.
    NewBundle,
    /// The next file is sent by itself.
    Direct,
    /// The lane is done.
    End,
    /// The lane pauses.
    Pause,
}

/// Where the lane stands.
#[derive(Debug)]
pub enum LaneStage {
    StartTask,
    TargetRoot,
    Directories,
    /// It is to be decided what becomes of the next file.
    Pick,
    /// The next file is to be read into the bundle.
    Load,
    /// The bundle is to be sent.
    Send(AfterBundle),
    /// A file of the bundle is to be told of.
    Entry(AfterBundle, usize),
    /// A file of the bundle is to be checked.
    CheckEntry(AfterBundle, usize),
    /// A file that is sent by itself is to be told of.
    Begin,
    StartFile,
    /// The next bytes of the file are to be read.
    Chunk,
    /// So many bytes are to be pushed.
    Push(u64),
    Complete,
    Check,
    Done,
    Failed(String),
}

pub enum LaneStageView {
    StartTask,
    TargetRoot,
    Directories,
    Pick,
    Load,
    Send(AfterBundle),
    Entry(AfterBundle, int),
    CheckEntry(AfterBundle, int),
    Begin,
    StartFile,
    Chunk,
    Push(u64),
    Complete,
    Check,
    Done,
    Failed(Seq<char>),
}

impl View for LaneStage {
    type V = LaneStageView;

    open spec fn view(&self) -> LaneStageView {
        match self {
            LaneStage::StartTask => LaneStageView::StartTask,
            LaneStage::TargetRoot => LaneStageView::TargetRoot,
            LaneStage::Directories => LaneStageView::Directories,
            LaneStage::Pick => LaneStageView::Pick,
            LaneStage::Load => LaneStageView::Load,
            LaneStage::Send(a) => LaneStageView::Send(*a),
            LaneStage::Entry(a, i) => LaneStageView::Entry(*a, *i as int),
            LaneStage::CheckEntry(a, i) => LaneStageView::CheckEntry(*a, *i as int),
            LaneStage::Begin => LaneStageView::Begin,
            LaneStage::StartFile => LaneStageView::StartFile,
            LaneStage::Chunk => LaneStageView::Chunk,
            LaneStage::Push(n) => LaneStageView::Push(*n),
            LaneStage::Complete => LaneStageView::Complete,
            LaneStage::Check => LaneStageView::Check,
            LaneStage::Done => LaneStageView::Done,
            LaneStage::Failed(m) => LaneStageView::Failed(m@),
        }
    }
}

/// What to do.
#[derive(Debug)]
pub enum LaneStep {
    /// Ask the agent.
    Ask(AgentAsk),
    /// Let it be decided what becomes of the next file.
    Pick,
    /// Look the file up again, and read it.
    Load(LocalTransferFile),
    /// Take in what is told of the next file of the bundle.
    Tell,
    /// Read the next bytes of the file, at most so many.
    Read { local_path: String, length: u64 },
    /// Push the bytes that were read.
    Push { relative_path: String, chunk_index: u32, offset: u64 },
    /// Check a file on the device against the local one.
    Verify { relative_path: String, local_path: String, size_bytes: u64 },
    /// Nothing; the text says what was done.
    Done(String),
}

pub enum LaneStepView {
    Ask(AskView),
    Pick,
    Load(LocalFileView),
    Tell,
    Read { local_path: Seq<char>, length: u64 },
    Push { relative_path: Seq<char>, chunk_index: u32, offset: u64 },
    Verify { relative_path: Seq<char>, local_path: Seq<char>, size_bytes: u64 },
    Done(Seq<char>),
}

impl View for LaneStep {
    type V = LaneStepView;

    open spec fn view(&self) -> LaneStepView {
        match self {
            LaneStep::Ask(a) => LaneStepView::Ask(a@),
            LaneStep::Pick => LaneStepView::Pick,
            LaneStep::Load(f) => LaneStepView::Load(f@),
            LaneStep::Tell => LaneStepView::Tell,
            LaneStep::Read { local_path, length } => LaneStepView::Read {
                local_path: local_path@,
                length: *length,
            },
            LaneStep::Push { relative_path, chunk_index, offset } => LaneStepView::Push {
                relative_path: relative_path@,
                chunk_index: *chunk_index,
                offset: *offset,
            },
            LaneStep::Verify { relative_path, local_path, size_bytes } => LaneStepView::Verify {
                relative_path: relative_path@,
                local_path: local_path@,
                size_bytes: *size_bytes,
            },
            LaneStep::Done(m) => LaneStepView::Done(m@),
        }
    }
}

/// The network lane under way.
#[derive(Debug)]
pub struct DualWifiRun {
    task_id: String,
    target_root: String,
    directories: String,
    directory_count: usize,
    files: Vec<LocalTransferFile>,
    chunk_size: u64,
    verify_enabled: bool,
    stage: LaneStage,
    file: usize,
    bundle: SmallFileBundle,
    bundle_index: usize,
    bundled_files: usize,
    direct_files: usize,
    chunk: u32,
    offset: u64,
}

pub struct DualWifiView {
    pub task_id: Seq<char>,
    pub target_root: Seq<char>,
    pub directories: Seq<char>,
    pub directory_count: int,
    pub files: Seq<LocalFileView>,
    pub chunk_size: u64,
    pub verify_enabled: bool,
    pub stage: LaneStageView,
    /// The next file, or the one at hand.
    pub file: int,
    pub bundle: BundleView,
    pub bundle_index: int,
    pub bundled_files: int,
    pub direct_files: int,
    pub chunk: u32,
    pub offset: u64,
}

/// One more chunk, as far as 32 bits go.
pub open spec fn next_index(k: u32) -> u32 {
    if k < u32::MAX {
        (k + 1) as u32
    } else {
        k
    }
}

impl DualWifiView {
    pub open spec fn at(self) -> LocalFileView {
        self.files[self.file]
    }

    /// The path of the file at hand as the agent is told it.
    pub open spec fn path(self) -> Seq<char> {
        text::swap_char(self.at().relative_path, '\\', '/')
    }

    /// Whether a file is at hand that is sent by itself.
    pub open spec fn in_file(self) -> bool {
        match self.stage {
            LaneStageView::Begin => true,
            LaneStageView::StartFile => true,
            LaneStageView::Chunk => true,
            LaneStageView::Push(_) => true,
            LaneStageView::Complete => true,
            LaneStageView::Check => true,
            _ => false,
        }
    }

    /// Every file before the next one is in a sent bundle, was sent by itself, or waits in the
    /// bundle.
    pub open spec fn wf(self) -> bool {
        &&& 0 <= self.file <= self.files.len()
        &&& self.in_file() || self.stage is Load ==> self.file < self.files.len()
        &&& self.in_file() ==> self.bundle.entries.len() == 0
        &&& self.in_bundle() matches Some(after) ==> {
            &&& self.bundle.entries.len() > 0
            &&& after == AfterBundle::End ==> self.file == self.files.len()
            &&& after == AfterBundle::Direct || after == AfterBundle::NewBundle ==> self.file
                < self.files.len()
        }
        &&& self.stage matches LaneStageView::Entry(_, i) ==> 0 <= i < self.bundle.entries.len()
        &&& self.stage matches LaneStageView::CheckEntry(_, i) ==> 0 <= i
            < self.bundle.entries.len()
        &&& self.stage is StartTask || self.stage is TargetRoot || self.stage is Directories
            ==> self.file == 0
        &&& self.stage is Done ==> self.file == self.files.len() && self.bundle.entries.len() == 0
        &&& self.bundled_files >= 0 && self.direct_files >= 0
        &&& self.bundled_files + self.direct_files + self.bundle.entries.len() == self.file
        &&& 0 <= self.bundle_index <= self.bundled_files + self.direct_files + (
        if self.in_file() || self.stage is Failed {
            1int
        } else {
            0
        })
    }

    /// What follows the bundle that is being sent, if one is.
    pub open spec fn in_bundle(self) -> Option<AfterBundle> {
        match self.stage {
            LaneStageView::Send(a) => Some(a),
            LaneStageView::Entry(a, _) => Some(a),
            LaneStageView::CheckEntry(a, _) => Some(a),
            _ => None,
        }
    }

    pub open spec fn to(self, stage: LaneStageView) -> DualWifiView {
        DualWifiView { stage, ..self }
    }

    pub open spec fn failed(self, m: Seq<char>) -> DualWifiView {
        self.to(LaneStageView::Failed(m))
    }

    /// The same with a new bundle.
    pub open spec fn with_new_bundle(self) -> DualWifiView {
        DualWifiView {
            bundle_index: self.bundle_index + 1,
            bundle: bundle::empty_bundle(self.task_id, (self.bundle_index + 1) as nat),
            ..self
        }
    }

    /// A file is begun by itself.
    pub open spec fn direct(self) -> DualWifiView {
        DualWifiView { chunk: 0, offset: 0, ..self.with_new_bundle() }.to(LaneStageView::Begin)
    }

    /// What becomes of the next file: the bundle is sent before a pause, before a file for which
    /// it has no room, before a file that is sent by itself, and at the end.
    pub open spec fn picked(self, paused: bool) -> DualWifiView {
        let waits = self.bundle.entries.len() > 0;
        if self.file == self.files.len() {
            if waits {
                self.to(LaneStageView::Send(AfterBundle::End))
            } else {
                self.to(LaneStageView::Done)
            }
        } else if paused {
            if waits {
                self.to(LaneStageView::Send(AfterBundle::Pause))
            } else {
                self.failed(wifi_run::pause_text())
            }
        } else if bundle::is_candidate(self.at()) {
            if bundle::has_room(self.bundle, self.at()) {
                self.to(LaneStageView::Load)
            } else {
                self.to(LaneStageView::Send(AfterBundle::NewBundle))
            }
        } else if waits {
            self.to(LaneStageView::Send(AfterBundle::Direct))
        } else {
            self.direct()
        }
    }

    /// All files of the bundle are told of.
    pub open spec fn flushed(self, after: AfterBundle) -> DualWifiView {
        let sent = DualWifiView {
            bundled_files: self.bundled_files + self.bundle.entries.len(),
            bundle: BundleView {
                bundle_id: self.bundle.bundle_id,
                entries: Seq::empty(),
                manifest: Seq::empty(),
                payload: Seq::empty(),
            },
            ..self
        };
        match after {
            AfterBundle::NewBundle => sent.with_new_bundle().to(LaneStageView::Load),
            AfterBundle::Direct => sent.direct(),
            AfterBundle::End => sent.to(LaneStageView::Done),
            AfterBundle::Pause => sent.failed(wifi_run::pause_text()),
        }
    }

    /// Goes on to the next file of the bundle, or past it.
    pub open spec fn next_entry(self, after: AfterBundle, i: int) -> DualWifiView {
        if i + 1 < self.bundle.entries.len() {
            self.to(LaneStageView::Entry(after, i + 1))
        } else {
            self.flushed(after)
        }
    }

    /// Goes on to the next file.
    pub open spec fn next_file(self) -> DualWifiView {
        DualWifiView {
            direct_files: self.direct_files + 1,
            file: self.file + 1,
            stage: LaneStageView::Pick,
            ..self
        }
    }

    /// What was done, in words.
    pub open spec fn summary(self) -> Seq<char> {
        "Wi-Fi lane completed directory_entries="@ + decimal::dec(self.directory_count as nat)
            + ", bundled_files="@ + decimal::dec(self.bundled_files as nat) + ", direct_files="@
            + decimal::dec(self.direct_files as nat)
    }

    /// What to do, or why nothing more is done. A pause takes effect before a file that is sent
    /// by itself and before each of its chunks; [`DualWifiView::picked`] sees to it elsewhere.
    pub open spec fn step(self, paused: bool) -> Result<LaneStepView, Seq<char>> {
        if paused && (self.stage is Begin || self.stage is Chunk) {
            Err(wifi_run::pause_text())
        } else {
            match self.stage {
                LaneStageView::StartTask => Ok(LaneStepView::Ask(AskView::StartTask(self.task_id))),
                LaneStageView::TargetRoot => Ok(
                    LaneStepView::Ask(AskView::SetTargetRoot(self.target_root)),
                ),
                LaneStageView::Directories => Ok(
                    LaneStepView::Ask(
                        AskView::Bundle(self.task_id + "-dirs"@, self.directories, Seq::empty()),
                    ),
                ),
                LaneStageView::Pick => Ok(LaneStepView::Pick),
                LaneStageView::Load => Ok(LaneStepView::Load(self.at())),
                LaneStageView::Send(_) => Ok(
                    LaneStepView::Ask(
                        AskView::Bundle(
                            self.bundle.bundle_id,
                            self.bundle.manifest,
                            self.bundle.payload,
                        ),
                    ),
                ),
                LaneStageView::Entry(_, _) => Ok(LaneStepView::Tell),
                LaneStageView::CheckEntry(_, i) => Ok(
                    LaneStepView::Verify {
                        relative_path: self.bundle.entries[i].relative_path,
                        local_path: self.bundle.entries[i].file.local_path,
                        size_bytes: self.bundle.entries[i].size_bytes,
                    },
                ),
                LaneStageView::Begin => Ok(LaneStepView::Tell),
                LaneStageView::StartFile => Ok(
                    LaneStepView::Ask(AskView::StartFile(self.path(), self.at().size_bytes)),
                ),
                LaneStageView::Chunk => Ok(
                    LaneStepView::Read {
                        local_path: self.at().local_path,
                        length: self.chunk_size,
                    },
                ),
                LaneStageView::Push(_) => Ok(
                    LaneStepView::Push {
                        relative_path: self.path(),
                        chunk_index: self.chunk,
                        offset: self.offset,
                    },
                ),
                LaneStageView::Complete => Ok(
                    LaneStepView::Ask(AskView::CompleteFile(self.path(), self.at().size_bytes)),
                ),
                LaneStageView::Check => Ok(
                    LaneStepView::Verify {
                        relative_path: self.path(),
                        local_path: self.at().local_path,
                        size_bytes: self.at().size_bytes,
                    },
                ),
                LaneStageView::Done => Ok(LaneStepView::Done(self.summary())),
                LaneStageView::Failed(m) => Err(m),
            }
        }
    }

    /// Whether the agent is asked.
    pub open spec fn asks(self) -> bool {
        match self.stage {
            LaneStageView::StartTask => true,
            LaneStageView::TargetRoot => true,
            LaneStageView::Directories => true,
            LaneStageView::Send(_) => true,
            LaneStageView::StartFile => true,
            LaneStageView::Complete => true,
            _ => false,
        }
    }

    /// The agent answered; the status that the answer tells.
    pub open spec fn answered(
        self,
        reply: Result<Seq<char>, Seq<char>>,
        status: Option<Seq<char>>,
    ) -> (DualWifiView, LaneNotesView) {
        match reply {
            Err(m) => (self.failed(m), no_lane_notes()),
            Ok(p) => match self.stage {
                LaneStageView::StartTask => (self.to(LaneStageView::TargetRoot), no_lane_notes()),
                LaneStageView::TargetRoot => (
                    if self.directory_count > 0 {
                        self.to(LaneStageView::Directories)
                    } else {
                        self.to(LaneStageView::Pick)
                    },
                    no_lane_notes(),
                ),
                LaneStageView::Directories => (
                    match wifi_chunk::judged(status, p, seq!["bundle_written"@]) {
                        Ok(_) => self.to(LaneStageView::Pick),
                        Err(m) => self.failed(m),
                    },
                    no_lane_notes(),
                ),
                LaneStageView::Send(after) => (
                    match wifi_chunk::judged(status, p, seq!["bundle_written"@]) {
                        Ok(_) => self.to(LaneStageView::Entry(after, 0)),
                        Err(m) => self.failed(m),
                    },
                    no_lane_notes(),
                ),
                LaneStageView::StartFile => (self.to(LaneStageView::Chunk), no_lane_notes()),
                LaneStageView::Complete => (
                    if self.verify_enabled {
                        self.to(LaneStageView::Check)
                    } else {
                        self.next_file()
                    },
                    LaneNotesView {
                        engine: seq![
                            EngineNote::File {
                                file_index: self.at().file_index as usize,
                                lane: LaneAssignment::Wifi,
                                skipped: false,
                            },
                        ],
                        dual: seq![
                            DualNoteView::Finished {
                                relative_path: self.path(),
                                remote_path: self.target_root,
                                skipped: false,
                            },
                        ],
                    },
                ),
                _ => (self, no_lane_notes()),
            },
        }
    }

    /// The next file was read: it goes into the bundle, unless something is wrong with it.
    pub open spec fn loaded(self, actual_size: u64, modified: u64, bytes: Seq<u8>) -> DualWifiView {
        match bundle::with_file(self.bundle, self.at(), actual_size, modified, bytes) {
            Err(m) => self.failed(m),
            Ok(b) => DualWifiView {
                bundle: b,
                file: self.file + 1,
                stage: LaneStageView::Pick,
                ..self
            },
        }
    }

    /// What is told of a file of the bundle.
    pub open spec fn entry_notes(self, i: int) -> LaneNotesView {
        let e = self.bundle.entries[i];
        LaneNotesView {
            engine: seq![
                EngineNote::Chunk {
                    chunk: ChunkDescriptor {
                        file_index: e.file.file_index as usize,
                        chunk_index: 0,
                        offset: 0,
                        length: e.size_bytes,
                    },
                    lane: LaneAssignment::Wifi,
                    skipped: false,
                },
                EngineNote::File {
                    file_index: e.file.file_index as usize,
                    lane: LaneAssignment::Wifi,
                    skipped: false,
                },
            ],
            dual: seq![
                DualNoteView::Started {
                    size_bytes: e.file.size_bytes,
                    relative_path: e.file.relative_path,
                    remote_path: self.target_root,
                    event: "wifi-bundle-file-started"@,
                },
                DualNoteView::Progress {
                    relative_path: e.relative_path,
                    remote_path: self.target_root,
                    event: "wifi-bundle-file-pushed"@,
                    message: "bundled file committed via "@ + self.bundle.bundle_id,
                    length: e.size_bytes,
                    skipped: false,
                    pushed: true,
                },
                DualNoteView::Finished {
                    relative_path: e.relative_path,
                    remote_path: self.target_root,
                    skipped: false,
                },
            ],
        }
    }

    /// What is told is taken in.
    pub open spec fn told(self) -> (DualWifiView, LaneNotesView) {
        match self.stage {
            LaneStageView::Entry(after, i) => (
                if self.verify_enabled {
                    self.to(LaneStageView::CheckEntry(after, i))
                } else {
                    self.next_entry(after, i)
                },
                self.entry_notes(i),
            ),
            LaneStageView::Begin => (
                self.to(LaneStageView::StartFile),
                LaneNotesView {
                    engine: Seq::empty(),
                    dual: seq![
                        DualNoteView::Started {
                            size_bytes: self.at().size_bytes,
                            relative_path: self.at().relative_path,
                            remote_path: self.target_root,
                            event: "wifi-file-started"@,
                        },
                    ],
                },
            ),
            _ => (self, no_lane_notes()),
        }
    }

    /// So many bytes were read; the file ends where none are left.
    pub open spec fn read(self, n: Result<u64, Seq<char>>) -> DualWifiView {
        match n {
            Err(m) => self.failed(m),
            Ok(n) => if n == 0 && !(self.at().size_bytes == 0 && self.chunk == 0) {
                self.to(LaneStageView::Complete)
            } else {
                self.to(LaneStageView::Push(n))
            },
        }
    }

    /// The bytes were pushed, or were not.
    pub open spec fn pushed(self, outcome: Result<WifiChunkPushOutcome, Seq<char>>) -> (
        DualWifiView,
        LaneNotesView,
    ) {
        match (outcome, self.stage) {
            (Err(m), _) => (self.failed(m), no_lane_notes()),
            (Ok(o), LaneStageView::Push(n)) => (
                DualWifiView {
                    offset: wifi_run::capped(self.offset + n) as u64,
                    chunk: next_index(self.chunk),
                    stage: if n == 0 {
                        LaneStageView::Complete
                    } else {
                        LaneStageView::Chunk
                    },
                    ..self
                },
                LaneNotesView {
                    engine: seq![
                        EngineNote::Chunk {
                            chunk: ChunkDescriptor {
                                file_index: self.at().file_index as usize,
                                chunk_index: self.chunk,
                                offset: self.offset,
                                length: n,
                            },
                            lane: LaneAssignment::Wifi,
                            skipped: false,
                        },
                    ],
                    dual: seq![
                        DualNoteView::Progress {
                            relative_path: self.path(),
                            remote_path: self.target_root,
                            event: wifi_chunk::outcome_event(o),
                            message: wifi_chunk::outcome_text(o, self.chunk),
                            length: n,
                            skipped: false,
                            pushed: true,
                        },
                    ],
                },
            ),
            _ => (self, no_lane_notes()),
        }
    }

    /// A file on the device was checked.
    pub open spec fn verified(self, outcome: Result<(), Seq<char>>) -> DualWifiView {
        match (outcome, self.stage) {
            (Err(m), _) => self.failed(m),
            (Ok(_), LaneStageView::CheckEntry(after, i)) => self.next_entry(after, i),
            (Ok(_), LaneStageView::Check) => self.next_file(),
            _ => self,
        }
    }
}

impl View for DualWifiRun {
    type V = DualWifiView;

    closed spec fn view(&self) -> DualWifiView {
        DualWifiView {
            task_id: self.task_id@,
            target_root: self.target_root@,
            directories: self.directories@,
            directory_count: self.directory_count as int,
            files: manifest::local_views(self.files@),
            chunk_size: self.chunk_size,
            verify_enabled: self.verify_enabled,
            stage: self.stage@,
            file: self.file as int,
            bundle: self.bundle@,
            bundle_index: self.bundle_index as int,
            bundled_files: self.bundled_files as int,
            direct_files: self.direct_files as int,
            chunk: self.chunk,
            offset: self.offset,
        }
    }
}

/// The lane at its start.
pub open spec fn fresh_lane(
    task_id: Seq<char>,
    target_root: Seq<char>,
    directories: Seq<Seq<char>>,
    files: Seq<LocalFileView>,
    chunk_size: u64,
    verify_enabled: bool,
) -> DualWifiView {
    DualWifiView {
        task_id,
        target_root,
        directories: bundle::directory_lines(directories),
        directory_count: bundle::directory_count(directories) as int,
        files,
        chunk_size,
        verify_enabled,
        stage: LaneStageView::StartTask,
        file: 0,
        bundle: bundle::empty_bundle(task_id, 0),
        bundle_index: 0,
        bundled_files: 0,
        direct_files: 0,
        chunk: 0,
        offset: 0,
    }
}

/// The network lane of a transfer over two lanes.
pub fn run_dual_wifi_pc_to_android_files(
    task_id: &str,
    target_root: &str,
    directories: &Vec<LocalTransferDirectory>,
    files: Vec<LocalTransferFile>,
    chunk_size: u64,
    verify_enabled: bool,
) -> (r: DualWifiRun)
    ensures
        r@ == fresh_lane(
            task_id@,
            target_root@,
            manifest::directory_paths(directories@),
            manifest::local_views(files@),
            chunk_size,
            verify_enabled,
        ),
        r@.wf(),
{
    let (lines, count) = bundle::push_directory_bundle(directories);
    DualWifiRun {
        task_id: task_id.to_string(),
        target_root: target_root.to_string(),
        directories: lines,
        directory_count: count,
        files,
        chunk_size,
        verify_enabled,
        stage: LaneStage::StartTask,
        file: 0,
        bundle: bundle::new_small_file_bundle(task_id, 0),
        bundle_index: 0,
        bundled_files: 0,
        direct_files: 0,
        chunk: 0,
        offset: 0,
    }
}

impl DualWifiRun {
    fn path(&self) -> (r: String)
        requires
            self@.file < self@.files.len(),
        ensures
            r@ == self@.path(),
    {
        text::swapped_char(self.files[self.file].relative_path.as_str(), '\\', '/')
    }

    fn summary(&self) -> (r: String)
        ensures
            r@ == self@.summary(),
    {
        let mut s = "Wi-Fi lane completed directory_entries=".to_string();
        s.append(decimal::dec_text(self.directory_count as u128).as_str());
        s.append(", bundled_files=");
        s.append(decimal::dec_text(self.bundled_files as u128).as_str());
        s.append(", direct_files=");
        s.append(decimal::dec_text(self.direct_files as u128).as_str());
        s
    }

    /// What to do, or why nothing more is done.
    pub fn next_step(&self, paused: bool) -> (r: Result<LaneStep, String>)
        requires
            self@.wf(),
        ensures
            match (r, self@.step(paused)) {
                (Ok(a), Ok(b)) => a@ == b,
                (Err(a), Err(b)) => a@ == b,
                _ => false,
            },
    {
        let boundary = match &self.stage {
            LaneStage::Begin => true,
            LaneStage::Chunk => true,
            _ => false,
        };
        if paused && boundary {
            return Err("transfer paused at chunk boundary".to_string());
        }
        match &self.stage {
            LaneStage::StartTask => Ok(LaneStep::Ask(AgentAsk::StartTask(self.task_id.clone()))),
            LaneStage::TargetRoot => Ok(
                LaneStep::Ask(AgentAsk::SetTargetRoot(self.target_root.clone())),
            ),
            LaneStage::Directories => {
                let empty: Vec<u8> = Vec::new();
                assert(empty@ =~= Seq::empty());
                Ok(
                    LaneStep::Ask(
                        AgentAsk::Bundle(
                            checkpoint::about(self.task_id.as_str(), "-dirs"),
                            self.directories.clone(),
                            empty,
                        ),
                    ),
                )
            },
            LaneStage::Pick => Ok(LaneStep::Pick),
            LaneStage::Load => Ok(LaneStep::Load(self.files[self.file].clone())),
            LaneStage::Send(_) => Ok(
                LaneStep::Ask(
                    AgentAsk::Bundle(
                        self.bundle.bundle_id.clone(),
                        self.bundle.manifest.clone(),
                        agent_ask::copy_bytes(&self.bundle.payload),
                    ),
                ),
            ),
            LaneStage::Entry(_, _) => Ok(LaneStep::Tell),
            LaneStage::CheckEntry(_, i) => {
                let e = &self.bundle.entries[*i];
                Ok(
                    LaneStep::Verify {
                        relative_path: e.relative_path.clone(),
                        local_path: e.file.local_path.clone(),
                        size_bytes: e.size_bytes,
                    },
                )
            },
            LaneStage::Begin => Ok(LaneStep::Tell),
            LaneStage::StartFile => Ok(
                LaneStep::Ask(AgentAsk::StartFile(self.path(), self.files[self.file].size_bytes)),
            ),
            LaneStage::Chunk => Ok(
                LaneStep::Read {
                    local_path: self.files[self.file].local_path.clone(),
                    length: self.chunk_size,
                },
            ),
            LaneStage::Push(_) => Ok(
                LaneStep::Push {
                    relative_path: self.path(),
                    chunk_index: self.chunk,
                    offset: self.offset,
                },
            ),
            LaneStage::Complete => Ok(
                LaneStep::Ask(
                    AgentAsk::CompleteFile(self.path(), self.files[self.file].size_bytes),
                ),
            ),
            LaneStage::Check => Ok(
                LaneStep::Verify {
                    relative_path: self.path(),
                    local_path: self.files[self.file].local_path.clone(),
                    size_bytes: self.files[self.file].size_bytes,
                },
            ),
            LaneStage::Done => Ok(LaneStep::Done(self.summary())),
            LaneStage::Failed(m) => Err(m.clone()),
        }
    }

    fn fail(&mut self, m: String)
        ensures
            final(self)@ == old(self)@.failed(m@),
    {
        self.stage = LaneStage::Failed(m);
    }

    fn renew_bundle(&mut self)
        requires
            old(self)@.bundle_index < usize::MAX,
        ensures
            final(self)@ == old(self)@.with_new_bundle(),
    {
        self.bundle_index += 1;
        self.bundle = bundle::new_small_file_bundle(self.task_id.as_str(), self.bundle_index);
    }

    fn begin_direct(&mut self)
        requires
            old(self)@.bundle_index < usize::MAX,
        ensures
            final(self)@ == old(self)@.direct(),
    {
        self.renew_bundle();
        self.chunk = 0;
        self.offset = 0;
        self.stage = LaneStage::Begin;
    }

    /// Decides what becomes of the next file.
    pub fn pick(&mut self, paused: bool)
        requires
            old(self)@.wf(),
            old(self)@.stage is Pick,
        ensures
            final(self)@.wf(),
            final(self)@ == old(self)@.picked(paused),
    {
        let waits = self.bundle.entries.len() > 0;
        assert(self.files.len() <= usize::MAX);
        if self.file == self.files.len() {
            self.stage = if waits {
                LaneStage::Send(AfterBundle::End)
            } else {
                LaneStage::Done
            };
        } else if paused {
            if waits {
                self.stage = LaneStage::Send(AfterBundle::Pause);
            } else {
                self.fail("transfer paused at chunk boundary".to_string());
            }
        } else if bundle::is_small_file_bundle_candidate(&self.files[self.file]) {
            self.stage = if bundle::small_file_bundle_can_accept(
                &self.bundle,
                &self.files[self.file],
            ) {
                LaneStage::Load
            } else {
                LaneStage::Send(AfterBundle::NewBundle)
            };
        } else if waits {
            self.stage = LaneStage::Send(AfterBundle::Direct);
        } else {
            self.begin_direct();
        }
    }

    fn flush(&mut self, after: AfterBundle)
        requires
            0 <= old(self)@.file <= old(self)@.files.len(),
            old(self)@.bundled_files + old(self)@.direct_files + old(self)@.bundle.entries.len()
                == old(self)@.file,
            old(self)@.bundle.entries.len() > 0,
            old(self)@.bundle_index <= old(self)@.bundled_files + old(self)@.direct_files,
        ensures
            final(self)@ == old(self)@.flushed(after),
    {
        assert(self.files.len() <= usize::MAX);
        let count: usize = self.bundle.entries.len();
        self.bundled_files += count;
        self.bundle.entries = Vec::new();
        self.bundle.manifest = String::new();
        self.bundle.payload = Vec::new();
        assert(bundle::entry_views(self.bundle.entries@) =~= Seq::empty());
        assert(self.bundle.manifest@ =~= Seq::empty());
        assert(self.bundle.payload@ =~= Seq::empty());
        match after {
            AfterBundle::NewBundle => {
                self.renew_bundle();
                self.stage = LaneStage::Load;
            },
            AfterBundle::Direct => {
                self.begin_direct();
            },
            AfterBundle::End => {
                self.stage = LaneStage::Done;
            },
            AfterBundle::Pause => {
                self.fail("transfer paused at chunk boundary".to_string());
            },
        }
    }

    fn go_to_next_entry(&mut self, after: AfterBundle, i: usize)
        requires
            i < old(self)@.bundle.entries.len(),
            0 <= old(self)@.file <= old(self)@.files.len(),
            old(self)@.bundled_files + old(self)@.direct_files + old(self)@.bundle.entries.len()
                == old(self)@.file,
            old(self)@.bundle_index <= old(self)@.bundled_files + old(self)@.direct_files,
        ensures
            final(self)@ == old(self)@.next_entry(after, i as int),
    {
        if i + 1 < self.bundle.entries.len() {
            self.stage = LaneStage::Entry(after, i + 1);
        } else {
            self.flush(after);
        }
    }

    fn go_to_next_file(&mut self)
        requires
            old(self)@.file < old(self)@.files.len(),
            old(self)@.direct_files <= old(self)@.file,
        ensures
            final(self)@ == old(self)@.next_file(),
    {
        assert(self.files.len() <= usize::MAX);
        self.direct_files += 1;
        self.file += 1;
        self.stage = LaneStage::Pick;
    }

    /// Takes in an answer, and the status that was read out of it.
    pub fn take_answer(&mut self, reply: &Result<String, String>, status: Option<&str>) -> (r:
        LaneNotes)
        requires
            old(self)@.wf(),
            old(self)@.asks(),
        ensures
            final(self)@.wf(),
            ({
                let after = old(self)@.answered(
                    crate::adb_command::outcome_view(*reply),
                    text::str_view(status),
                );
                final(self)@ == after.0 && r@ == after.1
            }),
    {
        let payload = match reply {
            Err(m) => {
                self.fail(m.clone());
                return silent_lane();
            },
            Ok(p) => p,
        };
        let accepted = ["bundle_written"];
        assert(wifi_chunk::str_views(accepted@) =~= seq!["bundle_written"@]);
        match &self.stage {
            LaneStage::StartTask => {
                self.stage = LaneStage::TargetRoot;
                silent_lane()
            },
            LaneStage::TargetRoot => {
                self.stage = if self.directory_count > 0 {
                    LaneStage::Directories
                } else {
                    LaneStage::Pick
                };
                silent_lane()
            },
            LaneStage::Directories => {
                match wifi_chunk::judge_status(status, payload.as_str(), &accepted) {
                    Ok(_) => {
                        self.stage = LaneStage::Pick;
                    },
                    Err(m) => {
                        self.fail(m);
                    },
                }
                silent_lane()
            },
            LaneStage::Send(after) => {
                let after = *after;
                match wifi_chunk::judge_status(status, payload.as_str(), &accepted) {
                    Ok(_) => {
                        self.stage = LaneStage::Entry(after, 0);
                    },
                    Err(m) => {
                        self.fail(m);
                    },
                }
                silent_lane()
            },
            LaneStage::StartFile => {
                self.stage = LaneStage::Chunk;
                silent_lane()
            },
            LaneStage::Complete => {
                let mut told = silent_lane();
                let path = self.path();
                told.engine.push(
                    EngineNote::File {
                        file_index: self.files[self.file].file_index,
                        lane: LaneAssignment::Wifi,
                        skipped: false,
                    },
                );
                told.dual.push(
                    DualNote::Finished {
                        relative_path: path,
                        remote_path: self.target_root.clone(),
                        skipped: false,
                    },
                );
                assert(told.engine@ =~= old(self)@.answered(
                    crate::adb_command::outcome_view(*reply),
                    text::str_view(status),
                ).1.engine);
                assert(notes::note_views(told.dual@) =~= old(self)@.answered(
                    crate::adb_command::outcome_view(*reply),
                    text::str_view(status),
                ).1.dual);
                if self.verify_enabled {
                    self.stage = LaneStage::Check;
                } else {
                    self.go_to_next_file();
                }
                told
            },
            _ => silent_lane(),
        }
    }

    /// Takes in an answer.
    pub fn answer(&mut self, reply: &Result<String, String>) -> (r: LaneNotes)
        requires
            old(self)@.wf(),
            old(self)@.asks(),
        ensures
            final(self)@.wf(),
            ({
                let told = crate::adb_command::outcome_view(*reply);
                let after = old(self)@.answered(told, wifi_chunk::reply_text(told, "status"@));
                final(self)@ == after.0 && r@ == after.1
            }),
    {
        let status = wifi_run::status_of_reply(reply);
        self.take_answer(reply, text::borrow_opt(&status))
    }

    /// Takes in the next file: its size now, when it was changed and its bytes.
    pub fn take_file(&mut self, actual_size: u64, modified_at_epoch_ms: u64, bytes: &Vec<u8>)
        requires
            old(self)@.wf(),
            old(self)@.stage is Load,
        ensures
            final(self)@.wf(),
            final(self)@ == old(self)@.loaded(actual_size, modified_at_epoch_ms, bytes@),
    {
        assert(self.files.len() <= usize::MAX);
        let file = self.files[self.file].clone();
        match bundle::add_file_to_small_file_bundle(
            &mut self.bundle,
            file,
            actual_size,
            modified_at_epoch_ms,
            bytes,
        ) {
            Err(m) => {
                self.fail(m);
            },
            Ok(_) => {
                self.file += 1;
                self.stage = LaneStage::Pick;
            },
        }
    }

    /// Takes in that the next file could not be read.
    pub fn take_file_problem(&mut self, m: &str)
        requires
            old(self)@.wf(),
            old(self)@.stage is Load,
        ensures
            final(self)@.wf(),
            final(self)@ == old(self)@.failed(m@),
    {
        self.fail(m.to_string());
    }

    fn entry_notes(&self, i: usize) -> (r: LaneNotes)
        requires
            i < self@.bundle.entries.len(),
        ensures
            r@ == self@.entry_notes(i as int),
    {
        let e = &self.bundle.entries[i];
        let mut told = silent_lane();
        told.engine.push(
            EngineNote::Chunk {
                chunk: ChunkDescriptor {
                    file_index: e.file.file_index,
                    chunk_index: 0,
                    offset: 0,
                    length: e.size_bytes,
                },
                lane: LaneAssignment::Wifi,
                skipped: false,
            },
        );
        told.engine.push(
            EngineNote::File {
                file_index: e.file.file_index,
                lane: LaneAssignment::Wifi,
                skipped: false,
            },
        );
        told.dual.push(
            DualNote::Started {
                size_bytes: e.file.size_bytes,
                relative_path: e.file.relative_path.clone(),
                remote_path: self.target_root.clone(),
                event: "wifi-bundle-file-started".to_string(),
            },
        );
        told.dual.push(
            DualNote::Progress {
                relative_path: e.relative_path.clone(),
                remote_path: self.target_root.clone(),
                event: "wifi-bundle-file-pushed".to_string(),
                message: checkpoint::about(
                    "bundled file committed via ",
                    self.bundle.bundle_id.as_str(),
                ),
                length: e.size_bytes,
                skipped: false,
                pushed: true,
            },
        );
        told.dual.push(
            DualNote::Finished {
                relative_path: e.relative_path.clone(),
                remote_path: self.target_root.clone(),
                skipped: false,
            },
        );
        assert(self@.bundle.entries[i as int] == e@);
        let ghost expected = self@.entry_notes(i as int);
        assert(told.engine@ =~= expected.engine);
        assert(notes::note_views(told.dual@) =~= expected.dual);
        told
    }

    /// What is told of a file of the bundle, or of a file that is begun by itself.
    pub fn tell(&mut self) -> (r: LaneNotes)
        requires
            old(self)@.wf(),
            old(self)@.stage is Entry || old(self)@.stage is Begin,
        ensures
            final(self)@.wf(),
            final(self)@ == old(self)@.told().0,
            r@ == old(self)@.told().1,
    {
        match &self.stage {
            LaneStage::Entry(after, i) => {
                let after = *after;
                let i: usize = *i;
                let told = self.entry_notes(i);
                if self.verify_enabled {
                    self.stage = LaneStage::CheckEntry(after, i);
                } else {
                    self.go_to_next_entry(after, i);
                }
                told
            },
            _ => {
                let mut told = silent_lane();
                let f = &self.files[self.file];
                told.dual.push(
                    DualNote::Started {
                        size_bytes: f.size_bytes,
                        relative_path: f.relative_path.clone(),
                        remote_path: self.target_root.clone(),
                        event: "wifi-file-started".to_string(),
                    },
                );
                assert(notes::note_views(told.dual@) =~= old(self)@.told().1.dual);
                self.stage = LaneStage::StartFile;
                told
            },
        }
    }

    /// Takes in how many bytes were read.
    pub fn take_read(&mut self, n: &Result<u64, String>)
        requires
            old(self)@.wf(),
            old(self)@.stage is Chunk,
        ensures
            final(self)@.wf(),
            final(self)@ == old(self)@.read(crate::remote_verify::size_view(*n)),
    {
        match n {
            Err(m) => {
                self.fail(m.clone());
            },
            Ok(n) => {
                if *n == 0 && !(self.files[self.file].size_bytes == 0 && self.chunk == 0) {
                    self.stage = LaneStage::Complete;
                } else {
                    self.stage = LaneStage::Push(*n);
                }
            },
        }
    }

    /// Takes in what became of the push of the bytes.
    pub fn take_push(&mut self, outcome: &Result<WifiChunkPushOutcome, String>) -> (r: LaneNotes)
        requires
            old(self)@.wf(),
            old(self)@.stage is Push,
        ensures
            final(self)@.wf(),
            final(self)@ == old(self)@.pushed(wifi_run::outcome_view(*outcome)).0,
            r@ == old(self)@.pushed(wifi_run::outcome_view(*outcome)).1,
    {
        let o = match outcome {
            Err(m) => {
                self.fail(m.clone());
                return silent_lane();
            },
            Ok(o) => *o,
        };
        let n: u64 = match &self.stage {
            LaneStage::Push(n) => *n,
            _ => 0,
        };
        let mut told = silent_lane();
        told.engine.push(
            EngineNote::Chunk {
                chunk: ChunkDescriptor {
                    file_index: self.files[self.file].file_index,
                    chunk_index: self.chunk,
                    offset: self.offset,
                    length: n,
                },
                lane: LaneAssignment::Wifi,
                skipped: false,
            },
        );
        told.dual.push(
            DualNote::Progress {
                relative_path: self.path(),
                remote_path: self.target_root.clone(),
                event: o.event_name().to_string(),
                message: o.message(self.chunk),
                length: n,
                skipped: false,
                pushed: true,
            },
        );
        let ghost expected = old(self)@.pushed(wifi_run::outcome_view(*outcome)).1;
        assert(told.engine@ =~= expected.engine);
        assert(notes::note_views(told.dual@) =~= expected.dual);
        self.offset = wifi_run::capped_sum(self.offset, n);
        if self.chunk < u32::MAX {
            self.chunk += 1;
        }
        self.stage = if n == 0 {
            LaneStage::Complete
        } else {
            LaneStage::Chunk
        };
        told
    }

    /// Takes in what the check of a file came to.
    pub fn take_verify(&mut self, outcome: &Result<(), String>)
        requires
            old(self)@.wf(),
            old(self)@.stage is CheckEntry || old(self)@.stage is Check,
        ensures
            final(self)@.wf(),
            final(self)@ == old(self)@.verified(wifi_chunk::unit_view(*outcome)),
    {
        match outcome {
            Err(m) => {
                self.fail(m.clone());
            },
            Ok(_) => match &self.stage {
                LaneStage::CheckEntry(after, i) => {
                    let after = *after;
                    let i: usize = *i;
                    self.go_to_next_entry(after, i);
                },
                _ => {
                    self.go_to_next_file();
                },
            },
        }
    }
}

/// A lane that is done has sent every file, in a bundle or by itself, and no bundle waits.
pub proof fn lemma_done_lane_is_complete(v: DualWifiView)
    requires
        v.wf(),
        v.stage is Done,
    ensures
        v.bundled_files + v.direct_files == v.files.len(),
        v.bundle.entries.len() == 0,
{
}

/// A pause never leaves a bundle behind: the bundle is sent first, and its files are told of.
pub proof fn lemma_pause_sends_bundle_first(v: DualWifiView)
    requires
        v.wf(),
        v.stage is Pick,
        v.file < v.files.len(),
    ensures
        v.bundle.entries.len() > 0 ==> v.picked(true).stage == LaneStageView::Send(
            AfterBundle::Pause,
        ),
        v.bundle.entries.len() == 0 ==> v.picked(true).stage == LaneStageView::Failed(
            wifi_run::pause_text(),
        ),
        v.flushed(AfterBundle::Pause).stage == LaneStageView::Failed(wifi_run::pause_text()),
        v.flushed(AfterBundle::Pause).bundled_files == v.bundled_files + v.bundle.entries.len(),
{
}

/// A file that goes into the bundle is one that the bundle has room for: a bundle within its
/// limits stays within them, as long as files have as many bytes as their sizes say.
pub proof fn lemma_lane_bundle_stays_small(
    v: DualWifiView,
    actual_size: u64,
    modified: u64,
    bytes: Seq<u8>,
)
    requires
        v.wf(),
        v.stage is Pick,
        bundle::bundle_wf(v.bundle),
        v.picked(false).stage is Load,
        bytes.len() == actual_size,
    ensures
        bundle::bundle_wf(v.picked(false).loaded(actual_size, modified, bytes).bundle),
{
    bundle::lemma_bundle_stays_small(v.bundle, v.at(), actual_size, modified, bytes);
}

/// Whether two lanes have the same job.
pub open spec fn same_lane(a: DualWifiView, b: DualWifiView) -> bool {
    &&& a.task_id == b.task_id && a.target_root == b.target_root && a.directories == b.directories
    &&& a.directory_count == b.directory_count && a.files == b.files && a.chunk_size
        == b.chunk_size && a.verify_enabled == b.verify_enabled
}

/// What is done next with a file: at the end, before a pause, before a file that the bundle has no room
/// for and before a file that is too large for a bundle, a bundle that holds files is sent first. A
/// small file goes into the bundle, a large one is sent by itself.
pub proof fn lemma_next_file_is_bundled_or_sent(v: DualWifiView)
    requires
        v.wf(),
        v.stage is Pick,
    ensures
        ({
            let u = v.picked(false);
            let waits = v.bundle.entries.len() > 0;
            let send = Ok::<LaneStepView, Seq<char>>(
                LaneStepView::Ask(
                    AskView::Bundle(v.bundle.bundle_id, v.bundle.manifest, v.bundle.payload),
                ),
            );
            &&& v.file == v.files.len() ==> (if waits {
                u.step(false) == send
            } else {
                u.step(false) is Ok && u.stage is Done
            }) && v.picked(true) == u
            &&& v.file < v.files.len() ==> {
                let small = v.files[v.file].size_bytes <= 67108864;
                let room = !waits || v.bundle.entries.len() < 4096 && v.bundle.payload.len()
                    + v.files[v.file].size_bytes <= 67108864;
                &&& small && room ==> u.step(false) == Ok::<LaneStepView, Seq<char>>(
                    LaneStepView::Load(v.files[v.file]),
                ) && u.bundle == v.bundle
                &&& small && !room ==> u.step(false) == send
                &&& !small && waits ==> u.step(false) == send
                &&& !small && !waits ==> u.stage is Begin && u.chunk == 0 && u.offset == 0
                &&& waits ==> v.picked(true).step(false) == send
                &&& !waits ==> v.picked(true).step(false) == Err::<LaneStepView, Seq<char>>(
                    "transfer paused at chunk boundary"@,
                )
            }
            &&& u.file == v.file && u.bundled_files == v.bundled_files && u.direct_files
                == v.direct_files && same_lane(u, v)
        }),
{
}

/// A bundle counts as sent only where the agent tells that it wrote it; what follows is told of each of
/// its files from the first on. Anything else ends the lane, and nobody is told of a file.
pub proof fn lemma_bundle_is_told_of_when_written(
    v: DualWifiView,
    reply: Result<Seq<char>, Seq<char>>,
    status: Option<Seq<char>>,
)
    requires
        v.wf(),
        v.stage is Send,
    ensures
        ({
            let (u, notes) = v.answered(reply, status);
            let taken = reply is Ok && status == Some("bundle_written"@);
            &&& notes.engine.len() == 0
            &&& taken ==> u.stage == LaneStageView::Entry(v.stage->Send_0, 0) && u.bundle
                == v.bundle && u.file == v.file && u.bundled_files == v.bundled_files && same_lane(
                u,
                v,
            )
            &&& !taken ==> u.step(false) is Err
        }),
{
    let accepted = seq!["bundle_written"@];
    assert(accepted.contains("bundle_written"@)) by {
        assert(accepted[0] == "bundle_written"@);
    }
    assert forall|s: Seq<char>| #[trigger] accepted.contains(s) implies s == "bundle_written"@ by {
        let i = choose|i: int| 0 <= i < accepted.len() && accepted[i] == s;
        assert(i == 0);
    }
}

/// Of each file of a bundle that was sent the engine is told, as one chunk with all its bytes and then as
/// done. Where files are to be checked, just this file is checked before the next one is told of, and
/// a check that fails ends the lane. After the last file the bundle is through.
pub proof fn lemma_bundled_file_is_told_of_and_checked(v: DualWifiView, m: Seq<char>)
    requires
        v.wf(),
        v.stage is Entry,
    ensures
        ({
            let after = v.stage->Entry_0;
            let i = v.stage->Entry_1;
            let e = v.bundle.entries[i];
            let (u, notes) = v.told();
            let past = if v.verify_enabled {
                u.verified(Ok(()))
            } else {
                u
            };
            &&& notes.engine.len() == 2
            &&& notes.engine[0] matches EngineNote::Chunk { chunk, lane, skipped }
                && chunk.file_index == e.file.file_index as usize && chunk.chunk_index == 0
                && chunk.offset == 0 && chunk.length == e.size_bytes && lane
                == LaneAssignment::Wifi && !skipped
            &&& notes.engine[1] matches EngineNote::File { file_index, lane, skipped }
                && file_index == e.file.file_index as usize && lane == LaneAssignment::Wifi
                && !skipped
            &&& v.verify_enabled ==> u.step(false) == Ok::<LaneStepView, Seq<char>>(
                LaneStepView::Verify {
                    relative_path: e.relative_path,
                    local_path: e.file.local_path,
                    size_bytes: e.size_bytes,
                },
            ) && u.verified(Err(m)).step(false) == Err::<LaneStepView, Seq<char>>(m)
            &&& i + 1 < v.bundle.entries.len() ==> past.stage == LaneStageView::Entry(after, i + 1)
                && past.bundle == v.bundle && past.bundled_files == v.bundled_files
            &&& i + 1 == v.bundle.entries.len() ==> past.bundled_files == v.bundled_files
                + v.bundle.entries.len() && past.bundle.entries.len() == 0
                && past.bundle.payload.len() == 0 && past.bundle.manifest.len() == 0 && (
            match after {
                AfterBundle::NewBundle => past.step(false) == Ok::<LaneStepView, Seq<char>>(
                    LaneStepView::Load(v.files[v.file]),
                ),
                AfterBundle::Direct => past.stage is Begin && past.chunk == 0 && past.offset == 0,
                AfterBundle::End => past.stage is Done,
                AfterBundle::Pause => past.step(false) == Err::<LaneStepView, Seq<char>>(
                    "transfer paused at chunk boundary"@,
                ),
            })
            &&& past.file == v.file && past.direct_files == v.direct_files && same_lane(past, v)
        }),
{
}

/// A file that is sent by itself is started on the device, read from its start on, and each stretch that
/// was read is pushed behind those before it; the engine is told of just that stretch, under its
/// number, once it was pushed.
pub proof fn lemma_pushed_stretch_is_told_of(
    v: DualWifiView,
    n: u64,
    outcome: WifiChunkPushOutcome,
    m: Seq<char>,
)
    requires
        v.wf(),
        v.stage is Chunk,
        n > 0 || v.files[v.file].size_bytes == 0 && v.chunk == 0,
        v.chunk < u32::MAX,
        v.offset + n <= u64::MAX,
    ensures
        ({
            let file = v.files[v.file];
            let u = v.read(Ok(n));
            let (w, notes) = u.pushed(Ok(outcome));
            &&& v.step(false) == Ok::<LaneStepView, Seq<char>>(
                LaneStepView::Read { local_path: file.local_path, length: v.chunk_size },
            )
            &&& v.step(true) == Err::<LaneStepView, Seq<char>>(
                "transfer paused at chunk boundary"@,
            )
            &&& u.step(true) == Ok::<LaneStepView, Seq<char>>(
                LaneStepView::Push {
                    relative_path: text::swap_char(file.relative_path, '\\', '/'),
                    chunk_index: v.chunk,
                    offset: v.offset,
                },
            )
            &&& notes.engine.len() == 1 && (notes.engine[0] matches EngineNote::Chunk {
                chunk,
                lane,
                skipped,
            } && chunk.file_index == file.file_index as usize && chunk.chunk_index == v.chunk
                && chunk.offset == v.offset && chunk.length == n && lane == LaneAssignment::Wifi
                && !skipped)
            &&& w.chunk == v.chunk + 1 && w.offset == v.offset + n && w.file == v.file
                && w.direct_files == v.direct_files && w.bundled_files == v.bundled_files
                && same_lane(w, v)
            &&& n > 0 ==> w.stage is Chunk
            &&& n == 0 ==> w.stage is Complete
            &&& v.read(Err(m)).step(false) == Err::<LaneStepView, Seq<char>>(m)
            &&& u.pushed(Err(m)).0.step(false) == Err::<LaneStepView, Seq<char>>(m) && u.pushed(
                Err(m),
            ).1.engine.len() == 0
        }),
{
}

/// A file whose bytes are all read is told to be complete; only then the engine is told that it is done,
/// and where files are to be checked the lane goes on to the next file only after the check.
pub proof fn lemma_direct_file_is_finished_after_its_check(
    v: DualWifiView,
    p: Seq<char>,
    status: Option<Seq<char>>,
    m: Seq<char>,
)
    requires
        v.wf(),
        v.in_file(),
    ensures
        ({
            let file = v.files[v.file];
            let path = text::swap_char(file.relative_path, '\\', '/');
            let (u, notes) = v.answered(Ok(p), status);
            let past = if v.verify_enabled {
                u.verified(Ok(()))
            } else {
                u
            };
            &&& v.stage is Begin ==> v.told().1.engine.len() == 0 && v.told().0.step(false) == Ok::<
                LaneStepView,
                Seq<char>,
            >(LaneStepView::Ask(AskView::StartFile(path, file.size_bytes)))
            &&& v.stage is StartFile ==> u.stage is Chunk && u.file == v.file && u.chunk == v.chunk
                && u.offset == v.offset && notes.engine.len() == 0
            &&& v.stage is Chunk && !(file.size_bytes == 0 && v.chunk == 0) ==> v.read(
                Ok(0),
            ).step(false) == Ok::<LaneStepView, Seq<char>>(
                LaneStepView::Ask(AskView::CompleteFile(path, file.size_bytes)),
            )
            &&& v.stage is Complete ==> {
                &&& notes.engine.len() == 1 && (notes.engine[0] matches EngineNote::File {
                    file_index,
                    lane,
                    skipped,
                } && file_index == file.file_index as usize && lane == LaneAssignment::Wifi
                    && !skipped)
                &&& v.verify_enabled ==> u.file == v.file && u.direct_files == v.direct_files
                    && u.step(false) == Ok::<LaneStepView, Seq<char>>(
                    LaneStepView::Verify {
                        relative_path: path,
                        local_path: file.local_path,
                        size_bytes: file.size_bytes,
                    },
                ) && u.verified(Err(m)).step(false) == Err::<LaneStepView, Seq<char>>(m)
                &&& past.stage is Pick && past.file == v.file + 1 && past.direct_files
                    == v.direct_files + 1 && past.bundled_files == v.bundled_files && same_lane(
                    past,
                    v,
                )
            }
        }),
{
}

/// A small file goes into the bundle with the bytes that were read of it, and the lane goes on to the
/// next file; one with an unsafe path, or whose size changed, ends the lane.
pub proof fn lemma_loaded_file_joins_the_bundle(
    v: DualWifiView,
    actual_size: u64,
    modified: u64,
    bytes: Seq<u8>,
)
    requires
        v.wf(),
        v.stage is Load,
    ensures
        ({
            let file = v.files[v.file];
            let u = v.loaded(actual_size, modified, bytes);
            let fine = paths::agent_path(file.relative_path).len() > 0 && actual_size
                == file.size_bytes;
            &&& fine ==> u.stage is Pick && u.file == v.file + 1 && u.bundle.payload
                == v.bundle.payload + bytes && u.bundle.entries.len() == v.bundle.entries.len() + 1
                && u.bundle.entries.last().file == file && u.bundle.bundle_id == v.bundle.bundle_id
                && u.bundled_files == v.bundled_files && u.direct_files == v.direct_files
                && same_lane(u, v)
            &&& !fine ==> u.step(false) is Err
        }),
{
    bundle::lemma_file_is_added_behind_the_others(
        v.bundle,
        v.files[v.file],
        actual_size,
        modified,
        bytes,
    );
}

/// A lane starts the task, takes the target root, makes the directories if there are any, and starts with
/// the first file; directories that were not written end it.
pub proof fn lemma_lane_starts_in_order(
    v: DualWifiView,
    p: Seq<char>,
    status: Option<Seq<char>>,
    m: Seq<char>,
)
    requires
        v.wf(),
    ensures
        v.stage is StartTask ==> v.step(false) == Ok::<LaneStepView, Seq<char>>(
            LaneStepView::Ask(AskView::StartTask(v.task_id)),
        ) && v.answered(Ok(p), status).0.step(false) == Ok::<LaneStepView, Seq<char>>(
            LaneStepView::Ask(AskView::SetTargetRoot(v.target_root)),
        ),
        v.stage is TargetRoot && v.directory_count > 0 ==> v.answered(Ok(p), status).0.step(false)
            == Ok::<LaneStepView, Seq<char>>(
            LaneStepView::Ask(
                AskView::Bundle(v.task_id + "-dirs"@, v.directories, Seq::empty()),
            ),
        ),
        v.stage is TargetRoot && v.directory_count <= 0 ==> v.answered(Ok(p), status).0.stage
            is Pick,
        v.stage is Directories && status == Some("bundle_written"@) ==> v.answered(
            Ok(p),
            status,
        ).0.stage is Pick,
        v.stage is Directories && status != Some("bundle_written"@) ==> v.answered(
            Ok(p),
            status,
        ).0.step(false) is Err,
        v.asks() ==> v.answered(Err(m), status).0.step(false) == Err::<LaneStepView, Seq<char>>(m)
            && v.answered(Err(m), status).1.engine.len() == 0,
{
    let accepted = seq!["bundle_written"@];
    assert(accepted.contains("bundle_written"@)) by {
        assert(accepted[0] == "bundle_written"@);
    }
    assert forall|s: Seq<char>| #[trigger] accepted.contains(s) implies s == "bundle_written"@ by {
        let i = choose|i: int| 0 <= i < accepted.len() && accepted[i] == s;
        assert(i == 0);
    }
}

/// A lane starts with its first file, an empty bundle of its own task and nothing counted.
pub proof fn lemma_lane_starts_with_nothing_sent(
    task_id: Seq<char>,
    target_root: Seq<char>,
    directories: Seq<Seq<char>>,
    files: Seq<LocalFileView>,
    chunk_size: u64,
    verify_enabled: bool,
)
    ensures
        ({
            let v = fresh_lane(
                task_id,
                target_root,
                directories,
                files,
                chunk_size,
                verify_enabled,
            );
            &&& v.step(false) == Ok::<LaneStepView, Seq<char>>(
                LaneStepView::Ask(AskView::StartTask(task_id)),
            )
            &&& v.task_id == task_id && v.target_root == target_root && v.files == files
            &&& v.chunk_size == chunk_size && v.verify_enabled == verify_enabled
            &&& v.directories == bundle::directory_lines(directories)
            &&& v.directory_count == bundle::directory_count(directories)
            &&& v.file == 0 && v.chunk == 0 && v.offset == 0
            &&& v.bundled_files == 0 && v.direct_files == 0
            &&& v.bundle.entries.len() == 0 && v.bundle.payload.len() == 0
        }),
{
}

/// Whether a note adds so many bytes of a file to what was pushed.
pub open spec fn counts_bytes(note: DualNoteView, path: Seq<char>, length: u64) -> bool {
    note matches DualNoteView::Progress { relative_path, length: n, skipped, pushed, .. }
        && relative_path == path && n == length && pushed && !skipped
}

/// Whether a note adds a file to those that were pushed.
pub open spec fn counts_file(note: DualNoteView, path: Seq<char>) -> bool {
    note matches DualNoteView::Finished { relative_path, skipped, .. } && relative_path == path
        && !skipped
}

/// Whether a note starts a file of a size.
pub open spec fn counts_start(note: DualNoteView, path: Seq<char>, size: u64) -> bool {
    note matches DualNoteView::Started { relative_path, size_bytes, .. } && relative_path == path
        && size_bytes == size
}

/// What is shown goes along with what the engine is told: a bundled file is started, counted with
/// its bytes and finished, a file that is sent by itself is started before its first stretch, and
/// each stretch is counted with just its bytes. A stretch that failed counts nothing.
pub proof fn lemma_what_is_shown_goes_along(
    v: DualWifiView,
    outcome: Result<WifiChunkPushOutcome, Seq<char>>,
)
    requires
        v.wf(),
    ensures
        v.stage matches LaneStageView::Entry(_, i) ==> {
            let d = v.told().1.dual;
            let e = v.bundle.entries[i];
            &&& d.len() == 3
            &&& counts_start(d[0], e.file.relative_path, e.file.size_bytes)
            &&& counts_bytes(d[1], e.relative_path, e.size_bytes)
            &&& counts_file(d[2], e.relative_path)
        },
        v.stage is Begin ==> {
            let d = v.told().1.dual;
            &&& d.len() == 1
            &&& counts_start(d[0], v.files[v.file].relative_path, v.files[v.file].size_bytes)
            &&& v.told().1.engine.len() == 0
        },
        v.stage matches LaneStageView::Push(n) ==> (outcome is Ok ==> {
            let d = v.pushed(outcome).1.dual;
            &&& d.len() == 1
            &&& counts_bytes(d[0], v.path(), n)
        }),
        outcome is Err ==> v.pushed(outcome).1.dual.len() == 0,
{
}

} // verus!
