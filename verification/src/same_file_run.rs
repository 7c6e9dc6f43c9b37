//! Sending large files over two lanes at once: what to do next, and what is told of the progress.

use crate::adb_command;
use crate::agent_ask::{AgentAsk, AskView};
use crate::cards::{DualNote, DualNoteView};
use crate::checkpoint;
use crate::checkpoint::{CheckpointEntry, CheckpointEntryView};
use crate::decimal;
use crate::dual_wifi_run;
use crate::dual_wifi_run::{LaneNotes, LaneNotesView};
use crate::json;
use crate::manifest;
use crate::manifest::{LocalFileView, LocalTransferFile};
use crate::models;
use crate::notes;
use crate::notes::EngineNote;
use crate::paths;
use crate::remote_verify;
use crate::same_file;
use crate::same_file::{LanePlanView, LaneRates, LaneRatesView, SameFileLanePlan};
use crate::scheduler::LaneAssignment;
use crate::sizing;
use crate::text;
use crate::wifi_chunk;
use crate::wifi_run;
use vstd::prelude::*;

verus! {

/// Where a run stands.
#[derive(Debug)]
pub enum SharedStage {
    StartTask,
    TargetRoot,
    /// How the lanes share the files is to be planned.
    Plan,
    RestartTask,
    ResetTargetRoot,
    /// The next file is to be taken up.
    Pick,
    /// A file is to be told of.
    Begin,
    StartFile,
    /// What an earlier transfer left is to be removed.
    Clear,
    /// It is to be found out what of an earlier transfer can be kept.
    Resume,
    /// The lanes are to carry the file over.
    Lanes,
    /// What is done next is to be told.
    Finalizing,
    Complete,
    /// What is done next is to be told.
    Sizing,
    /// The file on the device is waited for.
    Size,
    /// What is done next is to be told.
    Verifying,
    Verify,
    /// That the file is done is to be told.
    Finish,
    Done,
    Failed(String),
}

pub enum SharedStageView {
    StartTask,
    TargetRoot,
    Plan,
    RestartTask,
    ResetTargetRoot,
    Pick,
    Begin,
    StartFile,
    Clear,
    Resume,
    Lanes,
    Finalizing,
    Complete,
    Sizing,
    Size,
    Verifying,
    Verify,
    Finish,
    Done,
    Failed(Seq<char>),
}

impl View for SharedStage {
    type V = SharedStageView;

    open spec fn view(&self) -> SharedStageView {
        match self {
            SharedStage::StartTask => SharedStageView::StartTask,
            SharedStage::TargetRoot => SharedStageView::TargetRoot,
            SharedStage::Plan => SharedStageView::Plan,
            SharedStage::RestartTask => SharedStageView::RestartTask,
            SharedStage::ResetTargetRoot => SharedStageView::ResetTargetRoot,
            SharedStage::Pick => SharedStageView::Pick,
            SharedStage::Begin => SharedStageView::Begin,
            SharedStage::StartFile => SharedStageView::StartFile,
            SharedStage::Clear => SharedStageView::Clear,
            SharedStage::Resume => SharedStageView::Resume,
            SharedStage::Lanes => SharedStageView::Lanes,
            SharedStage::Finalizing => SharedStageView::Finalizing,
            SharedStage::Complete => SharedStageView::Complete,
            SharedStage::Sizing => SharedStageView::Sizing,
            SharedStage::Size => SharedStageView::Size,
            SharedStage::Verifying => SharedStageView::Verifying,
            SharedStage::Verify => SharedStageView::Verify,
            SharedStage::Finish => SharedStageView::Finish,
            SharedStage::Done => SharedStageView::Done,
            SharedStage::Failed(m) => SharedStageView::Failed(m@),
        }
    }
}

/// What both lanes need to know of the file that they share.
#[derive(Debug)]
pub struct SharedFile {
    pub file: LocalTransferFile,
    pub relative_path: String,
    pub remote_temp_file: String,
    pub chunk_size: u64,
    pub total_chunks: u32,
    pub wifi_stride: u32,
    pub wifi_batch_chunks: usize,
    /// The chunks that are completed.
    pub completed: Vec<u32>,
}

pub struct SharedFileView {
    pub file: LocalFileView,
    pub relative_path: Seq<char>,
    pub remote_temp_file: Seq<char>,
    pub chunk_size: u64,
    pub total_chunks: u32,
    pub wifi_stride: u32,
    pub wifi_batch_chunks: int,
    pub completed: Seq<u32>,
}

impl View for SharedFile {
    type V = SharedFileView;

    open spec fn view(&self) -> SharedFileView {
        SharedFileView {
            file: self.file@,
            relative_path: self.relative_path@,
            remote_temp_file: self.remote_temp_file@,
            chunk_size: self.chunk_size,
            total_chunks: self.total_chunks,
            wifi_stride: self.wifi_stride,
            wifi_batch_chunks: self.wifi_batch_chunks as int,
            completed: self.completed@,
        }
    }
}

/// What to do.
#[derive(Debug)]
pub enum SharedStep {
    /// Ask the agent.
    Ask(AgentAsk),
    /// Read the settings, and try the lanes out on the first file below the root, if there is one
    /// and nothing is set.
    Plan { first: Option<LocalTransferFile>, target_root: String },
    /// Let the next file be taken up.
    Pick,
    /// Take in what is told.
    Tell,
    /// Remove both files on the device, whether they are there or not.
    Remove { temp_file: String, final_file: String },
    /// Find out which of the completed chunks can be kept.
    Resume(SharedFile),
    /// Let both lanes carry the file over.
    Lanes(SharedFile),
    /// Wait for the file on the device to get its size.
    WaitSize { relative_path: String, expected_size: u64 },
    /// Check the file on the device against the local one.
    Verify { relative_path: String, local_path: String, size_bytes: u64 },
    /// Nothing; the text says what was done.
    Done(String),
}

pub enum SharedStepView {
    Ask(AskView),
    Plan { first: Option<LocalFileView>, target_root: Seq<char> },
    Pick,
    Tell,
    Remove { temp_file: Seq<char>, final_file: Seq<char> },
    Resume(SharedFileView),
    Lanes(SharedFileView),
    WaitSize { relative_path: Seq<char>, expected_size: u64 },
    Verify { relative_path: Seq<char>, local_path: Seq<char>, size_bytes: u64 },
    Done(Seq<char>),
}

impl View for SharedStep {
    type V = SharedStepView;

    open spec fn view(&self) -> SharedStepView {
        match self {
            SharedStep::Ask(a) => SharedStepView::Ask(a@),
            SharedStep::Plan { first, target_root } => SharedStepView::Plan {
                first: match first {
                    Some(f) => Some(f@),
                    None => None,
                },
                target_root: target_root@,
            },
            SharedStep::Pick => SharedStepView::Pick,
            SharedStep::Tell => SharedStepView::Tell,
            SharedStep::Remove { temp_file, final_file } => SharedStepView::Remove {
                temp_file: temp_file@,
                final_file: final_file@,
            },
            SharedStep::Resume(f) => SharedStepView::Resume(f@),
            SharedStep::Lanes(f) => SharedStepView::Lanes(f@),
            SharedStep::WaitSize { relative_path, expected_size } => SharedStepView::WaitSize {
                relative_path: relative_path@,
                expected_size: *expected_size,
            },
            SharedStep::Verify { relative_path, local_path, size_bytes } => SharedStepView::Verify {
                relative_path: relative_path@,
                local_path: local_path@,
                size_bytes: *size_bytes,
            },
            SharedStep::Done(m) => SharedStepView::Done(m@),
        }
    }
}

/// A transfer of large files over two lanes under way.
#[derive(Debug)]
pub struct SharedRun {
    task_id: String,
    target_root: String,
    resolved_root: String,
    files: Vec<LocalTransferFile>,
    completed: Vec<Vec<u32>>,
    chunk_size: u64,
    verify_enabled: bool,
    plan: SameFileLanePlan,
    stage: SharedStage,
    file: usize,
    kept: Vec<u32>,
}

pub struct SharedView {
    pub task_id: Seq<char>,
    pub target_root: Seq<char>,
    /// The root that the agent resolved the target root to.
    pub resolved_root: Seq<char>,
    pub files: Seq<LocalFileView>,
    /// The completed chunks of each file.
    pub completed: Seq<Seq<u32>>,
    pub chunk_size: u64,
    pub verify_enabled: bool,
    pub plan: LanePlanView,
    pub stage: SharedStageView,
    pub file: int,
    /// The completed chunks of the file at hand that are kept.
    pub kept: Seq<u32>,
}

impl View for SharedRun {
    type V = SharedView;

    closed spec fn view(&self) -> SharedView {
        SharedView {
            task_id: self.task_id@,
            target_root: self.target_root@,
            resolved_root: self.resolved_root@,
            files: manifest::local_views(self.files@),
            completed: wifi_run::chunk_lists(self.completed@),
            chunk_size: self.chunk_size,
            verify_enabled: self.verify_enabled,
            plan: self.plan@,
            stage: self.stage@,
            file: self.file as int,
            kept: self.kept@,
        }
    }
}

impl SharedView {
    /// Whether a file is at hand.
    pub open spec fn in_file(self) -> bool {
        match self.stage {
            SharedStageView::StartTask => false,
            SharedStageView::TargetRoot => false,
            SharedStageView::Plan => false,
            SharedStageView::RestartTask => false,
            SharedStageView::ResetTargetRoot => false,
            SharedStageView::Pick => false,
            SharedStageView::Done => false,
            SharedStageView::Failed(_) => false,
            _ => true,
        }
    }

    pub open spec fn wf(self) -> bool {
        &&& 0 <= self.file <= self.files.len()
        &&& self.completed.len() == self.files.len()
        &&& self.in_file() ==> self.file < self.files.len()
        &&& self.stage is Done ==> self.file == self.files.len()
    }

    pub open spec fn at(self) -> LocalFileView {
        self.files[self.file]
    }

    /// The path of the file at hand as the agent is told it.
    pub open spec fn path(self) -> Seq<char> {
        paths::agent_path(self.at().relative_path)
    }

    /// Where the file at hand is put together on the device.
    pub open spec fn temp_file(self) -> Seq<char> {
        adb_command::joined_path(self.resolved_root, self.path() + ".nekotrans-tmp"@)
    }

    /// Where the file at hand stands on the device in the end.
    pub open spec fn final_file(self) -> Seq<char> {
        adb_command::joined_path(self.resolved_root, self.path())
    }

    /// What both lanes need to know of the file at hand.
    pub open spec fn shared(self, completed: Seq<u32>) -> SharedFileView {
        let size = self.at().size_bytes;
        let chunk_size = sizing::shared_chunk_size(size, self.chunk_size) as u64;
        SharedFileView {
            file: self.at(),
            relative_path: self.path(),
            remote_temp_file: self.temp_file(),
            chunk_size,
            total_chunks: sizing::told_count(size, chunk_size),
            wifi_stride: self.plan.wifi_stride,
            wifi_batch_chunks: self.plan.wifi_batch_chunks,
            completed,
        }
    }

    pub open spec fn to(self, stage: SharedStageView) -> SharedView {
        SharedView { stage, ..self }
    }

    pub open spec fn failed(self, m: Seq<char>) -> SharedView {
        self.to(SharedStageView::Failed(m))
    }

    /// What to do, or why nothing more is done.
    pub open spec fn step(self) -> Result<SharedStepView, Seq<char>> {
        match self.stage {
            SharedStageView::StartTask => Ok(SharedStepView::Ask(AskView::StartTask(self.task_id))),
            SharedStageView::TargetRoot => Ok(
                SharedStepView::Ask(AskView::SetTargetRoot(self.target_root)),
            ),
            SharedStageView::Plan => Ok(
                SharedStepView::Plan {
                    first: if self.files.len() > 0 {
                        Some(self.files[0])
                    } else {
                        None
                    },
                    target_root: self.resolved_root,
                },
            ),
            SharedStageView::RestartTask => Ok(
                SharedStepView::Ask(AskView::StartTask(self.task_id)),
            ),
            SharedStageView::ResetTargetRoot => Ok(
                SharedStepView::Ask(AskView::SetTargetRoot(self.resolved_root)),
            ),
            SharedStageView::Pick => Ok(SharedStepView::Pick),
            SharedStageView::StartFile => Ok(
                SharedStepView::Ask(AskView::StartFile(self.path(), self.at().size_bytes)),
            ),
            SharedStageView::Clear => Ok(
                SharedStepView::Remove {
                    temp_file: self.temp_file(),
                    final_file: self.final_file(),
                },
            ),
            SharedStageView::Resume => Ok(
                SharedStepView::Resume(self.shared(self.completed[self.file])),
            ),
            SharedStageView::Lanes => Ok(SharedStepView::Lanes(self.shared(self.kept))),
            SharedStageView::Complete => Ok(
                SharedStepView::Ask(AskView::CompleteFile(self.path(), self.at().size_bytes)),
            ),
            SharedStageView::Size => Ok(
                SharedStepView::WaitSize {
                    relative_path: self.path(),
                    expected_size: self.at().size_bytes,
                },
            ),
            SharedStageView::Verify => Ok(
                SharedStepView::Verify {
                    relative_path: self.path(),
                    local_path: self.at().local_path,
                    size_bytes: self.at().size_bytes,
                },
            ),
            SharedStageView::Done => Ok(
                SharedStepView::Done(
                    "same-file Dual completed "@ + decimal::dec(self.files.len())
                        + " large file(s); "@ + same_file::plan_text(self.plan),
                ),
            ),
            SharedStageView::Failed(m) => Err(m),
            _ => Ok(SharedStepView::Tell),
        }
    }

    /// Whether the agent is asked.
    pub open spec fn asks(self) -> bool {
        match self.stage {
            SharedStageView::StartTask => true,
            SharedStageView::TargetRoot => true,
            SharedStageView::RestartTask => true,
            SharedStageView::ResetTargetRoot => true,
            SharedStageView::StartFile => true,
            SharedStageView::Complete => true,
            _ => false,
        }
    }

    /// The agent answered; the root that the answer tells.
    pub open spec fn answered(
        self,
        reply: Result<Seq<char>, Seq<char>>,
        root: Option<Seq<char>>,
    ) -> SharedView {
        match reply {
            Err(m) => self.failed(m),
            Ok(_) => match self.stage {
                SharedStageView::StartTask => self.to(SharedStageView::TargetRoot),
                SharedStageView::TargetRoot => SharedView {
                    resolved_root: text::or_else(root, self.target_root),
                    stage: SharedStageView::Plan,
                    ..self
                },
                SharedStageView::RestartTask => self.to(SharedStageView::ResetTargetRoot),
                SharedStageView::ResetTargetRoot => self.to(SharedStageView::Pick),
                SharedStageView::StartFile => if self.completed[self.file].len() == 0 {
                    self.to(SharedStageView::Clear)
                } else {
                    self.to(SharedStageView::Resume)
                },
                SharedStageView::Complete => self.to(SharedStageView::Sizing),
                _ => self,
            },
        }
    }

    /// The lanes are planned: by a setting, by a trial, or without either.
    pub open spec fn planned(
        self,
        configured: Option<u32>,
        batch: int,
        trial: Result<(u32, LaneRatesView), Seq<char>>,
    ) -> SharedView {
        SharedView {
            plan: if self.files.len() == 0 {
                LanePlanView {
                    wifi_stride: 4,
                    wifi_batch_chunks: batch,
                    source: "no same-file payload"@,
                    rates: None,
                }
            } else {
                same_file::lane_plan(configured, batch, trial)
            },
            stage: SharedStageView::RestartTask,
            ..self
        }
    }

    /// The next file is taken up, unless a pause was asked for or its path is not safe.
    pub open spec fn picked(self, paused: bool) -> SharedView {
        if self.file == self.files.len() {
            self.to(SharedStageView::Done)
        } else if paused {
            self.failed(wifi_run::pause_text())
        } else if self.path().len() == 0 {
            self.failed("same-file Dual relative path is not safe: "@ + self.at().relative_path)
        } else {
            self.to(SharedStageView::Begin)
        }
    }

    /// Whether something is told.
    pub open spec fn tells(self) -> bool {
        match self.stage {
            SharedStageView::Begin => true,
            SharedStageView::Finalizing => true,
            SharedStageView::Sizing => true,
            SharedStageView::Verifying => true,
            SharedStageView::Finish => true,
            _ => false,
        }
    }

    /// What is told is taken in.
    pub open spec fn told(self) -> (SharedView, LaneNotesView) {
        let stage_note = |event: Seq<char>, message: Seq<char>|
            LaneNotesView {
                engine: Seq::empty(),
                dual: seq![DualNoteView::Stage { event, message }],
            };
        match self.stage {
            SharedStageView::Begin => (
                self.to(SharedStageView::StartFile),
                LaneNotesView {
                    engine: Seq::empty(),
                    dual: seq![
                        DualNoteView::Started {
                            size_bytes: self.at().size_bytes,
                            relative_path: self.at().relative_path,
                            remote_path: self.temp_file(),
                            event: "dual-same-file-started"@,
                        },
                    ],
                },
            ),
            SharedStageView::Finalizing => (
                self.to(SharedStageView::Complete),
                stage_note("dual-finalizing"@, "正在让手机端合并临时文件"@),
            ),
            SharedStageView::Sizing => (
                self.to(SharedStageView::Size),
                stage_note("dual-remote-stat"@, "正在读取手机端文件大小"@),
            ),
            SharedStageView::Verifying => (
                self.to(SharedStageView::Verify),
                stage_note("dual-remote-verify"@, "正在快速校验手机端目标文件"@),
            ),
            SharedStageView::Finish => (
                SharedView { file: self.file + 1, stage: SharedStageView::Pick, ..self },
                LaneNotesView {
                    engine: seq![
                        EngineNote::File {
                            file_index: self.at().file_index as usize,
                            lane: LaneAssignment::Wifi,
                            skipped: false,
                        },
                    ],
                    dual: seq![
                        DualNoteView::Finished {
                            relative_path: self.path(),
                            remote_path: self.temp_file(),
                            skipped: false,
                        },
                    ],
                },
            ),
            _ => (self, dual_wifi_run::no_lane_notes()),
        }
    }

    /// What an earlier transfer left was removed, or was not there.
    pub open spec fn cleared(self) -> SharedView {
        self.to(SharedStageView::Resume)
    }

    /// Which completed chunks are kept.
    pub open spec fn resumed(self, kept: Result<Seq<u32>, Seq<char>>) -> SharedView {
        match kept {
            Err(m) => self.failed(m),
            Ok(k) => SharedView { kept: k, stage: SharedStageView::Lanes, ..self },
        }
    }

    /// Both lanes ended; a complaint of the ADB lane comes first.
    pub open spec fn carried(
        self,
        adb: Result<(), Seq<char>>,
        wifi: Result<(), Seq<char>>,
    ) -> SharedView {
        match (adb, wifi) {
            (Err(m), _) => self.failed(m),
            (_, Err(m)) => self.failed(m),
            _ => self.to(SharedStageView::Finalizing),
        }
    }

    /// The size of the file on the device.
    pub open spec fn sized(self, size: Result<u64, Seq<char>>) -> SharedView {
        match size {
            Err(m) => self.failed(m),
            Ok(n) => if n != self.at().size_bytes {
                self.failed(
                    "same-file Dual size mismatch for "@ + self.path() + ": local="@ + decimal::dec(
                        self.at().size_bytes as nat,
                    ) + " remote="@ + decimal::dec(n as nat),
                )
            } else if self.verify_enabled {
                self.to(SharedStageView::Verifying)
            } else {
                self.to(SharedStageView::Finish)
            },
        }
    }

    /// The file on the device was checked.
    pub open spec fn verified(self, outcome: Result<(), Seq<char>>) -> SharedView {
        match outcome {
            Err(m) => self.failed(
                "same-file Dual verify failed for "@ + self.path() + ": "@ + m,
            ),
            Ok(_) => self.to(SharedStageView::Finish),
        }
    }
}

/// The completed chunks of files, by their places among all files.
pub open spec fn completed_by_place(
    checkpoint: Option<CheckpointEntryView>,
    files: Seq<LocalFileView>,
) -> Seq<Seq<u32>> {
    files.map_values(|f: LocalFileView| wifi_run::completed_of(checkpoint, f.file_index))
}

/// A run at its start.
pub open spec fn fresh_shared(
    task_id: Seq<char>,
    target_root: Seq<char>,
    files: Seq<LocalFileView>,
    checkpoint: Option<CheckpointEntryView>,
    chunk_size: u64,
    verify_enabled: bool,
) -> SharedView {
    SharedView {
        task_id,
        target_root,
        resolved_root: target_root,
        files,
        completed: completed_by_place(checkpoint, files),
        chunk_size,
        verify_enabled,
        plan: LanePlanView {
            wifi_stride: 4,
            wifi_batch_chunks: 4,
            source: "no same-file payload"@,
            rates: None,
        },
        stage: SharedStageView::StartTask,
        file: 0,
        kept: Seq::empty(),
    }
}

/// A transfer of large files over two lanes at once. What a checkpoint has as completed is looked
/// at and not sent again.
pub fn run_dual_same_file_pc_to_android_files(
    task_id: &str,
    target_root: &str,
    files: Vec<LocalTransferFile>,
    checkpoint: Option<&CheckpointEntry>,
    chunk_size: u64,
    verify_enabled: bool,
) -> (r: SharedRun)
    ensures
        r@ == fresh_shared(
            task_id@,
            target_root@,
            manifest::local_views(files@),
            wifi_run::entry_view(checkpoint),
            chunk_size,
            verify_enabled,
        ),
        r@.wf(),
{
    let ghost views = manifest::local_views(files@);
    let ghost entry = wifi_run::entry_view(checkpoint);
    let mut completed: Vec<Vec<u32>> = Vec::new();
    let mut i: usize = 0;
    while i < files.len()
        invariant
            i <= files.len(),
            views == manifest::local_views(files@),
            entry == wifi_run::entry_view(checkpoint),
            completed@.len() == i,
            forall|k: int|
                0 <= k < i ==> (#[trigger] completed@[k])@ == wifi_run::completed_of(
                    entry,
                    views[k].file_index,
                ),
        decreases files.len() - i,
    {
        completed.push(wifi_run::completed_chunks_for_file(checkpoint, files[i].file_index));
        i += 1;
    }
    assert(wifi_run::chunk_lists(completed@) =~= completed_by_place(entry, views));
    let kept: Vec<u32> = Vec::new();
    assert(kept@ =~= Seq::empty());
    SharedRun {
        task_id: task_id.to_string(),
        target_root: target_root.to_string(),
        resolved_root: target_root.to_string(),
        files,
        completed,
        chunk_size,
        verify_enabled,
        plan: SameFileLanePlan::fallback("no same-file payload", 4),
        stage: SharedStage::StartTask,
        file: 0,
        kept,
    }
}

/// The view of kept chunks or a complaint.
pub open spec fn kept_view(r: Result<Vec<u32>, String>) -> Result<Seq<u32>, Seq<char>> {
    match r {
        Ok(v) => Ok(v@),
        Err(m) => Err(m@),
    }
}

impl SharedRun {
    fn path(&self) -> (r: String)
        requires
            self@.file < self@.files.len(),
        ensures
            r@ == self@.path(),
    {
        paths::sanitize_agent_relative_path(self.files[self.file].relative_path.as_str())
    }

    fn temp_file(&self) -> (r: String)
        requires
            self@.file < self@.files.len(),
        ensures
            r@ == self@.temp_file(),
    {
        adb_command::remote_path_join(
            self.resolved_root.as_str(),
            checkpoint::about(self.path().as_str(), ".nekotrans-tmp").as_str(),
        )
    }

    fn shared(&self, completed: &Vec<u32>) -> (r: SharedFile)
        requires
            self@.file < self@.files.len(),
        ensures
            r@ == self@.shared(completed@),
            8388608 <= r.chunk_size <= 67108864,
    {
        let file = self.files[self.file].clone();
        let chunk_size: u64 = sizing::dual_same_file_chunk_size(file.size_bytes, self.chunk_size);
        SharedFile {
            relative_path: self.path(),
            remote_temp_file: self.temp_file(),
            chunk_size,
            total_chunks: sizing::chunk_count_for_size(file.size_bytes, chunk_size),
            wifi_stride: self.plan.wifi_stride,
            wifi_batch_chunks: self.plan.wifi_batch_chunks,
            completed: same_file::copy_chunks(completed),
            file,
        }
    }

    /// What to do, or why nothing more is done.
    pub fn next_step(&self) -> (r: Result<SharedStep, String>)
        requires
            self@.wf(),
        ensures
            match (r, self@.step()) {
                (Ok(a), Ok(b)) => a@ == b,
                (Err(a), Err(b)) => a@ == b,
                _ => false,
            },
    {
        match &self.stage {
            SharedStage::StartTask => Ok(SharedStep::Ask(AgentAsk::StartTask(self.task_id.clone()))),
            SharedStage::TargetRoot => Ok(
                SharedStep::Ask(AgentAsk::SetTargetRoot(self.target_root.clone())),
            ),
            SharedStage::Plan => Ok(
                SharedStep::Plan {
                    first: if self.files.len() > 0 {
                        Some(self.files[0].clone())
                    } else {
                        None
                    },
                    target_root: self.resolved_root.clone(),
                },
            ),
            SharedStage::RestartTask => Ok(
                SharedStep::Ask(AgentAsk::StartTask(self.task_id.clone())),
            ),
            SharedStage::ResetTargetRoot => Ok(
                SharedStep::Ask(AgentAsk::SetTargetRoot(self.resolved_root.clone())),
            ),
            SharedStage::Pick => Ok(SharedStep::Pick),
            SharedStage::StartFile => Ok(
                SharedStep::Ask(AgentAsk::StartFile(self.path(), self.files[self.file].size_bytes)),
            ),
            SharedStage::Clear => Ok(
                SharedStep::Remove {
                    temp_file: self.temp_file(),
                    final_file: adb_command::remote_path_join(
                        self.resolved_root.as_str(),
                        self.path().as_str(),
                    ),
                },
            ),
            SharedStage::Resume => Ok(SharedStep::Resume(self.shared(&self.completed[self.file]))),
            SharedStage::Lanes => Ok(SharedStep::Lanes(self.shared(&self.kept))),
            SharedStage::Complete => Ok(
                SharedStep::Ask(
                    AgentAsk::CompleteFile(self.path(), self.files[self.file].size_bytes),
                ),
            ),
            SharedStage::Size => Ok(
                SharedStep::WaitSize {
                    relative_path: self.path(),
                    expected_size: self.files[self.file].size_bytes,
                },
            ),
            SharedStage::Verify => Ok(
                SharedStep::Verify {
                    relative_path: self.path(),
                    local_path: self.files[self.file].local_path.clone(),
                    size_bytes: self.files[self.file].size_bytes,
                },
            ),
            SharedStage::Done => {
                let mut m = "same-file Dual completed ".to_string();
                m.append(decimal::dec_text(self.files.len() as u128).as_str());
                m.append(" large file(s); ");
                m.append(self.plan.summary().as_str());
                Ok(SharedStep::Done(m))
            },
            SharedStage::Failed(m) => Err(m.clone()),
            _ => Ok(SharedStep::Tell),
        }
    }

    fn fail(&mut self, m: String)
        ensures
            final(self)@ == old(self)@.failed(m@),
    {
        self.stage = SharedStage::Failed(m);
    }

    /// Takes in an answer, and the root that was read out of it.
    pub fn take_answer(&mut self, reply: &Result<String, String>, root: Option<&str>)
        requires
            old(self)@.wf(),
            old(self)@.asks(),
        ensures
            final(self)@.wf(),
            final(self)@ == old(self)@.answered(
                adb_command::outcome_view(*reply),
                text::str_view(root),
            ),
    {
        match reply {
            Err(m) => {
                self.fail(m.clone());
            },
            Ok(_) => match &self.stage {
                SharedStage::StartTask => {
                    self.stage = SharedStage::TargetRoot;
                },
                SharedStage::TargetRoot => {
                    self.resolved_root = text::or_other(root, self.target_root.as_str());
                    self.stage = SharedStage::Plan;
                },
                SharedStage::RestartTask => {
                    self.stage = SharedStage::ResetTargetRoot;
                },
                SharedStage::ResetTargetRoot => {
                    self.stage = SharedStage::Pick;
                },
                SharedStage::StartFile => {
                    self.stage = if self.completed[self.file].len() == 0 {
                        SharedStage::Clear
                    } else {
                        SharedStage::Resume
                    };
                },
                SharedStage::Complete => {
                    self.stage = SharedStage::Sizing;
                },
                _ => {},
            },
        }
    }

    /// Takes in an answer.
    pub fn answer(&mut self, reply: &Result<String, String>)
        requires
            old(self)@.wf(),
            old(self)@.asks(),
        ensures
            final(self)@.wf(),
            ({
                let told = adb_command::outcome_view(*reply);
                final(self)@ == old(self)@.answered(
                    told,
                    wifi_chunk::reply_text(told, "target_root"@),
                )
            }),
    {
        let root = match reply {
            Ok(p) => json::text_field(p.as_str(), "target_root"),
            Err(_) => None,
        };
        self.take_answer(reply, text::borrow_opt(&root))
    }

    /// Takes in how the lanes are planned: the stride that is set, if one is, how many chunks go
    /// into a batch, and what a trial gave.
    pub fn take_plan(
        &mut self,
        configured: Option<u32>,
        wifi_batch_chunks: usize,
        trial: Result<(u32, LaneRates), String>,
    )
        requires
            old(self)@.wf(),
            old(self)@.stage is Plan,
        ensures
            final(self)@.wf(),
            final(self)@ == old(self)@.planned(
                configured,
                wifi_batch_chunks as int,
                same_file::trial_view(trial),
            ),
    {
        self.plan = if self.files.len() == 0 {
            SameFileLanePlan::fallback("no same-file payload", wifi_batch_chunks)
        } else {
            same_file::plan_same_file_lanes(configured, wifi_batch_chunks, trial)
        };
        self.stage = SharedStage::RestartTask;
    }

    /// Takes the next file up.
    pub fn pick(&mut self, paused: bool)
        requires
            old(self)@.wf(),
            old(self)@.stage is Pick,
        ensures
            final(self)@.wf(),
            final(self)@ == old(self)@.picked(paused),
    {
        if self.file == self.files.len() {
            self.stage = SharedStage::Done;
        } else if paused {
            self.fail("transfer paused at chunk boundary".to_string());
        } else if self.path().as_str().is_empty() {
            let m = checkpoint::about(
                "same-file Dual relative path is not safe: ",
                self.files[self.file].relative_path.as_str(),
            );
            self.fail(m);
        } else {
            self.stage = SharedStage::Begin;
        }
    }

    /// What is told.
    pub fn tell(&mut self) -> (r: LaneNotes)
        requires
            old(self)@.wf(),
            old(self)@.tells(),
        ensures
            final(self)@.wf(),
            final(self)@ == old(self)@.told().0,
            r@ == old(self)@.told().1,
    {
        let mut told = dual_wifi_run::silent_lane();
        let f = &self.files[self.file];
        match &self.stage {
            SharedStage::Begin => {
                told.dual.push(
                    DualNote::Started {
                        size_bytes: f.size_bytes,
                        relative_path: f.relative_path.clone(),
                        remote_path: self.temp_file(),
                        event: "dual-same-file-started".to_string(),
                    },
                );
                self.stage = SharedStage::StartFile;
            },
            SharedStage::Finalizing => {
                told.dual.push(
                    DualNote::Stage {
                        event: "dual-finalizing".to_string(),
                        message: "正在让手机端合并临时文件".to_string(),
                    },
                );
                self.stage = SharedStage::Complete;
            },
            SharedStage::Sizing => {
                told.dual.push(
                    DualNote::Stage {
                        event: "dual-remote-stat".to_string(),
                        message: "正在读取手机端文件大小".to_string(),
                    },
                );
                self.stage = SharedStage::Size;
            },
            SharedStage::Verifying => {
                told.dual.push(
                    DualNote::Stage {
                        event: "dual-remote-verify".to_string(),
                        message: "正在快速校验手机端目标文件".to_string(),
                    },
                );
                self.stage = SharedStage::Verify;
            },
            _ => {
                told.engine.push(
                    EngineNote::File {
                        file_index: f.file_index,
                        lane: LaneAssignment::Wifi,
                        skipped: false,
                    },
                );
                told.dual.push(
                    DualNote::Finished {
                        relative_path: self.path(),
                        remote_path: self.temp_file(),
                        skipped: false,
                    },
                );
                assert(self.files.len() <= usize::MAX);
                self.file += 1;
                self.stage = SharedStage::Pick;
            },
        }
        assert(told.engine@ =~= old(self)@.told().1.engine);
        assert(notes::note_views(told.dual@) =~= old(self)@.told().1.dual);
        told
    }

    /// Takes in that what an earlier transfer left was removed, or was not there.
    pub fn take_removed(&mut self)
        requires
            old(self)@.wf(),
            old(self)@.stage is Clear,
        ensures
            final(self)@.wf(),
            final(self)@ == old(self)@.cleared(),
    {
        self.stage = SharedStage::Resume;
    }

    /// Takes in which completed chunks are kept.
    pub fn take_resume(&mut self, kept: Result<Vec<u32>, String>)
        requires
            old(self)@.wf(),
            old(self)@.stage is Resume,
        ensures
            final(self)@.wf(),
            final(self)@ == old(self)@.resumed(kept_view(kept)),
    {
        match kept {
            Err(m) => {
                self.fail(m);
            },
            Ok(k) => {
                self.kept = k;
                self.stage = SharedStage::Lanes;
            },
        }
    }

    /// Takes in how both lanes ended.
    pub fn take_lanes(&mut self, adb: &Result<(), String>, wifi: &Result<(), String>)
        requires
            old(self)@.wf(),
            old(self)@.stage is Lanes,
        ensures
            final(self)@.wf(),
            final(self)@ == old(self)@.carried(
                wifi_chunk::unit_view(*adb),
                wifi_chunk::unit_view(*wifi),
            ),
    {
        match (adb, wifi) {
            (Err(m), _) => {
                self.fail(m.clone());
            },
            (_, Err(m)) => {
                self.fail(m.clone());
            },
            _ => {
                self.stage = SharedStage::Finalizing;
            },
        }
    }

    /// Takes in the size of the file on the device.
    pub fn take_size(&mut self, size: &Result<u64, String>)
        requires
            old(self)@.wf(),
            old(self)@.stage is Size,
        ensures
            final(self)@.wf(),
            final(self)@ == old(self)@.sized(remote_verify::size_view(*size)),
    {
        match size {
            Err(m) => {
                self.fail(m.clone());
            },
            Ok(n) => {
                let expected: u64 = self.files[self.file].size_bytes;
                if *n != expected {
                    let mut m = "same-file Dual size mismatch for ".to_string();
                    m.append(self.path().as_str());
                    m.append(": local=");
                    m.append(decimal::dec_text(expected as u128).as_str());
                    m.append(" remote=");
                    m.append(decimal::dec_text(*n as u128).as_str());
                    self.fail(m);
                } else if self.verify_enabled {
                    self.stage = SharedStage::Verifying;
                } else {
                    self.stage = SharedStage::Finish;
                }
            },
        }
    }

    /// Takes in what the check of the file came to.
    pub fn take_verify(&mut self, outcome: &Result<(), String>)
        requires
            old(self)@.wf(),
            old(self)@.stage is Verify,
        ensures
            final(self)@.wf(),
            final(self)@ == old(self)@.verified(wifi_chunk::unit_view(*outcome)),
    {
        match outcome {
            Err(m) => {
                let mut complaint = "same-file Dual verify failed for ".to_string();
                complaint.append(self.path().as_str());
                complaint.append(": ");
                complaint.append(m.as_str());
                self.fail(complaint);
            },
            Ok(_) => {
                self.stage = SharedStage::Finish;
            },
        }
    }
}

/// The engine is told that a file is done only from [`SharedStageView::Finish`], and that stage is
/// reached only where the file on the device has the size of the local one and passed its check,
/// where one is made.
pub proof fn lemma_finished_files_are_checked(
    v: SharedView,
    reply: Result<Seq<char>, Seq<char>>,
    root: Option<Seq<char>>,
    size: Result<u64, Seq<char>>,
    outcome: Result<(), Seq<char>>,
    kept: Result<Seq<u32>, Seq<char>>,
    adb: Result<(), Seq<char>>,
    wifi: Result<(), Seq<char>>,
    paused: bool,
)
    requires
        v.wf(),
        !(v.stage is Finish),
    ensures
        v.told().1.engine.len() == 0,
        !(v.told().0.stage is Finish),
        !(v.answered(reply, root).stage is Finish),
        !(v.picked(paused).stage is Finish),
        !(v.resumed(kept).stage is Finish),
        !(v.carried(adb, wifi).stage is Finish),
        v.sized(size).stage is Finish ==> size == Ok::<u64, Seq<char>>(v.at().size_bytes)
            && !v.verify_enabled,
        v.verified(outcome).stage is Finish ==> outcome is Ok,
{
}

/// Whether lanes are handed the file at hand: its path and the place where it is put together, the
/// chunk length that suits it, and the plan of the lanes.
pub open spec fn is_handed(s: SharedFileView, v: SharedView, completed: Seq<u32>) -> bool {
    let file = v.files[v.file];
    let path = paths::agent_path(file.relative_path);
    &&& s.file == file
    &&& s.relative_path == path
    &&& s.remote_temp_file == adb_command::joined_path(v.resolved_root, path + ".nekotrans-tmp"@)
    &&& s.chunk_size == sizing::shared_chunk_size(file.size_bytes, v.chunk_size)
    &&& s.total_chunks == models::chunk_count(file.size_bytes, s.chunk_size) % 0x1_0000_0000
    &&& s.wifi_stride == v.plan.wifi_stride
    &&& s.wifi_batch_chunks == v.plan.wifi_batch_chunks
    &&& s.completed == completed
}

/// A file that is taken up is started on the device; without completed chunks what is left of an
/// earlier transfer is removed first; then it is found out which completed chunks can be kept, and
/// the lanes carry over the rest, knowing just these as completed.
pub proof fn lemma_file_is_carried_over_by_both_lanes(
    v: SharedView,
    p: Seq<char>,
    root: Option<Seq<char>>,
    kept: Seq<u32>,
    m: Seq<char>,
)
    requires
        v.wf(),
        v.stage is Pick,
        v.file < v.files.len(),
        paths::agent_path(v.files[v.file].relative_path).len() > 0,
    ensures
        ({
            let file = v.files[v.file];
            let path = paths::agent_path(file.relative_path);
            let a = v.picked(false).told().0;
            let b = a.answered(Ok(p), root);
            let c = if v.completed[v.file].len() == 0 {
                b.cleared()
            } else {
                b
            };
            let d = c.resumed(Ok(kept));
            &&& v.picked(false).step() == Ok::<SharedStepView, Seq<char>>(SharedStepView::Tell)
            &&& v.picked(true).step() == Err::<SharedStepView, Seq<char>>(
                "transfer paused at chunk boundary"@,
            )
            &&& a.step() == Ok::<SharedStepView, Seq<char>>(
                SharedStepView::Ask(AskView::StartFile(path, file.size_bytes)),
            )
            &&& v.completed[v.file].len() == 0 ==> b.step() == Ok::<SharedStepView, Seq<char>>(
                SharedStepView::Remove {
                    temp_file: adb_command::joined_path(
                        v.resolved_root,
                        path + ".nekotrans-tmp"@,
                    ),
                    final_file: adb_command::joined_path(v.resolved_root, path),
                },
            )
            &&& c.step() matches Ok(SharedStepView::Resume(s)) && is_handed(
                s,
                v,
                v.completed[v.file],
            )
            &&& d.step() matches Ok(SharedStepView::Lanes(s)) && is_handed(s, v, kept)
            &&& c.resumed(Err(m)).step() == Err::<SharedStepView, Seq<char>>(m)
            &&& d.file == v.file && d.files == v.files && d.completed == v.completed && d.plan
                == v.plan && d.verify_enabled == v.verify_enabled && d.kept == kept
                && d.resolved_root == v.resolved_root && d.chunk_size == v.chunk_size
        }),
{
}

/// Once both lanes are through, and only then, the file is told to be complete, it is waited for until
/// it has its size on the device, and where files are to be checked it is checked against the local
/// one. Only then the engine is told that the file is done, and the next file is taken up.
pub proof fn lemma_shared_file_is_finished_after_its_checks(
    v: SharedView,
    p: Seq<char>,
    root: Option<Seq<char>>,
    n: u64,
    m: Seq<char>,
    other: Result<(), Seq<char>>,
)
    requires
        v.wf(),
        v.stage is Lanes,
    ensures
        ({
            let file = v.files[v.file];
            let path = paths::agent_path(file.relative_path);
            let a = v.carried(Ok(()), Ok(())).told().0;
            let b = a.answered(Ok(p), root).told().0;
            let c = b.sized(Ok(file.size_bytes));
            let d = if v.verify_enabled {
                c.told().0
            } else {
                c
            };
            let e = if v.verify_enabled {
                d.verified(Ok(()))
            } else {
                d
            };
            let (f, notes) = e.told();
            &&& a.step() == Ok::<SharedStepView, Seq<char>>(
                SharedStepView::Ask(AskView::CompleteFile(path, file.size_bytes)),
            )
            &&& b.step() == Ok::<SharedStepView, Seq<char>>(
                SharedStepView::WaitSize { relative_path: path, expected_size: file.size_bytes },
            )
            &&& v.verify_enabled ==> d.step() == Ok::<SharedStepView, Seq<char>>(
                SharedStepView::Verify {
                    relative_path: path,
                    local_path: file.local_path,
                    size_bytes: file.size_bytes,
                },
            ) && c.told().1.engine.len() == 0 && d.verified(Err(m)).step() == Err::<
                SharedStepView,
                Seq<char>,
            >("same-file Dual verify failed for "@ + path + ": "@ + m)
            &&& notes.engine.len() == 1 && (notes.engine[0] matches EngineNote::File {
                file_index,
                lane,
                skipped,
            } && file_index == file.file_index as usize && lane == LaneAssignment::Wifi && !skipped)
            &&& f.stage is Pick && f.file == v.file + 1 && f.files == v.files && f.completed
                == v.completed && f.plan == v.plan && f.verify_enabled == v.verify_enabled
            &&& v.carried(Ok(()), Ok(())).told().1.engine.len() == 0 && a.answered(
                Ok(p),
                root,
            ).told().1.engine.len() == 0
            &&& v.carried(Err(m), other).step() == Err::<SharedStepView, Seq<char>>(m)
            &&& v.carried(Ok(()), Err(m)).step() == Err::<SharedStepView, Seq<char>>(m)
            &&& a.answered(Err(m), root).step() == Err::<SharedStepView, Seq<char>>(m)
            &&& n != file.size_bytes ==> b.sized(Ok(n)).step() == Err::<SharedStepView, Seq<char>>(
                "same-file Dual size mismatch for "@ + path + ": local="@ + decimal::dec(
                    file.size_bytes as nat,
                ) + " remote="@ + decimal::dec(n as nat),
            )
            &&& b.sized(Err(m)).step() == Err::<SharedStepView, Seq<char>>(m)
        }),
{
}

/// Whatever comes back, the lanes count as through only where both of them are, and a run takes up
/// another file, and is done, only past a finished one.
pub proof fn lemma_run_moves_on_only_past_finished_files(
    v: SharedView,
    reply: Result<Seq<char>, Seq<char>>,
    root: Option<Seq<char>>,
    size: Result<u64, Seq<char>>,
    outcome: Result<(), Seq<char>>,
    kept: Result<Seq<u32>, Seq<char>>,
    adb: Result<(), Seq<char>>,
    wifi: Result<(), Seq<char>>,
    paused: bool,
)
    requires
        v.wf(),
        !(v.stage is Done),
    ensures
        v.carried(adb, wifi).stage is Finalizing ==> adb is Ok && wifi is Ok || v.stage
            is Finalizing,
        v.told().0.file != v.file ==> v.stage is Finish,
        v.answered(reply, root).file == v.file && v.sized(size).file == v.file && v.verified(
            outcome,
        ).file == v.file && v.resumed(kept).file == v.file && v.carried(adb, wifi).file == v.file
            && v.picked(paused).file == v.file,
        v.picked(paused).stage is Done ==> v.file == v.files.len(),
        !(v.told().0.stage is Done) && !(v.answered(reply, root).stage is Done) && !(v.sized(
            size,
        ).stage is Done) && !(v.verified(outcome).stage is Done) && !(v.resumed(kept).stage is Done)
            && !(v.carried(adb, wifi).stage is Done),
{
}

/// A run starts the task, takes the root that the agent resolved the target root to, or the target root
/// itself where the agent tells none, plans the lanes with the first file, and starts over with that
/// root. A file without a safe path ends it.
pub proof fn lemma_shared_run_starts_in_order(
    v: SharedView,
    p: Seq<char>,
    root: Option<Seq<char>>,
    configured: Option<u32>,
    batch: int,
    trial: Result<(u32, LaneRatesView), Seq<char>>,
    m: Seq<char>,
)
    requires
        v.wf(),
        v.stage is StartTask,
    ensures
        ({
            let a = v.answered(Ok(p), root);
            let b = a.answered(Ok(p), root);
            let c = b.planned(configured, batch, trial);
            let d = c.answered(Ok(p), root);
            let e = d.answered(Ok(p), root);
            let resolved = match root {
                Some(r) => r,
                None => v.target_root,
            };
            &&& v.step() == Ok::<SharedStepView, Seq<char>>(
                SharedStepView::Ask(AskView::StartTask(v.task_id)),
            )
            &&& a.step() == Ok::<SharedStepView, Seq<char>>(
                SharedStepView::Ask(AskView::SetTargetRoot(v.target_root)),
            )
            &&& b.step() == Ok::<SharedStepView, Seq<char>>(
                SharedStepView::Plan {
                    first: if v.files.len() > 0 {
                        Some(v.files[0])
                    } else {
                        None
                    },
                    target_root: resolved,
                },
            )
            &&& c.step() == Ok::<SharedStepView, Seq<char>>(
                SharedStepView::Ask(AskView::StartTask(v.task_id)),
            )
            &&& d.step() == Ok::<SharedStepView, Seq<char>>(
                SharedStepView::Ask(AskView::SetTargetRoot(resolved)),
            )
            &&& e.stage is Pick && e.file == v.file && e.resolved_root == resolved && e.files
                == v.files
            &&& v.files.len() > 0 ==> e.plan == same_file::lane_plan(configured, batch, trial)
            &&& v.files.len() == 0 ==> e.plan.wifi_stride == 4 && e.plan.wifi_batch_chunks == batch
            &&& v.answered(Err(m), root).step() == Err::<SharedStepView, Seq<char>>(m)
            &&& a.answered(Err(m), root).step() == Err::<SharedStepView, Seq<char>>(m)
            &&& e.file < e.files.len() && paths::agent_path(e.files[e.file].relative_path).len()
                == 0 ==> e.picked(false).step() is Err
        }),
{
}

/// A shared run starts with its first file and knows of each file the chunks that the checkpoint
/// has of it, by the file's own index.
pub proof fn lemma_shared_run_starts_with_what_is_completed(
    task_id: Seq<char>,
    target_root: Seq<char>,
    files: Seq<LocalFileView>,
    checkpoint: Option<CheckpointEntryView>,
    chunk_size: u64,
    verify_enabled: bool,
)
    ensures
        ({
            let v = fresh_shared(
                task_id,
                target_root,
                files,
                checkpoint,
                chunk_size,
                verify_enabled,
            );
            &&& v.step() == Ok::<SharedStepView, Seq<char>>(
                SharedStepView::Ask(AskView::StartTask(task_id)),
            )
            &&& v.target_root == target_root && v.files == files
            &&& v.chunk_size == chunk_size && v.verify_enabled == verify_enabled
            &&& v.file == 0 && v.kept.len() == 0
            &&& v.completed.len() == files.len()
            &&& forall|k: int|
                0 <= k < files.len() ==> #[trigger] v.completed[k] == wifi_run::completed_of(
                    checkpoint,
                    files[k].file_index,
                )
        }),
{
}

/// What is shown of a shared file goes along with its run: it is started once with its own size,
/// counted as a file once when it is finished, and nothing is counted in between.
pub proof fn lemma_what_is_shown_goes_along(v: SharedView)
    requires
        v.wf(),
    ensures
        ({
            let d = v.told().1.dual;
            let e = v.told().1.engine;
            &&& v.stage is Begin ==> d.len() == 1 && dual_wifi_run::counts_start(
                d[0],
                v.files[v.file].relative_path,
                v.files[v.file].size_bytes,
            )
            &&& v.stage is Finish ==> d.len() == 1 && dual_wifi_run::counts_file(d[0], v.path())
                && e.len() == 1
            &&& !(v.stage is Begin) && !(v.stage is Finish) ==> e.len() == 0 && forall|k: int|
                0 <= k < d.len() ==> (#[trigger] d[k]) is Stage
        }),
{
}

} // verus!
