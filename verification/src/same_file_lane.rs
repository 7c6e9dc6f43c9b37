//! One of two lanes that carry the chunks of a shared file over.

use crate::adb_command;
use crate::agent_ask;
use crate::agent_ask::{AgentAsk, AskView, PendingView, PendingWifiChunk};
use crate::cards::{DualNote, DualNoteView};
use crate::decimal;
use crate::dual_wifi_run;
use crate::dual_wifi_run::{LaneNotes, LaneNotesView};
use crate::labels;
use crate::manifest::{LocalFileView, LocalTransferFile};
use crate::models;
use crate::models::ChunkDescriptor;
use crate::notes;
use crate::notes::EngineNote;
use crate::same_file;
use crate::same_file::DualSameFileLane;
use crate::scheduler::LaneAssignment;
use crate::sizing;
use crate::text;
use crate::wifi_chunk;
use crate::wifi_chunk::WifiChunkPushOutcome;
use crate::wifi_run;
use vstd::prelude::*;

verus! {

/// Where the lane stands.
#[derive(Debug)]
pub enum ShareStage {
    /// The next chunk is to be found.
    Next,
    /// The chunk at hand is to be written over ADB.
    Write,
    /// The chunk at hand is to be read for the network.
    Read,
    /// The chunks that wait are to be sent together; whether they are the last.
    Send(bool),
    /// A chunk that waits is to be pushed by itself; whether it is among the last, which one it is
    /// and what was wrong with sending all.
    Resend(bool, usize, String),
    Done,
    /// The lane stopped; whether the other lane is to stop too.
    Failed(String, bool),
}

pub enum ShareStageView {
    Next,
    Write,
    Read,
    Send(bool),
    Resend(bool, int, Seq<char>),
    Done,
    Failed(Seq<char>, bool),
}

impl View for ShareStage {
    type V = ShareStageView;

    open spec fn view(&self) -> ShareStageView {
        match self {
            ShareStage::Next => ShareStageView::Next,
            ShareStage::Write => ShareStageView::Write,
            ShareStage::Read => ShareStageView::Read,
            ShareStage::Send(last) => ShareStageView::Send(*last),
            ShareStage::Resend(last, i, m) => ShareStageView::Resend(*last, *i as int, m@),
            ShareStage::Done => ShareStageView::Done,
            ShareStage::Failed(m, stop) => ShareStageView::Failed(m@, *stop),
        }
    }
}

/// What to do.
#[derive(Debug)]
pub enum ShareStep {
    /// Let the next chunk be found.
    Pick,
    /// Write a stretch of the local file to the same place of the remote one.
    Write { chunk_index: u32, offset: u64, length: u64 },
    /// Read a stretch of the local file.
    Read { offset: u64, length: u64 },
    /// Ask the agent.
    Ask(AgentAsk),
    /// Push a chunk by itself.
    Push { chunk_index: u32, offset: u64, payload: Vec<u8> },
    Done,
}

pub enum ShareStepView {
    Pick,
    Write { chunk_index: u32, offset: u64, length: u64 },
    Read { offset: u64, length: u64 },
    Ask(AskView),
    Push { chunk_index: u32, offset: u64, payload: Seq<u8> },
    Done,
}

impl View for ShareStep {
    type V = ShareStepView;

    open spec fn view(&self) -> ShareStepView {
        match self {
            ShareStep::Pick => ShareStepView::Pick,
            ShareStep::Write { chunk_index, offset, length } => ShareStepView::Write {
                chunk_index: *chunk_index,
                offset: *offset,
                length: *length,
            },
            ShareStep::Read { offset, length } => ShareStepView::Read {
                offset: *offset,
                length: *length,
            },
            ShareStep::Ask(a) => ShareStepView::Ask(a@),
            ShareStep::Push { chunk_index, offset, payload } => ShareStepView::Push {
                chunk_index: *chunk_index,
                offset: *offset,
                payload: payload@,
            },
            ShareStep::Done => ShareStepView::Done,
        }
    }
}

/// A lane under way.
pub struct SameFileLaneRun {
    lane: DualSameFileLane,
    relative_path: String,
    remote_temp_file: String,
    file: LocalTransferFile,
    chunk_size: u64,
    total_chunks: u32,
    wifi_stride: u32,
    wifi_batch_chunks: usize,
    completed: Vec<u32>,
    next: u32,
    pending: Vec<PendingWifiChunk>,
    stage: ShareStage,
    told: Ghost<Seq<u32>>,
}

pub struct ShareView {
    pub lane: DualSameFileLane,
    pub relative_path: Seq<char>,
    pub remote_temp_file: Seq<char>,
    pub file: LocalFileView,
    pub chunk_size: u64,
    pub total_chunks: u32,
    pub wifi_stride: u32,
    pub wifi_batch_chunks: int,
    pub completed: Seq<u32>,
    /// The chunk at hand; those before it are dealt with.
    pub next: u32,
    pub pending: Seq<PendingView>,
    pub stage: ShareStageView,
    /// The chunks that the engine was told of.
    pub told: Seq<u32>,
}

impl View for SameFileLaneRun {
    type V = ShareView;

    closed spec fn view(&self) -> ShareView {
        ShareView {
            lane: self.lane,
            relative_path: self.relative_path@,
            remote_temp_file: self.remote_temp_file@,
            file: self.file@,
            chunk_size: self.chunk_size,
            total_chunks: self.total_chunks,
            wifi_stride: self.wifi_stride,
            wifi_batch_chunks: self.wifi_batch_chunks as int,
            completed: self.completed@,
            next: self.next,
            pending: agent_ask::pending_views(self.pending@),
            stage: self.stage@,
            told: self.told@,
        }
    }
}

/// The numbers of waiting chunks.
pub open spec fn indices(pending: Seq<PendingView>) -> Seq<u32> {
    pending.map_values(|p: PendingView| p.chunk_index)
}

impl ShareView {
    /// Whether the lane carries a chunk over.
    pub open spec fn carries(self, k: u32) -> bool {
        same_file::owns(self.lane, k, self.wifi_stride) && !self.completed.contains(k)
    }

    /// What is told and what waits are just the chunks before the one at hand that the lane
    /// carries over, in order and each once.
    pub open spec fn wf(self) -> bool {
        &&& 0 < self.chunk_size <= u32::MAX
        &&& self.next <= self.total_chunks
        &&& self.stage is Write || self.stage is Read ==> self.next < self.total_chunks
            && self.carries(self.next)
        &&& self.stage is Write ==> self.lane == DualSameFileLane::Adb
        &&& self.stage is Read ==> self.lane == DualSameFileLane::Wifi
        &&& self.lane == DualSameFileLane::Adb ==> self.pending.len() == 0
        &&& self.stage is Send || self.stage is Resend ==> self.pending.len() > 0
        &&& self.stage == ShareStageView::Send(true) || self.stage is Done ==> self.next
            == self.total_chunks
        &&& self.stage is Done ==> self.pending.len() == 0
        &&& self.stage matches ShareStageView::Resend(last, i, _) ==> 0 <= i < self.pending.len()
            && (last ==> self.next == self.total_chunks)
        &&& forall|i: int|
            0 <= i < self.pending.len() ==> (#[trigger] self.pending[i]).offset
                + self.pending[i].payload.len() <= u64::MAX
        &&& self.told + indices(self.pending) == same_file::lane_chunks(
            self.lane,
            self.next as nat,
            self.wifi_stride,
            self.completed,
        )
    }

    /// Where the chunk at hand lies.
    pub open spec fn offset(self) -> int {
        self.next * self.chunk_size
    }

    /// How long the chunk at hand is.
    pub open spec fn length(self) -> int {
        sizing::length_at(self.file.size_bytes, self.chunk_size, self.next as int)
    }

    pub open spec fn to(self, stage: ShareStageView) -> ShareView {
        ShareView { stage, ..self }
    }

    /// The lane was interrupted: the other one is to stop too.
    pub open spec fn interrupted(self, m: Seq<char>) -> ShareView {
        self.to(ShareStageView::Failed(labels::interrupted_text(self.lane.name(), m), true))
    }

    /// The first chunk from `k` on that the lane has, or none.
    pub open spec fn next_owned(self, k: u32) -> u32
        decreases self.total_chunks - k,
    {
        if k >= self.total_chunks || same_file::owns(self.lane, k, self.wifi_stride) {
            k
        } else {
            self.next_owned((k + 1) as u32)
        }
    }

    /// The first chunk from `k` on that the lane carries over, or none.
    pub open spec fn next_open(self, k: u32) -> u32
        decreases self.total_chunks - k,
    {
        if k >= self.total_chunks || self.carries(k) {
            k
        } else {
            self.next_open((k + 1) as u32)
        }
    }

    /// The next chunk is found. A pause takes effect before the next chunk that the lane has,
    /// whether it is completed or not.
    pub open spec fn picked(self, paused: bool) -> ShareView {
        let k = self.next_open(self.next);
        let there = ShareView { next: k, ..self };
        if paused && self.next_owned(self.next) < self.total_chunks {
            ShareView {
                next: self.next_owned(self.next),
                stage: ShareStageView::Failed(wifi_run::pause_text(), false),
                ..self
            }
        } else if k < self.total_chunks {
            there.to(
                match self.lane {
                    DualSameFileLane::Adb => ShareStageView::Write,
                    DualSameFileLane::Wifi => ShareStageView::Read,
                },
            )
        } else if self.pending.len() > 0 {
            there.to(ShareStageView::Send(true))
        } else {
            there.to(ShareStageView::Done)
        }
    }

    /// What to do, or why nothing more is done.
    pub open spec fn step(self) -> Result<ShareStepView, Seq<char>> {
        match self.stage {
            ShareStageView::Next => Ok(ShareStepView::Pick),
            ShareStageView::Write => Ok(
                ShareStepView::Write {
                    chunk_index: self.next,
                    offset: self.offset() as u64,
                    length: self.length() as u64,
                },
            ),
            ShareStageView::Read => Ok(
                ShareStepView::Read {
                    offset: self.offset() as u64,
                    length: self.length() as u64,
                },
            ),
            ShareStageView::Send(_) => Ok(
                ShareStepView::Ask(AskView::Batch(self.relative_path, self.pending)),
            ),
            ShareStageView::Resend(_, i, _) => Ok(
                ShareStepView::Push {
                    chunk_index: self.pending[i].chunk_index,
                    offset: self.pending[i].offset,
                    payload: self.pending[i].payload,
                },
            ),
            ShareStageView::Done => Ok(ShareStepView::Done),
            ShareStageView::Failed(m, _) => Err(m),
        }
    }

    /// A chunk as the engine is told of it.
    pub open spec fn chunk_note(self, index: u32, offset: u64, length: u64) -> EngineNote {
        EngineNote::Pending {
            chunk: ChunkDescriptor {
                file_index: self.file.file_index as usize,
                chunk_index: index,
                offset,
                length,
            },
            lane: self.lane.lane(),
            skipped: false,
        }
    }

    /// A chunk as it is shown.
    pub open spec fn dual_note(self, length: u64, message: Seq<char>) -> DualNoteView {
        DualNoteView::Progress {
            relative_path: self.relative_path,
            remote_path: self.remote_temp_file,
            event: "dual-same-file-chunk-pushed"@,
            message,
            length,
            skipped: false,
            pushed: true,
        }
    }

    /// The chunk at hand was written over ADB, or was not.
    pub open spec fn written(self, outcome: Result<Seq<char>, Seq<char>>) -> (
        ShareView,
        LaneNotesView,
    ) {
        match outcome {
            Err(m) => (self.interrupted(m), dual_wifi_run::no_lane_notes()),
            Ok(_) => (
                ShareView {
                    next: (self.next + 1) as u32,
                    stage: ShareStageView::Next,
                    told: self.told.push(self.next),
                    ..self
                },
                LaneNotesView {
                    engine: seq![
                        self.chunk_note(self.next, self.offset() as u64, self.length() as u64),
                    ],
                    dual: seq![
                        self.dual_note(
                            self.length() as u64,
                            self.lane.name() + " chunk "@ + decimal::dec(self.next as nat)
                                + " committed"@,
                        ),
                    ],
                },
            ),
        }
    }

    /// The chunk at hand was read: it waits for others, until there are enough of them.
    pub open spec fn read(self, bytes: Result<Seq<u8>, Seq<char>>) -> ShareView {
        match bytes {
            Err(m) => self.to(ShareStageView::Failed(m, false)),
            Ok(b) => {
                let pending = self.pending.push(
                    PendingView {
                        chunk_index: self.next,
                        offset: self.offset() as u64,
                        length: self.length() as u64,
                        payload: b,
                    },
                );
                ShareView {
                    next: (self.next + 1) as u32,
                    pending,
                    stage: if pending.len() >= self.wifi_batch_chunks {
                        ShareStageView::Send(false)
                    } else {
                        ShareStageView::Next
                    },
                    ..self
                }
            },
        }
    }

    /// The chunks that wait arrived.
    pub open spec fn arrived(self, last: bool) -> (ShareView, LaneNotesView) {
        (
            ShareView {
                pending: Seq::empty(),
                stage: if last {
                    ShareStageView::Done
                } else {
                    ShareStageView::Next
                },
                told: self.told + indices(self.pending),
                ..self
            },
            LaneNotesView {
                engine: self.pending.map_values(
                    |p: PendingView| self.chunk_note(p.chunk_index, p.offset, p.length),
                ),
                dual: self.pending.map_values(
                    |p: PendingView|
                        self.dual_note(
                            p.length,
                            "Wi-Fi chunk "@ + decimal::dec(p.chunk_index as nat)
                                + " committed via batch"@,
                        ),
                ),
            },
        )
    }

    /// The agent answered; the status that the answer tells. Where the batch was not taken, each
    /// chunk is pushed by itself.
    pub open spec fn answered(
        self,
        reply: Result<Seq<char>, Seq<char>>,
        status: Option<Seq<char>>,
    ) -> (ShareView, LaneNotesView) {
        match self.stage {
            ShareStageView::Send(last) => match reply {
                Err(m) => (
                    self.to(ShareStageView::Resend(last, 0, m)),
                    dual_wifi_run::no_lane_notes(),
                ),
                Ok(p) => match wifi_chunk::judged(status, p, seq!["batch_written"@]) {
                    Ok(_) => self.arrived(last),
                    Err(m) => (
                        self.to(ShareStageView::Resend(last, 0, m)),
                        dual_wifi_run::no_lane_notes(),
                    ),
                },
            },
            _ => (self, dual_wifi_run::no_lane_notes()),
        }
    }

    /// A chunk was pushed by itself, or was not.
    pub open spec fn resent(self, outcome: Result<WifiChunkPushOutcome, Seq<char>>) -> (
        ShareView,
        LaneNotesView,
    ) {
        match self.stage {
            ShareStageView::Resend(last, i, problem) => match outcome {
                Err(m) => (
                    self.interrupted(
                        "Wi-Fi batch failed: "@ + problem + "; fallback failed: "@ + m,
                    ),
                    dual_wifi_run::no_lane_notes(),
                ),
                Ok(_) => if i + 1 < self.pending.len() {
                    (
                        self.to(ShareStageView::Resend(last, i + 1, problem)),
                        dual_wifi_run::no_lane_notes(),
                    )
                } else {
                    self.arrived(last)
                },
            },
            _ => (self, dual_wifi_run::no_lane_notes()),
        }
    }
}

/// A lane at its start.
pub open spec fn fresh_share(
    lane: DualSameFileLane,
    relative_path: Seq<char>,
    remote_temp_file: Seq<char>,
    file: LocalFileView,
    chunk_size: u64,
    total_chunks: u32,
    wifi_stride: u32,
    wifi_batch_chunks: int,
    completed: Seq<u32>,
) -> ShareView {
    ShareView {
        lane,
        relative_path,
        remote_temp_file,
        file,
        chunk_size,
        total_chunks,
        wifi_stride,
        wifi_batch_chunks,
        completed,
        next: 0,
        pending: Seq::empty(),
        stage: ShareStageView::Next,
        told: Seq::empty(),
    }
}

/// A lane that carries its chunks of a shared file over, but for those that are completed.
pub fn run_dual_same_file_lane(
    lane: DualSameFileLane,
    relative_path: &str,
    remote_temp_file: &str,
    file: LocalTransferFile,
    chunk_size: u64,
    total_chunks: u32,
    wifi_stride: u32,
    wifi_batch_chunks: usize,
    completed_chunks: &Vec<u32>,
) -> (r: SameFileLaneRun)
    requires
        0 < chunk_size <= u32::MAX,
    ensures
        r@ == fresh_share(
            lane,
            relative_path@,
            remote_temp_file@,
            file@,
            chunk_size,
            total_chunks,
            wifi_stride,
            wifi_batch_chunks as int,
            completed_chunks@,
        ),
        r@.wf(),
{
    let run = SameFileLaneRun {
        lane,
        relative_path: relative_path.to_string(),
        remote_temp_file: remote_temp_file.to_string(),
        file,
        chunk_size,
        total_chunks,
        wifi_stride,
        wifi_batch_chunks,
        completed: same_file::copy_chunks(completed_chunks),
        next: 0,
        pending: Vec::new(),
        stage: ShareStage::Next,
        told: Ghost(Seq::empty()),
    };
    assert(agent_ask::pending_views(run.pending@) =~= Seq::empty());
    assert(indices(run@.pending) =~= Seq::empty());
    assert(run@.told + indices(run@.pending) =~= same_file::lane_chunks(
        lane,
        0,
        wifi_stride,
        completed_chunks@,
    ));
    run
}

/// What is found when the chunk at hand is not one to carry over.
proof fn lemma_pass(v: ShareView, k: u32)
    requires
        k < v.total_chunks,
        !v.carries(k),
    ensures
        v.next_open(k) == v.next_open((k + 1) as u32),
        same_file::lane_chunks(v.lane, (k + 1) as nat, v.wifi_stride, v.completed)
            == same_file::lane_chunks(v.lane, k as nat, v.wifi_stride, v.completed),
{
}

impl SameFileLaneRun {
    /// Finds the next chunk.
    pub fn pick(&mut self, paused: bool)
        requires
            old(self)@.wf(),
            old(self)@.stage is Next,
        ensures
            final(self)@.wf(),
            final(self)@ == old(self)@.picked(paused),
    {
        let ghost start = self@;
        let mut k: u32 = self.next;
        let mut stop = false;
        while k < self.total_chunks && !stop
            invariant
                k <= self.total_chunks,
                start == self@,
                start == old(self)@,
                start.wf(),
                start.stage is Next,
                start.next <= k,
                start.next_open(start.next) == start.next_open(k),
                same_file::lane_chunks(
                    start.lane,
                    k as nat,
                    start.wifi_stride,
                    start.completed,
                ) == same_file::lane_chunks(
                    start.lane,
                    start.next as nat,
                    start.wifi_stride,
                    start.completed,
                ),
                paused ==> start.next_owned(start.next) == start.next_owned(k),
                stop ==> k < self.total_chunks && start.carries(k) && !paused,
            decreases self.total_chunks - k, (if stop { 0int } else { 1int }),
        {
            let owned = self.lane.owns_chunk(k, self.wifi_stride);
            if owned && paused {
                self.next = k;
                self.stage = ShareStage::Failed(
                    "transfer paused at chunk boundary".to_string(),
                    false,
                );
                return ;
            }
            if owned && !wifi_run::lists_chunk(&self.completed, k) {
                stop = true;
            } else {
                proof {
                    lemma_pass(start, k);
                }
                k += 1;
            }
        }
        self.next = k;
        if k < self.total_chunks {
            self.stage = match self.lane {
                DualSameFileLane::Adb => ShareStage::Write,
                DualSameFileLane::Wifi => ShareStage::Read,
            };
        } else if self.pending.len() > 0 {
            self.stage = ShareStage::Send(true);
        } else {
            self.stage = ShareStage::Done;
        }
    }

    fn range(&self) -> (r: (u64, u64))
        requires
            self@.wf(),
        ensures
            r.0 == self@.offset(),
            r.1 == self@.length(),
    {
        same_file::resume_chunk_range(self.file.size_bytes, self.chunk_size, self.next)
    }

    /// What to do, or why nothing more is done.
    pub fn next_step(&self) -> (r: Result<ShareStep, String>)
        requires
            self@.wf(),
        ensures
            match (r, self@.step()) {
                (Ok(a), Ok(b)) => a@ == b,
                (Err(a), Err(b)) => a@ == b,
                _ => false,
            },
    {
        match &self.stage {
            ShareStage::Next => Ok(ShareStep::Pick),
            ShareStage::Write => {
                let (offset, length) = self.range();
                Ok(ShareStep::Write { chunk_index: self.next, offset, length })
            },
            ShareStage::Read => {
                let (offset, length) = self.range();
                Ok(ShareStep::Read { offset, length })
            },
            ShareStage::Send(_) => Ok(
                ShareStep::Ask(
                    AgentAsk::Batch(self.relative_path.clone(), copy_pending(&self.pending)),
                ),
            ),
            ShareStage::Resend(_, i, _) => {
                let p = &self.pending[*i];
                assert(self@.pending[*i as int] == p@);
                Ok(
                    ShareStep::Push {
                        chunk_index: p.chunk_index,
                        offset: p.offset,
                        payload: agent_ask::copy_bytes(&p.payload),
                    },
                )
            },
            ShareStage::Done => Ok(ShareStep::Done),
            ShareStage::Failed(m, _) => Err(m.clone()),
        }
    }

    /// Whether the other lane is to stop too.
    pub fn stops_other(&self) -> (r: bool)
        ensures
            r <==> (self@.stage matches ShareStageView::Failed(_, stop) && stop),
    {
        match &self.stage {
            ShareStage::Failed(_, stop) => *stop,
            _ => false,
        }
    }

    fn interrupt(&mut self, m: &str)
        ensures
            final(self)@ == old(self)@.interrupted(m@),
    {
        self.stage = ShareStage::Failed(
            labels::lane_interrupted_message(self.lane.label(), m),
            true,
        );
    }

    /// Takes in what became of the chunk that was to be written.
    pub fn take_write(&mut self, outcome: &Result<String, String>) -> (r: LaneNotes)
        requires
            old(self)@.wf(),
            old(self)@.stage is Write,
        ensures
            final(self)@.wf(),
            final(self)@ == old(self)@.written(adb_command::outcome_view(*outcome)).0,
            r@ == old(self)@.written(adb_command::outcome_view(*outcome)).1,
    {
        let ghost start = self@;
        match outcome {
            Err(m) => {
                self.interrupt(m.as_str());
                dual_wifi_run::silent_lane()
            },
            Ok(_) => {
                let (offset, length) = self.range();
                let k: u32 = self.next;
                let mut told = dual_wifi_run::silent_lane();
                told.engine.push(
                    EngineNote::Pending {
                        chunk: ChunkDescriptor {
                            file_index: self.file.file_index,
                            chunk_index: k,
                            offset,
                            length,
                        },
                        lane: self.lane.assignment(),
                        skipped: false,
                    },
                );
                let mut message = self.lane.label().to_string();
                message.append(" chunk ");
                message.append(decimal::dec_text(k as u128).as_str());
                message.append(" committed");
                told.dual.push(
                    DualNote::Progress {
                        relative_path: self.relative_path.clone(),
                        remote_path: self.remote_temp_file.clone(),
                        event: "dual-same-file-chunk-pushed".to_string(),
                        message,
                        length,
                        skipped: false,
                        pushed: true,
                    },
                );
                self.next = k + 1;
                self.stage = ShareStage::Next;
                self.told = Ghost(self.told@.push(k));
                proof {
                    let expected = start.written(adb_command::outcome_view(*outcome)).1;
                    assert(told.engine@ =~= expected.engine);
                    assert(notes::note_views(told.dual@) =~= expected.dual);
                    assert(start.told + indices(start.pending) =~= start.told);
                    assert(self@.told + indices(self@.pending) =~= self@.told);
                    assert(self@.told =~= same_file::lane_chunks(
                        self@.lane,
                        self@.next as nat,
                        self@.wifi_stride,
                        self@.completed,
                    ));
                }
                told
            },
        }
    }

    /// Takes in the bytes of the chunk that was to be read.
    pub fn take_bytes(&mut self, bytes: Result<Vec<u8>, String>)
        requires
            old(self)@.wf(),
            old(self)@.stage is Read,
            bytes matches Ok(b) ==> b@.len() <= old(self)@.length(),
        ensures
            final(self)@.wf(),
            final(self)@ == old(self)@.read(wifi_chunk::bytes_view(bytes)),
    {
        let ghost start = self@;
        match bytes {
            Err(m) => {
                self.stage = ShareStage::Failed(m, false);
            },
            Ok(payload) => {
                let (offset, length) = self.range();
                proof {
                    lemma_range_fits(self@);
                }
                let k: u32 = self.next;
                let ghost before = agent_ask::pending_views(self.pending@);
                let p = PendingWifiChunk { chunk_index: k, offset, length, payload };
                self.pending.push(p);
                assert(agent_ask::pending_views(self.pending@) == before.push(p@));
                self.next = k + 1;
                self.stage = if self.pending.len() >= self.wifi_batch_chunks {
                    ShareStage::Send(false)
                } else {
                    ShareStage::Next
                };
                proof {
                    assert(indices(self@.pending) =~= indices(start.pending).push(k));
                    assert(self@.told + indices(self@.pending) =~= (start.told + indices(
                        start.pending,
                    )).push(k));
                }
            },
        }
    }

    fn arrive(&mut self, last: bool) -> (r: LaneNotes)
        requires
            old(self)@.wf(),
            old(self)@.stage is Send || old(self)@.stage is Resend,
            last ==> old(self)@.next == old(self)@.total_chunks,
        ensures
            final(self)@.wf(),
            final(self)@ == old(self)@.arrived(last).0,
            r@ == old(self)@.arrived(last).1,
    {
        let ghost start = self@;
        let ghost expected = self@.arrived(last).1;
        let mut told = dual_wifi_run::silent_lane();
        let mut i: usize = 0;
        while i < self.pending.len()
            invariant
                i <= self.pending.len(),
                self@ == start,
                start.lane == DualSameFileLane::Wifi,
                expected == start.arrived(last).1,
                told.engine@ == expected.engine.take(i as int),
                told.dual@.len() == i,
                forall|k: int| 0 <= k < i ==> (#[trigger] told.dual@[k])@ == expected.dual[k],
            decreases self.pending.len() - i,
        {
            let p = &self.pending[i];
            assert(start.pending[i as int] == p@);
            told.engine.push(
                EngineNote::Pending {
                    chunk: ChunkDescriptor {
                        file_index: self.file.file_index,
                        chunk_index: p.chunk_index,
                        offset: p.offset,
                        length: p.length,
                    },
                    lane: LaneAssignment::Wifi,
                    skipped: false,
                },
            );
            let mut message = "Wi-Fi chunk ".to_string();
            message.append(decimal::dec_text(p.chunk_index as u128).as_str());
            message.append(" committed via batch");
            told.dual.push(
                DualNote::Progress {
                    relative_path: self.relative_path.clone(),
                    remote_path: self.remote_temp_file.clone(),
                    event: "dual-same-file-chunk-pushed".to_string(),
                    message,
                    length: p.length,
                    skipped: false,
                    pushed: true,
                },
            );
            assert(told.engine@ =~= expected.engine.take(i + 1));
            i += 1;
        }
        assert(told.engine@ =~= expected.engine);
        assert(notes::note_views(told.dual@) =~= expected.dual);
        self.told = Ghost(self.told@ + indices(start.pending));
        self.pending = Vec::new();
        self.stage = if last {
            ShareStage::Done
        } else {
            ShareStage::Next
        };
        assert(agent_ask::pending_views(self.pending@) =~= Seq::empty());
        assert(self@.told + indices(self@.pending) =~= start.told + indices(start.pending));
        told
    }

    /// Takes in an answer, and the status that was read out of it.
    pub fn take_answer(&mut self, reply: &Result<String, String>, status: Option<&str>) -> (r:
        LaneNotes)
        requires
            old(self)@.wf(),
            old(self)@.stage is Send,
        ensures
            final(self)@.wf(),
            ({
                let after = old(self)@.answered(
                    adb_command::outcome_view(*reply),
                    text::str_view(status),
                );
                final(self)@ == after.0 && r@ == after.1
            }),
    {
        let last = match &self.stage {
            ShareStage::Send(last) => *last,
            _ => false,
        };
        let accepted = ["batch_written"];
        assert(wifi_chunk::str_views(accepted@) =~= seq!["batch_written"@]);
        match reply {
            Err(m) => {
                self.stage = ShareStage::Resend(last, 0, m.clone());
                dual_wifi_run::silent_lane()
            },
            Ok(p) => match wifi_chunk::judge_status(status, p.as_str(), &accepted) {
                Ok(_) => self.arrive(last),
                Err(m) => {
                    self.stage = ShareStage::Resend(last, 0, m);
                    dual_wifi_run::silent_lane()
                },
            },
        }
    }

    /// Takes in an answer.
    pub fn answer(&mut self, reply: &Result<String, String>) -> (r: LaneNotes)
        requires
            old(self)@.wf(),
            old(self)@.stage is Send,
        ensures
            final(self)@.wf(),
            ({
                let told = adb_command::outcome_view(*reply);
                let after = old(self)@.answered(told, wifi_chunk::reply_text(told, "status"@));
                final(self)@ == after.0 && r@ == after.1
            }),
    {
        let status = wifi_run::status_of_reply(reply);
        self.take_answer(reply, text::borrow_opt(&status))
    }

    /// Takes in what became of a chunk that was pushed by itself.
    pub fn take_push(&mut self, outcome: &Result<WifiChunkPushOutcome, String>) -> (r: LaneNotes)
        requires
            old(self)@.wf(),
            old(self)@.stage is Resend,
        ensures
            final(self)@.wf(),
            final(self)@ == old(self)@.resent(wifi_run::outcome_view(*outcome)).0,
            r@ == old(self)@.resent(wifi_run::outcome_view(*outcome)).1,
    {
        match &self.stage {
            ShareStage::Resend(last, i, problem) => {
                let last = *last;
                let i: usize = *i;
                match outcome {
                    Err(m) => {
                        let mut complaint = "Wi-Fi batch failed: ".to_string();
                        complaint.append(problem.as_str());
                        complaint.append("; fallback failed: ");
                        complaint.append(m.as_str());
                        self.interrupt(complaint.as_str());
                        dual_wifi_run::silent_lane()
                    },
                    Ok(_) => {
                        let count: usize = self.pending.len();
                        if i + 1 < count {
                            let problem = problem.clone();
                            self.stage = ShareStage::Resend(last, i + 1, problem);
                            dual_wifi_run::silent_lane()
                        } else {
                            self.arrive(last)
                        }
                    },
                }
            },
            _ => dual_wifi_run::silent_lane(),
        }
    }
}

fn copy_pending(pending: &Vec<PendingWifiChunk>) -> (r: Vec<PendingWifiChunk>)
    ensures
        agent_ask::pending_views(r@) == agent_ask::pending_views(pending@),
{
    let mut out: Vec<PendingWifiChunk> = Vec::new();
    let mut i: usize = 0;
    while i < pending.len()
        invariant
            i <= pending.len(),
            out@.len() == i,
            forall|k: int| 0 <= k < i ==> (#[trigger] out@[k])@ == pending@[k]@,
        decreases pending.len() - i,
    {
        let p = &pending[i];
        out.push(
            PendingWifiChunk {
                chunk_index: p.chunk_index,
                offset: p.offset,
                length: p.length,
                payload: agent_ask::copy_bytes(&p.payload),
            },
        );
        i += 1;
    }
    assert(agent_ask::pending_views(out@) =~= agent_ask::pending_views(pending@));
    out
}

/// The end of a chunk can be counted in 64 bits.
proof fn lemma_range_fits(v: ShareView)
    requires
        v.wf(),
    ensures
        v.offset() >= 0,
        v.offset() + v.length() <= u64::MAX,
{
    let k = v.next;
    let step = v.chunk_size;
    assert(0 <= k * step <= 0xffff_ffff * 0xffff_ffff) by (nonlinear_arith)
        requires
            0 <= k <= 0xffff_ffff,
            0 <= step <= 0xffff_ffff,
    ;
    assert(models::chunk_step(step) == step);
    assert(v.length() <= step);
}

/// A lane that is done has told the engine of just the chunks that it carries over: all that it
/// has of the file and that were not completed before, in order and each once.
pub proof fn lemma_done_lane_told_all(v: ShareView)
    requires
        v.wf(),
        v.stage is Done,
    ensures
        v.told == same_file::lane_chunks(
            v.lane,
            v.total_chunks as nat,
            v.wifi_stride,
            v.completed,
        ),
{
    assert(v.told + indices(v.pending) =~= v.told);
}

/// When both lanes are done, every chunk of the file was completed before or was told by exactly
/// one of them.
pub proof fn lemma_done_lanes_cover_file(adb: ShareView, wifi: ShareView, k: u32)
    requires
        adb.wf(),
        wifi.wf(),
        adb.stage is Done,
        wifi.stage is Done,
        adb.lane == DualSameFileLane::Adb,
        wifi.lane == DualSameFileLane::Wifi,
        adb.total_chunks == wifi.total_chunks,
        adb.wifi_stride == wifi.wifi_stride,
        adb.completed == wifi.completed,
        k < adb.total_chunks,
    ensures
        adb.completed.contains(k) ==> !adb.told.contains(k) && !wifi.told.contains(k),
        !adb.completed.contains(k) ==> adb.told.contains(k) != wifi.told.contains(k),
{
    lemma_done_lane_told_all(adb);
    lemma_done_lane_told_all(wifi);
    same_file::lemma_lanes_share_all_chunks(
        adb.total_chunks as nat,
        adb.wifi_stride,
        adb.completed,
        k,
    );
}

/// A lane that was interrupted stops the other one, and its complaint is one that a resumed
/// transfer can get over.
pub proof fn lemma_interruption_can_be_resumed(v: ShareView, m: Seq<char>)
    ensures
        v.interrupted(m).stage == ShareStageView::Failed(
            labels::interrupted_text(v.lane.name(), m),
            true,
        ),
        labels::is_interruption(labels::interrupted_text(v.lane.name(), m)),
{
    labels::lemma_pauses_are_interruptions(v.lane.name(), m);
}

/// Whether a note tells of a chunk of the shared file that came over the lane.
pub open spec fn notes_chunk(note: EngineNote, v: ShareView, k: u32, offset: u64, length: u64) -> bool {
    note matches EngineNote::Pending { chunk, lane, skipped } && {
        &&& chunk.file_index == v.file.file_index as usize
        &&& chunk.chunk_index == k
        &&& chunk.offset == offset
        &&& chunk.length == length
        &&& lane == (match v.lane {
            DualSameFileLane::Adb => LaneAssignment::Adb,
            DualSameFileLane::Wifi => LaneAssignment::Wifi,
        })
        &&& !skipped
    }
}

/// Whether two lanes have the same job.
pub open spec fn same_share(a: ShareView, b: ShareView) -> bool {
    &&& a.lane == b.lane && a.relative_path == b.relative_path && a.remote_temp_file
        == b.remote_temp_file && a.file == b.file
    &&& a.chunk_size == b.chunk_size && a.total_chunks == b.total_chunks && a.wifi_stride
        == b.wifi_stride && a.wifi_batch_chunks == b.wifi_batch_chunks && a.completed
        == b.completed
}

/// Where the chunk at hand lies, and that its place fits.
proof fn lemma_place_fits(v: ShareView)
    requires
        v.wf(),
    ensures
        0 <= v.next * v.chunk_size <= u64::MAX,
        v.offset() == v.next * v.chunk_size,
        v.next * v.chunk_size < v.file.size_bytes ==> v.length() == (if v.file.size_bytes - v.next
            * v.chunk_size < v.chunk_size {
            v.file.size_bytes - v.next * v.chunk_size
        } else {
            v.chunk_size as int
        }),
        v.next * v.chunk_size >= v.file.size_bytes ==> v.length() == 0,
{
    assert(0 <= v.next * v.chunk_size <= 0xffff_ffff * 0xffff_ffff) by (nonlinear_arith)
        requires
            0 <= v.next <= 0xffff_ffff,
            0 <= v.chunk_size <= 0xffff_ffff,
    ;
    sizing::lemma_chunk_spans(v.file.size_bytes, v.chunk_size, v.next as int);
}

/// Over ADB the chunk at hand is written from its place in the local file to the same place of the
/// remote one, and once it is written the engine is told of just this chunk. A chunk that was not
/// written is told to nobody, ends the lane and stops the other one.
pub proof fn lemma_written_chunk_is_told_of(v: ShareView, output: Seq<char>, m: Seq<char>)
    requires
        v.wf(),
        v.stage is Write,
        v.next * v.chunk_size < v.file.size_bytes,
    ensures
        ({
            let offset = (v.next * v.chunk_size) as u64;
            let rest = v.file.size_bytes - v.next * v.chunk_size;
            let length = (if rest < v.chunk_size {
                rest
            } else {
                v.chunk_size as int
            }) as u64;
            let (u, notes) = v.written(Ok(output));
            let (w, none) = v.written(Err(m));
            &&& v.step() == Ok::<ShareStepView, Seq<char>>(
                ShareStepView::Write { chunk_index: v.next, offset, length },
            )
            &&& notes.engine.len() == 1 && notes_chunk(notes.engine[0], v, v.next, offset, length)
            &&& u.next == v.next + 1 && u.told == v.told.push(v.next) && u.stage is Next
                && u.pending == v.pending && same_share(u, v)
            &&& none.engine.len() == 0 && w.told == v.told && w.stage is Failed
                && w.stage->Failed_1
        }),
{
    lemma_place_fits(v);
}

/// Over the network the chunk at hand is read at its place, and waits with its number, its place and
/// its bytes; nobody is told of it yet. As soon as a batch is full all that wait are sent.
pub proof fn lemma_read_chunk_waits(v: ShareView, b: Seq<u8>, m: Seq<char>)
    requires
        v.wf(),
        v.stage is Read,
        v.next * v.chunk_size < v.file.size_bytes,
    ensures
        ({
            let offset = (v.next * v.chunk_size) as u64;
            let rest = v.file.size_bytes - v.next * v.chunk_size;
            let length = (if rest < v.chunk_size {
                rest
            } else {
                v.chunk_size as int
            }) as u64;
            let u = v.read(Ok(b));
            &&& v.step() == Ok::<ShareStepView, Seq<char>>(ShareStepView::Read { offset, length })
            &&& u.pending.drop_last() == v.pending && u.pending.len() == v.pending.len() + 1
            &&& u.pending.last().chunk_index == v.next && u.pending.last().offset == offset
                && u.pending.last().length == length && u.pending.last().payload == b
            &&& u.next == v.next + 1 && u.told == v.told && same_share(u, v)
            &&& u.pending.len() >= v.wifi_batch_chunks ==> u.step() == Ok::<
                ShareStepView,
                Seq<char>,
            >(ShareStepView::Ask(AskView::Batch(v.relative_path, u.pending)))
            &&& u.pending.len() < v.wifi_batch_chunks ==> u.stage is Next
            &&& v.read(Err(m)).step() == Err::<ShareStepView, Seq<char>>(m) && !v.read(
                Err(m),
            ).stage->Failed_1
        }),
{
    lemma_place_fits(v);
    assert(v.read(Ok(b)).pending.drop_last() =~= v.pending);
}

/// Whether notes tell of all chunks that wait, in order.
pub open spec fn notes_all(notes: Seq<EngineNote>, v: ShareView) -> bool {
    notes.len() == v.pending.len() && forall|i: int|
        0 <= i < notes.len() ==> notes_chunk(
            #[trigger] notes[i],
            v,
            v.pending[i].chunk_index,
            v.pending[i].offset,
            v.pending[i].length,
        )
}

/// Chunks that wait are told of exactly when the agent tells that it wrote the batch. Else nobody is
/// told, and each of them is pushed by itself, from the first on.
pub proof fn lemma_batch_is_told_of_when_written(
    v: ShareView,
    reply: Result<Seq<char>, Seq<char>>,
    status: Option<Seq<char>>,
)
    requires
        v.wf(),
        v.stage is Send,
    ensures
        ({
            let last = v.stage == ShareStageView::Send(true);
            let (u, notes) = v.answered(reply, status);
            let taken = reply is Ok && status == Some("batch_written"@);
            &&& v.step() == Ok::<ShareStepView, Seq<char>>(
                ShareStepView::Ask(AskView::Batch(v.relative_path, v.pending)),
            )
            &&& taken ==> notes_all(notes.engine, v) && u.pending.len() == 0 && u.told == v.told
                + indices(v.pending) && (if last {
                u.stage is Done
            } else {
                u.stage is Next
            })
            &&& !taken ==> notes.engine.len() == 0 && u.pending == v.pending && u.told == v.told
                && u.step() == Ok::<ShareStepView, Seq<char>>(
                ShareStepView::Push {
                    chunk_index: v.pending[0].chunk_index,
                    offset: v.pending[0].offset,
                    payload: v.pending[0].payload,
                },
            )
            &&& u.next == v.next && same_share(u, v)
        }),
{
    let accepted = seq!["batch_written"@];
    assert(accepted.contains("batch_written"@)) by {
        assert(accepted[0] == "batch_written"@);
    }
    assert forall|s: Seq<char>| #[trigger] accepted.contains(s) implies s == "batch_written"@ by {
        let i = choose|i: int| 0 <= i < accepted.len() && accepted[i] == s;
        assert(i == 0);
    }
}

/// Chunks that are pushed one by one go in order, each with its own number, place and bytes, and all
/// are told of when the last of them has arrived, not before. One that did not arrive ends the lane
/// and stops the other one, and nobody is told of any.
pub proof fn lemma_single_pushes_are_told_of_at_their_end(
    v: ShareView,
    o: WifiChunkPushOutcome,
    m: Seq<char>,
)
    requires
        v.wf(),
        v.stage is Resend,
    ensures
        ({
            let i = v.stage->Resend_1;
            let (u, notes) = v.resent(Ok(o));
            let (w, none) = v.resent(Err(m));
            &&& v.step() == Ok::<ShareStepView, Seq<char>>(
                ShareStepView::Push {
                    chunk_index: v.pending[i].chunk_index,
                    offset: v.pending[i].offset,
                    payload: v.pending[i].payload,
                },
            )
            &&& i + 1 < v.pending.len() ==> notes.engine.len() == 0 && u.told == v.told && u.pending
                == v.pending && u.step() == Ok::<ShareStepView, Seq<char>>(
                ShareStepView::Push {
                    chunk_index: v.pending[i + 1].chunk_index,
                    offset: v.pending[i + 1].offset,
                    payload: v.pending[i + 1].payload,
                },
            )
            &&& i + 1 == v.pending.len() ==> notes_all(notes.engine, v) && u.pending.len() == 0
                && u.told == v.told + indices(v.pending) && (if v.stage->Resend_0 {
                u.stage is Done
            } else {
                u.stage is Next
            })
            &&& u.next == v.next && same_share(u, v)
            &&& none.engine.len() == 0 && w.told == v.told && w.stage is Failed
                && w.stage->Failed_1
        }),
{
}

/// The next chunk is the first one from the chunk at hand on that the lane has and that is not
/// completed; where there is none, what waits is sent, and a lane that has nothing left is done. A
/// pause takes effect if the lane has any chunk left.
pub proof fn lemma_next_chunk_is_the_first_open_one(v: ShareView)
    requires
        v.wf(),
        v.stage is Next,
    ensures
        ({
            let u = v.picked(false);
            &&& v.next <= u.next <= v.total_chunks
            &&& forall|j: u32|
                v.next <= j < u.next ==> v.completed.contains(j) || !#[trigger] same_file::owns(
                    v.lane,
                    j,
                    v.wifi_stride,
                )
            &&& u.next < v.total_chunks ==> !v.completed.contains(u.next) && same_file::owns(
                v.lane,
                u.next,
                v.wifi_stride,
            ) && (if v.lane == DualSameFileLane::Adb {
                u.stage is Write
            } else {
                u.stage is Read
            })
            &&& u.next == v.total_chunks && v.pending.len() > 0 ==> u.step() == Ok::<
                ShareStepView,
                Seq<char>,
            >(ShareStepView::Ask(AskView::Batch(v.relative_path, v.pending)))
            &&& u.next == v.total_chunks && v.pending.len() == 0 ==> u.stage is Done
            &&& u.pending == v.pending && u.told == v.told && same_share(u, v)
            &&& (exists|j: u32|
                v.next <= j < v.total_chunks && #[trigger] same_file::owns(
                    v.lane,
                    j,
                    v.wifi_stride,
                )) ==> v.picked(true).step() == Err::<ShareStepView, Seq<char>>(
                "transfer paused at chunk boundary"@,
            ) && !v.picked(true).stage->Failed_1
            &&& !(exists|j: u32|
                v.next <= j < v.total_chunks && #[trigger] same_file::owns(
                    v.lane,
                    j,
                    v.wifi_stride,
                )) ==> v.picked(true) == u
        }),
{
    lemma_first_open(v, v.next);
    lemma_first_owned(v, v.next);
}

proof fn lemma_first_open(v: ShareView, k: u32)
    requires
        k <= v.total_chunks,
    ensures
        k <= v.next_open(k) <= v.total_chunks,
        v.next_open(k) < v.total_chunks ==> v.carries(v.next_open(k)),
        forall|j: u32| k <= j < v.next_open(k) ==> !#[trigger] v.carries(j),
        forall|j: u32|
            k <= j < v.next_open(k) ==> v.completed.contains(j) || !#[trigger] same_file::owns(
                v.lane,
                j,
                v.wifi_stride,
            ),
    decreases v.total_chunks - k,
{
    if k < v.total_chunks && !v.carries(k) {
        lemma_first_open(v, (k + 1) as u32);
    }
}

proof fn lemma_first_owned(v: ShareView, k: u32)
    requires
        k <= v.total_chunks,
    ensures
        k <= v.next_owned(k) <= v.total_chunks,
        v.next_owned(k) < v.total_chunks ==> same_file::owns(
            v.lane,
            v.next_owned(k),
            v.wifi_stride,
        ),
        forall|j: u32|
            k <= j < v.next_owned(k) ==> !#[trigger] same_file::owns(v.lane, j, v.wifi_stride),
    decreases v.total_chunks - k,
{
    if k < v.total_chunks && !same_file::owns(v.lane, k, v.wifi_stride) {
        lemma_first_owned(v, (k + 1) as u32);
    }
}

/// A lane starts to look for its share at the first chunk, with nothing waiting and nothing told.
pub proof fn lemma_share_starts_at_the_first_chunk(
    lane: DualSameFileLane,
    path: Seq<char>,
    remote: Seq<char>,
    file: LocalFileView,
    chunk_size: u64,
    total: u32,
    stride: u32,
    batch: int,
    completed: Seq<u32>,
)
    ensures
        ({
            let v = fresh_share(
                lane,
                path,
                remote,
                file,
                chunk_size,
                total,
                stride,
                batch,
                completed,
            );
            &&& v.step() == Ok::<ShareStepView, Seq<char>>(ShareStepView::Pick)
            &&& v.next == 0 && v.pending.len() == 0 && v.told.len() == 0
            &&& v.lane == lane && v.relative_path == path && v.remote_temp_file == remote
            &&& v.file == file && v.chunk_size == chunk_size && v.total_chunks == total
            &&& v.wifi_stride == stride && v.wifi_batch_chunks == batch && v.completed == completed
        }),
{
}

/// What is shown goes along with what the engine is told: every chunk that was written is counted
/// once with just its bytes, those of a batch in their order, and one that failed not at all.
pub proof fn lemma_what_is_shown_goes_along(
    v: ShareView,
    outcome: Result<Seq<char>, Seq<char>>,
    last: bool,
)
    requires
        v.wf(),
    ensures
        outcome is Err ==> v.written(outcome).1.dual.len() == 0,
        outcome is Ok ==> v.written(outcome).1.dual.len() == 1 && dual_wifi_run::counts_bytes(
            v.written(outcome).1.dual[0],
            v.relative_path,
            v.length() as u64,
        ),
        ({
            let d = v.arrived(last).1.dual;
            &&& d.len() == v.pending.len()
            &&& forall|k: int|
                0 <= k < d.len() ==> dual_wifi_run::counts_bytes(
                    #[trigger] d[k],
                    v.relative_path,
                    v.pending[k].length,
                )
        }),
{
}

} // verus!
