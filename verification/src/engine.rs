//! The engine: all tasks by id, and what may be done to them.

use crate::checkpoint;
use crate::checkpoint::{CheckpointEntry, CheckpointEntryView, CheckpointError};
use crate::checkpoint_store;
use crate::checkpoint_store::{CheckpointFile, CheckpointStore};
use crate::checkpoint_text;
use crate::decimal;
use crate::engine_task;
use crate::engine_task::{EngineTask, EngineTaskSnapshot, SnapshotView, TaskView, TransferUpdate};
use crate::inventory;
use crate::inventory::SourceScan;
use crate::logging;
use crate::logging::{LogLevel, LogRecordView, LogScope};
use crate::models;
use crate::models::{
    ChunkDescriptor, Direction, TaskConfig, TaskConfigView, TaskState, TransferItem,
    TransferItemView, TransportMode,
};
use crate::order;
use crate::scheduler::{ChunkLease, LaneAssignment, SchedulerDecision};
use crate::text;
use vstd::prelude::*;

verus! {

/// Why the engine refused.
#[derive(Debug, PartialEq, Eq)]
pub enum TransferEngineError {
    UnknownTask(String),
    InvalidState(String),
    Inventory(String),
    Persistence(String),
}

pub enum EngineErrorView {
    UnknownTask(Seq<char>),
    InvalidState(Seq<char>),
    Inventory(Seq<char>),
    Persistence(Seq<char>),
}

impl View for TransferEngineError {
    type V = EngineErrorView;

    open spec fn view(&self) -> EngineErrorView {
        match self {
            TransferEngineError::UnknownTask(m) => EngineErrorView::UnknownTask(m@),
            TransferEngineError::InvalidState(m) => EngineErrorView::InvalidState(m@),
            TransferEngineError::Inventory(m) => EngineErrorView::Inventory(m@),
            TransferEngineError::Persistence(m) => EngineErrorView::Persistence(m@),
        }
    }
}

/// An error in words.
pub open spec fn error_text(e: EngineErrorView) -> Seq<char> {
    match e {
        EngineErrorView::UnknownTask(id) => "unknown task "@ + id,
        EngineErrorView::InvalidState(m) => m,
        EngineErrorView::Inventory(m) => m,
        EngineErrorView::Persistence(m) => m,
    }
}

impl TransferEngineError {
    /// The error in words.
    pub fn message(&self) -> (r: String)
        ensures
            r@ == error_text(self@),
    {
        match self {
            TransferEngineError::UnknownTask(id) => checkpoint::about("unknown task ", id.as_str()),
            TransferEngineError::InvalidState(m) => m.clone(),
            TransferEngineError::Inventory(m) => m.clone(),
            TransferEngineError::Persistence(m) => m.clone(),
        }
    }
}

/// What becomes of a task, and whether the request for it was refused.
pub struct Outcome {
    pub task: TaskView,
    pub error: Option<EngineErrorView>,
}

/// A task that stays as it is while the request is refused.
pub open spec fn refused(t: TaskView, message: Seq<char>) -> Outcome {
    Outcome { task: t, error: Some(EngineErrorView::InvalidState(message)) }
}

/// A task that changed as asked.
pub open spec fn granted(t: TaskView) -> Outcome {
    Outcome { task: t, error: None }
}

/// A message about a task.
pub open spec fn task_message(id: Seq<char>, rest: Seq<char>) -> Seq<char> {
    "task "@ + id + rest
}

fn task_text(id: &str, rest: &str) -> (r: String)
    ensures
        r@ == task_message(id@, rest@),
{
    let mut s = "task ".to_string();
    s.append(id);
    s.append(rest);
    s
}

/// Whether a task is over, for good or ill.
pub open spec fn is_terminal(s: TaskState) -> bool {
    s == TaskState::Completed || s == TaskState::Cancelled || s == TaskState::Failed
}

/// A task in a new state, with a record of it, ready to be written.
pub open spec fn moved(
    t: TaskView,
    state: TaskState,
    level: LogLevel,
    message: Seq<char>,
    id: Seq<char>,
    now: u128,
) -> TaskView {
    t.in_state(state).logged(
        engine_task::task_record(now, level, LogScope::Audit, message, id),
    ).stamped(now)
}

/// Pausing a task.
pub open spec fn pausing(t: TaskView, id: Seq<char>, now: u128) -> Outcome {
    if is_terminal(t.state) {
        refused(t, task_message(id, " can no longer be paused"@))
    } else {
        granted(moved(t, TaskState::Paused, LogLevel::Warn, "task paused"@, id, now))
    }
}

/// Resuming a task.
pub open spec fn resuming(t: TaskView, id: Seq<char>, now: u128) -> Outcome {
    if t.state != TaskState::Paused {
        refused(t, task_message(id, " is not paused"@))
    } else {
        granted(moved(t, TaskState::Running, LogLevel::Info, "task resumed"@, id, now))
    }
}

/// Cancelling a task; one that is completed or cancelled stays so.
pub open spec fn cancelling(t: TaskView, id: Seq<char>, now: u128) -> Outcome {
    if t.state == TaskState::Completed || t.state == TaskState::Cancelled {
        granted(t)
    } else {
        granted(moved(t, TaskState::Cancelled, LogLevel::Warn, "task cancelled"@, id, now))
    }
}

/// Staging a task for another try.
pub open spec fn retrying(t: TaskView, id: Seq<char>, now: u128) -> Outcome {
    if t.state == TaskState::Completed || t.state == TaskState::Cancelled {
        refused(t, task_message(id, " cannot be retried from terminal state"@))
    } else {
        granted(
            moved(
                TaskView { last_error: None, ..t },
                TaskState::Paused,
                LogLevel::Info,
                "task staged for retry"@,
                id,
                now,
            ),
        )
    }
}

/// A task that failed.
pub open spec fn failing(t: TaskView, message: Seq<char>, now: u128) -> Outcome {
    granted(
        TaskView { last_error: Some(message), ..t.in_state(TaskState::Failed) }.logged(
            engine_task::task_record(
                now,
                LogLevel::Error,
                LogScope::Transfer,
                message,
                t.config.task_id,
            ),
        ).stamped(now),
    )
}

/// Advancing a task by up to `steps` chunks, at least one.
pub open spec fn ticking(t: TaskView, id: Seq<char>, steps: usize, now: u128) -> Outcome {
    if is_terminal(t.state) {
        refused(t, task_message(id, " is already terminal"@))
    } else if t.state == TaskState::Paused {
        granted(t)
    } else {
        let u = t.in_state(TaskState::Running).stepped(
            if steps == 0 {
                1
            } else {
                steps as nat
            },
            now,
        ).0;
        granted(
            (if u.scheduler.drained() {
                u.completed(now)
            } else {
                u
            }).stamped(now),
        )
    }
}

/// The refusal of progress on a task that was cancelled or failed.
pub open spec fn no_progress(id: Seq<char>) -> Seq<char> {
    task_message(id, " can no longer record progress"@)
}

/// Whether a task may still make progress.
pub open spec fn can_progress(t: TaskView) -> bool {
    t.state != TaskState::Cancelled && t.state != TaskState::Failed
}

/// Recording a chunk that a worker carried over.
pub open spec fn committing(
    t: TaskView,
    id: Seq<char>,
    chunk: ChunkDescriptor,
    lane: LaneAssignment,
    was_skipped: bool,
    now: u128,
) -> Outcome {
    if !can_progress(t) {
        refused(t, no_progress(id))
    } else {
        granted(
            t.in_state(TaskState::Running).committed(chunk, lane, was_skipped, now).marked(
                now,
            ).stamped(now),
        )
    }
}

/// Recording a chunk that a worker carried over, with the task not yet looked over for
/// completion.
pub open spec fn committing_pending(
    t: TaskView,
    id: Seq<char>,
    chunk: ChunkDescriptor,
    lane: LaneAssignment,
    was_skipped: bool,
    now: u128,
) -> Outcome {
    if !can_progress(t) {
        refused(t, no_progress(id))
    } else {
        granted(
            t.in_state(TaskState::Running).committed(chunk, lane, was_skipped, now).stamped(now),
        )
    }
}

/// Recording a leased chunk that a worker carried over.
pub open spec fn completing(
    t: TaskView,
    id: Seq<char>,
    lease: ChunkLease,
    was_skipped: bool,
    now: u128,
) -> Outcome {
    if !can_progress(t) {
        refused(t, no_progress(id))
    } else {
        let u = t.in_state(TaskState::Running).committed(
            lease.chunk,
            lease.lane,
            was_skipped,
            now,
        );
        granted(
            TaskView { scheduler: u.scheduler.complete(lease.lane), ..u }.marked(now).stamped(now),
        )
    }
}

/// Recording a whole file that a worker carried over. A file that is not there is refused, and
/// the task counts as running then all the same.
pub open spec fn completing_file(
    t: TaskView,
    id: Seq<char>,
    file_index: usize,
    lane: LaneAssignment,
    was_skipped: bool,
    now: u128,
) -> Outcome {
    if !can_progress(t) {
        refused(t, no_progress(id))
    } else if file_index >= t.items.len() {
        refused(
            t.in_state(TaskState::Running),
            "unknown file "@ + decimal::dec(file_index as nat),
        )
    } else {
        granted(
            t.in_state(TaskState::Running).committed_all(
                models::chunks_of(
                    file_index,
                    t.items[file_index as int].size_bytes,
                    t.config.chunk_size_bytes,
                ),
                lane,
                was_skipped,
                now,
            ).marked(now).stamped(now),
        )
    }
}

/// The record of a leased chunk.
pub open spec fn lease_record(t: TaskView, lease: ChunkLease, now: u128) -> LogRecordView {
    LogRecordView {
        chunk_id: Some(decimal::dec(lease.chunk.chunk_index as nat)),
        lane: Some(checkpoint::lane_word(lease.lane)),
        ..engine_task::task_record(
            now,
            LogLevel::Debug,
            LogScope::Transfer,
            "real chunk leased"@,
            t.config.task_id,
        )
    }
}

/// Leasing a chunk to a worker: the task, the refusal if there is one, and the lease if there is
/// one. A paused task leases nothing.
pub open spec fn leasing(t: TaskView, id: Seq<char>, preferred: LaneAssignment, now: u128) -> (
    Outcome,
    Option<ChunkLease>,
) {
    if !can_progress(t) {
        (refused(t, no_progress(id)), None)
    } else if t.state == TaskState::Paused {
        (granted(t), None)
    } else {
        let u = t.in_state(TaskState::Running);
        let (decision, s) = u.scheduler.lease_next(
            u.config.max_in_flight_chunks_per_lane,
            preferred,
        );
        let v = TaskView { scheduler: s, ..u };
        match decision {
            SchedulerDecision::Lease(lease) => (
                granted(v.logged(lease_record(v, lease, now))),
                Some(lease),
            ),
            SchedulerDecision::Idle => (granted(v), None),
        }
    }
}

/// Giving a task another chunk length. Progress counted in chunks of another length is dropped.
pub open spec fn rechunking(t: TaskView, chunk_size: u64, now: u128) -> Outcome {
    if t.config.chunk_size_bytes == chunk_size {
        granted(t)
    } else {
        let config = TaskConfigView { chunk_size_bytes: chunk_size, ..t.config };
        let fresh = engine_task::fresh_task(config, t.items, now);
        granted(
            TaskView {
                state: t.state,
                last_error: t.last_error,
                log_cursor: t.log_cursor,
                logs: t.logs,
                ..fresh
            }.stamped(now),
        )
    }
}

/// Whether a request went as it should: an unknown task changes nothing; else the task becomes
/// what the outcome says, and the reply is its snapshot or the refusal.
pub open spec fn settled(
    before: Map<Seq<char>, TaskView>,
    after: Map<Seq<char>, TaskView>,
    id: Seq<char>,
    o: Outcome,
    r: Result<EngineTaskSnapshot, TransferEngineError>,
) -> bool {
    if !before.contains_key(id) {
        after == before && r is Err && r->Err_0@ == EngineErrorView::UnknownTask(id)
    } else {
        &&& after == before.insert(id, o.task)
        &&& match o.error {
            Some(e) => r is Err && r->Err_0@ == e,
            None => r is Ok && r->Ok_0@ == o.task.snapshot(),
        }
    }
}

/// As `settled`, for a reply that also hands out the records nobody has seen.
pub open spec fn updated(
    before: Map<Seq<char>, TaskView>,
    after: Map<Seq<char>, TaskView>,
    id: Seq<char>,
    o: Outcome,
    r: Result<TransferUpdate, TransferEngineError>,
) -> bool {
    if !before.contains_key(id) {
        after == before && r is Err && r->Err_0@ == EngineErrorView::UnknownTask(id)
    } else {
        match o.error {
            Some(e) => after == before.insert(id, o.task) && r is Err && r->Err_0@ == e,
            None => {
                &&& after == before.insert(id, o.task.drained())
                &&& r is Ok
                &&& r->Ok_0.snapshot@ == o.task.snapshot()
                &&& logging::record_views(r->Ok_0.new_logs@) == o.task.new_logs()
            },
        }
    }
}

impl EngineTask {
    fn shift(
        &mut self,
        state: TaskState,
        level: LogLevel,
        message: &str,
        task_id: &str,
        now: u128,
    )
        ensures
            final(self)@ == moved(old(self)@, state, level, message@, task_id@, now),
            old(self)@.wf() ==> final(self)@.wf(),
    {
        let record = engine_task::make_task_record(now, level, LogScope::Audit, message, task_id);
        self.enter(state);
        self.push_log(record);
        self.stamp(now);
    }

    fn is_over(&self) -> (r: bool)
        ensures
            r == is_terminal(self@.state),
    {
        match self.state {
            TaskState::Completed | TaskState::Cancelled | TaskState::Failed => true,
            _ => false,
        }
    }

    /// Pauses the task.
    pub fn pause(&mut self, task_id: &str, now: u128) -> (r: Result<(), TransferEngineError>)
        requires
            old(self)@.wf(),
        ensures
            final(self)@.wf(),
            answered(final(self)@, pausing(old(self)@, task_id@, now), r),
    {
        if self.is_over() {
            return Err(
                TransferEngineError::InvalidState(task_text(task_id, " can no longer be paused")),
            );
        }
        self.shift(TaskState::Paused, LogLevel::Warn, "task paused", task_id, now);
        Ok(())
    }

    /// Resumes the task.
    pub fn resume(&mut self, task_id: &str, now: u128) -> (r: Result<(), TransferEngineError>)
        requires
            old(self)@.wf(),
        ensures
            final(self)@.wf(),
            answered(final(self)@, resuming(old(self)@, task_id@, now), r),
    {
        if self.state != TaskState::Paused {
            return Err(TransferEngineError::InvalidState(task_text(task_id, " is not paused")));
        }
        self.shift(TaskState::Running, LogLevel::Info, "task resumed", task_id, now);
        Ok(())
    }

    /// Cancels the task.
    pub fn cancel(&mut self, task_id: &str, now: u128) -> (r: Result<(), TransferEngineError>)
        requires
            old(self)@.wf(),
        ensures
            final(self)@.wf(),
            answered(final(self)@, cancelling(old(self)@, task_id@, now), r),
    {
        if self.state == TaskState::Completed || self.state == TaskState::Cancelled {
            return Ok(());
        }
        self.shift(TaskState::Cancelled, LogLevel::Warn, "task cancelled", task_id, now);
        Ok(())
    }

    /// Stages the task for another try.
    pub fn retry(&mut self, task_id: &str, now: u128) -> (r: Result<(), TransferEngineError>)
        requires
            old(self)@.wf(),
        ensures
            final(self)@.wf(),
            answered(final(self)@, retrying(old(self)@, task_id@, now), r),
    {
        if self.state == TaskState::Completed || self.state == TaskState::Cancelled {
            return Err(
                TransferEngineError::InvalidState(
                    task_text(task_id, " cannot be retried from terminal state"),
                ),
            );
        }
        self.last_error = None;
        self.shift(TaskState::Paused, LogLevel::Info, "task staged for retry", task_id, now);
        Ok(())
    }

    /// Marks the task as failed.
    pub fn fail(&mut self, message: &str, now: u128)
        requires
            old(self)@.wf(),
        ensures
            final(self)@.wf(),
            final(self)@ == failing(old(self)@, message@, now).task,
    {
        let record = engine_task::make_task_record(
            now,
            LogLevel::Error,
            LogScope::Transfer,
            message,
            self.config.task_id.as_str(),
        );
        self.enter(TaskState::Failed);
        self.last_error = Some(message.to_string());
        self.push_log(record);
        self.stamp(now);
    }

    /// Advances the task by up to `steps` chunks.
    pub fn tick(&mut self, task_id: &str, steps: usize, now: u128) -> (r: Result<
        (),
        TransferEngineError,
    >)
        requires
            old(self)@.wf(),
            ticking(old(self)@, task_id@, steps, now).task.metrics.fits(),
        ensures
            final(self)@.wf(),
            answered(final(self)@, ticking(old(self)@, task_id@, steps, now), r),
    {
        if self.is_over() {
            return Err(
                TransferEngineError::InvalidState(task_text(task_id, " is already terminal")),
            );
        }
        if self.state == TaskState::Paused {
            return Ok(());
        }
        self.enter(TaskState::Running);
        let count: usize = if steps == 0 {
            1
        } else {
            steps
        };
        self.run_steps(count, now);
        if self.scheduler.is_drained() {
            self.complete(now);
        }
        self.stamp(now);
        Ok(())
    }

    fn is_stopped(&self) -> (r: bool)
        ensures
            r <==> !can_progress(self@),
    {
        self.state == TaskState::Cancelled || self.state == TaskState::Failed
    }

    fn check_progress(&self, task_id: &str) -> (r: Result<(), TransferEngineError>)
        ensures
            r is Ok <==> can_progress(self@),
            r is Err ==> r->Err_0@ == EngineErrorView::InvalidState(no_progress(task_id@)),
    {
        if self.is_stopped() {
            Err(
                TransferEngineError::InvalidState(
                    task_text(task_id, " can no longer record progress"),
                ),
            )
        } else {
            Ok(())
        }
    }

    /// Records a chunk that a worker carried over.
    pub fn record_commit(
        &mut self,
        task_id: &str,
        chunk: ChunkDescriptor,
        lane: LaneAssignment,
        was_skipped: bool,
        now: u128,
    ) -> (r: Result<(), TransferEngineError>)
        requires
            old(self)@.wf(),
            committing(old(self)@, task_id@, chunk, lane, was_skipped, now).task.metrics.fits(),
        ensures
            final(self)@.wf(),
            answered(
                final(self)@,
                committing(old(self)@, task_id@, chunk, lane, was_skipped, now),
                r,
            ),
    {
        match self.check_progress(task_id) {
            Ok(_) => {},
            Err(e) => {
                return Err(e);
            },
        }
        self.enter(TaskState::Running);
        self.commit_chunk(chunk, lane, was_skipped, now);
        self.mark_completed_if_drained(now);
        self.stamp(now);
        Ok(())
    }

    /// Records a chunk that a worker carried over, without looking whether the task is done.
    pub fn record_commit_pending(
        &mut self,
        task_id: &str,
        chunk: ChunkDescriptor,
        lane: LaneAssignment,
        was_skipped: bool,
        now: u128,
    ) -> (r: Result<(), TransferEngineError>)
        requires
            old(self)@.wf(),
            committing_pending(
                old(self)@,
                task_id@,
                chunk,
                lane,
                was_skipped,
                now,
            ).task.metrics.fits(),
        ensures
            final(self)@.wf(),
            answered(
                final(self)@,
                committing_pending(old(self)@, task_id@, chunk, lane, was_skipped, now),
                r,
            ),
    {
        match self.check_progress(task_id) {
            Ok(_) => {},
            Err(e) => {
                return Err(e);
            },
        }
        self.enter(TaskState::Running);
        self.commit_chunk(chunk, lane, was_skipped, now);
        self.stamp(now);
        Ok(())
    }

    /// Records a leased chunk that a worker carried over.
    pub fn record_lease(
        &mut self,
        task_id: &str,
        lease: ChunkLease,
        was_skipped: bool,
        now: u128,
    ) -> (r: Result<(), TransferEngineError>)
        requires
            old(self)@.wf(),
            completing(old(self)@, task_id@, lease, was_skipped, now).task.metrics.fits(),
        ensures
            final(self)@.wf(),
            answered(
                final(self)@,
                completing(old(self)@, task_id@, lease, was_skipped, now),
                r,
            ),
    {
        match self.check_progress(task_id) {
            Ok(_) => {},
            Err(e) => {
                return Err(e);
            },
        }
        self.enter(TaskState::Running);
        self.commit_chunk(lease.chunk, lease.lane, was_skipped, now);
        let ghost u = self@;
        self.scheduler.complete(lease);
        assert(self@ =~= TaskView { scheduler: u.scheduler.complete(lease.lane), ..u });
        self.mark_completed_if_drained(now);
        self.stamp(now);
        Ok(())
    }

    /// Records a whole file that a worker carried over.
    pub fn record_file(
        &mut self,
        task_id: &str,
        file_index: usize,
        lane: LaneAssignment,
        was_skipped: bool,
        now: u128,
    ) -> (r: Result<(), TransferEngineError>)
        requires
            old(self)@.wf(),
            completing_file(
                old(self)@,
                task_id@,
                file_index,
                lane,
                was_skipped,
                now,
            ).task.metrics.fits(),
        ensures
            final(self)@.wf(),
            answered(
                final(self)@,
                completing_file(old(self)@, task_id@, file_index, lane, was_skipped, now),
                r,
            ),
    {
        match self.check_progress(task_id) {
            Ok(_) => {},
            Err(e) => {
                return Err(e);
            },
        }
        self.enter(TaskState::Running);
        if file_index >= self.items.len() {
            return Err(
                TransferEngineError::InvalidState(
                    checkpoint::about(
                        "unknown file ",
                        decimal::dec_text(file_index as u128).as_str(),
                    ),
                ),
            );
        }
        assert(self@.items[file_index as int] == self.items@[file_index as int]@);
        let chunks = models::split_into_chunks(
            file_index,
            self.items[file_index].size_bytes,
            self.config.chunk_size_bytes,
        );
        self.commit_all(&chunks, lane, was_skipped, now);
        self.mark_completed_if_drained(now);
        self.stamp(now);
        Ok(())
    }

    /// Takes another chunk length.
    pub fn rechunk(&mut self, chunk_size: u64, now: u128)
        requires
            old(self)@.wf(),
        ensures
            final(self)@.wf(),
            final(self)@ == rechunking(old(self)@, chunk_size, now).task,
    {
        if self.config.chunk_size_bytes == chunk_size {
            return ;
        }
        let ghost before = self@;
        let mut config = self.config.clone();
        config.chunk_size_bytes = chunk_size;
        let items = engine_task::copy_items(&self.items);
        let fresh = EngineTask::fresh(config, items, now);
        self.config = fresh.config;
        self.items = fresh.items;
        self.scheduler = fresh.scheduler;
        self.checkpoint = fresh.checkpoint;
        self.metrics = fresh.metrics;
        self.stamp(now);
    }

    /// Leases a chunk to a worker.
    pub fn lease(&mut self, task_id: &str, preferred_lane: LaneAssignment, now: u128) -> (r: Result<
        Option<ChunkLease>,
        TransferEngineError,
    >)
        requires
            old(self)@.wf(),
        ensures
            final(self)@.wf(),
            final(self)@ == leasing(old(self)@, task_id@, preferred_lane, now).0.task,
            match leasing(old(self)@, task_id@, preferred_lane, now).0.error {
                Some(e) => r is Err && r->Err_0@ == e,
                None => r == Ok::<Option<ChunkLease>, TransferEngineError>(
                    leasing(old(self)@, task_id@, preferred_lane, now).1,
                ),
            },
    {
        match self.check_progress(task_id) {
            Ok(_) => {},
            Err(e) => {
                return Err(e);
            },
        }
        if self.state == TaskState::Paused {
            return Ok(None);
        }
        self.enter(TaskState::Running);
        let ghost u = self@;
        let decision = self.scheduler.lease_next(&self.config, preferred_lane);
        assert(self@ =~= TaskView { scheduler: self.scheduler@, ..u });
        match decision {
            SchedulerDecision::Lease(lease) => {
                let record = engine_task::make_task_record(
                    now,
                    LogLevel::Debug,
                    LogScope::Transfer,
                    "real chunk leased",
                    self.config.task_id.as_str(),
                ).with_chunk_id(
                    decimal::dec_text(lease.chunk.chunk_index as u128).as_str(),
                ).with_lane(checkpoint::serialize_lane(lease.lane));
                self.push_log(record);
                Ok(Some(lease))
            },
            SchedulerDecision::Idle => Ok(None),
        }
    }
}

/// Whether a task and the reply are what an outcome says.
pub open spec fn answered(
    after: TaskView,
    o: Outcome,
    r: Result<(), TransferEngineError>,
) -> bool {
    &&& after == o.task
    &&& match o.error {
        Some(e) => r is Err && r->Err_0@ == e,
        None => r is Ok,
    }
}

/// A task under its id.
#[derive(Debug)]
struct TaskSlot {
    task_id: String,
    task: EngineTask,
}

/// All tasks.
#[derive(Debug)]
pub struct TransferEngine {
    checkpoint_store: CheckpointStore,
    tasks: Vec<TaskSlot>,
}

spec fn has_key(s: Seq<TaskSlot>, id: Seq<char>) -> bool {
    exists|i: int| 0 <= i < s.len() && (#[trigger] s[i]).task_id@ == id
}

spec fn place(s: Seq<TaskSlot>, id: Seq<char>) -> int {
    choose|i: int| 0 <= i < s.len() && (#[trigger] s[i]).task_id@ == id
}

spec fn slot_map(s: Seq<TaskSlot>) -> Map<Seq<char>, TaskView> {
    Map::new(|id: Seq<char>| has_key(s, id), |id: Seq<char>| s[place(s, id)].task@)
}

spec fn keys_ascend(s: Seq<TaskSlot>) -> bool {
    forall|i: int, j: int|
        0 <= i < j < s.len() ==> order::text_lt(
            (#[trigger] s[i]).task_id@,
            (#[trigger] s[j]).task_id@,
        )
}

spec fn slots_wf(s: Seq<TaskSlot>) -> bool {
    &&& keys_ascend(s)
    &&& forall|i: int| 0 <= i < s.len() ==> (#[trigger] s[i]).task@.wf()
}

proof fn lemma_slot_at(s: Seq<TaskSlot>, i: int)
    requires
        keys_ascend(s),
        0 <= i < s.len(),
    ensures
        slot_map(s).contains_key(s[i].task_id@),
        slot_map(s)[s[i].task_id@] == s[i].task@,
        place(s, s[i].task_id@) == i,
{
    let id = s[i].task_id@;
    assert(has_key(s, id));
    let p = place(s, id);
    order::lemma_text_lt_irreflexive(id);
    assert(s[p].task_id@ == id);
    if p < i {
        assert(order::text_lt(s[p].task_id@, s[i].task_id@));
    } else if i < p {
        assert(order::text_lt(s[i].task_id@, s[p].task_id@));
    }
}

proof fn lemma_slot_changed(before: Seq<TaskSlot>, after: Seq<TaskSlot>, i: int)
    requires
        slots_wf(before),
        0 <= i < before.len(),
        after.len() == before.len(),
        after[i].task_id@ == before[i].task_id@,
        after[i].task@.wf(),
        forall|j: int| 0 <= j < before.len() && j != i ==> #[trigger] after[j] == before[j],
    ensures
        slots_wf(after),
        slot_map(after) == slot_map(before).insert(before[i].task_id@, after[i].task@),
{
    assert forall|j: int| 0 <= j < after.len() implies (#[trigger] after[j]).task_id@
        == before[j].task_id@ by {}
    assert(keys_ascend(after)) by {
        assert forall|a: int, b: int| 0 <= a < b < after.len() implies order::text_lt(
            (#[trigger] after[a]).task_id@,
            (#[trigger] after[b]).task_id@,
        ) by {
            assert(order::text_lt(before[a].task_id@, before[b].task_id@));
        }
    }
    let want = slot_map(before).insert(before[i].task_id@, after[i].task@);
    assert forall|id: Seq<char>| slot_map(after).contains_key(id) <==> want.contains_key(id) by {
        if has_key(after, id) {
            let a = place(after, id);
            assert(before[a].task_id@ == id);
        }
        if has_key(before, id) {
            let a = place(before, id);
            assert(after[a].task_id@ == id);
        }
        assert(after[i].task_id@ == before[i].task_id@);
    }
    assert forall|id: Seq<char>| slot_map(after).contains_key(id) implies slot_map(after)[id]
        == want[id] by {
        let a = place(after, id);
        assert(after[a].task_id@ == id);
        lemma_slot_at(after, a);
        lemma_slot_at(before, a);
        lemma_slot_at(before, i);
    }
    assert(slot_map(after) =~= want);
}

proof fn lemma_slot_added(before: Seq<TaskSlot>, after: Seq<TaskSlot>, at: int, slot: TaskSlot)
    requires
        slots_wf(before),
        0 <= at <= before.len(),
        after == before.insert(at, slot),
        slot.task@.wf(),
        forall|j: int|
            0 <= j < at ==> order::text_lt((#[trigger] before[j]).task_id@, slot.task_id@),
        forall|j: int|
            at <= j < before.len() ==> order::text_lt(slot.task_id@, (#[trigger] before[j]).task_id@),
    ensures
        slots_wf(after),
        slot_map(after) == slot_map(before).insert(slot.task_id@, slot.task@),
{
    assert forall|j: int| 0 <= j < after.len() implies (#[trigger] after[j]) == (if j < at {
        before[j]
    } else if j == at {
        slot
    } else {
        before[j - 1]
    }) by {}
    assert(keys_ascend(after)) by {
        assert forall|a: int, b: int| 0 <= a < b < after.len() implies order::text_lt(
            (#[trigger] after[a]).task_id@,
            (#[trigger] after[b]).task_id@,
        ) by {
            let oa = if a < at {
                a
            } else {
                a - 1
            };
            let ob = if b < at {
                b
            } else {
                b - 1
            };
            if a == at {
                assert(after[b] == before[ob]);
            } else if b == at {
                assert(after[a] == before[oa]);
            } else {
                assert(order::text_lt(before[oa].task_id@, before[ob].task_id@));
            }
        }
    }
    let want = slot_map(before).insert(slot.task_id@, slot.task@);
    assert forall|id: Seq<char>| slot_map(after).contains_key(id) <==> want.contains_key(id) by {
        if has_key(after, id) {
            let a = place(after, id);
            if a < at {
                assert(before[a].task_id@ == id);
            } else if a > at {
                assert(before[a - 1].task_id@ == id);
            }
        }
        if has_key(before, id) {
            let a = place(before, id);
            if a < at {
                assert(after[a].task_id@ == id);
            } else {
                assert(after[a + 1].task_id@ == id);
            }
        }
        assert(after[at].task_id@ == slot.task_id@);
    }
    assert forall|id: Seq<char>| slot_map(after).contains_key(id) implies slot_map(after)[id]
        == want[id] by {
        let a = place(after, id);
        lemma_slot_at(after, a);
        lemma_slot_at(after, at);
        if a < at {
            lemma_slot_at(before, a);
        } else if a > at {
            lemma_slot_at(before, a - 1);
        }
    }
    assert(slot_map(after) =~= want);
}

proof fn lemma_slot_removed(before: Seq<TaskSlot>, after: Seq<TaskSlot>, at: int)
    requires
        slots_wf(before),
        0 <= at < before.len(),
        after == before.remove(at),
    ensures
        slots_wf(after),
        slot_map(after) == slot_map(before).remove(before[at].task_id@),
{
    assert forall|j: int| 0 <= j < after.len() implies (#[trigger] after[j]) == (if j < at {
        before[j]
    } else {
        before[j + 1]
    }) by {}
    let want = slot_map(before).remove(before[at].task_id@);
    assert forall|id: Seq<char>| slot_map(after).contains_key(id) <==> want.contains_key(id) by {
        lemma_slot_at(before, at);
        if has_key(after, id) {
            let a = place(after, id);
            let b = if a < at {
                a
            } else {
                a + 1
            };
            assert(before[b].task_id@ == id);
            lemma_slot_at(before, b);
        }
        if has_key(before, id) && id != before[at].task_id@ {
            let a = place(before, id);
            let b = if a < at {
                a
            } else {
                a - 1
            };
            assert(after[b].task_id@ == id);
        }
    }
    assert forall|id: Seq<char>| slot_map(after).contains_key(id) implies slot_map(after)[id]
        == want[id] by {
        let a = place(after, id);
        assert(has_key(after, id));
        assert(after[a].task_id@ == id);
        lemma_slot_at(after, a);
        let b = if a < at {
            a
        } else {
            a + 1
        };
        assert(before[b] == after[a]);
        lemma_slot_at(before, b);
        assert(want.contains_key(id));
    }
    assert(slot_map(after) =~= want);
}

/// Whether snapshots are those of all tasks, in the order of the task ids.
pub open spec fn lists_all(r: Seq<SnapshotView>, tasks: Map<Seq<char>, TaskView>) -> bool {
    exists|ids: Seq<Seq<char>>|
        {
            &&& ids.len() == r.len()
            &&& forall|i: int, j: int|
                0 <= i < j < ids.len() ==> order::text_lt(#[trigger] ids[i], #[trigger] ids[j])
            &&& ids.to_set() == tasks.dom()
            &&& forall|i: int|
                0 <= i < ids.len() ==> r[i] == (#[trigger] tasks[ids[i]]).snapshot()
        }
}

impl View for TransferEngine {
    type V = Map<Seq<char>, TaskView>;

    closed spec fn view(&self) -> Map<Seq<char>, TaskView> {
        slot_map(self.tasks@)
    }
}

impl TransferEngine {
    /// What holds of every engine: the tasks stand in the order of their ids, and each is well
    /// formed.
    pub closed spec fn wf(&self) -> bool {
        slots_wf(self.tasks@)
    }

    /// Where the checkpoints are kept.
    pub closed spec fn store_root(&self) -> Seq<char> {
        self.checkpoint_store.root_path()
    }

    /// An engine without tasks.
    pub fn new(checkpoint_root: &str) -> (r: Self)
        ensures
            r.wf(),
            r@ == Map::<Seq<char>, TaskView>::empty(),
            r.store_root() == checkpoint_root@,
    {
        let tasks: Vec<TaskSlot> = Vec::new();
        assert(slot_map(tasks@) =~= Map::<Seq<char>, TaskView>::empty());
        TransferEngine { checkpoint_store: CheckpointStore::new(checkpoint_root), tasks }
    }

    /// Where the checkpoints are kept.
    pub fn checkpoint_store(&self) -> (r: &CheckpointStore)
        ensures
            r.root_path() == self.store_root(),
    {
        &self.checkpoint_store
    }

    fn find(&self, task_id: &str) -> (r: Option<usize>)
        requires
            self.wf(),
        ensures
            match r {
                Some(i) => i < self.tasks.len() && self.tasks@[i as int].task_id@ == task_id@
                    && self@.contains_key(task_id@) && self@[task_id@] == self.tasks@[i as int].task@,
                None => !self@.contains_key(task_id@),
            },
    {
        let mut i: usize = 0;
        while i < self.tasks.len()
            invariant
                i <= self.tasks.len(),
                self.wf(),
                forall|k: int| 0 <= k < i ==> (#[trigger] self.tasks@[k]).task_id@ != task_id@,
            decreases self.tasks.len() - i,
        {
            if text::str_eq(self.tasks[i].task_id.as_str(), task_id) {
                proof {
                    lemma_slot_at(self.tasks@, i as int);
                }
                return Some(i);
            }
            i += 1;
        }
        None
    }

    /// Puts a task under an id; a task that stood there is replaced.
    pub fn admit_task(&mut self, task_id: String, task: EngineTask)
        requires
            old(self).wf(),
            task@.wf(),
        ensures
            final(self).wf(),
            final(self)@ == old(self)@.insert(task_id@, task@),
            final(self).store_root() == old(self).store_root(),
    {
        let ghost before = self.tasks@;
        match self.find(task_id.as_str()) {
            Some(i) => {
                self.tasks.set(i, TaskSlot { task_id, task });
                proof {
                    lemma_slot_changed(before, self.tasks@, i as int);
                }
            },
            None => {
                let mut at: usize = 0;
                while at < self.tasks.len() && order::text_less(
                    self.tasks[at].task_id.as_str(),
                    task_id.as_str(),
                )
                    invariant
                        at <= self.tasks.len(),
                        self.tasks@ == before,
                        self.checkpoint_store == old(self).checkpoint_store,
                        forall|k: int|
                            0 <= k < at ==> order::text_lt(
                                (#[trigger] before[k]).task_id@,
                                task_id@,
                            ),
                    decreases self.tasks.len() - at,
                {
                    at += 1;
                }
                assert forall|k: int| at <= k < before.len() implies order::text_lt(
                    task_id@,
                    (#[trigger] before[k]).task_id@,
                ) by {
                    assert(!has_key(before, task_id@));
                    assert(before[at as int].task_id@ != task_id@);
                    order::lemma_text_lt_total(task_id@, before[at as int].task_id@);
                    if k > at {
                        assert(order::text_lt(before[at as int].task_id@, before[k].task_id@));
                        order::lemma_text_lt_transitive(
                            task_id@,
                            before[at as int].task_id@,
                            before[k].task_id@,
                        );
                    }
                }
                let slot = TaskSlot { task_id, task };
                self.tasks.insert(at, slot);
                proof {
                    lemma_slot_added(before, self.tasks@, at as int, slot);
                }
            },
        }
    }

    /// Forgets a task; says whether it was known.
    pub fn delete_task_record(&mut self, task_id: &str) -> (r: bool)
        requires
            old(self).wf(),
        ensures
            final(self).wf(),
            r == old(self)@.contains_key(task_id@),
            final(self)@ == old(self)@.remove(task_id@),
            final(self).store_root() == old(self).store_root(),
    {
        let ghost before = self.tasks@;
        match self.find(task_id) {
            Some(i) => {
                let _ = self.tasks.remove(i);
                proof {
                    lemma_slot_removed(before, self.tasks@, i as int);
                }
                true
            },
            None => {
                assert(old(self)@.remove(task_id@) =~= old(self)@);
                false
            },
        }
    }

    /// Creates a task and puts it under its id, at `now`.
    pub fn create_task_at(&mut self, config: TaskConfig, items: Vec<TransferItem>, now: u128) -> (r:
        Result<EngineTaskSnapshot, TransferEngineError>)
        requires
            old(self).wf(),
            engine_task::total_size(models::item_views(items@)) <= u64::MAX,
        ensures
            final(self).wf(),
            final(self).store_root() == old(self).store_root(),
            created(
                old(self)@,
                final(self)@,
                config@,
                models::item_views(items@),
                now,
                r,
            ),
    {
        let task_id = config.task_id.clone();
        let task = EngineTask::fresh(config, items, now);
        let snapshot = task.snapshot();
        self.admit_task(task_id, task);
        Ok(snapshot)
    }

    /// Creates a task and puts it under its id.
    pub fn create_task(&mut self, config: TaskConfig, items: Vec<TransferItem>) -> (r: Result<
        EngineTaskSnapshot,
        TransferEngineError,
    >)
        requires
            old(self).wf(),
            engine_task::total_size(models::item_views(items@)) <= u64::MAX,
        ensures
            final(self).wf(),
            final(self).store_root() == old(self).store_root(),
            exists|now: u128| #[trigger]
                created(old(self)@, final(self)@, config@, models::item_views(items@), now, r),
    {
        let now: u128 = models::now_epoch_ms();
        self.create_task_at(config, items, now)
    }
}

/// Whether a task was created.
pub open spec fn created(
    before: Map<Seq<char>, TaskView>,
    after: Map<Seq<char>, TaskView>,
    config: TaskConfigView,
    items: Seq<TransferItemView>,
    now: u128,
    r: Result<EngineTaskSnapshot, TransferEngineError>,
) -> bool {
    let t = engine_task::fresh_task(config, items, now);
    &&& after == before.insert(config.task_id, t)
    &&& r is Ok
    &&& r->Ok_0@ == t.snapshot()
}

/// Whether the numbers still fit once a chunk is committed, where it is.
pub open spec fn commit_fits(t: TaskView, chunk: ChunkDescriptor) -> bool {
    can_progress(t) && t.accepts(chunk) ==> t.metrics.committed + chunk.length <= u64::MAX && t.metrics.chunks
        < u64::MAX
}

/// Whether the numbers still fit after up to `steps` chunks, where the task advances; the time
/// plays no part in them.
pub open spec fn tick_fits(t: TaskView, steps: usize) -> bool {
    !is_terminal(t.state) && t.state != TaskState::Paused ==> t.in_state(TaskState::Running).stepped(
        if steps == 0 {
            1
        } else {
            steps as nat
        },
        0,
    ).0.metrics.fits()
}

/// Whether the numbers still fit once a whole file is committed, where it is; neither the lane nor
/// the time plays a part in that.
pub open spec fn file_fits(t: TaskView, file_index: usize) -> bool {
    can_progress(t) && file_index < t.items.len() ==> t.committed_all(
        models::chunks_of(
            file_index,
            t.items[file_index as int].size_bytes,
            t.config.chunk_size_bytes,
        ),
        LaneAssignment::Adb,
        false,
        0,
    ).metrics.fits()
}

/// Whether two tasks agree but for their records.
spec fn alike(a: TaskView, b: TaskView) -> bool {
    &&& a.scheduler == b.scheduler
    &&& a.metrics == b.metrics
    &&& a.config == b.config
    &&& a.files() == b.files()
}

proof fn lemma_steps_alike(t: TaskView, u: TaskView, steps: nat, n1: u128, n2: u128)
    requires
        alike(t, u),
    ensures
        alike(t.stepped(steps, n1).0, u.stepped(steps, n2).0),
        t.stepped(steps, n1).1 == u.stepped(steps, n2).1,
    decreases steps,
{
    if steps > 0 {
        lemma_steps_alike(t, u, (steps - 1) as nat, n1, n2);
    }
}

/// Whether two tasks count the same chunks as done, the same bytes and the same number of them.
spec fn counts_alike(a: TaskView, b: TaskView) -> bool {
    &&& a.metrics.committed == b.metrics.committed
    &&& a.metrics.chunks == b.metrics.chunks
    &&& a.files().len() == b.files().len()
    &&& forall|i: int|
        0 <= i < a.files().len() ==> (#[trigger] a.files()[i]).completed_chunks
            == b.files()[i].completed_chunks
}

proof fn lemma_commits_alike(
    t: TaskView,
    u: TaskView,
    chunks: Seq<ChunkDescriptor>,
    lane: LaneAssignment,
    was_skipped: bool,
    now: u128,
)
    requires
        counts_alike(t, u),
    ensures
        counts_alike(
            t.committed_all(chunks, LaneAssignment::Adb, false, 0),
            u.committed_all(chunks, lane, was_skipped, now),
        ),
    decreases chunks.len(),
{
    if chunks.len() > 0 {
        lemma_commits_alike(t, u, chunks.drop_last(), lane, was_skipped, now);
        let a = t.committed_all(chunks.drop_last(), LaneAssignment::Adb, false, 0);
        let b = u.committed_all(chunks.drop_last(), lane, was_skipped, now);
        let c = chunks.last();
        if c.file_index < a.files().len() {
            assert(a.files()[c.file_index as int].completed_chunks
                == b.files()[c.file_index as int].completed_chunks);
        }
    }
}

impl TransferEngine {
    /// Pauses a task at `now`.
    pub fn pause_task_at(&mut self, task_id: &str, now: u128) -> (r: Result<EngineTaskSnapshot, TransferEngineError>)
        requires
            old(self).wf(),
        ensures
            final(self).wf(),
            final(self).store_root() == old(self).store_root(),
            settled(old(self)@, final(self)@, task_id@, pausing(old(self)@[task_id@], task_id@, now), r),
    {
        let ghost before = self.tasks@;
        match self.find(task_id) {
            None => Err(TransferEngineError::UnknownTask(task_id.to_string())),
            Some(i) => {
                let answer = self.tasks[i].task.pause(task_id, now);
                proof {
                    lemma_slot_changed(before, self.tasks@, i as int);
                }
                match answer {
                    Ok(_) => Ok(self.tasks[i].task.snapshot()),
                    Err(e) => Err(e),
                }
            },
        }
    }

    /// Pauses a task.
    pub fn pause_task(&mut self, task_id: &str) -> (r: Result<EngineTaskSnapshot, TransferEngineError>)
        requires
            old(self).wf(),
        ensures
            final(self).wf(),
            final(self).store_root() == old(self).store_root(),
            exists|now: u128|
                settled(old(self)@, final(self)@, task_id@, #[trigger] pausing(old(self)@[task_id@], task_id@, now), r),
    {
        let now: u128 = models::now_epoch_ms();
        self.pause_task_at(task_id, now)
    }

    /// Resumes a paused task at `now`.
    pub fn resume_task_at(&mut self, task_id: &str, now: u128) -> (r: Result<EngineTaskSnapshot, TransferEngineError>)
        requires
            old(self).wf(),
        ensures
            final(self).wf(),
            final(self).store_root() == old(self).store_root(),
            settled(old(self)@, final(self)@, task_id@, resuming(old(self)@[task_id@], task_id@, now), r),
    {
        let ghost before = self.tasks@;
        match self.find(task_id) {
            None => Err(TransferEngineError::UnknownTask(task_id.to_string())),
            Some(i) => {
                let answer = self.tasks[i].task.resume(task_id, now);
                proof {
                    lemma_slot_changed(before, self.tasks@, i as int);
                }
                match answer {
                    Ok(_) => Ok(self.tasks[i].task.snapshot()),
                    Err(e) => Err(e),
                }
            },
        }
    }

    /// Resumes a paused task.
    pub fn resume_task(&mut self, task_id: &str) -> (r: Result<EngineTaskSnapshot, TransferEngineError>)
        requires
            old(self).wf(),
        ensures
            final(self).wf(),
            final(self).store_root() == old(self).store_root(),
            exists|now: u128|
                settled(old(self)@, final(self)@, task_id@, #[trigger] resuming(old(self)@[task_id@], task_id@, now), r),
    {
        let now: u128 = models::now_epoch_ms();
        self.resume_task_at(task_id, now)
    }

    /// Cancels a task at `now`.
    pub fn cancel_task_at(&mut self, task_id: &str, now: u128) -> (r: Result<EngineTaskSnapshot, TransferEngineError>)
        requires
            old(self).wf(),
        ensures
            final(self).wf(),
            final(self).store_root() == old(self).store_root(),
            settled(old(self)@, final(self)@, task_id@, cancelling(old(self)@[task_id@], task_id@, now), r),
    {
        let ghost before = self.tasks@;
        match self.find(task_id) {
            None => Err(TransferEngineError::UnknownTask(task_id.to_string())),
            Some(i) => {
                let answer = self.tasks[i].task.cancel(task_id, now);
                proof {
                    lemma_slot_changed(before, self.tasks@, i as int);
                }
                match answer {
                    Ok(_) => Ok(self.tasks[i].task.snapshot()),
                    Err(e) => Err(e),
                }
            },
        }
    }

    /// Cancels a task.
    pub fn cancel_task(&mut self, task_id: &str) -> (r: Result<EngineTaskSnapshot, TransferEngineError>)
        requires
            old(self).wf(),
        ensures
            final(self).wf(),
            final(self).store_root() == old(self).store_root(),
            exists|now: u128|
                settled(old(self)@, final(self)@, task_id@, #[trigger] cancelling(old(self)@[task_id@], task_id@, now), r),
    {
        let now: u128 = models::now_epoch_ms();
        self.cancel_task_at(task_id, now)
    }

    /// Stages a task for another try at `now`.
    pub fn retry_task_at(&mut self, task_id: &str, now: u128) -> (r: Result<EngineTaskSnapshot, TransferEngineError>)
        requires
            old(self).wf(),
        ensures
            final(self).wf(),
            final(self).store_root() == old(self).store_root(),
            settled(old(self)@, final(self)@, task_id@, retrying(old(self)@[task_id@], task_id@, now), r),
    {
        let ghost before = self.tasks@;
        match self.find(task_id) {
            None => Err(TransferEngineError::UnknownTask(task_id.to_string())),
            Some(i) => {
                let answer = self.tasks[i].task.retry(task_id, now);
                proof {
                    lemma_slot_changed(before, self.tasks@, i as int);
                }
                match answer {
                    Ok(_) => Ok(self.tasks[i].task.snapshot()),
                    Err(e) => Err(e),
                }
            },
        }
    }

    /// Stages a task for another try.
    pub fn retry_task(&mut self, task_id: &str) -> (r: Result<EngineTaskSnapshot, TransferEngineError>)
        requires
            old(self).wf(),
        ensures
            final(self).wf(),
            final(self).store_root() == old(self).store_root(),
            exists|now: u128|
                settled(old(self)@, final(self)@, task_id@, #[trigger] retrying(old(self)@[task_id@], task_id@, now), r),
    {
        let now: u128 = models::now_epoch_ms();
        self.retry_task_at(task_id, now)
    }

    /// Marks a task as failed at `now`.
    pub fn record_task_failure_at(&mut self, task_id: &str, message: &str, now: u128) -> (r: Result<
        EngineTaskSnapshot,
        TransferEngineError,
    >)
        requires
            old(self).wf(),
        ensures
            final(self).wf(),
            final(self).store_root() == old(self).store_root(),
            settled(
                old(self)@,
                final(self)@,
                task_id@,
                failing(old(self)@[task_id@], message@, now),
                r,
            ),
    {
        let ghost before = self.tasks@;
        match self.find(task_id) {
            None => Err(TransferEngineError::UnknownTask(task_id.to_string())),
            Some(i) => {
                self.tasks[i].task.fail(message, now);
                proof {
                    lemma_slot_changed(before, self.tasks@, i as int);
                }
                Ok(self.tasks[i].task.snapshot())
            },
        }
    }

    /// Marks a task as failed.
    pub fn record_task_failure(&mut self, task_id: &str, message: &str) -> (r: Result<
        EngineTaskSnapshot,
        TransferEngineError,
    >)
        requires
            old(self).wf(),
        ensures
            final(self).wf(),
            final(self).store_root() == old(self).store_root(),
            exists|now: u128|
                settled(
                    old(self)@,
                    final(self)@,
                    task_id@,
                    #[trigger] failing(old(self)@[task_id@], message@, now),
                    r,
                ),
    {
        let now: u128 = models::now_epoch_ms();
        self.record_task_failure_at(task_id, message, now)
    }

    /// Advances a task by up to `steps` chunks, at least one, at `now`.
    pub fn tick_task_at(&mut self, task_id: &str, steps: usize, now: u128) -> (r: Result<TransferUpdate, TransferEngineError>)
        requires
            old(self).wf(),
            old(self)@.contains_key(task_id@) ==> tick_fits(old(self)@[task_id@], steps),
        ensures
            final(self).wf(),
            final(self).store_root() == old(self).store_root(),
            updated(old(self)@, final(self)@, task_id@, ticking(old(self)@[task_id@], task_id@, steps, now), r),
    {
        let ghost before = self.tasks@;
        match self.find(task_id) {
            None => Err(TransferEngineError::UnknownTask(task_id.to_string())),
            Some(i) => {
                proof {
                    let t = self@[task_id@];
                    let u = t.in_state(TaskState::Running);
                    lemma_steps_alike(
                        u,
                        u,
                        if steps == 0 {
                            1
                        } else {
                            steps as nat
                        },
                        0,
                        now,
                    );
                }
                let answer = self.tasks[i].task.tick(task_id, steps, now);
                match answer {
                    Ok(_) => {
                        let snapshot = self.tasks[i].task.snapshot();
                        let new_logs = self.tasks[i].task.drain_new_logs();
                        proof {
                            lemma_slot_changed(before, self.tasks@, i as int);
                        }
                        Ok(TransferUpdate { snapshot, new_logs })
                    },
                    Err(e) => {
                        proof {
                            lemma_slot_changed(before, self.tasks@, i as int);
                        }
                        Err(e)
                    },
                }
            },
        }
    }

    /// Advances a task by up to `steps` chunks, at least one.
    pub fn tick_task(&mut self, task_id: &str, steps: usize) -> (r: Result<TransferUpdate, TransferEngineError>)
        requires
            old(self).wf(),
            old(self)@.contains_key(task_id@) ==> tick_fits(old(self)@[task_id@], steps),
        ensures
            final(self).wf(),
            final(self).store_root() == old(self).store_root(),
            exists|now: u128|
                updated(old(self)@, final(self)@, task_id@, #[trigger] ticking(old(self)@[task_id@], task_id@, steps, now), r),
    {
        let now: u128 = models::now_epoch_ms();
        self.tick_task_at(task_id, steps, now)
    }

    /// Records a chunk that a worker carried over, at `now`.
    pub fn record_real_chunk_commit_at(&mut self, task_id: &str, chunk: ChunkDescriptor, lane: LaneAssignment, was_skipped: bool, now: u128) -> (r: Result<TransferUpdate, TransferEngineError>)
        requires
            old(self).wf(),
            old(self)@.contains_key(task_id@) ==> commit_fits(old(self)@[task_id@], chunk),
        ensures
            final(self).wf(),
            final(self).store_root() == old(self).store_root(),
            updated(old(self)@, final(self)@, task_id@, committing(old(self)@[task_id@], task_id@, chunk, lane, was_skipped, now), r),
    {
        let ghost before = self.tasks@;
        match self.find(task_id) {
            None => Err(TransferEngineError::UnknownTask(task_id.to_string())),
            Some(i) => {
                let answer = self.tasks[i].task.record_commit(task_id, chunk, lane, was_skipped, now);
                match answer {
                    Ok(_) => {
                        let snapshot = self.tasks[i].task.snapshot();
                        let new_logs = self.tasks[i].task.drain_new_logs();
                        proof {
                            lemma_slot_changed(before, self.tasks@, i as int);
                        }
                        Ok(TransferUpdate { snapshot, new_logs })
                    },
                    Err(e) => {
                        proof {
                            lemma_slot_changed(before, self.tasks@, i as int);
                        }
                        Err(e)
                    },
                }
            },
        }
    }

    /// Records a chunk that a worker carried over.
    pub fn record_real_chunk_commit(&mut self, task_id: &str, chunk: ChunkDescriptor, lane: LaneAssignment, was_skipped: bool) -> (r: Result<TransferUpdate, TransferEngineError>)
        requires
            old(self).wf(),
            old(self)@.contains_key(task_id@) ==> commit_fits(old(self)@[task_id@], chunk),
        ensures
            final(self).wf(),
            final(self).store_root() == old(self).store_root(),
            exists|now: u128|
                updated(old(self)@, final(self)@, task_id@, #[trigger] committing(old(self)@[task_id@], task_id@, chunk, lane, was_skipped, now), r),
    {
        let now: u128 = models::now_epoch_ms();
        self.record_real_chunk_commit_at(task_id, chunk, lane, was_skipped, now)
    }

    /// Records a chunk that a worker carried over, at `now`, without looking whether the task is done.
    pub fn record_real_chunk_commit_pending_at(&mut self, task_id: &str, chunk: ChunkDescriptor, lane: LaneAssignment, was_skipped: bool, now: u128) -> (r: Result<TransferUpdate, TransferEngineError>)
        requires
            old(self).wf(),
            old(self)@.contains_key(task_id@) ==> commit_fits(old(self)@[task_id@], chunk),
        ensures
            final(self).wf(),
            final(self).store_root() == old(self).store_root(),
            updated(old(self)@, final(self)@, task_id@, committing_pending(old(self)@[task_id@], task_id@, chunk, lane, was_skipped, now), r),
    {
        let ghost before = self.tasks@;
        match self.find(task_id) {
            None => Err(TransferEngineError::UnknownTask(task_id.to_string())),
            Some(i) => {
                let answer = self.tasks[i].task.record_commit_pending(task_id, chunk, lane, was_skipped, now);
                match answer {
                    Ok(_) => {
                        let snapshot = self.tasks[i].task.snapshot();
                        let new_logs = self.tasks[i].task.drain_new_logs();
                        proof {
                            lemma_slot_changed(before, self.tasks@, i as int);
                        }
                        Ok(TransferUpdate { snapshot, new_logs })
                    },
                    Err(e) => {
                        proof {
                            lemma_slot_changed(before, self.tasks@, i as int);
                        }
                        Err(e)
                    },
                }
            },
        }
    }

    /// Records a chunk that a worker carried over, without looking whether the task is done.
    pub fn record_real_chunk_commit_pending(&mut self, task_id: &str, chunk: ChunkDescriptor, lane: LaneAssignment, was_skipped: bool) -> (r: Result<TransferUpdate, TransferEngineError>)
        requires
            old(self).wf(),
            old(self)@.contains_key(task_id@) ==> commit_fits(old(self)@[task_id@], chunk),
        ensures
            final(self).wf(),
            final(self).store_root() == old(self).store_root(),
            exists|now: u128|
                updated(old(self)@, final(self)@, task_id@, #[trigger] committing_pending(old(self)@[task_id@], task_id@, chunk, lane, was_skipped, now), r),
    {
        let now: u128 = models::now_epoch_ms();
        self.record_real_chunk_commit_pending_at(task_id, chunk, lane, was_skipped, now)
    }

    /// Records a leased chunk that a worker carried over, at `now`.
    pub fn complete_real_chunk_lease_at(&mut self, task_id: &str, lease: ChunkLease, was_skipped: bool, now: u128) -> (r: Result<TransferUpdate, TransferEngineError>)
        requires
            old(self).wf(),
            old(self)@.contains_key(task_id@) ==> commit_fits(old(self)@[task_id@], lease.chunk),
        ensures
            final(self).wf(),
            final(self).store_root() == old(self).store_root(),
            updated(old(self)@, final(self)@, task_id@, completing(old(self)@[task_id@], task_id@, lease, was_skipped, now), r),
    {
        let ghost before = self.tasks@;
        match self.find(task_id) {
            None => Err(TransferEngineError::UnknownTask(task_id.to_string())),
            Some(i) => {
                let answer = self.tasks[i].task.record_lease(task_id, lease, was_skipped, now);
                match answer {
                    Ok(_) => {
                        let snapshot = self.tasks[i].task.snapshot();
                        let new_logs = self.tasks[i].task.drain_new_logs();
                        proof {
                            lemma_slot_changed(before, self.tasks@, i as int);
                        }
                        Ok(TransferUpdate { snapshot, new_logs })
                    },
                    Err(e) => {
                        proof {
                            lemma_slot_changed(before, self.tasks@, i as int);
                        }
                        Err(e)
                    },
                }
            },
        }
    }

    /// Records a leased chunk that a worker carried over.
    pub fn complete_real_chunk_lease(&mut self, task_id: &str, lease: ChunkLease, was_skipped: bool) -> (r: Result<TransferUpdate, TransferEngineError>)
        requires
            old(self).wf(),
            old(self)@.contains_key(task_id@) ==> commit_fits(old(self)@[task_id@], lease.chunk),
        ensures
            final(self).wf(),
            final(self).store_root() == old(self).store_root(),
            exists|now: u128|
                updated(old(self)@, final(self)@, task_id@, #[trigger] completing(old(self)@[task_id@], task_id@, lease, was_skipped, now), r),
    {
        let now: u128 = models::now_epoch_ms();
        self.complete_real_chunk_lease_at(task_id, lease, was_skipped, now)
    }

    /// Records a whole file that a worker carried over, at `now`.
    pub fn record_real_file_complete_at(&mut self, task_id: &str, file_index: usize, lane: LaneAssignment, was_skipped: bool, now: u128) -> (r: Result<TransferUpdate, TransferEngineError>)
        requires
            old(self).wf(),
            old(self)@.contains_key(task_id@) ==> file_fits(old(self)@[task_id@], file_index),
        ensures
            final(self).wf(),
            final(self).store_root() == old(self).store_root(),
            updated(old(self)@, final(self)@, task_id@, completing_file(old(self)@[task_id@], task_id@, file_index, lane, was_skipped, now), r),
    {
        let ghost before = self.tasks@;
        match self.find(task_id) {
            None => Err(TransferEngineError::UnknownTask(task_id.to_string())),
            Some(i) => {
                proof {
                    let t = self@[task_id@];
                    if file_index < t.items.len() {
                        lemma_commits_alike(
                            t,
                            t.in_state(TaskState::Running),
                            models::chunks_of(
                                file_index,
                                t.items[file_index as int].size_bytes,
                                t.config.chunk_size_bytes,
                            ),
                            lane,
                            was_skipped,
                            now,
                        );
                    }
                }
                let answer = self.tasks[i].task.record_file(task_id, file_index, lane, was_skipped, now);
                match answer {
                    Ok(_) => {
                        let snapshot = self.tasks[i].task.snapshot();
                        let new_logs = self.tasks[i].task.drain_new_logs();
                        proof {
                            lemma_slot_changed(before, self.tasks@, i as int);
                        }
                        Ok(TransferUpdate { snapshot, new_logs })
                    },
                    Err(e) => {
                        proof {
                            lemma_slot_changed(before, self.tasks@, i as int);
                        }
                        Err(e)
                    },
                }
            },
        }
    }

    /// Records a whole file that a worker carried over.
    pub fn record_real_file_complete(&mut self, task_id: &str, file_index: usize, lane: LaneAssignment, was_skipped: bool) -> (r: Result<TransferUpdate, TransferEngineError>)
        requires
            old(self).wf(),
            old(self)@.contains_key(task_id@) ==> file_fits(old(self)@[task_id@], file_index),
        ensures
            final(self).wf(),
            final(self).store_root() == old(self).store_root(),
            exists|now: u128|
                updated(old(self)@, final(self)@, task_id@, #[trigger] completing_file(old(self)@[task_id@], task_id@, file_index, lane, was_skipped, now), r),
    {
        let now: u128 = models::now_epoch_ms();
        self.record_real_file_complete_at(task_id, file_index, lane, was_skipped, now)
    }

    /// Gives a task another chunk length, at `now`.
    pub fn reconfigure_task_chunk_size_at(
        &mut self,
        task_id: &str,
        chunk_size: u64,
        now: u128,
    ) -> (r: Result<EngineTaskSnapshot, TransferEngineError>)
        requires
            old(self).wf(),
        ensures
            final(self).wf(),
            final(self).store_root() == old(self).store_root(),
            settled(
                old(self)@,
                final(self)@,
                task_id@,
                rechunking(old(self)@[task_id@], chunk_size, now),
                r,
            ),
    {
        let ghost before = self.tasks@;
        match self.find(task_id) {
            None => Err(TransferEngineError::UnknownTask(task_id.to_string())),
            Some(i) => {
                self.tasks[i].task.rechunk(chunk_size, now);
                proof {
                    lemma_slot_changed(before, self.tasks@, i as int);
                }
                Ok(self.tasks[i].task.snapshot())
            },
        }
    }

    /// Gives a task another chunk length.
    pub fn reconfigure_task_chunk_size(&mut self, task_id: &str, chunk_size: u64) -> (r: Result<
        EngineTaskSnapshot,
        TransferEngineError,
    >)
        requires
            old(self).wf(),
        ensures
            final(self).wf(),
            final(self).store_root() == old(self).store_root(),
            exists|now: u128|
                settled(
                    old(self)@,
                    final(self)@,
                    task_id@,
                    #[trigger] rechunking(old(self)@[task_id@], chunk_size, now),
                    r,
                ),
    {
        let now: u128 = models::now_epoch_ms();
        self.reconfigure_task_chunk_size_at(task_id, chunk_size, now)
    }

    /// Leases a chunk to a worker, at `now`.
    pub fn lease_real_chunk_at(&mut self, task_id: &str, preferred_lane: LaneAssignment, now: u128)
        -> (r: Result<Option<ChunkLease>, TransferEngineError>)
        requires
            old(self).wf(),
        ensures
            final(self).wf(),
            final(self).store_root() == old(self).store_root(),
            leased(
                old(self)@,
                final(self)@,
                task_id@,
                leasing(old(self)@[task_id@], task_id@, preferred_lane, now),
                r,
            ),
    {
        let ghost before = self.tasks@;
        match self.find(task_id) {
            None => Err(TransferEngineError::UnknownTask(task_id.to_string())),
            Some(i) => {
                let answer = self.tasks[i].task.lease(task_id, preferred_lane, now);
                proof {
                    lemma_slot_changed(before, self.tasks@, i as int);
                }
                answer
            },
        }
    }

    /// Leases a chunk to a worker.
    pub fn lease_real_chunk(&mut self, task_id: &str, preferred_lane: LaneAssignment) -> (r: Result<
        Option<ChunkLease>,
        TransferEngineError,
    >)
        requires
            old(self).wf(),
        ensures
            final(self).wf(),
            final(self).store_root() == old(self).store_root(),
            exists|now: u128|
                leased(
                    old(self)@,
                    final(self)@,
                    task_id@,
                    #[trigger] leasing(old(self)@[task_id@], task_id@, preferred_lane, now),
                    r,
                ),
    {
        let now: u128 = models::now_epoch_ms();
        self.lease_real_chunk_at(task_id, preferred_lane, now)
    }
}

/// As `settled`, for a reply that is a lease, if there is one.
pub open spec fn leased(
    before: Map<Seq<char>, TaskView>,
    after: Map<Seq<char>, TaskView>,
    id: Seq<char>,
    o: (Outcome, Option<ChunkLease>),
    r: Result<Option<ChunkLease>, TransferEngineError>,
) -> bool {
    if !before.contains_key(id) {
        after == before && r is Err && r->Err_0@ == EngineErrorView::UnknownTask(id)
    } else {
        &&& after == before.insert(id, o.0.task)
        &&& match o.0.error {
            Some(e) => r is Err && r->Err_0@ == e,
            None => r == Ok::<Option<ChunkLease>, TransferEngineError>(o.1),
        }
    }
}

/// What comes of asking for a task's entry: the one in memory, or the one on disk.
pub open spec fn entry_found(
    tasks: Map<Seq<char>, TaskView>,
    id: Seq<char>,
    read: Result<String, String>,
) -> Result<CheckpointEntryView, EngineErrorView> {
    if tasks.contains_key(id) {
        Ok(tasks[id].checkpoint)
    } else {
        match read {
            Err(m) => Err(EngineErrorView::Persistence(m@)),
            Ok(content) => match checkpoint_text::read_entry(content@) {
                Ok(e) => Ok(e),
                Err(m) => Err(EngineErrorView::Persistence(m)),
            },
        }
    }
}

/// Whether a task was recovered from what reading its checkpoint gave; a task in memory stays as
/// it is.
pub open spec fn recovered(
    before: Map<Seq<char>, TaskView>,
    after: Map<Seq<char>, TaskView>,
    id: Seq<char>,
    read: Result<String, String>,
    now: u128,
    r: Result<EngineTaskSnapshot, TransferEngineError>,
) -> bool {
    if before.contains_key(id) {
        after == before && r is Ok && r->Ok_0@ == before[id].snapshot()
    } else {
        match entry_found(before, id, read) {
            Err(e) => after == before && r is Err && r->Err_0@ == e,
            Ok(entry) => {
                let t = engine_task::recovered_task(entry, id, now);
                &&& after == before.insert(id, t)
                &&& r is Ok
                &&& r->Ok_0@ == t.snapshot()
            },
        }
    }
}

/// Whether the numbers of the task that a checkpoint's text stands for fit 64 bits.
pub open spec fn content_fits(read: Result<String, String>) -> bool {
    match read {
        Err(_) => true,
        Ok(content) => match checkpoint_text::read_entry(content@) {
            Ok(e) => engine_task::recovery_fits(e),
            Err(_) => true,
        },
    }
}

/// Whether the sizes of the files that a scan lists fit 64 bits together.
pub open spec fn scan_fits(source_root: Seq<char>, scan: SourceScan, now: u128) -> bool {
    match scan.canonical_root {
        Err(_) => true,
        Ok(root) => match inventory::collected(
            root@,
            scan.selected@.map_values(|s: inventory::SelectedScan| s@),
            now,
        ) {
            Err(_) => true,
            Ok(items) => forall|out: Seq<TransferItemView>| #[trigger]
                inventory::sorted_firsts(out, items) ==> engine_task::total_size(out) <= u64::MAX,
        },
    }
}

/// Whether the numbers of the task that a checkpoint's text stands for fit 64 bits.
pub fn content_would_fit(read: &Result<String, String>) -> (r: bool)
    ensures
        r == content_fits(*read),
{
    match read {
        Err(_) => true,
        Ok(content) => match checkpoint_text::deserialize_entry(content.as_str()) {
            Err(_) => true,
            Ok(entry) => engine_task::rebuild_metrics(
                &entry.config,
                &entry.checkpoint.files,
            ).is_some(),
        },
    }
}

/// Whether the sizes of the files that a scan lists fit 64 bits together, each as often as it is
/// listed.
pub fn scan_would_fit(scan: &SourceScan) -> (r: bool)
    ensures
        r ==> forall|source_root: Seq<char>, now: u128| #[trigger]
            scan_fits(source_root, *scan, now),
        !r ==> inventory::listed_bytes(
            scan.selected@.map_values(|s: inventory::SelectedScan| s@),
        ) > u64::MAX,
{
    let r = inventory::total_listed(&scan.selected).is_some();
    proof {
        let selected = scan.selected@.map_values(|s: inventory::SelectedScan| s@);
        if r {
            assert forall|source_root: Seq<char>, now: u128| #[trigger]
                scan_fits(source_root, *scan, now) by {
                if let Ok(root) = scan.canonical_root {
                    if let Ok(items) = inventory::collected(root@, selected, now) {
                        inventory::lemma_collected_bytes(root@, selected, now);
                        assert forall|out: Seq<TransferItemView>| #[trigger]
                            inventory::sorted_firsts(out, items) implies engine_task::total_size(out)
                            <= u64::MAX by {
                            inventory::lemma_firsts_are_no_more(out, items);
                        }
                    }
                }
            }
        }
    }
    r
}

/// Whether a task was created from what a scan found.
pub open spec fn created_from_scan(
    before: Map<Seq<char>, TaskView>,
    after: Map<Seq<char>, TaskView>,
    config: TaskConfigView,
    scan: SourceScan,
    now: u128,
    r: Result<EngineTaskSnapshot, TransferEngineError>,
) -> bool {
    exists|listed: Result<Vec<TransferItem>, inventory::InventoryBuildError>|
        {
            &&& #[trigger] inventory::expanded(listed, config.source_root, scan, now)
            &&& match listed {
                Ok(items) => created(before, after, config, models::item_views(items@), now, r),
                Err(e) => after == before && r is Err && r->Err_0@ == EngineErrorView::Inventory(
                    inventory::error_text(e@),
                ),
            }
        }
}

/// Whether a task is neither in memory nor in a checkpoint that can be read.
pub open spec fn is_created_anew(
    tasks: Map<Seq<char>, TaskView>,
    id: Seq<char>,
    read: Result<String, String>,
) -> bool {
    !tasks.contains_key(id) && entry_found(tasks, id, read) is Err
}

/// Whether a task was found in memory, recovered from its checkpoint, or created.
pub open spec fn created_or_recovered(
    before: Map<Seq<char>, TaskView>,
    after: Map<Seq<char>, TaskView>,
    config: TaskConfigView,
    read: Result<String, String>,
    scan: SourceScan,
    now: u128,
    r: Result<EngineTaskSnapshot, TransferEngineError>,
) -> bool {
    if is_created_anew(before, config.task_id, read) {
        created_from_scan(before, after, config, scan, now, r)
    } else {
        recovered(before, after, config.task_id, read, now, r)
    }
}

/// The settings of the demonstration task.
pub open spec fn demo_config(now: u128) -> TaskConfigView {
    models::fresh_config(
        "demo-task"@,
        Direction::PcToAndroid,
        TransportMode::Dual,
        false,
        "C:/Users/demo/Documents"@,
        "/sdcard/Backup"@,
        now,
    )
}

/// The files of the demonstration task.
pub open spec fn demo_items(now: u128) -> Seq<TransferItemView> {
    seq![
        demo_item("media/archive-01.bin"@, (96 * 1024 * 1024) as u64, now),
        demo_item("photos/set-a/cat-01.jpg"@, (6 * 1024 * 1024) as u64, now),
        demo_item("photos/set-a/cat-02.jpg"@, (7 * 1024 * 1024) as u64, now),
    ]
}

/// A file without fingerprint.
pub open spec fn demo_item(path: Seq<char>, size: u64, now: u128) -> TransferItemView {
    TransferItemView {
        relative_path: path,
        size_bytes: size,
        modified_at_epoch_ms: now,
        fingerprint: None,
    }
}

/// Whether the demonstration task is there, found or created.
pub open spec fn demo_ensured(
    before: Map<Seq<char>, TaskView>,
    after: Map<Seq<char>, TaskView>,
    now: u128,
    r: Result<EngineTaskSnapshot, TransferEngineError>,
) -> bool {
    if before.contains_key("demo-task"@) {
        after == before && r is Ok && r->Ok_0@ == before["demo-task"@].snapshot()
    } else {
        created(before, after, demo_config(now), demo_items(now), now, r)
    }
}

fn make_demo_item(path: &str, size: u64, now: u128) -> (r: TransferItem)
    ensures
        r@ == demo_item(path@, size, now),
{
    TransferItem {
        relative_path: path.to_string(),
        size_bytes: size,
        modified_at_epoch_ms: now,
        fingerprint: None,
    }
}

/// A checkpoint file: its name and what reading it gave.
#[derive(Debug)]
pub struct ListedCheckpoint {
    pub name: String,
    pub read: Result<String, String>,
}

/// The tasks that can be taken up again, by their checkpoint files, or what first went wrong.
pub open spec fn recoverable(files: Seq<ListedCheckpoint>) -> Result<
    Seq<Seq<char>>,
    EngineErrorView,
>
    decreases files.len(),
{
    if files.len() == 0 {
        Ok(Seq::empty())
    } else {
        let f = files.last();
        match recoverable(files.drop_last()) {
            Err(e) => Err(e),
            Ok(ids) => if !checkpoint_store::is_checkpoint_name(f.name@) {
                Ok(ids)
            } else {
                match entry_found(Map::empty(), checkpoint_store::task_of_name(f.name@), f.read) {
                    Err(e) => Err(e),
                    Ok(entry) => if entry.checkpoint.state == TaskState::Completed
                        || entry.checkpoint.state == TaskState::Cancelled {
                        Ok(ids)
                    } else {
                        Ok(ids.push(checkpoint_store::task_of_name(f.name@)))
                    },
                }
            },
        }
    }
}

proof fn lemma_recoverable_stops(files: Seq<ListedCheckpoint>, i: int, e: EngineErrorView)
    requires
        0 <= i <= files.len(),
        recoverable(files.take(i)) == Err::<Seq<Seq<char>>, EngineErrorView>(e),
    ensures
        recoverable(files) == Err::<Seq<Seq<char>>, EngineErrorView>(e),
    decreases files.len() - i,
{
    if i == files.len() {
        assert(files.take(i) =~= files);
    } else {
        assert(files.take(i + 1).drop_last() =~= files.take(i));
        lemma_recoverable_stops(files, i + 1, e);
    }
}

/// The JSON lines of a list of records.
pub open spec fn json_lines(logs: Seq<LogRecordView>) -> Seq<Seq<char>> {
    logs.map_values(|l: LogRecordView| logging::json_line(l))
}

impl TransferEngine {
    /// A task's entry: the one in memory, or the one that reading its checkpoint gave.
    pub fn checkpoint_entry(&self, task_id: &str, read: Result<String, String>) -> (r: Result<
        CheckpointEntry,
        TransferEngineError,
    >)
        requires
            self.wf(),
        ensures
            match (r, entry_found(self@, task_id@, read)) {
                (Ok(a), Ok(b)) => a@ == b,
                (Err(a), Err(b)) => a@ == b,
                _ => false,
            },
    {
        if let Some(i) = self.find(task_id) {
            return Ok(self.tasks[i].task.checkpoint.clone());
        }
        match self.checkpoint_store.load(read) {
            Ok(e) => Ok(e),
            Err(e) => Err(TransferEngineError::Persistence(e.message())),
        }
    }

    /// The file that holds a task's checkpoint.
    pub fn checkpoint_file(&self, task_id: &str) -> (r: Option<CheckpointFile>)
        requires
            self.wf(),
        ensures
            match r {
                Some(f) => self@.contains_key(task_id@) && f.name@ == checkpoint_store::file_name(
                    self@[task_id@].checkpoint.config.task_id,
                ) && f.content@ == checkpoint_text::entry_text(self@[task_id@].checkpoint),
                None => !self@.contains_key(task_id@),
            },
    {
        match self.find(task_id) {
            Some(i) => Some(self.checkpoint_store.persist(&self.tasks[i].task.checkpoint)),
            None => None,
        }
    }

    /// Recovers a task from what reading its checkpoint gave, at `now`.
    pub fn recover_task_at(&mut self, task_id: &str, read: Result<String, String>, now: u128) -> (r:
        Result<EngineTaskSnapshot, TransferEngineError>)
        requires
            old(self).wf(),
            !old(self)@.contains_key(task_id@) ==> content_fits(read),
        ensures
            final(self).wf(),
            final(self).store_root() == old(self).store_root(),
            recovered(old(self)@, final(self)@, task_id@, read, now, r),
    {
        if let Some(i) = self.find(task_id) {
            return Ok(self.tasks[i].task.snapshot());
        }
        let ghost was = read;
        let entry = match self.checkpoint_store.load(read) {
            Ok(e) => e,
            Err(e) => {
                return Err(TransferEngineError::Persistence(e.message()));
            },
        };
        let task = EngineTask::recovered(entry, task_id, now);
        let snapshot = task.snapshot();
        self.admit_task(task_id.to_string(), task);
        Ok(snapshot)
    }

    /// Recovers a task from what reading its checkpoint gave.
    pub fn recover_task(&mut self, task_id: &str, read: Result<String, String>) -> (r: Result<
        EngineTaskSnapshot,
        TransferEngineError,
    >)
        requires
            old(self).wf(),
            !old(self)@.contains_key(task_id@) ==> content_fits(read),
        ensures
            final(self).wf(),
            final(self).store_root() == old(self).store_root(),
            exists|now: u128| #[trigger]
                recovered(old(self)@, final(self)@, task_id@, read, now, r),
    {
        let now: u128 = models::now_epoch_ms();
        self.recover_task_at(task_id, read, now)
    }

    /// Creates a task from what a scan found, at `now`.
    pub fn create_task_from_paths_at(
        &mut self,
        config: TaskConfig,
        scan: &SourceScan,
        now: u128,
    ) -> (r: Result<EngineTaskSnapshot, TransferEngineError>)
        requires
            old(self).wf(),
            scan_fits(config@.source_root, *scan, now),
        ensures
            final(self).wf(),
            final(self).store_root() == old(self).store_root(),
            created_from_scan(old(self)@, final(self)@, config@, *scan, now, r),
    {
        let listed = inventory::expand_sources(config.source_root.as_str(), scan, now);
        let ghost found = listed;
        match listed {
            Ok(items) => {
                assert(inventory::expanded(found, config@.source_root, *scan, now));
                let ghost views = models::item_views(items@);
                let r = self.create_task_at(config, items, now);
                r
            },
            Err(e) => {
                let r = Err(TransferEngineError::Inventory(e.message()));
                assert(inventory::expanded(found, config@.source_root, *scan, now));
                r
            },
        }
    }

    /// Creates a task from what a scan found.
    pub fn create_task_from_paths(&mut self, config: TaskConfig, scan: &SourceScan) -> (r: Result<
        EngineTaskSnapshot,
        TransferEngineError,
    >)
        requires
            old(self).wf(),
            forall|now: u128| #[trigger] scan_fits(config@.source_root, *scan, now),
        ensures
            final(self).wf(),
            final(self).store_root() == old(self).store_root(),
            exists|now: u128| #[trigger]
                created_from_scan(old(self)@, final(self)@, config@, *scan, now, r),
    {
        let now: u128 = models::now_epoch_ms();
        assert(scan_fits(config@.source_root, *scan, now));
        self.create_task_from_paths_at(config, scan, now)
    }

    /// Finds a task in memory, recovers it from its checkpoint, or creates it, at `now`.
    pub fn create_or_recover_task_from_paths_at(
        &mut self,
        config: TaskConfig,
        read: Result<String, String>,
        scan: &SourceScan,
        now: u128,
    ) -> (r: Result<EngineTaskSnapshot, TransferEngineError>)
        requires
            old(self).wf(),
            !old(self)@.contains_key(config@.task_id) ==> content_fits(read),
            is_created_anew(old(self)@, config@.task_id, read) ==> scan_fits(
                config@.source_root,
                *scan,
                now,
            ),
        ensures
            final(self).wf(),
            final(self).store_root() == old(self).store_root(),
            created_or_recovered(old(self)@, final(self)@, config@, read, *scan, now, r),
    {
        if let Some(i) = self.find(config.task_id.as_str()) {
            return Ok(self.tasks[i].task.snapshot());
        }
        let task_id = config.task_id.clone();
        match self.checkpoint_store.load(read) {
            Ok(entry) => {
                let task = EngineTask::recovered(entry, task_id.as_str(), now);
                let snapshot = task.snapshot();
                self.admit_task(task_id, task);
                Ok(snapshot)
            },
            Err(_) => self.create_task_from_paths_at(config, scan, now),
        }
    }

    /// Finds a task in memory, recovers it from its checkpoint, or creates it.
    pub fn create_or_recover_task_from_paths(
        &mut self,
        config: TaskConfig,
        read: Result<String, String>,
        scan: &SourceScan,
    ) -> (r: Result<EngineTaskSnapshot, TransferEngineError>)
        requires
            old(self).wf(),
            !old(self)@.contains_key(config@.task_id) ==> content_fits(read),
            is_created_anew(old(self)@, config@.task_id, read) ==> forall|now: u128| #[trigger]
                scan_fits(config@.source_root, *scan, now),
        ensures
            final(self).wf(),
            final(self).store_root() == old(self).store_root(),
            exists|now: u128| #[trigger]
                created_or_recovered(old(self)@, final(self)@, config@, read, *scan, now, r),
    {
        let now: u128 = models::now_epoch_ms();
        assert(is_created_anew(old(self)@, config@.task_id, read) ==> scan_fits(
            config@.source_root,
            *scan,
            now,
        ));
        self.create_or_recover_task_from_paths_at(config, read, scan, now)
    }

    /// Finds or creates the demonstration task, at `now`.
    pub fn ensure_demo_task_at(&mut self, now: u128) -> (r: Result<
        EngineTaskSnapshot,
        TransferEngineError,
    >)
        requires
            old(self).wf(),
        ensures
            final(self).wf(),
            final(self).store_root() == old(self).store_root(),
            demo_ensured(old(self)@, final(self)@, now, r),
    {
        if let Some(i) = self.find("demo-task") {
            return Ok(self.tasks[i].task.snapshot());
        }
        let config = TaskConfig::new_at(
            now,
            "demo-task",
            Direction::PcToAndroid,
            TransportMode::Dual,
            false,
            "C:/Users/demo/Documents",
            "/sdcard/Backup",
        );
        let mut items: Vec<TransferItem> = Vec::new();
        items.push(make_demo_item("media/archive-01.bin", 96 * 1024 * 1024, now));
        items.push(make_demo_item("photos/set-a/cat-01.jpg", 6 * 1024 * 1024, now));
        items.push(make_demo_item("photos/set-a/cat-02.jpg", 7 * 1024 * 1024, now));
        assert(models::item_views(items@) =~= demo_items(now));
        proof {
            reveal_with_fuel(engine_task::total_size, 4);
        }
        self.create_task_at(config, items, now)
    }

    /// Finds or creates the demonstration task.
    pub fn ensure_demo_task(&mut self) -> (r: Result<EngineTaskSnapshot, TransferEngineError>)
        requires
            old(self).wf(),
        ensures
            final(self).wf(),
            final(self).store_root() == old(self).store_root(),
            exists|now: u128| #[trigger] demo_ensured(old(self)@, final(self)@, now, r),
    {
        let now: u128 = models::now_epoch_ms();
        self.ensure_demo_task_at(now)
    }

    /// The snapshots of all tasks, in the order of their ids.
    pub fn snapshots(&self) -> (r: Vec<EngineTaskSnapshot>)
        requires
            self.wf(),
        ensures
            lists_all(r@.map_values(|s: EngineTaskSnapshot| s@), self@),
            forall|k: int|
                0 <= k < r.len() ==> (#[trigger] r@[k]).adb_bytes + r@[k].wifi_bytes
                    == r@[k].committed_bytes,
    {
        let mut out: Vec<EngineTaskSnapshot> = Vec::new();
        let mut i: usize = 0;
        while i < self.tasks.len()
            invariant
                self.wf(),
                i <= self.tasks.len(),
                out.len() == i,
                forall|k: int|
                    0 <= k < i ==> (#[trigger] out@[k])@ == self.tasks@[k].task@.snapshot(),
                forall|k: int|
                    0 <= k < i ==> (#[trigger] out@[k]).adb_bytes + out@[k].wifi_bytes
                        == out@[k].committed_bytes,
            decreases self.tasks.len() - i,
        {
            out.push(self.tasks[i].task.snapshot());
            i += 1;
        }
        proof {
            let r = out@.map_values(|s: EngineTaskSnapshot| s@);
            let ids = self.tasks@.map_values(|s: TaskSlot| s.task_id@);
            assert forall|a: int, b: int| 0 <= a < b < ids.len() implies order::text_lt(
                #[trigger] ids[a],
                #[trigger] ids[b],
            ) by {
                assert(order::text_lt(self.tasks@[a].task_id@, self.tasks@[b].task_id@));
            }
            assert forall|id: Seq<char>| ids.to_set().contains(id) <==> self@.dom().contains(id) by {
                if has_key(self.tasks@, id) {
                    let a = place(self.tasks@, id);
                    assert(ids[a] == id);
                }
                if ids.contains(id) {
                    let a = choose|a: int| 0 <= a < ids.len() && ids[a] == id;
                    assert(self.tasks@[a].task_id@ == id);
                }
            }
            assert(ids.to_set() =~= self@.dom());
            assert forall|a: int| 0 <= a < ids.len() implies r[a] == (
            #[trigger] self@[ids[a]]).snapshot() by {
                lemma_slot_at(self.tasks@, a);
                assert(r[a] == out@[a]@);
            }
        }
        out
    }

    /// The tasks that can be taken up again, by their checkpoint files in order.
    pub fn recoverable_tasks(&self, files: &Vec<ListedCheckpoint>) -> (r: Result<
        Vec<String>,
        TransferEngineError,
    >)
        ensures
            match (r, recoverable(files@)) {
                (Ok(ids), Ok(want)) => text::views(ids@) == want,
                (Err(e), Err(want)) => e@ == want,
                _ => false,
            },
    {
        let mut out: Vec<String> = Vec::new();
        let mut i: usize = 0;
        assert(text::views(out@) =~= Seq::empty());
        while i < files.len()
            invariant
                i <= files.len(),
                recoverable(files@.take(i as int)) == Ok::<Seq<Seq<char>>, EngineErrorView>(
                    text::views(out@),
                ),
            decreases files.len() - i,
        {
            assert(files@.take(i + 1).drop_last() =~= files@.take(i as int));
            let f = &files[i];
            if checkpoint_store::has_checkpoint_name(f.name.as_str()) {
                let loaded = match &f.read {
                    Ok(content) => checkpoint_text::deserialize_entry(content.as_str()),
                    Err(m) => Err(CheckpointError::Io(m.clone())),
                };
                match loaded {
                    Ok(entry) => {
                        match entry.checkpoint.state {
                            TaskState::Completed | TaskState::Cancelled => {},
                            _ => {
                                let ghost before = out@;
                                let id = checkpoint_store::task_id_of_name(f.name.as_str());
                                out.push(id);
                                proof {
                                    text::lemma_views_push(before, id);
                                }
                            },
                        }
                    },
                    Err(e) => {
                        let error = TransferEngineError::Persistence(e.message());
                        proof {
                            lemma_recoverable_stops(files@, i + 1, error@);
                        }
                        return Err(error);
                    },
                }
            }
            i += 1;
        }
        assert(files@.take(files@.len() as int) =~= files@);
        Ok(out)
    }

    /// The records of a task, as JSON lines.
    pub fn log_lines(&self, task_id: &str) -> (r: Result<Vec<String>, TransferEngineError>)
        requires
            self.wf(),
        ensures
            match r {
                Ok(lines) => self@.contains_key(task_id@) && text::views(lines@) == json_lines(
                    self@[task_id@].logs,
                ),
                Err(e) => !self@.contains_key(task_id@) && e@ == EngineErrorView::UnknownTask(
                    task_id@,
                ),
            },
    {
        match self.find(task_id) {
            None => Err(TransferEngineError::UnknownTask(task_id.to_string())),
            Some(i) => {
                let logs = &self.tasks[i].task.logs;
                let ghost all = json_lines(logging::record_views(logs@));
                let mut out: Vec<String> = Vec::new();
                let mut k: usize = 0;
                assert(text::views(out@) =~= all.take(0));
                while k < logs.len()
                    invariant
                        k <= logs.len(),
                        all == json_lines(logging::record_views(logs@)),
                        text::views(out@) == all.take(k as int),
                    decreases logs.len() - k,
                {
                    let ghost before = out@;
                    let line = logs[k].to_json_line();
                    out.push(line);
                    proof {
                        text::lemma_views_push(before, line);
                    }
                    assert(text::views(out@) =~= all.take(k + 1));
                    k += 1;
                }
                assert(all.take(all.len() as int) =~= all);
                Ok(out)
            },
        }
    }

    /// Offers the last `count` records of a task once more, for where nobody got to see them.
    pub fn restore_logs(&mut self, task_id: &str, count: usize)
        requires
            old(self).wf(),
        ensures
            final(self).wf(),
            final(self).store_root() == old(self).store_root(),
            final(self)@ == (if old(self)@.contains_key(task_id@) {
                let t = old(self)@[task_id@];
                old(self)@.insert(
                    task_id@,
                    TaskView {
                        log_cursor: if count <= t.log_cursor {
                            (t.log_cursor - count) as nat
                        } else {
                            0
                        },
                        ..t
                    },
                )
            } else {
                old(self)@
            }),
    {
        let ghost before = self.tasks@;
        if let Some(i) = self.find(task_id) {
            let cursor: usize = self.tasks[i].task.log_cursor;
            self.tasks[i].task.log_cursor = if count <= cursor {
                cursor - count
            } else {
                0
            };
            proof {
                lemma_slot_changed(before, self.tasks@, i as int);
            }
        }
    }

    /// Whether the numbers still fit once a chunk is committed.
    pub fn commit_would_fit(&self, task_id: &str, chunk: ChunkDescriptor) -> (r: bool)
        requires
            self.wf(),
        ensures
            r == (self@.contains_key(task_id@) ==> commit_fits(self@[task_id@], chunk)),
    {
        match self.find(task_id) {
            None => true,
            Some(i) => {
                let task = &self.tasks[i].task;
                let files = &task.checkpoint.checkpoint.files;
                if task.is_stopped() || chunk.file_index >= files.len() {
                    return true;
                }
                assert(self@[task_id@].files()[chunk.file_index as int]
                    == files@[chunk.file_index as int]@);
                let m = task.metrics;
                engine_task::has_index(&files[chunk.file_index].completed_chunks, chunk.chunk_index)
                    || (m.committed_bytes <= u64::MAX - chunk.length && m.completed_chunks
                    < u64::MAX)
            },
        }
    }

    /// Whether cancelling a task changes it, so that its checkpoint is to be written again.
    pub fn cancel_would_change(&self, task_id: &str) -> (r: bool)
        requires
            self.wf(),
        ensures
            r == (self@.contains_key(task_id@) && self@[task_id@].state != TaskState::Completed
                && self@[task_id@].state != TaskState::Cancelled),
            self@.contains_key(task_id@) && !r ==> forall|now: u128|
                (#[trigger] cancelling(self@[task_id@], task_id@, now)).task == self@[task_id@],
    {
        match self.find(task_id) {
            None => false,
            Some(i) => {
                let state = self.tasks[i].task.state;
                state != TaskState::Completed && state != TaskState::Cancelled
            },
        }
    }

    /// Whether advancing a task moves it on, so that its checkpoint is to be written again.
    pub fn tick_would_change(&self, task_id: &str) -> (r: bool)
        requires
            self.wf(),
        ensures
            r == (self@.contains_key(task_id@) && !is_terminal(self@[task_id@].state)
                && self@[task_id@].state != TaskState::Paused),
            self@.contains_key(task_id@) && !r ==> forall|steps: usize, now: u128|
                (#[trigger] ticking(self@[task_id@], task_id@, steps, now)).task == self@[task_id@],
    {
        match self.find(task_id) {
            None => false,
            Some(i) => {
                let task = &self.tasks[i].task;
                !task.is_over() && task.state != TaskState::Paused
            },
        }
    }

    /// Whether the numbers still fit however far a task is advanced, by the chunks that wait.
    pub fn tick_would_fit(&self, task_id: &str) -> (r: bool)
        requires
            self.wf(),
        ensures
            r ==> (self@.contains_key(task_id@) ==> forall|steps: usize| #[trigger]
                tick_fits(self@[task_id@], steps)),
            !r ==> self@.contains_key(task_id@) && !is_terminal(self@[task_id@].state)
                && self@[task_id@].state != TaskState::Paused && !engine_task::waiting_fits(
                self@[task_id@],
            ),
    {
        match self.find(task_id) {
            None => true,
            Some(i) => {
                let task = &self.tasks[i].task;
                if task.is_over() || task.state == TaskState::Paused {
                    return true;
                }
                let r = task.waiting_would_fit();
                proof {
                    if r {
                        let t = self@[task_id@];
                        let u = t.in_state(TaskState::Running);
                        assert(engine_task::waiting_fits(u));
                        assert forall|steps: usize| #[trigger] tick_fits(t, steps) by {
                            engine_task::lemma_steps_fit(
                                u,
                                if steps == 0 {
                                    1
                                } else {
                                    steps as nat
                                },
                                0,
                            );
                        }
                    }
                }
                r
            },
        }
    }

    /// Whether the numbers still fit once the file is recorded.
    pub fn file_would_fit(&self, task_id: &str, file_index: usize) -> (r: bool)
        requires
            self.wf(),
        ensures
            r == (self@.contains_key(task_id@) ==> file_fits(self@[task_id@], file_index)),
    {
        match self.find(task_id) {
            None => true,
            Some(i) => {
                let task = &self.tasks[i].task;
                if task.is_stopped() || file_index >= task.items.len() {
                    return true;
                }
                assert(slots_wf(self.tasks@));
                let size: u64 = task.items[file_index].size_bytes;
                let done = &task.checkpoint.checkpoint.files[file_index].completed_chunks;
                let (bytes, count) = missing_chunks(done, size, task.config.chunk_size_bytes);
                proof {
                    let t = self@[task_id@];
                    let c = models::chunks_of(file_index, size, t.config.chunk_size_bytes);
                    assert(t.items[file_index as int].size_bytes == size);
                    assert(t.files()[file_index as int].completed_chunks == done@);
                    lemma_file_adds_what_is_missing(t, file_index, size, c.len());
                    assert(c.take(c.len() as int) =~= c);
                }
                let m = task.metrics;
                m.committed_bytes <= u64::MAX - bytes && m.completed_chunks <= u64::MAX - count
            },
        }
    }
}

/// How many bytes and chunks of a file are not done, of its first chunks; an index counts once.
pub open spec fn missing(done: Seq<u32>, size: u64, chunk_size: u64, k: nat) -> (nat, nat)
    decreases k,
{
    if k == 0 {
        (0, 0)
    } else {
        let (bytes, count) = missing(done, size, chunk_size, (k - 1) as nat);
        let c = models::chunk_at(0, size, chunk_size, k - 1);
        if k > 0x1_0000_0000 || done.contains(c.chunk_index) {
            (bytes, count)
        } else {
            (bytes + c.length as nat, count + 1)
        }
    }
}

/// How many bytes and chunks of a file are not done; an index counts once.
fn missing_chunks(done: &Vec<u32>, size: u64, chunk_size: u64) -> (r: (u64, u64))
    ensures
        (r.0 as nat, r.1 as nat) == missing(
            done@,
            size,
            chunk_size,
            models::chunk_count(size, chunk_size),
        ),
{
    let n: u64 = engine_task::count_chunks(size, chunk_size);
    let step: u64 = if chunk_size == 0 {
        1
    } else {
        chunk_size
    };
    let mut bytes: u64 = 0;
    let mut count: u64 = 0;
    let mut start: u64 = 0;
    let mut k: u64 = 0;
    while k < n
        invariant
            k <= n,
            n == models::chunk_count(size, chunk_size),
            step == models::chunk_step(chunk_size),
            k < n ==> start == k * step,
            start <= size,
            bytes <= start,
            count <= k,
            (bytes as nat, count as nat) == missing(done@, size, chunk_size, k as nat),
        decreases n - k,
    {
        proof {
            models::lemma_chunk_bounds(size, chunk_size, k as int);
            assert((k + 1) * step == k * step + step) by (nonlinear_arith);
        }
        let rest: u64 = size - start;
        let length: u64 = if rest < step {
            rest
        } else {
            step
        };
        let ghost c = models::chunk_at(0, size, chunk_size, k as int);
        assert(c.length == length);
        if k < 0x1_0000_0000 {
            let index: u32 = k as u32;
            assert(c.chunk_index == index);
            if !engine_task::has_index(done, index) {
                bytes += length;
                count += 1;
            }
        }
        start += length;
        k += 1;
    }
    (bytes, count)
}

/// Recording the first chunks of a file adds what is missing of them, and they are done then.
proof fn lemma_file_adds_what_is_missing(t: TaskView, file_index: usize, size: u64, k: nat)
    requires
        file_index < t.files().len(),
        k <= models::chunk_count(size, t.config.chunk_size_bytes),
    ensures
        ({
            let c = models::chunks_of(file_index, size, t.config.chunk_size_bytes);
            let u = t.committed_all(c.take(k as int), LaneAssignment::Adb, false, 0);
            let done = t.files()[file_index as int].completed_chunks;
            let (bytes, count) = missing(done, size, t.config.chunk_size_bytes, k);
            &&& u.metrics.committed == t.metrics.committed + bytes
            &&& u.metrics.chunks == t.metrics.chunks + count
            &&& u.files().len() == t.files().len()
            &&& forall|x: u32| #[trigger]
                u.files()[file_index as int].completed_chunks.contains(x) <==> done.contains(x) || x
                    < k
        }),
    decreases k,
{
    let c = models::chunks_of(file_index, size, t.config.chunk_size_bytes);
    let done = t.files()[file_index as int].completed_chunks;
    if k > 0 {
        lemma_file_adds_what_is_missing(t, file_index, size, (k - 1) as nat);
        assert(c.take(k as int).drop_last() =~= c.take(k - 1));
        let u = t.committed_all(c.take(k - 1), LaneAssignment::Adb, false, 0);
        let v = t.committed_all(c.take(k as int), LaneAssignment::Adb, false, 0);
        let chunk = c[k - 1];
        let held = u.files()[file_index as int].completed_chunks;
        assert(chunk.length == models::chunk_at(
            0,
            size,
            t.config.chunk_size_bytes,
            k - 1,
        ).length);
        assert(v == u.committed(chunk, LaneAssignment::Adb, false, 0));
        assert(u.accepts(chunk) <==> !held.contains(chunk.chunk_index));
        let pushed = held.push(chunk.chunk_index);
        crate::engine_laws::lemma_ascending_members(pushed);
        assert forall|x: u32| pushed.contains(x) <==> held.contains(x) || x == chunk.chunk_index by {
            if held.contains(x) {
                let a = choose|a: int| 0 <= a < held.len() && held[a] == x;
                assert(pushed[a] == x);
            }
            assert(pushed[held.len() as int] == chunk.chunk_index);
        }
        assert forall|x: u32| #[trigger]
            v.files()[file_index as int].completed_chunks.contains(x) <==> done.contains(x) || x
                < k by {
            assert(held.contains(x) <==> done.contains(x) || x < k - 1);
        }
    } else {
        assert(c.take(0).len() == 0);
    }
}

} // verus!
