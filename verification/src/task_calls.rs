//! What can be asked of the engine about a task, and what becomes of the task.

use crate::checkpoint::TaskCheckpointView;
use crate::engine;
use crate::engine::{Outcome, TransferEngineError};
use crate::engine_task;
use crate::engine_task::{EngineTaskSnapshot, TaskView, TransferUpdate};
use crate::logging::{LogLevel, LogRecordView};
use crate::models;
use crate::models::{ChunkDescriptor, TaskConfigView, TaskState};
use crate::scheduler::{ChunkLease, LaneAssignment};
use vstd::prelude::*;

verus! {

/// What is asked of the engine about a task that it knows.
pub enum TaskCall {
    Pause,
    Resume,
    Cancel,
    Retry,
    Fail { message: Seq<char> },
    Tick { steps: usize },
    Commit { chunk: ChunkDescriptor, lane: LaneAssignment, was_skipped: bool },
    CommitPending { chunk: ChunkDescriptor, lane: LaneAssignment, was_skipped: bool },
    CompleteLease { lease: ChunkLease, was_skipped: bool },
    CompleteFile { file_index: usize, lane: LaneAssignment, was_skipped: bool },
    Lease { preferred: LaneAssignment },
    Rechunk { chunk_size: u64 },
    RestoreLogs { count: usize },
}

/// A task whose new records were handed out with the reply, unless the request was refused.
pub open spec fn handed_out(o: Outcome) -> TaskView {
    match o.error {
        Some(_) => o.task,
        None => o.task.drained(),
    }
}

/// The task after it was asked to change its state.
#[verifier::opaque]
pub open spec fn asked(t: TaskView, id: Seq<char>, call: TaskCall, now: u128) -> TaskView {
    match call {
        TaskCall::Pause => engine::pausing(t, id, now).task,
        TaskCall::Resume => engine::resuming(t, id, now).task,
        TaskCall::Cancel => engine::cancelling(t, id, now).task,
        TaskCall::Retry => engine::retrying(t, id, now).task,
        TaskCall::Fail { message } => engine::failing(t, message, now).task,
        _ => t,
    }
}

/// The task after it was told of a chunk.
#[verifier::opaque]
pub open spec fn told(t: TaskView, id: Seq<char>, call: TaskCall, now: u128) -> TaskView {
    match call {
        TaskCall::Commit { chunk, lane, was_skipped } => handed_out(
            engine::committing(t, id, chunk, lane, was_skipped, now),
        ),
        TaskCall::CommitPending { chunk, lane, was_skipped } => handed_out(
            engine::committing_pending(t, id, chunk, lane, was_skipped, now),
        ),
        TaskCall::CompleteLease { lease, was_skipped } => handed_out(
            engine::completing(t, id, lease, was_skipped, now),
        ),
        _ => t,
    }
}

/// The task after it was told of a file.
#[verifier::opaque]
pub open spec fn told_of_file(
    t: TaskView,
    id: Seq<char>,
    file_index: usize,
    lane: LaneAssignment,
    was_skipped: bool,
    now: u128,
) -> TaskView {
    handed_out(engine::completing_file(t, id, file_index, lane, was_skipped, now))
}

/// The task after it was advanced.
#[verifier::opaque]
pub open spec fn advanced(t: TaskView, id: Seq<char>, steps: usize, now: u128) -> TaskView {
    handed_out(engine::ticking(t, id, steps, now))
}

/// The task after it was asked for a lease.
#[verifier::opaque]
pub open spec fn leased_from(t: TaskView, id: Seq<char>, preferred: LaneAssignment, now: u128)
    -> TaskView {
    engine::leasing(t, id, preferred, now).0.task
}

/// The task after it was given a chunk length.
#[verifier::opaque]
pub open spec fn rechunked(t: TaskView, chunk_size: u64, now: u128) -> TaskView {
    engine::rechunking(t, chunk_size, now).task
}

/// The task after what was asked.
pub open spec fn called(t: TaskView, id: Seq<char>, call: TaskCall, now: u128) -> TaskView {
    match call {
        TaskCall::Tick { steps } => advanced(t, id, steps, now),
        TaskCall::Commit { .. } => told(t, id, call, now),
        TaskCall::CommitPending { .. } => told(t, id, call, now),
        TaskCall::CompleteLease { .. } => told(t, id, call, now),
        TaskCall::CompleteFile { file_index, lane, was_skipped } => told_of_file(
            t,
            id,
            file_index,
            lane,
            was_skipped,
            now,
        ),
        TaskCall::Lease { preferred } => leased_from(t, id, preferred, now),
        TaskCall::Rechunk { chunk_size } => rechunked(t, chunk_size, now),
        TaskCall::RestoreLogs { count } => TaskView {
            log_cursor: if count <= t.log_cursor {
                (t.log_cursor - count) as nat
            } else {
                0
            },
            ..t
        },
        _ => asked(t, id, call, now),
    }
}

/// All tasks after what was asked about one of them.
pub open spec fn after_call(
    tasks: Map<Seq<char>, TaskView>,
    id: Seq<char>,
    call: TaskCall,
    now: u128,
) -> Map<Seq<char>, TaskView> {
    if tasks.contains_key(id) {
        tasks.insert(id, called(tasks[id], id, call, now))
    } else {
        tasks
    }
}

/// Pausing, resuming, cancelling, retrying and failing a task through the engine are calls.
pub proof fn lemma_requests_are_calls(
    before: Map<Seq<char>, TaskView>,
    after: Map<Seq<char>, TaskView>,
    id: Seq<char>,
    call: TaskCall,
    now: u128,
    r: Result<EngineTaskSnapshot, TransferEngineError>,
)
    requires
        match call {
            TaskCall::Pause => engine::settled(
                before,
                after,
                id,
                engine::pausing(before[id], id, now),
                r,
            ),
            TaskCall::Resume => engine::settled(
                before,
                after,
                id,
                engine::resuming(before[id], id, now),
                r,
            ),
            TaskCall::Cancel => engine::settled(
                before,
                after,
                id,
                engine::cancelling(before[id], id, now),
                r,
            ),
            TaskCall::Retry => engine::settled(
                before,
                after,
                id,
                engine::retrying(before[id], id, now),
                r,
            ),
            TaskCall::Fail { message } => engine::settled(
                before,
                after,
                id,
                engine::failing(before[id], message, now),
                r,
            ),
            _ => false,
        },
    ensures
        after == after_call(before, id, call, now),
{
    reveal(asked);
}

/// Giving a task another chunk length through the engine is a call.
pub proof fn lemma_rechunking_is_a_call(
    before: Map<Seq<char>, TaskView>,
    after: Map<Seq<char>, TaskView>,
    id: Seq<char>,
    chunk_size: u64,
    now: u128,
    r: Result<EngineTaskSnapshot, TransferEngineError>,
)
    requires
        engine::settled(before, after, id, engine::rechunking(before[id], chunk_size, now), r),
    ensures
        after == after_call(before, id, TaskCall::Rechunk { chunk_size }, now),
{
    reveal(rechunked);
}

/// Telling the engine of a chunk is a call.
pub proof fn lemma_reports_are_calls(
    before: Map<Seq<char>, TaskView>,
    after: Map<Seq<char>, TaskView>,
    id: Seq<char>,
    call: TaskCall,
    now: u128,
    r: Result<TransferUpdate, TransferEngineError>,
)
    requires
        match call {
            TaskCall::Commit { chunk, lane, was_skipped } => engine::updated(
                before,
                after,
                id,
                engine::committing(before[id], id, chunk, lane, was_skipped, now),
                r,
            ),
            TaskCall::CommitPending { chunk, lane, was_skipped } => engine::updated(
                before,
                after,
                id,
                engine::committing_pending(before[id], id, chunk, lane, was_skipped, now),
                r,
            ),
            TaskCall::CompleteLease { lease, was_skipped } => engine::updated(
                before,
                after,
                id,
                engine::completing(before[id], id, lease, was_skipped, now),
                r,
            ),
            _ => false,
        },
    ensures
        after == after_call(before, id, call, now),
{
    reveal(told);
}

/// Telling the engine of a file is a call.
pub proof fn lemma_file_report_is_a_call(
    before: Map<Seq<char>, TaskView>,
    after: Map<Seq<char>, TaskView>,
    id: Seq<char>,
    file_index: usize,
    lane: LaneAssignment,
    was_skipped: bool,
    now: u128,
    r: Result<TransferUpdate, TransferEngineError>,
)
    requires
        engine::updated(
            before,
            after,
            id,
            engine::completing_file(before[id], id, file_index, lane, was_skipped, now),
            r,
        ),
    ensures
        after == after_call(
            before,
            id,
            TaskCall::CompleteFile { file_index, lane, was_skipped },
            now,
        ),
{
    reveal(told_of_file);
}

/// Advancing a task through the engine is a call.
pub proof fn lemma_tick_is_a_call(
    before: Map<Seq<char>, TaskView>,
    after: Map<Seq<char>, TaskView>,
    id: Seq<char>,
    steps: usize,
    now: u128,
    r: Result<TransferUpdate, TransferEngineError>,
)
    requires
        engine::updated(before, after, id, engine::ticking(before[id], id, steps, now), r),
    ensures
        after == after_call(before, id, TaskCall::Tick { steps }, now),
{
    reveal(advanced);
}

/// Asking the engine for a lease is a call.
pub proof fn lemma_lease_is_a_call(
    before: Map<Seq<char>, TaskView>,
    after: Map<Seq<char>, TaskView>,
    id: Seq<char>,
    preferred: LaneAssignment,
    now: u128,
    r: Result<Option<ChunkLease>, TransferEngineError>,
)
    requires
        engine::leased(before, after, id, engine::leasing(before[id], id, preferred, now), r),
    ensures
        after == after_call(before, id, TaskCall::Lease { preferred }, now),
{
    reveal(leased_from);
}

/// The task after all that was asked, each call with its time, in order.
pub open spec fn lived(t: TaskView, id: Seq<char>, calls: Seq<(TaskCall, u128)>) -> TaskView
    decreases calls.len(),
{
    if calls.len() == 0 {
        t
    } else {
        called(lived(t, id, calls.drop_last()), id, calls.last().0, calls.last().1)
    }
}

/// Whether records begin with others.
pub open spec fn continues(after: Seq<LogRecordView>, before: Seq<LogRecordView>) -> bool {
    before.len() <= after.len() && after.take(before.len() as int) == before
}

/// A task after a chunk was committed, where it may make progress.
#[verifier::opaque]
pub open spec fn with_chunk(
    t: TaskView,
    chunk: ChunkDescriptor,
    lane: LaneAssignment,
    was_skipped: bool,
    now: u128,
) -> TaskView {
    if engine::can_progress(t) {
        t.in_state(TaskState::Running).committed(chunk, lane, was_skipped, now)
    } else {
        t
    }
}

/// A task after a leased chunk was committed, where it may make progress.
#[verifier::opaque]
pub open spec fn with_lease(t: TaskView, lease: ChunkLease, was_skipped: bool, now: u128)
    -> TaskView {
    if engine::can_progress(t) {
        let u = with_chunk(t, lease.chunk, lease.lane, was_skipped, now);
        TaskView { scheduler: u.scheduler.complete(lease.lane), ..u }
    } else {
        t
    }
}

/// A task after a file was committed, where it may make progress and has the file.
#[verifier::opaque]
pub open spec fn with_file(
    t: TaskView,
    file_index: usize,
    lane: LaneAssignment,
    was_skipped: bool,
    now: u128,
) -> TaskView {
    if engine::can_progress(t) && file_index < t.items.len() {
        t.in_state(TaskState::Running).committed_all(
            models::chunks_of(
                file_index,
                t.items[file_index as int].size_bytes,
                t.config.chunk_size_bytes,
            ),
            lane,
            was_skipped,
            now,
        )
    } else {
        t
    }
}

/// A task after its steps, where it advances.
#[verifier::opaque]
pub open spec fn with_steps(t: TaskView, steps: usize, now: u128) -> TaskView {
    if engine::is_terminal(t.state) || t.state == TaskState::Paused {
        t
    } else {
        t.in_state(TaskState::Running).stepped(
            if steps == 0 {
                1
            } else {
                steps as nat
            },
            now,
        ).0
    }
}

/// A task with a chunk leased, where it leases.
#[verifier::opaque]
pub open spec fn without_leased(t: TaskView, preferred: LaneAssignment) -> TaskView {
    if engine::can_progress(t) && t.state != TaskState::Paused {
        TaskView {
            scheduler: t.scheduler.lease_next(
                t.config.max_in_flight_chunks_per_lane,
                preferred,
            ).1,
            ..t
        }
    } else {
        t
    }
}

/// A task planned anew, where the chunk length is another.
#[verifier::opaque]
pub open spec fn planned_anew(t: TaskView, chunk_size: u64, now: u128) -> TaskView {
    if chunk_size != t.config.chunk_size_bytes {
        TaskView {
            logs: t.logs,
            ..engine_task::fresh_task(
                TaskConfigView { chunk_size_bytes: chunk_size, ..t.config },
                t.items,
                now,
            )
        }
    } else {
        t
    }
}

/// The task after the part of a call that leases, commits or plans, before its state, its log and
/// the time of its checkpoint follow.
pub open spec fn worked(t: TaskView, call: TaskCall, now: u128) -> TaskView {
    match call {
        TaskCall::Tick { steps } => with_steps(t, steps, now),
        TaskCall::Commit { chunk, lane, was_skipped } => with_chunk(
            t,
            chunk,
            lane,
            was_skipped,
            now,
        ),
        TaskCall::CommitPending { chunk, lane, was_skipped } => with_chunk(
            t,
            chunk,
            lane,
            was_skipped,
            now,
        ),
        TaskCall::CompleteLease { lease, was_skipped } => with_lease(t, lease, was_skipped, now),
        TaskCall::CompleteFile { file_index, lane, was_skipped } => with_file(
            t,
            file_index,
            lane,
            was_skipped,
            now,
        ),
        TaskCall::Lease { preferred } => without_leased(t, preferred),
        TaskCall::Rechunk { chunk_size } => planned_anew(t, chunk_size, now),
        _ => t,
    }
}

/// Whether two tasks differ at most in their states, their errors, the times of their checkpoints
/// and the ends of their logs.
pub open spec fn follows(u: TaskView, v: TaskView) -> bool {
    &&& u.config == v.config
    &&& u.items == v.items
    &&& u.scheduler == v.scheduler
    &&& u.metrics == v.metrics
    &&& u.checkpoint.config == v.checkpoint.config
    &&& u.checkpoint.checkpoint == (TaskCheckpointView {
        state: u.checkpoint.checkpoint.state,
        updated_at_epoch_ms: u.checkpoint.checkpoint.updated_at_epoch_ms,
        ..v.checkpoint.checkpoint
    })
    &&& continues(u.logs, v.logs)
    &&& v.checkpoint.checkpoint.state == v.state ==> u.checkpoint.checkpoint.state == u.state
}

proof fn lemma_moved_follows(
    t: TaskView,
    state: TaskState,
    level: LogLevel,
    message: Seq<char>,
    id: Seq<char>,
    now: u128,
)
    ensures
        follows(engine::moved(t, state, level, message, id, now), t),
{
    let u = engine::moved(t, state, level, message, id, now);
    assert(u.logs.take(t.logs.len() as int) =~= t.logs);
}

proof fn lemma_itself_follows(t: TaskView)
    ensures
        follows(t, t),
        follows(t.in_state(TaskState::Running), t),
{
    assert(t.logs.take(t.logs.len() as int) =~= t.logs);
}

/// What is left of a call after its work: the task may be completed, its checkpoint is made ready
/// to be written, and its records may be handed out.
proof fn lemma_finish_follows(v: TaskView, now: u128)
    ensures
        follows(v.stamped(now), v),
        follows(v.stamped(now).drained(), v),
        follows(v.completed(now).stamped(now).drained(), v),
        follows(v.marked(now).stamped(now).drained(), v),
{
    assert(v.logs.take(v.logs.len() as int) =~= v.logs);
    assert(v.completed(now).logs.take(v.logs.len() as int) =~= v.logs);
}

proof fn lemma_pause_follows(t: TaskView, id: Seq<char>, now: u128)
    ensures
        follows(called(t, id, TaskCall::Pause, now), worked(t, TaskCall::Pause, now)),
{
    reveal(asked);
    lemma_itself_follows(t);
    lemma_moved_follows(t, TaskState::Paused, LogLevel::Warn, "task paused"@, id, now);
}

proof fn lemma_resume_follows(t: TaskView, id: Seq<char>, now: u128)
    ensures
        follows(called(t, id, TaskCall::Resume, now), worked(t, TaskCall::Resume, now)),
{
    reveal(asked);
    lemma_itself_follows(t);
    lemma_moved_follows(t, TaskState::Running, LogLevel::Info, "task resumed"@, id, now);
}

proof fn lemma_cancel_follows(t: TaskView, id: Seq<char>, now: u128)
    ensures
        follows(called(t, id, TaskCall::Cancel, now), worked(t, TaskCall::Cancel, now)),
{
    reveal(asked);
    lemma_itself_follows(t);
    lemma_moved_follows(t, TaskState::Cancelled, LogLevel::Warn, "task cancelled"@, id, now);
}

proof fn lemma_retry_follows(t: TaskView, id: Seq<char>, now: u128)
    ensures
        follows(called(t, id, TaskCall::Retry, now), worked(t, TaskCall::Retry, now)),
{
    reveal(asked);
    let forgiven = TaskView { last_error: None, ..t };
    lemma_itself_follows(t);
    lemma_moved_follows(forgiven, TaskState::Paused, LogLevel::Info, "task staged for retry"@, id, now);
}

proof fn lemma_failure_follows(t: TaskView, id: Seq<char>, message: Seq<char>, now: u128)
    ensures
        follows(called(t, id, TaskCall::Fail { message }, now), worked(t, TaskCall::Fail { message }, now)),
{
    reveal(asked);
    let u = engine::failing(t, message, now).task;
    assert(u.logs.take(t.logs.len() as int) =~= t.logs);
}

proof fn lemma_lease_follows(t: TaskView, id: Seq<char>, preferred: LaneAssignment, now: u128)
    ensures
        follows(called(t, id, TaskCall::Lease { preferred }, now), worked(t, TaskCall::Lease { preferred }, now)),
{
    reveal(leased_from);
    reveal(without_leased);
    let u = engine::leasing(t, id, preferred, now).0.task;
    assert(u.logs.take(t.logs.len() as int) =~= t.logs);
}

proof fn lemma_tick_follows(t: TaskView, id: Seq<char>, steps: usize, now: u128)
    ensures
        follows(called(t, id, TaskCall::Tick { steps }, now), worked(t, TaskCall::Tick { steps }, now)),
{
    reveal(advanced);
    reveal(with_steps);
    lemma_itself_follows(t);
    lemma_finish_follows(worked(t, TaskCall::Tick { steps }, now), now);
}

proof fn lemma_commit_follows(
    t: TaskView,
    id: Seq<char>,
    chunk: ChunkDescriptor,
    lane: LaneAssignment,
    was_skipped: bool,
    now: u128,
)
    ensures
        follows(called(t, id, TaskCall::Commit { chunk, lane, was_skipped }, now), worked(t, TaskCall::Commit { chunk, lane, was_skipped }, now)),
{
    reveal(told);
    reveal(with_chunk);
    lemma_itself_follows(t);
    lemma_finish_follows(worked(t, TaskCall::Commit { chunk, lane, was_skipped }, now), now);
}

proof fn lemma_pending_commit_follows(
    t: TaskView,
    id: Seq<char>,
    chunk: ChunkDescriptor,
    lane: LaneAssignment,
    was_skipped: bool,
    now: u128,
)
    ensures
        follows(called(t, id, TaskCall::CommitPending { chunk, lane, was_skipped }, now), worked(t, TaskCall::CommitPending { chunk, lane, was_skipped }, now)),
{
    reveal(told);
    reveal(with_chunk);
    lemma_itself_follows(t);
    lemma_finish_follows(worked(t, TaskCall::CommitPending { chunk, lane, was_skipped }, now), now);
}

proof fn lemma_completion_follows(t: TaskView, id: Seq<char>, lease: ChunkLease, was_skipped: bool, now: u128)
    ensures
        follows(called(t, id, TaskCall::CompleteLease { lease, was_skipped }, now), worked(t, TaskCall::CompleteLease { lease, was_skipped }, now)),
{
    reveal(told);
    reveal(with_lease);
    reveal(with_chunk);
    lemma_itself_follows(t);
    lemma_finish_follows(worked(t, TaskCall::CompleteLease { lease, was_skipped }, now), now);
}

proof fn lemma_file_follows(
    t: TaskView,
    id: Seq<char>,
    file_index: usize,
    lane: LaneAssignment,
    was_skipped: bool,
    now: u128,
)
    ensures
        follows(called(t, id, TaskCall::CompleteFile { file_index, lane, was_skipped }, now), worked(t, TaskCall::CompleteFile { file_index, lane, was_skipped }, now)),
{
    reveal(told_of_file);
    reveal(with_file);
    lemma_itself_follows(t);
    lemma_finish_follows(
        worked(t, TaskCall::CompleteFile { file_index, lane, was_skipped }, now),
        now,
    );
}

proof fn lemma_rechunk_follows(t: TaskView, id: Seq<char>, chunk_size: u64, now: u128)
    ensures
        follows(called(t, id, TaskCall::Rechunk { chunk_size }, now), worked(t, TaskCall::Rechunk { chunk_size }, now)),
{
    reveal(rechunked);
    reveal(planned_anew);
    lemma_itself_follows(t);
}

proof fn lemma_restore_follows(t: TaskView, id: Seq<char>, count: usize, now: u128)
    ensures
        follows(called(t, id, TaskCall::RestoreLogs { count }, now), worked(t, TaskCall::RestoreLogs { count }, now)),
{
    lemma_itself_follows(t);
}

/// A call does its work, and then at most the state, the error, the time of the checkpoint and the
/// end of the log follow.
pub proof fn lemma_call_follows_work(t: TaskView, id: Seq<char>, call: TaskCall, now: u128)
    ensures
        follows(called(t, id, call, now), worked(t, call, now)),
{
    match call {
        TaskCall::Pause => lemma_pause_follows(t, id, now),
        TaskCall::Resume => lemma_resume_follows(t, id, now),
        TaskCall::Cancel => lemma_cancel_follows(t, id, now),
        TaskCall::Retry => lemma_retry_follows(t, id, now),
        TaskCall::Fail { message } => lemma_failure_follows(t, id, message, now),
        TaskCall::Tick { steps } => lemma_tick_follows(t, id, steps, now),
        TaskCall::Commit { chunk, lane, was_skipped } => lemma_commit_follows(
            t,
            id,
            chunk,
            lane,
            was_skipped,
            now,
        ),
        TaskCall::CommitPending { chunk, lane, was_skipped } => lemma_pending_commit_follows(
            t,
            id,
            chunk,
            lane,
            was_skipped,
            now,
        ),
        TaskCall::CompleteLease { lease, was_skipped } => lemma_completion_follows(
            t,
            id,
            lease,
            was_skipped,
            now,
        ),
        TaskCall::CompleteFile { file_index, lane, was_skipped } => lemma_file_follows(
            t,
            id,
            file_index,
            lane,
            was_skipped,
            now,
        ),
        TaskCall::Lease { preferred } => lemma_lease_follows(t, id, preferred, now),
        TaskCall::Rechunk { chunk_size } => lemma_rechunk_follows(t, id, chunk_size, now),
        TaskCall::RestoreLogs { count } => lemma_restore_follows(t, id, count, now),
    }
}

} // verus!
