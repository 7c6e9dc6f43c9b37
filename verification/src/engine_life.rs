//! What holds of a task over its whole life, whatever is asked of the engine.

use crate::checkpoint;
use crate::checkpoint::{CheckpointEntryView, FileCheckpointView};
use crate::checkpoint_laws;
use crate::checkpoint_text;
use crate::engine;
use crate::engine::TransferEngineError;
use crate::engine_laws;
use crate::engine_task;
use crate::engine_task::{EngineTaskSnapshot, SnapshotView, TaskView};
use crate::inventory::SourceScan;
use crate::logging::LogRecordView;
use crate::models;
use crate::models::{ChunkDescriptor, TaskConfigView, TaskState, TransferItemView};
use crate::order;
use crate::scheduler;
use crate::scheduler::{LaneAssignment, SchedulerDecision, SchedulerView};
use crate::scheduler_laws;
use crate::task_calls;
use crate::task_calls::{after_call, called, continues, lived, worked, TaskCall};
use crate::text;
use vstd::prelude::*;

verus! {

proof fn lemma_continues_on(a: Seq<LogRecordView>, b: Seq<LogRecordView>, c: Seq<LogRecordView>)
    requires
        continues(b, a),
        continues(c, b),
    ensures
        continues(c, a),
{
    assert(c.take(a.len() as int) =~= b.take(a.len() as int));
}

proof fn lemma_commits_continue(
    t: TaskView,
    chunks: Seq<ChunkDescriptor>,
    lane: LaneAssignment,
    was_skipped: bool,
    now: u128,
)
    ensures
        continues(t.committed_all(chunks, lane, was_skipped, now).logs, t.logs),
    decreases chunks.len(),
{
    if chunks.len() > 0 {
        lemma_commits_continue(t, chunks.drop_last(), lane, was_skipped, now);
        let u = t.committed_all(chunks.drop_last(), lane, was_skipped, now);
        let v = t.committed_all(chunks, lane, was_skipped, now);
        assert(v.logs.take(u.logs.len() as int) =~= u.logs);
        lemma_continues_on(t.logs, u.logs, v.logs);
    } else {
        assert(t.logs.take(t.logs.len() as int) =~= t.logs);
    }
}

proof fn lemma_work_continues(t: TaskView, call: TaskCall, now: u128)
    ensures
        continues(worked(t, call, now).logs, t.logs),
{
    assert(t.logs.take(t.logs.len() as int) =~= t.logs);
    match call {
        TaskCall::Tick { steps } => {
            reveal(task_calls::with_steps);
            engine_laws::lemma_steps_only_add(
                t.in_state(TaskState::Running),
                if steps == 0 {
                    1
                } else {
                    steps as nat
                },
                now,
            );
        },
        TaskCall::Commit { chunk, lane, was_skipped } => {
            lemma_chunk_continues(t, chunk, lane, was_skipped, now);
        },
        TaskCall::CommitPending { chunk, lane, was_skipped } => {
            lemma_chunk_continues(t, chunk, lane, was_skipped, now);
        },
        TaskCall::CompleteLease { lease, was_skipped } => {
            lemma_chunk_continues(t, lease.chunk, lease.lane, was_skipped, now);
            reveal(task_calls::with_lease);
        },
        TaskCall::CompleteFile { file_index, lane, was_skipped } => {
            reveal(task_calls::with_file);
            if file_index < t.items.len() {
                lemma_commits_continue(
                    t.in_state(TaskState::Running),
                    models::chunks_of(
                        file_index,
                        t.items[file_index as int].size_bytes,
                        t.config.chunk_size_bytes,
                    ),
                    lane,
                    was_skipped,
                    now,
                );
            }
        },
        TaskCall::Lease { preferred } => {
            reveal(task_calls::without_leased);
        },
        TaskCall::Rechunk { chunk_size } => {
            reveal(task_calls::planned_anew);
        },
        _ => {},
    }
}

proof fn lemma_chunk_continues(
    t: TaskView,
    chunk: ChunkDescriptor,
    lane: LaneAssignment,
    was_skipped: bool,
    now: u128,
)
    ensures
        continues(task_calls::with_chunk(t, chunk, lane, was_skipped, now).logs, t.logs),
{
    reveal(task_calls::with_chunk);
    let u = task_calls::with_chunk(t, chunk, lane, was_skipped, now);
    assert(u.logs.take(t.logs.len() as int) =~= t.logs);
}

/// The log only grows: whatever is asked, the records that there were stand at its beginning,
/// unchanged, and so do their lines.
pub proof fn lemma_log_only_grows(t: TaskView, id: Seq<char>, call: TaskCall, now: u128)
    ensures
        continues(called(t, id, call, now).logs, t.logs),
        engine::json_lines(called(t, id, call, now).logs).take(t.logs.len() as int)
            == engine::json_lines(t.logs),
{
    task_calls::lemma_call_follows_work(t, id, call, now);
    lemma_work_continues(t, call, now);
    let u = called(t, id, call, now);
    lemma_continues_on(t.logs, worked(t, call, now).logs, u.logs);
    assert(engine::json_lines(u.logs).take(t.logs.len() as int) =~= engine::json_lines(t.logs)) by {
        assert forall|i: int| 0 <= i < t.logs.len() implies u.logs[i] == t.logs[i] by {
            assert(u.logs.take(t.logs.len() as int)[i] == t.logs[i]);
        }
    }
}

/// Over its whole life the log of a task only grows, so that it begins with the record of how the
/// task came to be: created or recovered.
pub proof fn lemma_log_tells_the_whole_life(
    t: TaskView,
    id: Seq<char>,
    calls: Seq<(TaskCall, u128)>,
    config: TaskConfigView,
    items: Seq<TransferItemView>,
    entry: CheckpointEntryView,
    now: u128,
)
    ensures
        continues(lived(t, id, calls).logs, t.logs),
        t == engine_task::fresh_task(config, items, now) ==> lived(t, id, calls).logs.len() > 0
            && lived(t, id, calls).logs[0].message == "task created"@,
        t == engine_task::recovered_task(entry, id, now) ==> lived(t, id, calls).logs.len() > 0
            && lived(t, id, calls).logs[0].message == "task recovered from checkpoint"@,
    decreases calls.len(),
{
    if calls.len() == 0 {
        assert(t.logs.take(t.logs.len() as int) =~= t.logs);
    } else {
        lemma_log_tells_the_whole_life(t, id, calls.drop_last(), config, items, entry, now);
        let u = lived(t, id, calls.drop_last());
        lemma_log_only_grows(u, id, calls.last().0, calls.last().1);
        lemma_continues_on(t.logs, u.logs, lived(t, id, calls).logs);
        assert(t.logs.len() > 0 ==> lived(t, id, calls).logs.take(t.logs.len() as int)[0]
            == lived(t, id, calls).logs[0]);
    }
}

/// Whether a call plans a task anew, with chunks of another length.
pub open spec fn replans(t: TaskView, call: TaskCall) -> bool {
    call matches TaskCall::Rechunk { chunk_size } && chunk_size != t.config.chunk_size_bytes
}

/// Whether no chunk waits that did not wait before, or waits more often.
pub open spec fn waits_no_more(after: SchedulerView, before: SchedulerView) -> bool {
    forall|c: ChunkDescriptor| #[trigger] after.waiting().count(c) <= before.waiting().count(c)
}

proof fn lemma_lease_waits_no_more(v: SchedulerView, limit: usize, preferred: LaneAssignment)
    ensures
        waits_no_more(v.lease_next(limit, preferred).1, v),
{
    scheduler::lemma_lease_takes_one(v, limit, preferred);
}

proof fn lemma_steps_wait_no_more(t: TaskView, steps: nat, now: u128)
    ensures
        waits_no_more(t.stepped(steps, now).0.scheduler, t.scheduler),
    decreases steps,
{
    if steps > 0 {
        lemma_steps_wait_no_more(t, (steps - 1) as nat, now);
        let (u, going) = t.stepped((steps - 1) as nat, now);
        if going {
            lemma_lease_waits_no_more(
                u.scheduler,
                u.config.max_in_flight_chunks_per_lane,
                TaskView::preferred((steps - 1) as nat),
            );
            let after = t.stepped(steps, now).0.scheduler;
            let leased = u.scheduler.lease_next(
                u.config.max_in_flight_chunks_per_lane,
                TaskView::preferred((steps - 1) as nat),
            ).1;
            assert(after.waiting() == leased.waiting());
            assert forall|c: ChunkDescriptor| #[trigger] after.waiting().count(c)
                <= t.scheduler.waiting().count(c) by {
                assert(leased.waiting().count(c) <= u.scheduler.waiting().count(c));
                assert(u.scheduler.waiting().count(c) <= t.scheduler.waiting().count(c));
            }
        }
    }
}

proof fn lemma_commits_keep_scheduler(
    t: TaskView,
    chunks: Seq<ChunkDescriptor>,
    lane: LaneAssignment,
    was_skipped: bool,
    now: u128,
)
    ensures
        t.committed_all(chunks, lane, was_skipped, now).scheduler == t.scheduler,
    decreases chunks.len(),
{
    if chunks.len() > 0 {
        lemma_commits_keep_scheduler(t, chunks.drop_last(), lane, was_skipped, now);
    }
}

/// No call makes a chunk wait that did not wait, but for one that plans the task anew.
pub proof fn lemma_calls_wait_no_more(t: TaskView, id: Seq<char>, call: TaskCall, now: u128)
    requires
        !replans(t, call),
    ensures
        waits_no_more(called(t, id, call, now).scheduler, t.scheduler),
{
    task_calls::lemma_call_follows_work(t, id, call, now);
    match call {
        TaskCall::Tick { steps } => {
            reveal(task_calls::with_steps);
            lemma_steps_wait_no_more(
                t.in_state(TaskState::Running),
                if steps == 0 {
                    1
                } else {
                    steps as nat
                },
                now,
            );
        },
        TaskCall::Commit { chunk, lane, was_skipped } => {
            reveal(task_calls::with_chunk);
        },
        TaskCall::CommitPending { chunk, lane, was_skipped } => {
            reveal(task_calls::with_chunk);
        },
        TaskCall::CompleteLease { lease, was_skipped } => {
            reveal(task_calls::with_chunk);
            reveal(task_calls::with_lease);
            assert(worked(t, call, now).scheduler.waiting() == t.scheduler.waiting());
        },
        TaskCall::CompleteFile { file_index, lane, was_skipped } => {
            reveal(task_calls::with_file);
            if file_index < t.items.len() {
                lemma_commits_keep_scheduler(
                    t.in_state(TaskState::Running),
                    models::chunks_of(
                        file_index,
                        t.items[file_index as int].size_bytes,
                        t.config.chunk_size_bytes,
                    ),
                    lane,
                    was_skipped,
                    now,
                );
            }
        },
        TaskCall::Lease { preferred } => {
            reveal(task_calls::without_leased);
            lemma_lease_waits_no_more(
                t.scheduler,
                t.config.max_in_flight_chunks_per_lane,
                preferred,
            );
        },
        TaskCall::Rechunk { chunk_size } => {
            reveal(task_calls::planned_anew);
        },
        _ => {},
    }
}

/// Whether no call of a life plans the task anew.
pub open spec fn keeps_plan(t: TaskView, id: Seq<char>, calls: Seq<(TaskCall, u128)>) -> bool
    decreases calls.len(),
{
    calls.len() > 0 ==> keeps_plan(t, id, calls.drop_last()) && !replans(
        lived(t, id, calls.drop_last()),
        calls.last().0,
    )
}

proof fn lemma_life_waits_no_more(t: TaskView, id: Seq<char>, calls: Seq<(TaskCall, u128)>)
    requires
        keeps_plan(t, id, calls),
    ensures
        waits_no_more(lived(t, id, calls).scheduler, t.scheduler),
    decreases calls.len(),
{
    if calls.len() > 0 {
        lemma_life_waits_no_more(t, id, calls.drop_last());
        let u = lived(t, id, calls.drop_last());
        lemma_calls_wait_no_more(u, id, calls.last().0, calls.last().1);
        let v = lived(t, id, calls);
        assert forall|c: ChunkDescriptor| #[trigger] v.scheduler.waiting().count(c)
            <= t.scheduler.waiting().count(c) by {
            assert(v.scheduler.waiting().count(c) <= u.scheduler.waiting().count(c));
            assert(u.scheduler.waiting().count(c) <= t.scheduler.waiting().count(c));
        }
    }
}

/// Whether every waiting chunk waits once.
pub open spec fn waits_once(t: TaskView) -> bool {
    forall|c: ChunkDescriptor| #[trigger] t.scheduler.waiting().count(c) <= 1
}

/// In a task that was created or recovered every waiting chunk waits once, and that stays so over
/// its whole life.
pub proof fn lemma_chunks_wait_once(
    t: TaskView,
    id: Seq<char>,
    calls: Seq<(TaskCall, u128)>,
    config: TaskConfigView,
    items: Seq<TransferItemView>,
    entry: CheckpointEntryView,
    now: u128,
)
    requires
        items.len() <= usize::MAX,
        entry.checkpoint.files.len() <= usize::MAX,
        keeps_plan(t, id, calls),
    ensures
        t == engine_task::fresh_task(config, items, now) ==> waits_once(lived(t, id, calls)),
        t == engine_task::recovered_task(entry, id, now) ==> waits_once(lived(t, id, calls)),
{
    lemma_life_waits_no_more(t, id, calls);
    let u = lived(t, id, calls);
    let fresh = engine_task::fresh_task(config, items, now);
    let back = engine_task::recovered_task(entry, id, now);
    assert forall|c: ChunkDescriptor| #[trigger]
        u.scheduler.waiting().count(c) <= t.scheduler.waiting().count(c)
            && fresh.scheduler.waiting().count(c) <= 1 && back.scheduler.waiting().count(c) <= 1 by {
        scheduler_laws::lemma_planned_waits_once(
            config.transport_mode,
            config.chunk_size_bytes,
            config.small_file_threshold_bytes,
            engine_task::item_sizes(items),
            Seq::empty(),
            items.len(),
            c,
        );
        scheduler_laws::lemma_planned_waits_once(
            entry.config.transport_mode,
            entry.config.chunk_size_bytes,
            entry.config.small_file_threshold_bytes,
            engine_task::item_sizes(back.items),
            entry.checkpoint.files.map_values(|f: FileCheckpointView| f.completed_chunks),
            back.items.len(),
            c,
        );
    }
}

/// A chunk that was leased is never leased again, whatever is asked in between: neither by a lease
/// nor by advancing the task, for it waits no more.
pub proof fn lemma_chunk_is_leased_once(
    t: TaskView,
    id: Seq<char>,
    preferred: LaneAssignment,
    now: u128,
    calls: Seq<(TaskCall, u128)>,
    again: LaneAssignment,
    later: u128,
)
    requires
        waits_once(t),
        keeps_plan(called(t, id, TaskCall::Lease { preferred }, now), id, calls),
        engine::leasing(t, id, preferred, now).1 is Some,
    ensures
        ({
            let chunk = engine::leasing(t, id, preferred, now).1->0.chunk;
            let u = lived(called(t, id, TaskCall::Lease { preferred }, now), id, calls);
            &&& t.scheduler.waiting().count(chunk) == 1
            &&& u.scheduler.waiting().count(chunk) == 0
            &&& engine::leasing(u, id, again, later).1 matches Some(lease) ==> lease.chunk != chunk
        }),
{
    let s = called(t, id, TaskCall::Lease { preferred }, now);
    let u = lived(s, id, calls);
    lemma_lease_ends_waiting(t, id, preferred, now);
    let chunk = engine::leasing(t, id, preferred, now).1->0.chunk;
    assert(t.scheduler.waiting().count(chunk) <= 1);
    lemma_life_waits_no_more(s, id, calls);
    assert(u.scheduler.waiting().count(chunk) <= s.scheduler.waiting().count(chunk));
    lemma_lease_was_waiting(u, id, again, later);
}

proof fn lemma_lease_was_waiting(t: TaskView, id: Seq<char>, preferred: LaneAssignment, now: u128)
    ensures
        engine::leasing(t, id, preferred, now).1 matches Some(lease) ==> t.scheduler.waiting().count(
            lease.chunk,
        ) > 0,
{
    scheduler::lemma_lease_takes_one(
        t.scheduler,
        t.config.max_in_flight_chunks_per_lane,
        preferred,
    );
}

proof fn lemma_lease_ends_waiting(t: TaskView, id: Seq<char>, preferred: LaneAssignment, now: u128)
    requires
        engine::leasing(t, id, preferred, now).1 is Some,
    ensures
        ({
            let chunk = engine::leasing(t, id, preferred, now).1->0.chunk;
            let s = called(t, id, TaskCall::Lease { preferred }, now);
            &&& t.scheduler.waiting().count(chunk) > 0
            &&& s.scheduler.waiting().count(chunk) == t.scheduler.waiting().count(chunk) - 1
        }),
{
    reveal(task_calls::leased_from);
    scheduler::lemma_lease_takes_one(
        t.scheduler,
        t.config.max_in_flight_chunks_per_lane,
        preferred,
    );
}

/// Whether a file of a checkpoint is the one that an item stands for.
pub open spec fn is_file_of(f: FileCheckpointView, item: TransferItemView) -> bool {
    let fresh = checkpoint::fresh_file(item);
    &&& f.relative_path == fresh.relative_path
    &&& f.size_bytes == fresh.size_bytes
    &&& f.modified_at_epoch_ms == fresh.modified_at_epoch_ms
    &&& f.fingerprint_hex == fresh.fingerprint_hex
}

/// Whether the chunks of every file can be counted.
pub open spec fn are_countable(items: Seq<TransferItemView>, chunk_size: u64) -> bool {
    forall|i: int|
        0 <= i < items.len() ==> models::is_countable((#[trigger] items[i]).size_bytes, chunk_size)
}

/// Whether a task is in order: the checkpoint is that of its files and settings, the numbers are
/// those that the checkpoint gives, and only chunks of its files wait.
pub open spec fn is_sound(t: TaskView) -> bool {
    &&& t.checkpoint.config == t.config
    &&& t.items.len() <= usize::MAX
    &&& t.files().len() == t.items.len()
    &&& forall|i: int| 0 <= i < t.items.len() ==> is_file_of(#[trigger] t.files()[i], t.items[i])
    &&& are_countable(t.items, t.config.chunk_size_bytes)
    &&& engine_laws::is_honest(t)
    &&& engine_laws::waits_genuinely(t)
}

/// Whether a call commits only chunks that the files of a task are divided into.
pub open spec fn is_real(t: TaskView, call: TaskCall) -> bool {
    match call {
        TaskCall::Commit { chunk, .. } => engine_laws::is_genuine(t, chunk),
        TaskCall::CommitPending { chunk, .. } => engine_laws::is_genuine(t, chunk),
        TaskCall::CompleteLease { lease, .. } => engine_laws::is_genuine(t, lease.chunk),
        TaskCall::Rechunk { chunk_size } => are_countable(t.items, chunk_size),
        _ => true,
    }
}

/// Whether two tasks have the same files, settings and numbers, and nothing new waits.
spec fn is_kept(u: TaskView, t: TaskView) -> bool {
    &&& u.config == t.config
    &&& u.items == t.items
    &&& u.checkpoint.config == t.checkpoint.config
    &&& u.files() == t.files()
    &&& u.metrics == t.metrics
    &&& waits_no_more(u.scheduler, t.scheduler)
}

proof fn lemma_kept_stays_sound(u: TaskView, t: TaskView)
    requires
        is_sound(t),
        is_kept(u, t),
    ensures
        is_sound(u),
{
    assert forall|c: ChunkDescriptor| #[trigger]
        u.scheduler.waiting().count(c) > 0 implies engine_laws::is_genuine(u, c) by {
        assert(u.scheduler.waiting().count(c) <= t.scheduler.waiting().count(c));
        assert(engine_laws::is_genuine(t, c));
    }
}

proof fn lemma_commit_stays_sound(
    t: TaskView,
    chunk: ChunkDescriptor,
    lane: LaneAssignment,
    was_skipped: bool,
    now: u128,
)
    requires
        is_sound(t),
        engine_laws::is_genuine(t, chunk),
    ensures
        is_sound(t.committed(chunk, lane, was_skipped, now)),
        t.committed(chunk, lane, was_skipped, now).items == t.items,
        t.committed(chunk, lane, was_skipped, now).config == t.config,
{
    let u = t.committed(chunk, lane, was_skipped, now);
    engine_laws::lemma_commit_stays_honest(t, chunk, lane, was_skipped, now);
    assert forall|i: int| 0 <= i < u.items.len() implies is_file_of(
        #[trigger] u.files()[i],
        u.items[i],
    ) by {
        assert(is_file_of(t.files()[i], t.items[i]));
    }
    assert forall|c: ChunkDescriptor| #[trigger]
        u.scheduler.waiting().count(c) > 0 implies engine_laws::is_genuine(u, c) by {
        assert(t.scheduler.waiting().count(c) > 0);
        assert(engine_laws::is_genuine(t, c));
        if c.file_index < u.files().len() {
            assert(u.files()[c.file_index as int].size_bytes
                == t.files()[c.file_index as int].size_bytes);
        }
    }
}

proof fn lemma_file_stays_sound(
    t: TaskView,
    file_index: usize,
    n: int,
    lane: LaneAssignment,
    was_skipped: bool,
    now: u128,
)
    requires
        is_sound(t),
        file_index < t.items.len(),
        0 <= n <= models::chunk_count(
            t.items[file_index as int].size_bytes,
            t.config.chunk_size_bytes,
        ),
    ensures
        ({
            let chunks = models::chunks_of(
                file_index,
                t.items[file_index as int].size_bytes,
                t.config.chunk_size_bytes,
            ).take(n);
            let u = t.committed_all(chunks, lane, was_skipped, now);
            is_sound(u) && u.items == t.items && u.config == t.config
        }),
    decreases n,
{
    let size = t.items[file_index as int].size_bytes;
    let all = models::chunks_of(file_index, size, t.config.chunk_size_bytes);
    if n > 0 {
        lemma_file_stays_sound(t, file_index, n - 1, lane, was_skipped, now);
        assert(all.take(n).drop_last() =~= all.take(n - 1));
        let u = t.committed_all(all.take(n - 1), lane, was_skipped, now);
        let c = all[n - 1];
        assert(c == models::chunk_at(file_index, size, t.config.chunk_size_bytes, n - 1));
        assert(is_file_of(u.files()[file_index as int], u.items[file_index as int]));
        assert(models::is_countable(size, t.config.chunk_size_bytes));
        models::lemma_index_tells_length(file_index, size, t.config.chunk_size_bytes, n - 1);
        assert(engine_laws::is_genuine(u, c));
        lemma_commit_stays_sound(u, c, lane, was_skipped, now);
    }
}

proof fn lemma_steps_stay_sound(t: TaskView, steps: nat, now: u128)
    requires
        is_sound(t),
    ensures
        is_sound(t.stepped(steps, now).0),
    decreases steps,
{
    if steps > 0 {
        lemma_steps_stay_sound(t, (steps - 1) as nat, now);
        let (u, going) = t.stepped((steps - 1) as nat, now);
        if going {
            let limit = u.config.max_in_flight_chunks_per_lane;
            let preferred = TaskView::preferred((steps - 1) as nat);
            let (decision, s) = u.scheduler.lease_next(limit, preferred);
            scheduler::lemma_lease_takes_one(u.scheduler, limit, preferred);
            lemma_lease_waits_no_more(u.scheduler, limit, preferred);
            if let SchedulerDecision::Lease(lease) = decision {
                let v = TaskView { scheduler: s, ..u };
                lemma_kept_stays_sound(v, u);
                assert(u.scheduler.waiting().count(lease.chunk) > 0);
                assert(engine_laws::is_genuine(u, lease.chunk));
                lemma_commit_stays_sound(v, lease.chunk, lease.lane, false, now);
                let w = v.committed(lease.chunk, lease.lane, false, now);
                let x = TaskView { scheduler: w.scheduler.complete(lease.lane), ..w };
                assert(x.scheduler.waiting() == w.scheduler.waiting());
                lemma_kept_stays_sound(x, w);
            }
        }
    }
}

/// A task that was just created is in order.
pub proof fn lemma_fresh_task_is_sound(
    config: TaskConfigView,
    items: Seq<TransferItemView>,
    now: u128,
)
    requires
        items.len() <= usize::MAX,
        are_countable(items, config.chunk_size_bytes),
    ensures
        is_sound(engine_task::fresh_task(config, items, now)),
{
    let t = engine_task::fresh_task(config, items, now);
    engine_laws::lemma_fresh_task_is_honest(config, items, now);
    assert forall|i: int| 0 <= i < t.items.len() implies (#[trigger] t.files()[i]).size_bytes
        == t.items[i].size_bytes && models::is_countable(
        t.items[i].size_bytes,
        t.config.chunk_size_bytes,
    ) by {
        assert(t.files()[i] == checkpoint::fresh_file(items[i]));
    }
    engine_laws::lemma_planned_waits_genuinely(t, Seq::empty());
}

/// A task that was recovered is in order.
pub proof fn lemma_recovered_task_is_sound(entry: CheckpointEntryView, id: Seq<char>, now: u128)
    requires
        entry.checkpoint.files.len() <= usize::MAX,
        are_countable(
            entry.checkpoint.files.map_values(
                |f: FileCheckpointView| engine_task::item_of_file(f),
            ),
            entry.config.chunk_size_bytes,
        ),
    ensures
        is_sound(engine_task::recovered_task(entry, id, now)),
{
    let t = engine_task::recovered_task(entry, id, now);
    let files = entry.checkpoint.files;
    assert forall|i: int| 0 <= i < t.items.len() implies (#[trigger] t.files()[i]).size_bytes
        == t.items[i].size_bytes && models::is_countable(
        t.items[i].size_bytes,
        t.config.chunk_size_bytes,
    ) by {
        assert(t.items[i] == engine_task::item_of_file(files[i]));
    }
    engine_laws::lemma_planned_waits_genuinely(
        t,
        files.map_values(|f: FileCheckpointView| f.completed_chunks),
    );
    assert forall|i: int| 0 <= i < t.items.len() implies is_file_of(
        #[trigger] t.files()[i],
        t.items[i],
    ) by {
        assert(t.items[i] == engine_task::item_of_file(files[i]));
    }
}

proof fn lemma_chunk_stays_sound(
    t: TaskView,
    chunk: ChunkDescriptor,
    lane: LaneAssignment,
    was_skipped: bool,
    now: u128,
)
    requires
        is_sound(t),
        engine_laws::is_genuine(t, chunk),
    ensures
        is_sound(task_calls::with_chunk(t, chunk, lane, was_skipped, now)),
{
    reveal(task_calls::with_chunk);
    let running = t.in_state(TaskState::Running);
    lemma_kept_stays_sound(running, t);
    if engine::can_progress(t) {
        lemma_commit_stays_sound(running, chunk, lane, was_skipped, now);
    }
}

proof fn lemma_work_stays_sound(t: TaskView, call: TaskCall, now: u128)
    requires
        is_sound(t),
        is_real(t, call),
    ensures
        is_sound(worked(t, call, now)),
{
    match call {
        TaskCall::Tick { steps } => {
            reveal(task_calls::with_steps);
            lemma_kept_stays_sound(t.in_state(TaskState::Running), t);
            lemma_steps_stay_sound(
                t.in_state(TaskState::Running),
                if steps == 0 {
                    1
                } else {
                    steps as nat
                },
                now,
            );
        },
        TaskCall::Commit { chunk, lane, was_skipped } => {
            lemma_chunk_stays_sound(t, chunk, lane, was_skipped, now);
        },
        TaskCall::CommitPending { chunk, lane, was_skipped } => {
            lemma_chunk_stays_sound(t, chunk, lane, was_skipped, now);
        },
        TaskCall::CompleteLease { lease, was_skipped } => {
            lemma_chunk_stays_sound(t, lease.chunk, lease.lane, was_skipped, now);
            reveal(task_calls::with_lease);
            let v = task_calls::with_chunk(t, lease.chunk, lease.lane, was_skipped, now);
            if engine::can_progress(t) {
                assert(worked(t, call, now).scheduler.waiting() == v.scheduler.waiting());
                lemma_kept_stays_sound(worked(t, call, now), v);
            }
        },
        TaskCall::CompleteFile { file_index, lane, was_skipped } => {
            reveal(task_calls::with_file);
            if engine::can_progress(t) && file_index < t.items.len() {
                let running = t.in_state(TaskState::Running);
                lemma_kept_stays_sound(running, t);
                let chunks = models::chunks_of(
                    file_index,
                    t.items[file_index as int].size_bytes,
                    t.config.chunk_size_bytes,
                );
                let n = chunks.len() as int;
                lemma_file_stays_sound(running, file_index, n, lane, was_skipped, now);
                assert(chunks.take(n) =~= chunks);
            }
        },
        TaskCall::Lease { preferred } => {
            reveal(task_calls::without_leased);
            lemma_lease_waits_no_more(
                t.scheduler,
                t.config.max_in_flight_chunks_per_lane,
                preferred,
            );
            lemma_kept_stays_sound(worked(t, call, now), t);
        },
        TaskCall::Rechunk { chunk_size } => {
            reveal(task_calls::planned_anew);
            if chunk_size != t.config.chunk_size_bytes {
                let config = TaskConfigView { chunk_size_bytes: chunk_size, ..t.config };
                lemma_fresh_task_is_sound(config, t.items, now);
                lemma_kept_stays_sound(
                    worked(t, call, now),
                    engine_task::fresh_task(config, t.items, now),
                );
            }
        },
        _ => {},
    }
}

/// A task in order stays so, whatever is asked, as long as only chunks are committed that its
/// files are divided into.
pub proof fn lemma_calls_stay_sound(t: TaskView, id: Seq<char>, call: TaskCall, now: u128)
    requires
        is_sound(t),
        is_real(t, call),
    ensures
        is_sound(called(t, id, call, now)),
{
    task_calls::lemma_call_follows_work(t, id, call, now);
    lemma_work_stays_sound(t, call, now);
    lemma_kept_stays_sound(called(t, id, call, now), worked(t, call, now));
}

/// Whether every call of a life commits only chunks that the files are divided into.
pub open spec fn is_real_life(t: TaskView, id: Seq<char>, calls: Seq<(TaskCall, u128)>) -> bool
    decreases calls.len(),
{
    calls.len() > 0 ==> is_real_life(t, id, calls.drop_last()) && is_real(
        lived(t, id, calls.drop_last()),
        calls.last().0,
    )
}

/// A task in order stays so over its whole life, as long as only chunks are committed that its
/// files are divided into.
pub proof fn lemma_life_stays_sound(t: TaskView, id: Seq<char>, calls: Seq<(TaskCall, u128)>)
    requires
        is_sound(t),
        is_real_life(t, id, calls),
    ensures
        is_sound(lived(t, id, calls)),
    decreases calls.len(),
{
    if calls.len() > 0 {
        lemma_life_stays_sound(t, id, calls.drop_last());
        lemma_calls_stay_sound(
            lived(t, id, calls.drop_last()),
            id,
            calls.last().0,
            calls.last().1,
        );
    }
}

/// Whether the chunks of a file ascend, no one twice, and have a lane each.
pub open spec fn is_file_in_step(f: FileCheckpointView) -> bool {
    &&& forall|i: int, j: int|
        0 <= i < j < f.completed_chunks.len() ==> (#[trigger] f.completed_chunks[i]) < (
        #[trigger] f.completed_chunks[j])
    &&& f.completed_chunk_lanes.dom() == f.completed_chunks.to_set()
}

/// How many chunks of all files are done.
pub open spec fn done_chunks(files: Seq<FileCheckpointView>) -> nat
    decreases files.len(),
{
    if files.len() == 0 {
        0
    } else {
        done_chunks(files.drop_last()) + files.last().completed_chunks.len()
    }
}

/// Whether the checkpoint of a task says what its snapshot says: the state, the number of files
/// and the number of chunks done.
pub open spec fn is_in_step(t: TaskView) -> bool {
    &&& t.checkpoint.checkpoint.state == t.state
    &&& t.files().len() == t.items.len()
    &&& forall|i: int| 0 <= i < t.files().len() ==> is_file_in_step(#[trigger] t.files()[i])
    &&& done_chunks(t.files()) == t.metrics.chunks
}

proof fn lemma_chunk_keeps_file_in_step(f: FileCheckpointView, k: u32, lane: LaneAssignment)
    requires
        is_file_in_step(f),
        !f.completed_chunks.contains(k),
    ensures
        is_file_in_step(engine_task::file_with_chunk(f, k, lane)),
        engine_task::file_with_chunk(f, k, lane).completed_chunks.len()
            == f.completed_chunks.len() + 1,
{
    broadcast use vstd::seq_lib::group_to_multiset_ensures;

    let pushed = f.completed_chunks.push(k);
    let g = engine_task::file_with_chunk(f, k, lane);
    let leq = |a: u32, b: u32| a <= b;
    assert(vstd::relations::total_ordering(leq));
    pushed.lemma_sort_by_ensures(leq);
    engine_laws::lemma_ascending_members(pushed);
    assert(pushed.no_duplicates());
    pushed.lemma_multiset_has_no_duplicates();
    g.completed_chunks.lemma_multiset_has_no_duplicates_conv();
    assert forall|i: int, j: int| 0 <= i < j < g.completed_chunks.len() implies (
    #[trigger] g.completed_chunks[i]) < (#[trigger] g.completed_chunks[j]) by {
        assert(leq(g.completed_chunks[i], g.completed_chunks[j]));
    }
    assert forall|x: u32| g.completed_chunk_lanes.dom().contains(x) <==> g.completed_chunks.contains(
        x,
    ) by {
        assert(g.completed_chunks.contains(x) <==> pushed.contains(x));
        assert(f.completed_chunks.to_set().contains(x) <==> f.completed_chunks.contains(x));
        if f.completed_chunks.contains(x) {
            let i = choose|i: int| 0 <= i < f.completed_chunks.len() && f.completed_chunks[i] == x;
            assert(pushed[i] == x);
        }
        assert(pushed[pushed.len() - 1] == k);
    }
    assert(g.completed_chunk_lanes.dom() =~= g.completed_chunks.to_set());
}

proof fn lemma_done_chunks_change(
    files: Seq<FileCheckpointView>,
    i: int,
    g: FileCheckpointView,
)
    requires
        0 <= i < files.len(),
        g.completed_chunks.len() == files[i].completed_chunks.len() + 1,
    ensures
        done_chunks(files.update(i, g)) == done_chunks(files) + 1,
    decreases files.len(),
{
    let after = files.update(i, g);
    if i == files.len() - 1 {
        assert(after.drop_last() =~= files.drop_last());
    } else {
        lemma_done_chunks_change(files.drop_last(), i, g);
        assert(after.drop_last() =~= files.drop_last().update(i, g));
    }
}

proof fn lemma_commit_stays_in_step(
    t: TaskView,
    chunk: ChunkDescriptor,
    lane: LaneAssignment,
    was_skipped: bool,
    now: u128,
)
    requires
        is_in_step(t),
    ensures
        is_in_step(t.committed(chunk, lane, was_skipped, now)),
{
    if t.accepts(chunk) {
        let i = chunk.file_index as int;
        let f = t.files()[i];
        let g = engine_task::file_with_chunk(f, chunk.chunk_index, lane);
        lemma_chunk_keeps_file_in_step(f, chunk.chunk_index, lane);
        lemma_done_chunks_change(t.files(), i, g);
        let u = t.committed(chunk, lane, was_skipped, now);
        assert forall|j: int| 0 <= j < u.files().len() implies is_file_in_step(
            #[trigger] u.files()[j],
        ) by {
            assert(is_file_in_step(t.files()[j]));
        }
    }
}

proof fn lemma_commits_stay_in_step(
    t: TaskView,
    chunks: Seq<ChunkDescriptor>,
    lane: LaneAssignment,
    was_skipped: bool,
    now: u128,
)
    requires
        is_in_step(t),
    ensures
        is_in_step(t.committed_all(chunks, lane, was_skipped, now)),
    decreases chunks.len(),
{
    if chunks.len() > 0 {
        lemma_commits_stay_in_step(t, chunks.drop_last(), lane, was_skipped, now);
        lemma_commit_stays_in_step(
            t.committed_all(chunks.drop_last(), lane, was_skipped, now),
            chunks.last(),
            lane,
            was_skipped,
            now,
        );
    }
}

proof fn lemma_steps_stay_in_step(t: TaskView, steps: nat, now: u128)
    requires
        is_in_step(t),
    ensures
        is_in_step(t.stepped(steps, now).0),
    decreases steps,
{
    if steps > 0 {
        lemma_steps_stay_in_step(t, (steps - 1) as nat, now);
        let (u, going) = t.stepped((steps - 1) as nat, now);
        if going {
            let (decision, s) = u.scheduler.lease_next(
                u.config.max_in_flight_chunks_per_lane,
                TaskView::preferred((steps - 1) as nat),
            );
            if let SchedulerDecision::Lease(lease) = decision {
                let v = TaskView { scheduler: s, ..u };
                assert(v.files() == u.files());
                assert(is_in_step(v));
                lemma_commit_stays_in_step(v, lease.chunk, lease.lane, false, now);
                let w = v.committed(lease.chunk, lease.lane, false, now);
                let x = TaskView { scheduler: w.scheduler.complete(lease.lane), ..w };
                assert(x.files() == w.files());
            }
        }
    }
}

/// The checkpoint of a new task says what its snapshot says.
pub proof fn lemma_fresh_is_in_step(config: TaskConfigView, items: Seq<TransferItemView>, now: u128)
    ensures
        is_in_step(engine_task::fresh_task(config, items, now)),
{
    let t = engine_task::fresh_task(config, items, now);
    assert forall|i: int| 0 <= i < t.files().len() implies is_file_in_step(
        #[trigger] t.files()[i],
    ) by {
        let f = t.files()[i];
        assert(f == checkpoint::fresh_file(items[i]));
        assert(f.completed_chunk_lanes.dom() =~= f.completed_chunks.to_set());
    }
    lemma_nothing_done(items);
}

proof fn lemma_nothing_done(items: Seq<TransferItemView>)
    ensures
        done_chunks(items.map_values(|i: TransferItemView| checkpoint::fresh_file(i))) == 0,
    decreases items.len(),
{
    let files = items.map_values(|i: TransferItemView| checkpoint::fresh_file(i));
    if items.len() > 0 {
        lemma_nothing_done(items.drop_last());
        assert(files.drop_last() =~= items.drop_last().map_values(
            |i: TransferItemView| checkpoint::fresh_file(i),
        ));
    }
}

proof fn lemma_follower_is_in_step(u: TaskView, v: TaskView)
    requires
        is_in_step(v),
        task_calls::follows(u, v),
    ensures
        is_in_step(u),
{
    assert(u.files() == v.files());
}

proof fn lemma_chunk_stays_in_step(
    t: TaskView,
    chunk: ChunkDescriptor,
    lane: LaneAssignment,
    was_skipped: bool,
    now: u128,
)
    requires
        is_in_step(t),
    ensures
        is_in_step(task_calls::with_chunk(t, chunk, lane, was_skipped, now)),
{
    reveal(task_calls::with_chunk);
    assert(t.in_state(TaskState::Running).files() == t.files());
    lemma_commit_stays_in_step(t.in_state(TaskState::Running), chunk, lane, was_skipped, now);
}

proof fn lemma_work_stays_in_step(t: TaskView, call: TaskCall, now: u128)
    requires
        is_in_step(t),
    ensures
        is_in_step(worked(t, call, now)),
{
    match call {
        TaskCall::Tick { steps } => {
            reveal(task_calls::with_steps);
            assert(t.in_state(TaskState::Running).files() == t.files());
            lemma_steps_stay_in_step(
                t.in_state(TaskState::Running),
                if steps == 0 {
                    1
                } else {
                    steps as nat
                },
                now,
            );
        },
        TaskCall::Commit { chunk, lane, was_skipped } => {
            lemma_chunk_stays_in_step(t, chunk, lane, was_skipped, now);
        },
        TaskCall::CommitPending { chunk, lane, was_skipped } => {
            lemma_chunk_stays_in_step(t, chunk, lane, was_skipped, now);
        },
        TaskCall::CompleteLease { lease, was_skipped } => {
            lemma_chunk_stays_in_step(t, lease.chunk, lease.lane, was_skipped, now);
            reveal(task_calls::with_lease);
            if engine::can_progress(t) {
                assert(worked(t, call, now).files() == task_calls::with_chunk(
                    t,
                    lease.chunk,
                    lease.lane,
                    was_skipped,
                    now,
                ).files());
            }
        },
        TaskCall::CompleteFile { file_index, lane, was_skipped } => {
            reveal(task_calls::with_file);
            if engine::can_progress(t) && file_index < t.items.len() {
                assert(t.in_state(TaskState::Running).files() == t.files());
                lemma_commits_stay_in_step(
                    t.in_state(TaskState::Running),
                    models::chunks_of(
                        file_index,
                        t.items[file_index as int].size_bytes,
                        t.config.chunk_size_bytes,
                    ),
                    lane,
                    was_skipped,
                    now,
                );
            }
        },
        TaskCall::Lease { preferred } => {
            reveal(task_calls::without_leased);
            assert(worked(t, call, now).files() == t.files());
        },
        TaskCall::Rechunk { chunk_size } => {
            reveal(task_calls::planned_anew);
            if chunk_size != t.config.chunk_size_bytes {
                let config = TaskConfigView { chunk_size_bytes: chunk_size, ..t.config };
                lemma_fresh_is_in_step(config, t.items, now);
                assert(worked(t, call, now).files() == engine_task::fresh_task(
                    config,
                    t.items,
                    now,
                ).files());
            }
        },
        _ => {},
    }
}

/// A task whose checkpoint says what its snapshot says stays so, whatever is asked.
pub proof fn lemma_calls_stay_in_step(t: TaskView, id: Seq<char>, call: TaskCall, now: u128)
    requires
        is_in_step(t),
    ensures
        is_in_step(called(t, id, call, now)),
{
    task_calls::lemma_call_follows_work(t, id, call, now);
    lemma_work_stays_in_step(t, call, now);
    lemma_follower_is_in_step(called(t, id, call, now), worked(t, call, now));
}

/// The checkpoint of a task says, whatever was asked about it, what its snapshot says: the state,
/// the number of files and the number of chunks done. The chunks done of each file ascend, no one
/// twice, and just they have a lane.
pub proof fn lemma_checkpoint_agrees_with_snapshot(
    start: TaskView,
    id: Seq<char>,
    calls: Seq<(TaskCall, u128)>,
)
    requires
        is_in_step(start),
    ensures
        ({
            let t = lived(start, id, calls);
            &&& is_in_step(t)
            &&& t.checkpoint.checkpoint.state == t.snapshot().state
            &&& t.checkpoint.checkpoint.files.len() == t.snapshot().total_files
            &&& done_chunks(t.checkpoint.checkpoint.files) == t.snapshot().metrics.chunks
        }),
    decreases calls.len(),
{
    if calls.len() > 0 {
        lemma_checkpoint_agrees_with_snapshot(start, id, calls.drop_last());
        lemma_calls_stay_in_step(
            lived(start, id, calls.drop_last()),
            id,
            calls.last().0,
            calls.last().1,
        );
    }
}

proof fn lemma_commits_keep_config(
    t: TaskView,
    chunks: Seq<ChunkDescriptor>,
    lane: LaneAssignment,
    was_skipped: bool,
    now: u128,
)
    ensures
        t.committed_all(chunks, lane, was_skipped, now).config == t.config,
    decreases chunks.len(),
{
    if chunks.len() > 0 {
        lemma_commits_keep_config(t, chunks.drop_last(), lane, was_skipped, now);
    }
}

proof fn lemma_work_keeps_id(t: TaskView, call: TaskCall, now: u128)
    ensures
        worked(t, call, now).config.task_id == t.config.task_id,
{
    match call {
        TaskCall::Tick { steps } => {
            reveal(task_calls::with_steps);
            engine_laws::lemma_steps_only_add(
                t.in_state(TaskState::Running),
                if steps == 0 {
                    1
                } else {
                    steps as nat
                },
                now,
            );
        },
        TaskCall::Commit { chunk, lane, was_skipped } => {
            reveal(task_calls::with_chunk);
        },
        TaskCall::CommitPending { chunk, lane, was_skipped } => {
            reveal(task_calls::with_chunk);
        },
        TaskCall::CompleteLease { lease, was_skipped } => {
            reveal(task_calls::with_chunk);
            reveal(task_calls::with_lease);
        },
        TaskCall::CompleteFile { file_index, lane, was_skipped } => {
            reveal(task_calls::with_file);
            if file_index < t.items.len() {
                lemma_commits_keep_config(
                    t.in_state(TaskState::Running),
                    models::chunks_of(
                        file_index,
                        t.items[file_index as int].size_bytes,
                        t.config.chunk_size_bytes,
                    ),
                    lane,
                    was_skipped,
                    now,
                );
            }
        },
        TaskCall::Lease { preferred } => {
            reveal(task_calls::without_leased);
        },
        TaskCall::Rechunk { chunk_size } => {
            reveal(task_calls::planned_anew);
        },
        _ => {},
    }
}

/// A task keeps its id, whatever is asked.
pub proof fn lemma_calls_keep_id(t: TaskView, id: Seq<char>, call: TaskCall, now: u128)
    ensures
        called(t, id, call, now).config.task_id == t.config.task_id,
{
    task_calls::lemma_call_follows_work(t, id, call, now);
    lemma_work_keeps_id(t, call, now);
}

proof fn lemma_life_keeps_id(t: TaskView, id: Seq<char>, calls: Seq<(TaskCall, u128)>)
    ensures
        lived(t, id, calls).config.task_id == t.config.task_id,
    decreases calls.len(),
{
    if calls.len() > 0 {
        lemma_life_keeps_id(t, id, calls.drop_last());
        lemma_calls_keep_id(
            lived(t, id, calls.drop_last()),
            id,
            calls.last().0,
            calls.last().1,
        );
    }
}

/// Whether an id reads back from a line of a checkpoint: it is one line, and no carriage return
/// ends it.
pub open spec fn is_readable_id(id: Seq<char>) -> bool {
    text::lacks(id, '\n') && text::strip_cr(id) == id
}

/// Whether a task can be left at any time and brought back: it is in order, its checkpoint says
/// what its snapshot says, and its id can be read back.
pub open spec fn is_recoverable(t: TaskView) -> bool {
    is_sound(t) && is_in_step(t) && is_readable_id(t.config.task_id)
}

/// A new task can be left and brought back.
pub proof fn lemma_fresh_task_is_recoverable(
    config: TaskConfigView,
    items: Seq<TransferItemView>,
    now: u128,
)
    requires
        items.len() <= usize::MAX,
        are_countable(items, config.chunk_size_bytes),
        is_readable_id(config.task_id),
    ensures
        is_recoverable(engine_task::fresh_task(config, items, now)),
{
    lemma_fresh_task_is_sound(config, items, now);
    lemma_fresh_is_in_step(config, items, now);
}

/// Whatever was asked about a task, as long as only chunks were committed that the files are
/// divided into, an engine that reads the task's checkpoint file brings the task back: all numbers
/// are kept, the state too where the task is completed or cancelled, and it is paused else. The
/// error is forgotten. What waits are just the chunks that are not done. The numbers of the file
/// fit if those of the task did, and the task can be left and brought back again.
pub proof fn lemma_recovery_brings_any_task_back(
    start: TaskView,
    id: Seq<char>,
    calls: Seq<(TaskCall, u128)>,
    before: Map<Seq<char>, TaskView>,
    after: Map<Seq<char>, TaskView>,
    content: String,
    now: u128,
    r: Result<EngineTaskSnapshot, TransferEngineError>,
)
    requires
        is_recoverable(start),
        is_real_life(start, id, calls),
        content@ == checkpoint_text::entry_text(lived(start, id, calls).checkpoint),
        !before.contains_key(id),
        engine::recovered(before, after, id, Ok(content), now, r),
    ensures
        ({
            let t = lived(start, id, calls);
            let back = after[id];
            &&& r is Ok
            &&& r->Ok_0@ == (SnapshotView {
                state: engine_task::resumed_state(t.state),
                last_error: None,
                ..t.snapshot()
            })
            &&& after == before.insert(id, back)
            &&& back.files() == checkpoint_laws::files_as_read(t.files())
            &&& back.config == checkpoint_laws::config_as_read(t.config)
            &&& back.scheduler.waiting() == scheduler::all_pending(
                t.config.chunk_size_bytes,
                engine_task::item_sizes(t.items),
                t.files().map_values(|f: FileCheckpointView| f.completed_chunks),
                t.files().len(),
            )
            &&& t.metrics.fits() && t.metrics.total <= u64::MAX ==> engine::content_fits(
                Ok(content),
            )
            &&& is_recoverable(back)
        }),
{
    let t = lived(start, id, calls);
    lemma_life_stays_sound(start, id, calls);
    lemma_life_keeps_id(start, id, calls);
    lemma_checkpoint_agrees_with_snapshot(start, id, calls);
    engine_laws::lemma_recovery_through_file(before, t, id, content, now, after, r);
    checkpoint_laws::lemma_entry_is_read(t.checkpoint);
    let entry = checkpoint_laws::entry_as_read(t.checkpoint);
    let back = engine_task::recovered_task(entry, id, now);
    assert(after[id] == back);
    engine_laws::lemma_rebuilt_as_read(t.config, t.files());
    lemma_back_is_recoverable(t, id, now);
    assert(engine_task::item_sizes(back.items) =~= engine_task::item_sizes(t.items)) by {
        assert forall|i: int| 0 <= i < t.items.len() implies (#[trigger] back.items[i]).size_bytes
            == t.items[i].size_bytes by {
            assert(is_file_of(t.files()[i], t.items[i]));
        }
    }
    assert(back.files().map_values(|f: FileCheckpointView| f.completed_chunks)
        =~= t.files().map_values(|f: FileCheckpointView| f.completed_chunks));
    scheduler::lemma_every_pending_chunk_waits_once(
        t.config.transport_mode,
        t.config.chunk_size_bytes,
        t.config.small_file_threshold_bytes,
        engine_task::item_sizes(t.items),
        t.files().map_values(|f: FileCheckpointView| f.completed_chunks),
        back.items.len(),
    );
}

proof fn lemma_done_as_read(files: Seq<FileCheckpointView>)
    ensures
        done_chunks(checkpoint_laws::files_as_read(files)) == done_chunks(files),
    decreases files.len(),
{
    if files.len() > 0 {
        lemma_done_as_read(files.drop_last());
        assert(checkpoint_laws::files_as_read(files).drop_last()
            =~= checkpoint_laws::files_as_read(files.drop_last()));
    }
}

proof fn lemma_back_is_recoverable(t: TaskView, id: Seq<char>, now: u128)
    requires
        is_recoverable(t),
    ensures
        is_recoverable(
            engine_task::recovered_task(checkpoint_laws::entry_as_read(t.checkpoint), id, now),
        ),
{
    let entry = checkpoint_laws::entry_as_read(t.checkpoint);
    let back = engine_task::recovered_task(entry, id, now);
    let files = entry.checkpoint.files;
    let items = files.map_values(|f: FileCheckpointView| engine_task::item_of_file(f));
    assert(are_countable(items, t.config.chunk_size_bytes)) by {
        assert forall|i: int| 0 <= i < items.len() implies (#[trigger] items[i]).size_bytes
            == t.items[i].size_bytes by {
            assert(is_file_of(t.files()[i], t.items[i]));
        }
    }
    lemma_recovered_task_is_sound(entry, id, now);
    lemma_done_as_read(t.files());
    engine_laws::lemma_rebuilt_as_read(t.config, t.files());
    assert(back.files() == files);
    assert forall|i: int| 0 <= i < back.files().len() implies is_file_in_step(
        #[trigger] back.files()[i],
    ) by {
        assert(is_file_in_step(t.files()[i]));
    }
}

/// Whether every task stands under the id in its settings.
pub open spec fn is_keyed(tasks: Map<Seq<char>, TaskView>) -> bool {
    forall|id: Seq<char>| #[trigger] tasks.contains_key(id) ==> tasks[id].config.task_id == id
}

/// Tasks that stand under their ids have snapshots with ids that ascend, no one twice, one for each
/// task.
pub proof fn lemma_snapshots_ascend(snapshots: Seq<SnapshotView>, tasks: Map<Seq<char>, TaskView>)
    requires
        engine::lists_all(snapshots, tasks),
        is_keyed(tasks),
    ensures
        forall|i: int, j: int|
            0 <= i < j < snapshots.len() ==> order::text_lt(
                (#[trigger] snapshots[i]).task_id,
                (#[trigger] snapshots[j]).task_id,
            ),
        forall|i: int|
            0 <= i < snapshots.len() ==> tasks.contains_key((#[trigger] snapshots[i]).task_id)
                && snapshots[i] == tasks[snapshots[i].task_id].snapshot(),
        forall|id: Seq<char>| #[trigger]
            tasks.contains_key(id) ==> exists|i: int|
                0 <= i < snapshots.len() && (#[trigger] snapshots[i]).task_id == id,
{
    let ids = choose|ids: Seq<Seq<char>>|
        {
            &&& ids.len() == snapshots.len()
            &&& forall|i: int, j: int|
                0 <= i < j < ids.len() ==> order::text_lt(#[trigger] ids[i], #[trigger] ids[j])
            &&& ids.to_set() == tasks.dom()
            &&& forall|i: int|
                0 <= i < ids.len() ==> snapshots[i] == (#[trigger] tasks[ids[i]]).snapshot()
        };
    assert forall|i: int| 0 <= i < snapshots.len() implies (#[trigger] snapshots[i]).task_id
        == ids[i] && tasks.contains_key(ids[i]) by {
        assert(ids.to_set().contains(ids[i])) by {
            assert(ids.contains(ids[i]));
        }
        assert(tasks[ids[i]].config.task_id == ids[i]);
    }
    assert forall|i: int, j: int| 0 <= i < j < snapshots.len() implies order::text_lt(
        (#[trigger] snapshots[i]).task_id,
        (#[trigger] snapshots[j]).task_id,
    ) by {
        assert(order::text_lt(ids[i], ids[j]));
    }
    assert forall|id: Seq<char>| #[trigger] tasks.contains_key(id) implies exists|i: int|
        0 <= i < snapshots.len() && (#[trigger] snapshots[i]).task_id == id by {
        assert(ids.to_set().contains(id));
        assert(ids.contains(id));
        let i = choose|i: int| 0 <= i < ids.len() && ids[i] == id;
        assert(snapshots[i].task_id == id);
    }
}

/// Tasks stay under their ids, whatever is asked: calls keep the id of a task, created tasks stand
/// under theirs, and so do recovered ones whose checkpoint holds the id that was asked for.
pub proof fn lemma_tasks_stay_keyed(
    before: Map<Seq<char>, TaskView>,
    after: Map<Seq<char>, TaskView>,
    id: Seq<char>,
    call: TaskCall,
    config: TaskConfigView,
    items: Seq<TransferItemView>,
    read: Result<String, String>,
    scan: SourceScan,
    now: u128,
    r: Result<EngineTaskSnapshot, TransferEngineError>,
)
    requires
        is_keyed(before),
        engine::entry_found(before, id, read) matches Ok(e) ==> e.config.task_id == id,
    ensures
        is_keyed(after_call(before, id, call, now)),
        is_keyed(before.remove(id)),
        engine::created(before, after, config, items, now, r) ==> is_keyed(after),
        engine::recovered(before, after, id, read, now, r) ==> is_keyed(after),
        config.task_id == id && engine::created_or_recovered(
            before,
            after,
            config,
            read,
            scan,
            now,
            r,
        ) ==> is_keyed(after),
        engine::demo_ensured(before, after, now, r) ==> is_keyed(after),
{
    if before.contains_key(id) {
        lemma_calls_keep_id(before[id], id, call, now);
    }
    assert(is_keyed(after_call(before, id, call, now)));
    assert(is_keyed(before.remove(id)));
    if engine::created(before, after, config, items, now, r) {
        assert(is_keyed(after));
    }
    if engine::recovered(before, after, id, read, now, r) {
        assert(is_keyed(after));
    }
    if engine::created_from_scan(before, after, config, scan, now, r) {
        assert(is_keyed(after));
    }
    if engine::demo_ensured(before, after, now, r) {
        assert(is_keyed(after));
    }
}

/// A task that was recovered leases, until it is planned anew, only chunks of its files that its
/// checkpoint does not hold as done.
pub proof fn lemma_recovered_task_leases_what_is_missing(
    entry: CheckpointEntryView,
    id: Seq<char>,
    now: u128,
    calls: Seq<(TaskCall, u128)>,
    preferred: LaneAssignment,
    later: u128,
)
    requires
        entry.checkpoint.files.len() <= usize::MAX,
        keeps_plan(engine_task::recovered_task(entry, id, now), id, calls),
    ensures
        ({
            let files = entry.checkpoint.files;
            let u = lived(engine_task::recovered_task(entry, id, now), id, calls);
            engine::leasing(u, id, preferred, later).1 matches Some(lease) ==> {
                let c = lease.chunk;
                &&& c.file_index < files.len()
                &&& !files[c.file_index as int].completed_chunks.contains(c.chunk_index)
                &&& models::chunks_of(
                    c.file_index,
                    files[c.file_index as int].size_bytes,
                    entry.config.chunk_size_bytes,
                ).contains(c)
            }
        }),
{
    let files = entry.checkpoint.files;
    let t = engine_task::recovered_task(entry, id, now);
    let u = lived(t, id, calls);
    lemma_life_waits_no_more(t, id, calls);
    lemma_lease_was_waiting(u, id, preferred, later);
    if let Some(lease) = engine::leasing(u, id, preferred, later).1 {
        let c = lease.chunk;
        assert(t.scheduler.waiting().count(c) > 0);
        scheduler::lemma_completed_chunks_do_not_wait(
            entry.config.transport_mode,
            entry.config.chunk_size_bytes,
            entry.config.small_file_threshold_bytes,
            engine_task::item_sizes(t.items),
            files.map_values(|f: FileCheckpointView| f.completed_chunks),
            t.items.len(),
            c,
        );
    }
}

/// Asking for a task that is to be found, recovered or created finds it where it is in memory, and
/// changes nothing; else recovers it, where its checkpoint can be read; else creates it.
pub proof fn lemma_found_or_recovered_or_created(
    before: Map<Seq<char>, TaskView>,
    after: Map<Seq<char>, TaskView>,
    config: TaskConfigView,
    read: Result<String, String>,
    scan: SourceScan,
    now: u128,
    r: Result<EngineTaskSnapshot, TransferEngineError>,
)
    requires
        engine::created_or_recovered(before, after, config, read, scan, now, r),
    ensures
        before.contains_key(config.task_id) ==> after == before && r is Ok && r->Ok_0@
            == before[config.task_id].snapshot(),
        !before.contains_key(config.task_id) ==> match engine::entry_found(
            before,
            config.task_id,
            read,
        ) {
            Ok(entry) => {
                let t = engine_task::recovered_task(entry, config.task_id, now);
                &&& engine::recovered(before, after, config.task_id, read, now, r)
                &&& after == before.insert(config.task_id, t)
                &&& r is Ok
                &&& r->Ok_0@ == t.snapshot()
                &&& t.metrics == engine_task::rebuilt(entry.config, entry.checkpoint.files)
            },
            Err(_) => engine::created_from_scan(before, after, config, scan, now, r),
        },
{
}

/// Asking once more at once for a task that was found, recovered or created finds it in memory:
/// the reply is the same and nothing changes, whatever the other settings are.
pub proof fn lemma_created_or_recovered_once(
    before: Map<Seq<char>, TaskView>,
    between: Map<Seq<char>, TaskView>,
    after: Map<Seq<char>, TaskView>,
    config: TaskConfigView,
    again: TaskConfigView,
    read: Result<String, String>,
    read_again: Result<String, String>,
    scan: SourceScan,
    scan_again: SourceScan,
    now: u128,
    later: u128,
    first: Result<EngineTaskSnapshot, TransferEngineError>,
    second: Result<EngineTaskSnapshot, TransferEngineError>,
)
    requires
        engine::created_or_recovered(before, between, config, read, scan, now, first),
        first is Ok,
        again.task_id == config.task_id,
        engine::created_or_recovered(
            between,
            after,
            again,
            read_again,
            scan_again,
            later,
            second,
        ),
    ensures
        after == between,
        second is Ok,
        second->Ok_0@ == first->Ok_0@,
{
}

} // verus!
