//! What holds of tasks over several requests.

use crate::checkpoint::FileCheckpointView;
use crate::checkpoint_laws;
use crate::checkpoint_store;
use crate::checkpoint_text;
use crate::decimal;
use crate::engine;
use crate::engine::EngineErrorView;
use crate::engine_task;
use crate::engine_task::{MetricsView, TaskView};
use crate::logging::{LogLevel, LogScope};
use crate::models;
use crate::models::{
    ChunkDescriptor, TaskConfigView, TaskState, TransferItemView, TransportMode,
};
use crate::scheduler;
use crate::scheduler::{ChunkLease, LaneAssignment, SchedulerDecision};
use crate::text;
use vstd::prelude::*;

verus! {

/// Sorting keeps the indices.
pub proof fn lemma_ascending_members(s: Seq<u32>)
    ensures
        engine_task::ascending(s).to_multiset() == s.to_multiset(),
        forall|x: u32| #[trigger] engine_task::ascending(s).contains(x) <==> s.contains(x),
        engine_task::ascending(s).len() == s.len(),
{
    broadcast use vstd::seq_lib::group_to_multiset_ensures;

    let leq = |a: u32, b: u32| a <= b;
    assert(vstd::relations::total_ordering(leq));
    s.lemma_sort_by_ensures(leq);
    let t = engine_task::ascending(s);
    assert forall|x: u32| #[trigger] t.contains(x) <==> s.contains(x) by {
        assert(t.contains(x) <==> t.to_multiset().count(x) > 0);
        assert(s.contains(x) <==> s.to_multiset().count(x) > 0);
    }
    assert(t.len() == t.to_multiset().len());
    assert(s.len() == s.to_multiset().len());
}

/// Committing a chunk a second time changes nothing, over whichever lane it comes.
pub proof fn lemma_commit_counts_once(
    t: TaskView,
    chunk: ChunkDescriptor,
    lane: LaneAssignment,
    again: LaneAssignment,
    was_skipped: bool,
    skipped_again: bool,
    now: u128,
    later: u128,
)
    ensures
        ({
            let u = t.committed(chunk, lane, was_skipped, now);
            u.committed(chunk, again, skipped_again, later) == u
        }),
{
    if t.accepts(chunk) {
        let f = t.files()[chunk.file_index as int];
        let pushed = f.completed_chunks.push(chunk.chunk_index);
        lemma_ascending_members(pushed);
        assert(pushed[pushed.len() - 1] == chunk.chunk_index);
        assert(pushed.contains(chunk.chunk_index));
    }
}

/// Pausing a task that is not over and resuming it leaves it running, with all progress, all
/// waiting chunks and all earlier records kept.
pub proof fn lemma_pause_then_resume(t: TaskView, id: Seq<char>, now: u128, later: u128)
    requires
        !engine::is_terminal(t.state),
    ensures
        ({
            let p = engine::pausing(t, id, now);
            let r = engine::resuming(p.task, id, later);
            &&& p.error is None
            &&& p.task.state == TaskState::Paused
            &&& r.error is None
            &&& r.task.state == TaskState::Running
            &&& r.task.metrics == t.metrics
            &&& r.task.scheduler == t.scheduler
            &&& r.task.files() == t.files()
            &&& r.task.logs.take(t.logs.len() as int) == t.logs
        }),
{
    let p = engine::pausing(t, id, now);
    let r = engine::resuming(p.task, id, later);
    assert(r.task.logs.take(t.logs.len() as int) =~= t.logs);
}

/// A cancelled task stays cancelled: it cannot be paused, resumed, retried, advanced or given
/// progress, and cancelling it again changes nothing.
pub proof fn lemma_cancelled_is_final(
    t: TaskView,
    id: Seq<char>,
    steps: usize,
    chunk: ChunkDescriptor,
    lane: LaneAssignment,
    was_skipped: bool,
    file_index: usize,
    now: u128,
)
    requires
        t.state == TaskState::Cancelled,
    ensures
        engine::pausing(t, id, now) == engine::refused(
            t,
            engine::task_message(id, " can no longer be paused"@),
        ),
        engine::resuming(t, id, now) == engine::refused(
            t,
            engine::task_message(id, " is not paused"@),
        ),
        engine::retrying(t, id, now) == engine::refused(
            t,
            engine::task_message(id, " cannot be retried from terminal state"@),
        ),
        engine::ticking(t, id, steps, now) == engine::refused(
            t,
            engine::task_message(id, " is already terminal"@),
        ),
        engine::committing(t, id, chunk, lane, was_skipped, now) == engine::refused(
            t,
            engine::no_progress(id),
        ),
        engine::completing(t, id, (ChunkLease { lane, chunk }), was_skipped, now)
            == engine::refused(t, engine::no_progress(id)),
        engine::completing_file(t, id, file_index, lane, was_skipped, now) == engine::refused(
            t,
            engine::no_progress(id),
        ),
        engine::leasing(t, id, lane, now).0 == engine::refused(t, engine::no_progress(id)),
        engine::cancelling(t, id, now) == engine::granted(t),
{
}

/// A failed task takes no progress until it is staged for retry, which pauses it, forgets the
/// error and keeps the progress.
pub proof fn lemma_retry_revives(
    t: TaskView,
    id: Seq<char>,
    chunk: ChunkDescriptor,
    lane: LaneAssignment,
    was_skipped: bool,
    now: u128,
)
    requires
        t.state == TaskState::Failed,
    ensures
        engine::committing(t, id, chunk, lane, was_skipped, now) == engine::refused(
            t,
            engine::no_progress(id),
        ),
        ({
            let r = engine::retrying(t, id, now);
            &&& r.error is None
            &&& r.task.state == TaskState::Paused
            &&& r.task.last_error is None
            &&& r.task.metrics == t.metrics
            &&& r.task.files() == t.files()
            &&& r.task.scheduler == t.scheduler
        }),
{
}

/// The sum of two counts; the totals are added too.
spec fn plus(a: MetricsView, b: MetricsView) -> MetricsView {
    MetricsView {
        total: a.total + b.total,
        committed: a.committed + b.committed,
        adb: a.adb + b.adb,
        wifi: a.wifi + b.wifi,
        chunks: a.chunks + b.chunks,
    }
}

spec fn zero() -> MetricsView {
    MetricsView { total: 0, committed: 0, adb: 0, wifi: 0, chunks: 0 }
}

/// What the finished chunks of a file count.
spec fn file_credit(config: TaskConfigView, f: FileCheckpointView) -> MetricsView {
    plus(
        MetricsView { total: f.size_bytes as nat, ..zero() },
        engine_task::credited_all(zero(), config, f, f.completed_chunks),
    )
}

proof fn lemma_credit_adds(
    m: MetricsView,
    config: TaskConfigView,
    f: FileCheckpointView,
    indices: Seq<u32>,
)
    ensures
        engine_task::credited_all(m, config, f, indices) == plus(
            m,
            engine_task::credited_all(zero(), config, f, indices),
        ),
    decreases indices.len(),
{
    if indices.len() > 0 {
        lemma_credit_adds(m, config, f, indices.drop_last());
    }
}

proof fn lemma_rebuilt_step(config: TaskConfigView, files: Seq<FileCheckpointView>)
    requires
        files.len() > 0,
    ensures
        engine_task::rebuilt(config, files) == plus(
            engine_task::rebuilt(config, files.drop_last()),
            file_credit(config, files.last()),
        ),
{
    let f = files.last();
    let m = engine_task::rebuilt(config, files.drop_last());
    lemma_credit_adds(
        MetricsView { total: m.total + f.size_bytes as nat, ..m },
        config,
        f,
        f.completed_chunks,
    );
}

proof fn lemma_credit_moves(
    config: TaskConfigView,
    f: FileCheckpointView,
    s: Seq<u32>,
    i: int,
)
    requires
        0 <= i < s.len(),
    ensures
        engine_task::credited_all(zero(), config, f, s) == engine_task::credited(
            engine_task::credited_all(zero(), config, f, s.remove(i)),
            config,
            f,
            s[i],
        ),
    decreases s.len(),
{
    if i == s.len() - 1 {
        assert(s.remove(i) =~= s.drop_last());
    } else {
        lemma_credit_moves(config, f, s.drop_last(), i);
        assert(s.remove(i).drop_last() =~= s.drop_last().remove(i));
        assert(s.remove(i).last() == s.last());
    }
}

proof fn lemma_credit_permutes(
    config: TaskConfigView,
    f: FileCheckpointView,
    s: Seq<u32>,
    t: Seq<u32>,
)
    requires
        s.to_multiset() == t.to_multiset(),
    ensures
        engine_task::credited_all(zero(), config, f, s) == engine_task::credited_all(
            zero(),
            config,
            f,
            t,
        ),
    decreases s.len(),
{
    broadcast use vstd::seq_lib::group_to_multiset_ensures;

    assert(s.len() == s.to_multiset().len());
    assert(t.len() == t.to_multiset().len());
    if s.len() > 0 {
        let x = s.last();
        assert(s.contains(s[s.len() - 1]));
        assert(s.to_multiset().count(x) > 0);
        assert(t.contains(x));
        let i = choose|i: int| 0 <= i < t.len() && t[i] == x;
        assert(s.drop_last() =~= s.remove(s.len() - 1));
        assert(s.remove(s.len() - 1).to_multiset() =~= t.remove(i).to_multiset());
        lemma_credit_permutes(config, f, s.drop_last(), t.remove(i));
        lemma_credit_moves(config, f, t, i);
    }
}

proof fn lemma_credit_ignores_lane(
    config: TaskConfigView,
    f: FileCheckpointView,
    g: FileCheckpointView,
    k: u32,
    s: Seq<u32>,
)
    requires
        g.size_bytes == f.size_bytes,
        forall|x: u32|
            x != k ==> (#[trigger] g.completed_chunk_lanes.contains_key(x)
                <==> f.completed_chunk_lanes.contains_key(x)),
        forall|x: u32|
            x != k && f.completed_chunk_lanes.contains_key(x)
                ==> #[trigger] g.completed_chunk_lanes[x] == f.completed_chunk_lanes[x],
        !s.contains(k),
    ensures
        engine_task::credited_all(zero(), config, g, s) == engine_task::credited_all(
            zero(),
            config,
            f,
            s,
        ),
    decreases s.len(),
{
    if s.len() > 0 {
        assert(s.contains(s[s.len() - 1]));
        assert forall|i: int| 0 <= i < s.drop_last().len() implies s.drop_last()[i] != k by {
            assert(s.contains(s[i]));
        }
        lemma_credit_ignores_lane(config, f, g, k, s.drop_last());
        let x = s.last();
        assert(g.completed_chunk_lanes.contains_key(x)
            <==> f.completed_chunk_lanes.contains_key(x));
    }
}

/// Whether a chunk is one of those its file is divided into.
pub open spec fn is_genuine(t: TaskView, chunk: ChunkDescriptor) -> bool {
    chunk.file_index < t.files().len() ==> {
        let size = t.files()[chunk.file_index as int].size_bytes;
        &&& chunk.chunk_index < models::chunk_count(size, t.config.chunk_size_bytes)
        &&& chunk.length == models::chunk_at(
            0,
            size,
            t.config.chunk_size_bytes,
            chunk.chunk_index as int,
        ).length
    }
}

/// Whether a task's numbers are those that its checkpoint gives.
pub open spec fn is_honest(t: TaskView) -> bool {
    t.metrics == engine_task::rebuilt(t.config, t.files())
}

proof fn lemma_file_credit_grows(
    config: TaskConfigView,
    f: FileCheckpointView,
    k: u32,
    lane: LaneAssignment,
)
    requires
        !f.completed_chunks.contains(k),
        k < models::chunk_count(f.size_bytes, config.chunk_size_bytes),
    ensures
        file_credit(config, engine_task::file_with_chunk(f, k, lane)) == file_credit(
            config,
            f,
        ).plus(
            models::chunk_at(0, f.size_bytes, config.chunk_size_bytes, k as int).length as nat,
            lane,
        ),
{
    let g = engine_task::file_with_chunk(f, k, lane);
    let pushed = f.completed_chunks.push(k);
    lemma_ascending_members(pushed);
    lemma_credit_permutes(config, g, g.completed_chunks, pushed);
    assert(pushed.drop_last() =~= f.completed_chunks);
    lemma_credit_ignores_lane(config, f, g, k, f.completed_chunks);
}

proof fn lemma_rebuilt_grows_by(
    config: TaskConfigView,
    files: Seq<FileCheckpointView>,
    i: int,
    k: u32,
    lane: LaneAssignment,
)
    requires
        0 <= i < files.len(),
        !files[i].completed_chunks.contains(k),
        k < models::chunk_count(files[i].size_bytes, config.chunk_size_bytes),
    ensures
        engine_task::rebuilt(
            config,
            files.update(i, engine_task::file_with_chunk(files[i], k, lane)),
        ) == engine_task::rebuilt(config, files).plus(
            models::chunk_at(
                0,
                files[i].size_bytes,
                config.chunk_size_bytes,
                k as int,
            ).length as nat,
            lane,
        ),
    decreases files.len(),
{
    let g = engine_task::file_with_chunk(files[i], k, lane);
    let after = files.update(i, g);
    lemma_rebuilt_step(config, files);
    lemma_rebuilt_step(config, after);
    if i == files.len() - 1 {
        assert(after.drop_last() =~= files.drop_last());
        lemma_file_credit_grows(config, files[i], k, lane);
    } else {
        lemma_rebuilt_grows_by(config, files.drop_last(), i, k, lane);
        assert(after.drop_last() =~= files.drop_last().update(i, g));
        assert(after.last() == files.last());
    }
}

/// Committing a chunk of a file keeps the numbers in step with the checkpoint.
pub proof fn lemma_commit_stays_honest(
    t: TaskView,
    chunk: ChunkDescriptor,
    lane: LaneAssignment,
    was_skipped: bool,
    now: u128,
)
    requires
        is_honest(t),
        is_genuine(t, chunk),
    ensures
        is_honest(t.committed(chunk, lane, was_skipped, now)),
{
    if t.accepts(chunk) {
        lemma_rebuilt_grows_by(
            t.config,
            t.files(),
            chunk.file_index as int,
            chunk.chunk_index,
            lane,
        );
    }
}

proof fn lemma_rebuilt_of_nothing(config: TaskConfigView, items: Seq<TransferItemView>)
    ensures
        engine_task::rebuilt(
            config,
            items.map_values(|i: TransferItemView| crate::checkpoint::fresh_file(i)),
        ) == (MetricsView { total: engine_task::total_size(items), ..zero() }),
    decreases items.len(),
{
    let files = items.map_values(|i: TransferItemView| crate::checkpoint::fresh_file(i));
    if items.len() > 0 {
        lemma_rebuilt_of_nothing(config, items.drop_last());
        assert(files.drop_last() =~= items.drop_last().map_values(
            |i: TransferItemView| crate::checkpoint::fresh_file(i),
        ));
        lemma_rebuilt_step(config, files);
        assert(files.last().completed_chunks.len() == 0);
    }
}

/// The numbers of a fresh task are in step with its checkpoint.
pub proof fn lemma_fresh_task_is_honest(
    config: TaskConfigView,
    items: Seq<TransferItemView>,
    now: u128,
)
    ensures
        is_honest(engine_task::fresh_task(config, items, now)),
{
    lemma_rebuilt_of_nothing(config, items);
}

/// Recovery from a task's checkpoint keeps its progress: a task whose numbers are in step with
/// its checkpoint comes back with the same numbers, the same files done and the same settings,
/// and what waits is exactly what is not done.
pub proof fn lemma_recovery_keeps_progress(t: TaskView, id: Seq<char>, now: u128)
    requires
        t.wf(),
        is_honest(t),
    ensures
        ({
            let r = engine_task::recovered_task(t.checkpoint, id, now);
            &&& r.metrics == t.metrics
            &&& r.files() == t.files()
            &&& r.config == t.config
            &&& r.state == engine_task::resumed_state(t.checkpoint.checkpoint.state)
            &&& is_honest(r)
            &&& r.scheduler.waiting() == scheduler::all_pending(
                t.config.chunk_size_bytes,
                engine_task::item_sizes(r.items),
                t.files().map_values(|f: FileCheckpointView| f.completed_chunks),
                t.files().len(),
            )
        }),
{
    let r = engine_task::recovered_task(t.checkpoint, id, now);
    scheduler::lemma_every_pending_chunk_waits_once(
        t.config.transport_mode,
        t.config.chunk_size_bytes,
        t.config.small_file_threshold_bytes,
        engine_task::item_sizes(r.items),
        t.files().map_values(|f: FileCheckpointView| f.completed_chunks),
        r.items.len(),
    );
}

/// A task written to its checkpoint file and recovered from that file comes back as it would
/// straight from its checkpoint as that is read back, if its id is one line.
pub proof fn lemma_recovery_through_file(
    before: Map<Seq<char>, TaskView>,
    t: TaskView,
    id: Seq<char>,
    content: String,
    now: u128,
    after: Map<Seq<char>, TaskView>,
    r: Result<engine_task::EngineTaskSnapshot, engine::TransferEngineError>,
)
    requires
        text::lacks(t.checkpoint.config.task_id, '\n'),
        content@ == checkpoint_text::entry_text(t.checkpoint),
        !before.contains_key(id),
        engine::recovered(before, after, id, Ok(content), now, r),
    ensures
        ({
            let back = engine_task::recovered_task(
                checkpoint_laws::entry_as_read(t.checkpoint),
                id,
                now,
            );
            &&& after == before.insert(id, back)
            &&& r is Ok
            &&& r->Ok_0@ == back.snapshot()
        }),
{
    checkpoint_laws::lemma_entry_is_read(t.checkpoint);
}

proof fn lemma_credit_as_read(
    m: MetricsView,
    config: TaskConfigView,
    f: FileCheckpointView,
    indices: Seq<u32>,
)
    ensures
        engine_task::credited_all(
            m,
            checkpoint_laws::config_as_read(config),
            checkpoint_laws::file_as_read(f),
            indices,
        ) == engine_task::credited_all(m, config, f, indices),
    decreases indices.len(),
{
    if indices.len() > 0 {
        lemma_credit_as_read(m, config, f, indices.drop_last());
    }
}

/// What is lost in a checkpoint's text changes no number.
pub proof fn lemma_rebuilt_as_read(config: TaskConfigView, files: Seq<FileCheckpointView>)
    ensures
        engine_task::rebuilt(
            checkpoint_laws::config_as_read(config),
            checkpoint_laws::files_as_read(files),
        ) == engine_task::rebuilt(config, files),
    decreases files.len(),
{
    let read = checkpoint_laws::files_as_read(files);
    if files.len() > 0 {
        lemma_rebuilt_as_read(config, files.drop_last());
        assert(read.drop_last() =~= checkpoint_laws::files_as_read(files.drop_last()));
        let f = files.last();
        let m = engine_task::rebuilt(config, files.drop_last());
        lemma_credit_as_read(
            MetricsView { total: m.total + f.size_bytes as nat, ..m },
            config,
            f,
            f.completed_chunks,
        );
    }
}

/// Draining the records leaves none, and offering them once more gives the same ones.
pub proof fn lemma_drain_and_restore(t: TaskView)
    requires
        t.log_cursor <= t.logs.len(),
    ensures
        t.drained().new_logs().len() == 0,
        ({
            let n = t.new_logs().len();
            let back = TaskView { log_cursor: (t.drained().log_cursor - n) as nat, ..t.drained() };
            back == t
        }),
{
}

/// A tick never takes back progress: no byte, no chunk and no record is lost.
pub proof fn lemma_steps_only_add(t: TaskView, steps: nat, now: u128)
    ensures
        ({
            let u = t.stepped(steps, now).0;
            &&& u.metrics.committed >= t.metrics.committed
            &&& u.metrics.chunks >= t.metrics.chunks
            &&& u.logs.len() >= t.logs.len()
            &&& u.logs.take(t.logs.len() as int) == t.logs
            &&& u.config == t.config
            &&& u.files().len() == t.files().len()
        }),
    decreases steps,
{
    if steps == 0 {
        assert(t.logs.take(t.logs.len() as int) =~= t.logs);
    } else {
        lemma_steps_only_add(t, (steps - 1) as nat, now);
        let prev = t.stepped((steps - 1) as nat, now).0;
        let u = t.stepped(steps, now).0;
        assert(u.logs.take(t.logs.len() as int) =~= prev.logs.take(t.logs.len() as int));
    }
}

/// Whether every waiting chunk is one of those its file is divided into.
pub open spec fn waits_genuinely(t: TaskView) -> bool {
    forall|c: ChunkDescriptor| #[trigger] t.scheduler.waiting().count(c) > 0 ==> is_genuine(t, c)
}

/// What waits after planning is genuine, as long as the chunks of every file can be counted.
pub proof fn lemma_planned_waits_genuinely(t: TaskView, completed: Seq<Seq<u32>>)
    requires
        t.files().len() == t.items.len(),
        t.items.len() <= usize::MAX,
        forall|i: int|
            0 <= i < t.items.len() ==> (#[trigger] t.files()[i]).size_bytes
                == t.items[i].size_bytes && models::is_countable(
                t.items[i].size_bytes,
                t.config.chunk_size_bytes,
            ),
        t.scheduler == scheduler::planned(
            t.config.transport_mode,
            t.config.chunk_size_bytes,
            t.config.small_file_threshold_bytes,
            engine_task::item_sizes(t.items),
            completed,
            t.items.len(),
        ),
    ensures
        waits_genuinely(t),
{
    let sizes = engine_task::item_sizes(t.items);
    assert forall|c: ChunkDescriptor| #[trigger] t.scheduler.waiting().count(c) > 0 implies is_genuine(
        t,
        c,
    ) by {
        scheduler::lemma_completed_chunks_do_not_wait(
            t.config.transport_mode,
            t.config.chunk_size_bytes,
            t.config.small_file_threshold_bytes,
            sizes,
            completed,
            t.items.len(),
            c,
        );
        let i = c.file_index as int;
        assert(t.files()[i].size_bytes == t.items[i].size_bytes);
        let own = models::chunks_of(c.file_index, sizes[i], t.config.chunk_size_bytes);
        let k = choose|k: int| 0 <= k < own.len() && own[k] == c;
        assert(own[k] == models::chunk_at(c.file_index, sizes[i], t.config.chunk_size_bytes, k));
        models::lemma_index_tells_length(c.file_index, sizes[i], t.config.chunk_size_bytes, k);
    }
}

/// Advancing a task keeps its numbers in step with its checkpoint.
pub proof fn lemma_steps_stay_honest(t: TaskView, steps: nat, now: u128)
    requires
        is_honest(t),
        waits_genuinely(t),
    ensures
        is_honest(t.stepped(steps, now).0),
        waits_genuinely(t.stepped(steps, now).0),
    decreases steps,
{
    if steps > 0 {
        lemma_steps_stay_honest(t, (steps - 1) as nat, now);
        let (u, going) = t.stepped((steps - 1) as nat, now);
        if going {
            let limit = u.config.max_in_flight_chunks_per_lane;
            let preferred = TaskView::preferred((steps - 1) as nat);
            let (decision, s) = u.scheduler.lease_next(limit, preferred);
            scheduler::lemma_lease_takes_one(u.scheduler, limit, preferred);
            if let SchedulerDecision::Lease(lease) = decision {
                let v = TaskView { scheduler: s, ..u };
                assert(u.scheduler.waiting().count(lease.chunk) > 0);
                assert(is_genuine(u, lease.chunk));
                assert(is_genuine(v, lease.chunk));
                lemma_commit_stays_honest(v, lease.chunk, lease.lane, false, now);
                let w = v.committed(lease.chunk, lease.lane, false, now);
                let x = TaskView { scheduler: w.scheduler.complete(lease.lane), ..w };
                assert(x.scheduler.adb == s.adb && x.scheduler.wifi == s.wifi);
                assert forall|c: ChunkDescriptor| #[trigger]
                    x.scheduler.waiting().count(c) > 0 implies is_genuine(x, c) by {
                    assert(u.scheduler.waiting().count(c) > 0);
                    assert(is_genuine(u, c));
                    if c.file_index < x.files().len() {
                        assert(x.files()[c.file_index as int].size_bytes
                            == u.files()[c.file_index as int].size_bytes);
                    }
                }
            }
        }
    }
}

/// Whether the progress of a task is untouched: its settings and files, what is done of them, what waits and
/// all numbers.
pub open spec fn same_progress(u: TaskView, t: TaskView) -> bool {
    &&& u.config == t.config && u.items == t.items && u.files() == t.files()
    &&& u.scheduler == t.scheduler && u.metrics == t.metrics && u.log_cursor == t.log_cursor
}

/// Whether a task is in a state that its checkpoint tells too, written at `now`.
pub open spec fn is_stored(u: TaskView, state: TaskState, now: u128) -> bool {
    &&& u.state == state
    &&& u.checkpoint.checkpoint.state == state
    &&& u.checkpoint.checkpoint.updated_at_epoch_ms == now
}

/// Whether one record was added to the log of a task: with this message, for this id, at `now`.
pub open spec fn adds_record(
    u: TaskView,
    t: TaskView,
    level: LogLevel,
    scope: LogScope,
    message: Seq<char>,
    id: Seq<char>,
    now: u128,
) -> bool {
    &&& u.logs.len() == t.logs.len() + 1
    &&& u.logs.drop_last() == t.logs
    &&& u.logs.last().ts_epoch_ms == now
    &&& u.logs.last().level == level
    &&& u.logs.last().scope == scope
    &&& u.logs.last().message == message
    &&& u.logs.last().task_id == Some(id)
}

/// A task can be paused unless it is completed, cancelled or failed; resumed only if it is paused; cancelled
/// always, with no effect on one that is completed or cancelled; staged for another try unless it is
/// completed or cancelled. What is refused changes nothing. What is granted changes the state, here and
/// in the checkpoint, adds one record and leaves the progress as it is; another try forgets the error.
pub proof fn lemma_requests_move_the_task(t: TaskView, id: Seq<char>, now: u128)
    ensures
        ({
            let o = engine::pausing(t, id, now);
            let over = t.state == TaskState::Completed || t.state == TaskState::Cancelled || t.state
                == TaskState::Failed;
            &&& o.error == (if over {
                Some(
                    EngineErrorView::InvalidState(
                        "task "@ + id + " can no longer be paused"@,
                    ),
                )
            } else {
                None
            })
            &&& over ==> o.task == t
            &&& !over ==> is_stored(o.task, TaskState::Paused, now) && same_progress(o.task, t)
                && o.task.last_error == t.last_error && adds_record(
                o.task,
                t,
                LogLevel::Warn,
                LogScope::Audit,
                "task paused"@,
                id,
                now,
            )
        }),
        ({
            let o = engine::resuming(t, id, now);
            let paused = t.state == TaskState::Paused;
            &&& o.error == (if paused {
                None
            } else {
                Some(EngineErrorView::InvalidState("task "@ + id + " is not paused"@))
            })
            &&& !paused ==> o.task == t
            &&& paused ==> is_stored(o.task, TaskState::Running, now) && same_progress(o.task, t)
                && o.task.last_error == t.last_error && adds_record(
                o.task,
                t,
                LogLevel::Info,
                LogScope::Audit,
                "task resumed"@,
                id,
                now,
            )
        }),
        ({
            let o = engine::cancelling(t, id, now);
            let done = t.state == TaskState::Completed || t.state == TaskState::Cancelled;
            &&& o.error is None
            &&& done ==> o.task == t
            &&& !done ==> is_stored(o.task, TaskState::Cancelled, now) && same_progress(o.task, t)
                && o.task.last_error == t.last_error && adds_record(
                o.task,
                t,
                LogLevel::Warn,
                LogScope::Audit,
                "task cancelled"@,
                id,
                now,
            )
        }),
        ({
            let o = engine::retrying(t, id, now);
            let done = t.state == TaskState::Completed || t.state == TaskState::Cancelled;
            &&& o.error == (if done {
                Some(
                    EngineErrorView::InvalidState(
                        "task "@ + id + " cannot be retried from terminal state"@,
                    ),
                )
            } else {
                None
            })
            &&& done ==> o.task == t
            &&& !done ==> is_stored(o.task, TaskState::Paused, now) && same_progress(o.task, t)
                && o.task.last_error is None && adds_record(
                o.task,
                t,
                LogLevel::Info,
                LogScope::Audit,
                "task staged for retry"@,
                id,
                now,
            )
        }),
{
    assert(engine::pausing(t, id, now).task.logs.len() > t.logs.len() ==> engine::pausing(
        t,
        id,
        now,
    ).task.logs.drop_last() =~= t.logs);
    assert(engine::resuming(t, id, now).task.logs.len() > t.logs.len() ==> engine::resuming(
        t,
        id,
        now,
    ).task.logs.drop_last() =~= t.logs);
    assert(engine::cancelling(t, id, now).task.logs.len() > t.logs.len() ==> engine::cancelling(
        t,
        id,
        now,
    ).task.logs.drop_last() =~= t.logs);
    assert(engine::retrying(t, id, now).task.logs.len() > t.logs.len() ==> engine::retrying(
        t,
        id,
        now,
    ).task.logs.drop_last() =~= t.logs);
}

/// A task that failed tells why, in its state, its error and its log, and keeps its progress.
pub proof fn lemma_failure_is_told(t: TaskView, message: Seq<char>, now: u128)
    ensures
        ({
            let o = engine::failing(t, message, now);
            &&& o.error is None
            &&& is_stored(o.task, TaskState::Failed, now)
            &&& same_progress(o.task, t)
            &&& o.task.last_error == Some(message)
            &&& adds_record(
                o.task,
                t,
                LogLevel::Error,
                LogScope::Transfer,
                message,
                t.config.task_id,
                now,
            )
        }),
{
    assert(engine::failing(t, message, now).task.logs.drop_last() =~= t.logs);
}

/// Whether a chunk of a task's files is new to it.
pub open spec fn is_new_chunk(t: TaskView, chunk: ChunkDescriptor) -> bool {
    chunk.file_index < t.files().len() && !t.files()[chunk.file_index as int].completed_chunks.contains(
        chunk.chunk_index,
    )
}

/// Whether the files of a task are as before but for one chunk, which is done over a lane now.
pub open spec fn has_chunk_more(
    u: TaskView,
    t: TaskView,
    chunk: ChunkDescriptor,
    lane: LaneAssignment,
) -> bool {
    let i = chunk.file_index as int;
    let f = t.files()[i];
    let g = u.files()[i];
    &&& u.files().len() == t.files().len()
    &&& forall|j: int|
        0 <= j < t.files().len() && j != i ==> #[trigger] u.files()[j] == t.files()[j]
    &&& forall|k: u32| #[trigger]
        g.completed_chunks.contains(k) <==> f.completed_chunks.contains(k) || k == chunk.chunk_index
    &&& g.completed_chunks.len() == f.completed_chunks.len() + 1
    &&& g.completed_chunk_lanes == f.completed_chunk_lanes.insert(chunk.chunk_index, lane)
    &&& g.relative_path == f.relative_path && g.size_bytes == f.size_bytes
        && g.modified_at_epoch_ms == f.modified_at_epoch_ms && g.fingerprint_hex
        == f.fingerprint_hex && g.verification_digest == f.verification_digest
}

/// Whether the numbers of a task grew by one chunk of so many bytes over a lane.
pub open spec fn counts_chunk_more(
    u: TaskView,
    t: TaskView,
    length: u64,
    lane: LaneAssignment,
) -> bool {
    &&& u.metrics.committed == t.metrics.committed + length
    &&& u.metrics.chunks == t.metrics.chunks + 1
    &&& u.metrics.total == t.metrics.total
    &&& lane == LaneAssignment::Adb ==> u.metrics.adb == t.metrics.adb + length && u.metrics.wifi
        == t.metrics.wifi
    &&& lane == LaneAssignment::Wifi ==> u.metrics.wifi == t.metrics.wifi + length && u.metrics.adb
        == t.metrics.adb
}

/// A chunk that is new to a task counts once it is committed: it is done over its lane, the bytes and the
/// chunk are counted, for the task and for the lane, and a record tells of it. A chunk that is done, or of
/// a file that is not there, changes none of that.
pub proof fn lemma_new_chunk_counts(
    t: TaskView,
    chunk: ChunkDescriptor,
    lane: LaneAssignment,
    was_skipped: bool,
    now: u128,
)
    ensures
        ({
            let u = t.committed(chunk, lane, was_skipped, now);
            &&& !is_new_chunk(t, chunk) ==> u == t
            &&& is_new_chunk(t, chunk) ==> {
                &&& has_chunk_more(u, t, chunk, lane)
                &&& counts_chunk_more(u, t, chunk.length, lane)
                &&& adds_record(
                    u,
                    t,
                    LogLevel::Info,
                    LogScope::Transfer,
                    if was_skipped {
                        "real chunk skipped from checkpoint"@
                    } else {
                        "real chunk committed"@
                    },
                    t.config.task_id,
                    now,
                )
                &&& u.logs.last().file_path == Some(
                    t.items[chunk.file_index as int].relative_path,
                )
                &&& u.logs.last().chunk_id == Some(decimal::dec(chunk.chunk_index as nat))
                &&& u.logs.last().lane == Some(
                    match lane {
                        LaneAssignment::Adb => "adb"@,
                        LaneAssignment::Wifi => "wifi"@,
                    },
                )
            }
            &&& u.config == t.config && u.items == t.items && u.scheduler == t.scheduler && u.state
                == t.state && u.last_error == t.last_error && u.log_cursor == t.log_cursor
        }),
{
    let u = t.committed(chunk, lane, was_skipped, now);
    if is_new_chunk(t, chunk) {
        let f = t.files()[chunk.file_index as int];
        let pushed = f.completed_chunks.push(chunk.chunk_index);
        lemma_ascending_members(pushed);
        assert(u.logs.drop_last() =~= t.logs);
        assert forall|k: u32| pushed.contains(k) <==> f.completed_chunks.contains(k) || k
            == chunk.chunk_index by {
            if f.completed_chunks.contains(k) {
                let a = choose|a: int|
                    0 <= a < f.completed_chunks.len() && f.completed_chunks[a] == k;
                assert(pushed[a] == k);
            }
            assert(pushed[f.completed_chunks.len() as int] == chunk.chunk_index);
        }
    }
}

/// Whether each file of a task has as many chunks done as it is divided into.
pub open spec fn all_chunks_done(t: TaskView) -> bool {
    forall|i: int|
        0 <= i < t.items.len() ==> i < t.files().len() && (#[trigger] t.files()[i]).completed_chunks.len()
            >= models::chunk_count(t.items[i].size_bytes, t.config.chunk_size_bytes)
}

/// A chunk that a worker tells of is committed, unless the task was cancelled or has failed: then it is
/// refused, and nothing changes. The task runs then, and it is completed, in its state, its checkpoint and
/// its log, exactly where all chunks of all files are done with this one. Told of as pending, the chunk
/// is committed all the same and the task stays running.
pub proof fn lemma_reported_chunk_is_committed(
    t: TaskView,
    id: Seq<char>,
    chunk: ChunkDescriptor,
    lane: LaneAssignment,
    was_skipped: bool,
    now: u128,
)
    requires
        t.items.len() == t.files().len(),
    ensures
        ({
            let o = engine::committing(t, id, chunk, lane, was_skipped, now);
            let p = engine::committing_pending(t, id, chunk, lane, was_skipped, now);
            let refused = t.state == TaskState::Cancelled || t.state == TaskState::Failed;
            let u = t.committed(chunk, lane, was_skipped, now);
            &&& o.error == p.error
            &&& o.error == (if refused {
                Some(
                    EngineErrorView::InvalidState(
                        "task "@ + id + " can no longer record progress"@,
                    ),
                )
            } else {
                None
            })
            &&& refused ==> o.task == t && p.task == t
            &&& !refused ==> {
                &&& o.task.files() == u.files() && o.task.metrics == u.metrics && o.task.scheduler
                    == t.scheduler && o.task.config == t.config && o.task.items == t.items
                    && o.task.last_error == t.last_error
                &&& p.task.files() == u.files() && p.task.metrics == u.metrics && p.task.scheduler
                    == t.scheduler && p.task.logs == u.logs
                &&& is_stored(p.task, TaskState::Running, now)
                &&& is_stored(
                    o.task,
                    if all_chunks_done(u) {
                        TaskState::Completed
                    } else {
                        TaskState::Running
                    },
                    now,
                )
                &&& all_chunks_done(u) ==> adds_record(
                    o.task,
                    u,
                    LogLevel::Info,
                    LogScope::Audit,
                    "task completed"@,
                    t.config.task_id,
                    now,
                )
                &&& !all_chunks_done(u) ==> o.task.logs == u.logs
            }
        }),
{
    let r = t.in_state(TaskState::Running);
    let u = t.committed(chunk, lane, was_skipped, now);
    let v = r.committed(chunk, lane, was_skipped, now);
    assert(r.files() == t.files());
    assert(v.files() == u.files());
    lemma_marked_when_all_is_done(v, u);
    let o = engine::committing(t, id, chunk, lane, was_skipped, now);
    if engine::can_progress(t) && all_chunks_done(u) {
        assert(o.task.logs.drop_last() =~= u.logs);
    }
}

proof fn lemma_marked_when_all_is_done(v: TaskView, u: TaskView)
    requires
        v.files() == u.files(),
        v.items == u.items,
        v.config == u.config,
        v.items.len() == v.files().len(),
    ensures
        v.all_done() <==> all_chunks_done(u),
{
    if all_chunks_done(u) {
        assert forall|i: int| 0 <= i < v.items.len() implies v.done_count(i) >= models::chunk_count(
            (#[trigger] v.items[i]).size_bytes,
            v.config.chunk_size_bytes,
        ) by {
            assert(u.files()[i].completed_chunks.len() >= models::chunk_count(
                u.items[i].size_bytes,
                u.config.chunk_size_bytes,
            ));
        }
    }
    if v.all_done() {
        assert forall|i: int| 0 <= i < u.items.len() implies i < u.files().len() && (
        #[trigger] u.files()[i]).completed_chunks.len() >= models::chunk_count(
            u.items[i].size_bytes,
            u.config.chunk_size_bytes,
        ) by {
            assert(v.done_count(i) >= models::chunk_count(
                v.items[i].size_bytes,
                v.config.chunk_size_bytes,
            ));
        }
    }
}

/// A leased chunk that a worker tells of is committed like any other, over the lane of its lease, and the
/// lane has one chunk fewer under way.
pub proof fn lemma_reported_lease_is_committed_and_freed(
    t: TaskView,
    id: Seq<char>,
    lease: ChunkLease,
    was_skipped: bool,
    now: u128,
)
    requires
        t.items.len() == t.files().len(),
    ensures
        ({
            let o = engine::completing(t, id, lease, was_skipped, now);
            let p = engine::committing(t, id, lease.chunk, lease.lane, was_skipped, now);
            &&& o.error == p.error
            &&& o.error is Some ==> o.task == t
            &&& o.error is None ==> {
                &&& o.task.state == p.task.state && o.task.files() == p.task.files()
                    && o.task.metrics == p.task.metrics && o.task.logs == p.task.logs
                    && o.task.checkpoint == p.task.checkpoint && o.task.config == t.config
                    && o.task.items == t.items && o.task.last_error == t.last_error
                &&& o.task.scheduler.adb == t.scheduler.adb && o.task.scheduler.wifi
                    == t.scheduler.wifi
                &&& lease.lane == LaneAssignment::Adb ==> o.task.scheduler.wifi_inflight
                    == t.scheduler.wifi_inflight && (t.scheduler.adb_inflight > 0
                    ==> o.task.scheduler.adb_inflight == t.scheduler.adb_inflight - 1)
                &&& lease.lane == LaneAssignment::Wifi ==> o.task.scheduler.adb_inflight
                    == t.scheduler.adb_inflight && (t.scheduler.wifi_inflight > 0
                    ==> o.task.scheduler.wifi_inflight == t.scheduler.wifi_inflight - 1)
            }
        }),
{
    let r = t.in_state(TaskState::Running);
    let v = r.committed(lease.chunk, lease.lane, was_skipped, now);
    let w = TaskView { scheduler: v.scheduler.complete(lease.lane), ..v };
    assert(w.files() == v.files());
    assert(w.all_done() == v.all_done()) by {
        assert forall|i: int| #[trigger] w.done_count(i) == v.done_count(i) by {}
        if v.all_done() {
            assert forall|i: int|
                0 <= i < w.items.len() implies w.done_count(i) >= models::chunk_count(
                (#[trigger] w.items[i]).size_bytes,
                w.config.chunk_size_bytes,
            ) by {
                assert(v.done_count(i) >= models::chunk_count(
                    v.items[i].size_bytes,
                    v.config.chunk_size_bytes,
                ));
            }
        }
        if w.all_done() {
            assert forall|i: int|
                0 <= i < v.items.len() implies v.done_count(i) >= models::chunk_count(
                (#[trigger] v.items[i]).size_bytes,
                v.config.chunk_size_bytes,
            ) by {
                assert(w.done_count(i) >= models::chunk_count(
                    w.items[i].size_bytes,
                    w.config.chunk_size_bytes,
                ));
            }
        }
    }
}

/// A paused task leases nothing and stays as it is; one that was cancelled or has failed refuses. Any other
/// runs then, and a lease is the chunk that its scheduler gives, with a record of it; nothing counts as
/// done by it.
pub proof fn lemma_lease_counts_nothing(
    t: TaskView,
    id: Seq<char>,
    preferred: LaneAssignment,
    now: u128,
)
    ensures
        ({
            let (o, lease) = engine::leasing(t, id, preferred, now);
            let refused = t.state == TaskState::Cancelled || t.state == TaskState::Failed;
            let paused = t.state == TaskState::Paused;
            let (decision, s) = t.scheduler.lease_next(
                t.config.max_in_flight_chunks_per_lane,
                preferred,
            );
            &&& o.error is Some <==> refused
            &&& refused || paused ==> o.task == t && lease is None
            &&& !refused && !paused ==> {
                &&& o.task.state == TaskState::Running && o.task.checkpoint.checkpoint.state
                    == TaskState::Running
                &&& o.task.scheduler == s
                &&& lease == (match decision {
                    SchedulerDecision::Lease(l) => Some(l),
                    SchedulerDecision::Idle => None,
                })
                &&& lease is Some ==> adds_record(
                    o.task,
                    t,
                    LogLevel::Debug,
                    LogScope::Transfer,
                    "real chunk leased"@,
                    t.config.task_id,
                    now,
                )
                &&& lease is None ==> o.task.logs == t.logs
            }
            &&& o.task.metrics == t.metrics && o.task.files() == t.files() && o.task.config
                == t.config && o.task.items == t.items && o.task.last_error == t.last_error
        }),
{
    let (o, lease) = engine::leasing(t, id, preferred, now);
    if lease is Some {
        assert(o.task.logs.drop_last() =~= t.logs);
    }
}

/// A task that is over refuses to be advanced, and a paused one stays as it is. Any other runs, takes up to
/// so many chunks and at least one if one is to be had, ADB and the network by turns, and is completed
/// exactly where its scheduler has nothing left.
pub proof fn lemma_advanced_task_is_completed_when_drained(
    t: TaskView,
    id: Seq<char>,
    steps: usize,
    now: u128,
)
    ensures
        ({
            let o = engine::ticking(t, id, steps, now);
            let over = t.state == TaskState::Completed || t.state == TaskState::Cancelled || t.state
                == TaskState::Failed;
            let n: nat = if steps == 0 {
                1
            } else {
                steps as nat
            };
            let u = t.in_state(TaskState::Running).stepped(n, now).0;
            &&& o.error == (if over {
                Some(EngineErrorView::InvalidState("task "@ + id + " is already terminal"@))
            } else {
                None
            })
            &&& over || t.state == TaskState::Paused ==> o.task == t
            &&& !over && t.state != TaskState::Paused ==> {
                &&& is_stored(
                    o.task,
                    if u.scheduler.adb.len() == 0 && u.scheduler.wifi.len() == 0
                        && u.scheduler.adb_inflight == 0 && u.scheduler.wifi_inflight == 0 {
                        TaskState::Completed
                    } else {
                        TaskState::Running
                    },
                    now,
                )
                &&& o.task.files() == u.files() && o.task.metrics == u.metrics && o.task.scheduler
                    == u.scheduler
                &&& t.metrics.chunks <= o.task.metrics.chunks <= t.metrics.chunks + n
            }
        }),
{
    let n: nat = if steps == 0 {
        1
    } else {
        steps as nat
    };
    lemma_steps_take_one_each(t.in_state(TaskState::Running), n, now);
}

proof fn lemma_steps_take_one_each(t: TaskView, steps: nat, now: u128)
    ensures
        t.metrics.chunks <= t.stepped(steps, now).0.metrics.chunks <= t.metrics.chunks + steps,
        t.stepped(steps, now).0.state == t.state,
    decreases steps,
{
    if steps > 0 {
        lemma_steps_take_one_each(t, (steps - 1) as nat, now);
    }
}

/// Each step of an advance leases one chunk, asking ADB first in the first step, the network in the second
/// and so on, commits just that chunk over the lane of the lease and frees the lane; the advance stops
/// where nothing can be leased.
pub proof fn lemma_step_commits_what_it_leases(t: TaskView, steps: nat, now: u128)
    ensures
        ({
            let (u, going) = t.stepped(steps, now);
            let (v, more) = t.stepped(steps + 1, now);
            let preferred = if steps % 2 == 0 {
                LaneAssignment::Adb
            } else {
                LaneAssignment::Wifi
            };
            let (decision, s) = u.scheduler.lease_next(
                u.config.max_in_flight_chunks_per_lane,
                preferred,
            );
            &&& t.stepped(0, now) == (t, true)
            &&& !going ==> v == u && !more
            &&& going && decision == SchedulerDecision::Idle ==> v == u && !more
            &&& going ==> (decision matches SchedulerDecision::Lease(lease) ==> {
                let w = u.committed(lease.chunk, lease.lane, false, now);
                &&& more
                &&& v.files() == w.files() && v.metrics == w.metrics && v.logs == w.logs
                &&& v.scheduler.adb == s.adb && v.scheduler.wifi == s.wifi
                &&& v.scheduler.adb_inflight == u.scheduler.adb_inflight
                &&& v.scheduler.wifi_inflight == u.scheduler.wifi_inflight
            })
        }),
{
    let (u, going) = t.stepped(steps, now);
    let preferred = TaskView::preferred(steps);
    scheduler::lemma_lease_takes_one(
        u.scheduler,
        u.config.max_in_flight_chunks_per_lane,
        preferred,
    );
}

/// A task that gets another chunk length loses its progress, since that was counted in chunks of the old
/// length: nothing is done, and all chunks of the new length wait. Its state, its error and its log stay.
/// The same length changes nothing.
pub proof fn lemma_new_chunk_length_starts_over(t: TaskView, chunk_size: u64, now: u128)
    requires
        t.items.len() == t.files().len(),
        t.checkpoint.config == t.config,
    ensures
        ({
            let o = engine::rechunking(t, chunk_size, now);
            let u = o.task;
            &&& o.error is None
            &&& chunk_size == t.config.chunk_size_bytes ==> u == t
            &&& chunk_size != t.config.chunk_size_bytes ==> {
                &&& u.config == (TaskConfigView { chunk_size_bytes: chunk_size, ..t.config })
                &&& u.checkpoint.config == u.config
                &&& u.metrics.committed == 0 && u.metrics.chunks == 0 && u.metrics.adb == 0
                    && u.metrics.wifi == 0 && u.metrics.total == engine_task::total_size(t.items)
                &&& u.files().len() == t.items.len()
                &&& forall|i: int|
                    0 <= i < u.files().len() ==> (#[trigger] u.files()[i]).completed_chunks.len()
                        == 0 && u.files()[i].size_bytes == t.items[i].size_bytes
                        && u.files()[i].relative_path == t.items[i].relative_path
                &&& is_stored(u, t.state, now)
                &&& u.last_error == t.last_error && u.logs == t.logs && u.log_cursor == t.log_cursor
                    && u.items == t.items
                &&& u.scheduler.waiting() == scheduler::all_pending(
                    chunk_size,
                    engine_task::item_sizes(t.items),
                    Seq::empty(),
                    t.items.len(),
                )
            }
        }),
{
    let config = TaskConfigView { chunk_size_bytes: chunk_size, ..t.config };
    scheduler::lemma_every_pending_chunk_waits_once(
        config.transport_mode,
        chunk_size,
        config.small_file_threshold_bytes,
        engine_task::item_sizes(t.items),
        Seq::empty(),
        t.items.len(),
    );
}

/// A task that was just created is pending, with nothing done and everything to do; its log says so.
pub proof fn lemma_new_task_has_everything_to_do(
    config: TaskConfigView,
    items: Seq<TransferItemView>,
    now: u128,
)
    ensures
        ({
            let t = engine_task::fresh_task(config, items, now);
            &&& t.config == config && t.items == items && t.checkpoint.config == config
            &&& is_stored(t, TaskState::Pending, now)
            &&& t.last_error is None && t.log_cursor == 0 && t.logs.len() == 1
            &&& t.logs[0].message == "task created"@ && t.logs[0].task_id == Some(config.task_id)
            &&& t.metrics.committed == 0 && t.metrics.chunks == 0 && t.metrics.adb == 0
                && t.metrics.wifi == 0 && t.metrics.total == engine_task::total_size(items)
            &&& t.files().len() == items.len()
            &&& forall|i: int|
                0 <= i < items.len() ==> (#[trigger] t.files()[i]).completed_chunks.len() == 0
                    && t.files()[i].size_bytes == items[i].size_bytes && t.files()[i].relative_path
                    == items[i].relative_path && t.files()[i].modified_at_epoch_ms
                    == items[i].modified_at_epoch_ms
            &&& t.scheduler.waiting() == scheduler::all_pending(
                config.chunk_size_bytes,
                engine_task::item_sizes(items),
                Seq::empty(),
                items.len(),
            )
        }),
{
    scheduler::lemma_every_pending_chunk_waits_once(
        config.transport_mode,
        config.chunk_size_bytes,
        config.small_file_threshold_bytes,
        engine_task::item_sizes(items),
        Seq::empty(),
        items.len(),
    );
}

/// A task comes back completed or cancelled if it was, and paused else. A finished chunk counts to the lane
/// that is noted for it; where none is noted, to the only lane, or with two lanes to ADB if its index is
/// even and to the network if it is odd.
pub proof fn lemma_task_comes_back_in_this_state(
    state: TaskState,
    mode: TransportMode,
    lanes: Map<u32, LaneAssignment>,
    k: u32,
)
    ensures
        engine_task::resumed_state(state) == (if state == TaskState::Completed || state
            == TaskState::Cancelled {
            state
        } else {
            TaskState::Paused
        }),
        lanes.contains_key(k) ==> engine_task::lane_of(mode, lanes, k) == lanes[k],
        !lanes.contains_key(k) && mode == TransportMode::AdbOnly ==> engine_task::lane_of(
            mode,
            lanes,
            k,
        ) == LaneAssignment::Adb,
        !lanes.contains_key(k) && mode == TransportMode::WifiOnly ==> engine_task::lane_of(
            mode,
            lanes,
            k,
        ) == LaneAssignment::Wifi,
        !lanes.contains_key(k) && mode == TransportMode::Dual ==> (engine_task::lane_of(
            mode,
            lanes,
            k,
        ) == LaneAssignment::Adb <==> k % 2 == 0),
{
}

/// A snapshot tells the task's id, state, direction, mode, number of files, numbers and error as they are.
pub proof fn lemma_snapshot_tells_the_task(t: TaskView)
    ensures
        ({
            let s = t.snapshot();
            &&& s.task_id == t.config.task_id && s.state == t.state && s.direction
                == t.config.direction && s.transport_mode == t.config.transport_mode
                && s.verify_enabled == t.config.verify_enabled
            &&& s.total_files == t.items.len() && s.metrics == t.metrics && s.last_error
                == t.last_error
        }),
{
}

/// A whole file that a worker tells of has all its chunks done then, each counted if it was not done
/// before, as if it had been told of chunk by chunk. A file that is not there is refused.
pub proof fn lemma_reported_file_is_committed_whole(
    t: TaskView,
    id: Seq<char>,
    file_index: usize,
    lane: LaneAssignment,
    was_skipped: bool,
    now: u128,
    k: int,
)
    requires
        t.items.len() == t.files().len(),
    ensures
        ({
            let o = engine::completing_file(t, id, file_index, lane, was_skipped, now);
            let refused = t.state == TaskState::Cancelled || t.state == TaskState::Failed;
            &&& o.error is Some <==> refused || file_index >= t.items.len()
            &&& refused ==> o.task == t
            &&& !refused && file_index >= t.items.len() ==> o.error == Some(
                EngineErrorView::InvalidState("unknown file "@ + decimal::dec(file_index as nat)),
            ) && o.task.metrics == t.metrics && o.task.files() == t.files() && o.task.logs
                == t.logs
            &&& o.error is None ==> {
                let count = models::chunk_count(
                    t.items[file_index as int].size_bytes,
                    t.config.chunk_size_bytes,
                );
                &&& 0 <= k < count ==> o.task.files()[file_index as int].completed_chunks.contains(
                    (k % 0x1_0000_0000) as u32,
                )
                &&& o.task.metrics.chunks <= t.metrics.chunks + count
                &&& o.task.metrics.chunks >= t.metrics.chunks
                &&& o.task.scheduler == t.scheduler && o.task.config == t.config && o.task.items
                    == t.items
            }
        }),
{
    let o = engine::completing_file(t, id, file_index, lane, was_skipped, now);
    if o.error is None {
        let r = t.in_state(TaskState::Running);
        let chunks = models::chunks_of(
            file_index,
            t.items[file_index as int].size_bytes,
            t.config.chunk_size_bytes,
        );
        lemma_all_are_committed(r, chunks, lane, was_skipped, now, file_index);
        if 0 <= k < chunks.len() {
            assert(chunks[k].chunk_index == (k % 0x1_0000_0000) as u32);
            assert(r.committed_all(
                chunks,
                lane,
                was_skipped,
                now,
            ).files()[file_index as int].completed_chunks.contains(chunks[k].chunk_index));
        }
    }
}

proof fn lemma_all_are_committed(
    t: TaskView,
    chunks: Seq<ChunkDescriptor>,
    lane: LaneAssignment,
    was_skipped: bool,
    now: u128,
    file_index: usize,
)
    requires
        file_index < t.files().len(),
        forall|k: int| 0 <= k < chunks.len() ==> (#[trigger] chunks[k]).file_index == file_index,
    ensures
        ({
            let u = t.committed_all(chunks, lane, was_skipped, now);
            &&& u.files().len() == t.files().len()
            &&& u.scheduler == t.scheduler && u.config == t.config && u.items == t.items
            &&& t.metrics.chunks <= u.metrics.chunks <= t.metrics.chunks + chunks.len()
            &&& forall|k: int|
                0 <= k < chunks.len() ==> u.files()[file_index as int].completed_chunks.contains(
                    (#[trigger] chunks[k]).chunk_index,
                )
        }),
    decreases chunks.len(),
{
    if chunks.len() > 0 {
        let before = chunks.drop_last();
        assert forall|k: int| 0 <= k < before.len() implies (#[trigger] before[k]).file_index
            == file_index by {
            assert(chunks[k].file_index == file_index);
        }
        lemma_all_are_committed(t, before, lane, was_skipped, now, file_index);
        let v = t.committed_all(before, lane, was_skipped, now);
        let u = t.committed_all(chunks, lane, was_skipped, now);
        let last = chunks.last();
        assert(chunks[chunks.len() - 1].file_index == file_index);
        lemma_new_chunk_counts(v, last, lane, was_skipped, now);
        assert forall|k: int|
            0 <= k < chunks.len() implies u.files()[file_index as int].completed_chunks.contains(
            (#[trigger] chunks[k]).chunk_index,
        ) by {
            if k < before.len() {
                assert(v.files()[file_index as int].completed_chunks.contains(
                    before[k].chunk_index,
                ));
            }
        }
    }
}

/// Whether a file is the checkpoint of a task that is neither completed nor cancelled.
pub open spec fn is_unfinished(f: engine::ListedCheckpoint) -> bool {
    &&& checkpoint_store::is_checkpoint_name(f.name@)
    &&& f.read matches Ok(content) && checkpoint_text::read_entry(content@) matches Ok(entry)
        && entry.checkpoint.state != TaskState::Completed && entry.checkpoint.state
        != TaskState::Cancelled
}

/// Whether a file is no checkpoint, or one that can be read.
pub open spec fn is_readable(f: engine::ListedCheckpoint) -> bool {
    checkpoint_store::is_checkpoint_name(f.name@) ==> (f.read matches Ok(content)
        && checkpoint_text::read_entry(content@) is Ok)
}

/// A task can be taken up again if and only if it has a checkpoint and was neither completed nor
/// cancelled, and each such checkpoint counts once. A checkpoint that cannot be read is an error.
pub proof fn lemma_unfinished_tasks_are_recoverable(
    files: Seq<engine::ListedCheckpoint>,
    more: engine::ListedCheckpoint,
)
    ensures
        engine::recoverable(files) is Ok <==> forall|k: int|
            0 <= k < files.len() ==> is_readable(#[trigger] files[k]),
        engine::recoverable(files) is Err ==> engine::recoverable(files.push(more))
            == engine::recoverable(files),
        engine::recoverable(files) matches Ok(ids) ==> {
            &&& !is_readable(more) ==> engine::recoverable(files.push(more)) is Err
            &&& is_readable(more) && is_unfinished(more) ==> engine::recoverable(files.push(more))
                == Ok::<Seq<Seq<char>>, EngineErrorView>(
                ids + seq![checkpoint_store::task_of_name(more.name@)],
            )
            &&& is_readable(more) && !is_unfinished(more) ==> engine::recoverable(files.push(more))
                == Ok::<Seq<Seq<char>>, EngineErrorView>(ids)
        },
    decreases files.len(),
{
    assert(files.push(more).drop_last() =~= files);
    if let Ok(ids) = engine::recoverable(files) {
        let id = checkpoint_store::task_of_name(more.name@);
        assert(ids.push(id) =~= ids + seq![id]);
    }
    if files.len() > 0 {
        let d = files.drop_last();
        let last = files.last();
        lemma_unfinished_tasks_are_recoverable(d, last);
        assert(d.push(last) =~= files);
        if engine::recoverable(files) is Ok {
            assert forall|k: int| 0 <= k < files.len() implies is_readable(#[trigger] files[k]) by {
                if k < d.len() {
                    assert(is_readable(d[k]));
                }
            }
        }
        if forall|k: int| 0 <= k < files.len() ==> is_readable(#[trigger] files[k]) {
            assert forall|k: int| 0 <= k < d.len() implies is_readable(#[trigger] d[k]) by {
                assert(is_readable(files[k]));
            }
            assert(is_readable(files[files.len() - 1]));
        }
    }
}

} // verus!
