//! One task: its progress, its log and how chunks are committed to it.

use crate::checkpoint;
use crate::checkpoint::{
    CheckpointEntry, CheckpointEntryView, FileCheckpoint, FileCheckpointView, TaskCheckpointView,
};
use crate::decimal;
use crate::logging;
use crate::logging::{LogLevel, LogRecord, LogRecordView, LogScope};
use crate::models;
use crate::models::{
    ChunkDescriptor, Direction, FileFingerprint, FileFingerprintView, TaskConfig, TaskConfigView,
    TaskState, TransferItem, TransferItemView, TransportMode,
};
use crate::scheduler;
use crate::scheduler::{LaneAssignment, Scheduler, SchedulerDecision, SchedulerView};
use crate::text;
use vstd::prelude::*;
use vstd::relations::{sorted_by, total_ordering};

verus! {

/// How far a task has come.
#[derive(Debug, Clone, Copy, PartialEq, Eq, Structural)]
pub struct EngineMetrics {
    pub total_bytes: u64,
    pub committed_bytes: u64,
    pub adb_bytes: u64,
    pub wifi_bytes: u64,
    pub completed_chunks: u64,
}

/// How far a task has come, in unbounded numbers.
pub struct MetricsView {
    pub total: nat,
    pub committed: nat,
    pub adb: nat,
    pub wifi: nat,
    pub chunks: nat,
}

impl View for EngineMetrics {
    type V = MetricsView;

    open spec fn view(&self) -> MetricsView {
        MetricsView {
            total: self.total_bytes as nat,
            committed: self.committed_bytes as nat,
            adb: self.adb_bytes as nat,
            wifi: self.wifi_bytes as nat,
            chunks: self.completed_chunks as nat,
        }
    }
}

impl MetricsView {
    /// The numbers fit 64 bits.
    pub open spec fn fits(self) -> bool {
        self.committed <= u64::MAX && self.chunks <= u64::MAX
    }

    /// One more chunk of `length` bytes over `lane`.
    pub open spec fn plus(self, length: nat, lane: LaneAssignment) -> MetricsView {
        MetricsView {
            total: self.total,
            committed: self.committed + length,
            adb: match lane {
                LaneAssignment::Adb => self.adb + length,
                LaneAssignment::Wifi => self.adb,
            },
            wifi: match lane {
                LaneAssignment::Adb => self.wifi,
                LaneAssignment::Wifi => self.wifi + length,
            },
            chunks: self.chunks + 1,
        }
    }
}

/// What the world is told of a task.
#[derive(Debug, PartialEq, Eq)]
pub struct EngineTaskSnapshot {
    pub task_id: String,
    pub state: TaskState,
    pub direction: Direction,
    pub transport_mode: TransportMode,
    pub verify_enabled: bool,
    pub total_files: usize,
    pub total_bytes: u64,
    pub committed_bytes: u64,
    pub adb_bytes: u64,
    pub wifi_bytes: u64,
    pub completed_chunks: u64,
    pub last_error: Option<String>,
}

#[verifier::ext_equal]
pub struct SnapshotView {
    pub task_id: Seq<char>,
    pub state: TaskState,
    pub direction: Direction,
    pub transport_mode: TransportMode,
    pub verify_enabled: bool,
    pub total_files: nat,
    pub metrics: MetricsView,
    pub last_error: Option<Seq<char>>,
}

impl View for EngineTaskSnapshot {
    type V = SnapshotView;

    open spec fn view(&self) -> SnapshotView {
        SnapshotView {
            task_id: self.task_id@,
            state: self.state,
            direction: self.direction,
            transport_mode: self.transport_mode,
            verify_enabled: self.verify_enabled,
            total_files: self.total_files as nat,
            metrics: MetricsView {
                total: self.total_bytes as nat,
                committed: self.committed_bytes as nat,
                adb: self.adb_bytes as nat,
                wifi: self.wifi_bytes as nat,
                chunks: self.completed_chunks as nat,
            },
            last_error: text::opt_view(self.last_error),
        }
    }
}

/// A snapshot and the log records that came since the last one.
#[derive(Debug, PartialEq, Eq)]
pub struct TransferUpdate {
    pub snapshot: EngineTaskSnapshot,
    pub new_logs: Vec<LogRecord>,
}

/// A task under way.
#[derive(Debug)]
pub struct EngineTask {
    pub config: TaskConfig,
    pub items: Vec<TransferItem>,
    pub scheduler: Scheduler,
    pub checkpoint: CheckpointEntry,
    pub metrics: EngineMetrics,
    pub state: TaskState,
    pub last_error: Option<String>,
    pub log_cursor: usize,
    pub logs: Vec<LogRecord>,
}

#[verifier::ext_equal]
pub struct TaskView {
    pub config: TaskConfigView,
    pub items: Seq<TransferItemView>,
    pub scheduler: SchedulerView,
    pub checkpoint: CheckpointEntryView,
    pub metrics: MetricsView,
    pub state: TaskState,
    pub last_error: Option<Seq<char>>,
    pub log_cursor: nat,
    pub logs: Seq<LogRecordView>,
}

impl View for EngineTask {
    type V = TaskView;

    open spec fn view(&self) -> TaskView {
        TaskView {
            config: self.config@,
            items: models::item_views(self.items@),
            scheduler: self.scheduler@,
            checkpoint: self.checkpoint@,
            metrics: self.metrics@,
            state: self.state,
            last_error: text::opt_view(self.last_error),
            log_cursor: self.log_cursor as nat,
            logs: logging::record_views(self.logs@),
        }
    }
}

/// A record about a task.
pub open spec fn task_record(
    now: u128,
    level: LogLevel,
    scope: LogScope,
    message: Seq<char>,
    task_id: Seq<char>,
) -> LogRecordView {
    LogRecordView {
        task_id: Some(task_id),
        ..logging::plain_record(now, level, scope, message)
    }
}

/// The total size of a list of items.
pub open spec fn total_size(items: Seq<TransferItemView>) -> nat
    decreases items.len(),
{
    if items.len() == 0 {
        0
    } else {
        total_size(items.drop_last()) + items.last().size_bytes as nat
    }
}

/// The sizes of a list of items.
pub open spec fn item_sizes(items: Seq<TransferItemView>) -> Seq<u64> {
    items.map_values(|i: TransferItemView| i.size_bytes)
}

/// Chunk indices in ascending order.
pub open spec fn ascending(s: Seq<u32>) -> Seq<u32> {
    s.sort_by(|a: u32, b: u32| a <= b)
}

/// A file with one more chunk done, over `lane`.
pub open spec fn file_with_chunk(
    f: FileCheckpointView,
    index: u32,
    lane: LaneAssignment,
) -> FileCheckpointView {
    FileCheckpointView {
        completed_chunks: ascending(f.completed_chunks.push(index)),
        completed_chunk_lanes: f.completed_chunk_lanes.insert(index, lane),
        ..f
    }
}

impl TaskView {
    /// What holds of every task: one checkpoint per item, the settings stand in the checkpoint
    /// too, the log cursor lies within the log, the bytes of the lanes make up the bytes
    /// committed, and the total is that of the items.
    pub open spec fn wf(self) -> bool {
        &&& self.items.len() == self.checkpoint.checkpoint.files.len()
        &&& self.checkpoint.config == self.config
        &&& self.log_cursor <= self.logs.len()
        &&& self.metrics.adb + self.metrics.wifi == self.metrics.committed
        &&& self.metrics.total == total_size(self.items)
        &&& self.metrics.fits()
        &&& self.scheduler.fits()
    }

    /// The files of the checkpoint.
    pub open spec fn files(self) -> Seq<FileCheckpointView> {
        self.checkpoint.checkpoint.files
    }

    /// What the world is told.
    pub open spec fn snapshot(self) -> SnapshotView {
        SnapshotView {
            task_id: self.config.task_id,
            state: self.state,
            direction: self.config.direction,
            transport_mode: self.config.transport_mode,
            verify_enabled: self.config.verify_enabled,
            total_files: self.items.len(),
            metrics: self.metrics,
            last_error: self.last_error,
        }
    }

    /// The task with one more record.
    pub open spec fn logged(self, record: LogRecordView) -> TaskView {
        TaskView { logs: self.logs.push(record), ..self }
    }

    /// The task in a state, of which the checkpoint knows.
    pub open spec fn in_state(self, state: TaskState) -> TaskView {
        TaskView {
            state,
            checkpoint: CheckpointEntryView {
                checkpoint: TaskCheckpointView { state, ..self.checkpoint.checkpoint },
                ..self.checkpoint
            },
            ..self
        }
    }

    /// The task with its checkpoint made ready to be written at `now`.
    pub open spec fn stamped(self, now: u128) -> TaskView {
        TaskView {
            checkpoint: CheckpointEntryView {
                checkpoint: TaskCheckpointView {
                    state: self.state,
                    updated_at_epoch_ms: now,
                    ..self.checkpoint.checkpoint
                },
                ..self.checkpoint
            },
            ..self
        }
    }

    /// The records that nobody has seen.
    pub open spec fn new_logs(self) -> Seq<LogRecordView> {
        self.logs.skip(self.log_cursor as int)
    }

    /// The task with all records seen.
    pub open spec fn drained(self) -> TaskView {
        TaskView { log_cursor: self.logs.len(), ..self }
    }

    /// Whether a chunk counts if it is committed: its file is there and it is not done.
    pub open spec fn accepts(self, chunk: ChunkDescriptor) -> bool {
        &&& chunk.file_index < self.files().len()
        &&& !self.files()[chunk.file_index as int].completed_chunks.contains(chunk.chunk_index)
    }

    /// The record of a committed chunk.
    pub open spec fn commit_record(
        self,
        chunk: ChunkDescriptor,
        lane: LaneAssignment,
        was_skipped: bool,
        now: u128,
    ) -> LogRecordView {
        LogRecordView {
            ts_epoch_ms: now,
            level: LogLevel::Info,
            scope: LogScope::Transfer,
            task_id: Some(self.config.task_id),
            file_path: Some(self.items[chunk.file_index as int].relative_path),
            chunk_id: Some(decimal::dec(chunk.chunk_index as nat)),
            lane: Some(checkpoint::lane_word(lane)),
            message: if was_skipped {
                "real chunk skipped from checkpoint"@
            } else {
                "real chunk committed"@
            },
        }
    }

    /// The task after a chunk came over a lane; nothing changes where the chunk does not count.
    pub open spec fn committed(
        self,
        chunk: ChunkDescriptor,
        lane: LaneAssignment,
        was_skipped: bool,
        now: u128,
    ) -> TaskView {
        if self.accepts(chunk) {
            let i = chunk.file_index as int;
            TaskView {
                checkpoint: CheckpointEntryView {
                    checkpoint: TaskCheckpointView {
                        files: self.files().update(
                            i,
                            file_with_chunk(self.files()[i], chunk.chunk_index, lane),
                        ),
                        ..self.checkpoint.checkpoint
                    },
                    ..self.checkpoint
                },
                metrics: self.metrics.plus(chunk.length as nat, lane),
                logs: self.logs.push(self.commit_record(chunk, lane, was_skipped, now)),
                ..self
            }
        } else {
            self
        }
    }

    /// The task after a list of chunks came over a lane.
    pub open spec fn committed_all(
        self,
        chunks: Seq<ChunkDescriptor>,
        lane: LaneAssignment,
        was_skipped: bool,
        now: u128,
    ) -> TaskView
        decreases chunks.len(),
    {
        if chunks.len() == 0 {
            self
        } else {
            self.committed_all(chunks.drop_last(), lane, was_skipped, now).committed(
                chunks.last(),
                lane,
                was_skipped,
                now,
            )
        }
    }

    /// Whether every file has as many chunks done as it has chunks.
    pub open spec fn all_done(self) -> bool {
        forall|i: int|
            0 <= i < self.items.len() ==> self.done_count(i) >= models::chunk_count(
                (#[trigger] self.items[i]).size_bytes,
                self.config.chunk_size_bytes,
            )
    }

    /// How many chunks of a file are done.
    pub open spec fn done_count(self, i: int) -> nat {
        if i < self.files().len() {
            self.files()[i].completed_chunks.len()
        } else {
            0
        }
    }

    /// The task marked as completed, once, if every file is done.
    pub open spec fn marked(self, now: u128) -> TaskView {
        if self.all_done() && self.state != TaskState::Completed {
            self.completed(now)
        } else {
            self
        }
    }

    /// The completed task.
    pub open spec fn completed(self, now: u128) -> TaskView {
        self.in_state(TaskState::Completed).logged(
            task_record(
                now,
                LogLevel::Info,
                LogScope::Audit,
                "task completed"@,
                self.config.task_id,
            ),
        )
    }

    /// The lane asked first in a step of a tick.
    pub open spec fn preferred(step: nat) -> LaneAssignment {
        if step % 2 == 0 {
            LaneAssignment::Adb
        } else {
            LaneAssignment::Wifi
        }
    }

    /// The task after up to `steps` leases, each committed and completed at once, and whether
    /// all of them were had.
    pub open spec fn stepped(self, steps: nat, now: u128) -> (TaskView, bool)
        decreases steps,
    {
        if steps == 0 {
            (self, true)
        } else {
            let (t, going) = self.stepped((steps - 1) as nat, now);
            if !going {
                (t, false)
            } else {
                let (decision, s) = t.scheduler.lease_next(
                    t.config.max_in_flight_chunks_per_lane,
                    Self::preferred((steps - 1) as nat),
                );
                match decision {
                    SchedulerDecision::Idle => (t, false),
                    SchedulerDecision::Lease(lease) => {
                        let u = TaskView { scheduler: s, ..t }.committed(
                            lease.chunk,
                            lease.lane,
                            false,
                            now,
                        );
                        (TaskView { scheduler: u.scheduler.complete(lease.lane), ..u }, true)
                    },
                }
            }
        }
    }
}

/// The task before anything is done of it.
pub open spec fn fresh_task(
    config: TaskConfigView,
    items: Seq<TransferItemView>,
    now: u128,
) -> TaskView {
    TaskView {
        config,
        items,
        scheduler: scheduler::planned(
            config.transport_mode,
            config.chunk_size_bytes,
            config.small_file_threshold_bytes,
            item_sizes(items),
            Seq::empty(),
            items.len(),
        ),
        checkpoint: checkpoint::fresh_checkpoint(config, items),
        metrics: MetricsView {
            total: total_size(items),
            committed: 0,
            adb: 0,
            wifi: 0,
            chunks: 0,
        },
        state: TaskState::Pending,
        last_error: None,
        log_cursor: 0,
        logs: seq![
            task_record(now, LogLevel::Info, LogScope::Audit, "task created"@, config.task_id),
        ],
    }.stamped(now)
}

/// Sorting gives the ascending order with the same indices.
pub proof fn lemma_ascending(s: Seq<u32>, t: Seq<u32>)
    requires
        t.to_multiset() == s.to_multiset(),
        forall|i: int, j: int| 0 <= i < j < t.len() ==> t[i] <= t[j],
    ensures
        t == ascending(s),
{
    let leq = |a: u32, b: u32| a <= b;
    assert(total_ordering(leq));
    s.lemma_sort_by_ensures(leq);
    assert(sorted_by(t, leq));
    vstd::seq_lib::lemma_sorted_unique(t, s.sort_by(leq), leq);
}

/// The indices in ascending order.
pub fn sort_indices(v: &Vec<u32>) -> (r: Vec<u32>)
    ensures
        r@ == ascending(v@),
{
    broadcast use vstd::seq_lib::group_to_multiset_ensures;

    let mut out: Vec<u32> = Vec::new();
    let mut i: usize = 0;
    assert(v@.take(0) =~= out@);
    while i < v.len()
        invariant
            i <= v.len(),
            out.len() == i,
            out@.to_multiset() == v@.take(i as int).to_multiset(),
            forall|a: int, b: int| 0 <= a < b < out@.len() ==> out@[a] <= out@[b],
        decreases v.len() - i,
    {
        let x: u32 = v[i];
        let mut p: usize = out.len();
        while p > 0 && out[p - 1] > x
            invariant
                p <= out.len(),
                forall|a: int, b: int| 0 <= a < b < out@.len() ==> out@[a] <= out@[b],
                forall|a: int| p <= a < out@.len() ==> out@[a] > x,
            decreases p,
        {
            p -= 1;
        }
        proof {
            vstd::seq_lib::to_multiset_insert(out@, p as int, x);
            assert(v@.take(i + 1) =~= v@.take(i as int).push(x));
            vstd::seq_lib::to_multiset_build(v@.take(i as int), x);
        }
        out.insert(p, x);
        i += 1;
    }
    proof {
        assert(v@.take(v@.len() as int) =~= v@);
        lemma_ascending(v@, out@);
    }
    out
}

/// Whether an index is in a list.
pub fn has_index(v: &Vec<u32>, x: u32) -> (r: bool)
    ensures
        r == v@.contains(x),
{
    let mut i: usize = 0;
    while i < v.len()
        invariant
            i <= v.len(),
            forall|k: int| 0 <= k < i ==> v@[k] != x,
        decreases v.len() - i,
    {
        if v[i] == x {
            assert(v@[i as int] == x);
            return true;
        }
        i += 1;
    }
    false
}

/// Pushing a record pushes its view.
pub broadcast proof fn lemma_record_views_push(v: Seq<LogRecord>, r: LogRecord)
    ensures
        #[trigger] logging::record_views(v.push(r)) == logging::record_views(v).push(r@),
{
    assert(logging::record_views(v.push(r)) =~= logging::record_views(v).push(r@));
}

fn copy_records(v: &Vec<LogRecord>, from: usize) -> (r: Vec<LogRecord>)
    requires
        from <= v.len(),
    ensures
        logging::record_views(r@) == logging::record_views(v@).skip(from as int),
{
    let mut out: Vec<LogRecord> = Vec::new();
    let ghost all = logging::record_views(v@);
    let mut i: usize = from;
    assert(logging::record_views(out@) =~= all.subrange(from as int, from as int));
    while i < v.len()
        invariant
            from <= i <= v.len(),
            all == logging::record_views(v@),
            logging::record_views(out@) == all.subrange(from as int, i as int),
        decreases v.len() - i,
    {
        let ghost before = out@;
        let record = v[i].clone();
        out.push(record);
        proof {
            lemma_record_views_push(before, record);
        }
        assert(logging::record_views(out@) =~= all.subrange(from as int, i + 1));
        i += 1;
    }
    assert(logging::record_views(out@) =~= all.skip(from as int));
    out
}

/// A record about a task.
pub fn make_task_record(
    now: u128,
    level: LogLevel,
    scope: LogScope,
    message: &str,
    task_id: &str,
) -> (r: LogRecord)
    ensures
        r@ == task_record(now, level, scope, message@, task_id@),
{
    LogRecord::new_at(now, level, scope, message).with_task_id(task_id)
}

/// The total size of a list of items, if it fits 64 bits.
pub fn total_bytes(items: &Vec<TransferItem>) -> (r: Option<u64>)
    ensures
        r is Some <==> total_size(models::item_views(items@)) <= u64::MAX,
        r is Some ==> r->0 == total_size(models::item_views(items@)),
{
    let ghost all = models::item_views(items@);
    let mut total: u64 = 0;
    let mut i: usize = 0;
    while i < items.len()
        invariant
            i <= items.len(),
            all == models::item_views(items@),
            total == total_size(all.take(i as int)),
        decreases items.len() - i,
    {
        assert(all.take(i + 1).drop_last() =~= all.take(i as int));
        assert(all[i as int] == items@[i as int]@);
        match total.checked_add(items[i].size_bytes) {
            Some(t) => {
                total = t;
            },
            None => {
                proof {
                    lemma_total_grows(all, i + 1);
                }
                return None;
            },
        }
        i += 1;
    }
    assert(all.take(all.len() as int) =~= all);
    Some(total)
}

proof fn lemma_total_grows(items: Seq<TransferItemView>, i: int)
    requires
        0 <= i <= items.len(),
    ensures
        total_size(items.take(i)) <= total_size(items),
    decreases items.len() - i,
{
    if i == items.len() {
        assert(items.take(i) =~= items);
    } else {
        assert(items.take(i + 1).drop_last() =~= items.take(i));
        lemma_total_grows(items, i + 1);
    }
}

impl EngineTask {
    /// The task before anything is done of it.
    pub fn fresh(config: TaskConfig, items: Vec<TransferItem>, now: u128) -> (r: EngineTask)
        requires
            total_size(models::item_views(items@)) <= u64::MAX,
        ensures
            r@ == fresh_task(config@, models::item_views(items@), now),
            r@.wf(),
    {
        let total: u64 = match total_bytes(&items) {
            Some(t) => t,
            None => 0,
        };
        let checkpoint = checkpoint::initialize_checkpoint(&config, items.as_slice());
        let scheduler = Scheduler::new(&config, items.as_slice());
        assert(scheduler::sizes_of(items@) =~= item_sizes(models::item_views(items@)));
        let record = make_task_record(
            now,
            LogLevel::Info,
            LogScope::Audit,
            "task created",
            config.task_id.as_str(),
        );
        let mut logs: Vec<LogRecord> = Vec::new();
        logs.push(record);
        assert(logging::record_views(logs@) =~= seq![record@]);
        let mut task = EngineTask {
            config,
            items,
            scheduler,
            checkpoint,
            metrics: EngineMetrics {
                total_bytes: total,
                committed_bytes: 0,
                adb_bytes: 0,
                wifi_bytes: 0,
                completed_chunks: 0,
            },
            state: TaskState::Pending,
            last_error: None,
            log_cursor: 0,
            logs,
        };
        task.stamp(now);
        task
    }

    /// What the world is told.
    pub fn snapshot(&self) -> (r: EngineTaskSnapshot)
        ensures
            r@ == self@.snapshot(),
    {
        EngineTaskSnapshot {
            task_id: self.config.task_id.clone(),
            state: self.state,
            direction: self.config.direction,
            transport_mode: self.config.transport_mode,
            verify_enabled: self.config.verify_enabled,
            total_files: self.items.len(),
            total_bytes: self.metrics.total_bytes,
            committed_bytes: self.metrics.committed_bytes,
            adb_bytes: self.metrics.adb_bytes,
            wifi_bytes: self.metrics.wifi_bytes,
            completed_chunks: self.metrics.completed_chunks,
            last_error: text::copy_opt(&self.last_error),
        }
    }

    /// The records that nobody has seen; they count as seen then.
    pub fn drain_new_logs(&mut self) -> (r: Vec<LogRecord>)
        requires
            old(self)@.wf(),
        ensures
            logging::record_views(r@) == old(self)@.new_logs(),
            final(self)@ == old(self)@.drained(),
            final(self)@.wf(),
    {
        let new_logs = copy_records(&self.logs, self.log_cursor);
        self.log_cursor = self.logs.len();
        new_logs
    }

    /// Makes the checkpoint ready to be written.
    pub fn stamp(&mut self, now: u128)
        ensures
            final(self)@ == old(self)@.stamped(now),
    {
        self.checkpoint.checkpoint.state = self.state;
        self.checkpoint.checkpoint.updated_at_epoch_ms = now;
    }

    /// Goes into a state.
    pub fn enter(&mut self, state: TaskState)
        ensures
            final(self)@ == old(self)@.in_state(state),
    {
        self.state = state;
        self.checkpoint.checkpoint.state = state;
    }

    /// Adds a record.
    pub fn push_log(&mut self, record: LogRecord)
        ensures
            final(self)@ == old(self)@.logged(record@),
    {
        let ghost before = self.logs@;
        self.logs.push(record);
        proof {
            lemma_record_views_push(before, record);
        }
    }

    /// Commits a chunk that came over a lane; says whether it counted.
    pub fn commit_chunk(
        &mut self,
        chunk: ChunkDescriptor,
        lane: LaneAssignment,
        was_skipped: bool,
        now: u128,
    ) -> (r: bool)
        requires
            old(self)@.wf(),
            old(self)@.committed(chunk, lane, was_skipped, now).metrics.fits(),
        ensures
            r == old(self)@.accepts(chunk),
            final(self)@ == old(self)@.committed(chunk, lane, was_skipped, now),
            final(self)@.wf(),
    {
        broadcast use vstd::std_specs::btree::group_btree_axioms;

        let ghost before = self@;
        let ghost files = self.checkpoint.checkpoint.files@;
        assert(files.len() == before.files().len());
        if chunk.file_index >= self.checkpoint.checkpoint.files.len() {
            return false;
        }
        let i: usize = chunk.file_index;
        assert(before.files()[i as int] == files[i as int]@);
        if has_index(
            &self.checkpoint.checkpoint.files[i].completed_chunks,
            chunk.chunk_index,
        ) {
            return false;
        }
        mark_chunk(&mut self.checkpoint.checkpoint.files[i], chunk.chunk_index, lane);
        assert(checkpoint::file_views(self.checkpoint.checkpoint.files@) =~= before.files().update(
            i as int,
            file_with_chunk(before.files()[i as int], chunk.chunk_index, lane),
        ));
        self.metrics.committed_bytes = self.metrics.committed_bytes + chunk.length;
        self.metrics.completed_chunks = self.metrics.completed_chunks + 1;
        match lane {
            LaneAssignment::Adb => {
                self.metrics.adb_bytes = self.metrics.adb_bytes + chunk.length;
            },
            LaneAssignment::Wifi => {
                self.metrics.wifi_bytes = self.metrics.wifi_bytes + chunk.length;
            },
        }
        let message = if was_skipped {
            "real chunk skipped from checkpoint"
        } else {
            "real chunk committed"
        };
        assert(models::item_views(self.items@)[i as int] == self.items@[i as int]@);
        let record = LogRecord::new_at(
            now,
            LogLevel::Info,
            LogScope::Transfer,
            message,
        ).with_task_id(self.config.task_id.as_str()).with_file_path(
            self.items[i].relative_path.as_str(),
        ).with_chunk_id(decimal::dec_text(chunk.chunk_index as u128).as_str()).with_lane(
            checkpoint::serialize_lane(lane),
        );
        self.push_log(record);
        true
    }

    /// Whether every file has as many chunks done as it has chunks.
    pub fn is_all_done(&self) -> (r: bool)
        ensures
            r == self@.all_done(),
    {
        let ghost t = self@;
        let mut i: usize = 0;
        while i < self.items.len()
            invariant
                i <= self.items.len(),
                t == self@,
                forall|k: int|
                    0 <= k < i ==> t.done_count(k) >= models::chunk_count(
                        (#[trigger] t.items[k]).size_bytes,
                        t.config.chunk_size_bytes,
                    ),
            decreases self.items.len() - i,
        {
            assert(t.items[i as int] == self.items@[i as int]@);
            let expected: u64 = count_chunks(
                self.items[i].size_bytes,
                self.config.chunk_size_bytes,
            );
            let actual: usize = if i < self.checkpoint.checkpoint.files.len() {
                assert(t.files()[i as int] == self.checkpoint.checkpoint.files@[i as int]@);
                self.checkpoint.checkpoint.files[i].completed_chunks.len()
            } else {
                0
            };
            assert(t.done_count(i as int) == actual);
            if (actual as u128) < expected as u128 {
                return false;
            }
            i += 1;
        }
        true
    }

    /// Marks the task as completed if every file is done.
    pub fn mark_completed_if_drained(&mut self, now: u128)
        ensures
            final(self)@ == old(self)@.marked(now),
    {
        if self.is_all_done() && self.state != TaskState::Completed {
            self.complete(now);
        }
    }

    /// Marks the task as completed.
    pub fn complete(&mut self, now: u128)
        ensures
            final(self)@ == old(self)@.completed(now),
    {
        let record = make_task_record(
            now,
            LogLevel::Info,
            LogScope::Audit,
            "task completed",
            self.config.task_id.as_str(),
        );
        self.enter(TaskState::Completed);
        self.push_log(record);
    }
}

/// A copy of a list of items.
pub fn copy_items(v: &Vec<TransferItem>) -> (r: Vec<TransferItem>)
    ensures
        models::item_views(r@) == models::item_views(v@),
{
    let ghost all = models::item_views(v@);
    let mut out: Vec<TransferItem> = Vec::new();
    let mut i: usize = 0;
    assert(models::item_views(out@) =~= all.take(0));
    while i < v.len()
        invariant
            i <= v.len(),
            all == models::item_views(v@),
            models::item_views(out@) == all.take(i as int),
        decreases v.len() - i,
    {
        let ghost before = models::item_views(out@);
        let item = v[i].clone();
        out.push(item);
        assert(models::item_views(out@) =~= before.push(item@));
        assert(models::item_views(out@) =~= all.take(i + 1));
        i += 1;
    }
    assert(all.take(all.len() as int) =~= all);
    out
}

fn mark_chunk(file: &mut FileCheckpoint, index: u32, lane: LaneAssignment)
    ensures
        final(file)@ == file_with_chunk(old(file)@, index, lane),
{
    broadcast use vstd::std_specs::btree::group_btree_axioms;

    file.completed_chunks.push(index);
    let sorted = sort_indices(&file.completed_chunks);
    file.completed_chunks = sorted;
    file.completed_chunk_lanes.insert(index, lane);
}

/// How many chunks a file has.
pub fn count_chunks(size: u64, chunk_size: u64) -> (r: u64)
    ensures
        r == models::chunk_count(size, chunk_size),
{
    if size == 0 {
        1
    } else if chunk_size == 0 {
        size
    } else {
        let q: u64 = (size - 1) / chunk_size;
        assert(q <= size - 1) by (nonlinear_arith)
            requires
                q == (size - 1) / chunk_size as int,
                chunk_size > 0,
                size > 0,
        ;
        q + 1
    }
}

/// The lane a finished chunk is counted to where none is noted.
pub open spec fn lane_of(
    mode: TransportMode,
    lanes: Map<u32, LaneAssignment>,
    index: u32,
) -> LaneAssignment {
    if lanes.contains_key(index) {
        lanes[index]
    } else {
        match mode {
            TransportMode::AdbOnly => LaneAssignment::Adb,
            TransportMode::WifiOnly => LaneAssignment::Wifi,
            TransportMode::Dual => if index % 2 == 0 {
                LaneAssignment::Adb
            } else {
                LaneAssignment::Wifi
            },
        }
    }
}

/// The numbers with one finished chunk of a file counted, if the file has that chunk.
pub open spec fn credited(
    m: MetricsView,
    config: TaskConfigView,
    f: FileCheckpointView,
    index: u32,
) -> MetricsView {
    if index < models::chunk_count(f.size_bytes, config.chunk_size_bytes) {
        m.plus(
            models::chunk_at(0, f.size_bytes, config.chunk_size_bytes, index as int).length as nat,
            lane_of(config.transport_mode, f.completed_chunk_lanes, index),
        )
    } else {
        m
    }
}

/// The numbers with finished chunks of a file counted.
pub open spec fn credited_all(
    m: MetricsView,
    config: TaskConfigView,
    f: FileCheckpointView,
    indices: Seq<u32>,
) -> MetricsView
    decreases indices.len(),
{
    if indices.len() == 0 {
        m
    } else {
        credited(credited_all(m, config, f, indices.drop_last()), config, f, indices.last())
    }
}

/// How far a task has come, by its checkpoint.
pub open spec fn rebuilt(config: TaskConfigView, files: Seq<FileCheckpointView>) -> MetricsView
    decreases files.len(),
{
    if files.len() == 0 {
        MetricsView { total: 0, committed: 0, adb: 0, wifi: 0, chunks: 0 }
    } else {
        let f = files.last();
        let m = rebuilt(config, files.drop_last());
        credited_all(
            MetricsView { total: m.total + f.size_bytes as nat, ..m },
            config,
            f,
            f.completed_chunks,
        )
    }
}

/// The item of a file in a checkpoint.
pub open spec fn item_of_file(f: FileCheckpointView) -> TransferItemView {
    TransferItemView {
        relative_path: f.relative_path,
        size_bytes: f.size_bytes,
        modified_at_epoch_ms: f.modified_at_epoch_ms,
        fingerprint: match f.fingerprint_hex {
            Some(hex_digest) => Some(
                FileFingerprintView { algorithm: "size-mtime"@, hex_digest },
            ),
            None => None,
        },
    }
}

/// The state in which a task comes back.
pub open spec fn resumed_state(state: TaskState) -> TaskState {
    match state {
        TaskState::Completed => TaskState::Completed,
        TaskState::Cancelled => TaskState::Cancelled,
        _ => TaskState::Paused,
    }
}

/// The task that a checkpoint stands for.
pub open spec fn recovered_task(
    entry: CheckpointEntryView,
    task_id: Seq<char>,
    now: u128,
) -> TaskView {
    let files = entry.checkpoint.files;
    let items = files.map_values(|f: FileCheckpointView| item_of_file(f));
    TaskView {
        config: entry.config,
        items,
        scheduler: scheduler::planned(
            entry.config.transport_mode,
            entry.config.chunk_size_bytes,
            entry.config.small_file_threshold_bytes,
            item_sizes(items),
            files.map_values(|f: FileCheckpointView| f.completed_chunks),
            items.len(),
        ),
        checkpoint: entry,
        metrics: rebuilt(entry.config, files),
        state: resumed_state(entry.checkpoint.state),
        last_error: None,
        log_cursor: 0,
        logs: seq![
            task_record(
                now,
                LogLevel::Info,
                LogScope::Audit,
                "task recovered from checkpoint"@,
                task_id,
            ),
        ],
    }.stamped(now)
}

/// Whether the numbers of a recovered task fit 64 bits.
pub open spec fn recovery_fits(entry: CheckpointEntryView) -> bool {
    let m = rebuilt(entry.config, entry.checkpoint.files);
    m.fits() && m.total <= u64::MAX
}

proof fn lemma_credit_grows(
    m: MetricsView,
    config: TaskConfigView,
    f: FileCheckpointView,
    indices: Seq<u32>,
    i: int,
)
    requires
        0 <= i <= indices.len(),
    ensures
        ({
            let a = credited_all(m, config, f, indices.take(i));
            let b = credited_all(m, config, f, indices);
            a.total == b.total && a.committed <= b.committed && a.chunks <= b.chunks && (a.adb
                + a.wifi == a.committed ==> b.adb + b.wifi == b.committed)
        }),
    decreases indices.len() - i,
{
    if i == indices.len() {
        assert(indices.take(i) =~= indices);
    } else {
        assert(indices.take(i + 1).drop_last() =~= indices.take(i));
        lemma_credit_grows(m, config, f, indices, i + 1);
    }
}

proof fn lemma_rebuilt_grows(config: TaskConfigView, files: Seq<FileCheckpointView>, i: int)
    requires
        0 <= i <= files.len(),
    ensures
        ({
            let a = rebuilt(config, files.take(i));
            let b = rebuilt(config, files);
            a.total <= b.total && a.committed <= b.committed && a.chunks <= b.chunks
        }),
    decreases files.len() - i,
{
    if i == files.len() {
        assert(files.take(i) =~= files);
    } else {
        let next = files.take(i + 1);
        assert(next.drop_last() =~= files.take(i));
        let f = next.last();
        let m = rebuilt(config, files.take(i));
        let start = MetricsView { total: m.total + f.size_bytes as nat, ..m };
        lemma_credit_grows(start, config, f, f.completed_chunks, 0);
        assert(f.completed_chunks.take(0) =~= Seq::<u32>::empty());
        lemma_rebuilt_grows(config, files, i + 1);
    }
}

/// The bytes counted to the lanes make up the bytes counted in all.
pub proof fn lemma_rebuilt_balances(config: TaskConfigView, files: Seq<FileCheckpointView>)
    ensures
        rebuilt(config, files).adb + rebuilt(config, files).wifi == rebuilt(
            config,
            files,
        ).committed,
        rebuilt(config, files).total == total_size(
            files.map_values(|f: FileCheckpointView| item_of_file(f)),
        ),
    decreases files.len(),
{
    let items = files.map_values(|f: FileCheckpointView| item_of_file(f));
    if files.len() > 0 {
        let f = files.last();
        let m = rebuilt(config, files.drop_last());
        lemma_rebuilt_balances(config, files.drop_last());
        let start = MetricsView { total: m.total + f.size_bytes as nat, ..m };
        lemma_credit_grows(start, config, f, f.completed_chunks, 0);
        assert(f.completed_chunks.take(0) =~= Seq::<u32>::empty());
        assert(items.drop_last() =~= files.drop_last().map_values(
            |f: FileCheckpointView| item_of_file(f),
        ));
    }
}

fn add_credit(
    m: &mut EngineMetrics,
    config: &TaskConfig,
    f: &FileCheckpoint,
    index: u32,
) -> (r: bool)
    requires
        old(m)@.adb + old(m)@.wifi == old(m)@.committed,
    ensures
        r == credited(old(m)@, config@, f@, index).fits(),
        r ==> final(m)@ == credited(old(m)@, config@, f@, index),
        r ==> final(m)@.adb + final(m)@.wifi == final(m)@.committed,
{
    broadcast use vstd::std_specs::btree::group_btree_axioms;

    let count: u64 = count_chunks(f.size_bytes, config.chunk_size_bytes);
    if index as u64 >= count {
        return true;
    }
    let length: u64 = chunk_length(f.size_bytes, config.chunk_size_bytes, index as u64);
    let lane = match f.completed_chunk_lanes.get(&index) {
        Some(l) => *l,
        None => match config.transport_mode {
            TransportMode::AdbOnly => LaneAssignment::Adb,
            TransportMode::WifiOnly => LaneAssignment::Wifi,
            TransportMode::Dual => if index % 2 == 0 {
                LaneAssignment::Adb
            } else {
                LaneAssignment::Wifi
            },
        },
    };
    assert(lane == lane_of(config.transport_mode, f@.completed_chunk_lanes, index));
    if m.committed_bytes > u64::MAX - length || m.completed_chunks == u64::MAX {
        return false;
    }
    m.committed_bytes = m.committed_bytes + length;
    m.completed_chunks = m.completed_chunks + 1;
    match lane {
        LaneAssignment::Adb => {
            m.adb_bytes = m.adb_bytes + length;
        },
        LaneAssignment::Wifi => {
            m.wifi_bytes = m.wifi_bytes + length;
        },
    }
    true
}

/// The length of a chunk of a file.
pub fn chunk_length(size: u64, chunk_size: u64, k: u64) -> (r: u64)
    requires
        k < models::chunk_count(size, chunk_size),
    ensures
        r == models::chunk_at(0, size, chunk_size, k as int).length,
{
    let step: u64 = if chunk_size == 0 {
        1
    } else {
        chunk_size
    };
    proof {
        models::lemma_chunks_cover_file(0, size, chunk_size);
        models::lemma_chunk_bounds(size, chunk_size, k as int);
    }
    let rest: u64 = size - k * step;
    if rest < step {
        rest
    } else {
        step
    }
}

/// How far a task has come, by its checkpoint, if the numbers fit 64 bits.
pub fn rebuild_metrics(config: &TaskConfig, files: &Vec<FileCheckpoint>) -> (r: Option<
    EngineMetrics,
>)
    ensures
        r is Some <==> ({
            let m = rebuilt(config@, checkpoint::file_views(files@));
            m.fits() && m.total <= u64::MAX
        }),
        r is Some ==> r->0@ == rebuilt(config@, checkpoint::file_views(files@)),
        r is Some ==> r->0@.adb + r->0@.wifi == r->0@.committed,
{
    let ghost all = checkpoint::file_views(files@);
    let mut m = EngineMetrics {
        total_bytes: 0,
        committed_bytes: 0,
        adb_bytes: 0,
        wifi_bytes: 0,
        completed_chunks: 0,
    };
    let mut i: usize = 0;
    while i < files.len()
        invariant
            i <= files.len(),
            all == checkpoint::file_views(files@),
            m@ == rebuilt(config@, all.take(i as int)),
            m@.adb + m@.wifi == m@.committed,
        decreases files.len() - i,
    {
        let f = &files[i];
        let ghost next = all.take(i + 1);
        assert(next.drop_last() =~= all.take(i as int));
        assert(next.last() == f@);
        let ghost before = m@;
        proof {
            lemma_rebuilt_grows(config@, all, i + 1);
        }
        let ghost start = MetricsView { total: before.total + f.size_bytes as nat, ..before };
        match m.total_bytes.checked_add(f.size_bytes) {
            Some(t) => {
                m.total_bytes = t;
            },
            None => {
                proof {
                    lemma_credit_grows(start, config@, f@, f@.completed_chunks, 0);
                    assert(f@.completed_chunks.take(0) =~= Seq::<u32>::empty());
                }
                return None;
            },
        }
        let ghost indices = f@.completed_chunks;
        let mut j: usize = 0;
        assert(indices.take(0) =~= Seq::<u32>::empty());
        while j < f.completed_chunks.len()
            invariant
                j <= f.completed_chunks.len(),
                indices == f.completed_chunks@,
                indices == f@.completed_chunks,
                i < files.len(),
                all == checkpoint::file_views(files@),
                rebuilt(config@, all.take(i + 1)) == credited_all(start, config@, f@, indices),
                rebuilt(config@, all.take(i + 1)).committed <= rebuilt(config@, all).committed,
                rebuilt(config@, all.take(i + 1)).chunks <= rebuilt(config@, all).chunks,
                m@ == credited_all(start, config@, f@, indices.take(j as int)),
                m@.adb + m@.wifi == m@.committed,
            decreases f.completed_chunks.len() - j,
        {
            assert(indices.take(j + 1).drop_last() =~= indices.take(j as int));
            if !add_credit(&mut m, config, f, f.completed_chunks[j]) {
                proof {
                    lemma_credit_grows(start, config@, f@, indices, j + 1);
                }
                return None;
            }
            j += 1;
        }
        assert(indices.take(indices.len() as int) =~= indices);
        i += 1;
    }
    assert(all.take(all.len() as int) =~= all);
    Some(m)
}

fn items_of_files(files: &Vec<FileCheckpoint>) -> (r: Vec<TransferItem>)
    ensures
        models::item_views(r@) == checkpoint::file_views(files@).map_values(
            |f: FileCheckpointView| item_of_file(f),
        ),
{
    let ghost all = checkpoint::file_views(files@).map_values(
        |f: FileCheckpointView| item_of_file(f),
    );
    let mut out: Vec<TransferItem> = Vec::new();
    let mut i: usize = 0;
    assert(models::item_views(out@) =~= all.take(0));
    while i < files.len()
        invariant
            i <= files.len(),
            all == checkpoint::file_views(files@).map_values(
                |f: FileCheckpointView| item_of_file(f),
            ),
            models::item_views(out@) == all.take(i as int),
        decreases files.len() - i,
    {
        let f = &files[i];
        let ghost before = models::item_views(out@);
        let item = TransferItem {
            relative_path: f.relative_path.clone(),
            size_bytes: f.size_bytes,
            modified_at_epoch_ms: f.modified_at_epoch_ms,
            fingerprint: match &f.fingerprint_hex {
                Some(hex_digest) => Some(
                    FileFingerprint { algorithm: "size-mtime", hex_digest: hex_digest.clone() },
                ),
                None => None,
            },
        };
        assert(item@ =~= item_of_file(f@));
        out.push(item);
        assert(models::item_views(out@) =~= before.push(item@));
        assert(models::item_views(out@) =~= all.take(i + 1));
        i += 1;
    }
    assert(all.take(all.len() as int) =~= all);
    out
}

fn completed_of_files(files: &Vec<FileCheckpoint>) -> (r: Vec<Vec<u32>>)
    ensures
        scheduler::index_lists(r@) == checkpoint::file_views(files@).map_values(
            |f: FileCheckpointView| f.completed_chunks,
        ),
{
    let ghost all = checkpoint::file_views(files@).map_values(
        |f: FileCheckpointView| f.completed_chunks,
    );
    let mut out: Vec<Vec<u32>> = Vec::new();
    let mut i: usize = 0;
    assert(scheduler::index_lists(out@) =~= all.take(0));
    while i < files.len()
        invariant
            i <= files.len(),
            all == checkpoint::file_views(files@).map_values(
                |f: FileCheckpointView| f.completed_chunks,
            ),
            scheduler::index_lists(out@) == all.take(i as int),
        decreases files.len() - i,
    {
        let ghost before = scheduler::index_lists(out@);
        let list = checkpoint::copy_indices(&files[i].completed_chunks);
        out.push(list);
        assert(scheduler::index_lists(out@) =~= before.push(list@));
        assert(scheduler::index_lists(out@) =~= all.take(i + 1));
        i += 1;
    }
    assert(all.take(all.len() as int) =~= all);
    out
}

impl EngineTask {
    /// The task that a checkpoint stands for.
    pub fn recovered(entry: CheckpointEntry, task_id: &str, now: u128) -> (r: EngineTask)
        requires
            recovery_fits(entry@),
        ensures
            r@ == recovered_task(entry@, task_id@, now),
            r@.wf(),
    {
        let items = items_of_files(&entry.checkpoint.files);
        let completed = completed_of_files(&entry.checkpoint.files);
        let scheduler = Scheduler::new_with_completed(
            &entry.config,
            items.as_slice(),
            completed.as_slice(),
        );
        assert(scheduler::sizes_of(items@) =~= item_sizes(models::item_views(items@)));
        let metrics = match rebuild_metrics(&entry.config, &entry.checkpoint.files) {
            Some(m) => m,
            None => EngineMetrics {
                total_bytes: 0,
                committed_bytes: 0,
                adb_bytes: 0,
                wifi_bytes: 0,
                completed_chunks: 0,
            },
        };
        proof {
            lemma_rebuilt_balances(entry@.config, entry@.checkpoint.files);
        }
        let state = match entry.checkpoint.state {
            TaskState::Completed => TaskState::Completed,
            TaskState::Cancelled => TaskState::Cancelled,
            _ => TaskState::Paused,
        };
        let record = make_task_record(
            now,
            LogLevel::Info,
            LogScope::Audit,
            "task recovered from checkpoint",
            task_id,
        );
        let mut logs: Vec<LogRecord> = Vec::new();
        logs.push(record);
        assert(logging::record_views(logs@) =~= seq![record@]);
        let mut task = EngineTask {
            config: entry.config.clone(),
            items,
            scheduler,
            checkpoint: entry,
            metrics,
            state,
            last_error: None,
            log_cursor: 0,
            logs,
        };
        task.stamp(now);
        task
    }

    /// Takes up to `steps` leases and commits and completes each at once.
    pub fn run_steps(&mut self, steps: usize, now: u128)
        requires
            old(self)@.wf(),
            old(self)@.stepped(steps as nat, now).0.metrics.fits(),
        ensures
            final(self)@ == old(self)@.stepped(steps as nat, now).0,
            final(self)@.wf(),
    {
        let ghost start = self@;
        let mut step: usize = 0;
        while step < steps
            invariant
                step <= steps,
                start == old(self)@,
                start.stepped(steps as nat, now).0.metrics.fits(),
                start.stepped(step as nat, now) == (self@, true),
                self@.wf(),
            decreases steps - step,
        {
            let preferred_lane = if step % 2 == 0 {
                LaneAssignment::Adb
            } else {
                LaneAssignment::Wifi
            };
            let ghost before = self@;
            let decision = self.scheduler.lease_next(&self.config, preferred_lane);
            proof {
                lemma_steps_grow(start, (step + 1) as nat, steps as nat, now);
            }
            match decision {
                SchedulerDecision::Lease(lease) => {
                    assert(self@ =~= TaskView { scheduler: self.scheduler@, ..before });
                    self.commit_chunk(lease.chunk, lease.lane, false, now);
                    let ghost after = self@;
                    self.scheduler.complete(lease);
                    assert(self@ =~= TaskView {
                        scheduler: after.scheduler.complete(lease.lane),
                        ..after
                    });
                },
                SchedulerDecision::Idle => {
                    assert(self@ =~= before);
                    proof {
                        lemma_steps_stop(start, (step + 1) as nat, steps as nat, now);
                    }
                    return ;
                },
            }
            step += 1;
        }
    }

    /// Commits every chunk of a list.
    pub fn commit_all(
        &mut self,
        chunks: &Vec<ChunkDescriptor>,
        lane: LaneAssignment,
        was_skipped: bool,
        now: u128,
    )
        requires
            old(self)@.wf(),
            old(self)@.committed_all(chunks@, lane, was_skipped, now).metrics.fits(),
        ensures
            final(self)@ == old(self)@.committed_all(chunks@, lane, was_skipped, now),
            final(self)@.wf(),
    {
        let ghost start = self@;
        let mut i: usize = 0;
        assert(chunks@.take(0) =~= Seq::<ChunkDescriptor>::empty());
        while i < chunks.len()
            invariant
                i <= chunks.len(),
                start == old(self)@,
                start.committed_all(chunks@, lane, was_skipped, now).metrics.fits(),
                self@ == start.committed_all(chunks@.take(i as int), lane, was_skipped, now),
                self@.wf(),
            decreases chunks.len() - i,
        {
            assert(chunks@.take(i + 1).drop_last() =~= chunks@.take(i as int));
            proof {
                lemma_commits_grow(start, chunks@, i + 1, lane, was_skipped, now);
            }
            self.commit_chunk(chunks[i], lane, was_skipped, now);
            i += 1;
        }
        assert(chunks@.take(chunks@.len() as int) =~= chunks@);
    }
}

proof fn lemma_commits_grow(
    t: TaskView,
    chunks: Seq<ChunkDescriptor>,
    i: int,
    lane: LaneAssignment,
    was_skipped: bool,
    now: u128,
)
    requires
        0 <= i <= chunks.len(),
    ensures
        t.committed_all(chunks.take(i), lane, was_skipped, now).metrics.committed
            <= t.committed_all(chunks, lane, was_skipped, now).metrics.committed,
        t.committed_all(chunks.take(i), lane, was_skipped, now).metrics.chunks <= t.committed_all(
            chunks,
            lane,
            was_skipped,
            now,
        ).metrics.chunks,
    decreases chunks.len() - i,
{
    if i == chunks.len() {
        assert(chunks.take(i) =~= chunks);
    } else {
        assert(chunks.take(i + 1).drop_last() =~= chunks.take(i));
        lemma_commits_grow(t, chunks, i + 1, lane, was_skipped, now);
    }
}

proof fn lemma_steps_grow(t: TaskView, i: nat, n: nat, now: u128)
    requires
        i <= n,
    ensures
        t.stepped(i, now).0.metrics.committed <= t.stepped(n, now).0.metrics.committed,
        t.stepped(i, now).0.metrics.chunks <= t.stepped(n, now).0.metrics.chunks,
    decreases n,
{
    if i < n {
        lemma_steps_grow(t, i, (n - 1) as nat, now);
    }
}

proof fn lemma_steps_stop(t: TaskView, i: nat, n: nat, now: u128)
    requires
        i <= n,
        !t.stepped(i, now).1,
    ensures
        t.stepped(n, now) == t.stepped(i, now),
    decreases n,
{
    if i < n {
        lemma_steps_stop(t, i, (n - 1) as nat, now);
    }
}

/// The bytes of a list of chunks.
pub open spec fn bytes_of(chunks: Seq<ChunkDescriptor>) -> nat
    decreases chunks.len(),
{
    if chunks.len() == 0 {
        0
    } else {
        bytes_of(chunks.drop_first()) + chunks[0].length as nat
    }
}

/// Whether the numbers still fit once every waiting chunk is committed.
pub open spec fn waiting_fits(t: TaskView) -> bool {
    &&& t.metrics.committed + bytes_of(t.scheduler.adb) + bytes_of(t.scheduler.wifi) <= u64::MAX
    &&& t.metrics.chunks + t.scheduler.adb.len() + t.scheduler.wifi.len() <= u64::MAX
}

impl EngineTask {
    /// Whether the numbers still fit once every waiting chunk is committed.
    pub fn waiting_would_fit(&self) -> (r: bool)
        ensures
            r == waiting_fits(self@),
    {
        let count: u128 = self.metrics.completed_chunks as u128 + self.scheduler.waiting_count();
        match self.scheduler.waiting_bytes() {
            Some(bytes) => self.metrics.committed_bytes <= u64::MAX - bytes && count
                <= u64::MAX as u128,
            None => false,
        }
    }
}

/// Where the numbers fit once every waiting chunk is committed, they fit after any number of
/// steps.
pub proof fn lemma_steps_fit(t: TaskView, steps: nat, now: u128)
    requires
        waiting_fits(t),
    ensures
        waiting_fits(t.stepped(steps, now).0),
        t.stepped(steps, now).0.metrics.fits(),
    decreases steps,
{
    if steps > 0 {
        lemma_steps_fit(t, (steps - 1) as nat, now);
    }
}

} // verus!
