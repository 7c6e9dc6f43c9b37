//! What holds of a scheduler over all that is asked of it.

use crate::models;
use crate::models::{ChunkDescriptor, TransportMode};
use crate::scheduler;
use crate::scheduler::{ChunkLease, LaneAssignment, SchedulerDecision, SchedulerView};
use vstd::multiset::Multiset;
use vstd::prelude::*;

verus! {

/// What is asked of a scheduler.
pub enum SchedulerCall {
    Lease { limit: usize, preferred: LaneAssignment },
    Complete(ChunkLease),
}

/// A scheduler, the chunks that it has leased, and those of each lane that are not completed.
pub struct SchedulerHistory {
    pub scheduler: SchedulerView,
    pub leased: Multiset<ChunkDescriptor>,
    pub open_adb: Multiset<ChunkDescriptor>,
    pub open_wifi: Multiset<ChunkDescriptor>,
}

impl SchedulerHistory {
    /// The leased chunks of a lane that are not completed.
    pub open spec fn open_on(self, lane: LaneAssignment) -> Multiset<ChunkDescriptor> {
        match lane {
            LaneAssignment::Adb => self.open_adb,
            LaneAssignment::Wifi => self.open_wifi,
        }
    }

    /// Whether a lease is completed that was issued, and no more often than it was.
    pub open spec fn allows(self, call: SchedulerCall) -> bool {
        match call {
            SchedulerCall::Lease { .. } => true,
            SchedulerCall::Complete(lease) => self.open_on(lease.lane).count(lease.chunk) > 0,
        }
    }

    /// What follows what is asked.
    pub open spec fn after(self, call: SchedulerCall) -> SchedulerHistory {
        match call {
            SchedulerCall::Lease { limit, preferred } => match self.scheduler.lease_next(
                limit,
                preferred,
            ) {
                (SchedulerDecision::Idle, s) => SchedulerHistory { scheduler: s, ..self },
                (SchedulerDecision::Lease(lease), s) => {
                    let leased = self.leased.insert(lease.chunk);
                    match lease.lane {
                        LaneAssignment::Adb => SchedulerHistory {
                            scheduler: s,
                            leased,
                            open_adb: self.open_adb.insert(lease.chunk),
                            ..self
                        },
                        LaneAssignment::Wifi => SchedulerHistory {
                            scheduler: s,
                            leased,
                            open_wifi: self.open_wifi.insert(lease.chunk),
                            ..self
                        },
                    }
                },
            },
            SchedulerCall::Complete(lease) => {
                let s = self.scheduler.complete(lease.lane);
                match lease.lane {
                    LaneAssignment::Adb => SchedulerHistory {
                        scheduler: s,
                        open_adb: self.open_adb.remove(lease.chunk),
                        ..self
                    },
                    LaneAssignment::Wifi => SchedulerHistory {
                        scheduler: s,
                        open_wifi: self.open_wifi.remove(lease.chunk),
                        ..self
                    },
                }
            },
        }
    }

    /// What follows all that is asked, in order.
    pub open spec fn after_all(self, calls: Seq<SchedulerCall>) -> SchedulerHistory
        decreases calls.len(),
    {
        if calls.len() == 0 {
            self
        } else {
            self.after_all(calls.drop_last()).after(calls.last())
        }
    }

    /// Whether each lease that is completed was issued before, and none is completed twice.
    pub open spec fn allows_all(self, calls: Seq<SchedulerCall>) -> bool
        decreases calls.len(),
    {
        calls.len() > 0 ==> self.allows_all(calls.drop_last()) && self.after_all(
            calls.drop_last(),
        ).allows(calls.last())
    }
}

/// A scheduler of which nothing was asked yet.
pub open spec fn untouched(scheduler: SchedulerView) -> SchedulerHistory {
    SchedulerHistory {
        scheduler,
        leased: Multiset::empty(),
        open_adb: Multiset::empty(),
        open_wifi: Multiset::empty(),
    }
}

spec fn balances(h: SchedulerHistory, all: Multiset<ChunkDescriptor>) -> bool {
    &&& h.scheduler.waiting().add(h.leased) == all
    &&& h.scheduler.adb_inflight == h.open_adb.len()
    &&& h.scheduler.wifi_inflight == h.open_wifi.len()
}

proof fn lemma_stays_balanced(h: SchedulerHistory, all: Multiset<ChunkDescriptor>, call: SchedulerCall)
    requires
        balances(h, all),
        h.allows(call),
    ensures
        balances(h.after(call), all),
{
    broadcast use vstd::multiset::group_multiset_properties;

    let after = h.after(call);
    match call {
        SchedulerCall::Lease { limit, preferred } => {
            scheduler::lemma_lease_takes_one(h.scheduler, limit, preferred);
        },
        SchedulerCall::Complete(lease) => {
            assert(h.open_on(lease.lane).remove(lease.chunk).len() == h.open_on(lease.lane).len()
                - 1);
            assert(after.scheduler.waiting() == h.scheduler.waiting());
        },
    }
    assert(after.scheduler.waiting().add(after.leased) =~= all);
}

proof fn lemma_all_stay_balanced(
    h: SchedulerHistory,
    all: Multiset<ChunkDescriptor>,
    calls: Seq<SchedulerCall>,
)
    requires
        balances(h, all),
        h.allows_all(calls),
    ensures
        balances(h.after_all(calls), all),
    decreases calls.len(),
{
    if calls.len() > 0 {
        lemma_all_stay_balanced(h, all, calls.drop_last());
        lemma_stays_balanced(h.after_all(calls.drop_last()), all, calls.last());
    }
}

/// Whatever is asked of a scheduler that was made for files, it is drained exactly when every
/// chunk that was not done before was leased and every lease was completed.
pub proof fn lemma_drained_when_all_is_completed(
    mode: TransportMode,
    chunk_size: u64,
    threshold: u64,
    sizes: Seq<u64>,
    completed: Seq<Seq<u32>>,
    n: nat,
    calls: Seq<SchedulerCall>,
)
    requires
        untouched(
            scheduler::planned(mode, chunk_size, threshold, sizes, completed, n),
        ).allows_all(calls),
    ensures
        ({
            let h = untouched(
                scheduler::planned(mode, chunk_size, threshold, sizes, completed, n),
            ).after_all(calls);
            h.scheduler.drained() <==> {
                &&& h.leased == scheduler::all_pending(chunk_size, sizes, completed, n)
                &&& h.open_adb == Multiset::<ChunkDescriptor>::empty()
                &&& h.open_wifi == Multiset::<ChunkDescriptor>::empty()
            }
        }),
{
    broadcast use vstd::seq_lib::group_to_multiset_ensures;

    let start = untouched(scheduler::planned(mode, chunk_size, threshold, sizes, completed, n));
    let all = scheduler::all_pending(chunk_size, sizes, completed, n);
    scheduler::lemma_every_pending_chunk_waits_once(
        mode,
        chunk_size,
        threshold,
        sizes,
        completed,
        n,
    );
    lemma_planned_is_idle(mode, chunk_size, threshold, sizes, completed, n);
    assert(start.scheduler.waiting().add(start.leased) =~= all);
    lemma_all_stay_balanced(start, all, calls);
    let h = start.after_all(calls);
    let s = h.scheduler;
    if s.adb.len() == 0 && s.wifi.len() == 0 {
        assert(s.adb.to_multiset() =~= Multiset::empty());
        assert(s.wifi.to_multiset() =~= Multiset::empty());
        assert(h.leased =~= all);
    }
    if h.leased == all {
        if s.adb.len() > 0 {
            assert(s.adb.contains(s.adb[0]));
            assert(s.waiting().add(h.leased).count(s.adb[0]) > all.count(s.adb[0]));
        }
        if s.wifi.len() > 0 {
            assert(s.wifi.contains(s.wifi[0]));
            assert(s.waiting().add(h.leased).count(s.wifi[0]) > all.count(s.wifi[0]));
        }
    }
    vstd::multiset::lemma_multiset_empty_len(h.open_adb);
    vstd::multiset::lemma_multiset_empty_len(h.open_wifi);
}

proof fn lemma_planned_is_idle(
    mode: TransportMode,
    chunk_size: u64,
    threshold: u64,
    sizes: Seq<u64>,
    completed: Seq<Seq<u32>>,
    n: nat,
)
    ensures
        scheduler::planned(mode, chunk_size, threshold, sizes, completed, n).adb_inflight == 0,
        scheduler::planned(mode, chunk_size, threshold, sizes, completed, n).wifi_inflight == 0,
    decreases n,
{
    if n > 0 {
        lemma_planned_is_idle(mode, chunk_size, threshold, sizes, completed, (n - 1) as nat);
    }
}

/// All chunks of the first files.
pub open spec fn all_chunks(chunk_size: u64, sizes: Seq<u64>, n: nat) -> Multiset<ChunkDescriptor>
    decreases n,
{
    if n == 0 {
        Multiset::empty()
    } else {
        all_chunks(chunk_size, sizes, (n - 1) as nat).add(
            models::chunks_of((n - 1) as usize, sizes[n - 1], chunk_size).to_multiset(),
        )
    }
}

/// Where no chunk is done before, what is not done are all chunks of the files, and there is one
/// at least as soon as there is a file.
pub proof fn lemma_nothing_done_leaves_all(chunk_size: u64, sizes: Seq<u64>, n: nat)
    ensures
        scheduler::all_pending(chunk_size, sizes, Seq::empty(), n) == all_chunks(
            chunk_size,
            sizes,
            n,
        ),
        all_chunks(chunk_size, sizes, n) == Multiset::<ChunkDescriptor>::empty() <==> n == 0,
    decreases n,
{
    broadcast use vstd::seq_lib::group_to_multiset_ensures;

    if n > 0 {
        let m = (n - 1) as nat;
        lemma_nothing_done_leaves_all(chunk_size, sizes, m);
        let chunks = models::chunks_of(m as usize, sizes[m as int], chunk_size);
        let keep = |c: ChunkDescriptor| !Seq::<u32>::empty().contains(c.chunk_index);
        lemma_filter_keeps_all(chunks, keep);
        models::lemma_chunks_cover_file(m as usize, sizes[m as int], chunk_size);
        assert(chunks.contains(chunks[0]));
        assert(chunks.to_multiset().count(chunks[0]) > 0);
        assert(all_chunks(chunk_size, sizes, n).count(chunks[0]) > 0);
    }
}

proof fn lemma_filter_keeps_all(s: Seq<ChunkDescriptor>, keep: spec_fn(ChunkDescriptor) -> bool)
    requires
        forall|c: ChunkDescriptor| #[trigger] keep(c),
    ensures
        s.filter(keep) == s,
    decreases s.len(),
{
    reveal(Seq::filter);
    if s.len() > 0 {
        lemma_filter_keeps_all(s.drop_last(), keep);
        assert(keep(s.last()));
        assert(s.drop_last().push(s.last()) =~= s);
    } else {
        assert(s.filter(keep) =~= s);
    }
}

/// A scheduler that was just made for files none of which has chunks done is drained exactly when
/// there are no files.
pub proof fn lemma_fresh_scheduler_is_drained_without_files(
    mode: TransportMode,
    chunk_size: u64,
    threshold: u64,
    sizes: Seq<u64>,
    n: nat,
)
    ensures
        scheduler::planned(mode, chunk_size, threshold, sizes, Seq::empty(), n).drained() <==> n
            == 0,
{
    let none = Seq::<SchedulerCall>::empty();
    lemma_drained_when_all_is_completed(
        mode,
        chunk_size,
        threshold,
        sizes,
        Seq::empty(),
        n,
        none,
    );
    lemma_nothing_done_leaves_all(chunk_size, sizes, n);
}

proof fn lemma_filter_adds_none(
    s: Seq<ChunkDescriptor>,
    keep: spec_fn(ChunkDescriptor) -> bool,
    c: ChunkDescriptor,
)
    ensures
        s.filter(keep).to_multiset().count(c) <= s.to_multiset().count(c),
    decreases s.len(),
{
    broadcast use vstd::seq_lib::group_to_multiset_ensures;

    reveal(Seq::filter);
    if s.len() > 0 {
        let t = s.drop_last();
        lemma_filter_adds_none(t, keep, c);
        assert(s =~= t.push(s.last()));
        assert(s.to_multiset() =~= t.to_multiset().insert(s.last()));
        if keep(s.last()) {
            assert(s.filter(keep).to_multiset() =~= t.filter(keep).to_multiset().insert(s.last()));
        }
    }
}

/// No chunk of a file comes twice.
proof fn lemma_chunks_differ(file_index: usize, size: u64, chunk_size: u64)
    ensures
        models::chunks_of(file_index, size, chunk_size).no_duplicates(),
{
    let c = models::chunks_of(file_index, size, chunk_size);
    let step = models::chunk_step(chunk_size);
    assert forall|i: int, j: int| 0 <= i < c.len() && 0 <= j < c.len() && i != j implies c[i]
        != c[j] by {
        models::lemma_chunk_bounds(size, chunk_size, i);
        models::lemma_chunk_bounds(size, chunk_size, j);
        assert(i * step != j * step) by (nonlinear_arith)
            requires
                i != j,
                step > 0,
        ;
    }
}

/// No chunk waits twice in a scheduler that was just made.
pub proof fn lemma_planned_waits_once(
    mode: TransportMode,
    chunk_size: u64,
    threshold: u64,
    sizes: Seq<u64>,
    completed: Seq<Seq<u32>>,
    n: nat,
    chunk: ChunkDescriptor,
)
    requires
        n <= usize::MAX,
    ensures
        scheduler::planned(mode, chunk_size, threshold, sizes, completed, n).waiting().count(chunk)
            <= 1,
{
    scheduler::lemma_every_pending_chunk_waits_once(
        mode,
        chunk_size,
        threshold,
        sizes,
        completed,
        n,
    );
    lemma_pending_once(chunk_size, sizes, completed, n, chunk);
}

proof fn lemma_pending_once(
    chunk_size: u64,
    sizes: Seq<u64>,
    completed: Seq<Seq<u32>>,
    n: nat,
    chunk: ChunkDescriptor,
)
    requires
        n <= usize::MAX,
    ensures
        scheduler::all_pending(chunk_size, sizes, completed, n).count(chunk) <= 1,
        chunk.file_index >= n ==> scheduler::all_pending(
            chunk_size,
            sizes,
            completed,
            n,
        ).count(chunk) == 0,
    decreases n,
{
    broadcast use vstd::seq_lib::group_to_multiset_ensures;

    if n > 0 {
        let m = (n - 1) as nat;
        lemma_pending_once(chunk_size, sizes, completed, m, chunk);
        let chunks = models::chunks_of(m as usize, sizes[m as int], chunk_size);
        let done = scheduler::done_of(completed, m as int);
        let keep = |c: ChunkDescriptor| !done.contains(c.chunk_index);
        let own = scheduler::pending_of(chunk_size, sizes, completed, m as int);
        assert(own == chunks.filter(keep));
        lemma_filter_adds_none(chunks, keep, chunk);
        lemma_chunks_differ(m as usize, sizes[m as int], chunk_size);
        chunks.lemma_multiset_has_no_duplicates();
        if chunk.file_index != m {
            assert(!chunks.contains(chunk));
            assert(chunks.to_multiset().count(chunk) == 0);
        }
    }
}

/// A lease is the chunk that waits longest on its lane. The preferred lane comes first as long as it has room
/// under the limit and something waits on it; while it has room and nothing waits on it the other lane
/// helps out, and so it does, the other way round, where only the other lane has room. Nothing is leased
/// where neither lane has room, or nothing waits at all.
pub proof fn lemma_lease_is_the_oldest_chunk_of_the_lane(
    v: SchedulerView,
    limit: usize,
    preferred: LaneAssignment,
)
    ensures
        ({
            let (queue, fallback, used, spare, rest) = match preferred {
                LaneAssignment::Adb => (
                    v.adb,
                    v.wifi,
                    v.adb_inflight,
                    v.wifi_inflight,
                    LaneAssignment::Wifi,
                ),
                LaneAssignment::Wifi => (
                    v.wifi,
                    v.adb,
                    v.wifi_inflight,
                    v.adb_inflight,
                    LaneAssignment::Adb,
                ),
            };
            let (decision, u) = v.lease_next(limit, preferred);
            let own = SchedulerDecision::Lease(ChunkLease { lane: preferred, chunk: queue[0] });
            let lent = SchedulerDecision::Lease(ChunkLease { lane: rest, chunk: fallback[0] });
            &&& used < limit && queue.len() > 0 ==> decision == own
            &&& used < limit && queue.len() == 0 && fallback.len() > 0 ==> decision == lent
            &&& used >= limit && spare < limit && fallback.len() > 0 ==> decision == lent
            &&& used >= limit && spare < limit && fallback.len() == 0 && queue.len() > 0
                ==> decision == own
            &&& used >= limit && spare >= limit ==> decision == SchedulerDecision::Idle
            &&& queue.len() == 0 && fallback.len() == 0 ==> decision == SchedulerDecision::Idle
            &&& decision matches SchedulerDecision::Lease(lease) ==> match lease.lane {
                LaneAssignment::Adb => u.adb == v.adb.skip(1) && u.wifi == v.wifi
                    && u.adb_inflight == v.adb_inflight + 1 && u.wifi_inflight == v.wifi_inflight,
                LaneAssignment::Wifi => u.wifi == v.wifi.skip(1) && u.adb == v.adb
                    && u.wifi_inflight == v.wifi_inflight + 1 && u.adb_inflight == v.adb_inflight,
            }
            &&& decision == SchedulerDecision::Idle ==> u == v
        }),
{
    if v.adb.len() > 0 {
        assert(v.adb.drop_first() =~= v.adb.skip(1));
    }
    if v.wifi.len() > 0 {
        assert(v.wifi.drop_first() =~= v.wifi.skip(1));
    }
}

/// A completed lease leaves one chunk fewer under way on its lane, and never fewer than none; nothing else
/// changes.
pub proof fn lemma_completion_frees_one_place(v: SchedulerView)
    ensures
        ({
            let a = v.complete(LaneAssignment::Adb);
            let w = v.complete(LaneAssignment::Wifi);
            &&& v.adb_inflight > 0 ==> a.adb_inflight == v.adb_inflight - 1
            &&& v.adb_inflight == 0 ==> a.adb_inflight == 0
            &&& v.wifi_inflight > 0 ==> w.wifi_inflight == v.wifi_inflight - 1
            &&& v.wifi_inflight == 0 ==> w.wifi_inflight == 0
            &&& a.wifi_inflight == v.wifi_inflight && w.adb_inflight == v.adb_inflight
            &&& a.adb == v.adb && a.wifi == v.wifi && w.adb == v.adb && w.wifi == v.wifi
        }),
{
}

/// Whether chunks of one more file stand behind those of a queue.
pub open spec fn stands_behind(
    after: Seq<ChunkDescriptor>,
    before: Seq<ChunkDescriptor>,
    more: Seq<ChunkDescriptor>,
) -> bool {
    &&& after.len() == before.len() + more.len()
    &&& after.take(before.len() as int) == before
    &&& after.skip(before.len() as int) == more
}

/// How many of the first files are small.
pub open spec fn small_files(sizes: Seq<u64>, threshold: u64, n: nat) -> nat
    decreases n,
{
    if n == 0 {
        0
    } else {
        small_files(sizes, threshold, (n - 1) as nat) + (if sizes[n - 1] < threshold {
            1nat
        } else {
            0
        })
    }
}

/// With one lane all open chunks of a file stand behind those of the files before it. With two, those of a
/// file of at least the threshold go to the lanes by turns, ADB first, and a smaller file goes whole to
/// one lane: the first such file over ADB, the second over the network, and so on by turns.
pub proof fn lemma_files_are_dealt_to_the_lanes(
    mode: TransportMode,
    chunk_size: u64,
    threshold: u64,
    sizes: Seq<u64>,
    completed: Seq<Seq<u32>>,
    n: nat,
)
    ensures
        ({
            let p = scheduler::planned(mode, chunk_size, threshold, sizes, completed, n);
            let q = scheduler::planned(mode, chunk_size, threshold, sizes, completed, n + 1);
            let open = scheduler::pending_of(chunk_size, sizes, completed, n as int);
            let over_adb = small_files(sizes, threshold, n) % 2 == 0;
            &&& mode == TransportMode::AdbOnly ==> stands_behind(q.adb, p.adb, open) && q.wifi
                == p.wifi
            &&& mode == TransportMode::WifiOnly ==> stands_behind(q.wifi, p.wifi, open) && q.adb
                == p.adb
            &&& mode == TransportMode::Dual && sizes[n as int] >= threshold ==> {
                &&& q.adb.len() + q.wifi.len() == p.adb.len() + p.wifi.len() + open.len()
                &&& q.adb.take(p.adb.len() as int) == p.adb
                &&& q.wifi.take(p.wifi.len() as int) == p.wifi
                &&& forall|i: int|
                    #![trigger q.adb[p.adb.len() + i]]
                    0 <= i && 2 * i < open.len() ==> q.adb[p.adb.len() + i] == open[2 * i]
                &&& forall|i: int|
                    #![trigger q.wifi[p.wifi.len() + i]]
                    0 <= i && 2 * i + 1 < open.len() ==> q.wifi[p.wifi.len() + i] == open[2 * i
                        + 1]
            }
            &&& mode == TransportMode::Dual && sizes[n as int] < threshold && over_adb
                ==> stands_behind(q.adb, p.adb, open) && q.wifi == p.wifi
            &&& mode == TransportMode::Dual && sizes[n as int] < threshold && !over_adb
                ==> stands_behind(q.wifi, p.wifi, open) && q.adb == p.adb
            &&& q.adb_inflight == 0 && q.wifi_inflight == 0
        }),
{
    let p = scheduler::planned(mode, chunk_size, threshold, sizes, completed, n);
    let q = scheduler::planned(mode, chunk_size, threshold, sizes, completed, n + 1);
    let open = scheduler::pending_of(chunk_size, sizes, completed, n as int);
    lemma_planned_is_idle(mode, chunk_size, threshold, sizes, completed, n + 1);
    lemma_bias_turns(mode, chunk_size, threshold, sizes, completed, n);
    assert(q.adb.take(p.adb.len() as int) =~= p.adb);
    assert(q.wifi.take(p.wifi.len() as int) =~= p.wifi);
    if q.adb.len() == p.adb.len() + open.len() {
        assert(q.adb == p.adb + open ==> q.adb.skip(p.adb.len() as int) =~= open);
    }
    if q.wifi.len() == p.wifi.len() + open.len() {
        assert(q.wifi == p.wifi + open ==> q.wifi.skip(p.wifi.len() as int) =~= open);
    }
}

proof fn lemma_bias_turns(
    mode: TransportMode,
    chunk_size: u64,
    threshold: u64,
    sizes: Seq<u64>,
    completed: Seq<Seq<u32>>,
    n: nat,
)
    ensures
        mode == TransportMode::Dual ==> (scheduler::planned(
            mode,
            chunk_size,
            threshold,
            sizes,
            completed,
            n,
        ).bias == LaneAssignment::Adb <==> small_files(sizes, threshold, n) % 2 == 0),
    decreases n,
{
    if n > 0 {
        lemma_bias_turns(mode, chunk_size, threshold, sizes, completed, (n - 1) as nat);
    }
}

/// Every chunk that a file is divided into waits, unless its index is among those completed of the file;
/// files that nothing is said of have no completed chunks.
pub proof fn lemma_open_chunk_waits(
    mode: TransportMode,
    chunk_size: u64,
    threshold: u64,
    sizes: Seq<u64>,
    completed: Seq<Seq<u32>>,
    n: nat,
    i: int,
    k: int,
)
    requires
        n <= usize::MAX,
        0 <= i < n,
        0 <= k < models::chunk_count(sizes[i], chunk_size),
    ensures
        ({
            let c = models::chunk_at(i as usize, sizes[i], chunk_size, k);
            let done = i < completed.len() && completed[i].contains(c.chunk_index);
            scheduler::planned(mode, chunk_size, threshold, sizes, completed, n).waiting().count(c)
                > 0 <==> !done
        }),
{
    let c = models::chunk_at(i as usize, sizes[i], chunk_size, k);
    scheduler::lemma_every_pending_chunk_waits_once(
        mode,
        chunk_size,
        threshold,
        sizes,
        completed,
        n,
    );
    if scheduler::planned(mode, chunk_size, threshold, sizes, completed, n).waiting().count(c) > 0 {
        scheduler::lemma_completed_chunks_do_not_wait(
            mode,
            chunk_size,
            threshold,
            sizes,
            completed,
            n,
            c,
        );
    }
    if !(i < completed.len() && completed[i].contains(c.chunk_index)) {
        lemma_open_chunk_is_pending(chunk_size, sizes, completed, n, i, k);
    }
}

proof fn lemma_open_chunk_is_pending(
    chunk_size: u64,
    sizes: Seq<u64>,
    completed: Seq<Seq<u32>>,
    n: nat,
    i: int,
    k: int,
)
    requires
        n <= usize::MAX,
        0 <= i < n,
        0 <= k < models::chunk_count(sizes[i], chunk_size),
        ({
            let c = models::chunk_at(i as usize, sizes[i], chunk_size, k);
            !(i < completed.len() && completed[i].contains(c.chunk_index))
        }),
    ensures
        scheduler::all_pending(chunk_size, sizes, completed, n).count(
            models::chunk_at(i as usize, sizes[i], chunk_size, k),
        ) > 0,
    decreases n,
{
    broadcast use vstd::seq_lib::group_to_multiset_ensures;

    let m = (n - 1) as nat;
    if i < m {
        lemma_open_chunk_is_pending(chunk_size, sizes, completed, m, i, k);
    } else {
        let chunks = models::chunks_of(i as usize, sizes[i], chunk_size);
        let done = scheduler::done_of(completed, i);
        let keep = |c: ChunkDescriptor| !done.contains(c.chunk_index);
        assert(chunks[k] == models::chunk_at(i as usize, sizes[i], chunk_size, k));
        chunks.lemma_filter_contains(keep, k);
        assert(scheduler::pending_of(chunk_size, sizes, completed, i) == chunks.filter(keep));
    }
}

} // verus!
