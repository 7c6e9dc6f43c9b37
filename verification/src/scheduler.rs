//! The division of chunks over the two lanes.

use crate::engine_task;
use crate::models;
use crate::models::{ChunkDescriptor, TaskConfig, TransferItem, TransportMode};
use std::collections::{BTreeSet, VecDeque};
use vstd::multiset::Multiset;
use vstd::prelude::*;

verus! {

/// A way from desktop to device.
#[derive(Debug, Clone, Copy, PartialEq, Eq, Hash, Structural)]
pub enum LaneAssignment {
    Adb,
    Wifi,
}

/// A chunk handed to a lane.
#[derive(Debug, Clone, Copy, PartialEq, Eq, Structural)]
pub struct ChunkLease {
    pub lane: LaneAssignment,
    pub chunk: ChunkDescriptor,
}

/// What a lane may do next.
#[derive(Debug, Clone, Copy, PartialEq, Eq, Structural)]
pub enum SchedulerDecision {
    Lease(ChunkLease),
    Idle,
}

/// Queues of waiting chunks, one for each lane, and the number under way on each.
#[derive(Debug)]
pub struct Scheduler {
    adb_queue: VecDeque<ChunkDescriptor>,
    wifi_queue: VecDeque<ChunkDescriptor>,
    adb_inflight: usize,
    wifi_inflight: usize,
    lane_bias: LaneAssignment,
}

/// What the scheduler holds.
#[verifier::ext_equal]
pub struct SchedulerView {
    pub adb: Seq<ChunkDescriptor>,
    pub wifi: Seq<ChunkDescriptor>,
    pub adb_inflight: nat,
    pub wifi_inflight: nat,
    pub bias: LaneAssignment,
}

/// The other lane.
pub open spec fn other(lane: LaneAssignment) -> LaneAssignment {
    match lane {
        LaneAssignment::Adb => LaneAssignment::Wifi,
        LaneAssignment::Wifi => LaneAssignment::Adb,
    }
}

impl SchedulerView {
    /// The waiting chunks of a lane.
    pub open spec fn queue(self, lane: LaneAssignment) -> Seq<ChunkDescriptor> {
        match lane {
            LaneAssignment::Adb => self.adb,
            LaneAssignment::Wifi => self.wifi,
        }
    }

    /// How many chunks a lane has under way.
    pub open spec fn inflight(self, lane: LaneAssignment) -> nat {
        match lane {
            LaneAssignment::Adb => self.adb_inflight,
            LaneAssignment::Wifi => self.wifi_inflight,
        }
    }

    /// All waiting chunks, without order.
    pub open spec fn waiting(self) -> Multiset<ChunkDescriptor> {
        self.adb.to_multiset().add(self.wifi.to_multiset())
    }

    /// The counts of chunks under way leave room for every waiting chunk.
    pub open spec fn fits(self) -> bool {
        &&& self.adb_inflight + self.adb.len() <= usize::MAX
        &&& self.wifi_inflight + self.wifi.len() <= usize::MAX
    }

    /// The first waiting chunk of a lane taken under way.
    pub open spec fn take_from(self, lane: LaneAssignment) -> SchedulerView {
        match lane {
            LaneAssignment::Adb => SchedulerView {
                adb: self.adb.drop_first(),
                adb_inflight: self.adb_inflight + 1,
                ..self
            },
            LaneAssignment::Wifi => SchedulerView {
                wifi: self.wifi.drop_first(),
                wifi_inflight: self.wifi_inflight + 1,
                ..self
            },
        }
    }

    /// A lease from `lane`, or from the other lane if nothing waits there.
    pub open spec fn try_lease(self, lane: LaneAssignment) -> (SchedulerDecision, SchedulerView) {
        if self.queue(lane).len() > 0 {
            (
                SchedulerDecision::Lease(ChunkLease { lane, chunk: self.queue(lane)[0] }),
                self.take_from(lane),
            )
        } else if self.queue(other(lane)).len() > 0 {
            (
                SchedulerDecision::Lease(
                    ChunkLease { lane: other(lane), chunk: self.queue(other(lane))[0] },
                ),
                self.take_from(other(lane)),
            )
        } else {
            (SchedulerDecision::Idle, self)
        }
    }

    /// The next lease: from the preferred lane while it has room under the limit, else from the
    /// other lane while that has room.
    pub open spec fn lease_next(self, limit: usize, preferred: LaneAssignment) -> (
        SchedulerDecision,
        SchedulerView,
    ) {
        if self.inflight(preferred) < limit {
            self.try_lease(preferred)
        } else if self.inflight(other(preferred)) < limit {
            self.try_lease(other(preferred))
        } else {
            (SchedulerDecision::Idle, self)
        }
    }

    /// One chunk fewer under way on a lane.
    pub open spec fn complete(self, lane: LaneAssignment) -> SchedulerView {
        let n = self.inflight(lane);
        let less = if n > 0 {
            (n - 1) as nat
        } else {
            0
        };
        match lane {
            LaneAssignment::Adb => SchedulerView { adb_inflight: less, ..self },
            LaneAssignment::Wifi => SchedulerView { wifi_inflight: less, ..self },
        }
    }

    /// Nothing waits and nothing is under way.
    pub open spec fn drained(self) -> bool {
        self.adb.len() == 0 && self.wifi.len() == 0 && self.adb_inflight == 0 && self.wifi_inflight
            == 0
    }

    /// The chunks of one more file put into the queues.
    pub open spec fn enqueue(
        self,
        mode: TransportMode,
        large: bool,
        chunks: Seq<ChunkDescriptor>,
    ) -> SchedulerView {
        match mode {
            TransportMode::AdbOnly => SchedulerView { adb: self.adb + chunks, ..self },
            TransportMode::WifiOnly => SchedulerView { wifi: self.wifi + chunks, ..self },
            TransportMode::Dual => if large {
                SchedulerView {
                    adb: self.adb + every_other(chunks, 0),
                    wifi: self.wifi + every_other(chunks, 1),
                    ..self
                }
            } else {
                match self.bias {
                    LaneAssignment::Adb => SchedulerView {
                        adb: self.adb + chunks,
                        bias: LaneAssignment::Wifi,
                        ..self
                    },
                    LaneAssignment::Wifi => SchedulerView {
                        wifi: self.wifi + chunks,
                        bias: LaneAssignment::Adb,
                        ..self
                    },
                }
            },
        }
    }
}

/// A scheduler with nothing to do.
pub open spec fn empty_scheduler() -> SchedulerView {
    SchedulerView {
        adb: Seq::empty(),
        wifi: Seq::empty(),
        adb_inflight: 0,
        wifi_inflight: 0,
        bias: LaneAssignment::Adb,
    }
}

/// The elements at even places (`from == 0`) or at odd places (`from == 1`).
pub open spec fn every_other(s: Seq<ChunkDescriptor>, from: int) -> Seq<ChunkDescriptor> {
    Seq::new(((s.len() + 1 - from) / 2) as nat, |i: int| s[2 * i + from])
}

/// The chunks that are not done yet.
pub open spec fn pending(chunks: Seq<ChunkDescriptor>, done: Seq<u32>) -> Seq<ChunkDescriptor> {
    chunks.filter(|c: ChunkDescriptor| !done.contains(c.chunk_index))
}

/// The completed chunks of the `i`-th file; none where nothing is said of it.
pub open spec fn done_of(completed: Seq<Seq<u32>>, i: int) -> Seq<u32> {
    if i < completed.len() {
        completed[i]
    } else {
        Seq::empty()
    }
}

/// The chunks of the `i`-th file that are not done yet.
pub open spec fn pending_of(
    chunk_size: u64,
    sizes: Seq<u64>,
    completed: Seq<Seq<u32>>,
    i: int,
) -> Seq<ChunkDescriptor> {
    pending(models::chunks_of(i as usize, sizes[i], chunk_size), done_of(completed, i))
}

/// The queues after the first `n` files.
pub open spec fn planned(
    mode: TransportMode,
    chunk_size: u64,
    threshold: u64,
    sizes: Seq<u64>,
    completed: Seq<Seq<u32>>,
    n: nat,
) -> SchedulerView
    decreases n,
{
    if n == 0 {
        empty_scheduler()
    } else {
        planned(mode, chunk_size, threshold, sizes, completed, (n - 1) as nat).enqueue(
            mode,
            sizes[n - 1] >= threshold,
            pending_of(chunk_size, sizes, completed, n - 1),
        )
    }
}

/// The sizes of a list of items.
pub open spec fn sizes_of(items: Seq<TransferItem>) -> Seq<u64> {
    items.map_values(|i: TransferItem| i.size_bytes)
}

/// The views of lists of chunk indices.
pub open spec fn index_lists(v: Seq<Vec<u32>>) -> Seq<Seq<u32>> {
    v.map_values(|l: Vec<u32>| l@)
}

impl View for Scheduler {
    type V = SchedulerView;

    closed spec fn view(&self) -> SchedulerView {
        SchedulerView {
            adb: self.adb_queue@,
            wifi: self.wifi_queue@,
            adb_inflight: self.adb_inflight as nat,
            wifi_inflight: self.wifi_inflight as nat,
            bias: self.lane_bias,
        }
    }
}

/// The bytes of a queue, where they fit.
fn sum_lengths(queue: &VecDeque<ChunkDescriptor>) -> (r: Option<u64>)
    ensures
        match r {
            Some(b) => b == engine_task::bytes_of(queue@),
            None => engine_task::bytes_of(queue@) > u64::MAX,
        },
{
    let mut sum: u64 = 0;
    let mut i: usize = queue.len();
    assert(queue@.skip(i as int) =~= Seq::empty());
    while i > 0
        invariant
            i <= queue@.len(),
            sum == engine_task::bytes_of(queue@.skip(i as int)),
        decreases i,
    {
        i -= 1;
        assert(queue@.skip(i as int).drop_first() =~= queue@.skip(i + 1));
        let length: u64 = queue[i].length;
        if length > u64::MAX - sum {
            proof {
                lemma_bytes_grow(queue@, i as int);
            }
            return None;
        }
        sum += length;
    }
    assert(queue@.skip(0) =~= queue@);
    Some(sum)
}

proof fn lemma_bytes_grow(chunks: Seq<ChunkDescriptor>, i: int)
    requires
        0 <= i <= chunks.len(),
    ensures
        engine_task::bytes_of(chunks.skip(i)) <= engine_task::bytes_of(chunks),
    decreases i,
{
    if i > 0 {
        lemma_bytes_grow(chunks, i - 1);
        assert(chunks.skip(i - 1).drop_first() =~= chunks.skip(i));
    } else {
        assert(chunks.skip(0) =~= chunks);
    }
}

impl Default for Scheduler {
    fn default() -> (r: Self)
        ensures
            r@ == empty_scheduler(),
    {
        Scheduler {
            adb_queue: VecDeque::new(),
            wifi_queue: VecDeque::new(),
            adb_inflight: 0,
            wifi_inflight: 0,
            lane_bias: LaneAssignment::Adb,
        }
    }
}

impl Scheduler {
    /// The queues for all chunks of the items.
    pub fn new(config: &TaskConfig, items: &[TransferItem]) -> (r: Self)
        ensures
            r@ == planned(
                config.transport_mode,
                config.chunk_size_bytes,
                config.small_file_threshold_bytes,
                sizes_of(items@),
                Seq::empty(),
                items@.len(),
            ),
            r@.fits(),
    {
        let none: Vec<Vec<u32>> = Vec::new();
        let r = Self::new_with_completed(config, items, &none);
        assert(index_lists(none@) =~= Seq::empty());
        r
    }

    /// The queues for the chunks of the items that are not completed.
    pub fn new_with_completed(
        config: &TaskConfig,
        items: &[TransferItem],
        completed_chunks_by_file: &[Vec<u32>],
    ) -> (r: Self)
        ensures
            r@ == planned(
                config.transport_mode,
                config.chunk_size_bytes,
                config.small_file_threshold_bytes,
                sizes_of(items@),
                index_lists(completed_chunks_by_file@),
                items@.len(),
            ),
            r@.fits(),
    {
        let mut scheduler = Self::default();
        let ghost sizes = sizes_of(items@);
        let ghost completed = index_lists(completed_chunks_by_file@);
        let mut file_index: usize = 0;
        while file_index < items.len()
            invariant
                file_index <= items.len(),
                sizes == sizes_of(items@),
                completed == index_lists(completed_chunks_by_file@),
                scheduler@ == planned(
                    config.transport_mode,
                    config.chunk_size_bytes,
                    config.small_file_threshold_bytes,
                    sizes,
                    completed,
                    file_index as nat,
                ),
                scheduler@.adb_inflight == 0,
                scheduler@.wifi_inflight == 0,
            decreases items.len() - file_index,
        {
            let size: u64 = items[file_index].size_bytes;
            let all = models::split_into_chunks(file_index, size, config.chunk_size_bytes);
            let chunks = if file_index < completed_chunks_by_file.len() {
                pending_chunks(&all, &completed_chunks_by_file[file_index])
            } else {
                let none: Vec<u32> = Vec::new();
                let rest = pending_chunks(&all, &none);
                assert(none@ =~= done_of(completed, file_index as int));
                rest
            };
            assert(chunks@ == pending_of(
                config.chunk_size_bytes,
                sizes,
                completed,
                file_index as int,
            ));
            scheduler.enqueue(
                config.transport_mode,
                models::is_large_file(size, config.small_file_threshold_bytes),
                &chunks,
            );
            file_index += 1;
        }
        assert(scheduler.adb_queue.len() == scheduler@.adb.len());
        assert(scheduler.wifi_queue.len() == scheduler@.wifi.len());
        scheduler
    }

    fn enqueue(&mut self, mode: TransportMode, large: bool, chunks: &Vec<ChunkDescriptor>)
        ensures
            final(self)@ == old(self)@.enqueue(mode, large, chunks@),
    {
        match mode {
            TransportMode::AdbOnly => append_all(&mut self.adb_queue, chunks),
            TransportMode::WifiOnly => append_all(&mut self.wifi_queue, chunks),
            TransportMode::Dual => {
                if large {
                    append_every_other(&mut self.adb_queue, chunks, 0);
                    append_every_other(&mut self.wifi_queue, chunks, 1);
                } else {
                    match self.lane_bias {
                        LaneAssignment::Adb => append_all(&mut self.adb_queue, chunks),
                        LaneAssignment::Wifi => append_all(&mut self.wifi_queue, chunks),
                    }
                    self.lane_bias = other_lane(self.lane_bias);
                }
            },
        }
    }

    /// How many chunks wait.
    pub fn waiting_count(&self) -> (r: u128)
        ensures
            r == self@.adb.len() + self@.wifi.len(),
            r <= 2 * usize::MAX,
    {
        self.adb_queue.len() as u128 + self.wifi_queue.len() as u128
    }

    /// The bytes of all waiting chunks, where they fit.
    pub fn waiting_bytes(&self) -> (r: Option<u64>)
        ensures
            ({
                let n = engine_task::bytes_of(self@.adb) + engine_task::bytes_of(self@.wifi);
                match r {
                    Some(b) => b == n,
                    None => n > u64::MAX,
                }
            }),
    {
        match (sum_lengths(&self.adb_queue), sum_lengths(&self.wifi_queue)) {
            (Some(a), Some(b)) => a.checked_add(b),
            _ => None,
        }
    }

    /// The next lease for a lane that asks, if there is one.
    pub fn lease_next(&mut self, config: &TaskConfig, preferred_lane: LaneAssignment) -> (r:
        SchedulerDecision)
        requires
            old(self)@.fits(),
        ensures
            (r, final(self)@) == old(self)@.lease_next(
                config.max_in_flight_chunks_per_lane,
                preferred_lane,
            ),
            final(self)@.fits(),
    {
        let limit: usize = config.max_in_flight_chunks_per_lane;
        if self.inflight_for(preferred_lane) >= limit {
            let fallback = other_lane(preferred_lane);
            if self.inflight_for(fallback) >= limit {
                return SchedulerDecision::Idle;
            }
            return self.try_lease(fallback);
        }
        self.try_lease(preferred_lane)
    }

    /// A leased chunk is done with.
    pub fn complete(&mut self, lease: ChunkLease)
        ensures
            final(self)@ == old(self)@.complete(lease.lane),
            old(self)@.fits() ==> final(self)@.fits(),
    {
        match lease.lane {
            LaneAssignment::Adb => {
                if self.adb_inflight > 0 {
                    self.adb_inflight = self.adb_inflight - 1;
                }
            },
            LaneAssignment::Wifi => {
                if self.wifi_inflight > 0 {
                    self.wifi_inflight = self.wifi_inflight - 1;
                }
            },
        }
    }

    /// Whether nothing waits and nothing is under way.
    pub fn is_drained(&self) -> (r: bool)
        ensures
            r == self@.drained(),
    {
        self.adb_queue.len() == 0 && self.wifi_queue.len() == 0 && self.adb_inflight == 0
            && self.wifi_inflight == 0
    }

    fn try_lease(&mut self, lane: LaneAssignment) -> (r: SchedulerDecision)
        requires
            old(self)@.fits(),
        ensures
            (r, final(self)@) == old(self)@.try_lease(lane),
            final(self)@.fits(),
    {
        match self.take_from(lane) {
            Some(chunk) => SchedulerDecision::Lease(ChunkLease { lane, chunk }),
            None => {
                let fallback = other_lane(lane);
                match self.take_from(fallback) {
                    Some(chunk) => SchedulerDecision::Lease(ChunkLease { lane: fallback, chunk }),
                    None => SchedulerDecision::Idle,
                }
            },
        }
    }

    fn take_from(&mut self, lane: LaneAssignment) -> (r: Option<ChunkDescriptor>)
        requires
            old(self)@.fits(),
        ensures
            r is Some <==> old(self)@.queue(lane).len() > 0,
            r is Some ==> r == Some(old(self)@.queue(lane)[0]) && final(self)@ == old(
                self,
            )@.take_from(lane),
            r is None ==> final(self)@ == old(self)@,
            final(self)@.fits(),
    {
        match lane {
            LaneAssignment::Adb => match self.adb_queue.pop_front() {
                Some(chunk) => {
                    self.adb_inflight = self.adb_inflight + 1;
                    Some(chunk)
                },
                None => None,
            },
            LaneAssignment::Wifi => match self.wifi_queue.pop_front() {
                Some(chunk) => {
                    self.wifi_inflight = self.wifi_inflight + 1;
                    Some(chunk)
                },
                None => None,
            },
        }
    }

    fn inflight_for(&self, lane: LaneAssignment) -> (r: usize)
        ensures
            r == self@.inflight(lane),
    {
        match lane {
            LaneAssignment::Adb => self.adb_inflight,
            LaneAssignment::Wifi => self.wifi_inflight,
        }
    }
}

/// The other lane.
pub fn other_lane(lane: LaneAssignment) -> (r: LaneAssignment)
    ensures
        r == other(lane),
{
    match lane {
        LaneAssignment::Adb => LaneAssignment::Wifi,
        LaneAssignment::Wifi => LaneAssignment::Adb,
    }
}

fn append_all(queue: &mut VecDeque<ChunkDescriptor>, chunks: &Vec<ChunkDescriptor>)
    ensures
        final(queue)@ == old(queue)@ + chunks@,
{
    let mut i: usize = 0;
    while i < chunks.len()
        invariant
            i <= chunks.len(),
            queue@ == old(queue)@ + chunks@.take(i as int),
        decreases chunks.len() - i,
    {
        queue.push_back(chunks[i]);
        assert(queue@ =~= old(queue)@ + chunks@.take(i + 1));
        i += 1;
    }
    assert(chunks@.take(chunks@.len() as int) =~= chunks@);
}

fn append_every_other(
    queue: &mut VecDeque<ChunkDescriptor>,
    chunks: &Vec<ChunkDescriptor>,
    from: usize,
)
    requires
        from <= 1,
    ensures
        final(queue)@ == old(queue)@ + every_other(chunks@, from as int),
{
    let ghost all = every_other(chunks@, from as int);
    let ghost mut k: int = 0;
    let mut i: usize = 0;
    while i < chunks.len()
        invariant
            from <= 1,
            all == every_other(chunks@, from as int),
            i <= chunks.len(),
            k == (i + 1 - from) / 2,
            queue@ == old(queue)@ + all.take(k),
        decreases chunks.len() - i,
    {
        if i % 2 == from {
            assert(i == 2 * k + from);
            queue.push_back(chunks[i]);
            assert(queue@ =~= old(queue)@ + all.take(k + 1));
            proof {
                k = k + 1;
            }
        }
        i += 1;
    }
    assert(all.take(k) =~= all);
}

/// The chunks whose index is not among `done`.
pub fn pending_chunks(chunks: &Vec<ChunkDescriptor>, done: &Vec<u32>) -> (r: Vec<ChunkDescriptor>)
    ensures
        r@ == pending(chunks@, done@),
{
    broadcast use vstd::std_specs::btree::group_btree_axioms;

    let mut set: BTreeSet<u32> = BTreeSet::new();
    let mut i: usize = 0;
    while i < done.len()
        invariant
            i <= done.len(),
            forall|x: u32| set@.contains(x) <==> done@.take(i as int).contains(x),
        decreases done.len() - i,
    {
        set.insert(done[i]);
        assert forall|x: u32| set@.contains(x) <==> done@.take(i + 1).contains(x) by {
            let next = done@.take(i + 1);
            assert(next =~= done@.take(i as int).push(done@[i as int]));
            if done@.take(i as int).contains(x) {
                let k = choose|k: int| 0 <= k < i && done@[k] == x;
                assert(next[k] == x);
            }
            if next.contains(x) && x != done@[i as int] {
                let k = choose|k: int| 0 <= k < i + 1 && next[k] == x;
                assert(done@.take(i as int)[k] == x);
            }
            assert(next[i as int] == done@[i as int]);
        }
        i += 1;
    }
    assert(done@.take(done@.len() as int) =~= done@);
    let ghost keep = |c: ChunkDescriptor| !done@.contains(c.chunk_index);
    let mut out: Vec<ChunkDescriptor> = Vec::new();
    let mut j: usize = 0;
    assert(chunks@.take(0).filter(keep) =~= Seq::empty()) by {
        reveal(Seq::filter);
    }
    while j < chunks.len()
        invariant
            j <= chunks.len(),
            keep == (|c: ChunkDescriptor| !done@.contains(c.chunk_index)),
            forall|x: u32| set@.contains(x) <==> done@.contains(x),
            out@ == chunks@.take(j as int).filter(keep),
        decreases chunks.len() - j,
    {
        let c = chunks[j];
        proof {
            chunks@.take(j as int).lemma_filter_push(c, keep);
            assert(chunks@.take(j + 1) =~= chunks@.take(j as int).push(c));
        }
        if !set.contains(&c.chunk_index) {
            out.push(c);
        }
        j += 1;
    }
    assert(chunks@.take(chunks@.len() as int) =~= chunks@);
    out
}

/// The chunks of the first `n` files that are not done yet, without order.
pub open spec fn all_pending(
    chunk_size: u64,
    sizes: Seq<u64>,
    completed: Seq<Seq<u32>>,
    n: nat,
) -> Multiset<ChunkDescriptor>
    decreases n,
{
    if n == 0 {
        Multiset::empty()
    } else {
        all_pending(chunk_size, sizes, completed, (n - 1) as nat).add(
            pending_of(chunk_size, sizes, completed, n - 1).to_multiset(),
        )
    }
}

proof fn lemma_every_other_splits(s: Seq<ChunkDescriptor>)
    ensures
        every_other(s, 0).to_multiset().add(every_other(s, 1).to_multiset()) == s.to_multiset(),
    decreases s.len(),
{
    broadcast use vstd::seq_lib::group_to_multiset_ensures;

    if s.len() == 0 {
        assert(every_other(s, 0) =~= s);
        assert(every_other(s, 1) =~= s);
        assert(s.to_multiset().add(s.to_multiset()) =~= s.to_multiset());
    } else {
        let t = s.drop_last();
        let x = s.last();
        lemma_every_other_splits(t);
        assert(s =~= t.push(x));
        if s.len() % 2 == 1 {
            assert(every_other(s, 0) =~= every_other(t, 0).push(x));
            assert(every_other(s, 1) =~= every_other(t, 1));
        } else {
            assert(every_other(s, 0) =~= every_other(t, 0));
            assert(every_other(s, 1) =~= every_other(t, 1).push(x));
        }
        assert(every_other(s, 0).to_multiset().add(every_other(s, 1).to_multiset())
            =~= every_other(t, 0).to_multiset().add(every_other(t, 1).to_multiset()).insert(x));
    }
}

proof fn lemma_enqueue_adds(
    v: SchedulerView,
    mode: TransportMode,
    large: bool,
    chunks: Seq<ChunkDescriptor>,
)
    ensures
        v.enqueue(mode, large, chunks).waiting() == v.waiting().add(chunks.to_multiset()),
{
    let after = v.enqueue(mode, large, chunks);
    vstd::seq_lib::lemma_multiset_commutative(v.adb, chunks);
    vstd::seq_lib::lemma_multiset_commutative(v.wifi, chunks);
    vstd::seq_lib::lemma_multiset_commutative(v.adb, every_other(chunks, 0));
    vstd::seq_lib::lemma_multiset_commutative(v.wifi, every_other(chunks, 1));
    lemma_every_other_splits(chunks);
    assert(after.waiting() =~= v.waiting().add(chunks.to_multiset()));
}

/// Every chunk that is not done yet waits in exactly one queue, and nothing else waits.
pub proof fn lemma_every_pending_chunk_waits_once(
    mode: TransportMode,
    chunk_size: u64,
    threshold: u64,
    sizes: Seq<u64>,
    completed: Seq<Seq<u32>>,
    n: nat,
)
    ensures
        planned(mode, chunk_size, threshold, sizes, completed, n).waiting() == all_pending(
            chunk_size,
            sizes,
            completed,
            n,
        ),
    decreases n,
{
    broadcast use vstd::seq_lib::group_to_multiset_ensures;

    if n == 0 {
        assert(empty_scheduler().waiting() =~= Multiset::empty());
    } else {
        let m = (n - 1) as nat;
        lemma_every_pending_chunk_waits_once(mode, chunk_size, threshold, sizes, completed, m);
        lemma_enqueue_adds(
            planned(mode, chunk_size, threshold, sizes, completed, m),
            mode,
            sizes[n - 1] >= threshold,
            pending_of(chunk_size, sizes, completed, n - 1),
        );
    }
}

/// A task on one lane puts nothing into the other lane's queue.
pub proof fn lemma_single_lane_keeps_to_it(
    mode: TransportMode,
    chunk_size: u64,
    threshold: u64,
    sizes: Seq<u64>,
    completed: Seq<Seq<u32>>,
    n: nat,
)
    ensures
        mode == TransportMode::AdbOnly ==> planned(
            mode,
            chunk_size,
            threshold,
            sizes,
            completed,
            n,
        ).wifi.len() == 0,
        mode == TransportMode::WifiOnly ==> planned(
            mode,
            chunk_size,
            threshold,
            sizes,
            completed,
            n,
        ).adb.len() == 0,
    decreases n,
{
    if n > 0 {
        lemma_single_lane_keeps_to_it(
            mode,
            chunk_size,
            threshold,
            sizes,
            completed,
            (n - 1) as nat,
        );
    }
}

/// No completed chunk waits: a waiting chunk is one of those that one of the files is divided
/// into, and its index is not among those completed of that file.
pub proof fn lemma_completed_chunks_do_not_wait(
    mode: TransportMode,
    chunk_size: u64,
    threshold: u64,
    sizes: Seq<u64>,
    completed: Seq<Seq<u32>>,
    n: nat,
    chunk: ChunkDescriptor,
)
    requires
        n <= usize::MAX,
        planned(mode, chunk_size, threshold, sizes, completed, n).waiting().count(chunk) > 0,
    ensures
        chunk.file_index < n,
        !done_of(completed, chunk.file_index as int).contains(chunk.chunk_index),
        models::chunks_of(
            chunk.file_index,
            sizes[chunk.file_index as int],
            chunk_size,
        ).contains(chunk),
{
    lemma_every_pending_chunk_waits_once(mode, chunk_size, threshold, sizes, completed, n);
    lemma_pending_member(chunk_size, sizes, completed, n, chunk);
}

proof fn lemma_pending_member(
    chunk_size: u64,
    sizes: Seq<u64>,
    completed: Seq<Seq<u32>>,
    n: nat,
    chunk: ChunkDescriptor,
)
    requires
        n <= usize::MAX,
        all_pending(chunk_size, sizes, completed, n).count(chunk) > 0,
    ensures
        chunk.file_index < n,
        !done_of(completed, chunk.file_index as int).contains(chunk.chunk_index),
        models::chunks_of(
            chunk.file_index,
            sizes[chunk.file_index as int],
            chunk_size,
        ).contains(chunk),
    decreases n,
{
    broadcast use vstd::seq_lib::group_to_multiset_ensures;

    if n > 0 {
        let m = (n - 1) as nat;
        let chunks = models::chunks_of(m as usize, sizes[m as int], chunk_size);
        let done = done_of(completed, m as int);
        let keep = |c: ChunkDescriptor| !done.contains(c.chunk_index);
        let own = pending_of(chunk_size, sizes, completed, m as int);
        if own.to_multiset().count(chunk) > 0 {
            assert(own.contains(chunk));
            assert(own == chunks.filter(keep));
            chunks.lemma_filter_contains_rev(keep, chunk);
            let i = choose|i: int| 0 <= i < own.len() && own[i] == chunk;
            chunks.lemma_filter_pred(keep, i);
        } else {
            lemma_pending_member(chunk_size, sizes, completed, m, chunk);
        }
    }
}

/// Leasing a chunk takes it from the waiting chunks, once, and counts it as under way on the
/// lane of the lease; without a lease nothing changes.
pub proof fn lemma_lease_takes_one(v: SchedulerView, limit: usize, preferred: LaneAssignment)
    ensures
        match v.lease_next(limit, preferred) {
            (SchedulerDecision::Lease(lease), after) => {
                &&& v.waiting().count(lease.chunk) > 0
                &&& after.waiting() == v.waiting().remove(lease.chunk)
                &&& after.inflight(lease.lane) == v.inflight(lease.lane) + 1
                &&& after.inflight(other(lease.lane)) == v.inflight(other(lease.lane))
                &&& after.complete(lease.lane).inflight(lease.lane) == v.inflight(lease.lane)
            },
            (SchedulerDecision::Idle, after) => after == v,
        },
{
    broadcast use vstd::seq_lib::group_to_multiset_ensures;

    if let (SchedulerDecision::Lease(lease), after) = v.lease_next(limit, preferred) {
        let q = v.queue(lease.lane);
        assert(q.contains(q[0]));
        assert(q.drop_first() =~= q.remove(0));
        assert(after.waiting() =~= v.waiting().remove(lease.chunk));
    }
}

/// While chunks wait on both lanes, a lease never takes a lane over its limit.
pub proof fn lemma_lease_respects_limit(v: SchedulerView, limit: usize, preferred: LaneAssignment)
    requires
        v.adb.len() > 0,
        v.wifi.len() > 0,
    ensures
        match v.lease_next(limit, preferred) {
            (SchedulerDecision::Lease(lease), after) => after.inflight(lease.lane) <= limit,
            (SchedulerDecision::Idle, after) => v.inflight(LaneAssignment::Adb) >= limit
                && v.inflight(LaneAssignment::Wifi) >= limit,
        },
{
}

} // verus!
