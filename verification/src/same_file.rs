//! A large file that both lanes share: which lane has which chunk, how the lanes are planned, and
//! what of an earlier transfer can be kept.

use crate::adb_command;
use crate::agent_ask::{AgentAsk, AskView};
use crate::cards::{DualNote, DualNoteView};
use crate::checkpoint;
use crate::decimal;
use crate::digest;
use crate::models;
use crate::paths;
use crate::scheduler::LaneAssignment;
use crate::sizing;
use crate::text;
use crate::wifi_chunk;
use vstd::prelude::*;

verus! {

/// One of the two lanes that share a file.
#[derive(Debug, Clone, Copy, PartialEq, Eq, Structural)]
pub enum DualSameFileLane {
    Adb,
    Wifi,
}

/// Whether a lane has a chunk: the network lane has one of every stride, ADB has the others.
pub open spec fn owns(lane: DualSameFileLane, index: u32, stride: u32) -> bool {
    let wifi = (index as int) % sizing::larger(stride as int, 2) == 1;
    match lane {
        DualSameFileLane::Adb => !wifi,
        DualSameFileLane::Wifi => wifi,
    }
}

impl DualSameFileLane {
    /// The lane as the engine knows it.
    pub open spec fn lane(self) -> LaneAssignment {
        match self {
            DualSameFileLane::Adb => LaneAssignment::Adb,
            DualSameFileLane::Wifi => LaneAssignment::Wifi,
        }
    }

    /// The lane as people read it.
    pub open spec fn name(self) -> Seq<char> {
        match self {
            DualSameFileLane::Adb => "ADB"@,
            DualSameFileLane::Wifi => "Wi-Fi"@,
        }
    }

    /// The lane as the engine knows it.
    pub fn assignment(self) -> (r: LaneAssignment)
        ensures
            r == self.lane(),
    {
        match self {
            DualSameFileLane::Adb => LaneAssignment::Adb,
            DualSameFileLane::Wifi => LaneAssignment::Wifi,
        }
    }

    /// Whether the lane has a chunk.
    pub fn owns_chunk(self, chunk_index: u32, wifi_stride: u32) -> (r: bool)
        ensures
            r == owns(self, chunk_index, wifi_stride),
    {
        let stride: u32 = if wifi_stride < 2 {
            2
        } else {
            wifi_stride
        };
        let wifi = chunk_index % stride == 1;
        match self {
            DualSameFileLane::Adb => !wifi,
            DualSameFileLane::Wifi => wifi,
        }
    }

    /// The lane as people read it.
    pub fn label(self) -> (r: &'static str)
        ensures
            r@ == self.name(),
    {
        match self {
            DualSameFileLane::Adb => "ADB",
            DualSameFileLane::Wifi => "Wi-Fi",
        }
    }
}

/// The chunks below `n` that a lane carries over: those it has and that are not completed.
pub open spec fn lane_chunks(
    lane: DualSameFileLane,
    n: nat,
    stride: u32,
    completed: Seq<u32>,
) -> Seq<u32>
    decreases n,
{
    if n == 0 {
        Seq::empty()
    } else {
        let head = lane_chunks(lane, (n - 1) as nat, stride, completed);
        let k = (n - 1) as u32;
        if owns(lane, k, stride) && !completed.contains(k) {
            head.push(k)
        } else {
            head
        }
    }
}

proof fn lemma_lane_chunks(lane: DualSameFileLane, n: nat, stride: u32, completed: Seq<u32>, k: u32)
    requires
        n <= 0x1_0000_0000,
    ensures
        lane_chunks(lane, n, stride, completed).contains(k) <==> k < n && owns(lane, k, stride)
            && !completed.contains(k),
    decreases n,
{
    if n > 0 {
        lemma_lane_chunks(lane, (n - 1) as nat, stride, completed, k);
        let head = lane_chunks(lane, (n - 1) as nat, stride, completed);
        let all = lane_chunks(lane, n, stride, completed);
        let last = (n - 1) as u32;
        if owns(lane, last, stride) && !completed.contains(last) {
            assert(all[all.len() - 1] == last);
            if head.contains(k) {
                let i = choose|i: int| 0 <= i < head.len() && head[i] == k;
                assert(all[i] == k);
            }
            if all.contains(k) && k != last {
                let i = choose|i: int| 0 <= i < all.len() && all[i] == k;
                assert(head[i] == k);
            }
        }
    }
}

/// Every chunk of a file is either completed before or carried over by exactly one of the lanes,
/// whatever the stride.
pub proof fn lemma_lanes_share_all_chunks(n: nat, stride: u32, completed: Seq<u32>, k: u32)
    requires
        n <= 0x1_0000_0000,
        k < n,
    ensures
        ({
            let adb = lane_chunks(DualSameFileLane::Adb, n, stride, completed).contains(k);
            let wifi = lane_chunks(DualSameFileLane::Wifi, n, stride, completed).contains(k);
            &&& completed.contains(k) ==> !adb && !wifi
            &&& !completed.contains(k) ==> adb != wifi
        }),
{
    lemma_lane_chunks(DualSameFileLane::Adb, n, stride, completed, k);
    lemma_lane_chunks(DualSameFileLane::Wifi, n, stride, completed, k);
}

/// What the lanes came to in a trial, in words.
#[derive(Debug, PartialEq, Eq)]
pub struct LaneRates {
    pub sample_bytes: u64,
    pub adb: String,
    pub wifi: String,
}

pub struct LaneRatesView {
    pub sample_bytes: u64,
    pub adb: Seq<char>,
    pub wifi: Seq<char>,
}

/// How two lanes share the files of a transfer.
#[derive(Debug, PartialEq, Eq)]
pub struct SameFileLanePlan {
    pub wifi_stride: u32,
    pub wifi_batch_chunks: usize,
    pub source: String,
    pub rates: Option<LaneRates>,
}

pub struct LanePlanView {
    pub wifi_stride: u32,
    pub wifi_batch_chunks: int,
    pub source: Seq<char>,
    pub rates: Option<LaneRatesView>,
}

impl View for SameFileLanePlan {
    type V = LanePlanView;

    open spec fn view(&self) -> LanePlanView {
        LanePlanView {
            wifi_stride: self.wifi_stride,
            wifi_batch_chunks: self.wifi_batch_chunks as int,
            source: self.source@,
            rates: match self.rates {
                Some(r) => Some(
                    LaneRatesView { sample_bytes: r.sample_bytes, adb: r.adb@, wifi: r.wifi@ },
                ),
                None => None,
            },
        }
    }
}

/// A plan in words.
pub open spec fn plan_text(p: LanePlanView) -> Seq<char> {
    let head = "lane_plan="@ + p.source + " wifi_stride="@ + decimal::dec(p.wifi_stride as nat)
        + " wifi_batch_chunks="@ + decimal::dec(p.wifi_batch_chunks as nat);
    match p.rates {
        Some(r) => head + " sample="@ + decimal::dec(r.sample_bytes as nat) + " adb="@ + r.adb
            + " wifi="@ + r.wifi,
        None => head,
    }
}

impl SameFileLanePlan {
    /// A plan that rests on nothing that was measured or set.
    pub fn fallback(source: &str, wifi_batch_chunks: usize) -> (r: Self)
        ensures
            r@ == (LanePlanView {
                wifi_stride: 4,
                wifi_batch_chunks: wifi_batch_chunks as int,
                source: source@,
                rates: None,
            }),
    {
        SameFileLanePlan {
            wifi_stride: sizing::same_file_wifi_stride(0),
            wifi_batch_chunks,
            source: source.to_string(),
            rates: None,
        }
    }

    /// The plan in words.
    pub fn summary(&self) -> (r: String)
        ensures
            r@ == plan_text(self@),
    {
        let mut s = "lane_plan=".to_string();
        s.append(self.source.as_str());
        s.append(" wifi_stride=");
        s.append(decimal::dec_text(self.wifi_stride as u128).as_str());
        s.append(" wifi_batch_chunks=");
        s.append(decimal::dec_text(self.wifi_batch_chunks as u128).as_str());
        match &self.rates {
            Some(r) => {
                s.append(" sample=");
                s.append(decimal::dec_text(r.sample_bytes as u128).as_str());
                s.append(" adb=");
                s.append(r.adb.as_str());
                s.append(" wifi=");
                s.append(r.wifi.as_str());
            },
            None => {},
        }
        s
    }
}

/// The plan for two lanes: what is set, else what a trial of the lanes gave, else a fallback that
/// names what went wrong with the trial.
pub open spec fn lane_plan(
    configured: Option<u32>,
    batch: int,
    trial: Result<(u32, LaneRatesView), Seq<char>>,
) -> LanePlanView {
    match configured {
        Some(stride) => LanePlanView {
            wifi_stride: stride,
            wifi_batch_chunks: batch,
            source: "env"@,
            rates: None,
        },
        None => match trial {
            Ok((stride, rates)) => LanePlanView {
                wifi_stride: stride,
                wifi_batch_chunks: batch,
                source: "startup-calibration"@,
                rates: Some(rates),
            },
            Err(m) => LanePlanView {
                wifi_stride: 4,
                wifi_batch_chunks: batch,
                source: "fallback("@ + m + ")"@,
                rates: None,
            },
        },
    }
}

/// The view of a trial.
pub open spec fn trial_view(t: Result<(u32, LaneRates), String>) -> Result<
    (u32, LaneRatesView),
    Seq<char>,
> {
    match t {
        Ok((stride, r)) => Ok(
            (stride, LaneRatesView { sample_bytes: r.sample_bytes, adb: r.adb@, wifi: r.wifi@ }),
        ),
        Err(m) => Err(m@),
    }
}

/// The plan for two lanes, from a setting and a trial.
pub fn plan_same_file_lanes(
    configured: Option<u32>,
    wifi_batch_chunks: usize,
    trial: Result<(u32, LaneRates), String>,
) -> (r: SameFileLanePlan)
    ensures
        r@ == lane_plan(configured, wifi_batch_chunks as int, trial_view(trial)),
{
    match configured {
        Some(stride) => SameFileLanePlan {
            wifi_stride: stride,
            wifi_batch_chunks,
            source: "env".to_string(),
            rates: None,
        },
        None => match trial {
            Ok((stride, rates)) => SameFileLanePlan {
                wifi_stride: stride,
                wifi_batch_chunks,
                source: "startup-calibration".to_string(),
                rates: Some(rates),
            },
            Err(m) => {
                let mut source = "fallback(".to_string();
                source.append(m.as_str());
                source.append(")");
                SameFileLanePlan::fallback(source.as_str(), wifi_batch_chunks)
            },
        },
    }
}

/// What the lanes are tried out with, and where.
#[derive(Debug, PartialEq, Eq)]
pub struct LaneTrial {
    pub sample_bytes: u64,
    pub remote_root: String,
    pub adb_file: String,
    pub wifi_relative: String,
}

pub struct LaneTrialView {
    pub sample_bytes: u64,
    pub remote_root: Seq<char>,
    pub adb_file: Seq<char>,
    pub wifi_relative: Seq<char>,
}

impl View for LaneTrial {
    type V = LaneTrialView;

    open spec fn view(&self) -> LaneTrialView {
        LaneTrialView {
            sample_bytes: self.sample_bytes,
            remote_root: self.remote_root@,
            adb_file: self.adb_file@,
            wifi_relative: self.wifi_relative@,
        }
    }
}

/// How the lanes are tried out on a file; not at all where there is nothing to send.
pub open spec fn trial_of(
    task_id: Seq<char>,
    target_root: Seq<char>,
    file_size: u64,
    requested_chunk_size: u64,
    now: u128,
) -> Result<LaneTrialView, Seq<char>> {
    let sample = sizing::smaller(
        file_size as int,
        sizing::within(
            sizing::shared_chunk_size(file_size, requested_chunk_size),
            8388608,
            67108864,
        ),
    );
    let id = paths::id_text(task_id + "-"@ + decimal::dec(now as nat));
    if sample == 0 {
        Err("empty calibration sample"@)
    } else {
        Ok(
            LaneTrialView {
                sample_bytes: sample as u64,
                remote_root: adb_command::joined_path(target_root, ".nekotrans-calibration"@),
                adb_file: adb_command::joined_path(
                    target_root,
                    ".nekotrans-calibration/"@ + id + "-adb.bin"@,
                ),
                wifi_relative: ".nekotrans-calibration/"@ + id + "-wifi.bin"@,
            },
        )
    }
}

/// How the lanes are tried out on a file.
pub fn calibrate_same_file_lanes(
    task_id: &str,
    resolved_target_root: &str,
    file_size: u64,
    requested_chunk_size: u64,
    now: u128,
) -> (r: Result<LaneTrial, String>)
    ensures
        match (
            r,
            trial_of(task_id@, resolved_target_root@, file_size, requested_chunk_size, now),
        ) {
            (Ok(a), Ok(b)) => a@ == b,
            (Err(a), Err(b)) => a@ == b,
            _ => false,
        },
{
    let chunk: u64 = sizing::dual_same_file_chunk_size(file_size, requested_chunk_size);
    let sample: u64 = sizing::same_file_calibration_sample_bytes(file_size, chunk);
    if sample == 0 {
        return Err("empty calibration sample".to_string());
    }
    let mut named = task_id.to_string();
    named.append("-");
    named.append(decimal::dec_text(now).as_str());
    let id = paths::sanitize_task_id(named.as_str());
    let mut adb = ".nekotrans-calibration/".to_string();
    adb.append(id.as_str());
    adb.append("-adb.bin");
    let mut wifi = ".nekotrans-calibration/".to_string();
    wifi.append(id.as_str());
    wifi.append("-wifi.bin");
    Ok(
        LaneTrial {
            sample_bytes: sample,
            remote_root: adb_command::remote_path_join(
                resolved_target_root,
                ".nekotrans-calibration",
            ),
            adb_file: adb_command::remote_path_join(resolved_target_root, adb.as_str()),
            wifi_relative: wifi,
        },
    )
}

/// Whether numbers stand in ascending order, each once.
pub open spec fn strictly_ascending(s: Seq<u32>) -> bool {
    forall|i: int, j: int| 0 <= i < j < s.len() ==> #[trigger] s[i] < #[trigger] s[j]
}

/// Whether `out` lists the completed chunks below `total`, in ascending order and each once.
pub open spec fn lists_completed(out: Seq<u32>, completed: Seq<u32>, total: u32) -> bool {
    &&& strictly_ascending(out)
    &&& forall|k: u32| #[trigger] out.contains(k) <==> completed.contains(k) && k < total
}

/// The completed chunks below `total`, in ascending order and each once.
pub fn completed_below(completed: &Vec<u32>, total: u32) -> (r: Vec<u32>)
    ensures
        lists_completed(r@, completed@, total),
{
    let mut out: Vec<u32> = Vec::new();
    let mut i: usize = 0;
    while i < completed.len()
        invariant
            i <= completed.len(),
            strictly_ascending(out@),
            forall|k: u32| #[trigger]
                out@.contains(k) <==> completed@.take(i as int).contains(k) && k < total,
        decreases completed.len() - i,
    {
        let x: u32 = completed[i];
        let ghost before = out@;
        let ghost seen = completed@.take(i as int);
        let ghost next = completed@.take(i + 1);
        assert(next =~= seen.push(x));
        assert forall|k: u32| #[trigger] next.contains(k) <==> seen.contains(k) || k == x by {
            if seen.contains(k) {
                let j = choose|j: int| 0 <= j < seen.len() && seen[j] == k;
                assert(next[j] == k);
            }
            if k == x {
                assert(next[seen.len() as int] == k);
            }
        }
        if x < total {
            let mut at: usize = out.len();
            while at > 0 && out[at - 1] > x
                invariant
                    at <= out.len(),
                    forall|j: int| at <= j < out.len() ==> #[trigger] out@[j] > x,
                decreases at,
            {
                at -= 1;
            }
            let present = at > 0 && out[at - 1] == x;
            if !present {
                out.insert(at, x);
                assert(at > 0 ==> before[at - 1] < x);
                assert forall|a: int, b: int| 0 <= a < b < out@.len() implies #[trigger] out@[a]
                    < #[trigger] out@[b] by {
                    let pa = if a < at { a } else { a - 1 };
                    let pb = if b < at { b } else { b - 1 };
                    if a == at {
                        assert(before[pb] > x);
                    } else if b == at {
                        assert(before[a] <= before[at - 1]);
                    } else {
                        assert(before[pa] < before[pb]);
                    }
                }
                assert forall|k: u32| #[trigger] out@.contains(k) <==> before.contains(k) || k
                    == x by {
                    if before.contains(k) {
                        let j = choose|j: int| 0 <= j < before.len() && before[j] == k;
                        if j < at {
                            assert(out@[j] == k);
                        } else {
                            assert(out@[j + 1] == k);
                        }
                    }
                    if k == x {
                        assert(out@[at as int] == k);
                    }
                    if out@.contains(k) && k != x {
                        let j = choose|j: int| 0 <= j < out@.len() && out@[j] == k;
                        if j < at {
                            assert(before[j] == k);
                        } else {
                            assert(before[j - 1] == k);
                        }
                    }
                }
            } else {
                assert(before[at - 1] == x);
                assert(before.contains(x));
            }
        }
        i += 1;
    }
    assert(completed@.take(completed@.len() as int) =~= completed@);
    out
}

/// Whether the chunk at a place is the first or the last one of a lane.
#[verifier::opaque]
pub open spec fn is_edge(c: Seq<u32>, lane: DualSameFileLane, stride: u32, i: int) -> bool {
    owns(lane, c[i], stride) && ((forall|j: int|
        0 <= j < i ==> !owns(lane, #[trigger] c[j], stride)) || (forall|j: int|
        i < j < c.len() ==> !owns(lane, #[trigger] c[j], stride)))
}

/// Whether the chunk at a place guards the others: it is the first, one of the last two, or the
/// first or the last of a lane.
pub open spec fn is_guard(c: Seq<u32>, stride: u32, i: int) -> bool {
    ||| i == 0
    ||| i >= c.len() - 2
    ||| is_edge(c, DualSameFileLane::Adb, stride, i)
    ||| is_edge(c, DualSameFileLane::Wifi, stride, i)
}

/// The guards among the first `n` chunks.
pub open spec fn guards(c: Seq<u32>, stride: u32, n: nat) -> Seq<u32>
    decreases n,
{
    if n == 0 {
        Seq::empty()
    } else if is_guard(c, stride, n - 1) {
        guards(c, stride, (n - 1) as nat).push(c[n - 1])
    } else {
        guards(c, stride, (n - 1) as nat)
    }
}

fn is_edge_chunk(chunks: &Vec<u32>, lane: DualSameFileLane, wifi_stride: u32, i: usize) -> (r: bool)
    requires
        i < chunks.len(),
    ensures
        r == is_edge(chunks@, lane, wifi_stride, i as int),
{
    reveal(is_edge);
    if !lane.owns_chunk(chunks[i], wifi_stride) {
        return false;
    }
    let mut first = true;
    let mut j: usize = 0;
    while j < i
        invariant
            j <= i < chunks.len(),
            first <==> forall|k: int|
                0 <= k < j ==> !owns(lane, #[trigger] chunks@[k], wifi_stride),
        decreases i - j,
    {
        if lane.owns_chunk(chunks[j], wifi_stride) {
            first = false;
        }
        j += 1;
    }
    let mut last = true;
    j = i + 1;
    while j < chunks.len()
        invariant
            i < j <= chunks.len(),
            last <==> forall|k: int|
                i < k < j ==> !owns(lane, #[trigger] chunks@[k], wifi_stride),
        decreases chunks.len() - j,
    {
        if lane.owns_chunk(chunks[j], wifi_stride) {
            last = false;
        }
        j += 1;
    }
    first || last
}

/// The chunks that are looked at before the others are trusted.
pub fn same_file_resume_guard_chunks(completed_chunks: &Vec<u32>, wifi_stride: u32) -> (r: Vec<u32>)
    ensures
        r@ == guards(completed_chunks@, wifi_stride, completed_chunks@.len()),
{
    let mut out: Vec<u32> = Vec::new();
    let mut i: usize = 0;
    assert(out@ =~= guards(completed_chunks@, wifi_stride, 0));
    while i < completed_chunks.len()
        invariant
            i <= completed_chunks.len(),
            out@ == guards(completed_chunks@, wifi_stride, i as nat),
        decreases completed_chunks.len() - i,
    {
        if i == 0 || completed_chunks.len() - i <= 2 || is_edge_chunk(
            completed_chunks,
            DualSameFileLane::Adb,
            wifi_stride,
            i,
        ) || is_edge_chunk(completed_chunks, DualSameFileLane::Wifi, wifi_stride, i) {
            out.push(completed_chunks[i]);
        }
        i += 1;
    }
    out
}

proof fn lemma_guards_from(c: Seq<u32>, stride: u32, n: nat)
    requires
        n <= c.len(),
        strictly_ascending(c),
    ensures
        guards(c, stride, n).len() <= n,
        strictly_ascending(guards(c, stride, n)),
        forall|i: int|
            0 <= i < guards(c, stride, n).len() ==> c.take(n as int).contains(
                #[trigger] guards(c, stride, n)[i],
            ),
        forall|i: int|
            0 <= i < n && is_guard(c, stride, i) ==> guards(c, stride, n).contains(#[trigger] c[i]),
    decreases n,
{
    if n > 0 {
        let m = (n - 1) as nat;
        lemma_guards_from(c, stride, m);
        let g = guards(c, stride, m);
        let h = guards(c, stride, n);
        assert forall|i: int| 0 <= i < h.len() implies c.take(n as int).contains(
            #[trigger] h[i],
        ) by {
            if i < g.len() {
                assert(c.take(m as int).contains(g[i]));
                let j = choose|j: int| 0 <= j < m && c.take(m as int)[j] == g[i];
                assert(c.take(n as int)[j] == h[i]);
            } else {
                assert(c.take(n as int)[n - 1] == h[i]);
            }
        }
        assert forall|i: int| 0 <= i < n && is_guard(c, stride, i) implies h.contains(
            #[trigger] c[i],
        ) by {
            if i < m {
                assert(g.contains(c[i]));
                let j = choose|j: int| 0 <= j < g.len() && g[j] == c[i];
                assert(h[j] == c[i]);
            } else {
                assert(h[h.len() - 1] == c[i]);
            }
        }
        assert forall|i: int, j: int| 0 <= i < j < h.len() implies #[trigger] h[i]
            < #[trigger] h[j] by {
            if j == g.len() {
                assert(c.take(m as int).contains(g[i]));
                let k = choose|k: int| 0 <= k < m && c.take(m as int)[k] == g[i];
                assert(c[k] < c[n - 1]);
            }
        }
    } else {
        assert(guards(c, stride, 0) =~= Seq::empty());
    }
}

/// The guards are chunks of the checkpoint, in ascending order and each once; the first chunk and
/// the last are among them, and there are none only where no chunk is completed.
pub proof fn lemma_guards_cover_edges(c: Seq<u32>, stride: u32)
    requires
        strictly_ascending(c),
        c.len() > 0,
    ensures
        ({
            let g = guards(c, stride, c.len());
            &&& strictly_ascending(g)
            &&& forall|i: int| 0 <= i < g.len() ==> c.contains(#[trigger] g[i])
            &&& g.contains(c[0])
            &&& g.contains(c.last())
            &&& 0 < g.len() <= c.len()
        }),
{
    lemma_guards_from(c, stride, c.len());
    assert(c.take(c.len() as int) =~= c);
    let g = guards(c, stride, c.len());
    assert(is_guard(c, stride, 0));
    assert(is_guard(c, stride, c.len() - 1));
    assert(g.contains(c[0]));
    assert(g.contains(c[c.len() - 1]));
}

/// Where the comparison of a stretch stands.
#[derive(Debug)]
pub enum CompareStage {
    Fetch,
    /// The local digest is to be made; that of the fetched bytes.
    Digest(String),
    Told(bool),
    Failed(String),
}

pub enum CompareStageView {
    Fetch,
    Digest(Seq<char>),
    Told(bool),
    Failed(Seq<char>),
}

impl View for CompareStage {
    type V = CompareStageView;

    open spec fn view(&self) -> CompareStageView {
        match self {
            CompareStage::Fetch => CompareStageView::Fetch,
            CompareStage::Digest(d) => CompareStageView::Digest(d@),
            CompareStage::Told(b) => CompareStageView::Told(*b),
            CompareStage::Failed(m) => CompareStageView::Failed(m@),
        }
    }
}

/// The comparison of a stretch of a file with the one on the device.
#[derive(Debug)]
pub struct ChunkCompare {
    relative_path: String,
    offset: u64,
    length: u64,
    stage: CompareStage,
}

pub struct CompareView {
    pub relative_path: Seq<char>,
    pub offset: u64,
    pub length: u64,
    pub stage: CompareStageView,
}

impl View for ChunkCompare {
    type V = CompareView;

    closed spec fn view(&self) -> CompareView {
        CompareView {
            relative_path: self.relative_path@,
            offset: self.offset,
            length: self.length,
            stage: self.stage@,
        }
    }
}

/// What to do for a comparison.
#[derive(Debug)]
pub enum CompareStep {
    /// Ask the agent, and hand the bytes of the answer back.
    Fetch(AgentAsk),
    /// Make the digest of the local stretch.
    DigestRange(u64, u64),
    /// Nothing: whether the stretches are the same.
    Told(bool),
}

pub enum CompareStepView {
    Fetch(AskView),
    DigestRange(u64, u64),
    Told(bool),
}

impl View for CompareStep {
    type V = CompareStepView;

    open spec fn view(&self) -> CompareStepView {
        match self {
            CompareStep::Fetch(a) => CompareStepView::Fetch(a@),
            CompareStep::DigestRange(o, n) => CompareStepView::DigestRange(*o, *n),
            CompareStep::Told(b) => CompareStepView::Told(*b),
        }
    }
}

impl CompareView {
    pub open spec fn to(self, stage: CompareStageView) -> CompareView {
        CompareView { stage, ..self }
    }

    /// What to do, or why nothing more is done.
    pub open spec fn step(self) -> Result<CompareStepView, Seq<char>> {
        match self.stage {
            CompareStageView::Fetch => Ok(
                CompareStepView::Fetch(
                    AskView::PullBinary(self.relative_path, self.offset, self.length),
                ),
            ),
            CompareStageView::Digest(_) => Ok(
                CompareStepView::DigestRange(self.offset, self.length),
            ),
            CompareStageView::Told(b) => Ok(CompareStepView::Told(b)),
            CompareStageView::Failed(m) => Err(m),
        }
    }

    /// Bytes were fetched: too few or too many are not the same.
    pub open spec fn fetched(self, bytes: Result<Seq<u8>, Seq<char>>) -> CompareView {
        match bytes {
            Err(m) => self.to(CompareStageView::Failed(m)),
            Ok(b) => if b.len() != self.length {
                self.to(CompareStageView::Told(false))
            } else {
                self.to(CompareStageView::Digest(digest::blake3_hex(b)))
            },
        }
    }

    /// The local digest was made.
    pub open spec fn digested(self, local: Result<Seq<char>, Seq<char>>) -> CompareView {
        match (self.stage, local) {
            (CompareStageView::Digest(remote), Ok(d)) => self.to(
                CompareStageView::Told(d == remote),
            ),
            (_, Err(m)) => self.to(CompareStageView::Failed(m)),
            _ => self,
        }
    }
}

/// The comparison of a stretch at its start; one without bytes is the same at once.
pub open spec fn fresh_compare(path: Seq<char>, offset: u64, length: u64) -> CompareView {
    CompareView {
        relative_path: path,
        offset,
        length,
        stage: if length == 0 {
            CompareStageView::Told(true)
        } else {
            CompareStageView::Fetch
        },
    }
}

/// The comparison of a completed chunk with what is on the device.
pub fn verify_same_file_checkpoint_chunk(relative_path: &str, offset: u64, length: u64) -> (r:
    ChunkCompare)
    ensures
        r@ == fresh_compare(relative_path@, offset, length),
{
    ChunkCompare {
        relative_path: relative_path.to_string(),
        offset,
        length,
        stage: if length == 0 {
            CompareStage::Told(true)
        } else {
            CompareStage::Fetch
        },
    }
}

impl ChunkCompare {
    /// What to do, or why nothing more is done.
    pub fn next_step(&self) -> (r: Result<CompareStep, String>)
        ensures
            match (r, self@.step()) {
                (Ok(a), Ok(b)) => a@ == b,
                (Err(a), Err(b)) => a@ == b,
                _ => false,
            },
    {
        match &self.stage {
            CompareStage::Fetch => Ok(
                CompareStep::Fetch(
                    AgentAsk::PullBinary(self.relative_path.clone(), self.offset, self.length),
                ),
            ),
            CompareStage::Digest(_) => Ok(CompareStep::DigestRange(self.offset, self.length)),
            CompareStage::Told(b) => Ok(CompareStep::Told(*b)),
            CompareStage::Failed(m) => Err(m.clone()),
        }
    }

    /// Takes in bytes that were fetched.
    pub fn take_bytes(&mut self, bytes: &Result<Vec<u8>, String>)
        ensures
            final(self)@ == old(self)@.fetched(wifi_chunk::bytes_view(*bytes)),
    {
        self.stage = match bytes {
            Err(m) => CompareStage::Failed(m.clone()),
            Ok(b) => if b.len() as u128 != self.length as u128 {
                CompareStage::Told(false)
            } else {
                CompareStage::Digest(digest::digest_of(b.as_slice()))
            },
        };
    }

    /// Takes in the local digest.
    pub fn take_digest(&mut self, local: &Result<String, String>)
        requires
            old(self)@.stage is Digest,
        ensures
            final(self)@ == old(self)@.digested(adb_command::outcome_view(*local)),
    {
        let same = match (&self.stage, local) {
            (CompareStage::Digest(remote), Ok(d)) => text::str_eq(d.as_str(), remote.as_str()),
            _ => false,
        };
        self.stage = match local {
            Ok(_) => CompareStage::Told(same),
            Err(m) => CompareStage::Failed(m.clone()),
        };
    }
}

/// A stretch whose bytes are the same on both sides is told to be the same.
pub proof fn lemma_equal_bytes_compare_equal(
    path: Seq<char>,
    offset: u64,
    bytes: Seq<u8>,
)
    requires
        bytes.len() <= u64::MAX,
    ensures
        ({
            let v = fresh_compare(path, offset, bytes.len() as u64);
            if bytes.len() == 0 {
                v.stage == CompareStageView::Told(true)
            } else {
                v.fetched(Ok(bytes)).digested(Ok(digest::blake3_hex(bytes))).stage
                    == CompareStageView::Told(true)
            }
        }),
{
}

/// Where the look at a checkpoint stands.
#[derive(Debug)]
pub enum ResumeStage {
    /// What is about to be done is to be told.
    Begin,
    /// A guard is to be compared.
    Guard(usize),
    /// That the guards are the same is to be told.
    Trust,
    /// That the chunks are looked through is to be told.
    Distrust,
    /// A chunk is to be compared.
    Scan(usize),
    Done,
    Failed(String),
}

pub enum ResumeStageView {
    Begin,
    Guard(int),
    Trust,
    Distrust,
    Scan(int),
    Done,
    Failed(Seq<char>),
}

impl View for ResumeStage {
    type V = ResumeStageView;

    open spec fn view(&self) -> ResumeStageView {
        match self {
            ResumeStage::Begin => ResumeStageView::Begin,
            ResumeStage::Guard(i) => ResumeStageView::Guard(*i as int),
            ResumeStage::Trust => ResumeStageView::Trust,
            ResumeStage::Distrust => ResumeStageView::Distrust,
            ResumeStage::Scan(i) => ResumeStageView::Scan(*i as int),
            ResumeStage::Done => ResumeStageView::Done,
            ResumeStage::Failed(m) => ResumeStageView::Failed(m@),
        }
    }
}

/// What to do.
#[derive(Debug)]
pub enum ResumeStep {
    /// Take in what is told.
    Tell,
    /// Look up the size of the local file, and compare the chunk.
    Compare(u32),
    /// Nothing: the chunks that are kept.
    Done(Vec<u32>),
}

pub enum ResumeStepView {
    Tell,
    Compare(u32),
    Done(Seq<u32>),
}

impl View for ResumeStep {
    type V = ResumeStepView;

    open spec fn view(&self) -> ResumeStepView {
        match self {
            ResumeStep::Tell => ResumeStepView::Tell,
            ResumeStep::Compare(k) => ResumeStepView::Compare(*k),
            ResumeStep::Done(v) => ResumeStepView::Done(v@),
        }
    }
}

/// A look at the chunks that a checkpoint has as completed.
#[derive(Debug)]
pub struct ResumeCheck {
    chunks: Vec<u32>,
    guard_chunks: Vec<u32>,
    kept: Vec<u32>,
    stage: ResumeStage,
}

pub struct ResumeView {
    pub chunks: Seq<u32>,
    pub guard_chunks: Seq<u32>,
    /// The chunks that are kept so far, once the guards were not the same.
    pub kept: Seq<u32>,
    pub stage: ResumeStageView,
}

impl View for ResumeCheck {
    type V = ResumeView;

    closed spec fn view(&self) -> ResumeView {
        ResumeView {
            chunks: self.chunks@,
            guard_chunks: self.guard_chunks@,
            kept: self.kept@,
            stage: self.stage@,
        }
    }
}

impl ResumeView {
    pub open spec fn wf(self) -> bool {
        &&& self.guard_chunks.len() > 0 || self.stage is Done
        &&& self.stage matches ResumeStageView::Guard(i) ==> 0 <= i < self.guard_chunks.len()
        &&& self.stage matches ResumeStageView::Scan(i) ==> 0 <= i < self.chunks.len()
        &&& self.chunks.len() > 0 || self.stage is Done
    }

    pub open spec fn to(self, stage: ResumeStageView) -> ResumeView {
        ResumeView { stage, ..self }
    }

    /// What to do, or why nothing more is done.
    pub open spec fn step(self) -> Result<ResumeStepView, Seq<char>> {
        match self.stage {
            ResumeStageView::Begin => Ok(ResumeStepView::Tell),
            ResumeStageView::Guard(i) => Ok(ResumeStepView::Compare(self.guard_chunks[i])),
            ResumeStageView::Trust => Ok(ResumeStepView::Tell),
            ResumeStageView::Distrust => Ok(ResumeStepView::Tell),
            ResumeStageView::Scan(i) => Ok(ResumeStepView::Compare(self.chunks[i])),
            ResumeStageView::Done => Ok(ResumeStepView::Done(self.kept)),
            ResumeStageView::Failed(m) => Err(m),
        }
    }

    /// What is told is taken in.
    pub open spec fn told(self) -> (ResumeView, DualNoteView) {
        match self.stage {
            ResumeStageView::Begin => (
                self.to(ResumeStageView::Guard(0)),
                DualNoteView::Stage {
                    event: "dual-same-file-resume-check"@,
                    message: "quick resume guard: checking "@ + decimal::dec(
                        self.guard_chunks.len(),
                    ) + " of "@ + decimal::dec(self.chunks.len()) + " checkpointed chunks"@,
                },
            ),
            ResumeStageView::Trust => (
                ResumeView { kept: self.chunks, stage: ResumeStageView::Done, ..self },
                DualNoteView::Stage {
                    event: "dual-same-file-resume-check"@,
                    message: "resume guard passed; trusting checkpoint and continuing transfer"@,
                },
            ),
            _ => (
                self.to(ResumeStageView::Scan(0)),
                DualNoteView::Stage {
                    event: "dual-same-file-resume-scan"@,
                    message: "resume guard mismatch; scanning checkpoint chunks before rewrite"@,
                },
            ),
        }
    }

    /// Whether the chunk at hand is the same on both sides.
    pub open spec fn compared(self, same: Result<bool, Seq<char>>) -> ResumeView {
        match (self.stage, same) {
            (_, Err(m)) => self.to(ResumeStageView::Failed(m)),
            (ResumeStageView::Guard(i), Ok(same)) => if !same {
                self.to(ResumeStageView::Distrust)
            } else if i + 1 < self.guard_chunks.len() {
                self.to(ResumeStageView::Guard(i + 1))
            } else {
                self.to(ResumeStageView::Trust)
            },
            (ResumeStageView::Scan(i), Ok(same)) => ResumeView {
                kept: if same {
                    self.kept.push(self.chunks[i])
                } else {
                    self.kept
                },
                stage: if i + 1 < self.chunks.len() {
                    ResumeStageView::Scan(i + 1)
                } else {
                    ResumeStageView::Done
                },
                ..self
            },
            _ => self,
        }
    }
}

/// The view of an answer or a complaint.
pub open spec fn same_view(r: Result<bool, String>) -> Result<bool, Seq<char>> {
    match r {
        Ok(b) => Ok(b),
        Err(m) => Err(m@),
    }
}

/// A look at completed chunks at its start.
pub open spec fn fresh_resume(chunks: Seq<u32>, stride: u32) -> ResumeView {
    ResumeView {
        chunks,
        guard_chunks: guards(chunks, stride, chunks.len()),
        kept: Seq::empty(),
        stage: if chunks.len() == 0 {
            ResumeStageView::Done
        } else {
            ResumeStageView::Begin
        },
    }
}

/// A look at the completed chunks of a file: some guards are compared first, and all chunks only
/// where one of them is not the same.
pub fn prepare_same_file_resume_chunks(
    completed_chunks: &Vec<u32>,
    total_chunks: u32,
    wifi_stride: u32,
) -> (r: ResumeCheck)
    ensures
        exists|chunks: Seq<u32>|
            #[trigger] lists_completed(chunks, completed_chunks@, total_chunks) && r@
                == fresh_resume(chunks, wifi_stride),
        r@.wf(),
{
    let chunks = completed_below(completed_chunks, total_chunks);
    let guard_chunks = same_file_resume_guard_chunks(&chunks, wifi_stride);
    let kept: Vec<u32> = Vec::new();
    assert(kept@ =~= Seq::empty());
    proof {
        if chunks@.len() > 0 {
            lemma_guards_cover_edges(chunks@, wifi_stride);
        }
    }
    let ghost listed = chunks@;
    let stage = if chunks.len() == 0 {
        ResumeStage::Done
    } else {
        ResumeStage::Begin
    };
    let r = ResumeCheck { chunks, guard_chunks, kept, stage };
    assert(lists_completed(listed, completed_chunks@, total_chunks) && r@ == fresh_resume(
        listed,
        wifi_stride,
    ));
    r
}

impl ResumeCheck {
    /// What to do, or why nothing more is done.
    pub fn next_step(&self) -> (r: Result<ResumeStep, String>)
        requires
            self@.wf(),
        ensures
            match (r, self@.step()) {
                (Ok(a), Ok(b)) => a@ == b,
                (Err(a), Err(b)) => a@ == b,
                _ => false,
            },
    {
        match &self.stage {
            ResumeStage::Begin => Ok(ResumeStep::Tell),
            ResumeStage::Guard(i) => Ok(ResumeStep::Compare(self.guard_chunks[*i])),
            ResumeStage::Trust => Ok(ResumeStep::Tell),
            ResumeStage::Distrust => Ok(ResumeStep::Tell),
            ResumeStage::Scan(i) => Ok(ResumeStep::Compare(self.chunks[*i])),
            ResumeStage::Done => Ok(ResumeStep::Done(copy_chunks(&self.kept))),
            ResumeStage::Failed(m) => Err(m.clone()),
        }
    }

    /// What is told.
    pub fn tell(&mut self) -> (r: DualNote)
        requires
            old(self)@.wf(),
            old(self)@.stage is Begin || old(self)@.stage is Trust || old(self)@.stage is Distrust,
        ensures
            final(self)@.wf(),
            final(self)@ == old(self)@.told().0,
            r@ == old(self)@.told().1,
    {
        match &self.stage {
            ResumeStage::Begin => {
                let mut m = "quick resume guard: checking ".to_string();
                m.append(decimal::dec_text(self.guard_chunks.len() as u128).as_str());
                m.append(" of ");
                m.append(decimal::dec_text(self.chunks.len() as u128).as_str());
                m.append(" checkpointed chunks");
                self.stage = ResumeStage::Guard(0);
                DualNote::Stage { event: "dual-same-file-resume-check".to_string(), message: m }
            },
            ResumeStage::Trust => {
                self.kept = copy_chunks(&self.chunks);
                self.stage = ResumeStage::Done;
                DualNote::Stage {
                    event: "dual-same-file-resume-check".to_string(),
                    message:
                        "resume guard passed; trusting checkpoint and continuing transfer".to_string(),
                }
            },
            _ => {
                self.stage = ResumeStage::Scan(0);
                DualNote::Stage {
                    event: "dual-same-file-resume-scan".to_string(),
                    message:
                        "resume guard mismatch; scanning checkpoint chunks before rewrite".to_string(),
                }
            },
        }
    }

    /// Takes in whether the chunk at hand is the same on both sides.
    pub fn take_compare(&mut self, same: &Result<bool, String>)
        requires
            old(self)@.wf(),
            old(self)@.stage is Guard || old(self)@.stage is Scan,
        ensures
            final(self)@.wf(),
            final(self)@ == old(self)@.compared(same_view(*same)),
    {
        let same = match same {
            Err(m) => {
                self.stage = ResumeStage::Failed(m.clone());
                return ;
            },
            Ok(b) => *b,
        };
        match &self.stage {
            ResumeStage::Guard(i) => {
                let i: usize = *i;
                let count: usize = self.guard_chunks.len();
                self.stage = if !same {
                    ResumeStage::Distrust
                } else if i + 1 < count {
                    ResumeStage::Guard(i + 1)
                } else {
                    ResumeStage::Trust
                };
            },
            ResumeStage::Scan(i) => {
                let i: usize = *i;
                let count: usize = self.chunks.len();
                if same {
                    self.kept.push(self.chunks[i]);
                }
                self.stage = if i + 1 < count {
                    ResumeStage::Scan(i + 1)
                } else {
                    ResumeStage::Done
                };
            },
            _ => {},
        }
    }
}

/// A copy of a list of chunks.
pub fn copy_chunks(chunks: &Vec<u32>) -> (r: Vec<u32>)
    ensures
        r@ == chunks@,
{
    let mut out: Vec<u32> = Vec::new();
    let mut i: usize = 0;
    while i < chunks.len()
        invariant
            i <= chunks.len(),
            out@ == chunks@.take(i as int),
        decreases chunks.len() - i,
    {
        out.push(chunks[i]);
        assert(out@ =~= chunks@.take(i + 1));
        i += 1;
    }
    assert(chunks@.take(chunks@.len() as int) =~= chunks@);
    out
}

/// Where a chunk of a shared file lies: its offset, and its length by the size that the local file
/// has now.
pub fn resume_chunk_range(local_size: u64, chunk_size: u64, chunk_index: u32) -> (r: (u64, u64))
    requires
        0 < chunk_size <= u32::MAX,
    ensures
        r.0 == chunk_index * chunk_size,
        r.1 == sizing::length_at(local_size, chunk_size, chunk_index as int),
{
    assert(0 <= chunk_index * chunk_size <= 0xffff_ffff * 0xffff_ffff) by (nonlinear_arith)
        requires
            0 <= chunk_index <= 0xffff_ffff,
            0 <= chunk_size <= 0xffff_ffff,
    ;
    assert(models::chunk_step(chunk_size) == chunk_size);
    (
        chunk_index as u64 * chunk_size,
        sizing::chunk_length_for(local_size, chunk_size, chunk_index),
    )
}

/// The chunks of a look that is done are among the completed ones; where every guard was the same
/// they are all of them.
pub open spec fn resume_ok(v: ResumeView) -> bool {
    forall|i: int| 0 <= i < v.kept.len() ==> v.chunks.contains(#[trigger] v.kept[i])
}

/// A look keeps only chunks that the checkpoint has, and once the guards are trusted it keeps all
/// of them.
pub proof fn lemma_resume_keeps_completed(v: ResumeView, same: Result<bool, Seq<char>>)
    requires
        v.wf(),
        resume_ok(v),
    ensures
        resume_ok(v.told().0),
        resume_ok(v.compared(same)),
        v.stage is Trust ==> v.told().0.kept == v.chunks && v.told().0.stage is Done,
        v.stage is Guard && same == Ok::<bool, Seq<char>>(false) ==> v.compared(same).stage
            is Distrust,
{
    match v.stage {
        ResumeStageView::Scan(i) => {
            assert(v.chunks.contains(v.chunks[i]));
        },
        ResumeStageView::Trust => {
            assert forall|i: int| 0 <= i < v.chunks.len() implies v.chunks.contains(
                #[trigger] v.chunks[i],
            ) by {}
        },
        _ => {},
    }
}

/// A comparison asks for the stretch and for the digest of the same stretch of the local file, and
/// tells the stretches to be the same exactly where as many bytes came as it has and their digest is
/// that of the local stretch. What goes wrong ends it.
pub proof fn lemma_comparison_tells_the_truth(
    path: Seq<char>,
    offset: u64,
    length: u64,
    remote: Seq<u8>,
    local: Seq<char>,
    m: Seq<char>,
)
    ensures
        ({
            let v = fresh_compare(path, offset, length);
            let u = v.fetched(Ok(remote));
            let same = Ok::<CompareStepView, Seq<char>>(
                CompareStepView::Told(
                    remote.len() == length && digest::blake3_hex(remote) == local,
                ),
            );
            &&& length == 0 ==> v.step() == Ok::<CompareStepView, Seq<char>>(
                CompareStepView::Told(true),
            )
            &&& length > 0 ==> {
                &&& v.step() == Ok::<CompareStepView, Seq<char>>(
                    CompareStepView::Fetch(AskView::PullBinary(path, offset, length)),
                )
                &&& remote.len() == length ==> u.step() == Ok::<CompareStepView, Seq<char>>(
                    CompareStepView::DigestRange(offset, length),
                ) && u.digested(Ok(local)).step() == same && u.digested(Err(m)).step() == Err::<
                    CompareStepView,
                    Seq<char>,
                >(m)
                &&& remote.len() != length ==> u.step() == same
                &&& v.fetched(Err(m)).step() == Err::<CompareStepView, Seq<char>>(m)
            }
        }),
{
}

/// A look one step on, where every question is answered as things are: `device` tells of each chunk
/// whether it is the same on the device.
pub open spec fn truly_compared(v: ResumeView, device: spec_fn(u32) -> bool) -> ResumeView {
    match v.step() {
        Ok(ResumeStepView::Tell) => v.told().0,
        Ok(ResumeStepView::Compare(k)) => v.compared(Ok(device(k))),
        _ => v,
    }
}

/// A look so many steps on, where every question is answered as things are.
pub open spec fn truly_resumed(v: ResumeView, device: spec_fn(u32) -> bool, steps: nat) -> ResumeView
    decreases steps,
{
    if steps == 0 {
        v
    } else {
        truly_resumed(truly_compared(v, device), device, (steps - 1) as nat)
    }
}

/// Whether every chunk that guards the others is the same on the device: the first of the file, the
/// last two, and the first and the last of each lane.
pub open spec fn guards_hold(c: Seq<u32>, stride: u32, device: spec_fn(u32) -> bool) -> bool {
    let step = if stride < 2 {
        2
    } else {
        stride as int
    };
    forall|i: int|
        #![trigger c[i]]
        0 <= i < c.len() && {
            ||| i == 0
            ||| i >= c.len() - 2
            ||| forall|j: int| 0 <= j < i ==> (#[trigger] c[j] as int % step == 1) != (c[i] as int
                % step == 1)
            ||| forall|j: int| i < j < c.len() ==> (#[trigger] c[j] as int % step == 1) != (
            c[i] as int % step == 1)
        } ==> device(c[i])
}

proof fn lemma_guards_are_guards(c: Seq<u32>, stride: u32, n: nat, k: int) -> (i: int)
    requires
        n <= c.len(),
        0 <= k < guards(c, stride, n).len(),
    ensures
        0 <= i < n,
        guards(c, stride, n)[k] == c[i],
        is_guard(c, stride, i),
    decreases n,
{
    let m = (n - 1) as nat;
    if k < guards(c, stride, m).len() {
        lemma_guards_are_guards(c, stride, m, k)
    } else {
        m as int
    }
}

proof fn lemma_guards_hold(c: Seq<u32>, stride: u32, device: spec_fn(u32) -> bool)
    requires
        strictly_ascending(c),
    ensures
        guards_hold(c, stride, device) <==> forall|k: int|
            0 <= k < guards(c, stride, c.len()).len() ==> device(
                #[trigger] guards(c, stride, c.len())[k],
            ),
{
    reveal(is_edge);
    let g = guards(c, stride, c.len());
    lemma_guards_from(c, stride, c.len());
    if guards_hold(c, stride, device) {
        assert forall|k: int| 0 <= k < g.len() implies device(#[trigger] g[k]) by {
            let i = lemma_guards_are_guards(c, stride, c.len(), k);
            assert(device(c[i]));
        }
    }
    if forall|k: int| 0 <= k < g.len() ==> device(#[trigger] g[k]) {
        assert forall|i: int|
            #![trigger c[i]]
            0 <= i < c.len() && is_guard(c, stride, i) implies device(c[i]) by {
            assert(g.contains(c[i]));
            let k = choose|k: int| 0 <= k < g.len() && g[k] == c[i];
            assert(device(g[k]));
        }
        let step = if stride < 2 {
            2
        } else {
            stride as int
        };
        assert forall|i: int|
            #![trigger c[i]]
            0 <= i < c.len() && {
                ||| i == 0
                ||| i >= c.len() - 2
                ||| forall|j: int| 0 <= j < i ==> (#[trigger] c[j] as int % step == 1) != (
                c[i] as int % step == 1)
                ||| forall|j: int| i < j < c.len() ==> (#[trigger] c[j] as int % step == 1) != (
                c[i] as int % step == 1)
            } implies device(c[i]) by {
            let lane = if c[i] as int % step == 1 {
                DualSameFileLane::Wifi
            } else {
                DualSameFileLane::Adb
            };
            assert(owns(lane, c[i], stride));
            if !(i == 0 || i >= c.len() - 2) {
                assert(is_edge(c, lane, stride, i));
                assert(is_guard(c, stride, i));
            }
        }
    }
}

proof fn lemma_scan_keeps_what_is_there(v: ResumeView, device: spec_fn(u32) -> bool, steps: nat)
    requires
        v.wf(),
        v.stage matches ResumeStageView::Scan(i) && v.kept == v.chunks.take(i).filter(device)
            && steps >= v.chunks.len() - i,
    ensures
        truly_resumed(v, device, steps).step() == Ok::<ResumeStepView, Seq<char>>(
            ResumeStepView::Done(v.chunks.filter(device)),
        ),
    decreases steps,
{
    reveal(Seq::filter);
    let i = v.stage->Scan_0;
    let u = truly_compared(v, device);
    let next = v.chunks.take(i + 1);
    assert(next.drop_last() =~= v.chunks.take(i));
    assert(next.last() == v.chunks[i]);
    assert(u.kept == next.filter(device));
    if i + 1 < v.chunks.len() {
        lemma_scan_keeps_what_is_there(u, device, (steps - 1) as nat);
    } else {
        assert(next =~= v.chunks);
        lemma_done_stays(u, device, (steps - 1) as nat);
    }
}

proof fn lemma_done_stays(v: ResumeView, device: spec_fn(u32) -> bool, steps: nat)
    requires
        v.stage is Done,
    ensures
        truly_resumed(v, device, steps) == v,
    decreases steps,
{
    if steps > 0 {
        lemma_done_stays(v, device, (steps - 1) as nat);
    }
}

proof fn lemma_guards_decide(v: ResumeView, device: spec_fn(u32) -> bool, steps: nat)
    requires
        v.wf(),
        v.kept.len() == 0,
        v.stage matches ResumeStageView::Guard(i) && steps >= v.guard_chunks.len() - i + 1
            + v.chunks.len() && forall|k: int| 0 <= k < i ==> device(#[trigger] v.guard_chunks[k]),
    ensures
        truly_resumed(v, device, steps).step() == Ok::<ResumeStepView, Seq<char>>(
            ResumeStepView::Done(
                if forall|k: int|
                    0 <= k < v.guard_chunks.len() ==> device(#[trigger] v.guard_chunks[k]) {
                    v.chunks
                } else {
                    v.chunks.filter(device)
                },
            ),
        ),
    decreases steps,
{
    reveal_with_fuel(truly_resumed, 3);
    let i = v.stage->Guard_0;
    let u = truly_compared(v, device);
    if !device(v.guard_chunks[i]) {
        let w = truly_compared(u, device);
        assert(w.stage == ResumeStageView::Scan(0));
        assert(w.kept =~= w.chunks.take(0).filter(device)) by {
            reveal(Seq::filter);
        }
        lemma_scan_keeps_what_is_there(w, device, (steps - 2) as nat);
    } else if i + 1 < v.guard_chunks.len() {
        lemma_guards_decide(u, device, (steps - 1) as nat);
    } else {
        assert forall|k: int| 0 <= k < v.guard_chunks.len() implies device(
            #[trigger] v.guard_chunks[k],
        ) by {
            assert(k < i || k == i);
        }
        let w = truly_compared(u, device);
        lemma_done_stays(w, device, (steps - 2) as nat);
    }
}

/// A look at completed chunks keeps all of them where every guard is the same on the device, and else
/// exactly those that are the same: no chunk is trusted before each guard was compared, and once
/// one differs a chunk is kept only if it was itself compared and is the same.
pub proof fn lemma_resume_keeps_what_is_there(
    completed: Seq<u32>,
    total: u32,
    chunks: Seq<u32>,
    stride: u32,
    device: spec_fn(u32) -> bool,
    steps: nat,
)
    requires
        lists_completed(chunks, completed, total),
        steps >= 2 * chunks.len() + 2,
    ensures
        truly_resumed(fresh_resume(chunks, stride), device, steps).step() == Ok::<
            ResumeStepView,
            Seq<char>,
        >(
            ResumeStepView::Done(
                if guards_hold(chunks, stride, device) {
                    chunks
                } else {
                    chunks.filter(device)
                },
            ),
        ),
{
    let v = fresh_resume(chunks, stride);
    if chunks.len() == 0 {
        lemma_done_stays(v, device, steps);
        assert(chunks =~= Seq::empty());
    } else {
        lemma_guards_cover_edges(chunks, stride);
        lemma_guards_from(chunks, stride, chunks.len());
        lemma_guards_hold(chunks, stride, device);
        let u = truly_compared(v, device);
        assert(u.stage == ResumeStageView::Guard(0));
        lemma_guards_decide(u, device, (steps - 1) as nat);
    }
}

/// Where a guard differs, no chunk that differs is kept; and a chunk that is the same is kept always.
pub proof fn lemma_resume_drops_what_differs(
    completed: Seq<u32>,
    total: u32,
    chunks: Seq<u32>,
    stride: u32,
    device: spec_fn(u32) -> bool,
    steps: nat,
    k: u32,
)
    requires
        lists_completed(chunks, completed, total),
        steps >= 2 * chunks.len() + 2,
    ensures
        truly_resumed(fresh_resume(chunks, stride), device, steps).step() matches Ok(
            ResumeStepView::Done(kept),
        ) && {
            &&& kept.contains(k) ==> completed.contains(k) && k < total
            &&& completed.contains(k) && k < total && device(k) ==> kept.contains(k)
            &&& kept.contains(k) && !device(k) ==> guards_hold(chunks, stride, device)
        },
{
    lemma_resume_keeps_what_is_there(completed, total, chunks, stride, device, steps);
    let found = chunks.filter(device);
    assert(chunks.contains(k) <==> completed.contains(k) && k < total);
    if found.contains(k) {
        let i = choose|i: int| 0 <= i < found.len() && found[i] == k;
        chunks.lemma_filter_pred(device, i);
        chunks.lemma_filter_contains_rev(device, k);
    }
    if chunks.contains(k) && device(k) {
        let i = choose|i: int| 0 <= i < chunks.len() && chunks[i] == k;
        chunks.lemma_filter_contains(device, i);
    }
}

/// A comparison that went wrong ends the look with what went wrong.
pub proof fn lemma_failed_comparison_ends_the_look(v: ResumeView, m: Seq<char>)
    ensures
        v.compared(Err(m)).step() == Err::<ResumeStepView, Seq<char>>(m),
{
}

/// The plan of two lanes has the stride that is set; else the one that the trial gave; else one of
/// four chunks goes over the network, and the plan tells what went wrong with the trial. The batch
/// is the one given.
pub proof fn lemma_plan_follows_setting_then_trial(
    configured: Option<u32>,
    batch: int,
    trial: Result<(u32, LaneRatesView), Seq<char>>,
)
    ensures
        ({
            let p = lane_plan(configured, batch, trial);
            &&& p.wifi_batch_chunks == batch
            &&& configured is Some ==> p.wifi_stride == configured->0 && p.rates is None
                && p.source == "env"@
            &&& configured is None && trial is Ok ==> p.wifi_stride == trial->Ok_0.0 && p.rates
                == Some(trial->Ok_0.1) && p.source == "startup-calibration"@
            &&& configured is None && trial is Err ==> p.wifi_stride == 4 && p.rates is None
                && p.source == "fallback("@ + trial->Err_0 + ")"@
        }),
{
}

/// Of every so many chunks, by the stride but at least of every two, the second goes over the network,
/// and all others over ADB.
pub proof fn lemma_second_of_every_stride_goes_over_network(k: u32, stride: u32)
    ensures
        owns(DualSameFileLane::Wifi, k, stride) <==> k as int % (if stride < 2 {
            2int
        } else {
            stride as int
        }) == 1,
        owns(DualSameFileLane::Adb, k, stride) <==> !owns(DualSameFileLane::Wifi, k, stride),
        DualSameFileLane::Adb.lane() == LaneAssignment::Adb,
        DualSameFileLane::Wifi.lane() == LaneAssignment::Wifi,
        DualSameFileLane::Adb.name() == "ADB"@,
        DualSameFileLane::Wifi.name() == "Wi-Fi"@,
{
}

/// A lane carries over, in ascending order, just those chunks below the total that it has and that are
/// not completed.
pub proof fn lemma_lane_carries_its_open_chunks(
    lane: DualSameFileLane,
    n: nat,
    stride: u32,
    completed: Seq<u32>,
    k: u32,
)
    requires
        n <= 0x1_0000_0000,
    ensures
        lane_chunks(lane, n, stride, completed).contains(k) <==> k < n && !completed.contains(k)
            && (lane == DualSameFileLane::Wifi) == (k as int % (if stride < 2 {
            2int
        } else {
            stride as int
        }) == 1),
        strictly_ascending(lane_chunks(lane, n, stride, completed)),
        forall|i: int|
            0 <= i < lane_chunks(lane, n, stride, completed).len() ==> #[trigger] lane_chunks(
                lane,
                n,
                stride,
                completed,
            )[i] < n,
    decreases n,
{
    let all = lane_chunks(lane, n, stride, completed);
    if n > 0 {
        let m = (n - 1) as nat;
        lemma_lane_carries_its_open_chunks(lane, m, stride, completed, k);
        let head = lane_chunks(lane, m, stride, completed);
        let last = m as u32;
        if all.len() > head.len() {
            assert(all == head.push(last));
            assert(all[head.len() as int] == last);
            if head.contains(k) {
                let i = choose|i: int| 0 <= i < head.len() && head[i] == k;
                assert(all[i] == k);
            }
            if all.contains(k) && k != last {
                let i = choose|i: int| 0 <= i < all.len() && all[i] == k;
                assert(head[i] == k);
            }
        }
        if k == last && head.contains(k) {
            let i = choose|i: int| 0 <= i < head.len() && head[i] == k;
            assert(head[i] < m);
        }
    }
}

/// The completed chunks that a look starts with are those of the checkpoint that the file has.
pub proof fn lemma_look_starts_with_completed_chunks(chunks: Seq<u32>, stride: u32)
    ensures
        ({
            let v = fresh_resume(chunks, stride);
            &&& v.chunks == chunks
            &&& chunks.len() == 0 ==> v.step() == Ok::<ResumeStepView, Seq<char>>(
                ResumeStepView::Done(Seq::empty()),
            )
            &&& chunks.len() > 0 ==> v.step() == Ok::<ResumeStepView, Seq<char>>(
                ResumeStepView::Tell,
            )
        }),
{
}

/// Both lanes are tried with as many bytes as a chunk of the file has, between 8 and 64 MiB, and no
/// more than the file has. They are tried in files of their own, and an empty file tries nothing.
pub proof fn lemma_lanes_are_tried_with_a_chunk(
    task_id: Seq<char>,
    target_root: Seq<char>,
    file_size: u64,
    requested: u64,
    now: u128,
)
    ensures
        trial_of(task_id, target_root, file_size, requested, now) is Ok <==> file_size > 0,
        trial_of(task_id, target_root, file_size, requested, now) matches Ok(t) ==> {
            let chunk = sizing::shared_chunk_size(file_size, requested);
            &&& t.sample_bytes > 0
            &&& t.sample_bytes <= file_size
            &&& t.sample_bytes <= chunk
            &&& t.sample_bytes == file_size || t.sample_bytes == chunk
            &&& t.sample_bytes == file_size || 8 * 1024 * 1024 <= t.sample_bytes <= 64 * 1024 * 1024
            &&& t.remote_root == adb_command::joined_path(target_root, ".nekotrans-calibration"@)
            &&& text::starts_with(t.wifi_relative, ".nekotrans-calibration/"@)
            &&& text::ends_with(t.wifi_relative, "-wifi.bin"@)
        },
{
    sizing::lemma_shared_chunks_grow(file_size, requested);
    if let Ok(t) = trial_of(task_id, target_root, file_size, requested, now) {
        let p = ".nekotrans-calibration/"@;
        let e = "-wifi.bin"@;
        let id = paths::id_text(task_id + "-"@ + decimal::dec(now as nat));
        assert(t.wifi_relative == p + id + e);
        assert(t.wifi_relative.take(p.len() as int) =~= p);
        assert(t.wifi_relative.skip(t.wifi_relative.len() - e.len()) =~= e);
    }
}

} // verus!
