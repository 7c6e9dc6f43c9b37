//! Tasks, transfer items and the division of a file into chunks.

use crate::decimal;
use vstd::prelude::*;

verus! {

/// Which way the files go.
#[derive(Debug, Clone, Copy, PartialEq, Eq, Structural)]
pub enum Direction {
    PcToAndroid,
    AndroidToPc,
}

/// Which lanes carry the chunks.
#[derive(Debug, Clone, Copy, PartialEq, Eq, Structural)]
pub enum TransportMode {
    AdbOnly,
    WifiOnly,
    Dual,
}

/// Where a task stands.
#[derive(Debug, Clone, Copy, PartialEq, Eq, Structural)]
pub enum TaskState {
    Pending,
    Running,
    Paused,
    Completed,
    Failed,
    Cancelled,
}

/// The default chunk length of a task.
pub const DEFAULT_CHUNK_SIZE_BYTES: u64 = 8 * 1024 * 1024;

/// The default size from which a file counts as large.
pub const DEFAULT_SMALL_FILE_THRESHOLD_BYTES: u64 = 32 * 1024 * 1024;

/// The default number of chunks a lane may have under way.
pub const DEFAULT_MAX_IN_FLIGHT: usize = 4;

/// A task's settings. Paths are kept as text.
#[derive(Debug, PartialEq, Eq)]
pub struct TaskConfig {
    pub task_id: String,
    pub direction: Direction,
    pub transport_mode: TransportMode,
    pub verify_enabled: bool,
    pub source_root: String,
    pub target_root: String,
    pub chunk_size_bytes: u64,
    pub small_file_threshold_bytes: u64,
    pub max_in_flight_chunks_per_lane: usize,
    pub created_at_epoch_ms: u128,
}

/// What a task's settings say.
#[verifier::ext_equal]
pub struct TaskConfigView {
    pub task_id: Seq<char>,
    pub direction: Direction,
    pub transport_mode: TransportMode,
    pub verify_enabled: bool,
    pub source_root: Seq<char>,
    pub target_root: Seq<char>,
    pub chunk_size_bytes: u64,
    pub small_file_threshold_bytes: u64,
    pub max_in_flight_chunks_per_lane: usize,
    pub created_at_epoch_ms: u128,
}

impl View for TaskConfig {
    type V = TaskConfigView;

    open spec fn view(&self) -> TaskConfigView {
        TaskConfigView {
            task_id: self.task_id@,
            direction: self.direction,
            transport_mode: self.transport_mode,
            verify_enabled: self.verify_enabled,
            source_root: self.source_root@,
            target_root: self.target_root@,
            chunk_size_bytes: self.chunk_size_bytes,
            small_file_threshold_bytes: self.small_file_threshold_bytes,
            max_in_flight_chunks_per_lane: self.max_in_flight_chunks_per_lane,
            created_at_epoch_ms: self.created_at_epoch_ms,
        }
    }
}

/// The settings of a fresh task made at `now`, with the default sizes and limits.
pub open spec fn fresh_config(
    task_id: Seq<char>,
    direction: Direction,
    transport_mode: TransportMode,
    verify_enabled: bool,
    source_root: Seq<char>,
    target_root: Seq<char>,
    now: u128,
) -> TaskConfigView {
    TaskConfigView {
        task_id,
        direction,
        transport_mode,
        verify_enabled,
        source_root,
        target_root,
        chunk_size_bytes: DEFAULT_CHUNK_SIZE_BYTES,
        small_file_threshold_bytes: DEFAULT_SMALL_FILE_THRESHOLD_BYTES,
        max_in_flight_chunks_per_lane: DEFAULT_MAX_IN_FLIGHT,
        created_at_epoch_ms: now,
    }
}

impl TaskConfig {
    /// The settings of a fresh task made now.
    pub fn new(
        task_id: &str,
        direction: Direction,
        transport_mode: TransportMode,
        verify_enabled: bool,
        source_root: &str,
        target_root: &str,
    ) -> (r: Self)
        ensures
            r@ == fresh_config(
                task_id@,
                direction,
                transport_mode,
                verify_enabled,
                source_root@,
                target_root@,
                r.created_at_epoch_ms,
            ),
    {
        let now: u128 = now_epoch_ms();
        Self::new_at(
            now,
            task_id,
            direction,
            transport_mode,
            verify_enabled,
            source_root,
            target_root,
        )
    }

    /// The settings of a fresh task made at `now`.
    pub fn new_at(
        now: u128,
        task_id: &str,
        direction: Direction,
        transport_mode: TransportMode,
        verify_enabled: bool,
        source_root: &str,
        target_root: &str,
    ) -> (r: Self)
        ensures
            r@ == fresh_config(
                task_id@,
                direction,
                transport_mode,
                verify_enabled,
                source_root@,
                target_root@,
                now,
            ),
    {
        TaskConfig {
            task_id: task_id.to_string(),
            direction,
            transport_mode,
            verify_enabled,
            source_root: source_root.to_string(),
            target_root: target_root.to_string(),
            chunk_size_bytes: DEFAULT_CHUNK_SIZE_BYTES,
            small_file_threshold_bytes: DEFAULT_SMALL_FILE_THRESHOLD_BYTES,
            max_in_flight_chunks_per_lane: DEFAULT_MAX_IN_FLIGHT,
            created_at_epoch_ms: now,
        }
    }
}

impl Clone for TaskConfig {
    fn clone(&self) -> (r: Self)
        ensures
            r@ == self@,
    {
        TaskConfig {
            task_id: self.task_id.clone(),
            direction: self.direction,
            transport_mode: self.transport_mode,
            verify_enabled: self.verify_enabled,
            source_root: self.source_root.clone(),
            target_root: self.target_root.clone(),
            chunk_size_bytes: self.chunk_size_bytes,
            small_file_threshold_bytes: self.small_file_threshold_bytes,
            max_in_flight_chunks_per_lane: self.max_in_flight_chunks_per_lane,
            created_at_epoch_ms: self.created_at_epoch_ms,
        }
    }
}

/// A digest of a file and how it was made.
#[derive(Debug, PartialEq, Eq)]
pub struct FileFingerprint {
    pub algorithm: &'static str,
    pub hex_digest: String,
}

/// What a fingerprint says.
#[verifier::ext_equal]
pub struct FileFingerprintView {
    pub algorithm: Seq<char>,
    pub hex_digest: Seq<char>,
}

impl View for FileFingerprint {
    type V = FileFingerprintView;

    open spec fn view(&self) -> FileFingerprintView {
        FileFingerprintView { algorithm: self.algorithm@, hex_digest: self.hex_digest@ }
    }
}

impl Clone for FileFingerprint {
    fn clone(&self) -> (r: Self)
        ensures
            r@ == self@,
    {
        FileFingerprint { algorithm: self.algorithm, hex_digest: self.hex_digest.clone() }
    }
}

/// A file to transfer.
#[derive(Debug, PartialEq, Eq)]
pub struct TransferItem {
    pub relative_path: String,
    pub size_bytes: u64,
    pub modified_at_epoch_ms: u128,
    pub fingerprint: Option<FileFingerprint>,
}

/// What is known of a file to transfer.
#[verifier::ext_equal]
pub struct TransferItemView {
    pub relative_path: Seq<char>,
    pub size_bytes: u64,
    pub modified_at_epoch_ms: u128,
    pub fingerprint: Option<FileFingerprintView>,
}

impl View for TransferItem {
    type V = TransferItemView;

    open spec fn view(&self) -> TransferItemView {
        TransferItemView {
            relative_path: self.relative_path@,
            size_bytes: self.size_bytes,
            modified_at_epoch_ms: self.modified_at_epoch_ms,
            fingerprint: match self.fingerprint {
                Some(f) => Some(f@),
                None => None,
            },
        }
    }
}

impl Clone for TransferItem {
    fn clone(&self) -> (r: Self)
        ensures
            r@ == self@,
    {
        TransferItem {
            relative_path: self.relative_path.clone(),
            size_bytes: self.size_bytes,
            modified_at_epoch_ms: self.modified_at_epoch_ms,
            fingerprint: match &self.fingerprint {
                Some(f) => Some(f.clone()),
                None => None,
            },
        }
    }
}

/// The views of a list of items.
pub open spec fn item_views(items: Seq<TransferItem>) -> Seq<TransferItemView> {
    items.map_values(|i: TransferItem| i@)
}

/// A stretch of one file.
#[derive(Debug, Clone, Copy, PartialEq, Eq, Structural)]
pub struct ChunkDescriptor {
    pub file_index: usize,
    pub chunk_index: u32,
    pub offset: u64,
    pub length: u64,
}

/// A chunk described in words.
pub open spec fn chunk_text(c: ChunkDescriptor) -> Seq<char> {
    "file="@ + decimal::dec(c.file_index as nat) + " chunk="@ + decimal::dec(c.chunk_index as nat)
        + " offset="@ + decimal::dec(c.offset as nat) + " length="@ + decimal::dec(c.length as nat)
}

impl ChunkDescriptor {
    /// The chunk described in words.
    pub fn describe(&self) -> (r: String)
        ensures
            r@ == chunk_text(*self),
    {
        let mut s = "file=".to_string();
        s.append(decimal::dec_text(self.file_index as u128).as_str());
        s.append(" chunk=");
        s.append(decimal::dec_text(self.chunk_index as u128).as_str());
        s.append(" offset=");
        s.append(decimal::dec_text(self.offset as u128).as_str());
        s.append(" length=");
        s.append(decimal::dec_text(self.length as u128).as_str());
        s
    }
}

/// What a device can do.
#[derive(Debug, PartialEq, Eq)]
pub struct DeviceCapability {
    pub supports_adb: bool,
    pub supports_wifi: bool,
    pub supports_dual: bool,
    pub protocol_version: String,
    pub app_version: String,
    pub full_storage_access_granted: bool,
}

impl Default for DeviceCapability {
    fn default() -> (r: Self)
        ensures
            r.supports_adb && r.supports_wifi && r.supports_dual,
            r.protocol_version@ == "0.1"@,
            r.app_version@ == "0.1.0"@,
            !r.full_storage_access_granted,
    {
        DeviceCapability {
            supports_adb: true,
            supports_wifi: true,
            supports_dual: true,
            protocol_version: "0.1".to_string(),
            app_version: "0.1.0".to_string(),
            full_storage_access_granted: false,
        }
    }
}

/// The chunk length in use: at least one byte.
pub open spec fn chunk_step(chunk_size: u64) -> int {
    if chunk_size == 0 {
        1
    } else {
        chunk_size as int
    }
}

/// How many chunks a file has; an empty file has one.
pub open spec fn chunk_count(size: u64, chunk_size: u64) -> nat {
    if size == 0 {
        1
    } else {
        ((size - 1) / chunk_step(chunk_size) + 1) as nat
    }
}

/// The `k`-th chunk of a file. The index wraps at 32 bits.
pub open spec fn chunk_at(file_index: usize, size: u64, chunk_size: u64, k: int) -> ChunkDescriptor {
    let step = chunk_step(chunk_size);
    let rest = size - k * step;
    ChunkDescriptor {
        file_index,
        chunk_index: (k % 0x1_0000_0000) as u32,
        offset: (k * step) as u64,
        length: (if rest < step {
            rest
        } else {
            step
        }) as u64,
    }
}

/// The chunks of a file, in order.
pub open spec fn chunks_of(file_index: usize, size: u64, chunk_size: u64) -> Seq<ChunkDescriptor> {
    Seq::new(chunk_count(size, chunk_size), |k: int| chunk_at(file_index, size, chunk_size, k))
}

/// Where a chunk lies in its file.
pub proof fn lemma_chunk_bounds(size: u64, chunk_size: u64, k: int)
    requires
        0 <= k < chunk_count(size, chunk_size),
    ensures
        0 <= k * chunk_step(chunk_size) <= size,
        size > 0 ==> k * chunk_step(chunk_size) < size,
        k + 1 < chunk_count(size, chunk_size) ==> (k + 1) * chunk_step(chunk_size) < size,
        k + 1 == chunk_count(size, chunk_size) ==> size <= (k + 1) * chunk_step(chunk_size),
{
    let step = chunk_step(chunk_size);
    if size > 0 {
        let last = (size - 1) / step;
        assert(last * step <= size - 1 < (last + 1) * step) by (nonlinear_arith)
            requires
                last == (size - 1) / step,
                step > 0,
        ;
        assert(k * step <= last * step) by (nonlinear_arith)
            requires
                k <= last,
                step > 0,
        ;
        assert(k + 1 <= last ==> (k + 1) * step <= last * step) by (nonlinear_arith)
            requires
                step > 0,
        ;
        assert(0 <= k * step) by (nonlinear_arith)
            requires
                0 <= k,
                step > 0,
        ;
    } else {
        assert(k == 0);
    }
}

/// Whether the index of every chunk of a file tells how long the chunk is: the indices do not wrap,
/// or all chunks have the same length.
pub open spec fn is_countable(size: u64, chunk_size: u64) -> bool {
    chunk_count(size, chunk_size) <= 0x1_0000_0000 || size as int % chunk_step(chunk_size) == 0
}

/// The index of a chunk is that of a chunk of the same length.
pub proof fn lemma_index_tells_length(file_index: usize, size: u64, chunk_size: u64, k: int)
    requires
        0 <= k < chunk_count(size, chunk_size),
        is_countable(size, chunk_size),
    ensures
        ({
            let c = chunk_at(file_index, size, chunk_size, k);
            &&& c.chunk_index < chunk_count(size, chunk_size)
            &&& chunk_at(0, size, chunk_size, c.chunk_index as int).length == c.length
        }),
{
    let step = chunk_step(chunk_size);
    let j = k % 0x1_0000_0000;
    assert(0 <= j <= k);
    if j < k {
        lemma_chunk_bounds(size, chunk_size, j);
        lemma_chunk_bounds(size, chunk_size, k);
        assert((j + 1) * step == j * step + step) by (nonlinear_arith);
        assert((k + 1) * step == k * step + step) by (nonlinear_arith);
        if k + 1 == chunk_count(size, chunk_size) {
            assert(size == (k + 1) * step) by (nonlinear_arith)
                requires
                    size as int % step == 0,
                    step > 0,
                    k * step < size <= (k + 1) * step,
            ;
        }
    }
}

/// The chunks of a file cover it exactly: the first starts at the beginning, each next one where
/// the one before ends, the last ends at the end, and none is longer than the chunk length or,
/// in a file that is not empty, without bytes.
pub proof fn lemma_chunks_cover_file(file_index: usize, size: u64, chunk_size: u64)
    ensures
        ({
            let c = chunks_of(file_index, size, chunk_size);
            &&& c.len() >= 1
            &&& c[0].offset == 0
            &&& c.last().offset + c.last().length == size
            &&& forall|k: int|
                0 <= k < c.len() - 1 ==> (#[trigger] c[k]).offset + c[k].length == c[k + 1].offset
            &&& forall|k: int|
                0 <= k < c.len() ==> (#[trigger] c[k]).length <= chunk_step(chunk_size) && (size > 0
                    ==> c[k].length > 0) && c[k].file_index == file_index
        }),
{
    let c = chunks_of(file_index, size, chunk_size);
    let step = chunk_step(chunk_size);
    assert forall|k: int| 0 <= k < c.len() implies ({
        &&& (#[trigger] c[k]).length <= step
        &&& size > 0 ==> c[k].length > 0
        &&& c[k].offset + c[k].length == (if k + 1 < c.len() {
            (k + 1) * step
        } else {
            size as int
        })
        &&& c[k].offset == k * step
    }) by {
        lemma_chunk_bounds(size, chunk_size, k);
        assert((k + 1) * step == k * step + step) by (nonlinear_arith);
    }
    assert(c[0].offset == 0 * step);
    assert(c.last() == c[c.len() - 1]);
    assert forall|k: int| 0 <= k < c.len() - 1 implies (#[trigger] c[k]).offset + c[k].length == c[k
        + 1].offset by {
        assert(c[k + 1].offset == (k + 1) * step);
    }
}

/// The chunks of a file, in order.
pub fn split_into_chunks(file_index: usize, size_bytes: u64, chunk_size_bytes: u64) -> (r: Vec<
    ChunkDescriptor,
>)
    ensures
        r@ == chunks_of(file_index, size_bytes, chunk_size_bytes),
{
    let ghost all = chunks_of(file_index, size_bytes, chunk_size_bytes);
    let mut output: Vec<ChunkDescriptor> = Vec::new();
    if size_bytes == 0 {
        output.push(ChunkDescriptor { file_index, chunk_index: 0, offset: 0, length: 0 });
        assert(0 * chunk_step(chunk_size_bytes) == 0);
        assert(output@ =~= all);
        return output;
    }
    let step: u64 = if chunk_size_bytes == 0 {
        1
    } else {
        chunk_size_bytes
    };
    let last: u64 = (size_bytes - 1) / step;
    let mut k: u64 = 0;
    while k <= last
        invariant
            step == chunk_step(chunk_size_bytes),
            last == (size_bytes - 1) / step as int,
            size_bytes > 0,
            all == chunks_of(file_index, size_bytes, chunk_size_bytes),
            all.len() == last + 1,
            k <= last,
            output@ == all.take(k as int),
        decreases last - k,
    {
        proof {
            lemma_chunk_bounds(size_bytes, chunk_size_bytes, k as int);
        }
        let offset: u64 = k * step;
        let remaining: u64 = size_bytes - offset;
        let length: u64 = if remaining < step {
            remaining
        } else {
            step
        };
        let chunk_index: u32 = k as u32;
        assert(k as u32 == k % 0x1_0000_0000) by (bit_vector);
        output.push(ChunkDescriptor { file_index, chunk_index, offset, length });
        assert(output@ =~= all.take(k + 1));
        if k == last {
            assert(all.take(k + 1) =~= all);
            return output;
        }
        k += 1;
    }
    output
}

/// Whether a file is split over both lanes.
pub fn is_large_file(size_bytes: u64, small_file_threshold_bytes: u64) -> (r: bool)
    ensures
        r == (size_bytes >= small_file_threshold_bytes),
{
    size_bytes >= small_file_threshold_bytes
}

/// Milliseconds since the epoch, by `SystemTime::elapsed` of the epoch; nothing is claimed of
/// the value. A clock set before the epoch reads as zero.
#[verifier::external_body]
pub fn now_epoch_ms() -> (r: u128) {
    std::time::UNIX_EPOCH.elapsed().unwrap_or_default().as_millis()
}

} // verus!
