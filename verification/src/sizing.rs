//! How long chunks, batches and samples are.

use crate::decimal;
use crate::models;
use vstd::prelude::*;

verus! {

/// The nearest number within bounds.
pub open spec fn within(n: int, low: int, high: int) -> int {
    if n < low {
        low
    } else if n > high {
        high
    } else {
        n
    }
}

/// The larger of two numbers.
pub open spec fn larger(a: int, b: int) -> int {
    if a < b {
        b
    } else {
        a
    }
}

/// The smaller of two numbers.
pub open spec fn smaller(a: int, b: int) -> int {
    if a < b {
        a
    } else {
        b
    }
}

fn kept_within(n: u64, low: u64, high: u64) -> (r: u64)
    requires
        low <= high,
    ensures
        r == within(n as int, low as int, high as int),
{
    if n < low {
        low
    } else if n > high {
        high
    } else {
        n
    }
}

fn larger_of(a: u64, b: u64) -> (r: u64)
    ensures
        r == larger(a as int, b as int),
{
    if a < b {
        b
    } else {
        a
    }
}

/// The number of chunks that is handed around, which wraps at 32 bits.
pub open spec fn told_count(size: u64, chunk_size: u64) -> u32 {
    (models::chunk_count(size, chunk_size) % 0x1_0000_0000) as u32
}

/// How many chunks a file has; an empty one has one. The number wraps at 32 bits.
pub fn chunk_count_for_size(size_bytes: u64, chunk_size: u64) -> (r: u32)
    ensures
        r == told_count(size_bytes, chunk_size),
{
    if size_bytes == 0 {
        return 1;
    }
    let step: u64 = if chunk_size == 0 {
        1
    } else {
        chunk_size
    };
    let whole: u64 = (size_bytes - 1) / step;
    assert(whole <= size_bytes - 1) by (nonlinear_arith)
        requires
            whole == (size_bytes - 1) / step as int,
            step > 0,
            size_bytes > 0,
    ;
    let count: u64 = whole + 1;
    (count % 0x1_0000_0000) as u32
}

/// The length of a chunk: what is left of the file where it starts, at most the chunk length.
pub open spec fn length_at(size: u64, chunk_size: u64, index: int) -> int {
    let rest = size - index * models::chunk_step(chunk_size);
    if rest <= 0 {
        0
    } else {
        smaller(rest, models::chunk_step(chunk_size))
    }
}

/// The length of a chunk of a file; nothing past the end of the file.
pub fn chunk_length_for(size_bytes: u64, chunk_size: u64, chunk_index: u32) -> (r: u64)
    requires
        size_bytes > 0 ==> chunk_index * models::chunk_step(chunk_size) <= u64::MAX,
    ensures
        r == length_at(size_bytes, chunk_size, chunk_index as int),
{
    let step: u64 = if chunk_size == 0 {
        1
    } else {
        chunk_size
    };
    if size_bytes == 0 {
        assert(chunk_index * models::chunk_step(chunk_size) >= 0) by (nonlinear_arith)
            requires
                models::chunk_step(chunk_size) > 0,
                chunk_index >= 0,
        ;
        return 0;
    }
    assert(chunk_index * step >= 0) by (nonlinear_arith);
    let offset: u64 = chunk_index as u64 * step;
    if offset >= size_bytes {
        0
    } else if size_bytes - offset < step {
        size_bytes - offset
    } else {
        step
    }
}

/// The lengths of a file's chunks are those of its descriptors.
pub proof fn lemma_length_of_chunk(size: u64, chunk_size: u64, index: int)
    requires
        0 <= index < models::chunk_count(size, chunk_size),
    ensures
        length_at(size, chunk_size, index) == models::chunk_at(0, size, chunk_size, index).length,
        index * models::chunk_step(chunk_size) <= size,
{
    models::lemma_chunk_bounds(size, chunk_size, index);
}

/// Whether as many chunks are completed as a file has.
pub open spec fn fully_checkpointed(size: u64, chunk_size: u64, completed: nat) -> bool {
    completed >= told_count(size, chunk_size)
}

/// Whether as many chunks are completed as a file has.
pub fn is_file_fully_checkpointed(size_bytes: u64, chunk_size: u64, completed_chunks: &Vec<u32>) -> (r:
    bool)
    ensures
        r == fully_checkpointed(size_bytes, chunk_size, completed_chunks@.len()),
{
    completed_chunks.len() >= chunk_count_for_size(size_bytes, chunk_size) as usize
}

/// The chunk length that suits a file sent over the network.
pub open spec fn wifi_step(file_size: u64) -> int {
    if file_size >= 4294967296 {
        8388608
    } else if file_size >= 1073741824 {
        4194304
    } else if file_size >= 134217728 {
        2097152
    } else if file_size >= 16777216 {
        1048576
    } else if file_size >= 1048576 {
        524288
    } else if file_size > 0 {
        262144
    } else {
        1048576
    }
}

/// The chunk length for a file sent over the network: what was asked for, between 64 KiB and
/// 8 MiB, but at least what suits the file.
pub open spec fn wifi_chunk_size(file_size: u64, requested: u64) -> int {
    larger(within(requested as int, 65536, 8388608), wifi_step(file_size))
}

/// The chunk length for a file sent over the network.
pub fn wifi_transfer_chunk_size(file_size: u64, requested: u64) -> (r: u64)
    ensures
        r == wifi_chunk_size(file_size, requested),
        65536 <= r <= 8388608,
{
    let adaptive: u64 = if file_size >= 4 * 1024 * 1024 * 1024 {
        8 * 1024 * 1024
    } else if file_size >= 1024 * 1024 * 1024 {
        4 * 1024 * 1024
    } else if file_size >= 128 * 1024 * 1024 {
        2 * 1024 * 1024
    } else if file_size >= 16 * 1024 * 1024 {
        1024 * 1024
    } else if file_size >= 1024 * 1024 {
        512 * 1024
    } else if file_size > 0 {
        256 * 1024
    } else {
        1024 * 1024
    };
    larger_of(kept_within(requested, 64 * 1024, 8 * 1024 * 1024), adaptive)
}

/// The chunk length on the network lane beside an ADB lane: at most 256 KiB.
pub fn dual_wifi_chunk_size(requested: u64) -> (r: u64)
    ensures
        r == smaller(wifi_chunk_size(4294967296, requested), 262144),
{
    let size: u64 = wifi_transfer_chunk_size(4 * 1024 * 1024 * 1024, requested);
    if size < 256 * 1024 {
        size
    } else {
        256 * 1024
    }
}

/// The chunk length that suits a file that both lanes share.
pub open spec fn shared_step(file_size: u64) -> int {
    if file_size >= 4294967296 {
        67108864
    } else if file_size >= 1073741824 {
        33554432
    } else {
        8388608
    }
}

/// The chunk length for a file that both lanes share: what was asked for, at least what suits
/// the file and at most 64 MiB.
pub open spec fn shared_chunk_size(file_size: u64, requested: u64) -> int {
    smaller(larger(requested as int, shared_step(file_size)), 67108864)
}

/// The chunk length for a file that both lanes share.
pub fn dual_same_file_chunk_size(file_size: u64, requested: u64) -> (r: u64)
    ensures
        r == shared_chunk_size(file_size, requested),
        8388608 <= r <= 67108864,
{
    let adaptive: u64 = if file_size >= 4 * 1024 * 1024 * 1024 {
        64 * 1024 * 1024
    } else if file_size >= 1024 * 1024 * 1024 {
        32 * 1024 * 1024
    } else {
        8 * 1024 * 1024
    };
    kept_within(larger_of(requested, adaptive), 1, 64 * 1024 * 1024)
}

/// How many bytes a lane is tried out with: a chunk of 8 to 64 MiB, but no more than the file.
pub fn same_file_calibration_sample_bytes(file_size: u64, chunk_size: u64) -> (r: u64)
    ensures
        r == smaller(file_size as int, within(chunk_size as int, 8388608, 67108864)),
{
    let preferred: u64 = kept_within(chunk_size, 8 * 1024 * 1024, 64 * 1024 * 1024);
    if file_size < preferred {
        file_size
    } else {
        preferred
    }
}

/// Of how many chunks the network lane has one, where nothing else is known.
pub fn same_file_wifi_stride(_file_size: u64) -> (r: u32)
    ensures
        r == 4,
{
    4
}

/// A number in a setting, within bounds; nothing where there is none.
pub open spec fn setting(value: Option<Seq<char>>, max: nat, low: int, high: int) -> Option<int> {
    match value {
        Some(s) => match decimal::parse(s, max) {
            Some(n) => Some(within(n as int, low, high)),
            None => None,
        },
        None => None,
    }
}

/// Of how many chunks the network lane has one, by a setting: between 2 and 16.
pub fn configured_same_file_wifi_stride(value: Option<&str>) -> (r: Option<u32>)
    ensures
        match r {
            Some(n) => setting(crate::text::str_view(value), u32::MAX as nat, 2, 16) == Some(
                n as int,
            ),
            None => setting(crate::text::str_view(value), u32::MAX as nat, 2, 16) is None,
        },
{
    match value {
        Some(s) => match decimal::parse_u32(s) {
            Some(n) => {
                if n < 2 {
                    Some(2)
                } else if n > 16 {
                    Some(16)
                } else {
                    Some(n)
                }
            },
            None => None,
        },
        None => None,
    }
}

/// How many chunks go into a batch, by a setting: between 1 and 8, and 4 without one.
pub fn same_file_wifi_batch_chunks(value: Option<&str>) -> (r: usize)
    ensures
        r == (match setting(crate::text::str_view(value), usize::MAX as nat, 1, 8) {
            Some(n) => n,
            None => 4,
        }),
{
    match value {
        Some(s) => match decimal::parse_usize(s) {
            Some(n) => {
                if n < 1 {
                    1
                } else if n > 8 {
                    8
                } else {
                    n
                }
            },
            None => 4,
        },
        None => 4,
    }
}

/// The most bytes in a bundle of small files.
pub fn small_file_bundle_max_bytes() -> (r: u64)
    ensures
        r == 67108864,
{
    64 * 1024 * 1024
}

/// The most files in a bundle of small files.
pub fn small_file_bundle_max_files() -> (r: usize)
    ensures
        r == 4096,
{
    4096
}

/// Whether a file on the device is checked by samples: from 128 MiB on.
pub fn should_sample_android_verify(size_bytes: u64) -> (r: bool)
    ensures
        r <==> size_bytes >= 134217728,
{
    models::is_large_file(size_bytes, 128 * 1024 * 1024)
}

/// The length of a sample.
pub open spec fn sample_length(size: u64) -> u64 {
    if size < 262144 {
        size
    } else {
        262144
    }
}

/// Where the samples of a file lie: at its start, its middle and its end, as far as these differ.
pub open spec fn sample_ranges(size: u64) -> Seq<(u64, u64)> {
    let length = sample_length(size);
    let last = size - length;
    if last == 0 {
        seq![(0u64, length)]
    } else if last == 1 {
        seq![(0u64, length), (1u64, length)]
    } else {
        seq![(0u64, length), ((last / 2) as u64, length), (last as u64, length)]
    }
}

/// Where the samples of a file lie.
pub fn android_verify_sample_ranges(size_bytes: u64) -> (r: Vec<(u64, u64)>)
    ensures
        r@ == sample_ranges(size_bytes),
{
    let length: u64 = if size_bytes < 256 * 1024 {
        size_bytes
    } else {
        256 * 1024
    };
    let last: u64 = size_bytes - length;
    let mut out: Vec<(u64, u64)> = Vec::new();
    out.push((0, length));
    if last / 2 > 0 {
        out.push((last / 2, length));
    }
    if last > 0 {
        out.push((last, length));
    }
    out
}

/// The samples of a file start with its first bytes and end with its last, lie within it, come
/// in ascending order and none comes twice.
pub proof fn lemma_samples_cover_edges(size: u64)
    ensures
        ({
            let s = sample_ranges(size);
            &&& 1 <= s.len() <= 3
            &&& s[0].0 == 0
            &&& s.last().0 + s.last().1 == size
            &&& forall|i: int| 0 <= i < s.len() ==> (#[trigger] s[i]).0 + s[i].1 <= size
            &&& forall|i: int|
                0 <= i < s.len() ==> (#[trigger] s[i]).1 == sample_length(size)
            &&& forall|i: int, j: int|
                0 <= i < j < s.len() ==> (#[trigger] s[i]).0 < (#[trigger] s[j]).0
        }),
{
}

/// A chunk of a file starts behind those before it, and ends where the next one starts or, the last
/// one, at the end of the file; past the end there is nothing.
pub proof fn lemma_chunk_spans(size: u64, chunk_size: u64, k: int)
    requires
        chunk_size > 0,
        k >= 0,
    ensures
        k * chunk_size >= size ==> length_at(size, chunk_size, k) == 0,
        k * chunk_size < size ==> k * chunk_size + length_at(size, chunk_size, k) == (if (k + 1)
            * chunk_size < size {
            (k + 1) * chunk_size
        } else {
            size as int
        }),
        (k + 1) * chunk_size == k * chunk_size + chunk_size,
{
    assert((k + 1) * chunk_size == k * chunk_size + chunk_size) by (nonlinear_arith);
}

/// The number of chunks that is handed around, where 32 bits hold it, is the number of lengths that
/// it takes to reach the end of the file, and one for an empty file.
pub proof fn lemma_count_reaches_the_end(size: u64, chunk_size: u64)
    requires
        chunk_size > 0,
        models::chunk_count(size, chunk_size) <= u32::MAX,
    ensures
        told_count(size, chunk_size) >= 1,
        told_count(size, chunk_size) * chunk_size >= size,
        size > 0 ==> (told_count(size, chunk_size) - 1) * chunk_size < size,
        size == 0 ==> told_count(size, chunk_size) == 1,
        forall|k: int|
            0 <= k < told_count(size, chunk_size) ==> 0 <= #[trigger] (k * chunk_size) <= size && (
            size > 0 ==> k * chunk_size < size),
        forall|k: int|
            0 <= k < told_count(size, chunk_size) ==> (k + 1 == told_count(size, chunk_size)
                <==> #[trigger] (k * chunk_size) + chunk_size >= size),
{
    let n = models::chunk_count(size, chunk_size) as int;
    assert(told_count(size, chunk_size) == n);
    models::lemma_chunk_bounds(size, chunk_size, n - 1);
    assert forall|k: int| 0 <= k < n implies 0 <= #[trigger] (k * chunk_size) <= size && (size > 0
        ==> k * chunk_size < size) && (k + 1 == n <==> k * chunk_size + chunk_size >= size) by {
        models::lemma_chunk_bounds(size, chunk_size, k);
        assert((k + 1) * chunk_size == k * chunk_size + chunk_size) by (nonlinear_arith);
    }
}

/// The chunk length for a file sent over the network is between 64 KiB and 8 MiB and at least
/// 256 KiB, never less than what was asked for within these bounds, and never less for a longer
/// file or where more was asked for. A file of 128 MiB has chunks of 2 MiB at least, one of 1 GiB
/// of 4 MiB, one of 4 GiB of 8 MiB.
pub proof fn lemma_network_chunks_grow(a: u64, b: u64, r: u64, s: u64)
    requires
        0 < a <= b,
        r <= s,
    ensures
        262144 <= wifi_chunk_size(a, r) <= 8388608,
        r <= 8388608 ==> wifi_chunk_size(a, r) >= r,
        wifi_chunk_size(a, r) <= wifi_chunk_size(b, r),
        wifi_chunk_size(a, r) <= wifi_chunk_size(a, s),
        a < 1048576 && 262144 <= r <= 8388608 ==> wifi_chunk_size(a, r) == r,
        a < 1048576 && r < 262144 ==> wifi_chunk_size(a, r) == 262144,
        1048576 <= a < 16777216 && r <= 524288 ==> wifi_chunk_size(a, r) == 524288,
        16777216 <= a < 134217728 && r <= 1048576 ==> wifi_chunk_size(a, r) == 1048576,
        134217728 <= a < 1073741824 && r <= 2097152 ==> wifi_chunk_size(a, r) == 2097152,
        1073741824 <= a < 4294967296 && r <= 4194304 ==> wifi_chunk_size(a, r) == 4194304,
        a >= 4294967296 ==> wifi_chunk_size(a, r) == 8388608,
        r >= 8388608 ==> wifi_chunk_size(a, r) == 8388608,
        r <= 1048576 ==> wifi_chunk_size(0, r) == 1048576,
{
}

/// The chunk length for a file that both lanes share is at least 8 MiB, from 1 GiB on at least
/// 32 MiB and from 4 GiB on 64 MiB; it is what was asked for where that is more, up to 64 MiB.
pub proof fn lemma_shared_chunks_grow(size: u64, r: u64)
    ensures
        8388608 <= shared_chunk_size(size, r) <= 67108864,
        size >= 4294967296 ==> shared_chunk_size(size, r) == 67108864,
        1073741824 <= size < 4294967296 && r <= 33554432 ==> shared_chunk_size(size, r) == 33554432,
        size < 1073741824 && r <= 8388608 ==> shared_chunk_size(size, r) == 8388608,
        size < 1073741824 && 8388608 <= r <= 67108864 ==> shared_chunk_size(size, r) == r,
        1073741824 <= size < 4294967296 && 33554432 <= r <= 67108864 ==> shared_chunk_size(size, r)
            == r,
        r >= 67108864 ==> shared_chunk_size(size, r) == 67108864,
{
}

/// A file counts as done exactly where at least as many chunks are completed as it takes to reach
/// its end.
pub proof fn lemma_done_file_has_all_chunks(size: u64, chunk_size: u64, completed: nat)
    requires
        chunk_size > 0,
        models::chunk_count(size, chunk_size) <= u32::MAX,
    ensures
        fully_checkpointed(size, chunk_size, completed) <==> completed >= 1 && completed * chunk_size
            >= size,
{
    let n = told_count(size, chunk_size) as int;
    lemma_count_reaches_the_end(size, chunk_size);
    if completed >= n {
        assert(completed * chunk_size >= n * chunk_size) by (nonlinear_arith)
            requires
                completed >= n,
                chunk_size > 0,
        ;
    } else if completed >= 1 {
        assert(completed * chunk_size <= (n - 1) * chunk_size) by (nonlinear_arith)
            requires
                completed <= n - 1,
                chunk_size > 0,
        ;
    }
}

/// Samples are 256 KiB long and lie at the start, in the middle and at the end of a file; a file that
/// is no longer than a sample is its only one.
pub proof fn lemma_samples_are_where_they_should_be(size: u64)
    ensures
        size <= 262144 ==> sample_ranges(size) == seq![(0u64, size)],
        size >= 262146 ==> sample_ranges(size) == seq![
            (0u64, 262144u64),
            (((size - 262144) / 2) as u64, 262144u64),
            ((size - 262144) as u64, 262144u64),
        ],
{
}

} // verus!
