//! The text form of a checkpoint: one `key=value` line per setting, one `file=` line per file.

use crate::checkpoint;
use crate::checkpoint::{
    CheckpointEntry, CheckpointEntryView, CheckpointError, FileCheckpoint, FileCheckpointView,
    TaskCheckpoint, TaskCheckpointView,
};
use crate::decimal;
use crate::fields::Fields;
use crate::models::{TaskConfig, TaskConfigView};
use crate::scheduler::LaneAssignment;
use crate::text;
use std::collections::BTreeMap;
use vstd::prelude::*;
use vstd::std_specs::cmp::OrdSpec;
use vstd::std_specs::iter::IteratorSpec;

verus! {

/// The rows of a map with keys below `n`, in the order of the keys.
pub open spec fn rows_below(m: Map<u32, LaneAssignment>, n: nat) -> Seq<(u32, LaneAssignment)>
    decreases n,
{
    if n == 0 {
        Seq::empty()
    } else {
        let k = (n - 1) as u32;
        let head = rows_below(m, (n - 1) as nat);
        if m.contains_key(k) {
            head.push((k, m[k]))
        } else {
            head
        }
    }
}

/// The rows of a map in the order of the keys.
pub open spec fn rows(m: Map<u32, LaneAssignment>) -> Seq<(u32, LaneAssignment)> {
    rows_below(m, 0x1_0000_0000)
}

proof fn lemma_rows_prefix(
    m: Map<u32, LaneAssignment>,
    s: Seq<(u32, LaneAssignment)>,
    n: nat,
) -> (j: int)
    requires
        n <= 0x1_0000_0000,
        forall|a: int, b: int| 0 <= a < b < s.len() ==> s[a].0 < s[b].0,
        forall|a: int|
            0 <= a < s.len() ==> m.contains_key((#[trigger] s[a]).0) && m[s[a].0] == s[a].1,
        forall|k: u32|
            #[trigger]
            m.contains_key(k) ==> exists|a: int| 0 <= a < s.len() && (#[trigger] s[a]).0 == k,
    ensures
        0 <= j <= s.len(),
        rows_below(m, n) == s.take(j),
        forall|a: int| 0 <= a < j ==> (#[trigger] s[a]).0 < n,
        forall|a: int| j <= a < s.len() ==> (#[trigger] s[a]).0 >= n,
    decreases n,
{
    if n == 0 {
        assert(s.take(0) =~= Seq::empty());
        0
    } else {
        let j = lemma_rows_prefix(m, s, (n - 1) as nat);
        let k = (n - 1) as u32;
        if m.contains_key(k) {
            let a = choose|a: int| 0 <= a < s.len() && (#[trigger] s[a]).0 == k;
            assert(a >= j);
            assert(s[j].0 >= n - 1);
            assert(a == j);
            assert(rows_below(m, n) =~= s.take(j + 1));
            j + 1
        } else {
            if j < s.len() {
                assert(s[j].0 >= n - 1);
                assert(m.contains_key(s[j].0));
            }
            j
        }
    }
}

/// The rows of a lane map, in the order of the keys.
pub fn lane_rows(m: &BTreeMap<u32, LaneAssignment>) -> (r: Vec<(u32, LaneAssignment)>)
    ensures
        r@ == rows(m@),
{
    broadcast use vstd::std_specs::btree::group_btree_axioms;
    broadcast use vstd::laws_cmp::group_laws_cmp;

    let mut out: Vec<(u32, LaneAssignment)> = Vec::new();
    let iter = m.iter();
    let ghost all = iter.remaining();
    for kv in it: iter
        invariant
            it.seq() == all,
            out@.len() == it.index(),
            forall|a: int| 0 <= a < out@.len() ==> #[trigger] out@[a] == (*all[a].0, *all[a].1),
    {
        out.push((*kv.0, *kv.1));
    }
    proof {
        assert(all == vstd::std_specs::btree::spec_btree_map_iter(m).remaining());
        let keys = all.map_values(|kv: (&u32, &LaneAssignment)| *kv.0);
        assert(vstd::std_specs::btree::increasing_seq(keys));
        assert forall|a: int, b: int| 0 <= a < b < out@.len() implies out@[a].0 < out@[b].0 by {
            assert(keys[a] == out@[a].0);
            assert(keys[b] == out@[b].0);
            assert(keys[a].cmp_spec(&keys[b]) is Less);
        }
        assert forall|a: int| 0 <= a < out@.len() implies m@.contains_key((#[trigger] out@[a]).0)
            && m@[out@[a].0] == out@[a].1 by {
            assert(m@.contains_key(*all[a].0));
        }
        assert forall|k: u32| #[trigger] m@.contains_key(k) implies exists|a: int|
            0 <= a < out@.len() && (#[trigger] out@[a]).0 == k by {
            assert(all.contains((&k, &m@[k])));
            let a = choose|a: int| 0 <= a < all.len() && all[a] == (&k, &m@[k]);
            assert(out@[a].0 == k);
        }
        let j = lemma_rows_prefix(m@, out@, 0x1_0000_0000);
        if j < out@.len() {
            assert(out@[j].0 >= 0x1_0000_0000);
        }
        assert(out@.take(j) =~= out@);
    }
    out
}

/// The settings of an entry, as keys and values.
pub open spec fn header(e: CheckpointEntryView) -> Seq<(Seq<char>, Seq<char>)> {
    seq![
        ("task_id"@, e.config.task_id),
        ("direction"@, checkpoint::direction_word(e.config.direction)),
        ("transport_mode"@, checkpoint::mode_word(e.config.transport_mode)),
        ("verify_enabled"@, checkpoint::bool_word(e.config.verify_enabled)),
        ("source_root"@, checkpoint::escape(e.config.source_root)),
        ("target_root"@, checkpoint::escape(e.config.target_root)),
        ("chunk_size_bytes"@, decimal::dec(e.config.chunk_size_bytes as nat)),
        ("small_file_threshold_bytes"@, decimal::dec(e.config.small_file_threshold_bytes as nat)),
        (
            "max_in_flight_chunks_per_lane"@,
            decimal::dec(e.config.max_in_flight_chunks_per_lane as nat),
        ),
        ("created_at_epoch_ms"@, decimal::dec(e.config.created_at_epoch_ms as nat)),
        ("state"@, checkpoint::state_word(e.checkpoint.state)),
        ("updated_at_epoch_ms"@, decimal::dec(e.checkpoint.updated_at_epoch_ms as nat)),
    ]
}

/// The line of a key and its value.
pub open spec fn field_line(p: (Seq<char>, Seq<char>)) -> Seq<char> {
    p.0 + "="@ + p.1
}

/// Chunk indices with commas between them.
pub open spec fn chunk_list(chunks: Seq<u32>) -> Seq<char> {
    text::join(chunks.map_values(|k: u32| decimal::dec(k as nat)), ","@)
}

/// A chunk index and its lane.
pub open spec fn lane_entry(row: (u32, LaneAssignment)) -> Seq<char> {
    decimal::dec(row.0 as nat) + ":"@ + checkpoint::lane_word(row.1)
}

/// Chunk indices and lanes with commas between them.
pub open spec fn lane_list(lanes: Map<u32, LaneAssignment>) -> Seq<char> {
    text::join(rows(lanes).map_values(|r: (u32, LaneAssignment)| lane_entry(r)), ","@)
}

/// A text, or the empty text where there is none.
pub open spec fn or_empty(s: Option<Seq<char>>) -> Seq<char> {
    match s {
        Some(v) => v,
        None => Seq::empty(),
    }
}

/// The line of a file.
pub open spec fn file_line(f: FileCheckpointView) -> Seq<char> {
    "file="@ + checkpoint::escape(f.relative_path) + "|"@ + decimal::dec(f.size_bytes as nat)
        + "|"@ + decimal::dec(f.modified_at_epoch_ms as nat) + "|"@ + chunk_list(f.completed_chunks)
        + "|"@ + checkpoint::escape(or_empty(f.verification_digest)) + "|"@ + checkpoint::escape(
        or_empty(f.fingerprint_hex),
    ) + "|"@ + lane_list(f.completed_chunk_lanes)
}

/// The lines of an entry.
pub open spec fn entry_lines(e: CheckpointEntryView) -> Seq<Seq<char>> {
    header(e).map_values(|p: (Seq<char>, Seq<char>)| field_line(p)) + e.checkpoint.files.map_values(
        |f: FileCheckpointView| file_line(f),
    )
}

/// The text form of an entry.
pub open spec fn entry_text(e: CheckpointEntryView) -> Seq<char> {
    text::join(entry_lines(e), "\n"@)
}

fn field(key: &str, value: &str) -> (r: String)
    ensures
        r@ == field_line((key@, value@)),
{
    let mut s = key.to_string();
    s.append("=");
    s.append(value);
    s
}

fn chunk_list_text(chunks: &Vec<u32>) -> (r: String)
    ensures
        r@ == chunk_list(chunks@),
{
    broadcast use text::lemma_views_push;

    let ghost all = chunks@.map_values(|k: u32| decimal::dec(k as nat));
    let mut parts: Vec<String> = Vec::new();
    let mut i: usize = 0;
    while i < chunks.len()
        invariant
            i <= chunks.len(),
            all == chunks@.map_values(|k: u32| decimal::dec(k as nat)),
            text::views(parts@) == all.take(i as int),
        decreases chunks.len() - i,
    {
        let ghost before = text::views(parts@);
        let part = decimal::dec_text(chunks[i] as u128);
        parts.push(part);
        assert(text::views(parts@) == before.push(part@));
        assert(text::views(parts@) =~= all.take(i + 1));
        i += 1;
    }
    assert(all.take(all.len() as int) =~= all);
    text::join_texts(&parts, ",")
}

fn lane_list_text(lanes: &BTreeMap<u32, LaneAssignment>) -> (r: String)
    ensures
        r@ == lane_list(lanes@),
{
    broadcast use text::lemma_views_push;

    let list = lane_rows(lanes);
    let ghost all = list@.map_values(|r: (u32, LaneAssignment)| lane_entry(r));
    let mut parts: Vec<String> = Vec::new();
    let mut i: usize = 0;
    while i < list.len()
        invariant
            i <= list.len(),
            all == list@.map_values(|r: (u32, LaneAssignment)| lane_entry(r)),
            text::views(parts@) == all.take(i as int),
        decreases list.len() - i,
    {
        let ghost before = text::views(parts@);
        let mut part = decimal::dec_text(list[i].0 as u128);
        part.append(":");
        part.append(checkpoint::serialize_lane(list[i].1));
        parts.push(part);
        assert(text::views(parts@) == before.push(part@));
        assert(text::views(parts@) =~= all.take(i + 1));
        i += 1;
    }
    assert(all.take(all.len() as int) =~= all);
    text::join_texts(&parts, ",")
}

fn escaped_or_empty(s: &Option<String>) -> (r: String)
    ensures
        r@ == checkpoint::escape(or_empty(text::opt_view(*s))),
{
    match s {
        Some(v) => checkpoint::escape_text(v.as_str()),
        None => {
            let r = String::new();
            assert(r@ =~= checkpoint::escape(Seq::<char>::empty()));
            r
        },
    }
}

fn file_line_text(f: &FileCheckpoint) -> (r: String)
    ensures
        r@ == file_line(f@),
{
    let mut s = "file=".to_string();
    s.append(checkpoint::escape_text(f.relative_path.as_str()).as_str());
    s.append("|");
    s.append(decimal::dec_text(f.size_bytes as u128).as_str());
    s.append("|");
    s.append(decimal::dec_text(f.modified_at_epoch_ms).as_str());
    s.append("|");
    s.append(chunk_list_text(&f.completed_chunks).as_str());
    s.append("|");
    s.append(escaped_or_empty(&f.verification_digest).as_str());
    s.append("|");
    s.append(escaped_or_empty(&f.fingerprint_hex).as_str());
    s.append("|");
    s.append(lane_list_text(&f.completed_chunk_lanes).as_str());
    s
}

fn bool_text(b: bool) -> (r: &'static str)
    ensures
        r@ == checkpoint::bool_word(b),
{
    if b {
        "true"
    } else {
        "false"
    }
}

/// The text form of an entry.
pub fn serialize_entry(entry: &CheckpointEntry) -> (r: String)
    ensures
        r@ == entry_text(entry@),
{
    broadcast use text::lemma_views_push;

    let c = &entry.config;
    let ghost e = entry@;
    let ghost head = header(e).map_values(|p: (Seq<char>, Seq<char>)| field_line(p));
    let ghost tail = e.checkpoint.files.map_values(|f: FileCheckpointView| file_line(f));
    let mut lines: Vec<String> = Vec::new();
    lines.push(field("task_id", c.task_id.as_str()));
    lines.push(field("direction", checkpoint::serialize_direction(c.direction)));
    lines.push(field("transport_mode", checkpoint::serialize_transport_mode(c.transport_mode)));
    lines.push(field("verify_enabled", bool_text(c.verify_enabled)));
    lines.push(field("source_root", checkpoint::escape_text(c.source_root.as_str()).as_str()));
    lines.push(field("target_root", checkpoint::escape_text(c.target_root.as_str()).as_str()));
    lines.push(field("chunk_size_bytes", decimal::dec_text(c.chunk_size_bytes as u128).as_str()));
    lines.push(
        field(
            "small_file_threshold_bytes",
            decimal::dec_text(c.small_file_threshold_bytes as u128).as_str(),
        ),
    );
    lines.push(
        field(
            "max_in_flight_chunks_per_lane",
            decimal::dec_text(c.max_in_flight_chunks_per_lane as u128).as_str(),
        ),
    );
    lines.push(field("created_at_epoch_ms", decimal::dec_text(c.created_at_epoch_ms).as_str()));
    lines.push(field("state", checkpoint::serialize_state(entry.checkpoint.state)));
    lines.push(
        field(
            "updated_at_epoch_ms",
            decimal::dec_text(entry.checkpoint.updated_at_epoch_ms).as_str(),
        ),
    );
    assert(text::views(lines@) =~= head);
    assert(head + tail.take(0) =~= head);
    let files = &entry.checkpoint.files;
    let mut i: usize = 0;
    while i < files.len()
        invariant
            files@ == entry.checkpoint.files@,
            i <= files.len(),
            e == entry@,
            tail == e.checkpoint.files.map_values(|f: FileCheckpointView| file_line(f)),
            text::views(lines@) == head + tail.take(i as int),
        decreases files.len() - i,
    {
        let ghost before = text::views(lines@);
        let line = file_line_text(&files[i]);
        lines.push(line);
        assert(text::views(lines@) == before.push(line@));
        assert(text::views(lines@) =~= head + tail.take(i + 1));
        i += 1;
    }
    assert(tail.take(tail.len() as int) =~= tail);
    text::join_texts(&lines, "\n")
}

/// At most `n` pieces of `s`: those between the first `n - 1` separators, and the rest.
pub open spec fn split_at_most(s: Seq<char>, n: nat, sep: char) -> Seq<Seq<char>> {
    let p = text::split_on(s, sep);
    if p.len() <= n {
        p
    } else {
        p.take(n - 1).push(text::join(p.skip(n - 1), seq![sep]))
    }
}

/// The chunk indices that pieces denote, or the first piece that denotes none.
pub open spec fn read_chunks(parts: Seq<Seq<char>>) -> Result<Seq<u32>, Seq<char>>
    decreases parts.len(),
{
    if parts.len() == 0 {
        Ok(Seq::empty())
    } else {
        match read_chunks(parts.drop_last()) {
            Err(m) => Err(m),
            Ok(v) => match decimal::parse(parts.last(), u32::MAX as nat) {
                Some(k) => Ok(v.push(k as u32)),
                None => Err("invalid chunk "@ + parts.last()),
            },
        }
    }
}

/// A chunk index and its lane, as a piece denotes them.
pub open spec fn read_lane_entry(s: Seq<char>) -> Result<(u32, LaneAssignment), Seq<char>> {
    match text::split_once(s, ':') {
        None => Err("invalid completed lane "@ + s),
        Some(p) => match decimal::parse(p.0, u32::MAX as nat) {
            None => Err("invalid completed lane chunk "@ + p.0),
            Some(k) => match checkpoint::read_lane(p.1) {
                Err(m) => Err(m),
                Ok(l) => Ok((k as u32, l)),
            },
        },
    }
}

/// The lanes that pieces denote; empty pieces are passed over, and of two entries for one chunk
/// the later counts.
pub open spec fn read_lanes(parts: Seq<Seq<char>>) -> Result<Map<u32, LaneAssignment>, Seq<char>>
    decreases parts.len(),
{
    if parts.len() == 0 {
        Ok(Map::empty())
    } else {
        match read_lanes(parts.drop_last()) {
            Err(m) => Err(m),
            Ok(v) => if parts.last().len() == 0 {
                Ok(v)
            } else {
                match read_lane_entry(parts.last()) {
                    Err(m) => Err(m),
                    Ok(e) => Ok(v.insert(e.0, e.1)),
                }
            },
        }
    }
}

/// A text, or nothing where it is empty.
pub open spec fn non_empty(s: Seq<char>) -> Option<Seq<char>> {
    if s.len() == 0 {
        None
    } else {
        Some(s)
    }
}

/// The `i`-th piece, or the empty text.
pub open spec fn piece(p: Seq<Seq<char>>, i: int) -> Seq<char> {
    if i < p.len() {
        p[i]
    } else {
        Seq::empty()
    }
}

/// The file that the pieces of a line denote once the modification time and the texts of its
/// lists and digests are known.
pub open spec fn read_file_parts(
    relative: Seq<char>,
    size: Seq<char>,
    modified: u128,
    chunks: Seq<char>,
    digest: Seq<char>,
    fingerprint: Seq<char>,
    lanes: Seq<char>,
) -> Result<FileCheckpointView, Seq<char>> {
    let chunk_result = if chunks.len() == 0 {
        Ok(Seq::empty())
    } else {
        read_chunks(text::split_on(chunks, ','))
    };
    match chunk_result {
        Err(m) => Err(m),
        Ok(completed_chunks) => {
            let lane_result = if lanes.len() == 0 {
                Ok(Map::empty())
            } else {
                read_lanes(text::split_on(lanes, ','))
            };
            match lane_result {
                Err(m) => Err(m),
                Ok(completed_chunk_lanes) => match decimal::parse(size, u64::MAX as nat) {
                    None => Err("invalid file size "@ + size),
                    Some(n) => Ok(
                        FileCheckpointView {
                            relative_path: checkpoint::unescape(relative),
                            size_bytes: n as u64,
                            modified_at_epoch_ms: modified,
                            fingerprint_hex: non_empty(checkpoint::unescape(fingerprint)),
                            completed_chunks,
                            completed_chunk_lanes,
                            verification_digest: non_empty(checkpoint::unescape(digest)),
                        },
                    ),
                },
            }
        },
    }
}

/// The file that a `file=` line denotes. A line with six or more pieces names the modification
/// time third; a shorter, older one has none and zero is taken for it.
pub open spec fn read_file(value: Seq<char>) -> Result<FileCheckpointView, Seq<char>> {
    let p = split_at_most(value, 7, '|');
    if p.len() < 2 {
        Err("missing file size"@)
    } else if p.len() < 3 {
        Err("missing chunk data"@)
    } else if p.len() >= 6 {
        match decimal::parse(p[2], u128::MAX as nat) {
            None => Err("invalid modified_at_epoch_ms "@ + p[2]),
            Some(m) => read_file_parts(p[0], p[1], m as u128, p[3], p[4], p[5], piece(p, 6)),
        }
    } else {
        read_file_parts(p[0], p[1], 0, p[2], piece(p, 3), piece(p, 4), Seq::empty())
    }
}

/// What lines say: the settings, of two with one key the later, and the files in order; or what
/// is wrong with the first bad line.
pub open spec fn read_lines(lines: Seq<Seq<char>>) -> Result<
    (Map<Seq<char>, Seq<char>>, Seq<FileCheckpointView>),
    Seq<char>,
>
    decreases lines.len(),
{
    if lines.len() == 0 {
        Ok((Map::empty(), Seq::empty()))
    } else {
        match read_lines(lines.drop_last()) {
            Err(m) => Err(m),
            Ok(st) => match text::strip_prefix(lines.last(), "file="@) {
                Some(value) => match read_file(value) {
                    Err(m) => Err(m),
                    Ok(f) => Ok((st.0, st.1.push(f))),
                },
                None => match text::split_once(lines.last(), '=') {
                    Some(kv) => Ok((st.0.insert(kv.0, kv.1), st.1)),
                    None => Ok(st),
                },
            },
        }
    }
}

/// The value of a setting that must be there.
pub open spec fn required(m: Map<Seq<char>, Seq<char>>, key: Seq<char>) -> Result<
    Seq<char>,
    Seq<char>,
> {
    if m.contains_key(key) {
        Ok(m[key])
    } else {
        Err("missing "@ + key)
    }
}

/// The number of a setting that must be there.
pub open spec fn required_number(
    m: Map<Seq<char>, Seq<char>>,
    key: Seq<char>,
    max: nat,
) -> Result<nat, Seq<char>> {
    match required(m, key) {
        Err(e) => Err(e),
        Ok(v) => match decimal::parse(v, max) {
            Some(n) => Ok(n),
            None => Err("invalid "@ + key),
        },
    }
}

/// The truth value of a setting that must be there.
pub open spec fn required_bool(m: Map<Seq<char>, Seq<char>>, key: Seq<char>) -> Result<
    bool,
    Seq<char>,
> {
    match required(m, key) {
        Err(e) => Err(e),
        Ok(v) => if v == "true"@ {
            Ok(true)
        } else if v == "false"@ {
            Ok(false)
        } else {
            Err("invalid "@ + key)
        },
    }
}

/// The settings that a map of values denotes, or the first that is missing or bad.
pub open spec fn read_config(m: Map<Seq<char>, Seq<char>>) -> Result<TaskConfigView, Seq<char>> {
    match required(m, "task_id"@) {
        Err(e) => Err(e),
        Ok(task_id) => match required(m, "direction"@) {
            Err(e) => Err(e),
            Ok(dw) => match checkpoint::read_direction(dw) {
                Err(e) => Err(e),
                Ok(direction) => match required(m, "transport_mode"@) {
                    Err(e) => Err(e),
                    Ok(mw) => match checkpoint::read_mode(mw) {
                        Err(e) => Err(e),
                        Ok(transport_mode) => match required_bool(m, "verify_enabled"@) {
                            Err(e) => Err(e),
                            Ok(verify_enabled) => match required(m, "source_root"@) {
                                Err(e) => Err(e),
                                Ok(source) => match required(m, "target_root"@) {
                                    Err(e) => Err(e),
                                    Ok(target) => read_limits(
                                        m,
                                        task_id,
                                        direction,
                                        transport_mode,
                                        verify_enabled,
                                        checkpoint::unescape(source),
                                        checkpoint::unescape(target),
                                    ),
                                },
                            },
                        },
                    },
                },
            },
        },
    }
}

/// The numbers among the settings, joined to the settings already read.
pub open spec fn read_limits(
    m: Map<Seq<char>, Seq<char>>,
    task_id: Seq<char>,
    direction: crate::models::Direction,
    transport_mode: crate::models::TransportMode,
    verify_enabled: bool,
    source_root: Seq<char>,
    target_root: Seq<char>,
) -> Result<TaskConfigView, Seq<char>> {
    match required_number(m, "chunk_size_bytes"@, u64::MAX as nat) {
        Err(e) => Err(e),
        Ok(chunk_size) => match required_number(m, "small_file_threshold_bytes"@, u64::MAX as nat) {
            Err(e) => Err(e),
            Ok(threshold) => match required_number(
                m,
                "max_in_flight_chunks_per_lane"@,
                usize::MAX as nat,
            ) {
                Err(e) => Err(e),
                Ok(limit) => match required_number(m, "created_at_epoch_ms"@, u128::MAX as nat) {
                    Err(e) => Err(e),
                    Ok(created) => Ok(
                        TaskConfigView {
                            task_id,
                            direction,
                            transport_mode,
                            verify_enabled,
                            source_root,
                            target_root,
                            chunk_size_bytes: chunk_size as u64,
                            small_file_threshold_bytes: threshold as u64,
                            max_in_flight_chunks_per_lane: limit as usize,
                            created_at_epoch_ms: created as u128,
                        },
                    ),
                },
            },
        },
    }
}

/// The entry that a text denotes, or what is wrong with it.
pub open spec fn read_entry(content: Seq<char>) -> Result<CheckpointEntryView, Seq<char>> {
    match read_lines(text::lines(content)) {
        Err(e) => Err(e),
        Ok(st) => match read_config(st.0) {
            Err(e) => Err(e),
            Ok(config) => match required(st.0, "state"@) {
                Err(e) => Err(e),
                Ok(w) => match checkpoint::read_state(w) {
                    Err(e) => Err(e),
                    Ok(state) => match required_number(
                        st.0,
                        "updated_at_epoch_ms"@,
                        u128::MAX as nat,
                    ) {
                        Err(e) => Err(e),
                        Ok(updated) => Ok(
                            CheckpointEntryView {
                                config,
                                checkpoint: TaskCheckpointView {
                                    task_id: config.task_id,
                                    state,
                                    transport_mode: config.transport_mode,
                                    verify_enabled: config.verify_enabled,
                                    updated_at_epoch_ms: updated as u128,
                                    files: st.1,
                                },
                            },
                        ),
                    },
                },
            },
        },
    }
}

fn required_text(map: &Fields, key: &str) -> (r: Result<String, String>)
    ensures
        checkpoint::agrees(r, required(map@, key@)),
{
    match map.get(key) {
        Some(v) => Ok(v),
        None => Err(checkpoint::about("missing ", key)),
    }
}

fn required_u128(map: &Fields, key: &str) -> (r: Result<u128, String>)
    ensures
        match r {
            Ok(n) => required_number(map@, key@, u128::MAX as nat) == Ok::<nat, Seq<char>>(
                n as nat,
            ),
            Err(m) => required_number(map@, key@, u128::MAX as nat) == Err::<nat, Seq<char>>(m@),
        },
{
    match required_text(map, key) {
        Err(e) => Err(e),
        Ok(v) => match decimal::parse_u128(v.as_str()) {
            Some(n) => Ok(n),
            None => Err(checkpoint::about("invalid ", key)),
        },
    }
}

fn required_u64(map: &Fields, key: &str) -> (r: Result<u64, String>)
    ensures
        match r {
            Ok(n) => required_number(map@, key@, u64::MAX as nat) == Ok::<nat, Seq<char>>(n as nat),
            Err(m) => required_number(map@, key@, u64::MAX as nat) == Err::<nat, Seq<char>>(m@),
        },
{
    match required_text(map, key) {
        Err(e) => Err(e),
        Ok(v) => match decimal::parse_u64(v.as_str()) {
            Some(n) => Ok(n),
            None => Err(checkpoint::about("invalid ", key)),
        },
    }
}

fn required_usize(map: &Fields, key: &str) -> (r: Result<usize, String>)
    ensures
        match r {
            Ok(n) => required_number(map@, key@, usize::MAX as nat) == Ok::<nat, Seq<char>>(
                n as nat,
            ),
            Err(m) => required_number(map@, key@, usize::MAX as nat) == Err::<nat, Seq<char>>(m@),
        },
{
    match required_text(map, key) {
        Err(e) => Err(e),
        Ok(v) => match decimal::parse_usize(v.as_str()) {
            Some(n) => Ok(n),
            None => Err(checkpoint::about("invalid ", key)),
        },
    }
}

fn required_flag(map: &Fields, key: &str) -> (r: Result<bool, String>)
    ensures
        match r {
            Ok(b) => required_bool(map@, key@) == Ok::<bool, Seq<char>>(b),
            Err(m) => required_bool(map@, key@) == Err::<bool, Seq<char>>(m@),
        },
{
    match required_text(map, key) {
        Err(e) => Err(e),
        Ok(v) => if text::str_eq(v.as_str(), "true") {
            Ok(true)
        } else if text::str_eq(v.as_str(), "false") {
            Ok(false)
        } else {
            Err(checkpoint::about("invalid ", key))
        },
    }
}

fn split_parts(s: &str, n: usize, sep: char) -> (r: Vec<String>)
    requires
        n >= 1,
    ensures
        text::views(r@) == split_at_most(s@, n as nat, sep),
        r.len() >= 1,
{
    broadcast use text::lemma_views_push;

    let all = text::split(s, sep);
    if all.len() <= n {
        return all;
    }
    let ghost p = text::views(all@);
    let mut head: Vec<String> = Vec::new();
    let mut tail: Vec<String> = Vec::new();
    let mut i: usize = 0;
    while i < all.len()
        invariant
            n >= 1,
            i <= all.len(),
            all.len() > n,
            p == text::views(all@),
            text::views(head@) == p.take(if i < n - 1 {
                i as int
            } else {
                n - 1
            }),
            text::views(tail@) == p.subrange(n - 1, if i < n - 1 {
                n - 1
            } else {
                i as int
            }),
        decreases all.len() - i,
    {
        let part = all[i].clone();
        if i < n - 1 {
            let ghost before = text::views(head@);
            head.push(part);
            assert(text::views(head@) == before.push(part@));
            assert(text::views(head@) =~= p.take(i + 1));
        } else {
            let ghost before = text::views(tail@);
            tail.push(part);
            assert(text::views(tail@) == before.push(part@));
            assert(text::views(tail@) =~= p.subrange(n - 1, i + 1));
        }
        i += 1;
    }
    let mut sep_text = String::new();
    sep_text.push(sep);
    assert(sep_text@ =~= seq![sep]);
    assert(text::views(tail@) =~= p.skip(n - 1));
    let rest = text::join_texts(&tail, sep_text.as_str());
    let ghost before = text::views(head@);
    head.push(rest);
    assert(text::views(head@) == before.push(rest@));
    head
}

fn parse_chunks(chunks: &str) -> (r: Result<Vec<u32>, String>)
    ensures
        match r {
            Ok(v) => read_chunks(text::split_on(chunks@, ',')) == Ok::<Seq<u32>, Seq<char>>(v@),
            Err(m) => read_chunks(text::split_on(chunks@, ',')) == Err::<Seq<u32>, Seq<char>>(m@),
        },
{
    let parts = text::split(chunks, ',');
    let ghost p = text::views(parts@);
    let mut out: Vec<u32> = Vec::new();
    let mut i: usize = 0;
    while i < parts.len()
        invariant
            i <= parts.len(),
            p == text::views(parts@),
            p == text::split_on(chunks@, ','),
            read_chunks(p.take(i as int)) == Ok::<Seq<u32>, Seq<char>>(out@),
        decreases parts.len() - i,
    {
        assert(p.take(i + 1).drop_last() =~= p.take(i as int));
        match decimal::parse_u32(parts[i].as_str()) {
            Some(k) => {
                out.push(k);
            },
            None => {
                let e = checkpoint::about("invalid chunk ", parts[i].as_str());
                proof {
                    lemma_read_chunks_stops(p, i + 1, e@);
                }
                return Err(e);
            },
        }
        i += 1;
    }
    assert(p.take(p.len() as int) =~= p);
    Ok(out)
}

proof fn lemma_read_chunks_stops(p: Seq<Seq<char>>, i: int, e: Seq<char>)
    requires
        0 <= i <= p.len(),
        read_chunks(p.take(i)) == Err::<Seq<u32>, Seq<char>>(e),
    ensures
        read_chunks(p) == Err::<Seq<u32>, Seq<char>>(e),
    decreases p.len() - i,
{
    if i == p.len() {
        assert(p.take(i) =~= p);
    } else {
        assert(p.take(i + 1).drop_last() =~= p.take(i));
        lemma_read_chunks_stops(p, i + 1, e);
    }
}

fn parse_lane_entry(s: &str) -> (r: Result<(u32, LaneAssignment), String>)
    ensures
        match r {
            Ok(v) => read_lane_entry(s@) == Ok::<(u32, LaneAssignment), Seq<char>>(v),
            Err(m) => read_lane_entry(s@) == Err::<(u32, LaneAssignment), Seq<char>>(m@),
        },
{
    match text::split_at_char(s, ':') {
        None => Err(checkpoint::about("invalid completed lane ", s)),
        Some(p) => match decimal::parse_u32(p.0.as_str()) {
            None => Err(checkpoint::about("invalid completed lane chunk ", p.0.as_str())),
            Some(k) => match checkpoint::parse_lane(p.1.as_str()) {
                Err(m) => Err(m),
                Ok(l) => Ok((k, l)),
            },
        },
    }
}

fn parse_lanes(lanes: &str) -> (r: Result<BTreeMap<u32, LaneAssignment>, String>)
    ensures
        match r {
            Ok(v) => read_lanes(text::split_on(lanes@, ',')) == Ok::<
                Map<u32, LaneAssignment>,
                Seq<char>,
            >(v@),
            Err(m) => read_lanes(text::split_on(lanes@, ',')) == Err::<
                Map<u32, LaneAssignment>,
                Seq<char>,
            >(m@),
        },
{
    broadcast use vstd::std_specs::btree::group_btree_axioms;

    let parts = text::split(lanes, ',');
    let ghost p = text::views(parts@);
    let mut out: BTreeMap<u32, LaneAssignment> = BTreeMap::new();
    let mut i: usize = 0;
    while i < parts.len()
        invariant
            i <= parts.len(),
            p == text::views(parts@),
            p == text::split_on(lanes@, ','),
            read_lanes(p.take(i as int)) == Ok::<Map<u32, LaneAssignment>, Seq<char>>(out@),
        decreases parts.len() - i,
    {
        assert(p.take(i + 1).drop_last() =~= p.take(i as int));
        assert(p[i as int] == parts@[i as int]@);
        if !parts[i].as_str().is_empty() {
            match parse_lane_entry(parts[i].as_str()) {
                Ok(e) => {
                    out.insert(e.0, e.1);
                },
                Err(e) => {
                    proof {
                        lemma_read_lanes_stops(p, i + 1, e@);
                    }
                    return Err(e);
                },
            }
        }
        i += 1;
    }
    assert(p.take(p.len() as int) =~= p);
    Ok(out)
}

proof fn lemma_read_lanes_stops(p: Seq<Seq<char>>, i: int, e: Seq<char>)
    requires
        0 <= i <= p.len(),
        read_lanes(p.take(i)) == Err::<Map<u32, LaneAssignment>, Seq<char>>(e),
    ensures
        read_lanes(p) == Err::<Map<u32, LaneAssignment>, Seq<char>>(e),
    decreases p.len() - i,
{
    if i == p.len() {
        assert(p.take(i) =~= p);
    } else {
        assert(p.take(i + 1).drop_last() =~= p.take(i));
        lemma_read_lanes_stops(p, i + 1, e);
    }
}

fn present(s: String) -> (r: Option<String>)
    ensures
        text::opt_view(r) == non_empty(s@),
{
    if s.as_str().is_empty() {
        None
    } else {
        Some(s)
    }
}

fn parse_file_parts(
    relative: &str,
    size: &str,
    modified: u128,
    chunks: &str,
    digest: &str,
    fingerprint: &str,
    lanes: &str,
) -> (r: Result<FileCheckpoint, String>)
    ensures
        checkpoint::agrees(
            r,
            read_file_parts(relative@, size@, modified, chunks@, digest@, fingerprint@, lanes@),
        ),
{
    let completed_chunks = if chunks.is_empty() {
        Vec::new()
    } else {
        match parse_chunks(chunks) {
            Ok(v) => v,
            Err(e) => {
                return Err(e);
            },
        }
    };
    let completed_chunk_lanes = if lanes.is_empty() {
        BTreeMap::new()
    } else {
        match parse_lanes(lanes) {
            Ok(v) => v,
            Err(e) => {
                return Err(e);
            },
        }
    };
    match decimal::parse_u64(size) {
        None => Err(checkpoint::about("invalid file size ", size)),
        Some(n) => Ok(
            FileCheckpoint {
                relative_path: checkpoint::unescape_text(relative),
                size_bytes: n,
                modified_at_epoch_ms: modified,
                fingerprint_hex: present(checkpoint::unescape_text(fingerprint)),
                completed_chunks,
                completed_chunk_lanes,
                verification_digest: present(checkpoint::unescape_text(digest)),
            },
        ),
    }
}

fn part_or_empty(parts: &Vec<String>, i: usize) -> (r: String)
    ensures
        r@ == piece(text::views(parts@), i as int),
{
    if i < parts.len() {
        parts[i].clone()
    } else {
        String::new()
    }
}

fn parse_file(value: &str) -> (r: Result<FileCheckpoint, String>)
    ensures
        checkpoint::agrees(r, read_file(value@)),
{
    let p = split_parts(value, 7, '|');
    if p.len() < 2 {
        return Err("missing file size".to_string());
    }
    if p.len() < 3 {
        return Err("missing chunk data".to_string());
    }
    if p.len() >= 6 {
        match decimal::parse_u128(p[2].as_str()) {
            None => Err(checkpoint::about("invalid modified_at_epoch_ms ", p[2].as_str())),
            Some(m) => parse_file_parts(
                p[0].as_str(),
                p[1].as_str(),
                m,
                p[3].as_str(),
                p[4].as_str(),
                p[5].as_str(),
                part_or_empty(&p, 6).as_str(),
            ),
        }
    } else {
        let none = String::new();
        parse_file_parts(
            p[0].as_str(),
            p[1].as_str(),
            0,
            p[2].as_str(),
            part_or_empty(&p, 3).as_str(),
            part_or_empty(&p, 4).as_str(),
            none.as_str(),
        )
    }
}

fn parse_lines(lines: &Vec<String>) -> (r: Result<(Fields, Vec<FileCheckpoint>), String>)
    ensures
        match r {
            Ok(v) => read_lines(text::views(lines@)) == Ok::<
                (Map<Seq<char>, Seq<char>>, Seq<FileCheckpointView>),
                Seq<char>,
            >((v.0@, checkpoint::file_views(v.1@))),
            Err(m) => read_lines(text::views(lines@)) == Err::<
                (Map<Seq<char>, Seq<char>>, Seq<FileCheckpointView>),
                Seq<char>,
            >(m@),
        },
{
    broadcast use checkpoint::lemma_file_views_push;

    let ghost p = text::views(lines@);
    let mut map = Fields::new();
    let mut files: Vec<FileCheckpoint> = Vec::new();
    let mut i: usize = 0;
    assert(checkpoint::file_views(files@) =~= Seq::empty());
    while i < lines.len()
        invariant
            i <= lines.len(),
            p == text::views(lines@),
            read_lines(p.take(i as int)) == Ok::<
                (Map<Seq<char>, Seq<char>>, Seq<FileCheckpointView>),
                Seq<char>,
            >((map@, checkpoint::file_views(files@))),
        decreases lines.len() - i,
    {
        assert(p.take(i + 1).drop_last() =~= p.take(i as int));
        let line = lines[i].as_str();
        match text::without_prefix(line, "file=") {
            Some(value) => match parse_file(value.as_str()) {
                Ok(f) => {
                    let ghost before = checkpoint::file_views(files@);
                    files.push(f);
                    assert(checkpoint::file_views(files@) == before.push(f@));
                },
                Err(e) => {
                    proof {
                        lemma_read_lines_stops(p, i + 1, e@);
                    }
                    return Err(e);
                },
            },
            None => {
                if let Some(kv) = text::split_at_char(line, '=') {
                    map.insert(kv.0, kv.1);
                }
            },
        }
        i += 1;
    }
    assert(p.take(p.len() as int) =~= p);
    Ok((map, files))
}

proof fn lemma_read_lines_stops(p: Seq<Seq<char>>, i: int, e: Seq<char>)
    requires
        0 <= i <= p.len(),
        read_lines(p.take(i)) == Err::<
            (Map<Seq<char>, Seq<char>>, Seq<FileCheckpointView>),
            Seq<char>,
        >(e),
    ensures
        read_lines(p) == Err::<(Map<Seq<char>, Seq<char>>, Seq<FileCheckpointView>), Seq<char>>(e),
    decreases p.len() - i,
{
    if i == p.len() {
        assert(p.take(i) =~= p);
    } else {
        assert(p.take(i + 1).drop_last() =~= p.take(i));
        lemma_read_lines_stops(p, i + 1, e);
    }
}

fn parse_config(map: &Fields) -> (r: Result<TaskConfig, String>)
    ensures
        checkpoint::agrees(r, read_config(map@)),
{
    let task_id = match required_text(map, "task_id") {
        Ok(v) => v,
        Err(e) => {
            return Err(e);
        },
    };
    let direction = match required_text(map, "direction") {
        Ok(w) => match checkpoint::parse_direction(w.as_str()) {
            Ok(v) => v,
            Err(e) => {
                return Err(e);
            },
        },
        Err(e) => {
            return Err(e);
        },
    };
    let transport_mode = match required_text(map, "transport_mode") {
        Ok(w) => match checkpoint::parse_transport_mode(w.as_str()) {
            Ok(v) => v,
            Err(e) => {
                return Err(e);
            },
        },
        Err(e) => {
            return Err(e);
        },
    };
    let verify_enabled = match required_flag(map, "verify_enabled") {
        Ok(v) => v,
        Err(e) => {
            return Err(e);
        },
    };
    let source_root = match required_text(map, "source_root") {
        Ok(v) => checkpoint::unescape_text(v.as_str()),
        Err(e) => {
            return Err(e);
        },
    };
    let target_root = match required_text(map, "target_root") {
        Ok(v) => checkpoint::unescape_text(v.as_str()),
        Err(e) => {
            return Err(e);
        },
    };
    let chunk_size_bytes: u64 = match required_u64(map, "chunk_size_bytes") {
        Ok(v) => v,
        Err(e) => {
            return Err(e);
        },
    };
    let small_file_threshold_bytes: u64 = match required_u64(map, "small_file_threshold_bytes") {
        Ok(v) => v,
        Err(e) => {
            return Err(e);
        },
    };
    let max_in_flight_chunks_per_lane: usize = match required_usize(
        map,
        "max_in_flight_chunks_per_lane",
    ) {
        Ok(v) => v,
        Err(e) => {
            return Err(e);
        },
    };
    let created_at_epoch_ms: u128 = match required_u128(map, "created_at_epoch_ms") {
        Ok(v) => v,
        Err(e) => {
            return Err(e);
        },
    };
    Ok(
        TaskConfig {
            task_id,
            direction,
            transport_mode,
            verify_enabled,
            source_root,
            target_root,
            chunk_size_bytes,
            small_file_threshold_bytes,
            max_in_flight_chunks_per_lane,
            created_at_epoch_ms,
        },
    )
}

fn parse_entry(content: &str) -> (r: Result<CheckpointEntry, String>)
    ensures
        checkpoint::agrees(r, read_entry(content@)),
{
    let lines = text::split_lines(content);
    let (map, files) = match parse_lines(&lines) {
        Ok(v) => v,
        Err(e) => {
            return Err(e);
        },
    };
    let config = match parse_config(&map) {
        Ok(v) => v,
        Err(e) => {
            return Err(e);
        },
    };
    let state = match required_text(&map, "state") {
        Ok(w) => match checkpoint::parse_state(w.as_str()) {
            Ok(v) => v,
            Err(e) => {
                return Err(e);
            },
        },
        Err(e) => {
            return Err(e);
        },
    };
    let updated_at_epoch_ms: u128 = match required_u128(&map, "updated_at_epoch_ms") {
        Ok(v) => v,
        Err(e) => {
            return Err(e);
        },
    };
    let task_id = config.task_id.clone();
    let transport_mode = config.transport_mode;
    let verify_enabled = config.verify_enabled;
    Ok(
        CheckpointEntry {
            config,
            checkpoint: TaskCheckpoint {
                task_id,
                state,
                transport_mode,
                verify_enabled,
                updated_at_epoch_ms,
                files,
            },
        },
    )
}

/// Whether an outcome is what a text denotes.
pub open spec fn loaded_as(
    r: Result<CheckpointEntry, CheckpointError>,
    s: Result<CheckpointEntryView, Seq<char>>,
) -> bool {
    match (r, s) {
        (Ok(e), Ok(v)) => e@ == v,
        (Err(CheckpointError::Parse(m)), Err(t)) => m@ == t,
        _ => false,
    }
}

/// The entry that a text denotes, or what is wrong with it.
pub fn deserialize_entry(content: &str) -> (r: Result<CheckpointEntry, CheckpointError>)
    ensures
        loaded_as(r, read_entry(content@)),
{
    match parse_entry(content) {
        Ok(e) => Ok(e),
        Err(m) => Err(CheckpointError::Parse(m)),
    }
}

} // verus!
