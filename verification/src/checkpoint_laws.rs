//! What is written of a checkpoint reads back as it was.

use crate::checkpoint;
use crate::checkpoint::{CheckpointEntryView, FileCheckpointView, TaskCheckpointView};
use crate::checkpoint_text;
use crate::decimal;
use crate::models::TaskConfigView;
use crate::scheduler::LaneAssignment;
use crate::text;
use vstd::prelude::*;

verus! {

/// Undoing the escapes of an escaped text gives the text.
pub proof fn lemma_unescape_escape(s: Seq<char>)
    ensures
        checkpoint::unescape(checkpoint::escape(s)) == s,
    decreases s.len(),
{
    if s.len() > 0 {
        let rest = s.drop_first();
        lemma_unescape_escape(rest);
        let e = checkpoint::escape_char(s[0]) + checkpoint::escape(rest);
        assert(e == checkpoint::escape(s));
        if checkpoint::escape_char(s[0]).len() == 2 {
            assert(e.skip(2) =~= checkpoint::escape(rest));
        } else {
            assert(e.drop_first() =~= checkpoint::escape(rest));
        }
        assert(seq![s[0]] + rest =~= s);
    } else {
        assert(s =~= Seq::<char>::empty());
    }
}

/// An escaped text holds no line feed and no bar, and ends in a carriage return only where the
/// text does.
pub proof fn lemma_escape_is_clean(s: Seq<char>)
    ensures
        text::lacks(checkpoint::escape(s), '\n'),
        text::lacks(checkpoint::escape(s), '|'),
        s.len() > 0 ==> checkpoint::escape(s).len() > 0,
        (s.len() > 0 && s.last() != '\r') ==> checkpoint::escape(s).last() != '\r',
    decreases s.len(),
{
    broadcast use text::lemma_lacks_concat;

    if s.len() > 0 {
        let rest = s.drop_first();
        lemma_escape_is_clean(rest);
        assert(text::lacks(checkpoint::escape_char(s[0]), '\n'));
        assert(text::lacks(checkpoint::escape_char(s[0]), '|'));
        if rest.len() > 0 {
            assert(rest.last() == s.last());
        }
    }
}

proof fn lemma_escape_keeps_return(s: Seq<char>)
    requires
        s.len() > 0,
        s.last() == '\r',
    ensures
        checkpoint::escape(s) == checkpoint::escape(s.drop_last()).push('\r'),
    decreases s.len(),
{
    let rest = s.drop_first();
    if rest.len() > 0 {
        lemma_escape_keeps_return(rest);
        assert(s.drop_last().drop_first() =~= rest.drop_last());
        assert(checkpoint::escape(s) =~= checkpoint::escape(s.drop_last()).push('\r'));
    } else {
        assert(s.drop_last().len() == 0);
        assert(checkpoint::escape(rest).len() == 0);
        assert(checkpoint::escape(s) =~= seq!['\r']);
    }
}

proof fn lemma_escaped_line_back(s: Seq<char>)
    ensures
        checkpoint::unescape(text::strip_cr(checkpoint::escape(s))) == text::strip_cr(s),
{
    lemma_escape_is_clean(s);
    lemma_unescape_escape(s);
    if s.len() == 0 {
        assert(checkpoint::escape(s).len() == 0);
    } else if s.last() == '\r' {
        lemma_escape_keeps_return(s);
        lemma_unescape_escape(s.drop_last());
        assert(checkpoint::escape(s).drop_last() =~= checkpoint::escape(s.drop_last()));
    }
}

proof fn lemma_digits_lack(n: nat, c: char)
    requires
        !decimal::is_digit(c),
    ensures
        text::lacks(decimal::dec(n), c),
        decimal::dec(n).len() > 0,
{
    decimal::lemma_dec(n);
    assert forall|i: int| 0 <= i < decimal::dec(n).len() implies #[trigger] decimal::dec(n)[i] != c by {
        assert(decimal::is_digit(decimal::dec(n)[i]));
    }
}

proof fn lemma_join_nonempty(parts: Seq<Seq<char>>, sep: Seq<char>)
    requires
        parts.len() > 0,
        parts.last().len() > 0,
    ensures
        text::join(parts, sep).len() > 0,
        text::join(parts, sep).last() == parts.last().last(),
{
}

proof fn lemma_chunks_back(c: Seq<u32>)
    ensures
        ({
            let parts = c.map_values(|k: u32| decimal::dec(k as nat));
            checkpoint_text::read_chunks(parts) == Ok::<Seq<u32>, Seq<char>>(c)
        }),
    decreases c.len(),
{
    let parts = c.map_values(|k: u32| decimal::dec(k as nat));
    if c.len() > 0 {
        let d = c.drop_last();
        lemma_chunks_back(d);
        assert(parts.drop_last() =~= d.map_values(|k: u32| decimal::dec(k as nat)));
        decimal::lemma_parse_dec(c.last() as nat, u32::MAX as nat);
        assert(d.push(c.last()) =~= c);
    } else {
        assert(c =~= Seq::<u32>::empty());
    }
}

proof fn lemma_chunk_list(c: Seq<u32>)
    ensures
        text::lacks(checkpoint_text::chunk_list(c), '\n'),
        text::lacks(checkpoint_text::chunk_list(c), '|'),
        c.len() == 0 <==> checkpoint_text::chunk_list(c).len() == 0,
        c.len() > 0 ==> checkpoint_text::read_chunks(
            text::split_on(checkpoint_text::chunk_list(c), ','),
        ) == Ok::<Seq<u32>, Seq<char>>(c),
{
    reveal_strlit(",");
    let parts = c.map_values(|k: u32| decimal::dec(k as nat));
    assert(","@ =~= seq![',']);
    assert forall|i: int| 0 <= i < parts.len() implies text::lacks(#[trigger] parts[i], '\n')
        && text::lacks(parts[i], '|') && text::lacks(parts[i], ',') && parts[i].len() > 0 by {
        lemma_digits_lack(c[i] as nat, '\n');
        lemma_digits_lack(c[i] as nat, '|');
        lemma_digits_lack(c[i] as nat, ',');
    }
    text::lemma_join_lacks(parts, ","@, '\n');
    text::lemma_join_lacks(parts, ","@, '|');
    if c.len() > 0 {
        assert(parts[parts.len() - 1].len() > 0);
        lemma_join_nonempty(parts, ","@);
        text::lemma_split_join(parts, ',');
        lemma_chunks_back(c);
    }
}

/// The part of a map with keys below `n`.
spec fn below(m: Map<u32, LaneAssignment>, n: nat) -> Map<u32, LaneAssignment> {
    Map::new(|k: u32| m.contains_key(k) && k < n, |k: u32| m[k])
}

proof fn lemma_lane_entry(row: (u32, LaneAssignment))
    ensures
        checkpoint_text::read_lane_entry(checkpoint_text::lane_entry(row)) == Ok::<
            (u32, LaneAssignment),
            Seq<char>,
        >(row),
        text::lacks(checkpoint_text::lane_entry(row), '\n'),
        text::lacks(checkpoint_text::lane_entry(row), '|'),
        text::lacks(checkpoint_text::lane_entry(row), ','),
        checkpoint_text::lane_entry(row).len() > 0,
        checkpoint_text::lane_entry(row).last() != '\r',
{
    broadcast use text::lemma_lacks_concat;

    reveal_strlit(":");
    reveal_strlit("adb");
    reveal_strlit("wifi");
    let n = decimal::dec(row.0 as nat);
    let w = checkpoint::lane_word(row.1);
    let s = checkpoint_text::lane_entry(row);
    lemma_digits_lack(row.0 as nat, ':');
    lemma_digits_lack(row.0 as nat, '\n');
    lemma_digits_lack(row.0 as nat, '|');
    lemma_digits_lack(row.0 as nat, ',');
    assert(text::lacks(":"@, '\n') && text::lacks(w, '\n'));
    assert(text::lacks(":"@, '|') && text::lacks(w, '|'));
    assert(text::lacks(":"@, ',') && text::lacks(w, ','));
    assert forall|k: int| 0 <= k < n.len() implies s[k] != ':' by {
        assert(s[k] == n[k]);
    }
    assert(s[n.len() as int] == ':');
    text::lemma_find(s, ':', n.len() as int);
    assert(s.take(n.len() as int) =~= n);
    assert(s.skip(n.len() as int + 1) =~= w);
    decimal::lemma_parse_dec(row.0 as nat, u32::MAX as nat);
    assert("adb"@.len() != "wifi"@.len());
}

proof fn lemma_lanes_back(m: Map<u32, LaneAssignment>, n: nat)
    requires
        n <= 0x1_0000_0000,
    ensures
        checkpoint_text::read_lanes(
            checkpoint_text::rows_below(m, n).map_values(
                |r: (u32, LaneAssignment)| checkpoint_text::lane_entry(r),
            ),
        ) == Ok::<Map<u32, LaneAssignment>, Seq<char>>(below(m, n)),
    decreases n,
{
    let rows = checkpoint_text::rows_below(m, n);
    let parts = rows.map_values(|r: (u32, LaneAssignment)| checkpoint_text::lane_entry(r));
    if n == 0 {
        assert(below(m, 0) =~= Map::empty());
    } else {
        let before = checkpoint_text::rows_below(m, (n - 1) as nat);
        let head = before.map_values(|r: (u32, LaneAssignment)| checkpoint_text::lane_entry(r));
        lemma_lanes_back(m, (n - 1) as nat);
        let k = (n - 1) as u32;
        if m.contains_key(k) {
            let row = (k, m[k]);
            assert(rows == before.push(row));
            assert(parts.drop_last() =~= head);
            lemma_lane_entry(row);
            assert(below(m, n) =~= below(m, (n - 1) as nat).insert(k, m[k]));
        } else {
            assert(below(m, n) =~= below(m, (n - 1) as nat));
        }
    }
}

proof fn lemma_no_rows(m: Map<u32, LaneAssignment>, n: nat, k: u32)
    requires
        n <= 0x1_0000_0000,
        k < n,
        m.contains_key(k),
    ensures
        checkpoint_text::rows_below(m, n).len() > 0,
    decreases n,
{
    if k < n - 1 {
        lemma_no_rows(m, (n - 1) as nat, k);
    }
}

proof fn lemma_lane_list(m: Map<u32, LaneAssignment>)
    ensures
        text::lacks(checkpoint_text::lane_list(m), '\n'),
        text::lacks(checkpoint_text::lane_list(m), '|'),
        checkpoint_text::lane_list(m).len() > 0 ==> checkpoint_text::lane_list(m).last() != '\r',
        checkpoint_text::lane_list(m).len() == 0 ==> m == Map::<u32, LaneAssignment>::empty(),
        checkpoint_text::lane_list(m).len() > 0 ==> checkpoint_text::read_lanes(
            text::split_on(checkpoint_text::lane_list(m), ','),
        ) == Ok::<Map<u32, LaneAssignment>, Seq<char>>(m),
{
    reveal_strlit(",");
    assert(","@ =~= seq![',']);
    let rows = checkpoint_text::rows(m);
    let parts = rows.map_values(|r: (u32, LaneAssignment)| checkpoint_text::lane_entry(r));
    assert forall|i: int| 0 <= i < parts.len() implies text::lacks(#[trigger] parts[i], '\n')
        && text::lacks(parts[i], '|') && text::lacks(parts[i], ',') && parts[i].len() > 0
        && parts[i].last() != '\r' by {
        lemma_lane_entry(rows[i]);
    }
    text::lemma_join_lacks(parts, ","@, '\n');
    text::lemma_join_lacks(parts, ","@, '|');
    if parts.len() > 0 {
        assert(parts[parts.len() - 1].len() > 0);
        lemma_join_nonempty(parts, ","@);
        text::lemma_split_join(parts, ',');
        lemma_lanes_back(m, 0x1_0000_0000);
        assert(below(m, 0x1_0000_0000) =~= m);
    } else {
        assert forall|k: u32| !m.contains_key(k) by {
            if m.contains_key(k) {
                lemma_no_rows(m, 0x1_0000_0000, k);
            }
        }
        assert(m =~= Map::<u32, LaneAssignment>::empty());
    }
}

/// A file whose digests, where there are any, are not the empty text.
pub open spec fn file_is_writable(f: FileCheckpointView) -> bool {
    &&& f.fingerprint_hex != Some(Seq::<char>::empty())
    &&& f.verification_digest != Some(Seq::<char>::empty())
}

/// A digest as it is read back: the empty text is none.
pub open spec fn digest_as_read(d: Option<Seq<char>>) -> Option<Seq<char>> {
    checkpoint_text::non_empty(checkpoint_text::or_empty(d))
}

/// A file as it is read back from its line.
pub open spec fn file_as_read(f: FileCheckpointView) -> FileCheckpointView {
    FileCheckpointView {
        fingerprint_hex: digest_as_read(f.fingerprint_hex),
        verification_digest: digest_as_read(f.verification_digest),
        ..f
    }
}

/// Files as they are read back from their lines.
pub open spec fn files_as_read(files: Seq<FileCheckpointView>) -> Seq<FileCheckpointView> {
    files.map_values(|f: FileCheckpointView| file_as_read(f))
}

/// Settings as they are read back: the carriage return that ends a line is lost.
pub open spec fn config_as_read(c: TaskConfigView) -> TaskConfigView {
    TaskConfigView {
        task_id: text::strip_cr(c.task_id),
        source_root: text::strip_cr(c.source_root),
        target_root: text::strip_cr(c.target_root),
        ..c
    }
}

/// An entry as it is read back from its text form.
pub open spec fn entry_as_read(e: CheckpointEntryView) -> CheckpointEntryView {
    CheckpointEntryView {
        config: config_as_read(e.config),
        checkpoint: TaskCheckpointView {
            task_id: text::strip_cr(e.config.task_id),
            transport_mode: e.config.transport_mode,
            verify_enabled: e.config.verify_enabled,
            files: files_as_read(e.checkpoint.files),
            ..e.checkpoint
        },
    }
}

proof fn lemma_digest_as_it_was(d: Option<Seq<char>>)
    requires
        d != Some(Seq::<char>::empty()),
    ensures
        digest_as_read(d) == d,
{
    if let Some(v) = d {
        if v.len() == 0 {
            assert(v =~= Seq::<char>::empty());
        }
    }
}

/// The seven pieces of a file's line.
spec fn file_pieces(f: FileCheckpointView) -> Seq<Seq<char>> {
    seq![
        checkpoint::escape(f.relative_path),
        decimal::dec(f.size_bytes as nat),
        decimal::dec(f.modified_at_epoch_ms as nat),
        checkpoint_text::chunk_list(f.completed_chunks),
        checkpoint::escape(checkpoint_text::or_empty(f.verification_digest)),
        checkpoint::escape(checkpoint_text::or_empty(f.fingerprint_hex)),
        checkpoint_text::lane_list(f.completed_chunk_lanes),
    ]
}

proof fn lemma_file_pieces_are_clean(f: FileCheckpointView)
    ensures
        forall|i: int|
            0 <= i < 7 ==> text::lacks(#[trigger] file_pieces(f)[i], '\n') && text::lacks(
                file_pieces(f)[i],
                '|',
            ),
{
    lemma_escape_is_clean(f.relative_path);
    lemma_escape_is_clean(checkpoint_text::or_empty(f.verification_digest));
    lemma_escape_is_clean(checkpoint_text::or_empty(f.fingerprint_hex));
    lemma_digits_lack(f.size_bytes as nat, '\n');
    lemma_digits_lack(f.size_bytes as nat, '|');
    lemma_digits_lack(f.modified_at_epoch_ms as nat, '\n');
    lemma_digits_lack(f.modified_at_epoch_ms as nat, '|');
    lemma_chunk_list(f.completed_chunks);
    lemma_lane_list(f.completed_chunk_lanes);
}

proof fn lemma_seven_pieces(p: Seq<Seq<char>>, v: Seq<char>)
    requires
        p.len() == 7,
        forall|i: int| 0 <= i < 7 ==> text::lacks(#[trigger] p[i], '|'),
        v == p[0] + seq!['|'] + p[1] + seq!['|'] + p[2] + seq!['|'] + p[3] + seq!['|'] + p[4]
            + seq!['|'] + p[5] + seq!['|'] + p[6],
    ensures
        text::split_on(v, '|') == p,
{
    let bar = seq!['|'];
    let v2 = p[0] + bar + p[1];
    let v3 = v2 + bar + p[2];
    let v4 = v3 + bar + p[3];
    let v5 = v4 + bar + p[4];
    let v6 = v5 + bar + p[5];
    text::lemma_split_none(p[0], '|');
    text::lemma_split_append(p[0], p[1], '|');
    text::lemma_split_append(v2, p[2], '|');
    text::lemma_split_append(v3, p[3], '|');
    text::lemma_split_append(v4, p[4], '|');
    text::lemma_split_append(v5, p[5], '|');
    text::lemma_split_append(v6, p[6], '|');
    assert(text::split_on(v, '|') =~= p);
}

proof fn lemma_file_line_shape(f: FileCheckpointView)
    ensures
        ({
            let line = checkpoint_text::file_line(f);
            &&& text::lacks(line, '\n')
            &&& line.len() > 0
            &&& line.last() != '\r'
            &&& text::strip_prefix(line, "file="@) matches Some(v) && text::split_on(v, '|')
                == file_pieces(f)
        }),
{
    broadcast use text::lemma_lacks_concat;

    reveal_strlit("file=");
    reveal_strlit("|");
    assert("|"@ =~= seq!['|']);
    let p = file_pieces(f);
    let bar = seq!['|'];
    let line = checkpoint_text::file_line(f);
    let v = p[0] + bar + p[1] + bar + p[2] + bar + p[3] + bar + p[4] + bar + p[5] + bar + p[6];
    lemma_file_pieces_are_clean(f);
    lemma_lane_list(f.completed_chunk_lanes);
    assert(text::lacks("file="@, '\n'));
    assert(text::lacks(bar, '\n'));
    assert(text::lacks(p[0], '\n') && text::lacks(p[1], '\n') && text::lacks(p[2], '\n')
        && text::lacks(p[3], '\n') && text::lacks(p[4], '\n') && text::lacks(p[5], '\n')
        && text::lacks(p[6], '\n'));
    lemma_seven_pieces(p, v);
    assert(line =~= "file="@ + v);
    assert(line.skip(5) =~= v);
    assert(line.take(5) =~= "file="@);
    if p[6].len() > 0 {
        assert(line.last() == p[6].last());
    } else {
        assert(line.last() == '|');
    }
}

/// A file's line holds no line feed, does not end in a carriage return, and reads back as the
/// file, but for digests that are the empty text.
pub proof fn lemma_file_line_reads_back(f: FileCheckpointView)
    ensures
        text::lacks(checkpoint_text::file_line(f), '\n'),
        checkpoint_text::file_line(f).len() > 0,
        checkpoint_text::file_line(f).last() != '\r',
        text::strip_prefix(checkpoint_text::file_line(f), "file="@) matches Some(v)
            && checkpoint_text::read_file(v) == Ok::<FileCheckpointView, Seq<char>>(file_as_read(f)),
{
    lemma_file_line_shape(f);
    let p = file_pieces(f);
    lemma_chunk_list(f.completed_chunks);
    lemma_lane_list(f.completed_chunk_lanes);
    decimal::lemma_parse_dec(f.size_bytes as nat, u64::MAX as nat);
    decimal::lemma_parse_dec(f.modified_at_epoch_ms as nat, u128::MAX as nat);
    lemma_unescape_escape(f.relative_path);
    lemma_unescape_escape(checkpoint_text::or_empty(f.verification_digest));
    lemma_unescape_escape(checkpoint_text::or_empty(f.fingerprint_hex));
    assert(f.completed_chunks.len() == 0 ==> f.completed_chunks =~= Seq::<u32>::empty());
    assert(checkpoint_text::piece(p, 6) == p[6]);
}

/// Keys and values as a map; of two with one key the later counts.
spec fn pairs_map(pairs: Seq<(Seq<char>, Seq<char>)>) -> Map<Seq<char>, Seq<char>>
    decreases pairs.len(),
{
    if pairs.len() == 0 {
        Map::empty()
    } else {
        pairs_map(pairs.drop_last()).insert(pairs.last().0, pairs.last().1)
    }
}

spec fn is_plain_key(key: Seq<char>) -> bool {
    key.len() > 0 && key[0] != 'f' && text::lacks(key, '=')
}

proof fn lemma_read_fields(pairs: Seq<(Seq<char>, Seq<char>)>)
    requires
        forall|i: int| 0 <= i < pairs.len() ==> is_plain_key((#[trigger] pairs[i]).0),
    ensures
        checkpoint_text::read_lines(
            pairs.map_values(|p: (Seq<char>, Seq<char>)| checkpoint_text::field_line(p)),
        ) == Ok::<(Map<Seq<char>, Seq<char>>, Seq<FileCheckpointView>), Seq<char>>(
            (pairs_map(pairs), Seq::empty()),
        ),
    decreases pairs.len(),
{
    let lines = pairs.map_values(|p: (Seq<char>, Seq<char>)| checkpoint_text::field_line(p));
    if pairs.len() > 0 {
        let before = pairs.drop_last();
        assert forall|i: int| 0 <= i < before.len() implies is_plain_key(
            (#[trigger] before[i]).0,
        ) by {
            assert(is_plain_key(pairs[i].0));
        }
        lemma_read_fields(before);
        assert(lines.drop_last() =~= before.map_values(
            |p: (Seq<char>, Seq<char>)| checkpoint_text::field_line(p),
        ));
        reveal_strlit("=");
        reveal_strlit("file=");
        let (key, value) = pairs.last();
        let line = key + "="@ + value;
        assert(is_plain_key(pairs[pairs.len() - 1].0));
        assert(line[0] == key[0]);
        if text::starts_with(line, "file="@) {
            assert(line.take(5)[0] == 'f');
        }
        assert forall|k: int| 0 <= k < key.len() implies line[k] != '=' by {
            assert(line[k] == key[k]);
        }
        text::lemma_find(line, '=', key.len() as int);
        assert(line.take(key.len() as int) =~= key);
        assert(line.skip(key.len() as int + 1) =~= value);
    }
}

proof fn lemma_read_files(
    head: Seq<Seq<char>>,
    m: Map<Seq<char>, Seq<char>>,
    files: Seq<FileCheckpointView>,
)
    requires
        checkpoint_text::read_lines(head) == Ok::<
            (Map<Seq<char>, Seq<char>>, Seq<FileCheckpointView>),
            Seq<char>,
        >((m, Seq::empty())),
    ensures
        checkpoint_text::read_lines(
            head + files.map_values(|f: FileCheckpointView| checkpoint_text::file_line(f)),
        ) == Ok::<(Map<Seq<char>, Seq<char>>, Seq<FileCheckpointView>), Seq<char>>(
            (m, files_as_read(files)),
        ),
    decreases files.len(),
{
    let tail = files.map_values(|f: FileCheckpointView| checkpoint_text::file_line(f));
    if files.len() == 0 {
        assert(head + tail =~= head);
        assert(files_as_read(files) =~= Seq::empty());
    } else {
        let before = files.drop_last();
        lemma_read_files(head, m, before);
        assert((head + tail).drop_last() =~= head + before.map_values(
            |f: FileCheckpointView| checkpoint_text::file_line(f),
        ));
        lemma_file_line_reads_back(files.last());
        assert(files_as_read(before).push(file_as_read(files.last())) =~= files_as_read(files));
    }
}

proof fn lemma_pairs_get(pairs: Seq<(Seq<char>, Seq<char>)>, i: int)
    requires
        0 <= i < pairs.len(),
        forall|a: int, b: int|
            0 <= a < b < pairs.len() ==> (#[trigger] pairs[a]).0 != (#[trigger] pairs[b]).0,
    ensures
        pairs_map(pairs).contains_key(pairs[i].0),
        pairs_map(pairs)[pairs[i].0] == pairs[i].1,
    decreases pairs.len(),
{
    if i < pairs.len() - 1 {
        let before = pairs.drop_last();
        assert forall|a: int, b: int| 0 <= a < b < before.len() implies (#[trigger] before[a]).0 != (
        #[trigger] before[b]).0 by {
            assert(pairs[a].0 != pairs[b].0);
        }
        lemma_pairs_get(before, i);
        assert(pairs[i].0 != pairs[pairs.len() - 1].0);
    }
}

/// An entry that its text form can carry: the checkpoint repeats the settings it shares with the
/// task, the task's id is one line, and none of the texts that end a line ends in a carriage
/// return.
pub open spec fn entry_is_writable(e: CheckpointEntryView) -> bool {
    &&& e.checkpoint.task_id == e.config.task_id
    &&& e.checkpoint.transport_mode == e.config.transport_mode
    &&& e.checkpoint.verify_enabled == e.config.verify_enabled
    &&& text::lacks(e.config.task_id, '\n')
    &&& e.config.task_id.len() > 0 ==> e.config.task_id.last() != '\r'
    &&& e.config.source_root.len() > 0 ==> e.config.source_root.last() != '\r'
    &&& e.config.target_root.len() > 0 ==> e.config.target_root.last() != '\r'
    &&& forall|i: int|
        0 <= i < e.checkpoint.files.len() ==> file_is_writable(#[trigger] e.checkpoint.files[i])
}

proof fn lemma_reveal_words()
    ensures
        text::lacks("pc_to_android"@, '\n') && "pc_to_android"@.last() != '\r'
            && "pc_to_android"@.len() == 13,
        text::lacks("android_to_pc"@, '\n') && "android_to_pc"@.last() != '\r'
            && "android_to_pc"@.len() == 13,
        "pc_to_android"@ != "android_to_pc"@,
        text::lacks("adb_only"@, '\n') && "adb_only"@.last() != '\r' && "adb_only"@.len() == 8,
        text::lacks("wifi_only"@, '\n') && "wifi_only"@.last() != '\r' && "wifi_only"@.len() == 9,
        text::lacks("dual"@, '\n') && "dual"@.last() != '\r' && "dual"@.len() == 4,
        text::lacks("true"@, '\n') && "true"@.last() != '\r' && "true"@.len() == 4,
        text::lacks("false"@, '\n') && "false"@.last() != '\r' && "false"@.len() == 5,
{
    reveal_strlit("pc_to_android");
    reveal_strlit("android_to_pc");
    reveal_strlit("adb_only");
    reveal_strlit("wifi_only");
    reveal_strlit("dual");
    reveal_strlit("true");
    reveal_strlit("false");
    assert("pc_to_android"@[0] == 'p');
    assert("android_to_pc"@[0] == 'a');
}

proof fn lemma_state_word_reads_back(s: crate::models::TaskState)
    ensures
        checkpoint::read_state(checkpoint::state_word(s)) == Ok::<
            crate::models::TaskState,
            Seq<char>,
        >(s),
        text::lacks(checkpoint::state_word(s), '\n'),
        checkpoint::state_word(s).len() > 0,
        checkpoint::state_word(s).last() != '\r',
{
    reveal_strlit("pending");
    reveal_strlit("running");
    reveal_strlit("paused");
    reveal_strlit("completed");
    reveal_strlit("failed");
    reveal_strlit("cancelled");
    assert("pending"@[0] == 'p');
    assert("running"@[0] == 'r');
    assert("paused"@[0] == 'p');
    assert("failed"@[0] == 'f');
    assert("completed"@[1] == 'o');
    assert("cancelled"@[1] == 'a');
}

proof fn lemma_keys()
    ensures
        ({
            let k = keys();
            &&& k.len() == 12
            &&& forall|i: int| 0 <= i < k.len() ==> is_plain_key(#[trigger] k[i])
            &&& forall|i: int| 0 <= i < k.len() ==> text::lacks(#[trigger] k[i], '\n')
            &&& forall|a: int, b: int| 0 <= a < b < k.len() ==> #[trigger] k[a] != #[trigger] k[b]
        }),
{
    reveal_strlit("task_id");
    reveal_strlit("direction");
    reveal_strlit("transport_mode");
    reveal_strlit("verify_enabled");
    reveal_strlit("source_root");
    reveal_strlit("target_root");
    reveal_strlit("chunk_size_bytes");
    reveal_strlit("small_file_threshold_bytes");
    reveal_strlit("max_in_flight_chunks_per_lane");
    reveal_strlit("created_at_epoch_ms");
    reveal_strlit("state");
    reveal_strlit("updated_at_epoch_ms");
    let k = keys();
    assert(is_plain_key(k[0]) && is_plain_key(k[1]) && is_plain_key(k[2]) && is_plain_key(k[3]));
    assert(is_plain_key(k[4]) && is_plain_key(k[5]) && is_plain_key(k[6]) && is_plain_key(k[7]));
    assert(is_plain_key(k[8]) && is_plain_key(k[9]) && is_plain_key(k[10]) && is_plain_key(k[11]));
    assert(text::lacks(k[0], '\n') && text::lacks(k[1], '\n') && text::lacks(k[2], '\n'));
    assert(text::lacks(k[3], '\n') && text::lacks(k[4], '\n') && text::lacks(k[5], '\n'));
    assert(text::lacks(k[6], '\n') && text::lacks(k[7], '\n') && text::lacks(k[8], '\n'));
    assert(text::lacks(k[9], '\n') && text::lacks(k[10], '\n') && text::lacks(k[11], '\n'));
    assert(k[0].len() == 7 && k[1].len() == 9 && k[2].len() == 14 && k[3].len() == 14);
    assert(k[4].len() == 11 && k[5].len() == 11 && k[6].len() == 16 && k[7].len() == 26);
    assert(k[8].len() == 29 && k[9].len() == 19 && k[10].len() == 5 && k[11].len() == 19);
    assert(k[2][0] == 't');
    assert(k[3][0] == 'v');
    assert(k[4][0] == 's');
    assert(k[5][0] == 't');
    assert(k[9][0] == 'c');
    assert(k[11][0] == 'u');
}

spec fn keys() -> Seq<Seq<char>> {
    seq![
        "task_id"@,
        "direction"@,
        "transport_mode"@,
        "verify_enabled"@,
        "source_root"@,
        "target_root"@,
        "chunk_size_bytes"@,
        "small_file_threshold_bytes"@,
        "max_in_flight_chunks_per_lane"@,
        "created_at_epoch_ms"@,
        "state"@,
        "updated_at_epoch_ms"@,
    ]
}

spec fn ends_well(s: Seq<char>) -> bool {
    text::lacks(s, '\n') && (s.len() > 0 ==> s.last() != '\r')
}

proof fn lemma_header_is_clean(e: CheckpointEntryView)
    requires
        text::lacks(e.config.task_id, '\n'),
    ensures
        forall|i: int|
            0 <= i < 12 ==> text::lacks((#[trigger] checkpoint_text::header(e)[i]).1, '\n'),
        forall|i: int|
            0 <= i < 12 && i != 0 && i != 4 && i != 5 ==> ends_well(
                (#[trigger] checkpoint_text::header(e)[i]).1,
            ),
{
    let h = checkpoint_text::header(e);
    lemma_reveal_words();
    lemma_state_word_reads_back(e.checkpoint.state);
    lemma_escape_is_clean(e.config.source_root);
    lemma_escape_is_clean(e.config.target_root);
    lemma_number_ends_well(e.config.chunk_size_bytes as nat);
    lemma_number_ends_well(e.config.small_file_threshold_bytes as nat);
    lemma_number_ends_well(e.config.max_in_flight_chunks_per_lane as nat);
    lemma_number_ends_well(e.config.created_at_epoch_ms as nat);
    lemma_number_ends_well(e.checkpoint.updated_at_epoch_ms as nat);
    assert(ends_well(h[1].1));
    assert(ends_well(h[2].1));
    assert(ends_well(h[3].1));
    assert(text::lacks(h[4].1, '\n'));
    assert(text::lacks(h[5].1, '\n'));
}

proof fn lemma_number_ends_well(n: nat)
    ensures
        ends_well(decimal::dec(n)),
{
    lemma_digits_lack(n, '\n');
    lemma_digits_lack(n, '\r');
    assert(decimal::dec(n).last() == decimal::dec(n)[decimal::dec(n).len() - 1]);
}

/// The settings' lines as they are read back.
spec fn header_as_read(e: CheckpointEntryView) -> Seq<(Seq<char>, Seq<char>)> {
    checkpoint_text::header(e).map_values(
        |p: (Seq<char>, Seq<char>)| (p.0, text::strip_cr(p.1)),
    )
}

proof fn lemma_lines_read(e: CheckpointEntryView)
    requires
        text::lacks(e.config.task_id, '\n'),
    ensures
        text::lines(checkpoint_text::entry_text(e)) == header_as_read(e).map_values(
            |p: (Seq<char>, Seq<char>)| checkpoint_text::field_line(p),
        ) + e.checkpoint.files.map_values(
            |f: FileCheckpointView| checkpoint_text::file_line(f),
        ),
{
    let h = checkpoint_text::header(e);
    let files = e.checkpoint.files;
    let lines = checkpoint_text::entry_lines(e);
    let read = header_as_read(e).map_values(
        |p: (Seq<char>, Seq<char>)| checkpoint_text::field_line(p),
    ) + files.map_values(|f: FileCheckpointView| checkpoint_text::file_line(f));
    lemma_keys();
    lemma_header_is_clean(e);
    assert forall|i: int| 0 <= i < 12 implies (#[trigger] h[i]).0 == keys()[i] by {}
    reveal_strlit("\n");
    assert("\n"@ =~= seq!['\n']);
    reveal_strlit("=");
    assert forall|i: int| 0 <= i < lines.len() implies text::lacks(#[trigger] lines[i], '\n')
        && lines[i].len() > 0 && text::strip_cr(lines[i]) == read[i] by {
        if i < 12 {
            let (key, value) = h[i];
            assert(text::lacks(h[i].1, '\n'));
            assert(text::lacks(keys()[i], '\n'));
            text::lemma_lacks_concat(key, "="@, '\n');
            text::lemma_lacks_concat(key + "="@, value, '\n');
            assert(lines[i] == key + "="@ + value);
            assert(read[i] == key + "="@ + text::strip_cr(value));
            if value.len() > 0 {
                assert(lines[i].last() == value.last());
                if value.last() == '\r' {
                    assert(lines[i].drop_last() =~= key + "="@ + value.drop_last());
                }
            } else {
                assert(lines[i].last() == '=');
            }
        } else {
            let f = files[i - 12];
            lemma_file_line_reads_back(f);
            assert(lines[i] == checkpoint_text::file_line(f));
        }
    }
    let n = lines.len() - 1;
    assert(text::strip_cr(lines[n]) == lines[n]) by {
        if n < 12 {
            assert(ends_well(h[n].1));
            assert(lines[n] == h[n].0 + "="@ + h[n].1);
            if h[n].1.len() > 0 {
                assert(lines[n].last() == h[n].1.last());
            } else {
                assert(lines[n].last() == '=');
            }
        } else {
            lemma_file_line_reads_back(files[n - 12]);
        }
    }
    text::lemma_lines_join(lines);
    assert(lines.drop_last().map_values(|l: Seq<char>| text::strip_cr(l)).push(lines.last())
        =~= read);
}

/// Reading the text form of an entry gives the entry, but for carriage returns that end a line and
/// digests that are the empty text, if the task's id is one line.
pub proof fn lemma_entry_is_read(e: CheckpointEntryView)
    requires
        text::lacks(e.config.task_id, '\n'),
    ensures
        checkpoint_text::read_entry(checkpoint_text::entry_text(e)) == Ok::<
            CheckpointEntryView,
            Seq<char>,
        >(entry_as_read(e)),
{
    let h = header_as_read(e);
    let head = h.map_values(|p: (Seq<char>, Seq<char>)| checkpoint_text::field_line(p));
    lemma_keys();
    lemma_lines_read(e);
    assert forall|i: int| 0 <= i < 12 implies (#[trigger] h[i]).0 == keys()[i] by {
        assert(checkpoint_text::header(e)[i].0 == keys()[i]);
    }
    assert forall|i: int| 0 <= i < h.len() implies is_plain_key((#[trigger] h[i]).0) by {
        assert(is_plain_key(keys()[i]));
    }
    assert forall|a: int, b: int| 0 <= a < b < h.len() implies (#[trigger] h[a]).0 != (
    #[trigger] h[b]).0 by {
        assert(keys()[a] != keys()[b]);
    }
    lemma_read_fields(h);
    lemma_read_files(head, pairs_map(h), e.checkpoint.files);
    let m = pairs_map(h);
    assert forall|i: int| 0 <= i < 12 implies m.contains_key(
        (#[trigger] checkpoint_text::header(e)[i]).0,
    ) && m[checkpoint_text::header(e)[i].0] == text::strip_cr(checkpoint_text::header(e)[i].1) by {
        lemma_pairs_get(h, i);
        assert(h[i].0 == checkpoint_text::header(e)[i].0);
    }
    lemma_settings_read_back(e, m);
}

/// Reading the text form of an entry gives the entry.
pub proof fn lemma_entry_reads_back(e: CheckpointEntryView)
    requires
        entry_is_writable(e),
    ensures
        checkpoint_text::read_entry(checkpoint_text::entry_text(e)) == Ok::<
            CheckpointEntryView,
            Seq<char>,
        >(e),
{
    lemma_entry_is_read(e);
    let files = e.checkpoint.files;
    assert forall|i: int| 0 <= i < files.len() implies file_as_read(#[trigger] files[i])
        == files[i] by {
        assert(file_is_writable(files[i]));
        lemma_digest_as_it_was(files[i].fingerprint_hex);
        lemma_digest_as_it_was(files[i].verification_digest);
    }
    assert(files_as_read(files) =~= files);
}

proof fn lemma_settings_read_back(e: CheckpointEntryView, m: Map<Seq<char>, Seq<char>>)
    requires
        text::lacks(e.config.task_id, '\n'),
        ({
            let h = checkpoint_text::header(e);
            forall|i: int|
                0 <= i < 12 ==> m.contains_key((#[trigger] h[i]).0) && m[h[i].0]
                    == text::strip_cr(h[i].1)
        }),
    ensures
        checkpoint_text::read_config(m) == Ok::<TaskConfigView, Seq<char>>(
            config_as_read(e.config),
        ),
        checkpoint_text::required(m, "state"@) == Ok::<Seq<char>, Seq<char>>(
            checkpoint::state_word(e.checkpoint.state),
        ),
        checkpoint::read_state(checkpoint::state_word(e.checkpoint.state)) == Ok::<
            crate::models::TaskState,
            Seq<char>,
        >(e.checkpoint.state),
        checkpoint_text::required_number(m, "updated_at_epoch_ms"@, u128::MAX as nat) == Ok::<
            nat,
            Seq<char>,
        >(e.checkpoint.updated_at_epoch_ms as nat),
{
    let h = checkpoint_text::header(e);
    lemma_header_is_clean(e);
    lemma_reveal_words();
    lemma_state_word_reads_back(e.checkpoint.state);
    lemma_escaped_line_back(e.config.source_root);
    lemma_escaped_line_back(e.config.target_root);
    decimal::lemma_parse_dec(e.config.chunk_size_bytes as nat, u64::MAX as nat);
    decimal::lemma_parse_dec(e.config.small_file_threshold_bytes as nat, u64::MAX as nat);
    decimal::lemma_parse_dec(e.config.max_in_flight_chunks_per_lane as nat, usize::MAX as nat);
    decimal::lemma_parse_dec(e.config.created_at_epoch_ms as nat, u128::MAX as nat);
    decimal::lemma_parse_dec(e.checkpoint.updated_at_epoch_ms as nat, u128::MAX as nat);
    assert(m[h[0].0] == text::strip_cr(h[0].1));
    assert(m[h[1].0] == h[1].1);
    assert(m[h[2].0] == h[2].1);
    assert(m[h[3].0] == h[3].1);
    assert(m[h[4].0] == text::strip_cr(h[4].1));
    assert(m[h[5].0] == text::strip_cr(h[5].1));
    assert(m[h[6].0] == h[6].1);
    assert(m[h[7].0] == h[7].1);
    assert(m[h[8].0] == h[8].1);
    assert(m[h[9].0] == h[9].1);
    assert(m[h[10].0] == h[10].1);
    assert(m[h[11].0] == h[11].1);
}

} // verus!
