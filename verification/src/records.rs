//! Tasks as they are drafted and kept: what a draft must have, what a task starts with, and how it
//! is started.

use crate::adb_command;
use crate::cards;
use crate::cards::AdbTransferCard;
use crate::checkpoint;
use crate::decimal;
use crate::labels;
use crate::manifest;
use crate::manifest::LocalTransferFile;
use crate::models;
use crate::models::{Direction, TaskConfig, TaskConfigView, TransportMode};
use crate::order;
use crate::paths;
use crate::sizing;
use crate::text;
use vstd::prelude::*;

verus! {

/// A task as it is drafted.
#[derive(Debug, PartialEq, Eq)]
pub struct TaskCreateDraft {
    pub source_path: String,
    pub target_root: String,
    pub direction: String,
    pub transport_mode: String,
    pub verify_enabled: bool,
    pub source_size_bytes: Option<u64>,
    pub chunk_size_bytes: Option<u64>,
    pub max_in_flight_chunks_per_lane: Option<usize>,
    pub device_serial: Option<String>,
    pub agent_host: Option<String>,
    pub target_path_policy: Option<String>,
}

pub struct DraftView {
    pub source_path: Seq<char>,
    pub target_root: Seq<char>,
    pub direction: Seq<char>,
    pub transport_mode: Seq<char>,
    pub verify_enabled: bool,
    pub source_size_bytes: Option<u64>,
    pub chunk_size_bytes: Option<u64>,
    pub max_in_flight_chunks_per_lane: Option<usize>,
    pub device_serial: Option<Seq<char>>,
    pub agent_host: Option<Seq<char>>,
    pub target_path_policy: Option<Seq<char>>,
}

impl View for TaskCreateDraft {
    type V = DraftView;

    open spec fn view(&self) -> DraftView {
        DraftView {
            source_path: self.source_path@,
            target_root: self.target_root@,
            direction: self.direction@,
            transport_mode: self.transport_mode@,
            verify_enabled: self.verify_enabled,
            source_size_bytes: self.source_size_bytes,
            chunk_size_bytes: self.chunk_size_bytes,
            max_in_flight_chunks_per_lane: self.max_in_flight_chunks_per_lane,
            device_serial: text::opt_view(self.device_serial),
            agent_host: text::opt_view(self.agent_host),
            target_path_policy: text::opt_view(self.target_path_policy),
        }
    }
}

/// A task as it is kept.
#[derive(Debug, Clone, PartialEq, Eq)]
pub struct TaskFileRecord {
    pub task_id: String,
    pub source_path: String,
    pub target_root: String,
    pub direction: String,
    pub transport_mode: String,
    pub verify_enabled: bool,
    pub source_size_bytes: Option<u64>,
    pub chunk_size_bytes: Option<u64>,
    pub max_in_flight_chunks_per_lane: Option<usize>,
    pub device_serial: Option<String>,
    pub agent_host: Option<String>,
    pub target_path_policy: Option<String>,
    pub created_at_epoch_ms: u128,
}

pub struct RecordView {
    pub task_id: Seq<char>,
    pub draft: DraftView,
    pub created_at_epoch_ms: u128,
}

impl View for TaskFileRecord {
    type V = RecordView;

    open spec fn view(&self) -> RecordView {
        RecordView {
            task_id: self.task_id@,
            draft: DraftView {
                source_path: self.source_path@,
                target_root: self.target_root@,
                direction: self.direction@,
                transport_mode: self.transport_mode@,
                verify_enabled: self.verify_enabled,
                source_size_bytes: self.source_size_bytes,
                chunk_size_bytes: self.chunk_size_bytes,
                max_in_flight_chunks_per_lane: self.max_in_flight_chunks_per_lane,
                device_serial: text::opt_view(self.device_serial),
                agent_host: text::opt_view(self.agent_host),
                target_path_policy: text::opt_view(self.target_path_policy),
            },
            created_at_epoch_ms: self.created_at_epoch_ms,
        }
    }
}

/// A text that is more than white space, if there is one.
pub open spec fn filled(s: Option<Seq<char>>) -> Option<Seq<char>> {
    match s {
        Some(t) => if text::trim(t).len() > 0 {
            Some(t)
        } else {
            None
        },
        None => None,
    }
}

/// A text that is more than white space, if there is one.
pub fn keep_filled(s: &Option<String>) -> (r: Option<String>)
    ensures
        text::opt_view(r) == filled(text::opt_view(*s)),
{
    match s {
        Some(t) => if text::trimmed(t.as_str()).as_str().is_empty() {
            None
        } else {
            Some(t.clone())
        },
        None => None,
    }
}

impl TaskFileRecord {
    /// A drafted task as it is kept: blank serials and hosts are left out.
    pub fn from_draft(draft: &TaskCreateDraft, task_id: &str, now: u128) -> (r: Self)
        ensures
            r@ == (RecordView {
                task_id: task_id@,
                draft: DraftView {
                    device_serial: filled(draft@.device_serial),
                    agent_host: filled(draft@.agent_host),
                    ..draft@
                },
                created_at_epoch_ms: now,
            }),
    {
        TaskFileRecord {
            task_id: task_id.to_string(),
            source_path: draft.source_path.clone(),
            target_root: draft.target_root.clone(),
            direction: draft.direction.clone(),
            transport_mode: draft.transport_mode.clone(),
            verify_enabled: draft.verify_enabled,
            source_size_bytes: draft.source_size_bytes,
            chunk_size_bytes: draft.chunk_size_bytes,
            max_in_flight_chunks_per_lane: draft.max_in_flight_chunks_per_lane,
            device_serial: keep_filled(&draft.device_serial),
            agent_host: keep_filled(&draft.agent_host),
            target_path_policy: text::copy_opt(&draft.target_path_policy),
            created_at_epoch_ms: now,
        }
    }

    /// The name of the file that a task is kept in.
    pub fn file_name(task_id: &str) -> (r: String)
        ensures
            r@ == task_id@ + ".json"@,
    {
        checkpoint::about(task_id, ".json")
    }

    /// The record of the push of a directory of documents over ADB.
    pub fn docs_push(serial: &str, docs_path: &str, now: u128) -> (r: Self)
        ensures
            r@ == (RecordView {
                task_id: "adb-docs-"@ + paths::id_text(serial@),
                draft: DraftView {
                    source_path: docs_path@,
                    target_root: "/sdcard/NekotransDocs"@,
                    direction: "PC -> Android"@,
                    transport_mode: "ADB-only"@,
                    verify_enabled: false,
                    source_size_bytes: None,
                    chunk_size_bytes: Some(8388608),
                    max_in_flight_chunks_per_lane: Some(4),
                    device_serial: Some(serial@),
                    agent_host: None,
                    target_path_policy: Some("preserve_relative"@),
                },
                created_at_epoch_ms: now,
            }),
    {
        TaskFileRecord {
            task_id: checkpoint::about("adb-docs-", paths::sanitize_task_id(serial).as_str()),
            source_path: docs_path.to_string(),
            target_root: "/sdcard/NekotransDocs".to_string(),
            direction: "PC -> Android".to_string(),
            transport_mode: "ADB-only".to_string(),
            verify_enabled: false,
            source_size_bytes: None,
            chunk_size_bytes: Some(8 * 1024 * 1024),
            max_in_flight_chunks_per_lane: Some(4),
            device_serial: Some(serial.to_string()),
            agent_host: None,
            target_path_policy: Some("preserve_relative".to_string()),
            created_at_epoch_ms: now,
        }
    }

    /// The chunk length that a task asks for.
    pub fn requested_chunk_size(&self) -> (r: u64)
        ensures
            r == requested(self@),
    {
        match self.chunk_size_bytes {
            Some(n) => n,
            None => 8 * 1024 * 1024,
        }
    }
}

/// The chunk length that a task asks for: 8 MiB where it does not say.
pub open spec fn requested(r: RecordView) -> u64 {
    match r.draft.chunk_size_bytes {
        Some(n) => n,
        None => 8388608,
    }
}

/// What stands before the extension of a file that a task is kept in.
pub open spec fn record_id(name: Seq<char>) -> Option<Seq<char>> {
    if text::ends_with(name, ".json"@) && name.len() > ".json"@.len() {
        Some(name.take(name.len() - ".json"@.len()))
    } else {
        None
    }
}

/// Whether texts stand in order, each once.
pub open spec fn text_ascending(s: Seq<Seq<char>>) -> bool {
    forall|i: int, j: int|
        0 <= i < j < s.len() ==> order::text_lt(#[trigger] s[i], #[trigger] s[j])
}

/// Whether `out` lists the texts in order, each once.
pub open spec fn lists_texts(out: Seq<Seq<char>>, texts: Seq<Seq<char>>) -> bool {
    &&& text_ascending(out)
    &&& forall|t: Seq<char>| #[trigger] out.contains(t) <==> texts.contains(t)
}

/// The texts in order, each once.
pub fn sorted_texts(texts: &Vec<String>) -> (r: Vec<String>)
    ensures
        lists_texts(text::views(r@), text::views(texts@)),
{
    let ghost all = text::views(texts@);
    let mut out: Vec<String> = Vec::new();
    let mut i: usize = 0;
    assert(text::views(out@) =~= Seq::empty());
    assert(all.take(0) =~= Seq::empty());
    while i < texts.len()
        invariant
            i <= texts.len(),
            all == text::views(texts@),
            lists_texts(text::views(out@), all.take(i as int)),
        decreases texts.len() - i,
    {
        let ghost before = text::views(out@);
        let ghost seen = all.take(i as int);
        let x = texts[i].clone();
        assert(x@ == all[i as int]);
        let mut at: usize = out.len();
        while at > 0 && order::text_less(x.as_str(), out[at - 1].as_str())
            invariant
                at <= out.len(),
                before == text::views(out@),
                forall|j: int| at <= j < out.len() ==> order::text_lt(x@, #[trigger] before[j]),
            decreases at,
        {
            assert(before[at - 1] == out@[at - 1]@);
            at -= 1;
        }
        let present = at > 0 && text::str_eq(x.as_str(), out[at - 1].as_str());
        if at > 0 {
            assert(before[at - 1] == out@[at - 1]@);
        }
        if !present {
            out.insert(at, x);
            assert(text::views(out@) =~= before.insert(at as int, x@));
            proof {
                lemma_text_inserted(before, x@, at as int);
            }
        } else {
            assert(before.contains(x@));
        }
        proof {
            lemma_seen(all, i as int);
        }
        i += 1;
    }
    assert(all.take(all.len() as int) =~= all);
    out
}

proof fn lemma_seen(all: Seq<Seq<char>>, i: int)
    requires
        0 <= i < all.len(),
    ensures
        forall|t: Seq<char>| #[trigger]
            all.take(i + 1).contains(t) <==> all.take(i).contains(t) || t == all[i],
{
    let seen = all.take(i);
    let next = all.take(i + 1);
    assert forall|t: Seq<char>| #[trigger] next.contains(t) <==> seen.contains(t) || t == all[i] by {
        if seen.contains(t) {
            let j = choose|j: int| 0 <= j < seen.len() && seen[j] == t;
            assert(next[j] == t);
        }
        if t == all[i] {
            assert(next[i] == t);
        }
        if next.contains(t) {
            let j = choose|j: int| 0 <= j < next.len() && next[j] == t;
            if j < i {
                assert(seen[j] == t);
            }
        }
    }
}

proof fn lemma_text_inserted(before: Seq<Seq<char>>, x: Seq<char>, at: int)
    requires
        text_ascending(before),
        0 <= at <= before.len(),
        forall|j: int| at <= j < before.len() ==> order::text_lt(x, #[trigger] before[j]),
        at > 0 ==> !order::text_lt(x, before[at - 1]) && before[at - 1] != x,
    ensures
        text_ascending(before.insert(at, x)),
        forall|t: Seq<char>| #[trigger]
            before.insert(at, x).contains(t) <==> before.contains(t) || t == x,
{
    let after = before.insert(at, x);
    if at > 0 {
        order::lemma_text_lt_total(x, before[at - 1]);
    }
    assert forall|a: int, b: int| 0 <= a < b < after.len() implies order::text_lt(
        #[trigger] after[a],
        #[trigger] after[b],
    ) by {
        let pa = if a < at { a } else { a - 1 };
        let pb = if b < at { b } else { b - 1 };
        if a == at {
            assert(order::text_lt(x, before[pb]));
        } else if b == at {
            if a < at - 1 {
                assert(order::text_lt(before[a], before[at - 1]));
                order::lemma_text_lt_transitive(before[a], before[at - 1], x);
            }
        } else {
            assert(order::text_lt(before[pa], before[pb]));
        }
    }
    assert forall|t: Seq<char>| #[trigger] after.contains(t) <==> before.contains(t) || t == x by {
        if before.contains(t) {
            let j = choose|j: int| 0 <= j < before.len() && before[j] == t;
            if j < at {
                assert(after[j] == t);
            } else {
                assert(after[j + 1] == t);
            }
        }
        if t == x {
            assert(after[at] == t);
        }
        if after.contains(t) && t != x {
            let j = choose|j: int| 0 <= j < after.len() && after[j] == t;
            if j < at {
                assert(before[j] == t);
            } else {
                assert(before[j - 1] == t);
            }
        }
    }
}

/// The tasks that file names name, in the order of the names.
pub open spec fn named_tasks(names: Seq<Seq<char>>) -> Seq<Seq<char>>
    decreases names.len(),
{
    if names.len() == 0 {
        Seq::empty()
    } else {
        match record_id(names.last()) {
            Some(id) => named_tasks(names.drop_last()).push(id),
            None => named_tasks(names.drop_last()),
        }
    }
}

fn record_id_of(name: &str) -> (r: Option<String>)
    ensures
        text::opt_view(r) == record_id(name@),
{
    proof {
        reveal_strlit(".json");
    }
    let chars = text::chars_of(name);
    if !text::has_suffix(name, ".json") || chars.len() <= 5 {
        return None;
    }
    let id = text::text_of(&chars, 0, chars.len() - 5);
    assert(id@ =~= name@.take(name@.len() - 5));
    Some(id)
}

/// The tasks that are kept, by the names of the files, in order.
pub fn list_ids(names: &Vec<String>) -> (r: Vec<String>)
    ensures
        lists_texts(text::views(r@), named_tasks(text::views(names@))),
{
    let ghost all = text::views(names@);
    let mut ids: Vec<String> = Vec::new();
    let mut i: usize = 0;
    assert(text::views(ids@) =~= named_tasks(all.take(0)));
    while i < names.len()
        invariant
            i <= names.len(),
            all == text::views(names@),
            text::views(ids@) == named_tasks(all.take(i as int)),
        decreases names.len() - i,
    {
        assert(all.take(i + 1).drop_last() =~= all.take(i as int));
        assert(all[i as int] == names@[i as int]@);
        let ghost before = text::views(ids@);
        match record_id_of(names[i].as_str()) {
            Some(id) => {
                ids.push(id);
                assert(text::views(ids@) == before.push(id@));
            },
            None => {},
        }
        i += 1;
    }
    assert(all.take(all.len() as int) =~= all);
    sorted_texts(&ids)
}

/// The tasks that can be recovered: those with a checkpoint and those that are kept, in order and
/// each once.
pub fn recoverable_task_ids(checkpoints: &Vec<String>, kept: &Vec<String>) -> (r: Vec<String>)
    ensures
        lists_texts(text::views(r@), text::views(checkpoints@) + text::views(kept@)),
{
    let mut all: Vec<String> = Vec::new();
    let mut i: usize = 0;
    while i < checkpoints.len()
        invariant
            i <= checkpoints.len(),
            all@.len() == i,
            forall|k: int| 0 <= k < i ==> (#[trigger] all@[k])@ == checkpoints@[k]@,
        decreases checkpoints.len() - i,
    {
        all.push(checkpoints[i].clone());
        i += 1;
    }
    let n: usize = checkpoints.len();
    i = 0;
    while i < kept.len()
        invariant
            i <= kept.len(),
            n == checkpoints@.len(),
            all@.len() == n + i,
            forall|k: int| 0 <= k < n ==> (#[trigger] all@[k])@ == checkpoints@[k]@,
            forall|k: int| n <= k < n + i ==> (#[trigger] all@[k])@ == kept@[k - n]@,
        decreases kept.len() - i,
    {
        all.push(kept[i].clone());
        i += 1;
    }
    assert(text::views(all@) =~= text::views(checkpoints@) + text::views(kept@));
    sorted_texts(&all)
}

/// The kept tasks that are not under way, in their order.
pub open spec fn missing(kept: Seq<Seq<char>>, present: Seq<Seq<char>>) -> Seq<Seq<char>>
    decreases kept.len(),
{
    if kept.len() == 0 {
        Seq::empty()
    } else if present.contains(kept.last()) {
        missing(kept.drop_last(), present)
    } else {
        missing(kept.drop_last(), present).push(kept.last())
    }
}

/// The kept tasks that are to be recovered: those that are not under way.
pub fn recover_persisted_task_records(kept: &Vec<String>, present: &Vec<String>) -> (r: Vec<String>)
    ensures
        text::views(r@) == missing(text::views(kept@), text::views(present@)),
{
    let ghost all = text::views(kept@);
    let mut out: Vec<String> = Vec::new();
    let mut i: usize = 0;
    assert(text::views(out@) =~= missing(all.take(0), text::views(present@)));
    while i < kept.len()
        invariant
            i <= kept.len(),
            all == text::views(kept@),
            text::views(out@) == missing(all.take(i as int), text::views(present@)),
        decreases kept.len() - i,
    {
        assert(all.take(i + 1).drop_last() =~= all.take(i as int));
        assert(all[i as int] == kept@[i as int]@);
        if !holds_text(present, kept[i].as_str()) {
            let ghost before = text::views(out@);
            let id = kept[i].clone();
            out.push(id);
            assert(text::views(out@) == before.push(id@));
        }
        i += 1;
    }
    assert(all.take(all.len() as int) =~= all);
    out
}

/// Whether a text stands in a list.
pub fn holds_text(texts: &Vec<String>, t: &str) -> (r: bool)
    ensures
        r == text::views(texts@).contains(t@),
{
    let ghost all = text::views(texts@);
    let mut i: usize = 0;
    while i < texts.len()
        invariant
            i <= texts.len(),
            all == text::views(texts@),
            forall|k: int| 0 <= k < i ==> #[trigger] all[k] != t@,
        decreases texts.len() - i,
    {
        assert(all[i as int] == texts@[i as int]@);
        if text::str_eq(texts[i].as_str(), t) {
            return true;
        }
        i += 1;
    }
    assert(!all.contains(t@));
    false
}

/// What is wrong with a draft, if something is.
pub open spec fn draft_problem(d: DraftView, direction: Direction, mode: TransportMode) -> Option<
    Seq<char>,
> {
    let has_serial = filled(d.device_serial) is Some;
    let has_host = filled(d.agent_host) is Some;
    if mode == TransportMode::AdbOnly && !has_serial {
        Some("ADB-only tasks require an ADB serial"@)
    } else if mode == TransportMode::WifiOnly && !has_host {
        Some("Wi-Fi-only tasks require an agent host"@)
    } else if mode == TransportMode::Dual && !has_serial && !has_host {
        Some(
            "Dual Track tasks currently require at least one usable lane: ADB serial or agent host"@,
        )
    } else if direction == Direction::AndroidToPc && text::trim(d.target_root).len() == 0 {
        Some("Android -> PC tasks require a local target folder"@)
    } else if direction == Direction::PcToAndroid && d.target_root.contains('\\') {
        Some("PC -> Android target root should be an Android-style path like /sdcard/Nekotrans"@)
    } else {
        None
    }
}

/// The view of a complaint, if there is one.
pub open spec fn problem_view(r: Result<(), String>) -> Option<Seq<char>> {
    match r {
        Ok(_) => None,
        Err(m) => Some(m@),
    }
}

/// Whether a draft has what its direction and transport need.
pub fn validate_task_draft_inputs(
    draft: &TaskCreateDraft,
    direction: Direction,
    transport_mode: TransportMode,
) -> (r: Result<(), String>)
    ensures
        problem_view(r) == draft_problem(draft@, direction, transport_mode),
{
    let has_serial = keep_filled(&draft.device_serial).is_some();
    let has_host = keep_filled(&draft.agent_host).is_some();
    match transport_mode {
        TransportMode::AdbOnly => {
            if !has_serial {
                return Err("ADB-only tasks require an ADB serial".to_string());
            }
        },
        TransportMode::WifiOnly => {
            if !has_host {
                return Err("Wi-Fi-only tasks require an agent host".to_string());
            }
        },
        TransportMode::Dual => {
            if !has_serial && !has_host {
                return Err(
                    "Dual Track tasks currently require at least one usable lane: ADB serial or agent host".to_string(),
                );
            }
        },
    }
    match direction {
        Direction::AndroidToPc => {
            if text::trimmed(draft.target_root.as_str()).as_str().is_empty() {
                return Err("Android -> PC tasks require a local target folder".to_string());
            }
        },
        Direction::PcToAndroid => {
            if text::has_char(draft.target_root.as_str(), '\\') {
                return Err(
                    "PC -> Android target root should be an Android-style path like /sdcard/Nekotrans".to_string(),
                );
            }
        },
    }
    Ok(())
}

/// What stands at the source path of a draft.
#[derive(Debug)]
pub struct SourceFacts {
    pub exists: bool,
    pub is_file: bool,
    /// The path without its last name, where it has one.
    pub parent: Option<String>,
    /// The last name of the path, where it has one.
    pub file_name: Option<String>,
}

pub struct SourceFactsView {
    pub exists: bool,
    pub is_file: bool,
    pub parent: Option<Seq<char>>,
    pub file_name: Option<Seq<char>>,
}

impl View for SourceFacts {
    type V = SourceFactsView;

    open spec fn view(&self) -> SourceFactsView {
        SourceFactsView {
            exists: self.exists,
            is_file: self.is_file,
            parent: text::opt_view(self.parent),
            file_name: text::opt_view(self.file_name),
        }
    }
}

/// A task that is about to be made of a draft.
#[derive(Debug)]
pub struct DraftPlan {
    pub source_path: String,
    pub selected: String,
    pub config: TaskConfig,
}

pub struct DraftPlanView {
    pub source_path: Seq<char>,
    /// What of the source root is sent.
    pub selected: Seq<char>,
    pub config: TaskConfigView,
}

impl View for DraftPlan {
    type V = DraftPlanView;

    open spec fn view(&self) -> DraftPlanView {
        DraftPlanView {
            source_path: self.source_path@,
            selected: self.selected@,
            config: self.config@,
        }
    }
}

/// The root of a draft's source and what of it is sent.
pub open spec fn source_of(path: Seq<char>, direction: Direction, facts: SourceFactsView) -> Result<
    (Seq<char>, Seq<char>),
    Seq<char>,
> {
    if direction == Direction::AndroidToPc {
        Ok(("."@, "."@))
    } else if facts.is_file {
        match (facts.parent, facts.file_name) {
            (None, _) => Err("source file has no parent: "@ + path),
            (_, None) => Err("source file has no name: "@ + path),
            (Some(p), Some(n)) => Ok((p, n)),
        }
    } else {
        Ok((path, "."@))
    }
}

/// A positive number, or another.
pub open spec fn positive_or(n: Option<u64>, other: u64) -> u64 {
    match n {
        Some(v) => if v > 0 {
            v
        } else {
            other
        },
        None => other,
    }
}

/// The settings of a drafted task.
pub open spec fn draft_config(
    d: DraftView,
    direction: Direction,
    mode: TransportMode,
    source_root: Seq<char>,
    facts: SourceFactsView,
    now: u128,
) -> TaskConfigView {
    let fresh = models::fresh_config(
        "draft-"@ + paths::id_text(text::or_else(facts.file_name, "task"@)) + "-"@ + decimal::dec(
            now as nat,
        ),
        direction,
        mode,
        d.verify_enabled,
        source_root,
        text::trim(d.target_root),
        now,
    );
    TaskConfigView {
        chunk_size_bytes: positive_or(d.chunk_size_bytes, fresh.chunk_size_bytes),
        max_in_flight_chunks_per_lane: match d.max_in_flight_chunks_per_lane {
            Some(v) => if v > 0 {
                v
            } else {
                fresh.max_in_flight_chunks_per_lane
            },
            None => fresh.max_in_flight_chunks_per_lane,
        },
        ..fresh
    }
}

/// The task that is made of a draft, or what is wrong with the draft: its source, its direction,
/// whether the source is there, its target, its transport and what they need, in this order.
pub open spec fn drafted(d: DraftView, facts: SourceFactsView, now: u128) -> Result<
    DraftPlanView,
    Seq<char>,
> {
    let path = text::trim(d.source_path);
    if path.len() == 0 {
        Err("source path is required"@)
    } else {
        match labels::direction_of(d.direction) {
            Err(m) => Err(m),
            Ok(direction) => if direction == Direction::PcToAndroid && !facts.exists {
                Err("source path does not exist: "@ + path)
            } else if text::trim(d.target_root).len() == 0 {
                Err("target root is required"@)
            } else {
                match labels::transport_of(d.transport_mode) {
                    Err(m) => Err(m),
                    Ok(mode) => match draft_problem(d, direction, mode) {
                        Some(m) => Err(m),
                        None => match source_of(path, direction, facts) {
                            Err(m) => Err(m),
                            Ok((root, selected)) => Ok(
                                DraftPlanView {
                                    source_path: path,
                                    selected,
                                    config: draft_config(d, direction, mode, root, facts, now),
                                },
                            ),
                        },
                    },
                }
            },
        }
    }
}

/// The view of a plan or a complaint.
pub open spec fn plan_view(r: Result<DraftPlan, String>) -> Result<DraftPlanView, Seq<char>> {
    match r {
        Ok(p) => Ok(p@),
        Err(m) => Err(m@),
    }
}

/// The task that is made of a draft at `now`.
pub fn create_transfer_task(draft: &TaskCreateDraft, facts: &SourceFacts, now: u128) -> (r: Result<
    DraftPlan,
    String,
>)
    ensures
        plan_view(r) == drafted(draft@, facts@, now),
{
    let path = text::trimmed(draft.source_path.as_str());
    if path.as_str().is_empty() {
        return Err("source path is required".to_string());
    }
    let direction = match labels::parse_direction_label(draft.direction.as_str()) {
        Ok(d) => d,
        Err(m) => {
            return Err(m);
        },
    };
    if direction == Direction::PcToAndroid && !facts.exists {
        return Err(checkpoint::about("source path does not exist: ", path.as_str()));
    }
    let target_root = text::trimmed(draft.target_root.as_str());
    if target_root.as_str().is_empty() {
        return Err("target root is required".to_string());
    }
    let mode = match labels::parse_transport_label(draft.transport_mode.as_str()) {
        Ok(m) => m,
        Err(m) => {
            return Err(m);
        },
    };
    match validate_task_draft_inputs(draft, direction, mode) {
        Ok(_) => {},
        Err(m) => {
            return Err(m);
        },
    }
    let (root, selected) = if direction == Direction::AndroidToPc {
        (".".to_string(), ".".to_string())
    } else if facts.is_file {
        match (&facts.parent, &facts.file_name) {
            (None, _) => {
                return Err(checkpoint::about("source file has no parent: ", path.as_str()));
            },
            (_, None) => {
                return Err(checkpoint::about("source file has no name: ", path.as_str()));
            },
            (Some(p), Some(n)) => (p.clone(), n.clone()),
        }
    } else {
        (path.clone(), ".".to_string())
    };
    let name = text::or_other(text::borrow_opt(&facts.file_name), "task");
    let mut task_id = "draft-".to_string();
    task_id.append(paths::sanitize_task_id(name.as_str()).as_str());
    task_id.append("-");
    task_id.append(decimal::dec_text(now).as_str());
    let mut config = TaskConfig::new_at(
        now,
        task_id.as_str(),
        direction,
        mode,
        draft.verify_enabled,
        root.as_str(),
        target_root.as_str(),
    );
    match draft.chunk_size_bytes {
        Some(n) => {
            if n > 0 {
                config.chunk_size_bytes = n;
            }
        },
        None => {},
    }
    match draft.max_in_flight_chunks_per_lane {
        Some(n) => {
            if n > 0 {
                config.max_in_flight_chunks_per_lane = n;
            }
        },
        None => {},
    }
    Ok(DraftPlan { source_path: path, selected, config })
}

impl DraftPlan {
    /// Whether the files of the source decide on the chunk length: for tasks on both lanes.
    pub fn needs_manifest(&self) -> (r: bool)
        ensures
            r <==> self@.config.direction == Direction::PcToAndroid && self@.config.transport_mode
                == TransportMode::Dual,
    {
        self.config.direction == Direction::PcToAndroid && self.config.transport_mode
            == TransportMode::Dual
    }

    /// Takes the chunk length from the files of the source, where one of them is shared by both
    /// lanes.
    pub fn suit_files(&mut self, files: Vec<LocalTransferFile>)
        ensures
            ({
                let need = manifest::largest(
                    manifest::shared_sizes(
                        manifest::chosen(manifest::local_views(files@), true),
                        old(self)@.config.chunk_size_bytes,
                    ),
                );
                final(self)@ == (DraftPlanView {
                    config: TaskConfigView {
                        chunk_size_bytes: match need {
                            Some(n) => n as u64,
                            None => old(self)@.config.chunk_size_bytes,
                        },
                        ..old(self)@.config
                    },
                    ..old(self)@
                })
            }),
    {
        match manifest::same_file_dual_task_chunk_size(files, self.config.chunk_size_bytes) {
            Some(n) => {
                self.config.chunk_size_bytes = n;
            },
            None => {},
        }
    }
}

/// Where the size of a file on the device is taken from.
#[derive(Debug, PartialEq, Eq)]
pub enum RemoteSize {
    Known(u64),
    /// It is to be asked for over ADB.
    Ask(String),
}

/// Where the size of a drafted task's source is taken from: it is 0 for a local source, what the
/// draft says, what ADB says, or 0.
pub fn source_size_from(draft: &TaskCreateDraft, direction: Direction) -> (r: RemoteSize)
    ensures
        match r {
            RemoteSize::Known(n) => n == (if direction == Direction::AndroidToPc {
                match draft@.source_size_bytes {
                    Some(s) => s,
                    None => 0,
                }
            } else {
                0
            }) && (direction == Direction::AndroidToPc && draft@.source_size_bytes is None
                ==> filled(draft@.device_serial) is None),
            RemoteSize::Ask(serial) => direction == Direction::AndroidToPc
                && draft@.source_size_bytes is None && filled(draft@.device_serial) == Some(
                serial@,
            ),
        },
{
    match direction {
        Direction::PcToAndroid => RemoteSize::Known(0),
        Direction::AndroidToPc => match draft.source_size_bytes {
            Some(n) => RemoteSize::Known(n),
            None => match keep_filled(&draft.device_serial) {
                Some(serial) => RemoteSize::Ask(serial),
                None => RemoteSize::Known(0),
            },
        },
    }
}

/// How a task is carried out.
#[derive(Debug, Clone, Copy, PartialEq, Eq, Structural)]
pub enum Worker {
    AdbPush,
    WifiPush,
    DualPush,
    AdbPull,
    WifiPull,
}

/// How a task is carried out: over both lanes where both can be used, else over the one that can.
pub open spec fn worker_of(r: RecordView) -> Result<Worker, Seq<char>> {
    match labels::direction_of(r.draft.direction) {
        Err(m) => Err(m),
        Ok(direction) => match labels::transport_of(r.draft.transport_mode) {
            Err(m) => Err(m),
            Ok(mode) => Ok(
                match (direction, mode) {
                    (Direction::PcToAndroid, TransportMode::AdbOnly) => Worker::AdbPush,
                    (Direction::PcToAndroid, TransportMode::WifiOnly) => Worker::WifiPush,
                    (Direction::PcToAndroid, TransportMode::Dual) => if r.draft.device_serial
                        is Some && r.draft.agent_host is Some {
                        Worker::DualPush
                    } else if r.draft.device_serial is Some {
                        Worker::AdbPush
                    } else {
                        Worker::WifiPush
                    },
                    (Direction::AndroidToPc, TransportMode::AdbOnly) => Worker::AdbPull,
                    (Direction::AndroidToPc, TransportMode::WifiOnly) => Worker::WifiPull,
                    (Direction::AndroidToPc, TransportMode::Dual) => if r.draft.agent_host is Some {
                        Worker::WifiPull
                    } else {
                        Worker::AdbPull
                    },
                },
            ),
        },
    }
}

/// How a task is carried out.
pub fn start_transfer_task(record: &TaskFileRecord) -> (r: Result<Worker, String>)
    ensures
        match (r, worker_of(record@)) {
            (Ok(a), Ok(b)) => a == b,
            (Err(a), Err(b)) => a@ == b,
            _ => false,
        },
{
    let direction = match labels::parse_direction_label(record.direction.as_str()) {
        Ok(d) => d,
        Err(m) => {
            return Err(m);
        },
    };
    let mode = match labels::parse_transport_label(record.transport_mode.as_str()) {
        Ok(m) => m,
        Err(m) => {
            return Err(m);
        },
    };
    let serial = record.device_serial.is_some();
    let host = record.agent_host.is_some();
    Ok(
        match (direction, mode) {
            (Direction::PcToAndroid, TransportMode::AdbOnly) => Worker::AdbPush,
            (Direction::PcToAndroid, TransportMode::WifiOnly) => Worker::WifiPush,
            (Direction::PcToAndroid, TransportMode::Dual) => if serial && host {
                Worker::DualPush
            } else if serial {
                Worker::AdbPush
            } else {
                Worker::WifiPush
            },
            (Direction::AndroidToPc, TransportMode::AdbOnly) => Worker::AdbPull,
            (Direction::AndroidToPc, TransportMode::WifiOnly) => Worker::WifiPull,
            (Direction::AndroidToPc, TransportMode::Dual) => if host {
                Worker::WifiPull
            } else {
                Worker::AdbPull
            },
        },
    )
}

/// A draft that is accepted gives a record that a worker can carry out: one that pushes over ADB or
/// over both lanes has a serial, one that goes over the network or over both lanes has a host. A
/// pull from the device over both lanes without a host takes ADB, which has a serial.
pub proof fn lemma_accepted_draft_has_its_lanes(d: DraftView, facts: SourceFactsView, now: u128, id: Seq<char>)
    requires
        drafted(d, facts, now) is Ok,
    ensures
        ({
            let r = RecordView {
                task_id: id,
                draft: DraftView {
                    device_serial: filled(d.device_serial),
                    agent_host: filled(d.agent_host),
                    ..d
                },
                created_at_epoch_ms: now,
            };
            match worker_of(r) {
                Ok(w) => match w {
                    Worker::AdbPush => r.draft.device_serial is Some,
                    Worker::WifiPush => r.draft.agent_host is Some,
                    Worker::DualPush => r.draft.device_serial is Some && r.draft.agent_host
                        is Some,
                    Worker::AdbPull => r.draft.device_serial is Some,
                    Worker::WifiPull => r.draft.agent_host is Some,
                },
                Err(_) => false,
            }
        }),
{
}

/// A worker that is about to be started: the card that is shown, and the chunk length to use.
#[derive(Debug)]
pub struct StartPlan {
    pub card: AdbTransferCard,
    pub chunk_size: u64,
    /// Whether the task is to be set to that chunk length first.
    pub rechunk: bool,
}

pub struct StartPlanView {
    pub card: cards::CardView,
    pub chunk_size: u64,
    pub rechunk: bool,
}

impl View for StartPlan {
    type V = StartPlanView;

    open spec fn view(&self) -> StartPlanView {
        StartPlanView { card: self.card@, chunk_size: self.chunk_size, rechunk: self.rechunk }
    }
}

/// The view of a plan or a complaint.
pub open spec fn start_view(r: Result<StartPlan, String>) -> Result<StartPlanView, Seq<char>> {
    match r {
        Ok(p) => Ok(p@),
        Err(m) => Err(m@),
    }
}

/// A push over ADB that is about to be started.
pub fn start_adb_transfer_from_record(record: &TaskFileRecord) -> (r: Result<StartPlan, String>)
    ensures
        start_view(r) == (match record@.draft.device_serial {
            None => Err("device_serial is required for ADB transfer"@),
            Some(serial) => Ok(
                StartPlanView {
                    card: cards::fresh_card(
                        record@.task_id,
                        serial,
                        record@.draft.target_root,
                    ),
                    chunk_size: requested(record@),
                    rechunk: false,
                },
            ),
        }),
{
    match &record.device_serial {
        None => Err("device_serial is required for ADB transfer".to_string()),
        Some(serial) => Ok(
            StartPlan {
                card: AdbTransferCard::new(
                    record.task_id.as_str(),
                    serial.as_str(),
                    record.target_root.as_str(),
                ),
                chunk_size: record.requested_chunk_size(),
                rechunk: false,
            },
        ),
    }
}

/// A pull over ADB that is about to be started.
pub fn start_adb_pull_from_record(record: &TaskFileRecord) -> (r: Result<StartPlan, String>)
    ensures
        start_view(r) == (match record@.draft.device_serial {
            None => Err("device_serial is required for ADB Android -> PC transfer"@),
            Some(serial) => Ok(
                StartPlanView {
                    card: cards::fresh_card(
                        record@.task_id,
                        serial,
                        record@.draft.target_root,
                    ),
                    chunk_size: requested(record@),
                    rechunk: false,
                },
            ),
        }),
{
    match &record.device_serial {
        None => Err("device_serial is required for ADB Android -> PC transfer".to_string()),
        Some(serial) => Ok(
            StartPlan {
                card: AdbTransferCard::new(
                    record.task_id.as_str(),
                    serial.as_str(),
                    record.target_root.as_str(),
                ),
                chunk_size: record.requested_chunk_size(),
                rechunk: false,
            },
        ),
    }
}

/// Whether a pull over ADB may begin: not where a pause was asked for.
pub fn check_pull_pause(paused: bool) -> (r: Result<(), String>)
    ensures
        problem_view(r) == if paused {
            Some("transfer paused before adb pull"@)
        } else {
            None
        },
{
    if paused {
        Err("transfer paused before adb pull".to_string())
    } else {
        Ok(())
    }
}

/// The host of a push over the network, if it has one and is a push.
pub open spec fn wifi_push_host(r: RecordView) -> Result<Seq<char>, Seq<char>> {
    match labels::direction_of(r.draft.direction) {
        Err(m) => Err(m),
        Ok(d) => if d != Direction::PcToAndroid {
            Err("Wi-Fi worker currently supports PC -> Android tasks"@)
        } else {
            match r.draft.agent_host {
                None => Err("agent_host is required for Wi-Fi transfer"@),
                Some(host) => Ok(host),
            }
        },
    }
}

/// The host of a push over the network, if it has one and is a push.
pub fn wifi_push_host_of(record: &TaskFileRecord) -> (r: Result<String, String>)
    ensures
        adb_command::outcome_view(r) == wifi_push_host(record@),
{
    match labels::parse_direction_label(record.direction.as_str()) {
        Err(m) => Err(m),
        Ok(d) => if d != Direction::PcToAndroid {
            Err("Wi-Fi worker currently supports PC -> Android tasks".to_string())
        } else {
            match &record.agent_host {
                None => Err("agent_host is required for Wi-Fi transfer".to_string()),
                Some(host) => Ok(host.clone()),
            }
        },
    }
}

/// A push over the network that is about to be started.
pub fn start_wifi_transfer_from_record(
    record: &TaskFileRecord,
    files: &Vec<LocalTransferFile>,
) -> (r: Result<StartPlan, String>)
    ensures
        start_view(r) == (match wifi_push_host(record@) {
            Err(m) => Err(m),
            Ok(host) => {
                let size = manifest::wifi_task_size(
                    manifest::local_views(files@),
                    requested(record@),
                ) as u64;
                Ok(
                    StartPlanView {
                        card: cards::fresh_card(
                            record@.task_id,
                            "wifi:"@ + host,
                            record@.draft.target_root,
                        ),
                        chunk_size: size,
                        rechunk: record@.draft.chunk_size_bytes != Some(size),
                    },
                )
            },
        }),
{
    match wifi_push_host_of(record) {
        Err(m) => Err(m),
        Ok(host) => {
            let size: u64 = manifest::wifi_task_chunk_size_for_files(
                files,
                record.requested_chunk_size(),
            );
            Ok(
                StartPlan {
                    card: AdbTransferCard::new(
                        record.task_id.as_str(),
                        checkpoint::about("wifi:", host.as_str()).as_str(),
                        record.target_root.as_str(),
                    ),
                    chunk_size: size,
                    rechunk: match record.chunk_size_bytes {
                        Some(n) => n != size,
                        None => true,
                    },
                },
            )
        },
    }
}

/// A pull over the network that is about to be started.
pub fn start_wifi_pull_from_record(record: &TaskFileRecord) -> (r: Result<StartPlan, String>)
    ensures
        start_view(r) == (match record@.draft.agent_host {
            None => Err("agent_host is required for Android -> PC transfer"@),
            Some(host) => {
                let known: u64 = match record@.draft.source_size_bytes {
                    Some(n) => n,
                    None => 0,
                };
                let size = sizing::wifi_chunk_size(known, requested(record@)) as u64;
                Ok(
                    StartPlanView {
                        card: cards::fresh_card(
                            record@.task_id,
                            "wifi:"@ + host,
                            record@.draft.target_root,
                        ),
                        chunk_size: size,
                        rechunk: record@.draft.chunk_size_bytes != Some(size),
                    },
                )
            },
        }),
{
    match &record.agent_host {
        None => Err("agent_host is required for Android -> PC transfer".to_string()),
        Some(host) => {
            let known: u64 = match record.source_size_bytes {
                Some(n) => n,
                None => 0,
            };
            let size: u64 = sizing::wifi_transfer_chunk_size(known, record.requested_chunk_size());
            Ok(
                StartPlan {
                    card: AdbTransferCard::new(
                        record.task_id.as_str(),
                        checkpoint::about("wifi:", host.as_str()).as_str(),
                        record.target_root.as_str(),
                    ),
                    chunk_size: size,
                    rechunk: match record.chunk_size_bytes {
                        Some(n) => n != size,
                        None => true,
                    },
                },
            )
        },
    }
}

/// A push over both lanes that is about to be started.
#[derive(Debug)]
pub enum DualStart {
    /// Nothing goes over the network: ADB alone carries it out.
    AdbOnly,
    /// Both lanes carry it out.
    Both(DualPlan),
}

/// How both lanes carry a push out.
#[derive(Debug)]
pub struct DualPlan {
    pub adb_files: Vec<LocalTransferFile>,
    pub wifi_files: Vec<LocalTransferFile>,
    pub shared_files: Vec<LocalTransferFile>,
    pub card: AdbTransferCard,
    pub chunk_size: u64,
    pub wifi_chunk_size: u64,
    /// Whether the task is to be set to the chunk length first.
    pub rechunk: bool,
    pub total_files: usize,
    /// The bytes of all files; none where they do not fit 64 bits.
    pub total_bytes: Option<u64>,
}

/// The lanes of a push over both, if it has them and is a push.
pub open spec fn dual_lanes(r: RecordView) -> Result<(Seq<char>, Seq<char>), Seq<char>> {
    match labels::direction_of(r.draft.direction) {
        Err(m) => Err(m),
        Ok(d) => if d != Direction::PcToAndroid {
            Err("Dual worker currently supports PC -> Android tasks only"@)
        } else {
            match (r.draft.device_serial, r.draft.agent_host) {
                (None, _) => Err("device_serial is required for Dual transfer"@),
                (_, None) => Err("agent_host is required for Dual transfer"@),
                (Some(serial), Some(host)) => Ok((serial, host)),
            }
        },
    }
}

/// The view of lanes or a complaint.
pub open spec fn lanes_view(r: Result<(String, String), String>) -> Result<
    (Seq<char>, Seq<char>),
    Seq<char>,
> {
    match r {
        Ok((a, b)) => Ok((a@, b@)),
        Err(m) => Err(m@),
    }
}

/// The lanes of a push over both, if it has them and is a push.
pub fn dual_lanes_of(record: &TaskFileRecord) -> (r: Result<(String, String), String>)
    ensures
        lanes_view(r) == dual_lanes(record@),
{
    match labels::parse_direction_label(record.direction.as_str()) {
        Err(m) => Err(m),
        Ok(d) => if d != Direction::PcToAndroid {
            Err("Dual worker currently supports PC -> Android tasks only".to_string())
        } else {
            match (&record.device_serial, &record.agent_host) {
                (None, _) => Err("device_serial is required for Dual transfer".to_string()),
                (_, None) => Err("agent_host is required for Dual transfer".to_string()),
                (Some(serial), Some(host)) => Ok((serial.clone(), host.clone())),
            }
        },
    }
}

/// Whether a push over both lanes starts as the plan says.
pub open spec fn dual_started(
    r: RecordView,
    serial: Seq<char>,
    host: Seq<char>,
    has_directories: bool,
    files: Seq<manifest::LocalFileView>,
    start: DualStart,
) -> bool {
    let small = manifest::chosen(files, false);
    let adb = manifest::every_other(small, true);
    let wifi = manifest::every_other(small, false);
    let shared = manifest::chosen(files, true);
    let need = manifest::largest(manifest::shared_sizes(shared, requested(r)));
    let size: u64 = match need {
        Some(n) => n as u64,
        None => requested(r),
    };
    match start {
        DualStart::AdbOnly => !has_directories && wifi.len() == 0 && shared.len() == 0,
        DualStart::Both(p) => {
            &&& has_directories || wifi.len() > 0 || shared.len() > 0
            &&& manifest::local_views(p.adb_files@) == adb
            &&& manifest::local_views(p.wifi_files@) == wifi
            &&& manifest::local_views(p.shared_files@) == shared
            &&& p.card@ == cards::fresh_card(
                r.task_id,
                "dual:"@ + serial + "+wifi:"@ + host,
                r.draft.target_root,
            )
            &&& p.chunk_size == size
            &&& p.wifi_chunk_size == sizing::smaller(
                sizing::wifi_chunk_size(4294967296, size),
                262144,
            )
            &&& p.rechunk == (size != requested(r))
            &&& p.total_files == files.len()
            &&& p.total_bytes == (if manifest::total_bytes(files) <= u64::MAX {
                Some(manifest::total_bytes(files) as u64)
            } else {
                None
            })
        },
    }
}

/// A push over both lanes that is about to be started.
pub fn start_dual_pc_to_android_from_record(
    record: &TaskFileRecord,
    serial: &str,
    host: &str,
    has_directories: bool,
    files: Vec<LocalTransferFile>,
) -> (r: DualStart)
    ensures
        dual_started(
            record@,
            serial@,
            host@,
            has_directories,
            manifest::local_views(files@),
            r,
        ),
{
    let total_files: usize = files.len();
    let total_bytes = manifest::sum_bytes(&files);
    let (adb_files, wifi_files, shared_files) = manifest::partition_dual_transfer_files(files);
    assert(manifest::local_views(wifi_files@).len() == wifi_files@.len());
    assert(manifest::local_views(shared_files@).len() == shared_files@.len());
    if !has_directories && wifi_files.len() == 0 && shared_files.len() == 0 {
        return DualStart::AdbOnly;
    }
    let asked: u64 = record.requested_chunk_size();
    let size: u64 = match manifest::shared_chunk_size_for_files(&shared_files, asked) {
        Some(n) => n,
        None => asked,
    };
    let mut label = "dual:".to_string();
    label.append(serial);
    label.append("+wifi:");
    label.append(host);
    DualStart::Both(
        DualPlan {
            adb_files,
            wifi_files,
            shared_files,
            card: AdbTransferCard::new(
                record.task_id.as_str(),
                label.as_str(),
                record.target_root.as_str(),
            ),
            chunk_size: size,
            wifi_chunk_size: sizing::dual_wifi_chunk_size(size),
            rechunk: size != asked,
            total_files,
            total_bytes,
        },
    )
}

/// What both lanes and the shared files came to together: the first complaint, of ADB, of the
/// network and of the shared files, or all three reports.
pub open spec fn dual_result(
    adb: Result<Seq<char>, Seq<char>>,
    wifi: Result<Seq<char>, Seq<char>>,
    shared: Result<Seq<char>, Seq<char>>,
) -> Result<Seq<char>, Seq<char>> {
    match (adb, wifi, shared) {
        (Ok(a), Ok(w), Ok(s)) => Ok(
            "Dual transfer completed.\nADB: "@ + a + "\nWi-Fi: "@ + w + "\nSame-file: "@ + s,
        ),
        (Err(m), _, _) => Err(m),
        (_, Err(m), _) => Err(m),
        (_, _, Err(m)) => Err("same-file Dual transfer failed: "@ + m),
    }
}

/// What both lanes and the shared files came to together.
pub fn combine_dual_results(
    adb: &Result<String, String>,
    wifi: &Result<String, String>,
    shared: &Result<String, String>,
) -> (r: Result<String, String>)
    ensures
        adb_command::outcome_view(r) == dual_result(
            adb_command::outcome_view(*adb),
            adb_command::outcome_view(*wifi),
            adb_command::outcome_view(*shared),
        ),
{
    match (adb, wifi, shared) {
        (Ok(a), Ok(w), Ok(s)) => {
            let mut m = "Dual transfer completed.\nADB: ".to_string();
            m.append(a.as_str());
            m.append("\nWi-Fi: ");
            m.append(w.as_str());
            m.append("\nSame-file: ");
            m.append(s.as_str());
            Ok(m)
        },
        (Err(m), _, _) => Err(m.clone()),
        (_, Err(m), _) => Err(m.clone()),
        (_, _, Err(m)) => Err(checkpoint::about("same-file Dual transfer failed: ", m.as_str())),
    }
}

/// Whether a task's record may be deleted: the demonstration task stays without a word, a task
/// that is being carried out is refused.
#[derive(Debug, PartialEq, Eq)]
pub enum Deletion {
    Keep,
    Refuse(String),
    Delete,
}

/// Whether a task's record may be deleted.
pub fn delete_transfer_task(task_id: &str, busy: bool) -> (r: Deletion)
    ensures
        match r {
            Deletion::Keep => task_id@ == "demo-task"@,
            Deletion::Refuse(m) => task_id@ != "demo-task"@ && busy && m@
                == "任务正在运行，请先取消后再删除记录。"@,
            Deletion::Delete => task_id@ != "demo-task"@ && !busy,
        },
{
    if text::str_eq(task_id, "demo-task") {
        Deletion::Keep
    } else if busy {
        Deletion::Refuse("任务正在运行，请先取消后再删除记录。".to_string())
    } else {
        Deletion::Delete
    }
}

/// A draft is accepted exactly where it has a source, a target, a known direction and transport, a source that
/// is there if it is sent from the PC, the lanes that its transport needs, an Android path as the target
/// on the device, and for a single file a parent and a name.
pub proof fn lemma_draft_is_accepted_with_all_it_needs(
    d: DraftView,
    facts: SourceFactsView,
    now: u128,
)
    ensures
        drafted(d, facts, now) is Ok <==> {
            let push = labels::direction_of(d.direction) == Ok::<Direction, Seq<char>>(
                Direction::PcToAndroid,
            );
            let serial = d.device_serial matches Some(s) && text::trim(s).len() > 0;
            let host = d.agent_host matches Some(s) && text::trim(s).len() > 0;
            &&& text::trim(d.source_path).len() > 0
            &&& text::trim(d.target_root).len() > 0
            &&& labels::direction_of(d.direction) is Ok
            &&& push ==> facts.exists && !d.target_root.contains('\\') && (facts.is_file
                ==> facts.parent is Some && facts.file_name is Some)
            &&& match labels::transport_of(d.transport_mode) {
                Ok(TransportMode::AdbOnly) => serial,
                Ok(TransportMode::WifiOnly) => host,
                Ok(TransportMode::Dual) => serial || host,
                Err(_) => false,
            }
        },
{
}

/// The task that is made of a draft has the direction, the transport, the check and the target of the draft. A
/// file from the PC is sent by its name from its parent, a directory whole. The chunk length and the number
/// of chunks under way are those of the draft where it gives them, and else those of a new task.
pub proof fn lemma_task_is_made_as_drafted(d: DraftView, facts: SourceFactsView, now: u128)
    requires
        drafted(d, facts, now) is Ok,
    ensures
        ({
            let p = drafted(d, facts, now)->Ok_0;
            let c = p.config;
            &&& labels::direction_of(d.direction) == Ok::<Direction, Seq<char>>(c.direction)
            &&& labels::transport_of(d.transport_mode) == Ok::<TransportMode, Seq<char>>(
                c.transport_mode,
            )
            &&& c.verify_enabled == d.verify_enabled
            &&& c.target_root == text::trim(d.target_root)
            &&& c.created_at_epoch_ms == now
            &&& p.source_path == text::trim(d.source_path)
            &&& c.direction == Direction::PcToAndroid && facts.is_file ==> Some(c.source_root)
                == facts.parent && Some(p.selected) == facts.file_name
            &&& c.direction == Direction::PcToAndroid && !facts.is_file ==> c.source_root
                == text::trim(d.source_path) && p.selected == "."@
            &&& c.direction == Direction::AndroidToPc ==> c.source_root == "."@ && p.selected
                == "."@
            &&& (d.chunk_size_bytes matches Some(n) && n > 0) ==> Some(c.chunk_size_bytes)
                == d.chunk_size_bytes
            &&& !(d.chunk_size_bytes matches Some(n) && n > 0) ==> c.chunk_size_bytes == 8 * 1024
                * 1024
            &&& (d.max_in_flight_chunks_per_lane matches Some(n) && n > 0) ==> Some(
                c.max_in_flight_chunks_per_lane,
            ) == d.max_in_flight_chunks_per_lane
            &&& !(d.max_in_flight_chunks_per_lane matches Some(n) && n > 0)
                ==> c.max_in_flight_chunks_per_lane == 4
            &&& c.small_file_threshold_bytes == 32 * 1024 * 1024
        }),
{
}

/// A task goes over the lane of its transport, in its direction. With both lanes a push takes both if it has
/// both, and else the one that it has; a pull takes the network if it can, and else ADB.
pub proof fn lemma_worker_suits_the_task(r: RecordView)
    requires
        labels::direction_of(r.draft.direction) is Ok,
        labels::transport_of(r.draft.transport_mode) is Ok,
    ensures
        ({
            let push = labels::direction_of(r.draft.direction) == Ok::<Direction, Seq<char>>(
                Direction::PcToAndroid,
            );
            let mode = labels::transport_of(r.draft.transport_mode)->Ok_0;
            let serial = r.draft.device_serial is Some;
            let host = r.draft.agent_host is Some;
            &&& worker_of(r) is Ok
            &&& push && mode == TransportMode::AdbOnly ==> worker_of(r)->Ok_0 == Worker::AdbPush
            &&& push && mode == TransportMode::WifiOnly ==> worker_of(r)->Ok_0 == Worker::WifiPush
            &&& push && mode == TransportMode::Dual && serial && host ==> worker_of(r)->Ok_0
                == Worker::DualPush
            &&& push && mode == TransportMode::Dual && serial && !host ==> worker_of(r)->Ok_0
                == Worker::AdbPush
            &&& push && mode == TransportMode::Dual && !serial ==> worker_of(r)->Ok_0
                == Worker::WifiPush
            &&& !push && mode == TransportMode::AdbOnly ==> worker_of(r)->Ok_0 == Worker::AdbPull
            &&& !push && mode == TransportMode::WifiOnly ==> worker_of(r)->Ok_0 == Worker::WifiPull
            &&& !push && mode == TransportMode::Dual ==> worker_of(r)->Ok_0 == (if host {
                Worker::WifiPull
            } else {
                Worker::AdbPull
            })
        }),
{
}

/// A push over both lanes has a serial number and a host, those of its record, and a push over the network has
/// the host of its record; nothing but a push goes that way.
pub proof fn lemma_lanes_are_those_of_the_record(r: RecordView)
    ensures
        ({
            let push = labels::direction_of(r.draft.direction) == Ok::<Direction, Seq<char>>(
                Direction::PcToAndroid,
            );
            &&& dual_lanes(r) is Ok <==> push && r.draft.device_serial is Some && r.draft.agent_host
                is Some
            &&& dual_lanes(r) matches Ok((serial, host)) ==> r.draft.device_serial == Some(serial)
                && r.draft.agent_host == Some(host)
            &&& wifi_push_host(r) is Ok <==> push && r.draft.agent_host is Some
            &&& wifi_push_host(r) matches Ok(host) ==> r.draft.agent_host == Some(host)
        }),
{
}

/// A transfer over both lanes came to a good end exactly where both lanes and the shared files did. Else it
/// complains of what went wrong first: on ADB, on the network, with the shared files.
pub proof fn lemma_dual_result_needs_all_three(
    adb: Result<Seq<char>, Seq<char>>,
    wifi: Result<Seq<char>, Seq<char>>,
    shared: Result<Seq<char>, Seq<char>>,
)
    ensures
        dual_result(adb, wifi, shared) is Ok <==> adb is Ok && wifi is Ok && shared is Ok,
        adb is Err ==> dual_result(adb, wifi, shared) == Err::<Seq<char>, Seq<char>>(adb->Err_0),
        adb is Ok && wifi is Err ==> dual_result(adb, wifi, shared) == Err::<Seq<char>, Seq<char>>(
            wifi->Err_0,
        ),
        adb is Ok && wifi is Ok && shared is Err ==> dual_result(adb, wifi, shared) == Err::<
            Seq<char>,
            Seq<char>,
        >("same-file Dual transfer failed: "@ + shared->Err_0),
{
}

/// The kept tasks that are recovered are just those that are not under way.
pub proof fn lemma_missing_tasks_are_recovered(
    kept: Seq<Seq<char>>,
    present: Seq<Seq<char>>,
    id: Seq<char>,
)
    ensures
        missing(kept, present).contains(id) <==> kept.contains(id) && !present.contains(id),
    decreases kept.len(),
{
    let all = missing(kept, present);
    if kept.len() > 0 {
        let d = kept.drop_last();
        let head = missing(d, present);
        lemma_missing_tasks_are_recovered(d, present, id);
        assert(kept[kept.len() - 1] == kept.last());
        if kept.contains(id) && id != kept.last() {
            let i = choose|i: int| 0 <= i < kept.len() && kept[i] == id;
            assert(d[i] == id);
        }
        if d.contains(id) {
            let i = choose|i: int| 0 <= i < d.len() && d[i] == id;
            assert(kept[i] == id);
        }
        if head.contains(id) {
            let i = choose|i: int| 0 <= i < head.len() && head[i] == id;
            assert(all[i] == id);
        }
        if !present.contains(kept.last()) {
            assert(all[head.len() as int] == kept.last());
            if all.contains(id) && id != kept.last() {
                let i = choose|i: int| 0 <= i < all.len() && all[i] == id;
                assert(head[i] == id);
            }
        }
    }
}

/// A file in which a task is kept is named by the task and `.json`, and no other file names a task.
pub proof fn lemma_record_is_named_by_its_task(id: Seq<char>, name: Seq<char>)
    ensures
        id.len() > 0 ==> record_id(id + ".json"@) == Some(id),
        record_id(name) matches Some(t) ==> name == t + ".json"@ && t.len() > 0,
{
    reveal_strlit(".json");
    let full = id + ".json"@;
    assert(full.skip(full.len() - 5) =~= ".json"@);
    assert(full.subrange(full.len() - 5, full.len() as int) =~= ".json"@);
    assert(full.take(full.len() - 5) =~= id);
    if let Some(t) = record_id(name) {
        assert(name =~= t + ".json"@);
    }
}

/// A text counts as filled in exactly where it is more than white space, and is kept as it is.
pub proof fn lemma_only_filled_texts_count(s: Seq<char>)
    ensures
        text::trim(s).len() > 0 ==> filled(Some(s)) == Some(s),
        text::trim(s).len() == 0 ==> filled(Some(s)) is None,
        filled(None) is None,
{
}

/// A dual push starts both lanes unless there is neither a file nor a directory. Every file then
/// goes to exactly one of the three lists: shared if it is large, else by turns to the network
/// and to ADB. The chunk length is the largest that a shared file needs, and that which was asked
/// for where no file is shared.
pub proof fn lemma_dual_start_deals_every_file(
    r: RecordView,
    serial: Seq<char>,
    host: Seq<char>,
    has_directories: bool,
    files: Seq<manifest::LocalFileView>,
    start: DualStart,
)
    requires
        dual_started(r, serial, host, has_directories, files, start),
    ensures
        start is AdbOnly <==> !has_directories && files.len() == 0,
        start matches DualStart::Both(p) ==> {
            let adb = manifest::local_views(p.adb_files@);
            let wifi = manifest::local_views(p.wifi_files@);
            let shared = manifest::local_views(p.shared_files@);
            &&& adb.len() + wifi.len() + shared.len() == files.len()
            &&& adb.len() <= wifi.len() <= adb.len() + 1
            &&& forall|i: int|
                0 <= i < shared.len() ==> (#[trigger] shared[i]).size_bytes >= 32 * 1024 * 1024
            &&& forall|i: int|
                0 <= i < adb.len() ==> (#[trigger] adb[i]).size_bytes < 32 * 1024 * 1024
            &&& forall|i: int|
                0 <= i < wifi.len() ==> (#[trigger] wifi[i]).size_bytes < 32 * 1024 * 1024
            &&& shared.len() == 0 ==> p.chunk_size == requested(r)
            &&& forall|i: int|
                0 <= i < shared.len() ==> p.chunk_size >= sizing::shared_chunk_size(
                    (#[trigger] shared[i]).size_bytes,
                    requested(r),
                )
            &&& p.rechunk <==> p.chunk_size != requested(r)
            &&& p.total_files == files.len()
        },
{
    let small = manifest::chosen(files, false);
    let large = manifest::chosen(files, true);
    lemma_chosen_files_are_all(files);
    manifest::lemma_small_files_go_by_turns(files);
    manifest::lemma_small_files_go_by_turns(small);
    let sizes = manifest::shared_sizes(large, requested(r));
    manifest::lemma_largest(sizes);
    assert forall|i: int| 0 <= i < large.len() implies #[trigger] sizes[i]
        == sizing::shared_chunk_size(large[i].size_bytes, requested(r)) by {}
    if let DualStart::Both(p) = start {
        let adb = manifest::local_views(p.adb_files@);
        let wifi = manifest::local_views(p.wifi_files@);
        assert forall|i: int| 0 <= i < adb.len() implies (#[trigger] adb[i]).size_bytes < 32 * 1024
            * 1024 by {
            assert(adb[i] == small[2 * i + 1]);
        }
        assert forall|i: int| 0 <= i < wifi.len() implies (#[trigger] wifi[i]).size_bytes < 32
            * 1024 * 1024 by {
            assert(wifi[i] == small[2 * i]);
        }
        assert forall|i: int| 0 <= i < large.len() implies p.chunk_size
            >= sizing::shared_chunk_size((#[trigger] large[i]).size_bytes, requested(r)) by {
            assert(sizes[i] <= manifest::largest(sizes)->0);
            let k = choose|k: int|
                0 <= k < sizes.len() && #[trigger] sizes[k] == manifest::largest(sizes)->0;
            sizing::lemma_shared_chunks_grow(large[k].size_bytes, requested(r));
        }
    }
}

proof fn lemma_chosen_files_are_all(files: Seq<manifest::LocalFileView>)
    ensures
        manifest::chosen(files, true).len() + manifest::chosen(files, false).len() == files.len(),
    decreases files.len(),
{
    if files.len() > 0 {
        lemma_chosen_files_are_all(files.drop_last());
    }
}

} // verus!
