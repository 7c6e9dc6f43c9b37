//! Checkpoints: what of a task is already done, and its text form on disk.

use crate::models::{
    Direction, TaskConfig, TaskConfigView, TaskState, TransferItem, TransferItemView, TransportMode,
};
use crate::scheduler::LaneAssignment;
use crate::text;
use std::collections::BTreeMap;
use vstd::prelude::*;

verus! {

/// What of one file is done.
#[derive(Debug, PartialEq, Eq)]
pub struct FileCheckpoint {
    pub relative_path: String,
    pub size_bytes: u64,
    pub modified_at_epoch_ms: u128,
    pub fingerprint_hex: Option<String>,
    pub completed_chunks: Vec<u32>,
    pub completed_chunk_lanes: BTreeMap<u32, LaneAssignment>,
    pub verification_digest: Option<String>,
}

#[verifier::ext_equal]
pub struct FileCheckpointView {
    pub relative_path: Seq<char>,
    pub size_bytes: u64,
    pub modified_at_epoch_ms: u128,
    pub fingerprint_hex: Option<Seq<char>>,
    pub completed_chunks: Seq<u32>,
    pub completed_chunk_lanes: Map<u32, LaneAssignment>,
    pub verification_digest: Option<Seq<char>>,
}

impl View for FileCheckpoint {
    type V = FileCheckpointView;

    open spec fn view(&self) -> FileCheckpointView {
        FileCheckpointView {
            relative_path: self.relative_path@,
            size_bytes: self.size_bytes,
            modified_at_epoch_ms: self.modified_at_epoch_ms,
            fingerprint_hex: text::opt_view(self.fingerprint_hex),
            completed_chunks: self.completed_chunks@,
            completed_chunk_lanes: self.completed_chunk_lanes@,
            verification_digest: text::opt_view(self.verification_digest),
        }
    }
}

impl Clone for FileCheckpoint {
    fn clone(&self) -> (r: Self)
        ensures
            r@ == self@,
    {
        FileCheckpoint {
            relative_path: self.relative_path.clone(),
            size_bytes: self.size_bytes,
            modified_at_epoch_ms: self.modified_at_epoch_ms,
            fingerprint_hex: text::copy_opt(&self.fingerprint_hex),
            completed_chunks: copy_indices(&self.completed_chunks),
            completed_chunk_lanes: self.completed_chunk_lanes.clone(),
            verification_digest: text::copy_opt(&self.verification_digest),
        }
    }
}

/// A copy of a list of chunk indices.
pub fn copy_indices(v: &Vec<u32>) -> (r: Vec<u32>)
    ensures
        r@ == v@,
{
    let mut out: Vec<u32> = Vec::new();
    let mut i: usize = 0;
    while i < v.len()
        invariant
            i <= v.len(),
            out@ == v@.take(i as int),
        decreases v.len() - i,
    {
        out.push(v[i]);
        assert(out@ =~= v@.take(i + 1));
        i += 1;
    }
    assert(v@.take(v@.len() as int) =~= v@);
    out
}

/// The views of a list of file checkpoints.
pub open spec fn file_views(v: Seq<FileCheckpoint>) -> Seq<FileCheckpointView> {
    v.map_values(|f: FileCheckpoint| f@)
}

/// Pushing a file checkpoint pushes its view.
pub broadcast proof fn lemma_file_views_push(v: Seq<FileCheckpoint>, f: FileCheckpoint)
    ensures
        #[trigger] file_views(v.push(f)) == file_views(v).push(f@),
{
    assert(file_views(v.push(f)) =~= file_views(v).push(f@));
}

/// What of a task is done.
#[derive(Debug, PartialEq, Eq)]
pub struct TaskCheckpoint {
    pub task_id: String,
    pub state: TaskState,
    pub transport_mode: TransportMode,
    pub verify_enabled: bool,
    pub updated_at_epoch_ms: u128,
    pub files: Vec<FileCheckpoint>,
}

#[verifier::ext_equal]
pub struct TaskCheckpointView {
    pub task_id: Seq<char>,
    pub state: TaskState,
    pub transport_mode: TransportMode,
    pub verify_enabled: bool,
    pub updated_at_epoch_ms: u128,
    pub files: Seq<FileCheckpointView>,
}

impl View for TaskCheckpoint {
    type V = TaskCheckpointView;

    open spec fn view(&self) -> TaskCheckpointView {
        TaskCheckpointView {
            task_id: self.task_id@,
            state: self.state,
            transport_mode: self.transport_mode,
            verify_enabled: self.verify_enabled,
            updated_at_epoch_ms: self.updated_at_epoch_ms,
            files: file_views(self.files@),
        }
    }
}

/// A task's settings together with what of it is done.
#[derive(Debug, PartialEq, Eq)]
pub struct CheckpointEntry {
    pub config: TaskConfig,
    pub checkpoint: TaskCheckpoint,
}

#[verifier::ext_equal]
pub struct CheckpointEntryView {
    pub config: TaskConfigView,
    pub checkpoint: TaskCheckpointView,
}

impl View for CheckpointEntry {
    type V = CheckpointEntryView;

    open spec fn view(&self) -> CheckpointEntryView {
        CheckpointEntryView { config: self.config@, checkpoint: self.checkpoint@ }
    }
}

impl Clone for TaskCheckpoint {
    fn clone(&self) -> (r: Self)
        ensures
            r@ == self@,
    {
        TaskCheckpoint {
            task_id: self.task_id.clone(),
            state: self.state,
            transport_mode: self.transport_mode,
            verify_enabled: self.verify_enabled,
            updated_at_epoch_ms: self.updated_at_epoch_ms,
            files: copy_files(&self.files),
        }
    }
}

impl Clone for CheckpointEntry {
    fn clone(&self) -> (r: Self)
        ensures
            r@ == self@,
    {
        CheckpointEntry { config: self.config.clone(), checkpoint: self.checkpoint.clone() }
    }
}

fn copy_files(v: &Vec<FileCheckpoint>) -> (r: Vec<FileCheckpoint>)
    ensures
        file_views(r@) == file_views(v@),
{
    broadcast use lemma_file_views_push;

    let mut out: Vec<FileCheckpoint> = Vec::new();
    let mut i: usize = 0;
    while i < v.len()
        invariant
            i <= v.len(),
            file_views(out@) == file_views(v@).take(i as int),
        decreases v.len() - i,
    {
        let ghost before = file_views(out@);
        let file = v[i].clone();
        out.push(file);
        assert(file_views(out@) == before.push(file@));
        assert(file_views(out@) =~= file_views(v@).take(i + 1));
        i += 1;
    }
    assert(file_views(v@).take(v@.len() as int) =~= file_views(v@));
    out
}

/// Why a checkpoint could not be read or written.
#[derive(Debug)]
pub enum CheckpointError {
    Io(String),
    Parse(String),
}

impl CheckpointError {
    /// The error in words.
    pub open spec fn text(self) -> Seq<char> {
        match self {
            CheckpointError::Io(m) => m@,
            CheckpointError::Parse(m) => m@,
        }
    }

    /// The error in words.
    pub fn message(&self) -> (r: String)
        ensures
            r@ == self.text(),
    {
        match self {
            CheckpointError::Io(m) => m.clone(),
            CheckpointError::Parse(m) => m.clone(),
        }
    }
}

/// The checkpoint of a task of which nothing is done.
pub open spec fn fresh_checkpoint(
    config: TaskConfigView,
    items: Seq<TransferItemView>,
) -> CheckpointEntryView {
    CheckpointEntryView {
        config,
        checkpoint: TaskCheckpointView {
            task_id: config.task_id,
            state: TaskState::Pending,
            transport_mode: config.transport_mode,
            verify_enabled: config.verify_enabled,
            updated_at_epoch_ms: config.created_at_epoch_ms,
            files: items.map_values(|i: TransferItemView| fresh_file(i)),
        },
    }
}

/// The checkpoint of a file of which nothing is done.
pub open spec fn fresh_file(item: TransferItemView) -> FileCheckpointView {
    FileCheckpointView {
        relative_path: item.relative_path,
        size_bytes: item.size_bytes,
        modified_at_epoch_ms: item.modified_at_epoch_ms,
        fingerprint_hex: match item.fingerprint {
            Some(f) => Some(f.hex_digest),
            None => None,
        },
        completed_chunks: Seq::empty(),
        completed_chunk_lanes: Map::empty(),
        verification_digest: None,
    }
}

/// The checkpoint of a task of which nothing is done.
pub fn initialize_checkpoint(config: &TaskConfig, items: &[TransferItem]) -> (r: CheckpointEntry)
    ensures
        r@ == fresh_checkpoint(config@, crate::models::item_views(items@)),
{
    broadcast use lemma_file_views_push;

    let ghost views = crate::models::item_views(items@);
    let ghost all = views.map_values(|i: TransferItemView| fresh_file(i));
    let mut files: Vec<FileCheckpoint> = Vec::new();
    let mut i: usize = 0;
    while i < items.len()
        invariant
            i <= items.len(),
            views == crate::models::item_views(items@),
            all == views.map_values(|i: TransferItemView| fresh_file(i)),
            file_views(files@) == all.take(i as int),
        decreases items.len() - i,
    {
        let item = &items[i];
        let file = FileCheckpoint {
            relative_path: item.relative_path.clone(),
            size_bytes: item.size_bytes,
            modified_at_epoch_ms: item.modified_at_epoch_ms,
            fingerprint_hex: match &item.fingerprint {
                Some(f) => Some(f.hex_digest.clone()),
                None => None,
            },
            completed_chunks: Vec::new(),
            completed_chunk_lanes: BTreeMap::new(),
            verification_digest: None,
        };
        assert(file@ =~= fresh_file(views[i as int]));
        let ghost before = file_views(files@);
        files.push(file);
        assert(file_views(files@) == before.push(file@));
        assert(file_views(files@) =~= all.take(i + 1));
        i += 1;
    }
    assert(all.take(items@.len() as int) =~= all);
    CheckpointEntry {
        config: config.clone(),
        checkpoint: TaskCheckpoint {
            task_id: config.task_id.clone(),
            state: TaskState::Pending,
            transport_mode: config.transport_mode,
            verify_enabled: config.verify_enabled,
            updated_at_epoch_ms: config.created_at_epoch_ms,
            files,
        },
    }
}

/// Two texts side by side: an executable result agrees with a specified one.
pub open spec fn agrees<T: View>(r: Result<T, String>, s: Result<T::V, Seq<char>>) -> bool {
    match (r, s) {
        (Ok(a), Ok(b)) => a@ == b,
        (Err(a), Err(b)) => a@ == b,
        _ => false,
    }
}

/// A character as it stands in a checkpoint field.
pub open spec fn escape_char(c: char) -> Seq<char> {
    if c == '\\' {
        seq!['\\', '\\']
    } else if c == '\n' {
        seq!['\\', 'n']
    } else if c == '|' {
        seq!['\\', 'p']
    } else {
        seq![c]
    }
}

/// A text with backslash, line feed and bar escaped.
pub open spec fn escape(s: Seq<char>) -> Seq<char>
    decreases s.len(),
{
    if s.len() == 0 {
        Seq::empty()
    } else {
        escape_char(s[0]) + escape(s.drop_first())
    }
}

/// A text with escapes undone; a backslash before any other character stays.
pub open spec fn unescape(s: Seq<char>) -> Seq<char>
    decreases s.len(),
{
    if s.len() == 0 {
        Seq::empty()
    } else if s[0] != '\\' {
        seq![s[0]] + unescape(s.drop_first())
    } else if s.len() == 1 {
        seq!['\\']
    } else if s[1] == 'n' {
        seq!['\n'] + unescape(s.skip(2))
    } else if s[1] == 'p' {
        seq!['|'] + unescape(s.skip(2))
    } else if s[1] == '\\' {
        seq!['\\'] + unescape(s.skip(2))
    } else {
        seq!['\\', s[1]] + unescape(s.skip(2))
    }
}

/// A text with backslash, line feed and bar escaped.
pub fn escape_text(input: &str) -> (r: String)
    ensures
        r@ == escape(input@),
{
    let v = text::chars_of(input);
    let mut out = String::new();
    let mut i: usize = 0;
    assert(v@.skip(0) =~= input@);
    assert(out@ + escape(input@) =~= escape(input@));
    while i < v.len()
        invariant
            i <= v.len(),
            out@ + escape(v@.skip(i as int)) == escape(input@),
        decreases v.len() - i,
    {
        let ghost before = out@;
        let ghost rest = v@.skip(i as int);
        let c = v[i];
        if c == '\\' {
            out.push('\\');
            out.push('\\');
        } else if c == '\n' {
            out.push('\\');
            out.push('n');
        } else if c == '|' {
            out.push('\\');
            out.push('p');
        } else {
            out.push(c);
        }
        assert(rest.drop_first() =~= v@.skip(i + 1));
        assert(out@ =~= before + escape_char(c));
        assert(out@ + escape(v@.skip(i + 1)) =~= before + escape(rest));
        i += 1;
    }
    assert(out@ + escape(v@.skip(i as int)) =~= out@);
    out
}

/// A text with escapes undone.
pub fn unescape_text(input: &str) -> (r: String)
    ensures
        r@ == unescape(input@),
{
    let v = text::chars_of(input);
    let mut out = String::new();
    let mut i: usize = 0;
    assert(v@.skip(0) =~= input@);
    assert(out@ + unescape(input@) =~= unescape(input@));
    while i < v.len()
        invariant
            i <= v.len(),
            out@ + unescape(v@.skip(i as int)) == unescape(input@),
        decreases v.len() - i,
    {
        let ghost before = out@;
        let ghost rest = v@.skip(i as int);
        let c = v[i];
        if c != '\\' {
            out.push(c);
            assert(rest.drop_first() =~= v@.skip(i + 1));
            assert(out@ + unescape(v@.skip(i + 1)) =~= before + unescape(rest));
            i += 1;
        } else if i == v.len() - 1 {
            out.push('\\');
            assert(out@ + unescape(v@.skip(i + 1)) =~= before + unescape(rest));
            i += 1;
        } else {
            let d = v[i + 1];
            if d == 'n' {
                out.push('\n');
            } else if d == 'p' {
                out.push('|');
            } else if d == '\\' {
                out.push('\\');
            } else {
                out.push('\\');
                out.push(d);
            }
            assert(rest.skip(2) =~= v@.skip(i + 2));
            assert(rest[1] == d);
            assert(out@ + unescape(v@.skip(i + 2)) =~= before + unescape(rest));
            i += 2;
        }
    }
    assert(out@ + unescape(v@.skip(i as int)) =~= out@);
    out
}

/// The word for a direction.
pub open spec fn direction_word(d: Direction) -> Seq<char> {
    match d {
        Direction::PcToAndroid => "pc_to_android"@,
        Direction::AndroidToPc => "android_to_pc"@,
    }
}

/// The word for a transport mode.
pub open spec fn mode_word(m: TransportMode) -> Seq<char> {
    match m {
        TransportMode::AdbOnly => "adb_only"@,
        TransportMode::WifiOnly => "wifi_only"@,
        TransportMode::Dual => "dual"@,
    }
}

/// The word for a state.
pub open spec fn state_word(s: TaskState) -> Seq<char> {
    match s {
        TaskState::Pending => "pending"@,
        TaskState::Running => "running"@,
        TaskState::Paused => "paused"@,
        TaskState::Completed => "completed"@,
        TaskState::Failed => "failed"@,
        TaskState::Cancelled => "cancelled"@,
    }
}

/// The word for a lane.
pub open spec fn lane_word(l: LaneAssignment) -> Seq<char> {
    match l {
        LaneAssignment::Adb => "adb"@,
        LaneAssignment::Wifi => "wifi"@,
    }
}

/// The word for a truth value.
pub open spec fn bool_word(b: bool) -> Seq<char> {
    if b {
        "true"@
    } else {
        "false"@
    }
}

/// The direction a word stands for.
pub open spec fn read_direction(w: Seq<char>) -> Result<Direction, Seq<char>> {
    if w == "pc_to_android"@ {
        Ok(Direction::PcToAndroid)
    } else if w == "android_to_pc"@ {
        Ok(Direction::AndroidToPc)
    } else {
        Err("invalid direction "@ + w)
    }
}

/// The transport mode a word stands for.
pub open spec fn read_mode(w: Seq<char>) -> Result<TransportMode, Seq<char>> {
    if w == "adb_only"@ {
        Ok(TransportMode::AdbOnly)
    } else if w == "wifi_only"@ {
        Ok(TransportMode::WifiOnly)
    } else if w == "dual"@ {
        Ok(TransportMode::Dual)
    } else {
        Err("invalid transport mode "@ + w)
    }
}

/// The state a word stands for.
pub open spec fn read_state(w: Seq<char>) -> Result<TaskState, Seq<char>> {
    if w == "pending"@ {
        Ok(TaskState::Pending)
    } else if w == "running"@ {
        Ok(TaskState::Running)
    } else if w == "paused"@ {
        Ok(TaskState::Paused)
    } else if w == "completed"@ {
        Ok(TaskState::Completed)
    } else if w == "failed"@ {
        Ok(TaskState::Failed)
    } else if w == "cancelled"@ {
        Ok(TaskState::Cancelled)
    } else {
        Err("invalid task state "@ + w)
    }
}

/// The lane a word stands for.
pub open spec fn read_lane(w: Seq<char>) -> Result<LaneAssignment, Seq<char>> {
    if w == "adb"@ {
        Ok(LaneAssignment::Adb)
    } else if w == "wifi"@ {
        Ok(LaneAssignment::Wifi)
    } else {
        Err("invalid lane "@ + w)
    }
}

/// A message and what it is about.
pub fn about(message: &str, subject: &str) -> (r: String)
    ensures
        r@ == message@ + subject@,
{
    let mut s = message.to_string();
    s.append(subject);
    s
}

pub fn serialize_direction(value: Direction) -> (r: &'static str)
    ensures
        r@ == direction_word(value),
{
    match value {
        Direction::PcToAndroid => "pc_to_android",
        Direction::AndroidToPc => "android_to_pc",
    }
}

pub fn parse_direction(value: &str) -> (r: Result<Direction, String>)
    ensures
        match r {
            Ok(d) => read_direction(value@) == Ok::<Direction, Seq<char>>(d),
            Err(m) => read_direction(value@) == Err::<Direction, Seq<char>>(m@),
        },
{
    if text::str_eq(value, "pc_to_android") {
        Ok(Direction::PcToAndroid)
    } else if text::str_eq(value, "android_to_pc") {
        Ok(Direction::AndroidToPc)
    } else {
        Err(about("invalid direction ", value))
    }
}

pub fn serialize_transport_mode(value: TransportMode) -> (r: &'static str)
    ensures
        r@ == mode_word(value),
{
    match value {
        TransportMode::AdbOnly => "adb_only",
        TransportMode::WifiOnly => "wifi_only",
        TransportMode::Dual => "dual",
    }
}

pub fn parse_transport_mode(value: &str) -> (r: Result<TransportMode, String>)
    ensures
        match r {
            Ok(d) => read_mode(value@) == Ok::<TransportMode, Seq<char>>(d),
            Err(m) => read_mode(value@) == Err::<TransportMode, Seq<char>>(m@),
        },
{
    if text::str_eq(value, "adb_only") {
        Ok(TransportMode::AdbOnly)
    } else if text::str_eq(value, "wifi_only") {
        Ok(TransportMode::WifiOnly)
    } else if text::str_eq(value, "dual") {
        Ok(TransportMode::Dual)
    } else {
        Err(about("invalid transport mode ", value))
    }
}

/// The word for a state.
pub fn serialize_state(value: TaskState) -> (r: &'static str)
    ensures
        r@ == state_word(value),
{
    match value {
        TaskState::Pending => "pending",
        TaskState::Running => "running",
        TaskState::Paused => "paused",
        TaskState::Completed => "completed",
        TaskState::Failed => "failed",
        TaskState::Cancelled => "cancelled",
    }
}

pub fn parse_state(value: &str) -> (r: Result<TaskState, String>)
    ensures
        match r {
            Ok(d) => read_state(value@) == Ok::<TaskState, Seq<char>>(d),
            Err(m) => read_state(value@) == Err::<TaskState, Seq<char>>(m@),
        },
{
    if text::str_eq(value, "pending") {
        Ok(TaskState::Pending)
    } else if text::str_eq(value, "running") {
        Ok(TaskState::Running)
    } else if text::str_eq(value, "paused") {
        Ok(TaskState::Paused)
    } else if text::str_eq(value, "completed") {
        Ok(TaskState::Completed)
    } else if text::str_eq(value, "failed") {
        Ok(TaskState::Failed)
    } else if text::str_eq(value, "cancelled") {
        Ok(TaskState::Cancelled)
    } else {
        Err(about("invalid task state ", value))
    }
}

/// The word for a lane.
pub fn serialize_lane(value: LaneAssignment) -> (r: &'static str)
    ensures
        r@ == lane_word(value),
{
    match value {
        LaneAssignment::Adb => "adb",
        LaneAssignment::Wifi => "wifi",
    }
}

pub fn parse_lane(value: &str) -> (r: Result<LaneAssignment, String>)
    ensures
        match r {
            Ok(d) => read_lane(value@) == Ok::<LaneAssignment, Seq<char>>(d),
            Err(m) => read_lane(value@) == Err::<LaneAssignment, Seq<char>>(m@),
        },
{
    if text::str_eq(value, "adb") {
        Ok(LaneAssignment::Adb)
    } else if text::str_eq(value, "wifi") {
        Ok(LaneAssignment::Wifi)
    } else {
        Err(about("invalid lane ", value))
    }
}

/// What stands in a checkpoint for a state, a direction, a transport or a lane is read as just
/// that, and nothing else is read as it.
pub proof fn lemma_words_stand_for_what_they_say(
    w: Seq<char>,
    state: TaskState,
    direction: Direction,
    mode: TransportMode,
    lane: LaneAssignment,
)
    ensures
        read_state(w) == Ok::<TaskState, Seq<char>>(state) <==> w == state_word(state),
        read_direction(w) == Ok::<Direction, Seq<char>>(direction) <==> w == direction_word(
            direction,
        ),
        read_mode(w) == Ok::<TransportMode, Seq<char>>(mode) <==> w == mode_word(mode),
        read_lane(w) == Ok::<LaneAssignment, Seq<char>>(lane) <==> w == lane_word(lane),
        state_word(TaskState::Pending) == "pending"@,
        state_word(TaskState::Running) == "running"@,
        state_word(TaskState::Paused) == "paused"@,
        state_word(TaskState::Completed) == "completed"@,
        state_word(TaskState::Failed) == "failed"@,
        state_word(TaskState::Cancelled) == "cancelled"@,
        direction_word(Direction::PcToAndroid) == "pc_to_android"@,
        direction_word(Direction::AndroidToPc) == "android_to_pc"@,
        mode_word(TransportMode::AdbOnly) == "adb_only"@,
        mode_word(TransportMode::WifiOnly) == "wifi_only"@,
        mode_word(TransportMode::Dual) == "dual"@,
        lane_word(LaneAssignment::Adb) == "adb"@,
        lane_word(LaneAssignment::Wifi) == "wifi"@,
        bool_word(true) == "true"@,
        bool_word(false) == "false"@,
{
    reveal_strlit("pending");
    reveal_strlit("running");
    reveal_strlit("paused");
    reveal_strlit("completed");
    reveal_strlit("failed");
    reveal_strlit("cancelled");
    reveal_strlit("pc_to_android");
    reveal_strlit("android_to_pc");
    reveal_strlit("adb_only");
    reveal_strlit("wifi_only");
    reveal_strlit("dual");
    reveal_strlit("adb");
    reveal_strlit("wifi");
    if w == "pending"@ || w == "paused"@ {
        assert(w[1] == 'e' || w[1] == 'a');
    }
    assert("completed"@[1] == 'o' && "cancelled"@[1] == 'a');
    assert("running"@[0] == 'r' && "failed"@[0] == 'f' && "pending"@[0] == 'p' && "pending"@[1]
        == 'e');
    assert("paused"@[0] == 'p' && "paused"@[1] == 'a' && "completed"@[0] == 'c' && "cancelled"@[0]
        == 'c');
    assert("pc_to_android"@[0] == 'p' && "android_to_pc"@[0] == 'a');
    assert("adb_only"@[0] == 'a' && "wifi_only"@[0] == 'w' && "dual"@[0] == 'd');
    assert("adb"@[0] == 'a' && "wifi"@[0] == 'w');
}

/// A new checkpoint knows every file by its path, size, time and fingerprint, and no chunk of any
/// file is done.
pub proof fn lemma_new_checkpoint_has_everything_open(
    config: TaskConfigView,
    items: Seq<TransferItemView>,
)
    ensures
        ({
            let e = fresh_checkpoint(config, items);
            let c = e.checkpoint;
            &&& e.config == config
            &&& c.task_id == config.task_id
            &&& c.state == TaskState::Pending
            &&& c.transport_mode == config.transport_mode
            &&& c.verify_enabled == config.verify_enabled
            &&& c.updated_at_epoch_ms == config.created_at_epoch_ms
            &&& c.files.len() == items.len()
            &&& forall|k: int|
                0 <= k < items.len() ==> {
                    &&& (#[trigger] c.files[k]).relative_path == items[k].relative_path
                    &&& c.files[k].size_bytes == items[k].size_bytes
                    &&& c.files[k].modified_at_epoch_ms == items[k].modified_at_epoch_ms
                    &&& c.files[k].fingerprint_hex is Some <==> items[k].fingerprint is Some
                    &&& items[k].fingerprint is Some ==> c.files[k].fingerprint_hex->0
                        == items[k].fingerprint->0.hex_digest
                    &&& c.files[k].completed_chunks.len() == 0
                    &&& c.files[k].completed_chunk_lanes == Map::<u32, LaneAssignment>::empty()
                    &&& c.files[k].verification_digest is None
                }
        }),
{
}

/// In a checkpoint a backslash, a line feed and a bar stand as two characters each, and any other
/// character stands as it is.
pub proof fn lemma_text_is_escaped_character_by_character(c: char)
    ensures
        c != '\\' && c != '\n' && c != '|' ==> escape_char(c) == seq![c],
        escape_char('\n') == seq!['\\', 'n'],
        escape_char('|') == seq!['\\', 'p'],
        escape_char('\\') == seq!['\\', '\\'],
{
}

} // verus!
