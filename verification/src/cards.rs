//! What is shown of a running transfer.

use crate::adb_push::AdbPushProgress;
use crate::labels;
use crate::sizing;
use crate::text;
use vstd::prelude::*;

verus! {

/// What is shown of a running transfer.
#[derive(Debug, PartialEq, Eq)]
pub struct AdbTransferCard {
    pub task_id: String,
    pub serial: String,
    pub state: String,
    pub current_file: usize,
    pub total_files: usize,
    pub pushed_files: usize,
    pub skipped_files: usize,
    pub pushed_chunks: u64,
    pub skipped_chunks: u64,
    pub bytes_scanned: u64,
    pub bytes_pushed: u64,
    pub relative_path: String,
    pub remote_path: String,
    pub last_event: String,
    pub last_message: String,
}

/// The numbers and texts on a card that change while the transfer runs.
pub struct ProgressView {
    pub current_file: int,
    pub total_files: int,
    pub pushed_files: int,
    pub skipped_files: int,
    pub pushed_chunks: int,
    pub skipped_chunks: int,
    pub bytes_scanned: int,
    pub bytes_pushed: int,
    pub relative_path: Seq<char>,
    pub remote_path: Seq<char>,
    pub last_event: Seq<char>,
    pub last_message: Seq<char>,
}

pub struct CardView {
    pub task_id: Seq<char>,
    pub serial: Seq<char>,
    pub state: Seq<char>,
    pub progress: ProgressView,
}

impl View for AdbTransferCard {
    type V = CardView;

    open spec fn view(&self) -> CardView {
        CardView {
            task_id: self.task_id@,
            serial: self.serial@,
            state: self.state@,
            progress: ProgressView {
                current_file: self.current_file as int,
                total_files: self.total_files as int,
                pushed_files: self.pushed_files as int,
                skipped_files: self.skipped_files as int,
                pushed_chunks: self.pushed_chunks as int,
                skipped_chunks: self.skipped_chunks as int,
                bytes_scanned: self.bytes_scanned as int,
                bytes_pushed: self.bytes_pushed as int,
                relative_path: self.relative_path@,
                remote_path: self.remote_path@,
                last_event: self.last_event@,
                last_message: self.last_message@,
            },
        }
    }
}

impl Clone for AdbTransferCard {
    fn clone(&self) -> (r: Self)
        ensures
            r@ == self@,
    {
        AdbTransferCard {
            task_id: self.task_id.clone(),
            serial: self.serial.clone(),
            state: self.state.clone(),
            current_file: self.current_file,
            total_files: self.total_files,
            pushed_files: self.pushed_files,
            skipped_files: self.skipped_files,
            pushed_chunks: self.pushed_chunks,
            skipped_chunks: self.skipped_chunks,
            bytes_scanned: self.bytes_scanned,
            bytes_pushed: self.bytes_pushed,
            relative_path: self.relative_path.clone(),
            remote_path: self.remote_path.clone(),
            last_event: self.last_event.clone(),
            last_message: self.last_message.clone(),
        }
    }
}

/// How far a transfer has come.
#[derive(Debug, PartialEq, Eq)]
pub struct CardProgress {
    pub current_file: usize,
    pub total_files: usize,
    pub pushed_files: usize,
    pub skipped_files: usize,
    pub pushed_chunks: u64,
    pub skipped_chunks: u64,
    pub bytes_scanned: u64,
    pub bytes_pushed: u64,
    pub relative_path: String,
    pub remote_path: String,
    pub last_event: String,
    pub last_message: String,
}

impl View for CardProgress {
    type V = ProgressView;

    open spec fn view(&self) -> ProgressView {
        ProgressView {
            current_file: self.current_file as int,
            total_files: self.total_files as int,
            pushed_files: self.pushed_files as int,
            skipped_files: self.skipped_files as int,
            pushed_chunks: self.pushed_chunks as int,
            skipped_chunks: self.skipped_chunks as int,
            bytes_scanned: self.bytes_scanned as int,
            bytes_pushed: self.bytes_pushed as int,
            relative_path: self.relative_path@,
            remote_path: self.remote_path@,
            last_event: self.last_event@,
            last_message: self.last_message@,
        }
    }
}

/// A card at the start of a transfer.
pub open spec fn fresh_card(task_id: Seq<char>, serial: Seq<char>, remote_path: Seq<char>) -> CardView {
    CardView {
        task_id,
        serial,
        state: "Running"@,
        progress: ProgressView {
            current_file: 0,
            total_files: 0,
            pushed_files: 0,
            skipped_files: 0,
            pushed_chunks: 0,
            skipped_chunks: 0,
            bytes_scanned: 0,
            bytes_pushed: 0,
            relative_path: Seq::empty(),
            remote_path,
            last_event: "started"@,
            last_message: "ADB transfer worker started"@,
        },
    }
}

/// How a worker's transfer is closed.
#[derive(Debug, PartialEq, Eq)]
pub enum Settlement {
    /// The task is left as it is.
    Leave,
    /// The task is to be paused.
    Pause,
    /// The task is to be recorded as failed.
    Fail(String),
}

/// The view of a settlement.
pub enum SettlementView {
    Leave,
    Pause,
    Fail(Seq<char>),
}

impl View for Settlement {
    type V = SettlementView;

    open spec fn view(&self) -> SettlementView {
        match self {
            Settlement::Leave => SettlementView::Leave,
            Settlement::Pause => SettlementView::Pause,
            Settlement::Fail(m) => SettlementView::Fail(m@),
        }
    }
}

impl CardView {
    /// The card of a transfer that pulls over ADB.
    pub open spec fn pull_started(
        self,
        size_bytes: u64,
        remote_path: Seq<char>,
        local_root: Seq<char>,
    ) -> CardView {
        CardView {
            state: "Running"@,
            progress: ProgressView {
                current_file: 1,
                total_files: 1,
                bytes_scanned: size_bytes as int,
                relative_path: remote_path,
                remote_path: local_root,
                last_event: "adb-pull-started"@,
                last_message: "ADB pull started"@,
                ..self.progress
            },
            ..self
        }
    }

    /// The card of a transfer that has pulled over ADB, with what the command said.
    pub open spec fn pull_completed(self, size_bytes: u64, output: Seq<char>, verified: bool) -> CardView {
        CardView {
            progress: ProgressView {
                pushed_files: 1,
                bytes_pushed: size_bytes as int,
                last_event: "adb-pull-completed"@,
                last_message: if verified {
                    output + "\nADB verify completed"@
                } else {
                    output
                },
                ..self.progress
            },
            ..self
        }
    }

    /// The card with a state, an event and a message.
    pub open spec fn stamped(self, state: Seq<char>, event: Seq<char>, message: Seq<char>) -> CardView {
        CardView {
            state,
            progress: ProgressView {
                last_event: event,
                last_message: message,
                ..self.progress
            },
            ..self
        }
    }

    /// The card of a transfer whose worker ended: a cancelled task stays cancelled, an error that
    /// a resumed transfer can get over pauses it, any other fails it.
    pub open spec fn settled(
        self,
        cancelled: bool,
        result: Result<Seq<char>, Seq<char>>,
        completed_event: Seq<char>,
    ) -> CardView {
        if cancelled {
            self.stamped("Cancelled"@, "cancelled"@, "task cancelled by user"@)
        } else {
            match result {
                Ok(m) => self.stamped("Completed"@, completed_event, m),
                Err(m) => if labels::is_interruption(m) {
                    self.stamped("Paused"@, "paused"@, m)
                } else {
                    self.stamped("Failed"@, "failed"@, m)
                },
            }
        }
    }
}

/// What becomes of the task when its worker ended.
pub open spec fn settlement(cancelled: bool, result: Result<Seq<char>, Seq<char>>) -> SettlementView {
    match result {
        Err(m) if !cancelled => if labels::is_interruption(m) {
            SettlementView::Pause
        } else {
            SettlementView::Fail(m)
        },
        _ => SettlementView::Leave,
    }
}

/// What becomes of the task when its worker ended.
pub fn settle_worker_result(cancelled: bool, result: &Result<String, String>) -> (r: Settlement)
    ensures
        r@ == settlement(cancelled, crate::adb_command::outcome_view(*result)),
{
    if cancelled {
        return Settlement::Leave;
    }
    match result {
        Ok(_) => Settlement::Leave,
        Err(m) => if labels::is_recoverable_transfer_interruption(m.as_str()) {
            Settlement::Pause
        } else {
            Settlement::Fail(m.clone())
        },
    }
}

/// The card of a worker that ended says what becomes of its task.
pub proof fn lemma_card_tells_settlement(
    card: CardView,
    cancelled: bool,
    result: Result<Seq<char>, Seq<char>>,
    event: Seq<char>,
)
    ensures
        settlement(cancelled, result) == SettlementView::Pause <==> card.settled(
            cancelled,
            result,
            event,
        ).state == "Paused"@,
        settlement(cancelled, result) is Fail <==> card.settled(cancelled, result, event).state
            == "Failed"@,
{
    reveal_strlit("Paused");
    reveal_strlit("Failed");
    reveal_strlit("Completed");
    reveal_strlit("Cancelled");
    assert("Paused"@.len() == 6 && "Failed"@.len() == 6);
    assert("Completed"@.len() == 9 && "Cancelled"@.len() == 9);
    assert("Paused"@[0] == 'P' && "Failed"@[0] == 'F');
}

impl AdbTransferCard {
    /// A card at the start of a transfer.
    pub fn new(task_id: &str, serial: &str, remote_path: &str) -> (r: Self)
        ensures
            r@ == fresh_card(task_id@, serial@, remote_path@),
    {
        let card = AdbTransferCard {
            task_id: task_id.to_string(),
            serial: serial.to_string(),
            state: "Running".to_string(),
            current_file: 0,
            total_files: 0,
            pushed_files: 0,
            skipped_files: 0,
            pushed_chunks: 0,
            skipped_chunks: 0,
            bytes_scanned: 0,
            bytes_pushed: 0,
            relative_path: String::new(),
            remote_path: remote_path.to_string(),
            last_event: "started".to_string(),
            last_message: "ADB transfer worker started".to_string(),
        };
        assert(card.relative_path@ =~= Seq::empty());
        card
    }

    /// Shows how far the transfer has come.
    pub fn show(&mut self, p: CardProgress)
        ensures
            final(self)@ == (CardView { state: "Running"@, progress: p@, ..old(self)@ }),
    {
        self.state = "Running".to_string();
        self.current_file = p.current_file;
        self.total_files = p.total_files;
        self.pushed_files = p.pushed_files;
        self.skipped_files = p.skipped_files;
        self.pushed_chunks = p.pushed_chunks;
        self.skipped_chunks = p.skipped_chunks;
        self.bytes_scanned = p.bytes_scanned;
        self.bytes_pushed = p.bytes_pushed;
        self.relative_path = p.relative_path;
        self.remote_path = p.remote_path;
        self.last_event = p.last_event;
        self.last_message = p.last_message;
    }

    /// Whether a worker is at it, so that no other is started.
    pub fn is_busy(&self) -> (r: bool)
        ensures
            r <==> self@.state == "Running"@ || self@.state == "Pausing"@,
    {
        text::str_eq(self.state.as_str(), "Running") || text::str_eq(self.state.as_str(), "Pausing")
    }

    fn stamp(&mut self, state: &str, event: &str, message: &str)
        ensures
            final(self)@ == old(self)@.stamped(state@, event@, message@),
    {
        self.state = state.to_string();
        self.last_event = event.to_string();
        self.last_message = message.to_string();
    }

    /// Notes that a pause was asked for.
    pub fn note_pause_requested(&mut self)
        ensures
            final(self)@ == old(self)@.stamped(
                "Pausing"@,
                "pause-requested"@,
                "pause requested; waiting for current chunk boundary"@,
            ),
    {
        self.stamp(
            "Pausing",
            "pause-requested",
            "pause requested; waiting for current chunk boundary",
        );
    }

    /// Notes that the transfer was cancelled.
    pub fn note_cancel_requested(&mut self)
        ensures
            final(self)@ == old(self)@.stamped(
                "Cancelled"@,
                "cancelled"@,
                "cancel requested; stopping the active worker at the next safe boundary"@,
            ),
    {
        self.stamp(
            "Cancelled",
            "cancelled",
            "cancel requested; stopping the active worker at the next safe boundary",
        );
    }

    /// Shows how the worker ended.
    pub fn settle(&mut self, cancelled: bool, result: &Result<String, String>, completed_event: &str)
        ensures
            final(self)@ == old(self)@.settled(
                cancelled,
                crate::adb_command::outcome_view(*result),
                completed_event@,
            ),
    {
        if cancelled {
            self.stamp("Cancelled", "cancelled", "task cancelled by user");
            return ;
        }
        match result {
            Ok(m) => {
                self.stamp("Completed", completed_event, m.as_str());
            },
            Err(m) => {
                if labels::is_recoverable_transfer_interruption(m.as_str()) {
                    self.stamp("Paused", "paused", m.as_str());
                } else {
                    self.stamp("Failed", "failed", m.as_str());
                }
            },
        }
    }

    /// Shows how a trial run ended.
    pub fn finish_smoke(&mut self, result: &Result<(), String>)
        ensures
            final(self)@ == (match crate::wifi_chunk::unit_view(*result) {
                Ok(_) => old(self)@.stamped(
                    "Completed"@,
                    "completed"@,
                    "desktop worker smoke completed"@,
                ),
                Err(m) => old(self)@.stamped("Failed"@, "failed"@, m),
            }),
    {
        match result {
            Ok(_) => {
                self.stamp("Completed", "completed", "desktop worker smoke completed");
            },
            Err(m) => {
                self.stamp("Failed", "failed", m.as_str());
            },
        }
    }

    /// Shows that a pull over ADB started.
    pub fn note_pull_started(&mut self, size_bytes: u64, remote_path: &str, local_root: &str)
        ensures
            final(self)@ == old(self)@.pull_started(size_bytes, remote_path@, local_root@),
    {
        self.stamp("Running", "adb-pull-started", "ADB pull started");
        self.current_file = 1;
        self.total_files = 1;
        self.bytes_scanned = size_bytes;
        self.relative_path = remote_path.to_string();
        self.remote_path = local_root.to_string();
    }

    /// Shows that a pull over ADB is done, with what the command said.
    pub fn note_pull_completed(&mut self, size_bytes: u64, output: &str, verified: bool)
        ensures
            final(self)@ == old(self)@.pull_completed(size_bytes, output@, verified),
    {
        self.pushed_files = 1;
        self.bytes_pushed = size_bytes;
        self.last_event = "adb-pull-completed".to_string();
        let mut m = output.to_string();
        if verified {
            m.append("\nADB verify completed");
        }
        self.last_message = m;
    }
}

/// What a push over ADB tells, as it is shown.
pub open spec fn push_shown(p: crate::adb_push::ProgressView) -> ProgressView {
    ProgressView {
        current_file: p.current_file,
        total_files: p.total_files,
        pushed_files: p.pushed_files,
        skipped_files: p.skipped_files,
        pushed_chunks: p.pushed_chunks,
        skipped_chunks: p.skipped_chunks,
        bytes_scanned: p.bytes_scanned,
        bytes_pushed: p.bytes_pushed,
        relative_path: p.relative_path,
        remote_path: p.remote_path,
        last_event: p.event,
        last_message: p.message,
    }
}

/// What a push over ADB tells, as it is shown.
pub fn show_push(p: &AdbPushProgress) -> (r: CardProgress)
    ensures
        r@ == push_shown(p@),
{
    CardProgress {
        current_file: p.current_file,
        total_files: p.total_files,
        pushed_files: p.pushed_files,
        skipped_files: p.skipped_files,
        pushed_chunks: p.pushed_chunks,
        skipped_chunks: p.skipped_chunks,
        bytes_scanned: p.bytes_scanned,
        bytes_pushed: p.bytes_pushed,
        relative_path: p.relative_path.clone(),
        remote_path: p.remote_path.clone(),
        last_event: p.event.clone(),
        last_message: p.message.clone(),
    }
}

/// Something that one of two lanes tells.
#[derive(Debug, PartialEq, Eq)]
pub enum DualNote {
    /// A file of so many bytes is begun.
    Started { size_bytes: u64, relative_path: String, remote_path: String, event: String },
    /// A chunk was skipped or pushed, or neither.
    Progress {
        relative_path: String,
        remote_path: String,
        event: String,
        message: String,
        length: u64,
        skipped: bool,
        pushed: bool,
    },
    /// A file is done.
    Finished { relative_path: String, remote_path: String, skipped: bool },
    /// Something else is being done.
    Stage { event: String, message: String },
}

pub enum DualNoteView {
    Started {
        size_bytes: u64,
        relative_path: Seq<char>,
        remote_path: Seq<char>,
        event: Seq<char>,
    },
    Progress {
        relative_path: Seq<char>,
        remote_path: Seq<char>,
        event: Seq<char>,
        message: Seq<char>,
        length: u64,
        skipped: bool,
        pushed: bool,
    },
    Finished { relative_path: Seq<char>, remote_path: Seq<char>, skipped: bool },
    Stage { event: Seq<char>, message: Seq<char> },
}

impl View for DualNote {
    type V = DualNoteView;

    open spec fn view(&self) -> DualNoteView {
        match self {
            DualNote::Started { size_bytes, relative_path, remote_path, event } =>
                DualNoteView::Started {
                size_bytes: *size_bytes,
                relative_path: relative_path@,
                remote_path: remote_path@,
                event: event@,
            },
            DualNote::Progress {
                relative_path,
                remote_path,
                event,
                message,
                length,
                skipped,
                pushed,
            } => DualNoteView::Progress {
                relative_path: relative_path@,
                remote_path: remote_path@,
                event: event@,
                message: message@,
                length: *length,
                skipped: *skipped,
                pushed: *pushed,
            },
            DualNote::Finished { relative_path, remote_path, skipped } => DualNoteView::Finished {
                relative_path: relative_path@,
                remote_path: remote_path@,
                skipped: *skipped,
            },
            DualNote::Stage { event, message } => DualNoteView::Stage {
                event: event@,
                message: message@,
            },
        }
    }
}

/// How far two lanes have come together.
#[derive(Debug)]
pub struct DualTransferAggregate {
    total_files: usize,
    total_bytes: u64,
    pushed_files: usize,
    skipped_files: usize,
    pushed_chunks: u64,
    skipped_chunks: u64,
    bytes_scanned: u64,
    bytes_pushed: u64,
    relative_path: String,
    remote_path: String,
    last_event: String,
    last_message: String,
}

pub struct AggregateView {
    pub total_files: int,
    pub total_bytes: int,
    pub pushed_files: int,
    pub skipped_files: int,
    pub pushed_chunks: int,
    pub skipped_chunks: int,
    pub bytes_scanned: int,
    pub bytes_pushed: int,
    pub relative_path: Seq<char>,
    pub remote_path: Seq<char>,
    pub last_event: Seq<char>,
    pub last_message: Seq<char>,
}

impl View for DualTransferAggregate {
    type V = AggregateView;

    closed spec fn view(&self) -> AggregateView {
        AggregateView {
            total_files: self.total_files as int,
            total_bytes: self.total_bytes as int,
            pushed_files: self.pushed_files as int,
            skipped_files: self.skipped_files as int,
            pushed_chunks: self.pushed_chunks as int,
            skipped_chunks: self.skipped_chunks as int,
            bytes_scanned: self.bytes_scanned as int,
            bytes_pushed: self.bytes_pushed as int,
            relative_path: self.relative_path@,
            remote_path: self.remote_path@,
            last_event: self.last_event@,
            last_message: self.last_message@,
        }
    }
}

/// One more, as far as the counter goes.
pub open spec fn one_more(n: int, most: int) -> int {
    if n < most {
        n + 1
    } else {
        n
    }
}

impl AggregateView {
    /// The byte counts never pass the bytes there are.
    pub open spec fn wf(self) -> bool {
        &&& 0 <= self.bytes_scanned <= self.total_bytes
        &&& 0 <= self.bytes_pushed <= self.total_bytes
        &&& self.pushed_files >= 0 && self.skipped_files >= 0
        &&& self.total_files >= 0
    }

    /// What follows a note of one of the lanes.
    pub open spec fn noted(self, note: DualNoteView) -> AggregateView {
        match note {
            DualNoteView::Started { size_bytes, relative_path, remote_path, event } =>
                AggregateView {
                bytes_scanned: sizing::smaller(self.bytes_scanned + size_bytes, self.total_bytes),
                relative_path,
                remote_path,
                last_event: event,
                last_message: "starting "@ + relative_path,
                ..self
            },
            DualNoteView::Progress {
                relative_path,
                remote_path,
                event,
                message,
                length,
                skipped,
                pushed,
            } => AggregateView {
                relative_path,
                remote_path,
                last_event: event,
                last_message: message,
                skipped_chunks: if skipped {
                    one_more(self.skipped_chunks, u64::MAX as int)
                } else {
                    self.skipped_chunks
                },
                pushed_chunks: if pushed {
                    one_more(self.pushed_chunks, u64::MAX as int)
                } else {
                    self.pushed_chunks
                },
                bytes_pushed: if pushed {
                    sizing::smaller(self.bytes_pushed + length, self.total_bytes)
                } else {
                    self.bytes_pushed
                },
                ..self
            },
            DualNoteView::Finished { relative_path, remote_path, skipped } => AggregateView {
                relative_path,
                remote_path,
                last_event: if skipped {
                    "dual-file-skipped"@
                } else {
                    "dual-file-completed"@
                },
                last_message: relative_path + (if skipped {
                    " skipped"@
                } else {
                    " completed"@
                }),
                skipped_files: if skipped {
                    one_more(self.skipped_files, usize::MAX as int)
                } else {
                    self.skipped_files
                },
                pushed_files: if skipped {
                    self.pushed_files
                } else {
                    one_more(self.pushed_files, usize::MAX as int)
                },
                ..self
            },
            DualNoteView::Stage { event, message } => AggregateView {
                last_event: event,
                last_message: message,
                ..self
            },
        }
    }

    /// What is shown.
    pub open spec fn shown(self) -> ProgressView {
        ProgressView {
            current_file: sizing::smaller(
                self.pushed_files + self.skipped_files + 1,
                sizing::larger(self.total_files, 1),
            ),
            total_files: self.total_files,
            pushed_files: self.pushed_files,
            skipped_files: self.skipped_files,
            pushed_chunks: self.pushed_chunks,
            skipped_chunks: self.skipped_chunks,
            bytes_scanned: self.bytes_scanned,
            bytes_pushed: self.bytes_pushed,
            relative_path: self.relative_path,
            remote_path: self.remote_path,
            last_event: self.last_event,
            last_message: self.last_message,
        }
    }
}

/// Nothing done yet.
pub open spec fn fresh_aggregate(total_files: int, total_bytes: int) -> AggregateView {
    AggregateView {
        total_files,
        total_bytes,
        pushed_files: 0,
        skipped_files: 0,
        pushed_chunks: 0,
        skipped_chunks: 0,
        bytes_scanned: 0,
        bytes_pushed: 0,
        relative_path: Seq::empty(),
        remote_path: Seq::empty(),
        last_event: Seq::empty(),
        last_message: Seq::empty(),
    }
}

/// No note takes the byte counts beyond the bytes there are or lowers a count, and the file that is
/// shown as current is one of those there are, or the first where there are none.
pub proof fn lemma_notes_only_add(v: AggregateView, note: DualNoteView)
    requires
        v.wf(),
    ensures
        v.noted(note).wf(),
        v.noted(note).bytes_scanned >= v.bytes_scanned,
        v.noted(note).bytes_pushed >= v.bytes_pushed,
        v.noted(note).pushed_chunks >= v.pushed_chunks,
        v.noted(note).skipped_chunks >= v.skipped_chunks,
        v.noted(note).pushed_files >= v.pushed_files,
        v.noted(note).skipped_files >= v.skipped_files,
        1 <= v.shown().current_file <= sizing::larger(v.total_files, 1),
{
}

impl DualTransferAggregate {
    /// Nothing done yet.
    pub fn new(total_files: usize, total_bytes: u64) -> (r: Self)
        ensures
            r@ == fresh_aggregate(total_files as int, total_bytes as int),
            r@.wf(),
    {
        let a = DualTransferAggregate {
            total_files,
            total_bytes,
            pushed_files: 0,
            skipped_files: 0,
            pushed_chunks: 0,
            skipped_chunks: 0,
            bytes_scanned: 0,
            bytes_pushed: 0,
            relative_path: String::new(),
            remote_path: String::new(),
            last_event: String::new(),
            last_message: String::new(),
        };
        assert(a.relative_path@ =~= Seq::empty());
        assert(a.remote_path@ =~= Seq::empty());
        assert(a.last_event@ =~= Seq::empty());
        assert(a.last_message@ =~= Seq::empty());
        a
    }

    fn capped(&self, sum: u64, more: u64) -> (r: u64)
        ensures
            r == sizing::smaller(sum + more, self@.total_bytes),
    {
        match sum.checked_add(more) {
            Some(s) => if s < self.total_bytes {
                s
            } else {
                self.total_bytes
            },
            None => self.total_bytes,
        }
    }

    /// Notes that a file is begun.
    pub fn note_dual_file_started(
        &mut self,
        size_bytes: u64,
        relative_path: &str,
        remote_path: &str,
        event: &str,
    )
        ensures
            final(self)@ == old(self)@.noted(
                DualNoteView::Started {
                    size_bytes,
                    relative_path: relative_path@,
                    remote_path: remote_path@,
                    event: event@,
                },
            ),
    {
        self.bytes_scanned = self.capped(self.bytes_scanned, size_bytes);
        self.relative_path = relative_path.to_string();
        self.remote_path = remote_path.to_string();
        self.last_event = event.to_string();
        let mut m = "starting ".to_string();
        m.append(relative_path);
        self.last_message = m;
    }

    /// Notes what became of a chunk.
    pub fn note_dual_adb_progress(
        &mut self,
        relative_path: &str,
        remote_path: &str,
        event: &str,
        message: &str,
        chunk_length: u64,
        was_skipped: bool,
        was_pushed: bool,
    )
        ensures
            final(self)@ == old(self)@.noted(
                DualNoteView::Progress {
                    relative_path: relative_path@,
                    remote_path: remote_path@,
                    event: event@,
                    message: message@,
                    length: chunk_length,
                    skipped: was_skipped,
                    pushed: was_pushed,
                },
            ),
    {
        self.relative_path = relative_path.to_string();
        self.remote_path = remote_path.to_string();
        self.last_event = event.to_string();
        self.last_message = message.to_string();
        if was_skipped && self.skipped_chunks < u64::MAX {
            self.skipped_chunks += 1;
        }
        if was_pushed {
            if self.pushed_chunks < u64::MAX {
                self.pushed_chunks += 1;
            }
            self.bytes_pushed = self.capped(self.bytes_pushed, chunk_length);
        }
    }

    /// Notes that a file is done.
    pub fn note_dual_file_finished(
        &mut self,
        relative_path: &str,
        remote_path: &str,
        was_skipped: bool,
    )
        ensures
            final(self)@ == old(self)@.noted(
                DualNoteView::Finished {
                    relative_path: relative_path@,
                    remote_path: remote_path@,
                    skipped: was_skipped,
                },
            ),
    {
        self.relative_path = relative_path.to_string();
        self.remote_path = remote_path.to_string();
        let mut m = relative_path.to_string();
        if was_skipped {
            self.last_event = "dual-file-skipped".to_string();
            m.append(" skipped");
            if self.skipped_files < usize::MAX {
                self.skipped_files += 1;
            }
        } else {
            self.last_event = "dual-file-completed".to_string();
            m.append(" completed");
            if self.pushed_files < usize::MAX {
                self.pushed_files += 1;
            }
        }
        self.last_message = m;
    }

    /// Notes what is being done.
    pub fn note_dual_stage(&mut self, event: &str, message: &str)
        ensures
            final(self)@ == old(self)@.noted(
                DualNoteView::Stage { event: event@, message: message@ },
            ),
    {
        self.last_event = event.to_string();
        self.last_message = message.to_string();
    }

    /// Takes in a note of one of the lanes.
    pub fn note(&mut self, note: &DualNote)
        ensures
            final(self)@ == old(self)@.noted(note@),
            old(self)@.wf() ==> final(self)@.wf(),
    {
        match note {
            DualNote::Started { size_bytes, relative_path, remote_path, event } => {
                self.note_dual_file_started(
                    *size_bytes,
                    relative_path.as_str(),
                    remote_path.as_str(),
                    event.as_str(),
                );
            },
            DualNote::Progress {
                relative_path,
                remote_path,
                event,
                message,
                length,
                skipped,
                pushed,
            } => {
                self.note_dual_adb_progress(
                    relative_path.as_str(),
                    remote_path.as_str(),
                    event.as_str(),
                    message.as_str(),
                    *length,
                    *skipped,
                    *pushed,
                );
            },
            DualNote::Finished { relative_path, remote_path, skipped } => {
                self.note_dual_file_finished(
                    relative_path.as_str(),
                    remote_path.as_str(),
                    *skipped,
                );
            },
            DualNote::Stage { event, message } => {
                self.note_dual_stage(event.as_str(), message.as_str());
            },
        }
    }

    /// What is shown of both lanes together.
    pub fn sync_dual_card_from_aggregate(&self) -> (r: CardProgress)
        ensures
            r@ == self@.shown(),
    {
        let most: usize = if self.total_files < 1 {
            1
        } else {
            self.total_files
        };
        let done: u128 = self.pushed_files as u128 + self.skipped_files as u128 + 1;
        let current: usize = if done < most as u128 {
            done as usize
        } else {
            most
        };
        CardProgress {
            current_file: current,
            total_files: self.total_files,
            pushed_files: self.pushed_files,
            skipped_files: self.skipped_files,
            pushed_chunks: self.pushed_chunks,
            skipped_chunks: self.skipped_chunks,
            bytes_scanned: self.bytes_scanned,
            bytes_pushed: self.bytes_pushed,
            relative_path: self.relative_path.clone(),
            remote_path: self.remote_path.clone(),
            last_event: self.last_event.clone(),
            last_message: self.last_message.clone(),
        }
    }
}

/// When a worker ended the task is left as it is if it was cancelled or all went well; it is paused after
/// something that a resumed transfer can get over, and fails with the complaint after anything else. The
/// card says so, and keeps all numbers.
pub proof fn lemma_worker_end_is_settled(
    card: CardView,
    cancelled: bool,
    result: Result<Seq<char>, Seq<char>>,
    event: Seq<char>,
)
    ensures
        ({
            let s = settlement(cancelled, result);
            let c = card.settled(cancelled, result, event);
            &&& cancelled ==> s is Leave && c.state == "Cancelled"@ && c.progress.last_event
                == "cancelled"@ && c.progress.last_message == "task cancelled by user"@
            &&& !cancelled && result is Ok ==> s is Leave && c.state == "Completed"@
                && c.progress.last_event == event && c.progress.last_message == result->Ok_0
            &&& !cancelled && result is Err && labels::is_interruption(result->Err_0) ==> s
                is Pause && c.state == "Paused"@ && c.progress.last_event == "paused"@
                && c.progress.last_message == result->Err_0
            &&& !cancelled && result is Err && !labels::is_interruption(result->Err_0) ==> s
                == SettlementView::Fail(result->Err_0) && c.state == "Failed"@
                && c.progress.last_event == "failed"@ && c.progress.last_message == result->Err_0
            &&& c.task_id == card.task_id && c.serial == card.serial && c.progress.pushed_files
                == card.progress.pushed_files && c.progress.bytes_pushed
                == card.progress.bytes_pushed && c.progress.pushed_chunks
                == card.progress.pushed_chunks && c.progress.skipped_files
                == card.progress.skipped_files && c.progress.skipped_chunks
                == card.progress.skipped_chunks && c.progress.total_files
                == card.progress.total_files
        }),
{
}

/// The numbers of two lanes together grow by what their notes tell: a started file by its bytes, a pushed
/// chunk by itself and its bytes, a skipped chunk by itself, a finished file by itself, as pushed or as
/// skipped. The bytes never pass those there are.
pub proof fn lemma_notes_count_what_they_tell(
    v: AggregateView,
    size: u64,
    length: u64,
    skipped: bool,
    pushed: bool,
    path: Seq<char>,
    remote: Seq<char>,
    event: Seq<char>,
    message: Seq<char>,
)
    requires
        v.wf(),
        v.pushed_chunks < u64::MAX,
        v.skipped_chunks < u64::MAX,
        v.pushed_files < usize::MAX,
        v.skipped_files < usize::MAX,
    ensures
        ({
            let a = v.noted(
                DualNoteView::Started {
                    size_bytes: size,
                    relative_path: path,
                    remote_path: remote,
                    event,
                },
            );
            let b = v.noted(
                DualNoteView::Progress {
                    relative_path: path,
                    remote_path: remote,
                    event,
                    message,
                    length,
                    skipped,
                    pushed,
                },
            );
            let c = v.noted(
                DualNoteView::Finished { relative_path: path, remote_path: remote, skipped },
            );
            let d = v.noted(DualNoteView::Stage { event, message });
            &&& v.bytes_scanned + size <= v.total_bytes ==> a.bytes_scanned == v.bytes_scanned
                + size
            &&& v.bytes_scanned + size > v.total_bytes ==> a.bytes_scanned == v.total_bytes
            &&& a.bytes_pushed == v.bytes_pushed && a.pushed_files == v.pushed_files
                && a.skipped_files == v.skipped_files && a.pushed_chunks == v.pushed_chunks
                && a.skipped_chunks == v.skipped_chunks
            &&& b.pushed_chunks == v.pushed_chunks + (if pushed {
                1int
            } else {
                0
            })
            &&& b.skipped_chunks == v.skipped_chunks + (if skipped {
                1int
            } else {
                0
            })
            &&& pushed && v.bytes_pushed + length <= v.total_bytes ==> b.bytes_pushed
                == v.bytes_pushed + length
            &&& pushed && v.bytes_pushed + length > v.total_bytes ==> b.bytes_pushed
                == v.total_bytes
            &&& !pushed ==> b.bytes_pushed == v.bytes_pushed
            &&& b.pushed_files == v.pushed_files && b.skipped_files == v.skipped_files
                && b.bytes_scanned == v.bytes_scanned
            &&& skipped ==> c.skipped_files == v.skipped_files + 1 && c.pushed_files
                == v.pushed_files && c.last_event == "dual-file-skipped"@
            &&& !skipped ==> c.pushed_files == v.pushed_files + 1 && c.skipped_files
                == v.skipped_files && c.last_event == "dual-file-completed"@
            &&& c.pushed_chunks == v.pushed_chunks && c.skipped_chunks == v.skipped_chunks
                && c.bytes_pushed == v.bytes_pushed && c.bytes_scanned == v.bytes_scanned
            &&& d == (AggregateView { last_event: event, last_message: message, ..v })
            &&& a.relative_path == path && b.relative_path == path && c.relative_path == path
                && a.remote_path == remote && b.remote_path == remote && c.remote_path == remote
                && a.last_event == event && b.last_event == event && b.last_message == message
        }),
{
}

/// What is shown are the numbers as they are; the current file is the one after those that are through, and
/// no more than there are.
pub proof fn lemma_numbers_are_shown_as_they_are(v: AggregateView, p: crate::adb_push::ProgressView)
    requires
        v.wf(),
    ensures
        ({
            let s = v.shown();
            let through = v.pushed_files + v.skipped_files;
            &&& through < v.total_files ==> s.current_file == through + 1
            &&& through >= v.total_files > 0 ==> s.current_file == v.total_files
            &&& v.total_files == 0 ==> s.current_file == 1
            &&& s.total_files == v.total_files && s.pushed_files == v.pushed_files
                && s.skipped_files == v.skipped_files && s.pushed_chunks == v.pushed_chunks
                && s.skipped_chunks == v.skipped_chunks && s.bytes_scanned == v.bytes_scanned
                && s.bytes_pushed == v.bytes_pushed && s.relative_path == v.relative_path
                && s.remote_path == v.remote_path && s.last_event == v.last_event && s.last_message
                == v.last_message
        }),
        ({
            let s = push_shown(p);
            &&& s.current_file == p.current_file && s.total_files == p.total_files && s.pushed_files
                == p.pushed_files && s.skipped_files == p.skipped_files && s.pushed_chunks
                == p.pushed_chunks && s.skipped_chunks == p.skipped_chunks && s.bytes_scanned
                == p.bytes_scanned && s.bytes_pushed == p.bytes_pushed
            &&& s.relative_path == p.relative_path && s.remote_path == p.remote_path && s.last_event
                == p.event && s.last_message == p.message
        }),
{
}

/// A card begins with nothing counted, for its own task, device and place.
pub proof fn lemma_card_begins_with_nothing(
    task_id: Seq<char>,
    serial: Seq<char>,
    remote_path: Seq<char>,
)
    ensures
        ({
            let c = fresh_card(task_id, serial, remote_path);
            &&& c.task_id == task_id
            &&& c.serial == serial
            &&& c.progress.remote_path == remote_path
            &&& c.state == "Running"@
            &&& c.progress.last_event == "started"@
            &&& c.progress.current_file == 0 && c.progress.total_files == 0
            &&& c.progress.pushed_files == 0 && c.progress.skipped_files == 0
            &&& c.progress.pushed_chunks == 0 && c.progress.skipped_chunks == 0
            &&& c.progress.bytes_scanned == 0 && c.progress.bytes_pushed == 0
        }),
{
}

/// A pull over ADB is one file: it is scanned whole as it starts and counted whole as it is
/// completed, and nothing else is counted.
pub proof fn lemma_pull_is_counted_whole(
    c: CardView,
    size_bytes: u64,
    remote_path: Seq<char>,
    local_root: Seq<char>,
    output: Seq<char>,
    verified: bool,
)
    ensures
        ({
            let s = c.pull_started(size_bytes, remote_path, local_root);
            let d = s.pull_completed(size_bytes, output, verified);
            &&& s.state == "Running"@ && d.state == s.state
            &&& s.task_id == c.task_id && d.task_id == c.task_id
            &&& s.serial == c.serial && d.serial == c.serial
            &&& s.progress.current_file == 1 && s.progress.total_files == 1
            &&& s.progress.bytes_scanned == size_bytes
            &&& s.progress.relative_path == remote_path
            &&& s.progress.remote_path == local_root
            &&& s.progress.bytes_pushed == c.progress.bytes_pushed
            &&& s.progress.pushed_files == c.progress.pushed_files
            &&& d.progress.pushed_files == 1
            &&& d.progress.bytes_pushed == size_bytes
            &&& d.progress.bytes_scanned == size_bytes
            &&& d.progress.skipped_files == c.progress.skipped_files
            &&& d.progress.pushed_chunks == c.progress.pushed_chunks
            &&& d.progress.skipped_chunks == c.progress.skipped_chunks
            &&& text::starts_with(d.progress.last_message, output)
            &&& d.progress.last_message == output <==> !verified
        }),
{
    let s = c.pull_started(size_bytes, remote_path, local_root);
    let d = s.pull_completed(size_bytes, output, verified);
    reveal_strlit("\nADB verify completed");
    assert(d.progress.last_message.take(output.len() as int) =~= output);
    if verified {
        assert(d.progress.last_message.len() > output.len());
    }
}

} // verus!
