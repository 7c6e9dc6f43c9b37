//! Pushing files to a device in chunks: what to do next, and what is told of the progress.

use crate::adb_command;
use crate::adb_command::AdbErrorView;
use crate::adb_device::AdbDiscoveryError;
use crate::checkpoint;
use crate::decimal;
use crate::engine_task;
use crate::models;
use crate::order;
use crate::text;
use std::sync::Arc;
use std::sync::atomic::AtomicBool;
use vstd::prelude::*;

verus! {

/// What lets a transfer be paused from outside.
#[derive(Debug)]
pub struct AdbTransferControl {
    pause_requested: Arc<AtomicBool>,
}

impl Clone for AdbTransferControl {
    fn clone(&self) -> (r: Self)
        ensures
            r.flag() == self.flag(),
    {
        AdbTransferControl { pause_requested: self.pause_requested.clone() }
    }
}

impl AdbTransferControl {
    /// The flag that says whether a pause was asked for.
    pub closed spec fn flag(&self) -> Arc<AtomicBool> {
        self.pause_requested
    }

    /// A control that reads the given flag.
    pub fn new(pause_requested: Arc<AtomicBool>) -> (r: Self)
        ensures
            r.flag() == pause_requested,
    {
        AdbTransferControl { pause_requested }
    }

    /// What the flag holds now. Others may set it at any time, so nothing can be said of the
    /// answer; what is done with it is said by [`check_pause`].
    pub fn is_paused(&self) -> (r: bool) {
        self.pause_requested.load(std::sync::atomic::Ordering::Relaxed)
    }
}

/// What is complained of when a pause was asked for.
pub open spec fn pause_error() -> AdbErrorView {
    AdbErrorView::Paused("transfer paused at chunk boundary"@)
}

/// An error where a pause was asked for.
pub fn check_pause(paused: bool) -> (r: Result<(), AdbDiscoveryError>)
    ensures
        match r {
            Ok(_) => !paused,
            Err(e) => paused && e@ == pause_error(),
        },
{
    if paused {
        return Err(
            AdbDiscoveryError::Paused("transfer paused at chunk boundary".to_string()),
        );
    }
    Ok(())
}

/// How far a push has come.
#[derive(Debug, PartialEq, Eq)]
pub struct AdbPushProgress {
    pub event: String,
    pub relative_path: String,
    pub remote_path: String,
    pub file_index: usize,
    pub chunk_index: Option<u32>,
    pub chunk_length: u64,
    pub current_file: usize,
    pub total_files: usize,
    pub pushed_files: usize,
    pub skipped_files: usize,
    pub pushed_chunks: u64,
    pub skipped_chunks: u64,
    pub bytes_scanned: u64,
    pub bytes_pushed: u64,
    pub message: String,
}

pub struct ProgressView {
    pub event: Seq<char>,
    pub relative_path: Seq<char>,
    pub remote_path: Seq<char>,
    pub file_index: int,
    pub chunk_index: Option<u32>,
    pub chunk_length: int,
    pub current_file: int,
    pub total_files: int,
    pub pushed_files: int,
    pub skipped_files: int,
    pub pushed_chunks: int,
    pub skipped_chunks: int,
    pub bytes_scanned: int,
    pub bytes_pushed: int,
    pub message: Seq<char>,
}

impl View for AdbPushProgress {
    type V = ProgressView;

    open spec fn view(&self) -> ProgressView {
        ProgressView {
            event: self.event@,
            relative_path: self.relative_path@,
            remote_path: self.remote_path@,
            file_index: self.file_index as int,
            chunk_index: self.chunk_index,
            chunk_length: self.chunk_length as int,
            current_file: self.current_file as int,
            total_files: self.total_files as int,
            pushed_files: self.pushed_files as int,
            skipped_files: self.skipped_files as int,
            pushed_chunks: self.pushed_chunks as int,
            skipped_chunks: self.skipped_chunks as int,
            bytes_scanned: self.bytes_scanned as int,
            bytes_pushed: self.bytes_pushed as int,
            message: self.message@,
        }
    }
}

/// A file to push.
#[derive(Debug, PartialEq, Eq)]
pub struct PushFile {
    pub local_path: String,
    pub relative_path: String,
    pub size_bytes: u64,
}

pub struct PushFileView {
    pub local_path: Seq<char>,
    pub relative_path: Seq<char>,
    pub size_bytes: u64,
}

impl View for PushFile {
    type V = PushFileView;

    open spec fn view(&self) -> PushFileView {
        PushFileView {
            local_path: self.local_path@,
            relative_path: self.relative_path@,
            size_bytes: self.size_bytes,
        }
    }
}

impl Clone for PushFile {
    fn clone(&self) -> (r: Self)
        ensures
            r@ == self@,
    {
        PushFile {
            local_path: self.local_path.clone(),
            relative_path: self.relative_path.clone(),
            size_bytes: self.size_bytes,
        }
    }
}

/// The views of files.
pub open spec fn file_views(files: Seq<PushFile>) -> Seq<PushFileView> {
    files.map_values(|f: PushFile| f@)
}

/// What stands at a local path.
#[derive(Debug)]
pub enum LocalPath {
    /// A file, with its name where the path has one, and its size.
    File(Option<String>, u64),
    /// A directory, with the files below it in any order.
    Directory(Vec<PushFile>),
    /// Neither.
    Missing,
}

/// The relative paths of files.
pub open spec fn relative_paths(files: Seq<PushFileView>) -> Seq<Seq<char>> {
    files.map_values(|f: PushFileView| f.relative_path)
}

/// Whether `out` holds the files in the order of their relative paths.
pub open spec fn sorted_files(out: Seq<PushFileView>, files: Seq<PushFileView>) -> bool {
    exists|places: Seq<usize>|
        {
            &&& #[trigger] order::in_order(places, relative_paths(files))
            &&& out == places.map_values(|p: usize| files[p as int])
        }
}

/// The files to push for a local path: a directory's in the order of their relative paths.
pub fn collect_push_files(local_path: &str, found: &LocalPath) -> (r: Result<
    Vec<PushFile>,
    AdbDiscoveryError,
>)
    ensures
        match found {
            LocalPath::File(name, size) => r matches Ok(v) && file_views(v@) == seq![
                PushFileView {
                    local_path: local_path@,
                    relative_path: text::or_else(text::opt_view(*name), "."@),
                    size_bytes: *size,
                },
            ],
            LocalPath::Directory(files) => r matches Ok(v) && sorted_files(
                file_views(v@),
                file_views(files@),
            ),
            LocalPath::Missing => r matches Err(e) && e@ == AdbErrorView::CommandFailed(
                "local path does not exist: "@ + local_path@,
            ),
        },
{
    match found {
        LocalPath::File(name, size) => {
            let mut out: Vec<PushFile> = Vec::new();
            let file = PushFile {
                local_path: local_path.to_string(),
                relative_path: text::or_other(text::borrow_opt(name), "."),
                size_bytes: *size,
            };
            out.push(file);
            assert(file_views(out@) =~= seq![file@]);
            Ok(out)
        },
        LocalPath::Directory(files) => Ok(sort_push_files(files)),
        LocalPath::Missing => Err(
            AdbDiscoveryError::CommandFailed(
                checkpoint::about("local path does not exist: ", local_path),
            ),
        ),
    }
}

/// The files in the order of their relative paths.
pub fn sort_push_files(files: &Vec<PushFile>) -> (r: Vec<PushFile>)
    ensures
        sorted_files(file_views(r@), file_views(files@)),
{
    let mut paths: Vec<String> = Vec::new();
    let mut i: usize = 0;
    while i < files.len()
        invariant
            i <= files.len(),
            paths@.len() == i,
            forall|k: int| 0 <= k < i ==> (#[trigger] paths@[k])@ == files@[k].relative_path@,
        decreases files.len() - i,
    {
        paths.push(files[i].relative_path.clone());
        i += 1;
    }
    assert(text::views(paths@) =~= relative_paths(file_views(files@)));
    let places = order::sorted_places(&paths);
    let mut out: Vec<PushFile> = Vec::new();
    i = 0;
    while i < places.len()
        invariant
            i <= places.len(),
            out@.len() == i,
            order::in_order(places@, relative_paths(file_views(files@))),
            forall|k: int| 0 <= k < i ==> (#[trigger] out@[k])@ == files@[places@[k] as int]@,
        decreases places.len() - i,
    {
        assert(relative_paths(file_views(files@)).len() == files@.len());
        out.push(files[places[i]].clone());
        i += 1;
    }
    assert(file_views(out@) =~= places@.map_values(|p: usize| file_views(files@)[p as int]));
    out
}

/// Where a push stands within a file.
#[derive(Debug, Clone, Copy, PartialEq, Eq, Structural)]
pub enum PushStage {
    /// The size of the file on the device is to be asked for.
    FileSize,
    /// The directories on the device are to be made.
    Directories,
    /// The size of a chunk on the device is to be asked for.
    ChunkSize,
    /// The bytes of a chunk that is there already are to be passed over.
    SkipChunk,
    /// A chunk is to be pushed.
    PushChunk,
    /// The chunks are to be put together.
    Assemble,
    /// All is done.
    Done,
}

/// What to do next.
#[derive(Debug)]
pub enum PushStep {
    /// Run the command, and tell the size that it gives.
    AskSize(Vec<String>),
    /// Run the command.
    Run(Vec<String>),
    /// Pass over so many bytes of the local file.
    PassOver { local_path: String, length: u64 },
    /// Write the next bytes of the local file out as a chunk, and push it.
    Push {
        local_path: String,
        chunk_index: u64,
        length: u64,
        remote_chunk: String,
    },
    /// Nothing; the text says what was done.
    Finished(String),
}

pub enum PushStepView {
    AskSize(Seq<Seq<char>>),
    Run(Seq<Seq<char>>),
    PassOver { local_path: Seq<char>, length: int },
    Push {
        local_path: Seq<char>,
        chunk_index: int,
        length: int,
        remote_chunk: Seq<char>,
    },
    Finished(Seq<char>),
}

impl View for PushStep {
    type V = PushStepView;

    open spec fn view(&self) -> PushStepView {
        match self {
            PushStep::AskSize(args) => PushStepView::AskSize(text::views(args@)),
            PushStep::Run(args) => PushStepView::Run(text::views(args@)),
            PushStep::PassOver { local_path, length } => PushStepView::PassOver {
                local_path: local_path@,
                length: *length as int,
            },
            PushStep::Push { local_path, chunk_index, length, remote_chunk } => PushStepView::Push {
                local_path: local_path@,
                chunk_index: *chunk_index as int,
                length: *length as int,
                remote_chunk: remote_chunk@,
            },
            PushStep::Finished(s) => PushStepView::Finished(s@),
        }
    }
}

/// A push under way.
#[derive(Debug)]
pub struct AdbPushRun {
    serial: String,
    remote_path: String,
    below: bool,
    chunk_size: u64,
    files: Vec<PushFile>,
    stage: PushStage,
    file: usize,
    chunk: u64,
    pushed_files: usize,
    skipped_files: usize,
    pushed_chunks: u64,
    skipped_chunks: u64,
    bytes_scanned: u64,
    bytes_pushed: u64,
    outputs: Vec<String>,
}

/// What a push is about, where it stands and what it has done.
pub struct PushView {
    pub serial: Seq<char>,
    pub remote_path: Seq<char>,
    /// Whether the remote path is a directory that the files go below.
    pub below: bool,
    pub chunk_size: u64,
    pub files: Seq<PushFileView>,
    pub stage: PushStage,
    pub file: int,
    pub chunk: int,
    pub pushed_files: int,
    pub skipped_files: int,
    pub pushed_chunks: int,
    pub skipped_chunks: int,
    pub bytes_scanned: int,
    pub bytes_pushed: int,
    pub outputs: Seq<Seq<char>>,
}

/// The bytes of files, together.
pub open spec fn total_size(files: Seq<PushFileView>) -> int
    decreases files.len(),
{
    if files.len() == 0 {
        0
    } else {
        total_size(files.drop_last()) + files.last().size_bytes
    }
}

/// The chunks of files, together.
pub open spec fn total_chunks(files: Seq<PushFileView>, chunk_size: u64) -> int
    decreases files.len(),
{
    if files.len() == 0 {
        0
    } else {
        total_chunks(files.drop_last(), chunk_size) + models::chunk_count(
            files.last().size_bytes,
            chunk_size,
        )
    }
}

impl PushView {
    /// The size of the file at hand.
    pub open spec fn size(self) -> u64 {
        self.files[self.file].size_bytes
    }

    /// The chunks of the file at hand.
    pub open spec fn chunks(self) -> int {
        models::chunk_count(self.size(), self.chunk_size) as int
    }

    /// The length of the chunk at hand.
    pub open spec fn length(self) -> int {
        models::chunk_at(0, self.size(), self.chunk_size, self.chunk).length as int
    }

    /// Whether a chunk is at hand.
    pub open spec fn in_chunk(self) -> bool {
        self.stage == PushStage::ChunkSize || self.stage == PushStage::SkipChunk || self.stage
            == PushStage::PushChunk
    }

    /// The chunks of the file at hand that are dealt with.
    pub open spec fn chunks_done(self) -> int {
        if self.in_chunk() {
            self.chunk
        } else if self.stage == PushStage::Assemble {
            self.chunks()
        } else {
            0
        }
    }

    /// The bytes of the file at hand that are dealt with.
    pub open spec fn bytes_done(self) -> int {
        if self.in_chunk() {
            self.chunk * models::chunk_step(self.chunk_size)
        } else if self.stage == PushStage::Assemble {
            self.size() as int
        } else {
            0
        }
    }

    /// How many files were asked for.
    pub open spec fn seen(self) -> int {
        if self.stage == PushStage::FileSize || self.stage == PushStage::Done {
            self.file
        } else {
            self.file + 1
        }
    }

    /// Each file is either pushed or skipped, each file that was asked for counts as scanned, and
    /// no more chunks and bytes are counted than were dealt with.
    pub open spec fn wf(self) -> bool {
        &&& 0 <= self.file <= self.files.len()
        &&& self.stage == PushStage::Done <==> self.file == self.files.len()
        &&& self.in_chunk() ==> 0 <= self.chunk < self.chunks()
        &&& self.pushed_files >= 0 && self.skipped_files >= 0
        &&& self.pushed_files + self.skipped_files == self.file
        &&& self.bytes_scanned == total_size(self.files.take(self.seen()))
        &&& self.pushed_chunks >= 0 && self.skipped_chunks >= 0
        &&& self.pushed_chunks + self.skipped_chunks <= total_chunks(
            self.files.take(self.file),
            self.chunk_size,
        ) + self.chunks_done()
        &&& 0 <= self.bytes_pushed <= total_size(self.files.take(self.file)) + self.bytes_done()
        &&& total_size(self.files) + self.files.len() <= u64::MAX
    }

    /// Where the file at hand goes.
    pub open spec fn remote_file(self) -> Seq<char> {
        if self.below {
            adb_command::joined_path(self.remote_path, self.files[self.file].relative_path)
        } else {
            self.remote_path
        }
    }

    /// Where the chunk at hand goes.
    pub open spec fn remote_chunk(self) -> Seq<char> {
        adb_command::chunk_part(self.remote_file(), self.chunk_index())
    }

    /// The number of the chunk at hand, which wraps at 32 bits.
    pub open spec fn chunk_index(self) -> u32 {
        (self.chunk % 0x1_0000_0000) as u32
    }

    /// What is told of the file or chunk at hand.
    pub open spec fn progress(
        self,
        event: Seq<char>,
        chunk_index: Option<u32>,
        length: int,
        message: Seq<char>,
        at: PushView,
    ) -> ProgressView {
        ProgressView {
            event,
            relative_path: at.files[at.file].relative_path,
            remote_path: at.remote_file(),
            file_index: at.file,
            chunk_index,
            chunk_length: length,
            current_file: at.file + 1,
            total_files: at.files.len() as int,
            pushed_files: self.pushed_files,
            skipped_files: self.skipped_files,
            pushed_chunks: self.pushed_chunks,
            skipped_chunks: self.skipped_chunks,
            bytes_scanned: self.bytes_scanned,
            bytes_pushed: self.bytes_pushed,
            message,
        }
    }

    /// Goes on to the file after the one at hand.
    pub open spec fn next_file(self) -> PushView {
        PushView {
            file: self.file + 1,
            chunk: 0,
            stage: if self.file + 1 == self.files.len() {
                PushStage::Done
            } else {
                PushStage::FileSize
            },
            ..self
        }
    }

    /// Goes on to the chunk after the one at hand.
    pub open spec fn next_chunk(self) -> PushView {
        PushView {
            chunk: self.chunk + 1,
            stage: if self.chunk + 1 == self.chunks() {
                PushStage::Assemble
            } else {
                PushStage::ChunkSize
            },
            ..self
        }
    }

    /// Whether a size was asked for.
    pub open spec fn asks_size(self) -> bool {
        self.stage == PushStage::FileSize || self.stage == PushStage::ChunkSize
    }

    /// Whether something else was asked for.
    pub open spec fn asks_work(self) -> bool {
        !self.asks_size() && self.stage != PushStage::Done
    }

    /// A size was told: a file or chunk that is there in full is passed over.
    pub open spec fn told(self, size: Option<u64>) -> (PushView, Option<ProgressView>) {
        if self.stage == PushStage::FileSize {
            let scanned = PushView {
                bytes_scanned: self.bytes_scanned + self.size(),
                ..self
            };
            if size == Some(self.size()) {
                let after = PushView {
                    skipped_files: self.skipped_files + 1,
                    ..scanned
                }.next_file();
                (
                    after,
                    Some(
                        after.progress(
                            "file-skipped"@,
                            None,
                            self.size() as int,
                            "remote file already matches size"@,
                            self,
                        ),
                    ),
                )
            } else {
                (PushView { stage: PushStage::Directories, chunk: 0, ..scanned }, None)
            }
        } else if size matches Some(n) && n == self.length() {
            (PushView { stage: PushStage::SkipChunk, ..self }, None)
        } else {
            (PushView { stage: PushStage::PushChunk, ..self }, None)
        }
    }

    /// The work was done.
    pub open spec fn worked(self, output: Seq<char>) -> (PushView, Option<ProgressView>) {
        if self.stage == PushStage::Directories {
            (PushView { stage: PushStage::ChunkSize, chunk: 0, ..self }, None)
        } else if self.stage == PushStage::SkipChunk {
            let after = PushView {
                skipped_chunks: self.skipped_chunks + 1,
                ..self
            }.next_chunk();
            (
                after,
                Some(
                    after.progress(
                        "chunk-skipped"@,
                        Some(self.chunk_index()),
                        self.length(),
                        "chunk "@ + decimal::dec(self.chunk as nat) + " already exists"@,
                        self,
                    ),
                ),
            )
        } else if self.stage == PushStage::PushChunk {
            let after = PushView {
                pushed_chunks: self.pushed_chunks + 1,
                bytes_pushed: self.bytes_pushed + self.length(),
                outputs: self.outputs.push(text::trim(output)),
                ..self
            }.next_chunk();
            (
                after,
                Some(
                    after.progress(
                        "chunk-pushed"@,
                        Some(self.chunk_index()),
                        self.length(),
                        "chunk "@ + decimal::dec(self.chunk as nat) + " pushed"@,
                        self,
                    ),
                ),
            )
        } else {
            let after = PushView { pushed_files: self.pushed_files + 1, ..self }.next_file();
            (
                after,
                Some(
                    after.progress(
                        "file-completed"@,
                        None,
                        self.size() as int,
                        "file completed"@,
                        self,
                    ),
                ),
            )
        }
    }

    /// What was done, in words.
    pub open spec fn summary(self) -> Seq<char> {
        "ADB chunk push completed: scanned_files="@ + decimal::dec(
            (self.pushed_files + self.skipped_files) as nat,
        ) + " pushed_files="@ + decimal::dec(self.pushed_files as nat) + " skipped_files="@
            + decimal::dec(self.skipped_files as nat) + " pushed_chunks="@ + decimal::dec(
            self.pushed_chunks as nat,
        ) + " skipped_chunks="@ + decimal::dec(self.skipped_chunks as nat) + " bytes_scanned="@
            + decimal::dec(self.bytes_scanned as nat) + " bytes_pushed="@ + decimal::dec(
            self.bytes_pushed as nat,
        ) + "\n"@ + text::join(self.outputs, "\n"@)
    }

    /// What to do next, if no pause was asked for.
    pub open spec fn step(self) -> PushStepView {
        match self.stage {
            PushStage::FileSize => PushStepView::AskSize(
                adb_command::for_serial(
                    self.serial,
                    seq!["shell"@, adb_command::size_script(self.remote_file())],
                ),
            ),
            PushStage::Directories => PushStepView::Run(
                adb_command::for_serial(
                    self.serial,
                    seq!["shell"@, adb_command::mkdir_script(self.remote_file())],
                ),
            ),
            PushStage::ChunkSize => PushStepView::AskSize(
                adb_command::for_serial(
                    self.serial,
                    seq!["shell"@, adb_command::size_script(self.remote_chunk())],
                ),
            ),
            PushStage::SkipChunk => PushStepView::PassOver {
                local_path: self.files[self.file].local_path,
                length: self.length(),
            },
            PushStage::PushChunk => PushStepView::Push {
                local_path: self.files[self.file].local_path,
                chunk_index: self.chunk,
                length: self.length(),
                remote_chunk: self.remote_chunk(),
            },
            PushStage::Assemble => PushStepView::Run(
                adb_command::for_serial(
                    self.serial,
                    seq![
                        "shell"@,
                        adb_command::assemble_script(
                            self.remote_file(),
                            adb_command::chunk_dir(self.remote_file()),
                        ),
                    ],
                ),
            ),
            PushStage::Done => PushStepView::Finished(self.summary()),
        }
    }

    /// Whether a pause takes effect here: before a file, before a chunk, and before the chunks
    /// are put together.
    pub open spec fn at_boundary(self) -> bool {
        self.asks_size() || self.stage == PushStage::Assemble
    }
}

/// A push at its start.
pub open spec fn started(
    serial: Seq<char>,
    files: Seq<PushFileView>,
    below: bool,
    remote_path: Seq<char>,
    chunk_size: u64,
) -> PushView {
    PushView {
        serial,
        remote_path,
        below,
        chunk_size: if chunk_size == 0 {
            1
        } else {
            chunk_size
        },
        files,
        stage: if files.len() == 0 {
            PushStage::Done
        } else {
            PushStage::FileSize
        },
        file: 0,
        chunk: 0,
        pushed_files: 0,
        skipped_files: 0,
        pushed_chunks: 0,
        skipped_chunks: 0,
        bytes_scanned: 0,
        bytes_pushed: 0,
        outputs: Seq::empty(),
    }
}

impl View for AdbPushRun {
    type V = PushView;

    closed spec fn view(&self) -> PushView {
        PushView {
            serial: self.serial@,
            remote_path: self.remote_path@,
            below: self.below,
            chunk_size: self.chunk_size,
            files: file_views(self.files@),
            stage: self.stage,
            file: self.file as int,
            chunk: self.chunk as int,
            pushed_files: self.pushed_files as int,
            skipped_files: self.skipped_files as int,
            pushed_chunks: self.pushed_chunks as int,
            skipped_chunks: self.skipped_chunks as int,
            bytes_scanned: self.bytes_scanned as int,
            bytes_pushed: self.bytes_pushed as int,
            outputs: text::views(self.outputs@),
        }
    }
}

/// Whether the sizes of files can be counted in 64 bits, with one to spare for each file.
pub fn push_fits(files: &Vec<PushFile>) -> (r: bool)
    ensures
        r <==> total_size(file_views(files@)) + files@.len() <= u64::MAX,
{
    let ghost all = file_views(files@);
    let mut sum: u64 = 0;
    let mut i: usize = 0;
    assert(all.take(0) =~= Seq::<PushFileView>::empty());
    while i < files.len()
        invariant
            i <= files.len(),
            all == file_views(files@),
            sum == total_size(all.take(i as int)) + i,
        decreases files.len() - i,
    {
        assert(all.take(i + 1).drop_last() =~= all.take(i as int));
        assert(all[i as int] == files@[i as int]@);
        proof {
            lemma_total_grows(all, i + 1, all.len() as int);
            assert(all.take(all.len() as int) =~= all);
        }
        match sum.checked_add(files[i].size_bytes) {
            Some(s) => match s.checked_add(1) {
                Some(t) => {
                    sum = t;
                },
                None => {
                    return false;
                },
            },
            None => {
                return false;
            },
        }
        i += 1;
    }
    assert(all.take(all.len() as int) =~= all);
    true
}

/// More files have no fewer bytes and chunks.
pub proof fn lemma_total_grows(files: Seq<PushFileView>, a: int, b: int)
    requires
        0 <= a <= b <= files.len(),
    ensures
        0 <= total_size(files.take(a)) <= total_size(files.take(b)),
        forall|c: u64|
            0 <= #[trigger] total_chunks(files.take(a), c) <= total_chunks(files.take(b), c),
    decreases b,
{
    if b > a {
        lemma_total_grows(files, a, b - 1);
        assert(files.take(b).drop_last() =~= files.take(b - 1));
        assert forall|c: u64|
            0 <= #[trigger] total_chunks(files.take(a), c) <= total_chunks(files.take(b), c) by {
            assert(total_chunks(files.take(b - 1), c) <= total_chunks(files.take(b), c));
        }
    } else if a > 0 {
        lemma_total_grows(files, a - 1, a - 1);
        assert(files.take(a).drop_last() =~= files.take(a - 1));
        assert forall|c: u64| 0 <= #[trigger] total_chunks(files.take(a), c) by {
            assert(0 <= total_chunks(files.take(a - 1), c));
        }
    }
}

/// There are at most as many chunks as bytes, with one to spare for each file.
pub proof fn lemma_chunks_fit(files: Seq<PushFileView>, chunk_size: u64)
    ensures
        total_chunks(files, chunk_size) <= total_size(files) + files.len(),
    decreases files.len(),
{
    if files.len() > 0 {
        lemma_chunks_fit(files.drop_last(), chunk_size);
        lemma_count_fits(files.last().size_bytes, chunk_size);
    }
}

proof fn lemma_count_fits(size: u64, chunk_size: u64)
    ensures
        1 <= models::chunk_count(size, chunk_size) <= size + 1,
{
    let step = models::chunk_step(chunk_size);
    if size > 0 {
        assert(0 <= (size - 1) / step <= size - 1) by (nonlinear_arith)
            requires
                size > 0,
                step > 0,
        ;
    }
}

/// The bounds that keep the counters of a push within 64 bits.
proof fn lemma_push_bounds(v: PushView)
    requires
        v.wf(),
        v.stage != PushStage::Done,
    ensures
        v.files.take(v.file + 1).drop_last() == v.files.take(v.file),
        total_size(v.files.take(v.file + 1)) == total_size(v.files.take(v.file)) + v.size(),
        total_chunks(v.files.take(v.file + 1), v.chunk_size) == total_chunks(
            v.files.take(v.file),
            v.chunk_size,
        ) + v.chunks(),
        0 <= total_size(v.files.take(v.file)),
        total_size(v.files.take(v.file + 1)) + v.files.len() <= u64::MAX,
        total_chunks(v.files.take(v.file + 1), v.chunk_size) <= u64::MAX,
        0 <= total_chunks(v.files.take(v.file), v.chunk_size),
        v.chunks() >= 1,
        v.chunks_done() <= v.chunks(),
        v.in_chunk() ==> v.bytes_done() + v.length() <= v.size(),
        v.in_chunk() ==> v.bytes_done() + v.length() == (if v.chunk + 1 < v.chunks() {
            (v.chunk + 1) * models::chunk_step(v.chunk_size)
        } else {
            v.size() as int
        }),
{
    let a = v.file;
    let n = v.files.len() as int;
    assert(v.files.take(a + 1).drop_last() =~= v.files.take(a));
    assert(v.files.take(n) =~= v.files);
    lemma_total_grows(v.files, a, a + 1);
    lemma_total_grows(v.files, a + 1, n);
    lemma_chunks_fit(v.files, v.chunk_size);
    lemma_count_fits(v.size(), v.chunk_size);
    assert(total_chunks(v.files.take(a + 1), v.chunk_size) <= total_chunks(
        v.files.take(n),
        v.chunk_size,
    ));
    assert(total_chunks(v.files.take(a), v.chunk_size) >= 0);
    if v.in_chunk() {
        models::lemma_chunk_bounds(v.size(), v.chunk_size, v.chunk);
        let step = models::chunk_step(v.chunk_size);
        let k = v.chunk;
        assert((k + 1) * step == k * step + step) by (nonlinear_arith);
    }
}

/// A push stays in order when a size is told.
pub proof fn lemma_told_keeps_order(v: PushView, size: Option<u64>)
    requires
        v.wf(),
        v.asks_size(),
    ensures
        v.told(size).0.wf(),
{
    lemma_push_bounds(v);
}

/// A push stays in order when work was done.
pub proof fn lemma_worked_keeps_order(v: PushView, output: Seq<char>)
    requires
        v.wf(),
        v.asks_work(),
    ensures
        v.worked(output).0.wf(),
{
    lemma_push_bounds(v);
    if v.stage == PushStage::Directories {
        assert(0 * models::chunk_step(v.chunk_size) == 0) by (nonlinear_arith);
    }
}

/// A push that is done has dealt with every file, by pushing or by skipping it, has scanned every
/// byte and has pushed no more bytes than there are.
pub proof fn lemma_done_push_is_complete(v: PushView)
    requires
        v.wf(),
        v.stage == PushStage::Done,
    ensures
        v.pushed_files + v.skipped_files == v.files.len(),
        v.bytes_scanned == total_size(v.files),
        v.bytes_pushed <= v.bytes_scanned,
        v.pushed_chunks + v.skipped_chunks <= total_chunks(v.files, v.chunk_size),
{
    assert(v.files.take(v.files.len() as int) =~= v.files);
}

/// The push after the sizes of the next `n` files were told as they are.
pub open spec fn all_present(v: PushView, n: nat) -> PushView
    decreases n,
{
    if n == 0 {
        v
    } else {
        let u = all_present(v, (n - 1) as nat);
        u.told(Some(u.size())).0
    }
}

/// Pushing again what is on the device in full pushes nothing: every file is skipped.
pub proof fn lemma_second_push_skips_all(
    serial: Seq<char>,
    files: Seq<PushFileView>,
    below: bool,
    remote_path: Seq<char>,
    chunk_size: u64,
    n: nat,
)
    requires
        n <= files.len(),
    ensures
        ({
            let v = all_present(started(serial, files, below, remote_path, chunk_size), n);
            &&& v.file == n
            &&& v.files == files
            &&& v.stage == (if n == files.len() {
                PushStage::Done
            } else {
                PushStage::FileSize
            })
            &&& v.skipped_files == n
            &&& v.pushed_files == 0
            &&& v.pushed_chunks == 0
            &&& v.bytes_pushed == 0
            &&& v.bytes_scanned == total_size(files.take(n as int))
        }),
    decreases n,
{
    if n > 0 {
        lemma_second_push_skips_all(
            serial,
            files,
            below,
            remote_path,
            chunk_size,
            (n - 1) as nat,
        );
        assert(files.take(n as int).drop_last() =~= files.take(n - 1));
    }
}

/// How much of a push is left: it goes down with every answer.
pub open spec fn left(v: PushView) -> (int, int, int) {
    (
        v.files.len() - v.file,
        match v.stage {
            PushStage::FileSize => v.chunks() + 2,
            PushStage::Directories => v.chunks() + 1,
            PushStage::Assemble => 0,
            _ => v.chunks() - v.chunk,
        },
        if v.stage == PushStage::ChunkSize {
            1
        } else {
            0
        },
    )
}

/// Whether less of a push is left.
pub open spec fn less_left(a: (int, int, int), b: (int, int, int)) -> bool {
    a.0 < b.0 || (a.0 == b.0 && (a.1 < b.1 || (a.1 == b.1 && a.2 < b.2)))
}

/// A push comes to its end: each answer leaves less to do, and what is left never goes below
/// nothing.
pub proof fn lemma_push_ends(v: PushView, size: Option<u64>, output: Seq<char>)
    requires
        v.wf(),
        v.stage != PushStage::Done,
    ensures
        v.asks_size() ==> less_left(left(v.told(size).0), left(v)),
        v.asks_work() ==> less_left(left(v.worked(output).0), left(v)),
        left(v).0 > 0,
        left(v).1 >= 0,
        left(v).2 >= 0,
{
    lemma_push_bounds(v);
}

/// Where the file at hand of a push goes on the device.
spec fn target_of(v: PushView) -> Seq<char> {
    if v.below {
        adb_command::joined_path(v.remote_path, v.files[v.file].relative_path)
    } else {
        v.remote_path
    }
}

/// The command that has a shell on the device run a script.
spec fn shell_command(serial: Seq<char>, script: Seq<char>) -> Seq<Seq<char>> {
    seq!["-s"@, serial, "shell"@, script]
}

/// Before a file is pushed its size on the device is asked for, and the file is passed over exactly
/// where that is its local size: then it counts as skipped, and the push goes on to the next file.
/// Else nothing counts as skipped, and the directories for the same file are made.
pub proof fn lemma_file_is_skipped_by_its_size(v: PushView, size: Option<u64>)
    requires
        v.wf(),
        v.stage == PushStage::FileSize,
    ensures
        ({
            let file = v.files[v.file];
            let target = if v.below {
                adb_command::joined_path(v.remote_path, file.relative_path)
            } else {
                v.remote_path
            };
            let (u, report) = v.told(size);
            &&& v.step() == PushStepView::AskSize(
                seq!["-s"@, v.serial, "shell"@, adb_command::size_script(target)],
            )
            &&& u.files == v.files && u.serial == v.serial && u.remote_path == v.remote_path
                && u.below == v.below && u.chunk_size == v.chunk_size
            &&& u.pushed_files == v.pushed_files && u.pushed_chunks == v.pushed_chunks
                && u.skipped_chunks == v.skipped_chunks && u.bytes_pushed == v.bytes_pushed
                && u.outputs == v.outputs
            &&& u.bytes_scanned == v.bytes_scanned + file.size_bytes
            &&& size == Some(file.size_bytes) ==> {
                &&& u.file == v.file + 1
                &&& u.skipped_files == v.skipped_files + 1
                &&& report matches Some(p) && p.event == "file-skipped"@ && p.file_index == v.file
                    && p.chunk_index is None && p.relative_path == file.relative_path
                    && p.remote_path == target && p.chunk_length == file.size_bytes
            }
            &&& size != Some(file.size_bytes) ==> {
                &&& u.file == v.file
                &&& u.skipped_files == v.skipped_files
                &&& report is None
                &&& u.step() == PushStepView::Run(
                    seq!["-s"@, v.serial, "shell"@, adb_command::mkdir_script(target)],
                )
            }
        }),
{
    let target = target_of(v);
    assert(adb_command::for_serial(v.serial, seq!["shell"@, adb_command::size_script(target)])
        =~= shell_command(v.serial, adb_command::size_script(target)));
    assert(adb_command::for_serial(v.serial, seq!["shell"@, adb_command::mkdir_script(target)])
        =~= shell_command(v.serial, adb_command::mkdir_script(target)));
}

/// A push at work on one file: the parts of the file that are on the device, how far the local file
/// was read, and what was told.
pub struct FilePush {
    pub run: PushView,
    pub parts: Map<int, Seq<u8>>,
    pub read: int,
    pub reports: Seq<ProgressView>,
}

/// The push of a file one step on: questions for the size of a part are answered as things are, and
/// the work is done as it is asked for. `local` is the local file.
#[verifier::opaque]
pub open spec fn file_pushed_on(w: FilePush, local: Seq<u8>, output: Seq<char>) -> FilePush {
    match w.run.step() {
        PushStepView::AskSize(_) => FilePush {
            run: w.run.told(
                if w.parts.contains_key(w.run.chunk) {
                    Some(w.parts[w.run.chunk].len() as u64)
                } else {
                    None
                },
            ).0,
            ..w
        },
        PushStepView::Run(_) => FilePush { run: w.run.worked(output).0, ..w },
        PushStepView::PassOver { length, .. } => FilePush {
            run: w.run.worked(output).0,
            read: w.read + length,
            reports: w.reports.push(w.run.worked(output).1->0),
            ..w
        },
        PushStepView::Push { chunk_index, length, .. } => FilePush {
            run: w.run.worked(output).0,
            parts: w.parts.insert(chunk_index, local.subrange(w.read, w.read + length)),
            read: w.read + length,
            reports: w.reports.push(w.run.worked(output).1->0),
        },
        PushStepView::Finished(_) => w,
    }
}

/// The push of a file so many steps on.
pub open spec fn file_pushed(
    w: FilePush,
    local: Seq<u8>,
    output: Seq<char>,
    steps: nat,
) -> FilePush
    decreases steps,
{
    if steps == 0 {
        w
    } else {
        file_pushed_on(file_pushed(w, local, output, (steps - 1) as nat), local, output)
    }
}

/// Where a chunk of a file ends.
spec fn chunk_end(size: int, step: int, k: int) -> int {
    if (k + 1) * step < size {
        (k + 1) * step
    } else {
        size
    }
}

/// Whether a part of a file has the length of its chunk.
pub open spec fn part_is_there(
    parts: Map<int, Seq<u8>>,
    size: int,
    step: int,
    k: int,
) -> bool {
    parts.contains_key(k) && parts[k].len() == (if (k + 1) * step < size {
        step
    } else {
        size - k * step
    })
}

/// How many of the first chunks of a file are there.
pub open spec fn parts_there(parts: Map<int, Seq<u8>>, size: int, step: int, n: nat) -> nat
    decreases n,
{
    if n == 0 {
        0
    } else {
        parts_there(parts, size, step, (n - 1) as nat) + (if part_is_there(
            parts,
            size,
            step,
            n - 1,
        ) {
            1nat
        } else {
            0
        })
    }
}

/// Whether a report tells that a chunk was pushed or passed over.
pub open spec fn tells_of_chunk(
    p: ProgressView,
    v: PushView,
    there: bool,
    k: int,
    length: int,
) -> bool {
    &&& p.event == (if there {
        "chunk-skipped"@
    } else {
        "chunk-pushed"@
    })
    &&& p.file_index == v.file
    &&& p.chunk_index == Some((k % 0x1_0000_0000) as u32)
    &&& p.chunk_length == length
    &&& p.relative_path == v.files[v.file].relative_path
}

/// What a part of a file holds once its chunk was dealt with.
#[verifier::opaque]
spec fn part_left(parts: Map<int, Seq<u8>>, local: Seq<u8>, step: int, k: int) -> Seq<u8> {
    let size = local.len() as int;
    if part_is_there(parts, size, step, k) {
        parts[k]
    } else {
        local.subrange(k * step, chunk_end(size, step, k))
    }
}

/// Whether a report tells of a chunk as it was dealt with.
#[verifier::opaque]
spec fn is_told(
    p: ProgressView,
    v: PushView,
    parts: Map<int, Seq<u8>>,
    size: int,
    k: int,
) -> bool {
    let step = v.chunk_size as int;
    tells_of_chunk(
        p,
        v,
        part_is_there(parts, size, step, k),
        k,
        chunk_end(size, step, k) - k * step,
    )
}

/// Whether the first `c` parts of a file are as they are left, and the others as they were.
#[verifier::opaque]
spec fn parts_so_far(
    parts: Map<int, Seq<u8>>,
    now: Map<int, Seq<u8>>,
    local: Seq<u8>,
    step: int,
    c: int,
    n: int,
) -> bool {
    forall|k: int|
        0 <= k < n ==> if k < c {
            (#[trigger] now.contains_key(k)) && now[k] == part_left(parts, local, step, k)
        } else {
            (now.contains_key(k) <==> parts.contains_key(k)) && (parts.contains_key(k) ==> now[k]
                == parts[k])
        }
}

/// Whether the first `c` chunks were told of.
#[verifier::opaque]
spec fn told_so_far(
    v: PushView,
    parts: Map<int, Seq<u8>>,
    reports: Seq<ProgressView>,
    size: int,
    c: int,
) -> bool {
    reports.len() == c && forall|k: int|
        0 <= k < c ==> is_told(#[trigger] reports[k], v, parts, size, k)
}

proof fn lemma_next_part(
    parts: Map<int, Seq<u8>>,
    before: Map<int, Seq<u8>>,
    after: Map<int, Seq<u8>>,
    local: Seq<u8>,
    step: int,
    c: int,
    n: int,
)
    requires
        0 <= c < n,
        parts_so_far(parts, before, local, step, c, n),
        after == before || after == before.insert(c, part_left(parts, local, step, c)),
        after.contains_key(c),
        after[c] == part_left(parts, local, step, c),
    ensures
        parts_so_far(parts, after, local, step, c + 1, n),
{
    reveal(parts_so_far);
    assert forall|k: int| 0 <= k < n implies if k < c + 1 {
        (#[trigger] after.contains_key(k)) && after[k] == part_left(parts, local, step, k)
    } else {
        (after.contains_key(k) <==> parts.contains_key(k)) && (parts.contains_key(k) ==> after[k]
            == parts[k])
    } by {
        if k < c {
            assert(before.contains_key(k));
        } else if k > c {
            assert(before.contains_key(k) <==> parts.contains_key(k));
        }
    }
}

proof fn lemma_next_report(
    v: PushView,
    parts: Map<int, Seq<u8>>,
    before: Seq<ProgressView>,
    after: Seq<ProgressView>,
    size: int,
    c: int,
)
    requires
        told_so_far(v, parts, before, size, c),
        after.len() > 0,
        after.drop_last() == before,
        is_told(after.last(), v, parts, size, c),
    ensures
        told_so_far(v, parts, after, size, c + 1),
{
    reveal(told_so_far);
    assert forall|k: int| 0 <= k < c + 1 implies is_told(
        #[trigger] after[k],
        v,
        parts,
        size,
        k,
    ) by {
        if k < c {
            assert(after[k] == before[k]);
        }
    }
}

/// What holds of the push of a file after its first `c` chunks.
#[verifier::opaque]
spec fn pushed_so_far(
    v: PushView,
    parts: Map<int, Seq<u8>>,
    local: Seq<u8>,
    w: FilePush,
    c: int,
) -> bool {
    let size = local.len() as int;
    let step = v.chunk_size as int;
    let n = models::chunk_count(v.files[v.file].size_bytes, v.chunk_size) as int;
    let there = parts_there(parts, size, step, c as nat);
    &&& w.run == (PushView {
        stage: if c == n {
            PushStage::Assemble
        } else {
            PushStage::ChunkSize
        },
        chunk: c,
        pushed_chunks: v.pushed_chunks + c - there,
        skipped_chunks: v.skipped_chunks + there,
        bytes_pushed: w.run.bytes_pushed,
        outputs: w.run.outputs,
        ..v
    })
    &&& w.read == (if c * step < size {
        c * step
    } else {
        size
    })
    &&& parts_so_far(parts, w.parts, local, step, c, n)
    &&& told_so_far(v, parts, w.reports, size, c)
}

proof fn lemma_chunk_ends(size: u64, chunk_size: u64, k: int)
    requires
        chunk_size > 0,
        0 <= k < models::chunk_count(size, chunk_size),
    ensures
        ({
            let step = chunk_size as int;
            let length = models::chunk_at(0, size, chunk_size, k).length;
            &&& 0 <= k * step <= size
            &&& chunk_end(size as int, step, k) == k * step + length
            &&& length == (if (k + 1) * step < size {
                step
            } else {
                size - k * step
            })
            &&& (k + 1) * step == k * step + step
            &&& k + 1 == models::chunk_count(size, chunk_size) <==> (k + 1) * step >= size
        }),
{
    models::lemma_chunk_bounds(size, chunk_size, k);
    let step = chunk_size as int;
    assert((k + 1) * step == k * step + step) by (nonlinear_arith);
}

proof fn lemma_directories_are_made(w: FilePush, local: Seq<u8>, output: Seq<char>)
    requires
        w.run.stage == PushStage::Directories,
    ensures
        file_pushed_on(w, local, output) == (FilePush {
            run: PushView { stage: PushStage::ChunkSize, chunk: 0, ..w.run },
            ..w
        }),
{
    reveal(file_pushed_on);
}

proof fn lemma_part_is_asked_for(w: FilePush, local: Seq<u8>, output: Seq<char>)
    requires
        w.run.stage == PushStage::ChunkSize,
        w.parts.contains_key(w.run.chunk) ==> w.parts[w.run.chunk].len() <= u64::MAX,
    ensures
        file_pushed_on(w, local, output) == (FilePush {
            run: PushView {
                stage: if w.parts.contains_key(w.run.chunk) && w.parts[w.run.chunk].len()
                    == w.run.length() {
                    PushStage::SkipChunk
                } else {
                    PushStage::PushChunk
                },
                ..w.run
            },
            ..w
        }),
{
    reveal(file_pushed_on);
}

proof fn lemma_chunk_is_worked(w: FilePush, local: Seq<u8>, output: Seq<char>)
    requires
        w.run.stage == PushStage::SkipChunk || w.run.stage == PushStage::PushChunk,
    ensures
        ({
            let there = w.run.stage == PushStage::SkipChunk;
            let length = w.run.length();
            let next = file_pushed_on(w, local, output);
            &&& next.run == (PushView {
                stage: if w.run.chunk + 1 == w.run.chunks() {
                    PushStage::Assemble
                } else {
                    PushStage::ChunkSize
                },
                chunk: w.run.chunk + 1,
                pushed_chunks: w.run.pushed_chunks + (if there {
                    0int
                } else {
                    1
                }),
                skipped_chunks: w.run.skipped_chunks + (if there {
                    1int
                } else {
                    0
                }),
                bytes_pushed: next.run.bytes_pushed,
                outputs: next.run.outputs,
                ..w.run
            })
            &&& next.read == w.read + length
            &&& next.parts == (if there {
                w.parts
            } else {
                w.parts.insert(w.run.chunk, local.subrange(w.read, w.read + length))
            })
            &&& next.reports.len() == w.reports.len() + 1
            &&& next.reports.drop_last() == w.reports
            &&& tells_of_chunk(next.reports.last(), w.run, there, w.run.chunk, length)
        }),
{
    reveal(file_pushed_on);
    let next = file_pushed_on(w, local, output);
    assert(next.reports.drop_last() =~= w.reports);
}

proof fn lemma_chunk_is_pushed(
    v: PushView,
    parts: Map<int, Seq<u8>>,
    local: Seq<u8>,
    output: Seq<char>,
    w: FilePush,
    c: int,
)
    requires
        v.chunk_size > 0,
        local.len() == v.files[v.file].size_bytes,
        forall|k: int| #[trigger] parts.contains_key(k) ==> parts[k].len() <= u64::MAX,
        0 <= c < models::chunk_count(v.files[v.file].size_bytes, v.chunk_size),
        pushed_so_far(v, parts, local, w, c),
    ensures
        pushed_so_far(
            v,
            parts,
            local,
            file_pushed_on(file_pushed_on(w, local, output), local, output),
            c + 1,
        ),
{
    reveal(pushed_so_far);
    let size = v.files[v.file].size_bytes;
    let step = v.chunk_size as int;
    let n = models::chunk_count(size, v.chunk_size) as int;
    lemma_chunk_ends(size, v.chunk_size, c);
    assert((w.parts.contains_key(c) <==> parts.contains_key(c)) && (parts.contains_key(c)
        ==> w.parts[c] == parts[c])) by {
        reveal(parts_so_far);
    }
    let a = file_pushed_on(w, local, output);
    let b = file_pushed_on(a, local, output);
    let length = models::chunk_at(0, size, v.chunk_size, c).length as int;
    let there = part_is_there(parts, size as int, step, c);
    lemma_part_is_asked_for(w, local, output);
    assert(a.run.stage == (if there {
        PushStage::SkipChunk
    } else {
        PushStage::PushChunk
    }));
    lemma_chunk_is_worked(a, local, output);
    assert(part_left(parts, local, step, c) == (if there {
        parts[c]
    } else {
        local.subrange(c * step, c * step + length)
    })) by {
        reveal(part_left);
    }
    assert(is_told(b.reports.last(), v, parts, size as int, c)) by {
        reveal(is_told);
    }
    lemma_next_part(parts, w.parts, b.parts, local, step, c, n);
    lemma_next_report(v, parts, w.reports, b.reports, size as int, c);
}

proof fn lemma_chunks_are_pushed(
    v: PushView,
    parts: Map<int, Seq<u8>>,
    local: Seq<u8>,
    output: Seq<char>,
    c: nat,
)
    requires
        v.stage == PushStage::Directories,
        v.chunk_size > 0,
        local.len() == v.files[v.file].size_bytes,
        forall|k: int| #[trigger] parts.contains_key(k) ==> parts[k].len() <= u64::MAX,
        c <= models::chunk_count(v.files[v.file].size_bytes, v.chunk_size),
    ensures
        pushed_so_far(
            v,
            parts,
            local,
            file_pushed(
                (FilePush { run: v, parts, read: 0, reports: Seq::empty() }),
                local,
                output,
                1 + 2 * c,
            ),
            c as int,
        ),
    decreases c,
{
    let start = FilePush { run: v, parts, read: 0, reports: Seq::empty() };
    if c == 0 {
        reveal_with_fuel(file_pushed, 2);
        reveal(pushed_so_far);
        reveal(parts_so_far);
        reveal(told_so_far);
        lemma_directories_are_made(start, local, output);
        assert(0 * v.chunk_size == 0) by (nonlinear_arith);
        assert(models::chunk_count(v.files[v.file].size_bytes, v.chunk_size) > 0) by {
            models::lemma_chunks_cover_file(0, v.files[v.file].size_bytes, v.chunk_size);
        }
    } else {
        lemma_chunks_are_pushed(v, parts, local, output, (c - 1) as nat);
        let w = file_pushed(start, local, output, (1 + 2 * (c - 1)) as nat);
        reveal_with_fuel(file_pushed, 3);
        lemma_chunk_is_pushed(v, parts, local, output, w, c - 1);
    }
}

/// Pushing a file leaves all its chunks on the device, each under its number: a part that was there
/// with the length of its chunk is kept, and every other one holds just the bytes of the local file
/// at its place. Each chunk is told of once, in order, with its number and its length; the local
/// file is read to its end; then the parts are put together, and only then the file counts as
/// pushed.
pub proof fn lemma_push_leaves_every_chunk(
    v: PushView,
    parts: Map<int, Seq<u8>>,
    local: Seq<u8>,
    output: Seq<char>,
)
    requires
        v.wf(),
        v.stage == PushStage::Directories,
        v.chunk_size > 0,
        local.len() == v.files[v.file].size_bytes,
        forall|k: int| #[trigger] parts.contains_key(k) ==> parts[k].len() <= u64::MAX,
    ensures
        ({
            let size = local.len() as int;
            let step = v.chunk_size as int;
            let n = models::chunk_count(local.len() as u64, v.chunk_size);
            let target = if v.below {
                adb_command::joined_path(v.remote_path, v.files[v.file].relative_path)
            } else {
                v.remote_path
            };
            let w = file_pushed(
                (FilePush { run: v, parts, read: 0, reports: Seq::empty() }),
                local,
                output,
                1 + 2 * n,
            );
            let (u, report) = w.run.worked(output);
            &&& forall|k: int| 0 <= k < n ==> #[trigger] w.parts.contains_key(k)
            &&& forall|k: int|
                0 <= k < n ==> #[trigger] w.parts[k] == (
                if part_is_there(parts, size, step, k) {
                    parts[k]
                } else {
                    local.subrange(
                        k * step,
                        if (k + 1) * step < size {
                            (k + 1) * step
                        } else {
                            size
                        },
                    )
                })
            &&& w.read == size
            &&& w.reports.len() == n
            &&& forall|k: int|
                0 <= k < n ==> tells_of_chunk(
                    #[trigger] w.reports[k],
                    v,
                    part_is_there(parts, size, step, k),
                    k,
                    if (k + 1) * step < size {
                        step
                    } else {
                        size - k * step
                    },
                )
            &&& w.run.pushed_files == v.pushed_files && w.run.skipped_files == v.skipped_files
            &&& w.run.skipped_chunks == v.skipped_chunks + parts_there(parts, size, step, n)
            &&& w.run.pushed_chunks == v.pushed_chunks + n - parts_there(parts, size, step, n)
            &&& w.run.step() == PushStepView::Run(
                seq![
                    "-s"@,
                    v.serial,
                    "shell"@,
                    adb_command::assemble_script(target, adb_command::chunk_dir(target)),
                ],
            )
            &&& u.file == v.file + 1 && u.pushed_files == v.pushed_files + 1 && u.skipped_files
                == v.skipped_files
            &&& report matches Some(p) && p.event == "file-completed"@ && p.file_index == v.file
                && p.chunk_length == size && p.relative_path == v.files[v.file].relative_path
        }),
{
    let size = local.len() as int;
    let step = v.chunk_size as int;
    let n = models::chunk_count(local.len() as u64, v.chunk_size);
    lemma_chunks_are_pushed(v, parts, local, output, n);
    assert(n > 0) by {
        models::lemma_chunks_cover_file(0, local.len() as u64, v.chunk_size);
    }
    lemma_chunk_ends(local.len() as u64, v.chunk_size, n - 1);
    let w = file_pushed(
        (FilePush { run: v, parts, read: 0, reports: Seq::empty() }),
        local,
        output,
        1 + 2 * n,
    );
    assert(w.run.stage == PushStage::Assemble && w.read == size && parts_so_far(
        parts,
        w.parts,
        local,
        step,
        n as int,
        n as int,
    ) && told_so_far(v, parts, w.reports, size, n as int) && w.run == (PushView {
        stage: PushStage::Assemble,
        chunk: n as int,
        pushed_chunks: v.pushed_chunks + n - parts_there(parts, size, step, n),
        skipped_chunks: v.skipped_chunks + parts_there(parts, size, step, n),
        bytes_pushed: w.run.bytes_pushed,
        outputs: w.run.outputs,
        ..v
    })) by {
        reveal(pushed_so_far);
    }
    lemma_parts_at_the_end(v, parts, w, local);
    lemma_assembled_file_counts(w.run, output);
}

proof fn lemma_parts_at_the_end(
    v: PushView,
    parts: Map<int, Seq<u8>>,
    w: FilePush,
    local: Seq<u8>,
)
    requires
        v.chunk_size > 0,
        local.len() <= u64::MAX,
        ({
            let n = models::chunk_count(local.len() as u64, v.chunk_size) as int;
            &&& parts_so_far(parts, w.parts, local, v.chunk_size as int, n, n)
            &&& told_so_far(v, parts, w.reports, local.len() as int, n)
        }),
    ensures
        ({
            let size = local.len() as int;
            let step = v.chunk_size as int;
            let n = models::chunk_count(local.len() as u64, v.chunk_size) as int;
            &&& forall|k: int| 0 <= k < n ==> #[trigger] w.parts.contains_key(k)
            &&& forall|k: int|
                0 <= k < n ==> #[trigger] w.parts[k] == (
                if part_is_there(parts, size, step, k) {
                    parts[k]
                } else {
                    local.subrange(
                        k * step,
                        if (k + 1) * step < size {
                            (k + 1) * step
                        } else {
                            size
                        },
                    )
                })
            &&& w.reports.len() == n
            &&& forall|k: int|
                0 <= k < n ==> tells_of_chunk(
                    #[trigger] w.reports[k],
                    v,
                    part_is_there(parts, size, step, k),
                    k,
                    if (k + 1) * step < size {
                        step
                    } else {
                        size - k * step
                    },
                )
        }),
{
    let size = local.len() as int;
    let step = v.chunk_size as int;
    let n = models::chunk_count(local.len() as u64, v.chunk_size) as int;
    reveal(told_so_far);
    assert forall|k: int| 0 <= k < n implies #[trigger] w.parts.contains_key(k) by {
        reveal(parts_so_far);
    }
    assert forall|k: int| 0 <= k < n implies #[trigger] w.parts[k] == (
    if part_is_there(parts, size, step, k) {
        parts[k]
    } else {
        local.subrange(
            k * step,
            if (k + 1) * step < size {
                (k + 1) * step
            } else {
                size
            },
        )
    }) by {
        reveal(parts_so_far);
        reveal(part_left);
        assert(w.parts.contains_key(k));
    }
    assert forall|k: int| 0 <= k < n implies tells_of_chunk(
        #[trigger] w.reports[k],
        v,
        part_is_there(parts, size, step, k),
        k,
        if (k + 1) * step < size {
            step
        } else {
            size - k * step
        },
    ) by {
        reveal(is_told);
        lemma_chunk_ends(local.len() as u64, v.chunk_size, k);
        assert(is_told(w.reports[k], v, parts, size, k));
    }
}

proof fn lemma_assembled_file_counts(v: PushView, output: Seq<char>)
    requires
        v.stage == PushStage::Assemble,
    ensures
        ({
            let target = target_of(v);
            let (u, report) = v.worked(output);
            &&& v.step() == PushStepView::Run(
                seq![
                    "-s"@,
                    v.serial,
                    "shell"@,
                    adb_command::assemble_script(target, adb_command::chunk_dir(target)),
                ],
            )
            &&& u.file == v.file + 1 && u.pushed_files == v.pushed_files + 1 && u.skipped_files
                == v.skipped_files
            &&& report matches Some(p) && p.event == "file-completed"@ && p.file_index == v.file
                && p.chunk_length == v.files[v.file].size_bytes && p.relative_path
                == v.files[v.file].relative_path
        }),
{
    let target = target_of(v);
    let script = adb_command::assemble_script(target, adb_command::chunk_dir(target));
    assert(adb_command::for_serial(v.serial, seq!["shell"@, script]) =~= shell_command(
        v.serial,
        script,
    ));
}

/// A chunk whose part is not on the device with its length is pushed: the next bytes of the local
/// file, as many as the chunk has, to the part of just that chunk. One that is there is passed over
/// with as many bytes. The bytes of pushed chunks, and only these, count as pushed.
pub proof fn lemma_missing_chunk_is_pushed(v: PushView, size: Option<u64>, output: Seq<char>)
    requires
        v.wf(),
        v.stage == PushStage::ChunkSize,
        v.chunk_size > 0,
    ensures
        ({
            let file = v.files[v.file];
            let target = if v.below {
                adb_command::joined_path(v.remote_path, file.relative_path)
            } else {
                v.remote_path
            };
            let part = adb_command::chunk_part(target, (v.chunk % 0x1_0000_0000) as u32);
            let rest = file.size_bytes - v.chunk * v.chunk_size;
            let length = if rest < v.chunk_size {
                rest
            } else {
                v.chunk_size as int
            };
            let u = v.told(size).0;
            let (w, report) = u.worked(output);
            &&& v.step() == PushStepView::AskSize(
                seq!["-s"@, v.serial, "shell"@, adb_command::size_script(part)],
            )
            &&& v.told(size).1 is None && report is Some
            &&& (size matches Some(n) && n == length) ==> u.step() == (PushStepView::PassOver {
                local_path: file.local_path,
                length,
            }) && w.bytes_pushed == v.bytes_pushed && w.outputs == v.outputs
            &&& !(size matches Some(n) && n == length) ==> u.step() == (PushStepView::Push {
                local_path: file.local_path,
                chunk_index: v.chunk,
                length,
                remote_chunk: part,
            }) && w.bytes_pushed == v.bytes_pushed + length && w.outputs == v.outputs.push(
                text::trim(output),
            )
            &&& w.file == v.file && w.chunk == v.chunk + 1
            &&& report->0.bytes_pushed == w.bytes_pushed && report->0.pushed_chunks
                == w.pushed_chunks && report->0.skipped_chunks == w.skipped_chunks
        }),
{
    let file = v.files[v.file];
    lemma_chunk_ends(file.size_bytes, v.chunk_size, v.chunk);
    let part = adb_command::chunk_part(target_of(v), (v.chunk % 0x1_0000_0000) as u32);
    assert(adb_command::for_serial(v.serial, seq!["shell"@, adb_command::size_script(part)])
        =~= shell_command(v.serial, adb_command::size_script(part)));
}

/// A push starts with the first file and with nothing done, and a pause takes effect before every
/// question and before the parts are put together.
pub proof fn lemma_push_starts_with_nothing_done(
    serial: Seq<char>,
    files: Seq<PushFileView>,
    below: bool,
    remote_path: Seq<char>,
    chunk_size: u64,
)
    ensures
        ({
            let v = started(serial, files, below, remote_path, chunk_size);
            &&& v.serial == serial && v.files == files && v.below == below && v.remote_path
                == remote_path
            &&& chunk_size > 0 ==> v.chunk_size == chunk_size
            &&& chunk_size == 0 ==> v.chunk_size == 1
            &&& v.file == 0 && v.pushed_files == 0 && v.skipped_files == 0 && v.pushed_chunks == 0
                && v.skipped_chunks == 0 && v.bytes_scanned == 0 && v.bytes_pushed == 0
            &&& files.len() > 0 ==> v.step() is AskSize && v.at_boundary()
            &&& files.len() == 0 ==> v.step() is Finished
        }),
{
}

/// A pause takes effect just where a size is asked for or the parts are put together.
pub proof fn lemma_pause_waits_for_a_boundary(v: PushView)
    ensures
        v.at_boundary() <==> v.step() is AskSize || v.stage == PushStage::Assemble,
        v.stage == PushStage::PushChunk ==> !v.at_boundary(),
{
}

impl AdbPushRun {
    fn remote_file(&self) -> (r: String)
        requires
            self@.wf(),
            self@.stage != PushStage::Done,
        ensures
            r@ == self@.remote_file(),
    {
        if self.below {
            adb_command::remote_join(
                self.remote_path.as_str(),
                self.files[self.file].relative_path.as_str(),
            )
        } else {
            self.remote_path.clone()
        }
    }

    fn length(&self) -> (r: u64)
        requires
            self@.wf(),
            self@.in_chunk(),
        ensures
            r == self@.length(),
    {
        engine_task::chunk_length(self.files[self.file].size_bytes, self.chunk_size, self.chunk)
    }

    fn chunk_index(&self) -> (r: u32)
        ensures
            r == self@.chunk_index(),
    {
        (self.chunk % 0x1_0000_0000) as u32
    }

    /// What to do next. A pause takes effect before a file, before a chunk, and before the chunks
    /// of a file are put together.
    pub fn next_step(&self, paused: bool) -> (r: Result<PushStep, AdbDiscoveryError>)
        requires
            self@.wf(),
        ensures
            match r {
                Ok(s) => !(paused && self@.at_boundary()) && s@ == self@.step(),
                Err(e) => paused && self@.at_boundary() && e@ == pause_error(),
            },
    {
        let boundary = match self.stage {
            PushStage::FileSize => true,
            PushStage::ChunkSize => true,
            PushStage::Assemble => true,
            _ => false,
        };
        match check_pause(paused && boundary) {
            Ok(_) => {},
            Err(e) => {
                return Err(e);
            },
        }
        let serial = self.serial.as_str();
        let step = match self.stage {
            PushStage::FileSize => PushStep::AskSize(
                adb_command::stat_remote_file_size(serial, self.remote_file().as_str()),
            ),
            PushStage::Directories => PushStep::Run(
                adb_command::make_chunk_dirs(serial, self.remote_file().as_str()),
            ),
            PushStage::ChunkSize => PushStep::AskSize(
                adb_command::stat_remote_file_size(serial, self.remote_chunk().as_str()),
            ),
            PushStage::SkipChunk => PushStep::PassOver {
                local_path: self.files[self.file].local_path.clone(),
                length: self.length(),
            },
            PushStage::PushChunk => PushStep::Push {
                local_path: self.files[self.file].local_path.clone(),
                chunk_index: self.chunk,
                length: self.length(),
                remote_chunk: self.remote_chunk(),
            },
            PushStage::Assemble => PushStep::Run(
                adb_command::assemble_remote_file_from_chunks(serial, self.remote_file().as_str()),
            ),
            PushStage::Done => PushStep::Finished(self.summary()),
        };
        Ok(step)
    }

    fn remote_chunk(&self) -> (r: String)
        requires
            self@.wf(),
            self@.in_chunk(),
        ensures
            r@ == self@.remote_chunk(),
    {
        adb_command::remote_chunk_part(self.remote_file().as_str(), self.chunk_index())
    }

    fn summary(&self) -> (r: String)
        requires
            self@.wf(),
        ensures
            r@ == self@.summary(),
    {
        let mut s = "ADB chunk push completed: scanned_files=".to_string();
        s.append(decimal::dec_text(self.pushed_files as u128 + self.skipped_files as u128).as_str());
        s.append(" pushed_files=");
        s.append(decimal::dec_text(self.pushed_files as u128).as_str());
        s.append(" skipped_files=");
        s.append(decimal::dec_text(self.skipped_files as u128).as_str());
        s.append(" pushed_chunks=");
        s.append(decimal::dec_text(self.pushed_chunks as u128).as_str());
        s.append(" skipped_chunks=");
        s.append(decimal::dec_text(self.skipped_chunks as u128).as_str());
        s.append(" bytes_scanned=");
        s.append(decimal::dec_text(self.bytes_scanned as u128).as_str());
        s.append(" bytes_pushed=");
        s.append(decimal::dec_text(self.bytes_pushed as u128).as_str());
        s.append("\n");
        s.append(text::join_texts(&self.outputs, "\n").as_str());
        s
    }

    fn progress(
        &self,
        file_index: usize,
        remote_path: String,
        event: &str,
        chunk_index: Option<u32>,
        chunk_length: u64,
        message: String,
    ) -> (r: AdbPushProgress)
        requires
            file_index < self@.files.len(),
        ensures
            r@ == (ProgressView {
                event: event@,
                relative_path: self@.files[file_index as int].relative_path,
                remote_path: remote_path@,
                file_index: file_index as int,
                chunk_index,
                chunk_length: chunk_length as int,
                current_file: file_index + 1,
                total_files: self@.files.len() as int,
                pushed_files: self@.pushed_files,
                skipped_files: self@.skipped_files,
                pushed_chunks: self@.pushed_chunks,
                skipped_chunks: self@.skipped_chunks,
                bytes_scanned: self@.bytes_scanned,
                bytes_pushed: self@.bytes_pushed,
                message: message@,
            }),
    {
        let total_files: usize = self.files.len();
        AdbPushProgress {
            event: event.to_string(),
            relative_path: self.files[file_index].relative_path.clone(),
            remote_path,
            file_index,
            chunk_index,
            chunk_length,
            current_file: file_index + 1,
            total_files,
            pushed_files: self.pushed_files,
            skipped_files: self.skipped_files,
            pushed_chunks: self.pushed_chunks,
            skipped_chunks: self.skipped_chunks,
            bytes_scanned: self.bytes_scanned,
            bytes_pushed: self.bytes_pushed,
            message,
        }
    }

    fn go_to_next_file(&mut self)
        requires
            old(self)@.file < old(self)@.files.len(),
        ensures
            final(self)@ == old(self)@.next_file(),
    {
        let total: usize = self.files.len();
        self.file += 1;
        self.chunk = 0;
        self.stage = if self.file == total {
            PushStage::Done
        } else {
            PushStage::FileSize
        };
    }

    fn go_to_next_chunk(&mut self)
        requires
            0 <= old(self)@.file < old(self)@.files.len(),
            0 <= old(self)@.chunk < old(self)@.chunks(),
        ensures
            final(self)@ == old(self)@.next_chunk(),
    {
        let count: u64 = engine_task::count_chunks(
            self.files[self.file].size_bytes,
            self.chunk_size,
        );
        self.chunk += 1;
        self.stage = if self.chunk == count {
            PushStage::Assemble
        } else {
            PushStage::ChunkSize
        };
    }

    /// Takes in the size that was asked for, and tells the progress, if there is some to tell.
    pub fn size_told(&mut self, size: Option<u64>) -> (r: Option<AdbPushProgress>)
        requires
            old(self)@.wf(),
            old(self)@.asks_size(),
        ensures
            final(self)@.wf(),
            final(self)@ == old(self)@.told(size).0,
            match (r, old(self)@.told(size).1) {
                (Some(a), Some(b)) => a@ == b,
                (None, None) => true,
                _ => false,
            },
    {
        let ghost start = self@;
        assert(self.files.len() <= usize::MAX);
        proof {
            lemma_push_bounds(self@);
            lemma_told_keeps_order(self@, size);
        }
        if self.stage == PushStage::FileSize {
            let file: usize = self.file;
            let length: u64 = self.files[file].size_bytes;
            let remote = self.remote_file();
            self.bytes_scanned += length;
            let present = match size {
                Some(n) => n == length,
                None => false,
            };
            if present {
                self.skipped_files += 1;
                self.go_to_next_file();
                let told = self.progress(
                    file,
                    remote,
                    "file-skipped",
                    None,
                    length,
                    "remote file already matches size".to_string(),
                );
                assert(self@ == start.told(size).0);
                return Some(told);
            }
            self.stage = PushStage::Directories;
            self.chunk = 0;
            return None;
        }
        let length: u64 = self.length();
        let present = match size {
            Some(n) => n == length,
            None => false,
        };
        self.stage = if present {
            PushStage::SkipChunk
        } else {
            PushStage::PushChunk
        };
        None
    }

    /// Takes in that the work was done, with what a command gave out, and tells the progress, if
    /// there is some to tell.
    pub fn work_done(&mut self, output: &str) -> (r: Option<AdbPushProgress>)
        requires
            old(self)@.wf(),
            old(self)@.asks_work(),
        ensures
            final(self)@.wf(),
            final(self)@ == old(self)@.worked(output@).0,
            match (r, old(self)@.worked(output@).1) {
                (Some(a), Some(b)) => a@ == b,
                (None, None) => true,
                _ => false,
            },
    {
        assert(self.files.len() <= usize::MAX);
        proof {
            lemma_push_bounds(self@);
            lemma_worked_keeps_order(self@, output@);
        }
        if self.stage == PushStage::Directories {
            self.stage = PushStage::ChunkSize;
            self.chunk = 0;
            return None;
        }
        let file: usize = self.file;
        let remote = self.remote_file();
        if self.stage == PushStage::Assemble {
            let size: u64 = self.files[file].size_bytes;
            self.pushed_files += 1;
            self.go_to_next_file();
            return Some(
                self.progress(
                    file,
                    remote,
                    "file-completed",
                    None,
                    size,
                    "file completed".to_string(),
                ),
            );
        }
        let length: u64 = self.length();
        let index: u32 = self.chunk_index();
        let mut message = "chunk ".to_string();
        message.append(decimal::dec_text(self.chunk as u128).as_str());
        if self.stage == PushStage::SkipChunk {
            self.skipped_chunks += 1;
            self.go_to_next_chunk();
            message.append(" already exists");
            return Some(
                self.progress(file, remote, "chunk-skipped", Some(index), length, message),
            );
        }
        let ghost before = text::views(self.outputs@);
        let trimmed = text::trimmed(output);
        self.outputs.push(trimmed);
        assert(text::views(self.outputs@) == before.push(trimmed@));
        self.pushed_chunks += 1;
        self.bytes_pushed += length;
        self.go_to_next_chunk();
        message.append(" pushed");
        Some(self.progress(file, remote, "chunk-pushed", Some(index), length, message))
    }
}

/// A push of the files, below the remote path where they stand in a directory, in chunks of the
/// given length.
pub fn push_path_to_device_with_control(
    serial: &str,
    files: Vec<PushFile>,
    below: bool,
    remote_path: &str,
    chunk_size_bytes: u64,
) -> (r: AdbPushRun)
    requires
        total_size(file_views(files@)) + files@.len() <= u64::MAX,
    ensures
        r@ == started(serial@, file_views(files@), below, remote_path@, chunk_size_bytes),
        r@.wf(),
{
    let stage = if files.len() == 0 {
        PushStage::Done
    } else {
        PushStage::FileSize
    };
    let run = AdbPushRun {
        serial: serial.to_string(),
        remote_path: remote_path.to_string(),
        below,
        chunk_size: if chunk_size_bytes == 0 {
            1
        } else {
            chunk_size_bytes
        },
        files,
        stage,
        file: 0,
        chunk: 0,
        pushed_files: 0,
        skipped_files: 0,
        pushed_chunks: 0,
        skipped_chunks: 0,
        bytes_scanned: 0,
        bytes_pushed: 0,
        outputs: Vec::new(),
    };
    assert(text::views(run.outputs@) =~= Seq::empty());
    assert(run@.files.take(0) =~= Seq::empty());
    run
}

/// A push of the files in chunks of eight mebibytes.
pub fn push_path_to_device(
    serial: &str,
    files: Vec<PushFile>,
    below: bool,
    remote_path: &str,
) -> (r: AdbPushRun)
    requires
        total_size(file_views(files@)) + files@.len() <= u64::MAX,
    ensures
        r@ == started(serial@, file_views(files@), below, remote_path@, 8388608),
        r@.wf(),
{
    push_path_to_device_with_control(serial, files, below, remote_path, 8 * 1024 * 1024)
}

/// What to do for a single chunk.
#[derive(Debug, PartialEq, Eq)]
pub enum SingleChunk {
    /// Nothing; the text says why.
    Present(String),
    /// Push it to the path.
    Push(String),
}

/// What to do for a single chunk, by the size that it has on the device.
pub fn push_single_file_chunk_to_device(
    remote_file: &str,
    chunk_index: u32,
    length: u64,
    size: Option<u64>,
) -> (r: SingleChunk)
    ensures
        match r {
            SingleChunk::Present(m) => size == Some(length) && m@ == "chunk "@ + decimal::dec(
                chunk_index as nat,
            ) + " already exists"@,
            SingleChunk::Push(to) => size != Some(length) && to@ == adb_command::chunk_part(
                remote_file@,
                chunk_index,
            ),
        },
{
    let present = match size {
        Some(n) => n == length,
        None => false,
    };
    if present {
        let mut message = "chunk ".to_string();
        message.append(decimal::dec_text(chunk_index as u128).as_str());
        message.append(" already exists");
        return SingleChunk::Present(message);
    }
    SingleChunk::Push(adb_command::remote_chunk_part(remote_file, chunk_index))
}

/// The name of the local file that a chunk is written out to.
pub fn temp_chunk_name(process: u32, file_name: Option<&str>, chunk_index: u64) -> (r: String)
    ensures
        r@ == decimal::dec(process as nat) + "-"@ + adb_command::fragment(
            text::or_else(text::str_view(file_name), "chunk"@),
        ) + "-"@ + decimal::pad(decimal::dec(chunk_index as nat), 8) + ".part"@,
{
    let mut s = decimal::dec_text(process as u128);
    s.append("-");
    let name = text::or_other(file_name, "chunk");
    s.append(adb_command::sanitize_remote_fragment(name.as_str()).as_str());
    s.append("-");
    s.append(decimal::padded(decimal::dec_text(chunk_index as u128).as_str(), 8).as_str());
    s.append(".part");
    s
}

} // verus!
