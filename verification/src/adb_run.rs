//! Transfers over ADB alone, and the ADB lane beside a network lane.

use crate::adb_command;
use crate::cards::{DualNote, DualNoteView};
use crate::decimal;
use crate::dual_wifi_run;
use crate::dual_wifi_run::{LaneNotes, LaneNotesView};
use crate::manifest;
use crate::manifest::{LocalFileView, LocalTransferFile};
use crate::notes;
use crate::paths;
use crate::remote_verify;
use crate::text;
use crate::wifi_chunk;
use vstd::prelude::*;

verus! {

/// The view of a digest that may be missing, or a complaint.
pub open spec fn digest_view(r: Result<Option<String>, String>) -> Result<
    Option<Seq<char>>,
    Seq<char>,
> {
    match r {
        Ok(d) => Ok(text::opt_view(d)),
        Err(m) => Err(m@),
    }
}

/// What the digests of a file on both sides come to: a complaint on either side, the local one
/// first, or the judgement.
pub open spec fn compared(
    subject: Seq<char>,
    remote_file: Seq<char>,
    local: Result<Seq<char>, Seq<char>>,
    remote: Result<Option<Seq<char>>, Seq<char>>,
) -> Result<(), Seq<char>> {
    match (local, remote) {
        (Err(m), _) => Err(m),
        (_, Err(m)) => Err(m),
        (Ok(l), Ok(d)) => remote_verify::adb_digests_judged(subject, remote_file, l, d),
    }
}

/// What the digests of a file on both sides come to.
pub fn compare_digests(
    subject: &str,
    remote_file: &str,
    local: &Result<String, String>,
    remote: &Result<Option<String>, String>,
) -> (r: Result<(), String>)
    ensures
        wifi_chunk::unit_view(r) == compared(
            subject@,
            remote_file@,
            adb_command::outcome_view(*local),
            digest_view(*remote),
        ),
{
    match (local, remote) {
        (Err(m), _) => Err(m.clone()),
        (_, Err(m)) => Err(m.clone()),
        (Ok(l), Ok(d)) => remote_verify::judge_adb_digests(
            subject,
            remote_file,
            l.as_str(),
            text::borrow_opt(d),
        ),
    }
}

/// What a file on the device is for the digest of it: nothing where it is not there, else what
/// the reading of it came to.
pub open spec fn remote_digest(
    size: Option<u64>,
    success: bool,
    digest: Seq<char>,
    complaint: Seq<char>,
) -> Result<Option<Seq<char>>, Seq<char>> {
    if size is None {
        Ok(None)
    } else if success {
        Ok(Some(digest))
    } else {
        Err(complaint)
    }
}

/// The digest of a file on the device, from whether it is there, whether it could be read and the
/// digest of what was read.
pub fn blake3_digest_remote_file(
    remote_path: &str,
    size: Option<u64>,
    success: bool,
    digest: &str,
    stderr: &str,
) -> (r: Result<Option<String>, String>)
    ensures
        digest_view(r) == remote_digest(
            size,
            success,
            digest@,
            adb_command::read_failure(remote_path@, stderr@),
        ),
{
    if size.is_none() {
        return Ok(None);
    }
    if success {
        Ok(Some(digest.to_string()))
    } else {
        Err(adb_command::read_failed_message(remote_path, stderr))
    }
}

/// A check of files that were pushed over ADB.
#[derive(Debug)]
pub struct AdbVerifyRun {
    files: Vec<LocalTransferFile>,
    below: bool,
    remote_root: String,
    file: usize,
}

pub struct AdbVerifyView {
    pub files: Seq<LocalFileView>,
    pub below: bool,
    pub remote_root: Seq<char>,
    pub file: int,
}

impl View for AdbVerifyRun {
    type V = AdbVerifyView;

    closed spec fn view(&self) -> AdbVerifyView {
        AdbVerifyView {
            files: manifest::local_views(self.files@),
            below: self.below,
            remote_root: self.remote_root@,
            file: self.file as int,
        }
    }
}

impl AdbVerifyView {
    pub open spec fn wf(self) -> bool {
        0 <= self.file <= self.files.len()
    }

    /// Where the file at hand stands on the device.
    pub open spec fn remote_file(self) -> Seq<char> {
        if self.below {
            paths::lane_path(self.remote_root, self.files[self.file].relative_path)
        } else {
            self.remote_root
        }
    }

    /// What the digests of the file at hand come to.
    pub open spec fn judged(
        self,
        local: Result<Seq<char>, Seq<char>>,
        remote: Result<Option<Seq<char>>, Seq<char>>,
    ) -> Result<AdbVerifyView, Seq<char>> {
        match compared(
            self.files[self.file].relative_path,
            self.remote_file(),
            local,
            remote,
        ) {
            Ok(_) => Ok(AdbVerifyView { file: self.file + 1, ..self }),
            Err(m) => Err(m),
        }
    }
}

/// A check of files that were pushed over ADB, below the remote root where they stand in a
/// directory.
pub fn verify_adb_pc_to_android_transfer(
    files: Vec<LocalTransferFile>,
    local_is_dir: bool,
    remote_root: &str,
) -> (r: AdbVerifyRun)
    ensures
        r@ == (AdbVerifyView {
            files: manifest::local_views(files@),
            below: local_is_dir,
            remote_root: remote_root@,
            file: 0,
        }),
        r@.wf(),
{
    AdbVerifyRun { files, below: local_is_dir, remote_root: remote_root.to_string(), file: 0 }
}

impl AdbVerifyRun {
    /// The file to make digests of, here and on the device; none once all are checked.
    pub fn next_file(&self) -> (r: Option<(String, String)>)
        requires
            self@.wf(),
        ensures
            match r {
                Some((local, remote)) => self@.file < self@.files.len() && local@
                    == self@.files[self@.file].local_path && remote@ == self@.remote_file(),
                None => self@.file == self@.files.len(),
            },
    {
        if self.file >= self.files.len() {
            return None;
        }
        let f = &self.files[self.file];
        let remote = if self.below {
            paths::adb_like_remote_join(self.remote_root.as_str(), f.relative_path.as_str())
        } else {
            self.remote_root.clone()
        };
        Some((f.local_path.clone(), remote))
    }

    /// Takes in the digests of the file at hand.
    pub fn take_digests(
        &mut self,
        local: &Result<String, String>,
        remote: &Result<Option<String>, String>,
    ) -> (r: Result<(), String>)
        requires
            old(self)@.wf(),
            old(self)@.file < old(self)@.files.len(),
        ensures
            final(self)@.wf(),
            match (
                r,
                old(self)@.judged(adb_command::outcome_view(*local), digest_view(*remote)),
            ) {
                (Ok(_), Ok(v)) => final(self)@ == v,
                (Err(m), Err(e)) => m@ == e && final(self)@ == old(self)@,
                _ => false,
            },
    {
        let f = &self.files[self.file];
        let remote_file = if self.below {
            paths::adb_like_remote_join(self.remote_root.as_str(), f.relative_path.as_str())
        } else {
            self.remote_root.clone()
        };
        match compare_digests(f.relative_path.as_str(), remote_file.as_str(), local, remote) {
            Ok(_) => {
                assert(self.files.len() <= usize::MAX);
                self.file += 1;
                Ok(())
            },
            Err(m) => Err(m),
        }
    }
}

/// Where the ADB lane stands.
#[derive(Debug)]
pub enum AdbLaneStage {
    /// A file is to be told of.
    Begin,
    Push,
    Check,
    Done,
    Failed(String),
}

pub enum AdbLaneStageView {
    Begin,
    Push,
    Check,
    Done,
    Failed(Seq<char>),
}

impl View for AdbLaneStage {
    type V = AdbLaneStageView;

    open spec fn view(&self) -> AdbLaneStageView {
        match self {
            AdbLaneStage::Begin => AdbLaneStageView::Begin,
            AdbLaneStage::Push => AdbLaneStageView::Push,
            AdbLaneStage::Check => AdbLaneStageView::Check,
            AdbLaneStage::Done => AdbLaneStageView::Done,
            AdbLaneStage::Failed(m) => AdbLaneStageView::Failed(m@),
        }
    }
}

/// What to do.
#[derive(Debug)]
pub enum AdbLaneStep {
    /// Take in what is told of the next file.
    Tell,
    /// Push the file to the path.
    Push { file: LocalTransferFile, remote_file: String },
    /// Make digests of the file, here and on the device.
    Digests { local_path: String, remote_file: String },
    /// Nothing; the text says what was done.
    Done(String),
}

pub enum AdbLaneStepView {
    Tell,
    Push { file: LocalFileView, remote_file: Seq<char> },
    Digests { local_path: Seq<char>, remote_file: Seq<char> },
    Done(Seq<char>),
}

impl View for AdbLaneStep {
    type V = AdbLaneStepView;

    open spec fn view(&self) -> AdbLaneStepView {
        match self {
            AdbLaneStep::Tell => AdbLaneStepView::Tell,
            AdbLaneStep::Push { file, remote_file } => AdbLaneStepView::Push {
                file: file@,
                remote_file: remote_file@,
            },
            AdbLaneStep::Digests { local_path, remote_file } => AdbLaneStepView::Digests {
                local_path: local_path@,
                remote_file: remote_file@,
            },
            AdbLaneStep::Done(m) => AdbLaneStepView::Done(m@),
        }
    }
}

/// The ADB lane under way.
#[derive(Debug)]
pub struct DualAdbRun {
    target_root: String,
    files: Vec<LocalTransferFile>,
    verify_enabled: bool,
    stage: AdbLaneStage,
    file: usize,
}

pub struct DualAdbView {
    pub target_root: Seq<char>,
    pub files: Seq<LocalFileView>,
    pub verify_enabled: bool,
    pub stage: AdbLaneStageView,
    pub file: int,
}

impl View for DualAdbRun {
    type V = DualAdbView;

    closed spec fn view(&self) -> DualAdbView {
        DualAdbView {
            target_root: self.target_root@,
            files: manifest::local_views(self.files@),
            verify_enabled: self.verify_enabled,
            stage: self.stage@,
            file: self.file as int,
        }
    }
}

impl DualAdbView {
    pub open spec fn wf(self) -> bool {
        &&& 0 <= self.file <= self.files.len()
        &&& self.stage is Begin || self.stage is Push || self.stage is Check ==> self.file
            < self.files.len()
        &&& self.stage is Done ==> self.file == self.files.len()
    }

    pub open spec fn at(self) -> LocalFileView {
        self.files[self.file]
    }

    /// Where the file at hand goes.
    pub open spec fn remote_file(self) -> Seq<char> {
        paths::lane_path(self.target_root, self.at().relative_path)
    }

    pub open spec fn to(self, stage: AdbLaneStageView) -> DualAdbView {
        DualAdbView { stage, ..self }
    }

    /// Goes on to a file, or to the end.
    pub open spec fn to_file(self, file: int) -> DualAdbView {
        DualAdbView {
            file,
            stage: if file < self.files.len() {
                AdbLaneStageView::Begin
            } else {
                AdbLaneStageView::Done
            },
            ..self
        }
    }

    /// What to do, or why nothing more is done.
    pub open spec fn step(self) -> Result<AdbLaneStepView, Seq<char>> {
        match self.stage {
            AdbLaneStageView::Begin => Ok(AdbLaneStepView::Tell),
            AdbLaneStageView::Push => Ok(
                AdbLaneStepView::Push { file: self.at(), remote_file: self.remote_file() },
            ),
            AdbLaneStageView::Check => Ok(
                AdbLaneStepView::Digests {
                    local_path: self.at().local_path,
                    remote_file: self.remote_file(),
                },
            ),
            AdbLaneStageView::Done => Ok(
                AdbLaneStepView::Done(
                    "ADB lane completed "@ + decimal::dec(self.files.len()) + " file(s)"@,
                ),
            ),
            AdbLaneStageView::Failed(m) => Err(m),
        }
    }

    /// The next file is told of.
    pub open spec fn told(self) -> (DualAdbView, LaneNotesView) {
        (
            self.to(AdbLaneStageView::Push),
            LaneNotesView {
                engine: Seq::empty(),
                dual: seq![
                    DualNoteView::Started {
                        size_bytes: self.at().size_bytes,
                        relative_path: self.at().relative_path,
                        remote_path: self.remote_file(),
                        event: "adb-file-started"@,
                    },
                ],
            },
        )
    }

    /// The file was pushed, or was not.
    pub open spec fn pushed(self, outcome: Result<Seq<char>, Seq<char>>) -> DualAdbView {
        match outcome {
            Err(m) => self.to(AdbLaneStageView::Failed(m)),
            Ok(_) => if self.verify_enabled {
                self.to(AdbLaneStageView::Check)
            } else {
                self.to_file(self.file + 1)
            },
        }
    }

    /// The digests of the file were made.
    pub open spec fn checked(
        self,
        local: Result<Seq<char>, Seq<char>>,
        remote: Result<Option<Seq<char>>, Seq<char>>,
    ) -> DualAdbView {
        match compared(self.at().relative_path, self.remote_file(), local, remote) {
            Err(m) => self.to(AdbLaneStageView::Failed(m)),
            Ok(_) => self.to_file(self.file + 1),
        }
    }
}

/// The ADB lane of a transfer over two lanes.
pub fn run_dual_adb_pc_to_android_files(
    target_root: &str,
    files: Vec<LocalTransferFile>,
    verify_enabled: bool,
) -> (r: DualAdbRun)
    ensures
        r@ == (DualAdbView {
            target_root: target_root@,
            files: manifest::local_views(files@),
            verify_enabled,
            stage: AdbLaneStageView::Done,
            file: 0,
        }).to_file(0),
        r@.wf(),
{
    let stage = if files.len() > 0 {
        AdbLaneStage::Begin
    } else {
        AdbLaneStage::Done
    };
    DualAdbRun { target_root: target_root.to_string(), files, verify_enabled, stage, file: 0 }
}

impl DualAdbRun {
    fn remote_file(&self) -> (r: String)
        requires
            self@.file < self@.files.len(),
        ensures
            r@ == self@.remote_file(),
    {
        paths::adb_like_remote_join(
            self.target_root.as_str(),
            self.files[self.file].relative_path.as_str(),
        )
    }

    /// What to do, or why nothing more is done.
    pub fn next_step(&self) -> (r: Result<AdbLaneStep, String>)
        requires
            self@.wf(),
        ensures
            match (r, self@.step()) {
                (Ok(a), Ok(b)) => a@ == b,
                (Err(a), Err(b)) => a@ == b,
                _ => false,
            },
    {
        match &self.stage {
            AdbLaneStage::Begin => Ok(AdbLaneStep::Tell),
            AdbLaneStage::Push => Ok(
                AdbLaneStep::Push {
                    file: self.files[self.file].clone(),
                    remote_file: self.remote_file(),
                },
            ),
            AdbLaneStage::Check => Ok(
                AdbLaneStep::Digests {
                    local_path: self.files[self.file].local_path.clone(),
                    remote_file: self.remote_file(),
                },
            ),
            AdbLaneStage::Done => {
                let mut m = "ADB lane completed ".to_string();
                m.append(decimal::dec_text(self.files.len() as u128).as_str());
                m.append(" file(s)");
                Ok(AdbLaneStep::Done(m))
            },
            AdbLaneStage::Failed(m) => Err(m.clone()),
        }
    }

    fn go_to_next_file(&mut self)
        requires
            old(self)@.file < old(self)@.files.len(),
        ensures
            final(self)@ == old(self)@.to_file(old(self)@.file + 1),
    {
        let total: usize = self.files.len();
        self.file += 1;
        self.stage = if self.file < total {
            AdbLaneStage::Begin
        } else {
            AdbLaneStage::Done
        };
    }

    /// What is told of the next file.
    pub fn tell(&mut self) -> (r: LaneNotes)
        requires
            old(self)@.wf(),
            old(self)@.stage is Begin,
        ensures
            final(self)@.wf(),
            final(self)@ == old(self)@.told().0,
            r@ == old(self)@.told().1,
    {
        let mut told = dual_wifi_run::silent_lane();
        let f = &self.files[self.file];
        told.dual.push(
            DualNote::Started {
                size_bytes: f.size_bytes,
                relative_path: f.relative_path.clone(),
                remote_path: self.remote_file(),
                event: "adb-file-started".to_string(),
            },
        );
        assert(notes::note_views(told.dual@) =~= old(self)@.told().1.dual);
        self.stage = AdbLaneStage::Push;
        told
    }

    /// Takes in what became of the push of a file.
    pub fn take_push(&mut self, outcome: &Result<String, String>)
        requires
            old(self)@.wf(),
            old(self)@.stage is Push,
        ensures
            final(self)@.wf(),
            final(self)@ == old(self)@.pushed(adb_command::outcome_view(*outcome)),
    {
        match outcome {
            Err(m) => {
                self.stage = AdbLaneStage::Failed(m.clone());
            },
            Ok(_) => {
                if self.verify_enabled {
                    self.stage = AdbLaneStage::Check;
                } else {
                    self.go_to_next_file();
                }
            },
        }
    }

    /// Takes in the digests of a file.
    pub fn take_digests(
        &mut self,
        local: &Result<String, String>,
        remote: &Result<Option<String>, String>,
    )
        requires
            old(self)@.wf(),
            old(self)@.stage is Check,
        ensures
            final(self)@.wf(),
            final(self)@ == old(self)@.checked(
                adb_command::outcome_view(*local),
                digest_view(*remote),
            ),
    {
        let remote_file = self.remote_file();
        match compare_digests(
            self.files[self.file].relative_path.as_str(),
            remote_file.as_str(),
            local,
            remote,
        ) {
            Err(m) => {
                self.stage = AdbLaneStage::Failed(m);
            },
            Ok(_) => {
                self.go_to_next_file();
            },
        }
    }
}

/// A file passes the lane with its check only where the digests on both sides are equal.
pub proof fn lemma_checked_files_are_equal(
    v: DualAdbView,
    local: Result<Seq<char>, Seq<char>>,
    remote: Result<Option<Seq<char>>, Seq<char>>,
)
    requires
        v.wf(),
        v.stage is Check,
        !(v.checked(local, remote).stage is Failed),
    ensures
        local matches Ok(l) && remote matches Ok(Some(r)) && l == r,
{
}

/// The digests of a file agree exactly where both were made and are equal; a complaint on the local side
/// comes before one on the other.
pub proof fn lemma_digests_agree_only_if_equal(
    subject: Seq<char>,
    remote_file: Seq<char>,
    local: Result<Seq<char>, Seq<char>>,
    remote: Result<Option<Seq<char>>, Seq<char>>,
)
    ensures
        compared(subject, remote_file, local, remote) is Ok <==> local is Ok && remote == Ok::<
            Option<Seq<char>>,
            Seq<char>,
        >(Some(local->Ok_0)),
        local is Err ==> compared(subject, remote_file, local, remote) == Err::<(), Seq<char>>(
            local->Err_0,
        ),
        local is Ok && remote is Err ==> compared(subject, remote_file, local, remote) == Err::<
            (),
            Seq<char>,
        >(remote->Err_0),
        local is Ok && remote == Ok::<Option<Seq<char>>, Seq<char>>(None) ==> compared(
            subject,
            remote_file,
            local,
            remote,
        ) == Err::<(), Seq<char>>("remote file not found for verify: "@ + remote_file),
{
}

/// A file on the device has a digest exactly where it is there and could be read.
pub proof fn lemma_remote_digest_is_of_a_file_that_was_read(
    size: Option<u64>,
    success: bool,
    digest: Seq<char>,
    complaint: Seq<char>,
)
    ensures
        remote_digest(size, success, digest, complaint) == Ok::<Option<Seq<char>>, Seq<char>>(
            Some(digest),
        ) <==> size is Some && success,
        size is None ==> remote_digest(size, success, digest, complaint) == Ok::<
            Option<Seq<char>>,
            Seq<char>,
        >(None),
        size is Some && !success ==> remote_digest(size, success, digest, complaint) == Err::<
            Option<Seq<char>>,
            Seq<char>,
        >(complaint),
{
}

/// A check of pushed files goes on to the next file exactly past one whose digests are equal, and looks for
/// each file where it was pushed.
pub proof fn lemma_check_passes_equal_files(
    v: AdbVerifyView,
    local: Result<Seq<char>, Seq<char>>,
    remote: Result<Option<Seq<char>>, Seq<char>>,
)
    requires
        v.wf(),
        v.file < v.files.len(),
    ensures
        v.judged(local, remote) is Ok <==> local is Ok && remote == Ok::<
            Option<Seq<char>>,
            Seq<char>,
        >(Some(local->Ok_0)),
        v.judged(local, remote) matches Ok(u) ==> u.file == v.file + 1 && u.files == v.files
            && u.below == v.below && u.remote_root == v.remote_root,
        v.remote_file() == (if v.below {
            paths::lane_path(v.remote_root, v.files[v.file].relative_path)
        } else {
            v.remote_root
        }),
{
}

/// The ADB lane takes the files in order: it tells of a file, has it pushed below the target root, and where
/// files are to be checked has digests made of the same file on both sides before it goes on. A file that
/// was not pushed, or whose digests differ, ends the lane.
pub proof fn lemma_adb_lane_goes_in_order(
    v: DualAdbView,
    output: Seq<char>,
    digest: Seq<char>,
    other: Option<Seq<char>>,
    m: Seq<char>,
)
    requires
        v.wf(),
        v.stage is Begin,
        other != Some(digest),
    ensures
        ({
            let file = v.files[v.file];
            let target = paths::lane_path(v.target_root, file.relative_path);
            let (a, notes) = v.told();
            let b = a.pushed(Ok(output));
            let c = if v.verify_enabled {
                b.checked(Ok(digest), Ok(Some(digest)))
            } else {
                b
            };
            &&& v.step() == Ok::<AdbLaneStepView, Seq<char>>(AdbLaneStepView::Tell)
            &&& notes.engine.len() == 0 && notes.dual.len() == 1 && (
            notes.dual[0] matches DualNoteView::Started { size_bytes, relative_path, remote_path, .. }
                && size_bytes == file.size_bytes && relative_path == file.relative_path
                && remote_path == target)
            &&& a.step() == Ok::<AdbLaneStepView, Seq<char>>(
                AdbLaneStepView::Push { file, remote_file: target },
            )
            &&& a.file == v.file
            &&& v.verify_enabled ==> b.file == v.file && b.step() == Ok::<
                AdbLaneStepView,
                Seq<char>,
            >(AdbLaneStepView::Digests { local_path: file.local_path, remote_file: target })
                && b.checked(Ok(digest), Ok(other)).step() is Err && b.checked(
                Err(m),
                Ok(other),
            ).step() == Err::<AdbLaneStepView, Seq<char>>(m)
            &&& c.file == v.file + 1 && c.files == v.files && c.verify_enabled == v.verify_enabled
                && c.target_root == v.target_root
            &&& c.stage is Done <==> v.file + 1 == v.files.len()
            &&& !(c.stage is Done) ==> c.stage is Begin
            &&& a.pushed(Err(m)).step() == Err::<AdbLaneStepView, Seq<char>>(m)
        }),
{
}

} // verus!
