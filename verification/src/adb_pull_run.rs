//! A pull of one path from a device over ADB.

use crate::adb_command;
use crate::adb_run;
use crate::cards::{AdbTransferCard, CardView};
use crate::decimal;
use crate::notes::EngineNote;
use crate::paths;
use crate::scheduler::LaneAssignment;
use vstd::prelude::*;

verus! {

/// Where a pull over ADB stands.
#[derive(Debug)]
pub enum AdbPullStage {
    /// The size on the device is to be asked for.
    Size,
    /// So many bytes are to be pulled.
    Pull(u64),
    /// So many bytes came, the command said something, and the file at a place is to be checked.
    Check(u64, String, String),
    Done(String),
    Failed(String),
}

#[verifier::ext_equal]
pub enum AdbPullStageView {
    Size,
    Pull(u64),
    Check(u64, Seq<char>, Seq<char>),
    Done(Seq<char>),
    Failed(Seq<char>),
}

impl View for AdbPullStage {
    type V = AdbPullStageView;

    open spec fn view(&self) -> AdbPullStageView {
        match self {
            AdbPullStage::Size => AdbPullStageView::Size,
            AdbPullStage::Pull(n) => AdbPullStageView::Pull(*n),
            AdbPullStage::Check(n, o, t) => AdbPullStageView::Check(*n, o@, t@),
            AdbPullStage::Done(m) => AdbPullStageView::Done(m@),
            AdbPullStage::Failed(m) => AdbPullStageView::Failed(m@),
        }
    }
}

/// What is to be done next.
#[derive(Debug, PartialEq, Eq)]
pub enum AdbPullStep {
    AskSize,
    Pull,
    /// The digests of a local file and of the file on the device are to be taken.
    Digests(String),
    Done(String),
}

pub enum AdbPullStepView {
    AskSize,
    Pull,
    Digests(Seq<char>),
    Done(Seq<char>),
}

impl View for AdbPullStep {
    type V = AdbPullStepView;

    open spec fn view(&self) -> AdbPullStepView {
        match self {
            AdbPullStep::AskSize => AdbPullStepView::AskSize,
            AdbPullStep::Pull => AdbPullStepView::Pull,
            AdbPullStep::Digests(p) => AdbPullStepView::Digests(p@),
            AdbPullStep::Done(m) => AdbPullStepView::Done(m@),
        }
    }
}

/// The view of a step or a complaint.
pub open spec fn step_view(r: Result<AdbPullStep, String>) -> Result<AdbPullStepView, Seq<char>> {
    match r {
        Ok(s) => Ok(s@),
        Err(m) => Err(m@),
    }
}

/// What is told of a pull.
#[derive(Debug, PartialEq, Eq)]
pub enum AdbPullNote {
    /// Nothing.
    Silent,
    /// It started, with so many bytes.
    Started(u64),
    /// It is done, with so many bytes and what the command said.
    Completed(u64, String),
}

pub enum AdbPullNoteView {
    Silent,
    Started(u64),
    Completed(u64, Seq<char>),
}

impl View for AdbPullNote {
    type V = AdbPullNoteView;

    open spec fn view(&self) -> AdbPullNoteView {
        match self {
            AdbPullNote::Silent => AdbPullNoteView::Silent,
            AdbPullNote::Started(n) => AdbPullNoteView::Started(*n),
            AdbPullNote::Completed(n, o) => AdbPullNoteView::Completed(*n, o@),
        }
    }
}

/// A pull of one path from a device over ADB.
#[derive(Debug)]
pub struct AdbPullRun {
    remote_path: String,
    local_root: String,
    verify_enabled: bool,
    stage: AdbPullStage,
}

#[verifier::ext_equal]
pub struct AdbPullView {
    pub remote_path: Seq<char>,
    pub local_root: Seq<char>,
    pub verify_enabled: bool,
    pub stage: AdbPullStageView,
}

impl View for AdbPullRun {
    type V = AdbPullView;

    closed spec fn view(&self) -> AdbPullView {
        AdbPullView {
            remote_path: self.remote_path@,
            local_root: self.local_root@,
            verify_enabled: self.verify_enabled,
            stage: self.stage@,
        }
    }
}

/// What is said at the end of a pull.
pub open spec fn pull_summary(
    remote_path: Seq<char>,
    local_root: Seq<char>,
    size: u64,
    output: Seq<char>,
) -> Seq<char> {
    "ADB Android -> PC pull completed: remote="@ + remote_path + " local="@ + local_root
        + " bytes="@ + decimal::dec(size as nat) + "\n"@ + output
}

impl AdbPullView {
    pub open spec fn to(self, stage: AdbPullStageView) -> AdbPullView {
        AdbPullView { stage, ..self }
    }

    /// What is to be done next; a complaint where the pull failed.
    pub open spec fn step(self) -> Result<AdbPullStepView, Seq<char>> {
        match self.stage {
            AdbPullStageView::Size => Ok(AdbPullStepView::AskSize),
            AdbPullStageView::Pull(_) => Ok(AdbPullStepView::Pull),
            AdbPullStageView::Check(_, _, target) => Ok(AdbPullStepView::Digests(target)),
            AdbPullStageView::Done(m) => Ok(AdbPullStepView::Done(m)),
            AdbPullStageView::Failed(m) => Err(m),
        }
    }

    /// The size is told; a path without a size counts no bytes.
    pub open spec fn sized(self, size: Result<Option<u64>, Seq<char>>) -> (
        AdbPullView,
        AdbPullNoteView,
    ) {
        match size {
            Err(m) => (self.to(AdbPullStageView::Failed(m)), AdbPullNoteView::Silent),
            Ok(s) => {
                let n: u64 = match s {
                    Some(n) => n,
                    None => 0,
                };
                (self.to(AdbPullStageView::Pull(n)), AdbPullNoteView::Started(n))
            },
        }
    }

    /// The pull is done.
    pub open spec fn finished(self, size: u64, output: Seq<char>) -> (AdbPullView, AdbPullNoteView) {
        (
            self.to(
                AdbPullStageView::Done(
                    pull_summary(self.remote_path, self.local_root, size, output),
                ),
            ),
            AdbPullNoteView::Completed(size, output),
        )
    }

    /// The command ended.
    pub open spec fn pulled(self, outcome: Result<Seq<char>, Seq<char>>) -> (
        AdbPullView,
        AdbPullNoteView,
    ) {
        match (self.stage, outcome) {
            (AdbPullStageView::Pull(size), Ok(output)) => match paths::pull_target(
                self.local_root,
                self.remote_path,
            ) {
                Err(m) => (self.to(AdbPullStageView::Failed(m)), AdbPullNoteView::Silent),
                Ok(target) => if self.verify_enabled {
                    (
                        self.to(AdbPullStageView::Check(size, output, target)),
                        AdbPullNoteView::Silent,
                    )
                } else {
                    self.finished(size, output)
                },
            },
            (_, Err(m)) => (self.to(AdbPullStageView::Failed(m)), AdbPullNoteView::Silent),
            _ => (self, AdbPullNoteView::Silent),
        }
    }

    /// The digests of both sides are told.
    pub open spec fn checked(
        self,
        local: Result<Seq<char>, Seq<char>>,
        remote: Result<Option<Seq<char>>, Seq<char>>,
    ) -> (AdbPullView, AdbPullNoteView) {
        match (
            self.stage,
            adb_run::compared(self.remote_path, self.remote_path, local, remote),
        ) {
            (AdbPullStageView::Check(size, output, _), Ok(_)) => self.finished(size, output),
            (_, Err(m)) => (self.to(AdbPullStageView::Failed(m)), AdbPullNoteView::Silent),
            _ => (self, AdbPullNoteView::Silent),
        }
    }
}

/// The view of a size or a complaint.
pub open spec fn size_outcome(r: Result<Option<u64>, String>) -> Result<Option<u64>, Seq<char>> {
    match r {
        Ok(s) => Ok(s),
        Err(m) => Err(m@),
    }
}

/// A pull of a path from a device over ADB.
pub fn run_adb_android_to_pc(remote_path: &str, local_root: &str, verify_enabled: bool) -> (r:
    AdbPullRun)
    ensures
        r@ == (AdbPullView {
            remote_path: remote_path@,
            local_root: local_root@,
            verify_enabled,
            stage: AdbPullStageView::Size,
        }),
{
    AdbPullRun {
        remote_path: remote_path.to_string(),
        local_root: local_root.to_string(),
        verify_enabled,
        stage: AdbPullStage::Size,
    }
}

impl AdbPullRun {
    /// What is to be done next.
    pub fn next_step(&self) -> (r: Result<AdbPullStep, String>)
        ensures
            step_view(r) == self@.step(),
    {
        match &self.stage {
            AdbPullStage::Size => Ok(AdbPullStep::AskSize),
            AdbPullStage::Pull(_) => Ok(AdbPullStep::Pull),
            AdbPullStage::Check(_, _, target) => Ok(AdbPullStep::Digests(target.clone())),
            AdbPullStage::Done(m) => Ok(AdbPullStep::Done(m.clone())),
            AdbPullStage::Failed(m) => Err(m.clone()),
        }
    }

    fn fail(&mut self, m: &str) -> (r: AdbPullNote)
        ensures
            final(self)@ == old(self)@.to(AdbPullStageView::Failed(m@)),
            r@ == AdbPullNoteView::Silent,
    {
        self.stage = AdbPullStage::Failed(m.to_string());
        AdbPullNote::Silent
    }

    fn finish(&mut self, size: u64, output: &str) -> (r: AdbPullNote)
        ensures
            (final(self)@, r@) == old(self)@.finished(size, output@),
    {
        let mut s = "ADB Android -> PC pull completed: remote=".to_string();
        s.append(self.remote_path.as_str());
        s.append(" local=");
        s.append(self.local_root.as_str());
        s.append(" bytes=");
        s.append(decimal::dec_text(size as u128).as_str());
        s.append("\n");
        s.append(output);
        self.stage = AdbPullStage::Done(s);
        AdbPullNote::Completed(size, output.to_string())
    }

    /// Takes the size on the device.
    pub fn take_size(&mut self, size: &Result<Option<u64>, String>) -> (r: AdbPullNote)
        requires
            old(self)@.stage is Size,
        ensures
            (final(self)@, r@) == old(self)@.sized(size_outcome(*size)),
    {
        match size {
            Err(m) => self.fail(m.as_str()),
            Ok(s) => {
                let n: u64 = match s {
                    Some(n) => *n,
                    None => 0,
                };
                self.stage = AdbPullStage::Pull(n);
                AdbPullNote::Started(n)
            },
        }
    }

    /// Takes what the pull came to.
    pub fn take_pull(&mut self, outcome: &Result<String, String>) -> (r: AdbPullNote)
        requires
            old(self)@.stage is Pull,
        ensures
            (final(self)@, r@) == old(self)@.pulled(adb_command::outcome_view(*outcome)),
    {
        let size: u64 = match &self.stage {
            AdbPullStage::Pull(n) => *n,
            _ => 0,
        };
        match outcome {
            Err(m) => self.fail(m.as_str()),
            Ok(output) => match paths::resolve_adb_pull_local_target(
                self.local_root.as_str(),
                self.remote_path.as_str(),
            ) {
                Err(m) => self.fail(m.as_str()),
                Ok(target) => if self.verify_enabled {
                    self.stage = AdbPullStage::Check(size, output.clone(), target);
                    AdbPullNote::Silent
                } else {
                    self.finish(size, output.as_str())
                },
            },
        }
    }

    /// Takes the digests of both sides.
    pub fn take_digests(
        &mut self,
        local: &Result<String, String>,
        remote: &Result<Option<String>, String>,
    ) -> (r: AdbPullNote)
        requires
            old(self)@.stage is Check,
        ensures
            (final(self)@, r@) == old(self)@.checked(
                adb_command::outcome_view(*local),
                adb_run::digest_view(*remote),
            ),
    {
        let (size, output): (u64, String) = match &self.stage {
            AdbPullStage::Check(n, o, _) => (*n, o.clone()),
            _ => (0, "".to_string()),
        };
        match adb_run::compare_digests(
            self.remote_path.as_str(),
            self.remote_path.as_str(),
            local,
            remote,
        ) {
            Err(m) => self.fail(m.as_str()),
            Ok(_) => self.finish(size, output.as_str()),
        }
    }

    /// Shows on a card what is told of this pull.
    pub fn show(&self, note: &AdbPullNote, card: &mut AdbTransferCard)
        ensures
            final(card)@ == shown_pull(self@, note@, old(card)@),
    {
        match note {
            AdbPullNote::Silent => {},
            AdbPullNote::Started(n) => {
                card.note_pull_started(*n, self.remote_path.as_str(), self.local_root.as_str());
            },
            AdbPullNote::Completed(n, output) => {
                card.note_pull_completed(*n, output.as_str(), self.verify_enabled);
            },
        }
    }
}

/// The card of a transfer with what is told of its pull.
pub open spec fn shown_pull(p: AdbPullView, note: AdbPullNoteView, card: CardView) -> CardView {
    match note {
        AdbPullNoteView::Silent => card,
        AdbPullNoteView::Started(n) => card.pull_started(n, p.remote_path, p.local_root),
        AdbPullNoteView::Completed(n, output) => card.pull_completed(n, output, p.verify_enabled),
    }
}

impl AdbPullNote {
    /// What is recorded of a pull that is done: its one file.
    pub fn engine_note(&self) -> (r: Option<EngineNote>)
        ensures
            r == (match self@ {
                AdbPullNoteView::Completed(_, _) => Some(
                    EngineNote::File { file_index: 0, lane: LaneAssignment::Adb, skipped: false },
                ),
                _ => None,
            }),
    {
        match self {
            AdbPullNote::Completed(_, _) => Some(
                EngineNote::File { file_index: 0, lane: LaneAssignment::Adb, skipped: false },
            ),
            _ => None,
        }
    }
}

/// A checked pull is done only where both sides have one digest.
pub proof fn lemma_checked_pull_is_equal(
    p: AdbPullView,
    local: Result<Seq<char>, Seq<char>>,
    remote: Result<Option<Seq<char>>, Seq<char>>,
)
    requires
        p.stage is Check,
    ensures
        p.checked(local, remote).0.stage is Done <==> local is Ok && remote == Ok::<
            Option<Seq<char>>,
            Seq<char>,
        >(Some(local->Ok_0)),
{
}

/// A pull that is to be checked is not done when its command ends.
pub proof fn lemma_pull_waits_for_check(p: AdbPullView, outcome: Result<Seq<char>, Seq<char>>)
    requires
        p.stage is Pull,
        p.verify_enabled,
    ensures
        !(p.pulled(outcome).0.stage is Done),
{
}

/// A pull asks for the size on the device, tells that it started with so many bytes, runs the command, and
/// where it is to be checked has digests made of the file that the command wrote. It is told as done with
/// the size and what the command said: after a check that found both sides equal, or at once where none
/// was asked for. What goes wrong ends it, and nothing is told then.
pub proof fn lemma_adb_pull_goes_in_order(
    p: AdbPullView,
    size: Option<u64>,
    output: Seq<char>,
    digest: Seq<char>,
    m: Seq<char>,
)
    requires
        p.stage is Size,
    ensures
        ({
            let n: u64 = match size {
                Some(n) => n,
                None => 0,
            };
            let target = paths::pull_target(p.local_root, p.remote_path);
            let (a, started) = p.sized(Ok(size));
            let (b, note) = a.pulled(Ok(output));
            let (c, end) = if p.verify_enabled {
                b.checked(Ok(digest), Ok(Some(digest)))
            } else {
                (b, note)
            };
            &&& p.step() == Ok::<AdbPullStepView, Seq<char>>(AdbPullStepView::AskSize)
            &&& started == AdbPullNoteView::Started(n)
            &&& a.step() == Ok::<AdbPullStepView, Seq<char>>(AdbPullStepView::Pull)
            &&& target is Ok && p.verify_enabled ==> b.step() == Ok::<AdbPullStepView, Seq<char>>(
                AdbPullStepView::Digests(target->Ok_0),
            ) && note is Silent
            &&& target is Ok ==> end == AdbPullNoteView::Completed(n, output) && c.step() == Ok::<
                AdbPullStepView,
                Seq<char>,
            >(
                AdbPullStepView::Done(
                    "ADB Android -> PC pull completed: remote="@ + p.remote_path + " local="@
                        + p.local_root + " bytes="@ + decimal::dec(n as nat) + "\n"@ + output,
                ),
            )
            &&& target is Err ==> b.step() == Err::<AdbPullStepView, Seq<char>>(target->Err_0)
                && note is Silent
            &&& p.sized(Err(m)).0.step() == Err::<AdbPullStepView, Seq<char>>(m) && p.sized(
                Err(m),
            ).1 is Silent
            &&& a.pulled(Err(m)).0.step() == Err::<AdbPullStepView, Seq<char>>(m) && a.pulled(
                Err(m),
            ).1 is Silent
        }),
{
}

/// Where the digests of a checked pull differ, or one of them is missing, the pull ends with a complaint
/// and is not told as done.
pub proof fn lemma_unequal_pull_is_not_told_as_done(
    p: AdbPullView,
    local: Seq<char>,
    remote: Option<Seq<char>>,
    m: Seq<char>,
)
    requires
        p.stage is Check,
        remote != Some(local),
    ensures
        p.checked(Ok(local), Ok(remote)).0.step() is Err,
        p.checked(Ok(local), Ok(remote)).1 is Silent,
        p.checked(Err(m), Ok(remote)).0.step() == Err::<AdbPullStepView, Seq<char>>(m),
        p.checked(Ok(local), Err(m)).0.step() == Err::<AdbPullStepView, Seq<char>>(m),
{
}

} // verus!
