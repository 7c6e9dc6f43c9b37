//! Whether a file on the device is the same as the local one.

use crate::agent_ask::{AgentAsk, AskView};
use crate::checkpoint;
use crate::decimal;
use crate::digest;
use crate::json;
use crate::sizing;
use crate::text;
use crate::wifi_chunk;
use vstd::prelude::*;

verus! {

/// How long a file on the device is waited for, in milliseconds.
pub const WAIT_LIMIT_MS: u64 = 20_000;

/// How long to wait between two looks at a file on the device, in milliseconds.
pub const WAIT_PAUSE_MS: u64 = 250;

/// Whether a file on the device may be looked at again after a wait.
pub fn may_wait(waited_ms: u64) -> (r: bool)
    ensures
        r <==> waited_ms <= WAIT_LIMIT_MS,
{
    waited_ms <= WAIT_LIMIT_MS
}

/// The size that a reply tells.
pub open spec fn stat_size(reply: Result<Seq<char>, Seq<char>>, size: Option<u64>) -> Result<
    u64,
    Seq<char>,
> {
    match reply {
        Err(m) => Err(m),
        Ok(p) => match size {
            Some(n) => Ok(n),
            None => Err("agent stat did not include size_bytes: "@ + p),
        },
    }
}

/// The view of a size or a complaint.
pub open spec fn size_view(r: Result<u64, String>) -> Result<u64, Seq<char>> {
    match r {
        Ok(n) => Ok(n),
        Err(m) => Err(m@),
    }
}

/// The number under a key of an answer; nothing where none came.
pub open spec fn reply_number(reply: Result<Seq<char>, Seq<char>>, key: Seq<char>) -> Option<u64> {
    match reply {
        Ok(p) => json::json_number(p, key),
        Err(_) => None,
    }
}

/// The size that a reply tells, from what was read out of it.
pub fn told_size(reply: &Result<String, String>, size: Option<u64>) -> (r: Result<u64, String>)
    ensures
        size_view(r) == stat_size(crate::adb_command::outcome_view(*reply), size),
{
    match reply {
        Err(m) => Err(m.clone()),
        Ok(p) => match size {
            Some(n) => Ok(n),
            None => Err(checkpoint::about("agent stat did not include size_bytes: ", p.as_str())),
        },
    }
}

/// The size in an answer, if there is one.
pub fn size_in(reply: &Result<String, String>) -> (r: Option<u64>)
    ensures
        r == reply_number(crate::adb_command::outcome_view(*reply), "size_bytes"@),
{
    match reply {
        Ok(p) => json::number_field(p.as_str(), "size_bytes"),
        Err(_) => None,
    }
}

/// A file that is asked for until it has its size.
#[derive(Debug)]
pub struct SizeWait {
    relative_path: String,
    expected_size: u64,
    last_size: Option<u64>,
}

pub struct SizeWaitView {
    pub relative_path: Seq<char>,
    pub expected_size: u64,
    /// The last size told.
    pub last_size: Option<u64>,
}

impl View for SizeWait {
    type V = SizeWaitView;

    closed spec fn view(&self) -> SizeWaitView {
        SizeWaitView {
            relative_path: self.relative_path@,
            expected_size: self.expected_size,
            last_size: self.last_size,
        }
    }
}

/// Waits for a file to get its size.
pub fn wait_for_remote_file_size(relative_path: &str, expected_size: u64) -> (r: SizeWait)
    ensures
        r@ == (SizeWaitView { relative_path: relative_path@, expected_size, last_size: None }),
{
    SizeWait { relative_path: relative_path.to_string(), expected_size, last_size: None }
}

impl SizeWait {
    /// What to ask.
    pub fn next_ask(&self) -> (r: AgentAsk)
        ensures
            r@ == AskView::Stat(self@.relative_path),
    {
        AgentAsk::Stat(self.relative_path.clone())
    }

    /// Takes in an answer and the size that was read out of it; gives the size once it is the one
    /// waited for.
    pub fn take_answer(&mut self, reply: &Result<String, String>, size: Option<u64>) -> (r: Result<
        Option<u64>,
        String,
    >)
        ensures
            match (r, stat_size(crate::adb_command::outcome_view(*reply), size)) {
                (Err(a), Err(b)) => a@ == b && final(self)@ == old(self)@,
                (Ok(Some(n)), Ok(m)) => n == m && n == old(self)@.expected_size && final(self)@
                    == old(self)@,
                (Ok(None), Ok(m)) => m != old(self)@.expected_size && final(self)@ == (
                SizeWaitView { last_size: Some(m), ..old(self)@ }),
                _ => false,
            },
    {
        match told_size(reply, size) {
            Err(m) => Err(m),
            Ok(n) => {
                if n == self.expected_size {
                    Ok(Some(n))
                } else {
                    self.last_size = Some(n);
                    Ok(None)
                }
            },
        }
    }

    /// Takes in an answer.
    pub fn answer(&mut self, reply: &Result<String, String>) -> (r: Result<Option<u64>, String>)
        ensures
            ({
                let told = crate::adb_command::outcome_view(*reply);
                match (r, stat_size(told, reply_number(told, "size_bytes"@))) {
                    (Err(a), Err(b)) => a@ == b && final(self)@ == old(self)@,
                    (Ok(Some(n)), Ok(m)) => n == m && n == old(self)@.expected_size
                        && final(self)@ == old(self)@,
                    (Ok(None), Ok(m)) => m != old(self)@.expected_size && final(self)@ == (
                    SizeWaitView { last_size: Some(m), ..old(self)@ }),
                    _ => false,
                }
            }),
    {
        let size: Option<u64> = size_in(reply);
        self.take_answer(reply, size)
    }

    /// The size when it is not waited for any longer: the last one told, or none at all.
    pub fn expire(&self) -> (r: u64)
        ensures
            r == (match self@.last_size {
                Some(n) => n,
                None => 0,
            }),
    {
        match self.last_size {
            Some(n) => n,
            None => 0,
        }
    }
}

/// Whether an answer on a digest names the algorithm, in capital or small letters.
pub open spec fn algorithm_judged(
    actual: Option<Seq<char>>,
    payload: Seq<char>,
    expected: Seq<char>,
) -> Result<(), Seq<char>> {
    match actual {
        None => Err("agent verify did not include algorithm: "@ + payload),
        Some(a) => if text::lower_all(a) == text::lower_all(expected) {
            Ok(())
        } else {
            Err("agent verify algorithm mismatch: expected "@ + expected + ", got "@ + a)
        },
    }
}

/// Whether an answer names the algorithm, from what was read out of it.
pub fn judge_algorithm(actual: Option<&str>, payload: &str, expected: &str) -> (r: Result<
    (),
    String,
>)
    ensures
        wifi_chunk::unit_view(r) == algorithm_judged(text::str_view(actual), payload@, expected@),
{
    match actual {
        None => Err(checkpoint::about("agent verify did not include algorithm: ", payload)),
        Some(a) => {
            if text::str_eq(text::lowered(a).as_str(), text::lowered(expected).as_str()) {
                Ok(())
            } else {
                let mut m = "agent verify algorithm mismatch: expected ".to_string();
                m.append(expected);
                m.append(", got ");
                m.append(a);
                Err(m)
            }
        },
    }
}

/// Whether an answer names the algorithm.
pub fn ensure_verify_algorithm(payload: &str, expected_algorithm: &str) -> (r: Result<(), String>)
    ensures
        wifi_chunk::unit_view(r) == algorithm_judged(
            json::json_text(payload@, "algorithm"@),
            payload@,
            expected_algorithm@,
        ),
{
    let actual = json::text_field(payload, "algorithm");
    judge_algorithm(text::borrow_opt(&actual), payload, expected_algorithm)
}

/// Where the check of a file stands.
#[derive(Debug)]
pub enum VerifyStage {
    /// The file is to be asked for until it has its size; the last size told.
    Size(Option<u64>),
    /// The digest of the local file is to be made.
    LocalDigest,
    /// The agent is to be asked for its digest; the local one.
    RemoteDigest(String),
    /// A sample is to be fetched.
    Sample(usize),
    /// The digest of a local sample is to be made; that of the fetched one.
    LocalSample(usize, String),
    Passed,
    Failed(String),
}

pub enum VerifyStageView {
    Size(Option<u64>),
    LocalDigest,
    RemoteDigest(Seq<char>),
    Sample(int),
    LocalSample(int, Seq<char>),
    Passed,
    Failed(Seq<char>),
}

impl View for VerifyStage {
    type V = VerifyStageView;

    open spec fn view(&self) -> VerifyStageView {
        match self {
            VerifyStage::Size(n) => VerifyStageView::Size(*n),
            VerifyStage::LocalDigest => VerifyStageView::LocalDigest,
            VerifyStage::RemoteDigest(d) => VerifyStageView::RemoteDigest(d@),
            VerifyStage::Sample(i) => VerifyStageView::Sample(*i as int),
            VerifyStage::LocalSample(i, d) => VerifyStageView::LocalSample(*i as int, d@),
            VerifyStage::Passed => VerifyStageView::Passed,
            VerifyStage::Failed(m) => VerifyStageView::Failed(m@),
        }
    }
}

/// The check of a file on the device.
#[derive(Debug)]
pub struct RemoteVerify {
    relative_path: String,
    expected_size: u64,
    stage: VerifyStage,
}

pub struct VerifyView {
    pub relative_path: Seq<char>,
    pub expected_size: u64,
    pub stage: VerifyStageView,
}

/// What to do for the check of a file.
#[derive(Debug)]
pub enum VerifyStep {
    /// Ask the agent, and hand the text of the answer back.
    Ask(AgentAsk),
    /// Ask the agent, and hand the bytes of the answer back.
    Fetch(AgentAsk),
    /// Make the digest of the local file.
    DigestFile,
    /// Make the digest of a stretch of the local file.
    DigestRange(u64, u64),
    Passed,
    Failed(String),
}

pub enum VerifyStepView {
    Ask(AskView),
    Fetch(AskView),
    DigestFile,
    DigestRange(u64, u64),
    Passed,
    Failed(Seq<char>),
}

impl View for VerifyStep {
    type V = VerifyStepView;

    open spec fn view(&self) -> VerifyStepView {
        match self {
            VerifyStep::Ask(a) => VerifyStepView::Ask(a@),
            VerifyStep::Fetch(a) => VerifyStepView::Fetch(a@),
            VerifyStep::DigestFile => VerifyStepView::DigestFile,
            VerifyStep::DigestRange(o, n) => VerifyStepView::DigestRange(*o, *n),
            VerifyStep::Passed => VerifyStepView::Passed,
            VerifyStep::Failed(m) => VerifyStepView::Failed(m@),
        }
    }
}

impl VerifyView {
    pub open spec fn wf(self) -> bool {
        match self.stage {
            VerifyStageView::Sample(i) => 0 <= i < sizing::sample_ranges(self.expected_size).len(),
            VerifyStageView::LocalSample(i, _) => 0 <= i < sizing::sample_ranges(
                self.expected_size,
            ).len(),
            _ => true,
        }
    }

    /// The sample at hand.
    pub open spec fn range(self, i: int) -> (u64, u64) {
        sizing::sample_ranges(self.expected_size)[i]
    }

    /// What to do.
    pub open spec fn step(self) -> VerifyStepView {
        match self.stage {
            VerifyStageView::Size(_) => VerifyStepView::Ask(AskView::Stat(self.relative_path)),
            VerifyStageView::LocalDigest => VerifyStepView::DigestFile,
            VerifyStageView::RemoteDigest(_) => VerifyStepView::Ask(
                AskView::Verify(self.relative_path),
            ),
            VerifyStageView::Sample(i) => VerifyStepView::Fetch(
                AskView::PullBinary(self.relative_path, self.range(i).0, self.range(i).1),
            ),
            VerifyStageView::LocalSample(i, _) => VerifyStepView::DigestRange(
                self.range(i).0,
                self.range(i).1,
            ),
            VerifyStageView::Passed => VerifyStepView::Passed,
            VerifyStageView::Failed(m) => VerifyStepView::Failed(m),
        }
    }

    pub open spec fn at(self, stage: VerifyStageView) -> VerifyView {
        VerifyView { stage, ..self }
    }

    /// The file has its size: large files are checked by samples, others by their digests.
    pub open spec fn sized(self) -> VerifyView {
        if self.expected_size >= 134217728 {
            self.at(VerifyStageView::Sample(0))
        } else {
            self.at(VerifyStageView::LocalDigest)
        }
    }

    /// The file did not get its size in time.
    pub open spec fn expired(self) -> VerifyView {
        match self.stage {
            VerifyStageView::Size(last) => {
                let remote: u64 = match last {
                    Some(n) => n,
                    None => 0,
                };
                if remote == self.expected_size {
                    self.sized()
                } else {
                    self.at(
                        VerifyStageView::Failed(
                            "size mismatch for "@ + self.relative_path + ": local="@ + decimal::dec(
                                self.expected_size as nat,
                            ) + " remote="@ + decimal::dec(remote as nat),
                        ),
                    )
                }
            },
            _ => self,
        }
    }

    /// The agent answered; the size, the algorithm and the digest that the answer tells.
    pub open spec fn answered(
        self,
        reply: Result<Seq<char>, Seq<char>>,
        size: Option<u64>,
        algorithm: Option<Seq<char>>,
        told_digest: Option<Seq<char>>,
    ) -> VerifyView {
        match self.stage {
            VerifyStageView::Size(_) => match stat_size(reply, size) {
                Err(m) => self.at(VerifyStageView::Failed(m)),
                Ok(n) => if n == self.expected_size {
                    self.sized()
                } else {
                    self.at(VerifyStageView::Size(Some(n)))
                },
            },
            VerifyStageView::RemoteDigest(local) => match reply {
                Err(m) => self.at(VerifyStageView::Failed(m)),
                Ok(p) => match algorithm_judged(algorithm, p, "BLAKE3"@) {
                    Err(m) => self.at(VerifyStageView::Failed(m)),
                    Ok(_) => match told_digest {
                        None => self.at(
                            VerifyStageView::Failed("agent verify did not include digest: "@ + p),
                        ),
                        Some(remote) => if local == remote {
                            self.at(VerifyStageView::Passed)
                        } else {
                            self.at(
                                VerifyStageView::Failed(
                                    "verify failed for "@ + self.relative_path + ": local="@ + local
                                        + " remote="@ + remote,
                                ),
                            )
                        },
                    },
                },
            },
            _ => self,
        }
    }

    /// The agent answered.
    pub open spec fn after(self, reply: Result<Seq<char>, Seq<char>>) -> VerifyView {
        self.answered(
            reply,
            reply_number(reply, "size_bytes"@),
            wifi_chunk::reply_text(reply, "algorithm"@),
            wifi_chunk::reply_text(reply, "digest"@),
        )
    }

    /// Bytes were fetched.
    pub open spec fn fetched(self, bytes: Result<Seq<u8>, Seq<char>>) -> VerifyView {
        match self.stage {
            VerifyStageView::Sample(i) => match bytes {
                Err(m) => self.at(VerifyStageView::Failed(m)),
                Ok(b) => if b.len() != self.range(i).1 {
                    self.at(
                        VerifyStageView::Failed(
                            "sample verify short read for "@ + self.relative_path + ": offset="@
                                + decimal::dec(self.range(i).0 as nat) + " expected="@
                                + decimal::dec(self.range(i).1 as nat) + " actual="@ + decimal::dec(
                                b.len(),
                            ),
                        ),
                    )
                } else {
                    self.at(VerifyStageView::LocalSample(i, digest::blake3_hex(b)))
                },
            },
            _ => self,
        }
    }

    /// A local digest was made.
    pub open spec fn digested(self, local: Result<Seq<char>, Seq<char>>) -> VerifyView {
        match (self.stage, local) {
            (VerifyStageView::LocalDigest, Ok(d)) => self.at(VerifyStageView::RemoteDigest(d)),
            (VerifyStageView::LocalDigest, Err(m)) => self.at(VerifyStageView::Failed(m)),
            (VerifyStageView::LocalSample(_, _), Err(m)) => self.at(VerifyStageView::Failed(m)),
            (VerifyStageView::LocalSample(i, remote), Ok(d)) => if d != remote {
                self.at(
                    VerifyStageView::Failed(
                        "sample verify failed for "@ + self.relative_path + ": offset="@
                            + decimal::dec(self.range(i).0 as nat) + " length="@ + decimal::dec(
                            self.range(i).1 as nat,
                        ),
                    ),
                )
            } else if i + 1 < sizing::sample_ranges(self.expected_size).len() {
                self.at(VerifyStageView::Sample(i + 1))
            } else {
                self.at(VerifyStageView::Passed)
            },
            _ => self,
        }
    }
}

impl View for RemoteVerify {
    type V = VerifyView;

    closed spec fn view(&self) -> VerifyView {
        VerifyView {
            relative_path: self.relative_path@,
            expected_size: self.expected_size,
            stage: self.stage@,
        }
    }
}

/// The check of a file at its start.
pub open spec fn fresh_verify(relative_path: Seq<char>, expected_size: u64) -> VerifyView {
    VerifyView { relative_path, expected_size, stage: VerifyStageView::Size(None) }
}

/// The check whether a file on the device is the same as the local one.
pub fn verify_android_remote_file(relative_path: &str, expected_size: u64) -> (r: RemoteVerify)
    ensures
        r@ == fresh_verify(relative_path@, expected_size),
        r@.wf(),
{
    RemoteVerify {
        relative_path: relative_path.to_string(),
        expected_size,
        stage: VerifyStage::Size(None),
    }
}

impl RemoteVerify {
    /// What to do.
    pub fn next_step(&self) -> (r: VerifyStep)
        requires
            self@.wf(),
        ensures
            r@ == self@.step(),
    {
        let ranges = sizing::android_verify_sample_ranges(self.expected_size);
        match &self.stage {
            VerifyStage::Size(_) => VerifyStep::Ask(AgentAsk::Stat(self.relative_path.clone())),
            VerifyStage::LocalDigest => VerifyStep::DigestFile,
            VerifyStage::RemoteDigest(_) => VerifyStep::Ask(
                AgentAsk::Verify(self.relative_path.clone()),
            ),
            VerifyStage::Sample(i) => VerifyStep::Fetch(
                AgentAsk::PullBinary(self.relative_path.clone(), ranges[*i].0, ranges[*i].1),
            ),
            VerifyStage::LocalSample(i, _) => VerifyStep::DigestRange(ranges[*i].0, ranges[*i].1),
            VerifyStage::Passed => VerifyStep::Passed,
            VerifyStage::Failed(m) => VerifyStep::Failed(m.clone()),
        }
    }

    /// Whether the file is waited for.
    pub fn waits_for_size(&self) -> (r: bool)
        ensures
            r <==> self@.stage is Size,
    {
        match &self.stage {
            VerifyStage::Size(_) => true,
            _ => false,
        }
    }

    fn go_on(&mut self)
        ensures
            final(self)@ == old(self)@.sized(),
            final(self)@.wf(),
    {
        proof {
            sizing::lemma_samples_cover_edges(self.expected_size);
        }
        self.stage = if sizing::should_sample_android_verify(self.expected_size) {
            VerifyStage::Sample(0)
        } else {
            VerifyStage::LocalDigest
        };
    }

    /// Waits no longer for the file to get its size.
    pub fn expire(&mut self)
        requires
            old(self)@.wf(),
            old(self)@.stage is Size,
        ensures
            final(self)@ == old(self)@.expired(),
            final(self)@.wf(),
    {
        let remote: u64 = match &self.stage {
            VerifyStage::Size(Some(n)) => *n,
            _ => 0,
        };
        if remote == self.expected_size {
            self.go_on();
        } else {
            let mut m = "size mismatch for ".to_string();
            m.append(self.relative_path.as_str());
            m.append(": local=");
            m.append(decimal::dec_text(self.expected_size as u128).as_str());
            m.append(" remote=");
            m.append(decimal::dec_text(remote as u128).as_str());
            self.stage = VerifyStage::Failed(m);
        }
    }

    /// Takes in an answer, and what was read out of it.
    pub fn take_answer(
        &mut self,
        reply: &Result<String, String>,
        size: Option<u64>,
        algorithm: Option<String>,
        told_digest: Option<String>,
    )
        requires
            old(self)@.wf(),
        ensures
            final(self)@ == old(self)@.answered(
                crate::adb_command::outcome_view(*reply),
                size,
                text::opt_view(algorithm),
                text::opt_view(told_digest),
            ),
            final(self)@.wf(),
    {
        match &self.stage {
            VerifyStage::Size(_) => match told_size(reply, size) {
                Err(m) => {
                    self.stage = VerifyStage::Failed(m);
                },
                Ok(n) => {
                    if n == self.expected_size {
                        self.go_on();
                    } else {
                        self.stage = VerifyStage::Size(Some(n));
                    }
                },
            },
            VerifyStage::RemoteDigest(local) => {
                let local = local.clone();
                let next = match reply {
                    Err(m) => VerifyStage::Failed(m.clone()),
                    Ok(p) => match judge_algorithm(
                        text::borrow_opt(&algorithm),
                        p.as_str(),
                        "BLAKE3",
                    ) {
                        Err(m) => VerifyStage::Failed(m),
                        Ok(_) => match told_digest {
                            None => VerifyStage::Failed(
                                checkpoint::about(
                                    "agent verify did not include digest: ",
                                    p.as_str(),
                                ),
                            ),
                            Some(remote) => if text::str_eq(local.as_str(), remote.as_str()) {
                                VerifyStage::Passed
                            } else {
                                let mut m = "verify failed for ".to_string();
                                m.append(self.relative_path.as_str());
                                m.append(": local=");
                                m.append(local.as_str());
                                m.append(" remote=");
                                m.append(remote.as_str());
                                VerifyStage::Failed(m)
                            },
                        },
                    },
                };
                self.stage = next;
            },
            _ => {},
        }
    }

    /// Takes in an answer.
    pub fn answer(&mut self, reply: &Result<String, String>)
        requires
            old(self)@.wf(),
        ensures
            final(self)@ == old(self)@.after(crate::adb_command::outcome_view(*reply)),
            final(self)@.wf(),
    {
        let size: Option<u64> = size_in(reply);
        let (algorithm, told_digest) = match reply {
            Ok(p) => (
                json::text_field(p.as_str(), "algorithm"),
                json::text_field(p.as_str(), "digest"),
            ),
            Err(_) => (None, None),
        };
        self.take_answer(reply, size, algorithm, told_digest);
    }

    /// Takes in bytes that were fetched.
    pub fn take_bytes(&mut self, bytes: &Result<Vec<u8>, String>)
        requires
            old(self)@.wf(),
        ensures
            final(self)@ == old(self)@.fetched(wifi_chunk::bytes_view(*bytes)),
            final(self)@.wf(),
    {
        let ranges = sizing::android_verify_sample_ranges(self.expected_size);
        match &self.stage {
            VerifyStage::Sample(i) => {
                let i: usize = *i;
                let next = match bytes {
                    Err(m) => VerifyStage::Failed(m.clone()),
                    Ok(b) => if b.len() as u128 != ranges[i].1 as u128 {
                        let mut m = "sample verify short read for ".to_string();
                        m.append(self.relative_path.as_str());
                        m.append(": offset=");
                        m.append(decimal::dec_text(ranges[i].0 as u128).as_str());
                        m.append(" expected=");
                        m.append(decimal::dec_text(ranges[i].1 as u128).as_str());
                        m.append(" actual=");
                        m.append(decimal::dec_text(b.len() as u128).as_str());
                        VerifyStage::Failed(m)
                    } else {
                        VerifyStage::LocalSample(i, digest::digest_of(b.as_slice()))
                    },
                };
                self.stage = next;
            },
            _ => {},
        }
    }

    /// Takes in a local digest.
    pub fn take_digest(&mut self, local: &Result<String, String>)
        requires
            old(self)@.wf(),
        ensures
            final(self)@ == old(self)@.digested(crate::adb_command::outcome_view(*local)),
            final(self)@.wf(),
    {
        let ranges = sizing::android_verify_sample_ranges(self.expected_size);
        match &self.stage {
            VerifyStage::LocalDigest => {
                self.stage = match local {
                    Ok(d) => VerifyStage::RemoteDigest(d.clone()),
                    Err(m) => VerifyStage::Failed(m.clone()),
                };
            },
            VerifyStage::LocalSample(i, remote) => {
                let i: usize = *i;
                let next = match local {
                    Err(m) => VerifyStage::Failed(m.clone()),
                    Ok(d) => if !text::str_eq(d.as_str(), remote.as_str()) {
                        let mut m = "sample verify failed for ".to_string();
                        m.append(self.relative_path.as_str());
                        m.append(": offset=");
                        m.append(decimal::dec_text(ranges[i].0 as u128).as_str());
                        m.append(" length=");
                        m.append(decimal::dec_text(ranges[i].1 as u128).as_str());
                        VerifyStage::Failed(m)
                    } else if i + 1 < ranges.len() {
                        VerifyStage::Sample(i + 1)
                    } else {
                        VerifyStage::Passed
                    },
                };
                self.stage = next;
            },
            _ => {},
        }
    }
}

/// The check after the samples of a file were fetched and held against the local ones: `remote`
/// and `local` give the bytes of each.
pub open spec fn samples_checked(
    v: VerifyView,
    remote: Seq<Seq<u8>>,
    local: Seq<Seq<u8>>,
    n: nat,
) -> VerifyView
    decreases n,
{
    if n == 0 {
        v
    } else {
        samples_checked(v, remote, local, (n - 1) as nat).fetched(Ok(remote[n - 1])).digested(
            Ok(digest::blake3_hex(local[n - 1])),
        )
    }
}

/// A large file passes where every sample on the device has the same bytes as the local one.
pub proof fn lemma_equal_samples_pass(path: Seq<char>, size: u64, samples: Seq<Seq<u8>>, n: nat)
    requires
        samples.len() == sizing::sample_ranges(size).len(),
        forall|i: int|
            0 <= i < samples.len() ==> (#[trigger] samples[i]).len() == sizing::sample_length(size),
        n <= samples.len(),
    ensures
        samples_checked(
            (VerifyView {
                relative_path: path,
                expected_size: size,
                stage: VerifyStageView::Sample(0),
            }),
            samples,
            samples,
            n,
        ) == (VerifyView {
            relative_path: path,
            expected_size: size,
            stage: if n == samples.len() {
                VerifyStageView::Passed
            } else {
                VerifyStageView::Sample(n as int)
            },
        }),
    decreases n,
{
    sizing::lemma_samples_cover_edges(size);
    if n > 0 {
        lemma_equal_samples_pass(path, size, samples, (n - 1) as nat);
    }
}

/// Whether the first samples have equal digests on both sides.
pub open spec fn samples_agree(remote: Seq<Seq<u8>>, local: Seq<Seq<u8>>, n: int) -> bool {
    forall|k: int|
        #![trigger remote[k]]
        0 <= k < n ==> digest::blake3_hex(remote[k]) == digest::blake3_hex(local[k])
}

/// Where the check of samples stands, and what it has found on the way.
proof fn lemma_samples_checked_so_far(
    path: Seq<char>,
    size: u64,
    remote: Seq<Seq<u8>>,
    local: Seq<Seq<u8>>,
    n: nat,
)
    ensures
        ({
            let count = sizing::sample_ranges(size).len();
            let v = samples_checked(
                (VerifyView {
                    relative_path: path,
                    expected_size: size,
                    stage: VerifyStageView::Sample(0),
                }),
                remote,
                local,
                n,
            );
            &&& v.relative_path == path
            &&& v.expected_size == size
            &&& match v.stage {
                VerifyStageView::Sample(i) => i == n < count && samples_agree(remote, local, n as int),
                VerifyStageView::Passed => n >= count && samples_agree(remote, local, count as int),
                VerifyStageView::Failed(_) => true,
                _ => false,
            }
        }),
    decreases n,
{
    sizing::lemma_samples_cover_edges(size);
    if n > 0 {
        lemma_samples_checked_so_far(path, size, remote, local, (n - 1) as nat);
    }
}

/// A large file passes only where every sample on the device has the digest of the local one,
/// whatever came back from the device.
pub proof fn lemma_passed_samples_agree(
    path: Seq<char>,
    size: u64,
    remote: Seq<Seq<u8>>,
    local: Seq<Seq<u8>>,
    n: nat,
)
    requires
        samples_checked(
            (VerifyView {
                relative_path: path,
                expected_size: size,
                stage: VerifyStageView::Sample(0),
            }),
            remote,
            local,
            n,
        ).stage is Passed,
    ensures
        samples_agree(remote, local, sizing::sample_ranges(size).len() as int),
{
    lemma_samples_checked_so_far(path, size, remote, local, n);
}

/// A file that passes was backed by equal digests: of the whole file, or of the last sample.
pub proof fn lemma_pass_is_backed(
    v: VerifyView,
    reply: Result<Seq<char>, Seq<char>>,
    size: Option<u64>,
    algorithm: Option<Seq<char>>,
    told_digest: Option<Seq<char>>,
    local: Result<Seq<char>, Seq<char>>,
)
    requires
        v.wf(),
        !(v.stage is Passed),
    ensures
        v.answered(reply, size, algorithm, told_digest).stage is Passed ==> told_digest is Some
            && v.stage == VerifyStageView::RemoteDigest(told_digest->0),
        v.digested(local).stage is Passed ==> (v.stage matches VerifyStageView::LocalSample(_, d)
            && local == Ok::<Seq<char>, Seq<char>>(d)),
        !(v.expired().stage is Passed),
{
}

/// A stretch of bytes, as far as there are any.
pub open spec fn stretch(bytes: Seq<u8>, offset: u64, length: u64) -> Seq<u8> {
    bytes.subrange(offset as int, sizing::smaller(offset + length, bytes.len() as int))
}

/// The check one step on, where every question is answered as things are: `device` gives the bytes
/// of the files on the device, and `local` those of the local file.
pub open spec fn truly_answered(
    v: VerifyView,
    device: Map<Seq<char>, Seq<u8>>,
    local: Seq<u8>,
    reply: Seq<char>,
) -> VerifyView {
    match v.step() {
        VerifyStepView::Ask(AskView::Stat(p)) => v.answered(
            Ok(reply),
            Some(device[p].len() as u64),
            None,
            None,
        ),
        VerifyStepView::Ask(AskView::Verify(p)) => v.answered(
            Ok(reply),
            None,
            Some("BLAKE3"@),
            Some(digest::blake3_hex(device[p])),
        ),
        VerifyStepView::Fetch(AskView::PullBinary(p, o, n)) => v.fetched(
            Ok(stretch(device[p], o, n)),
        ),
        VerifyStepView::DigestFile => v.digested(Ok(digest::blake3_hex(local))),
        VerifyStepView::DigestRange(o, n) => v.digested(
            Ok(digest::blake3_hex(stretch(local, o, n))),
        ),
        _ => v,
    }
}

/// The check so many steps on, where every question is answered as things are.
pub open spec fn truly_checked(
    v: VerifyView,
    device: Map<Seq<char>, Seq<u8>>,
    local: Seq<u8>,
    reply: Seq<char>,
    steps: nat,
) -> VerifyView
    decreases steps,
{
    if steps == 0 {
        v
    } else {
        truly_answered(
            truly_checked(v, device, local, reply, (steps - 1) as nat),
            device,
            local,
            reply,
        )
    }
}

/// Whether a stretch has the same digest on both sides.
pub open spec fn stretch_agrees(remote: Seq<u8>, local: Seq<u8>, offset: int, length: int) -> bool {
    digest::blake3_hex(remote.subrange(offset, offset + length)) == digest::blake3_hex(
        local.subrange(offset, offset + length),
    )
}

/// A file shorter than 128 MiB is checked whole: where the questions are answered as things are, it
/// passes exactly where the file on the device has the digest of the local file, and fails else.
pub proof fn lemma_small_file_is_checked_whole(
    path: Seq<char>,
    device: Map<Seq<char>, Seq<u8>>,
    local: Seq<u8>,
    reply: Seq<char>,
)
    requires
        local.len() < 134217728,
        device[path].len() == local.len(),
    ensures
        ({
            let end = truly_checked(
                fresh_verify(path, local.len() as u64),
                device,
                local,
                reply,
                3,
            );
            &&& end.stage is Passed <==> digest::blake3_hex(device[path]) == digest::blake3_hex(
                local,
            )
            &&& end.stage is Passed || end.stage is Failed
        }),
{
    reveal_with_fuel(truly_checked, 4);
}

/// A file of 128 MiB or more is checked by its first, middle and last 256 KiB: where the questions
/// are answered as things are, it passes exactly where these have the same digests on both sides,
/// and fails else.
pub proof fn lemma_large_file_is_checked_by_samples(
    path: Seq<char>,
    device: Map<Seq<char>, Seq<u8>>,
    local: Seq<u8>,
    reply: Seq<char>,
)
    requires
        134217728 <= local.len() <= u64::MAX,
        device[path].len() == local.len(),
    ensures
        ({
            let end = truly_checked(
                fresh_verify(path, local.len() as u64),
                device,
                local,
                reply,
                7,
            );
            let last = local.len() - 262144;
            &&& end.stage is Passed <==> {
                &&& stretch_agrees(device[path], local, 0, 262144)
                &&& stretch_agrees(device[path], local, last / 2, 262144)
                &&& stretch_agrees(device[path], local, last, 262144)
            }
            &&& end.stage is Passed || end.stage is Failed
        }),
{
    reveal_with_fuel(truly_checked, 8);
}

/// A file that has another size on the device never passes: it is asked for again, and once it is
/// waited for no longer the check fails and tells both sizes.
pub proof fn lemma_other_size_never_passes(
    path: Seq<char>,
    device: Map<Seq<char>, Seq<u8>>,
    local: Seq<u8>,
    reply: Seq<char>,
    steps: nat,
)
    requires
        local.len() <= u64::MAX,
        device[path].len() <= u64::MAX,
        device[path].len() != local.len(),
        steps > 0,
    ensures
        ({
            let v = truly_checked(
                fresh_verify(path, local.len() as u64),
                device,
                local,
                reply,
                steps,
            );
            &&& v.step() == VerifyStepView::Ask(AskView::Stat(path))
            &&& v.expired().step() == VerifyStepView::Failed(
                "size mismatch for "@ + path + ": local="@ + decimal::dec(local.len())
                    + " remote="@ + decimal::dec(device[path].len()),
            )
        }),
    decreases steps,
{
    reveal_with_fuel(truly_checked, 2);
    if steps > 1 {
        lemma_other_size_never_passes(path, device, local, reply, (steps - 1) as nat);
    }
    let v = truly_checked(
        fresh_verify(path, local.len() as u64),
        device,
        local,
        reply,
        (steps - 1) as nat,
    );
    assert(v.step() == VerifyStepView::Ask(AskView::Stat(path)));
    assert(v.relative_path == path && v.expected_size == local.len()) by {
        lemma_check_keeps_its_file(path, device, local, reply, (steps - 1) as nat);
    }
}

proof fn lemma_check_keeps_its_file(
    path: Seq<char>,
    device: Map<Seq<char>, Seq<u8>>,
    local: Seq<u8>,
    reply: Seq<char>,
    steps: nat,
)
    ensures
        ({
            let v = truly_checked(
                fresh_verify(path, local.len() as u64),
                device,
                local,
                reply,
                steps,
            );
            v.relative_path == path && v.expected_size == local.len() as u64
        }),
    decreases steps,
{
    if steps > 0 {
        lemma_check_keeps_its_file(path, device, local, reply, (steps - 1) as nat);
    }
}

/// What can come back in a check.
pub enum VerifyEvent {
    Answered {
        reply: Result<Seq<char>, Seq<char>>,
        size: Option<u64>,
        algorithm: Option<Seq<char>>,
        told_digest: Option<Seq<char>>,
    },
    Fetched { bytes: Result<Seq<u8>, Seq<char>> },
    Digested { local: Result<Seq<char>, Seq<char>> },
    Expired,
}

/// The check after whatever came back, in order.
pub open spec fn checked(v: VerifyView, events: Seq<VerifyEvent>) -> VerifyView
    decreases events.len(),
{
    if events.len() == 0 {
        v
    } else {
        let u = checked(v, events.drop_last());
        match events.last() {
            VerifyEvent::Answered { reply, size, algorithm, told_digest } => u.answered(
                reply,
                size,
                algorithm,
                told_digest,
            ),
            VerifyEvent::Fetched { bytes } => u.fetched(bytes),
            VerifyEvent::Digested { local } => u.digested(local),
            VerifyEvent::Expired => u.expired(),
        }
    }
}

/// Whether the local digest is among what came back.
pub open spec fn has_local_digest(events: Seq<VerifyEvent>, d: Seq<char>) -> bool {
    exists|j: int|
        0 <= j < events.len() && #[trigger] events[j] == (VerifyEvent::Digested { local: Ok(d) })
}

/// Whether an answer tells a digest by an algorithm that is named like BLAKE3.
pub open spec fn tells_digest(e: VerifyEvent, d: Seq<char>) -> bool {
    e matches VerifyEvent::Answered { reply, algorithm, told_digest, .. } && reply is Ok
        && told_digest == Some(d) && (algorithm matches Some(a) && text::lower_all(a) == text::lower_all(
        "BLAKE3"@,
    ))
}

/// Whether the size was told, or is that of a file nobody told of.
pub open spec fn has_size(events: Seq<VerifyEvent>, size: u64) -> bool {
    exists|i: int|
        0 <= i < events.len() && (match #[trigger] events[i] {
            VerifyEvent::Answered { reply, size: told, .. } => reply is Ok && told == Some(size),
            VerifyEvent::Expired => size == 0,
            _ => false,
        })
}

/// Whether the digest of the local file and the same digest of the file on the device came back,
/// and before them the size of the file.
pub open spec fn rests_on_digests(events: Seq<VerifyEvent>, size: u64) -> bool {
    &&& has_size(events, size)
    &&& exists|k: int, d: Seq<char>|
        0 <= k < events.len() && #[trigger] tells_digest(events[k], d) && has_local_digest(
            events.take(k),
            d,
        )
}

proof fn lemma_more_events(before: Seq<VerifyEvent>, events: Seq<VerifyEvent>, size: u64)
    requires
        events.len() > 0,
        before == events.drop_last(),
    ensures
        has_size(before, size) ==> has_size(events, size),
        rests_on_digests(before, size) ==> rests_on_digests(events, size),
        forall|d: Seq<char>| #[trigger] has_local_digest(before, d) ==> has_local_digest(events, d),
{
    if has_size(before, size) {
        let i = choose|i: int|
            0 <= i < before.len() && (match #[trigger] before[i] {
                VerifyEvent::Answered { reply, size: told, .. } => reply is Ok && told == Some(size),
                VerifyEvent::Expired => size == 0,
                _ => false,
            });
        assert(events[i] == before[i]);
    }
    if rests_on_digests(before, size) {
        let (k, d) = choose|k: int, d: Seq<char>|
            0 <= k < before.len() && #[trigger] tells_digest(before[k], d) && has_local_digest(
                before.take(k),
                d,
            );
        assert(events[k] == before[k]);
        assert(events.take(k) =~= before.take(k));
        assert(tells_digest(events[k], d));
    }
    assert forall|d: Seq<char>| #[trigger] has_local_digest(before, d) implies has_local_digest(
        events,
        d,
    ) by {
        let j = choose|j: int|
            0 <= j < before.len() && #[trigger] before[j] == (VerifyEvent::Digested {
                local: Ok(d),
            });
        assert(events[j] == before[j]);
    }
}

/// Whatever comes back, the check of a file shorter than 128 MiB passes only after the file was told
/// to have its size and the agent told of it, by BLAKE3, the digest that the local file has; no
/// sample of such a file is asked for.
pub proof fn lemma_small_file_passes_by_its_digest(
    path: Seq<char>,
    size: u64,
    events: Seq<VerifyEvent>,
)
    requires
        size < 134217728,
    ensures
        ({
            let v = checked(fresh_verify(path, size), events);
            &&& v.stage is Passed ==> rests_on_digests(events, size)
            &&& !(v.step() is Fetch) && !(v.step() is DigestRange)
            &&& v.step() matches VerifyStepView::Ask(a) ==> a == AskView::Stat(path) || a
                == AskView::Verify(path)
        }),
{
    lemma_small_file_so_far(path, size, events);
}

proof fn lemma_small_file_so_far(path: Seq<char>, size: u64, events: Seq<VerifyEvent>)
    requires
        size < 134217728,
    ensures
        ({
            let v = checked(fresh_verify(path, size), events);
            &&& v.relative_path == path
            &&& v.expected_size == size
            &&& match v.stage {
                VerifyStageView::Size(_) => true,
                VerifyStageView::LocalDigest => has_size(events, size),
                VerifyStageView::RemoteDigest(d) => has_size(events, size) && has_local_digest(
                    events,
                    d,
                ),
                VerifyStageView::Passed => rests_on_digests(events, size),
                VerifyStageView::Failed(_) => true,
                _ => false,
            }
            &&& v.stage matches VerifyStageView::Size(Some(n)) ==> n != size
        }),
    decreases events.len(),
{
    if events.len() > 0 {
        let before = events.drop_last();
        lemma_small_file_so_far(path, size, before);
        lemma_more_events(before, events, size);
        let u = checked(fresh_verify(path, size), before);
        let n = events.len() - 1;
        assert(events[n] == events.last());
        assert(events.take(n) =~= before);
        if let VerifyEvent::Digested { local: Ok(d) } = events.last() {
            assert(has_local_digest(events, d));
        }
        if let VerifyStageView::RemoteDigest(d) = u.stage {
            if checked(fresh_verify(path, size), events).stage is Passed {
                assert(tells_digest(events[n], d));
            }
        }
    }
}

/// Whether a check that went through these events asks for the 256 KiB at an offset.
#[verifier::opaque]
pub open spec fn asks_for_sample(
    path: Seq<char>,
    size: u64,
    events: Seq<VerifyEvent>,
    offset: int,
) -> bool {
    checked(fresh_verify(path, size), events).step() == VerifyStepView::Fetch(
        AskView::PullBinary(path, offset as u64, 262144),
    )
}

/// Whether the 256 KiB at an offset were asked for and came, and the local digest that came after
/// them is theirs.
pub open spec fn rests_on_sample(
    path: Seq<char>,
    size: u64,
    events: Seq<VerifyEvent>,
    offset: int,
) -> bool {
    exists|i: int, b: Seq<u8>|
        {
            &&& 0 <= i < events.len()
            &&& #[trigger] events[i] == (VerifyEvent::Fetched { bytes: Ok(b) })
            &&& asks_for_sample(path, size, events.take(i), offset)
            &&& b.len() == 262144
            &&& has_local_digest(events.skip(i), #[trigger] digest::blake3_hex(b))
        }
}

/// Whether the 256 KiB at an offset were asked for and came, with the given digest.
spec fn has_sample(
    path: Seq<char>,
    size: u64,
    events: Seq<VerifyEvent>,
    offset: int,
    d: Seq<char>,
) -> bool {
    exists|i: int, b: Seq<u8>|
        {
            &&& 0 <= i < events.len()
            &&& #[trigger] events[i] == (VerifyEvent::Fetched { bytes: Ok(b) })
            &&& asks_for_sample(path, size, events.take(i), offset)
            &&& b.len() == 262144
            &&& d == #[trigger] digest::blake3_hex(b)
        }
}

#[verifier::spinoff_prover]
#[verifier::rlimit(40)]
proof fn lemma_more_samples(
    path: Seq<char>,
    size: u64,
    before: Seq<VerifyEvent>,
    events: Seq<VerifyEvent>,
    offset: int,
    d: Seq<char>,
)
    requires
        events.len() > 0,
        before == events.drop_last(),
    ensures
        rests_on_sample(path, size, before, offset) ==> rests_on_sample(path, size, events, offset),
        has_sample(path, size, before, offset, d) ==> has_sample(path, size, events, offset, d),
        has_sample(path, size, before, offset, d) && events.last() == (VerifyEvent::Digested {
            local: Ok(d),
        }) ==> rests_on_sample(path, size, events, offset),
{
    if rests_on_sample(path, size, before, offset) {
        let (i, b) = choose|i: int, b: Seq<u8>|
            {
                &&& 0 <= i < before.len()
                &&& #[trigger] before[i] == (VerifyEvent::Fetched { bytes: Ok(b) })
                &&& asks_for_sample(path, size, before.take(i), offset)
                &&& b.len() == 262144
                &&& has_local_digest(before.skip(i), #[trigger] digest::blake3_hex(b))
            };
        assert(events[i] == before[i]);
        assert(events.take(i) =~= before.take(i));
        assert(events.skip(i).drop_last() =~= before.skip(i));
        lemma_more_events(before.skip(i), events.skip(i), size);
        assert(has_local_digest(events.skip(i), digest::blake3_hex(b)));
    }
    if has_sample(path, size, before, offset, d) {
        let (i, b) = choose|i: int, b: Seq<u8>|
            {
                &&& 0 <= i < before.len()
                &&& #[trigger] before[i] == (VerifyEvent::Fetched { bytes: Ok(b) })
                &&& asks_for_sample(path, size, before.take(i), offset)
                &&& b.len() == 262144
                &&& d == #[trigger] digest::blake3_hex(b)
            };
        assert(events[i] == before[i]);
        assert(events.take(i) =~= before.take(i));
        if events.last() == (VerifyEvent::Digested { local: Ok(d) }) {
            let rest = events.skip(i);
            assert(rest[rest.len() - 1] == events.last());
            assert(has_local_digest(rest, digest::blake3_hex(b)));
        }
    }
}

/// Where the samples of a file of at least 128 MiB start.
spec fn sample_start(size: u64, k: int) -> int {
    if k == 0 {
        0
    } else if k == 1 {
        (size - 262144) / 2
    } else {
        size - 262144
    }
}

#[verifier::spinoff_prover]
#[verifier::rlimit(40)]
proof fn lemma_large_file_so_far(path: Seq<char>, size: u64, events: Seq<VerifyEvent>)
    requires
        size >= 134217728,
    ensures
        ({
            let v = checked(fresh_verify(path, size), events);
            &&& v.relative_path == path
            &&& v.expected_size == size
            &&& match v.stage {
                VerifyStageView::Size(last) => last != Some(size),
                VerifyStageView::Sample(i) => 0 <= i < 3 && has_size(events, size) && forall|k: int|
                    0 <= k < i ==> rests_on_sample(
                        path,
                        size,
                        events,
                        #[trigger] sample_start(size, k),
                    ),
                VerifyStageView::LocalSample(i, d) => 0 <= i < 3 && has_size(events, size)
                    && has_sample(path, size, events, sample_start(size, i), d) && forall|k: int|
                    0 <= k < i ==> rests_on_sample(
                        path,
                        size,
                        events,
                        #[trigger] sample_start(size, k),
                    ),
                VerifyStageView::Passed => has_size(events, size) && forall|k: int|
                    0 <= k < 3 ==> rests_on_sample(
                        path,
                        size,
                        events,
                        #[trigger] sample_start(size, k),
                    ),
                VerifyStageView::Failed(_) => true,
                _ => false,
            }
        }),
    decreases events.len(),
{
    if events.len() > 0 {
        let before = events.drop_last();
        lemma_large_file_so_far(path, size, before);
        lemma_more_events(before, events, size);
        let u = checked(fresh_verify(path, size), before);
        let n = events.len() - 1;
        assert(events[n] == events.last());
        assert(events.take(n) =~= before);
        let d = match u.stage {
            VerifyStageView::LocalSample(_, d) => d,
            _ => Seq::empty(),
        };
        assert forall|k: int| 0 <= k < 3 implies ({
            let o = #[trigger] sample_start(size, k);
            &&& rests_on_sample(path, size, before, o) ==> rests_on_sample(path, size, events, o)
            &&& has_sample(path, size, before, o, d) ==> has_sample(path, size, events, o, d)
            &&& has_sample(path, size, before, o, d) && events.last() == (VerifyEvent::Digested {
                local: Ok(d),
            }) ==> rests_on_sample(path, size, events, o)
        }) by {
            lemma_more_samples(path, size, before, events, sample_start(size, k), d);
        }
        if let VerifyStageView::Sample(i) = u.stage {
            let o = sample_start(size, i);
            assert(u.step() == VerifyStepView::Fetch(
                AskView::PullBinary(path, o as u64, 262144),
            ));
            assert(asks_for_sample(path, size, events.take(n), o)) by {
                reveal(asks_for_sample);
            }
            if let VerifyEvent::Fetched { bytes: Ok(b) } = events.last() {
                if b.len() == 262144 {
                    assert(events[n] == (VerifyEvent::Fetched { bytes: Ok(b) }));
                    assert(has_sample(path, size, events, o, digest::blake3_hex(b)));
                }
            }
        }
        if let VerifyStageView::LocalSample(i, _) = u.stage {
            assert(has_sample(path, size, before, sample_start(size, i), d));
        }
    }
}

/// Whatever comes back, the check of a file of 128 MiB or more passes only after the file was told
/// to have its size and its first, middle and last 256 KiB were fetched, each with the digest that
/// was made of the local file afterwards.
pub proof fn lemma_large_file_passes_by_its_samples(
    path: Seq<char>,
    size: u64,
    events: Seq<VerifyEvent>,
)
    requires
        size >= 134217728,
        checked(fresh_verify(path, size), events).stage is Passed,
    ensures
        has_size(events, size),
        rests_on_sample(path, size, events, 0),
        rests_on_sample(path, size, events, (size - 262144) / 2),
        rests_on_sample(path, size, events, size - 262144),
{
    lemma_large_file_so_far(path, size, events);
    assert(sample_start(size, 0) == 0);
    assert(sample_start(size, 1) == (size - 262144) / 2);
    assert(sample_start(size, 2) == size - 262144);
}

/// An answer is taken by what its JSON holds: the size under `size_bytes`, the digest under
/// `digest`, its algorithm under `algorithm`. An answer that is missing fails the check.
pub proof fn lemma_answers_are_read_by_key(v: VerifyView, payload: Seq<char>, m: Seq<char>)
    ensures
        v.stage is Size ==> (v.after(Ok(payload)).stage is Size <==> (json::json_number(
            payload,
            "size_bytes"@,
        ) matches Some(n) && n != v.expected_size)),
        v.stage is Size && json::json_number(payload, "size_bytes"@) is None ==> v.after(
            Ok(payload),
        ).stage == VerifyStageView::Failed("agent stat did not include size_bytes: "@ + payload),
        v.stage matches VerifyStageView::RemoteDigest(d) ==> (v.after(Ok(payload)).stage is Passed
            <==> json::json_text(payload, "digest"@) == Some(d) && (json::json_text(
            payload,
            "algorithm"@,
        ) matches Some(a) && text::lower_all(a) == text::lower_all("BLAKE3"@))),
        v.stage is Size || v.stage is RemoteDigest ==> v.after(Err(m)).stage
            == VerifyStageView::Failed(m),
{
}

/// What a digest of a file on the device, told by its name, comes to against the local one.
pub open spec fn adb_digests_judged(
    subject: Seq<char>,
    remote_file: Seq<char>,
    local: Seq<char>,
    remote: Option<Seq<char>>,
) -> Result<(), Seq<char>> {
    match remote {
        None => Err("remote file not found for verify: "@ + remote_file),
        Some(d) => if local == d {
            Ok(())
        } else {
            Err(
                "ADB verify failed for "@ + subject + ": local="@ + local + " remote="@ + d,
            )
        },
    }
}

/// Whether a file on the device has the digest of the local one.
pub fn judge_adb_digests(
    subject: &str,
    remote_file: &str,
    local_digest: &str,
    remote_digest: Option<&str>,
) -> (r: Result<(), String>)
    ensures
        wifi_chunk::unit_view(r) == adb_digests_judged(
            subject@,
            remote_file@,
            local_digest@,
            text::str_view(remote_digest),
        ),
{
    match remote_digest {
        None => Err(checkpoint::about("remote file not found for verify: ", remote_file)),
        Some(d) => {
            if text::str_eq(local_digest, d) {
                Ok(())
            } else {
                let mut m = "ADB verify failed for ".to_string();
                m.append(subject);
                m.append(": local=");
                m.append(local_digest);
                m.append(" remote=");
                m.append(d);
                Err(m)
            }
        },
    }
}

} // verus!
