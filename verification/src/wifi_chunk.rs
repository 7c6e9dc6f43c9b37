//! Sending one chunk over the network, and fetching one: with a second way to ask, and with a look
//! at what arrived when an answer is missing.

use crate::agent_ask;
use crate::agent_ask::{AgentAsk, AskView};
use crate::checkpoint;
use crate::codec;
use crate::decimal;
use crate::json;
use crate::text;
use vstd::prelude::*;
use vstd::utf8::encode_utf8;

verus! {

/// The views of texts.
pub open spec fn str_views(s: Seq<&str>) -> Seq<Seq<char>> {
    s.map_values(|a: &str| a@)
}

/// Whether a reply's status is among the accepted ones; the reply's text goes into the complaint.
pub open spec fn judged(
    status: Option<Seq<char>>,
    payload: Seq<char>,
    accepted: Seq<Seq<char>>,
) -> Result<(), Seq<char>> {
    match status {
        None => Err("agent chunk response did not include status: "@ + payload),
        Some(s) => if accepted.contains(s) {
            Ok(())
        } else {
            Err("agent chunk response status was "@ + s + ": "@ + payload)
        },
    }
}

/// The view of an outcome without a value.
pub open spec fn unit_view(r: Result<(), String>) -> Result<(), Seq<char>> {
    match r {
        Ok(_) => Ok(()),
        Err(m) => Err(m@),
    }
}

/// Whether a status is among the accepted ones.
pub fn judge_status(status: Option<&str>, payload: &str, accepted: &[&str]) -> (r: Result<
    (),
    String,
>)
    ensures
        unit_view(r) == judged(text::str_view(status), payload@, str_views(accepted@)),
{
    let s = match status {
        None => {
            return Err(checkpoint::about("agent chunk response did not include status: ", payload));
        },
        Some(s) => s,
    };
    let ghost all = str_views(accepted@);
    let mut i: usize = 0;
    while i < accepted.len()
        invariant
            i <= accepted.len(),
            all == str_views(accepted@),
            text::str_view(status) == Some(s@),
            forall|k: int| 0 <= k < i ==> all[k] != s@,
        decreases accepted.len() - i,
    {
        if text::str_eq(accepted[i], s) {
            assert(all[i as int] == s@);
            return Ok(());
        }
        i += 1;
    }
    let mut m = "agent chunk response status was ".to_string();
    m.append(s);
    m.append(": ");
    m.append(payload);
    Err(m)
}

/// Whether a reply's status is among the accepted ones.
pub fn ensure_chunk_response_status(payload: &str, accepted_statuses: &[&str]) -> (r: Result<
    (),
    String,
>)
    ensures
        unit_view(r) == judged(
            json::json_text(payload@, "status"@),
            payload@,
            str_views(accepted_statuses@),
        ),
{
    let status = json::text_field(payload, "status");
    judge_status(text::borrow_opt(&status), payload, accepted_statuses)
}

/// What the replies on a chunk and on a file say.
#[derive(Debug)]
pub struct ChunkFacts {
    pub status: Option<String>,
    pub relative_path: Option<String>,
    pub chunk_index: Option<u64>,
    pub size_bytes: Option<u64>,
}

pub struct ChunkFactsView {
    pub status: Option<Seq<char>>,
    pub relative_path: Option<Seq<char>>,
    pub chunk_index: Option<u64>,
    pub size_bytes: Option<u64>,
}

impl View for ChunkFacts {
    type V = ChunkFactsView;

    open spec fn view(&self) -> ChunkFactsView {
        ChunkFactsView {
            status: text::opt_view(self.status),
            relative_path: text::opt_view(self.relative_path),
            chunk_index: self.chunk_index,
            size_bytes: self.size_bytes,
        }
    }
}

/// What a reply says.
pub open spec fn chunk_facts(payload: Seq<char>) -> ChunkFactsView {
    ChunkFactsView {
        status: json::json_text(payload, "status"@),
        relative_path: json::json_text(payload, "relative_path"@),
        chunk_index: json::json_number(payload, "chunk_index"@),
        size_bytes: json::json_number(payload, "size_bytes"@),
    }
}

/// What a reply says.
pub fn read_chunk_facts(payload: &str) -> (r: ChunkFacts)
    ensures
        r@ == chunk_facts(payload@),
{
    ChunkFacts {
        status: json::text_field(payload, "status"),
        relative_path: json::text_field(payload, "relative_path"),
        chunk_index: json::number_field(payload, "chunk_index"),
        size_bytes: json::number_field(payload, "size_bytes"),
    }
}

/// What the agent says of a chunk.
#[derive(Debug, Clone, Copy, PartialEq, Eq, Structural)]
pub enum ChunkStatusState {
    Committed,
    NotCommitted,
    PathMismatch,
    Unknown,
}

/// What a reply says of a chunk; nothing where it speaks of another path or chunk.
pub open spec fn chunk_state(facts: ChunkFactsView, path: Seq<char>, index: u32) -> ChunkStatusState {
    if facts.relative_path != Some(path) || facts.chunk_index != Some(index as u64) {
        ChunkStatusState::Unknown
    } else if facts.status == Some("committed"@) || facts.status == Some("committed_on_disk"@) {
        ChunkStatusState::Committed
    } else if facts.status == Some("not_committed"@) {
        ChunkStatusState::NotCommitted
    } else if facts.status == Some("path_mismatch"@) {
        ChunkStatusState::PathMismatch
    } else {
        ChunkStatusState::Unknown
    }
}

/// What a reply says of a chunk, from what was read out of it.
pub fn chunk_state_from(facts: &ChunkFacts, relative_path: &str, chunk_index: u32) -> (r:
    ChunkStatusState)
    ensures
        r == chunk_state(facts@, relative_path@, chunk_index),
{
    let same_chunk = match facts.chunk_index {
        Some(n) => n == chunk_index as u64,
        None => false,
    };
    if !text::opt_is(text::borrow_opt(&facts.relative_path), relative_path) || !same_chunk {
        return ChunkStatusState::Unknown;
    }
    let status = text::borrow_opt(&facts.status);
    if text::opt_is(status, "committed") || text::opt_is(status, "committed_on_disk") {
        ChunkStatusState::Committed
    } else if text::opt_is(status, "not_committed") {
        ChunkStatusState::NotCommitted
    } else if text::opt_is(status, "path_mismatch") {
        ChunkStatusState::PathMismatch
    } else {
        ChunkStatusState::Unknown
    }
}

/// What a reply says of a chunk.
pub fn parse_chunk_status_state(payload: &str, relative_path: &str, chunk_index: u32) -> (r:
    ChunkStatusState)
    ensures
        r == chunk_state(chunk_facts(payload@), relative_path@, chunk_index),
{
    let facts = read_chunk_facts(payload);
    chunk_state_from(&facts, relative_path, chunk_index)
}

/// Whether the size of a file on the device shows that a chunk arrived.
pub fn remote_size_confirms_chunk_commit(remote_size: u64, expected_size: u64) -> (r: bool)
    ensures
        r <==> remote_size >= expected_size,
{
    remote_size >= expected_size
}

/// How a chunk came to be on the device.
#[derive(Debug, Clone, Copy, PartialEq, Eq, Structural)]
pub enum WifiChunkPushOutcome {
    Pushed,
    RetriedAfterChunkStatus,
    RecoveredByChunkStatus,
    RecoveredByStat,
}

/// An outcome as an event.
pub open spec fn outcome_event(o: WifiChunkPushOutcome) -> Seq<char> {
    match o {
        WifiChunkPushOutcome::Pushed => "wifi-chunk-pushed"@,
        WifiChunkPushOutcome::RetriedAfterChunkStatus => "wifi-chunk-retried"@,
        _ => "wifi-chunk-recovered"@,
    }
}

/// An outcome in words.
pub open spec fn outcome_text(o: WifiChunkPushOutcome, index: u32) -> Seq<char> {
    "Wi-Fi chunk "@ + decimal::dec(index as nat) + match o {
        WifiChunkPushOutcome::Pushed => " pushed"@,
        WifiChunkPushOutcome::RetriedAfterChunkStatus =>
            " retried after CHUNK_STATUS reported not_committed"@,
        WifiChunkPushOutcome::RecoveredByChunkStatus =>
            " confirmed by CHUNK_STATUS after push error"@,
        WifiChunkPushOutcome::RecoveredByStat => " confirmed by STAT_FILE after push error"@,
    }
}

impl WifiChunkPushOutcome {
    /// The outcome as an event.
    pub fn event_name(self) -> (r: &'static str)
        ensures
            r@ == outcome_event(self),
    {
        match self {
            WifiChunkPushOutcome::Pushed => "wifi-chunk-pushed",
            WifiChunkPushOutcome::RetriedAfterChunkStatus => "wifi-chunk-retried",
            _ => "wifi-chunk-recovered",
        }
    }

    /// The outcome in words.
    pub fn message(self, chunk_index: u32) -> (r: String)
        ensures
            r@ == outcome_text(self, chunk_index),
    {
        let mut s = "Wi-Fi chunk ".to_string();
        s.append(decimal::dec_text(chunk_index as u128).as_str());
        s.append(
            match self {
                WifiChunkPushOutcome::Pushed => " pushed",
                WifiChunkPushOutcome::RetriedAfterChunkStatus =>
                    " retried after CHUNK_STATUS reported not_committed",
                WifiChunkPushOutcome::RecoveredByChunkStatus =>
                    " confirmed by CHUNK_STATUS after push error",
                WifiChunkPushOutcome::RecoveredByStat => " confirmed by STAT_FILE after push error",
            },
        );
        s
    }
}

/// How often a chunk is pushed at most.
pub const WIFI_CHUNK_PUSH_MAX_ATTEMPTS: usize = 2;

/// Where the push of a chunk stands.
#[derive(Debug)]
pub enum ChunkPushStage {
    /// The bytes are to be sent raw.
    Binary,
    /// They are to be sent as text; a failure is complained of behind the given words.
    Text(String),
    /// The agent is to be asked for the chunk.
    Status,
    /// The agent is to be asked for the size of the file.
    Stat,
    Done(WifiChunkPushOutcome),
    Failed(String),
}

pub enum ChunkPushStageView {
    Binary,
    Text(Seq<char>),
    Status,
    Stat,
    Done(WifiChunkPushOutcome),
    Failed(Seq<char>),
}

impl View for ChunkPushStage {
    type V = ChunkPushStageView;

    open spec fn view(&self) -> ChunkPushStageView {
        match self {
            ChunkPushStage::Binary => ChunkPushStageView::Binary,
            ChunkPushStage::Text(m) => ChunkPushStageView::Text(m@),
            ChunkPushStage::Status => ChunkPushStageView::Status,
            ChunkPushStage::Stat => ChunkPushStageView::Stat,
            ChunkPushStage::Done(o) => ChunkPushStageView::Done(*o),
            ChunkPushStage::Failed(m) => ChunkPushStageView::Failed(m@),
        }
    }
}

/// The push of a chunk.
#[derive(Debug)]
pub struct WifiChunkPush {
    relative_path: String,
    chunk_index: u32,
    offset: u64,
    payload: Vec<u8>,
    stage: ChunkPushStage,
    attempt: usize,
    retried: bool,
    first_error: Option<String>,
}

pub struct ChunkPushView {
    pub relative_path: Seq<char>,
    pub chunk_index: u32,
    pub offset: u64,
    pub payload: Seq<u8>,
    pub stage: ChunkPushStageView,
    /// How many pushes failed before the one at hand.
    pub attempt: int,
    /// Whether the agent said that the chunk is not there.
    pub retried: bool,
    pub first_error: Option<Seq<char>>,
}

/// What a chunk's reply must say.
pub open spec fn chunk_statuses() -> Seq<Seq<char>> {
    seq!["written"@, "already_committed"@]
}

impl ChunkPushView {
    pub open spec fn wf(self) -> bool {
        &&& self.offset + self.payload.len() <= u64::MAX
        &&& 0 <= self.attempt < WIFI_CHUNK_PUSH_MAX_ATTEMPTS
        &&& self.stage is Status || self.stage is Stat ==> self.first_error is Some
    }

    /// Whether there is something to ask.
    pub open spec fn asks(self) -> bool {
        !(self.stage is Done) && !(self.stage is Failed)
    }

    /// What to ask.
    pub open spec fn ask(self) -> AskView {
        match self.stage {
            ChunkPushStageView::Binary => AskView::PushBinary(
                self.relative_path,
                self.chunk_index,
                self.offset,
                self.payload,
            ),
            ChunkPushStageView::Text(_) => AskView::PushText(
                self.relative_path,
                self.chunk_index,
                self.offset,
                self.payload,
            ),
            ChunkPushStageView::Status => AskView::ChunkStatus(
                self.relative_path,
                self.chunk_index,
                self.offset,
                self.payload.len() as u64,
            ),
            _ => AskView::Stat(self.relative_path),
        }
    }

    /// The push arrived.
    pub open spec fn arrived(self) -> ChunkPushView {
        ChunkPushView {
            stage: ChunkPushStageView::Done(
                if self.retried {
                    WifiChunkPushOutcome::RetriedAfterChunkStatus
                } else {
                    WifiChunkPushOutcome::Pushed
                },
            ),
            ..self
        }
    }

    /// The push failed: the agent is asked what it has. The first complaint is kept.
    pub open spec fn missed(self, complaint: Seq<char>) -> ChunkPushView {
        ChunkPushView {
            stage: ChunkPushStageView::Status,
            first_error: Some(
                match self.first_error {
                    Some(e) => e,
                    None => complaint,
                },
            ),
            ..self
        }
    }

    /// Whether the chunk may be pushed once more.
    pub open spec fn may_retry(self) -> bool {
        self.attempt + 1 < WIFI_CHUNK_PUSH_MAX_ATTEMPTS
    }

    /// The push is given up, with the first complaint.
    pub open spec fn given_up(self) -> ChunkPushView {
        ChunkPushView { stage: ChunkPushStageView::Failed(self.first_error->0), ..self }
    }

    /// What follows an answer: the text that came or a complaint, and what the text says.
    pub open spec fn answered(
        self,
        reply: Result<Seq<char>, Seq<char>>,
        facts: ChunkFactsView,
    ) -> ChunkPushView {
        match self.stage {
            ChunkPushStageView::Binary => match reply {
                Ok(p) => match judged(facts.status, p, chunk_statuses()) {
                    Ok(_) => self.arrived(),
                    Err(m) => ChunkPushView {
                        stage: ChunkPushStageView::Text(
                            "binary push failed status and base64 fallback failed: "@ + m + "; "@,
                        ),
                        ..self
                    },
                },
                Err(m) => ChunkPushView {
                    stage: ChunkPushStageView::Text(
                        "binary push failed and base64 fallback failed: "@ + m + "; "@,
                    ),
                    ..self
                },
            },
            ChunkPushStageView::Text(before) => match reply {
                Ok(p) => match judged(facts.status, p, chunk_statuses()) {
                    Ok(_) => self.arrived(),
                    Err(m) => self.missed(m),
                },
                Err(m) => self.missed(before + m),
            },
            ChunkPushStageView::Status => match reply {
                Ok(p) => match chunk_state(facts, self.relative_path, self.chunk_index) {
                    ChunkStatusState::Committed => ChunkPushView {
                        stage: ChunkPushStageView::Done(
                            WifiChunkPushOutcome::RecoveredByChunkStatus,
                        ),
                        ..self
                    },
                    ChunkStatusState::NotCommitted => if self.may_retry() {
                        ChunkPushView {
                            stage: ChunkPushStageView::Binary,
                            attempt: self.attempt + 1,
                            retried: true,
                            ..self
                        }
                    } else {
                        ChunkPushView { stage: ChunkPushStageView::Stat, ..self }
                    },
                    ChunkStatusState::PathMismatch => ChunkPushView {
                        stage: ChunkPushStageView::Failed(
                            "agent reported path_mismatch for chunk "@ + decimal::dec(
                                self.chunk_index as nat,
                            ) + " on "@ + self.relative_path,
                        ),
                        ..self
                    },
                    ChunkStatusState::Unknown => ChunkPushView {
                        stage: ChunkPushStageView::Stat,
                        ..self
                    },
                },
                Err(_) => ChunkPushView { stage: ChunkPushStageView::Stat, ..self },
            },
            ChunkPushStageView::Stat => match (reply, facts.size_bytes) {
                (Ok(_), Some(n)) => if n >= self.offset + self.payload.len() {
                    ChunkPushView {
                        stage: ChunkPushStageView::Done(WifiChunkPushOutcome::RecoveredByStat),
                        ..self
                    }
                } else if self.may_retry() {
                    ChunkPushView {
                        stage: ChunkPushStageView::Binary,
                        attempt: self.attempt + 1,
                        ..self
                    }
                } else {
                    self.given_up()
                },
                _ => self.given_up(),
            },
            _ => self,
        }
    }

    /// What follows an answer.
    pub open spec fn after(self, reply: Result<Seq<char>, Seq<char>>) -> ChunkPushView {
        self.answered(reply, reply_facts(reply))
    }

    /// How many answers may still come.
    pub open spec fn left(self) -> int {
        4 * (WIFI_CHUNK_PUSH_MAX_ATTEMPTS - self.attempt) + match self.stage {
            ChunkPushStageView::Binary => 3int,
            ChunkPushStageView::Text(_) => 2,
            ChunkPushStageView::Status => 1,
            ChunkPushStageView::Stat => 0,
            _ => -1,
        }
    }
}

/// What an answer says; nothing where none came.
pub open spec fn reply_facts(reply: Result<Seq<char>, Seq<char>>) -> ChunkFactsView {
    match reply {
        Ok(p) => chunk_facts(p),
        Err(_) => ChunkFactsView {
            status: None,
            relative_path: None,
            chunk_index: None,
            size_bytes: None,
        },
    }
}

impl View for WifiChunkPush {
    type V = ChunkPushView;

    closed spec fn view(&self) -> ChunkPushView {
        ChunkPushView {
            relative_path: self.relative_path@,
            chunk_index: self.chunk_index,
            offset: self.offset,
            payload: self.payload@,
            stage: self.stage@,
            attempt: self.attempt as int,
            retried: self.retried,
            first_error: text::opt_view(self.first_error),
        }
    }
}

/// The push of a chunk at its start.
pub open spec fn fresh_push(
    relative_path: Seq<char>,
    chunk_index: u32,
    offset: u64,
    payload: Seq<u8>,
) -> ChunkPushView {
    ChunkPushView {
        relative_path,
        chunk_index,
        offset,
        payload,
        stage: ChunkPushStageView::Binary,
        attempt: 0,
        retried: false,
        first_error: None,
    }
}

/// How the push of a chunk ended.
#[derive(Debug, PartialEq, Eq)]
pub enum ChunkPushEnd {
    Open,
    Done(WifiChunkPushOutcome),
    Failed(String),
}

/// The push of a chunk, which is tried a second time where the agent does not have it.
pub fn push_wifi_chunk_with_recovery(
    relative_path: &str,
    chunk_index: u32,
    offset: u64,
    payload: Vec<u8>,
) -> (r: WifiChunkPush)
    requires
        offset + payload@.len() <= u64::MAX,
    ensures
        r@ == fresh_push(relative_path@, chunk_index, offset, payload@),
        r@.wf(),
{
    WifiChunkPush {
        relative_path: relative_path.to_string(),
        chunk_index,
        offset,
        payload,
        stage: ChunkPushStage::Binary,
        attempt: 0,
        retried: false,
        first_error: None,
    }
}

impl WifiChunkPush {
    /// What to ask next.
    pub fn next_ask(&self) -> (r: AgentAsk)
        requires
            self@.asks(),
            self@.wf(),
        ensures
            r@ == self@.ask(),
    {
        let path = self.relative_path.clone();
        match &self.stage {
            ChunkPushStage::Binary => AgentAsk::PushBinary(
                path,
                self.chunk_index,
                self.offset,
                agent_ask::copy_bytes(&self.payload),
            ),
            ChunkPushStage::Text(_) => AgentAsk::PushText(
                path,
                self.chunk_index,
                self.offset,
                agent_ask::copy_bytes(&self.payload),
            ),
            ChunkPushStage::Status => AgentAsk::ChunkStatus(
                path,
                self.chunk_index,
                self.offset,
                self.payload.len() as u64,
            ),
            _ => AgentAsk::Stat(path),
        }
    }

    /// How the push ended, if it did.
    pub fn end(&self) -> (r: ChunkPushEnd)
        ensures
            match r {
                ChunkPushEnd::Open => self@.asks(),
                ChunkPushEnd::Done(o) => self@.stage == ChunkPushStageView::Done(o),
                ChunkPushEnd::Failed(m) => self@.stage == ChunkPushStageView::Failed(m@),
            },
    {
        match &self.stage {
            ChunkPushStage::Done(o) => ChunkPushEnd::Done(*o),
            ChunkPushStage::Failed(m) => ChunkPushEnd::Failed(m.clone()),
            _ => ChunkPushEnd::Open,
        }
    }

    fn arrive(&mut self)
        ensures
            final(self)@ == old(self)@.arrived(),
    {
        self.stage = ChunkPushStage::Done(
            if self.retried {
                WifiChunkPushOutcome::RetriedAfterChunkStatus
            } else {
                WifiChunkPushOutcome::Pushed
            },
        );
    }

    fn miss(&mut self, complaint: String)
        ensures
            final(self)@ == old(self)@.missed(complaint@),
    {
        if self.first_error.is_none() {
            self.first_error = Some(complaint);
        }
        self.stage = ChunkPushStage::Status;
    }

    fn give_up(&mut self)
        requires
            old(self)@.first_error is Some,
        ensures
            final(self)@ == old(self)@.given_up(),
    {
        let m = match &self.first_error {
            Some(m) => m.clone(),
            None => String::new(),
        };
        self.stage = ChunkPushStage::Failed(m);
    }

    /// Takes in an answer: the text that came or a complaint, and what was read out of the text.
    pub fn take_answer(&mut self, reply: &Result<String, String>, facts: &ChunkFacts)
        requires
            old(self)@.wf(),
            old(self)@.asks(),
        ensures
            final(self)@ == old(self)@.answered(
                crate::adb_command::outcome_view(*reply),
                facts@,
            ),
            final(self)@.wf(),
    {
        let accepted = ["written", "already_committed"];
        assert(str_views(accepted@) =~= chunk_statuses());
        let judged_reply = match reply {
            Ok(p) => judge_status(text::borrow_opt(&facts.status), p.as_str(), &accepted),
            Err(_) => Ok(()),
        };
        match &self.stage {
            ChunkPushStage::Binary => match (reply, judged_reply) {
                (Ok(_), Ok(_)) => {
                    self.arrive();
                },
                (Ok(_), Err(m)) => {
                    let mut before =
                        "binary push failed status and base64 fallback failed: ".to_string();
                    before.append(m.as_str());
                    before.append("; ");
                    self.stage = ChunkPushStage::Text(before);
                },
                (Err(m), _) => {
                    let mut before = "binary push failed and base64 fallback failed: ".to_string();
                    before.append(m.as_str());
                    before.append("; ");
                    self.stage = ChunkPushStage::Text(before);
                },
            },
            ChunkPushStage::Text(before) => {
                let before = before.clone();
                match (reply, judged_reply) {
                    (Ok(_), Ok(_)) => {
                        self.arrive();
                    },
                    (Ok(_), Err(m)) => {
                        self.miss(m);
                    },
                    (Err(m), _) => {
                        self.miss(checkpoint::about(before.as_str(), m.as_str()));
                    },
                }
            },
            ChunkPushStage::Status => {
                if reply.is_err() {
                    self.stage = ChunkPushStage::Stat;
                    return ;
                }
                match chunk_state_from(facts, self.relative_path.as_str(), self.chunk_index) {
                    ChunkStatusState::Committed => {
                        self.stage =
                        ChunkPushStage::Done(WifiChunkPushOutcome::RecoveredByChunkStatus);
                    },
                    ChunkStatusState::NotCommitted => {
                        if self.attempt + 1 < WIFI_CHUNK_PUSH_MAX_ATTEMPTS {
                            self.stage = ChunkPushStage::Binary;
                            self.attempt += 1;
                            self.retried = true;
                        } else {
                            self.stage = ChunkPushStage::Stat;
                        }
                    },
                    ChunkStatusState::PathMismatch => {
                        let mut m = "agent reported path_mismatch for chunk ".to_string();
                        m.append(decimal::dec_text(self.chunk_index as u128).as_str());
                        m.append(" on ");
                        m.append(self.relative_path.as_str());
                        self.stage = ChunkPushStage::Failed(m);
                    },
                    ChunkStatusState::Unknown => {
                        self.stage = ChunkPushStage::Stat;
                    },
                }
            },
            ChunkPushStage::Stat => {
                let expected: u64 = self.offset + self.payload.len() as u64;
                match (reply, facts.size_bytes) {
                    (Ok(_), Some(n)) => {
                        if remote_size_confirms_chunk_commit(n, expected) {
                            self.stage = ChunkPushStage::Done(WifiChunkPushOutcome::RecoveredByStat);
                        } else if self.attempt + 1 < WIFI_CHUNK_PUSH_MAX_ATTEMPTS {
                            self.stage = ChunkPushStage::Binary;
                            self.attempt += 1;
                        } else {
                            self.give_up();
                        }
                    },
                    _ => {
                        self.give_up();
                    },
                }
            },
            _ => {},
        }
    }

    /// Takes in an answer.
    pub fn answer(&mut self, reply: &Result<String, String>)
        requires
            old(self)@.wf(),
            old(self)@.asks(),
        ensures
            final(self)@ == old(self)@.after(crate::adb_command::outcome_view(*reply)),
            final(self)@.wf(),
    {
        let facts = facts_of_reply(reply);
        self.take_answer(reply, &facts);
    }
}

fn facts_of_reply(reply: &Result<String, String>) -> (r: ChunkFacts)
    ensures
        r@ == reply_facts(crate::adb_command::outcome_view(*reply)),
{
    match reply {
        Ok(p) => read_chunk_facts(p.as_str()),
        Err(_) => ChunkFacts {
            status: None,
            relative_path: None,
            chunk_index: None,
            size_bytes: None,
        },
    }
}

/// Every answer brings the push of a chunk nearer to its end, and a chunk is pushed at most twice.
pub proof fn lemma_chunk_push_ends(
    v: ChunkPushView,
    reply: Result<Seq<char>, Seq<char>>,
    facts: ChunkFactsView,
)
    requires
        v.wf(),
        v.asks(),
    ensures
        v.answered(reply, facts).wf(),
        v.answered(reply, facts).left() < v.left(),
        v.left() >= 0,
        v.answered(reply, facts).attempt <= v.attempt + 1,
        v.answered(reply, facts).attempt < WIFI_CHUNK_PUSH_MAX_ATTEMPTS,
{
}

/// The push of a chunk ends well only where the agent said so: that it has written the chunk or
/// had it already, that the chunk is committed, or that the file reaches to the chunk's end.
pub proof fn lemma_chunk_push_done_is_backed(
    v: ChunkPushView,
    reply: Result<Seq<char>, Seq<char>>,
    facts: ChunkFactsView,
)
    requires
        v.wf(),
        v.asks(),
        v.answered(reply, facts).stage is Done,
    ensures
        reply is Ok,
        ({
            ||| facts.status == Some("written"@)
            ||| facts.status == Some("already_committed"@)
            ||| facts.status == Some("committed"@)
            ||| facts.status == Some("committed_on_disk"@)
            ||| (facts.size_bytes matches Some(n) && n >= v.offset + v.payload.len())
        }),
{
}

/// What a fetched chunk must be: as long as its header says, and as long as was asked for.
pub open spec fn raw_chunk(
    path: Seq<char>,
    length: u64,
    header: Seq<char>,
    header_length: Option<u64>,
    payload: Seq<u8>,
) -> Result<Seq<u8>, Seq<char>> {
    match header_length {
        None => Err("binary pull header did not include length: "@ + header),
        Some(n) => if n != payload.len() {
            Err(
                "binary pull length mismatch: header="@ + decimal::dec(n as nat) + " payload="@
                    + decimal::dec(payload.len()),
            )
        } else if n != length {
            Err(
                "binary pull returned short chunk for "@ + path + ": expected="@ + decimal::dec(
                    length as nat,
                ) + " actual="@ + decimal::dec(n as nat),
            )
        } else {
            Ok(payload)
        },
    }
}

/// The view of bytes or a complaint.
pub open spec fn bytes_view(r: Result<Vec<u8>, String>) -> Result<Seq<u8>, Seq<char>> {
    match r {
        Ok(b) => Ok(b@),
        Err(m) => Err(m@),
    }
}

/// A fetched chunk, from what its header says of the length.
pub fn check_raw_chunk(
    relative_path: &str,
    length: u64,
    header: &str,
    header_length: Option<u64>,
    payload: Vec<u8>,
) -> (r: Result<Vec<u8>, String>)
    ensures
        bytes_view(r) == raw_chunk(relative_path@, length, header@, header_length, payload@),
{
    let n: u64 = match header_length {
        None => {
            return Err(checkpoint::about("binary pull header did not include length: ", header));
        },
        Some(n) => n,
    };
    if n as u128 != payload.len() as u128 {
        let mut m = "binary pull length mismatch: header=".to_string();
        m.append(decimal::dec_text(n as u128).as_str());
        m.append(" payload=");
        m.append(decimal::dec_text(payload.len() as u128).as_str());
        return Err(m);
    }
    if n != length {
        let mut m = "binary pull returned short chunk for ".to_string();
        m.append(relative_path);
        m.append(": expected=");
        m.append(decimal::dec_text(length as u128).as_str());
        m.append(" actual=");
        m.append(decimal::dec_text(n as u128).as_str());
        return Err(m);
    }
    Ok(payload)
}

/// A fetched chunk.
pub fn take_raw_chunk(relative_path: &str, length: u64, header: &str, payload: Vec<u8>) -> (r:
    Result<Vec<u8>, String>)
    ensures
        bytes_view(r) == raw_chunk(
            relative_path@,
            length,
            header@,
            json::json_number(header@, "length"@),
            payload@,
        ),
{
    let header_length: Option<u64> = json::number_field(header, "length");
    check_raw_chunk(relative_path, length, header, header_length, payload)
}

/// What a chunk must be that was fetched as text, after the raw way failed.
pub open spec fn text_chunk(
    path: Seq<char>,
    length: u64,
    raw_error: Seq<char>,
    reply: Result<Seq<char>, Seq<char>>,
    encoded: Option<Seq<char>>,
) -> Result<Seq<u8>, Seq<char>> {
    match reply {
        Err(m) => Err(
            "binary pull failed: "@ + raw_error + "; base64 fallback failed: "@ + m,
        ),
        Ok(p) => match encoded {
            None => Err(
                "binary pull failed: "@ + raw_error
                    + "; base64 chunk response did not include payload: "@ + p,
            ),
            Some(s) => match codec::unbase64(encode_utf8(s)) {
                Err(m) => Err(m),
                Ok(b) => if b.len() != length {
                    Err(
                        "base64 pull returned short chunk for "@ + path + ": expected="@
                            + decimal::dec(length as nat) + " actual="@ + decimal::dec(b.len()),
                    )
                } else {
                    Ok(b)
                },
            },
        },
    }
}

/// A chunk that was fetched as text, from what the reply says.
pub fn check_text_chunk(
    relative_path: &str,
    length: u64,
    raw_error: &str,
    reply: &Result<String, String>,
    encoded: Option<String>,
) -> (r: Result<Vec<u8>, String>)
    ensures
        bytes_view(r) == text_chunk(
            relative_path@,
            length,
            raw_error@,
            crate::adb_command::outcome_view(*reply),
            text::opt_view(encoded),
        ),
{
    let mut before = "binary pull failed: ".to_string();
    before.append(raw_error);
    let payload = match reply {
        Err(m) => {
            before.append("; base64 fallback failed: ");
            before.append(m.as_str());
            return Err(before);
        },
        Ok(p) => p,
    };
    let s = match encoded {
        None => {
            before.append("; base64 chunk response did not include payload: ");
            before.append(payload.as_str());
            return Err(before);
        },
        Some(s) => s,
    };
    match codec::base64_decode(s.as_str()) {
        Err(m) => Err(m),
        Ok(b) => {
            if b.len() as u128 != length as u128 {
                let mut m = "base64 pull returned short chunk for ".to_string();
                m.append(relative_path);
                m.append(": expected=");
                m.append(decimal::dec_text(length as u128).as_str());
                m.append(" actual=");
                m.append(decimal::dec_text(b.len() as u128).as_str());
                return Err(m);
            }
            Ok(b)
        },
    }
}

/// The text under a key of an answer; nothing where none came.
pub open spec fn reply_text(reply: Result<Seq<char>, Seq<char>>, key: Seq<char>) -> Option<
    Seq<char>,
> {
    match reply {
        Ok(p) => json::json_text(p, key),
        Err(_) => None,
    }
}

/// A chunk that was fetched as text.
pub fn take_text_chunk(
    relative_path: &str,
    length: u64,
    raw_error: &str,
    reply: &Result<String, String>,
) -> (r: Result<Vec<u8>, String>)
    ensures
        bytes_view(r) == ({
            let told = crate::adb_command::outcome_view(*reply);
            text_chunk(relative_path@, length, raw_error@, told, reply_text(told, "payload"@))
        }),
{
    let encoded = match reply {
        Ok(p) => json::text_field(p.as_str(), "payload"),
        Err(_) => None,
    };
    check_text_chunk(relative_path, length, raw_error, reply, encoded)
}

/// A chunk that was fetched has the length that was asked for, whichever way it came.
pub proof fn lemma_fetched_chunk_is_whole(
    path: Seq<char>,
    length: u64,
    header: Seq<char>,
    header_length: Option<u64>,
    payload: Seq<u8>,
    raw_error: Seq<char>,
    reply: Result<Seq<char>, Seq<char>>,
    encoded: Option<Seq<char>>,
)
    ensures
        raw_chunk(path, length, header, header_length, payload) matches Ok(b) ==> b.len()
            == length,
        text_chunk(path, length, raw_error, reply, encoded) matches Ok(b) ==> b.len() == length,
{
}

/// Whether two pushes are of the same chunk.
pub open spec fn same_chunk(a: ChunkPushView, b: ChunkPushView) -> bool {
    a.relative_path == b.relative_path && a.chunk_index == b.chunk_index && a.offset == b.offset
        && a.payload == b.payload
}

/// A status is accepted exactly where it is told and one of those asked for.
pub proof fn lemma_only_accepted_statuses_pass(
    status: Option<Seq<char>>,
    payload: Seq<char>,
    accepted: Seq<Seq<char>>,
)
    ensures
        judged(status, payload, accepted) is Ok <==> (status matches Some(s) && accepted.contains(
            s,
        )),
        judged(status, payload, accepted) matches Err(m) ==> m == (match status {
            None => "agent chunk response did not include status: "@ + payload,
            Some(s) => "agent chunk response status was "@ + s + ": "@ + payload,
        }),
{
}

proof fn lemma_chunk_statuses(s: Seq<char>)
    ensures
        chunk_statuses().contains(s) <==> s == "written"@ || s == "already_committed"@,
{
    let all = chunk_statuses();
    assert(all[0] == "written"@ && all[1] == "already_committed"@);
    if all.contains(s) {
        let i = choose|i: int| 0 <= i < all.len() && all[i] == s;
        assert(i == 0 || i == 1);
    }
}

/// A chunk is sent raw, with its path, number, offset and bytes, and is through exactly where the agent
/// tells that it wrote it or had it already. Else the same chunk is sent as text; where that is not
/// taken either the agent is asked what it has of just this chunk.
pub proof fn lemma_pushed_chunk_is_acknowledged(
    v: ChunkPushView,
    reply: Result<Seq<char>, Seq<char>>,
    facts: ChunkFactsView,
)
    requires
        v.wf(),
        v.stage is Binary || v.stage is Text,
    ensures
        ({
            let u = v.answered(reply, facts);
            let taken = reply is Ok && (facts.status == Some("written"@) || facts.status == Some(
                "already_committed"@,
            ));
            &&& v.stage is Binary ==> v.ask() == AskView::PushBinary(
                v.relative_path,
                v.chunk_index,
                v.offset,
                v.payload,
            )
            &&& v.stage is Text ==> v.ask() == AskView::PushText(
                v.relative_path,
                v.chunk_index,
                v.offset,
                v.payload,
            )
            &&& u.stage is Done <==> taken
            &&& taken ==> u.stage == ChunkPushStageView::Done(
                if v.retried {
                    WifiChunkPushOutcome::RetriedAfterChunkStatus
                } else {
                    WifiChunkPushOutcome::Pushed
                },
            )
            &&& !taken && v.stage is Binary ==> u.ask() == AskView::PushText(
                v.relative_path,
                v.chunk_index,
                v.offset,
                v.payload,
            ) && u.stage is Text
            &&& !taken && v.stage is Text ==> u.stage is Status && u.ask() == AskView::ChunkStatus(
                v.relative_path,
                v.chunk_index,
                v.offset,
                v.payload.len() as u64,
            )
            &&& same_chunk(u, v) && u.attempt == v.attempt && u.retried == v.retried
            &&& v.first_error is Some ==> u.first_error == v.first_error
        }),
{
    if let Some(s) = facts.status {
        lemma_chunk_statuses(s);
    }
}

/// A chunk whose push was not acknowledged counts as through where the agent tells of just this path and
/// number that it is committed. Where it tells that it is not, the chunk is sent once more, but no
/// more than twice in all. A path that does not match ends the push. Anything else, and an answer
/// that speaks of another path or number, leads to a look at the size of the file.
pub proof fn lemma_unacknowledged_chunk_is_asked_for(
    v: ChunkPushView,
    reply: Result<Seq<char>, Seq<char>>,
    facts: ChunkFactsView,
)
    requires
        v.wf(),
        v.stage is Status,
    ensures
        ({
            let u = v.answered(reply, facts);
            let mine = reply is Ok && facts.relative_path == Some(v.relative_path)
                && facts.chunk_index == Some(v.chunk_index as u64);
            let committed = mine && (facts.status == Some("committed"@) || facts.status == Some(
                "committed_on_disk"@,
            ));
            let missing = mine && facts.status == Some("not_committed"@);
            let mismatch = mine && facts.status == Some("path_mismatch"@);
            &&& u.stage is Done <==> committed
            &&& committed ==> u.stage == ChunkPushStageView::Done(
                WifiChunkPushOutcome::RecoveredByChunkStatus,
            )
            &&& missing && v.attempt == 0 ==> u.stage is Binary && u.attempt == 1 && u.retried
            &&& missing && v.attempt > 0 ==> u.ask() == AskView::Stat(v.relative_path) && u.stage
                is Stat
            &&& mismatch ==> u.stage is Failed
            &&& !committed && !missing && !mismatch ==> u.stage is Stat && u.ask()
                == AskView::Stat(v.relative_path)
            &&& same_chunk(u, v) && u.first_error == v.first_error
            &&& !(u.stage is Binary) ==> u.attempt == v.attempt && u.retried == v.retried
        }),
{
    reveal_strlit("committed");
    reveal_strlit("committed_on_disk");
    reveal_strlit("not_committed");
    reveal_strlit("path_mismatch");
    assert("committed"@.len() != "not_committed"@.len());
    assert("committed_on_disk"@.len() != "not_committed"@.len());
    assert("path_mismatch"@[0] == 'p');
    assert("not_committed"@[0] == 'n');
    assert("committed"@[0] == 'c');
    assert("committed_on_disk"@[0] == 'c');
}

/// By the size of the file a chunk counts as through exactly where the file reaches to the end of the
/// chunk. A file that is shorter has the chunk sent once more, but no more than twice in all; the push
/// then fails with what was complained of first.
pub proof fn lemma_file_size_shows_the_chunk(
    v: ChunkPushView,
    reply: Result<Seq<char>, Seq<char>>,
    facts: ChunkFactsView,
)
    requires
        v.wf(),
        v.stage is Stat,
    ensures
        ({
            let u = v.answered(reply, facts);
            let told = reply is Ok && facts.size_bytes is Some;
            let there = told && facts.size_bytes->0 >= v.offset + v.payload.len();
            &&& u.stage is Done <==> there
            &&& there ==> u.stage == ChunkPushStageView::Done(WifiChunkPushOutcome::RecoveredByStat)
            &&& told && !there && v.attempt == 0 ==> u.stage is Binary && u.attempt == 1
                && u.retried == v.retried
            &&& told && !there && v.attempt > 0 ==> u.stage == ChunkPushStageView::Failed(
                v.first_error->0,
            )
            &&& !told ==> u.stage == ChunkPushStageView::Failed(v.first_error->0)
            &&& same_chunk(u, v) && u.first_error == v.first_error
        }),
{
}

/// Bytes that came raw are taken exactly where they are as many as the header tells and as were asked
/// for; those that came as text exactly where the text is base64 of as many bytes as were asked for.
pub proof fn lemma_fetched_bytes_are_those_that_came(
    path: Seq<char>,
    length: u64,
    header: Seq<char>,
    header_length: Option<u64>,
    payload: Seq<u8>,
    raw_error: Seq<char>,
    reply: Result<Seq<char>, Seq<char>>,
    encoded: Option<Seq<char>>,
)
    ensures
        raw_chunk(path, length, header, header_length, payload) is Ok <==> header_length == Some(
            length,
        ) && payload.len() == length,
        raw_chunk(path, length, header, header_length, payload) matches Ok(b) ==> b == payload,
        text_chunk(path, length, raw_error, reply, encoded) is Ok <==> reply is Ok && (
        encoded matches Some(s) && (codec::unbase64(encode_utf8(s)) matches Ok(b) && b.len()
            == length)),
        text_chunk(path, length, raw_error, reply, encoded) matches Ok(b) ==> codec::unbase64(
            encode_utf8(encoded->0),
        ) == Ok::<Seq<u8>, Seq<char>>(b),
{
}

/// What is read out of an answer on a chunk stands under these keys of its JSON.
pub proof fn lemma_chunk_facts_are_read_by_key(payload: Seq<char>)
    ensures
        ({
            let f = chunk_facts(payload);
            &&& f.status == json::json_text(payload, "status"@)
            &&& f.relative_path == json::json_text(payload, "relative_path"@)
            &&& f.chunk_index == json::json_number(payload, "chunk_index"@)
            &&& f.size_bytes == json::json_number(payload, "size_bytes"@)
        }),
{
}

/// A chunk is first pushed as it is, under its own path, index and offset, with a second try still
/// to be had and nothing to complain of.
pub proof fn lemma_chunk_is_first_pushed_as_it_is(
    path: Seq<char>,
    index: u32,
    offset: u64,
    payload: Seq<u8>,
)
    ensures
        ({
            let v = fresh_push(path, index, offset, payload);
            &&& v.asks()
            &&& v.ask() == AskView::PushBinary(path, index, offset, payload)
            &&& v.may_retry()
            &&& v.attempt == 0
            &&& !v.retried
            &&& v.first_error is None
        }),
{
}

} // verus!
