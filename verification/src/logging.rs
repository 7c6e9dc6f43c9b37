//! Log records and their JSON lines.

use crate::decimal;
use crate::models;
use crate::text;
use vstd::prelude::*;

verus! {

#[derive(Debug, Clone, Copy, PartialEq, Eq, Structural)]
pub enum LogLevel {
    Debug,
    Info,
    Warn,
    Error,
}

#[derive(Debug, Clone, Copy, PartialEq, Eq, Structural)]
pub enum LogScope {
    Audit,
    Transfer,
    Device,
    Protocol,
}

/// One thing that happened.
#[derive(Debug, PartialEq, Eq)]
pub struct LogRecord {
    pub ts_epoch_ms: u128,
    pub level: LogLevel,
    pub scope: LogScope,
    pub task_id: Option<String>,
    pub file_path: Option<String>,
    pub chunk_id: Option<String>,
    pub lane: Option<String>,
    pub message: String,
}

/// What a record says.
#[verifier::ext_equal]
pub struct LogRecordView {
    pub ts_epoch_ms: u128,
    pub level: LogLevel,
    pub scope: LogScope,
    pub task_id: Option<Seq<char>>,
    pub file_path: Option<Seq<char>>,
    pub chunk_id: Option<Seq<char>>,
    pub lane: Option<Seq<char>>,
    pub message: Seq<char>,
}

impl View for LogRecord {
    type V = LogRecordView;

    open spec fn view(&self) -> LogRecordView {
        LogRecordView {
            ts_epoch_ms: self.ts_epoch_ms,
            level: self.level,
            scope: self.scope,
            task_id: text::opt_view(self.task_id),
            file_path: text::opt_view(self.file_path),
            chunk_id: text::opt_view(self.chunk_id),
            lane: text::opt_view(self.lane),
            message: self.message@,
        }
    }
}

/// The views of a list of records.
pub open spec fn record_views(v: Seq<LogRecord>) -> Seq<LogRecordView> {
    v.map_values(|r: LogRecord| r@)
}

/// A record with a message and nothing else.
pub open spec fn plain_record(
    now: u128,
    level: LogLevel,
    scope: LogScope,
    message: Seq<char>,
) -> LogRecordView {
    LogRecordView {
        ts_epoch_ms: now,
        level,
        scope,
        task_id: None,
        file_path: None,
        chunk_id: None,
        lane: None,
        message,
    }
}

/// A character as JSON text inside quotes.
pub open spec fn json_char(c: char) -> Seq<char> {
    if c == '\\' {
        seq!['\\', '\\']
    } else if c == '"' {
        seq!['\\', '"']
    } else if c == '\n' {
        seq!['\\', 'n']
    } else if c == '\r' {
        seq!['\\', 'r']
    } else if c == '\t' {
        seq!['\\', 't']
    } else {
        seq![c]
    }
}

/// A text with backslash, quote, line feed, carriage return and tab escaped.
pub open spec fn json_escape(s: Seq<char>) -> Seq<char>
    decreases s.len(),
{
    if s.len() == 0 {
        Seq::empty()
    } else {
        json_escape(s.drop_last()) + json_char(s.last())
    }
}

/// A quoted text, or `null`.
pub open spec fn json_optional(s: Option<Seq<char>>) -> Seq<char> {
    match s {
        Some(v) => "\""@ + json_escape(v) + "\""@,
        None => "null"@,
    }
}

/// The name of a level.
pub open spec fn level_name(l: LogLevel) -> Seq<char> {
    match l {
        LogLevel::Debug => "debug"@,
        LogLevel::Info => "info"@,
        LogLevel::Warn => "warn"@,
        LogLevel::Error => "error"@,
    }
}

/// The name of a scope.
pub open spec fn scope_name(s: LogScope) -> Seq<char> {
    match s {
        LogScope::Audit => "audit"@,
        LogScope::Transfer => "transfer"@,
        LogScope::Device => "device"@,
        LogScope::Protocol => "protocol"@,
    }
}

/// The JSON line of a record.
pub open spec fn json_line(r: LogRecordView) -> Seq<char> {
    "{\"ts_epoch_ms\":"@ + decimal::dec(r.ts_epoch_ms as nat) + ",\"level\":\""@ + level_name(
        r.level,
    ) + "\",\"scope\":\""@ + scope_name(r.scope) + "\",\"task_id\":"@ + json_optional(r.task_id)
        + ",\"file_path\":"@ + json_optional(r.file_path) + ",\"chunk_id\":"@ + json_optional(
        r.chunk_id,
    ) + ",\"lane\":"@ + json_optional(r.lane) + ",\"message\":\""@ + json_escape(r.message)
        + "\"}"@
}

impl LogRecord {
    /// A record of a message, made now.
    pub fn new(level: LogLevel, scope: LogScope, message: &str) -> (r: Self)
        ensures
            r@ == plain_record(r.ts_epoch_ms, level, scope, message@),
    {
        let now: u128 = models::now_epoch_ms();
        Self::new_at(now, level, scope, message)
    }

    /// A record of a message, made at `now`.
    pub fn new_at(now: u128, level: LogLevel, scope: LogScope, message: &str) -> (r: Self)
        ensures
            r@ == plain_record(now, level, scope, message@),
    {
        LogRecord {
            ts_epoch_ms: now,
            level,
            scope,
            task_id: None,
            file_path: None,
            chunk_id: None,
            lane: None,
            message: message.to_string(),
        }
    }

    /// The record with a task.
    pub fn with_task_id(self, task_id: &str) -> (r: Self)
        ensures
            r@ == (LogRecordView { task_id: Some(task_id@), ..self@ }),
    {
        let mut out = self;
        out.task_id = Some(task_id.to_string());
        out
    }

    /// The record with a file.
    pub fn with_file_path(self, file_path: &str) -> (r: Self)
        ensures
            r@ == (LogRecordView { file_path: Some(file_path@), ..self@ }),
    {
        let mut out = self;
        out.file_path = Some(file_path.to_string());
        out
    }

    /// The record with a lane.
    pub fn with_lane(self, lane: &str) -> (r: Self)
        ensures
            r@ == (LogRecordView { lane: Some(lane@), ..self@ }),
    {
        let mut out = self;
        out.lane = Some(lane.to_string());
        out
    }

    /// The record with a chunk.
    pub fn with_chunk_id(self, chunk_id: &str) -> (r: Self)
        ensures
            r@ == (LogRecordView { chunk_id: Some(chunk_id@), ..self@ }),
    {
        let mut out = self;
        out.chunk_id = Some(chunk_id.to_string());
        out
    }

    /// The record as one line of JSON.
    pub fn to_json_line(&self) -> (r: String)
        ensures
            r@ == json_line(self@),
    {
        let mut s = "{\"ts_epoch_ms\":".to_string();
        s.append(decimal::dec_text(self.ts_epoch_ms).as_str());
        s.append(",\"level\":\"");
        s.append(self.level.as_str());
        s.append("\",\"scope\":\"");
        s.append(self.scope.as_str());
        s.append("\",\"task_id\":");
        s.append(optional_json_string(&self.task_id).as_str());
        s.append(",\"file_path\":");
        s.append(optional_json_string(&self.file_path).as_str());
        s.append(",\"chunk_id\":");
        s.append(optional_json_string(&self.chunk_id).as_str());
        s.append(",\"lane\":");
        s.append(optional_json_string(&self.lane).as_str());
        s.append(",\"message\":\"");
        s.append(escape_json(self.message.as_str()).as_str());
        s.append("\"}");
        s
    }
}

impl Clone for LogRecord {
    fn clone(&self) -> (r: Self)
        ensures
            r@ == self@,
    {
        LogRecord {
            ts_epoch_ms: self.ts_epoch_ms,
            level: self.level,
            scope: self.scope,
            task_id: text::copy_opt(&self.task_id),
            file_path: text::copy_opt(&self.file_path),
            chunk_id: text::copy_opt(&self.chunk_id),
            lane: text::copy_opt(&self.lane),
            message: self.message.clone(),
        }
    }
}

impl LogLevel {
    /// The name of the level.
    pub fn as_str(self) -> (r: &'static str)
        ensures
            r@ == level_name(self),
    {
        match self {
            LogLevel::Debug => "debug",
            LogLevel::Info => "info",
            LogLevel::Warn => "warn",
            LogLevel::Error => "error",
        }
    }
}

impl LogScope {
    /// The name of the scope.
    pub fn as_str(self) -> (r: &'static str)
        ensures
            r@ == scope_name(self),
    {
        match self {
            LogScope::Audit => "audit",
            LogScope::Transfer => "transfer",
            LogScope::Device => "device",
            LogScope::Protocol => "protocol",
        }
    }
}

/// A quoted text, or `null`.
pub fn optional_json_string(value: &Option<String>) -> (r: String)
    ensures
        r@ == json_optional(text::opt_view(*value)),
{
    match value {
        Some(v) => {
            let mut s = "\"".to_string();
            s.append(escape_json(v.as_str()).as_str());
            s.append("\"");
            s
        },
        None => "null".to_string(),
    }
}

/// A text with backslash, quote, line feed, carriage return and tab escaped.
pub fn escape_json(input: &str) -> (r: String)
    ensures
        r@ == json_escape(input@),
{
    let mut out = String::new();
    for c in it: input.chars()
        invariant
            it.seq() == input@,
            out@ == json_escape(input@.take(it.index())),
    {
        let ghost before = out@;
        assert(input@.take(it.index() + 1).drop_last() =~= input@.take(it.index()));
        if c == '\\' {
            out.push('\\');
            out.push('\\');
        } else if c == '"' {
            out.push('\\');
            out.push('"');
        } else if c == '\n' {
            out.push('\\');
            out.push('n');
        } else if c == '\r' {
            out.push('\\');
            out.push('r');
        } else if c == '\t' {
            out.push('\\');
            out.push('t');
        } else {
            out.push(c);
        }
        assert(out@ =~= before + json_char(c));
    }
    assert(input@.take(input@.len() as int) =~= input@);
    out
}

/// An escaped text holds no line feed and no carriage return.
pub proof fn lemma_escape_has_no_line_end(s: Seq<char>)
    ensures
        !json_escape(s).contains('\n'),
        !json_escape(s).contains('\r'),
    decreases s.len(),
{
    if s.len() > 0 {
        lemma_escape_has_no_line_end(s.drop_last());
        let head = json_escape(s.drop_last());
        let tail = json_char(s.last());
        assert forall|i: int| 0 <= i < (head + tail).len() implies (head + tail)[i] != '\n' && (head
            + tail)[i] != '\r' by {
            if i < head.len() {
                assert(head.contains(head[i]));
            }
        }
    }
}

proof fn lemma_no_line_end_concat(a: Seq<char>, b: Seq<char>)
    requires
        !a.contains('\n'),
        !b.contains('\n'),
    ensures
        !(a + b).contains('\n'),
{
    if (a + b).contains('\n') {
        let i = choose|i: int| 0 <= i < (a + b).len() && (a + b)[i] == '\n';
        if i < a.len() {
            assert(a[i] == '\n');
        } else {
            assert(b[i - a.len()] == '\n');
        }
    }
}

proof fn lemma_optional_has_no_line_end(s: Option<Seq<char>>)
    ensures
        !json_optional(s).contains('\n'),
{
    reveal_strlit("\"");
    reveal_strlit("null");
    match s {
        Some(v) => {
            lemma_escape_has_no_line_end(v);
            lemma_no_line_end_concat("\""@, json_escape(v));
            lemma_no_line_end_concat("\""@ + json_escape(v), "\""@);
        },
        None => {},
    }
}

/// A record's JSON is one line, whatever its texts hold.
pub proof fn lemma_json_line_is_one_line(r: LogRecordView)
    ensures
        !json_line(r).contains('\n'),
{
    reveal_strlit("{\"ts_epoch_ms\":");
    reveal_strlit(",\"level\":\"");
    reveal_strlit("\",\"scope\":\"");
    reveal_strlit("\",\"task_id\":");
    reveal_strlit(",\"file_path\":");
    reveal_strlit(",\"chunk_id\":");
    reveal_strlit(",\"lane\":");
    reveal_strlit(",\"message\":\"");
    reveal_strlit("\"}");
    reveal_strlit("debug");
    reveal_strlit("info");
    reveal_strlit("warn");
    reveal_strlit("error");
    reveal_strlit("audit");
    reveal_strlit("transfer");
    reveal_strlit("device");
    reveal_strlit("protocol");
    decimal::lemma_dec(r.ts_epoch_ms as nat);
    let n = decimal::dec(r.ts_epoch_ms as nat);
    assert(!n.contains('\n')) by {
        assert forall|i: int| 0 <= i < n.len() implies n[i] != '\n' by {
            assert(decimal::is_digit(n[i]));
        }
    }
    lemma_optional_has_no_line_end(r.task_id);
    lemma_optional_has_no_line_end(r.file_path);
    lemma_optional_has_no_line_end(r.chunk_id);
    lemma_optional_has_no_line_end(r.lane);
    lemma_escape_has_no_line_end(r.message);
    let s1 = "{\"ts_epoch_ms\":"@ + n;
    lemma_no_line_end_concat("{\"ts_epoch_ms\":"@, n);
    let s2 = s1 + ",\"level\":\""@;
    lemma_no_line_end_concat(s1, ",\"level\":\""@);
    let s3 = s2 + level_name(r.level);
    lemma_no_line_end_concat(s2, level_name(r.level));
    let s4 = s3 + "\",\"scope\":\""@;
    lemma_no_line_end_concat(s3, "\",\"scope\":\""@);
    let s5 = s4 + scope_name(r.scope);
    lemma_no_line_end_concat(s4, scope_name(r.scope));
    let s6 = s5 + "\",\"task_id\":"@;
    lemma_no_line_end_concat(s5, "\",\"task_id\":"@);
    let s7 = s6 + json_optional(r.task_id);
    lemma_no_line_end_concat(s6, json_optional(r.task_id));
    let s8 = s7 + ",\"file_path\":"@;
    lemma_no_line_end_concat(s7, ",\"file_path\":"@);
    let s9 = s8 + json_optional(r.file_path);
    lemma_no_line_end_concat(s8, json_optional(r.file_path));
    let s10 = s9 + ",\"chunk_id\":"@;
    lemma_no_line_end_concat(s9, ",\"chunk_id\":"@);
    let s11 = s10 + json_optional(r.chunk_id);
    lemma_no_line_end_concat(s10, json_optional(r.chunk_id));
    let s12 = s11 + ",\"lane\":"@;
    lemma_no_line_end_concat(s11, ",\"lane\":"@);
    let s13 = s12 + json_optional(r.lane);
    lemma_no_line_end_concat(s12, json_optional(r.lane));
    let s14 = s13 + ",\"message\":\""@;
    lemma_no_line_end_concat(s13, ",\"message\":\""@);
    let s15 = s14 + json_escape(r.message);
    lemma_no_line_end_concat(s14, json_escape(r.message));
    lemma_no_line_end_concat(s15, "\"}"@);
}

/// What a reader of JSON makes of the characters up to the next quote that ends the text: a
/// backslash and the character behind it stand for one character.
pub open spec fn read_quoted(s: Seq<char>) -> Seq<char>
    decreases s.len(),
{
    if s.len() == 0 || s[0] == '"' {
        Seq::empty()
    } else if s[0] == '\\' && s.len() > 1 {
        seq![
            if s[1] == 'n' {
                '\n'
            } else if s[1] == 'r' {
                '\r'
            } else if s[1] == 't' {
                '\t'
            } else {
                s[1]
            },
        ] + read_quoted(s.skip(2))
    } else {
        seq![s[0]] + read_quoted(s.skip(1))
    }
}

proof fn lemma_escape_from_the_front(s: Seq<char>)
    requires
        s.len() > 0,
    ensures
        json_escape(s) == json_char(s[0]) + json_escape(s.skip(1)),
    decreases s.len(),
{
    let d = s.drop_last();
    if s.len() == 1 {
        assert(d =~= Seq::<char>::empty());
        assert(s.skip(1) =~= Seq::<char>::empty());
        assert(json_escape(s) =~= json_char(s[0]) + json_escape(s.skip(1)));
    } else {
        lemma_escape_from_the_front(d);
        assert(s.skip(1).drop_last() =~= d.skip(1));
        assert(s.skip(1).last() == s.last());
        assert(json_escape(s) =~= json_char(s[0]) + json_escape(s.skip(1)));
    }
}

/// A reader of the line finds every text as it was, and finds its end where the quote behind it
/// stands, whatever follows.
pub proof fn lemma_escaped_text_is_read_as_it_was(s: Seq<char>, rest: Seq<char>)
    ensures
        read_quoted(json_escape(s) + seq!['"'] + rest) == s,
    decreases s.len(),
{
    let all = json_escape(s) + seq!['"'] + rest;
    if s.len() == 0 {
        assert(all[0] == '"');
        assert(read_quoted(all) =~= s);
    } else {
        let t = s.skip(1);
        lemma_escape_from_the_front(s);
        lemma_escaped_text_is_read_as_it_was(t, rest);
        let behind = json_escape(t) + seq!['"'] + rest;
        let c = json_char(s[0]);
        assert(all =~= c + behind);
        if c.len() == 2 {
            assert(all.skip(2) =~= behind);
        } else {
            assert(all.skip(1) =~= behind);
        }
        assert(seq![s[0]] + t =~= s);
    }
}

/// No two levels share a name, nor two scopes, and what is missing is told otherwise than any text.
pub proof fn lemma_names_are_told_apart(
    a: LogLevel,
    b: LogLevel,
    p: LogScope,
    q: LogScope,
    s: Seq<char>,
)
    ensures
        level_name(a) == level_name(b) ==> a == b,
        scope_name(p) == scope_name(q) ==> p == q,
        json_optional(Some(s)) != json_optional(None),
        level_name(LogLevel::Error) == "error"@,
        level_name(LogLevel::Info) == "info"@,
        level_name(LogLevel::Warn) == "warn"@,
        level_name(LogLevel::Debug) == "debug"@,
        scope_name(LogScope::Audit) == "audit"@,
        scope_name(LogScope::Transfer) == "transfer"@,
        scope_name(LogScope::Device) == "device"@,
        scope_name(LogScope::Protocol) == "protocol"@,
{
    reveal_strlit("debug");
    reveal_strlit("info");
    reveal_strlit("warn");
    reveal_strlit("error");
    reveal_strlit("audit");
    reveal_strlit("transfer");
    reveal_strlit("device");
    reveal_strlit("protocol");
    reveal_strlit("null");
    reveal_strlit("\"");
    assert(level_name(a)[0] == match a {
        LogLevel::Debug => 'd',
        LogLevel::Info => 'i',
        LogLevel::Warn => 'w',
        LogLevel::Error => 'e',
    });
    assert(level_name(b)[0] == match b {
        LogLevel::Debug => 'd',
        LogLevel::Info => 'i',
        LogLevel::Warn => 'w',
        LogLevel::Error => 'e',
    });
    assert(scope_name(p)[0] == match p {
        LogScope::Audit => 'a',
        LogScope::Transfer => 't',
        LogScope::Device => 'd',
        LogScope::Protocol => 'p',
    });
    assert(scope_name(q)[0] == match q {
        LogScope::Audit => 'a',
        LogScope::Transfer => 't',
        LogScope::Device => 'd',
        LogScope::Protocol => 'p',
    });
    assert(json_optional(Some(s))[0] == '"');
    assert(json_optional(None)[0] == 'n');
}

} // verus!
