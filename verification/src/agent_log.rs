//! Log lines: which of them are listed, and how those of an agent are kept.

use crate::checkpoint;
use crate::decimal;
use crate::json;
use crate::paths;
use crate::records;
use crate::text;
use vstd::prelude::*;

verus! {

/// Which log lines are listed.
#[derive(Debug, PartialEq, Eq)]
pub struct LogFilter {
    pub task_id: Option<String>,
    pub device_host: Option<String>,
    pub from_epoch_ms: Option<u64>,
    pub to_epoch_ms: Option<u64>,
    /// A text that a line of the level holds.
    pub level: Option<String>,
    pub text: Option<String>,
}

#[verifier::ext_equal]
pub struct FilterView {
    pub task_id: Option<Seq<char>>,
    pub device_host: Option<Seq<char>>,
    pub from_epoch_ms: Option<u64>,
    pub to_epoch_ms: Option<u64>,
    pub level: Option<Seq<char>>,
    pub text: Option<Seq<char>>,
}

impl View for LogFilter {
    type V = FilterView;

    open spec fn view(&self) -> FilterView {
        FilterView {
            task_id: text::opt_view(self.task_id),
            device_host: text::opt_view(self.device_host),
            from_epoch_ms: self.from_epoch_ms,
            to_epoch_ms: self.to_epoch_ms,
            level: text::opt_view(self.level),
            text: text::opt_view(self.text),
        }
    }
}

/// The text that a line of a level holds.
pub open spec fn level_text(level: Option<Seq<char>>) -> Option<Seq<char>> {
    match records::filled(level) {
        Some(l) => Some("\"level\":\""@ + text::lower_all(text::trim(l)) + "\""@),
        None => None,
    }
}

impl LogFilter {
    /// The filter that is asked for: what is blank filters nothing.
    pub fn new(
        task_id: &Option<String>,
        device_host: &Option<String>,
        from_epoch_ms: Option<u64>,
        to_epoch_ms: Option<u64>,
        level: &Option<String>,
        wanted: &Option<String>,
    ) -> (r: Self)
        ensures
            r@ == (FilterView {
                task_id: records::filled(text::opt_view(*task_id)),
                device_host: records::filled(text::opt_view(*device_host)),
                from_epoch_ms,
                to_epoch_ms,
                level: level_text(text::opt_view(*level)),
                text: records::filled(text::opt_view(*wanted)),
            }),
    {
        let level = match records::keep_filled(level) {
            Some(l) => {
                let mut s = "\"level\":\"".to_string();
                s.append(text::lowered(text::trimmed(l.as_str()).as_str()).as_str());
                s.append("\"");
                Some(s)
            },
            None => None,
        };
        LogFilter {
            task_id: records::keep_filled(task_id),
            device_host: records::keep_filled(device_host),
            from_epoch_ms,
            to_epoch_ms,
            level,
            text: records::keep_filled(wanted),
        }
    }

    /// The filter for the lines of agents, which name no task.
    pub fn for_agents(&self) -> (r: Self)
        ensures
            r@ == agents_filter(self@),
    {
        LogFilter {
            task_id: None,
            device_host: text::copy_opt(&self.device_host),
            from_epoch_ms: self.from_epoch_ms,
            to_epoch_ms: self.to_epoch_ms,
            level: text::copy_opt(&self.level),
            text: text::copy_opt(&self.text),
        }
    }
}

/// The filter for the lines of agents, which name no task.
pub open spec fn agents_filter(f: FilterView) -> FilterView {
    FilterView { task_id: None, ..f }
}

/// Whether what is asked for is what there is.
pub open spec fn agrees(wanted: Option<Seq<char>>, actual: Option<Seq<char>>) -> bool {
    wanted is Some ==> actual == wanted
}

/// Whether a line holds what is asked for.
pub open spec fn holds(wanted: Option<Seq<char>>, line: Seq<char>) -> bool {
    wanted is Some ==> text::contains(line, wanted->0)
}

/// Whether a line passes a filter, where the line's task, device and time are as given.
pub open spec fn passes(
    line: Seq<char>,
    task_id: Option<Seq<char>>,
    device_host: Option<Seq<char>>,
    ts_epoch_ms: Option<u64>,
    f: FilterView,
) -> bool {
    &&& agrees(f.task_id, task_id)
    &&& agrees(f.device_host, device_host)
    &&& f.from_epoch_ms is Some ==> ts_epoch_ms is Some && ts_epoch_ms->0 >= f.from_epoch_ms->0
    &&& f.to_epoch_ms is Some ==> ts_epoch_ms is Some && ts_epoch_ms->0 <= f.to_epoch_ms->0
    &&& holds(f.level, line)
    &&& holds(f.text, line)
}

fn agree(wanted: &Option<String>, actual: Option<&str>) -> (r: bool)
    ensures
        r == agrees(text::opt_view(*wanted), text::str_view(actual)),
{
    match wanted {
        Some(w) => text::opt_is(actual, w.as_str()),
        None => true,
    }
}

fn line_holds(wanted: &Option<String>, line: &str) -> (r: bool)
    ensures
        r == holds(text::opt_view(*wanted), line@),
{
    match wanted {
        Some(w) => text::has_text(line, w.as_str()),
        None => true,
    }
}

/// Whether a line passes a filter, where the line's task, device and time are as given.
pub fn line_passes(
    line: &str,
    task_id: Option<&str>,
    device_host: Option<&str>,
    ts_epoch_ms: Option<u64>,
    filter: &LogFilter,
) -> (r: bool)
    ensures
        r == passes(
            line@,
            text::str_view(task_id),
            text::str_view(device_host),
            ts_epoch_ms,
            filter@,
        ),
{
    if !agree(&filter.task_id, task_id) || !agree(&filter.device_host, device_host) {
        return false;
    }
    match filter.from_epoch_ms {
        Some(from) => match ts_epoch_ms {
            Some(ts) => {
                if ts < from {
                    return false;
                }
            },
            None => {
                return false;
            },
        },
        None => {},
    }
    match filter.to_epoch_ms {
        Some(to) => match ts_epoch_ms {
            Some(ts) => {
                if ts > to {
                    return false;
                }
            },
            None => {
                return false;
            },
        },
        None => {},
    }
    line_holds(&filter.level, line) && line_holds(&filter.text, line)
}

/// Whether a line passes a filter. What the line says of its task, device and time is read from
/// it as JSON.
pub open spec fn line_matches(line: Seq<char>, f: FilterView) -> bool {
    passes(
        line,
        json::json_text(line, "task_id"@),
        json::json_text(line, "device_host"@),
        json::json_number(line, "ts_epoch_ms"@),
        f,
    )
}

/// Whether a line passes a filter.
pub fn log_line_matches_filters(line: &str, filter: &LogFilter) -> (r: bool)
    ensures
        r == line_matches(line@, filter@),
{
    let task_id = json::text_field(line, "task_id");
    let device_host = json::text_field(line, "device_host");
    line_passes(
        line,
        text::borrow_opt(&task_id),
        text::borrow_opt(&device_host),
        json::number_field(line, "ts_epoch_ms"),
        filter,
    )
}

/// The lines that pass a filter, in their order.
pub open spec fn kept_lines(lines: Seq<Seq<char>>, f: FilterView) -> Seq<Seq<char>>
    decreases lines.len(),
{
    if lines.len() == 0 {
        Seq::empty()
    } else if line_matches(lines.last(), f) {
        kept_lines(lines.drop_last(), f).push(lines.last())
    } else {
        kept_lines(lines.drop_last(), f)
    }
}

/// The lines that pass a filter, in their order.
pub fn filter_lines(lines: &Vec<String>, filter: &LogFilter) -> (r: Vec<String>)
    ensures
        text::views(r@) == kept_lines(text::views(lines@), filter@),
{
    let ghost all = text::views(lines@);
    let mut out: Vec<String> = Vec::new();
    let mut i: usize = 0;
    assert(text::views(out@) =~= kept_lines(all.take(0), filter@));
    while i < lines.len()
        invariant
            i <= lines.len(),
            all == text::views(lines@),
            text::views(out@) == kept_lines(all.take(i as int), filter@),
        decreases lines.len() - i,
    {
        assert(all.take(i + 1).drop_last() =~= all.take(i as int));
        assert(all[i as int] == lines@[i as int]@);
        if log_line_matches_filters(lines[i].as_str(), filter) {
            let ghost before = text::views(out@);
            let line = lines[i].clone();
            out.push(line);
            assert(text::views(out@) == before.push(line@));
        }
        i += 1;
    }
    assert(all.take(all.len() as int) =~= all);
    out
}

/// The lines of tasks and of agents that pass a filter: those of tasks first.
pub fn list_task_logs_filtered(
    task_lines: &Vec<String>,
    agent_lines: &Vec<String>,
    filter: &LogFilter,
) -> (r: Vec<String>)
    ensures
        text::views(r@) == kept_lines(text::views(task_lines@), filter@) + kept_lines(
            text::views(agent_lines@),
            agents_filter(filter@),
        ),
{
    let mut out = filter_lines(task_lines, filter);
    let mut rest = filter_lines(agent_lines, &filter.for_agents());
    let ghost a = out@;
    let ghost b = rest@;
    out.append(&mut rest);
    assert(text::views(a + b) =~= text::views(a) + text::views(b));
    out
}

/// The lines of tasks stand in the list only where they pass the filter, and those that pass it
/// all stand in it.
pub proof fn lemma_kept_lines_pass(lines: Seq<Seq<char>>, f: FilterView)
    ensures
        forall|t: Seq<char>| #[trigger]
            kept_lines(lines, f).contains(t) <==> lines.contains(t) && line_matches(t, f),
    decreases lines.len(),
{
    if lines.len() > 0 {
        let head = lines.drop_last();
        let kept = kept_lines(head, f);
        lemma_kept_lines_pass(head, f);
        assert(lines =~= head.push(lines.last()));
        lemma_pushed(head, lines.last());
        lemma_pushed(kept, lines.last());
    }
}

proof fn lemma_pushed(s: Seq<Seq<char>>, x: Seq<char>)
    ensures
        forall|t: Seq<char>| #[trigger] s.push(x).contains(t) <==> s.contains(t) || t == x,
{
    assert forall|t: Seq<char>| #[trigger] s.push(x).contains(t) <==> s.contains(t) || t == x by {
        if s.contains(t) {
            let j = choose|j: int| 0 <= j < s.len() && s[j] == t;
            assert(s.push(x)[j] == t);
        }
        if t == x {
            assert(s.push(x)[s.len() as int] == t);
        }
        if s.push(x).contains(t) && t != x {
            let j = choose|j: int| 0 <= j < s.push(x).len() && s.push(x)[j] == t;
            assert(s[j] == t);
        }
    }
}

/// The name of the file that the lines of an agent are kept in.
pub fn agent_log_file_name(host: &str) -> (r: String)
    ensures
        r@ == "android-"@ + paths::id_text(host@) + ".jsonl"@,
{
    let mut s = checkpoint::about("android-", paths::sanitize_task_id(host).as_str());
    s.append(".jsonl");
    s
}

/// The name of the file that lines are exported to.
pub fn export_file_name(now: u128) -> (r: String)
    ensures
        r@ == "export-"@ + decimal::dec(now as nat) + ".jsonl"@,
{
    let mut s = checkpoint::about("export-", decimal::dec_text(now).as_str());
    s.append(".jsonl");
    s
}

/// Whether a file of a name holds lines of an agent.
pub open spec fn is_agent_log(name: Seq<char>) -> bool {
    text::starts_with(name, "android-"@) && text::ends_with(name, ".jsonl"@)
}

/// Whether a file of a name holds lines of an agent.
pub fn is_agent_log_name(name: &str) -> (r: bool)
    ensures
        r == is_agent_log(name@),
{
    text::has_prefix(name, "android-") && text::has_suffix(name, ".jsonl")
}

/// The file that the lines of an agent are kept in is read again.
pub proof fn lemma_agent_file_is_read(host: Seq<char>)
    ensures
        is_agent_log("android-"@ + paths::id_text(host) + ".jsonl"@),
{
    let name = "android-"@ + paths::id_text(host) + ".jsonl"@;
    assert(name.take("android-"@.len() as int) =~= "android-"@);
    assert(name.skip(name.len() - ".jsonl"@.len()) =~= ".jsonl"@);
}

/// How many records a reply lists; nothing where it lists none.
pub fn read_log_records(payload: &str) -> (r: Result<Option<usize>, String>)
    ensures
        match (r, json::json_problem(payload@)) {
            (Ok(n), None) => n == json::json_length(payload@, "records"@),
            (Err(m), Some(p)) => m@ == p,
            _ => false,
        },
{
    match json::problem(payload) {
        Some(m) => Err(m),
        None => Ok(json::list_length(payload, "records")),
    }
}

/// The number that is set in a record without a time.
pub open spec fn time_to_set(has_time: bool, at: u64) -> Seq<(Seq<char>, u64)> {
    if has_time {
        Seq::empty()
    } else {
        seq![("ts_epoch_ms"@, at)]
    }
}

/// The numbers that are set in a record: when it was fetched, and its time, where it has none.
pub open spec fn set_numbers(has_time: bool, at: u64) -> Seq<(Seq<char>, u64)> {
    seq![("fetched_at_epoch_ms"@, at)] + time_to_set(has_time, at)
}

/// The numbers that are set in a record, and among them those that it is known by.
pub fn numbers_to_set(has_time: bool, at: u64) -> (r: (Vec<(String, u64)>, Vec<(String, u64)>))
    ensures
        json::number_views(r.0@) == set_numbers(has_time, at),
        json::number_views(r.1@) == time_to_set(has_time, at),
{
    let mut all: Vec<(String, u64)> = Vec::new();
    let mut lasting: Vec<(String, u64)> = Vec::new();
    all.push(("fetched_at_epoch_ms".to_string(), at));
    if !has_time {
        all.push(("ts_epoch_ms".to_string(), at));
        lasting.push(("ts_epoch_ms".to_string(), at));
    }
    assert(json::number_views(all@) =~= set_numbers(has_time, at));
    assert(json::number_views(lasting@) =~= time_to_set(has_time, at));
    (all, lasting)
}

/// Whether a record of a reply has a time of its own.
pub open spec fn has_time(payload: Seq<char>, index: usize) -> bool {
    json::json_item_has(payload, "records"@, index, "ts_epoch_ms"@)
}

/// A record of a reply as it is kept: with its device, when it was fetched, and a time.
pub open spec fn augmented(payload: Seq<char>, index: usize, host: Seq<char>, at: u64) -> Option<
    Seq<char>,
> {
    json::json_item_with(
        payload,
        "records"@,
        index,
        "device_host"@,
        host,
        set_numbers(has_time(payload, index), at),
        None,
    )
}

/// What a record of a reply is known by: all that is kept of it but when it was fetched.
pub open spec fn keyed(payload: Seq<char>, index: usize, host: Seq<char>, at: u64) -> Option<
    Seq<char>,
> {
    json::json_item_with(
        payload,
        "records"@,
        index,
        "device_host"@,
        host,
        time_to_set(has_time(payload, index), at),
        Some("fetched_at_epoch_ms"@),
    )
}

/// The line and the key of a record of a reply.
pub open spec fn record_view(payload: Seq<char>, index: usize, host: Seq<char>, at: u64) -> Result<
    (Seq<char>, Seq<char>),
    Seq<char>,
> {
    match (augmented(payload, index, host, at), keyed(payload, index, host, at)) {
        (Some(line), Some(key)) => Ok((line, key)),
        _ => Err("agent log record was not a JSON object"@),
    }
}

/// A record of a reply as it is kept, and what it is known by.
pub fn augment_agent_log_record(payload: &str, index: usize, host: &str, fetched_at_epoch_ms: u64)
    -> (r: Result<(String, String), String>)
    ensures
        match (r, record_view(payload@, index, host@, fetched_at_epoch_ms)) {
            (Ok(x), Ok(y)) => x.0@ == y.0 && x.1@ == y.1,
            (Err(m), Err(n)) => m@ == n,
            _ => false,
        },
        r is Ok && json::is_plain(payload@) ==> json::json_text(r->Ok_0.0@, "device_host"@) == Some(
            host@,
        ),
{
    let timed = json::item_has(payload, "records", index, "ts_epoch_ms");
    let (all, lasting) = numbers_to_set(timed, fetched_at_epoch_ms);
    proof {
        reveal_strlit("device_host");
        reveal_strlit("fetched_at_epoch_ms");
        reveal_strlit("ts_epoch_ms");
        assert("device_host"@[0] != "ts_epoch_ms"@[0]);
        assert("device_host"@.len() != "fetched_at_epoch_ms"@.len());
        let v = json::number_views(all@);
        assert forall|i: int| 0 <= i < all@.len() implies json::is_plain((#[trigger] all@[i]).0@)
            && all@[i].0@ != "device_host"@ by {
            assert(v[i].0 == all@[i].0@);
            assert(v == set_numbers(timed, fetched_at_epoch_ms));
            assert(v.len() == all@.len());
            if i > 0 {
                assert(v[i] == time_to_set(timed, fetched_at_epoch_ms)[i - 1]);
            }
            assert(v[i].0 == "fetched_at_epoch_ms"@ || v[i].0 == "ts_epoch_ms"@);
        }
    }
    let line = json::item_with(payload, "records", index, "device_host", host, &all, None);
    let key = json::item_with(
        payload,
        "records",
        index,
        "device_host",
        host,
        &lasting,
        Some("fetched_at_epoch_ms"),
    );
    match (line, key) {
        (Some(line), Some(key)) => Ok((line, key)),
        _ => Err("agent log record was not a JSON object".to_string()),
    }
}

/// What a kept line is known by: all but when it was fetched, or the line where it is no JSON.
pub open spec fn dedupe_key(line: Seq<char>) -> Seq<char> {
    text::or_else(json::json_without(line, "fetched_at_epoch_ms"@), line)
}

/// What a kept line is known by.
pub fn agent_log_dedupe_key(line: &str) -> (r: String)
    ensures
        r@ == dedupe_key(line@),
{
    let key = json::without_field(line, "fetched_at_epoch_ms");
    text::or_other(text::borrow_opt(&key), line)
}

/// Lines of an agent that are about to be kept.
#[derive(Debug)]
pub struct LogAppend {
    /// The lines to write.
    pub lines: Vec<String>,
    /// The keys of all lines that are kept, those to write among them.
    pub keys: Vec<String>,
    /// What was wrong with the record that ended it.
    pub error: Option<String>,
}

#[verifier::ext_equal]
pub struct AppendView {
    pub lines: Seq<Seq<char>>,
    pub keys: Seq<Seq<char>>,
    pub error: Option<Seq<char>>,
}

impl View for LogAppend {
    type V = AppendView;

    open spec fn view(&self) -> AppendView {
        AppendView {
            lines: text::views(self.lines@),
            keys: text::views(self.keys@),
            error: text::opt_view(self.error),
        }
    }
}

/// Takes a line of a key: it is written where no line of its key is kept.
pub open spec fn took_line(s: AppendView, line: Seq<char>, key: Seq<char>) -> AppendView {
    if s.error is Some || s.keys.contains(key) {
        s
    } else {
        AppendView { lines: s.lines.push(line), keys: s.keys.push(key), ..s }
    }
}

/// Takes what is wrong with a record: nothing is taken afterwards.
pub open spec fn took_error(s: AppendView, error: Seq<char>) -> AppendView {
    if s.error is Some {
        s
    } else {
        AppendView { error: Some(error), ..s }
    }
}

/// The keys of lines.
pub open spec fn keys_of(lines: Seq<Seq<char>>) -> Seq<Seq<char>> {
    lines.map_values(|l: Seq<char>| dedupe_key(l))
}

/// The lines of the first records of a reply that are written beside those of the keys.
pub open spec fn appended(
    keys: Seq<Seq<char>>,
    payload: Seq<char>,
    n: nat,
    host: Seq<char>,
    at: u64,
) -> AppendView
    decreases n,
{
    if n == 0 {
        AppendView { lines: Seq::empty(), keys, error: None }
    } else {
        let s = appended(keys, payload, (n - 1) as nat, host, at);
        match record_view(payload, (n - 1) as usize, host, at) {
            Ok((line, key)) => took_line(s, line, key),
            Err(m) => took_error(s, m),
        }
    }
}

/// How many records a reply lists.
pub open spec fn record_count(payload: Seq<char>) -> nat {
    match json::json_length(payload, "records"@) {
        Some(n) => n as nat,
        None => 0,
    }
}

impl LogAppend {
    /// Nothing to write yet beside the lines of a file.
    pub fn beside(existing: &str) -> (r: Self)
        ensures
            r@ == (AppendView {
                lines: Seq::empty(),
                keys: keys_of(text::lines(existing@)),
                error: None,
            }),
    {
        let lines = text::split_lines(existing);
        let mut keys: Vec<String> = Vec::new();
        let mut i: usize = 0;
        while i < lines.len()
            invariant
                i <= lines.len(),
                text::views(lines@) == text::lines(existing@),
                keys@.len() == i,
                forall|k: int| 0 <= k < i ==> (#[trigger] keys@[k])@ == dedupe_key(lines@[k]@),
            decreases lines.len() - i,
        {
            keys.push(agent_log_dedupe_key(lines[i].as_str()));
            i += 1;
        }
        assert(text::views(keys@) =~= keys_of(text::views(lines@)));
        let r = LogAppend { lines: Vec::new(), keys, error: None };
        assert(text::views(r.lines@) =~= Seq::empty());
        r
    }

    /// Takes a line of a key.
    pub fn take_line(&mut self, line: String, key: String)
        ensures
            final(self)@ == took_line(old(self)@, line@, key@),
    {
        if self.error.is_some() || records::holds_text(&self.keys, key.as_str()) {
            return;
        }
        let ghost lines = text::views(self.lines@);
        let ghost keys = text::views(self.keys@);
        self.lines.push(line);
        self.keys.push(key);
        assert(text::views(self.lines@) == lines.push(line@));
        assert(text::views(self.keys@) == keys.push(key@));
    }

    /// Takes what is wrong with a record.
    pub fn take_error(&mut self, error: String)
        ensures
            final(self)@ == took_error(old(self)@, error@),
    {
        if self.error.is_none() {
            self.error = Some(error);
        }
    }
}

/// The lines of the records of a reply that are to be written to the end of the file of their
/// agent; what is wrong with the reply where it is no JSON.
pub fn persist_agent_log_batch(
    host: &str,
    payload: &str,
    existing: &str,
    fetched_at_epoch_ms: u64,
) -> (r: Result<LogAppend, String>)
    ensures
        match (r, json::json_problem(payload@)) {
            (Ok(s), None) => s@ == appended(
                keys_of(text::lines(existing@)),
                payload@,
                record_count(payload@),
                host@,
                fetched_at_epoch_ms,
            ),
            (Err(m), Some(p)) => m@ == p,
            _ => false,
        },
        r is Ok && json::is_plain(payload@) ==> forall|i: int|
            0 <= i < r->Ok_0@.lines.len() ==> json::json_text(
                #[trigger] r->Ok_0@.lines[i],
                "device_host"@,
            ) == Some(host@),
{
    let count: usize = match read_log_records(payload) {
        Err(m) => {
            return Err(m);
        },
        Ok(Some(n)) => n,
        Ok(None) => 0,
    };
    let ghost keys = keys_of(text::lines(existing@));
    let at: u64 = fetched_at_epoch_ms;
    let mut s = LogAppend::beside(existing);
    let mut i: usize = 0;
    while i < count
        invariant
            i <= count,
            s@ == appended(keys, payload@, i as nat, host@, at),
            json::is_plain(payload@) ==> forall|k: int|
                0 <= k < s@.lines.len() ==> json::json_text(#[trigger] s@.lines[k], "device_host"@)
                    == Some(host@),
        decreases count - i,
    {
        match augment_agent_log_record(payload, i, host, at) {
            Ok((line, key)) => {
                s.take_line(line, key);
            },
            Err(m) => {
                s.take_error(m);
            },
        }
        i += 1;
    }
    Ok(s)
}

/// What is known afterwards are the keys known before and one new key for each line to write: no
/// two lines have one key, and none has a key that was known.
pub proof fn lemma_lines_are_new(
    keys: Seq<Seq<char>>,
    payload: Seq<char>,
    n: nat,
    host: Seq<char>,
    at: u64,
)
    ensures
        ({
            let s = appended(keys, payload, n, host, at);
            let fresh = s.keys.skip(keys.len() as int);
            &&& s.keys == keys + fresh
            &&& fresh.len() == s.lines.len()
            &&& forall|i: int, j: int|
                0 <= i < j < fresh.len() ==> #[trigger] fresh[i] != #[trigger] fresh[j]
            &&& forall|i: int| 0 <= i < fresh.len() ==> !keys.contains(#[trigger] fresh[i])
        }),
    decreases n,
{
    let s = appended(keys, payload, n, host, at);
    let fresh = s.keys.skip(keys.len() as int);
    if n > 0 {
        lemma_lines_are_new(keys, payload, (n - 1) as nat, host, at);
        let before = appended(keys, payload, (n - 1) as nat, host, at);
        let known = before.keys.skip(keys.len() as int);
        if s.lines != before.lines {
            let key = s.keys.last();
            assert(s.keys =~= before.keys.push(key));
            assert(fresh =~= known.push(key));
            assert forall|i: int| 0 <= i < known.len() implies #[trigger] known[i] != key by {
                assert(before.keys[keys.len() + i] == known[i]);
            }
            if keys.contains(key) {
                let j = choose|j: int| 0 <= j < keys.len() && keys[j] == key;
                assert(before.keys[j] == key);
            }
        } else {
            assert(s.keys =~= before.keys);
        }
    }
    assert(s.keys =~= keys + fresh);
}

/// Whether every record of a reply has a time of its own.
pub open spec fn all_timed(payload: Seq<char>, n: nat) -> bool {
    forall|i: usize| i < n ==> #[trigger] has_time(payload, i)
}

/// Whether keys hold those of the first records of a reply.
spec fn knows(keys: Seq<Seq<char>>, payload: Seq<char>, n: nat, host: Seq<char>, at: u64) -> bool {
    forall|i: usize|
        i < n ==> (#[trigger] record_view(payload, i, host, at) matches Ok(x) && keys.contains(x.1))
}

proof fn lemma_keys_known(
    keys: Seq<Seq<char>>,
    payload: Seq<char>,
    n: nat,
    host: Seq<char>,
    at: u64,
)
    requires
        n <= usize::MAX,
        appended(keys, payload, n, host, at).error is None,
    ensures
        knows(appended(keys, payload, n, host, at).keys, payload, n, host, at),
    decreases n,
{
    if n > 0 {
        let before = appended(keys, payload, (n - 1) as nat, host, at);
        let after = appended(keys, payload, n, host, at);
        lemma_keys_known(keys, payload, (n - 1) as nat, host, at);
        let last = record_view(payload, (n - 1) as usize, host, at)->Ok_0;
        lemma_pushed(before.keys, last.1);
        assert forall|i: usize| i < n implies (#[trigger] record_view(payload, i, host, at) matches Ok(
            x,
        ) && after.keys.contains(x.1)) by {
            if i < n - 1 {
                assert(before.keys.contains(record_view(payload, i, host, at)->Ok_0.1));
            }
        }
    }
}

proof fn lemma_nothing_added(
    keys: Seq<Seq<char>>,
    payload: Seq<char>,
    n: nat,
    host: Seq<char>,
    at: u64,
)
    requires
        n <= usize::MAX,
        forall|i: usize|
            i < n ==> (#[trigger] keyed(payload, i, host, at) matches Some(k) ==> keys.contains(k)),
    ensures
        appended(keys, payload, n, host, at).lines.len() == 0,
        appended(keys, payload, n, host, at).keys == keys,
    decreases n,
{
    if n > 0 {
        lemma_nothing_added(keys, payload, (n - 1) as nat, host, at);
        let k = keyed(payload, (n - 1) as usize, host, at);
    }
}

/// Records with times of their own that are fetched again, at any time, add no line beside the
/// keys that are known after the first time.
pub proof fn lemma_known_records_add_nothing(
    keys: Seq<Seq<char>>,
    payload: Seq<char>,
    n: nat,
    host: Seq<char>,
    first: u64,
    again: u64,
)
    requires
        n <= usize::MAX,
        all_timed(payload, n),
        appended(keys, payload, n, host, first).error is None,
    ensures
        appended(
            appended(keys, payload, n, host, first).keys,
            payload,
            n,
            host,
            again,
        ).lines.len() == 0,
{
    let s = appended(keys, payload, n, host, first);
    lemma_keys_known(keys, payload, n, host, first);
    assert forall|i: usize| i < n implies (#[trigger] keyed(payload, i, host, again) matches Some(k)
        ==> s.keys.contains(k)) by {
        assert(has_time(payload, i));
        assert(record_view(payload, i, host, first) is Ok);
        assert(keyed(payload, i, host, again) == keyed(payload, i, host, first));
    }
    lemma_nothing_added(s.keys, payload, n, host, again);
}

/// Whether the line of a record is known by the record's key once it is read back.
pub open spec fn reads_back(payload: Seq<char>, index: usize, host: Seq<char>, at: u64) -> bool {
    record_view(payload, index, host, at) matches Ok(x) ==> dedupe_key(x.0) == x.1
}

proof fn lemma_written_keys(
    keys: Seq<Seq<char>>,
    payload: Seq<char>,
    n: nat,
    host: Seq<char>,
    at: u64,
)
    requires
        n <= usize::MAX,
        forall|i: usize| i < n ==> #[trigger] reads_back(payload, i, host, at),
    ensures
        ({
            let s = appended(keys, payload, n, host, at);
            s.keys == keys + keys_of(s.lines)
        }),
    decreases n,
{
    let s = appended(keys, payload, n, host, at);
    if n > 0 {
        lemma_written_keys(keys, payload, (n - 1) as nat, host, at);
        let before = appended(keys, payload, (n - 1) as nat, host, at);
        assert(reads_back(payload, (n - 1) as usize, host, at));
        if s.lines != before.lines {
            assert(keys_of(s.lines) =~= keys_of(before.lines).push(dedupe_key(s.lines.last())));
        }
    }
    assert(s.keys =~= keys + keys_of(s.lines));
}

/// Records with times of their own that are fetched again, at any time, add no line to the file
/// that the first time left, where the lines written are read back under the keys of their
/// records. A line with a fraction whose last digits change when it is read is none of these.
pub proof fn lemma_fetching_again_adds_nothing(
    kept: Seq<Seq<char>>,
    payload: Seq<char>,
    n: nat,
    host: Seq<char>,
    first: u64,
    again: u64,
)
    requires
        n <= usize::MAX,
        all_timed(payload, n),
        forall|i: usize| i < n ==> #[trigger] reads_back(payload, i, host, first),
        appended(keys_of(kept), payload, n, host, first).error is None,
    ensures
        ({
            let lines = appended(keys_of(kept), payload, n, host, first).lines;
            appended(keys_of(kept + lines), payload, n, host, again).lines.len() == 0
        }),
{
    let s = appended(keys_of(kept), payload, n, host, first);
    lemma_written_keys(keys_of(kept), payload, n, host, first);
    assert(keys_of(kept + s.lines) =~= keys_of(kept) + keys_of(s.lines));
    lemma_known_records_add_nothing(keys_of(kept), payload, n, host, first, again);
}

/// A filter asks for each of its parts by itself: a line passes if and only if it passes every
/// part, a part that is not given asks for nothing, and both ends of a time span belong to it.
pub proof fn lemma_filter_asks_for_each_part(
    line: Seq<char>,
    task_id: Option<Seq<char>>,
    device_host: Option<Seq<char>>,
    ts_epoch_ms: Option<u64>,
    f: FilterView,
)
    ensures
        passes(line, task_id, device_host, ts_epoch_ms, f) ==> {
            &&& f.task_id is None || task_id == f.task_id
            &&& f.device_host is None || device_host == f.device_host
            &&& f.from_epoch_ms is None || (ts_epoch_ms matches Some(t) && f.from_epoch_ms->0 <= t)
            &&& f.to_epoch_ms is None || (ts_epoch_ms matches Some(t) && t <= f.to_epoch_ms->0)
            &&& f.level is None || text::contains(line, f.level->0)
            &&& f.text is None || text::contains(line, f.text->0)
        },
        !passes(line, task_id, device_host, ts_epoch_ms, f) ==> {
            ||| f.task_id is Some && task_id != f.task_id
            ||| f.device_host is Some && device_host != f.device_host
            ||| f.from_epoch_ms is Some && (ts_epoch_ms is None || ts_epoch_ms->0
                < f.from_epoch_ms->0)
            ||| f.to_epoch_ms is Some && (ts_epoch_ms is None || f.to_epoch_ms->0 < ts_epoch_ms->0)
            ||| f.level is Some && !text::contains(line, f.level->0)
            ||| f.text is Some && !text::contains(line, f.text->0)
        },
        passes(line, task_id, device_host, ts_epoch_ms, agents_filter(f)) == passes(
            line,
            f.task_id,
            device_host,
            ts_epoch_ms,
            f,
        ),
{
}

/// The lines of two lists that pass a filter are those of the one and then those of the other,
/// and of a single line it is the line itself that passes or nothing.
pub proof fn lemma_lines_pass_one_by_one(
    a: Seq<Seq<char>>,
    b: Seq<Seq<char>>,
    line: Seq<char>,
    f: FilterView,
)
    ensures
        kept_lines(a + b, f) == kept_lines(a, f) + kept_lines(b, f),
        line_matches(line, f) ==> kept_lines(seq![line], f) == seq![line],
        !line_matches(line, f) ==> kept_lines(seq![line], f).len() == 0,
    decreases b.len(),
{
    assert(seq![line].drop_last() =~= Seq::<Seq<char>>::empty());
    assert(kept_lines(Seq::<Seq<char>>::empty(), f) =~= Seq::<Seq<char>>::empty());
    assert(seq![line].last() == line);
    if line_matches(line, f) {
        assert(kept_lines(seq![line], f) =~= seq![line]);
    }
    if b.len() == 0 {
        assert(a + b =~= a);
        assert(kept_lines(b, f) =~= Seq::<Seq<char>>::empty());
        assert(kept_lines(a, f) + kept_lines(b, f) =~= kept_lines(a, f));
    } else {
        let d = b.drop_last();
        lemma_lines_pass_one_by_one(a, d, line, f);
        assert((a + b).drop_last() =~= a + d);
        assert((a + b).last() == b.last());
        assert(kept_lines(a + b, f) =~= kept_lines(a, f) + kept_lines(b, f));
    }
}

/// As long as every record can be read, no record is lost: afterwards each is known by its key,
/// and the record that brings a new key adds its own line behind the others. The first record
/// that cannot be read ends the list with an error, and nothing is taken behind it.
pub proof fn lemma_every_new_record_is_written(
    keys: Seq<Seq<char>>,
    payload: Seq<char>,
    n: nat,
    host: Seq<char>,
    at: u64,
)
    requires
        n < usize::MAX,
    ensures
        ({
            let s = appended(keys, payload, n, host, at);
            let t = appended(keys, payload, n + 1, host, at);
            &&& s.error is None <==> forall|k: int|
                0 <= k < n ==> (#[trigger] record_view(payload, k as usize, host, at)) is Ok
            &&& s.error is None ==> forall|k: int|
                0 <= k < n ==> s.keys.contains(
                    (#[trigger] record_view(payload, k as usize, host, at))->Ok_0.1,
                )
            &&& s.error is Some ==> t == s
            &&& s.error is None ==> match record_view(payload, n as usize, host, at) {
                Ok((line, key)) => t.error is None && t.lines == if s.keys.contains(key) {
                    s.lines
                } else {
                    s.lines + seq![line]
                },
                Err(m) => t.error == Some(m) && t.lines == s.lines,
            }
        }),
    decreases n,
{
    let s = appended(keys, payload, n, host, at);
    let t = appended(keys, payload, n + 1, host, at);
    let next = record_view(payload, n as usize, host, at);
    assert(((n + 1) - 1) as nat == n);
    assert(t == match next {
        Ok((line, key)) => took_line(s, line, key),
        Err(m) => took_error(s, m),
    });
    if next is Ok {
        assert(s.lines.push(next->Ok_0.0) =~= s.lines + seq![next->Ok_0.0]);
    }
    if n > 0 {
        let p = (n - 1) as nat;
        lemma_every_new_record_is_written(keys, payload, p, host, at);
        let before = appended(keys, payload, p, host, at);
        let last = record_view(payload, p as usize, host, at);
        if last is Ok {
            lemma_pushed(before.keys, last->Ok_0.1);
        }
        if s.error is None {
            assert(before.error is None);
            assert forall|k: int| 0 <= k < n implies s.keys.contains(
                (#[trigger] record_view(payload, k as usize, host, at))->Ok_0.1,
            ) && record_view(payload, k as usize, host, at) is Ok by {
                if k < p {
                    let key = record_view(payload, k as usize, host, at)->Ok_0.1;
                    assert(before.keys.contains(key));
                    let i = choose|i: int| 0 <= i < before.keys.len() && before.keys[i] == key;
                    assert(s.keys[i] == key);
                } else if before.keys.contains(last->Ok_0.1) {
                    assert(s.keys == before.keys);
                } else {
                    assert(s.keys[before.keys.len() as int] == last->Ok_0.1);
                }
            }
        } else {
            if before.error is None {
                assert(record_view(payload, p as usize, host, at) is Err);
                assert(0 <= p as int && (p as int) < n);
                assert(!(record_view(payload, (p as int) as usize, host, at) is Ok));
            } else {
                let k = choose|k: int|
                    0 <= k < p && !((#[trigger] record_view(payload, k as usize, host, at)) is Ok);
                assert(!(record_view(payload, k as usize, host, at) is Ok));
            }
        }
    }
}

/// A record keeps the time that it has, and one without a time gets that of the fetch. Every
/// record is told when it was fetched.
pub proof fn lemma_only_missing_times_are_set(at: u64)
    ensures
        set_numbers(true, at) == seq![("fetched_at_epoch_ms"@, at)],
        set_numbers(false, at) == seq![("fetched_at_epoch_ms"@, at), ("ts_epoch_ms"@, at)],
        time_to_set(true, at).len() == 0,
        time_to_set(false, at) == seq![("ts_epoch_ms"@, at)],
{
    assert(set_numbers(true, at) =~= seq![("fetched_at_epoch_ms"@, at)]);
    assert(set_numbers(false, at) =~= seq![("fetched_at_epoch_ms"@, at), ("ts_epoch_ms"@, at)]);
}

} // verus!
