//! The smoke run of the workers: which of them run, on what, and what is told of it.

use crate::adb_command;
use crate::adb_device;
use crate::adb_device::ProbedAdbDevice;
use crate::checkpoint;
use crate::dashboard;
use crate::decimal;
use crate::engine_task;
use crate::engine_task::EngineTaskSnapshot;
use crate::labels;
use crate::models;
use crate::models::{Direction, TaskConfig, TaskConfigView, TaskState, TransportMode};
use crate::text;
use crate::wifi_chunk;
use vstd::prelude::*;

verus! {

/// A worker that the smoke run tries.
#[derive(Debug, Clone, Copy, PartialEq, Eq, Structural)]
pub enum DesktopWorkerSmokeMode {
    Adb,
    Wifi,
    Dual,
}

/// What a worker is called.
pub open spec fn mode_label(m: DesktopWorkerSmokeMode) -> Seq<char> {
    match m {
        DesktopWorkerSmokeMode::Adb => "adb"@,
        DesktopWorkerSmokeMode::Wifi => "wifi"@,
        DesktopWorkerSmokeMode::Dual => "dual"@,
    }
}

/// The transport of a worker.
pub open spec fn mode_transport(m: DesktopWorkerSmokeMode) -> TransportMode {
    match m {
        DesktopWorkerSmokeMode::Adb => TransportMode::AdbOnly,
        DesktopWorkerSmokeMode::Wifi => TransportMode::WifiOnly,
        DesktopWorkerSmokeMode::Dual => TransportMode::Dual,
    }
}

/// The chunk length of a worker.
pub open spec fn mode_chunk_size(m: DesktopWorkerSmokeMode) -> u64 {
    match m {
        DesktopWorkerSmokeMode::Wifi => 262144,
        _ => 8388608,
    }
}

impl DesktopWorkerSmokeMode {
    /// What a worker is called.
    pub fn label(self) -> (r: &'static str)
        ensures
            r@ == mode_label(self),
    {
        match self {
            DesktopWorkerSmokeMode::Adb => "adb",
            DesktopWorkerSmokeMode::Wifi => "wifi",
            DesktopWorkerSmokeMode::Dual => "dual",
        }
    }

    /// The transport of a worker.
    pub fn transport_mode(self) -> (r: TransportMode)
        ensures
            r == mode_transport(self),
    {
        match self {
            DesktopWorkerSmokeMode::Adb => TransportMode::AdbOnly,
            DesktopWorkerSmokeMode::Wifi => TransportMode::WifiOnly,
            DesktopWorkerSmokeMode::Dual => TransportMode::Dual,
        }
    }

    /// The chunk length of a worker.
    pub fn chunk_size(self) -> (r: u64)
        ensures
            r == mode_chunk_size(self),
    {
        match self {
            DesktopWorkerSmokeMode::Wifi => 256 * 1024,
            _ => 8 * 1024 * 1024,
        }
    }

    /// Whether a worker needs the agent.
    pub fn needs_agent(self) -> (r: bool)
        ensures
            r == (self != DesktopWorkerSmokeMode::Adb),
    {
        self != DesktopWorkerSmokeMode::Adb
    }
}

/// The worker that a word asks for; none where the word is blank.
pub open spec fn mode_of(word: Seq<char>) -> Result<Option<DesktopWorkerSmokeMode>, Seq<char>> {
    let name = text::lower_all(text::trim(word));
    if name == "adb"@ || name == "adb-only"@ {
        Ok(Some(DesktopWorkerSmokeMode::Adb))
    } else if name == "wifi"@ || name == "wi-fi"@ || name == "wifi-only"@ || name == "wi-fi-only"@ {
        Ok(Some(DesktopWorkerSmokeMode::Wifi))
    } else if name == "dual"@ || name == "dual-track"@ {
        Ok(Some(DesktopWorkerSmokeMode::Dual))
    } else if name == ""@ {
        Ok(None)
    } else {
        Err("unknown desktop worker smoke mode: "@ + name)
    }
}

fn read_mode(word: &str) -> (r: Result<Option<DesktopWorkerSmokeMode>, String>)
    ensures
        match (r, mode_of(word@)) {
            (Ok(a), Ok(b)) => a == b,
            (Err(a), Err(b)) => a@ == b,
            _ => false,
        },
{
    let name = text::lowered(text::trimmed(word).as_str());
    let n = name.as_str();
    if text::str_eq(n, "adb") || text::str_eq(n, "adb-only") {
        Ok(Some(DesktopWorkerSmokeMode::Adb))
    } else if text::str_eq(n, "wifi") || text::str_eq(n, "wi-fi") || text::str_eq(n, "wifi-only")
        || text::str_eq(n, "wi-fi-only") {
        Ok(Some(DesktopWorkerSmokeMode::Wifi))
    } else if text::str_eq(n, "dual") || text::str_eq(n, "dual-track") {
        Ok(Some(DesktopWorkerSmokeMode::Dual))
    } else if text::str_eq(n, "") {
        Ok(None)
    } else {
        Err(checkpoint::about("unknown desktop worker smoke mode: ", n))
    }
}

/// The words between the commas of labels.
pub open spec fn words_of(labels: Seq<Seq<char>>) -> Seq<Seq<char>>
    decreases labels.len(),
{
    if labels.len() == 0 {
        Seq::empty()
    } else {
        words_of(labels.drop_last()) + text::split_on(labels.last(), ',')
    }
}

/// The workers that words ask for, each once, in the order they are first asked for; or the
/// complaint about the first word that is unknown.
pub open spec fn modes_of(words: Seq<Seq<char>>) -> Result<
    Seq<DesktopWorkerSmokeMode>,
    Seq<char>,
>
    decreases words.len(),
{
    if words.len() == 0 {
        Ok(Seq::empty())
    } else {
        match modes_of(words.drop_last()) {
            Err(m) => Err(m),
            Ok(modes) => match mode_of(words.last()) {
                Err(m) => Err(m),
                Ok(None) => Ok(modes),
                Ok(Some(mode)) => if modes.contains(mode) {
                    Ok(modes)
                } else {
                    Ok(modes.push(mode))
                },
            },
        }
    }
}

/// The workers that labels ask for: all where there are no labels.
pub open spec fn asked_modes(labels: Seq<Seq<char>>) -> Result<
    Seq<DesktopWorkerSmokeMode>,
    Seq<char>,
> {
    if labels.len() == 0 {
        Ok(
            seq![
                DesktopWorkerSmokeMode::Adb,
                DesktopWorkerSmokeMode::Wifi,
                DesktopWorkerSmokeMode::Dual,
            ],
        )
    } else {
        match modes_of(words_of(labels)) {
            Err(m) => Err(m),
            Ok(modes) => if modes.len() == 0 {
                Err("desktop worker smoke mode list is empty"@)
            } else {
                Ok(modes)
            },
        }
    }
}

fn has_mode(modes: &Vec<DesktopWorkerSmokeMode>, mode: DesktopWorkerSmokeMode) -> (r: bool)
    ensures
        r == modes@.contains(mode),
{
    let mut i: usize = 0;
    while i < modes.len()
        invariant
            i <= modes.len(),
            forall|k: int| 0 <= k < i ==> #[trigger] modes@[k] != mode,
        decreases modes.len() - i,
    {
        if modes[i] == mode {
            return true;
        }
        i += 1;
    }
    false
}

fn collect_words(labels: &Vec<String>) -> (r: Vec<String>)
    ensures
        text::views(r@) == words_of(text::views(labels@)),
{
    let ghost all = text::views(labels@);
    let mut out: Vec<String> = Vec::new();
    let mut i: usize = 0;
    assert(text::views(out@) =~= words_of(all.take(0)));
    while i < labels.len()
        invariant
            i <= labels.len(),
            all == text::views(labels@),
            text::views(out@) == words_of(all.take(i as int)),
        decreases labels.len() - i,
    {
        assert(all.take(i + 1).drop_last() =~= all.take(i as int));
        assert(all[i as int] == labels@[i as int]@);
        let ghost a = out@;
        let mut words = text::split(labels[i].as_str(), ',');
        let ghost b = words@;
        out.append(&mut words);
        assert(text::views(a + b) =~= text::views(a) + text::views(b));
        i += 1;
    }
    assert(all.take(all.len() as int) =~= all);
    out
}

proof fn lemma_first_complaint_stays(words: Seq<Seq<char>>, n: int)
    requires
        0 <= n <= words.len(),
        modes_of(words.take(n)) is Err,
    ensures
        modes_of(words) == modes_of(words.take(n)),
    decreases words.len() - n,
{
    if n < words.len() {
        assert(words.take(n + 1).drop_last() =~= words.take(n));
        lemma_first_complaint_stays(words, n + 1);
    } else {
        assert(words.take(n) =~= words);
    }
}

/// The workers that labels ask for.
pub fn parse_desktop_worker_smoke_modes(mode_labels: &Vec<String>) -> (r: Result<
    Vec<DesktopWorkerSmokeMode>,
    String,
>)
    ensures
        match (r, asked_modes(text::views(mode_labels@))) {
            (Ok(a), Ok(b)) => a@ == b,
            (Err(a), Err(b)) => a@ == b,
            _ => false,
        },
{
    let mut modes: Vec<DesktopWorkerSmokeMode> = Vec::new();
    assert(text::views(mode_labels@).len() == mode_labels@.len());
    if mode_labels.len() == 0 {
        modes.push(DesktopWorkerSmokeMode::Adb);
        modes.push(DesktopWorkerSmokeMode::Wifi);
        modes.push(DesktopWorkerSmokeMode::Dual);
        return Ok(modes);
    }
    let words = collect_words(mode_labels);
    let ghost all = text::views(words@);
    let mut i: usize = 0;
    assert(all.take(0).len() == 0);
    while i < words.len()
        invariant
            i <= words.len(),
            all == text::views(words@),
            all == words_of(text::views(mode_labels@)),
            text::views(mode_labels@).len() > 0,
            modes_of(all.take(i as int)) == Ok::<_, Seq<char>>(modes@),
        decreases words.len() - i,
    {
        assert(all.take(i + 1).drop_last() =~= all.take(i as int));
        assert(all[i as int] == words@[i as int]@);
        match read_mode(words[i].as_str()) {
            Ok(Some(mode)) => {
                if !has_mode(&modes, mode) {
                    modes.push(mode);
                }
            },
            Ok(None) => {},
            Err(m) => {
                proof {
                    lemma_first_complaint_stays(all, i + 1);
                }
                return Err(m);
            },
        }
        i += 1;
    }
    assert(all.take(all.len() as int) =~= all);
    if modes.len() == 0 {
        Err("desktop worker smoke mode list is empty".to_string())
    } else {
        Ok(modes)
    }
}

/// The workers that are run: at least one, and none twice.
pub proof fn lemma_asked_modes(labels: Seq<Seq<char>>)
    requires
        asked_modes(labels) is Ok,
    ensures
        asked_modes(labels)->Ok_0.len() > 0,
        asked_modes(labels)->Ok_0.no_duplicates(),
{
    if labels.len() > 0 {
        lemma_modes_once(words_of(labels));
    }
}

proof fn lemma_modes_once(words: Seq<Seq<char>>)
    requires
        modes_of(words) is Ok,
    ensures
        modes_of(words)->Ok_0.no_duplicates(),
    decreases words.len(),
{
    if words.len() > 0 {
        lemma_modes_once(words.drop_last());
    }
}

/// The serial of the device that the smoke run uses.
pub fn smoke_serial(serial: &str) -> (r: Result<String, String>)
    ensures
        adb_command::outcome_view(r) == (if text::trim(serial@).len() == 0 {
            Err("desktop worker smoke requires an ADB serial"@)
        } else {
            Ok(text::trim(serial@))
        }),
{
    let trimmed = text::trimmed(serial);
    if trimmed.as_str().is_empty() {
        Err("desktop worker smoke requires an ADB serial".to_string())
    } else {
        Ok(trimmed)
    }
}

/// Whether one of the workers needs the agent.
pub fn smoke_needs_agent(modes: &Vec<DesktopWorkerSmokeMode>) -> (r: bool)
    ensures
        r == agent_needed(modes@),
{
    let mut i: usize = 0;
    while i < modes.len()
        invariant
            i <= modes.len(),
            forall|k: int| 0 <= k < i ==> #[trigger] modes@[k] == DesktopWorkerSmokeMode::Adb,
        decreases modes.len() - i,
    {
        if modes[i].needs_agent() {
            return true;
        }
        i += 1;
    }
    false
}

/// The host that was given, where it is usable: without a port.
pub open spec fn given_host(agent_host: Option<Seq<char>>) -> Option<Result<Seq<char>, Seq<char>>> {
    match agent_host {
        Some(h) => if text::trim(h).len() == 0 {
            None
        } else if text::trim(h).contains(':') {
            Some(
                Err(
                    "agent host should be a host/IP without port; the desktop agent client uses 38997"@,
                ),
            )
        } else {
            Some(Ok(text::trim(h)))
        },
        None => None,
    }
}

/// The view of a host that was given.
pub open spec fn given_view(r: Option<Result<String, String>>) -> Option<
    Result<Seq<char>, Seq<char>>,
> {
    match r {
        Some(g) => Some(adb_command::outcome_view(g)),
        None => None,
    }
}

/// The host that was given, where it is usable; nothing where none was given.
pub fn read_given_host(agent_host: Option<&str>) -> (r: Option<Result<String, String>>)
    ensures
        given_view(r) == given_host(text::str_view(agent_host)),
{
    match agent_host {
        Some(h) => {
            let trimmed = text::trimmed(h);
            if trimmed.as_str().is_empty() {
                None
            } else if text::has_char(trimmed.as_str(), ':') {
                Some(
                    Err(
                        "agent host should be a host/IP without port; the desktop agent client uses 38997".to_string(),
                    ),
                )
            } else {
                Some(Ok(trimmed))
            }
        },
        None => None,
    }
}

/// Where the first device of a serial stands.
pub open spec fn device_at(devices: Seq<adb_device::ProbedView>, serial: Seq<char>) -> Option<int>
    decreases devices.len(),
{
    if devices.len() == 0 {
        None
    } else {
        match device_at(devices.drop_last(), serial) {
            Some(i) => Some(i),
            None => if devices.last().discovered.serial == serial {
                Some(devices.len() - 1)
            } else {
                None
            },
        }
    }
}

/// The address of the agent on the device of a serial.
pub open spec fn probed_host(devices: Seq<adb_device::ProbedView>, serial: Seq<char>) -> Result<
    Seq<char>,
    Seq<char>,
> {
    match device_at(devices, serial) {
        None => Err("ADB device "@ + serial + " was not found"@),
        Some(i) => match devices[i].wifi_agent_ip {
            None => Err("ADB device "@ + serial + " did not report a Wi-Fi agent IP"@),
            Some(ip) => Ok(ip),
        },
    }
}

proof fn lemma_first_device_stays(devices: Seq<adb_device::ProbedView>, serial: Seq<char>, n: int)
    requires
        0 <= n <= devices.len(),
        device_at(devices.take(n), serial) is Some,
    ensures
        device_at(devices, serial) == device_at(devices.take(n), serial),
    decreases devices.len() - n,
{
    if n < devices.len() {
        assert(devices.take(n + 1).drop_last() =~= devices.take(n));
        lemma_first_device_stays(devices, serial, n + 1);
    } else {
        assert(devices.take(n) =~= devices);
    }
}

/// The address of the agent on the device of a serial.
pub fn resolve_desktop_worker_smoke_host(devices: &Vec<ProbedAdbDevice>, serial: &str) -> (r:
    Result<String, String>)
    ensures
        adb_command::outcome_view(r) == probed_host(dashboard::probed_views(devices@), serial@),
{
    let ghost all = dashboard::probed_views(devices@);
    let mut i: usize = 0;
    assert(all.take(0).len() == 0);
    while i < devices.len()
        invariant
            i <= devices.len(),
            all == dashboard::probed_views(devices@),
            device_at(all.take(i as int), serial@) is None,
        decreases devices.len() - i,
    {
        assert(all.take(i + 1).drop_last() =~= all.take(i as int));
        assert(all[i as int] == devices@[i as int]@);
        if text::str_eq(devices[i].discovered.serial.as_str(), serial) {
            proof {
                lemma_first_device_stays(all, serial@, i + 1);
            }
            return match &devices[i].wifi_agent_ip {
                Some(ip) => Ok(ip.clone()),
                None => {
                    let mut m = checkpoint::about("ADB device ", serial);
                    m.append(" did not report a Wi-Fi agent IP");
                    Err(m)
                },
            };
        }
        i += 1;
    }
    assert(all.take(all.len() as int) =~= all);
    let mut m = checkpoint::about("ADB device ", serial);
    m.append(" was not found");
    Err(m)
}

/// What is told where the agent that a device reported does not answer.
pub fn smoke_probe_failure(ip: &str, error: &str) -> (r: String)
    ensures
        r@ == "direct LAN agent probe failed at "@ + ip@ + ": "@ + error@
            + "; pass --host <agent-ip> after confirming the phone is reachable on port 38997"@,
{
    let mut m = checkpoint::about("direct LAN agent probe failed at ", ip);
    m.append(": ");
    m.append(error);
    m.append("; pass --host <agent-ip> after confirming the phone is reachable on port 38997");
    m
}

/// What the smoke run is called, by when it began.
pub fn smoke_id(now: u128) -> (r: String)
    ensures
        r@ == "desktop-worker-smoke-"@ + decimal::dec(now as nat),
{
    checkpoint::about("desktop-worker-smoke-", decimal::dec_text(now).as_str())
}

/// Where on the device the smoke run puts its files.
pub fn smoke_remote_base(smoke_id: &str) -> (r: String)
    ensures
        r@ == remote_base_of(smoke_id@),
{
    checkpoint::about("/sdcard/Download/NekotransDesktopSmoke/", smoke_id)
}

/// What a worker's part of the smoke run uses.
#[derive(Debug)]
pub struct SmokePart {
    /// The directory of its source files.
    pub source_name: String,
    pub task_id: String,
    pub remote_root: String,
    /// How its lanes are shown.
    pub lane_label: String,
}

/// How the lanes of a worker are shown.
pub open spec fn smoke_lanes(
    mode: DesktopWorkerSmokeMode,
    serial: Seq<char>,
    host: Option<Seq<char>>,
) -> Seq<char> {
    match mode {
        DesktopWorkerSmokeMode::Adb => serial,
        DesktopWorkerSmokeMode::Wifi => "wifi:"@ + text::or_else(host, ""@),
        DesktopWorkerSmokeMode::Dual => "dual:"@ + serial + "+wifi:"@ + text::or_else(host, ""@),
    }
}

/// What a worker's part of the smoke run uses.
pub fn smoke_part(
    mode: DesktopWorkerSmokeMode,
    smoke_id: &str,
    remote_base: &str,
    serial: &str,
    host: Option<&str>,
) -> (r: SmokePart)
    ensures
        r.source_name@ == "source-"@ + mode_label(mode),
        r.task_id@ == smoke_id@ + "-"@ + mode_label(mode),
        r.remote_root@ == remote_base@ + "/"@ + mode_label(mode),
        r.lane_label@ == smoke_lanes(mode, serial@, text::str_view(host)),
{
    let label = mode.label();
    let mut task_id = checkpoint::about(smoke_id, "-");
    task_id.append(label);
    let mut remote_root = checkpoint::about(remote_base, "/");
    remote_root.append(label);
    let reached = text::or_other(host, "");
    let lane_label = match mode {
        DesktopWorkerSmokeMode::Adb => serial.to_string(),
        DesktopWorkerSmokeMode::Wifi => checkpoint::about("wifi:", reached.as_str()),
        DesktopWorkerSmokeMode::Dual => {
            let mut s = checkpoint::about("dual:", serial);
            s.append("+wifi:");
            s.append(reached.as_str());
            s
        },
    };
    SmokePart { source_name: checkpoint::about("source-", label), task_id, remote_root, lane_label }
}

/// The settings of a worker's task.
pub fn create_desktop_worker_smoke_task(
    now: u128,
    task_id: &str,
    mode: DesktopWorkerSmokeMode,
    source_root: &str,
    remote_root: &str,
) -> (r: TaskConfig)
    ensures
        r@ == (TaskConfigView {
            chunk_size_bytes: mode_chunk_size(mode),
            ..models::fresh_config(
                task_id@,
                Direction::PcToAndroid,
                mode_transport(mode),
                true,
                source_root@,
                remote_root@,
                now,
            )
        }),
{
    let mut config = TaskConfig::new_at(
        now,
        task_id,
        Direction::PcToAndroid,
        mode.transport_mode(),
        true,
        source_root,
        remote_root,
    );
    config.chunk_size_bytes = mode.chunk_size();
    config
}

/// A byte of the large file of the smoke run.
pub open spec fn smoke_byte(at: int, seed: u8) -> int {
    (seed + at % 251) % 256
}

/// The bytes of the large file of the smoke run from a place on.
pub fn deterministic_smoke_bytes(written: usize, count: usize, seed: u8) -> (r: Vec<u8>)
    requires
        written + count <= usize::MAX,
    ensures
        r@.len() == count,
        forall|i: int| 0 <= i < count ==> #[trigger] r@[i] == smoke_byte(written + i, seed),
{
    let mut out: Vec<u8> = Vec::new();
    let mut i: usize = 0;
    while i < count
        invariant
            i <= count,
            written + count <= usize::MAX,
            out@.len() == i,
            forall|k: int| 0 <= k < i ==> #[trigger] out@[k] == smoke_byte(written + k, seed),
        decreases count - i,
    {
        let low: usize = (written + i) % 251;
        let byte: u8 = seed.wrapping_add(low as u8);
        out.push(byte);
        i += 1;
    }
    out
}

/// What both lanes of the smoke run came to together, before the shared files.
pub open spec fn dual_lanes_problem(
    adb: Result<Seq<char>, Seq<char>>,
    wifi: Result<Seq<char>, Seq<char>>,
) -> Option<Seq<char>> {
    match (adb, wifi) {
        (Ok(_), Ok(_)) => None,
        (Err(m), _) => Some(m),
        (_, Err(m)) => Some(m),
    }
}

/// What went wrong on the lanes of the smoke run, before the shared files.
pub fn smoke_dual_problem(adb: &Result<String, String>, wifi: &Result<String, String>) -> (r: Option<
    String,
>)
    ensures
        text::opt_view(r) == dual_lanes_problem(
            adb_command::outcome_view(*adb),
            adb_command::outcome_view(*wifi),
        ),
{
    match (adb, wifi) {
        (Ok(_), Ok(_)) => None,
        (Err(m), _) => Some(m.clone()),
        (_, Err(m)) => Some(m.clone()),
    }
}

/// An error that may be missing, as it is told for debugging.
pub open spec fn told_error(e: Option<Seq<char>>) -> Seq<char> {
    match e {
        Some(m) => "Some("@ + m + ")"@,
        None => "None"@,
    }
}

/// Whether a worker's task is complete, or what is wrong: it is missing, or it ended otherwise.
/// `quoted` is the task's last error in quotes.
pub open spec fn smoke_outcome(
    all: Seq<engine_task::SnapshotView>,
    task_id: Seq<char>,
    quoted: Option<Seq<char>>,
) -> Option<Seq<char>> {
    match dashboard::snapshot_at(all, task_id) {
        None => Some("desktop worker smoke task "@ + task_id + " was not found"@),
        Some(i) => if all[i].state == TaskState::Completed {
            None
        } else {
            Some(
                "desktop worker smoke task "@ + task_id + " ended in "@ + labels::state_label(
                    all[i].state,
                ) + ": "@ + told_error(quoted),
            )
        },
    }
}

/// What is wrong with a worker's task, if it is not complete. `quoted` is the task's last error
/// in quotes.
pub fn assert_smoke_task_completed(
    all: &Vec<EngineTaskSnapshot>,
    task_id: &str,
    quoted: Option<&str>,
) -> (r: Option<String>)
    ensures
        text::opt_view(r) == smoke_outcome(
            dashboard::snapshot_views(all@),
            task_id@,
            text::str_view(quoted),
        ),
{
    match dashboard::find_snapshot(all, task_id) {
        None => {
            let mut m = checkpoint::about("desktop worker smoke task ", task_id);
            m.append(" was not found");
            Some(m)
        },
        Some(i) => {
            assert(dashboard::snapshot_views(all@)[i as int] == all@[i as int]@);
            if all[i].state == TaskState::Completed {
                None
            } else {
                let mut m = checkpoint::about("desktop worker smoke task ", task_id);
                m.append(" ended in ");
                m.append(labels::display_state(all[i].state).as_str());
                m.append(": ");
                match quoted {
                    Some(e) => {
                        let mut told = checkpoint::about("Some(", e);
                        told.append(")");
                        m.append(told.as_str());
                    },
                    None => {
                        m.append("None");
                    },
                }
                Some(m)
            }
        },
    }
}

/// What is told of a worker that passed.
pub open spec fn passed_line(
    mode: DesktopWorkerSmokeMode,
    s: engine_task::SnapshotView,
    elapsed: Seq<char>,
) -> Seq<char> {
    mode_label(mode) + " ok: files="@ + decimal::dec(s.total_files) + " bytes="@ + decimal::dec(
        s.metrics.total,
    ) + " elapsed="@ + elapsed + "s"@
}

/// What is told of a worker that passed. `elapsed` is how long it took, in seconds.
pub fn smoke_line(mode: DesktopWorkerSmokeMode, snapshot: &EngineTaskSnapshot, elapsed: &str) -> (r:
    String)
    ensures
        r@ == passed_line(mode, snapshot@, elapsed@),
{
    let mut s = mode.label().to_string();
    s.append(" ok: files=");
    s.append(decimal::dec_text(snapshot.total_files as u128).as_str());
    s.append(" bytes=");
    s.append(decimal::dec_text(snapshot.total_bytes as u128).as_str());
    s.append(" elapsed=");
    s.append(elapsed);
    s.append("s");
    s
}

/// What is told of a smoke run that passed.
pub open spec fn smoke_report(serial: Seq<char>, host: Option<Seq<char>>, lines: Seq<Seq<char>>) -> Seq<
    char,
> {
    "desktop worker smoke completed for "@ + serial + (match host {
        Some(h) => "\nagent_host="@ + h,
        None => ""@,
    }) + "\n"@ + text::join(lines, "\n"@)
}

/// What is told of a smoke run that passed.
pub fn tell_smoke(serial: &str, host: Option<&str>, lines: &Vec<String>) -> (r: String)
    ensures
        r@ == smoke_report(serial@, text::str_view(host), text::views(lines@)),
{
    let mut s = checkpoint::about("desktop worker smoke completed for ", serial);
    let host_line = match host {
        Some(h) => checkpoint::about("\nagent_host=", h),
        None => "".to_string(),
    };
    s.append(host_line.as_str());
    s.append("\n");
    s.append(text::join_texts(lines, "\n").as_str());
    s
}

/// Where the smoke run stands.
#[derive(Debug)]
pub enum SmokeStage {
    /// The agent at a host is to be greeted; whether a device reported the host.
    Greet(String, bool),
    /// The devices are to be probed for the host.
    Probe,
    /// The next worker is to run.
    Part,
    Done,
    Failed(String),
}

pub enum SmokeStageView {
    Greet(Seq<char>, bool),
    Probe,
    Part,
    Done,
    Failed(Seq<char>),
}

impl View for SmokeStage {
    type V = SmokeStageView;

    open spec fn view(&self) -> SmokeStageView {
        match self {
            SmokeStage::Greet(h, p) => SmokeStageView::Greet(h@, *p),
            SmokeStage::Probe => SmokeStageView::Probe,
            SmokeStage::Part => SmokeStageView::Part,
            SmokeStage::Done => SmokeStageView::Done,
            SmokeStage::Failed(m) => SmokeStageView::Failed(m@),
        }
    }
}

/// What is to be done next.
#[derive(Debug)]
pub enum SmokeStep {
    Greet(String),
    Probe,
    Run(DesktopWorkerSmokeMode, SmokePart),
    Done(String),
}

/// What a worker's part of the smoke run uses.
#[verifier::ext_equal]
pub struct SmokePartView {
    pub source_name: Seq<char>,
    pub task_id: Seq<char>,
    pub remote_root: Seq<char>,
    pub lane_label: Seq<char>,
}

impl View for SmokePart {
    type V = SmokePartView;

    open spec fn view(&self) -> SmokePartView {
        SmokePartView {
            source_name: self.source_name@,
            task_id: self.task_id@,
            remote_root: self.remote_root@,
            lane_label: self.lane_label@,
        }
    }
}

pub enum SmokeStepView {
    Greet(Seq<char>),
    Probe,
    Run(DesktopWorkerSmokeMode, SmokePartView),
    Done(Seq<char>),
}

impl View for SmokeStep {
    type V = SmokeStepView;

    open spec fn view(&self) -> SmokeStepView {
        match self {
            SmokeStep::Greet(h) => SmokeStepView::Greet(h@),
            SmokeStep::Probe => SmokeStepView::Probe,
            SmokeStep::Run(m, p) => SmokeStepView::Run(*m, p@),
            SmokeStep::Done(m) => SmokeStepView::Done(m@),
        }
    }
}

/// The view of a step or a complaint.
pub open spec fn step_view(r: Result<SmokeStep, String>) -> Result<SmokeStepView, Seq<char>> {
    match r {
        Ok(s) => Ok(s@),
        Err(m) => Err(m@),
    }
}

/// The smoke run of the workers.
#[derive(Debug)]
pub struct SmokeRun {
    serial: String,
    smoke_id: String,
    modes: Vec<DesktopWorkerSmokeMode>,
    host: Option<String>,
    part: usize,
    lines: Vec<String>,
    stage: SmokeStage,
}

#[verifier::ext_equal]
pub struct SmokeView {
    pub serial: Seq<char>,
    pub smoke_id: Seq<char>,
    pub modes: Seq<DesktopWorkerSmokeMode>,
    pub host: Option<Seq<char>>,
    /// The worker whose turn it is.
    pub part: int,
    /// What is told of the workers that passed.
    pub lines: Seq<Seq<char>>,
    pub stage: SmokeStageView,
}

impl View for SmokeRun {
    type V = SmokeView;

    closed spec fn view(&self) -> SmokeView {
        SmokeView {
            serial: self.serial@,
            smoke_id: self.smoke_id@,
            modes: self.modes@,
            host: text::opt_view(self.host),
            part: self.part as int,
            lines: text::views(self.lines@),
            stage: self.stage@,
        }
    }
}

/// Where on the device a smoke run puts its files.
pub open spec fn remote_base_of(smoke_id: Seq<char>) -> Seq<char> {
    "/sdcard/Download/NekotransDesktopSmoke/"@ + smoke_id
}

impl SmokeView {
    /// The worker whose turn it is is one of those asked for; one line was told of each before it.
    pub open spec fn wf(self) -> bool {
        &&& 0 <= self.part <= self.modes.len()
        &&& self.lines.len() == self.part
        &&& self.stage is Part ==> self.part < self.modes.len()
        &&& self.stage is Done ==> self.part == self.modes.len()
    }

    pub open spec fn to(self, stage: SmokeStageView) -> SmokeView {
        SmokeView { stage, ..self }
    }

    /// The next worker's turn, or the end.
    pub open spec fn to_part(self) -> SmokeView {
        if self.part < self.modes.len() {
            self.to(SmokeStageView::Part)
        } else {
            self.to(SmokeStageView::Done)
        }
    }

    /// What the worker whose turn it is uses.
    pub open spec fn part_used(self) -> SmokePartView {
        let label = mode_label(self.modes[self.part]);
        SmokePartView {
            source_name: "source-"@ + label,
            task_id: self.smoke_id + "-"@ + label,
            remote_root: remote_base_of(self.smoke_id) + "/"@ + label,
            lane_label: smoke_lanes(self.modes[self.part], self.serial, self.host),
        }
    }

    /// What is to be done next.
    pub open spec fn step(self) -> Result<SmokeStepView, Seq<char>> {
        match self.stage {
            SmokeStageView::Greet(h, _) => Ok(SmokeStepView::Greet(h)),
            SmokeStageView::Probe => Ok(SmokeStepView::Probe),
            SmokeStageView::Part => Ok(
                SmokeStepView::Run(self.modes[self.part], self.part_used()),
            ),
            SmokeStageView::Done => Ok(
                SmokeStepView::Done(smoke_report(self.serial, self.host, self.lines)),
            ),
            SmokeStageView::Failed(m) => Err(m),
        }
    }

    /// The agent answered, or it did not.
    pub open spec fn greeted(self, answer: Result<Seq<char>, Seq<char>>) -> SmokeView {
        match (self.stage, answer) {
            (SmokeStageView::Greet(h, _), Ok(_)) => SmokeView {
                host: Some(h),
                ..self.to_part()
            },
            (SmokeStageView::Greet(h, probed), Err(m)) => self.to(
                SmokeStageView::Failed(
                    if probed {
                        "direct LAN agent probe failed at "@ + h + ": "@ + m
                            + "; pass --host <agent-ip> after confirming the phone is reachable on port 38997"@
                    } else {
                        m
                    },
                ),
            ),
            _ => self,
        }
    }

    /// The devices were probed.
    pub open spec fn probed(self, found: Result<Seq<adb_device::ProbedView>, Seq<char>>) -> SmokeView {
        match found {
            Err(m) => self.to(SmokeStageView::Failed(m)),
            Ok(devices) => match probed_host(devices, self.serial) {
                Err(m) => self.to(SmokeStageView::Failed(m)),
                Ok(ip) => self.to(SmokeStageView::Greet(ip, true)),
            },
        }
    }

    /// A worker ended: the run goes on where it told of no problem and its task is complete.
    pub open spec fn ran(
        self,
        outcome: Result<(), Seq<char>>,
        all: Seq<engine_task::SnapshotView>,
        quoted: Option<Seq<char>>,
        elapsed: Seq<char>,
    ) -> SmokeView {
        let task_id = self.part_used().task_id;
        match outcome {
            Err(m) => self.to(SmokeStageView::Failed(m)),
            Ok(_) => match smoke_outcome(all, task_id, quoted) {
                Some(m) => self.to(SmokeStageView::Failed(m)),
                None => SmokeView {
                    part: self.part + 1,
                    lines: self.lines.push(
                        passed_line(
                            self.modes[self.part],
                            all[dashboard::snapshot_at(all, task_id)->0],
                            elapsed,
                        ),
                    ),
                    ..self
                }.to_part(),
            },
        }
    }
}

/// Whether one of the workers needs the agent.
pub open spec fn agent_needed(modes: Seq<DesktopWorkerSmokeMode>) -> bool {
    exists|i: int| 0 <= i < modes.len() && #[trigger] modes[i] != DesktopWorkerSmokeMode::Adb
}

/// The smoke run as it begins, or what is wrong with what was asked for.
pub open spec fn smoke_begun(
    serial: Seq<char>,
    agent_host: Option<Seq<char>>,
    mode_labels: Seq<Seq<char>>,
    now: u128,
) -> Result<SmokeView, Seq<char>> {
    if text::trim(serial).len() == 0 {
        Err("desktop worker smoke requires an ADB serial"@)
    } else {
        match asked_modes(mode_labels) {
            Err(m) => Err(m),
            Ok(modes) => {
                let fresh = SmokeView {
                    serial: text::trim(serial),
                    smoke_id: "desktop-worker-smoke-"@ + decimal::dec(now as nat),
                    modes,
                    host: None,
                    part: 0,
                    lines: Seq::empty(),
                    stage: SmokeStageView::Part,
                };
                if !agent_needed(modes) {
                    Ok(fresh)
                } else {
                    match given_host(agent_host) {
                        Some(Err(m)) => Err(m),
                        Some(Ok(h)) => Ok(fresh.to(SmokeStageView::Greet(h, false))),
                        None => Ok(fresh.to(SmokeStageView::Probe)),
                    }
                }
            },
        }
    }
}

/// The view of a run or a complaint.
pub open spec fn begun_view(r: Result<SmokeRun, String>) -> Result<SmokeView, Seq<char>> {
    match r {
        Ok(s) => Ok(s@),
        Err(m) => Err(m@),
    }
}

/// The smoke run of the workers that labels ask for, on a device.
pub fn run_desktop_worker_smoke(
    serial: &str,
    agent_host: Option<&str>,
    mode_labels: &Vec<String>,
    now: u128,
) -> (r: Result<SmokeRun, String>)
    ensures
        begun_view(r) == smoke_begun(
            serial@,
            text::str_view(agent_host),
            text::views(mode_labels@),
            now,
        ),
        r matches Ok(run) ==> run@.wf(),
{
    let serial = match smoke_serial(serial) {
        Ok(s) => s,
        Err(m) => {
            return Err(m);
        },
    };
    let modes = match parse_desktop_worker_smoke_modes(mode_labels) {
        Ok(m) => m,
        Err(m) => {
            return Err(m);
        },
    };
    proof {
        lemma_asked_modes(text::views(mode_labels@));
    }
    let stage = if !smoke_needs_agent(&modes) {
        SmokeStage::Part
    } else {
        match read_given_host(agent_host) {
            Some(Ok(h)) => SmokeStage::Greet(h, false),
            Some(Err(m)) => {
                return Err(m);
            },
            None => SmokeStage::Probe,
        }
    };
    let id = smoke_id(now);
    let lines: Vec<String> = Vec::new();
    assert(text::views(lines@) =~= Seq::empty());
    Ok(
        SmokeRun {
            serial,
            smoke_id: id,
            modes,
            host: None,
            part: 0,
            lines,
            stage,
        },
    )
}

impl SmokeRun {
    /// What the run is called.
    pub fn id(&self) -> (r: String)
        ensures
            r@ == self@.smoke_id,
    {
        self.smoke_id.clone()
    }

    /// What is to be done next.
    pub fn next_step(&self) -> (r: Result<SmokeStep, String>)
        requires
            self@.wf(),
        ensures
            step_view(r) == self@.step(),
    {
        match &self.stage {
            SmokeStage::Greet(h, _) => Ok(SmokeStep::Greet(h.clone())),
            SmokeStage::Probe => Ok(SmokeStep::Probe),
            SmokeStage::Part => {
                let mode = self.modes[self.part];
                let part = self.part_now();
                Ok(SmokeStep::Run(mode, part))
            },
            SmokeStage::Done => Ok(
                SmokeStep::Done(
                    tell_smoke(self.serial.as_str(), text::borrow_opt(&self.host), &self.lines),
                ),
            ),
            SmokeStage::Failed(m) => Err(m.clone()),
        }
    }

    fn part_now(&self) -> (r: SmokePart)
        requires
            self@.wf(),
            self@.stage is Part,
        ensures
            r@ == self@.part_used(),
    {
        smoke_part(
            self.modes[self.part],
            self.smoke_id.as_str(),
            smoke_remote_base(self.smoke_id.as_str()).as_str(),
            self.serial.as_str(),
            text::borrow_opt(&self.host),
        )
    }

    fn go_on(&mut self)
        requires
            old(self)@.part <= old(self)@.modes.len(),
        ensures
            final(self)@ == old(self)@.to_part(),
    {
        if self.part < self.modes.len() {
            self.stage = SmokeStage::Part;
        } else {
            self.stage = SmokeStage::Done;
        }
    }

    /// Takes the agent's answer.
    pub fn take_greeting(&mut self, answer: &Result<String, String>)
        requires
            old(self)@.wf(),
            old(self)@.stage is Greet,
        ensures
            final(self)@ == old(self)@.greeted(adb_command::outcome_view(*answer)),
            final(self)@.wf(),
    {
        let (host, probed): (String, bool) = match &self.stage {
            SmokeStage::Greet(h, p) => (h.clone(), *p),
            _ => ("".to_string(), false),
        };
        match answer {
            Ok(_) => {
                self.host = Some(host);
                self.go_on();
            },
            Err(m) => {
                self.stage = SmokeStage::Failed(
                    if probed {
                        smoke_probe_failure(host.as_str(), m.as_str())
                    } else {
                        m.clone()
                    },
                );
            },
        }
    }

    /// Takes the devices that were probed.
    pub fn take_devices(&mut self, found: &Result<Vec<ProbedAdbDevice>, String>)
        requires
            old(self)@.wf(),
            old(self)@.stage is Probe,
        ensures
            final(self)@ == old(self)@.probed(dashboard::found_view(*found)),
            final(self)@.wf(),
    {
        match found {
            Err(m) => {
                self.stage = SmokeStage::Failed(m.clone());
            },
            Ok(devices) => match resolve_desktop_worker_smoke_host(devices, self.serial.as_str()) {
                Err(m) => {
                    self.stage = SmokeStage::Failed(m);
                },
                Ok(ip) => {
                    self.stage = SmokeStage::Greet(ip, true);
                },
            },
        }
    }

    /// Takes what a worker came to, the tasks after it, the task's last error in quotes, and how
    /// long it took, in seconds.
    pub fn take_part(
        &mut self,
        outcome: &Result<(), String>,
        all: &Vec<EngineTaskSnapshot>,
        quoted: Option<&str>,
        elapsed: &str,
    )
        requires
            old(self)@.wf(),
            old(self)@.stage is Part,
        ensures
            final(self)@ == old(self)@.ran(
                wifi_chunk::unit_view(*outcome),
                dashboard::snapshot_views(all@),
                text::str_view(quoted),
                elapsed@,
            ),
            final(self)@.wf(),
    {
        let part = self.part_now();
        match outcome {
            Err(m) => {
                self.stage = SmokeStage::Failed(m.clone());
            },
            Ok(_) => match assert_smoke_task_completed(all, part.task_id.as_str(), quoted) {
                Some(m) => {
                    self.stage = SmokeStage::Failed(m);
                },
                None => match dashboard::find_snapshot(all, part.task_id.as_str()) {
                    Some(i) => {
                        assert(dashboard::snapshot_views(all@)[i as int] == all@[i as int]@);
                        let ghost before = text::views(self.lines@);
                        let line = smoke_line(self.modes[self.part], &all[i], elapsed);
                        self.lines.push(line);
                        assert(text::views(self.lines@) == before.push(line@));
                        assert(self.modes.len() <= usize::MAX);
                        self.part += 1;
                        self.go_on();
                    },
                    None => {},
                },
            },
        }
    }
}

/// A smoke run that is done tells one line of each worker that was asked for.
pub proof fn lemma_done_smoke_told_all(v: SmokeView)
    requires
        v.wf(),
        v.stage is Done,
    ensures
        v.lines.len() == v.modes.len(),
{
}

/// A worker passes only where it told of no problem and its task is there and complete.
pub proof fn lemma_passed_part_is_complete(
    v: SmokeView,
    outcome: Result<(), Seq<char>>,
    all: Seq<engine_task::SnapshotView>,
    quoted: Option<Seq<char>>,
    elapsed: Seq<char>,
)
    requires
        v.wf(),
        v.stage is Part,
        !(v.ran(outcome, all, quoted, elapsed).stage is Failed),
    ensures
        outcome is Ok,
        dashboard::snapshot_at(all, v.part_used().task_id) matches Some(i) && all[i].state
            == TaskState::Completed,
{
}

/// A worker is among those asked for if and only if some word names it, and any unknown word is a
/// complaint.
pub proof fn lemma_asked_workers_are_those_named(
    words: Seq<Seq<char>>,
    mode: DesktopWorkerSmokeMode,
)
    ensures
        modes_of(words) is Ok <==> forall|k: int|
            0 <= k < words.len() ==> mode_of(#[trigger] words[k]) is Ok,
        modes_of(words) matches Ok(modes) ==> (modes.contains(mode) <==> exists|k: int|
            0 <= k < words.len() && mode_of(#[trigger] words[k]) == Ok::<
                Option<DesktopWorkerSmokeMode>,
                Seq<char>,
            >(Some(mode))),
    decreases words.len(),
{
    if words.len() > 0 {
        let d = words.drop_last();
        lemma_asked_workers_are_those_named(d, mode);
        let n = words.len() - 1;
        assert forall|k: int| 0 <= k < d.len() implies #[trigger] d[k] == words[k] by {}
        assert(words[n] == words.last());
        if modes_of(words) is Ok {
            assert forall|k: int| 0 <= k < words.len() implies mode_of(#[trigger] words[k]) is Ok by {
                if k < n {
                    assert(mode_of(d[k]) is Ok);
                }
            }
            let before = modes_of(d)->Ok_0;
            let modes = modes_of(words)->Ok_0;
            if let Ok(Some(m)) = mode_of(words.last()) {
                if !before.contains(m) {
                    assert(modes == before.push(m));
                    assert(modes[before.len() as int] == m);
                    if before.contains(mode) {
                        let i = choose|i: int| 0 <= i < before.len() && before[i] == mode;
                        assert(modes[i] == mode);
                    }
                }
            }
            if modes.contains(mode) {
                if before.contains(mode) {
                    let k = choose|k: int|
                        0 <= k < d.len() && mode_of(#[trigger] d[k]) == Ok::<
                            Option<DesktopWorkerSmokeMode>,
                            Seq<char>,
                        >(Some(mode));
                    assert(words[k] == d[k]);
                } else {
                    let i = choose|i: int| 0 <= i < modes.len() && modes[i] == mode;
                    if i < before.len() {
                        assert(before[i] == mode);
                    }
                    assert(mode_of(words[n]) == Ok::<Option<DesktopWorkerSmokeMode>, Seq<char>>(
                        Some(mode),
                    ));
                }
            }
            if exists|k: int|
                0 <= k < words.len() && mode_of(#[trigger] words[k]) == Ok::<
                    Option<DesktopWorkerSmokeMode>,
                    Seq<char>,
                >(Some(mode)) {
                let k = choose|k: int|
                    0 <= k < words.len() && mode_of(#[trigger] words[k]) == Ok::<
                        Option<DesktopWorkerSmokeMode>,
                        Seq<char>,
                    >(Some(mode));
                if k < n {
                    assert(mode_of(d[k]) == mode_of(words[k]));
                }
            }
        }
        if forall|k: int| 0 <= k < words.len() ==> mode_of(#[trigger] words[k]) is Ok {
            assert forall|k: int| 0 <= k < d.len() implies mode_of(#[trigger] d[k]) is Ok by {
                assert(mode_of(words[k]) is Ok);
            }
            assert(mode_of(words[n]) is Ok);
        }
    }
}

/// Each worker answers to its own name, whatever blanks stand around it, and carries its files
/// over its own lanes.
pub proof fn lemma_worker_answers_to_its_name(word: Seq<char>)
    ensures
        text::lower_all(text::trim(word)) == "adb"@ ==> mode_of(word) == Ok::<
            Option<DesktopWorkerSmokeMode>,
            Seq<char>,
        >(Some(DesktopWorkerSmokeMode::Adb)),
        text::lower_all(text::trim(word)) == "wifi"@ ==> mode_of(word) == Ok::<
            Option<DesktopWorkerSmokeMode>,
            Seq<char>,
        >(Some(DesktopWorkerSmokeMode::Wifi)),
        text::lower_all(text::trim(word)) == "dual"@ ==> mode_of(word) == Ok::<
            Option<DesktopWorkerSmokeMode>,
            Seq<char>,
        >(Some(DesktopWorkerSmokeMode::Dual)),
        text::trim(word).len() == 0 ==> mode_of(word) == Ok::<
            Option<DesktopWorkerSmokeMode>,
            Seq<char>,
        >(None),
        mode_transport(DesktopWorkerSmokeMode::Adb) == TransportMode::AdbOnly,
        mode_transport(DesktopWorkerSmokeMode::Wifi) == TransportMode::WifiOnly,
        mode_transport(DesktopWorkerSmokeMode::Dual) == TransportMode::Dual,
        mode_chunk_size(DesktopWorkerSmokeMode::Wifi) == 256 * 1024,
        mode_chunk_size(DesktopWorkerSmokeMode::Adb) == 8 * 1024 * 1024,
        mode_chunk_size(DesktopWorkerSmokeMode::Dual) == 8 * 1024 * 1024,
{
    reveal_strlit("adb");
    reveal_strlit("adb-only");
    reveal_strlit("wifi");
    reveal_strlit("wi-fi");
    reveal_strlit("wifi-only");
    reveal_strlit("wi-fi-only");
    reveal_strlit("dual");
    reveal_strlit("dual-track");
    reveal_strlit("");
    if text::trim(word).len() == 0 {
        assert(text::lower_all(text::trim(word)) =~= ""@);
    }
    let name = text::lower_all(text::trim(word));
    if name == "wifi"@ {
        assert(name[0] == 'w');
    }
    if name == "dual"@ {
        assert(name[0] == 'd');
    }
}

/// A run begins only for a device. It runs at once where every worker is served by the cable
/// alone, greets the agent where a host without a port was given, and looks for the host where
/// none was. No worker has run then.
pub proof fn lemma_run_begins_by_what_it_needs(
    serial: Seq<char>,
    agent_host: Option<Seq<char>>,
    labels: Seq<Seq<char>>,
    now: u128,
)
    ensures
        ({
            let begun = smoke_begun(serial, agent_host, labels, now);
            let host = match agent_host {
                Some(h) => text::trim(h),
                None => Seq::empty(),
            };
            &&& text::trim(serial).len() == 0 || asked_modes(labels) is Err ==> begun is Err
            &&& begun matches Ok(v) ==> {
                let by_cable = forall|k: int|
                    0 <= k < v.modes.len() ==> #[trigger] v.modes[k] == DesktopWorkerSmokeMode::Adb;
                &&& v.serial == text::trim(serial)
                &&& asked_modes(labels) == Ok::<Seq<DesktopWorkerSmokeMode>, Seq<char>>(v.modes)
                &&& v.part == 0
                &&& v.lines.len() == 0
                &&& v.host is None
                &&& v.stage is Part <==> by_cable
                &&& v.stage is Probe <==> !by_cable && host.len() == 0
                &&& v.stage is Greet <==> !by_cable && host.len() > 0
                &&& v.stage is Greet ==> v.stage == SmokeStageView::Greet(host, false)
                    && !host.contains(':')
            }
            &&& text::trim(serial).len() > 0 && asked_modes(labels) is Ok && (host.len() == 0
                || !host.contains(':')) ==> begun is Ok
        }),
{
}

/// The host that a device reports is greeted before any worker runs, and it is the host of the
/// run once the agent there answered. Where it did not, nothing runs.
pub proof fn lemma_workers_run_only_after_the_greeting(
    v: SmokeView,
    found: Result<Seq<adb_device::ProbedView>, Seq<char>>,
    answer: Result<Seq<char>, Seq<char>>,
)
    ensures
        found is Err ==> v.probed(found).stage is Failed,
        found matches Ok(devices) ==> match v.probed(found).stage {
            SmokeStageView::Greet(ip, told) => told && probed_host(devices, v.serial) == Ok::<
                Seq<char>,
                Seq<char>,
            >(ip),
            SmokeStageView::Failed(m) => probed_host(devices, v.serial) == Err::<
                Seq<char>,
                Seq<char>,
            >(m),
            _ => false,
        },
        v.stage is Greet && answer is Ok && v.part < v.modes.len() ==> {
            &&& v.greeted(answer).stage is Part
            &&& v.greeted(answer).host == Some(v.stage->Greet_0)
            &&& v.greeted(answer).part == v.part
            &&& v.greeted(answer).modes == v.modes
            &&& v.greeted(answer).lines == v.lines
        },
        v.stage is Greet && answer is Err ==> v.greeted(answer).stage is Failed,
        v.stage is Greet && answer is Err && !v.stage->Greet_1 ==> v.greeted(answer).stage
            == SmokeStageView::Failed(answer->Err_0),
{
}

/// The device of a serial is the first with that serial, and its host is the one that it reports.
pub proof fn lemma_host_is_that_of_the_device(
    devices: Seq<adb_device::ProbedView>,
    serial: Seq<char>,
)
    ensures
        match device_at(devices, serial) {
            Some(i) => {
                &&& 0 <= i < devices.len()
                &&& devices[i].discovered.serial == serial
                &&& forall|k: int| 0 <= k < i ==> (#[trigger] devices[k]).discovered.serial != serial
                &&& match probed_host(devices, serial) {
                    Ok(ip) => devices[i].wifi_agent_ip == Some(ip),
                    Err(_) => devices[i].wifi_agent_ip is None,
                }
            },
            None => probed_host(devices, serial) is Err && forall|k: int|
                0 <= k < devices.len() ==> (#[trigger] devices[k]).discovered.serial != serial,
        },
    decreases devices.len(),
{
    if devices.len() > 0 {
        let d = devices.drop_last();
        lemma_host_is_that_of_the_device(d, serial);
        assert forall|k: int| 0 <= k < d.len() implies #[trigger] d[k] == devices[k] by {}
        if device_at(d, serial) is None {
            assert forall|k: int| 0 <= k < devices.len() - 1 implies (
            #[trigger] devices[k]).discovered.serial != serial by {
                assert(d[k].discovered.serial != serial);
            }
        } else {
            let i = device_at(d, serial)->0;
            assert forall|k: int| 0 <= k < i implies (#[trigger] devices[k]).discovered.serial
                != serial by {
                assert(d[k].discovered.serial != serial);
            }
        }
    }
}

/// The worker whose turn it is runs under its own name. One that told of no problem and whose task
/// is complete is told of and gives the turn to the next, and the run is done behind the last.
/// Any other ends the run, and a problem that it told of is the one that is told.
pub proof fn lemma_workers_take_turns(
    v: SmokeView,
    outcome: Result<(), Seq<char>>,
    all: Seq<engine_task::SnapshotView>,
    quoted: Option<Seq<char>>,
    elapsed: Seq<char>,
    i: int,
)
    requires
        v.wf(),
        v.stage is Part,
        dashboard::snapshot_at(all, v.part_used().task_id) == Some(i),
    ensures
        v.step() matches Ok(SmokeStepView::Run(mode, part)) && mode == v.modes[v.part]
            && part.task_id == v.smoke_id + "-"@ + mode_label(mode),
        ({
            let w = v.ran(outcome, all, quoted, elapsed);
            let passed = outcome is Ok && all[i].state == TaskState::Completed;
            &&& w.modes == v.modes && w.host == v.host && w.serial == v.serial
            &&& passed ==> w.part == v.part + 1 && w.lines.len() == v.lines.len() + 1
                && w.lines.drop_last() == v.lines
            &&& passed && v.part + 1 < v.modes.len() ==> w.stage is Part
            &&& passed && v.part + 1 == v.modes.len() ==> w.stage is Done
            &&& !passed ==> w.stage is Failed && w.lines == v.lines
            &&& outcome matches Err(m) ==> w.stage == SmokeStageView::Failed(m)
        }),
{
    let w = v.ran(outcome, all, quoted, elapsed);
    if outcome is Ok && all[i].state == TaskState::Completed {
        assert(w.lines.drop_last() =~= v.lines);
    }
}

/// The lanes of a dual worker are fine only where both are, and the cable's complaint goes first.
pub proof fn lemma_both_lanes_must_be_fine(
    adb: Result<Seq<char>, Seq<char>>,
    wifi: Result<Seq<char>, Seq<char>>,
)
    ensures
        dual_lanes_problem(adb, wifi) is None <==> adb is Ok && wifi is Ok,
        adb matches Err(m) ==> dual_lanes_problem(adb, wifi) == Some(m),
        adb is Ok ==> (wifi matches Err(m) ==> dual_lanes_problem(adb, wifi) == Some(m)),
{
}

} // verus!
