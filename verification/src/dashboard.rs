//! What the dashboard shows: devices, tasks, and where the things it offers are found.

use crate::adb_device;
use crate::adb_device::{PreflightCheck, ProbedAdbDevice};
use crate::checkpoint;
use crate::engine_task;
use crate::engine_task::EngineTaskSnapshot;
use crate::labels;
use crate::logging;
use crate::logging::{LogLevel, LogRecord, LogScope};
use crate::models::TaskState;
use crate::text;
use vstd::prelude::*;

verus! {

/// A task as it is shown.
#[derive(Debug, PartialEq, Eq)]
pub struct TaskCard {
    pub task_id: String,
    pub state: String,
    pub direction: String,
    pub transport_mode: String,
    pub verify_enabled: bool,
    pub total_files: usize,
    pub total_bytes: u64,
    pub committed_bytes: u64,
    pub progress_percent: u32,
    pub adb_bytes: u64,
    pub wifi_bytes: u64,
    pub completed_chunks: u64,
    pub last_error: Option<String>,
}

#[verifier::ext_equal]
pub struct TaskCardView {
    pub task_id: Seq<char>,
    pub state: Seq<char>,
    pub direction: Seq<char>,
    pub transport_mode: Seq<char>,
    pub verify_enabled: bool,
    pub total_files: nat,
    pub metrics: engine_task::MetricsView,
    pub progress_percent: int,
    pub last_error: Option<Seq<char>>,
}

impl View for TaskCard {
    type V = TaskCardView;

    open spec fn view(&self) -> TaskCardView {
        TaskCardView {
            task_id: self.task_id@,
            state: self.state@,
            direction: self.direction@,
            transport_mode: self.transport_mode@,
            verify_enabled: self.verify_enabled,
            total_files: self.total_files as nat,
            metrics: engine_task::MetricsView {
                total: self.total_bytes as nat,
                committed: self.committed_bytes as nat,
                adb: self.adb_bytes as nat,
                wifi: self.wifi_bytes as nat,
                chunks: self.completed_chunks as nat,
            },
            progress_percent: self.progress_percent as int,
            last_error: text::opt_view(self.last_error),
        }
    }
}

/// How much of a task is done, in percent, cut to 32 bits. The hundredfold of the bytes is capped
/// at 64 bits.
pub open spec fn percent(committed: nat, total: nat) -> int {
    if total == 0 {
        100
    } else {
        let scaled = if committed * 100 <= u64::MAX {
            committed * 100
        } else {
            u64::MAX as nat
        };
        (scaled / total) as int % 0x1_0000_0000
    }
}

/// The percentage of a task that has committed no more than it has is at most 100.
pub proof fn lemma_percent_is_bounded(committed: nat, total: nat)
    requires
        committed <= total,
    ensures
        0 <= percent(committed, total) <= 100,
{
    if total > 0 {
        let scaled = if committed * 100 <= u64::MAX {
            committed * 100
        } else {
            u64::MAX as nat
        };
        assert(scaled <= total * 100);
        assert(scaled / total <= 100) by (nonlinear_arith)
            requires
                scaled <= total * 100,
                total > 0,
        ;
    }
}

/// The percentage of a task that has committed all it has is 100, up to the size whose hundredfold
/// fits 64 bits.
pub proof fn lemma_whole_task_is_hundred_percent(total: nat)
    requires
        total * 100 <= u64::MAX,
    ensures
        percent(total, total) == 100,
{
    if total > 0 {
        assert((total * 100) / total == 100) by (nonlinear_arith)
            requires
                total > 0,
        ;
    }
}

/// A task as it is shown.
pub open spec fn task_card(s: engine_task::SnapshotView) -> TaskCardView {
    TaskCardView {
        task_id: s.task_id,
        state: labels::state_label(s.state),
        direction: labels::direction_label(s.direction),
        transport_mode: labels::transport_label(s.transport_mode),
        verify_enabled: s.verify_enabled,
        total_files: s.total_files,
        metrics: s.metrics,
        progress_percent: percent(s.metrics.committed, s.metrics.total),
        last_error: s.last_error,
    }
}

fn progress_of(committed: u64, total: u64) -> (r: u32)
    ensures
        r == percent(committed as nat, total as nat),
{
    if total == 0 {
        return 100;
    }
    let exact: u128 = committed as u128 * 100;
    let scaled: u128 = if exact <= 0xffff_ffff_ffff_ffff {
        exact
    } else {
        0xffff_ffff_ffff_ffff
    };
    let low: u128 = (scaled / total as u128) % 0x1_0000_0000;
    low as u32
}

impl TaskCard {
    /// A task as it is shown.
    pub fn from_snapshot(snapshot: &EngineTaskSnapshot) -> (r: Self)
        ensures
            r@ == task_card(snapshot@),
    {
        TaskCard {
            task_id: snapshot.task_id.clone(),
            state: labels::display_state(snapshot.state),
            direction: labels::display_direction(snapshot.direction),
            transport_mode: labels::display_transport_mode(snapshot.transport_mode),
            verify_enabled: snapshot.verify_enabled,
            total_files: snapshot.total_files,
            total_bytes: snapshot.total_bytes,
            committed_bytes: snapshot.committed_bytes,
            progress_percent: progress_of(snapshot.committed_bytes, snapshot.total_bytes),
            adb_bytes: snapshot.adb_bytes,
            wifi_bytes: snapshot.wifi_bytes,
            completed_chunks: snapshot.completed_chunks,
            last_error: text::copy_opt(&snapshot.last_error),
        }
    }
}

/// The views of snapshots.
pub open spec fn snapshot_views(v: Seq<EngineTaskSnapshot>) -> Seq<engine_task::SnapshotView> {
    v.map_values(|s: EngineTaskSnapshot| s@)
}

/// Where the first snapshot of a task stands.
pub open spec fn snapshot_at(all: Seq<engine_task::SnapshotView>, task_id: Seq<char>) -> Option<int>
    decreases all.len(),
{
    if all.len() == 0 {
        None
    } else {
        match snapshot_at(all.drop_last(), task_id) {
            Some(i) => Some(i),
            None => if all.last().task_id == task_id {
                Some(all.len() - 1)
            } else {
                None
            },
        }
    }
}

/// Where the first snapshot of a task stands.
pub fn find_snapshot(all: &Vec<EngineTaskSnapshot>, task_id: &str) -> (r: Option<usize>)
    ensures
        match r {
            Some(i) => snapshot_at(snapshot_views(all@), task_id@) == Some(i as int) && i
                < all@.len(),
            None => snapshot_at(snapshot_views(all@), task_id@) is None,
        },
{
    let ghost views = snapshot_views(all@);
    let mut i: usize = 0;
    assert(views.take(0).len() == 0);
    while i < all.len()
        invariant
            i <= all.len(),
            views == snapshot_views(all@),
            snapshot_at(views.take(i as int), task_id@) is None,
        decreases all.len() - i,
    {
        assert(views.take(i + 1).drop_last() =~= views.take(i as int));
        assert(views[i as int] == all@[i as int]@);
        if text::str_eq(all[i].task_id.as_str(), task_id) {
            proof {
                lemma_first_stays_first(views, task_id@, i + 1);
            }
            return Some(i);
        }
        i += 1;
    }
    assert(views.take(views.len() as int) =~= views);
    None
}

proof fn lemma_first_stays_first(all: Seq<engine_task::SnapshotView>, task_id: Seq<char>, n: int)
    requires
        0 <= n <= all.len(),
        snapshot_at(all.take(n), task_id) is Some,
    ensures
        snapshot_at(all, task_id) == snapshot_at(all.take(n), task_id),
    decreases all.len() - n,
{
    if n < all.len() {
        assert(all.take(n + 1).drop_last() =~= all.take(n));
        lemma_first_stays_first(all, task_id, n + 1);
    } else {
        assert(all.take(n) =~= all);
    }
}

/// Whether a task was cancelled.
pub open spec fn is_cancelled(all: Seq<engine_task::SnapshotView>, task_id: Seq<char>) -> bool {
    match snapshot_at(all, task_id) {
        Some(i) => all[i].state == TaskState::Cancelled,
        None => false,
    }
}

/// Whether a task was cancelled.
pub fn task_is_cancelled(all: &Vec<EngineTaskSnapshot>, task_id: &str) -> (r: bool)
    ensures
        r == is_cancelled(snapshot_views(all@), task_id@),
{
    match find_snapshot(all, task_id) {
        Some(i) => {
            assert(snapshot_views(all@)[i as int] == all@[i as int]@);
            all[i].state == TaskState::Cancelled
        },
        None => false,
    }
}

/// A task as a template for others.
#[derive(Debug, PartialEq, Eq)]
pub struct TaskDraft {
    pub task_id: String,
    pub direction: String,
    pub transport_mode: String,
    pub verify_enabled: bool,
    pub chunk_size_mb: u32,
}

/// A task as a template for others, with chunks of 8 MiB.
pub fn sample_task_template(snapshot: &EngineTaskSnapshot) -> (r: TaskDraft)
    ensures
        r.task_id@ == snapshot@.task_id,
        r.direction@ == labels::direction_label(snapshot@.direction),
        r.transport_mode@ == labels::transport_label(snapshot@.transport_mode),
        r.verify_enabled == snapshot@.verify_enabled,
        r.chunk_size_mb == 8,
{
    TaskDraft {
        task_id: snapshot.task_id.clone(),
        direction: labels::display_direction(snapshot.direction),
        transport_mode: labels::display_transport_mode(snapshot.transport_mode),
        verify_enabled: snapshot.verify_enabled,
        chunk_size_mb: 8,
    }
}

/// A check of a device as it is shown.
#[derive(Debug, PartialEq, Eq)]
pub struct DeviceCheckView {
    pub label: String,
    pub passed: bool,
    pub detail: String,
}

/// A device as it is shown.
#[derive(Debug, PartialEq, Eq)]
pub struct DeviceCard {
    pub id: String,
    pub label: String,
    pub lane_mode: String,
    pub agent_host: Option<String>,
    pub adb_ready: bool,
    pub wifi_ready: bool,
    pub transfer_ready: bool,
    pub protocol_version: String,
    pub status_text: String,
    pub platform_text: String,
    pub preflight_checks: Vec<DeviceCheckView>,
}

/// What is shown of a check.
#[verifier::ext_equal]
pub struct ShownCheck {
    pub label: Seq<char>,
    pub passed: bool,
    pub detail: Seq<char>,
}

impl View for DeviceCheckView {
    type V = ShownCheck;

    open spec fn view(&self) -> ShownCheck {
        ShownCheck { label: self.label@, passed: self.passed, detail: self.detail@ }
    }
}

/// The views of checks that are shown.
pub open spec fn shown_views(v: Seq<DeviceCheckView>) -> Seq<ShownCheck> {
    v.map_values(|c: DeviceCheckView| c@)
}

/// What is shown of a device.
#[verifier::ext_equal]
pub struct DeviceCardView {
    pub id: Seq<char>,
    pub label: Seq<char>,
    pub lane_mode: Seq<char>,
    pub agent_host: Option<Seq<char>>,
    pub adb_ready: bool,
    pub wifi_ready: bool,
    pub transfer_ready: bool,
    pub protocol_version: Seq<char>,
    pub status_text: Seq<char>,
    pub platform_text: Seq<char>,
    pub preflight_checks: Seq<ShownCheck>,
}

impl View for DeviceCard {
    type V = DeviceCardView;

    open spec fn view(&self) -> DeviceCardView {
        DeviceCardView {
            id: self.id@,
            label: self.label@,
            lane_mode: self.lane_mode@,
            agent_host: text::opt_view(self.agent_host),
            adb_ready: self.adb_ready,
            wifi_ready: self.wifi_ready,
            transfer_ready: self.transfer_ready,
            protocol_version: self.protocol_version@,
            status_text: self.status_text@,
            platform_text: self.platform_text@,
            preflight_checks: shown_views(self.preflight_checks@),
        }
    }
}

/// What a device is called: its model, else its name, else its serial.
pub open spec fn device_label(d: adb_device::DeviceView) -> Seq<char> {
    match (d.model, d.device_name) {
        (Some(m), _) => m,
        (None, Some(n)) => n,
        (None, None) => d.serial,
    }
}

/// Whether a device can be reached over the network: its agent answers, or ADB uses TCP.
pub open spec fn reaches_network(d: adb_device::ProbedView) -> bool {
    ||| d.wifi_agent_capability is Some
    ||| d.discovered.serial.contains(':')
    ||| d.adb_tcp_port is Some && d.adb_tcp_port->0 != "-1"@ && d.adb_tcp_port->0 != "0"@
}

/// The ways to reach a device.
pub open spec fn lane_mode_of(d: adb_device::ProbedView) -> Seq<char> {
    match d.wifi_agent_ip {
        Some(ip) => if d.wifi_agent_capability is Some {
            d.discovered.transport_hint + " + Agent "@ + ip + ":38997"@
        } else {
            d.discovered.transport_hint + " + LAN "@ + ip
        },
        None => if d.discovered.serial.contains(':') {
            "ADB (TCP)"@
        } else if reaches_network(d) {
            d.discovered.transport_hint + " + TCP Candidate"@
        } else {
            d.discovered.transport_hint
        },
    }
}

/// How a device is doing.
pub open spec fn status_of(d: adb_device::ProbedView) -> Seq<char> {
    match d.probe_error {
        Some(e) => e,
        None => if d.shell_ready {
            "adb shell ready"@
        } else {
            "device status is "@ + d.discovered.status
        },
    }
}

/// The checks of a device as they are shown.
pub open spec fn shown_checks(v: Seq<adb_device::CheckView>) -> Seq<ShownCheck> {
    v.map_values(
        |c: adb_device::CheckView|
            ShownCheck { label: c.label, passed: c.passed, detail: c.detail },
    )
}

/// A device as it is shown.
pub open spec fn device_card(d: adb_device::ProbedView) -> DeviceCardView {
    DeviceCardView {
        id: d.discovered.serial,
        label: device_label(d.discovered),
        lane_mode: lane_mode_of(d),
        agent_host: d.wifi_agent_ip,
        adb_ready: d.shell_ready,
        wifi_ready: reaches_network(d),
        transfer_ready: d.shell_ready,
        protocol_version: if d.wifi_agent_capability is Some {
            "agent-capability"@
        } else {
            "adb-preflight"@
        },
        status_text: status_of(d),
        platform_text: text::or_else(d.manufacturer, "Unknown OEM"@) + " / Android "@
            + text::or_else(d.android_release, "?"@) + " / SDK "@ + text::or_else(
            d.sdk_level,
            "?"@,
        ),
        preflight_checks: shown_checks(d.preflight_checks),
    }
}

fn show_checks(checks: &Vec<PreflightCheck>) -> (r: Vec<DeviceCheckView>)
    ensures
        shown_views(r@) == shown_checks(adb_device::check_views(checks@)),
{
    let mut out: Vec<DeviceCheckView> = Vec::new();
    let mut i: usize = 0;
    while i < checks.len()
        invariant
            i <= checks.len(),
            out@.len() == i,
            forall|k: int|
                0 <= k < i ==> (#[trigger] out@[k])@ == shown_checks(
                    adb_device::check_views(checks@),
                )[k],
        decreases checks.len() - i,
    {
        let c = &checks[i];
        out.push(
            DeviceCheckView {
                label: c.label.to_string(),
                passed: c.passed,
                detail: c.detail.clone(),
            },
        );
        i += 1;
    }
    assert(shown_views(out@) =~= shown_checks(adb_device::check_views(checks@)));
    out
}

fn network_reached(device: &ProbedAdbDevice) -> (r: bool)
    ensures
        r == reaches_network(device@),
{
    if device.wifi_agent_capability.is_some() || text::has_char(
        device.discovered.serial.as_str(),
        ':',
    ) {
        return true;
    }
    match &device.adb_tcp_port {
        Some(port) => !text::str_eq(port.as_str(), "-1") && !text::str_eq(port.as_str(), "0"),
        None => false,
    }
}

fn tell_lane_mode(device: &ProbedAdbDevice) -> (r: String)
    ensures
        r@ == lane_mode_of(device@),
{
    let hint = device.discovered.transport_hint.clone();
    match &device.wifi_agent_ip {
        Some(ip) => if device.wifi_agent_capability.is_some() {
            let mut s = hint;
            s.append(" + Agent ");
            s.append(ip.as_str());
            s.append(":38997");
            s
        } else {
            let mut s = hint;
            s.append(" + LAN ");
            s.append(ip.as_str());
            s
        },
        None => if text::has_char(device.discovered.serial.as_str(), ':') {
            "ADB (TCP)".to_string()
        } else if network_reached(device) {
            checkpoint::about(hint.as_str(), " + TCP Candidate")
        } else {
            hint
        },
    }
}

impl DeviceCard {
    /// A device as it is shown.
    pub fn from_adb_probe(device: &ProbedAdbDevice) -> (r: Self)
        ensures
            r@ == device_card(device@),
    {
        let label = match (&device.discovered.model, &device.discovered.device_name) {
            (Some(m), _) => m.clone(),
            (None, Some(n)) => n.clone(),
            (None, None) => device.discovered.serial.clone(),
        };
        let status_text = match &device.probe_error {
            Some(e) => e.clone(),
            None => if device.shell_ready {
                "adb shell ready".to_string()
            } else {
                checkpoint::about("device status is ", device.discovered.status.as_str())
            },
        };
        let mut platform_text = text::or_other(
            text::borrow_opt(&device.manufacturer),
            "Unknown OEM",
        );
        platform_text.append(" / Android ");
        platform_text.append(
            text::or_other(text::borrow_opt(&device.android_release), "?").as_str(),
        );
        platform_text.append(" / SDK ");
        platform_text.append(text::or_other(text::borrow_opt(&device.sdk_level), "?").as_str());
        DeviceCard {
            id: device.discovered.serial.clone(),
            label,
            lane_mode: tell_lane_mode(device),
            agent_host: text::copy_opt(&device.wifi_agent_ip),
            adb_ready: device.shell_ready,
            wifi_ready: network_reached(device),
            transfer_ready: device.shell_ready,
            protocol_version: if device.wifi_agent_capability.is_some() {
                "agent-capability".to_string()
            } else {
                "adb-preflight".to_string()
            },
            status_text,
            platform_text,
            preflight_checks: show_checks(&device.preflight_checks),
        }
    }
}

/// The views of the devices that are shown.
pub open spec fn card_views(v: Seq<DeviceCard>) -> Seq<DeviceCardView> {
    v.map_values(|c: DeviceCard| c@)
}

/// The views of the devices that were probed.
pub open spec fn probed_views(v: Seq<ProbedAdbDevice>) -> Seq<adb_device::ProbedView> {
    v.map_values(|d: ProbedAdbDevice| d@)
}

/// The devices of a search as they are shown.
pub open spec fn shown_devices(devices: Seq<adb_device::ProbedView>) -> Seq<DeviceCardView> {
    devices.map_values(|d: adb_device::ProbedView| device_card(d))
}

/// What is logged of a search for devices at `now`, and the devices that it found.
pub open spec fn discovery(
    found: Result<Seq<adb_device::ProbedView>, Seq<char>>,
    now: u128,
) -> (Seq<DeviceCardView>, Seq<char>) {
    match found {
        Ok(devices) => (
            shown_devices(devices),
            logging::json_line(
                logging::plain_record(
                    now,
                    LogLevel::Info,
                    LogScope::Device,
                    if devices.len() == 0 {
                        "adb discovery completed with no attached devices"@
                    } else {
                        "adb discovery completed"@
                    },
                ),
            ),
        ),
        Err(m) => (
            Seq::empty(),
            logging::json_line(
                logging::plain_record(
                    now,
                    LogLevel::Warn,
                    LogScope::Device,
                    "adb discovery failed: "@ + m,
                ),
            ),
        ),
    }
}

/// The view of what a search came to.
pub open spec fn found_view(r: Result<Vec<ProbedAdbDevice>, String>) -> Result<
    Seq<adb_device::ProbedView>,
    Seq<char>,
> {
    match r {
        Ok(v) => Ok(probed_views(v@)),
        Err(m) => Err(m@),
    }
}

/// The devices of a search as they are shown, and the line that is logged of it.
pub fn discover_device_cards(found: &Result<Vec<ProbedAdbDevice>, String>, now: u128) -> (r: (
    Vec<DeviceCard>,
    String,
))
    ensures
        (card_views(r.0@), r.1@) == discovery(found_view(*found), now),
{
    let mut cards: Vec<DeviceCard> = Vec::new();
    match found {
        Ok(devices) => {
            let mut i: usize = 0;
            while i < devices.len()
                invariant
                    i <= devices.len(),
                    cards@.len() == i,
                    forall|k: int|
                        0 <= k < i ==> (#[trigger] cards@[k])@ == device_card(devices@[k]@),
                decreases devices.len() - i,
            {
                cards.push(DeviceCard::from_adb_probe(&devices[i]));
                i += 1;
            }
            assert(card_views(cards@) =~= shown_devices(probed_views(devices@)));
            let message = if devices.len() == 0 {
                "adb discovery completed with no attached devices"
            } else {
                "adb discovery completed"
            };
            let line = LogRecord::new_at(
                now,
                LogLevel::Info,
                LogScope::Device,
                message,
            ).to_json_line();
            (cards, line)
        },
        Err(m) => {
            let line = LogRecord::new_at(
                now,
                LogLevel::Warn,
                LogScope::Device,
                checkpoint::about("adb discovery failed: ", m.as_str()).as_str(),
            ).to_json_line();
            assert(card_views(cards@) =~= Seq::empty());
            (cards, line)
        },
    }
}

/// The lines that tell which places were tried.
pub open spec fn tried_lines(candidates: Seq<Seq<char>>) -> Seq<Seq<char>> {
    candidates.map_values(|c: Seq<char>| "  - "@ + c)
}

/// The first place that is there, or the complaint with the places that were tried.
pub open spec fn first_present(
    problem: Seq<char>,
    candidates: Seq<Seq<char>>,
    present: Seq<bool>,
) -> Result<Seq<char>, Seq<char>> {
    if exists|i: int| is_first(present, i) {
        Ok(candidates[choose|i: int| is_first(present, i)])
    } else {
        Err(problem + text::join(tried_lines(candidates), "\n"@))
    }
}

/// Whether a place is the first that is there.
pub open spec fn is_first(present: Seq<bool>, i: int) -> bool {
    0 <= i < present.len() && present[i] && forall|k: int| 0 <= k < i ==> !#[trigger] present[k]
}

fn pick_present(problem: &str, candidates: &Vec<String>, present: &Vec<bool>) -> (r: Result<
    String,
    String,
>)
    requires
        candidates@.len() == present@.len(),
    ensures
        crate::adb_command::outcome_view(r) == first_present(
            problem@,
            text::views(candidates@),
            present@,
        ),
{
    let ghost all = text::views(candidates@);
    let mut lines: Vec<String> = Vec::new();
    let mut i: usize = 0;
    while i < candidates.len()
        invariant
            i <= candidates.len(),
            candidates@.len() == present@.len(),
            all == text::views(candidates@),
            lines@.len() == i,
            forall|k: int| 0 <= k < i ==> (#[trigger] lines@[k])@ == tried_lines(all)[k],
            forall|k: int| 0 <= k < i ==> !#[trigger] present@[k],
        decreases candidates.len() - i,
    {
        assert(all[i as int] == candidates@[i as int]@);
        if present[i] {
            assert(is_first(present@, i as int));
            let ghost j = choose|j: int| is_first(present@, j);
            assert(j == i) by {
                if j < i {
                    assert(!present@[j]);
                }
                if i < j {
                    assert(!present@[i as int]);
                }
            }
            return Ok(candidates[i].clone());
        }
        lines.push(checkpoint::about("  - ", candidates[i].as_str()));
        i += 1;
    }
    assert(text::views(lines@) =~= tried_lines(all));
    Err(checkpoint::about(problem, text::join_texts(&lines, "\n").as_str()))
}

/// Where the agent's package is: the first of the places it may have been built to.
pub fn default_agent_apk_path(candidates: &Vec<String>, present: &Vec<bool>) -> (r: Result<
    String,
    String,
>)
    requires
        candidates@.len() == present@.len(),
    ensures
        crate::adb_command::outcome_view(r) == first_present(
            "Android agent APK was not found. Build it first, then retry Install Agent. Tried:\n"@,
            text::views(candidates@),
            present@,
        ),
{
    pick_present(
        "Android agent APK was not found. Build it first, then retry Install Agent. Tried:\n",
        candidates,
        present,
    )
}

/// Where the documents are that can be pushed as a demonstration.
pub fn default_docs_path(candidates: &Vec<String>, present: &Vec<bool>) -> (r: Result<
    String,
    String,
>)
    requires
        candidates@.len() == present@.len(),
    ensures
        crate::adb_command::outcome_view(r) == first_present(
            "Demo docs directory was not found. Tried:\n"@,
            text::views(candidates@),
            present@,
        ),
{
    pick_present("Demo docs directory was not found. Tried:\n", candidates, present)
}

/// The percentage is the share that is committed, rounded down, and grows with it, as far as a
/// hundredfold fits 64 bits. A task without bytes is whole.
pub proof fn lemma_percent_is_the_share_committed(committed: nat, more: nat, total: nat)
    requires
        committed <= more <= total,
        total * 100 <= u64::MAX,
    ensures
        percent(committed, total) <= percent(more, total),
        total > 0 ==> percent(committed, total) * total <= committed * 100,
        total > 0 ==> committed * 100 < (percent(committed, total) + 1) * total,
        percent(0, 0) == 100,
{
    if total > 0 {
        lemma_percent_is_bounded(committed, total);
        lemma_percent_is_bounded(more, total);
        let a: int = committed as int * 100;
        let b: int = more as int * 100;
        let t: int = total as int;
        assert(0 <= a <= b && b <= t * 100);
        assert(a / t <= b / t && b / t <= 100 && 0 <= a / t) by (nonlinear_arith)
            requires
                t > 0,
                0 <= a <= b,
                b <= t * 100,
        ;
        assert((a / t) * t <= a && a < (a / t + 1) * t) by (nonlinear_arith)
            requires
                t > 0,
                0 <= a,
        ;
        assert(percent(committed, total) == a / t);
        assert(percent(more, total) == b / t);
    }
}

/// The first snapshot of a task is found: it is of that task and none before it is, and none is
/// found only where there is none.
pub proof fn lemma_first_snapshot_is_found(
    all: Seq<engine_task::SnapshotView>,
    task_id: Seq<char>,
)
    ensures
        match snapshot_at(all, task_id) {
            Some(i) => {
                &&& 0 <= i < all.len()
                &&& all[i].task_id == task_id
                &&& forall|k: int| 0 <= k < i ==> (#[trigger] all[k]).task_id != task_id
                &&& is_cancelled(all, task_id) <==> all[i].state == TaskState::Cancelled
            },
            None => !is_cancelled(all, task_id) && forall|k: int|
                0 <= k < all.len() ==> (#[trigger] all[k]).task_id != task_id,
        },
    decreases all.len(),
{
    if all.len() > 0 {
        let d = all.drop_last();
        lemma_first_snapshot_is_found(d, task_id);
        assert forall|k: int| 0 <= k < d.len() implies #[trigger] d[k] == all[k] by {}
        if let Some(i) = snapshot_at(d, task_id) {
            assert forall|k: int| 0 <= k < i implies (#[trigger] all[k]).task_id != task_id by {
                assert(d[k].task_id != task_id);
            }
        } else {
            assert forall|k: int| 0 <= k < d.len() implies (#[trigger] all[k]).task_id != task_id by {
                assert(d[k].task_id != task_id);
            }
        }
    }
}

/// A task is shown under its own name and with its own numbers and words.
pub proof fn lemma_task_is_shown_as_it_is(s: engine_task::SnapshotView)
    ensures
        task_card(s).task_id == s.task_id,
        task_card(s).state == labels::state_label(s.state),
        task_card(s).direction == labels::direction_label(s.direction),
        task_card(s).transport_mode == labels::transport_label(s.transport_mode),
        task_card(s).verify_enabled == s.verify_enabled,
        task_card(s).total_files == s.total_files,
        task_card(s).metrics.total == s.metrics.total,
        task_card(s).metrics.committed == s.metrics.committed,
        task_card(s).metrics.adb == s.metrics.adb,
        task_card(s).metrics.wifi == s.metrics.wifi,
        task_card(s).metrics.chunks == s.metrics.chunks,
        task_card(s).last_error == s.last_error,
        s.metrics.total == 0 ==> task_card(s).progress_percent == 100,
{
}

/// A device is ready for a transfer if and only if its shell is. It is reached over the network
/// where its agent answered, where it is joined over the network, or where it listens on a port.
/// It is called by its model, else by its name, else by its serial number.
pub proof fn lemma_device_is_shown_as_it_is(d: adb_device::ProbedView)
    ensures
        ({
            let c = device_card(d);
            &&& c.id == d.discovered.serial
            &&& c.adb_ready == d.shell_ready && c.transfer_ready == d.shell_ready
            &&& c.agent_host == d.wifi_agent_ip
            &&& !c.wifi_ready <==> d.wifi_agent_capability is None && !d.discovered.serial.contains(
                ':',
            ) && (d.adb_tcp_port is None || d.adb_tcp_port == Some("0"@) || d.adb_tcp_port == Some(
                "-1"@,
            ))
            &&& d.discovered.model is Some ==> c.label == d.discovered.model->0
            &&& d.discovered.model is None && d.discovered.device_name is Some ==> c.label
                == d.discovered.device_name->0
            &&& d.discovered.model is None && d.discovered.device_name is None ==> c.label
                == d.discovered.serial
            &&& d.probe_error is Some ==> c.status_text == d.probe_error->0
            &&& d.probe_error is None && d.shell_ready ==> c.status_text == "adb shell ready"@
            &&& d.probe_error is None && !d.shell_ready ==> c.status_text == "device status is "@
                + d.discovered.status
            &&& c.preflight_checks.len() == d.preflight_checks.len()
            &&& forall|k: int|
                0 <= k < c.preflight_checks.len() ==> {
                    &&& (#[trigger] c.preflight_checks[k]).label == d.preflight_checks[k].label
                    &&& c.preflight_checks[k].passed == d.preflight_checks[k].passed
                    &&& c.preflight_checks[k].detail == d.preflight_checks[k].detail
                }
        }),
{
}

} // verus!
