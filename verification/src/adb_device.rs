//! Devices seen over ADB: what the tool reports of them and what is made of it.

use crate::checkpoint;
use crate::decimal;
use crate::fields::Fields;
use crate::text;
use vstd::prelude::*;

verus! {

/// A device in the list of attached devices.
#[derive(Debug, PartialEq, Eq)]
pub struct DiscoveredAdbDevice {
    pub serial: String,
    pub status: String,
    pub model: Option<String>,
    pub product: Option<String>,
    pub device_name: Option<String>,
    pub transport_id: Option<String>,
    pub transport_hint: String,
}

#[verifier::ext_equal]
pub struct DeviceView {
    pub serial: Seq<char>,
    pub status: Seq<char>,
    pub model: Option<Seq<char>>,
    pub product: Option<Seq<char>>,
    pub device_name: Option<Seq<char>>,
    pub transport_id: Option<Seq<char>>,
    pub transport_hint: Seq<char>,
}

impl View for DiscoveredAdbDevice {
    type V = DeviceView;

    open spec fn view(&self) -> DeviceView {
        DeviceView {
            serial: self.serial@,
            status: self.status@,
            model: text::opt_view(self.model),
            product: text::opt_view(self.product),
            device_name: text::opt_view(self.device_name),
            transport_id: text::opt_view(self.transport_id),
            transport_hint: self.transport_hint@,
        }
    }
}

impl Clone for DiscoveredAdbDevice {
    fn clone(&self) -> (r: Self)
        ensures
            r@ == self@,
    {
        DiscoveredAdbDevice {
            serial: self.serial.clone(),
            status: self.status.clone(),
            model: text::copy_opt(&self.model),
            product: text::copy_opt(&self.product),
            device_name: text::copy_opt(&self.device_name),
            transport_id: text::copy_opt(&self.transport_id),
            transport_hint: self.transport_hint.clone(),
        }
    }
}

/// One thing that must be right before a transfer.
#[derive(Debug, PartialEq, Eq)]
pub struct PreflightCheck {
    pub key: &'static str,
    pub label: &'static str,
    pub passed: bool,
    pub detail: String,
}

#[verifier::ext_equal]
pub struct CheckView {
    pub key: Seq<char>,
    pub label: Seq<char>,
    pub passed: bool,
    pub detail: Seq<char>,
}

impl View for PreflightCheck {
    type V = CheckView;

    open spec fn view(&self) -> CheckView {
        CheckView {
            key: self.key@,
            label: self.label@,
            passed: self.passed,
            detail: self.detail@,
        }
    }
}

/// What is known of the agent on a device.
#[derive(Debug, PartialEq, Eq)]
pub struct AgentCapabilityProbe {
    pub ip: Option<String>,
    pub capability_json: Option<String>,
    pub detail: String,
}

#[verifier::ext_equal]
pub struct CapabilityView {
    pub ip: Option<Seq<char>>,
    pub capability_json: Option<Seq<char>>,
    pub detail: Seq<char>,
}

impl View for AgentCapabilityProbe {
    type V = CapabilityView;

    open spec fn view(&self) -> CapabilityView {
        CapabilityView {
            ip: text::opt_view(self.ip),
            capability_json: text::opt_view(self.capability_json),
            detail: self.detail@,
        }
    }
}

/// A device looked at closely.
#[derive(Debug, PartialEq, Eq)]
pub struct ProbedAdbDevice {
    pub discovered: DiscoveredAdbDevice,
    pub adb_state: Option<String>,
    pub manufacturer: Option<String>,
    pub android_release: Option<String>,
    pub sdk_level: Option<String>,
    pub cpu_abi: Option<String>,
    pub adb_tcp_port: Option<String>,
    pub agent_package_path: Option<String>,
    pub wifi_agent_ip: Option<String>,
    pub wifi_agent_capability: Option<String>,
    pub remote_sdcard_ready: bool,
    pub shell_ready: bool,
    pub probe_error: Option<String>,
    pub preflight_checks: Vec<PreflightCheck>,
}

#[verifier::ext_equal]
pub struct ProbedView {
    pub discovered: DeviceView,
    pub adb_state: Option<Seq<char>>,
    pub manufacturer: Option<Seq<char>>,
    pub android_release: Option<Seq<char>>,
    pub sdk_level: Option<Seq<char>>,
    pub cpu_abi: Option<Seq<char>>,
    pub adb_tcp_port: Option<Seq<char>>,
    pub agent_package_path: Option<Seq<char>>,
    pub wifi_agent_ip: Option<Seq<char>>,
    pub wifi_agent_capability: Option<Seq<char>>,
    pub remote_sdcard_ready: bool,
    pub shell_ready: bool,
    pub probe_error: Option<Seq<char>>,
    pub preflight_checks: Seq<CheckView>,
}

impl View for ProbedAdbDevice {
    type V = ProbedView;

    open spec fn view(&self) -> ProbedView {
        ProbedView {
            discovered: self.discovered@,
            adb_state: text::opt_view(self.adb_state),
            manufacturer: text::opt_view(self.manufacturer),
            android_release: text::opt_view(self.android_release),
            sdk_level: text::opt_view(self.sdk_level),
            cpu_abi: text::opt_view(self.cpu_abi),
            adb_tcp_port: text::opt_view(self.adb_tcp_port),
            agent_package_path: text::opt_view(self.agent_package_path),
            wifi_agent_ip: text::opt_view(self.wifi_agent_ip),
            wifi_agent_capability: text::opt_view(self.wifi_agent_capability),
            remote_sdcard_ready: self.remote_sdcard_ready,
            shell_ready: self.shell_ready,
            probe_error: text::opt_view(self.probe_error),
            preflight_checks: check_views(self.preflight_checks@),
        }
    }
}

/// The views of a list of checks.
pub open spec fn check_views(v: Seq<PreflightCheck>) -> Seq<CheckView> {
    v.map_values(|c: PreflightCheck| c@)
}

/// Why ADB could not be asked.
#[derive(Debug, PartialEq, Eq)]
pub enum AdbDiscoveryError {
    CommandFailed(String),
    Paused(String),
    Utf8(String),
}

impl AdbDiscoveryError {
    /// The error in words.
    pub open spec fn text(self) -> Seq<char> {
        match self {
            AdbDiscoveryError::CommandFailed(m) => m@,
            AdbDiscoveryError::Paused(m) => m@,
            AdbDiscoveryError::Utf8(m) => m@,
        }
    }

    /// The error in words.
    pub fn message(&self) -> (r: String)
        ensures
            r@ == self.text(),
    {
        match self {
            AdbDiscoveryError::CommandFailed(m) => m.clone(),
            AdbDiscoveryError::Paused(m) => m.clone(),
            AdbDiscoveryError::Utf8(m) => m.clone(),
        }
    }
}

/// The lines behind the heading of the list of devices.
pub open spec fn behind_heading(lines: Seq<Seq<char>>) -> Seq<Seq<char>>
    decreases lines.len(),
{
    if lines.len() == 0 {
        Seq::empty()
    } else if text::starts_with(text::trim_start(lines[0]), "List of devices attached"@) {
        lines.drop_first()
    } else {
        behind_heading(lines.drop_first())
    }
}

/// The value of the last token `key:value` with a key.
pub open spec fn token_value(tokens: Seq<Seq<char>>, key: Seq<char>) -> Option<Seq<char>>
    decreases tokens.len(),
{
    if tokens.len() == 0 {
        None
    } else {
        match text::split_once(tokens.last(), ':') {
            Some(kv) => if kv.0 == key {
                Some(kv.1)
            } else {
                token_value(tokens.drop_last(), key)
            },
            None => token_value(tokens.drop_last(), key),
        }
    }
}

/// The device that a line of the list stands for: a serial number, a status and tokens.
pub open spec fn device_of_line(line: Seq<char>) -> Option<DeviceView> {
    let w = text::words(text::trim(line));
    if w.len() < 2 {
        None
    } else {
        let tokens = w.skip(2);
        Some(
            DeviceView {
                serial: w[0],
                status: w[1],
                model: token_value(tokens, "model"@),
                product: token_value(tokens, "product"@),
                device_name: token_value(tokens, "device"@),
                transport_id: token_value(tokens, "transport_id"@),
                transport_hint: if w[0].contains(':') {
                    "ADB (TCP)"@
                } else {
                    "ADB (USB)"@
                },
            },
        )
    }
}

/// The devices that lines stand for, in order.
pub open spec fn devices_of_lines(lines: Seq<Seq<char>>) -> Seq<DeviceView>
    decreases lines.len(),
{
    if lines.len() == 0 {
        Seq::empty()
    } else {
        let head = devices_of_lines(lines.drop_last());
        match device_of_line(lines.last()) {
            Some(d) => head.push(d),
            None => head,
        }
    }
}

/// The views of a list of devices.
pub open spec fn device_views(v: Seq<DiscoveredAdbDevice>) -> Seq<DeviceView> {
    v.map_values(|d: DiscoveredAdbDevice| d@)
}

fn find_token(words: &Vec<String>, key: &str) -> (r: Option<String>)
    requires
        words.len() >= 2,
    ensures
        text::opt_view(r) == token_value(text::views(words@).skip(2), key@),
{
    let ghost tokens = text::views(words@).skip(2);
    let mut i: usize = words.len();
    assert(tokens.take(i - 2) =~= tokens);
    while i > 2
        invariant
            2 <= i <= words.len(),
            tokens == text::views(words@).skip(2),
            token_value(tokens, key@) == token_value(tokens.take(i - 2), key@),
        decreases i,
    {
        let ghost head = tokens.take(i - 2);
        assert(head.drop_last() =~= tokens.take(i - 3));
        assert(head.last() == words@[i - 1]@);
        if let Some(kv) = text::split_at_char(words[i - 1].as_str(), ':') {
            if text::str_eq(kv.0.as_str(), key) {
                return Some(kv.1);
            }
        }
        i -= 1;
    }
    None
}

/// The device that a line of the list stands for.
pub fn parse_device_line(line: &str) -> (r: Option<DiscoveredAdbDevice>)
    ensures
        match (r, device_of_line(line@)) {
            (Some(a), Some(b)) => a@ == b,
            (None, None) => true,
            _ => false,
        },
{
    let trimmed = text::trimmed(line);
    let words = text::split_words(trimmed.as_str());
    if words.len() < 2 {
        return None;
    }
    assert(text::views(words@)[0] == words@[0]@ && text::views(words@)[1] == words@[1]@);
    let transport_hint = if text::has_char(words[0].as_str(), ':') {
        "ADB (TCP)"
    } else {
        "ADB (USB)"
    };
    Some(
        DiscoveredAdbDevice {
            serial: words[0].clone(),
            status: words[1].clone(),
            model: find_token(&words, "model"),
            product: find_token(&words, "product"),
            device_name: find_token(&words, "device"),
            transport_id: find_token(&words, "transport_id"),
            transport_hint: transport_hint.to_string(),
        },
    )
}

/// The devices in the output of `adb devices -l`.
pub fn parse_adb_devices_output(stdout: &str) -> (r: Vec<DiscoveredAdbDevice>)
    ensures
        device_views(r@) == devices_of_lines(behind_heading(text::lines(stdout@))),
{
    let lines = text::split_lines(stdout);
    let ghost all = text::views(lines@);
    let mut from: usize = 0;
    assert(all.skip(0) =~= all);
    while from < lines.len() && !text::has_prefix(
        text::trimmed_start(lines[from].as_str()).as_str(),
        "List of devices attached",
    )
        invariant
            from <= lines.len(),
            all == text::views(lines@),
            behind_heading(all) == behind_heading(all.skip(from as int)),
        decreases lines.len() - from,
    {
        assert(all.skip(from as int).drop_first() =~= all.skip(from + 1));
        from += 1;
    }
    let ghost rest = behind_heading(all);
    let mut out: Vec<DiscoveredAdbDevice> = Vec::new();
    assert(device_views(out@) =~= Seq::empty());
    if from == lines.len() {
        return out;
    }
    assert(all.skip(from as int).drop_first() =~= all.skip(from + 1));
    assert(rest == all.skip(from + 1));
    let mut i: usize = from + 1;
    while i < lines.len()
        invariant
            from < i <= lines.len(),
            all == text::views(lines@),
            rest == all.skip(from + 1),
            device_views(out@) == devices_of_lines(rest.take(i - from - 1)),
        decreases lines.len() - i,
    {
        assert(rest.take(i - from).drop_last() =~= rest.take(i - from - 1));
        assert(rest.take(i - from).last() == lines@[i as int]@);
        if let Some(d) = parse_device_line(lines[i].as_str()) {
            let ghost before = device_views(out@);
            out.push(d);
            assert(device_views(out@) =~= before.push(d@));
        }
        i += 1;
    }
    assert(rest.take(rest.len() as int) =~= rest);
    out
}

/// The properties that lines of the form `[key]: [value]` stand for.
pub open spec fn props_of_lines(lines: Seq<Seq<char>>) -> Map<Seq<char>, Seq<char>>
    decreases lines.len(),
{
    if lines.len() == 0 {
        Map::empty()
    } else {
        let head = props_of_lines(lines.drop_last());
        let t = text::trim(lines.last());
        if t.len() == 0 || t[0] != '[' {
            head
        } else {
            match text::split_once_text(t, "]: ["@) {
                Some(kv) => head.insert(
                    text::trim(text::trim_start_char(kv.0, '[')),
                    text::trim(text::trim_end_char(kv.1, ']')),
                ),
                None => head,
            }
        }
    }
}

/// The properties in the output of `getprop`.
pub fn parse_getprop_output(stdout: &str) -> (r: Fields)
    ensures
        r@ == props_of_lines(text::lines(stdout@)),
{
    let lines = text::split_lines(stdout);
    let ghost all = text::views(lines@);
    let mut props = Fields::new();
    let mut i: usize = 0;
    while i < lines.len()
        invariant
            i <= lines.len(),
            all == text::views(lines@),
            props@ == props_of_lines(all.take(i as int)),
        decreases lines.len() - i,
    {
        assert(all.take(i + 1).drop_last() =~= all.take(i as int));
        let trimmed = text::trimmed(lines[i].as_str());
        let chars = text::chars_of(trimmed.as_str());
        if chars.len() > 0 && chars[0] == '[' {
            if let Some(kv) = text::split_at_text(trimmed.as_str(), "]: [") {
                let key = text::trimmed(text::trimmed_start_char(kv.0.as_str(), '[').as_str());
                let value = text::trimmed(text::trimmed_end_char(kv.1.as_str(), ']').as_str());
                props.insert(key, value);
            }
        }
        i += 1;
    }
    assert(all.take(all.len() as int) =~= all);
    props
}

/// The address behind the word `src` in a route.
pub open spec fn route_source(words: Seq<Seq<char>>) -> Option<Seq<char>>
    decreases words.len(),
{
    if words.len() == 0 {
        None
    } else if words[0] == "src"@ {
        if words.len() > 1 {
            Some(words[1])
        } else {
            None
        }
    } else {
        route_source(words.drop_first())
    }
}

/// The address behind the word `src` in a route.
pub fn parse_default_route_source_ip(output: &str) -> (r: Option<String>)
    ensures
        text::opt_view(r) == route_source(text::words(output@)),
{
    let words = text::split_words(output);
    let ghost all = text::views(words@);
    let mut i: usize = 0;
    assert(all.skip(0) =~= all);
    while i < words.len()
        invariant
            i <= words.len(),
            all == text::views(words@),
            all == text::words(output@),
            route_source(all) == route_source(all.skip(i as int)),
        decreases words.len() - i,
    {
        assert(all.skip(i as int).drop_first() =~= all.skip(i + 1));
        assert(all[i as int] == words@[i as int]@);
        if text::str_eq(words[i].as_str(), "src") {
            if i + 1 < words.len() {
                assert(all.skip(i as int)[1] == words@[i + 1]@);
                return Some(words[i + 1].clone());
            }
            return None;
        }
        i += 1;
    }
    None
}

/// A check.
pub open spec fn check(key: Seq<char>, label: Seq<char>, passed: bool, detail: Seq<char>) -> CheckView {
    CheckView { key, label, passed, detail }
}

/// The checks of a device.
pub open spec fn preflight(
    device: DeviceView,
    adb_state: Option<Seq<char>>,
    android_release: Option<Seq<char>>,
    sdk_level: Option<Seq<char>>,
    cpu_abi: Option<Seq<char>>,
    adb_tcp_port: Option<Seq<char>>,
    agent_package_path: Option<Seq<char>>,
    agent_capability: Option<CapabilityView>,
    remote_sdcard_ready: bool,
    shell_ready: bool,
    probe_error: Option<Seq<char>>,
) -> Seq<CheckView> {
    seq![
        check("adb_link"@, "ADB Link"@, device.status == "device"@, "status="@ + device.status),
        check(
            "adb_shell"@,
            "Shell Ready"@,
            shell_ready && adb_state == Some("device"@),
            text::or_else(adb_state, "unknown"@),
        ),
        check(
            "android_sdk"@,
            "Android SDK"@,
            match sdk_level {
                Some(v) => match decimal::parse(v, u32::MAX as nat) {
                    Some(n) => n >= 26,
                    None => false,
                },
                None => false,
            },
            match (android_release, sdk_level) {
                (Some(release), Some(sdk)) => "Android "@ + release + " / SDK "@ + sdk,
                _ => "unknown"@,
            },
        ),
        check(
            "cpu_abi"@,
            "CPU ABI"@,
            match cpu_abi {
                Some(v) => v.len() > 0,
                None => false,
            },
            text::or_else(cpu_abi, "unknown"@),
        ),
        check(
            "wifi_candidate"@,
            "Wi-Fi Candidate"@,
            device.serial.contains(':') || match adb_tcp_port {
                Some(v) => v != "-1"@ && v != "0"@,
                None => false,
            },
            text::or_else(adb_tcp_port, "disabled"@),
        ),
        check(
            "agent_package"@,
            "Agent Package"@,
            agent_package_path is Some,
            text::or_else(agent_package_path, "not installed"@),
        ),
        check(
            "agent_capability"@,
            "Agent Capability"@,
            match agent_capability {
                Some(p) => p.capability_json is Some,
                None => false,
            },
            match agent_capability {
                Some(p) => p.detail,
                None => "not probed"@,
            },
        ),
        check(
            "remote_sdcard"@,
            "Remote /sdcard"@,
            remote_sdcard_ready,
            if remote_sdcard_ready {
                "reachable"@
            } else {
                "not reachable"@
            },
        ),
        check(
            "probe_error"@,
            "Probe Error"@,
            probe_error is None,
            text::or_else(probe_error, "none"@),
        ),
    ]
}

/// The view of an optional probe.
pub open spec fn probe_view(p: Option<&AgentCapabilityProbe>) -> Option<CapabilityView> {
    match p {
        Some(x) => Some(x@),
        None => None,
    }
}

/// The checks of a device.
pub fn build_preflight_checks(
    device: &DiscoveredAdbDevice,
    adb_state: Option<&str>,
    android_release: Option<&str>,
    sdk_level: Option<&str>,
    cpu_abi: Option<&str>,
    adb_tcp_port: Option<&str>,
    agent_package_path: Option<&str>,
    agent_capability: Option<&AgentCapabilityProbe>,
    remote_sdcard_ready: bool,
    shell_ready: bool,
    probe_error: Option<String>,
) -> (r: Vec<PreflightCheck>)
    ensures
        check_views(r@) == preflight(
            device@,
            text::str_view(adb_state),
            text::str_view(android_release),
            text::str_view(sdk_level),
            text::str_view(cpu_abi),
            text::str_view(adb_tcp_port),
            text::str_view(agent_package_path),
            probe_view(agent_capability),
            remote_sdcard_ready,
            shell_ready,
            text::opt_view(probe_error),
        ),
{
    let android_supported = match sdk_level {
        Some(v) => match decimal::parse_u32(v) {
            Some(n) => n >= 26,
            None => false,
        },
        None => false,
    };
    let abi_known = match cpu_abi {
        Some(v) => !v.is_empty(),
        None => false,
    };
    let wifi_candidate = text::has_char(device.serial.as_str(), ':') || match adb_tcp_port {
        Some(v) => !text::str_eq(v, "-1") && !text::str_eq(v, "0"),
        None => false,
    };
    let sdk_detail = match (android_release, sdk_level) {
        (Some(release), Some(sdk)) => {
            let mut s = "Android ".to_string();
            s.append(release);
            s.append(" / SDK ");
            s.append(sdk);
            s
        },
        _ => "unknown".to_string(),
    };
    let capability_ready = match agent_capability {
        Some(p) => p.capability_json.is_some(),
        None => false,
    };
    let capability_detail = match agent_capability {
        Some(p) => p.detail.clone(),
        None => "not probed".to_string(),
    };
    let error_detail = text::or_other(text::borrow_opt(&probe_error), "none");
    let mut out: Vec<PreflightCheck> = Vec::new();
    out.push(
        PreflightCheck {
            key: "adb_link",
            label: "ADB Link",
            passed: text::str_eq(device.status.as_str(), "device"),
            detail: checkpoint::about("status=", device.status.as_str()),
        },
    );
    out.push(
        PreflightCheck {
            key: "adb_shell",
            label: "Shell Ready",
            passed: shell_ready && text::opt_is(adb_state, "device"),
            detail: text::or_other(adb_state, "unknown"),
        },
    );
    out.push(
        PreflightCheck {
            key: "android_sdk",
            label: "Android SDK",
            passed: android_supported,
            detail: sdk_detail,
        },
    );
    out.push(
        PreflightCheck {
            key: "cpu_abi",
            label: "CPU ABI",
            passed: abi_known,
            detail: text::or_other(cpu_abi, "unknown"),
        },
    );
    out.push(
        PreflightCheck {
            key: "wifi_candidate",
            label: "Wi-Fi Candidate",
            passed: wifi_candidate,
            detail: text::or_other(adb_tcp_port, "disabled"),
        },
    );
    out.push(
        PreflightCheck {
            key: "agent_package",
            label: "Agent Package",
            passed: agent_package_path.is_some(),
            detail: text::or_other(agent_package_path, "not installed"),
        },
    );
    out.push(
        PreflightCheck {
            key: "agent_capability",
            label: "Agent Capability",
            passed: capability_ready,
            detail: capability_detail,
        },
    );
    out.push(
        PreflightCheck {
            key: "remote_sdcard",
            label: "Remote /sdcard",
            passed: remote_sdcard_ready,
            detail: if remote_sdcard_ready {
                "reachable".to_string()
            } else {
                "not reachable".to_string()
            },
        },
    );
    out.push(
        PreflightCheck {
            key: "probe_error",
            label: "Probe Error",
            passed: probe_error.is_none(),
            detail: error_detail,
        },
    );
    assert(check_views(out@) =~= preflight(
        device@,
        text::str_view(adb_state),
        text::str_view(android_release),
        text::str_view(sdk_level),
        text::str_view(cpu_abi),
        text::str_view(adb_tcp_port),
        text::str_view(agent_package_path),
        probe_view(agent_capability),
        remote_sdcard_ready,
        shell_ready,
        text::opt_view(probe_error),
    ));
    out
}

/// Each check passes by its own fact and by no other: the link by the status, the shell by the
/// state that the device tells, the system from version 26 on, the network by an address or a
/// port, and each of the others by what was found.
pub proof fn lemma_each_check_goes_by_its_fact(
    device: DeviceView,
    adb_state: Option<Seq<char>>,
    release: Option<Seq<char>>,
    sdk: Option<Seq<char>>,
    abi: Option<Seq<char>>,
    port: Option<Seq<char>>,
    package: Option<Seq<char>>,
    agent: Option<CapabilityView>,
    sdcard: bool,
    shell: bool,
    error: Option<Seq<char>>,
)
    ensures
        ({
            let c = preflight(
                device,
                adb_state,
                release,
                sdk,
                abi,
                port,
                package,
                agent,
                sdcard,
                shell,
                error,
            );
            &&& c.len() == 9
            &&& c[0].key == "adb_link"@ && (c[0].passed <==> device.status == "device"@)
            &&& c[1].key == "adb_shell"@ && (c[1].passed <==> shell && adb_state == Some(
                "device"@,
            ))
            &&& c[2].key == "android_sdk"@ && (c[2].passed <==> sdk is Some && decimal::parse(
                sdk->0,
                u32::MAX as nat,
            ) is Some && !(decimal::parse(sdk->0, u32::MAX as nat)->0 <= 25))
            &&& c[3].key == "cpu_abi"@ && (c[3].passed <==> abi is Some && !(abi->0
                =~= Seq::<char>::empty()))
            &&& c[4].key == "wifi_candidate"@ && (!c[4].passed <==> !device.serial.contains(':')
                && (port is None || port->0 == "0"@ || port->0 == "-1"@))
            &&& c[5].key == "agent_package"@ && (!c[5].passed <==> package is None)
            &&& c[6].key == "agent_capability"@ && (!c[6].passed <==> agent is None
                || agent->0.capability_json is None)
            &&& c[7].key == "remote_sdcard"@ && c[7].passed == sdcard
            &&& c[8].key == "probe_error"@ && (!c[8].passed <==> error is Some)
            &&& error is Some ==> c[8].detail == error->0
            &&& package is Some ==> c[5].detail == package->0
            &&& agent is Some ==> c[6].detail == agent->0.detail
        }),
{
}

/// The devices of two lists of lines are those of the one and then those of the other. A line
/// stands for a device if and only if it has two words, and the device has the first word as its
/// serial number and the second as its status, and goes over the network if and only if a colon
/// stands in its serial number.
pub proof fn lemma_each_line_is_a_device(a: Seq<Seq<char>>, b: Seq<Seq<char>>, line: Seq<char>)
    ensures
        devices_of_lines(a + b) == devices_of_lines(a) + devices_of_lines(b),
        ({
            let w = text::words(text::trim(line));
            let found = devices_of_lines(seq![line]);
            if w.len() >= 2 {
                &&& found.len() == 1
                &&& found[0].serial == w[0]
                &&& found[0].status == w[1]
                &&& w[0].contains(':') ==> found[0].transport_hint == "ADB (TCP)"@
                &&& !w[0].contains(':') ==> found[0].transport_hint == "ADB (USB)"@
            } else {
                found.len() == 0
            }
        }),
    decreases b.len(),
{
    let none = Seq::<Seq<char>>::empty();
    assert(seq![line].drop_last() =~= none);
    assert(devices_of_lines(none) =~= Seq::<DeviceView>::empty());
    assert(seq![line].last() == line);
    if b.len() == 0 {
        assert(a + b =~= a);
        assert(devices_of_lines(a) + devices_of_lines(b) =~= devices_of_lines(a));
    } else {
        let d = b.drop_last();
        lemma_each_line_is_a_device(a, d, line);
        assert((a + b).drop_last() =~= a + d);
        assert((a + b).last() == b.last());
        assert(devices_of_lines(a + b) =~= devices_of_lines(a) + devices_of_lines(b));
    }
}

/// The devices stand behind the heading: what stands before the first heading is passed over, and
/// without a heading there are none.
pub proof fn lemma_devices_stand_behind_the_heading(
    before: Seq<Seq<char>>,
    heading: Seq<char>,
    behind: Seq<Seq<char>>,
)
    requires
        forall|k: int|
            0 <= k < before.len() ==> !text::starts_with(
                text::trim_start(#[trigger] before[k]),
                "List of devices attached"@,
            ),
        text::starts_with(text::trim_start(heading), "List of devices attached"@),
    ensures
        behind_heading(before) == Seq::<Seq<char>>::empty(),
        behind_heading(before + seq![heading] + behind) == behind,
    decreases before.len(),
{
    let all = before + seq![heading] + behind;
    if before.len() == 0 {
        assert(all[0] == heading);
        assert(all.drop_first() =~= behind);
    } else {
        let d = before.drop_first();
        assert forall|k: int| 0 <= k < d.len() implies !text::starts_with(
            text::trim_start(#[trigger] d[k]),
            "List of devices attached"@,
        ) by {
            assert(d[k] == before[k + 1]);
        }
        lemma_devices_stand_behind_the_heading(d, heading, behind);
        assert(all[0] == before[0]);
        assert(all.drop_first() =~= d + seq![heading] + behind);
    }
}

/// Of the tokens of a line the last one with a key gives its value, and tokens with another key or
/// without a colon are passed over.
pub proof fn lemma_last_token_gives_the_value(
    tokens: Seq<Seq<char>>,
    token: Seq<char>,
    key: Seq<char>,
    value: Seq<char>,
)
    requires
        text::lacks(key, ':'),
    ensures
        token_value(tokens.push(key + seq![':'] + value), key) == Some(value),
        text::lacks(token, ':') ==> token_value(tokens.push(token), key) == token_value(
            tokens,
            key,
        ),
        forall|other: Seq<char>| #[trigger]
            text::lacks(other, ':') && other != key ==> token_value(
                tokens.push(other + seq![':'] + value),
                key,
            ) == token_value(tokens, key),
        token_value(Seq::empty(), key) is None,
{
    let found = key + seq![':'] + value;
    text::lemma_find(found, ':', key.len() as int);
    assert(found.take(key.len() as int) =~= key);
    assert(found.skip(key.len() as int + 1) =~= value);
    assert(tokens.push(found).last() == found);
    assert(tokens.push(token).drop_last() =~= tokens);
    if text::lacks(token, ':') {
        text::lemma_find(token, ':', token.len() as int);
    }
    assert forall|other: Seq<char>| #[trigger]
        text::lacks(other, ':') && other != key implies token_value(
        tokens.push(other + seq![':'] + value),
        key,
    ) == token_value(tokens, key) by {
        let t = other + seq![':'] + value;
        text::lemma_find(t, ':', other.len() as int);
        assert(t.take(other.len() as int) =~= other);
        assert(tokens.push(t).drop_last() =~= tokens);
    }
}

/// The address of a route is the word behind the first `src`, if there is one.
pub proof fn lemma_address_stands_behind_src(
    before: Seq<Seq<char>>,
    address: Seq<char>,
    behind: Seq<Seq<char>>,
)
    requires
        forall|k: int| 0 <= k < before.len() ==> #[trigger] before[k] != "src"@,
    ensures
        route_source(before + seq!["src"@, address] + behind) == Some(address),
        route_source(before) is None,
        route_source(before + seq!["src"@]) is None,
    decreases before.len(),
{
    let all = before + seq!["src"@, address] + behind;
    let cut = before + seq!["src"@];
    if before.len() == 0 {
        assert(all[0] == "src"@ && all[1] == address);
        assert(cut[0] == "src"@ && cut.len() == 1);
    } else {
        let d = before.drop_first();
        assert forall|k: int| 0 <= k < d.len() implies #[trigger] d[k] != "src"@ by {
            assert(d[k] == before[k + 1]);
        }
        lemma_address_stands_behind_src(d, address, behind);
        assert(before[0] != "src"@);
        assert(all[0] == before[0] && cut[0] == before[0]);
        assert(all.drop_first() =~= d + seq!["src"@, address] + behind);
        assert(cut.drop_first() =~= d + seq!["src"@]);
    }
}

/// Every line of properties counts, a later one over an earlier one of the same name, and lines
/// that do not begin with a bracket count for nothing.
pub proof fn lemma_later_properties_win(lines: Seq<Seq<char>>, line: Seq<char>, key: Seq<char>)
    ensures
        ({
            let own = props_of_lines(seq![line]);
            let all = props_of_lines(lines.push(line));
            &&& own.contains_key(key) ==> all.contains_key(key) && all[key] == own[key]
            &&& !own.contains_key(key) ==> (all.contains_key(key) <==> props_of_lines(
                lines,
            ).contains_key(key))
            &&& !own.contains_key(key) && all.contains_key(key) ==> all[key] == props_of_lines(
                lines,
            )[key]
        }),
        text::trim(line).len() > 0 && text::trim(line)[0] != '[' ==> !props_of_lines(
            seq![line],
        ).contains_key(key),
{
    assert(lines.push(line).drop_last() =~= lines);
    assert(seq![line].drop_last() =~= Seq::<Seq<char>>::empty());
    assert(seq![line].last() == line);
    assert(props_of_lines(Seq::<Seq<char>>::empty()) == Map::<Seq<char>, Seq<char>>::empty());
}

} // verus!
