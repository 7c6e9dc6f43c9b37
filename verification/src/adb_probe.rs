//! Looking closely at a device: what to ask next, and what the answers come to.

use crate::adb_command;
use crate::adb_device;
use crate::adb_device::{
    AgentCapabilityProbe, CapabilityView, DeviceView, DiscoveredAdbDevice, ProbedAdbDevice,
    ProbedView,
};
use crate::checkpoint;
use crate::text;
use vstd::prelude::*;

verus! {

/// The answers so far: for each question its outcome, once it was asked.
#[derive(Debug)]
pub struct DeviceFacts {
    pub state: Option<Result<String, String>>,
    pub props: Option<Result<String, String>>,
    pub package: Option<Result<String, String>>,
    pub sdcard: Option<Result<String, String>>,
    pub route: Option<Result<String, String>>,
    pub direct: Option<Result<String, String>>,
    pub tunnel: Option<Result<String, String>>,
}

pub struct FactsView {
    pub state: Option<Result<Seq<char>, Seq<char>>>,
    pub props: Option<Result<Seq<char>, Seq<char>>>,
    pub package: Option<Result<Seq<char>, Seq<char>>>,
    pub sdcard: Option<Result<Seq<char>, Seq<char>>>,
    pub route: Option<Result<Seq<char>, Seq<char>>>,
    pub direct: Option<Result<Seq<char>, Seq<char>>>,
    pub tunnel: Option<Result<Seq<char>, Seq<char>>>,
}

/// The view of an answer.
pub open spec fn answer_view(a: Option<Result<String, String>>) -> Option<
    Result<Seq<char>, Seq<char>>,
> {
    match a {
        Some(r) => Some(adb_command::outcome_view(r)),
        None => None,
    }
}

impl View for DeviceFacts {
    type V = FactsView;

    open spec fn view(&self) -> FactsView {
        FactsView {
            state: answer_view(self.state),
            props: answer_view(self.props),
            package: answer_view(self.package),
            sdcard: answer_view(self.sdcard),
            route: answer_view(self.route),
            direct: answer_view(self.direct),
            tunnel: answer_view(self.tunnel),
        }
    }
}

impl DeviceFacts {
    /// Nothing asked yet.
    pub fn new() -> (r: Self)
        ensures
            r@ == (FactsView {
                state: None,
                props: None,
                package: None,
                sdcard: None,
                route: None,
                direct: None,
                tunnel: None,
            }),
    {
        DeviceFacts {
            state: None,
            props: None,
            package: None,
            sdcard: None,
            route: None,
            direct: None,
            tunnel: None,
        }
    }
}

/// What to ask next.
#[derive(Debug, PartialEq, Eq)]
pub enum ProbeStep {
    State,
    Props,
    Package,
    Sdcard,
    Route,
    Direct(String),
    Tunnel,
    Done,
}

pub enum ProbeStepView {
    State,
    Props,
    Package,
    Sdcard,
    Route,
    Direct(Seq<char>),
    Tunnel,
    Done,
}

impl View for ProbeStep {
    type V = ProbeStepView;

    open spec fn view(&self) -> ProbeStepView {
        match self {
            ProbeStep::State => ProbeStepView::State,
            ProbeStep::Props => ProbeStepView::Props,
            ProbeStep::Package => ProbeStepView::Package,
            ProbeStep::Sdcard => ProbeStepView::Sdcard,
            ProbeStep::Route => ProbeStepView::Route,
            ProbeStep::Direct(ip) => ProbeStepView::Direct(ip@),
            ProbeStep::Tunnel => ProbeStepView::Tunnel,
            ProbeStep::Done => ProbeStepView::Done,
        }
    }
}

/// What to ask for the agent: over the network where the route tells an address, and through the
/// tunnel where that does not lead to it.
pub open spec fn agent_step(f: FactsView) -> ProbeStepView {
    let last = if f.tunnel is None {
        ProbeStepView::Tunnel
    } else {
        ProbeStepView::Done
    };
    match f.route {
        None => ProbeStepView::Route,
        Some(Err(_)) => last,
        Some(Ok(out)) => match adb_device::route_source(text::words(out)) {
            None => last,
            Some(ip) => match f.direct {
                None => ProbeStepView::Direct(ip),
                Some(Ok(_)) => ProbeStepView::Done,
                Some(Err(_)) => last,
            },
        },
    }
}

/// What to ask next of a device; nothing more once a first question failed, and nothing at all
/// of a device that is not ready.
pub open spec fn step(status: Seq<char>, f: FactsView) -> ProbeStepView {
    if status != "device"@ {
        ProbeStepView::Done
    } else {
        match f.state {
            None => ProbeStepView::State,
            Some(Err(_)) => ProbeStepView::Done,
            Some(Ok(_)) => match f.props {
                None => ProbeStepView::Props,
                Some(Err(_)) => ProbeStepView::Done,
                Some(Ok(_)) => if f.package is None {
                    ProbeStepView::Package
                } else if f.sdcard is None {
                    ProbeStepView::Sdcard
                } else {
                    agent_step(f)
                },
            },
        }
    }
}

/// An answer; a question that was not asked counts as failed without a word.
pub open spec fn known(a: Option<Result<Seq<char>, Seq<char>>>) -> Result<Seq<char>, Seq<char>> {
    match a {
        Some(r) => r,
        None => Err(Seq::empty()),
    }
}

/// What is known of the agent.
pub open spec fn capability(f: FactsView) -> CapabilityView {
    match known(f.route) {
        Err(err) => match known(f.tunnel) {
            Ok(json) => through_tunnel(json),
            Err(t) => no_agent(
                "ip route probe failed: "@ + err + "; adb tunnel unavailable: "@ + t,
            ),
        },
        Ok(out) => match adb_device::route_source(text::words(out)) {
            None => match known(f.tunnel) {
                Ok(json) => through_tunnel(json),
                Err(t) => no_agent("device LAN IP not found; adb tunnel unavailable: "@ + t),
            },
            Some(ip) => match known(f.direct) {
                Ok(json) => CapabilityView {
                    ip: Some(ip),
                    capability_json: Some(text::trim(json)),
                    detail: ip + ":38997 ready"@,
                },
                Err(err) => match known(f.tunnel) {
                    Ok(json) => CapabilityView {
                        ip: Some(ip),
                        capability_json: Some(text::trim(json)),
                        detail: ip + ":38997 unavailable; ADB tunnel ready"@,
                    },
                    Err(t) => CapabilityView {
                        ip: Some(ip),
                        capability_json: None,
                        detail: ip + ":38997 unavailable: "@ + err + "; adb tunnel unavailable: "@
                            + t,
                    },
                },
            },
        },
    }
}

/// An agent that was reached through the tunnel alone.
pub open spec fn through_tunnel(json: Seq<char>) -> CapabilityView {
    CapabilityView {
        ip: None,
        capability_json: Some(text::trim(json)),
        detail: "ADB tunnel ready"@,
    }
}

/// An agent that was not reached.
pub open spec fn no_agent(detail: Seq<char>) -> CapabilityView {
    CapabilityView { ip: None, capability_json: None, detail }
}

/// A device of which no more is known than an error.
pub open spec fn unprobed(
    device: DeviceView,
    adb_state: Option<Seq<char>>,
    error: Seq<char>,
) -> ProbedView {
    ProbedView {
        discovered: device,
        adb_state,
        manufacturer: None,
        android_release: None,
        sdk_level: None,
        cpu_abi: None,
        adb_tcp_port: None,
        agent_package_path: None,
        wifi_agent_ip: None,
        wifi_agent_capability: None,
        remote_sdcard_ready: false,
        shell_ready: false,
        probe_error: Some(error),
        preflight_checks: adb_device::preflight(
            device,
            adb_state,
            None,
            None,
            None,
            None,
            None,
            None,
            false,
            false,
            Some(error),
        ),
    }
}

/// The value of a property, if it has one.
pub open spec fn prop(props: Map<Seq<char>, Seq<char>>, key: Seq<char>) -> Option<Seq<char>> {
    if props.contains_key(key) {
        Some(props[key])
    } else {
        None
    }
}

/// A device with its answers.
pub open spec fn probed(device: DeviceView, f: FactsView) -> ProbedView {
    if device.status != "device"@ {
        unprobed(device, None, "device status is "@ + device.status)
    } else {
        match known(f.state) {
            Err(e) => unprobed(device, None, e),
            Ok(s) => {
                let state = text::trim(s);
                match known(f.props) {
                    Err(e) => unprobed(device, Some(state), e),
                    Ok(p) => {
                        let props = adb_device::props_of_lines(text::lines(p));
                        let release = prop(props, "ro.build.version.release"@);
                        let sdk = prop(props, "ro.build.version.sdk"@);
                        let abi = prop(props, "ro.product.cpu.abi"@);
                        let port = prop(props, "service.adb.tcp.port"@);
                        let shell_ready = state == "device"@;
                        let package = match known(f.package) {
                            Ok(path) => if text::trim(path).len() > 0 {
                                Some(text::trim(path))
                            } else {
                                None
                            },
                            Err(_) => None,
                        };
                        let sdcard = known(f.sdcard) matches Ok(out) && text::trim(out)
                            == "ready"@;
                        let agent = capability(f);
                        ProbedView {
                            discovered: device,
                            adb_state: Some(state),
                            manufacturer: prop(props, "ro.product.manufacturer"@),
                            android_release: release,
                            sdk_level: sdk,
                            cpu_abi: abi,
                            adb_tcp_port: port,
                            agent_package_path: package,
                            wifi_agent_ip: agent.ip,
                            wifi_agent_capability: agent.capability_json,
                            remote_sdcard_ready: sdcard,
                            shell_ready,
                            probe_error: None,
                            preflight_checks: adb_device::preflight(
                                device,
                                Some(state),
                                release,
                                sdk,
                                abi,
                                port,
                                package,
                                Some(agent),
                                sdcard,
                                shell_ready,
                                None,
                            ),
                        }
                    },
                }
            },
        }
    }
}

fn copy_answer(a: &Option<Result<String, String>>) -> (r: Result<String, String>)
    ensures
        adb_command::outcome_view(r) == known(answer_view(*a)),
{
    match a {
        Some(Ok(s)) => Ok(s.clone()),
        Some(Err(m)) => Err(m.clone()),
        None => {
            let e = String::new();
            assert(e@ =~= Seq::<char>::empty());
            Err(e)
        },
    }
}

fn next_agent_step(f: &DeviceFacts) -> (r: ProbeStep)
    ensures
        r@ == agent_step(f@),
{
    let last = if f.tunnel.is_none() {
        ProbeStep::Tunnel
    } else {
        ProbeStep::Done
    };
    match &f.route {
        None => ProbeStep::Route,
        Some(Err(_)) => last,
        Some(Ok(out)) => match adb_device::parse_default_route_source_ip(out.as_str()) {
            None => last,
            Some(ip) => match &f.direct {
                None => ProbeStep::Direct(ip),
                Some(Ok(_)) => ProbeStep::Done,
                Some(Err(_)) => last,
            },
        },
    }
}

/// What to ask next of a device.
pub fn next_probe_step(device: &DiscoveredAdbDevice, f: &DeviceFacts) -> (r: ProbeStep)
    ensures
        r@ == step(device@.status, f@),
{
    if !text::str_eq(device.status.as_str(), "device") {
        return ProbeStep::Done;
    }
    match &f.state {
        None => ProbeStep::State,
        Some(Err(_)) => ProbeStep::Done,
        Some(Ok(_)) => match &f.props {
            None => ProbeStep::Props,
            Some(Err(_)) => ProbeStep::Done,
            Some(Ok(_)) => if f.package.is_none() {
                ProbeStep::Package
            } else if f.sdcard.is_none() {
                ProbeStep::Sdcard
            } else {
                next_agent_step(f)
            },
        },
    }
}

fn tunnel_or(json: Result<String, String>, complaint: String) -> (r: AgentCapabilityProbe)
    ensures
        r@ == (match adb_command::outcome_view(json) {
            Ok(j) => through_tunnel(j),
            Err(t) => no_agent(complaint@ + "; adb tunnel unavailable: "@ + t),
        }),
{
    match json {
        Ok(j) => AgentCapabilityProbe {
            ip: None,
            capability_json: Some(text::trimmed(j.as_str())),
            detail: "ADB tunnel ready".to_string(),
        },
        Err(t) => {
            let mut detail = complaint;
            detail.append("; adb tunnel unavailable: ");
            detail.append(t.as_str());
            AgentCapabilityProbe { ip: None, capability_json: None, detail }
        },
    }
}

/// What is known of the agent.
pub fn probe_agent_capability(f: &DeviceFacts) -> (r: AgentCapabilityProbe)
    ensures
        r@ == capability(f@),
{
    let tunnel = copy_answer(&f.tunnel);
    let out = match copy_answer(&f.route) {
        Err(err) => {
            return tunnel_or(tunnel, checkpoint::about("ip route probe failed: ", err.as_str()));
        },
        Ok(out) => out,
    };
    let ip = match adb_device::parse_default_route_source_ip(out.as_str()) {
        None => {
            proof {
                reveal_strlit("device LAN IP not found; adb tunnel unavailable: ");
                reveal_strlit("device LAN IP not found");
                reveal_strlit("; adb tunnel unavailable: ");
                assert("device LAN IP not found; adb tunnel unavailable: "@
                    =~= "device LAN IP not found"@ + "; adb tunnel unavailable: "@);
            }
            return tunnel_or(tunnel, "device LAN IP not found".to_string());
        },
        Some(ip) => ip,
    };
    match copy_answer(&f.direct) {
        Ok(json) => {
            let detail = checkpoint::about(ip.as_str(), ":38997 ready");
            AgentCapabilityProbe {
                ip: Some(ip),
                capability_json: Some(text::trimmed(json.as_str())),
                detail,
            }
        },
        Err(err) => match tunnel {
            Ok(json) => {
                let detail = checkpoint::about(
                    ip.as_str(),
                    ":38997 unavailable; ADB tunnel ready",
                );
                AgentCapabilityProbe {
                    ip: Some(ip),
                    capability_json: Some(text::trimmed(json.as_str())),
                    detail,
                }
            },
            Err(t) => {
                let mut detail = checkpoint::about(ip.as_str(), ":38997 unavailable: ");
                detail.append(err.as_str());
                detail.append("; adb tunnel unavailable: ");
                detail.append(t.as_str());
                AgentCapabilityProbe { ip: Some(ip), capability_json: None, detail }
            },
        },
    }
}

fn make_unprobed(device: &DiscoveredAdbDevice, adb_state: Option<String>, error: String) -> (r:
    ProbedAdbDevice)
    ensures
        r@ == unprobed(device@, text::opt_view(adb_state), error@),
{
    let checks = adb_device::build_preflight_checks(
        device,
        text::borrow_opt(&adb_state),
        None,
        None,
        None,
        None,
        None,
        None,
        false,
        false,
        Some(error.clone()),
    );
    ProbedAdbDevice {
        discovered: device.clone(),
        adb_state,
        manufacturer: None,
        android_release: None,
        sdk_level: None,
        cpu_abi: None,
        adb_tcp_port: None,
        agent_package_path: None,
        wifi_agent_ip: None,
        wifi_agent_capability: None,
        remote_sdcard_ready: false,
        shell_ready: false,
        probe_error: Some(error),
        preflight_checks: checks,
    }
}

/// A device with its answers.
pub fn probe_single_device(device: &DiscoveredAdbDevice, f: &DeviceFacts) -> (r: ProbedAdbDevice)
    ensures
        r@ == probed(device@, f@),
{
    if !text::str_eq(device.status.as_str(), "device") {
        let error = checkpoint::about("device status is ", device.status.as_str());
        return make_unprobed(device, None, error);
    }
    let state = match copy_answer(&f.state) {
        Ok(s) => text::trimmed(s.as_str()),
        Err(e) => {
            return make_unprobed(device, None, e);
        },
    };
    let props = match copy_answer(&f.props) {
        Ok(p) => adb_device::parse_getprop_output(p.as_str()),
        Err(e) => {
            return make_unprobed(device, Some(state), e);
        },
    };
    let manufacturer = props.get("ro.product.manufacturer");
    let release = props.get("ro.build.version.release");
    let sdk = props.get("ro.build.version.sdk");
    let abi = props.get("ro.product.cpu.abi");
    let port = props.get("service.adb.tcp.port");
    let shell_ready = text::str_eq(state.as_str(), "device");
    let package = match copy_answer(&f.package) {
        Ok(path) => {
            let t = text::trimmed(path.as_str());
            if t.as_str().is_empty() {
                None
            } else {
                Some(t)
            }
        },
        Err(_) => None,
    };
    let sdcard = match copy_answer(&f.sdcard) {
        Ok(out) => text::str_eq(text::trimmed(out.as_str()).as_str(), "ready"),
        Err(_) => false,
    };
    let agent = probe_agent_capability(f);
    let checks = adb_device::build_preflight_checks(
        device,
        Some(state.as_str()),
        text::borrow_opt(&release),
        text::borrow_opt(&sdk),
        text::borrow_opt(&abi),
        text::borrow_opt(&port),
        text::borrow_opt(&package),
        Some(&agent),
        sdcard,
        shell_ready,
        None,
    );
    ProbedAdbDevice {
        discovered: device.clone(),
        adb_state: Some(state),
        manufacturer,
        android_release: release,
        sdk_level: sdk,
        cpu_abi: abi,
        adb_tcp_port: port,
        agent_package_path: package,
        wifi_agent_ip: agent.ip,
        wifi_agent_capability: agent.capability_json,
        remote_sdcard_ready: sdcard,
        shell_ready,
        probe_error: None,
        preflight_checks: checks,
    }
}

/// All devices with their answers.
pub fn probe_adb_devices(devices: &Vec<(DiscoveredAdbDevice, DeviceFacts)>) -> (r: Vec<
    ProbedAdbDevice,
>)
    ensures
        r@.len() == devices@.len(),
        forall|i: int|
            0 <= i < r@.len() ==> (#[trigger] r@[i])@ == probed(devices@[i].0@, devices@[i].1@),
{
    let mut out: Vec<ProbedAdbDevice> = Vec::new();
    let mut i: usize = 0;
    while i < devices.len()
        invariant
            i <= devices.len(),
            out@.len() == i,
            forall|k: int|
                0 <= k < i ==> (#[trigger] out@[k])@ == probed(devices@[k].0@, devices@[k].1@),
        decreases devices.len() - i,
    {
        out.push(probe_single_device(&devices[i].0, &devices[i].1));
        i += 1;
    }
    out
}

/// The number of questions still open.
pub open spec fn open_questions(f: FactsView) -> nat {
    let a: nat = if f.state is None { 1 } else { 0 };
    let b: nat = if f.props is None { 1 } else { 0 };
    let c: nat = if f.package is None { 1 } else { 0 };
    let d: nat = if f.sdcard is None { 1 } else { 0 };
    let e: nat = if f.route is None { 1 } else { 0 };
    let g: nat = if f.direct is None { 1 } else { 0 };
    let h: nat = if f.tunnel is None { 1 } else { 0 };
    a + b + c + d + e + g + h
}

/// A question is asked only while it is open, so the questions come to an end.
pub proof fn lemma_probe_ends(status: Seq<char>, f: FactsView)
    ensures
        match step(status, f) {
            ProbeStepView::State => f.state is None,
            ProbeStepView::Props => f.props is None,
            ProbeStepView::Package => f.package is None,
            ProbeStepView::Sdcard => f.sdcard is None,
            ProbeStepView::Route => f.route is None,
            ProbeStepView::Direct(_) => f.direct is None,
            ProbeStepView::Tunnel => f.tunnel is None,
            ProbeStepView::Done => true,
        },
        open_questions(f) == 0 ==> step(status, f) == ProbeStepView::Done,
{
}

/// The questions come in this order: its state, its properties, the package, the storage and the
/// route, each once those before it are answered. A device that is not ready is asked nothing,
/// and one that fails one of the first two questions nothing more. The network is tried where the
/// route tells an address, and the tunnel where the network did not lead to the agent.
pub proof fn lemma_questions_come_in_order(status: Seq<char>, f: FactsView)
    ensures
        status != "device"@ ==> step(status, f) == ProbeStepView::Done,
        status == "device"@ ==> {
            let asked = f.state matches Some(Ok(_));
            let told = asked && (f.props matches Some(Ok(_)));
            let ready = told && f.package is Some && f.sdcard is Some;
            let direct = match f.route {
                Some(Ok(out)) => adb_device::route_source(text::words(out)),
                _ => None,
            };
            &&& step(status, f) == ProbeStepView::State <==> f.state is None
            &&& step(status, f) == ProbeStepView::Props <==> asked && f.props is None
            &&& step(status, f) == ProbeStepView::Package <==> told && f.package is None
            &&& step(status, f) == ProbeStepView::Sdcard <==> told && f.package is Some
                && f.sdcard is None
            &&& step(status, f) == ProbeStepView::Route <==> ready && f.route is None
            &&& step(status, f) is Direct <==> ready && direct is Some && f.direct is None
            &&& step(status, f) matches ProbeStepView::Direct(ip) ==> direct == Some(ip)
            &&& step(status, f) == ProbeStepView::Tunnel <==> ready && f.route is Some
                && f.tunnel is None && (direct is None || (f.direct matches Some(Err(_))))
        },
{
}

/// The agent is told as there if and only if the network or the tunnel led to it, with what it
/// said there and with the network before the tunnel. Its address is that of the route.
pub proof fn lemma_agent_is_told_where_it_answered(f: FactsView, route: Seq<char>, ip: Seq<char>)
    requires
        f.route == Some(Ok::<Seq<char>, Seq<char>>(route)),
        adb_device::route_source(text::words(route)) == Some(ip),
    ensures
        capability(f).ip == Some(ip),
        (f.direct matches Some(Ok(j)) && capability(f).capability_json == Some(text::trim(j)))
            || !(f.direct matches Some(Ok(_))),
        !(f.direct matches Some(Ok(_))) ==> ((f.tunnel matches Some(Ok(j))
            && capability(f).capability_json == Some(text::trim(j))) || (!(f.tunnel matches Some(
            Ok(_),
        )) && capability(f).capability_json is None)),
{
}

/// Without an address the agent is told as there if and only if the tunnel led to it, and it has
/// no address then.
pub proof fn lemma_agent_without_an_address_is_told_by_the_tunnel(f: FactsView)
    requires
        !(f.route matches Some(Ok(out)) && adb_device::route_source(text::words(out)) is Some),
    ensures
        capability(f).ip is None,
        match f.tunnel {
            Some(Ok(j)) => capability(f).capability_json == Some(text::trim(j)),
            _ => capability(f).capability_json is None,
        },
{
}

/// A device is told with what it answered, and one that failed one of the first two questions, or
/// is not ready, with that error and with nothing ready.
pub proof fn lemma_device_is_told_as_it_answered(device: DeviceView, f: FactsView)
    ensures
        ({
            let p = probed(device, f);
            let asked = device.status == "device"@ && (f.state matches Some(Ok(_)));
            let told = asked && (f.props matches Some(Ok(_)));
            &&& p.discovered == device
            &&& p.probe_error is None <==> told
            &&& device.status != "device"@ ==> p.probe_error == Some(
                "device status is "@ + device.status,
            )
            &&& device.status == "device"@ ==> (f.state matches Some(Err(e)) ==> p.probe_error
                == Some(e))
            &&& asked ==> (f.props matches Some(Err(e)) ==> p.probe_error == Some(e))
            &&& asked ==> p.adb_state == Some(text::trim(f.state->0->Ok_0))
            &&& !asked ==> p.adb_state is None
            &&& p.shell_ready <==> told && text::trim(f.state->0->Ok_0) == "device"@
            &&& p.remote_sdcard_ready <==> told && (f.sdcard matches Some(Ok(out)) && text::trim(
                out,
            ) == "ready"@)
            &&& p.agent_package_path is Some <==> told && (f.package matches Some(Ok(path))
                && text::trim(path).len() > 0)
            &&& p.agent_package_path is Some ==> p.agent_package_path == Some(
                text::trim(f.package->0->Ok_0),
            )
            &&& told ==> p.wifi_agent_ip == capability(f).ip && p.wifi_agent_capability
                == capability(f).capability_json
            &&& !told ==> p.wifi_agent_ip is None && p.wifi_agent_capability is None
            &&& p.preflight_checks.len() == 9
            &&& p.preflight_checks[8].passed == told
            &&& p.preflight_checks[7].passed == p.remote_sdcard_ready
            &&& p.preflight_checks[6].passed == p.wifi_agent_capability is Some
            &&& p.preflight_checks[5].passed == p.agent_package_path is Some
            &&& p.preflight_checks[1].passed == p.shell_ready
        }),
{
}

/// What a device tells of itself stands in the fields that are meant for it.
pub proof fn lemma_properties_stand_in_their_fields(device: DeviceView, f: FactsView, out: Seq<char>)
    requires
        device.status == "device"@,
        f.state matches Some(Ok(_)),
        f.props == Some(Ok::<Seq<char>, Seq<char>>(out)),
    ensures
        ({
            let p = probed(device, f);
            let m = adb_device::props_of_lines(text::lines(out));
            let told = |v: Option<Seq<char>>, key: Seq<char>|
                match v {
                    Some(x) => m.contains_key(key) && m[key] == x,
                    None => !m.contains_key(key),
                };
            &&& told(p.manufacturer, "ro.product.manufacturer"@)
            &&& told(p.android_release, "ro.build.version.release"@)
            &&& told(p.sdk_level, "ro.build.version.sdk"@)
            &&& told(p.cpu_abi, "ro.product.cpu.abi"@)
            &&& told(p.adb_tcp_port, "service.adb.tcp.port"@)
        }),
{
}

} // verus!
