//! What the control panel and the tray do with the services: which buttons can be pressed,
//! and what pressing them does.

use crate::systemd::{
    ServiceStatus, UNIT_RELAY, UNIT_WL_APPLY, UNIT_WL_WATCH, UNIT_X11_SYNC,
};
use vstd::prelude::*;

verus! {

/// One of the services.
#[derive(Clone, Copy, Debug, PartialEq, Eq, Structural)]
pub enum Service {
    Relay,
    Watch,
    Apply,
    X11,
}

/// What a service is called in the log.
pub open spec fn service_name(s: Service) -> Seq<char> {
    match s {
        Service::Relay => "relay"@,
        Service::Watch => "wl-watch"@,
        Service::Apply => "wl-apply"@,
        Service::X11 => "x11-sync"@,
    }
}

/// What a service's process is called in the log.
pub open spec fn process_name(s: Service) -> Seq<char> {
    match s {
        Service::Relay => "relay"@,
        Service::Watch => "node wl-watch"@,
        Service::Apply => "node wl-apply"@,
        Service::X11 => "node x11-sync"@,
    }
}

/// A service's unit.
pub open spec fn service_unit(s: Service) -> Seq<char> {
    match s {
        Service::Relay => UNIT_RELAY@,
        Service::Watch => UNIT_WL_WATCH@,
        Service::Apply => UNIT_WL_APPLY@,
        Service::X11 => UNIT_X11_SYNC@,
    }
}

impl Service {
    /// What the service is called in the log.
    pub fn name(&self) -> (res: &'static str)
        ensures
            res@ == service_name(*self),
    {
        match self {
            Service::Relay => "relay",
            Service::Watch => "wl-watch",
            Service::Apply => "wl-apply",
            Service::X11 => "x11-sync",
        }
    }

    /// What the service's process is called in the log.
    pub fn process(&self) -> (res: &'static str)
        ensures
            res@ == process_name(*self),
    {
        match self {
            Service::Relay => "relay",
            Service::Watch => "node wl-watch",
            Service::Apply => "node wl-apply",
            Service::X11 => "node x11-sync",
        }
    }

    /// The service's unit.
    pub fn unit(&self) -> (res: &'static str)
        ensures
            res@ == service_unit(*self),
    {
        match self {
            Service::Relay => UNIT_RELAY,
            Service::Watch => UNIT_WL_WATCH,
            Service::Apply => UNIT_WL_APPLY,
            Service::X11 => UNIT_X11_SYNC,
        }
    }
}

/// The service runs.
pub open spec fn runs(st: ServiceStatus, s: Service) -> bool {
    match s {
        Service::Relay => st.relay,
        Service::Watch => st.watch,
        Service::Apply => st.apply,
        Service::X11 => st.x11,
    }
}

/// Whether the service runs.
pub fn service_runs(st: ServiceStatus, s: Service) -> (res: bool)
    ensures
        res == runs(st, s),
{
    match s {
        Service::Relay => st.relay,
        Service::Watch => st.watch,
        Service::Apply => st.apply,
        Service::X11 => st.x11,
    }
}

/// Which services run: as systemd says where it is used, else those that were started
/// here.
pub fn current_status(systemd: bool, units: ServiceStatus, children: ServiceStatus) -> (res:
    ServiceStatus)
    ensures
        res == if systemd {
            units
        } else {
            children
        },
{
    if systemd {
        units
    } else {
        children
    }
}

/// Which buttons for all services can be pressed.
#[derive(Clone, Copy, Debug, PartialEq, Eq, Structural)]
pub struct AllButtons {
    pub start: bool,
    pub stop: bool,
}

/// Which buttons for all services can be pressed. The sync with X11 counts for starting
/// only where systemd runs it.
pub fn all_buttons(st: ServiceStatus, systemd: bool) -> (res: AllButtons)
    ensures
        res.start == !(runs(st, Service::Relay) && runs(st, Service::Watch) && runs(
            st,
            Service::Apply,
        ) && (systemd ==> runs(st, Service::X11))),
        res.stop == exists|s: Service| runs(st, s),
{
    let stop = st.relay || st.watch || st.apply || st.x11;
    proof {
        if st.relay {
            assert(runs(st, Service::Relay));
        }
        if st.watch {
            assert(runs(st, Service::Watch));
        }
        if st.apply {
            assert(runs(st, Service::Apply));
        }
        if st.x11 {
            assert(runs(st, Service::X11));
        }
    }
    AllButtons { start: !(st.relay && st.watch && st.apply && (!systemd || st.x11)), stop }
}

/// One step of what a button does.
#[verifier::ext_equal]
pub enum ServiceStepView {
    WriteEnv,
    StartUnit(Service, bool),
    StopUnit(Service, bool),
    Spawn(Service),
    Terminate(Service),
    Say(Seq<char>),
}

/// One step of what a button does.
#[derive(Debug)]
pub enum ServiceStep {
    /// Write the services' environment.
    WriteEnv,
    /// Start the service's unit, and log how that went where the flag is set.
    StartUnit(Service, bool),
    /// Stop the service's unit, and log how that went where the flag is set.
    StopUnit(Service, bool),
    /// Start the service's program here, and log how that went.
    Spawn(Service),
    /// End the service's program that was started here.
    Terminate(Service),
    /// Log a line.
    Say(String),
}

impl View for ServiceStep {
    type V = ServiceStepView;

    open spec fn view(&self) -> ServiceStepView {
        match self {
            ServiceStep::WriteEnv => ServiceStepView::WriteEnv,
            ServiceStep::StartUnit(s, r) => ServiceStepView::StartUnit(*s, *r),
            ServiceStep::StopUnit(s, r) => ServiceStepView::StopUnit(*s, *r),
            ServiceStep::Spawn(s) => ServiceStepView::Spawn(*s),
            ServiceStep::Terminate(s) => ServiceStepView::Terminate(*s),
            ServiceStep::Say(l) => ServiceStepView::Say(l@),
        }
    }
}

impl DeepView for ServiceStep {
    type V = ServiceStepView;

    open spec fn deep_view(&self) -> ServiceStepView {
        self@
    }
}

/// What is said where the node is too old for the sync with X11.
pub const NO_X11_SYNC: &'static str = "multicliprelay-node does not support x11-sync; please upgrade/reinstall binaries (or adjust unit ExecStart)";

/// Text put together.
fn say(a: &str, b: &str) -> (res: ServiceStep)
    ensures
        res@ == ServiceStepView::Say(a@ + b@),
{
    let mut line = a.to_string();
    line.append(b);
    ServiceStep::Say(line)
}

/// What the panel's button to start a service does. `node_has_x11` tells that the node
/// knows the sync with X11.
pub open spec fn panel_start(s: Service, systemd: bool, running: bool, node_has_x11: bool) -> Seq<
    ServiceStepView,
> {
    if systemd {
        if s == Service::X11 && !node_has_x11 {
            seq![ServiceStepView::Say(NO_X11_SYNC@)]
        } else {
            seq![ServiceStepView::WriteEnv, ServiceStepView::StartUnit(s, true)]
        }
    } else if running {
        seq![ServiceStepView::Say(service_name(s) + " already running"@)]
    } else {
        seq![ServiceStepView::Spawn(s)]
    }
}

/// What the panel's button to start a service does.
pub fn panel_start_of(s: Service, systemd: bool, running: bool, node_has_x11: bool) -> (res: Vec<
    ServiceStep,
>)
    ensures
        res.deep_view() == panel_start(s, systemd, running, node_has_x11),
{
    let mut out: Vec<ServiceStep> = Vec::new();
    if systemd {
        if s == Service::X11 && !node_has_x11 {
            out.push(ServiceStep::Say(NO_X11_SYNC.to_string()));
        } else {
            out.push(ServiceStep::WriteEnv);
            out.push(ServiceStep::StartUnit(s, true));
        }
    } else if running {
        out.push(say(s.name(), " already running"));
    } else {
        out.push(ServiceStep::Spawn(s));
    }
    assert(out.deep_view() =~= panel_start(s, systemd, running, node_has_x11));
    out
}

/// What the panel's button to stop a service does.
pub open spec fn panel_stop(s: Service, systemd: bool, running: bool) -> Seq<ServiceStepView> {
    if systemd {
        seq![ServiceStepView::StopUnit(s, true)]
    } else if running {
        seq![
            ServiceStepView::Terminate(s),
            ServiceStepView::Say("stopping "@ + service_name(s)),
        ]
    } else {
        seq![ServiceStepView::Say(service_name(s) + " not running"@)]
    }
}

/// What the panel's button to stop a service does.
pub fn panel_stop_of(s: Service, systemd: bool, running: bool) -> (res: Vec<ServiceStep>)
    ensures
        res.deep_view() == panel_stop(s, systemd, running),
{
    let mut out: Vec<ServiceStep> = Vec::new();
    if systemd {
        out.push(ServiceStep::StopUnit(s, true));
    } else if running {
        out.push(ServiceStep::Terminate(s));
        out.push(say("stopping ", s.name()));
    } else {
        out.push(say(s.name(), " not running"));
    }
    assert(out.deep_view() =~= panel_stop(s, systemd, running));
    out
}

/// Some steps, where a condition holds.
pub open spec fn steps_if(c: bool, steps: Seq<ServiceStepView>) -> Seq<ServiceStepView> {
    if c {
        steps
    } else {
        Seq::empty()
    }
}

/// What the panel's button to start all services does. Without systemd the sync with X11
/// is not among them.
pub open spec fn panel_start_all(st: ServiceStatus, systemd: bool, node_has_x11: bool) -> Seq<
    ServiceStepView,
> {
    if systemd {
        if !node_has_x11 {
            seq![ServiceStepView::Say(NO_X11_SYNC@)]
        } else {
            seq![
                ServiceStepView::WriteEnv,
                ServiceStepView::StartUnit(Service::Relay, false),
                ServiceStepView::StartUnit(Service::Watch, false),
                ServiceStepView::StartUnit(Service::Apply, false),
                ServiceStepView::StartUnit(Service::X11, false),
                ServiceStepView::Say("started all (systemd)"@),
            ]
        }
    } else {
        steps_if(!st.relay, seq![ServiceStepView::Spawn(Service::Relay)]) + steps_if(
            !st.watch,
            seq![ServiceStepView::Spawn(Service::Watch)],
        ) + steps_if(!st.apply, seq![ServiceStepView::Spawn(Service::Apply)])
    }
}

/// What the panel's button to start all services does.
pub fn panel_start_all_of(st: ServiceStatus, systemd: bool, node_has_x11: bool) -> (res: Vec<
    ServiceStep,
>)
    ensures
        res.deep_view() == panel_start_all(st, systemd, node_has_x11),
{
    let mut out: Vec<ServiceStep> = Vec::new();
    if systemd {
        if !node_has_x11 {
            out.push(ServiceStep::Say(NO_X11_SYNC.to_string()));
        } else {
            out.push(ServiceStep::WriteEnv);
            out.push(ServiceStep::StartUnit(Service::Relay, false));
            out.push(ServiceStep::StartUnit(Service::Watch, false));
            out.push(ServiceStep::StartUnit(Service::Apply, false));
            out.push(ServiceStep::StartUnit(Service::X11, false));
            out.push(ServiceStep::Say("started all (systemd)".to_string()));
        }
    } else {
        if !st.relay {
            out.push(ServiceStep::Spawn(Service::Relay));
        }
        if !st.watch {
            out.push(ServiceStep::Spawn(Service::Watch));
        }
        if !st.apply {
            out.push(ServiceStep::Spawn(Service::Apply));
        }
    }
    assert(out.deep_view() =~= panel_start_all(st, systemd, node_has_x11));
    out
}

/// The steps that end the programs which run, each with what is said of it.
pub open spec fn stop_running(st: ServiceStatus) -> Seq<ServiceStepView> {
    steps_if(st.x11, panel_stop(Service::X11, false, true)) + steps_if(
        st.watch,
        panel_stop(Service::Watch, false, true),
    ) + steps_if(st.apply, panel_stop(Service::Apply, false, true)) + steps_if(
        st.relay,
        panel_stop(Service::Relay, false, true),
    )
}

/// What the panel's button to stop all services does. The relay is stopped last.
pub open spec fn panel_stop_all(st: ServiceStatus, systemd: bool) -> Seq<ServiceStepView> {
    if systemd {
        seq![
            ServiceStepView::StopUnit(Service::X11, false),
            ServiceStepView::StopUnit(Service::Watch, false),
            ServiceStepView::StopUnit(Service::Apply, false),
            ServiceStepView::StopUnit(Service::Relay, false),
            ServiceStepView::Say("stopping all (systemd)"@),
        ]
    } else {
        stop_running(st)
    }
}

/// Adds the steps that end a program.
fn push_stop(out: &mut Vec<ServiceStep>, s: Service, running: bool)
    ensures
        final(out).deep_view() == old(out).deep_view() + steps_if(
            running,
            panel_stop(s, false, true),
        ),
{
    if running {
        let ghost before = out.deep_view();
        let a = ServiceStep::Terminate(s);
        let b = say("stopping ", s.name());
        out.push(a);
        out.push(b);
        assert(out.deep_view() =~= before.push(a@).push(b@));
    }
    assert(out.deep_view() =~= old(out).deep_view() + steps_if(
        running,
        panel_stop(s, false, true),
    ));
}

/// What the panel's button to stop all services does.
pub fn panel_stop_all_of(st: ServiceStatus, systemd: bool) -> (res: Vec<ServiceStep>)
    ensures
        res.deep_view() == panel_stop_all(st, systemd),
{
    let mut out: Vec<ServiceStep> = Vec::new();
    if systemd {
        out.push(ServiceStep::StopUnit(Service::X11, false));
        out.push(ServiceStep::StopUnit(Service::Watch, false));
        out.push(ServiceStep::StopUnit(Service::Apply, false));
        out.push(ServiceStep::StopUnit(Service::Relay, false));
        out.push(ServiceStep::Say("stopping all (systemd)".to_string()));
        assert(out.deep_view() =~= panel_stop_all(st, systemd));
    } else {
        assert(out.deep_view() =~= Seq::<ServiceStepView>::empty());
        push_stop(&mut out, Service::X11, st.x11);
        push_stop(&mut out, Service::Watch, st.watch);
        push_stop(&mut out, Service::Apply, st.apply);
        push_stop(&mut out, Service::Relay, st.relay);
        assert(out.deep_view() =~= panel_stop_all(st, systemd));
    }
    out
}

/// A step ends the program of a service.
pub open spec fn ends(steps: Seq<ServiceStepView>, s: Service) -> bool {
    exists|i: int| 0 <= i < steps.len() && #[trigger] steps[i] == ServiceStepView::Terminate(s)
}

/// Stopping all without systemd ends the programs that run, and no others.
pub proof fn law_stop_all_ends_what_runs(st: ServiceStatus, s: Service)
    ensures
        ends(panel_stop_all(st, false), s) <==> runs(st, s),
{
    let steps = panel_stop_all(st, false);
    let x = steps_if(st.x11, panel_stop(Service::X11, false, true)).len() as int;
    let w = steps_if(st.watch, panel_stop(Service::Watch, false, true)).len() as int;
    let a = steps_if(st.apply, panel_stop(Service::Apply, false, true)).len() as int;
    if st.x11 {
        assert(steps[0] == ServiceStepView::Terminate(Service::X11));
    }
    if st.watch {
        assert(steps[x] == ServiceStepView::Terminate(Service::Watch));
    }
    if st.apply {
        assert(steps[x + w] == ServiceStepView::Terminate(Service::Apply));
    }
    if st.relay {
        assert(steps[x + w + a] == ServiceStepView::Terminate(Service::Relay));
    }
}

/// A step starts the program of a service.
pub open spec fn spawns(steps: Seq<ServiceStepView>, s: Service) -> bool {
    exists|i: int| 0 <= i < steps.len() && #[trigger] steps[i] == ServiceStepView::Spawn(s)
}

/// No button and no entry of the tray starts the program of a service that runs already. A
/// unit is left to systemd, which starts none twice.
pub proof fn law_running_service_is_not_started(
    st: ServiceStatus,
    s: Service,
    systemd: bool,
    active: bool,
    node_has_x11: bool,
)
    requires
        runs(st, s),
    ensures
        !spawns(panel_start(s, systemd, true, node_has_x11), s),
        !spawns(panel_start_all(st, systemd, node_has_x11), s),
        !spawns(tray_start(s, systemd, active, true, node_has_x11), s),
{
}

/// What closing the panel does: without systemd the programs that run are ended.
pub open spec fn panel_close(st: ServiceStatus, systemd: bool) -> Seq<ServiceStepView> {
    if systemd {
        Seq::empty()
    } else {
        steps_if(st.x11, seq![ServiceStepView::Terminate(Service::X11)]) + steps_if(
            st.watch,
            seq![ServiceStepView::Terminate(Service::Watch)],
        ) + steps_if(st.apply, seq![ServiceStepView::Terminate(Service::Apply)]) + steps_if(
            st.relay,
            seq![ServiceStepView::Terminate(Service::Relay)],
        )
    }
}

/// What closing the panel does.
pub fn panel_close_of(st: ServiceStatus, systemd: bool) -> (res: Vec<ServiceStep>)
    ensures
        res.deep_view() == panel_close(st, systemd),
{
    let mut out: Vec<ServiceStep> = Vec::new();
    if !systemd {
        if st.x11 {
            out.push(ServiceStep::Terminate(Service::X11));
        }
        if st.watch {
            out.push(ServiceStep::Terminate(Service::Watch));
        }
        if st.apply {
            out.push(ServiceStep::Terminate(Service::Apply));
        }
        if st.relay {
            out.push(ServiceStep::Terminate(Service::Relay));
        }
    }
    assert(out.deep_view() =~= panel_close(st, systemd));
    out
}

/// What the tray's entry to start a service does. `active` tells that the service's unit
/// is active already, `child` that its program was started here. Without systemd the tray
/// has nothing to do with the sync with X11.
pub open spec fn tray_start(
    s: Service,
    systemd: bool,
    active: bool,
    child: bool,
    node_has_x11: bool,
) -> Seq<ServiceStepView> {
    if systemd {
        if (s == Service::Watch || s == Service::Apply) && active {
            Seq::empty()
        } else if s == Service::X11 && !node_has_x11 {
            seq![ServiceStepView::Say(NO_X11_SYNC@)]
        } else {
            seq![ServiceStepView::WriteEnv, ServiceStepView::StartUnit(s, true)]
        }
    } else if s == Service::X11 || child {
        Seq::empty()
    } else {
        seq![ServiceStepView::Spawn(s)]
    }
}

/// What the tray's entry to start a service does.
pub fn tray_start_of(
    s: Service,
    systemd: bool,
    active: bool,
    child: bool,
    node_has_x11: bool,
) -> (res: Vec<ServiceStep>)
    ensures
        res.deep_view() == tray_start(s, systemd, active, child, node_has_x11),
{
    let mut out: Vec<ServiceStep> = Vec::new();
    if systemd {
        if (s == Service::Watch || s == Service::Apply) && active {
        } else if s == Service::X11 && !node_has_x11 {
            out.push(ServiceStep::Say(NO_X11_SYNC.to_string()));
        } else {
            out.push(ServiceStep::WriteEnv);
            out.push(ServiceStep::StartUnit(s, true));
        }
    } else if s == Service::X11 || child {
    } else {
        out.push(ServiceStep::Spawn(s));
    }
    assert(out.deep_view() =~= tray_start(s, systemd, active, child, node_has_x11));
    out
}

/// What the tray's entry to stop a service does.
pub open spec fn tray_stop(s: Service, systemd: bool, child: bool) -> Seq<ServiceStepView> {
    if systemd {
        seq![ServiceStepView::StopUnit(s, true)]
    } else if s != Service::X11 && child {
        seq![ServiceStepView::Terminate(s)]
    } else {
        Seq::empty()
    }
}

/// What the tray's entry to stop a service does.
pub fn tray_stop_of(s: Service, systemd: bool, child: bool) -> (res: Vec<ServiceStep>)
    ensures
        res.deep_view() == tray_stop(s, systemd, child),
{
    let mut out: Vec<ServiceStep> = Vec::new();
    if systemd {
        out.push(ServiceStep::StopUnit(s, true));
    } else if s != Service::X11 && child {
        out.push(ServiceStep::Terminate(s));
    }
    assert(out.deep_view() =~= tray_stop(s, systemd, child));
    out
}

/// The order in which the tray starts all services.
pub fn tray_start_order() -> (res: [Service; 4])
    ensures
        res@ == seq![Service::Relay, Service::Apply, Service::Watch, Service::X11],
{
    let res = [Service::Relay, Service::Apply, Service::Watch, Service::X11];
    assert(res@ =~= seq![Service::Relay, Service::Apply, Service::Watch, Service::X11]);
    res
}

/// The order in which the tray stops all services.
pub fn tray_stop_order() -> (res: [Service; 4])
    ensures
        res@ == seq![Service::X11, Service::Watch, Service::Apply, Service::Relay],
{
    let res = [Service::X11, Service::Watch, Service::Apply, Service::Relay];
    assert(res@ =~= seq![Service::X11, Service::Watch, Service::Apply, Service::Relay]);
    res
}

/// The order in which all services are started where there is no sync with X11.
pub fn start_order() -> (res: [Service; 3])
    ensures
        res@ == seq![Service::Relay, Service::Apply, Service::Watch],
{
    let res = [Service::Relay, Service::Apply, Service::Watch];
    assert(res@ =~= seq![Service::Relay, Service::Apply, Service::Watch]);
    res
}

/// The order in which all services are stopped where there is no sync with X11.
pub fn stop_order() -> (res: [Service; 3])
    ensures
        res@ == seq![Service::Watch, Service::Apply, Service::Relay],
{
    let res = [Service::Watch, Service::Apply, Service::Relay];
    assert(res@ =~= seq![Service::Watch, Service::Apply, Service::Relay]);
    res
}

/// The name of a service where the node's commands are not told apart by the system they are
/// for.
pub open spec fn short_service_name(s: Service) -> Seq<char> {
    match s {
        Service::Relay => "relay"@,
        Service::Watch => "watch"@,
        Service::Apply => "apply"@,
        Service::X11 => "x11-sync"@,
    }
}

/// The short name of a service.
pub fn short_name(s: Service) -> (res: &'static str)
    ensures
        res@ == short_service_name(s),
{
    match s {
        Service::Relay => "relay",
        Service::Watch => "watch",
        Service::Apply => "apply",
        Service::X11 => "x11-sync",
    }
}

/// What is added to a line of the log where systemd did the work.
pub open spec fn by_systemd(systemd: bool) -> Seq<char> {
    if systemd {
        " (systemd)"@
    } else {
        Seq::empty()
    }
}

/// What is said after a service was started or stopped: how that went. `error` is what
/// went wrong, if something did.
pub open spec fn outcome_line(start: bool, s: Service, systemd: bool, error: Option<Seq<char>>) -> Seq<
    char,
> {
    match error {
        None => (if start {
            "started "@
        } else {
            "stopping "@
        }) + service_name(s) + by_systemd(systemd),
        Some(e) => (if start {
            "failed to start "@
        } else {
            "failed to stop "@
        }) + service_name(s) + by_systemd(systemd) + ": "@ + e,
    }
}

/// What is said after a service was started or stopped.
pub fn outcome_line_of(start: bool, s: Service, systemd: bool, error: Option<&str>) -> (res: String)
    ensures
        res@ == outcome_line(start, s, systemd, crate::apply::opt_str(error)),
{
    let mut out = match (error.is_none(), start) {
        (true, true) => "started ".to_string(),
        (true, false) => "stopping ".to_string(),
        (false, true) => "failed to start ".to_string(),
        (false, false) => "failed to stop ".to_string(),
    };
    out.append(s.name());
    if systemd {
        out.append(" (systemd)");
    }
    if let Some(e) = error {
        out.append(": ");
        out.append(e);
    }
    assert(out@ =~= outcome_line(start, s, systemd, crate::apply::opt_str(error)));
    out
}

/// What is said of a service whose program ended by itself.
pub fn exited_line(s: Service) -> (res: String)
    ensures
        res@ == service_name(s) + " exited"@,
{
    let mut out = s.name().to_string();
    out.append(" exited");
    out
}

/// A step starts the service, as a unit or as a program.
pub open spec fn starts(steps: Seq<ServiceStepView>, s: Service, systemd: bool) -> bool {
    if systemd {
        exists|i: int|
            0 <= i < steps.len() && (#[trigger] steps[i] matches ServiceStepView::StartUnit(t, _)
                && t == s)
    } else {
        spawns(steps, s)
    }
}

/// A step stops the service, as a unit or as a program.
pub open spec fn stops(steps: Seq<ServiceStepView>, s: Service, systemd: bool) -> bool {
    if systemd {
        exists|i: int|
            0 <= i < steps.len() && (#[trigger] steps[i] matches ServiceStepView::StopUnit(t, _) && t
                == s)
    } else {
        ends(steps, s)
    }
}

/// The panel's button to start a service starts that service and no other, where it does not
/// run as a program already and the node knows it; the environment is written before a unit
/// is started.
pub proof fn law_start_button_starts(
    s: Service,
    t: Service,
    systemd: bool,
    running: bool,
    node_has_x11: bool,
)
    ensures
        starts(panel_start(s, systemd, running, node_has_x11), t, systemd) <==> t == s && (systemd
            && (s != Service::X11 || node_has_x11) || !systemd && !running),
        systemd && starts(panel_start(s, systemd, running, node_has_x11), s, true) ==> panel_start(
            s,
            systemd,
            running,
            node_has_x11,
        )[0] is WriteEnv,
        !stops(panel_start(s, systemd, running, node_has_x11), t, systemd),
{
    let p = panel_start(s, systemd, running, node_has_x11);
    if systemd && (s != Service::X11 || node_has_x11) {
        assert(p[1] == ServiceStepView::StartUnit(s, true));
    }
    if !systemd && !running {
        assert(p[0] == ServiceStepView::Spawn(s));
    }
}

/// The panel's button to stop a service stops that service and no other, where it is a unit or
/// runs as a program.
pub proof fn law_stop_button_stops(s: Service, t: Service, systemd: bool, running: bool)
    ensures
        stops(panel_stop(s, systemd, running), t, systemd) <==> t == s && (systemd || running),
        !starts(panel_stop(s, systemd, running), t, systemd),
{
    let p = panel_stop(s, systemd, running);
    if systemd {
        assert(p[0] == ServiceStepView::StopUnit(s, true));
    } else if running {
        assert(p[0] == ServiceStepView::Terminate(s));
    }
}

/// The panel's button to start all services starts every one of them where systemd runs them
/// and the node knows the sync with X11; without systemd it starts those of the other three
/// that do not run.
pub proof fn law_start_all_starts_all(st: ServiceStatus, s: Service, systemd: bool, node_has_x11: bool)
    ensures
        starts(panel_start_all(st, systemd, node_has_x11), s, systemd) <==> systemd && node_has_x11
            || !systemd && s != Service::X11 && !runs(st, s),
        systemd && node_has_x11 ==> panel_start_all(st, systemd, node_has_x11)[0] is WriteEnv,
{
    let p = panel_start_all(st, systemd, node_has_x11);
    if systemd && node_has_x11 {
        assert(p[1] == ServiceStepView::StartUnit(Service::Relay, false));
        assert(p[2] == ServiceStepView::StartUnit(Service::Watch, false));
        assert(p[3] == ServiceStepView::StartUnit(Service::Apply, false));
        assert(p[4] == ServiceStepView::StartUnit(Service::X11, false));
    }
    if !systemd {
        let r = steps_if(!st.relay, seq![ServiceStepView::Spawn(Service::Relay)]).len() as int;
        let w = steps_if(!st.watch, seq![ServiceStepView::Spawn(Service::Watch)]).len() as int;
        if !st.relay {
            assert(p[0] == ServiceStepView::Spawn(Service::Relay));
        }
        if !st.watch {
            assert(p[r] == ServiceStepView::Spawn(Service::Watch));
        }
        if !st.apply {
            assert(p[r + w] == ServiceStepView::Spawn(Service::Apply));
        }
    }
}

/// The panel's button to stop all services stops every one of them: each unit where systemd
/// runs them, and the programs that run without it. The relay is stopped after the others.
pub proof fn law_stop_all_stops_all(st: ServiceStatus, s: Service)
    ensures
        stops(panel_stop_all(st, true), s, true),
        stops(panel_stop_all(st, false), s, false) <==> runs(st, s),
        forall|i: int, j: int|
            0 <= i < panel_stop_all(st, true).len() && 0 <= j < panel_stop_all(st, true).len() && (
            #[trigger] panel_stop_all(st, true)[i] matches ServiceStepView::StopUnit(a, _) && a
                == Service::Relay) && (
            #[trigger] panel_stop_all(st, true)[j] matches ServiceStepView::StopUnit(b, _) && b
                != Service::Relay) ==> j < i,
{
    let p = panel_stop_all(st, true);
    assert(p[0] == ServiceStepView::StopUnit(Service::X11, false));
    assert(p[1] == ServiceStepView::StopUnit(Service::Watch, false));
    assert(p[2] == ServiceStepView::StopUnit(Service::Apply, false));
    assert(p[3] == ServiceStepView::StopUnit(Service::Relay, false));
    law_stop_all_ends_what_runs(st, s);
}

/// Closing the panel ends the programs that it started and that still run; what systemd runs
/// is left alone.
pub proof fn law_closing_ends_what_runs(st: ServiceStatus, s: Service)
    ensures
        ends(panel_close(st, false), s) <==> runs(st, s),
        panel_close(st, true).len() == 0,
{
    let p = panel_close(st, false);
    let x = steps_if(st.x11, seq![ServiceStepView::Terminate(Service::X11)]).len() as int;
    let w = steps_if(st.watch, seq![ServiceStepView::Terminate(Service::Watch)]).len() as int;
    let a = steps_if(st.apply, seq![ServiceStepView::Terminate(Service::Apply)]).len() as int;
    if st.x11 {
        assert(p[0] == ServiceStepView::Terminate(Service::X11));
    }
    if st.watch {
        assert(p[x] == ServiceStepView::Terminate(Service::Watch));
    }
    if st.apply {
        assert(p[x + w] == ServiceStepView::Terminate(Service::Apply));
    }
    if st.relay {
        assert(p[x + w + a] == ServiceStepView::Terminate(Service::Relay));
    }
}

/// The tray's entry to start a service starts that service and no other: as a unit, unless it
/// is one of the node's two and active already or the node does not know it, and without
/// systemd as a program, unless it runs or is the sync with X11.
pub proof fn law_tray_starts(
    s: Service,
    t: Service,
    systemd: bool,
    active: bool,
    child: bool,
    node_has_x11: bool,
)
    ensures
        starts(tray_start(s, systemd, active, child, node_has_x11), t, systemd) <==> t == s && if systemd {
            !((s == Service::Watch || s == Service::Apply) && active) && (s != Service::X11
                || node_has_x11)
        } else {
            s != Service::X11 && !child
        },
        !stops(tray_start(s, systemd, active, child, node_has_x11), t, systemd),
{
    let p = tray_start(s, systemd, active, child, node_has_x11);
    if systemd && p.len() == 2 {
        assert(p[1] == ServiceStepView::StartUnit(s, true));
    }
    if !systemd && p.len() == 1 {
        assert(p[0] == ServiceStepView::Spawn(s));
    }
}

/// The tray's entry to stop a service stops that service and no other.
pub proof fn law_tray_stops(s: Service, t: Service, systemd: bool, child: bool)
    ensures
        stops(tray_stop(s, systemd, child), t, systemd) <==> t == s && (systemd || s != Service::X11
            && child),
        !starts(tray_stop(s, systemd, child), t, systemd),
{
    let p = tray_stop(s, systemd, child);
    if systemd {
        assert(p[0] == ServiceStepView::StopUnit(s, true));
    } else if s != Service::X11 && child {
        assert(p[0] == ServiceStepView::Terminate(s));
    }
}

/// Services are told apart by their names, the names of their processes and their units.
pub proof fn law_services_are_told_apart(a: Service, b: Service)
    requires
        service_name(a) == service_name(b) || process_name(a) == process_name(b) || service_unit(a)
            == service_unit(b) || short_service_name(a) == short_service_name(b),
    ensures
        a == b,
{
    reveal_strlit("relay");
    reveal_strlit("wl-watch");
    reveal_strlit("wl-apply");
    reveal_strlit("x11-sync");
    reveal_strlit("watch");
    reveal_strlit("apply");
    reveal_strlit("node wl-watch");
    reveal_strlit("node wl-apply");
    reveal_strlit("node x11-sync");
    reveal_strlit("multicliprelay-relay.service");
    reveal_strlit("multicliprelay-wl-watch.service");
    reveal_strlit("multicliprelay-wl-apply.service");
    reveal_strlit("multicliprelay-x11-sync.service");
    assert("relay"@.len() == 5 && "wl-watch"@.len() == 8 && "node wl-watch"@.len() == 13);
    assert("relay"@[0] == 'r' && "watch"@[0] == 'w' && "apply"@[0] == 'a' && "x11-sync"@[0] == 'x');
    assert("wl-watch"@[3] == 'w' && "wl-apply"@[3] == 'a' && "x11-sync"@[3] == '-');
    assert("node wl-watch"@[8] == 'w' && "node wl-apply"@[8] == 'a' && "node x11-sync"@[8] == '-');
    assert("multicliprelay-relay.service"@.len() == 28);
    assert("multicliprelay-wl-watch.service"@.len() == 31);
    assert("multicliprelay-wl-watch.service"@[18] == 'w');
    assert("multicliprelay-wl-apply.service"@[18] == 'a');
    assert("multicliprelay-x11-sync.service"@[18] == '-');
}

/// How starting or stopping went is told with the service's name, and what went wrong last.
pub proof fn law_errors_are_told(start: bool, s: Service, systemd: bool, e: Seq<char>)
    ensures
        e.is_suffix_of(outcome_line(start, s, systemd, Some(e))),
        outcome_line(true, s, systemd, None) == "started "@ + service_name(s) + by_systemd(systemd),
        outcome_line(false, s, systemd, None) == "stopping "@ + service_name(s) + by_systemd(
            systemd,
        ),
        outcome_line(start, s, true, None) == outcome_line(start, s, false, None) + " (systemd)"@,
{
    let l = outcome_line(start, s, systemd, Some(e));
    assert(e =~= l.subrange(l.len() - e.len(), l.len() as int));
    assert(outcome_line(start, s, true, None) =~= outcome_line(start, s, false, None)
        + " (systemd)"@);
}

} // verus!
