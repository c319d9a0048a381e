//! Making sure that the gateway service runs.
//!
//! The procedure is a sequence of questions and answers. It looks twice whether a
//! gateway runs already: once before it finds out how to start one, and once more,
//! with nobody else at it, before it starts one.

use vstd::prelude::*;

use crate::gateway::config::GatewayConfigFile;
use crate::gateway::service;
use crate::gateway::service::{
    codexl_gateway_usage_webhook_url, gateway_usage_capture_enabled, AppConfig,
    GatewayServiceStatus, StatusView,
};
use crate::json::JsonTree;
use crate::text;
use crate::text::text_eq;

verus! {

/// What is known of the gateway process that this application started: that there
/// is none, why it is not known, that it ended, or that it lives.
pub enum ManagedReport {
    Absent,
    Failed(String),
    Exited,
    Alive { pid: u32, health_url: String },
}

/// How the gateway is to be started.
pub struct StartPlan {
    pub config_path: String,
    pub usage_webhook_url: Option<String>,
}

/// What is to be done or found out next, or what came of it all. With a plan, the
/// procedure looks for a running gateway for the second time.
pub enum Startup {
    AskHealthUrl,
    AskManaged { health_url: String, plan: Option<StartPlan> },
    ProbeManaged { health_url: String, plan: Option<StartPlan>, pid: u32 },
    ForgetManaged { health_url: String, plan: Option<StartPlan> },
    ProbeHealth { health_url: String, plan: Option<StartPlan> },
    ResolveExtension { health_url: String },
    ReadConfig { health_url: String },
    ReadAppConfig { health_url: String, config_path: String },
    Start { health_url: String, start_plan: StartPlan },
    AwaitReady { health_url: String, pid: u32 },
    Done(Result<GatewayServiceStatus, String>),
}

/// What was done or found out.
pub enum StartupEvent {
    HealthUrl(Result<String, String>),
    Managed(ManagedReport),
    Health(bool),
    Forgotten,
    Resolved(Result<(), String>),
    Config(Result<GatewayConfigFile, String>),
    App(AppConfig),
    Started(Result<u32, String>),
    Ready(Result<(), String>),
}

/// The mathematical view of what is known of the process.
pub enum ManagedView {
    Absent,
    Failed(Seq<char>),
    Exited,
    Alive { pid: u32, health_url: Seq<char> },
}

/// The mathematical view of a plan.
pub struct PlanView {
    pub config_path: Seq<char>,
    pub usage_webhook_url: Option<Seq<char>>,
}

/// The mathematical view of what is to be done next.
pub enum StartupView {
    AskHealthUrl,
    AskManaged { health_url: Seq<char>, plan: Option<PlanView> },
    ProbeManaged { health_url: Seq<char>, plan: Option<PlanView>, pid: u32 },
    ForgetManaged { health_url: Seq<char>, plan: Option<PlanView> },
    ProbeHealth { health_url: Seq<char>, plan: Option<PlanView> },
    ResolveExtension { health_url: Seq<char> },
    ReadConfig { health_url: Seq<char> },
    ReadAppConfig { health_url: Seq<char>, config_path: Seq<char> },
    Start { health_url: Seq<char>, start_plan: PlanView },
    AwaitReady { health_url: Seq<char>, pid: u32 },
    Done(Result<StatusView, Seq<char>>),
}

/// The mathematical view of what was done or found out.
pub enum StartupEventView {
    HealthUrl(Result<Seq<char>, Seq<char>>),
    Managed(ManagedView),
    Health(bool),
    Forgotten,
    Resolved(Result<(), Seq<char>>),
    Config(Result<(Seq<char>, JsonTree), Seq<char>>),
    App(Seq<char>, u16),
    Started(Result<u32, Seq<char>>),
    Ready(Result<(), Seq<char>>),
}

impl View for ManagedReport {
    type V = ManagedView;

    open spec fn view(&self) -> ManagedView {
        match *self {
            ManagedReport::Absent => ManagedView::Absent,
            ManagedReport::Failed(reason) => ManagedView::Failed(reason@),
            ManagedReport::Exited => ManagedView::Exited,
            ManagedReport::Alive { pid, health_url } => ManagedView::Alive {
                pid,
                health_url: health_url@,
            },
        }
    }
}

impl View for StartPlan {
    type V = PlanView;

    open spec fn view(&self) -> PlanView {
        PlanView {
            config_path: self.config_path@,
            usage_webhook_url: text::opt_string(self.usage_webhook_url),
        }
    }
}

/// The view of a plan that may be missing.
pub open spec fn opt_plan(plan: Option<StartPlan>) -> Option<PlanView> {
    match plan {
        Some(known) => Some(known@),
        None => None,
    }
}

impl View for Startup {
    type V = StartupView;

    open spec fn view(&self) -> StartupView {
        match *self {
            Startup::AskHealthUrl => StartupView::AskHealthUrl,
            Startup::AskManaged { health_url, plan } => StartupView::AskManaged {
                health_url: health_url@,
                plan: opt_plan(plan),
            },
            Startup::ProbeManaged { health_url, plan, pid } => StartupView::ProbeManaged {
                health_url: health_url@,
                plan: opt_plan(plan),
                pid,
            },
            Startup::ForgetManaged { health_url, plan } => StartupView::ForgetManaged {
                health_url: health_url@,
                plan: opt_plan(plan),
            },
            Startup::ProbeHealth { health_url, plan } => StartupView::ProbeHealth {
                health_url: health_url@,
                plan: opt_plan(plan),
            },
            Startup::ResolveExtension { health_url } => StartupView::ResolveExtension {
                health_url: health_url@,
            },
            Startup::ReadConfig { health_url } => StartupView::ReadConfig {
                health_url: health_url@,
            },
            Startup::ReadAppConfig { health_url, config_path } => StartupView::ReadAppConfig {
                health_url: health_url@,
                config_path: config_path@,
            },
            Startup::Start { health_url, start_plan } => StartupView::Start {
                health_url: health_url@,
                start_plan: start_plan@,
            },
            Startup::AwaitReady { health_url, pid } => StartupView::AwaitReady {
                health_url: health_url@,
                pid,
            },
            Startup::Done(Ok(status)) => StartupView::Done(Ok(status@)),
            Startup::Done(Err(reason)) => StartupView::Done(Err(reason@)),
        }
    }
}

/// The view of something that was done, or of the reason why it was not.
pub open spec fn done_view(done: Result<(), String>) -> Result<(), Seq<char>> {
    match done {
        Ok(_) => Ok(()),
        Err(reason) => Err(reason@),
    }
}

impl View for StartupEvent {
    type V = StartupEventView;

    open spec fn view(&self) -> StartupEventView {
        match *self {
            StartupEvent::HealthUrl(url) => StartupEventView::HealthUrl(text::result_text(url)),
            StartupEvent::Managed(report) => StartupEventView::Managed(report@),
            StartupEvent::Health(healthy) => StartupEventView::Health(healthy),
            StartupEvent::Forgotten => StartupEventView::Forgotten,
            StartupEvent::Resolved(done) => StartupEventView::Resolved(done_view(done)),
            StartupEvent::Config(Ok(file)) => StartupEventView::Config(
                Ok((file.path@, file.config@)),
            ),
            StartupEvent::Config(Err(reason)) => StartupEventView::Config(Err(reason@)),
            StartupEvent::App(config) => StartupEventView::App(config.http_host@, config.http_port),
            StartupEvent::Started(Ok(pid)) => StartupEventView::Started(Ok(pid)),
            StartupEvent::Started(Err(reason)) => StartupEventView::Started(Err(reason@)),
            StartupEvent::Ready(done) => StartupEventView::Ready(done_view(done)),
        }
    }
}

/// What is told of a gateway that runs. One that this application started has a
/// process identifier.
pub open spec fn running_status(
    pid: Option<u32>,
    health_url: Seq<char>,
    message: Seq<char>,
) -> StatusView {
    StatusView { running: true, managed: pid is Some, pid, health_url, message }
}

/// What is to be done after something was done or found out. Something that was
/// not asked for changes nothing.
pub open spec fn next_startup(step: StartupView, event: StartupEventView) -> StartupView {
    match (step, event) {
        (StartupView::AskHealthUrl, StartupEventView::HealthUrl(url)) => match url {
            Ok(health_url) => StartupView::AskManaged { health_url, plan: None },
            Err(reason) => StartupView::Done(Err(reason)),
        },
        (StartupView::AskManaged { health_url, plan }, StartupEventView::Managed(report)) => match report {
            ManagedView::Absent => StartupView::ProbeHealth { health_url, plan },
            ManagedView::Failed(reason) => StartupView::Done(Err(reason)),
            ManagedView::Exited => StartupView::ForgetManaged { health_url, plan },
            ManagedView::Alive { pid, health_url: own_url } => if own_url == health_url {
                StartupView::ProbeManaged { health_url, plan, pid }
            } else {
                StartupView::ForgetManaged { health_url, plan }
            },
        },
        (
            StartupView::ProbeManaged { health_url, plan, pid },
            StartupEventView::Health(healthy),
        ) => if healthy {
            StartupView::Done(Ok(running_status(Some(pid), health_url, "running"@)))
        } else {
            StartupView::ForgetManaged { health_url, plan }
        },
        (
            StartupView::ForgetManaged { health_url, plan },
            StartupEventView::Forgotten,
        ) => StartupView::ProbeHealth { health_url, plan },
        (StartupView::ProbeHealth { health_url, plan }, StartupEventView::Health(healthy)) => if healthy {
            StartupView::Done(Ok(running_status(None, health_url, "running"@)))
        } else {
            match plan {
                Some(start_plan) => StartupView::Start { health_url, start_plan },
                None => StartupView::ResolveExtension { health_url },
            }
        },
        (StartupView::ResolveExtension { health_url }, StartupEventView::Resolved(done)) => match done {
            Ok(_) => StartupView::ReadConfig { health_url },
            Err(reason) => StartupView::Done(Err(reason)),
        },
        (StartupView::ReadConfig { health_url }, StartupEventView::Config(read)) => match read {
            Ok((config_path, config)) => if service::captures_usage(config) {
                StartupView::ReadAppConfig { health_url, config_path }
            } else {
                StartupView::AskManaged {
                    health_url,
                    plan: Some(PlanView { config_path, usage_webhook_url: None }),
                }
            },
            Err(reason) => StartupView::Done(Err(reason)),
        },
        (
            StartupView::ReadAppConfig { health_url, config_path },
            StartupEventView::App(http_host, http_port),
        ) => StartupView::AskManaged {
            health_url,
            plan: Some(
                PlanView {
                    config_path,
                    usage_webhook_url: Some(service::usage_url(http_host, http_port as nat)),
                },
            ),
        },
        (StartupView::Start { health_url, .. }, StartupEventView::Started(started)) => match started {
            Ok(pid) => StartupView::AwaitReady { health_url, pid },
            Err(reason) => StartupView::Done(Err(reason)),
        },
        (StartupView::AwaitReady { health_url, pid }, StartupEventView::Ready(done)) => match done {
            Ok(_) => StartupView::Done(Ok(running_status(Some(pid), health_url, "started"@))),
            Err(reason) => StartupView::Done(Err(reason)),
        },
        _ => step,
    }
}

/// What is told of a gateway that runs.
fn running(pid: Option<u32>, health_url: String, message: &str) -> (r: GatewayServiceStatus)
    ensures
        r@ == running_status(pid, health_url@, message@),
{
    GatewayServiceStatus {
        running: true,
        managed: pid.is_some(),
        pid,
        health_url,
        message: message.to_owned(),
    }
}

/// What is to be done about the process that this application started.
pub fn managed_status(health_url: String, plan: Option<StartPlan>, report: ManagedReport) -> (r:
    Startup)
    ensures
        r@ == next_startup(
            (StartupView::AskManaged { health_url: health_url@, plan: opt_plan(plan) }),
            StartupEventView::Managed(report@),
        ),
{
    match report {
        ManagedReport::Absent => Startup::ProbeHealth { health_url, plan },
        ManagedReport::Failed(reason) => Startup::Done(Err(reason)),
        ManagedReport::Exited => Startup::ForgetManaged { health_url, plan },
        ManagedReport::Alive { pid, health_url: own_url } => {
            if text_eq(own_url.as_str(), health_url.as_str()) {
                Startup::ProbeManaged { health_url, plan, pid }
            } else {
                Startup::ForgetManaged { health_url, plan }
            }
        },
    }
}

/// What is to be done after the configuration was read.
fn planned(health_url: String, file: GatewayConfigFile) -> (r: Startup)
    ensures
        r@ == next_startup(
            (StartupView::ReadConfig { health_url: health_url@ }),
            StartupEventView::Config(Ok((file.path@, file.config@))),
        ),
{
    if gateway_usage_capture_enabled(&file.config) {
        Startup::ReadAppConfig { health_url, config_path: file.path }
    } else {
        Startup::AskManaged {
            health_url,
            plan: Some(StartPlan { config_path: file.path, usage_webhook_url: None }),
        }
    }
}

/// What is to be done after something was done or found out.
pub fn ensure_running(step: Startup, event: StartupEvent) -> (r: Startup)
    ensures
        r@ == next_startup(step@, event@),
{
    match (step, event) {
        (Startup::AskHealthUrl, StartupEvent::HealthUrl(url)) => match url {
            Ok(health_url) => Startup::AskManaged { health_url, plan: None },
            Err(reason) => Startup::Done(Err(reason)),
        },
        (Startup::AskManaged { health_url, plan }, StartupEvent::Managed(report)) => managed_status(
            health_url,
            plan,
            report,
        ),
        (Startup::ProbeManaged { health_url, plan, pid }, StartupEvent::Health(healthy)) => {
            if healthy {
                Startup::Done(Ok(running(Some(pid), health_url, "running")))
            } else {
                Startup::ForgetManaged { health_url, plan }
            }
        },
        (
            Startup::ForgetManaged { health_url, plan },
            StartupEvent::Forgotten,
        ) => Startup::ProbeHealth { health_url, plan },
        (Startup::ProbeHealth { health_url, plan }, StartupEvent::Health(healthy)) => {
            if healthy {
                Startup::Done(Ok(running(None, health_url, "running")))
            } else {
                match plan {
                    Some(start_plan) => Startup::Start { health_url, start_plan },
                    None => Startup::ResolveExtension { health_url },
                }
            }
        },
        (Startup::ResolveExtension { health_url }, StartupEvent::Resolved(done)) => match done {
            Ok(_) => Startup::ReadConfig { health_url },
            Err(reason) => Startup::Done(Err(reason)),
        },
        (Startup::ReadConfig { health_url }, StartupEvent::Config(read)) => match read {
            Ok(file) => planned(health_url, file),
            Err(reason) => Startup::Done(Err(reason)),
        },
        (Startup::ReadAppConfig { health_url, config_path }, StartupEvent::App(config)) => {
            let url = codexl_gateway_usage_webhook_url(&config);
            Startup::AskManaged {
                health_url,
                plan: Some(StartPlan { config_path, usage_webhook_url: Some(url) }),
            }
        },
        (Startup::Start { health_url, start_plan: _ }, StartupEvent::Started(started)) => match started {
            Ok(pid) => Startup::AwaitReady { health_url, pid },
            Err(reason) => Startup::Done(Err(reason)),
        },
        (Startup::AwaitReady { health_url, pid }, StartupEvent::Ready(done)) => match done {
            Ok(_) => Startup::Done(Ok(running(Some(pid), health_url, "started"))),
            Err(reason) => Startup::Done(Err(reason)),
        },
        (step, _) => step,
    }
}

/// Where the procedure stands after some things were done or found out.
pub open spec fn after_startup(events: Seq<StartupEventView>) -> StartupView
    decreases events.len(),
{
    if events.len() == 0 {
        StartupView::AskHealthUrl
    } else {
        next_startup(after_startup(events.drop_last()), events.last())
    }
}

/// The health URL that a step carries.
pub open spec fn url_of(step: StartupView) -> Option<Seq<char>> {
    match step {
        StartupView::AskHealthUrl => None,
        StartupView::AskManaged { health_url, .. } => Some(health_url),
        StartupView::ProbeManaged { health_url, .. } => Some(health_url),
        StartupView::ForgetManaged { health_url, .. } => Some(health_url),
        StartupView::ProbeHealth { health_url, .. } => Some(health_url),
        StartupView::ResolveExtension { health_url } => Some(health_url),
        StartupView::ReadConfig { health_url } => Some(health_url),
        StartupView::ReadAppConfig { health_url, .. } => Some(health_url),
        StartupView::Start { health_url, .. } => Some(health_url),
        StartupView::AwaitReady { health_url, .. } => Some(health_url),
        StartupView::Done(Ok(status)) => Some(status.health_url),
        StartupView::Done(Err(_)) => None,
    }
}

/// The plan that a step carries.
pub open spec fn plan_of(step: StartupView) -> Option<PlanView> {
    match step {
        StartupView::AskManaged { plan, .. } => plan,
        StartupView::ProbeManaged { plan, .. } => plan,
        StartupView::ForgetManaged { plan, .. } => plan,
        StartupView::ProbeHealth { plan, .. } => plan,
        StartupView::Start { start_plan, .. } => Some(start_plan),
        _ => None,
    }
}

/// The reason for which something was not done.
pub open spec fn reason_of(event: StartupEventView) -> Option<Seq<char>> {
    match event {
        StartupEventView::HealthUrl(Err(reason)) => Some(reason),
        StartupEventView::Managed(ManagedView::Failed(reason)) => Some(reason),
        StartupEventView::Resolved(Err(reason)) => Some(reason),
        StartupEventView::Config(Err(reason)) => Some(reason),
        StartupEventView::Started(Err(reason)) => Some(reason),
        StartupEventView::Ready(Err(reason)) => Some(reason),
        _ => None,
    }
}

/// How far a step is from the end at most.
pub open spec fn steps_left(step: StartupView) -> nat {
    let second = plan_of(step) is Some;
    match step {
        StartupView::AskHealthUrl => 14,
        StartupView::AskManaged { .. } => if second {
            6
        } else {
            13
        },
        StartupView::ProbeManaged { .. } => if second {
            5
        } else {
            12
        },
        StartupView::ForgetManaged { .. } => if second {
            4
        } else {
            11
        },
        StartupView::ProbeHealth { .. } => if second {
            3
        } else {
            10
        },
        StartupView::ResolveExtension { .. } => 9,
        StartupView::ReadConfig { .. } => 8,
        StartupView::ReadAppConfig { .. } => 7,
        StartupView::Start { .. } => 2,
        StartupView::AwaitReady { .. } => 1,
        StartupView::Done(_) => 0,
    }
}

/// Every answer to what was asked brings the procedure nearer to its end, and
/// nothing else changes it: it ends after a bounded number of answers, it passes
/// through no step twice, and it starts no second process.
pub proof fn law_startup_ends(step: StartupView, event: StartupEventView)
    ensures
        next_startup(step, event) == step || steps_left(next_startup(step, event)) < steps_left(
            step,
        ),
{
}

/// The procedure comes to start a process only from its second look, with the plan
/// that it made, and only where that look found no healthy gateway.
pub proof fn law_start_after_second_look(step: StartupView, event: StartupEventView)
    requires
        !(step is Start),
        next_startup(step, event) is Start,
    ensures
        step is ProbeHealth,
        plan_of(step) is Some,
        plan_of(next_startup(step, event)) == plan_of(step),
        event == StartupEventView::Health(false),
{
}

/// A plan, once made, stays; the gateway reports its usage exactly where its
/// configuration asks for that.
pub proof fn law_plan_follows_configuration(
    health_url: Seq<char>,
    config_path: Seq<char>,
    config: JsonTree,
    http_host: Seq<char>,
    http_port: u16,
)
    ensures
        ({
            let read = next_startup(
                StartupView::ReadConfig { health_url },
                StartupEventView::Config(Ok((config_path, config))),
            );
            let planned = next_startup(read, StartupEventView::App(http_host, http_port));
            planned == (StartupView::AskManaged {
                health_url,
                plan: Some(
                    PlanView {
                        config_path,
                        usage_webhook_url: if service::captures_usage(config) {
                            Some(service::usage_url(http_host, http_port as nat))
                        } else {
                            None
                        },
                    },
                ),
            })
        }),
{
}

/// The procedure fails only for a reason that it was given, and with that reason.
pub proof fn law_reasons_are_passed_on(step: StartupView, event: StartupEventView, reason: Seq<char>)
    requires
        !(step is Done),
        next_startup(step, event) == StartupView::Done(Err::<StatusView, Seq<char>>(reason)),
    ensures
        reason_of(event) == Some(reason),
{
}

/// What came of the procedure is not changed by what happens later.
pub proof fn law_result_is_final(step: StartupView, event: StartupEventView)
    requires
        step is Done,
    ensures
        next_startup(step, event) == step,
{
}

/// Where the procedure succeeds, the gateway runs at the health URL that was read;
/// it has a process identifier exactly where this application manages it; a
/// gateway that was started is managed, was started with that identifier, and
/// became ready; and one that was found running was found healthy.
pub proof fn law_status_is_consistent(events: Seq<StartupEventView>)
    ensures
        url_of(after_startup(events)) matches Some(url) ==> events.contains(
            StartupEventView::HealthUrl(Ok(url)),
        ),
        after_startup(events) matches StartupView::AwaitReady { pid, .. } ==> events.contains(
            StartupEventView::Started(Ok(pid)),
        ),
        after_startup(events) matches StartupView::Done(Ok(status)) ==> {
            &&& status.running
            &&& status.managed == (status.pid is Some)
            &&& status.message == "running"@ || status.message == "started"@
            &&& status.message == "started"@ ==> (status.pid matches Some(pid) && events.contains(
                StartupEventView::Started(Ok(pid)),
            ) && events.contains(StartupEventView::Ready(Ok(()))))
            &&& status.message == "running"@ ==> events.contains(StartupEventView::Health(true))
        },
    decreases events.len(),
{
    if events.len() > 0 {
        let before = events.drop_last();
        law_status_is_consistent(before);
        reveal_strlit("running");
        reveal_strlit("started");
        assert("running"@[0] == 'r' && "started"@[0] == 's');
        assert(events[events.len() - 1] == events.last());
        if let StartupEventView::Ready(Ok(done)) = events.last() {
            assert(done == ());
        }
        assert forall|event: StartupEventView| before.contains(event) implies events.contains(
            event,
        ) by {
            let i = choose|i: int| 0 <= i < before.len() && before[i] == event;
            assert(events[i] == event);
        }
    }
}

/// `event` is what was to be done or found out at `step`.
pub open spec fn is_asked_for(step: StartupView, event: StartupEventView) -> bool {
    match event {
        StartupEventView::HealthUrl(_) => step is AskHealthUrl,
        StartupEventView::Managed(_) => step is AskManaged,
        StartupEventView::Health(_) => step is ProbeManaged || step is ProbeHealth,
        StartupEventView::Forgotten => step is ForgetManaged,
        StartupEventView::Resolved(_) => step is ResolveExtension,
        StartupEventView::Config(_) => step is ReadConfig,
        StartupEventView::App(_, _) => step is ReadAppConfig,
        StartupEventView::Started(_) => step is Start,
        StartupEventView::Ready(_) => step is AwaitReady,
    }
}

/// What was asked for always moves the procedure on, and what was not asked for never
/// does.
pub proof fn law_only_answers_count(step: StartupView, event: StartupEventView)
    ensures
        next_startup(step, event) != step <==> (match event {
            StartupEventView::HealthUrl(_) => step is AskHealthUrl,
            StartupEventView::Managed(_) => step is AskManaged,
            StartupEventView::Health(_) => step is ProbeManaged || step is ProbeHealth,
            StartupEventView::Forgotten => step is ForgetManaged,
            StartupEventView::Resolved(_) => step is ResolveExtension,
            StartupEventView::Config(_) => step is ReadConfig,
            StartupEventView::App(_, _) => step is ReadAppConfig,
            StartupEventView::Started(_) => step is Start,
            StartupEventView::Ready(_) => step is AwaitReady,
        }),
        is_asked_for(step, event) <==> next_startup(step, event) != step,
{
}

/// Whatever could not be done or found out ends the procedure, with the reason.
pub proof fn law_every_failure_ends_it(
    step: StartupView,
    event: StartupEventView,
    reason: Seq<char>,
)
    requires
        is_asked_for(step, event),
        event == StartupEventView::HealthUrl(Err(reason)) || event == StartupEventView::Managed(
            ManagedView::Failed(reason),
        ) || event == StartupEventView::Resolved(Err(reason)) || event == StartupEventView::Config(
            Err(reason),
        ) || event == StartupEventView::Started(Err(reason)) || event == StartupEventView::Ready(
            Err(reason),
        ),
    ensures
        next_startup(step, event) == StartupView::Done(Err::<StatusView, Seq<char>>(reason)),
{
}

/// The procedure begins with the health URL, and without a plan.
pub proof fn law_first_look(health_url: Seq<char>)
    ensures
        next_startup(StartupView::AskHealthUrl, StartupEventView::HealthUrl(Ok(health_url))) == (
        StartupView::AskManaged { health_url, plan: None }),
{
}

/// At either look, a process of this application that serves the health URL and is
/// healthy is left running, and told of with its identifier.
pub proof fn law_healthy_process_is_kept(health_url: Seq<char>, plan: Option<PlanView>, pid: u32)
    ensures
        ({
            let asked = next_startup(
                StartupView::AskManaged { health_url, plan },
                StartupEventView::Managed(ManagedView::Alive { pid, health_url }),
            );
            next_startup(asked, StartupEventView::Health(true)) == StartupView::Done(
                Ok::<StatusView, Seq<char>>(
                    StatusView {
                        running: true,
                        managed: true,
                        pid: Some(pid),
                        health_url,
                        message: "running"@,
                    },
                ),
            )
        }),
{
}

/// At either look, a process that ended, that serves another URL or that is not
/// healthy is forgotten, and after that, as where there is none, the health URL itself
/// is tried; the plan stays.
pub proof fn law_useless_process_is_forgotten(
    health_url: Seq<char>,
    plan: Option<PlanView>,
    pid: u32,
    other_url: Seq<char>,
)
    ensures
        ({
            let look = StartupView::AskManaged { health_url, plan };
            let tried = StartupView::ProbeHealth { health_url, plan };
            let forget = StartupView::ForgetManaged { health_url, plan };
            let alive = next_startup(
                look,
                StartupEventView::Managed(ManagedView::Alive { pid, health_url }),
            );
            &&& next_startup(look, StartupEventView::Managed(ManagedView::Absent)) == tried
            &&& next_startup(look, StartupEventView::Managed(ManagedView::Exited)) == forget
            &&& other_url != health_url ==> next_startup(
                look,
                StartupEventView::Managed(ManagedView::Alive { pid, health_url: other_url }),
            ) == forget
            &&& next_startup(alive, StartupEventView::Health(false)) == forget
            &&& next_startup(forget, StartupEventView::Forgotten) == tried
        }),
{
}

/// A gateway that somebody else runs at the health URL is told of as it is: running,
/// not managed, without an identifier.
pub proof fn law_foreign_gateway_is_left_alone(health_url: Seq<char>, plan: Option<PlanView>)
    ensures
        next_startup(
            StartupView::ProbeHealth { health_url, plan },
            StartupEventView::Health(true),
        ) == StartupView::Done(
            Ok::<StatusView, Seq<char>>(
                StatusView {
                    running: true,
                    managed: false,
                    pid: None,
                    health_url,
                    message: "running"@,
                },
            ),
        ),
{
}

/// Where the first look finds no gateway, the extension is sought, then the
/// configuration is read; where that does not ask for the usage, the second look
/// follows with a plan for the configuration that was read.
pub proof fn law_plan_after_first_look(
    health_url: Seq<char>,
    config_path: Seq<char>,
    config: JsonTree,
)
    requires
        !service::captures_usage(config),
    ensures
        ({
            let first = StartupView::ProbeHealth { health_url, plan: None };
            let sought = next_startup(first, StartupEventView::Health(false));
            let read = next_startup(sought, StartupEventView::Resolved(Ok(())));
            next_startup(read, StartupEventView::Config(Ok((config_path, config)))) == (
            StartupView::AskManaged {
                health_url,
                plan: Some(PlanView { config_path, usage_webhook_url: None }),
            })
        }),
{
}

/// As after the first look, but where the configuration asks for the usage: then the
/// plan holds where that is to be reported, at the application's own server.
pub proof fn law_plan_with_usage(
    health_url: Seq<char>,
    config_path: Seq<char>,
    config: JsonTree,
    http_host: Seq<char>,
    http_port: u16,
)
    requires
        service::captures_usage(config),
    ensures
        ({
            let first = StartupView::ProbeHealth { health_url, plan: None };
            let sought = next_startup(first, StartupEventView::Health(false));
            let read = next_startup(sought, StartupEventView::Resolved(Ok(())));
            let asked = next_startup(read, StartupEventView::Config(Ok((config_path, config))));
            next_startup(asked, StartupEventView::App(http_host, http_port)) == (
            StartupView::AskManaged {
                health_url,
                plan: Some(
                    PlanView {
                        config_path,
                        usage_webhook_url: Some(
                            service::app_origin(http_host, http_port as nat) + "/gateway/usage"@,
                        ),
                    },
                ),
            })
        }),
{
}

/// Where the second look finds no gateway, one is started by the plan; once it is
/// ready, it is told of with the identifier that it got.
pub proof fn law_gateway_is_started(health_url: Seq<char>, start_plan: PlanView, pid: u32)
    ensures
        ({
            let second = StartupView::ProbeHealth { health_url, plan: Some(start_plan) };
            let start = next_startup(second, StartupEventView::Health(false));
            let waiting = next_startup(start, StartupEventView::Started(Ok(pid)));
            &&& start == (StartupView::Start { health_url, start_plan })
            &&& waiting == (StartupView::AwaitReady { health_url, pid })
            &&& next_startup(waiting, StartupEventView::Ready(Ok(()))) == StartupView::Done(
                Ok::<StatusView, Seq<char>>(
                    StatusView {
                        running: true,
                        managed: true,
                        pid: Some(pid),
                        health_url,
                        message: "started"@,
                    },
                ),
            )
        }),
{
}

/// The views of a step keep all of it.
pub proof fn law_step_views(
    health_url: String,
    plan: Option<StartPlan>,
    start_plan: StartPlan,
    pid: u32,
    config_path: String,
)
    ensures
        plan is None ==> opt_plan(plan) is None,
        plan matches Some(known) ==> (opt_plan(plan) matches Some(view) && view.config_path
            == known.config_path@ && view.usage_webhook_url == text::opt_string(
            known.usage_webhook_url,
        )),
        (Startup::AskManaged { health_url, plan })@ == (StartupView::AskManaged {
            health_url: health_url@,
            plan: opt_plan(plan),
        }),
        (Startup::ProbeManaged { health_url, plan, pid })@ == (StartupView::ProbeManaged {
            health_url: health_url@,
            plan: opt_plan(plan),
            pid,
        }),
        (Startup::ForgetManaged { health_url, plan })@ == (StartupView::ForgetManaged {
            health_url: health_url@,
            plan: opt_plan(plan),
        }),
        (Startup::ProbeHealth { health_url, plan })@ == (StartupView::ProbeHealth {
            health_url: health_url@,
            plan: opt_plan(plan),
        }),
        (Startup::ReadAppConfig { health_url, config_path })@ == (StartupView::ReadAppConfig {
            health_url: health_url@,
            config_path: config_path@,
        }),
        (Startup::Start { health_url, start_plan })@ == (StartupView::Start {
            health_url: health_url@,
            start_plan: start_plan@,
        }),
        (Startup::AwaitReady { health_url, pid })@ == (StartupView::AwaitReady {
            health_url: health_url@,
            pid,
        }),
{
}

/// The views of what was done or found out keep all of it that counts.
pub proof fn law_event_views(
    file: GatewayConfigFile,
    app: AppConfig,
    pid: u32,
    health_url: String,
    reason: String,
)
    ensures
        StartupEvent::Config(Ok(file))@ == StartupEventView::Config(
            Ok::<(Seq<char>, JsonTree), Seq<char>>((file.path@, file.config@)),
        ),
        StartupEvent::Config(Err(reason))@ == StartupEventView::Config(
            Err::<(Seq<char>, JsonTree), Seq<char>>(reason@),
        ),
        StartupEvent::App(app)@ == StartupEventView::App(app.http_host@, app.http_port),
        StartupEvent::Started(Ok(pid))@ == StartupEventView::Started(Ok::<u32, Seq<char>>(pid)),
        StartupEvent::Started(Err(reason))@ == StartupEventView::Started(
            Err::<u32, Seq<char>>(reason@),
        ),
        StartupEvent::Ready(Ok(()))@ == StartupEventView::Ready(Ok::<(), Seq<char>>(())),
        StartupEvent::Ready(Err(reason))@ == StartupEventView::Ready(
            Err::<(), Seq<char>>(reason@),
        ),
        StartupEvent::Resolved(Ok(()))@ == StartupEventView::Resolved(Ok::<(), Seq<char>>(())),
        StartupEvent::Resolved(Err(reason))@ == StartupEventView::Resolved(
            Err::<(), Seq<char>>(reason@),
        ),
        StartupEvent::HealthUrl(Ok(health_url))@ == StartupEventView::HealthUrl(
            Ok::<Seq<char>, Seq<char>>(health_url@),
        ),
        (ManagedReport::Alive { pid, health_url })@ == (ManagedView::Alive {
            pid,
            health_url: health_url@,
        }),
        ManagedReport::Failed(reason)@ == ManagedView::Failed(reason@),
{
}

} // verus!
