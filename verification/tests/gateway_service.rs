//! The gateway service.

use codexl::gateway::config::{read_gateway_config, GatewayConfigFile};
use codexl::gateway::readiness::{wait_until_ready, ProcessReport, Readiness, ReadinessEvent};
use codexl::gateway::service::{
    codexl_gateway_usage_webhook_url, codexl_http_origin, disabled_status,
    gateway_usage_capture_enabled, start_environment, start_error, sync_with_config, AppConfig,
    ExtensionsConfig, GatewayServiceStatus, SyncAction, HEALTH_REQUEST_TIMEOUT_MILLIS,
    READINESS_POLL_INTERVAL_MILLIS, READINESS_TIMEOUT_MILLIS,
};
use codexl::gateway::startup::{ensure_running, ManagedReport, Startup, StartupEvent};
use codexl::json_text::parse_json;

const URL: &str = "http://127.0.0.1:14589/health";

fn app_config(host: &str, port: u16) -> AppConfig {
    AppConfig {
        extensions: ExtensionsConfig { enabled: true, next_ai_gateway_enabled: true },
        http_host: host.to_string(),
        http_port: port,
    }
}

fn config_file(text: &str) -> GatewayConfigFile {
    read_gateway_config("/g.json", text).expect("file")
}

fn run(events: Vec<StartupEvent>) -> Startup {
    let mut step = Startup::AskHealthUrl;
    for event in events {
        step = ensure_running(step, event);
    }
    step
}

fn result(step: Startup) -> Result<GatewayServiceStatus, String> {
    match step {
        Startup::Done(result) => result,
        _ => panic!("not done"),
    }
}

fn health_url() -> StartupEvent {
    StartupEvent::HealthUrl(Ok(URL.to_string()))
}

fn alive(pid: u32, url: &str) -> StartupEvent {
    StartupEvent::Managed(ManagedReport::Alive { pid, health_url: url.to_string() })
}

fn absent() -> StartupEvent {
    StartupEvent::Managed(ManagedReport::Absent)
}

fn up_to_second_look(config: &str) -> Vec<StartupEvent> {
    vec![
        health_url(),
        absent(),
        StartupEvent::Health(false),
        StartupEvent::Resolved(Ok(())),
        StartupEvent::Config(Ok(config_file(config))),
    ]
}

#[test]
fn the_service_follows_its_two_switches() {
    for (enabled, gateway, expected) in [
        (true, true, SyncAction::EnsureRunning),
        (true, false, SyncAction::Stop),
        (false, true, SyncAction::Stop),
        (false, false, SyncAction::Stop),
    ] {
        let mut config = app_config("", 1);
        config.extensions = ExtensionsConfig { enabled, next_ai_gateway_enabled: gateway };
        assert_eq!(sync_with_config(&config), expected);
    }
}

#[test]
fn a_service_that_is_switched_off_is_told_so() {
    let status = disabled_status(Ok(URL.to_string()));
    assert!(!status.running);
    assert!(!status.managed);
    assert_eq!(status.pid, None);
    assert_eq!(status.health_url, URL);
    assert_eq!(status.message, "disabled");
    assert_eq!(disabled_status(Err("why".to_string())).health_url, "");
}

#[test]
fn usage_is_captured_where_the_configuration_says_so() {
    for (text, expected) in [
        (r#"{"codexlUsageCapture": {"enabled": true}}"#, true),
        (r#"{"codexlUsageCapture": {"enabled": false}}"#, false),
        (r#"{"codexlUsageCapture": {"enabled": " TrUe "}}"#, true),
        (r#"{"codexlUsageCapture": {"enabled": "yes"}}"#, false),
        (r#"{"codexlUsageCapture": {"enabled": 1}}"#, false),
        (r#"{"codexlUsageCapture": {}}"#, false),
        (r#"{"codexlUsageCapture": true}"#, false),
        ("{}", false),
    ] {
        assert_eq!(gateway_usage_capture_enabled(&parse_json(text).expect("JSON")), expected);
    }
}

#[test]
fn usage_is_reported_to_the_application() {
    for (host, origin) in [
        ("", "http://127.0.0.1:3000"),
        ("  ", "http://127.0.0.1:3000"),
        ("0.0.0.0", "http://127.0.0.1:3000"),
        (" :: ", "http://127.0.0.1:3000"),
        ("[::]", "http://127.0.0.1:3000"),
        ("::1", "http://[::1]:3000"),
        ("[fe80::1]", "http://[fe80::1]:3000"),
        (" box.local ", "http://box.local:3000"),
    ] {
        let config = app_config(host, 3000);
        assert_eq!(codexl_http_origin(&config), origin);
        assert_eq!(
            codexl_gateway_usage_webhook_url(&config),
            format!("{}/gateway/usage", origin)
        );
    }
}

#[test]
fn the_process_is_told_where_to_report() {
    let pair = |name: &str, value: &str| (name.to_string(), value.to_string());
    assert_eq!(
        start_environment("/g.json", None),
        vec![
            pair("GATEWAY_CONFIG_PATH", "/g.json"),
            pair("CODEXL_NEXT_AI_GATEWAY_CONFIG_PATH", "/g.json"),
        ]
    );
    assert_eq!(
        start_environment("/g.json", Some("http://h/gateway/usage")),
        vec![
            pair("GATEWAY_CONFIG_PATH", "/g.json"),
            pair("CODEXL_NEXT_AI_GATEWAY_CONFIG_PATH", "/g.json"),
            pair("BILLING_ENABLED", "true"),
            pair("BILLING_WEBHOOK_ENABLED", "true"),
            pair("BILLING_WEBHOOK_ENDPOINT", "http://h/gateway/usage"),
            pair("BILLING_WEBHOOK_TIMEOUT_MS", "2000"),
        ]
    );
    assert_eq!(start_error("no node"), "failed to start NeXT AI Gateway: no node");
}

#[test]
fn a_managed_gateway_that_is_healthy_is_kept() {
    let status =
        result(run(vec![health_url(), alive(7, URL), StartupEvent::Health(true)])).expect("status");
    assert!(status.running);
    assert!(status.managed);
    assert_eq!(status.pid, Some(7));
    assert_eq!(status.health_url, URL);
    assert_eq!(status.message, "running");
}

#[test]
fn a_managed_gateway_is_forgotten_where_it_is_not_the_one_that_is_asked_for() {
    for events in [
        vec![health_url(), alive(7, "http://other/health")],
        vec![health_url(), alive(7, URL), StartupEvent::Health(false)],
        vec![health_url(), StartupEvent::Managed(ManagedReport::Exited)],
    ] {
        let step = run(events);
        assert!(matches!(step, Startup::ForgetManaged { plan: None, .. }));
        let step = ensure_running(step, StartupEvent::Forgotten);
        assert!(matches!(step, Startup::ProbeHealth { plan: None, .. }));
    }
}

#[test]
fn a_gateway_of_somebody_else_is_used() {
    let status = result(run(vec![health_url(), absent(), StartupEvent::Health(true)])).expect("status");
    assert!(status.running);
    assert!(!status.managed);
    assert_eq!(status.pid, None);
    assert_eq!(status.message, "running");
}

#[test]
fn a_gateway_is_looked_for_again_before_one_is_started() {
    let mut events = up_to_second_look("{}");
    events.push(absent());
    let step = run(events);
    assert!(matches!(step, Startup::ProbeHealth { plan: Some(_), .. }));
    let step = ensure_running(step, StartupEvent::Health(true));
    assert_eq!(result(step).expect("status").message, "running");

    let mut events = up_to_second_look("{}");
    events.push(alive(9, URL));
    events.push(StartupEvent::Health(true));
    assert_eq!(result(run(events)).expect("status").pid, Some(9));
}

#[test]
fn a_gateway_is_started_where_none_is_found() {
    let mut events = up_to_second_look("{}");
    events.push(absent());
    events.push(StartupEvent::Health(false));
    let step = run(events);
    match &step {
        Startup::Start { health_url, start_plan } => {
            assert_eq!(health_url, URL);
            assert_eq!(start_plan.config_path, "/g.json");
            assert_eq!(start_plan.usage_webhook_url, None);
        }
        _ => panic!("not to be started"),
    }
    let step = ensure_running(step, StartupEvent::Started(Ok(42)));
    assert!(matches!(step, Startup::AwaitReady { pid: 42, .. }));
    let status = result(ensure_running(step, StartupEvent::Ready(Ok(())))).expect("status");
    assert!(status.running);
    assert!(status.managed);
    assert_eq!(status.pid, Some(42));
    assert_eq!(status.health_url, URL);
    assert_eq!(status.message, "started");
}

#[test]
fn a_gateway_whose_usage_is_captured_is_told_where_to_report() {
    let mut events = up_to_second_look(r#"{"codexlUsageCapture": {"enabled": true}}"#);
    let step = run(std::mem::take(&mut events));
    assert!(matches!(step, Startup::ReadAppConfig { .. }));
    let step = ensure_running(step, StartupEvent::App(app_config("0.0.0.0", 3000)));
    match step {
        Startup::AskManaged { plan: Some(plan), .. } => {
            assert_eq!(plan.config_path, "/g.json");
            assert_eq!(
                plan.usage_webhook_url.as_deref(),
                Some("http://127.0.0.1:3000/gateway/usage")
            );
        }
        _ => panic!("no plan"),
    }
}

#[test]
fn every_failure_is_passed_on() {
    let reason = || Err("why".to_string());
    let failed = |events: Vec<StartupEvent>| result(run(events)).unwrap_err();
    assert_eq!(failed(vec![StartupEvent::HealthUrl(Err("why".to_string()))]), "why");
    assert_eq!(
        failed(vec![
            health_url(),
            StartupEvent::Managed(ManagedReport::Failed("why".to_string())),
        ]),
        "why"
    );
    assert_eq!(
        failed(vec![
            health_url(),
            absent(),
            StartupEvent::Health(false),
            StartupEvent::Resolved(reason()),
        ]),
        "why"
    );
    assert_eq!(
        failed(vec![
            health_url(),
            absent(),
            StartupEvent::Health(false),
            StartupEvent::Resolved(Ok(())),
            StartupEvent::Config(Err("why".to_string())),
        ]),
        "why"
    );
    let mut events = up_to_second_look("{}");
    events.push(absent());
    events.push(StartupEvent::Health(false));
    events.push(StartupEvent::Started(Err("why".to_string())));
    assert_eq!(failed(events), "why");
    let mut events = up_to_second_look("{}");
    events.push(absent());
    events.push(StartupEvent::Health(false));
    events.push(StartupEvent::Started(Ok(1)));
    events.push(StartupEvent::Ready(reason()));
    assert_eq!(failed(events), "why");
}

#[test]
fn what_was_not_asked_for_changes_nothing() {
    let step = run(vec![StartupEvent::Health(true), StartupEvent::Started(Ok(1))]);
    assert!(matches!(step, Startup::AskHealthUrl));
    let step = run(vec![
        StartupEvent::HealthUrl(Err("why".to_string())),
        health_url(),
        absent(),
    ]);
    assert_eq!(result(step).unwrap_err(), "why");
}

fn wait(events: Vec<ReadinessEvent>) -> Readiness {
    let mut step = Readiness::CheckTime;
    for event in events {
        step = wait_until_ready(step, event, URL);
    }
    step
}

#[test]
fn waiting_ends_when_the_gateway_is_healthy() {
    let step = wait(vec![
        ReadinessEvent::Elapsed(0),
        ReadinessEvent::Health(false),
        ReadinessEvent::Process(ProcessReport::Running),
        ReadinessEvent::Slept,
        ReadinessEvent::Elapsed(READINESS_TIMEOUT_MILLIS - 1),
        ReadinessEvent::Health(true),
    ]);
    assert!(matches!(step, Readiness::Done(Ok(()))));
    assert!(matches!(wait(vec![ReadinessEvent::Elapsed(0)]), Readiness::Probe));
    assert!(matches!(
        wait(vec![ReadinessEvent::Elapsed(0), ReadinessEvent::Health(false)]),
        Readiness::CheckProcess
    ));
}

#[test]
fn waiting_ends_when_the_process_ends_or_the_time_is_over() {
    let failed = |events: Vec<ReadinessEvent>| match wait(events) {
        Readiness::Done(Err(reason)) => reason,
        _ => panic!("not failed"),
    };
    assert_eq!(
        failed(vec![
            ReadinessEvent::Elapsed(0),
            ReadinessEvent::Health(false),
            ReadinessEvent::Process(ProcessReport::Exited("exit status: 1".to_string())),
        ]),
        "NeXT AI Gateway exited before it became healthy (status exit status: 1)"
    );
    assert_eq!(
        failed(vec![
            ReadinessEvent::Elapsed(0),
            ReadinessEvent::Health(false),
            ReadinessEvent::Process(ProcessReport::Failed("why".to_string())),
        ]),
        "why"
    );
    assert_eq!(
        failed(vec![ReadinessEvent::Elapsed(READINESS_TIMEOUT_MILLIS)]),
        format!("NeXT AI Gateway did not become healthy at {} within 15 seconds", URL)
    );
    assert_eq!(READINESS_POLL_INTERVAL_MILLIS, 250);
    assert_eq!(HEALTH_REQUEST_TIMEOUT_MILLIS, 800);
}
