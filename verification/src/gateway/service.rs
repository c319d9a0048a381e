//! The gateway service: when it is started, and what is told of it.

use vstd::prelude::*;

use crate::gateway::origin;
use crate::gateway::origin::{origin_text, reachable_host};
use crate::json;
use crate::json::{Json, JsonTree};
use crate::text;
use crate::text::{joined, text_eq, to_ascii_lowercase, trim};

verus! {

/// How long the gateway has to become healthy, in milliseconds.
pub const READINESS_TIMEOUT_MILLIS: u64 = 15000;

/// How long to wait before it is asked again, in milliseconds.
pub const READINESS_POLL_INTERVAL_MILLIS: u64 = 250;

/// How long a health request may take, in milliseconds.
pub const HEALTH_REQUEST_TIMEOUT_MILLIS: u64 = 800;

/// What is told of the gateway service.
#[derive(Debug, Clone)]
pub struct GatewayServiceStatus {
    pub running: bool,
    pub managed: bool,
    pub pid: Option<u32>,
    pub health_url: String,
    pub message: String,
}

/// The mathematical view of a status.
#[verifier::ext_equal]
pub struct StatusView {
    pub running: bool,
    pub managed: bool,
    pub pid: Option<u32>,
    pub health_url: Seq<char>,
    pub message: Seq<char>,
}

impl View for GatewayServiceStatus {
    type V = StatusView;

    open spec fn view(&self) -> StatusView {
        StatusView {
            running: self.running,
            managed: self.managed,
            pid: self.pid,
            health_url: self.health_url@,
            message: self.message@,
        }
    }
}

/// Which extensions are switched on.
#[derive(Debug, Clone)]
pub struct ExtensionsConfig {
    pub enabled: bool,
    pub next_ai_gateway_enabled: bool,
}

/// The application's configuration, as far as the gateway service reads it.
#[derive(Debug, Clone)]
pub struct AppConfig {
    pub extensions: ExtensionsConfig,
    pub http_host: String,
    pub http_port: u16,
}

/// What is to be done about the gateway service.
#[derive(Debug, Clone, Copy, PartialEq, Eq, Structural)]
pub enum SyncAction {
    EnsureRunning,
    Stop,
}

/// What is to be done about the gateway service according to the configuration.
pub fn sync_with_config(config: &AppConfig) -> (r: SyncAction)
    ensures
        r == if config.extensions.enabled && config.extensions.next_ai_gateway_enabled {
            SyncAction::EnsureRunning
        } else {
            SyncAction::Stop
        },
{
    if config.extensions.enabled && config.extensions.next_ai_gateway_enabled {
        SyncAction::EnsureRunning
    } else {
        SyncAction::Stop
    }
}

/// What is told of a service that is switched off.
pub fn disabled_status(health_url: Result<String, String>) -> (r: GatewayServiceStatus)
    ensures
        r@ == (StatusView {
            running: false,
            managed: false,
            pid: None,
            health_url: match text::result_text(health_url) {
                Ok(url) => url,
                Err(_) => Seq::empty(),
            },
            message: "disabled"@,
        }),
{
    let health_url = match health_url {
        Ok(url) => url,
        Err(_) => String::new(),
    };
    GatewayServiceStatus {
        running: false,
        managed: false,
        pid: None,
        health_url,
        message: "disabled".to_owned(),
    }
}

/// Whether a configuration asks for the usage to be captured.
pub open spec fn captures_usage(config: JsonTree) -> bool {
    match json::field(config, "codexlUsageCapture"@) {
        Some(capture) => match json::field(capture, "enabled"@) {
            Some(JsonTree::Bool(enabled)) => enabled,
            Some(JsonTree::String(enabled)) => text::ascii_lowered(text::trimmed(enabled))
                == "true"@,
            _ => false,
        },
        None => false,
    }
}

/// Whether a configuration asks for the usage to be captured.
pub fn gateway_usage_capture_enabled(config: &Json) -> (r: bool)
    ensures
        r == captures_usage(config@),
{
    let capture = match config.get("codexlUsageCapture") {
        Some(capture) => capture,
        None => return false,
    };
    match capture.get("enabled") {
        Some(Json::Bool(enabled)) => *enabled,
        Some(Json::String(enabled)) => {
            let lowered = to_ascii_lowercase(trim(enabled.as_str()));
            text_eq(lowered.as_str(), "true")
        },
        _ => false,
    }
}

/// The origin of the application's own server.
pub open spec fn app_origin(http_host: Seq<char>, http_port: nat) -> Seq<char> {
    let host = text::trimmed(http_host);
    origin::http_origin(
        if host.len() == 0 {
            "127.0.0.1"@
        } else {
            origin::connect_host(host)
        },
        http_port,
    )
}

/// The origin of the application's own server.
pub fn codexl_http_origin(config: &AppConfig) -> (r: String)
    ensures
        r@ == app_origin(config.http_host@, config.http_port as nat),
{
    let host = trim(config.http_host.as_str());
    if host.is_empty() {
        origin_text("127.0.0.1", config.http_port as u64)
    } else {
        origin_text(reachable_host(host), config.http_port as u64)
    }
}

/// Where the gateway reports its usage.
pub open spec fn usage_url(http_host: Seq<char>, http_port: nat) -> Seq<char> {
    app_origin(http_host, http_port) + "/gateway/usage"@
}

/// Where the gateway reports its usage.
pub fn codexl_gateway_usage_webhook_url(config: &AppConfig) -> (r: String)
    ensures
        r@ == usage_url(config.http_host@, config.http_port as nat),
{
    joined(codexl_http_origin(config).as_str(), "/gateway/usage")
}

/// The environment variables of the gateway's process that depend on its
/// configuration.
pub open spec fn process_variables(config_path: Seq<char>, usage_webhook_url: Option<Seq<char>>) -> Seq<
    (Seq<char>, Seq<char>),
> {
    let variables = Seq::empty().push(("GATEWAY_CONFIG_PATH"@, config_path)).push(
        ("CODEXL_NEXT_AI_GATEWAY_CONFIG_PATH"@, config_path),
    );
    match usage_webhook_url {
        Some(url) => variables.push(("BILLING_ENABLED"@, "true"@)).push(
            ("BILLING_WEBHOOK_ENABLED"@, "true"@),
        ).push(("BILLING_WEBHOOK_ENDPOINT"@, url)).push(("BILLING_WEBHOOK_TIMEOUT_MS"@, "2000"@)),
        None => variables,
    }
}

/// The views of some pairs of texts.
pub open spec fn pair_views(pairs: Seq<(String, String)>) -> Seq<(Seq<char>, Seq<char>)> {
    pairs.map_values(|pair: (String, String)| (pair.0@, pair.1@))
}

/// Appends a pair of texts.
fn push_pair(pairs: &mut Vec<(String, String)>, name: &str, value: &str)
    ensures
        pair_views(final(pairs)@) == pair_views(old(pairs)@).push((name@, value@)),
{
    pairs.push((name.to_owned(), value.to_owned()));
    proof {
        assert(pair_views(pairs@) =~= pair_views(old(pairs)@).push((name@, value@)));
    }
}

/// The environment variables of the gateway's process that depend on its
/// configuration.
pub fn start_environment(config_path: &str, usage_webhook_url: Option<&str>) -> (r: Vec<
    (String, String),
>)
    ensures
        pair_views(r@) == process_variables(config_path@, text::opt_text(usage_webhook_url)),
{
    let mut variables: Vec<(String, String)> = Vec::new();
    proof {
        assert(pair_views(variables@) =~= Seq::empty());
    }
    push_pair(&mut variables, "GATEWAY_CONFIG_PATH", config_path);
    push_pair(&mut variables, "CODEXL_NEXT_AI_GATEWAY_CONFIG_PATH", config_path);
    if let Some(url) = usage_webhook_url {
        push_pair(&mut variables, "BILLING_ENABLED", "true");
        push_pair(&mut variables, "BILLING_WEBHOOK_ENABLED", "true");
        push_pair(&mut variables, "BILLING_WEBHOOK_ENDPOINT", url);
        push_pair(&mut variables, "BILLING_WEBHOOK_TIMEOUT_MS", "2000");
    }
    variables
}

/// What is told where the gateway's process could not be started.
pub fn start_error(reason: &str) -> (r: String)
    ensures
        r@ == "failed to start NeXT AI Gateway: "@ + reason@,
{
    joined("failed to start NeXT AI Gateway: ", reason)
}

/// The usage is captured where the configuration says `true` to that, as a value or,
/// in letters of any case and with white space around them, as a text, and not
/// otherwise.
pub proof fn law_captures_usage(config: JsonTree, capture: JsonTree, value: JsonTree)
    requires
        json::field(config, "codexlUsageCapture"@) == Some(capture),
        json::field(capture, "enabled"@) == Some(value),
    ensures
        value matches JsonTree::Bool(b) ==> captures_usage(config) == b,
        value matches JsonTree::String(s) ==> captures_usage(config) == {
            let word = text::trimmed(s);
            &&& word.len() == 4
            &&& word[0] == 't' || word[0] == 'T'
            &&& word[1] == 'r' || word[1] == 'R'
            &&& word[2] == 'u' || word[2] == 'U'
            &&& word[3] == 'e' || word[3] == 'E'
        },
        !(value is Bool) && !(value is String) ==> !captures_usage(config),
{
    if let JsonTree::String(s) = value {
        let word = text::trimmed(s);
        let small = text::ascii_lowered(word);
        reveal_strlit("true");
        assert("true"@.len() == 4 && "true"@[0] == 't' && "true"@[1] == 'r' && "true"@[2] == 'u'
            && "true"@[3] == 'e');
        assert(small.len() == word.len());
        if word.len() == 4 {
            text::law_ascii_lowered(word, 0);
            text::law_ascii_lowered(word, 1);
            text::law_ascii_lowered(word, 2);
            text::law_ascii_lowered(word, 3);
            if small[0] == 't' && small[1] == 'r' && small[2] == 'u' && small[3] == 'e' {
                assert(small =~= "true"@);
            }
        }
    }
}

/// The usage is not captured where the configuration says nothing of it.
pub proof fn law_no_capture(config: JsonTree)
    ensures
        json::field(config, "codexlUsageCapture"@) is None ==> !captures_usage(config),
        json::field(config, "codexlUsageCapture"@) matches Some(capture) ==> (json::field(
            capture,
            "enabled"@,
        ) is None ==> !captures_usage(config)),
{
}

/// The application's own server is reached at its host, in brackets where that is an
/// address with colons, and its port. A host that is blank or stands for every address
/// is the loopback address. The usage is reported there, under a path of its own.
pub proof fn law_app_origin(http_host: Seq<char>, http_port: nat)
    ensures
        ({
            let host = text::trimmed(http_host);
            let port = text::decimal_text(http_port);
            let found = app_origin(http_host, http_port);
            let everywhere = host.len() == 0 || host == "0.0.0.0"@ || host == "::"@ || host
                == "[::]"@;
            &&& everywhere ==> found == "http://127.0.0.1:"@ + port
            &&& !everywhere && host.contains(':') && host[0] != '[' ==> found == "http://["@ + host
                + "]:"@ + port
            &&& !everywhere && (!host.contains(':') || host[0] == '[') ==> found == "http://"@
                + host + ":"@ + port
            &&& usage_url(http_host, http_port) == found + "/gateway/usage"@
        }),
{
    let host = text::trimmed(http_host);
    reveal_strlit("127.0.0.1");
    reveal_strlit("0.0.0.0");
    reveal_strlit("::");
    reveal_strlit("[::]");
    assert("127.0.0.1"@.len() == 9 && "0.0.0.0"@.len() == 7 && "::"@.len() == 2 && "[::]"@.len()
        == 4);
    origin::law_http_origin(host, http_port);
    origin::law_http_origin("127.0.0.1"@, http_port);
    assert(!"127.0.0.1"@.contains(':'));
    reveal_strlit("http://127.0.0.1:");
    reveal_strlit("http://");
    reveal_strlit(":");
    assert("http://127.0.0.1:"@ =~= "http://"@ + "127.0.0.1"@ + ":"@);
}

/// The process is given the configuration's path under two names, and, exactly where
/// the usage is to be reported, where and how that is done.
pub proof fn law_process_variables(config_path: Seq<char>, url: Seq<char>)
    ensures
        ({
            let quiet = process_variables(config_path, None);
            let reporting = process_variables(config_path, Some(url));
            &&& quiet.len() == 2
            &&& quiet.contains(("GATEWAY_CONFIG_PATH"@, config_path))
            &&& quiet.contains(("CODEXL_NEXT_AI_GATEWAY_CONFIG_PATH"@, config_path))
            &&& reporting.len() == 6
            &&& reporting.take(2) == quiet
            &&& reporting.contains(("BILLING_ENABLED"@, "true"@))
            &&& reporting.contains(("BILLING_WEBHOOK_ENABLED"@, "true"@))
            &&& reporting.contains(("BILLING_WEBHOOK_ENDPOINT"@, url))
            &&& reporting.contains(("BILLING_WEBHOOK_TIMEOUT_MS"@, "2000"@))
        }),
{
    let quiet = process_variables(config_path, None);
    let reporting = process_variables(config_path, Some(url));
    assert(quiet[0] == ("GATEWAY_CONFIG_PATH"@, config_path));
    assert(quiet[1] == ("CODEXL_NEXT_AI_GATEWAY_CONFIG_PATH"@, config_path));
    assert(reporting.take(2) =~= quiet);
    assert(reporting[2] == ("BILLING_ENABLED"@, "true"@));
    assert(reporting[3] == ("BILLING_WEBHOOK_ENABLED"@, "true"@));
    assert(reporting[4] == ("BILLING_WEBHOOK_ENDPOINT"@, url));
    assert(reporting[5] == ("BILLING_WEBHOOK_TIMEOUT_MS"@, "2000"@));
}

/// The gateway has fifteen seconds to become healthy and is asked four times a second;
/// one question may take eight tenths of a second.
pub proof fn law_waiting_times()
    ensures
        READINESS_TIMEOUT_MILLIS == 15 * 1000,
        4 * READINESS_POLL_INTERVAL_MILLIS == 1000,
        10 * HEALTH_REQUEST_TIMEOUT_MILLIS == 8 * 1000,
{
}

/// The view of a status, and of some pairs, keeps all of it.
pub proof fn law_status_view(status: GatewayServiceStatus, pairs: Seq<(String, String)>, i: int)
    ensures
        status@.running == status.running,
        status@.managed == status.managed,
        status@.pid == status.pid,
        status@.health_url == status.health_url@,
        status@.message == status.message@,
        pair_views(pairs).len() == pairs.len(),
        0 <= i < pairs.len() ==> pair_views(pairs)[i] == (pairs[i].0@, pairs[i].1@),
{
}

} // verus!
