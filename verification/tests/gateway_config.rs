//! The gateway's configuration and model catalog.

use codexl::gateway::catalog::{
    codex_catalog_models, codex_model_catalog, codex_model_catalog_item, write_codex_model_catalog,
};
use codexl::gateway::config::{
    codex_provider_api_key, codex_provider_api_key_from_config, codex_provider_base_url,
    comma_list, default_gateway_config, ensure_gateway_config_file, first_gateway_key,
    gateway_config_object, gateway_health_url, gateway_model_name, gateway_model_option,
    gateway_model_options_from_config, gateway_origin_from_config, gateway_provider_models,
    push_unique_model, read_gateway_config, write_gateway_config, NEXT_AI_GATEWAY_API_KEY,
    NEXT_AI_GATEWAY_PROVIDER_NAME,
};
use codexl::gateway::origin::{origin_text, reachable_host};
use codexl::gateway::paths::{
    codex_model_catalog_path, env_path, gateway_config_path, gateway_home_dir,
};
use codexl::json::Json;
use codexl::json_text::{parse_json, print_json};

fn parsed(text: &str) -> Json {
    parse_json(text).expect("valid JSON")
}

#[test]
fn codex_gateway_model_catalog_advertises_image_and_search_capabilities() {
    let model = codex_model_catalog_item("Provider/model", 0);

    assert_eq!(model.get("input_modalities"), Some(&parsed(r#"["text", "image"]"#)));
    assert_eq!(model.get("supports_image_detail_original"), Some(&Json::Bool(true)));
    assert_eq!(model.get("supports_search_tool"), Some(&Json::Bool(true)));
    assert_eq!(model.get_str("web_search_tool_type"), Some("text_and_image"));
}

#[test]
fn a_catalog_item_has_all_its_fields() {
    let item = print_json(codex_model_catalog_item("p/m", 3)).expect("text").text;
    let expected = r#"{
  "additional_speed_tiers": [],
  "apply_patch_tool_type": "freeform",
  "availability_nux": null,
  "base_instructions": "You are Codex, a coding agent.",
  "context_window": 128000,
  "default_reasoning_level": "medium",
  "default_reasoning_summary": "none",
  "default_verbosity": "low",
  "description": "NextAI Gateway model p/m",
  "display_name": "p/m",
  "effective_context_window_percent": 95,
  "experimental_supported_tools": [],
  "input_modalities": [
    "text",
    "image"
  ],
  "max_context_window": 128000,
  "priority": 3,
  "service_tiers": [],
  "shell_type": "shell_command",
  "slug": "p/m",
  "support_verbosity": true,
  "supported_in_api": true,
  "supported_reasoning_levels": [
    {
      "description": "Low reasoning",
      "effort": "low"
    },
    {
      "description": "Medium reasoning",
      "effort": "medium"
    },
    {
      "description": "High reasoning",
      "effort": "high"
    },
    {
      "description": "Extra high reasoning",
      "effort": "xhigh"
    }
  ],
  "supports_image_detail_original": true,
  "supports_parallel_tool_calls": true,
  "supports_reasoning_summaries": true,
  "supports_search_tool": true,
  "truncation_policy": {
    "limit": 10000,
    "mode": "tokens"
  },
  "upgrade": null,
  "visibility": "list",
  "web_search_tool_type": "text_and_image"
}
"#;
    assert_eq!(item, expected);
}

#[test]
fn a_catalog_numbers_its_models() {
    let models = vec!["a/x".to_string(), "b/y".to_string()];
    let catalog = codex_model_catalog(&models);
    let items = catalog.get_array("models").expect("models");
    assert_eq!(items.len(), 2);
    assert_eq!(items[0].get_str("slug"), Some("a/x"));
    assert_eq!(items[1].get_str("slug"), Some("b/y"));
    assert_eq!(items[0].get("priority").and_then(|v| v.as_u64()), Some(0));
    assert_eq!(items[1].get("priority").and_then(|v| v.as_u64()), Some(1));
}

#[test]
fn the_selected_model_comes_first_and_only_once() {
    let config = parsed(r#"{"Providers": [{"name": "p", "models": ["a", "b"]}]}"#);
    assert_eq!(codex_catalog_models(" p/b ", &config), vec!["p/b", "p/a"]);
    assert_eq!(codex_catalog_models("", &config), vec!["p/a", "p/b"]);
    assert_eq!(codex_catalog_models("other", &config), vec!["other", "p/a", "p/b"]);
}

#[test]
fn a_catalog_needs_a_model_and_a_readable_configuration() {
    assert_eq!(
        write_codex_model_catalog("  ", "{}").unwrap_err(),
        "Gateway model catalog requires at least one model"
    );
    assert_eq!(
        write_codex_model_catalog("m", "[]").unwrap_err(),
        "Gateway config must be a JSON object"
    );
    let text = write_codex_model_catalog("m", "{}").expect("catalog");
    assert!(text.ends_with("}\n"));
    let catalog = parsed(&text);
    assert_eq!(catalog.get_array("models").expect("models").len(), 1);
    let models = vec!["m".to_string()];
    let expected = print_json(codex_model_catalog(&models)).expect("text");
    assert_eq!(catalog, expected.value);
    assert_eq!(text, expected.text);
}

#[test]
fn model_options_come_from_both_lists_of_providers() {
    let config = parsed(
        r#"{
            "Providers": [
                {"name": " p ", "models": ["a", {"name": " b "}, {"id": "c"}, {"model": "d"}, 5, " "]},
                {"name": "", "models": ["x"]},
                {"models": ["y"]}
            ],
            "providers": [{"name": "q", "models": "p/a, q/b ,, c"}, {"name": "p", "models": "a"}]
        }"#,
    );
    assert_eq!(
        gateway_model_options_from_config(&config),
        vec!["p/a", "p/b", "p/c", "p/d", "q/p/a", "q/b", "q/c"]
    );
    assert!(gateway_model_options_from_config(&parsed("{}")).is_empty());
    assert!(gateway_model_options_from_config(&parsed(r#"{"Providers": "x"}"#)).is_empty());
}

#[test]
fn model_names_come_from_texts_and_from_fields() {
    assert_eq!(gateway_model_name(&parsed("\" m \"")).as_deref(), Some("m"));
    assert_eq!(gateway_model_name(&parsed(r#"{"id": "i", "name": " "}"#)).as_deref(), Some("i"));
    assert_eq!(gateway_model_name(&parsed(r#"{"model": "m", "id": "i"}"#)).as_deref(), Some("i"));
    assert_eq!(gateway_model_name(&parsed(r#"{"model": 5}"#)), None);
    assert_eq!(gateway_model_name(&parsed("\" \"")), None);
    assert_eq!(gateway_model_name(&parsed("5")), None);
    assert_eq!(gateway_provider_models(&parsed(r#"{"models": "a,b"}"#)), vec!["a", "b"]);
    assert_eq!(gateway_provider_models(&parsed(r#"{"models": ["a", 1]}"#)), vec!["a"]);
    assert!(gateway_provider_models(&parsed(r#"{"models": 1}"#)).is_empty());
}

#[test]
fn model_options_name_their_provider_once() {
    assert_eq!(gateway_model_option("p", "m"), "p/m");
    assert_eq!(gateway_model_option(" p ", " p/m "), "p/m");
    assert_eq!(gateway_model_option("p", "//m"), "p/m");
    assert_eq!(gateway_model_option("p", "px/m"), "p/px/m");
    assert_eq!(gateway_model_option("p", "/"), "");
    assert_eq!(gateway_model_option(" ", "m"), "");
}

#[test]
fn comma_lists_leave_out_blank_items() {
    assert_eq!(comma_list(" a, b,,c ,"), vec!["a", "b", "c"]);
    assert!(comma_list(" , ").is_empty());
}

#[test]
fn a_model_is_added_once_and_trimmed() {
    let mut models: Vec<String> = Vec::new();
    push_unique_model(&mut models, " a ");
    push_unique_model(&mut models, "a");
    push_unique_model(&mut models, " ");
    push_unique_model(&mut models, "b");
    assert_eq!(models, vec!["a", "b"]);
}

#[test]
fn origins_connect_to_the_loopback_address_where_the_server_listens_everywhere() {
    let origin = |text: &str| gateway_origin_from_config(&parsed(text));
    assert_eq!(origin("{}"), "http://127.0.0.1:14589");
    assert_eq!(origin(r#"{"host": " ", "port": 0}"#), "http://127.0.0.1:14589");
    assert_eq!(origin(r#"{"host": "0.0.0.0", "port": 8080}"#), "http://127.0.0.1:8080");
    assert_eq!(origin(r#"{"host": "::", "port": 65535}"#), "http://127.0.0.1:65535");
    assert_eq!(origin(r#"{"host": "[::]", "port": 65536}"#), "http://127.0.0.1:14589");
    assert_eq!(origin(r#"{"host": " ::1 ", "port": 1}"#), "http://[::1]:1");
    assert_eq!(origin(r#"{"host": "[::1]", "port": "1"}"#), "http://[::1]:14589");
    assert_eq!(origin(r#"{"host": "box", "port": -1}"#), "http://box:14589");
    assert_eq!(reachable_host("::"), "127.0.0.1");
    assert_eq!(origin_text("h", 80), "http://h:80");
}

#[test]
fn api_keys_are_looked_for_only_where_authentication_is_on() {
    let key = |text: &str| codex_provider_api_key_from_config(&parsed(text));
    assert_eq!(key("{}"), NEXT_AI_GATEWAY_API_KEY);
    assert_eq!(key(r#"{"auth": {"enabled": false, "keys": ["k"]}}"#), NEXT_AI_GATEWAY_API_KEY);
    assert_eq!(key(r#"{"auth": {"enabled": true, "keys": [" ", " k "]}}"#), "k");
    assert_eq!(
        key(r#"{"auth": {"enabled": true, "keys": ["k"], "principals": [{"token": "t"}]}}"#),
        "t"
    );
    assert_eq!(key(r#"{"auth": {"enabled": true}, "keys": [{"apiKey": "a"}]}"#), "a");
    assert_eq!(key(r#"{"auth": {"enabled": true}, "principals": [{"api_key": "b"}]}"#), "b");
    assert_eq!(key(r#"{"auth": {"enabled": true}, "keys": [1, {"x": "y"}]}"#), NEXT_AI_GATEWAY_API_KEY);
    assert_eq!(first_gateway_key(None), None);
    assert_eq!(
        first_gateway_key(Some(&parsed(r#"[{"token": "t", "key": "k"}]"#))).as_deref(),
        Some("k")
    );
    assert_eq!(NEXT_AI_GATEWAY_PROVIDER_NAME, "next-ai-gateway");
}

#[test]
fn a_configuration_is_read_where_it_is_an_object() {
    let file = read_gateway_config("/etc/g.json", r#"{"host": "h", "port": 5}"#).expect("file");
    assert_eq!(file.path, "/etc/g.json");
    assert_eq!(file.config.get_str("host"), Some("h"));
    assert_eq!(
        read_gateway_config("p", "[]").err().as_deref(),
        Some("Gateway config must be a JSON object")
    );
    assert!(read_gateway_config("p", "{").is_err());
    assert!(gateway_config_object(Json::Null).is_err());
}

#[test]
fn urls_and_key_come_from_the_text_of_the_configuration() {
    let text = r#"{"host": "h", "port": 5, "auth": {"enabled": true, "keys": ["k"]}}"#;
    assert_eq!(codex_provider_base_url(text).as_deref(), Ok("http://h:5/v1"));
    assert_eq!(gateway_health_url(text).as_deref(), Ok("http://h:5/health"));
    assert_eq!(codex_provider_api_key(text).as_deref(), Ok("k"));
    for refused in [
        codex_provider_base_url("1"),
        gateway_health_url("1"),
        codex_provider_api_key("1"),
    ] {
        assert_eq!(refused.unwrap_err(), "Gateway config must be a JSON object");
    }
    let message = serde_json::from_str::<serde_json::Value>("x").unwrap_err().to_string();
    assert_eq!(gateway_health_url("x").unwrap_err(), message);
}

#[test]
fn what_is_written_of_a_configuration_reads_back() {
    let config = r#"{"z": 1, "a": {"b": [true, null, "x"]}}"#;
    let write = write_gateway_config("p", parsed(config)).expect("write");
    assert_eq!(
        write.text,
        "{\n  \"a\": {\n    \"b\": [\n      true,\n      null,\n      \"x\"\n    ]\n  },\n  \"z\": 1\n}\n"
    );
    assert_eq!(write.file.path, "p");
    let read = read_gateway_config("p", &write.text).expect("file");
    assert_eq!(read.config, write.file.config);
    assert_eq!(
        write_gateway_config("p", parsed("[1]")).err().as_deref(),
        Some("Gateway config must be a JSON object")
    );
}

#[test]
fn a_missing_configuration_is_written_with_the_defaults() {
    assert_eq!(ensure_gateway_config_file(true), Ok(None));
    let text = ensure_gateway_config_file(false).expect("text").expect("default");
    assert_eq!(gateway_health_url(&text).as_deref(), Ok("http://127.0.0.1:14589/health"));
    assert_eq!(codex_provider_api_key(&text).as_deref(), Ok(NEXT_AI_GATEWAY_API_KEY));
    let config = default_gateway_config();
    assert_eq!(config.get("bodyLimitBytes").and_then(|v| v.as_u64()), Some(52428800));
    let expected = parsed(
        r#"{
            "host": "127.0.0.1",
            "port": 14589,
            "bodyLimitBytes": 52428800,
            "Providers": [],
            "auth": {"enabled": false},
            "billing": {"enabled": false},
            "billingQueue": {"enabled": false},
            "billingWebhook": {"enabled": false},
            "rawTrace": {"enabled": false, "mode": "disabled"},
            "agent": {"storage": {"type": "filesystem"}, "mcpServers": []},
            "mcpGateway": {"enabled": false}
        }"#,
    );
    assert_eq!(print_json(expected).expect("text").text, text);
}

#[test]
fn variables_name_the_files_where_they_are_not_blank() {
    assert_eq!(env_path(Some(" /x ")).as_deref(), Some("/x"));
    assert_eq!(env_path(Some("  ")), None);
    assert_eq!(env_path(None), None);

    let home = gateway_home_dir(None);
    assert_eq!(home.given, None);
    assert_eq!(home.rest, vec!["next-ai-gateway"]);

    let path = gateway_config_path(Some("~/c.json"), Some("/d.json"), Some("/h"));
    assert_eq!(path.given.as_deref(), Some("~/c.json"));
    assert!(path.rest.is_empty());
    let path = gateway_config_path(Some(" "), Some("/d.json"), Some("/h"));
    assert_eq!(path.given.as_deref(), Some("/d.json"));
    let path = gateway_config_path(None, None, Some("/h"));
    assert_eq!(path.given.as_deref(), Some("/h"));
    assert_eq!(path.rest, vec!["gateway.config.json"]);
    let path = gateway_config_path(None, None, None);
    assert_eq!(path.given, None);
    assert_eq!(path.rest, vec!["next-ai-gateway", "gateway.config.json"]);

    let catalog = codex_model_catalog_path(Some("/h"));
    assert_eq!(catalog.given.as_deref(), Some("/h"));
    assert_eq!(catalog.rest, vec!["codex-model-catalog.json"]);
}
