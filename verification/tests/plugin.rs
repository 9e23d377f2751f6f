use std::sync::Arc;

use mcpg_plugin_backend_nats::backend::{plan_profile, ClientSource};
use mcpg_plugin_backend_nats::call::CallStage;
use mcpg_plugin_backend_nats::connection::{
    describe_build, describe_connect, report_connect, ClientStep, ConnectEvent, ConnectFault,
};
use mcpg_plugin_backend_nats::credentials::SpecTokens;
use mcpg_plugin_backend_nats::error::BackendError;
use mcpg_plugin_backend_nats::spec::{
    default_max_response_bytes, default_timeout_ms, NatsBackendSpec, NatsPluginConfig,
};
use mcpg_plugin_backend_nats::text::{contains_char, contains_text, is_blank, is_white_space};
use mcpg_plugin_backend_nats::wire::{
    call_outcome, BackendRequest, IdempotencyHint, Reply,
};
use mcpg_plugin_backend_nats::{NatsBackendPlugin, NatsWatchPlugin};
use serde_json::Value;

type Plugin = NatsBackendPlugin<String, u8>;

fn json(text: &str) -> Value {
    serde_json::from_str(text).expect("JSON")
}

fn text(value: &Value, name: &str) -> Option<String> {
    value.get(name).and_then(|v| v.as_str()).map(|s| s.to_owned())
}

/// The plugin config in a `config:` block.
fn config(block: &str) -> NatsPluginConfig {
    if block.trim().is_empty() {
        return NatsPluginConfig::default();
    }
    let value = json(block);
    NatsPluginConfig {
        url: text(&value, "url").unwrap_or_default(),
        credentials_path: text(&value, "credentials_path"),
    }
}

/// The binding spec in a JSON object.
fn spec(value: &Value) -> NatsBackendSpec {
    NatsBackendSpec {
        url: text(value, "url"),
        credentials_path: text(value, "credentials_path"),
        auth_token: text(value, "auth_token"),
        subject: text(value, "subject").expect("a subject"),
        timeout_ms: value.get("timeout_ms").map_or(default_timeout_ms(), |v| v.as_u64().unwrap()),
        max_response_bytes: value
            .get("max_response_bytes")
            .map_or(default_max_response_bytes(), |v| v.as_u64().unwrap() as usize),
    }
}

fn no_tokens() -> SpecTokens {
    SpecTokens { url: vec![], credentials_path: vec![], auth_token: vec![] }
}

fn token_in_auth() -> SpecTokens {
    SpecTokens {
        url: vec![],
        credentials_path: vec![],
        auth_token: vec!["cred://vault/nats".to_owned()],
    }
}

fn register(plugin: &mut Plugin, name: &str, value: &Value) -> Result<(), BackendError> {
    plugin.register_profile(
        name,
        spec(value),
        no_tokens(),
        Arc::new("client".to_owned()),
        Arc::new(0),
    )
}

fn message_of(error: BackendError) -> String {
    match error {
        BackendError::InvalidSpec { message } => message,
        BackendError::Transport { message } => message,
        other => panic!("no message in {other:?}"),
    }
}

fn request(payload: &[u8]) -> BackendRequest {
    BackendRequest { payload: payload.to_vec(), headers: vec![], idempotency: None }
}

#[test]
fn from_config_json_empty_block_yields_defaults() {
    for empty in ["", "{}", "   ", "null"] {
        let backend = Plugin::from_config_json(config(empty));
        assert_eq!(backend.conn_url(), None, "empty config {empty:?} → no url");
        assert_eq!(backend.conn_creds(), None, "empty config {empty:?} → no creds");

        let watch: NatsWatchPlugin<String> = NatsWatchPlugin::from_config_json(config(empty));
        assert_eq!(watch.conn_url(), None, "empty config {empty:?} → no url (watch)");
        assert_eq!(watch.conn_creds(), None, "empty config {empty:?} → no creds (watch)");
    }
}

#[test]
fn from_config_json_valid_block_parses() {
    let backend = Plugin::from_config_json(config(r#"{"url":"nats://example:4222"}"#));
    assert_eq!(backend.conn_url().as_deref(), Some("nats://example:4222"));
}

#[test]
fn binding_plugin_kind_is_nats() {
    let plugin: Plugin = NatsBackendPlugin::new(Arc::new("client".to_owned()));
    assert_eq!(plugin.kind(), "nats");
    assert_eq!(plugin.id(), "dev.mcpg.backend.nats");
    assert_eq!(plugin.name(), "NATS Binding");
}

#[test]
fn watch_plugin_kind_is_nats_topic() {
    let plugin = NatsWatchPlugin::new(Arc::new("client".to_owned()));
    assert_eq!(plugin.kind(), "nats_topic");
    assert_eq!(plugin.id(), "dev.mcpg.watch.nats_topic");
    assert_eq!(plugin.name(), "NATS Topic Watch");
}

#[test]
fn register_profile_validates_spec() {
    let mut plugin: Plugin = NatsBackendPlugin::new(Arc::new("client".to_owned()));
    let ok = register(
        &mut plugin,
        "t1",
        &json(
            r#"{"subject":"mcpg.exec.request.tools.test","timeout_ms":1000,"max_response_bytes":1024}"#,
        ),
    );
    assert!(ok.is_ok(), "valid spec should register: {:?}", ok);

    let empty = register(&mut plugin, "t2", &json(r#"{"subject":""}"#));
    assert!(matches!(empty, Err(BackendError::InvalidSpec { .. })));

    let spaces = register(&mut plugin, "t3", &json(r#"{"subject":"a b"}"#));
    assert!(matches!(spaces, Err(BackendError::InvalidSpec { .. })));
    assert!(matches!(plugin.select_profile("t3"), Err(BackendError::ProfileNotFound { .. })));
}

#[test]
fn request_reply_round_trip() {
    let mut plugin: Plugin = NatsBackendPlugin::new(Arc::new("client".to_owned()));
    register(
        &mut plugin,
        "echo-tool",
        &json(
            r#"{"subject":"mcpg.exec.request.tools.echo","timeout_ms":5000,"max_response_bytes":65536}"#,
        ),
    )
    .unwrap();
    let Ok(runtime) = plugin.select_profile("echo-tool") else {
        panic!("the profile is registered");
    };
    let CallStage::Ready(call) = runtime.start_call() else {
        panic!("there is no token");
    };
    assert_eq!(*call.client, "client");
    let dispatch = call.dispatch(request(b"hello"));
    assert_eq!(dispatch.subject, "mcpg.exec.request.tools.echo");
    assert_eq!(dispatch.timeout_ms, 5000);
    assert!(dispatch.message.headers.is_none());

    // The responder echoes the payload.
    let Ok(resp) = call.finish(Reply::Message(dispatch.message.payload)) else {
        panic!("a reply makes a response");
    };
    assert_eq!(resp.payload, b"hello");
    assert!(!resp.truncated);
}

#[test]
fn execute_without_registered_profile_errors() {
    let plugin: Plugin = NatsBackendPlugin::new(Arc::new("client".to_owned()));
    let Err(err) = plugin.select_profile("not-registered") else {
        panic!("there is no such profile");
    };
    assert!(
        matches!(err, BackendError::ProfileNotFound { backend_name } if backend_name == "not-registered")
    );
}

#[test]
fn request_timeout_reports_timeout_error() {
    let mut plugin: Plugin = NatsBackendPlugin::new(Arc::new("client".to_owned()));
    register(
        &mut plugin,
        "slow",
        &json(
            r#"{"subject":"mcpg.exec.request.tools.slow","timeout_ms":100,"max_response_bytes":1024}"#,
        ),
    )
    .unwrap();
    let Ok(runtime) = plugin.select_profile("slow") else {
        panic!("the profile is registered");
    };
    let CallStage::Ready(call) = runtime.start_call() else {
        panic!("there is no token");
    };
    let result = call.finish(Reply::TimedOut);
    assert!(matches!(&result, Err(BackendError::Timeout { timeout_ms: 100 })));
    let counted = call_outcome(&result);
    assert_eq!((counted.outcome, counted.error_kind), ("error", "timeout"));

    let result = call.finish(Reply::Failed("no responders".to_owned()));
    let counted = call_outcome(&result);
    assert_eq!((counted.outcome, counted.error_kind), ("error", "transport"));
    let Err(error) = result else {
        panic!("a failed request is an error");
    };
    assert_eq!(
        message_of(error),
        "NATS request to 'mcpg.exec.request.tools.slow' failed: no responders"
    );
}

#[test]
fn outbound_request_carries_idempotency_headers() {
    let mut plugin: Plugin = NatsBackendPlugin::new(Arc::new("client".to_owned()));
    register(
        &mut plugin,
        "echo-idem",
        &json(
            r#"{"subject":"mcpg.exec.request.tools.echo_idem","timeout_ms":15000,"max_response_bytes":65536}"#,
        ),
    )
    .unwrap();
    let Ok(runtime) = plugin.select_profile("echo-idem") else {
        panic!("the profile is registered");
    };
    let CallStage::Ready(call) = runtime.start_call() else {
        panic!("there is no token");
    };
    let dispatch = call.dispatch(BackendRequest {
        payload: b"{}".to_vec(),
        headers: vec![],
        idempotency: Some(IdempotencyHint {
            key: "idem-test-key".to_owned(),
            scope_hash: "deadbeefdeadbeefdeadbeefdeadbeef".to_owned(),
        }),
    });
    assert_eq!(&dispatch.message.payload[..], b"{}");
    let headers = dispatch.message.headers.expect("the message has headers");
    assert_eq!(headers.get("idempotency-key").map(|v| v.as_str()), Some("idem-test-key"));
    assert_eq!(
        headers.get("idempotency-scope-hash").map(|v| v.as_str()),
        Some("deadbeefdeadbeefdeadbeefdeadbeef")
    );
    assert_eq!(headers.get("Nats-Msg-Id").is_some(), false);
    assert_eq!(headers.len(), 2);
}

#[test]
fn per_binding_spec_applies_gateway_defaults() {
    let spec = spec(&json(r#"{"subject":"rpc.echo"}"#));
    assert_eq!(spec.timeout_ms, 2_000);
    assert_eq!(spec.max_response_bytes, 65_536);
    assert_eq!(spec.url, None);
    assert_eq!(spec.credentials_path, None);
    assert_eq!(spec.auth_token, None);
}

#[test]
fn connection_vs_per_binding_split_resolves() {
    let backend = Plugin::from_config_json(config(
        r#"{"url":"nats://broker:4222","credentials_path":"/etc/nats.creds"}"#,
    ));
    assert_eq!(backend.conn_url().as_deref(), Some("nats://broker:4222"));
    assert_eq!(backend.conn_creds().as_deref(), Some("/etc/nats.creds"));

    let spec =
        spec(&json(r#"{"subject":"rpc.orders","timeout_ms":1500,"max_response_bytes":4096}"#));
    assert_eq!(spec.subject, "rpc.orders");
    assert_eq!(spec.timeout_ms, 1_500);
    assert_eq!(spec.max_response_bytes, 4_096);
    assert_eq!(spec.url, None);
}

#[test]
fn register_rejects_bad_values() {
    let mut plugin = Plugin::from_config_json(config(""));
    for (bad, message) in [
        (r#"{"subject":""}"#, "subject must not be empty"),
        (r#"{"subject":"has space"}"#, "subject must not contain spaces"),
        (r#"{"subject":"ok","timeout_ms":0}"#, "timeout_ms must be greater than 0"),
        (r#"{"subject":"ok","max_response_bytes":0}"#, "max_response_bytes must be greater than 0"),
    ] {
        let err = register(&mut plugin, "t", &json(bad)).expect_err("should reject bad value");
        assert!(
            matches!(err, BackendError::InvalidSpec { .. }),
            "expected InvalidSpec, got {err:?} for {bad}"
        );
        assert_eq!(message_of(err), message);
        assert!(plan_profile(&json(bad), &spec(&json(bad)), &no_tokens()).is_err());
    }
}

#[test]
fn register_rejects_cred_in_transport_only_subject() {
    let mut plugin = Plugin::from_config_json(config(""));
    let err = register(&mut plugin, "t", &json(r#"{"subject":"cred://vault/subject"}"#))
        .expect_err("should reject cred:// in transport-only subject");
    assert_eq!(message_of(err), "subject must not contain a cred:// reference");
    let err = register(&mut plugin, "t", &json(r#"{"subject":"a.${cred://vault/subject}"}"#))
        .expect_err("should reject a token as well");
    assert!(matches!(err, BackendError::InvalidSpec { .. }));
}

#[test]
fn the_first_broken_rule_is_reported() {
    let mut plugin = Plugin::from_config_json(config(""));
    let all = json(r#"{"subject":"cred:// x","timeout_ms":0,"max_response_bytes":0}"#);
    let err = register(&mut plugin, "t", &all).unwrap_err();
    assert_eq!(message_of(err), "subject must not contain spaces");
    let blank = json(r#"{"subject":" \t\n","timeout_ms":0}"#);
    let err = register(&mut plugin, "t", &blank).unwrap_err();
    assert_eq!(message_of(err), "subject must not be empty");
}

#[test]
fn a_wildcard_is_refused_at_dispatch() {
    let mut plugin: Plugin = NatsBackendPlugin::new(Arc::new("client".to_owned()));
    register(&mut plugin, "star", &json(r#"{"subject":"a.*"}"#)).unwrap();
    register(&mut plugin, "tail", &json(r#"{"subject":"a.>"}"#)).unwrap();
    for (name, subject) in [("star", "a.*"), ("tail", "a.>")] {
        let Err(error) = plugin.select_profile(name) else {
            panic!("a wildcard is refused");
        };
        assert_eq!(
            message_of(error),
            format!("NATS subject '{subject}' for binding '{name}' contains wildcard characters")
        );
    }
}

#[test]
fn a_profile_is_replaced_and_a_started_call_goes_on() {
    let mut plugin: Plugin = NatsBackendPlugin::new(Arc::new("client".to_owned()));
    register(&mut plugin, "a", &json(r#"{"subject":"one"}"#)).unwrap();
    register(&mut plugin, "b", &json(r#"{"subject":"other"}"#)).unwrap();
    let Ok(before) = plugin.select_profile("a") else {
        panic!("the profile is registered");
    };
    register(&mut plugin, "a", &json(r#"{"subject":"two"}"#)).unwrap();
    let subject = |name: &str| match plugin.select_profile(name) {
        Ok(runtime) => runtime.cfg.subject.clone(),
        Err(error) => panic!("{error:?}"),
    };
    assert_eq!(subject("a"), "two");
    assert_eq!(subject("b"), "other");
    assert_eq!(before.cfg.subject, "one");
    // A refused registration leaves what is there.
    let mut plugin = plugin;
    assert!(register(&mut plugin, "a", &json(r#"{"subject":""}"#)).is_err());
    assert!(plugin.select_profile("a").is_ok());
}

#[test]
fn a_url_without_tokens_gets_its_own_connection() {
    let raw = json(
        r#"{"subject":"s","url":"nats://own:4222","auth_token":"t","__mcpg_secret_refs":["vault://a",7,"vault://b"]}"#,
    );
    let plan = match plan_profile(&raw, &spec(&raw), &no_tokens()) {
        Ok(plan) => plan,
        Err(error) => panic!("{error:?}"),
    };
    assert!(!plan.has_cred_refs);
    assert_eq!(plan.secret_refs, ["vault://a", "vault://b"]);
    match plan.static_client {
        ClientSource::Own { url, credentials_path, auth_token } => {
            assert_eq!(url, "nats://own:4222");
            assert_eq!(credentials_path, None);
            assert_eq!(auth_token.as_deref(), Some("t"));
        }
        ClientSource::Shared => panic!("the spec has a URL"),
    }
}

#[test]
fn tokens_or_no_url_get_the_shared_connection() {
    for (raw, tokens, per_caller) in [
        (r#"{"subject":"s"}"#, no_tokens(), false),
        (r#"{"subject":"s","url":"nats://own:4222"}"#, token_in_auth(), true),
    ] {
        let raw = json(raw);
        match plan_profile(&raw, &spec(&raw), &tokens) {
            Ok(plan) => {
                assert_eq!(plan.has_cred_refs, per_caller);
                assert!(matches!(plan.static_client, ClientSource::Shared));
                assert!(plan.secret_refs.is_empty());
            }
            Err(error) => panic!("{error:?}"),
        }
    }
}

#[test]
fn tokens_make_a_call_resolve_them() {
    let mut plugin: Plugin = NatsBackendPlugin::new(Arc::new("client".to_owned()));
    plugin
        .register_profile(
            "per-caller",
            spec(&json(r#"{"subject":"s","url":"nats://h","auth_token":"${cred://vault/nats}"}"#)),
            token_in_auth(),
            Arc::new("client".to_owned()),
            Arc::new(5),
        )
        .unwrap();
    let Ok(runtime) = plugin.select_profile("per-caller") else {
        panic!("the profile is registered");
    };
    assert_eq!(*runtime.attached, 5);
    assert!(runtime.has_cred_refs);
    assert!(matches!(runtime.start_call(), CallStage::PerCaller(_)));
}

#[test]
fn the_shared_client_is_connected_once() {
    let mut plugin = Plugin::from_config_json(config(
        r#"{"url":"nats://broker:4222","credentials_path":"/etc/nats.creds"}"#,
    ));
    match plugin.shared_client(ConnectEvent::Needed) {
        Ok(ClientStep::Connect { url, credentials_path }) => {
            assert_eq!(url, "nats://broker:4222");
            assert_eq!(credentials_path.as_deref(), Some("/etc/nats.creds"));
        }
        _ => panic!("nothing is connected yet"),
    }
    let report = report_connect("nats://broker:4222", "refused");
    assert_eq!(report, "connecting to NATS at nats://broker:4222: refused");
    match plugin.shared_client(ConnectEvent::Failed(report)) {
        Err(BackendError::Transport { message }) => {
            assert_eq!(message, "connecting to NATS at nats://broker:4222: refused")
        }
        _ => panic!("a failed connect is reported"),
    }
    let connected = plugin.shared_client(ConnectEvent::Connected(Arc::new("first".to_owned())));
    assert!(matches!(connected, Ok(ClientStep::Ready(client)) if *client == "first"));
    // Somebody else connected meanwhile: the first client stays.
    let late = plugin.shared_client(ConnectEvent::Connected(Arc::new("second".to_owned())));
    assert!(matches!(late, Ok(ClientStep::Ready(client)) if *client == "first"));
    let again = plugin.shared_client(ConnectEvent::Needed);
    assert!(matches!(again, Ok(ClientStep::Ready(client)) if *client == "first"));
}

#[test]
fn no_url_is_a_transport_error() {
    let mut plugin = Plugin::from_config_json(NatsPluginConfig::default());
    match plugin.shared_client(ConnectEvent::Needed) {
        Err(BackendError::Transport { message }) => assert_eq!(
            message,
            "NATS plugin has no `url` configured; set it on the NATS binding (the gateway injects it into the plugin config)"
        ),
        _ => panic!("there is no URL"),
    }
}

#[test]
fn a_stuck_connect_is_described() {
    let credentials = ConnectFault::Credentials { path: "/etc/nats.creds".to_owned() };
    let server = ConnectFault::Server { redacted_url: "nats://u:***@h".to_owned() };
    assert_eq!(
        describe_connect(&credentials),
        "failed to load NATS credentials from /etc/nats.creds"
    );
    assert_eq!(describe_connect(&server), "failed to connect to NATS at nats://u:***@h");
    assert_eq!(describe_build(&credentials), "loading NATS credentials from /etc/nats.creds");
    assert_eq!(describe_build(&server), "connecting to NATS at nats://u:***@h");
}

#[test]
fn white_space_is_that_of_unicode() {
    for n in 0..=0x10ffffu32 {
        if let Some(c) = char::from_u32(n) {
            assert_eq!(is_white_space(c), c.is_whitespace(), "{n:x}");
        }
    }
}

#[test]
fn text_predicates() {
    assert!(is_blank(""));
    assert!(is_blank(" \u{2003}\r\n"));
    assert!(!is_blank(" x "));
    assert!(contains_char("a b", ' '));
    assert!(!contains_char("ab", ' '));
    assert!(contains_text("xcred://y", "cred://"));
    assert!(contains_text("crecred://", "cred://"));
    assert!(!contains_text("cred:/", "cred://"));
    assert!(!contains_text("cred:", "cred://"));
    assert!(contains_text("", ""));
}
