use std::sync::Arc;

use mcpg_plugin_backend_nats::call::{CredentialCall, ReadyCall};
use mcpg_plugin_backend_nats::client_registry::digest_credential_bundle;
use mcpg_plugin_backend_nats::credentials::{
    cred_keys, cred_uris, rotation_applies, rotation_secret_refs, HostFailure, ResolvedConnection,
    SpecTokens,
};
use mcpg_plugin_backend_nats::error::BackendError;
use mcpg_plugin_backend_nats::spec::NatsBackendSpec;
use mcpg_plugin_backend_nats::wire::{
    call_outcome, is_sendable, BackendRequest, IdempotencyHint, Reply,
};
use serde_json::Value;

fn json(text: &str) -> Value {
    serde_json::from_str(text).expect("JSON")
}

fn strings(list: &[&str]) -> Vec<String> {
    list.iter().map(|s| s.to_string()).collect()
}

fn pair(a: &str, b: &str) -> (String, String) {
    (a.to_owned(), b.to_owned())
}

fn cfg(max_response_bytes: usize) -> Arc<NatsBackendSpec> {
    Arc::new(NatsBackendSpec {
        url: Some("nats://${cred://vault/host}:4222".to_owned()),
        credentials_path: None,
        auth_token: Some("${cred://vault/nats}".to_owned()),
        subject: "rpc.echo".to_owned(),
        timeout_ms: 250,
        max_response_bytes,
    })
}

fn per_caller() -> CredentialCall {
    CredentialCall {
        cfg: cfg(16),
        tokens: Arc::new(SpecTokens {
            url: strings(&["cred://vault/host", "cred://vault/nats"]),
            credentials_path: vec![],
            auth_token: strings(&["cred://vault/nats", "cred://iam/me"]),
        }),
    }
}

fn ready(max_response_bytes: usize) -> ReadyCall<u32> {
    ReadyCall { client: Arc::new(1), cfg: cfg(max_response_bytes) }
}

fn failure<T>(result: Result<T, BackendError>) -> String {
    match result {
        Ok(_) => panic!("expected an error"),
        Err(BackendError::Transport { message }) => format!("transport: {message}"),
        Err(BackendError::InvalidSpec { message }) => format!("invalid spec: {message}"),
        Err(other) => format!("{other:?}"),
    }
}

#[test]
fn the_snapshot_holds_the_tokens_of_the_spec_and_nothing_else() {
    let call = per_caller();
    assert_eq!(call.uris(), ["cred://iam/me", "cred://vault/host", "cred://vault/nats"]);
    assert_eq!(
        call.snapshot(),
        json(
            r#"{"cred://iam/me":"cred://iam/me","cred://vault/host":"cred://vault/host","cred://vault/nats":"cred://vault/nats"}"#
        )
    );
}

#[test]
fn no_tokens_offer_nothing() {
    let tokens = SpecTokens { url: vec![], credentials_path: vec![], auth_token: vec![] };
    assert!(cred_uris(&tokens).is_empty());
    let call = CredentialCall { cfg: cfg(1), tokens: Arc::new(tokens) };
    assert_eq!(call.snapshot(), json("{}"));
}

#[test]
fn texts_of_the_answer_are_read() {
    let call = per_caller();
    let answer = json(r#"{"cred://vault/nats":"secret","cred://vault/host":null,"more":"m","n":3}"#);
    let mut values = match call.resolved(Ok(answer)) {
        Ok(values) => values,
        Err(error) => panic!("{error:?}"),
    };
    values.sort();
    assert_eq!(values, [pair("cred://vault/nats", "secret"), pair("more", "m")]);
}

#[test]
fn an_answer_that_is_no_object_is_refused() {
    let call = per_caller();
    for answer in ["[]", "\"cred://vault/nats\"", "null", "1"] {
        assert_eq!(
            failure(call.resolved(Ok(json(answer)))),
            "transport: credential resolver mutated snapshot to non-object"
        );
    }
}

#[test]
fn a_resolver_that_fails_is_reported() {
    let call = per_caller();
    assert_eq!(
        failure(call.resolved(Err(HostFailure::Other("denied".to_owned())))),
        "transport: credential resolution: denied"
    );
    let cause = BackendError::InvalidSpec { message: "no such issuer".to_owned() };
    assert_eq!(
        failure(call.resolved(Err(HostFailure::Backend(cause)))),
        "invalid spec: no such issuer"
    );
}

#[test]
fn resolved_fields_name_a_client() {
    let call = per_caller();
    let request = match call.client_request(
        ResolvedConnection {
            url: Some("nats://h:4222".to_owned()),
            credentials_path: None,
            auth_token: Some("secret".to_owned()),
        },
        vec![Some(pair("vault", "nats")), None, Some(pair("iam", "me")), Some(pair("iam", "me"))],
    ) {
        Ok(request) => request,
        Err(error) => panic!("{error:?}"),
    };
    assert_eq!(request.url, "nats://h:4222");
    assert_eq!(request.credentials_path, None);
    assert_eq!(request.auth_token.as_deref(), Some("secret"));
    assert_eq!(request.cred_keys, [pair("iam", "me"), pair("vault", "nats")]);
    assert_eq!(
        request.digest,
        digest_credential_bundle(&[pair("url", "nats://h:4222"), pair("auth_token", "secret")])
    );
    let with_path = match call.client_request(
        ResolvedConnection {
            url: Some("nats://h:4222".to_owned()),
            credentials_path: Some("/p".to_owned()),
            auth_token: Some("secret".to_owned()),
        },
        vec![],
    ) {
        Ok(request) => request,
        Err(error) => panic!("{error:?}"),
    };
    let expected: [u8; 32] =
        blake3::hash(b"auth_token=secret\ncredentials_path=/p\nurl=nats://h:4222\n").into();
    assert_eq!(with_path.digest, expected);
    assert_ne!(with_path.digest, request.digest);
}

#[test]
fn per_caller_credentials_need_a_url() {
    let call = per_caller();
    let result = call.client_request(
        ResolvedConnection { url: None, credentials_path: None, auth_token: Some("t".to_owned()) },
        vec![],
    );
    assert_eq!(
        failure(result),
        "invalid spec: NATS binding with a ${cred://…} token in credentials_path or auth_token also requires a `url` field on the spec — the per-credential path needs an explicit connect URL"
    );
}

#[test]
fn a_client_or_its_failure_ends_the_credential_stage() {
    match per_caller().with_client(Ok(Arc::new(9u32))) {
        Ok(ready) => {
            assert_eq!(*ready.client, 9);
            assert_eq!(ready.cfg.subject, "rpc.echo");
        }
        Err(error) => panic!("{error:?}"),
    }
    assert_eq!(
        failure(per_caller().with_client::<u32>(Err("refused".to_owned()))),
        "transport: building per-credential NATS client: refused"
    );
}

#[test]
fn pairs_are_sorted_by_their_first_text() {
    assert_eq!(
        cred_keys(vec![
            Some(pair("b", "a")),
            Some(pair("a", "z")),
            Some(pair("a", "b")),
            Some(pair("b", "a")),
        ]),
        [pair("a", "b"), pair("a", "z"), pair("b", "a")]
    );
    assert!(cred_keys(vec![None, None]).is_empty());
}

#[test]
fn secret_refs_are_the_texts_of_the_hint() {
    for (spec, refs) in [
        (r#"{"__mcpg_secret_refs":["a","b","a"]}"#, vec!["a", "b", "a"]),
        (r#"{"__mcpg_secret_refs":["a",1,null,["c"],"b"]}"#, vec!["a", "b"]),
        (r#"{"__mcpg_secret_refs":"a"}"#, vec![]),
        (r#"{"other":["a"]}"#, vec![]),
        (r#"["__mcpg_secret_refs"]"#, vec![]),
    ] {
        assert_eq!(rotation_secret_refs(&json(spec)), refs, "{spec}");
    }
    let refs = strings(&["a", "b"]);
    assert!(rotation_applies(&refs, "b"));
    assert!(!rotation_applies(&refs, "c"));
    assert!(!rotation_applies(&vec![], "a"));
}

#[test]
fn a_long_reply_is_cut_and_flagged() {
    let whole = bytes::Bytes::from(vec![1u8, 2, 3, 4]);
    for (max, payload, truncated) in [
        (4, vec![1u8, 2, 3, 4], false),
        (5, vec![1, 2, 3, 4], false),
        (3, vec![1, 2, 3], true),
        (1, vec![1], true),
    ] {
        match ready(max).finish(Reply::Message(whole.clone())) {
            Ok(response) => {
                assert_eq!(response.payload, payload);
                assert_eq!(response.truncated, truncated);
            }
            Err(error) => panic!("{error:?}"),
        }
    }
}

#[test]
fn inbound_headers_travel_on() {
    let dispatch = ready(8).dispatch(BackendRequest {
        payload: b"{\"a\":1}".to_vec(),
        headers: vec![
            pair("traceparent", "00-1"),
            pair("tracestate", "k=v"),
            pair("traceparent", "00-2"),
            pair("Nats-Msg-Id", "7"),
            pair("Idempotency-Key", "upper"),
        ],
        idempotency: None,
    });
    assert_eq!(dispatch.subject, "rpc.echo");
    assert_eq!(dispatch.timeout_ms, 250);
    assert_eq!(&dispatch.message.payload[..], b"{\"a\":1}");
    let headers = dispatch.message.headers.expect("headers");
    let all = |name: &str| -> Vec<String> {
        headers.get_all(name).map(|v| v.as_str().to_owned()).collect()
    };
    assert_eq!(all("traceparent"), ["00-2"]);
    assert_eq!(all("tracestate"), ["k=v"]);
    assert_eq!(all("Nats-Msg-Id"), ["7"]);
    assert_eq!(all("Idempotency-Key"), ["upper"]);
    assert!(all("idempotency-key").is_empty());
    assert_eq!(headers.len(), 4);
}

#[test]
fn the_idempotency_hint_stands_above_inbound_headers() {
    let dispatch = ready(8).dispatch(BackendRequest {
        payload: vec![],
        headers: vec![pair("idempotency-key", "inbound"), pair("x", "y")],
        idempotency: Some(IdempotencyHint { key: "hint".to_owned(), scope_hash: "h".to_owned() }),
    });
    let headers = dispatch.message.headers.expect("headers");
    assert_eq!(headers.get("idempotency-key").map(|v| v.as_str()), Some("hint"));
    assert_eq!(headers.get("idempotency-scope-hash").map(|v| v.as_str()), Some("h"));
    assert_eq!(headers.get("x").map(|v| v.as_str()), Some("y"));
    assert_eq!(headers.len(), 3);
}

#[test]
fn what_nats_takes_as_a_header_is_sendable() {
    let with = |name: &str, value: &str| BackendRequest {
        payload: vec![],
        headers: vec![pair(name, value)],
        idempotency: None,
    };
    assert!(is_sendable(&with("x-!~", "any é: value")));
    assert!(is_sendable(&with("", "")));
    for name in ["a b", "a:b", "é", "a\tb", "\u{7f}"] {
        assert!(!is_sendable(&with(name, "v")), "{name:?}");
        assert!(name.parse::<async_nats::HeaderName>().is_err(), "{name:?}");
    }
    for value in ["a\nb", "\r"] {
        assert!(!is_sendable(&with("n", value)), "{value:?}");
        assert!(value.parse::<async_nats::HeaderValue>().is_err(), "{value:?}");
    }
    let hint = |key: &str, scope_hash: &str| BackendRequest {
        payload: vec![],
        headers: vec![],
        idempotency: Some(IdempotencyHint {
            key: key.to_owned(),
            scope_hash: scope_hash.to_owned(),
        }),
    };
    assert!(is_sendable(&hint("k", "h")));
    assert!(!is_sendable(&hint("k\n", "h")));
    assert!(!is_sendable(&hint("k", "h\r")));
}

#[test]
fn every_ascii_header_name_agrees_with_nats() {
    for n in 0..=0x250u32 {
        let name = char::from_u32(n).expect("a character").to_string();
        let request = BackendRequest {
            payload: vec![],
            headers: vec![(name.clone(), String::new())],
            idempotency: None,
        };
        assert_eq!(is_sendable(&request), name.parse::<async_nats::HeaderName>().is_ok(), "{n:x}");
    }
}

#[test]
fn outcomes_are_counted_by_kind() {
    let counted = |reply: Reply| {
        let counted = call_outcome(&ready(8).finish(reply));
        (counted.outcome, counted.error_kind)
    };
    assert_eq!(counted(Reply::Message(bytes::Bytes::new())), ("ok", "none"));
    assert_eq!(counted(Reply::TimedOut), ("error", "timeout"));
    assert_eq!(counted(Reply::Failed("x".to_owned())), ("error", "transport"));
    let of = |error: BackendError| {
        let counted = call_outcome(&Err(error));
        (counted.outcome, counted.error_kind)
    };
    assert_eq!(
        of(BackendError::ProfileNotFound { backend_name: "n".to_owned() }),
        ("error", "profile_not_found")
    );
    assert_eq!(
        of(BackendError::InvalidSpec { message: "m".to_owned() }),
        ("error", "invalid_spec")
    );
}
