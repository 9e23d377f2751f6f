use std::sync::Arc;

use mcpg_plugin_backend_nats::connection::{ClientStep, ConnectEvent};
use mcpg_plugin_backend_nats::error::WatchError;
use mcpg_plugin_backend_nats::spec::{NatsPluginConfig, NatsWatchSpec};
use mcpg_plugin_backend_nats::watch::{Watch, WatchAction, WatchSignal};
use mcpg_plugin_backend_nats::NatsWatchPlugin;

fn start(subject: &str) -> Result<Watch, WatchError> {
    let plugin = NatsWatchPlugin::new(Arc::new(1u32));
    plugin.watch(NatsWatchSpec { subject: subject.to_owned() })
}

fn running() -> Watch {
    match start("orders.changed") {
        Ok(watch) => watch,
        Err(error) => panic!("{error:?}"),
    }
}

#[test]
fn watch_plugin_emits_on_message() {
    let mut watch = running();
    assert_eq!(watch.subject, "orders.changed");
    let mut count = 0;
    for _ in 0..3 {
        if matches!(watch.step(WatchSignal::Message), WatchAction::Emit) {
            count += 1;
        }
    }
    assert_eq!(count, 3);
    assert!(watch.running);
    assert!(matches!(watch.step(WatchSignal::Cancelled), WatchAction::Unsubscribe));
    assert!(!watch.running);
}

#[test]
fn a_stream_that_ends_ends_the_watch() {
    let mut watch = running();
    assert!(matches!(watch.step(WatchSignal::Message), WatchAction::Emit));
    assert!(matches!(watch.step(WatchSignal::Ended), WatchAction::Stop));
    assert!(matches!(watch.step(WatchSignal::Message), WatchAction::Stop));
    assert!(matches!(watch.step(WatchSignal::Cancelled), WatchAction::Stop));
}

#[test]
fn a_blank_subject_is_refused() {
    for subject in ["", " ", "\t\u{3000}"] {
        match start(subject) {
            Err(WatchError::InvalidSpec { message }) => {
                assert_eq!(message, "subject must not be empty")
            }
            _ => panic!("{subject:?} is blank"),
        }
    }
    // Unlike a binding's subject, a watched one may hold wildcards.
    assert!(start("orders.*").is_ok());
}

#[test]
fn a_refused_subscription_is_reported() {
    match running().subscribe_failed("closed") {
        WatchError::Subscribe { message } => assert_eq!(
            message,
            "failed to subscribe to NATS subject 'orders.changed': closed"
        ),
        other => panic!("{other:?}"),
    }
}

#[test]
fn the_watch_client_is_connected_once() {
    let mut plugin = NatsWatchPlugin::from_config_json(NatsPluginConfig {
        url: "nats://broker:4222".to_owned(),
        credentials_path: None,
    });
    match plugin.client(ConnectEvent::Needed) {
        Ok(ClientStep::Connect { url, credentials_path }) => {
            assert_eq!(url, "nats://broker:4222");
            assert_eq!(credentials_path, None);
        }
        _ => panic!("nothing is connected yet"),
    }
    match plugin.client(ConnectEvent::Failed("r".to_owned())) {
        Err(WatchError::Subscribe { message }) => assert_eq!(message, "r"),
        _ => panic!("a failed connect is reported"),
    }
    assert!(matches!(
        plugin.client(ConnectEvent::Connected(Arc::new(7u32))),
        Ok(ClientStep::Ready(client)) if *client == 7
    ));
    assert!(matches!(
        plugin.client(ConnectEvent::Needed),
        Ok(ClientStep::Ready(client)) if *client == 7
    ));
}

#[test]
fn a_watch_without_a_url_is_refused() {
    let mut plugin: NatsWatchPlugin<u32> =
        NatsWatchPlugin::from_config_json(NatsPluginConfig::default());
    match plugin.client(ConnectEvent::Needed) {
        Err(WatchError::Subscribe { message }) => assert_eq!(
            message,
            "NATS watch plugin has no `url` configured; set it on the NATS binding"
        ),
        _ => panic!("there is no URL"),
    }
}
