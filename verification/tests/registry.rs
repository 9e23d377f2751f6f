use std::sync::Arc;
use std::time::Duration;

use mcpg_plugin_backend_nats::backend::secret_rotated;
use mcpg_plugin_backend_nats::client_registry::{
    BuildStep, ClientRegistry, ClientRegistryConfig, CredDigest, IdleSweeper, SweepAction,
    SweepEvent, SWEEP_INTERVAL_MS,
};

fn digest(n: u8) -> CredDigest {
    [n; 32]
}

fn key(plugin_id: &str, target: &str) -> (String, String) {
    (plugin_id.to_owned(), target.to_owned())
}

fn registry(max_entries: usize, idle_eviction_ms: u64) -> ClientRegistry<u32> {
    ClientRegistry::new(ClientRegistryConfig {
        max_entries,
        idle_eviction: Duration::from_millis(idle_eviction_ms),
    })
}

/// Looks `digest` up and connects where that is asked for.
fn install(registry: &mut ClientRegistry<u32>, n: u8, client: u32, now: u64) -> Option<CredDigest> {
    assert!(matches!(registry.get_or_build(digest(n), now), BuildStep::Build));
    let installed = registry
        .finish_build(digest(n), vec![key("issuer", &format!("t{n}"))], Some(Arc::new(client)), now)
        .expect("a connect that succeeded is installed");
    assert_eq!(*installed.client, client);
    installed.evicted
}

fn is_cached(registry: &mut ClientRegistry<u32>, n: u8, now: u64) -> Option<u32> {
    match registry.get_or_build(digest(n), now) {
        BuildStep::Ready(client) => Some(*client),
        BuildStep::Wait => None,
        BuildStep::Build => {
            assert!(registry.finish_build(digest(n), vec![], None, now).is_none());
            None
        }
    }
}

#[test]
fn default_limits() {
    let config = ClientRegistryConfig::default();
    assert_eq!(config.max_entries, 256);
    assert_eq!(config.idle_eviction, Duration::from_secs(15 * 60));
    assert_eq!(SWEEP_INTERVAL_MS, 60_000);
}

#[test]
fn a_miss_connects_and_a_hit_shares() {
    let mut registry = registry(4, 1_000);
    assert!(registry.is_empty());
    assert_eq!(install(&mut registry, 1, 11, 0), None);
    assert_eq!(registry.len(), 1);
    assert!(!registry.is_empty());
    assert_eq!(is_cached(&mut registry, 1, 5), Some(11));
    assert_eq!(is_cached(&mut registry, 2, 5), None);
    assert_eq!(registry.len(), 1);
}

#[test]
fn cold_callers_wait_for_one_connect() {
    let mut registry = registry(4, 1_000);
    assert!(matches!(registry.get_or_build(digest(1), 0), BuildStep::Build));
    assert!(matches!(registry.get_or_build(digest(1), 0), BuildStep::Wait));
    assert!(matches!(registry.get_or_build(digest(1), 1), BuildStep::Wait));
    // Another digest does not wait.
    assert!(matches!(registry.get_or_build(digest(2), 1), BuildStep::Build));
    registry.finish_build(digest(1), vec![], Some(Arc::new(7)), 2);
    assert!(matches!(registry.get_or_build(digest(1), 3), BuildStep::Ready(client) if *client == 7));
    assert!(matches!(registry.get_or_build(digest(2), 3), BuildStep::Wait));
}

#[test]
fn a_failed_connect_is_retried() {
    let mut registry = registry(4, 1_000);
    assert!(matches!(registry.get_or_build(digest(1), 0), BuildStep::Build));
    assert!(registry.finish_build(digest(1), vec![], None, 0).is_none());
    assert!(registry.is_empty());
    assert!(matches!(registry.get_or_build(digest(1), 0), BuildStep::Build));
}

#[test]
fn an_installed_client_wins_over_a_late_one() {
    let mut registry = registry(4, 1_000);
    install(&mut registry, 1, 11, 0);
    let late = registry
        .finish_build(digest(1), vec![], Some(Arc::new(99)), 1)
        .expect("there is a client");
    assert_eq!(*late.client, 11);
    assert_eq!(late.evicted, None);
    assert_eq!(registry.len(), 1);
}

#[test]
fn the_least_recently_used_client_makes_room() {
    let mut registry = registry(2, 1_000);
    assert_eq!(install(&mut registry, 1, 11, 10), None);
    assert_eq!(install(&mut registry, 2, 22, 20), None);
    assert_eq!(is_cached(&mut registry, 1, 30), Some(11));
    assert_eq!(install(&mut registry, 3, 33, 40), Some(digest(2)));
    assert_eq!(registry.len(), 2);
    assert_eq!(is_cached(&mut registry, 2, 50), None);
    assert_eq!(is_cached(&mut registry, 1, 50), Some(11));
    assert_eq!(is_cached(&mut registry, 3, 50), Some(33));
}

#[test]
fn a_registry_without_room_keeps_nothing() {
    let mut registry = registry(0, 1_000);
    assert_eq!(install(&mut registry, 1, 11, 0), Some(digest(1)));
    assert!(registry.is_empty());
}

#[test]
fn the_default_registry_is_bounded() {
    let mut registry: ClientRegistry<u32> = ClientRegistry::new(ClientRegistryConfig::default());
    for n in 0..300u32 {
        let mut d = digest(0);
        d[0] = (n % 256) as u8;
        d[1] = (n / 256) as u8;
        assert!(matches!(registry.get_or_build(d, n as u64), BuildStep::Build));
        registry.finish_build(d, vec![], Some(Arc::new(n)), n as u64);
    }
    assert_eq!(registry.len(), 256);
}

#[test]
fn a_revocation_drops_its_clients_only() {
    let mut registry = registry(8, 1_000);
    registry.get_or_build(digest(1), 0);
    registry.finish_build(digest(1), vec![key("vault", "a"), key("vault", "b")], Some(Arc::new(1)), 0);
    registry.get_or_build(digest(2), 0);
    registry.finish_build(digest(2), vec![key("vault", "b")], Some(Arc::new(2)), 0);
    registry.get_or_build(digest(3), 0);
    registry.finish_build(digest(3), vec![key("a", "vault")], Some(Arc::new(3)), 0);
    assert_eq!(registry.evict_for("vault", "none"), 0);
    assert_eq!(registry.evict_for("vault", "a"), 1);
    assert_eq!(is_cached(&mut registry, 1, 1), None);
    assert_eq!(is_cached(&mut registry, 2, 1), Some(2));
    assert_eq!(registry.evict_for("vault", "b"), 1);
    assert_eq!(registry.len(), 1);
    assert_eq!(is_cached(&mut registry, 3, 1), Some(3));
}

#[test]
fn a_rotation_drops_every_client_of_a_profile_it_concerns() {
    let mut registry = registry(8, 1_000);
    install(&mut registry, 1, 11, 0);
    install(&mut registry, 2, 22, 0);
    let refs = vec!["vault://kv/nats".to_owned(), "vault://kv/ca".to_owned()];
    assert_eq!(secret_rotated(&mut registry, &refs, "vault://kv/other"), 0);
    assert_eq!(registry.len(), 2);
    assert_eq!(secret_rotated(&mut registry, &refs, "vault://kv/ca"), 2);
    assert!(registry.is_empty());
    assert_eq!(secret_rotated(&mut registry, &refs, "vault://kv/ca"), 0);
}

#[test]
fn evict_for_secret_clears_whatever_the_secret() {
    let mut registry = registry(8, 1_000);
    install(&mut registry, 1, 11, 0);
    assert_eq!(registry.evict_for_secret("anything"), 1);
    assert!(registry.is_empty());
}

#[test]
fn a_sweep_drops_what_is_idle_beyond_the_threshold() {
    let mut registry = registry(8, 100);
    install(&mut registry, 1, 11, 0);
    install(&mut registry, 2, 22, 50);
    assert_eq!(registry.sweep_idle(100), 0);
    assert_eq!(registry.sweep_idle(101), 1);
    assert_eq!(registry.sweep_idle(101), 0);
    assert_eq!(is_cached(&mut registry, 1, 101), None);
    assert_eq!(is_cached(&mut registry, 2, 101), Some(22));
    // A lookup counts as use.
    assert_eq!(registry.sweep_idle(201), 0);
    assert_eq!(registry.sweep_idle(202), 1);
}

#[test]
fn a_limit_beyond_every_age_drops_nothing() {
    // A little more than 2^64 milliseconds.
    let mut registry: ClientRegistry<u32> = ClientRegistry::new(ClientRegistryConfig {
        max_entries: 8,
        idle_eviction: Duration::from_secs(18_446_744_073_709_552),
    });
    install(&mut registry, 1, 11, 0);
    assert_eq!(registry.sweep_idle(385), 0);
    assert_eq!(registry.sweep_idle(u64::MAX), 0);
    assert_eq!(registry.len(), 1);
}

#[test]
fn a_limit_below_a_millisecond_counts_as_none() {
    let mut registry: ClientRegistry<u32> = ClientRegistry::new(ClientRegistryConfig {
        max_entries: 8,
        idle_eviction: Duration::from_micros(999),
    });
    install(&mut registry, 1, 11, 5);
    assert_eq!(registry.sweep_idle(5), 0);
    assert_eq!(registry.sweep_idle(6), 1);
}

#[test]
fn a_clock_that_went_back_finds_nothing_idle() {
    let mut registry = registry(8, 0);
    install(&mut registry, 1, 11, 500);
    assert_eq!(registry.sweep_idle(400), 0);
    assert_eq!(registry.sweep_idle(500), 0);
    assert_eq!(registry.sweep_idle(501), 1);
}

#[test]
fn the_sweeper_passes_over_its_first_tick() {
    let mut registry = registry(8, 10);
    install(&mut registry, 1, 11, 0);
    let mut sweeper = IdleSweeper::new();
    assert!(matches!(
        sweeper.step(&mut registry, SweepEvent::Tick, 1_000),
        SweepAction::Continue { evicted: 0 }
    ));
    assert_eq!(registry.len(), 1);
    assert!(matches!(
        sweeper.step(&mut registry, SweepEvent::Tick, 1_000),
        SweepAction::Continue { evicted: 1 }
    ));
    assert!(registry.is_empty());
    assert!(matches!(
        sweeper.step(&mut registry, SweepEvent::Cancelled, 2_000),
        SweepAction::Stop
    ));
}
