//! Per-credential NATS client cache.
//!
//! Keyed on a BLAKE3 digest of the resolved credential bundle, bounded in
//! size with LRU and idle eviction, and told of credential revocations and
//! secret rotations for precise eviction.
//!
//! NATS clients are cheap to create, but per-connection auth state is
//! per-credential: every distinct caller credential needs its own connection.
//! The registry amortises connect cost across calls from the same caller
//! while keeping the steady-state connection count bounded.
//!
//! The registry never connects by itself. It decides, and the caller performs:
//! [`ClientRegistry::get_or_build`] answers a lookup with the client to use,
//! or asks for a connect whose outcome goes to
//! [`ClientRegistry::finish_build`]. Times are milliseconds since the epoch of
//! the registry.

use std::sync::Arc;
use std::time::Duration;

use vstd::prelude::*;

pub use crate::digest::{digest_credential_bundle, static_digest, CredDigest};
use crate::keyed::{
    contents, keys_distinct, lemma_contents, lemma_push, lemma_remove, lemma_update, Keyed,
};
use crate::order::{same_text, text_pairs, TextPair};

verus! {

/// How large the registry may grow, and how long a client may stay unused.
#[derive(Debug, Clone, Copy)]
pub struct ClientRegistryConfig {
    /// The most clients the registry keeps.
    pub max_entries: usize,
    /// How long a client may stay unused before it is dropped.
    pub idle_eviction: Duration,
}

/// The duration of `secs` whole seconds.
pub uninterp spec fn seconds(secs: u64) -> Duration;

/// The whole milliseconds in a duration.
pub uninterp spec fn whole_millis(duration: Duration) -> u128;

/// `Duration::from_secs`: the duration of that many whole seconds, a function
/// of their number alone, each second being a thousand milliseconds.
pub assume_specification[ Duration::from_secs ](secs: u64) -> (duration: Duration)
    ensures
        duration == seconds(secs),
        whole_millis(duration) == secs * 1000,
;

/// `Duration::as_millis`: the whole milliseconds in the duration.
pub assume_specification[ Duration::as_millis ](duration: &Duration) -> (millis: u128)
    ensures
        millis == whole_millis(*duration),
;

impl Default for ClientRegistryConfig {
    /// 256 clients, 15 minutes.
    fn default() -> (config: Self)
        ensures
            config.max_entries == 256,
            config.idle_eviction == seconds(900),
            whole_millis(config.idle_eviction) == 15 * 60 * 1000,
    {
        ClientRegistryConfig { max_entries: 256, idle_eviction: Duration::from_secs(15 * 60) }
    }
}

/// Milliseconds between two sweeps of a registry.
pub const SWEEP_INTERVAL_MS: u64 = 60_000;

/// One entry in the registry: the live client, the `(plugin_id, target)` pairs
/// that produced its credentials, and when it was last asked for.
struct ClientEntry<C> {
    digest: CredDigest,
    client: Arc<C>,
    cred_keys: Vec<(String, String)>,
    last_used: u64,
}

/// What the registry knows of one cached client.
pub struct CachedClient<C> {
    pub client: Arc<C>,
    pub cred_keys: Seq<TextPair>,
    pub last_used: u64,
}

/// The cached clients, by digest.
pub type Clients<C> = Map<Seq<u8>, CachedClient<C>>;

impl<C> Keyed for ClientEntry<C> {
    type Key = Seq<u8>;

    type Value = CachedClient<C>;

    closed spec fn key(&self) -> Seq<u8> {
        self.digest@
    }

    closed spec fn value(&self) -> CachedClient<C> {
        CachedClient {
            client: self.client,
            cred_keys: text_pairs(self.cred_keys@),
            last_used: self.last_used,
        }
    }
}

/// Milliseconds for which a client last used at `last_used` has been idle at
/// `now`; zero where the clock reads earlier than that.
pub open spec fn idle_age(now: u64, last_used: u64) -> int {
    if now >= last_used {
        now - last_used
    } else {
        0
    }
}

/// Which clients an eviction drops.
enum Eviction<'a> {
    /// Those whose credentials came from one issuer's target.
    Revoked { plugin_id: &'a str, target: &'a str },
    /// Those idle for longer than a threshold.
    Idle { now: u64, threshold_ms: u128 },
}

impl<'a> Eviction<'a> {
    spec fn drops<C>(self, cached: CachedClient<C>) -> bool {
        match self {
            Eviction::Revoked { plugin_id, target } => cached.cred_keys.contains(
                (plugin_id@, target@),
            ),
            Eviction::Idle { now, threshold_ms } => idle_age(now, cached.last_used) > threshold_ms,
        }
    }

    fn applies_to<C>(&self, entry: &ClientEntry<C>) -> (yes: bool)
        ensures
            yes == self.drops(entry.value()),
    {
        match self {
            Eviction::Revoked { plugin_id, target } => holds_key(
                &entry.cred_keys,
                plugin_id,
                target,
            ),
            Eviction::Idle { now, threshold_ms } => {
                if *now >= entry.last_used {
                    (*now - entry.last_used) as u128 > *threshold_ms
                } else {
                    false
                }
            },
        }
    }
}

fn holds_key(keys: &Vec<(String, String)>, plugin_id: &str, target: &str) -> (yes: bool)
    ensures
        yes == text_pairs(keys@).contains((plugin_id@, target@)),
{
    let ghost pairs = text_pairs(keys@);
    let mut i: usize = 0;
    while i < keys.len()
        invariant
            i <= keys.len(),
            pairs == text_pairs(keys@),
            forall|j: int| 0 <= j < i ==> #[trigger] pairs[j] != (plugin_id@, target@),
        decreases keys.len() - i,
    {
        if same_text(keys[i].0.as_str(), plugin_id) && same_text(keys[i].1.as_str(), target) {
            assert(pairs[i as int] == (plugin_id@, target@));
            return true;
        }
        assert(pairs[i as int] == (keys@[i as int].0@, keys@[i as int].1@));
        i += 1;
    }
    false
}

/// Tells whether two digests are the same.
fn same_digest(a: &CredDigest, b: &CredDigest) -> (yes: bool)
    ensures
        yes == (a@ == b@),
{
    let mut i: usize = 0;
    while i < 32
        invariant
            i <= 32,
            forall|j: int| 0 <= j < i ==> a@[j] == b@[j],
        decreases 32 - i,
    {
        if a[i] != b[i] {
            assert(a@[i as int] != b@[i as int]);
            return false;
        }
        i += 1;
    }
    assert(a@ =~= b@);
    true
}

/// The clients that an eviction leaves.
pub open spec fn kept<C>(clients: Clients<C>, dropped: spec_fn(CachedClient<C>) -> bool) -> Clients<
    C,
> {
    Map::new(
        |d: Seq<u8>| clients.contains_key(d) && !dropped(clients[d]),
        |d: Seq<u8>| clients[d],
    )
}

/// The clients not built from the credential `target` of `plugin_id`.
pub open spec fn without_key<C>(
    clients: Clients<C>,
    plugin_id: Seq<char>,
    target: Seq<char>,
) -> Clients<C> {
    kept(clients, |cached: CachedClient<C>| cached.cred_keys.contains((plugin_id, target)))
}

/// The clients idle for at most `threshold_ms` at `now`.
pub open spec fn without_idle<C>(clients: Clients<C>, now: u64, threshold_ms: u128) -> Clients<C> {
    kept(clients, |cached: CachedClient<C>| idle_age(now, cached.last_used) > threshold_ms)
}

/// Whether `d` is a least recently used client of `clients`.
pub open spec fn least_recently_used<C>(clients: Clients<C>, d: Seq<u8>) -> bool {
    &&& clients.contains_key(d)
    &&& forall|other: Seq<u8>| #[trigger]
        clients.contains_key(other) ==> clients[d].last_used <= clients[other].last_used
}

/// The client of `d` marked as used at `now`.
pub open spec fn touched<C>(clients: Clients<C>, d: Seq<u8>, now: u64) -> Clients<C> {
    clients.insert(
        d,
        CachedClient {
            client: clients[d].client,
            cred_keys: clients[d].cred_keys,
            last_used: now,
        },
    )
}

/// What a lookup calls for.
pub enum BuildStep<C> {
    /// Use this client.
    Ready(Arc<C>),
    /// Somebody is already connecting with these credentials: look up again
    /// once that has ended.
    Wait,
    /// Connect, and report how it went to [`ClientRegistry::finish_build`].
    Build,
}

/// The outcome of a connect that was installed.
pub struct Installed<C> {
    /// The client to use.
    pub client: Arc<C>,
    /// The digest of the client that had to make room, if one had to.
    pub evicted: Option<CredDigest>,
}

/// The state of a registry.
pub struct RegistryState<C> {
    /// The cached clients.
    pub clients: Clients<C>,
    /// The digests for which a connect is under way.
    pub connecting: Set<Seq<u8>>,
    /// The limits the registry was made with.
    pub limits: ClientRegistryConfig,
}

/// What a lookup of `digest` at `now` does: the step it answers, and the state
/// it leaves.
pub open spec fn looked_up<C>(
    before: RegistryState<C>,
    digest: Seq<u8>,
    now: u64,
    step: BuildStep<C>,
    after: RegistryState<C>,
) -> bool {
    if before.clients.contains_key(digest) {
        &&& step == BuildStep::Ready(before.clients[digest].client)
        &&& after == RegistryState { clients: touched(before.clients, digest, now), ..before }
    } else if before.connecting.contains(digest) {
        &&& step == BuildStep::<C>::Wait
        &&& after == before
    } else {
        &&& step == BuildStep::<C>::Build
        &&& after == RegistryState { connecting: before.connecting.insert(digest), ..before }
    }
}

/// What the end of a connect for `digest` does: whether and what it installs,
/// and the state it leaves.
pub open spec fn build_finished<C>(
    before: RegistryState<C>,
    digest: Seq<u8>,
    cred_keys: Seq<TextPair>,
    built: Option<Arc<C>>,
    now: u64,
    installed: Option<Installed<C>>,
    after: RegistryState<C>,
) -> bool {
    let ended = RegistryState { connecting: before.connecting.remove(digest), ..before };
    match built {
        None => installed is None && after == ended,
        Some(client) => if before.clients.contains_key(digest) {
            &&& installed is Some
            &&& installed->0.client == before.clients[digest].client
            &&& installed->0.evicted is None
            &&& after == RegistryState { clients: touched(before.clients, digest, now), ..ended }
        } else {
            let grown = before.clients.insert(
                digest,
                CachedClient { client, cred_keys, last_used: now },
            );
            &&& installed is Some
            &&& installed->0.client == client
            &&& match installed->0.evicted {
                None => {
                    &&& grown.len() <= before.limits.max_entries
                    &&& after == RegistryState { clients: grown, ..ended }
                },
                Some(evicted) => {
                    &&& grown.len() > before.limits.max_entries
                    &&& least_recently_used(grown, evicted@)
                    &&& after == RegistryState { clients: grown.remove(evicted@), ..ended }
                },
            }
        },
    }
}

/// Bounded per-credential client cache. See the module docs.
pub struct ClientRegistry<C> {
    entries: Vec<ClientEntry<C>>,
    building: Vec<CredDigest>,
    config: ClientRegistryConfig,
}

spec fn digest_views(list: Seq<CredDigest>) -> Seq<Seq<u8>> {
    Seq::new(list.len(), |i: int| list[i]@)
}

impl<C> ClientRegistry<C> {
    /// The state of the registry.
    pub closed spec fn state(&self) -> RegistryState<C> {
        RegistryState {
            clients: contents(self.entries@),
            connecting: digest_views(self.building@).to_set(),
            limits: self.config,
        }
    }

    spec fn clients(&self) -> Clients<C> {
        self.state().clients
    }

    spec fn connecting(&self) -> Set<Seq<u8>> {
        self.state().connecting
    }

    /// No digest has two clients or two connects under way, and the number of
    /// clients is within its limit.
    pub closed spec fn inv(&self) -> bool {
        &&& keys_distinct(self.entries@)
        &&& digest_views(self.building@).no_duplicates()
        &&& self.entries.len() <= self.config.max_entries
    }

    /// Create an empty registry with the given config.
    #[must_use]
    pub fn new(config: ClientRegistryConfig) -> (registry: Self)
        ensures
            registry.inv(),
            registry.state() == (RegistryState::<C> {
                clients: Map::empty(),
                connecting: Set::empty(),
                limits: config,
            }),
    {
        let registry = ClientRegistry { entries: Vec::new(), building: Vec::new(), config };
        assert(digest_views(registry.building@) =~= Seq::<Seq<u8>>::empty());
        assert(registry.connecting() =~= Set::<Seq<u8>>::empty());
        registry
    }

    fn find(&self, digest: &CredDigest) -> (at: Option<usize>)
        requires
            self.inv(),
        ensures
            match at {
                Some(i) => i < self.entries.len() && self.entries@[i as int].key() == digest@
                    && self.clients().contains_key(digest@) && self.clients()[digest@]
                    == self.entries@[i as int].value(),
                None => !self.clients().contains_key(digest@),
            },
    {
        proof {
            lemma_contents(self.entries@);
        }
        let mut i: usize = 0;
        while i < self.entries.len()
            invariant
                self.inv(),
                i <= self.entries.len(),
                forall|j: int| 0 <= j < i ==> #[trigger] self.entries@[j].key() != digest@,
            decreases self.entries.len() - i,
        {
            if same_digest(&self.entries[i].digest, digest) {
                proof {
                    lemma_contents(self.entries@);
                }
                return Some(i);
            }
            i += 1;
        }
        None
    }

    fn find_building(&self, digest: &CredDigest) -> (at: Option<usize>)
        ensures
            match at {
                Some(i) => i < self.building.len() && self.building@[i as int]@ == digest@
                    && self.connecting().contains(digest@),
                None => !self.connecting().contains(digest@),
            },
    {
        let ghost views = digest_views(self.building@);
        let mut i: usize = 0;
        while i < self.building.len()
            invariant
                i <= self.building.len(),
                views == digest_views(self.building@),
                forall|j: int| 0 <= j < i ==> #[trigger] views[j] != digest@,
            decreases self.building.len() - i,
        {
            if same_digest(&self.building[i], digest) {
                assert(views[i as int] == digest@);
                assert(views.contains(digest@));
                return Some(i);
            }
            assert(views[i as int] == self.building@[i as int]@);
            i += 1;
        }
        None
    }

    fn touch(&mut self, at: usize, now: u64)
        requires
            old(self).inv(),
            at < old(self).entries.len(),
        ensures
            final(self).inv(),
            final(self).clients() == touched(
                old(self).clients(),
                old(self).entries@[at as int].key(),
                now,
            ),
            final(self).building == old(self).building,
            final(self).config == old(self).config,
    {
        let ghost before = self.entries@;
        self.entries[at].last_used = now;
        proof {
            lemma_contents(before);
            let entry = self.entries@[at as int];
            assert(self.entries@ =~= before.update(at as int, entry));
            lemma_update(before, at as int, entry);
            assert(entry.value().cred_keys == before[at as int].value().cred_keys);
        }
    }

    /// Look up the client of `digest` at time `now`.
    ///
    /// A cached client is handed out and counts as used. On a miss exactly one
    /// caller is told to connect; whoever asks for the same digest while that
    /// connect is under way waits for it, so a thundering herd of cold callers
    /// does not spawn parallel connects.
    pub fn get_or_build(&mut self, digest: CredDigest, now: u64) -> (step: BuildStep<C>)
        requires
            old(self).inv(),
        ensures
            final(self).inv(),
            looked_up(old(self).state(), digest@, now, step, final(self).state()),
    {
        if let Some(at) = self.find(&digest) {
            let client = Arc::clone(&self.entries[at].client);
            self.touch(at, now);
            return BuildStep::Ready(client);
        }
        if let Some(_) = self.find_building(&digest) {
            return BuildStep::Wait;
        }
        let ghost before = digest_views(self.building@);
        self.building.push(digest);
        proof {
            let after = digest_views(self.building@);
            assert(after =~= before.push(digest@));
            assert(!before.contains(digest@));
            assert(after.to_set() =~= before.to_set().insert(digest@)) by {
                assert forall|d: Seq<u8>| after.contains(d) <==> before.contains(d) || d
                    == digest@ by {
                    assert(after[before.len() as int] == digest@);
                    if before.contains(d) {
                        let k = choose|k: int| 0 <= k < before.len() && before[k] == d;
                        assert(after[k] == d);
                    }
                }
            }
        }
        BuildStep::Build
    }

    /// The position of a least recently used entry.
    fn oldest(&self) -> (at: usize)
        requires
            keys_distinct(self.entries@),
            self.entries.len() > 0,
        ensures
            at < self.entries.len(),
            least_recently_used(self.clients(), self.entries@[at as int].key()),
    {
        let mut at: usize = 0;
        let mut i: usize = 1;
        while i < self.entries.len()
            invariant
                at < i <= self.entries.len(),
                forall|j: int|
                    0 <= j < i ==> self.entries@[at as int].last_used <= #[trigger]
                    self.entries@[j].last_used,
            decreases self.entries.len() - i,
        {
            if self.entries[i].last_used < self.entries[at].last_used {
                at = i;
            }
            i += 1;
        }
        proof {
            lemma_contents(self.entries@);
            let clients = self.clients();
            let d = self.entries@[at as int].key();
            assert forall|other: Seq<u8>| #[trigger]
                clients.contains_key(other) implies clients[d].last_used
                <= clients[other].last_used by {
                let k = choose|k: int|
                    0 <= k < self.entries.len() && #[trigger] self.entries@[k].key() == other;
                assert(clients[other] == self.entries@[k].value());
            }
        }
        at
    }

    /// Report how the connect for `digest` ended, at time `now`: `built` is
    /// the new client, or `None` where the connect failed.
    ///
    /// A failed connect leaves no client behind. A client that is cached
    /// already wins over the new one. Where the new client makes the registry
    /// too large, one least recently used client is dropped.
    pub fn finish_build(
        &mut self,
        digest: CredDigest,
        cred_keys: Vec<(String, String)>,
        built: Option<Arc<C>>,
        now: u64,
    ) -> (installed: Option<Installed<C>>)
        requires
            old(self).inv(),
        ensures
            final(self).inv(),
            build_finished(
                old(self).state(),
                digest@,
                text_pairs(cred_keys@),
                built,
                now,
                installed,
                final(self).state(),
            ),
            built is Some && !old(self).state().clients.contains_key(digest@) ==> {
                let after = final(self).state().clients;
                after.contains_key(digest@) ==> {
                    &&& after[digest@].client == built->0
                    &&& after[digest@].last_used == now
                    &&& after[digest@].cred_keys.len() == cred_keys@.len()
                    &&& forall|i: int|
                        0 <= i < cred_keys@.len() ==> #[trigger] after[digest@].cred_keys[i] == (
                            cred_keys@[i].0@,
                            cred_keys@[i].1@,
                        )
                }
            },
    {
        if let Some(at) = self.find_building(&digest) {
            let ghost before = digest_views(self.building@);
            self.building.remove(at);
            proof {
                lemma_remove_distinct(before, at as int);
                assert(digest_views(self.building@) =~= before.remove(at as int));
            }
        } else {
            assert(self.connecting().remove(digest@) =~= self.connecting());
        }
        let client = match built {
            None => {
                return None;
            },
            Some(client) => client,
        };
        if let Some(at) = self.find(&digest) {
            let existing = Arc::clone(&self.entries[at].client);
            self.touch(at, now);
            return Some(Installed { client: existing, evicted: None });
        }
        let ghost before = self.entries@;
        let entry = ClientEntry { digest, client: Arc::clone(&client), cred_keys, last_used: now };
        proof {
            lemma_push(before, entry);
            lemma_contents(before.push(entry));
        }
        self.entries.push(entry);
        if self.entries.len() > self.config.max_entries {
            let at = self.oldest();
            let evicted = self.entries[at].digest;
            proof {
                lemma_remove(self.entries@, at as int);
            }
            self.entries.remove(at);
            return Some(Installed { client, evicted: Some(evicted) });
        }
        Some(Installed { client, evicted: None })
    }

    /// Drop every entry the eviction applies to, and count them.
    fn drop_entries(&mut self, eviction: &Eviction) -> (count: usize)
        requires
            old(self).inv(),
        ensures
            final(self).inv(),
            final(self).clients() == kept(
                old(self).clients(),
                |cached: CachedClient<C>| eviction.drops(cached),
            ),
            count == old(self).clients().len() - final(self).clients().len(),
            final(self).building == old(self).building,
            final(self).config == old(self).config,
    {
        let ghost before = self.clients();
        let ghost total = self.entries@.len();
        proof {
            lemma_contents(self.entries@);
        }
        let mut count: usize = 0;
        let mut i: usize = 0;
        while i < self.entries.len()
            invariant
                self.inv(),
                self.building == old(self).building,
                self.config == old(self).config,
                i <= self.entries.len(),
                count + self.entries.len() == total,
                total <= usize::MAX,
                before == old(self).clients(),
                forall|d: Seq<u8>| #[trigger]
                    self.clients().contains_key(d) ==> before.contains_key(d)
                        && self.clients()[d] == before[d],
                forall|d: Seq<u8>| #[trigger]
                    before.contains_key(d) && !self.clients().contains_key(d) ==> eviction.drops(
                        before[d],
                    ),
                forall|j: int|
                    0 <= j < i ==> !eviction.drops((#[trigger] self.entries@[j]).value()),
            decreases self.entries.len() - i,
        {
            proof {
                lemma_contents(self.entries@);
            }
            if eviction.applies_to(&self.entries[i]) {
                let ghost entries = self.entries@;
                let ghost clients = self.clients();
                proof {
                    lemma_remove(entries, i as int);
                    assert(clients.contains_key(entries[i as int].key()));
                }
                self.entries.remove(i);
                count += 1;
                assert forall|j: int| 0 <= j < i implies !eviction.drops(
                    (#[trigger] self.entries@[j]).value(),
                ) by {
                    assert(self.entries@[j] == entries[j]);
                }
            } else {
                i += 1;
            }
        }
        proof {
            lemma_contents(self.entries@);
            let wanted = kept(before, |cached: CachedClient<C>| eviction.drops(cached));
            assert forall|d: Seq<u8>| #[trigger] self.clients().contains_key(d) implies
                !eviction.drops(before[d]) by {
                let k = choose|k: int|
                    0 <= k < self.entries.len() && #[trigger] self.entries@[k].key() == d;
                assert(self.clients()[d] == self.entries@[k].value());
            }
            assert(self.clients() =~= wanted);
        }
        count
    }

    /// Drop every client built from the given `(plugin_id, target)` pair, and
    /// count them. Called when a credential is revoked.
    pub fn evict_for(&mut self, plugin_id: &str, target: &str) -> (count: usize)
        requires
            old(self).inv(),
        ensures
            final(self).inv(),
            final(self).state() == (RegistryState {
                clients: without_key(old(self).state().clients, plugin_id@, target@),
                ..old(self).state()
            }),
            forall|d: Seq<u8>| #[trigger]
                final(self).state().clients.contains_key(d) <==> old(self).state().clients.contains_key(d) && !old(self).state().clients[d].cred_keys.contains((plugin_id@, target@)),
            forall|d: Seq<u8>| #[trigger]
                final(self).state().clients.contains_key(d) ==> final(self).state().clients[d]
                    == old(self).state().clients[d],
            count == old(self).state().clients.len() - final(self).state().clients.len(),
    {
        let count = self.drop_entries(&Eviction::Revoked { plugin_id, target });
        assert(self.clients() =~= without_key(old(self).clients(), plugin_id@, target@));
        count
    }

    /// Drop every client, and count them. Called when a secret behind this
    /// profile rotates: every client shares the profile's secrets, so the
    /// secret itself makes no difference.
    pub fn evict_for_secret(&mut self, _secret_ref: &str) -> (count: usize)
        requires
            old(self).inv(),
        ensures
            final(self).inv(),
            final(self).state() == (RegistryState {
                clients: Map::empty(),
                ..old(self).state()
            }),
            count == old(self).state().clients.len(),
    {
        proof {
            lemma_contents(self.entries@);
        }
        let count = self.entries.len();
        self.entries.clear();
        count
    }

    /// Drop the clients that have been idle for longer than the configured
    /// threshold at time `now`, and count them.
    pub fn sweep_idle(&mut self, now: u64) -> (count: usize)
        requires
            old(self).inv(),
        ensures
            final(self).inv(),
            final(self).state() == (RegistryState {
                clients: without_idle(
                    old(self).state().clients,
                    now,
                    whole_millis(old(self).state().limits.idle_eviction),
                ),
                ..old(self).state()
            }),
            forall|d: Seq<u8>| #[trigger]
                final(self).state().clients.contains_key(d) <==> old(self).state().clients.contains_key(d) && now <= old(self).state().clients[d].last_used
                    + whole_millis(old(self).state().limits.idle_eviction),
            forall|d: Seq<u8>| #[trigger]
                final(self).state().clients.contains_key(d) ==> final(self).state().clients[d]
                    == old(self).state().clients[d],
            count == old(self).state().clients.len() - final(self).state().clients.len(),
    {
        let threshold_ms: u128 = self.config.idle_eviction.as_millis();
        let count = self.drop_entries(&Eviction::Idle { now, threshold_ms });
        assert(self.clients() =~= without_idle(old(self).clients(), now, threshold_ms));
        count
    }

    /// Number of clients in the registry.
    pub fn len(&self) -> (count: usize)
        requires
            self.inv(),
        ensures
            count == self.state().clients.len(),
    {
        proof {
            lemma_contents(self.entries@);
        }
        self.entries.len()
    }

    /// Whether the registry has no clients.
    pub fn is_empty(&self) -> (yes: bool)
        requires
            self.inv(),
        ensures
            yes == (self.state().clients == Map::<Seq<u8>, CachedClient<C>>::empty()),
    {
        proof {
            lemma_contents(self.entries@);
            if self.entries.len() > 0 {
                assert(self.clients().contains_key(self.entries@[0].key()));
            }
        }
        self.entries.is_empty()
    }
}

proof fn lemma_remove_distinct(list: Seq<Seq<u8>>, at: int)
    requires
        list.no_duplicates(),
        0 <= at < list.len(),
    ensures
        list.remove(at).no_duplicates(),
        list.remove(at).to_set() == list.to_set().remove(list[at]),
{
    let rest = list.remove(at);
    assert forall|d: Seq<u8>| rest.contains(d) <==> list.contains(d) && d != list[at] by {
        if rest.contains(d) {
            let k = choose|k: int| 0 <= k < rest.len() && rest[k] == d;
            assert(list[if k < at { k } else { k + 1 }] == d);
        }
        if list.contains(d) && d != list[at] {
            let k = choose|k: int| 0 <= k < list.len() && list[k] == d;
            assert(rest[if k < at { k } else { k - 1 }] == d);
        }
    }
    assert(rest.to_set() =~= list.to_set().remove(list[at]));
}

/// What happens to the background sweeper.
pub enum SweepEvent {
    /// The interval has elapsed.
    Tick,
    /// The last guard was dropped.
    Cancelled,
}

/// What the background sweeper does next.
pub enum SweepAction {
    /// Wait for the next event, after having dropped this many idle clients.
    Continue { evicted: usize },
    /// End the task.
    Stop,
}

/// The background sweeper's loop: the first tick comes at once and is passed
/// over, every later one sweeps the registry, and cancellation ends it.
pub struct IdleSweeper {
    /// Whether the immediate first tick has gone by.
    pub started: bool,
}

impl IdleSweeper {
    /// A sweeper that has seen no event yet.
    pub fn new() -> (sweeper: Self)
        ensures
            !sweeper.started,
    {
        IdleSweeper { started: false }
    }

    /// Take one event at time `now`.
    pub fn step<C>(
        &mut self,
        registry: &mut ClientRegistry<C>,
        event: SweepEvent,
        now: u64,
    ) -> (action: SweepAction)
        requires
            old(registry).inv(),
        ensures
            final(registry).inv(),
            event is Cancelled ==> {
                &&& action is Stop
                &&& *final(self) == *old(self)
                &&& final(registry).state() == old(registry).state()
            },
            event is Tick && !old(self).started ==> {
                &&& action == (SweepAction::Continue { evicted: 0 })
                &&& final(self).started
                &&& final(registry).state() == old(registry).state()
            },
            event is Tick && old(self).started ==> {
                let (before, after) = (old(registry).state(), final(registry).state());
                &&& final(self).started
                &&& after == RegistryState {
                    clients: without_idle(before.clients, now, whole_millis(before.limits.idle_eviction)),
                    ..before
                }
                &&& forall|d: Seq<u8>| #[trigger]
                    after.clients.contains_key(d) <==> before.clients.contains_key(d) && now
                        <= before.clients[d].last_used + whole_millis(before.limits.idle_eviction)
                &&& action matches SweepAction::Continue { evicted }
                &&& evicted == before.clients.len() - after.clients.len()
            },
    {
        match event {
            SweepEvent::Cancelled => SweepAction::Stop,
            SweepEvent::Tick => {
                if self.started {
                    let evicted = registry.sweep_idle(now);
                    SweepAction::Continue { evicted }
                } else {
                    self.started = true;
                    SweepAction::Continue { evicted: 0 }
                }
            },
        }
    }
}

/// A registry never holds more clients than its limit.
pub proof fn registry_is_bounded<C>(registry: ClientRegistry<C>)
    requires
        registry.inv(),
    ensures
        registry.state().clients.dom().finite(),
        registry.state().clients.len() <= registry.state().limits.max_entries,
{
    lemma_contents(registry.entries@);
}

/// A digest never has two connects under way: who is told to connect opens
/// one, and until it ends nobody else is told to.
pub proof fn one_connect_per_digest<C>(
    before: RegistryState<C>,
    digest: Seq<u8>,
    now: u64,
    step: BuildStep<C>,
    after: RegistryState<C>,
)
    requires
        looked_up(before, digest, now, step, after),
    ensures
        step is Build ==> !before.connecting.contains(digest) && after.connecting.contains(digest),
        before.connecting.contains(digest) ==> !(step is Build) && after.connecting.contains(
            digest,
        ),
{
}

/// A connect under way ends by its own report alone: neither the lookup of
/// another digest nor the end of another connect touches it.
pub proof fn connect_ends_by_its_own_report<C>(
    before: RegistryState<C>,
    digest: Seq<u8>,
    other: Seq<u8>,
    now: u64,
    step: BuildStep<C>,
    looked: RegistryState<C>,
    cred_keys: Seq<TextPair>,
    built: Option<Arc<C>>,
    installed: Option<Installed<C>>,
    after: RegistryState<C>,
)
    requires
        digest != other,
        before.connecting.contains(digest),
        looked_up(before, other, now, step, looked),
        build_finished(looked, other, cred_keys, built, now, installed, after),
    ensures
        looked.connecting.contains(digest),
        after.connecting.contains(digest),
{
}

/// A connect under way for one digest does not hold up another: the lookup of
/// a different digest answers as if that connect had not begun.
pub proof fn other_digests_do_not_wait<C>(
    before: RegistryState<C>,
    digest: Seq<u8>,
    other: Seq<u8>,
    now: u64,
    step: BuildStep<C>,
    after: RegistryState<C>,
)
    requires
        digest != other,
        looked_up(
            RegistryState { connecting: before.connecting.insert(digest), ..before },
            other,
            now,
            step,
            after,
        ),
    ensures
        exists|plain: RegistryState<C>| looked_up(before, other, now, step, plain),
{
    let plain = if before.clients.contains_key(other) {
        RegistryState { clients: touched(before.clients, other, now), ..before }
    } else if before.connecting.contains(other) {
        before
    } else {
        RegistryState { connecting: before.connecting.insert(other), ..before }
    };
    assert(looked_up(before, other, now, step, plain));
}

/// Callers whose credentials hash identically share one client: once a
/// connect is installed, and unless it had to make room at once, the next
/// lookup of its digest answers with the installed client.
pub proof fn installed_client_is_shared<C>(
    before: RegistryState<C>,
    between: RegistryState<C>,
    after: RegistryState<C>,
    digest: Seq<u8>,
    cred_keys: Seq<TextPair>,
    built: Arc<C>,
    installed: Installed<C>,
    t1: u64,
    t2: u64,
    step: BuildStep<C>,
)
    requires
        build_finished(before, digest, cred_keys, Some(built), t1, Some(installed), between),
        installed.evicted matches Some(evicted) ==> evicted@ != digest,
        looked_up(between, digest, t2, step, after),
    ensures
        step == BuildStep::Ready(installed.client),
{
}

/// A new client does not make room for itself as long as an older one is
/// there.
pub proof fn newest_client_survives<C>(
    before: RegistryState<C>,
    after: RegistryState<C>,
    digest: Seq<u8>,
    cred_keys: Seq<TextPair>,
    built: Arc<C>,
    now: u64,
    installed: Installed<C>,
    older: Seq<u8>,
)
    requires
        build_finished(before, digest, cred_keys, Some(built), now, Some(installed), after),
        before.clients.contains_key(older),
        before.clients[older].last_used < now,
    ensures
        installed.evicted matches Some(evicted) ==> evicted@ != digest,
        after.clients.contains_key(digest),
{
    if !before.clients.contains_key(digest) {
        let grown = before.clients.insert(
            digest,
            CachedClient { client: built, cred_keys, last_used: now },
        );
        assert(grown.contains_key(older));
    }
}

/// A failed connect changes nothing but that it is over: the next lookup of
/// its digest is told to connect.
pub proof fn failed_connect_is_retried<C>(
    before: RegistryState<C>,
    between: RegistryState<C>,
    after: RegistryState<C>,
    digest: Seq<u8>,
    cred_keys: Seq<TextPair>,
    installed: Option<Installed<C>>,
    t1: u64,
    t2: u64,
    step: BuildStep<C>,
)
    requires
        !before.clients.contains_key(digest),
        build_finished(before, digest, cred_keys, None, t1, installed, between),
        looked_up(between, digest, t2, step, after),
    ensures
        installed is None,
        between.clients == before.clients,
        step is Build,
{
}

/// A revocation drops every cached client that was built from the revoked
/// credential and no other, and what the others know stays as it was. A
/// connect that is under way meanwhile is not a cached client: it is not
/// touched, and what it ends with is installed as any other.
pub proof fn revocation_is_precise<C>(
    clients: Clients<C>,
    plugin_id: Seq<char>,
    target: Seq<char>,
    digest: Seq<u8>,
)
    requires
        clients.contains_key(digest),
    ensures
        without_key(clients, plugin_id, target).contains_key(digest)
            <==> !clients[digest].cred_keys.contains((plugin_id, target)),
        without_key(clients, plugin_id, target).contains_key(digest) ==> without_key(
            clients,
            plugin_id,
            target,
        )[digest] == clients[digest],
{
}

/// After a revocation the credential's digests are built anew: the next
/// lookup of one does not answer with a client.
pub proof fn revoked_client_is_not_handed_out<C>(
    before: RegistryState<C>,
    plugin_id: Seq<char>,
    target: Seq<char>,
    digest: Seq<u8>,
    now: u64,
    step: BuildStep<C>,
    after: RegistryState<C>,
)
    requires
        before.clients.contains_key(digest),
        before.clients[digest].cred_keys.contains((plugin_id, target)),
        looked_up(
            RegistryState { clients: without_key(before.clients, plugin_id, target), ..before },
            digest,
            now,
            step,
            after,
        ),
    ensures
        !(step is Ready),
{
}

/// A sweep drops the clients idle beyond the threshold and no other, and
/// sweeping again at the same time drops nothing more.
pub proof fn sweep_is_exact<C>(clients: Clients<C>, now: u64, threshold_ms: u128, digest: Seq<u8>)
    requires
        clients.contains_key(digest),
    ensures
        without_idle(clients, now, threshold_ms).contains_key(digest) <==> idle_age(
            now,
            clients[digest].last_used,
        ) <= threshold_ms,
        without_idle(without_idle(clients, now, threshold_ms), now, threshold_ms) == without_idle(
            clients,
            now,
            threshold_ms,
        ),
{
    assert(without_idle(without_idle(clients, now, threshold_ms), now, threshold_ms)
        =~= without_idle(clients, now, threshold_ms));
}

/// A client just looked up is not idle: a sweep at that time keeps it.
pub proof fn lookup_keeps_alive<C>(
    before: RegistryState<C>,
    digest: Seq<u8>,
    now: u64,
    client: Arc<C>,
    after: RegistryState<C>,
)
    requires
        looked_up(before, digest, now, BuildStep::Ready(client), after),
    ensures
        without_idle(after.clients, now, whole_millis(after.limits.idle_eviction)).contains_key(digest),
{
}

} // verus!
