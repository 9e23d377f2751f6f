//! The binding plugin for `kind: nats`: its profiles, and which client a call
//! goes over.

use std::sync::Arc;

use vstd::prelude::*;

use crate::call::{CallStage, CredentialCall, ReadyCall};
use crate::client_registry::{CachedClient, ClientRegistry, RegistryState};
use crate::connection::{
    connection_step, ClientStep, ConnectEvent, ConnectStep, ConnectionState, SharedConnection,
};
use crate::credentials::{
    announced_secret_refs, carries_tokens, rotation_applies, rotation_secret_refs,
    spec_has_cred_refs, SpecTokens,
};
use crate::error::{transport, BackendError, BackendFault};
use crate::json::json_tree;
use crate::keyed::{contents, keys_distinct, lemma_contents, lemma_push, lemma_remove, Keyed};
use crate::laws::every_token_is_seen;
use crate::order::{same_text, texts};
use crate::spec::{
    acceptable, copy_text, spec_objection, text_of, validate_spec, NatsBackendSpec,
    NatsPluginConfig,
};
use crate::text::{blank, contains_char, join5, occurs_in};

verus! {

/// Where a profile's static client comes from.
pub enum ClientSource {
    /// A connection of its own.
    Own { url: String, credentials_path: Option<String>, auth_token: Option<String> },
    /// The connection the plugin instance shares.
    Shared,
}

/// What registering a profile calls for.
pub struct ProfilePlan {
    /// Whether calls resolve credentials for their caller.
    pub has_cred_refs: bool,
    /// The client of calls that do not.
    pub static_client: ClientSource,
    /// The secrets whose rotation concerns the profile.
    pub secret_refs: Vec<String>,
}

/// Say what registering a profile with this spec calls for. `raw` is the spec
/// as the host handed it over, with what the host announces in it.
///
/// A spec without credential tokens and with a URL gets a connection of its
/// own; any other one gets the shared client.
pub fn plan_profile(
    raw: &serde_json::Value,
    spec: &NatsBackendSpec,
    tokens: &SpecTokens,
) -> (plan: Result<ProfilePlan, BackendError>)
    ensures
        plan is Ok <==> acceptable(spec@),
        plan matches Ok(plan) ==> {
            &&& plan.has_cred_refs == carries_tokens(*tokens)
            &&& plan.has_cred_refs == (tokens.url@.len() > 0 || tokens.credentials_path@.len() > 0
                || tokens.auth_token@.len() > 0)
            &&& plan.static_client is Own <==> !plan.has_cred_refs && spec.url is Some
            &&& plan.static_client is Own ==> {
                &&& plan.static_client->url@ == spec.url->0@
                &&& plan.static_client->credentials_path is Some <==> spec.credentials_path is Some
                &&& spec.credentials_path is Some ==> plan.static_client->credentials_path->0@
                    == spec.credentials_path->0@
                &&& plan.static_client->auth_token is Some <==> spec.auth_token is Some
                &&& spec.auth_token is Some ==> plan.static_client->auth_token->0@
                    == spec.auth_token->0@
            }
            &&& match plan.static_client {
                ClientSource::Own { url, credentials_path, auth_token } => {
                    &&& !carries_tokens(*tokens)
                    &&& spec@.url == Some(url@)
                    &&& text_of(credentials_path) == spec@.credentials_path
                    &&& text_of(auth_token) == spec@.auth_token
                },
                ClientSource::Shared => carries_tokens(*tokens) || spec@.url is None,
            }
            &&& texts(plan.secret_refs@) == announced_secret_refs(json_tree(*raw))
        },
        plan matches Err(error) ==> error@ == (BackendFault::InvalidSpec {
            message: spec_objection(spec@)->0,
        }),
{
    if let Err(error) = validate_spec(spec) {
        return Err(error);
    }
    let has_cred_refs = spec_has_cred_refs(tokens);
    let static_client = match &spec.url {
        Some(url) => if has_cred_refs {
            ClientSource::Shared
        } else {
            ClientSource::Own {
                url: url.clone(),
                credentials_path: copy_text(&spec.credentials_path),
                auth_token: copy_text(&spec.auth_token),
            }
        },
        None => ClientSource::Shared,
    };
    Ok(ProfilePlan { has_cred_refs, static_client, secret_refs: rotation_secret_refs(raw) })
}

/// Per-profile runtime state. `R` is what the host side attaches to a profile.
pub struct NatsProfileRuntime<C, R> {
    /// The operator's spec.
    pub cfg: Arc<NatsBackendSpec>,
    /// The credential tokens in it.
    pub tokens: Arc<SpecTokens>,
    /// Whether there are any, so that calls resolve them for their caller.
    pub has_cred_refs: bool,
    /// The client of calls that do not.
    pub static_client: Arc<C>,
    pub attached: Arc<R>,
}

/// What is known of a profile.
pub struct Profile<C, R> {
    pub cfg: NatsBackendSpec,
    pub tokens: SpecTokens,
    pub has_cred_refs: bool,
    pub static_client: Arc<C>,
    pub attached: Arc<R>,
}

/// The registered profiles, by name.
pub type Profiles<C, R> = Map<Seq<char>, Profile<C, R>>;

impl<C, R> NatsProfileRuntime<C, R> {
    /// What is known of the profile.
    pub open spec fn profile(&self) -> Profile<C, R> {
        Profile {
            cfg: *self.cfg,
            tokens: *self.tokens,
            has_cred_refs: self.has_cred_refs,
            static_client: self.static_client,
            attached: self.attached,
        }
    }

    /// A handle of its own on the profile, so that a call outlives the
    /// profile's replacement.
    fn share(&self) -> (copy: Self)
        ensures
            copy.profile() == self.profile(),
    {
        NatsProfileRuntime {
            cfg: Arc::clone(&self.cfg),
            tokens: Arc::clone(&self.tokens),
            has_cred_refs: self.has_cred_refs,
            static_client: Arc::clone(&self.static_client),
            attached: Arc::clone(&self.attached),
        }
    }

    /// Begin a call: over the static client, or over one of the caller's
    /// credentials where the spec carries tokens.
    pub fn start_call(&self) -> (stage: CallStage<C>)
        ensures
            match stage {
                CallStage::Ready(call) => {
                    &&& !self.has_cred_refs
                    &&& call.client == self.static_client
                    &&& call.cfg == self.cfg
                },
                CallStage::PerCaller(call) => {
                    &&& self.has_cred_refs
                    &&& call.cfg == self.cfg
                    &&& call.tokens == self.tokens
                },
            },
    {
        if self.has_cred_refs {
            CallStage::PerCaller(
                CredentialCall { cfg: Arc::clone(&self.cfg), tokens: Arc::clone(&self.tokens) },
            )
        } else {
            CallStage::Ready(
                ReadyCall {
                    client: Arc::clone(&self.static_client),
                    cfg: Arc::clone(&self.cfg),
                },
            )
        }
    }
}

/// Whether a subject holds a NATS wildcard.
pub open spec fn has_wildcard(subject: Seq<char>) -> bool {
    subject.contains('*') || subject.contains('>')
}

/// The text by which a call with a wildcard subject is refused.
pub open spec fn wildcard_objection(subject: Seq<char>, backend_name: Seq<char>) -> Seq<char> {
    "NATS subject '"@ + subject + "' for binding '"@ + backend_name
        + "' contains wildcard characters"@
}

/// Whether a profile is in order: its spec is acceptable, and calls resolve
/// credentials exactly where the spec carries tokens.
pub open spec fn in_order<C, R>(profile: Profile<C, R>) -> bool {
    &&& acceptable(profile.cfg@)
    &&& profile.has_cred_refs == carries_tokens(profile.tokens)
}

/// The state of the plugin.
pub struct PluginState<C, R> {
    pub connection: ConnectionState<C>,
    pub profiles: Profiles<C, R>,
}

/// The binding plugin for `kind: nats`.
pub struct NatsBackendPlugin<C, R> {
    connection: SharedConnection<C>,
    profiles: Vec<ProfileEntry<C, R>>,
}

/// A profile and the name it is registered under.
struct ProfileEntry<C, R> {
    name: String,
    runtime: NatsProfileRuntime<C, R>,
}

impl<C, R> Keyed for ProfileEntry<C, R> {
    type Key = Seq<char>;

    type Value = Profile<C, R>;

    closed spec fn key(&self) -> Seq<char> {
        self.name@
    }

    closed spec fn value(&self) -> Profile<C, R> {
        self.runtime.profile()
    }
}

impl<C, R> NatsBackendPlugin<C, R> {
    /// The state of the plugin.
    pub closed spec fn state(&self) -> PluginState<C, R> {
        PluginState {
            connection: self.connection.state(),
            profiles: contents(self.profiles@),
        }
    }

    /// No name has two profiles, and every profile is in order.
    pub closed spec fn inv(&self) -> bool {
        &&& keys_distinct(self.profiles@)
        &&& forall|i: int|
            0 <= i < self.profiles@.len() ==> in_order((#[trigger] self.profiles@[i]).value())
    }

    /// A plugin instance with a client that is there already.
    pub fn new(client: Arc<C>) -> (plugin: Self)
        ensures
            plugin.inv(),
            plugin.state() == (PluginState::<C, R> {
                connection: ConnectionState {
                    client: Some(client),
                    url: None,
                    credentials_path: None,
                },
                profiles: Map::empty(),
            }),
    {
        NatsBackendPlugin { connection: SharedConnection::connected(client), profiles: Vec::new() }
    }

    /// A plugin instance with this config. Nothing is connected yet: where the
    /// config names no URL, the first use of the shared client fails.
    pub fn from_config_json(config: NatsPluginConfig) -> (plugin: Self)
        ensures
            plugin.inv(),
            plugin.state() == (PluginState::<C, R> {
                connection: ConnectionState {
                    client: None,
                    url: if config.url@.len() == 0 {
                        None
                    } else {
                        Some(config.url@)
                    },
                    credentials_path: text_of(config.credentials_path),
                },
                profiles: Map::empty(),
            }),
    {
        NatsBackendPlugin { connection: SharedConnection::deferred(config), profiles: Vec::new() }
    }

    /// The plugin's id.
    pub fn id(&self) -> (id: &'static str)
        ensures
            id@ == "dev.mcpg.backend.nats"@,
    {
        "dev.mcpg.backend.nats"
    }

    /// The plugin's name.
    pub fn name(&self) -> (name: &'static str)
        ensures
            name@ == "NATS Binding"@,
    {
        "NATS Binding"
    }

    /// The binding kind the plugin serves.
    pub fn kind(&self) -> (kind: &'static str)
        ensures
            kind@ == "nats"@,
    {
        "nats"
    }

    /// The configured server URL.
    pub fn conn_url(&self) -> (url: Option<String>)
        ensures
            text_of(url) == self.state().connection.url,
    {
        self.connection.conn_url()
    }

    /// The configured credentials file.
    pub fn conn_creds(&self) -> (path: Option<String>)
        ensures
            text_of(path) == self.state().connection.credentials_path,
    {
        self.connection.conn_creds()
    }

    /// Take one event of the shared client.
    pub fn shared_client(&mut self, event: ConnectEvent<C>) -> (step: Result<
        ClientStep<C>,
        BackendError,
    >)
        requires
            old(self).inv(),
        ensures
            final(self).inv(),
            final(self).state().profiles == old(self).state().profiles,
            ({
                let (before, after) = (old(self).state().connection, final(self).state().connection);
                match step {
                    Ok(ClientStep::Ready(client)) => connection_step(
                        before,
                        event,
                        ConnectStep::Ready(client),
                        after,
                    ),
                    Ok(ClientStep::Connect { url, credentials_path }) => connection_step(
                        before,
                        event,
                        ConnectStep::Connect { url, credentials_path },
                        after,
                    ),
                    Err(error) => match event {
                        ConnectEvent::Failed(report) => {
                            &&& after == before
                            &&& error@ == (BackendFault::Transport { message: report@ })
                        },
                        _ => {
                            &&& connection_step(before, event, ConnectStep::NotConfigured, after)
                            &&& error@ == (BackendFault::Transport {
                                message: "NATS plugin has no `url` configured; set it on the NATS binding (the gateway injects it into the plugin config)"@,
                            })
                        },
                    },
                }
            }),
    {
        match self.connection.step(event) {
            ConnectStep::Ready(client) => Ok(ClientStep::Ready(client)),
            ConnectStep::Connect { url, credentials_path } => Ok(
                ClientStep::Connect { url, credentials_path },
            ),
            ConnectStep::NotConfigured => Err(
                transport(
                    "NATS plugin has no `url` configured; set it on the NATS binding (the gateway injects it into the plugin config)",
                ),
            ),
            ConnectStep::GiveUp(report) => Err(BackendError::Transport { message: report }),
        }
    }

    fn find(&self, name: &str) -> (at: Option<usize>)
        requires
            keys_distinct(self.profiles@),
        ensures
            match at {
                Some(i) => i < self.profiles.len() && self.profiles@[i as int].key() == name@
                    && self.state().profiles.contains_key(name@) && self.state().profiles[name@]
                    == self.profiles@[i as int].value(),
                None => !self.state().profiles.contains_key(name@),
            },
    {
        proof {
            lemma_contents(self.profiles@);
        }
        let mut i: usize = 0;
        while i < self.profiles.len()
            invariant
                i <= self.profiles.len(),
                keys_distinct(self.profiles@),
                forall|j: int| 0 <= j < i ==> (#[trigger] self.profiles@[j]).key() != name@,
            decreases self.profiles.len() - i,
        {
            if same_text(self.profiles[i].name.as_str(), name) {
                proof {
                    lemma_contents(self.profiles@);
                }
                return Some(i);
            }
            i += 1;
        }
        None
    }

    /// Register a profile under `backend_name`, in place of one that is there.
    /// A spec that is not acceptable is refused, and nothing changes.
    pub fn register_profile(
        &mut self,
        backend_name: &str,
        spec: NatsBackendSpec,
        tokens: SpecTokens,
        static_client: Arc<C>,
        attached: Arc<R>,
    ) -> (registered: Result<(), BackendError>)
        requires
            old(self).inv(),
        ensures
            final(self).inv(),
            registered is Ok <==> acceptable(spec@),
            registered is Ok ==> final(self).state() == (PluginState {
                profiles: old(self).state().profiles.insert(
                    backend_name@,
                    Profile {
                        cfg: spec,
                        tokens,
                        has_cred_refs: carries_tokens(tokens),
                        static_client,
                        attached,
                    },
                ),
                ..old(self).state()
            }),
            registered matches Err(error) ==> {
                &&& final(self).state() == old(self).state()
                &&& error@ == (BackendFault::InvalidSpec { message: spec_objection(spec@)->0 })
            },
    {
        if let Err(error) = validate_spec(&spec) {
            return Err(error);
        }
        let ghost before = self.state().profiles;
        if let Some(at) = self.find(backend_name) {
            proof {
                lemma_remove(self.profiles@, at as int);
            }
            let ghost list = self.profiles@;
            self.profiles.remove(at);
            assert forall|i: int| 0 <= i < self.profiles@.len() implies in_order(
                (#[trigger] self.profiles@[i]).value(),
            ) by {
                assert(self.profiles@[i] == list[if i < at { i } else { i + 1 }]);
            }
        }
        let has_cred_refs = spec_has_cred_refs(&tokens);
        let ghost new = Profile { cfg: spec, tokens, has_cred_refs, static_client, attached };
        let runtime = NatsProfileRuntime {
            cfg: Arc::new(spec),
            tokens: Arc::new(tokens),
            has_cred_refs,
            static_client,
            attached,
        };
        let entry = ProfileEntry { name: backend_name.to_owned(), runtime };
        proof {
            lemma_push(self.profiles@, entry);
        }
        self.profiles.push(entry);
        assert(self.state().profiles =~= before.insert(backend_name@, new));
        Ok(())
    }

    /// The profile a call on `backend_name` goes by.
    ///
    /// A subject with a wildcard is refused here, whichever way it came into
    /// the spec.
    pub fn select_profile(&self, backend_name: &str) -> (selected: Result<
        NatsProfileRuntime<C, R>,
        BackendError,
    >)
        requires
            self.inv(),
        ensures
            ({
                let profiles = self.state().profiles;
                match selected {
                    Ok(runtime) => {
                        &&& profiles.contains_key(backend_name@)
                        &&& runtime.profile() == profiles[backend_name@]
                        &&& in_order(runtime.profile())
                        &&& !has_wildcard(runtime.cfg.subject@)
                        &&& !runtime.cfg.subject@.contains('*')
                        &&& !runtime.cfg.subject@.contains('>')
                        &&& *runtime.cfg == profiles[backend_name@].cfg
                        &&& *runtime.tokens == profiles[backend_name@].tokens
                        &&& runtime.has_cred_refs == profiles[backend_name@].has_cred_refs
                        &&& runtime.static_client == profiles[backend_name@].static_client
                        &&& runtime.attached == profiles[backend_name@].attached
                    },
                    Err(error) => if profiles.contains_key(backend_name@) {
                        &&& has_wildcard(profiles[backend_name@].cfg.subject@)
                        &&& profiles[backend_name@].cfg.subject@.contains('*')
                            || profiles[backend_name@].cfg.subject@.contains('>')
                        &&& error is InvalidSpec
                        &&& error->InvalidSpec_message@ == "NATS subject '"@
                            + profiles[backend_name@].cfg.subject@ + "' for binding '"@
                            + backend_name@ + "' contains wildcard characters"@
                        &&& error@ == (BackendFault::InvalidSpec {
                            message: wildcard_objection(
                                profiles[backend_name@].cfg.subject@,
                                backend_name@,
                            ),
                        })
                    } else {
                        error@ == (BackendFault::ProfileNotFound { backend_name: backend_name@ })
                    },
                }
            }),
    {
        let at = match self.find(backend_name) {
            None => {
                return Err(BackendError::ProfileNotFound { backend_name: backend_name.to_owned() });
            },
            Some(at) => at,
        };
        let runtime = self.profiles[at].runtime.share();
        let subject = runtime.cfg.subject.as_str();
        if contains_char(subject, '*') || contains_char(subject, '>') {
            let message = join5(
                "NATS subject '",
                subject,
                "' for binding '",
                backend_name,
                "' contains wildcard characters",
            );
            return Err(BackendError::InvalidSpec { message });
        }
        Ok(runtime)
    }
}

/// Every registered profile is in order.
pub proof fn registered_profiles_are_in_order<C, R>(
    plugin: NatsBackendPlugin<C, R>,
    name: Seq<char>,
)
    requires
        plugin.inv(),
        plugin.state().profiles.contains_key(name),
    ensures
        in_order(plugin.state().profiles[name]),
        plugin.state().profiles[name].has_cred_refs <==> {
            let tokens = plugin.state().profiles[name].tokens;
            tokens.url@.len() > 0 || tokens.credentials_path@.len() > 0 || tokens.auth_token@.len()
                > 0
        },
        ({
            let cfg = plugin.state().profiles[name].cfg;
            &&& !blank(cfg.subject@)
            &&& !cfg.subject@.contains(' ')
            &&& !occurs_in(cfg.subject@, "cred://"@)
            &&& cfg.timeout_ms > 0
            &&& cfg.max_response_bytes > 0
        }),
{
    every_token_is_seen(plugin.state().profiles[name].tokens, name);
    lemma_contents(plugin.profiles@);
    let i = choose|i: int|
        0 <= i < plugin.profiles@.len() && (#[trigger] plugin.profiles@[i]).key() == name;
    assert(in_order(plugin.profiles@[i].value()));
}

/// A secret that rotates concerns the clients of the profiles whose specs the
/// host announced it in, and no others.
pub fn secret_rotated<C>(
    registry: &mut ClientRegistry<C>,
    secret_refs: &Vec<String>,
    secret_ref: &str,
) -> (evicted: usize)
    requires
        old(registry).inv(),
    ensures
        final(registry).inv(),
        evicted == 0 || exists|i: int|
            0 <= i < secret_refs@.len() && (#[trigger] secret_refs@[i])@ == secret_ref@,
        (exists|i: int| 0 <= i < secret_refs@.len() && (#[trigger] secret_refs@[i])@ == secret_ref@)
            ==> evicted == old(registry).state().clients.len() && final(registry).state().clients == Map::<Seq<u8>, CachedClient<C>>::empty(),
        texts(secret_refs@).contains(secret_ref@) ==> {
            &&& final(registry).state() == (RegistryState {
                clients: Map::empty(),
                ..old(registry).state()
            })
            &&& evicted == old(registry).state().clients.len()
        },
        !texts(secret_refs@).contains(secret_ref@) ==> {
            &&& final(registry).state() == old(registry).state()
            &&& evicted == 0
        },
{
    if rotation_applies(secret_refs, secret_ref) {
        registry.evict_for_secret(secret_ref)
    } else {
        0
    }
}

} // verus!
