//! The watch plugin for `kind: nats_topic`: a subject whose every message
//! means that a resource has changed.

use std::sync::Arc;

use vstd::prelude::*;

use crate::connection::{
    connection_step, ClientStep, ConnectEvent, ConnectStep, ConnectionState, SharedConnection,
};
use crate::error::{WatchError, WatchFault};
use crate::spec::{text_of, validate_watch_spec, NatsPluginConfig, NatsWatchSpec};
use crate::text::{blank, join4};

verus! {

/// The watch plugin for `kind: nats_topic`.
pub struct NatsWatchPlugin<C> {
    connection: SharedConnection<C>,
}

impl<C> NatsWatchPlugin<C> {
    /// The state of the plugin's connection.
    pub closed spec fn state(&self) -> ConnectionState<C> {
        self.connection.state()
    }

    /// A plugin instance with a client that is there already.
    pub fn new(client: Arc<C>) -> (plugin: Self)
        ensures
            plugin.state() == (ConnectionState {
                client: Some(client),
                url: None,
                credentials_path: None,
            }),
    {
        NatsWatchPlugin { connection: SharedConnection::connected(client) }
    }

    /// A plugin instance with this config. Nothing is connected yet: where the
    /// config names no URL, the first watch fails.
    pub fn from_config_json(config: NatsPluginConfig) -> (plugin: Self)
        ensures
            plugin.state() == (ConnectionState::<C> {
                client: None,
                url: if config.url@.len() == 0 {
                    None
                } else {
                    Some(config.url@)
                },
                credentials_path: text_of(config.credentials_path),
            }),
    {
        NatsWatchPlugin { connection: SharedConnection::deferred(config) }
    }

    /// The plugin's id.
    pub fn id(&self) -> (id: &'static str)
        ensures
            id@ == "dev.mcpg.watch.nats_topic"@,
    {
        "dev.mcpg.watch.nats_topic"
    }

    /// The plugin's name.
    pub fn name(&self) -> (name: &'static str)
        ensures
            name@ == "NATS Topic Watch"@,
    {
        "NATS Topic Watch"
    }

    /// The watch strategy the plugin serves.
    pub fn kind(&self) -> (kind: &'static str)
        ensures
            kind@ == "nats_topic"@,
    {
        "nats_topic"
    }

    /// The configured server URL.
    pub fn conn_url(&self) -> (url: Option<String>)
        ensures
            text_of(url) == self.state().url,
    {
        self.connection.conn_url()
    }

    /// The configured credentials file.
    pub fn conn_creds(&self) -> (path: Option<String>)
        ensures
            text_of(path) == self.state().credentials_path,
    {
        self.connection.conn_creds()
    }

    /// Take one event of the client.
    pub fn client(&mut self, event: ConnectEvent<C>) -> (step: Result<ClientStep<C>, WatchError>)
        ensures
            ({
                let (before, after) = (old(self).state(), final(self).state());
                match step {
                    Ok(ClientStep::Ready(client)) => connection_step(
                        before,
                        event,
                        ConnectStep::Ready(client),
                        after,
                    ),
                    Ok(ClientStep::Connect { url, credentials_path }) => connection_step(
                        before,
                        event,
                        ConnectStep::Connect { url, credentials_path },
                        after,
                    ),
                    Err(error) => match event {
                        ConnectEvent::Failed(report) => {
                            &&& after == before
                            &&& error@ == (WatchFault::Subscribe { message: report@ })
                        },
                        _ => {
                            &&& connection_step(before, event, ConnectStep::NotConfigured, after)
                            &&& error@ == (WatchFault::Subscribe {
                                message: "NATS watch plugin has no `url` configured; set it on the NATS binding"@,
                            })
                        },
                    },
                }
            }),
    {
        match self.connection.step(event) {
            ConnectStep::Ready(client) => Ok(ClientStep::Ready(client)),
            ConnectStep::Connect { url, credentials_path } => Ok(
                ClientStep::Connect { url, credentials_path },
            ),
            ConnectStep::NotConfigured => Err(
                WatchError::Subscribe {
                    message: "NATS watch plugin has no `url` configured; set it on the NATS binding".to_owned(),
                },
            ),
            ConnectStep::GiveUp(report) => Err(WatchError::Subscribe { message: report }),
        }
    }

    /// Begin a watch. A subject of nothing but white space is refused.
    pub fn watch(&self, spec: NatsWatchSpec) -> (watch: Result<Watch, WatchError>)
        ensures
            watch is Ok <==> !blank(spec.subject@),
            watch matches Ok(watch) ==> watch.subject@ == spec.subject@ && watch.running,
            watch matches Err(error) ==> error@ == (WatchFault::InvalidSpec {
                message: "subject must not be empty"@,
            }),
    {
        match validate_watch_spec(&spec) {
            Err(error) => Err(error),
            Ok(()) => Ok(Watch { subject: spec.subject, running: true }),
        }
    }
}

/// A watch on a subject.
pub struct Watch {
    /// The subject to subscribe to.
    pub subject: String,
    /// Whether the watch goes on.
    pub running: bool,
}

/// What happens to a watch.
pub enum WatchSignal {
    /// A message arrived. What it holds is not looked at.
    Message,
    /// The subscription's stream ended and will not resume.
    Ended,
    /// The watch was cancelled.
    Cancelled,
}

/// What a watch calls for.
pub enum WatchAction {
    /// Tell the sink that the resource changed, and wait for the next signal.
    Emit,
    /// Unsubscribe and end.
    Unsubscribe,
    /// End.
    Stop,
}

/// What a signal does to a watch: the action it calls for, and whether the
/// watch goes on after it.
pub open spec fn watch_step(
    running: bool,
    signal: WatchSignal,
    action: WatchAction,
    goes_on: bool,
) -> bool {
    if running {
        match signal {
            WatchSignal::Message => action is Emit && goes_on,
            WatchSignal::Ended => action is Stop && !goes_on,
            WatchSignal::Cancelled => action is Unsubscribe && !goes_on,
        }
    } else {
        action is Stop && !goes_on
    }
}

impl Watch {
    /// Take one signal.
    ///
    /// The client reconnects by itself, so a stream that ends is over for
    /// good: the watch ends with it rather than spin on a dead stream.
    pub fn step(&mut self, signal: WatchSignal) -> (action: WatchAction)
        ensures
            watch_step(old(self).running, signal, action, final(self).running),
            action is Emit <==> old(self).running && signal is Message,
            action is Unsubscribe <==> old(self).running && signal is Cancelled,
            final(self).running <==> old(self).running && signal is Message,
            final(self).subject == old(self).subject,
    {
        if !self.running {
            return WatchAction::Stop;
        }
        match signal {
            WatchSignal::Message => WatchAction::Emit,
            WatchSignal::Ended => {
                self.running = false;
                WatchAction::Stop
            },
            WatchSignal::Cancelled => {
                self.running = false;
                WatchAction::Unsubscribe
            },
        }
    }

    /// Report that the server could not be subscribed to.
    pub fn subscribe_failed(&self, cause: &str) -> (error: WatchError)
        ensures
            error@ == (WatchFault::Subscribe {
                message: "failed to subscribe to NATS subject '"@ + self.subject@ + "': "@ + cause@,
            }),
    {
        let message = join4(
            "failed to subscribe to NATS subject '",
            self.subject.as_str(),
            "': ",
            cause,
        );
        WatchError::Subscribe { message }
    }
}

/// Whether a watch that takes `signals` one after the other answers with
/// `actions`.
pub open spec fn watch_course(
    running: bool,
    signals: Seq<WatchSignal>,
    actions: Seq<WatchAction>,
) -> bool
    decreases signals.len(),
{
    if signals.len() == 0 {
        actions.len() == 0
    } else {
        &&& actions.len() > 0
        &&& exists|goes_on: bool|
            #[trigger] watch_step(running, signals[0], actions[0], goes_on) && watch_course(
                goes_on,
                signals.drop_first(),
                actions.drop_first(),
            )
    }
}

/// Every message means a change: a watch answers the message at `at` with an
/// event exactly where it was neither cancelled before nor at the end of its
/// stream.
pub proof fn every_message_is_emitted(
    signals: Seq<WatchSignal>,
    actions: Seq<WatchAction>,
    at: int,
)
    requires
        watch_course(true, signals, actions),
        0 <= at < signals.len(),
    ensures
        actions.len() == signals.len(),
        actions[at] is Emit <==> forall|i: int|
            0 <= i <= at ==> #[trigger] signals[i] is Message,
    decreases signals.len(),
{
    let (later, answers) = (signals.drop_first(), actions.drop_first());
    let goes_on = choose|goes_on: bool|
        #[trigger] watch_step(true, signals[0], actions[0], goes_on) && watch_course(
            goes_on,
            later,
            answers,
        );
    lemma_course(goes_on, later, answers);
    if at > 0 {
        assert(actions[at] == answers[at - 1]);
        assert(signals[0] is Message <==> goes_on);
        if goes_on {
            every_message_is_emitted(later, answers, at - 1);
            if forall|i: int| 0 <= i <= at - 1 ==> #[trigger] later[i] is Message {
                assert forall|i: int| 0 <= i <= at implies #[trigger] signals[i] is Message by {
                    if i > 0 {
                        assert(later[i - 1] is Message);
                    }
                }
            }
            if forall|i: int| 0 <= i <= at ==> #[trigger] signals[i] is Message {
                assert forall|i: int| 0 <= i <= at - 1 implies #[trigger] later[i] is Message by {
                    assert(signals[i + 1] is Message);
                }
            }
        }
    }
}

proof fn lemma_course(running: bool, signals: Seq<WatchSignal>, actions: Seq<WatchAction>)
    requires
        watch_course(running, signals, actions),
    ensures
        actions.len() == signals.len(),
        !running ==> forall|i: int| 0 <= i < actions.len() ==> #[trigger] actions[i] is Stop,
    decreases signals.len(),
{
    if signals.len() > 0 {
        let (later, answers) = (signals.drop_first(), actions.drop_first());
        let goes_on = choose|goes_on: bool|
            #[trigger] watch_step(running, signals[0], actions[0], goes_on) && watch_course(
                goes_on,
                later,
                answers,
            );
        lemma_course(goes_on, later, answers);
        if !running {
            assert forall|i: int| 0 <= i < actions.len() implies #[trigger] actions[i] is Stop by {
                if i > 0 {
                    assert(answers[i - 1] is Stop);
                }
            }
        }
    }
}

/// A watch that is over stays over: no later signal makes it emit, go on, or
/// unsubscribe again.
pub proof fn ended_watch_is_silent(
    running: bool,
    signal: WatchSignal,
    action: WatchAction,
    later: WatchSignal,
    later_action: WatchAction,
    goes_on: bool,
)
    requires
        signal is Ended || signal is Cancelled,
        watch_step(running, signal, action, false),
        watch_step(false, later, later_action, goes_on),
    ensures
        !(action is Emit),
        later_action is Stop,
        !goes_on,
{
}

} // verus!
