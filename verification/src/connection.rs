//! The connection a plugin instance shares among its bindings.

use std::sync::Arc;

use vstd::prelude::*;

use crate::spec::{copy_text, text_of, NatsPluginConfig};
use crate::text::{join2, join4};

verus! {

/// A client that is connected on first use and kept.
pub struct SharedConnection<C> {
    client: Option<Arc<C>>,
    conn_url: Option<String>,
    conn_creds: Option<String>,
}

/// The state of a shared connection.
pub struct ConnectionState<C> {
    /// The client, once there is one.
    pub client: Option<Arc<C>>,
    /// The configured server URL.
    pub url: Option<Seq<char>>,
    /// The configured credentials file.
    pub credentials_path: Option<Seq<char>>,
}

/// What happens to a shared connection.
pub enum ConnectEvent<C> {
    /// Somebody needs the client.
    Needed,
    /// A connect that was asked for has succeeded.
    Connected(Arc<C>),
    /// A connect that was asked for has failed, in the words of its report.
    Failed(String),
}

/// What a shared connection calls for.
pub enum ConnectStep<C> {
    /// Use this client.
    Ready(Arc<C>),
    /// Connect, and report how it went.
    Connect { url: String, credentials_path: Option<String> },
    /// There is no URL to connect to.
    NotConfigured,
    /// Give up, with this report.
    GiveUp(String),
}

/// What needing the shared client calls for.
pub enum ClientStep<C> {
    /// Use this client.
    Ready(Arc<C>),
    /// Connect, and report how it went.
    Connect { url: String, credentials_path: Option<String> },
}

/// What an event does to a shared connection: the step it answers, and the
/// state it leaves.
pub open spec fn connection_step<C>(
    before: ConnectionState<C>,
    event: ConnectEvent<C>,
    step: ConnectStep<C>,
    after: ConnectionState<C>,
) -> bool {
    match event {
        ConnectEvent::Needed => {
            &&& after == before
            &&& match before.client {
                Some(client) => step == ConnectStep::Ready(client),
                None => match before.url {
                    None => step is NotConfigured,
                    Some(target) => {
                        &&& step matches ConnectStep::Connect { url, credentials_path }
                        &&& url@ == target
                        &&& text_of(credentials_path) == before.credentials_path
                    },
                },
            }
        },
        ConnectEvent::Connected(client) => match before.client {
            Some(first) => step == ConnectStep::Ready(first) && after == before,
            None => step == ConnectStep::Ready(client) && after == (ConnectionState {
                client: Some(client),
                ..before
            }),
        },
        ConnectEvent::Failed(report) => step == ConnectStep::<C>::GiveUp(report) && after == before,
    }
}

impl<C> SharedConnection<C> {
    /// The state of the connection.
    pub closed spec fn state(&self) -> ConnectionState<C> {
        ConnectionState {
            client: self.client,
            url: text_of(self.conn_url),
            credentials_path: text_of(self.conn_creds),
        }
    }

    /// A connection with a client that is there already.
    pub fn connected(client: Arc<C>) -> (connection: Self)
        ensures
            connection.state() == (ConnectionState {
                client: Some(client),
                url: None,
                credentials_path: None,
            }),
    {
        SharedConnection { client: Some(client), conn_url: None, conn_creds: None }
    }

    /// A connection that is made on first use. An empty URL counts as none.
    pub fn deferred(config: NatsPluginConfig) -> (connection: Self)
        ensures
            connection.state() == (ConnectionState::<C> {
                client: None,
                url: if config.url@.len() == 0 {
                    None
                } else {
                    Some(config.url@)
                },
                credentials_path: text_of(config.credentials_path),
            }),
    {
        let conn_url = if config.url.as_str().is_empty() {
            None
        } else {
            Some(config.url)
        };
        SharedConnection { client: None, conn_url, conn_creds: config.credentials_path }
    }

    /// The configured server URL.
    pub fn conn_url(&self) -> (url: Option<String>)
        ensures
            text_of(url) == self.state().url,
    {
        copy_text(&self.conn_url)
    }

    /// The configured credentials file.
    pub fn conn_creds(&self) -> (path: Option<String>)
        ensures
            text_of(path) == self.state().credentials_path,
    {
        copy_text(&self.conn_creds)
    }

    /// Take one event.
    ///
    /// The first client to be connected is kept and handed to everybody from
    /// then on; one that was connected meanwhile is not used.
    pub fn step(&mut self, event: ConnectEvent<C>) -> (step: ConnectStep<C>)
        ensures
            connection_step(old(self).state(), event, step, final(self).state()),
    {
        match event {
            ConnectEvent::Needed => {
                if let Some(client) = &self.client {
                    return ConnectStep::Ready(Arc::clone(client));
                }
                match &self.conn_url {
                    None => ConnectStep::NotConfigured,
                    Some(url) => ConnectStep::Connect {
                        url: url.clone(),
                        credentials_path: copy_text(&self.conn_creds),
                    },
                }
            },
            ConnectEvent::Connected(client) => {
                if let Some(first) = &self.client {
                    return ConnectStep::Ready(Arc::clone(first));
                }
                self.client = Some(Arc::clone(&client));
                ConnectStep::Ready(client)
            },
            ConnectEvent::Failed(report) => ConnectStep::GiveUp(report),
        }
    }
}

/// The text of a failed connect. `redacted_url` is the URL without its
/// password.
pub open spec fn connect_report(redacted_url: Seq<char>, cause: Seq<char>) -> Seq<char> {
    "connecting to NATS at "@ + redacted_url + ": "@ + cause
}

/// Report a failed connect.
pub fn report_connect(redacted_url: &str, cause: &str) -> (report: String)
    ensures
        report@ == connect_report(redacted_url@, cause@),
        report@ == "connecting to NATS at "@ + redacted_url@ + ": "@ + cause@,
{
    join4("connecting to NATS at ", redacted_url, ": ", cause)
}

/// Where a connect got stuck.
pub enum ConnectFault {
    /// The credentials file at this path could not be read.
    Credentials { path: String },
    /// The server could not be reached. The URL is without its password.
    Server { redacted_url: String },
}

/// Say where the connect of a configured URL got stuck.
pub fn describe_connect(fault: &ConnectFault) -> (text: String)
    ensures
        text@ == match *fault {
            ConnectFault::Credentials { path } => "failed to load NATS credentials from "@ + path@,
            ConnectFault::Server { redacted_url } => "failed to connect to NATS at "@
                + redacted_url@,
        },
{
    match fault {
        ConnectFault::Credentials { path } => join2(
            "failed to load NATS credentials from ",
            path.as_str(),
        ),
        ConnectFault::Server { redacted_url } => join2(
            "failed to connect to NATS at ",
            redacted_url.as_str(),
        ),
    }
}

/// Say where the connect with a caller's credentials got stuck.
pub fn describe_build(fault: &ConnectFault) -> (text: String)
    ensures
        text@ == match *fault {
            ConnectFault::Credentials { path } => "loading NATS credentials from "@ + path@,
            ConnectFault::Server { redacted_url } => "connecting to NATS at "@ + redacted_url@,
        },
{
    match fault {
        ConnectFault::Credentials { path } => join2(
            "loading NATS credentials from ",
            path.as_str(),
        ),
        ConnectFault::Server { redacted_url } => join2(
            "connecting to NATS at ",
            redacted_url.as_str(),
        ),
    }
}

/// A plugin instance has one shared client: once somebody was handed a client,
/// every later event that hands one out hands out the same.
pub proof fn shared_client_never_changes<C>(
    first: ConnectionState<C>,
    second: ConnectionState<C>,
    third: ConnectionState<C>,
    e1: ConnectEvent<C>,
    e2: ConnectEvent<C>,
    a: Arc<C>,
    b: Arc<C>,
)
    requires
        connection_step(first, e1, ConnectStep::Ready(a), second),
        connection_step(second, e2, ConnectStep::Ready(b), third),
    ensures
        a == b,
        third == second,
{
}

/// Nobody connects once there is a client.
pub proof fn connected_once<C>(
    before: ConnectionState<C>,
    event: ConnectEvent<C>,
    step: ConnectStep<C>,
    after: ConnectionState<C>,
)
    requires
        before.client is Some,
        connection_step(before, event, step, after),
    ensures
        !(step is Connect),
        after == before,
{
}

} // verus!
