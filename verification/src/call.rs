//! The course of a call, stage by stage.
//!
//! A call starts from its profile, takes in what the host and the server
//! answer, and ends with a response or an error. Each stage says what is to be
//! done outside this crate, and takes the outcome into the next one:
//!
//! - a [`CredentialCall`] offers its snapshot to the host's resolver, reads
//!   the answer, and asks for the client of the resolved credentials;
//! - a [`ReadyCall`] has its client: it makes the message to send, and turns
//!   the reply into the result.

use std::sync::Arc;

use vstd::prelude::*;

use crate::credentials::{
    client_build_failed, connection_pairs, cred_snapshot, cred_uris, has_ref, offered,
    resolution_failed, resolve_client_for_call, resolved_credentials, snapshot_members,
    ClientRequest, HostFailure, ResolvedConnection, SpecTokens,
};
use crate::digest::{bundle_digest, fields_distinct};
use crate::error::{BackendError, BackendFault};
use crate::json::{json_tree, JsonTree};
use crate::order::{ascending, pair_order, text_before, text_order, text_pairs, texts, TextPair};
use crate::spec::{text_of, NatsBackendSpec};
use crate::wire::{
    bytes_of, header_values, outbound_headers, outbound_message, sendable, settle_reply, settled,
    BackendRequest, BackendResponse, OutboundMessage, Reply,
};

verus! {

/// A call as it starts.
pub enum CallStage<C> {
    /// The client is there.
    Ready(ReadyCall<C>),
    /// The client depends on the caller's credentials.
    PerCaller(CredentialCall),
}

/// A call that needs the caller's credentials.
pub struct CredentialCall {
    pub cfg: Arc<NatsBackendSpec>,
    pub tokens: Arc<SpecTokens>,
}

impl CredentialCall {
    /// The URIs to resolve: those of the tokens in the spec, each once, in
    /// ascending order.
    pub fn uris(&self) -> (uris: Vec<String>)
        ensures
            ascending(texts(uris@), text_order()),
            forall|uri: Seq<char>| #[trigger] texts(uris@).contains(uri) <==> self.tokens.has(uri),
            forall|i: int|
                0 <= i < self.tokens.url@.len() ==> texts(uris@).contains((#[trigger] self.tokens.url@[i])@),
            forall|i: int|
                0 <= i < self.tokens.credentials_path@.len() ==> texts(uris@).contains(
                    (#[trigger] self.tokens.credentials_path@[i])@,
                ),
            forall|i: int|
                0 <= i < self.tokens.auth_token@.len() ==> texts(uris@).contains(
                    (#[trigger] self.tokens.auth_token@[i])@,
                ),
            forall|k: int|
                0 <= k < uris@.len() ==> texts(self.tokens.url@).contains((#[trigger] uris@[k])@) || texts(
                    self.tokens.credentials_path@,
                ).contains(uris@[k]@) || texts(self.tokens.auth_token@).contains(uris@[k]@),
            forall|k: int, l: int|
                0 <= k < l < uris@.len() ==> text_before(
                    (#[trigger] uris@[k])@,
                    (#[trigger] uris@[l])@,
                ),
    {
        cred_uris(&self.tokens)
    }

    /// The snapshot to hand to the host's resolver. It holds what the operator
    /// wrote and nothing else: no part of a request can enter it.
    pub fn snapshot(&self) -> (snapshot: serde_json::Value)
        ensures
            json_tree(snapshot) == JsonTree::Object(offered(*self.tokens)),
            json_tree(snapshot) is Object,
            forall|uri: Seq<char>| #[trigger]
                json_tree(snapshot)->Object_0.contains_key(uri) <==> texts(
                    self.tokens.url@,
                ).contains(uri) || texts(self.tokens.credentials_path@).contains(uri) || texts(
                    self.tokens.auth_token@,
                ).contains(uri),
            forall|uri: Seq<char>| #[trigger]
                json_tree(snapshot)->Object_0.contains_key(uri) ==> json_tree(
                    snapshot,
                )->Object_0[uri] == JsonTree::Text(uri),
    {
        let uris = cred_uris(&self.tokens);
        assert(snapshot_members(texts(uris@)) =~= offered(*self.tokens));
        cred_snapshot(&uris)
    }

    /// Read what became of the snapshot.
    pub fn resolved(&self, answer: Result<serde_json::Value, HostFailure>) -> (resolved: Result<
        Vec<(String, String)>,
        BackendError,
    >)
        ensures
            resolved is Ok <==> (answer matches Ok(snapshot) && json_tree(snapshot) is Object),
            resolved matches Ok(values) ==> {
                &&& fields_distinct(text_pairs(values@))
                &&& answer matches Ok(snapshot)
                &&& json_tree(snapshot) matches JsonTree::Object(members)
                &&& forall|uri: Seq<char>, value: Seq<char>|
                    #![trigger text_pairs(values@).contains((uri, value))]
                    text_pairs(values@).contains((uri, value)) <==> members.contains_key(uri)
                        && members[uri] == JsonTree::Text(value)
            },
            resolved matches Err(error) ==> match answer {
                Ok(_) => error@ == (BackendFault::Transport {
                    message: "credential resolver mutated snapshot to non-object"@,
                }),
                Err(HostFailure::Backend(cause)) => error == cause,
                Err(HostFailure::Other(cause)) => error@ == (BackendFault::Transport {
                    message: "credential resolution: "@ + cause@,
                }),
            },
    {
        match answer {
            Ok(snapshot) => resolved_credentials(&snapshot),
            Err(failure) => Err(resolution_failed(failure)),
        }
    }

    /// Say which client the call needs, once its tokens are substituted.
    /// `refs` is what the grammar makes of each of the URIs.
    pub fn client_request(
        &self,
        connection: ResolvedConnection,
        refs: Vec<Option<(String, String)>>,
    ) -> (request: Result<ClientRequest, BackendError>)
        ensures
            request is Ok <==> connection.url is Some,
            request matches Ok(request) ==> {
                &&& Some(request.url@) == text_of(connection.url)
                &&& text_of(request.credentials_path) == text_of(connection.credentials_path)
                &&& text_of(request.auth_token) == text_of(connection.auth_token)
                &&& request.digest@ == bundle_digest(
                    connection_pairs(
                        request.url@,
                        text_of(connection.credentials_path),
                        text_of(connection.auth_token),
                    ),
                )
                &&& ascending(text_pairs(request.cred_keys@), pair_order())
                &&& forall|key: TextPair| #[trigger]
                    text_pairs(request.cred_keys@).contains(key) <==> has_ref(refs@, key)
                &&& forall|i: int|
                    0 <= i < refs@.len() && (#[trigger] refs@[i]) is Some ==> text_pairs(
                        request.cred_keys@,
                    ).contains(((refs@[i]->0).0@, (refs@[i]->0).1@))
                &&& forall|key: TextPair| #[trigger]
                    text_pairs(request.cred_keys@).contains(key) ==> exists|i: int|
                        0 <= i < refs@.len() && (#[trigger] refs@[i]) is Some && (refs@[i]->0).0@
                            == key.0 && (refs@[i]->0).1@ == key.1
            },
            request matches Err(error) ==> error@ == (BackendFault::InvalidSpec {
                message: "NATS binding with a ${cred://…} token in credentials_path or auth_token also requires a `url` field on the spec — the per-credential path needs an explicit connect URL"@,
            }),
    {
        resolve_client_for_call(connection, refs)
    }

    /// Go on with the client, or report in the words of its cause why there
    /// is none.
    pub fn with_client<C>(self, client: Result<Arc<C>, String>) -> (ready: Result<
        ReadyCall<C>,
        BackendError,
    >)
        ensures
            match client {
                Ok(client) => {
                    &&& ready matches Ok(ready)
                    &&& ready.client == client
                    &&& ready.cfg == self.cfg
                },
                Err(cause) => {
                    &&& ready matches Err(error)
                    &&& error@ == (BackendFault::Transport {
                        message: "building per-credential NATS client: "@ + cause@,
                    })
                },
            },
    {
        match client {
            Ok(client) => Ok(ReadyCall { client, cfg: self.cfg }),
            Err(cause) => Err(client_build_failed(cause.as_str())),
        }
    }
}

/// A call that has its client.
pub struct ReadyCall<C> {
    pub client: Arc<C>,
    pub cfg: Arc<NatsBackendSpec>,
}

/// What is sent for a call, where, and how long its reply may take.
pub struct Dispatch {
    pub subject: String,
    pub timeout_ms: u64,
    pub message: OutboundMessage,
}

impl<C> ReadyCall<C> {
    /// Make what is sent for `request`.
    pub fn dispatch(&self, request: BackendRequest) -> (dispatch: Dispatch)
        requires
            sendable(request),
        ensures
            dispatch.subject@ == self.cfg@.subject,
            dispatch.timeout_ms == self.cfg@.timeout_ms,
            dispatch.subject@ == self.cfg.subject@,
            dispatch.timeout_ms == self.cfg.timeout_ms,
            bytes_of(dispatch.message.payload) == request.payload@,
            dispatch.message.headers is Some <==> request.headers@.len() > 0
                || request.idempotency is Some,
            dispatch.message.headers matches Some(headers) ==> header_values(headers)
                == outbound_headers(request),
    {
        Dispatch {
            subject: self.cfg.subject.clone(),
            timeout_ms: self.cfg.timeout_ms,
            message: outbound_message(request),
        }
    }

    /// Make the result of the call from its reply.
    pub fn finish(&self, reply: Reply) -> (result: Result<BackendResponse, BackendError>)
        ensures
            settled(
                self.cfg@.subject,
                self.cfg@.timeout_ms,
                self.cfg@.max_response_bytes,
                reply,
                result,
            ),
            reply is Message <==> result is Ok,
            reply is Message && bytes_of(reply->Message_0).len() <= self.cfg.max_response_bytes ==> !result->Ok_0.truncated
                && result->Ok_0.payload@ == bytes_of(reply->Message_0),
            reply is Message && bytes_of(reply->Message_0).len() > self.cfg.max_response_bytes ==> result->Ok_0.truncated
                && result->Ok_0.payload@ == bytes_of(reply->Message_0).subrange(0, self.cfg.max_response_bytes as int),
            reply is Failed ==> result->Err_0 is Transport && result->Err_0->Transport_message@
                == "NATS request to '"@ + self.cfg.subject@ + "' failed: "@ + reply->Failed_0@,
            reply is TimedOut ==> result->Err_0 is Timeout && result->Err_0->timeout_ms == self.cfg.timeout_ms,
    {
        settle_reply(
            self.cfg.subject.as_str(),
            self.cfg.timeout_ms,
            self.cfg.max_response_bytes,
            reply,
        )
    }
}

} // verus!
