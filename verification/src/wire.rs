//! Messages on the wire: what a call sends, and what becomes of its reply.

use vstd::prelude::*;

use crate::error::{BackendError, BackendFault};
use crate::order::{text_pairs, TextPair};
use crate::text::{chars_of, join4};

verus! {

/// Headers of a message: the values of each name. Names are compared as they
/// are written, upper and lower case being different.
pub type HeaderValues = Map<Seq<char>, Seq<Seq<char>>>;

/// `async_nats::HeaderMap`, opaque here.
#[verifier::external_type_specification]
#[verifier::external_body]
pub struct ExHeaderMap(async_nats::HeaderMap);

/// The headers in the map.
pub uninterp spec fn header_values(headers: async_nats::HeaderMap) -> HeaderValues;

/// Whether NATS takes `name` as a header name: printable ASCII but for the
/// space and the colon.
pub open spec fn header_name(name: Seq<char>) -> bool {
    forall|i: int| 0 <= i < name.len() ==> '!' <= #[trigger] name[i] <= '~' && name[i] != ':'
}

/// Whether NATS takes `value` as a header value: it does not break the line.
pub open spec fn header_value(value: Seq<char>) -> bool {
    forall|i: int| 0 <= i < value.len() ==> #[trigger] value[i] != '\r' && value[i] != '\n'
}

/// `HeaderMap::new`: no headers.
#[verifier::external_body]
fn header_map_new() -> (headers: async_nats::HeaderMap)
    ensures
        header_values(headers) == HeaderValues::empty(),
{
    async_nats::HeaderMap::new()
}

/// `HeaderMap::insert` with string slices: the name has this value, and only
/// this one, from now on. It panics on what is no header name or value.
#[verifier::external_body]
fn header_map_insert(headers: &mut async_nats::HeaderMap, name: &str, value: &str)
    requires
        header_name(name@),
        header_value(value@),
    ensures
        header_values(*final(headers)) == header_values(*old(headers)).insert(name@, seq![value@]),
{
    headers.insert(name, value);
}

/// `bytes::Bytes`, opaque here.
#[verifier::external_type_specification]
#[verifier::external_body]
pub struct ExBytes(bytes::Bytes);

/// The bytes in the buffer.
pub uninterp spec fn bytes_of(buffer: bytes::Bytes) -> Seq<u8>;

/// `Bytes::from` a vector: the same bytes.
#[verifier::external_body]
fn bytes_from(data: Vec<u8>) -> (buffer: bytes::Bytes)
    ensures
        bytes_of(buffer) == data@,
{
    bytes::Bytes::from(data)
}

/// `Bytes::len`: the number of bytes.
#[verifier::external_body]
fn bytes_len(buffer: &bytes::Bytes) -> (len: usize)
    ensures
        len == bytes_of(*buffer).len(),
{
    buffer.len()
}

/// `Bytes::slice` up to `end`: the first `end` bytes. It panics where there
/// are fewer.
#[verifier::external_body]
fn bytes_slice_to(buffer: &bytes::Bytes, end: usize) -> (prefix: bytes::Bytes)
    requires
        end <= bytes_of(*buffer).len(),
    ensures
        bytes_of(prefix) == bytes_of(*buffer).take(end as int),
{
    buffer.slice(..end)
}

/// `to_vec` on the slice a `Bytes` dereferences to: a copy of the bytes.
#[verifier::external_body]
fn bytes_to_vec(buffer: &bytes::Bytes) -> (data: Vec<u8>)
    ensures
        data@ == bytes_of(*buffer),
{
    buffer.to_vec()
}

/// The gateway's hint by which a consumer recognises a repeated request.
pub struct IdempotencyHint {
    pub key: String,
    pub scope_hash: String,
}

/// A call as the gateway hands it over.
pub struct BackendRequest {
    /// The tool arguments.
    pub payload: Vec<u8>,
    /// Inbound headers, such as `traceparent` and `tracestate`.
    pub headers: Vec<(String, String)>,
    pub idempotency: Option<IdempotencyHint>,
}

/// The result of a call.
pub struct BackendResponse {
    pub payload: Vec<u8>,
    /// Whether the reply was longer than the binding allows.
    pub truncated: bool,
}

/// What is published for a call. `headers` is `None` where the message has
/// none.
pub struct OutboundMessage {
    pub payload: bytes::Bytes,
    pub headers: Option<async_nats::HeaderMap>,
}

/// `headers` one after the other: the last value of a name stands.
pub open spec fn forwarded(headers: Seq<TextPair>) -> HeaderValues
    decreases headers.len(),
{
    if headers.len() == 0 {
        Map::empty()
    } else {
        forwarded(headers.drop_last()).insert(headers.last().0, seq![headers.last().1])
    }
}

/// The headers of an outbound message: the inbound ones, and above them the
/// idempotency hint.
pub open spec fn outbound_headers(request: BackendRequest) -> HeaderValues {
    let inbound = forwarded(text_pairs(request.headers@));
    match request.idempotency {
        Some(hint) => inbound.insert("idempotency-key"@, seq![hint.key@]).insert(
            "idempotency-scope-hash"@,
            seq![hint.scope_hash@],
        ),
        None => inbound,
    }
}

/// Whether every header of the message is one that NATS takes.
pub open spec fn sendable(request: BackendRequest) -> bool {
    &&& forall|i: int|
        0 <= i < request.headers@.len() ==> header_name((#[trigger] request.headers@[i]).0@)
            && header_value(request.headers@[i].1@)
    &&& request.idempotency matches Some(hint) ==> header_value(hint.key@) && header_value(
        hint.scope_hash@,
    )
}

fn is_header_name(name: &str) -> (yes: bool)
    ensures
        yes == header_name(name@),
{
    let chars = chars_of(name);
    let mut i: usize = 0;
    while i < chars.len()
        invariant
            i <= chars.len(),
            chars@ == name@,
            forall|j: int| 0 <= j < i ==> '!' <= #[trigger] name@[j] <= '~' && name@[j] != ':',
        decreases chars.len() - i,
    {
        let c = chars[i];
        if !('!' <= c && c <= '~' && c != ':') {
            assert(name@[i as int] == c);
            return false;
        }
        i += 1;
    }
    true
}

fn is_header_value(value: &str) -> (yes: bool)
    ensures
        yes == header_value(value@),
{
    let chars = chars_of(value);
    let mut i: usize = 0;
    while i < chars.len()
        invariant
            i <= chars.len(),
            chars@ == value@,
            forall|j: int| 0 <= j < i ==> #[trigger] value@[j] != '\r' && value@[j] != '\n',
        decreases chars.len() - i,
    {
        if chars[i] == '\r' || chars[i] == '\n' {
            assert(value@[i as int] == chars@[i as int]);
            return false;
        }
        i += 1;
    }
    true
}

/// Tells whether the message of a call can be sent.
pub fn is_sendable(request: &BackendRequest) -> (yes: bool)
    ensures
        yes == sendable(*request),
{
    let mut i: usize = 0;
    while i < request.headers.len()
        invariant
            i <= request.headers.len(),
            forall|j: int|
                0 <= j < i ==> header_name((#[trigger] request.headers@[j]).0@) && header_value(
                    request.headers@[j].1@,
                ),
        decreases request.headers.len() - i,
    {
        if !is_header_name(request.headers[i].0.as_str()) || !is_header_value(
            request.headers[i].1.as_str(),
        ) {
            assert(!(header_name(request.headers@[i as int].0@) && header_value(
                request.headers@[i as int].1@,
            )));
            return false;
        }
        i += 1;
    }
    match &request.idempotency {
        Some(hint) => is_header_value(hint.key.as_str()) && is_header_value(
            hint.scope_hash.as_str(),
        ),
        None => true,
    }
}

/// Make the message of a call.
///
/// The inbound headers are forwarded, so that W3C `traceparent` and
/// `tracestate` reach the responder. The idempotency hint travels in two
/// lowercase headers: NATS header names are case-sensitive, and this is the
/// casing that consumers look for. `Nats-Msg-Id` is never added; dedupe by the
/// broker is the stream's own choice.
pub fn outbound_message(request: BackendRequest) -> (message: OutboundMessage)
    requires
        sendable(request),
    ensures
        bytes_of(message.payload) == request.payload@,
        message.headers is Some <==> request.headers@.len() > 0 || request.idempotency is Some,
        message.headers matches Some(headers) ==> header_values(headers) == outbound_headers(
            request,
        ),
{
    let ghost inbound = text_pairs(request.headers@);
    let mut headers = header_map_new();
    let mut i: usize = 0;
    while i < request.headers.len()
        invariant
            i <= request.headers.len(),
            sendable(request),
            inbound == text_pairs(request.headers@),
            header_values(headers) == forwarded(inbound.take(i as int)),
        decreases request.headers.len() - i,
    {
        header_map_insert(
            &mut headers,
            request.headers[i].0.as_str(),
            request.headers[i].1.as_str(),
        );
        assert(inbound.take(i + 1).drop_last() =~= inbound.take(i as int));
        i += 1;
    }
    assert(inbound.take(request.headers.len() as int) =~= inbound);
    let mut some = request.headers.len() > 0;
    if let Some(hint) = &request.idempotency {
        proof {
            reveal_strlit("idempotency-key");
            reveal_strlit("idempotency-scope-hash");
        }
        header_map_insert(&mut headers, "idempotency-key", hint.key.as_str());
        header_map_insert(&mut headers, "idempotency-scope-hash", hint.scope_hash.as_str());
        some = true;
    }
    OutboundMessage {
        payload: bytes_from(request.payload),
        headers: if some {
            Some(headers)
        } else {
            None
        },
    }
}

/// How a request ended.
pub enum Reply {
    /// A reply with this payload.
    Message(bytes::Bytes),
    /// The request failed, in the client's words.
    Failed(String),
    /// No reply came within the binding's timeout.
    TimedOut,
}

/// Whether `result` is what a call with this spec makes of its reply.
pub open spec fn settled(
    subject: Seq<char>,
    timeout_ms: u64,
    max_response_bytes: usize,
    reply: Reply,
    result: Result<BackendResponse, BackendError>,
) -> bool {
    match reply {
        Reply::Message(payload) => {
            &&& result matches Ok(response)
            &&& response.truncated == (bytes_of(payload).len() > max_response_bytes)
            &&& response.payload@ == if response.truncated {
                bytes_of(payload).take(max_response_bytes as int)
            } else {
                bytes_of(payload)
            }
        },
        Reply::Failed(cause) => {
            &&& result matches Err(error)
            &&& error@ == (BackendFault::Transport {
                message: "NATS request to '"@ + subject + "' failed: "@ + cause@,
            })
        },
        Reply::TimedOut => {
            &&& result matches Err(error)
            &&& error@ == (BackendFault::Timeout { timeout_ms })
        },
    }
}

/// Make the result of a call from its reply.
///
/// A reply longer than `max_response_bytes` is cut there and flagged. A
/// timeout is an error distinct from a transport failure.
pub fn settle_reply(
    subject: &str,
    timeout_ms: u64,
    max_response_bytes: usize,
    reply: Reply,
) -> (result: Result<BackendResponse, BackendError>)
    ensures
        settled(subject@, timeout_ms, max_response_bytes, reply, result),
        reply is Message <==> result is Ok,
        reply is Message && bytes_of(reply->Message_0).len() <= max_response_bytes ==> !result->Ok_0.truncated
            && result->Ok_0.payload@ == bytes_of(reply->Message_0),
        reply is Message && bytes_of(reply->Message_0).len() > max_response_bytes ==> result->Ok_0.truncated
            && result->Ok_0.payload@ == bytes_of(reply->Message_0).subrange(0, max_response_bytes as int),
        reply is Failed ==> result->Err_0 is Transport && result->Err_0->Transport_message@
            == "NATS request to '"@ + subject@ + "' failed: "@ + reply->Failed_0@,
        reply is TimedOut ==> result->Err_0 is Timeout && result->Err_0->timeout_ms == timeout_ms,
{
    match reply {
        Reply::Message(payload) => {
            if bytes_len(&payload) > max_response_bytes {
                let prefix = bytes_slice_to(&payload, max_response_bytes);
                Ok(BackendResponse { payload: bytes_to_vec(&prefix), truncated: true })
            } else {
                Ok(BackendResponse { payload: bytes_to_vec(&payload), truncated: false })
            }
        },
        Reply::Failed(cause) => {
            let message = join4("NATS request to '", subject, "' failed: ", cause.as_str());
            Err(BackendError::Transport { message })
        },
        Reply::TimedOut => Err(BackendError::Timeout { timeout_ms }),
    }
}

/// How a call is counted: its outcome, and the kind of its error.
pub struct CallOutcome {
    pub outcome: &'static str,
    pub error_kind: &'static str,
}

/// Say how a call is counted.
pub fn call_outcome(result: &Result<BackendResponse, BackendError>) -> (counted: CallOutcome)
    ensures
        counted.outcome@ == if result is Ok {
            "ok"@
        } else {
            "error"@
        },
        counted.error_kind@ == match *result {
            Ok(_) => "none"@,
            Err(BackendError::Timeout { .. }) => "timeout"@,
            Err(BackendError::Transport { .. }) => "transport"@,
            Err(BackendError::ProfileNotFound { .. }) => "profile_not_found"@,
            Err(BackendError::InvalidSpec { .. }) => "invalid_spec"@,
        },
{
    match result {
        Ok(_) => CallOutcome { outcome: "ok", error_kind: "none" },
        Err(BackendError::Timeout { .. }) => CallOutcome {
            outcome: "error",
            error_kind: "timeout",
        },
        Err(BackendError::Transport { .. }) => CallOutcome {
            outcome: "error",
            error_kind: "transport",
        },
        Err(BackendError::ProfileNotFound { .. }) => CallOutcome {
            outcome: "error",
            error_kind: "profile_not_found",
        },
        Err(BackendError::InvalidSpec { .. }) => CallOutcome {
            outcome: "error",
            error_kind: "invalid_spec",
        },
    }
}

/// Whether a header of this name is among `headers`.
pub open spec fn has_header(headers: Seq<TextPair>, name: Seq<char>) -> bool {
    exists|i: int| 0 <= i < headers.len() && (#[trigger] headers[i]).0 == name
}

proof fn lemma_forwarded_names(headers: Seq<TextPair>, name: Seq<char>)
    ensures
        forwarded(headers).contains_key(name) <==> has_header(headers, name),
    decreases headers.len(),
{
    if headers.len() > 0 {
        let rest = headers.drop_last();
        lemma_forwarded_names(rest, name);
        if has_header(rest, name) {
            let i = choose|i: int| 0 <= i < rest.len() && (#[trigger] rest[i]).0 == name;
            assert(headers[i].0 == name);
        }
        if headers.last().0 == name {
            assert(headers[headers.len() - 1].0 == name);
        }
        if has_header(headers, name) && headers.last().0 != name {
            let i = choose|i: int| 0 <= i < headers.len() && (#[trigger] headers[i]).0 == name;
            assert(rest[i].0 == name);
        }
    }
}

proof fn lemma_forwarded_value(headers: Seq<TextPair>, at: int)
    requires
        0 <= at < headers.len(),
        forall|j: int| at < j < headers.len() ==> (#[trigger] headers[j]).0 != headers[at].0,
    ensures
        forwarded(headers).contains_key(headers[at].0),
        forwarded(headers)[headers[at].0] == seq![headers[at].1],
    decreases headers.len(),
{
    if at < headers.len() - 1 {
        let rest = headers.drop_last();
        assert(headers[headers.len() - 1].0 != headers[at].0);
        lemma_forwarded_value(rest, at);
    }
}

/// Inbound headers travel on: each one that no later inbound header and no
/// idempotency header replaces is on the outbound message with its value.
pub proof fn inbound_headers_are_forwarded(request: BackendRequest, at: int)
    requires
        0 <= at < request.headers@.len(),
        forall|j: int|
            at < j < request.headers@.len() ==> (#[trigger] request.headers@[j]).0@
                != request.headers@[at].0@,
        request.idempotency is Some ==> request.headers@[at].0@ != "idempotency-key"@
            && request.headers@[at].0@ != "idempotency-scope-hash"@,
    ensures
        outbound_headers(request).contains_key(request.headers@[at].0@),
        outbound_headers(request)[request.headers@[at].0@] == seq![request.headers@[at].1@],
{
    let headers = text_pairs(request.headers@);
    assert forall|j: int| at < j < headers.len() implies (#[trigger] headers[j]).0
        != headers[at].0 by {
        assert(request.headers@[j].0@ != request.headers@[at].0@);
    }
    lemma_forwarded_value(headers, at);
}

/// The idempotency hint travels in its two headers.
pub proof fn idempotency_hint_travels(request: BackendRequest)
    requires
        request.idempotency is Some,
    ensures
        outbound_headers(request).contains_key("idempotency-key"@),
        outbound_headers(request)["idempotency-key"@] == seq![request.idempotency->0.key@],
        outbound_headers(request).contains_key("idempotency-scope-hash"@),
        outbound_headers(request)["idempotency-scope-hash"@]
            == seq![request.idempotency->0.scope_hash@],
{
    reveal_strlit("idempotency-key");
    reveal_strlit("idempotency-scope-hash");
    assert("idempotency-key"@.len() != "idempotency-scope-hash"@.len());
}

/// An outbound message has no headers but the inbound ones and those of the
/// idempotency hint.
pub proof fn no_other_headers_are_added(request: BackendRequest, name: Seq<char>)
    ensures
        outbound_headers(request).contains_key(name) <==> has_header(
            text_pairs(request.headers@),
            name,
        ) || (request.idempotency is Some && (name == "idempotency-key"@ || name
            == "idempotency-scope-hash"@)),
{
    lemma_forwarded_names(text_pairs(request.headers@), name);
}

/// `Nats-Msg-Id` is on the outbound message only where the caller sent it.
pub proof fn message_id_is_never_added(request: BackendRequest)
    ensures
        outbound_headers(request).contains_key("Nats-Msg-Id"@) <==> has_header(
            text_pairs(request.headers@),
            "Nats-Msg-Id"@,
        ),
{
    no_other_headers_are_added(request, "Nats-Msg-Id"@);
    reveal_strlit("Nats-Msg-Id");
    reveal_strlit("idempotency-key");
    reveal_strlit("idempotency-scope-hash");
    assert("Nats-Msg-Id"@.len() != "idempotency-key"@.len());
    assert("Nats-Msg-Id"@.len() != "idempotency-scope-hash"@.len());
}

/// A response is never longer than the binding allows. It is the reply's
/// beginning, and the whole reply exactly where it is not flagged.
pub proof fn response_is_bounded(
    subject: Seq<char>,
    timeout_ms: u64,
    max_response_bytes: usize,
    payload: bytes::Bytes,
    result: Result<BackendResponse, BackendError>,
)
    requires
        settled(subject, timeout_ms, max_response_bytes, Reply::Message(payload), result),
    ensures
        result is Ok,
        result->Ok_0.payload@.len() <= max_response_bytes,
        result->Ok_0.payload@.is_prefix_of(bytes_of(payload)),
        result->Ok_0.truncated <==> result->Ok_0.payload@ != bytes_of(payload),
{
    if !result->Ok_0.truncated {
        assert(result->Ok_0.payload@ =~= bytes_of(payload));
    }
}

/// A timeout is reported as itself, and nothing else is reported as one.
pub proof fn timeout_is_distinct(
    subject: Seq<char>,
    timeout_ms: u64,
    max_response_bytes: usize,
    reply: Reply,
    result: Result<BackendResponse, BackendError>,
)
    requires
        settled(subject, timeout_ms, max_response_bytes, reply, result),
    ensures
        reply is TimedOut <==> (result matches Err(error) && error is Timeout),
        reply is Failed <==> (result matches Err(error) && error is Transport),
{
}

} // verus!
