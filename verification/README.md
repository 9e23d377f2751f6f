# NATS binding

A gateway plugin that dispatches tool calls as NATS request/reply, and a watch
strategy that turns every message on a subject into a change event.

The crate is a library verified with [Verus](https://github.com/verus-lang/verus).
It holds what the plugin decides and computes; nothing in it does I/O. `app/`
is the plugin around it: connections, subscriptions, timers, metrics, and the
host's interfaces. It performs what the library asks for and reports back.

## Layout

| Module | What it holds |
|---|---|
| `backend` | The binding plugin: profiles, what registering one calls for, which one a call goes by |
| `call` | The course of a call, from its profile over the caller's credentials to its result |
| `watch` | The watch plugin and its loop |
| `connection` | The client that an instance connects once and shares |
| `client_registry` | The bounded cache of per-credential clients: lookup, LRU, revocation, rotation, idle sweep |
| `credentials` | Which credential references are offered for resolution, and which client the answers name |
| `digest`, `separation` | Digests of credential bundles, and the proof of what they tell apart |
| `wire` | Outbound headers and messages, replies |
| `spec`, `error` | What operators write, and what can go wrong |
| `json`, `keyed`, `order`, `text` | JSON values, lists read as maps, items in order, predicates on texts |

## What is proved

Every function of the library has a contract that says what it returns and when
it refuses. Beyond single functions:

- A registry never exceeds its limit, never has two connects under way for one
  digest, and does not hold up other digests; a revocation or a sweep drops
  exactly the clients it concerns.
- The digest of a bundle does not depend on the order of its fields, and
  different connections are hashed as different bytes, as long as no part breaks
  a line.
- What is offered to the credential resolver holds the operator's tokens and
  nothing else.
- Inbound headers and the idempotency hint travel on the message; no other
  header is added.
- A response is never longer than the binding allows, and flagged exactly where
  it was cut.
- A profile that can be called has an acceptable subject without wildcards.
- A plugin instance hands out one shared client.
- A watch emits one event per message until it ends, and nothing after.

## What is trusted

Calls into `blake3`, `bytes`, `async_nats` (header maps), `serde_json` and std's
`Duration` go by contracts that are stated and not proved. They stand on small
functions marked `external_body`, or on the outside function itself as an
`assume_specification`; each says what it claims of the function. What lies in a
connection, a clock, or the host's credential grammar is handed in as plain
values.
