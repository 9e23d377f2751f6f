//! What the operations promise, in plain terms.
//!
//! Contracts speak through named predicates and relations. The laws here say
//! what those come to on the values themselves: characters, bytes, list
//! positions, milliseconds, keys of a map.

use std::sync::Arc;

use vstd::prelude::*;
use vstd::utf8::*;

use crate::backend::has_wildcard;
use crate::client_registry::{
    build_finished, looked_up, without_idle, without_key, BuildStep, CachedClient, Clients,
    Installed, RegistryState,
};
use crate::connection::{connection_step, ConnectEvent, ConnectStep, ConnectionState};
use crate::credentials::{
    announced_secret_refs, carries_tokens, connection_pairs, has_ref, offered, SpecTokens,
};
use crate::digest::{
    bundle_digest, bundle_lines, by_field, by_field_is_a_stable_sort, fields_distinct,
    lemma_by_field_members, run,
};
use crate::error::{BackendError, BackendFault, WatchError, WatchFault};
use crate::json::{texts_among, JsonMembers, JsonTree};
use crate::order::{
    bytes_before, pair_before, text_before, text_order_is_total, text_pairs, texts, TextPair,
};
use crate::separation::{connections_are_hashed_apart, Connection};
use crate::spec::{acceptable, spec_objection, text_of, NatsBackendSpec, SpecView};
use crate::text::{blank, occurs_at, occurs_in, white_space};
use crate::watch::{watch_step, WatchAction, WatchSignal};
use crate::wire::{
    bytes_of, forwarded, header_name, header_value, no_other_headers_are_added, outbound_headers,
    sendable, settled, BackendRequest, BackendResponse, Reply,
};

verus! {

// Texts.

/// A text is blank where each of its parts is, and a single character where
/// it is white space.
pub proof fn blank_texts(a: Seq<char>, b: Seq<char>, c: char)
    ensures
        blank(Seq::<char>::empty()),
        blank(a + b) <==> blank(a) && blank(b),
        blank(seq![c]) <==> white_space(c),
        c == ' ' || c == '\t' || c == '\n' || c == '\r' ==> white_space(c),
        '!' <= c <= '~' ==> !white_space(c),
{
    let ab = a + b;
    if blank(ab) {
        assert forall|i: int| 0 <= i < a.len() implies white_space(#[trigger] a[i]) by {
            assert(ab[i] == a[i]);
        }
        assert forall|i: int| 0 <= i < b.len() implies white_space(#[trigger] b[i]) by {
            assert(ab[a.len() + i] == b[i]);
        }
    }
    assert(seq![c][0] == c);
}

/// A part stands in a text wherever text is put before and behind it, and a
/// text in which it stands is of that form.
pub proof fn parts_of_texts(before: Seq<char>, part: Seq<char>, behind: Seq<char>, s: Seq<char>)
    ensures
        occurs_in(before + part + behind, part),
        occurs_in(s, part) ==> exists|a: Seq<char>, b: Seq<char>| s == #[trigger] (a + part + b),
{
    let whole = before + part + behind;
    assert(whole.subrange(before.len() as int, (before.len() + part.len()) as int) =~= part);
    assert(occurs_at(whole, part, before.len() as int));
    if occurs_in(s, part) {
        let at = choose|at: int| occurs_at(s, part, at);
        let (a, b) = (s.take(at), s.skip(at + part.len()));
        assert(s =~= a + part + b) by {
            assert forall|i: int| at <= i < at + part.len() implies s[i] == part[i - at] by {
                assert(s.subrange(at, at + part.len())[i - at] == s[i]);
            }
        }
    }
}

/// The texts of a list are those of its strings, each in its place.
pub proof fn texts_of_a_list(list: Seq<String>, t: Seq<char>)
    ensures
        texts(list).len() == list.len(),
        forall|i: int| 0 <= i < list.len() ==> texts(list)[i] == (#[trigger] list[i])@,
        texts(list).contains(t) <==> exists|i: int|
            0 <= i < list.len() && (#[trigger] list[i])@ == t,
{
    let all = texts(list);
    if all.contains(t) {
        let i = choose|i: int| 0 <= i < all.len() && all[i] == t;
        assert(list[i]@ == t);
    }
    if exists|i: int| 0 <= i < list.len() && (#[trigger] list[i])@ == t {
        let i = choose|i: int| 0 <= i < list.len() && (#[trigger] list[i])@ == t;
        assert(all[i] == t);
    }
}

/// The pairs of a list are those of its string pairs, each in its place.
pub proof fn pairs_of_a_list(list: Seq<(String, String)>, t: TextPair)
    ensures
        text_pairs(list).len() == list.len(),
        forall|i: int|
            0 <= i < list.len() ==> text_pairs(list)[i] == ((#[trigger] list[i]).0@, list[i].1@),
        text_pairs(list).contains(t) <==> exists|i: int|
            0 <= i < list.len() && (#[trigger] list[i]).0@ == t.0 && list[i].1@ == t.1,
{
    let all = text_pairs(list);
    if all.contains(t) {
        let i = choose|i: int| 0 <= i < all.len() && all[i] == t;
        assert(list[i].0@ == t.0);
    }
    if exists|i: int| 0 <= i < list.len() && (#[trigger] list[i]).0@ == t.0 && list[i].1@ == t.1 {
        let i = choose|i: int|
            0 <= i < list.len() && (#[trigger] list[i]).0@ == t.0 && list[i].1@ == t.1;
        assert(all[i] == t);
    }
}

// Order.

/// The first difference decides which of two byte strings comes first, and a
/// proper prefix comes before what it begins.
pub proof fn first_difference_decides(common: Seq<u8>, x: Seq<u8>, y: Seq<u8>, p: u8, q: u8)
    ensures
        bytes_before(common + seq![p] + x, common + seq![q] + y) <==> if p == q {
            bytes_before(x, y)
        } else {
            p < q
        },
        bytes_before(common, common + seq![q] + y),
        !bytes_before(common + seq![p] + x, common),
    decreases common.len(),
{
    let (a, b) = (common + seq![p] + x, common + seq![q] + y);
    if common.len() > 0 {
        let rest = common.drop_first();
        first_difference_decides(rest, x, y, p, q);
        assert(a.drop_first() =~= rest + seq![p] + x);
        assert(b.drop_first() =~= rest + seq![q] + y);
    } else {
        assert(a.drop_first() =~= x);
        assert(b.drop_first() =~= y);
        assert(a[0] == p && b[0] == q);
    }
}

/// Texts are ordered by their UTF-8 bytes, pairs by their first texts and then
/// by their second.
pub proof fn texts_and_pairs_are_ordered_by_bytes(
    a: Seq<char>,
    b: Seq<char>,
    x: Seq<char>,
    y: Seq<char>,
)
    ensures
        text_before(a, b) <==> bytes_before(encode_utf8(a), encode_utf8(b)),
        pair_before((a, x), (b, y)) <==> if a == b {
            bytes_before(encode_utf8(x), encode_utf8(y))
        } else {
            bytes_before(encode_utf8(a), encode_utf8(b))
        },
{
    text_order_is_total(a, b, a);
}

// Digests.

/// The lines of bundles stand one behind the other, and the line of a pair is
/// its field, an equals sign, its value and a line feed.
pub proof fn lines_of_bundles(a: Seq<TextPair>, b: Seq<TextPair>, pair: TextPair)
    ensures
        bundle_lines(Seq::<TextPair>::empty()) == Seq::<u8>::empty(),
        bundle_lines(a + b) == bundle_lines(a) + bundle_lines(b),
        bundle_lines(seq![pair]) == encode_utf8(pair.0) + seq![0x3du8] + encode_utf8(pair.1)
            + seq![0x0au8],
    decreases b.len(),
{
    assert(seq![pair].drop_last() =~= Seq::empty());
    assert(bundle_lines(seq![pair].drop_last()) =~= Seq::empty());
    assert(seq![pair].last() == pair);
    assert(bundle_lines(seq![pair]) =~= encode_utf8(pair.0) + seq![0x3du8] + encode_utf8(pair.1)
        + seq![0x0au8]);
    if b.len() == 0 {
        assert(a + b =~= a);
        assert(bundle_lines(a) + bundle_lines(b) =~= bundle_lines(a));
    } else {
        let rest = b.drop_last();
        lines_of_bundles(a, rest, pair);
        assert((a + b).drop_last() =~= a + rest);
        assert((a + b).last() == b.last());
        assert(bundle_lines(a + b) =~= bundle_lines(a) + bundle_lines(b));
    }
}

/// What is hashed of a bundle is a rearrangement of all its pairs: none is
/// added, dropped or changed, no field stands before an earlier one, and the
/// pairs of one field keep their order.
pub proof fn every_pair_is_hashed(
    pairs: Seq<TextPair>,
    field: Seq<char>,
    of_field: spec_fn(TextPair) -> bool,
)
    requires
        forall|p: TextPair| #[trigger] of_field(p) <==> p.0 == field,
    ensures
        bundle_digest(pairs) == crate::digest::blake3_of(bundle_lines(by_field(pairs))),
        by_field(pairs).len() == pairs.len(),
        forall|t: TextPair| #[trigger] by_field(pairs).contains(t) <==> pairs.contains(t),
        forall|i: int, j: int|
            0 <= i < j < pairs.len() ==> !text_before(
                #[trigger] by_field(pairs)[j].0,
                #[trigger] by_field(pairs)[i].0,
            ),
        by_field(pairs).filter(of_field) == pairs.filter(of_field),
{
    by_field_is_a_stable_sort(pairs);
    lemma_by_field_members(pairs);
    assert(run(by_field(pairs), field) == run(pairs, field));
    lemma_run(by_field(pairs), field, of_field);
    lemma_run(pairs, field, of_field);
}

proof fn lemma_run(pairs: Seq<TextPair>, field: Seq<char>, of_field: spec_fn(TextPair) -> bool)
    requires
        forall|p: TextPair| #[trigger] of_field(p) <==> p.0 == field,
    ensures
        run(pairs, field) == pairs.filter(of_field),
    decreases pairs.len(),
{
    reveal(Seq::filter);
    if pairs.len() > 0 {
        lemma_run(pairs.drop_last(), field, of_field);
        assert(of_field(pairs.last()) <==> pairs.last().0 == field);
    }
}

/// Fields are distinct where no two positions hold the same one.
pub proof fn distinct_fields(pairs: Seq<TextPair>)
    ensures
        fields_distinct(pairs) <==> forall|i: int, j: int|
            0 <= i < pairs.len() && 0 <= j < pairs.len() && #[trigger] pairs[i].0
                == #[trigger] pairs[j].0 ==> i == j,
{
    if fields_distinct(pairs) {
        assert forall|i: int, j: int|
            0 <= i < pairs.len() && 0 <= j < pairs.len() && #[trigger] pairs[i].0
                == #[trigger] pairs[j].0 implies i == j by {
            if i < j {
                assert(pairs[i].0 != pairs[j].0);
            } else if j < i {
                assert(pairs[j].0 != pairs[i].0);
            }
        }
    }
}

/// The pairs of a connection are its URL and, where it has them, its
/// credentials file and its token, under their own names and each once.
pub proof fn pairs_of_a_connection(
    url: Seq<char>,
    credentials_path: Option<Seq<char>>,
    auth_token: Option<Seq<char>>,
    field: Seq<char>,
    value: Seq<char>,
)
    ensures
        connection_pairs(url, credentials_path, auth_token).contains((field, value)) <==> {
            ||| field == "url"@ && value == url
            ||| field == "credentials_path"@ && credentials_path == Some(value)
            ||| field == "auth_token"@ && auth_token == Some(value)
        },
        connection_pairs(url, credentials_path, auth_token).len() == 1 + (
        if credentials_path is Some {
            1int
        } else {
            0int
        }) + (if auth_token is Some {
            1int
        } else {
            0int
        }),
{
    let pairs = connection_pairs(url, credentials_path, auth_token);
    assert(pairs[0] == ("url"@, url));
    if let Some(path) = credentials_path {
        assert(pairs[1] == ("credentials_path"@, path));
        if let Some(token) = auth_token {
            assert(pairs[2] == ("auth_token"@, token));
        }
    } else if let Some(token) = auth_token {
        assert(pairs[1] == ("auth_token"@, token));
    }
}

/// Connections whose parts break no line and that hash the same bytes are the
/// same connection.
pub proof fn same_bytes_same_connection(
    url: Seq<char>,
    credentials_path: Option<Seq<char>>,
    auth_token: Option<Seq<char>>,
    other_url: Seq<char>,
    other_path: Option<Seq<char>>,
    other_token: Option<Seq<char>>,
)
    requires
        !url.contains('\n'),
        credentials_path is Some ==> !credentials_path->0.contains('\n'),
        auth_token is Some ==> !auth_token->0.contains('\n'),
        !other_url.contains('\n'),
        other_path is Some ==> !other_path->0.contains('\n'),
        other_token is Some ==> !other_token->0.contains('\n'),
        bundle_lines(by_field(connection_pairs(url, credentials_path, auth_token)))
            == bundle_lines(by_field(connection_pairs(other_url, other_path, other_token))),
    ensures
        url == other_url,
        credentials_path == other_path,
        auth_token == other_token,
{
    connections_are_hashed_apart(
        Connection { url, credentials_path, auth_token },
        Connection { url: other_url, credentials_path: other_path, auth_token: other_token },
    );
}

// Credentials.

/// A token is seen in whichever of the three fields it stands: it is offered
/// to the resolver as itself, nothing else is, and a spec carries tokens
/// exactly where one of the fields does.
pub proof fn every_token_is_seen(tokens: SpecTokens, uri: Seq<char>)
    ensures
        tokens.has(uri) <==> {
            ||| exists|i: int| 0 <= i < tokens.url@.len() && (#[trigger] tokens.url@[i])@ == uri
            ||| exists|i: int|
                0 <= i < tokens.credentials_path@.len() && (
                #[trigger] tokens.credentials_path@[i])@ == uri
            ||| exists|i: int|
                0 <= i < tokens.auth_token@.len() && (#[trigger] tokens.auth_token@[i])@ == uri
        },
        offered(tokens).contains_key(uri) <==> {
            ||| exists|i: int| 0 <= i < tokens.url@.len() && (#[trigger] tokens.url@[i])@ == uri
            ||| exists|i: int|
                0 <= i < tokens.credentials_path@.len() && (
                #[trigger] tokens.credentials_path@[i])@ == uri
            ||| exists|i: int|
                0 <= i < tokens.auth_token@.len() && (#[trigger] tokens.auth_token@[i])@ == uri
        },
        offered(tokens).contains_key(uri) ==> offered(tokens)[uri] == JsonTree::Text(uri),
        carries_tokens(tokens) <==> tokens.url@.len() > 0 || tokens.credentials_path@.len() > 0
            || tokens.auth_token@.len() > 0,
{
    texts_of_a_list(tokens.url@, uri);
    texts_of_a_list(tokens.credentials_path@, uri);
    texts_of_a_list(tokens.auth_token@, uri);
    if tokens.url@.len() > 0 {
        texts_of_a_list(tokens.url@, tokens.url@[0]@);
        assert(tokens.has(tokens.url@[0]@));
    }
    if tokens.credentials_path@.len() > 0 {
        texts_of_a_list(tokens.credentials_path@, tokens.credentials_path@[0]@);
        assert(tokens.has(tokens.credentials_path@[0]@));
    }
    if tokens.auth_token@.len() > 0 {
        texts_of_a_list(tokens.auth_token@, tokens.auth_token@[0]@);
        assert(tokens.has(tokens.auth_token@[0]@));
    }
}

/// The revocation keys of a call are the pairs that the grammar found, at
/// whichever position.
pub proof fn every_ref_is_a_key(refs: Seq<Option<(String, String)>>, key: TextPair)
    ensures
        has_ref(refs, key) <==> exists|i: int|
            0 <= i < refs.len() && (#[trigger] refs[i]) is Some && (refs[i]->0).0@ == key.0
                && (refs[i]->0).1@ == key.1,
{
    if exists|i: int|
        0 <= i < refs.len() && (#[trigger] refs[i]) is Some && (refs[i]->0).0@ == key.0
            && (refs[i]->0).1@ == key.1 {
        let i = choose|i: int|
            0 <= i < refs.len() && (#[trigger] refs[i]) is Some && (refs[i]->0).0@ == key.0
                && (refs[i]->0).1@ == key.1;
        assert(crate::credentials::is_ref(refs[i], key));
    }
}

/// The texts among items stand in the items' order: each text once where it
/// stands, and nothing for an item that is no text.
pub proof fn texts_among_items(a: Seq<JsonTree>, b: Seq<JsonTree>, item: JsonTree, t: Seq<char>)
    ensures
        texts_among(Seq::<JsonTree>::empty()) == Seq::<Seq<char>>::empty(),
        texts_among(a + b) == texts_among(a) + texts_among(b),
        texts_among(seq![JsonTree::Text(t)]) == seq![t],
        !(item is Text) ==> texts_among(seq![item]) == Seq::<Seq<char>>::empty(),
        texts_among(a).contains(t) <==> exists|i: int|
            0 <= i < a.len() && #[trigger] a[i] == JsonTree::Text(t),
{
    reveal(Seq::filter_map);
    assert(seq![JsonTree::Text(t)].drop_last() =~= Seq::empty());
    assert(seq![item].drop_last() =~= Seq::empty());
    assert(texts_among(Seq::<JsonTree>::empty()) =~= Seq::empty());
    assert(seq![JsonTree::Text(t)].last() == JsonTree::Text(t));
    assert(seq![item].last() == item);
    assert(texts_among(seq![JsonTree::Text(t)]) =~= seq![t]);
    lemma_texts_append(a, b);
    lemma_texts_members(a, t);
}

proof fn lemma_texts_append(a: Seq<JsonTree>, b: Seq<JsonTree>)
    ensures
        texts_among(a + b) == texts_among(a) + texts_among(b),
    decreases b.len(),
{
    reveal(Seq::filter_map);
    if b.len() == 0 {
        assert(a + b =~= a);
        assert(texts_among(a) + texts_among(b) =~= texts_among(a));
    } else {
        let rest = b.drop_last();
        lemma_texts_append(a, rest);
        assert((a + b).drop_last() =~= a + rest);
        assert((a + b).last() == b.last());
        assert(texts_among(a + b) =~= texts_among(a) + texts_among(b));
    }
}

proof fn lemma_texts_members(a: Seq<JsonTree>, t: Seq<char>)
    ensures
        texts_among(a).contains(t) <==> exists|i: int|
            0 <= i < a.len() && #[trigger] a[i] == JsonTree::Text(t),
    decreases a.len(),
{
    reveal(Seq::filter_map);
    if a.len() > 0 {
        let rest = a.drop_last();
        lemma_texts_members(rest, t);
        let (all, earlier) = (texts_among(a), texts_among(rest));
        if earlier.contains(t) {
            let k = choose|k: int| 0 <= k < earlier.len() && earlier[k] == t;
            assert(all[k] == t);
            let i = choose|i: int| 0 <= i < rest.len() && #[trigger] rest[i] == JsonTree::Text(t);
            assert(a[i] == JsonTree::Text(t));
        }
        if a.last() == JsonTree::Text(t) {
            assert(all[earlier.len() as int] == t);
            assert(a[a.len() - 1] == JsonTree::Text(t));
        }
        if all.contains(t) && !earlier.contains(t) {
            let k = choose|k: int| 0 <= k < all.len() && all[k] == t;
            if k < earlier.len() {
                assert(earlier[k] == t);
            }
        }
        if exists|i: int| 0 <= i < a.len() && #[trigger] a[i] == JsonTree::Text(t) {
            let i = choose|i: int| 0 <= i < a.len() && #[trigger] a[i] == JsonTree::Text(t);
            if i < rest.len() {
                assert(rest[i] == JsonTree::Text(t));
            }
        }
    }
}

/// Every secret that the host announces is read, at whichever position of the
/// list and however long the list is, and nothing but texts of that list is.
pub proof fn every_announced_secret_is_read(
    members: JsonMembers,
    items: Seq<JsonTree>,
    secret_ref: Seq<char>,
)
    requires
        members.contains_key("__mcpg_secret_refs"@),
        members["__mcpg_secret_refs"@] == JsonTree::List(items),
    ensures
        announced_secret_refs(JsonTree::Object(members)).contains(secret_ref) <==> exists|i: int|
            0 <= i < items.len() && #[trigger] items[i] == JsonTree::Text(secret_ref),
        announced_secret_refs(JsonTree::Object(members)) == texts_among(items),
{
    lemma_texts_members(items, secret_ref);
}

/// A spec that announces no list of secrets has none.
pub proof fn no_list_no_secrets(spec: JsonTree)
    requires
        !(spec is Object) || !spec->Object_0.contains_key("__mcpg_secret_refs"@)
            || !(spec->Object_0["__mcpg_secret_refs"@] is List),
    ensures
        announced_secret_refs(spec).len() == 0,
{
}

// The registry.

/// A lookup of a cached client answers with it and marks it as used: its
/// credentials stay, and so does every other client.
pub proof fn lookup_marks_one_client<C>(
    before: RegistryState<C>,
    digest: Seq<u8>,
    now: u64,
    step: BuildStep<C>,
    after: RegistryState<C>,
)
    requires
        looked_up(before, digest, now, step, after),
    ensures
        step is Ready <==> before.clients.contains_key(digest),
        step is Wait <==> !before.clients.contains_key(digest) && before.connecting.contains(
            digest,
        ),
        step is Ready ==> {
            &&& step->Ready_0 == before.clients[digest].client
            &&& after.clients[digest].client == before.clients[digest].client
            &&& after.clients[digest].cred_keys == before.clients[digest].cred_keys
            &&& after.clients[digest].last_used == now
        },
        forall|d: Seq<u8>| #[trigger]
            after.clients.contains_key(d) <==> before.clients.contains_key(d),
        forall|d: Seq<u8>| #[trigger]
            after.clients.contains_key(d) && d != digest ==> after.clients[d]
                == before.clients[d],
        forall|d: Seq<u8>| #[trigger]
            after.connecting.contains(d) <==> before.connecting.contains(d) || (d == digest
                && step is Build),
        after.limits == before.limits,
{
}

/// A new client is cached as it was built: with its own handle, with every
/// credential it was built from, and as used now. Nothing else changes but that
/// the connect is over and that, where the registry was full, one client goes
/// than which none that stays was used earlier.
pub proof fn new_client_is_cached_as_built<C>(
    before: RegistryState<C>,
    digest: Seq<u8>,
    cred_keys: Seq<TextPair>,
    built: Arc<C>,
    now: u64,
    installed: Option<Installed<C>>,
    after: RegistryState<C>,
)
    requires
        before.clients.dom().finite(),
        !before.clients.contains_key(digest),
        build_finished(before, digest, cred_keys, Some(built), now, installed, after),
    ensures
        installed is Some,
        installed->0.client == built,
        installed->0.evicted is Some <==> before.clients.len() >= before.limits.max_entries,
        installed->0.evicted is None ==> {
            &&& after.clients.contains_key(digest)
            &&& forall|d: Seq<u8>|
                d != digest ==> (#[trigger] after.clients.contains_key(d)
                    <==> before.clients.contains_key(d))
        },
        installed->0.evicted is Some ==> {
            let gone = installed->0.evicted->0@;
            &&& gone == digest || before.clients.contains_key(gone)
            &&& !after.clients.contains_key(gone)
            &&& gone != digest ==> after.clients.contains_key(digest)
            &&& forall|d: Seq<u8>|
                d != digest && d != gone ==> (#[trigger] after.clients.contains_key(d)
                    <==> before.clients.contains_key(d))
            &&& forall|d: Seq<u8>| #[trigger]
                after.clients.contains_key(d) ==> (if gone == digest {
                    now
                } else {
                    before.clients[gone].last_used
                }) <= after.clients[d].last_used
        },
        after.clients.contains_key(digest) ==> {
            &&& after.clients[digest].client == built
            &&& after.clients[digest].cred_keys == cred_keys
            &&& after.clients[digest].last_used == now
        },
        forall|d: Seq<u8>| #[trigger]
            after.clients.contains_key(d) && d != digest ==> after.clients[d]
                == before.clients[d],
        forall|d: Seq<u8>| #[trigger]
            after.connecting.contains(d) <==> before.connecting.contains(d) && d != digest,
        after.limits == before.limits,
{
    let grown = before.clients.insert(
        digest,
        CachedClient { client: built, cred_keys, last_used: now },
    );
    assert(grown.dom() =~= before.clients.dom().insert(digest));
    assert(grown.len() == before.clients.len() + 1);
    if let Some(evicted) = installed->0.evicted {
        assert(grown.contains_key(evicted@));
        assert forall|d: Seq<u8>| #[trigger] after.clients.contains_key(d) implies (if evicted@
            == digest {
            now
        } else {
            before.clients[evicted@].last_used
        }) <= after.clients[d].last_used by {
            assert(grown.contains_key(d));
        }
    }
}

/// A connect for a digest that has a client already, or that failed, adds no
/// client and drops none; a late one counts as a use of the client that is
/// there.
pub proof fn late_or_failed_connect_adds_nothing<C>(
    before: RegistryState<C>,
    digest: Seq<u8>,
    cred_keys: Seq<TextPair>,
    built: Option<Arc<C>>,
    now: u64,
    installed: Option<Installed<C>>,
    after: RegistryState<C>,
)
    requires
        built is None || before.clients.contains_key(digest),
        build_finished(before, digest, cred_keys, built, now, installed, after),
    ensures
        installed is Some <==> built is Some,
        installed is Some ==> installed->0.client == before.clients[digest].client
            && installed->0.evicted is None,
        forall|d: Seq<u8>| #[trigger]
            after.clients.contains_key(d) <==> before.clients.contains_key(d),
        forall|d: Seq<u8>| #[trigger]
            after.clients.contains_key(d) ==> {
                &&& after.clients[d].client == before.clients[d].client
                &&& after.clients[d].cred_keys == before.clients[d].cred_keys
                &&& after.clients[d].last_used == if d == digest && built is Some {
                    now
                } else {
                    before.clients[d].last_used
                }
            },
        forall|d: Seq<u8>| #[trigger]
            after.connecting.contains(d) <==> before.connecting.contains(d) && d != digest,
        after.limits == before.limits,
{
}

/// A revocation drops exactly the clients that hold the pair at some position,
/// and leaves the others as they are.
pub proof fn revocation_drops_by_key<C>(
    clients: Clients<C>,
    plugin_id: Seq<char>,
    target: Seq<char>,
    digest: Seq<u8>,
)
    ensures
        without_key(clients, plugin_id, target).contains_key(digest) <==> {
            &&& clients.contains_key(digest)
            &&& forall|i: int|
                0 <= i < clients[digest].cred_keys.len() ==> #[trigger]
                clients[digest].cred_keys[i] != (plugin_id, target)
        },
        without_key(clients, plugin_id, target).contains_key(digest) ==> without_key(
            clients,
            plugin_id,
            target,
        )[digest] == clients[digest],
{
    let keys = clients[digest].cred_keys;
    if forall|i: int| 0 <= i < keys.len() ==> #[trigger] keys[i] != (plugin_id, target) {
        assert(!keys.contains((plugin_id, target)));
    }
}

/// A client is dropped by the revocation of any credential it was built from:
/// whatever its digest was looked up for in between, none is left under it.
pub proof fn built_client_is_revoked_by_each_key<C>(
    before: RegistryState<C>,
    digest: Seq<u8>,
    cred_keys: Seq<TextPair>,
    built: Arc<C>,
    t1: u64,
    installed: Option<Installed<C>>,
    between: RegistryState<C>,
    looked: Seq<u8>,
    t2: u64,
    step: BuildStep<C>,
    after: RegistryState<C>,
    at: int,
)
    requires
        !before.clients.contains_key(digest),
        build_finished(before, digest, cred_keys, Some(built), t1, installed, between),
        looked_up(between, looked, t2, step, after),
        0 <= at < cred_keys.len(),
    ensures
        !without_key(between.clients, cred_keys[at].0, cred_keys[at].1).contains_key(digest),
        !without_key(after.clients, cred_keys[at].0, cred_keys[at].1).contains_key(digest),
{
    let (p, t) = cred_keys[at];
    assert(cred_keys.contains((p, t)));
    if between.clients.contains_key(digest) {
        assert(between.clients[digest].cred_keys == cred_keys);
        assert(after.clients[digest].cred_keys == cred_keys);
    }
}

/// A client outlives the revocation of every credential it was not built from.
pub proof fn built_client_outlives_other_revocations<C>(
    before: RegistryState<C>,
    digest: Seq<u8>,
    cred_keys: Seq<TextPair>,
    built: Arc<C>,
    now: u64,
    installed: Option<Installed<C>>,
    after: RegistryState<C>,
    plugin_id: Seq<char>,
    target: Seq<char>,
)
    requires
        !before.clients.contains_key(digest),
        build_finished(before, digest, cred_keys, Some(built), now, installed, after),
        after.clients.contains_key(digest),
        forall|i: int| 0 <= i < cred_keys.len() ==> #[trigger] cred_keys[i] != (plugin_id, target),
    ensures
        without_key(after.clients, plugin_id, target).contains_key(digest),
        without_key(after.clients, plugin_id, target)[digest].client == built,
{
    assert(!cred_keys.contains((plugin_id, target)));
}

/// A sweep drops a client exactly where the clock is past its last use by more
/// than the threshold, and leaves the others as they are.
pub proof fn sweep_drops_by_the_clock<C>(
    clients: Clients<C>,
    now: u64,
    threshold_ms: u128,
    digest: Seq<u8>,
)
    ensures
        without_idle(clients, now, threshold_ms).contains_key(digest) <==> clients.contains_key(
            digest,
        ) && now <= clients[digest].last_used + threshold_ms,
        without_idle(clients, now, threshold_ms).contains_key(digest) ==> without_idle(
            clients,
            now,
            threshold_ms,
        )[digest] == clients[digest],
{
}

/// A client that is never used again after `used` is dropped by every sweep
/// more than the threshold later, and by none before.
pub proof fn unused_client_is_swept_in_time<C>(
    before: RegistryState<C>,
    digest: Seq<u8>,
    used: u64,
    client: Arc<C>,
    after: RegistryState<C>,
    now: u64,
    threshold_ms: u128,
)
    requires
        looked_up(before, digest, used, BuildStep::Ready(client), after),
    ensures
        now > used + threshold_ms <==> !without_idle(
            after.clients,
            now,
            threshold_ms,
        ).contains_key(digest),
{
}

// The shared connection.

/// The shared client is the first one that was connected: whoever needs it gets
/// it, and as long as there is none the configured URL and credentials file are
/// connected to, or their absence is reported. A failure changes nothing.
pub proof fn first_client_is_shared<C>(
    before: ConnectionState<C>,
    event: ConnectEvent<C>,
    step: ConnectStep<C>,
    after: ConnectionState<C>,
)
    requires
        connection_step(before, event, step, after),
    ensures
        after.url == before.url,
        after.credentials_path == before.credentials_path,
        before.client is Some ==> after.client == before.client,
        event is Needed ==> after.client == before.client,
        event is Needed && before.client is Some ==> step is Ready && step->Ready_0
            == before.client->0,
        event is Needed && before.client is None && before.url is None ==> step is NotConfigured,
        event is Needed && before.client is None && before.url is Some ==> {
            &&& step is Connect
            &&& step->url@ == before.url->0
            &&& step->credentials_path is Some <==> before.credentials_path is Some
            &&& before.credentials_path is Some ==> step->credentials_path->0@
                == before.credentials_path->0
        },
        event is Connected ==> {
            &&& step is Ready
            &&& after.client == Some(step->Ready_0)
            &&& before.client is None ==> step->Ready_0 == event->Connected_0
        },
        event is Failed ==> {
            &&& after.client == before.client
            &&& step is GiveUp
            &&& step->GiveUp_0 == event->Failed_0
        },
{
}

// Messages and replies.

/// A reply within the limit is handed on whole and unflagged; a longer one
/// gives exactly as many bytes as the limit allows, its first ones, flagged.
pub proof fn reply_is_cut_at_the_limit(
    subject: Seq<char>,
    timeout_ms: u64,
    max_response_bytes: usize,
    payload: bytes::Bytes,
    result: Result<BackendResponse, BackendError>,
)
    requires
        settled(subject, timeout_ms, max_response_bytes, Reply::Message(payload), result),
    ensures
        result is Ok,
        bytes_of(payload).len() <= max_response_bytes ==> !result->Ok_0.truncated
            && result->Ok_0.payload@ == bytes_of(payload),
        bytes_of(payload).len() > max_response_bytes ==> {
            &&& result->Ok_0.truncated
            &&& result->Ok_0.payload@.len() == max_response_bytes
            &&& forall|i: int|
                0 <= i < max_response_bytes ==> #[trigger] result->Ok_0.payload@[i] == bytes_of(
                    payload,
                )[i]
        },
{
}

/// A request that failed or timed out gives no response: the failure is
/// reported with its subject and cause, the timeout with its length.
pub proof fn failures_are_reported_as_they_are(
    subject: Seq<char>,
    timeout_ms: u64,
    max_response_bytes: usize,
    reply: Reply,
    result: Result<BackendResponse, BackendError>,
)
    requires
        settled(subject, timeout_ms, max_response_bytes, reply, result),
    ensures
        reply is Message <==> result is Ok,
        reply is Failed ==> {
            &&& result->Err_0 is Transport
            &&& result->Err_0->Transport_message@ == "NATS request to '"@ + subject
                + "' failed: "@ + reply->Failed_0@
        },
        reply is TimedOut ==> {
            &&& result->Err_0 is Timeout
            &&& result->Err_0->timeout_ms == timeout_ms
        },
{
}

/// NATS takes a name or a value exactly where it takes each character of it.
pub proof fn headers_that_nats_takes(a: Seq<char>, b: Seq<char>, c: char)
    ensures
        header_name(Seq::<char>::empty()) && header_value(Seq::<char>::empty()),
        header_name(a + b) <==> header_name(a) && header_name(b),
        header_value(a + b) <==> header_value(a) && header_value(b),
        header_name(seq![c]) <==> 0x21 <= c as u32 <= 0x7e && c != ':',
        header_value(seq![c]) <==> c != '\r' && c != '\n',
{
    let ab = a + b;
    if header_name(ab) {
        assert forall|i: int| 0 <= i < a.len() implies '!' <= #[trigger] a[i] <= '~' && a[i]
            != ':' by {
            assert(ab[i] == a[i]);
        }
        assert forall|i: int| 0 <= i < b.len() implies '!' <= #[trigger] b[i] <= '~' && b[i]
            != ':' by {
            assert(ab[a.len() + i] == b[i]);
        }
    }
    if header_value(ab) {
        assert forall|i: int| 0 <= i < a.len() implies #[trigger] a[i] != '\r' && a[i] != '\n' by {
            assert(ab[i] == a[i]);
        }
        assert forall|i: int| 0 <= i < b.len() implies #[trigger] b[i] != '\r' && b[i] != '\n' by {
            assert(ab[a.len() + i] == b[i]);
        }
    }
    assert(seq![c][0] == c);
}

/// A request can be sent exactly where NATS takes each of its headers and both
/// parts of its hint.
pub proof fn sendable_requests(request: BackendRequest)
    ensures
        sendable(request) <==> {
            &&& forall|i: int|
                0 <= i < request.headers@.len() ==> header_name((#[trigger] request.headers@[i]).0@)
                    && header_value(request.headers@[i].1@)
            &&& request.idempotency is Some ==> header_value(request.idempotency->0.key@)
                && header_value(request.idempotency->0.scope_hash@)
        },
{
}

/// A header is on the outbound message exactly where it is among the inbound
/// ones or is one of the hint's two; and it has one value.
pub proof fn outbound_headers_are_accounted_for(request: BackendRequest, name: Seq<char>)
    ensures
        outbound_headers(request).contains_key(name) <==> {
            ||| exists|i: int|
                0 <= i < request.headers@.len() && (#[trigger] request.headers@[i]).0@ == name
            ||| request.idempotency is Some && (name == "idempotency-key"@ || name
                == "idempotency-scope-hash"@)
        },
        outbound_headers(request).contains_key(name) ==> outbound_headers(request)[name].len()
            == 1,
{
    no_other_headers_are_added(request, name);
    let pairs = text_pairs(request.headers@);
    if exists|i: int|
        0 <= i < request.headers@.len() && (#[trigger] request.headers@[i]).0@ == name {
        let i = choose|i: int|
            0 <= i < request.headers@.len() && (#[trigger] request.headers@[i]).0@ == name;
        assert(pairs[i].0 == name);
    }
    if crate::wire::has_header(pairs, name) {
        let i = choose|i: int| 0 <= i < pairs.len() && (#[trigger] pairs[i]).0 == name;
        assert(request.headers@[i].0@ == name);
    }
    lemma_one_value(pairs, name);
}

proof fn lemma_one_value(headers: Seq<TextPair>, name: Seq<char>)
    ensures
        forwarded(headers).contains_key(name) ==> forwarded(headers)[name].len() == 1,
    decreases headers.len(),
{
    if headers.len() > 0 {
        lemma_one_value(headers.drop_last(), name);
    }
}

// What operators write, and what can go wrong.

/// The view of a spec shows every field as it is.
pub proof fn spec_views_are_faithful(spec: NatsBackendSpec)
    ensures
        spec@.url is Some <==> spec.url is Some,
        spec.url is Some ==> spec@.url->0 == spec.url->0@,
        spec@.credentials_path is Some <==> spec.credentials_path is Some,
        spec.credentials_path is Some ==> spec@.credentials_path->0 == spec.credentials_path->0@,
        spec@.auth_token is Some <==> spec.auth_token is Some,
        spec.auth_token is Some ==> spec@.auth_token->0 == spec.auth_token->0@,
        spec@.subject == spec.subject@,
        spec@.timeout_ms == spec.timeout_ms,
        spec@.max_response_bytes == spec.max_response_bytes,
{
}

/// The text of an optional string is its text.
pub proof fn optional_texts(s: Option<String>)
    ensures
        text_of(s) is Some <==> s is Some,
        s is Some ==> text_of(s)->0 == s->0@,
{
}

/// Which objection a spec meets: an empty subject comes first, then spaces,
/// the timeout, the cap, and a credential reference last.
pub proof fn objections_come_in_order(spec: SpecView)
    ensures
        blank(spec.subject) ==> spec_objection(spec) == Some("subject must not be empty"@),
        !blank(spec.subject) && spec.subject.contains(' ') ==> spec_objection(spec) == Some(
            "subject must not contain spaces"@,
        ),
        !blank(spec.subject) && !spec.subject.contains(' ') && spec.timeout_ms == 0
            ==> spec_objection(spec) == Some("timeout_ms must be greater than 0"@),
        !blank(spec.subject) && !spec.subject.contains(' ') && spec.timeout_ms > 0
            && spec.max_response_bytes == 0 ==> spec_objection(spec) == Some(
            "max_response_bytes must be greater than 0"@,
        ),
        !blank(spec.subject) && !spec.subject.contains(' ') && spec.timeout_ms > 0
            && spec.max_response_bytes > 0 && occurs_in(spec.subject, "cred://"@)
            ==> spec_objection(spec) == Some("subject must not contain a cred:// reference"@),
        acceptable(spec) <==> spec_objection(spec) is None,
{
}

/// A subject has a wildcard exactly where one of its parts has, and a single
/// character is one where it is `*` or `>`.
pub proof fn wildcards_are_seen_anywhere(a: Seq<char>, b: Seq<char>, c: char)
    ensures
        !has_wildcard(Seq::<char>::empty()),
        has_wildcard(a + b) <==> has_wildcard(a) || has_wildcard(b),
        has_wildcard(seq![c]) <==> c == '*' || c == '>',
{
    lemma_contains_in_parts(a, b, '*');
    lemma_contains_in_parts(a, b, '>');
    assert(seq![c][0] == c);
}

proof fn lemma_contains_in_parts(a: Seq<char>, b: Seq<char>, c: char)
    ensures
        (a + b).contains(c) <==> a.contains(c) || b.contains(c),
{
    let ab = a + b;
    if a.contains(c) {
        let i = choose|i: int| 0 <= i < a.len() && a[i] == c;
        assert(ab[i] == c);
    }
    if b.contains(c) {
        let i = choose|i: int| 0 <= i < b.len() && b[i] == c;
        assert(ab[a.len() + i] == c);
    }
    if ab.contains(c) {
        let i = choose|i: int| 0 <= i < ab.len() && ab[i] == c;
        if i < a.len() {
            assert(a[i] == c);
        } else {
            assert(b[i - a.len()] == c);
        }
    }
}

/// A subject with a credential reference anywhere in it is never acceptable,
/// nor one with a space anywhere in it.
pub proof fn smuggled_references_are_refused(spec: SpecView, before: Seq<char>, behind: Seq<char>)
    requires
        spec.subject == before + "cred://"@ + behind || spec.subject == before + seq![' '] + behind,
    ensures
        !acceptable(spec),
{
    if spec.subject == before + "cred://"@ + behind {
        parts_of_texts(before, "cred://"@, behind, spec.subject);
    } else {
        assert(spec.subject[before.len() as int] == ' ');
    }
}

/// The views of errors show every variant and text as it is.
pub proof fn error_views_are_faithful(error: BackendError, watch_error: WatchError)
    ensures
        error is InvalidSpec ==> error@ == (BackendFault::InvalidSpec {
            message: error->InvalidSpec_message@,
        }),
        error is ProfileNotFound ==> error@ == (BackendFault::ProfileNotFound {
            backend_name: error->backend_name@,
        }),
        error is Transport ==> error@ == (BackendFault::Transport {
            message: error->Transport_message@,
        }),
        error is Timeout ==> error@ == (BackendFault::Timeout { timeout_ms: error->timeout_ms }),
        watch_error is InvalidSpec ==> watch_error@ == (WatchFault::InvalidSpec {
            message: watch_error->InvalidSpec_message@,
        }),
        watch_error is Subscribe ==> watch_error@ == (WatchFault::Subscribe {
            message: watch_error->Subscribe_message@,
        }),
{
}

// The watch.

/// A running watch emits on a message and goes on, ends with its stream, and
/// unsubscribes when cancelled; one that is over does nothing more.
pub proof fn watch_answers(
    running: bool,
    signal: WatchSignal,
    action: WatchAction,
    goes_on: bool,
)
    requires
        watch_step(running, signal, action, goes_on),
    ensures
        action is Emit <==> running && signal is Message,
        action is Unsubscribe <==> running && signal is Cancelled,
        goes_on <==> running && signal is Message,
{
}

} // verus!
