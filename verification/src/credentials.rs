//! Per-caller credentials: from the tokens in a spec to the client of a call.
//!
//! Resolving alternates between this crate and the host. The host's
//! credential grammar finds the `${cred://issuer/target}` tokens of a spec
//! ([`SpecTokens`]); [`cred_uris`] and [`cred_snapshot`] say which URIs are
//! offered to the host's resolver; [`resolved_credentials`] reads its answer;
//! the grammar substitutes the answers back ([`ResolvedConnection`]); and
//! [`resolve_client_for_call`] says which client the call needs.
//!
//! Only what the operator wrote is ever offered to the resolver: nothing of a
//! request enters any of these functions.

use vstd::prelude::*;

use crate::digest::{bundle_digest, digest_credential_bundle, fields_distinct, CredDigest};
use crate::error::{invalid_spec, transport, BackendError, BackendFault};
use crate::json::{
    json_as_array, json_as_object, json_as_str, json_entries, json_get, json_map_insert,
    json_map_new, json_members, json_object, json_string, json_tree, texts_among, JsonMembers,
    JsonTree,
};
use crate::laws::{
    every_ref_is_a_key, texts_among_items, texts_of_a_list,
};
use crate::order::{
    add_pair, add_text, ascending, pair_before, pair_order, same_text, text_before, text_order,
    text_pairs, texts, TextPair,
};
use crate::spec::text_of;
use crate::text::join2;

verus! {

/// The URIs of the `${cred://issuer/target}` tokens in the credential-bearing
/// fields of a spec; none for a field that is absent. A bare `cred://…` is no
/// token.
pub struct SpecTokens {
    pub url: Vec<String>,
    pub credentials_path: Vec<String>,
    pub auth_token: Vec<String>,
}

impl SpecTokens {
    /// Whether `uri` is the URI of a token in one of the fields.
    pub open spec fn has(&self, uri: Seq<char>) -> bool {
        ||| texts(self.url@).contains(uri)
        ||| texts(self.credentials_path@).contains(uri)
        ||| texts(self.auth_token@).contains(uri)
    }
}

/// Whether at least one field carries a token.
pub open spec fn carries_tokens(tokens: SpecTokens) -> bool {
    exists|uri: Seq<char>| tokens.has(uri)
}

/// Whether the spec carries at least one credential token.
pub fn spec_has_cred_refs(tokens: &SpecTokens) -> (yes: bool)
    ensures
        yes == carries_tokens(*tokens),
        yes == (tokens.url@.len() > 0 || tokens.credentials_path@.len() > 0
            || tokens.auth_token@.len() > 0),
{
    proof {
        if tokens.url@.len() > 0 {
            assert(texts(tokens.url@)[0] == tokens.url@[0]@);
            assert(tokens.has(tokens.url@[0]@));
        }
        if tokens.credentials_path@.len() > 0 {
            assert(texts(tokens.credentials_path@)[0] == tokens.credentials_path@[0]@);
            assert(tokens.has(tokens.credentials_path@[0]@));
        }
        if tokens.auth_token@.len() > 0 {
            assert(texts(tokens.auth_token@)[0] == tokens.auth_token@[0]@);
            assert(tokens.has(tokens.auth_token@[0]@));
        }
    }
    tokens.url.len() > 0 || tokens.credentials_path.len() > 0 || tokens.auth_token.len() > 0
}

fn add_texts(list: &mut Vec<String>, more: &Vec<String>)
    requires
        ascending(texts(old(list)@), text_order()),
    ensures
        ascending(texts(final(list)@), text_order()),
        forall|t: Seq<char>|
            #[trigger] texts(final(list)@).contains(t) <==> texts(old(list)@).contains(t) || texts(
                more@,
            ).contains(t),
{
    let ghost before = texts(list@);
    let ghost added = texts(more@);
    let mut i: usize = 0;
    while i < more.len()
        invariant
            i <= more.len(),
            added == texts(more@),
            ascending(texts(list@), text_order()),
            forall|t: Seq<char>|
                #[trigger] texts(list@).contains(t) <==> before.contains(t) || added.take(
                    i as int,
                ).contains(t),
        decreases more.len() - i,
    {
        let ghost earlier = added.take(i as int);
        add_text(list, more[i].clone());
        proof {
            let later = added.take(i + 1);
            assert(later =~= earlier.push(more@[i as int]@));
            assert forall|t: Seq<char>| later.contains(t) <==> earlier.contains(t) || t
                == more@[i as int]@ by {
                assert(later[i as int] == more@[i as int]@);
                if earlier.contains(t) {
                    let k = choose|k: int| 0 <= k < earlier.len() && earlier[k] == t;
                    assert(later[k] == t);
                }
            }
        }
        i += 1;
    }
    assert(added.take(more.len() as int) =~= added);
}

/// The URIs offered to the resolver: those of the tokens in the spec, each
/// once, in ascending order.
pub fn cred_uris(tokens: &SpecTokens) -> (uris: Vec<String>)
    ensures
        ascending(texts(uris@), text_order()),
        forall|uri: Seq<char>| #[trigger] texts(uris@).contains(uri) <==> tokens.has(uri),
        forall|i: int|
            0 <= i < tokens.url@.len() ==> texts(uris@).contains((#[trigger] tokens.url@[i])@),
        forall|i: int|
            0 <= i < tokens.credentials_path@.len() ==> texts(uris@).contains(
                (#[trigger] tokens.credentials_path@[i])@,
            ),
        forall|i: int|
            0 <= i < tokens.auth_token@.len() ==> texts(uris@).contains(
                (#[trigger] tokens.auth_token@[i])@,
            ),
        forall|k: int|
            0 <= k < uris@.len() ==> texts(tokens.url@).contains((#[trigger] uris@[k])@) || texts(
                tokens.credentials_path@,
            ).contains(uris@[k]@) || texts(tokens.auth_token@).contains(uris@[k]@),
        forall|k: int, l: int|
            0 <= k < l < uris@.len() ==> text_before(
                (#[trigger] uris@[k])@,
                (#[trigger] uris@[l])@,
            ),
{
    let mut uris: Vec<String> = Vec::new();
    add_texts(&mut uris, &tokens.url);
    add_texts(&mut uris, &tokens.credentials_path);
    add_texts(&mut uris, &tokens.auth_token);
    proof {
        assert forall|i: int| 0 <= i < tokens.url@.len() implies texts(uris@).contains(
            (#[trigger] tokens.url@[i])@,
        ) by {
            texts_of_a_list(tokens.url@, tokens.url@[i]@);
            assert(tokens.has(tokens.url@[i]@));
        }
        assert forall|i: int| 0 <= i < tokens.credentials_path@.len() implies texts(
            uris@,
        ).contains((#[trigger] tokens.credentials_path@[i])@) by {
            texts_of_a_list(tokens.credentials_path@, tokens.credentials_path@[i]@);
            assert(tokens.has(tokens.credentials_path@[i]@));
        }
        assert forall|i: int| 0 <= i < tokens.auth_token@.len() implies texts(uris@).contains(
            (#[trigger] tokens.auth_token@[i])@,
        ) by {
            texts_of_a_list(tokens.auth_token@, tokens.auth_token@[i]@);
            assert(tokens.has(tokens.auth_token@[i]@));
        }
        assert forall|k: int| 0 <= k < uris@.len() implies texts(tokens.url@).contains(
            (#[trigger] uris@[k])@,
        ) || texts(tokens.credentials_path@).contains(uris@[k]@) || texts(
            tokens.auth_token@,
        ).contains(uris@[k]@) by {
            texts_of_a_list(uris@, uris@[k]@);
            assert(tokens.has(uris@[k]@));
        }
        assert forall|k: int, l: int| 0 <= k < l < uris@.len() implies text_before(
            (#[trigger] uris@[k])@,
            (#[trigger] uris@[l])@,
        ) by {
            let all = texts(uris@);
            assert(text_order()(all[k], all[l]));
        }
    }
    uris
}

/// The members of the snapshot for a spec with these tokens: each token's URI
/// names itself.
pub open spec fn offered(tokens: SpecTokens) -> JsonMembers {
    Map::new(|uri: Seq<char>| tokens.has(uri), |uri: Seq<char>| JsonTree::Text(uri))
}

/// The snapshot is of the operator's making alone: it holds the URI of each
/// token the operator wrote, as the URI itself, and nothing else.
pub proof fn only_config_tokens_are_offered(tokens: SpecTokens, uri: Seq<char>)
    ensures
        offered(tokens).contains_key(uri) <==> tokens.has(uri),
        tokens.has(uri) ==> offered(tokens)[uri] == JsonTree::Text(uri),
{
}

/// The members of a snapshot that asks for `uris`: each one names itself.
pub open spec fn snapshot_members(uris: Seq<Seq<char>>) -> JsonMembers {
    Map::new(|uri: Seq<char>| uris.contains(uri), |uri: Seq<char>| JsonTree::Text(uri))
}

/// The snapshot handed to the resolver: an object with each URI as the name
/// and the value of a member.
pub fn cred_snapshot(uris: &Vec<String>) -> (snapshot: serde_json::Value)
    ensures
        json_tree(snapshot) == JsonTree::Object(snapshot_members(texts(uris@))),
{
    let ghost all = texts(uris@);
    let mut map = json_map_new();
    let mut i: usize = 0;
    assert(json_members(map) =~= snapshot_members(all.take(0)));
    while i < uris.len()
        invariant
            i <= uris.len(),
            all == texts(uris@),
            json_members(map) == snapshot_members(all.take(i as int)),
        decreases uris.len() - i,
    {
        json_map_insert(&mut map, uris[i].clone(), json_string(uris[i].clone()));
        proof {
            let (earlier, later) = (all.take(i as int), all.take(i + 1));
            assert(later =~= earlier.push(all[i as int]));
            assert forall|t: Seq<char>| later.contains(t) <==> earlier.contains(t) || t
                == all[i as int] by {
                assert(later[i as int] == all[i as int]);
                if earlier.contains(t) {
                    let k = choose|k: int| 0 <= k < earlier.len() && earlier[k] == t;
                    assert(later[k] == t);
                }
            }
            assert(json_members(map) =~= snapshot_members(later));
        }
        i += 1;
    }
    assert(all.take(uris.len() as int) =~= all);
    json_object(map)
}

/// Whether `entry` has the pair's first text as its name and the second as its
/// value.
spec fn is_entry(pair: TextPair, entry: (&String, &serde_json::Value)) -> bool {
    entry.0@ == pair.0 && json_tree(*entry.1) == JsonTree::Text(pair.1)
}

spec fn comes_from(pair: TextPair, entries: Seq<(&String, &serde_json::Value)>) -> bool {
    exists|k: int| 0 <= k < entries.len() && is_entry(pair, #[trigger] entries[k])
}

/// Read the resolver's answer: the value of each URI it resolved to a text.
/// What it left as anything but a text is passed over; an answer that is no
/// object at all is refused.
pub fn resolved_credentials(snapshot: &serde_json::Value) -> (resolved: Result<
    Vec<(String, String)>,
    BackendError,
>)
    ensures
        resolved is Ok <==> json_tree(*snapshot) is Object,
        resolved matches Ok(values) ==> {
            &&& fields_distinct(text_pairs(values@))
            &&& json_tree(*snapshot) matches JsonTree::Object(members)
            &&& forall|uri: Seq<char>, value: Seq<char>|
                #![trigger text_pairs(values@).contains((uri, value))]
                text_pairs(values@).contains((uri, value)) <==> members.contains_key(uri)
                    && members[uri] == JsonTree::Text(value)
        },
        resolved matches Err(error) ==> error@ == (BackendFault::Transport {
            message: "credential resolver mutated snapshot to non-object"@,
        }),
{
    let map = match json_as_object(snapshot) {
        None => {
            return Err(transport("credential resolver mutated snapshot to non-object"));
        },
        Some(map) => map,
    };
    let ghost members = json_members(*map);
    let found = json_entries(map);
    let mut values: Vec<(String, String)> = Vec::new();
    let mut i: usize = 0;
    while i < found.len()
        invariant
            i <= found.len(),
            forall|k: int, l: int|
                0 <= k < l < found@.len() ==> (#[trigger] found@[k]).0@ != (
                #[trigger] found@[l]).0@,
            fields_distinct(text_pairs(values@)),
            forall|j: int|
                0 <= j < values@.len() ==> comes_from(
                    #[trigger] text_pairs(values@)[j],
                    found@.take(i as int),
                ),
            forall|k: int, text: Seq<char>|
                0 <= k < i && json_tree(*(#[trigger] found@[k]).1) == JsonTree::Text(text)
                    ==> #[trigger] text_pairs(values@).contains((found@[k].0@, text)),
        decreases found.len() - i,
    {
        let ghost before = text_pairs(values@);
        let ghost (earlier, later) = (found@.take(i as int), found@.take(i + 1));
        assert forall|pair: TextPair| comes_from(pair, earlier) implies #[trigger] comes_from(
            pair,
            later,
        ) by {
            let k = choose|k: int| 0 <= k < earlier.len() && is_entry(pair, #[trigger] earlier[k]);
            assert(later[k] == earlier[k]);
        }
        if let Some(text) = json_as_str(found[i].1) {
            let ghost new = (found@[i as int].0@, text@);
            values.push((found[i].0.clone(), text.to_owned()));
            proof {
                let after = text_pairs(values@);
                assert(after =~= before.push(new));
                assert(is_entry(new, later[i as int]));
                assert forall|j: int| 0 <= j < before.len() implies #[trigger] before[j].0
                    != new.0 by {
                    assert(comes_from(before[j], earlier));
                    let k = choose|k: int|
                        0 <= k < earlier.len() && is_entry(before[j], #[trigger] earlier[k]);
                    assert(found@[k].0@ != found@[i as int].0@);
                }
                assert forall|j: int| 0 <= j < after.len() implies comes_from(
                    #[trigger] after[j],
                    later,
                ) by {
                    if j < before.len() {
                        assert(comes_from(before[j], later));
                    }
                }
                assert(after[before.len() as int] == new);
                assert forall|pair: TextPair| before.contains(pair) implies #[trigger]
                    after.contains(pair) by {
                    let j = choose|j: int| 0 <= j < before.len() && before[j] == pair;
                    assert(after[j] == pair);
                }
            }
        }
        i += 1;
    }
    proof {
        let pairs = text_pairs(values@);
        assert(found@.take(found.len() as int) =~= found@);
        assert forall|uri: Seq<char>, value: Seq<char>|
            #![trigger pairs.contains((uri, value))]
            pairs.contains((uri, value)) <==> members.contains_key(uri) && members[uri]
                == JsonTree::Text(value) by {
            if pairs.contains((uri, value)) {
                let j = choose|j: int| 0 <= j < pairs.len() && pairs[j] == (uri, value);
                assert(comes_from(pairs[j], found@));
                let k = choose|k: int|
                    0 <= k < found@.len() && is_entry((uri, value), #[trigger] found@[k]);
                assert(found@[k].0@ == uri);
            }
            if members.contains_key(uri) && members[uri] == JsonTree::Text(value) {
                let k = choose|k: int| 0 <= k < found@.len() && (#[trigger] found@[k]).0@ == uri;
                assert(json_tree(*found@[k].1) == JsonTree::Text(value));
            }
        }
    }
    Ok(values)
}

/// The secret references that the host announces in a spec: the texts in the
/// list `__mcpg_secret_refs`.
pub open spec fn announced_secret_refs(spec: JsonTree) -> Seq<Seq<char>> {
    match spec {
        JsonTree::Object(members) => if members.contains_key("__mcpg_secret_refs"@) {
            match members["__mcpg_secret_refs"@] {
                JsonTree::List(items) => texts_among(items),
                _ => Seq::empty(),
            }
        } else {
            Seq::empty()
        },
        _ => Seq::empty(),
    }
}

/// Read the secret references that the host announces in a spec.
pub fn rotation_secret_refs(spec: &serde_json::Value) -> (refs: Vec<String>)
    ensures
        texts(refs@) == announced_secret_refs(json_tree(*spec)),
        json_tree(*spec) matches JsonTree::Object(members) ==> members.contains_key(
            "__mcpg_secret_refs"@,
        ) ==> (members["__mcpg_secret_refs"@] matches JsonTree::List(items) ==> forall|i: int|
            0 <= i < items.len() && (#[trigger] items[i]) is Text ==> exists|k: int|
                0 <= k < refs@.len() && (#[trigger] refs@[k])@ == items[i]->Text_0),
        forall|k: int|
            0 <= k < refs@.len() ==> {
                &&& json_tree(*spec) matches JsonTree::Object(members)
                &&& members.contains_key("__mcpg_secret_refs"@)
                &&& members["__mcpg_secret_refs"@] matches JsonTree::List(items)
                &&& exists|i: int|
                    0 <= i < items.len() && #[trigger] items[i] == JsonTree::Text(
                        (#[trigger] refs@[k])@,
                    )
            },
{
    let hint = match json_get(spec, "__mcpg_secret_refs") {
        None => {
            let none: Vec<String> = Vec::new();
            assert(texts(none@) =~= Seq::empty());
            return none;
        },
        Some(hint) => hint,
    };
    let values = match json_as_array(hint) {
        None => {
            let none: Vec<String> = Vec::new();
            assert(texts(none@) =~= Seq::empty());
            return none;
        },
        Some(values) => values,
    };
    let ghost items = Seq::new(values@.len(), |i: int| json_tree(values@[i]));
    let mut refs: Vec<String> = Vec::new();
    let mut i: usize = 0;
    assert(texts(refs@) =~= texts_among(items.take(0))) by {
        reveal(Seq::filter_map);
    }
    while i < values.len()
        invariant
            i <= values.len(),
            items == Seq::new(values@.len(), |i: int| json_tree(values@[i])),
            texts(refs@) == texts_among(items.take(i as int)),
        decreases values.len() - i,
    {
        let ghost before = texts(refs@);
        let ghost (earlier, later) = (items.take(i as int), items.take(i + 1));
        proof {
            reveal(Seq::filter_map);
            assert(later.drop_last() =~= earlier);
            assert(later.last() == json_tree(values@[i as int]));
        }
        if let Some(text) = json_as_str(&values[i]) {
            refs.push(text.to_owned());
            assert(texts(refs@) =~= before.push(text@));
        }
        assert(texts(refs@) =~= texts_among(later));
        i += 1;
    }
    assert(items.take(values.len() as int) =~= items);
    proof {
        assert forall|i: int| 0 <= i < items.len() && (#[trigger] items[i]) is Text implies exists|
            k: int,
        | 0 <= k < refs@.len() && (#[trigger] refs@[k])@ == items[i]->Text_0 by {
            texts_among_items(items, items, items[i], items[i]->Text_0);
            texts_of_a_list(refs@, items[i]->Text_0);
        }
        assert forall|k: int| 0 <= k < refs@.len() implies exists|i: int|
            0 <= i < items.len() && #[trigger] items[i] == JsonTree::Text(
                (#[trigger] refs@[k])@,
            ) by {
            texts_of_a_list(refs@, refs@[k]@);
            texts_among_items(items, items, JsonTree::Scalar, refs@[k]@);
        }
    }
    refs
}

/// Whether the rotation of `secret_ref` concerns a profile with these refs.
pub fn rotation_applies(refs: &Vec<String>, secret_ref: &str) -> (yes: bool)
    ensures
        yes == texts(refs@).contains(secret_ref@),
        yes == (exists|i: int| 0 <= i < refs@.len() && (#[trigger] refs@[i])@ == secret_ref@),
{
    let ghost all = texts(refs@);
    proof {
        texts_of_a_list(refs@, secret_ref@);
    }
    let mut i: usize = 0;
    while i < refs.len()
        invariant
            i <= refs.len(),
            all == texts(refs@),
            all.contains(secret_ref@) == (exists|i: int|
                0 <= i < refs@.len() && (#[trigger] refs@[i])@ == secret_ref@),
            forall|j: int| 0 <= j < i ==> #[trigger] all[j] != secret_ref@,
        decreases refs.len() - i,
    {
        if same_text(refs[i].as_str(), secret_ref) {
            assert(all[i as int] == secret_ref@);
            return true;
        }
        assert(all[i as int] == refs@[i as int]@);
        i += 1;
    }
    false
}

/// How the host failed to resolve credentials.
pub enum HostFailure {
    /// The host hands on an error of its own backend.
    Backend(BackendError),
    /// Anything else, in the host's words.
    Other(String),
}

/// What a call reports when the host failed to resolve credentials.
pub fn resolution_failed(failure: HostFailure) -> (error: BackendError)
    ensures
        match failure {
            HostFailure::Backend(cause) => error == cause,
            HostFailure::Other(cause) => error@ == (BackendFault::Transport {
                message: "credential resolution: "@ + cause@,
            }),
        },
{
    match failure {
        HostFailure::Backend(cause) => cause,
        HostFailure::Other(cause) => {
            BackendError::Transport { message: join2("credential resolution: ", cause.as_str()) }
        },
    }
}

/// What a call reports when the connect with its credentials failed.
pub fn client_build_failed(cause: &str) -> (error: BackendError)
    ensures
        error@ == (BackendFault::Transport {
            message: "building per-credential NATS client: "@ + cause@,
        }),
{
    BackendError::Transport { message: join2("building per-credential NATS client: ", cause) }
}

/// Whether `found` is the pair `key`.
pub open spec fn is_ref(found: Option<(String, String)>, key: TextPair) -> bool {
    found matches Some(pair) && (pair.0@, pair.1@) == key
}

/// Whether the pair `key` is among `refs`.
pub open spec fn has_ref(refs: Seq<Option<(String, String)>>, key: TextPair) -> bool {
    exists|i: int| 0 <= i < refs.len() && is_ref(#[trigger] refs[i], key)
}

/// The `(plugin_id, target)` pairs behind a call's credentials, each once, in
/// ascending order. `refs` is what the grammar makes of each offered URI;
/// a URI it cannot parse has no pair.
pub fn cred_keys(refs: Vec<Option<(String, String)>>) -> (keys: Vec<(String, String)>)
    ensures
        ascending(text_pairs(keys@), pair_order()),
        forall|key: TextPair| #[trigger] text_pairs(keys@).contains(key) <==> has_ref(refs@, key),
        forall|i: int|
            0 <= i < refs@.len() && (#[trigger] refs@[i]) is Some ==> text_pairs(keys@).contains(
                ((refs@[i]->0).0@, (refs@[i]->0).1@),
            ),
        forall|key: TextPair| #[trigger]
            text_pairs(keys@).contains(key) ==> exists|i: int|
                0 <= i < refs@.len() && (#[trigger] refs@[i]) is Some && (refs@[i]->0).0@ == key.0
                    && (refs@[i]->0).1@ == key.1,
        forall|k: int, l: int|
            0 <= k < l < keys@.len() ==> pair_before(
                ((#[trigger] keys@[k]).0@, keys@[k].1@),
                ((#[trigger] keys@[l]).0@, keys@[l].1@),
            ),
{
    let mut keys: Vec<(String, String)> = Vec::new();
    let mut i: usize = 0;
    while i < refs.len()
        invariant
            i <= refs.len(),
            ascending(text_pairs(keys@), pair_order()),
            forall|key: TextPair| #[trigger]
                text_pairs(keys@).contains(key) <==> has_ref(refs@.take(i as int), key),
        decreases refs.len() - i,
    {
        let ghost (earlier, later) = (refs@.take(i as int), refs@.take(i + 1));
        let ghost before = text_pairs(keys@);
        proof {
            assert forall|key: TextPair| has_ref(later, key) <==> has_ref(earlier, key) || is_ref(
                refs@[i as int],
                key,
            ) by {
                assert(later[i as int] == refs@[i as int]);
                if has_ref(earlier, key) {
                    let k = choose|k: int|
                        0 <= k < earlier.len() && is_ref(#[trigger] earlier[k], key);
                    assert(later[k] == earlier[k]);
                }
                if has_ref(later, key) {
                    let k = choose|k: int| 0 <= k < later.len() && is_ref(#[trigger] later[k], key);
                    if k < i {
                        assert(earlier[k] == later[k]);
                    }
                }
            }
        }
        if let Some(key) = &refs[i] {
            add_pair(&mut keys, (key.0.clone(), key.1.clone()));
        }
        i += 1;
    }
    assert(refs@.take(refs.len() as int) =~= refs@);
    proof {
        let all = text_pairs(keys@);
        assert forall|i: int| 0 <= i < refs@.len() && (
        #[trigger] refs@[i]) is Some implies all.contains(
            ((refs@[i]->0).0@, (refs@[i]->0).1@),
        ) by {
            every_ref_is_a_key(refs@, ((refs@[i]->0).0@, (refs@[i]->0).1@));
        }
        assert forall|key: TextPair| #[trigger] all.contains(key) implies exists|i: int|
            0 <= i < refs@.len() && (#[trigger] refs@[i]) is Some && (refs@[i]->0).0@ == key.0 && (
            refs@[i]->0).1@ == key.1 by {
            every_ref_is_a_key(refs@, key);
        }
        assert forall|k: int, l: int| 0 <= k < l < keys@.len() implies pair_before(
            ((#[trigger] keys@[k]).0@, keys@[k].1@),
            ((#[trigger] keys@[l]).0@, keys@[l].1@),
        ) by {
            assert(pair_order()(all[k], all[l]));
        }
    }
    keys
}

/// The connection fields of a spec once every token is substituted.
pub struct ResolvedConnection {
    pub url: Option<String>,
    pub credentials_path: Option<String>,
    pub auth_token: Option<String>,
}

/// The `(field, value)` pairs of a connection.
pub open spec fn connection_pairs(
    url: Seq<char>,
    credentials_path: Option<Seq<char>>,
    auth_token: Option<Seq<char>>,
) -> Seq<TextPair> {
    let pairs = seq![("url"@, url)];
    let pairs = match credentials_path {
        Some(path) => pairs.push(("credentials_path"@, path)),
        None => pairs,
    };
    match auth_token {
        Some(token) => pairs.push(("auth_token"@, token)),
        None => pairs,
    }
}

/// The client a call needs: its digest in the registry, how to connect where
/// the registry has none, and the credentials whose revocation concerns it.
pub struct ClientRequest {
    pub digest: CredDigest,
    pub url: String,
    pub credentials_path: Option<String>,
    pub auth_token: Option<String>,
    pub cred_keys: Vec<(String, String)>,
}

/// Say which client a call with these resolved fields needs. `refs` is what
/// the grammar makes of each offered URI.
///
/// A call over per-caller credentials needs an explicit URL to connect to; a
/// spec without one is refused.
pub fn resolve_client_for_call(
    resolved: ResolvedConnection,
    refs: Vec<Option<(String, String)>>,
) -> (request: Result<ClientRequest, BackendError>)
    ensures
        request is Ok <==> resolved.url is Some,
        request matches Ok(request) ==> {
            &&& Some(request.url@) == text_of(resolved.url)
            &&& text_of(request.credentials_path) == text_of(resolved.credentials_path)
            &&& text_of(request.auth_token) == text_of(resolved.auth_token)
            &&& request.digest@ == bundle_digest(
                connection_pairs(
                    request.url@,
                    text_of(resolved.credentials_path),
                    text_of(resolved.auth_token),
                ),
            )
            &&& ascending(text_pairs(request.cred_keys@), pair_order())
            &&& forall|key: TextPair| #[trigger]
                text_pairs(request.cred_keys@).contains(key) <==> has_ref(refs@, key)
            &&& forall|i: int|
                0 <= i < refs@.len() && (#[trigger] refs@[i]) is Some ==> text_pairs(
                    request.cred_keys@,
                ).contains(((refs@[i]->0).0@, (refs@[i]->0).1@))
            &&& forall|key: TextPair| #[trigger]
                text_pairs(request.cred_keys@).contains(key) ==> exists|i: int|
                    0 <= i < refs@.len() && (#[trigger] refs@[i]) is Some && (refs@[i]->0).0@
                        == key.0 && (refs@[i]->0).1@ == key.1
        },
        request matches Err(error) ==> error@ == (BackendFault::InvalidSpec {
            message: "NATS binding with a ${cred://…} token in credentials_path or auth_token also requires a `url` field on the spec — the per-credential path needs an explicit connect URL"@,
        }),
{
    let url = match resolved.url {
        None => {
            return Err(
                invalid_spec(
                    "NATS binding with a ${cred://…} token in credentials_path or auth_token also requires a `url` field on the spec — the per-credential path needs an explicit connect URL",
                ),
            );
        },
        Some(url) => url,
    };
    let mut pairs: Vec<(String, String)> = Vec::new();
    pairs.push(("url".to_owned(), url.clone()));
    assert(text_pairs(pairs@) =~= connection_pairs(url@, None, None));
    if let Some(path) = &resolved.credentials_path {
        pairs.push(("credentials_path".to_owned(), path.clone()));
    }
    assert(text_pairs(pairs@) =~= connection_pairs(
        url@,
        text_of(resolved.credentials_path),
        None,
    ));
    if let Some(token) = &resolved.auth_token {
        pairs.push(("auth_token".to_owned(), token.clone()));
    }
    assert(text_pairs(pairs@) =~= connection_pairs(
        url@,
        text_of(resolved.credentials_path),
        text_of(resolved.auth_token),
    ));
    let digest = digest_credential_bundle(pairs.as_slice());
    Ok(
        ClientRequest {
            digest,
            url,
            credentials_path: resolved.credentials_path,
            auth_token: resolved.auth_token,
            cred_keys: cred_keys(refs),
        },
    )
}

} // verus!
