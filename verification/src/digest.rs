//! BLAKE3 digests of resolved credential bundles.

use vstd::prelude::*;
use vstd::utf8::*;

use crate::order::{is_before, text_before, text_order_is_total, text_pairs, TextPair};
use crate::order::{ascending, lemma_ascending_unique};

verus! {

/// 32-byte BLAKE3 digest of a resolved credential bundle. Two callers whose
/// credentials hash identically share one client.
pub type CredDigest = [u8; 32];

/// The byte `=`.
pub const EQUALS_SIGN: u8 = 0x3d;

/// The byte `\n`.
pub const LINE_FEED: u8 = 0x0a;

/// The BLAKE3 hash of `data`.
pub uninterp spec fn blake3_of(data: Seq<u8>) -> Seq<u8>;

/// `blake3::hash`: the result is the 32-byte BLAKE3 hash of `data`, a
/// function of `data` alone.
#[verifier::external_body]
fn blake3_hash(data: &[u8]) -> (digest: CredDigest)
    ensures
        digest@ == blake3_of(data@),
{
    blake3::hash(data).into()
}

/// The bytes one `(field, value)` pair contributes to the hashed bundle.
pub open spec fn pair_line(pair: TextPair) -> Seq<u8> {
    encode_utf8(pair.0) + seq![EQUALS_SIGN] + encode_utf8(pair.1) + seq![LINE_FEED]
}

/// The lines of `pairs`, in their order.
pub open spec fn bundle_lines(pairs: Seq<TextPair>) -> Seq<u8>
    decreases pairs.len(),
{
    if pairs.len() == 0 {
        Seq::empty()
    } else {
        bundle_lines(pairs.drop_last()) + pair_line(pairs.last())
    }
}

/// `sorted` with `pair` put behind every pair whose field does not come after
/// its own.
pub open spec fn place(sorted: Seq<TextPair>, pair: TextPair) -> Seq<TextPair>
    decreases sorted.len(),
{
    if sorted.len() > 0 && text_before(pair.0, sorted.last().0) {
        place(sorted.drop_last(), pair).push(sorted.last())
    } else {
        sorted.push(pair)
    }
}

/// `pairs` in the order of their fields; pairs with one field keep their
/// order.
pub open spec fn by_field(pairs: Seq<TextPair>) -> Seq<TextPair>
    decreases pairs.len(),
{
    if pairs.len() == 0 {
        Seq::empty()
    } else {
        place(by_field(pairs.drop_last()), pairs.last())
    }
}

/// The digest of a bundle.
pub open spec fn bundle_digest(pairs: Seq<TextPair>) -> Seq<u8> {
    blake3_of(bundle_lines(by_field(pairs)))
}

/// Digest of "no credentials resolved", for a spec that carries no credential
/// token.
#[must_use]
pub fn static_digest() -> (digest: CredDigest)
    ensures
        digest@ == blake3_of(encode_utf8("static"@)),
{
    blake3_hash("static".as_bytes())
}

fn push_all(buffer: &mut Vec<u8>, more: &[u8])
    ensures
        final(buffer)@ == old(buffer)@ + more@,
{
    let ghost before = buffer@;
    let mut i: usize = 0;
    assert(before + more@.take(0) =~= before);
    while i < more.len()
        invariant
            i <= more.len(),
            buffer@ == before + more@.take(i as int),
        decreases more.len() - i,
    {
        buffer.push(more[i]);
        assert(more@.take(i + 1) =~= more@.take(i as int).push(more@[i as int]));
        assert(buffer@ =~= before + more@.take(i + 1));
        i += 1;
    }
    assert(more@.take(more@.len() as int) =~= more@);
}

spec fn borrowed_pairs(list: Seq<&(String, String)>) -> Seq<TextPair> {
    Seq::new(list.len(), |i: int| (list[i].0@, list[i].1@))
}

proof fn lemma_place_is_insert(sorted: Seq<TextPair>, pair: TextPair, at: int)
    requires
        0 <= at <= sorted.len(),
        at > 0 ==> !text_before(pair.0, sorted[at - 1].0),
        forall|i: int| at <= i < sorted.len() ==> text_before(pair.0, #[trigger] sorted[i].0),
    ensures
        place(sorted, pair) == sorted.insert(at, pair),
    decreases sorted.len(),
{
    if at < sorted.len() {
        let rest = sorted.drop_last();
        lemma_place_is_insert(rest, pair, at);
        assert(sorted.insert(at, pair) =~= rest.insert(at, pair).push(sorted.last()));
    } else {
        assert(sorted.insert(at, pair) =~= sorted.push(pair));
    }
}

/// Stable digest of a set of `(field, value)` pairs: the pairs are put in the
/// order of their fields and hashed as `field=value` lines.
#[must_use]
pub fn digest_credential_bundle(pairs: &[(String, String)]) -> (digest: CredDigest)
    ensures
        digest@ == bundle_digest(text_pairs(pairs@)),
{
    let ghost all = text_pairs(pairs@);
    let mut sorted: Vec<&(String, String)> = Vec::new();
    let mut n: usize = 0;
    assert(borrowed_pairs(sorted@) =~= by_field(all.take(0)));
    while n < pairs.len()
        invariant
            n <= pairs.len(),
            all == text_pairs(pairs@),
            borrowed_pairs(sorted@) == by_field(all.take(n as int)),
        decreases pairs.len() - n,
    {
        let ghost before = borrowed_pairs(sorted@);
        let ghost new = all[n as int];
        let mut at: usize = sorted.len();
        while at > 0 && is_before(pairs[n as usize].0.as_str(), sorted[at - 1].0.as_str())
            invariant
                n < pairs.len(),
                at <= sorted.len(),
                before == borrowed_pairs(sorted@),
                new == (pairs@[n as int].0@, pairs@[n as int].1@),
                forall|i: int|
                    at <= i < sorted.len() ==> text_before(new.0, #[trigger] before[i].0),
            decreases at,
        {
            at -= 1;
            assert(before[at as int].0 == sorted@[at as int].0@);
        }
        sorted.insert(at, &pairs[n]);
        proof {
            lemma_place_is_insert(before, new, at as int);
            assert(borrowed_pairs(sorted@) =~= before.insert(at as int, new));
            assert(all.take(n + 1).drop_last() =~= all.take(n as int));
        }
        n += 1;
    }
    assert(all.take(pairs.len() as int) =~= all);
    let ghost ordered = by_field(all);
    let mut buffer: Vec<u8> = Vec::new();
    let mut i: usize = 0;
    while i < sorted.len()
        invariant
            i <= sorted.len(),
            ordered == borrowed_pairs(sorted@),
            buffer@ == bundle_lines(ordered.take(i as int)),
        decreases sorted.len() - i,
    {
        let ghost before = buffer@;
        push_all(&mut buffer, sorted[i].0.as_str().as_bytes());
        buffer.push(EQUALS_SIGN);
        push_all(&mut buffer, sorted[i].1.as_str().as_bytes());
        buffer.push(LINE_FEED);
        proof {
            assert(ordered.take(i + 1).drop_last() =~= ordered.take(i as int));
            assert(ordered.take(i + 1).last() == ordered[i as int]);
            assert(buffer@ =~= before + pair_line(ordered[i as int]));
        }
        i += 1;
    }
    assert(ordered.take(sorted.len() as int) =~= ordered);
    blake3_hash(buffer.as_slice())
}

/// The order of pairs by their fields alone.
pub open spec fn field_order() -> spec_fn(TextPair, TextPair) -> bool {
    |a: TextPair, b: TextPair| text_before(a.0, b.0)
}

/// The pairs of one field, in their order.
pub open spec fn run(pairs: Seq<TextPair>, field: Seq<char>) -> Seq<TextPair> {
    pairs.filter(|p: TextPair| p.0 == field)
}

/// No two pairs share a field.
pub open spec fn fields_distinct(pairs: Seq<TextPair>) -> bool {
    forall|i: int, j: int|
        0 <= i < j < pairs.len() ==> #[trigger] pairs[i].0 != #[trigger] pairs[j].0
}

proof fn lemma_place_keeps_runs(sorted: Seq<TextPair>, pair: TextPair, field: Seq<char>)
    ensures
        run(place(sorted, pair), field) == if pair.0 == field {
            run(sorted, field).push(pair)
        } else {
            run(sorted, field)
        },
    decreases sorted.len(),
{
    reveal(Seq::filter);
    if sorted.len() > 0 && text_before(pair.0, sorted.last().0) {
        let rest = sorted.drop_last();
        lemma_place_keeps_runs(rest, pair, field);
        text_order_is_total(pair.0, sorted.last().0, pair.0);
        let placed = place(rest, pair).push(sorted.last());
        assert(placed.drop_last() =~= place(rest, pair));
        assert(placed.last() == sorted.last());
    } else {
        assert(sorted.push(pair).drop_last() =~= sorted);
    }
}

proof fn lemma_place_ascends(sorted: Seq<TextPair>, pair: TextPair)
    requires
        forall|i: int, j: int|
            0 <= i < j < sorted.len() ==> !text_before(
                #[trigger] sorted[j].0,
                #[trigger] sorted[i].0,
            ),
    ensures
        place(sorted, pair).len() == sorted.len() + 1,
        forall|i: int|
            0 <= i <= sorted.len() ==> (#[trigger] place(sorted, pair)[i] == pair
                || sorted.contains(place(sorted, pair)[i])),
        forall|i: int, j: int|
            0 <= i < j <= sorted.len() ==> !text_before(
                #[trigger] place(sorted, pair)[j].0,
                #[trigger] place(sorted, pair)[i].0,
            ),
    decreases sorted.len(),
{
    let placed = place(sorted, pair);
    if sorted.len() > 0 && text_before(pair.0, sorted.last().0) {
        let rest = sorted.drop_last();
        lemma_place_ascends(rest, pair);
        let inner = place(rest, pair);
        assert forall|i: int| 0 <= i < inner.len() implies (#[trigger] placed[i] == pair
            || sorted.contains(placed[i])) by {
            assert(placed[i] == inner[i]);
            if inner[i] != pair {
                let k = choose|k: int| 0 <= k < rest.len() && rest[k] == inner[i];
                assert(sorted[k] == inner[i]);
            }
        }
        assert(sorted.contains(placed[sorted.len() as int])) by {
            assert(sorted[sorted.len() - 1] == placed[sorted.len() as int]);
        }
        assert forall|i: int, j: int| 0 <= i < j <= sorted.len() implies !text_before(
            #[trigger] placed[j].0,
            #[trigger] placed[i].0,
        ) by {
            if j < sorted.len() {
                assert(placed[i] == inner[i] && placed[j] == inner[j]);
            } else {
                assert(placed[i] == inner[i]);
                text_order_is_total(pair.0, sorted.last().0, pair.0);
                if inner[i] != pair {
                    let k = choose|k: int| 0 <= k < rest.len() && rest[k] == inner[i];
                    assert(sorted[k] == inner[i]);
                    assert(!text_before(sorted[sorted.len() - 1].0, sorted[k].0));
                }
            }
        }
    } else {
        assert forall|i: int| 0 <= i <= sorted.len() implies (#[trigger] placed[i] == pair
            || sorted.contains(placed[i])) by {
            if i < sorted.len() {
                assert(sorted[i] == placed[i]);
            }
        }
        assert forall|i: int, j: int| 0 <= i < j <= sorted.len() implies !text_before(
            #[trigger] placed[j].0,
            #[trigger] placed[i].0,
        ) by {
            if j == sorted.len() {
                let last = sorted[sorted.len() - 1];
                if i < sorted.len() - 1 {
                    assert(!text_before(last.0, sorted[i].0));
                }
                text_order_is_total(pair.0, sorted[i].0, last.0);
                text_order_is_total(sorted[i].0, last.0, pair.0);
                text_order_is_total(last.0, pair.0, sorted[i].0);
                text_order_is_total(pair.0, last.0, sorted[i].0);
            }
        }
    }
}

/// Putting pairs in the order of their fields is a stable sort: no field
/// comes after a later one, and the pairs of each field are those of the
/// input, in the input's order.
pub proof fn by_field_is_a_stable_sort(pairs: Seq<TextPair>)
    ensures
        by_field(pairs).len() == pairs.len(),
        forall|i: int, j: int|
            0 <= i < j < pairs.len() ==> !text_before(
                #[trigger] by_field(pairs)[j].0,
                #[trigger] by_field(pairs)[i].0,
            ),
        forall|field: Seq<char>| run(by_field(pairs), field) == #[trigger] run(pairs, field),
    decreases pairs.len(),
{
    if pairs.len() > 0 {
        let rest = pairs.drop_last();
        by_field_is_a_stable_sort(rest);
        lemma_place_ascends(by_field(rest), pairs.last());
        assert forall|field: Seq<char>| run(by_field(pairs), field) == #[trigger] run(
            pairs,
            field,
        ) by {
            reveal(Seq::filter);
            lemma_place_keeps_runs(by_field(rest), pairs.last(), field);
            assert(run(by_field(rest), field) == run(rest, field));
        }
    }
}

proof fn lemma_place_members(sorted: Seq<TextPair>, pair: TextPair, t: TextPair)
    ensures
        place(sorted, pair).contains(t) <==> sorted.contains(t) || t == pair,
    decreases sorted.len(),
{
    if sorted.len() > 0 && text_before(pair.0, sorted.last().0) {
        let rest = sorted.drop_last();
        lemma_place_members(rest, pair, t);
        lemma_push_members(place(rest, pair), sorted.last(), t);
        lemma_push_members(rest, sorted.last(), t);
        assert(sorted =~= rest.push(sorted.last()));
    } else {
        lemma_push_members(sorted, pair, t);
    }
}

proof fn lemma_push_members(list: Seq<TextPair>, pair: TextPair, t: TextPair)
    ensures
        list.push(pair).contains(t) <==> list.contains(t) || t == pair,
{
    let longer = list.push(pair);
    assert(longer[list.len() as int] == pair);
    if list.contains(t) {
        let k = choose|k: int| 0 <= k < list.len() && list[k] == t;
        assert(longer[k] == t);
    }
    if longer.contains(t) && t != pair {
        let k = choose|k: int| 0 <= k < longer.len() && longer[k] == t;
        assert(list[k] == t);
    }
}

/// Putting pairs in the order of their fields neither adds nor drops one.
pub proof fn lemma_by_field_members(pairs: Seq<TextPair>)
    ensures
        forall|t: TextPair| #[trigger] by_field(pairs).contains(t) <==> pairs.contains(t),
    decreases pairs.len(),
{
    if pairs.len() > 0 {
        let rest = pairs.drop_last();
        lemma_by_field_members(rest);
        assert forall|t: TextPair| #[trigger] by_field(pairs).contains(t) <==> pairs.contains(
            t,
        ) by {
            lemma_place_members(by_field(rest), pairs.last(), t);
            lemma_push_members(rest, pairs.last(), t);
            assert(by_field(rest).contains(t) <==> rest.contains(t));
            assert(pairs =~= rest.push(pairs.last()));
        }
    }
}

proof fn lemma_place_strictly_ascends(sorted: Seq<TextPair>, pair: TextPair)
    requires
        ascending(sorted, field_order()),
        forall|t: TextPair| #[trigger] sorted.contains(t) ==> t.0 != pair.0,
    ensures
        ascending(place(sorted, pair), field_order()),
    decreases sorted.len(),
{
    let placed = place(sorted, pair);
    if sorted.len() > 0 {
        assert(sorted.contains(sorted[sorted.len() - 1]));
        text_order_is_total(pair.0, sorted.last().0, pair.0);
    }
    if sorted.len() > 0 && text_before(pair.0, sorted.last().0) {
        let rest = sorted.drop_last();
        assert forall|t: TextPair| #[trigger] rest.contains(t) implies t.0 != pair.0 by {
            let k = choose|k: int| 0 <= k < rest.len() && rest[k] == t;
            assert(sorted[k] == t);
            assert(sorted.contains(t));
        }
        lemma_place_strictly_ascends(rest, pair);
        let inner = place(rest, pair);
        assert forall|i: int, j: int| 0 <= i < j < placed.len() implies field_order()(
            #[trigger] placed[i],
            #[trigger] placed[j],
        ) by {
            assert(placed[i] == inner[i]);
            if j < inner.len() {
                assert(placed[j] == inner[j]);
                assert(field_order()(inner[i], inner[j]));
            } else {
                assert(inner.contains(inner[i]));
                lemma_place_members(rest, pair, inner[i]);
                if inner[i] != pair {
                    let k = choose|k: int| 0 <= k < rest.len() && rest[k] == inner[i];
                    assert(field_order()(sorted[k], sorted[sorted.len() - 1]));
                }
            }
        }
    } else {
        assert forall|i: int, j: int| 0 <= i < j < placed.len() implies field_order()(
            #[trigger] placed[i],
            #[trigger] placed[j],
        ) by {
            if j < sorted.len() {
                assert(field_order()(sorted[i], sorted[j]));
            } else if i < sorted.len() - 1 {
                assert(field_order()(sorted[i], sorted[sorted.len() - 1]));
                text_order_is_total(sorted[i].0, sorted.last().0, pair.0);
            }
        }
    }
}

proof fn lemma_by_field_strictly_ascends(pairs: Seq<TextPair>)
    requires
        fields_distinct(pairs),
    ensures
        ascending(by_field(pairs), field_order()),
    decreases pairs.len(),
{
    if pairs.len() > 0 {
        let rest = pairs.drop_last();
        assert(fields_distinct(rest)) by {
            assert forall|i: int, j: int| 0 <= i < j < rest.len() implies #[trigger] rest[i].0
                != #[trigger] rest[j].0 by {
                assert(pairs[i].0 != pairs[j].0);
            }
        }
        lemma_by_field_strictly_ascends(rest);
        lemma_by_field_members(rest);
        assert forall|t: TextPair| #[trigger] by_field(rest).contains(t) implies t.0
            != pairs.last().0 by {
            assert(rest.contains(t));
            let k = choose|k: int| 0 <= k < rest.len() && rest[k] == t;
            assert(pairs[k].0 != pairs[pairs.len() - 1].0);
        }
        lemma_place_strictly_ascends(by_field(rest), pairs.last());
    }
}

/// The digest of a bundle whose fields are distinct does not depend on the
/// order in which its pairs are given.
pub proof fn digest_is_order_independent(a: Seq<TextPair>, b: Seq<TextPair>)
    requires
        fields_distinct(a),
        a.to_multiset() == b.to_multiset(),
    ensures
        bundle_digest(a) == bundle_digest(b),
{
    broadcast use vstd::seq_lib::group_to_multiset_ensures;

    assert forall|t: TextPair| a.contains(t) <==> b.contains(t) by {
        vstd::seq_lib::to_multiset_contains(a, t);
        vstd::seq_lib::to_multiset_contains(b, t);
    }
    assert(a.no_duplicates()) by {
        assert forall|i: int, j: int| 0 <= i < a.len() && 0 <= j < a.len() && i != j implies a[i]
            != a[j] by {
            if i < j {
                assert(a[i].0 != a[j].0);
            } else {
                assert(a[j].0 != a[i].0);
            }
        }
    }
    a.lemma_multiset_has_no_duplicates();
    b.lemma_multiset_has_no_duplicates_conv();
    assert(fields_distinct(b)) by {
        assert forall|i: int, j: int| 0 <= i < j < b.len() implies #[trigger] b[i].0
            != #[trigger] b[j].0 by {
            assert(b.contains(b[i]) && b.contains(b[j]));
            let k = choose|k: int| 0 <= k < a.len() && a[k] == b[i];
            let l = choose|l: int| 0 <= l < a.len() && a[l] == b[j];
            assert(k != l);
            if k < l {
                assert(a[k].0 != a[l].0);
            } else {
                assert(a[l].0 != a[k].0);
            }
        }
    }
    lemma_by_field_strictly_ascends(a);
    lemma_by_field_strictly_ascends(b);
    lemma_by_field_members(a);
    lemma_by_field_members(b);
    assert forall|x: TextPair, y: TextPair, z: TextPair| #[trigger]
        field_order()(x, y) && #[trigger] field_order()(y, z) implies field_order()(x, z) by {
        text_order_is_total(x.0, y.0, z.0);
    }
    assert forall|x: TextPair| !(#[trigger] field_order()(x, x)) by {
        text_order_is_total(x.0, x.0, x.0);
    }
    assert forall|t: TextPair| #[trigger] by_field(a).contains(t) <==> by_field(b).contains(t) by {
        assert(a.contains(t) <==> b.contains(t));
    }
    lemma_ascending_unique(by_field(a), by_field(b), field_order());
}

} // verus!
