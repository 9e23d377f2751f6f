//! Lists of keyed entries, read as maps.

use vstd::prelude::*;

verus! {

/// An entry that stands for a value under a key.
pub trait Keyed: Sized {
    /// What entries are told apart by.
    type Key;

    /// What an entry stands for.
    type Value;

    spec fn key(&self) -> Self::Key;

    spec fn value(&self) -> Self::Value;
}

/// No two entries share a key.
pub open spec fn keys_distinct<E: Keyed>(list: Seq<E>) -> bool {
    forall|i: int, j: int|
        0 <= i < j < list.len() ==> (#[trigger] list[i]).key() != (#[trigger] list[j]).key()
}

/// The values of the entries, by their keys.
pub open spec fn contents<E: Keyed>(list: Seq<E>) -> Map<E::Key, E::Value>
    decreases list.len(),
{
    if list.len() == 0 {
        Map::empty()
    } else {
        contents(list.drop_last()).insert(list.last().key(), list.last().value())
    }
}

/// A list with distinct keys holds under each key the value of its entry, and
/// nothing else.
pub proof fn lemma_contents<E: Keyed>(list: Seq<E>)
    requires
        keys_distinct(list),
    ensures
        forall|i: int|
            0 <= i < list.len() ==> contents(list).contains_key((#[trigger] list[i]).key())
                && contents(list)[list[i].key()] == list[i].value(),
        forall|k: E::Key| #[trigger]
            contents(list).contains_key(k) ==> exists|i: int|
                0 <= i < list.len() && (#[trigger] list[i]).key() == k,
        contents(list).dom().finite(),
        contents(list).len() == list.len(),
    decreases list.len(),
{
    if list.len() > 0 {
        let rest = list.drop_last();
        assert forall|i: int, j: int| 0 <= i < j < rest.len() implies (#[trigger] rest[i]).key()
            != (#[trigger] rest[j]).key() by {
            assert(list[i].key() != list[j].key());
        }
        lemma_contents(rest);
        let last = list.last();
        assert(!contents(rest).contains_key(last.key())) by {
            if contents(rest).contains_key(last.key()) {
                let i = choose|i: int|
                    0 <= i < rest.len() && (#[trigger] rest[i]).key() == last.key();
                assert(list[i].key() != list[list.len() - 1].key());
            }
        }
        assert forall|i: int| 0 <= i < list.len() implies contents(list).contains_key(
            (#[trigger] list[i]).key(),
        ) && contents(list)[list[i].key()] == list[i].value() by {
            if i < rest.len() {
                assert(rest[i].key() == list[i].key());
                assert(list[i].key() != list[list.len() - 1].key());
            }
        }
        assert forall|k: E::Key| #[trigger] contents(list).contains_key(k) implies exists|i: int|
            0 <= i < list.len() && (#[trigger] list[i]).key() == k by {
            if k == last.key() {
                assert(list[list.len() - 1].key() == k);
            } else {
                let i = choose|i: int| 0 <= i < rest.len() && (#[trigger] rest[i]).key() == k;
                assert(list[i].key() == k);
            }
        }
    }
}

/// Adding an entry under a new key adds its value.
pub proof fn lemma_push<E: Keyed>(list: Seq<E>, entry: E)
    requires
        keys_distinct(list),
        !contents(list).contains_key(entry.key()),
    ensures
        keys_distinct(list.push(entry)),
        contents(list.push(entry)) == contents(list).insert(entry.key(), entry.value()),
{
    let after = list.push(entry);
    lemma_contents(list);
    assert(after.drop_last() =~= list);
    assert forall|i: int, j: int| 0 <= i < j < after.len() implies (#[trigger] after[i]).key() != (
    #[trigger] after[j]).key() by {
        if j < list.len() {
            assert(list[i].key() != list[j].key());
        } else {
            assert(contents(list).contains_key(list[i].key()));
        }
    }
}

/// Taking an entry out takes out its key, and leaves the others as they are.
pub proof fn lemma_remove<E: Keyed>(list: Seq<E>, at: int)
    requires
        keys_distinct(list),
        0 <= at < list.len(),
    ensures
        keys_distinct(list.remove(at)),
        contents(list.remove(at)) == contents(list).remove(list[at].key()),
{
    let rest = list.remove(at);
    assert forall|i: int, j: int| 0 <= i < j < rest.len() implies (#[trigger] rest[i]).key() != (
    #[trigger] rest[j]).key() by {
        let p: int = if i < at { i } else { i + 1 };
        let q: int = if j < at { j } else { j + 1 };
        assert(list[p].key() != list[q].key());
    }
    lemma_contents(list);
    lemma_contents(rest);
    let (m, n) = (contents(rest), contents(list).remove(list[at].key()));
    assert forall|k: E::Key| #[trigger] m.contains_key(k) <==> n.contains_key(k) by {
        if m.contains_key(k) {
            let i = choose|i: int| 0 <= i < rest.len() && (#[trigger] rest[i]).key() == k;
            let p: int = if i < at { i } else { i + 1 };
            assert(list[p].key() == k);
            if p < at {
                assert(list[p].key() != list[at].key());
            } else {
                assert(list[at].key() != list[p].key());
            }
        }
        if n.contains_key(k) {
            let p = choose|p: int| 0 <= p < list.len() && (#[trigger] list[p]).key() == k;
            let i: int = if p < at { p } else { p - 1 };
            assert(rest[i].key() == k);
        }
    }
    assert forall|k: E::Key| #[trigger] m.contains_key(k) implies m[k] == n[k] by {
        let i = choose|i: int| 0 <= i < rest.len() && (#[trigger] rest[i]).key() == k;
        let p: int = if i < at { i } else { i + 1 };
        assert(list[p].key() == k);
    }
    assert(m =~= n);
}

/// Putting another entry of the same key in an entry's place sets the value.
pub proof fn lemma_update<E: Keyed>(list: Seq<E>, at: int, entry: E)
    requires
        keys_distinct(list),
        0 <= at < list.len(),
        entry.key() == list[at].key(),
    ensures
        keys_distinct(list.update(at, entry)),
        contents(list.update(at, entry)) == contents(list).insert(entry.key(), entry.value()),
{
    let after = list.update(at, entry);
    assert forall|i: int, j: int| 0 <= i < j < after.len() implies (#[trigger] after[i]).key() != (
    #[trigger] after[j]).key() by {
        assert(list[i].key() != list[j].key());
    }
    lemma_contents(list);
    lemma_contents(after);
    let (m, n) = (contents(after), contents(list).insert(entry.key(), entry.value()));
    assert forall|k: E::Key| #[trigger] m.contains_key(k) <==> n.contains_key(k) by {
        if m.contains_key(k) {
            let i = choose|i: int| 0 <= i < after.len() && (#[trigger] after[i]).key() == k;
            assert(list[i].key() == k);
        }
        if n.contains_key(k) {
            if k == entry.key() {
                assert(after[at].key() == k);
            } else {
                let i = choose|i: int| 0 <= i < list.len() && (#[trigger] list[i]).key() == k;
                assert(after[i].key() == k);
            }
        }
    }
    assert forall|k: E::Key| #[trigger] m.contains_key(k) implies m[k] == n[k] by {
        let i = choose|i: int| 0 <= i < after.len() && (#[trigger] after[i]).key() == k;
        assert(list[i].key() == k);
        if k == entry.key() {
            if i < at {
                assert(list[i].key() != list[at].key());
            } else if i > at {
                assert(list[at].key() != list[i].key());
            }
        }
    }
    assert(m =~= n);
}

} // verus!
