//! The order of texts, and collections kept in it.
//!
//! Texts are ordered as Rust orders strings: by their UTF-8 bytes, the first
//! difference deciding, a proper prefix coming first.

use vstd::prelude::*;
use vstd::utf8::*;

verus! {

/// Whether the byte string `a` comes strictly before `b`.
pub open spec fn bytes_before(a: Seq<u8>, b: Seq<u8>) -> bool
    decreases a.len(),
{
    if b.len() == 0 {
        false
    } else if a.len() == 0 {
        true
    } else if a[0] != b[0] {
        a[0] < b[0]
    } else {
        bytes_before(a.drop_first(), b.drop_first())
    }
}

/// Whether the text `a` comes strictly before `b`.
pub open spec fn text_before(a: Seq<char>, b: Seq<char>) -> bool {
    bytes_before(encode_utf8(a), encode_utf8(b))
}

/// A pair of texts.
pub type TextPair = (Seq<char>, Seq<char>);

/// Whether the pair `a` comes strictly before `b`: the first texts decide,
/// the second ones where the first are equal.
pub open spec fn pair_before(a: TextPair, b: TextPair) -> bool {
    text_before(a.0, b.0) || (a.0 == b.0 && text_before(a.1, b.1))
}

/// The texts of a list of strings.
pub open spec fn texts(list: Seq<String>) -> Seq<Seq<char>> {
    Seq::new(list.len(), |i: int| list[i]@)
}

/// The texts of a list of string pairs.
pub open spec fn text_pairs(list: Seq<(String, String)>) -> Seq<TextPair> {
    Seq::new(list.len(), |i: int| (list[i].0@, list[i].1@))
}

/// Whether every item of `list` comes strictly before each later one.
pub open spec fn ascending<T>(list: Seq<T>, before: spec_fn(T, T) -> bool) -> bool {
    forall|i: int, j: int|
        0 <= i < j < list.len() ==> before(#[trigger] list[i], #[trigger] list[j])
}

proof fn lemma_bytes_irreflexive(a: Seq<u8>)
    ensures
        !bytes_before(a, a),
    decreases a.len(),
{
    if a.len() > 0 {
        lemma_bytes_irreflexive(a.drop_first());
    }
}

proof fn lemma_bytes_transitive(a: Seq<u8>, b: Seq<u8>, c: Seq<u8>)
    requires
        bytes_before(a, b),
        bytes_before(b, c),
    ensures
        bytes_before(a, c),
    decreases a.len(),
{
    if a.len() > 0 && a[0] == b[0] && b[0] == c[0] {
        lemma_bytes_transitive(a.drop_first(), b.drop_first(), c.drop_first());
    }
}

proof fn lemma_bytes_connected(a: Seq<u8>, b: Seq<u8>)
    ensures
        a == b || bytes_before(a, b) || bytes_before(b, a),
    decreases a.len(),
{
    if a.len() > 0 && b.len() > 0 && a[0] == b[0] {
        lemma_bytes_connected(a.drop_first(), b.drop_first());
        if a.drop_first() == b.drop_first() {
            assert(a =~= seq![a[0]] + a.drop_first());
            assert(b =~= seq![b[0]] + b.drop_first());
        }
    } else if a.len() == 0 && b.len() == 0 {
        assert(a =~= b);
    }
}

/// The order of texts is a strict total order.
pub proof fn text_order_is_total(a: Seq<char>, b: Seq<char>, c: Seq<char>)
    ensures
        !text_before(a, a),
        text_before(a, b) ==> !text_before(b, a),
        text_before(a, b) && text_before(b, c) ==> text_before(a, c),
        a == b || text_before(a, b) || text_before(b, a),
{
    let (x, y, z) = (encode_utf8(a), encode_utf8(b), encode_utf8(c));
    lemma_bytes_irreflexive(x);
    lemma_bytes_connected(x, y);
    if x == y {
        encode_utf8_decode_utf8(a);
        encode_utf8_decode_utf8(b);
    }
    if bytes_before(x, y) && bytes_before(y, x) {
        lemma_bytes_transitive(x, y, x);
    }
    if bytes_before(x, y) && bytes_before(y, z) {
        lemma_bytes_transitive(x, y, z);
    }
}

/// The order of pairs is a strict total order.
pub proof fn pair_order_is_total(a: TextPair, b: TextPair, c: TextPair)
    ensures
        !pair_before(a, a),
        pair_before(a, b) ==> !pair_before(b, a),
        pair_before(a, b) && pair_before(b, c) ==> pair_before(a, c),
        a == b || pair_before(a, b) || pair_before(b, a),
{
    text_order_is_total(a.0, b.0, c.0);
    text_order_is_total(a.1, b.1, c.1);
    text_order_is_total(b.0, a.0, c.0);
}

/// Tells whether `a` comes strictly before `b`.
pub fn is_before(a: &str, b: &str) -> (yes: bool)
    ensures
        yes == text_before(a@, b@),
{
    let x = a.as_bytes();
    let y = b.as_bytes();
    let mut i: usize = 0;
    assert(x@.skip(0) =~= x@);
    assert(y@.skip(0) =~= y@);
    while i < x.len() && i < y.len()
        invariant
            i <= x.len(),
            i <= y.len(),
            x@ == encode_utf8(a@),
            y@ == encode_utf8(b@),
            text_before(a@, b@) == bytes_before(x@.skip(i as int), y@.skip(i as int)),
        decreases x.len() - i,
    {
        if x[i] != y[i] {
            return x[i] < y[i];
        }
        assert(x@.skip(i as int).drop_first() =~= x@.skip(i + 1));
        assert(y@.skip(i as int).drop_first() =~= y@.skip(i + 1));
        i += 1;
    }
    x.len() < y.len()
}

/// Tells whether two texts are the same.
pub fn same_text(a: &str, b: &str) -> (yes: bool)
    ensures
        yes == (a@ == b@),
{
    proof {
        text_order_is_total(a@, b@, a@);
        text_order_is_total(b@, a@, b@);
    }
    !is_before(a, b) && !is_before(b, a)
}

/// The order of texts as a function value.
pub open spec fn text_order() -> spec_fn(Seq<char>, Seq<char>) -> bool {
    |a: Seq<char>, b: Seq<char>| text_before(a, b)
}

/// The order of pairs as a function value.
pub open spec fn pair_order() -> spec_fn(TextPair, TextPair) -> bool {
    |a: TextPair, b: TextPair| pair_before(a, b)
}

/// Items that stand in a strict total order.
pub trait Ranked: Sized {
    /// What of an item counts for its place.
    type Model;

    spec fn model(&self) -> Self::Model;

    /// The order, as a function value.
    spec fn order() -> spec_fn(Self::Model, Self::Model) -> bool;

    /// The order is strict and total.
    proof fn order_is_total(a: Self::Model, b: Self::Model, c: Self::Model)
        ensures
            !Self::order()(a, a),
            Self::order()(a, b) ==> !Self::order()(b, a),
            Self::order()(a, b) && Self::order()(b, c) ==> Self::order()(a, c),
            a == b || Self::order()(a, b) || Self::order()(b, a),
    ;

    /// Tells whether the item comes strictly before `other`.
    fn precedes(&self, other: &Self) -> (yes: bool)
        ensures
            yes == Self::order()(self.model(), other.model()),
    ;
}

impl Ranked for String {
    type Model = Seq<char>;

    open spec fn model(&self) -> Seq<char> {
        self@
    }

    open spec fn order() -> spec_fn(Seq<char>, Seq<char>) -> bool {
        text_order()
    }

    proof fn order_is_total(a: Seq<char>, b: Seq<char>, c: Seq<char>) {
        text_order_is_total(a, b, c);
    }

    fn precedes(&self, other: &String) -> (yes: bool) {
        is_before(self.as_str(), other.as_str())
    }
}

impl Ranked for (String, String) {
    type Model = TextPair;

    open spec fn model(&self) -> TextPair {
        (self.0@, self.1@)
    }

    open spec fn order() -> spec_fn(TextPair, TextPair) -> bool {
        pair_order()
    }

    proof fn order_is_total(a: TextPair, b: TextPair, c: TextPair) {
        pair_order_is_total(a, b, c);
    }

    fn precedes(&self, other: &(String, String)) -> (yes: bool) {
        is_before(self.0.as_str(), other.0.as_str()) || (same_text(
            self.0.as_str(),
            other.0.as_str(),
        ) && is_before(self.1.as_str(), other.1.as_str()))
    }
}

/// What of each item counts for its place.
pub open spec fn models<T: Ranked>(list: Seq<T>) -> Seq<T::Model> {
    Seq::new(list.len(), |i: int| list[i].model())
}

/// Adds `item` to an ascending list, unless it is there already.
pub fn add_item<T: Ranked>(list: &mut Vec<T>, item: T)
    requires
        ascending(models(old(list)@), T::order()),
    ensures
        ascending(models(final(list)@), T::order()),
        forall|t: T::Model|
            #[trigger] models(final(list)@).contains(t) <==> models(old(list)@).contains(t) || t
                == item.model(),
{
    let ghost before = models(list@);
    let ghost new = item.model();
    let mut at: usize = 0;
    while at < list.len() && list[at].precedes(&item)
        invariant
            at <= list.len(),
            models(list@) == before,
            new == item.model(),
            forall|i: int| 0 <= i < at ==> T::order()(#[trigger] before[i], new),
        decreases list.len() - at,
    {
        at += 1;
    }
    if at < list.len() && !item.precedes(&list[at]) {
        proof {
            T::order_is_total(before[at as int], new, new);
            assert(before[at as int] == new);
        }
        return;
    }
    list.insert(at, item);
    proof {
        let after = models(list@);
        assert(after =~= before.insert(at as int, new));
        assert forall|i: int| at <= i < before.len() implies T::order()(
            new,
            #[trigger] before[i],
        ) by {
            if i > at {
                assert(T::order()(before[at as int], before[i]));
                T::order_is_total(new, before[at as int], before[i]);
            }
        }
        assert forall|i: int, j: int| 0 <= i < j < after.len() implies T::order()(
            #[trigger] after[i],
            #[trigger] after[j],
        ) by {
            if i != at && j != at {
                let p: int = if i < at { i } else { i - 1 };
                let q: int = if j < at { j } else { j - 1 };
                assert(T::order()(before[p], before[q]));
            }
        }
        assert forall|t: T::Model| #[trigger] after.contains(t) <==> before.contains(t) || t
            == new by {
            lemma_insert_members(before, at as int, new, t);
        }
    }
}

/// Adds `item` to an ascending list of texts, unless it is there already.
pub fn add_text(list: &mut Vec<String>, item: String)
    requires
        ascending(texts(old(list)@), text_order()),
    ensures
        ascending(texts(final(list)@), text_order()),
        forall|t: Seq<char>|
            #[trigger] texts(final(list)@).contains(t) <==> texts(old(list)@).contains(t) || t
                == item@,
{
    assert(models(list@) =~= texts(list@));
    add_item(list, item);
    assert(models(list@) =~= texts(list@));
}

/// Adds `item` to an ascending list of pairs, unless it is there already.
pub fn add_pair(list: &mut Vec<(String, String)>, item: (String, String))
    requires
        ascending(text_pairs(old(list)@), pair_order()),
    ensures
        ascending(text_pairs(final(list)@), pair_order()),
        forall|t: TextPair|
            #[trigger] text_pairs(final(list)@).contains(t) <==> text_pairs(old(list)@).contains(t)
                || t == (item.0@, item.1@),
{
    assert(models(list@) =~= text_pairs(list@));
    add_item(list, item);
    assert(models(list@) =~= text_pairs(list@));
}

proof fn lemma_insert_members<T>(list: Seq<T>, at: int, item: T, t: T)
    requires
        0 <= at <= list.len(),
    ensures
        list.insert(at, item).contains(t) <==> list.contains(t) || t == item,
{
    let after = list.insert(at, item);
    assert(after[at] == item);
    if list.contains(t) {
        let k = choose|k: int| 0 <= k < list.len() && list[k] == t;
        assert(after[if k < at { k } else { k + 1 }] == t);
    }
    if after.contains(t) && t != item {
        let k = choose|k: int| 0 <= k < after.len() && after[k] == t;
        assert(list[if k < at { k } else { k - 1 }] == t);
    }
}

/// An ascending list is determined by its members: two ascending lists with
/// the same members are the same list.
pub proof fn ascending_lists_are_unique<T: Ranked>(a: Seq<T::Model>, b: Seq<T::Model>)
    requires
        ascending(a, T::order()),
        ascending(b, T::order()),
        forall|t: T::Model| #[trigger] a.contains(t) <==> b.contains(t),
    ensures
        a == b,
{
    assert forall|x: T::Model, y: T::Model, z: T::Model| #[trigger]
        T::order()(x, y) && #[trigger] T::order()(y, z) implies T::order()(x, z) by {
        T::order_is_total(x, y, z);
    }
    assert forall|x: T::Model| !(#[trigger] T::order()(x, x)) by {
        T::order_is_total(x, x, x);
    }
    lemma_ascending_unique(a, b, T::order());
}

/// Two ascending lists with the same members are equal, for any transitive
/// and irreflexive order.
pub proof fn lemma_ascending_unique<T>(a: Seq<T>, b: Seq<T>, before: spec_fn(T, T) -> bool)
    requires
        forall|x: T, y: T, z: T| #[trigger]
            before(x, y) && #[trigger] before(y, z) ==> before(x, z),
        forall|x: T| !(#[trigger] before(x, x)),
        ascending(a, before),
        ascending(b, before),
        forall|t: T| #[trigger] a.contains(t) <==> b.contains(t),
    ensures
        a == b,
    decreases a.len(),
{
    if a.len() == 0 {
        if b.len() > 0 {
            assert(b.contains(b[0]));
            assert(a.contains(b[0]));
        }
        assert(a =~= b);
    } else {
        assert(a.contains(a.last()));
        assert(b.contains(a.last()));
        assert(b.contains(b.last()));
        assert(a.contains(b.last()));
        let i = choose|i: int| 0 <= i < b.len() && b[i] == a.last();
        let j = choose|j: int| 0 <= j < a.len() && a[j] == b.last();
        if i < b.len() - 1 {
            assert(before(b[i], b[b.len() - 1]));
            if j < a.len() - 1 {
                assert(before(a[j], a[a.len() - 1]));
                assert(before(a.last(), a.last()));
            }
            assert(false);
        }
        let (x, y) = (a.drop_last(), b.drop_last());
        assert forall|t: T| #[trigger] x.contains(t) <==> y.contains(t) by {
            lemma_drop_last_members(a, before, t);
            lemma_drop_last_members(b, before, t);
            assert(a.contains(t) <==> b.contains(t));
        }
        assert(ascending(x, before));
        assert(ascending(y, before));
        lemma_ascending_unique(x, y, before);
        assert(a =~= x.push(a.last()));
        assert(b =~= y.push(b.last()));
    }
}

proof fn lemma_drop_last_members<T>(list: Seq<T>, before: spec_fn(T, T) -> bool, t: T)
    requires
        forall|x: T| !(#[trigger] before(x, x)),
        ascending(list, before),
        list.len() > 0,
    ensures
        list.drop_last().contains(t) <==> list.contains(t) && t != list.last(),
{
    let rest = list.drop_last();
    if rest.contains(t) {
        let k = choose|k: int| 0 <= k < rest.len() && rest[k] == t;
        assert(list[k] == t);
        assert(before(list[k], list[list.len() - 1]));
    }
    if list.contains(t) && t != list.last() {
        let k = choose|k: int| 0 <= k < list.len() && list[k] == t;
        assert(rest[k] == t);
    }
}

} // verus!
