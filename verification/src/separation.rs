//! Different credentials are hashed as different bytes.
//!
//! A client is shared by the callers whose credential bundles have one digest.
//! What is hashed tells different bundles apart, as long as no line of one can
//! be read as something else: no line feed in a field or a value, and no
//! equals sign in a field.

use vstd::prelude::*;
use vstd::utf8::*;

use crate::credentials::connection_pairs;
use crate::digest::{
    bundle_lines, by_field, lemma_by_field_members, pair_line, EQUALS_SIGN, LINE_FEED,
};
use crate::order::TextPair;

verus! {

/// Whether the line of a pair can be read in one way only.
pub open spec fn separable(pair: TextPair) -> bool {
    &&& !pair.0.contains('=')
    &&& !pair.0.contains('\n')
    &&& !pair.1.contains('\n')
}

/// Whether every pair's line can be read in one way only.
pub open spec fn all_separable(pairs: Seq<TextPair>) -> bool {
    forall|i: int| 0 <= i < pairs.len() ==> separable(#[trigger] pairs[i])
}

proof fn lemma_scalar_bytes(scalar: u32, i: int)
    requires
        is_scalar(scalar),
        0 <= i < encode_scalar(scalar).len(),
        encode_scalar(scalar)[i] < 0x80,
    ensures
        encode_scalar(scalar)[i] == scalar,
{
    if has_width_1_encoding(scalar) {
        assert(scalar <= 0x7f ==> (scalar & 0x7f) as u8 == scalar) by (bit_vector);
    } else {
        assert((0xC0 | ((scalar >> 6) & 0x1F) as u8) >= 0x80) by (bit_vector);
        assert((0xE0 | ((scalar >> 12) & 0x0F) as u8) >= 0x80) by (bit_vector);
        assert((0xF0 | ((scalar >> 18) & 0x7) as u8) >= 0x80) by (bit_vector);
        assert((0x80 | (scalar & 0x3F) as u8) >= 0x80) by (bit_vector);
        assert((0x80 | ((scalar >> 6) & 0x3F) as u8) >= 0x80) by (bit_vector);
        assert((0x80 | ((scalar >> 12) & 0x3F) as u8) >= 0x80) by (bit_vector);
    }
}

/// An ASCII byte in the encoding of a text is a character of the text.
proof fn lemma_ascii_byte(text: Seq<char>, c: char)
    requires
        (c as u32) < 0x80,
        encode_utf8(text).contains(c as u8),
    ensures
        text.contains(c),
    decreases text.len(),
{
    let bytes = encode_utf8(text);
    let i = choose|i: int| 0 <= i < bytes.len() && bytes[i] == c as u8;
    if text.len() > 0 {
        let first = encode_scalar(text[0] as u32);
        char_is_scalar(text[0]);
        if i < first.len() {
            assert(first[i] == bytes[i]);
            lemma_scalar_bytes(text[0] as u32, i);
            assert(text[0] as u32 == c as u32);
            char_u32_cast(text[0], c as u32);
            char_u32_cast(c, c as u32);
            assert(text[0] == c);
        } else {
            let rest = text.drop_first();
            assert(encode_utf8(rest)[i - first.len()] == c as u8);
            lemma_ascii_byte(rest, c);
            let k = choose|k: int| 0 <= k < rest.len() && rest[k] == c;
            assert(text[k + 1] == c);
        }
    }
}

/// A mark that stands in neither head cuts two equal sequences alike.
proof fn lemma_cut(a: Seq<u8>, x: Seq<u8>, b: Seq<u8>, y: Seq<u8>, mark: u8)
    requires
        !a.contains(mark),
        !b.contains(mark),
        a + seq![mark] + x == b + seq![mark] + y,
    ensures
        a == b,
        x == y,
{
    let (l, r) = (a + seq![mark] + x, b + seq![mark] + y);
    assert(l[a.len() as int] == mark);
    assert(r[b.len() as int] == mark);
    if a.len() < b.len() {
        assert(r[a.len() as int] == b[a.len() as int]);
    } else if b.len() < a.len() {
        assert(l[b.len() as int] == a[b.len() as int]);
    }
    assert forall|i: int| 0 <= i < a.len() implies a[i] == b[i] by {
        assert(l[i] == a[i] && r[i] == b[i]);
    }
    assert(a =~= b);
    assert(l.len() == a.len() + 1 + x.len() && r.len() == b.len() + 1 + y.len());
    assert forall|i: int| 0 <= i < x.len() implies x[i] == y[i] by {
        assert(l[a.len() + 1 + i] == x[i] && r[b.len() + 1 + i] == y[i]);
    }
    assert(x =~= y);
}

proof fn lemma_first_line(pairs: Seq<TextPair>)
    requires
        pairs.len() > 0,
    ensures
        bundle_lines(pairs) == pair_line(pairs[0]) + bundle_lines(pairs.drop_first()),
    decreases pairs.len(),
{
    if pairs.len() == 1 {
        assert(bundle_lines(pairs.drop_last()) =~= Seq::empty());
        assert(bundle_lines(pairs) =~= pair_line(pairs[0]) + bundle_lines(pairs.drop_first()));
    } else {
        let rest = pairs.drop_last();
        lemma_first_line(rest);
        assert(rest.drop_first() =~= pairs.drop_first().drop_last());
        assert(bundle_lines(pairs) =~= pair_line(pairs[0]) + bundle_lines(pairs.drop_first()));
    }
}

spec fn line_head(pair: TextPair) -> Seq<u8> {
    encode_utf8(pair.0) + seq![EQUALS_SIGN] + encode_utf8(pair.1)
}

proof fn lemma_line_head(pair: TextPair)
    requires
        separable(pair),
    ensures
        !line_head(pair).contains(LINE_FEED),
        !encode_utf8(pair.0).contains(EQUALS_SIGN),
{
    let head = line_head(pair);
    let (field, value) = (encode_utf8(pair.0), encode_utf8(pair.1));
    if head.contains(LINE_FEED) {
        let i = choose|i: int| 0 <= i < head.len() && head[i] == LINE_FEED;
        if i < field.len() {
            assert(field[i] == LINE_FEED);
            lemma_ascii_byte(pair.0, '\n');
        } else {
            assert(i > field.len());
            assert(value[i - field.len() - 1] == LINE_FEED);
            lemma_ascii_byte(pair.1, '\n');
        }
    }
    if field.contains(EQUALS_SIGN) {
        lemma_ascii_byte(pair.0, '=');
    }
}

/// The lines of pairs that can be read in one way only are those of no other
/// such pairs.
pub proof fn lines_tell_pairs_apart(a: Seq<TextPair>, b: Seq<TextPair>)
    requires
        all_separable(a),
        all_separable(b),
        bundle_lines(a) == bundle_lines(b),
    ensures
        a == b,
    decreases a.len(),
{
    if a.len() > 0 {
        lemma_first_line(a);
    }
    if b.len() > 0 {
        lemma_first_line(b);
    }
    if a.len() > 0 && b.len() > 0 {
        let (p, q) = (a[0], b[0]);
        let (more_a, more_b) = (a.drop_first(), b.drop_first());
        lemma_line_head(p);
        lemma_line_head(q);
        let (x, y) = (bundle_lines(more_a), bundle_lines(more_b));
        assert(bundle_lines(a) =~= line_head(p) + seq![LINE_FEED] + x);
        assert(bundle_lines(b) =~= line_head(q) + seq![LINE_FEED] + y);
        lemma_cut(line_head(p), x, line_head(q), y, LINE_FEED);
        lemma_cut(
            encode_utf8(p.0),
            encode_utf8(p.1),
            encode_utf8(q.0),
            encode_utf8(q.1),
            EQUALS_SIGN,
        );
        encode_utf8_decode_utf8(p.0);
        encode_utf8_decode_utf8(p.1);
        encode_utf8_decode_utf8(q.0);
        encode_utf8_decode_utf8(q.1);
        assert(p == q);
        assert forall|i: int| 0 <= i < more_a.len() implies separable(#[trigger] more_a[i]) by {
            assert(separable(a[i + 1]));
        }
        assert forall|i: int| 0 <= i < more_b.len() implies separable(#[trigger] more_b[i]) by {
            assert(separable(b[i + 1]));
        }
        lines_tell_pairs_apart(more_a, more_b);
        assert(a =~= seq![p] + more_a);
        assert(b =~= seq![q] + more_b);
    } else {
        assert(a =~= b);
    }
}

/// Bundles that hash the same bytes have the same pairs.
pub proof fn bundles_are_hashed_apart(a: Seq<TextPair>, b: Seq<TextPair>)
    requires
        all_separable(a),
        all_separable(b),
        bundle_lines(by_field(a)) == bundle_lines(by_field(b)),
    ensures
        by_field(a) == by_field(b),
        forall|t: TextPair| #[trigger] a.contains(t) <==> b.contains(t),
{
    lemma_by_field_members(a);
    lemma_by_field_members(b);
    let (sorted_a, sorted_b) = (by_field(a), by_field(b));
    assert forall|i: int| 0 <= i < sorted_a.len() implies separable(#[trigger] sorted_a[i]) by {
        assert(sorted_a.contains(sorted_a[i]));
        assert(a.contains(sorted_a[i]));
    }
    assert forall|i: int| 0 <= i < sorted_b.len() implies separable(#[trigger] sorted_b[i]) by {
        assert(sorted_b.contains(sorted_b[i]));
        assert(b.contains(sorted_b[i]));
    }
    lines_tell_pairs_apart(sorted_a, sorted_b);
    assert forall|t: TextPair| #[trigger] a.contains(t) <==> b.contains(t) by {
        assert(sorted_a.contains(t) <==> a.contains(t));
        assert(sorted_b.contains(t) <==> b.contains(t));
    }
}

/// A resolved connection.
pub struct Connection {
    pub url: Seq<char>,
    pub credentials_path: Option<Seq<char>>,
    pub auth_token: Option<Seq<char>>,
}

/// Whether no part of a connection breaks a line.
pub open spec fn unbroken(connection: Connection) -> bool {
    &&& !connection.url.contains('\n')
    &&& connection.credentials_path matches Some(path) ==> !path.contains('\n')
    &&& connection.auth_token matches Some(token) ==> !token.contains('\n')
}

spec fn pairs_of(c: Connection) -> Seq<TextPair> {
    connection_pairs(c.url, c.credentials_path, c.auth_token)
}

proof fn lemma_connection_pairs(c: Connection)
    ensures
        unbroken(c) ==> all_separable(pairs_of(c)),
        forall|value: Seq<char>| #[trigger] pairs_of(c).contains(("url"@, value)) <==> value
            == c.url,
        forall|value: Seq<char>| #[trigger]
            pairs_of(c).contains(("credentials_path"@, value)) <==> c.credentials_path == Some(
                value,
            ),
        forall|value: Seq<char>| #[trigger]
            pairs_of(c).contains(("auth_token"@, value)) <==> c.auth_token == Some(value),
{
    reveal_strlit("url");
    reveal_strlit("credentials_path");
    reveal_strlit("auth_token");
    assert("url"@.len() == 3 && "credentials_path"@.len() == 16 && "auth_token"@.len() == 10);
    let pairs = pairs_of(c);
    assert(pairs[0] == ("url"@, c.url));
    if let Some(path) = c.credentials_path {
        assert(pairs[1] == ("credentials_path"@, path));
        if let Some(token) = c.auth_token {
            assert(pairs[2] == ("auth_token"@, token));
        }
    } else if let Some(token) = c.auth_token {
        assert(pairs[1] == ("auth_token"@, token));
    }
}

/// Different connections are hashed as different bytes, so that a client is
/// never shared between callers whose resolved credentials differ, as far as
/// the hash tells different bytes apart. No part may break a line.
pub proof fn connections_are_hashed_apart(a: Connection, b: Connection)
    requires
        unbroken(a),
        unbroken(b),
        bundle_lines(by_field(connection_pairs(a.url, a.credentials_path, a.auth_token)))
            == bundle_lines(by_field(connection_pairs(b.url, b.credentials_path, b.auth_token))),
    ensures
        a == b,
{
    lemma_connection_pairs(a);
    lemma_connection_pairs(b);
    bundles_are_hashed_apart(pairs_of(a), pairs_of(b));
    let (m, n) = (pairs_of(a), pairs_of(b));
    assert(m.contains(("url"@, a.url)));
    assert(n.contains(("url"@, a.url)));
    if let Some(path) = a.credentials_path {
        assert(m.contains(("credentials_path"@, path)));
        assert(n.contains(("credentials_path"@, path)));
    }
    if let Some(path) = b.credentials_path {
        assert(n.contains(("credentials_path"@, path)));
        assert(m.contains(("credentials_path"@, path)));
    }
    if let Some(token) = a.auth_token {
        assert(m.contains(("auth_token"@, token)));
        assert(n.contains(("auth_token"@, token)));
    }
    if let Some(token) = b.auth_token {
        assert(n.contains(("auth_token"@, token)));
        assert(m.contains(("auth_token"@, token)));
    }
}

} // verus!
