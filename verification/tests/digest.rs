use mcpg_plugin_backend_nats::client_registry::{digest_credential_bundle, static_digest};

fn pair(field: &str, value: &str) -> (String, String) {
    (field.to_owned(), value.to_owned())
}

#[test]
fn digest_is_order_independent() {
    let a = digest_credential_bundle(&[
        ("url".into(), "nats://h:4222".into()),
        ("auth_token".into(), "abc".into()),
    ]);
    let b = digest_credential_bundle(&[
        ("auth_token".into(), "abc".into()),
        ("url".into(), "nats://h:4222".into()),
    ]);
    assert_eq!(a, b);
}

#[test]
fn digest_distinguishes_different_inputs() {
    let a = digest_credential_bundle(&[("auth_token".into(), "abc".into())]);
    let b = digest_credential_bundle(&[("auth_token".into(), "xyz".into())]);
    assert_ne!(a, b);
}

#[test]
fn static_digest_is_stable() {
    assert_eq!(static_digest(), static_digest());
}

#[test]
fn static_digest_hashes_its_name() {
    let expected: [u8; 32] = blake3::hash(b"static").into();
    assert_eq!(static_digest(), expected);
}

#[test]
fn bundle_is_hashed_as_sorted_lines() {
    let digest = digest_credential_bundle(&[
        pair("url", "tls://h:4222"),
        pair("credentials_path", "/etc/é.creds"),
        pair("auth_token", "a=b"),
    ]);
    let mut hasher = blake3::Hasher::new();
    hasher.update(b"auth_token");
    hasher.update(b"=");
    hasher.update(b"a=b");
    hasher.update(b"\n");
    hasher.update(b"credentials_path");
    hasher.update(b"=");
    hasher.update("/etc/é.creds".as_bytes());
    hasher.update(b"\n");
    hasher.update(b"url=tls://h:4222\n");
    let expected: [u8; 32] = hasher.finalize().into();
    assert_eq!(digest, expected);
}

#[test]
fn empty_bundle_hashes_nothing() {
    let expected: [u8; 32] = blake3::hash(b"").into();
    assert_eq!(digest_credential_bundle(&[]), expected);
}

#[test]
fn fields_are_ordered_by_their_bytes() {
    // 'B' before 'a', a prefix before what it begins, 'z' before 'é'.
    let digest = digest_credential_bundle(&[
        pair("é", "4"),
        pair("ab", "3"),
        pair("a", "2"),
        pair("B", "1"),
    ]);
    let expected: [u8; 32] = blake3::hash("B=1\na=2\nab=3\né=4\n".as_bytes()).into();
    assert_eq!(digest, expected);
}

#[test]
fn pairs_of_one_field_keep_their_order() {
    let ab = digest_credential_bundle(&[pair("k", "a"), pair("k", "b")]);
    let ba = digest_credential_bundle(&[pair("k", "b"), pair("k", "a")]);
    let expected: [u8; 32] = blake3::hash(b"k=a\nk=b\n").into();
    assert_eq!(ab, expected);
    assert_ne!(ab, ba);
}

#[test]
fn unbroken_bundles_are_hashed_apart() {
    let joined = digest_credential_bundle(&[pair("url", "u"), pair("auth_token", "t")]);
    let other = digest_credential_bundle(&[pair("url", "u"), pair("credentials_path", "t")]);
    let shifted = digest_credential_bundle(&[pair("url", "ut"), pair("auth_token", "")]);
    assert_ne!(joined, other);
    assert_ne!(joined, shifted);
}
