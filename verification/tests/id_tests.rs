use radix_name_service::ids::hash_name;

#[test]
fn identifier_is_deterministic() {
    assert_eq!(hash_name("alice.xrd"), hash_name("alice.xrd"));
    assert_ne!(hash_name("alice.xrd"), hash_name("bob.xrd"));
}

#[test]
fn identifier_is_case_sensitive() {
    // No normalization is performed: names differing only in case map to
    // different identifiers.
    assert_ne!(hash_name("Alice.xrd"), hash_name("alice.xrd"));
}

#[test]
fn identifier_matches_truncated_digest() {
    // The leftmost 16 bytes of the SHA-256 digest of the UTF-8 name, read as
    // a little-endian unsigned integer.
    assert_eq!(hash_name("alice.xrd"), 268268006767038371854299328945258551115u128);
    assert_eq!(hash_name("bob.xrd"), 160821581722681511257444999261614299813u128);
    assert_eq!(hash_name("test.xrd"), 60801870306390398326289698313616296986u128);
}
