use fanbox_archive::utils::cyrb53;

#[test]
fn identity_hash_is_deterministic() {
    let a = cyrb53("hello");
    let b = cyrb53("hello");
    assert_eq!(a, b);
}

#[test]
fn identity_hash_known_values() {
    assert_eq!(cyrb53("hello"), "8031966e45ce3443");
    assert_eq!(cyrb53("world"), "6ab27114ffef1b8e");
    assert_eq!(cyrb53("newpost"), "1c4e0bc26a1532ab");
    assert_eq!(cyrb53(""), "468c7190d7d009e1");
    assert_eq!(cyrb53("a"), "47f70837788f55df");
}

#[test]
fn identity_hash_distinguishes_titles() {
    assert_ne!(cyrb53("hello"), cyrb53("hellp"));
    assert_ne!(cyrb53("ab"), cyrb53("ba"));
}
