use policy_engine::hash::{
    compute_body_hash, compute_cid, compute_head_hash, sha256_hex, sha256_str, verify_chain_link,
    GENESIS_HASH,
};

#[test]
fn test_sha256() {
    let hash = sha256_str("hello");
    assert_eq!(hash.len(), 64);
}

#[test]
fn test_cid() {
    let cid = compute_cid("test");
    assert!(cid.starts_with("c:"));
}

#[test]
fn test_head_hash() {
    let head = compute_head_hash(GENESIS_HASH, "c:test");
    assert!(head.starts_with("h:"));
}

#[test]
fn test_verify_chain() {
    let cid = compute_cid("test");
    let head = compute_head_hash(GENESIS_HASH, &cid);
    assert!(verify_chain_link(GENESIS_HASH, &cid, &head));
}

#[test]
fn sha256_of_known_inputs() {
    assert_eq!(
        sha256_str("hello"),
        "2cf24dba5fb0a30e26e83b2ac5b9e29e1b161e5c1fa7425e73043362938b9824"
    );
    assert_eq!(
        sha256_hex(b""),
        "e3b0c44298fc1c149afbf4c8996fb92427ae41e4649b934ca495991b7852b855"
    );
}

#[test]
fn cid_is_prefixed_digest() {
    assert_eq!(compute_cid("hello"), format!("c:{}", sha256_str("hello")));
    assert_eq!(compute_body_hash("hello"), format!("b:{}", sha256_str("hello")));
    assert!(compute_body_hash("body").starts_with("b:"));
}

#[test]
fn head_hash_covers_previous_and_cid() {
    let head = compute_head_hash("h:genesis", "c:abc");
    assert_eq!(head, format!("h:{}", sha256_str("h:genesis:c:abc")));
}

#[test]
fn chain_link_is_deterministic_and_verifies() {
    let cid = compute_cid("test");
    let first = compute_head_hash("h:genesis", &cid);
    let second = compute_head_hash("h:genesis", &cid);
    assert_eq!(first, second);
    assert!(verify_chain_link("h:genesis", &cid, &first));
}

#[test]
fn chain_link_rejects_wrong_hash() {
    let cid = compute_cid("test");
    let head = compute_head_hash(GENESIS_HASH, &cid);
    assert!(!verify_chain_link(GENESIS_HASH, &cid, "h:0000"));
    assert!(!verify_chain_link("h:other", &cid, &head));
}
