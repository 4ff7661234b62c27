use agentio::identity::{check_key_file, check_stored_did, did_key_file, missing_did_key, name_key_file};

#[test]
fn key_files_are_named_safely() {
    assert_eq!(name_key_file("team/arm"), "team_arm.key");
    assert_eq!(did_key_file("did:key:z6Mk"), "did_key_z6Mk.key");
}

#[test]
fn stored_did_must_match_the_request() {
    assert!(check_stored_did("/k", "did:key:a", "did:key:a").is_ok());
    assert_eq!(
        check_stored_did("/k", "did:key:a", "did:key:b").unwrap_err().message(),
        "identity error: key at /k does not match requested DID 'did:key:a' (got 'did:key:b')"
    );
    assert_eq!(
        missing_did_key("did:key:a", "/k").message(),
        "identity error: no secret key found for DID 'did:key:a' at /k"
    );
}

#[test]
fn malformed_or_shared_key_files_are_refused() {
    assert!(check_key_file("/k", 32, Some(0o600)).is_ok());
    assert!(check_key_file("/k", 32, None).is_ok());
    assert_eq!(
        check_key_file("/k", 31, Some(0o600)).unwrap_err().message(),
        "identity error: key file /k must hold exactly 32 bytes, found 31"
    );
    assert_eq!(
        check_key_file("/k", 32, Some(0o644)).unwrap_err().message(),
        "identity error: key file /k is accessible to other users; restrict it to its owner (0600)"
    );
}
