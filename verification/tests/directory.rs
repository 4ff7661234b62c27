use agentio::directory::entry::{millis_of_reading, seed_of_reading};
use agentio::directory::entry::TopicRecordBody;
use agentio::{
    Directory, Error, ExchangeKind, ResolveRequest, ResolveResponse, TopicEntry, TopicRecordSpec,
    TopicWithdrawal,
};
use agentio::directory::{DirectoryOperation, MAX_DIRECTORY_BATCH, unix_time_ms};

// A keyed stand-in for the owner's signature: the public key is the hash of
// the secret, a signature is the hash of the public key and the message.
// It binds every signed byte to the owner, which is what these tests need.
fn public_key(secret: &[u8; 32]) -> [u8; 32] {
    *blake3::hash(secret).as_bytes()
}

fn sign(owner: &[u8; 32], message: &[u8]) -> Vec<u8> {
    let mut input = owner.to_vec();
    input.extend_from_slice(message);
    blake3::hash(&input).as_bytes().to_vec()
}

fn check(owner: &[u8; 32], message: &[u8], signature: &[u8]) -> Result<bool, String> {
    Ok(sign(owner, message) == signature)
}

fn secret(seed: u8) -> [u8; 32] {
    [seed; 32]
}

fn signed(spec: TopicRecordSpec, secret: &[u8; 32]) -> agentio::Result<TopicEntry> {
    let body: TopicRecordBody = TopicEntry::unsigned_body(spec, public_key(secret))?;
    let signature = sign(&public_key(secret), &body.signing_bytes());
    TopicEntry::from_signature(body, Ok(signature))
}

fn signed_withdrawal(entry: &TopicEntry, revision: u64, secret: &[u8; 32]) -> agentio::Result<TopicWithdrawal> {
    let body = TopicWithdrawal::unsigned_body(entry, revision, public_key(secret))?;
    let signature = sign(&public_key(secret), &body.signing_bytes());
    TopicWithdrawal::from_signature(body, Ok(signature))
}

fn entry_check(entry: &TopicEntry) -> Result<bool, String> {
    check(&entry.body.owner, &entry.signing_bytes(), &entry.signature)
}

fn withdrawal_check(w: &TopicWithdrawal) -> Result<bool, String> {
    check(&w.body.owner, &w.signing_bytes(), &w.signature)
}

fn register(directory: &mut Directory, entry: TopicEntry) -> agentio::Result<bool> {
    let c = entry_check(&entry);
    directory.register(entry, c)
}

fn record(secret: &[u8; 32]) -> TopicEntry {
    signed(
        TopicRecordSpec::new("/signed/topic", ExchangeKind::ReqRes, 10, Some(20), 1, Some("owner")),
        secret,
    )
    .unwrap()
}

fn entry(secret: &[u8; 32], revision: u64) -> TopicEntry {
    signed(
        TopicRecordSpec::new("/perception/pose", ExchangeKind::PubSub, 12345, None, revision, Some("head")),
        secret,
    )
    .unwrap()
}

#[test]
fn signed_record_verifies() {
    let r = record(&secret(1));
    let c = entry_check(&r);
    r.verify(unix_time_ms(), c).unwrap();
}

#[test]
fn mutations_invalidate_signature() {
    let mut cases = Vec::new();

    let mut topic = record(&secret(1));
    topic.body.topic.push_str("/changed");
    cases.push(topic);

    let mut owner = record(&secret(2));
    owner.body.owner = public_key(&secret(99));
    cases.push(owner);

    let mut request_hash = record(&secret(3));
    request_hash.body.request_type_hash ^= 1;
    cases.push(request_hash);

    let mut response_hash = record(&secret(4));
    response_hash.body.response_type_hash = Some(21);
    cases.push(response_hash);

    let mut expiry = record(&secret(5));
    expiry.body.lease_expires_at_ms += 1;
    cases.push(expiry);

    let mut signature = record(&secret(6));
    signature.signature[0] ^= 1;
    cases.push(signature);

    for case in cases {
        let c = entry_check(&case);
        assert!(matches!(case.verify(unix_time_ms(), c), Err(Error::InvalidSignature { .. })));
    }
}

#[test]
fn expired_record_is_rejected() {
    let expired = signed(
        TopicRecordSpec::new("/expired", ExchangeKind::PubSub, 10, None, 1, None)
            .lease_expires_at_ms(unix_time_ms().saturating_sub(1)),
        &secret(1),
    )
    .unwrap();
    let c = entry_check(&expired);
    assert!(matches!(expired.verify(unix_time_ms(), c), Err(Error::ExpiredRecord { .. })));
}

#[test]
fn exchange_and_type_mismatches_are_typed() {
    let record = record(&secret(1));
    assert!(matches!(
        record.validate_exchange(ExchangeKind::PubSub, 10, Some(20)),
        Err(Error::ExchangeMismatch { .. })
    ));
    assert!(matches!(
        record.validate_exchange(ExchangeKind::ReqRes, 11, Some(20)),
        Err(Error::TypeMismatch { .. })
    ));
    assert!(matches!(
        record.validate_exchange(ExchangeKind::ReqRes, 10, Some(21)),
        Err(Error::TypeMismatch { .. })
    ));
}

#[test]
fn another_owner_cannot_sign_withdrawal() {
    let record = record(&secret(1));
    let result = signed_withdrawal(&record, 2, &secret(2));
    assert!(matches!(result, Err(Error::OwnershipConflict { .. })));
}

#[test]
fn signed_records_require_normalized_topics() {
    let result = signed(
        TopicRecordSpec::new("relative/topic", ExchangeKind::PubSub, 1, None, 1, None),
        &secret(1),
    );
    assert!(matches!(result, Err(Error::InvalidTopic { .. })));
}

#[test]
fn verification_enforces_topic_and_operation_semantics() {
    let key = secret(1);
    let mut non_normalized = record(&key);
    non_normalized.body.topic = "relative/topic".to_string();
    non_normalized.signature = sign(&public_key(&key), &non_normalized.body.signing_bytes());
    let c = entry_check(&non_normalized);
    assert!(matches!(non_normalized.verify(unix_time_ms(), c), Err(Error::InvalidTopic { .. })));

    let current = record(&key);
    let mut wrong_record_operation = current.clone();
    wrong_record_operation.body.operation = DirectoryOperation::Withdraw;
    wrong_record_operation.signature =
        sign(&public_key(&key), &wrong_record_operation.body.signing_bytes());
    let c = entry_check(&wrong_record_operation);
    assert!(matches!(
        wrong_record_operation.verify(unix_time_ms(), c),
        Err(Error::InvalidDirectoryOperation { .. })
    ));

    let mut withdrawal = signed_withdrawal(&current, 2, &key).unwrap();
    withdrawal.body.operation = DirectoryOperation::Announce;
    withdrawal.signature = sign(&public_key(&key), &withdrawal.body.signing_bytes());
    let c = withdrawal_check(&withdrawal);
    assert!(matches!(withdrawal.verify(c), Err(Error::InvalidDirectoryOperation { .. })));
}

#[test]
fn withdrawal_signature_is_domain_separated() {
    let key = secret(1);
    let record = record(&key);
    let withdrawal = signed_withdrawal(&record, 2, &key).unwrap();
    assert_eq!(record.body.operation, DirectoryOperation::Announce);
    assert_eq!(withdrawal.body.operation, DirectoryOperation::Withdraw);
    assert_ne!(record.body.signing_bytes(), withdrawal.body.signing_bytes());
}

#[test]
fn signing_bytes_are_the_postcard_encoding_of_the_body() {
    let record = record(&secret(1));
    let b = &record.body;
    let expected = postcard::to_allocvec(&(
        b.protocol_version,
        0u32,
        b.topic.as_str(),
        1u32,
        b.request_type_hash,
        b.response_type_hash,
        b.owner,
        b.revision,
        b.lease_expires_at_ms,
        b.machine_name.as_deref(),
    ))
    .unwrap();
    assert_eq!(b.signing_bytes(), expected);
    let withdrawal = signed_withdrawal(&record, 2, &secret(1)).unwrap();
    let w = &withdrawal.body;
    let expected = postcard::to_allocvec(&(
        w.protocol_version,
        1u32,
        w.topic.as_str(),
        1u32,
        w.owner,
        w.revision,
        w.target_revision,
        w.target_signature.as_slice(),
    ))
    .unwrap();
    assert_eq!(w.signing_bytes(), expected);
}

#[test]
fn signature_verifier_failure_is_a_control_plane_error() {
    let r = record(&secret(1));
    match r.verify(unix_time_ms(), Err("verifier unavailable".to_string())) {
        Err(Error::ControlPlane(m)) => assert_eq!(m, "verifier unavailable"),
        other => panic!("unexpected {other:?}"),
    }
}

#[test]
fn directory_accepts_valid_owner_updates_and_withdrawal() {
    let mut directory = Directory::new();
    let key = secret(1);
    let first = entry(&key, 1);
    let second = entry(&key, 2);

    assert!(register(&mut directory, first).unwrap());
    assert!(register(&mut directory, second.clone()).unwrap());
    assert_eq!(directory.lookup("/perception/pose"), Some(second.clone()));

    let withdrawal = signed_withdrawal(&second, 3, &key).unwrap();
    let c = withdrawal_check(&withdrawal);
    assert!(directory.withdraw(&withdrawal, c).unwrap());
    assert_eq!(directory.lookup("/perception/pose"), None);
}

#[test]
fn competing_live_owner_is_rejected() {
    let mut directory = Directory::new();
    register(&mut directory, entry(&secret(1), 1)).unwrap();
    let conflict = register(&mut directory, entry(&secret(2), 1));
    assert!(matches!(conflict, Err(Error::OwnershipConflict { .. })));
}

#[test]
fn tampered_signature_is_rejected() {
    let mut directory = Directory::new();
    let mut record = entry(&secret(1), 1);
    record.signature_mut()[0] ^= 1;
    assert!(matches!(register(&mut directory, record), Err(Error::InvalidSignature { .. })));
}

#[test]
fn older_revision_cannot_replace_newer_state() {
    let mut directory = Directory::new();
    let key = secret(1);
    register(&mut directory, entry(&key, 2)).unwrap();
    assert!(matches!(register(&mut directory, entry(&key, 1)), Err(Error::StaleRevision { .. })));
}

#[test]
fn equal_revision_requires_the_identical_record() {
    let mut directory = Directory::new();
    let key = secret(1);
    let first = entry(&key, 1);
    let changed = signed(
        TopicRecordSpec::new("/perception/pose", ExchangeKind::PubSub, 12345, None, 1, Some("head"))
            .lease_expires_at_ms(first.lease_expires_at_ms().saturating_add(1)),
        &key,
    )
    .unwrap();
    assert!(register(&mut directory, first.clone()).unwrap());
    assert!(!register(&mut directory, first).unwrap());
    assert!(matches!(register(&mut directory, changed), Err(Error::RevisionConflict { .. })));
}

#[test]
fn withdrawal_only_removes_the_exact_signed_record() {
    let mut directory = Directory::new();
    let key = secret(1);
    let old = entry(&key, 1);
    let withdrawal = signed_withdrawal(&old, 2, &key).unwrap();
    register(&mut directory, old).unwrap();
    directory.remove("/perception/pose", ExchangeKind::PubSub);
    let replacement = entry(&key, 3);
    register(&mut directory, replacement.clone()).unwrap();
    let c = withdrawal_check(&withdrawal);
    assert!(matches!(directory.withdraw(&withdrawal, c), Err(Error::StaleRevision { .. })));
    assert_eq!(directory.lookup("/perception/pose"), Some(replacement));
}

#[test]
fn rejected_batch_does_not_partially_mutate() {
    let mut directory = Directory::new();
    let first_owner = secret(1);
    let other_owner = secret(2);
    let current = entry(&first_owner, 1);
    register(&mut directory, current).unwrap();
    let valid = signed(
        TopicRecordSpec::new("/batch/valid", ExchangeKind::PubSub, 1, None, 1, None),
        &first_owner,
    )
    .unwrap();
    let conflict = entry(&other_owner, 2);
    let checks = vec![entry_check(&valid), entry_check(&conflict)];
    assert!(directory.register_many(vec![valid, conflict], checks).is_err());
    assert!(directory.lookup("/batch/valid").is_none());
}

#[test]
fn pagination_detects_generation_changes() {
    let mut directory = Directory::new();
    let key = secret(1);
    for index in 0..3u64 {
        let e = signed(
            TopicRecordSpec::new(&format!("/page/{index}"), ExchangeKind::PubSub, 1, None, index + 1, None),
            &key,
        )
        .unwrap();
        register(&mut directory, e).unwrap();
    }
    let (generation, first, next) = directory.snapshot_page(None, 0, 2).unwrap();
    assert_eq!(first.len(), 2);
    let e = signed(TopicRecordSpec::new("/page/new", ExchangeKind::PubSub, 1, None, 4, None), &key).unwrap();
    register(&mut directory, e).unwrap();
    assert!(matches!(
        directory.snapshot_page(Some(generation), next.unwrap(), 2),
        Err(Error::SnapshotChanged { .. })
    ));
}

#[test]
fn expired_records_are_not_resolved() {
    let mut directory = Directory::new();
    let key = secret(1);
    let deadline = unix_time_ms().saturating_add(100);
    let record = signed(
        TopicRecordSpec::new("/short-lived", ExchangeKind::PubSub, 1, None, 1, None).lease_expires_at_ms(deadline),
        &key,
    )
    .unwrap();
    register(&mut directory, record).unwrap();
    assert_eq!(directory.lookup_exchange_at("/short-lived", ExchangeKind::PubSub, deadline), None);
}

#[test]
fn pages_list_records_in_key_order() {
    let mut directory = Directory::new();
    let key = secret(1);
    for (index, topic) in ["/b", "/a", "/c"].iter().enumerate() {
        let e = signed(TopicRecordSpec::new(topic, ExchangeKind::PubSub, 1, None, index as u64 + 1, None), &key).unwrap();
        register(&mut directory, e).unwrap();
    }
    let all: Vec<String> = directory.all_entries().iter().map(|e| e.topic().to_string()).collect();
    assert_eq!(all, vec!["/a", "/b", "/c"]);
    let (_, page, next) = directory.snapshot_page(None, 2, 5).unwrap();
    assert_eq!(page.len(), 1);
    assert_eq!(next, None);
}

#[test]
fn oversized_batch_is_rejected() {
    let key = secret(1);
    let entries: Vec<TopicEntry> = (0..=MAX_DIRECTORY_BATCH)
        .map(|index| {
            signed(
                TopicRecordSpec::new(&format!("/topic/{index}"), ExchangeKind::PubSub, 7, None, index as u64 + 1, None),
                &key,
            )
            .unwrap()
        })
        .collect();
    let request = ResolveRequest::Announce { entries };
    assert!(matches!(request.validate(), Err(Error::BatchTooLarge { .. })));
}

#[test]
fn oversized_response_batch_is_rejected() {
    let one = signed(TopicRecordSpec::new("/topic", ExchangeKind::PubSub, 7, None, 1, None), &secret(1)).unwrap();
    let response = ResolveResponse::ListResult {
        generation: 1,
        entries: vec![one; MAX_DIRECTORY_BATCH + 1],
        next_offset: None,
    };
    match response.validate() {
        Err(e) => assert_eq!(e.message(), "directory batch contains 257 entries; maximum is 256"),
        Ok(()) => panic!("accepted an oversized page"),
    }
}

#[test]
fn clock_readings_become_unix_milliseconds_and_seeds() {
    assert_eq!(millis_of_reading(None), 0);
    assert_eq!(millis_of_reading(Some(1_700_000_000_123)), 1_700_000_000_123);
    assert_eq!(millis_of_reading(Some(u64::MAX as u128 + 5)), u64::MAX);
    assert_eq!(seed_of_reading(None), 0);
    assert_eq!(seed_of_reading(Some(42)), 42);
    assert_eq!(seed_of_reading(Some(u64::MAX as u128 + 1)), u64::MAX - 1_000_000);
    assert!(unix_time_ms() > 1_600_000_000_000);
}

#[test]
fn record_input_lease_runs_the_default_duration_from_now() {
    let spec = TopicRecordSpec::new_at("/lease", ExchangeKind::PubSub, 1, None, 1, None, 1_000);
    let e = signed(spec, &secret(1)).unwrap();
    assert_eq!(e.lease_expires_at_ms(), 31_000);
    let late = TopicRecordSpec::new_at("/lease", ExchangeKind::PubSub, 1, None, 1, None, u64::MAX - 5);
    assert_eq!(signed(late, &secret(1)).unwrap().lease_expires_at_ms(), u64::MAX);
    let before = unix_time_ms();
    let now = signed(TopicRecordSpec::new("/lease", ExchangeKind::PubSub, 1, None, 1, None), &secret(1)).unwrap();
    assert!(now.lease_expires_at_ms() >= before + 30_000);
    assert!(now.lease_expires_at_ms() <= unix_time_ms() + 30_000);
}

#[test]
fn health_counts_every_call_and_keeps_the_last_settings() {
    let mut h = agentio::directory::health::ControlPlaneHealth::new();
    h.announcement_succeeded();
    h.announcement_succeeded();
    h.announcement_failed();
    h.resolver_error();
    h.reject_record();
    h.reject_record();
    h.reject_record();
    h.conflict();
    h.reconciled(5, 2);
    h.set_stale_seeds(1);
    h.set_pending_announcements(4);
    h.set_pending_announcements(3);
    let s = h.snapshot();
    assert_eq!(s.successful_announcements, 2);
    assert_eq!(s.announcement_failures, 1);
    assert_eq!(s.resolver_errors, 1);
    assert_eq!(s.rejected_records, 3);
    assert_eq!(s.conflicts, 1);
    assert_eq!(s.last_successful_reconciliation_ms, 5);
    assert_eq!(s.stale_seeds, 1);
    assert_eq!(s.pending_announcements, 3);
}
