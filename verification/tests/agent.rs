use agentio::agent::broadcast::{Broadcast, BroadcastKind, announcement_batches};
use agentio::agent::hosting::{HostingState, NodeTopic, accept_renewals, apply_own_withdrawal};
use agentio::agent::mode::{remote_targets, resolution_targets};
use agentio::agent::query::{QueryRun, QueryStep, ResolutionPlan, plan_resolution, resolve_topic_at};
use agentio::agent::reconcile::{Reconciliation, page_request};
use agentio::agent::resolver::serve_request_at;
use agentio::agent::timing::{
    CommandKind, MaintenanceSchedule, control_interval_ms, internal_control_timeout_ms,
};
use agentio::directory::health::ControlPlaneHealth;
use agentio::directory::{MAX_DIRECTORY_BATCH, unix_time_ms};
use agentio::naming::table::NameTable;
use agentio::{
    AgentBuilder, AgentOptions, AgentState, Directory, DirectoryMode, Error, ExchangeKind,
    IdentitySource, ResolveRequest, ResolveResponse, TopicEntry, TopicRecordSpec,
    TopicWithdrawal,
};

fn public_key(secret: &[u8; 32]) -> [u8; 32] {
    *blake3::hash(secret).as_bytes()
}

fn sign(owner: &[u8; 32], message: &[u8]) -> Vec<u8> {
    let mut input = owner.to_vec();
    input.extend_from_slice(message);
    blake3::hash(&input).as_bytes().to_vec()
}

fn entry_check(entry: &TopicEntry) -> Result<bool, String> {
    Ok(sign(&entry.body.owner, &entry.signing_bytes()) == entry.signature)
}

fn withdrawal_check(w: &TopicWithdrawal) -> Result<bool, String> {
    Ok(sign(&w.body.owner, &w.signing_bytes()) == w.signature)
}

fn signed(spec: TopicRecordSpec, secret: &[u8; 32]) -> agentio::Result<TopicEntry> {
    let body = TopicEntry::unsigned_body(spec, public_key(secret))?;
    let signature = sign(&public_key(secret), &body.signing_bytes());
    TopicEntry::from_signature(body, Ok(signature))
}

fn record(topic: &str, exchange: ExchangeKind, revision: u64, machine: Option<&str>, secret: &[u8; 32]) -> TopicEntry {
    signed(
        TopicRecordSpec::new(topic, exchange, 7, Some(9), revision, machine)
            .lease_expires_at_ms(unix_time_ms() + 60_000),
        secret,
    )
    .unwrap()
}

fn not_an_endpoint() -> Error {
    Error::DidKey("not-an-endpoint is not a did:key".to_string())
}

#[test]
fn invalid_bootstrap_is_reported() {
    let builder = AgentBuilder::new()
        .identity(IdentitySource::Random)
        .bootstrap(vec![Err(not_an_endpoint())]);
    assert!(matches!(builder.check(), Err(Error::Configuration(_))));
}

#[test]
fn invalid_bootstrap_is_a_configuration_error() {
    let builder = AgentBuilder::new()
        .identity(IdentitySource::Random)
        .bootstrap(vec![Err(not_an_endpoint())]);
    assert!(matches!(builder.check(), Err(Error::Configuration(_))));
}

#[test]
fn invalid_allowlist_entry_is_a_configuration_error() {
    let builder = AgentBuilder::new()
        .identity(IdentitySource::Random)
        .allow_peer(Err(not_an_endpoint()));
    assert!(matches!(builder.check(), Err(Error::Configuration(_))));
}

#[test]
fn bootstrap_and_inbound_allowlist_are_independent() {
    let seed = [1u8; 32];
    let allowed = [2u8; 32];
    let builder = AgentBuilder::new()
        .identity(IdentitySource::Random)
        .bootstrap(vec![Ok(seed)])
        .allow_peer(Ok(allowed));
    assert!(builder.check().is_ok());
    let state = AgentState::new(&builder, [9u8; 32], 1);
    assert_eq!(state.seeds, vec![seed]);
    assert_eq!(state.allowed_peers, vec![allowed]);
    assert!(!state.allow_any_peer);
}

#[test]
fn configuration_problems_are_joined() {
    let builder = AgentBuilder::new()
        .participant(" // ")
        .bootstrap(vec![Ok([1u8; 32]), Ok([1u8; 32]), Err(Error::DidKey("bad".to_string()))]);
    assert_eq!(builder.bootstrap_peers.len(), 1);
    match builder.check() {
        Err(e) => assert_eq!(
            e.message(),
            "configuration error: participant prefix cannot be empty; did:key error: bad"
        ),
        Ok(()) => panic!("accepted"),
    }
}

#[test]
fn naming_an_ephemeral_agent_persists_its_key_by_name() {
    let b = AgentBuilder::new().name("head");
    assert!(matches!(&b.identity_source, IdentitySource::Name(n) if n == "head"));
    let b = AgentBuilder::new().identity(IdentitySource::Random).name("head");
    assert!(matches!(b.identity_source, IdentitySource::Random));
    assert_eq!(b.machine_name(), "head");
    assert_eq!(AgentBuilder::new().machine_name(), "machine");
}

#[test]
fn lease_and_timeout_have_floors() {
    let b = AgentBuilder::new().lease_duration(5).control_timeout(0);
    assert_eq!(b.lease_duration_ms, 30);
    assert_eq!(b.control_timeout_ms, 1);
    let b = AgentBuilder::new().participant(" /lidar/ ");
    assert_eq!(b.participant.as_deref(), Some("lidar"));
}

#[test]
fn inbound_policy_allows_self_unless_any() {
    let me = [5u8; 32];
    let b = AgentBuilder::new().allow_peer(Ok([6u8; 32]));
    let p = b.inbound_policy(&me);
    assert!(!p.any_peer);
    assert_eq!(p.peers, vec![me, [6u8; 32]]);
    let b = AgentBuilder::new().allow_any_peer();
    let p = b.inbound_policy(&me);
    assert!(p.any_peer);
    assert!(p.peers.is_empty());
}

fn options() -> AgentOptions {
    AgentOptions {
        name: None,
        key_file: None,
        secret_key: None,
        random: false,
        participant: None,
        bootstrap: Vec::new(),
        front_door: None,
        allow: Vec::new(),
        allow_any: false,
        no_relay: false,
        skip_shm: false,
        rendezvous: true,
        lease_ms: None,
        control_timeout_ms: None,
    }
}

#[test]
fn binding_options_fill_a_builder() {
    let mut o = options();
    o.name = Some("arm".to_string());
    o.secret_key = Some(vec![3u8; 32]);
    o.front_door = Some(Ok([4u8; 32]));
    o.bootstrap = vec![Ok([4u8; 32]), Ok([8u8; 32])];
    o.lease_ms = Some(10);
    o.rendezvous = false;
    let b = AgentBuilder::from_options(o).unwrap();
    assert_eq!(b.name.as_deref(), Some("arm"));
    assert!(matches!(b.identity_source, IdentitySource::Key(k) if k == [3u8; 32]));
    assert_eq!(b.bootstrap_peers, vec![[4u8; 32], [8u8; 32]]);
    assert!(matches!(b.directory_mode, DirectoryMode::FrontDoor(id) if id == [4u8; 32]));
    assert_eq!(b.lease_duration_ms, 30);
    assert!(!b.rendezvous);
}

#[test]
fn binding_options_report_the_first_problem() {
    let mut o = options();
    o.secret_key = Some(vec![1, 2, 3]);
    o.bootstrap = vec![Err("not a did:key nor an endpoint address: x".to_string())];
    assert_eq!(AgentBuilder::from_options(o).unwrap_err(), "secret_key must be 32 bytes, got 3");
    let mut o = options();
    o.bootstrap = vec![Ok([1u8; 32]), Err("first".to_string()), Err("second".to_string())];
    o.allow = vec![Err("later".to_string())];
    assert_eq!(AgentBuilder::from_options(o).unwrap_err(), "first");
}

#[test]
fn fresh_state_knows_its_own_name() {
    let b = AgentBuilder::new().name("head");
    let state = AgentState::new(&b, [7u8; 32], 41);
    assert_eq!(state.names.resolve_name("head"), Some([7u8; 32]));
    assert_eq!(state.names.get_name(&[7u8; 32]).as_deref(), Some("head"));
    assert_eq!(state.machine_name, "head");
}

#[test]
fn timing_formulas() {
    assert_eq!(internal_control_timeout_ms(6000), 5900);
    assert_eq!(internal_control_timeout_ms(50), 25);
    assert_eq!(internal_control_timeout_ms(1), 1);
    assert_eq!(control_interval_ms(30_000), 5000);
    assert_eq!(control_interval_ms(150), 50);
    assert_eq!(control_interval_ms(20), 10);
    let mut s = MaintenanceSchedule::new(150, 1000);
    assert!(s.is_due(1000));
    assert_eq!(s.wait_ms(990), 10);
    s.maintenance_ran(1000);
    assert_eq!(s.next_ms, 1050);
    assert_eq!(s.wait_ms(1000), 50);
    s.command_ran(CommandKind::Announce, 1020);
    assert_eq!(s.next_ms, 1050);
    s.command_ran(CommandKind::Renew, 1020);
    assert_eq!(s.next_ms, 1070);
}

#[test]
fn targets_follow_the_directory_mode() {
    let me = [1u8; 32];
    let seeds = vec![[2u8; 32], me, [3u8; 32]];
    assert_eq!(resolution_targets(&DirectoryMode::Replicated, &seeds), seeds);
    assert_eq!(remote_targets(&DirectoryMode::Replicated, &seeds, &me), vec![[2u8; 32], [3u8; 32]]);
    assert_eq!(resolution_targets(&DirectoryMode::FrontDoor([9u8; 32]), &seeds), vec![[9u8; 32]]);
    assert!(remote_targets(&DirectoryMode::FrontDoor(me), &seeds, &me).is_empty());
}

#[test]
fn resolver_answers_queries_with_fitting_records_only() {
    let mut directory = Directory::new();
    let mut names = NameTable::new();
    let mut health = ControlPlaneHealth::new();
    let key = [1u8; 32];
    let e = record("/svc", ExchangeKind::ReqRes, 1, Some("head"), &key);
    let now = unix_time_ms();
    let c = entry_check(&e);
    let r = serve_request_at(&mut directory, &mut names, &mut health,
        Ok(ResolveRequest::Announce { entries: vec![e.clone()] }), vec![c], now);
    assert_eq!(r, ResolveResponse::Announced { count: 1 });
    assert_eq!(names.resolve_name("head"), Some(public_key(&key)));
    let q = |rth: u64| ResolveRequest::Query {
        topic: "/svc".to_string(),
        exchange: ExchangeKind::ReqRes,
        request_type_hash: rth,
        response_type_hash: Some(9),
    };
    let r = serve_request_at(&mut directory, &mut names, &mut health, Ok(q(7)), vec![], now);
    assert_eq!(r, ResolveResponse::QueryResult { found: true, entry: Some(e.clone()) });
    let r = serve_request_at(&mut directory, &mut names, &mut health, Ok(q(8)), vec![], now);
    assert_eq!(r, ResolveResponse::QueryResult { found: false, entry: None });
}

#[test]
fn resolver_counts_conflicts_and_refusals() {
    let mut directory = Directory::new();
    let mut names = NameTable::new();
    let mut health = ControlPlaneHealth::new();
    let now = unix_time_ms();
    let a = record("/x", ExchangeKind::PubSub, 1, None, &[1u8; 32]);
    let b = record("/x", ExchangeKind::PubSub, 2, None, &[2u8; 32]);
    let ca = entry_check(&a);
    let cb = entry_check(&b);
    serve_request_at(&mut directory, &mut names, &mut health,
        Ok(ResolveRequest::Announce { entries: vec![a] }), vec![ca], now);
    let r = serve_request_at(&mut directory, &mut names, &mut health,
        Ok(ResolveRequest::Announce { entries: vec![b] }), vec![cb], now);
    assert_eq!(r, ResolveResponse::Rejected { message: "live ownership conflict for topic '/x'".to_string() });
    assert_eq!(health.snapshot().conflicts, 1);
    let r = serve_request_at(&mut directory, &mut names, &mut health,
        Err(Error::Postcard("bad frame".to_string())), vec![], now);
    assert_eq!(r, ResolveResponse::Rejected { message: "postcard serialization error: bad frame".to_string() });
    assert_eq!(health.snapshot().rejected_records, 1);
}

#[test]
fn resolver_pages_and_detects_changed_snapshots() {
    let mut directory = Directory::new();
    let mut names = NameTable::new();
    let mut health = ControlPlaneHealth::new();
    let now = unix_time_ms();
    let key = [1u8; 32];
    let es: Vec<TopicEntry> = (0..3).map(|i| record(&format!("/p/{i}"), ExchangeKind::PubSub, 1, None, &key)).collect();
    let cs = es.iter().map(entry_check).collect();
    serve_request_at(&mut directory, &mut names, &mut health, Ok(ResolveRequest::Announce { entries: es }), cs, now);
    let r = serve_request_at(&mut directory, &mut names, &mut health,
        Ok(ResolveRequest::List { generation: None, offset: 0, limit: 2 }), vec![], now);
    let g = match r {
        ResolveResponse::ListResult { generation, entries, next_offset } => {
            assert_eq!(entries.len(), 2);
            assert_eq!(next_offset, Some(2));
            generation
        }
        other => panic!("unexpected {other:?}"),
    };
    let r = serve_request_at(&mut directory, &mut names, &mut health,
        Ok(ResolveRequest::List { generation: Some(g + 5), offset: 2, limit: 2 }), vec![], now);
    assert_eq!(r, ResolveResponse::Rejected {
        message: format!("directory snapshot changed from generation {} to {}", g + 5, g),
    });
}

#[test]
fn resolver_withdraws_until_the_first_refusal() {
    let mut directory = Directory::new();
    let mut names = NameTable::new();
    let mut health = ControlPlaneHealth::new();
    let now = unix_time_ms();
    let key = [1u8; 32];
    let a = record("/a", ExchangeKind::PubSub, 1, None, &key);
    let b = record("/b", ExchangeKind::PubSub, 1, None, &key);
    let cs = vec![entry_check(&a), entry_check(&b)];
    serve_request_at(&mut directory, &mut names, &mut health,
        Ok(ResolveRequest::Announce { entries: vec![a.clone(), b.clone()] }), cs, now);
    let wa = sign_withdrawal(&a, 2, &key);
    let mut wb = sign_withdrawal(&b, 2, &key);
    wb.signature[0] ^= 1;
    let cs = vec![withdrawal_check(&wa), withdrawal_check(&wb)];
    let r = serve_request_at(&mut directory, &mut names, &mut health,
        Ok(ResolveRequest::Withdraw { entries: vec![wa, wb] }), cs, now);
    assert_eq!(r, ResolveResponse::Rejected { message: "invalid signature for directory record '/b'".to_string() });
    assert_eq!(directory.lookup("/a"), None);
    assert!(directory.lookup("/b").is_some());
}

fn sign_withdrawal(e: &TopicEntry, revision: u64, key: &[u8; 32]) -> TopicWithdrawal {
    let body = TopicWithdrawal::unsigned_body(e, revision, public_key(key)).unwrap();
    let signature = sign(&public_key(key), &body.signing_bytes());
    TopicWithdrawal::from_signature(body, Ok(signature)).unwrap()
}

#[test]
fn reconciliation_pages_through_a_snapshot() {
    let me = [1u8; 32];
    let seed = [2u8; 32];
    let mut health = ControlPlaneHealth::new();
    let mut directory = Directory::new();
    let mut names = NameTable::new();
    let mut run = Reconciliation::begin(&DirectoryMode::Replicated, &vec![seed, me], &me, &mut health);
    assert_eq!(run.attempted, 1);
    assert_eq!(health.snapshot().stale_seeds, 1);
    let key = [3u8; 32];
    let e1 = record("/r/1", ExchangeKind::PubSub, 1, Some("seed"), &key);
    let e2 = record("/r/2", ExchangeKind::PubSub, 1, Some("seed"), &key);
    let now = unix_time_ms();
    let c1 = entry_check(&e1);
    let next = run.on_reply(0,
        Ok(ResolveResponse::ListResult { generation: 4, entries: vec![e1], next_offset: Some(1) }),
        &mut directory, &mut health, vec![c1], now);
    assert_eq!(next, Some(page_request(Some(4), 1)));
    let c2 = entry_check(&e2);
    let next = run.on_reply(0,
        Ok(ResolveResponse::ListResult { generation: 4, entries: vec![e2], next_offset: None }),
        &mut directory, &mut health, vec![c2], now);
    assert_eq!(next, None);
    assert!(!run.awaiting());
    assert_eq!(run.finish(&mut directory, &mut names, &mut health, now, 6000).unwrap(), 2);
    assert_eq!(health.snapshot().stale_seeds, 0);
    assert_eq!(health.snapshot().last_successful_reconciliation_ms, now);
    assert_eq!(names.resolve_name("seed"), Some(public_key(&key)));
}

#[test]
fn reconciliation_retries_refusals_then_fails() {
    let me = [1u8; 32];
    let mut health = ControlPlaneHealth::new();
    let mut directory = Directory::new();
    let mut names = NameTable::new();
    let mut run = Reconciliation::begin(&DirectoryMode::FrontDoor([2u8; 32]), &vec![], &me, &mut health);
    let rejected = || Ok(ResolveResponse::Rejected { message: "changed".to_string() });
    let now = unix_time_ms();
    assert_eq!(run.on_reply(0, rejected(), &mut directory, &mut health, vec![], now), Some(page_request(None, 0)));
    assert_eq!(run.on_reply(0, rejected(), &mut directory, &mut health, vec![], now), Some(page_request(None, 0)));
    assert_eq!(run.on_reply(0, rejected(), &mut directory, &mut health, vec![], now), None);
    match run.finish(&mut directory, &mut names, &mut health, now, 6000) {
        Err(e) => assert_eq!(e.message(), "resolution failed: directory reconciliation failed for every configured seed"),
        Ok(n) => panic!("unexpected {n}"),
    }
    let mut run = Reconciliation::begin(&DirectoryMode::FrontDoor([2u8; 32]), &vec![], &me, &mut health);
    assert!(run.awaiting());
    match run.finish(&mut directory, &mut names, &mut health, now, 6000) {
        Err(e) => assert_eq!(e.message(), "control-plane operation timed out after 6s"),
        Ok(n) => panic!("unexpected {n}"),
    }
    run.unsent(0);
    assert!(!run.awaiting());
}

#[test]
fn a_stale_seed_does_not_block_a_healthy_one() {
    let me = [1u8; 32];
    let stale = [7u8; 32];
    let healthy = [8u8; 32];
    let mut health = ControlPlaneHealth::new();
    let mut directory = Directory::new();
    let mut names = NameTable::new();
    let mut run = Reconciliation::begin(&DirectoryMode::Replicated, &vec![stale, healthy], &me, &mut health);
    assert_eq!(run.attempted, 2);
    let now = unix_time_ms();
    let failed = || Err(Error::ControlPlane("unreachable".to_string()));
    assert_eq!(run.on_reply(0, failed(), &mut directory, &mut health, vec![], now), None);
    let key = [3u8; 32];
    let e = record("/reconcile/healthy", ExchangeKind::PubSub, 1, None, &key);
    let c = entry_check(&e);
    let reply = Ok(ResolveResponse::ListResult { generation: 1, entries: vec![e], next_offset: None });
    assert_eq!(run.on_reply(1, reply, &mut directory, &mut health, vec![c], now), None);
    assert!(!run.awaiting());
    assert_eq!(run.finish(&mut directory, &mut names, &mut health, now, 6000).unwrap(), 1);
    assert!(directory.lookup_exchange_at("/reconcile/healthy", ExchangeKind::PubSub, now).is_some());
    assert_eq!(health.snapshot().stale_seeds, 1);
}

#[test]
fn reconciliation_without_targets_succeeds() {
    let me = [1u8; 32];
    let mut health = ControlPlaneHealth::new();
    let mut directory = Directory::new();
    let mut names = NameTable::new();
    let run = Reconciliation::begin(&DirectoryMode::Replicated, &vec![me], &me, &mut health);
    assert_eq!(run.finish(&mut directory, &mut names, &mut health, 77, 50).unwrap(), 0);
    assert_eq!(health.snapshot().last_successful_reconciliation_ms, 77);
}

#[test]
fn query_continues_past_a_bad_candidate() {
    let mut directory = Directory::new();
    let mut names = NameTable::new();
    let mut health = ControlPlaneHealth::new();
    let request = ResolveRequest::Query {
        topic: "/q".to_string(),
        exchange: ExchangeKind::ReqRes,
        request_type_hash: 7,
        response_type_hash: Some(9),
    };
    let mut run = QueryRun::start(&request).unwrap();
    let now = unix_time_ms();
    let wrong = signed(
        TopicRecordSpec::new("/q", ExchangeKind::ReqRes, 8, Some(9), 1, None).lease_expires_at_ms(now + 60_000),
        &[1u8; 32],
    )
    .unwrap();
    let cw = entry_check(&wrong);
    let step = run.on_reply(Ok(ResolveResponse::QueryResult { found: true, entry: Some(wrong) }),
        &mut directory, &mut names, &mut health, cw, now);
    assert!(matches!(step, QueryStep::Drop));
    let step = run.on_reply(Ok(ResolveResponse::QueryResult { found: false, entry: None }),
        &mut directory, &mut names, &mut health, Ok(true), now);
    assert!(matches!(step, QueryStep::Retry));
    let right = record("/q", ExchangeKind::ReqRes, 1, None, &[2u8; 32]);
    let cr = entry_check(&right);
    let step = run.on_reply(Ok(ResolveResponse::QueryResult { found: true, entry: Some(right.clone()) }),
        &mut directory, &mut names, &mut health, cr, now);
    assert!(matches!(step, QueryStep::Resolved(e) if e == right));
    assert_eq!(directory.lookup("/q"), Some(right));
    assert_eq!(health.snapshot().rejected_records, 1);
}

#[test]
fn query_failure_reports_the_last_refusal_or_nobody() {
    let request = ResolveRequest::Query {
        topic: "/q".to_string(),
        exchange: ExchangeKind::PubSub,
        request_type_hash: 7,
        response_type_hash: None,
    };
    let run = QueryRun::start(&request).unwrap();
    assert_eq!(run.failure().message(),
        "resolution failed: topic '/q' could not be resolved within the agent composition");
    let list = ResolveRequest::List { generation: None, offset: 0, limit: 1 };
    assert_eq!(QueryRun::start(&list).unwrap_err().message(),
        "control-plane error: query command carried a non-query request");
}

#[test]
fn type_mismatch_is_rejected_before_dial() {
    let mut directory = Directory::new();
    let now = unix_time_ms();
    let e = record("/wrong/type", ExchangeKind::PubSub, 1, None, &[1u8; 32]);
    let c = entry_check(&e);
    directory.register(e, c).unwrap();
    let plan = plan_resolution(&mut directory, &DirectoryMode::Replicated, &vec![[2u8; 32]],
        "/wrong/type", ExchangeKind::PubSub, 8, None, now);
    assert!(matches!(plan, Err(Error::TypeMismatch { .. })));
    let plan = plan_resolution(&mut directory, &DirectoryMode::Replicated, &vec![],
        "/missing", ExchangeKind::PubSub, 8, None, now);
    match plan {
        Err(e) => assert_eq!(e.message(), "resolution failed: topic '/missing' has no configured resolution target"),
        Ok(_) => panic!("planned without targets"),
    }
    let plan = plan_resolution(&mut directory, &DirectoryMode::Replicated, &vec![[2u8; 32]],
        "/missing", ExchangeKind::PubSub, 8, None, now).unwrap();
    assert!(matches!(plan, ResolutionPlan::Ask { ref targets, .. } if targets == &vec![[2u8; 32]]));
}

#[test]
fn local_resolution_reports_missing_topics() {
    let mut directory = Directory::new();
    match resolve_topic_at(&mut directory, "pose", unix_time_ms()) {
        Err(e) => assert_eq!(e.message(),
            "resolution failed: topic '/pose' is not present in the local directory; use a typed client for referral resolution"),
        Ok(_) => panic!("resolved"),
    }
}

#[test]
fn broadcast_failures_are_counted() {
    let mut health = ControlPlaneHealth::new();
    let mut b = Broadcast::begin(BroadcastKind::Announce, &mut health, &vec![true, false, true]);
    assert_eq!(health.snapshot().announcement_failures, 1);
    assert_eq!(health.snapshot().pending_announcements, 2);
    b.on_reply(&mut health, &Ok(ResolveResponse::Announced { count: 1 }));
    assert_eq!(health.snapshot().successful_announcements, 1);
    assert_eq!(health.snapshot().pending_announcements, 1);
    b.finish(&mut health);
    assert_eq!(health.snapshot().announcement_failures, 2);
    assert_eq!(health.snapshot().pending_announcements, 0);
    let mut w = Broadcast::begin(BroadcastKind::Withdraw, &mut health, &vec![true]);
    w.on_reply(&mut health, &Ok(ResolveResponse::Announced { count: 1 }));
    assert_eq!(health.snapshot().announcement_failures, 3);
}

#[test]
fn renewals_are_announced_in_bounded_batches() {
    let key = [1u8; 32];
    let es: Vec<TopicEntry> = (0..(MAX_DIRECTORY_BATCH + 3))
        .map(|i| record(&format!("/b/{i}"), ExchangeKind::PubSub, 1, None, &key))
        .collect();
    let batches = announcement_batches(&es);
    assert_eq!(batches.len(), 2);
    assert_eq!(batches[0].len(), MAX_DIRECTORY_BATCH);
    assert_eq!(batches[1].len(), 3);
    assert!(announcement_batches(&vec![]).is_empty());
}

#[test]
fn hosted_record_renewal_advances_revision() {
    let key = [1u8; 32];
    let me = public_key(&key);
    let mut hosting = HostingState::new(100);
    let mut directory = Directory::new();
    let mut names = NameTable::new();
    let mut health = ControlPlaneHealth::new();
    let now = unix_time_ms();
    let spec = hosting.record_spec("/reconcile/renew", ExchangeKind::PubSub, 5, None, "host", 30_000, now);
    assert_eq!(spec.revision, 100);
    let first = signed(spec, &key).unwrap();
    let c = entry_check(&first);
    hosting.host(&mut directory, &mut names, &first, c, now).unwrap();
    let specs = hosting.renewal_specs("host", 30_000, now);
    assert_eq!(specs.len(), 1);
    assert_eq!(specs[0].revision, 101);
    let renewed: Vec<agentio::Result<TopicEntry>> = specs.into_iter().map(|s| signed(s, &key)).collect();
    let checks = renewed.iter().map(|r| entry_check(r.as_ref().unwrap())).collect();
    let out = accept_renewals(&mut directory, &mut names, &mut health, renewed, checks, now);
    assert_eq!(out.len(), 1);
    let live = directory.lookup("/reconcile/renew").unwrap();
    assert!(live.revision() > first.revision());
    assert_eq!(live.endpoint_id(), me);
    assert_eq!(names.resolve_name("host"), Some(me));
}

#[test]
fn withdrawal_targets_the_live_record_and_blocks_adoption() {
    let key = [1u8; 32];
    let me = public_key(&key);
    let mut hosting = HostingState::new(1);
    let mut directory = Directory::new();
    let mut names = NameTable::new();
    let mut health = ControlPlaneHealth::new();
    let now = unix_time_ms();
    let spec = hosting.record_spec("/w", ExchangeKind::PubSub, 5, None, "host", 30_000, now);
    let first = signed(spec, &key).unwrap();
    let c = entry_check(&first);
    hosting.host(&mut directory, &mut names, &first, c, now).unwrap();
    let renewed = signed(hosting.renewal_specs("host", 30_000, now).remove(0), &key).unwrap();
    let c = entry_check(&renewed);
    accept_renewals(&mut directory, &mut names, &mut health, vec![Ok(renewed.clone())], vec![c], now);
    let (current, revision) = hosting.stop_hosting(&mut directory, &first, &me, now);
    assert_eq!(current, renewed);
    assert_eq!(revision, 3);
    let body = TopicWithdrawal::unsigned_body(&current, revision, me).unwrap();
    let sig = sign(&me, &body.signing_bytes());
    let w = TopicWithdrawal::from_signature(body, Ok(sig));
    let wc = withdrawal_check(w.as_ref().unwrap());
    let sent = apply_own_withdrawal(&mut directory, &mut names, &mut health, w, wc, now);
    assert!(sent.is_some());
    assert_eq!(directory.lookup("/w"), None);
    assert_eq!(health.snapshot().announcement_failures, 0);
    let topic = NodeTopic { topic: "/w".to_string(), exchange: ExchangeKind::PubSub, type_hash: 5 };
    assert!(hosting.adoption_spec(&topic, "host", 30_000, now).is_none());
    let other = NodeTopic { topic: "raw//topic".to_string(), exchange: ExchangeKind::PubSub, type_hash: 6 };
    let spec = hosting.adoption_spec(&other, "host", 30_000, now).unwrap();
    assert_eq!(spec.topic, "/raw/topic");
    assert_eq!(spec.response_type_hash, None);
    let resolver = NodeTopic { topic: agentio::RESOLUTION_TOPIC.to_string(), exchange: ExchangeKind::ReqRes, type_hash: 1 };
    assert!(hosting.adoption_spec(&resolver, "host", 30_000, now).is_none());
    let adopted = signed(spec, &key);
    let ac = entry_check(adopted.as_ref().unwrap());
    assert!(hosting.adopt(&mut directory, adopted, ac, now).is_some());
    assert!(hosting.adoption_spec(&other, "host", 30_000, now).is_none());
}
