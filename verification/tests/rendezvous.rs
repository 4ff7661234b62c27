use agentio::rendezvous::{bytes_to_hex, hex_to_bytes, record_file_name, sort_by_start};
use agentio::{LocalAgent, find_local, find_local_did};

#[test]
fn hex_round_trips() {
    let bytes = [0u8, 1, 0xab, 0xff];
    assert_eq!(bytes_to_hex(&bytes), "0001abff");
    assert_eq!(hex_to_bytes("0001abff").unwrap(), bytes);
    assert!(hex_to_bytes("abc").is_none());
    assert!(hex_to_bytes("zz").is_none());
}

#[test]
fn hex_accepts_upper_case_and_rejects_signs_in_the_middle() {
    assert_eq!(hex_to_bytes("ABff").unwrap(), vec![0xab, 0xff]);
    assert_eq!(hex_to_bytes("").unwrap(), Vec::<u8>::new());
    assert!(hex_to_bytes("0g").is_none());
}

#[test]
fn hex_pairs_read_like_radix_parsing() {
    assert_eq!(hex_to_bytes("+a").unwrap(), vec![0x0a]);
    assert_eq!(hex_to_bytes("+1").unwrap(), vec![0x01]);
    assert_eq!(hex_to_bytes("+F01").unwrap(), vec![0x0f, 0x01]);
    assert!(hex_to_bytes("a+").is_none());
    assert!(hex_to_bytes("-1").is_none());
    assert!(hex_to_bytes("++").is_none());
}

fn agent(name: Option<&str>, did: &str, started: u64) -> LocalAgent {
    LocalAgent {
        name: name.map(|n| n.to_string()),
        participant: None,
        did: did.to_string(),
        addr: "00".to_string(),
        pid: 1,
        started_unix_ms: started,
    }
}

#[test]
fn find_local_picks_the_first_match() {
    let agents = vec![
        agent(Some("head"), "did:key:z1", 10),
        agent(None, "did:key:z2", 20),
        agent(Some("head"), "did:key:z3", 30),
    ];
    assert_eq!(find_local(&agents, "head").unwrap().did, "did:key:z1");
    assert!(find_local(&agents, "base").is_none());
    assert_eq!(find_local_did(&agents, "did:key:z2").unwrap().started_unix_ms, 20);
    assert!(find_local_did(&agents, "did:key:z9").is_none());
}

#[test]
fn agents_sort_by_start_time() {
    let sorted = sort_by_start(vec![
        agent(None, "c", 30),
        agent(None, "a", 10),
        agent(None, "b", 20),
    ]);
    let order: Vec<u64> = sorted.iter().map(|a| a.started_unix_ms).collect();
    assert_eq!(order, vec![10, 20, 30]);
}

#[test]
fn agents_started_together_keep_their_listing_order() {
    let sorted = sort_by_start(vec![
        agent(None, "late", 20),
        agent(None, "first", 10),
        agent(None, "second", 10),
        agent(None, "third", 10),
    ]);
    let dids: Vec<&str> = sorted.iter().map(|a| a.did.as_str()).collect();
    assert_eq!(dids, vec!["first", "second", "third", "late"]);
}

#[test]
fn record_file_is_named_by_endpoint_hex() {
    let name = record_file_name(&[0xab; 32]);
    assert_eq!(name, format!("{}.json", "ab".repeat(32)));
}
