use agentio::agent::query::own_topic;
use agentio::naming::table::NameTable;
use agentio::{Error, normalize_topic, qualify_participant_topic};

fn endpoint(seed: u8) -> [u8; 32] {
    [seed; 32]
}

#[test]
fn test_topic_normalization() {
    assert_eq!(normalize_topic("pose").unwrap(), "/pose");
    assert_eq!(normalize_topic("/perception/pose").unwrap(), "/perception/pose");
    assert_eq!(normalize_topic("//perception///pose/").unwrap(), "/perception/pose");
    assert!(normalize_topic("  ").is_err());
}

#[test]
fn test_qualify_participant_topic() {
    assert_eq!(qualify_participant_topic("lidar", "scan").unwrap(), "/lidar/scan");
    assert_eq!(qualify_participant_topic("lidar", "/clock").unwrap(), "/clock");
}

#[test]
fn normalization_trims_whitespace_and_is_idempotent() {
    assert_eq!(normalize_topic("  a//b/ ").unwrap(), "/a/b");
    assert_eq!(normalize_topic("/").unwrap(), "/");
    let once = normalize_topic(" x///y//").unwrap();
    assert_eq!(normalize_topic(&once).unwrap(), once);
}

#[test]
fn empty_topic_reports_its_reason() {
    match normalize_topic("\t\n") {
        Err(Error::InvalidTopic { topic, reason }) => {
            assert_eq!(topic, "\t\n");
            assert_eq!(reason, "topic path cannot be empty");
        }
        other => panic!("unexpected {other:?}"),
    }
}

#[test]
fn qualification_trims_participant_slashes() {
    assert_eq!(qualify_participant_topic(" /lidar/ ", " scan ").unwrap(), "/lidar/scan");
    assert_eq!(qualify_participant_topic("//", "scan").unwrap(), "/scan");
}

#[test]
fn own_topic_needs_a_participant_for_relative_topics() {
    assert_eq!(own_topic(Some("lidar"), "scan").unwrap(), "/lidar/scan");
    assert_eq!(own_topic(None, "  /clock").unwrap(), "/clock");
    match own_topic(None, "scan") {
        Err(e) => assert_eq!(
            e.message(),
            "configuration error: relative topic 'scan' needs a participant prefix; set AgentBuilder::participant"
        ),
        Ok(t) => panic!("unexpected {t}"),
    }
}

#[test]
fn same_mapping_is_idempotent() {
    let mut table = NameTable::new();
    let endpoint = endpoint(7);
    table.register("head", endpoint);
    table.register("head", endpoint);
    assert_eq!(table.all_mappings().len(), 1);
    assert_eq!(table.resolve_name("head"), Some(endpoint));
    assert_eq!(table.get_name(&endpoint).as_deref(), Some("head"));
}

#[test]
fn reassigning_name_removes_old_reverse_mapping() {
    let mut table = NameTable::new();
    let old = endpoint(1);
    let new = endpoint(2);
    table.register("head", old);
    table.register("head", new);
    assert_eq!(table.resolve_name("head"), Some(new));
    assert_eq!(table.get_name(&old), None);
}

#[test]
fn reassigning_endpoint_removes_old_forward_mapping() {
    let mut table = NameTable::new();
    let endpoint = endpoint(3);
    table.register("old", endpoint);
    table.register("new", endpoint);
    assert_eq!(table.resolve_name("old"), None);
    assert_eq!(table.resolve_name("new"), Some(endpoint));
    assert_eq!(table.get_name(&endpoint).as_deref(), Some("new"));
}

#[test]
fn table_stays_one_to_one_across_registrations() {
    let mut table = NameTable::new();
    table.register("a", endpoint(1));
    table.register("b", endpoint(2));
    table.register("c", endpoint(1));
    table.register("b", endpoint(3));
    let all = table.all_mappings();
    let mut ids: Vec<[u8; 32]> = all.iter().map(|p| p.1).collect();
    ids.sort();
    ids.dedup();
    assert_eq!(ids.len(), all.len());
    assert_eq!(table.resolve_name("a"), None);
    assert_eq!(table.resolve_name("c"), Some(endpoint(1)));
    assert_eq!(table.resolve_name("b"), Some(endpoint(3)));
    assert_eq!(table.get_name(&endpoint(2)), None);
}
