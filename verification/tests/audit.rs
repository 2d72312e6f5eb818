use memex::audit::{compute_entry_hash, AuditAction, AuditFilter, AuditLog};
use memex::time::Timestamp;
use serde_json::Value;
use sha2::{Digest, Sha256};

fn ts(secs: i64, nanos: u32) -> Timestamp {
    Timestamp { secs, nanos }
}

fn ingest(shard: &str) -> AuditAction {
    AuditAction::Ingest { shard: shard.to_owned(), content_id: "c1".to_owned() }
}

fn expected_hash(prev: [u8; 32], seq: u64, micros: i64, action: &[u8], actor: &str, ns: &str) -> [u8; 32] {
    let mut h = Sha256::new();
    h.update(prev);
    h.update(seq.to_le_bytes());
    h.update(micros.to_le_bytes());
    h.update(action);
    h.update(actor.as_bytes());
    h.update(ns.as_bytes());
    h.finalize().into()
}

fn sample_log() -> AuditLog {
    let mut log = AuditLog::new();
    log.append_at(ingest("a.b.c"), b"{\"a\":1}".to_vec(), "alice", "a", Value::Null, ts(100, 5_000));
    log.append_at(
        AuditAction::ShardCreate { shard: "a.b.d".to_owned() },
        b"{\"b\":2}".to_vec(),
        "system",
        "a",
        Value::Null,
        ts(200, 0),
    );
    log.append_at(
        AuditAction::Retrieve { shards: vec!["x.y.z".to_owned()], query_hash: "h".to_owned(), hit_count: 0 },
        b"{\"c\":3}".to_vec(),
        "bob",
        "x",
        Value::Null,
        ts(300, 0),
    );
    log
}

#[test]
fn first_entry_links_to_zero_hash() {
    let mut log = AuditLog::new();
    let e = log.append_at(ingest("a.b.c"), b"j".to_vec(), "alice", "a", Value::Null, ts(1, 2_000));
    assert_eq!(e.seq, 0);
    assert_eq!(e.prev_hash, [0u8; 32]);
    assert_eq!(e.hash, expected_hash([0u8; 32], 0, 1_000_002, b"j", "alice", "a"));
}

#[test]
fn entries_chain_by_hash_and_sequence() {
    let mut log = AuditLog::new();
    let e0 = log.append_at(ingest("a.b.c"), b"j0".to_vec(), "alice", "a", Value::Null, ts(1, 0));
    let e1 = log.append_at(ingest("a.b.c"), b"j1".to_vec(), "alice", "a", Value::Null, ts(-2, 999_000));
    assert_eq!(e1.seq, 1);
    assert_eq!(e1.prev_hash, e0.hash);
    assert_eq!(e1.hash, expected_hash(e0.hash, 1, -1_999_001, b"j1", "alice", "a"));
    assert!(log.verify_chain(0, 1));
}

#[test]
fn compute_entry_hash_matches_sha256_framing() {
    let prev = [7u8; 32];
    let h = compute_entry_hash(&prev, 9, ts(3, 4_000), b"act", "who", "ns");
    assert_eq!(h, expected_hash(prev, 9, 3_000_004, b"act", "who", "ns"));
}

#[test]
fn appended_log_verifies_over_any_range() {
    let log = sample_log();
    assert!(log.verify_chain(0, 2));
    assert!(log.verify_chain(1, 2));
    assert!(log.verify_chain(2, 2));
    assert!(log.verify_chain(5, 1));
}

#[test]
fn missing_sequence_fails_verification() {
    let log = sample_log();
    assert!(!log.verify_chain(0, 3));
    assert!(!log.verify_chain(7, 7));
}

#[test]
fn tampered_entry_fails_verification() {
    let log = sample_log();
    let entries = log.query(&AuditFilter::default());
    let mut restored = AuditLog::new();
    for (i, e) in entries.into_iter().enumerate() {
        let mut e = e;
        let json = match i {
            0 => b"{\"a\":1}".to_vec(),
            1 => b"{\"b\":2}".to_vec(),
            _ => b"{\"c\":3}".to_vec(),
        };
        if i == 1 {
            e.actor = "mallory".to_owned();
        }
        assert!(restored.restore(e, json));
    }
    assert!(restored.verify_chain(0, 0));
    assert!(!restored.verify_chain(0, 2));
    assert!(!restored.verify_chain(1, 1));
}

#[test]
fn restore_refuses_out_of_order_entries() {
    let log = sample_log();
    let entries = log.query(&AuditFilter::default());
    let mut restored = AuditLog::new();
    let mut it = entries.into_iter();
    let first = it.next().unwrap();
    let second = it.next().unwrap();
    assert!(restored.restore(second, b"{\"b\":2}".to_vec()));
    assert!(!restored.restore(first, b"{\"a\":1}".to_vec()));
    assert_eq!(restored.len(), 1);
}

#[test]
fn query_filters_by_namespace_actor_and_kind() {
    let log = sample_log();
    let mut f = AuditFilter::default();
    f.namespace = Some("a".to_owned());
    assert_eq!(log.query(&f).iter().map(|e| e.seq).collect::<Vec<_>>(), vec![0, 1]);
    f.actor = Some("system".to_owned());
    assert_eq!(log.query(&f).iter().map(|e| e.seq).collect::<Vec<_>>(), vec![1]);
    let mut g = AuditFilter::default();
    g.action_type = Some("Retrieve".to_owned());
    assert_eq!(log.query(&g).iter().map(|e| e.seq).collect::<Vec<_>>(), vec![2]);
}

#[test]
fn query_filters_by_time_inclusively() {
    let log = sample_log();
    let mut f = AuditFilter::default();
    f.from = Some(ts(200, 0));
    assert_eq!(log.query(&f).iter().map(|e| e.seq).collect::<Vec<_>>(), vec![1, 2]);
    f.to = Some(ts(200, 0));
    assert_eq!(log.query(&f).iter().map(|e| e.seq).collect::<Vec<_>>(), vec![1]);
    let mut g = AuditFilter::default();
    g.to = Some(ts(100, 4_999));
    assert!(log.query(&g).is_empty());
}

#[test]
fn query_pages_with_offset_and_limit() {
    let log = sample_log();
    let mut f = AuditFilter::default();
    f.offset = Some(1);
    assert_eq!(log.query(&f).iter().map(|e| e.seq).collect::<Vec<_>>(), vec![1, 2]);
    f.limit = Some(1);
    assert_eq!(log.query(&f).iter().map(|e| e.seq).collect::<Vec<_>>(), vec![1]);
    f.offset = Some(5);
    assert!(log.query(&f).is_empty());
    let mut g = AuditFilter::default();
    g.limit = Some(0);
    assert_eq!(log.query(&g).len(), 1);
}

#[test]
fn default_query_returns_at_most_one_hundred() {
    let mut log = AuditLog::new();
    for i in 0..120u32 {
        log.append_at(ingest("a.b.c"), vec![i as u8], "alice", "a", Value::Null, ts(i as i64, 0));
    }
    let all = log.query(&AuditFilter::default());
    assert_eq!(all.len(), 100);
    assert_eq!(all[99].seq, 99);
    assert!(log.verify_chain(0, 119));
}

#[test]
fn append_with_clock_stamps_entry() {
    let mut log = AuditLog::new();
    let e = log.append(ingest("a.b.c"), b"x".to_vec(), "alice", "a", Value::Null);
    assert_eq!(e.seq, 0);
    assert!(e.timestamp.secs > 1_600_000_000);
    assert!(log.verify_chain(0, 0));
}

#[test]
fn action_kinds() {
    assert_eq!(ingest("s").kind(), "Ingest");
    assert_eq!(AuditAction::ShardEvict { shard: "s".into() }.kind(), "ShardEvict");
    assert_eq!(AuditAction::ConsentGrant { entity: "e".into() }.kind(), "ConsentGrant");
    assert_eq!(AuditAction::ConsentRevoke { entity: "e".into() }.kind(), "ConsentRevoke");
}
