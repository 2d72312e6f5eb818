use memex::api::{
    create_shard, evict_shard, get_shard, list_shards, load_shard, shard_from_key, shards_from_keys, ActorId, ApiError,
    Namespace,
};
use memex::audit::{AuditAction, AuditEncoder, AuditFilter, AuditLog};
use memex::cortex::StubCortexClient;
use memex::manager::ShardManager;
use memex::retrieval::RetrievalPurpose;
use memex::shard::ShardState;
use serde_json::Value;
use memex::consent::ConsentError;
use memex::ingest::IngestError;
use memex::retrieval::RetrievalError;

#[test]
fn ingest_errors_map_to_statuses() {
    let e = ApiError::from_ingest_error(IngestError::ConsentDenied(ConsentError::Expired));
    assert_eq!((e.status(), e.code(), e.message().as_str()), (403, "forbidden", "consent denied: consent token has expired"));
    let e = ApiError::from_ingest_error(IngestError::ShardNotFound("a.b.c".into()));
    assert_eq!((e.status(), e.code(), e.message().as_str()), (404, "not_found", "shard not found: a.b.c"));
    let e = ApiError::from_ingest_error(IngestError::CortexUnavailable);
    assert_eq!((e.status(), e.code(), e.message().as_str()), (502, "bad_gateway", "cortex unavailable"));
    let e = ApiError::from_ingest_error(IngestError::Internal("boom".into()));
    assert_eq!((e.status(), e.code(), e.message().as_str()), (500, "internal", "boom"));
}

#[test]
fn retrieval_errors_map_to_statuses() {
    let e = ApiError::from_retrieval_error(RetrievalError::NamespaceMismatch);
    assert_eq!((e.status(), e.code()), (400, "bad_request"));
    let e = ApiError::from_retrieval_error(RetrievalError::ShardNotFound("x.y.z".into()));
    assert_eq!((e.status(), e.message().as_str()), (404, "shard not found: x.y.z"));
    let e = ApiError::from_retrieval_error(RetrievalError::Internal("boom".into()));
    assert_eq!(e.status(), 500);
}

#[test]
fn header_extraction() {
    assert_eq!(Namespace::from_header(Some("bhs")).unwrap().0, "bhs");
    assert_eq!(Namespace::from_header(None).unwrap_err(), "missing X-Memex-Namespace header");
    assert_eq!(ActorId::from_header(Some("alice")).unwrap().0, "alice");
    assert_eq!(ActorId::from_header(None).unwrap_err(), "missing X-Memex-Actor header");
}

struct Enc;

impl AuditEncoder for Enc {
    fn encode_action(&self, action: &AuditAction) -> Vec<u8> {
        action.kind().as_bytes().to_vec()
    }
    fn empty_detail(&self) -> Value {
        Value::Null
    }
    fn retrieval_detail(&self, _purpose: &RetrievalPurpose, _query_id: &uuid::Uuid, _corpus_tokens: u64) -> Value {
        Value::Null
    }
}

#[test]
fn shard_keys_parse_or_are_refused() {
    let id = shard_from_key("bhs.corpus.all").unwrap();
    assert_eq!((id.namespace.as_str(), id.category.as_str(), id.entity_id.as_str()), ("bhs", "corpus", "all"));
    let e = shard_from_key("bhs").unwrap_err();
    assert_eq!((e.status(), e.message().as_str()), (400, "invalid shard key: bhs"));
    let ids = shards_from_keys(&["a.b.c".to_owned(), "a.d.e".to_owned()]).unwrap();
    assert_eq!(ids.len(), 2);
    assert_eq!(ids[1].category, "d");
    let e = shards_from_keys(&["a.b.c".to_owned(), "nope".to_owned(), "x".to_owned()]).unwrap_err();
    assert_eq!(e.message(), "invalid shard key: nope");
}

#[test]
fn create_shard_checks_namespace_and_audits() {
    let mut shards = ShardManager::new(StubCortexClient);
    let mut audit = AuditLog::new();
    let e = create_shard(&mut shards, &mut audit, &Enc, "bhs.corpus.all", false, "other").unwrap_err();
    assert_eq!((e.status(), e.message().as_str()), (400, "shard namespace does not match X-Memex-Namespace header"));
    assert_eq!(audit.len(), 0);
    let meta = create_shard(&mut shards, &mut audit, &Enc, "bhs.corpus.all", true, "bhs").unwrap();
    assert_eq!(meta.state, ShardState::Cold);
    assert!(meta.pinned);
    assert_eq!(audit.len(), 1);
    let entries = audit.query(&AuditFilter::default());
    assert_eq!((entries[0].actor.as_str(), entries[0].namespace.as_str()), ("system", "bhs"));
    assert!(matches!(&entries[0].action, AuditAction::ShardCreate { shard } if shard == "bhs.corpus.all"));
    let e = create_shard(&mut shards, &mut audit, &Enc, "bhs.corpus.all", true, "bhs").unwrap_err();
    assert_eq!((e.status(), e.message().as_str()), (500, "shard already exists: bhs.corpus.all"));
    assert_eq!(audit.len(), 1);
    let e = create_shard(&mut shards, &mut audit, &Enc, "bad", true, "bhs").unwrap_err();
    assert_eq!(e.status(), 400);
}

#[test]
fn shard_lookup_listing_loading_and_eviction() {
    let mut shards = ShardManager::new(StubCortexClient);
    let mut audit = AuditLog::new();
    create_shard(&mut shards, &mut audit, &Enc, "bhs.corpus.all", false, "bhs").unwrap();
    create_shard(&mut shards, &mut audit, &Enc, "other.x.y", false, "other").unwrap();

    assert_eq!(get_shard(&shards, "bhs.corpus.all").unwrap().state, ShardState::Cold);
    let e = get_shard(&shards, "bhs.corpus.none").unwrap_err();
    assert_eq!((e.status(), e.message().as_str()), (404, "shard not found: bhs.corpus.none"));

    assert_eq!(list_shards(&shards, None, "bhs").len(), 1);
    assert_eq!(list_shards(&shards, Some("other"), "bhs")[0].id.entity_id, "y");

    let loaded = load_shard(&mut shards, "bhs.corpus.all").unwrap();
    assert_eq!(loaded.state, ShardState::Resident);
    let e = load_shard(&mut shards, "bhs.corpus.none").unwrap_err();
    assert_eq!((e.status(), e.message().as_str()), (500, "shard not found: bhs.corpus.none"));

    let evicted = evict_shard(&mut shards, &mut audit, &Enc, "bhs.corpus.all").unwrap();
    assert_eq!(evicted.state, ShardState::Cold);
    assert_eq!(audit.len(), 3);
    let last = audit.query(&AuditFilter::default()).pop().unwrap();
    assert!(matches!(&last.action, AuditAction::ShardEvict { shard } if shard == "bhs.corpus.all"));
    assert_eq!(last.namespace, "bhs");
    let e = evict_shard(&mut shards, &mut audit, &Enc, "bhs.corpus.none").unwrap_err();
    assert_eq!(e.status(), 404);
    assert_eq!(audit.len(), 3);
}

#[test]
fn audit_hash_is_shown_in_hex() {
    let mut audit = AuditLog::new();
    let mut shards = ShardManager::new(StubCortexClient);
    create_shard(&mut shards, &mut audit, &Enc, "a.b.c", false, "a").unwrap();
    let e = &audit.query(&AuditFilter::default())[0];
    let hex = e.hash_hex();
    assert_eq!(hex.len(), 64);
    let expected: String = e.hash.iter().map(|b| format!("{b:02x}")).collect();
    assert_eq!(hex, expected);
}
