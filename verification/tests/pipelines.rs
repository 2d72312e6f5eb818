use memex::audit::{AuditAction, AuditEncoder, AuditFilter, AuditLog};
use memex::consent::{ConsentError, ConsentScope, ConsentToken, ConsentVerifier, StubConsentVerifier};
use memex::cortex::{CacheInfo, CortexClient, CortexError, CortexRetrievalResponse, RawHit, StubCortexClient, TokenizeResponse};
use memex::ingest::{ingest_with_consent, IngestError, IngestPipeline, IngestRequest};
use memex::manager::ShardManager;
use memex::retrieval::{
    check_namespaces, complete_retrieval, query_hash, RetrievalError, RetrievalPipeline, RetrievalPurpose, RetrievalRequest,
};
use memex::shard::{ShardId, ShardState};
use memex::sidecar::PositionMap;
use memex::time::Timestamp;
use serde_json::Value;
use sha2::{Digest, Sha256};

struct Enc;

impl AuditEncoder for Enc {
    fn encode_action(&self, action: &AuditAction) -> Vec<u8> {
        action.kind().as_bytes().to_vec()
    }
    fn empty_detail(&self) -> Value {
        Value::Null
    }
    fn retrieval_detail(&self, _purpose: &RetrievalPurpose, _query_id: &uuid::Uuid, corpus_tokens: u64) -> Value {
        Value::from(corpus_tokens)
    }
}

struct Refuse;

impl ConsentVerifier for Refuse {
    fn verify(&self, _token: &ConsentToken) -> Result<(), ConsentError> {
        Err(ConsentError::Revoked)
    }
}

/// A cortex that returns fixed spans and can be told to fail.
struct Fixed {
    fail: bool,
    spans: Vec<RawHit>,
}

impl CortexClient for Fixed {
    fn tokenize(&self, _text: &str, _add_bos: bool) -> Result<TokenizeResponse, CortexError> {
        Ok(TokenizeResponse { tokens: vec![], count: 0 })
    }
    fn load_cache(&self, cache_id: &str, tokens: &[u32]) -> Result<CacheInfo, CortexError> {
        if self.fail {
            return Err(CortexError { message: "load failed".to_owned() });
        }
        Ok(CacheInfo { cache_id: cache_id.to_owned(), seq_len: tokens.len() as u64, max_seq_len: 0 })
    }
    fn append_tokens(&self, cache_id: &str, tokens: &[u32]) -> Result<CacheInfo, CortexError> {
        Ok(CacheInfo { cache_id: cache_id.to_owned(), seq_len: tokens.len() as u64, max_seq_len: 0 })
    }
    fn check_cache(&self, _cache_id: &str) -> Result<Option<CacheInfo>, CortexError> {
        Ok(None)
    }
    fn evict_cache(&self, _cache_id: &str) -> Result<(), CortexError> {
        Ok(())
    }
    fn retrieve(&self, _cache_shards: &[String], _query: &str, _top_k: u32) -> Result<CortexRetrievalResponse, CortexError> {
        Ok(CortexRetrievalResponse { spans: self.spans.clone(), query_tokens: 1, corpus_tokens: 42 })
    }
}

fn sid(key: &str) -> ShardId {
    ShardId::parse(key).unwrap()
}

fn token(entity: &str) -> ConsentToken {
    ConsentToken {
        token_id: uuid::Uuid::nil(),
        source_entity: entity.to_owned(),
        namespace: "bhs".to_owned(),
        scope: ConsentScope::AllContent,
        issued_at: Timestamp { secs: 0, nanos: 0 },
        expires_at: None,
        signature: vec![],
    }
}

fn request(content_id: &str, content: &str, tokens: Vec<u32>, shard: &str) -> IngestRequest {
    IngestRequest {
        content_id: content_id.to_owned(),
        content: content.to_owned(),
        tokens,
        shard: sid(shard),
        consent_token: token("bhs-ingest"),
    }
}

#[test]
fn ingest_appends_records_and_audits() {
    let mut shards = ShardManager::new(StubCortexClient);
    let mut positions = PositionMap::new();
    let mut audit = AuditLog::new();
    shards.create(sid("bhs.corpus.all"), false).unwrap();
    let p = IngestPipeline::new(StubConsentVerifier);
    let r = p.ingest(&mut shards, &mut positions, &mut audit, &Enc, request("doc1", "text", vec![1, 2, 3], "bhs.corpus.all")).unwrap();
    assert_eq!((r.content_id.as_str(), r.shard.as_str(), r.token_count, r.offset), ("doc1", "bhs.corpus.all", 3, 0));
    let r2 = p.ingest(&mut shards, &mut positions, &mut audit, &Enc, request("doc2", "more", vec![4, 5], "bhs.corpus.all")).unwrap();
    assert_eq!((r2.token_count, r2.offset), (2, 3));
    assert_eq!(shards.load_token_history(&sid("bhs.corpus.all")), vec![1, 2, 3, 4, 5]);
    let meta = shards.get_meta(&sid("bhs.corpus.all")).unwrap();
    assert_eq!(meta.state, ShardState::Resident);
    assert_eq!(meta.token_count, 5);
    assert_eq!(positions.resolve(&sid("bhs.corpus.all"), 4).unwrap().content_id, "doc2");
    assert_eq!(positions.resolve(&sid("bhs.corpus.all"), 1).unwrap().content_id, "doc1");
    let entries = audit.query(&AuditFilter::default());
    assert_eq!(entries.len(), 2);
    assert_eq!(entries[0].actor, "bhs-ingest");
    assert_eq!(entries[0].namespace, "bhs");
    match &entries[1].action {
        AuditAction::Ingest { shard, content_id } => {
            assert_eq!(shard, "bhs.corpus.all");
            assert_eq!(content_id, "doc2");
        }
        other => panic!("unexpected action {other:?}"),
    }
    assert!(audit.verify_chain(0, 1));
}

#[test]
fn ingest_without_tokens_approximates_count() {
    let mut shards = ShardManager::new(StubCortexClient);
    let mut positions = PositionMap::new();
    let mut audit = AuditLog::new();
    shards.create(sid("a.b.c"), false).unwrap();
    let p = IngestPipeline::new(StubConsentVerifier);
    let r = p.ingest(&mut shards, &mut positions, &mut audit, &Enc, request("d", "héllo wörld!", vec![], "a.b.c")).unwrap();
    // 14 bytes of UTF-8 count for 3 tokens.
    assert_eq!(r.token_count, 3);
    assert_eq!(r.offset, 0);
    assert_eq!(positions.resolve(&sid("a.b.c"), 2).unwrap().content_id, "d");
}

#[test]
fn ingest_into_missing_shard_fails() {
    let mut shards = ShardManager::new(StubCortexClient);
    let mut positions = PositionMap::new();
    let mut audit = AuditLog::new();
    let p = IngestPipeline::new(StubConsentVerifier);
    match p.ingest(&mut shards, &mut positions, &mut audit, &Enc, request("d", "x", vec![1], "a.b.c")) {
        Err(e @ IngestError::ShardNotFound(_)) => assert_eq!(e.message(), "shard not found: a.b.c"),
        other => panic!("expected ShardNotFound, got {other:?}"),
    }
    assert_eq!(audit.len(), 0);
}

#[test]
fn ingest_without_consent_changes_nothing() {
    let mut shards = ShardManager::new(StubCortexClient);
    let mut positions = PositionMap::new();
    let mut audit = AuditLog::new();
    shards.create(sid("a.b.c"), false).unwrap();
    let p = IngestPipeline::new(Refuse);
    match p.ingest(&mut shards, &mut positions, &mut audit, &Enc, request("d", "x", vec![1], "a.b.c")) {
        Err(e @ IngestError::ConsentDenied(ConsentError::Revoked)) => {
            assert_eq!(e.message(), "consent denied: consent has been revoked")
        }
        other => panic!("expected ConsentDenied, got {other:?}"),
    }
    assert!(shards.load_token_history(&sid("a.b.c")).is_empty());
    assert_eq!(audit.len(), 0);
}

#[test]
fn ingest_with_failing_cortex_is_internal() {
    let mut shards = ShardManager::new(Fixed { fail: true, spans: vec![] });
    let mut positions = PositionMap::new();
    let mut audit = AuditLog::new();
    shards.create(sid("a.b.c"), false).unwrap();
    let p = IngestPipeline::new(StubConsentVerifier);
    match p.ingest(&mut shards, &mut positions, &mut audit, &Enc, request("d", "x", vec![1], "a.b.c")) {
        Err(IngestError::Internal(m)) => assert_eq!(m, "load failed"),
        other => panic!("expected Internal, got {other:?}"),
    }
    assert!(positions.resolve(&sid("a.b.c"), 0).is_none());
}

fn retrieval(shards: &[&str], query: &str) -> RetrievalRequest {
    RetrievalRequest {
        query: query.to_owned(),
        shards: shards.iter().map(|s| sid(s)).collect(),
        top_k: 10,
        purpose: RetrievalPurpose::General,
        actor: "alice".to_owned(),
    }
}

#[test]
fn retrieval_resolves_hits_and_audits() {
    let spans = vec![
        RawHit { shard: "bhs.corpus.all".to_owned(), offset: 1, score_bits: 0.9f32.to_bits(), token_text: String::new() },
        RawHit { shard: "bhs.corpus.all".to_owned(), offset: 50, score_bits: 0.4f32.to_bits(), token_text: String::new() },
        RawHit { shard: "garbage".to_owned(), offset: 1, score_bits: 0.1f32.to_bits(), token_text: String::new() },
    ];
    let mut shards = ShardManager::new(Fixed { fail: false, spans });
    let mut positions = PositionMap::new();
    let mut audit = AuditLog::new();
    shards.create(sid("bhs.corpus.all"), true).unwrap();
    positions.record(&sid("bhs.corpus.all"), 0, 10, "history/cash.md");
    let resp = RetrievalPipeline::new()
        .retrieve(&mut shards, &positions, &mut audit, &Enc, retrieval(&["bhs.corpus.all"], "Who founded it?"))
        .unwrap();
    assert_eq!(resp.shard_count, 1);
    assert_eq!(resp.hits.len(), 3);
    assert_eq!(resp.hits[0].source_id.as_deref(), Some("history/cash.md"));
    assert_eq!(resp.hits[0].length, 0);
    assert_eq!(f32::from_bits(resp.hits[0].score_bits), 0.9);
    assert!(resp.hits[1].source_id.is_none());
    assert!(resp.hits[2].source_id.is_none());
    assert_eq!(shards.get_meta(&sid("bhs.corpus.all")).unwrap().state, ShardState::Pinned);
    let entries = audit.query(&AuditFilter::default());
    assert_eq!(entries.len(), 1);
    assert_eq!(entries[0].actor, "alice");
    assert_eq!(entries[0].namespace, "bhs");
    assert_eq!(entries[0].detail, Value::from(42u64));
    match &entries[0].action {
        AuditAction::Retrieve { shards, query_hash: h, hit_count } => {
            assert_eq!(shards, &vec!["bhs.corpus.all".to_owned()]);
            assert_eq!(*hit_count, 3);
            assert_eq!(h, &hex::encode(Sha256::digest(b"Who founded it?")));
        }
        other => panic!("unexpected action {other:?}"),
    }
}

#[test]
fn retrieval_across_namespaces_is_refused() {
    let mut shards = ShardManager::new(StubCortexClient);
    let positions = PositionMap::new();
    let mut audit = AuditLog::new();
    shards.create(sid("a.b.c"), false).unwrap();
    shards.create(sid("x.b.c"), false).unwrap();
    match RetrievalPipeline::new().retrieve(&mut shards, &positions, &mut audit, &Enc, retrieval(&["a.b.c", "x.b.c"], "q")) {
        Err(e @ RetrievalError::NamespaceMismatch) => {
            assert_eq!(e.message(), "shards span multiple namespaces — namespace isolation violated")
        }
        other => panic!("expected NamespaceMismatch, got {other:?}"),
    }
    assert_eq!(shards.get_meta(&sid("a.b.c")).unwrap().state, ShardState::Cold);
    assert_eq!(audit.len(), 0);
}

#[test]
fn retrieval_of_missing_shard_names_it() {
    let mut shards = ShardManager::new(StubCortexClient);
    let positions = PositionMap::new();
    let mut audit = AuditLog::new();
    shards.create(sid("a.b.c"), false).unwrap();
    match RetrievalPipeline::new().retrieve(&mut shards, &positions, &mut audit, &Enc, retrieval(&["a.b.c", "a.b.zz"], "q")) {
        Err(RetrievalError::ShardNotFound(s)) => assert_eq!(s, "a.b.zz"),
        other => panic!("expected ShardNotFound, got {other:?}"),
    }
    assert_eq!(audit.len(), 0);
}

#[test]
fn retrieval_with_failing_cortex_is_internal() {
    let mut shards = ShardManager::new(Fixed { fail: true, spans: vec![] });
    let positions = PositionMap::new();
    let mut audit = AuditLog::new();
    shards.create(sid("a.b.c"), false).unwrap();
    let r = RetrievalPipeline::new().retrieve(&mut shards, &positions, &mut audit, &Enc, retrieval(&["a.b.c"], "q"));
    assert!(matches!(r, Err(RetrievalError::Internal(m)) if m == "load failed"));
}

#[test]
fn retrieval_over_no_shards_audits_empty_namespace() {
    let mut shards = ShardManager::new(StubCortexClient);
    let positions = PositionMap::new();
    let mut audit = AuditLog::new();
    let resp = RetrievalPipeline::new().retrieve(&mut shards, &positions, &mut audit, &Enc, retrieval(&[], "q")).unwrap();
    assert_eq!(resp.shard_count, 0);
    assert!(resp.hits.is_empty());
    assert_eq!(audit.query(&AuditFilter::default())[0].namespace, "");
}

#[test]
fn namespace_check_and_query_hash() {
    assert!(check_namespaces(&[]));
    assert!(check_namespaces(&[sid("a.b.c"), sid("a.x.y")]));
    assert!(!check_namespaces(&[sid("a.b.c"), sid("b.x.y")]));
    assert_eq!(query_hash(""), "e3b0c44298fc1c149afbf4c8996fb92427ae41e4649b934ca495991b7852b855");
}

#[test]
fn all_content_tokens_are_fresh_and_unsigned() {
    let a = ConsentToken::all_content("bhs-ingest", "bhs");
    let b = ConsentToken::all_content("bhs-ingest", "bhs");
    assert_eq!((a.source_entity.as_str(), a.namespace.as_str()), ("bhs-ingest", "bhs"));
    assert!(matches!(a.scope, ConsentScope::AllContent));
    assert!(a.expires_at.is_none());
    assert!(a.signature.is_empty());
    assert_ne!(a.token_id, b.token_id);
    assert!(a.issued_at.secs > 1_600_000_000);
}

#[test]
fn refused_consent_is_answered_with_the_refusal() {
    let mut shards = ShardManager::new(StubCortexClient);
    let mut positions = PositionMap::new();
    let mut audit = AuditLog::new();
    shards.create(sid("bhs.corpus.all"), false).unwrap();
    let r = ingest_with_consent(
        &mut shards,
        &mut positions,
        &mut audit,
        &Enc,
        request("doc", "text", vec![1, 2], "bhs.corpus.all"),
        Err(ConsentError::ScopeMismatch),
    );
    assert!(matches!(r, Err(IngestError::ConsentDenied(ConsentError::ScopeMismatch))));
    assert!(shards.load_token_history(&sid("bhs.corpus.all")).is_empty());
    assert_eq!(audit.len(), 0);
    let ok = ingest_with_consent(&mut shards, &mut positions, &mut audit, &Enc, request("doc", "text", vec![1, 2], "bhs.corpus.all"), Ok(()))
        .unwrap();
    assert_eq!((ok.offset, ok.token_count), (0, 2));
    assert_eq!(audit.len(), 1);
}

#[test]
fn completing_a_retrieval_keeps_every_span_in_order() {
    let mut positions = PositionMap::new();
    positions.record(&sid("bhs.corpus.all"), 0, 4, "a.md");
    positions.record(&sid("bhs.corpus.all"), 4, 4, "b.md");
    let mut audit = AuditLog::new();
    let found = CortexRetrievalResponse {
        spans: vec![
            RawHit { shard: "bhs.corpus.all".to_owned(), offset: 5, score_bits: 1, token_text: String::new() },
            RawHit { shard: "bhs.corpus.all".to_owned(), offset: 2, score_bits: 2, token_text: String::new() },
        ],
        query_tokens: 3,
        corpus_tokens: 8,
    };
    let id = uuid::Uuid::from_u128(7);
    let resp = complete_retrieval(&positions, &mut audit, &Enc, &retrieval(&["bhs.corpus.all"], "q"), &found, id);
    assert_eq!(resp.query_id, id);
    assert_eq!(resp.hits.len(), 2);
    assert_eq!(resp.hits[0].source_id.as_deref(), Some("b.md"));
    assert_eq!(resp.hits[1].source_id.as_deref(), Some("a.md"));
    assert_eq!((resp.hits[0].offset, resp.hits[1].score_bits), (5, 2));
    assert_eq!(audit.len(), 1);
}

#[test]
fn first_missing_shard_is_not_found() {
    let mut shards = ShardManager::new(StubCortexClient);
    let positions = PositionMap::new();
    let mut audit = AuditLog::new();
    shards.create(sid("bhs.corpus.a"), false).unwrap();
    let r = RetrievalPipeline::new().retrieve(
        &mut shards,
        &positions,
        &mut audit,
        &Enc,
        retrieval(&["bhs.corpus.a", "bhs.corpus.missing", "bhs.corpus.other"], "q"),
    );
    match r {
        Err(RetrievalError::ShardNotFound(s)) => assert_eq!(s, "bhs.corpus.missing"),
        other => panic!("expected ShardNotFound, got {other:?}"),
    }
    assert_eq!(audit.len(), 0);
}
