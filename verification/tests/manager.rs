use std::cell::RefCell;

use memex::cortex::{CacheInfo, CortexClient, CortexError, CortexRetrievalResponse, RawHit, StubCortexClient, TokenizeResponse};
use memex::manager::{cache_keys, ShardError, ShardManager};
use memex::shard::{ShardId, ShardState};

/// Records every call; fails when told to.
struct Recorder {
    fail: bool,
    calls: RefCell<Vec<String>>,
}

impl Recorder {
    fn new(fail: bool) -> Self {
        Recorder { fail, calls: RefCell::new(vec![]) }
    }
    fn outcome<T>(&self, call: String, ok: T) -> Result<T, CortexError> {
        self.calls.borrow_mut().push(call);
        if self.fail {
            Err(CortexError { message: "cortex down".to_owned() })
        } else {
            Ok(ok)
        }
    }
}

impl CortexClient for Recorder {
    fn tokenize(&self, text: &str, _add_bos: bool) -> Result<TokenizeResponse, CortexError> {
        self.outcome(format!("tokenize {text}"), TokenizeResponse { tokens: vec![], count: 0 })
    }
    fn load_cache(&self, cache_id: &str, tokens: &[u32]) -> Result<CacheInfo, CortexError> {
        let info = CacheInfo { cache_id: cache_id.to_owned(), seq_len: tokens.len() as u64, max_seq_len: 0 };
        self.outcome(format!("load {cache_id} {tokens:?}"), info)
    }
    fn append_tokens(&self, cache_id: &str, tokens: &[u32]) -> Result<CacheInfo, CortexError> {
        let info = CacheInfo { cache_id: cache_id.to_owned(), seq_len: tokens.len() as u64, max_seq_len: 0 };
        self.outcome(format!("append {cache_id} {tokens:?}"), info)
    }
    fn check_cache(&self, cache_id: &str) -> Result<Option<CacheInfo>, CortexError> {
        self.outcome(format!("check {cache_id}"), None)
    }
    fn evict_cache(&self, cache_id: &str) -> Result<(), CortexError> {
        self.outcome(format!("evict {cache_id}"), ())
    }
    fn retrieve(&self, cache_shards: &[String], query: &str, top_k: u32) -> Result<CortexRetrievalResponse, CortexError> {
        let resp = CortexRetrievalResponse {
            spans: vec![RawHit { shard: cache_shards[0].clone(), offset: 1, score_bits: 0.5f32.to_bits(), token_text: String::new() }],
            query_tokens: 1,
            corpus_tokens: 2,
        };
        self.outcome(format!("retrieve {cache_shards:?} {query} {top_k}"), resp)
    }
}

fn sid(key: &str) -> ShardId {
    ShardId::parse(key).unwrap()
}

#[test]
fn create_then_get_meta() {
    let mut m = ShardManager::new(StubCortexClient);
    let meta = m.create(sid("bhs.corpus.all"), true).unwrap();
    assert_eq!(meta.state, ShardState::Cold);
    assert!(meta.pinned);
    assert_eq!(meta.token_count, 0);
    assert_eq!(meta.byte_size, 0);
    let got = m.get_meta(&sid("bhs.corpus.all")).unwrap();
    assert_eq!(got.id, sid("bhs.corpus.all"));
    assert_eq!(got.created_at, meta.created_at);
    assert!(m.get_meta(&sid("bhs.corpus.none")).is_none());
    assert!(m.load_token_history(&sid("bhs.corpus.all")).is_empty());
}

#[test]
fn create_twice_fails() {
    let mut m = ShardManager::new(StubCortexClient);
    m.create(sid("a.b.c"), false).unwrap();
    match m.create(sid("a.b.c"), true) {
        Err(e @ ShardError::AlreadyExists(_)) => assert_eq!(e.message(), "shard already exists: a.b.c"),
        other => panic!("expected AlreadyExists, got {other:?}"),
    }
    assert!(!m.get_meta(&sid("a.b.c")).unwrap().pinned);
}

#[test]
fn list_is_by_namespace_in_key_order() {
    let mut m = ShardManager::new(StubCortexClient);
    for k in ["b.x.2", "a.z.1", "b.a.9", "bb.a.1", "b.x.10"] {
        m.create(sid(k), false).unwrap();
    }
    let keys: Vec<String> = m.list("b").iter().map(|meta| meta.id.to_key()).collect();
    assert_eq!(keys, vec!["b.a.9", "b.x.10", "b.x.2"]);
    assert!(m.list("c").is_empty());
    assert_eq!(m.list("bb").len(), 1);
}

#[test]
fn append_tokens_counts_and_keeps_history() {
    let mut m = ShardManager::new(Recorder::new(false));
    m.create(sid("a.b.c"), false).unwrap();
    assert_eq!(m.append_tokens(&sid("a.b.c"), &[1, 2, 3]).unwrap(), 3);
    assert_eq!(m.append_tokens(&sid("a.b.c"), &[4]).unwrap(), 4);
    assert_eq!(m.load_token_history(&sid("a.b.c")), vec![1, 2, 3, 4]);
    assert_eq!(m.get_meta(&sid("a.b.c")).unwrap().token_count, 4);
}

#[test]
fn append_to_missing_shard_fails() {
    let mut m = ShardManager::new(StubCortexClient);
    match m.append_tokens(&sid("a.b.c"), &[1]) {
        Err(e @ ShardError::NotFound(_)) => assert_eq!(e.message(), "shard not found: a.b.c"),
        other => panic!("expected NotFound, got {other:?}"),
    }
}

#[test]
fn ensure_resident_replays_history_once() {
    let rec = Recorder::new(false);
    let mut m = ShardManager::new(rec);
    m.create(sid("a.b.c"), true).unwrap();
    m.append_tokens(&sid("a.b.c"), &[7, 8]).unwrap();
    m.ensure_resident(&sid("a.b.c")).unwrap();
    assert_eq!(m.get_meta(&sid("a.b.c")).unwrap().state, ShardState::Pinned);
    m.ensure_resident(&sid("a.b.c")).unwrap();
    // Appends to a resident shard go to cortex too.
    m.append_tokens(&sid("a.b.c"), &[9]).unwrap();
    m.evict(&sid("a.b.c")).unwrap();
    assert_eq!(m.get_meta(&sid("a.b.c")).unwrap().state, ShardState::Cold);
    assert_eq!(m.load_token_history(&sid("a.b.c")), vec![7, 8, 9]);
}

#[test]
fn unpinned_shard_becomes_resident() {
    let mut m = ShardManager::new(StubCortexClient);
    m.create(sid("a.b.c"), false).unwrap();
    m.ensure_resident(&sid("a.b.c")).unwrap();
    assert_eq!(m.get_meta(&sid("a.b.c")).unwrap().state, ShardState::Resident);
}

#[test]
fn ensure_resident_on_missing_shard_fails() {
    let mut m = ShardManager::new(StubCortexClient);
    assert!(matches!(m.ensure_resident(&sid("a.b.c")), Err(ShardError::NotFound(k)) if k == "a.b.c"));
}

#[test]
fn cortex_failure_leaves_shard_cold() {
    let mut m = ShardManager::new(Recorder::new(true));
    m.create(sid("a.b.c"), false).unwrap();
    match m.ensure_resident(&sid("a.b.c")) {
        Err(e @ ShardError::Cortex(_)) => assert_eq!(e.message(), "cortex down"),
        other => panic!("expected Cortex error, got {other:?}"),
    }
    assert_eq!(m.get_meta(&sid("a.b.c")).unwrap().state, ShardState::Cold);
    assert!(matches!(m.evict(&sid("a.b.c")), Err(ShardError::Cortex(_))));
    // Cold shards do not talk to cortex when appending.
    assert_eq!(m.append_tokens(&sid("a.b.c"), &[1]).unwrap(), 1);
}

#[test]
fn evict_of_missing_shard_is_ok() {
    let mut m = ShardManager::new(StubCortexClient);
    assert!(m.evict(&sid("a.b.c")).is_ok());
    assert!(m.get_meta(&sid("a.b.c")).is_none());
}

#[test]
fn retrieve_passes_keys_to_cortex() {
    let m = ShardManager::new(StubCortexClient);
    let resp = m.retrieve(&[sid("a.b.c")], "q", 3).unwrap();
    assert!(resp.spans.is_empty());
    assert_eq!(cache_keys(&[sid("a.b.c"), sid("a.b.d")]), vec!["a.b.c".to_owned(), "a.b.d".to_owned()]);
}

#[test]
fn restore_refuses_duplicates() {
    let mut m = ShardManager::new(StubCortexClient);
    let meta = m.create(sid("a.b.c"), false).unwrap();
    assert!(!m.restore(meta.clone(), vec![1]));
    let mut other = ShardManager::new(StubCortexClient);
    assert!(other.restore(meta, vec![5, 6]));
    assert_eq!(other.load_token_history(&sid("a.b.c")), vec![5, 6]);
}

#[test]
fn stub_cortex_behaviour() {
    let t = StubCortexClient.tokenize("abcdefghi", true).unwrap();
    assert_eq!(t.count, 2);
    assert_eq!(t.tokens, vec![0, 0]);
    assert_eq!(StubCortexClient.tokenize("", false).unwrap().count, 1);
    let info = StubCortexClient.load_cache("k", &[1, 2, 3]).unwrap();
    assert_eq!((info.cache_id.as_str(), info.seq_len, info.max_seq_len), ("k", 3, 4096));
    assert!(StubCortexClient.check_cache("k").unwrap().is_none());
}
