use vstd::prelude::*;


verus! {

/// Info about a cache slot returned by cortex.
#[derive(Debug, Clone)]
pub struct CacheInfo {
    pub cache_id: String,
    pub seq_len: u64,
    pub max_seq_len: u64,
}

/// A single retrieval span returned by cortex. The attention score is held
/// as the bit pattern of the `f32` cortex sent (`f32::to_bits`).
#[derive(Debug, Clone)]
pub struct RawHit {
    pub shard: String,
    pub offset: u64,
    pub score_bits: u32,
    pub token_text: String,
}

/// Full retrieval response from cortex.
#[derive(Debug, Clone)]
pub struct CortexRetrievalResponse {
    pub spans: Vec<RawHit>,
    pub query_tokens: u64,
    pub corpus_tokens: u64,
}

/// Response from cortex's tokenize endpoint.
#[derive(Debug, Clone)]
pub struct TokenizeResponse {
    pub tokens: Vec<u32>,
    pub count: usize,
}

/// A failed call to cortex, with its message.
#[derive(Debug, Clone)]
pub struct CortexError {
    pub message: String,
}

/// Abstraction over cortex's cache and retrieval endpoints:
///   tokenize, load a cache slot (replaying tokens into it), append tokens
///   to a slot, check whether a slot is resident, evict a slot, and run
///   retrieval over composed slots.
///
/// Each endpoint the shard manager calls comes with a relation between its
/// arguments and its answers, which a client may define: a networked client
/// may answer one request in several ways, and the relation says which
/// answers it may give. A client that defines none claims nothing (every
/// answer is allowed).
pub trait CortexClient {
    /// Whether `r` is an answer this client may give to loading `tokens`
    /// into the slot `cache_id`.
    open spec fn load_answer(&self, cache_id: Seq<char>, tokens: Seq<u32>, r: Result<CacheInfo, CortexError>) -> bool {
        true
    }

    /// Whether `r` is an answer this client may give to appending `tokens`
    /// to the slot `cache_id`.
    open spec fn append_answer(&self, cache_id: Seq<char>, tokens: Seq<u32>, r: Result<CacheInfo, CortexError>) -> bool {
        true
    }

    /// Whether `r` is an answer this client may give to evicting the slot
    /// `cache_id`.
    open spec fn evict_answer(&self, cache_id: Seq<char>, r: Result<(), CortexError>) -> bool {
        true
    }

    /// Whether `r` is an answer this client may give to a retrieval of
    /// `query`, at most `top_k` spans, over the slots `cache_shards` in that
    /// order.
    open spec fn retrieval_answer(
        &self,
        cache_shards: Seq<Seq<char>>,
        query: Seq<char>,
        top_k: u32,
        r: Result<CortexRetrievalResponse, CortexError>,
    ) -> bool {
        true
    }

    /// Tokenize text using cortex's model tokenizer.
    fn tokenize(&self, text: &str, add_bos: bool) -> Result<TokenizeResponse, CortexError>;

    /// Create a cache slot and replay tokens into it.
    fn load_cache(&self, cache_id: &str, tokens: &[u32]) -> (r: Result<CacheInfo, CortexError>)
        ensures
            self.load_answer(cache_id@, tokens@, r),
    ;

    /// Append tokens to an existing cache slot.
    fn append_tokens(&self, cache_id: &str, tokens: &[u32]) -> (r: Result<CacheInfo, CortexError>)
        ensures
            self.append_answer(cache_id@, tokens@, r),
    ;

    /// Check whether a cache slot is resident; `None` when it is not found.
    fn check_cache(&self, cache_id: &str) -> Result<Option<CacheInfo>, CortexError>;

    /// Evict a cache slot from GPU memory.
    fn evict_cache(&self, cache_id: &str) -> (r: Result<(), CortexError>)
        ensures
            self.evict_answer(cache_id@, r),
    ;

    /// Run retrieval over composed cache shards; `query` is natural language.
    fn retrieve(&self, cache_shards: &[String], query: &str, top_k: u32) -> (r: Result<
        CortexRetrievalResponse,
        CortexError,
    >)
        ensures
            self.retrieval_answer(cache_shards@.map_values(|c: String| c@), query@, top_k, r),
    ;
}

/// Stub client for development: no GPU, empty retrievals.
pub struct StubCortexClient;

impl CortexClient for StubCortexClient {
    /// Loading always succeeds, reporting the tokens replayed.
    open spec fn load_answer(&self, cache_id: Seq<char>, tokens: Seq<u32>, r: Result<CacheInfo, CortexError>) -> bool {
        r matches Ok(info) && info.cache_id@ == cache_id && info.seq_len == tokens.len() && info.max_seq_len == 4096
    }

    /// Appending always succeeds, reporting the tokens appended.
    open spec fn append_answer(&self, cache_id: Seq<char>, tokens: Seq<u32>, r: Result<CacheInfo, CortexError>) -> bool {
        r matches Ok(info) && info.cache_id@ == cache_id && info.seq_len == tokens.len() && info.max_seq_len == 4096
    }

    /// Evicting always succeeds.
    open spec fn evict_answer(&self, cache_id: Seq<char>, r: Result<(), CortexError>) -> bool {
        r is Ok
    }

    /// Retrieval always succeeds and finds nothing.
    open spec fn retrieval_answer(
        &self,
        cache_shards: Seq<Seq<char>>,
        query: Seq<char>,
        top_k: u32,
        r: Result<CortexRetrievalResponse, CortexError>,
    ) -> bool {
        r matches Ok(resp) && resp.spans@.len() == 0 && resp.query_tokens == 0 && resp.corpus_tokens == 0
    }

    /// Approximates one token per four bytes of text, at least one.
    fn tokenize(&self, text: &str, add_bos: bool) -> (r: Result<TokenizeResponse, CortexError>)
        ensures
            r matches Ok(t) && t.count == (if text.len() / 4 == 0 { 1 } else { text.len() / 4 })
                && t.tokens@ == Seq::new(t.count as nat, |i: int| 0u32),
    {
        let n = text.len() / 4;
        let count = if n == 0 { 1 } else { n };
        let tokens = vec![0u32; count];
        assert(tokens@ =~= Seq::new(count as nat, |i: int| 0u32));
        Ok(TokenizeResponse { tokens, count })
    }

    fn load_cache(&self, cache_id: &str, tokens: &[u32]) -> (r: Result<CacheInfo, CortexError>) {
        Ok(CacheInfo { cache_id: cache_id.to_owned(), seq_len: tokens.len() as u64, max_seq_len: 4096 })
    }

    fn append_tokens(&self, cache_id: &str, tokens: &[u32]) -> (r: Result<CacheInfo, CortexError>) {
        Ok(CacheInfo { cache_id: cache_id.to_owned(), seq_len: tokens.len() as u64, max_seq_len: 4096 })
    }

    fn check_cache(&self, cache_id: &str) -> (r: Result<Option<CacheInfo>, CortexError>)
        ensures
            r matches Ok(None),
    {
        Ok(None)
    }

    fn evict_cache(&self, cache_id: &str) -> (r: Result<(), CortexError>) {
        Ok(())
    }

    fn retrieve(&self, cache_shards: &[String], query: &str, top_k: u32) -> (r: Result<
        CortexRetrievalResponse,
        CortexError,
    >) {
        Ok(CortexRetrievalResponse { spans: Vec::new(), query_tokens: 0, corpus_tokens: 0 })
    }
}

} // verus!
