use vstd::prelude::*;

use crate::audit::{ActionView, AuditAction, AuditEncoder, AuditLog, strings_view};
use crate::consent::new_uuid;
use crate::cortex::{CortexClient, CortexError, CortexRetrievalResponse, RawHit};
use crate::digest::{hex_encode, hex_spec, sha256, sha256_spec};
use crate::manager::{cache_keys, shard_keys, with_state, ShardEntry, ShardError, ShardManager};
use crate::shard::{key_of, parse_key, ShardId, ShardState};
use crate::sidecar::{resolve_spec, PositionMap};

verus! {

/// What purpose a retrieval serves (affects audit level and return semantics).
#[derive(Debug, Clone, Copy, PartialEq, Eq, Structural)]
pub enum RetrievalPurpose {
    General,
    Aggregate,
    CrisisOutreach,
    CustomerSupport,
}

/// Request to retrieve from the index.
#[derive(Debug, Clone)]
pub struct RetrievalRequest {
    pub query: String,
    pub shards: Vec<ShardId>,
    pub top_k: u32,
    pub purpose: RetrievalPurpose,
    pub actor: String,
}

/// A single retrieval result: a scored position within a shard, resolved to
/// a source content reference. The score is the bit pattern of the `f32`
/// attention score (`f32::to_bits`).
#[derive(Debug, Clone)]
pub struct RetrievalHit {
    /// Which shard this hit came from.
    pub shard: String,
    /// Token offset within the shard's KV cache.
    pub offset: u64,
    /// Length in tokens of the attended span.
    pub length: u32,
    /// Attention score bits.
    pub score_bits: u32,
    /// Resolved source content ID (from the position-to-source sidecar).
    pub source_id: Option<String>,
}

/// Response from a retrieval query.
#[derive(Debug)]
pub struct RetrievalResponse {
    pub query_id: uuid::Uuid,
    pub hits: Vec<RetrievalHit>,
    pub shard_count: u32,
}

#[derive(Debug)]
pub enum RetrievalError {
    NamespaceMismatch,
    ShardNotFound(String),
    CortexUnavailable,
    Internal(String),
}

impl RetrievalError {
    pub open spec fn message_spec(self) -> Seq<char> {
        match self {
            RetrievalError::NamespaceMismatch => "shards span multiple namespaces — namespace isolation violated"@,
            RetrievalError::ShardNotFound(s) => "shard not found: "@ + s@,
            RetrievalError::CortexUnavailable => "cortex unavailable"@,
            RetrievalError::Internal(m) => m@,
        }
    }

    /// The human-readable description of the error.
    pub fn message(&self) -> (s: String)
        ensures
            s@ == self.message_spec(),
    {
        match self {
            RetrievalError::NamespaceMismatch => "shards span multiple namespaces — namespace isolation violated".to_owned(),
            RetrievalError::ShardNotFound(s) => {
                let mut m = "shard not found: ".to_owned();
                crate::text::push_str(&mut m, s.as_str());
                m
            },
            RetrievalError::CortexUnavailable => "cortex unavailable".to_owned(),
            RetrievalError::Internal(m) => m.clone(),
        }
    }
}

/// All shards lie in the namespace of the first one.
pub open spec fn same_namespace(shards: Seq<ShardId>) -> bool {
    forall|i: int| 0 <= i < shards.len() ==> (#[trigger] shards[i]).namespace@ == shards[0].namespace@
}

/// Whether all shards lie in one namespace.
pub fn check_namespaces(shards: &[ShardId]) -> (ok: bool)
    ensures
        ok == same_namespace(shards@),
{
    if shards.len() == 0 {
        return true;
    }
    let ns = &shards[0].namespace;
    let mut i: usize = 0;
    while i < shards.len()
        invariant
            shards@.len() > 0,
            *ns == shards@[0].namespace,
            i <= shards@.len(),
            forall|j: int| 0 <= j < i ==> (#[trigger] shards@[j]).namespace@ == shards@[0].namespace@,
        decreases shards@.len() - i,
    {
        if shards[i].namespace != *ns {
            return false;
        }
        i = i + 1;
    }
    true
}

/// The content a hit at `offset` in the shard named `shard` resolves to:
/// nothing when the name does not parse as a shard key.
pub open spec fn resolved_source(
    m: Map<(Seq<char>, u64), (u32, Seq<char>)>,
    shard: Seq<char>,
    offset: u64,
) -> Option<Seq<char>> {
    match parse_key(shard) {
        Some((n, c, e)) => match resolve_spec(m, key_of(n, c, e), offset) {
            Some((content_id, _)) => Some(content_id),
            None => None,
        },
        None => None,
    }
}

/// A hit for a cortex span: same shard, offset and score, length 0 (cortex
/// returns single positions), and the source resolved through `m`.
pub open spec fn hit_for(m: Map<(Seq<char>, u64), (u32, Seq<char>)>, span: RawHit, hit: RetrievalHit) -> bool {
    &&& hit.shard@ == span.shard@
    &&& hit.offset == span.offset
    &&& hit.length == 0
    &&& hit.score_bits == span.score_bits
    &&& match (hit.source_id, resolved_source(m, span.shard@, span.offset)) {
        (Some(s), Some(c)) => s@ == c,
        (None, None) => true,
        _ => false,
    }
}

/// Resolve the positions cortex returned to source content ids.
pub fn resolve_hits(positions: &PositionMap, spans: &[RawHit]) -> (hits: Vec<RetrievalHit>)
    requires
        positions.wf(),
    ensures
        hits@.len() == spans@.len(),
        forall|i: int| 0 <= i < spans@.len() ==> hit_for(positions.view(), spans@[i], #[trigger] hits@[i]),
{
    let mut hits: Vec<RetrievalHit> = Vec::new();
    let mut i: usize = 0;
    while i < spans.len()
        invariant
            positions.wf(),
            i <= spans@.len(),
            hits@.len() == i,
            forall|j: int| 0 <= j < i ==> hit_for(positions.view(), spans@[j], #[trigger] hits@[j]),
        decreases spans@.len() - i,
    {
        let span = &spans[i];
        let source_id = match ShardId::parse(span.shard.as_str()) {
            Some(sid) => {
                proof {
                    crate::shard::lemma_to_key_parse(span.shard@);
                }
                match positions.resolve(&sid, span.offset) {
                    Some(r) => Some(r.content_id),
                    None => None,
                }
            },
            None => None,
        };
        hits.push(RetrievalHit {
            shard: span.shard.clone(),
            offset: span.offset,
            length: 0,
            score_bits: span.score_bits,
            source_id,
        });
        i = i + 1;
    }
    hits
}

/// The audit fingerprint of a query: the lower-case hex SHA-256 of its UTF-8
/// bytes.
pub open spec fn query_hash_spec(query: Seq<char>) -> Seq<char> {
    hex_spec(sha256_spec(vstd::utf8::encode_utf8(query)))
}

pub fn query_hash(query: &str) -> (h: String)
    ensures
        h@ == query_hash_spec(query@),
{
    let digest = sha256(query.as_bytes());
    hex_encode(digest.as_slice())
}

/// The namespace a request is audited under: that of its first shard, or
/// empty when it names none.
pub open spec fn request_namespace(shards: Seq<ShardId>) -> Seq<char> {
    if shards.len() == 0 {
        Seq::empty()
    } else {
        shards[0].namespace@
    }
}

/// The keys of shards, in order.
pub open spec fn keys_view(ids: Seq<ShardId>) -> Seq<Seq<char>> {
    ids.map_values(|id: ShardId| id.key())
}

/// A shard after `ensure_resident` succeeded on it.
pub open spec fn residency(e: ShardEntry) -> ShardEntry {
    if e.meta.state == ShardState::Cold {
        with_state(
            e,
            if e.meta.pinned {
                ShardState::Pinned
            } else {
                ShardState::Resident
            },
        )
    } else {
        e
    }
}

/// The shards after each of `ids` (that exists) was made resident, in order.
pub open spec fn after_residency(v: Map<Seq<char>, ShardEntry>, ids: Seq<ShardId>) -> Map<Seq<char>, ShardEntry>
    decreases ids.len(),
{
    if ids.len() == 0 {
        v
    } else {
        let v1 = after_residency(v, ids.drop_last());
        let k = ids.last().key();
        if v1.dom().contains(k) {
            v1.insert(k, residency(v1[k]))
        } else {
            v1
        }
    }
}

pub proof fn lemma_after_residency_dom(v: Map<Seq<char>, ShardEntry>, ids: Seq<ShardId>)
    ensures
        after_residency(v, ids).dom() == v.dom(),
    decreases ids.len(),
{
    if ids.len() > 0 {
        lemma_after_residency_dom(v, ids.drop_last());
        let v1 = after_residency(v, ids.drop_last());
        let k = ids.last().key();
        if v1.dom().contains(k) {
            assert(v1.insert(k, residency(v1[k])).dom() =~= v1.dom());
        }
    }
}

/// Orchestrates retrieval: validate → ensure resident → cortex query →
/// resolve positions → audit.
pub struct RetrievalPipeline;

impl RetrievalPipeline {
    pub fn new() -> Self {
        RetrievalPipeline
    }

    /// Run a retrieval: refuse shards from more than one namespace, make
    /// every shard resident (failing on the first one that does not exist),
    /// query cortex over the shards' cache slots, then resolve and audit
    /// what cortex found (`complete_retrieval`).
    pub fn retrieve<C: CortexClient, E: AuditEncoder>(
        &self,
        shards: &mut ShardManager<C>,
        positions: &PositionMap,
        audit: &mut AuditLog,
        encoder: &E,
        req: RetrievalRequest,
    ) -> (r: Result<RetrievalResponse, RetrievalError>)
        requires
            old(shards).wf(),
            positions.wf(),
            old(audit).wf(),
            all_present(old(shards).view(), req.shards@) ==> old(audit).can_append(),
        ensures
            final(shards).wf(),
            final(audit).wf(),
            !same_namespace(req.shards@) ==> (r matches Err(RetrievalError::NamespaceMismatch))
                && final(shards).view() == old(shards).view() && final(audit).entries() == old(
                audit,
            ).entries(),
            same_namespace(req.shards@) && all_present(old(shards).view(), req.shards@) ==> (r is Ok
                || r matches Err(RetrievalError::Internal(_))),
            forall|k: int|
                same_namespace(req.shards@) && #[trigger] first_missing(old(shards).view(), req.shards@, k) ==> match r {
                    Err(RetrievalError::ShardNotFound(s)) => s@ == req.shards@[k].key(),
                    Err(RetrievalError::Internal(_)) => true,
                    _ => false,
                },
            forall|k: int|
                same_namespace(req.shards@) && #[trigger] first_missing_warm(old(shards).view(), req.shards@, k)
                    ==> (r matches Err(RetrievalError::ShardNotFound(s)) && s@ == req.shards@[k].key()),
            match r {
                Ok(resp) => {
                    &&& same_namespace(req.shards@)
                    &&& all_present(old(shards).view(), req.shards@)
                    &&& final(shards).view() == after_residency(old(shards).view(), req.shards@)
                    &&& resp.shard_count == req.shards@.len() as u32
                    &&& exists|found: CortexRetrievalResponse|
                        {
                            &&& #[trigger] old(shards).client().retrieval_answer(
                                shard_keys(req.shards@),
                                req.query@,
                                req.top_k,
                                Ok(found),
                            )
                            &&& resp.hits@.len() == found.spans@.len()
                            &&& forall|i: int|
                                0 <= i < found.spans@.len() ==> hit_for(
                                    positions.view(),
                                    found.spans@[i],
                                    #[trigger] resp.hits@[i],
                                )
                        }
                    &&& audited_retrieval(*final(audit), *old(audit), req, resp.hits@.len())
                    &&& encoder.encodes(final(audit).entries().last().action, final(audit).encodings().last())
                },
                Err(RetrievalError::NamespaceMismatch) => !same_namespace(req.shards@),
                Err(RetrievalError::ShardNotFound(s)) => {
                    &&& same_namespace(req.shards@)
                    &&& exists|m: int|
                        0 <= m < req.shards@.len() && !old(shards).view().dom().contains(
                            #[trigger] req.shards@[m].key(),
                        ) && s@ == req.shards@[m].key() && (forall|j: int|
                            0 <= j < m ==> old(shards).view().dom().contains(#[trigger] req.shards@[j].key()))
                    &&& final(audit).entries() == old(audit).entries()
                },
                Err(RetrievalError::CortexUnavailable) => false,
                Err(RetrievalError::Internal(m)) => {
                    &&& same_namespace(req.shards@)
                    &&& final(audit).entries() == old(audit).entries()
                    &&& {
                        ||| exists|i: int, er: CortexError|
                            {
                                &&& 0 <= i < req.shards@.len()
                                &&& forall|j: int|
                                    0 <= j < i ==> old(shards).view().dom().contains(#[trigger] req.shards@[j].key())
                                &&& old(shards).view().dom().contains(#[trigger] req.shards@[i].key())
                                &&& old(shards).view()[req.shards@[i].key()].meta.state == ShardState::Cold
                                &&& #[trigger] old(shards).client().load_answer(
                                    req.shards@[i].key(),
                                    old(shards).view()[req.shards@[i].key()].tokens,
                                    Err(er),
                                )
                                &&& m@ == er.message@
                            }
                        ||| all_present(old(shards).view(), req.shards@) && exists|er: CortexError|
                            #[trigger] old(shards).client().retrieval_answer(
                                shard_keys(req.shards@),
                                req.query@,
                                req.top_k,
                                Err(er),
                            ) && m@ == er.message@
                    }
                },
            },
    {
        // 1. Namespace isolation.
        if !check_namespaces(req.shards.as_slice()) {
            return Err(RetrievalError::NamespaceMismatch);
        }
        // 2. Every shard exists and is resident.
        let n = req.shards.len();
        let ghost v0 = shards.view();
        let mut i: usize = 0;
        while i < n
            invariant
                shards.wf(),
                n == req.shards@.len(),
                i <= n,
                shards.view() == after_residency(v0, req.shards@.subrange(0, i as int)),
                forall|j: int| 0 <= j < i ==> v0.dom().contains(#[trigger] req.shards@[j].key()),
                audit.wf(),
                audit.entries() == old(audit).entries(),
                audit.encodings() == old(audit).encodings(),
                v0 == old(shards).view(),
                shards.client() == old(shards).client(),
                same_namespace(req.shards@),
            decreases n - i,
        {
            proof {
                lemma_after_residency_dom(v0, req.shards@.subrange(0, i as int));
                assert(req.shards@.subrange(0, i + 1).drop_last() =~= req.shards@.subrange(0, i as int));
                assert(req.shards@.subrange(0, i + 1).last() == req.shards@[i as int]);
            }
            let shard_id = &req.shards[i];
            if shards.get_meta(shard_id).is_none() {
                proof {
                    assert(!v0.dom().contains(req.shards@[i as int].key()));
                    assert forall|k: int| #[trigger] first_missing_warm(v0, req.shards@, k) implies k == i by {
                        if k < i {
                            assert(v0.dom().contains(req.shards@[k].key()));
                        } else if k > i {
                            assert(v0.dom().contains(req.shards@[i as int].key()));
                        }
                    }
                    assert forall|k: int| #[trigger] first_missing(v0, req.shards@, k) implies k == i by {
                        if k < i {
                            assert(v0.dom().contains(req.shards@[k].key()));
                        } else if k > i {
                            assert(v0.dom().contains(req.shards@[i as int].key()));
                        }
                    }
                }
                return Err(RetrievalError::ShardNotFound(shard_id.to_string()));
            }
            match shards.ensure_resident(shard_id) {
                Ok(()) => {},
                Err(e) => {
                    proof {
                        lemma_after_residency_warm(v0, req.shards@.subrange(0, i as int), req.shards@[i as int].key());
                        lemma_after_residency_tokens(v0, req.shards@.subrange(0, i as int), req.shards@[i as int].key());
                        let k = req.shards@[i as int].key();
                        if e is Cortex {
                            let er = e->Cortex_0;
                            assert(old(shards).client().load_answer(k, v0[k].tokens, Err(er)));
                            assert(e.message_spec() == er.message@);
                        }
                        assert forall|k: int| !(#[trigger] first_missing_warm(v0, req.shards@, k)) by {
                            if first_missing_warm(v0, req.shards@, k) {
                                if k <= i {
                                    if k < i {
                                        assert(v0.dom().contains(req.shards@[k].key()));
                                    }
                                } else {
                                    assert(v0[req.shards@[i as int].key()].meta.state != ShardState::Cold);
                                }
                            }
                        }
                    }
                    return Err(RetrievalError::Internal(e.message()));
                },
            }
            proof {
                assert(v0.dom().contains(req.shards@[i as int].key()));
            }
            i = i + 1;
        }
        proof {
            assert(req.shards@.subrange(0, n as int) =~= req.shards@);
            assert(all_present(v0, req.shards@));
            assert forall|k: int| !(#[trigger] first_missing(v0, req.shards@, k)) by {
                if first_missing(v0, req.shards@, k) {
                    assert(v0.dom().contains(req.shards@[k].key()));
                }
            }
            assert forall|k: int| !(#[trigger] first_missing_warm(v0, req.shards@, k)) by {
                if first_missing_warm(v0, req.shards@, k) {
                    assert(v0.dom().contains(req.shards@[k].key()));
                }
            }
        }
        // 3. Query cortex over the shards.
        let cortex_resp = match shards.retrieve(req.shards.as_slice(), req.query.as_str(), req.top_k) {
            Ok(resp) => resp,
            Err(e) => {
                proof {
                    if e is Cortex {
                        let er = e->Cortex_0;
                        assert(old(shards).client().retrieval_answer(shard_keys(req.shards@), req.query@, req.top_k, Err(er)));
                    }
                }
                return Err(RetrievalError::Internal(e.message()));
            },
        };
        // 4. Resolve and audit what cortex found.
        let query_id = new_uuid();
        let resp = complete_retrieval(positions, audit, encoder, &req, &cortex_resp, query_id);
        proof {
            assert(old(shards).client().retrieval_answer(shard_keys(req.shards@), req.query@, req.top_k, Ok(cortex_resp)));
        }
        Ok(resp)
    }
}

/// Every shard named exists.
pub open spec fn all_present(v: Map<Seq<char>, ShardEntry>, ids: Seq<ShardId>) -> bool {
    forall|i: int| 0 <= i < ids.len() ==> v.dom().contains(#[trigger] ids[i].key())
}

/// Shard `k` is the first named one that does not exist.
pub open spec fn first_missing(v: Map<Seq<char>, ShardEntry>, ids: Seq<ShardId>, k: int) -> bool {
    &&& 0 <= k < ids.len()
    &&& !v.dom().contains(ids[k].key())
    &&& forall|j: int| 0 <= j < k ==> v.dom().contains(#[trigger] ids[j].key())
}

/// Shard `k` is the first named one that does not exist, and every shard
/// named before it exists and is already on the GPU (so making it resident
/// needs no call to cortex).
pub open spec fn first_missing_warm(v: Map<Seq<char>, ShardEntry>, ids: Seq<ShardId>, k: int) -> bool {
    &&& 0 <= k < ids.len()
    &&& !v.dom().contains(ids[k].key())
    &&& forall|j: int|
        0 <= j < k ==> v.dom().contains(#[trigger] ids[j].key()) && v[ids[j].key()].meta.state != ShardState::Cold
}

/// A shard that is cold after some shards were made resident was cold
/// before.
pub proof fn lemma_after_residency_warm(v: Map<Seq<char>, ShardEntry>, ids: Seq<ShardId>, key: Seq<char>)
    requires
        v.dom().contains(key),
        after_residency(v, ids)[key].meta.state == ShardState::Cold,
    ensures
        v[key].meta.state == ShardState::Cold,
    decreases ids.len(),
{
    lemma_after_residency_dom(v, ids);
    if ids.len() > 0 {
        lemma_after_residency_dom(v, ids.drop_last());
        let v1 = after_residency(v, ids.drop_last());
        let k = ids.last().key();
        if v1.dom().contains(k) && k == key {
            assert(residency(v1[k]).meta.state != ShardState::Cold);
        }
        lemma_after_residency_warm(v, ids.drop_last(), key);
    }
}

/// Making shards resident keeps every token history.
pub proof fn lemma_after_residency_tokens(v: Map<Seq<char>, ShardEntry>, ids: Seq<ShardId>, key: Seq<char>)
    requires
        v.dom().contains(key),
    ensures
        after_residency(v, ids)[key].tokens == v[key].tokens,
    decreases ids.len(),
{
    lemma_after_residency_dom(v, ids);
    if ids.len() > 0 {
        lemma_after_residency_dom(v, ids.drop_last());
        lemma_after_residency_tokens(v, ids.drop_last(), key);
    }
}

/// `after` is `before` with the audit entry of a retrieval of `req` that
/// found `hit_count` hits: its shards' keys, the hash of its query, under its
/// actor and its first shard's namespace.
pub open spec fn audited_retrieval(after: AuditLog, before: AuditLog, req: RetrievalRequest, hit_count: nat) -> bool {
    &&& AuditLog::is_append_of(after, before, after.entries().last(), after.encodings().last())
    &&& after.entries().last().action == ActionView::Retrieve {
        shards: keys_view(req.shards@),
        query_hash: query_hash_spec(req.query@),
        hit_count: hit_count as u32,
    }
    &&& after.entries().last().actor == req.actor@
    &&& after.entries().last().namespace == request_namespace(req.shards@)
}

/// The end of a retrieval, once cortex has answered with `found`: each span
/// it found becomes a hit resolved through the position map, in cortex's
/// order, and the retrieval is audited.
pub fn complete_retrieval<E: AuditEncoder>(
    positions: &PositionMap,
    audit: &mut AuditLog,
    encoder: &E,
    req: &RetrievalRequest,
    found: &CortexRetrievalResponse,
    query_id: uuid::Uuid,
) -> (resp: RetrievalResponse)
    requires
        positions.wf(),
        old(audit).wf(),
        old(audit).can_append(),
    ensures
        final(audit).wf(),
        resp.query_id == query_id,
        resp.shard_count == req.shards@.len() as u32,
        resp.hits@.len() == found.spans@.len(),
        forall|i: int| 0 <= i < found.spans@.len() ==> hit_for(positions.view(), found.spans@[i], #[trigger] resp.hits@[i]),
        audited_retrieval(*final(audit), *old(audit), *req, found.spans@.len()),
        encoder.encodes(final(audit).entries().last().action, final(audit).encodings().last()),
{
    let hits = resolve_hits(positions, found.spans.as_slice());
    let qhash = query_hash(req.query.as_str());
    let namespace = if req.shards.len() == 0 {
        String::new()
    } else {
        req.shards[0].namespace.clone()
    };
    let names = cache_keys(req.shards.as_slice());
    let action = AuditAction::Retrieve { shards: names, query_hash: qhash, hit_count: hits.len() as u32 };
    let action_json = encoder.encode_action(&action);
    let detail = encoder.retrieval_detail(&req.purpose, &query_id, found.corpus_tokens);
    proof {
        assert(strings_view(names@) =~= keys_view(req.shards@));
        assert(namespace@ == request_namespace(req.shards@));
    }
    let _entry = audit.append(action, action_json, req.actor.as_str(), namespace.as_str(), detail);
    let shard_count = req.shards.len() as u32;
    RetrievalResponse { query_id, hits, shard_count }
}

/// Shards are of one namespace exactly when each names the namespace of the
/// first: a single shard of another namespace anywhere in the list is
/// enough to refuse the request.
pub proof fn law_one_namespace(shards: Seq<ShardId>)
    ensures
        same_namespace(shards) <==> (forall|i: int|
            0 <= i < shards.len() ==> (#[trigger] shards[i]).namespace@ == shards[0].namespace@),
        forall|i: int|
            0 <= i < shards.len() && (#[trigger] shards[i]).namespace@ != shards[0].namespace@
                ==> !same_namespace(shards),
{
}

} // verus!
