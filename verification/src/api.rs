use vstd::prelude::*;

use crate::audit::{ActionView, AuditAction, AuditEncoder, AuditLog};
use crate::cortex::CortexClient;
use crate::ingest::IngestError;
use crate::manager::{metas_with_prefix, with_state, ShardEntry, ShardManager};
use crate::retrieval::{residency, RetrievalError};
use crate::shard::{key_of, parse_key, ShardId, ShardMeta, ShardState};
use crate::text::push_str;

verus! {

/// Unified API error: a kind that decides the HTTP status, and a message.
#[derive(Debug)]
pub enum ApiError {
    BadRequest(String),
    NotFound(String),
    Forbidden(String),
    BadGateway(String),
    Internal(String),
}

impl ApiError {
    /// The machine-readable code of the error kind.
    pub fn code(&self) -> (c: &'static str)
        ensures
            c@ == match self {
                ApiError::BadRequest(_) => "bad_request"@,
                ApiError::NotFound(_) => "not_found"@,
                ApiError::Forbidden(_) => "forbidden"@,
                ApiError::BadGateway(_) => "bad_gateway"@,
                ApiError::Internal(_) => "internal"@,
            },
    {
        match self {
            ApiError::BadRequest(_) => "bad_request",
            ApiError::NotFound(_) => "not_found",
            ApiError::Forbidden(_) => "forbidden",
            ApiError::BadGateway(_) => "bad_gateway",
            ApiError::Internal(_) => "internal",
        }
    }

    /// The HTTP status the error answers with.
    pub fn status(&self) -> (s: u16)
        ensures
            s == match self {
                ApiError::BadRequest(_) => 400u16,
                ApiError::NotFound(_) => 404u16,
                ApiError::Forbidden(_) => 403u16,
                ApiError::BadGateway(_) => 502u16,
                ApiError::Internal(_) => 500u16,
            },
    {
        match self {
            ApiError::BadRequest(_) => 400,
            ApiError::NotFound(_) => 404,
            ApiError::Forbidden(_) => 403,
            ApiError::BadGateway(_) => 502,
            ApiError::Internal(_) => 500,
        }
    }

    /// The error's message.
    pub fn message(&self) -> (m: &String)
        ensures
            *m == match self {
                ApiError::BadRequest(m) => *m,
                ApiError::NotFound(m) => *m,
                ApiError::Forbidden(m) => *m,
                ApiError::BadGateway(m) => *m,
                ApiError::Internal(m) => *m,
            },
    {
        match self {
            ApiError::BadRequest(m) => m,
            ApiError::NotFound(m) => m,
            ApiError::Forbidden(m) => m,
            ApiError::BadGateway(m) => m,
            ApiError::Internal(m) => m,
        }
    }

    /// How an ingestion failure is answered: refused consent is forbidden,
    /// a missing shard is not found, an unavailable cortex is a bad gateway,
    /// anything else is internal; the message is the error's description.
    pub fn from_ingest_error(e: IngestError) -> (r: Self)
        ensures
            match e {
                IngestError::ConsentDenied(_) => r matches ApiError::Forbidden(m) && m@ == e.message_spec(),
                IngestError::ShardNotFound(_) => r matches ApiError::NotFound(m) && m@ == e.message_spec(),
                IngestError::CortexUnavailable => r matches ApiError::BadGateway(m) && m@ == e.message_spec(),
                IngestError::Internal(_) => r matches ApiError::Internal(m) && m@ == e.message_spec(),
            },
    {
        let m = e.message();
        match e {
            IngestError::ConsentDenied(_) => ApiError::Forbidden(m),
            IngestError::ShardNotFound(_) => ApiError::NotFound(m),
            IngestError::CortexUnavailable => ApiError::BadGateway(m),
            IngestError::Internal(_) => ApiError::Internal(m),
        }
    }

    /// How a retrieval failure is answered: mixed namespaces are a bad
    /// request, a missing shard is not found, an unavailable cortex is a bad
    /// gateway, anything else is internal; the message is the error's
    /// description.
    pub fn from_retrieval_error(e: RetrievalError) -> (r: Self)
        ensures
            match e {
                RetrievalError::NamespaceMismatch => r matches ApiError::BadRequest(m) && m@ == e.message_spec(),
                RetrievalError::ShardNotFound(_) => r matches ApiError::NotFound(m) && m@ == e.message_spec(),
                RetrievalError::CortexUnavailable => r matches ApiError::BadGateway(m) && m@ == e.message_spec(),
                RetrievalError::Internal(_) => r matches ApiError::Internal(m) && m@ == e.message_spec(),
            },
    {
        let m = e.message();
        match e {
            RetrievalError::NamespaceMismatch => ApiError::BadRequest(m),
            RetrievalError::ShardNotFound(_) => ApiError::NotFound(m),
            RetrievalError::CortexUnavailable => ApiError::BadGateway(m),
            RetrievalError::Internal(_) => ApiError::Internal(m),
        }
    }
}

/// The namespace a request names in its `X-Memex-Namespace` header.
#[derive(Debug, Clone)]
pub struct Namespace(pub String);

/// The actor a request names in its `X-Memex-Actor` header.
#[derive(Debug, Clone)]
pub struct ActorId(pub String);

impl Namespace {
    /// From the header's value, when present and readable; otherwise the
    /// rejection message.
    pub fn from_header(value: Option<&str>) -> (r: Result<Self, &'static str>)
        ensures
            match value {
                Some(v) => r matches Ok(n) && n.0@ == v@,
                None => r matches Err(m) && m@ == "missing X-Memex-Namespace header"@,
            },
    {
        match value {
            Some(v) => Ok(Namespace(v.to_owned())),
            None => Err("missing X-Memex-Namespace header"),
        }
    }
}

impl ActorId {
    /// From the header's value, when present and readable; otherwise the
    /// rejection message.
    pub fn from_header(value: Option<&str>) -> (r: Result<Self, &'static str>)
        ensures
            match value {
                Some(v) => r matches Ok(a) && a.0@ == v@,
                None => r matches Err(m) && m@ == "missing X-Memex-Actor header"@,
            },
    {
        match value {
            Some(v) => Ok(ActorId(v.to_owned())),
            None => Err("missing X-Memex-Actor header"),
        }
    }
}

/// The message a malformed shard key is refused with.
pub open spec fn invalid_key_message(key: Seq<char>) -> Seq<char> {
    "invalid shard key: "@ + key
}

fn invalid_key(key: &str) -> (e: ApiError)
    ensures
        e matches ApiError::BadRequest(m) && m@ == invalid_key_message(key@),
{
    let mut m = "invalid shard key: ".to_owned();
    push_str(&mut m, key);
    ApiError::BadRequest(m)
}

fn shard_not_found(key: &str) -> (e: ApiError)
    ensures
        e matches ApiError::NotFound(m) && m@ == "shard not found: "@ + key@,
{
    let mut m = "shard not found: ".to_owned();
    push_str(&mut m, key);
    ApiError::NotFound(m)
}

/// The shard a request names by its key; a bad request when the key does
/// not parse.
pub fn shard_from_key(key: &str) -> (r: Result<ShardId, ApiError>)
    ensures
        match parse_key(key@) {
            Some((n, c, e)) => r matches Ok(id) && id.namespace@ == n && id.category@ == c && id.entity_id@ == e,
            None => r matches Err(ApiError::BadRequest(m)) && m@ == invalid_key_message(key@),
        },
{
    match ShardId::parse(key) {
        Some(id) => Ok(id),
        None => Err(invalid_key(key)),
    }
}

/// The shards a request names by their keys, in order; a bad request naming
/// the first key that does not parse.
pub fn shards_from_keys(keys: &[String]) -> (r: Result<Vec<ShardId>, ApiError>)
    ensures
        match r {
            Ok(ids) => {
                &&& ids@.len() == keys@.len()
                &&& forall|i: int|
                    0 <= i < keys@.len() ==> parse_key(keys@[i]@) == Some(
                        ((#[trigger] ids@[i]).namespace@, ids@[i].category@, ids@[i].entity_id@),
                    )
            },
            Err(e) => exists|i: int|
                {
                    &&& 0 <= i < keys@.len()
                    &&& parse_key(#[trigger] keys@[i]@) is None
                    &&& forall|j: int| 0 <= j < i ==> parse_key(#[trigger] keys@[j]@) is Some
                    &&& e matches ApiError::BadRequest(m) && m@ == invalid_key_message(keys@[i]@)
                },
        },
{
    let mut ids: Vec<ShardId> = Vec::new();
    let mut i: usize = 0;
    while i < keys.len()
        invariant
            i <= keys@.len(),
            ids@.len() == i,
            forall|j: int|
                0 <= j < i ==> parse_key(keys@[j]@) == Some(
                    ((#[trigger] ids@[j]).namespace@, ids@[j].category@, ids@[j].entity_id@),
                ),
        decreases keys@.len() - i,
    {
        match ShardId::parse(keys[i].as_str()) {
            Some(id) => {
                ids.push(id);
            },
            None => {
                let e = invalid_key(keys[i].as_str());
                assert(parse_key(keys@[i as int]@) is None);
                assert forall|j: int| 0 <= j < i implies parse_key(#[trigger] keys@[j]@) is Some by {
                    assert(parse_key(keys@[j]@) == Some((ids@[j].namespace@, ids@[j].category@, ids@[j].entity_id@)));
                }
                return Err(e);
            },
        }
        i = i + 1;
    }
    Ok(ids)
}

/// `after` is `before` with one entry appended for `action`, by `actor`
/// under `namespace`.
pub open spec fn audited(after: AuditLog, before: AuditLog, action: ActionView, actor: Seq<char>, namespace: Seq<char>) -> bool {
    &&& AuditLog::is_append_of(after, before, after.entries().last(), after.encodings().last())
    &&& after.entries().last().action == action
    &&& after.entries().last().actor == actor
    &&& after.entries().last().namespace == namespace
}

/// The message a shard outside the request's namespace is refused with.
pub open spec fn namespace_mismatch_message() -> Seq<char> {
    "shard namespace does not match X-Memex-Namespace header"@
}

/// Create a shard in the request's namespace and audit it under "system".
/// A malformed key or a shard of another namespace is a bad request; a
/// taken key is an internal error.
pub fn create_shard<C: CortexClient, E: AuditEncoder>(
    shards: &mut ShardManager<C>,
    audit: &mut AuditLog,
    encoder: &E,
    shard_key: &str,
    pinned: bool,
    namespace: &str,
) -> (r: Result<ShardMeta, ApiError>)
    requires
        old(shards).wf(),
        old(audit).wf(),
        parse_key(shard_key@) matches Some((n, c, e)) && n == namespace@ && !old(shards).view().dom().contains(
            key_of(n, c, e),
        ) ==> old(audit).can_append(),
    ensures
        final(shards).wf(),
        final(audit).wf(),
        match parse_key(shard_key@) {
            None => {
                &&& r matches Err(ApiError::BadRequest(m)) && m@ == invalid_key_message(shard_key@)
                &&& final(shards).view() == old(shards).view()
                &&& final(audit).entries() == old(audit).entries()
            },
            Some((n, c, e)) => {
                let k = key_of(n, c, e);
                if n != namespace@ {
                    &&& r matches Err(ApiError::BadRequest(m)) && m@ == namespace_mismatch_message()
                    &&& final(shards).view() == old(shards).view()
                    &&& final(audit).entries() == old(audit).entries()
                } else if old(shards).view().dom().contains(k) {
                    &&& r matches Err(ApiError::Internal(m)) && m@ == "shard already exists: "@ + k
                    &&& final(shards).view() == old(shards).view()
                    &&& final(audit).entries() == old(audit).entries()
                } else {
                    &&& r matches Ok(meta) && {
                        &&& meta.id.namespace@ == n && meta.id.category@ == c && meta.id.entity_id@ == e
                        &&& meta.state == ShardState::Cold
                        &&& meta.token_count == 0
                        &&& meta.byte_size == 0
                        &&& meta.pinned == pinned
                        &&& final(shards).view() == old(shards).view().insert(
                            k,
                            ShardEntry { meta: meta, tokens: Seq::empty() },
                        )
                    }
                    &&& audited(*final(audit), *old(audit), ActionView::ShardCreate { shard: k }, "system"@, namespace@)
                    &&& encoder.encodes(final(audit).entries().last().action, final(audit).encodings().last())
                }
            },
        },
{
    let id = shard_from_key(shard_key)?;
    if !crate::audit::str_eq(id.namespace.as_str(), namespace) {
        return Err(ApiError::BadRequest("shard namespace does not match X-Memex-Namespace header".to_owned()));
    }
    let meta = match shards.create(id, pinned) {
        Ok(m) => m,
        Err(e) => {
            return Err(ApiError::Internal(e.message()));
        },
    };
    let action = AuditAction::ShardCreate { shard: meta.id.to_string() };
    let json = encoder.encode_action(&action);
    let detail = encoder.empty_detail();
    let _entry = audit.append(action, json, "system", namespace, detail);
    Ok(meta)
}

/// List the shards of a namespace: the one the query names, else the
/// request's.
pub fn list_shards<C: CortexClient>(shards: &ShardManager<C>, query_namespace: Option<&str>, namespace: &str) -> (r: Vec<ShardMeta>)
    requires
        shards.wf(),
    ensures
        r@ == metas_with_prefix(
            shards.entries(),
            match query_namespace {
                Some(q) => q@,
                None => namespace@,
            }.push('.'),
        ),
{
    match query_namespace {
        Some(q) => shards.list(q),
        None => shards.list(namespace),
    }
}

/// The metadata of the shard a request names.
pub fn get_shard<C: CortexClient>(shards: &ShardManager<C>, shard_key: &str) -> (r: Result<ShardMeta, ApiError>)
    requires
        shards.wf(),
    ensures
        match parse_key(shard_key@) {
            None => r matches Err(ApiError::BadRequest(m)) && m@ == invalid_key_message(shard_key@),
            Some((n, c, e)) => if shards.view().dom().contains(key_of(n, c, e)) {
                r == Ok::<ShardMeta, ApiError>(shards.view()[key_of(n, c, e)].meta)
            } else {
                r matches Err(ApiError::NotFound(m)) && m@ == "shard not found: "@ + shard_key@
            },
        },
{
    let id = shard_from_key(shard_key)?;
    match shards.get_meta(&id) {
        Some(meta) => Ok(meta),
        None => Err(shard_not_found(shard_key)),
    }
}

/// Evict the shard a request names from the GPU and audit it under
/// "system" in the shard's namespace. A cortex failure is an internal
/// error; a shard that does not exist is not found.
pub fn evict_shard<C: CortexClient, E: AuditEncoder>(
    shards: &mut ShardManager<C>,
    audit: &mut AuditLog,
    encoder: &E,
    shard_key: &str,
) -> (r: Result<ShardMeta, ApiError>)
    requires
        old(shards).wf(),
        old(audit).wf(),
        parse_key(shard_key@) matches Some((n, c, e)) && old(shards).view().dom().contains(key_of(n, c, e))
            ==> old(audit).can_append(),
    ensures
        final(shards).wf(),
        final(audit).wf(),
        match parse_key(shard_key@) {
            None => {
                &&& r matches Err(ApiError::BadRequest(m)) && m@ == invalid_key_message(shard_key@)
                &&& final(shards).view() == old(shards).view()
                &&& final(audit).entries() == old(audit).entries()
            },
            Some((n, c, e)) => {
                let k = key_of(n, c, e);
                &&& old(shards).view().dom().contains(k) ==> (r is Ok || r matches Err(ApiError::Internal(_)))
                &&& !old(shards).view().dom().contains(k) ==> (r matches Err(ApiError::NotFound(_)) || r matches Err(
                    ApiError::Internal(_),
                ))
                &&& match r {
                    Ok(meta) => {
                        &&& old(shards).view().dom().contains(k)
                        &&& meta == with_state(old(shards).view()[k], ShardState::Cold).meta
                        &&& final(shards).view() == old(shards).view().insert(
                            k,
                            with_state(old(shards).view()[k], ShardState::Cold),
                        )
                        &&& audited(*final(audit), *old(audit), ActionView::ShardEvict { shard: shard_key@ }, "system"@, n)
                        &&& encoder.encodes(final(audit).entries().last().action, final(audit).encodings().last())
                    },
                    Err(ApiError::NotFound(m)) => {
                        &&& m@ == "shard not found: "@ + shard_key@
                        &&& final(shards).view() == old(shards).view()
                        &&& final(audit).entries() == old(audit).entries()
                    },
                    Err(_) => {
                        &&& final(shards).view() == old(shards).view()
                        &&& final(audit).entries() == old(audit).entries()
                    },
                }
            },
        },
{
    let id = shard_from_key(shard_key)?;
    match shards.evict(&id) {
        Ok(()) => {},
        Err(e) => {
            return Err(ApiError::Internal(e.message()));
        },
    }
    let meta = match shards.get_meta(&id) {
        Some(m) => m,
        None => {
            return Err(shard_not_found(shard_key));
        },
    };
    let action = AuditAction::ShardEvict { shard: shard_key.to_owned() };
    let json = encoder.encode_action(&action);
    let detail = encoder.empty_detail();
    let _entry = audit.append(action, json, "system", id.namespace.as_str(), detail);
    Ok(meta)
}

/// Make the shard a request names resident on the GPU. A shard that does
/// not exist, like a cortex failure, is an internal error.
pub fn load_shard<C: CortexClient>(shards: &mut ShardManager<C>, shard_key: &str) -> (r: Result<ShardMeta, ApiError>)
    requires
        old(shards).wf(),
    ensures
        final(shards).wf(),
        match parse_key(shard_key@) {
            None => {
                &&& r matches Err(ApiError::BadRequest(m)) && m@ == invalid_key_message(shard_key@)
                &&& final(shards).view() == old(shards).view()
            },
            Some((n, c, e)) => {
                let k = key_of(n, c, e);
                if !old(shards).view().dom().contains(k) {
                    &&& r matches Err(ApiError::Internal(m)) && m@ == "shard not found: "@ + k
                    &&& final(shards).view() == old(shards).view()
                } else if old(shards).view()[k].meta.state != ShardState::Cold {
                    &&& r == Ok::<ShardMeta, ApiError>(old(shards).view()[k].meta)
                    &&& final(shards).view() == old(shards).view()
                } else {
                    match r {
                        Ok(meta) => {
                            &&& meta == residency(old(shards).view()[k]).meta
                            &&& final(shards).view() == old(shards).view().insert(k, residency(old(shards).view()[k]))
                        },
                        Err(err) => err is Internal && final(shards).view() == old(shards).view(),
                    }
                }
            },
        },
{
    let id = shard_from_key(shard_key)?;
    match shards.ensure_resident(&id) {
        Ok(()) => {},
        Err(e) => {
            return Err(ApiError::Internal(e.message()));
        },
    }
    match shards.get_meta(&id) {
        Some(meta) => Ok(meta),
        None => Err(shard_not_found(shard_key)),
    }
}

} // verus!
