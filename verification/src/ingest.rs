use vstd::prelude::*;

use crate::audit::{ActionView, AuditAction, AuditEncoder, AuditLog};
use crate::consent::{ConsentError, ConsentToken, ConsentVerifier};
use crate::cortex::{CacheInfo, CortexClient, CortexError};
use crate::manager::{with_appended, ShardEntry, ShardManager};
use crate::retrieval::residency;
use crate::shard::{ShardId, ShardState};
use crate::sidecar::{law_record_then_resolve, resolve_spec, PositionMap};

verus! {

/// Request to ingest content into a shard.
#[derive(Debug)]
pub struct IngestRequest {
    /// Opaque content identifier from the caller.
    pub content_id: String,
    /// The text content to ingest.
    pub content: String,
    /// Pre-tokenized content; when empty, the token count is approximated
    /// from the text.
    pub tokens: Vec<u32>,
    /// Target shard.
    pub shard: ShardId,
    /// Consent token authorizing this ingestion.
    pub consent_token: ConsentToken,
}

/// Result of a successful ingestion.
#[derive(Debug, Clone)]
pub struct IngestResult {
    pub content_id: String,
    pub shard: String,
    /// Number of tokens the content counts for.
    pub token_count: u64,
    /// Token offset within the shard where this content starts.
    pub offset: u64,
}

#[derive(Debug)]
pub enum IngestError {
    ConsentDenied(ConsentError),
    ShardNotFound(String),
    CortexUnavailable,
    Internal(String),
}

impl IngestError {
    pub open spec fn message_spec(self) -> Seq<char> {
        match self {
            IngestError::ConsentDenied(e) => "consent denied: "@ + e.message_spec(),
            IngestError::ShardNotFound(s) => "shard not found: "@ + s@,
            IngestError::CortexUnavailable => "cortex unavailable"@,
            IngestError::Internal(m) => m@,
        }
    }

    /// The human-readable description of the error.
    pub fn message(&self) -> (s: String)
        ensures
            s@ == self.message_spec(),
    {
        match self {
            IngestError::ConsentDenied(e) => {
                let mut m = "consent denied: ".to_owned();
                crate::text::push_str(&mut m, e.message());
                m
            },
            IngestError::ShardNotFound(s) => {
                let mut m = "shard not found: ".to_owned();
                crate::text::push_str(&mut m, s.as_str());
                m
            },
            IngestError::CortexUnavailable => "cortex unavailable".to_owned(),
            IngestError::Internal(m) => m.clone(),
        }
    }
}

/// The number of tokens an ingestion counts for: those given, or, when none
/// are given, one per four bytes of text.
pub open spec fn ingest_token_count(content: Seq<char>, tokens: Seq<u32>) -> u64 {
    if tokens.len() == 0 {
        (((vstd::utf8::encode_utf8(content).len() as usize) / 4) as u64)
    } else {
        tokens.len() as u64
    }
}

/// The shards and the position map after content `content_id`, tokenized
/// as `tokens` and counting `count` tokens, was ingested at `offset` into the
/// shard under key `k`: the shard was made resident, the tokens were
/// appended to its history, which was empty up to `offset`, and the span
/// from `offset` was recorded for the content.
pub open spec fn is_ingest_of(
    shards_after: Map<Seq<char>, ShardEntry>,
    shards_before: Map<Seq<char>, ShardEntry>,
    spans_after: Map<(Seq<char>, u64), (u32, Seq<char>)>,
    spans_before: Map<(Seq<char>, u64), (u32, Seq<char>)>,
    k: Seq<char>,
    tokens: Seq<u32>,
    content_id: Seq<char>,
    count: u64,
    offset: u64,
) -> bool {
    let e = residency(shards_before[k]);
    &&& shards_before.dom().contains(k)
    &&& offset == e.tokens.len()
    &&& shards_after =~= shards_before.insert(k, with_appended(e, tokens, Some((e.tokens + tokens).len() as u64)))
    &&& spans_after =~= spans_before.insert((k, offset), (count as u32, content_id))
}

/// Every recorded span belongs to an existing shard and starts within its
/// token history.
pub open spec fn spans_within(
    shards: Map<Seq<char>, ShardEntry>,
    spans: Map<(Seq<char>, u64), (u32, Seq<char>)>,
) -> bool {
    forall|s: (Seq<char>, u64)|
        #[trigger] spans.dom().contains(s) ==> shards.dom().contains(s.0) && s.1 <= shards[s.0].tokens.len()
}

/// What is ingested is what retrieval resolves: while every recorded span
/// starts within its shard's history, each position of a newly ingested
/// span resolves to the ingested content, at its distance from the span's
/// start; and afterwards every span still starts within its shard's history.
pub proof fn law_ingest_then_resolve(
    shards_after: Map<Seq<char>, ShardEntry>,
    shards_before: Map<Seq<char>, ShardEntry>,
    spans_after: Map<(Seq<char>, u64), (u32, Seq<char>)>,
    spans_before: Map<(Seq<char>, u64), (u32, Seq<char>)>,
    k: Seq<char>,
    tokens: Seq<u32>,
    content_id: Seq<char>,
    count: u64,
    offset: u64,
    position: u64,
)
    requires
        spans_within(shards_before, spans_before),
        is_ingest_of(shards_after, shards_before, spans_after, spans_before, k, tokens, content_id, count, offset),
        offset <= position < offset + (count as u32),
    ensures
        spans_within(shards_after, spans_after),
        resolve_spec(spans_after, k, position) == Some((content_id, (position - offset) as u64)),
{
    let e = residency(shards_before[k]);
    assert forall|o: u64| offset < o <= position implies !spans_before.dom().contains((k, o)) by {
        if spans_before.dom().contains((k, o)) {
            assert(o <= shards_before[k].tokens.len());
        }
    }
    law_record_then_resolve(spans_before, k, offset, count as u32, content_id, position);
    assert forall|s: (Seq<char>, u64)| #[trigger] spans_after.dom().contains(s) implies shards_after.dom().contains(
        s.0,
    ) && s.1 <= shards_after[s.0].tokens.len() by {
        if s != (k, offset) {
            assert(spans_before.dom().contains(s));
        }
    }
}

/// Every span still starts within its shard's history after any change that
/// keeps every shard and shortens no history, as creating, evicting and
/// loading shards do.
pub proof fn law_spans_within_kept(
    shards_after: Map<Seq<char>, ShardEntry>,
    shards_before: Map<Seq<char>, ShardEntry>,
    spans: Map<(Seq<char>, u64), (u32, Seq<char>)>,
)
    requires
        spans_within(shards_before, spans),
        forall|k: Seq<char>|
            #[trigger] shards_before.dom().contains(k) ==> shards_after.dom().contains(k)
                && shards_before[k].tokens.len() <= shards_after[k].tokens.len(),
    ensures
        spans_within(shards_after, spans),
{
    assert forall|s: (Seq<char>, u64)| #[trigger] spans.dom().contains(s) implies shards_after.dom().contains(s.0)
        && s.1 <= shards_after[s.0].tokens.len() by {
        assert(shards_before.dom().contains(s.0));
    }
}

/// Orchestrates ingestion: consent → shard residency → append → position
/// record → audit.
pub struct IngestPipeline<V> {
    consent: V,
}

impl<V: ConsentVerifier> IngestPipeline<V> {
    /// The consent verifier the pipeline checks every request with.
    pub closed spec fn consent_checker(&self) -> V {
        self.consent
    }

    pub fn new(consent: V) -> (p: Self)
        ensures
            p.consent_checker() == consent,
    {
        IngestPipeline { consent }
    }

    /// Ingest content into a shard: check consent, make the shard resident,
    /// append the tokens to it, record which content the new positions came
    /// from, and audit the ingestion under the consenting entity and the
    /// shard's namespace.
    pub fn ingest<C: CortexClient, E: AuditEncoder>(
        &self,
        shards: &mut ShardManager<C>,
        positions: &mut PositionMap,
        audit: &mut AuditLog,
        encoder: &E,
        req: IngestRequest,
    ) -> (r: Result<IngestResult, IngestError>)
        requires
            old(shards).wf(),
            old(positions).wf(),
            old(audit).wf(),
            old(shards).view().dom().contains(req.shard.key()) ==> old(audit).can_append(),
        ensures
            final(shards).wf(),
            final(positions).wf(),
            final(audit).wf(),
            final(shards).client() == old(shards).client(),
            exists|c: Result<(), ConsentError>|
                self.consent_checker().grants(req.consent_token, c) && #[trigger] consent_decides(c, r),
            cortex_decides(old(shards).client(), old(shards).view(), req, r),
            r is Ok ==> encoder.encodes(final(audit).entries().last().action, final(audit).encodings().last()),
            ingest_outcome(
                old(shards).view(),
                final(shards).view(),
                old(positions).view(),
                final(positions).view(),
                *old(audit),
                *final(audit),
                req,
                r,
            ),
    {
        // 1. Verify consent, then do the rest.
        let consent = self.consent.verify(&req.consent_token);
        let ghost token = req.consent_token;
        let r = ingest_with_consent(shards, positions, audit, encoder, req, consent);
        assert(self.consent_checker().grants(token, consent) && consent_decides(consent, r));
        r
    }
}

/// What an ingestion of `req` gives and changes, whatever the consent
/// verifier and cortex answered: a missing shard is not found (unless
/// consent was refused first), and nothing else fails but a refused consent
/// or cortex; a success appends the tokens, records the span and audits it;
/// every failure leaves the position map and the audit log as they were.
pub open spec fn ingest_outcome(
    shards_before: Map<Seq<char>, ShardEntry>,
    shards_after: Map<Seq<char>, ShardEntry>,
    spans_before: Map<(Seq<char>, u64), (u32, Seq<char>)>,
    spans_after: Map<(Seq<char>, u64), (u32, Seq<char>)>,
    audit_before: AuditLog,
    audit_after: AuditLog,
    req: IngestRequest,
    r: Result<IngestResult, IngestError>,
) -> bool {
    &&& !shards_before.dom().contains(req.shard.key()) ==> (r matches Err(IngestError::ConsentDenied(_))
        || r matches Err(IngestError::ShardNotFound(_)))
    &&& shards_before.dom().contains(req.shard.key()) ==> (r is Ok || r matches Err(IngestError::ConsentDenied(_))
        || r matches Err(IngestError::Internal(_)))
    &&& match r {
        Ok(res) => {
            let k = req.shard.key();
            let count = ingest_token_count(req.content@, req.tokens@);
            &&& res.content_id@ == req.content_id@
            &&& res.shard@ == k
            &&& res.token_count == count
            &&& is_ingest_of(shards_after, shards_before, spans_after, spans_before, k, req.tokens@, req.content_id@, count, res.offset)
            &&& AuditLog::is_append_of(audit_after, audit_before, audit_after.entries().last(), audit_after.encodings().last())
            &&& audit_after.entries().last().action == ActionView::Ingest { shard: k, content_id: req.content_id@ }
            &&& audit_after.entries().last().actor == req.consent_token.source_entity@
            &&& audit_after.entries().last().namespace == req.shard.namespace@
        },
        Err(IngestError::ShardNotFound(s)) => {
            &&& !shards_before.dom().contains(req.shard.key())
            &&& s@ == req.shard.key()
            &&& shards_after =~= shards_before
            &&& spans_after =~= spans_before
            &&& audit_after.entries() =~= audit_before.entries()
        },
        Err(IngestError::ConsentDenied(_)) => {
            &&& shards_after =~= shards_before
            &&& spans_after =~= spans_before
            &&& audit_after.entries() =~= audit_before.entries()
        },
        Err(IngestError::CortexUnavailable) => false,
        Err(IngestError::Internal(_)) => {
            &&& shards_before.dom().contains(req.shard.key())
            &&& spans_after =~= spans_before
            &&& audit_after.entries() =~= audit_before.entries()
        },
    }
}

/// How the verifier's answer `consent` decides an ingestion: a refusal is
/// answered with that refusal; an acceptance is never answered with one.
pub open spec fn consent_decides(consent: Result<(), ConsentError>, r: Result<IngestResult, IngestError>) -> bool {
    match consent {
        Err(e) => r matches Err(IngestError::ConsentDenied(x)) && x == e,
        Ok(()) => !(r matches Err(IngestError::ConsentDenied(_))),
    }
}

/// What cortex was asked and answered in an ingestion of `req` into the
/// shards `shards` of `client`: a success replayed a cold shard's history
/// into the slot named by its key and appended the request's tokens to it,
/// both answered with success; an internal error is cortex refusing the one
/// or the other.
pub open spec fn cortex_decides<C: CortexClient>(
    client: C,
    shards: Map<Seq<char>, ShardEntry>,
    req: IngestRequest,
    r: Result<IngestResult, IngestError>,
) -> bool {
    let k = req.shard.key();
    let e = shards[k];
    let loaded = e.meta.state == ShardState::Cold ==> exists|i: CacheInfo| client.load_answer(k, e.tokens, Ok(i));
    match r {
        Ok(_) => loaded && exists|i: CacheInfo| client.append_answer(k, req.tokens@, Ok(i)),
        Err(IngestError::Internal(m)) => {
            ||| (e.meta.state == ShardState::Cold && exists|er: CortexError|
                client.load_answer(k, e.tokens, Err(er)) && m@ == er.message@)
            ||| (loaded && exists|er: CortexError| client.append_answer(k, req.tokens@, Err(er)) && m@ == er.message@)
        },
        _ => true,
    }
}

/// The rest of an ingestion once the consent verifier has answered
/// `consent`: a refusal is answered with that refusal and changes nothing;
/// an acceptance goes on to the shard, the position map and the audit log.
pub fn ingest_with_consent<C: CortexClient, E: AuditEncoder>(
    shards: &mut ShardManager<C>,
    positions: &mut PositionMap,
    audit: &mut AuditLog,
    encoder: &E,
    req: IngestRequest,
    consent: Result<(), ConsentError>,
) -> (r: Result<IngestResult, IngestError>)
    requires
        old(shards).wf(),
        old(positions).wf(),
        old(audit).wf(),
        consent is Ok && old(shards).view().dom().contains(req.shard.key()) ==> old(audit).can_append(),
    ensures
        final(shards).wf(),
        final(positions).wf(),
        final(audit).wf(),
        final(shards).client() == old(shards).client(),
        consent_decides(consent, r),
        cortex_decides(old(shards).client(), old(shards).view(), req, r),
        r is Ok ==> encoder.encodes(final(audit).entries().last().action, final(audit).encodings().last()),
        ingest_outcome(
            old(shards).view(),
            final(shards).view(),
            old(positions).view(),
            final(positions).view(),
            *old(audit),
            *final(audit),
            req,
            r,
        ),
{
    match consent {
        Ok(()) => {},
        Err(e) => {
            return Err(IngestError::ConsentDenied(e));
        },
    }
        // 2. The shard exists and is resident.
        if shards.get_meta(&req.shard).is_none() {
            return Err(IngestError::ShardNotFound(req.shard.to_string()));
        }
        match shards.ensure_resident(&req.shard) {
            Ok(()) => {},
            Err(e) => {
                return Err(IngestError::Internal(e.message()));
            },
        }
        // 3. Append the tokens to the shard.
        let new_count = match shards.append_tokens(&req.shard, req.tokens.as_slice()) {
            Ok(c) => c,
            Err(e) => {
                return Err(IngestError::Internal(e.message()));
            },
        };
        let token_count: u64 = if req.tokens.len() == 0 {
            (req.content.as_str().len() / 4) as u64
        } else {
            req.tokens.len() as u64
        };
        let offset = new_count - req.tokens.len() as u64;
        // 4. Record the position-to-source mapping.
        positions.record(&req.shard, offset, token_count as u32, req.content_id.as_str());
        // 5. Audit.
        let shard_name = req.shard.to_string();
        let action = AuditAction::Ingest { shard: shard_name, content_id: req.content_id.clone() };
        let action_json = encoder.encode_action(&action);
        let detail = encoder.empty_detail();
        let _entry = audit.append(
            action,
            action_json,
            req.consent_token.source_entity.as_str(),
            req.shard.namespace.as_str(),
            detail,
        );
        Ok(IngestResult { content_id: req.content_id, shard: req.shard.to_string(), token_count, offset })
}

/// How many tokens a successful ingestion counts, and the span it records:
/// the given tokens, or, when none are given, the content's length in UTF-8
/// bytes divided by four (rounding down); the position map then resolves
/// exactly that many positions from the offset to the content.
pub proof fn law_ingest_token_count(
    shards_before: Map<Seq<char>, ShardEntry>,
    shards_after: Map<Seq<char>, ShardEntry>,
    spans_before: Map<(Seq<char>, u64), (u32, Seq<char>)>,
    spans_after: Map<(Seq<char>, u64), (u32, Seq<char>)>,
    audit_before: AuditLog,
    audit_after: AuditLog,
    req: IngestRequest,
    r: Result<IngestResult, IngestError>,
)
    requires
        ingest_outcome(shards_before, shards_after, spans_before, spans_after, audit_before, audit_after, req, r),
        r is Ok,
        vstd::utf8::encode_utf8(req.content@).len() <= usize::MAX,
    ensures
        ({
            let res = r->Ok_0;
            &&& req.tokens@.len() == 0 ==> res.token_count as int == vstd::utf8::encode_utf8(req.content@).len() / 4
            &&& req.tokens@.len() > 0 ==> res.token_count == req.tokens@.len() as u64
            &&& spans_after[(req.shard.key(), res.offset)] == (res.token_count as u32, req.content_id@)
        }),
{
    let res = r->Ok_0;
    assert(spans_after.dom().contains((req.shard.key(), res.offset)));
}

} // verus!
