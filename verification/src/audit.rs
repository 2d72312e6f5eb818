use vstd::prelude::*;

use crate::digest::{hex_encode, hex_spec, i64_bits, i64_le_bytes, le_bytes, sha256, sha256_spec, u64_le_bytes};
use crate::time::{now, Timestamp};

verus! {

#[verifier::external_type_specification]
#[verifier::external_body]
pub struct ExJsonValue(serde_json::Value);

/// Calls `<serde_json::Value as Clone>::clone`, a deep copy; the contract
/// claims the copy is the same value.
#[verifier::external_body]
pub(crate) fn clone_json(v: &serde_json::Value) -> (r: serde_json::Value)
    ensures
        r == *v,
{
    v.clone()
}

/// Turns audit actions and details into their stored JSON form; the
/// serializer lives with the storage layer.
pub trait AuditEncoder {
    /// Whether `bytes` is an encoding this encoder may give of `action`. An
    /// encoder that defines none claims nothing (any bytes are allowed).
    open spec fn encodes(&self, action: ActionView, bytes: Seq<u8>) -> bool {
        true
    }

    /// The JSON encoding of an action, which its entry's hash covers.
    fn encode_action(&self, action: &AuditAction) -> (r: Vec<u8>)
        ensures
            self.encodes(action@, r@),
    ;

    /// An empty detail object.
    fn empty_detail(&self) -> serde_json::Value;

    /// The detail recorded with a retrieval: its purpose, query id and the
    /// number of corpus tokens cortex searched.
    fn retrieval_detail(
        &self,
        purpose: &crate::retrieval::RetrievalPurpose,
        query_id: &uuid::Uuid,
        corpus_tokens: u64,
    ) -> serde_json::Value;
}

/// What kind of auditable action occurred.
#[derive(Debug)]
pub enum AuditAction {
    Ingest { shard: String, content_id: String },
    Retrieve { shards: Vec<String>, query_hash: String, hit_count: u32 },
    ShardCreate { shard: String },
    ShardEvict { shard: String },
    ConsentGrant { entity: String },
    ConsentRevoke { entity: String },
}

/// Copies a list of strings.
pub fn clone_strings(v: &Vec<String>) -> (r: Vec<String>)
    ensures
        r@ == v@,
{
    let mut r: Vec<String> = Vec::new();
    let mut i: usize = 0;
    while i < v.len()
        invariant
            i <= v@.len(),
            r@ == v@.subrange(0, i as int),
        decreases v@.len() - i,
    {
        r.push(v[i].clone());
        i = i + 1;
        assert(r@ =~= v@.subrange(0, i as int));
    }
    assert(r@ =~= v@);
    r
}

/// The mathematical content of an audit action.
pub enum ActionView {
    Ingest { shard: Seq<char>, content_id: Seq<char> },
    Retrieve { shards: Seq<Seq<char>>, query_hash: Seq<char>, hit_count: u32 },
    ShardCreate { shard: Seq<char> },
    ShardEvict { shard: Seq<char> },
    ConsentGrant { entity: Seq<char> },
    ConsentRevoke { entity: Seq<char> },
}

impl ActionView {
    /// The variant's name, which audit filters match against.
    pub open spec fn kind_spec(self) -> Seq<char> {
        match self {
            ActionView::Ingest { .. } => "Ingest"@,
            ActionView::Retrieve { .. } => "Retrieve"@,
            ActionView::ShardCreate { .. } => "ShardCreate"@,
            ActionView::ShardEvict { .. } => "ShardEvict"@,
            ActionView::ConsentGrant { .. } => "ConsentGrant"@,
            ActionView::ConsentRevoke { .. } => "ConsentRevoke"@,
        }
    }
}

/// The views of a list of strings.
pub open spec fn strings_view(v: Seq<String>) -> Seq<Seq<char>> {
    v.map_values(|s: String| s@)
}

impl View for AuditAction {
    type V = ActionView;

    open spec fn view(&self) -> ActionView {
        match self {
            AuditAction::Ingest { shard, content_id } => ActionView::Ingest {
                shard: shard@,
                content_id: content_id@,
            },
            AuditAction::Retrieve { shards, query_hash, hit_count } => ActionView::Retrieve {
                shards: strings_view(shards@),
                query_hash: query_hash@,
                hit_count: *hit_count,
            },
            AuditAction::ShardCreate { shard } => ActionView::ShardCreate { shard: shard@ },
            AuditAction::ShardEvict { shard } => ActionView::ShardEvict { shard: shard@ },
            AuditAction::ConsentGrant { entity } => ActionView::ConsentGrant { entity: entity@ },
            AuditAction::ConsentRevoke { entity } => ActionView::ConsentRevoke { entity: entity@ },
        }
    }
}

impl AuditAction {

    pub fn kind(&self) -> (s: &'static str)
        ensures
            s@ == self@.kind_spec(),
    {
        match self {
            AuditAction::Ingest { .. } => "Ingest",
            AuditAction::Retrieve { .. } => "Retrieve",
            AuditAction::ShardCreate { .. } => "ShardCreate",
            AuditAction::ShardEvict { .. } => "ShardEvict",
            AuditAction::ConsentGrant { .. } => "ConsentGrant",
            AuditAction::ConsentRevoke { .. } => "ConsentRevoke",
        }
    }

    pub fn cloned(&self) -> (r: Self)
        ensures
            r@ == self@,
    {
        match self {
            AuditAction::Ingest { shard, content_id } => AuditAction::Ingest {
                shard: shard.clone(),
                content_id: content_id.clone(),
            },
            AuditAction::Retrieve { shards, query_hash, hit_count } => AuditAction::Retrieve {
                shards: clone_strings(shards),
                query_hash: query_hash.clone(),
                hit_count: *hit_count,
            },
            AuditAction::ShardCreate { shard } => AuditAction::ShardCreate { shard: shard.clone() },
            AuditAction::ShardEvict { shard } => AuditAction::ShardEvict { shard: shard.clone() },
            AuditAction::ConsentGrant { entity } => AuditAction::ConsentGrant { entity: entity.clone() },
            AuditAction::ConsentRevoke { entity } => AuditAction::ConsentRevoke {
                entity: entity.clone(),
            },
        }
    }
}

/// A single entry in the hash-chained audit trail.
#[derive(Debug)]
pub struct AuditEntry {
    /// Monotonic sequence number.
    pub seq: u64,
    pub timestamp: Timestamp,
    pub action: AuditAction,
    /// Who performed the action (user ID or service name).
    pub actor: String,
    /// Namespace this action occurred in.
    pub namespace: String,
    /// Additional structured detail (not covered by the hash).
    pub detail: serde_json::Value,
    /// SHA-256 hash of the previous entry (all zeros for the first).
    pub prev_hash: [u8; 32],
    /// SHA-256 hash of this entry.
    pub hash: [u8; 32],
}

/// The mathematical content of an audit entry.
pub struct EntryView {
    pub seq: u64,
    pub timestamp: Timestamp,
    pub action: ActionView,
    pub actor: Seq<char>,
    pub namespace: Seq<char>,
    pub detail: serde_json::Value,
    pub prev_hash: Seq<u8>,
    pub hash: Seq<u8>,
}

impl View for AuditEntry {
    type V = EntryView;

    open spec fn view(&self) -> EntryView {
        EntryView {
            seq: self.seq,
            timestamp: self.timestamp,
            action: self.action@,
            actor: self.actor@,
            namespace: self.namespace@,
            detail: self.detail,
            prev_hash: self.prev_hash@,
            hash: self.hash@,
        }
    }
}

impl AuditEntry {
    pub fn cloned(&self) -> (r: Self)
        ensures
            r@ == self@,
    {
        AuditEntry {
            seq: self.seq,
            timestamp: self.timestamp,
            action: self.action.cloned(),
            actor: self.actor.clone(),
            namespace: self.namespace.clone(),
            detail: clone_json(&self.detail),
            prev_hash: self.prev_hash,
            hash: self.hash,
        }
    }

    /// The entry's hash as lower-case hexadecimal, the form the API shows.
    pub fn hash_hex(&self) -> (s: String)
        ensures
            s@ == hex_spec(self.hash@),
    {
        hex_encode(self.hash.as_slice())
    }
}

/// The bytes an entry's hash covers: the previous hash, the sequence number
/// and the timestamp in microseconds (both little-endian), the encoded
/// action, the actor and the namespace (both UTF-8).
pub open spec fn hash_input(
    prev_hash: Seq<u8>,
    seq: u64,
    micros: int,
    action_json: Seq<u8>,
    actor: Seq<char>,
    namespace: Seq<char>,
) -> Seq<u8> {
    prev_hash + le_bytes(seq as nat, 8) + le_bytes(i64_bits(micros as i64), 8) + action_json
        + vstd::utf8::encode_utf8(actor) + vstd::utf8::encode_utf8(namespace)
}

/// The hash an entry should carry, given the encoding of its action.
pub open spec fn entry_digest(e: EntryView, action_json: Seq<u8>) -> Seq<u8> {
    sha256_spec(
        hash_input(e.prev_hash, e.seq, e.timestamp.micros_spec(), action_json, e.actor, e.namespace),
    )
}

/// Computes the chain hash of an entry from its parts.
pub fn compute_entry_hash(
    prev_hash: &[u8; 32],
    seq: u64,
    timestamp: Timestamp,
    action_json: &[u8],
    actor: &str,
    namespace: &str,
) -> (h: [u8; 32])
    requires
        timestamp.wf(),
    ensures
        h@ == sha256_spec(
            hash_input(prev_hash@, seq, timestamp.micros_spec(), action_json@, actor@, namespace@),
        ),
{
    let mut buf: Vec<u8> = Vec::new();
    buf.extend_from_slice(prev_hash.as_slice());
    let seq_bytes = u64_le_bytes(seq);
    buf.extend_from_slice(seq_bytes.as_slice());
    let micros = timestamp.timestamp_micros();
    let ts_bytes = i64_le_bytes(micros);
    buf.extend_from_slice(ts_bytes.as_slice());
    buf.extend_from_slice(action_json);
    buf.extend_from_slice(actor.as_bytes());
    buf.extend_from_slice(namespace.as_bytes());
    assert(buf@ =~= hash_input(prev_hash@, seq, timestamp.micros_spec(), action_json@, actor@, namespace@));
    sha256(buf.as_slice())
}


/// Filter criteria for querying the audit log.
#[derive(Debug, Clone)]
pub struct AuditFilter {
    pub namespace: Option<String>,
    pub actor: Option<String>,
    /// Filter by action kind name (e.g. "Ingest", "Retrieve").
    pub action_type: Option<String>,
    pub from: Option<Timestamp>,
    pub to: Option<Timestamp>,
    pub limit: Option<u64>,
    pub offset: Option<u64>,
}

impl Default for AuditFilter {
    fn default() -> (f: Self)
        ensures
            f.namespace is None && f.actor is None && f.action_type is None && f.from is None
                && f.to is None && f.limit is None && f.offset is None,
    {
        AuditFilter {
            namespace: None,
            actor: None,
            action_type: None,
            from: None,
            to: None,
            limit: None,
            offset: None,
        }
    }
}

/// Whether an entry passes every criterion that the filter sets: same
/// namespace, same actor, same action kind, not before `from`, not after `to`.
pub open spec fn matches_spec(e: EntryView, f: AuditFilter) -> bool {
    &&& (f.namespace matches Some(ns) ==> e.namespace == ns@)
    &&& (f.actor matches Some(a) ==> e.actor == a@)
    &&& (f.action_type matches Some(t) ==> e.action.kind_spec() == t@)
    &&& (f.from matches Some(from) ==> !e.timestamp.before(from))
    &&& (f.to matches Some(to) ==> !to.before(e.timestamp))
}

/// The entries that pass the filter, in order.
pub open spec fn matching(entries: Seq<EntryView>, f: AuditFilter) -> Seq<EntryView>
    decreases entries.len(),
{
    if entries.len() == 0 {
        Seq::empty()
    } else {
        let rest = matching(entries.drop_last(), f);
        if matches_spec(entries.last(), f) {
            rest.push(entries.last())
        } else {
            rest
        }
    }
}

/// The page of matching entries that a query returns: skip `offset`
/// (default 0) matches, then take up to `limit` (default 100) of them; a
/// limit of 0 still lets one entry through.
pub open spec fn query_spec(entries: Seq<EntryView>, f: AuditFilter) -> Seq<EntryView> {
    let m = matching(entries, f);
    let offset: int = match f.offset { Some(o) => o as int, None => 0 };
    let limit: int = match f.limit { Some(l) => if l == 0 { 1 } else { l as int }, None => 100 };
    let rest = if offset < m.len() { m.subrange(offset, m.len() as int) } else { Seq::empty() };
    if limit < rest.len() { rest.subrange(0, limit) } else { rest }
}

pub proof fn lemma_matching_append(a: Seq<EntryView>, b: Seq<EntryView>, f: AuditFilter)
    ensures
        matching(a + b, f) == matching(a, f) + matching(b, f),
    decreases b.len(),
{
    if b.len() == 0 {
        assert(a + b =~= a);
        assert(matching(a, f) + matching(b, f) =~= matching(a, f));
    } else {
        lemma_matching_append(a, b.drop_last(), f);
        assert((a + b).drop_last() =~= a + b.drop_last());
        assert((a + b).last() == b.last());
        if matches_spec(b.last(), f) {
            assert(matching(a, f) + matching(b, f) =~= (matching(a, f) + matching(b.drop_last(), f)).push(b.last()));
        } else {
            assert(matching(a, f) + matching(b, f) =~= matching(a, f) + matching(b.drop_last(), f));
        }
    }
}

/// Compares two string slices.
pub fn str_eq(a: &str, b: &str) -> (r: bool)
    ensures
        r == (a@ == b@),
{
    let x = a.to_owned();
    let y = b.to_owned();
    x == y
}

/// Compares two hashes byte by byte.
pub fn bytes_eq(a: &[u8; 32], b: &[u8; 32]) -> (r: bool)
    ensures
        r == (a@ == b@),
{
    let mut i: usize = 0;
    while i < 32
        invariant
            i <= 32,
            a@.len() == 32,
            b@.len() == 32,
            forall|k: int| 0 <= k < i ==> a@[k] == b@[k],
        decreases 32 - i,
    {
        if a[i] != b[i] {
            return false;
        }
        i = i + 1;
    }
    assert(a@ =~= b@);
    true
}

/// An all-zero hash, the link before the first entry.
pub open spec fn zero_hash() -> Seq<u8> {
    Seq::new(32, |i: int| 0u8)
}

/// Hash-chained audit log. Entries are kept in sequence order; next to each
/// entry the log keeps the encoded bytes of its action, which its hash covers.
pub struct AuditLog {
    entries: Vec<AuditEntry>,
    encoded: Vec<Vec<u8>>,
}

impl AuditLog {
    pub closed spec fn entries(self) -> Seq<EntryView> {
        self.entries@.map_values(|e: AuditEntry| e@)
    }

    pub closed spec fn encodings(self) -> Seq<Seq<u8>> {
        self.encoded@.map_values(|v: Vec<u8>| v@)
    }

    /// Entries strictly ascending by sequence number, one encoding each,
    /// every timestamp in range.
    pub closed spec fn wf(self) -> bool {
        &&& self.entries@.len() == self.encoded@.len()
        &&& forall|i: int, j: int|
            0 <= i < j < self.entries@.len() ==> #[trigger] self.entries@[i].seq < #[trigger] self.entries@[j].seq
        &&& forall|i: int| 0 <= i < self.entries@.len() ==> (#[trigger] self.entries@[i]).timestamp.wf()
    }

    pub proof fn lemma_wf(self)
        requires
            self.wf(),
        ensures
            self.entries().len() == self.encodings().len(),
            forall|i: int, j: int|
                0 <= i < j < self.entries().len() ==> #[trigger] self.entries()[i].seq
                    < #[trigger] self.entries()[j].seq,
            forall|i: int| 0 <= i < self.entries().len() ==> (#[trigger] self.entries()[i]).timestamp.wf(),
    {
        assert forall|i: int, j: int|
            0 <= i < j < self.entries().len() implies #[trigger] self.entries()[i].seq
            < #[trigger] self.entries()[j].seq by {
            assert(self.entries@[i].seq < self.entries@[j].seq);
        }
        assert forall|i: int| 0 <= i < self.entries().len() implies (
        #[trigger] self.entries()[i]).timestamp.wf() by {
            assert(self.entries@[i].timestamp.wf());
        }
    }

    /// The sequence number and previous hash that the next entry gets.
    pub open spec fn next_seq(self) -> int {
        if self.entries().len() == 0 {
            0
        } else {
            self.entries().last().seq + 1
        }
    }

    pub open spec fn next_prev_hash(self) -> Seq<u8> {
        if self.entries().len() == 0 {
            zero_hash()
        } else {
            self.entries().last().hash
        }
    }

    /// Another entry fits: the last sequence number is not the largest.
    pub open spec fn can_append(self) -> bool {
        self.next_seq() <= u64::MAX
    }

    /// `after` is `before` with `e` added at the end, encoded as `enc`, linked
    /// to the previous entry and carrying the hash of its contents.
    pub open spec fn is_append_of(after: AuditLog, before: AuditLog, e: EntryView, enc: Seq<u8>) -> bool {
        &&& after.entries() == before.entries().push(e)
        &&& after.encodings() == before.encodings().push(enc)
        &&& e.seq == before.next_seq()
        &&& e.prev_hash == before.next_prev_hash()
        &&& e.hash == entry_digest(e, enc)
    }

    /// Whether some entry carries sequence number `s`.
    pub open spec fn has_seq(self, s: int) -> bool {
        exists|i: int| 0 <= i < self.entries().len() && #[trigger] self.entries()[i].seq == s
    }

    /// The position of the entry with sequence number `s`.
    pub open spec fn index_of(self, s: int) -> int {
        choose|i: int| 0 <= i < self.entries().len() && #[trigger] self.entries()[i].seq == s
    }

    /// The entry at position `i` carries the hash of its own contents.
    pub open spec fn hash_ok(self, i: int) -> bool {
        self.entries()[i].hash == entry_digest(self.entries()[i], self.encodings()[i])
    }

    /// What `verify_chain(from, to)` checks: every sequence number from
    /// `from` to `to` is present, each of those entries carries the hash of
    /// its contents, and each after the first links to the hash of the one
    /// before it.
    pub open spec fn chain_ok(self, from: int, to: int) -> bool {
        forall|s: int|
            from <= s <= to ==> {
                &&& #[trigger] self.has_seq(s)
                &&& self.hash_ok(self.index_of(s))
                &&& s > from ==> self.entries()[self.index_of(s)].prev_hash == self.entries()[self.index_of(
                    s - 1,
                )].hash
            }
    }

    pub fn new() -> (log: Self)
        ensures
            log.wf(),
            log.entries().len() == 0,
    {
        let log = AuditLog { entries: Vec::new(), encoded: Vec::new() };
        assert(log.entries() =~= Seq::<EntryView>::empty());
        log
    }

    /// Number of entries held.
    pub fn len(&self) -> (n: usize)
        requires
            self.wf(),
        ensures
            n == self.entries().len(),
    {
        self.entries.len()
    }

    /// Whether another entry fits.
    pub fn has_room(&self) -> (b: bool)
        requires
            self.wf(),
        ensures
            b == self.can_append(),
    {
        let n = self.entries.len();
        n == 0 || self.entries[n - 1].seq < u64::MAX
    }

    /// Puts back an entry read from storage, with the encoding of its
    /// action. Refused (and the log unchanged) when its sequence number does
    /// not come after the last one held or its timestamp is out of range.
    pub fn restore(&mut self, entry: AuditEntry, action_json: Vec<u8>) -> (ok: bool)
        requires
            old(self).wf(),
        ensures
            final(self).wf(),
            ok == (entry.timestamp.wf() && (old(self).entries().len() == 0
                || old(self).entries().last().seq < entry.seq)),
            ok ==> final(self).entries() == old(self).entries().push(entry@)
                && final(self).encodings() == old(self).encodings().push(action_json@),
            !ok ==> final(self).entries() == old(self).entries() && final(self).encodings()
                == old(self).encodings(),
    {
        let n = self.entries.len();
        if !(entry.timestamp.secs > -crate::time::MAX_ABS_SECS && entry.timestamp.secs < crate::time::MAX_ABS_SECS
            && entry.timestamp.nanos < 2_000_000_000) {
            return false;
        }
        if n > 0 && self.entries[n - 1].seq >= entry.seq {
            return false;
        }
        let ghost old_entries = self.entries@;
        self.entries.push(entry);
        self.encoded.push(action_json);
        proof {
            assert forall|i: int, j: int|
                0 <= i < j < self.entries@.len() implies #[trigger] self.entries@[i].seq
                < #[trigger] self.entries@[j].seq by {
                if j == n as int && i < n as int - 1 {
                    assert(old_entries[i].seq < old_entries[n as int - 1].seq);
                }
            }
            assert(self.entries() =~= old(self).entries().push(entry@));
            assert(self.encodings() =~= old(self).encodings().push(action_json@));
        }
        true
    }

    /// Append an entry stamped with the given time, computing its chain link.
    pub fn append_at(
        &mut self,
        action: AuditAction,
        action_json: Vec<u8>,
        actor: &str,
        namespace: &str,
        detail: serde_json::Value,
        timestamp: Timestamp,
    ) -> (e: AuditEntry)
        requires
            old(self).wf(),
            old(self).can_append(),
            timestamp.wf(),
        ensures
            final(self).wf(),
            AuditLog::is_append_of(*final(self), *old(self), e@, action_json@),
            e.timestamp == timestamp,
            e@.action == action@,
            e.actor@ == actor@,
            e.namespace@ == namespace@,
            e.detail == detail,
    {
        let n = self.entries.len();
        let (seq, prev_hash) = if n == 0 {
            (0u64, [0u8; 32])
        } else {
            (self.entries[n - 1].seq + 1, self.entries[n - 1].hash)
        };
        proof {
            if n == 0 {
                assert(prev_hash@ =~= zero_hash());
            }
        }
        let hash = compute_entry_hash(&prev_hash, seq, timestamp, action_json.as_slice(), actor, namespace);
        let entry = AuditEntry {
            seq,
            timestamp,
            action,
            actor: actor.to_owned(),
            namespace: namespace.to_owned(),
            detail,
            prev_hash,
            hash,
        };
        let copy = entry.cloned();
        let ghost old_entries = self.entries@;
        self.entries.push(entry);
        self.encoded.push(action_json);
        proof {
            assert forall|i: int, j: int|
                0 <= i < j < self.entries@.len() implies #[trigger] self.entries@[i].seq
                < #[trigger] self.entries@[j].seq by {
                if j == n as int && i < n as int - 1 {
                    assert(old_entries[i].seq < old_entries[n as int - 1].seq);
                }
            }
            assert(self.entries() =~= old(self).entries().push(copy@));
            assert(self.encodings() =~= old(self).encodings().push(action_json@));
        }
        copy
    }

    /// Append an entry stamped with the current time, computing its chain
    /// link.
    pub fn append(
        &mut self,
        action: AuditAction,
        action_json: Vec<u8>,
        actor: &str,
        namespace: &str,
        detail: serde_json::Value,
    ) -> (e: AuditEntry)
        requires
            old(self).wf(),
            old(self).can_append(),
        ensures
            final(self).wf(),
            AuditLog::is_append_of(*final(self), *old(self), e@, action_json@),
            e.timestamp.wf(),
            e@.action == action@,
            e.actor@ == actor@,
            e.namespace@ == namespace@,
            e.detail == detail,
    {
        let timestamp = now();
        self.append_at(action, action_json, actor, namespace, detail, timestamp)
    }

    fn matches_filter(entry: &AuditEntry, filter: &AuditFilter) -> (b: bool)
        ensures
            b == matches_spec(entry@, *filter),
    {
        if let Some(ns) = &filter.namespace {
            if entry.namespace != *ns {
                return false;
            }
        }
        if let Some(actor) = &filter.actor {
            if entry.actor != *actor {
                return false;
            }
        }
        if let Some(action_type) = &filter.action_type {
            let kind = entry.action.kind();
            if !str_eq(kind, action_type.as_str()) {
                return false;
            }
        }
        if let Some(from) = &filter.from {
            if entry.timestamp.is_before(from) {
                return false;
            }
        }
        if let Some(to) = &filter.to {
            if to.is_before(&entry.timestamp) {
                return false;
            }
        }
        true
    }

    /// Query the audit log with optional filters.
    pub fn query(&self, filter: &AuditFilter) -> (r: Vec<AuditEntry>)
        requires
            self.wf(),
        ensures
            r@.map_values(|e: AuditEntry| e@) == query_spec(self.entries(), *filter),
    {
        let ghost all = self.entries();
        let mut results: Vec<AuditEntry> = Vec::new();
        let mut skipped: u64 = 0;
        let offset: u64 = match filter.offset { Some(o) => o, None => 0 };
        let limit: u64 = match filter.limit { Some(l) => l, None => 100 };
        let ghost lim: int = if limit == 0 { 1 } else { limit as int };
        let mut i: usize = 0;
        while i < self.entries.len()
            invariant
                self.wf(),
                all == self.entries(),
                i <= all.len(),
                offset as int == (match filter.offset { Some(o) => o as int, None => 0int }),
                lim == (match filter.limit { Some(l) => if l == 0 { 1int } else { l as int }, None => 100int }),
                limit as int == (match filter.limit { Some(l) => l as int, None => 100int }),
                skipped as int == if offset < matching(all.subrange(0, i as int), *filter).len() {
                    offset as int
                } else {
                    matching(all.subrange(0, i as int), *filter).len() as int
                },
                results@.map_values(|e: AuditEntry| e@) == (if offset < matching(all.subrange(0, i as int), *filter).len() {
                    matching(all.subrange(0, i as int), *filter).subrange(offset as int, matching(all.subrange(0, i as int), *filter).len() as int)
                } else {
                    Seq::empty()
                }),
                results@.len() < lim,
            decreases all.len() - i,
        {
            let ghost m_old = matching(all.subrange(0, i as int), *filter);
            proof {
                assert(all.subrange(0, i + 1).drop_last() =~= all.subrange(0, i as int));
                assert(all.subrange(0, i + 1).last() == all[i as int]);
                assert(all[i as int] == self.entries@[i as int]@);
            }
            let entry = &self.entries[i];
            i = i + 1;
            if !Self::matches_filter(entry, filter) {
                assert(matching(all.subrange(0, i as int), *filter) == m_old);
                continue;
            }
            let ghost m_new = matching(all.subrange(0, i as int), *filter);
            assert(m_new == m_old.push(entry@));
            if skipped < offset {
                skipped = skipped + 1;
                proof {
                    if offset < m_new.len() {
                        assert(m_new.len() == offset + 1);
                        assert(m_new.subrange(offset as int, m_new.len() as int) =~= Seq::<EntryView>::empty());
                    }
                }
                continue;
            }
            let ghost old_results = results@;
            results.push(entry.cloned());
            proof {
                assert(results@.map_values(|e: AuditEntry| e@) =~= old_results.map_values(|e: AuditEntry| e@).push(entry@));
                assert(m_new.subrange(offset as int, m_new.len() as int) =~= (if offset < m_old.len() {
                    m_old.subrange(offset as int, m_old.len() as int)
                } else {
                    Seq::empty()
                }).push(entry@));
            }
            if results.len() as u64 >= limit || limit == 0 {
                proof {
                    let m = matching(all, *filter);
                    lemma_matching_append(all.subrange(0, i as int), all.subrange(i as int, all.len() as int), *filter);
                    assert(all.subrange(0, i as int) + all.subrange(i as int, all.len() as int) =~= all);
                    let tail = matching(all.subrange(i as int, all.len() as int), *filter);
                    assert(m == m_new + tail);
                    assert(m.subrange(offset as int, m.len() as int).subrange(0, lim) =~= m_new.subrange(offset as int, m_new.len() as int));
                }
                return results;
            }
        }
        proof {
            assert(all.subrange(0, i as int) =~= all);
        }
        results
    }

    /// With ascending sequence numbers, the entry found at a position is the
    /// one `index_of` names.
    proof fn lemma_index_of(self, i: int)
        requires
            self.wf(),
            0 <= i < self.entries().len(),
        ensures
            self.has_seq(self.entries()[i].seq as int),
            self.index_of(self.entries()[i].seq as int) == i,
    {
        self.lemma_wf();
        let s = self.entries()[i].seq as int;
        assert(self.entries()[i].seq == s);
        let k = self.index_of(s);
        if k < i {
            assert(self.entries()[k].seq < self.entries()[i].seq);
        } else if k > i {
            assert(self.entries()[i].seq < self.entries()[k].seq);
        }
    }

    /// Verify that the hash chain is intact over a range of sequence numbers.
    #[verifier::spinoff_prover]
    #[verifier::rlimit(40)]
    pub fn verify_chain(&self, from_seq: u64, to_seq: u64) -> (ok: bool)
        requires
            self.wf(),
        ensures
            ok == self.chain_ok(from_seq as int, to_seq as int),
    {
        proof {
            self.lemma_wf();
        }
        let ghost es = self.entries();
        let ghost encs = self.encodings();
        if from_seq > to_seq {
            return true;
        }
        let n = self.entries.len();
        // Find the first entry whose sequence number is not below `from_seq`.
        let mut a: usize = 0;
        while a < n && self.entries[a].seq < from_seq
            invariant
                self.wf(),
                es == self.entries(),
                n == es.len(),
                a <= n,
                forall|k: int| 0 <= k < a ==> #[trigger] es[k].seq < from_seq,
            decreases n - a,
        {
            assert(es[a as int] == self.entries@[a as int]@);
            a = a + 1;
        }
        if a >= n || self.entries[a].seq != from_seq {
            proof {
                if a < n {
                    assert(es[a as int] == self.entries@[a as int]@);
                }
                if self.has_seq(from_seq as int) {
                    let k = choose|k: int| 0 <= k < es.len() && #[trigger] es[k].seq == from_seq;
                    if k >= a {
                        if k > a {
                            assert(es[a as int].seq < es[k].seq);
                        }
                    }
                }
                assert(!self.has_seq(from_seq as int));
            }
            return false;
        }
        let mut i: usize = a;
        let mut s: u64 = from_seq;
        loop
            invariant
                self.wf(),
                es == self.entries(),
                encs == self.encodings(),
                n == es.len(),
                es.len() == encs.len(),
                from_seq <= s <= to_seq,
                a <= i < n,
                i - a == s - from_seq,
                forall|k: int| a <= k <= i ==> #[trigger] es[k].seq == from_seq + (k - a),
                forall|t: int| from_seq <= t < s ==> {
                    &&& #[trigger] self.has_seq(t)
                    &&& self.hash_ok(self.index_of(t))
                    &&& t > from_seq ==> es[self.index_of(t)].prev_hash == es[self.index_of(t - 1)].hash
                },
            decreases to_seq - s,
        {
            let entry = &self.entries[i];
            let enc = &self.encoded[i];
            proof {
                assert(es[i as int] == entry@);
                assert(encs[i as int] == enc@);
                self.lemma_index_of(i as int);
                if s > from_seq {
                    self.lemma_index_of(i - 1);
                    assert(es[i - 1].seq == s - 1);
                }
            }
            if s > from_seq {
                let prev = &self.entries[i - 1];
                assert(es[i - 1] == prev@);
                if !bytes_eq(&entry.prev_hash, &prev.hash) {
                    return false;
                }
            }
            let computed = compute_entry_hash(
                &entry.prev_hash,
                entry.seq,
                entry.timestamp,
                enc.as_slice(),
                entry.actor.as_str(),
                entry.namespace.as_str(),
            );
            if !bytes_eq(&computed, &entry.hash) {
                return false;
            }
            proof {
                assert(self.index_of(s as int) == i);
                assert(self.hash_ok(i as int));
                if s > from_seq {
                    assert(self.index_of(s - 1) == i - 1);
                }
                assert(self.has_seq(s as int) && self.hash_ok(self.index_of(s as int)) && (s > from_seq
                    ==> es[self.index_of(s as int)].prev_hash == es[self.index_of(s - 1)].hash));
            }
            if s == to_seq {
                proof {
                    assert forall|t: int| from_seq <= t <= to_seq implies {
                        &&& #[trigger] self.has_seq(t)
                        &&& self.hash_ok(self.index_of(t))
                        &&& t > from_seq ==> es[self.index_of(t)].prev_hash == es[self.index_of(t - 1)].hash
                    } by {
                        if t < s {
                            assert(self.has_seq(t));
                        }
                    }
                }
                return true;
            }
            let ghost s_prev = s as int;
            s = s + 1;
            i = i + 1;
            proof {
                assert forall|t: int| from_seq <= t < s implies {
                    &&& #[trigger] self.has_seq(t)
                    &&& self.hash_ok(self.index_of(t))
                    &&& t > from_seq ==> es[self.index_of(t)].prev_hash == es[self.index_of(t - 1)].hash
                } by {
                    if t < s_prev {
                        assert(self.has_seq(t));
                    }
                }
            }
            if i >= n || self.entries[i].seq != s {
                proof {
                    if i < n {
                        assert(es[i as int] == self.entries@[i as int]@);
                        assert(es[i - 1].seq < es[i as int].seq);
                    }
                    if self.has_seq(s as int) {
                        let k = choose|k: int| 0 <= k < es.len() && #[trigger] es[k].seq == s;
                        if k < i {
                            if k < i - 1 {
                                assert(es[k].seq < es[i - 1].seq);
                            }
                        } else if k > i {
                            assert(es[i as int].seq < es[k].seq);
                        }
                    }
                    assert(!self.has_seq(s as int));
                }
                return false;
            }
            proof {
                assert(es[i as int] == self.entries@[i as int]@);
            }
        }
    }
}

/// Appending keeps an intact chain intact: when the entries from `from` up
/// to the last one verify (or `from` is the sequence number the new entry
/// gets), then after an append the chain verifies from `from` up to the new
/// entry. In particular a log built by appends alone verifies over its whole
/// range.
pub proof fn law_append_extends_chain(before: AuditLog, after: AuditLog, e: EntryView, enc: Seq<u8>, from: int)
    requires
        before.wf(),
        after.wf(),
        AuditLog::is_append_of(after, before, e, enc),
        0 <= from <= before.next_seq(),
        from < before.next_seq() ==> before.chain_ok(from, before.next_seq() - 1),
    ensures
        after.chain_ok(from, e.seq as int),
{
    before.lemma_wf();
    after.lemma_wf();
    let n = before.entries().len() as int;
    assert(after.entries()[n] == e);
    assert forall|s: int| from <= s <= e.seq implies {
        &&& #[trigger] after.has_seq(s)
        &&& after.hash_ok(after.index_of(s))
        &&& s > from ==> after.entries()[after.index_of(s)].prev_hash == after.entries()[after.index_of(
            s - 1,
        )].hash
    } by {
        if s < e.seq {
            assert(before.has_seq(s));
            let k = before.index_of(s);
            assert(after.entries()[k] == before.entries()[k]);
            assert(after.encodings()[k] == before.encodings()[k]);
            after.lemma_index_of(k);
            if s > from {
                assert(before.has_seq(s - 1));
                let k2 = before.index_of(s - 1);
                assert(after.entries()[k2] == before.entries()[k2]);
                after.lemma_index_of(k2);
            }
        } else {
            after.lemma_index_of(n);
            assert(after.encodings()[n] == enc);
            if s > from {
                assert(n > 0);
                assert(after.entries()[n - 1] == before.entries().last());
                after.lemma_index_of(n - 1);
            }
        }
    }
}

/// Tampering is evident: an entry whose stored hash does not cover its
/// contents, or that does not link to the hash of the entry before it, makes
/// every verification over a range that holds it fail.
pub proof fn law_tamper_detected(log: AuditLog, from: int, to: int, i: int)
    requires
        log.wf(),
        0 <= i < log.entries().len(),
        from <= log.entries()[i].seq <= to,
        !log.hash_ok(i) || (from < log.entries()[i].seq && 0 < i
            && log.entries()[i].prev_hash != log.entries()[i - 1].hash),
    ensures
        !log.chain_ok(from, to),
{
    log.lemma_wf();
    let s = log.entries()[i].seq as int;
    log.lemma_index_of(i);
    if log.chain_ok(from, to) {
        assert(log.has_seq(s));
        if log.hash_ok(i) {
            assert(log.has_seq(s - 1));
            let k = log.index_of(s - 1);
            assert(0 <= k < log.entries().len() && log.entries()[k].seq == s - 1);
            if k < i - 1 {
                assert(log.entries()[k].seq < log.entries()[i - 1].seq);
                assert(log.entries()[i - 1].seq < log.entries()[i].seq);
            } else if k > i - 1 {
                if k > i {
                    assert(log.entries()[i].seq < log.entries()[k].seq);
                }
            }
            assert(k == i - 1);
        }
    }
}

/// A verified range stays verified over any shorter range with the same
/// start.
pub proof fn lemma_chain_ok_shorter(log: AuditLog, from: int, to: int, shorter: int)
    requires
        log.chain_ok(from, to),
        shorter <= to,
    ensures
        log.chain_ok(from, shorter),
{
    assert forall|s: int| from <= s <= shorter implies {
        &&& #[trigger] log.has_seq(s)
        &&& log.hash_ok(log.index_of(s))
        &&& s > from ==> log.entries()[log.index_of(s)].prev_hash == log.entries()[log.index_of(s - 1)].hash
    } by {
        assert(log.has_seq(s));
    }
}

/// A history of appends: each log is the one before with one entry
/// appended, starting from any log.
pub open spec fn is_append_history(logs: Seq<AuditLog>) -> bool {
    &&& logs.len() > 0
    &&& forall|i: int| 0 <= i < logs.len() ==> (#[trigger] logs[i]).wf()
    &&& forall|i: int|
        0 < i < logs.len() ==> AuditLog::is_append_of(
            #[trigger] logs[i],
            logs[i - 1],
            logs[i].entries().last(),
            logs[i].encodings().last(),
        )
}

/// Entries written by appends verify: over any range of the sequence
/// numbers appended since a log was taken (whatever it held before), the
/// log verifies; so a log built by appends alone, from the empty log,
/// verifies over any range of the numbers it holds. An empty range verifies
/// in any log.
pub proof fn law_appended_log_verifies(logs: Seq<AuditLog>, from: int, to: int)
    requires
        is_append_history(logs),
        logs[0].next_seq() <= from,
        to < logs.last().next_seq(),
    ensures
        logs.last().chain_ok(from, to),
    decreases logs.len(),
{
    let last = logs.last();
    if from > to {
        return;
    }
    if logs.len() == 1 {
        return;
    }
    let n = logs.len() - 1;
    let before = logs[n - 1];
    let prefix = logs.subrange(0, n);
    assert(prefix.last() == before);
    assert(is_append_history(prefix)) by {
        assert forall|i: int| 0 <= i < prefix.len() implies (#[trigger] prefix[i]).wf() by {
            assert(prefix[i] == logs[i]);
        }
        assert forall|i: int| 0 < i < prefix.len() implies AuditLog::is_append_of(
            #[trigger] prefix[i],
            prefix[i - 1],
            prefix[i].entries().last(),
            prefix[i].encodings().last(),
        ) by {
            assert(prefix[i] == logs[i]);
            assert(prefix[i - 1] == logs[i - 1]);
        }
    }
    assert(logs[n] == last);
    assert(AuditLog::is_append_of(last, before, last.entries().last(), last.encodings().last()));
    let e = last.entries().last();
    assert(last.next_seq() == e.seq + 1);
    if from < before.next_seq() {
        law_appended_log_verifies(prefix, from, before.next_seq() - 1);
    }
    law_append_extends_chain(before, last, e, last.encodings().last(), from);
    lemma_chain_ok_shorter(last, from, e.seq as int, to);
}

/// An empty range verifies in any log.
pub proof fn law_empty_range_verifies(log: AuditLog, from: int, to: int)
    requires
        from > to,
    ensures
        log.chain_ok(from, to),
{
}

/// A namespace filter keeps exactly the entries of that namespace: with
/// the namespace set, an entry passes iff its namespace equals the filter's
/// and it passes the same filter without the namespace. So every entry a
/// namespace-filtered query returns is of that namespace, and a query over
/// a log adds, to what the same query without the namespace would skip or
/// keep, nothing of another namespace.
pub proof fn law_namespace_filter_is_equality(e: EntryView, f: AuditFilter, ns: String)
    requires
        f.namespace == Some(ns),
    ensures
        matches_spec(e, f) <==> (e.namespace == ns@ && matches_spec(e, AuditFilter { namespace: None, ..f })),
        forall|i: int|
            0 <= i < query_spec(seq![e], f).len() ==> (#[trigger] query_spec(seq![e], f)[i]).namespace == ns@,
{
    let one = seq![e];
    assert(one.drop_last() =~= Seq::<EntryView>::empty());
    assert(matching(one, f) == (if matches_spec(e, f) { seq![e] } else { Seq::<EntryView>::empty() })) by {
        assert(matching(one.drop_last(), f) =~= Seq::<EntryView>::empty());
        assert(Seq::<EntryView>::empty().push(e) =~= seq![e]);
    }
    assert forall|i: int| 0 <= i < query_spec(one, f).len() implies (#[trigger] query_spec(one, f)[i]).namespace
        == ns@ by {
        let m = matching(one, f);
        let offset: int = match f.offset { Some(o) => o as int, None => 0 };
        assert(m.len() > 0);
    }
}

/// Every entry that a query with a namespace filter returns, from any log,
/// is of that namespace.
pub proof fn law_query_namespace(entries: Seq<EntryView>, f: AuditFilter, ns: String)
    requires
        f.namespace == Some(ns),
    ensures
        forall|i: int| 0 <= i < query_spec(entries, f).len() ==> (#[trigger] query_spec(entries, f)[i]).namespace
            == ns@,
{
    lemma_matching_sound(entries, f);
    let m = matching(entries, f);
    let offset: int = match f.offset { Some(o) => o as int, None => 0 };
    let limit: int = match f.limit { Some(l) => if l == 0 { 1 } else { l as int }, None => 100 };
    let rest = if offset < m.len() { m.subrange(offset, m.len() as int) } else { Seq::<EntryView>::empty() };
    assert forall|i: int| 0 <= i < query_spec(entries, f).len() implies (#[trigger] query_spec(entries, f)[i]).namespace
        == ns@ by {
        assert(query_spec(entries, f)[i] == rest[i]);
        assert(rest[i] == m[offset + i]);
        assert(matches_spec(m[offset + i], f));
    }
}

/// Every entry that passes the filter's selection passes the filter.
proof fn lemma_matching_sound(entries: Seq<EntryView>, f: AuditFilter)
    ensures
        forall|i: int| 0 <= i < matching(entries, f).len() ==> matches_spec(#[trigger] matching(entries, f)[i], f),
    decreases entries.len(),
{
    if entries.len() > 0 {
        lemma_matching_sound(entries.drop_last(), f);
        let rest = matching(entries.drop_last(), f);
        assert forall|i: int| 0 <= i < matching(entries, f).len() implies matches_spec(
            #[trigger] matching(entries, f)[i],
            f,
        ) by {
            if i < rest.len() {
                assert(matching(entries, f)[i] == rest[i]);
            }
        }
    }
}

} // verus!
