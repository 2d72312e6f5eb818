use vstd::prelude::*;

use crate::cortex::{CacheInfo, CortexClient, CortexError, CortexRetrievalResponse};
use crate::shard::{ShardId, ShardMeta, ShardState};
use crate::text::{is_prefix, lemma_seq_lt_irreflexive, lemma_seq_lt_total, lemma_seq_lt_transitive, push_char, push_str, seq_lt, starts_with, str_lt};
use crate::time::now;

verus! {

/// The stored state of one shard: its metadata and the token history that
/// built its cache.
pub struct ShardEntry {
    pub meta: ShardMeta,
    pub tokens: Seq<u32>,
}

struct ShardRecord {
    key: String,
    meta: ShardMeta,
    tokens: Vec<u32>,
}

impl ShardRecord {
    spec fn entry(self) -> ShardEntry {
        ShardEntry { meta: self.meta, tokens: self.tokens@ }
    }
}

/// Why a shard operation failed.
#[derive(Debug)]
pub enum ShardError {
    /// Creating a shard whose key is taken; carries the key.
    AlreadyExists(String),
    /// No shard under the key; carries the key.
    NotFound(String),
    /// Cortex refused or failed the call.
    Cortex(CortexError),
}

impl ShardError {
    pub open spec fn message_spec(self) -> Seq<char> {
        match self {
            ShardError::AlreadyExists(k) => "shard already exists: "@ + k@,
            ShardError::NotFound(k) => "shard not found: "@ + k@,
            ShardError::Cortex(e) => e.message@,
        }
    }

    /// The human-readable description of the error.
    pub fn message(&self) -> (s: String)
        ensures
            s@ == self.message_spec(),
    {
        match self {
            ShardError::AlreadyExists(k) => {
                let mut s = "shard already exists: ".to_owned();
                push_str(&mut s, k.as_str());
                s
            },
            ShardError::NotFound(k) => {
                let mut s = "shard not found: ".to_owned();
                push_str(&mut s, k.as_str());
                s
            },
            ShardError::Cortex(e) => e.message.clone(),
        }
    }
}

/// The entry of a shard with its state set.
pub open spec fn with_state(e: ShardEntry, state: ShardState) -> ShardEntry {
    ShardEntry { meta: ShardMeta { state: state, ..e.meta }, tokens: e.tokens }
}

/// The entry of a shard with tokens appended to its history and, where
/// given, its token count set.
pub open spec fn with_appended(e: ShardEntry, more: Seq<u32>, token_count: Option<u64>) -> ShardEntry {
    ShardEntry {
        meta: ShardMeta {
            token_count: match token_count { Some(c) => c, None => e.meta.token_count },
            ..e.meta
        },
        tokens: e.tokens + more,
    }
}

/// The cache slot names of shards: their keys, in order.
pub fn cache_keys(ids: &[ShardId]) -> (keys: Vec<String>)
    ensures
        keys@.len() == ids@.len(),
        forall|i: int| 0 <= i < ids@.len() ==> (#[trigger] keys@[i])@ == ids@[i].key(),
{
    let mut keys: Vec<String> = Vec::new();
    let mut i: usize = 0;
    while i < ids.len()
        invariant
            i <= ids@.len(),
            keys@.len() == i,
            forall|j: int| 0 <= j < i ==> (#[trigger] keys@[j])@ == ids@[j].key(),
        decreases ids@.len() - i,
    {
        keys.push(ids[i].to_key());
        i = i + 1;
    }
    keys
}

/// The metadata of the shards whose key starts with `prefix`, in the order
/// of `entries`.
pub open spec fn metas_with_prefix(entries: Seq<ShardEntry>, prefix: Seq<char>) -> Seq<ShardMeta>
    decreases entries.len(),
{
    if entries.len() == 0 {
        Seq::empty()
    } else {
        let rest = metas_with_prefix(entries.drop_last(), prefix);
        if is_prefix(prefix, entries.last().meta.id.key()) {
            rest.push(entries.last().meta)
        } else {
            rest
        }
    }
}

/// Manages shard lifecycle: creation, the token history of each shard, and
/// its residency on the GPU (through cortex). Shards are held in ascending
/// key order, the order in which storage lists them.
pub struct ShardManager<C> {
    records: Vec<ShardRecord>,
    shards: Ghost<Map<Seq<char>, ShardEntry>>,
    cortex: C,
}

/// The keys of shards, in order: the cache slots that compose them.
pub open spec fn shard_keys(ids: Seq<ShardId>) -> Seq<Seq<char>> {
    ids.map_values(|id: ShardId| id.key())
}

impl<C: CortexClient> ShardManager<C> {
    /// The cortex client the shards live in.
    pub closed spec fn client(&self) -> C {
        self.cortex
    }

    /// The shards by key.
    pub closed spec fn view(&self) -> Map<Seq<char>, ShardEntry> {
        self.shards@
    }

    /// The shards in ascending key order.
    pub closed spec fn entries(&self) -> Seq<ShardEntry> {
        self.records@.map_values(|r: ShardRecord| r.entry())
    }

    pub closed spec fn wf(&self) -> bool {
        &&& forall|i: int|
            0 <= i < self.records@.len() ==> {
                let r = #[trigger] self.records@[i];
                &&& r.key@ == r.meta.id.key()
                &&& self.shards@.dom().contains(r.key@)
                &&& self.shards@[r.key@] == r.entry()
            }
        &&& forall|i: int, j: int|
            0 <= i < j < self.records@.len() ==> seq_lt(
                (#[trigger] self.records@[i]).key@,
                (#[trigger] self.records@[j]).key@,
            )
        &&& forall|k: Seq<char>|
            #[trigger] self.shards@.dom().contains(k) ==> exists|i: int|
                0 <= i < self.records@.len() && (#[trigger] self.records@[i]).key@ == k
    }

    pub proof fn lemma_wf(&self)
        requires
            self.wf(),
        ensures
            forall|i: int|
                0 <= i < self.entries().len() ==> {
                    let e = #[trigger] self.entries()[i];
                    &&& self.view().dom().contains(e.meta.id.key())
                    &&& self.view()[e.meta.id.key()] == e
                },
            forall|i: int, j: int|
                0 <= i < j < self.entries().len() ==> seq_lt(
                    (#[trigger] self.entries()[i]).meta.id.key(),
                    (#[trigger] self.entries()[j]).meta.id.key(),
                ),
            forall|k: Seq<char>|
                #[trigger] self.view().dom().contains(k) ==> exists|i: int|
                    0 <= i < self.entries().len() && (#[trigger] self.entries()[i]).meta.id.key() == k,
            forall|k: Seq<char>| #[trigger] self.view().dom().contains(k) ==> self.view()[k].meta.id.key() == k,
    {
        assert forall|k: Seq<char>| #[trigger] self.view().dom().contains(k) implies exists|i: int|
            0 <= i < self.entries().len() && (#[trigger] self.entries()[i]).meta.id.key() == k by {
            let i = choose|i: int| 0 <= i < self.records@.len() && (#[trigger] self.records@[i]).key@ == k;
            assert(self.entries()[i].meta.id.key() == k);
        }
        assert forall|k: Seq<char>| #[trigger] self.view().dom().contains(k) implies self.view()[k].meta.id.key() == k by {
            let i = choose|i: int| 0 <= i < self.records@.len() && (#[trigger] self.records@[i]).key@ == k;
            assert(self.records@[i].key@ == k);
        }
        assert forall|i: int, j: int|
            0 <= i < j < self.entries().len() implies seq_lt(
            (#[trigger] self.entries()[i]).meta.id.key(),
            (#[trigger] self.entries()[j]).meta.id.key(),
        ) by {
            assert(seq_lt(self.records@[i].key@, self.records@[j].key@));
        }
    }

    pub fn new(cortex: C) -> (m: Self)
        ensures
            m.wf(),
            m.client() == cortex,
            m.view() == Map::<Seq<char>, ShardEntry>::empty(),
            m.entries().len() == 0,
    {
        let m = ShardManager { records: Vec::new(), shards: Ghost(Map::empty()), cortex };
        assert(m.entries() =~= Seq::<ShardEntry>::empty());
        m
    }

    /// Position of the shard under `key`, if any.
    fn find(&self, key: &String) -> (r: Option<usize>)
        requires
            self.wf(),
        ensures
            match r {
                Some(i) => i < self.records@.len() && self.records@[i as int].key@ == key@,
                None => !self.shards@.dom().contains(key@),
            },
    {
        let n = self.records.len();
        let mut i: usize = 0;
        while i < n
            invariant
                self.wf(),
                n == self.records@.len(),
                i <= n,
                forall|j: int| 0 <= j < i ==> (#[trigger] self.records@[j]).key@ != key@,
            decreases n - i,
        {
            if self.records[i].key == *key {
                return Some(i);
            }
            i = i + 1;
        }
        proof {
            if self.shards@.dom().contains(key@) {
                let j = choose|j: int| 0 <= j < self.records@.len() && (#[trigger] self.records@[j]).key@ == key@;
            }
        }
        None
    }

    /// Where a record under `key` belongs in key order: the first position
    /// whose key does not come before `key`.
    fn insertion_point(&self, key: &String) -> (p: usize)
        requires
            self.wf(),
        ensures
            p <= self.records@.len(),
            forall|j: int| 0 <= j < p ==> seq_lt((#[trigger] self.records@[j]).key@, key@),
            p < self.records@.len() ==> !seq_lt(self.records@[p as int].key@, key@),
    {
        let n = self.records.len();
        let mut i: usize = 0;
        while i < n
            invariant
                self.wf(),
                n == self.records@.len(),
                i <= n,
                forall|j: int| 0 <= j < i ==> seq_lt((#[trigger] self.records@[j]).key@, key@),
            decreases n - i,
        {
            if !str_lt(self.records[i].key.as_str(), key.as_str()) {
                return i;
            }
            i = i + 1;
        }
        i
    }

    /// The entry at position `i` after setting its state and token count
    /// (where given) and appending `more` to its history.
    spec fn updated(e: ShardEntry, state: Option<ShardState>, token_count: Option<u64>, more: Seq<u32>) -> ShardEntry {
        ShardEntry {
            meta: ShardMeta {
                state: match state { Some(s) => s, None => e.meta.state },
                token_count: match token_count { Some(c) => c, None => e.meta.token_count },
                ..e.meta
            },
            tokens: e.tokens + more,
        }
    }

    fn update_record(&mut self, i: usize, state: Option<ShardState>, token_count: Option<u64>, more: &[u32])
        requires
            old(self).wf(),
            i < old(self).records@.len(),
        ensures
            final(self).wf(),
            final(self).cortex == old(self).cortex,
            final(self).records@.len() == old(self).records@.len(),
            final(self).records@[i as int].entry() == Self::updated(old(self).entries()[i as int], state, token_count, more@),
            final(self).entries() == old(self).entries().update(
                i as int,
                Self::updated(old(self).entries()[i as int], state, token_count, more@),
            ),
            final(self).view() == old(self).view().insert(
                old(self).entries()[i as int].meta.id.key(),
                Self::updated(old(self).entries()[i as int], state, token_count, more@),
            ),
    {
        let ghost old_records = self.records@;
        let mut rec = self.records.remove(i);
        match state {
            Some(st) => {
                rec.meta.state = st;
            },
            None => {},
        }
        match token_count {
            Some(c) => {
                rec.meta.token_count = c;
            },
            None => {},
        }
        rec.tokens.extend_from_slice(more);
        let ghost new_entry = rec.entry();
        let ghost k = rec.key@;
        self.records.insert(i, rec);
        self.shards = Ghost(self.shards@.insert(k, new_entry));
        proof {
            assert(self.records@ =~= old_records.update(i as int, self.records@[i as int]));
            assert(new_entry.tokens =~= old_records[i as int].tokens@ + more@);
            assert(new_entry == Self::updated(old_records[i as int].entry(), state, token_count, more@));
            assert forall|j: int|
                0 <= j < self.records@.len() implies {
                let r = #[trigger] self.records@[j];
                &&& r.key@ == r.meta.id.key()
                &&& self.shards@.dom().contains(r.key@)
                &&& self.shards@[r.key@] == r.entry()
            } by {
                if j != i {
                    assert(self.records@[j] == old_records[j]);
                    if old_records[j].key@ == k {
                        if j < i {
                            assert(seq_lt(old_records[j].key@, old_records[i as int].key@));
                        } else {
                            assert(seq_lt(old_records[i as int].key@, old_records[j].key@));
                        }
                        lemma_seq_lt_irreflexive(k);
                    }
                }
            }
            assert forall|a: int, b: int|
                0 <= a < b < self.records@.len() implies seq_lt(
                (#[trigger] self.records@[a]).key@,
                (#[trigger] self.records@[b]).key@,
            ) by {
                assert(seq_lt(old_records[a].key@, old_records[b].key@));
            }
            assert forall|kk: Seq<char>| #[trigger] self.shards@.dom().contains(kk) implies exists|j: int|
                0 <= j < self.records@.len() && (#[trigger] self.records@[j]).key@ == kk by {
                if kk == k {
                    assert(self.records@[i as int].key@ == kk);
                } else {
                    let j = choose|j: int| 0 <= j < old_records.len() && (#[trigger] old_records[j]).key@ == kk;
                    assert(self.records@[j].key@ == kk);
                }
            }
            assert(self.entries() =~= old(self).entries().update(i as int, new_entry));
        }
    }

    /// Puts back a shard read from storage, with its token history. Refused
    /// (and nothing changed) when a shard under the same key is held.
    pub fn restore(&mut self, meta: ShardMeta, tokens: Vec<u32>) -> (ok: bool)
        requires
            old(self).wf(),
        ensures
            final(self).wf(),
            final(self).client() == old(self).client(),
            ok == !old(self).view().dom().contains(meta.id.key()),
            ok ==> final(self).view() == old(self).view().insert(
                meta.id.key(),
                ShardEntry { meta: meta, tokens: tokens@ },
            ),
            !ok ==> final(self).view() == old(self).view() && final(self).entries() == old(self).entries(),
    {
        let key = meta.id.to_key();
        match self.find(&key) {
            Some(_) => false,
            None => {
                self.insert_new(key, meta, tokens);
                true
            },
        }
    }

    fn insert_new(&mut self, key: String, meta: ShardMeta, tokens: Vec<u32>)
        requires
            old(self).wf(),
            key@ == meta.id.key(),
            !old(self).view().dom().contains(key@),
        ensures
            final(self).wf(),
            final(self).cortex == old(self).cortex,
            final(self).view() == old(self).view().insert(key@, ShardEntry { meta: meta, tokens: tokens@ }),
    {
        let p = self.insertion_point(&key);
        let ghost old_records = self.records@;
        let ghost k = key@;
        let ghost e = ShardEntry { meta: meta, tokens: tokens@ };
        proof {
            if p < old_records.len() {
                lemma_seq_lt_total(old_records[p as int].key@, k);
                if old_records[p as int].key@ =~= k {
                    assert(self.shards@.dom().contains(k));
                }
                assert(seq_lt(k, old_records[p as int].key@));
            }
        }
        self.records.insert(p, ShardRecord { key, meta, tokens });
        self.shards = Ghost(self.shards@.insert(k, e));
        proof {
            assert forall|j: int|
                0 <= j < self.records@.len() implies {
                let r = #[trigger] self.records@[j];
                &&& r.key@ == r.meta.id.key()
                &&& self.shards@.dom().contains(r.key@)
                &&& self.shards@[r.key@] == r.entry()
            } by {
                if j < p {
                    assert(self.records@[j] == old_records[j]);
                    lemma_seq_lt_irreflexive(k);
                } else if j > p {
                    assert(self.records@[j] == old_records[j - 1]);
                    if old_records[j - 1].key@ == k {
                        assert(old(self).shards@.dom().contains(k));
                    }
                }
            }
            assert forall|a: int, b: int|
                0 <= a < b < self.records@.len() implies seq_lt(
                (#[trigger] self.records@[a]).key@,
                (#[trigger] self.records@[b]).key@,
            ) by {
                if b < p {
                    assert(seq_lt(old_records[a].key@, old_records[b].key@));
                } else if b == p {
                    assert(seq_lt(old_records[a].key@, k));
                } else if a > p {
                    assert(seq_lt(old_records[a - 1].key@, old_records[b - 1].key@));
                } else if a == p {
                    if b - 1 > p {
                        assert(seq_lt(old_records[p as int].key@, old_records[b - 1].key@));
                        lemma_seq_lt_transitive(k, old_records[p as int].key@, old_records[b - 1].key@);
                    }
                } else {
                    assert(seq_lt(old_records[a].key@, k));
                    if b - 1 > p {
                        assert(seq_lt(old_records[p as int].key@, old_records[b - 1].key@));
                        lemma_seq_lt_transitive(k, old_records[p as int].key@, old_records[b - 1].key@);
                    }
                    lemma_seq_lt_transitive(old_records[a].key@, k, old_records[b - 1].key@);
                }
            }
            assert forall|kk: Seq<char>| #[trigger] self.shards@.dom().contains(kk) implies exists|j: int|
                0 <= j < self.records@.len() && (#[trigger] self.records@[j]).key@ == kk by {
                if kk == k {
                    assert(self.records@[p as int].key@ == kk);
                } else {
                    let j = choose|j: int| 0 <= j < old_records.len() && (#[trigger] old_records[j]).key@ == kk;
                    if j < p {
                        assert(self.records@[j].key@ == kk);
                    } else {
                        assert(self.records@[j + 1].key@ == kk);
                    }
                }
            }
        }
    }

    /// Create a new shard, cold and with an empty token history. Fails when
    /// a shard under the same key exists.
    pub fn create(&mut self, id: ShardId, pinned: bool) -> (r: Result<ShardMeta, ShardError>)
        requires
            old(self).wf(),
        ensures
            final(self).wf(),
            final(self).client() == old(self).client(),
            match r {
                Ok(meta) => {
                    &&& !old(self).view().dom().contains(id.key())
                    &&& meta.id == id
                    &&& meta.state == ShardState::Cold
                    &&& meta.created_at.wf()
                    &&& meta.token_count == 0
                    &&& meta.byte_size == 0
                    &&& meta.pinned == pinned
                    &&& final(self).view() == old(self).view().insert(
                        id.key(),
                        ShardEntry { meta: meta, tokens: Seq::empty() },
                    )
                },
                Err(e) => {
                    &&& old(self).view().dom().contains(id.key())
                    &&& e matches ShardError::AlreadyExists(k) && k@ == id.key()
                    &&& final(self).view() == old(self).view()
                },
            },
    {
        let key = id.to_key();
        if self.find(&key).is_some() {
            return Err(ShardError::AlreadyExists(key));
        }
        let meta = ShardMeta {
            id,
            state: ShardState::Cold,
            created_at: now(),
            token_count: 0,
            byte_size: 0,
            pinned,
        };
        let copy = meta.cloned();
        let tokens: Vec<u32> = Vec::new();
        proof {
            assert(tokens@ =~= Seq::<u32>::empty());
        }
        self.insert_new(key, meta, tokens);
        Ok(copy)
    }

    /// Metadata of a shard (looked up by its key).
    pub fn get_meta(&self, id: &ShardId) -> (r: Option<ShardMeta>)
        requires
            self.wf(),
        ensures
            r == (if self.view().dom().contains(id.key()) {
                Some(self.view()[id.key()].meta)
            } else {
                None
            }),
    {
        let key = id.to_key();
        match self.find(&key) {
            Some(i) => Some(self.records[i].meta.cloned()),
            None => None,
        }
    }

    /// List the shards whose key starts with `{namespace}.`, in key order.
    pub fn list(&self, namespace: &str) -> (r: Vec<ShardMeta>)
        requires
            self.wf(),
        ensures
            r@ == metas_with_prefix(self.entries(), namespace@.push('.')),
    {
        let mut prefix = namespace.to_owned();
        push_char(&mut prefix, '.');
        let ghost es = self.entries();
        let mut results: Vec<ShardMeta> = Vec::new();
        let n = self.records.len();
        let mut i: usize = 0;
        while i < n
            invariant
                self.wf(),
                es == self.entries(),
                n == es.len(),
                i <= n,
                prefix@ == namespace@.push('.'),
                results@ == metas_with_prefix(es.subrange(0, i as int), prefix@),
            decreases n - i,
        {
            let rec = &self.records[i];
            proof {
                assert(es.subrange(0, i + 1).drop_last() =~= es.subrange(0, i as int));
                assert(es[i as int] == rec.entry());
                assert(rec.key@ == rec.meta.id.key());
            }
            if starts_with(rec.key.as_str(), prefix.as_str()) {
                results.push(rec.meta.cloned());
            }
            i = i + 1;
        }
        assert(es.subrange(0, n as int) =~= es);
        results
    }

    /// The stored token history of a shard; empty when there is none.
    pub fn load_token_history(&self, id: &ShardId) -> (r: Vec<u32>)
        requires
            self.wf(),
        ensures
            r@ == (if self.view().dom().contains(id.key()) {
                self.view()[id.key()].tokens
            } else {
                Seq::empty()
            }),
    {
        let key = id.to_key();
        match self.find(&key) {
            Some(i) => {
                let mut out: Vec<u32> = Vec::new();
                out.extend_from_slice(self.records[i].tokens.as_slice());
                assert(out@ =~= self.records@[i as int].tokens@);
                out
            },
            None => {
                let out: Vec<u32> = Vec::new();
                assert(out@ =~= Seq::<u32>::empty());
                out
            },
        }
    }

    /// Set the state of a shard, if it exists.
    fn update_state(&mut self, id: &ShardId, state: ShardState)
        requires
            old(self).wf(),
        ensures
            final(self).wf(),
            final(self).cortex == old(self).cortex,
            final(self).view() == (if old(self).view().dom().contains(id.key()) {
                old(self).view().insert(id.key(), with_state(old(self).view()[id.key()], state))
            } else {
                old(self).view()
            }),
    {
        let key = id.to_key();
        match self.find(&key) {
            Some(i) => {
                proof {
                    self.lemma_wf();
                    assert(self.entries()[i as int] == self.view()[key@]);
                }
                let empty: Vec<u32> = Vec::new();
                self.update_record(i, Some(state), None, empty.as_slice());
                proof {
                    assert(old(self).view()[key@].tokens + Seq::<u32>::empty() =~= old(self).view()[key@].tokens);
                }
            },
            None => {},
        }
    }

    /// Ensure a shard is resident on the GPU: a cold shard has its token
    /// history replayed into a cortex cache slot under its key and becomes
    /// pinned or resident (as it was created); a pinned or resident shard is
    /// left as it is.
    pub fn ensure_resident(&mut self, id: &ShardId) -> (r: Result<(), ShardError>)
        requires
            old(self).wf(),
        ensures
            final(self).wf(),
            final(self).client() == old(self).client(),
            old(self).view().dom().contains(id.key()) && old(self).view()[id.key()].meta.state == ShardState::Cold
                ==> match r {
                Ok(()) => exists|info: CacheInfo|
                    old(self).client().load_answer(id.key(), old(self).view()[id.key()].tokens, Ok(info)),
                Err(ShardError::Cortex(e)) => old(self).client().load_answer(
                    id.key(),
                    old(self).view()[id.key()].tokens,
                    Err(e),
                ),
                Err(_) => false,
            },
            !old(self).view().dom().contains(id.key()) ==> (r matches Err(ShardError::NotFound(k)) && k@
                == id.key()) && final(self).view() == old(self).view(),
            old(self).view().dom().contains(id.key()) && old(self).view()[id.key()].meta.state
                != ShardState::Cold ==> r is Ok && final(self).view() == old(self).view(),
            old(self).view().dom().contains(id.key()) && old(self).view()[id.key()].meta.state
                == ShardState::Cold ==> match r {
                Ok(()) => final(self).view() == old(self).view().insert(
                    id.key(),
                    with_state(
                        old(self).view()[id.key()],
                        if old(self).view()[id.key()].meta.pinned {
                            ShardState::Pinned
                        } else {
                            ShardState::Resident
                        },
                    ),
                ),
                Err(e) => e is Cortex && final(self).view() == old(self).view(),
            },
    {
        let meta = match self.get_meta(id) {
            Some(m) => m,
            None => {
                return Err(ShardError::NotFound(id.to_string()));
            },
        };
        match meta.state {
            ShardState::Pinned | ShardState::Resident => {
                return Ok(());
            },
            ShardState::Cold => {},
        }
        let tokens = self.load_token_history(id);
        let cache_id = id.to_key();
        let ghost history = old(self).view()[id.key()].tokens;
        assert(cache_id@ == id.key());
        assert(tokens@ == history);
        match self.cortex.load_cache(cache_id.as_str(), tokens.as_slice()) {
            Ok(info) => {
                assert(old(self).client().load_answer(id.key(), history, Ok(info)));
            },
            Err(e) => {
                return Err(ShardError::Cortex(e));
            },
        }
        let new_state = if meta.pinned {
            ShardState::Pinned
        } else {
            ShardState::Resident
        };
        self.update_state(id, new_state);
        Ok(())
    }

    /// Evict a shard's cache slot from GPU memory and mark the shard cold.
    /// Its stored history stays.
    pub fn evict(&mut self, id: &ShardId) -> (r: Result<(), ShardError>)
        requires
            old(self).wf(),
        ensures
            final(self).wf(),
            final(self).client() == old(self).client(),
            match r {
                Ok(()) => old(self).client().evict_answer(id.key(), Ok(())),
                Err(ShardError::Cortex(e)) => old(self).client().evict_answer(id.key(), Err(e)),
                Err(_) => false,
            },
            match r {
                Ok(()) => final(self).view() == (if old(self).view().dom().contains(id.key()) {
                    old(self).view().insert(
                        id.key(),
                        with_state(old(self).view()[id.key()], ShardState::Cold),
                    )
                } else {
                    old(self).view()
                }),
                Err(e) => e is Cortex && final(self).view() == old(self).view(),
            },
    {
        let cache_id = id.to_key();
        let answer = self.cortex.evict_cache(cache_id.as_str());
        assert(old(self).client().evict_answer(id.key(), answer));
        match answer {
            Ok(u) => {
                assert(u == ());
                assert(answer == Ok::<(), CortexError>(()));
            },
            Err(e) => {
                return Err(ShardError::Cortex(e));
            },
        }
        self.update_state(id, ShardState::Cold);
        Ok(())
    }

    /// Append tokens to a shard's history and, when the shard is not cold,
    /// to its cortex cache slot; then record the new token count. Returns
    /// the new total. When cortex fails, the history keeps the new tokens
    /// but the count is not updated.
    pub fn append_tokens(&mut self, id: &ShardId, tokens: &[u32]) -> (r: Result<u64, ShardError>)
        requires
            old(self).wf(),
        ensures
            final(self).wf(),
            final(self).client() == old(self).client(),
            old(self).view().dom().contains(id.key()) && old(self).view()[id.key()].meta.state != ShardState::Cold
                ==> match r {
                Ok(_) => exists|info: CacheInfo| old(self).client().append_answer(id.key(), tokens@, Ok(info)),
                Err(ShardError::Cortex(e)) => old(self).client().append_answer(id.key(), tokens@, Err(e)),
                Err(_) => false,
            },
            !old(self).view().dom().contains(id.key()) ==> (r matches Err(ShardError::NotFound(k)) && k@
                == id.key()) && final(self).view() == old(self).view(),
            old(self).view().dom().contains(id.key()) ==> {
                let e = old(self).view()[id.key()];
                let total = (e.tokens + tokens@).len();
                match r {
                    Ok(c) => c == total && final(self).view() == old(self).view().insert(
                        id.key(),
                        with_appended(e, tokens@, Some(c)),
                    ),
                    Err(err) => err is Cortex && e.meta.state != ShardState::Cold && final(self).view()
                        == old(self).view().insert(id.key(), with_appended(e, tokens@, None)),
                }
            },
            old(self).view().dom().contains(id.key()) && old(self).view()[id.key()].meta.state
                == ShardState::Cold ==> r is Ok,
    {
        let key = id.to_key();
        let i = match self.find(&key) {
            Some(i) => i,
            None => {
                return Err(ShardError::NotFound(key));
            },
        };
        proof {
            self.lemma_wf();
            assert(self.entries()[i as int] == self.view()[key@]);
        }
        self.update_record(i, None, None, tokens);
        let new_count = self.records[i].tokens.len() as u64;
        let cold = match self.records[i].meta.state {
            ShardState::Cold => true,
            _ => false,
        };
        if !cold {
            assert(key@ == id.key());
            match self.cortex.append_tokens(key.as_str(), tokens) {
                Ok(info) => {
                    assert(old(self).client().append_answer(id.key(), tokens@, Ok(info)));
                },
                Err(e) => {
                    return Err(ShardError::Cortex(e));
                },
            }
        }
        proof {
            self.lemma_wf();
            assert(self.entries()[i as int] == self.view()[key@]);
        }
        let empty: Vec<u32> = Vec::new();
        self.update_record(i, None, Some(new_count), empty.as_slice());
        proof {
            let e = old(self).view()[key@];
            assert(with_appended(e, tokens@, None).tokens + Seq::<u32>::empty() =~= e.tokens + tokens@);
        }
        Ok(new_count)
    }

    /// Run retrieval across shards via cortex, composing their cache slots
    /// (named by the shards' keys, in the given order). The caller is
    /// responsible for making the shards resident first.
    pub fn retrieve(&self, shard_ids: &[ShardId], query: &str, top_k: u32) -> (r: Result<
        CortexRetrievalResponse,
        ShardError,
    >)
        ensures
            match r {
                Ok(resp) => self.client().retrieval_answer(shard_keys(shard_ids@), query@, top_k, Ok(resp)),
                Err(ShardError::Cortex(e)) => self.client().retrieval_answer(shard_keys(shard_ids@), query@, top_k, Err(e)),
                Err(_) => false,
            },
    {
        let keys = cache_keys(shard_ids);
        proof {
            assert(keys@.map_values(|c: String| c@) =~= shard_keys(shard_ids@));
        }
        match self.cortex.retrieve(keys.as_slice(), query, top_k) {
            Ok(resp) => Ok(resp),
            Err(e) => Err(ShardError::Cortex(e)),
        }
    }
}

/// What `metas_with_prefix` picks: exactly the entries whose key carries the
/// prefix, each once, in their order.
pub proof fn lemma_metas_with_prefix(entries: Seq<ShardEntry>, prefix: Seq<char>)
    ensures
        forall|j: int|
            0 <= j < entries.len() && is_prefix(prefix, (#[trigger] entries[j]).meta.id.key())
                ==> metas_with_prefix(entries, prefix).contains(entries[j].meta),
        forall|i: int|
            0 <= i < metas_with_prefix(entries, prefix).len() ==> exists|j: int|
                0 <= j < entries.len() && #[trigger] metas_with_prefix(entries, prefix)[i]
                    == entries[j].meta && is_prefix(prefix, entries[j].meta.id.key()),
        forall|a: int, b: int|
            0 <= a < b < metas_with_prefix(entries, prefix).len() ==> exists|x: int, y: int|
                0 <= x < y < entries.len() && #[trigger] metas_with_prefix(entries, prefix)[a] == entries[x].meta
                    && #[trigger] metas_with_prefix(entries, prefix)[b] == entries[y].meta,
    decreases entries.len(),
{
    if entries.len() > 0 {
        let d = entries.drop_last();
        lemma_metas_with_prefix(d, prefix);
        let r = metas_with_prefix(entries, prefix);
        let rd = metas_with_prefix(d, prefix);
        let n = entries.len() - 1;
        assert forall|j: int|
            0 <= j < entries.len() && is_prefix(prefix, (#[trigger] entries[j]).meta.id.key())
            implies r.contains(entries[j].meta) by {
            if j < n {
                assert(d[j] == entries[j]);
                let k = choose|k: int| 0 <= k < rd.len() && rd[k] == entries[j].meta;
                assert(r[k] == rd[k]);
            } else {
                assert(r[r.len() - 1] == entries[j].meta);
            }
        }
        assert forall|i: int| 0 <= i < r.len() implies exists|j: int|
            0 <= j < entries.len() && #[trigger] r[i] == entries[j].meta && is_prefix(
                prefix,
                entries[j].meta.id.key(),
            ) by {
            if i < rd.len() {
                assert(r[i] == rd[i]);
                let j = choose|j: int|
                    0 <= j < d.len() && #[trigger] rd[i] == d[j].meta && is_prefix(prefix, d[j].meta.id.key());
                assert(entries[j] == d[j]);
            } else {
                assert(r[i] == entries[n].meta);
            }
        }
        assert forall|a: int, b: int| 0 <= a < b < r.len() implies exists|x: int, y: int|
            0 <= x < y < entries.len() && #[trigger] r[a] == entries[x].meta && #[trigger] r[b]
                == entries[y].meta by {
            if b < rd.len() {
                assert(r[a] == rd[a] && r[b] == rd[b]);
                let (x, y) = choose|x: int, y: int|
                    0 <= x < y < d.len() && #[trigger] rd[a] == d[x].meta && #[trigger] rd[b] == d[y].meta;
                assert(entries[x] == d[x] && entries[y] == d[y]);
            } else {
                assert(r[a] == rd[a]);
                let x = choose|x: int|
                    0 <= x < d.len() && #[trigger] rd[a] == d[x].meta && is_prefix(prefix, d[x].meta.id.key());
                assert(entries[x] == d[x]);
                assert(r[b] == entries[n].meta);
            }
        }
    }
}

/// Listing a namespace gives exactly its shards: every shard whose key
/// starts with `{namespace}.` appears, everything listed is such a shard as
/// held, and the list ascends by key.
#[verifier::spinoff_prover]
pub proof fn law_list_exact<C: CortexClient>(m: ShardManager<C>, namespace: Seq<char>)
    requires
        m.wf(),
    ensures
        ({
            let r = metas_with_prefix(m.entries(), namespace.push('.'));
            &&& forall|k: Seq<char>|
                #[trigger] m.view().dom().contains(k) && is_prefix(namespace.push('.'), k) ==> r.contains(
                    m.view()[k].meta,
                )
            &&& forall|i: int|
                0 <= i < r.len() ==> m.view().dom().contains((#[trigger] r[i]).id.key()) && is_prefix(
                    namespace.push('.'),
                    r[i].id.key(),
                ) && m.view()[r[i].id.key()].meta == r[i]
            &&& forall|a: int, b: int| 0 <= a < b < r.len() ==> seq_lt((#[trigger] r[a]).id.key(), (#[trigger] r[b]).id.key())
        }),
{
    let p = namespace.push('.');
    let es = m.entries();
    let r = metas_with_prefix(es, p);
    m.lemma_wf();
    lemma_metas_with_prefix(es, p);
    assert forall|k: Seq<char>|
        #[trigger] m.view().dom().contains(k) && is_prefix(p, k) implies r.contains(m.view()[k].meta) by {
        let j = choose|j: int| 0 <= j < es.len() && (#[trigger] es[j]).meta.id.key() == k;
        assert(m.view()[es[j].meta.id.key()] == es[j]);
    }
    assert forall|i: int| 0 <= i < r.len() implies m.view().dom().contains((#[trigger] r[i]).id.key())
        && is_prefix(p, r[i].id.key()) && m.view()[r[i].id.key()].meta == r[i] by {
        let j = choose|j: int| 0 <= j < es.len() && #[trigger] r[i] == es[j].meta && is_prefix(p, es[j].meta.id.key());
        assert(m.view()[es[j].meta.id.key()] == es[j]);
    }
    assert forall|a: int, b: int| 0 <= a < b < r.len() implies seq_lt((#[trigger] r[a]).id.key(), (#[trigger] r[b]).id.key()) by {
        let (x, y) = choose|x: int, y: int| 0 <= x < y < es.len() && #[trigger] r[a] == es[x].meta && #[trigger] r[b] == es[y].meta;
    }
}

/// Evicting keeps a shard's history, and making it resident again brings
/// back the state it was created with: pinned shards come back pinned,
/// others resident.
pub proof fn law_evict_then_resident(e: ShardEntry)
    ensures
        crate::retrieval::residency(with_state(e, ShardState::Cold)) == with_state(
            e,
            if e.meta.pinned { ShardState::Pinned } else { ShardState::Resident },
        ),
        with_state(e, ShardState::Cold).tokens == e.tokens,
{
}

/// Appending tokens extends the history by exactly those tokens and counts
/// them all.
pub proof fn law_append_counts(e: ShardEntry, more: Seq<u32>)
    ensures
        with_appended(e, more, Some((e.tokens + more).len() as u64)).tokens.subrange(0, e.tokens.len() as int)
            == e.tokens,
        with_appended(e, more, Some((e.tokens + more).len() as u64)).tokens.subrange(
            e.tokens.len() as int,
            (e.tokens + more).len() as int,
        ) == more,
        with_appended(e, more, Some((e.tokens + more).len() as u64)).meta.token_count == (e.tokens
            + more).len() as u64,
{
    assert((e.tokens + more).subrange(0, e.tokens.len() as int) =~= e.tokens);
    assert((e.tokens + more).subrange(e.tokens.len() as int, (e.tokens + more).len() as int) =~= more);
}

} // verus!
