use vstd::prelude::*;

use crate::text::{chars_of, find_char_from, find_from, lemma_find_from, push_char, push_str, string_from_chars};
use crate::time::Timestamp;

verus! {

/// A parsed shard identifier: `{namespace}.{category}.{entity_id}`.
#[derive(Debug, Clone, PartialEq, Eq, Hash)]
pub struct ShardId {
    pub namespace: String,
    pub category: String,
    pub entity_id: String,
}

/// The storage key of a shard: the three parts joined by dots.
pub open spec fn key_of(namespace: Seq<char>, category: Seq<char>, entity_id: Seq<char>) -> Seq<char> {
    namespace + seq!['.'] + category + seq!['.'] + entity_id
}

/// What `ShardId::parse` gives for a key: the text before the first dot,
/// the text between the first and second dot, and everything after the
/// second dot; nothing when the key holds fewer than two dots.
pub open spec fn parse_key(key: Seq<char>) -> Option<(Seq<char>, Seq<char>, Seq<char>)> {
    let i = find_from(key, '.', 0);
    let j = find_from(key, '.', i + 1);
    if j < key.len() {
        Some((key.subrange(0, i), key.subrange(i + 1, j), key.subrange(j + 1, key.len() as int)))
    } else {
        None
    }
}

pub open spec fn has_no_dot(s: Seq<char>) -> bool {
    forall|k: int| 0 <= k < s.len() ==> s[k] != '.'
}

impl ShardId {
    pub open spec fn key(&self) -> Seq<char> {
        key_of(self.namespace@, self.category@, self.entity_id@)
    }

    pub fn new(namespace: String, category: String, entity_id: String) -> (r: Self)
        ensures
            r.namespace == namespace,
            r.category == category,
            r.entity_id == entity_id,
    {
        ShardId { namespace, category, entity_id }
    }

    /// A copy of this identifier.
    pub fn cloned(&self) -> (r: Self)
        ensures
            r == *self,
    {
        ShardId {
            namespace: self.namespace.clone(),
            category: self.category.clone(),
            entity_id: self.entity_id.clone(),
        }
    }

    pub fn to_key(&self) -> (k: String)
        ensures
            k@ == self.key(),
    {
        let mut k = self.namespace.clone();
        push_char(&mut k, '.');
        push_str(&mut k, self.category.as_str());
        push_char(&mut k, '.');
        push_str(&mut k, self.entity_id.as_str());
        k
    }

    /// The display form of a shard identifier, which is its key.
    pub fn to_string(&self) -> (k: String)
        ensures
            k@ == self.key(),
    {
        self.to_key()
    }

    pub fn parse(key: &str) -> (r: Option<Self>)
        ensures
            match parse_key(key@) {
                Some((n, c, e)) => r matches Some(id) && id.namespace@ == n && id.category@ == c
                    && id.entity_id@ == e,
                None => r is None,
            },
    {
        let v = chars_of(key);
        let i = find_char_from(&v, '.', 0);
        if i >= v.len() {
            return None;
        }
        let j = find_char_from(&v, '.', i + 1);
        if j >= v.len() {
            return None;
        }
        let namespace = string_from_chars(&v, 0, i);
        let category = string_from_chars(&v, i + 1, j);
        let entity_id = string_from_chars(&v, j + 1, v.len());
        Some(ShardId { namespace, category, entity_id })
    }
}

/// Parsing the key of a shard gives the shard back exactly when neither its
/// namespace nor its category holds a dot (the entity id may hold dots).
pub proof fn lemma_parse_to_key(id: ShardId)
    ensures
        (parse_key(id.key()) == Some((id.namespace@, id.category@, id.entity_id@)))
            <==> (has_no_dot(id.namespace@) && has_no_dot(id.category@)),
{
    let k = id.key();
    let n = id.namespace@;
    let c = id.category@;
    let e = id.entity_id@;
    let nl = n.len() as int;
    let cl = c.len() as int;
    assert(k.len() == nl + cl + e.len() + 2);
    assert(k[nl] == '.');
    assert(k[nl + 1 + cl] == '.');
    lemma_find_from(k, '.', 0);
    let i = find_from(k, '.', 0);
    assert(i <= nl);
    if i < k.len() {
        lemma_find_from(k, '.', i + 1);
    }
    let j = find_from(k, '.', i + 1);
    if has_no_dot(n) && has_no_dot(c) {
        assert forall|x: int| 0 <= x < nl implies k[x] != '.' by {
            assert(k[x] == n[x]);
        }
        assert(i == nl);
        assert forall|x: int| nl + 1 <= x < nl + 1 + cl implies k[x] != '.' by {
            assert(k[x] == c[x - nl - 1]);
        }
        assert(j == nl + 1 + cl);
        assert(k.subrange(0, i) =~= n);
        assert(k.subrange(i + 1, j) =~= c);
        assert(k.subrange(j + 1, k.len() as int) =~= e);
    } else {
        if parse_key(k) == Some((n, c, e)) {
            assert(k.subrange(0, i).len() == nl);
            assert(i == nl);
            assert(k.subrange(i + 1, j).len() == cl);
            assert(j == nl + 1 + cl);
            if !has_no_dot(n) {
                let x = choose|x: int| 0 <= x < nl && n[x] == '.';
                assert(k[x] == n[x]);
            } else {
                let x = choose|x: int| 0 <= x < cl && c[x] == '.';
                assert(k[nl + 1 + x] == c[x]);
            }
        }
    }
}

/// Joining the parts that parsing a key gives restores the key.
pub proof fn lemma_to_key_parse(key: Seq<char>)
    ensures
        parse_key(key) matches Some((n, c, e)) ==> key_of(n, c, e) =~= key,
{
    lemma_find_from(key, '.', 0);
    let i = find_from(key, '.', 0);
    if i < key.len() {
        lemma_find_from(key, '.', i + 1);
        let j = find_from(key, '.', i + 1);
        if j < key.len() {
            assert(key_of(key.subrange(0, i), key.subrange(i + 1, j), key.subrange(j + 1, key.len() as int)) =~= key);
        }
    }
}

/// Whether a shard is resident on the GPU or only in cold storage.
#[derive(Debug, Clone, Copy, PartialEq, Eq, Structural)]
pub enum ShardState {
    /// Pinned in GPU memory (shared shards).
    Pinned,
    /// Currently loaded in GPU memory (on-demand).
    Resident,
    /// In storage only, not on GPU.
    Cold,
}

impl ShardState {
    /// The name of the state, as its debug form prints it.
    pub fn name(&self) -> (s: &'static str)
        ensures
            s@ == match self {
                ShardState::Pinned => "Pinned"@,
                ShardState::Resident => "Resident"@,
                ShardState::Cold => "Cold"@,
            },
    {
        match self {
            ShardState::Pinned => "Pinned",
            ShardState::Resident => "Resident",
            ShardState::Cold => "Cold",
        }
    }
}

/// Metadata kept for each shard.
#[derive(Debug, Clone)]
pub struct ShardMeta {
    pub id: ShardId,
    pub state: ShardState,
    pub created_at: Timestamp,
    pub token_count: u64,
    pub byte_size: u64,
    pub pinned: bool,
}

impl ShardMeta {
    pub fn cloned(&self) -> (r: Self)
        ensures
            r == *self,
    {
        ShardMeta {
            id: self.id.cloned(),
            state: self.state,
            created_at: self.created_at,
            token_count: self.token_count,
            byte_size: self.byte_size,
            pinned: self.pinned,
        }
    }
}

} // verus!
