use vstd::prelude::*;

use crate::run::{decimal, decimal_spec};
use crate::shard::{has_no_dot, lemma_parse_to_key, parse_key, ShardId};
use crate::text::{chars_of, push_char, push_str, string_from_chars};

verus! {

/// A resolved reference from a token position back to source content.
#[derive(Debug, Clone)]
pub struct SourceRef {
    pub content_id: String,
    pub offset_within_source: u64,
}

/// One recorded span: tokens `offset..offset + length` of a shard came from
/// `content_id`.
struct SidecarEntry {
    shard_key: String,
    offset: u64,
    length: u32,
    content_id: String,
}

/// Maps token positions within shards to source content ids. Its content is
/// a map from (shard key, start offset) to (length, content id): recording at
/// the same shard and offset replaces the earlier span.
pub struct PositionMap {
    entries: Vec<SidecarEntry>,
    spans: Ghost<Map<(Seq<char>, u64), (u32, Seq<char>)>>,
}

/// The span that decides a lookup: the recorded span of the shard with the
/// greatest start offset not after `offset`.
pub open spec fn is_deciding(m: Map<(Seq<char>, u64), (u32, Seq<char>)>, key: Seq<char>, offset: u64, start: u64) -> bool {
    &&& m.dom().contains((key, start))
    &&& start <= offset
    &&& forall|o: u64| #[trigger] m.dom().contains((key, o)) && o <= offset ==> o <= start
}

/// What `resolve` gives: the deciding span's content id and the position
/// within it, when the offset falls inside that span; nothing otherwise
/// (also when no span of the shard starts at or before the offset).
pub open spec fn resolve_spec(m: Map<(Seq<char>, u64), (u32, Seq<char>)>, key: Seq<char>, offset: u64) -> Option<(Seq<char>, u64)> {
    if exists|start: u64| is_deciding(m, key, offset, start) {
        let start = choose|start: u64| is_deciding(m, key, offset, start);
        let (length, content_id) = m[(key, start)];
        if offset < start + length {
            Some((content_id, (offset - start) as u64))
        } else {
            None
        }
    } else {
        None
    }
}

impl PositionMap {
    pub closed spec fn view(&self) -> Map<(Seq<char>, u64), (u32, Seq<char>)> {
        self.spans@
    }

    pub closed spec fn wf(&self) -> bool {
        &&& forall|i: int|
            0 <= i < self.entries@.len() ==> {
                let e = #[trigger] self.entries@[i];
                &&& self.spans@.dom().contains((e.shard_key@, e.offset))
                &&& self.spans@[(e.shard_key@, e.offset)] == (e.length, e.content_id@)
            }
        &&& forall|k: (Seq<char>, u64)|
            #[trigger] self.spans@.dom().contains(k) ==> exists|i: int|
                0 <= i < self.entries@.len() && (#[trigger] self.entries@[i]).shard_key@ == k.0
                    && self.entries@[i].offset == k.1
        &&& forall|i: int, j: int|
            0 <= i < j < self.entries@.len() ==> !((#[trigger] self.entries@[i]).shard_key@
                == (#[trigger] self.entries@[j]).shard_key@ && self.entries@[i].offset
                == self.entries@[j].offset)
    }

    /// Position of the span recorded at `key` and `offset`, or the number of
    /// spans when there is none.
    fn position_of(&self, key: &String, offset: u64) -> (i: usize)
        ensures
            i <= self.entries@.len(),
            i < self.entries@.len() ==> self.entries@[i as int].shard_key@ == key@
                && self.entries@[i as int].offset == offset,
            i == self.entries@.len() ==> forall|j: int|
                0 <= j < self.entries@.len() ==> !((#[trigger] self.entries@[j]).shard_key@ == key@
                    && self.entries@[j].offset == offset),
    {
        let n = self.entries.len();
        let mut i: usize = 0;
        while i < n
            invariant
                n == self.entries@.len(),
                i <= n,
                forall|j: int| 0 <= j < i ==> !((#[trigger] self.entries@[j]).shard_key@ == key@
                    && self.entries@[j].offset == offset),
            decreases n - i,
        {
            if self.entries[i].offset == offset && self.entries[i].shard_key == *key {
                return i;
            }
            i = i + 1;
        }
        i
    }

    pub fn new() -> (m: Self)
        ensures
            m.wf(),
            m.view() == Map::<(Seq<char>, u64), (u32, Seq<char>)>::empty(),
    {
        PositionMap { entries: Vec::new(), spans: Ghost(Map::empty()) }
    }

    /// Record that tokens at `offset..offset + length` in `shard` came from
    /// `content_id`.
    pub fn record(&mut self, shard: &ShardId, offset: u64, length: u32, content_id: &str)
        requires
            old(self).wf(),
        ensures
            final(self).wf(),
            final(self).view() == old(self).view().insert((shard.key(), offset), (length, content_id@)),
    {
        let key = shard.to_key();
        let ghost k = (key@, offset);
        let n = self.entries.len();
        let i = self.position_of(&key, offset);
        let entry = SidecarEntry { shard_key: key, offset, length, content_id: content_id.to_owned() };
        let ghost old_entries = self.entries@;
        if i < n {
            self.entries.set(i, entry);
        } else {
            self.entries.push(entry);
        }
        self.spans = Ghost(self.spans@.insert(k, (length, content_id@)));
        proof {
            assert forall|j: int| 0 <= j < self.entries@.len() implies {
                let e = #[trigger] self.entries@[j];
                &&& self.spans@.dom().contains((e.shard_key@, e.offset))
                &&& self.spans@[(e.shard_key@, e.offset)] == (e.length, e.content_id@)
            } by {
                if j != i as int {
                    let e = old_entries[j];
                    assert(self.entries@[j] == e);
                    if i < n {
                        if j < i {
                            assert(!(old_entries[j].shard_key@ == old_entries[i as int].shard_key@
                                && old_entries[j].offset == old_entries[i as int].offset));
                        } else {
                            assert(!(old_entries[i as int].shard_key@ == old_entries[j].shard_key@
                                && old_entries[i as int].offset == old_entries[j].offset));
                        }
                    }
                }
            }
            assert forall|a: int, b: int|
                0 <= a < b < self.entries@.len() implies !((#[trigger] self.entries@[a]).shard_key@
                == (#[trigger] self.entries@[b]).shard_key@ && self.entries@[a].offset
                == self.entries@[b].offset) by {
                if a != i as int && b != i as int {
                    assert(self.entries@[a] == old_entries[a]);
                    assert(self.entries@[b] == old_entries[b]);
                } else if a == i as int {
                    assert(self.entries@[b] == old_entries[b]);
                    if i < n {
                        assert(!(old_entries[a].shard_key@ == old_entries[b].shard_key@
                            && old_entries[a].offset == old_entries[b].offset));
                    }
                } else {
                    assert(self.entries@[a] == old_entries[a]);
                    if i < n {
                        assert(!(old_entries[a].shard_key@ == old_entries[b].shard_key@
                            && old_entries[a].offset == old_entries[b].offset));
                    }
                }
            }
            assert forall|kk: (Seq<char>, u64)| #[trigger] self.spans@.dom().contains(kk) implies exists|j: int|
                0 <= j < self.entries@.len() && (#[trigger] self.entries@[j]).shard_key@ == kk.0
                    && self.entries@[j].offset == kk.1 by {
                if kk == k {
                    assert(self.entries@[i as int].shard_key@ == kk.0);
                } else {
                    let j = choose|j: int|
                        0 <= j < old_entries.len() && (#[trigger] old_entries[j]).shard_key@ == kk.0
                            && old_entries[j].offset == kk.1;
                    assert(j != i);
                    assert(self.entries@[j] == old_entries[j]);
                }
            }
        }
    }

    /// Resolve a token offset within a shard to its source content.
    pub fn resolve(&self, shard: &ShardId, offset: u64) -> (r: Option<SourceRef>)
        requires
            self.wf(),
        ensures
            match resolve_spec(self.view(), shard.key(), offset) {
                Some((content_id, within)) => r matches Some(sr) && sr.content_id@ == content_id
                    && sr.offset_within_source == within,
                None => r is None,
            },
    {
        let key = shard.to_key();
        let ghost m = self.spans@;
        let n = self.entries.len();
        let mut best: Option<usize> = None;
        let mut i: usize = 0;
        while i < n
            invariant
                n == self.entries@.len(),
                i <= n,
                self.wf(),
                m == self.spans@,
                match best {
                    Some(b) => b < i && self.entries@[b as int].shard_key@ == key@
                        && self.entries@[b as int].offset <= offset
                        && forall|j: int| 0 <= j < i && (#[trigger] self.entries@[j]).shard_key@ == key@
                            && self.entries@[j].offset <= offset ==> self.entries@[j].offset <= self.entries@[b as int].offset,
                    None => forall|j: int| 0 <= j < i ==> !((#[trigger] self.entries@[j]).shard_key@ == key@
                        && self.entries@[j].offset <= offset),
                },
            decreases n - i,
        {
            let e = &self.entries[i];
            if e.offset <= offset && e.shard_key == key {
                match best {
                    Some(b) => {
                        if self.entries[b].offset < e.offset {
                            best = Some(i);
                        }
                    },
                    None => {
                        best = Some(i);
                    },
                }
            }
            i = i + 1;
        }
        match best {
            None => {
                proof {
                    if exists|start: u64| is_deciding(m, key@, offset, start) {
                        let start = choose|start: u64| is_deciding(m, key@, offset, start);
                        assert(m.dom().contains((key@, start)));
                        let j = choose|j: int|
                            0 <= j < self.entries@.len() && (#[trigger] self.entries@[j]).shard_key@ == key@
                                && self.entries@[j].offset == start;
                        assert(!(self.entries@[j].shard_key@ == key@ && self.entries@[j].offset <= offset));
                    }
                }
                None
            },
            Some(b) => {
                let e = &self.entries[b];
                let ghost start = e.offset;
                proof {
                    assert(m.dom().contains((key@, start)));
                    assert forall|o: u64| #[trigger] m.dom().contains((key@, o)) && o <= offset implies o <= start by {
                        let j = choose|j: int|
                            0 <= j < self.entries@.len() && (#[trigger] self.entries@[j]).shard_key@ == key@
                                && self.entries@[j].offset == o;
                    }
                    assert(is_deciding(m, key@, offset, start));
                    let c = choose|c: u64| is_deciding(m, key@, offset, c);
                    assert(c <= start && start <= c);
                    assert(m[(key@, start)] == (e.length, e.content_id@));
                }
                if (offset as u128) < (e.offset as u128) + (e.length as u128) {
                    Some(SourceRef { content_id: e.content_id.clone(), offset_within_source: offset - e.offset })
                } else {
                    None
                }
            },
        }
    }
}

/// A recorded span resolves its own positions: once `content_id` is recorded
/// for tokens `start..start + length` of a shard, any offset in that range
/// resolves to `content_id` at `offset - start`, unless a later record of the
/// same shard starts between `start` and the offset.
pub proof fn law_record_then_resolve(
    m: Map<(Seq<char>, u64), (u32, Seq<char>)>,
    key: Seq<char>,
    start: u64,
    length: u32,
    content_id: Seq<char>,
    offset: u64,
)
    requires
        start <= offset < start + length,
        forall|o: u64| start < o <= offset ==> !m.dom().contains((key, o)),
    ensures
        resolve_spec(m.insert((key, start), (length, content_id)), key, offset) == Some(
            (content_id, (offset - start) as u64),
        ),
{
    let m2 = m.insert((key, start), (length, content_id));
    assert(is_deciding(m2, key, offset, start));
    let c = choose|c: u64| is_deciding(m2, key, offset, c);
    assert(c <= start && start <= c);
}

/// Recording in one shard leaves lookups in every other shard as they were.
pub proof fn law_record_other_shard(
    m: Map<(Seq<char>, u64), (u32, Seq<char>)>,
    key: Seq<char>,
    start: u64,
    length: u32,
    content_id: Seq<char>,
    other: Seq<char>,
    offset: u64,
)
    requires
        other != key,
    ensures
        resolve_spec(m.insert((key, start), (length, content_id)), other, offset) == resolve_spec(m, other, offset),
{
    let m2 = m.insert((key, start), (length, content_id));
    assert forall|s: u64| is_deciding(m2, other, offset, s) <==> is_deciding(m, other, offset, s) by {
        if is_deciding(m, other, offset, s) {
            assert forall|o: u64| #[trigger] m2.dom().contains((other, o)) && o <= offset implies o <= s by {
                assert(m.dom().contains((other, o)));
            }
        }
        if is_deciding(m2, other, offset, s) {
            assert forall|o: u64| #[trigger] m.dom().contains((other, o)) && o <= offset implies o <= s by {
                assert(m2.dom().contains((other, o)));
            }
        }
    }
    if exists|s: u64| is_deciding(m, other, offset, s) {
        let s1 = choose|s: u64| is_deciding(m, other, offset, s);
        let s2 = choose|s: u64| is_deciding(m2, other, offset, s);
        assert(is_deciding(m2, other, offset, s1));
        assert(s1 <= s2 && s2 <= s1);
        assert(m2[(other, s1)] == m[(other, s1)]);
    }
}

/// A decimal numeral padded with leading zeros to `width` characters.
pub open spec fn zero_padded(d: Seq<char>, width: nat) -> Seq<char> {
    if d.len() < width {
        Seq::new((width - d.len()) as nat, |i: int| '0') + d
    } else {
        d
    }
}

/// The storage key of a span: the shard key, a colon, and the start offset
/// as twenty zero-padded digits, so that keys sort by offset.
pub open spec fn storage_key_spec(key: Seq<char>, offset: u64) -> Seq<char> {
    key + seq![':'] + zero_padded(decimal_spec(offset as nat), 20)
}

/// The storage key of the span of `shard` that starts at `offset`.
pub fn storage_key(shard: &ShardId, offset: u64) -> (s: String)
    ensures
        s@ == storage_key_spec(shard.key(), offset),
{
    let mut s = shard.to_key();
    push_char(&mut s, ':');
    let d = decimal(offset);
    let digits = chars_of(d.as_str());
    let ghost before = s@;
    if digits.len() < 20 {
        let pad = 20 - digits.len();
        let mut i: usize = 0;
        while i < pad
            invariant
                i <= pad,
                s@ == before + Seq::new(i as nat, |j: int| '0'),
            decreases pad - i,
        {
            push_char(&mut s, '0');
            i = i + 1;
            assert(s@ =~= before + Seq::new(i as nat, |j: int| '0'));
        }
    }
    push_str(&mut s, d.as_str());
    assert(s@ =~= storage_key_spec(shard.key(), offset));
    s
}

/// The shard a storage key belongs to: the text before its last twenty-one
/// characters, parsed as a shard key.
pub open spec fn storage_key_shard_spec(k: Seq<char>) -> Option<(Seq<char>, Seq<char>, Seq<char>)> {
    if k.len() < 21 {
        None
    } else {
        parse_key(k.subrange(0, k.len() - 21))
    }
}

/// The shard a storage key belongs to, if its key part parses.
pub fn storage_key_shard(k: &str) -> (r: Option<ShardId>)
    ensures
        match storage_key_shard_spec(k@) {
            Some((n, c, e)) => r matches Some(id) && id.namespace@ == n && id.category@ == c
                && id.entity_id@ == e,
            None => r is None,
        },
{
    let v = chars_of(k);
    if v.len() < 21 {
        return None;
    }
    let head = string_from_chars(&v, 0, v.len() - 21);
    ShardId::parse(head.as_str())
}

/// Ten to the power `k`.
spec fn pow10(k: nat) -> nat
    decreases k,
{
    if k == 0 {
        1
    } else {
        10 * pow10((k - 1) as nat)
    }
}

proof fn lemma_decimal_len(n: nat, k: nat)
    requires
        n < pow10(k),
        k >= 1,
    ensures
        decimal_spec(n).len() <= k,
    decreases k,
{
    if n >= 10 {
        if k == 1 {
            assert(pow10(1) == 10 * pow10(0));
        }
        assert(n / 10 < pow10((k - 1) as nat));
        lemma_decimal_len(n / 10, (k - 1) as nat);
    }
}

/// A stored span is found again under its shard: the shard part of its
/// storage key parses back to the shard, whenever the shard's key parses
/// back to it (no dot in its namespace or category).
pub proof fn law_storage_key_round_trip(id: ShardId, offset: u64)
    requires
        has_no_dot(id.namespace@),
        has_no_dot(id.category@),
    ensures
        storage_key_shard_spec(storage_key_spec(id.key(), offset)) == Some(
            (id.namespace@, id.category@, id.entity_id@),
        ),
{
    let d = decimal_spec(offset as nat);
    assert(pow10(20) == 100000000000000000000nat) by {
        reveal_with_fuel(pow10, 21);
    }
    lemma_decimal_len(offset as nat, 20);
    let z = zero_padded(d, 20);
    assert(z.len() == 20);
    let k = storage_key_spec(id.key(), offset);
    assert(k.subrange(0, k.len() - 21) =~= id.key());
    lemma_parse_to_key(id);
}

} // verus!
