use memex::shard::ShardId;
use memex::sidecar::{storage_key, storage_key_shard, PositionMap};

fn sid(key: &str) -> ShardId {
    ShardId::parse(key).unwrap()
}

#[test]
fn record_then_resolve_inside_span() {
    let mut m = PositionMap::new();
    m.record(&sid("a.b.c"), 10, 5, "doc1");
    let r = m.resolve(&sid("a.b.c"), 12).unwrap();
    assert_eq!(r.content_id, "doc1");
    assert_eq!(r.offset_within_source, 2);
    assert_eq!(m.resolve(&sid("a.b.c"), 10).unwrap().offset_within_source, 0);
}

#[test]
fn resolve_outside_spans_is_none() {
    let mut m = PositionMap::new();
    m.record(&sid("a.b.c"), 10, 5, "doc1");
    assert!(m.resolve(&sid("a.b.c"), 15).is_none());
    assert!(m.resolve(&sid("a.b.c"), 9).is_none());
    assert!(m.resolve(&sid("a.b.x"), 12).is_none());
}

#[test]
fn latest_start_before_offset_decides() {
    let mut m = PositionMap::new();
    m.record(&sid("a.b.c"), 0, 100, "big");
    m.record(&sid("a.b.c"), 20, 5, "small");
    assert_eq!(m.resolve(&sid("a.b.c"), 22).unwrap().content_id, "small");
    // Past the small span, the deciding span is the small one: no result.
    assert!(m.resolve(&sid("a.b.c"), 30).is_none());
    assert_eq!(m.resolve(&sid("a.b.c"), 5).unwrap().content_id, "big");
}

#[test]
fn recording_same_start_replaces() {
    let mut m = PositionMap::new();
    m.record(&sid("a.b.c"), 0, 4, "old");
    m.record(&sid("a.b.c"), 0, 8, "new");
    let r = m.resolve(&sid("a.b.c"), 6).unwrap();
    assert_eq!(r.content_id, "new");
}

#[test]
fn zero_length_span_resolves_nothing() {
    let mut m = PositionMap::new();
    m.record(&sid("a.b.c"), 3, 0, "empty");
    assert!(m.resolve(&sid("a.b.c"), 3).is_none());
}

#[test]
fn spans_near_the_top_of_the_range() {
    let mut m = PositionMap::new();
    m.record(&sid("a.b.c"), u64::MAX - 1, 5, "end");
    assert_eq!(m.resolve(&sid("a.b.c"), u64::MAX).unwrap().offset_within_source, 1);
}

#[test]
fn storage_keys_pad_offsets_and_parse_back() {
    let id = ShardId::new("bhs".to_owned(), "corpus".to_owned(), "all".to_owned());
    assert_eq!(storage_key(&id, 42), "bhs.corpus.all:00000000000000000042");
    assert_eq!(storage_key(&id, u64::MAX), format!("bhs.corpus.all:{}", u64::MAX));
    assert!(storage_key(&id, 9) < storage_key(&id, 10));
    let back = storage_key_shard(&storage_key(&id, 7)).unwrap();
    assert_eq!(back, id);
    assert!(storage_key_shard("short").is_none());
}
