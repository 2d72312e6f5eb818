use memex::shard::{ShardId, ShardState};

#[test]
fn key_joins_parts_with_dots() {
    let id = ShardId::new("bhs".into(), "corpus".into(), "all".into());
    assert_eq!(id.to_key(), "bhs.corpus.all");
    assert_eq!(id.to_string(), "bhs.corpus.all");
}

#[test]
fn parse_round_trips_key() {
    let id = ShardId::new("ns".into(), "cat".into(), "ent".into());
    assert_eq!(ShardId::parse(&id.to_key()), Some(id));
}

#[test]
fn parse_keeps_dots_in_entity_id() {
    let id = ShardId::parse("a.b.c.d").unwrap();
    assert_eq!(id.namespace, "a");
    assert_eq!(id.category, "b");
    assert_eq!(id.entity_id, "c.d");
    assert_eq!(id.to_key(), "a.b.c.d");
}

#[test]
fn parse_needs_two_dots() {
    assert!(ShardId::parse("").is_none());
    assert!(ShardId::parse("a").is_none());
    assert!(ShardId::parse("a.b").is_none());
    let id = ShardId::parse("..").unwrap();
    assert_eq!((id.namespace.as_str(), id.category.as_str(), id.entity_id.as_str()), ("", "", ""));
}

#[test]
fn dotted_namespace_does_not_round_trip() {
    let id = ShardId::new("a.b".into(), "c".into(), "d".into());
    assert_ne!(ShardId::parse(&id.to_key()), Some(id));
}

#[test]
fn state_names() {
    assert_eq!(ShardState::Pinned.name(), "Pinned");
    assert_eq!(ShardState::Resident.name(), "Resident");
    assert_eq!(ShardState::Cold.name(), "Cold");
}
