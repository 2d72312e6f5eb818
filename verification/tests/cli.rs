use memex::cli::{parse_kv, parse_shard};

#[test]
fn parse_valid_shard() {
    let (a, b, c) = parse_shard("bhs.corpus.all").unwrap();
    assert_eq!((a.as_str(), b.as_str(), c.as_str()), ("bhs", "corpus", "all"));
}

#[test]
fn parse_invalid_shard() {
    assert!(parse_shard("bhs.corpus").is_err());
    assert!(parse_shard("bhs").is_err());
    assert!(parse_shard("").is_err());
}

#[test]
fn driver_options_kv_parses() {
    let kv = parse_kv("locale=en-US").unwrap();
    assert_eq!(kv, ("locale".to_owned(), "en-US".to_owned()));
    // Values containing '=' keep the rest intact.
    let kv = parse_kv("token=abc=def").unwrap();
    assert_eq!(kv, ("token".to_owned(), "abc=def".to_owned()));
}

#[test]
fn driver_options_kv_rejects_bare() {
    assert!(parse_kv("no-equals-sign").is_err());
}

#[test]
fn parse_shard_rejects_empty_parts() {
    assert!(parse_shard(".corpus.all").is_err());
    assert!(parse_shard("bhs..all").is_err());
    assert!(parse_shard("bhs.corpus.").is_err());
}

#[test]
fn parse_shard_keeps_dots_in_entity() {
    let (a, b, c) = parse_shard("bhs.corpus.a.b").unwrap();
    assert_eq!((a.as_str(), b.as_str(), c.as_str()), ("bhs", "corpus", "a.b"));
}

#[test]
fn parse_shard_error_quotes_input() {
    let e = parse_shard("bhs").unwrap_err();
    assert_eq!(e, "shard must be in `namespace.category.entity_id` form, got \"bhs\"");
}

#[test]
fn parse_kv_error_quotes_input() {
    let e = parse_kv("a\"b").unwrap_err();
    assert_eq!(e, "expected key=value, got \"a\\\"b\"");
}

#[test]
fn parse_kv_empty_key_and_value() {
    assert_eq!(parse_kv("=").unwrap(), (String::new(), String::new()));
}
