use memex::smoke::{build_globset, default_actor, default_top_k, first_match, QueryOutcome, SmokeReport};

fn outcome(pass: bool) -> QueryOutcome {
    QueryOutcome { name: "q".to_owned(), pass, detail: String::new() }
}

#[test]
fn report_counts() {
    let r = SmokeReport { outcomes: vec![outcome(true), outcome(false), outcome(true)] };
    assert_eq!(r.pass_count(), 2);
    assert_eq!(r.fail_count(), 1);
    assert!(!r.all_passed());
    let ok = SmokeReport { outcomes: vec![outcome(true)] };
    assert!(ok.all_passed());
    assert!(SmokeReport { outcomes: vec![] }.all_passed());
}

#[test]
fn defaults() {
    assert_eq!(default_top_k(), 10);
    assert_eq!(default_actor(), "smoke-test");
}

fn sources(v: &[Option<&str>]) -> Vec<Option<String>> {
    v.iter().map(|s| s.map(str::to_owned)).collect()
}

#[test]
fn positive_matches_within_max_rank() {
    let set = build_globset(&["history/people-owen-cash.md".to_owned()]).unwrap();
    let s = sources(&[Some("bhs-org/about.md"), Some("history/people-owen-cash.md")]);
    // Index 1 is rank 2.
    assert_eq!(first_match(&set, &s, 3), Some(1));
}

#[test]
fn positive_misses_when_glob_absent_from_top_k() {
    let set = build_globset(&["history/*.md".to_owned()]).unwrap();
    let s = sources(&[Some("bhs-org/about.md"), Some("forums/community-directory.md")]);
    assert_eq!(first_match(&set, &s, 10), None);
}

#[test]
fn positive_honors_max_rank_cutoff() {
    let set = build_globset(&["history/*.md".to_owned()]).unwrap();
    let s = sources(&[Some("forums/community-directory.md"), Some("history/people-owen-cash.md")]);
    assert_eq!(first_match(&set, &s, 1), None);
    assert_eq!(first_match(&set, &s, 2), Some(1));
}

#[test]
fn positive_glob_pattern_matches_subtree() {
    let set = build_globset(&["history/people-*.md".to_owned()]).unwrap();
    let s = sources(&[Some("history/people-cash.md")]);
    assert_eq!(first_match(&set, &s, 10), Some(0));
}

#[test]
fn positive_skips_hits_without_source_id() {
    let set = build_globset(&["history/*.md".to_owned()]).unwrap();
    let s = sources(&[None, Some("history/cash.md")]);
    assert_eq!(first_match(&set, &s, 10), Some(1));
}

#[test]
fn invalid_glob_is_reported() {
    let err = build_globset(&["ok/*.md".to_owned(), "[".to_owned()]).unwrap_err();
    assert_eq!(err, "compiling glob \"[\"");
}
