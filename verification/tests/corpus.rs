use memex::corpus::{
    chunk_for_file, corpus_driver_metadata, ingest_err, is_blank, path_before, sort_paths, strip_frontmatter,
    to_forward_slashes, CorpusSession, CorpusWalk,
};

#[test]
fn strip_lf_frontmatter() {
    let s = "---\ntitle: foo\n---\n# Heading\nbody\n";
    assert_eq!(strip_frontmatter(s), "# Heading\nbody\n");
}

#[test]
fn strip_crlf_frontmatter() {
    let s = "---\r\ntitle: foo\r\n---\r\n# Heading\r\n";
    assert_eq!(strip_frontmatter(s), "# Heading\r\n");
}

#[test]
fn no_frontmatter_passthrough() {
    let s = "# Just a heading\nno yaml here\n";
    assert_eq!(strip_frontmatter(s), s);
}

#[test]
fn unterminated_frontmatter_passthrough() {
    let s = "---\ntitle: foo\nbody\n";
    assert_eq!(strip_frontmatter(s), s);
}

#[test]
fn bom_before_frontmatter_is_dropped() {
    let s = "\u{feff}---\nx: 1\n---\nbody";
    assert_eq!(strip_frontmatter(s), "body");
}

#[test]
fn closing_line_without_newline_gives_empty_body() {
    assert_eq!(strip_frontmatter("---\nx: 1\n---"), "");
}

#[test]
fn opening_line_must_end_after_dashes() {
    let s = "----\nx\n---\nbody";
    assert_eq!(strip_frontmatter(s), s);
}

#[test]
fn closing_line_may_carry_carriage_returns() {
    assert_eq!(strip_frontmatter("---\na\n---\r\r\nrest"), "rest");
}

#[test]
fn blank_detection_follows_unicode_white_space() {
    assert!(is_blank(""));
    assert!(is_blank(" \t\r\n\u{3000}\u{a0}"));
    assert!(!is_blank(" x "));
}

#[test]
fn chunk_skips_frontmatter_only_files() {
    assert!(chunk_for_file("a.md", "---\nx: 1\n---\n  \n").is_none());
}

#[test]
fn chunk_normalizes_ids() {
    let c = chunk_for_file("history\\cash.md", "---\nx: 1\n---\n# Cash\n").unwrap();
    assert_eq!(c.id, "history/cash.md");
    assert_eq!(c.source_ref, "history/cash.md");
    assert_eq!(c.text, "# Cash\n");
    assert!(c.metadata.is_empty());
    assert_eq!(to_forward_slashes("a\\b\\c"), "a/b/c");
}

#[test]
fn ingest_err_keeps_fields() {
    let e = ingest_err("io", "walking corpus: boom", Some("/corpus"));
    assert_eq!(e.kind, "io");
    assert_eq!(e.message, "walking corpus: boom");
    assert_eq!(e.context.as_deref(), Some("/corpus"));
    assert!(ingest_err("config", "m", None).context.is_none());
}

#[test]
fn paths_sort_component_by_component() {
    let found = vec!["b.md".to_owned(), "a-b.md".to_owned(), "a/b.md".to_owned(), "a/a.md".to_owned(), "A.md".to_owned()];
    let sorted = sort_paths(found);
    assert_eq!(sorted, vec!["A.md", "a/a.md", "a/b.md", "a-b.md", "b.md"]);
    let mut as_paths: Vec<std::path::PathBuf> = sorted.iter().map(std::path::PathBuf::from).collect();
    as_paths.sort();
    let back: Vec<String> = as_paths.iter().map(|p| p.to_string_lossy().into_owned()).collect();
    assert_eq!(back, sorted);
}

#[test]
fn path_before_ranks_separator_lowest() {
    assert!(path_before("a/z", "a-b"));
    assert!(!path_before("a-b", "a/z"));
    assert!(path_before("a", "a/b"));
    assert!(!path_before("x", "x"));
}

#[test]
fn corpus_walk_visits_each_file_once_in_order() {
    let mut walk = CorpusWalk::new(vec!["z.md".to_owned(), "history/cash.md".to_owned(), "about.md".to_owned()]);
    assert_eq!(walk.next_file().as_deref(), Some("about.md"));
    assert_eq!(walk.next_file().as_deref(), Some("history/cash.md"));
    assert_eq!(walk.next_file().as_deref(), Some("z.md"));
    assert_eq!(walk.next_file(), None);
    assert_eq!(walk.next_file(), None);
}

#[test]
fn markdown_driver_describes_itself() {
    let m = corpus_driver_metadata();
    assert_eq!(m.name, "bhs-corpus");
    assert_eq!(m.accepts, vec!["*.md"]);
    assert!(m.description.starts_with("BHS markdown corpus"));
}

#[test]
fn corpus_walk_reads_files_in_order_and_skips_blank_ones() {
    let mut walk = CorpusWalk::new(vec!["b.md".to_owned(), "a\\x.md".to_owned(), "blank.md".to_owned()]);
    assert!(walk.file_read("ignored").is_none());
    assert_eq!(walk.next_file().as_deref(), Some("a\\x.md"));
    let c = walk.file_read("---\nt: 1\n---\nbody a").unwrap();
    assert_eq!((c.id.as_str(), c.source_ref.as_str(), c.text.as_str()), ("a/x.md", "a/x.md", "body a"));
    assert_eq!(walk.next_file().as_deref(), Some("b.md"));
    assert_eq!(walk.file_read("b").unwrap().id, "b.md");
    assert_eq!(walk.next_file().as_deref(), Some("blank.md"));
    assert!(walk.file_read("---\nx: 1\n---\n  \n").is_none());
    assert_eq!(walk.next_file(), None);
}

#[test]
fn session_refuses_before_init_and_restarts() {
    let mut session = CorpusSession::idle();
    let e = session.next_file().unwrap_err();
    assert_eq!((e.kind.as_str(), e.message.as_str(), e.context.is_none()), ("config", "next_chunk called before init", true));
    session.start(vec!["b.md".to_owned(), "a.md".to_owned()]);
    assert_eq!(session.next_file().unwrap().as_deref(), Some("a.md"));
    assert_eq!(session.file_read("alpha").unwrap().id, "a.md");
    session.start(vec!["a.md".to_owned(), "b.md".to_owned()]);
    assert_eq!(session.next_file().unwrap().as_deref(), Some("a.md"));
    session.stop();
    assert!(session.next_file().is_err());
    assert!(session.file_read("x").is_none());
}
