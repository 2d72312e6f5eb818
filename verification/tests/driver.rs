use memex::driver::{ingest_capabilities, Chunk, CorpusConfig, DriverError, IngestErrorRecord, GUEST_CORPUS_ROOT};

#[test]
fn generated_types_have_expected_shape() {
    let config = CorpusConfig {
        root: "/corpus".to_owned(),
        options: vec![("strip-frontmatter".to_owned(), "true".to_owned())],
    };
    assert_eq!(config.root, "/corpus");
    assert_eq!(config.options.len(), 1);

    let chunk = Chunk {
        id: "history/cash.md".to_owned(),
        text: "founding story...".to_owned(),
        source_ref: "history/cash.md".to_owned(),
        metadata: vec![("author".to_owned(), "wiki".to_owned())],
    };
    assert_eq!(chunk.id, "history/cash.md");

    let err = IngestErrorRecord {
        kind: "parse".to_owned(),
        message: "yaml fail".to_owned(),
        context: Some("history/cash.md".to_owned()),
    };
    let wrapped = DriverError::from_ingest_error("init", err);
    match wrapped {
        DriverError::Driver { export, kind, .. } => {
            assert_eq!(export, "init");
            assert_eq!(kind, "parse");
        }
        other => panic!("expected DriverError::Driver, got {other:?}"),
    }
}

#[test]
fn ingest_capabilities_grants_one_read_only_mount() {
    let caps = ingest_capabilities("C:/some/corpus");
    assert_eq!(caps.filesystem.len(), 1);
    let fs = &caps.filesystem[0];
    assert!(fs.read_only);
    assert_eq!(fs.guest_path, GUEST_CORPUS_ROOT);
    assert_eq!(fs.host_path, "C:/some/corpus");
    assert!(caps.env_vars.is_empty());
    assert!(!caps.stdio);
}

#[test]
fn driver_error_messages() {
    let with_context = DriverError::Driver {
        export: "next-chunk",
        kind: "io".to_owned(),
        message: "unreadable".to_owned(),
        context: Some("a.md".to_owned()),
    };
    assert_eq!(with_context.message(), "driver reported io: unreadable (context: a.md)");
    let bare = DriverError::Driver { export: "init", kind: "config".to_owned(), message: "bad".to_owned(), context: None };
    assert_eq!(bare.message(), "driver reported config: bad");
    assert_eq!(DriverError::Runtime("boom".to_owned()).message(), "agentos-wasm runtime error: boom");
    assert_eq!(DriverError::CorpusNotFound("/x".to_owned()).message(), "corpus path does not exist: /x");
    let trap = DriverError::Trap { export: "finish", message: "unreachable".to_owned() };
    assert_eq!(trap.message(), "wasm call failed (finish): unreachable");
}
