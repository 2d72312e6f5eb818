use memex::run::{check_smoke_config, decimal, shard_probe, ChunkAction, IngestRun, RunStep, ShardProbe};

#[test]
fn decimal_formatting() {
    assert_eq!(decimal(0), "0");
    assert_eq!(decimal(7), "7");
    assert_eq!(decimal(1234567890), "1234567890");
    assert_eq!(decimal(u64::MAX), u64::MAX.to_string());
}

#[test]
fn limit_stops_before_next_pull() {
    let mut run = IngestRun::new(Some(2), true);
    assert_eq!(run.next_step(), RunStep::Pull);
    assert_eq!(run.on_chunk(), ChunkAction::Print);
    assert_eq!(run.next_step(), RunStep::Pull);
    run.on_chunk();
    assert_eq!(run.next_step(), RunStep::Stop);
    assert!(run.finish().is_ok());
}

#[test]
fn failures_are_reported() {
    let mut run = IngestRun::new(None, false);
    assert_eq!(run.on_chunk(), ChunkAction::Send);
    run.on_sent(Some(12));
    run.on_chunk();
    run.on_sent(None);
    run.on_chunk();
    run.on_sent(Some(3));
    assert_eq!((run.emitted, run.ok, run.failed, run.total_tokens), (3, 2, 1, 15));
    assert_eq!(run.finish().unwrap_err(), "1 of 3 ingest requests failed");
}

#[test]
fn probe_statuses() {
    assert_eq!(shard_probe(200), ShardProbe::Exists);
    assert_eq!(shard_probe(404), ShardProbe::Missing);
    assert_eq!(shard_probe(500), ShardProbe::Unexpected);
}

#[test]
fn smoke_config_needs_shards_and_queries() {
    assert_eq!(check_smoke_config(0, 3).unwrap_err(), "smoke config has no shards");
    assert_eq!(check_smoke_config(1, 0).unwrap_err(), "smoke config has no queries");
    assert!(check_smoke_config(1, 1).is_ok());
}

#[test]
fn an_error_stops_the_run_and_is_reported_first() {
    let mut run = IngestRun::new(None, false);
    run.on_chunk();
    run.on_sent(None);
    assert_eq!(run.next_step(), RunStep::Pull);
    assert_eq!(run.on_error("driver reported io: gone".to_owned()), RunStep::Stop);
    run.on_error("second".to_owned());
    assert_eq!(run.next_step(), RunStep::Stop);
    assert_eq!(run.finish().unwrap_err(), "driver reported io: gone");
}
