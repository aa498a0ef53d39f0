use std::collections::HashMap;
use std::io::Cursor;
use std::io::Write;

use ci_logs_to_otel::claims::ClaimTable;
use ci_logs_to_otel::fetch::{CacheReply, CacheRequest, Failure};
use ci_logs_to_otel::interval::TimeInterval;
use ci_logs_to_otel::pipeline::{Pipeline, Reply, Request, Settings, Stage};
use ci_logs_to_otel::run::Run;
use ci_logs_to_otel::span::{Notice, RunTrace, SpanNode};
use ci_logs_to_otel::timestamp::Timestamp;
use zip::write::SimpleFileOptions;
use zip::ZipWriter;

const T0: Timestamp = Timestamp { secs: 1_704_060_000, nanos: 0 };
const T1: Timestamp = Timestamp { secs: 1_704_070_000, nanos: 0 };
const GOOD: &[u8] = b"2024-01-01T00:00:00Z hello\nmiddle\n2024-01-01T00:05:00Z done\n";

fn settings() -> Settings {
    Settings {
        owner: "octo".to_string(),
        repo: "widgets".to_string(),
        target_name: "test".to_string(),
        page_size: 100,
        cache_root: "/cache".to_string(),
        archive_extension: "zip".to_string(),
        validate_cache: false,
    }
}

fn run(id: u64, name: &str, status: &str) -> Run {
    Run {
        id,
        name: name.to_string(),
        branch: "main".to_string(),
        status: status.to_string(),
        conclusion: Some("success".to_string()),
        created_at: T0,
        updated_at: T1,
    }
}

fn archive(files: &[(&str, &[u8])]) -> Vec<u8> {
    let mut writer = ZipWriter::new(Cursor::new(Vec::new()));
    for (name, text) in files {
        writer.start_file(*name, SimpleFileOptions::default()).unwrap();
        writer.write_all(text).unwrap();
    }
    writer.finish().unwrap().into_inner()
}

/// A provider, a disk, a claim table and a sink, all in memory.
struct World {
    listing: Option<Vec<Run>>,
    remote: HashMap<u64, Vec<u8>>,
    files: HashMap<String, Vec<u8>>,
    claims: ClaimTable,
    listings: usize,
    downloads: Vec<u64>,
    opened: Vec<RunTrace>,
    emitted: Vec<RunTrace>,
    flushes: usize,
    log: Vec<&'static str>,
}

fn world(listing: Option<Vec<Run>>) -> World {
    World {
        listing,
        remote: HashMap::new(),
        files: HashMap::new(),
        claims: ClaimTable::new(),
        listings: 0,
        downloads: Vec::new(),
        opened: Vec::new(),
        emitted: Vec::new(),
        flushes: 0,
        log: Vec::new(),
    }
}

/// Drives a pipeline to its end and gives what it exits with.
fn drive(world: &mut World) -> bool {
    drive_with(world, settings())
}

fn drive_with(world: &mut World, settings: Settings) -> bool {
    let (mut pipeline, mut request) = Pipeline::begin(settings);
    for _ in 0..10_000 {
        let reply = match request {
            Request::ListRuns { owner, repo, page_size } => {
                assert_eq!((owner.as_str(), repo.as_str(), page_size), ("octo", "widgets", 100));
                world.listings += 1;
                world.log.push("list");
                match &world.listing {
                    Some(runs) => Reply::Listed(runs.clone()),
                    None => Reply::ListFailed("bad credentials".to_string()),
                }
            }
            Request::Cache(asked) => Reply::Cache(match asked {
                CacheRequest::Acquire { path } => {
                    if world.claims.acquire(&path) {
                        CacheReply::Acquired
                    } else {
                        CacheReply::Busy
                    }
                }
                CacheRequest::Probe { path } => {
                    if world.files.contains_key(&path) {
                        CacheReply::Present
                    } else {
                        CacheReply::Missing
                    }
                }
                CacheRequest::Load { path } => CacheReply::Loaded(world.files[&path].clone()),
                CacheRequest::Download { run_id, .. } => {
                    world.downloads.push(run_id);
                    match world.remote.get(&run_id) {
                        Some(bytes) => CacheReply::Downloaded(bytes.clone()),
                        None => CacheReply::DownloadFailed("not found".to_string()),
                    }
                }
                CacheRequest::Store { path, .. } => {
                    let bytes = pipeline.lookup().unwrap().payload().clone();
                    world.files.insert(path, bytes);
                    CacheReply::Stored
                }
                CacheRequest::Release { path } => {
                    world.claims.release(&path);
                    CacheReply::Released
                }
            }),
            Request::Emit { trace, from: 0 } => {
                world.opened.push(trace);
                world.log.push("open");
                Reply::Emitted
            }
            Request::Emit { trace, from } => {
                assert_eq!(from, 1);
                assert_eq!(trace.spans[0], world.opened.last().unwrap().spans[0]);
                world.emitted.push(trace);
                world.log.push("emit");
                Reply::Emitted
            }
            Request::Flush => {
                world.flushes += 1;
                world.log.push("flush");
                Reply::Flushed
            }
            Request::Exit { failed } => {
                assert_eq!(pipeline.stage(), Stage::Over);
                return failed;
            }
        };
        let (next, asked) = pipeline.advance(reply);
        pipeline = next;
        request = asked;
    }
    panic!("the pipeline did not end");
}

#[test]
fn a_pipeline_begins_by_listing_the_runs() {
    let (pipeline, request) = Pipeline::begin(settings());
    assert_eq!(pipeline.stage(), Stage::Listing);
    assert!(pipeline.lookup().is_none());
    assert_eq!(
        request,
        Request::ListRuns { owner: "octo".to_string(), repo: "widgets".to_string(), page_size: 100 }
    );
}

#[test]
fn end_to_end_one_eligible_run() {
    let mut w = world(Some(vec![run(42, "test", "completed")]));
    w.remote.insert(42, archive(&[("step.log", GOOD)]));
    let failed = drive(&mut w);
    assert!(!failed);
    assert_eq!(w.downloads, vec![42]);
    assert_eq!(w.log, vec!["list", "open", "emit", "flush"]);
    assert_eq!(
        w.opened,
        vec![RunTrace {
            spans: vec![SpanNode {
                name: "42".to_string(),
                interval: TimeInterval { start: T0, end: T1 },
                parent: None,
            }],
            notices: Vec::new(),
        }]
    );
    assert_eq!(
        w.emitted,
        vec![RunTrace {
            spans: vec![
                SpanNode {
                    name: "42".to_string(),
                    interval: TimeInterval { start: T0, end: T1 },
                    parent: None,
                },
                SpanNode {
                    name: "step.log".to_string(),
                    interval: TimeInterval {
                        start: Timestamp { secs: 1_704_067_200, nanos: 0 },
                        end: Timestamp { secs: 1_704_067_500, nanos: 0 },
                    },
                    parent: Some(0),
                },
            ],
            notices: Vec::new(),
        }]
    );
    assert!(w.files.contains_key("/cache/octo/widgets/main/42.zip"));
    assert!(!w.claims.is_claimed(&"/cache/octo/widgets/main/42.zip".to_string()));
}

#[test]
fn only_eligible_runs_are_read_and_in_order() {
    let mut w = world(Some(vec![
        run(5, "test", "completed"),
        run(4, "build", "completed"),
        run(3, "test", "in_progress"),
        run(2, "test", "completed"),
    ]));
    for id in [2, 3, 4, 5] {
        w.remote.insert(id, archive(&[("step.log", GOOD)]));
    }
    assert!(!drive(&mut w));
    assert_eq!(w.downloads, vec![5, 2]);
    assert_eq!(w.emitted.len(), 2);
    assert_eq!(w.emitted[0].spans[0].name, "5");
    assert_eq!(w.emitted[1].spans[0].name, "2");
    assert_eq!(w.log, vec!["list", "open", "emit", "open", "emit", "flush"]);
}

#[test]
fn a_failed_listing_flushes_and_ends_with_an_error() {
    let mut w = world(None);
    assert!(drive(&mut w));
    assert_eq!(w.log, vec!["list", "flush"]);
    assert!(w.emitted.is_empty());
    assert!(w.downloads.is_empty());
}

#[test]
fn no_runs_is_no_error() {
    let mut w = world(Some(Vec::new()));
    assert!(!drive(&mut w));
    assert_eq!(w.log, vec!["list", "flush"]);
}

#[test]
fn a_failed_download_skips_to_the_next_run() {
    let mut w = world(Some(vec![
        run(1, "test", "completed"),
        run(2, "test", "completed"),
        run(3, "test", "completed"),
    ]));
    w.remote.insert(1, archive(&[("a", GOOD)]));
    w.remote.insert(3, b"no archive at all".to_vec());
    assert!(!drive(&mut w));
    assert_eq!(w.downloads, vec![1, 2, 3]);
    assert_eq!(w.emitted.len(), 3);
    assert_eq!(w.emitted[0].spans.len(), 2);
    assert_eq!(w.emitted[1].spans.len(), 1);
    assert_eq!(w.emitted[1].spans[0].name, "2");
    assert_eq!(
        w.emitted[1].notices,
        vec![Notice::ArchiveUnavailable {
            failure: Failure::Download,
            reason: "not found".to_string()
        }]
    );
    assert_eq!(w.emitted[2].spans.len(), 1);
    assert!(matches!(w.emitted[2].notices[0], Notice::ArchiveRejected { .. }));
    assert_eq!(w.flushes, 1);
}

#[test]
fn a_second_pipeline_reads_the_cache() {
    let mut w = world(Some(vec![run(42, "test", "completed")]));
    w.remote.insert(42, archive(&[("step.log", GOOD)]));
    assert!(!drive(&mut w));
    let first = w.emitted.pop().unwrap();
    w.log.clear();
    w.opened.clear();
    assert!(!drive(&mut w));
    assert_eq!(w.downloads, vec![42]);
    assert_eq!(w.emitted, vec![first]);
}

#[test]
fn a_reply_out_of_turn_ends_the_pipeline_behind_a_flush() {
    let (pipeline, _) = Pipeline::begin(settings());
    let (pipeline, request) = pipeline.advance(Reply::Emitted);
    assert_eq!(request, Request::Flush);
    assert_eq!(pipeline.stage(), Stage::Flushing);
    let (pipeline, request) = pipeline.advance(Reply::Flushed);
    assert_eq!(request, Request::Exit { failed: true });
    let (_, again) = pipeline.advance(Reply::Flushed);
    assert_eq!(again, Request::Exit { failed: true });

    let (pipeline, _) = Pipeline::begin(settings());
    let (pipeline, request) = pipeline.advance(Reply::Listed(vec![run(1, "test", "completed")]));
    assert!(matches!(request, Request::Emit { from: 0, .. }));
    assert_eq!(pipeline.stage(), Stage::Opening);
    let (pipeline, request) = pipeline.advance(Reply::Emitted);
    assert!(matches!(request, Request::Cache(CacheRequest::Acquire { .. })));
    assert_eq!(pipeline.stage(), Stage::Fetching);
    let (pipeline, request) = pipeline.advance(Reply::Flushed);
    assert_eq!(request, Request::Flush);
    let (_, request) = pipeline.advance(Reply::Flushed);
    assert_eq!(request, Request::Exit { failed: true });
}

#[test]
fn a_flush_that_is_not_confirmed_is_an_error() {
    let (pipeline, _) = Pipeline::begin(settings());
    let (pipeline, request) = pipeline.advance(Reply::Listed(Vec::new()));
    assert_eq!(request, Request::Flush);
    let (_, request) = pipeline.advance(Reply::Emitted);
    assert_eq!(request, Request::Exit { failed: true });
}

#[test]
fn a_validating_pipeline_replaces_a_damaged_cache_file() {
    let good = archive(&[("step.log", GOOD)]);
    let mut w = world(Some(vec![run(42, "test", "completed")]));
    w.remote.insert(42, good.clone());
    w.files.insert("/cache/octo/widgets/main/42.zip".to_string(), b"cut off".to_vec());
    let mut validating = settings();
    validating.validate_cache = true;
    assert!(!drive_with(&mut w, validating));
    assert_eq!(w.downloads, vec![42]);
    assert_eq!(w.files["/cache/octo/widgets/main/42.zip"], good);
    assert_eq!(w.emitted[0].spans.len(), 2);

    // Without validation the damaged file is a hit, and the run has no children.
    let mut w = world(Some(vec![run(42, "test", "completed")]));
    w.remote.insert(42, good);
    w.files.insert("/cache/octo/widgets/main/42.zip".to_string(), b"cut off".to_vec());
    assert!(!drive(&mut w));
    assert!(w.downloads.is_empty());
    assert_eq!(w.emitted[0].spans.len(), 1);
    assert!(matches!(w.emitted[0].notices[0], Notice::ArchiveRejected { .. }));
}

#[test]
fn cancelling_while_listing_flushes_and_is_no_error() {
    let (pipeline, _) = Pipeline::begin(settings());
    let (pipeline, request) = pipeline.advance(Reply::Cancelled);
    assert_eq!(request, Request::Flush);
    assert_eq!(pipeline.stage(), Stage::Flushing);
    let (pipeline, request) = pipeline.advance(Reply::Flushed);
    assert_eq!(request, Request::Exit { failed: false });
    assert_eq!(pipeline.stage(), Stage::Over);
}

#[test]
fn cancelling_a_lookup_gives_up_its_claim_first() {
    let path = "/cache/octo/widgets/main/1.zip".to_string();
    let listed = vec![run(1, "test", "completed"), run(2, "test", "completed")];

    // Before the claim is granted there is nothing to give up.
    let (pipeline, _) = Pipeline::begin(settings());
    let (pipeline, _) = pipeline.advance(Reply::Listed(listed.clone()));
    let (pipeline, _) = pipeline.advance(Reply::Emitted);
    let (pipeline, request) = pipeline.advance(Reply::Cancelled);
    assert_eq!(request, Request::Flush);
    assert!(pipeline.lookup().is_none());

    // With the claim held it is released, then the sink is flushed.
    let (pipeline, _) = Pipeline::begin(settings());
    let (pipeline, _) = pipeline.advance(Reply::Listed(listed));
    let (pipeline, _) = pipeline.advance(Reply::Emitted);
    let (pipeline, _) = pipeline.advance(Reply::Cache(CacheReply::Acquired));
    let (pipeline, request) = pipeline.advance(Reply::Cache(CacheReply::Missing));
    assert!(matches!(request, Request::Cache(CacheRequest::Download { run_id: 1, .. })));
    let (pipeline, request) = pipeline.advance(Reply::Cancelled);
    assert_eq!(request, Request::Cache(CacheRequest::Release { path }));
    assert_eq!(pipeline.stage(), Stage::Stopping);
    assert!(pipeline.lookup().is_none());
    let (pipeline, request) = pipeline.advance(Reply::Cache(CacheReply::Released));
    assert_eq!(request, Request::Flush);
    let (_, request) = pipeline.advance(Reply::Flushed);
    assert_eq!(request, Request::Exit { failed: false });
}

#[test]
fn cancelling_between_runs_begins_no_further_run() {
    let mut w = world(Some(vec![run(1, "test", "completed"), run(2, "test", "completed")]));
    w.remote.insert(1, archive(&[("a", GOOD)]));
    let (mut pipeline, mut request) = Pipeline::begin(settings());
    let mut emitted = 0;
    loop {
        let reply = match request {
            Request::ListRuns { .. } => Reply::Listed(w.listing.clone().unwrap()),
            Request::Cache(CacheRequest::Acquire { .. }) => Reply::Cache(CacheReply::Acquired),
            Request::Cache(CacheRequest::Probe { .. }) => Reply::Cache(CacheReply::Missing),
            Request::Cache(CacheRequest::Download { run_id, .. }) => {
                Reply::Cache(CacheReply::Downloaded(w.remote[&run_id].clone()))
            }
            Request::Cache(CacheRequest::Store { .. }) => Reply::Cache(CacheReply::Stored),
            Request::Cache(_) => Reply::Cache(CacheReply::Released),
            Request::Emit { from: 0, .. } => Reply::Emitted,
            Request::Emit { .. } => {
                emitted += 1;
                Reply::Cancelled
            }
            Request::Flush => Reply::Flushed,
            Request::Exit { failed } => {
                assert!(!failed);
                break;
            }
        };
        let (next, asked) = pipeline.advance(reply);
        pipeline = next;
        request = asked;
    }
    assert_eq!(emitted, 1);
}

#[test]
fn the_span_of_a_run_is_out_before_its_download() {
    let mut w = world(Some(vec![run(7, "test", "completed")]));
    let (pipeline, _) = Pipeline::begin(settings());
    let (pipeline, request) = pipeline.advance(Reply::Listed(w.listing.take().unwrap()));
    match request {
        Request::Emit { trace, from } => {
            assert_eq!(from, 0);
            assert_eq!(trace.spans.len(), 1);
            assert_eq!(trace.spans[0].name, "7");
            assert_eq!(trace.spans[0].parent, None);
            assert!(trace.notices.is_empty());
        }
        other => panic!("unexpected request {other:?}"),
    }
    assert!(pipeline.lookup().is_none());
    let (pipeline, request) = pipeline.advance(Reply::Emitted);
    assert_eq!(
        request,
        Request::Cache(CacheRequest::Acquire { path: "/cache/octo/widgets/main/7.zip".to_string() })
    );
    assert!(pipeline.lookup().is_some());
}

#[test]
fn cancelling_before_the_lookup_flushes_at_once() {
    let (pipeline, _) = Pipeline::begin(settings());
    let (pipeline, _) = pipeline.advance(Reply::Listed(vec![run(7, "test", "completed")]));
    let (pipeline, request) = pipeline.advance(Reply::Cancelled);
    assert_eq!(request, Request::Flush);
    let (_, request) = pipeline.advance(Reply::Flushed);
    assert_eq!(request, Request::Exit { failed: false });
}
