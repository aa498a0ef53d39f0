use std::collections::HashMap;

use std::io::Cursor;
use std::io::Write;

use ci_logs_to_otel::archive::LogArchiveReader;
use ci_logs_to_otel::cache::{ArchiveCache, CacheKey};
use ci_logs_to_otel::claims::ClaimTable;
use ci_logs_to_otel::decimal::to_decimal;
use ci_logs_to_otel::fetch::{ArchiveFetch, CacheReply, CacheRequest, Failure, FetchError, Phase, Step};
use ci_logs_to_otel::run::Run;
use ci_logs_to_otel::timestamp::Timestamp;
use zip::write::SimpleFileOptions;
use zip::ZipWriter;

fn key(run_id: u64) -> CacheKey {
    CacheKey {
        owner: "octo".to_string(),
        repo: "widgets".to_string(),
        branch: "main".to_string(),
        run_id,
    }
}

fn cache() -> ArchiveCache {
    ArchiveCache::new("/var/cache/logs".to_string(), "zip".to_string())
}

/// A disk, a claim table and a provider, all in memory.
struct World {
    files: HashMap<String, Vec<u8>>,
    staged: Vec<String>,
    claims: ClaimTable,
    remote: Option<Vec<u8>>,
    downloads: usize,
    disk_full: bool,
}

fn world(remote: Option<&[u8]>) -> World {
    World {
        files: HashMap::new(),
        staged: Vec::new(),
        claims: ClaimTable::new(),
        remote: remote.map(|b| b.to_vec()),
        downloads: 0,
        disk_full: false,
    }
}

fn serve(world: &mut World, fetch: &ArchiveFetch, request: CacheRequest) -> CacheReply {
    match request {
        CacheRequest::Acquire { path } => {
            if world.claims.acquire(&path) {
                CacheReply::Acquired
            } else {
                CacheReply::Busy
            }
        }
        CacheRequest::Probe { path } => {
            if world.files.contains_key(&path) {
                CacheReply::Present
            } else {
                CacheReply::Missing
            }
        }
        CacheRequest::Load { path } => match world.files.get(&path) {
            Some(bytes) => CacheReply::Loaded(bytes.clone()),
            None => CacheReply::LoadFailed("no such file".to_string()),
        },
        CacheRequest::Download { .. } => {
            world.downloads += 1;
            match &world.remote {
                Some(bytes) => CacheReply::Downloaded(bytes.clone()),
                None => CacheReply::DownloadFailed("not found".to_string()),
            }
        }
        CacheRequest::Store { staging, path } => {
            if world.disk_full {
                CacheReply::StoreFailed("disk full".to_string())
            } else {
                world.staged.push(staging);
                world.files.insert(path, fetch.payload().clone());
                CacheReply::Stored
            }
        }
        CacheRequest::Release { path } => {
            world.claims.release(&path);
            CacheReply::Released
        }
    }
}

fn get_archive(world: &mut World, key: CacheKey) -> Result<Vec<u8>, FetchError> {
    get_archive_from(world, &cache(), key)
}

fn get_archive_from(
    world: &mut World,
    cache: &ArchiveCache,
    key: CacheKey,
) -> Result<Vec<u8>, FetchError> {
    let (mut fetch, mut request) = ArchiveFetch::begin(cache, key);
    for _ in 0..16 {
        let reply = serve(world, &fetch, request);
        let (next, step) = fetch.advance(reply);
        fetch = next;
        match step {
            Step::Ask(asked) => request = asked,
            Step::Done(outcome) => {
                assert_eq!(fetch.phase(), Phase::Done);
                return outcome;
            }
        }
    }
    panic!("the lookup did not end");
}

#[test]
fn decimal_of_numbers() {
    assert_eq!(to_decimal(0), "0");
    assert_eq!(to_decimal(7), "7");
    assert_eq!(to_decimal(10), "10");
    assert_eq!(to_decimal(42), "42");
    assert_eq!(to_decimal(1_000_000), "1000000");
    assert_eq!(to_decimal(1_234_567_890), "1234567890");
    assert_eq!(to_decimal(u64::MAX), "18446744073709551615");
}

#[test]
fn the_path_of_an_archive() {
    assert_eq!(cache().path(&key(42)), "/var/cache/logs/octo/widgets/main/42.zip");
    assert_eq!(cache().staging(&key(42)), "/var/cache/logs/octo/widgets/main/42.zip.part");
}

#[test]
fn a_branch_with_a_slash_makes_a_directory() {
    let mut k = key(7);
    k.branch = "feature/x".to_string();
    assert_eq!(cache().path(&k), "/var/cache/logs/octo/widgets/feature/x/7.zip");
}

#[test]
fn the_key_of_a_run() {
    let run = Run {
        id: 42,
        name: "test".to_string(),
        branch: "main".to_string(),
        status: "completed".to_string(),
        conclusion: None,
        created_at: Timestamp { secs: 0, nanos: 0 },
        updated_at: Timestamp { secs: 1, nanos: 0 },
    };
    assert_eq!(CacheKey::for_run("octo", "widgets", &run), key(42));
    assert_eq!(key(42).clone(), key(42));
}

#[test]
fn runs_lie_apart() {
    assert_ne!(cache().path(&key(1)), cache().path(&key(2)));
    assert_ne!(cache().path(&key(1)), cache().path(&key(10)));
    assert_ne!(cache().staging(&key(1)), cache().path(&key(1)));
}

#[test]
fn a_lookup_begins_by_claiming_its_place() {
    let (fetch, request) = ArchiveFetch::begin(&cache(), key(42));
    assert_eq!(fetch.phase(), Phase::Acquiring);
    assert!(fetch.payload().is_empty());
    assert_eq!(
        request,
        CacheRequest::Acquire { path: "/var/cache/logs/octo/widgets/main/42.zip".to_string() }
    );
}

#[test]
fn a_miss_downloads_stores_and_releases() {
    let path = "/var/cache/logs/octo/widgets/main/42.zip".to_string();
    let (fetch, _) = ArchiveFetch::begin(&cache(), key(42));
    let (fetch, step) = fetch.advance(CacheReply::Acquired);
    assert_eq!(step, Step::Ask(CacheRequest::Probe { path: path.clone() }));
    assert_eq!(fetch.phase(), Phase::Probing);
    let (fetch, step) = fetch.advance(CacheReply::Missing);
    assert_eq!(
        step,
        Step::Ask(CacheRequest::Download {
            owner: "octo".to_string(),
            repo: "widgets".to_string(),
            run_id: 42
        })
    );
    assert_eq!(fetch.phase(), Phase::Downloading);
    let (fetch, step) = fetch.advance(CacheReply::Downloaded(vec![1, 2, 3]));
    assert_eq!(
        step,
        Step::Ask(CacheRequest::Store { staging: format!("{path}.part"), path: path.clone() })
    );
    assert_eq!(fetch.phase(), Phase::Storing);
    assert_eq!(fetch.payload(), &vec![1, 2, 3]);
    let (fetch, step) = fetch.advance(CacheReply::Stored);
    assert_eq!(step, Step::Ask(CacheRequest::Release { path: path.clone() }));
    assert_eq!(fetch.phase(), Phase::Releasing);
    let (fetch, step) = fetch.advance(CacheReply::Released);
    assert_eq!(step, Step::Done(Ok(vec![1, 2, 3])));
    assert_eq!(fetch.phase(), Phase::Done);
    assert!(fetch.payload().is_empty());
}

#[test]
fn a_hit_loads_and_releases() {
    let path = "/var/cache/logs/octo/widgets/main/42.zip".to_string();
    let (fetch, _) = ArchiveFetch::begin(&cache(), key(42));
    let (fetch, _) = fetch.advance(CacheReply::Acquired);
    let (fetch, step) = fetch.advance(CacheReply::Present);
    assert_eq!(step, Step::Ask(CacheRequest::Load { path: path.clone() }));
    assert_eq!(fetch.phase(), Phase::Loading);
    let (fetch, step) = fetch.advance(CacheReply::Loaded(vec![9]));
    assert_eq!(step, Step::Ask(CacheRequest::Release { path }));
    let (_, step) = fetch.advance(CacheReply::Released);
    assert_eq!(step, Step::Done(Ok(vec![9])));
}

#[test]
fn an_empty_cached_file_is_a_hit() {
    let mut w = world(Some(b"remote"));
    w.files.insert("/var/cache/logs/octo/widgets/main/42.zip".to_string(), Vec::new());
    assert_eq!(get_archive(&mut w, key(42)), Ok(Vec::new()));
    assert_eq!(w.downloads, 0);
}

#[test]
fn a_busy_place_is_asked_for_again() {
    let path = "/var/cache/logs/octo/widgets/main/42.zip".to_string();
    let (fetch, _) = ArchiveFetch::begin(&cache(), key(42));
    let (fetch, step) = fetch.advance(CacheReply::Busy);
    assert_eq!(step, Step::Ask(CacheRequest::Acquire { path: path.clone() }));
    assert_eq!(fetch.phase(), Phase::Acquiring);
    let (fetch, step) = fetch.advance(CacheReply::Busy);
    assert_eq!(step, Step::Ask(CacheRequest::Acquire { path: path.clone() }));
    let (_, step) = fetch.advance(CacheReply::Acquired);
    assert_eq!(step, Step::Ask(CacheRequest::Probe { path }));
}

#[test]
fn each_failure_releases_and_is_handed_out() {
    let mut w = world(None);
    let got = get_archive(&mut w, key(42)).unwrap_err();
    assert_eq!(got, FetchError { failure: Failure::Download, reason: "not found".to_string() });
    assert!(!w.claims.is_claimed(&"/var/cache/logs/octo/widgets/main/42.zip".to_string()));

    let mut w = world(Some(b"abc"));
    w.disk_full = true;
    let got = get_archive(&mut w, key(42)).unwrap_err();
    assert_eq!(got, FetchError { failure: Failure::Store, reason: "disk full".to_string() });
    assert!(!w.claims.is_claimed(&"/var/cache/logs/octo/widgets/main/42.zip".to_string()));
    assert!(w.files.is_empty());

    let (fetch, _) = ArchiveFetch::begin(&cache(), key(42));
    let (fetch, _) = fetch.advance(CacheReply::Acquired);
    let (fetch, _) = fetch.advance(CacheReply::Present);
    let (fetch, step) = fetch.advance(CacheReply::LoadFailed("denied".to_string()));
    assert!(matches!(step, Step::Ask(CacheRequest::Release { .. })));
    let (_, step) = fetch.advance(CacheReply::Released);
    assert_eq!(
        step,
        Step::Done(Err(FetchError { failure: Failure::Load, reason: "denied".to_string() }))
    );
}

#[test]
fn a_reply_out_of_turn_is_a_protocol_failure() {
    let (fetch, _) = ArchiveFetch::begin(&cache(), key(42));
    let (fetch, step) = fetch.advance(CacheReply::Stored);
    assert!(matches!(
        step,
        Step::Done(Err(FetchError { failure: Failure::Protocol, .. }))
    ));
    assert_eq!(fetch.phase(), Phase::Done);
    let (_, again) = fetch.advance(CacheReply::Acquired);
    assert!(matches!(
        again,
        Step::Done(Err(FetchError { failure: Failure::Protocol, .. }))
    ));

    let (fetch, _) = ArchiveFetch::begin(&cache(), key(42));
    let (fetch, _) = fetch.advance(CacheReply::Acquired);
    let (fetch, step) = fetch.advance(CacheReply::Downloaded(vec![1]));
    assert!(matches!(step, Step::Ask(CacheRequest::Release { .. })));
    assert_eq!(fetch.phase(), Phase::Releasing);
    let (_, step) = fetch.advance(CacheReply::Released);
    assert!(matches!(
        step,
        Step::Done(Err(FetchError { failure: Failure::Protocol, .. }))
    ));
}

#[test]
fn get_archive_twice_downloads_once() {
    let mut w = world(Some(b"the archive"));
    let first = get_archive(&mut w, key(42));
    assert_eq!(first, Ok(b"the archive".to_vec()));
    assert_eq!(w.downloads, 1);
    assert_eq!(w.staged, vec!["/var/cache/logs/octo/widgets/main/42.zip.part".to_string()]);
    let second = get_archive(&mut w, key(42));
    assert_eq!(second, first);
    assert_eq!(w.downloads, 1);
    assert_eq!(w.staged.len(), 1);
}

#[test]
fn another_run_is_another_download() {
    let mut w = world(Some(b"the archive"));
    get_archive(&mut w, key(42)).unwrap();
    get_archive(&mut w, key(43)).unwrap();
    assert_eq!(w.downloads, 2);
    assert_eq!(w.files.len(), 2);
}

#[test]
fn two_lookups_side_by_side_download_once() {
    // Every order of up to twelve turns of two lookups of one key.
    for schedule in 0u32..(1 << 12) {
        let mut w = world(Some(b"the archive"));
        let (a, ra) = ArchiveFetch::begin(&cache(), key(42));
        let (b, rb) = ArchiveFetch::begin(&cache(), key(42));
        let mut lookups = [(Some(a), Some(ra), None), (Some(b), Some(rb), None)];
        for turn in 0..12 {
            let who = ((schedule >> turn) & 1) as usize;
            let (fetch, request, outcome) = &mut lookups[who];
            if let Some(asked) = request.take() {
                let state = fetch.take().unwrap();
                let reply = serve(&mut w, &state, asked);
                let (next, step) = state.advance(reply);
                *fetch = Some(next);
                match step {
                    Step::Ask(asked) => *request = Some(asked),
                    Step::Done(done) => *outcome = Some(done),
                }
            }
            let holding = lookups
                .iter()
                .filter(|(f, _, _)| {
                    let p = f.as_ref().unwrap().phase();
                    p != Phase::Acquiring && p != Phase::Done
                })
                .count();
            assert!(holding <= 1);
            assert!(w.downloads <= 1);
        }
        for (_, _, outcome) in lookups.iter() {
            if let Some(done) = outcome {
                assert_eq!(done, &Ok(b"the archive".to_vec()));
            }
        }
    }
}

#[test]
fn claims_are_granted_once() {
    let mut table = ClaimTable::new();
    let a = "a".to_string();
    let b = "b".to_string();
    assert!(!table.is_claimed(&a));
    assert!(table.acquire(&a));
    assert!(table.is_claimed(&a));
    assert!(!table.acquire(&a));
    assert!(table.acquire(&b));
    table.release(&a);
    assert!(!table.is_claimed(&a));
    assert!(table.is_claimed(&b));
    assert!(table.acquire(&a));
    table.release(&"c".to_string());
    assert!(table.is_claimed(&a));
    assert!(table.is_claimed(&b));
}

fn small_archive() -> Vec<u8> {
    let mut writer = ZipWriter::new(Cursor::new(Vec::new()));
    writer.start_file("log", SimpleFileOptions::default()).unwrap();
    writer.write_all(b"text").unwrap();
    writer.finish().unwrap().into_inner()
}

#[test]
fn what_is_an_archive() {
    assert!(LogArchiveReader::is_archive(&small_archive()));
    assert!(!LogArchiveReader::is_archive(&Vec::new()));
    assert!(!LogArchiveReader::is_archive(&b"cut off".to_vec()));
    let mut cut = small_archive();
    cut.truncate(cut.len() / 2);
    assert!(!LogArchiveReader::is_archive(&cut));
}

#[test]
fn a_cache_trusts_every_file_unless_it_validates() {
    assert!(!cache().validate);
    let validating = cache().validating();
    assert!(validating.validate);
    assert_eq!(validating.root, cache().root);
    assert_eq!(validating.extension, cache().extension);
}

#[test]
fn a_validating_lookup_downloads_over_a_damaged_file() {
    let path = "/var/cache/logs/octo/widgets/main/42.zip".to_string();
    let good = small_archive();
    let mut w = world(Some(&good));
    w.files.insert(path.clone(), b"cut off".to_vec());
    let got = get_archive_from(&mut w, &cache().validating(), key(42));
    assert_eq!(got, Ok(good.clone()));
    assert_eq!(w.downloads, 1);
    assert_eq!(w.files[&path], good);
    // The archive that is now in place is trusted.
    let again = get_archive_from(&mut w, &cache().validating(), key(42));
    assert_eq!(again, Ok(good));
    assert_eq!(w.downloads, 1);
}

#[test]
fn a_validating_lookup_steps_from_loading_to_the_download() {
    let (fetch, _) = ArchiveFetch::begin(&cache().validating(), key(42));
    let (fetch, _) = fetch.advance(CacheReply::Acquired);
    let (fetch, _) = fetch.advance(CacheReply::Present);
    let (fetch, step) = fetch.advance(CacheReply::Loaded(Vec::new()));
    assert_eq!(
        step,
        Step::Ask(CacheRequest::Download {
            owner: "octo".to_string(),
            repo: "widgets".to_string(),
            run_id: 42
        })
    );
    assert_eq!(fetch.phase(), Phase::Downloading);
    assert!(fetch.payload().is_empty());
}

#[test]
fn abandoning_a_lookup_releases_what_it_holds() {
    let path = "/var/cache/logs/octo/widgets/main/42.zip".to_string();
    let (fetch, _) = ArchiveFetch::begin(&cache(), key(42));
    assert_eq!(fetch.abandon(), None);
    let (fetch, _) = ArchiveFetch::begin(&cache(), key(42));
    let (fetch, _) = fetch.advance(CacheReply::Acquired);
    assert_eq!(fetch.abandon(), Some(CacheRequest::Release { path: path.clone() }));
    let (fetch, _) = ArchiveFetch::begin(&cache(), key(42));
    let (fetch, _) = fetch.advance(CacheReply::Acquired);
    let (fetch, _) = fetch.advance(CacheReply::Missing);
    let (fetch, _) = fetch.advance(CacheReply::Downloaded(vec![1]));
    assert_eq!(fetch.abandon(), Some(CacheRequest::Release { path }));
    let (fetch, _) = ArchiveFetch::begin(&cache(), key(42));
    let (fetch, _) = fetch.advance(CacheReply::Stored);
    assert_eq!(fetch.abandon(), None);
}
