use yaoaic::cache::{init, Cache, CacheError, CacheStep, InitStep, PathKind, ReadOutcome};

fn ready_cache(max_age_secs: u64) -> Cache {
    match init("/tmp/x".to_string(), max_age_secs, PathKind::Directory) {
        Ok(InitStep::Ready(c)) => c,
        _ => panic!("an existing directory must give a ready cache"),
    }
}

#[test]
fn setup_rejects_non_directory() {
    let r = init("/tmp/f".to_string(), 60, PathKind::NotDirectory);
    assert!(matches!(r, Err(CacheError::Setup(_))));
}

#[test]
fn setup_uses_existing_directory() {
    let c = ready_cache(86400);
    assert_eq!(c.dir(), "/tmp/x");
    assert_eq!(c.max_age_secs(), 86400);
}

#[test]
fn setup_asks_to_create_missing_directory() {
    let r = init("/tmp/x".to_string(), 60, PathKind::Missing);
    let pending = match r {
        Ok(InitStep::CreateDir(c)) => c,
        _ => panic!("a missing root must be created"),
    };
    let c = pending.after_create(Ok(())).expect("created root must be usable");
    assert_eq!(c.max_age_secs(), 60);

    let r = init("/tmp/x".to_string(), 60, PathKind::Missing);
    let pending = match r {
        Ok(InitStep::CreateDir(c)) => c,
        _ => panic!("a missing root must be created"),
    };
    let denied = pending.after_create(Err("permission denied".to_string()));
    assert!(matches!(denied, Err(CacheError::Setup(m)) if m == "permission denied"));
}

#[test]
fn freshness_boundary() {
    let c = ready_cache(100);
    let wr = c.store_cache("entry".to_string(), b"payload".to_vec(), 1000);
    assert_eq!(wr.name, "entry");

    let before = c.load_cached(ReadOutcome::Found(wr.content.clone()), 1099);
    assert_eq!(before, Ok(Some(b"payload".to_vec())));

    let at = c.load_cached(ReadOutcome::Found(wr.content.clone()), 1100);
    assert_eq!(at, Ok(None));

    let after = c.load_cached(ReadOutcome::Found(wr.content.clone()), 1101);
    assert_eq!(after, Ok(None));
}

#[test]
fn clock_gone_backward_is_fresh() {
    let c = ready_cache(100);
    let wr = c.store_cache("entry".to_string(), b"payload".to_vec(), 1000);
    let r = c.load_cached(ReadOutcome::Found(wr.content), 500);
    assert_eq!(r, Ok(Some(b"payload".to_vec())));
}

#[test]
fn store_then_load_round_trips() {
    let c = ready_cache(86400);
    let value = b"[[entry]]\nact = \"1\"\nprompt = \"1\"\n".to_vec();
    let wr = c.store_cache("prompts.toml".to_string(), value.clone(), 1700000000);
    let r = c.load_cached(ReadOutcome::Found(wr.content), 1700000000);
    assert_eq!(r, Ok(Some(value)));
}

#[test]
fn missing_entry_is_none_not_an_error() {
    let c = ready_cache(60);
    assert_eq!(c.load_cached(ReadOutcome::Missing, 7), Ok(None));
}

#[test]
fn failed_read_is_an_io_error() {
    let c = ready_cache(60);
    let r = c.load_cached(ReadOutcome::Failed("disk on fire".to_string()), 7);
    assert!(matches!(r, Err(CacheError::Io(m)) if m == "disk on fire"));
}

#[test]
fn corrupt_entry_is_a_format_error() {
    let c = ready_cache(60);
    let r = c.load_cached(ReadOutcome::Found(b"arbitrary non-conforming bytes".to_vec()), 7);
    assert!(matches!(r, Err(CacheError::Format(_))));
}

#[test]
fn miss_runs_loader_once_then_reuses_its_result() {
    let c = ready_cache(100);
    let mut loader_runs = 0;

    // First call: the entry does not exist, so the loader runs and its
    // result is persisted.
    let step = c.with_cached(ReadOutcome::Missing, 1000);
    let written = match step {
        CacheStep::Fresh(_) => panic!("an empty cache cannot be fresh"),
        CacheStep::Recompute => {
            loader_runs += 1;
            let loaded: Result<Vec<u8>, String> = Ok(b"first".to_vec());
            let (value, wr) = c
                .with_cached_store("entry".to_string(), loaded, 1000)
                .expect("a loader success is stored");
            assert_eq!(value, b"first".to_vec());
            assert_eq!(wr.name, "entry");
            wr.content
        }
    };
    assert_eq!(loader_runs, 1);

    // Second call within the max age: the stored result is reused; a
    // different loader, which would have returned another value, never runs.
    let step = c.with_cached(ReadOutcome::Found(written), 1050);
    match step {
        CacheStep::Fresh(value) => assert_eq!(value, b"first".to_vec()),
        CacheStep::Recompute => panic!("a fresh entry must be reused"),
    }
    assert_eq!(loader_runs, 1);
}

#[test]
fn self_healing_on_corruption() {
    let c = ready_cache(100);

    // Arbitrary non-conforming bytes sit in the entry's file: the composite
    // call falls through to the loader instead of failing.
    let step = c.with_cached(ReadOutcome::Found(b"\x00\xffgarbage".to_vec()), 1000);
    assert!(matches!(step, CacheStep::Recompute));

    // The store that follows overwrites the file with a valid entry.
    let (_, wr) = c
        .with_cached_store("entry".to_string(), Ok(b"healed".to_vec()), 1000)
        .expect("a loader success is stored");
    let r = c.load_cached(ReadOutcome::Found(wr.content), 1001);
    assert_eq!(r, Ok(Some(b"healed".to_vec())));
}

#[test]
fn loader_failure_leaves_cache_untouched() {
    let c = ready_cache(100);
    let step = c.with_cached(ReadOutcome::Missing, 1000);
    assert!(matches!(step, CacheStep::Recompute));

    // The loader fails: its error is passed on and no write is handed back,
    // so no file is created or modified for the entry.
    let loaded: Result<Vec<u8>, String> = Err("network unreachable".to_string());
    let r = c.with_cached_store("entry".to_string(), loaded, 1000);
    assert!(matches!(r, Err(CacheError::Loader(m)) if m == "network unreachable"));
}

#[test]
fn stale_entry_triggers_recompute_and_is_overwritten() {
    let c = ready_cache(10);
    let wr = c.store_cache("entry".to_string(), b"old".to_vec(), 1000);
    let step = c.with_cached(ReadOutcome::Found(wr.content), 2000);
    assert!(matches!(step, CacheStep::Recompute));

    let (_, wr) = c
        .with_cached_store("entry".to_string(), Ok(b"new".to_vec()), 2000)
        .expect("a loader success is stored");
    let r = c.load_cached(ReadOutcome::Found(wr.content), 2001);
    assert_eq!(r, Ok(Some(b"new".to_vec())));
}

#[test]
fn end_to_end_catalog_flow() {
    // init("/tmp/x", 86400s), then a composite call on an empty cache: the
    // loader runs and returns the catalog; the entry's file then holds a
    // timestamped envelope of it; an immediate second call returns the same
    // catalog without consulting its loader.
    let c = ready_cache(86400);

    let step = c.with_cached(ReadOutcome::Missing, 1700000000);
    assert!(matches!(step, CacheStep::Recompute));
    let catalog = b"[[prompt]]\nact = \"1\"\nprompt = \"1\"\n".to_vec();
    let (value, wr) = c
        .with_cached_store("catalog".to_string(), Ok(catalog.clone()), 1700000000)
        .expect("a loader success is stored");
    assert_eq!(value, catalog);
    assert_eq!(wr.name, "catalog");

    let step = c.with_cached(ReadOutcome::Found(wr.content), 1700000001);
    match step {
        CacheStep::Fresh(value) => assert_eq!(value, catalog),
        CacheStep::Recompute => panic!("the second call must not consult a loader"),
    }
}
