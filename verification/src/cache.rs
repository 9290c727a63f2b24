//! A disk cache with time-to-live semantics.
//!
//! The cache owns every decision: whether the root path is usable, whether an
//! entry that a read returned is fresh, what bytes a store must write, and
//! whether a composite get-or-recompute call may reuse an entry or must run
//! the caller's loader. The caller performs the file system work itself and
//! reports each outcome back: it probes the root path before `init`, hands
//! the bytes of an entry's file to `load_cached` or `with_cached`, and
//! persists every `WriteRequest` it receives, entirely replacing the named
//! file. The cache never provides cross-process mutual exclusion on an entry:
//! two callers racing on the same name may both recompute, and the last write
//! wins.

use crate::envelope::lemma_parse_encode;
use crate::envelope::parse_spec;
use crate::envelope::spec_encode;
use crate::envelope::Envelope;
use vstd::prelude::*;

verus! {

/// What the file system reports about the cache root path.
pub enum PathKind {
    /// The path exists and is a directory.
    Directory,
    /// The path exists but is not a directory.
    NotDirectory,
    /// The path does not exist.
    Missing,
}

/// What reading an entry's file returned.
#[derive(Debug, Clone, PartialEq, Eq)]
pub enum ReadOutcome {
    /// The file exists and these are its bytes.
    Found(Vec<u8>),
    /// The file does not exist.
    Missing,
    /// The read itself failed, with this report.
    Failed(String),
}

/// A write the caller must perform: the file for entry `name` under the
/// cache root receives exactly `content`, replacing any prior content.
pub struct WriteRequest {
    pub name: String,
    pub content: Vec<u8>,
}

/// The cache's error taxonomy.
#[derive(Debug, Clone, PartialEq, Eq)]
pub enum CacheError {
    /// The cache root path is unusable.
    Setup(String),
    /// An entry was present but is not a well-formed envelope.
    Format(String),
    /// The underlying read failed.
    Io(String),
    /// The caller-supplied loader failed; its report is passed on verbatim.
    Loader(String),
}

/// Handles the cache dir: the root directory and the age beyond which an
/// entry is stale. Both are fixed at construction.
pub struct Cache {
    dir: String,
    max_age_secs: u64,
}

/// What `Cache::init` asks of the caller next.
pub enum InitStep {
    /// The root directory exists: the cache is ready.
    Ready(Cache),
    /// The root is missing: create the directory, then report the result
    /// to `after_create`.
    CreateDir(Cache),
}

/// Initializes the cache.
///
/// Before the cache is handed back, the given root path must be verified:
/// the caller probes it and passes what it found.
pub fn init(dir: String, max_age_secs: u64, root: PathKind) -> (r: Result<InitStep, CacheError>)
    ensures
        root is Directory ==> (r matches Ok(InitStep::Ready(c)) && c.spec_dir() == dir@
            && c.spec_max_age() == max_age_secs),
        root is Missing ==> (r matches Ok(InitStep::CreateDir(c)) && c.spec_dir() == dir@
            && c.spec_max_age() == max_age_secs),
        root is NotDirectory ==> (r matches Err(e) && e is Setup),
{
    Cache::init(dir, max_age_secs, root)
}

impl Cache {
    /// The root directory path.
    pub closed spec fn spec_dir(&self) -> Seq<char> {
        self.dir@
    }

    /// The age, in seconds, at which an entry stops being fresh.
    pub closed spec fn spec_max_age(&self) -> u64 {
        self.max_age_secs
    }

    /// Verifies the probed state of the root path before returning a Cache:
    /// an existing directory is used, a missing one is to be created, and
    /// anything else is rejected without creating a thing.
    pub fn init(dir: String, max_age_secs: u64, root: PathKind) -> (r: Result<
        InitStep,
        CacheError,
    >)
        ensures
            root is Directory ==> (r matches Ok(InitStep::Ready(c)) && c.spec_dir() == dir@
                && c.spec_max_age() == max_age_secs),
            root is Missing ==> (r matches Ok(InitStep::CreateDir(c)) && c.spec_dir() == dir@
                && c.spec_max_age() == max_age_secs),
            root is NotDirectory ==> (r matches Err(e) && e is Setup),
    {
        match root {
            PathKind::Directory => Ok(InitStep::Ready(Cache { dir, max_age_secs })),
            PathKind::Missing => Ok(InitStep::CreateDir(Cache { dir, max_age_secs })),
            PathKind::NotDirectory => Err(
                CacheError::Setup("cache path exists but it is not a dir".to_owned()),
            ),
        }
    }

    /// Completes initialization after `InitStep::CreateDir`: the caller
    /// reports whether creating the root directory succeeded.
    pub fn after_create(self, created: Result<(), String>) -> (r: Result<Cache, CacheError>)
        ensures
            created is Ok ==> (r matches Ok(c) && c == self),
            created matches Err(m) ==> (r matches Err(CacheError::Setup(mm)) && mm == m),
    {
        match created {
            Ok(()) => Ok(self),
            Err(m) => Err(CacheError::Setup(m)),
        }
    }

    pub fn dir(&self) -> (r: &String)
        ensures
            r@ == self.spec_dir(),
    {
        &self.dir
    }

    pub fn max_age_secs(&self) -> (r: u64)
        ensures
            r == self.spec_max_age(),
    {
        self.max_age_secs
    }

    /// The freshness policy: an entry created at `created` is fresh at `now`
    /// while its age is under the max age. A creation time past `now` (a
    /// clock that went backward) gives a non-positive age, which is fresh;
    /// the arithmetic never underflows.
    pub open spec fn fresh_at(&self, created: u64, now: u64) -> bool {
        (now as int) < created + self.spec_max_age()
    }

    pub fn is_fresh(&self, created: u64, now: u64) -> (r: bool)
        ensures
            r == self.fresh_at(created, now),
    {
        now < created || now - created < self.max_age_secs
    }

    /// What the bytes of an entry's file yield at `now`: the payload if they
    /// hold a fresh envelope, nothing if they hold a stale one or none.
    pub open spec fn load_value_spec(&self, content: Seq<u8>, now: u64) -> Option<Seq<u8>> {
        match parse_spec(content) {
            Some((created, payload)) => if self.fresh_at(created, now) {
                Some(payload)
            } else {
                None
            },
            None => None,
        }
    }

    /// Loads a cached value from the bytes the caller read for the entry.
    ///
    /// A missing entry is `Ok(None)`, not an error. A present entry is
    /// `Ok(Some(..))` exactly when it is a well-formed envelope whose age is
    /// under the max age; a stale one is `Ok(None)`; a malformed one is a
    /// `Format` error, and a failed read an `Io` error.
    pub fn load_cached(&self, read: ReadOutcome, now: u64) -> (r: Result<
        Option<Vec<u8>>,
        CacheError,
    >)
        ensures
            read is Missing ==> r matches Ok(None),
            read matches ReadOutcome::Failed(m) ==> (r matches Err(CacheError::Io(mm)) && mm == m),
            read matches ReadOutcome::Found(content) ==> match r {
                Ok(v) => match v {
                    Some(value) => self.load_value_spec(content@, now) == Some(value@),
                    None => parse_spec(content@) matches Some((created, _))
                        && !self.fresh_at(created, now),
                },
                Err(e) => e is Format && parse_spec(content@) is None,
            },
    {
        match read {
            ReadOutcome::Missing => Ok(None),
            ReadOutcome::Failed(m) => Err(CacheError::Io(m)),
            ReadOutcome::Found(content) => match Envelope::parse(content.as_slice()) {
                None => Err(CacheError::Format("cache entry has unknown format".to_owned())),
                Some(env) => if self.is_fresh(env.created, now) {
                    Ok(Some(env.payload))
                } else {
                    Ok(None)
                },
            },
        }
    }

    /// Stores a value in the cache: wraps it in an envelope created at `now`
    /// and hands back the write that persists it, unconditionally replacing
    /// any prior entry under the same name.
    pub fn store_cache(&self, file_name: String, value: Vec<u8>, now: u64) -> (r: WriteRequest)
        ensures
            r.name == file_name,
            r.content@ == spec_encode(now, value@),
    {
        let env = Envelope::new(now, value);
        let content = env.encode();
        WriteRequest { name: file_name, content }
    }

    /// What `with_cached` decides from a read outcome: the cached payload to
    /// reuse, or nothing, in which case the loader must run.
    pub open spec fn decision_spec(&self, read: ReadOutcome, now: u64) -> Option<Seq<u8>> {
        match read {
            ReadOutcome::Found(content) => self.load_value_spec(content@, now),
            _ => None,
        }
    }

    /// The read half of get-or-recompute: reuses the entry exactly when the
    /// caller's read found a fresh, well-formed envelope. An absent, stale,
    /// unreadable or malformed entry all fall through to `Recompute`: a bad
    /// file is simply overwritten by the next successful store rather than
    /// wedging the caller.
    pub fn with_cached(&self, read: ReadOutcome, now: u64) -> (r: CacheStep)
        ensures
            match r {
                CacheStep::Fresh(value) => self.decision_spec(read, now) == Some(value@),
                CacheStep::Recompute => self.decision_spec(read, now) is None,
            },
    {
        match self.load_cached(read, now) {
            Ok(Some(value)) => CacheStep::Fresh(value),
            Ok(None) => CacheStep::Recompute,
            Err(_) => CacheStep::Recompute,
        }
    }

    /// The store half of get-or-recompute, run after `Recompute` with what
    /// the loader returned. A loader success is wrapped, stored under the
    /// entry's name and returned; a loader failure is passed on verbatim,
    /// and nothing is written.
    pub fn with_cached_store(&self, file_name: String, loaded: Result<Vec<u8>, String>, now: u64)
        -> (r: Result<(Vec<u8>, WriteRequest), CacheError>)
        ensures
            loaded matches Ok(value) ==> (r matches Ok((v, wr)) && v == value && wr.name
                == file_name && wr.content@ == spec_encode(now, value@)),
            loaded matches Err(m) ==> (r matches Err(CacheError::Loader(mm)) && mm == m),
    {
        match loaded {
            Ok(value) => {
                let env = Envelope::new(now, value);
                let content = env.encode();
                Ok((env.payload, WriteRequest { name: file_name, content }))
            },
            Err(m) => Err(CacheError::Loader(m)),
        }
    }
}

/// What `with_cached` tells the caller to do next.
#[derive(Debug, Clone, PartialEq, Eq)]
pub enum CacheStep {
    /// A fresh entry was found: reuse this payload, do not run the loader.
    Fresh(Vec<u8>),
    /// No usable entry: run the loader and hand its result to
    /// `with_cached_store`.
    Recompute,
}

/// Freshness boundary: an entry stored at `t0` under max age `d` is still
/// returned any amount of time before `t0 + d` and no longer returned any
/// amount of time from `t0 + d` on.
pub proof fn lemma_freshness_boundary(cache: Cache, value: Seq<u8>, t0: u64, eps: u64)
    requires
        eps > 0,
        eps <= t0 + cache.spec_max_age(),
        t0 + cache.spec_max_age() + eps <= u64::MAX,
    ensures
        cache.load_value_spec(
            spec_encode(t0, value),
            (t0 + cache.spec_max_age() - eps) as u64,
        ) == Some(value),
        cache.load_value_spec(
            spec_encode(t0, value),
            (t0 + cache.spec_max_age() + eps) as u64,
        ) is None,
{
    lemma_parse_encode(t0, value);
}

/// Round trip: a value stored at `t0` loads back unchanged at any instant
/// within the max age, including instants before `t0` (a clock that went
/// backward reads as a non-positive age, which is fresh).
pub proof fn lemma_store_load_round_trip(cache: Cache, value: Seq<u8>, t0: u64, now: u64)
    requires
        (now as int) < t0 + cache.spec_max_age(),
    ensures
        cache.load_value_spec(spec_encode(t0, value), now) == Some(value),
{
    lemma_parse_encode(t0, value);
}

/// A miss runs the loader once, and its stored result is what every later
/// call within the max age reuses: the later call's own loader is not
/// consulted, so the first result stands whatever a second loader would
/// have returned.
pub proof fn lemma_miss_then_reuse(cache: Cache, value: Seq<u8>, t1: u64, t2: u64)
    requires
        (t2 as int) < t1 + cache.spec_max_age(),
    ensures
        cache.decision_spec(ReadOutcome::Missing, t1) is None,
        cache.load_value_spec(spec_encode(t1, value), t2) == Some(value),
        forall|content: Vec<u8>|
            content@ == spec_encode(t1, value) ==> #[trigger] cache.decision_spec(
                ReadOutcome::Found(content),
                t2,
            ) == Some(value),
{
    lemma_parse_encode(t1, value);
}

/// Self-healing: bytes that no envelope encodes to make `with_cached` fall
/// through to the loader rather than fail, and the store that follows a
/// loader success leaves a well-formed envelope in their place.
pub proof fn lemma_self_healing(cache: Cache, junk: Vec<u8>, now: u64, value: Seq<u8>, t: u64)
    requires
        parse_spec(junk@) is None,
    ensures
        cache.decision_spec(ReadOutcome::Found(junk), now) is None,
        parse_spec(spec_encode(t, value)) == Some((t, value)),
{
    lemma_parse_encode(t, value);
}

} // verus!
