//! What is read from and written to the database, and what its errors mean.

use std::collections::HashMap;

use vstd::prelude::*;
#[allow(unused_imports)]
use crate::db::chunk_hashes::{hash_map_view, with_hash};
use crate::db::chunk_hashes::put_hash;
#[allow(unused_imports)]
use crate::download::items::hashes_of;

verus! {

broadcast use vstd::std_specs::hash::group_hash_axioms;

/// What can go wrong with a database, as its driver tells it.
#[derive(Debug, Clone, Copy, PartialEq, Eq, Structural)]
pub enum DbError {
    Io,
    Protocol,
    PoolTimedOut,
    PoolClosed,
    WorkerCrashed,
    BeginFailed,
    Database,
    ColumnNotFound,
    TypeNotFound,
    RowNotFound,
    Decode,
    ColumnDecode,
    ColumnIndexOutOfBounds,
    Other,
}

/// What a failure to read means.
#[derive(Debug, Clone, Copy, PartialEq, Eq, Structural)]
pub enum DbFetchErrorKind {
    ConnectionFailed,
    QueryFailed,
    NotFound,
    SchemaCorrupted,
    DataCorrupted,
    Unexpected,
}

/// A failure to read a download.
#[derive(Debug)]
pub struct DownloadFetchError {
    pub message: String,
    pub kind: DbFetchErrorKind,
}

/// A failure to read the digests of chunks.
#[derive(Debug)]
pub struct ChunkHashLoadError {
    pub message: String,
    pub kind: DbFetchErrorKind,
}

impl DbFetchErrorKind {
    /// What an error of the driver means.
    pub open spec fn spec_of(err: DbError) -> DbFetchErrorKind {
        match err {
            DbError::Io | DbError::Protocol | DbError::PoolTimedOut | DbError::PoolClosed
            | DbError::WorkerCrashed | DbError::BeginFailed => DbFetchErrorKind::ConnectionFailed,
            DbError::Database => DbFetchErrorKind::QueryFailed,
            DbError::ColumnNotFound | DbError::TypeNotFound => DbFetchErrorKind::SchemaCorrupted,
            DbError::RowNotFound => DbFetchErrorKind::NotFound,
            DbError::Decode | DbError::ColumnDecode | DbError::ColumnIndexOutOfBounds =>
                DbFetchErrorKind::DataCorrupted,
            DbError::Other => DbFetchErrorKind::Unexpected,
        }
    }

    /// What an error of the driver means.
    pub fn of(err: DbError) -> (r: Self)
        ensures
            r == Self::spec_of(err),
    {
        match err {
            DbError::Io | DbError::Protocol | DbError::PoolTimedOut | DbError::PoolClosed
            | DbError::WorkerCrashed | DbError::BeginFailed => DbFetchErrorKind::ConnectionFailed,
            DbError::Database => DbFetchErrorKind::QueryFailed,
            DbError::ColumnNotFound | DbError::TypeNotFound => DbFetchErrorKind::SchemaCorrupted,
            DbError::RowNotFound => DbFetchErrorKind::NotFound,
            DbError::Decode | DbError::ColumnDecode | DbError::ColumnIndexOutOfBounds =>
                DbFetchErrorKind::DataCorrupted,
            DbError::Other => DbFetchErrorKind::Unexpected,
        }
    }

    /// What a reader is told.
    pub fn describe(&self) -> (r: &'static str)
        ensures
            r@ == match *self {
                DbFetchErrorKind::ConnectionFailed => "Failed to acquire a database connection"@,
                DbFetchErrorKind::QueryFailed => "Failed to execute database query"@,
                DbFetchErrorKind::NotFound => "Item was not found"@,
                DbFetchErrorKind::SchemaCorrupted => "Database schema corrupted"@,
                DbFetchErrorKind::DataCorrupted => "Failed to decode database row"@,
                DbFetchErrorKind::Unexpected => "Unexpected database error"@,
            },
    {
        match self {
            DbFetchErrorKind::ConnectionFailed => "Failed to acquire a database connection",
            DbFetchErrorKind::QueryFailed => "Failed to execute database query",
            DbFetchErrorKind::NotFound => "Item was not found",
            DbFetchErrorKind::SchemaCorrupted => "Database schema corrupted",
            DbFetchErrorKind::DataCorrupted => "Failed to decode database row",
            DbFetchErrorKind::Unexpected => "Unexpected database error",
        }
    }

    /// Whether digests should be read one by one after reading them together failed:
    /// only where single rows can be to blame. A row that is missing counts as
    /// corrupted, since reading many rows never misses one.
    pub fn calls_for_recovery(&self) -> (r: bool)
        ensures
            r == (*self is DataCorrupted || *self is NotFound),
    {
        match self {
            DbFetchErrorKind::DataCorrupted | DbFetchErrorKind::NotFound => true,
            DbFetchErrorKind::ConnectionFailed | DbFetchErrorKind::QueryFailed
            | DbFetchErrorKind::SchemaCorrupted | DbFetchErrorKind::Unexpected => false,
        }
    }
}

impl ChunkHashLoadError {
    /// A failure that the driver reported.
    pub fn new(message: String, err: DbError) -> (r: Self)
        ensures
            r.message == message,
            r.kind == DbFetchErrorKind::spec_of(err),
    {
        ChunkHashLoadError { message, kind: DbFetchErrorKind::of(err) }
    }

    /// What the failure means.
    pub fn kind(&self) -> (r: DbFetchErrorKind)
        ensures
            r == self.kind,
    {
        self.kind
    }
}

impl DownloadFetchError {
    /// A failure that the driver reported.
    pub fn new(message: String, err: DbError) -> (r: Self)
        ensures
            r.message == message,
            r.kind == DbFetchErrorKind::spec_of(err),
    {
        DownloadFetchError { message, kind: DbFetchErrorKind::of(err) }
    }

    /// A failure to read the digests is one to read the download.
    pub fn of_chunk_hashes(err: &ChunkHashLoadError) -> (r: Self)
        ensures
            r.message@ == "Failed to fetch chunk hashes for download"@,
            r.kind == err.kind,
    {
        DownloadFetchError {
            message: "Failed to fetch chunk hashes for download".to_owned(),
            kind: err.kind(),
        }
    }

    /// What the failure means.
    pub fn kind(&self) -> (r: &DbFetchErrorKind)
        ensures
            *r == self.kind,
    {
        &self.kind
    }
}

/// Whether an action that failed is tried again.
#[derive(Debug, Clone, Copy, PartialEq, Eq, Structural)]
pub enum RetryDecision {
    /// Wait, and try with so many tries left after that.
    TryAgain(usize),
    GiveUp,
}

/// Whether an action that failed is tried again: while tries are left, and if that
/// error may pass.
pub fn with_retry(retries: usize, is_retriable: bool) -> (r: RetryDecision)
    ensures
        r == if retries > 0 && is_retriable {
            RetryDecision::TryAgain((retries - 1) as usize)
        } else {
            RetryDecision::GiveUp
        },
{
    if retries > 0 && is_retriable {
        RetryDecision::TryAgain(retries - 1)
    } else {
        RetryDecision::GiveUp
    }
}

/// The place of a digest, and what reading it alone gave: nothing if the row cannot
/// be read.
pub struct RecoveryKey {
    pub file_id: i64,
    pub chunk_index: i64,
    pub fetched: Option<Option<Vec<u8>>>,
}

/// Whether the digest at a place is asked for at all: a negative place is not, and
/// its row goes.
pub fn worth_fetching(chunk_index: i64) -> (r: bool)
    ensures
        r == (chunk_index >= 0),
{
    chunk_index >= 0
}

/// Whether a row can be kept.
pub open spec fn healthy(key: RecoveryKey) -> bool {
    key.chunk_index >= 0 && key.fetched.is_some()
}

/// The digests that could be read, by file.
pub open spec fn recovered(keys: Seq<RecoveryKey>) -> Map<usize, Seq<Option<Seq<u8>>>>
    decreases keys.len(),
{
    if keys.len() == 0 {
        Map::empty()
    } else {
        let before = recovered(keys.drop_last());
        let key = keys.last();
        if healthy(key) {
            let file = key.file_id as usize;
            let known = crate::db::chunk_hashes::known_hashes(before, file);
            before.insert(
                file,
                with_hash(
                    known,
                    key.chunk_index as nat,
                    match key.fetched->0 {
                        Some(bytes) => Some(bytes@),
                        None => None,
                    },
                ),
            )
        } else {
            before
        }
    }
}

/// The places of the rows that go, in order.
pub open spec fn condemned(keys: Seq<RecoveryKey>) -> Seq<(i64, i64)>
    decreases keys.len(),
{
    if keys.len() == 0 {
        Seq::empty()
    } else if healthy(keys.last()) {
        condemned(keys.drop_last())
    } else {
        condemned(keys.drop_last()).push((keys.last().file_id, keys.last().chunk_index))
    }
}

/// What is left of digests that were read one by one, and the rows that have to be
/// deleted: those that cannot be read, and those with a negative place.
pub fn load_download_chunk_hashes_with_recovery(keys: Vec<RecoveryKey>) -> (r: (
    HashMap<usize, Vec<Option<[u8; 16]>>>,
    Vec<(i64, i64)>,
))
    requires
        forall|i: int| 0 <= i < keys@.len() ==> (#[trigger] keys@[i]).chunk_index < usize::MAX,
    ensures
        hash_map_view(r.0@) == recovered(keys@),
        r.1@ == condemned(keys@),
{
    let mut files: HashMap<usize, Vec<Option<[u8; 16]>>> = HashMap::new();
    let mut gone: Vec<(i64, i64)> = Vec::new();
    let mut i: usize = 0;
    assert(hash_map_view(files@) =~= recovered(keys@.take(0)));
    while i < keys.len()
        invariant
            i <= keys@.len(),
            forall|k: int| 0 <= k < keys@.len() ==> (#[trigger] keys@[k]).chunk_index < usize::MAX,
            hash_map_view(files@) == recovered(keys@.take(i as int)),
            gone@ == condemned(keys@.take(i as int)),
        decreases keys@.len() - i,
    {
        let key = &keys[i];
        proof {
            assert(keys@.take(i + 1).drop_last() =~= keys@.take(i as int));
            assert(keys@.take(i + 1).last() == keys@[i as int]);
            assert(keys@[i as int].chunk_index < usize::MAX);
        }
        let ghost before = files@;
        match &key.fetched {
            Some(hash) if key.chunk_index >= 0 => {
                let file: usize = #[verifier::truncate]
                (key.file_id as usize);
                let mut hashes: Vec<Option<[u8; 16]>> = match files.remove(&file) {
                    Some(hashes) => hashes,
                    None => Vec::new(),
                };
                proof {
                    assert(hashes_of(Seq::<Option<[u8; 16]>>::empty())
                        =~= Seq::<Option<Seq<u8>>>::empty());
                    assert(hashes_of(hashes@) == crate::db::chunk_hashes::known_hashes(
                        hash_map_view(before),
                        file,
                    ));
                }
                put_hash(&mut hashes, key.chunk_index as usize, hash);
                files.insert(file, hashes);
                assert(hash_map_view(files@) =~= recovered(keys@.take(i + 1)));
            },
            _ => {
                gone.push((key.file_id, key.chunk_index));
            },
        }
        i += 1;
    }
    assert(keys@.take(i as int) =~= keys@);
    (files, gone)
}

/// Every row that was looked at is kept or goes: the rows that go are those that are
/// not healthy, each once and in order.
pub proof fn law_recovery_judges_every_row(keys: Seq<RecoveryKey>)
    ensures
        condemned(keys).len() == keys.filter(|k: RecoveryKey| !healthy(k)).len(),
        (forall|i: int| 0 <= i < keys.len() ==> healthy(#[trigger] keys[i])) ==> condemned(
            keys,
        ).len() == 0,
    decreases keys.len(),
{
    reveal(Seq::filter);
    if keys.len() > 0 {
        law_recovery_judges_every_row(keys.drop_last());
        if forall|i: int| 0 <= i < keys.len() ==> healthy(#[trigger] keys[i]) {
            assert forall|i: int| 0 <= i < keys.drop_last().len() implies healthy(
                #[trigger] keys.drop_last()[i],
            ) by {
                assert(healthy(keys[i]));
            }
            assert(healthy(keys[keys.len() - 1]));
        }
    }
}

} // verus!
