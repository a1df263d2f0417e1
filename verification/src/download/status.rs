//! The states a file, a folder and a download can be in, and how they are
//! stored.

use vstd::prelude::*;
use crate::download::error::{DownloadFailureReason, FileFailureReason};
#[allow(unused_imports)]
use crate::download::error::{law_failure_reason_round_trip, law_file_failure_reason_round_trip};
use crate::utils::text::text_eq;

verus! {

/// How far a download, or a folder of it, has come.
#[derive(Debug, Clone, Copy, PartialEq, Eq, Structural)]
pub enum DownloadStatus {
    Uninitialized,
    MetadataFetched,
    Partial,
    NotFound,
    Completed,
    Failed(DownloadFailureReason),
    CompletedWithErrors,
}

/// The groups into which a folder sorts its children.
#[derive(Debug, Clone, Copy, PartialEq, Eq, Structural)]
pub enum StatusBucket {
    Uninitialized,
    MetadataFetched,
    Partial,
    Completed,
    Error,
    CompletedWithErrors,
}

/// How far a file has come. The variants exclude each other, so what can hold
/// beside them, such as being paused, is kept elsewhere.
#[derive(Debug, Clone, Copy, PartialEq, Eq, Structural)]
pub enum FileStatus {
    Uninitialized,
    MetadataFetched,
    Partial,
    Completed,
    Failed(FileFailureReason),
    NotFound,
}

impl Default for DownloadStatus {
    fn default() -> (r: Self)
        ensures
            r == DownloadStatus::Uninitialized,
    {
        DownloadStatus::Uninitialized
    }
}

impl Default for FileStatus {
    fn default() -> (r: Self)
        ensures
            r == FileStatus::Uninitialized,
    {
        FileStatus::Uninitialized
    }
}

/// The plain name of a state: that of `Failed` does not tell the reason.
pub open spec fn download_status_name(s: DownloadStatus) -> Seq<char> {
    match s {
        DownloadStatus::Uninitialized => "uninitialized"@,
        DownloadStatus::MetadataFetched => "metadata_fetched"@,
        DownloadStatus::Partial => "partial"@,
        DownloadStatus::NotFound => "not_found"@,
        DownloadStatus::Completed => "completed"@,
        DownloadStatus::Failed(_) => "failed"@,
        DownloadStatus::CompletedWithErrors => "completed_with_errors"@,
    }
}

proof fn lemma_download_status_name_shape(s: DownloadStatus)
    ensures
        download_status_name(s).len() == match s {
            DownloadStatus::Uninitialized => 13nat,
            DownloadStatus::MetadataFetched => 16nat,
            DownloadStatus::Partial => 7nat,
            DownloadStatus::NotFound => 9nat,
            DownloadStatus::Completed => 9nat,
            DownloadStatus::Failed(_) => 6nat,
            DownloadStatus::CompletedWithErrors => 21nat,
        },
        s is NotFound ==> download_status_name(s)[0] == 'n',
        s is Completed ==> download_status_name(s)[0] == 'c',
{
    reveal_strlit("uninitialized");
    reveal_strlit("metadata_fetched");
    reveal_strlit("partial");
    reveal_strlit("not_found");
    reveal_strlit("completed");
    reveal_strlit("failed");
    reveal_strlit("completed_with_errors");
}

/// Only failed states share a name.
pub proof fn lemma_download_status_names_differ(a: DownloadStatus, b: DownloadStatus)
    requires
        download_status_name(a) == download_status_name(b),
    ensures
        (a is Failed) == (b is Failed),
        !(a is Failed) ==> a == b,
{
    lemma_download_status_name_shape(a);
    lemma_download_status_name_shape(b);
}

/// The reason that stored text stands for; text that stands for none means an
/// unknown reason.
pub open spec fn stored_download_reason(text: Seq<char>) -> DownloadFailureReason {
    match DownloadFailureReason::spec_from_db_string(text) {
        Some(r) => r,
        None => DownloadFailureReason::Unknown,
    }
}

/// The reason that stored text stands for; text that stands for none means an
/// unknown reason.
pub open spec fn stored_file_reason(text: Seq<char>) -> FileFailureReason {
    match FileFailureReason::spec_from_name(text) {
        Some(r) => r,
        None => FileFailureReason::Unknown,
    }
}

impl DownloadStatus {
    /// The state that two stored columns stand for: a reason always means
    /// failure, and without one the name has to be that of another state.
    pub open spec fn spec_from_db_columns(
        status: Seq<char>,
        failure_reason: Option<Seq<char>>,
    ) -> Option<DownloadStatus> {
        match failure_reason {
            Some(text) => Some(DownloadStatus::Failed(stored_download_reason(text))),
            None => if exists|s: DownloadStatus|
                !(s is Failed) && #[trigger] download_status_name(s) == status {
                Some(
                    choose|s: DownloadStatus|
                        !(s is Failed) && #[trigger] download_status_name(s) == status,
                )
            } else {
                None
            },
        }
    }

    /// The state that two stored columns stand for, if they stand for one.
    pub fn from_db_columns(status: &str, failure_reason: Option<&str>) -> (r: Option<Self>)
        ensures
            r == Self::spec_from_db_columns(
                status@,
                match failure_reason {
                    Some(text) => Some(text@),
                    None => None,
                },
            ),
    {
        if let Some(text) = failure_reason {
            let reason = match DownloadFailureReason::from_db_string(text) {
                Some(reason) => reason,
                None => DownloadFailureReason::Unknown,
            };
            return Some(DownloadStatus::Failed(reason));
        }
        proof {
            assert forall|a: DownloadStatus, b: DownloadStatus|
                !(a is Failed) && #[trigger] download_status_name(a)
                    == #[trigger] download_status_name(b) implies a == b by {
                lemma_download_status_names_differ(a, b);
            }
        }
        if text_eq(status, "uninitialized") {
            assert(download_status_name(DownloadStatus::Uninitialized) == status@);
            Some(DownloadStatus::Uninitialized)
        } else if text_eq(status, "metadata_fetched") {
            assert(download_status_name(DownloadStatus::MetadataFetched) == status@);
            Some(DownloadStatus::MetadataFetched)
        } else if text_eq(status, "partial") {
            assert(download_status_name(DownloadStatus::Partial) == status@);
            Some(DownloadStatus::Partial)
        } else if text_eq(status, "not_found") {
            assert(download_status_name(DownloadStatus::NotFound) == status@);
            Some(DownloadStatus::NotFound)
        } else if text_eq(status, "completed") {
            assert(download_status_name(DownloadStatus::Completed) == status@);
            Some(DownloadStatus::Completed)
        } else if text_eq(status, "completed_with_errors") {
            assert(download_status_name(DownloadStatus::CompletedWithErrors) == status@);
            Some(DownloadStatus::CompletedWithErrors)
        } else {
            None
        }
    }

    /// The bucket of a state.
    pub open spec fn spec_bucket(self) -> StatusBucket {
        match self {
            DownloadStatus::Uninitialized => StatusBucket::Uninitialized,
            DownloadStatus::MetadataFetched => StatusBucket::MetadataFetched,
            DownloadStatus::Partial => StatusBucket::Partial,
            DownloadStatus::Completed => StatusBucket::Completed,
            DownloadStatus::NotFound => StatusBucket::Error,
            DownloadStatus::Failed(_) => StatusBucket::Error,
            DownloadStatus::CompletedWithErrors => StatusBucket::CompletedWithErrors,
        }
    }

    /// The bucket of this state.
    pub fn bucket(&self) -> (b: StatusBucket)
        ensures
            b == self.spec_bucket(),
    {
        match self {
            DownloadStatus::Uninitialized => StatusBucket::Uninitialized,
            DownloadStatus::MetadataFetched => StatusBucket::MetadataFetched,
            DownloadStatus::Partial => StatusBucket::Partial,
            DownloadStatus::Completed => StatusBucket::Completed,
            DownloadStatus::NotFound | DownloadStatus::Failed(_) => StatusBucket::Error,
            DownloadStatus::CompletedWithErrors => StatusBucket::CompletedWithErrors,
        }
    }

    /// The two columns under which a state is stored.
    pub open spec fn spec_to_db_columns(self) -> (Seq<char>, Option<Seq<char>>) {
        (
            download_status_name(self),
            match self {
                DownloadStatus::Failed(reason) => Some(reason.spec_name()),
                _ => None,
            },
        )
    }

    /// The two columns under which this state is stored: its name, and the
    /// reason of a failure.
    pub fn to_db_columns(&self) -> (r: (&'static str, Option<&'static str>))
        ensures
            r.0@ == self.spec_to_db_columns().0,
            match r.1 {
                Some(text) => self.spec_to_db_columns().1 == Some(text@),
                None => self.spec_to_db_columns().1.is_none(),
            },
    {
        match self {
            DownloadStatus::Uninitialized => ("uninitialized", None),
            DownloadStatus::MetadataFetched => ("metadata_fetched", None),
            DownloadStatus::Partial => ("partial", None),
            DownloadStatus::NotFound => ("not_found", None),
            DownloadStatus::Completed => ("completed", None),
            DownloadStatus::Failed(reason) => ("failed", Some(reason.name())),
            DownloadStatus::CompletedWithErrors => ("completed_with_errors", None),
        }
    }
}

/// What a stored state reads back as: itself, except that a failure of all files
/// for one reason comes back with an unknown reason.
pub open spec fn stored_download_status(s: DownloadStatus) -> DownloadStatus {
    match s {
        DownloadStatus::Failed(DownloadFailureReason::AllFilesFailed(_)) => DownloadStatus::Failed(
            DownloadFailureReason::Unknown,
        ),
        _ => s,
    }
}

/// A stored state of a download always reads back, and as itself, except that a
/// failure of all files comes back with an unknown reason.
pub proof fn law_download_status_round_trip(s: DownloadStatus)
    ensures
        DownloadStatus::spec_from_db_columns(s.spec_to_db_columns().0, s.spec_to_db_columns().1)
            == Some(stored_download_status(s)),
{
    match s {
        DownloadStatus::Failed(reason) => {
            law_failure_reason_round_trip(reason);
        },
        _ => {
            assert forall|b: DownloadStatus| #[trigger]
                download_status_name(b) == download_status_name(s) implies b == s by {
                lemma_download_status_names_differ(s, b);
            }
        },
    }
}

/// The plain name of a file's state: that of `Failed` does not tell the reason.
pub open spec fn file_status_name(s: FileStatus) -> Seq<char> {
    match s {
        FileStatus::Uninitialized => "uninitialized"@,
        FileStatus::MetadataFetched => "metadata_fetched"@,
        FileStatus::Partial => "partial"@,
        FileStatus::Completed => "completed"@,
        FileStatus::Failed(_) => "failed"@,
        FileStatus::NotFound => "not_found"@,
    }
}

/// Only failed states share a name.
pub proof fn lemma_file_status_names_differ(a: FileStatus, b: FileStatus)
    requires
        file_status_name(a) == file_status_name(b),
    ensures
        (a is Failed) == (b is Failed),
        !(a is Failed) ==> a == b,
{
    lemma_download_status_names_differ(a.spec_as_download_status(), b.spec_as_download_status());
}

impl FileStatus {
    /// Whether a file in this state may be put in line again: one that is
    /// complete or gone may not.
    pub fn can_set_to_queued(&self) -> (r: bool)
        ensures
            r == !(*self is Completed || *self is NotFound),
    {
        match self {
            Self::Completed | Self::NotFound => false,
            Self::Uninitialized | Self::MetadataFetched | Self::Partial | Self::Failed(_) => true,
        }
    }

    /// Whether a failure of the whole download makes a file in this state fail.
    pub open spec fn spec_can_be_failed(self) -> bool {
        self is MetadataFetched || self is Partial
    }

    /// Whether a failure of the whole download makes a file in this state fail:
    /// only work that has begun and not ended does.
    pub fn can_be_failed(&self) -> (r: bool)
        ensures
            r == self.spec_can_be_failed(),
    {
        match self {
            Self::Uninitialized | Self::Completed | Self::NotFound | Self::Failed(_) => false,
            Self::MetadataFetched | Self::Partial => true,
        }
    }

    /// The bucket of a file's state.
    pub open spec fn spec_bucket(self) -> StatusBucket {
        match self {
            FileStatus::Uninitialized => StatusBucket::Uninitialized,
            FileStatus::MetadataFetched => StatusBucket::MetadataFetched,
            FileStatus::Partial => StatusBucket::Partial,
            FileStatus::Completed => StatusBucket::Completed,
            FileStatus::NotFound => StatusBucket::Error,
            FileStatus::Failed(_) => StatusBucket::Error,
        }
    }

    /// The bucket of this state.
    pub fn bucket(&self) -> (b: StatusBucket)
        ensures
            b == self.spec_bucket(),
    {
        match self {
            Self::Uninitialized => StatusBucket::Uninitialized,
            Self::MetadataFetched => StatusBucket::MetadataFetched,
            Self::Partial => StatusBucket::Partial,
            Self::Completed => StatusBucket::Completed,
            Self::NotFound | Self::Failed(_) => StatusBucket::Error,
        }
    }

    /// Whether nothing more will be done for a file in this state.
    pub open spec fn spec_is_terminal(self) -> bool {
        self is Completed || self is NotFound || self is Failed
    }

    /// Whether nothing more will be done for a file in this state.
    pub fn is_terminal(&self) -> (r: bool)
        ensures
            r == self.spec_is_terminal(),
    {
        match self {
            FileStatus::Uninitialized | FileStatus::MetadataFetched | FileStatus::Partial => false,
            FileStatus::Completed | FileStatus::NotFound | FileStatus::Failed(_) => true,
        }
    }

    /// The state that two stored columns stand for: a reason always means
    /// failure, and without one the name has to be that of another state.
    pub open spec fn spec_from_db_columns(
        status: Seq<char>,
        failure_reason: Option<Seq<char>>,
    ) -> Option<FileStatus> {
        match failure_reason {
            Some(text) => Some(FileStatus::Failed(stored_file_reason(text))),
            None => if exists|s: FileStatus|
                !(s is Failed) && #[trigger] file_status_name(s) == status {
                Some(
                    choose|s: FileStatus|
                        !(s is Failed) && #[trigger] file_status_name(s) == status,
                )
            } else {
                None
            },
        }
    }

    /// The state that two stored columns stand for, if they stand for one.
    pub fn from_db_columns(status: &str, file_failure_reason: Option<&str>) -> (r: Option<Self>)
        ensures
            r == Self::spec_from_db_columns(
                status@,
                match file_failure_reason {
                    Some(text) => Some(text@),
                    None => None,
                },
            ),
    {
        if let Some(text) = file_failure_reason {
            let reason = match FileFailureReason::from_name(text) {
                Some(reason) => reason,
                None => FileFailureReason::Unknown,
            };
            return Some(FileStatus::Failed(reason));
        }
        proof {
            assert forall|a: FileStatus, b: FileStatus|
                !(a is Failed) && #[trigger] file_status_name(a)
                    == #[trigger] file_status_name(b) implies a == b by {
                lemma_file_status_names_differ(a, b);
            }
        }
        if text_eq(status, "uninitialized") {
            assert(file_status_name(FileStatus::Uninitialized) == status@);
            Some(FileStatus::Uninitialized)
        } else if text_eq(status, "metadata_fetched") {
            assert(file_status_name(FileStatus::MetadataFetched) == status@);
            Some(FileStatus::MetadataFetched)
        } else if text_eq(status, "partial") {
            assert(file_status_name(FileStatus::Partial) == status@);
            Some(FileStatus::Partial)
        } else if text_eq(status, "completed") {
            assert(file_status_name(FileStatus::Completed) == status@);
            Some(FileStatus::Completed)
        } else if text_eq(status, "not_found") {
            assert(file_status_name(FileStatus::NotFound) == status@);
            Some(FileStatus::NotFound)
        } else {
            None
        }
    }

    /// The two columns under which a file's state is stored.
    pub open spec fn spec_to_db_columns(self) -> (Seq<char>, Option<Seq<char>>) {
        (
            file_status_name(self),
            match self {
                FileStatus::Failed(reason) => Some(reason.spec_name()),
                _ => None,
            },
        )
    }

    /// The two columns under which this state is stored: its name, and the
    /// reason of a failure.
    pub fn to_db_columns(&self) -> (r: (&'static str, Option<&'static str>))
        ensures
            r.0@ == self.spec_to_db_columns().0,
            match r.1 {
                Some(text) => self.spec_to_db_columns().1 == Some(text@),
                None => self.spec_to_db_columns().1.is_none(),
            },
    {
        match self {
            FileStatus::Uninitialized => ("uninitialized", None),
            FileStatus::MetadataFetched => ("metadata_fetched", None),
            FileStatus::Partial => ("partial", None),
            FileStatus::Completed => ("completed", None),
            FileStatus::Failed(reason) => ("failed", Some(reason.name())),
            FileStatus::NotFound => ("not_found", None),
        }
    }

    /// The state of a download whose only item is a file in this state.
    pub open spec fn spec_as_download_status(self) -> DownloadStatus {
        match self {
            FileStatus::Uninitialized => DownloadStatus::Uninitialized,
            FileStatus::MetadataFetched => DownloadStatus::MetadataFetched,
            FileStatus::Partial => DownloadStatus::Partial,
            FileStatus::Completed => DownloadStatus::Completed,
            FileStatus::NotFound => DownloadStatus::NotFound,
            FileStatus::Failed(reason) => DownloadStatus::Failed(
                DownloadFailureReason::AllFilesFailed(reason),
            ),
        }
    }

    /// The state of a download whose only item is a file in this state.
    pub fn as_download_status(&self) -> (s: DownloadStatus)
        ensures
            s == self.spec_as_download_status(),
    {
        match self {
            FileStatus::Uninitialized => DownloadStatus::Uninitialized,
            FileStatus::MetadataFetched => DownloadStatus::MetadataFetched,
            FileStatus::Partial => DownloadStatus::Partial,
            FileStatus::Completed => DownloadStatus::Completed,
            FileStatus::NotFound => DownloadStatus::NotFound,
            FileStatus::Failed(reason) => DownloadStatus::Failed(
                DownloadFailureReason::AllFilesFailed(*reason),
            ),
        }
    }
}

/// A stored state of a file reads back as itself.
pub proof fn law_file_status_round_trip(s: FileStatus)
    ensures
        FileStatus::spec_from_db_columns(s.spec_to_db_columns().0, s.spec_to_db_columns().1)
            == Some(s),
{
    match s {
        FileStatus::Failed(reason) => {
            law_file_failure_reason_round_trip(reason);
        },
        _ => {
            assert forall|b: FileStatus| #[trigger]
                file_status_name(b) == file_status_name(s) implies b == s by {
                lemma_file_status_names_differ(s, b);
            }
        },
    }
}

/// A file and the download that consists of it fall into the same bucket.
pub proof fn law_single_file_bucket(s: FileStatus)
    ensures
        s.spec_as_download_status().spec_bucket() == s.spec_bucket(),
{
}

/// A file that may fail with its download is not done yet, so failing it never
/// overwrites an outcome.
pub proof fn law_failing_spares_outcomes(s: FileStatus)
    ensures
        s.spec_can_be_failed() ==> !s.spec_is_terminal(),
{
}

/// How many children a folder has in each bucket.
#[derive(Debug, Clone, PartialEq, Eq)]
pub struct StateBucketCounters {
    pub data: [usize; 6],
}

impl StatusBucket {
    /// The place of a bucket among the counters.
    pub open spec fn index(self) -> int {
        match self {
            StatusBucket::Uninitialized => 0,
            StatusBucket::MetadataFetched => 1,
            StatusBucket::Partial => 2,
            StatusBucket::Completed => 3,
            StatusBucket::Error => 4,
            StatusBucket::CompletedWithErrors => 5,
        }
    }

    fn slot(self) -> (i: usize)
        ensures
            i as int == self.index(),
            i < 6,
    {
        match self {
            StatusBucket::Uninitialized => 0,
            StatusBucket::MetadataFetched => 1,
            StatusBucket::Partial => 2,
            StatusBucket::Completed => 3,
            StatusBucket::Error => 4,
            StatusBucket::CompletedWithErrors => 5,
        }
    }
}

impl StateBucketCounters {
    /// The number of children in a bucket.
    pub open spec fn count(&self, bucket: StatusBucket) -> nat {
        self.data@[bucket.index()] as nat
    }

    /// Counters that stand at zero.
    pub fn new() -> (r: Self)
        ensures
            forall|b: StatusBucket| #[trigger] r.count(b) == 0,
    {
        StateBucketCounters { data: [0; 6] }
    }

    /// Counts one more child in `bucket`.
    pub fn increment(&mut self, bucket: StatusBucket)
        requires
            old(self).count(bucket) < usize::MAX,
        ensures
            final(self).data@ == old(self).data@.update(
                bucket.index(),
                (old(self).data@[bucket.index()] + 1) as usize,
            ),
            final(self).count(bucket) == old(self).count(bucket) + 1,
            forall|b: StatusBucket|
                b != bucket ==> #[trigger] final(self).count(b) == old(self).count(b),
    {
        let i: usize = bucket.slot();
        let n: usize = self.data[i];
        self.data[i] = n + 1;
        assert(forall|b: StatusBucket| b != bucket ==> b.index() != bucket.index());
    }

    /// Counts one child less in `bucket`, but never below zero.
    pub fn decrement(&mut self, bucket: StatusBucket)
        ensures
            final(self).data@ == old(self).data@.update(
                bucket.index(),
                if old(self).data@[bucket.index()] == 0 {
                    0
                } else {
                    (old(self).data@[bucket.index()] - 1) as usize
                },
            ),
            final(self).count(bucket) == if old(self).count(bucket) == 0 {
                0
            } else {
                (old(self).count(bucket) - 1) as nat
            },
            forall|b: StatusBucket|
                b != bucket ==> #[trigger] final(self).count(b) == old(self).count(b),
    {
        let i: usize = bucket.slot();
        let n: usize = self.data[i];
        self.data[i] = n.saturating_sub(1);
        assert(forall|b: StatusBucket| b != bucket ==> b.index() != bucket.index());
    }

    /// The number of children in `bucket`.
    pub fn get(&self, bucket: StatusBucket) -> (n: usize)
        ensures
            n as nat == self.count(bucket),
    {
        let i: usize = bucket.slot();
        self.data[i]
    }
}

impl Default for StateBucketCounters {
    fn default() -> (r: Self)
        ensures
            forall|b: StatusBucket| #[trigger] r.count(b) == 0,
    {
        Self::new()
    }
}

} // verus!
