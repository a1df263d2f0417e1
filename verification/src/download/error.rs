//! Why a file or a whole download failed, and the names under which the
//! reasons are stored.

use vstd::prelude::*;
use crate::utils::text::{chars_of, find_char, string_of, text_eq};
#[allow(unused_imports)]
use crate::utils::text::{first_index_of, lemma_first_index_of};

verus! {

/// Why one file failed.
#[derive(Debug, Clone, Copy, PartialEq, Eq, Structural)]
pub enum FileFailureReason {
    HashMismatch,
    DiskError,
    ClientError,
    ServerError,
    MetadataFetchError,
    BadPath,
    Unknown,
}

/// Why a download, or a folder of it, failed.
#[derive(Debug, Clone, Copy, PartialEq, Eq, Structural)]
pub enum DownloadFailureReason {
    HashMismatch,
    DiskError,
    ClientError,
    ServerError,
    MetadataFetchError,
    MultipleErrors,
    AllFilesFailed(FileFailureReason),
    FilesMissingFromDisk,
    StateDesynchronized,
    BadPath,
    Unknown,
}

impl Default for FileFailureReason {
    fn default() -> (r: Self)
        ensures
            r == FileFailureReason::Unknown,
    {
        FileFailureReason::Unknown
    }
}

impl Default for DownloadFailureReason {
    fn default() -> (r: Self)
        ensures
            r == DownloadFailureReason::Unknown,
    {
        DownloadFailureReason::Unknown
    }
}

impl FileFailureReason {
    /// The name under which the reason is stored.
    pub open spec fn spec_name(self) -> Seq<char> {
        match self {
            FileFailureReason::HashMismatch => "hash_mismatch"@,
            FileFailureReason::DiskError => "disk_error"@,
            FileFailureReason::ClientError => "client_error"@,
            FileFailureReason::ServerError => "server_error"@,
            FileFailureReason::MetadataFetchError => "metadata_fetch_error"@,
            FileFailureReason::BadPath => "bad_path"@,
            FileFailureReason::Unknown => "unknown"@,
        }
    }

    /// The name under which the reason is stored.
    pub fn name(&self) -> (s: &'static str)
        ensures
            s@ == self.spec_name(),
    {
        match self {
            FileFailureReason::HashMismatch => "hash_mismatch",
            FileFailureReason::DiskError => "disk_error",
            FileFailureReason::ClientError => "client_error",
            FileFailureReason::ServerError => "server_error",
            FileFailureReason::MetadataFetchError => "metadata_fetch_error",
            FileFailureReason::BadPath => "bad_path",
            FileFailureReason::Unknown => "unknown",
        }
    }

    /// The reason that a stored name stands for.
    pub open spec fn spec_from_name(name: Seq<char>) -> Option<FileFailureReason> {
        if exists|r: FileFailureReason| #[trigger] r.spec_name() == name {
            Some(choose|r: FileFailureReason| #[trigger] r.spec_name() == name)
        } else {
            None
        }
    }

    /// The reason that a stored name stands for, if it is the name of one.
    pub fn from_name(name: &str) -> (r: Option<FileFailureReason>)
        ensures
            r == Self::spec_from_name(name@),
            match r {
                Some(reason) => name@ == reason.spec_name(),
                None => forall|reason: FileFailureReason| #[trigger]
                    reason.spec_name() != name@,
            },
    {
        proof {
            assert forall|a: FileFailureReason, b: FileFailureReason|
                #[trigger] a.spec_name() == #[trigger] b.spec_name() implies a == b by {
                lemma_file_failure_names_differ(a, b);
            }
        }
        if text_eq(name, "hash_mismatch") {
            assert(FileFailureReason::HashMismatch.spec_name() == name@);
            Some(FileFailureReason::HashMismatch)
        } else if text_eq(name, "disk_error") {
            assert(FileFailureReason::DiskError.spec_name() == name@);
            Some(FileFailureReason::DiskError)
        } else if text_eq(name, "client_error") {
            assert(FileFailureReason::ClientError.spec_name() == name@);
            Some(FileFailureReason::ClientError)
        } else if text_eq(name, "server_error") {
            assert(FileFailureReason::ServerError.spec_name() == name@);
            Some(FileFailureReason::ServerError)
        } else if text_eq(name, "metadata_fetch_error") {
            assert(FileFailureReason::MetadataFetchError.spec_name() == name@);
            Some(FileFailureReason::MetadataFetchError)
        } else if text_eq(name, "bad_path") {
            assert(FileFailureReason::BadPath.spec_name() == name@);
            Some(FileFailureReason::BadPath)
        } else if text_eq(name, "unknown") {
            assert(FileFailureReason::Unknown.spec_name() == name@);
            Some(FileFailureReason::Unknown)
        } else {
            None
        }
    }
}

/// The length and the first letter of each name, which tell the names apart.
proof fn lemma_file_failure_name_shape(r: FileFailureReason)
    ensures
        r.spec_name().len() == match r {
            FileFailureReason::HashMismatch => 13nat,
            FileFailureReason::DiskError => 10nat,
            FileFailureReason::ClientError => 12nat,
            FileFailureReason::ServerError => 12nat,
            FileFailureReason::MetadataFetchError => 20nat,
            FileFailureReason::BadPath => 8nat,
            FileFailureReason::Unknown => 7nat,
        },
        r is ClientError ==> r.spec_name()[0] == 'c',
        r is ServerError ==> r.spec_name()[0] == 's',
{
    reveal_strlit("hash_mismatch");
    reveal_strlit("disk_error");
    reveal_strlit("client_error");
    reveal_strlit("server_error");
    reveal_strlit("metadata_fetch_error");
    reveal_strlit("bad_path");
    reveal_strlit("unknown");
}

/// No two reasons of a file share a name.
pub proof fn lemma_file_failure_names_differ(a: FileFailureReason, b: FileFailureReason)
    requires
        a.spec_name() == b.spec_name(),
    ensures
        a == b,
{
    lemma_file_failure_name_shape(a);
    lemma_file_failure_name_shape(b);
}

/// What stands behind the first colon, if there is a colon.
pub open spec fn after_colon(s: Seq<char>) -> Option<Seq<char>> {
    match first_index_of(s, ':') {
        Some(i) => Some(s.skip(i + 1)),
        None => None,
    }
}

impl DownloadFailureReason {
    /// The name under which the reason is stored. That of `AllFilesFailed`
    /// does not tell the inner reason.
    pub open spec fn spec_name(self) -> Seq<char> {
        match self {
            DownloadFailureReason::HashMismatch => "hash_mismatch"@,
            DownloadFailureReason::DiskError => "disk_error"@,
            DownloadFailureReason::ClientError => "client_error"@,
            DownloadFailureReason::ServerError => "server_error"@,
            DownloadFailureReason::MetadataFetchError => "metadata_fetch_error"@,
            DownloadFailureReason::MultipleErrors => "multiple_errors"@,
            DownloadFailureReason::AllFilesFailed(_) => "all_files_failed"@,
            DownloadFailureReason::FilesMissingFromDisk => "files_missing_from_disk"@,
            DownloadFailureReason::StateDesynchronized => "state_desynchronized"@,
            DownloadFailureReason::BadPath => "bad_path"@,
            DownloadFailureReason::Unknown => "unknown"@,
        }
    }

    /// The name under which the reason is stored.
    pub fn name(&self) -> (s: &'static str)
        ensures
            s@ == self.spec_name(),
    {
        match self {
            DownloadFailureReason::HashMismatch => "hash_mismatch",
            DownloadFailureReason::DiskError => "disk_error",
            DownloadFailureReason::ClientError => "client_error",
            DownloadFailureReason::ServerError => "server_error",
            DownloadFailureReason::MetadataFetchError => "metadata_fetch_error",
            DownloadFailureReason::MultipleErrors => "multiple_errors",
            DownloadFailureReason::AllFilesFailed(_) => "all_files_failed",
            DownloadFailureReason::FilesMissingFromDisk => "files_missing_from_disk",
            DownloadFailureReason::StateDesynchronized => "state_desynchronized",
            DownloadFailureReason::BadPath => "bad_path",
            DownloadFailureReason::Unknown => "unknown",
        }
    }

    /// The reason that a stored name stands for. Text with a colon names the
    /// reason that all files share behind the colon; any other text is the name
    /// of a reason that carries none.
    pub open spec fn spec_from_db_string(s: Seq<char>) -> Option<DownloadFailureReason> {
        match after_colon(s) {
            Some(inner) => match FileFailureReason::spec_from_name(inner) {
                Some(r) => Some(DownloadFailureReason::AllFilesFailed(r)),
                None => None,
            },
            None => if exists|r: DownloadFailureReason|
                !(r is AllFilesFailed) && #[trigger] r.spec_name() == s {
                Some(
                    choose|r: DownloadFailureReason|
                        !(r is AllFilesFailed) && #[trigger] r.spec_name() == s,
                )
            } else {
                None
            },
        }
    }

    /// The reason that stored text stands for, if it stands for one.
    pub fn from_db_string(reason_str: &str) -> (r: Option<DownloadFailureReason>)
        ensures
            r == Self::spec_from_db_string(reason_str@),
    {
        let chars = chars_of(reason_str);
        match find_char(&chars, ':') {
            Some(i) => {
                let end: usize = chars.len();
                let inner = string_of(&chars, i + 1, end);
                assert(inner@ == reason_str@.skip(i + 1));
                match FileFailureReason::from_name(inner.as_str()) {
                    Some(reason) => Some(DownloadFailureReason::AllFilesFailed(reason)),
                    None => None,
                }
            },
            None => Self::from_plain_name(reason_str),
        }
    }

    fn from_plain_name(name: &str) -> (r: Option<DownloadFailureReason>)
        requires
            after_colon(name@).is_none(),
        ensures
            r == Self::spec_from_db_string(name@),
    {
        proof {
            assert forall|a: DownloadFailureReason, b: DownloadFailureReason|
                !(a is AllFilesFailed) && !(b is AllFilesFailed) && #[trigger] a.spec_name()
                    == #[trigger] b.spec_name() implies a == b by {
                lemma_download_failure_names_differ(a, b);
            }
        }
        if text_eq(name, "hash_mismatch") {
            assert(DownloadFailureReason::HashMismatch.spec_name() == name@);
            Some(DownloadFailureReason::HashMismatch)
        } else if text_eq(name, "disk_error") {
            assert(DownloadFailureReason::DiskError.spec_name() == name@);
            Some(DownloadFailureReason::DiskError)
        } else if text_eq(name, "client_error") {
            assert(DownloadFailureReason::ClientError.spec_name() == name@);
            Some(DownloadFailureReason::ClientError)
        } else if text_eq(name, "server_error") {
            assert(DownloadFailureReason::ServerError.spec_name() == name@);
            Some(DownloadFailureReason::ServerError)
        } else if text_eq(name, "metadata_fetch_error") {
            assert(DownloadFailureReason::MetadataFetchError.spec_name() == name@);
            Some(DownloadFailureReason::MetadataFetchError)
        } else if text_eq(name, "multiple_errors") {
            assert(DownloadFailureReason::MultipleErrors.spec_name() == name@);
            Some(DownloadFailureReason::MultipleErrors)
        } else if text_eq(name, "files_missing_from_disk") {
            assert(DownloadFailureReason::FilesMissingFromDisk.spec_name() == name@);
            Some(DownloadFailureReason::FilesMissingFromDisk)
        } else if text_eq(name, "state_desynchronized") {
            assert(DownloadFailureReason::StateDesynchronized.spec_name() == name@);
            Some(DownloadFailureReason::StateDesynchronized)
        } else if text_eq(name, "bad_path") {
            assert(DownloadFailureReason::BadPath.spec_name() == name@);
            Some(DownloadFailureReason::BadPath)
        } else if text_eq(name, "unknown") {
            assert(DownloadFailureReason::Unknown.spec_name() == name@);
            Some(DownloadFailureReason::Unknown)
        } else {
            None
        }
    }
}

/// The length and the first letter of each name, which tell the names apart.
proof fn lemma_download_failure_name_shape(r: DownloadFailureReason)
    ensures
        r.spec_name().len() == match r {
            DownloadFailureReason::HashMismatch => 13nat,
            DownloadFailureReason::DiskError => 10nat,
            DownloadFailureReason::ClientError => 12nat,
            DownloadFailureReason::ServerError => 12nat,
            DownloadFailureReason::MetadataFetchError => 20nat,
            DownloadFailureReason::MultipleErrors => 15nat,
            DownloadFailureReason::AllFilesFailed(_) => 16nat,
            DownloadFailureReason::FilesMissingFromDisk => 23nat,
            DownloadFailureReason::StateDesynchronized => 20nat,
            DownloadFailureReason::BadPath => 8nat,
            DownloadFailureReason::Unknown => 7nat,
        },
        r is ClientError ==> r.spec_name()[0] == 'c',
        r is ServerError ==> r.spec_name()[0] == 's',
        r is MetadataFetchError ==> r.spec_name()[0] == 'm',
        r is StateDesynchronized ==> r.spec_name()[0] == 's',
{
    reveal_strlit("hash_mismatch");
    reveal_strlit("disk_error");
    reveal_strlit("client_error");
    reveal_strlit("server_error");
    reveal_strlit("metadata_fetch_error");
    reveal_strlit("multiple_errors");
    reveal_strlit("all_files_failed");
    reveal_strlit("files_missing_from_disk");
    reveal_strlit("state_desynchronized");
    reveal_strlit("bad_path");
    reveal_strlit("unknown");
}

/// Only reasons that wrap an inner one can share a name.
pub proof fn lemma_download_failure_names_differ(
    a: DownloadFailureReason,
    b: DownloadFailureReason,
)
    requires
        a.spec_name() == b.spec_name(),
    ensures
        (a is AllFilesFailed) == (b is AllFilesFailed),
        !(a is AllFilesFailed) ==> a == b,
{
    lemma_download_failure_name_shape(a);
    lemma_download_failure_name_shape(b);
}

/// No reason's own name holds a colon.
pub proof fn lemma_download_failure_names_hold_no_colon(r: DownloadFailureReason)
    ensures
        after_colon(r.spec_name()).is_none(),
{
    reveal_strlit("hash_mismatch");
    reveal_strlit("disk_error");
    reveal_strlit("client_error");
    reveal_strlit("server_error");
    reveal_strlit("metadata_fetch_error");
    reveal_strlit("multiple_errors");
    reveal_strlit("all_files_failed");
    reveal_strlit("files_missing_from_disk");
    reveal_strlit("state_desynchronized");
    reveal_strlit("bad_path");
    reveal_strlit("unknown");
    lemma_first_index_of(r.spec_name(), ':');
}

/// A stored reason reads back as itself, unless it wraps a reason of the files:
/// that one is stored without its inner reason and does not read back.
pub proof fn law_failure_reason_round_trip(r: DownloadFailureReason)
    ensures
        !(r is AllFilesFailed) ==> DownloadFailureReason::spec_from_db_string(r.spec_name())
            == Some(r),
        r is AllFilesFailed ==> DownloadFailureReason::spec_from_db_string(
            r.spec_name(),
        ).is_none(),
{
    lemma_download_failure_names_hold_no_colon(r);
    assert forall|b: DownloadFailureReason| #[trigger]
        b.spec_name() == r.spec_name() implies (b is AllFilesFailed) == (r is AllFilesFailed) && (!(
    r is AllFilesFailed) ==> b == r) by {
        lemma_download_failure_names_differ(b, r);
    }
}

/// The name of a file's reason reads back as that reason.
pub proof fn law_file_failure_reason_round_trip(r: FileFailureReason)
    ensures
        FileFailureReason::spec_from_name(r.spec_name()) == Some(r),
{
    assert forall|b: FileFailureReason| #[trigger] b.spec_name() == r.spec_name() implies b
        == r by {
        lemma_file_failure_names_differ(b, r);
    }
}

} // verus!
