//! How the state of a folder follows from the states of what lies in it.

use vstd::prelude::*;
use crate::download::error::DownloadFailureReason;
use crate::download::items::{FileId, FolderDownload, FolderId};
#[allow(unused_imports)]
use crate::download::items::{FileModel, FolderModel};
use crate::download::status::{DownloadStatus, FileStatus, StatusBucket};
use crate::download::tables::{FileTable, FolderTable};
#[allow(unused_imports)]
use crate::download::tables::{find_file, find_folder};

verus! {

/// What went wrong with a child of a folder.
#[derive(Debug, Clone, Copy, PartialEq, Eq, Structural)]
pub enum ChildError {
    Missing,
    Reason(DownloadFailureReason),
}

/// What went wrong with a file in this state.
pub open spec fn file_error(s: FileStatus) -> Option<ChildError> {
    match s {
        FileStatus::NotFound => Some(ChildError::Missing),
        FileStatus::Failed(reason) => Some(
            ChildError::Reason(DownloadFailureReason::AllFilesFailed(reason)),
        ),
        _ => None,
    }
}

/// What went wrong with a folder in this state.
pub open spec fn folder_error(s: DownloadStatus) -> Option<ChildError> {
    match s {
        DownloadStatus::NotFound => Some(ChildError::Missing),
        DownloadStatus::Failed(reason) => Some(ChildError::Reason(reason)),
        _ => None,
    }
}

/// What went wrong with these files, in order; a number without a file counts for
/// nothing.
pub open spec fn file_errors(ids: Seq<FileId>, files: Seq<FileModel>) -> Seq<ChildError>
    decreases ids.len(),
{
    if ids.len() == 0 {
        Seq::empty()
    } else {
        let rest = file_errors(ids.drop_last(), files);
        match find_file(files, ids.last()) {
            Some(i) => match file_error(files[i].status) {
                Some(e) => rest.push(e),
                None => rest,
            },
            None => rest,
        }
    }
}

/// What went wrong with these folders, in order; a number without a folder counts
/// for nothing.
pub open spec fn folder_errors(ids: Seq<FolderId>, folders: Seq<FolderModel>) -> Seq<ChildError>
    decreases ids.len(),
{
    if ids.len() == 0 {
        Seq::empty()
    } else {
        let rest = folder_errors(ids.drop_last(), folders);
        match find_folder(folders, ids.last()) {
            Some(i) => match folder_error(folders[i].status) {
                Some(e) => rest.push(e),
                None => rest,
            },
            None => rest,
        }
    }
}

/// What went wrong with the children of a folder: files first.
pub open spec fn child_errors(
    f: FolderModel,
    files: Seq<FileModel>,
    folders: Seq<FolderModel>,
) -> Seq<ChildError> {
    file_errors(f.child_files, files) + folder_errors(f.child_folders, folders)
}

/// How many children a folder has.
pub open spec fn child_count(f: FolderModel) -> nat {
    f.child_files.len() + f.child_folders.len()
}

/// Whether not all of the errors are the same.
pub open spec fn mixed(errors: Seq<ChildError>) -> bool {
    exists|i: int, j: int|
        0 <= i < errors.len() && 0 <= j < errors.len() && #[trigger] errors[i]
            != #[trigger] errors[j]
}

/// The state of a folder whose children all went wrong. If all of them are
/// missing, it depends on whether the folder itself is gone from disk.
pub open spec fn error_status(
    f: FolderModel,
    files: Seq<FileModel>,
    folders: Seq<FolderModel>,
    gone: bool,
) -> DownloadStatus {
    let errors = child_errors(f, files, folders);
    if errors.len() == child_count(f) && forall|i: int|
        0 <= i < errors.len() ==> #[trigger] errors[i] == ChildError::Missing {
        if gone {
            DownloadStatus::NotFound
        } else {
            DownloadStatus::Failed(DownloadFailureReason::FilesMissingFromDisk)
        }
    } else if mixed(errors) {
        DownloadStatus::Failed(DownloadFailureReason::MultipleErrors)
    } else if errors.len() > 0 && errors[0] is Reason {
        DownloadStatus::Failed(errors[0]->Reason_0)
    } else {
        DownloadStatus::Failed(DownloadFailureReason::StateDesynchronized)
    }
}

/// How many children a folder has in a bucket.
pub open spec fn in_bucket(f: FolderModel, b: StatusBucket) -> nat {
    f.counters[b.index()] as nat
}

/// The bucket that decides a folder's state: partial work anywhere; else what all
/// children share; else, of what has not ended, metadata beside nothing yet counts
/// as metadata, and anything else as partial; else errors beside success.
pub open spec fn dominant(f: FolderModel) -> Option<StatusBucket> {
    let total = child_count(f);
    if total == 0 {
        None
    } else if in_bucket(f, StatusBucket::Partial) > 0 {
        Some(StatusBucket::Partial)
    } else if in_bucket(f, StatusBucket::Uninitialized) == total {
        Some(StatusBucket::Uninitialized)
    } else if in_bucket(f, StatusBucket::MetadataFetched) == total {
        Some(StatusBucket::MetadataFetched)
    } else if in_bucket(f, StatusBucket::Error) == total {
        Some(StatusBucket::Error)
    } else if in_bucket(f, StatusBucket::Completed) == total {
        Some(StatusBucket::Completed)
    } else if in_bucket(f, StatusBucket::CompletedWithErrors) == total {
        Some(StatusBucket::CompletedWithErrors)
    } else if in_bucket(f, StatusBucket::Uninitialized) > 0 && in_bucket(
        f,
        StatusBucket::MetadataFetched,
    ) > 0 {
        Some(StatusBucket::MetadataFetched)
    } else if in_bucket(f, StatusBucket::MetadataFetched) > 0 || in_bucket(
        f,
        StatusBucket::Uninitialized,
    ) > 0 {
        Some(StatusBucket::Partial)
    } else if in_bucket(f, StatusBucket::Error) > 0 || in_bucket(
        f,
        StatusBucket::CompletedWithErrors,
    ) > 0 {
        Some(StatusBucket::CompletedWithErrors)
    } else {
        None
    }
}

/// The state that follows for a folder from its children.
pub open spec fn derived_status(
    f: FolderModel,
    files: Seq<FileModel>,
    folders: Seq<FolderModel>,
    gone: bool,
) -> DownloadStatus {
    match dominant(f) {
        Some(StatusBucket::Uninitialized) => DownloadStatus::Uninitialized,
        Some(StatusBucket::MetadataFetched) => DownloadStatus::MetadataFetched,
        Some(StatusBucket::Partial) => DownloadStatus::Partial,
        Some(StatusBucket::Completed) => DownloadStatus::Completed,
        Some(StatusBucket::CompletedWithErrors) => DownloadStatus::CompletedWithErrors,
        Some(StatusBucket::Error) => error_status(f, files, folders, gone),
        None => if child_count(f) == 0 {
            DownloadStatus::Completed
        } else {
            DownloadStatus::CompletedWithErrors
        },
    }
}

fn error_of_file(s: FileStatus) -> (r: Option<ChildError>)
    ensures
        r == file_error(s),
{
    match s {
        FileStatus::NotFound => Some(ChildError::Missing),
        FileStatus::Failed(reason) => Some(
            ChildError::Reason(DownloadFailureReason::AllFilesFailed(reason)),
        ),
        _ => None,
    }
}

fn error_of_folder(s: DownloadStatus) -> (r: Option<ChildError>)
    ensures
        r == folder_error(s),
{
    match s {
        DownloadStatus::NotFound => Some(ChildError::Missing),
        DownloadStatus::Failed(reason) => Some(ChildError::Reason(reason)),
        _ => None,
    }
}

proof fn lemma_error_counts(f: FolderModel, files: Seq<FileModel>, folders: Seq<FolderModel>)
    ensures
        child_errors(f, files, folders).len() <= child_count(f),
{
    lemma_file_error_count(f.child_files, files);
    lemma_folder_error_count(f.child_folders, folders);
}

proof fn lemma_file_error_count(ids: Seq<FileId>, files: Seq<FileModel>)
    ensures
        file_errors(ids, files).len() <= ids.len(),
    decreases ids.len(),
{
    if ids.len() > 0 {
        lemma_file_error_count(ids.drop_last(), files);
    }
}

proof fn lemma_folder_error_count(ids: Seq<FolderId>, folders: Seq<FolderModel>)
    ensures
        folder_errors(ids, folders).len() <= ids.len(),
    decreases ids.len(),
{
    if ids.len() > 0 {
        lemma_folder_error_count(ids.drop_last(), folders);
    }
}

impl FolderDownload {
    fn gather_errors(&self, files: &FileTable, folders: &FolderTable) -> (errors: Vec<ChildError>)
        requires
            files.wf(),
            folders.wf(),
        ensures
            errors@ == child_errors(self@, files@, folders@),
    {
        let mut errors: Vec<ChildError> = Vec::new();
        let mut i: usize = 0;
        while i < self.child_files.len()
            invariant
                i <= self.child_files@.len(),
                files.wf(),
                errors@ == file_errors(self.child_files@.take(i as int), files@),
            decreases self.child_files@.len() - i,
        {
            let id = self.child_files[i];
            assert(self.child_files@.take(i + 1).drop_last() =~= self.child_files@.take(i as int));
            if let Some(file) = files.get(id) {
                if let Some(e) = error_of_file(file.status) {
                    errors.push(e);
                }
            }
            i += 1;
        }
        assert(self.child_files@.take(i as int) =~= self.child_files@);
        let ghost first = errors@;
        let mut j: usize = 0;
        while j < self.child_folders.len()
            invariant
                j <= self.child_folders@.len(),
                folders.wf(),
                errors@ == first + folder_errors(self.child_folders@.take(j as int), folders@),
            decreases self.child_folders@.len() - j,
        {
            let id = self.child_folders[j];
            assert(self.child_folders@.take(j + 1).drop_last() =~= self.child_folders@.take(
                j as int,
            ));
            if let Some(folder) = folders.get(id) {
                if let Some(e) = error_of_folder(folder.status) {
                    errors.push(e);
                }
            }
            j += 1;
            assert(errors@ =~= first + folder_errors(self.child_folders@.take(j as int), folders@));
        }
        assert(self.child_folders@.take(j as int) =~= self.child_folders@);
        errors
    }

    /// The state of the folder once all of its children went wrong. `gone` says
    /// whether the folder itself is missing from disk.
    pub fn resolve_error_status(
        &self,
        files: &FileTable,
        folders: &FolderTable,
        gone: bool,
    ) -> (r: DownloadStatus)
        requires
            files.wf(),
            folders.wf(),
            child_count(self@) <= usize::MAX,
        ensures
            r == error_status(self@, files@, folders@, gone),
    {
        let errors = self.gather_errors(files, folders);
        proof {
            lemma_error_counts(self@, files@, folders@);
        }
        let total: usize = self.child_files.len() + self.child_folders.len();
        let mut all_missing = errors.len() == total;
        let mut differ = false;
        let mut i: usize = 0;
        while i < errors.len()
            invariant
                i <= errors@.len(),
                all_missing == (errors@.len() == total && forall|k: int|
                    0 <= k < i ==> #[trigger] errors@[k] == ChildError::Missing),
                differ == (exists|k: int| 0 <= k < i && #[trigger] errors@[k] != errors@[0]),
            decreases errors@.len() - i,
        {
            if errors[i] != ChildError::Missing {
                all_missing = false;
            }
            if errors[i] != errors[0] {
                differ = true;
            }
            i += 1;
        }
        proof {
            if differ {
                let k = choose|k: int| 0 <= k < errors@.len() && #[trigger] errors@[k] != errors@[0];
                assert(errors@[k] != errors@[0]);
                assert(mixed(errors@));
            }
        }
        if all_missing {
            if gone {
                DownloadStatus::NotFound
            } else {
                DownloadStatus::Failed(DownloadFailureReason::FilesMissingFromDisk)
            }
        } else if differ {
            DownloadStatus::Failed(DownloadFailureReason::MultipleErrors)
        } else {
            if errors.len() > 0 {
                if let ChildError::Reason(reason) = errors[0] {
                    return DownloadStatus::Failed(reason);
                }
            }
            DownloadStatus::Failed(DownloadFailureReason::StateDesynchronized)
        }
    }

    /// The bucket that decides the folder's state.
    pub fn dominant_status(&self) -> (r: Option<StatusBucket>)
        requires
            child_count(self@) <= usize::MAX,
        ensures
            r == dominant(self@),
    {
        let total: usize = self.child_files.len() + self.child_folders.len();
        let counters = &self.bucket_counters;
        if total == 0 {
            return None;
        }
        let uninitialized: usize = counters.get(StatusBucket::Uninitialized);
        let metadata: usize = counters.get(StatusBucket::MetadataFetched);
        let errors: usize = counters.get(StatusBucket::Error);
        let with_errors: usize = counters.get(StatusBucket::CompletedWithErrors);
        if counters.get(StatusBucket::Partial) > 0 {
            Some(StatusBucket::Partial)
        } else if uninitialized == total {
            Some(StatusBucket::Uninitialized)
        } else if metadata == total {
            Some(StatusBucket::MetadataFetched)
        } else if errors == total {
            Some(StatusBucket::Error)
        } else if counters.get(StatusBucket::Completed) == total {
            Some(StatusBucket::Completed)
        } else if with_errors == total {
            Some(StatusBucket::CompletedWithErrors)
        } else if uninitialized > 0 && metadata > 0 {
            Some(StatusBucket::MetadataFetched)
        } else if metadata > 0 || uninitialized > 0 {
            Some(StatusBucket::Partial)
        } else if errors > 0 || with_errors > 0 {
            Some(StatusBucket::CompletedWithErrors)
        } else {
            None
        }
    }

    /// The state that follows for the folder from its children. `gone` says whether
    /// the folder itself is missing from disk.
    pub fn calculate_status(&self, files: &FileTable, folders: &FolderTable, gone: bool) -> (r:
        DownloadStatus)
        requires
            files.wf(),
            folders.wf(),
            child_count(self@) <= usize::MAX,
        ensures
            r == derived_status(self@, files@, folders@, gone),
    {
        match self.dominant_status() {
            Some(StatusBucket::Uninitialized) => DownloadStatus::Uninitialized,
            Some(StatusBucket::MetadataFetched) => DownloadStatus::MetadataFetched,
            Some(StatusBucket::Partial) => DownloadStatus::Partial,
            Some(StatusBucket::Completed) => DownloadStatus::Completed,
            Some(StatusBucket::CompletedWithErrors) => DownloadStatus::CompletedWithErrors,
            Some(StatusBucket::Error) => self.resolve_error_status(files, folders, gone),
            None => {
                if self.child_files.len() == 0 && self.child_folders.len() == 0 {
                    DownloadStatus::Completed
                } else {
                    DownloadStatus::CompletedWithErrors
                }
            },
        }
    }
}

/// Whether a folder's counters count each of its children once.
pub open spec fn counts_add_up(f: FolderModel) -> bool {
    in_bucket(f, StatusBucket::Uninitialized) + in_bucket(f, StatusBucket::MetadataFetched)
        + in_bucket(f, StatusBucket::Partial) + in_bucket(f, StatusBucket::Completed) + in_bucket(
        f,
        StatusBucket::Error,
    ) + in_bucket(f, StatusBucket::CompletedWithErrors) == child_count(f)
}

/// A folder is failed or missing exactly if all of its children are, and it has
/// some.
pub proof fn law_folder_errs_with_all_children(
    f: FolderModel,
    files: Seq<FileModel>,
    folders: Seq<FolderModel>,
    gone: bool,
)
    requires
        counts_add_up(f),
    ensures
        derived_status(f, files, folders, gone).spec_bucket() == StatusBucket::Error
            <==> child_count(f) > 0 && in_bucket(f, StatusBucket::Error) == child_count(f),
{
}

/// A folder is complete exactly if all of its children are, one without children
/// included.
pub proof fn law_folder_completes_with_all_children(
    f: FolderModel,
    files: Seq<FileModel>,
    folders: Seq<FolderModel>,
    gone: bool,
)
    requires
        counts_add_up(f),
    ensures
        derived_status(f, files, folders, gone) is Completed <==> in_bucket(
            f,
            StatusBucket::Completed,
        ) == child_count(f),
{
}

} // verus!
