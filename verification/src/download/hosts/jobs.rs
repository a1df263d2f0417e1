//! The jobs that a server is asked to do.

use std::ops::Range;

use vstd::prelude::*;
use crate::download::hosts::failures::{DownloadOperation, PermanentFailure, PermanentFailureKind};
#[allow(unused_imports)]
use crate::download::items::FileModel;
use crate::download::items::{DownloadId, FileDownload, FileId, FileSize};
use crate::download::ranges::RangeInfo;
use crate::download::supervisor::MetadataInfo;
use crate::utils::paths::ItemPath;

verus! {

/// What to learn of a file before it can be fetched. The context is what the caller
/// needs to report back.
pub struct MetadataJob<C> {
    pub download_id: DownloadId,
    pub file_id: FileId,
    pub url: String,
    pub retries: usize,
    pub context: C,
}

/// A file to be fetched from beginning to end.
pub struct StreamJob<C> {
    pub download_id: DownloadId,
    pub file_id: FileId,
    pub url: String,
    pub path: ItemPath,
    pub retries: usize,
    pub context: C,
}

/// A range of blocks of a file to be fetched.
pub struct RangeJob<C> {
    pub download_id: DownloadId,
    pub file_id: FileId,
    pub url: String,
    pub path: ItemPath,
    pub range: Range<usize>,
    pub expected_bytes: u64,
    pub previously_downloaded: u64,
    pub retries: usize,
    pub context: C,
}

/// A job that failed.
pub enum FailedJob<C> {
    Metadata(MetadataJob<C>),
    Stream(StreamJob<C>),
    Range(RangeJob<C>),
}

/// A job to be done next.
pub enum NextJob<C> {
    Metadata(MetadataJob<C>),
    Stream(StreamJob<C>),
    Range(RangeJob<C>),
}

/// What was learned of a file.
#[allow(inconsistent_fields)]
pub enum MetadataResult {
    /// It can only be fetched from beginning to end.
    Stream { file_size: FileSize, file_name: String },
    /// It can be fetched in ranges.
    Chunked { file_size: u64, file_name: String },
}

/// What became of a job.
#[allow(inconsistent_fields)]
pub enum DownloadResult {
    Metadata { file_id: FileId, metadata: MetadataResult },
    Stream { file_id: FileId, bytes_downloaded: u64 },
    Range { file_id: FileId, range: Range<usize>, hashes: Vec<[u8; 16]> },
    Failed(PermanentFailure),
}

/// The job that learns what a file is, with no attempt made yet.
pub fn get_metadata_job<C>(download_id: DownloadId, info: MetadataInfo, context: C) -> (r:
    MetadataJob<C>)
    ensures
        r.download_id == download_id,
        r.file_id == info@.file_id,
        r.url@ == info@.url,
        r.retries == 0,
        r.context == context,
{
    MetadataJob { download_id, file_id: info.file_id, url: info.url, retries: 0, context }
}

/// The job that fetches a file from beginning to end, with no attempt made yet.
pub fn get_stream_job<C>(download_id: DownloadId, file: &FileDownload, context: C) -> (r: StreamJob<
    C,
>)
    ensures
        r.download_id == download_id,
        r.file_id == file@.id,
        r.url@ == file@.url,
        r.path@ == file@.path,
        r.retries == 0,
        r.context == context,
{
    StreamJob {
        download_id,
        file_id: file.id,
        url: file.url.clone(),
        path: file.relative_path.duplicate(),
        retries: 0,
        context,
    }
}

impl<C> RangeJob<C> {
    /// Whether a job fetches a range of a file, with no attempt made yet.
    pub open spec fn fetches(self, id: DownloadId, file: FileModel, info: RangeInfo) -> bool {
        &&& self.download_id == id
        &&& self.file_id == file.id
        &&& self.url@ == file.url
        &&& self.path@ == file.path
        &&& self.range == info.range
        &&& self.expected_bytes == info.expected_bytes
        &&& self.previously_downloaded == info.previously_downloaded
        &&& self.retries == 0
    }
}

/// The jobs that fetch some ranges of a file, in their order. Each has a copy of what
/// the caller needs.
pub fn get_range_jobs<C: Clone>(
    download_id: DownloadId,
    file: &FileDownload,
    ranges: Vec<RangeInfo>,
    context: &C,
) -> (r: Vec<RangeJob<C>>)
    ensures
        r@.len() == ranges@.len(),
        forall|i: int|
            0 <= i < ranges@.len() ==> (#[trigger] r@[i]).fetches(download_id, file@, ranges@[i])
                && cloned(*context, r@[i].context),
{
    let ghost all = ranges@;
    let mut jobs: Vec<RangeJob<C>> = Vec::new();
    for info in iter: ranges
        invariant
            iter.seq() == all,
            jobs@.len() == iter.index(),
            forall|i: int|
                0 <= i < jobs@.len() ==> (#[trigger] jobs@[i]).fetches(download_id, file@, all[i])
                    && cloned(*context, jobs@[i].context),
    {
        let copy = context.clone();
        jobs.push(
            RangeJob {
                download_id,
                file_id: file.id,
                url: file.url.clone(),
                path: file.relative_path.duplicate(),
                range: info.range,
                expected_bytes: info.expected_bytes,
                previously_downloaded: info.previously_downloaded,
                retries: 0,
                context: copy,
            },
        );
    }
    jobs
}

impl<C> StreamJob<C> {
    /// Whether a job fetches the whole file that a range job belongs to, with no
    /// attempt made yet.
    pub open spec fn replaces(self, job: RangeJob<C>) -> bool {
        &&& self.download_id == job.download_id
        &&& self.file_id == job.file_id
        &&& self.url == job.url
        &&& self.path == job.path
        &&& self.context == job.context
        &&& self.retries == 0
    }

    /// Fetches the whole file in place of a range of it. All range jobs of a file
    /// share `converting`, and only the first of them is turned into a stream.
    pub fn try_from(range_job: RangeJob<C>, converting: &mut bool) -> (r: Result<Self, ()>)
        ensures
            *final(converting),
            match r {
                Ok(job) => !*old(converting) && job.replaces(range_job),
                Err(_) => *old(converting),
            },
    {
        if *converting {
            return Err(());
        }
        *converting = true;
        Ok(
            StreamJob {
                download_id: range_job.download_id,
                file_id: range_job.file_id,
                url: range_job.url,
                path: range_job.path,
                retries: 0,
                context: range_job.context,
            },
        )
    }
}

impl<C> FailedJob<C> {
    /// The download that a job is for.
    pub open spec fn spec_download_id(self) -> DownloadId {
        match self {
            FailedJob::Metadata(job) => job.download_id,
            FailedJob::Stream(job) => job.download_id,
            FailedJob::Range(job) => job.download_id,
        }
    }

    /// The file that a job is for.
    pub open spec fn spec_file_id(self) -> FileId {
        match self {
            FailedJob::Metadata(job) => job.file_id,
            FailedJob::Stream(job) => job.file_id,
            FailedJob::Range(job) => job.file_id,
        }
    }

    /// How often a job has failed in vain.
    pub open spec fn spec_retries(self) -> usize {
        match self {
            FailedJob::Metadata(job) => job.retries,
            FailedJob::Stream(job) => job.retries,
            FailedJob::Range(job) => job.retries,
        }
    }

    /// The same job, failed so often.
    pub open spec fn with_retries(self, retries: usize) -> FailedJob<C> {
        match self {
            FailedJob::Metadata(job) => FailedJob::Metadata(MetadataJob { retries, ..job }),
            FailedJob::Stream(job) => FailedJob::Stream(StreamJob { retries, ..job }),
            FailedJob::Range(job) => FailedJob::Range(RangeJob { retries, ..job }),
        }
    }

    /// What a job was trying to do.
    pub open spec fn operation(self) -> DownloadOperation {
        match self {
            FailedJob::Metadata(job) => DownloadOperation::FetchingMetadata {
                download_id: job.download_id,
                file_id: job.file_id,
            },
            FailedJob::Stream(job) => DownloadOperation::DownloadingStream {
                download_id: job.download_id,
                file_id: job.file_id,
            },
            FailedJob::Range(job) => DownloadOperation::DownloadingRange {
                download_id: job.download_id,
                file_id: job.file_id,
                range: job.range,
            },
        }
    }

    /// The download that the job is for.
    pub fn download_id(&self) -> (r: DownloadId)
        ensures
            r == self.spec_download_id(),
    {
        match self {
            FailedJob::Metadata(job) => job.download_id,
            FailedJob::Stream(job) => job.download_id,
            FailedJob::Range(job) => job.download_id,
        }
    }

    /// The file that the job is for.
    pub fn file_id(&self) -> (r: FileId)
        ensures
            r == self.spec_file_id(),
    {
        match self {
            FailedJob::Metadata(job) => job.file_id,
            FailedJob::Stream(job) => job.file_id,
            FailedJob::Range(job) => job.file_id,
        }
    }

    /// What the caller needs to report back.
    pub fn context(&self) -> (r: &C)
        ensures
            *r == match *self {
                FailedJob::Metadata(job) => job.context,
                FailedJob::Stream(job) => job.context,
                FailedJob::Range(job) => job.context,
            },
    {
        match self {
            FailedJob::Metadata(job) => &job.context,
            FailedJob::Stream(job) => &job.context,
            FailedJob::Range(job) => &job.context,
        }
    }

    /// The report that the job is given up for.
    pub fn into_permanent_failure(&self, kind: PermanentFailureKind) -> (r: PermanentFailure)
        ensures
            r == (PermanentFailure { operation: self.operation(), kind }),
    {
        let operation = match self {
            FailedJob::Metadata(job) => DownloadOperation::FetchingMetadata {
                download_id: job.download_id,
                file_id: job.file_id,
            },
            FailedJob::Stream(job) => DownloadOperation::DownloadingStream {
                download_id: job.download_id,
                file_id: job.file_id,
            },
            FailedJob::Range(job) => DownloadOperation::DownloadingRange {
                download_id: job.download_id,
                file_id: job.file_id,
                range: job.range.start..job.range.end,
            },
        };
        PermanentFailure { operation, kind }
    }

    /// How often the job has failed in vain.
    pub fn retries(&self) -> (r: usize)
        ensures
            r == self.spec_retries(),
    {
        match self {
            FailedJob::Metadata(job) => job.retries,
            FailedJob::Stream(job) => job.retries,
            FailedJob::Range(job) => job.retries,
        }
    }

    /// Counts one more failure.
    pub fn increment_retries(self) -> (r: Self)
        requires
            self.spec_retries() < usize::MAX,
        ensures
            r == self.with_retries((self.spec_retries() + 1) as usize),
    {
        match self {
            FailedJob::Metadata(mut job) => {
                job.retries += 1;
                FailedJob::Metadata(job)
            },
            FailedJob::Stream(mut job) => {
                job.retries += 1;
                FailedJob::Stream(job)
            },
            FailedJob::Range(mut job) => {
                job.retries += 1;
                FailedJob::Range(job)
            },
        }
    }
}

} // verus!
