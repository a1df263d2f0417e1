//! The work on one download by permits: each job needs one, and gives it back.

use vstd::prelude::*;
use crate::download::error::FileFailureReason;
#[allow(unused_imports)]
use crate::download::fetched::{block_count, resized, trackable};
use crate::download::hosts::failures::{
    is_success, DownloadError, IoErrorKind, RangeDownloadError,
};
#[allow(unused_imports)]
use crate::download::hosts::failures::spec_is_success;
#[allow(unused_imports)]
use crate::download::hosts::metadata::range_total;
use crate::download::hosts::metadata::{parse_content_range, Reply};
#[allow(unused_imports)]
use crate::download::items::span_len;
use crate::download::items::{calculate_chunk_expected_len, FileDownload, FileSize};
#[allow(unused_imports)]
use crate::download::ranges::{
    first_missing, first_present, lemma_first_missing, lemma_first_present,
};
#[allow(unused_imports)]
use crate::download::supervisor::all_there;
use crate::download::supervisor::{is_trackable, BLOCK_SIZE, TARGET_RANGE_SIZE};
use crate::utils::blocks::Blocks;
use crate::utils::paths::ItemPath;

verus! {

/// How often a file may fail before it is given up.
pub const MAX_FILE_RETRIES: usize = 5;

/// How many milliseconds to wait before a job is done again.
pub const RETRY_DELAY_MS: u64 = 5000;

/// How many milliseconds to wait after a connection was cut.
pub const CUT_DELAY_MS: u64 = 300;

/// How far a file is.
#[derive(Debug, Clone, Copy, PartialEq, Eq, Structural)]
pub enum TaskStatus {
    Queued,
    FetchingMetadata,
    InProgress,
    Retrying,
    /// The server wants a pause, of so many seconds if it says how long.
    Waiting(Option<u64>),
    Paused,
    Completed,
    Failed(FileFailureReason),
}

/// What a server said of the size of a file.
#[derive(Debug, Clone, Copy, PartialEq, Eq, Structural)]
pub enum SizeResult {
    Known(u64),
    Stream,
    /// It may say more later. The number is its status, or zero if it said nothing.
    Retryable(u16),
    PermanentFail,
}

/// A range of blocks that failed and is to be fetched again.
#[derive(Debug, Clone, Copy, PartialEq, Eq, Structural)]
pub struct RangeRetryJob {
    pub start: usize,
    pub end: usize,
    pub expected_len: u64,
}

/// A job that failed and is to be done again. Files are numbered by their place.
#[derive(Debug, Clone, Copy, PartialEq, Eq, Structural)]
pub enum RetryKind {
    Metadata(usize),
    StreamDownload(usize),
    RangeDownload(usize, RangeRetryJob),
}

/// Something to do with a permit.
#[allow(inconsistent_fields)]
#[derive(Debug, Clone, Copy, PartialEq, Eq, Structural)]
pub enum Job {
    GetSize { file_id: usize },
    DownloadChunk { file_id: usize, range: RangeRetryJob },
    DownloadStream { file_id: usize },
}

/// A file as the work on it needs it.
pub struct TaskFile {
    pub url: String,
    pub path: ItemPath,
    pub size: Option<FileSize>,
    pub blocks: Blocks,
    pub status: TaskStatus,
    /// How often it has failed in a row.
    pub retries: usize,
    /// Every block before this one is there or being fetched.
    pub cursor: usize,
    /// Ranges that failed.
    pub retry_ranges: Vec<RangeRetryJob>,
    /// Whether it is open for writing.
    pub open: bool,
}

/// A file as the work on it needs it, in mathematical values.
#[verifier::ext_equal]
pub struct TaskFileModel {
    pub url: Seq<char>,
    pub path: Seq<Seq<u8>>,
    pub size: Option<FileSize>,
    pub blocks: Seq<bool>,
    pub status: TaskStatus,
    pub retries: usize,
    pub cursor: usize,
    pub retry_ranges: Seq<RangeRetryJob>,
    pub open: bool,
}

impl View for TaskFile {
    type V = TaskFileModel;

    open spec fn view(&self) -> TaskFileModel {
        TaskFileModel {
            url: self.url@,
            path: self.path@,
            size: self.size,
            blocks: self.blocks@,
            status: self.status,
            retries: self.retries,
            cursor: self.cursor,
            retry_ranges: self.retry_ranges@,
            open: self.open,
        }
    }
}

impl TaskFile {
    /// A file that has come so far.
    pub fn of(file: FileDownload, status: TaskStatus) -> (r: Self)
        ensures
            r@ == (TaskFileModel {
                url: file@.url,
                path: file@.path,
                size: file@.size,
                blocks: file@.blocks,
                status,
                retries: 0,
                cursor: 0,
                retry_ranges: Seq::empty(),
                open: false,
            }),
    {
        TaskFile {
            url: file.url,
            path: file.relative_path,
            size: file.size,
            blocks: file.blocks,
            status,
            retries: 0,
            cursor: 0,
            retry_ranges: Vec::new(),
            open: false,
        }
    }
}

/// The work on a download.
pub struct SupervisorState {
    pub files: Vec<TaskFile>,
    /// Every file before this one has been asked for its size.
    pub uninitialized_cursor: usize,
    /// Every file before this one that can only be fetched as a whole has been taken.
    pub streams_cursor: usize,
    /// Files whose size could not be learned.
    pub retry_uninitialized: Vec<usize>,
    /// Whole files that could not be fetched.
    pub retry_streams: Vec<usize>,
    /// How many permits the work holds.
    pub permit_count: usize,
    /// How many more permits it could use.
    pub demand: usize,
    /// How many jobs fetch data.
    pub active_downloads: usize,
    /// How many jobs ask for sizes.
    pub active_metadata_requests: usize,
    /// How many jobs wait to be done again.
    pub retry_queue_count: usize,
}

/// The work on a download, in mathematical values.
#[verifier::ext_equal]
pub struct TaskModel {
    pub files: Seq<TaskFileModel>,
    pub uninitialized_cursor: usize,
    pub streams_cursor: usize,
    pub retry_uninitialized: Seq<usize>,
    pub retry_streams: Seq<usize>,
    pub permit_count: usize,
    pub demand: usize,
    pub active_downloads: usize,
    pub active_metadata_requests: usize,
    pub retry_queue_count: usize,
}

impl View for SupervisorState {
    type V = TaskModel;

    open spec fn view(&self) -> TaskModel {
        TaskModel {
            files: Seq::new(self.files@.len(), |i: int| self.files@[i]@),
            uninitialized_cursor: self.uninitialized_cursor,
            streams_cursor: self.streams_cursor,
            retry_uninitialized: self.retry_uninitialized@,
            retry_streams: self.retry_streams@,
            permit_count: self.permit_count,
            demand: self.demand,
            active_downloads: self.active_downloads,
            active_metadata_requests: self.active_metadata_requests,
            retry_queue_count: self.retry_queue_count,
        }
    }
}

impl TaskModel {
    /// Every cursor stays among what it runs over.
    pub open spec fn wf(self) -> bool {
        &&& self.uninitialized_cursor <= self.files.len()
        &&& self.streams_cursor <= self.files.len()
        &&& self.files.len() <= usize::MAX
        &&& forall|i: int|
            0 <= i < self.files.len() ==> (#[trigger] self.files[i]).cursor
                <= self.files[i].blocks.len()
        &&& forall|i: int|
            0 <= i < self.files.len() ==> (#[trigger] self.files[i]).blocks.len() * BLOCK_SIZE
                <= u64::MAX
        &&& forall|i: int|
            0 <= i < self.files.len() ==> (#[trigger] self.files[i]).blocks.len() <= usize::MAX
    }

    /// The work with a file replaced.
    pub open spec fn with_file(self, i: int, f: TaskFileModel) -> TaskModel {
        TaskModel { files: self.files.update(i, f), ..self }
    }
}

/// The first file from `from` on whose size is not known.
pub open spec fn first_unknown(files: Seq<TaskFileModel>, from: int) -> Option<int>
    decreases files.len() - from,
{
    if from >= files.len() {
        None
    } else if files[from].size.is_none() {
        Some(from)
    } else {
        first_unknown(files, from + 1)
    }
}

/// The first file from `from` on that can only be fetched as a whole.
pub open spec fn first_stream(files: Seq<TaskFileModel>, from: int) -> Option<int>
    decreases files.len() - from,
{
    if from >= files.len() {
        None
    } else if files[from].size == Some(FileSize::Unknown) {
        Some(from)
    } else {
        first_stream(files, from + 1)
    }
}

/// The file to be asked for its size next. One that failed before goes first, and
/// does not wait any more from then on.
pub open spec fn next_uninitialized(m: TaskModel) -> (TaskModel, Option<int>) {
    if m.retry_uninitialized.len() > 0 {
        (
            TaskModel { retry_uninitialized: m.retry_uninitialized.drop_last(), ..m },
            Some(m.retry_uninitialized.last() as int),
        )
    } else {
        (m, first_unknown(m.files, m.uninitialized_cursor as int))
    }
}

/// A file is asked for its size. The cursor stays among the files.
pub open spec fn metadata_taken(m: TaskModel, i: int) -> TaskModel {
    TaskModel {
        uninitialized_cursor: if i >= m.files.len() {
            m.files.len() as usize
        } else if i >= m.uninitialized_cursor {
            (i + 1) as usize
        } else {
            m.uninitialized_cursor
        },
        ..m
    }
}

/// The next range to be fetched, of the files from `from` on. A range that failed goes
/// first. Else it begins at the first block that is missing behind the cursor and ends
/// before the first that is there, and the cursor moves behind it. If the file cannot
/// be fetched in ranges, there is none.
pub open spec fn chunk_taken(m: TaskModel, from: int) -> (TaskModel, Option<Job>)
    decreases m.files.len() - from,
{
    if from >= m.files.len() {
        (m, None)
    } else {
        let f = m.files[from];
        if f.status is Completed {
            chunk_taken(m, from + 1)
        } else if f.retry_ranges.len() > 0 {
            (
                m.with_file(
                    from,
                    TaskFileModel { retry_ranges: f.retry_ranges.drop_last(), ..f },
                ),
                Some(Job::DownloadChunk { file_id: from as usize, range: f.retry_ranges.last() }),
            )
        } else {
            match first_missing(f.blocks, f.cursor as int) {
                None => chunk_taken(m, from + 1),
                Some(start) => {
                    let far = if start + TARGET_RANGE_SIZE < f.blocks.len() {
                        start + TARGET_RANGE_SIZE
                    } else {
                        f.blocks.len() as int
                    };
                    let end = first_present(f.blocks, start, far);
                    match f.size {
                        Some(FileSize::Known(size)) => (
                            m.with_file(
                                from,
                                TaskFileModel { cursor: end as usize, open: true, ..f },
                            ),
                            Some(
                                Job::DownloadChunk {
                                    file_id: from as usize,
                                    range: RangeRetryJob {
                                        start: start as usize,
                                        end: end as usize,
                                        expected_len: span_len(
                                            BLOCK_SIZE as nat,
                                            start as nat,
                                            end as nat,
                                            size as nat,
                                        ) as u64,
                                    },
                                },
                            ),
                        ),
                        _ => (
                            m.with_file(from, TaskFileModel { cursor: end as usize, ..f }),
                            None,
                        ),
                    }
                },
            }
        }
    }
}

/// The next whole file to be fetched. One that failed before goes first. Else the cursor
/// moves behind the file.
pub open spec fn stream_taken(m: TaskModel) -> (TaskModel, Option<Job>) {
    if m.retry_streams.len() > 0 {
        (
            TaskModel { retry_streams: m.retry_streams.drop_last(), ..m },
            Some(Job::DownloadStream { file_id: m.retry_streams.last() }),
        )
    } else {
        match first_stream(m.files, m.streams_cursor as int) {
            Some(i) => (
                TaskModel { streams_cursor: (i + 1) as usize, ..m },
                Some(Job::DownloadStream { file_id: i as usize }),
            ),
            None => (m, None),
        }
    }
}

/// The next range, or else the next whole file.
pub open spec fn data_taken(m: TaskModel) -> (TaskModel, Option<Job>) {
    let (after, job) = chunk_taken(m, 0);
    if job.is_some() {
        (after, job)
    } else {
        stream_taken(after)
    }
}

/// What to do with a permit. With a single permit sizes go first. Else data goes first
/// while less than half of the permits fetch data.
pub open spec fn job_taken(m: TaskModel) -> (TaskModel, Option<Job>) {
    let (looked, unknown) = next_uninitialized(m);
    let asked = match unknown {
        Some(i) => (
            metadata_taken(looked, i),
            Some(Job::GetSize { file_id: i as usize }),
        ),
        None => (looked, None),
    };
    if unknown.is_some() && m.permit_count == 1 {
        asked
    } else if m.active_downloads < m.permit_count / 2 {
        let (after, job) = data_taken(looked);
        if job.is_some() {
            (after, job)
        } else {
            match unknown {
                Some(i) => (
                    metadata_taken(after, i),
                    Some(Job::GetSize { file_id: i as usize }),
                ),
                None => (after, None),
            }
        }
    } else if unknown.is_some() {
        asked
    } else {
        data_taken(looked)
    }
}

proof fn lemma_first_unknown(files: Seq<TaskFileModel>, from: int, to: int)
    requires
        0 <= from <= to <= files.len(),
        forall|i: int| from <= i < to ==> (#[trigger] files[i]).size.is_some(),
    ensures
        first_unknown(files, from) == first_unknown(files, to),
    decreases to - from,
{
    if from < to {
        lemma_first_unknown(files, from + 1, to);
    }
}

proof fn lemma_first_stream(files: Seq<TaskFileModel>, from: int, to: int)
    requires
        0 <= from <= to <= files.len(),
        forall|i: int|
            from <= i < to ==> (#[trigger] files[i]).size != Some(FileSize::Unknown),
    ensures
        first_stream(files, from) == first_stream(files, to),
    decreases to - from,
{
    if from < to {
        lemma_first_stream(files, from + 1, to);
    }
}

proof fn lemma_stream_bound(files: Seq<TaskFileModel>, from: int)
    requires
        0 <= from <= files.len(),
    ensures
        first_stream(files, from) matches Some(i) ==> from <= i < files.len(),
    decreases files.len() - from,
{
    if from < files.len() && files[from].size != Some(FileSize::Unknown) {
        lemma_stream_bound(files, from + 1);
    }
}

/// A file that is replaced leaves every cursor among what it runs over.
pub proof fn lemma_with_file(m: TaskModel, i: int, f: TaskFileModel)
    requires
        m.wf(),
        0 <= i < m.files.len(),
        f.cursor <= f.blocks.len(),
        f.blocks.len() * BLOCK_SIZE <= u64::MAX,
        f.blocks.len() <= usize::MAX,
    ensures
        m.with_file(i, f).wf(),
{
}

impl SupervisorState {
    /// The file to be asked for its size next.
    pub fn get_next_uninitialized_file(&mut self) -> (r: Option<usize>)
        requires
            old(self)@.wf(),
        ensures
            final(self)@.wf(),
            final(self)@ == next_uninitialized(old(self)@).0,
            match r {
                Some(i) => next_uninitialized(old(self)@).1 == Some(i as int),
                None => next_uninitialized(old(self)@).1.is_none(),
            },
    {
        let ghost start = self@;
        if let Some(i) = self.retry_uninitialized.pop() {
            assert(i == start.retry_uninitialized[start.retry_uninitialized.len() - 1]);
            assert(self@.retry_uninitialized =~= start.retry_uninitialized.drop_last());
            return Some(i);
        }
        assert(self@ =~= start);
        let n: usize = self.files.len();
        let mut i: usize = self.uninitialized_cursor;
        while i < n
            invariant
                start == old(self)@,
                n == start.files.len(),
                n == self.files@.len(),
                self@ == start,
                start.wf(),
                start.uninitialized_cursor <= i <= n,
                start.retry_uninitialized.len() == 0,
                forall|k: int|
                    start.uninitialized_cursor <= k < i ==> (
                    #[trigger] start.files[k]).size.is_some(),
            decreases n - i,
        {
            assert(start.files[i as int] == self.files@[i as int]@);
            if self.files[i].size.is_none() {
                proof {
                    lemma_first_unknown(start.files, start.uninitialized_cursor as int, i as int);
                }
                return Some(i);
            }
            i += 1;
        }
        proof {
            lemma_first_unknown(start.files, start.uninitialized_cursor as int, n as int);
        }
        None
    }

    fn take_metadata_job(&mut self, i: usize) -> (r: Job)
        requires
            old(self)@.wf(),
        ensures
            final(self)@.wf(),
            final(self)@ == metadata_taken(old(self)@, i as int),
            r == (Job::GetSize { file_id: i }),
    {
        let n: usize = self.files.len();
        if i >= n {
            self.uninitialized_cursor = n;
        } else if i >= self.uninitialized_cursor {
            self.uninitialized_cursor = i + 1;
        }
        assert(self@ =~= metadata_taken(old(self)@, i as int));
        Job::GetSize { file_id: i }
    }

    /// The next whole file to be fetched.
    pub fn try_take_stream_job(&mut self) -> (r: Option<Job>)
        requires
            old(self)@.wf(),
        ensures
            final(self)@.wf(),
            (final(self)@, r) == stream_taken(old(self)@),
    {
        let ghost start = self@;
        if let Some(i) = self.retry_streams.pop() {
            assert(self@.retry_streams =~= start.retry_streams.drop_last());
            assert(self@.files =~= start.files);
            return Some(Job::DownloadStream { file_id: i });
        }
        assert(self@ =~= start);
        let n: usize = self.files.len();
        let mut i: usize = self.streams_cursor;
        while i < n
            invariant
                start == old(self)@,
                n == start.files.len(),
                n == self.files@.len(),
                self@ == start,
                start.wf(),
                start.streams_cursor <= i <= n,
                start.retry_streams.len() == 0,
                forall|k: int|
                    start.streams_cursor <= k < i ==> (#[trigger] start.files[k]).size != Some(
                        FileSize::Unknown,
                    ),
            decreases n - i,
        {
            assert(start.files[i as int] == self.files@[i as int]@);
            if let Some(FileSize::Unknown) = self.files[i].size {
                proof {
                    lemma_first_stream(start.files, start.streams_cursor as int, i as int);
                }
                self.streams_cursor = i + 1;
                assert(self@ =~= (TaskModel { streams_cursor: (i + 1) as usize, ..start }));
                return Some(Job::DownloadStream { file_id: i });
            }
            i += 1;
        }
        proof {
            lemma_first_stream(start.files, start.streams_cursor as int, n as int);
        }
        None
    }

    /// The range behind the cursor of the file at place `i`, whose block `start` is
    /// missing.
    fn take_range(&mut self, i: usize, start: usize) -> (r: Option<Job>)
        requires
            old(self)@.wf(),
            i < old(self)@.files.len(),
            first_missing(
                old(self)@.files[i as int].blocks,
                old(self)@.files[i as int].cursor as int,
            ) == Some(start as int),
            !(old(self)@.files[i as int].status is Completed),
            old(self)@.files[i as int].retry_ranges.len() == 0,
        ensures
            final(self)@.wf(),
            (final(self)@, r) == chunk_taken(old(self)@, i as int),
    {
        let ghost before = self@;
        let ghost f = before.files[i as int];
        assert(f == self.files@[i as int]@);
        proof {
            lemma_first_missing(f.blocks, f.cursor as int);
        }
        let count: usize = self.files[i].blocks.len();
        let far: usize = if TARGET_RANGE_SIZE < count - start {
            start + TARGET_RANGE_SIZE
        } else {
            count
        };
        let end: usize = match self.files[i].blocks.first_one_between(start, far) {
            Some(d) => start + d,
            None => far,
        };
        proof {
            lemma_first_present(f.blocks, start as int, far as int);
            let p = first_present(f.blocks, start as int, far as int);
            if p < end {
                assert(!f.blocks[p]);
            } else if end < p {
                assert(f.blocks[end as int]);
            }
            assert(BLOCK_SIZE == 16384);
        }
        self.files[i].cursor = end;
        match self.files[i].size {
            Some(FileSize::Known(size)) => {
                let expected_len: u64 = calculate_chunk_expected_len(
                    BLOCK_SIZE as u64,
                    (start, end),
                    size,
                );
                self.files[i].open = true;
                proof {
                    let g = TaskFileModel { cursor: end, open: true, ..f };
                    assert(self@ =~= before.with_file(i as int, g));
                    lemma_with_file(before, i as int, g);
                }
                Some(
                    Job::DownloadChunk {
                        file_id: i,
                        range: RangeRetryJob { start, end, expected_len },
                    },
                )
            },
            _ => {
                proof {
                    let g = TaskFileModel { cursor: end, ..f };
                    assert(self@ =~= before.with_file(i as int, g));
                    lemma_with_file(before, i as int, g);
                }
                None
            },
        }
    }

    /// The next range to be fetched.
    pub fn try_take_chunk_job(&mut self) -> (r: Option<Job>)
        requires
            old(self)@.wf(),
        ensures
            final(self)@.wf(),
            (final(self)@, r) == chunk_taken(old(self)@, 0),
    {
        let ghost start = self@;
        let n: usize = self.files.len();
        let mut i: usize = 0;
        while i < n
            invariant
                i <= n,
                start == old(self)@,
                n == start.files.len(),
                n == self.files@.len(),
                self@ == start,
                start.wf(),
                chunk_taken(start, 0) == chunk_taken(start, i as int),
            decreases n - i,
        {
            let ghost f = start.files[i as int];
            assert(f == self.files@[i as int]@);
            if self.files[i].status != TaskStatus::Completed {
                if let Some(range) = self.files[i].retry_ranges.pop() {
                    proof {
                        let g = TaskFileModel { retry_ranges: f.retry_ranges.drop_last(), ..f };
                        assert(self@ =~= start.with_file(i as int, g));
                        lemma_with_file(start, i as int, g);
                    }
                    return Some(Job::DownloadChunk { file_id: i, range });
                }
                assert(self@ =~= start);
                let cursor: usize = self.files[i].cursor;
                match self.files[i].blocks.first_zero_from(cursor) {
                    Some(d) => {
                        proof {
                            lemma_first_missing(f.blocks, cursor as int);
                            let at = first_missing(f.blocks, cursor as int);
                            if at.is_none() || cursor + d < at->0 {
                                assert(f.blocks[cursor + d]);
                            } else if at->0 < cursor + d {
                                assert(f.blocks[at->0]);
                            }
                        }
                        return self.take_range(i, cursor + d);
                    },
                    None => {
                        proof {
                            lemma_first_missing(f.blocks, cursor as int);
                            if first_missing(f.blocks, cursor as int).is_some() {
                                assert(f.blocks[first_missing(f.blocks, cursor as int)->0]);
                            }
                        }
                    },
                }
            }
            i += 1;
        }
        None
    }

    fn take_data(&mut self) -> (r: Option<Job>)
        requires
            old(self)@.wf(),
        ensures
            final(self)@.wf(),
            (final(self)@, r) == data_taken(old(self)@),
    {
        if let Some(job) = self.try_take_chunk_job() {
            return Some(job);
        }
        self.try_take_stream_job()
    }

    /// What to do with a permit, if there is anything to do.
    pub fn get_next_job(&mut self) -> (r: Option<Job>)
        requires
            old(self)@.wf(),
        ensures
            final(self)@.wf(),
            (final(self)@, r) == job_taken(old(self)@),
    {
        let ghost start = self@;
        let unknown = self.get_next_uninitialized_file();
        let ghost looked = self@;
        if let Some(i) = unknown {
            if self.permit_count == 1 {
                return Some(self.take_metadata_job(i));
            }
        }
        if self.active_downloads < self.permit_count / 2 {
            if let Some(job) = self.take_data() {
                return Some(job);
            }
            proof {
                lemma_data_keeps_len(looked);
            }
            if let Some(i) = unknown {
                return Some(self.take_metadata_job(i));
            }
            None
        } else {
            if let Some(i) = unknown {
                return Some(self.take_metadata_job(i));
            }
            self.take_data()
        }
    }
}

proof fn lemma_chunk_keeps_len(m: TaskModel, from: int)
    requires
        0 <= from,
    ensures
        chunk_taken(m, from).0.files.len() == m.files.len(),
    decreases m.files.len() - from,
{
    if from < m.files.len() {
        let f = m.files[from];
        if f.status is Completed || (f.retry_ranges.len() == 0 && first_missing(
            f.blocks,
            f.cursor as int,
        ).is_none()) {
            lemma_chunk_keeps_len(m, from + 1);
        }
    }
}

proof fn lemma_data_keeps_len(m: TaskModel)
    ensures
        data_taken(m).0.files.len() == m.files.len(),
{
    lemma_chunk_keeps_len(m, 0);
}

/// Something that happened to the work.
#[allow(inconsistent_fields)]
#[derive(Debug, Clone, Copy, PartialEq, Eq, Structural)]
pub enum SupervisorMessage {
    /// A permit came, which may have been called back.
    ProcessPermit { valid: bool },
    /// A permit is there to be used.
    SpawnWorker,
    MetadataFetched { file_id: usize, result: SizeResult },
    StreamSuccess { file_id: usize, size: u64 },
    StreamFailed { file_id: usize, error: DownloadError },
    RangeSuccess { file_id: usize, start: usize, end: usize },
    RangeFailed { file_id: usize, range: RangeRetryJob, error: RangeDownloadError },
    RetryReady { retry: RetryKind },
    Pause,
    /// It is time to save.
    Tick,
}

/// Something to be done.
#[allow(inconsistent_fields)]
#[derive(Debug, Clone, Copy, PartialEq, Eq, Structural)]
pub enum TaskAction {
    Save,
    ShowStatus { file_id: usize, status: TaskStatus },
    ShowSize { file_id: usize, len: u64 },
    ShowPaused,
    /// Use the permit.
    SpawnWorker,
    ReturnPermit,
    FetchSize { file_id: usize },
    /// Fetch a range, once the file is open.
    FetchRange { file_id: usize, range: RangeRetryJob },
    FetchStream { file_id: usize },
    /// Do a job again after so many milliseconds.
    RetryAfter { millis: u64, retry: RetryKind },
    /// Do a job again.
    RetryNow { retry: RetryKind },
    RequestPermits,
    TellRateLimited { seconds: Option<u64> },
    TellHalted,
    TellFinished,
    /// End the whole program.
    Shutdown,
    /// The work ends.
    Stop,
}

impl RetryKind {
    /// The file that a job is for.
    pub open spec fn spec_file_id(self) -> usize {
        match self {
            RetryKind::Metadata(i) => i,
            RetryKind::StreamDownload(i) => i,
            RetryKind::RangeDownload(i, _) => i,
        }
    }

    /// The file that the job is for.
    pub fn file_id(&self) -> (r: usize)
        ensures
            r == self.spec_file_id(),
    {
        match self {
            RetryKind::Metadata(i) => *i,
            RetryKind::StreamDownload(i) => *i,
            RetryKind::RangeDownload(i, _) => *i,
        }
    }
}

/// Whether all files are complete.
pub open spec fn all_complete(files: Seq<TaskFileModel>) -> bool {
    forall|i: int| 0 <= i < files.len() ==> (#[trigger] files[i]).status is Completed
}

/// A file gets another state, which is saved and shown. Nothing is done if it was in
/// that state, or is not there.
pub open spec fn stated(m: TaskModel, i: int, status: TaskStatus) -> (TaskModel, Seq<TaskAction>) {
    if i >= m.files.len() || m.files[i].status == status {
        (m, Seq::empty())
    } else {
        (
            m.with_file(i, TaskFileModel { status, ..m.files[i] }),
            seq![TaskAction::Save, TaskAction::ShowStatus { file_id: i as usize, status }],
        )
    }
}

/// A permit is given back.
pub open spec fn permit_returned(m: TaskModel) -> TaskModel {
    TaskModel { permit_count: (m.permit_count - 1) as usize, ..m }
}

/// The download is at its end: it is saved, and that is told.
pub open spec fn finish_actions() -> Seq<TaskAction> {
    seq![TaskAction::Save, TaskAction::TellFinished]
}

/// How often a file has failed, once more.
pub open spec fn bumped(retries: usize) -> usize {
    if retries < usize::MAX {
        (retries + 1) as usize
    } else {
        retries
    }
}

/// A job is done again after a pause, for which its permit is given back.
pub open spec fn retried(m: TaskModel, millis: u64, retry: RetryKind) -> (
    TaskModel,
    Seq<TaskAction>,
) {
    let i = retry.spec_file_id();
    let (shown, actions) = stated(m, i as int, TaskStatus::Retrying);
    (
        TaskModel {
            retry_queue_count: (m.retry_queue_count + 1) as usize,
            ..permit_returned(shown)
        },
        actions + seq![
            TaskAction::ShowStatus { file_id: i, status: TaskStatus::Retrying },
            TaskAction::ReturnPermit,
            TaskAction::RetryAfter { millis, retry },
        ],
    )
}

/// A file fails for good, and the permit is given back.
pub open spec fn failed(m: TaskModel, i: int, reason: FileFailureReason) -> (
    TaskModel,
    Seq<TaskAction>,
) {
    let (shown, actions) = stated(m, i, TaskStatus::Failed(reason));
    (permit_returned(shown), actions.push(TaskAction::ReturnPermit))
}

/// A file has failed once more. After too often it fails for good, else the job is done
/// again after a pause.
pub open spec fn failed_once_more(m: TaskModel, retry: RetryKind, reason: FileFailureReason) -> (
    TaskModel,
    Seq<TaskAction>,
) {
    let i = retry.spec_file_id() as int;
    let retries = bumped(m.files[i].retries);
    let counted = m.with_file(i, TaskFileModel { retries, ..m.files[i] });
    if retries > MAX_FILE_RETRIES {
        failed(counted, i, reason)
    } else {
        retried(counted, RETRY_DELAY_MS, retry)
    }
}

/// What is done about an error of the operating system. Some may pass, and some that
/// nothing is known of may pass too, but not for ever.
pub open spec fn io_failed(m: TaskModel, error: IoErrorKind, retry: RetryKind) -> (
    TaskModel,
    Seq<TaskAction>,
) {
    if !error.spec_is_temporary() {
        failed(m, retry.spec_file_id() as int, FileFailureReason::DiskError)
    } else if error is UnexpectedEof || error is Other {
        failed_once_more(m, retry, FileFailureReason::DiskError)
    } else {
        retried(m, RETRY_DELAY_MS, retry)
    }
}

/// What is done about a server that wants a pause: the job waits with the others, and
/// the server gets no more jobs for a while.
pub open spec fn rate_limited(m: TaskModel, seconds: Option<u64>, retry: RetryKind) -> (
    TaskModel,
    Seq<TaskAction>,
) {
    let (shown, actions) = stated(m, retry.spec_file_id() as int, TaskStatus::Waiting(seconds));
    (
        TaskModel {
            retry_queue_count: (m.retry_queue_count + 1) as usize,
            ..permit_returned(shown)
        },
        actions + seq![
            TaskAction::RetryNow { retry },
            TaskAction::TellRateLimited { seconds },
            TaskAction::ReturnPermit,
        ],
    )
}

/// What is done about data that could not be fetched.
pub open spec fn download_failed(m: TaskModel, error: DownloadError, retry: RetryKind) -> (
    TaskModel,
    Seq<TaskAction>,
) {
    match error {
        DownloadError::Io(kind) => io_failed(m, kind, retry),
        DownloadError::Network => retried(m, RETRY_DELAY_MS, retry),
        DownloadError::RateLimited(seconds) => rate_limited(m, seconds, retry),
        DownloadError::ServerError(_) => failed_once_more(
            m,
            retry,
            FileFailureReason::ServerError,
        ),
        DownloadError::ClientError(_) => {
            let (shown, actions) = stated(
                m,
                retry.spec_file_id() as int,
                TaskStatus::Failed(FileFailureReason::ClientError),
            );
            (permit_returned(shown), seq![TaskAction::ReturnPermit] + actions)
        },
    }
}

/// A file that cannot be fetched in ranges is fetched as a whole.
pub open spec fn streamed_instead(m: TaskModel, i: int) -> (TaskModel, Seq<TaskAction>) {
    let f = TaskFileModel {
        size: Some(FileSize::Unknown),
        retries: 0,
        open: false,
        ..m.files[i]
    };
    (
        TaskModel {
            retry_streams: m.retry_streams.push(i as usize),
            demand: m.demand.wrapping_add(1),
            ..permit_returned(m.with_file(i, f))
        },
        seq![TaskAction::ReturnPermit],
    )
}

/// A range came back wrong. After too often the file is fetched as a whole, else the
/// range is fetched again after a pause.
pub open spec fn range_came_wrong(m: TaskModel, millis: u64, retry: RetryKind) -> (
    TaskModel,
    Seq<TaskAction>,
) {
    let i = retry.spec_file_id() as int;
    let retries = bumped(m.files[i].retries);
    let counted = m.with_file(i, TaskFileModel { retries, ..m.files[i] });
    if retries > MAX_FILE_RETRIES {
        streamed_instead(counted, i)
    } else {
        retried(counted, millis, retry)
    }
}

/// What is done about a range that could not be fetched.
pub open spec fn range_failed(
    m: TaskModel,
    file_id: usize,
    range: RangeRetryJob,
    error: RangeDownloadError,
) -> (TaskModel, Seq<TaskAction>) {
    let retry = RetryKind::RangeDownload(file_id, range);
    match error {
        RangeDownloadError::Download(error) => download_failed(m, error, retry),
        RangeDownloadError::UnexpectedStatus(_) => range_came_wrong(m, RETRY_DELAY_MS, retry),
        RangeDownloadError::UnexpectedLength(_, _) => range_came_wrong(m, CUT_DELAY_MS, retry),
        RangeDownloadError::RangeNotSupported => streamed_instead(m, file_id as int),
        RangeDownloadError::DiskWriteError(kind) => io_failed(m, kind, retry),
        RangeDownloadError::DiskPoolDropped => (
            permit_returned(m),
            seq![
                TaskAction::Shutdown,
                TaskAction::ReturnPermit,
                TaskAction::Save,
                TaskAction::Stop,
            ],
        ),
    }
}

/// A job is begun.
pub open spec fn job_begun(m: TaskModel, job: Job) -> (TaskModel, Seq<TaskAction>) {
    match job {
        Job::GetSize { file_id } => {
            let (shown, actions) = stated(
                TaskModel {
                    active_metadata_requests: (m.active_metadata_requests + 1) as usize,
                    ..m
                },
                file_id as int,
                TaskStatus::FetchingMetadata,
            );
            (shown, actions.push(TaskAction::FetchSize { file_id }))
        },
        Job::DownloadChunk { file_id, range } => (
            TaskModel { active_downloads: (m.active_downloads + 1) as usize, ..m },
            seq![TaskAction::FetchRange { file_id, range }],
        ),
        Job::DownloadStream { file_id } => (
            TaskModel { active_downloads: (m.active_downloads + 1) as usize, ..m },
            seq![TaskAction::FetchStream { file_id }],
        ),
    }
}

/// A permit is used. If there is nothing to do, it is given back; if nothing waits to
/// be done again either, no more permits are wanted; and if nothing is under way either
/// and all files are complete, the download is at its end.
pub open spec fn permit_used(m: TaskModel) -> (TaskModel, Seq<TaskAction>) {
    let (looked, job) = job_taken(m);
    match job {
        Some(job) => job_begun(looked, job),
        None => if looked.retry_queue_count > 0 {
            (permit_returned(looked), seq![TaskAction::ReturnPermit])
        } else {
            let idle = TaskModel { demand: 0, ..permit_returned(looked) };
            (
                idle,
                seq![TaskAction::ReturnPermit] + if idle.permit_count == 0
                    && idle.active_downloads == 0 && all_complete(idle.files) {
                    finish_actions() + seq![TaskAction::Save, TaskAction::Stop]
                } else {
                    Seq::empty()
                },
            )
        },
    }
}

/// How many jobs the ranges of so many blocks make.
pub open spec fn jobs_for(blocks: nat) -> nat {
    (blocks + (TARGET_RANGE_SIZE - 1)) as nat / TARGET_RANGE_SIZE as nat
}

/// A cursor that stays within so many blocks.
pub open spec fn capped(cursor: usize, blocks: nat) -> usize {
    if cursor <= blocks {
        cursor
    } else {
        blocks as usize
    }
}

/// A server said something of the size of a file.
pub open spec fn size_told(m: TaskModel, i: int, result: SizeResult) -> (
    TaskModel,
    Seq<TaskAction>,
) {
    let f = m.files[i];
    let id = i as usize;
    match result {
        SizeResult::Known(size) => {
            let sized = TaskFileModel { retries: 0, size: Some(FileSize::Known(size)), ..f };
            let told = seq![TaskAction::ShowSize { file_id: id, len: size }];
            if size > 0 {
                let blocks = block_count(size);
                let (shown, actions) = stated(
                    m.with_file(
                        i,
                        TaskFileModel {
                            blocks: resized(f.blocks, blocks, false),
                            cursor: capped(f.cursor, blocks),
                            ..sized
                        },
                    ),
                    i,
                    TaskStatus::InProgress,
                );
                (
                    TaskModel {
                        demand: shown.demand.wrapping_add(jobs_for(blocks) as usize),
                        ..permit_returned(shown)
                    },
                    told + actions + seq![TaskAction::RequestPermits, TaskAction::ReturnPermit],
                )
            } else {
                let (shown, actions) = stated(m.with_file(i, sized), i, TaskStatus::Completed);
                (
                    permit_returned(shown),
                    told + actions.push(TaskAction::ReturnPermit),
                )
            }
        },
        SizeResult::Stream => {
            let (shown, actions) = stated(
                m.with_file(
                    i,
                    TaskFileModel { retries: 0, size: Some(FileSize::Unknown), ..f },
                ),
                i,
                TaskStatus::InProgress,
            );
            (
                TaskModel { demand: shown.demand.wrapping_add(1), ..permit_returned(shown) },
                actions + seq![TaskAction::RequestPermits, TaskAction::ReturnPermit],
            )
        },
        SizeResult::Retryable(_) => failed_once_more(
            m,
            RetryKind::Metadata(id),
            FileFailureReason::MetadataFetchError,
        ),
        SizeResult::PermanentFail => failed(m, i, FileFailureReason::MetadataFetchError),
    }
}

/// The download is at its end if all files are complete.
pub open spec fn ending(m: TaskModel) -> Seq<TaskAction> {
    if all_complete(m.files) {
        finish_actions() + seq![TaskAction::Save, TaskAction::Stop]
    } else {
        Seq::empty()
    }
}

/// A whole file was fetched.
pub open spec fn stream_done(m: TaskModel, i: int, size: u64) -> (TaskModel, Seq<TaskAction>) {
    let f = m.files[i];
    let (shown, actions) = stated(
        permit_returned(
            m.with_file(
                i,
                TaskFileModel {
                    retries: 0,
                    size: Some(FileSize::Known(size)),
                    blocks: if size > 0 {
                        resized(f.blocks, block_count(size), true)
                    } else {
                        f.blocks
                    },
                    cursor: if size > 0 {
                        capped(f.cursor, block_count(size))
                    } else {
                        f.cursor
                    },
                    ..f
                },
            ),
        ),
        i,
        TaskStatus::Completed,
    );
    (
        shown,
        seq![
            TaskAction::ReturnPermit,
            TaskAction::ShowSize { file_id: i as usize, len: size },
        ] + actions + ending(shown),
    )
}

/// A range was fetched.
pub open spec fn range_done(m: TaskModel, i: int, start: usize, end: usize) -> (
    TaskModel,
    Seq<TaskAction>,
) {
    let f = m.files[i];
    let fetched = TaskFileModel {
        retries: 0,
        blocks: Seq::new(f.blocks.len(), |k: int| start <= k < end || f.blocks[k]),
        ..f
    };
    let taken = permit_returned(m.with_file(i, fetched));
    if all_there(fetched.blocks) {
        let (shown, actions) = stated(taken, i, TaskStatus::Completed);
        let after = shown.with_file(i, TaskFileModel { open: false, ..shown.files[i] });
        (after, seq![TaskAction::ReturnPermit] + actions + ending(after))
    } else {
        (taken, seq![TaskAction::ReturnPermit])
    }
}

/// A job is ready to be done again.
pub open spec fn retry_ready(m: TaskModel, retry: RetryKind) -> (TaskModel, Seq<TaskAction>) {
    let waiting = TaskModel {
        retry_queue_count: (m.retry_queue_count - 1) as usize,
        demand: m.demand.wrapping_add(1),
        ..m
    };
    (
        match retry {
            RetryKind::Metadata(i) => TaskModel {
                retry_uninitialized: m.retry_uninitialized.push(i),
                ..waiting
            },
            RetryKind::StreamDownload(i) => TaskModel {
                retry_streams: m.retry_streams.push(i),
                ..waiting
            },
            RetryKind::RangeDownload(i, range) => waiting.with_file(
                i as int,
                TaskFileModel {
                    retry_ranges: m.files[i as int].retry_ranges.push(range),
                    ..m.files[i as int]
                },
            ),
        },
        seq![TaskAction::RequestPermits],
    )
}

/// The first `n` files are paused, unless they have ended.
pub open spec fn paused_first(m: TaskModel, n: nat) -> (TaskModel, Seq<TaskAction>)
    decreases n,
{
    if n == 0 {
        (m, Seq::empty())
    } else {
        let (before, actions) = paused_first(m, (n - 1) as nat);
        let f = before.files[n - 1];
        if f.status is Completed || f.status is Failed || f.status is Paused {
            (before, actions)
        } else {
            (
                before.with_file(n - 1, TaskFileModel { status: TaskStatus::Paused, ..f }),
                actions.push(
                    TaskAction::ShowStatus {
                        file_id: (n - 1) as usize,
                        status: TaskStatus::Paused,
                    },
                ),
            )
        }
    }
}

/// The work is paused, and ends for now.
pub open spec fn work_paused(m: TaskModel) -> (TaskModel, Seq<TaskAction>) {
    let (after, actions) = paused_first(m, m.files.len());
    (
        after,
        seq![TaskAction::ShowPaused] + actions + seq![
            TaskAction::Save,
            TaskAction::Save,
            TaskAction::Stop,
        ],
    )
}

/// The file that a message is about, if it is about one.
pub open spec fn file_of(message: SupervisorMessage) -> Option<usize> {
    match message {
        SupervisorMessage::MetadataFetched { file_id, .. } => Some(file_id),
        SupervisorMessage::StreamSuccess { file_id, .. } => Some(file_id),
        SupervisorMessage::StreamFailed { file_id, .. } => Some(file_id),
        SupervisorMessage::RangeSuccess { file_id, .. } => Some(file_id),
        SupervisorMessage::RangeFailed { file_id, .. } => Some(file_id),
        SupervisorMessage::RetryReady { retry } => Some(retry.spec_file_id()),
        _ => None,
    }
}

/// Whether a message is about a file that is not there.
pub open spec fn is_stray(m: TaskModel, message: SupervisorMessage) -> bool {
    file_of(message) matches Some(i) && i >= m.files.len()
}

/// The work without the job of which a message brings word.
pub open spec fn job_over(m: TaskModel, message: SupervisorMessage) -> TaskModel {
    match message {
        SupervisorMessage::MetadataFetched { .. } => TaskModel {
            active_metadata_requests: (m.active_metadata_requests - 1) as usize,
            ..m
        },
        SupervisorMessage::StreamSuccess { .. }
        | SupervisorMessage::StreamFailed { .. }
        | SupervisorMessage::RangeSuccess { .. }
        | SupervisorMessage::RangeFailed { .. } => TaskModel {
            active_downloads: (m.active_downloads - 1) as usize,
            ..m
        },
        _ => m,
    }
}

/// What is done about word of a file that is not there: the job is over and its permit
/// is given back. It is done again only where that does not hang on how often the file has
/// failed, and a range of such a file is never taken up again.
pub open spec fn stray_step(m: TaskModel, message: SupervisorMessage) -> (
    TaskModel,
    Seq<TaskAction>,
) {
    match message {
        SupervisorMessage::RetryReady { retry } => if retry is RangeDownload {
            (
                TaskModel {
                    retry_queue_count: (m.retry_queue_count - 1) as usize,
                    demand: m.demand.wrapping_add(1),
                    ..m
                },
                seq![TaskAction::RequestPermits],
            )
        } else {
            retry_ready(m, retry)
        },
        SupervisorMessage::StreamSuccess { .. } => (
            permit_returned(m),
            seq![TaskAction::ReturnPermit] + ending(m),
        ),
        SupervisorMessage::StreamFailed { file_id, error } => if error is Io
            || error is ServerError {
            (permit_returned(m), seq![TaskAction::ReturnPermit])
        } else {
            download_failed(m, error, RetryKind::StreamDownload(file_id))
        },
        _ => (permit_returned(m), seq![TaskAction::ReturnPermit]),
    }
}

/// What is done when something happens.
pub open spec fn task_step(m: TaskModel, message: SupervisorMessage) -> (
    TaskModel,
    Seq<TaskAction>,
) {
    let over = job_over(m, message);
    if is_stray(m, message) {
        stray_step(over, message)
    } else {
        match message {
            SupervisorMessage::ProcessPermit { valid } => if valid {
                (m, seq![TaskAction::SpawnWorker])
            } else {
                (permit_returned(m), seq![TaskAction::ReturnPermit])
            },
            SupervisorMessage::SpawnWorker => permit_used(m),
            SupervisorMessage::MetadataFetched { file_id, result } => size_told(
                over,
                file_id as int,
                result,
            ),
            SupervisorMessage::StreamSuccess { file_id, size } => stream_done(
                over,
                file_id as int,
                size,
            ),
            SupervisorMessage::StreamFailed { file_id, error } => download_failed(
                over,
                error,
                RetryKind::StreamDownload(file_id),
            ),
            SupervisorMessage::RangeSuccess { file_id, start, end } => range_done(
                over,
                file_id as int,
                start,
                end,
            ),
            SupervisorMessage::RangeFailed { file_id, range, error } => range_failed(
                over,
                file_id,
                range,
                error,
            ),
            SupervisorMessage::RetryReady { retry } => retry_ready(m, retry),
            SupervisorMessage::Pause => work_paused(m),
            SupervisorMessage::Tick => (m, seq![TaskAction::Save]),
        }
    }
}

/// Whether what happened comes of a job that is under way, with a permit that is held,
/// and can be counted.
pub open spec fn message_fits(m: TaskModel, message: SupervisorMessage) -> bool {
    let held = m.permit_count > 0 && m.retry_queue_count < usize::MAX;
    match message {
        SupervisorMessage::ProcessPermit { .. } => m.permit_count > 0,
        SupervisorMessage::SpawnWorker => m.permit_count > 0 && m.active_downloads < usize::MAX
            && m.active_metadata_requests < usize::MAX,
        SupervisorMessage::MetadataFetched { result, .. } => held && m.active_metadata_requests
            > 0 && (result matches SizeResult::Known(size) ==> trackable(size)),
        SupervisorMessage::StreamSuccess { size, .. } => held && m.active_downloads > 0
            && trackable(size),
        SupervisorMessage::StreamFailed { .. } => held && m.active_downloads > 0,
        SupervisorMessage::RangeSuccess { file_id, start, end } => held && m.active_downloads > 0
            && (file_id < m.files.len() ==> start <= end <= m.files[file_id as int].blocks.len()),
        SupervisorMessage::RangeFailed { .. } => held && m.active_downloads > 0,
        SupervisorMessage::RetryReady { .. } => m.retry_queue_count > 0,
        SupervisorMessage::Pause => true,
        SupervisorMessage::Tick => true,
    }
}

impl SupervisorState {
    /// Whether all files are complete.
    pub fn is_download_finished(&self) -> (r: bool)
        ensures
            r == all_complete(self@.files),
    {
        let ghost files = self@.files;
        let n: usize = self.files.len();
        let mut i: usize = 0;
        while i < n
            invariant
                i <= n,
                n == files.len(),
                n == self.files@.len(),
                files == self@.files,
                forall|k: int| 0 <= k < i ==> (#[trigger] files[k]).status is Completed,
            decreases n - i,
        {
            assert(files[i as int] == self.files@[i as int]@);
            if self.files[i].status != TaskStatus::Completed {
                return false;
            }
            i += 1;
        }
        true
    }

    fn set_status(&mut self, i: usize, status: TaskStatus, out: &mut Vec<TaskAction>)
        requires
            old(self)@.wf(),
        ensures
            final(self)@.wf(),
            final(self)@ == stated(old(self)@, i as int, status).0,
            final(out)@ == old(out)@ + stated(old(self)@, i as int, status).1,
    {
        let ghost start = self@;
        if i < self.files.len() && self.files[i].status != status {
            let ghost f = start.files[i as int];
            assert(f == self.files@[i as int]@);
            self.files[i].status = status;
            out.push(TaskAction::Save);
            out.push(TaskAction::ShowStatus { file_id: i, status });
            proof {
                let g = TaskFileModel { status, ..f };
                assert(self@ =~= start.with_file(i as int, g));
                lemma_with_file(start, i as int, g);
            }
        }
        assert(out@ =~= old(out)@ + stated(start, i as int, status).1);
    }

    fn return_permit(&mut self)
        requires
            old(self)@.wf(),
            old(self)@.permit_count > 0,
        ensures
            final(self)@.wf(),
            final(self)@ == permit_returned(old(self)@),
    {
        self.permit_count = self.permit_count - 1;
        assert(self@ =~= permit_returned(old(self)@));
    }

    fn retry_after(&mut self, millis: u64, retry: RetryKind) -> (out: Vec<TaskAction>)
        requires
            old(self)@.wf(),
            old(self)@.permit_count > 0,
            old(self)@.retry_queue_count < usize::MAX,
        ensures
            final(self)@.wf(),
            (final(self)@, out@) == retried(old(self)@, millis, retry),
    {
        let mut out: Vec<TaskAction> = Vec::new();
        let i: usize = retry.file_id();
        self.set_status(i, TaskStatus::Retrying, &mut out);
        out.push(TaskAction::ShowStatus { file_id: i, status: TaskStatus::Retrying });
        self.return_permit();
        out.push(TaskAction::ReturnPermit);
        self.retry_queue_count = self.retry_queue_count + 1;
        out.push(TaskAction::RetryAfter { millis, retry });
        proof {
            let (after, actions) = retried(old(self)@, millis, retry);
            assert(self@ =~= after);
            assert(out@ =~= actions);
        }
        out
    }

    fn fail(&mut self, i: usize, reason: FileFailureReason) -> (out: Vec<TaskAction>)
        requires
            old(self)@.wf(),
            old(self)@.permit_count > 0,
            i < old(self)@.files.len(),
        ensures
            final(self)@.wf(),
            (final(self)@, out@) == failed(old(self)@, i as int, reason),
    {
        let mut out: Vec<TaskAction> = Vec::new();
        self.set_status(i, TaskStatus::Failed(reason), &mut out);
        self.return_permit();
        out.push(TaskAction::ReturnPermit);
        assert(out@ =~= failed(old(self)@, i as int, reason).1);
        out
    }

    fn increment_retries(&mut self, i: usize) -> (retries: usize)
        requires
            old(self)@.wf(),
            i < old(self)@.files.len(),
        ensures
            final(self)@.wf(),
            retries == bumped(old(self)@.files[i as int].retries),
            final(self)@ == old(self)@.with_file(
                i as int,
                TaskFileModel { retries, ..old(self)@.files[i as int] },
            ),
    {
        let ghost start = self@;
        let ghost f = start.files[i as int];
        assert(f == self.files@[i as int]@);
        let before: usize = self.files[i].retries;
        let retries: usize = if before < usize::MAX {
            before + 1
        } else {
            before
        };
        self.files[i].retries = retries;
        proof {
            let g = TaskFileModel { retries, ..f };
            assert(self@ =~= start.with_file(i as int, g));
            lemma_with_file(start, i as int, g);
        }
        retries
    }

    fn fail_once_more(&mut self, retry: RetryKind, reason: FileFailureReason) -> (out: Vec<
        TaskAction,
    >)
        requires
            old(self)@.wf(),
            old(self)@.permit_count > 0,
            old(self)@.retry_queue_count < usize::MAX,
            retry.spec_file_id() < old(self)@.files.len(),
        ensures
            final(self)@.wf(),
            (final(self)@, out@) == failed_once_more(old(self)@, retry, reason),
    {
        let i: usize = retry.file_id();
        let retries: usize = self.increment_retries(i);
        if retries > MAX_FILE_RETRIES {
            self.fail(i, reason)
        } else {
            self.retry_after(RETRY_DELAY_MS, retry)
        }
    }

    fn handle_io_error(&mut self, error: IoErrorKind, retry: RetryKind) -> (out: Vec<TaskAction>)
        requires
            old(self)@.wf(),
            old(self)@.permit_count > 0,
            old(self)@.retry_queue_count < usize::MAX,
            retry.spec_file_id() < old(self)@.files.len(),
        ensures
            final(self)@.wf(),
            (final(self)@, out@) == io_failed(old(self)@, error, retry),
    {
        if !error.is_temporary() {
            let i: usize = retry.file_id();
            self.fail(i, FileFailureReason::DiskError)
        } else if error == IoErrorKind::UnexpectedEof || error == IoErrorKind::Other {
            self.fail_once_more(retry, FileFailureReason::DiskError)
        } else {
            self.retry_after(RETRY_DELAY_MS, retry)
        }
    }

    fn handle_rate_limited(&mut self, seconds: Option<u64>, retry: RetryKind) -> (out: Vec<
        TaskAction,
    >)
        requires
            old(self)@.wf(),
            old(self)@.permit_count > 0,
            old(self)@.retry_queue_count < usize::MAX,
        ensures
            final(self)@.wf(),
            (final(self)@, out@) == rate_limited(old(self)@, seconds, retry),
    {
        let mut out: Vec<TaskAction> = Vec::new();
        let i: usize = retry.file_id();
        self.set_status(i, TaskStatus::Waiting(seconds), &mut out);
        self.retry_queue_count = self.retry_queue_count + 1;
        out.push(TaskAction::RetryNow { retry });
        out.push(TaskAction::TellRateLimited { seconds });
        self.permit_count = self.permit_count - 1;
        out.push(TaskAction::ReturnPermit);
        proof {
            let (after, actions) = rate_limited(old(self)@, seconds, retry);
            assert(self@ =~= after);
            assert(out@ =~= actions);
        }
        out
    }

    fn handle_download_error(&mut self, error: DownloadError, retry: RetryKind) -> (out: Vec<
        TaskAction,
    >)
        requires
            old(self)@.wf(),
            old(self)@.permit_count > 0,
            old(self)@.retry_queue_count < usize::MAX,
            error is Io || error is ServerError ==> retry.spec_file_id() < old(
                self,
            )@.files.len(),
        ensures
            final(self)@.wf(),
            (final(self)@, out@) == download_failed(old(self)@, error, retry),
    {
        match error {
            DownloadError::Io(kind) => self.handle_io_error(kind, retry),
            DownloadError::Network => self.retry_after(RETRY_DELAY_MS, retry),
            DownloadError::RateLimited(seconds) => self.handle_rate_limited(seconds, retry),
            DownloadError::ServerError(_) => self.fail_once_more(
                retry,
                FileFailureReason::ServerError,
            ),
            DownloadError::ClientError(_) => {
                let mut out: Vec<TaskAction> = Vec::new();
                out.push(TaskAction::ReturnPermit);
                let i: usize = retry.file_id();
                self.set_status(
                    i,
                    TaskStatus::Failed(FileFailureReason::ClientError),
                    &mut out,
                );
                self.return_permit();
                assert(out@ =~= download_failed(old(self)@, error, retry).1);
                out
            },
        }
    }

    fn stream_instead(&mut self, i: usize) -> (out: Vec<TaskAction>)
        requires
            old(self)@.wf(),
            old(self)@.permit_count > 0,
            i < old(self)@.files.len(),
        ensures
            final(self)@.wf(),
            (final(self)@, out@) == streamed_instead(old(self)@, i as int),
    {
        let ghost start = self@;
        let ghost f = start.files[i as int];
        assert(f == self.files@[i as int]@);
        self.files[i].size = Some(FileSize::Unknown);
        self.files[i].retries = 0;
        self.files[i].open = false;
        self.retry_streams.push(i);
        self.demand = self.demand.wrapping_add(1);
        self.permit_count = self.permit_count - 1;
        let mut out: Vec<TaskAction> = Vec::new();
        out.push(TaskAction::ReturnPermit);
        proof {
            let g = TaskFileModel {
                size: Some(FileSize::Unknown),
                retries: 0,
                open: false,
                ..f
            };
            lemma_with_file(start, i as int, g);
            let (after, actions) = streamed_instead(start, i as int);
            assert(self@ =~= after);
            assert(out@ =~= actions);
        }
        out
    }

    fn handle_wrong_range(&mut self, millis: u64, retry: RetryKind) -> (out: Vec<TaskAction>)
        requires
            old(self)@.wf(),
            old(self)@.permit_count > 0,
            old(self)@.retry_queue_count < usize::MAX,
            retry.spec_file_id() < old(self)@.files.len(),
        ensures
            final(self)@.wf(),
            (final(self)@, out@) == range_came_wrong(old(self)@, millis, retry),
    {
        let i: usize = retry.file_id();
        let retries: usize = self.increment_retries(i);
        if retries > MAX_FILE_RETRIES {
            self.stream_instead(i)
        } else {
            self.retry_after(millis, retry)
        }
    }

    fn handle_range_error(
        &mut self,
        file_id: usize,
        range: RangeRetryJob,
        error: RangeDownloadError,
    ) -> (out: Vec<TaskAction>)
        requires
            old(self)@.wf(),
            old(self)@.permit_count > 0,
            old(self)@.retry_queue_count < usize::MAX,
            file_id < old(self)@.files.len(),
        ensures
            final(self)@.wf(),
            (final(self)@, out@) == range_failed(old(self)@, file_id, range, error),
    {
        let retry = RetryKind::RangeDownload(file_id, range);
        match error {
            RangeDownloadError::Download(error) => self.handle_download_error(error, retry),
            RangeDownloadError::UnexpectedStatus(_) => self.handle_wrong_range(
                RETRY_DELAY_MS,
                retry,
            ),
            RangeDownloadError::UnexpectedLength(_, _) => self.handle_wrong_range(
                CUT_DELAY_MS,
                retry,
            ),
            RangeDownloadError::RangeNotSupported => self.stream_instead(file_id),
            RangeDownloadError::DiskWriteError(kind) => self.handle_io_error(kind, retry),
            RangeDownloadError::DiskPoolDropped => {
                let mut out: Vec<TaskAction> = Vec::new();
                out.push(TaskAction::Shutdown);
                self.return_permit();
                out.push(TaskAction::ReturnPermit);
                out.push(TaskAction::Save);
                out.push(TaskAction::Stop);
                assert(out@ =~= range_failed(old(self)@, file_id, range, error).1);
                out
            },
        }
    }
}

impl TaskFile {
    /// The blocks from `start` up to `end` are there.
    fn mark(&mut self, start: usize, end: usize)
        requires
            start <= end <= old(self)@.blocks.len(),
        ensures
            final(self)@ == (TaskFileModel {
                blocks: Seq::new(
                    old(self)@.blocks.len(),
                    |b: int| start <= b < end || old(self)@.blocks[b],
                ),
                ..old(self)@
            }),
    {
        let ghost f = self@;
        let mut k: usize = start;
        assert(self@.blocks =~= Seq::new(f.blocks.len(), |b: int| start <= b < k || f.blocks[b]));
        while k < end
            invariant
                start <= k <= end <= f.blocks.len(),
                self@ == (TaskFileModel {
                    blocks: Seq::new(f.blocks.len(), |b: int| start <= b < k || f.blocks[b]),
                    ..f
                }),
            decreases end - k,
        {
            self.blocks.set(k, true);
            k += 1;
            assert(self@.blocks =~= Seq::new(
                f.blocks.len(),
                |b: int| start <= b < k || f.blocks[b],
            ));
        }
        assert(self@.blocks =~= Seq::new(f.blocks.len(), |b: int| start <= b < end || f.blocks[b]));
    }
}

fn blocks_for(size: u64) -> (r: usize)
    requires
        trackable(size),
    ensures
        r as nat == block_count(size),
{
    assert(BLOCK_SIZE == 16384);
    if size % 16384 == 0 {
        (size / 16384) as usize
    } else {
        (size / 16384 + 1) as usize
    }
}

/// Taking a job moves nothing but cursors and what waits to be done again.
proof fn lemma_taken_job(m: TaskModel)
    requires
        m.wf(),
    ensures
        job_taken(m).0.files.len() == m.files.len(),
        job_taken(m).0.permit_count == m.permit_count,
        job_taken(m).0.active_downloads == m.active_downloads,
        job_taken(m).0.active_metadata_requests == m.active_metadata_requests,
        job_taken(m).0.retry_queue_count == m.retry_queue_count,
{
    let looked = next_uninitialized(m).0;
    lemma_taken_chunk(looked, 0);
}

proof fn lemma_taken_chunk(m: TaskModel, from: int)
    requires
        0 <= from,
        m.files.len() <= usize::MAX,
    ensures
        ({
            let (after, job) = chunk_taken(m, from);
            &&& after == (TaskModel { files: after.files, ..m })
            &&& after.files.len() == m.files.len()
            &&& job matches Some(Job::DownloadChunk { file_id, .. }) ==> file_id < m.files.len()
            &&& job.is_some() ==> job->0 is DownloadChunk
        }),
    decreases m.files.len() - from,
{
    if from < m.files.len() {
        let f = m.files[from];
        if f.status is Completed || (f.retry_ranges.len() == 0 && first_missing(
            f.blocks,
            f.cursor as int,
        ).is_none()) {
            lemma_taken_chunk(m, from + 1);
        }
    }
}

impl SupervisorState {
    fn begin_job(&mut self, job: Job) -> (out: Vec<TaskAction>)
        requires
            old(self)@.wf(),
            old(self)@.active_downloads < usize::MAX,
            old(self)@.active_metadata_requests < usize::MAX,
        ensures
            final(self)@.wf(),
            (final(self)@, out@) == job_begun(old(self)@, job),
    {
        let mut out: Vec<TaskAction> = Vec::new();
        match job {
            Job::GetSize { file_id } => {
                self.active_metadata_requests = self.active_metadata_requests + 1;
                assert(self@ =~= (TaskModel {
                    active_metadata_requests: (old(self)@.active_metadata_requests + 1) as usize,
                    ..old(self)@
                }));
                self.set_status(file_id, TaskStatus::FetchingMetadata, &mut out);
                out.push(TaskAction::FetchSize { file_id });
            },
            Job::DownloadChunk { file_id, range } => {
                self.active_downloads = self.active_downloads + 1;
                out.push(TaskAction::FetchRange { file_id, range });
            },
            Job::DownloadStream { file_id } => {
                self.active_downloads = self.active_downloads + 1;
                out.push(TaskAction::FetchStream { file_id });
            },
        }
        assert(self@ =~= job_begun(old(self)@, job).0);
        assert(out@ =~= job_begun(old(self)@, job).1);
        out
    }

    fn use_permit(&mut self) -> (out: Vec<TaskAction>)
        requires
            old(self)@.wf(),
            message_fits(old(self)@, SupervisorMessage::SpawnWorker),
        ensures
            final(self)@.wf(),
            (final(self)@, out@) == permit_used(old(self)@),
    {
        proof {
            lemma_taken_job(self@);
        }
        if let Some(job) = self.get_next_job() {
            return self.begin_job(job);
        }
        let mut out: Vec<TaskAction> = Vec::new();
        self.return_permit();
        out.push(TaskAction::ReturnPermit);
        if self.retry_queue_count > 0 {
            assert(out@ =~= permit_used(old(self)@).1);
            return out;
        }
        self.demand = 0;
        assert(self@ =~= permit_used(old(self)@).0);
        if self.permit_count == 0 && self.active_downloads == 0 && self.is_download_finished() {
            out.push(TaskAction::Save);
            out.push(TaskAction::TellFinished);
            out.push(TaskAction::Save);
            out.push(TaskAction::Stop);
        }
        assert(out@ =~= permit_used(old(self)@).1);
        out
    }

    fn end_if_finished(&self, out: &mut Vec<TaskAction>)
        ensures
            final(out)@ == old(out)@ + ending(self@),
    {
        if self.is_download_finished() {
            out.push(TaskAction::Save);
            out.push(TaskAction::TellFinished);
            out.push(TaskAction::Save);
            out.push(TaskAction::Stop);
        }
        assert(out@ =~= old(out)@ + ending(self@));
    }

    fn learn_size(&mut self, i: usize, size: u64) -> (out: Vec<TaskAction>)
        requires
            old(self)@.wf(),
            old(self)@.permit_count > 0,
            old(self)@.retry_queue_count < usize::MAX,
            i < old(self)@.files.len(),
            trackable(size),
        ensures
            final(self)@.wf(),
            (final(self)@, out@) == size_told(old(self)@, i as int, SizeResult::Known(size)),
    {
        let ghost start = self@;
        let ghost f = start.files[i as int];
        assert(f == self.files@[i as int]@);
        let mut out: Vec<TaskAction> = Vec::new();
        self.files[i].retries = 0;
        self.files[i].size = Some(FileSize::Known(size));
        out.push(TaskAction::ShowSize { file_id: i, len: size });
        let ghost sized = TaskFileModel { retries: 0, size: Some(FileSize::Known(size)), ..f };
        if size > 0 {
            let count: usize = blocks_for(size);
            self.files[i].blocks.resize(count, false);
            if self.files[i].cursor > count {
                self.files[i].cursor = count;
            }
            proof {
                let g = TaskFileModel {
                    blocks: resized(f.blocks, count as nat, false),
                    cursor: capped(f.cursor, count as nat),
                    ..sized
                };
                assert(self@.files[i as int] =~= g);
                assert(self@ =~= start.with_file(i as int, g));
                lemma_with_file(start, i as int, g);
            }
            self.set_status(i, TaskStatus::InProgress, &mut out);
            let jobs: usize = if count % TARGET_RANGE_SIZE == 0 {
                count / TARGET_RANGE_SIZE
            } else {
                count / TARGET_RANGE_SIZE + 1
            };
            assert(jobs as nat == jobs_for(count as nat)) by {
                assert(TARGET_RANGE_SIZE == 320);
            }
            self.demand = self.demand.wrapping_add(jobs);
            self.permit_count = self.permit_count - 1;
            out.push(TaskAction::RequestPermits);
            out.push(TaskAction::ReturnPermit);
        } else {
            proof {
                assert(self@ =~= start.with_file(i as int, sized));
                lemma_with_file(start, i as int, sized);
            }
            self.set_status(i, TaskStatus::Completed, &mut out);
            self.permit_count = self.permit_count - 1;
            out.push(TaskAction::ReturnPermit);
        }
        proof {
            let (after, actions) = size_told(start, i as int, SizeResult::Known(size));
            assert(self@ =~= after);
            assert(out@ =~= actions);
        }
        out
    }

    fn tell_size(&mut self, i: usize, result: SizeResult) -> (out: Vec<TaskAction>)
        requires
            old(self)@.wf(),
            old(self)@.permit_count > 0,
            old(self)@.retry_queue_count < usize::MAX,
            i < old(self)@.files.len(),
            result matches SizeResult::Known(size) ==> trackable(size),
        ensures
            final(self)@.wf(),
            (final(self)@, out@) == size_told(old(self)@, i as int, result),
    {
        match result {
            SizeResult::Known(size) => self.learn_size(i, size),
            SizeResult::Stream => {
                let ghost start = self@;
                let ghost f = start.files[i as int];
                assert(f == self.files@[i as int]@);
                let mut out: Vec<TaskAction> = Vec::new();
                self.files[i].retries = 0;
                self.files[i].size = Some(FileSize::Unknown);
                proof {
                    let g = TaskFileModel { retries: 0, size: Some(FileSize::Unknown), ..f };
                    assert(self@ =~= start.with_file(i as int, g));
                    lemma_with_file(start, i as int, g);
                }
                self.set_status(i, TaskStatus::InProgress, &mut out);
                self.demand = self.demand.wrapping_add(1);
                self.permit_count = self.permit_count - 1;
                out.push(TaskAction::RequestPermits);
                out.push(TaskAction::ReturnPermit);
                proof {
                    let (after, actions) = size_told(start, i as int, result);
                    assert(self@ =~= after);
                    assert(out@ =~= actions);
                }
                out
            },
            SizeResult::Retryable(_) => self.fail_once_more(
                RetryKind::Metadata(i),
                FileFailureReason::MetadataFetchError,
            ),
            SizeResult::PermanentFail => self.fail(i, FileFailureReason::MetadataFetchError),
        }
    }

    fn end_stream(&mut self, i: usize, size: u64) -> (out: Vec<TaskAction>)
        requires
            old(self)@.wf(),
            old(self)@.permit_count > 0,
            i < old(self)@.files.len(),
            trackable(size),
        ensures
            final(self)@.wf(),
            (final(self)@, out@) == stream_done(old(self)@, i as int, size),
    {
        let ghost start = self@;
        let ghost f = start.files[i as int];
        assert(f == self.files@[i as int]@);
        let mut out: Vec<TaskAction> = Vec::new();
        self.permit_count = self.permit_count - 1;
        out.push(TaskAction::ReturnPermit);
        self.files[i].retries = 0;
        self.files[i].size = Some(FileSize::Known(size));
        if size > 0 {
            let count: usize = blocks_for(size);
            self.files[i].blocks.resize(count, true);
            if self.files[i].cursor > count {
                self.files[i].cursor = count;
            }
        }
        out.push(TaskAction::ShowSize { file_id: i, len: size });
        proof {
            let g = TaskFileModel {
                retries: 0,
                size: Some(FileSize::Known(size)),
                blocks: if size > 0 {
                    resized(f.blocks, block_count(size), true)
                } else {
                    f.blocks
                },
                cursor: if size > 0 {
                    capped(f.cursor, block_count(size))
                } else {
                    f.cursor
                },
                ..f
            };
            assert(self@.files[i as int] =~= g);
            assert(self@ =~= permit_returned(start.with_file(i as int, g)));
            lemma_with_file(start, i as int, g);
        }
        self.set_status(i, TaskStatus::Completed, &mut out);
        self.end_if_finished(&mut out);
        assert(out@ =~= stream_done(start, i as int, size).1);
        out
    }

    fn end_range(&mut self, i: usize, start: usize, end: usize) -> (out: Vec<TaskAction>)
        requires
            old(self)@.wf(),
            old(self)@.permit_count > 0,
            i < old(self)@.files.len(),
            start <= end <= old(self)@.files[i as int].blocks.len(),
        ensures
            final(self)@.wf(),
            (final(self)@, out@) == range_done(old(self)@, i as int, start, end),
    {
        let ghost first = self@;
        let ghost f = first.files[i as int];
        assert(f == self.files@[i as int]@);
        let mut out: Vec<TaskAction> = Vec::new();
        self.files[i].mark(start, end);
        self.permit_count = self.permit_count - 1;
        self.files[i].retries = 0;
        out.push(TaskAction::ReturnPermit);
        let ghost fetched = TaskFileModel {
            retries: 0,
            blocks: Seq::new(f.blocks.len(), |b: int| start <= b < end || f.blocks[b]),
            ..f
        };
        let ghost taken = permit_returned(first.with_file(i as int, fetched));
        proof {
            assert(fetched.blocks =~= Seq::new(
                f.blocks.len(),
                |b: int| start <= b < end || f.blocks[b],
            ));
            assert(self@.files[i as int] =~= fetched);
            assert(self@ =~= taken);
            lemma_with_file(first, i as int, fetched);
        }
        assert(self.files@[i as int]@ == fetched);
        if self.files[i].blocks.all() {
            self.set_status(i, TaskStatus::Completed, &mut out);
            let ghost shown = self@;
            self.files[i].open = false;
            proof {
                let g = TaskFileModel { open: false, ..shown.files[i as int] };
                assert(self@ =~= shown.with_file(i as int, g));
                lemma_with_file(shown, i as int, g);
            }
            self.end_if_finished(&mut out);
        }
        assert(out@ =~= range_done(first, i as int, start, end).1);
        out
    }

    fn make_ready(&mut self, retry: RetryKind) -> (out: Vec<TaskAction>)
        requires
            old(self)@.wf(),
            old(self)@.retry_queue_count > 0,
            retry is RangeDownload ==> retry.spec_file_id() < old(self)@.files.len(),
        ensures
            final(self)@.wf(),
            (final(self)@, out@) == retry_ready(old(self)@, retry),
    {
        let ghost start = self@;
        self.retry_queue_count = self.retry_queue_count - 1;
        self.demand = self.demand.wrapping_add(1);
        match retry {
            RetryKind::Metadata(i) => {
                self.retry_uninitialized.push(i);
                assert(self@ =~= retry_ready(start, retry).0);
            },
            RetryKind::StreamDownload(i) => {
                self.retry_streams.push(i);
                assert(self@ =~= retry_ready(start, retry).0);
            },
            RetryKind::RangeDownload(i, range) => {
                let ghost f = start.files[i as int];
                assert(f == self.files@[i as int]@);
                self.files[i].retry_ranges.push(range);
                proof {
                    let g = TaskFileModel { retry_ranges: f.retry_ranges.push(range), ..f };
                    lemma_with_file(start, i as int, g);
                    assert(self@ =~= retry_ready(start, retry).0);
                }
            },
        }
        let mut out: Vec<TaskAction> = Vec::new();
        out.push(TaskAction::RequestPermits);
        assert(out@ =~= retry_ready(start, retry).1);
        out
    }

    fn pause(&mut self) -> (out: Vec<TaskAction>)
        requires
            old(self)@.wf(),
        ensures
            final(self)@.wf(),
            (final(self)@, out@) == work_paused(old(self)@),
    {
        let ghost start = self@;
        let mut out: Vec<TaskAction> = Vec::new();
        out.push(TaskAction::ShowPaused);
        let n: usize = self.files.len();
        let mut i: usize = 0;
        assert(out@ =~= seq![TaskAction::ShowPaused] + paused_first(start, 0).1);
        while i < n
            invariant
                i <= n,
                n == start.files.len(),
                n == self.files@.len(),
                self@.wf(),
                self@ == paused_first(start, i as nat).0,
                out@ == seq![TaskAction::ShowPaused] + paused_first(start, i as nat).1,
            decreases n - i,
        {
            let ghost before = self@;
            let ghost f = before.files[i as int];
            let ghost told = paused_first(start, i as nat).1;
            assert(f == self.files@[i as int]@);
            let ended = match self.files[i].status {
                TaskStatus::Completed | TaskStatus::Failed(_) | TaskStatus::Paused => true,
                _ => false,
            };
            if !ended {
                self.files[i].status = TaskStatus::Paused;
                let action = TaskAction::ShowStatus { file_id: i, status: TaskStatus::Paused };
                out.push(action);
                proof {
                    let g = TaskFileModel { status: TaskStatus::Paused, ..f };
                    assert(self@ =~= before.with_file(i as int, g));
                    lemma_with_file(before, i as int, g);
                    assert((seq![TaskAction::ShowPaused] + told).push(action)
                        =~= seq![TaskAction::ShowPaused] + told.push(action));
                }
            }
            i += 1;
        }
        out.push(TaskAction::Save);
        out.push(TaskAction::Save);
        out.push(TaskAction::Stop);
        assert(out@ =~= work_paused(start).1);
        out
    }

    /// A job that fetched data is over.
    fn end_download(&mut self)
        requires
            old(self)@.wf(),
            old(self)@.active_downloads > 0,
        ensures
            final(self)@.wf(),
            final(self)@ == (TaskModel {
                active_downloads: (old(self)@.active_downloads - 1) as usize,
                ..old(self)@
            }),
    {
        self.active_downloads = self.active_downloads - 1;
        assert(self@ =~= (TaskModel {
            active_downloads: (old(self)@.active_downloads - 1) as usize,
            ..old(self)@
        }));
    }

    /// A job that asked for a size is over.
    fn end_request(&mut self)
        requires
            old(self)@.wf(),
            old(self)@.active_metadata_requests > 0,
        ensures
            final(self)@.wf(),
            final(self)@ == (TaskModel {
                active_metadata_requests: (old(self)@.active_metadata_requests - 1) as usize,
                ..old(self)@
            }),
    {
        self.active_metadata_requests = self.active_metadata_requests - 1;
        assert(self@ =~= (TaskModel {
            active_metadata_requests: (old(self)@.active_metadata_requests - 1) as usize,
            ..old(self)@
        }));
    }

    fn give_back(&mut self) -> (out: Vec<TaskAction>)
        requires
            old(self)@.wf(),
            old(self)@.permit_count > 0,
        ensures
            final(self)@.wf(),
            (final(self)@, out@) == (
                permit_returned(old(self)@),
                seq![TaskAction::ReturnPermit],
            ),
    {
        let mut out: Vec<TaskAction> = Vec::new();
        self.return_permit();
        out.push(TaskAction::ReturnPermit);
        assert(out@ =~= seq![TaskAction::ReturnPermit]);
        out
    }

    /// Takes in word of a file that is not there. The job of which it brings word has
    /// been taken off the count.
    fn hear_stray(&mut self, message: SupervisorMessage) -> (out: Vec<TaskAction>)
        requires
            old(self)@.wf(),
            file_of(message).is_some(),
            message is RetryReady ==> old(self)@.retry_queue_count > 0,
            !(message is RetryReady) ==> old(self)@.permit_count > 0
                && old(self)@.retry_queue_count < usize::MAX,
        ensures
            final(self)@.wf(),
            (final(self)@, out@) == stray_step(old(self)@, message),
    {
        let ghost start = self@;
        match message {
            SupervisorMessage::RetryReady { retry: RetryKind::RangeDownload(_, _) } => {
                let mut out: Vec<TaskAction> = Vec::new();
                self.retry_queue_count = self.retry_queue_count - 1;
                self.demand = self.demand.wrapping_add(1);
                out.push(TaskAction::RequestPermits);
                assert(self@ =~= stray_step(start, message).0);
                assert(out@ =~= stray_step(start, message).1);
                out
            },
            SupervisorMessage::RetryReady { retry } => self.make_ready(retry),
            SupervisorMessage::StreamSuccess { .. } => {
                let mut out = self.give_back();
                self.end_if_finished(&mut out);
                assert(out@ =~= stray_step(start, message).1);
                out
            },
            SupervisorMessage::StreamFailed { file_id, error } => match error {
                DownloadError::Io(_) | DownloadError::ServerError(_) => self.give_back(),
                _ => self.handle_download_error(error, RetryKind::StreamDownload(file_id)),
            },
            _ => self.give_back(),
        }
    }

    /// Takes in something that happened, and says what is to be done.
    pub fn on_message(&mut self, message: SupervisorMessage) -> (out: Vec<TaskAction>)
        requires
            old(self)@.wf(),
            message_fits(old(self)@, message),
        ensures
            final(self)@.wf(),
            (final(self)@, out@) == task_step(old(self)@, message),
    {
        let n: usize = self.files.len();
        assert(n == self@.files.len());
        match message {
            SupervisorMessage::ProcessPermit { valid } => {
                let mut out: Vec<TaskAction> = Vec::new();
                if valid {
                    out.push(TaskAction::SpawnWorker);
                } else {
                    self.return_permit();
                    out.push(TaskAction::ReturnPermit);
                }
                assert(out@ =~= task_step(old(self)@, message).1);
                out
            },
            SupervisorMessage::SpawnWorker => self.use_permit(),
            SupervisorMessage::MetadataFetched { file_id, result } => {
                self.end_request();
                if file_id < n {
                    self.tell_size(file_id, result)
                } else {
                    self.hear_stray(message)
                }
            },
            SupervisorMessage::StreamSuccess { file_id, size } => {
                self.end_download();
                if file_id < n {
                    self.end_stream(file_id, size)
                } else {
                    self.hear_stray(message)
                }
            },
            SupervisorMessage::StreamFailed { file_id, error } => {
                self.end_download();
                if file_id < n {
                    self.handle_download_error(error, RetryKind::StreamDownload(file_id))
                } else {
                    self.hear_stray(message)
                }
            },
            SupervisorMessage::RangeSuccess { file_id, start, end } => {
                self.end_download();
                if file_id < n {
                    self.end_range(file_id, start, end)
                } else {
                    self.hear_stray(message)
                }
            },
            SupervisorMessage::RangeFailed { file_id, range, error } => {
                self.end_download();
                if file_id < n {
                    self.handle_range_error(file_id, range, error)
                } else {
                    self.hear_stray(message)
                }
            },
            SupervisorMessage::RetryReady { retry } => {
                if retry.file_id() < n {
                    self.make_ready(retry)
                } else {
                    self.hear_stray(message)
                }
            },
            SupervisorMessage::Pause => self.pause(),
            SupervisorMessage::Tick => {
                let mut out: Vec<TaskAction> = Vec::new();
                out.push(TaskAction::Save);
                assert(out@ =~= task_step(old(self)@, message).1);
                out
            },
        }
    }
}

/// How many stretches of blocks, as long as a range should be, miss something from
/// `from` on.
pub open spec fn broken_stretches(blocks: Seq<bool>, from: int) -> nat
    decreases blocks.len() - from,
{
    if from >= blocks.len() {
        0
    } else {
        let to = if from + TARGET_RANGE_SIZE < blocks.len() {
            from + TARGET_RANGE_SIZE
        } else {
            blocks.len() as int
        };
        broken_stretches(blocks, to) + if all_there(
            blocks.subrange(from, to),
        ) {
            0nat
        } else {
            1nat
        }
    }
}

/// How many permits a file could use.
pub open spec fn file_demand(f: TaskFileModel) -> nat {
    if f.status is Completed {
        0
    } else if f.blocks.len() == 0 {
        1
    } else {
        broken_stretches(f.blocks, 0)
    }
}

/// How many permits the first `n` files could use.
pub open spec fn demand_of(files: Seq<TaskFileModel>, n: nat) -> nat
    decreases n,
{
    if n == 0 {
        0
    } else {
        demand_of(files, (n - 1) as nat) + file_demand(files[n - 1])
    }
}

impl TaskFile {
    /// How many permits the file could use.
    fn demand(&self) -> (r: usize)
        ensures
            r as nat == file_demand(self@),
    {
        if self.status == TaskStatus::Completed {
            return 0;
        }
        let n: usize = self.blocks.len();
        if n == 0 {
            return 1;
        }
        let ghost blocks = self@.blocks;
        let mut count: usize = 0;
        let mut from: usize = 0;
        while from < n
            invariant
                n == blocks.len(),
                blocks == self@.blocks,
                from <= n,
                count <= from,
                count <= n,
                count + broken_stretches(blocks, from as int) == broken_stretches(blocks, 0),
            decreases n - from,
        {
            let to: usize = if TARGET_RANGE_SIZE < n - from {
                from + TARGET_RANGE_SIZE
            } else {
                n
            };
            let zero = self.blocks.first_zero_from(from);
            let missing: bool = match zero {
                Some(d) => d < to - from,
                None => false,
            };
            proof {
                let part = blocks.subrange(from as int, to as int);
                if missing {
                    assert(!part[(zero->0) as int]);
                } else {
                    assert forall|k: int| 0 <= k < part.len() implies part[k] by {
                        assert(part[k] == blocks[from + k]);
                    }
                }
            }
            if missing {
                count += 1;
            }
            from = to;
        }
        count
    }
}

/// How the root of a download stands when the work is to begin.
#[derive(Debug, Clone, Copy, PartialEq, Eq, Structural)]
pub enum RootState {
    Running,
    /// It is paused or failed.
    Halted,
    /// It has ended, with or without errors.
    Ended,
}

/// What is done when the work is to begin: nothing but telling, unless something is to
/// be fetched.
pub open spec fn begun(m: TaskModel, complete: bool, root: RootState) -> (
    TaskModel,
    Seq<TaskAction>,
) {
    if complete {
        (m, finish_actions().push(TaskAction::Stop))
    } else {
        match root {
            RootState::Running => (m, Seq::empty()),
            RootState::Halted => (
                TaskModel { demand: 0, ..m },
                seq![TaskAction::TellHalted, TaskAction::Stop],
            ),
            RootState::Ended => (
                TaskModel { demand: 0, ..m },
                seq![TaskAction::TellHalted] + finish_actions() + seq![TaskAction::Stop],
            ),
        }
    }
}

impl SupervisorState {
    /// The work on a download before anything was done.
    pub fn new(files: Vec<TaskFile>) -> (r: Self)
        requires
            demand_of(Seq::new(files@.len(), |i: int| files@[i]@), files@.len()) <= usize::MAX,
        ensures
            ({
                let models = Seq::new(files@.len(), |i: int| files@[i]@);
                r@ == (TaskModel {
                    files: models,
                    uninitialized_cursor: 0,
                    streams_cursor: 0,
                    retry_uninitialized: Seq::empty(),
                    retry_streams: Seq::empty(),
                    permit_count: 0,
                    demand: demand_of(models, models.len()) as usize,
                    active_downloads: 0,
                    active_metadata_requests: 0,
                    retry_queue_count: 0,
                })
            }),
    {
        let mut r = SupervisorState {
            files,
            uninitialized_cursor: 0,
            streams_cursor: 0,
            retry_uninitialized: Vec::new(),
            retry_streams: Vec::new(),
            permit_count: 0,
            demand: 0,
            active_downloads: 0,
            active_metadata_requests: 0,
            retry_queue_count: 0,
        };
        let demand: usize = r.calculate_initial_demand();
        r.demand = demand;
        r
    }

    /// How many permits the files could use.
    pub fn calculate_initial_demand(&self) -> (r: usize)
        requires
            demand_of(self@.files, self@.files.len()) <= usize::MAX,
        ensures
            r as nat == demand_of(self@.files, self@.files.len()),
    {
        let ghost files = self@.files;
        let n: usize = self.files.len();
        let mut demand: usize = 0;
        let mut i: usize = 0;
        while i < n
            invariant
                i <= n,
                n == files.len(),
                n == self.files@.len(),
                files == self@.files,
                demand_of(files, n as nat) <= usize::MAX,
                demand as nat == demand_of(files, i as nat),
            decreases n - i,
        {
            assert(files[i as int] == self.files@[i as int]@);
            let own: usize = self.files[i].demand();
            proof {
                lemma_demand_grows(files, i as nat + 1, n as nat);
            }
            demand = demand + own;
            i += 1;
        }
        demand
    }

    /// Begins the work.
    pub fn begin(&mut self, complete: bool, root: RootState) -> (out: Vec<TaskAction>)
        ensures
            (final(self)@, out@) == begun(old(self)@, complete, root),
    {
        let mut out: Vec<TaskAction> = Vec::new();
        if complete {
            out.push(TaskAction::Save);
            out.push(TaskAction::TellFinished);
            out.push(TaskAction::Stop);
        } else {
            match root {
                RootState::Running => {},
                RootState::Halted => {
                    self.demand = 0;
                    out.push(TaskAction::TellHalted);
                    out.push(TaskAction::Stop);
                },
                RootState::Ended => {
                    self.demand = 0;
                    out.push(TaskAction::TellHalted);
                    out.push(TaskAction::Save);
                    out.push(TaskAction::TellFinished);
                    out.push(TaskAction::Stop);
                },
            }
        }
        assert(self@ =~= begun(old(self)@, complete, root).0);
        assert(out@ =~= begun(old(self)@, complete, root).1);
        out
    }
}

proof fn lemma_demand_grows(files: Seq<TaskFileModel>, n: nat, m: nat)
    requires
        n <= m,
    ensures
        demand_of(files, n) <= demand_of(files, m),
    decreases m,
{
    if n < m {
        lemma_demand_grows(files, n, (m - 1) as nat);
    }
}

/// How many permits some actions give back.
pub open spec fn given_back(actions: Seq<TaskAction>) -> nat
    decreases actions.len(),
{
    if actions.len() == 0 {
        0
    } else {
        given_back(actions.drop_last()) + if actions.last() is ReturnPermit {
            1nat
        } else {
            0nat
        }
    }
}

proof fn lemma_given_back_add(a: Seq<TaskAction>, b: Seq<TaskAction>)
    ensures
        given_back(a + b) == given_back(a) + given_back(b),
    decreases b.len(),
{
    if b.len() == 0 {
        assert(a + b =~= a);
    } else {
        assert((a + b).drop_last() =~= a + b.drop_last());
        lemma_given_back_add(a, b.drop_last());
    }
}

proof fn lemma_given_back_push(a: Seq<TaskAction>, x: TaskAction)
    ensures
        given_back(a.push(x)) == given_back(a) + if x is ReturnPermit {
            1nat
        } else {
            0nat
        },
{
    assert(a.push(x).drop_last() =~= a);
}

proof fn lemma_given_back_one(x: TaskAction)
    ensures
        given_back(seq![x]) == if x is ReturnPermit {
            1nat
        } else {
            0nat
        },
        given_back(Seq::<TaskAction>::empty()) == 0,
{
    assert(seq![x] =~= Seq::<TaskAction>::empty().push(x));
    lemma_given_back_push(Seq::<TaskAction>::empty(), x);
}

/// Showing a state gives no permit back.
proof fn lemma_stated_keeps(m: TaskModel, i: int, status: TaskStatus)
    ensures
        given_back(stated(m, i, status).1) == 0,
        stated(m, i, status).0.permit_count == m.permit_count,
{
    let save = TaskAction::Save;
    let show = TaskAction::ShowStatus { file_id: i as usize, status };
    lemma_given_back_one(save);
    lemma_given_back_push(seq![save], show);
    assert(seq![save, show] =~= seq![save].push(show));
}

proof fn lemma_given_back_three(a: TaskAction, b: TaskAction, c: TaskAction)
    ensures
        given_back(seq![a, b, c]) == given_back(seq![a]) + given_back(seq![b]) + given_back(
            seq![c],
        ),
        given_back(seq![a, b]) == given_back(seq![a]) + given_back(seq![b]),
{
    lemma_given_back_add(seq![a], seq![b]);
    assert(seq![a] + seq![b] =~= seq![a, b]);
    lemma_given_back_add(seq![a, b], seq![c]);
    assert(seq![a, b] + seq![c] =~= seq![a, b, c]);
}

proof fn lemma_retried_returns(m: TaskModel, millis: u64, retry: RetryKind)
    requires
        m.permit_count > 0,
    ensures
        given_back(retried(m, millis, retry).1) == 1,
        retried(m, millis, retry).0.permit_count == m.permit_count - 1,
{
    let i = retry.spec_file_id();
    let a = TaskAction::ShowStatus { file_id: i, status: TaskStatus::Retrying };
    let b = TaskAction::ReturnPermit;
    let c = TaskAction::RetryAfter { millis, retry };
    lemma_stated_keeps(m, i as int, TaskStatus::Retrying);
    lemma_given_back_one(a);
    lemma_given_back_one(b);
    lemma_given_back_one(c);
    lemma_given_back_three(a, b, c);
    lemma_given_back_add(stated(m, i as int, TaskStatus::Retrying).1, seq![a, b, c]);
}

proof fn lemma_failed_returns(m: TaskModel, i: int, reason: FileFailureReason)
    requires
        m.permit_count > 0,
    ensures
        given_back(failed(m, i, reason).1) == 1,
        failed(m, i, reason).0.permit_count == m.permit_count - 1,
{
    lemma_stated_keeps(m, i, TaskStatus::Failed(reason));
    lemma_given_back_push(
        stated(m, i, TaskStatus::Failed(reason)).1,
        TaskAction::ReturnPermit,
    );
}

proof fn lemma_once_more_returns(m: TaskModel, retry: RetryKind, reason: FileFailureReason)
    requires
        m.permit_count > 0,
    ensures
        given_back(failed_once_more(m, retry, reason).1) == 1,
        failed_once_more(m, retry, reason).0.permit_count == m.permit_count - 1,
{
    let i = retry.spec_file_id() as int;
    let retries = bumped(m.files[i].retries);
    let counted = m.with_file(i, TaskFileModel { retries, ..m.files[i] });
    lemma_failed_returns(counted, i, reason);
    lemma_retried_returns(counted, RETRY_DELAY_MS, retry);
}

proof fn lemma_download_failed_returns(m: TaskModel, error: DownloadError, retry: RetryKind)
    requires
        m.permit_count > 0,
    ensures
        given_back(download_failed(m, error, retry).1) == 1,
        download_failed(m, error, retry).0.permit_count == m.permit_count - 1,
{
    let i = retry.spec_file_id() as int;
    match error {
        DownloadError::Io(kind) => {
            lemma_io_failed_returns(m, kind, retry);
        },
        DownloadError::Network => {
            lemma_retried_returns(m, RETRY_DELAY_MS, retry);
        },
        DownloadError::RateLimited(seconds) => {
            let a = TaskAction::RetryNow { retry };
            let b = TaskAction::TellRateLimited { seconds };
            let c = TaskAction::ReturnPermit;
            lemma_stated_keeps(m, i, TaskStatus::Waiting(seconds));
            lemma_given_back_one(a);
            lemma_given_back_one(b);
            lemma_given_back_one(c);
            lemma_given_back_three(a, b, c);
            lemma_given_back_add(stated(m, i, TaskStatus::Waiting(seconds)).1, seq![a, b, c]);
        },
        DownloadError::ServerError(_) => {
            lemma_once_more_returns(m, retry, FileFailureReason::ServerError);
        },
        DownloadError::ClientError(_) => {
            let status = TaskStatus::Failed(FileFailureReason::ClientError);
            lemma_stated_keeps(m, i, status);
            lemma_given_back_one(TaskAction::ReturnPermit);
            lemma_given_back_add(seq![TaskAction::ReturnPermit], stated(m, i, status).1);
        },
    }
}

proof fn lemma_io_failed_returns(m: TaskModel, error: IoErrorKind, retry: RetryKind)
    requires
        m.permit_count > 0,
    ensures
        given_back(io_failed(m, error, retry).1) == 1,
        io_failed(m, error, retry).0.permit_count == m.permit_count - 1,
{
    lemma_failed_returns(m, retry.spec_file_id() as int, FileFailureReason::DiskError);
    lemma_once_more_returns(m, retry, FileFailureReason::DiskError);
    lemma_retried_returns(m, RETRY_DELAY_MS, retry);
}

proof fn lemma_range_failed_returns(
    m: TaskModel,
    file_id: usize,
    range: RangeRetryJob,
    error: RangeDownloadError,
)
    requires
        m.permit_count > 0,
    ensures
        given_back(range_failed(m, file_id, range, error).1) == 1,
        range_failed(m, file_id, range, error).0.permit_count == m.permit_count - 1,
{
    let retry = RetryKind::RangeDownload(file_id, range);
    let i = file_id as int;
    let retries = bumped(m.files[i].retries);
    let counted = m.with_file(i, TaskFileModel { retries, ..m.files[i] });
    lemma_given_back_one(TaskAction::ReturnPermit);
    lemma_given_back_one(TaskAction::Shutdown);
    lemma_given_back_one(TaskAction::Save);
    lemma_given_back_one(TaskAction::Stop);
    lemma_given_back_three(TaskAction::Shutdown, TaskAction::ReturnPermit, TaskAction::Save);
    let three = seq![TaskAction::Shutdown, TaskAction::ReturnPermit, TaskAction::Save];
    lemma_given_back_push(three, TaskAction::Stop);
    assert(seq![
        TaskAction::Shutdown,
        TaskAction::ReturnPermit,
        TaskAction::Save,
        TaskAction::Stop,
    ] =~= three.push(TaskAction::Stop));
    lemma_retried_returns(counted, RETRY_DELAY_MS, retry);
    lemma_retried_returns(counted, CUT_DELAY_MS, retry);
    match error {
        RangeDownloadError::Download(e) => {
            lemma_download_failed_returns(m, e, retry);
        },
        RangeDownloadError::DiskWriteError(kind) => {
            lemma_io_failed_returns(m, kind, retry);
        },
        _ => {},
    }
}

proof fn lemma_ending_returns(m: TaskModel)
    ensures
        given_back(ending(m)) == 0,
        given_back(finish_actions() + seq![TaskAction::Save, TaskAction::Stop]) == 0,
{
    lemma_given_back_one(TaskAction::Save);
    lemma_given_back_one(TaskAction::TellFinished);
    lemma_given_back_one(TaskAction::Stop);
    lemma_given_back_three(TaskAction::Save, TaskAction::TellFinished, TaskAction::Save);
    lemma_given_back_three(TaskAction::Save, TaskAction::Stop, TaskAction::Save);
    lemma_given_back_add(finish_actions(), seq![TaskAction::Save, TaskAction::Stop]);
}

proof fn lemma_size_told_returns(m: TaskModel, i: int, result: SizeResult)
    requires
        m.permit_count > 0,
    ensures
        given_back(size_told(m, i, result).1) == 1,
        size_told(m, i, result).0.permit_count == m.permit_count - 1,
{
    let f = m.files[i];
    let ask = TaskAction::RequestPermits;
    let give = TaskAction::ReturnPermit;
    lemma_given_back_one(ask);
    lemma_given_back_one(give);
    lemma_given_back_three(ask, give, ask);
    match result {
        SizeResult::Known(size) => {
            let show = TaskAction::ShowSize { file_id: i as usize, len: size };
            lemma_given_back_one(show);
            let sized = TaskFileModel { retries: 0, size: Some(FileSize::Known(size)), ..f };
            if size > 0 {
                let blocks = block_count(size);
                let before = m.with_file(
                    i,
                    TaskFileModel {
                        blocks: resized(f.blocks, blocks, false),
                        cursor: capped(f.cursor, blocks),
                        ..sized
                    },
                );
                lemma_stated_keeps(before, i, TaskStatus::InProgress);
                let actions = stated(before, i, TaskStatus::InProgress).1;
                lemma_given_back_add(seq![show], actions);
                lemma_given_back_add(seq![show] + actions, seq![ask, give]);
            } else {
                let before = m.with_file(i, sized);
                lemma_stated_keeps(before, i, TaskStatus::Completed);
                let actions = stated(before, i, TaskStatus::Completed).1;
                lemma_given_back_push(actions, give);
                lemma_given_back_add(seq![show], actions.push(give));
            }
        },
        SizeResult::Stream => {
            let before = m.with_file(
                i,
                TaskFileModel { retries: 0, size: Some(FileSize::Unknown), ..f },
            );
            lemma_stated_keeps(before, i, TaskStatus::InProgress);
            lemma_given_back_add(
                stated(before, i, TaskStatus::InProgress).1,
                seq![ask, give],
            );
        },
        SizeResult::Retryable(_) => {
            lemma_once_more_returns(
                m,
                RetryKind::Metadata(i as usize),
                FileFailureReason::MetadataFetchError,
            );
        },
        SizeResult::PermanentFail => {
            lemma_failed_returns(m, i, FileFailureReason::MetadataFetchError);
        },
    }
}

proof fn lemma_stream_done_returns(m: TaskModel, i: int, size: u64)
    requires
        m.permit_count > 0,
    ensures
        given_back(stream_done(m, i, size).1) == 1,
        stream_done(m, i, size).0.permit_count == m.permit_count - 1,
{
    let f = m.files[i];
    let g = TaskFileModel {
        retries: 0,
        size: Some(FileSize::Known(size)),
        blocks: if size > 0 {
            resized(f.blocks, block_count(size), true)
        } else {
            f.blocks
        },
        cursor: if size > 0 {
            capped(f.cursor, block_count(size))
        } else {
            f.cursor
        },
        ..f
    };
    let before = permit_returned(m.with_file(i, g));
    lemma_stated_keeps(before, i, TaskStatus::Completed);
    let (shown, actions) = stated(before, i, TaskStatus::Completed);
    let give = TaskAction::ReturnPermit;
    let show = TaskAction::ShowSize { file_id: i as usize, len: size };
    lemma_given_back_one(give);
    lemma_given_back_one(show);
    lemma_given_back_three(give, show, give);
    lemma_given_back_add(seq![give, show], actions);
    lemma_ending_returns(shown);
    lemma_given_back_add(seq![give, show] + actions, ending(shown));
}

proof fn lemma_range_done_returns(m: TaskModel, i: int, start: usize, end: usize)
    requires
        m.permit_count > 0,
    ensures
        given_back(range_done(m, i, start, end).1) == 1,
        range_done(m, i, start, end).0.permit_count == m.permit_count - 1,
{
    let f = m.files[i];
    let fetched = TaskFileModel {
        retries: 0,
        blocks: Seq::new(f.blocks.len(), |k: int| start <= k < end || f.blocks[k]),
        ..f
    };
    let taken = permit_returned(m.with_file(i, fetched));
    let give = TaskAction::ReturnPermit;
    lemma_given_back_one(give);
    lemma_stated_keeps(taken, i, TaskStatus::Completed);
    let (shown, actions) = stated(taken, i, TaskStatus::Completed);
    let after = shown.with_file(i, TaskFileModel { open: false, ..shown.files[i] });
    lemma_given_back_add(seq![give], actions);
    lemma_ending_returns(after);
    lemma_given_back_add(seq![give] + actions, ending(after));
}

proof fn lemma_paused_returns(m: TaskModel, n: nat)
    ensures
        given_back(paused_first(m, n).1) == 0,
        paused_first(m, n).0.permit_count == m.permit_count,
    decreases n,
{
    if n > 0 {
        lemma_paused_returns(m, (n - 1) as nat);
        lemma_given_back_push(
            paused_first(m, (n - 1) as nat).1,
            TaskAction::ShowStatus { file_id: (n - 1) as usize, status: TaskStatus::Paused },
        );
    }
}

proof fn lemma_permit_used_returns(m: TaskModel)
    requires
        m.wf(),
        m.permit_count > 0,
    ensures
        given_back(permit_used(m).1) == m.permit_count - permit_used(m).0.permit_count,
{
    let (looked, job) = job_taken(m);
    lemma_taken_job(m);
    let give = TaskAction::ReturnPermit;
    lemma_given_back_one(give);
    match job {
        Some(Job::GetSize { file_id }) => {
            let before = TaskModel {
                active_metadata_requests: (looked.active_metadata_requests + 1) as usize,
                ..looked
            };
            lemma_stated_keeps(before, file_id as int, TaskStatus::FetchingMetadata);
            lemma_given_back_push(
                stated(before, file_id as int, TaskStatus::FetchingMetadata).1,
                TaskAction::FetchSize { file_id },
            );
        },
        Some(Job::DownloadChunk { file_id, range }) => {
            lemma_given_back_one(TaskAction::FetchRange { file_id, range });
        },
        Some(Job::DownloadStream { file_id }) => {
            lemma_given_back_one(TaskAction::FetchStream { file_id });
        },
        None => {
            let idle = TaskModel { demand: 0, ..permit_returned(looked) };
            lemma_ending_returns(idle);
            let end = finish_actions() + seq![TaskAction::Save, TaskAction::Stop];
            lemma_given_back_add(seq![give], end);
            lemma_given_back_add(seq![give], Seq::<TaskAction>::empty());
        },
    }
}

/// No permit is lost, and none is given back twice: whatever happens, as many are
/// given back as the work holds less.
pub proof fn law_permits_balance(m: TaskModel, message: SupervisorMessage)
    requires
        m.wf(),
        message_fits(m, message),
    ensures
        given_back(task_step(m, message).1) == m.permit_count - task_step(
            m,
            message,
        ).0.permit_count,
{
    let over = job_over(m, message);
    if is_stray(m, message) {
        lemma_stray_returns(over, message);
    } else {
        lemma_step_returns(m, message);
    }
}

proof fn lemma_stray_returns(m: TaskModel, message: SupervisorMessage)
    requires
        file_of(message).is_some(),
        !(message is RetryReady) ==> m.permit_count > 0,
    ensures
        given_back(stray_step(m, message).1) == m.permit_count - stray_step(
            m,
            message,
        ).0.permit_count,
{
    let give = TaskAction::ReturnPermit;
    lemma_given_back_one(give);
    lemma_given_back_one(TaskAction::RequestPermits);
    match message {
        SupervisorMessage::StreamSuccess { .. } => {
            lemma_ending_returns(m);
            lemma_given_back_add(seq![give], ending(m));
        },
        SupervisorMessage::StreamFailed { file_id, error } => {
            lemma_download_failed_returns(m, error, RetryKind::StreamDownload(file_id));
        },
        _ => {},
    }
}

proof fn lemma_step_returns(m: TaskModel, message: SupervisorMessage)
    requires
        m.wf(),
        message_fits(m, message),
        !is_stray(m, message),
    ensures
        given_back(task_step(m, message).1) == m.permit_count - task_step(
            m,
            message,
        ).0.permit_count,
{
    let over = job_over(m, message);
    match message {
        SupervisorMessage::ProcessPermit { .. } => {
            lemma_given_back_one(TaskAction::SpawnWorker);
            lemma_given_back_one(TaskAction::ReturnPermit);
        },
        SupervisorMessage::SpawnWorker => {
            lemma_permit_used_returns(m);
        },
        SupervisorMessage::MetadataFetched { file_id, result } => {
            lemma_size_told_returns(over, file_id as int, result);
        },
        SupervisorMessage::StreamSuccess { file_id, size } => {
            lemma_stream_done_returns(over, file_id as int, size);
        },
        SupervisorMessage::StreamFailed { file_id, error } => {
            lemma_download_failed_returns(over, error, RetryKind::StreamDownload(file_id));
        },
        SupervisorMessage::RangeSuccess { file_id, start, end } => {
            lemma_range_done_returns(over, file_id as int, start, end);
        },
        SupervisorMessage::RangeFailed { file_id, range, error } => {
            lemma_range_failed_returns(over, file_id, range, error);
        },
        SupervisorMessage::RetryReady { .. } => {
            lemma_given_back_one(TaskAction::RequestPermits);
        },
        SupervisorMessage::Pause => {
            lemma_paused_returns(m, m.files.len());
            let actions = paused_first(m, m.files.len()).1;
            let (a, b, c) = (TaskAction::Save, TaskAction::Save, TaskAction::Stop);
            lemma_given_back_one(TaskAction::ShowPaused);
            lemma_given_back_one(a);
            lemma_given_back_one(c);
            lemma_given_back_three(a, b, c);
            lemma_given_back_add(seq![TaskAction::ShowPaused], actions);
            lemma_given_back_add(seq![TaskAction::ShowPaused] + actions, seq![a, b, c]);
        },
        SupervisorMessage::Tick => {
            lemma_given_back_one(TaskAction::Save);
        },
    }
}

/// Whether as many jobs are under way.
spec fn same_jobs(a: TaskModel, b: TaskModel) -> bool {
    a.active_downloads == b.active_downloads && a.active_metadata_requests
        == b.active_metadata_requests
}

proof fn lemma_failure_keeps_jobs(m: TaskModel, error: DownloadError, retry: RetryKind)
    ensures
        same_jobs(m, download_failed(m, error, retry).0),
{
}

proof fn lemma_range_failure_keeps_jobs(
    m: TaskModel,
    file_id: usize,
    range: RangeRetryJob,
    error: RangeDownloadError,
)
    ensures
        same_jobs(m, range_failed(m, file_id, range, error).0),
{
    let retry = RetryKind::RangeDownload(file_id, range);
    match error {
        RangeDownloadError::Download(e) => {
            lemma_failure_keeps_jobs(m, e, retry);
        },
        RangeDownloadError::DiskWriteError(kind) => {
            lemma_failure_keeps_jobs(m, DownloadError::Io(kind), retry);
        },
        _ => {},
    }
}

proof fn lemma_size_keeps_jobs(m: TaskModel, i: int, result: SizeResult)
    ensures
        same_jobs(m, size_told(m, i, result).0),
{
}

/// With word of a job its permit is given back, and the job does not count any more.
pub proof fn law_jobs_end_with_their_permits(m: TaskModel, message: SupervisorMessage)
    requires
        m.wf(),
        message_fits(m, message),
        file_of(message).is_some(),
        !(message is RetryReady),
    ensures
        ({
            let after = task_step(m, message).0;
            &&& after.permit_count == m.permit_count - 1
            &&& after.active_downloads + after.active_metadata_requests == m.active_downloads
                + m.active_metadata_requests - 1
        }),
{
    let over = job_over(m, message);
    match message {
        SupervisorMessage::MetadataFetched { file_id, result } => {
            lemma_size_told_returns(over, file_id as int, result);
            lemma_size_keeps_jobs(over, file_id as int, result);
        },
        SupervisorMessage::StreamSuccess { file_id, size } => {
            lemma_stream_done_returns(over, file_id as int, size);
        },
        SupervisorMessage::StreamFailed { file_id, error } => {
            let retry = RetryKind::StreamDownload(file_id);
            lemma_download_failed_returns(over, error, retry);
            lemma_failure_keeps_jobs(over, error, retry);
        },
        SupervisorMessage::RangeSuccess { file_id, start, end } => {
            lemma_range_done_returns(over, file_id as int, start, end);
        },
        SupervisorMessage::RangeFailed { file_id, range, error } => {
            lemma_range_failed_returns(over, file_id, range, error);
            lemma_range_failure_keeps_jobs(over, file_id, range, error);
        },
        _ => {},
    }
}

/// A whole file is taken once: the next one that is taken, if none failed, comes after
/// it.
pub proof fn law_streams_are_taken_once(m: TaskModel)
    requires
        m.wf(),
        m.retry_streams.len() == 0,
    ensures
        stream_taken(m).1 matches Some(Job::DownloadStream { file_id: first }) ==> (stream_taken(
            stream_taken(m).0,
        ).1 matches Some(Job::DownloadStream { file_id: next }) ==> first < next),
{
    lemma_stream_bound(m.files, m.streams_cursor as int);
    let after = stream_taken(m).0;
    lemma_stream_bound(after.files, after.streams_cursor as int);
}

/// A range that is taken for the first time is not empty, no longer than a range
/// should be, and misses all of its blocks.
pub proof fn law_ranges_miss_all_blocks(m: TaskModel, from: int)
    requires
        m.wf(),
        0 <= from,
        forall|i: int| 0 <= i < m.files.len() ==> (#[trigger] m.files[i]).retry_ranges.len() == 0,
    ensures
        chunk_taken(m, from).1 matches Some(Job::DownloadChunk { file_id, range }) ==> {
            let blocks = m.files[file_id as int].blocks;
            &&& file_id < m.files.len()
            &&& range.start < range.end <= blocks.len()
            &&& range.end - range.start <= TARGET_RANGE_SIZE
            &&& forall|b: int| range.start <= b < range.end ==> !#[trigger] blocks[b]
        },
    decreases m.files.len() - from,
{
    if from < m.files.len() {
        let f = m.files[from];
        lemma_first_missing(f.blocks, f.cursor as int);
        if f.status is Completed || first_missing(f.blocks, f.cursor as int).is_none() {
            law_ranges_miss_all_blocks(m, from + 1);
        } else {
            let start = first_missing(f.blocks, f.cursor as int)->0;
            let far = if start + TARGET_RANGE_SIZE < f.blocks.len() {
                start + TARGET_RANGE_SIZE
            } else {
                f.blocks.len() as int
            };
            lemma_first_present(f.blocks, start, far);
        }
    }
}

/// What an answer without a body says of the size of a file, if it says anything.
pub open spec fn size_in_head(reply: Option<Reply>) -> Option<SizeResult> {
    match reply {
        Some(a) => match a.content_length {
            Some(len) => if spec_is_success(a.status) && len != 0 {
                Some(SizeResult::Known(len))
            } else {
                None
            },
            None => None,
        },
        None => None,
    }
}

/// What the answer says of the size of a file when its first byte was asked for. A
/// server that does not say of which file the byte is may say it later.
pub open spec fn size_in_body(reply: Option<Reply>) -> SizeResult {
    match reply {
        None => SizeResult::Retryable(0),
        Some(a) => if a.status == 206 {
            match a.content_range {
                Some(header) => match range_total(header@) {
                    Some(total) => if total != 0 {
                        SizeResult::Known(total)
                    } else {
                        SizeResult::Stream
                    },
                    None => SizeResult::Stream,
                },
                None => SizeResult::Retryable(0),
            }
        } else if a.status == 200 {
            match a.content_length {
                Some(len) => if len != 0 {
                    SizeResult::Known(len)
                } else {
                    SizeResult::Stream
                },
                None => SizeResult::Stream,
            }
        } else if a.status == 429 || a.status == 503 || a.status == 504 {
            SizeResult::Retryable(a.status)
        } else {
            SizeResult::PermanentFail
        },
    }
}

/// What an answer without a body says of the size of a file, if it says anything.
pub fn judge_size_head(reply: &Option<Reply>) -> (r: Option<SizeResult>)
    ensures
        r == size_in_head(*reply),
{
    if let Some(reply) = reply {
        if let Some(len) = reply.content_length {
            if is_success(reply.status) && len != 0 {
                return Some(SizeResult::Known(len));
            }
        }
    }
    None
}

/// What the answer says of the size of a file when its first byte was asked for.
pub fn judge_size_get(reply: &Option<Reply>) -> (r: SizeResult)
    ensures
        r == size_in_body(*reply),
{
    let reply = match reply {
        Some(reply) => reply,
        None => {
            return SizeResult::Retryable(0);
        },
    };
    if reply.status == 206 {
        match &reply.content_range {
            Some(header) => match parse_content_range(header.as_str()) {
                Some(total) => if total != 0 {
                    SizeResult::Known(total)
                } else {
                    SizeResult::Stream
                },
                None => SizeResult::Stream,
            },
            None => SizeResult::Retryable(0),
        }
    } else if reply.status == 200 {
        match reply.content_length {
            Some(len) => if len != 0 {
                SizeResult::Known(len)
            } else {
                SizeResult::Stream
            },
            None => SizeResult::Stream,
        }
    } else if reply.status == 429 || reply.status == 503 || reply.status == 504 {
        SizeResult::Retryable(reply.status)
    } else {
        SizeResult::PermanentFail
    }
}

impl SupervisorState {
    /// Whether a message can be taken in now.
    pub fn accepts(&self, message: &SupervisorMessage) -> (r: bool)
        ensures
            r == message_fits(self@, *message),
    {
        let n: usize = self.files.len();
        let held = self.permit_count > 0 && self.retry_queue_count < usize::MAX;
        match message {
            SupervisorMessage::ProcessPermit { .. } => self.permit_count > 0,
            SupervisorMessage::SpawnWorker => self.permit_count > 0 && self.active_downloads
                < usize::MAX && self.active_metadata_requests < usize::MAX,
            SupervisorMessage::MetadataFetched { result, .. } => held
                && self.active_metadata_requests > 0 && match result {
                SizeResult::Known(size) => is_trackable(*size),
                _ => true,
            },
            SupervisorMessage::StreamSuccess { size, .. } => held && self.active_downloads > 0
                && is_trackable(*size),
            SupervisorMessage::StreamFailed { .. } => held && self.active_downloads > 0,
            SupervisorMessage::RangeSuccess { file_id, start, end } => held
                && self.active_downloads > 0 && (*file_id >= n || (*start <= *end && *end
                <= self.files[*file_id].blocks.len())),
            SupervisorMessage::RangeFailed { .. } => held && self.active_downloads > 0,
            SupervisorMessage::RetryReady { .. } => self.retry_queue_count > 0,
            SupervisorMessage::Pause => true,
            SupervisorMessage::Tick => true,
        }
    }
}

} // verus!
