//! How a range of a file is fetched.

use std::collections::VecDeque;

use vstd::prelude::*;
use vstd::string::StringExecFns;
use crate::client_state_manager::FileUpdate;
use crate::download::hosts::chunk_hasher::ChunkHasher;
#[allow(unused_imports)]
use crate::download::hosts::chunk_hasher::are_chunk_digests;
use crate::download::hosts::failures::{
    is_client_error, is_server_error, DownloadError, RangeDownloadError,
};
#[allow(unused_imports)]
use crate::download::hosts::failures::{spec_is_client_error, spec_is_server_error};
use crate::download::hosts::jobs::RangeJob;
use crate::download::items::FileId;
use crate::download::supervisor::BLOCK_SIZE;
#[allow(unused_imports)]
use crate::utils::numbers::decimal;
use crate::utils::numbers::push_decimal;

verus! {

/// How many bytes are fetched, at least, before a client is told.
pub const CHANNEL_UPDATE_THRESHOLD: u64 = 131072;

/// How many bytes are gathered before they are written.
pub const BUFFER_CAPACITY: usize = 1048576;

/// How many writes may be under way at once.
pub const MAX_IN_FLIGHT: usize = 4;

/// The bytes that a range job asks for: the first, and the last.
pub open spec fn asked_bytes(start_block: usize, expected_bytes: u64) -> (int, int) {
    let first = start_block * BLOCK_SIZE;
    (
        first,
        first + if expected_bytes > 0 {
            expected_bytes - 1
        } else {
            0
        },
    )
}

/// The bytes that a job asks for: the first, and the last.
pub fn byte_range<C>(job: &RangeJob<C>) -> (r: (u64, u64))
    requires
        asked_bytes(job.range.start, job.expected_bytes).1 <= u64::MAX,
    ensures
        (r.0 as int, r.1 as int) == asked_bytes(job.range.start, job.expected_bytes),
{
    let first: u64 = job.range.start as u64 * BLOCK_SIZE as u64;
    (first, first + job.expected_bytes.saturating_sub(1))
}

/// The header that asks for a range of bytes.
pub fn range_header(first: u64, last: u64) -> (r: String)
    ensures
        r@ == "bytes="@ + decimal(first as nat) + "-"@ + decimal(last as nat),
{
    let mut s = "bytes=".to_owned();
    push_decimal(&mut s, first);
    s.append("-");
    push_decimal(&mut s, last);
    s
}

/// What to make of the answer to a range of bytes. A server that sends the whole
/// file will do if that is what was asked for.
pub open spec fn range_verdict(
    status: u16,
    content_length: Option<u64>,
    retry_after: Option<u64>,
    first: u64,
    last: u64,
) -> Result<(), RangeDownloadError> {
    if status == 429 {
        Err(RangeDownloadError::Download(DownloadError::RateLimited(retry_after)))
    } else if spec_is_server_error(status) {
        Err(RangeDownloadError::Download(DownloadError::ServerError(status)))
    } else if spec_is_client_error(status) {
        Err(RangeDownloadError::Download(DownloadError::ClientError(status)))
    } else if status == 200 {
        if first == 0 && (content_length matches Some(n) ==> n == last + 1) {
            Ok(())
        } else {
            Err(RangeDownloadError::RangeNotSupported)
        }
    } else if status == 206 {
        Ok(())
    } else {
        Err(RangeDownloadError::UnexpectedStatus(status))
    }
}

/// What to make of the answer to a range of bytes.
pub fn judge_range_response(
    status: u16,
    content_length: Option<u64>,
    retry_after: Option<u64>,
    first: u64,
    last: u64,
) -> (r: Result<(), RangeDownloadError>)
    ensures
        r == range_verdict(status, content_length, retry_after, first, last),
{
    if status == 429 {
        return Err(RangeDownloadError::Download(DownloadError::RateLimited(retry_after)));
    }
    if is_server_error(status) {
        return Err(RangeDownloadError::Download(DownloadError::ServerError(status)));
    }
    if is_client_error(status) {
        return Err(RangeDownloadError::Download(DownloadError::ClientError(status)));
    }
    if status == 200 {
        if first != 0 {
            return Err(RangeDownloadError::RangeNotSupported);
        }
        if let Some(n) = content_length {
            if n == 0 || n - 1 != last {
                return Err(RangeDownloadError::RangeNotSupported);
            }
        }
        return Ok(());
    }
    if status == 206 {
        Ok(())
    } else {
        Err(RangeDownloadError::UnexpectedStatus(status))
    }
}

/// What to make of the answer when a whole file was asked for.
pub open spec fn stream_verdict(status: u16, retry_after: Option<u64>) -> Result<
    (),
    DownloadError,
> {
    if status == 429 {
        Err(DownloadError::RateLimited(retry_after))
    } else if spec_is_server_error(status) {
        Err(DownloadError::ServerError(status))
    } else if spec_is_client_error(status) {
        Err(DownloadError::ClientError(status))
    } else {
        Ok(())
    }
}

/// What to make of the answer when a whole file was asked for.
pub fn judge_stream_response(status: u16, retry_after: Option<u64>) -> (r: Result<
    (),
    DownloadError,
>)
    ensures
        r == stream_verdict(status, retry_after),
{
    if status == 429 {
        Err(DownloadError::RateLimited(retry_after))
    } else if is_server_error(status) {
        Err(DownloadError::ServerError(status))
    } else if is_client_error(status) {
        Err(DownloadError::ClientError(status))
    } else {
        Ok(())
    }
}

/// What one worker has added to the progress of its file. It is taken back unless
/// the worker completes its range.
pub struct RangeProgress {
    pub local_bytes_downloaded: u64,
    pub completed: bool,
}

impl RangeProgress {
    /// The progress of the file once the worker has ended.
    pub open spec fn closed(self, file_progress: int) -> int {
        if self.completed {
            file_progress
        } else {
            file_progress - self.local_bytes_downloaded
        }
    }

    /// Nothing added yet.
    pub fn new() -> (r: Self)
        ensures
            r == (RangeProgress { local_bytes_downloaded: 0, completed: false }),
    {
        RangeProgress { local_bytes_downloaded: 0, completed: false }
    }

    /// Adds bytes to the progress of the file, and tells what it is then.
    pub fn add(&mut self, file_progress: &mut u64, bytes: u64) -> (r: u64)
        requires
            *old(file_progress) + bytes <= u64::MAX,
            old(self).local_bytes_downloaded + bytes <= u64::MAX,
        ensures
            *final(file_progress) == *old(file_progress) + bytes,
            r == *final(file_progress),
            *final(self) == (RangeProgress {
                local_bytes_downloaded: (old(self).local_bytes_downloaded + bytes) as u64,
                ..*old(self)
            }),
    {
        self.local_bytes_downloaded = self.local_bytes_downloaded + bytes;
        *file_progress = *file_progress + bytes;
        *file_progress
    }

    /// The range is complete, and what was added stays.
    pub fn complete(&mut self)
        ensures
            *final(self) == (RangeProgress { completed: true, ..*old(self) }),
    {
        self.completed = true;
    }

    /// The worker ends. What it added goes, unless the range is complete.
    pub fn close(&self, file_progress: &mut u64)
        requires
            self.local_bytes_downloaded <= *old(file_progress),
        ensures
            *final(file_progress) == self.closed(*old(file_progress) as int),
    {
        if !self.completed && self.local_bytes_downloaded > 0 {
            *file_progress = *file_progress - self.local_bytes_downloaded;
        }
    }
}

/// Bytes to be written at a place in a file.
pub struct WriteRequest {
    pub offset: u64,
    pub data: Vec<u8>,
}

/// What is to be done after bytes came in.
pub struct Received {
    /// What is to be written, if anything is.
    pub write: Option<WriteRequest>,
    /// Whether the oldest write has to end before more bytes are taken.
    pub wait: bool,
}

/// The work on one range.
pub struct RangeWorker {
    file_id: FileId,
    expected_bytes: u64,
    start: Ghost<nat>,
    previous: Ghost<nat>,
    buffer: Vec<u8>,
    buffer_start: u64,
    received: u64,
    skip: u64,
    in_flight: VecDeque<u64>,
    progress: RangeProgress,
    unnotified: u64,
    shown: u64,
    hasher: ChunkHasher,
}

/// The work on one range, in mathematical values.
pub struct WorkerModel {
    pub file_id: FileId,
    /// The place of the range in the file.
    pub start: nat,
    /// How many bytes the range has.
    pub expected: nat,
    /// How many of them were counted as on disk before.
    pub previous: nat,
    /// The bytes that came in.
    pub data: Seq<u8>,
    /// How many of the last of them have not been handed on for writing.
    pub buffered: nat,
    /// The lengths of the writes that have not ended, the oldest first.
    pub in_flight: Seq<u64>,
    /// How many bytes have been added since a client was told.
    pub unnotified: nat,
    /// The progress of the file when bytes were last added.
    pub shown: nat,
    /// Whether the range is complete.
    pub completed: bool,
}

/// The sum of some lengths.
pub open spec fn total(lengths: Seq<u64>) -> nat
    decreases lengths.len(),
{
    if lengths.len() == 0 {
        0
    } else {
        lengths[0] as nat + total(lengths.drop_first())
    }
}

proof fn lemma_total_push(lengths: Seq<u64>, n: u64)
    ensures
        total(lengths.push(n)) == total(lengths) + n,
    decreases lengths.len(),
{
    if lengths.len() == 0 {
        assert(lengths.push(n).drop_first() =~= Seq::<u64>::empty());
        assert(total(Seq::<u64>::empty()) == 0);
    } else {
        assert(lengths.push(n).drop_first() =~= lengths.drop_first().push(n));
        lemma_total_push(lengths.drop_first(), n);
    }
}

impl WorkerModel {
    /// How many bytes are on disk.
    pub open spec fn written(self) -> int {
        self.data.len() - self.buffered - total(self.in_flight)
    }

    /// How many bytes have been added to the progress of the file: those on disk,
    /// apart from as many as were counted before.
    pub open spec fn added(self) -> nat {
        if self.written() > self.previous {
            (self.written() - self.previous) as nat
        } else {
            0
        }
    }

    /// What becomes of the work when bytes come in.
    pub open spec fn receive(self, chunk: Seq<u8>) -> WorkerModel {
        let gathered = self.buffered + chunk.len();
        WorkerModel {
            data: self.data + chunk,
            buffered: if gathered >= BUFFER_CAPACITY {
                0
            } else {
                gathered
            },
            in_flight: if gathered >= BUFFER_CAPACITY {
                self.in_flight.push(gathered as u64)
            } else {
                self.in_flight
            },
            ..self
        }
    }

    /// What becomes of the work when what was gathered is handed on.
    pub open spec fn flush(self) -> WorkerModel {
        if self.buffered > 0 {
            WorkerModel {
                buffered: 0,
                in_flight: self.in_flight.push(self.buffered as u64),
                ..self
            }
        } else {
            self
        }
    }

    /// Whether what is written is all that was gathered, where it belongs.
    pub open spec fn hands_on(self, before: WorkerModel, write: WriteRequest) -> bool {
        let from = before.data.len() - before.buffered;
        &&& write.offset == before.start + from
        &&& write.data@ == self.data.subrange(from, self.data.len() as int)
    }

    /// What becomes of the work when the oldest write ends.
    pub open spec fn acknowledge(self, file_progress: nat, notify: bool) -> WorkerModel {
        let after = WorkerModel { in_flight: self.in_flight.drop_first(), ..self };
        let added = (after.added() - self.added()) as nat;
        if added == 0 {
            after
        } else {
            let unnotified = self.unnotified + added;
            WorkerModel {
                shown: file_progress + added,
                unnotified: if notify && unnotified >= CHANNEL_UPDATE_THRESHOLD {
                    0
                } else {
                    unnotified
                },
                ..after
            }
        }
    }
}

impl View for RangeWorker {
    type V = WorkerModel;

    closed spec fn view(&self) -> WorkerModel {
        WorkerModel {
            file_id: self.file_id,
            start: self.start@,
            expected: self.expected_bytes as nat,
            previous: self.previous@,
            data: self.hasher@,
            buffered: self.buffer@.len(),
            in_flight: self.in_flight@,
            unnotified: self.unnotified as nat,
            shown: self.shown as nat,
            completed: self.progress.completed,
        }
    }
}

fn push_all(buffer: &mut Vec<u8>, chunk: &[u8])
    ensures
        final(buffer)@ == old(buffer)@ + chunk@,
{
    let n: usize = chunk.len();
    let mut i: usize = 0;
    assert(buffer@ + chunk@.take(0) =~= buffer@);
    while i < n
        invariant
            n == chunk@.len(),
            i <= n,
            buffer@ == old(buffer)@ + chunk@.take(i as int),
        decreases n - i,
    {
        buffer.push(chunk[i]);
        i += 1;
        assert(buffer@ =~= old(buffer)@ + chunk@.take(i as int));
    }
    assert(chunk@.take(n as int) =~= chunk@);
}

impl RangeWorker {
    /// The numbers agree with each other.
    pub closed spec fn wf(&self) -> bool {
        let m = self@;
        &&& self.hasher.wf()
        &&& self.buffer@.len() <= m.data.len()
        &&& self.buffer@ == m.data.subrange(m.data.len() - m.buffered, m.data.len() as int)
        &&& self.buffer_start == m.start + m.data.len() - m.buffered
        &&& self.received as nat == m.data.len()
        &&& m.written() >= 0
        &&& self.skip == if m.written() < m.previous {
            m.previous - m.written()
        } else {
            0
        }
        &&& self.progress.local_bytes_downloaded as nat == m.added()
        &&& m.unnotified <= m.added()
    }

    /// Begins with a range of `expected_bytes` bytes at `start` in its file, of
    /// which `previously_downloaded` were counted as on disk.
    pub fn new(file_id: FileId, start: u64, expected_bytes: u64, previously_downloaded: u64) -> (r:
        Self)
        ensures
            r.wf(),
            r@ == (WorkerModel {
                file_id,
                start: start as nat,
                expected: expected_bytes as nat,
                previous: previously_downloaded as nat,
                data: Seq::empty(),
                buffered: 0,
                in_flight: Seq::empty(),
                unnotified: 0,
                shown: 0,
                completed: false,
            }),
    {
        let r = RangeWorker {
            file_id,
            expected_bytes,
            start: Ghost(start as nat),
            previous: Ghost(previously_downloaded as nat),
            buffer: Vec::new(),
            buffer_start: start,
            received: 0,
            skip: previously_downloaded,
            in_flight: VecDeque::new(),
            progress: RangeProgress::new(),
            unnotified: 0,
            shown: 0,
            hasher: ChunkHasher::new(),
        };
        assert(total(Seq::<u64>::empty()) == 0);
        assert(r.buffer@ =~= r@.data.subrange(0, 0));
        r
    }

    /// Takes bytes in. They are handed on for writing once enough are gathered.
    pub fn receive(&mut self, chunk: &[u8]) -> (r: Received)
        requires
            old(self).wf(),
            old(self)@.start + old(self)@.data.len() + chunk@.len() <= u64::MAX,
        ensures
            final(self).wf(),
            final(self)@ == old(self)@.receive(chunk@),
            match r.write {
                Some(write) => old(self)@.buffered + chunk@.len() >= BUFFER_CAPACITY && final(self)@.hands_on(old(self)@, write),
                None => old(self)@.buffered + chunk@.len() < BUFFER_CAPACITY,
            },
            r.wait == (r.write.is_some() && final(self)@.in_flight.len() >= MAX_IN_FLIGHT),
    {
        let ghost before = self@;
        push_all(&mut self.buffer, chunk);
        self.hasher.update(chunk);
        self.received = self.received + chunk.len() as u64;
        let ghost data = self.hasher@;
        assert(self.buffer@ =~= data.subrange(data.len() - self.buffer@.len(), data.len() as int));
        if self.buffer.len() < BUFFER_CAPACITY {
            return Received { write: None, wait: false };
        }
        let mut full: Vec<u8> = Vec::new();
        std::mem::swap(&mut full, &mut self.buffer);
        let len: u64 = full.len() as u64;
        let write = WriteRequest { offset: self.buffer_start, data: full };
        self.buffer_start = self.buffer_start + len;
        proof {
            lemma_total_push(self.in_flight@, len);
        }
        self.in_flight.push_back(len);
        let wait = self.in_flight.len() >= MAX_IN_FLIGHT;
        assert(self.buffer@ =~= data.subrange(data.len() as int, data.len() as int));
        Received { write: Some(write), wait }
    }

    /// No more bytes come: hands on what is left.
    pub fn flush(&mut self) -> (r: Option<WriteRequest>)
        requires
            old(self).wf(),
            old(self)@.start + old(self)@.data.len() <= u64::MAX,
        ensures
            final(self).wf(),
            final(self)@ == old(self)@.flush(),
            match r {
                Some(write) => old(self)@.buffered > 0 && final(self)@.hands_on(old(self)@, write),
                None => old(self)@.buffered == 0,
            },
    {
        if self.buffer.len() == 0 {
            return None;
        }
        let ghost data = self.hasher@;
        let mut full: Vec<u8> = Vec::new();
        std::mem::swap(&mut full, &mut self.buffer);
        let len: u64 = full.len() as u64;
        let write = WriteRequest { offset: self.buffer_start, data: full };
        self.buffer_start = self.buffer_start + len;
        proof {
            lemma_total_push(self.in_flight@, len);
        }
        self.in_flight.push_back(len);
        assert(self.buffer@ =~= data.subrange(data.len() as int, data.len() as int));
        Some(write)
    }

    /// The oldest write has ended: what it wrote is added to the progress of the
    /// file, unless it was counted before. A client is told once enough was added, if
    /// it should be told.
    pub fn acknowledge(&mut self, file_progress: &mut u64, notify: bool) -> (r: Option<FileUpdate>)
        requires
            old(self).wf(),
            old(self)@.in_flight.len() > 0,
            *old(file_progress) + old(self)@.in_flight[0] <= u64::MAX,
        ensures
            final(self).wf(),
            final(self)@ == old(self)@.acknowledge(*old(file_progress) as nat, notify),
            *final(file_progress) == *old(file_progress) + final(self)@.added() - old(self)@.added(),
            r == if notify && final(self)@.added() > old(self)@.added() && old(self)@.unnotified
                + final(self)@.added() - old(self)@.added() >= CHANNEL_UPDATE_THRESHOLD {
                Some(
                    FileUpdate::BytesDownloaded {
                        id: old(self)@.file_id,
                        len: *final(file_progress),
                    },
                )
            } else {
                None
            },
    {
        let ghost before = self@;
        let written: u64 = match self.in_flight.pop_front() {
            Some(written) => written,
            None => {
                return None;
            },
        };
        assert(self.in_flight@ =~= before.in_flight.drop_first());
        assert(total(before.in_flight) == written + total(self.in_flight@));
        let mut reportable: u64 = written;
        if self.skip > 0 {
            let skipped: u64 = if reportable < self.skip {
                reportable
            } else {
                self.skip
            };
            self.skip = self.skip - skipped;
            reportable = reportable - skipped;
        }
        let ghost after = WorkerModel { in_flight: before.in_flight.drop_first(), ..before };
        assert(after.written() == before.written() + written);
        assert(after.added() == before.added() + reportable);
        if reportable > 0 {
            self.shown = self.progress.add(file_progress, reportable);
            self.unnotified = self.unnotified + reportable;
            if notify && self.unnotified >= CHANNEL_UPDATE_THRESHOLD {
                self.unnotified = 0;
                return Some(FileUpdate::BytesDownloaded { id: self.file_id, len: self.shown });
            }
        }
        None
    }

    /// All writes have ended: what a client is still to be told, and the digests of
    /// the range if it is complete.
    pub fn finish(self) -> (r: (Option<FileUpdate>, RangeProgress, Result<
        Vec<[u8; 16]>,
        RangeDownloadError,
    >))
        requires
            self.wf(),
        ensures
            r.0 == if self@.unnotified > 0 {
                Some(
                    FileUpdate::BytesDownloaded { id: self@.file_id, len: self@.shown as u64 },
                )
            } else {
                None
            },
            r.1.local_bytes_downloaded as nat == self@.added(),
            r.1.completed == (self@.completed || self@.data.len() == self@.expected),
            match r.2 {
                Ok(hashes) => self@.data.len() == self@.expected && are_chunk_digests(
                    hashes@,
                    self@.data,
                ),
                Err(error) => self@.data.len() != self@.expected && error
                    == RangeDownloadError::UnexpectedLength(
                    self@.data.len() as u64,
                    self@.expected as u64,
                ),
            },
    {
        let update = if self.unnotified > 0 {
            Some(FileUpdate::BytesDownloaded { id: self.file_id, len: self.shown })
        } else {
            None
        };
        let hashes = self.hasher.finish();
        let mut progress = self.progress;
        if self.received != self.expected_bytes {
            return (
                update,
                progress,
                Err(RangeDownloadError::UnexpectedLength(self.received, self.expected_bytes)),
            );
        }
        progress.complete();
        (update, progress, Ok(hashes))
    }

    /// Gives the work up: what was added to the progress of the file.
    pub fn abandon(self) -> (r: RangeProgress)
        requires
            self.wf(),
        ensures
            r.local_bytes_downloaded as nat == self@.added(),
            r.completed == self@.completed,
    {
        self.progress
    }
}

/// A worker that does not complete its range leaves the progress of the file as if
/// it had never been: whatever others made of it stays, and what it added goes.
pub proof fn law_failed_range_counts_for_nothing(progress: RangeProgress, others: int)
    requires
        !progress.completed,
    ensures
        progress.closed(others + progress.local_bytes_downloaded) == others,
{
}

/// Once a complete range is on disk, it has added to the progress of its file what
/// was missing, and no byte twice.
pub proof fn law_complete_range_counts_once(m: WorkerModel)
    requires
        m.data.len() == m.expected,
        m.buffered == 0,
        m.in_flight.len() == 0,
        m.previous <= m.expected,
    ensures
        m.previous + m.added() == m.expected,
{
}

/// What is written follows what was written before, without a gap: the next write
/// begins where this one ends.
pub proof fn law_writes_follow_each_other(m: WorkerModel, chunk: Seq<u8>, write: WriteRequest)
    requires
        m.buffered <= m.data.len(),
        m.buffered + chunk.len() >= BUFFER_CAPACITY,
        m.receive(chunk).hands_on(m, write),
    ensures
        ({
            let after = m.receive(chunk);
            after.start + (after.data.len() - after.buffered) == write.offset + write.data@.len()
        }),
{
}

} // verus!
