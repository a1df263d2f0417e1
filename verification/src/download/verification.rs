//! Comparing a download with what is on disk.

use std::collections::HashSet;

use vstd::prelude::*;
use vstd::slice::slice_subrange;
use crate::download::error::FileFailureReason;
#[allow(unused_imports)]
use crate::download::fetched::{broken, lies_in};
#[allow(unused_imports)]
use crate::download::hosts::chunk_hasher::{are_chunk_digests, chunk_at};
use crate::download::hosts::failures::IoErrorKind;
#[allow(unused_imports)]
use crate::download::items::FileModel;
use crate::download::items::{
    ActiveOperation, ChangedItemOperation, ChangedItemStatus, DownloadId, FileDownload, FileId,
    FileSize, FolderId,
};
#[allow(unused_imports)]
use crate::download::operations::spec_set_active_operation;
#[allow(unused_imports)]
use crate::download::ranges::{
    law_ranges_cover_what_is_missing, ranges_from,
};
use crate::download::status::FileStatus;
#[allow(unused_imports)]
use crate::download::supervisor::with_file_at;
use crate::download::supervisor::HASH_CHUNK_SIZE;
#[allow(unused_imports)]
use crate::download::tables::{find_file, unique_files};
use crate::download::tree::Download;
#[allow(unused_imports)]
use crate::download::tree::{
    countable, keeps_count, lemma_count_less, lemma_set_status_keeps_count, spec_set_file_status,
    DownloadModel,
};
#[allow(unused_imports)]
use crate::download::tree_laws::{
    law_set_file_status_sets_one_file, lemma_found_file, lemma_replaced_keeps_count,
    lemma_same_tree, tree_ok,
};
#[allow(unused_imports)]
use crate::utils::hashing::blake3_digest;
use crate::utils::hashing::digest_of;

verus! {

broadcast use vstd::std_specs::hash::group_hash_axioms;

/// What was found of a file: another state, and chunks that are broken.
pub struct FileVerificationDiff {
    pub file_id: FileId,
    pub new_status: Option<FileStatus>,
    pub failed_chunks: Option<Vec<usize>>,
}

/// How a file is compared with what is on disk.
#[derive(Debug, Clone, Copy, PartialEq, Eq, Structural)]
pub enum FileCheck {
    /// It has to be on disk and is not.
    Missing,
    /// Its contents have to match its digest.
    Whole,
    /// The contents of its chunks, in so many bytes, have to match theirs.
    Chunks(u64),
    /// There is nothing to compare.
    Nothing,
}

/// What came of reading a whole file.
#[derive(Debug, Clone, Copy, PartialEq, Eq, Structural)]
pub enum WholeOutcome {
    Hash(u128),
    ReadError,
    /// The reading was cancelled or broke down.
    TaskError,
}

/// What came of reading the chunks of a file.
pub enum ChunksOutcome {
    /// The chunks that are broken.
    Broken(Vec<usize>),
    NotFound,
    ReadError,
    /// The reading was cancelled or broke down.
    TaskError,
}

/// How a file is compared with what is on disk.
pub open spec fn check_of(f: FileModel, exists_on_disk: bool) -> FileCheck {
    if FileDownload::status_needs_file(f.status) && !exists_on_disk {
        FileCheck::Missing
    } else if f.status is Completed {
        FileCheck::Whole
    } else {
        match f.size {
            Some(FileSize::Known(size)) => if f.chunk_hashes.len() > 0 {
                FileCheck::Chunks(size)
            } else {
                FileCheck::Nothing
            },
            _ => FileCheck::Nothing,
        }
    }
}

/// The state of a file whose contents were read.
pub open spec fn whole_status(f: FileModel, outcome: WholeOutcome) -> Option<FileStatus> {
    match outcome {
        WholeOutcome::Hash(hash) => if Some(hash) == f.hash {
            None
        } else {
            Some(FileStatus::Failed(FileFailureReason::HashMismatch))
        },
        WholeOutcome::ReadError => Some(FileStatus::Failed(FileFailureReason::DiskError)),
        WholeOutcome::TaskError => Some(FileStatus::Failed(FileFailureReason::ClientError)),
    }
}

/// The state of a file whose chunks were read.
pub open spec fn chunks_status(outcome: ChunksOutcome) -> Option<FileStatus> {
    match outcome {
        ChunksOutcome::Broken(_) => None,
        ChunksOutcome::NotFound => Some(FileStatus::NotFound),
        ChunksOutcome::ReadError => Some(FileStatus::Failed(FileFailureReason::DiskError)),
        ChunksOutcome::TaskError => Some(FileStatus::Failed(FileFailureReason::ClientError)),
    }
}

/// What was found of a file that gets another state, if it does.
pub open spec fn status_diff(id: FileId, status: Option<FileStatus>) -> Option<
    FileVerificationDiff,
> {
    match status {
        Some(_) => Some(
            FileVerificationDiff { file_id: id, new_status: status, failed_chunks: None },
        ),
        None => None,
    }
}

/// What was read of a file.
pub enum FileReading {
    Nothing,
    Whole(WholeOutcome),
    Chunks(ChunksOutcome),
}

/// What was seen of a file on disk.
pub struct DiskFinding {
    pub exists: bool,
    pub reading: FileReading,
}

/// Whether a file was read as it has to be.
pub open spec fn read_as_due(f: FileModel, finding: DiskFinding) -> bool {
    match check_of(f, finding.exists) {
        FileCheck::Whole => finding.reading is Whole,
        FileCheck::Chunks(_) => finding.reading is Chunks,
        _ => true,
    }
}

/// What was found of a file whose chunks were read.
pub open spec fn chunks_diff(id: FileId, outcome: ChunksOutcome) -> Option<FileVerificationDiff> {
    match outcome {
        ChunksOutcome::Broken(chunks) => if chunks@.len() > 0 {
            Some(
                FileVerificationDiff {
                    file_id: id,
                    new_status: None,
                    failed_chunks: Some(chunks),
                },
            )
        } else {
            None
        },
        _ => status_diff(id, chunks_status(outcome)),
    }
}

/// What follows for a file from what was seen on disk.
pub open spec fn diff_of(f: FileModel, finding: DiskFinding) -> Option<FileVerificationDiff> {
    match check_of(f, finding.exists) {
        FileCheck::Missing => status_diff(f.id, Some(FileStatus::NotFound)),
        FileCheck::Whole => status_diff(f.id, whole_status(f, finding.reading->Whole_0)),
        FileCheck::Chunks(_) => chunks_diff(f.id, finding.reading->Chunks_0),
        FileCheck::Nothing => None,
    }
}

/// What follows for the first `n` files from what was seen of each, in order.
pub open spec fn diffs_of(files: Seq<FileModel>, findings: Seq<DiskFinding>, n: nat) -> Seq<
    FileVerificationDiff,
>
    decreases n,
{
    if n == 0 {
        Seq::empty()
    } else {
        let before = diffs_of(files, findings, (n - 1) as nat);
        match diff_of(files[n - 1], findings[n - 1]) {
            Some(diff) => before.push(diff),
            None => before,
        }
    }
}

impl FileDownload {
    /// How the file is compared with what is on disk.
    pub fn check(&self, exists_on_disk: bool) -> (r: FileCheck)
        ensures
            r == check_of(self@, exists_on_disk),
    {
        if self.must_exist_in_disk() && !exists_on_disk {
            return FileCheck::Missing;
        }
        if self.status == FileStatus::Completed {
            return FileCheck::Whole;
        }
        match self.size {
            Some(FileSize::Known(size)) => {
                if self.chunk_hashes.len() > 0 {
                    FileCheck::Chunks(size)
                } else {
                    FileCheck::Nothing
                }
            },
            _ => FileCheck::Nothing,
        }
    }

    /// What was found of a file that is missing.
    pub fn found_missing(&self) -> (r: Option<FileVerificationDiff>)
        ensures
            r == status_diff(self@.id, Some(FileStatus::NotFound)),
    {
        Some(
            FileVerificationDiff {
                file_id: self.id,
                new_status: Some(FileStatus::NotFound),
                failed_chunks: None,
            },
        )
    }

    /// What was found of a file whose contents were read.
    pub fn found_whole(&self, outcome: WholeOutcome) -> (r: Option<FileVerificationDiff>)
        ensures
            r == status_diff(self@.id, whole_status(self@, outcome)),
    {
        let new_status = match outcome {
            WholeOutcome::Hash(hash) => match self.hash {
                Some(known) => if known == hash {
                    None
                } else {
                    Some(FileStatus::Failed(FileFailureReason::HashMismatch))
                },
                None => Some(FileStatus::Failed(FileFailureReason::HashMismatch)),
            },
            WholeOutcome::ReadError => Some(FileStatus::Failed(FileFailureReason::DiskError)),
            WholeOutcome::TaskError => Some(FileStatus::Failed(FileFailureReason::ClientError)),
        };
        if new_status.is_some() {
            Some(FileVerificationDiff { file_id: self.id, new_status, failed_chunks: None })
        } else {
            None
        }
    }

    /// What was found of a file whose chunks were read.
    pub fn found_chunks(&self, outcome: ChunksOutcome) -> (r: Option<FileVerificationDiff>)
        ensures
            r == chunks_diff(self@.id, outcome),
    {
        let file_id = self.id;
        let status = match outcome {
            ChunksOutcome::Broken(chunks) => {
                return if chunks.len() > 0 {
                    Some(
                        FileVerificationDiff {
                            file_id,
                            new_status: None,
                            failed_chunks: Some(chunks),
                        },
                    )
                } else {
                    None
                };
            },
            ChunksOutcome::NotFound => FileStatus::NotFound,
            ChunksOutcome::ReadError => FileStatus::Failed(FileFailureReason::DiskError),
            ChunksOutcome::TaskError => FileStatus::Failed(FileFailureReason::ClientError),
        };
        Some(FileVerificationDiff { file_id, new_status: Some(status), failed_chunks: None })
    }

    /// What follows for the file from what was seen on disk.
    pub fn found(&self, finding: DiskFinding) -> (r: Option<FileVerificationDiff>)
        requires
            read_as_due(self@, finding),
        ensures
            r == diff_of(self@, finding),
    {
        match self.check(finding.exists) {
            FileCheck::Missing => self.found_missing(),
            FileCheck::Whole => match finding.reading {
                FileReading::Whole(outcome) => self.found_whole(outcome),
                _ => None,
            },
            FileCheck::Chunks(_) => match finding.reading {
                FileReading::Chunks(outcome) => self.found_chunks(outcome),
                _ => None,
            },
            FileCheck::Nothing => None,
        }
    }
}

/// What follows for a download from what was seen of each of its files.
pub fn verify_download(download: &Download, findings: Vec<DiskFinding>) -> (r: Vec<
    FileVerificationDiff,
>)
    requires
        findings@.len() == download@.files.len(),
        forall|i: int|
            0 <= i < findings@.len() ==> read_as_due(
                download@.files[i],
                #[trigger] findings@[i],
            ),
    ensures
        r@ == diffs_of(download@.files, findings@, findings@.len()),
{
    let mut r: Vec<FileVerificationDiff> = Vec::new();
    let n: usize = findings.len();
    let mut i: usize = 0;
    for finding in iter: findings
        invariant
            iter.seq() == findings@,
            i == iter.index(),
            n == findings@.len(),
            findings@.len() == download@.files.len(),
            forall|i: int|
                0 <= i < findings@.len() ==> read_as_due(
                    download@.files[i],
                    #[trigger] findings@[i],
                ),
            r@ == diffs_of(download@.files, findings@, iter.index() as nat),
    {
        let file = &download.files.items[i];
        assert(file@ == download@.files[i as int]);
        assert(read_as_due(download@.files[i as int], findings@[i as int]));
        if let Some(diff) = file.found(finding) {
            r.push(diff);
        }
        i += 1;
    }
    r
}

/// Whether a chunk is broken: it has a digest, and what is on disk is too short or
/// has another.
pub open spec fn chunk_broken(
    contents: Seq<u8>,
    chunk_size: nat,
    file_len: nat,
    index: int,
    expected: Option<[u8; 16]>,
) -> bool {
    match expected {
        Some(digest) => {
            let from = index * chunk_size;
            let to = if from + chunk_size < file_len {
                from + chunk_size
            } else {
                file_len as int
            };
            !(from <= to <= contents.len() && blake3_digest(contents.subrange(from, to))
                == digest@)
        },
        None => false,
    }
}

/// The places of the broken ones among the first `n` chunks.
pub open spec fn broken_chunks(
    contents: Seq<u8>,
    chunk_size: nat,
    file_len: nat,
    chunks: Seq<Option<[u8; 16]>>,
    n: nat,
) -> Seq<usize>
    decreases n,
{
    if n == 0 {
        Seq::empty()
    } else {
        let before = broken_chunks(contents, chunk_size, file_len, chunks, (n - 1) as nat);
        if chunk_broken(contents, chunk_size, file_len, n - 1, chunks[n - 1]) {
            before.push((n - 1) as usize)
        } else {
            before
        }
    }
}

fn same_digest(a: &[u8; 16], b: &[u8; 16]) -> (r: bool)
    ensures
        r == (a@ == b@),
{
    let mut i: usize = 0;
    while i < 16
        invariant
            i <= 16,
            forall|k: int| 0 <= k < i ==> a@[k] == b@[k],
        decreases 16 - i,
    {
        if a[i] != b[i] {
            assert(a@[i as int] != b@[i as int]);
            return false;
        }
        i += 1;
    }
    assert(a@ =~= b@);
    true
}

/// Whether the chunk at a place is broken.
pub fn check_chunk(
    contents: &[u8],
    chunk_size: usize,
    file_len: usize,
    index: usize,
    expected: &Option<[u8; 16]>,
) -> (r: bool)
    requires
        index * chunk_size + chunk_size <= usize::MAX,
    ensures
        r == chunk_broken(
            contents@,
            chunk_size as nat,
            file_len as nat,
            index as int,
            *expected,
        ),
{
    match expected {
        Some(digest) => {
            let from: usize = index * chunk_size;
            let to: usize = if from + chunk_size < file_len {
                from + chunk_size
            } else {
                file_len
            };
            if from > to || to > contents.len() {
                return true;
            }
            let found = digest_of(slice_subrange(contents, from, to));
            !same_digest(&found, digest)
        },
        None => false,
    }
}

/// Files below this size are read at once, and are not expected to be shorter than they
/// should be.
pub const SMALL_FILE: usize = 16384;

/// Whether a small file is shorter on disk than it should be.
pub open spec fn cut_short(contents: Seq<u8>, file_len: nat) -> bool {
    file_len < SMALL_FILE && contents.len() < file_len
}

/// The places of the broken chunks. A small file that is cut short cannot be read, and
/// before each chunk it is asked whether to go on.
pub fn verify_file_chunks<F: Fn() -> bool>(
    contents: &[u8],
    chunk_size: usize,
    file_len: usize,
    chunks_to_check: &Vec<Option<[u8; 16]>>,
    go_on: F,
) -> (r: Result<Vec<usize>, IoErrorKind>)
    requires
        chunks_to_check@.len() * chunk_size <= usize::MAX,
        go_on.requires(()),
    ensures
        match r {
            Ok(failed) => !cut_short(contents@, file_len as nat) && failed@ == broken_chunks(
                contents@,
                chunk_size as nat,
                file_len as nat,
                chunks_to_check@,
                chunks_to_check@.len(),
            ),
            Err(IoErrorKind::UnexpectedEof) => cut_short(contents@, file_len as nat),
            Err(IoErrorKind::Interrupted) => !cut_short(contents@, file_len as nat)
                && go_on.ensures((), false),
            Err(_) => false,
        },
{
    if file_len < SMALL_FILE && contents.len() < file_len {
        return Err(IoErrorKind::UnexpectedEof);
    }
    let mut failed: Vec<usize> = Vec::new();
    let n: usize = chunks_to_check.len();
    let mut i: usize = 0;
    while i < n
        invariant
            i <= n,
            n == chunks_to_check@.len(),
            n * chunk_size <= usize::MAX,
            go_on.requires(()),
            !cut_short(contents@, file_len as nat),
            failed@ == broken_chunks(
                contents@,
                chunk_size as nat,
                file_len as nat,
                chunks_to_check@,
                i as nat,
            ),
        decreases n - i,
    {
        if !go_on() {
            return Err(IoErrorKind::Interrupted);
        }
        assert(i * chunk_size + chunk_size <= n * chunk_size) by (nonlinear_arith)
            requires
                i < n,
        ;
        if check_chunk(contents, chunk_size, file_len, i, &chunks_to_check[i]) {
            failed.push(i);
        }
        i += 1;
    }
    Ok(failed)
}

/// What becomes of a download by what was found of a file.
pub open spec fn diff_applied(
    d: DownloadModel,
    diff: FileVerificationDiff,
    gone: Seq<FolderId>,
) -> (DownloadModel, Option<Seq<ChangedItemStatus>>) {
    let (stated, changed) = match diff.new_status {
        Some(status) => spec_set_file_status(d, diff.file_id, status, gone),
        None => (d, None),
    };
    let after = match diff.failed_chunks {
        Some(chunks) => match find_file(stated.files, diff.file_id) {
            Some(i) => with_file_at(stated, i, broken(stated.files[i], chunks@)),
            None => stated,
        },
        None => stated,
    };
    (after, changed)
}

/// What becomes of a download by what was found of the first files, one after the
/// other, and what changed.
pub open spec fn diffs_applied(
    d: DownloadModel,
    diffs: Seq<FileVerificationDiff>,
    gone: Seq<FolderId>,
) -> (DownloadModel, Seq<ChangedItemStatus>)
    decreases diffs.len(),
{
    if diffs.len() == 0 {
        (d, Seq::empty())
    } else {
        let before = diffs_applied(d, diffs.drop_last(), gone);
        let one = diff_applied(before.0, diffs.last(), gone);
        (
            one.0,
            before.1 + match one.1 {
                Some(changed) => changed,
                None => Seq::empty(),
            },
        )
    }
}

proof fn lemma_diff_keeps_count(
    d: DownloadModel,
    diff: FileVerificationDiff,
    gone: Seq<FolderId>,
    n: nat,
)
    requires
        keeps_count(d, n + d.folders.len()),
        countable(d.folders),
    ensures
        keeps_count(diff_applied(d, diff, gone).0, n),
        diff_applied(d, diff, gone).0.folders.len() == d.folders.len(),
{
    match diff.new_status {
        Some(status) => {
            lemma_set_status_keeps_count(d, diff.file_id, status, gone, n);
        },
        None => {
            lemma_count_less(d, n + d.folders.len(), n);
        },
    }
    let stated = match diff.new_status {
        Some(status) => spec_set_file_status(d, diff.file_id, status, gone).0,
        None => d,
    };
    if diff.failed_chunks.is_some() && find_file(stated.files, diff.file_id).is_some() {
        lemma_found_file(stated.files, diff.file_id);
        let i = find_file(stated.files, diff.file_id)->0;
        lemma_replaced_keeps_count(stated, i, broken(stated.files[i], (diff.failed_chunks->0)@), n);
    }
}

impl Download {
    /// Takes in what was found of a file. What changed is told.
    pub fn apply_diff(&mut self, diff: &FileVerificationDiff, gone: &Vec<FolderId>) -> (changed:
        Option<Vec<ChangedItemStatus>>)
        requires
            old(self).wf(),
            keeps_count(old(self)@, old(self)@.folders.len()),
        ensures
            final(self).wf(),
            final(self)@ == diff_applied(old(self)@, *diff, gone@).0,
            match changed {
                Some(items) => diff_applied(old(self)@, *diff, gone@).1 == Some(items@),
                None => diff_applied(old(self)@, *diff, gone@).1.is_none(),
            },
            tree_ok(old(self)@) ==> tree_ok(final(self)@),
    {
        let ghost start = self@;
        let changed = match diff.new_status {
            Some(status) => self.set_file_status(diff.file_id, status, gone),
            None => None,
        };
        if let Some(chunks) = &diff.failed_chunks {
            let ghost stated = self@;
            if let Some(i) = self.files.find(diff.file_id) {
                let ghost f = broken(stated.files[i as int], chunks@);
                self.files.items[i].chunks_broken(chunks);
                proof {
                    assert(self@.files =~= stated.files.update(i as int, f));
                    if tree_ok(start) {
                        lemma_same_tree(stated, self@);
                    }
                    assert forall|a: int, b: int|
                        0 <= a < self@.files.len() && 0 <= b < self@.files.len() && (
                        #[trigger] self@.files[a]).id == (
                        #[trigger] self@.files[b]).id implies a == b by {
                        assert(stated.files[a].id == stated.files[b].id);
                    }
                }
            }
        }
        changed
    }

    /// Takes in what was found of some files, in order. What changed is told.
    pub fn apply_diffs(&mut self, diffs: &Vec<FileVerificationDiff>, gone: &Vec<FolderId>) -> (
    changed: Vec<ChangedItemStatus>)
        requires
            old(self).wf(),
            keeps_count(old(self)@, diffs@.len() * old(self)@.folders.len()),
        ensures
            final(self).wf(),
            final(self)@ == diffs_applied(old(self)@, diffs@, gone@).0,
            changed@ == diffs_applied(old(self)@, diffs@, gone@).1,
            tree_ok(old(self)@) ==> tree_ok(final(self)@),
    {
        let ghost start = self@;
        let ghost folders = start.folders.len();
        let mut all: Vec<ChangedItemStatus> = Vec::new();
        let n: usize = diffs.len();
        let mut i: usize = 0;
        assert(diffs@.take(0) =~= Seq::<FileVerificationDiff>::empty());
        while i < n
            invariant
                i <= n,
                n == diffs@.len(),
                self.wf(),
                self@.folders.len() == folders,
                tree_ok(start) ==> tree_ok(self@),
                keeps_count(self@, ((n - i) * folders) as nat),
                self@ == diffs_applied(start, diffs@.take(i as int), gone@).0,
                all@ == diffs_applied(start, diffs@.take(i as int), gone@).1,
            decreases n - i,
        {
            proof {
                let rest = ((n - i - 1) * folders) as nat;
                assert((n - i) * folders == (n - i - 1) * folders + folders) by (nonlinear_arith);
                assert((n - i - 1) * folders >= 0) by (nonlinear_arith)
                    requires
                        i < n,
                ;
                lemma_diff_keeps_count(self@, diffs@[i as int], gone@, rest);
                lemma_count_less(self@, rest + folders, folders);
                assert(diffs@.take(i + 1).drop_last() =~= diffs@.take(i as int));
                assert(diffs@.take(i + 1).last() == diffs@[i as int]);
            }
            let ghost told = all@;
            match self.apply_diff(&diffs[i], gone) {
                Some(mut changed) => {
                    all.append(&mut changed);
                },
                None => {
                    assert(all@ =~= told + Seq::<ChangedItemStatus>::empty());
                },
            }
            i += 1;
        }
        assert(diffs@.take(n as int) =~= diffs@);
        all
    }
}

/// What becomes of a download when its comparison ends: what was found is taken in, and
/// nothing is being done for it any more.
pub open spec fn verified(
    d: DownloadModel,
    diffs: Seq<FileVerificationDiff>,
    gone: Seq<FolderId>,
) -> (DownloadModel, Seq<ChangedItemStatus>, Seq<ChangedItemOperation>) {
    let found = diffs_applied(d, diffs, gone);
    let rested = spec_set_active_operation(found.0, None);
    (rested.0, found.1, rested.1)
}

impl Download {
    /// The download is going to be compared with what is on disk. What changed is told.
    pub fn begin_verification(&mut self) -> (changed: Vec<ChangedItemOperation>)
        requires
            old(self).wf(),
        ensures
            final(self).wf(),
            (final(self)@, changed@) == spec_set_active_operation(
                old(self)@,
                Some(ActiveOperation::Verifying),
            ),
    {
        self.set_active_operation(Some(ActiveOperation::Verifying))
    }

    /// The download has been compared with what is on disk. What changed is told.
    pub fn end_verification(&mut self, diffs: &Vec<FileVerificationDiff>, gone: &Vec<FolderId>) -> (
    r: (Vec<ChangedItemStatus>, Vec<ChangedItemOperation>))
        requires
            old(self).wf(),
            keeps_count(old(self)@, diffs@.len() * old(self)@.folders.len()),
        ensures
            final(self).wf(),
            (final(self)@, r.0@, r.1@) == verified(old(self)@, diffs@, gone@),
            tree_ok(old(self)@) ==> tree_ok(final(self)@),
    {
        let statuses = self.apply_diffs(diffs, gone);
        let operations = self.set_active_operation(None);
        (statuses, operations)
    }
}

/// What the work of comparing is told.
pub enum VerifierMessage {
    VerifyDownload(Download),
    VerificationFinished(DownloadId),
    CancelVerification(DownloadId),
    PauseVerification(DownloadId),
}

/// What is done when the work of comparing is told something.
pub enum VerifierAction {
    /// Show the download, and begin to compare it.
    Begin(Download),
    /// Stop comparing.
    Abort(DownloadId),
    /// Stop comparing, if that is so, and wait until that is done. Then have the
    /// download cleaned up.
    CleanUp { id: DownloadId, abort: bool },
}

/// The downloads that are being compared with what is on disk.
pub struct Verifier {
    running: HashSet<usize>,
}

impl View for Verifier {
    type V = Set<usize>;

    closed spec fn view(&self) -> Set<usize> {
        self.running@
    }
}

/// The downloads that are compared after a message.
pub open spec fn verifier_after(running: Set<usize>, message: VerifierMessage) -> Set<usize> {
    match message {
        VerifierMessage::VerifyDownload(download) => running.insert(download.id.0),
        VerifierMessage::VerificationFinished(id) => running.remove(id.0),
        VerifierMessage::CancelVerification(id) => running.remove(id.0),
        VerifierMessage::PauseVerification(id) => running.remove(id.0),
    }
}

/// What is done about a message. A download that is being compared is not begun again.
pub open spec fn verifier_answer(running: Set<usize>, message: VerifierMessage) -> Option<
    VerifierAction,
> {
    match message {
        VerifierMessage::VerifyDownload(download) => if running.contains(download.id.0) {
            None
        } else {
            Some(VerifierAction::Begin(download))
        },
        VerifierMessage::VerificationFinished(_) => None,
        VerifierMessage::CancelVerification(id) => Some(
            VerifierAction::CleanUp { id, abort: running.contains(id.0) },
        ),
        VerifierMessage::PauseVerification(id) => if running.contains(id.0) {
            Some(VerifierAction::Abort(id))
        } else {
            None
        },
    }
}

impl Verifier {
    /// Nothing is being compared.
    pub fn new() -> (r: Self)
        ensures
            r@ == Set::<usize>::empty(),
    {
        let r = Verifier { running: HashSet::new() };
        assert(r@ =~= Set::<usize>::empty());
        r
    }

    /// Takes a message in.
    pub fn on_message(&mut self, message: VerifierMessage) -> (r: Option<VerifierAction>)
        ensures
            final(self)@ == verifier_after(old(self)@, message),
            r == verifier_answer(old(self)@, message),
    {
        match message {
            VerifierMessage::VerifyDownload(download) => {
                let id: usize = download.id.0;
                if self.running.contains(&id) {
                    assert(self@ =~= self@.insert(id));
                    return None;
                }
                let _ = self.running.insert(id);
                Some(VerifierAction::Begin(download))
            },
            VerifierMessage::VerificationFinished(id) => {
                let _ = self.running.remove(&id.0);
                assert(self@ =~= old(self)@.remove(id.0));
                None
            },
            VerifierMessage::CancelVerification(id) => {
                let abort = self.running.remove(&id.0);
                assert(self@ =~= old(self)@.remove(id.0));
                Some(VerifierAction::CleanUp { id, abort })
            },
            VerifierMessage::PauseVerification(id) => {
                let abort = self.running.remove(&id.0);
                assert(self@ =~= old(self)@.remove(id.0));
                if abort {
                    Some(VerifierAction::Abort(id))
                } else {
                    None
                }
            },
        }
    }
}

/// The downloads that are compared after some more are to be, and those that are begun.
pub open spec fn all_begun(running: Set<usize>, downloads: Seq<Download>) -> (Set<usize>, Seq<
    Download,
>)
    decreases downloads.len(),
{
    if downloads.len() == 0 {
        (running, Seq::empty())
    } else {
        let before = all_begun(running, downloads.drop_last());
        let last = downloads.last();
        if before.0.contains(last.id.0) {
            before
        } else {
            (before.0.insert(last.id.0), before.1.push(last))
        }
    }
}

impl Verifier {
    /// Takes in downloads that are to be compared, one after the other, and gives back
    /// those that are begun: none that is being compared.
    pub fn verify_downloads(&mut self, downloads: Vec<Download>) -> (r: Vec<Download>)
        ensures
            (final(self)@, r@) == all_begun(old(self)@, downloads@),
    {
        let ghost start = self@;
        let mut r: Vec<Download> = Vec::new();
        assert(downloads@.take(0) =~= Seq::<Download>::empty());
        for download in iter: downloads
            invariant
                iter.seq() == downloads@,
                (self@, r@) == all_begun(start, downloads@.take(iter.index() as int)),
        {
            let ghost at = iter.index() as int;
            assert(downloads@.take(at + 1).drop_last() =~= downloads@.take(at));
            assert(downloads@.take(at + 1).last() == downloads@[at]);
            if let Some(VerifierAction::Begin(download)) = self.on_message(
                VerifierMessage::VerifyDownload(download),
            ) {
                r.push(download);
            } else {
                assert(self@ =~= all_begun(start, downloads@.take(at)).0);
            }
        }
        assert(downloads@.take(downloads@.len() as int) =~= downloads@);
        r
    }
}

/// A download is compared once at a time: while it is, it is not begun again.
pub proof fn law_one_comparison_at_a_time(running: Set<usize>, message: VerifierMessage)
    ensures
        verifier_answer(running, message) matches Some(VerifierAction::Begin(download))
            ==> !running.contains(download.id.0) && verifier_after(running, message).contains(
            download.id.0,
        ),
{
}

/// A chunk is among the broken ones if and only if it is broken.
pub proof fn law_broken_chunks_are_found(
    contents: Seq<u8>,
    chunk_size: nat,
    file_len: nat,
    chunks: Seq<Option<[u8; 16]>>,
    n: nat,
    i: usize,
)
    requires
        n <= chunks.len(),
        n <= usize::MAX,
    ensures
        broken_chunks(contents, chunk_size, file_len, chunks, n).contains(i) <==> i < n
            && chunk_broken(contents, chunk_size, file_len, i as int, chunks[i as int]),
    decreases n,
{
    if n > 0 {
        law_broken_chunks_are_found(contents, chunk_size, file_len, chunks, (n - 1) as nat, i);
        let before = broken_chunks(contents, chunk_size, file_len, chunks, (n - 1) as nat);
        crate::utils::text::lemma_contains_push(before, (n - 1) as usize, i);
    }
}

/// What was fetched stands up to being compared: digests that were taken of a file's
/// bytes as they came find nothing broken in the same bytes on disk.
pub proof fn law_fetched_files_verify(
    data: Seq<u8>,
    digests: Seq<[u8; 16]>,
    chunks: Seq<Option<[u8; 16]>>,
    n: nat,
)
    requires
        are_chunk_digests(digests, data),
        chunks.len() == digests.len(),
        forall|i: int| 0 <= i < chunks.len() ==> #[trigger] chunks[i] == Some(digests[i]),
        n <= chunks.len(),
    ensures
        broken_chunks(data, HASH_CHUNK_SIZE as nat, data.len(), chunks, n).len() == 0,
    decreases n,
{
    if n > 0 {
        law_fetched_files_verify(data, digests, chunks, (n - 1) as nat);
        let i = n - 1;
        assert(chunks[i] == Some(digests[i]));
        assert(digests[i]@ == blake3_digest(chunk_at(data, i)));
        assert(HASH_CHUNK_SIZE == 1048576);
        assert(digests.len() == (data.len() + 1048575) / 1048576);
        assert(i * HASH_CHUNK_SIZE < data.len());
    }
}

/// Of a file of which nothing was found amiss nothing changes.
pub proof fn law_sound_files_stay(
    d: DownloadModel,
    diffs: Seq<FileVerificationDiff>,
    gone: Seq<FolderId>,
    k: int,
)
    requires
        unique_files(d.files),
        0 <= k < d.files.len(),
        forall|i: int| 0 <= i < diffs.len() ==> (#[trigger] diffs[i]).file_id != d.files[k].id,
    ensures
        diffs_applied(d, diffs, gone).0.files.len() == d.files.len(),
        diffs_applied(d, diffs, gone).0.files[k] == d.files[k],
{
    lemma_diffs_keep_files(d, diffs, gone);
    lemma_sound_file_stays(d, diffs, gone, k);
}

/// Taking in what was found gives or takes no file.
pub proof fn lemma_diffs_keep_files(
    d: DownloadModel,
    diffs: Seq<FileVerificationDiff>,
    gone: Seq<FolderId>,
)
    requires
        unique_files(d.files),
    ensures
        diffs_applied(d, diffs, gone).0.files.len() == d.files.len(),
        forall|k: int|
            0 <= k < d.files.len() ==> (#[trigger] diffs_applied(d, diffs, gone).0.files[k]).id
                == d.files[k].id,
        unique_files(diffs_applied(d, diffs, gone).0.files),
    decreases diffs.len(),
{
    if diffs.len() > 0 {
        let before = diffs_applied(d, diffs.drop_last(), gone).0;
        lemma_diffs_keep_files(d, diffs.drop_last(), gone);
        lemma_diff_keeps_files(before, diffs.last(), gone);
        let after = diffs_applied(d, diffs, gone).0;
        assert forall|i: int, j: int|
            0 <= i < after.files.len() && 0 <= j < after.files.len() && (
            #[trigger] after.files[i]).id == (#[trigger] after.files[j]).id implies i == j by {
            assert(before.files[i].id == before.files[j].id);
        }
    }
}

/// Taking in what was found of one file leaves the others alone.
pub proof fn lemma_diff_keeps_files(
    d: DownloadModel,
    diff: FileVerificationDiff,
    gone: Seq<FolderId>,
)
    requires
        unique_files(d.files),
    ensures
        diff_applied(d, diff, gone).0.files.len() == d.files.len(),
        forall|k: int|
            0 <= k < d.files.len() ==> (#[trigger] diff_applied(d, diff, gone).0.files[k]).id
                == d.files[k].id,
        forall|k: int|
            0 <= k < d.files.len() && d.files[k].id != diff.file_id ==> #[trigger] diff_applied(
                d,
                diff,
                gone,
            ).0.files[k] == d.files[k],
{
    let stated = match diff.new_status {
        Some(status) => spec_set_file_status(d, diff.file_id, status, gone).0,
        None => d,
    };
    if diff.new_status.is_some() {
        law_set_file_status_sets_one_file(d, diff.file_id, diff.new_status->0, gone);
    }
    if diff.failed_chunks.is_some() && find_file(stated.files, diff.file_id).is_some() {
        lemma_found_file(stated.files, diff.file_id);
    }
}

proof fn lemma_sound_file_stays(
    d: DownloadModel,
    diffs: Seq<FileVerificationDiff>,
    gone: Seq<FolderId>,
    k: int,
)
    requires
        unique_files(d.files),
        0 <= k < d.files.len(),
        forall|i: int| 0 <= i < diffs.len() ==> (#[trigger] diffs[i]).file_id != d.files[k].id,
    ensures
        diffs_applied(d, diffs, gone).0.files[k] == d.files[k],
    decreases diffs.len(),
{
    if diffs.len() > 0 {
        let fewer = diffs.drop_last();
        assert(forall|i: int| 0 <= i < fewer.len() ==> #[trigger] fewer[i] == diffs[i]);
        lemma_sound_file_stays(d, fewer, gone, k);
        lemma_diffs_keep_files(d, fewer, gone);
        let before = diffs_applied(d, fewer, gone).0;
        lemma_diff_keeps_files(before, diffs.last(), gone);
        assert(diffs[diffs.len() - 1].file_id != d.files[k].id);
    }
}

/// Of a download that is on disk as it should be nothing is found amiss.
pub proof fn law_sound_downloads_pass(
    files: Seq<FileModel>,
    findings: Seq<DiskFinding>,
    n: nat,
)
    requires
        n <= files.len(),
        n <= findings.len(),
        forall|i: int|
            0 <= i < n ==> {
                let finding = #[trigger] findings[i];
                &&& finding.exists
                &&& finding.reading matches FileReading::Whole(outcome) ==> outcome
                    == WholeOutcome::Hash(files[i].hash->0) && files[i].hash.is_some()
                &&& finding.reading matches FileReading::Chunks(outcome) ==> outcome matches
                    ChunksOutcome::Broken(chunks) && chunks@.len() == 0
                &&& read_as_due(files[i], finding)
            },
    ensures
        diffs_of(files, findings, n).len() == 0,
    decreases n,
{
    if n > 0 {
        law_sound_downloads_pass(files, findings, (n - 1) as nat);
        assert(findings[n - 1].exists);
    }
}

/// What was found broken is fetched again.
pub proof fn law_broken_chunks_are_fetched_again(
    f: FileModel,
    chunks: Seq<usize>,
    file_size: nat,
    block: int,
)
    requires
        0 <= block < f.blocks.len(),
        lies_in(chunks, block),
    ensures
        ({
            let ranges = ranges_from(broken(f, chunks).blocks, file_size, 0);
            exists|i: int|
                0 <= i < ranges.len() && (#[trigger] ranges[i]).start <= block < ranges[i].end
        }),
{
    law_ranges_cover_what_is_missing(broken(f, chunks).blocks, file_size);
    assert(!broken(f, chunks).blocks[block]);
}

} // verus!
