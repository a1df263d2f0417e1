//! What comparing a download with what is on disk finds.

use vstd::prelude::*;
#[allow(unused_imports)]
use crate::download::error::FileFailureReason;
#[allow(unused_imports)]
use crate::download::hosts::chunk_hasher::are_chunk_digests;
#[allow(unused_imports)]
use crate::download::hosts::failures::IoErrorKind;
#[allow(unused_imports)]
use crate::download::items::{FileModel, FileSize, FolderId};
#[allow(unused_imports)]
use crate::download::operations::{law_operations_change_nothing_else, same_but_operations};
#[allow(unused_imports)]
use crate::download::status::FileStatus;
#[allow(unused_imports)]
use crate::download::tables::{find_file, unique_files};
#[allow(unused_imports)]
use crate::download::tree::{spec_set_file_status, Download, DownloadModel};
#[allow(unused_imports)]
use crate::download::tree_laws::law_set_file_status_sets_one_file;
#[allow(unused_imports)]
use crate::download::verification::{
    all_begun, broken_chunks, check_chunk, check_of, cut_short, diff_applied, diff_of,
    diffs_applied, diffs_of, law_sound_files_stay, lemma_diff_keeps_files, verified, verifier_after,
    verifier_answer, verify_file_chunks, ChunksOutcome, DiskFinding, FileCheck,
    FileVerificationDiff, VerifierAction, VerifierMessage, WholeOutcome,
};
#[allow(unused_imports)]
use crate::utils::hashing::blake3_digest;

verus! {

/// Whether the bytes from `from` up to `to` are there and have this digest.
pub open spec fn has_digest(contents: Seq<u8>, from: int, to: int, digest: Seq<u8>) -> bool {
    &&& from <= to <= contents.len()
    &&& blake3_digest(contents.subrange(from, to)) == digest
}

/// Where a piece ends that begins at `from`, in a file of so many bytes: it is as long
/// as a chunk, but for the last one, which ends with the file.
pub open spec fn piece_end(from: int, chunk_size: nat, file_len: nat) -> int {
    if file_len - from > chunk_size {
        from + chunk_size
    } else {
        file_len as int
    }
}

proof fn lemma_compared(
    contents: Seq<u8>,
    chunk_size: nat,
    file_len: nat,
    chunks: Seq<Option<[u8; 16]>>,
    n: nat,
)
    requires
        n <= chunks.len(),
        n <= usize::MAX,
    ensures
        ({
            let failed = broken_chunks(contents, chunk_size, file_len, chunks, n);
            &&& forall|j: int| 0 <= j < failed.len() ==> #[trigger] failed[j] < n
            &&& forall|i: int, j: int|
                0 <= i < j < failed.len() ==> #[trigger] failed[i] < #[trigger] failed[j]
            &&& forall|i: usize|
                i < n ==> (#[trigger] failed.contains(i) <==> (chunks[i as int] matches Some(digest)
                    && !has_digest(
                    contents,
                    i * chunk_size,
                    piece_end(i * chunk_size, chunk_size, file_len),
                    digest@,
                )))
        }),
    decreases n,
{
    if n > 0 {
        lemma_compared(contents, chunk_size, file_len, chunks, (n - 1) as nat);
        let before = broken_chunks(contents, chunk_size, file_len, chunks, (n - 1) as nat);
        let failed = broken_chunks(contents, chunk_size, file_len, chunks, n);
        assert forall|i: usize|
            i < n implies (#[trigger] failed.contains(i) <==> (chunks[i as int] matches Some(digest)
            && !has_digest(
            contents,
            i * chunk_size,
            piece_end(i * chunk_size, chunk_size, file_len),
            digest@,
        ))) by {
            crate::utils::text::lemma_contains_push(before, (n - 1) as usize, i);
            if i == n - 1 && before.contains(i) {
                let j = choose|j: int| 0 <= j < before.len() && before[j] == i;
                assert(before[j] < n - 1);
            }
        }
    }
}

/// Every piece of a file that has a digest is compared with it, the last piece like
/// the others: the piece is found broken if and only if its bytes have another digest,
/// or are not all there. A piece without a digest is not found broken. The broken ones
/// are told in order, and each once.
pub proof fn law_every_piece_is_compared(
    contents: Seq<u8>,
    chunk_size: nat,
    file_len: nat,
    chunks: Seq<Option<[u8; 16]>>,
)
    requires
        chunks.len() <= usize::MAX,
    ensures
        ({
            let failed = broken_chunks(contents, chunk_size, file_len, chunks, chunks.len());
            &&& forall|i: usize|
                i < chunks.len() && chunks[i as int] is None ==> !#[trigger] failed.contains(i)
            &&& forall|i: usize|
                i < chunks.len() && chunks[i as int] is Some ==> (#[trigger] failed.contains(i)
                    <==> !has_digest(
                    contents,
                    i * chunk_size,
                    piece_end(i * chunk_size, chunk_size, file_len),
                    chunks[i as int]->0@,
                ))
            &&& forall|i: int, j: int|
                0 <= i < j < failed.len() ==> #[trigger] failed[i] < #[trigger] failed[j]
            &&& forall|j: int| 0 <= j < failed.len() ==> #[trigger] failed[j] < chunks.len()
        }),
{
    lemma_compared(contents, chunk_size, file_len, chunks, chunks.len());
}

/// Contents in which nothing is found broken are sound: they are as long as the pieces
/// with digests reach, and each of these has its digest.
pub proof fn law_contents_found_sound_are_sound(
    contents: Seq<u8>,
    chunk_size: nat,
    file_len: nat,
    chunks: Seq<Option<[u8; 16]>>,
)
    requires
        chunks.len() <= usize::MAX,
        broken_chunks(contents, chunk_size, file_len, chunks, chunks.len()).len() == 0,
    ensures
        forall|i: int|
            0 <= i < chunks.len() && #[trigger] chunks[i] is Some ==> has_digest(
                contents,
                i * chunk_size,
                piece_end(i * chunk_size, chunk_size, file_len),
                chunks[i]->0@,
            ),
{
    lemma_compared(contents, chunk_size, file_len, chunks, chunks.len());
    let failed = broken_chunks(contents, chunk_size, file_len, chunks, chunks.len());
    assert forall|i: int| 0 <= i < chunks.len() && #[trigger] chunks[i] is Some implies has_digest(
        contents,
        i * chunk_size,
        piece_end(i * chunk_size, chunk_size, file_len),
        chunks[i]->0@,
    ) by {
        assert(!failed.contains(i as usize));
    }
}

/// Where the bytes of one piece change so that its digest does, it is found broken,
/// however the other pieces fare: what becomes of a piece depends on it alone.
pub proof fn law_pieces_are_compared_one_by_one(
    contents: Seq<u8>,
    other: Seq<u8>,
    chunk_size: nat,
    file_len: nat,
    chunks: Seq<Option<[u8; 16]>>,
    i: usize,
)
    requires
        chunks.len() <= usize::MAX,
        i < chunks.len(),
        i * chunk_size <= file_len <= contents.len(),
        file_len <= other.len(),
        contents.subrange(
            i * chunk_size,
            piece_end(i * chunk_size, chunk_size, file_len),
        ) == other.subrange(i * chunk_size, piece_end(i * chunk_size, chunk_size, file_len)),
    ensures
        broken_chunks(contents, chunk_size, file_len, chunks, chunks.len()).contains(i)
            == broken_chunks(other, chunk_size, file_len, chunks, chunks.len()).contains(i),
{
    lemma_compared(contents, chunk_size, file_len, chunks, chunks.len());
    lemma_compared(other, chunk_size, file_len, chunks, chunks.len());
}

/// A file that is as long as it should be is always compared, and a small one that is
/// shorter is never.
pub proof fn law_short_files_are_not_compared(contents: Seq<u8>, file_len: nat)
    ensures
        contents.len() >= file_len ==> !cut_short(contents, file_len),
        file_len >= 16384 ==> !cut_short(contents, file_len),
        contents.len() < file_len && file_len < 16384 ==> cut_short(contents, file_len),
{
}

/// Whether what was begun of a file should be on disk, and is not.
pub open spec fn is_lost(f: FileModel, seen: DiskFinding) -> bool {
    !seen.exists && (f.status is Completed || f.status is Partial)
}

/// Whether the pieces of a file can be compared: it is not complete, but its size and
/// its pieces are known.
pub open spec fn has_pieces(f: FileModel) -> bool {
    &&& !(f.status is Completed)
    &&& f.size matches Some(FileSize::Known(_))
    &&& f.chunk_hashes.len() > 0
}

/// Whether a file was read as far as it has to be: a complete one as a whole, one of
/// which some pieces are known piece by piece, and one that is lost not at all.
pub open spec fn was_read(f: FileModel, seen: DiskFinding) -> bool {
    !is_lost(f, seen) ==> {
        &&& f.status is Completed ==> seen.reading is Whole
        &&& has_pieces(f) ==> seen.reading is Chunks
    }
}

/// The state that a file is found to be in, if it is another one.
pub open spec fn found_status(f: FileModel, seen: DiskFinding) -> Option<FileStatus> {
    if is_lost(f, seen) {
        Some(FileStatus::NotFound)
    } else if f.status is Completed {
        match seen.reading->Whole_0 {
            WholeOutcome::Hash(hash) => if f.hash is Some && f.hash->0 == hash {
                None
            } else {
                Some(FileStatus::Failed(FileFailureReason::HashMismatch))
            },
            WholeOutcome::ReadError => Some(FileStatus::Failed(FileFailureReason::DiskError)),
            WholeOutcome::TaskError => Some(FileStatus::Failed(FileFailureReason::ClientError)),
        }
    } else if has_pieces(f) {
        match seen.reading->Chunks_0 {
            ChunksOutcome::Broken(_) => None,
            ChunksOutcome::NotFound => Some(FileStatus::NotFound),
            ChunksOutcome::ReadError => Some(FileStatus::Failed(FileFailureReason::DiskError)),
            ChunksOutcome::TaskError => Some(FileStatus::Failed(FileFailureReason::ClientError)),
        }
    } else {
        None
    }
}

/// The pieces of a file that are found broken.
pub open spec fn found_broken(f: FileModel, seen: DiskFinding) -> Seq<usize> {
    if !is_lost(f, seen) && has_pieces(f) {
        match seen.reading->Chunks_0 {
            ChunksOutcome::Broken(chunks) => chunks@,
            _ => Seq::empty(),
        }
    } else {
        Seq::empty()
    }
}

/// Whether something is amiss with a file.
pub open spec fn is_amiss() -> spec_fn((FileModel, DiskFinding)) -> bool {
    |p: (FileModel, DiskFinding)| found_status(p.0, p.1) is Some || found_broken(p.0, p.1).len() > 0
}

/// Whether this is what was found of a file.
pub open spec fn tells(diff: FileVerificationDiff, f: FileModel, seen: DiskFinding) -> bool {
    &&& diff.file_id == f.id
    &&& diff.new_status == found_status(f, seen)
    &&& match diff.failed_chunks {
        Some(chunks) => chunks@ == found_broken(f, seen) && chunks@.len() > 0,
        None => found_broken(f, seen).len() == 0,
    }
}

/// The files with what was seen of each.
pub open spec fn paired(files: Seq<FileModel>, findings: Seq<DiskFinding>, n: nat) -> Seq<
    (FileModel, DiskFinding),
> {
    Seq::new(n, |i: int| (files[i], findings[i]))
}

/// A file that is lost is not found. A complete file whose bytes have another digest
/// than they should fails, and so does one that cannot be read. Of a file that is not
/// complete the pieces that are broken are told.
pub proof fn law_files_are_judged_by_what_was_seen(f: FileModel, seen: DiskFinding)
    requires
        was_read(f, seen),
    ensures
        match diff_of(f, seen) {
            Some(diff) => is_amiss()((f, seen)) && tells(diff, f, seen),
            None => !is_amiss()((f, seen)),
        },
{
}

/// Every file is judged by what was seen of it, in the order of the files: something
/// is told of each with which something is amiss, and of no other.
pub proof fn law_every_file_is_judged(
    files: Seq<FileModel>,
    findings: Seq<DiskFinding>,
    n: nat,
)
    requires
        n <= files.len(),
        n <= findings.len(),
        forall|i: int| 0 <= i < n ==> was_read(#[trigger] files[i], findings[i]),
    ensures
        ({
            let amiss = paired(files, findings, n).filter(is_amiss());
            let diffs = diffs_of(files, findings, n);
            &&& diffs.len() == amiss.len()
            &&& forall|i: int|
                0 <= i < diffs.len() ==> tells(#[trigger] diffs[i], amiss[i].0, amiss[i].1)
        }),
    decreases n,
{
    reveal(Seq::filter);
    if n > 0 {
        let m = (n - 1) as nat;
        law_every_file_is_judged(files, findings, m);
        law_files_are_judged_by_what_was_seen(files[n - 1], findings[n - 1]);
        let all = paired(files, findings, n);
        assert(all.drop_last() =~= paired(files, findings, m));
        assert(all.last() == (files[n - 1], findings[n - 1]));
        let before = paired(files, findings, m).filter(is_amiss());
        let amiss = all.filter(is_amiss());
        let diffs = diffs_of(files, findings, n);
        assert forall|i: int| 0 <= i < diffs.len() implies tells(
            #[trigger] diffs[i],
            amiss[i].0,
            amiss[i].1,
        ) by {
            if i < before.len() {
                assert(amiss[i] == before[i]);
                assert(diffs[i] == diffs_of(files, findings, m)[i]);
            }
        }
    }
}

/// Whether a file has taken in what was found of it: it is in the state that was found,
/// and no block of a broken piece is there any more, while all others are as before.
pub open spec fn has_heeded(
    before: FileModel,
    after: FileModel,
    status: Option<FileStatus>,
    failed: Seq<usize>,
) -> bool {
    &&& after == (FileModel { status: after.status, blocks: after.blocks, ..before })
    &&& after.status == match status {
        Some(s) => s,
        None => before.status,
    }
    &&& after.blocks.len() == before.blocks.len()
    &&& forall|b: int|
        0 <= b < before.blocks.len() ==> (#[trigger] after.blocks[b] <==> before.blocks[b]
            && forall|j: int|
            0 <= j < failed.len() ==> !(#[trigger] failed[j] * 64 <= b < (failed[j] + 1) * 64))
}

/// The broken pieces that were told.
pub open spec fn told_broken(diff: FileVerificationDiff) -> Seq<usize> {
    match diff.failed_chunks {
        Some(chunks) => chunks@,
        None => Seq::empty(),
    }
}

proof fn lemma_heeded(
    d: DownloadModel,
    diff: FileVerificationDiff,
    gone: Seq<FolderId>,
    k: int,
)
    requires
        unique_files(d.files),
        0 <= k < d.files.len(),
        d.files[k].id == diff.file_id,
    ensures
        diff_applied(d, diff, gone).0.files.len() == d.files.len(),
        has_heeded(
            d.files[k],
            diff_applied(d, diff, gone).0.files[k],
            diff.new_status,
            told_broken(diff),
        ),
{
    let stated = match diff.new_status {
        Some(status) => spec_set_file_status(d, diff.file_id, status, gone).0,
        None => d,
    };
    if diff.new_status.is_some() {
        law_set_file_status_sets_one_file(d, diff.file_id, diff.new_status->0, gone);
    }
    assert(stated.files[k].id == diff.file_id);
    let i = find_file(stated.files, diff.file_id)->0;
    assert(stated.files[i].id == stated.files[k].id);
    assert(d.files[i].id == d.files[k].id);
    assert(i == k);
    let after = diff_applied(d, diff, gone).0.files[k];
    let failed = told_broken(diff);
    assert forall|b: int| 0 <= b < d.files[k].blocks.len() implies (#[trigger] after.blocks[b]
        <==> d.files[k].blocks[b] && forall|j: int|
        0 <= j < failed.len() ==> !(#[trigger] failed[j] * 64 <= b < (failed[j] + 1) * 64)) by {
        if diff.failed_chunks is Some {
            assert(stated.files[k].blocks == d.files[k].blocks);
            if crate::download::fetched::lies_in(failed, b) {
                let j = choose|j: int|
                    0 <= j < failed.len() && (#[trigger] failed[j]) * 64 <= b < failed[j] * 64
                        + 64;
                assert(failed[j] * 64 <= b < (failed[j] + 1) * 64);
            }
        }
    }
}

/// What was found of a file is taken in: its state if it is another one, and the
/// broken pieces as missing. Of files of which nothing was found nothing changes.
pub proof fn law_what_is_found_is_taken_in(
    d: DownloadModel,
    diffs: Seq<FileVerificationDiff>,
    gone: Seq<FolderId>,
    k: int,
    at: int,
)
    requires
        unique_files(d.files),
        0 <= k < d.files.len(),
        0 <= at < diffs.len(),
        diffs[at].file_id == d.files[k].id,
        forall|i: int, j: int|
            0 <= i < diffs.len() && 0 <= j < diffs.len() && (#[trigger] diffs[i]).file_id == (
            #[trigger] diffs[j]).file_id ==> i == j,
    ensures
        diffs_applied(d, diffs, gone).0.files.len() == d.files.len(),
        has_heeded(
            d.files[k],
            diffs_applied(d, diffs, gone).0.files[k],
            diffs[at].new_status,
            told_broken(diffs[at]),
        ),
    decreases diffs.len(),
{
    let fewer = diffs.drop_last();
    let before = diffs_applied(d, fewer, gone).0;
    crate::download::verification::lemma_diffs_keep_files(d, fewer, gone);
    assert forall|i: int, j: int|
        0 <= i < fewer.len() && 0 <= j < fewer.len() && (#[trigger] fewer[i]).file_id == (
        #[trigger] fewer[j]).file_id implies i == j by {
        assert(diffs[i].file_id == diffs[j].file_id);
    }
    if at == diffs.len() - 1 {
        assert forall|i: int| 0 <= i < fewer.len() implies (#[trigger] fewer[i]).file_id
            != d.files[k].id by {
            assert(diffs[i].file_id != diffs[at].file_id);
        }
        law_sound_files_stay(d, fewer, gone, k);
        lemma_heeded(before, diffs.last(), gone, k);
    } else {
        assert(fewer[at] == diffs[at]);
        law_what_is_found_is_taken_in(d, fewer, gone, k, at);
        lemma_diff_keeps_files(before, diffs.last(), gone);
        assert(diffs[diffs.len() - 1].file_id != diffs[at].file_id);
        assert(before.files[k].id != diffs.last().file_id);
        assert(diffs_applied(d, diffs, gone).0.files[k] == before.files[k]);
    }
}

/// When a comparison ends, what was found is taken in, nothing is noted as being done
/// any more for a file that is not done, and nothing else changes.
pub proof fn law_compared_downloads_rest(
    d: DownloadModel,
    diffs: Seq<FileVerificationDiff>,
    gone: Seq<FolderId>,
)
    ensures
        same_but_operations(verified(d, diffs, gone).0, diffs_applied(d, diffs, gone).0),
        verified(d, diffs, gone).1 == diffs_applied(d, diffs, gone).1,
        forall|k: int|
            0 <= k < verified(d, diffs, gone).0.files.len() ==> {
                let f = #[trigger] verified(d, diffs, gone).0.files[k];
                f.status is Completed || f.status is NotFound || f.status is Failed
                    || f.active_operation is None
            },
{
    law_operations_change_nothing_else(diffs_applied(d, diffs, gone).0, None);
}

/// A download is compared from when that is asked for until it is finished, paused or
/// cancelled, and the comparisons of other downloads go on.
pub proof fn law_comparisons_last_until_they_end(running: Set<usize>, message: VerifierMessage)
    ensures
        ({
            let after = verifier_after(running, message);
            let about = match message {
                VerifierMessage::VerifyDownload(download) => download.id.0,
                VerifierMessage::VerificationFinished(id) => id.0,
                VerifierMessage::CancelVerification(id) => id.0,
                VerifierMessage::PauseVerification(id) => id.0,
            };
            &&& after.contains(about) <==> message is VerifyDownload
            &&& forall|x: usize| x != about ==> (#[trigger] after.contains(x) <==> running.contains(
                x,
            ))
        }),
{
}

/// A download that is not being compared is begun when that is asked for. A comparison
/// that is running is stopped when it is paused or cancelled; what is cancelled is
/// cleaned up in any case. Nothing is done in any other case.
pub proof fn law_comparisons_are_begun_and_stopped(running: Set<usize>, message: VerifierMessage)
    ensures
        match (message, verifier_answer(running, message)) {
            (VerifierMessage::VerifyDownload(download), Some(VerifierAction::Begin(begun))) =>
                begun == download && !running.contains(download.id.0),
            (VerifierMessage::VerifyDownload(download), None) => running.contains(download.id.0),
            (VerifierMessage::PauseVerification(id), Some(VerifierAction::Abort(stopped))) =>
                stopped == id && running.contains(id.0),
            (VerifierMessage::PauseVerification(id), None) => !running.contains(id.0),
            (
                VerifierMessage::CancelVerification(id),
                Some(VerifierAction::CleanUp { id: cleaned, abort }),
            ) => cleaned == id && abort == running.contains(id.0),
            (VerifierMessage::VerificationFinished(_), None) => true,
            _ => false,
        },
{
}

/// Of downloads that are to be compared, each that is not being compared yet is begun,
/// and once: those that are begun follow each other as they came, and all of them are
/// being compared then.
pub proof fn law_every_download_is_begun_once(running: Set<usize>, downloads: Seq<Download>)
    ensures
        ({
            let (after, begun) = all_begun(running, downloads);
            &&& forall|x: usize| #[trigger]
                after.contains(x) <==> running.contains(x) || exists|i: int|
                    0 <= i < downloads.len() && (#[trigger] downloads[i]).id.0 == x
            &&& forall|i: int|
                0 <= i < downloads.len() && !running.contains((#[trigger] downloads[i]).id.0)
                    ==> exists|j: int|
                    0 <= j < begun.len() && (#[trigger] begun[j]).id == downloads[i].id
            &&& forall|j: int|
                0 <= j < begun.len() ==> downloads.contains(#[trigger] begun[j])
                    && !running.contains(begun[j].id.0)
            &&& forall|i: int, j: int|
                0 <= i < j < begun.len() ==> (#[trigger] begun[i]).id != (#[trigger] begun[j]).id
        }),
    decreases downloads.len(),
{
    if downloads.len() > 0 {
        let rest = downloads.drop_last();
        let last = downloads.last();
        law_every_download_is_begun_once(running, rest);
        let (was, before) = all_begun(running, rest);
        let (after, begun) = all_begun(running, downloads);
        assert forall|x: usize| #[trigger]
            after.contains(x) <==> running.contains(x) || exists|i: int|
                0 <= i < downloads.len() && (#[trigger] downloads[i]).id.0 == x by {
            assert(downloads[downloads.len() - 1] == last);
            if was.contains(x) && !running.contains(x) {
                let i = choose|i: int| 0 <= i < rest.len() && (#[trigger] rest[i]).id.0 == x;
                assert(downloads[i] == rest[i]);
            }
            if exists|i: int| 0 <= i < downloads.len() && (#[trigger] downloads[i]).id.0 == x {
                let i = choose|i: int|
                    0 <= i < downloads.len() && (#[trigger] downloads[i]).id.0 == x;
                if i < rest.len() {
                    assert(rest[i].id.0 == x);
                    assert(was.contains(x));
                }
            }
        }
        assert(forall|j: int| 0 <= j < before.len() ==> begun[j] == before[j]);
        assert forall|j: int| 0 <= j < begun.len() implies downloads.contains(#[trigger] begun[j])
            && !running.contains(begun[j].id.0) by {
            if j < before.len() {
                assert(rest.contains(before[j]));
                let i = choose|i: int| 0 <= i < rest.len() && rest[i] == before[j];
                assert(downloads[i] == begun[j]);
            } else {
                assert(downloads[downloads.len() - 1] == begun[j]);
            }
        }
        assert forall|i: int|
            0 <= i < downloads.len() && !running.contains(
                (#[trigger] downloads[i]).id.0,
            ) implies exists|j: int|
            0 <= j < begun.len() && (#[trigger] begun[j]).id == downloads[i].id by {
            if i < rest.len() {
                assert(rest[i] == downloads[i]);
                let j = choose|j: int|
                    0 <= j < before.len() && (#[trigger] before[j]).id == rest[i].id;
                assert(begun[j].id == downloads[i].id);
            } else if was.contains(last.id.0) {
                let k = choose|k: int|
                    0 <= k < rest.len() && (#[trigger] rest[k]).id.0 == last.id.0;
                let j = choose|j: int|
                    0 <= j < before.len() && (#[trigger] before[j]).id == rest[k].id;
                assert(begun[j].id == downloads[i].id);
            } else {
                assert(begun[begun.len() - 1].id == downloads[i].id);
            }
        }
        assert forall|i: int, j: int| 0 <= i < j < begun.len() implies (#[trigger] begun[i]).id != (
        #[trigger] begun[j]).id by {
            if j == before.len() {
                assert(rest.contains(before[i]));
                let k = choose|k: int| 0 <= k < rest.len() && rest[k] == before[i];
                assert(was.contains(rest[k].id.0));
            }
        }
    }
}

/// A piece with a digest is found broken if and only if its bytes are not all there or have
/// another digest, and one without a digest never is.
pub proof fn law_pieces_are_checked(
    contents: &[u8],
    chunk_size: usize,
    file_len: usize,
    index: usize,
    expected: &Option<[u8; 16]>,
    broken: bool,
)
    requires
        call_ensures(check_chunk, (contents, chunk_size, file_len, index, expected), broken),
    ensures
        *expected is None ==> !broken,
        *expected matches Some(digest) ==> (broken <==> !has_digest(
            contents@,
            index * chunk_size,
            piece_end(index * chunk_size, chunk_size as nat, file_len as nat),
            digest@,
        )),
{
}

/// The digests that are taken while a file comes in are those of its pieces: as many as it
/// has, and each that of its own bytes, the last piece like the others.
pub proof fn law_digests_are_those_of_the_pieces(digests: Seq<[u8; 16]>, data: Seq<u8>)
    requires
        are_chunk_digests(digests, data),
    ensures
        (digests.len() - 1) * 1048576 < data.len() <= digests.len() * 1048576,
        forall|i: int|
            0 <= i < digests.len() ==> has_digest(
                data,
                i * 1048576,
                piece_end(i * 1048576, 1048576, data.len()),
                #[trigger] digests[i]@,
            ),
{
    assert forall|i: int| 0 <= i < digests.len() implies has_digest(
        data,
        i * 1048576,
        piece_end(i * 1048576, 1048576, data.len()),
        #[trigger] digests[i]@,
    ) by {
        assert(digests[i]@ == blake3_digest(
            crate::download::hosts::chunk_hasher::chunk_at(data, i),
        ));
    }
}

/// A file that was begun and is not on disk is not looked into. A complete one is read as a
/// whole, and one that is not, but whose size and pieces are known, piece by piece, in as many
/// bytes as it has; of any other nothing is read.
pub proof fn law_files_are_read_as_far_as_needed(f: FileModel, exists_on_disk: bool)
    ensures
        ({
            let check = check_of(f, exists_on_disk);
            let lost = !exists_on_disk && (f.status is Completed || f.status is Partial);
            &&& check is Missing <==> lost
            &&& check is Whole <==> !lost && f.status is Completed
            &&& check is Chunks <==> !lost && has_pieces(f)
            &&& check matches FileCheck::Chunks(size) ==> f.size == Some(FileSize::Known(size))
            &&& check is Nothing <==> !lost && !(f.status is Completed) && !has_pieces(f)
        }),
{
}

/// The pieces of a file that are found broken are those with a digest whose bytes are not all
/// there or have another, each once and in order. A small file that is cut short cannot be
/// read.
pub proof fn law_files_are_checked_piece_by_piece<F: Fn() -> bool>(
    contents: &[u8],
    chunk_size: usize,
    file_len: usize,
    chunks: &Vec<Option<[u8; 16]>>,
    go_on: F,
    r: Result<Vec<usize>, IoErrorKind>,
)
    requires
        call_ensures(
            verify_file_chunks::<F>,
            (contents, chunk_size, file_len, chunks, go_on),
            r,
        ),
    ensures
        r matches Ok(failed) ==> {
            &&& forall|i: usize|
                i < chunks@.len() ==> (#[trigger] failed@.contains(i) <==> (
                chunks@[i as int] matches Some(digest) && !has_digest(
                    contents@,
                    i * chunk_size,
                    piece_end(i * chunk_size, chunk_size as nat, file_len as nat),
                    digest@,
                )))
            &&& forall|i: int, j: int|
                0 <= i < j < failed@.len() ==> #[trigger] failed@[i] < #[trigger] failed@[j]
            &&& forall|j: int| 0 <= j < failed@.len() ==> #[trigger] failed@[j] < chunks@.len()
        },
        r is Ok ==> contents@.len() >= file_len || file_len >= 16384,
        r matches Err(e) ==> e is UnexpectedEof || e is Interrupted,
        contents@.len() < file_len && file_len < 16384 ==> (r matches Err(e) && e is UnexpectedEof),
        r matches Err(e) ==> (e is Interrupted ==> go_on.ensures((), false)),
{
    assert(chunks.len() as nat == chunks@.len());
    lemma_compared(
        contents@,
        chunk_size as nat,
        file_len as nat,
        chunks@,
        chunks@.len(),
    );
}

} // verus!
