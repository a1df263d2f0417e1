//! What becomes of a download when one of its jobs ends.

#[allow(unused_imports)]
use std::ops::Range;

use vstd::prelude::*;
#[allow(unused_imports)]
use crate::client_state_manager::FileUpdate;
#[allow(unused_imports)]
use crate::download::error::FileFailureReason;
#[allow(unused_imports)]
use crate::download::fetched::{block_count, described, ranged, streamed};
#[allow(unused_imports)]
use crate::download::file_name::{candidate, chosen_name, NameModel};
#[allow(unused_imports)]
use crate::download::hosts::failures::{DownloadOperation, PermanentFailure};
#[allow(unused_imports)]
use crate::download::hosts::jobs::{DownloadResult, MetadataResult};
#[allow(unused_imports)]
use crate::download::items::{
    ActiveOperation, ChangedItemOperation, ChangedItemStatus, FileId, FileModel, FileSize, FolderId,
};
#[allow(unused_imports)]
use crate::download::operations::{
    law_one_operation_changes_nothing_else, law_operations_change_nothing_else,
    same_but_operations, spec_set_file_active_operation,
};
#[allow(unused_imports)]
use crate::download::ranges_laws::just_holds;
#[allow(unused_imports)]
use crate::download::status::FileStatus;
#[allow(unused_imports)]
use crate::download::storing::chunk_count;
#[allow(unused_imports)]
use crate::download::supervisor::{
    all_there, started, supervised, with_file_at, ActionModel, DownloadCommand, Phase,
    SupervisorEvent, SupervisorModel,
};
#[allow(unused_imports)]
use crate::download::tables::{find_file, unique_files};
#[allow(unused_imports)]
use crate::download::tree::{
    fail_each, failable, spec_set_all_files_failed, spec_set_file_status, DownloadModel,
};
#[allow(unused_imports)]
use crate::download::tree_laws::law_set_file_status_sets_one_file;
#[allow(unused_imports)]
use crate::download::work_laws::fetches;
#[allow(unused_imports)]
use crate::utils::file_utils::TargetOs;
#[allow(unused_imports)]
use crate::utils::paths::{spec_join, spec_parent};

verus! {

/// Whether of all files only the one at place `k` may have changed.
pub open spec fn others_stay(before: Seq<FileModel>, after: Seq<FileModel>, k: int) -> bool {
    &&& after.len() == before.len()
    &&& forall|j: int| 0 <= j < before.len() && j != k ==> #[trigger] after[j] == before[j]
}

proof fn lemma_place(files: Seq<FileModel>, k: int)
    requires
        0 <= k < files.len(),
        unique_files(files),
    ensures
        find_file(files, files[k].id) == Some(k),
{
    let i = find_file(files, files[k].id)->0;
    assert(files[i].id == files[k].id);
}

/// The name that a file is saved under is the plugin's, or else the server's, or else
/// the URL's.
pub open spec fn goes_by(n: NameModel, name: Seq<char>) -> bool {
    if n.plugin_hint is Some {
        n.plugin_hint == Some(name)
    } else if n.server_name is Some {
        n.server_name == Some(name)
    } else if n.url_hint is Some {
        n.url_hint == Some(name)
    } else {
        name == "download"@
    }
}

/// Whether a file is one that a server described: it has the size that the server
/// told, and room for all blocks and digests; what was there of it still is, and
/// nothing else is there. It has the server's name among its names, and lies where it
/// lay before, under the name that counts.
pub open spec fn is_described(
    before: FileModel,
    after: FileModel,
    size: FileSize,
    name: Option<Seq<char>>,
) -> bool {
    &&& after.size == Some(size)
    &&& after.name == NameModel { server_name: name, ..before.name }
    &&& match spec_parent(before.path) {
        Some(folder) => exists|chosen: Seq<char>|
            goes_by(after.name, chosen) && after.path == #[trigger] spec_join(folder, chosen),
        None => after.path == before.path,
    }
    &&& match size {
        FileSize::Known(bytes) => {
            &&& just_holds(after.blocks.len(), 16384, bytes as nat)
            &&& just_holds(after.chunk_hashes.len(), 1048576, bytes as nat)
            &&& forall|b: int|
                0 <= b < after.blocks.len() ==> (#[trigger] after.blocks[b] <==> b
                    < before.blocks.len() && before.blocks[b])
            &&& forall|c: int|
                0 <= c < after.chunk_hashes.len() ==> #[trigger] after.chunk_hashes[c] == if c
                    < before.chunk_hashes.len() {
                    before.chunk_hashes[c]
                } else {
                    None
                }
        },
        FileSize::Unknown => {
            &&& after.blocks == before.blocks
            &&& after.chunk_hashes == before.chunk_hashes
        },
    }
    &&& after == (FileModel {
        size: after.size,
        name: after.name,
        path: after.path,
        blocks: after.blocks,
        chunk_hashes: after.chunk_hashes,
        ..before
    })
}

proof fn lemma_room(bytes: u64)
    ensures
        just_holds(block_count(bytes), 16384, bytes as nat),
        just_holds(chunk_count(bytes), 1048576, bytes as nat),
{
}

proof fn lemma_described(target: TargetOs, f: FileModel, size: FileSize, name: Seq<char>)
    ensures
        is_described(f, described(target, f, size, name), size, candidate(target, Some(name))),
{
    let after = described(target, f, size, name);
    if size is Known {
        lemma_room(size->Known_0);
    }
    let chosen = chosen_name(after.name);
    assert(goes_by(after.name, chosen));
    match spec_parent(f.path) {
        Some(folder) => {
            assert(after.path == spec_join(folder, chosen));
        },
        None => {},
    }
}

/// When a server says that a file can be fetched in ranges, the file has the size and
/// the name that the server told, what is missing of it is fetched range by range, and
/// it is open from then on. No other file changes.
pub proof fn law_sized_files_are_fetched_in_ranges(
    m: SupervisorModel,
    k: int,
    bytes: u64,
    name: String,
    gone: Seq<FolderId>,
    target: TargetOs,
)
    requires
        m.phase is Downloading,
        0 <= k < m.download.files.len(),
        unique_files(m.download.files),
    ensures
        ({
            let file_id = m.download.files[k].id;
            let metadata = MetadataResult::Chunked { file_size: bytes, file_name: name };
            let (after, actions) = supervised(
                m,
                SupervisorEvent::Result(DownloadResult::Metadata { file_id, metadata }),
                gone,
                target,
            );
            &&& after.phase is Downloading
            &&& after.open == m.open.insert(file_id.0)
            &&& others_stay(m.download.files, after.download.files, k)
            &&& after.download == (DownloadModel { files: after.download.files, ..m.download })
            &&& is_described(
                m.download.files[k],
                after.download.files[k],
                FileSize::Known(bytes),
                candidate(target, Some(name@)),
            )
            &&& actions.len() == 2
            &&& actions[0] == ActionModel::ShowFile(
                FileUpdate::FileSize { id: file_id, len: bytes },
            )
            &&& actions[1] is QueueRanges
            &&& fetches(actions[1], after.download.files[k], m.open.contains(file_id.0))
        }),
{
    lemma_place(m.download.files, k);
    let f = described(target, m.download.files[k], FileSize::Known(bytes), name@);
    lemma_described(target, m.download.files[k], FileSize::Known(bytes), name@);
    crate::download::work_laws::lemma_ranges_fetch(f, bytes, m.open);
}

/// When a server says that a file can only be fetched as a whole, the file has the
/// size, if there is one, and the name that the server told, and it is fetched as a
/// whole. No other file changes.
pub proof fn law_whole_files_are_fetched_whole(
    m: SupervisorModel,
    k: int,
    size: FileSize,
    name: String,
    gone: Seq<FolderId>,
    target: TargetOs,
)
    requires
        m.phase is Downloading,
        0 <= k < m.download.files.len(),
        unique_files(m.download.files),
    ensures
        ({
            let file_id = m.download.files[k].id;
            let metadata = MetadataResult::Stream { file_size: size, file_name: name };
            let (after, actions) = supervised(
                m,
                SupervisorEvent::Result(DownloadResult::Metadata { file_id, metadata }),
                gone,
                target,
            );
            &&& after.phase is Downloading
            &&& after.open == m.open
            &&& others_stay(m.download.files, after.download.files, k)
            &&& after.download == (DownloadModel { files: after.download.files, ..m.download })
            &&& is_described(
                m.download.files[k],
                after.download.files[k],
                size,
                candidate(target, Some(name@)),
            )
            &&& actions.len() > 0
            &&& actions.last() == ActionModel::QueueStream { file_id }
            &&& match size {
                FileSize::Known(len) => actions.len() == 2 && actions[0] == ActionModel::ShowFile(
                    FileUpdate::FileSize { id: file_id, len },
                ),
                FileSize::Unknown => actions.len() == 1,
            }
        }),
{
    lemma_place(m.download.files, k);
    lemma_described(target, m.download.files[k], size, name@);
}

/// Whether a change of state is told to the clients, with the file first. There is
/// nothing to tell where the file was in this state before.
pub open spec fn told(
    actions: Seq<ActionModel>,
    at: int,
    id: FileId,
    before: FileStatus,
    after: FileStatus,
) -> bool {
    before != after ==> {
        &&& 0 <= at < actions.len()
        &&& actions[at] matches ActionModel::ShowStatuses(items) && items.len() > 0 && items[0]
            == (ChangedItemStatus::File { id, status: after })
    }
}

/// A file that was fetched as a whole is complete, has as many bytes as came, and
/// needs no further range if none of it was asked for in ranges. No other file
/// changes, and the download finishes once it is complete with this file.
pub proof fn law_whole_files_are_complete(
    m: SupervisorModel,
    k: int,
    bytes: u64,
    gone: Seq<FolderId>,
    target: TargetOs,
)
    requires
        m.phase is Downloading,
        0 <= k < m.download.files.len(),
        unique_files(m.download.files),
    ensures
        ({
            let file_id = m.download.files[k].id;
            let (after, actions) = supervised(
                m,
                SupervisorEvent::Result(
                    DownloadResult::Stream { file_id, bytes_downloaded: bytes },
                ),
                gone,
                target,
            );
            let before = m.download.files[k];
            let f = after.download.files[k];
            &&& after.phase is Downloading && after.open == m.open
            &&& others_stay(m.download.files, after.download.files, k)
            &&& f == (FileModel {
                size: Some(FileSize::Known(bytes)),
                status: FileStatus::Completed,
                blocks: f.blocks,
                ..before
            })
            &&& just_holds(f.blocks.len(), 16384, bytes as nat)
            &&& forall|b: int|
                0 <= b < f.blocks.len() ==> (#[trigger] f.blocks[b] <==> b
                    >= before.blocks.len() || before.blocks[b])
            &&& actions.len() > 0
            &&& actions[0] == ActionModel::ShowFile(
                FileUpdate::BytesDownloaded { id: file_id, len: bytes },
            )
            &&& told(actions, 1, file_id, before.status, FileStatus::Completed)
            &&& actions.last() is Finish <==> after.download.status is Completed
        }),
{
    let d = m.download;
    lemma_place(d.files, k);
    lemma_room(bytes);
    let f = streamed(d.files[k], bytes);
    let taken = with_file_at(d, k, f);
    lemma_swapped(d, k, f);
    lemma_place(taken.files, k);
    law_set_file_status_sets_one_file(taken, f.id, FileStatus::Completed, gone);
}

proof fn lemma_swapped(d: DownloadModel, k: int, f: FileModel)
    requires
        0 <= k < d.files.len(),
        unique_files(d.files),
        f.id == d.files[k].id,
    ensures
        unique_files(with_file_at(d, k, f).files),
        others_stay(d.files, with_file_at(d, k, f).files, k),
        with_file_at(d, k, f).files[k] == f,
{
    let files = with_file_at(d, k, f).files;
    assert forall|i: int, j: int|
        0 <= i < files.len() && 0 <= j < files.len() && (#[trigger] files[i]).id == (
        #[trigger] files[j]).id implies i == j by {
        assert(d.files[i].id == d.files[j].id);
    }
}

/// Whether a file is one of which a range was fetched: the blocks of the range are
/// there and have their digests, and nothing else has changed but the state.
pub open spec fn has_taken(
    before: FileModel,
    after: FileModel,
    range: Range<usize>,
    hashes: Seq<[u8; 16]>,
) -> bool {
    &&& after == (FileModel {
        blocks: after.blocks,
        chunk_hashes: after.chunk_hashes,
        status: after.status,
        active_operation: after.active_operation,
        ..before
    })
    &&& after.blocks.len() == before.blocks.len()
    &&& forall|b: int|
        0 <= b < after.blocks.len() ==> (#[trigger] after.blocks[b] <==> range.start <= b
            < range.end || before.blocks[b])
    &&& after.chunk_hashes.len() == before.chunk_hashes.len()
    &&& forall|c: int|
        0 <= c < after.chunk_hashes.len() && c * 64 < range.start ==> #[trigger]
        after.chunk_hashes[c] == before.chunk_hashes[c]
    &&& forall|c: int, j: int|
        0 <= c < after.chunk_hashes.len() && 0 <= j < hashes.len() && (c - j - 1) * 64
            < range.start <= (c - j) * 64 ==> #[trigger] after.chunk_hashes[c] == Some(
            #[trigger] hashes[j]@,
        )
    &&& forall|c: int|
        0 <= c < after.chunk_hashes.len() && (c - hashes.len()) * 64 >= range.start ==> #[trigger]
        after.chunk_hashes[c] == before.chunk_hashes[c]
}

/// A range that was fetched is there, with the digests that were taken on the way. The
/// file is complete if nothing is missing now, and else begun; a file that is complete
/// is closed. No other file changes, and the download finishes once it is complete with
/// this file.
pub proof fn law_fetched_ranges_are_there(
    m: SupervisorModel,
    k: int,
    range: Range<usize>,
    hashes: Vec<[u8; 16]>,
    gone: Seq<FolderId>,
    target: TargetOs,
)
    requires
        m.phase is Downloading,
        0 <= k < m.download.files.len(),
        unique_files(m.download.files),
    ensures
        ({
            let file_id = m.download.files[k].id;
            let (after, actions) = supervised(
                m,
                SupervisorEvent::Result(DownloadResult::Range { file_id, range, hashes }),
                gone,
                target,
            );
            let before = m.download.files[k];
            let f = after.download.files[k];
            let complete = forall|b: int| 0 <= b < f.blocks.len() ==> #[trigger] f.blocks[b];
            &&& after.phase is Downloading
            &&& has_taken(before, f, range, hashes@)
            &&& f.status == if complete {
                FileStatus::Completed
            } else {
                FileStatus::Partial
            }
            &&& others_stay(m.download.files, after.download.files, k)
            &&& after.open == if complete {
                m.open.remove(file_id.0)
            } else {
                m.open
            }
            &&& complete ==> f.active_operation is None
            &&& !complete ==> f.active_operation == before.active_operation
            &&& told(actions, 0, file_id, before.status, FileStatus::Partial)
            &&& complete && after.download.status is Completed ==> actions.len() > 0
                && actions.last() is Finish
            &&& !complete ==> forall|i: int|
                0 <= i < actions.len() ==> !((#[trigger] actions[i]) is Finish)
        }),
{
    let d = m.download;
    let id = d.files[k].id;
    lemma_place(d.files, k);
    law_set_file_status_sets_one_file(d, id, FileStatus::Partial, gone);
    let (begun, first) = spec_set_file_status(d, id, FileStatus::Partial, gone);
    assert(unique_files(begun.files)) by {
        assert forall|i: int, j: int|
            0 <= i < begun.files.len() && 0 <= j < begun.files.len() && (
            #[trigger] begun.files[i]).id == (#[trigger] begun.files[j]).id implies i == j by {
            assert(d.files[i].id == d.files[j].id);
        }
    }
    assert(forall|j: int|
        0 <= j < d.files.len() && j != k ==> (#[trigger] d.files[j]).id != d.files[k].id);
    lemma_place(begun.files, k);
    let f = ranged(begun.files[k], range.start as nat, range.end as nat, hashes@);
    assert(has_taken(d.files[k], f, range, hashes@));
    let taken = with_file_at(begun, k, f);
    lemma_swapped(begun, k, f);
    if all_there(f.blocks) {
        lemma_place(taken.files, k);
        law_one_operation_changes_nothing_else(taken, id, None);
        let (idle, operations) = spec_set_file_active_operation(taken, id, None);
        lemma_idle(taken, k);
        assert(unique_files(idle.files)) by {
            assert forall|i: int, j: int|
                0 <= i < idle.files.len() && 0 <= j < idle.files.len() && (
                #[trigger] idle.files[i]).id == (#[trigger] idle.files[j]).id implies i == j by {
                assert(taken.files[i].id == taken.files[j].id);
            }
        }
        law_set_file_status_sets_one_file(idle, id, FileStatus::Completed, gone);
    }
}

proof fn lemma_idle(d: DownloadModel, k: int)
    requires
        0 <= k < d.files.len(),
        unique_files(d.files),
        !d.files[k].status.spec_is_terminal(),
    ensures
        ({
            let after = spec_set_file_active_operation(d, d.files[k].id, None).0;
            &&& after.files[k].active_operation is None
            &&& others_stay(d.files, after.files, k)
        }),
{
    lemma_place(d.files, k);
}

/// The file that something was being done for.
pub open spec fn done_for(operation: DownloadOperation, id: FileId) -> bool {
    match operation {
        DownloadOperation::FetchingMetadata { file_id, .. } => file_id == id,
        DownloadOperation::DownloadingStream { file_id, .. } => file_id == id,
        DownloadOperation::DownloadingRange { file_id, .. } => file_id == id,
    }
}

/// When something is given up for want of a good answer, its file fails: by the server
/// if the answer was final, by the client if too many attempts failed. The download
/// is saved, no other file changes, and the work on the others goes on.
pub proof fn law_given_up_files_fail(
    m: SupervisorModel,
    k: int,
    failure: PermanentFailure,
    gone: Seq<FolderId>,
    target: TargetOs,
)
    requires
        m.phase is Downloading,
        0 <= k < m.download.files.len(),
        unique_files(m.download.files),
        done_for(failure.operation, m.download.files[k].id),
        !(failure.kind is Disk),
    ensures
        ({
            let (after, actions) = supervised(
                m,
                SupervisorEvent::Result(DownloadResult::Failed(failure)),
                gone,
                target,
            );
            let status = FileStatus::Failed(
                if failure.kind is Http {
                    FileFailureReason::ServerError
                } else {
                    FileFailureReason::ClientError
                },
            );
            let before = m.download.files[k];
            &&& after.phase is Downloading
            &&& after.open == m.open
            &&& after.download.files[k] == (FileModel { status, ..before })
            &&& others_stay(m.download.files, after.download.files, k)
            &&& told(actions, 0, before.id, before.status, status)
            &&& actions.contains(ActionModel::Save)
            &&& actions.contains(ActionModel::Finish) <==> after.download.status is Completed
        }),
{
    let d = m.download;
    let id = d.files[k].id;
    let status = FileStatus::Failed(
        if failure.kind is Http {
            FileFailureReason::ServerError
        } else {
            FileFailureReason::ClientError
        },
    );
    lemma_place(d.files, k);
    law_set_file_status_sets_one_file(d, id, status, gone);
    assert forall|j: int| 0 <= j < d.files.len() && j != k implies (#[trigger] d.files[j]).id
        != id by {
        assert(d.files[k].id == id);
    }
    let (after, actions) = supervised(
        m,
        SupervisorEvent::Result(DownloadResult::Failed(failure)),
        gone,
        target,
    );
    let changed = spec_set_file_status(d, id, status, gone).1;
    let at: int = if changed is Some {
        1
    } else {
        0
    };
    assert(actions[at] == ActionModel::Save);
    if after.download.status is Completed {
        assert(actions[at + 1] == ActionModel::Finish);
    }
}

proof fn lemma_fail_each(
    d: DownloadModel,
    ids: Seq<FileId>,
    reason: FileFailureReason,
    gone: Seq<FolderId>,
)
    requires
        unique_files(d.files),
    ensures
        ({
            let after = fail_each(d, ids, reason, gone).0;
            &&& after.files.len() == d.files.len()
            &&& forall|k: int|
                0 <= k < d.files.len() ==> #[trigger] after.files[k] == if ids.contains(
                    d.files[k].id,
                ) {
                    FileModel { status: FileStatus::Failed(reason), ..d.files[k] }
                } else {
                    d.files[k]
                }
        }),
    decreases ids.len(),
{
    if ids.len() > 0 {
        let rest = ids.drop_last();
        lemma_fail_each(d, rest, reason, gone);
        let before = fail_each(d, rest, reason, gone).0;
        assert(unique_files(before.files)) by {
            assert forall|i: int, j: int|
                0 <= i < before.files.len() && 0 <= j < before.files.len() && (
                #[trigger] before.files[i]).id == (#[trigger] before.files[j]).id implies i
                == j by {
                assert(d.files[i].id == d.files[j].id);
            }
        }
        law_set_file_status_sets_one_file(before, ids.last(), FileStatus::Failed(reason), gone);
        assert forall|id: FileId|
            ids.contains(id) == (#[trigger] rest.contains(id) || id == ids.last()) by {
            if ids.contains(id) {
                let i = choose|i: int| 0 <= i < ids.len() && ids[i] == id;
                if i < rest.len() {
                    assert(rest[i] == id);
                }
            }
            if rest.contains(id) {
                let i = choose|i: int| 0 <= i < rest.len() && rest[i] == id;
                assert(ids[i] == id);
            }
            assert(ids[ids.len() - 1] == ids.last());
        }
        let after = fail_each(d, ids, reason, gone).0;
        assert forall|k: int| 0 <= k < d.files.len() implies #[trigger] after.files[k]
            == if ids.contains(d.files[k].id) {
            FileModel { status: FileStatus::Failed(reason), ..d.files[k] }
        } else {
            d.files[k]
        } by {
            assert(before.files[k].id == d.files[k].id);
            assert(ids.contains(d.files[k].id) == (rest.contains(d.files[k].id) || d.files[k].id
                == ids.last()));
        }
    }
}

proof fn lemma_failable(files: Seq<FileModel>, id: FileId)
    ensures
        failable(files).contains(id) <==> exists|k: int|
            0 <= k < files.len() && (#[trigger] files[k]).id == id && (files[k].status is
                MetadataFetched || files[k].status is Partial),
    decreases files.len(),
{
    if files.len() > 0 {
        let rest = files.drop_last();
        let before = failable(rest);
        let all = failable(files);
        lemma_failable(rest, id);
        if all.contains(id) {
            let i = choose|i: int| 0 <= i < all.len() && all[i] == id;
            if i < before.len() {
                assert(before[i] == id);
                let k = choose|k: int|
                    0 <= k < rest.len() && (#[trigger] rest[k]).id == id && (rest[k].status is
                        MetadataFetched || rest[k].status is Partial);
                assert(files[k] == rest[k]);
            } else {
                assert(files[files.len() - 1] == files.last());
            }
        }
        if exists|k: int|
            0 <= k < files.len() && (#[trigger] files[k]).id == id && (files[k].status is
                MetadataFetched || files[k].status is Partial) {
            let k = choose|k: int|
                0 <= k < files.len() && (#[trigger] files[k]).id == id && (files[k].status is
                    MetadataFetched || files[k].status is Partial);
            if k < rest.len() {
                assert(rest[k] == files[k]);
                let i = choose|i: int| 0 <= i < before.len() && before[i] == id;
                assert(all[i] == id);
            } else {
                assert(all[all.len() - 1] == id);
            }
        }
    }
}

/// Whether every file that was begun and has not ended has failed for this reason, and
/// no other file has changed.
pub open spec fn begun_ones_failed(
    before: Seq<FileModel>,
    after: Seq<FileModel>,
    reason: FileFailureReason,
) -> bool {
    &&& after.len() == before.len()
    &&& forall|k: int|
        0 <= k < before.len() ==> #[trigger] after[k] == match before[k].status {
            FileStatus::MetadataFetched | FileStatus::Partial => FileModel {
                status: FileStatus::Failed(reason),
                ..before[k]
            },
            _ => before[k],
        }
}

proof fn lemma_all_fail(d: DownloadModel, reason: FileFailureReason, gone: Seq<FolderId>)
    requires
        unique_files(d.files),
    ensures
        begun_ones_failed(
            d.files,
            spec_set_all_files_failed(d, reason, gone).0.files,
            reason,
        ),
{
    lemma_fail_each(d, failable(d.files), reason, gone);
    let after = spec_set_all_files_failed(d, reason, gone).0.files;
    assert forall|k: int| 0 <= k < d.files.len() implies #[trigger] after[k]
        == match d.files[k].status {
        FileStatus::MetadataFetched | FileStatus::Partial => FileModel {
            status: FileStatus::Failed(reason),
            ..d.files[k]
        },
        _ => d.files[k],
    } by {
        lemma_failable(d.files, d.files[k].id);
    }
}

/// When the disk fails, every file that was begun and has not ended fails with it; the
/// clients are told, the download is saved, and the work ends.
pub proof fn law_disk_failures_end_the_work(
    m: SupervisorModel,
    failure: PermanentFailure,
    gone: Seq<FolderId>,
    target: TargetOs,
)
    requires
        m.phase is Downloading,
        unique_files(m.download.files),
        failure.kind is Disk,
    ensures
        ({
            let (after, actions) = supervised(
                m,
                SupervisorEvent::Result(DownloadResult::Failed(failure)),
                gone,
                target,
            );
            &&& after.phase is Ended
            &&& begun_ones_failed(
                m.download.files,
                after.download.files,
                FileFailureReason::DiskError,
            )
            &&& actions.len() == 3
            &&& actions[0] is ShowStatuses
            &&& actions[1] is Save
            &&& actions[2] is Stop
        }),
{
    lemma_all_fail(m.download, FileFailureReason::DiskError, gone);
}

/// When a download cannot be compared with what is on disk, every file that was begun
/// and has not ended fails by the client; the clients are told, the download is saved,
/// and the work ends. Nobody minds while the comparison is not awaited.
pub proof fn law_lost_comparisons_end_the_work(
    m: SupervisorModel,
    gone: Seq<FolderId>,
    target: TargetOs,
)
    requires
        unique_files(m.download.files),
    ensures
        ({
            let (after, actions) = supervised(m, SupervisorEvent::VerifierLost, gone, target);
            if m.phase == (Phase::Verifying { awaiting: true }) {
                &&& after.phase is Ended
                &&& begun_ones_failed(
                    m.download.files,
                    after.download.files,
                    FileFailureReason::ClientError,
                )
                &&& actions.len() == 3
                &&& actions[0] is ShowStatuses
                &&& actions[1] is Save
                &&& actions[2] is Stop
            } else {
                after == m && actions.len() == 0
            }
        }),
{
    lemma_all_fail(m.download, FileFailureReason::ClientError, gone);
}

/// What is not awaited is not heard: a comparison while files are fetched or after it
/// was paused, and jobs while the download is compared. A job that ends for a file
/// that is not there fetches nothing and changes no file.
pub proof fn law_what_is_not_awaited_is_not_heard(
    m: SupervisorModel,
    event: SupervisorEvent,
    gone: Seq<FolderId>,
    target: TargetOs,
)
    requires
        event is Verified || event is VerifierLost ==> m.phase != (Phase::Verifying {
            awaiting: true,
        }),
        event is Result || event is Operation ==> !(m.phase is Downloading),
        event is Tick || event is Command ==> m.phase is Ended,
    ensures
        supervised(m, event, gone, target) == (m, Seq::<ActionModel>::empty()),
{
}

/// From time to time the download is saved, and nothing else happens.
pub proof fn law_downloads_are_saved_from_time_to_time(
    m: SupervisorModel,
    gone: Seq<FolderId>,
    target: TargetOs,
)
    requires
        !(m.phase is Ended),
    ensures
        supervised(m, SupervisorEvent::Tick, gone, target).0 == m,
        supervised(m, SupervisorEvent::Tick, gone, target).1 == seq![ActionModel::Save],
{
}

/// A comparison that is paused is broken off, and its outcome is not awaited any more;
/// one that is taken up again starts afresh and is awaited. Neither touches the
/// download.
pub proof fn law_comparisons_can_be_paused(
    m: SupervisorModel,
    gone: Seq<FolderId>,
    target: TargetOs,
)
    requires
        m.phase is Verifying,
    ensures
        ({
            let pause = SupervisorEvent::Command(DownloadCommand::Pause);
            let resume = SupervisorEvent::Command(DownloadCommand::Resume);
            let (paused, stop) = supervised(m, pause, gone, target);
            let (resumed, start) = supervised(paused, resume, gone, target);
            &&& paused.phase == (Phase::Verifying { awaiting: false })
            &&& paused.download == m.download && paused.open == m.open
            &&& stop.contains(ActionModel::CancelVerification)
            &&& stop.contains(ActionModel::Save)
            &&& stop.len() == 2
            &&& resumed.phase == (Phase::Verifying { awaiting: true })
            &&& resumed.download == m.download && resumed.open == m.open
            &&& start == seq![ActionModel::StartVerification]
        }),
{
    let pause = SupervisorEvent::Command(DownloadCommand::Pause);
    let stop = supervised(m, pause, gone, target).1;
    assert(stop[0] == ActionModel::CancelVerification);
    assert(stop[1] == ActionModel::Save);
}

/// Work begins with the comparison with what is on disk: it is started and awaited, the
/// download is saved, the clients are told what is done, and nothing but that is noted.
pub proof fn law_work_begins_with_a_comparison(m: SupervisorModel)
    ensures
        ({
            let (after, actions) = started(m);
            &&& after.phase == (Phase::Verifying { awaiting: true })
            &&& same_but_operations(after.download, m.download)
            &&& after.open == m.open
            &&& forall|k: int|
                0 <= k < m.download.files.len() ==> (
                #[trigger] after.download.files[k]).active_operation
                    == match m.download.files[k].status {
                    FileStatus::Completed | FileStatus::NotFound | FileStatus::Failed(_) =>
                        m.download.files[k].active_operation,
                    _ => Some(ActiveOperation::Verifying),
                }
            &&& actions.len() == 3
            &&& actions[0] is ShowOperations
            &&& actions[1] is Save
            &&& actions[2] is StartVerification
        }),
{
    law_operations_change_nothing_else(m.download, Some(ActiveOperation::Verifying));
}

/// A download that is finished is saved, and the work ends: while it is compared, the
/// clients are told that nothing is done any more; while it is fetched, the rest of
/// the program is told.
pub proof fn law_finished_work_ends(m: SupervisorModel, gone: Seq<FolderId>, target: TargetOs)
    requires
        !(m.phase is Ended),
    ensures
        ({
            let finish = SupervisorEvent::Command(DownloadCommand::Finish);
            let (after, actions) = supervised(m, finish, gone, target);
            &&& after.phase is Ended
            &&& same_but_operations(after.download, m.download)
            &&& actions.len() == 3
            &&& actions[0] is Save
            &&& actions[2] is Stop
            &&& if m.phase is Downloading {
                after.download == m.download && actions[1] is TellFinished
            } else {
                actions[1] is ShowOperations
            }
        }),
{
    law_operations_change_nothing_else(m.download, None);
}

/// What the jobs report to be done for a file is noted with it, unless the file is done,
/// told to the clients, and changes nothing else.
pub proof fn law_reported_operations_are_noted(
    m: SupervisorModel,
    k: int,
    operation: ActiveOperation,
    gone: Seq<FolderId>,
    target: TargetOs,
)
    requires
        m.phase is Downloading,
        0 <= k < m.download.files.len(),
        unique_files(m.download.files),
    ensures
        ({
            let id = m.download.files[k].id;
            let event = SupervisorEvent::Operation(id, operation);
            let (after, actions) = supervised(m, event, gone, target);
            let before = m.download.files[k];
            let done = before.status is Completed || before.status is NotFound
                || before.status is Failed;
            &&& after.phase is Downloading && after.open == m.open
            &&& same_but_operations(after.download, m.download)
            &&& others_stay(m.download.files, after.download.files, k)
            &&& after.download.files[k].active_operation == if done {
                before.active_operation
            } else {
                Some(operation)
            }
            &&& actions.len() == 1
            &&& actions[0] matches ActionModel::ShowOperations(items) && (!done ==> items.len() > 0
                && items[0] == (ChangedItemOperation::File { id, operation: Some(operation) }))
        }),
{
    lemma_place(m.download.files, k);
    law_one_operation_changes_nothing_else(
        m.download,
        m.download.files[k].id,
        Some(operation),
    );
}

/// Whether this is noted as being done for every file that is not done.
pub open spec fn all_noted(
    before: Seq<FileModel>,
    after: Seq<FileModel>,
    operation: Option<ActiveOperation>,
) -> bool {
    &&& after.len() == before.len()
    &&& forall|k: int|
        0 <= k < before.len() ==> (#[trigger] after[k]).active_operation == match before[k].status {
            FileStatus::Completed | FileStatus::NotFound | FileStatus::Failed(_) =>
                before[k].active_operation,
            _ => operation,
        }
}

/// A download that is cancelled is first stopped, whatever runs for it: its comparison or its
/// jobs. One that is paused has its jobs stopped and begun anew, so that what the old ones
/// still report is not heard, and is noted as paused and saved; one that is taken up again is
/// noted as queued. The clients are told.
pub proof fn law_what_runs_is_stopped_first(
    m: SupervisorModel,
    from_disk: bool,
    gone: Seq<FolderId>,
    target: TargetOs,
)
    ensures
        ({
            let cancel = SupervisorEvent::Command(DownloadCommand::Cancel { from_disk });
            let (after, actions) = supervised(m, cancel, gone, target);
            &&& m.phase is Verifying ==> actions.len() > 0 && actions[0] is CancelVerification
            &&& m.phase is Downloading ==> actions.len() > 0 && actions[0] is CancelJobs
            &&& after.download == m.download
        }),
        ({
            let pause = SupervisorEvent::Command(DownloadCommand::Pause);
            let (after, actions) = supervised(m, pause, gone, target);
            m.phase is Downloading ==> {
                &&& actions.len() == 4
                &&& actions[0] is CancelJobs && actions[1] is RenewJobs
                &&& actions[2] is ShowOperations && actions[3] is Save
                &&& all_noted(
                    m.download.files,
                    after.download.files,
                    Some(ActiveOperation::Paused),
                )
            }
        }),
        ({
            let resume = SupervisorEvent::Command(DownloadCommand::Resume);
            let (after, actions) = supervised(m, resume, gone, target);
            m.phase is Downloading ==> {
                &&& actions.len() > 0 && actions[0] is ShowOperations
                &&& all_noted(
                    m.download.files,
                    after.download.files,
                    Some(ActiveOperation::Queued),
                )
            }
        }),
{
    law_operations_change_nothing_else(m.download, Some(ActiveOperation::Paused));
    law_operations_change_nothing_else(m.download, Some(ActiveOperation::Queued));
}

} // verus!
