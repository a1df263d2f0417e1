//! What holds of the work on a download, whatever happens.

#[allow(unused_imports)]
use std::ops::Range;

use vstd::prelude::*;
#[allow(unused_imports)]
use crate::download::error::FileFailureReason;
#[allow(unused_imports)]
use crate::download::fetched::ranged;
#[allow(unused_imports)]
use crate::download::folder_status::{child_count, in_bucket};
#[allow(unused_imports)]
use crate::download::items::{ActiveOperation, FileId, FileModel, FileSize, FolderId};
#[allow(unused_imports)]
use crate::download::operations::{
    law_operations_change_nothing_else, same_but_operations, spec_set_active_operation,
};
#[allow(unused_imports)]
use crate::download::ranges::ranges_from;
#[allow(unused_imports)]
use crate::download::status::{FileStatus, StatusBucket};
#[allow(unused_imports)]
use crate::download::supervisor::{
    all_there, counters_low, one_failed, queue_first, queued, range_ended, roomy, stream_ended,
    supervised, ActionModel, DownloadCommand, SupervisorEvent, SupervisorModel,
};
#[allow(unused_imports)]
use crate::download::tree::{spec_set_file_status, DownloadModel};
#[allow(unused_imports)]
use crate::download::tables::find_file;
#[allow(unused_imports)]
use crate::download::tree_laws::{counted, lemma_linked_folder, lemma_tally_bound, tally, tree_ok};
#[allow(unused_imports)]
use crate::utils::file_utils::TargetOs;

verus! {

/// Once the work has ended, nothing more is done.
pub proof fn law_ended_work_stays_ended(
    m: SupervisorModel,
    event: SupervisorEvent,
    gone: Seq<FolderId>,
    target: TargetOs,
)
    requires
        m.phase is Ended,
    ensures
        supervised(m, event, gone, target) == (m, Seq::<ActionModel>::empty()),
{
}

/// A download that is cancelled is gone from the database and from the clients' view,
/// the rest of the program is told, and the work ends; it is gone from disk if that
/// was asked for, and only then.
pub proof fn law_cancelled_download_is_gone(
    m: SupervisorModel,
    from_disk: bool,
    gone: Seq<FolderId>,
    target: TargetOs,
)
    requires
        !(m.phase is Ended),
    ensures
        ({
            let event = SupervisorEvent::Command(DownloadCommand::Cancel { from_disk });
            let (after, actions) = supervised(m, event, gone, target);
            &&& after.phase is Ended
            &&& actions.contains(ActionModel::DeleteFromDatabase)
            &&& actions.contains(ActionModel::ShowRemoved)
            &&& actions.contains(ActionModel::TellRemoved)
            &&& actions.last() == ActionModel::Stop
            &&& actions.contains(ActionModel::DeleteFromDisk) <==> from_disk
        }),
{
    let event = SupervisorEvent::Command(DownloadCommand::Cancel { from_disk });
    let actions = supervised(m, event, gone, target).1;
    if from_disk {
        assert(actions[1] == ActionModel::DeleteFromDisk);
        assert(actions[2] == ActionModel::DeleteFromDatabase);
        assert(actions[3] == ActionModel::ShowRemoved);
        assert(actions[4] == ActionModel::TellRemoved);
    } else {
        assert(actions[1] == ActionModel::DeleteFromDatabase);
        assert(actions[2] == ActionModel::ShowRemoved);
        assert(actions[3] == ActionModel::TellRemoved);
        assert(actions.len() == 5);
    }
}

/// A pause loses nothing of what was fetched: no job goes on, and of the download
/// nothing changes but what is being done for it.
pub proof fn law_pause_loses_nothing(m: SupervisorModel, gone: Seq<FolderId>, target: TargetOs)
    requires
        m.phase is Downloading,
    ensures
        ({
            let (after, actions) = supervised(
                m,
                SupervisorEvent::Command(DownloadCommand::Pause),
                gone,
                target,
            );
            &&& same_but_operations(after.download, m.download)
            &&& after.phase is Downloading
            &&& after.open == m.open
            &&& actions[0] == ActionModel::CancelJobs
            &&& actions.last() == ActionModel::Save
        }),
{
    law_operations_change_nothing_else(m.download, Some(ActiveOperation::Paused));
}

/// Whether an action asks for all that is missing of a file of so many bytes.
pub open spec fn asks_for(action: ActionModel, f: FileModel, size: u64) -> bool {
    action matches ActionModel::QueueRanges { file_id, ranges, .. } && file_id == f.id && ranges
        == ranges_from(f.blocks, size as nat, 0)
}

/// What `queue_first` queues of one file.
proof fn lemma_queued_file(files: Seq<FileModel>, n: nat, open: Set<usize>, k: int, size: u64)
    requires
        n <= files.len(),
        0 <= k < n,
        files[k].size == Some(FileSize::Known(size)),
        !(files[k].status is Completed),
        !all_there(files[k].blocks),
    ensures
        exists|i: int|
            0 <= i < queue_first(files, n, open).1.len() && asks_for(
                #[trigger] queue_first(files, n, open).1[i],
                files[k],
                size,
            ),
    decreases n,
{
    let before = queue_first(files, (n - 1) as nat, open);
    let all = queue_first(files, n, open);
    if k < n - 1 {
        lemma_queued_file(files, (n - 1) as nat, open, k, size);
        let i = choose|i: int|
            0 <= i < before.1.len() && asks_for(#[trigger] before.1[i], files[k], size);
        assert(all.1[i] == before.1[i]);
    } else {
        assert(asks_for(all.1[all.1.len() - 1], files[k], size));
    }
}

/// A download that is taken up again asks for all that is missing of every file whose
/// size is known.
pub proof fn law_resume_asks_for_what_is_missing(
    m: SupervisorModel,
    gone: Seq<FolderId>,
    target: TargetOs,
    k: int,
    size: u64,
)
    requires
        m.phase is Downloading,
        0 <= k < m.download.files.len(),
        m.download.files[k].size == Some(FileSize::Known(size)),
        !(m.download.files[k].status is Completed),
        !all_there(m.download.files[k].blocks),
    ensures
        ({
            let actions = supervised(
                m,
                SupervisorEvent::Command(DownloadCommand::Resume),
                gone,
                target,
            ).1;
            exists|i: int|
                0 <= i < actions.len() && asks_for(
                    #[trigger] actions[i],
                    m.download.files[k],
                    size,
                )
        }),
{
    let op = Some(ActiveOperation::Queued);
    law_operations_change_nothing_else(m.download, op);
    let after = spec_set_active_operation(m.download, op).0;
    let f = m.download.files[k];
    assert(after.files[k] == (FileModel {
        active_operation: after.files[k].active_operation,
        ..f
    }));
    lemma_queued_file(after.files, after.files.len(), m.open, k, size);
    let queue = queue_first(after.files, after.files.len(), m.open).1;
    let actions = queued(m).1;
    let i = choose|i: int|
        0 <= i < queue.len() && asks_for(#[trigger] queue[i], after.files[k], size);
    assert(actions[i + 1] == queue[i]);
    assert(asks_for(actions[i + 1], f, size));
    let event = SupervisorEvent::Command(DownloadCommand::Resume);
    assert(supervised(m, event, gone, target).1 == actions);
}

/// When a file is complete, or fails, and the download is complete with it, the
/// download is to finish.
pub proof fn law_complete_download_finishes(
    m: SupervisorModel,
    id: FileId,
    bytes: u64,
    reason: FileFailureReason,
    gone: Seq<FolderId>,
)
    ensures
        ({
            let (after, actions) = stream_ended(m, id, bytes, gone);
            actions.len() > 0 && after.download.status is Completed ==> actions.last()
                == ActionModel::Finish
        }),
        ({
            let (after, actions) = one_failed(m, id, reason, gone);
            after.download.status is Completed ==> actions.last() == ActionModel::Finish
        }),
{
}

/// When the last range of a file was fetched, and the download is complete with it,
/// the download is to finish, and the file is closed.
pub proof fn law_last_range_finishes(
    m: SupervisorModel,
    id: FileId,
    range: Range<usize>,
    hashes: Seq<[u8; 16]>,
    gone: Seq<FolderId>,
)
    requires
        ({
            let begun = spec_set_file_status(m.download, id, FileStatus::Partial, gone).0;
            find_file(begun.files, id) matches Some(i) && all_there(
                ranged(begun.files[i], range.start as nat, range.end as nat, hashes).blocks,
            )
        }),
    ensures
        ({
            let (after, actions) = range_ended(m, id, range, hashes, gone);
            &&& !after.open.contains(id.0)
            &&& after.download.status is Completed ==> actions.last() == ActionModel::Finish
        }),
{
}

/// Whether the children of every folder are few enough to be counted through an
/// event.
pub open spec fn spacious(d: DownloadModel) -> bool {
    forall|i: int|
        0 <= i < d.folders.len() ==> child_count(#[trigger] d.folders[i]) + (d.files.len() + 2)
            * d.folders.len() <= usize::MAX
}

/// While files and folders hang together as a tree, its folders can count on. Whether its
/// counters are low depends on how many items there are, and not on what happened.
pub proof fn law_trees_leave_room(d: DownloadModel)
    requires
        tree_ok(d),
    ensures
        roomy(d),
        spacious(d) ==> counters_low(d),
{
    let needed = (d.files.len() + 2) * d.folders.len();
    assert forall|i: int| 0 <= i < d.folders.len() implies (#[trigger] d.folders[i]).counters.len()
        == 6 by {
        lemma_linked_folder(d.files, d.folders, i);
    }
    assert forall|i: int, b: StatusBucket|
        spacious(d) && 0 <= i < d.folders.len() implies #[trigger]
        d.folders[i].counters[b.index()] + needed <= usize::MAX by {
        let f = d.folders[i];
        lemma_linked_folder(d.files, d.folders, i);
        lemma_tally_bound(f, d.files, d.folders, b);
        assert(counted(f, d.files, d.folders));
        assert(in_bucket(f, b) == tally(f, d.files, d.folders, b));
        assert(child_count(f) + needed <= usize::MAX);
    }
}

} // verus!
