//! What every command to the two managers of downloads does.

use vstd::prelude::*;
#[allow(unused_imports)]
use crate::app::settings::SettingsModel;
#[allow(unused_imports)]
use crate::app_manager::{manager_step, AppManagerCommand, ManagerActionModel, ManagerModel};
#[allow(unused_imports)]
use crate::download::download_manager::{
    all_found, download_step, greatest, place, waits, with_restored, DownloadManagerModel,
    ManagerCommand, SavedFile, SavedStatus,
};
#[allow(unused_imports)]
use crate::download::error::FileFailureReason;
#[allow(unused_imports)]
use crate::download::items::{DownloadId, FileId};
#[allow(unused_imports)]
use crate::download::tree::Download;
#[allow(unused_imports)]
use crate::utils::kept::lemma_kept_step;
#[allow(unused_imports)]
use crate::verification_tracker::TrackerModel;

verus! {

/// Whether these actions remove a download for good: its files only if that was asked for.
pub open spec fn removes(
    actions: Seq<ManagerActionModel>,
    id: DownloadId,
    from_disk: bool,
) -> bool {
    &&& actions.contains(ManagerActionModel::DeleteFromDatabase(id))
    &&& actions.contains(ManagerActionModel::ShowRemoved(id))
    &&& actions.contains(ManagerActionModel::DeleteFiles(id)) <==> from_disk
    &&& forall|k: int|
        0 <= k < actions.len() ==> {
            let a = #[trigger] actions[k];
            a == ManagerActionModel::DeleteFiles(id) || a == ManagerActionModel::DeleteFromDatabase(
                id,
            ) || a == ManagerActionModel::ShowRemoved(id)
        }
}

/// A URL that is new gets the next number, and the work on it is queued. One that is known
/// is not queued again.
pub proof fn law_new_urls_are_queued(m: ManagerModel, url: String)
    requires
        m.registry.next < usize::MAX,
    ensures
        ({
            let (after, actions) = manager_step(m, AppManagerCommand::QueueDownload(url));
            let id = DownloadId(m.registry.next);
            if m.registry.urls.contains_key(url@) {
                after == m && actions.len() == 0
            } else {
                &&& actions == seq![ManagerActionModel::QueueWork { url: url@, id }]
                &&& after.registry.next == m.registry.next + 1
                &&& after.registry.urls.contains_key(url@) && after.registry.urls[url@] == id
                &&& after.registry.ids.contains_key(id.0) && after.registry.ids[id.0] == url@
                &&& after.settings == m.settings && after.tracker == m.tracker
            }
        }),
{
}

/// To remove a download its comparison is stopped if one runs, or else its work if there is
/// any; without either it is cleaned up at once. Until then nothing of it is forgotten, and
/// whether it goes from disk too is remembered.
pub proof fn law_removal_stops_the_work_first(m: ManagerModel, id: DownloadId, from_disk: bool)
    ensures
        ({
            let command = AppManagerCommand::RemoveDownload(id, from_disk);
            let (after, actions) = manager_step(m, command);
            &&& after.registry.removed.contains_key(id.0)
            &&& after.registry.removed[id.0] == from_disk
            &&& after.registry.urls == m.registry.urls && after.registry.ids == m.registry.ids
            &&& after.settings == m.settings && after.tracker == m.tracker
            &&& actions.len() == 1
            &&& if m.tracker.verifying.contains(id.0) {
                actions[0] == ManagerActionModel::CancelVerification(id)
            } else if m.registry.ids.contains_key(id.0) {
                actions[0] == (ManagerActionModel::CancelWork { url: m.registry.ids[id.0], id })
            } else {
                actions[0] == ManagerActionModel::CleanUp(id)
            }
        }),
{
}

/// A download that was to be removed is, once nobody works on it any more; then nothing
/// remembers it. One that was not is left where it is.
pub proof fn law_removed_downloads_are_cleaned_up(m: ManagerModel, id: DownloadId)
    ensures
        ({
            let (after, actions) = manager_step(m, AppManagerCommand::CleanUpDownload(id));
            &&& m.registry.removed.contains_key(id.0) ==> removes(
                actions,
                id,
                m.registry.removed[id.0],
            )
            &&& !m.registry.removed.contains_key(id.0) ==> actions.len() == 0
            &&& !after.registry.ids.contains_key(id.0)
            &&& !after.registry.removed.contains_key(id.0)
            &&& !after.tracker.verifying.contains(id.0) && !after.tracker.needed.contains(id.0)
            &&& forall|x: usize|
                x != id.0 ==> (#[trigger] after.tracker.needed.contains(x)
                    <==> m.tracker.needed.contains(x))
            &&& after.settings == m.settings
        }),
{
    let actions = manager_step(m, AppManagerCommand::CleanUpDownload(id)).1;
    if m.registry.removed.contains_key(id.0) {
        lemma_removes(actions, id, m.registry.removed[id.0]);
    }
}

proof fn lemma_removes(actions: Seq<ManagerActionModel>, id: DownloadId, from_disk: bool)
    requires
        actions == (if from_disk {
            seq![ManagerActionModel::DeleteFiles(id)]
        } else {
            Seq::empty()
        }) + seq![
            ManagerActionModel::DeleteFromDatabase(id),
            ManagerActionModel::ShowRemoved(id),
        ],
    ensures
        removes(actions, id, from_disk),
{
    let at: int = if from_disk {
        1
    } else {
        0
    };
    assert(actions[at] == ManagerActionModel::DeleteFromDatabase(id));
    assert(actions[at + 1] == ManagerActionModel::ShowRemoved(id));
    if from_disk {
        assert(actions[0] == ManagerActionModel::DeleteFiles(id));
    }
}

/// A pause reaches the comparison, and the work if there is any.
pub proof fn law_pauses_reach_the_work(m: ManagerModel, id: DownloadId)
    ensures
        ({
            let (after, actions) = manager_step(m, AppManagerCommand::PauseDownload(id));
            &&& actions.len() > 0 && actions[0] == ManagerActionModel::PauseVerification(id)
            &&& m.registry.ids.contains_key(id.0) ==> actions.len() == 2 && actions[1] == (
            ManagerActionModel::PauseWork { url: m.registry.ids[id.0], id })
            &&& !m.registry.ids.contains_key(id.0) ==> actions.len() == 1
            &&& !after.tracker.verifying.contains(id.0)
            &&& after.tracker.needed == m.tracker.needed
            &&& after.registry == m.registry && after.settings == m.settings
        }),
{
}

/// A download that is taken up again is compared first if that is still due, and else goes on
/// under its own settings; and so does one whose comparison has ended, unless nobody awaits
/// that or it is being removed.
pub proof fn law_resumed_downloads_go_on(m: ManagerModel, download: Download)
    ensures
        ({
            let (after, actions) = manager_step(m, AppManagerCommand::ResumeDownload(download));
            let id = download.id.0;
            let own = if m.settings.downloads.contains_key(id) {
                Some(m.settings.downloads[id])
            } else {
                None
            };
            &&& after.registry == m.registry && after.settings == m.settings
            &&& after.tracker.needed == m.tracker.needed
            &&& if m.tracker.needed.contains(id) {
                &&& actions == seq![ManagerActionModel::Verify(download)]
                &&& after.tracker.verifying.contains(id)
            } else {
                &&& actions == seq![ManagerActionModel::ResumeWork { download, settings: own }]
                &&& after.tracker == m.tracker
            }
        }),
        ({
            let (after, actions) = manager_step(m, AppManagerCommand::DownloadVerified(download));
            let id = download.id.0;
            let own = if m.settings.downloads.contains_key(id) {
                Some(m.settings.downloads[id])
            } else {
                None
            };
            if m.tracker.verifying.contains(id) && !m.registry.removed.contains_key(id) {
                &&& actions == seq![ManagerActionModel::ResumeWork { download, settings: own }]
                &&& !after.tracker.verifying.contains(id)
                &&& !after.tracker.needed.contains(id)
                &&& after.registry == m.registry && after.settings == m.settings
            } else {
                after == m && actions.len() == 0
            }
        }),
        manager_step(m, AppManagerCommand::Shutdown).0 == m,
        manager_step(m, AppManagerCommand::Shutdown).1 == seq![ManagerActionModel::Stop],
{
}

/// Every limit that is set holds from then on, is saved, and is put in force where it
/// belongs; a file that is not there gets none. Nothing but settings changes.
pub proof fn law_limits_are_put_in_force(
    m: ManagerModel,
    limit: Option<u64>,
    host: String,
    id: DownloadId,
    file: FileId,
)
    ensures
        ({
            let (after, actions) = manager_step(m, AppManagerCommand::SetGlobalSpeedLimit(limit));
            &&& after == (ManagerModel {
                settings: SettingsModel { global: limit, ..m.settings },
                ..m
            })
            &&& actions == seq![
                ManagerActionModel::SaveSettings,
                ManagerActionModel::LimitGlobal(limit),
            ]
        }),
        ({
            let command = AppManagerCommand::SetHostSpeedLimit(host, limit);
            let (after, actions) = manager_step(m, command);
            &&& after.settings.hosts.contains_key(host@)
            &&& after.settings.hosts[host@].speed_limit == limit
            &&& after.settings.global == m.settings.global
            &&& after.settings.downloads == m.settings.downloads
            &&& after.registry == m.registry && after.tracker == m.tracker
            &&& actions == seq![
                ManagerActionModel::SaveSettings,
                ManagerActionModel::LimitHost { host: host@, limit },
            ]
        }),
        ({
            let command = AppManagerCommand::SetDownloadSpeedLimit(id, limit);
            let (after, actions) = manager_step(m, command);
            &&& m.settings.downloads.contains_key(id.0) ==> after.settings.downloads.contains_key(
                id.0,
            ) && after.settings.downloads[id.0].speed_limit == limit
            &&& !m.settings.downloads.contains_key(id.0) ==> after.settings == m.settings
            &&& after.registry == m.registry && after.tracker == m.tracker
            &&& actions == seq![
                ManagerActionModel::SaveSettings,
                ManagerActionModel::LimitDownload { id, limit },
            ]
        }),
        ({
            let (there, actions) = manager_step(
                m,
                AppManagerCommand::SetFileSpeedLimit { id, file, limit, exists: true },
            );
            let (missing, nothing) = manager_step(
                m,
                AppManagerCommand::SetFileSpeedLimit { id, file, limit, exists: false },
            );
            &&& missing == m && nothing.len() == 0
            &&& there.settings.downloads.contains_key(id.0)
            &&& there.settings.downloads[id.0].files.contains_key(file.0)
            &&& there.settings.downloads[id.0].files[file.0].speed_limit == limit
            &&& there.registry == m.registry && there.tracker == m.tracker
            &&& actions == seq![
                ManagerActionModel::SaveSettings,
                ManagerActionModel::LimitFile { id, file, limit },
            ]
        }),
{
}

/// A download that nobody compares any more is not due either, and the others are not
/// affected.
pub proof fn law_comparisons_are_forgotten_one_by_one(
    t: TrackerModel,
    id: DownloadId,
    other: usize,
)
    ensures
        !t.without(id).verifying.contains(id.0),
        !t.without(id).needed.contains(id.0),
        other != id.0 ==> t.without(id).verifying.contains(other) == t.verifying.contains(other),
        other != id.0 ==> t.without(id).needed.contains(other) == t.needed.contains(other),
{
}

/// A new URL waits under the next number in the registry, and one that is known is not
/// queued again.
pub proof fn law_new_urls_get_work(m: DownloadManagerModel, url: String)
    requires
        m.next < usize::MAX,
    ensures
        ({
            let (after, actions) = download_step(m, ManagerCommand::QueueDownload(url));
            let id = DownloadId(m.next);
            if m.registry.urls.contains_key(url@) {
                after == m && actions.len() == 0
            } else {
                &&& actions == seq![ManagerActionModel::QueueWork { url: url@, id }]
                &&& after.next == m.next + 1
                &&& after.registry.urls.contains_key(url@) && after.registry.urls[url@] == id
                &&& after.registry.ids.contains_key(id.0) && after.registry.ids[id.0] == url@
                &&& after.queue == m.queue && after.settings == m.settings
            }
        }),
{
}

/// To remove a download that waits, or that nobody works on, it is cleaned up at once; the
/// work on any other is cancelled first. Whether it goes from disk too is remembered, and
/// those that wait keep their order.
pub proof fn law_waiting_downloads_are_removed_at_once(
    m: DownloadManagerModel,
    id: DownloadId,
    from_disk: bool,
)
    ensures
        ({
            let command = ManagerCommand::RemoveDownload(id, from_disk);
            let (after, actions) = download_step(m, command);
            let waiting = exists|i: int|
                0 <= i < m.queue.len() && (#[trigger] m.queue[i]).0 == id.0;
            &&& after.registry.removed.contains_key(id.0)
            &&& after.registry.removed[id.0] == from_disk
            &&& after.settings == m.settings && after.next == m.next
            &&& actions.len() == 1
            &&& waiting ==> actions[0] == ManagerActionModel::CleanUp(id)
            &&& waiting ==> exists|i: int|
                0 <= i < m.queue.len() && (#[trigger] m.queue[i]).0 == id.0 && after.queue
                    == m.queue.subrange(0, i) + m.queue.subrange(i + 1, m.queue.len() as int)
            &&& !waiting ==> after.queue == m.queue
            &&& !waiting && m.registry.ids.contains_key(id.0) ==> actions[0] == (
            ManagerActionModel::CancelWork { url: m.registry.ids[id.0], id })
            &&& !waiting && !m.registry.ids.contains_key(id.0) ==> actions[0]
                == ManagerActionModel::CleanUp(id)
        }),
{
    if waits(m.queue, id.0) {
        let i = place(m.queue, id.0);
        assert(m.queue[i].0 == id.0);
        assert(m.queue.remove(i) =~= m.queue.subrange(0, i) + m.queue.subrange(
            i + 1,
            m.queue.len() as int,
        ));
    }
}

/// A download that was to be removed is, once nobody works on it any more, and one that was
/// not is left where it is. Pausing, going on and shutting down change nothing here, and
/// reach the work.
pub proof fn law_work_is_told_on(m: DownloadManagerModel, id: DownloadId, download: Download)
    ensures
        ({
            let (after, actions) = download_step(m, ManagerCommand::CleanUpDownload(id));
            &&& m.registry.removed.contains_key(id.0) ==> removes(
                actions,
                id,
                m.registry.removed[id.0],
            )
            &&& !m.registry.removed.contains_key(id.0) ==> actions.len() == 0
            &&& !after.registry.ids.contains_key(id.0)
            &&& !after.registry.removed.contains_key(id.0)
            &&& after.queue == m.queue && after.settings == m.settings && after.next == m.next
        }),
        ({
            let (after, actions) = download_step(m, ManagerCommand::PauseDownload(id));
            &&& after == m
            &&& m.registry.ids.contains_key(id.0) ==> actions == seq![
                ManagerActionModel::PauseWork { url: m.registry.ids[id.0], id },
            ]
            &&& !m.registry.ids.contains_key(id.0) ==> actions.len() == 0
        }),
        ({
            let (after, actions) = download_step(m, ManagerCommand::ResumeDownload(download));
            let own = if m.settings.downloads.contains_key(download.id.0) {
                Some(m.settings.downloads[download.id.0])
            } else {
                None
            };
            &&& after == m
            &&& actions == seq![ManagerActionModel::ResumeWork { download, settings: own }]
        }),
        download_step(m, ManagerCommand::Shutdown).0 == m,
        download_step(m, ManagerCommand::Shutdown).1 == seq![ManagerActionModel::Stop],
{
    let actions = download_step(m, ManagerCommand::CleanUpDownload(id)).1;
    if m.registry.removed.contains_key(id.0) {
        lemma_removes(actions, id, m.registry.removed[id.0]);
    }
}

/// Every limit that is set holds from then on, is saved, and is put in force where it
/// belongs. A file gets one only if it is there and its download has settings.
pub proof fn law_settings_are_put_in_force(
    m: DownloadManagerModel,
    limit: Option<u64>,
    host: String,
    id: DownloadId,
    file: FileId,
    exists: bool,
)
    ensures
        ({
            let (after, actions) = download_step(m, ManagerCommand::SetGlobalSpeedLimit(limit));
            &&& after == (DownloadManagerModel {
                settings: SettingsModel { global: limit, ..m.settings },
                ..m
            })
            &&& actions == seq![
                ManagerActionModel::SaveSettings,
                ManagerActionModel::LimitGlobal(limit),
            ]
        }),
        ({
            let (after, actions) = download_step(m, ManagerCommand::SetHostSpeedLimit(host, limit));
            &&& after.settings.hosts.contains_key(host@)
            &&& after.settings.hosts[host@].speed_limit == limit
            &&& after.registry == m.registry && after.queue == m.queue
            &&& actions == seq![
                ManagerActionModel::SaveSettings,
                ManagerActionModel::LimitHost { host: host@, limit },
            ]
        }),
        ({
            let (after, actions) = download_step(
                m,
                ManagerCommand::SetDownloadSpeedLimit(id, limit),
            );
            &&& m.settings.downloads.contains_key(id.0) ==> after.settings.downloads.contains_key(
                id.0,
            ) && after.settings.downloads[id.0].speed_limit == limit
            &&& after.registry == m.registry && after.queue == m.queue
            &&& actions == seq![
                ManagerActionModel::SaveSettings,
                ManagerActionModel::LimitDownload { id, limit },
            ]
        }),
        ({
            let command = ManagerCommand::SetFileSpeedLimit { id, file, limit, exists };
            let (after, actions) = download_step(m, command);
            if exists && m.settings.downloads.contains_key(id.0) {
                &&& after.settings.downloads.contains_key(id.0)
                &&& after.settings.downloads[id.0].files.contains_key(file.0)
                &&& after.settings.downloads[id.0].files[file.0].speed_limit == limit
                &&& after.registry == m.registry && after.queue == m.queue
                &&& actions == seq![
                    ManagerActionModel::SaveSettings,
                    ManagerActionModel::LimitFile { id, file, limit },
                ]
            } else {
                after == m && actions.len() == 0
            }
        }),
{
}

/// Every download that was stored waits after a start, under its own number and URL, behind
/// those that waited, if no number is stored or waits twice.
pub proof fn law_stored_downloads_wait(queue: Seq<(usize, Seq<char>)>, restored: Seq<Download>)
    requires
        forall|i: int, j: int|
            0 <= i < j < restored.len() ==> (#[trigger] restored[i]).id != (
            #[trigger] restored[j]).id,
        forall|i: int, j: int|
            0 <= i < queue.len() && 0 <= j < restored.len() ==> (#[trigger] queue[i]).0 != (
            #[trigger] restored[j]).id.0,
    ensures
        ({
            let after = with_restored(queue, restored);
            &&& after.len() == queue.len() + restored.len()
            &&& forall|i: int| 0 <= i < queue.len() ==> #[trigger] after[i] == queue[i]
            &&& forall|j: int|
                0 <= j < restored.len() ==> after[(queue.len() + j) as int] == (
                    (#[trigger] restored[j]).id.0,
                    restored[j].url@,
                )
        }),
    decreases restored.len(),
{
    if restored.len() > 0 {
        let rest = restored.drop_last();
        let last = restored.last();
        let n = rest.len() as int;
        assert(restored[n] == last);
        assert forall|i: int, j: int| 0 <= i < j < rest.len() implies (#[trigger] rest[i]).id != (
        #[trigger] rest[j]).id by {
            assert(restored[i].id != restored[j].id);
        }
        assert forall|i: int, j: int| 0 <= i < queue.len() && 0 <= j < rest.len() implies (
        #[trigger] queue[i]).0 != (#[trigger] rest[j]).id.0 by {
            assert(restored[j] == rest[j]);
        }
        law_stored_downloads_wait(queue, rest);
        let before = with_restored(queue, rest);
        assert(!waits(before, last.id.0)) by {
            if waits(before, last.id.0) {
                let i = choose|i: int|
                    0 <= i < before.len() && (#[trigger] before[i]).0 == last.id.0;
                if i < queue.len() {
                    assert(before[i] == queue[i]);
                    assert(queue[i].0 != restored[n].id.0);
                } else {
                    let j = i - queue.len();
                    assert(before[(queue.len() + j) as int] == (rest[j].id.0, rest[j].url@));
                    assert(restored[j].id != restored[n].id);
                }
            }
        }
        let after = with_restored(queue, restored);
        assert forall|j: int| 0 <= j < restored.len() implies after[(queue.len() + j) as int] == (
            (#[trigger] restored[j]).id.0,
            restored[j].url@,
        ) by {
            if j < n {
                assert(rest[j] == restored[j]);
                assert(before[(queue.len() + j) as int] == (rest[j].id.0, rest[j].url@));
            }
        }
    }
}

/// The greatest number of some downloads is that of one of them, and none has a greater.
pub proof fn law_the_greatest_number_is_found(restored: Seq<Download>)
    ensures
        forall|i: int| 0 <= i < restored.len() ==> (#[trigger] restored[i]).id.0 <= greatest(
            restored,
        ),
        greatest(restored) > 0 ==> exists|i: int|
            0 <= i < restored.len() && (#[trigger] restored[i]).id.0 == greatest(restored),
    decreases restored.len(),
{
    if restored.len() > 0 {
        let rest = restored.drop_last();
        law_the_greatest_number_is_found(rest);
        assert(restored[restored.len() - 1] == restored.last());
        assert forall|i: int| 0 <= i < restored.len() implies (#[trigger] restored[i]).id.0
            <= greatest(restored) by {
            if i < rest.len() {
                assert(rest[i] == restored[i]);
            }
        }
        if greatest(rest) > 0 && restored.last().id.0 <= greatest(rest) {
            let i = choose|i: int|
                0 <= i < rest.len() && (#[trigger] rest[i]).id.0 == greatest(rest);
            assert(restored[i] == rest[i]);
        }
    }
}

/// Whether a saved file has to be on disk: it is complete, or its size is known and it was
/// begun.
pub open spec fn has_to_be_there(f: SavedFile) -> bool {
    ||| f.status == SavedStatus::Completed
    ||| f.has_size && (f.status == SavedStatus::Paused || f.status == SavedStatus::InProgress
        || f.status == SavedStatus::Waiting || f.status == SavedStatus::Retrying)
}

/// Whether something is amiss with a saved file.
pub open spec fn went_wrong() -> spec_fn(SavedFile) -> bool {
    |f: SavedFile|
        (has_to_be_there(f) && !f.exists) || (f.status == SavedStatus::Completed && f.exists
            && !(f.hash is Some && f.hash->0 == f.found))
}

/// What is noted of a saved file with which something is amiss.
pub open spec fn noted_as() -> spec_fn(SavedFile) -> (FileId, SavedStatus) {
    |f: SavedFile|
        (
            f.id,
            if f.exists {
                SavedStatus::Failed(FileFailureReason::HashMismatch)
            } else {
                SavedStatus::NotFound
            },
        )
}

/// Every saved file that has to be on disk and is not is noted as not found, and every
/// complete one with another digest than it should have as failed, in the order of the
/// files; and nothing is noted of any other.
pub proof fn law_every_saved_file_is_looked_at(files: Seq<SavedFile>)
    ensures
        all_found(files) == files.filter(went_wrong()).map_values(noted_as()),
    decreases files.len(),
{
    lemma_kept_step(files, went_wrong(), noted_as());
    if files.len() > 0 {
        law_every_saved_file_is_looked_at(files.drop_last());
    }
}

} // verus!
