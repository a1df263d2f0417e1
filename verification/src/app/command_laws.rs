//! What every command to the program does, and what it leaves alone.

use vstd::prelude::*;
#[allow(unused_imports)]
use crate::app::manager::{
    app_heard, app_step, AppActionModel, AppManagerCommand, AppManagerEvent, AppModel,
};
#[allow(unused_imports)]
use crate::app::patch::{
    all_download_steps, download_steps, file_steps, global_steps, host_steps,
    DownloadSettingsPatch, FileSettingsPatch, HostSettingsPatch, PatchStepModel, PatchValue,
};
#[allow(unused_imports)]
use crate::app::registry::{next_number, RegistryModel};
#[allow(unused_imports)]
use crate::app::settings::{hosts_view, HostEntry, SettingsModel};
#[allow(unused_imports)]
use crate::app::snapshot::{alive, came, download_stand, file_stand};
#[allow(unused_imports)]
use crate::download::answer_laws::goes_by;
#[allow(unused_imports)]
use crate::download::items::{downloaded_bytes, DownloadId, FileId, FileModel, ItemId};
#[allow(unused_imports)]
use crate::download::tables::{find_file, find_folder};
#[allow(unused_imports)]
use crate::download::tree::{Download, DownloadModel};
#[allow(unused_imports)]
use crate::utils::kept::lemma_kept_step;
#[allow(unused_imports)]
use crate::utils::urls::{host_of_name, host_of_url, HostModel};

verus! {

/// A URL that is not known yet gets the next number and is handed to the plugins under it.
/// Everything else stays as it is.
pub proof fn law_new_urls_are_handed_to_plugins(m: AppModel, url: String)
    requires
        !m.registry.urls.contains_key(url@),
        m.registry.next < usize::MAX,
    ensures
        ({
            let (after, actions) = app_step(m, AppManagerCommand::QueueDownload(url));
            let id = DownloadId(m.registry.next);
            &&& actions == seq![AppActionModel::AskPlugin { url: url@, id }]
            &&& after.registry.next == m.registry.next + 1
            &&& after.registry.urls.contains_key(url@) && after.registry.urls[url@] == id
            &&& after.registry.ids.contains_key(id.0) && after.registry.ids[id.0] == url@
            &&& after.registry.removed == m.registry.removed
            &&& forall|other: Seq<char>|
                other != url@ ==> (#[trigger] after.registry.urls.contains_key(other)
                    <==> m.registry.urls.contains_key(other))
            &&& forall|other: Seq<char>|
                other != url@ && #[trigger] m.registry.urls.contains_key(other)
                    ==> after.registry.urls[other] == m.registry.urls[other]
            &&& after.settings == m.settings && after.running == m.running
        }),
{
}

/// A download that is ready is worked on, and that is begun.
pub proof fn law_ready_downloads_are_begun(m: AppModel, download: Download)
    ensures
        ({
            let (after, actions) = app_step(m, AppManagerCommand::DownloadReady(download));
            &&& actions == seq![AppActionModel::StartWork(download)]
            &&& forall|x: usize| #[trigger]
                after.running.contains(x) <==> m.running.contains(x) || x == download.id.0
            &&& after.registry == m.registry && after.settings == m.settings
        }),
{
}

/// A download that is worked on is told to pause, to go on or to stop, and one that is not
/// is told nothing. Neither a pause nor going on changes anything here.
pub proof fn law_work_is_told_what_to_do(m: AppModel, id: DownloadId)
    ensures
        ({
            let (paused, stop) = app_step(m, AppManagerCommand::PauseDownload(id));
            let (resumed, go) = app_step(m, AppManagerCommand::ResumeDownload(id));
            &&& paused == m && resumed == m
            &&& m.running.contains(id.0) ==> stop == seq![AppActionModel::PauseWork(id)] && go
                == seq![AppActionModel::ResumeWork(id)]
            &&& !m.running.contains(id.0) ==> stop.len() == 0 && go.len() == 0
        }),
        app_step(m, AppManagerCommand::Shutdown).0 == m,
        app_step(m, AppManagerCommand::Shutdown).1 == seq![AppActionModel::Stop],
        app_step(m, AppManagerCommand::GetSettings).0 == m,
        app_step(m, AppManagerCommand::GetSettings).1 == seq![AppActionModel::SendSettings],
{
}

/// To remove a download that is worked on its work is cancelled, which deletes it; the
/// registry remembers whether from disk too. Any other is deleted at once, from disk only if
/// that was asked for, and forgotten.
pub proof fn law_downloads_are_removed_as_asked(m: AppModel, id: DownloadId, from_disk: bool)
    ensures
        ({
            let (after, actions) = app_step(m, AppManagerCommand::RemoveDownload(id, from_disk));
            &&& after.settings == m.settings
            &&& !after.running.contains(id.0)
            &&& forall|x: usize|
                x != id.0 ==> (#[trigger] after.running.contains(x) <==> m.running.contains(x))
            &&& if m.running.contains(id.0) {
                &&& actions == seq![AppActionModel::CancelWork { id, from_disk }]
                &&& after.registry.removed.contains_key(id.0) && after.registry.removed[id.0]
                    == from_disk
                &&& after.registry.urls == m.registry.urls && after.registry.ids == m.registry.ids
            } else {
                &&& actions.contains(AppActionModel::DeleteFromDatabase(id))
                &&& actions.contains(AppActionModel::ShowRemoved(id))
                &&& actions.contains(AppActionModel::DeleteFiles(id)) <==> from_disk
                &&& forall|k: int|
                    0 <= k < actions.len() ==> {
                        let a = #[trigger] actions[k];
                        a == AppActionModel::DeleteFiles(id) || a
                            == AppActionModel::DeleteFromDatabase(id) || a
                            == AppActionModel::ShowRemoved(id)
                    }
                &&& !after.registry.ids.contains_key(id.0)
                &&& !after.registry.removed.contains_key(id.0)
            }
        }),
{
    let actions = app_step(m, AppManagerCommand::RemoveDownload(id, from_disk)).1;
    if !m.running.contains(id.0) {
        let at: int = if from_disk {
            1
        } else {
            0
        };
        assert(actions[at] == AppActionModel::DeleteFromDatabase(id));
        assert(actions[at + 1] == AppActionModel::ShowRemoved(id));
        if from_disk {
            assert(actions[0] == AppActionModel::DeleteFiles(id));
        }
    }
}

/// Work that has ended is not running any more. If its download was removed, that is
/// forgotten, with its URL.
pub proof fn law_ended_work_is_forgotten(m: AppModel, id: DownloadId, other: usize)
    requires
        other != id.0,
    ensures
        ({
            let done = app_heard(m, AppManagerEvent::FinishDownload(id));
            let gone = app_heard(m, AppManagerEvent::RemoveDownload(id));
            &&& !done.running.contains(id.0) && !gone.running.contains(id.0)
            &&& done.running.contains(other) == m.running.contains(other)
            &&& gone.running.contains(other) == m.running.contains(other)
            &&& done.registry == m.registry && done.settings == m.settings
            &&& gone.settings == m.settings
            &&& !gone.registry.ids.contains_key(id.0)
            &&& gone.registry.ids.contains_key(other) == m.registry.ids.contains_key(other)
            &&& m.registry.ids.contains_key(id.0) ==> !gone.registry.urls.contains_key(
                m.registry.ids[id.0],
            )
        }),
{
}

/// The host whose limit is meant by a text, if one is: that of a URL, or else the text.
pub open spec fn host_meant(text: Seq<char>) -> Option<HostModel> {
    if host_of_url(text) is Some {
        host_of_url(text)
    } else {
        host_of_name(text)
    }
}

/// Whether nothing of the settings has changed but the limits of hosts.
pub open spec fn same_but_hosts(a: SettingsModel, b: SettingsModel) -> bool {
    a.global == b.global && a.save_path == b.save_path && a.downloads == b.downloads
}

/// Every limit that is set holds from then on, is saved, and is put in force where it
/// belongs; all other settings stay, and nothing but settings changes.
pub proof fn law_limits_are_set_where_they_belong(
    m: AppModel,
    limit: Option<u64>,
    host: String,
    id: DownloadId,
    file: FileId,
)
    ensures
        ({
            let (after, actions) = app_step(m, AppManagerCommand::SetGlobalSpeedLimit(limit));
            &&& after.settings.global == limit
            &&& after.settings == (SettingsModel { global: limit, ..m.settings })
            &&& after.registry == m.registry && after.running == m.running
            &&& actions == seq![AppActionModel::SaveSettings, AppActionModel::LimitGlobal(limit)]
        }),
        ({
            let (after, actions) = app_step(m, AppManagerCommand::SetHostSpeedLimit(host, limit));
            &&& after.settings.hosts.contains_key(host@)
            &&& after.settings.hosts[host@].speed_limit == limit
            &&& forall|other: Seq<char>|
                other != host@ ==> (#[trigger] after.settings.hosts.contains_key(other)
                    <==> m.settings.hosts.contains_key(other))
            &&& same_but_hosts(after.settings, m.settings)
            &&& after.registry == m.registry && after.running == m.running
            &&& actions.len() > 0 && actions[0] is SaveSettings
            &&& match host_meant(host@) {
                Some(h) => actions.len() == 2 && actions[1] == (AppActionModel::LimitHost {
                    host: h,
                    limit,
                }),
                None => actions.len() == 1,
            }
        }),
        ({
            let (after, actions) = app_step(m, AppManagerCommand::RemoveHostSpeedLimit(host));
            &&& !after.settings.hosts.contains_key(host@)
            &&& forall|other: Seq<char>|
                other != host@ ==> (#[trigger] after.settings.hosts.contains_key(other)
                    <==> m.settings.hosts.contains_key(other))
            &&& same_but_hosts(after.settings, m.settings)
            &&& after.registry == m.registry && after.running == m.running
            &&& actions.len() > 0 && actions[0] is SaveSettings
            &&& match host_meant(host@) {
                Some(h) => actions.len() == 2 && actions[1] == (AppActionModel::LimitHost {
                    host: h,
                    limit: None,
                }),
                None => actions.len() == 1,
            }
        }),
        ({
            let command = AppManagerCommand::SetDownloadSpeedLimit(id, limit);
            let (after, actions) = app_step(m, command);
            &&& after.registry == m.registry && after.running == m.running
            &&& after.settings == m.settings.with_download(id, limit)
            &&& actions == seq![
                AppActionModel::SaveSettings,
                AppActionModel::LimitDownload { id, limit },
            ]
        }),
        ({
            let (there, actions) = app_step(
                m,
                AppManagerCommand::SetFileSpeedLimit { id, file, limit, exists: true },
            );
            let (missing, nothing) = app_step(
                m,
                AppManagerCommand::SetFileSpeedLimit { id, file, limit, exists: false },
            );
            &&& missing == m && nothing.len() == 0
            &&& there.registry == m.registry && there.running == m.running
            &&& there.settings == m.settings.with_file(id, file, limit)
            &&& actions == seq![
                AppActionModel::SaveSettings,
                AppActionModel::LimitFile { id, file, limit },
            ]
        }),
{
}

/// The folder where downloads go is the one that was set last, or none, and is saved.
pub proof fn law_the_save_path_is_set(m: AppModel, path: Option<String>)
    ensures
        ({
            let (after, actions) = app_step(m, AppManagerCommand::SetDefaultSavePath(path));
            &&& path is None ==> after.settings.save_path is None
            &&& path matches Some(p) ==> after.settings.save_path == Some(p@)
            &&& after.settings == (SettingsModel {
                save_path: after.settings.save_path,
                ..m.settings
            })
            &&& after.registry == m.registry && after.running == m.running
            &&& actions == seq![AppActionModel::SaveSettings]
        }),
{
}

/// The limit of a download that has settings changes, and that of none else; one without
/// settings gets none. The limits of its files stay.
pub proof fn law_download_limits_keep_to_their_download(
    s: SettingsModel,
    id: DownloadId,
    limit: Option<u64>,
    other: usize,
)
    requires
        other != id.0,
    ensures
        ({
            let after = s.with_download(id, limit);
            &&& after.downloads.contains_key(id.0) == s.downloads.contains_key(id.0)
            &&& s.downloads.contains_key(id.0) ==> after.downloads[id.0].speed_limit == limit
                && after.downloads[id.0].files == s.downloads[id.0].files
            &&& after.downloads.contains_key(other) == s.downloads.contains_key(other)
            &&& s.downloads.contains_key(other) ==> after.downloads[other] == s.downloads[other]
            &&& after.global == s.global && after.save_path == s.save_path && after.hosts == s.hosts
        }),
{
}

/// The limit of a file is set, whether its download has settings or not, and neither those of
/// the download nor those of other files and downloads change.
pub proof fn law_file_limits_keep_to_their_file(
    s: SettingsModel,
    id: DownloadId,
    file: FileId,
    limit: Option<u64>,
    other: usize,
    sibling: usize,
)
    requires
        other != id.0,
        sibling != file.0,
    ensures
        ({
            let after = s.with_file(id, file, limit);
            let had = s.downloads.contains_key(id.0);
            &&& after.downloads.contains_key(id.0)
            &&& after.downloads[id.0].files.contains_key(file.0)
            &&& after.downloads[id.0].files[file.0].speed_limit == limit
            &&& had ==> after.downloads[id.0].speed_limit == s.downloads[id.0].speed_limit
            &&& !had ==> after.downloads[id.0].speed_limit is None
            &&& after.downloads[id.0].files.contains_key(sibling) <==> had
                && s.downloads[id.0].files.contains_key(sibling)
            &&& had && s.downloads[id.0].files.contains_key(sibling)
                ==> after.downloads[id.0].files[sibling] == s.downloads[id.0].files[sibling]
            &&& after.downloads.contains_key(other) == s.downloads.contains_key(other)
            &&& s.downloads.contains_key(other) ==> after.downloads[other] == s.downloads[other]
            &&& after.global == s.global && after.save_path == s.save_path && after.hosts == s.hosts
        }),
{
}

/// The settings of a download are its own, and none where it has none.
pub proof fn law_downloads_have_their_own_settings(s: SettingsModel, id: DownloadId)
    ensures
        s.of_download(id) is Some <==> s.downloads.contains_key(id.0),
        s.of_download(id) matches Some(own) ==> own == s.downloads[id.0],
{
}

proof fn lemma_next_number(rows: Seq<(usize, String)>)
    ensures
        forall|i: int| 0 <= i < rows.len() ==> (#[trigger] rows[i]).0 < next_number(rows),
        rows.len() == 0 ==> next_number(rows) == 0,
        rows.len() > 0 ==> exists|i: int|
            0 <= i < rows.len() && (#[trigger] rows[i]).0 + 1 == next_number(rows),
    decreases rows.len(),
{
    if rows.len() > 0 {
        let rest = rows.drop_last();
        lemma_next_number(rest);
        assert(rows[rows.len() - 1] == rows.last());
        assert forall|i: int| 0 <= i < rows.len() implies (#[trigger] rows[i]).0 < next_number(
            rows,
        ) by {
            if i < rest.len() {
                assert(rest[i] == rows[i]);
            }
        }
        if next_number(rest) >= rows.last().0 + 1 {
            let i = choose|i: int|
                0 <= i < rest.len() && (#[trigger] rest[i]).0 + 1 == next_number(rest);
            assert(rows[i] == rest[i]);
        }
    }
}

/// The first number to be given after a start is the first that is greater than all that
/// were stored.
pub proof fn law_numbers_go_on_after_a_start(rows: Seq<(usize, String)>)
    ensures
        forall|i: int| 0 <= i < rows.len() ==> (#[trigger] rows[i]).0 < next_number(rows),
        rows.len() == 0 ==> next_number(rows) == 0,
        rows.len() > 0 ==> exists|i: int|
            0 <= i < rows.len() && (#[trigger] rows[i]).0 + 1 == next_number(rows),
{
    lemma_next_number(rows);
}

/// Every stored download is known after a start, by its number and its URL, where neither
/// is stored twice.
pub proof fn law_stored_downloads_are_known(
    m: RegistryModel,
    entries: Seq<(DownloadId, Seq<char>)>,
)
    requires
        forall|i: int, j: int|
            0 <= i < j < entries.len() ==> (#[trigger] entries[i]).0 != (#[trigger] entries[j]).0
                && entries[i].1 != entries[j].1,
    ensures
        ({
            let after = m.with_all(entries);
            &&& forall|i: int|
                0 <= i < entries.len() ==> {
                    let (id, url) = #[trigger] entries[i];
                    &&& after.urls.contains_key(url) && after.urls[url] == id
                    &&& after.ids.contains_key(id.0) && after.ids[id.0] == url
                }
            &&& forall|url: Seq<char>| #[trigger]
                after.urls.contains_key(url) ==> m.urls.contains_key(url) || exists|i: int|
                    0 <= i < entries.len() && (#[trigger] entries[i]).1 == url
            &&& after.removed == m.removed && after.next == m.next
        }),
    decreases entries.len(),
{
    if entries.len() > 0 {
        let rest = entries.drop_last();
        assert forall|i: int, j: int| 0 <= i < j < rest.len() implies (#[trigger] rest[i]).0 != (
        #[trigger] rest[j]).0 && rest[i].1 != rest[j].1 by {
            assert(entries[i].0 != entries[j].0);
        }
        law_stored_downloads_are_known(m, rest);
        let n = rest.len() as int;
        let before = m.with_all(rest);
        let after = m.with_all(entries);
        assert(entries[n] == entries.last());
        assert forall|i: int| 0 <= i < entries.len() implies {
            let (id, url) = #[trigger] entries[i];
            &&& after.urls.contains_key(url) && after.urls[url] == id
            &&& after.ids.contains_key(id.0) && after.ids[id.0] == url
        } by {
            if i < n {
                assert(rest[i] == entries[i]);
                assert(entries[i].0 != entries[n].0);
                assert(entries[i].0.0 != entries[n].0.0);
            }
        }
        assert forall|url: Seq<char>| #[trigger]
            after.urls.contains_key(url) implies m.urls.contains_key(url) || exists|i: int|
            0 <= i < entries.len() && (#[trigger] entries[i]).1 == url by {
            if url == entries[n].1 {
            } else if before.urls.contains_key(url) && !m.urls.contains_key(url) {
                let i = choose|i: int| 0 <= i < rest.len() && (#[trigger] rest[i]).1 == url;
                assert(entries[i].1 == url);
            }
        }
    }
}

/// Whether something is asked for a limit.
pub open spec fn speaks(value: PatchValue) -> bool {
    !(value is Unchanged)
}

/// The limit that is asked for.
pub open spec fn spoken_limit(value: PatchValue) -> Option<u64> {
    match value {
        PatchValue::SetTo(limit) => Some(limit),
        _ => None,
    }
}

/// Whether something is asked for a host.
pub open spec fn host_speaks() -> spec_fn(HostSettingsPatch) -> bool {
    |h: HostSettingsPatch| speaks(h.speed_limit)
}

/// What is set for a host.
pub open spec fn host_set() -> spec_fn(HostSettingsPatch) -> PatchStepModel {
    |h: HostSettingsPatch| PatchStepModel::Host(h.host@, spoken_limit(h.speed_limit))
}

/// Whether something is asked for a file.
pub open spec fn file_speaks() -> spec_fn(FileSettingsPatch) -> bool {
    |f: FileSettingsPatch| speaks(f.speed_limit)
}

/// What is set for a file of a download.
pub open spec fn file_set(id: DownloadId) -> spec_fn(FileSettingsPatch) -> PatchStepModel {
    |f: FileSettingsPatch| PatchStepModel::File(id, f.file, spoken_limit(f.speed_limit))
}

/// Every limit that is asked for is set, to what was asked for, and no other is: for each
/// host and for each file of a download, in the order in which they are asked for; for the
/// download itself before its files.
pub proof fn law_what_is_asked_for_is_set(
    value: PatchValue,
    hosts: Seq<HostSettingsPatch>,
    patch: DownloadSettingsPatch,
)
    ensures
        speaks(value) ==> global_steps(value) == seq![PatchStepModel::Global(spoken_limit(value))],
        !speaks(value) ==> global_steps(value).len() == 0,
        host_steps(hosts) == hosts.filter(host_speaks()).map_values(host_set()),
        file_steps(patch.id, patch.file_settings@) == patch.file_settings@.filter(
            file_speaks(),
        ).map_values(file_set(patch.id)),
        speaks(patch.speed_limit) ==> download_steps(patch) == seq![
            PatchStepModel::Download(patch.id, spoken_limit(patch.speed_limit)),
        ] + file_steps(patch.id, patch.file_settings@),
        !speaks(patch.speed_limit) ==> download_steps(patch) == file_steps(
            patch.id,
            patch.file_settings@,
        ),
{
    lemma_host_steps(hosts);
    lemma_file_steps(patch.id, patch.file_settings@);
    assert(Seq::<PatchStepModel>::empty() + file_steps(patch.id, patch.file_settings@)
        =~= file_steps(patch.id, patch.file_settings@));
}

proof fn lemma_host_steps(hosts: Seq<HostSettingsPatch>)
    ensures
        host_steps(hosts) == hosts.filter(host_speaks()).map_values(host_set()),
    decreases hosts.len(),
{
    lemma_kept_step(hosts, host_speaks(), host_set());
    if hosts.len() > 0 {
        lemma_host_steps(hosts.drop_last());
    }
}

proof fn lemma_file_steps(id: DownloadId, files: Seq<FileSettingsPatch>)
    ensures
        file_steps(id, files) == files.filter(file_speaks()).map_values(file_set(id)),
    decreases files.len(),
{
    lemma_kept_step(files, file_speaks(), file_set(id));
    if files.len() > 0 {
        lemma_file_steps(id, files.drop_last());
    }
}

/// What is asked for some downloads and then for others is set in that order.
pub proof fn law_downloads_are_set_in_order(
    a: Seq<DownloadSettingsPatch>,
    b: Seq<DownloadSettingsPatch>,
)
    ensures
        all_download_steps(a + b) == all_download_steps(a) + all_download_steps(b),
        a.len() == 1 ==> all_download_steps(a) == download_steps(a[0]),
        all_download_steps(Seq::<DownloadSettingsPatch>::empty()).len() == 0,
    decreases b.len(),
{
    if a.len() == 1 {
        assert(a.drop_last() =~= Seq::<DownloadSettingsPatch>::empty());
        let none = all_download_steps(a.drop_last());
        assert(none =~= Seq::<PatchStepModel>::empty());
        assert(all_download_steps(a) == none + download_steps(a.last()));
        assert(none + download_steps(a.last()) =~= download_steps(a[0]));
    }
    if b.len() == 0 {
        assert(a + b =~= a);
        assert(all_download_steps(a) + all_download_steps(b) =~= all_download_steps(a));
    } else {
        assert((a + b).drop_last() =~= a + b.drop_last());
        law_downloads_are_set_in_order(a, b.drop_last());
        assert((a + b).last() == b.last());
        assert(all_download_steps(a + b) =~= all_download_steps(a) + all_download_steps(b));
    }
}

/// What was given, of some replies.
pub open spec fn was_given<T>() -> spec_fn(Option<T>) -> bool {
    |r: Option<T>| r is Some
}

/// The replies that came are all that came, in order; and whoever replied is still listened
/// to, in order, and nobody else is.
pub proof fn law_whoever_replies_stays<L, T>(listeners: Seq<L>, replies: Seq<Option<T>>)
    requires
        listeners.len() == replies.len(),
    ensures
        came(replies) == replies.filter(was_given()).map_values(|r: Option<T>| r->0),
        alive(listeners, replies).len() == came(replies).len(),
        forall|i: int|
            0 <= i < replies.len() && (#[trigger] replies[i]) is Some ==> alive(
                listeners,
                replies,
            ).contains(listeners[i]),
        forall|x: L| #[trigger]
            alive(listeners, replies).contains(x) ==> exists|i: int|
                0 <= i < replies.len() && (#[trigger] replies[i]) is Some && listeners[i] == x,
    decreases replies.len(),
{
    lemma_kept_step(replies, was_given::<T>(), |r: Option<T>| r->0);
    if replies.len() > 0 {
        let rest = replies.drop_last();
        let fewer = listeners.drop_last();
        law_whoever_replies_stays(fewer, rest);
        lemma_alive_same(listeners, fewer, rest);
        let before = alive(listeners, rest);
        let all = alive(listeners, replies);
        let n = rest.len() as int;
        assert forall|i: int| 0 <= i < replies.len() && (
        #[trigger] replies[i]) is Some implies all.contains(listeners[i]) by {
            if i < n {
                assert(rest[i] == replies[i]);
                assert(before.contains(fewer[i]));
                let j = choose|j: int| 0 <= j < before.len() && before[j] == fewer[i];
                assert(all[j] == listeners[i]);
            } else {
                assert(all[all.len() - 1] == listeners[i]);
            }
        }
        assert forall|x: L| #[trigger] all.contains(x) implies exists|i: int|
            0 <= i < replies.len() && (#[trigger] replies[i]) is Some && listeners[i] == x by {
            let j = choose|j: int| 0 <= j < all.len() && all[j] == x;
            if j < before.len() {
                assert(before[j] == x);
                assert(before.contains(x));
                let i = choose|i: int|
                    0 <= i < rest.len() && (#[trigger] rest[i]) is Some && fewer[i] == x;
                assert(replies[i] == rest[i]);
                assert(listeners[i] == x);
            } else {
                assert(replies[n] is Some);
                assert(listeners[n] == x);
            }
        }
    }
}

proof fn lemma_alive_same<L, T>(a: Seq<L>, b: Seq<L>, replies: Seq<Option<T>>)
    requires
        replies.len() <= a.len(),
        replies.len() <= b.len(),
        forall|i: int| 0 <= i < replies.len() ==> #[trigger] a[i] == b[i],
    ensures
        alive(a, replies) == alive(b, replies),
    decreases replies.len(),
{
    if replies.len() > 0 {
        lemma_alive_same(a, b, replies.drop_last());
        assert(a[replies.len() - 1] == b[replies.len() - 1]);
    }
}

/// What is told of a file is what it is: its number, its place, its size and state, how
/// many of its bytes are on disk, and the name that it goes by.
pub proof fn law_files_are_told_as_they_are(f: FileModel)
    ensures
        ({
            let told = file_stand(f);
            &&& told.id == f.id
            &&& told.parent_id == f.parent_id
            &&& goes_by(f.name, told.name)
            &&& told.path == f.path
            &&& told.size == f.size
            &&& told.bytes == downloaded_bytes(f, 16384)
            &&& told.status == f.status
            &&& told.active_operation == f.active_operation
            &&& told.is_paused == f.is_paused
            &&& told.url == f.url
            &&& told.host == f.host
        }),
{
}

/// A host that is entered twice has the limit that was entered last.
pub proof fn law_the_last_entry_counts(entries: Seq<HostEntry>, more: HostEntry, host: Seq<char>)
    ensures
        hosts_view(entries.push(more)).contains_key(more.host@),
        hosts_view(entries.push(more))[more.host@] == more.settings,
        host != more.host@ ==> hosts_view(entries.push(more)).contains_key(host) == hosts_view(
            entries,
        ).contains_key(host),
        host != more.host@ && hosts_view(entries).contains_key(host) ==> hosts_view(
            entries.push(more),
        )[host] == hosts_view(entries)[host],
{
    assert(entries.push(more).drop_last() =~= entries);
}

/// What is told of a download is what it is, with each of its files as that is told, and its
/// folders; it is told under the name of its root.
pub proof fn law_downloads_are_told_as_they_are(d: DownloadModel)
    ensures
        ({
            let told = download_stand(d);
            &&& told.id == d.id && told.url == d.url
            &&& told.status == d.status
            &&& told.active_operation == d.active_operation
            &&& told.is_paused == d.is_paused
            &&& told.folders == d.folders
            &&& told.files.len() == d.files.len()
            &&& forall|i: int|
                0 <= i < d.files.len() ==> #[trigger] told.files[i] == file_stand(d.files[i])
            &&& d.root_item matches ItemId::File(id) ==> (find_file(d.files, id) matches Some(i)
                ==> goes_by(d.files[i].name, told.name))
            &&& d.root_item matches ItemId::Folder(id) ==> (find_folder(
                d.folders,
                id,
            ) matches Some(i) ==> told.name == d.folders[i].name)
        }),
{
}

} // verus!
