//! What the program does where every download is verified before it goes on.

use vstd::prelude::*;
use crate::app::registry::DownloadRegistry;
#[allow(unused_imports)]
use crate::app::registry::RegistryModel;
use crate::app::settings::{AppSettings, DownloadSettings};
#[allow(unused_imports)]
use crate::app::settings::{settings_view, DownloadSettingsModel, SettingsModel};
use crate::download::items::{DownloadId, FileId};
use crate::download::tree::Download;
use crate::verification_tracker::VerificationTracker;
#[allow(unused_imports)]
use crate::verification_tracker::TrackerModel;

verus! {

/// How the work on a download ended.
#[derive(Debug, Clone, Copy, PartialEq, Eq, Structural)]
pub enum DownloadReturnStatus {
    Completed,
    Canceled,
    Paused,
}

/// What the program is told to do.
#[allow(inconsistent_fields)]
pub enum AppManagerCommand {
    QueueDownload(String),
    /// A download has been verified.
    DownloadVerified(Download),
    /// Remove a download, from disk too or not.
    RemoveDownload(DownloadId, bool),
    /// Nobody works on a download any more.
    CleanUpDownload(DownloadId),
    PauseDownload(DownloadId),
    /// Go on with a download, which was loaded for it.
    ResumeDownload(Download),
    Shutdown,
    SetGlobalSpeedLimit(Option<u64>),
    /// Set the limit of a host, which is named by itself or by a URL.
    SetHostSpeedLimit(String, Option<u64>),
    SetDownloadSpeedLimit(DownloadId, Option<u64>),
    /// Set the limit of a file, if it is there.
    SetFileSpeedLimit { id: DownloadId, file: FileId, limit: Option<u64>, exists: bool },
}

/// Something to be done.
#[allow(inconsistent_fields)]
pub enum AppManagerAction {
    /// Begin the work on a new download.
    QueueWork { url: String, id: DownloadId },
    CancelWork { url: String, id: DownloadId },
    PauseWork { url: String, id: DownloadId },
    /// Go on with a download, with the settings that hold for it.
    ResumeWork { download: Download, settings: Option<DownloadSettings> },
    Verify(Download),
    CancelVerification(DownloadId),
    PauseVerification(DownloadId),
    /// Clean up after a download, as a command of its own.
    CleanUp(DownloadId),
    /// Delete the files of a stored download from disk.
    DeleteFiles(DownloadId),
    DeleteFromDatabase(DownloadId),
    ShowRemoved(DownloadId),
    SaveSettings,
    LimitGlobal(Option<u64>),
    LimitHost { host: String, limit: Option<u64> },
    LimitDownload { id: DownloadId, limit: Option<u64> },
    LimitFile { id: DownloadId, file: FileId, limit: Option<u64> },
    Stop,
}

/// Something to be done, in mathematical values.
#[allow(inconsistent_fields)]
pub enum ManagerActionModel {
    QueueWork { url: Seq<char>, id: DownloadId },
    CancelWork { url: Seq<char>, id: DownloadId },
    PauseWork { url: Seq<char>, id: DownloadId },
    ResumeWork { download: Download, settings: Option<DownloadSettingsModel> },
    Verify(Download),
    CancelVerification(DownloadId),
    PauseVerification(DownloadId),
    CleanUp(DownloadId),
    DeleteFiles(DownloadId),
    DeleteFromDatabase(DownloadId),
    ShowRemoved(DownloadId),
    SaveSettings,
    LimitGlobal(Option<u64>),
    LimitHost { host: Seq<char>, limit: Option<u64> },
    LimitDownload { id: DownloadId, limit: Option<u64> },
    LimitFile { id: DownloadId, file: FileId, limit: Option<u64> },
    Stop,
}

impl View for AppManagerAction {
    type V = ManagerActionModel;

    open spec fn view(&self) -> ManagerActionModel {
        match *self {
            AppManagerAction::QueueWork { url, id } => ManagerActionModel::QueueWork {
                url: url@,
                id,
            },
            AppManagerAction::CancelWork { url, id } => ManagerActionModel::CancelWork {
                url: url@,
                id,
            },
            AppManagerAction::PauseWork { url, id } => ManagerActionModel::PauseWork {
                url: url@,
                id,
            },
            AppManagerAction::ResumeWork { download, settings } => ManagerActionModel::ResumeWork {
                download,
                settings: settings_view(settings),
            },
            AppManagerAction::Verify(download) => ManagerActionModel::Verify(download),
            AppManagerAction::CancelVerification(id) => ManagerActionModel::CancelVerification(id),
            AppManagerAction::PauseVerification(id) => ManagerActionModel::PauseVerification(id),
            AppManagerAction::CleanUp(id) => ManagerActionModel::CleanUp(id),
            AppManagerAction::DeleteFiles(id) => ManagerActionModel::DeleteFiles(id),
            AppManagerAction::DeleteFromDatabase(id) => ManagerActionModel::DeleteFromDatabase(id),
            AppManagerAction::ShowRemoved(id) => ManagerActionModel::ShowRemoved(id),
            AppManagerAction::SaveSettings => ManagerActionModel::SaveSettings,
            AppManagerAction::LimitGlobal(limit) => ManagerActionModel::LimitGlobal(limit),
            AppManagerAction::LimitHost { host, limit } => ManagerActionModel::LimitHost {
                host: host@,
                limit,
            },
            AppManagerAction::LimitDownload { id, limit } => ManagerActionModel::LimitDownload {
                id,
                limit,
            },
            AppManagerAction::LimitFile { id, file, limit } => ManagerActionModel::LimitFile {
                id,
                file,
                limit,
            },
            AppManagerAction::Stop => ManagerActionModel::Stop,
        }
    }
}

/// Actions, in mathematical values.
pub open spec fn manager_actions(actions: Seq<AppManagerAction>) -> Seq<ManagerActionModel> {
    actions.map_values(|a: AppManagerAction| a@)
}

/// Puts an action behind others.
pub(crate) fn act(out: &mut Vec<AppManagerAction>, action: AppManagerAction)
    ensures
        manager_actions(final(out)@) == manager_actions(old(out)@).push(action@),
{
    out.push(action);
    assert(manager_actions(out@) =~= manager_actions(old(out)@).push(action@));
}

/// Which downloads there are, which are verified, and what holds for them.
pub struct AppManager {
    registry: DownloadRegistry,
    settings: AppSettings,
    tracker: VerificationTracker,
}

/// The program, in mathematical values.
#[verifier::ext_equal]
pub struct ManagerModel {
    pub registry: RegistryModel,
    pub settings: SettingsModel,
    pub tracker: TrackerModel,
}

impl View for AppManager {
    type V = ManagerModel;

    closed spec fn view(&self) -> ManagerModel {
        ManagerModel {
            registry: self.registry@,
            settings: self.settings@,
            tracker: self.tracker@,
        }
    }
}

/// A download goes on, with what is set about it.
pub open spec fn resumed(settings: SettingsModel, download: Download) -> ManagerActionModel {
    ManagerActionModel::ResumeWork { download, settings: settings.of_download(download.id) }
}

/// What is done about the settings by a command, and nothing by any other.
pub open spec fn settings_step(m: SettingsModel, command: AppManagerCommand) -> (
    SettingsModel,
    Seq<ManagerActionModel>,
) {
    match command {
        AppManagerCommand::SetGlobalSpeedLimit(limit) => (
            SettingsModel { global: limit, ..m },
            seq![ManagerActionModel::SaveSettings, ManagerActionModel::LimitGlobal(limit)],
        ),
        AppManagerCommand::SetHostSpeedLimit(host, limit) => (
            m.with_host(host@, limit),
            seq![
                ManagerActionModel::SaveSettings,
                ManagerActionModel::LimitHost { host: host@, limit },
            ],
        ),
        AppManagerCommand::SetDownloadSpeedLimit(id, limit) => (
            m.with_download(id, limit),
            seq![ManagerActionModel::SaveSettings, ManagerActionModel::LimitDownload { id, limit }],
        ),
        AppManagerCommand::SetFileSpeedLimit { id, file, limit, exists } => if exists {
            (
                m.with_file(id, file, limit),
                seq![
                    ManagerActionModel::SaveSettings,
                    ManagerActionModel::LimitFile { id, file, limit },
                ],
            )
        } else {
            (m, Seq::empty())
        },
        _ => (m, Seq::empty()),
    }
}

/// What a command does. A removed download is cleaned up after only when whoever
/// verifies it or works on it has stopped. A download that is still to be verified is
/// verified before it goes on, and the word that it has been counts only while it is
/// being verified and is not being removed.
pub open spec fn manager_step(m: ManagerModel, command: AppManagerCommand) -> (ManagerModel, Seq<
    ManagerActionModel,
>) {
    match command {
        AppManagerCommand::QueueDownload(url) => if m.registry.urls.contains_key(url@) {
            (m, Seq::empty())
        } else {
            (
                ManagerModel { registry: m.registry.registered(url@), ..m },
                seq![ManagerActionModel::QueueWork { url: url@, id: DownloadId(m.registry.next) }],
            )
        },
        AppManagerCommand::RemoveDownload(id, from_disk) => (
            ManagerModel {
                registry: RegistryModel {
                    removed: m.registry.removed.insert(id.0, from_disk),
                    ..m.registry
                },
                ..m
            },
            if m.tracker.verifying.contains(id.0) {
                seq![ManagerActionModel::CancelVerification(id)]
            } else if m.registry.ids.contains_key(id.0) {
                seq![ManagerActionModel::CancelWork { url: m.registry.ids[id.0], id }]
            } else {
                seq![ManagerActionModel::CleanUp(id)]
            },
        ),
        AppManagerCommand::CleanUpDownload(id) => (
            ManagerModel {
                registry: m.registry.finalized(id),
                tracker: m.tracker.without(id),
                ..m
            },
            if m.registry.removed.contains_key(id.0) {
                (if m.registry.removed[id.0] {
                    seq![ManagerActionModel::DeleteFiles(id)]
                } else {
                    Seq::empty()
                }) + seq![
                    ManagerActionModel::DeleteFromDatabase(id),
                    ManagerActionModel::ShowRemoved(id),
                ]
            } else {
                Seq::empty()
            },
        ),
        AppManagerCommand::PauseDownload(id) => (
            ManagerModel {
                tracker: TrackerModel {
                    verifying: m.tracker.verifying.remove(id.0),
                    ..m.tracker
                },
                ..m
            },
            seq![ManagerActionModel::PauseVerification(id)] + (if m.registry.ids.contains_key(
                id.0,
            ) {
                seq![ManagerActionModel::PauseWork { url: m.registry.ids[id.0], id }]
            } else {
                Seq::empty()
            }),
        ),
        AppManagerCommand::ResumeDownload(download) => if m.tracker.needed.contains(
            download.id.0,
        ) {
            (
                ManagerModel {
                    tracker: TrackerModel {
                        verifying: m.tracker.verifying.insert(download.id.0),
                        ..m.tracker
                    },
                    ..m
                },
                seq![ManagerActionModel::Verify(download)],
            )
        } else {
            (m, seq![resumed(m.settings, download)])
        },
        AppManagerCommand::DownloadVerified(download) => if !m.tracker.verifying.contains(
            download.id.0,
        ) || m.registry.removed.contains_key(download.id.0) {
            (m, Seq::empty())
        } else {
            (
                ManagerModel { tracker: m.tracker.without(download.id), ..m },
                seq![resumed(m.settings, download)],
            )
        },
        AppManagerCommand::Shutdown => (m, seq![ManagerActionModel::Stop]),
        _ => (
            ManagerModel { settings: settings_step(m.settings, command).0, ..m },
            settings_step(m.settings, command).1,
        ),
    }
}

impl AppManager {
    /// No host is named twice in the settings.
    pub closed spec fn wf(&self) -> bool {
        self.settings.wf()
    }

    /// The program at its start: the stored downloads are known, and all that were
    /// loaded are being verified.
    pub fn new(registry: DownloadRegistry, settings: AppSettings, restored: &Vec<Download>) -> (r:
        Self)
        requires
            settings.wf(),
        ensures
            r.wf(),
            r@.registry == registry@.with_all(
                restored@.map_values(|d: Download| (d.id, d.url@)),
            ),
            r@.settings == settings@,
            forall|id: usize| #[trigger]
                r@.tracker.verifying.contains(id) <==> crate::verification_tracker::is_among(
                    restored@,
                    id,
                ),
            r@.tracker.needed == r@.tracker.verifying,
    {
        let mut registry = registry;
        registry.add_downloads(restored);
        let tracker = VerificationTracker::from_downloads(restored);
        AppManager { registry, settings, tracker }
    }

    /// What holds for the downloads.
    pub fn settings(&self) -> (r: &AppSettings)
        requires
            self.wf(),
        ensures
            r@ == self@.settings,
            r.wf(),
    {
        &self.settings
    }

    fn remove(&mut self, id: DownloadId, from_disk: bool, out: &mut Vec<AppManagerAction>)
        requires
            old(self).wf(),
            manager_actions(old(out)@) == Seq::<ManagerActionModel>::empty(),
        ensures
            final(self).wf(),
            (final(self)@, manager_actions(final(out)@)) == manager_step(
                old(self)@,
                AppManagerCommand::RemoveDownload(id, from_disk),
            ),
    {
        self.registry.mark_removed(id, from_disk);
        if self.tracker.cancel(id) {
            act(out, AppManagerAction::CancelVerification(id));
        } else if let Some(url) = self.registry.lookup_url(&id) {
            let url = url.clone();
            act(out, AppManagerAction::CancelWork { url, id });
        } else {
            act(out, AppManagerAction::CleanUp(id));
        }
        proof {
            let command = AppManagerCommand::RemoveDownload(id, from_disk);
            assert(manager_actions(out@) =~= manager_step(old(self)@, command).1);
        }
    }

    fn clean_up(&mut self, id: DownloadId, out: &mut Vec<AppManagerAction>)
        requires
            old(self).wf(),
            manager_actions(old(out)@) == Seq::<ManagerActionModel>::empty(),
        ensures
            final(self).wf(),
            (final(self)@, manager_actions(final(out)@)) == manager_step(
                old(self)@,
                AppManagerCommand::CleanUpDownload(id),
            ),
    {
        self.tracker.remove(&id);
        if let Some(from_disk) = self.registry.finalize_removed(&id) {
            if from_disk {
                act(out, AppManagerAction::DeleteFiles(id));
            }
            act(out, AppManagerAction::DeleteFromDatabase(id));
            act(out, AppManagerAction::ShowRemoved(id));
        }
        proof {
            let command = AppManagerCommand::CleanUpDownload(id);
            assert(manager_actions(out@) =~= manager_step(old(self)@, command).1);
        }
    }

    /// Takes in a command, and says what is to be done.
    pub fn on_command(&mut self, command: AppManagerCommand) -> (out: Vec<AppManagerAction>)
        requires
            old(self).wf(),
            command matches AppManagerCommand::QueueDownload(url) ==> (
            old(self)@.registry.urls.contains_key(url@) || old(self)@.registry.next < usize::MAX),
        ensures
            final(self).wf(),
            (final(self)@, manager_actions(out@)) == manager_step(old(self)@, command),
    {
        let mut out: Vec<AppManagerAction> = Vec::new();
        assert(manager_actions(out@) =~= Seq::<ManagerActionModel>::empty());
        match command {
            AppManagerCommand::QueueDownload(url) => {
                if !self.registry.contains_url(url.as_str()) {
                    let id = self.registry.register(url.clone());
                    act(&mut out, AppManagerAction::QueueWork { url, id });
                }
            },
            AppManagerCommand::RemoveDownload(id, from_disk) => {
                self.remove(id, from_disk, &mut out);
            },
            AppManagerCommand::CleanUpDownload(id) => {
                self.clean_up(id, &mut out);
            },
            AppManagerCommand::PauseDownload(id) => {
                self.tracker.pause(id);
                act(&mut out, AppManagerAction::PauseVerification(id));
                if let Some(url) = self.registry.lookup_url(&id) {
                    let url = url.clone();
                    act(&mut out, AppManagerAction::PauseWork { url, id });
                }
            },
            AppManagerCommand::ResumeDownload(download) => {
                if self.tracker.needs_verification(&download.id) {
                    self.tracker.verify(download.id);
                    act(&mut out, AppManagerAction::Verify(download));
                } else {
                    let settings = self.settings.get_download_settings(download.id);
                    act(&mut out, AppManagerAction::ResumeWork { download, settings });
                }
            },
            AppManagerCommand::DownloadVerified(download) => {
                if self.tracker.is_verifying(&download.id) && !self.registry.is_marked_for_removal(
                    &download.id,
                ) {
                    self.tracker.remove(&download.id);
                    let settings = self.settings.get_download_settings(download.id);
                    act(&mut out, AppManagerAction::ResumeWork { download, settings });
                }
            },
            AppManagerCommand::Shutdown => {
                act(&mut out, AppManagerAction::Stop);
            },
            AppManagerCommand::SetGlobalSpeedLimit(limit) => {
                self.settings.set_global_speed_limit(limit);
                act(&mut out, AppManagerAction::SaveSettings);
                act(&mut out, AppManagerAction::LimitGlobal(limit));
            },
            AppManagerCommand::SetHostSpeedLimit(host, limit) => {
                self.settings.set_host_limit(host.clone(), limit);
                act(&mut out, AppManagerAction::SaveSettings);
                act(&mut out, AppManagerAction::LimitHost { host, limit });
            },
            AppManagerCommand::SetDownloadSpeedLimit(id, limit) => {
                self.settings.set_download_limit(id, limit);
                act(&mut out, AppManagerAction::SaveSettings);
                act(&mut out, AppManagerAction::LimitDownload { id, limit });
            },
            AppManagerCommand::SetFileSpeedLimit { id, file, limit, exists } => {
                if exists {
                    self.settings.set_file_limit(id, file, limit);
                    act(&mut out, AppManagerAction::SaveSettings);
                    act(&mut out, AppManagerAction::LimitFile { id, file, limit });
                }
            },
        }
        assert(manager_actions(out@) =~= manager_step(old(self)@, command).1);
        out
    }
}

/// A download that is still to be verified never goes on without: to resume it begins
/// its verification, and it goes on only when that is done.
pub proof fn law_unverified_downloads_are_verified_first(
    m: ManagerModel,
    command: AppManagerCommand,
    download: Download,
    settings: Option<DownloadSettingsModel>,
)
    requires
        m.tracker.needed.contains(download.id.0),
        manager_step(m, command).1.contains(
            ManagerActionModel::ResumeWork { download, settings },
        ),
    ensures
        m.tracker.verifying.contains(download.id.0),
        command matches AppManagerCommand::DownloadVerified(d) && d == download,
        settings == m.settings.of_download(download.id),
        !manager_step(m, command).0.tracker.needed.contains(download.id.0),
{
    let out = manager_step(m, command).1;
    let action = ManagerActionModel::ResumeWork { download, settings };
    let i = choose|i: int| 0 <= i < out.len() && out[i] == action;
    assert(out[i] == action);
}

/// A verification that was paused can be taken up again: the download is still to be
/// verified, and to resume it begins its verification anew.
pub proof fn law_paused_verification_can_go_on(m: ManagerModel, download: Download)
    requires
        m.tracker.needed.contains(download.id.0),
    ensures
        ({
            let paused = manager_step(m, AppManagerCommand::PauseDownload(download.id)).0;
            let (after, out) = manager_step(paused, AppManagerCommand::ResumeDownload(download));
            &&& !paused.tracker.verifying.contains(download.id.0)
            &&& paused.tracker.needed == m.tracker.needed
            &&& after.tracker.verifying.contains(download.id.0)
            &&& out == seq![ManagerActionModel::Verify(download)]
        }),
{
}

/// A download that is being removed does not go on when it turns out that it has been
/// verified; when it has been cleaned up after, nothing is left of it.
pub proof fn law_removed_downloads_do_not_go_on(
    m: ManagerModel,
    download: Download,
    from_disk: bool,
)
    ensures
        ({
            let id = download.id;
            let marked = manager_step(m, AppManagerCommand::RemoveDownload(id, from_disk)).0;
            let heard = manager_step(marked, AppManagerCommand::DownloadVerified(download));
            let end = manager_step(heard.0, AppManagerCommand::CleanUpDownload(id)).0;
            &&& heard == (marked, Seq::<ManagerActionModel>::empty())
            &&& !end.registry.ids.contains_key(id.0)
            &&& !end.registry.removed.contains_key(id.0)
            &&& !end.tracker.verifying.contains(id.0)
            &&& !end.tracker.needed.contains(id.0)
        }),
{
}

} // verus!
