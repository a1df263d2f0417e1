//! What the program does when it is told something.

use std::collections::HashSet;

use vstd::prelude::*;
use crate::app::registry::DownloadRegistry;
#[allow(unused_imports)]
use crate::app::registry::RegistryModel;
use crate::app::settings::AppSettings;
#[allow(unused_imports)]
use crate::app::settings::SettingsModel;
use crate::download::items::{DownloadId, FileId};
use crate::download::tree::Download;
use crate::utils::urls::{parse_host_or_url, Host};
#[allow(unused_imports)]
use crate::utils::urls::{host_of_name, host_of_url, host_view, meant_host, HostModel};

verus! {

broadcast use vstd::std_specs::hash::group_hash_axioms;

/// What the work on a download tells.
#[derive(Debug, Clone, Copy, PartialEq, Eq, Structural)]
pub enum AppManagerEvent {
    FinishDownload(DownloadId),
    RemoveDownload(DownloadId),
}

/// What the program is told to do.
#[allow(inconsistent_fields)]
pub enum AppManagerCommand {
    QueueDownload(String),
    DownloadReady(Download),
    /// Remove a download, from disk too or not.
    RemoveDownload(DownloadId, bool),
    PauseDownload(DownloadId),
    ResumeDownload(DownloadId),
    Shutdown,
    SetGlobalSpeedLimit(Option<u64>),
    SetDefaultSavePath(Option<String>),
    /// Set the limit of a host, which is named by itself or by a URL.
    SetHostSpeedLimit(String, Option<u64>),
    RemoveHostSpeedLimit(String),
    SetDownloadSpeedLimit(DownloadId, Option<u64>),
    /// Set the limit of a file, if it is there.
    SetFileSpeedLimit { id: DownloadId, file: FileId, limit: Option<u64>, exists: bool },
    GetSettings,
}

/// Why the settings could not be told.
#[derive(Debug, Clone, Copy, PartialEq, Eq, Structural)]
pub enum GetSettingsError {
    ManagerUnreachable,
    NoResponse,
}

impl GetSettingsError {
    /// What a reader is told.
    pub fn describe(&self) -> (r: &'static str)
        ensures
            r@ == match *self {
                GetSettingsError::ManagerUnreachable => "app manager is unreachable"@,
                GetSettingsError::NoResponse => "app manager did not respond"@,
            },
    {
        match self {
            GetSettingsError::ManagerUnreachable => "app manager is unreachable",
            GetSettingsError::NoResponse => "app manager did not respond",
        }
    }
}

/// Something to be done.
#[allow(inconsistent_fields)]
pub enum AppAction {
    /// Have a plugin say what is behind a URL.
    AskPlugin { url: String, id: DownloadId },
    /// Begin the work on a download.
    StartWork(Download),
    CancelWork { id: DownloadId, from_disk: bool },
    PauseWork(DownloadId),
    ResumeWork(DownloadId),
    /// Delete the files of a stored download from disk.
    DeleteFiles(DownloadId),
    DeleteFromDatabase(DownloadId),
    ShowRemoved(DownloadId),
    SaveSettings,
    SendSettings,
    LimitGlobal(Option<u64>),
    LimitHost { host: Host, limit: Option<u64> },
    LimitDownload { id: DownloadId, limit: Option<u64> },
    LimitFile { id: DownloadId, file: FileId, limit: Option<u64> },
    Stop,
}

/// Something to be done, in mathematical values.
#[allow(inconsistent_fields)]
pub enum AppActionModel {
    AskPlugin { url: Seq<char>, id: DownloadId },
    StartWork(Download),
    CancelWork { id: DownloadId, from_disk: bool },
    PauseWork(DownloadId),
    ResumeWork(DownloadId),
    DeleteFiles(DownloadId),
    DeleteFromDatabase(DownloadId),
    ShowRemoved(DownloadId),
    SaveSettings,
    SendSettings,
    LimitGlobal(Option<u64>),
    LimitHost { host: HostModel, limit: Option<u64> },
    LimitDownload { id: DownloadId, limit: Option<u64> },
    LimitFile { id: DownloadId, file: FileId, limit: Option<u64> },
    Stop,
}

impl View for AppAction {
    type V = AppActionModel;

    open spec fn view(&self) -> AppActionModel {
        match *self {
            AppAction::AskPlugin { url, id } => AppActionModel::AskPlugin { url: url@, id },
            AppAction::StartWork(download) => AppActionModel::StartWork(download),
            AppAction::CancelWork { id, from_disk } => AppActionModel::CancelWork {
                id,
                from_disk,
            },
            AppAction::PauseWork(id) => AppActionModel::PauseWork(id),
            AppAction::ResumeWork(id) => AppActionModel::ResumeWork(id),
            AppAction::DeleteFiles(id) => AppActionModel::DeleteFiles(id),
            AppAction::DeleteFromDatabase(id) => AppActionModel::DeleteFromDatabase(id),
            AppAction::ShowRemoved(id) => AppActionModel::ShowRemoved(id),
            AppAction::SaveSettings => AppActionModel::SaveSettings,
            AppAction::SendSettings => AppActionModel::SendSettings,
            AppAction::LimitGlobal(limit) => AppActionModel::LimitGlobal(limit),
            AppAction::LimitHost { host, limit } => AppActionModel::LimitHost {
                host: host@,
                limit,
            },
            AppAction::LimitDownload { id, limit } => AppActionModel::LimitDownload { id, limit },
            AppAction::LimitFile { id, file, limit } => AppActionModel::LimitFile {
                id,
                file,
                limit,
            },
            AppAction::Stop => AppActionModel::Stop,
        }
    }
}

/// Actions, in mathematical values.
pub open spec fn app_actions(actions: Seq<AppAction>) -> Seq<AppActionModel> {
    actions.map_values(|a: AppAction| a@)
}

/// Which downloads there are, which of them are worked on, and what holds for them.
pub struct AppManager {
    registry: DownloadRegistry,
    settings: AppSettings,
    supervisors: HashSet<usize>,
}

/// The program, in mathematical values.
#[verifier::ext_equal]
pub struct AppModel {
    pub registry: RegistryModel,
    pub settings: SettingsModel,
    pub running: Set<usize>,
}

impl View for AppManager {
    type V = AppModel;

    closed spec fn view(&self) -> AppModel {
        AppModel {
            registry: self.registry@,
            settings: self.settings@,
            running: self.supervisors@,
        }
    }
}

/// The limit of a host is set, if the text names one.
pub open spec fn limit_host(text: Seq<char>, limit: Option<u64>) -> Seq<AppActionModel> {
    match meant_host(host_of_url(text), host_of_name(text)) {
        Some(host) => seq![AppActionModel::SaveSettings, AppActionModel::LimitHost { host, limit }],
        None => seq![AppActionModel::SaveSettings],
    }
}

/// What a command does. A URL that is known is not queued again. A download that is
/// worked on is removed by those who work on it, and any other at once.
pub open spec fn app_step(m: AppModel, command: AppManagerCommand) -> (AppModel, Seq<
    AppActionModel,
>) {
    match command {
        AppManagerCommand::QueueDownload(url) => if m.registry.urls.contains_key(url@) {
            (m, Seq::empty())
        } else {
            (
                AppModel { registry: m.registry.registered(url@), ..m },
                seq![AppActionModel::AskPlugin { url: url@, id: DownloadId(m.registry.next) }],
            )
        },
        AppManagerCommand::DownloadReady(download) => (
            AppModel { running: m.running.insert(download.id.0), ..m },
            seq![AppActionModel::StartWork(download)],
        ),
        AppManagerCommand::RemoveDownload(id, from_disk) => {
            let marked = RegistryModel {
                removed: m.registry.removed.insert(id.0, from_disk),
                ..m.registry
            };
            if m.running.contains(id.0) {
                (
                    AppModel { registry: marked, running: m.running.remove(id.0), ..m },
                    seq![AppActionModel::CancelWork { id, from_disk }],
                )
            } else {
                (
                    AppModel { registry: marked.finalized(id), ..m },
                    (if from_disk {
                        seq![AppActionModel::DeleteFiles(id)]
                    } else {
                        Seq::empty()
                    }) + seq![
                        AppActionModel::DeleteFromDatabase(id),
                        AppActionModel::ShowRemoved(id),
                    ],
                )
            }
        },
        AppManagerCommand::PauseDownload(id) => (
            m,
            if m.running.contains(id.0) {
                seq![AppActionModel::PauseWork(id)]
            } else {
                Seq::empty()
            },
        ),
        AppManagerCommand::ResumeDownload(id) => (
            m,
            if m.running.contains(id.0) {
                seq![AppActionModel::ResumeWork(id)]
            } else {
                Seq::empty()
            },
        ),
        AppManagerCommand::Shutdown => (m, seq![AppActionModel::Stop]),
        AppManagerCommand::SetGlobalSpeedLimit(limit) => (
            AppModel { settings: SettingsModel { global: limit, ..m.settings }, ..m },
            seq![AppActionModel::SaveSettings, AppActionModel::LimitGlobal(limit)],
        ),
        AppManagerCommand::SetDefaultSavePath(path) => (
            AppModel {
                settings: SettingsModel {
                    save_path: match path {
                        Some(p) => Some(p@),
                        None => None,
                    },
                    ..m.settings
                },
                ..m
            },
            seq![AppActionModel::SaveSettings],
        ),
        AppManagerCommand::SetHostSpeedLimit(host, limit) => (
            AppModel { settings: m.settings.with_host(host@, limit), ..m },
            limit_host(host@, limit),
        ),
        AppManagerCommand::RemoveHostSpeedLimit(host) => (
            AppModel {
                settings: SettingsModel { hosts: m.settings.hosts.remove(host@), ..m.settings },
                ..m
            },
            limit_host(host@, None),
        ),
        AppManagerCommand::SetDownloadSpeedLimit(id, limit) => (
            AppModel { settings: m.settings.with_download(id, limit), ..m },
            seq![AppActionModel::SaveSettings, AppActionModel::LimitDownload { id, limit }],
        ),
        AppManagerCommand::SetFileSpeedLimit { id, file, limit, exists } => if exists {
            (
                AppModel { settings: m.settings.with_file(id, file, limit), ..m },
                seq![AppActionModel::SaveSettings, AppActionModel::LimitFile { id, file, limit }],
            )
        } else {
            (m, Seq::empty())
        },
        AppManagerCommand::GetSettings => (m, seq![AppActionModel::SendSettings]),
    }
}

/// What the program becomes when the work on a download tells something.
pub open spec fn app_heard(m: AppModel, event: AppManagerEvent) -> AppModel {
    match event {
        AppManagerEvent::FinishDownload(id) => AppModel { running: m.running.remove(id.0), ..m },
        AppManagerEvent::RemoveDownload(id) => AppModel {
            running: m.running.remove(id.0),
            registry: m.registry.finalized(id),
            ..m
        },
    }
}

fn act(out: &mut Vec<AppAction>, action: AppAction)
    ensures
        app_actions(final(out)@) == app_actions(old(out)@).push(action@),
{
    out.push(action);
    assert(app_actions(out@) =~= app_actions(old(out)@).push(action@));
}

impl AppManager {
    /// No host is named twice in the settings.
    pub closed spec fn wf(&self) -> bool {
        self.settings.wf()
    }

    /// The program with the downloads and the settings that it has.
    pub fn new(registry: DownloadRegistry, settings: AppSettings) -> (r: Self)
        requires
            settings.wf(),
        ensures
            r.wf(),
            r@ == (AppModel {
                registry: registry@,
                settings: settings@,
                running: Set::empty(),
            }),
    {
        let r = AppManager { registry, settings, supervisors: HashSet::new() };
        assert(r@.running =~= Set::empty());
        r
    }

    /// What holds for the downloads.
    pub fn settings(&self) -> (r: &AppSettings)
        requires
            self.wf(),
        ensures
            r@ == self@.settings,
            r.wf(),
    {
        &self.settings
    }

    fn limit_host(&self, text: &str, limit: Option<u64>, out: &mut Vec<AppAction>)
        requires
            app_actions(old(out)@) == Seq::<AppActionModel>::empty(),
        ensures
            app_actions(final(out)@) == limit_host(text@, limit),
    {
        act(out, AppAction::SaveSettings);
        if let Some(host) = parse_host_or_url(text) {
            act(out, AppAction::LimitHost { host, limit });
        }
        assert(app_actions(out@) =~= limit_host(text@, limit));
    }

    fn remove(&mut self, id: DownloadId, from_disk: bool, out: &mut Vec<AppAction>)
        requires
            old(self).wf(),
            app_actions(old(out)@) == Seq::<AppActionModel>::empty(),
        ensures
            final(self).wf(),
            (final(self)@, app_actions(final(out)@)) == app_step(
                old(self)@,
                AppManagerCommand::RemoveDownload(id, from_disk),
            ),
    {
        self.registry.mark_removed(id, from_disk);
        if self.supervisors.remove(&id.0) {
            assert(self@.running =~= old(self)@.running.remove(id.0));
            act(out, AppAction::CancelWork { id, from_disk });
        } else {
            assert(self@.running =~= old(self)@.running);
            if from_disk {
                act(out, AppAction::DeleteFiles(id));
            }
            let _ = self.registry.finalize_removed(&id);
            act(out, AppAction::DeleteFromDatabase(id));
            act(out, AppAction::ShowRemoved(id));
        }
        proof {
            let command = AppManagerCommand::RemoveDownload(id, from_disk);
            assert(app_actions(out@) =~= app_step(old(self)@, command).1);
        }
    }

    /// Takes in a command, and says what is to be done.
    pub fn on_command(&mut self, command: AppManagerCommand) -> (out: Vec<AppAction>)
        requires
            old(self).wf(),
            command matches AppManagerCommand::QueueDownload(url) ==> (
            old(self)@.registry.urls.contains_key(url@) || old(self)@.registry.next < usize::MAX),
        ensures
            final(self).wf(),
            (final(self)@, app_actions(out@)) == app_step(old(self)@, command),
    {
        let mut out: Vec<AppAction> = Vec::new();
        assert(app_actions(out@) =~= Seq::<AppActionModel>::empty());
        match command {
            AppManagerCommand::QueueDownload(url) => {
                if !self.registry.contains_url(url.as_str()) {
                    let id = self.registry.register(url.clone());
                    act(&mut out, AppAction::AskPlugin { url, id });
                }
            },
            AppManagerCommand::DownloadReady(download) => {
                let _ = self.supervisors.insert(download.id.0);
                assert(self@.running =~= old(self)@.running.insert(download.id.0));
                act(&mut out, AppAction::StartWork(download));
            },
            AppManagerCommand::RemoveDownload(id, from_disk) => {
                self.remove(id, from_disk, &mut out);
            },
            AppManagerCommand::PauseDownload(id) => {
                if self.supervisors.contains(&id.0) {
                    act(&mut out, AppAction::PauseWork(id));
                }
            },
            AppManagerCommand::ResumeDownload(id) => {
                if self.supervisors.contains(&id.0) {
                    act(&mut out, AppAction::ResumeWork(id));
                }
            },
            AppManagerCommand::Shutdown => {
                act(&mut out, AppAction::Stop);
            },
            AppManagerCommand::SetGlobalSpeedLimit(limit) => {
                self.settings.set_global_speed_limit(limit);
                act(&mut out, AppAction::SaveSettings);
                act(&mut out, AppAction::LimitGlobal(limit));
            },
            AppManagerCommand::SetDefaultSavePath(path) => {
                self.settings.set_default_save_path(path);
                act(&mut out, AppAction::SaveSettings);
            },
            AppManagerCommand::SetHostSpeedLimit(host, limit) => {
                self.settings.set_host_limit(host.clone(), limit);
                self.limit_host(host.as_str(), limit, &mut out);
            },
            AppManagerCommand::RemoveHostSpeedLimit(host) => {
                let _ = self.settings.remove_host_limit(host.as_str());
                self.limit_host(host.as_str(), None, &mut out);
            },
            AppManagerCommand::SetDownloadSpeedLimit(id, limit) => {
                self.settings.set_download_limit(id, limit);
                act(&mut out, AppAction::SaveSettings);
                act(&mut out, AppAction::LimitDownload { id, limit });
            },
            AppManagerCommand::SetFileSpeedLimit { id, file, limit, exists } => {
                if exists {
                    self.settings.set_file_limit(id, file, limit);
                    act(&mut out, AppAction::SaveSettings);
                    act(&mut out, AppAction::LimitFile { id, file, limit });
                }
            },
            AppManagerCommand::GetSettings => {
                act(&mut out, AppAction::SendSettings);
            },
        }
        assert(app_actions(out@) =~= app_step(old(self)@, command).1);
        out
    }

    /// Takes in what the work on a download tells.
    pub fn on_event(&mut self, event: AppManagerEvent)
        requires
            old(self).wf(),
        ensures
            final(self).wf(),
            final(self)@ == app_heard(old(self)@, event),
    {
        match event {
            AppManagerEvent::FinishDownload(id) => {
                let _ = self.supervisors.remove(&id.0);
                assert(self@.running =~= old(self)@.running.remove(id.0));
            },
            AppManagerEvent::RemoveDownload(id) => {
                let _ = self.supervisors.remove(&id.0);
                assert(self@.running =~= old(self)@.running.remove(id.0));
                let _ = self.registry.finalize_removed(&id);
            },
        }
    }
}

/// A URL that is known is not queued again, whatever has become of its download.
pub proof fn law_known_urls_are_not_queued_again(m: AppModel, url: String)
    requires
        m.registry.urls.contains_key(url@),
    ensures
        app_step(m, AppManagerCommand::QueueDownload(url)) == (m, Seq::<AppActionModel>::empty()),
{
}

/// A download that is removed leaves no trace, whether it is worked on or not: once
/// those who work on it have said so, it is neither known nor being removed, and
/// nobody works on it.
pub proof fn law_removed_downloads_leave_no_trace(m: AppModel, id: DownloadId, from_disk: bool)
    ensures
        ({
            let after = app_step(m, AppManagerCommand::RemoveDownload(id, from_disk)).0;
            let end = if m.running.contains(id.0) {
                app_heard(after, AppManagerEvent::RemoveDownload(id))
            } else {
                after
            };
            &&& !end.running.contains(id.0)
            &&& !end.registry.ids.contains_key(id.0)
            &&& !end.registry.removed.contains_key(id.0)
            &&& m.registry.ids.contains_key(id.0) ==> !end.registry.urls.contains_key(
                m.registry.ids[id.0],
            )
        }),
{
}

} // verus!
