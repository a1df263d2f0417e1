use internet_downloader_backend::app::manager::{
    AppAction, AppManager, AppManagerCommand, AppManagerEvent, GetSettingsError,
};
use internet_downloader_backend::app::patch::{
    apply_app_patch, AppSettingsPatch, DownloadSettingsPatch, FileSettingsPatch,
    HostSettingsPatch, PatchStep, PatchValue,
};
use internet_downloader_backend::app::registry::DownloadRegistry;
use internet_downloader_backend::app::settings::{AppSettings, FileSettings, HostSettings};
use internet_downloader_backend::app_manager;
use internet_downloader_backend::app_manager::AppManagerAction;
use internet_downloader_backend::db::rows::{
    GlobalSettingsRow, HostSettingsRow, JoinedDownloadSettingsRow,
};
use internet_downloader_backend::db::settings_rows::settings_rows;
use internet_downloader_backend::download::download_manager::{
    verify_downloads, DownloadManager, ManagerCommand, SavedFile, SavedStatus,
};
use internet_downloader_backend::download::error::FileFailureReason;
use internet_downloader_backend::download::hosts::tasks::{DownloadTask, FileTask, TaskType};
use internet_downloader_backend::download::items::{DownloadId, FileId};
use internet_downloader_backend::download::tree::Download;
use internet_downloader_backend::utils::file_utils::TargetOs;
use internet_downloader_backend::utils::paths::ItemPath;
use internet_downloader_backend::utils::urls::Host;
use internet_downloader_backend::verification_tracker::VerificationTracker;

fn download(id: usize, url: &str) -> Download {
    let file = FileTask::new(url.to_owned(), "f.bin".to_owned());
    let task = DownloadTask::new(url.to_owned(), TaskType::File(file));
    Download::new(id, task, ItemPath::new(), TargetOs::Unix)
}

#[test]
fn new_urls_get_new_numbers() {
    let mut registry = DownloadRegistry::from_db(vec![(4, "a".to_owned()), (2, "b".to_owned())]);
    assert!(registry.contains_url("a"));
    assert_eq!(registry.register("c".to_owned()), DownloadId(5));
    assert_eq!(registry.lookup_url(&DownloadId(5)), Some(&"c".to_owned()));
    assert_eq!(registry.next_id(), DownloadId(6));
    registry.add_downloads(&vec![download(9, "d")]);
    assert_eq!(registry.url_map().get("d"), Some(&DownloadId(9)));
    assert!(!DownloadRegistry::new().contains_url("a"));
}

#[test]
fn removed_urls_can_come_back() {
    let mut registry = DownloadRegistry::new();
    let id = registry.register("a".to_owned());
    assert!(!registry.is_marked_for_removal(&id));
    registry.mark_removed(id, true);
    assert!(registry.is_marked_for_removal(&id));
    assert_eq!(registry.finalize_removed(&id), Some(true));
    assert!(!registry.contains_url("a"));
    assert_eq!(registry.lookup_url(&id), None);
    assert_eq!(registry.finalize_removed(&id), None);
}

#[test]
fn limits_keep_to_what_they_are_set_for() {
    let mut settings = AppSettings::new();
    settings.set_host_limit("a".to_owned(), Some(1));
    settings.set_host_limit("b".to_owned(), Some(2));
    settings.set_host_limit("a".to_owned(), Some(3));
    assert_eq!(settings.get_host_settings("a"), Some(HostSettings { speed_limit: Some(3) }));
    assert_eq!(settings.get_host_settings("b"), Some(HostSettings { speed_limit: Some(2) }));
    assert!(settings.remove_host_limit("a"));
    assert!(!settings.remove_host_limit("a"));
    assert_eq!(settings.get_host_settings("a"), None);
    settings.set_download_limit(DownloadId(1), Some(9));
    assert!(settings.get_download_settings(DownloadId(1)).is_none());
    settings.set_file_limit(DownloadId(1), FileId(4), Some(8));
    settings.set_download_limit(DownloadId(1), Some(9));
    let own = settings.get_download_settings(DownloadId(1)).unwrap();
    assert_eq!(own.speed_limit, Some(9));
    assert_eq!(own.get_file_settings(&FileId(4)), Some(FileSettings { speed_limit: Some(8) }));
    assert_eq!(own.get_file_settings(&FileId(5)), None);
    settings.set_global_speed_limit(Some(7));
    assert_eq!(settings.global_speed_limit(), Some(7));
}

#[test]
fn settings_read_back_as_they_were_written() {
    let mut settings = AppSettings::new();
    settings.set_global_speed_limit(Some(u64::MAX));
    settings.set_host_limit("h".to_owned(), None);
    settings.set_file_limit(DownloadId(1), FileId(4), Some(8));
    settings.set_file_limit(DownloadId(1), FileId(5), None);
    settings.set_download_limit(DownloadId(1), Some(9));
    let rows = settings_rows(&settings);
    assert_eq!(rows.global.global_speed_limit, Some(-1));
    assert_eq!(rows.downloads.len(), 1);
    assert_eq!(rows.files.len(), 2);
    let mut joined = Vec::new();
    for d in &rows.downloads {
        for f in rows.files.iter().filter(|f| f.download_id == d.download_id) {
            joined.push(JoinedDownloadSettingsRow {
                download_id: d.download_id,
                download_speed_limit: d.speed_limit,
                file_id: Some(f.file_id),
                file_speed_limit: f.speed_limit,
            });
        }
    }
    let again = AppSettings::from_db(rows.global, rows.hosts, joined);
    assert_eq!(again.global_speed_limit(), Some(u64::MAX));
    assert_eq!(again.get_host_settings("h"), Some(HostSettings { speed_limit: None }));
    let own = again.get_download_settings(DownloadId(1)).unwrap();
    assert_eq!(own.speed_limit, Some(9));
    assert_eq!(own.get_file_settings(&FileId(4)), Some(FileSettings { speed_limit: Some(8) }));
    assert_eq!(own.get_file_settings(&FileId(5)), Some(FileSettings { speed_limit: None }));
}

#[test]
fn rows_about_settings_are_read() {
    let settings = AppSettings::from_db(
        GlobalSettingsRow { global_speed_limit: None },
        vec![
            HostSettingsRow { host: "a".to_owned(), speed_limit: Some(1) },
            HostSettingsRow { host: "a".to_owned(), speed_limit: Some(2) },
        ],
        vec![JoinedDownloadSettingsRow {
            download_id: 3,
            download_speed_limit: None,
            file_id: None,
            file_speed_limit: None,
        }],
    );
    assert_eq!(settings.get_host_settings("a"), Some(HostSettings { speed_limit: Some(2) }));
    assert_eq!(settings.get_download_settings(DownloadId(3)).unwrap().speed_limit, None);
    assert_eq!(settings.default_save_path, None);
}

#[test]
fn known_urls_are_not_queued_again() {
    let mut manager = AppManager::new(DownloadRegistry::new(), AppSettings::new());
    let out = manager.on_command(AppManagerCommand::QueueDownload("u".to_owned()));
    assert!(matches!(&out[..], [AppAction::AskPlugin { url, id: DownloadId(0) }] if url == "u"));
    assert!(manager.on_command(AppManagerCommand::QueueDownload("u".to_owned())).is_empty());
}

#[test]
fn a_url_is_handed_on_once_whatever_comes_in_between() {
    let mut manager = AppManager::new(DownloadRegistry::new(), AppSettings::new());
    let id = DownloadId(0);
    let queue = |url: &str| AppManagerCommand::QueueDownload(url.to_owned());
    let mut asked = Vec::new();
    for command in [
        queue("u"),
        queue("v"),
        queue("u"),
        AppManagerCommand::DownloadReady(download(0, "u")),
        queue("u"),
        AppManagerCommand::PauseDownload(id),
        AppManagerCommand::RemoveDownload(DownloadId(1), false),
        queue("u"),
        AppManagerCommand::SetGlobalSpeedLimit(Some(1)),
    ] {
        for action in manager.on_command(command) {
            if let AppAction::AskPlugin { url, id } = action {
                asked.push((url, id));
            }
        }
    }
    assert_eq!(asked, vec![("u".to_owned(), id), ("v".to_owned(), DownloadId(1))]);
    manager.on_event(AppManagerEvent::FinishDownload(id));
    assert!(manager.on_command(queue("u")).is_empty());
    // A removal that has not come to its end does not make the URL new.
    manager.on_command(AppManagerCommand::DownloadReady(download(0, "u")));
    manager.on_command(AppManagerCommand::RemoveDownload(id, false));
    assert!(manager.on_command(queue("u")).is_empty());
}

#[test]
fn running_downloads_are_cancelled_and_others_removed_at_once() {
    let mut manager = AppManager::new(DownloadRegistry::new(), AppSettings::new());
    manager.on_command(AppManagerCommand::QueueDownload("u".to_owned()));
    let out = manager.on_command(AppManagerCommand::DownloadReady(download(0, "u")));
    assert!(matches!(&out[..], [AppAction::StartWork(d)] if d.id() == DownloadId(0)));
    let id = DownloadId(0);
    assert!(matches!(
        &manager.on_command(AppManagerCommand::PauseDownload(id))[..],
        [AppAction::PauseWork(DownloadId(0))]
    ));
    assert!(matches!(
        &manager.on_command(AppManagerCommand::ResumeDownload(id))[..],
        [AppAction::ResumeWork(DownloadId(0))]
    ));
    assert!(matches!(
        &manager.on_command(AppManagerCommand::RemoveDownload(id, true))[..],
        [AppAction::CancelWork { id: DownloadId(0), from_disk: true }]
    ));
    manager.on_event(AppManagerEvent::RemoveDownload(id));
    let again = manager.on_command(AppManagerCommand::QueueDownload("u".to_owned()));
    assert!(matches!(&again[..], [AppAction::AskPlugin { id: DownloadId(1), .. }]));
    let out = manager.on_command(AppManagerCommand::RemoveDownload(DownloadId(1), true));
    assert!(matches!(
        &out[..],
        [
            AppAction::DeleteFiles(DownloadId(1)),
            AppAction::DeleteFromDatabase(DownloadId(1)),
            AppAction::ShowRemoved(DownloadId(1)),
        ]
    ));
    assert!(manager.on_command(AppManagerCommand::PauseDownload(id)).is_empty());
    assert!(manager.on_command(AppManagerCommand::ResumeDownload(id)).is_empty());
}

#[test]
fn finished_downloads_do_not_run() {
    let mut manager = AppManager::new(DownloadRegistry::new(), AppSettings::new());
    manager.on_command(AppManagerCommand::DownloadReady(download(3, "u")));
    manager.on_event(AppManagerEvent::FinishDownload(DownloadId(3)));
    assert!(manager.on_command(AppManagerCommand::PauseDownload(DownloadId(3))).is_empty());
}

#[test]
fn limits_are_saved_and_put_to_work() {
    let mut manager = AppManager::new(DownloadRegistry::new(), AppSettings::new());
    assert!(matches!(
        &manager.on_command(AppManagerCommand::SetGlobalSpeedLimit(Some(5)))[..],
        [AppAction::SaveSettings, AppAction::LimitGlobal(Some(5))]
    ));
    let url = "https://H.org/x".to_owned();
    let out = manager.on_command(AppManagerCommand::SetHostSpeedLimit(url.clone(), Some(4)));
    assert!(matches!(
        &out[..],
        [AppAction::SaveSettings, AppAction::LimitHost { host, limit: Some(4) }] if *host == Host::Domain("h.org".to_owned())
    ));
    assert!(manager.settings().get_host_settings(&url).is_some());
    assert!(matches!(
        &manager.on_command(AppManagerCommand::SetHostSpeedLimit("no host".to_owned(), None))[..],
        [AppAction::SaveSettings]
    ));
    assert!(matches!(
        &manager.on_command(AppManagerCommand::RemoveHostSpeedLimit(url))[..],
        [AppAction::SaveSettings, AppAction::LimitHost { limit: None, .. }]
    ));
    assert!(matches!(
        &manager.on_command(AppManagerCommand::SetDownloadSpeedLimit(DownloadId(1), Some(2)))[..],
        [AppAction::SaveSettings, AppAction::LimitDownload { id: DownloadId(1), limit: Some(2) }]
    ));
    let unknown = AppManagerCommand::SetFileSpeedLimit {
        id: DownloadId(1),
        file: FileId(0),
        limit: Some(1),
        exists: false,
    };
    assert!(manager.on_command(unknown).is_empty());
    let known = AppManagerCommand::SetFileSpeedLimit {
        id: DownloadId(1),
        file: FileId(0),
        limit: Some(1),
        exists: true,
    };
    assert!(matches!(
        &manager.on_command(known)[..],
        [AppAction::SaveSettings, AppAction::LimitFile { file: FileId(0), .. }]
    ));
    assert!(matches!(
        &manager.on_command(AppManagerCommand::SetDefaultSavePath(Some("p".to_owned())))[..],
        [AppAction::SaveSettings]
    ));
    assert_eq!(manager.settings().default_save_path, Some("p".to_owned()));
    assert!(matches!(
        &manager.on_command(AppManagerCommand::GetSettings)[..],
        [AppAction::SendSettings]
    ));
    assert!(matches!(
        &manager.on_command(AppManagerCommand::Shutdown)[..],
        [AppAction::Stop]
    ));
    assert_eq!(GetSettingsError::NoResponse.describe(), "app manager did not respond");
    assert_eq!(GetSettingsError::ManagerUnreachable.describe(), "app manager is unreachable");
}

#[test]
fn what_is_verified_is_kept_apart_from_what_is_to_be() {
    let mut tracker = VerificationTracker::from_downloads(&vec![download(1, "a"), download(2, "b")]);
    let one = DownloadId(1);
    assert!(tracker.is_verifying(&one) && tracker.needs_verification(&one));
    assert!(!tracker.is_verifying(&DownloadId(3)));
    tracker.pause(one);
    assert!(!tracker.is_verifying(&one) && tracker.needs_verification(&one));
    assert!(!tracker.cancel(one));
    tracker.verify(one);
    assert!(tracker.cancel(one));
    tracker.remove(&one);
    assert!(!tracker.is_verifying(&one) && !tracker.needs_verification(&one));
}

#[test]
fn downloads_go_on_with_their_settings() {
    let mut settings = AppSettings::new();
    settings.set_file_limit(DownloadId(1), FileId(0), Some(8));
    settings.set_download_limit(DownloadId(1), Some(9));
    let restored = vec![download(1, "a")];
    let mut manager = app_manager::AppManager::new(DownloadRegistry::new(), settings, &restored);
    let out = manager.on_command(app_manager::AppManagerCommand::DownloadVerified(download(1, "a")));
    match &out[..] {
        [AppManagerAction::ResumeWork { download, settings: Some(own) }] => {
            assert_eq!(download.id(), DownloadId(1));
            assert_eq!(own.speed_limit, Some(9));
        }
        _ => panic!("the download did not go on"),
    }
}

#[test]
fn restored_downloads_are_verified_before_they_go_on() {
    let restored = vec![download(1, "a")];
    let mut manager =
        app_manager::AppManager::new(DownloadRegistry::new(), AppSettings::new(), &restored);
    let id = DownloadId(1);
    let out = manager.on_command(app_manager::AppManagerCommand::PauseDownload(id));
    assert!(matches!(
        &out[..],
        [AppManagerAction::PauseVerification(_), AppManagerAction::PauseWork { url, .. }] if url == "a"
    ));
    let stale = app_manager::AppManagerCommand::DownloadVerified(download(1, "a"));
    assert!(manager.on_command(stale).is_empty());
    let out = manager.on_command(app_manager::AppManagerCommand::ResumeDownload(download(1, "a")));
    assert!(matches!(&out[..], [AppManagerAction::Verify(_)]));
    let out = manager.on_command(app_manager::AppManagerCommand::DownloadVerified(download(1, "a")));
    assert!(matches!(&out[..], [AppManagerAction::ResumeWork { settings: None, .. }]));
    let out = manager.on_command(app_manager::AppManagerCommand::ResumeDownload(download(1, "a")));
    assert!(matches!(&out[..], [AppManagerAction::ResumeWork { settings: None, .. }]));
}

#[test]
fn downloads_that_are_removed_do_not_go_on() {
    let restored = vec![download(1, "a"), download(2, "b")];
    let mut manager =
        app_manager::AppManager::new(DownloadRegistry::new(), AppSettings::new(), &restored);
    let id = DownloadId(1);
    let out = manager.on_command(app_manager::AppManagerCommand::RemoveDownload(id, true));
    assert!(matches!(&out[..], [AppManagerAction::CancelVerification(DownloadId(1))]));
    let late = app_manager::AppManagerCommand::DownloadVerified(download(1, "a"));
    assert!(manager.on_command(late).is_empty());
    let out = manager.on_command(app_manager::AppManagerCommand::CleanUpDownload(id));
    assert!(matches!(
        &out[..],
        [
            AppManagerAction::DeleteFiles(_),
            AppManagerAction::DeleteFromDatabase(_),
            AppManagerAction::ShowRemoved(_),
        ]
    ));
    manager.on_command(app_manager::AppManagerCommand::DownloadVerified(download(2, "b")));
    let out =
        manager.on_command(app_manager::AppManagerCommand::RemoveDownload(DownloadId(2), false));
    assert!(matches!(&out[..], [AppManagerAction::CancelWork { url, .. }] if url == "b"));
    let out =
        manager.on_command(app_manager::AppManagerCommand::RemoveDownload(DownloadId(8), false));
    assert!(matches!(&out[..], [AppManagerAction::CleanUp(DownloadId(8))]));
    assert!(manager.settings().global_speed_limit().is_none());
}

#[test]
fn waiting_downloads_come_first_come_first_served() {
    let mut manager = DownloadManager::new();
    assert!(!manager.is_waiting());
    manager.load_state(&vec![download(4, "a"), download(2, "b"), download(3, "c")]);
    manager.start_processing(vec![(1, "old".to_owned())]);
    let out = manager.on_command(ManagerCommand::QueueDownload("old".to_owned()));
    assert!(out.is_empty());
    let out = manager.on_command(ManagerCommand::QueueDownload("new".to_owned()));
    assert!(matches!(&out[..], [AppManagerAction::QueueWork { id: DownloadId(5), .. }]));
    let out = manager.on_command(ManagerCommand::RemoveDownload(DownloadId(2), false));
    assert!(matches!(&out[..], [AppManagerAction::CleanUp(DownloadId(2))]));
    let out = manager.on_command(ManagerCommand::CleanUpDownload(DownloadId(2)));
    assert_eq!(out.len(), 2);
    assert!(manager.is_waiting());
    assert_eq!(manager.on_permit(), Some("a".to_owned()));
    assert_eq!(manager.on_permit(), Some("c".to_owned()));
    assert_eq!(manager.on_permit(), None);
    let out = manager.on_command(ManagerCommand::RemoveDownload(DownloadId(5), true));
    assert!(matches!(&out[..], [AppManagerAction::CancelWork { url, .. }] if url == "new"));
    let out = manager.on_command(ManagerCommand::PauseDownload(DownloadId(5)));
    assert!(matches!(&out[..], [AppManagerAction::PauseWork { .. }]));
    let out = manager.on_command(ManagerCommand::ResumeDownload(download(5, "new")));
    assert!(matches!(&out[..], [AppManagerAction::ResumeWork { settings: None, .. }]));
    let file = ManagerCommand::SetFileSpeedLimit {
        id: DownloadId(5),
        file: FileId(0),
        limit: None,
        exists: true,
    };
    assert!(manager.on_command(file).is_empty());
    assert!(matches!(&manager.on_command(ManagerCommand::Shutdown)[..], [AppManagerAction::Stop]));
}

#[test]
fn files_are_looked_for_and_compared_when_the_program_starts() {
    let file = |id: usize, status: SavedStatus, has_size: bool, exists: bool, found: u128| SavedFile {
        id: FileId(id),
        status,
        has_size,
        exists,
        hash: Some(7),
        found,
    };
    let files = vec![
        file(0, SavedStatus::Completed, true, true, 7),
        file(1, SavedStatus::Completed, true, true, 8),
        file(2, SavedStatus::Completed, true, false, 7),
        file(3, SavedStatus::Paused, true, false, 0),
        file(4, SavedStatus::Paused, false, false, 0),
        file(5, SavedStatus::Queued, true, false, 0),
        file(6, SavedStatus::Failed(FileFailureReason::DiskError), true, false, 0),
    ];
    assert_eq!(
        verify_downloads(&files),
        vec![
            (FileId(1), SavedStatus::Failed(FileFailureReason::HashMismatch)),
            (FileId(2), SavedStatus::NotFound),
            (FileId(3), SavedStatus::NotFound),
        ]
    );
    assert!(files[0].needs_hash());
    assert!(!files[2].needs_hash());
    assert!(!files[5].should_exist());
}

#[test]
fn requests_change_what_they_speak_of() {
    assert_eq!(PatchValue::default(), PatchValue::Unchanged);
    assert_eq!(PatchValue::spoken(None), PatchValue::Clear);
    assert_eq!(PatchValue::spoken(Some(1)), PatchValue::SetTo(1));
    let patch = AppSettingsPatch {
        global_speed_limit: PatchValue::SetTo(1),
        host_settings: vec![
            HostSettingsPatch { host: "a".to_owned(), speed_limit: PatchValue::Unchanged },
            HostSettingsPatch { host: "b".to_owned(), speed_limit: PatchValue::Clear },
        ],
        download_settings: vec![DownloadSettingsPatch {
            id: DownloadId(3),
            speed_limit: PatchValue::SetTo(2),
            file_settings: vec![FileSettingsPatch {
                file: FileId(4),
                speed_limit: PatchValue::SetTo(5),
            }],
        }],
    };
    let steps = apply_app_patch(&patch);
    assert!(matches!(
        &steps[..],
        [
            PatchStep::Global(Some(1)),
            PatchStep::Host(host, None),
            PatchStep::Download(DownloadId(3), Some(2)),
            PatchStep::File(DownloadId(3), FileId(4), Some(5)),
        ] if host == "b"
    ));
    let silent = AppSettingsPatch {
        global_speed_limit: PatchValue::Unchanged,
        host_settings: vec![],
        download_settings: vec![],
    };
    assert!(apply_app_patch(&silent).is_empty());
}
