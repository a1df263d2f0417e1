use internet_downloader_backend::app::limiters::{DownloadLimiterGroup, LimiterRegistry};
use internet_downloader_backend::app::settings::{AppSettings, HostSettings};
use internet_downloader_backend::download::items::{DownloadId, FileId};
use internet_downloader_backend::network_manager::{NetworkConfig, NetworkManager};
use internet_downloader_backend::utils::network_utils::{
    greatest_debt, saturate, BandwidthLimiter, DebtClock, ThrottledStream, FOR_EVER,
};
use internet_downloader_backend::utils::urls::Host;

fn host(name: &str) -> Host {
    Host::Domain(name.to_owned())
}

#[test]
fn debts_add_up_and_run_off() {
    let mut clock = DebtClock::new();
    assert_eq!(clock.get_debt(100), None);
    clock.add_debt(100, 50);
    assert_eq!(clock.get_debt(100), Some(50));
    assert_eq!(clock.get_debt(149), Some(1));
    assert_eq!(clock.get_debt(150), None);
    clock.add_debt(120, 30);
    assert_eq!(clock.get_debt(120), Some(60));
    clock.add_debt(1000, 1);
    assert_eq!(clock.get_debt(1000), Some(1));
    clock.clear_debt();
    assert_eq!(clock.get_debt(0), None);
    clock.add_debt(5, u128::MAX);
    assert_eq!(clock.clock, u64::MAX);
    assert_eq!(DebtClock::default(), DebtClock::new());
    assert_eq!(saturate(u64::MAX as u128 + 1), u64::MAX);
    assert_eq!(saturate(3), 3);
}

#[test]
fn bytes_cost_what_the_limit_says() {
    let mut limiter = BandwidthLimiter::new(1000);
    limiter.register_bytes(0, 500);
    assert_eq!(limiter.get_debt(0), Some(500_000));
    assert_eq!(limiter.leftover_bytes, 0);
    assert_eq!(limiter.get_debt(500_000), None);
}

#[test]
fn small_parts_are_saved_up() {
    // Three bytes in a microsecond: one byte alone costs nothing yet.
    let mut limiter = BandwidthLimiter::new(3_000_000);
    limiter.register_bytes(0, 1);
    assert_eq!(limiter.leftover_bytes, 1);
    assert_eq!(limiter.get_debt(0), None);
    limiter.register_bytes(0, 1);
    limiter.register_bytes(0, 1);
    assert_eq!(limiter.leftover_bytes, 0);
    assert_eq!(limiter.get_debt(0), Some(1));
}

#[test]
fn the_limit_is_kept_however_bytes_are_split() {
    let mut whole = BandwidthLimiter::new(7);
    whole.register_bytes(0, 700);
    let mut parts = BandwidthLimiter::new(7);
    for _ in 0..700 {
        parts.register_bytes(0, 1);
    }
    let owed = parts.get_debt(0).unwrap();
    assert_eq!(whole.get_debt(0), Some(100_000_000));
    assert!(owed * 7 >= (700 - parts.leftover_bytes) * 1_000_000);
    assert!(parts.leftover_bytes <= 1);
}

#[test]
fn nothing_comes_at_a_limit_of_zero_and_everything_without_one() {
    let mut limiter = BandwidthLimiter::new(0);
    assert_eq!(limiter.get_debt(9), Some(FOR_EVER));
    limiter.register_bytes(0, 100);
    assert_eq!(limiter.leftover_bytes, 0);
    limiter.set_unlimited(true);
    assert!(limiter.is_unlimited());
    assert_eq!(limiter.get_debt(9), None);
    limiter.register_bytes(0, 100);
    assert_eq!(limiter.get_debt(0), None);
    limiter.apply(Some(10));
    assert_eq!(limiter.get_limit(), 10);
    assert!(!limiter.is_unlimited());
    limiter.register_bytes(0, 10);
    assert_eq!(limiter.get_debt(0), Some(1_000_000));
    limiter.apply(Some(20));
    assert_eq!(limiter.get_debt(0), None);
    limiter.apply(None);
    assert!(limiter.is_unlimited());
}

#[test]
fn a_stream_waits_for_its_greatest_debt() {
    assert_eq!(greatest_debt(&vec![None, Some(3), Some(9), Some(2)]), 9);
    assert_eq!(greatest_debt(&vec![None, None]), 0);
    let mut stream = ThrottledStream::new(10);
    assert!(stream.is_ready(10));
    stream.read(10, 0, &vec![Some(5)]);
    assert!(stream.is_ready(10));
    stream.read(10, 4, &vec![None]);
    assert!(stream.is_ready(10));
    stream.read(10, 4, &vec![Some(5), Some(7)]);
    assert!(!stream.is_ready(16));
    assert!(stream.is_ready(17));
    stream.settings_changed(12, &vec![Some(1)]);
    assert!(stream.is_ready(13));
    stream.settings_changed(12, &vec![]);
    assert!(stream.is_ready(12));
}

fn settings() -> AppSettings {
    let mut settings = AppSettings::new();
    settings.set_file_limit(DownloadId(1), FileId(2), Some(50));
    settings.set_file_limit(DownloadId(1), FileId(3), None);
    settings.set_download_limit(DownloadId(1), Some(100));
    settings.set_host_limit("slow.org".to_owned(), Some(10));
    settings.set_host_limit("odd.org".to_owned(), None);
    settings
}

#[test]
fn limiters_follow_settings() {
    let settings = settings();
    let mut group = DownloadLimiterGroup::from_settings(settings.get_download_settings(DownloadId(1)).as_ref());
    assert_eq!(group.download_limiter().get_limit(), 100);
    assert!(!group.download_limiter().is_unlimited());
    assert_eq!(group.file_limiters().len(), 1);
    assert_eq!(group.file_limiters()[&2].get_limit(), 50);
    group.add_file(FileId(2));
    assert!(group.file_limiters()[&2].is_unlimited());
    let bare = DownloadLimiterGroup::from_settings(None);
    assert!(bare.download_limiter().is_unlimited());
    assert!(DownloadLimiterGroup::new().file_limiters().is_empty());
}

#[test]
fn all_limiters_of_a_file_hear_of_its_bytes() {
    let settings = settings();
    let mut limiters = LimiterRegistry::new();
    assert!(limiters.global_limit().is_unlimited());
    limiters.limit_global(Some(1000));
    limiters.add_host(&host("h.org"), Some(HostSettings { speed_limit: Some(10) }));
    limiters.add_download(
        DownloadId(1),
        DownloadLimiterGroup::from_settings(settings.get_download_settings(DownloadId(1)).as_ref()),
    );
    limiters.register_bytes(0, &host("h.org"), DownloadId(1), FileId(2), 10);
    assert_eq!(
        limiters.debts(0, &host("h.org"), DownloadId(1), FileId(2)),
        vec![Some(10_000), Some(1_000_000), Some(100_000), Some(200_000)]
    );
    assert_eq!(
        limiters.debts(0, &host("other.org"), DownloadId(7), FileId(2)),
        vec![Some(10_000), None, None, None]
    );
    limiters.limit_host(&host("h.org"), None);
    limiters.limit_download(DownloadId(1), Some(5));
    limiters.limit_file(DownloadId(1), FileId(2), Some(0));
    limiters.limit_file(DownloadId(1), FileId(9), Some(0));
    assert_eq!(
        limiters.debts(0, &host("h.org"), DownloadId(1), FileId(2)),
        vec![Some(10_000), None, None, Some(FOR_EVER)]
    );
    assert_eq!(limiters.downloads().len(), 1);
    limiters.remove_download(DownloadId(1));
    assert!(limiters.downloads().is_empty());
    assert!(limiters.host_limits().contains_key(&host("h.org").key()));
}

#[test]
fn hosts_are_worked_with_once_and_limited_as_set() {
    let mut limiters = LimiterRegistry::new();
    let mut network = NetworkManager::new(settings());
    let urls = vec![
        "https://slow.org/a".to_owned(),
        "https://odd.org/b".to_owned(),
        "https://free.org/c".to_owned(),
        "https://slow.org/d".to_owned(),
        "nonsense".to_owned(),
    ];
    let found = network.get_host_handles(&mut limiters, &urls);
    let hosts: Vec<(&str, bool)> = found.iter().map(|r| (r.host.text(), r.is_new)).collect();
    assert_eq!(
        hosts,
        vec![
            ("slow.org", true),
            ("odd.org", true),
            ("free.org", true),
            ("slow.org", false),
            ("unknown-host (nonsense)", true),
        ]
    );
    let limits = limiters.host_limits();
    assert_eq!(limits.get(&host("slow.org").key()).unwrap().get_limit(), 10);
    assert!(!limits.get(&host("odd.org").key()).unwrap().is_unlimited());
    assert!(limits.get(&host("free.org").key()).unwrap().is_unlimited());
    assert!(!network.get_or_spawn_host(&mut limiters, &host("free.org")));
    assert_eq!(NetworkConfig::default(), NetworkConfig { connect_timeout: 5, read_timeout: 10 });
}
