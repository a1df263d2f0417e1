//! The limits that the user has set.

use std::collections::HashMap;

use vstd::prelude::*;
use crate::db::rows::{GlobalSettingsRow, HostSettingsRow, JoinedDownloadSettingsRow};
use crate::download::items::{DownloadId, FileId};
use crate::utils::text::text_eq;

verus! {

broadcast use vstd::std_specs::hash::group_hash_axioms;

/// What holds for a file: how many bytes may come in a second, if there is a limit.
#[derive(Debug, Clone, Copy, PartialEq, Eq, Structural)]
pub struct FileSettings {
    pub speed_limit: Option<u64>,
}

/// What holds for a host.
#[derive(Debug, Clone, Copy, PartialEq, Eq, Structural)]
pub struct HostSettings {
    pub speed_limit: Option<u64>,
}

/// What holds for a download and its files.
pub struct DownloadSettings {
    pub speed_limit: Option<u64>,
    pub file_settings: HashMap<usize, FileSettings>,
}

/// A host, and what holds for it.
pub struct HostEntry {
    pub host: String,
    pub settings: HostSettings,
}

/// What holds for all, and for some downloads and hosts.
pub struct AppSettings {
    pub global_speed_limit: Option<u64>,
    pub default_save_path: Option<String>,
    pub download_settings: HashMap<usize, DownloadSettings>,
    pub host_settings: Vec<HostEntry>,
}

/// What holds for a download, in mathematical values.
#[verifier::ext_equal]
pub struct DownloadSettingsModel {
    pub speed_limit: Option<u64>,
    pub files: Map<usize, FileSettings>,
}

/// What holds, in mathematical values.
#[verifier::ext_equal]
pub struct SettingsModel {
    pub global: Option<u64>,
    pub save_path: Option<Seq<char>>,
    pub downloads: Map<usize, DownloadSettingsModel>,
    pub hosts: Map<Seq<char>, HostSettings>,
}

impl DownloadSettings {
    /// The same settings once more.
    pub fn duplicate(&self) -> (r: Self)
        ensures
            r@ == self@,
    {
        let r = DownloadSettings {
            speed_limit: self.speed_limit,
            file_settings: self.file_settings.clone(),
        };
        assert(r@ =~= self@);
        r
    }
}

impl View for DownloadSettings {
    type V = DownloadSettingsModel;

    open spec fn view(&self) -> DownloadSettingsModel {
        DownloadSettingsModel { speed_limit: self.speed_limit, files: self.file_settings@ }
    }
}

/// What holds for hosts, by name.
pub open spec fn hosts_view(entries: Seq<HostEntry>) -> Map<Seq<char>, HostSettings>
    decreases entries.len(),
{
    if entries.len() == 0 {
        Map::empty()
    } else {
        hosts_view(entries.drop_last()).insert(entries.last().host@, entries.last().settings)
    }
}

/// What holds for downloads in a map, in mathematical values.
pub open spec fn downloads_view(m: Map<usize, DownloadSettings>) -> Map<
    usize,
    DownloadSettingsModel,
> {
    Map::new(|k: usize| m.contains_key(k), |k: usize| m[k]@)
}

impl View for AppSettings {
    type V = SettingsModel;

    open spec fn view(&self) -> SettingsModel {
        SettingsModel {
            global: self.global_speed_limit,
            save_path: match self.default_save_path {
                Some(path) => Some(path@),
                None => None,
            },
            downloads: downloads_view(self.download_settings@),
            hosts: hosts_view(self.host_settings@),
        }
    }
}

/// The settings of a download about which nothing is set.
pub open spec fn no_download_settings() -> DownloadSettingsModel {
    DownloadSettingsModel { speed_limit: None, files: Map::empty() }
}

/// No limits.
pub open spec fn no_settings() -> SettingsModel {
    SettingsModel { global: None, save_path: None, downloads: Map::empty(), hosts: Map::empty() }
}

/// Settings of a download that may be missing, in mathematical values.
pub open spec fn settings_view(settings: Option<DownloadSettings>) -> Option<
    DownloadSettingsModel,
> {
    match settings {
        Some(s) => Some(s@),
        None => None,
    }
}

impl SettingsModel {
    /// What is set about a download.
    pub open spec fn of_download(self, id: DownloadId) -> Option<DownloadSettingsModel> {
        if self.downloads.contains_key(id.0) {
            Some(self.downloads[id.0])
        } else {
            None
        }
    }

    /// With a limit for a host.
    pub open spec fn with_host(self, host: Seq<char>, limit: Option<u64>) -> SettingsModel {
        SettingsModel {
            hosts: self.hosts.insert(host, HostSettings { speed_limit: limit }),
            ..self
        }
    }

    /// With a limit for a download about which something is set.
    pub open spec fn with_download(self, id: DownloadId, limit: Option<u64>) -> SettingsModel {
        if self.downloads.contains_key(id.0) {
            SettingsModel {
                downloads: self.downloads.insert(
                    id.0,
                    DownloadSettingsModel { speed_limit: limit, ..self.downloads[id.0] },
                ),
                ..self
            }
        } else {
            self
        }
    }

    /// With a limit for a file.
    pub open spec fn with_file(self, id: DownloadId, file: FileId, limit: Option<u64>) -> SettingsModel {
        let before = if self.downloads.contains_key(id.0) {
            self.downloads[id.0]
        } else {
            no_download_settings()
        };
        SettingsModel {
            downloads: self.downloads.insert(
                id.0,
                DownloadSettingsModel {
                    files: before.files.insert(file.0, FileSettings { speed_limit: limit }),
                    ..before
                },
            ),
            ..self
        }
    }
}

/// A limit that is stored as a signed number.
pub open spec fn stored_limit(limit: Option<i64>) -> Option<u64> {
    match limit {
        Some(n) => Some(n as u64),
        None => None,
    }
}

/// What rows say of hosts: of several about one host, the last counts.
pub open spec fn hosts_in(rows: Seq<HostSettingsRow>) -> Map<Seq<char>, HostSettings>
    decreases rows.len(),
{
    if rows.len() == 0 {
        Map::empty()
    } else {
        hosts_in(rows.drop_last()).insert(
            rows.last().host@,
            HostSettings { speed_limit: stored_limit(rows.last().speed_limit) },
        )
    }
}

/// What rows say of downloads: the first row of a download says its limit, and every
/// row may say that of a file.
pub open spec fn downloads_in(rows: Seq<JoinedDownloadSettingsRow>) -> Map<
    usize,
    DownloadSettingsModel,
>
    decreases rows.len(),
{
    if rows.len() == 0 {
        Map::empty()
    } else {
        let row = rows.last();
        let before = downloads_in(rows.drop_last());
        let id = row.download_id as usize;
        let own = if before.contains_key(id) {
            before[id]
        } else {
            DownloadSettingsModel {
                speed_limit: stored_limit(row.download_speed_limit),
                files: Map::empty(),
            }
        };
        before.insert(
            id,
            match row.file_id {
                Some(file) => DownloadSettingsModel {
                    files: own.files.insert(
                        file as usize,
                        FileSettings { speed_limit: stored_limit(row.file_speed_limit) },
                    ),
                    ..own
                },
                None => own,
            },
        )
    }
}

fn read_limit(limit: Option<i64>) -> (r: Option<u64>)
    ensures
        r == stored_limit(limit),
{
    match limit {
        Some(n) => Some(
            #[verifier::truncate]
            (n as u64),
        ),
        None => None,
    }
}

/// Whether no host is named twice.
pub open spec fn hosts_once(entries: Seq<HostEntry>) -> bool {
    forall|i: int, j: int|
        0 <= i < entries.len() && 0 <= j < entries.len() && (#[trigger] entries[i]).host@ == (
        #[trigger] entries[j]).host@ ==> i == j
}

/// What the entries say of one host.
proof fn lemma_hosts_view(entries: Seq<HostEntry>, host: Seq<char>)
    requires
        hosts_once(entries),
    ensures
        hosts_view(entries).contains_key(host) <==> exists|i: int|
            0 <= i < entries.len() && (#[trigger] entries[i]).host@ == host,
        forall|i: int|
            0 <= i < entries.len() && (#[trigger] entries[i]).host@ == host ==> hosts_view(
                entries,
            )[host] == entries[i].settings,
    decreases entries.len(),
{
    if entries.len() > 0 {
        let before = entries.drop_last();
        assert(hosts_once(before)) by {
            assert forall|i: int, j: int|
                0 <= i < before.len() && 0 <= j < before.len() && (#[trigger] before[i]).host@ == (
                #[trigger] before[j]).host@ implies i == j by {
                assert(entries[i].host@ == entries[j].host@);
            }
        }
        lemma_hosts_view(before, host);
        if entries.last().host@ != host {
            assert forall|i: int|
                0 <= i < entries.len() && (#[trigger] entries[i]).host@ == host implies hosts_view(
                entries,
            )[host] == entries[i].settings by {
                assert(before[i] == entries[i]);
            }
            if hosts_view(before).contains_key(host) {
                let i = choose|i: int|
                    0 <= i < before.len() && (#[trigger] before[i]).host@ == host;
                assert(entries[i].host@ == host);
            }
            if exists|i: int| 0 <= i < entries.len() && (#[trigger] entries[i]).host@ == host {
                let i = choose|i: int|
                    0 <= i < entries.len() && (#[trigger] entries[i]).host@ == host;
                assert(before[i].host@ == host);
            }
        } else {
            assert(entries[entries.len() - 1].host@ == host);
            assert forall|i: int|
                0 <= i < entries.len() && (#[trigger] entries[i]).host@ == host implies hosts_view(
                entries,
            )[host] == entries[i].settings by {
                assert(entries[entries.len() - 1].host@ == entries[i].host@);
            }
        }
    }
}

/// Entries that say the same of every host say the same.
proof fn lemma_hosts_equal(
    a: Seq<HostEntry>,
    m: Map<Seq<char>, HostSettings>,
)
    requires
        hosts_once(a),
        forall|h: Seq<char>| #[trigger]
            m.contains_key(h) <==> exists|i: int| 0 <= i < a.len() && (#[trigger] a[i]).host@ == h,
        forall|i: int| 0 <= i < a.len() ==> m[(#[trigger] a[i]).host@] == a[i].settings,
    ensures
        hosts_view(a) == m,
{
    assert forall|h: Seq<char>| hosts_view(a).contains_key(h) == m.contains_key(h) by {
        lemma_hosts_view(a, h);
    }
    assert forall|h: Seq<char>| hosts_view(a).contains_key(h) implies #[trigger] hosts_view(a)[h]
        == m[h] by {
        lemma_hosts_view(a, h);
        let i = choose|i: int| 0 <= i < a.len() && (#[trigger] a[i]).host@ == h;
        assert(a[i].host@ == h);
    }
    assert(hosts_view(a) =~= m);
}

impl AppSettings {
    /// No host is named twice.
    pub open spec fn wf(&self) -> bool {
        hosts_once(self.host_settings@)
    }

    /// No limits.
    pub fn new() -> (r: Self)
        ensures
            r.wf(),
            r@ == no_settings(),
    {
        let r = AppSettings {
            global_speed_limit: None,
            default_save_path: None,
            download_settings: HashMap::new(),
            host_settings: Vec::new(),
        };
        assert(r@ =~= no_settings());
        r
    }

    /// The limit for all.
    pub fn global_speed_limit(&self) -> (r: Option<u64>)
        ensures
            r == self@.global,
    {
        self.global_speed_limit
    }

    /// Sets the limit for all.
    pub fn set_global_speed_limit(&mut self, new_speed_limit: Option<u64>)
        requires
            old(self).wf(),
        ensures
            final(self).wf(),
            final(self)@ == (SettingsModel { global: new_speed_limit, ..old(self)@ }),
    {
        self.global_speed_limit = new_speed_limit;
    }

    /// Sets where downloads are saved if nothing else is said.
    pub fn set_default_save_path(&mut self, path: Option<String>)
        requires
            old(self).wf(),
        ensures
            final(self).wf(),
            final(self)@ == (SettingsModel {
                save_path: match path {
                    Some(p) => Some(p@),
                    None => None,
                },
                ..old(self)@
            }),
    {
        self.default_save_path = path;
    }

    /// What is set about a download.
    pub fn get_download_settings(&self, download_id: DownloadId) -> (r: Option<DownloadSettings>)
        ensures
            settings_view(r) == self@.of_download(download_id),
    {
        match self.download_settings.get(&download_id.0) {
            Some(settings) => Some(settings.duplicate()),
            None => None,
        }
    }

    fn find_host(&self, host: &str) -> (r: Option<usize>)
        ensures
            match r {
                Some(i) => i < self.host_settings@.len() && self.host_settings@[i as int].host@
                    == host@,
                None => forall|k: int|
                    0 <= k < self.host_settings@.len() ==> (
                    #[trigger] self.host_settings@[k]).host@ != host@,
            },
    {
        let mut i: usize = 0;
        while i < self.host_settings.len()
            invariant
                i <= self.host_settings@.len(),
                forall|k: int|
                    0 <= k < i ==> (#[trigger] self.host_settings@[k]).host@ != host@,
            decreases self.host_settings@.len() - i,
        {
            if text_eq(self.host_settings[i].host.as_str(), host) {
                return Some(i);
            }
            i += 1;
        }
        None
    }

    /// What is set about a host.
    pub fn get_host_settings(&self, host: &str) -> (r: Option<HostSettings>)
        requires
            self.wf(),
        ensures
            r == if self@.hosts.contains_key(host@) {
                Some(self@.hosts[host@])
            } else {
                None
            },
    {
        proof {
            lemma_hosts_view(self.host_settings@, host@);
        }
        match self.find_host(host) {
            Some(i) => Some(self.host_settings[i].settings),
            None => None,
        }
    }

    /// Sets the limit of a host.
    pub fn set_host_limit(&mut self, host: String, limit: Option<u64>)
        requires
            old(self).wf(),
        ensures
            final(self).wf(),
            final(self)@ == old(self)@.with_host(host@, limit),
    {
        let ghost start = self.host_settings@;
        let ghost name = host@;
        let ghost wanted = hosts_view(start).insert(name, HostSettings { speed_limit: limit });
        match self.find_host(host.as_str()) {
            Some(i) => {
                self.host_settings[i].settings = HostSettings { speed_limit: limit };
                assert forall|k: int| 0 <= k < start.len() implies (
                #[trigger] self.host_settings@[k]).host@ == start[k].host@ by {}
            },
            None => {
                self.host_settings.push(
                    HostEntry { host, settings: HostSettings { speed_limit: limit } },
                );
                assert forall|k: int| 0 <= k < start.len() implies (
                #[trigger] self.host_settings@[k]) == start[k] by {}
            },
        }
        proof {
            let now = self.host_settings@;
            assert forall|a: int, b: int|
                0 <= a < now.len() && 0 <= b < now.len() && (#[trigger] now[a]).host@ == (
                #[trigger] now[b]).host@ implies a == b by {
                if a < start.len() && b < start.len() {
                    assert(start[a].host@ == start[b].host@);
                }
            }
            assert forall|h: Seq<char>| #[trigger] wanted.contains_key(h) <==> exists|i: int|
                0 <= i < now.len() && (#[trigger] now[i]).host@ == h by {
                lemma_hosts_view(start, h);
                if hosts_view(start).contains_key(h) {
                    let i = choose|i: int|
                        0 <= i < start.len() && (#[trigger] start[i]).host@ == h;
                    assert(now[i].host@ == h);
                }
                if h == name && now.len() > start.len() {
                    assert(now[now.len() - 1].host@ == name);
                }
                if exists|i: int| 0 <= i < now.len() && (#[trigger] now[i]).host@ == h {
                    let i = choose|i: int| 0 <= i < now.len() && (#[trigger] now[i]).host@ == h;
                    if i < start.len() {
                        assert(start[i].host@ == h);
                    }
                }
            }
            assert forall|i: int| 0 <= i < now.len() implies wanted[(#[trigger] now[i]).host@]
                == now[i].settings by {
                lemma_hosts_view(start, now[i].host@);
                if i < start.len() && now[i].host@ != name {
                    assert(start[i].host@ == now[i].host@);
                }
                if now[i].host@ == name && i < start.len() {
                    assert(start[i].host@ == name);
                }
            }
            lemma_hosts_equal(now, wanted);
        }
    }

    /// Forgets what is set about a host. Whether anything was is told.
    pub fn remove_host_limit(&mut self, host: &str) -> (r: bool)
        requires
            old(self).wf(),
        ensures
            final(self).wf(),
            final(self)@ == (SettingsModel { hosts: old(self)@.hosts.remove(host@), ..old(self)@ }),
            r == old(self)@.hosts.contains_key(host@),
    {
        let ghost start = self.host_settings@;
        let ghost wanted = hosts_view(start).remove(host@);
        proof {
            lemma_hosts_view(start, host@);
        }
        match self.find_host(host) {
            Some(i) => {
                let _ = self.host_settings.remove(i);
                proof {
                    let now = self.host_settings@;
                    let at = i as int;
                    assert(forall|k: int|
                        0 <= k < now.len() ==> #[trigger] now[k] == if k < at {
                            start[k]
                        } else {
                            start[k + 1]
                        });
                    assert forall|a: int, b: int|
                        0 <= a < now.len() && 0 <= b < now.len() && (#[trigger] now[a]).host@ == (
                        #[trigger] now[b]).host@ implies a == b by {
                        let a1 = if a < at {
                            a
                        } else {
                            a + 1
                        };
                        let b1 = if b < at {
                            b
                        } else {
                            b + 1
                        };
                        assert(start[a1].host@ == start[b1].host@);
                    }
                    assert forall|h: Seq<char>| #[trigger] wanted.contains_key(h)
                        <==> exists|k: int| 0 <= k < now.len() && (#[trigger] now[k]).host@ == h by {
                        lemma_hosts_view(start, h);
                        if wanted.contains_key(h) {
                            let k = choose|k: int|
                                0 <= k < start.len() && (#[trigger] start[k]).host@ == h;
                            assert(k != at);
                            assert(now[if k < at {
                                k
                            } else {
                                k - 1
                            }] == start[k]);
                        }
                        if exists|k: int| 0 <= k < now.len() && (#[trigger] now[k]).host@ == h {
                            let k = choose|k: int|
                                0 <= k < now.len() && (#[trigger] now[k]).host@ == h;
                            let k1 = if k < at {
                                k
                            } else {
                                k + 1
                            };
                            assert(start[k1].host@ == h);
                            assert(k1 != at);
                            assert(start[k1].host@ != start[at].host@);
                        }
                    }
                    assert forall|k: int| 0 <= k < now.len() implies wanted[(
                    #[trigger] now[k]).host@] == now[k].settings by {
                        let k1 = if k < at {
                            k
                        } else {
                            k + 1
                        };
                        lemma_hosts_view(start, now[k].host@);
                        assert(start[k1].host@ == now[k].host@);
                        assert(start[k1].host@ != start[at].host@);
                    }
                    lemma_hosts_equal(now, wanted);
                }
                true
            },
            None => {
                assert(wanted =~= hosts_view(start));
                false
            },
        }
    }

    /// Sets the limit of a download about which something is set.
    pub fn set_download_limit(&mut self, id: DownloadId, limit: Option<u64>)
        requires
            old(self).wf(),
        ensures
            final(self).wf(),
            final(self)@ == old(self)@.with_download(id, limit),
    {
        let ghost start = self.download_settings@;
        if let Some(mut own) = self.download_settings.remove(&id.0) {
            own.speed_limit = limit;
            self.download_settings.insert(id.0, own);
        }
        proof {
            assert(downloads_view(start).contains_key(id.0) == start.contains_key(id.0));
            assert(downloads_view(self.download_settings@) =~= old(self)@.with_download(
                id,
                limit,
            ).downloads);
        }
    }

    /// Sets the limit of a file.
    pub fn set_file_limit(&mut self, id: DownloadId, file: FileId, limit: Option<u64>)
        requires
            old(self).wf(),
        ensures
            final(self).wf(),
            final(self)@ == old(self)@.with_file(id, file, limit),
    {
        let ghost start = self.download_settings@;
        let mut own = match self.download_settings.remove(&id.0) {
            Some(own) => own,
            None => DownloadSettings { speed_limit: None, file_settings: HashMap::new() },
        };
        own.file_settings.insert(file.0, FileSettings { speed_limit: limit });
        self.download_settings.insert(id.0, own);
        proof {
            assert(downloads_view(start).contains_key(id.0) == start.contains_key(id.0));
            assert(downloads_view(self.download_settings@) =~= old(self)@.with_file(
                id,
                file,
                limit,
            ).downloads);
        }
    }

    /// The settings that are stored.
    pub fn from_db(
        global_settings_row: GlobalSettingsRow,
        host_settings_rows: Vec<HostSettingsRow>,
        joined_download_settings: Vec<JoinedDownloadSettingsRow>,
    ) -> (r: Self)
        ensures
            r.wf(),
            r@ == (SettingsModel {
                global: stored_limit(global_settings_row.global_speed_limit),
                save_path: None,
                downloads: downloads_in(joined_download_settings@),
                hosts: hosts_in(host_settings_rows@),
            }),
    {
        let mut r = AppSettings::new();
        r.global_speed_limit = read_limit(global_settings_row.global_speed_limit);
        let ghost hosts = host_settings_rows@;
        let ghost start = r@;
        assert(hosts.take(0) =~= Seq::<HostSettingsRow>::empty());
        for row in iter: host_settings_rows
            invariant
                iter.seq() == hosts,
                r.wf(),
                r@ == (SettingsModel {
                    hosts: hosts_in(hosts.take(iter.index() as int)),
                    ..start
                }),
        {
            let ghost i = iter.index() as int;
            assert(hosts.take(i + 1).drop_last() =~= hosts.take(i));
            assert(hosts.take(i + 1).last() == row);
            r.set_host_limit(row.host, read_limit(row.speed_limit));
        }
        assert(hosts.take(hosts.len() as int) =~= hosts);
        let ghost rows = joined_download_settings@;
        let ghost middle = r@;
        assert(rows.take(0) =~= Seq::<JoinedDownloadSettingsRow>::empty());
        for row in iter: joined_download_settings
            invariant
                iter.seq() == rows,
                r.wf(),
                r@ == (SettingsModel {
                    downloads: downloads_in(rows.take(iter.index() as int)),
                    ..middle
                }),
        {
            let ghost i = iter.index() as int;
            assert(rows.take(i + 1).drop_last() =~= rows.take(i));
            assert(rows.take(i + 1).last() == row);
            r.add_row(&row);
        }
        assert(rows.take(rows.len() as int) =~= rows);
        r
    }

    fn add_row(&mut self, row: &JoinedDownloadSettingsRow)
        requires
            old(self).wf(),
        ensures
            final(self).wf(),
            forall|rows: Seq<JoinedDownloadSettingsRow>|
                rows.len() > 0 && rows.last() == *row && old(self)@.downloads
                    == #[trigger] downloads_in(rows.drop_last()) ==> final(self)@ == (
                SettingsModel { downloads: downloads_in(rows), ..old(self)@ }),
    {
        let ghost start = self.download_settings@;
        let id: usize = #[verifier::truncate]
        (row.download_id as usize);
        let mut own = match self.download_settings.remove(&id) {
            Some(own) => own,
            None => DownloadSettings {
                speed_limit: read_limit(row.download_speed_limit),
                file_settings: HashMap::new(),
            },
        };
        if let Some(file) = row.file_id {
            let file_id: usize = #[verifier::truncate]
            (file as usize);
            let speed_limit = read_limit(row.file_speed_limit);
            own.file_settings.insert(file_id, FileSettings { speed_limit });
        }
        self.download_settings.insert(id, own);
        proof {
            assert(downloads_view(start).contains_key(id) == start.contains_key(id));
            assert forall|rows: Seq<JoinedDownloadSettingsRow>|
                rows.len() > 0 && rows.last() == *row && old(self)@.downloads
                    == #[trigger] downloads_in(rows.drop_last()) implies self@ == (SettingsModel {
                downloads: downloads_in(rows),
                ..old(self)@
            }) by {
                assert(downloads_view(self.download_settings@) =~= downloads_in(rows));
            }
        }
    }
}

/// A limit that was set for a host is the one that is found, and that of no other host
/// changes.
pub proof fn law_host_limits_keep_to_their_host(
    s: SettingsModel,
    host: Seq<char>,
    limit: Option<u64>,
    other: Seq<char>,
)
    requires
        other != host,
    ensures
        s.with_host(host, limit).hosts[host].speed_limit == limit,
        s.with_host(host, limit).hosts.contains_key(other) == s.hosts.contains_key(other),
        s.hosts.contains_key(other) ==> s.with_host(host, limit).hosts[other] == s.hosts[other],
{
}

} // verus!
