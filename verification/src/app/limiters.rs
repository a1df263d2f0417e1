//! What keeps downloads from being too fast.

use std::collections::HashMap;

use vstd::hash_map::StringHashMap;
use vstd::prelude::*;
use crate::app::settings::{DownloadSettings, HostSettings};
#[allow(unused_imports)]
use crate::app::settings::DownloadSettingsModel;
use crate::download::items::{DownloadId, FileId};
use crate::utils::network_utils::BandwidthLimiter;
use crate::utils::urls::Host;
#[allow(unused_imports)]
use crate::utils::urls::HostModel;

verus! {

broadcast use vstd::std_specs::hash::group_hash_axioms;

/// A limiter without a limit.
pub open spec fn no_limit() -> BandwidthLimiter {
    BandwidthLimiter::fresh(0).freed(true)
}

/// A limiter without a limit.
fn unlimited() -> (r: BandwidthLimiter)
    ensures
        r == no_limit(),
{
    let mut limiter = BandwidthLimiter::new(0);
    limiter.set_unlimited(true);
    limiter
}

/// The limiters of a download and of its files.
pub struct DownloadLimiterGroup {
    download_limiter: BandwidthLimiter,
    file_limiters: HashMap<usize, BandwidthLimiter>,
}

/// The limiters of a download, in mathematical values.
#[verifier::ext_equal]
pub struct GroupModel {
    pub download: BandwidthLimiter,
    pub files: Map<usize, BandwidthLimiter>,
}

impl View for DownloadLimiterGroup {
    type V = GroupModel;

    closed spec fn view(&self) -> GroupModel {
        GroupModel { download: self.download_limiter, files: self.file_limiters@ }
    }
}

/// The limiters of a download without limits.
pub open spec fn no_limits() -> GroupModel {
    GroupModel { download: no_limit(), files: Map::empty() }
}

/// Whether a file has a limit of its own.
pub open spec fn has_limit(s: DownloadSettingsModel, file: usize) -> bool {
    s.files.contains_key(file) && s.files[file].speed_limit.is_some()
}

/// The limiters that settings ask for. Only a file with a limit of its own has a
/// limiter of its own.
pub open spec fn limits_of(settings: Option<DownloadSettingsModel>) -> GroupModel {
    match settings {
        None => no_limits(),
        Some(s) => GroupModel {
            download: match s.speed_limit {
                Some(limit) => no_limit().freed(false).limited(limit),
                None => no_limit(),
            },
            files: Map::new(
                |file: usize| has_limit(s, file),
                |file: usize| BandwidthLimiter::fresh(s.files[file].speed_limit->0),
            ),
        },
    }
}

impl DownloadLimiterGroup {
    /// No limits.
    pub fn new() -> (r: Self)
        ensures
            r@ == no_limits(),
    {
        let r = DownloadLimiterGroup {
            download_limiter: unlimited(),
            file_limiters: HashMap::new(),
        };
        assert(r@ =~= no_limits());
        r
    }

    /// The limiters that settings ask for.
    pub fn from_settings(settings: Option<&DownloadSettings>) -> (r: Self)
        ensures
            r@ == limits_of(
                match settings {
                    Some(s) => Some(s@),
                    None => None,
                },
            ),
    {
        let mut group = DownloadLimiterGroup::new();
        if let Some(settings) = settings {
            if let Some(limit) = settings.speed_limit {
                group.download_limiter.set_unlimited(false);
                group.download_limiter.set_limit(limit);
            }
            let ghost s = settings@;
            let ghost download = group.download_limiter;
            for entry in iter: settings.file_settings.iter()
                invariant
                    group.download_limiter == download,
                    s == settings@,
                    forall|i: int|
                        0 <= i < iter.seq().len() ==> s.files.contains_key(
                            *(#[trigger] iter.seq()[i]).0,
                        ) && s.files[*iter.seq()[i].0] == *iter.seq()[i].1,
                    forall|k: usize| #[trigger]
                        s.files.contains_key(k) ==> iter.seq().contains((&k, &s.files[k])),
                    forall|k: usize| #[trigger]
                        group.file_limiters@.contains_key(k) <==> has_limit(s, k) && exists|i: int|
                            0 <= i < iter.index() && *(#[trigger] iter.seq()[i]).0 == k,
                    forall|k: usize| #[trigger]
                        group.file_limiters@.contains_key(k) ==> group.file_limiters@[k]
                            == BandwidthLimiter::fresh(s.files[k].speed_limit->0),
            {
                let ghost before = group.file_limiters@;
                let ghost at = iter.index() as int;
                let ghost all = iter.seq();
                let (file, setting) = entry;
                assert(s.files[*all[at].0] == *all[at].1);
                assert(*all[at].0 == *file);
                if let Some(limit) = setting.speed_limit {
                    let mut limiter = BandwidthLimiter::new(limit);
                    limiter.set_unlimited(false);
                    group.file_limiters.insert(*file, limiter);
                }
                assert forall|k: usize| #[trigger]
                    group.file_limiters@.contains_key(k) <==> has_limit(s, k) && exists|i: int|
                        0 <= i < at + 1 && *(#[trigger] all[i]).0 == k by {
                    assert(before.contains_key(k) <==> has_limit(s, k) && exists|i: int|
                        0 <= i < at && *(#[trigger] all[i]).0 == k);
                    if k == *file {
                        assert(*all[at].0 == k);
                    }
                }
            }
            assert forall|k: usize| #[trigger] group.file_limiters@.contains_key(k) <==> has_limit(
                s,
                k,
            ) by {}
            assert(group@.files =~= limits_of(Some(s)).files);
        }
        group
    }

    /// Gives a file a limiter without a limit, in place of the one that it has.
    pub fn add_file(&mut self, file: FileId)
        ensures
            final(self)@ == (GroupModel {
                files: old(self)@.files.insert(file.0, no_limit()),
                ..old(self)@
            }),
    {
        let limiter = unlimited();
        self.file_limiters.insert(file.0, limiter);
        assert(self@.files =~= old(self)@.files.insert(file.0, no_limit()));
    }

    /// The limiter of the download.
    pub fn download_limiter(&self) -> (r: &BandwidthLimiter)
        ensures
            *r == self@.download,
    {
        &self.download_limiter
    }

    /// The limiters of the files.
    pub fn file_limiters(&self) -> (r: &HashMap<usize, BandwidthLimiter>)
        ensures
            r@ == self@.files,
    {
        &self.file_limiters
    }
}

/// All the limiters that there are.
pub struct LimiterRegistry {
    global_limit: BandwidthLimiter,
    host_limits: StringHashMap<BandwidthLimiter>,
    downloads: HashMap<usize, DownloadLimiterGroup>,
}

/// All the limiters that there are, in mathematical values.
#[verifier::ext_equal]
pub struct LimitersModel {
    pub global: BandwidthLimiter,
    /// The limiters of the hosts, by the keys of these.
    pub hosts: Map<Seq<char>, BandwidthLimiter>,
    pub downloads: Map<usize, GroupModel>,
}

/// Groups of limiters in a map, in mathematical values.
pub open spec fn groups_view(m: Map<usize, DownloadLimiterGroup>) -> Map<usize, GroupModel> {
    Map::new(|k: usize| m.contains_key(k), |k: usize| m[k]@)
}

impl View for LimiterRegistry {
    type V = LimitersModel;

    closed spec fn view(&self) -> LimitersModel {
        LimitersModel {
            global: self.global_limit,
            hosts: self.host_limits@,
            downloads: groups_view(self.downloads@),
        }
    }
}

/// The limiter of a host: without a limit if nothing is set, and with the limit if one
/// is. Where something is set and it is no limit, nothing may come.
pub open spec fn host_limiter(settings: Option<HostSettings>) -> BandwidthLimiter {
    match settings {
        Some(s) => match s.speed_limit {
            Some(limit) => BandwidthLimiter::fresh(0).freed(false).limited(limit),
            None => BandwidthLimiter::fresh(0),
        },
        None => no_limit(),
    }
}

impl LimitersModel {
    /// The limiters that hold for a file of a download from a host.
    pub open spec fn holding(self, host: HostModel, download: usize, file: usize) -> Seq<
        Option<BandwidthLimiter>,
    > {
        seq![
            Some(self.global),
            if self.hosts.contains_key(host.key()) {
                Some(self.hosts[host.key()])
            } else {
                None
            },
            if self.downloads.contains_key(download) {
                Some(self.downloads[download].download)
            } else {
                None
            },
            if self.downloads.contains_key(download) && self.downloads[download].files.contains_key(
                file,
            ) {
                Some(self.downloads[download].files[file])
            } else {
                None
            },
        ]
    }

    /// All the limiters that hold for a file when some of its bytes have come.
    pub open spec fn charged(
        self,
        now: u64,
        host: HostModel,
        download: usize,
        file: usize,
        bytes: u64,
    ) -> LimitersModel {
        LimitersModel {
            global: self.global.charged(now, bytes),
            hosts: if self.hosts.contains_key(host.key()) {
                self.hosts.insert(host.key(), self.hosts[host.key()].charged(now, bytes))
            } else {
                self.hosts
            },
            downloads: if self.downloads.contains_key(download) {
                let group = self.downloads[download];
                self.downloads.insert(
                    download,
                    GroupModel {
                        download: group.download.charged(now, bytes),
                        files: if group.files.contains_key(file) {
                            group.files.insert(file, group.files[file].charged(now, bytes))
                        } else {
                            group.files
                        },
                    },
                )
            } else {
                self.downloads
            },
        }
    }

    /// With a limit for a host that has a limiter, or with none.
    pub open spec fn host_applied(self, host: HostModel, limit: Option<u64>) -> LimitersModel {
        LimitersModel {
            hosts: if self.hosts.contains_key(host.key()) {
                self.hosts.insert(host.key(), self.hosts[host.key()].applied(limit))
            } else {
                self.hosts
            },
            ..self
        }
    }

    /// With a limit for a download that has limiters, or with none.
    pub open spec fn download_applied(self, id: DownloadId, limit: Option<u64>) -> LimitersModel {
        LimitersModel {
            downloads: if self.downloads.contains_key(id.0) {
                let group = self.downloads[id.0];
                self.downloads.insert(
                    id.0,
                    GroupModel { download: group.download.applied(limit), ..group },
                )
            } else {
                self.downloads
            },
            ..self
        }
    }

    /// With a limit for a file that has a limiter, or with none.
    pub open spec fn file_applied(
        self,
        id: DownloadId,
        file: FileId,
        limit: Option<u64>,
    ) -> LimitersModel {
        LimitersModel {
            downloads: if self.downloads.contains_key(id.0)
                && self.downloads[id.0].files.contains_key(file.0) {
                let group = self.downloads[id.0];
                self.downloads.insert(
                    id.0,
                    GroupModel {
                        files: group.files.insert(file.0, group.files[file.0].applied(limit)),
                        ..group
                    },
                )
            } else {
                self.downloads
            },
            ..self
        }
    }
}

/// What limiters owe. One that is not there owes nothing.
pub open spec fn debts_of(limiters: Seq<Option<BandwidthLimiter>>, now: u64) -> Seq<Option<u64>> {
    limiters.map_values(
        |l: Option<BandwidthLimiter>|
            match l {
                Some(limiter) => limiter.debt(now),
                None => None,
            },
    )
}

impl LimiterRegistry {
    /// No limits.
    pub fn new() -> (r: Self)
        ensures
            r@ == (LimitersModel {
                global: no_limit(),
                hosts: Map::empty(),
                downloads: Map::empty(),
            }),
    {
        let r = LimiterRegistry {
            global_limit: unlimited(),
            host_limits: StringHashMap::new(),
            downloads: HashMap::new(),
        };
        assert(r@.downloads =~= Map::<usize, GroupModel>::empty());
        r
    }

    /// The limiter of everything.
    pub fn global_limit(&self) -> (r: &BandwidthLimiter)
        ensures
            *r == self@.global,
    {
        &self.global_limit
    }

    /// The limiters of the hosts, by the keys of these.
    pub fn host_limits(&self) -> (r: &StringHashMap<BandwidthLimiter>)
        ensures
            r@ == self@.hosts,
    {
        &self.host_limits
    }

    /// The limiters of the downloads.
    pub fn downloads(&self) -> (r: &HashMap<usize, DownloadLimiterGroup>)
        ensures
            groups_view(r@) == self@.downloads,
    {
        &self.downloads
    }

    /// Sets the limit of everything.
    pub fn limit_global(&mut self, limit: Option<u64>)
        ensures
            final(self)@ == (LimitersModel { global: old(self)@.global.applied(limit), ..old(self)@ }),
    {
        self.global_limit.apply(limit);
    }

    /// Gives a host the limiter that its settings ask for.
    pub fn add_host(&mut self, host: &Host, settings: Option<HostSettings>)
        ensures
            final(self)@ == (LimitersModel {
                hosts: old(self)@.hosts.insert(host@.key(), host_limiter(settings)),
                ..old(self)@
            }),
    {
        let mut limiter = BandwidthLimiter::new(0);
        match settings {
            Some(s) => {
                if let Some(limit) = s.speed_limit {
                    limiter.set_unlimited(false);
                    limiter.set_limit(limit);
                }
            },
            None => {
                limiter.set_unlimited(true);
            },
        }
        self.host_limits.insert(host.key(), limiter);
    }

    /// Sets the limit of a host, if it has a limiter.
    pub fn limit_host(&mut self, host: &Host, limit: Option<u64>)
        ensures
            final(self)@ == old(self)@.host_applied(host@, limit),
    {
        let key = host.key();
        if let Some(found) = self.host_limits.get(key.as_str()) {
            let mut limiter = *found;
            limiter.apply(limit);
            self.host_limits.insert(key, limiter);
        }
    }

    /// Gives a download its limiters.
    pub fn add_download(&mut self, id: DownloadId, group: DownloadLimiterGroup)
        ensures
            final(self)@ == (LimitersModel {
                downloads: old(self)@.downloads.insert(id.0, group@),
                ..old(self)@
            }),
    {
        self.downloads.insert(id.0, group);
        assert(self@.downloads =~= old(self)@.downloads.insert(id.0, group@));
    }

    /// Drops the limiters of a download.
    pub fn remove_download(&mut self, id: DownloadId)
        ensures
            final(self)@ == (LimitersModel {
                downloads: old(self)@.downloads.remove(id.0),
                ..old(self)@
            }),
    {
        let _ = self.downloads.remove(&id.0);
        assert(self@.downloads =~= old(self)@.downloads.remove(id.0));
    }

    /// Sets the limit of a download, if it has limiters.
    pub fn limit_download(&mut self, id: DownloadId, limit: Option<u64>)
        ensures
            final(self)@ == old(self)@.download_applied(id, limit),
    {
        let ghost before = self.downloads@;
        if let Some(mut group) = self.downloads.remove(&id.0) {
            assert(groups_view(before)[id.0] == group@);
            group.download_limiter.apply(limit);
            self.downloads.insert(id.0, group);
        }
        assert(self@ =~= old(self)@.download_applied(id, limit));
    }

    /// Sets the limit of a file, if it has a limiter.
    pub fn limit_file(&mut self, id: DownloadId, file: FileId, limit: Option<u64>)
        ensures
            final(self)@ == old(self)@.file_applied(id, file, limit),
    {
        let ghost before = self.downloads@;
        if let Some(mut group) = self.downloads.remove(&id.0) {
            let ghost start = group@;
            assert(groups_view(before)[id.0] == start);
            if let Some(found) = group.file_limiters.get(&file.0) {
                let mut limiter = *found;
                limiter.apply(limit);
                group.file_limiters.insert(file.0, limiter);
                assert(group@.files =~= start.files.insert(file.0, limiter));
            }
            self.downloads.insert(id.0, group);
        }
        assert(self@ =~= old(self)@.file_applied(id, file, limit));
    }

    /// Some bytes of a file have come, and all the limiters that hold for it hear of
    /// it.
    pub fn register_bytes(
        &mut self,
        now: u64,
        host: &Host,
        download: DownloadId,
        file: FileId,
        bytes: u64,
    )
        ensures
            final(self)@ == old(self)@.charged(now, host@, download.0, file.0, bytes),
    {
        let ghost before = self.downloads@;
        self.global_limit.register_bytes(now, bytes);
        let key = host.key();
        if let Some(found) = self.host_limits.get(key.as_str()) {
            let mut limiter = *found;
            limiter.register_bytes(now, bytes);
            self.host_limits.insert(key, limiter);
        }
        if let Some(mut group) = self.downloads.remove(&download.0) {
            let ghost start = group@;
            assert(groups_view(before)[download.0] == start);
            group.download_limiter.register_bytes(now, bytes);
            if let Some(found) = group.file_limiters.get(&file.0) {
                let mut limiter = *found;
                limiter.register_bytes(now, bytes);
                group.file_limiters.insert(file.0, limiter);
                assert(group@.files =~= start.files.insert(file.0, limiter));
            }
            self.downloads.insert(download.0, group);
        }
        assert(self@ =~= old(self)@.charged(now, host@, download.0, file.0, bytes));
    }

    /// What the limiters that hold for a file owe, in microseconds.
    pub fn debts(&self, now: u64, host: &Host, download: DownloadId, file: FileId) -> (r: Vec<
        Option<u64>,
    >)
        ensures
            r@ == debts_of(self@.holding(host@, download.0, file.0), now),
    {
        let mut r: Vec<Option<u64>> = Vec::new();
        let key = host.key();
        r.push(self.global_limit.get_debt(now));
        r.push(
            match self.host_limits.get(key.as_str()) {
                Some(limiter) => limiter.get_debt(now),
                None => None,
            },
        );
        match self.downloads.get(&download.0) {
            Some(group) => {
                assert(groups_view(self.downloads@)[download.0] == group@);
                r.push(group.download_limiter.get_debt(now));
                r.push(
                    match group.file_limiters.get(&file.0) {
                        Some(limiter) => limiter.get_debt(now),
                        None => None,
                    },
                );
            },
            None => {
                r.push(None);
                r.push(None);
            },
        }
        assert(r@ =~= debts_of(self@.holding(host@, download.0, file.0), now));
        r
    }
}

/// A limit that is set for a host, a download or a file leaves every other limiter as
/// it is.
pub proof fn law_limits_keep_to_themselves(
    m: LimitersModel,
    host: HostModel,
    id: DownloadId,
    file: FileId,
    limit: Option<u64>,
)
    ensures
        m.host_applied(host, limit).global == m.global,
        m.host_applied(host, limit).downloads == m.downloads,
        m.host_applied(host, limit).hosts.dom() == m.hosts.dom(),
        forall|other: Seq<char>|
            other != host.key() && m.hosts.contains_key(other) ==> #[trigger] m.host_applied(
                host,
                limit,
            ).hosts[other] == m.hosts[other],
        m.download_applied(id, limit).global == m.global,
        m.download_applied(id, limit).hosts == m.hosts,
        forall|other: usize|
            other != id.0 && m.downloads.contains_key(other) ==> #[trigger] m.download_applied(
                id,
                limit,
            ).downloads[other] == m.downloads[other],
        m.downloads.contains_key(id.0) ==> m.download_applied(id, limit).downloads[id.0].files
            == m.downloads[id.0].files,
        m.file_applied(id, file, limit).global == m.global,
        m.file_applied(id, file, limit).hosts == m.hosts,
        m.downloads.contains_key(id.0) ==> m.file_applied(id, file, limit).downloads[id.0].download
            == m.downloads[id.0].download,
{
    assert(m.host_applied(host, limit).hosts.dom() =~= m.hosts.dom());
}

/// A limit that is set counts from then on, and nothing that was owed before does; a
/// limit that is taken off lets everything through at once.
pub proof fn law_new_limits_start_afresh(limiter: BandwidthLimiter, limit: Option<u64>, now: u64)
    ensures
        limiter.applied(limit).debt(now) == match limit {
            Some(n) => if n == 0 {
                Some(crate::utils::network_utils::FOR_EVER)
            } else {
                None
            },
            None => None,
        },
{
}

} // verus!
