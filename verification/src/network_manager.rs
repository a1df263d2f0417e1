//! Which hosts are worked with, and what limits them.

use vstd::hash_map::StringHashMap;
use vstd::prelude::*;
use crate::app::limiters::LimiterRegistry;
#[allow(unused_imports)]
use crate::app::limiters::{host_limiter, LimitersModel};
use crate::app::settings::AppSettings;
#[allow(unused_imports)]
use crate::app::settings::SettingsModel;
use crate::utils::urls::{host_or_label, Host};
#[allow(unused_imports)]
use crate::utils::urls::{host_label, host_of_url, HostModel};

verus! {

/// How long to wait for a host.
#[derive(Debug, Clone, Copy, PartialEq, Eq, Structural)]
pub struct NetworkConfig {
    /// Seconds until a connection must stand.
    pub connect_timeout: u64,
    /// Seconds in which something must be read.
    pub read_timeout: u64,
}

impl Default for NetworkConfig {
    fn default() -> (r: Self)
        ensures
            r == (NetworkConfig { connect_timeout: 5, read_timeout: 10 }),
    {
        NetworkConfig { connect_timeout: 5, read_timeout: 10 }
    }
}

/// A host that somebody asked for.
pub struct HostRequest {
    pub host: Host,
    /// Whether nobody asked for it before, so that the work with it begins now.
    pub is_new: bool,
}

/// Hosts that somebody asked for, in mathematical values.
pub open spec fn requests_view(requests: Seq<HostRequest>) -> Seq<(HostModel, bool)> {
    requests.map_values(|r: HostRequest| (r.host@, r.is_new))
}

/// The hosts that are worked with, by their keys.
pub struct NetworkManager {
    hosts: StringHashMap<()>,
    app_settings: AppSettings,
}

/// The hosts that are worked with, in mathematical values.
#[verifier::ext_equal]
pub struct NetworkModel {
    /// The hosts, by their keys.
    pub hosts: Map<Seq<char>, ()>,
    pub settings: SettingsModel,
}

impl View for NetworkManager {
    type V = NetworkModel;

    closed spec fn view(&self) -> NetworkModel {
        NetworkModel { hosts: self.hosts@, settings: self.app_settings@ }
    }
}

impl NetworkModel {
    /// The hosts and the limiters when somebody has asked for a host, and whether it is
    /// new. A new one gets the limiter that its settings ask for.
    pub open spec fn asked(self, limiters: LimitersModel, host: HostModel) -> (
        NetworkModel,
        LimitersModel,
        bool,
    ) {
        if self.hosts.contains_key(host.key()) {
            (self, limiters, false)
        } else {
            let settings = if self.settings.hosts.contains_key(host.text()) {
                Some(self.settings.hosts[host.text()])
            } else {
                None
            };
            (
                NetworkModel { hosts: self.hosts.insert(host.key(), ()), ..self },
                LimitersModel {
                    hosts: limiters.hosts.insert(host.key(), host_limiter(settings)),
                    ..limiters
                },
                true,
            )
        }
    }

    /// The same for the hosts of some URLs, one after the other.
    pub open spec fn asked_all(self, limiters: LimitersModel, urls: Seq<String>) -> (
        NetworkModel,
        LimitersModel,
        Seq<(HostModel, bool)>,
    )
        decreases urls.len(),
    {
        if urls.len() == 0 {
            (self, limiters, Seq::empty())
        } else {
            let (m, l, out) = self.asked_all(limiters, urls.drop_last());
            let url = urls.last()@;
            let host = host_label(url, host_of_url(url));
            let (m2, l2, is_new) = m.asked(l, host);
            (m2, l2, out.push((host, is_new)))
        }
    }
}

impl NetworkManager {
    /// No host is named twice in the settings.
    pub closed spec fn wf(&self) -> bool {
        self.app_settings.wf()
    }

    /// No hosts.
    pub fn new(app_settings: AppSettings) -> (r: Self)
        requires
            app_settings.wf(),
        ensures
            r.wf(),
            r@ == (NetworkModel { hosts: Map::empty(), settings: app_settings@ }),
    {
        NetworkManager { hosts: StringHashMap::new(), app_settings }
    }

    /// Takes in that somebody asked for a host.
    pub fn get_or_spawn_host(&mut self, limiters: &mut LimiterRegistry, host: &Host) -> (is_new:
        bool)
        requires
            old(self).wf(),
        ensures
            final(self).wf(),
            (final(self)@, final(limiters)@, is_new) == old(self)@.asked(
                old(limiters)@,
                host@,
            ),
    {
        let key = host.key();
        if self.hosts.contains_key(key.as_str()) {
            return false;
        }
        let settings = self.app_settings.get_host_settings(host.text());
        self.hosts.insert(key, ());
        limiters.add_host(host, settings);
        true
    }

    /// The hosts of some URLs. Those that are new are to be worked with from now on.
    pub fn get_host_handles(&mut self, limiters: &mut LimiterRegistry, urls: &Vec<String>) -> (out:
        Vec<HostRequest>)
        requires
            old(self).wf(),
        ensures
            final(self).wf(),
            (final(self)@, final(limiters)@, requests_view(out@)) == old(self)@.asked_all(
                old(limiters)@,
                urls@,
            ),
    {
        let mut out: Vec<HostRequest> = Vec::new();
        let n: usize = urls.len();
        let mut i: usize = 0;
        assert(urls@.take(0) =~= Seq::<String>::empty());
        assert(requests_view(out@) =~= Seq::<(HostModel, bool)>::empty());
        while i < n
            invariant
                i <= n,
                n == urls@.len(),
                self.wf(),
                (self@, limiters@, requests_view(out@)) == old(self)@.asked_all(
                    old(limiters)@,
                    urls@.take(i as int),
                ),
            decreases n - i,
        {
            proof {
                assert(urls@.take(i + 1).drop_last() =~= urls@.take(i as int));
                assert(urls@.take(i + 1).last() == urls@[i as int]);
            }
            let ghost before = out@;
            let host = host_or_label(urls[i].as_str());
            let is_new = self.get_or_spawn_host(limiters, &host);
            out.push(HostRequest { host, is_new });
            assert(requests_view(out@) =~= requests_view(before).push((host@, is_new)));
            i += 1;
        }
        assert(urls@.take(n as int) =~= urls@);
        out
    }
}

/// The work with a host begins once: who asks again finds it, and its limiter stays as
/// it is.
pub proof fn law_hosts_are_worked_with_once(
    m: NetworkModel,
    limiters: LimitersModel,
    host: HostModel,
)
    ensures
        ({
            let (after, l, is_new) = m.asked(limiters, host);
            &&& after.hosts.contains_key(host.key())
            &&& after.asked(l, host) == (after, l, false)
            &&& is_new <==> !m.hosts.contains_key(host.key())
        }),
{
}

} // verus!
