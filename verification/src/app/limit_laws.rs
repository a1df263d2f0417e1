//! Which limits hold for what is fetched, and what they cost.

use vstd::prelude::*;
#[allow(unused_imports)]
use crate::app::limiters::{debts_of, host_limiter, limits_of, LimitersModel};
#[allow(unused_imports)]
use crate::app::settings::{DownloadSettingsModel, HostSettings};
#[allow(unused_imports)]
use crate::download::items::{DownloadId, FileId};
#[allow(unused_imports)]
use crate::utils::network_utils::{later, BandwidthLimiter};
#[allow(unused_imports)]
use crate::utils::urls::HostModel;

verus! {

/// A limit that is set is the one that was asked for, and without one there is none.
pub proof fn law_limits_are_as_asked_for(limiter: BandwidthLimiter, limit: Option<u64>)
    ensures
        ({
            let after = limiter.applied(limit);
            &&& limit matches Some(n) ==> after.bytes_per_second == n && !after.unlimited
            &&& limit is None ==> after.unlimited
            &&& after.leftover_bytes == 0
            &&& after.clock.clock == 0
        }),
{
}

/// Whether nothing is limited: nothing is owed, whatever is fetched.
pub open spec fn lets_all_pass(limiter: BandwidthLimiter) -> bool {
    limiter.unlimited
}

/// Whether so many bytes may be fetched in a second, and nothing is owed yet.
pub open spec fn lets_pass(limiter: BandwidthLimiter, limit: u64) -> bool {
    &&& !limiter.unlimited
    &&& limiter.bytes_per_second == limit
    &&& limiter.leftover_bytes == 0
    &&& limiter.clock.clock == 0
}

/// A download and each of its files that has a limit are held to it from the beginning; a
/// download without one is not held back, and a file without one has no limiter.
pub proof fn law_settings_become_limits(settings: Option<DownloadSettingsModel>, file: usize)
    ensures
        ({
            let group = limits_of(settings);
            match settings {
                Some(s) => {
                    &&& s.speed_limit matches Some(limit) ==> lets_pass(group.download, limit)
                    &&& s.speed_limit is None ==> lets_all_pass(group.download)
                    &&& group.files.contains_key(file) <==> s.files.contains_key(file)
                        && s.files[file].speed_limit is Some
                    &&& group.files.contains_key(file) ==> lets_pass(
                        group.files[file],
                        s.files[file].speed_limit->0,
                    )
                },
                None => lets_all_pass(group.download) && !group.files.contains_key(file),
            }
        }),
{
}

/// A host with a limit is held to it from the beginning, and one without settings is not held
/// back.
pub proof fn law_host_settings_become_limits(settings: Option<HostSettings>)
    ensures
        settings is None ==> lets_all_pass(host_limiter(settings)),
        settings matches Some(s) ==> (s.speed_limit matches Some(limit) ==> lets_pass(
            host_limiter(settings),
            limit,
        )),
{
}

/// What is fetched of a file is held to the limit of the whole program, of its host, of its
/// download and of the file, as far as there are such.
pub proof fn law_every_limit_holds(m: LimitersModel, host: HostModel, download: usize, file: usize)
    ensures
        ({
            let held = m.holding(host, download, file);
            &&& held.len() == 4
            &&& held[0] == Some(m.global)
            &&& held[1] is Some <==> m.hosts.contains_key(host.key())
            &&& held[1] matches Some(l) ==> l == m.hosts[host.key()]
            &&& held[2] is Some <==> m.downloads.contains_key(download)
            &&& held[2] matches Some(l) ==> l == m.downloads[download].download
            &&& held[3] is Some <==> m.downloads.contains_key(download)
                && m.downloads[download].files.contains_key(file)
            &&& held[3] matches Some(l) ==> l == m.downloads[download].files[file]
        }),
{
}

/// Bytes that were fetched count against each of these limits, and against no other.
pub proof fn law_bytes_count_against_every_limit(
    m: LimitersModel,
    now: u64,
    host: HostModel,
    download: usize,
    file: usize,
    bytes: u64,
)
    ensures
        ({
            let after = m.charged(now, host, download, file, bytes);
            &&& after.global == m.global.charged(now, bytes)
            &&& forall|key: Seq<char>|
                (#[trigger] after.hosts.contains_key(key)) == m.hosts.contains_key(key)
            &&& forall|key: Seq<char>| #[trigger]
                m.hosts.contains_key(key) ==> after.hosts[key] == if key == host.key() {
                    m.hosts[key].charged(now, bytes)
                } else {
                    m.hosts[key]
                }
            &&& forall|id: usize|
                (#[trigger] after.downloads.contains_key(id)) == m.downloads.contains_key(id)
            &&& forall|id: usize|
                id != download && #[trigger] m.downloads.contains_key(id) ==> after.downloads[id]
                    == m.downloads[id]
            &&& m.downloads.contains_key(download) ==> {
                let before = m.downloads[download];
                let group = after.downloads[download];
                &&& group.download == before.download.charged(now, bytes)
                &&& forall|id: usize|
                    (#[trigger] group.files.contains_key(id)) == before.files.contains_key(id)
                &&& forall|id: usize| #[trigger]
                    before.files.contains_key(id) ==> group.files[id] == if id == file {
                        before.files[id].charged(now, bytes)
                    } else {
                        before.files[id]
                    }
            }
        }),
{
}

/// A limit that is set for a host, a download or a file holds for it from then on.
pub proof fn law_new_limits_hold(
    m: LimitersModel,
    host: HostModel,
    id: DownloadId,
    file: FileId,
    limit: Option<u64>,
)
    ensures
        m.hosts.contains_key(host.key()) ==> m.host_applied(host, limit).hosts[host.key()]
            == m.hosts[host.key()].applied(limit),
        m.downloads.contains_key(id.0) ==> m.download_applied(
            id,
            limit,
        ).downloads[id.0].download == m.downloads[id.0].download.applied(limit),
        m.downloads.contains_key(id.0) && m.downloads[id.0].files.contains_key(file.0)
            ==> m.file_applied(id, file, limit).downloads[id.0].files[file.0]
            == m.downloads[id.0].files[file.0].applied(limit),
        forall|other: usize|
            other != file.0 && m.downloads.contains_key(id.0)
                && #[trigger] m.downloads[id.0].files.contains_key(other) ==> m.file_applied(
                id,
                file,
                limit,
            ).downloads[id.0].files[other] == m.downloads[id.0].files[other],
{
}

/// Nobody waits for longer than the limit asks for: all that was paid is worth no more bytes
/// than came.
pub proof fn law_nobody_pays_too_much(limiter: BandwidthLimiter, bytes: u64)
    requires
        limiter.charges(),
    ensures
        limiter.cost(bytes) * limiter.bytes_per_second <= (limiter.leftover_bytes + bytes)
            * 1_000_000,
        (limiter.cost(bytes) + 1) * limiter.bytes_per_second > (limiter.leftover_bytes + bytes)
            * 1_000_000,
{
    let x = ((limiter.leftover_bytes + bytes) * 1_000_000) as int;
    let d = limiter.bytes_per_second as int;
    let q = x / d;
    vstd::arithmetic::div_mod::lemma_fundamental_div_mod(x, d);
    vstd::arithmetic::div_mod::lemma_mod_bound(x, d);
    assert(q * d <= x < (q + 1) * d) by (nonlinear_arith)
        requires
            x == d * q + x % d,
            0 <= x % d < d,
    ;
    assert(limiter.cost(bytes) == q);
}

/// What bytes cost is owed on top of what is owed already; where nothing is limited, or
/// nothing may be fetched at all, nothing is added.
pub proof fn law_costs_are_owed(limiter: BandwidthLimiter, now: u64, bytes: u64)
    ensures
        ({
            let after = limiter.charged(now, bytes);
            let micros = limiter.cost(bytes);
            &&& limiter.unlimited || limiter.bytes_per_second == 0 ==> after == limiter
            &&& !limiter.unlimited && limiter.bytes_per_second > 0 && 0 < micros
                && limiter.clock.clock + micros <= u64::MAX && now + micros <= u64::MAX
                ==> after.debt(now) == Some(
                (micros + match limiter.debt(now) {
                    Some(owed) => owed as int,
                    None => 0,
                }) as u64,
            )
            &&& after.bytes_per_second == limiter.bytes_per_second && after.unlimited
                == limiter.unlimited
        }),
{
}

/// The debt of each limiter is told in its place, and that of none where there is none.
pub proof fn law_debts_are_told_in_place(limiters: Seq<Option<BandwidthLimiter>>, now: u64)
    ensures
        debts_of(limiters, now).len() == limiters.len(),
        forall|i: int|
            0 <= i < limiters.len() ==> #[trigger] debts_of(limiters, now)[i] == match limiters[i] {
                Some(limiter) => limiter.debt(now),
                None => None,
            },
{
}

/// One waits as long as the greatest debt asks for, and no time at all without a debt.
pub proof fn law_waits_end_with_the_debt(now: u64, debt: u64)
    ensures
        now + debt <= u64::MAX ==> later(now, debt) == now + debt,
        now + debt > u64::MAX ==> later(now, debt) == u64::MAX,
{
}

} // verus!
