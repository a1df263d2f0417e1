//! The rows that settings are written as.

use vstd::prelude::*;
use crate::app::settings::AppSettings;
#[allow(unused_imports)]
use crate::app::settings::{
    downloads_in, downloads_view, hosts_in, hosts_view, stored_limit, DownloadSettingsModel,
    HostEntry,
};
use crate::db::rows::{DownloadSettingsRow, FileSettingsRow, GlobalSettingsRow, HostSettingsRow};
#[allow(unused_imports)]
use crate::db::rows::JoinedDownloadSettingsRow;
#[allow(unused_imports)]
use crate::download::storing::lemma_signed_round_trip;

verus! {

broadcast use vstd::std_specs::hash::group_hash_axioms;

/// The rows that settings are written as.
pub struct SettingsRows {
    pub global: GlobalSettingsRow,
    pub hosts: Vec<HostSettingsRow>,
    pub downloads: Vec<DownloadSettingsRow>,
    pub files: Vec<FileSettingsRow>,
}

/// A limit, as it is stored.
pub open spec fn kept_limit(limit: Option<u64>) -> Option<i64> {
    match limit {
        Some(n) => Some(n as i64),
        None => None,
    }
}

fn write_limit(limit: Option<u64>) -> (r: Option<i64>)
    ensures
        r == kept_limit(limit),
{
    match limit {
        Some(n) => Some(
            #[verifier::truncate]
            (n as i64),
        ),
        None => None,
    }
}

/// Whether a row says what holds for a host.
pub open spec fn tells_host(row: HostSettingsRow, entry: HostEntry) -> bool {
    row.host@ == entry.host@ && row.speed_limit == kept_limit(entry.settings.speed_limit)
}

/// Whether a row says what holds for a download.
pub open spec fn tells_download(
    row: DownloadSettingsRow,
    m: Map<usize, DownloadSettingsModel>,
    id: usize,
) -> bool {
    m.contains_key(id) && row.download_id == id as i64 && row.speed_limit == kept_limit(
        m[id].speed_limit,
    )
}

/// Whether a row says what holds for a file.
pub open spec fn tells_file(
    row: FileSettingsRow,
    m: Map<usize, DownloadSettingsModel>,
    id: usize,
    file: usize,
) -> bool {
    m.contains_key(id) && m[id].files.contains_key(file) && row.download_id == id as i64
        && row.file_id == file as i64 && row.speed_limit == kept_limit(
        m[id].files[file].speed_limit,
    )
}

/// Whether a row says what holds for some download.
pub open spec fn tells_of_download(
    row: DownloadSettingsRow,
    m: Map<usize, DownloadSettingsModel>,
) -> bool {
    exists|id: usize| #[trigger] tells_download(row, m, id)
}

/// Whether a row says what holds for some file.
pub open spec fn tells_of_file(
    row: FileSettingsRow,
    m: Map<usize, DownloadSettingsModel>,
) -> bool {
    exists|id: usize, file: usize| #[trigger] tells_file(row, m, id, file)
}

/// Whether rows say what holds for each download, and nothing else.
pub open spec fn tell_downloads(
    rows: Seq<DownloadSettingsRow>,
    m: Map<usize, DownloadSettingsModel>,
) -> bool {
    &&& forall|i: int|
        0 <= i < rows.len() ==> tells_of_download(#[trigger] rows[i], m)
    &&& forall|id: usize| #[trigger]
        m.contains_key(id) ==> exists|i: int|
            0 <= i < rows.len() && tells_download(#[trigger] rows[i], m, id)
}

/// Whether rows say what holds for each file, and nothing else.
pub open spec fn tell_files(
    rows: Seq<FileSettingsRow>,
    m: Map<usize, DownloadSettingsModel>,
) -> bool {
    &&& forall|i: int|
        0 <= i < rows.len() ==> tells_of_file(#[trigger] rows[i], m)
    &&& forall|id: usize, file: usize|
        m.contains_key(id) && #[trigger] m[id].files.contains_key(file) ==> exists|i: int|
            0 <= i < rows.len() && tells_file(#[trigger] rows[i], m, id, file)
}

/// Whether a row says what holds for a download.
spec fn is_told(rows: Seq<DownloadSettingsRow>, m: Map<usize, DownloadSettingsModel>, id: usize) -> bool {
    exists|i: int| 0 <= i < rows.len() && tells_download(#[trigger] rows[i], m, id)
}

/// Whether a row says what holds for a file.
spec fn file_is_told(
    rows: Seq<FileSettingsRow>,
    m: Map<usize, DownloadSettingsModel>,
    id: usize,
    file: usize,
) -> bool {
    exists|i: int| 0 <= i < rows.len() && tells_file(#[trigger] rows[i], m, id, file)
}

/// Whether something is among the first so many entries of a list.
spec fn is_seen<V>(entries: Seq<(&usize, &V)>, n: int, key: usize) -> bool {
    exists|i: int| 0 <= i < n && *(#[trigger] entries[i]).0 == key
}

proof fn lemma_seen<V>(entries: Seq<(&usize, &V)>, n: int, key: usize)
    requires
        0 <= n < entries.len(),
    ensures
        is_seen(entries, n + 1, key) == (is_seen(entries, n, key) || *entries[n].0 == key),
{
    if is_seen(entries, n, key) {
        let i = choose|i: int| 0 <= i < n && *(#[trigger] entries[i]).0 == key;
        assert(*entries[i].0 == key);
    }
    if *entries[n].0 == key {
        assert(is_seen(entries, n + 1, key));
    }
}

proof fn lemma_told(
    rows: Seq<DownloadSettingsRow>,
    more: Seq<DownloadSettingsRow>,
    m: Map<usize, DownloadSettingsModel>,
    id: usize,
)
    requires
        is_told(rows, m, id),
        rows.len() <= more.len(),
        forall|i: int| 0 <= i < rows.len() ==> #[trigger] more[i] == rows[i],
    ensures
        is_told(more, m, id),
{
    let i = choose|i: int| 0 <= i < rows.len() && tells_download(#[trigger] rows[i], m, id);
    assert(more[i] == rows[i]);
}

proof fn lemma_file_told(
    rows: Seq<FileSettingsRow>,
    more: Seq<FileSettingsRow>,
    m: Map<usize, DownloadSettingsModel>,
    id: usize,
    file: usize,
)
    requires
        file_is_told(rows, m, id, file),
        rows.len() <= more.len(),
        forall|i: int| 0 <= i < rows.len() ==> #[trigger] more[i] == rows[i],
    ensures
        file_is_told(more, m, id, file),
{
    let i = choose|i: int| 0 <= i < rows.len() && tells_file(#[trigger] rows[i], m, id, file);
    assert(more[i] == rows[i]);
}

fn download_rows(settings: &AppSettings) -> (r: Vec<DownloadSettingsRow>)
    ensures
        tell_downloads(r@, settings@.downloads),
{
    let mut r: Vec<DownloadSettingsRow> = Vec::new();
    let ghost m = settings@.downloads;
    let ghost raw = settings.download_settings@;
    for entry in iter: settings.download_settings.iter()
        invariant
            raw == settings.download_settings@,
            m == downloads_view(raw),
            forall|i: int|
                0 <= i < iter.seq().len() ==> raw.contains_key(*(#[trigger] iter.seq()[i]).0)
                    && raw[*iter.seq()[i].0] == *iter.seq()[i].1,
            forall|k: usize| #[trigger]
                raw.contains_key(k) ==> is_seen(iter.seq(), iter.seq().len() as int, k),
            forall|i: int|
                0 <= i < r@.len() ==> tells_of_download(#[trigger] r@[i], m),
            forall|id: usize| #[trigger]
                is_seen(iter.seq(), iter.index() as int, id) ==> is_told(r@, m, id),
    {
        let ghost at = iter.index() as int;
        let ghost all = iter.seq();
        let ghost before = r@;
        let (id, own) = entry;
        assert(*all[at].0 == *id);
        assert(m[*id] == own@);
        let download_id: i64 = #[verifier::truncate]
        (*id as i64);
        let speed_limit = write_limit(own.speed_limit);
        r.push(DownloadSettingsRow { download_id, speed_limit });
        proof {
            assert(tells_download(r@[before.len() as int], m, *id));
            assert forall|i: int| 0 <= i < r@.len() implies tells_of_download(
                #[trigger] r@[i],
                m,
            ) by {
                if i < before.len() {
                    assert(r@[i] == before[i]);
                }
            }
            assert forall|k: usize| #[trigger] is_seen(all, at + 1, k) implies is_told(
                r@,
                m,
                k,
            ) by {
                lemma_seen(all, at, k);
                if is_seen(all, at, k) {
                    lemma_told(before, r@, m, k);
                }
            }
        }
    }
    assert forall|id: usize| #[trigger] m.contains_key(id) implies exists|i: int|
        0 <= i < r@.len() && tells_download(#[trigger] r@[i], m, id) by {
        assert(raw.contains_key(id));
        assert(is_told(r@, m, id));
    }
    r
}

/// Puts behind some rows those of the files of a download.
fn add_file_rows(
    r: &mut Vec<FileSettingsRow>,
    settings: &AppSettings,
    id: usize,
    own: &crate::app::settings::DownloadSettings,
)
    requires
        settings@.downloads.contains_key(id),
        settings@.downloads[id] == own@,
        forall|i: int|
            0 <= i < old(r)@.len() ==> tells_of_file(#[trigger] old(r)@[i], settings@.downloads),
    ensures
        final(r)@.len() >= old(r)@.len(),
        forall|i: int| 0 <= i < old(r)@.len() ==> #[trigger] final(r)@[i] == old(r)@[i],
        forall|i: int|
            0 <= i < final(r)@.len() ==> tells_of_file(
                #[trigger] final(r)@[i],
                settings@.downloads,
            ),
        forall|file: usize| #[trigger]
            own@.files.contains_key(file) ==> file_is_told(
                final(r)@,
                settings@.downloads,
                id,
                file,
            ),
{
    let ghost m = settings@.downloads;
    let ghost raw = own.file_settings@;
    let download_id: i64 = #[verifier::truncate]
    (id as i64);
    for entry in iter: own.file_settings.iter()
        invariant
            raw == own.file_settings@,
            m.contains_key(id),
            m[id] == own@,
            m == settings@.downloads,
            download_id == id as i64,
            r@.len() >= old(r)@.len(),
            forall|i: int| 0 <= i < old(r)@.len() ==> #[trigger] r@[i] == old(r)@[i],
            forall|i: int|
                0 <= i < iter.seq().len() ==> raw.contains_key(*(#[trigger] iter.seq()[i]).0)
                    && raw[*iter.seq()[i].0] == *iter.seq()[i].1,
            forall|k: usize| #[trigger]
                raw.contains_key(k) ==> is_seen(iter.seq(), iter.seq().len() as int, k),
            forall|i: int| 0 <= i < r@.len() ==> tells_of_file(#[trigger] r@[i], m),
            forall|k: usize| #[trigger]
                is_seen(iter.seq(), iter.index() as int, k) ==> file_is_told(r@, m, id, k),
    {
        let ghost at = iter.index() as int;
        let ghost all = iter.seq();
        let ghost before = r@;
        let (file, setting) = entry;
        assert(*all[at].0 == *file);
        let file_id: i64 = #[verifier::truncate]
        (*file as i64);
        let speed_limit = write_limit(setting.speed_limit);
        r.push(FileSettingsRow { download_id, file_id, speed_limit });
        proof {
            assert(tells_file(r@[before.len() as int], m, id, *file));
            assert forall|i: int| 0 <= i < r@.len() implies tells_of_file(#[trigger] r@[i], m) by {
                if i < before.len() {
                    assert(r@[i] == before[i]);
                }
            }
            assert forall|k: usize| #[trigger] is_seen(all, at + 1, k) implies file_is_told(
                r@,
                m,
                id,
                k,
            ) by {
                lemma_seen(all, at, k);
                if is_seen(all, at, k) {
                    lemma_file_told(before, r@, m, id, k);
                }
            }
        }
    }
}

fn file_rows(settings: &AppSettings) -> (r: Vec<FileSettingsRow>)
    ensures
        tell_files(r@, settings@.downloads),
{
    let mut r: Vec<FileSettingsRow> = Vec::new();
    let ghost m = settings@.downloads;
    let ghost raw = settings.download_settings@;
    for entry in iter: settings.download_settings.iter()
        invariant
            raw == settings.download_settings@,
            m == downloads_view(raw),
            m == settings@.downloads,
            forall|i: int|
                0 <= i < iter.seq().len() ==> raw.contains_key(*(#[trigger] iter.seq()[i]).0)
                    && raw[*iter.seq()[i].0] == *iter.seq()[i].1,
            forall|k: usize| #[trigger]
                raw.contains_key(k) ==> is_seen(iter.seq(), iter.seq().len() as int, k),
            forall|i: int| 0 <= i < r@.len() ==> tells_of_file(#[trigger] r@[i], m),
            forall|k: usize, file: usize| #[trigger]
                is_seen(iter.seq(), iter.index() as int, k) && #[trigger] m[k].files.contains_key(
                    file,
                ) ==> file_is_told(r@, m, k, file),
    {
        let ghost at = iter.index() as int;
        let ghost all = iter.seq();
        let ghost before = r@;
        let (id, own) = entry;
        assert(*all[at].0 == *id);
        assert(m[*id] == own@);
        add_file_rows(&mut r, settings, *id, own);
        proof {
            assert forall|k: usize, file: usize| #[trigger]
                is_seen(all, at + 1, k) && #[trigger] m[k].files.contains_key(
                    file,
                ) implies file_is_told(r@, m, k, file) by {
                lemma_seen(all, at, k);
                if k == *id {
                    assert(own@.files.contains_key(file));
                } else {
                    assert(is_seen(all, at, k));
                    lemma_file_told(before, r@, m, k, file);
                }
            }
        }
    }
    assert forall|id: usize, file: usize|
        m.contains_key(id) && #[trigger] m[id].files.contains_key(file) implies exists|i: int|
        0 <= i < r@.len() && tells_file(#[trigger] r@[i], m, id, file) by {
        assert(raw.contains_key(id));
        assert(file_is_told(r@, m, id, file));
    }
    r
}

/// The rows that settings are written as. A limit of a host that was taken back is in
/// no row.
pub fn settings_rows(settings: &AppSettings) -> (r: SettingsRows)
    ensures
        r.global.global_speed_limit == kept_limit(settings@.global),
        r.hosts@.len() == settings.host_settings@.len(),
        forall|i: int|
            0 <= i < r.hosts@.len() ==> tells_host(
                #[trigger] r.hosts@[i],
                settings.host_settings@[i],
            ),
        tell_downloads(r.downloads@, settings@.downloads),
        tell_files(r.files@, settings@.downloads),
{
    let mut hosts: Vec<HostSettingsRow> = Vec::new();
    let n: usize = settings.host_settings.len();
    let mut i: usize = 0;
    while i < n
        invariant
            i <= n,
            n == settings.host_settings@.len(),
            hosts@.len() == i,
            forall|k: int|
                0 <= k < i ==> tells_host(#[trigger] hosts@[k], settings.host_settings@[k]),
        decreases n - i,
    {
        let entry = &settings.host_settings[i];
        let host = entry.host.clone();
        let speed_limit = write_limit(entry.settings.speed_limit);
        hosts.push(HostSettingsRow { host, speed_limit });
        i += 1;
    }
    let downloads = download_rows(settings);
    let files = file_rows(settings);
    SettingsRows {
        global: GlobalSettingsRow { global_speed_limit: write_limit(settings.global_speed_limit) },
        hosts,
        downloads,
        files,
    }
}

/// A limit survives being stored.
proof fn lemma_limit_round_trip(limit: Option<u64>)
    ensures
        stored_limit(kept_limit(limit)) == limit,
{
    if let Some(n) = limit {
        assert((n as i64) as u64 == n) by (bit_vector);
    }
}

/// Whether a row stands for a row about a download, and for one about a file if it is
/// about one.
#[verifier::opaque]
pub open spec fn joins(
    row: JoinedDownloadSettingsRow,
    downloads: Seq<DownloadSettingsRow>,
    files: Seq<FileSettingsRow>,
) -> bool {
    &&& exists|i: int|
        0 <= i < downloads.len() && (#[trigger] downloads[i]).download_id == row.download_id
            && downloads[i].speed_limit == row.download_speed_limit
    &&& row.file_id.is_some() ==> exists|i: int|
        0 <= i < files.len() && (#[trigger] files[i]).download_id == row.download_id
            && files[i].file_id == row.file_id->0 && files[i].speed_limit == row.file_speed_limit
}

/// Whether rows are those about downloads, each beside those about its files.
pub open spec fn is_join(
    joined: Seq<JoinedDownloadSettingsRow>,
    downloads: Seq<DownloadSettingsRow>,
    files: Seq<FileSettingsRow>,
) -> bool {
    &&& forall|k: int| 0 <= k < joined.len() ==> joins(#[trigger] joined[k], downloads, files)
    &&& forall|i: int|
        0 <= i < downloads.len() ==> exists|k: int|
            0 <= k < joined.len() && (#[trigger] joined[k]).download_id == (
            #[trigger] downloads[i]).download_id
    &&& forall|i: int|
        0 <= i < files.len() ==> exists|k: int|
            0 <= k < joined.len() && (#[trigger] joined[k]).download_id == (
            #[trigger] files[i]).download_id && joined[k].file_id == Some(files[i].file_id)
}

/// Whether a row says what holds.
spec fn agrees(row: JoinedDownloadSettingsRow, m: Map<usize, DownloadSettingsModel>) -> bool {
    let id = row.download_id as usize;
    &&& m.contains_key(id)
    &&& stored_limit(row.download_speed_limit) == m[id].speed_limit
    &&& row.file_id.is_some() ==> m[id].files.contains_key((row.file_id->0) as usize)
        && stored_limit(row.file_speed_limit) == m[id].files[(row.file_id->0) as usize].speed_limit
}

spec fn mentions(rows: Seq<JoinedDownloadSettingsRow>, id: usize) -> bool {
    exists|k: int| 0 <= k < rows.len() && (#[trigger] rows[k]).download_id as usize == id
}

spec fn mentions_file(rows: Seq<JoinedDownloadSettingsRow>, id: usize, file: usize) -> bool {
    exists|k: int|
        0 <= k < rows.len() && (#[trigger] rows[k]).download_id as usize == id
            && rows[k].file_id.is_some() && (rows[k].file_id->0) as usize == file
}

proof fn lemma_mentions(rows: Seq<JoinedDownloadSettingsRow>, id: usize, file: usize)
    requires
        rows.len() > 0,
    ensures
        mentions(rows, id) == (mentions(rows.drop_last(), id) || rows.last().download_id as usize
            == id),
        mentions_file(rows, id, file) == (mentions_file(rows.drop_last(), id, file) || (
        rows.last().download_id as usize == id && rows.last().file_id.is_some() && (
        rows.last().file_id->0) as usize == file)),
{
    let rest = rows.drop_last();
    if mentions(rest, id) {
        let k = choose|k: int|
            0 <= k < rest.len() && (#[trigger] rest[k]).download_id as usize == id;
        assert(rows[k] == rest[k]);
    }
    if mentions(rows, id) && rows.last().download_id as usize != id {
        let k = choose|k: int|
            0 <= k < rows.len() && (#[trigger] rows[k]).download_id as usize == id;
        assert(rest[k] == rows[k]);
    }
    if rows.last().download_id as usize == id {
        assert(rows[rows.len() - 1] == rows.last());
    }
    if mentions_file(rest, id, file) {
        let k = choose|k: int|
            0 <= k < rest.len() && (#[trigger] rest[k]).download_id as usize == id
                && rest[k].file_id.is_some() && (rest[k].file_id->0) as usize == file;
        assert(rows[k] == rest[k]);
    }
    if mentions_file(rows, id, file) {
        let k = choose|k: int|
            0 <= k < rows.len() && (#[trigger] rows[k]).download_id as usize == id
                && rows[k].file_id.is_some() && (rows[k].file_id->0) as usize == file;
        if k < rest.len() {
            assert(rest[k] == rows[k]);
        }
    }
}

proof fn lemma_downloads_in(
    rows: Seq<JoinedDownloadSettingsRow>,
    m: Map<usize, DownloadSettingsModel>,
)
    requires
        forall|k: int| 0 <= k < rows.len() ==> agrees(#[trigger] rows[k], m),
    ensures
        forall|id: usize| #[trigger] downloads_in(rows).contains_key(id) <==> mentions(rows, id),
        forall|id: usize| #[trigger]
            downloads_in(rows).contains_key(id) ==> m.contains_key(id)
                && downloads_in(rows)[id].speed_limit == m[id].speed_limit,
        forall|id: usize, file: usize| #[trigger]
            downloads_in(rows).contains_key(id) ==> (#[trigger] downloads_in(
                rows,
            )[id].files.contains_key(file) <==> mentions_file(rows, id, file)),
        forall|id: usize, file: usize|
            downloads_in(rows).contains_key(id) && #[trigger] downloads_in(
                rows,
            )[id].files.contains_key(file) ==> m[id].files.contains_key(file)
                && downloads_in(rows)[id].files[file] == m[id].files[file],
    decreases rows.len(),
{
    if rows.len() > 0 {
        let rest = rows.drop_last();
        let row = rows.last();
        assert(agrees(rows[rows.len() - 1], m));
        assert forall|k: int| 0 <= k < rest.len() implies agrees(#[trigger] rest[k], m) by {
            assert(rest[k] == rows[k]);
        }
        lemma_downloads_in(rest, m);
        let d = downloads_in(rows);
        let before = downloads_in(rest);
        let own = row.download_id as usize;
        assert forall|id: usize| #[trigger] d.contains_key(id) <==> mentions(rows, id) by {
            lemma_mentions(rows, id, 0);
            assert(before.contains_key(id) <==> mentions(rest, id));
        }
        assert forall|id: usize| #[trigger] d.contains_key(id) implies m.contains_key(id)
            && d[id].speed_limit == m[id].speed_limit by {
            if before.contains_key(id) {
                assert(before[id].speed_limit == m[id].speed_limit);
            }
        }
        assert forall|id: usize, file: usize| #[trigger] d.contains_key(id) implies (
        #[trigger] d[id].files.contains_key(file) <==> mentions_file(rows, id, file)) by {
            lemma_mentions(rows, id, file);
            lemma_file_is_mentioned(rest, id, file);
            if before.contains_key(id) {
                assert(before[id].files.contains_key(file) <==> mentions_file(rest, id, file));
            } else {
                assert(!mentions(rest, id));
            }
        }
        assert forall|id: usize, file: usize|
            d.contains_key(id) && #[trigger] d[id].files.contains_key(
                file,
            ) implies m[id].files.contains_key(file) && d[id].files[file] == m[id].files[file] by {
            if before.contains_key(id) && before[id].files.contains_key(file) {
                assert(before[id].files[file] == m[id].files[file]);
            }
        }
    }
}

proof fn lemma_file_is_mentioned(rows: Seq<JoinedDownloadSettingsRow>, id: usize, file: usize)
    ensures
        mentions_file(rows, id, file) ==> mentions(rows, id),
{
    if mentions_file(rows, id, file) {
        let k = choose|k: int|
            0 <= k < rows.len() && (#[trigger] rows[k]).download_id as usize == id
                && rows[k].file_id.is_some() && (rows[k].file_id->0) as usize == file;
        assert(rows[k].download_id as usize == id);
    }
}

proof fn lemma_join_agrees(
    row: JoinedDownloadSettingsRow,
    downloads: Seq<DownloadSettingsRow>,
    files: Seq<FileSettingsRow>,
    m: Map<usize, DownloadSettingsModel>,
)
    requires
        tell_downloads(downloads, m),
        tell_files(files, m),
        joins(row, downloads, files),
    ensures
        agrees(row, m),
{
    reveal(joins);
    let i = choose|i: int|
        0 <= i < downloads.len() && (#[trigger] downloads[i]).download_id == row.download_id
            && downloads[i].speed_limit == row.download_speed_limit;
    assert(tells_of_download(downloads[i], m));
    let id = choose|id: usize| #[trigger] tells_download(downloads[i], m, id);
    lemma_signed_round_trip(id);
    lemma_limit_round_trip(m[id].speed_limit);
    if row.file_id.is_some() {
        let k = choose|k: int|
            0 <= k < files.len() && (#[trigger] files[k]).download_id == row.download_id
                && files[k].file_id == row.file_id->0 && files[k].speed_limit
                == row.file_speed_limit;
        assert(tells_of_file(files[k], m));
        let (other, file) = choose|other: usize, file: usize| #[trigger]
            tells_file(files[k], m, other, file);
        lemma_signed_round_trip(other);
        lemma_signed_round_trip(file);
        lemma_limit_round_trip(m[other].files[file].speed_limit);
    }
}

/// What is written of downloads and their files reads back as it was.
pub proof fn law_written_download_limits_read_back(
    m: Map<usize, DownloadSettingsModel>,
    downloads: Seq<DownloadSettingsRow>,
    files: Seq<FileSettingsRow>,
    joined: Seq<JoinedDownloadSettingsRow>,
)
    requires
        tell_downloads(downloads, m),
        tell_files(files, m),
        is_join(joined, downloads, files),
    ensures
        downloads_in(joined) == m,
{
    assert forall|k: int| 0 <= k < joined.len() implies agrees(#[trigger] joined[k], m) by {
        lemma_join_agrees(joined[k], downloads, files, m);
    }
    lemma_downloads_in(joined, m);
    let d = downloads_in(joined);
    assert forall|id: usize| m.contains_key(id) implies #[trigger] d.contains_key(id) by {
        let i = choose|i: int|
            0 <= i < downloads.len() && tells_download(#[trigger] downloads[i], m, id);
        let k = choose|k: int|
            0 <= k < joined.len() && (#[trigger] joined[k]).download_id
                == downloads[i].download_id;
        lemma_signed_round_trip(id);
        assert(joined[k].download_id as usize == id);
        assert(mentions(joined, id));
    }
    assert forall|id: usize, file: usize|
        m.contains_key(id) && #[trigger] m[id].files.contains_key(
            file,
        ) implies d[id].files.contains_key(file) by {
        assert(d.contains_key(id));
        let i = choose|i: int|
            0 <= i < files.len() && tells_file(#[trigger] files[i], m, id, file);
        let k = choose|k: int|
            0 <= k < joined.len() && (#[trigger] joined[k]).download_id == files[i].download_id
                && joined[k].file_id == Some(files[i].file_id);
        lemma_signed_round_trip(id);
        lemma_signed_round_trip(file);
        assert(joined[k].download_id as usize == id);
        assert(mentions_file(joined, id, file));
    }
    assert(d.dom() =~= m.dom());
    assert forall|id: usize| #[trigger] d.contains_key(id) implies d[id] == m[id] by {
        assert forall|file: usize| #[trigger] d[id].files.contains_key(
            file,
        ) <==> m[id].files.contains_key(file) by {}
        assert(d[id].files =~= m[id].files);
    }
    assert(d =~= m);
}

/// What is written of hosts reads back as it was.
pub proof fn law_written_host_limits_read_back(
    entries: Seq<HostEntry>,
    rows: Seq<HostSettingsRow>,
)
    requires
        rows.len() == entries.len(),
        forall|i: int| 0 <= i < rows.len() ==> tells_host(#[trigger] rows[i], entries[i]),
    ensures
        hosts_in(rows) == hosts_view(entries),
    decreases rows.len(),
{
    if rows.len() > 0 {
        let rest = rows.drop_last();
        assert forall|i: int| 0 <= i < rest.len() implies tells_host(
            #[trigger] rest[i],
            entries.drop_last()[i],
        ) by {
            assert(rest[i] == rows[i]);
        }
        law_written_host_limits_read_back(entries.drop_last(), rest);
        assert(tells_host(rows[rows.len() - 1], entries[rows.len() - 1]));
        lemma_limit_round_trip(entries.last().settings.speed_limit);
    }
}

/// The limit of everything reads back as it was written.
pub proof fn law_written_limit_reads_back(limit: Option<u64>)
    ensures
        stored_limit(kept_limit(limit)) == limit,
{
    lemma_limit_round_trip(limit);
}

} // verus!
