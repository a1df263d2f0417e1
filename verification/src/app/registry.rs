//! Which downloads there are, by URL and by number.

use std::collections::HashMap;

use vstd::hash_map::StringHashMap;
use vstd::prelude::*;
use crate::download::items::DownloadId;
use crate::download::tree::Download;

verus! {

broadcast use vstd::std_specs::hash::group_hash_axioms;

/// The downloads that there are, and those that are being removed.
pub struct DownloadRegistry {
    url_map: StringHashMap<DownloadId>,
    id_map: HashMap<usize, String>,
    next_id: usize,
    removed_downloads: HashMap<usize, bool>,
}

/// The downloads that there are, in mathematical values.
#[verifier::ext_equal]
pub struct RegistryModel {
    pub urls: Map<Seq<char>, DownloadId>,
    pub ids: Map<usize, Seq<char>>,
    pub next: usize,
    /// Whether a download that is being removed goes from disk too.
    pub removed: Map<usize, bool>,
}

/// The URLs in a map, in mathematical values.
pub open spec fn urls_view(m: Map<usize, String>) -> Map<usize, Seq<char>> {
    Map::new(|k: usize| m.contains_key(k), |k: usize| m[k]@)
}

impl View for DownloadRegistry {
    type V = RegistryModel;

    closed spec fn view(&self) -> RegistryModel {
        RegistryModel {
            urls: self.url_map@,
            ids: urls_view(self.id_map@),
            next: self.next_id,
            removed: self.removed_downloads@,
        }
    }
}

impl RegistryModel {
    /// With one more download. One with the same URL or the same number makes room for
    /// it where it stood.
    pub open spec fn with(self, id: DownloadId, url: Seq<char>) -> RegistryModel {
        RegistryModel {
            urls: self.urls.insert(url, id),
            ids: self.ids.insert(id.0, url),
            ..self
        }
    }

    /// With some more downloads, one after the other.
    pub open spec fn with_all(self, entries: Seq<(DownloadId, Seq<char>)>) -> RegistryModel
        decreases entries.len(),
    {
        if entries.len() == 0 {
            self
        } else {
            let before = self.with_all(entries.drop_last());
            before.with(entries.last().0, entries.last().1)
        }
    }

    /// With a URL that gets the next number.
    pub open spec fn registered(self, url: Seq<char>) -> RegistryModel {
        RegistryModel {
            next: (self.next + 1) as usize,
            ..self.with(DownloadId(self.next), url)
        }
    }

    /// Without a download, which is not being removed any more either.
    pub open spec fn finalized(self, id: DownloadId) -> RegistryModel {
        RegistryModel {
            urls: if self.ids.contains_key(id.0) {
                self.urls.remove(self.ids[id.0])
            } else {
                self.urls
            },
            ids: self.ids.remove(id.0),
            removed: self.removed.remove(id.0),
            ..self
        }
    }

    /// Whether every URL has the number that has it, and every number is an old one.
    pub open spec fn consistent(self) -> bool {
        &&& forall|url: Seq<char>| #[trigger]
            self.urls.contains_key(url) ==> self.ids.contains_key(self.urls[url].0)
                && self.ids[self.urls[url].0] == url
        &&& forall|id: usize| #[trigger]
            self.ids.contains_key(id) ==> id < self.next && self.urls.contains_key(self.ids[id])
                && self.urls[self.ids[id]] == DownloadId(id)
    }
}

/// No downloads.
pub open spec fn empty_registry() -> RegistryModel {
    RegistryModel { urls: Map::empty(), ids: Map::empty(), next: 0, removed: Map::empty() }
}

/// The downloads in rows, in mathematical values.
pub open spec fn entries_of(rows: Seq<(usize, String)>) -> Seq<(DownloadId, Seq<char>)> {
    rows.map_values(|r: (usize, String)| (DownloadId(r.0), r.1@))
}

/// The number after the greatest.
pub open spec fn next_number(rows: Seq<(usize, String)>) -> nat
    decreases rows.len(),
{
    if rows.len() == 0 {
        0
    } else {
        let before = next_number(rows.drop_last());
        if rows.last().0 + 1 > before {
            (rows.last().0 + 1) as nat
        } else {
            before
        }
    }
}

impl DownloadRegistry {
    /// No downloads.
    pub fn new() -> (r: Self)
        ensures
            r@ == empty_registry(),
    {
        let r = DownloadRegistry {
            url_map: StringHashMap::new(),
            id_map: HashMap::new(),
            next_id: 0,
            removed_downloads: HashMap::new(),
        };
        assert(r@ =~= empty_registry());
        r
    }

    /// Takes in a download.
    pub fn add(&mut self, id: DownloadId, url: String)
        ensures
            final(self)@ == old(self)@.with(id, url@),
    {
        let copy = url.clone();
        self.url_map.insert(copy, id);
        self.id_map.insert(id.0, url);
        assert(self@ =~= old(self)@.with(id, url@));
    }

    /// The downloads that are stored. New ones get greater numbers.
    pub fn from_db(existing_urls: Vec<(usize, String)>) -> (r: Self)
        requires
            next_number(existing_urls@) <= usize::MAX,
        ensures
            r@ == (RegistryModel {
                next: next_number(existing_urls@) as usize,
                ..empty_registry().with_all(entries_of(existing_urls@))
            }),
    {
        let mut registry = DownloadRegistry::new();
        let ghost rows = existing_urls@;
        assert(entries_of(rows.take(0)) =~= Seq::<(DownloadId, Seq<char>)>::empty());
        assert(rows.take(0) =~= Seq::<(usize, String)>::empty());
        for row in iter: existing_urls
            invariant
                iter.seq() == rows,
                next_number(rows) <= usize::MAX,
                registry@ == (RegistryModel {
                    next: next_number(rows.take(iter.index() as int)) as usize,
                    ..empty_registry().with_all(entries_of(rows.take(iter.index() as int)))
                }),
                next_number(rows.take(iter.index() as int)) <= usize::MAX,
        {
            let ghost i = iter.index() as int;
            let (id, url) = row;
            proof {
                assert(rows.take(i + 1).drop_last() =~= rows.take(i));
                assert(rows.take(i + 1).last() == rows[i]);
                lemma_next_number(rows, i + 1);
                assert(entries_of(rows.take(i + 1)).drop_last() =~= entries_of(rows.take(i)));
                assert(entries_of(rows.take(i + 1)).last() == (DownloadId(id), url@));
            }
            if id + 1 > registry.next_id {
                registry.next_id = id + 1;
            }
            registry.add(DownloadId(id), url);
        }
        assert(rows.take(rows.len() as int) =~= rows);
        registry
    }

    /// Takes in the downloads that were loaded.
    pub fn add_downloads(&mut self, downloads: &Vec<Download>)
        ensures
            final(self)@ == old(self)@.with_all(
                downloads@.map_values(|d: Download| (d.id, d.url@)),
            ),
    {
        let ghost all = downloads@.map_values(|d: Download| (d.id, d.url@));
        let n: usize = downloads.len();
        let mut i: usize = 0;
        assert(all.take(0) =~= Seq::<(DownloadId, Seq<char>)>::empty());
        while i < n
            invariant
                i <= n,
                n == downloads@.len(),
                all == downloads@.map_values(|d: Download| (d.id, d.url@)),
                self@ == old(self)@.with_all(all.take(i as int)),
            decreases n - i,
        {
            assert(all.take(i + 1).drop_last() =~= all.take(i as int));
            assert(all.take(i + 1).last() == (downloads@[i as int].id, downloads@[i as int].url@));
            let url = downloads[i].url.clone();
            self.add(downloads[i].id, url);
            i += 1;
        }
        assert(all.take(n as int) =~= all);
    }

    /// Takes in a URL, and tells the number that it got.
    pub fn register(&mut self, url: String) -> (id: DownloadId)
        requires
            old(self)@.next < usize::MAX,
        ensures
            id == DownloadId(old(self)@.next),
            final(self)@ == old(self)@.registered(url@),
    {
        let id = self.next_id();
        self.add(id, url);
        id
    }

    /// A download is being removed, from disk too or not.
    pub fn mark_removed(&mut self, id: DownloadId, from_disk: bool)
        ensures
            final(self)@ == (RegistryModel {
                removed: old(self)@.removed.insert(id.0, from_disk),
                ..old(self)@
            }),
    {
        self.removed_downloads.insert(id.0, from_disk);
        assert(self@ =~= (RegistryModel {
            removed: old(self)@.removed.insert(id.0, from_disk),
            ..old(self)@
        }));
    }

    /// A download has been removed. Whether it was to go from disk too is told, if it
    /// was being removed.
    pub fn finalize_removed(&mut self, id: &DownloadId) -> (r: Option<bool>)
        ensures
            final(self)@ == old(self)@.finalized(*id),
            r == if old(self)@.removed.contains_key(id.0) {
                Some(old(self)@.removed[id.0])
            } else {
                None
            },
    {
        let ghost start = self.id_map@;
        if let Some(url) = self.id_map.remove(&id.0) {
            self.url_map.remove(url.as_str());
        }
        let r = self.removed_downloads.remove(&id.0);
        proof {
            assert(urls_view(start).contains_key(id.0) == start.contains_key(id.0));
            assert(self@.removed =~= old(self)@.removed.remove(id.0));
            assert(self@ =~= old(self)@.finalized(*id));
        }
        r
    }

    /// Whether a download is being removed.
    pub fn is_marked_for_removal(&self, id: &DownloadId) -> (r: bool)
        ensures
            r == self@.removed.contains_key(id.0),
    {
        self.removed_downloads.contains_key(&id.0)
    }

    /// A number that no download has had.
    pub fn next_id(&mut self) -> (id: DownloadId)
        requires
            old(self)@.next < usize::MAX,
        ensures
            id == DownloadId(old(self)@.next),
            final(self)@ == (RegistryModel { next: (old(self)@.next + 1) as usize, ..old(self)@ }),
    {
        let id: usize = self.next_id;
        self.next_id = id + 1;
        DownloadId(id)
    }

    /// The downloads by URL.
    pub fn url_map(&self) -> (r: &StringHashMap<DownloadId>)
        ensures
            r@ == self@.urls,
    {
        &self.url_map
    }

    /// Whether there is a download with this URL.
    pub fn contains_url(&self, url: &str) -> (r: bool)
        ensures
            r == self@.urls.contains_key(url@),
    {
        self.url_map.contains_key(url)
    }

    /// The URL of a download.
    pub fn lookup_url(&self, download_id: &DownloadId) -> (r: Option<&String>)
        ensures
            match r {
                Some(url) => self@.ids.contains_key(download_id.0) && self@.ids[download_id.0]
                    == url@,
                None => !self@.ids.contains_key(download_id.0),
            },
    {
        self.id_map.get(&download_id.0)
    }
}

proof fn lemma_next_number(rows: Seq<(usize, String)>, n: int)
    requires
        0 <= n <= rows.len(),
    ensures
        next_number(rows.take(n)) <= next_number(rows),
    decreases rows.len(),
{
    if n == rows.len() {
        assert(rows.take(n) =~= rows);
    } else {
        assert(rows.drop_last().take(n) =~= rows.take(n));
        lemma_next_number(rows.drop_last(), n);
    }
}

/// A URL that is new gets a number that no download has, and no other download
/// changes.
pub proof fn law_new_urls_get_new_numbers(m: RegistryModel, url: Seq<char>)
    requires
        m.consistent(),
        m.next < usize::MAX,
        !m.urls.contains_key(url),
    ensures
        !m.ids.contains_key(m.next),
        m.registered(url).consistent(),
        m.registered(url).urls[url] == DownloadId(m.next),
        forall|other: Seq<char>| #[trigger]
            m.urls.contains_key(other) ==> m.registered(url).urls.contains_key(other)
                && m.registered(url).urls[other] == m.urls[other],
{
    let after = m.registered(url);
    assert(!m.ids.contains_key(m.next));
    assert forall|u: Seq<char>| #[trigger] after.urls.contains_key(u) implies after.ids.contains_key(
        after.urls[u].0,
    ) && after.ids[after.urls[u].0] == u by {
        if u != url {
            assert(m.urls.contains_key(u));
        }
    }
    assert forall|id: usize| #[trigger] after.ids.contains_key(id) implies id < after.next
        && after.urls.contains_key(after.ids[id]) && after.urls[after.ids[id]] == DownloadId(id) by {
        if id != m.next {
            assert(m.ids.contains_key(id));
        }
    }
}

/// A download that has been removed is gone, and its URL can be asked for again; no
/// other download changes.
pub proof fn law_removed_urls_can_come_back(m: RegistryModel, id: DownloadId)
    requires
        m.consistent(),
    ensures
        m.finalized(id).consistent(),
        !m.finalized(id).ids.contains_key(id.0),
        m.ids.contains_key(id.0) ==> !m.finalized(id).urls.contains_key(m.ids[id.0]),
        forall|other: usize|
            other != id.0 && #[trigger] m.ids.contains_key(other) ==> m.finalized(
                id,
            ).ids.contains_key(other) && m.finalized(id).ids[other] == m.ids[other],
{
    let after = m.finalized(id);
    assert forall|u: Seq<char>| #[trigger] after.urls.contains_key(u) implies after.ids.contains_key(
        after.urls[u].0,
    ) && after.ids[after.urls[u].0] == u by {
        assert(m.urls.contains_key(u));
    }
    assert forall|i: usize| #[trigger] after.ids.contains_key(i) implies i < after.next
        && after.urls.contains_key(after.ids[i]) && after.urls[after.ids[i]] == DownloadId(i) by {
        assert(m.ids.contains_key(i));
        if m.ids.contains_key(id.0) && m.ids[i] == m.ids[id.0] {
            assert(m.urls[m.ids[i]] == DownloadId(i));
        }
    }
}

} // verus!
