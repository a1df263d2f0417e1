//! Downloads that wait for their turn, and what the program does about them.

use vstd::prelude::*;
use crate::app::registry::DownloadRegistry;
#[allow(unused_imports)]
use crate::app::registry::{empty_registry, entries_of, RegistryModel};
use crate::app::settings::AppSettings;
#[allow(unused_imports)]
use crate::app::settings::{no_settings, SettingsModel};
use crate::app_manager::{act, AppManagerAction};
#[allow(unused_imports)]
use crate::app_manager::{manager_actions, resumed, ManagerActionModel};
use crate::download::error::FileFailureReason;
use crate::download::items::{DownloadId, FileId};
use crate::download::tree::Download;
use crate::utils::id_index::IdIndex;

verus! {

/// So many downloads are begun at the same time.
pub const CONCURRENCY_LIMIT: usize = 10;

/// What the program is told to do.
#[allow(inconsistent_fields)]
pub enum ManagerCommand {
    QueueDownload(String),
    /// Remove a download, from disk too or not.
    RemoveDownload(DownloadId, bool),
    /// Nobody works on a download any more.
    CleanUpDownload(DownloadId),
    PauseDownload(DownloadId),
    /// Go on with a download, which was loaded for it.
    ResumeDownload(Download),
    Shutdown,
    SetGlobalSpeedLimit(Option<u64>),
    /// Set the limit of a host, which is named by itself or by a URL.
    SetHostSpeedLimit(String, Option<u64>),
    SetDownloadSpeedLimit(DownloadId, Option<u64>),
    /// Set the limit of a file, if it is there.
    SetFileSpeedLimit { id: DownloadId, file: FileId, limit: Option<u64>, exists: bool },
}

/// The downloads that wait, and those that there are.
pub struct DownloadManager {
    next_id: usize,
    order: IdIndex,
    urls: Vec<String>,
    registry: DownloadRegistry,
    settings: AppSettings,
}

/// The downloads that wait, and those that there are, in mathematical values.
#[verifier::ext_equal]
pub struct DownloadManagerModel {
    pub next: usize,
    /// The downloads that wait, and their URLs.
    pub queue: Seq<(usize, Seq<char>)>,
    pub registry: RegistryModel,
    pub settings: SettingsModel,
}

/// Numbers and URLs, side by side.
pub open spec fn paired(ids: Seq<usize>, urls: Seq<String>) -> Seq<(usize, Seq<char>)> {
    Seq::new(ids.len(), |i: int| (ids[i], urls[i]@))
}

impl View for DownloadManager {
    type V = DownloadManagerModel;

    closed spec fn view(&self) -> DownloadManagerModel {
        DownloadManagerModel {
            next: self.next_id,
            queue: paired(self.order@, self.urls@),
            registry: self.registry@,
            settings: self.settings@,
        }
    }
}

/// Whether a download waits.
pub open spec fn waits(queue: Seq<(usize, Seq<char>)>, id: usize) -> bool {
    exists|i: int| 0 <= i < queue.len() && (#[trigger] queue[i]).0 == id
}

/// The place at which a download waits.
pub open spec fn place(queue: Seq<(usize, Seq<char>)>, id: usize) -> int {
    choose|i: int| 0 <= i < queue.len() && (#[trigger] queue[i]).0 == id
}

/// With one more download, which waits last unless it waits already.
pub open spec fn with_waiting(
    queue: Seq<(usize, Seq<char>)>,
    id: usize,
    url: Seq<char>,
) -> Seq<(usize, Seq<char>)> {
    if waits(queue, id) {
        queue.update(place(queue, id), (id, url))
    } else {
        queue.push((id, url))
    }
}

/// With the downloads that were loaded, in their order.
pub open spec fn with_restored(
    queue: Seq<(usize, Seq<char>)>,
    restored: Seq<Download>,
) -> Seq<(usize, Seq<char>)>
    decreases restored.len(),
{
    if restored.len() == 0 {
        queue
    } else {
        let last = restored.last();
        with_waiting(with_restored(queue, restored.drop_last()), last.id.0, last.url@)
    }
}

/// The greatest number that a download has, or zero.
pub open spec fn greatest(restored: Seq<Download>) -> usize
    decreases restored.len(),
{
    if restored.len() == 0 {
        0
    } else {
        let before = greatest(restored.drop_last());
        if restored.last().id.0 > before {
            restored.last().id.0
        } else {
            before
        }
    }
}

/// Without a download that waits.
pub open spec fn not_waiting(queue: Seq<(usize, Seq<char>)>, id: usize) -> Seq<(usize, Seq<char>)> {
    queue.remove(place(queue, id))
}

/// Whether no download waits twice.
pub open spec fn waits_once(queue: Seq<(usize, Seq<char>)>) -> bool {
    forall|i: int, j: int|
        0 <= i < j < queue.len() ==> (#[trigger] queue[i]).0 != (#[trigger] queue[j]).0
}

proof fn lemma_place(queue: Seq<(usize, Seq<char>)>, i: int)
    requires
        waits_once(queue),
        0 <= i < queue.len(),
    ensures
        waits(queue, queue[i].0),
        place(queue, queue[i].0) == i,
{
    let id = queue[i].0;
    assert(waits(queue, id));
    let j = place(queue, id);
    assert(queue[j].0 == id);
}

/// What a command does. A download that waits is taken out of the queue when it is
/// removed; any other is called off first, if it is known, and then cleaned up after.
pub open spec fn download_step(m: DownloadManagerModel, command: ManagerCommand) -> (
    DownloadManagerModel,
    Seq<ManagerActionModel>,
) {
    match command {
        ManagerCommand::QueueDownload(url) => if m.registry.urls.contains_key(url@) {
            (m, Seq::empty())
        } else {
            (
                DownloadManagerModel {
                    next: (m.next + 1) as usize,
                    registry: m.registry.with(DownloadId(m.next), url@),
                    ..m
                },
                seq![ManagerActionModel::QueueWork { url: url@, id: DownloadId(m.next) }],
            )
        },
        ManagerCommand::RemoveDownload(id, from_disk) => {
            let marked = DownloadManagerModel {
                registry: RegistryModel {
                    removed: m.registry.removed.insert(id.0, from_disk),
                    ..m.registry
                },
                ..m
            };
            if waits(m.queue, id.0) {
                (
                    DownloadManagerModel { queue: not_waiting(m.queue, id.0), ..marked },
                    seq![ManagerActionModel::CleanUp(id)],
                )
            } else if m.registry.ids.contains_key(id.0) {
                (marked, seq![ManagerActionModel::CancelWork { url: m.registry.ids[id.0], id }])
            } else {
                (marked, seq![ManagerActionModel::CleanUp(id)])
            }
        },
        ManagerCommand::CleanUpDownload(id) => (
            DownloadManagerModel { registry: m.registry.finalized(id), ..m },
            if m.registry.removed.contains_key(id.0) {
                (if m.registry.removed[id.0] {
                    seq![ManagerActionModel::DeleteFiles(id)]
                } else {
                    Seq::empty()
                }) + seq![
                    ManagerActionModel::DeleteFromDatabase(id),
                    ManagerActionModel::ShowRemoved(id),
                ]
            } else {
                Seq::empty()
            },
        ),
        ManagerCommand::PauseDownload(id) => (
            m,
            if m.registry.ids.contains_key(id.0) {
                seq![ManagerActionModel::PauseWork { url: m.registry.ids[id.0], id }]
            } else {
                Seq::empty()
            },
        ),
        ManagerCommand::ResumeDownload(download) => (
            m,
            seq![resumed(m.settings, download)],
        ),
        ManagerCommand::Shutdown => (m, seq![ManagerActionModel::Stop]),
        ManagerCommand::SetGlobalSpeedLimit(limit) => (
            DownloadManagerModel { settings: SettingsModel { global: limit, ..m.settings }, ..m },
            seq![ManagerActionModel::SaveSettings, ManagerActionModel::LimitGlobal(limit)],
        ),
        ManagerCommand::SetHostSpeedLimit(host, limit) => (
            DownloadManagerModel { settings: m.settings.with_host(host@, limit), ..m },
            seq![
                ManagerActionModel::SaveSettings,
                ManagerActionModel::LimitHost { host: host@, limit },
            ],
        ),
        ManagerCommand::SetDownloadSpeedLimit(id, limit) => (
            DownloadManagerModel { settings: m.settings.with_download(id, limit), ..m },
            seq![ManagerActionModel::SaveSettings, ManagerActionModel::LimitDownload { id, limit }],
        ),
        ManagerCommand::SetFileSpeedLimit { id, file, limit, exists } => if exists
            && m.settings.downloads.contains_key(id.0) {
            (
                DownloadManagerModel { settings: m.settings.with_file(id, file, limit), ..m },
                seq![
                    ManagerActionModel::SaveSettings,
                    ManagerActionModel::LimitFile { id, file, limit },
                ],
            )
        } else {
            (m, Seq::empty())
        },
    }
}

impl DownloadManager {
    /// Every download that waits has a URL, and none waits twice.
    pub closed spec fn wf(&self) -> bool {
        &&& self.order@.len() == self.urls@.len()
        &&& self.order@.no_duplicates()
        &&& self.settings.wf()
    }

    proof fn lemma_waits_once(&self)
        requires
            self.wf(),
        ensures
            waits_once(self@.queue),
    {
        assert forall|i: int, j: int|
            0 <= i < j < self@.queue.len() implies (#[trigger] self@.queue[i]).0 != (
        #[trigger] self@.queue[j]).0 by {
            assert(self.order@[i] != self.order@[j]);
        }
    }

    /// No downloads.
    pub fn new() -> (r: Self)
        ensures
            r.wf(),
            r@ == (DownloadManagerModel {
                next: 0,
                queue: Seq::empty(),
                registry: empty_registry(),
                settings: no_settings(),
            }),
    {
        let r = DownloadManager {
            next_id: 0,
            order: IdIndex::new(),
            urls: Vec::new(),
            registry: DownloadRegistry::new(),
            settings: AppSettings::new(),
        };
        assert(r@.queue =~= Seq::<(usize, Seq<char>)>::empty());
        r
    }

    /// What holds for the downloads.
    pub fn settings(&self) -> (r: &AppSettings)
        requires
            self.wf(),
        ensures
            r@ == self@.settings,
            r.wf(),
    {
        &self.settings
    }

    fn wait(&mut self, id: usize, url: String)
        requires
            old(self).wf(),
        ensures
            final(self).wf(),
            final(self)@ == (DownloadManagerModel {
                queue: with_waiting(old(self)@.queue, id, url@),
                ..old(self)@
            }),
    {
        let ghost before = self@.queue;
        proof {
            self.lemma_waits_once();
        }
        match self.order.position(id) {
            Some(i) => {
                proof {
                    assert(before[i as int].0 == id);
                    lemma_place(before, i as int);
                }
                self.urls.set(i, url);
                assert(self@.queue =~= with_waiting(before, id, url@));
            },
            None => {
                proof {
                    if waits(before, id) {
                        assert(before[place(before, id)].0 == id);
                        assert(self.order@[place(before, id)] == id);
                    }
                }
                self.order.insert(id);
                self.urls.push(url);
                assert(self@.queue =~= with_waiting(before, id, url@));
            },
        }
    }

    /// Takes in the downloads that were loaded. They wait for their turn, and new ones
    /// get greater numbers.
    pub fn load_state(&mut self, restored: &Vec<Download>)
        requires
            old(self).wf(),
            greatest(restored@) < usize::MAX,
        ensures
            final(self).wf(),
            final(self)@ == (DownloadManagerModel {
                next: (greatest(restored@) + 1) as usize,
                queue: with_restored(old(self)@.queue, restored@),
                ..old(self)@
            }),
    {
        let mut max_id: usize = 0;
        let n: usize = restored.len();
        let mut i: usize = 0;
        assert(restored@.take(0) =~= Seq::<Download>::empty());
        while i < n
            invariant
                i <= n,
                n == restored@.len(),
                self.wf(),
                max_id == greatest(restored@.take(i as int)),
                self@ == (DownloadManagerModel {
                    queue: with_restored(old(self)@.queue, restored@.take(i as int)),
                    ..old(self)@
                }),
            decreases n - i,
        {
            proof {
                assert(restored@.take(i + 1).drop_last() =~= restored@.take(i as int));
                assert(restored@.take(i + 1).last() == restored@[i as int]);
            }
            let id: usize = restored[i].id.0;
            if id > max_id {
                max_id = id;
            }
            let url = restored[i].url.clone();
            self.wait(id, url);
            i += 1;
        }
        assert(restored@.take(n as int) =~= restored@);
        self.next_id = max_id + 1;
    }

    /// Takes in the downloads that are stored, and those that wait.
    pub fn start_processing(&mut self, existing_urls: Vec<(usize, String)>)
        requires
            old(self).wf(),
        ensures
            final(self).wf(),
            final(self)@ == (DownloadManagerModel {
                registry: old(self)@.registry.with_all(
                    entries_of(existing_urls@),
                ).with_all(
                    old(self)@.queue.map_values(
                        |e: (usize, Seq<char>)| (DownloadId(e.0), e.1),
                    ),
                ),
                ..old(self)@
            }),
    {
        let ghost rows = existing_urls@;
        let ghost start = self.registry@;
        assert(entries_of(rows.take(0)) =~= Seq::<(DownloadId, Seq<char>)>::empty());
        for row in iter: existing_urls
            invariant
                iter.seq() == rows,
                start == old(self).registry@,
                self.order == old(self).order,
                self.urls == old(self).urls,
                self.next_id == old(self).next_id,
                self.settings == old(self).settings,
                self.registry@ == start.with_all(entries_of(rows.take(iter.index() as int))),
        {
            let ghost i = iter.index() as int;
            let (id, url) = row;
            proof {
                assert(rows.take(i + 1).last() == rows[i]);
                assert(entries_of(rows.take(i + 1)).drop_last() =~= entries_of(rows.take(i)));
                assert(entries_of(rows.take(i + 1)).last() == (DownloadId(id), url@));
            }
            self.registry.add(DownloadId(id), url);
        }
        assert(rows.take(rows.len() as int) =~= rows);
        let ghost mid = self.registry@;
        let ghost waiting = self@.queue.map_values(|e: (usize, Seq<char>)| (DownloadId(e.0), e.1));
        let n: usize = self.urls.len();
        let mut i: usize = 0;
        assert(waiting.take(0) =~= Seq::<(DownloadId, Seq<char>)>::empty());
        while i < n
            invariant
                i <= n,
                self.wf(),
                n == self.urls@.len(),
                self.order == old(self).order,
                self.urls == old(self).urls,
                self.next_id == old(self).next_id,
                self.settings == old(self).settings,
                waiting == self@.queue.map_values(
                    |e: (usize, Seq<char>)| (DownloadId(e.0), e.1),
                ),
                self.registry@ == mid.with_all(waiting.take(i as int)),
            decreases n - i,
        {
            let id: usize = self.order.at(i);
            let url = self.urls[i].clone();
            proof {
                assert(waiting.take(i + 1).drop_last() =~= waiting.take(i as int));
                assert(waiting.take(i + 1).last() == (DownloadId(id), url@));
            }
            self.registry.add(DownloadId(id), url);
            i += 1;
        }
        assert(waiting.take(n as int) =~= waiting);
    }

    /// The next download may begin. The first that waits leaves the queue, and its URL
    /// is to be queued by a command.
    pub fn on_permit(&mut self) -> (r: Option<String>)
        requires
            old(self).wf(),
        ensures
            final(self).wf(),
            match r {
                Some(url) => old(self)@.queue.len() > 0 && url@ == old(self)@.queue[0].1
                    && final(self)@ == (DownloadManagerModel {
                    queue: old(self)@.queue.remove(0),
                    ..old(self)@
                }),
                None => old(self)@.queue.len() == 0 && final(self)@ == old(self)@,
            },
    {
        if self.urls.len() == 0 {
            return None;
        }
        self.order.remove_at(0);
        let url = self.urls.remove(0);
        assert(self@.queue =~= old(self)@.queue.remove(0));
        Some(url)
    }

    /// Whether downloads wait, so that a permit is asked for.
    pub fn is_waiting(&self) -> (r: bool)
        requires
            self.wf(),
        ensures
            r == (self@.queue.len() > 0),
    {
        self.urls.len() > 0
    }

    fn remove(&mut self, id: DownloadId, from_disk: bool, out: &mut Vec<AppManagerAction>)
        requires
            old(self).wf(),
            manager_actions(old(out)@) == Seq::<ManagerActionModel>::empty(),
        ensures
            final(self).wf(),
            (final(self)@, manager_actions(final(out)@)) == download_step(
                old(self)@,
                ManagerCommand::RemoveDownload(id, from_disk),
            ),
    {
        let ghost before = self@.queue;
        proof {
            self.lemma_waits_once();
        }
        self.registry.mark_removed(id, from_disk);
        match self.order.position(id.0) {
            Some(i) => {
                proof {
                    assert(before[i as int].0 == id.0);
                    lemma_place(before, i as int);
                }
                self.order.remove_at(i);
                let _ = self.urls.remove(i);
                assert(self@.queue =~= not_waiting(before, id.0));
                act(out, AppManagerAction::CleanUp(id));
            },
            None => {
                proof {
                    if waits(before, id.0) {
                        assert(before[place(before, id.0)].0 == id.0);
                        assert(self.order@[place(before, id.0)] == id.0);
                    }
                }
                if let Some(url) = self.registry.lookup_url(&id) {
                    let url = url.clone();
                    act(out, AppManagerAction::CancelWork { url, id });
                } else {
                    act(out, AppManagerAction::CleanUp(id));
                }
            },
        }
        proof {
            let command = ManagerCommand::RemoveDownload(id, from_disk);
            assert(manager_actions(out@) =~= download_step(old(self)@, command).1);
            assert(self@ =~= download_step(old(self)@, command).0);
        }
    }

    fn clean_up(&mut self, id: DownloadId, out: &mut Vec<AppManagerAction>)
        requires
            old(self).wf(),
            manager_actions(old(out)@) == Seq::<ManagerActionModel>::empty(),
        ensures
            final(self).wf(),
            (final(self)@, manager_actions(final(out)@)) == download_step(
                old(self)@,
                ManagerCommand::CleanUpDownload(id),
            ),
    {
        if let Some(from_disk) = self.registry.finalize_removed(&id) {
            if from_disk {
                act(out, AppManagerAction::DeleteFiles(id));
            }
            act(out, AppManagerAction::DeleteFromDatabase(id));
            act(out, AppManagerAction::ShowRemoved(id));
        }
        proof {
            let command = ManagerCommand::CleanUpDownload(id);
            assert(manager_actions(out@) =~= download_step(old(self)@, command).1);
        }
    }

    /// Takes in a command, and says what is to be done.
    pub fn on_command(&mut self, command: ManagerCommand) -> (out: Vec<AppManagerAction>)
        requires
            old(self).wf(),
            command matches ManagerCommand::QueueDownload(url) ==> (
            old(self)@.registry.urls.contains_key(url@) || old(self)@.next < usize::MAX),
        ensures
            final(self).wf(),
            (final(self)@, manager_actions(out@)) == download_step(old(self)@, command),
    {
        let mut out: Vec<AppManagerAction> = Vec::new();
        assert(manager_actions(out@) =~= Seq::<ManagerActionModel>::empty());
        match command {
            ManagerCommand::QueueDownload(url) => {
                if !self.registry.contains_url(url.as_str()) {
                    let id = DownloadId(self.next_id);
                    self.next_id = self.next_id + 1;
                    self.registry.add(id, url.clone());
                    act(&mut out, AppManagerAction::QueueWork { url, id });
                }
            },
            ManagerCommand::RemoveDownload(id, from_disk) => {
                self.remove(id, from_disk, &mut out);
            },
            ManagerCommand::CleanUpDownload(id) => {
                self.clean_up(id, &mut out);
            },
            ManagerCommand::PauseDownload(id) => {
                if let Some(url) = self.registry.lookup_url(&id) {
                    let url = url.clone();
                    act(&mut out, AppManagerAction::PauseWork { url, id });
                }
            },
            ManagerCommand::ResumeDownload(download) => {
                let settings = self.settings.get_download_settings(download.id);
                act(&mut out, AppManagerAction::ResumeWork { download, settings });
            },
            ManagerCommand::Shutdown => {
                act(&mut out, AppManagerAction::Stop);
            },
            ManagerCommand::SetGlobalSpeedLimit(limit) => {
                self.settings.set_global_speed_limit(limit);
                act(&mut out, AppManagerAction::SaveSettings);
                act(&mut out, AppManagerAction::LimitGlobal(limit));
            },
            ManagerCommand::SetHostSpeedLimit(host, limit) => {
                self.settings.set_host_limit(host.clone(), limit);
                act(&mut out, AppManagerAction::SaveSettings);
                act(&mut out, AppManagerAction::LimitHost { host, limit });
            },
            ManagerCommand::SetDownloadSpeedLimit(id, limit) => {
                self.settings.set_download_limit(id, limit);
                act(&mut out, AppManagerAction::SaveSettings);
                act(&mut out, AppManagerAction::LimitDownload { id, limit });
            },
            ManagerCommand::SetFileSpeedLimit { id, file, limit, exists } => {
                if exists && self.settings.get_download_settings(id).is_some() {
                    self.settings.set_file_limit(id, file, limit);
                    act(&mut out, AppManagerAction::SaveSettings);
                    act(&mut out, AppManagerAction::LimitFile { id, file, limit });
                }
            },
        }
        assert(manager_actions(out@) =~= download_step(old(self)@, command).1);
        out
    }
}

/// Downloads that wait come first come first served: each permit lets the one go that
/// has waited longest, and the others keep their order.
pub proof fn law_first_come_first_served(queue: Seq<(usize, Seq<char>)>, id: usize, url: Seq<char>)
    requires
        waits_once(queue),
    ensures
        waits_once(with_waiting(queue, id, url)),
        waits(with_waiting(queue, id, url), id),
        !waits(queue, id) ==> with_waiting(queue, id, url).last() == (id, url),
        queue.len() > 0 ==> waits_once(queue.remove(0)) && !waits(queue.remove(0), queue[0].0),
        !waits(queue, id) && queue.len() > 0 ==> with_waiting(queue.remove(0), id, url)
            == with_waiting(queue, id, url).remove(0),
{
    let after = with_waiting(queue, id, url);
    if waits(queue, id) {
        let i = place(queue, id);
        assert(queue[i].0 == id);
        assert(after[i].0 == id);
    } else {
        assert(after[queue.len() as int].0 == id);
        if queue.len() > 0 {
            let rest = queue.remove(0);
            if waits(rest, id) {
                let j = place(rest, id);
                assert(rest[j] == queue[j + 1]);
            }
            assert(with_waiting(rest, id, url) =~= after.remove(0));
        }
    }
    if queue.len() > 0 {
        let rest = queue.remove(0);
        assert forall|i: int, j: int| 0 <= i < j < rest.len() implies (#[trigger] rest[i]).0 != (
        #[trigger] rest[j]).0 by {
            assert(rest[i] == queue[i + 1]);
            assert(rest[j] == queue[j + 1]);
        }
        if waits(rest, queue[0].0) {
            let j = place(rest, queue[0].0);
            assert(rest[j] == queue[j + 1]);
        }
    }
}

/// A download that waits and is removed leaves the queue at once, and nothing is left
/// of it once it has been cleaned up after.
pub proof fn law_removed_downloads_do_not_wait(
    m: DownloadManagerModel,
    id: DownloadId,
    from_disk: bool,
)
    requires
        waits_once(m.queue),
    ensures
        ({
            let after = download_step(m, ManagerCommand::RemoveDownload(id, from_disk)).0;
            let end = download_step(after, ManagerCommand::CleanUpDownload(id)).0;
            &&& !waits(after.queue, id.0)
            &&& !end.registry.ids.contains_key(id.0)
            &&& !end.registry.removed.contains_key(id.0)
        }),
{
    if waits(m.queue, id.0) {
        let i = place(m.queue, id.0);
        assert(m.queue[i].0 == id.0);
        let rest = m.queue.remove(i);
        if waits(rest, id.0) {
            let j = place(rest, id.0);
            assert(rest[j] == m.queue[if j < i { j } else { j + 1 }]);
        }
    }
}

/// What a file was, when the program last looked.
#[derive(Debug, Clone, Copy, PartialEq, Eq, Structural)]
pub enum SavedStatus {
    Queued,
    Initializing,
    FetchingMetadata,
    InProgress,
    Retrying,
    Waiting,
    Paused,
    Completed,
    NotFound,
    Failed(FileFailureReason),
}

/// What is known of a file, and what there is of it on disk.
#[derive(Debug, Clone, Copy)]
pub struct SavedFile {
    pub id: FileId,
    pub status: SavedStatus,
    /// Whether its size is known.
    pub has_size: bool,
    pub exists: bool,
    /// The digest that was stored.
    pub hash: Option<u128>,
    /// The digest of what there is on disk, which matters only if the file is complete.
    pub found: u128,
}

/// Whether there should be something of a file on disk: if it is complete, or if it was
/// begun and its size is known.
pub open spec fn should_be_there(f: SavedFile) -> bool {
    match f.status {
        SavedStatus::Completed => true,
        SavedStatus::Paused | SavedStatus::InProgress | SavedStatus::Waiting
        | SavedStatus::Retrying => f.has_size,
        _ => false,
    }
}

/// What a file has become, if that is something else: not found if it is missing, and
/// failed if it is complete and its digest is another one.
pub open spec fn found_as(f: SavedFile) -> Option<SavedStatus> {
    if should_be_there(f) && !f.exists {
        Some(SavedStatus::NotFound)
    } else if f.status == SavedStatus::Completed && f.hash != Some(f.found) {
        Some(SavedStatus::Failed(FileFailureReason::HashMismatch))
    } else {
        None
    }
}

/// What all the files have become, as far as that is something else.
pub open spec fn all_found(files: Seq<SavedFile>) -> Seq<(FileId, SavedStatus)>
    decreases files.len(),
{
    if files.len() == 0 {
        Seq::empty()
    } else {
        let before = all_found(files.drop_last());
        match found_as(files.last()) {
            Some(status) => before.push((files.last().id, status)),
            None => before,
        }
    }
}

impl SavedFile {
    /// Whether there should be something of this file on disk.
    pub fn should_exist(&self) -> (r: bool)
        ensures
            r == should_be_there(*self),
    {
        match self.status {
            SavedStatus::Completed => true,
            SavedStatus::Paused
            | SavedStatus::InProgress
            | SavedStatus::Waiting
            | SavedStatus::Retrying => self.has_size,
            SavedStatus::Failed(_)
            | SavedStatus::Queued
            | SavedStatus::Initializing
            | SavedStatus::FetchingMetadata
            | SavedStatus::NotFound => false,
        }
    }

    /// Whether the digest of what there is on disk is needed.
    pub fn needs_hash(&self) -> (r: bool)
        ensures
            r == (self.status == SavedStatus::Completed && self.exists),
    {
        self.exists && self.status == SavedStatus::Completed
    }

    /// What this file has become, if that is something else.
    pub fn verify(&self) -> (r: Option<SavedStatus>)
        ensures
            r == found_as(*self),
    {
        if self.should_exist() && !self.exists {
            return Some(SavedStatus::NotFound);
        }
        if self.status == SavedStatus::Completed {
            let same = match self.hash {
                Some(hash) => hash == self.found,
                None => false,
            };
            if !same {
                return Some(SavedStatus::Failed(FileFailureReason::HashMismatch));
            }
        }
        None
    }
}

/// What the files of a download have become, as far as that is something else.
pub fn verify_downloads(files: &Vec<SavedFile>) -> (r: Vec<(FileId, SavedStatus)>)
    ensures
        r@ == all_found(files@),
{
    let mut r: Vec<(FileId, SavedStatus)> = Vec::new();
    let n: usize = files.len();
    let mut i: usize = 0;
    assert(files@.take(0) =~= Seq::<SavedFile>::empty());
    while i < n
        invariant
            i <= n,
            n == files@.len(),
            r@ == all_found(files@.take(i as int)),
        decreases n - i,
    {
        proof {
            assert(files@.take(i + 1).drop_last() =~= files@.take(i as int));
            assert(files@.take(i + 1).last() == files@[i as int]);
        }
        if let Some(status) = files[i].verify() {
            r.push((files[i].id, status));
        }
        i += 1;
    }
    assert(files@.take(n as int) =~= files@);
    r
}

/// A file that is complete and whose digest is the stored one is left alone, and so is
/// one of which nothing should be on disk.
pub proof fn law_sound_files_are_left_alone(f: SavedFile)
    requires
        (f.status == SavedStatus::Completed && f.exists && f.hash == Some(f.found))
            || !should_be_there(f),
    ensures
        found_as(f).is_none(),
{
}

} // verus!
