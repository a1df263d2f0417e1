//! How all the downloads stand at one moment.

use std::collections::HashMap;

use vstd::prelude::*;
use crate::client_state_manager::FolderDiff;
#[allow(unused_imports)]
use crate::db::writing::root_name;
#[allow(unused_imports)]
use crate::download::file_name::chosen_name;
use crate::download::items::{
    ActiveOperation, DownloadId, FileDownload, FileId, FileSize, FolderDownload, FolderId,
};
#[allow(unused_imports)]
use crate::download::items::{downloaded_bytes, FileModel, FolderModel};
use crate::download::status::{DownloadStatus, FileStatus, StateBucketCounters};
#[allow(unused_imports)]
use crate::download::supervisor::blocks_fit;
use crate::download::supervisor::BLOCK_SIZE;
use crate::download::tree::Download;
#[allow(unused_imports)]
use crate::download::tree::DownloadModel;
use crate::utils::paths::ItemPath;
use crate::utils::urls::Host;
#[allow(unused_imports)]
use crate::utils::urls::HostModel;

verus! {

broadcast use vstd::std_specs::hash::group_hash_axioms;

/// How a file stands.
pub struct FileSnapshot {
    pub id: FileId,
    pub parent_id: Option<FolderId>,
    pub file_name: String,
    pub relative_path: ItemPath,
    pub size: Option<FileSize>,
    pub bytes_downloaded: u64,
    pub status: FileStatus,
    pub active_operation: Option<ActiveOperation>,
    pub is_paused: bool,
    pub url: String,
    pub host: Host,
}

/// How a download stands.
pub struct DownloadSnapshot {
    pub id: DownloadId,
    pub name: String,
    pub url: String,
    pub status: DownloadStatus,
    pub active_operation: Option<ActiveOperation>,
    pub is_paused: bool,
    pub files: Vec<FileSnapshot>,
    pub folders: Vec<FolderDownload>,
}

/// How a file stands, in mathematical values.
#[verifier::ext_equal]
pub struct FileStand {
    pub id: FileId,
    pub parent_id: Option<FolderId>,
    pub name: Seq<char>,
    pub path: Seq<Seq<u8>>,
    pub size: Option<FileSize>,
    pub bytes: nat,
    pub status: FileStatus,
    pub active_operation: Option<ActiveOperation>,
    pub is_paused: bool,
    pub url: Seq<char>,
    pub host: HostModel,
}

/// How a download stands, in mathematical values.
#[verifier::ext_equal]
pub struct DownloadStand {
    pub id: DownloadId,
    pub name: Seq<char>,
    pub url: Seq<char>,
    pub status: DownloadStatus,
    pub active_operation: Option<ActiveOperation>,
    pub is_paused: bool,
    pub files: Seq<FileStand>,
    pub folders: Seq<FolderModel>,
}

impl View for FileSnapshot {
    type V = FileStand;

    open spec fn view(&self) -> FileStand {
        FileStand {
            id: self.id,
            parent_id: self.parent_id,
            name: self.file_name@,
            path: self.relative_path@,
            size: self.size,
            bytes: self.bytes_downloaded as nat,
            status: self.status,
            active_operation: self.active_operation,
            is_paused: self.is_paused,
            url: self.url@,
            host: self.host@,
        }
    }
}

impl View for DownloadSnapshot {
    type V = DownloadStand;

    open spec fn view(&self) -> DownloadStand {
        DownloadStand {
            id: self.id,
            name: self.name@,
            url: self.url@,
            status: self.status,
            active_operation: self.active_operation,
            is_paused: self.is_paused,
            files: self.files@.map_values(|f: FileSnapshot| f@),
            folders: self.folders@.map_values(|f: FolderDownload| f@),
        }
    }
}

/// How a file stands.
pub open spec fn file_stand(f: FileModel) -> FileStand {
    FileStand {
        id: f.id,
        parent_id: f.parent_id,
        name: chosen_name(f.name),
        path: f.path,
        size: f.size,
        bytes: downloaded_bytes(f, BLOCK_SIZE as nat),
        status: f.status,
        active_operation: f.active_operation,
        is_paused: f.is_paused,
        url: f.url,
        host: f.host,
    }
}

/// How a download stands.
pub open spec fn download_stand(d: DownloadModel) -> DownloadStand {
    DownloadStand {
        id: d.id,
        name: root_name(d)->0,
        url: d.url,
        status: d.status,
        active_operation: d.active_operation,
        is_paused: d.is_paused,
        files: d.files.map_values(|f: FileModel| file_stand(f)),
        folders: d.folders,
    }
}

impl FileSnapshot {
    /// How a file stands.
    pub fn of(file: &FileDownload) -> (r: Self)
        requires
            file@.blocks.len() * BLOCK_SIZE <= u64::MAX,
        ensures
            r@ == file_stand(file@),
    {
        FileSnapshot {
            id: file.id,
            parent_id: file.parent_id,
            file_name: file.filename.as_str().to_owned(),
            relative_path: file.relative_path.duplicate(),
            size: file.size,
            bytes_downloaded: file.calculate_initial_bytes(BLOCK_SIZE as u64),
            status: file.status,
            active_operation: file.active_operation,
            is_paused: file.is_paused,
            url: file.url.clone(),
            host: file.host.duplicate(),
        }
    }
}

/// The same numbers once more.
pub fn copy_file_ids(ids: &Vec<FileId>) -> (r: Vec<FileId>)
    ensures
        r@ == ids@,
{
    let mut r: Vec<FileId> = Vec::new();
    let mut i: usize = 0;
    while i < ids.len()
        invariant
            i <= ids@.len(),
            r@ == ids@.take(i as int),
        decreases ids@.len() - i,
    {
        r.push(ids[i]);
        i += 1;
        assert(r@ =~= ids@.take(i as int));
    }
    assert(ids@.take(i as int) =~= ids@);
    r
}

/// The same numbers once more.
pub fn copy_folder_ids(ids: &Vec<FolderId>) -> (r: Vec<FolderId>)
    ensures
        r@ == ids@,
{
    let mut r: Vec<FolderId> = Vec::new();
    let mut i: usize = 0;
    while i < ids.len()
        invariant
            i <= ids@.len(),
            r@ == ids@.take(i as int),
        decreases ids@.len() - i,
    {
        r.push(ids[i]);
        i += 1;
        assert(r@ =~= ids@.take(i as int));
    }
    assert(ids@.take(i as int) =~= ids@);
    r
}

impl FolderDownload {
    /// The same folder once more.
    pub fn duplicate(&self) -> (r: Self)
        ensures
            r@ == self@,
    {
        FolderDownload {
            parent_id: self.parent_id,
            id: self.id,
            folder_name: self.folder_name.clone(),
            relative_path: self.relative_path.duplicate(),
            active_operation: self.active_operation,
            status: self.status,
            is_paused: self.is_paused,
            child_files: copy_file_ids(&self.child_files),
            child_folders: copy_folder_ids(&self.child_folders),
            bucket_counters: StateBucketCounters { data: self.bucket_counters.data },
        }
    }
}

impl FolderDiff {
    /// All there is about a folder, as what has changed.
    pub fn of(folder: &FolderDownload) -> (r: Self)
        ensures
            r.parent_id == Some(folder@.parent_id),
            r.status == Some(folder@.status),
            r.active_operation == Some(folder@.active_operation),
            r.folder_name matches Some(name) && name@ == folder@.name,
            r.relative_path matches Some(path) && path@ == folder@.path,
            r.child_files matches Some(files) && files@ == folder@.child_files,
            r.child_folders matches Some(folders) && folders@ == folder@.child_folders,
    {
        FolderDiff {
            parent_id: Some(folder.parent_id),
            status: Some(folder.status),
            active_operation: Some(folder.active_operation),
            folder_name: Some(folder.folder_name.clone()),
            relative_path: Some(folder.relative_path.duplicate()),
            child_files: Some(copy_file_ids(&folder.child_files)),
            child_folders: Some(copy_folder_ids(&folder.child_folders)),
        }
    }
}

impl DownloadSnapshot {
    /// How a download stands, which has to have a root.
    pub fn of(download: &Download) -> (r: Self)
        requires
            download.wf(),
            root_name(download@).is_some(),
            blocks_fit(download@.files),
        ensures
            r@ == download_stand(download@),
    {
        let mut files: Vec<FileSnapshot> = Vec::new();
        let n: usize = download.files.items.len();
        let mut i: usize = 0;
        while i < n
            invariant
                i <= n,
                n == download.files.items@.len(),
                n == download@.files.len(),
                blocks_fit(download@.files),
                files@.len() == i,
                forall|k: int|
                    0 <= k < i ==> (#[trigger] files@[k])@ == file_stand(download@.files[k]),
            decreases n - i,
        {
            assert(download@.files[i as int] == download.files.items@[i as int]@);
            files.push(FileSnapshot::of(&download.files.items[i]));
            i += 1;
        }
        let mut folders: Vec<FolderDownload> = Vec::new();
        let count: usize = download.folders.items.len();
        let mut k: usize = 0;
        while k < count
            invariant
                k <= count,
                count == download.folders.items@.len(),
                count == download@.folders.len(),
                folders@.len() == k,
                forall|j: int| 0 <= j < k ==> (#[trigger] folders@[j])@ == download@.folders[j],
            decreases count - k,
        {
            assert(download@.folders[k as int] == download.folders.items@[k as int]@);
            folders.push(download.folders.items[k].duplicate());
            k += 1;
        }
        let r = DownloadSnapshot {
            id: download.id,
            name: download.name().to_owned(),
            url: download.url.clone(),
            status: download.status,
            active_operation: download.active_operation,
            is_paused: download.is_paused,
            files,
            folders,
        };
        assert(r@.files =~= download_stand(download@).files);
        assert(r@.folders =~= download_stand(download@).folders);
        r
    }
}

/// Downloads by number. Of several with one number, the last counts.
pub open spec fn by_number(snapshots: Seq<DownloadSnapshot>) -> Map<usize, DownloadSnapshot>
    decreases snapshots.len(),
{
    if snapshots.len() == 0 {
        Map::empty()
    } else {
        by_number(snapshots.drop_last()).insert(snapshots.last().id.0, snapshots.last())
    }
}

/// What came, of what was waited for.
pub open spec fn came<T>(replies: Seq<Option<T>>) -> Seq<T>
    decreases replies.len(),
{
    if replies.len() == 0 {
        Seq::empty()
    } else {
        let before = came(replies.drop_last());
        match replies.last() {
            Some(t) => before.push(t),
            None => before,
        }
    }
}

/// Those who answered.
pub open spec fn alive<L, T>(listeners: Seq<L>, replies: Seq<Option<T>>) -> Seq<L>
    decreases replies.len(),
{
    if replies.len() == 0 {
        Seq::empty()
    } else {
        let before = alive(listeners, replies.drop_last());
        if replies.last().is_some() {
            before.push(listeners[replies.len() - 1])
        } else {
            before
        }
    }
}

/// Who is asked how a download stands.
pub struct SnapshotManager<L> {
    supervisor_listeners: Vec<L>,
}

impl<L> View for SnapshotManager<L> {
    type V = Seq<L>;

    closed spec fn view(&self) -> Seq<L> {
        self.supervisor_listeners@
    }
}

impl<L> SnapshotManager<L> {
    /// Nobody.
    pub fn new() -> (r: Self)
        ensures
            r@ == Seq::<L>::empty(),
    {
        SnapshotManager { supervisor_listeners: Vec::new() }
    }

    /// One more who is asked.
    pub fn add_supervisor(&mut self, supervisor: L)
        ensures
            final(self)@ == old(self)@.push(supervisor),
    {
        self.supervisor_listeners.push(supervisor);
    }

    /// Those who are asked.
    pub fn listeners(&mut self) -> (r: &mut Vec<L>)
        ensures
            r@ == old(self)@,
            final(self)@ == final(r)@,
    {
        &mut self.supervisor_listeners
    }

    /// How all the downloads stand: those that are complete as they are stored, and
    /// those that are worked on as their workers say. Who did not answer is not asked
    /// again.
    pub fn take_snapshot(
        &mut self,
        completed: Vec<DownloadSnapshot>,
        replies: Vec<Option<DownloadSnapshot>>,
    ) -> (r: HashMap<usize, DownloadSnapshot>)
        requires
            replies@.len() == old(self)@.len(),
        ensures
            final(self)@ == alive(old(self)@, replies@),
            r@ == by_number(completed@ + came(replies@)),
    {
        let mut r: HashMap<usize, DownloadSnapshot> = HashMap::new();
        let ghost stored = completed@;
        let ghost answers = replies@;
        assert(stored.take(0) =~= Seq::<DownloadSnapshot>::empty());
        for snapshot in iter: completed
            invariant
                iter.seq() == stored,
                r@ == by_number(stored.take(iter.index() as int)),
        {
            let ghost i = iter.index() as int;
            assert(stored.take(i + 1).drop_last() =~= stored.take(i));
            assert(stored.take(i + 1).last() == snapshot);
            r.insert(snapshot.id.0, snapshot);
        }
        assert(stored.take(stored.len() as int) =~= stored);
        let mut listeners: Vec<L> = Vec::new();
        std::mem::swap(&mut listeners, &mut self.supervisor_listeners);
        let ghost asked = listeners@;
        let mut kept: Vec<L> = Vec::new();
        let mut position: usize = 0;
        let n: usize = replies.len();
        let mut heard: Vec<bool> = Vec::new();
        assert(answers.take(0) =~= Seq::<Option<DownloadSnapshot>>::empty());
        assert(stored + came(answers.take(0)) =~= stored);
        for reply in iter: replies
            invariant
                iter.seq() == answers,
                heard@.len() == iter.index(),
                forall|k: int| 0 <= k < heard@.len() ==> heard@[k] == answers[k].is_some(),
                r@ == by_number(stored + came(answers.take(iter.index() as int))),
        {
            let ghost i = iter.index() as int;
            assert(answers.take(i + 1).drop_last() =~= answers.take(i));
            assert(answers.take(i + 1).last() == reply);
            heard.push(reply.is_some());
            if let Some(snapshot) = reply {
                let ghost before = stored + came(answers.take(i));
                assert((stored + came(answers.take(i + 1))) =~= before.push(snapshot));
                assert(before.push(snapshot).drop_last() =~= before);
                r.insert(snapshot.id.0, snapshot);
            }
        }
        assert(answers.take(n as int) =~= answers);
        for listener in iter: listeners
            invariant
                iter.seq() == asked,
                asked.len() == answers.len(),
                position == iter.index(),
                position <= answers.len(),
                answers.len() <= usize::MAX,
                heard@.len() == answers.len(),
                forall|k: int| 0 <= k < heard@.len() ==> heard@[k] == answers[k].is_some(),
                kept@ == alive(asked, answers.take(iter.index() as int)),
        {
            let ghost i = iter.index() as int;
            assert(answers.take(i + 1).drop_last() =~= answers.take(i));
            assert(answers.take(i + 1).last() == answers[i]);
            if heard[position] {
                kept.push(listener);
            }
            position += 1;
        }
        self.supervisor_listeners = kept;
        r
    }
}

/// What a worker says of a download counts, whatever is stored of it.
pub proof fn law_workers_know_best(
    completed: Seq<DownloadSnapshot>,
    replies: Seq<Option<DownloadSnapshot>>,
    i: int,
)
    requires
        0 <= i < replies.len(),
        replies[i].is_some(),
        forall|k: int|
            0 <= k < replies.len() && k != i && (#[trigger] replies[k]).is_some()
                ==> replies[k]->0.id != replies[i]->0.id,
    ensures
        ({
            let all = by_number(completed + came(replies));
            all.contains_key(replies[i]->0.id.0) && all[replies[i]->0.id.0] == replies[i]->0
        }),
    decreases replies.len(),
{
    let rest = replies.drop_last();
    let last = replies.len() - 1;
    let id = replies[i]->0.id;
    if replies.last().is_some() {
        let before = completed + came(rest);
        assert((completed + came(replies)) =~= before.push(replies.last()->0));
        assert(before.push(replies.last()->0).drop_last() =~= before);
    }
    if i < last {
        assert forall|k: int|
            0 <= k < rest.len() && k != i && (#[trigger] rest[k]).is_some() implies rest[k]->0.id
            != rest[i]->0.id by {
            assert(rest[k] == replies[k]);
        }
        assert(rest[i] == replies[i]);
        law_workers_know_best(completed, rest, i);
        if replies.last().is_some() {
            assert(replies[last].is_some());
        }
    }
}

} // verus!
