//! The files and folders that a download consists of.

use vstd::prelude::*;
use crate::download::file_name::FileName;
#[allow(unused_imports)]
use crate::download::file_name::{candidate, chosen_name, spec_file_name, NameModel};
use crate::download::hosts::tasks::FileTask;
use crate::download::status::{DownloadStatus, FileStatus, StateBucketCounters};
use crate::utils::blocks::Blocks;
#[allow(unused_imports)]
use crate::utils::blocks::ones;
use crate::utils::file_utils::{leaves_no_name, normalize_filename, TargetOs};
#[allow(unused_imports)]
use crate::utils::file_utils::{
    cleaned, law_normalize_keeps_emptiness, law_normalized_is_valid, name_problem, names_nothing,
    normalized,
};
use crate::utils::paths::ItemPath;
#[allow(unused_imports)]
use crate::utils::paths::{spec_join, spec_parent};
use crate::utils::urls::{host_or_label, Host};
#[allow(unused_imports)]
use crate::utils::urls::{host_label, host_of_url, HostModel};

verus! {

/// The number of a download.
#[derive(Debug, Clone, Copy, PartialEq, Eq, PartialOrd, Ord, Hash, Structural)]
pub struct DownloadId(pub usize);

/// The number of a file within its download.
#[derive(Debug, Clone, Copy, PartialEq, Eq, PartialOrd, Ord, Hash, Structural)]
pub struct FileId(pub usize);

/// The number of a folder within its download.
#[derive(Debug, Clone, Copy, PartialEq, Eq, PartialOrd, Ord, Hash, Structural)]
pub struct FolderId(pub usize);

/// The number of a file or of a folder.
#[derive(Debug, Clone, Copy, PartialEq, Eq, Structural)]
pub enum ItemId {
    Folder(FolderId),
    File(FileId),
}

/// What a server says of a file's size.
#[derive(Debug, Clone, Copy, PartialEq, Eq, Structural)]
pub enum FileSize {
    Unknown,
    Known(u64),
}

/// What is being done for an item at the moment. It is never stored.
#[derive(Debug, Clone, Copy, PartialEq, Eq, Structural)]
pub enum ActiveOperation {
    Verifying,
    Queued,
    Downloading,
    Paused,
    /// Waiting, for so many milliseconds.
    Waiting(u128),
}

/// An item whose state changed.
#[allow(inconsistent_fields)]
#[derive(Debug, Clone, Copy, PartialEq, Eq, Structural)]
pub enum ChangedItemStatus {
    File { id: FileId, status: FileStatus },
    Folder { id: FolderId, status: DownloadStatus },
    Download(DownloadStatus),
}

/// An item for which something else is being done now.
#[allow(inconsistent_fields)]
#[derive(Debug, Clone, Copy, PartialEq, Eq, Structural)]
pub enum ChangedItemOperation {
    File { id: FileId, operation: Option<ActiveOperation> },
    Folder { id: FolderId, operation: Option<ActiveOperation> },
    Download(Option<ActiveOperation>),
}

/// An item that was paused or taken up again.
#[allow(inconsistent_fields)]
#[derive(Debug, Clone, Copy, PartialEq, Eq, Structural)]
pub enum ChangedItemPause {
    File { id: FileId, is_paused: bool },
    Folder { id: FolderId, is_paused: bool },
    Download(bool),
}

/// What a file and a folder have in common.
pub trait DownloadItem: Sized {
    type Id;

    type Status;

    spec fn spec_parent_id(&self) -> Option<FolderId>;

    spec fn spec_id(&self) -> Self::Id;

    spec fn spec_path(&self) -> Seq<Seq<u8>>;

    spec fn spec_name(&self) -> Seq<char>;

    spec fn spec_operation(&self) -> Option<ActiveOperation>;

    spec fn spec_status(&self) -> Self::Status;

    spec fn spec_paused(&self) -> bool;

    /// The folder that the item lies in.
    fn parent_id(&self) -> (r: Option<FolderId>)
        ensures
            r == self.spec_parent_id(),
    ;

    /// The item's number.
    fn id(&self) -> (r: Self::Id)
        ensures
            r == self.spec_id(),
    ;

    /// Where the item lies on disk.
    fn relative_path(&self) -> (r: &ItemPath)
        ensures
            r@ == self.spec_path(),
    ;

    /// The item's name.
    fn name(&self) -> (r: &str)
        ensures
            r@ == self.spec_name(),
    ;

    /// What is being done for the item.
    fn active_operation(&self) -> (r: Option<ActiveOperation>)
        ensures
            r == self.spec_operation(),
    ;

    /// How far the item has come.
    fn status(&self) -> (r: Self::Status)
        ensures
            r == self.spec_status(),
    ;

    /// Whether the item is paused.
    fn is_paused(&self) -> (r: bool)
        ensures
            r == self.spec_paused(),
    ;
}

/// A file of a download.
pub struct FileDownload {
    pub parent_id: Option<FolderId>,
    pub id: FileId,
    pub url: String,
    pub host: Host,
    pub filename: FileName,
    pub relative_path: ItemPath,
    pub status: FileStatus,
    pub is_paused: bool,
    pub active_operation: Option<ActiveOperation>,
    pub hash: Option<u128>,
    pub blocks: Blocks,
    pub chunk_hashes: Vec<Option<[u8; 16]>>,
    /// `None` until the server has been asked.
    pub size: Option<FileSize>,
    /// How many tries have failed in a row.
    pub retries: usize,
}

/// A folder of a download.
pub struct FolderDownload {
    pub parent_id: Option<FolderId>,
    pub id: FolderId,
    pub folder_name: String,
    pub relative_path: ItemPath,
    pub active_operation: Option<ActiveOperation>,
    pub status: DownloadStatus,
    pub is_paused: bool,
    pub child_files: Vec<FileId>,
    pub child_folders: Vec<FolderId>,
    /// How many of the children are in each bucket.
    pub bucket_counters: StateBucketCounters,
}

/// A file, in mathematical values.
#[verifier::ext_equal]
pub struct FileModel {
    pub parent_id: Option<FolderId>,
    pub id: FileId,
    pub url: Seq<char>,
    pub host: HostModel,
    pub name: NameModel,
    pub path: Seq<Seq<u8>>,
    pub status: FileStatus,
    pub is_paused: bool,
    pub active_operation: Option<ActiveOperation>,
    pub hash: Option<u128>,
    pub blocks: Seq<bool>,
    pub chunk_hashes: Seq<Option<Seq<u8>>>,
    pub size: Option<FileSize>,
    pub retries: usize,
}

/// A folder, in mathematical values.
#[verifier::ext_equal]
pub struct FolderModel {
    pub parent_id: Option<FolderId>,
    pub id: FolderId,
    pub name: Seq<char>,
    pub path: Seq<Seq<u8>>,
    pub active_operation: Option<ActiveOperation>,
    pub status: DownloadStatus,
    pub is_paused: bool,
    pub child_files: Seq<FileId>,
    pub child_folders: Seq<FolderId>,
    pub counters: Seq<usize>,
}

/// The digest of each chunk that has one.
pub open spec fn hashes_of(v: Seq<Option<[u8; 16]>>) -> Seq<Option<Seq<u8>>> {
    Seq::new(
        v.len(),
        |i: int|
            match v[i] {
                Some(h) => Some(h@),
                None => None,
            },
    )
}

impl View for FileDownload {
    type V = FileModel;

    open spec fn view(&self) -> FileModel {
        FileModel {
            parent_id: self.parent_id,
            id: self.id,
            url: self.url@,
            host: self.host@,
            name: self.filename@,
            path: self.relative_path@,
            status: self.status,
            is_paused: self.is_paused,
            active_operation: self.active_operation,
            hash: self.hash,
            blocks: self.blocks@,
            chunk_hashes: hashes_of(self.chunk_hashes@),
            size: self.size,
            retries: self.retries,
        }
    }
}

impl View for FolderDownload {
    type V = FolderModel;

    open spec fn view(&self) -> FolderModel {
        FolderModel {
            parent_id: self.parent_id,
            id: self.id,
            name: self.folder_name@,
            path: self.relative_path@,
            active_operation: self.active_operation,
            status: self.status,
            is_paused: self.is_paused,
            child_files: self.child_files@,
            child_folders: self.child_folders@,
            counters: self.bucket_counters.data@,
        }
    }
}

impl DownloadItem for FileDownload {
    type Id = FileId;

    type Status = FileStatus;

    open spec fn spec_parent_id(&self) -> Option<FolderId> {
        self@.parent_id
    }

    open spec fn spec_id(&self) -> FileId {
        self@.id
    }

    open spec fn spec_path(&self) -> Seq<Seq<u8>> {
        self@.path
    }

    open spec fn spec_name(&self) -> Seq<char> {
        chosen_name(self@.name)
    }

    open spec fn spec_operation(&self) -> Option<ActiveOperation> {
        self@.active_operation
    }

    open spec fn spec_status(&self) -> FileStatus {
        self@.status
    }

    open spec fn spec_paused(&self) -> bool {
        self@.is_paused
    }

    fn parent_id(&self) -> (r: Option<FolderId>) {
        self.parent_id
    }

    fn id(&self) -> (r: FileId) {
        self.id
    }

    fn relative_path(&self) -> (r: &ItemPath) {
        &self.relative_path
    }

    fn name(&self) -> (r: &str) {
        self.filename.as_str()
    }

    fn active_operation(&self) -> (r: Option<ActiveOperation>) {
        self.active_operation
    }

    fn status(&self) -> (r: FileStatus) {
        self.status
    }

    fn is_paused(&self) -> (r: bool) {
        self.is_paused
    }
}

impl DownloadItem for FolderDownload {
    type Id = FolderId;

    type Status = DownloadStatus;

    open spec fn spec_parent_id(&self) -> Option<FolderId> {
        self@.parent_id
    }

    open spec fn spec_id(&self) -> FolderId {
        self@.id
    }

    open spec fn spec_path(&self) -> Seq<Seq<u8>> {
        self@.path
    }

    open spec fn spec_name(&self) -> Seq<char> {
        self@.name
    }

    open spec fn spec_operation(&self) -> Option<ActiveOperation> {
        self@.active_operation
    }

    open spec fn spec_status(&self) -> DownloadStatus {
        self@.status
    }

    open spec fn spec_paused(&self) -> bool {
        self@.is_paused
    }

    fn parent_id(&self) -> (r: Option<FolderId>) {
        self.parent_id
    }

    fn id(&self) -> (r: FolderId) {
        self.id
    }

    fn relative_path(&self) -> (r: &ItemPath) {
        &self.relative_path
    }

    fn name(&self) -> (r: &str) {
        self.folder_name.as_str()
    }

    fn active_operation(&self) -> (r: Option<ActiveOperation>) {
        self.active_operation
    }

    fn status(&self) -> (r: DownloadStatus) {
        self.status
    }

    fn is_paused(&self) -> (r: bool) {
        self.is_paused
    }
}

/// How many bytes of a file lie in the blocks from `start` up to `end`.
pub open spec fn span_len(block_size: nat, start: nat, end: nat, file_size: nat) -> nat {
    let from = start * block_size;
    let to = if end * block_size < file_size {
        end * block_size
    } else {
        file_size
    };
    if to > from {
        (to - from) as nat
    } else {
        0
    }
}

/// How many bytes of a file are counted as on disk: the size of a complete file;
/// else a full block for each block that is there, with the last block counted for
/// what it holds; nothing while the size is not known.
pub open spec fn downloaded_bytes(f: FileModel, block_size: nat) -> nat {
    match f.size {
        Some(FileSize::Known(size)) => if f.blocks.len() == 0 {
            0
        } else if f.status is Completed {
            size as nat
        } else if f.blocks.last() {
            ((ones(f.blocks) - 1) * block_size + span_len(
                block_size,
                (f.blocks.len() - 1) as nat,
                f.blocks.len(),
                size as nat,
            )) as nat
        } else {
            ones(f.blocks) * block_size
        },
        _ => 0,
    }
}

/// A sequence has no more set bits than bits, and one at least if the last is set.
pub proof fn lemma_ones_bounds(bits: Seq<bool>)
    ensures
        ones(bits) <= bits.len(),
        bits.len() > 0 && bits.last() ==> ones(bits) >= 1,
    decreases bits.len(),
{
    if bits.len() > 0 {
        lemma_ones_bounds(bits.drop_last());
    }
}

/// A file as it stands before anything of it has been fetched.
pub open spec fn new_file(
    target: TargetOs,
    task: FileTask,
    folder_path: Seq<Seq<u8>>,
    id: FileId,
    parent_id: Option<FolderId>,
) -> FileModel {
    let name = spec_file_name(target, task.url@, Some(task.file_name@));
    FileModel {
        parent_id,
        id,
        url: task.url@,
        host: host_label(task.url@, host_of_url(task.url@)),
        name,
        path: spec_join(folder_path, chosen_name(name)),
        status: FileStatus::Uninitialized,
        is_paused: false,
        active_operation: None,
        hash: None,
        blocks: Seq::empty(),
        chunk_hashes: Seq::empty(),
        size: None,
        retries: 0,
    }
}

impl FileDownload {
    /// A file that a plugin found, to lie in the folder at `relative_path`.
    pub fn new(
        file_task: &FileTask,
        relative_path: &ItemPath,
        id: FileId,
        parent_id: Option<FolderId>,
        target: TargetOs,
    ) -> (r: Self)
        ensures
            r@ == new_file(target, *file_task, relative_path@, id, parent_id),
    {
        let filename = FileName::new(
            file_task.url.as_str(),
            Some(file_task.file_name.clone()),
            target,
        );
        let path = relative_path.join(filename.as_str());
        let host = host_or_label(file_task.url.as_str());
        let r = FileDownload {
            parent_id,
            id,
            url: file_task.url.clone(),
            host,
            filename,
            relative_path: path,
            status: FileStatus::Uninitialized,
            is_paused: false,
            active_operation: None,
            hash: None,
            blocks: Blocks::new(),
            chunk_hashes: Vec::new(),
            size: None,
            retries: 0,
        };
        assert(r@.chunk_hashes =~= Seq::<Option<Seq<u8>>>::empty());
        r
    }

    /// How many bytes of the file are counted as on disk, in blocks of
    /// `chunk_size` bytes.
    pub fn calculate_initial_bytes(&self, chunk_size: u64) -> (n: u64)
        requires
            self@.blocks.len() * chunk_size <= u64::MAX,
        ensures
            n as nat == downloaded_bytes(self@, chunk_size as nat),
    {
        let count: usize = self.blocks.len();
        if count == 0 {
            return 0;
        }
        let size: u64 = match self.size {
            Some(FileSize::Known(size)) => size,
            _ => {
                return 0;
            },
        };
        if let FileStatus::Completed = self.status {
            return size;
        }
        let set: u64 = self.blocks.count_ones() as u64;
        let total: u64 = count as u64;
        proof {
            lemma_ones_bounds(self@.blocks);
            assert(set * chunk_size <= total * chunk_size) by (nonlinear_arith)
                requires
                    set <= total,
            ;
        }
        if let Some(true) = self.blocks.get(count - 1) {
            proof {
                assert((set - 1) * chunk_size + chunk_size == set * chunk_size)
                    by (nonlinear_arith);
                assert((set - 1) * chunk_size >= 0) by (nonlinear_arith)
                    requires
                        set >= 1,
                ;
                assert((total - 1) * chunk_size + chunk_size == total * chunk_size)
                    by (nonlinear_arith);
            }
            let last: u64 = calculate_chunk_expected_len(chunk_size, (count - 1, count), size);
            (set - 1) * chunk_size + last
        } else {
            set * chunk_size
        }
    }

    /// Whether a file in this state has to be on disk.
    pub open spec fn status_needs_file(status: FileStatus) -> bool {
        status is Partial || status is Completed
    }

    /// Whether the file has to be on disk.
    pub fn must_exist_in_disk(&self) -> (r: bool)
        ensures
            r == Self::status_needs_file(self@.status),
    {
        self.must_exist_with_status(&self.status)
    }

    /// Whether the file would have to be on disk if it were in another state.
    pub fn must_exist_with_status(&self, status: &FileStatus) -> (r: bool)
        ensures
            r == Self::status_needs_file(*status),
    {
        match status {
            FileStatus::Partial | FileStatus::Completed => true,
            FileStatus::Uninitialized | FileStatus::MetadataFetched | FileStatus::Failed(_)
            | FileStatus::NotFound => false,
        }
    }

    /// Takes the name that the server gave. The place on disk follows the name
    /// that wins.
    pub fn set_file_name(&mut self, filename: String, target: TargetOs)
        ensures
            ({
                let name = NameModel {
                    server_name: candidate(target, Some(filename@)),
                    ..old(self)@.name
                };
                final(self)@ == (FileModel {
                    name,
                    path: match spec_parent(old(self)@.path) {
                        Some(folder) => spec_join(folder, chosen_name(name)),
                        None => old(self)@.path,
                    },
                    ..old(self)@
                })
            }),
    {
        self.filename.set_server_name(Some(filename), target);
        if let Some(folder) = self.relative_path.parent() {
            self.relative_path = folder.join(self.filename.as_str());
        }
    }

    /// The blocks of the file.
    pub fn blocks(&self) -> (r: &Blocks)
        ensures
            r@ == self@.blocks,
    {
        &self.blocks
    }

    /// The digest of each chunk.
    pub fn chunk_hashes(&self) -> (r: &Vec<Option<[u8; 16]>>)
        ensures
            hashes_of(r@) == self@.chunk_hashes,
    {
        &self.chunk_hashes
    }

    /// The digest of the whole file.
    pub fn hash(&self) -> (r: Option<u128>)
        ensures
            r == self@.hash,
    {
        self.hash
    }

    /// Where the file comes from.
    pub fn url(&self) -> (r: &String)
        ensures
            r@ == self@.url,
    {
        &self.url
    }

    /// The host that the file comes from.
    pub fn host(&self) -> (r: &Host)
        ensures
            r@ == self@.host,
    {
        &self.host
    }

    /// The names that the file could be saved under.
    pub fn filename(&self) -> (r: &FileName)
        ensures
            r@ == self@.name,
    {
        &self.filename
    }

    /// What is known of the file's size.
    pub fn size(&self) -> (r: Option<FileSize>)
        ensures
            r == self@.size,
    {
        self.size
    }

    /// Notes what the server said of the file's size.
    pub fn set_size(&mut self, size: FileSize)
        ensures
            final(self)@ == (FileModel { size: Some(size), ..old(self)@ }),
    {
        self.size = Some(size);
    }

    /// How many tries have failed in a row.
    pub fn retries(&self) -> (r: usize)
        ensures
            r == self@.retries,
    {
        self.retries
    }

    /// Counts a failed try.
    pub fn increment_retries(&mut self)
        requires
            old(self)@.retries < usize::MAX,
        ensures
            final(self)@ == (FileModel {
                retries: (old(self)@.retries + 1) as usize,
                ..old(self)@
            }),
    {
        self.retries = self.retries + 1;
    }

    /// Forgets the failed tries.
    pub fn reset_retries(&mut self)
        ensures
            final(self)@ == (FileModel { retries: 0, ..old(self)@ }),
    {
        self.retries = 0;
    }
}

/// How many bytes of a file of `file_size` bytes lie in the blocks of
/// `chunk_size` bytes from `range.0` up to `range.1`.
pub fn calculate_chunk_expected_len(chunk_size: u64, range: (usize, usize), file_size: u64) -> (n:
    u64)
    requires
        range.0 * chunk_size <= u64::MAX,
        range.1 * chunk_size <= u64::MAX,
    ensures
        n as nat == span_len(
            chunk_size as nat,
            range.0 as nat,
            range.1 as nat,
            file_size as nat,
        ),
        n <= file_size,
        range.0 <= range.1 ==> n <= (range.1 - range.0) * chunk_size,
{
    let start_byte: u64 = range.0 as u64 * chunk_size;
    let theoretical_end: u64 = range.1 as u64 * chunk_size;
    let actual_end: u64 = if theoretical_end < file_size {
        theoretical_end
    } else {
        file_size
    };
    proof {
        assert((range.1 - range.0) * chunk_size == range.1 * chunk_size - range.0 * chunk_size)
            by (nonlinear_arith);
        assert(range.0 <= range.1 ==> (range.1 - range.0) * chunk_size >= 0) by (nonlinear_arith);
    }
    actual_end.saturating_sub(start_byte)
}

/// The name that a folder gets: the suggested one, made valid, or a plain one if
/// that names nothing.
pub open spec fn folder_name_of(target: TargetOs, suggested: Seq<char>) -> Seq<char> {
    if names_nothing(cleaned(target, suggested)) {
        "folder"@
    } else {
        normalized(target, suggested)
    }
}

/// The name that a folder gets.
pub fn usable_folder_name(suggested: &str, target: TargetOs) -> (r: String)
    ensures
        r@ == folder_name_of(target, suggested@),
{
    if leaves_no_name(suggested, target) {
        "folder".to_owned()
    } else {
        normalize_filename(suggested, target)
    }
}

/// A folder gets a valid name whatever was suggested.
pub proof fn law_folder_names_are_valid(target: TargetOs, suggested: Seq<char>)
    ensures
        name_problem(target, folder_name_of(target, suggested)).is_none(),
{
    if names_nothing(cleaned(target, suggested)) {
        let s = "folder"@;
        reveal_strlit("folder");
        assert(s =~= seq!['f', 'o', 'l', 'd', 'e', 'r']);
        crate::utils::file_utils::lemma_byte_len_bounds(s);
        assert(!s.contains('\0'));
        assert(!s.contains('/'));
        assert(!s.contains('\\'));
        lemma_folder_is_no_device(s);
    } else {
        law_normalize_keeps_emptiness(target, suggested);
        law_normalized_is_valid(target, suggested);
    }
}

proof fn lemma_folder_is_no_device(s: Seq<char>)
    requires
        s =~= seq!['f', 'o', 'l', 'd', 'e', 'r'],
    ensures
        !crate::utils::file_utils::spec_is_reserved_dos_name(s),
{
    reveal_with_fuel(crate::utils::file_utils::stem, 8);
    assert(crate::utils::file_utils::stem(s).len() == 6);
}

} // verus!
