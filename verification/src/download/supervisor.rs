//! The work on one download: what is done when something happens.

use std::collections::HashSet;
use std::ops::Range;

use vstd::prelude::*;
use crate::client_state_manager::FileUpdate;
use crate::download::error::FileFailureReason;
#[allow(unused_imports)]
use crate::download::fetched::{
    block_count, described, first_chunk, ranged, streamed, trackable,
};
use crate::download::hosts::failures::{PermanentFailure, PermanentFailureKind};
use crate::download::hosts::jobs::{DownloadResult, MetadataResult};
#[allow(unused_imports)]
use crate::download::items::{downloaded_bytes, FileModel, FolderModel};
use crate::download::items::{
    ActiveOperation, ChangedItemOperation, ChangedItemStatus, FileId, FileSize, FolderId,
};
#[allow(unused_imports)]
use crate::download::operations::{
    law_one_operation_changes_nothing_else, law_operations_change_nothing_else,
    same_but_operations, spec_set_active_operation, spec_set_file_active_operation,
};
use crate::download::ranges::RangeInfo;
#[allow(unused_imports)]
use crate::download::ranges::{ranges_from, RangeModel};
use crate::download::status::{DownloadStatus, FileStatus, StatusBucket};
#[allow(unused_imports)]
use crate::download::tables::{find_file, unique_files};
use crate::download::tree::Download;
#[allow(unused_imports)]
use crate::download::tree::{
    failable, fail_each, keeps_count, lemma_count_less, lemma_set_status_keeps_count, room,
    spec_set_all_files_failed, spec_set_file_status, DownloadModel,
};
#[allow(unused_imports)]
use crate::download::tree_laws::{
    law_set_file_status_sets_one_file, lemma_find_file_same, lemma_found_file,
    lemma_replaced_keeps_count, lemma_same_tree, same_tree, tree_ok,
};
use crate::utils::file_utils::TargetOs;
use crate::utils::urls::Host;
#[allow(unused_imports)]
use crate::utils::urls::HostModel;

verus! {

broadcast use vstd::std_specs::hash::group_hash_axioms;

/// How many bytes a block has.
pub const BLOCK_SIZE: usize = 16384;

/// How many bytes a chunk with a digest of its own has.
pub const HASH_CHUNK_SIZE: usize = 1048576;

/// How many blocks share a digest.
pub const BLOCKS_PER_HASH: usize = 64;

/// How many blocks a range should have.
pub const TARGET_RANGE_SIZE: usize = 320;

/// What a download is told to do.
#[derive(Debug, Clone, Copy, PartialEq, Eq, Structural)]
pub enum DownloadCommand {
    Cancel { from_disk: bool },
    Pause,
    Resume,
    Finish,
}

/// A file of which nothing is known yet.
pub struct MetadataInfo {
    pub file_id: FileId,
    pub url: String,
    pub host: Host,
}

/// A file of which nothing is known yet, in mathematical values.
pub struct MetadataModel {
    pub file_id: FileId,
    pub url: Seq<char>,
    pub host: HostModel,
}

impl View for MetadataInfo {
    type V = MetadataModel;

    open spec fn view(&self) -> MetadataModel {
        MetadataModel { file_id: self.file_id, url: self.url@, host: self.host@ }
    }
}

impl MetadataInfo {
    /// A file of which nothing is known yet.
    pub fn new(file_id: FileId, url: String, host: Host) -> (r: Self)
        ensures
            r@ == (MetadataModel { file_id, url: url@, host: host@ }),
    {
        MetadataInfo { file_id, url, host }
    }
}

/// How far the work on a download is.
#[derive(Debug, Clone, Copy, PartialEq, Eq, Structural)]
pub enum Phase {
    /// What is on disk is compared with what should be, or this waits to be resumed.
    Verifying { awaiting: bool },
    /// What is missing is fetched.
    Downloading,
    /// Nothing more is done.
    Ended,
}

/// The work on one download.
pub struct DownloadSupervisor {
    pub download: Download,
    phase: Phase,
    open: HashSet<usize>,
}

/// The work on one download, in mathematical values.
#[verifier::ext_equal]
pub struct SupervisorModel {
    pub download: DownloadModel,
    pub phase: Phase,
    /// The files that are open for writing ranges.
    pub open: Set<usize>,
}

impl View for DownloadSupervisor {
    type V = SupervisorModel;

    closed spec fn view(&self) -> SupervisorModel {
        SupervisorModel { download: self.download@, phase: self.phase, open: self.open@ }
    }
}

/// Something that happened.
pub enum SupervisorEvent {
    /// It is time to save.
    Tick,
    Command(DownloadCommand),
    /// The download was compared with what is on disk.
    Verified(Download),
    /// It will never be.
    VerifierLost,
    /// A job ended.
    Result(DownloadResult),
    /// Something else is being done for a file.
    Operation(FileId, ActiveOperation),
}

/// Something to be done.
pub enum SupervisorAction {
    ShowOperations(Vec<ChangedItemOperation>),
    ShowStatuses(Vec<ChangedItemStatus>),
    ShowFile(FileUpdate),
    ShowRemoved,
    Save,
    StartVerification,
    CancelVerification,
    /// Delete the files and the folders of the download.
    DeleteFromDisk,
    DeleteFromDatabase,
    TellRemoved,
    TellFinished,
    /// Stop all jobs.
    CancelJobs,
    /// Forget what the stopped jobs still report, and begin anew.
    RenewJobs,
    QueueMetadata(Vec<MetadataInfo>),
    /// Queue the ranges of a file. `opened` says how many of its bytes count as on
    /// disk if it has to be opened first.
    QueueRanges { file_id: FileId, opened: Option<u64>, ranges: Vec<RangeInfo> },
    QueueStream { file_id: FileId },
    /// Send the command to finish.
    Finish,
    Stop,
}

/// Something to be done, in mathematical values.
pub enum ActionModel {
    ShowOperations(Seq<ChangedItemOperation>),
    ShowStatuses(Seq<ChangedItemStatus>),
    ShowFile(FileUpdate),
    ShowRemoved,
    Save,
    StartVerification,
    CancelVerification,
    DeleteFromDisk,
    DeleteFromDatabase,
    TellRemoved,
    TellFinished,
    CancelJobs,
    RenewJobs,
    QueueMetadata(Seq<MetadataModel>),
    QueueRanges { file_id: FileId, opened: Option<u64>, ranges: Seq<RangeModel> },
    QueueStream { file_id: FileId },
    Finish,
    Stop,
}

impl View for SupervisorAction {
    type V = ActionModel;

    open spec fn view(&self) -> ActionModel {
        match *self {
            SupervisorAction::ShowOperations(v) => ActionModel::ShowOperations(v@),
            SupervisorAction::ShowStatuses(v) => ActionModel::ShowStatuses(v@),
            SupervisorAction::ShowFile(u) => ActionModel::ShowFile(u),
            SupervisorAction::ShowRemoved => ActionModel::ShowRemoved,
            SupervisorAction::Save => ActionModel::Save,
            SupervisorAction::StartVerification => ActionModel::StartVerification,
            SupervisorAction::CancelVerification => ActionModel::CancelVerification,
            SupervisorAction::DeleteFromDisk => ActionModel::DeleteFromDisk,
            SupervisorAction::DeleteFromDatabase => ActionModel::DeleteFromDatabase,
            SupervisorAction::TellRemoved => ActionModel::TellRemoved,
            SupervisorAction::TellFinished => ActionModel::TellFinished,
            SupervisorAction::CancelJobs => ActionModel::CancelJobs,
            SupervisorAction::RenewJobs => ActionModel::RenewJobs,
            SupervisorAction::QueueMetadata(v) => ActionModel::QueueMetadata(
                v@.map_values(|i: MetadataInfo| i@),
            ),
            SupervisorAction::QueueRanges { file_id, opened, ranges } => ActionModel::QueueRanges {
                file_id,
                opened,
                ranges: ranges@.map_values(|i: RangeInfo| i@),
            },
            SupervisorAction::QueueStream { file_id } => ActionModel::QueueStream { file_id },
            SupervisorAction::Finish => ActionModel::Finish,
            SupervisorAction::Stop => ActionModel::Stop,
        }
    }
}

/// Actions, in mathematical values.
pub open spec fn actions_view(actions: Seq<SupervisorAction>) -> Seq<ActionModel> {
    actions.map_values(|a: SupervisorAction| a@)
}

/// Whether every block is there.
pub open spec fn all_there(blocks: Seq<bool>) -> bool {
    forall|i: int| 0 <= i < blocks.len() ==> blocks[i]
}

/// The files of which nothing is known yet.
pub open spec fn metadata_jobs(files: Seq<FileModel>) -> Seq<MetadataModel>
    decreases files.len(),
{
    if files.len() == 0 {
        Seq::empty()
    } else {
        let before = metadata_jobs(files.drop_last());
        let file = files.last();
        if file.size.is_none() {
            before.push(MetadataModel { file_id: file.id, url: file.url, host: file.host })
        } else {
            before
        }
    }
}

/// The ranges of a file are queued, and the file is open from then on.
pub open spec fn queue_ranges(f: FileModel, size: u64, open: Set<usize>) -> ActionModel {
    ActionModel::QueueRanges {
        file_id: f.id,
        opened: if open.contains(f.id.0) {
            None
        } else {
            Some(downloaded_bytes(f, BLOCK_SIZE as nat) as u64)
        },
        ranges: ranges_from(f.blocks, size as nat, 0),
    }
}

/// Queues what is missing of the first `n` files. Nothing is missing of a file that
/// is complete or has all its blocks, and nothing can be asked of one of which nothing
/// is known.
pub open spec fn queue_first(files: Seq<FileModel>, n: nat, open: Set<usize>) -> (Set<usize>, Seq<
    ActionModel,
>)
    decreases n,
{
    if n == 0 {
        (open, Seq::empty())
    } else {
        let before = queue_first(files, (n - 1) as nat, open);
        let f = files[n - 1];
        match f.size {
            Some(FileSize::Known(size)) => if f.status is Completed || all_there(f.blocks) {
                before
            } else {
                (before.0.insert(f.id.0), before.1.push(queue_ranges(f, size, before.0)))
            },
            Some(FileSize::Unknown) => (
                before.0,
                before.1.push(ActionModel::QueueStream { file_id: f.id }),
            ),
            None => before,
        }
    }
}

/// What a client is told of changed states.
pub open spec fn status_actions(changed: Option<Seq<ChangedItemStatus>>) -> Seq<ActionModel> {
    match changed {
        Some(items) => seq![ActionModel::ShowStatuses(items)],
        None => Seq::empty(),
    }
}

/// A download that is complete is to finish.
pub open spec fn finish_actions(d: DownloadModel) -> Seq<ActionModel> {
    if d.status is Completed {
        seq![ActionModel::Finish]
    } else {
        Seq::empty()
    }
}

/// What removes a download.
pub open spec fn remove_actions(from_disk: bool) -> Seq<ActionModel> {
    (if from_disk {
        seq![ActionModel::DeleteFromDisk]
    } else {
        Seq::empty()
    }) + seq![
        ActionModel::DeleteFromDatabase,
        ActionModel::ShowRemoved,
        ActionModel::TellRemoved,
        ActionModel::Stop,
    ]
}

/// The work begins: the download is compared with what is on disk.
pub open spec fn started(m: SupervisorModel) -> (SupervisorModel, Seq<ActionModel>) {
    let (download, changed) = spec_set_active_operation(
        m.download,
        Some(ActiveOperation::Verifying),
    );
    (
        SupervisorModel { download, phase: Phase::Verifying { awaiting: true }, ..m },
        seq![
            ActionModel::ShowOperations(changed),
            ActionModel::Save,
            ActionModel::StartVerification,
        ],
    )
}

/// What a command does while the download is compared with what is on disk.
pub open spec fn commanded_early(m: SupervisorModel, command: DownloadCommand) -> (
    SupervisorModel,
    Seq<ActionModel>,
) {
    match command {
        DownloadCommand::Cancel { from_disk } => (
            SupervisorModel { phase: Phase::Ended, ..m },
            seq![ActionModel::CancelVerification] + remove_actions(from_disk),
        ),
        DownloadCommand::Pause => (
            SupervisorModel { phase: Phase::Verifying { awaiting: false }, ..m },
            seq![ActionModel::CancelVerification, ActionModel::Save],
        ),
        DownloadCommand::Resume => (
            SupervisorModel { phase: Phase::Verifying { awaiting: true }, ..m },
            seq![ActionModel::StartVerification],
        ),
        DownloadCommand::Finish => {
            let (download, changed) = spec_set_active_operation(m.download, None);
            (
                SupervisorModel { download, phase: Phase::Ended, ..m },
                seq![
                    ActionModel::Save,
                    ActionModel::ShowOperations(changed),
                    ActionModel::Stop,
                ],
            )
        },
    }
}

/// Everything that is missing is queued.
pub open spec fn queued(m: SupervisorModel) -> (SupervisorModel, Seq<ActionModel>) {
    let (download, changed) = spec_set_active_operation(
        m.download,
        Some(ActiveOperation::Queued),
    );
    let (open, actions) = queue_first(download.files, download.files.len(), m.open);
    (
        SupervisorModel { download, open, ..m },
        seq![ActionModel::ShowOperations(changed)] + actions,
    )
}

/// What a command does while what is missing is fetched.
pub open spec fn commanded(m: SupervisorModel, command: DownloadCommand) -> (
    SupervisorModel,
    Seq<ActionModel>,
) {
    match command {
        DownloadCommand::Cancel { from_disk } => (
            SupervisorModel { phase: Phase::Ended, ..m },
            seq![ActionModel::CancelJobs] + remove_actions(from_disk),
        ),
        DownloadCommand::Pause => {
            let (download, changed) = spec_set_active_operation(
                m.download,
                Some(ActiveOperation::Paused),
            );
            (
                SupervisorModel { download, ..m },
                seq![
                    ActionModel::CancelJobs,
                    ActionModel::RenewJobs,
                    ActionModel::ShowOperations(changed),
                    ActionModel::Save,
                ],
            )
        },
        DownloadCommand::Resume => queued(m),
        DownloadCommand::Finish => (
            SupervisorModel { phase: Phase::Ended, ..m },
            seq![ActionModel::Save, ActionModel::TellFinished, ActionModel::Stop],
        ),
    }
}

/// The download was compared with what is on disk, and what is missing is fetched.
pub open spec fn verified(m: SupervisorModel, download: DownloadModel) -> (
    SupervisorModel,
    Seq<ActionModel>,
) {
    let (after, actions) = queued(SupervisorModel { download, phase: Phase::Downloading, ..m });
    (after, seq![ActionModel::QueueMetadata(metadata_jobs(download.files))] + actions)
}

/// The whole download fails.
pub open spec fn all_failed(
    m: SupervisorModel,
    reason: FileFailureReason,
    gone: Seq<FolderId>,
) -> (SupervisorModel, Seq<ActionModel>) {
    let (download, changed) = spec_set_all_files_failed(m.download, reason, gone);
    (
        SupervisorModel { download, phase: Phase::Ended, ..m },
        seq![ActionModel::ShowStatuses(changed), ActionModel::Save, ActionModel::Stop],
    )
}

/// One file fails.
pub open spec fn one_failed(
    m: SupervisorModel,
    id: FileId,
    reason: FileFailureReason,
    gone: Seq<FolderId>,
) -> (SupervisorModel, Seq<ActionModel>) {
    let (download, changed) = spec_set_file_status(
        m.download,
        id,
        FileStatus::Failed(reason),
        gone,
    );
    (
        SupervisorModel { download, ..m },
        status_actions(changed).push(ActionModel::Save) + finish_actions(download),
    )
}

/// Something was given up.
pub open spec fn given_up(m: SupervisorModel, failure: PermanentFailure, gone: Seq<FolderId>) -> (
    SupervisorModel,
    Seq<ActionModel>,
) {
    let id = failure.operation.spec_file_id();
    match failure.kind {
        PermanentFailureKind::Disk(_) => all_failed(m, FileFailureReason::DiskError, gone),
        PermanentFailureKind::Http(_) => one_failed(m, id, FileFailureReason::ServerError, gone),
        PermanentFailureKind::TooManyRetries { .. } => one_failed(
            m,
            id,
            FileFailureReason::ClientError,
            gone,
        ),
    }
}

/// A download in which a file is replaced.
pub open spec fn with_file_at(d: DownloadModel, i: int, f: FileModel) -> DownloadModel {
    DownloadModel { files: d.files.update(i, f), ..d }
}

/// Something was learned of a file.
pub open spec fn learned(
    m: SupervisorModel,
    id: FileId,
    metadata: MetadataResult,
    target: TargetOs,
) -> (SupervisorModel, Seq<ActionModel>) {
    match find_file(m.download.files, id) {
        None => (m, Seq::empty()),
        Some(i) => match metadata {
            MetadataResult::Stream { file_size, file_name } => {
                let f = described(target, m.download.files[i], file_size, file_name@);
                (
                    SupervisorModel { download: with_file_at(m.download, i, f), ..m },
                    match file_size {
                        FileSize::Known(len) => seq![
                            ActionModel::ShowFile(FileUpdate::FileSize { id, len }),
                            ActionModel::QueueStream { file_id: id },
                        ],
                        FileSize::Unknown => seq![ActionModel::QueueStream { file_id: id }],
                    },
                )
            },
            MetadataResult::Chunked { file_size, file_name } => {
                let f = described(
                    target,
                    m.download.files[i],
                    FileSize::Known(file_size),
                    file_name@,
                );
                (
                    SupervisorModel {
                        download: with_file_at(m.download, i, f),
                        open: m.open.insert(f.id.0),
                        ..m
                    },
                    seq![
                        ActionModel::ShowFile(FileUpdate::FileSize { id, len: file_size }),
                        queue_ranges(f, file_size, m.open),
                    ],
                )
            },
        },
    }
}

/// A file was fetched from beginning to end.
pub open spec fn stream_ended(m: SupervisorModel, id: FileId, bytes: u64, gone: Seq<FolderId>) -> (
    SupervisorModel,
    Seq<ActionModel>,
) {
    match find_file(m.download.files, id) {
        None => (m, Seq::empty()),
        Some(i) => {
            let f = streamed(m.download.files[i], bytes);
            let (download, changed) = spec_set_file_status(
                with_file_at(m.download, i, f),
                id,
                FileStatus::Completed,
                gone,
            );
            (
                SupervisorModel { download, ..m },
                seq![ActionModel::ShowFile(FileUpdate::BytesDownloaded { id, len: bytes })]
                    + status_actions(changed) + finish_actions(download),
            )
        },
    }
}

/// A range of a file was fetched. A file that is all there then is complete.
pub open spec fn range_ended(
    m: SupervisorModel,
    id: FileId,
    range: Range<usize>,
    hashes: Seq<[u8; 16]>,
    gone: Seq<FolderId>,
) -> (SupervisorModel, Seq<ActionModel>) {
    let (begun, first) = spec_set_file_status(m.download, id, FileStatus::Partial, gone);
    let shown = status_actions(first);
    match find_file(begun.files, id) {
        None => (SupervisorModel { download: begun, ..m }, shown),
        Some(i) => {
            let f = ranged(begun.files[i], range.start as nat, range.end as nat, hashes);
            let taken = with_file_at(begun, i, f);
            if all_there(f.blocks) {
                let (idle, operations) = spec_set_file_active_operation(taken, id, None);
                let (download, second) = spec_set_file_status(
                    idle,
                    id,
                    FileStatus::Completed,
                    gone,
                );
                (
                    SupervisorModel { download, open: m.open.remove(id.0), ..m },
                    shown.push(ActionModel::ShowOperations(operations)) + status_actions(second)
                        + finish_actions(download),
                )
            } else {
                (SupervisorModel { download: taken, ..m }, shown)
            }
        },
    }
}

/// A job ended.
pub open spec fn job_ended(
    m: SupervisorModel,
    result: DownloadResult,
    gone: Seq<FolderId>,
    target: TargetOs,
) -> (SupervisorModel, Seq<ActionModel>) {
    match result {
        DownloadResult::Metadata { file_id, metadata } => learned(m, file_id, metadata, target),
        DownloadResult::Stream { file_id, bytes_downloaded } => stream_ended(
            m,
            file_id,
            bytes_downloaded,
            gone,
        ),
        DownloadResult::Range { file_id, range, hashes } => range_ended(
            m,
            file_id,
            range,
            hashes@,
            gone,
        ),
        DownloadResult::Failed(failure) => given_up(m, failure, gone),
    }
}

/// What is done when something happens. What belongs to another phase of the work
/// is not heard.
pub open spec fn supervised(
    m: SupervisorModel,
    event: SupervisorEvent,
    gone: Seq<FolderId>,
    target: TargetOs,
) -> (SupervisorModel, Seq<ActionModel>) {
    match m.phase {
        Phase::Ended => (m, Seq::empty()),
        Phase::Verifying { awaiting } => match event {
            SupervisorEvent::Tick => (m, seq![ActionModel::Save]),
            SupervisorEvent::Command(command) => commanded_early(m, command),
            SupervisorEvent::Verified(download) => if awaiting {
                verified(m, download@)
            } else {
                (m, Seq::empty())
            },
            SupervisorEvent::VerifierLost => if awaiting {
                all_failed(m, FileFailureReason::ClientError, gone)
            } else {
                (m, Seq::empty())
            },
            SupervisorEvent::Result(_) => (m, Seq::empty()),
            SupervisorEvent::Operation(_, _) => (m, Seq::empty()),
        },
        Phase::Downloading => match event {
            SupervisorEvent::Tick => (m, seq![ActionModel::Save]),
            SupervisorEvent::Command(command) => commanded(m, command),
            SupervisorEvent::Verified(_) => (m, Seq::empty()),
            SupervisorEvent::VerifierLost => (m, Seq::empty()),
            SupervisorEvent::Result(result) => job_ended(m, result, gone, target),
            SupervisorEvent::Operation(id, operation) => {
                let (download, changed) = spec_set_file_active_operation(
                    m.download,
                    id,
                    Some(operation),
                );
                (
                    SupervisorModel { download, ..m },
                    seq![ActionModel::ShowOperations(changed)],
                )
            },
        },
    }
}

/// Whether the blocks of every file can be counted in bytes.
pub open spec fn blocks_fit(files: Seq<FileModel>) -> bool {
    forall|i: int|
        0 <= i < files.len() ==> (#[trigger] files[i]).blocks.len() * BLOCK_SIZE <= u64::MAX
}

/// Whether the folders can count the states of their children through an event.
pub open spec fn roomy(d: DownloadModel) -> bool {
    keeps_count(d, (d.files.len() + 2) * d.folders.len())
}

/// Whether every counter is small enough for an event, whatever it counts.
pub open spec fn counters_low(d: DownloadModel) -> bool {
    room(d.folders, (d.files.len() + 2) * d.folders.len())
}

/// Whether a file of which a range was fetched has the blocks and the digests of it.
pub open spec fn range_fits(
    d: DownloadModel,
    id: FileId,
    range: Range<usize>,
    hashes: Seq<[u8; 16]>,
) -> bool {
    find_file(d.files, id) matches Some(i) ==> {
        &&& range.start <= range.end <= d.files[i].blocks.len()
        &&& first_chunk(range.start as nat) + hashes.len() <= d.files[i].chunk_hashes.len()
    }
}

/// Whether what happened can be kept track of.
pub open spec fn event_fits(m: SupervisorModel, event: SupervisorEvent) -> bool {
    match event {
        SupervisorEvent::Verified(download) => download.wf() && blocks_fit(download@.files)
            && roomy(download@),
        SupervisorEvent::Result(DownloadResult::Metadata { metadata, .. }) => match metadata {
            MetadataResult::Stream { file_size: FileSize::Known(n), .. } => trackable(n),
            MetadataResult::Stream { .. } => true,
            MetadataResult::Chunked { file_size, .. } => trackable(file_size),
        },
        SupervisorEvent::Result(DownloadResult::Stream { bytes_downloaded, .. }) => trackable(
            bytes_downloaded,
        ),
        SupervisorEvent::Result(DownloadResult::Range { file_id, range, hashes }) => range_fits(
            m.download,
            file_id,
            range,
            hashes@,
        ),
        _ => true,
    }
}

/// What `roomy` leaves room for.
proof fn lemma_roomy(d: DownloadModel)
    requires
        roomy(d),
    ensures
        keeps_count(d, d.folders.len()),
        keeps_count(d, d.folders.len() + d.folders.len()),
        keeps_count(d, d.files.len() * d.folders.len()),
{
    let files = d.files.len();
    let folders = d.folders.len();
    assert((files + 2) * folders == files * folders + folders + folders) by (nonlinear_arith);
    assert(files * folders >= 0) by (nonlinear_arith);
    lemma_count_less(d, (files + 2) * folders, folders);
    lemma_count_less(d, (files + 2) * folders, folders + folders);
    lemma_count_less(d, (files + 2) * folders, files * folders);
}

/// A state that changes leaves the blocks as they are.
proof fn lemma_status_keeps_blocks(
    d: DownloadModel,
    id: FileId,
    status: FileStatus,
    gone: Seq<FolderId>,
)
    requires
        unique_files(d.files),
    ensures
        blocks_fit(d.files) ==> blocks_fit(spec_set_file_status(d, id, status, gone).0.files),
        unique_files(spec_set_file_status(d, id, status, gone).0.files),
        find_file(spec_set_file_status(d, id, status, gone).0.files, id) == find_file(d.files, id),
        find_file(d.files, id) matches Some(i) ==> 0 <= i < d.files.len() && spec_set_file_status(
            d,
            id,
            status,
            gone,
        ).0.files[i] == (FileModel { status, ..d.files[i] }),
{
    law_set_file_status_sets_one_file(d, id, status, gone);
    let after = spec_set_file_status(d, id, status, gone).0;
    assert forall|i: int, j: int|
        0 <= i < after.files.len() && 0 <= j < after.files.len() && (#[trigger] after.files[i]).id
            == (#[trigger] after.files[j]).id implies i == j by {
        assert(d.files[i].id == d.files[j].id);
    }
    assert(forall|i: int| 0 <= i < d.files.len() ==> (#[trigger] after.files[i]).id == d.files[i].id);
    lemma_find_file_same(d.files, after.files, id);
    if find_file(d.files, id).is_some() {
        lemma_found_file(d.files, id);
    }
}

/// Files that fail keep their blocks.
proof fn lemma_failing_keeps_blocks(
    d: DownloadModel,
    ids: Seq<FileId>,
    reason: FileFailureReason,
    gone: Seq<FolderId>,
)
    requires
        unique_files(d.files),
        blocks_fit(d.files),
    ensures
        blocks_fit(fail_each(d, ids, reason, gone).0.files),
        unique_files(fail_each(d, ids, reason, gone).0.files),
    decreases ids.len(),
{
    if ids.len() > 0 {
        lemma_failing_keeps_blocks(d, ids.drop_last(), reason, gone);
        lemma_status_keeps_blocks(
            fail_each(d, ids.drop_last(), reason, gone).0,
            ids.last(),
            FileStatus::Failed(reason),
            gone,
        );
    }
}

/// What is being done leaves the blocks, and the room for counting, as they are.
proof fn lemma_operations_keep_blocks(a: DownloadModel, b: DownloadModel, n: nat)
    requires
        same_but_operations(a, b),
    ensures
        blocks_fit(b.files) ==> blocks_fit(a.files),
        keeps_count(b, n) ==> keeps_count(a, n),
        a.folders.len() == b.folders.len(),
        a.files.len() == b.files.len(),
{
    assert forall|i: int| blocks_fit(b.files) && 0 <= i < a.files.len() implies (
    #[trigger] a.files[i]).blocks.len() * BLOCK_SIZE <= u64::MAX by {
        assert(a.files[i].blocks == b.files[i].blocks);
        assert(b.files[i].blocks.len() * BLOCK_SIZE <= u64::MAX);
    }
    if tree_ok(b) {
        assert(same_tree(b, a));
        lemma_same_tree(b, a);
    }
    if room(b.folders, n) {
        assert forall|i: int, k: StatusBucket|
            0 <= i < a.folders.len() implies #[trigger] a.folders[i].counters[k.index()] + n
            <= usize::MAX by {
            assert(a.folders[i].counters == b.folders[i].counters);
            assert(b.folders[i].counters[k.index()] + n <= usize::MAX);
        }
        assert forall|i: int| 0 <= i < a.folders.len() implies (
        #[trigger] a.folders[i]).counters.len() == 6 by {
            assert(a.folders[i].counters == b.folders[i].counters);
            assert(b.folders[i].counters.len() == 6);
        }
    }
}

fn tell(out: &mut Vec<SupervisorAction>, action: SupervisorAction)
    ensures
        actions_view(final(out)@) == actions_view(old(out)@).push(action@),
{
    out.push(action);
    assert(actions_view(out@) =~= actions_view(old(out)@).push(action@));
}

fn no_actions() -> (r: Vec<SupervisorAction>)
    ensures
        actions_view(r@) == Seq::<ActionModel>::empty(),
{
    let r: Vec<SupervisorAction> = Vec::new();
    assert(actions_view(r@) =~= Seq::<ActionModel>::empty());
    r
}

impl DownloadSupervisor {
    /// The tables are in order, and the blocks can be counted in bytes.
    pub closed spec fn wf(&self) -> bool {
        self.download.wf() && blocks_fit(self.download@.files)
    }

    /// Takes up the work on a download.
    pub fn new(download: Download) -> (r: Self)
        requires
            download.wf(),
            blocks_fit(download@.files),
        ensures
            r.wf(),
            r@ == (SupervisorModel {
                download: download@,
                phase: Phase::Verifying { awaiting: false },
                open: Set::empty(),
            }),
    {
        let r = DownloadSupervisor {
            download,
            phase: Phase::Verifying { awaiting: false },
            open: HashSet::new(),
        };
        assert(r@.open =~= Set::empty());
        r
    }

    /// How far the work is.
    pub fn phase(&self) -> (r: Phase)
        ensures
            r == self@.phase,
    {
        self.phase
    }

    /// The files of which nothing is known yet.
    pub fn get_metadata_jobs(&self) -> (r: Vec<MetadataInfo>)
        ensures
            r@.map_values(|i: MetadataInfo| i@) == metadata_jobs(self@.download.files),
    {
        let ghost files = self.download@.files;
        let mut r: Vec<MetadataInfo> = Vec::new();
        let n: usize = self.download.files.items.len();
        let mut i: usize = 0;
        assert(r@.map_values(|i: MetadataInfo| i@) =~= metadata_jobs(files.take(0)));
        while i < n
            invariant
                i <= n,
                n == files.len(),
                n == self.download.files.items@.len(),
                files == self.download@.files,
                r@.map_values(|i: MetadataInfo| i@) == metadata_jobs(files.take(i as int)),
            decreases n - i,
        {
            let file = &self.download.files.items[i];
            proof {
                assert(files.take(i + 1).drop_last() =~= files.take(i as int));
                assert(files.take(i + 1).last() == file@);
            }
            if file.size.is_none() {
                let ghost before = r@;
                let info = MetadataInfo::new(file.id, file.url.clone(), file.host.duplicate());
                r.push(info);
                assert(r@.map_values(|i: MetadataInfo| i@) =~= before.map_values(
                    |i: MetadataInfo| i@,
                ).push(info@));
            }
            i += 1;
        }
        assert(files.take(n as int) =~= files);
        r
    }

    /// The ranges of the file at place `i` are queued.
    fn get_range_jobs(&mut self, i: usize, size: u64) -> (r: SupervisorAction)
        requires
            old(self).wf(),
            i < old(self)@.download.files.len(),
        ensures
            final(self).wf(),
            r@ == queue_ranges(old(self)@.download.files[i as int], size, old(self)@.open),
            final(self)@ == (SupervisorModel {
                open: old(self)@.open.insert(old(self)@.download.files[i as int].id.0),
                ..old(self)@
            }),
    {
        let file = &self.download.files.items[i];
        assert(file@ == self.download@.files[i as int]);
        let id: usize = file.id.0;
        let opened: Option<u64> = if self.open.contains(&id) {
            None
        } else {
            Some(file.calculate_initial_bytes(BLOCK_SIZE as u64))
        };
        let ranges = DownloadSupervisor::get_ranges(file, size);
        let file_id = file.id;
        let _ = self.open.insert(id);
        assert(self@.open =~= old(self)@.open.insert(id));
        SupervisorAction::QueueRanges { file_id, opened, ranges }
    }

    /// Queues what is missing of all files.
    fn queue_missing(&mut self, out: &mut Vec<SupervisorAction>)
        requires
            old(self).wf(),
        ensures
            final(self).wf(),
            ({
                let d = old(self)@.download;
                let (open, actions) = queue_first(d.files, d.files.len(), old(self)@.open);
                &&& final(self)@ == (SupervisorModel { open, ..old(self)@ })
                &&& actions_view(final(out)@) == actions_view(old(out)@) + actions
            }),
    {
        let ghost start = self@;
        let ghost files = start.download.files;
        let ghost told = actions_view(out@);
        let n: usize = self.download.files.items.len();
        let mut i: usize = 0;
        assert(told + Seq::<ActionModel>::empty() =~= told);
        while i < n
            invariant
                i <= n,
                n == files.len(),
                n == self.download.files.items@.len(),
                files == start.download.files,
                self.wf(),
                self@ == (SupervisorModel {
                    open: queue_first(files, i as nat, start.open).0,
                    ..start
                }),
                actions_view(out@) == told + queue_first(files, i as nat, start.open).1,
            decreases n - i,
        {
            let file = &self.download.files.items[i];
            assert(file@ == files[i as int]);
            let file_id = file.id;
            let ghost before = queue_first(files, i as nat, start.open);
            match file.size {
                Some(FileSize::Known(size)) => {
                    if file.status != FileStatus::Completed && !file.blocks.all() {
                        let action = self.get_range_jobs(i, size);
                        tell(out, action);
                        assert((told + before.1).push(action@) =~= told + before.1.push(action@));
                    }
                },
                Some(FileSize::Unknown) => {
                    let action = SupervisorAction::QueueStream { file_id };
                    tell(out, action);
                    assert((told + before.1).push(action@) =~= told + before.1.push(action@));
                },
                None => {},
            }
            i += 1;
        }
    }

    /// Notes what is being done for every file that is not done, and has it shown.
    fn operate(&mut self, operation: Option<ActiveOperation>, out: &mut Vec<SupervisorAction>)
        requires
            old(self).wf(),
        ensures
            final(self).wf(),
            ({
                let (download, changed) = spec_set_active_operation(
                    old(self)@.download,
                    operation,
                );
                &&& final(self)@ == (SupervisorModel { download, ..old(self)@ })
                &&& actions_view(final(out)@) == actions_view(old(out)@).push(
                    ActionModel::ShowOperations(changed),
                )
            }),
    {
        proof {
            let d = self.download@;
            law_operations_change_nothing_else(d, operation);
            lemma_operations_keep_blocks(spec_set_active_operation(d, operation).0, d, 0);
        }
        let changed = self.download.set_active_operation(operation);
        tell(out, SupervisorAction::ShowOperations(changed));
    }

    /// Gives a file another state, and has it shown.
    fn set_status(
        &mut self,
        id: FileId,
        status: FileStatus,
        gone: &Vec<FolderId>,
        out: &mut Vec<SupervisorAction>,
    )
        requires
            old(self).wf(),
            keeps_count(old(self)@.download, old(self)@.download.folders.len()),
        ensures
            final(self).wf(),
            ({
                let (download, changed) = spec_set_file_status(
                    old(self)@.download,
                    id,
                    status,
                    gone@,
                );
                &&& final(self)@ == (SupervisorModel { download, ..old(self)@ })
                &&& actions_view(final(out)@) == actions_view(old(out)@) + status_actions(changed)
            }),
    {
        proof {
            lemma_status_keeps_blocks(self.download@, id, status, gone@);
        }
        match self.download.set_file_status(id, status, gone) {
            Some(changed) => {
                let ghost told = actions_view(out@);
                let action = SupervisorAction::ShowStatuses(changed);
                tell(out, action);
                assert(told.push(action@) =~= told + seq![action@]);
            },
            None => {
                assert(actions_view(out@) =~= actions_view(out@) + Seq::<ActionModel>::empty());
            },
        }
    }

    /// A download that is complete is to finish.
    fn finish_if_complete(&self, out: &mut Vec<SupervisorAction>)
        ensures
            actions_view(final(out)@) == actions_view(old(out)@) + finish_actions(
                self@.download,
            ),
    {
        let ghost told = actions_view(out@);
        if self.download.status == DownloadStatus::Completed {
            tell(out, SupervisorAction::Finish);
            assert(told.push(ActionModel::Finish) =~= told + seq![ActionModel::Finish]);
        } else {
            assert(told =~= told + Seq::<ActionModel>::empty());
        }
    }

    /// Removes the download.
    fn remove(from_disk: bool, out: &mut Vec<SupervisorAction>)
        ensures
            actions_view(final(out)@) == actions_view(old(out)@) + remove_actions(from_disk),
    {
        let ghost told = actions_view(out@);
        if from_disk {
            tell(out, SupervisorAction::DeleteFromDisk);
        }
        tell(out, SupervisorAction::DeleteFromDatabase);
        tell(out, SupervisorAction::ShowRemoved);
        tell(out, SupervisorAction::TellRemoved);
        tell(out, SupervisorAction::Stop);
        assert(actions_view(out@) =~= told + remove_actions(from_disk));
    }

    /// Begins the work: the download is compared with what is on disk.
    pub fn start(&mut self) -> (actions: Vec<SupervisorAction>)
        requires
            old(self).wf(),
        ensures
            final(self).wf(),
            (final(self)@, actions_view(actions@)) == started(old(self)@),
    {
        let mut out = no_actions();
        self.operate(Some(ActiveOperation::Verifying), &mut out);
        tell(&mut out, SupervisorAction::Save);
        tell(&mut out, SupervisorAction::StartVerification);
        self.phase = Phase::Verifying { awaiting: true };
        assert(actions_view(out@) =~= started(old(self)@).1);
        out
    }

    fn command_early(&mut self, command: DownloadCommand) -> (actions: Vec<SupervisorAction>)
        requires
            old(self).wf(),
        ensures
            final(self).wf(),
            (final(self)@, actions_view(actions@)) == commanded_early(old(self)@, command),
    {
        let mut out = no_actions();
        match command {
            DownloadCommand::Cancel { from_disk } => {
                tell(&mut out, SupervisorAction::CancelVerification);
                Self::remove(from_disk, &mut out);
                self.phase = Phase::Ended;
            },
            DownloadCommand::Pause => {
                tell(&mut out, SupervisorAction::CancelVerification);
                tell(&mut out, SupervisorAction::Save);
                self.phase = Phase::Verifying { awaiting: false };
            },
            DownloadCommand::Resume => {
                tell(&mut out, SupervisorAction::StartVerification);
                self.phase = Phase::Verifying { awaiting: true };
            },
            DownloadCommand::Finish => {
                tell(&mut out, SupervisorAction::Save);
                self.operate(None, &mut out);
                tell(&mut out, SupervisorAction::Stop);
                self.phase = Phase::Ended;
            },
        }
        assert(actions_view(out@) =~= commanded_early(old(self)@, command).1);
        out
    }

    fn queue(&mut self, out: &mut Vec<SupervisorAction>)
        requires
            old(self).wf(),
        ensures
            final(self).wf(),
            final(self)@ == queued(old(self)@).0,
            actions_view(final(out)@) == actions_view(old(out)@) + queued(old(self)@).1,
    {
        let ghost told = actions_view(out@);
        self.operate(Some(ActiveOperation::Queued), out);
        self.queue_missing(out);
        assert(actions_view(out@) =~= told + queued(old(self)@).1);
    }

    fn command(&mut self, command: DownloadCommand) -> (actions: Vec<SupervisorAction>)
        requires
            old(self).wf(),
        ensures
            final(self).wf(),
            (final(self)@, actions_view(actions@)) == commanded(old(self)@, command),
    {
        let mut out = no_actions();
        match command {
            DownloadCommand::Cancel { from_disk } => {
                tell(&mut out, SupervisorAction::CancelJobs);
                Self::remove(from_disk, &mut out);
                self.phase = Phase::Ended;
            },
            DownloadCommand::Pause => {
                tell(&mut out, SupervisorAction::CancelJobs);
                tell(&mut out, SupervisorAction::RenewJobs);
                self.operate(Some(ActiveOperation::Paused), &mut out);
                tell(&mut out, SupervisorAction::Save);
            },
            DownloadCommand::Resume => {
                self.queue(&mut out);
            },
            DownloadCommand::Finish => {
                tell(&mut out, SupervisorAction::Save);
                tell(&mut out, SupervisorAction::TellFinished);
                tell(&mut out, SupervisorAction::Stop);
                self.phase = Phase::Ended;
            },
        }
        assert(actions_view(out@) =~= commanded(old(self)@, command).1);
        out
    }

    fn begin_downloading(&mut self, download: Download) -> (actions: Vec<SupervisorAction>)
        requires
            old(self).wf(),
            download.wf(),
            blocks_fit(download@.files),
        ensures
            final(self).wf(),
            (final(self)@, actions_view(actions@)) == verified(old(self)@, download@),
    {
        let mut out = no_actions();
        self.download = download;
        self.phase = Phase::Downloading;
        let ghost middle = self@;
        let jobs = self.get_metadata_jobs();
        tell(&mut out, SupervisorAction::QueueMetadata(jobs));
        self.queue(&mut out);
        assert(actions_view(out@) =~= verified(old(self)@, middle.download).1);
        out
    }

    fn fail_all(&mut self, reason: FileFailureReason, gone: &Vec<FolderId>) -> (actions: Vec<
        SupervisorAction,
    >)
        requires
            old(self).wf(),
            roomy(old(self)@.download),
        ensures
            final(self).wf(),
            (final(self)@, actions_view(actions@)) == all_failed(old(self)@, reason, gone@),
    {
        proof {
            lemma_roomy(self.download@);
            lemma_failing_keeps_blocks(
                self.download@,
                failable(self.download@.files),
                reason,
                gone@,
            );
        }
        let mut out = no_actions();
        let changed = self.download.set_all_files_failed(reason, gone);
        tell(&mut out, SupervisorAction::ShowStatuses(changed));
        tell(&mut out, SupervisorAction::Save);
        tell(&mut out, SupervisorAction::Stop);
        self.phase = Phase::Ended;
        assert(actions_view(out@) =~= all_failed(old(self)@, reason, gone@).1);
        out
    }

    fn fail_one(&mut self, id: FileId, reason: FileFailureReason, gone: &Vec<FolderId>) -> (actions:
        Vec<SupervisorAction>)
        requires
            old(self).wf(),
            roomy(old(self)@.download),
        ensures
            final(self).wf(),
            (final(self)@, actions_view(actions@)) == one_failed(old(self)@, id, reason, gone@),
    {
        proof {
            lemma_roomy(self.download@);
        }
        let mut out = no_actions();
        self.set_status(id, FileStatus::Failed(reason), gone, &mut out);
        tell(&mut out, SupervisorAction::Save);
        self.finish_if_complete(&mut out);
        assert(actions_view(out@) =~= one_failed(old(self)@, id, reason, gone@).1);
        out
    }

    /// What is done about something that was given up.
    fn give_up(&mut self, failure: PermanentFailure, gone: &Vec<FolderId>) -> (actions: Vec<
        SupervisorAction,
    >)
        requires
            old(self).wf(),
            roomy(old(self)@.download),
        ensures
            final(self).wf(),
            (final(self)@, actions_view(actions@)) == given_up(old(self)@, failure, gone@),
    {
        let id = failure.operation.file_id();
        match failure.kind {
            PermanentFailureKind::Disk(_) => self.fail_all(FileFailureReason::DiskError, gone),
            PermanentFailureKind::Http(_) => self.fail_one(
                id,
                FileFailureReason::ServerError,
                gone,
            ),
            PermanentFailureKind::TooManyRetries { .. } => self.fail_one(
                id,
                FileFailureReason::ClientError,
                gone,
            ),
        }
    }
}

/// A file that is replaced by one with the same number leaves the table in order.
proof fn lemma_replaced_file(before: Seq<FileModel>, i: int, f: FileModel)
    requires
        unique_files(before),
        blocks_fit(before),
        0 <= i < before.len(),
        f.id == before[i].id,
        f.blocks.len() * BLOCK_SIZE <= u64::MAX,
    ensures
        unique_files(before.update(i, f)),
        blocks_fit(before.update(i, f)),
{
    let after = before.update(i, f);
    assert forall|a: int, b: int|
        0 <= a < after.len() && 0 <= b < after.len() && (#[trigger] after[a]).id == (
        #[trigger] after[b]).id implies a == b by {
        assert(before[a].id == before[b].id);
    }
}

impl DownloadSupervisor {
    /// The file at place `i` learns what a server said of it.
    fn describe_file(&mut self, i: usize, size: FileSize, file_name: String, target: TargetOs)
        requires
            old(self).wf(),
            i < old(self)@.download.files.len(),
            size matches FileSize::Known(n) ==> trackable(n),
        ensures
            final(self).wf(),
            final(self)@ == (SupervisorModel {
                download: with_file_at(
                    old(self)@.download,
                    i as int,
                    described(
                        target,
                        old(self)@.download.files[i as int],
                        size,
                        file_name@,
                    ),
                ),
                ..old(self)@
            }),
    {
        let ghost before = self.download@.files;
        let ghost f = described(target, before[i as int], size, file_name@);
        assert(before[i as int].blocks.len() * BLOCK_SIZE <= u64::MAX);
        self.download.files.items[i].describe(size, file_name, target);
        proof {
            lemma_replaced_file(before, i as int, f);
            assert(self.download@.files =~= before.update(i as int, f));
        }
    }

    /// Takes in what was learned of a file.
    fn learn(&mut self, id: FileId, metadata: MetadataResult, target: TargetOs) -> (actions: Vec<
        SupervisorAction,
    >)
        requires
            old(self).wf(),
            match metadata {
                MetadataResult::Stream { file_size: FileSize::Known(n), .. } => trackable(n),
                MetadataResult::Stream { .. } => true,
                MetadataResult::Chunked { file_size, .. } => trackable(file_size),
            },
        ensures
            final(self).wf(),
            (final(self)@, actions_view(actions@)) == learned(old(self)@, id, metadata, target),
    {
        let mut out = no_actions();
        let i: usize = match self.download.files.find(id) {
            Some(i) => i,
            None => {
                return out;
            },
        };
        match metadata {
            MetadataResult::Stream { file_size, file_name } => {
                self.describe_file(i, file_size, file_name, target);
                if let FileSize::Known(len) = file_size {
                    tell(&mut out, SupervisorAction::ShowFile(FileUpdate::FileSize { id, len }));
                }
                tell(&mut out, SupervisorAction::QueueStream { file_id: id });
            },
            MetadataResult::Chunked { file_size, file_name } => {
                self.describe_file(i, FileSize::Known(file_size), file_name, target);
                tell(
                    &mut out,
                    SupervisorAction::ShowFile(FileUpdate::FileSize { id, len: file_size }),
                );
                let action = self.get_range_jobs(i, file_size);
                tell(&mut out, action);
            },
        }
        assert(actions_view(out@) =~= learned(old(self)@, id, metadata, target).1);
        out
    }

    /// A file was fetched from beginning to end.
    fn end_stream(&mut self, id: FileId, bytes: u64, gone: &Vec<FolderId>) -> (actions: Vec<
        SupervisorAction,
    >)
        requires
            old(self).wf(),
            roomy(old(self)@.download),
            trackable(bytes),
        ensures
            final(self).wf(),
            (final(self)@, actions_view(actions@)) == stream_ended(old(self)@, id, bytes, gone@),
    {
        let mut out = no_actions();
        let i: usize = match self.download.files.find(id) {
            Some(i) => i,
            None => {
                return out;
            },
        };
        let ghost before = self.download@.files;
        let ghost f = streamed(before[i as int], bytes);
        self.download.files.items[i].stream_fetched(bytes);
        proof {
            lemma_replaced_file(before, i as int, f);
            assert(self.download@.files =~= before.update(i as int, f));
            lemma_roomy(old(self).download@);
            lemma_replaced_keeps_count(
                old(self).download@,
                i as int,
                f,
                old(self).download@.folders.len(),
            );
            assert(self.download@ =~= (DownloadModel {
                files: before.update(i as int, f),
                ..old(self).download@
            }));
        }
        tell(
            &mut out,
            SupervisorAction::ShowFile(FileUpdate::BytesDownloaded { id, len: bytes }),
        );
        self.set_status(id, FileStatus::Completed, gone, &mut out);
        self.finish_if_complete(&mut out);
        assert(actions_view(out@) =~= stream_ended(old(self)@, id, bytes, gone@).1);
        out
    }

    /// A range of a file was fetched.
    fn end_range(
        &mut self,
        id: FileId,
        range: &Range<usize>,
        hashes: &Vec<[u8; 16]>,
        gone: &Vec<FolderId>,
    ) -> (actions: Vec<SupervisorAction>)
        requires
            old(self).wf(),
            roomy(old(self)@.download),
            range_fits(old(self)@.download, id, *range, hashes@),
        ensures
            final(self).wf(),
            (final(self)@, actions_view(actions@)) == range_ended(
                old(self)@,
                id,
                *range,
                hashes@,
                gone@,
            ),
    {
        let ghost start = self.download@;
        proof {
            lemma_roomy(start);
            lemma_status_keeps_blocks(start, id, FileStatus::Partial, gone@);
            lemma_set_status_keeps_count(
                start,
                id,
                FileStatus::Partial,
                gone@,
                start.folders.len(),
            );
        }
        let mut out = no_actions();
        self.set_status(id, FileStatus::Partial, gone, &mut out);
        let ghost begun = self.download@;
        let ghost shown = actions_view(out@);
        assert(shown =~= status_actions(
            spec_set_file_status(start, id, FileStatus::Partial, gone@).1,
        ));
        let i: usize = match self.download.files.find(id) {
            Some(i) => i,
            None => {
                return out;
            },
        };
        let ghost f = ranged(
            begun.files[i as int],
            range.start as nat,
            range.end as nat,
            hashes@,
        );
        self.download.files.items[i].range_fetched(range, hashes);
        proof {
            assert(begun.files[i as int].blocks.len() * BLOCK_SIZE <= u64::MAX);
            lemma_replaced_file(begun.files, i as int, f);
            lemma_replaced_keeps_count(begun, i as int, f, begun.folders.len());
            assert(self.download@ =~= (DownloadModel {
                files: begun.files.update(i as int, f),
                ..begun
            }));
        }
        let ghost taken = self.download@;
        assert(self.download.files.items@[i as int]@ == f);
        if !self.download.files.items[i].blocks.all() {
            return out;
        }
        proof {
            law_one_operation_changes_nothing_else(taken, id, None);
            lemma_operations_keep_blocks(
                spec_set_file_active_operation(taken, id, None).0,
                taken,
                taken.folders.len(),
            );
        }
        let changed = self.download.set_file_active_operation(id, None);
        tell(&mut out, SupervisorAction::ShowOperations(changed));
        self.set_status(id, FileStatus::Completed, gone, &mut out);
        let _ = self.open.remove(&id.0);
        assert(self@.open =~= old(self)@.open.remove(id.0));
        self.finish_if_complete(&mut out);
        assert(actions_view(out@) =~= range_ended(old(self)@, id, *range, hashes@, gone@).1);
        out
    }

    /// Takes in what became of a job.
    fn end_job(&mut self, result: DownloadResult, gone: &Vec<FolderId>, target: TargetOs) -> (
    actions: Vec<SupervisorAction>)
        requires
            old(self).wf(),
            roomy(old(self)@.download),
            event_fits(old(self)@, SupervisorEvent::Result(result)),
        ensures
            final(self).wf(),
            (final(self)@, actions_view(actions@)) == job_ended(
                old(self)@,
                result,
                gone@,
                target,
            ),
    {
        match result {
            DownloadResult::Metadata { file_id, metadata } => self.learn(
                file_id,
                metadata,
                target,
            ),
            DownloadResult::Stream { file_id, bytes_downloaded } => self.end_stream(
                file_id,
                bytes_downloaded,
                gone,
            ),
            DownloadResult::Range { file_id, range, hashes } => self.end_range(
                file_id,
                &range,
                &hashes,
                gone,
            ),
            DownloadResult::Failed(failure) => self.give_up(failure, gone),
        }
    }

    /// Takes in something that happened, and says what is to be done. `gone` holds
    /// the folders that are missing from disk.
    pub fn on_event(&mut self, event: SupervisorEvent, gone: &Vec<FolderId>, target: TargetOs) -> (
    actions: Vec<SupervisorAction>)
        requires
            old(self).wf(),
            roomy(old(self)@.download),
            event_fits(old(self)@, event),
        ensures
            final(self).wf(),
            (final(self)@, actions_view(actions@)) == supervised(
                old(self)@,
                event,
                gone@,
                target,
            ),
    {
        match self.phase {
            Phase::Ended => no_actions(),
            Phase::Verifying { awaiting } => match event {
                SupervisorEvent::Tick => {
                    let mut out = no_actions();
                    tell(&mut out, SupervisorAction::Save);
                    out
                },
                SupervisorEvent::Command(command) => self.command_early(command),
                SupervisorEvent::Verified(download) => {
                    if awaiting {
                        self.begin_downloading(download)
                    } else {
                        no_actions()
                    }
                },
                SupervisorEvent::VerifierLost => {
                    if awaiting {
                        self.fail_all(FileFailureReason::ClientError, gone)
                    } else {
                        no_actions()
                    }
                },
                SupervisorEvent::Result(_) => no_actions(),
                SupervisorEvent::Operation(_, _) => no_actions(),
            },
            Phase::Downloading => match event {
                SupervisorEvent::Tick => {
                    let mut out = no_actions();
                    tell(&mut out, SupervisorAction::Save);
                    out
                },
                SupervisorEvent::Command(command) => self.command(command),
                SupervisorEvent::Verified(_) => no_actions(),
                SupervisorEvent::VerifierLost => no_actions(),
                SupervisorEvent::Result(result) => self.end_job(result, gone, target),
                SupervisorEvent::Operation(id, operation) => {
                    let mut out = no_actions();
                    proof {
                        let d = self.download@;
                        law_one_operation_changes_nothing_else(d, id, Some(operation));
                        lemma_operations_keep_blocks(
                            spec_set_file_active_operation(d, id, Some(operation)).0,
                            d,
                            0,
                        );
                    }
                    let changed = self.download.set_file_active_operation(id, Some(operation));
                    tell(&mut out, SupervisorAction::ShowOperations(changed));
                    out
                },
            },
        }
    }
}

/// Whether a file of so many bytes can be kept track of.
pub fn is_trackable(size: u64) -> (r: bool)
    ensures
        r == trackable(size),
{
    let blocks: u64 = if size % 16384 == 0 {
        size / 16384
    } else {
        size / 16384 + 1
    };
    assert(BLOCK_SIZE == 16384);
    assert(blocks as nat == block_count(size));
    blocks <= (usize::MAX / 8) as u64 && blocks <= u64::MAX / 16384
}

/// Whether the blocks of every file of a download can be counted in bytes, and its
/// folders can count the states of their children through an event.
pub fn can_be_supervised(download: &Download) -> (r: bool)
    ensures
        r == (blocks_fit(download@.files) && counters_low(download@)),
{
    let ghost files = download@.files;
    let ghost folders = download@.folders;
    let n: usize = download.files.items.len();
    let mut i: usize = 0;
    assert(BLOCK_SIZE == 16384);
    while i < n
        invariant
            i <= n,
            n == files.len(),
            n == download.files.items@.len(),
            files == download@.files,
            BLOCK_SIZE == 16384,
            forall|k: int| 0 <= k < i ==> (#[trigger] files[k]).blocks.len() * BLOCK_SIZE
                <= u64::MAX,
        decreases n - i,
    {
        let count: usize = download.files.items[i].blocks.len();
        assert(files[i as int].blocks.len() == count);
        if count as u64 > u64::MAX / 16384 {
            assert(!(files[i as int].blocks.len() * BLOCK_SIZE <= u64::MAX));
            return false;
        }
        i += 1;
    }
    let m: usize = download.folders.items.len();
    if m == 0 {
        assert(folders.len() == 0);
        return true;
    }
    let ghost needed = (files.len() + 2) * folders.len();
    assert(folders[0].counters.len() == 6);
    let space: usize = match n.checked_add(2) {
        Some(k) => match k.checked_mul(m) {
            Some(space) => space,
            None => {
                proof {
                    lemma_no_room(folders, needed);
                }
                return false;
            },
        },
        None => {
            proof {
                assert(needed > usize::MAX) by (nonlinear_arith)
                    requires
                        needed == (files.len() + 2) * folders.len(),
                        files.len() + 2 > usize::MAX,
                        folders.len() >= 1,
                ;
                lemma_no_room(folders, needed);
            }
            return false;
        },
    };
    let mut j: usize = 0;
    while j < m
        invariant
            j <= m,
            m == folders.len(),
            m == download.folders.items@.len(),
            folders == download@.folders,
            space == needed,
            needed == (files.len() + 2) * folders.len(),
            files == download@.files,
            forall|k: int, b: StatusBucket|
                0 <= k < j ==> #[trigger] folders[k].counters[b.index()] + needed <= usize::MAX,
        decreases m - j,
    {
        let counters = &download.folders.items[j].bucket_counters.data;
        let left: usize = usize::MAX - space;
        let mut b: usize = 0;
        while b < 6
            invariant
                b <= 6,
                j < m,
                m == folders.len(),
                m == download.folders.items@.len(),
                folders == download@.folders,
                files == download@.files,
                left == usize::MAX - needed,
                needed == (files.len() + 2) * folders.len(),
                counters@ == folders[j as int].counters,
                forall|k: int| 0 <= k < b ==> counters@[k] <= left,
            decreases 6 - b,
        {
            if counters[b] > left {
                proof {
                    let bucket = bucket_of(b as int);
                    assert(bucket.index() == b);
                    assert(!(folders[j as int].counters[bucket.index()] + needed <= usize::MAX));
                }
                return false;
            }
            b += 1;
        }
        assert forall|k: int, b: StatusBucket| 0 <= k < j + 1 implies #[trigger]
            folders[k].counters[b.index()] + needed <= usize::MAX by {
            if k == j {
                assert(counters@[b.index()] <= left);
            }
        }
        j += 1;
    }
    true
}

/// The bucket with an index.
spec fn bucket_of(i: int) -> StatusBucket {
    if i == 0 {
        StatusBucket::Uninitialized
    } else if i == 1 {
        StatusBucket::MetadataFetched
    } else if i == 2 {
        StatusBucket::Partial
    } else if i == 3 {
        StatusBucket::Completed
    } else if i == 4 {
        StatusBucket::Error
    } else {
        StatusBucket::CompletedWithErrors
    }
}

/// More than can be counted is too much for any folder.
proof fn lemma_no_room(folders: Seq<FolderModel>, n: nat)
    requires
        folders.len() > 0,
        n > usize::MAX,
    ensures
        !room(folders, n),
{
    let b = StatusBucket::Partial;
    assert(!(folders[0].counters[b.index()] + n <= usize::MAX));
}

impl DownloadSupervisor {
    /// Whether an event can be taken in.
    pub fn accepts(&self, event: &SupervisorEvent) -> (r: bool)
        requires
            self.wf(),
            *event matches SupervisorEvent::Verified(download) ==> download.wf(),
        ensures
            r == (counters_low(self@.download) && event_fits(self@, *event) && (
            *event matches SupervisorEvent::Verified(download) ==> counters_low(download@))),
            r ==> roomy(self@.download),
    {
        if !can_be_supervised(&self.download) {
            return false;
        }
        match event {
            SupervisorEvent::Verified(download) => can_be_supervised(download),
            SupervisorEvent::Result(result) => match result {
                DownloadResult::Metadata { metadata, .. } => match metadata {
                    MetadataResult::Stream { file_size, .. } => match file_size {
                        FileSize::Known(n) => is_trackable(*n),
                        FileSize::Unknown => true,
                    },
                    MetadataResult::Chunked { file_size, .. } => is_trackable(*file_size),
                },
                DownloadResult::Stream { bytes_downloaded, .. } => is_trackable(
                    *bytes_downloaded,
                ),
                DownloadResult::Range { file_id, range, hashes } => {
                    match self.download.files.get(*file_id) {
                        Some(file) => {
                            let first: usize = if range.start % BLOCKS_PER_HASH == 0 {
                                range.start / BLOCKS_PER_HASH
                            } else {
                                range.start / BLOCKS_PER_HASH + 1
                            };
                            assert(first as nat == first_chunk(range.start as nat));
                            let chunks: usize = file.chunk_hashes.len();
                            range.start <= range.end && range.end <= file.blocks.len() && first
                                <= chunks && hashes.len() <= chunks - first
                        },
                        None => true,
                    }
                },
                DownloadResult::Failed(_) => true,
            },
            _ => true,
        }
    }
}

} // verus!
