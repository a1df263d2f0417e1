//! What is asked for of the files of a download, and what becomes of the answers.


use vstd::prelude::*;
#[allow(unused_imports)]
use crate::download::items::{downloaded_bytes, ActiveOperation, FileModel, FileSize, FolderId};
#[allow(unused_imports)]
use crate::download::operations::{
    law_operations_change_nothing_else, same_but_operations, spec_set_active_operation,
};
#[allow(unused_imports)]
use crate::download::ranges::{
    law_ranges_cover_what_is_missing, law_ranges_keep_to_chunks, ranges_from, RangeModel,
};
#[allow(unused_imports)]
use crate::download::supervisor::{
    all_there, metadata_jobs, queue_first, queue_ranges, queued, supervised, ActionModel,
    DownloadCommand, DownloadSupervisor, MetadataInfo, MetadataModel, Phase, SupervisorEvent,
    SupervisorModel,
};
#[allow(unused_imports)]
use crate::download::tables::unique_files;
#[allow(unused_imports)]
use crate::download::tree::Download;
#[allow(unused_imports)]
use crate::utils::file_utils::TargetOs;
#[allow(unused_imports)]
use crate::utils::kept::{lemma_kept_members, lemma_kept_step};

verus! {

/// Whether the server was not asked about a file yet.
pub open spec fn has_no_size() -> spec_fn(FileModel) -> bool {
    |f: FileModel| f.size is None
}

/// The question about a file that is put to the server.
pub open spec fn question_about() -> spec_fn(FileModel) -> MetadataModel {
    |f: FileModel| MetadataModel { file_id: f.id, url: f.url, host: f.host }
}

proof fn lemma_questions(files: Seq<FileModel>)
    ensures
        metadata_jobs(files) == files.filter(has_no_size()).map_values(question_about()),
    decreases files.len(),
{
    lemma_kept_step(files, has_no_size(), question_about());
    if files.len() > 0 {
        lemma_questions(files.drop_last());
    }
}

/// The server is asked about every file without a size, by the file's number, URL and
/// host, and about no other file; and it is asked in the order of the files.
pub proof fn law_files_without_a_size_are_asked_about(files: Seq<FileModel>)
    ensures
        metadata_jobs(files) == files.filter(has_no_size()).map_values(question_about()),
        forall|i: int|
            0 <= i < files.len() && (#[trigger] files[i]).size is None ==> metadata_jobs(
                files,
            ).contains(
                MetadataModel { file_id: files[i].id, url: files[i].url, host: files[i].host },
            ),
        forall|job: MetadataModel| #[trigger]
            metadata_jobs(files).contains(job) ==> exists|i: int|
                0 <= i < files.len() && (#[trigger] files[i]).size is None && files[i].id
                    == job.file_id && files[i].url == job.url && files[i].host == job.host,
{
    let keep = has_no_size();
    let make = question_about();
    lemma_questions(files);
    lemma_kept_members(files, keep, make);
    assert forall|i: int|
        0 <= i < files.len() && (#[trigger] files[i]).size is None implies metadata_jobs(
        files,
    ).contains(
        MetadataModel { file_id: files[i].id, url: files[i].url, host: files[i].host },
    ) by {
        assert(keep(files[i]));
        assert(make(files[i]) == (MetadataModel {
            file_id: files[i].id,
            url: files[i].url,
            host: files[i].host,
        }));
    }
    assert forall|job: MetadataModel| #[trigger] metadata_jobs(files).contains(job) implies exists|
        i: int,
    |
        0 <= i < files.len() && (#[trigger] files[i]).size is None && files[i].id == job.file_id
            && files[i].url == job.url && files[i].host == job.host by {
        let i = choose|i: int|
            0 <= i < files.len() && keep(#[trigger] files[i]) && make(files[i]) == job;
        assert(files[i].size is None);
    }
}

/// Whether a file is to be fetched range by range: its size is known, and something
/// of it is missing.
pub open spec fn wants_ranges(f: FileModel) -> bool {
    &&& f.size matches Some(FileSize::Known(_))
    &&& !(f.status is Completed)
    &&& exists|b: int| 0 <= b < f.blocks.len() && !#[trigger] f.blocks[b]
}

/// Whether there is something to be fetched of a file.
pub open spec fn wants_work() -> spec_fn(FileModel) -> bool {
    |f: FileModel| wants_ranges(f) || f.size == Some(FileSize::Unknown)
}

/// Whether these ranges hold every block that is missing, one range behind the other,
/// and none of them for nothing.
pub open spec fn just_what_is_missing(ranges: Seq<RangeModel>, blocks: Seq<bool>) -> bool {
    &&& forall|b: int|
        0 <= b < blocks.len() && !#[trigger] blocks[b] ==> exists|i: int|
            0 <= i < ranges.len() && (#[trigger] ranges[i]).start <= b < ranges[i].end
    &&& forall|i: int, j: int|
        0 <= i < j < ranges.len() ==> (#[trigger] ranges[i]).end <= (#[trigger] ranges[j]).start
    &&& forall|i: int|
        0 <= i < ranges.len() ==> (#[trigger] ranges[i]).start < ranges[i].end <= blocks.len()
}

/// Whether doing this fetches what is missing of a file: its ranges, or all of it
/// where its size is not known. A file that is not open is opened first.
pub open spec fn fetches(a: ActionModel, f: FileModel, open: bool) -> bool {
    match a {
        ActionModel::QueueRanges { file_id, opened, ranges } => {
            &&& f.size matches Some(FileSize::Known(_))
            &&& file_id == f.id
            &&& open ==> opened is None
            &&& !open ==> opened == Some(downloaded_bytes(f, 16384) as u64)
            &&& just_what_is_missing(ranges, f.blocks)
        },
        ActionModel::QueueStream { file_id } => {
            &&& f.size == Some(FileSize::Unknown)
            &&& file_id == f.id
        },
        _ => false,
    }
}

/// The ranges that are queued of a file are those that are missing.
pub proof fn lemma_ranges_fetch(f: FileModel, size: u64, open: Set<usize>)
    requires
        f.size == Some(FileSize::Known(size)),
    ensures
        fetches(queue_ranges(f, size, open), f, open.contains(f.id.0)),
{
    let ranges = ranges_from(f.blocks, size as nat, 0);
    law_ranges_cover_what_is_missing(f.blocks, size as nat);
    assert forall|i: int| 0 <= i < ranges.len() implies (#[trigger] ranges[i]).start
        < ranges[i].end <= f.blocks.len() by {
        law_ranges_keep_to_chunks(f.blocks, size as nat, i);
    }
}

proof fn lemma_work(files: Seq<FileModel>, n: nat, open: Set<usize>)
    requires
        n <= files.len(),
        unique_files(files),
    ensures
        ({
            let wanted = files.take(n as int).filter(wants_work());
            let (now_open, actions) = queue_first(files, n, open);
            &&& actions.len() == wanted.len()
            &&& forall|i: int|
                0 <= i < actions.len() ==> fetches(
                    #[trigger] actions[i],
                    wanted[i],
                    open.contains(wanted[i].id.0),
                )
            &&& forall|x: usize| #[trigger]
                now_open.contains(x) <==> open.contains(x) || exists|k: int|
                    0 <= k < n && wants_ranges(#[trigger] files[k]) && files[k].id.0 == x
        }),
    decreases n,
{
    reveal(Seq::filter);
    if n > 0 {
        let m = (n - 1) as nat;
        lemma_work(files, m, open);
        let part = files.take(n as int);
        let f = files[n - 1];
        assert(part.drop_last() =~= files.take(m as int));
        assert(part.last() == f);
        let before = queue_first(files, m, open);
        let (now_open, actions) = queue_first(files, n, open);
        let wanted_before = files.take(m as int).filter(wants_work());
        let wanted = part.filter(wants_work());
        assert(wants_ranges(f) == (f.size matches Some(FileSize::Known(_)) && !(f.status is
            Completed) && !all_there(f.blocks)));
        assert(wants_work()(f) == (wants_ranges(f) || f.size == Some(FileSize::Unknown)));
        if wants_ranges(f) {
            let size = f.size->0->Known_0;
            assert(before.0.contains(f.id.0) == open.contains(f.id.0)) by {
                if exists|k: int|
                    0 <= k < m && wants_ranges(#[trigger] files[k]) && files[k].id.0 == f.id.0 {
                    let k = choose|k: int|
                        0 <= k < m && wants_ranges(#[trigger] files[k]) && files[k].id.0
                            == f.id.0;
                    assert(files[k].id == files[n - 1].id);
                }
            }
            lemma_ranges_fetch(f, size, before.0);
        }
        assert forall|i: int| 0 <= i < actions.len() implies fetches(
            #[trigger] actions[i],
            wanted[i],
            open.contains(wanted[i].id.0),
        ) by {
            if i < before.1.len() {
                assert(actions[i] == before.1[i]);
                assert(wanted[i] == wanted_before[i]);
            }
        }
        assert forall|x: usize| #[trigger]
            now_open.contains(x) <==> open.contains(x) || exists|k: int|
                0 <= k < n && wants_ranges(#[trigger] files[k]) && files[k].id.0 == x by {
            if now_open.contains(x) && !before.0.contains(x) {
                assert(wants_ranges(files[n - 1]));
            }
            if exists|k: int|
                0 <= k < n && wants_ranges(#[trigger] files[k]) && files[k].id.0 == x {
                let k = choose|k: int|
                    0 <= k < n && wants_ranges(#[trigger] files[k]) && files[k].id.0 == x;
                if k < m {
                    assert(before.0.contains(x));
                }
            }
        }
    }
}

/// Whether these actions fetch, in the order of the files, what is missing of each
/// file of which something is known, and do nothing else.
pub open spec fn fetch_everything(
    actions: Seq<ActionModel>,
    files: Seq<FileModel>,
    open: Set<usize>,
) -> bool {
    let wanted = files.filter(wants_work());
    &&& actions.len() == wanted.len()
    &&& forall|i: int|
        0 <= i < actions.len() ==> fetches(
            #[trigger] actions[i],
            wanted[i],
            open.contains(wanted[i].id.0),
        )
}

/// Of every file of which something is known and missing, what is missing is fetched:
/// range by range where the size is known, all of it where it is not; file by file,
/// nothing twice, and nothing else is done. A file that is fetched range by range is
/// open from then on, and a file that is open is not opened again.
pub proof fn law_what_is_missing_is_fetched(files: Seq<FileModel>, open: Set<usize>)
    requires
        unique_files(files),
    ensures
        fetch_everything(queue_first(files, files.len(), open).1, files, open),
        forall|x: usize| #[trigger]
            queue_first(files, files.len(), open).0.contains(x) <==> open.contains(x) || exists|
                k: int,
            |
                0 <= k < files.len() && wants_ranges(#[trigger] files[k]) && files[k].id.0 == x,
{
    lemma_work(files, files.len(), open);
    assert(files.take(files.len() as int) =~= files);
}

proof fn lemma_same_questions(a: Seq<FileModel>, b: Seq<FileModel>)
    requires
        a.len() == b.len(),
        forall|k: int|
            0 <= k < a.len() ==> #[trigger] a[k] == (FileModel {
                active_operation: a[k].active_operation,
                ..b[k]
            }),
        unique_files(b),
    ensures
        unique_files(a),
{
    assert forall|i: int, j: int|
        0 <= i < a.len() && 0 <= j < a.len() && (#[trigger] a[i]).id == (
        #[trigger] a[j]).id implies i == j by {
        assert(b[i].id == b[j].id);
    }
}

/// Once a download was compared with what is on disk, the work goes on with what the
/// comparison found: the server is asked about every file without a size, and what is
/// missing of the other files is fetched.
pub proof fn law_compared_downloads_are_worked_on(
    m: SupervisorModel,
    compared: Download,
    gone: Seq<FolderId>,
    target: TargetOs,
)
    requires
        m.phase == (Phase::Verifying { awaiting: true }),
        unique_files(compared@.files),
    ensures
        ({
            let (after, actions) = supervised(
                m,
                SupervisorEvent::Verified(compared),
                gone,
                target,
            );
            &&& after.phase is Downloading
            &&& same_but_operations(after.download, compared@)
            &&& actions.len() >= 2
            &&& actions[0] == ActionModel::QueueMetadata(
                compared@.files.filter(has_no_size()).map_values(question_about()),
            )
            &&& actions[1] is ShowOperations
            &&& fetch_everything(actions.skip(2), after.download.files, m.open)
        }),
{
    let (after, actions) = supervised(m, SupervisorEvent::Verified(compared), gone, target);
    let op = Some(ActiveOperation::Queued);
    lemma_questions(compared@.files);
    law_operations_change_nothing_else(compared@, op);
    let download = spec_set_active_operation(compared@, op).0;
    lemma_same_questions(download.files, compared@.files);
    law_what_is_missing_is_fetched(download.files, m.open);
    let queue = queue_first(download.files, download.files.len(), m.open).1;
    assert(actions.skip(2) =~= queue);
}

/// A download that is taken up again goes on with what is missing of its files. The
/// servers were asked about the others already.
pub proof fn law_resumed_downloads_are_worked_on(
    m: SupervisorModel,
    gone: Seq<FolderId>,
    target: TargetOs,
)
    requires
        m.phase is Downloading,
        unique_files(m.download.files),
    ensures
        ({
            let (after, actions) = supervised(
                m,
                SupervisorEvent::Command(DownloadCommand::Resume),
                gone,
                target,
            );
            &&& after.phase is Downloading
            &&& same_but_operations(after.download, m.download)
            &&& actions.len() >= 1
            &&& actions[0] is ShowOperations
            &&& fetch_everything(actions.skip(1), after.download.files, m.open)
        }),
{
    let event = SupervisorEvent::Command(DownloadCommand::Resume);
    let (after, actions) = supervised(m, event, gone, target);
    assert((after, actions) == queued(m));
    let op = Some(ActiveOperation::Queued);
    law_operations_change_nothing_else(m.download, op);
    let download = spec_set_active_operation(m.download, op).0;
    lemma_same_questions(download.files, m.download.files);
    law_what_is_missing_is_fetched(download.files, m.open);
    let queue = queue_first(download.files, download.files.len(), m.open).1;
    assert(actions.skip(1) =~= queue);
}

/// The jobs that ask about files are for every file without a size and for no other, in the
/// order of the files, and each has the number, the URL and the host of its file.
pub proof fn law_jobs_ask_about_files_without_a_size(
    supervisor: &DownloadSupervisor,
    jobs: Vec<MetadataInfo>,
)
    requires
        call_ensures(DownloadSupervisor::get_metadata_jobs, (supervisor,), jobs),
    ensures
        ({
            let wanted = supervisor@.download.files.filter(has_no_size());
            &&& jobs@.len() == wanted.len()
            &&& forall|i: int|
                0 <= i < jobs@.len() ==> {
                    let job = #[trigger] jobs@[i]@;
                    job.file_id == wanted[i].id && job.url == wanted[i].url && job.host
                        == wanted[i].host
                }
        }),
{
    lemma_questions(supervisor@.download.files);
    let models = jobs@.map_values(|i: MetadataInfo| i@);
    let wanted = supervisor@.download.files.filter(has_no_size());
    assert(models.len() == jobs@.len());
    assert(models == wanted.map_values(question_about()));
    assert forall|i: int| 0 <= i < jobs@.len() implies {
        let job = #[trigger] jobs@[i]@;
        job.file_id == wanted[i].id && job.url == wanted[i].url && job.host == wanted[i].host
    } by {
        assert(models[i] == jobs@[i]@);
        assert(models[i] == question_about()(wanted[i]));
    }
}

} // verus!
