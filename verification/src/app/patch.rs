//! What a request to change settings asks for.

use vstd::prelude::*;
use crate::app::settings::{DownloadSettings, FileSettings};
use crate::download::items::{DownloadId, FileId};

verus! {

/// A new value, if one is asked for.
#[derive(Debug, Clone, Copy, PartialEq, Eq, Structural)]
pub enum PatchValue {
    /// It is not spoken of.
    Unchanged,
    /// It is to have no value.
    Clear,
    SetTo(u64),
}

impl PatchValue {
    /// What a value that is spoken of asks for.
    pub fn spoken(value: Option<u64>) -> (r: Self)
        ensures
            r == match value {
                Some(v) => PatchValue::SetTo(v),
                None => PatchValue::Clear,
            },
    {
        match value {
            Some(v) => PatchValue::SetTo(v),
            None => PatchValue::Clear,
        }
    }

    /// The new limit, if one is asked for.
    pub open spec fn asked(self) -> Option<Option<u64>> {
        match self {
            PatchValue::Unchanged => None,
            PatchValue::Clear => Some(None),
            PatchValue::SetTo(v) => Some(Some(v)),
        }
    }

    fn limit(&self) -> (r: Option<Option<u64>>)
        ensures
            r == self.asked(),
    {
        match self {
            PatchValue::Unchanged => None,
            PatchValue::Clear => Some(None),
            PatchValue::SetTo(v) => Some(Some(*v)),
        }
    }
}

impl Default for PatchValue {
    fn default() -> (r: Self)
        ensures
            r == PatchValue::Unchanged,
    {
        PatchValue::Unchanged
    }
}

/// What is asked for a host.
pub struct HostSettingsPatch {
    pub host: String,
    pub speed_limit: PatchValue,
}

/// What is asked for a file.
pub struct FileSettingsPatch {
    pub file: FileId,
    pub speed_limit: PatchValue,
}

/// What is asked for a download and its files.
pub struct DownloadSettingsPatch {
    pub id: DownloadId,
    pub speed_limit: PatchValue,
    pub file_settings: Vec<FileSettingsPatch>,
}

/// All that is asked for.
pub struct AppSettingsPatch {
    pub global_speed_limit: PatchValue,
    pub host_settings: Vec<HostSettingsPatch>,
    pub download_settings: Vec<DownloadSettingsPatch>,
}

/// A limit that is to be set.
pub enum PatchStep {
    Global(Option<u64>),
    Host(String, Option<u64>),
    Download(DownloadId, Option<u64>),
    File(DownloadId, FileId, Option<u64>),
}

/// A limit that is to be set, in mathematical values.
pub enum PatchStepModel {
    Global(Option<u64>),
    Host(Seq<char>, Option<u64>),
    Download(DownloadId, Option<u64>),
    File(DownloadId, FileId, Option<u64>),
}

impl View for PatchStep {
    type V = PatchStepModel;

    open spec fn view(&self) -> PatchStepModel {
        match *self {
            PatchStep::Global(limit) => PatchStepModel::Global(limit),
            PatchStep::Host(host, limit) => PatchStepModel::Host(host@, limit),
            PatchStep::Download(id, limit) => PatchStepModel::Download(id, limit),
            PatchStep::File(id, file, limit) => PatchStepModel::File(id, file, limit),
        }
    }
}

/// Limits that are to be set, in mathematical values.
pub open spec fn steps_view(steps: Seq<PatchStep>) -> Seq<PatchStepModel> {
    steps.map_values(|s: PatchStep| s@)
}

/// What is to be set for everything.
pub open spec fn global_steps(value: PatchValue) -> Seq<PatchStepModel> {
    match value.asked() {
        Some(limit) => seq![PatchStepModel::Global(limit)],
        None => Seq::empty(),
    }
}

/// What is to be set for hosts.
pub open spec fn host_steps(hosts: Seq<HostSettingsPatch>) -> Seq<PatchStepModel>
    decreases hosts.len(),
{
    if hosts.len() == 0 {
        Seq::empty()
    } else {
        let before = host_steps(hosts.drop_last());
        match hosts.last().speed_limit.asked() {
            Some(limit) => before.push(PatchStepModel::Host(hosts.last().host@, limit)),
            None => before,
        }
    }
}

/// What is to be set for the files of a download.
pub open spec fn file_steps(id: DownloadId, files: Seq<FileSettingsPatch>) -> Seq<PatchStepModel>
    decreases files.len(),
{
    if files.len() == 0 {
        Seq::empty()
    } else {
        let before = file_steps(id, files.drop_last());
        match files.last().speed_limit.asked() {
            Some(limit) => before.push(PatchStepModel::File(id, files.last().file, limit)),
            None => before,
        }
    }
}

/// What is to be set for a download: its own limit first, and then those of its files.
pub open spec fn download_steps(patch: DownloadSettingsPatch) -> Seq<PatchStepModel> {
    (match patch.speed_limit.asked() {
        Some(limit) => seq![PatchStepModel::Download(patch.id, limit)],
        None => Seq::empty(),
    }) + file_steps(patch.id, patch.file_settings@)
}

/// What is to be set for downloads.
pub open spec fn all_download_steps(downloads: Seq<DownloadSettingsPatch>) -> Seq<PatchStepModel>
    decreases downloads.len(),
{
    if downloads.len() == 0 {
        Seq::empty()
    } else {
        all_download_steps(downloads.drop_last()) + download_steps(downloads.last())
    }
}

fn put(out: &mut Vec<PatchStep>, step: PatchStep)
    ensures
        steps_view(final(out)@) == steps_view(old(out)@).push(step@),
{
    out.push(step);
    assert(steps_view(out@) =~= steps_view(old(out)@).push(step@));
}

/// Puts behind others what is to be set for a host.
pub fn apply_host_patch(patch: &HostSettingsPatch, out: &mut Vec<PatchStep>)
    ensures
        steps_view(final(out)@) == match patch.speed_limit.asked() {
            Some(limit) => steps_view(old(out)@).push(PatchStepModel::Host(patch.host@, limit)),
            None => steps_view(old(out)@),
        },
{
    if let Some(limit) = patch.speed_limit.limit() {
        put(out, PatchStep::Host(patch.host.clone(), limit));
    }
}

/// Puts behind others what is to be set for a file.
pub fn apply_file_patch(id: DownloadId, patch: &FileSettingsPatch, out: &mut Vec<PatchStep>)
    ensures
        steps_view(final(out)@) == match patch.speed_limit.asked() {
            Some(limit) => steps_view(old(out)@).push(PatchStepModel::File(id, patch.file, limit)),
            None => steps_view(old(out)@),
        },
{
    if let Some(limit) = patch.speed_limit.limit() {
        put(out, PatchStep::File(id, patch.file, limit));
    }
}

/// Puts behind others what is to be set for a download.
pub fn apply_download_patch(patch: &DownloadSettingsPatch, out: &mut Vec<PatchStep>)
    ensures
        steps_view(final(out)@) == steps_view(old(out)@) + download_steps(*patch),
{
    let ghost start = steps_view(out@);
    if let Some(limit) = patch.speed_limit.limit() {
        put(out, PatchStep::Download(patch.id, limit));
    }
    let ghost first = steps_view(out@);
    let ghost files = patch.file_settings@;
    let n: usize = patch.file_settings.len();
    let mut i: usize = 0;
    assert(files.take(0) =~= Seq::<FileSettingsPatch>::empty());
    assert(first =~= first + file_steps(patch.id, files.take(0)));
    while i < n
        invariant
            i <= n,
            n == patch.file_settings@.len(),
            files == patch.file_settings@,
            steps_view(out@) == first + file_steps(patch.id, files.take(i as int)),
        decreases n - i,
    {
        assert(files.take(i + 1).drop_last() =~= files.take(i as int));
        assert(files.take(i + 1).last() == files[i as int]);
        apply_file_patch(patch.id, &patch.file_settings[i], out);
        i += 1;
        assert(steps_view(out@) =~= first + file_steps(patch.id, files.take(i as int)));
    }
    assert(files.take(n as int) =~= files);
    assert(steps_view(out@) =~= start + download_steps(*patch));
}

/// What is to be set: for everything first, then for the hosts, then for the downloads.
pub fn apply_app_patch(patch: &AppSettingsPatch) -> (out: Vec<PatchStep>)
    ensures
        steps_view(out@) == global_steps(patch.global_speed_limit) + host_steps(
            patch.host_settings@,
        ) + all_download_steps(patch.download_settings@),
{
    let mut out: Vec<PatchStep> = Vec::new();
    assert(steps_view(out@) =~= Seq::<PatchStepModel>::empty());
    if let Some(limit) = patch.global_speed_limit.limit() {
        put(&mut out, PatchStep::Global(limit));
    }
    assert(steps_view(out@) =~= global_steps(patch.global_speed_limit));
    let ghost first = steps_view(out@);
    let ghost hosts = patch.host_settings@;
    let n: usize = patch.host_settings.len();
    let mut i: usize = 0;
    assert(hosts.take(0) =~= Seq::<HostSettingsPatch>::empty());
    assert(first =~= first + host_steps(hosts.take(0)));
    while i < n
        invariant
            i <= n,
            n == patch.host_settings@.len(),
            hosts == patch.host_settings@,
            steps_view(out@) == first + host_steps(hosts.take(i as int)),
        decreases n - i,
    {
        assert(hosts.take(i + 1).drop_last() =~= hosts.take(i as int));
        assert(hosts.take(i + 1).last() == hosts[i as int]);
        apply_host_patch(&patch.host_settings[i], &mut out);
        i += 1;
        assert(steps_view(out@) =~= first + host_steps(hosts.take(i as int)));
    }
    assert(hosts.take(n as int) =~= hosts);
    let ghost second = steps_view(out@);
    let ghost downloads = patch.download_settings@;
    let count: usize = patch.download_settings.len();
    let mut k: usize = 0;
    assert(downloads.take(0) =~= Seq::<DownloadSettingsPatch>::empty());
    assert(second =~= second + all_download_steps(downloads.take(0)));
    while k < count
        invariant
            k <= count,
            count == patch.download_settings@.len(),
            downloads == patch.download_settings@,
            steps_view(out@) == second + all_download_steps(downloads.take(k as int)),
        decreases count - k,
    {
        assert(downloads.take(k + 1).drop_last() =~= downloads.take(k as int));
        assert(downloads.take(k + 1).last() == downloads[k as int]);
        apply_download_patch(&patch.download_settings[k], &mut out);
        k += 1;
        assert(steps_view(out@) =~= second + all_download_steps(downloads.take(k as int)));
    }
    assert(downloads.take(count as int) =~= downloads);
    out
}

impl DownloadSettings {
    /// What holds for a file of the download.
    pub fn get_file_settings(&self, file: &FileId) -> (r: Option<FileSettings>)
        ensures
            r == if self@.files.contains_key(file.0) {
                Some(self@.files[file.0])
            } else {
                None
            },
    {
        broadcast use vstd::std_specs::hash::group_hash_axioms;

        match self.file_settings.get(&file.0) {
            Some(settings) => Some(*settings),
            None => None,
        }
    }
}

/// A request that speaks of nothing changes nothing.
pub proof fn law_silence_changes_nothing(hosts: Seq<HostSettingsPatch>)
    requires
        forall|i: int|
            0 <= i < hosts.len() ==> (#[trigger] hosts[i]).speed_limit == PatchValue::Unchanged,
    ensures
        global_steps(PatchValue::Unchanged) == Seq::<PatchStepModel>::empty(),
        host_steps(hosts) == Seq::<PatchStepModel>::empty(),
    decreases hosts.len(),
{
    if hosts.len() > 0 {
        let rest = hosts.drop_last();
        assert forall|i: int| 0 <= i < rest.len() implies (#[trigger] rest[i]).speed_limit
            == PatchValue::Unchanged by {
            assert(rest[i] == hosts[i]);
        }
        law_silence_changes_nothing(rest);
        assert(hosts[hosts.len() - 1].speed_limit == PatchValue::Unchanged);
    }
}

} // verus!
