//! What holds of every download, whatever happens to its files.

use vstd::prelude::*;
#[allow(unused_imports)]
use crate::download::building::{
    counters_of, files_below, folders_below, fresh, grow, grown_files, grown_folders, grown_lists,
    has_folder, lemma_root_grows, new_download, waits, Waiting,
};
#[allow(unused_imports)]
use crate::download::folder_status::{
    child_count, child_errors, counts_add_up, derived_status, file_errors, folder_errors,
    in_bucket,
};
#[allow(unused_imports)]
use crate::download::hosts::tasks::{DownloadTask, TaskType};
#[allow(unused_imports)]
use crate::download::items::{FileId, FileModel, FolderId, FolderModel, ItemId};
#[allow(unused_imports)]
use crate::download::status::{FileStatus, StatusBucket};
#[allow(unused_imports)]
use crate::download::tables::{find_file, find_folder, unique_files, unique_folders};
#[allow(unused_imports)]
use crate::download::tree::{
    can_move, countable, keeps_count, moved, raise_fits, raise_status, root_status,
    spec_set_file_status, status_step, DownloadModel,
};
#[allow(unused_imports)]
use crate::utils::file_utils::TargetOs;

verus! {

/// How many of the listed files are in a bucket.
pub open spec fn count_files(ids: Seq<FileId>, files: Seq<FileModel>, b: StatusBucket) -> nat
    decreases ids.len(),
{
    if ids.len() == 0 {
        0
    } else {
        count_files(ids.drop_last(), files, b) + match find_file(files, ids.last()) {
            Some(i) => if files[i].status.spec_bucket() == b {
                1nat
            } else {
                0nat
            },
            None => 0nat,
        }
    }
}

/// How many of the listed folders are in a bucket.
pub open spec fn count_folders(
    ids: Seq<FolderId>,
    folders: Seq<FolderModel>,
    b: StatusBucket,
) -> nat
    decreases ids.len(),
{
    if ids.len() == 0 {
        0
    } else {
        count_folders(ids.drop_last(), folders, b) + match find_folder(folders, ids.last()) {
            Some(i) => if folders[i].status.spec_bucket() == b {
                1nat
            } else {
                0nat
            },
            None => 0nat,
        }
    }
}

/// How many children of a folder are in a bucket.
pub open spec fn tally(
    f: FolderModel,
    files: Seq<FileModel>,
    folders: Seq<FolderModel>,
    b: StatusBucket,
) -> nat {
    count_files(f.child_files, files, b) + count_folders(f.child_folders, folders, b)
}

/// Whether a folder's counters say how many of its children are in each bucket.
pub open spec fn counted(
    f: FolderModel,
    files: Seq<FileModel>,
    folders: Seq<FolderModel>,
) -> bool {
    forall|b: StatusBucket| #[trigger] in_bucket(f, b) == tally(f, files, folders, b)
}

/// Whether files and folders hang together as a tree: numbers are given once, a
/// folder lists what names it as its parent, and nothing else, and each item once;
/// folders are numbered from zero on, and one that lies in another comes after it.
#[verifier::opaque]
pub open spec fn linked(files: Seq<FileModel>, folders: Seq<FolderModel>) -> bool {
    &&& unique_files(files)
    &&& unique_folders(folders)
    &&& forall|i: int|
        0 <= i < folders.len() ==> {
            let f = #[trigger] folders[i];
            &&& f.counters.len() == 6
            &&& f.id.0 < folders.len()
            &&& f.child_files.no_duplicates()
            &&& f.child_folders.no_duplicates()
            &&& f.parent_id matches Some(p) ==> p.0 < f.id.0 && find_folder(folders, p).is_some()
        }
    &&& forall|i: int, k: int|
        0 <= i < folders.len() && 0 <= k < files.len() ==> ((#[trigger] folders[i]).child_files
            .contains((#[trigger] files[k]).id) <==> files[k].parent_id == Some(folders[i].id))
    &&& forall|i: int, k: int|
        0 <= i < folders.len() && 0 <= k < folders.len() ==> ((
        #[trigger] folders[i]).child_folders.contains((#[trigger] folders[k]).id)
            <==> folders[k].parent_id == Some(folders[i].id))
    &&& forall|i: int, j: int|
        0 <= i < folders.len() && 0 <= j < folders[i].child_files.len() ==> find_file(
            files,
            #[trigger] folders[i].child_files[j],
        ).is_some()
    &&& forall|i: int, j: int|
        0 <= i < folders.len() && 0 <= j < folders[i].child_folders.len() ==> find_folder(
            folders,
            #[trigger] folders[i].child_folders[j],
        ).is_some()
}

/// What hanging together means for the folder at place `i`.
pub proof fn lemma_linked_folder(files: Seq<FileModel>, folders: Seq<FolderModel>, i: int)
    requires
        linked(files, folders),
        0 <= i < folders.len(),
    ensures
        unique_files(files),
        unique_folders(folders),
        folders[i].counters.len() == 6,
        folders[i].id.0 < folders.len(),
        folders[i].child_files.no_duplicates(),
        folders[i].child_folders.no_duplicates(),
        folders[i].parent_id matches Some(p) ==> p.0 < folders[i].id.0 && find_folder(
            folders,
            p,
        ).is_some(),
        forall|j: int|
            0 <= j < folders[i].child_files.len() ==> find_file(
                files,
                #[trigger] folders[i].child_files[j],
            ).is_some(),
        forall|j: int|
            0 <= j < folders[i].child_folders.len() ==> find_folder(
                folders,
                #[trigger] folders[i].child_folders[j],
            ).is_some(),
{
    reveal(linked);
}

/// The folder at place `i` lists a file exactly if the file names it as its parent.
pub proof fn lemma_lists_file(files: Seq<FileModel>, folders: Seq<FolderModel>, i: int, k: int)
    requires
        linked(files, folders),
        0 <= i < folders.len(),
        0 <= k < files.len(),
    ensures
        folders[i].child_files.contains(files[k].id) <==> files[k].parent_id == Some(
            folders[i].id,
        ),
{
    reveal(linked);
}

/// The folder at place `i` lists a folder exactly if that names it as its parent.
pub proof fn lemma_lists_folder(files: Seq<FileModel>, folders: Seq<FolderModel>, i: int, k: int)
    requires
        linked(files, folders),
        0 <= i < folders.len(),
        0 <= k < folders.len(),
    ensures
        folders[i].child_folders.contains(folders[k].id) <==> folders[k].parent_id == Some(
            folders[i].id,
        ),
{
    reveal(linked);
}

/// Whether a download is in order: its items hang together, and every folder's
/// counters are right.
pub open spec fn tree_ok(d: DownloadModel) -> bool {
    &&& linked(d.files, d.folders)
    &&& forall|i: int| 0 <= i < d.folders.len() ==> counted(#[trigger] d.folders[i], d.files, d.folders)
}

/// Whether the root of a download is its only item at the top: a folder that lies in no
/// other, or a file that lies in no folder where there is no such folder.
pub open spec fn one_root(d: DownloadModel) -> bool {
    match d.root_item {
        ItemId::Folder(id) => {
            &&& find_folder(d.folders, id) matches Some(i) && d.folders[i].parent_id.is_none()
            &&& forall|j: int|
                0 <= j < d.folders.len() && (#[trigger] d.folders[j]).parent_id.is_none()
                    ==> d.folders[j].id == id
        },
        ItemId::File(id) => {
            &&& forall|j: int|
                0 <= j < d.folders.len() ==> (#[trigger] d.folders[j]).parent_id.is_some()
            &&& find_file(d.files, id) matches Some(i) && d.files[i].parent_id.is_none()
            &&& forall|j: int|
                0 <= j < d.files.len() && (#[trigger] d.files[j]).parent_id.is_none()
                    ==> d.files[j].id == id
        },
    }
}

/// Where numbers are given once, the place of a file is the one it was found at.
pub proof fn lemma_find_file(files: Seq<FileModel>, i: int)
    requires
        unique_files(files),
        0 <= i < files.len(),
    ensures
        find_file(files, files[i].id) == Some(i),
{
    let j = find_file(files, files[i].id)->0;
    assert(0 <= j < files.len() && files[j].id == files[i].id);
}

/// Where numbers are given once, the place of a folder is the one it was found at.
pub proof fn lemma_find_folder(folders: Seq<FolderModel>, i: int)
    requires
        unique_folders(folders),
        0 <= i < folders.len(),
    ensures
        find_folder(folders, folders[i].id) == Some(i),
{
    let j = find_folder(folders, folders[i].id)->0;
    assert(0 <= j < folders.len() && folders[j].id == folders[i].id);
}

/// The place that was found is a place of that number.
pub proof fn lemma_found_folder(folders: Seq<FolderModel>, id: FolderId)
    requires
        find_folder(folders, id).is_some(),
    ensures
        0 <= find_folder(folders, id)->0 < folders.len(),
        folders[find_folder(folders, id)->0].id == id,
{
    assert(exists|i: int| 0 <= i < folders.len() && (#[trigger] folders[i]).id == id);
}

/// The place that was found is a place of that number.
pub proof fn lemma_found_file(files: Seq<FileModel>, id: FileId)
    requires
        find_file(files, id).is_some(),
    ensures
        0 <= find_file(files, id)->0 < files.len(),
        files[find_file(files, id)->0].id == id,
{
    assert(exists|i: int| 0 <= i < files.len() && (#[trigger] files[i]).id == id);
}

/// Numbers that stay in place are found in the same place.
pub proof fn lemma_find_folder_same(a: Seq<FolderModel>, b: Seq<FolderModel>, id: FolderId)
    requires
        a.len() == b.len(),
        forall|i: int| 0 <= i < a.len() ==> (#[trigger] a[i]).id == (#[trigger] b[i]).id,
        unique_folders(a),
    ensures
        find_folder(a, id) == find_folder(b, id),
        unique_folders(b),
{
    assert forall|i: int, j: int|
        0 <= i < b.len() && 0 <= j < b.len() && (#[trigger] b[i]).id == (
        #[trigger] b[j]).id implies i == j by {
        assert(a[i].id == a[j].id);
    }
    if find_folder(a, id).is_some() {
        lemma_found_folder(a, id);
        let i = find_folder(a, id)->0;
        assert(b[i].id == id);
        lemma_find_folder(b, i);
    } else if find_folder(b, id).is_some() {
        lemma_found_folder(b, id);
        let i = find_folder(b, id)->0;
        assert(a[i].id == id);
    }
}

/// Numbers that stay in place are found in the same place.
pub proof fn lemma_find_file_same(a: Seq<FileModel>, b: Seq<FileModel>, id: FileId)
    requires
        a.len() == b.len(),
        forall|i: int| 0 <= i < a.len() ==> (#[trigger] a[i]).id == (#[trigger] b[i]).id,
        unique_files(a),
    ensures
        find_file(a, id) == find_file(b, id),
        unique_files(b),
{
    assert forall|i: int, j: int|
        0 <= i < b.len() && 0 <= j < b.len() && (#[trigger] b[i]).id == (
        #[trigger] b[j]).id implies i == j by {
        assert(a[i].id == a[j].id);
    }
    if find_file(a, id).is_some() {
        lemma_found_file(a, id);
        let i = find_file(a, id)->0;
        assert(b[i].id == id);
        lemma_find_file(b, i);
    } else if find_file(b, id).is_some() {
        lemma_found_file(b, id);
        let i = find_file(b, id)->0;
        assert(a[i].id == id);
    }
}

/// One, if the listed file is in the bucket.
pub open spec fn unit(b: bool) -> int {
    if b {
        1
    } else {
        0
    }
}

/// A file that gets another state moves from one bucket's count to another's in
/// every list that holds it.
pub proof fn lemma_count_files_update(
    ids: Seq<FileId>,
    files: Seq<FileModel>,
    k: int,
    status: FileStatus,
    b: StatusBucket,
)
    requires
        unique_files(files),
        0 <= k < files.len(),
        ids.no_duplicates(),
    ensures
        ({
            let after = files.update(k, FileModel { status, ..files[k] });
            let listed = ids.contains(files[k].id);
            count_files(ids, after, b) == count_files(ids, files, b) - unit(
                listed && files[k].status.spec_bucket() == b,
            ) + unit(listed && status.spec_bucket() == b)
        }),
    decreases ids.len(),
{
    let after = files.update(k, FileModel { status, ..files[k] });
    if ids.len() > 0 {
        let init = ids.drop_last();
        lemma_count_files_update(init, files, k, status, b);
        lemma_find_file_same(files, after, ids.last());
        assert(init.contains(files[k].id) || ids.last() == files[k].id <==> ids.contains(
            files[k].id,
        )) by {
            assert(ids =~= init.push(ids.last()));
            crate::utils::text::lemma_contains_push(init, ids.last(), files[k].id);
        }
        if ids.last() == files[k].id {
            lemma_find_file(files, k);
            assert(!init.contains(files[k].id)) by {
                if init.contains(files[k].id) {
                    let j = choose|j: int| 0 <= j < init.len() && init[j] == files[k].id;
                    assert(ids[j] == ids[ids.len() - 1]);
                }
            }
        } else if find_file(files, ids.last()).is_some() {
            lemma_found_file(files, ids.last());
        }
    }
}

/// A folder that gets another state moves from one bucket's count to another's in
/// every list that holds it; its other fields count for nothing.
pub proof fn lemma_count_folders_update(
    ids: Seq<FolderId>,
    folders: Seq<FolderModel>,
    k: int,
    folder: FolderModel,
    b: StatusBucket,
)
    requires
        unique_folders(folders),
        0 <= k < folders.len(),
        folder.id == folders[k].id,
        ids.no_duplicates(),
    ensures
        ({
            let after = folders.update(k, folder);
            let listed = ids.contains(folders[k].id);
            count_folders(ids, after, b) == count_folders(ids, folders, b) - unit(
                listed && folders[k].status.spec_bucket() == b,
            ) + unit(listed && folder.status.spec_bucket() == b)
        }),
    decreases ids.len(),
{
    let after = folders.update(k, folder);
    if ids.len() > 0 {
        let init = ids.drop_last();
        lemma_count_folders_update(init, folders, k, folder, b);
        lemma_find_folder_same(folders, after, ids.last());
        assert(init.contains(folders[k].id) || ids.last() == folders[k].id <==> ids.contains(
            folders[k].id,
        )) by {
            assert(ids =~= init.push(ids.last()));
            crate::utils::text::lemma_contains_push(init, ids.last(), folders[k].id);
        }
        if ids.last() == folders[k].id {
            lemma_find_folder(folders, k);
            assert(!init.contains(folders[k].id)) by {
                if init.contains(folders[k].id) {
                    let j = choose|j: int| 0 <= j < init.len() && init[j] == folders[k].id;
                    assert(ids[j] == ids[ids.len() - 1]);
                }
            }
        } else if find_folder(folders, ids.last()).is_some() {
            lemma_found_folder(folders, ids.last());
        }
    }
}

/// A child that is listed is counted in its bucket.
pub proof fn lemma_listed_file_is_counted(ids: Seq<FileId>, files: Seq<FileModel>, k: int)
    requires
        unique_files(files),
        0 <= k < files.len(),
        ids.contains(files[k].id),
    ensures
        count_files(ids, files, files[k].status.spec_bucket()) >= 1,
    decreases ids.len(),
{
    let init = ids.drop_last();
    assert(ids =~= init.push(ids.last()));
    crate::utils::text::lemma_contains_push(init, ids.last(), files[k].id);
    lemma_find_file(files, k);
    if init.contains(files[k].id) {
        lemma_listed_file_is_counted(init, files, k);
    }
}

/// A child that is listed is counted in its bucket.
pub proof fn lemma_listed_folder_is_counted(ids: Seq<FolderId>, folders: Seq<FolderModel>, k: int)
    requires
        unique_folders(folders),
        0 <= k < folders.len(),
        ids.contains(folders[k].id),
    ensures
        count_folders(ids, folders, folders[k].status.spec_bucket()) >= 1,
    decreases ids.len(),
{
    let init = ids.drop_last();
    assert(ids =~= init.push(ids.last()));
    crate::utils::text::lemma_contains_push(init, ids.last(), folders[k].id);
    lemma_find_folder(folders, k);
    if init.contains(folders[k].id) {
        lemma_listed_folder_is_counted(init, folders, k);
    }
}

/// No more children are counted than are listed.
pub proof fn lemma_tally_bound(
    f: FolderModel,
    files: Seq<FileModel>,
    folders: Seq<FolderModel>,
    b: StatusBucket,
)
    ensures
        tally(f, files, folders, b) <= child_count(f),
{
    lemma_count_files_bound(f.child_files, files, b);
    lemma_count_folders_bound(f.child_folders, folders, b);
}

proof fn lemma_count_files_bound(ids: Seq<FileId>, files: Seq<FileModel>, b: StatusBucket)
    ensures
        count_files(ids, files, b) <= ids.len(),
    decreases ids.len(),
{
    if ids.len() > 0 {
        lemma_count_files_bound(ids.drop_last(), files, b);
    }
}

proof fn lemma_count_folders_bound(ids: Seq<FolderId>, folders: Seq<FolderModel>, b: StatusBucket)
    ensures
        count_folders(ids, folders, b) <= ids.len(),
    decreases ids.len(),
{
    if ids.len() > 0 {
        lemma_count_folders_bound(ids.drop_last(), folders, b);
    }
}

/// Whether two tables of folders differ in states and counters at most.
pub open spec fn same_links(a: Seq<FolderModel>, b: Seq<FolderModel>) -> bool {
    &&& a.len() == b.len()
    &&& forall|i: int|
        #![trigger a[i]]
        #![trigger b[i]]
        0 <= i < a.len() ==> {
            &&& b[i].counters.len() == a[i].counters.len()
            &&& b[i] == (FolderModel { status: b[i].status, counters: b[i].counters, ..a[i] })
        }
}

/// States and counters have no part in how the items hang together.
pub proof fn lemma_same_links(
    files: Seq<FileModel>,
    a: Seq<FolderModel>,
    b: Seq<FolderModel>,
)
    requires
        linked(files, a),
        same_links(a, b),
    ensures
        linked(files, b),
        forall|id: FolderId| #[trigger] find_folder(b, id) == find_folder(a, id),
{
    reveal(linked);
    assert(forall|i: int| 0 <= i < a.len() ==> (#[trigger] a[i]).id == (#[trigger] b[i]).id);
    assert forall|id: FolderId| #[trigger] find_folder(b, id) == find_folder(a, id) by {
        lemma_find_folder_same(a, b, id);
    }
    lemma_find_folder_same(a, b, FolderId(0));
    assert forall|i: int, k: int|
        0 <= i < b.len() && 0 <= k < files.len() implies ((#[trigger] b[i]).child_files.contains(
        (#[trigger] files[k]).id,
    ) <==> files[k].parent_id == Some(b[i].id)) by {
        assert(a[i].child_files.contains(files[k].id) <==> files[k].parent_id == Some(a[i].id));
    }
    assert forall|i: int, k: int|
        0 <= i < b.len() && 0 <= k < b.len() implies ((#[trigger] b[i]).child_folders.contains(
        (#[trigger] b[k]).id,
    ) <==> b[k].parent_id == Some(b[i].id)) by {
        assert(a[i].child_folders.contains(a[k].id) <==> a[k].parent_id == Some(a[i].id));
    }
    assert forall|i: int, j: int|
        0 <= i < b.len() && 0 <= j < b[i].child_files.len() implies find_file(
        files,
        #[trigger] b[i].child_files[j],
    ).is_some() by {
        assert(find_file(files, a[i].child_files[j]).is_some());
    }
    assert forall|i: int, j: int|
        0 <= i < b.len() && 0 <= j < b[i].child_folders.len() implies find_folder(
        b,
        #[trigger] b[i].child_folders[j],
    ).is_some() by {
        assert(find_folder(a, a[i].child_folders[j]).is_some());
    }
}

/// The state of a file has no part in how the items hang together.
pub proof fn lemma_linked_after_file_status(
    files: Seq<FileModel>,
    folders: Seq<FolderModel>,
    k: int,
    status: FileStatus,
)
    requires
        linked(files, folders),
        0 <= k < files.len(),
    ensures
        linked(files.update(k, FileModel { status, ..files[k] }), folders),
{
    reveal(linked);
    let after = files.update(k, FileModel { status, ..files[k] });
    assert forall|id: FileId| #[trigger] find_file(after, id) == find_file(files, id) by {
        lemma_find_file_same(files, after, id);
    }
    lemma_find_file_same(files, after, FileId(0));
    assert forall|i: int, m: int|
        0 <= i < folders.len() && 0 <= m < after.len() implies ((
    #[trigger] folders[i]).child_files.contains((#[trigger] after[m]).id) <==> after[m].parent_id
        == Some(folders[i].id)) by {
        assert(folders[i].child_files.contains(files[m].id) <==> files[m].parent_id == Some(
            folders[i].id,
        ));
    }
}

/// Whether all counters are right once the folder `at` has moved one child.
#[verifier::opaque]
pub open spec fn pending(
    files: Seq<FileModel>,
    folders: Seq<FolderModel>,
    at: Option<FolderId>,
    from: StatusBucket,
    to: StatusBucket,
) -> bool {
    &&& linked(files, folders)
    &&& countable(folders)
    &&& forall|i: int|
        0 <= i < folders.len() ==> if at == Some((#[trigger] folders[i]).id) {
            can_move(folders[i].counters, from, to) && counted(
                FolderModel { counters: moved(folders[i].counters, from, to), ..folders[i] },
                files,
                folders,
            )
        } else {
            counted(folders[i], files, folders)
        }
}

/// What one folder's step leaves to be done above it.
proof fn lemma_step_pending(
    files: Seq<FileModel>,
    folders: Seq<FolderModel>,
    i: int,
    from: StatusBucket,
    to: StatusBucket,
    gone: Seq<FolderId>,
)
    requires
        0 <= i < folders.len(),
        pending(files, folders, Some(folders[i].id), from, to),
    ensures
        ({
            let step = status_step(files, folders, i, from, to, gone);
            &&& same_links(folders, step.folders)
            &&& step.parent == folders[i].parent_id
            &&& step.shows() ==> pending(files, step.folders, step.parent, step.from, step.to)
            &&& !step.shows() ==> pending(files, step.folders, None, step.from, step.to)
        }),
{
    reveal(status_step);
    reveal(pending);
    let step = status_step(files, folders, i, from, to, gone);
    let next = step.folders;
    let ob = step.from;
    let nb = step.to;
    lemma_linked_folder(files, folders, i);
    assert(same_links(folders, next)) by {
        assert(moved(folders[i].counters, from, to).len() == folders[i].counters.len());
    }
    lemma_same_links(files, folders, next);
    assert(countable(next)) by {
        assert forall|j: int| 0 <= j < next.len() implies child_count(#[trigger] next[j])
            <= usize::MAX by {
            assert(child_count(folders[j]) <= usize::MAX);
        }
    }
    assert forall|j: int| 0 <= j < next.len() implies if step.shows() && step.parent == Some(
        (#[trigger] next[j]).id,
    ) {
        can_move(next[j].counters, ob, nb) && counted(
            FolderModel { counters: moved(next[j].counters, ob, nb), ..next[j] },
            files,
            next,
        )
    } else {
        counted(next[j], files, next)
    } by {
        lemma_recounted_folder(files, folders, i, from, to, gone, j);
    }
}

/// A folder that counts a child in another bucket counts right once the child is there.
proof fn lemma_moved_counts(
    f: FolderModel,
    files: Seq<FileModel>,
    folders: Seq<FolderModel>,
    files2: Seq<FileModel>,
    folders2: Seq<FolderModel>,
    from: StatusBucket,
    to: StatusBucket,
)
    requires
        f.counters.len() == 6,
        child_count(f) <= usize::MAX,
        counted(f, files, folders),
        tally(f, files, folders, from) >= 1,
        forall|b: StatusBucket| #[trigger]
            tally(f, files2, folders2, b) == tally(f, files, folders, b) - unit(from == b) + unit(
                to == b,
            ),
    ensures
        can_move(f.counters, from, to),
        counted(FolderModel { counters: moved(f.counters, from, to), ..f }, files2, folders2),
{
    let g = FolderModel { counters: moved(f.counters, from, to), ..f };
    lemma_tally_bound(f, files2, folders2, to);
    assert(tally(f, files2, folders2, to) == tally(f, files, folders, to) - unit(from == to)
        + unit(to == to));
    assert(in_bucket(f, to) == tally(f, files, folders, to));
    assert(in_bucket(f, from) == tally(f, files, folders, from));
    assert forall|b: StatusBucket| #[trigger]
        in_bucket(g, b) == tally(g, files2, folders2, b) by {
        assert(tally(g, files2, folders2, b) == tally(f, files2, folders2, b));
        assert(in_bucket(f, b) == tally(f, files, folders, b));
    }
}

/// What one folder's step means for the counters of any folder.
proof fn lemma_recounted_folder(
    files: Seq<FileModel>,
    folders: Seq<FolderModel>,
    i: int,
    from: StatusBucket,
    to: StatusBucket,
    gone: Seq<FolderId>,
    j: int,
)
    requires
        0 <= i < folders.len(),
        0 <= j < folders.len(),
        pending(files, folders, Some(folders[i].id), from, to),
        linked(files, status_step(files, folders, i, from, to, gone).folders),
    ensures
        ({
            let step = status_step(files, folders, i, from, to, gone);
            let next = step.folders;
            if step.shows() && step.parent == Some(next[j].id) {
                can_move(next[j].counters, step.from, step.to) && counted(
                    FolderModel { counters: moved(next[j].counters, step.from, step.to), ..next[j] },
                    files,
                    next,
                )
            } else {
                counted(next[j], files, next)
            }
        }),
{
    reveal(status_step);
    reveal(pending);
    let step = status_step(files, folders, i, from, to, gone);
    let next = step.folders;
    let ob = step.from;
    let nb = step.to;
    let listed = folders[j].child_folders.contains(folders[i].id);
    lemma_lists_folder(files, folders, j, i);
    lemma_linked_folder(files, folders, j);
    lemma_linked_folder(files, folders, i);
    assert forall|b: StatusBucket| #[trigger]
        tally(next[j], files, next, b) == tally(folders[j], files, folders, b) - unit(
            listed && ob == b,
        ) + unit(listed && nb == b) by {
        lemma_count_folders_update(folders[j].child_folders, folders, i, next[i], b);
    }
    if j == i {
        assert(!listed);
        let fixed = FolderModel { counters: moved(folders[i].counters, from, to), ..folders[i] };
        assert(counted(fixed, files, folders));
        assert forall|b: StatusBucket| #[trigger]
            in_bucket(next[i], b) == tally(next[i], files, next, b) by {
            assert(in_bucket(fixed, b) == tally(fixed, files, folders, b));
            assert(tally(fixed, files, folders, b) == tally(folders[i], files, folders, b));
        }
    } else {
        assert(folders[j].id != folders[i].id);
        assert(counted(folders[j], files, folders));
        assert(next[j] == folders[j]);
        if step.shows() && step.parent == Some(next[j].id) {
            assert(listed);
            lemma_listed_folder_is_counted(folders[j].child_folders, folders, i);
            assert(tally(folders[j], files, folders, ob) >= 1);
            lemma_moved_counts(folders[j], files, folders, files, next, ob, nb);
        } else {
            assert forall|b: StatusBucket| #[trigger]
                in_bucket(next[j], b) == tally(next[j], files, next, b) by {
                assert(in_bucket(folders[j], b) == tally(folders[j], files, folders, b));
            }
        }
    }
}

/// Carrying a change upwards leaves every counter right.
pub proof fn lemma_raise_counts(
    files: Seq<FileModel>,
    folders: Seq<FolderModel>,
    at: Option<FolderId>,
    from: StatusBucket,
    to: StatusBucket,
    gone: Seq<FolderId>,
    steps: nat,
)
    requires
        pending(files, folders, at, from, to),
        at matches Some(p) ==> find_folder(folders, p).is_none() || p.0 < steps,
    ensures
        ({
            let raised = raise_status(files, folders, at, from, to, gone, steps).0;
            &&& same_links(folders, raised)
            &&& pending(files, raised, None, from, to)
        }),
    decreases steps,
{
    if at.is_none() || find_folder(folders, at->0).is_none() {
        lemma_nothing_pending(files, folders, at, from, to, from, to);
    } else {
        lemma_found_folder(folders, at->0);
        let i = find_folder(folders, at->0)->0;
        assert(linked(files, folders)) by {
            reveal(pending);
        }
        lemma_linked_folder(files, folders, i);
        lemma_step_pending(files, folders, i, from, to, gone);
        let step = status_step(files, folders, i, from, to, gone);
        if step.shows() {
            lemma_same_links(files, folders, step.folders);
            lemma_raise_counts(
                files,
                step.folders,
                step.parent,
                step.from,
                step.to,
                gone,
                (steps - 1) as nat,
            );
            let raised = raise_status(files, folders, at, from, to, gone, steps).0;
            lemma_same_links_trans(folders, step.folders, raised);
            lemma_nothing_pending(files, raised, None, step.from, step.to, from, to);
        } else {
            lemma_nothing_pending(files, step.folders, None, step.from, step.to, from, to);
        }
    }
}

/// Two changes of states and counters are one.
proof fn lemma_same_links_trans(
    a: Seq<FolderModel>,
    b: Seq<FolderModel>,
    c: Seq<FolderModel>,
)
    requires
        same_links(a, b),
        same_links(b, c),
    ensures
        same_links(a, c),
{
    assert forall|i: int|
        #![trigger a[i]]
        #![trigger c[i]]
        0 <= i < a.len() implies c[i].counters.len() == a[i].counters.len() && c[i] == (
    FolderModel { status: c[i].status, counters: c[i].counters, ..a[i] }) by {
        assert(b[i].counters.len() == a[i].counters.len());
    }
}

/// Right counters stay right where nothing is left to move.
proof fn lemma_nothing_pending(
    files: Seq<FileModel>,
    folders: Seq<FolderModel>,
    at: Option<FolderId>,
    from: StatusBucket,
    to: StatusBucket,
    from2: StatusBucket,
    to2: StatusBucket,
)
    requires
        pending(files, folders, at, from, to),
        at.is_none() || find_folder(folders, at->0).is_none(),
    ensures
        pending(files, folders, None, from2, to2),
        same_links(folders, folders),
{
    reveal(pending);
    assert forall|i: int| 0 <= i < folders.len() implies counted(
        #[trigger] folders[i],
        files,
        folders,
    ) by {
        assert(at != Some(folders[i].id));
    }
}

/// A file that gets another state leaves its folder one child to move.
proof fn lemma_file_pending(d: DownloadModel, k: int, status: FileStatus)
    requires
        tree_ok(d),
        countable(d.folders),
        0 <= k < d.files.len(),
    ensures
        pending(
            d.files.update(k, FileModel { status, ..d.files[k] }),
            d.folders,
            d.files[k].parent_id,
            d.files[k].status.spec_bucket(),
            status.spec_bucket(),
        ),
{
    reveal(pending);
    let files = d.files.update(k, FileModel { status, ..d.files[k] });
    let from = d.files[k].status.spec_bucket();
    let to = status.spec_bucket();
    lemma_linked_after_file_status(d.files, d.folders, k, status);
    assert forall|i: int| 0 <= i < d.folders.len() implies if d.files[k].parent_id == Some(
        (#[trigger] d.folders[i]).id,
    ) {
        can_move(d.folders[i].counters, from, to) && counted(
            FolderModel { counters: moved(d.folders[i].counters, from, to), ..d.folders[i] },
            files,
            d.folders,
        )
    } else {
        counted(d.folders[i], files, d.folders)
    } by {
        let f = d.folders[i];
        let listed = f.child_files.contains(d.files[k].id);
        lemma_lists_file(d.files, d.folders, i, k);
        lemma_linked_folder(d.files, d.folders, i);
        assert(counted(f, d.files, d.folders));
        assert forall|b: StatusBucket| #[trigger]
            tally(f, files, d.folders, b) == tally(f, d.files, d.folders, b) - unit(
                listed && from == b,
            ) + unit(listed && to == b) by {
            lemma_count_files_update(f.child_files, d.files, k, status, b);
        }
        if listed {
            lemma_listed_file_is_counted(f.child_files, d.files, k);
            lemma_moved_counts(f, d.files, d.folders, files, d.folders, from, to);
        } else {
            assert forall|b: StatusBucket| #[trigger]
                in_bucket(f, b) == tally(f, files, d.folders, b) by {
                assert(in_bucket(f, b) == tally(f, d.files, d.folders, b));
            }
        }
    }
}

/// Right counters can be moved all the way up.
proof fn lemma_pending_fits(
    files: Seq<FileModel>,
    folders: Seq<FolderModel>,
    at: Option<FolderId>,
    from: StatusBucket,
    to: StatusBucket,
    gone: Seq<FolderId>,
    steps: nat,
)
    requires
        pending(files, folders, at, from, to),
    ensures
        raise_fits(files, folders, at, from, to, gone, steps),
    decreases steps,
{
    if !(steps == 0 || at.is_none() || find_folder(folders, at->0).is_none()) {
        lemma_found_folder(folders, at->0);
        let i = find_folder(folders, at->0)->0;
        assert(can_move(folders[i].counters, from, to)) by {
            reveal(pending);
        }
        lemma_step_pending(files, folders, i, from, to, gone);
        let step = status_step(files, folders, i, from, to, gone);
        if step.shows() {
            lemma_pending_fits(
                files,
                step.folders,
                step.parent,
                step.from,
                step.to,
                gone,
                (steps - 1) as nat,
            );
        }
    }
}

/// In a download that is in order, every folder that a change reaches can count it.
pub proof fn lemma_change_fits(d: DownloadModel, k: int, status: FileStatus, gone: Seq<FolderId>)
    requires
        tree_ok(d),
        countable(d.folders),
        0 <= k < d.files.len(),
    ensures
        raise_fits(
            d.files.update(k, FileModel { status, ..d.files[k] }),
            d.folders,
            d.files[k].parent_id,
            d.files[k].status.spec_bucket(),
            status.spec_bucket(),
            gone,
            d.folders.len(),
        ),
{
    lemma_file_pending(d, k, status);
    lemma_pending_fits(
        d.files.update(k, FileModel { status, ..d.files[k] }),
        d.folders,
        d.files[k].parent_id,
        d.files[k].status.spec_bucket(),
        status.spec_bucket(),
        gone,
        d.folders.len(),
    );
}

/// Whether two downloads have the same items, in the same states and the same places in
/// the tree.
pub open spec fn same_tree(a: DownloadModel, b: DownloadModel) -> bool {
    &&& a.files.len() == b.files.len()
    &&& forall|k: int|
        #![trigger a.files[k]]
        #![trigger b.files[k]]
        0 <= k < a.files.len() ==> {
            &&& a.files[k].id == b.files[k].id
            &&& a.files[k].parent_id == b.files[k].parent_id
            &&& a.files[k].status == b.files[k].status
        }
    &&& a.folders.len() == b.folders.len()
    &&& forall|i: int|
        #![trigger a.folders[i]]
        #![trigger b.folders[i]]
        0 <= i < a.folders.len() ==> {
            &&& a.folders[i].id == b.folders[i].id
            &&& a.folders[i].parent_id == b.folders[i].parent_id
            &&& a.folders[i].status == b.folders[i].status
            &&& a.folders[i].child_files == b.folders[i].child_files
            &&& a.folders[i].child_folders == b.folders[i].child_folders
            &&& a.folders[i].counters == b.folders[i].counters
        }
}

/// What hangs together stays so while items, states and places stay.
proof fn lemma_same_tree_is_linked(a: DownloadModel, b: DownloadModel)
    requires
        linked(a.files, a.folders),
        same_tree(a, b),
    ensures
        linked(b.files, b.folders),
        forall|id: FileId| #[trigger] find_file(b.files, id) == find_file(a.files, id),
        forall|id: FolderId| #[trigger] find_folder(b.folders, id) == find_folder(a.folders, id),
{
    reveal(linked);
    assert(forall|i: int|
        0 <= i < a.files.len() ==> (#[trigger] a.files[i]).id == (#[trigger] b.files[i]).id);
    assert(forall|i: int|
        0 <= i < a.folders.len() ==> (#[trigger] a.folders[i]).id == (#[trigger] b.folders[i]).id);
    assert forall|id: FileId| #[trigger] find_file(b.files, id) == find_file(a.files, id) by {
        lemma_find_file_same(a.files, b.files, id);
    }
    assert forall|id: FolderId| #[trigger] find_folder(b.folders, id) == find_folder(
        a.folders,
        id,
    ) by {
        lemma_find_folder_same(a.folders, b.folders, id);
    }
    lemma_find_file_same(a.files, b.files, FileId(0));
    lemma_find_folder_same(a.folders, b.folders, FolderId(0));
    assert forall|i: int, k: int|
        0 <= i < b.folders.len() && 0 <= k < b.files.len() implies ((
    #[trigger] b.folders[i]).child_files.contains((#[trigger] b.files[k]).id)
        <==> b.files[k].parent_id == Some(b.folders[i].id)) by {
        assert(a.folders[i].child_files.contains(a.files[k].id) <==> a.files[k].parent_id == Some(
            a.folders[i].id,
        ));
    }
    assert forall|i: int, k: int|
        0 <= i < b.folders.len() && 0 <= k < b.folders.len() implies ((
    #[trigger] b.folders[i]).child_folders.contains((#[trigger] b.folders[k]).id)
        <==> b.folders[k].parent_id == Some(b.folders[i].id)) by {
        assert(a.folders[i].child_folders.contains(a.folders[k].id)
            <==> a.folders[k].parent_id == Some(a.folders[i].id));
    }
    assert forall|i: int, j: int|
        0 <= i < b.folders.len() && 0 <= j < b.folders[i].child_files.len() implies find_file(
        b.files,
        #[trigger] b.folders[i].child_files[j],
    ).is_some() by {
        assert(find_file(a.files, a.folders[i].child_files[j]).is_some());
    }
    assert forall|i: int, j: int|
        0 <= i < b.folders.len() && 0 <= j < b.folders[i].child_folders.len() implies find_folder(
        b.folders,
        #[trigger] b.folders[i].child_folders[j],
    ).is_some() by {
        assert(find_folder(a.folders, a.folders[i].child_folders[j]).is_some());
    }
}

proof fn lemma_same_tally(a: DownloadModel, b: DownloadModel, f: FolderModel, bucket: StatusBucket)
    requires
        same_tree(a, b),
        forall|id: FileId| #[trigger] find_file(b.files, id) == find_file(a.files, id),
        forall|id: FolderId| #[trigger] find_folder(b.folders, id) == find_folder(a.folders, id),
    ensures
        tally(f, b.files, b.folders, bucket) == tally(f, a.files, a.folders, bucket),
{
    lemma_same_file_tally(a, b, f.child_files, bucket);
    lemma_same_folder_tally(a, b, f.child_folders, bucket);
}

proof fn lemma_same_file_tally(
    a: DownloadModel,
    b: DownloadModel,
    ids: Seq<FileId>,
    bucket: StatusBucket,
)
    requires
        same_tree(a, b),
        forall|id: FileId| #[trigger] find_file(b.files, id) == find_file(a.files, id),
    ensures
        count_files(ids, b.files, bucket) == count_files(ids, a.files, bucket),
    decreases ids.len(),
{
    if ids.len() > 0 {
        lemma_same_file_tally(a, b, ids.drop_last(), bucket);
        if find_file(a.files, ids.last()).is_some() {
            lemma_found_file(a.files, ids.last());
        }
    }
}

proof fn lemma_same_folder_tally(
    a: DownloadModel,
    b: DownloadModel,
    ids: Seq<FolderId>,
    bucket: StatusBucket,
)
    requires
        same_tree(a, b),
        forall|id: FolderId| #[trigger] find_folder(b.folders, id) == find_folder(a.folders, id),
    ensures
        count_folders(ids, b.folders, bucket) == count_folders(ids, a.folders, bucket),
    decreases ids.len(),
{
    if ids.len() > 0 {
        lemma_same_folder_tally(a, b, ids.drop_last(), bucket);
        if find_folder(a.folders, ids.last()).is_some() {
            lemma_found_folder(a.folders, ids.last());
        }
    }
}

/// A download in order stays so while its items, their states and their places stay.
pub proof fn lemma_same_tree(a: DownloadModel, b: DownloadModel)
    requires
        tree_ok(a),
        same_tree(a, b),
    ensures
        tree_ok(b),
{
    lemma_same_tree_is_linked(a, b);
    assert forall|i: int| 0 <= i < b.folders.len() implies counted(
        #[trigger] b.folders[i],
        b.files,
        b.folders,
    ) by {
        assert(counted(a.folders[i], a.files, a.folders));
        assert forall|bucket: StatusBucket| #[trigger]
            in_bucket(b.folders[i], bucket) == tally(b.folders[i], b.files, b.folders, bucket) by {
            assert(in_bucket(a.folders[i], bucket) == tally(
                a.folders[i],
                a.files,
                a.folders,
                bucket,
            ));
            lemma_same_tally(a, b, a.folders[i], bucket);
        }
    }
}

/// A file that is replaced by one in the same state and place leaves the folders counting
/// as they did.
pub proof fn lemma_replaced_keeps_count(d: DownloadModel, i: int, f: FileModel, n: nat)
    requires
        keeps_count(d, n),
        0 <= i < d.files.len(),
        f.id == d.files[i].id,
        f.parent_id == d.files[i].parent_id,
        f.status == d.files[i].status,
    ensures
        keeps_count(DownloadModel { files: d.files.update(i, f), ..d }, n),
{
    if tree_ok(d) {
        lemma_same_tree(d, DownloadModel { files: d.files.update(i, f), ..d });
    }
}

/// Giving a file another state keeps a download in order: every folder's counters
/// still say how many of its children are in each bucket.
pub proof fn law_counters_stay_right(
    d: DownloadModel,
    id: FileId,
    status: FileStatus,
    gone: Seq<FolderId>,
)
    requires
        tree_ok(d),
        countable(d.folders),
    ensures
        tree_ok(spec_set_file_status(d, id, status, gone).0),
        countable(spec_set_file_status(d, id, status, gone).0.folders),
{
    reveal(pending);
    if find_file(d.files, id).is_some() {
        lemma_found_file(d.files, id);
        let k = find_file(d.files, id)->0;
        if d.files[k].status != status {
            let files = d.files.update(k, FileModel { status, ..d.files[k] });
            let from = d.files[k].status.spec_bucket();
            let to = status.spec_bucket();
            lemma_file_pending(d, k, status);
            if from == to && to != StatusBucket::Error {
                // Apart from errors, a bucket holds a single state.
                assert(d.files[k].status == status);
            } else {
                let parent = d.files[k].parent_id;
                if parent.is_some() && find_folder(d.folders, parent->0).is_some() {
                    lemma_found_folder(d.folders, parent->0);
                    lemma_linked_folder(
                        d.files,
                        d.folders,
                        find_folder(d.folders, parent->0)->0,
                    );
                    assert(d.folders[find_folder(d.folders, parent->0)->0].id.0 < d.folders.len());
                }
                lemma_raise_counts(
                    files,
                    d.folders,
                    d.files[k].parent_id,
                    from,
                    to,
                    gone,
                    d.folders.len(),
                );
            }
        }
    }
}

proof fn lemma_counts_cover_files(ids: Seq<FileId>, files: Seq<FileModel>)
    requires
        forall|j: int| 0 <= j < ids.len() ==> find_file(files, #[trigger] ids[j]).is_some(),
    ensures
        count_files(ids, files, StatusBucket::Uninitialized) + count_files(
            ids,
            files,
            StatusBucket::MetadataFetched,
        ) + count_files(ids, files, StatusBucket::Partial) + count_files(
            ids,
            files,
            StatusBucket::Completed,
        ) + count_files(ids, files, StatusBucket::Error) + count_files(
            ids,
            files,
            StatusBucket::CompletedWithErrors,
        ) == ids.len(),
    decreases ids.len(),
{
    if ids.len() > 0 {
        assert(find_file(files, ids[ids.len() - 1]).is_some());
        lemma_counts_cover_files(ids.drop_last(), files);
    }
}

proof fn lemma_counts_cover_folders(ids: Seq<FolderId>, folders: Seq<FolderModel>)
    requires
        forall|j: int| 0 <= j < ids.len() ==> find_folder(folders, #[trigger] ids[j]).is_some(),
    ensures
        count_folders(ids, folders, StatusBucket::Uninitialized) + count_folders(
            ids,
            folders,
            StatusBucket::MetadataFetched,
        ) + count_folders(ids, folders, StatusBucket::Partial) + count_folders(
            ids,
            folders,
            StatusBucket::Completed,
        ) + count_folders(ids, folders, StatusBucket::Error) + count_folders(
            ids,
            folders,
            StatusBucket::CompletedWithErrors,
        ) == ids.len(),
    decreases ids.len(),
{
    if ids.len() > 0 {
        assert(find_folder(folders, ids[ids.len() - 1]).is_some());
        lemma_counts_cover_folders(ids.drop_last(), folders);
    }
}

/// In a download that is in order every folder counts each of its children once.
pub proof fn law_counters_add_up(d: DownloadModel, i: int)
    requires
        tree_ok(d),
        0 <= i < d.folders.len(),
    ensures
        counts_add_up(d.folders[i]),
{
    let f = d.folders[i];
    lemma_linked_folder(d.files, d.folders, i);
    lemma_counts_cover_files(f.child_files, d.files);
    lemma_counts_cover_folders(f.child_folders, d.folders);
    assert(counted(f, d.files, d.folders));
    assert(in_bucket(f, StatusBucket::Uninitialized) == tally(
        f,
        d.files,
        d.folders,
        StatusBucket::Uninitialized,
    ));
    assert(in_bucket(f, StatusBucket::MetadataFetched) == tally(
        f,
        d.files,
        d.folders,
        StatusBucket::MetadataFetched,
    ));
    assert(in_bucket(f, StatusBucket::Partial) == tally(
        f,
        d.files,
        d.folders,
        StatusBucket::Partial,
    ));
    assert(in_bucket(f, StatusBucket::Completed) == tally(
        f,
        d.files,
        d.folders,
        StatusBucket::Completed,
    ));
    assert(in_bucket(f, StatusBucket::Error) == tally(f, d.files, d.folders, StatusBucket::Error));
    assert(in_bucket(f, StatusBucket::CompletedWithErrors) == tally(
        f,
        d.files,
        d.folders,
        StatusBucket::CompletedWithErrors,
    ));
}

/// Whether a folder with children is in the state that follows from them.
pub open spec fn follows(
    f: FolderModel,
    files: Seq<FileModel>,
    folders: Seq<FolderModel>,
    gone: Seq<FolderId>,
) -> bool {
    child_count(f) == 0 || f.status == derived_status(f, files, folders, gone.contains(f.id))
}

/// Whether every folder but one is in the state that follows from its children.
#[verifier::opaque]
pub open spec fn following(
    files: Seq<FileModel>,
    folders: Seq<FolderModel>,
    except: Option<FolderId>,
    gone: Seq<FolderId>,
) -> bool {
    forall|i: int|
        0 <= i < folders.len() ==> except == Some((#[trigger] folders[i]).id) || follows(
            folders[i],
            files,
            folders,
            gone,
        )
}

proof fn lemma_folder_errors_same(
    ids: Seq<FolderId>,
    folders: Seq<FolderModel>,
    k: int,
    folder: FolderModel,
)
    requires
        unique_folders(folders),
        0 <= k < folders.len(),
        folder.id == folders[k].id,
        !ids.contains(folders[k].id) || folder.status == folders[k].status,
    ensures
        folder_errors(ids, folders.update(k, folder)) == folder_errors(ids, folders),
    decreases ids.len(),
{
    if ids.len() > 0 {
        let init = ids.drop_last();
        assert(ids =~= init.push(ids.last()));
        crate::utils::text::lemma_contains_push(init, ids.last(), folders[k].id);
        lemma_folder_errors_same(init, folders, k, folder);
        lemma_find_folder_same(folders, folders.update(k, folder), ids.last());
        if find_folder(folders, ids.last()).is_some() {
            lemma_found_folder(folders, ids.last());
        }
    }
}

proof fn lemma_file_errors_same(ids: Seq<FileId>, files: Seq<FileModel>, k: int, file: FileModel)
    requires
        unique_files(files),
        0 <= k < files.len(),
        file.id == files[k].id,
        !ids.contains(files[k].id),
    ensures
        file_errors(ids, files.update(k, file)) == file_errors(ids, files),
    decreases ids.len(),
{
    if ids.len() > 0 {
        let init = ids.drop_last();
        assert(ids =~= init.push(ids.last()));
        crate::utils::text::lemma_contains_push(init, ids.last(), files[k].id);
        lemma_file_errors_same(init, files, k, file);
        lemma_find_file_same(files, files.update(k, file), ids.last());
        if find_file(files, ids.last()).is_some() {
            lemma_found_file(files, ids.last());
        }
    }
}

/// A folder's step puts it into the state that follows; only the folder above it
/// may be left behind, and only if the change shows.
proof fn lemma_step_following(
    files: Seq<FileModel>,
    folders: Seq<FolderModel>,
    i: int,
    from: StatusBucket,
    to: StatusBucket,
    gone: Seq<FolderId>,
)
    requires
        0 <= i < folders.len(),
        linked(files, folders),
        following(files, folders, Some(folders[i].id), gone),
    ensures
        ({
            let step = status_step(files, folders, i, from, to, gone);
            &&& same_links(folders, step.folders)
            &&& step.parent == folders[i].parent_id
            &&& step.shows() ==> following(files, step.folders, step.parent, gone)
            &&& !step.shows() ==> following(files, step.folders, None, gone)
        }),
{
    let step = status_step(files, folders, i, from, to, gone);
    let next = step.folders;
    lemma_linked_folder(files, folders, i);
    assert(same_links(folders, next) && step.parent == folders[i].parent_id) by {
        reveal(status_step);
        assert(moved(folders[i].counters, from, to).len() == folders[i].counters.len());
    }
    assert forall|j: int| 0 <= j < next.len() implies (step.shows() && step.parent == Some(
        (#[trigger] next[j]).id,
    )) || follows(next[j], files, next, gone) by {
        if j == i {
            lemma_step_follows(files, folders, i, from, to, gone);
        } else if !(step.shows() && step.parent == Some(next[j].id)) {
            assert(follows(folders[j], files, folders, gone)) by {
                reveal(following);
                assert(folders[j].id != folders[i].id);
            }
            lemma_other_follows(files, folders, i, from, to, gone, j);
        }
    }
    assert(step.shows() ==> following(files, next, step.parent, gone)) by {
        reveal(following);
    }
    assert(!step.shows() ==> following(files, next, None, gone)) by {
        reveal(following);
    }
}

/// The folder that makes the step is in the state that follows.
proof fn lemma_step_follows(
    files: Seq<FileModel>,
    folders: Seq<FolderModel>,
    i: int,
    from: StatusBucket,
    to: StatusBucket,
    gone: Seq<FolderId>,
)
    requires
        0 <= i < folders.len(),
        linked(files, folders),
    ensures
        ({
            let next = status_step(files, folders, i, from, to, gone).folders;
            follows(next[i], files, next, gone)
        }),
{
    reveal(status_step);
    let next = status_step(files, folders, i, from, to, gone).folders;
    let counted = FolderModel { counters: moved(folders[i].counters, from, to), ..folders[i] };
    lemma_linked_folder(files, folders, i);
    lemma_lists_folder(files, folders, i, i);
    lemma_folder_errors_same(folders[i].child_folders, folders, i, counted);
    lemma_folder_errors_same(folders[i].child_folders, folders, i, next[i]);
    assert(child_errors(counted, files, folders.update(i, counted)) == child_errors(
        next[i],
        files,
        next,
    ));
}

/// A folder whose children keep their states, or only change within a bucket that
/// holds a single one, stays in the state that follows.
proof fn lemma_other_follows(
    files: Seq<FileModel>,
    folders: Seq<FolderModel>,
    i: int,
    from: StatusBucket,
    to: StatusBucket,
    gone: Seq<FolderId>,
    j: int,
)
    requires
        0 <= i < folders.len(),
        0 <= j < folders.len(),
        i != j,
        linked(files, folders),
        follows(folders[j], files, folders, gone),
        ({
            let step = status_step(files, folders, i, from, to, gone);
            !step.shows() || step.parent != Some(folders[j].id)
        }),
    ensures
        ({
            let next = status_step(files, folders, i, from, to, gone).folders;
            follows(next[j], files, next, gone)
        }),
{
    reveal(status_step);
    let step = status_step(files, folders, i, from, to, gone);
    let next = step.folders;
    lemma_linked_folder(files, folders, j);
    lemma_lists_folder(files, folders, j, i);
    if folders[j].child_folders.contains(folders[i].id) {
        assert(next[i].status == folders[i].status);
    }
    lemma_folder_errors_same(folders[j].child_folders, folders, i, next[i]);
    assert(next[j] == folders[j]);
    assert(child_errors(folders[j], files, folders) == child_errors(next[j], files, next));
}

proof fn lemma_raise_following(
    files: Seq<FileModel>,
    folders: Seq<FolderModel>,
    at: Option<FolderId>,
    from: StatusBucket,
    to: StatusBucket,
    gone: Seq<FolderId>,
    steps: nat,
)
    requires
        linked(files, folders),
        following(files, folders, at, gone),
        at matches Some(p) ==> find_folder(folders, p).is_none() || p.0 < steps,
    ensures
        following(
            files,
            raise_status(files, folders, at, from, to, gone, steps).0,
            None,
            gone,
        ),
    decreases steps,
{
    if at.is_none() {
    } else if find_folder(folders, at->0).is_none() {
        reveal(following);
        assert forall|i: int| 0 <= i < folders.len() implies follows(
            #[trigger] folders[i],
            files,
            folders,
            gone,
        ) by {
            assert(at != Some(folders[i].id));
        }
    } else {
        lemma_found_folder(folders, at->0);
        let i = find_folder(folders, at->0)->0;
        lemma_linked_folder(files, folders, i);
        lemma_step_following(files, folders, i, from, to, gone);
        let step = status_step(files, folders, i, from, to, gone);
        if step.shows() {
            lemma_same_links(files, folders, step.folders);
            lemma_raise_following(
                files,
                step.folders,
                step.parent,
                step.from,
                step.to,
                gone,
                (steps - 1) as nat,
            );
        }
    }
}

/// Where every folder is in the state that follows from its children, giving a file
/// another state keeps it so.
pub proof fn law_states_keep_following(
    d: DownloadModel,
    id: FileId,
    status: FileStatus,
    gone: Seq<FolderId>,
)
    requires
        tree_ok(d),
        following(d.files, d.folders, None, gone),
    ensures
        following(
            spec_set_file_status(d, id, status, gone).0.files,
            spec_set_file_status(d, id, status, gone).0.folders,
            None,
            gone,
        ),
{
    if find_file(d.files, id).is_some() {
        lemma_found_file(d.files, id);
        let k = find_file(d.files, id)->0;
        if d.files[k].status != status {
            let file = FileModel { status, ..d.files[k] };
            let files = d.files.update(k, file);
            let parent = d.files[k].parent_id;
            lemma_linked_after_file_status(d.files, d.folders, k, status);
            assert(following(files, d.folders, parent, gone)) by {
                reveal(following);
                assert forall|i: int| 0 <= i < d.folders.len() implies parent == Some(
                    (#[trigger] d.folders[i]).id,
                ) || follows(d.folders[i], files, d.folders, gone) by {
                    if parent != Some(d.folders[i].id) {
                        lemma_linked_folder(d.files, d.folders, i);
                        lemma_lists_file(d.files, d.folders, i, k);
                        lemma_file_errors_same(d.folders[i].child_files, d.files, k, file);
                        assert(follows(d.folders[i], d.files, d.folders, gone));
                    }
                }
            }
            if parent.is_some() && find_folder(d.folders, parent->0).is_some() {
                lemma_found_folder(d.folders, parent->0);
                lemma_linked_folder(d.files, d.folders, find_folder(d.folders, parent->0)->0);
            }
            let from = d.files[k].status.spec_bucket();
            let to = status.spec_bucket();
            if from == to && to != StatusBucket::Error {
                assert(d.files[k].status == status);
            } else {
                lemma_raise_following(files, d.folders, parent, from, to, gone, d.folders.len());
            }
        }
    }
}

/// A download whose state is that of its root keeps it so.
pub proof fn law_download_follows_root(
    d: DownloadModel,
    id: FileId,
    status: FileStatus,
    gone: Seq<FolderId>,
)
    requires
        root_status(d).is_some() ==> root_status(d) == Some(d.status),
    ensures
        ({
            let after = spec_set_file_status(d, id, status, gone).0;
            root_status(after).is_some() ==> root_status(after) == Some(after.status)
        }),
{
    if find_file(d.files, id).is_some() {
        lemma_found_file(d.files, id);
        let k = find_file(d.files, id)->0;
        if d.files[k].status != status {
            let from = d.files[k].status.spec_bucket();
            let to = status.spec_bucket();
            if from == to && to != StatusBucket::Error {
                assert(d.files[k].status == status);
            }
        }
    }
}

/// The file that was asked for is in the state that it was given, and of the other
/// files nothing changes.
pub proof fn law_set_file_status_sets_one_file(
    d: DownloadModel,
    id: FileId,
    status: FileStatus,
    gone: Seq<FolderId>,
)
    requires
        unique_files(d.files),
    ensures
        ({
            let after = spec_set_file_status(d, id, status, gone).0;
            &&& after.files.len() == d.files.len()
            &&& forall|k: int|
                0 <= k < d.files.len() ==> #[trigger] after.files[k] == if d.files[k].id == id {
                    FileModel { status, ..d.files[k] }
                } else {
                    d.files[k]
                }
        }),
{
    if find_file(d.files, id).is_some() {
        lemma_found_file(d.files, id);
        let k = find_file(d.files, id)->0;
        assert forall|j: int| 0 <= j < d.files.len() && j != k implies (#[trigger] d.files[j]).id
            != id by {
            assert(d.files[k].id == id);
        }
    }
}

/// The counters of a folder whose children have all just been made.
proof fn lemma_fresh_counters(n: nat, b: StatusBucket)
    requires
        n <= usize::MAX,
    ensures
        counters_of(fresh(n)).len() == 6,
        counters_of(fresh(n))[b.index()] == if b == StatusBucket::Uninitialized {
            n as int
        } else {
            0
        },
    decreases n,
{
    if n > 0 {
        let m = (n - 1) as nat;
        assert(fresh(n).drop_last() =~= fresh(m));
        lemma_fresh_counters(m, b);
        lemma_fresh_counters(m, StatusBucket::Uninitialized);
    }
}

proof fn lemma_fresh_files(ids: Seq<FileId>, files: Seq<FileModel>, b: StatusBucket)
    requires
        forall|j: int| 0 <= j < ids.len() ==> find_file(files, #[trigger] ids[j]).is_some(),
        forall|k: int| 0 <= k < files.len() ==> (#[trigger] files[k]).status is Uninitialized,
    ensures
        count_files(ids, files, b) == if b == StatusBucket::Uninitialized {
            ids.len() as int
        } else {
            0
        },
    decreases ids.len(),
{
    if ids.len() > 0 {
        assert(find_file(files, ids[ids.len() - 1]).is_some());
        lemma_found_file(files, ids.last());
        lemma_fresh_files(ids.drop_last(), files, b);
    }
}

proof fn lemma_fresh_folders(ids: Seq<FolderId>, folders: Seq<FolderModel>, b: StatusBucket)
    requires
        forall|j: int| 0 <= j < ids.len() ==> find_folder(folders, #[trigger] ids[j]).is_some(),
        forall|k: int| 0 <= k < folders.len() ==> (#[trigger] folders[k]).status is Uninitialized,
    ensures
        count_folders(ids, folders, b) == if b == StatusBucket::Uninitialized {
            ids.len() as int
        } else {
            0
        },
    decreases ids.len(),
{
    if ids.len() > 0 {
        assert(find_folder(folders, ids[ids.len() - 1]).is_some());
        lemma_found_folder(folders, ids.last());
        lemma_fresh_folders(ids.drop_last(), folders, b);
    }
}

/// What a root folder becomes is a tree.
proof fn lemma_grown_is_linked(
    root: Waiting,
    files: Seq<FileModel>,
    grown: Seq<FolderModel>,
)
    requires
        root.id == FolderId(0),
        root.parent_id.is_none(),
        grown_files(0, files, grown),
        grown_folders(seq![root], 1, grown),
        grown_lists(grown),
    ensures
        linked(files, grown.reverse()),
{
    reveal(linked);
    let folders = grown.reverse();
    let n = grown.len();
    assert forall|i: int| 0 <= i < n implies #[trigger] folders[i] == grown[n - 1 - i] by {}
    assert forall|i: int| 0 <= i < n implies #[trigger] grown[i] == folders[n - 1 - i] by {}
    assert forall|id: FolderId| #[trigger] has_folder(grown, id) implies find_folder(
        folders,
        id,
    ).is_some() by {
        let i = choose|i: int| 0 <= i < n && (#[trigger] grown[i]).id == id;
        assert(folders[n - 1 - i].id == id);
    }
    assert forall|i: int, j: int|
        0 <= i < folders.len() && 0 <= j < folders.len() && (#[trigger] folders[i]).id == (
        #[trigger] folders[j]).id implies i == j by {
        assert(grown[n - 1 - i].id == grown[n - 1 - j].id);
    }
    assert forall|i: int| 0 <= i < folders.len() implies {
        let f = #[trigger] folders[i];
        &&& f.counters.len() == 6
        &&& f.id.0 < folders.len()
        &&& f.child_files.no_duplicates()
        &&& f.child_folders.no_duplicates()
        &&& f.parent_id matches Some(p) ==> p.0 < f.id.0 && find_folder(folders, p).is_some()
    } by {
        let f = grown[n - 1 - i];
        lemma_fresh_counters(
            f.child_files.len() + f.child_folders.len(),
            StatusBucket::Uninitialized,
        );
        if waits(seq![root], f.id, f.parent_id) {
            assert(f.parent_id.is_none());
        }
    }
    assert forall|i: int, k: int| 0 <= i < folders.len() && 0 <= k < files.len() implies ((
    #[trigger] folders[i]).child_files.contains((#[trigger] files[k]).id) <==> files[k].parent_id
        == Some(folders[i].id)) by {
        let f = grown[n - 1 - i];
        assert(files[k].id.0 == k);
        assert(grown[n - 1 - i].child_files.contains(files[k].id) <==> files[k].parent_id == Some(
            f.id,
        ));
    }
    assert forall|i: int, k: int| 0 <= i < folders.len() && 0 <= k < folders.len() implies ((
    #[trigger] folders[i]).child_folders.contains((#[trigger] folders[k]).id)
        <==> folders[k].parent_id == Some(folders[i].id)) by {
        assert(grown[n - 1 - i].child_folders.contains(grown[n - 1 - k].id)
            <==> grown[n - 1 - k].parent_id == Some(grown[n - 1 - i].id));
    }
    assert forall|i: int, j: int|
        0 <= i < folders.len() && 0 <= j < folders[i].child_files.len() implies find_file(
        files,
        #[trigger] folders[i].child_files[j],
    ).is_some() by {
        let x = folders[i].child_files[j];
        assert(grown[n - 1 - i].child_files.contains(x));
        assert(files[x.0 as int].id == x);
    }
    assert forall|i: int, j: int|
        0 <= i < folders.len() && 0 <= j < folders[i].child_folders.len() implies find_folder(
        folders,
        #[trigger] folders[i].child_folders[j],
    ).is_some() by {
        assert(has_folder(grown, grown[n - 1 - i].child_folders[j]));
    }
}

/// A folder whose children have all just been made counts them right, and is in the state
/// that follows from them.
proof fn lemma_fresh_folder(d: DownloadModel, i: int, gone: Seq<FolderId>)
    requires
        linked(d.files, d.folders),
        forall|k: int|
            0 <= k < d.files.len() ==> (#[trigger] d.files[k]).status is Uninitialized,
        forall|k: int|
            0 <= k < d.folders.len() ==> (#[trigger] d.folders[k]).status is Uninitialized,
        0 <= i < d.folders.len(),
        child_count(d.folders[i]) <= usize::MAX,
        d.folders[i].counters == counters_of(
            fresh(d.folders[i].child_files.len() + d.folders[i].child_folders.len()),
        ),
    ensures
        counted(d.folders[i], d.files, d.folders),
        follows(d.folders[i], d.files, d.folders, gone),
{
    let f = d.folders[i];
    lemma_linked_folder(d.files, d.folders, i);
    assert forall|b: StatusBucket| #[trigger] in_bucket(f, b) == tally(
        f,
        d.files,
        d.folders,
        b,
    ) by {
        lemma_fresh_counters(child_count(f), b);
        lemma_fresh_files(f.child_files, d.files, b);
        lemma_fresh_folders(f.child_folders, d.folders, b);
    }
    lemma_fresh_counters(child_count(f), StatusBucket::Partial);
    lemma_fresh_counters(child_count(f), StatusBucket::Uninitialized);
    assert(in_bucket(f, StatusBucket::Partial) == 0);
    assert(in_bucket(f, StatusBucket::Uninitialized) == child_count(f));
}

/// A download that has just been made is in order, its root is its only item at the
/// top, every folder is in the state that follows from its children, and the download is
/// in the state of its root.
pub proof fn law_new_download_is_in_order(
    target: TargetOs,
    id: usize,
    task: DownloadTask,
    save_path: Seq<Seq<u8>>,
    gone: Seq<FolderId>,
)
    requires
        task.task_type matches TaskType::Folder(folder) ==> files_below(folder) <= usize::MAX
            && folders_below(folder) < usize::MAX,
    ensures
        ({
            let d = new_download(target, id, task, save_path);
            &&& tree_ok(d)
            &&& one_root(d)
            &&& countable(d.folders)
            &&& following(d.files, d.folders, None, gone)
            &&& root_status(d) == Some(d.status)
        }),
{
    let d = new_download(target, id, task, save_path);
    reveal(following);
    match task.task_type {
        TaskType::File(_) => {
            reveal(linked);
            assert(find_file(d.files, FileId(0)) == Some(0int)) by {
                assert(d.files[0].id == FileId(0));
            }
        },
        TaskType::Folder(folder) => {
            let root = Waiting { task: folder, path: save_path, parent_id: None, id: FolderId(0) };
            lemma_root_grows(target, root);
            let (files, grown) = grow(target, seq![root], 0, 1);
            let n = grown.len();
            lemma_grown_is_linked(root, files, grown);
            assert forall|i: int| 0 <= i < d.folders.len() implies #[trigger] d.folders[i]
                == grown[n - 1 - i] by {}
            assert forall|i: int| 0 <= i < d.folders.len() implies counted(
                #[trigger] d.folders[i],
                d.files,
                d.folders,
            ) && child_count(d.folders[i]) <= usize::MAX && follows(
                d.folders[i],
                d.files,
                d.folders,
                gone,
            ) by {
                assert(d.folders[i] == grown[n - 1 - i]);
                lemma_fresh_folder(d, i, gone);
            }
            assert(seq![root][0].id == FolderId(0));
            assert(has_folder(grown, seq![root][0].id));
            let k = choose|k: int| 0 <= k < n && (#[trigger] grown[k]).id == FolderId(0);
            assert(d.folders[n - 1 - k].id == FolderId(0));
            lemma_linked_folder(d.files, d.folders, n - 1 - k);
            lemma_find_folder(d.folders, n - 1 - k);
            assert(grown[k].parent_id.is_none());
            assert forall|j: int|
                0 <= j < d.folders.len() && (
                #[trigger] d.folders[j]).parent_id.is_none() implies d.folders[j].id == FolderId(
                0,
            ) by {
                assert(waits(seq![root], grown[n - 1 - j].id, grown[n - 1 - j].parent_id));
            }
        },
    }
}

} // verus!
