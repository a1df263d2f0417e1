//! Which downloads are being verified, and which are still to be.
//!
//! The two are kept apart. A verification that is paused is just given up, and the
//! download stays one that is still to be verified. That it is being verified need
//! never be stored, as nothing is when the program starts.

use std::collections::HashSet;

use vstd::prelude::*;
use crate::download::items::DownloadId;
use crate::download::tree::Download;

verus! {

broadcast use vstd::std_specs::hash::group_hash_axioms;

/// Which downloads are being verified, and which are still to be.
pub struct VerificationTracker {
    verifying: HashSet<usize>,
    needs_verification: HashSet<usize>,
}

/// The verifications, in mathematical values.
#[verifier::ext_equal]
pub struct TrackerModel {
    pub verifying: Set<usize>,
    pub needed: Set<usize>,
}

impl View for VerificationTracker {
    type V = TrackerModel;

    closed spec fn view(&self) -> TrackerModel {
        TrackerModel { verifying: self.verifying@, needed: self.needs_verification@ }
    }
}

/// Whether a download is among some.
pub open spec fn is_among(downloads: Seq<Download>, id: usize) -> bool {
    exists|i: int| 0 <= i < downloads.len() && (#[trigger] downloads[i]).id.0 == id
}

impl TrackerModel {
    /// Without a download, which has been verified or is gone.
    pub open spec fn without(self, id: DownloadId) -> TrackerModel {
        TrackerModel { verifying: self.verifying.remove(id.0), needed: self.needed.remove(id.0) }
    }
}

impl VerificationTracker {
    /// All of the downloads that were loaded are to be verified, and it has begun.
    pub fn from_downloads(downloads: &Vec<Download>) -> (r: Self)
        ensures
            r@ == (TrackerModel {
                verifying: Set::new(|id: usize| is_among(downloads@, id)),
                needed: Set::new(|id: usize| is_among(downloads@, id)),
            }),
    {
        let mut r = VerificationTracker {
            verifying: HashSet::new(),
            needs_verification: HashSet::new(),
        };
        let n: usize = downloads.len();
        let mut i: usize = 0;
        while i < n
            invariant
                i <= n,
                n == downloads@.len(),
                forall|id: usize| #[trigger]
                    r.verifying@.contains(id) <==> is_among(downloads@.take(i as int), id),
                forall|id: usize| #[trigger]
                    r.needs_verification@.contains(id) <==> is_among(
                        downloads@.take(i as int),
                        id,
                    ),
            decreases n - i,
        {
            let id: usize = downloads[i].id.0;
            proof {
                assert forall|k: usize| #[trigger] is_among(downloads@.take(i + 1), k) <==> (k == id
                    || is_among(downloads@.take(i as int), k)) by {
                    let before = downloads@.take(i as int);
                    let after = downloads@.take(i + 1);
                    if k == id {
                        assert(after[i as int].id.0 == k);
                    }
                    if is_among(before, k) {
                        let j = choose|j: int| 0 <= j < before.len() && (#[trigger] before[j]).id.0
                            == k;
                        assert(after[j].id.0 == k);
                    }
                    if is_among(after, k) {
                        let j = choose|j: int| 0 <= j < after.len() && (#[trigger] after[j]).id.0
                            == k;
                        if j < i {
                            assert(before[j].id.0 == k);
                        }
                    }
                }
            }
            let _ = r.verifying.insert(id);
            let _ = r.needs_verification.insert(id);
            i += 1;
        }
        assert(downloads@.take(n as int) =~= downloads@);
        assert(r@.verifying =~= Set::new(|id: usize| is_among(downloads@, id)));
        assert(r@.needed =~= Set::new(|id: usize| is_among(downloads@, id)));
        r
    }

    /// The verification of a download begins.
    pub fn verify(&mut self, download_id: DownloadId)
        ensures
            final(self)@ == (TrackerModel {
                verifying: old(self)@.verifying.insert(download_id.0),
                ..old(self)@
            }),
    {
        let _ = self.verifying.insert(download_id.0);
        assert(self@.verifying =~= old(self)@.verifying.insert(download_id.0));
    }

    /// Whether there is a verification to be called off. Only when that has been
    /// heard of is the download taken out.
    pub fn cancel(&self, download_id: DownloadId) -> (r: bool)
        ensures
            r == self@.verifying.contains(download_id.0),
    {
        self.is_verifying(&download_id)
    }

    /// The verification of a download is given up. It is still to be verified.
    pub fn pause(&mut self, download_id: DownloadId)
        ensures
            final(self)@ == (TrackerModel {
                verifying: old(self)@.verifying.remove(download_id.0),
                ..old(self)@
            }),
    {
        let _ = self.verifying.remove(&download_id.0);
        assert(self@.verifying =~= old(self)@.verifying.remove(download_id.0));
    }

    /// A download has been verified, or is gone.
    pub fn remove(&mut self, download_id: &DownloadId)
        ensures
            final(self)@ == old(self)@.without(*download_id),
    {
        let _ = self.verifying.remove(&download_id.0);
        let _ = self.needs_verification.remove(&download_id.0);
        assert(self@ =~= old(self)@.without(*download_id));
    }

    /// Whether a download is still to be verified.
    pub fn needs_verification(&self, download_id: &DownloadId) -> (r: bool)
        ensures
            r == self@.needed.contains(download_id.0),
    {
        self.needs_verification.contains(&download_id.0)
    }

    /// Whether a download is being verified.
    pub fn is_verifying(&self, download_id: &DownloadId) -> (r: bool)
        ensures
            r == self@.verifying.contains(download_id.0),
    {
        self.verifying.contains(&download_id.0)
    }
}

} // verus!
