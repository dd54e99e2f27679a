//! The job store: a durable mapping of job id to download record plus
//! per-profile settings, with the queries the scheduler and the chaining
//! hook rely on.
//!
//! The store enforces three invariants over its records: every record is
//! well-formed, job ids are unique, and at most one non-cancelled record
//! exists per `(profile, media, season, episode)` key.

use vstd::prelude::*;

use crate::record::DownloadRecord;
use crate::seqs::{lemma_filter_all_kept, lemma_filter_push};
use crate::status::DownloadStatus;
use crate::text;

verus! {

/// Why a record could not be inserted.
#[derive(Clone, Copy, Debug, PartialEq, Eq, Structural)]
pub enum StoreError {
    /// A record with the same job id already exists.
    DuplicateId,
    /// A non-cancelled record for the same episode key already exists.
    DuplicateEpisode,
}

impl StoreError {
    /// The message under which the error is reported.
    pub open spec fn spec_message(self) -> Seq<char> {
        match self {
            StoreError::DuplicateId => "duplicate download id"@,
            StoreError::DuplicateEpisode => "episode already downloading or downloaded"@,
        }
    }

    pub fn message(&self) -> (r: &'static str)
        ensures
            r@ == self.spec_message(),
    {
        match self {
            StoreError::DuplicateId => "duplicate download id",
            StoreError::DuplicateEpisode => "episode already downloading or downloaded",
        }
    }
}

/// Per-profile settings: a storage quota (0 = unlimited) and the defaults
/// for the smart-download flags of newly enqueued jobs.
#[derive(Debug)]
pub struct ProfileSettings {
    pub profile_id: String,
    pub quota_bytes: i64,
    pub smart_download_default: bool,
    pub auto_delete_default: bool,
}

/// Every record is well-formed.
pub open spec fn all_wf(jobs: Seq<DownloadRecord>) -> bool {
    forall|i: int| 0 <= i < jobs.len() ==> (#[trigger] jobs[i]).wf()
}

/// Job ids are unique across the store.
pub open spec fn ids_unique(jobs: Seq<DownloadRecord>) -> bool {
    forall|i: int, j: int|
        0 <= i < j < jobs.len() ==> (#[trigger] jobs[i]).id@ != (#[trigger] jobs[j]).id@
}

/// At most one non-cancelled record per `(profile, media, season, episode)`.
pub open spec fn episode_keys_unique(jobs: Seq<DownloadRecord>) -> bool {
    forall|i: int, j: int|
        0 <= i < j < jobs.len() && !((#[trigger] jobs[i]).status is Cancelled) && !((#[trigger] jobs[j]).status
            is Cancelled) ==> !jobs[i].same_episode_key(jobs[j])
}

/// Some record carries this job id.
pub open spec fn spec_has_id(jobs: Seq<DownloadRecord>, id: Seq<char>) -> bool {
    exists|i: int| 0 <= i < jobs.len() && (#[trigger] jobs[i]).id@ == id
}

/// Some non-cancelled record shares `rec`'s episode key.
pub open spec fn spec_key_conflict(jobs: Seq<DownloadRecord>, rec: DownloadRecord) -> bool {
    exists|i: int|
        0 <= i < jobs.len() && !((#[trigger] jobs[i]).status is Cancelled)
            && jobs[i].same_episode_key(rec)
}

/// Profile ids are unique across the settings table.
pub open spec fn profiles_unique(settings: Seq<ProfileSettings>) -> bool {
    forall|i: int, j: int|
        0 <= i < j < settings.len() ==> (#[trigger] settings[i]).profile_id@ != (
        #[trigger] settings[j]).profile_id@
}

/// The job store.
pub struct DownloadDb {
    jobs: Vec<DownloadRecord>,
    settings: Vec<ProfileSettings>,
}

impl DownloadDb {
    /// The stored records, in insertion order.
    pub closed spec fn jobs_view(self) -> Seq<DownloadRecord> {
        self.jobs@
    }

    /// The stored per-profile settings.
    pub closed spec fn settings_view(self) -> Seq<ProfileSettings> {
        self.settings@
    }

    /// The store's invariant.
    pub open spec fn wf(self) -> bool {
        &&& all_wf(self.jobs_view())
        &&& ids_unique(self.jobs_view())
        &&& episode_keys_unique(self.jobs_view())
        &&& profiles_unique(self.settings_view())
    }

    /// Opens an empty store.
    pub fn new() -> (r: Self)
        ensures
            r.wf(),
            r.jobs_view() == Seq::<DownloadRecord>::empty(),
            r.settings_view() == Seq::<ProfileSettings>::empty(),
    {
        DownloadDb { jobs: Vec::new(), settings: Vec::new() }
    }

    /// Inserts a new record. Fails without mutating the store when the id is
    /// taken, or when a non-cancelled record for the same episode key exists
    /// while `rec` itself is not cancelled.
    pub fn insert(&mut self, rec: DownloadRecord) -> (r: Result<(), StoreError>)
        requires
            old(self).wf(),
            rec.wf(),
        ensures
            final(self).wf(),
            final(self).settings_view() == old(self).settings_view(),
            match r {
                Ok(()) => {
                    &&& !spec_has_id(old(self).jobs_view(), rec.id@)
                    &&& !(rec.status is Cancelled) ==> !spec_key_conflict(
                        old(self).jobs_view(),
                        rec,
                    )
                    &&& final(self).jobs_view() == old(self).jobs_view().push(rec)
                },
                Err(StoreError::DuplicateId) => {
                    &&& spec_has_id(old(self).jobs_view(), rec.id@)
                    &&& final(self).jobs_view() == old(self).jobs_view()
                },
                Err(StoreError::DuplicateEpisode) => {
                    &&& !spec_has_id(old(self).jobs_view(), rec.id@)
                    &&& !(rec.status is Cancelled)
                    &&& spec_key_conflict(old(self).jobs_view(), rec)
                    &&& final(self).jobs_view() == old(self).jobs_view()
                },
            },
    {
        let n = self.jobs.len();
        let mut i: usize = 0;
        while i < n
            invariant
                *self == *old(self),
                old(self).wf(),
                n == self.jobs@.len(),
                i <= n,
                forall|k: int| 0 <= k < i ==> (#[trigger] self.jobs@[k]).id@ != rec.id@,
            decreases n - i,
        {
            if text::str_eq(self.jobs[i].id.as_str(), rec.id.as_str()) {
                return Err(StoreError::DuplicateId);
            }
            i += 1;
        }
        if !matches!(rec.status, DownloadStatus::Cancelled) {
            let mut j: usize = 0;
            while j < n
                invariant
                    *self == *old(self),
                    old(self).wf(),
                    !(rec.status is Cancelled),
                    !spec_has_id(self.jobs@, rec.id@),
                    n == self.jobs@.len(),
                    j <= n,
                    forall|k: int|
                        0 <= k < j ==> !(!((#[trigger] self.jobs@[k]).status is Cancelled)
                            && self.jobs@[k].same_episode_key(rec)),
                decreases n - j,
            {
                let other = &self.jobs[j];
                if !matches!(other.status, DownloadStatus::Cancelled) && text::str_eq(
                    other.profile_id.as_str(),
                    rec.profile_id.as_str(),
                ) && text::str_eq(other.media_id.as_str(), rec.media_id.as_str()) && opt_i64_eq(
                    &other.season,
                    &rec.season,
                ) && opt_i64_eq(&other.episode, &rec.episode) {
                    return Err(StoreError::DuplicateEpisode);
                }
                j += 1;
            }
        }
        self.jobs.push(rec);
        Ok(())
    }

    /// Looks a record up by id; returns a copy, or `None` when the id is
    /// unknown.
    pub fn get_by_id(&self, id: &str) -> (r: Option<DownloadRecord>)
        requires
            self.wf(),
        ensures
            match r {
                Some(rec) => {
                    &&& rec.id@ == id@
                    &&& rec.wf()
                    &&& exists|i: int|
                        0 <= i < self.jobs_view().len() && #[trigger] self.jobs_view()[i] == rec
                },
                None => !spec_has_id(self.jobs_view(), id@),
            },
    {
        let n = self.jobs.len();
        let mut i: usize = 0;
        while i < n
            invariant
                self.wf(),
                n == self.jobs@.len(),
                i <= n,
                forall|k: int| 0 <= k < i ==> (#[trigger] self.jobs@[k]).id@ != id@,
            decreases n - i,
        {
            if text::str_eq(self.jobs[i].id.as_str(), id) {
                return Some(self.jobs[i].clone());
            }
            i += 1;
        }
        None
    }

    /// Index of the record with this id, if any.
    fn index_of_id(&self, id: &str) -> (r: Option<usize>)
        ensures
            match r {
                Some(i) => i < self.jobs_view().len() && self.jobs_view()[i as int].id@ == id@,
                None => !spec_has_id(self.jobs_view(), id@),
            },
    {
        let n = self.jobs.len();
        let mut i: usize = 0;
        while i < n
            invariant
                n == self.jobs@.len(),
                i <= n,
                forall|k: int| 0 <= k < i ==> (#[trigger] self.jobs@[k]).id@ != id@,
            decreases n - i,
        {
            if text::str_eq(self.jobs[i].id.as_str(), id) {
                return Some(i);
            }
            i += 1;
        }
        None
    }

    /// Records a progress reading: the matching record (if any) turns
    /// `Downloading` and carries the new percentage and byte count. Progress
    /// through this call stays below 100: completion is recorded only by
    /// `update_complete`.
    pub fn update_progress(&mut self, id: &str, progress: u8, downloaded_bytes: u64)
        requires
            old(self).wf(),
            progress <= 100,
            forall|i: int|
                0 <= i < old(self).jobs_view().len() && (#[trigger] old(self).jobs_view()[i]).id@
                    == id@ ==> old(self).jobs_view()[i].status is Queued || old(
                    self,
                ).jobs_view()[i].status is Downloading,
        ensures
            final(self).wf(),
            final(self).settings_view() == old(self).settings_view(),
            final(self).jobs_view().len() == old(self).jobs_view().len(),
            forall|i: int|
                0 <= i < old(self).jobs_view().len() ==> #[trigger] final(self).jobs_view()[i] == (
                if old(self).jobs_view()[i].id@ == id@ {
                    spec_with_progress(old(self).jobs_view()[i], progress, downloaded_bytes)
                } else {
                    old(self).jobs_view()[i]
                }),
    {
        if let Some(i) = self.index_of_id(id) {
            let mut rec = self.jobs[i].clone();
            rec.status = DownloadStatus::Downloading;
            rec.progress = if progress < 100 {
                progress
            } else {
                99
            };
            rec.downloaded_bytes = downloaded_bytes;
            self.jobs[i] = rec;
            proof {
                lemma_pointwise_update_wf(old(self).jobs_view(), self.jobs_view());
            }
        }
    }

    /// Replaces the status of the matching record (if any). Completion and
    /// failure go through `update_complete` and `update_error` instead, and a
    /// terminal record admits no further transition.
    pub fn update_status(&mut self, id: &str, status: &DownloadStatus)
        requires
            old(self).wf(),
            !(status is Completed),
            !(status is Failed),
            forall|i: int|
                0 <= i < old(self).jobs_view().len() && (#[trigger] old(self).jobs_view()[i]).id@
                    == id@ ==> !old(self).jobs_view()[i].status.is_terminal(),
        ensures
            final(self).wf(),
            final(self).settings_view() == old(self).settings_view(),
            final(self).jobs_view().len() == old(self).jobs_view().len(),
            forall|i: int|
                0 <= i < old(self).jobs_view().len() ==> #[trigger] final(self).jobs_view()[i] == (
                if old(self).jobs_view()[i].id@ == id@ {
                    spec_with_status(old(self).jobs_view()[i], *status)
                } else {
                    old(self).jobs_view()[i]
                }),
    {
        if let Some(i) = self.index_of_id(id) {
            let mut rec = self.jobs[i].clone();
            rec.status = *status;
            self.jobs[i] = rec;
            proof {
                lemma_pointwise_update_wf(old(self).jobs_view(), self.jobs_view());
            }
        }
    }

    /// Marks the matching record (if any) completed: full progress, the final
    /// artifact path and size, and the completion timestamp.
    pub fn update_complete(&mut self, id: &str, file_path: &str, file_size: u64, now_ms: i64)
        requires
            old(self).wf(),
            file_path@.len() > 0,
            file_size > 0,
            forall|i: int|
                0 <= i < old(self).jobs_view().len() && (#[trigger] old(self).jobs_view()[i]).id@
                    == id@ ==> !old(self).jobs_view()[i].status.is_terminal(),
        ensures
            final(self).wf(),
            final(self).settings_view() == old(self).settings_view(),
            final(self).jobs_view().len() == old(self).jobs_view().len(),
            forall|i: int|
                0 <= i < old(self).jobs_view().len() && old(self).jobs_view()[i].id@ != id@
                    ==> #[trigger] final(self).jobs_view()[i] == old(self).jobs_view()[i],
            forall|i: int|
                0 <= i < old(self).jobs_view().len() && old(self).jobs_view()[i].id@ == id@ ==> {
                    &&& #[trigger] final(self).jobs_view()[i] == spec_with_complete(
                        old(self).jobs_view()[i],
                        final(self).jobs_view()[i].file_path,
                        file_size,
                        now_ms,
                    )
                    &&& final(self).jobs_view()[i].file_path@ == file_path@
                },
    {
        if let Some(i) = self.index_of_id(id) {
            let mut rec = self.jobs[i].clone();
            rec.status = DownloadStatus::Completed;
            rec.progress = 100;
            rec.file_path = file_path.to_owned();
            rec.file_size = file_size;
            rec.completed_at = Some(now_ms);
            self.jobs[i] = rec;
            proof {
                lemma_pointwise_update_wf(old(self).jobs_view(), self.jobs_view());
            }
        }
    }

    /// Marks the matching record (if any) failed and records the reason.
    pub fn update_error(&mut self, id: &str, error: &str)
        requires
            old(self).wf(),
            error@.len() > 0,
            forall|i: int|
                0 <= i < old(self).jobs_view().len() && (#[trigger] old(self).jobs_view()[i]).id@
                    == id@ ==> !old(self).jobs_view()[i].status.is_terminal(),
        ensures
            final(self).wf(),
            final(self).settings_view() == old(self).settings_view(),
            final(self).jobs_view().len() == old(self).jobs_view().len(),
            forall|i: int|
                0 <= i < old(self).jobs_view().len() && old(self).jobs_view()[i].id@ != id@
                    ==> #[trigger] final(self).jobs_view()[i] == old(self).jobs_view()[i],
            forall|i: int|
                0 <= i < old(self).jobs_view().len() && old(self).jobs_view()[i].id@ == id@ ==> {
                    &&& #[trigger] final(self).jobs_view()[i] == spec_with_error(
                        old(self).jobs_view()[i],
                        final(self).jobs_view()[i].error_message.unwrap(),
                    )
                    &&& final(self).jobs_view()[i].error_message is Some
                    &&& final(self).jobs_view()[i].error_message.unwrap()@ == error@
                },
    {
        if let Some(i) = self.index_of_id(id) {
            let mut rec = self.jobs[i].clone();
            rec.status = DownloadStatus::Failed;
            rec.error_message = Some(error.to_owned());
            self.jobs[i] = rec;
            proof {
                lemma_pointwise_update_wf(old(self).jobs_view(), self.jobs_view());
            }
        }
    }

    /// Replaces the chaining flags of the matching record (if any).
    pub fn update_smart_flags(&mut self, id: &str, smart: bool, auto_delete: bool)
        requires
            old(self).wf(),
        ensures
            final(self).wf(),
            final(self).settings_view() == old(self).settings_view(),
            final(self).jobs_view().len() == old(self).jobs_view().len(),
            forall|i: int|
                0 <= i < old(self).jobs_view().len() ==> #[trigger] final(self).jobs_view()[i] == (
                if old(self).jobs_view()[i].id@ == id@ {
                    spec_with_flags(old(self).jobs_view()[i], smart, auto_delete)
                } else {
                    old(self).jobs_view()[i]
                }),
    {
        if let Some(i) = self.index_of_id(id) {
            let mut rec = self.jobs[i].clone();
            rec.smart_download = smart;
            rec.auto_delete = auto_delete;
            self.jobs[i] = rec;
            proof {
                lemma_pointwise_update_wf(old(self).jobs_view(), self.jobs_view());
            }
        }
    }
}

impl DownloadDb {
    /// Deletes the record with this id, if present. Deleting an unknown id
    /// is a no-op, so a second delete of the same id does nothing.
    #[verifier::loop_isolation(false)]
    pub fn delete(&mut self, id: &str)
        requires
            old(self).wf(),
        ensures
            final(self).wf(),
            final(self).settings_view() == old(self).settings_view(),
            final(self).jobs_view() == spec_remove_id(old(self).jobs_view(), id@),
    {
        let ghost pred = spec_keeps_other_ids(id@);
        let n = self.jobs.len();
        let mut kept: Vec<DownloadRecord> = Vec::new();
        let mut i: usize = 0;
        while i < n
            invariant
                *self == *old(self),
                n == self.jobs@.len(),
                i <= n,
                kept@ == self.jobs@.subrange(0, i as int).filter(pred),
            decreases n - i,
        {
            if !text::str_eq(self.jobs[i].id.as_str(), id) {
                kept.push(self.jobs[i].clone());
            }
            proof {
                let sub = self.jobs@.subrange(0, i as int);
                let sub1 = self.jobs@.subrange(0, i as int + 1);
                assert(sub1 =~= sub.push(self.jobs@[i as int]));
                lemma_filter_push(sub, self.jobs@[i as int], pred);
                assert(kept@ == sub1.filter(pred));
            }
            i += 1;
        }
        proof {
            assert(self.jobs@.subrange(0, n as int) =~= self.jobs@);
            lemma_filter_preserves_wf(old(self).jobs_view(), pred);
        }
        self.jobs = kept;
    }

    /// Deletes every record of a profile and returns their ids, in store
    /// order, so the caller can remove the artifacts on disk.
    #[verifier::loop_isolation(false)]
    pub fn delete_all_for_profile(&mut self, profile_id: &str) -> (r: Vec<String>)
        requires
            old(self).wf(),
        ensures
            final(self).wf(),
            final(self).settings_view() == old(self).settings_view(),
            final(self).jobs_view() == spec_remove_profile(old(self).jobs_view(), profile_id@),
            r@ == spec_profile_job_ids(old(self).jobs_view(), profile_id@),
    {
        let ghost keep_pred = spec_keeps_other_profiles(profile_id@);
        let ghost gone_pred = spec_of_profile(profile_id@);
        let ghost id_of = spec_record_id();
        let n = self.jobs.len();
        let mut kept: Vec<DownloadRecord> = Vec::new();
        let mut ids: Vec<String> = Vec::new();
        let mut i: usize = 0;
        while i < n
            invariant
                *self == *old(self),
                n == self.jobs@.len(),
                i <= n,
                kept@ == self.jobs@.subrange(0, i as int).filter(keep_pred),
                ids@ == self.jobs@.subrange(0, i as int).filter(gone_pred).map_values(id_of),
            decreases n - i,
        {
            if text::str_eq(self.jobs[i].profile_id.as_str(), profile_id) {
                ids.push(self.jobs[i].id.clone());
            } else {
                kept.push(self.jobs[i].clone());
            }
            proof {
                let sub = self.jobs@.subrange(0, i as int);
                let sub1 = self.jobs@.subrange(0, i as int + 1);
                assert(sub1 =~= sub.push(self.jobs@[i as int]));
                lemma_filter_push(sub, self.jobs@[i as int], keep_pred);
                lemma_filter_push(sub, self.jobs@[i as int], gone_pred);
                assert(kept@ == sub1.filter(keep_pred));
                assert(ids@ =~= sub1.filter(gone_pred).map_values(id_of));
            }
            i += 1;
        }
        proof {
            assert(self.jobs@.subrange(0, n as int) =~= self.jobs@);
            lemma_filter_preserves_wf(old(self).jobs_view(), keep_pred);
        }
        self.jobs = kept;
        ids
    }

    /// Total artifact bytes (saturating) and record count of the completed
    /// downloads of a profile.
    pub fn get_storage_stats(&self, profile_id: &str) -> (r: (u64, u64))
        ensures
            r.0 as int == ({
                let s = spec_completed_bytes(self.jobs_view(), profile_id@);
                if s > u64::MAX as int {
                    u64::MAX as int
                } else {
                    s
                }
            }),
            r.1 as int == spec_completed_count(self.jobs_view(), profile_id@),
    {
        let n = self.jobs.len();
        let mut total: u64 = 0;
        let mut count: u64 = 0;
        let mut i: usize = 0;
        while i < n
            invariant
                n == self.jobs@.len(),
                i <= n,
                total as int == ({
                    let s = spec_completed_bytes(self.jobs@.subrange(0, i as int), profile_id@);
                    if s > u64::MAX as int {
                        u64::MAX as int
                    } else {
                        s
                    }
                }),
                count as int == spec_completed_count(self.jobs@.subrange(0, i as int), profile_id@),
                count <= i,
            decreases n - i,
        {
            proof {
                assert(self.jobs@.subrange(0, i as int + 1).drop_last() =~= self.jobs@.subrange(
                    0,
                    i as int,
                ));
            }
            let rec = &self.jobs[i];
            if matches!(rec.status, DownloadStatus::Completed) && text::str_eq(
                rec.profile_id.as_str(),
                profile_id,
            ) {
                total = if total > u64::MAX - rec.file_size {
                    u64::MAX
                } else {
                    total + rec.file_size
                };
                count = count + 1;
            }
            i += 1;
        }
        proof {
            assert(self.jobs@.subrange(0, n as int) =~= self.jobs@);
        }
        (total, count)
    }
}

impl DownloadDb {
    /// All records of a profile, ordered by `added_at` descending; records
    /// of equal age keep their store order.
    #[verifier::loop_isolation(false)]
    pub fn get_all(&self, profile_id: &str) -> (r: Vec<DownloadRecord>)
        requires
            self.wf(),
        ensures
            r@ == spec_sort_desc(
                self.jobs_view().filter(|rec: DownloadRecord| rec.profile_id@ == profile_id@),
            ),
    {
        let ghost pred = |rec: DownloadRecord| rec.profile_id@ == profile_id@;
        let n = self.jobs.len();
        let mut result: Vec<DownloadRecord> = Vec::new();
        let mut i: usize = 0;
        while i < n
            invariant
                i <= n,
                result@ == spec_sort_desc(self.jobs@.subrange(0, i as int).filter(pred)),
            decreases n - i,
        {
            if text::str_eq(self.jobs[i].profile_id.as_str(), profile_id) {
                let rec = self.jobs[i].clone();
                let m = result.len();
                let mut p: usize = 0;
                while p < m && result[p].added_at >= rec.added_at
                    invariant
                        p <= m == result@.len(),
                        forall|k: int| 0 <= k < p ==> result@[k].added_at >= rec.added_at,
                    decreases m - p,
                {
                    p += 1;
                }
                let ghost before = result@;
                proof {
                    lemma_insert_desc_at(before, rec, p as int);
                }
                result.insert(p, rec);
                proof {
                    assert(result@ =~= spec_insert_desc(before, rec));
                }
            }
            proof {
                let sub = self.jobs@.subrange(0, i as int);
                let sub1 = self.jobs@.subrange(0, i as int + 1);
                assert(sub1 =~= sub.push(self.jobs@[i as int]));
                lemma_filter_push(sub, self.jobs@[i as int], pred);
                if pred(self.jobs@[i as int]) {
                    assert(sub1.filter(pred).drop_last() =~= sub.filter(pred));
                    assert(sub1.filter(pred).last() == self.jobs@[i as int]);
                }
                assert(result@ == spec_sort_desc(sub1.filter(pred)));
            }
            i += 1;
        }
        proof {
            assert(self.jobs@.subrange(0, n as int) =~= self.jobs@);
        }
        result
    }
}

/// Insertion of one record into a run ordered by `added_at` descending: the
/// record goes after every record at least as recent, so records of equal
/// age keep their order.
pub open spec fn spec_insert_desc(s: Seq<DownloadRecord>, rec: DownloadRecord) -> Seq<
    DownloadRecord,
>
    decreases s.len(),
{
    if s.len() == 0 {
        seq![rec]
    } else if s[0].added_at >= rec.added_at {
        seq![s[0]] + spec_insert_desc(s.drop_first(), rec)
    } else {
        seq![rec] + s
    }
}

/// Stable sort by `added_at` descending: an insertion sort over the sequence
/// read left to right.
pub open spec fn spec_sort_desc(s: Seq<DownloadRecord>) -> Seq<DownloadRecord>
    decreases s.len(),
{
    if s.len() == 0 {
        Seq::empty()
    } else {
        spec_insert_desc(spec_sort_desc(s.drop_last()), s.last())
    }
}

/// Ordered by `added_at` descending.
pub open spec fn spec_sorted_desc(s: Seq<DownloadRecord>) -> bool {
    forall|i: int, j: int|
        0 <= i <= j < s.len() ==> (#[trigger] s[i]).added_at >= (#[trigger] s[j]).added_at
}

/// Ordered insertion leaves a run ordered; every element of the result is
/// the inserted record or one of the run's.
proof fn lemma_insert_desc_sorted(s: Seq<DownloadRecord>, rec: DownloadRecord)
    requires
        spec_sorted_desc(s),
    ensures
        spec_sorted_desc(spec_insert_desc(s, rec)),
        spec_insert_desc(s, rec).len() == s.len() + 1,
        forall|k: int|
            0 <= k < spec_insert_desc(s, rec).len() ==> #[trigger] spec_insert_desc(s, rec)[k]
                == rec || s.contains(spec_insert_desc(s, rec)[k]),
    decreases s.len(),
{
    let out = spec_insert_desc(s, rec);
    if s.len() == 0 {
        assert(out =~= seq![rec]);
    } else if s[0].added_at >= rec.added_at {
        let tail = s.drop_first();
        assert(spec_sorted_desc(tail));
        lemma_insert_desc_sorted(tail, rec);
        let sub = spec_insert_desc(tail, rec);
        assert(out =~= seq![s[0]] + sub);
        assert forall|k: int| 0 <= k < out.len() implies #[trigger] out[k] == rec || s.contains(
            out[k],
        ) by {
            if k == 0 {
                assert(s.contains(s[0]));
            } else {
                assert(out[k] == sub[k - 1]);
                if sub[k - 1] != rec {
                    let l = choose|l: int| 0 <= l < tail.len() && tail[l] == sub[k - 1];
                    assert(s[l + 1] == sub[k - 1]);
                    assert(s.contains(s[l + 1]));
                }
            }
        }
        assert forall|i: int, j: int|
            0 <= i <= j < out.len() implies (#[trigger] out[i]).added_at >= (
        #[trigger] out[j]).added_at by {
            if i == 0 && j > 0 {
                if out[j] != rec {
                    let l = choose|l: int| 0 <= l < tail.len() && tail[l] == out[j];
                    assert(s[0].added_at >= s[l + 1].added_at);
                }
            } else if i > 0 {
                assert(out[i] == sub[i - 1] && out[j] == sub[j - 1]);
            }
        }
    } else {
        assert(out =~= seq![rec] + s);
        assert forall|i: int, j: int|
            0 <= i <= j < out.len() implies (#[trigger] out[i]).added_at >= (
        #[trigger] out[j]).added_at by {
            if i == 0 && j > 0 {
                assert(rec.added_at > s[0].added_at);
                assert(s[0].added_at >= s[j - 1].added_at);
            }
        }
        assert(forall|k: int| 1 <= k < out.len() ==> out[k] == s[k - 1] && s.contains(s[k - 1]));
    }
}

/// Ordered insertion adds exactly the inserted record to the run's contents.
proof fn lemma_insert_desc_multiset(s: Seq<DownloadRecord>, rec: DownloadRecord)
    ensures
        spec_insert_desc(s, rec).to_multiset() == s.to_multiset().insert(rec),
    decreases s.len(),
{
    broadcast use vstd::seq_lib::group_to_multiset_ensures;

    let out = spec_insert_desc(s, rec);
    if s.len() == 0 {
        assert(out =~= Seq::<DownloadRecord>::empty().push(rec));
        assert(out.to_multiset() =~= s.to_multiset().insert(rec));
    } else if s[0].added_at >= rec.added_at {
        let tail = s.drop_first();
        lemma_insert_desc_multiset(tail, rec);
        let sub = spec_insert_desc(tail, rec);
        assert(out =~= seq![s[0]] + sub);
        vstd::seq_lib::lemma_multiset_commutative(seq![s[0]], sub);
        assert(s =~= seq![s[0]] + tail);
        vstd::seq_lib::lemma_multiset_commutative(seq![s[0]], tail);
        assert(out.to_multiset() =~= s.to_multiset().insert(rec));
    } else {
        assert(out =~= seq![rec] + s);
        vstd::seq_lib::lemma_multiset_commutative(seq![rec], s);
        assert(seq![rec] =~= Seq::<DownloadRecord>::empty().push(rec));
        assert(out.to_multiset() =~= s.to_multiset().insert(rec));
    }
}

/// The listing order: sorting by age leaves a run ordered by `added_at`
/// descending.
pub proof fn lemma_sort_desc_sorted(s: Seq<DownloadRecord>)
    ensures
        spec_sorted_desc(spec_sort_desc(s)),
    decreases s.len(),
{
    if s.len() > 0 {
        lemma_sort_desc_sorted(s.drop_last());
        lemma_insert_desc_sorted(spec_sort_desc(s.drop_last()), s.last());
    }
}

/// The listing is a permutation: sorting by age loses and invents no
/// records.
pub proof fn lemma_sort_desc_permutes(s: Seq<DownloadRecord>)
    ensures
        spec_sort_desc(s).to_multiset() == s.to_multiset(),
    decreases s.len(),
{
    broadcast use vstd::seq_lib::group_to_multiset_ensures;

    if s.len() > 0 {
        lemma_sort_desc_permutes(s.drop_last());
        lemma_insert_desc_multiset(spec_sort_desc(s.drop_last()), s.last());
        assert(s.drop_last().push(s.last()) =~= s);
        assert(spec_sort_desc(s).to_multiset() =~= s.to_multiset());
    }
}

/// Where the first position `p` holds the first element older than `rec`,
/// inserting `rec` by order is inserting it at `p`.
proof fn lemma_insert_desc_at(s: Seq<DownloadRecord>, rec: DownloadRecord, p: int)
    requires
        0 <= p <= s.len(),
        forall|k: int| 0 <= k < p ==> (#[trigger] s[k]).added_at >= rec.added_at,
        p < s.len() ==> s[p].added_at < rec.added_at,
    ensures
        spec_insert_desc(s, rec) == s.insert(p, rec),
    decreases s.len(),
{
    if s.len() == 0 {
        assert(spec_insert_desc(s, rec) =~= s.insert(p, rec));
    } else if p == 0 {
        assert(s[0].added_at < rec.added_at);
        assert(spec_insert_desc(s, rec) =~= s.insert(0, rec));
    } else {
        assert(s[0].added_at >= rec.added_at);
        let tail = s.drop_first();
        assert(forall|k: int| 0 <= k < p - 1 ==> (#[trigger] tail[k]).added_at >= rec.added_at);
        lemma_insert_desc_at(tail, rec, p - 1);
        assert(seq![s[0]] + tail.insert(p - 1, rec) =~= s.insert(p, rec));
    }
}

/// A record can chain a successor: a series episode with both numbers known
/// and room to increment the episode number.
pub open spec fn spec_chain_eligible(rec: DownloadRecord) -> bool {
    &&& rec.media_type@ == "series"@
    &&& rec.season is Some
    &&& rec.episode is Some
    &&& rec.episode.unwrap() < i64::MAX
}

/// Some non-cancelled record already covers the episode after `rec` in the
/// same series and profile.
pub open spec fn spec_next_episode_taken(jobs: Seq<DownloadRecord>, rec: DownloadRecord) -> bool {
    exists|j: int|
        0 <= j < jobs.len() && !((#[trigger] jobs[j]).status is Cancelled)
            && jobs[j].profile_id@ == rec.profile_id@ && jobs[j].media_id@ == rec.media_id@
            && jobs[j].season == rec.season && jobs[j].episode == Some(
            (rec.episode.unwrap() + 1) as i64,
        )
}

/// The fields every chained successor of `orig` carries: the same series
/// and profile, the next episode number, a generated `S<season>:E<episode>`
/// display title, queued with no artifact or progress yet, smart-download
/// set, auto-delete inherited. The successor's own id and enqueue time are
/// left open.
pub open spec fn spec_successor_fields(orig: DownloadRecord, t: DownloadRecord) -> bool {
    &&& t.profile_id == orig.profile_id
    &&& t.media_type == orig.media_type
    &&& t.media_id == orig.media_id
    &&& t.episode_id is None
    &&& t.title == orig.title
    &&& t.episode_title is Some
    &&& t.episode_title.unwrap()@ == crate::record::spec_episode_title(
        orig.season.unwrap(),
        (orig.episode.unwrap() + 1) as i64,
    )
    &&& t.season == orig.season
    &&& t.episode == Some((orig.episode.unwrap() + 1) as i64)
    &&& t.poster_path == orig.poster_path
    &&& t.status is Queued
    &&& t.progress == 0
    &&& t.quality == orig.quality
    &&& t.file_path@ == Seq::<char>::empty()
    &&& t.file_size == 0
    &&& t.downloaded_bytes == 0
    &&& t.completed_at is None
    &&& t.last_watched_at is None
    &&& t.watched_percent == 0
    &&& t.stream_url == orig.stream_url
    &&& t.addon_id == orig.addon_id
    &&& t.error_message is None
    &&& t.smart_download == true
    &&& t.auto_delete == orig.auto_delete
}

/// The template `get_next_episode` hands back: a successor with no id
/// assigned yet and no enqueue time.
pub open spec fn spec_is_next_template(orig: DownloadRecord, t: DownloadRecord) -> bool {
    &&& spec_successor_fields(orig, t)
    &&& t.id@ == Seq::<char>::empty()
    &&& t.added_at == 0
}

/// Appending a record keeps every present id present and adds its own.
pub proof fn lemma_push_keeps_has_id(jobs: Seq<DownloadRecord>, rec: DownloadRecord)
    ensures
        forall|x: Seq<char>| #[trigger] spec_has_id(jobs, x) ==> spec_has_id(jobs.push(rec), x),
        spec_has_id(jobs.push(rec), rec.id@),
{
    assert(jobs.push(rec)[jobs.len() as int] == rec);
    assert forall|x: Seq<char>| #[trigger] spec_has_id(jobs, x) implies spec_has_id(
        jobs.push(rec),
        x,
    ) by {
        let k = choose|k: int| 0 <= k < jobs.len() && (#[trigger] jobs[k]).id@ == x;
        assert(jobs.push(rec)[k].id@ == x);
    }
}

/// With unique ids, every record matching `rec`'s id is `rec` itself.
pub proof fn lemma_id_unique_match(jobs: Seq<DownloadRecord>, rec: DownloadRecord, id: Seq<char>)
    requires
        ids_unique(jobs),
        rec.id@ == id,
        exists|i: int| 0 <= i < jobs.len() && #[trigger] jobs[i] == rec,
    ensures
        forall|k: int| 0 <= k < jobs.len() && (#[trigger] jobs[k]).id@ == id ==> jobs[k] == rec,
{
    let i = choose|i: int| 0 <= i < jobs.len() && #[trigger] jobs[i] == rec;
    assert forall|k: int|
        0 <= k < jobs.len() && (#[trigger] jobs[k]).id@ == id implies jobs[k] == rec by {
        if k < i {
            assert(jobs[k].id@ != jobs[i].id@);
        } else if i < k {
            assert(jobs[i].id@ != jobs[k].id@);
        }
    }
}

impl DownloadDb {
    /// The template to auto-download after `completed_id` finishes: the next
    /// episode of the same series, unless the completed record cannot chain
    /// or a non-cancelled record for that episode already exists.
    #[verifier::loop_isolation(false)]
    pub fn get_next_episode(&self, completed_id: &str) -> (r: Option<DownloadRecord>)
        requires
            self.wf(),
        ensures
            match r {
                Some(t) => {
                    &&& t.wf()
                    &&& exists|i: int|
                        {
                            &&& 0 <= i < self.jobs_view().len()
                            &&& (#[trigger] self.jobs_view()[i]).id@ == completed_id@
                            &&& spec_chain_eligible(self.jobs_view()[i])
                            &&& !spec_next_episode_taken(self.jobs_view(), self.jobs_view()[i])
                            &&& spec_is_next_template(self.jobs_view()[i], t)
                        }
                },
                None => forall|i: int|
                    0 <= i < self.jobs_view().len() && (#[trigger] self.jobs_view()[i]).id@
                        == completed_id@ ==> !spec_chain_eligible(self.jobs_view()[i])
                        || spec_next_episode_taken(self.jobs_view(), self.jobs_view()[i]),
            },
    {
        let rec = match self.get_by_id(completed_id) {
            Some(r) => r,
            None => {
                return None;
            },
        };
        proof {
            lemma_id_unique_match(self.jobs_view(), rec, completed_id@);
        }
        if !text::str_eq(rec.media_type.as_str(), "series") {
            return None;
        }
        let (season, episode) = match (rec.season, rec.episode) {
            (Some(s), Some(e)) => (s, e),
            _ => {
                return None;
            },
        };
        if episode == i64::MAX {
            return None;
        }
        let next_ep = episode + 1;
        let n = self.jobs.len();
        let mut j: usize = 0;
        while j < n
            invariant
                j <= n,
                forall|k: int|
                    0 <= k < j ==> !(!((#[trigger] self.jobs@[k]).status is Cancelled)
                        && self.jobs@[k].profile_id@ == rec.profile_id@ && self.jobs@[k].media_id@
                        == rec.media_id@ && self.jobs@[k].season == rec.season
                        && self.jobs@[k].episode == Some((rec.episode.unwrap() + 1) as i64)),
            decreases n - j,
        {
            let other = &self.jobs[j];
            let episode_taken = !matches!(other.status, DownloadStatus::Cancelled) && text::str_eq(
                other.profile_id.as_str(),
                rec.profile_id.as_str(),
            ) && text::str_eq(other.media_id.as_str(), rec.media_id.as_str()) && opt_i64_eq(
                &other.season,
                &rec.season,
            ) && (match other.episode {
                Some(e) => e == next_ep,
                None => false,
            });
            if episode_taken {
                proof {
                    assert(spec_next_episode_taken(self.jobs_view(), rec));
                }
                return None;
            }
            j += 1;
        }
        let episode_title = crate::record::episode_title_string(season, next_ep);
        Some(
            DownloadRecord {
                id: String::new(),
                profile_id: rec.profile_id,
                media_type: rec.media_type,
                media_id: rec.media_id,
                episode_id: None,
                title: rec.title,
                episode_title: Some(episode_title),
                season: Some(season),
                episode: Some(next_ep),
                poster_path: rec.poster_path,
                status: DownloadStatus::Queued,
                progress: 0,
                quality: rec.quality,
                file_path: String::new(),
                file_size: 0,
                downloaded_bytes: 0,
                added_at: 0,
                completed_at: None,
                last_watched_at: None,
                watched_percent: 0,
                stream_url: rec.stream_url,
                addon_id: rec.addon_id,
                error_message: None,
                smart_download: true,
                auto_delete: rec.auto_delete,
            },
        )
    }
}

/// Summed `file_size` of the completed records of a profile.
pub open spec fn spec_completed_bytes(jobs: Seq<DownloadRecord>, profile: Seq<char>) -> int
    decreases jobs.len(),
{
    if jobs.len() == 0 {
        0
    } else {
        spec_completed_bytes(jobs.drop_last(), profile) + (
        if jobs.last().status is Completed && jobs.last().profile_id@ == profile {
            jobs.last().file_size as int
        } else {
            0
        })
    }
}

/// Number of completed records of a profile.
pub open spec fn spec_completed_count(jobs: Seq<DownloadRecord>, profile: Seq<char>) -> int
    decreases jobs.len(),
{
    if jobs.len() == 0 {
        0
    } else {
        spec_completed_count(jobs.drop_last(), profile) + (
        if jobs.last().status is Completed && jobs.last().profile_id@ == profile {
            1int
        } else {
            0int
        })
    }
}

/// Removing records never breaks the store invariant, introduces a job id,
/// or introduces an episode-key conflict.
proof fn lemma_filter_preserves_wf(jobs: Seq<DownloadRecord>, pred: spec_fn(DownloadRecord) -> bool)
    requires
        all_wf(jobs),
        ids_unique(jobs),
        episode_keys_unique(jobs),
    ensures
        all_wf(jobs.filter(pred)),
        ids_unique(jobs.filter(pred)),
        episode_keys_unique(jobs.filter(pred)),
        forall|id: Seq<char>|
            #[trigger] spec_has_id(jobs.filter(pred), id) ==> spec_has_id(jobs, id),
        forall|rec: DownloadRecord|
            #[trigger] spec_key_conflict(jobs.filter(pred), rec) ==> spec_key_conflict(jobs, rec),
    decreases jobs.len(),
{
    reveal(Seq::filter);
    if jobs.len() > 0 {
        let pre = jobs.drop_last();
        let last = jobs.last();
        assert(all_wf(pre));
        assert(ids_unique(pre));
        assert(episode_keys_unique(pre));
        lemma_filter_preserves_wf(pre, pred);
        let f = jobs.filter(pred);
        let fp = pre.filter(pred);
        assert forall|id: Seq<char>| #[trigger] spec_has_id(f, id) implies spec_has_id(jobs, id) by {
            let m = choose|m: int| 0 <= m < f.len() && f[m].id@ == id;
            if pred(last) && m == f.len() - 1 {
                assert(jobs[jobs.len() - 1].id@ == id);
            } else {
                assert(spec_has_id(fp, id));
                assert(spec_has_id(pre, id));
                let k = choose|k: int| 0 <= k < pre.len() && pre[k].id@ == id;
                assert(jobs[k].id@ == id);
            }
        }
        assert forall|rec: DownloadRecord| #[trigger] spec_key_conflict(f, rec) implies spec_key_conflict(
            jobs,
            rec,
        ) by {
            let m = choose|m: int|
                0 <= m < f.len() && !(f[m].status is Cancelled) && f[m].same_episode_key(rec);
            if pred(last) && m == f.len() - 1 {
                assert(!(jobs[jobs.len() - 1].status is Cancelled) && jobs[jobs.len()
                    - 1].same_episode_key(rec));
            } else {
                assert(spec_key_conflict(fp, rec));
                assert(spec_key_conflict(pre, rec));
                let k = choose|k: int|
                    0 <= k < pre.len() && !(pre[k].status is Cancelled) && pre[k].same_episode_key(
                        rec,
                    );
                assert(!(jobs[k].status is Cancelled) && jobs[k].same_episode_key(rec));
            }
        }
        if pred(last) {
            assert(f == fp.push(last));
            assert forall|i: int, j: int| 0 <= i < j < f.len() implies (#[trigger] f[i]).id@ != (
            #[trigger] f[j]).id@ by {
                if j == f.len() - 1 {
                    if f[i].id@ == last.id@ {
                        assert(spec_has_id(fp, last.id@));
                        assert(spec_has_id(pre, last.id@));
                        let k = choose|k: int| 0 <= k < pre.len() && pre[k].id@ == last.id@;
                        assert(jobs[k].id@ == jobs[jobs.len() - 1].id@);
                    }
                }
            }
            assert forall|i: int, j: int|
                0 <= i < j < f.len() && !((#[trigger] f[i]).status is Cancelled) && !((
            #[trigger] f[j]).status is Cancelled) implies !f[i].same_episode_key(f[j]) by {
                if j == f.len() - 1 {
                    if f[i].same_episode_key(last) {
                        assert(spec_key_conflict(fp, last));
                        assert(spec_key_conflict(pre, last));
                        let k = choose|k: int|
                            0 <= k < pre.len() && !(pre[k].status is Cancelled)
                                && pre[k].same_episode_key(last);
                        assert(!jobs[k].same_episode_key(jobs[jobs.len() - 1]));
                    }
                }
            }
        } else {
            assert(f == fp);
        }
    }
}

/// Keeps the records whose id differs from `id`.
pub open spec fn spec_keeps_other_ids(id: Seq<char>) -> spec_fn(DownloadRecord) -> bool {
    |rec: DownloadRecord| rec.id@ != id
}

/// The store's records with the record of this id (if any) removed.
pub open spec fn spec_remove_id(jobs: Seq<DownloadRecord>, id: Seq<char>) -> Seq<DownloadRecord> {
    jobs.filter(spec_keeps_other_ids(id))
}

/// Keeps the records of other profiles.
pub open spec fn spec_keeps_other_profiles(profile: Seq<char>) -> spec_fn(DownloadRecord) -> bool {
    |rec: DownloadRecord| rec.profile_id@ != profile
}

/// Keeps the records of this profile.
pub open spec fn spec_of_profile(profile: Seq<char>) -> spec_fn(DownloadRecord) -> bool {
    |rec: DownloadRecord| rec.profile_id@ == profile
}

/// Reads a record's id.
pub open spec fn spec_record_id() -> spec_fn(DownloadRecord) -> String {
    |rec: DownloadRecord| rec.id
}

/// The store's records with every record of this profile removed.
pub open spec fn spec_remove_profile(jobs: Seq<DownloadRecord>, profile: Seq<char>) -> Seq<
    DownloadRecord,
> {
    jobs.filter(spec_keeps_other_profiles(profile))
}

/// The ids of this profile's records, in store order.
pub open spec fn spec_profile_job_ids(jobs: Seq<DownloadRecord>, profile: Seq<char>) -> Seq<
    String,
> {
    jobs.filter(spec_of_profile(profile)).map_values(spec_record_id())
}

/// Some settings row carries this profile id.
pub open spec fn spec_has_profile(settings: Seq<ProfileSettings>, profile: Seq<char>) -> bool {
    exists|i: int| 0 <= i < settings.len() && (#[trigger] settings[i]).profile_id@ == profile
}

/// The quota of a profile: its settings row's `quota_bytes`, or 0 (no limit)
/// without a row.
pub open spec fn spec_quota(settings: Seq<ProfileSettings>, profile: Seq<char>) -> i64
    decreases settings.len(),
{
    if settings.len() == 0 {
        0
    } else if settings[0].profile_id@ == profile {
        settings[0].quota_bytes
    } else {
        spec_quota(settings.drop_first(), profile)
    }
}

/// The smart-download and auto-delete defaults of a profile: its settings
/// row's flags, or `(false, false)` without a row.
pub open spec fn spec_smart_defaults(settings: Seq<ProfileSettings>, profile: Seq<char>) -> (
    bool,
    bool,
)
    decreases settings.len(),
{
    if settings.len() == 0 {
        (false, false)
    } else if settings[0].profile_id@ == profile {
        (settings[0].smart_download_default, settings[0].auto_delete_default)
    } else {
        spec_smart_defaults(settings.drop_first(), profile)
    }
}

/// With unique profile ids, the lookups of a profile read exactly its row.
pub proof fn lemma_settings_row(settings: Seq<ProfileSettings>, k: int)
    requires
        profiles_unique(settings),
        0 <= k < settings.len(),
    ensures
        spec_quota(settings, settings[k].profile_id@) == settings[k].quota_bytes,
        spec_smart_defaults(settings, settings[k].profile_id@) == (
            settings[k].smart_download_default,
            settings[k].auto_delete_default,
        ),
    decreases k,
{
    if k > 0 {
        assert(settings[0].profile_id@ != settings[k].profile_id@);
        let tail = settings.drop_first();
        assert(profiles_unique(tail));
        assert(tail[k - 1] == settings[k]);
        lemma_settings_row(tail, k - 1);
    }
}

/// Without a row for the profile, the lookups read the defaults.
pub proof fn lemma_settings_absent(settings: Seq<ProfileSettings>, profile: Seq<char>)
    requires
        !spec_has_profile(settings, profile),
    ensures
        spec_quota(settings, profile) == 0,
        spec_smart_defaults(settings, profile) == (false, false),
    decreases settings.len(),
{
    if settings.len() > 0 {
        assert(settings[0].profile_id@ != profile);
        let tail = settings.drop_first();
        assert(!spec_has_profile(tail, profile)) by {
            if spec_has_profile(tail, profile) {
                let w = choose|i: int|
                    0 <= i < tail.len() && (#[trigger] tail[i]).profile_id@ == profile;
                assert(settings[w + 1].profile_id@ == profile);
            }
        }
        lemma_settings_absent(tail, profile);
    }
}

impl DownloadDb {
    /// Index of the settings row of this profile, if any.
    fn index_of_profile(&self, profile_id: &str) -> (r: Option<usize>)
        ensures
            match r {
                Some(i) => i < self.settings_view().len()
                    && self.settings_view()[i as int].profile_id@ == profile_id@,
                None => !spec_has_profile(self.settings_view(), profile_id@),
            },
    {
        let n = self.settings.len();
        let mut i: usize = 0;
        while i < n
            invariant
                n == self.settings@.len(),
                i <= n,
                forall|k: int| 0 <= k < i ==> (#[trigger] self.settings@[k]).profile_id@ != profile_id@,
            decreases n - i,
        {
            if text::str_eq(self.settings[i].profile_id.as_str(), profile_id) {
                return Some(i);
            }
            i += 1;
        }
        None
    }

    /// The storage quota of a profile, 0 when none is set.
    #[verifier::loop_isolation(false)]
    pub fn get_quota(&self, profile_id: &str) -> (r: i64)
        requires
            self.wf(),
        ensures
            r == spec_quota(self.settings_view(), profile_id@),
    {
        let n = self.settings.len();
        proof {
            assert(self.settings@.subrange(0, n as int) =~= self.settings@);
        }
        let mut i: usize = 0;
        while i < n
            invariant
                i <= n,
                spec_quota(self.settings@.subrange(i as int, n as int), profile_id@) == spec_quota(
                    self.settings@,
                    profile_id@,
                ),
            decreases n - i,
        {
            proof {
                let suffix = self.settings@.subrange(i as int, n as int);
                assert(suffix[0] == self.settings@[i as int]);
                assert(suffix.drop_first() =~= self.settings@.subrange(i as int + 1, n as int));
            }
            if text::str_eq(self.settings[i].profile_id.as_str(), profile_id) {
                return self.settings[i].quota_bytes;
            }
            i += 1;
        }
        proof {
            assert(self.settings@.subrange(n as int, n as int).len() == 0);
        }
        0
    }

    /// The smart-download and auto-delete defaults of a profile,
    /// `(false, false)` when none are set.
    #[verifier::loop_isolation(false)]
    pub fn get_smart_defaults(&self, profile_id: &str) -> (r: (bool, bool))
        requires
            self.wf(),
        ensures
            r == spec_smart_defaults(self.settings_view(), profile_id@),
    {
        let n = self.settings.len();
        proof {
            assert(self.settings@.subrange(0, n as int) =~= self.settings@);
        }
        let mut i: usize = 0;
        while i < n
            invariant
                i <= n,
                spec_smart_defaults(self.settings@.subrange(i as int, n as int), profile_id@)
                    == spec_smart_defaults(self.settings@, profile_id@),
            decreases n - i,
        {
            proof {
                let suffix = self.settings@.subrange(i as int, n as int);
                assert(suffix[0] == self.settings@[i as int]);
                assert(suffix.drop_first() =~= self.settings@.subrange(i as int + 1, n as int));
            }
            if text::str_eq(self.settings[i].profile_id.as_str(), profile_id) {
                let row = &self.settings[i];
                return (row.smart_download_default, row.auto_delete_default);
            }
            i += 1;
        }
        proof {
            assert(self.settings@.subrange(n as int, n as int).len() == 0);
        }
        (false, false)
    }

    /// Sets the storage quota of a profile, creating its settings row (with
    /// false smart-download defaults) when absent.
    pub fn set_quota(&mut self, profile_id: &str, quota_bytes: i64)
        requires
            old(self).wf(),
        ensures
            final(self).wf(),
            final(self).jobs_view() == old(self).jobs_view(),
            if spec_has_profile(old(self).settings_view(), profile_id@) {
                &&& final(self).settings_view().len() == old(self).settings_view().len()
                &&& forall|k: int|
                    0 <= k < old(self).settings_view().len()
                        ==> #[trigger] final(self).settings_view()[k] == (
                    if old(self).settings_view()[k].profile_id@ == profile_id@ {
                        ProfileSettings {
                            quota_bytes: quota_bytes,
                            ..old(self).settings_view()[k]
                        }
                    } else {
                        old(self).settings_view()[k]
                    })
            } else {
                &&& final(self).settings_view().len() == old(self).settings_view().len() + 1
                &&& final(self).settings_view() == old(self).settings_view().push(
                    final(self).settings_view().last(),
                )
                &&& final(self).settings_view().last().profile_id@ == profile_id@
                &&& final(self).settings_view().last().quota_bytes == quota_bytes
                &&& final(self).settings_view().last().smart_download_default == false
                &&& final(self).settings_view().last().auto_delete_default == false
            },
    {
        if let Some(i) = self.index_of_profile(profile_id) {
            let row = &self.settings[i];
            let updated = ProfileSettings {
                profile_id: row.profile_id.clone(),
                quota_bytes: quota_bytes,
                smart_download_default: row.smart_download_default,
                auto_delete_default: row.auto_delete_default,
            };
            self.settings[i] = updated;
            proof {
                lemma_settings_pointwise_wf(old(self).settings_view(), self.settings_view());
            }
        } else {
            self.settings.push(
                ProfileSettings {
                    profile_id: profile_id.to_owned(),
                    quota_bytes: quota_bytes,
                    smart_download_default: false,
                    auto_delete_default: false,
                },
            );
        }
    }

    /// Sets the smart-download and auto-delete defaults of a profile,
    /// creating its settings row (with quota 0) when absent.
    pub fn set_smart_defaults(&mut self, profile_id: &str, smart: bool, auto_delete: bool)
        requires
            old(self).wf(),
        ensures
            final(self).wf(),
            final(self).jobs_view() == old(self).jobs_view(),
            if spec_has_profile(old(self).settings_view(), profile_id@) {
                &&& final(self).settings_view().len() == old(self).settings_view().len()
                &&& forall|k: int|
                    0 <= k < old(self).settings_view().len()
                        ==> #[trigger] final(self).settings_view()[k] == (
                    if old(self).settings_view()[k].profile_id@ == profile_id@ {
                        ProfileSettings {
                            smart_download_default: smart,
                            auto_delete_default: auto_delete,
                            ..old(self).settings_view()[k]
                        }
                    } else {
                        old(self).settings_view()[k]
                    })
            } else {
                &&& final(self).settings_view().len() == old(self).settings_view().len() + 1
                &&& final(self).settings_view() == old(self).settings_view().push(
                    final(self).settings_view().last(),
                )
                &&& final(self).settings_view().last().profile_id@ == profile_id@
                &&& final(self).settings_view().last().quota_bytes == 0
                &&& final(self).settings_view().last().smart_download_default == smart
                &&& final(self).settings_view().last().auto_delete_default == auto_delete
            },
    {
        if let Some(i) = self.index_of_profile(profile_id) {
            let row = &self.settings[i];
            let updated = ProfileSettings {
                profile_id: row.profile_id.clone(),
                quota_bytes: row.quota_bytes,
                smart_download_default: smart,
                auto_delete_default: auto_delete,
            };
            self.settings[i] = updated;
            proof {
                lemma_settings_pointwise_wf(old(self).settings_view(), self.settings_view());
            }
        } else {
            self.settings.push(
                ProfileSettings {
                    profile_id: profile_id.to_owned(),
                    quota_bytes: 0,
                    smart_download_default: smart,
                    auto_delete_default: auto_delete,
                },
            );
        }
    }
}

/// A pointwise rewrite of the settings rows that keeps every profile id
/// keeps them unique.
proof fn lemma_settings_pointwise_wf(olds: Seq<ProfileSettings>, news: Seq<ProfileSettings>)
    requires
        profiles_unique(olds),
        news.len() == olds.len(),
        forall|i: int| 0 <= i < news.len() ==> (#[trigger] news[i]).profile_id@ == olds[i].profile_id@,
    ensures
        profiles_unique(news),
{
}

/// A pointwise rewrite of the store's records preserves the store invariant,
/// provided each rewritten record stays well-formed, keeps its id and episode
/// key, and never revives a cancelled record.
proof fn lemma_pointwise_update_wf(olds: Seq<DownloadRecord>, news: Seq<DownloadRecord>)
    requires
        all_wf(olds),
        ids_unique(olds),
        episode_keys_unique(olds),
        news.len() == olds.len(),
        forall|i: int| 0 <= i < news.len() ==> (#[trigger] news[i]).wf(),
        forall|i: int| 0 <= i < news.len() ==> (#[trigger] news[i]).id@ == olds[i].id@,
        forall|i: int| 0 <= i < news.len() ==> (#[trigger] news[i]).same_episode_key(olds[i]),
        forall|i: int|
            0 <= i < news.len() && !((#[trigger] news[i]).status is Cancelled) ==> !(olds[i].status
                is Cancelled),
    ensures
        all_wf(news),
        ids_unique(news),
        episode_keys_unique(news),
{
    assert forall|i: int, j: int|
        0 <= i < j < news.len() && !((#[trigger] news[i]).status is Cancelled) && !((
        #[trigger] news[j]).status is Cancelled) implies !news[i].same_episode_key(news[j]) by {
        assert(!olds[i].same_episode_key(olds[j]));
    }
}

/// `update_progress`: the record turns `Downloading`, its progress is the
/// given percentage clamped below completion, and its byte count is replaced.
pub open spec fn spec_with_progress(rec: DownloadRecord, progress: u8, bytes: u64) -> DownloadRecord {
    DownloadRecord {
        status: DownloadStatus::Downloading,
        progress: if progress < 100 { progress } else { 99 },
        downloaded_bytes: bytes,
        ..rec
    }
}

/// `update_status`: only the status is replaced.
pub open spec fn spec_with_status(rec: DownloadRecord, status: DownloadStatus) -> DownloadRecord {
    DownloadRecord { status: status, ..rec }
}

/// `update_complete`: the record turns `Completed` with full progress, the
/// final artifact path and size, and a completion timestamp.
pub open spec fn spec_with_complete(
    rec: DownloadRecord,
    file_path: String,
    file_size: u64,
    now_ms: i64,
) -> DownloadRecord {
    DownloadRecord {
        status: DownloadStatus::Completed,
        progress: 100,
        file_path: file_path,
        file_size: file_size,
        completed_at: Some(now_ms),
        ..rec
    }
}

/// `update_error`: the record turns `Failed` and carries the message.
pub open spec fn spec_with_error(rec: DownloadRecord, error: String) -> DownloadRecord {
    DownloadRecord { status: DownloadStatus::Failed, error_message: Some(error), ..rec }
}

/// `update_smart_flags`: only the two chaining flags are replaced.
pub open spec fn spec_with_flags(rec: DownloadRecord, smart: bool, auto_delete: bool) -> DownloadRecord {
    DownloadRecord { smart_download: smart, auto_delete: auto_delete, ..rec }
}

/// For every stored job, full progress, a completed status, and a recorded
/// artifact (a non-empty final path together with a positive size) coincide.
pub proof fn lemma_progress_completed_artifact(db: DownloadDb, i: int)
    requires
        db.wf(),
        0 <= i < db.jobs_view().len(),
    ensures
        db.jobs_view()[i].progress == 100 <==> db.jobs_view()[i].status is Completed,
        db.jobs_view()[i].status is Completed <==> db.jobs_view()[i].file_path@.len() > 0
            && db.jobs_view()[i].file_size > 0,
{
}

/// No two distinct non-cancelled records of the store share a
/// `(profile, media, season, episode)` key.
pub proof fn lemma_episode_key_unique(db: DownloadDb, i: int, j: int)
    requires
        db.wf(),
        0 <= i < j < db.jobs_view().len(),
        !(db.jobs_view()[i].status is Cancelled),
        !(db.jobs_view()[j].status is Cancelled),
    ensures
        !db.jobs_view()[i].same_episode_key(db.jobs_view()[j]),
{
}

/// Round trip: after a record is inserted, any lookup result that carries
/// its id out of the extended store is that record itself.
pub proof fn lemma_insert_get_round_trip(
    jobs: Seq<DownloadRecord>,
    rec: DownloadRecord,
    found: DownloadRecord,
)
    requires
        ids_unique(jobs.push(rec)),
        exists|i: int| 0 <= i < jobs.push(rec).len() && #[trigger] jobs.push(rec)[i] == found,
        found.id@ == rec.id@,
    ensures
        found == rec,
{
    assert(jobs.push(rec)[jobs.len() as int] == rec);
    lemma_id_unique_match(jobs.push(rec), rec, rec.id@);
    let i = choose|i: int| 0 <= i < jobs.push(rec).len() && #[trigger] jobs.push(rec)[i] == found;
    assert(jobs.push(rec)[i].id@ == rec.id@);
}

/// Deleting the same id twice removes exactly what deleting it once does:
/// the second delete is a no-op.
pub proof fn lemma_delete_idempotent(jobs: Seq<DownloadRecord>, id: Seq<char>)
    ensures
        spec_remove_id(spec_remove_id(jobs, id), id) == spec_remove_id(jobs, id),
{
    let pred = spec_keeps_other_ids(id);
    let once = jobs.filter(pred);
    assert forall|i: int| 0 <= i < once.len() implies pred(#[trigger] once[i]) by {
        jobs.lemma_filter_pred(pred, i);
    }
    lemma_filter_all_kept(once, pred);
}

/// A pointwise rewrite that keeps every record's id keeps exactly the same
/// ids present.
pub proof fn lemma_same_ids_has_id(olds: Seq<DownloadRecord>, news: Seq<DownloadRecord>)
    requires
        news.len() == olds.len(),
        forall|i: int| 0 <= i < news.len() ==> (#[trigger] news[i]).id@ == olds[i].id@,
    ensures
        forall|id: Seq<char>| #[trigger] spec_has_id(news, id) <==> spec_has_id(olds, id),
{
    assert forall|id: Seq<char>| #[trigger] spec_has_id(news, id) <==> spec_has_id(olds, id) by {
        if spec_has_id(news, id) {
            let k = choose|k: int| 0 <= k < news.len() && (#[trigger] news[k]).id@ == id;
            assert(olds[k].id@ == id);
        }
        if spec_has_id(olds, id) {
            let k = choose|k: int| 0 <= k < olds.len() && (#[trigger] olds[k]).id@ == id;
            assert(news[k].id@ == id);
        }
    }
}

/// Removing one id keeps every other id present.
pub proof fn lemma_remove_id_keeps_other(jobs: Seq<DownloadRecord>, id: Seq<char>, other: Seq<char>)
    requires
        spec_has_id(jobs, other),
        other != id,
    ensures
        spec_has_id(spec_remove_id(jobs, id), other),
{
    let pred = spec_keeps_other_ids(id);
    let k = choose|k: int| 0 <= k < jobs.len() && (#[trigger] jobs[k]).id@ == other;
    jobs.lemma_filter_contains(pred, k);
    let f = jobs.filter(pred);
    assert(f.contains(jobs[k]));
    let m = choose|m: int| 0 <= m < f.len() && f[m] == jobs[k];
    assert(f[m].id@ == other);
}

/// Structural equality of two optional numbers.
fn opt_i64_eq(a: &Option<i64>, b: &Option<i64>) -> (r: bool)
    ensures
        r == (a == b),
{
    match (a, b) {
        (Some(x), Some(y)) => *x == *y,
        (None, None) => true,
        _ => false,
    }
}

} // verus!
