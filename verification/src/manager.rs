//! The download manager: a bounded concurrent scheduler over the job store,
//! with an explicit FIFO queue, an active set capped at `max_concurrent`, a
//! paused set the fetch drivers poll, the per-job lifecycle transitions, and
//! the smart-download chaining hook.
//!
//! The manager's invariant carries the scheduling laws: the active set never
//! exceeds the concurrency limit, never overlaps the queue, and both only
//! hold ids of stored jobs.

use vstd::prelude::*;

use crate::events::StatusPayload;
use crate::events;
use crate::record::{DownloadRecord, StartDownloadPayload};
use crate::record;
use crate::seqs::{lemma_filter_push, lemma_filter_subset};
use crate::status::{DownloadQuality, DownloadStatus};
use crate::store::{DownloadDb, ProfileSettings, StoreError};
use crate::store;
use crate::text;

verus! {

/// Why a manager operation failed.
#[derive(Clone, Copy, Debug, PartialEq, Eq, Structural)]
pub enum ManagerError {
    /// The operation referenced an unknown job id; nothing was changed.
    NotFound,
    /// The store refused the new record.
    Store(StoreError),
}

impl ManagerError {
    /// The message under which the error is reported.
    pub open spec fn spec_message(self) -> Seq<char> {
        match self {
            ManagerError::NotFound => "Download not found"@,
            ManagerError::Store(e) => e.spec_message(),
        }
    }

    pub fn message(&self) -> (r: &'static str)
        ensures
            r@ == self.spec_message(),
    {
        match self {
            ManagerError::NotFound => "Download not found",
            ManagerError::Store(e) => e.message(),
        }
    }
}

/// One pending download, as the in-memory queue holds it.
#[derive(Debug)]
pub struct QueueItem {
    pub id: String,
    pub profile_id: String,
    pub title: String,
    pub stream_url: String,
    pub quality: DownloadQuality,
    pub smart_download: bool,
    pub auto_delete: bool,
}

impl Clone for QueueItem {
    fn clone(&self) -> (r: Self)
        ensures
            r == *self,
    {
        QueueItem {
            id: self.id.clone(),
            profile_id: self.profile_id.clone(),
            title: self.title.clone(),
            stream_url: self.stream_url.clone(),
            quality: self.quality,
            smart_download: self.smart_download,
            auto_delete: self.auto_delete,
        }
    }
}

/// Some stored id has the 36-character length of a freshly generated one, so
/// a drawn id can collide with it. This is the only way an insert of a new
/// job can be refused for its id.
pub open spec fn spec_has_uuid_length_id(jobs: Seq<DownloadRecord>) -> bool {
    exists|j: int| 0 <= j < jobs.len() && (#[trigger] jobs[j]).id@.len() == 36
}

/// Some non-cancelled record already covers the episode key a request names.
pub open spec fn spec_episode_conflict(
    jobs: Seq<DownloadRecord>,
    payload: StartDownloadPayload,
) -> bool {
    exists|j: int|
        {
            &&& 0 <= j < jobs.len()
            &&& !((#[trigger] jobs[j]).status is Cancelled)
            &&& jobs[j].profile_id@ == payload.profile_id@
            &&& jobs[j].media_id@ == payload.media_id@
            &&& jobs[j].season == payload.season
            &&& jobs[j].episode == payload.episode
        }
}

/// A string with this view stands in the sequence.
pub open spec fn spec_in_strs(strs: Seq<String>, id: Seq<char>) -> bool {
    exists|i: int| 0 <= i < strs.len() && (#[trigger] strs[i])@ == id
}

/// Keeps the strings whose view differs from `id`.
pub open spec fn spec_keeps_other_strs(id: Seq<char>) -> spec_fn(String) -> bool {
    |s: String| s@ != id
}

/// Keeps the strings whose view stands in none of `ids`.
pub open spec fn spec_keeps_unlisted_strs(ids: Seq<String>) -> spec_fn(String) -> bool {
    |s: String| !spec_in_strs(ids, s@)
}

/// Keeps the queue items whose id stands in none of `ids`.
pub open spec fn spec_keeps_unlisted_items(ids: Seq<String>) -> spec_fn(QueueItem) -> bool {
    |item: QueueItem| !spec_in_strs(ids, item.id@)
}

/// Keeps the queue items whose id differs from `id`.
pub open spec fn spec_keeps_other_items(id: Seq<char>) -> spec_fn(QueueItem) -> bool {
    |item: QueueItem| item.id@ != id
}

/// The download manager.
pub struct DownloadManager {
    db: DownloadDb,
    queue: Vec<QueueItem>,
    active: Vec<String>,
    paused: Vec<String>,
    max_concurrent: usize,
}

impl DownloadManager {
    /// The stored records, in insertion order.
    pub open spec fn jobs(self) -> Seq<DownloadRecord> {
        self.store_view().jobs_view()
    }

    /// The stored per-profile settings.
    pub open spec fn settings(self) -> Seq<ProfileSettings> {
        self.store_view().settings_view()
    }

    /// The store behind the manager.
    pub closed spec fn store_view(self) -> DownloadDb {
        self.db
    }

    /// The pending queue, front first.
    pub closed spec fn queue_view(self) -> Seq<QueueItem> {
        self.queue@
    }

    /// Ids of the currently running downloads.
    pub closed spec fn active_view(self) -> Seq<String> {
        self.active@
    }

    /// Ids signalled to suspend.
    pub closed spec fn paused_view(self) -> Seq<String> {
        self.paused@
    }

    /// The concurrency cap.
    pub closed spec fn concurrency_limit(self) -> int {
        self.max_concurrent as int
    }

    /// The scheduling invariant: the store is well-formed; at most
    /// `max_concurrent` downloads run; running and queued ids are distinct
    /// and disjoint; and both only name stored jobs.
    pub open spec fn wf(self) -> bool {
        &&& self.store_view().wf()
        &&& self.concurrency_limit() >= 1
        &&& self.active_view().len() <= self.concurrency_limit()
        &&& forall|i: int, j: int|
            0 <= i < j < self.active_view().len() ==> (#[trigger] self.active_view()[i])@ != (
            #[trigger] self.active_view()[j])@
        &&& forall|i: int, j: int|
            0 <= i < j < self.queue_view().len() ==> (#[trigger] self.queue_view()[i]).id@ != (
            #[trigger] self.queue_view()[j]).id@
        &&& forall|i: int, j: int|
            0 <= i < self.active_view().len() && 0 <= j < self.queue_view().len() ==> (
            #[trigger] self.active_view()[i])@ != (#[trigger] self.queue_view()[j]).id@
        &&& forall|i: int|
            0 <= i < self.active_view().len() ==> store::spec_has_id(
                self.jobs(),
                (#[trigger] self.active_view()[i])@,
            )
        &&& forall|i: int|
            0 <= i < self.queue_view().len() ==> store::spec_has_id(
                self.jobs(),
                (#[trigger] self.queue_view()[i]).id@,
            )
    }

    /// Opens a manager over a store, with nothing queued, running or paused
    /// and the default concurrency cap of two downloads.
    pub fn new(db: DownloadDb) -> (r: Self)
        requires
            db.wf(),
        ensures
            r.wf(),
            r.store_view() == db,
            r.queue_view() == Seq::<QueueItem>::empty(),
            r.active_view() == Seq::<String>::empty(),
            r.paused_view() == Seq::<String>::empty(),
            r.concurrency_limit() == 2,
    {
        DownloadManager {
            db,
            queue: Vec::new(),
            active: Vec::new(),
            paused: Vec::new(),
            max_concurrent: 2,
        }
    }

    /// Enqueues a new download: generates a fresh id, resolves the
    /// smart-download flags (explicit override, else profile default, else
    /// false), persists a queued record, and appends the job to the queue.
    /// Returns the new id, or the store's refusal. The request succeeds
    /// unless its episode key is already taken or the drawn id collides with
    /// a stored one — and a collision presupposes a stored id of generated
    /// length.
    pub fn enqueue(&mut self, payload: StartDownloadPayload, now_ms: i64) -> (r: Result<
        String,
        ManagerError,
    >)
        requires
            old(self).wf(),
        ensures
            final(self).wf(),
            final(self).active_view() == old(self).active_view(),
            final(self).paused_view() == old(self).paused_view(),
            final(self).settings() == old(self).settings(),
            final(self).concurrency_limit() == old(self).concurrency_limit(),
            !spec_has_uuid_length_id(old(self).jobs()) && !spec_episode_conflict(
                old(self).jobs(),
                payload,
            ) ==> r is Ok,
            match r {
                Ok(id) => {
                    let rec = final(self).jobs().last();
                    &&& final(self).jobs().len() == old(self).jobs().len() + 1
                    &&& final(self).jobs() == old(self).jobs().push(rec)
                    &&& rec.id@ == id@
                    &&& !store::spec_has_id(old(self).jobs(), id@)
                    &&& rec.file_path@ == Seq::<char>::empty()
                    &&& rec == record::spec_queued_record(
                        payload,
                        rec.id,
                        now_ms,
                        store::spec_smart_defaults(old(self).settings(), payload.profile_id@).0,
                        store::spec_smart_defaults(old(self).settings(), payload.profile_id@).1,
                        rec.file_path,
                    )
                    &&& final(self).queue_view().len() == old(self).queue_view().len() + 1
                    &&& final(self).queue_view() == old(self).queue_view().push(
                        final(self).queue_view().last(),
                    )
                    &&& {
                        let item = final(self).queue_view().last();
                        &&& item.id@ == id@
                        &&& item.profile_id == rec.profile_id
                        &&& item.title == rec.title
                        &&& item.stream_url == rec.stream_url
                        &&& item.quality == rec.quality
                        &&& item.smart_download == rec.smart_download
                        &&& item.auto_delete == rec.auto_delete
                    }
                },
                Err(ManagerError::Store(e)) => {
                    &&& final(self).jobs() == old(self).jobs()
                    &&& final(self).queue_view() == old(self).queue_view()
                    &&& (e is DuplicateId || e is DuplicateEpisode)
                    &&& e is DuplicateId ==> spec_has_uuid_length_id(old(self).jobs())
                    &&& e is DuplicateEpisode ==> spec_episode_conflict(old(self).jobs(), payload)
                },
                Err(ManagerError::NotFound) => false,
            },
    {
        let id = fresh_uuid();
        let (default_smart, default_auto) = self.db.get_smart_defaults(payload.profile_id.as_str());
        let rec = record::queued_record(payload, id.clone(), now_ms, default_smart, default_auto);
        let item = QueueItem {
            id: id.clone(),
            profile_id: rec.profile_id.clone(),
            title: rec.title.clone(),
            stream_url: rec.stream_url.clone(),
            quality: rec.quality,
            smart_download: rec.smart_download,
            auto_delete: rec.auto_delete,
        };
        let ghost grec = rec;
        match self.db.insert(rec) {
            Ok(()) => {},
            Err(e) => {
                proof {
                    if e is DuplicateId {
                        let j = choose|j: int|
                            0 <= j < old(self).jobs().len() && (#[trigger] old(
                                self,
                            ).jobs()[j]).id@ == id@;
                        assert(old(self).jobs()[j].id@.len() == 36);
                        assert(spec_has_uuid_length_id(old(self).jobs()));
                    } else {
                        let j = choose|j: int|
                            0 <= j < old(self).jobs().len() && !((#[trigger] old(
                                self,
                            ).jobs()[j]).status is Cancelled) && old(self).jobs()[j].same_episode_key(
                                grec,
                            );
                        assert(old(self).jobs()[j].profile_id@ == grec.profile_id@);
                        assert(spec_episode_conflict(old(self).jobs(), payload));
                    }
                }
                return Err(ManagerError::Store(e));
            },
        }
        proof {
            store::lemma_push_keeps_has_id(old(self).jobs(), grec);
        }
        self.queue.push(item);
        Ok(id)
    }

    /// Starts the next pending download if capacity allows: pops the queue's
    /// front, marks it active, and hands it to the caller to run. Returns
    /// nothing when the cap is reached or the queue is empty.
    pub fn try_start_next(&mut self) -> (r: Option<QueueItem>)
        requires
            old(self).wf(),
        ensures
            final(self).wf(),
            final(self).store_view() == old(self).store_view(),
            final(self).paused_view() == old(self).paused_view(),
            final(self).concurrency_limit() == old(self).concurrency_limit(),
            match r {
                Some(item) => {
                    &&& old(self).active_view().len() < old(self).concurrency_limit()
                    &&& old(self).queue_view().len() > 0
                    &&& item == old(self).queue_view()[0]
                    &&& final(self).queue_view() == old(self).queue_view().drop_first()
                    &&& final(self).active_view() == old(self).active_view().push(item.id)
                },
                None => {
                    &&& old(self).active_view().len() >= old(self).concurrency_limit() || old(
                        self,
                    ).queue_view().len() == 0
                    &&& final(self).queue_view() == old(self).queue_view()
                    &&& final(self).active_view() == old(self).active_view()
                },
            },
    {
        if self.active.len() >= self.max_concurrent {
            return None;
        }
        if self.queue.len() == 0 {
            return None;
        }
        let item = self.queue.remove(0);
        self.active.push(item.id.clone());
        proof {
            assert(old(self).queue_view().remove(0) =~= old(self).queue_view().drop_first());
        }
        Some(item)
    }

    /// Records that the running download of this id has exited (however it
    /// ended): the id leaves the active set.
    pub fn finish(&mut self, id: &str)
        requires
            old(self).wf(),
        ensures
            final(self).wf(),
            final(self).store_view() == old(self).store_view(),
            final(self).queue_view() == old(self).queue_view(),
            final(self).paused_view() == old(self).paused_view(),
            final(self).concurrency_limit() == old(self).concurrency_limit(),
            final(self).active_view() == old(self).active_view().filter(
                spec_keeps_other_strs(id@),
            ),
    {
        let ghost pred = spec_keeps_other_strs(id@);
        let kept = remove_str(&self.active, id);
        proof {
            lemma_filter_subset(old(self).active_view(), pred);
        }
        self.active = kept;
    }

    /// Pauses a job: the id joins the paused set (the running fetch detects
    /// it at its next check point) and the record turns `Paused`. A terminal
    /// job is left alone; an unknown id is an error.
    pub fn pause(&mut self, id: &str) -> (r: Result<Option<StatusPayload>, ManagerError>)
        requires
            old(self).wf(),
        ensures
            final(self).wf(),
            final(self).queue_view() == old(self).queue_view(),
            final(self).active_view() == old(self).active_view(),
            final(self).settings() == old(self).settings(),
            final(self).concurrency_limit() == old(self).concurrency_limit(),
            match r {
                Err(e) => {
                    &&& e == ManagerError::NotFound
                    &&& !store::spec_has_id(old(self).jobs(), id@)
                    &&& final(self).jobs() == old(self).jobs()
                    &&& final(self).paused_view() == old(self).paused_view()
                },
                Ok(None) => {
                    &&& exists|i: int|
                        0 <= i < old(self).jobs().len() && (#[trigger] old(self).jobs()[i]).id@
                            == id@ && old(self).jobs()[i].status.is_terminal()
                    &&& final(self).jobs() == old(self).jobs()
                    &&& final(self).paused_view() == old(self).paused_view()
                },
                Ok(Some(p)) => {
                    &&& exists|i: int|
                        0 <= i < old(self).jobs().len() && (#[trigger] old(self).jobs()[i]).id@
                            == id@ && !old(self).jobs()[i].status.is_terminal()
                    &&& final(self).jobs().len() == old(self).jobs().len()
                    &&& forall|k: int|
                        0 <= k < old(self).jobs().len() ==> #[trigger] final(self).jobs()[k] == (
                        if old(self).jobs()[k].id@ == id@ {
                            store::spec_with_status(old(self).jobs()[k], DownloadStatus::Paused)
                        } else {
                            old(self).jobs()[k]
                        })
                    &&& spec_in_strs(final(self).paused_view(), id@)
                    &&& if spec_in_strs(old(self).paused_view(), id@) {
                        final(self).paused_view() == old(self).paused_view()
                    } else {
                        final(self).paused_view() == old(self).paused_view().push(
                            final(self).paused_view().last(),
                        ) && final(self).paused_view().last()@ == id@
                    }
                    &&& p.id@ == id@
                    &&& p.status@ == DownloadStatus::Paused.spec_str()
                    &&& p.file_path is None
                    &&& p.error is None
                },
            },
    {
        let rec = match self.db.get_by_id(id) {
            Some(rec) => rec,
            None => {
                return Err(ManagerError::NotFound);
            },
        };
        proof {
            store::lemma_id_unique_match(self.jobs(), rec, id@);
            let w = choose|i: int|
                0 <= i < self.jobs().len() && #[trigger] self.jobs()[i] == rec;
            assert(old(self).jobs()[w].id@ == id@ && old(self).jobs()[w] == rec);
        }
        if matches!(
            rec.status,
            DownloadStatus::Completed | DownloadStatus::Failed | DownloadStatus::Cancelled
        ) {
            return Ok(None);
        }
        if !contains_str(&self.paused, id) {
            self.paused.push(id.to_owned());
        }
        self.db.update_status(id, &DownloadStatus::Paused);
        proof {
            store::lemma_same_ids_has_id(old(self).jobs(), self.jobs());
            lemma_in_strs_witness(old(self).paused_view(), self.paused@, id@);
        }
        Ok(Some(events::status_payload(id, DownloadStatus::Paused, None, None)))
    }

    /// Cancels a job: the id joins the paused set so a running fetch exits,
    /// any queue entry is dropped, and the record turns `Cancelled`. A
    /// terminal job is left alone; an unknown id is an error.
    pub fn cancel(&mut self, id: &str) -> (r: Result<Option<StatusPayload>, ManagerError>)
        requires
            old(self).wf(),
        ensures
            final(self).wf(),
            final(self).active_view() == old(self).active_view(),
            final(self).settings() == old(self).settings(),
            final(self).concurrency_limit() == old(self).concurrency_limit(),
            match r {
                Err(e) => {
                    &&& e == ManagerError::NotFound
                    &&& !store::spec_has_id(old(self).jobs(), id@)
                    &&& final(self).jobs() == old(self).jobs()
                    &&& final(self).queue_view() == old(self).queue_view()
                    &&& final(self).paused_view() == old(self).paused_view()
                },
                Ok(None) => {
                    &&& exists|i: int|
                        0 <= i < old(self).jobs().len() && (#[trigger] old(self).jobs()[i]).id@
                            == id@ && old(self).jobs()[i].status.is_terminal()
                    &&& final(self).jobs() == old(self).jobs()
                    &&& final(self).queue_view() == old(self).queue_view()
                    &&& final(self).paused_view() == old(self).paused_view()
                },
                Ok(Some(p)) => {
                    &&& exists|i: int|
                        0 <= i < old(self).jobs().len() && (#[trigger] old(self).jobs()[i]).id@
                            == id@ && !old(self).jobs()[i].status.is_terminal()
                    &&& final(self).jobs().len() == old(self).jobs().len()
                    &&& forall|k: int|
                        0 <= k < old(self).jobs().len() ==> #[trigger] final(self).jobs()[k] == (
                        if old(self).jobs()[k].id@ == id@ {
                            store::spec_with_status(old(self).jobs()[k], DownloadStatus::Cancelled)
                        } else {
                            old(self).jobs()[k]
                        })
                    &&& final(self).queue_view() == old(self).queue_view().filter(
                        spec_keeps_other_items(id@),
                    )
                    &&& spec_in_strs(final(self).paused_view(), id@)
                    &&& if spec_in_strs(old(self).paused_view(), id@) {
                        final(self).paused_view() == old(self).paused_view()
                    } else {
                        final(self).paused_view() == old(self).paused_view().push(
                            final(self).paused_view().last(),
                        ) && final(self).paused_view().last()@ == id@
                    }
                    &&& p.id@ == id@
                    &&& p.status@ == DownloadStatus::Cancelled.spec_str()
                    &&& p.file_path is None
                    &&& p.error is None
                },
            },
    {
        let rec = match self.db.get_by_id(id) {
            Some(rec) => rec,
            None => {
                return Err(ManagerError::NotFound);
            },
        };
        proof {
            store::lemma_id_unique_match(self.jobs(), rec, id@);
            let w = choose|i: int|
                0 <= i < self.jobs().len() && #[trigger] self.jobs()[i] == rec;
            assert(old(self).jobs()[w].id@ == id@ && old(self).jobs()[w] == rec);
        }
        if matches!(
            rec.status,
            DownloadStatus::Completed | DownloadStatus::Failed | DownloadStatus::Cancelled
        ) {
            return Ok(None);
        }
        if !contains_str(&self.paused, id) {
            self.paused.push(id.to_owned());
        }
        let kept = remove_item(&self.queue, id);
        proof {
            lemma_filter_subset(old(self).queue_view(), spec_keeps_other_items(id@));
        }
        self.queue = kept;
        self.db.update_status(id, &DownloadStatus::Cancelled);
        proof {
            store::lemma_same_ids_has_id(old(self).jobs(), self.jobs());
            lemma_in_strs_witness(old(self).paused_view(), self.paused@, id@);
        }
        Ok(Some(events::status_payload(id, DownloadStatus::Cancelled, None, None)))
    }

    /// Resumes a job: the id leaves the paused set; a `Paused` or `Queued`
    /// record that is not currently running turns `Queued` and re-enters at
    /// the front of the queue. A running, terminal or `Downloading` job only
    /// has its pause signal cleared; an unknown id is an error.
    pub fn resume(&mut self, id: &str) -> (r: Result<(), ManagerError>)
        requires
            old(self).wf(),
        ensures
            final(self).wf(),
            final(self).active_view() == old(self).active_view(),
            final(self).settings() == old(self).settings(),
            final(self).concurrency_limit() == old(self).concurrency_limit(),
            final(self).paused_view() == old(self).paused_view().filter(
                spec_keeps_other_strs(id@),
            ),
            match r {
                Err(e) => {
                    &&& e == ManagerError::NotFound
                    &&& !store::spec_has_id(old(self).jobs(), id@)
                    &&& final(self).jobs() == old(self).jobs()
                    &&& final(self).queue_view() == old(self).queue_view()
                },
                Ok(()) => {
                    if exists|i: int|
                        0 <= i < old(self).jobs().len() && (#[trigger] old(self).jobs()[i]).id@
                            == id@ && (old(self).jobs()[i].status is Queued || old(
                            self,
                        ).jobs()[i].status is Paused) && !spec_in_strs(
                            old(self).active_view(),
                            id@,
                        ) {
                        &&& final(self).jobs().len() == old(self).jobs().len()
                        &&& forall|k: int|
                            0 <= k < old(self).jobs().len() ==> #[trigger] final(self).jobs()[k]
                                == (if old(self).jobs()[k].id@ == id@ {
                                store::spec_with_status(old(self).jobs()[k], DownloadStatus::Queued)
                            } else {
                                old(self).jobs()[k]
                            })
                        &&& final(self).queue_view().len() > 0
                        &&& final(self).queue_view() == old(self).queue_view().filter(
                            spec_keeps_other_items(id@),
                        ).insert(0, final(self).queue_view()[0])
                        &&& exists|i: int|
                            {
                                &&& 0 <= i < old(self).jobs().len()
                                &&& (#[trigger] old(self).jobs()[i]).id@ == id@
                                &&& {
                                    let front = final(self).queue_view()[0];
                                    &&& front.id@ == id@
                                    &&& front.profile_id == old(self).jobs()[i].profile_id
                                    &&& front.title == old(self).jobs()[i].title
                                    &&& front.stream_url == old(self).jobs()[i].stream_url
                                    &&& front.quality == old(self).jobs()[i].quality
                                    &&& front.smart_download == old(self).jobs()[i].smart_download
                                    &&& front.auto_delete == old(self).jobs()[i].auto_delete
                                }
                            }
                    } else {
                        &&& final(self).jobs() == old(self).jobs()
                        &&& final(self).queue_view() == old(self).queue_view()
                    }
                },
            },
    {
        let ghost strs_pred = spec_keeps_other_strs(id@);
        let ghost items_pred = spec_keeps_other_items(id@);
        let unp = remove_str(&self.paused, id);
        self.paused = unp;
        let rec = match self.db.get_by_id(id) {
            Some(rec) => rec,
            None => {
                return Err(ManagerError::NotFound);
            },
        };
        proof {
            store::lemma_id_unique_match(self.jobs(), rec, id@);
            let w = choose|i: int|
                0 <= i < self.jobs().len() && #[trigger] self.jobs()[i] == rec;
            assert(old(self).jobs()[w].id@ == id@ && old(self).jobs()[w] == rec);
        }
        if !matches!(rec.status, DownloadStatus::Queued | DownloadStatus::Paused) {
            return Ok(());
        }
        if contains_str(&self.active, id) {
            return Ok(());
        }
        self.db.update_status(id, &DownloadStatus::Queued);
        let item = QueueItem {
            id: rec.id,
            profile_id: rec.profile_id,
            title: rec.title,
            stream_url: rec.stream_url,
            quality: rec.quality,
            smart_download: rec.smart_download,
            auto_delete: rec.auto_delete,
        };
        let mut kept = remove_item(&self.queue, id);
        kept.insert(0, item);
        proof {
            lemma_filter_subset(old(self).queue_view(), items_pred);
            assert forall|k: int|
                0 <= k < old(self).queue_view().filter(items_pred).len() implies (
            #[trigger] old(self).queue_view().filter(items_pred)[k]).id@ != id@ by {
                old(self).queue_view().lemma_filter_pred(items_pred, k);
            }
            store::lemma_same_ids_has_id(old(self).jobs(), self.jobs());
        }
        self.queue = kept;
        Ok(())
    }

    /// Deletes a job outright: the record leaves the store and the id leaves
    /// the queue and both signal sets. Returns the owning profile so the
    /// caller can remove the artifacts on disk, or nothing when the id was
    /// already unknown — deleting twice is safe and the second call changes
    /// nothing.
    pub fn delete(&mut self, id: &str) -> (r: Option<String>)
        requires
            old(self).wf(),
        ensures
            final(self).wf(),
            final(self).jobs() == store::spec_remove_id(old(self).jobs(), id@),
            final(self).queue_view() == old(self).queue_view().filter(
                spec_keeps_other_items(id@),
            ),
            final(self).active_view() == old(self).active_view().filter(
                spec_keeps_other_strs(id@),
            ),
            final(self).paused_view() == old(self).paused_view().filter(
                spec_keeps_other_strs(id@),
            ),
            final(self).settings() == old(self).settings(),
            final(self).concurrency_limit() == old(self).concurrency_limit(),
            match r {
                Some(p) => exists|i: int|
                    0 <= i < old(self).jobs().len() && (#[trigger] old(self).jobs()[i]).id@ == id@
                        && p@ == old(self).jobs()[i].profile_id@,
                None => !store::spec_has_id(old(self).jobs(), id@),
            },
    {
        let ghost strs_pred = spec_keeps_other_strs(id@);
        let ghost items_pred = spec_keeps_other_items(id@);
        let profile = match self.db.get_by_id(id) {
            Some(rec) => {
                proof {
                    let w = choose|i: int|
                        0 <= i < self.jobs().len() && #[trigger] self.jobs()[i] == rec;
                    assert(old(self).jobs()[w].id@ == id@);
                }
                Some(rec.profile_id)
            },
            None => None,
        };
        let queue = remove_item(&self.queue, id);
        let active = remove_str(&self.active, id);
        let paused = remove_str(&self.paused, id);
        self.queue = queue;
        self.active = active;
        self.paused = paused;
        self.db.delete(id);
        proof {
            lemma_filter_subset(old(self).queue_view(), items_pred);
            lemma_filter_subset(old(self).active_view(), strs_pred);
            assert forall|k: int|
                0 <= k < old(self).queue_view().filter(items_pred).len() implies store::spec_has_id(
                self.jobs(),
                (#[trigger] old(self).queue_view().filter(items_pred)[k]).id@,
            ) by {
                old(self).queue_view().lemma_filter_pred(items_pred, k);
                let kept = old(self).queue_view().filter(items_pred)[k];
                let src = choose|l: int|
                    0 <= l < old(self).queue_view().len() && old(self).queue_view()[l] == kept;
                store::lemma_remove_id_keeps_other(old(self).jobs(), id@, kept.id@);
            }
            assert forall|k: int|
                0 <= k < old(self).active_view().filter(strs_pred).len() implies store::spec_has_id(
                self.jobs(),
                (#[trigger] old(self).active_view().filter(strs_pred)[k])@,
            ) by {
                old(self).active_view().lemma_filter_pred(strs_pred, k);
                let kept = old(self).active_view().filter(strs_pred)[k];
                let src = choose|l: int|
                    0 <= l < old(self).active_view().len() && old(self).active_view()[l] == kept;
                store::lemma_remove_id_keeps_other(old(self).jobs(), id@, kept@);
            }
        }
        profile
    }

    /// Deletes every job of a profile: their records leave the store, their
    /// ids leave the queue and both signal sets. Returns the deleted ids so
    /// the caller can remove the artifacts on disk.
    pub fn delete_all_for_profile(&mut self, profile_id: &str) -> (r: Vec<String>)
        requires
            old(self).wf(),
        ensures
            final(self).wf(),
            r@ == store::spec_profile_job_ids(old(self).jobs(), profile_id@),
            final(self).jobs() == store::spec_remove_profile(old(self).jobs(), profile_id@),
            final(self).queue_view() == old(self).queue_view().filter(
                spec_keeps_unlisted_items(r@),
            ),
            final(self).active_view() == old(self).active_view().filter(
                spec_keeps_unlisted_strs(r@),
            ),
            final(self).paused_view() == old(self).paused_view().filter(
                spec_keeps_unlisted_strs(r@),
            ),
            final(self).settings() == old(self).settings(),
            final(self).concurrency_limit() == old(self).concurrency_limit(),
    {
        let ids = self.db.delete_all_for_profile(profile_id);
        let ghost strs_pred = spec_keeps_unlisted_strs(ids@);
        let ghost items_pred = spec_keeps_unlisted_items(ids@);
        let queue = remove_listed_items(&self.queue, &ids);
        let active = remove_listed_strs(&self.active, &ids);
        let paused = remove_listed_strs(&self.paused, &ids);
        self.queue = queue;
        self.active = active;
        self.paused = paused;
        proof {
            lemma_filter_subset(old(self).queue_view(), items_pred);
            lemma_filter_subset(old(self).active_view(), strs_pred);
            assert forall|k: int|
                0 <= k < old(self).queue_view().filter(items_pred).len() implies store::spec_has_id(
                self.jobs(),
                (#[trigger] old(self).queue_view().filter(items_pred)[k]).id@,
            ) by {
                old(self).queue_view().lemma_filter_pred(items_pred, k);
                let kept = old(self).queue_view().filter(items_pred)[k];
                let l = choose|l: int|
                    0 <= l < old(self).queue_view().len() && old(self).queue_view()[l] == kept;
                lemma_remove_profile_keeps_unlisted(old(self).jobs(), profile_id@, kept.id@);
            }
            assert forall|k: int|
                0 <= k < old(self).active_view().filter(strs_pred).len() implies store::spec_has_id(
                self.jobs(),
                (#[trigger] old(self).active_view().filter(strs_pred)[k])@,
            ) by {
                old(self).active_view().lemma_filter_pred(strs_pred, k);
                let kept = old(self).active_view().filter(strs_pred)[k];
                let l = choose|l: int|
                    0 <= l < old(self).active_view().len() && old(self).active_view()[l] == kept;
                lemma_remove_profile_keeps_unlisted(old(self).jobs(), profile_id@, kept@);
            }
        }
        ids
    }

    /// The smart-download hook, run after a fetch exits: when the record is
    /// `Completed` (chaining hangs on the success transition alone), carries
    /// `smart_download`, and the store can name the next episode, a successor
    /// record with a fresh id is persisted and enqueued; when the completed
    /// record also carries `auto_delete`, the predecessor's record is deleted
    /// and its profile returned so the caller removes its artifacts. On any
    /// other record — paused, failed, cancelled, still running or unknown —
    /// the hook does nothing; with a chainable record it declines only when
    /// the drawn id collides with a stored one.
    pub fn handle_completion(&mut self, completed_id: &str, now_ms: i64) -> (r: SmartOutcome)
        requires
            old(self).wf(),
        ensures
            final(self).wf(),
            final(self).settings() == old(self).settings(),
            final(self).concurrency_limit() == old(self).concurrency_limit(),
            match r.chained {
                None => {
                    &&& final(self).jobs() == old(self).jobs()
                    &&& final(self).queue_view() == old(self).queue_view()
                    &&& final(self).active_view() == old(self).active_view()
                    &&& final(self).paused_view() == old(self).paused_view()
                    &&& r.deleted_predecessor is None
                    &&& forall|i: int|
                        0 <= i < old(self).jobs().len() && (#[trigger] old(self).jobs()[i]).id@
                            == completed_id@ && old(self).jobs()[i].status is Completed && old(
                            self,
                        ).jobs()[i].smart_download && store::spec_chain_eligible(
                            old(self).jobs()[i],
                        ) && !store::spec_next_episode_taken(old(self).jobs(), old(self).jobs()[i])
                            ==> spec_has_uuid_length_id(old(self).jobs())
                },
                Some(new_id) => {
                    &&& final(self).jobs().len() > 0
                    &&& final(self).queue_view().len() > 0
                    &&& !store::spec_has_id(old(self).jobs(), new_id@)
                    &&& ({
                        let succ = final(self).jobs().last();
                        let item = final(self).queue_view().last();
                        &&& succ.id@ == new_id@
                        &&& succ.added_at == now_ms
                        &&& item.id@ == new_id@
                        &&& item.profile_id == succ.profile_id
                        &&& succ.episode_title is Some && item.title == succ.episode_title.unwrap()
                        &&& item.stream_url == succ.stream_url
                        &&& item.quality == succ.quality
                        &&& item.smart_download == succ.smart_download
                        &&& item.auto_delete == succ.auto_delete
                        &&& exists|i: int|
                            {
                                &&& 0 <= i < old(self).jobs().len()
                                &&& (#[trigger] old(self).jobs()[i]).id@ == completed_id@
                                &&& old(self).jobs()[i].status is Completed
                                &&& old(self).jobs()[i].smart_download
                                &&& store::spec_chain_eligible(old(self).jobs()[i])
                                &&& !store::spec_next_episode_taken(
                                    old(self).jobs(),
                                    old(self).jobs()[i],
                                )
                                &&& store::spec_successor_fields(old(self).jobs()[i], succ)
                                &&& if old(self).jobs()[i].auto_delete {
                                    &&& final(self).jobs() == store::spec_remove_id(
                                        old(self).jobs().push(succ),
                                        completed_id@,
                                    )
                                    &&& final(self).queue_view() == old(self).queue_view().filter(
                                        spec_keeps_other_items(completed_id@),
                                    ).push(item)
                                    &&& final(self).active_view() == old(
                                        self,
                                    ).active_view().filter(spec_keeps_other_strs(completed_id@))
                                    &&& final(self).paused_view() == old(
                                        self,
                                    ).paused_view().filter(spec_keeps_other_strs(completed_id@))
                                    &&& r.deleted_predecessor matches Some(p) && p@ == old(
                                        self,
                                    ).jobs()[i].profile_id@
                                } else {
                                    &&& final(self).jobs() == old(self).jobs().push(succ)
                                    &&& final(self).queue_view() == old(self).queue_view().push(
                                        item,
                                    )
                                    &&& final(self).active_view() == old(self).active_view()
                                    &&& final(self).paused_view() == old(self).paused_view()
                                    &&& r.deleted_predecessor is None
                                }
                            }
                    })
                },
            },
    {
        let no_op = SmartOutcome { chained: None, deleted_predecessor: None };
        let rec = match self.db.get_by_id(completed_id) {
            Some(rec) => rec,
            None => {
                proof {
                    assert forall|i: int|
                        0 <= i < self.jobs().len() && (#[trigger] self.jobs()[i]).id@
                            == completed_id@ implies spec_has_uuid_length_id(self.jobs()) by {
                        assert(store::spec_has_id(self.jobs(), completed_id@));
                    }
                }
                return no_op;
            },
        };
        proof {
            store::lemma_id_unique_match(self.jobs(), rec, completed_id@);
            let w = choose|i: int|
                0 <= i < self.jobs().len() && #[trigger] self.jobs()[i] == rec;
            assert(old(self).jobs()[w].id@ == completed_id@ && old(self).jobs()[w] == rec);
        }
        if !rec.smart_download || !matches!(rec.status, DownloadStatus::Completed) {
            return no_op;
        }
        let template = match self.db.get_next_episode(completed_id) {
            Some(t) => t,
            None => {
                return no_op;
            },
        };
        let ghost gtemplate = template;
        let new_id = fresh_uuid();
        let mut succ = template;
        succ.id = new_id.clone();
        succ.added_at = now_ms;
        let title = match &succ.episode_title {
            Some(t) => t.clone(),
            None => succ.title.clone(),
        };
        let item = QueueItem {
            id: new_id.clone(),
            profile_id: succ.profile_id.clone(),
            title,
            stream_url: succ.stream_url.clone(),
            quality: succ.quality,
            smart_download: succ.smart_download,
            auto_delete: succ.auto_delete,
        };
        let ghost gsucc = succ;
        let ghost gitem = item;
        match self.db.insert(succ) {
            Ok(()) => {},
            Err(e) => {
                proof {
                    let jv = old(self).jobs();
                    let w = choose|i: int|
                        0 <= i < jv.len() && (#[trigger] jv[i]).id@ == completed_id@
                            && store::spec_chain_eligible(jv[i])
                            && !store::spec_next_episode_taken(jv, jv[i])
                            && store::spec_is_next_template(jv[i], gtemplate);
                    assert(jv[w] == rec);
                    if e is DuplicateEpisode {
                        // a key conflict for the successor is exactly a taken
                        // next episode, which the template ruled out
                        let j = choose|j: int|
                            0 <= j < jv.len() && !((#[trigger] jv[j]).status is Cancelled)
                                && jv[j].same_episode_key(gsucc);
                        assert(jv[j].profile_id@ == rec.profile_id@);
                        assert(jv[j].episode == Some((rec.episode.unwrap() + 1) as i64));
                        assert(store::spec_next_episode_taken(jv, jv[w]));
                    }
                    let k = choose|k: int| 0 <= k < jv.len() && (#[trigger] jv[k]).id@ == new_id@;
                    assert(jv[k].id@.len() == 36);
                    assert(spec_has_uuid_length_id(jv));
                }
                return no_op;
            },
        }
        proof {
            store::lemma_push_keeps_has_id(old(self).jobs(), gsucc);
            let jv = old(self).jobs();
            let w = choose|i: int|
                0 <= i < jv.len() && (#[trigger] jv[i]).id@ == completed_id@
                    && store::spec_chain_eligible(jv[i]) && !store::spec_next_episode_taken(
                    jv,
                    jv[i],
                ) && store::spec_is_next_template(jv[i], gtemplate);
            assert(jv[w] == rec);
            assert(store::spec_successor_fields(jv[w], gsucc));
        }
        self.queue.push(item);
        if rec.auto_delete {
            proof {
                let w = choose|i: int|
                    0 <= i < old(self).jobs().len() && (#[trigger] old(self).jobs()[i]).id@
                        == completed_id@;
                assert(gsucc.id@ != completed_id@);
                assert(gitem.id@ != completed_id@);
                lemma_filter_push(
                    old(self).queue_view(),
                    gitem,
                    spec_keeps_other_items(completed_id@),
                );
                lemma_filter_push(
                    old(self).jobs(),
                    gsucc,
                    store::spec_keeps_other_ids(completed_id@),
                );
            }
            let predecessor_profile = self.delete(completed_id);
            proof {
                let jv = old(self).jobs();
                let pushed = jv.push(gsucc);
                let w = choose|i: int|
                    0 <= i < jv.len() && (#[trigger] jv[i]).id@ == completed_id@;
                assert(pushed[w] == jv[w] && jv[w] == rec);
                assert(store::spec_has_id(pushed, completed_id@));
                store::lemma_id_unique_match(pushed, rec, completed_id@);
                if predecessor_profile is Some {
                    let i3 = choose|i: int|
                        0 <= i < pushed.len() && (#[trigger] pushed[i]).id@ == completed_id@
                            && predecessor_profile.unwrap()@ == pushed[i].profile_id@;
                    assert(pushed[i3] == rec);
                }
            }
            SmartOutcome { chained: Some(new_id), deleted_predecessor: predecessor_profile }
        } else {
            SmartOutcome { chained: Some(new_id), deleted_predecessor: None }
        }
    }

    /// All records of a profile, ordered by `added_at` descending.
    pub fn get_downloads(&self, profile_id: &str) -> (r: Vec<DownloadRecord>)
        requires
            self.wf(),
        ensures
            r@ == store::spec_sort_desc(self.jobs().filter(store::spec_of_profile(profile_id@))),
    {
        self.db.get_all(profile_id)
    }

    /// Total artifact bytes (saturating) and record count of the completed
    /// downloads of a profile.
    pub fn get_storage_stats(&self, profile_id: &str) -> (r: (u64, u64))
        requires
            self.wf(),
        ensures
            r.0 as int == ({
                let s = store::spec_completed_bytes(self.jobs(), profile_id@);
                if s > u64::MAX as int {
                    u64::MAX as int
                } else {
                    s
                }
            }),
            r.1 as int == store::spec_completed_count(self.jobs(), profile_id@),
    {
        self.db.get_storage_stats(profile_id)
    }

    /// The storage quota of a profile, 0 when none is set.
    pub fn get_quota(&self, profile_id: &str) -> (r: i64)
        requires
            self.wf(),
        ensures
            r == store::spec_quota(self.settings(), profile_id@),
    {
        self.db.get_quota(profile_id)
    }

    /// Sets the storage quota of a profile.
    pub fn set_quota(&mut self, profile_id: &str, quota_bytes: i64)
        requires
            old(self).wf(),
        ensures
            final(self).wf(),
            final(self).jobs() == old(self).jobs(),
            final(self).queue_view() == old(self).queue_view(),
            final(self).active_view() == old(self).active_view(),
            final(self).paused_view() == old(self).paused_view(),
            final(self).concurrency_limit() == old(self).concurrency_limit(),
            store::spec_quota(final(self).settings(), profile_id@) == quota_bytes,
            store::spec_smart_defaults(final(self).settings(), profile_id@)
                == store::spec_smart_defaults(old(self).settings(), profile_id@),
    {
        self.db.set_quota(profile_id, quota_bytes);
        proof {
            if store::spec_has_profile(old(self).settings(), profile_id@) {
                let w = choose|i: int|
                    0 <= i < old(self).settings().len() && (#[trigger] old(
                        self,
                    ).settings()[i]).profile_id@ == profile_id@;
                store::lemma_settings_row(old(self).settings(), w);
                store::lemma_settings_row(self.settings(), w);
            } else {
                store::lemma_settings_absent(old(self).settings(), profile_id@);
                store::lemma_settings_row(self.settings(), self.settings().len() - 1);
            }
        }
    }

    /// The smart-download and auto-delete defaults of a profile,
    /// `(false, false)` when none are set.
    pub fn get_smart_defaults(&self, profile_id: &str) -> (r: (bool, bool))
        requires
            self.wf(),
        ensures
            r == store::spec_smart_defaults(self.settings(), profile_id@),
    {
        self.db.get_smart_defaults(profile_id)
    }

    /// Sets the smart-download and auto-delete defaults of a profile.
    pub fn set_smart_defaults(&mut self, profile_id: &str, smart: bool, auto_delete: bool)
        requires
            old(self).wf(),
        ensures
            final(self).wf(),
            final(self).jobs() == old(self).jobs(),
            final(self).queue_view() == old(self).queue_view(),
            final(self).active_view() == old(self).active_view(),
            final(self).paused_view() == old(self).paused_view(),
            final(self).concurrency_limit() == old(self).concurrency_limit(),
            store::spec_smart_defaults(final(self).settings(), profile_id@) == (smart, auto_delete),
            store::spec_quota(final(self).settings(), profile_id@) == store::spec_quota(
                old(self).settings(),
                profile_id@,
            ),
    {
        self.db.set_smart_defaults(profile_id, smart, auto_delete);
        proof {
            if store::spec_has_profile(old(self).settings(), profile_id@) {
                let w = choose|i: int|
                    0 <= i < old(self).settings().len() && (#[trigger] old(
                        self,
                    ).settings()[i]).profile_id@ == profile_id@;
                store::lemma_settings_row(old(self).settings(), w);
                store::lemma_settings_row(self.settings(), w);
            } else {
                store::lemma_settings_absent(old(self).settings(), profile_id@);
                store::lemma_settings_row(self.settings(), self.settings().len() - 1);
            }
        }
    }

    /// Records a progress reading from a fetch driver: the matching record
    /// turns `Downloading` with the reading's percentage (kept below full
    /// progress) and byte count. A reading for an unknown id or for a job no
    /// longer `Queued` or `Downloading` is dropped.
    pub fn record_progress(&mut self, id: &str, percent: u8, downloaded_bytes: u64) -> (r: bool)
        requires
            old(self).wf(),
            percent <= 100,
        ensures
            final(self).wf(),
            final(self).queue_view() == old(self).queue_view(),
            final(self).active_view() == old(self).active_view(),
            final(self).paused_view() == old(self).paused_view(),
            final(self).settings() == old(self).settings(),
            final(self).concurrency_limit() == old(self).concurrency_limit(),
            if r {
                &&& exists|i: int|
                    0 <= i < old(self).jobs().len() && (#[trigger] old(self).jobs()[i]).id@ == id@
                        && (old(self).jobs()[i].status is Queued || old(self).jobs()[i].status
                        is Downloading)
                &&& final(self).jobs().len() == old(self).jobs().len()
                &&& forall|k: int|
                    0 <= k < old(self).jobs().len() ==> #[trigger] final(self).jobs()[k] == (
                    if old(self).jobs()[k].id@ == id@ {
                        store::spec_with_progress(old(self).jobs()[k], percent, downloaded_bytes)
                    } else {
                        old(self).jobs()[k]
                    })
            } else {
                &&& final(self).jobs() == old(self).jobs()
                &&& forall|i: int|
                    0 <= i < old(self).jobs().len() && (#[trigger] old(self).jobs()[i]).id@ == id@
                        ==> !(old(self).jobs()[i].status is Queued) && !(old(
                        self,
                    ).jobs()[i].status is Downloading)
            },
    {
        let rec = match self.db.get_by_id(id) {
            Some(rec) => rec,
            None => {
                return false;
            },
        };
        proof {
            store::lemma_id_unique_match(self.jobs(), rec, id@);
            let w = choose|i: int|
                0 <= i < self.jobs().len() && #[trigger] self.jobs()[i] == rec;
            assert(old(self).jobs()[w].id@ == id@ && old(self).jobs()[w] == rec);
        }
        if !matches!(rec.status, DownloadStatus::Queued | DownloadStatus::Downloading) {
            return false;
        }
        self.db.update_progress(id, percent, downloaded_bytes);
        proof {
            store::lemma_same_ids_has_id(old(self).jobs(), self.jobs());
        }
        true
    }

    /// Records a clean completion from a fetch driver: the matching record
    /// turns `Completed` with full progress, the final artifact path and
    /// size, and the completion time. A completion for an unknown id or a
    /// terminal job is dropped.
    pub fn record_completion(&mut self, id: &str, file_path: &str, file_size: u64, now_ms: i64) -> (r:
        bool)
        requires
            old(self).wf(),
            file_path@.len() > 0,
            file_size > 0,
        ensures
            final(self).wf(),
            final(self).queue_view() == old(self).queue_view(),
            final(self).active_view() == old(self).active_view(),
            final(self).paused_view() == old(self).paused_view(),
            final(self).settings() == old(self).settings(),
            final(self).concurrency_limit() == old(self).concurrency_limit(),
            if r {
                &&& exists|i: int|
                    0 <= i < old(self).jobs().len() && (#[trigger] old(self).jobs()[i]).id@ == id@
                        && !old(self).jobs()[i].status.is_terminal()
                &&& final(self).jobs().len() == old(self).jobs().len()
                &&& forall|k: int|
                    0 <= k < old(self).jobs().len() && old(self).jobs()[k].id@ != id@
                        ==> #[trigger] final(self).jobs()[k] == old(self).jobs()[k]
                &&& forall|k: int|
                    0 <= k < old(self).jobs().len() && old(self).jobs()[k].id@ == id@ ==> {
                        &&& #[trigger] final(self).jobs()[k] == store::spec_with_complete(
                            old(self).jobs()[k],
                            final(self).jobs()[k].file_path,
                            file_size,
                            now_ms,
                        )
                        &&& final(self).jobs()[k].file_path@ == file_path@
                    }
            } else {
                &&& final(self).jobs() == old(self).jobs()
                &&& forall|i: int|
                    0 <= i < old(self).jobs().len() && (#[trigger] old(self).jobs()[i]).id@ == id@
                        ==> old(self).jobs()[i].status.is_terminal()
            },
    {
        let rec = match self.db.get_by_id(id) {
            Some(rec) => rec,
            None => {
                return false;
            },
        };
        proof {
            store::lemma_id_unique_match(self.jobs(), rec, id@);
            let w = choose|i: int|
                0 <= i < self.jobs().len() && #[trigger] self.jobs()[i] == rec;
            assert(old(self).jobs()[w].id@ == id@ && old(self).jobs()[w] == rec);
        }
        if matches!(
            rec.status,
            DownloadStatus::Completed | DownloadStatus::Failed | DownloadStatus::Cancelled
        ) {
            return false;
        }
        self.db.update_complete(id, file_path, file_size, now_ms);
        proof {
            store::lemma_same_ids_has_id(old(self).jobs(), self.jobs());
        }
        true
    }

    /// Records a failure from a fetch driver: the matching record turns
    /// `Failed` and carries the reason. A failure for an unknown id or a
    /// terminal job is dropped.
    pub fn record_failure(&mut self, id: &str, error: &str) -> (r: bool)
        requires
            old(self).wf(),
            error@.len() > 0,
        ensures
            final(self).wf(),
            final(self).queue_view() == old(self).queue_view(),
            final(self).active_view() == old(self).active_view(),
            final(self).paused_view() == old(self).paused_view(),
            final(self).settings() == old(self).settings(),
            final(self).concurrency_limit() == old(self).concurrency_limit(),
            if r {
                &&& exists|i: int|
                    0 <= i < old(self).jobs().len() && (#[trigger] old(self).jobs()[i]).id@ == id@
                        && !old(self).jobs()[i].status.is_terminal()
                &&& final(self).jobs().len() == old(self).jobs().len()
                &&& forall|k: int|
                    0 <= k < old(self).jobs().len() && old(self).jobs()[k].id@ != id@
                        ==> #[trigger] final(self).jobs()[k] == old(self).jobs()[k]
                &&& forall|k: int|
                    0 <= k < old(self).jobs().len() && old(self).jobs()[k].id@ == id@ ==> {
                        &&& #[trigger] final(self).jobs()[k] == store::spec_with_error(
                            old(self).jobs()[k],
                            final(self).jobs()[k].error_message.unwrap(),
                        )
                        &&& final(self).jobs()[k].error_message is Some
                        &&& final(self).jobs()[k].error_message.unwrap()@ == error@
                    }
            } else {
                &&& final(self).jobs() == old(self).jobs()
                &&& forall|i: int|
                    0 <= i < old(self).jobs().len() && (#[trigger] old(self).jobs()[i]).id@ == id@
                        ==> old(self).jobs()[i].status.is_terminal()
            },
    {
        let rec = match self.db.get_by_id(id) {
            Some(rec) => rec,
            None => {
                return false;
            },
        };
        proof {
            store::lemma_id_unique_match(self.jobs(), rec, id@);
            let w = choose|i: int|
                0 <= i < self.jobs().len() && #[trigger] self.jobs()[i] == rec;
            assert(old(self).jobs()[w].id@ == id@ && old(self).jobs()[w] == rec);
        }
        if matches!(
            rec.status,
            DownloadStatus::Completed | DownloadStatus::Failed | DownloadStatus::Cancelled
        ) {
            return false;
        }
        self.db.update_error(id, error);
        proof {
            store::lemma_same_ids_has_id(old(self).jobs(), self.jobs());
        }
        true
    }

    /// Looks a job's record up by id.
    pub fn get_record(&self, id: &str) -> (r: Option<DownloadRecord>)
        requires
            self.wf(),
        ensures
            match r {
                Some(rec) => {
                    &&& rec.id@ == id@
                    &&& rec.wf()
                    &&& exists|i: int|
                        0 <= i < self.jobs().len() && #[trigger] self.jobs()[i] == rec
                },
                None => !store::spec_has_id(self.jobs(), id@),
            },
    {
        let r = self.db.get_by_id(id);
        proof {
            if r is Some {
                let rec = r.unwrap();
                let w = choose|i: int|
                    0 <= i < self.db.jobs_view().len() && #[trigger] self.db.jobs_view()[i] == rec;
                assert(self.jobs()[w] == rec);
            }
        }
        r
    }

    /// Whether this id has been signalled to pause; fetch drivers poll this
    /// between chunks.
    pub fn is_paused(&self, id: &str) -> (r: bool)
        ensures
            r == spec_in_strs(self.paused_view(), id@),
    {
        contains_str(&self.paused, id)
    }
}

/// The queue items of `v` whose id differs from `s`, in order.
#[verifier::loop_isolation(false)]
fn remove_item(v: &Vec<QueueItem>, s: &str) -> (r: Vec<QueueItem>)
    ensures
        r@ == v@.filter(spec_keeps_other_items(s@)),
{
    let ghost pred = spec_keeps_other_items(s@);
    let n = v.len();
    let mut kept: Vec<QueueItem> = Vec::new();
    let mut i: usize = 0;
    while i < n
        invariant
            i <= n,
            kept@ == v@.subrange(0, i as int).filter(pred),
        decreases n - i,
    {
        if !text::str_eq(v[i].id.as_str(), s) {
            kept.push(v[i].clone());
        }
        proof {
            let sub = v@.subrange(0, i as int);
            assert(v@.subrange(0, i as int + 1) =~= sub.push(v@[i as int]));
            lemma_filter_push(sub, v@[i as int], pred);
        }
        i += 1;
    }
    proof {
        assert(v@.subrange(0, n as int) =~= v@);
    }
    kept
}

/// The scheduling laws: never more active downloads than the concurrency
/// cap, and no job both running and queued.
pub proof fn lemma_scheduler_bounds(m: DownloadManager)
    requires
        m.wf(),
    ensures
        m.active_view().len() <= m.concurrency_limit(),
        forall|i: int, j: int|
            0 <= i < m.active_view().len() && 0 <= j < m.queue_view().len() ==> (
            #[trigger] m.active_view()[i])@ != (#[trigger] m.queue_view()[j]).id@,
{
}

/// What the smart-download hook did.
#[derive(Debug)]
pub struct SmartOutcome {
    /// Id of the enqueued successor job, when one was chained.
    pub chained: Option<String>,
    /// Profile of the deleted predecessor, when auto-delete removed it; the
    /// caller removes the predecessor's artifacts from disk.
    pub deleted_predecessor: Option<String>,
}

/// Relies on `uuid::Uuid::new_v4` and its `Display` form: a fresh random
/// version-4 UUID, hyphenated, 36 ASCII characters.
#[verifier::external_body]
fn fresh_uuid() -> (r: String)
    ensures
        r@.len() == 36,
{
    uuid::Uuid::new_v4().to_string()
}

/// After adding `id` to a set of strings that lacked it, or leaving a set
/// that held it alone, the set holds it.
proof fn lemma_in_strs_witness(before: Seq<String>, after: Seq<String>, id: Seq<char>)
    requires
        if spec_in_strs(before, id) {
            after == before
        } else {
            after.len() == before.len() + 1 && after == before.push(after.last())
                && after.last()@ == id
        },
    ensures
        spec_in_strs(after, id),
{
    if spec_in_strs(before, id) {
        let w = choose|i: int| 0 <= i < before.len() && (#[trigger] before[i])@ == id;
        assert(after[w]@ == id);
    } else {
        assert(after[after.len() - 1]@ == id);
    }
}

/// A stored job whose id the purge did not list keeps its record: it belongs
/// to another profile.
proof fn lemma_remove_profile_keeps_unlisted(
    jobs: Seq<DownloadRecord>,
    profile: Seq<char>,
    other: Seq<char>,
)
    requires
        store::spec_has_id(jobs, other),
        !spec_in_strs(store::spec_profile_job_ids(jobs, profile), other),
    ensures
        store::spec_has_id(store::spec_remove_profile(jobs, profile), other),
{
    let keep_pred = store::spec_keeps_other_profiles(profile);
    let gone_pred = store::spec_of_profile(profile);
    let id_of = store::spec_record_id();
    let k = choose|k: int| 0 <= k < jobs.len() && (#[trigger] jobs[k]).id@ == other;
    if jobs[k].profile_id@ == profile {
        jobs.lemma_filter_contains(gone_pred, k);
        let f = jobs.filter(gone_pred);
        let m = choose|m: int| 0 <= m < f.len() && f[m] == jobs[k];
        assert(f.map_values(id_of)[m]@ == other);
        assert(spec_in_strs(store::spec_profile_job_ids(jobs, profile), other));
    } else {
        jobs.lemma_filter_contains(keep_pred, k);
        let f = jobs.filter(keep_pred);
        let m = choose|m: int| 0 <= m < f.len() && f[m] == jobs[k];
        assert(f[m].id@ == other);
    }
}

/// The strings of `v` that stand in none of `ids`, in order.
#[verifier::loop_isolation(false)]
fn remove_listed_strs(v: &Vec<String>, ids: &Vec<String>) -> (r: Vec<String>)
    ensures
        r@ == v@.filter(spec_keeps_unlisted_strs(ids@)),
{
    let ghost pred = spec_keeps_unlisted_strs(ids@);
    let n = v.len();
    let mut kept: Vec<String> = Vec::new();
    let mut i: usize = 0;
    while i < n
        invariant
            i <= n,
            kept@ == v@.subrange(0, i as int).filter(pred),
        decreases n - i,
    {
        if !contains_str(ids, v[i].as_str()) {
            kept.push(v[i].clone());
        }
        proof {
            let sub = v@.subrange(0, i as int);
            assert(v@.subrange(0, i as int + 1) =~= sub.push(v@[i as int]));
            lemma_filter_push(sub, v@[i as int], pred);
        }
        i += 1;
    }
    proof {
        assert(v@.subrange(0, n as int) =~= v@);
    }
    kept
}

/// The queue items of `v` whose id stands in none of `ids`, in order.
#[verifier::loop_isolation(false)]
fn remove_listed_items(v: &Vec<QueueItem>, ids: &Vec<String>) -> (r: Vec<QueueItem>)
    ensures
        r@ == v@.filter(spec_keeps_unlisted_items(ids@)),
{
    let ghost pred = spec_keeps_unlisted_items(ids@);
    let n = v.len();
    let mut kept: Vec<QueueItem> = Vec::new();
    let mut i: usize = 0;
    while i < n
        invariant
            i <= n,
            kept@ == v@.subrange(0, i as int).filter(pred),
        decreases n - i,
    {
        if !contains_str(ids, v[i].id.as_str()) {
            kept.push(v[i].clone());
        }
        proof {
            let sub = v@.subrange(0, i as int);
            assert(v@.subrange(0, i as int + 1) =~= sub.push(v@[i as int]));
            lemma_filter_push(sub, v@[i as int], pred);
        }
        i += 1;
    }
    proof {
        assert(v@.subrange(0, n as int) =~= v@);
    }
    kept
}

/// Whether some element of `v` equals `s`.
fn contains_str(v: &Vec<String>, s: &str) -> (r: bool)
    ensures
        r == spec_in_strs(v@, s@),
{
    let n = v.len();
    let mut i: usize = 0;
    while i < n
        invariant
            n == v@.len(),
            i <= n,
            forall|k: int| 0 <= k < i ==> (#[trigger] v@[k])@ != s@,
        decreases n - i,
    {
        if text::str_eq(v[i].as_str(), s) {
            return true;
        }
        i += 1;
    }
    false
}

/// The strings of `v` that differ from `s`, in order.
#[verifier::loop_isolation(false)]
fn remove_str(v: &Vec<String>, s: &str) -> (r: Vec<String>)
    ensures
        r@ == v@.filter(spec_keeps_other_strs(s@)),
{
    let ghost pred = spec_keeps_other_strs(s@);
    let n = v.len();
    let mut kept: Vec<String> = Vec::new();
    let mut i: usize = 0;
    while i < n
        invariant
            i <= n,
            kept@ == v@.subrange(0, i as int).filter(pred),
        decreases n - i,
    {
        if !text::str_eq(v[i].as_str(), s) {
            kept.push(v[i].clone());
        }
        proof {
            let sub = v@.subrange(0, i as int);
            assert(v@.subrange(0, i as int + 1) =~= sub.push(v@[i as int]));
            lemma_filter_push(sub, v@[i as int], pred);
        }
        i += 1;
    }
    proof {
        assert(v@.subrange(0, n as int) =~= v@);
    }
    kept
}

} // verus!
