//! The persistent record of one download job, its well-formedness invariant,
//! and the request payload a new job is built from.

use vstd::prelude::*;

use crate::status::{DownloadQuality, DownloadStatus};
use crate::text;

verus! {

/// One download job as the store keeps it.
///
/// `progress` and `watched_percent` are whole percentages in `0..=100`.
#[derive(Debug)]
pub struct DownloadRecord {
    pub id: String,
    pub profile_id: String,
    pub media_type: String,
    pub media_id: String,
    pub episode_id: Option<String>,
    pub title: String,
    pub episode_title: Option<String>,
    pub season: Option<i64>,
    pub episode: Option<i64>,
    pub poster_path: String,
    pub status: DownloadStatus,
    pub progress: u8,
    pub quality: DownloadQuality,
    pub file_path: String,
    pub file_size: u64,
    pub downloaded_bytes: u64,
    pub added_at: i64,
    pub completed_at: Option<i64>,
    pub last_watched_at: Option<i64>,
    pub watched_percent: u8,
    pub stream_url: String,
    pub addon_id: String,
    pub error_message: Option<String>,
    /// Completion of this job triggers the smart-download chaining hook.
    pub smart_download: bool,
    /// After chaining, this job's artifact and record are removed.
    pub auto_delete: bool,
}

impl DownloadRecord {
    /// Well-formedness of a single record: the progress percentage, the final
    /// artifact fields and the error message each agree with the status.
    pub open spec fn wf(self) -> bool {
        &&& self.progress <= 100
        &&& self.watched_percent <= 100
        &&& (self.progress == 100 <==> self.status is Completed)
        &&& (self.status is Completed <==> self.file_path@.len() > 0 && self.file_size > 0)
        &&& (self.status is Completed ==> self.completed_at is Some)
        &&& (self.status is Failed <==> self.error_message is Some)
        &&& (match self.error_message {
            Some(m) => m@.len() > 0,
            None => true,
        })
    }

    /// Decides well-formedness, so an unverified caller (one that rebuilds
    /// records from a durable mirror) can test a record before handing it to
    /// the store.
    pub fn is_wf(&self) -> (r: bool)
        ensures
            r == self.wf(),
    {
        let completed = matches!(self.status, DownloadStatus::Completed);
        let failed = matches!(self.status, DownloadStatus::Failed);
        let artifact = !self.file_path.as_str().is_empty() && self.file_size > 0;
        let error_ok = match &self.error_message {
            Some(m) => failed && !m.as_str().is_empty(),
            None => !failed,
        };
        self.progress <= 100 && self.watched_percent <= 100 && ((self.progress == 100) == completed)
            && (completed == artifact) && (!completed || self.completed_at.is_some()) && error_ok
    }

    /// Two records describe the same episode of the same media for the same
    /// profile. This is the key under which duplicates are refused.
    pub open spec fn same_episode_key(self, other: DownloadRecord) -> bool {
        &&& self.profile_id@ == other.profile_id@
        &&& self.media_id@ == other.media_id@
        &&& self.season == other.season
        &&& self.episode == other.episode
    }
}

impl Clone for DownloadRecord {
    fn clone(&self) -> (r: Self)
        ensures
            r == *self,
    {
        DownloadRecord {
            id: self.id.clone(),
            profile_id: self.profile_id.clone(),
            media_type: self.media_type.clone(),
            media_id: self.media_id.clone(),
            episode_id: clone_opt_string(&self.episode_id),
            title: self.title.clone(),
            episode_title: clone_opt_string(&self.episode_title),
            season: self.season,
            episode: self.episode,
            poster_path: self.poster_path.clone(),
            status: self.status,
            progress: self.progress,
            quality: self.quality,
            file_path: self.file_path.clone(),
            file_size: self.file_size,
            downloaded_bytes: self.downloaded_bytes,
            added_at: self.added_at,
            completed_at: self.completed_at,
            last_watched_at: self.last_watched_at,
            watched_percent: self.watched_percent,
            stream_url: self.stream_url.clone(),
            addon_id: self.addon_id.clone(),
            error_message: clone_opt_string(&self.error_message),
            smart_download: self.smart_download,
            auto_delete: self.auto_delete,
        }
    }
}

fn clone_opt_string(o: &Option<String>) -> (r: Option<String>)
    ensures
        r == *o,
{
    match o {
        Some(s) => Some(s.clone()),
        None => None,
    }
}

/// The request a new download is started from.
#[derive(Debug)]
pub struct StartDownloadPayload {
    pub profile_id: String,
    pub media_type: String,
    pub media_id: String,
    pub episode_id: Option<String>,
    pub title: String,
    pub episode_title: Option<String>,
    pub season: Option<i64>,
    pub episode: Option<i64>,
    pub poster_path: String,
    pub stream_url: String,
    pub addon_id: String,
    pub quality: String,
    /// Overrides the profile's smart-download default when set.
    pub smart_download: Option<bool>,
    /// Overrides the profile's auto-delete default when set.
    pub auto_delete: Option<bool>,
}

/// The queued record a request turns into: status `Queued`, no progress, no
/// artifact yet; the smart-download and auto-delete flags are the payload's
/// overrides where given, else the profile defaults. `empty_path` stands for
/// the empty string the new record carries as its artifact path.
pub open spec fn spec_queued_record(
    payload: StartDownloadPayload,
    id: String,
    now_ms: i64,
    default_smart: bool,
    default_auto: bool,
    empty_path: String,
) -> DownloadRecord {
    DownloadRecord {
        id: id,
        profile_id: payload.profile_id,
        media_type: payload.media_type,
        media_id: payload.media_id,
        episode_id: payload.episode_id,
        title: payload.title,
        episode_title: payload.episode_title,
        season: payload.season,
        episode: payload.episode,
        poster_path: payload.poster_path,
        status: DownloadStatus::Queued,
        progress: 0,
        quality: DownloadQuality::spec_from_str(payload.quality@),
        file_path: empty_path,
        file_size: 0,
        downloaded_bytes: 0,
        added_at: now_ms,
        completed_at: None,
        last_watched_at: None,
        watched_percent: 0,
        stream_url: payload.stream_url,
        addon_id: payload.addon_id,
        error_message: None,
        smart_download: match payload.smart_download {
            Some(b) => b,
            None => default_smart,
        },
        auto_delete: match payload.auto_delete {
            Some(b) => b,
            None => default_auto,
        },
    }
}

/// Builds the queued record for a new request. The caller supplies the fresh
/// id, the clock reading, and the profile's smart-download defaults.
pub fn queued_record(
    payload: StartDownloadPayload,
    id: String,
    now_ms: i64,
    default_smart: bool,
    default_auto: bool,
) -> (r: DownloadRecord)
    ensures
        r.file_path@ == Seq::<char>::empty(),
        r == spec_queued_record(payload, id, now_ms, default_smart, default_auto, r.file_path),
        r.wf(),
{
    let quality = DownloadQuality::from_str(payload.quality.as_str());
    DownloadRecord {
        id,
        profile_id: payload.profile_id,
        media_type: payload.media_type,
        media_id: payload.media_id,
        episode_id: payload.episode_id,
        title: payload.title,
        episode_title: payload.episode_title,
        season: payload.season,
        episode: payload.episode,
        poster_path: payload.poster_path,
        status: DownloadStatus::Queued,
        progress: 0,
        quality,
        file_path: String::new(),
        file_size: 0,
        downloaded_bytes: 0,
        added_at: now_ms,
        completed_at: None,
        last_watched_at: None,
        watched_percent: 0,
        stream_url: payload.stream_url,
        addon_id: payload.addon_id,
        error_message: None,
        smart_download: match payload.smart_download {
            Some(b) => b,
            None => default_smart,
        },
        auto_delete: match payload.auto_delete {
            Some(b) => b,
            None => default_auto,
        },
    }
}

/// The display title of the next episode after season `season`, episode
/// `next_ep`: `S<season>:E<next_ep>`.
pub open spec fn spec_episode_title(season: i64, next_ep: i64) -> Seq<char> {
    "S"@ + text::spec_dec_i64(season as int) + ":E"@ + text::spec_dec_i64(next_ep as int)
}

/// Formats the display title `S<season>:E<episode>` of an episode.
pub fn episode_title_string(season: i64, next_ep: i64) -> (r: String)
    ensures
        r@ == spec_episode_title(season, next_ep),
{
    let r = "S"
        .to_owned()
        .concat(text::i64_to_string(season).as_str())
        .concat(":E")
        .concat(text::i64_to_string(next_ep).as_str());
    proof {
        assert(r@ =~= spec_episode_title(season, next_ep));
    }
    r
}

} // verus!
