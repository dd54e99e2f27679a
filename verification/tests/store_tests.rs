use zentrio_downloads::record::DownloadRecord;
use zentrio_downloads::status::{DownloadQuality, DownloadStatus};
use zentrio_downloads::store::DownloadDb;
use zentrio_downloads::store::StoreError;

fn queued(id: &str, profile: &str, media: &str, season: Option<i64>, episode: Option<i64>, added_at: i64) -> DownloadRecord {
    DownloadRecord {
        id: id.to_string(),
        profile_id: profile.to_string(),
        media_type: if season.is_some() { "series".to_string() } else { "movie".to_string() },
        media_id: media.to_string(),
        episode_id: None,
        title: "A Title".to_string(),
        episode_title: None,
        season,
        episode,
        poster_path: "poster.jpg".to_string(),
        status: DownloadStatus::Queued,
        progress: 0,
        quality: DownloadQuality::Best,
        file_path: String::new(),
        file_size: 0,
        downloaded_bytes: 0,
        added_at,
        completed_at: None,
        last_watched_at: None,
        watched_percent: 0,
        stream_url: "http://host/a.mp4".to_string(),
        addon_id: "addon".to_string(),
        error_message: None,
        smart_download: false,
        auto_delete: false,
    }
}

#[test]
fn insert_and_read_back_round_trip() {
    let mut db = DownloadDb::new();
    let rec = queued("id-1", "p1", "m1", None, None, 10);
    assert!(db.insert(rec).is_ok());
    let got = db.get_by_id("id-1").expect("record must be found");
    assert_eq!(got.id, "id-1");
    assert_eq!(got.profile_id, "p1");
    assert_eq!(got.media_type, "movie");
    assert_eq!(got.media_id, "m1");
    assert_eq!(got.title, "A Title");
    assert_eq!(got.status, DownloadStatus::Queued);
    assert_eq!(got.progress, 0);
    assert_eq!(got.quality, DownloadQuality::Best);
    assert_eq!(got.file_path, "");
    assert_eq!(got.file_size, 0);
    assert_eq!(got.added_at, 10);
    assert_eq!(got.stream_url, "http://host/a.mp4");
    assert_eq!(got.addon_id, "addon");
    assert!(got.error_message.is_none());
}

#[test]
fn insert_duplicate_id_refused() {
    let mut db = DownloadDb::new();
    assert!(db.insert(queued("id-1", "p1", "m1", None, None, 1)).is_ok());
    let r = db.insert(queued("id-1", "p1", "m2", None, None, 2));
    assert_eq!(r, Err(StoreError::DuplicateId));
}

#[test]
fn insert_duplicate_episode_refused() {
    let mut db = DownloadDb::new();
    assert!(db.insert(queued("id-1", "p1", "m1", Some(1), Some(3), 1)).is_ok());
    let r = db.insert(queued("id-2", "p1", "m1", Some(1), Some(3), 2));
    assert_eq!(r, Err(StoreError::DuplicateEpisode));
    // a different episode of the same series is fine
    assert!(db.insert(queued("id-3", "p1", "m1", Some(1), Some(4), 3)).is_ok());
    // the same episode for another profile is fine
    assert!(db.insert(queued("id-4", "p2", "m1", Some(1), Some(3), 4)).is_ok());
}

#[test]
fn cancelled_record_frees_its_episode_key() {
    let mut db = DownloadDb::new();
    assert!(db.insert(queued("id-1", "p1", "m1", Some(1), Some(3), 1)).is_ok());
    db.update_status("id-1", &DownloadStatus::Cancelled);
    assert!(db.insert(queued("id-2", "p1", "m1", Some(1), Some(3), 2)).is_ok());
}

#[test]
fn get_all_orders_by_added_at_descending() {
    let mut db = DownloadDb::new();
    assert!(db.insert(queued("id-1", "p1", "m1", None, None, 10)).is_ok());
    assert!(db.insert(queued("id-2", "p1", "m2", None, None, 30)).is_ok());
    assert!(db.insert(queued("id-3", "p1", "m3", None, None, 20)).is_ok());
    assert!(db.insert(queued("id-4", "p2", "m4", None, None, 40)).is_ok());
    let all = db.get_all("p1");
    let ids: Vec<&str> = all.iter().map(|r| r.id.as_str()).collect();
    assert_eq!(ids, vec!["id-2", "id-3", "id-1"]);
}

#[test]
fn update_progress_sets_downloading_and_clamps() {
    let mut db = DownloadDb::new();
    assert!(db.insert(queued("id-1", "p1", "m1", None, None, 1)).is_ok());
    db.update_progress("id-1", 42, 430);
    let got = db.get_by_id("id-1").unwrap();
    assert_eq!(got.status, DownloadStatus::Downloading);
    assert_eq!(got.progress, 42);
    assert_eq!(got.downloaded_bytes, 430);
    // full progress is reserved for completion
    db.update_progress("id-1", 100, 1024);
    let got = db.get_by_id("id-1").unwrap();
    assert_eq!(got.progress, 99);
}

#[test]
fn update_complete_records_the_artifact() {
    let mut db = DownloadDb::new();
    assert!(db.insert(queued("id-1", "p1", "m1", None, None, 1)).is_ok());
    db.update_progress("id-1", 50, 512);
    db.update_complete("id-1", "/downloads/p1/id-1.mp4", 1024, 777);
    let got = db.get_by_id("id-1").unwrap();
    assert_eq!(got.status, DownloadStatus::Completed);
    assert_eq!(got.progress, 100);
    assert_eq!(got.file_path, "/downloads/p1/id-1.mp4");
    assert_eq!(got.file_size, 1024);
    assert_eq!(got.completed_at, Some(777));
}

#[test]
fn update_error_records_the_reason() {
    let mut db = DownloadDb::new();
    assert!(db.insert(queued("id-1", "p1", "m1", None, None, 1)).is_ok());
    db.update_error("id-1", "connection reset");
    let got = db.get_by_id("id-1").unwrap();
    assert_eq!(got.status, DownloadStatus::Failed);
    assert_eq!(got.error_message.as_deref(), Some("connection reset"));
}

#[test]
fn delete_twice_is_a_no_op() {
    let mut db = DownloadDb::new();
    assert!(db.insert(queued("id-1", "p1", "m1", None, None, 1)).is_ok());
    assert!(db.insert(queued("id-2", "p1", "m2", None, None, 2)).is_ok());
    db.delete("id-1");
    assert!(db.get_by_id("id-1").is_none());
    assert_eq!(db.get_all("p1").len(), 1);
    db.delete("id-1");
    assert!(db.get_by_id("id-1").is_none());
    assert_eq!(db.get_all("p1").len(), 1);
}

#[test]
fn storage_stats_counts_completed_only() {
    let mut db = DownloadDb::new();
    assert!(db.insert(queued("id-1", "p1", "m1", None, None, 1)).is_ok());
    assert!(db.insert(queued("id-2", "p1", "m2", None, None, 2)).is_ok());
    assert!(db.insert(queued("id-3", "p2", "m3", None, None, 3)).is_ok());
    db.update_complete("id-1", "/d/id-1.mp4", 1000, 7);
    db.update_complete("id-3", "/d/id-3.mp4", 500, 8);
    assert_eq!(db.get_storage_stats("p1"), (1000, 1));
    assert_eq!(db.get_storage_stats("p2"), (500, 1));
    assert_eq!(db.get_storage_stats("p3"), (0, 0));
}

#[test]
fn delete_all_for_profile_returns_ids() {
    let mut db = DownloadDb::new();
    assert!(db.insert(queued("id-1", "p1", "m1", None, None, 1)).is_ok());
    assert!(db.insert(queued("id-2", "p2", "m2", None, None, 2)).is_ok());
    assert!(db.insert(queued("id-3", "p1", "m3", None, None, 3)).is_ok());
    let ids = db.delete_all_for_profile("p1");
    assert_eq!(ids, vec!["id-1".to_string(), "id-3".to_string()]);
    assert!(db.get_by_id("id-1").is_none());
    assert!(db.get_by_id("id-2").is_some());
    assert!(db.get_by_id("id-3").is_none());
}

#[test]
fn next_episode_template_for_series() {
    let mut db = DownloadDb::new();
    let mut rec = queued("id-a", "p1", "m1", Some(1), Some(3), 1);
    rec.smart_download = true;
    rec.auto_delete = true;
    assert!(db.insert(rec).is_ok());
    db.update_complete("id-a", "/d/id-a.mp4", 1024, 9);
    let t = db.get_next_episode("id-a").expect("template expected");
    assert_eq!(t.id, "");
    assert_eq!(t.profile_id, "p1");
    assert_eq!(t.media_id, "m1");
    assert_eq!(t.season, Some(1));
    assert_eq!(t.episode, Some(4));
    assert_eq!(t.episode_title.as_deref(), Some("S1:E4"));
    assert_eq!(t.status, DownloadStatus::Queued);
    assert_eq!(t.progress, 0);
    assert_eq!(t.stream_url, "http://host/a.mp4");
    assert!(t.smart_download);
    assert!(t.auto_delete);
    assert_eq!(t.file_path, "");
    assert_eq!(t.file_size, 0);
}

#[test]
fn next_episode_none_for_movie_or_taken() {
    let mut db = DownloadDb::new();
    assert!(db.insert(queued("id-m", "p1", "mov", None, None, 1)).is_ok());
    assert!(db.get_next_episode("id-m").is_none());
    assert!(db.get_next_episode("missing").is_none());

    assert!(db.insert(queued("id-a", "p1", "ser", Some(2), Some(5), 2)).is_ok());
    assert!(db.insert(queued("id-b", "p1", "ser", Some(2), Some(6), 3)).is_ok());
    // episode 6 already exists and is not cancelled
    assert!(db.get_next_episode("id-a").is_none());
    db.update_status("id-b", &DownloadStatus::Cancelled);
    // a cancelled successor no longer blocks chaining
    assert!(db.get_next_episode("id-a").is_some());
}

#[test]
fn quota_and_smart_defaults() {
    let mut db = DownloadDb::new();
    assert_eq!(db.get_quota("p1"), 0);
    assert_eq!(db.get_smart_defaults("p1"), (false, false));
    db.set_quota("p1", 5_000_000_000);
    assert_eq!(db.get_quota("p1"), 5_000_000_000);
    db.set_smart_defaults("p1", true, false);
    assert_eq!(db.get_smart_defaults("p1"), (true, false));
    // the two settings live in one row and do not clobber each other
    assert_eq!(db.get_quota("p1"), 5_000_000_000);
    db.set_quota("p1", 9);
    assert_eq!(db.get_smart_defaults("p1"), (true, false));
    assert_eq!(db.get_quota("p2"), 0);
}

#[test]
fn update_smart_flags_on_record() {
    let mut db = DownloadDb::new();
    assert!(db.insert(queued("id-1", "p1", "m1", Some(1), Some(1), 1)).is_ok());
    db.update_smart_flags("id-1", true, true);
    let got = db.get_by_id("id-1").unwrap();
    assert!(got.smart_download);
    assert!(got.auto_delete);
}

#[test]
fn episode_title_formatting() {
    assert_eq!(zentrio_downloads::record::episode_title_string(1, 4), "S1:E4");
    assert_eq!(zentrio_downloads::record::episode_title_string(12, 101), "S12:E101");
    assert_eq!(zentrio_downloads::record::episode_title_string(-1, 0), "S-1:E0");
}

#[test]
fn storage_stats_saturate_on_huge_sizes() {
    let mut db = DownloadDb::new();
    assert!(db.insert(queued("id-1", "p1", "m1", None, None, 1)).is_ok());
    assert!(db.insert(queued("id-2", "p1", "m2", None, None, 2)).is_ok());
    db.update_complete("id-1", "/d/id-1.mp4", u64::MAX, 7);
    db.update_complete("id-2", "/d/id-2.mp4", u64::MAX, 8);
    assert_eq!(db.get_storage_stats("p1"), (u64::MAX, 2));
}

#[test]
fn next_episode_stops_at_the_numeric_limit() {
    let mut db = DownloadDb::new();
    assert!(db.insert(queued("id-a", "p1", "ser", Some(1), Some(i64::MAX), 1)).is_ok());
    assert!(db.get_next_episode("id-a").is_none());
}

#[test]
fn wf_check_accepts_valid_and_refuses_broken_records() {
    let good = queued("id-1", "p1", "m1", None, None, 1);
    assert!(good.is_wf());
    let mut broken = queued("id-2", "p1", "m2", None, None, 2);
    broken.progress = 100; // full progress without a completed status
    assert!(!broken.is_wf());
    let mut torn = queued("id-3", "p1", "m3", None, None, 3);
    torn.status = DownloadStatus::Failed; // failed without a reason
    assert!(!torn.is_wf());
}
