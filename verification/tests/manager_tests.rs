use zentrio_downloads::manager::{DownloadManager, ManagerError};
use zentrio_downloads::record::StartDownloadPayload;
use zentrio_downloads::status::DownloadStatus;
use zentrio_downloads::store::DownloadDb;

fn payload(profile: &str, media: &str, url: &str, quality: &str) -> StartDownloadPayload {
    StartDownloadPayload {
        profile_id: profile.to_string(),
        media_type: "movie".to_string(),
        media_id: media.to_string(),
        episode_id: None,
        title: "Movie".to_string(),
        episode_title: None,
        season: None,
        episode: None,
        poster_path: String::new(),
        stream_url: url.to_string(),
        addon_id: "addon".to_string(),
        quality: quality.to_string(),
        smart_download: None,
        auto_delete: None,
    }
}

fn series_payload(profile: &str, media: &str, season: i64, episode: i64, smart: Option<bool>, auto: Option<bool>) -> StartDownloadPayload {
    StartDownloadPayload {
        profile_id: profile.to_string(),
        media_type: "series".to_string(),
        media_id: media.to_string(),
        episode_id: Some("ep".to_string()),
        title: "Show".to_string(),
        episode_title: Some("Pilot".to_string()),
        season: Some(season),
        episode: Some(episode),
        poster_path: String::new(),
        stream_url: "http://host/show.mp4".to_string(),
        addon_id: "addon".to_string(),
        quality: "best".to_string(),
        smart_download: smart,
        auto_delete: auto,
    }
}

#[test]
fn enqueue_persists_a_queued_record() {
    let mut m = DownloadManager::new(DownloadDb::new());
    let id = m.enqueue(payload("p1", "m1", "http://host/a.mp4", "best"), 100).expect("enqueue");
    assert_eq!(id.len(), 36);
    let rec = m.get_record(&id).expect("record");
    assert_eq!(rec.status, DownloadStatus::Queued);
    assert_eq!(rec.progress, 0);
    assert_eq!(rec.file_path, "");
    assert_eq!(rec.file_size, 0);
    assert_eq!(rec.added_at, 100);
    assert!(!rec.smart_download);
}

#[test]
fn enqueue_takes_profile_defaults_for_smart_flags() {
    let mut m = DownloadManager::new(DownloadDb::new());
    m.set_smart_defaults("p1", true, true);
    let id = m.enqueue(series_payload("p1", "m1", 1, 1, None, None), 1).expect("enqueue");
    let rec = m.get_record(&id).unwrap();
    assert!(rec.smart_download);
    assert!(rec.auto_delete);
    // an explicit override wins over the default
    let id2 = m.enqueue(series_payload("p1", "m1", 1, 2, Some(false), None), 2).expect("enqueue");
    let rec2 = m.get_record(&id2).unwrap();
    assert!(!rec2.smart_download);
    assert!(rec2.auto_delete);
}

#[test]
fn cap_enforcement_runs_two_at_a_time_in_fifo_order() {
    let mut m = DownloadManager::new(DownloadDb::new());
    let mut ids = Vec::new();
    for k in 0..5 {
        let media = format!("m{}", k);
        let id = m
            .enqueue(payload("p1", &media, "http://host/a.mp4", "best"), k as i64)
            .expect("enqueue");
        ids.push(id);
    }
    // exactly two may start
    let a = m.try_start_next().expect("first starts");
    let b = m.try_start_next().expect("second starts");
    assert_eq!(a.id, ids[0]);
    assert_eq!(b.id, ids[1]);
    assert!(m.try_start_next().is_none());
    // as one finishes, the next dequeues in order
    m.finish(&a.id);
    let c = m.try_start_next().expect("third starts");
    assert_eq!(c.id, ids[2]);
    assert!(m.try_start_next().is_none());
    // drain the rest
    m.finish(&b.id);
    let d = m.try_start_next().expect("fourth starts");
    assert_eq!(d.id, ids[3]);
    m.finish(&c.id);
    let e = m.try_start_next().expect("fifth starts");
    assert_eq!(e.id, ids[4]);
    m.finish(&d.id);
    m.finish(&e.id);
    assert!(m.try_start_next().is_none());
}

#[test]
fn full_lifecycle_to_completed() {
    let mut m = DownloadManager::new(DownloadDb::new());
    let id = m.enqueue(payload("p1", "m1", "http://host/a.mp4", "best"), 1).expect("enqueue");
    let item = m.try_start_next().expect("starts");
    assert_eq!(item.id, id);
    assert!(m.record_progress(&id, 50, 512));
    let rec = m.get_record(&id).unwrap();
    assert_eq!(rec.status, DownloadStatus::Downloading);
    assert_eq!(rec.progress, 50);
    assert!(m.record_completion(&id, "/d/p1/file.mp4", 1024, 99));
    m.finish(&id);
    let rec = m.get_record(&id).unwrap();
    assert_eq!(rec.status, DownloadStatus::Completed);
    assert_eq!(rec.progress, 100);
    assert_eq!(rec.file_size, 1024);
    assert_eq!(rec.file_path, "/d/p1/file.mp4");
    // a late reading for a terminal job is dropped
    assert!(!m.record_progress(&id, 10, 10));
    let rec = m.get_record(&id).unwrap();
    assert_eq!(rec.progress, 100);
}

#[test]
fn pause_and_resume_requeue_at_the_front() {
    let mut m = DownloadManager::new(DownloadDb::new());
    let id1 = m.enqueue(payload("p1", "m1", "http://host/a.mp4", "best"), 1).expect("enqueue");
    let id2 = m.enqueue(payload("p1", "m2", "http://host/b.mp4", "best"), 2).expect("enqueue");
    let id3 = m.enqueue(payload("p1", "m3", "http://host/c.mp4", "best"), 3).expect("enqueue");
    let started = m.try_start_next().expect("starts");
    assert_eq!(started.id, id1);
    assert!(m.record_progress(&id1, 50, 512));
    let ev = m.pause(&id1).expect("pause").expect("event");
    assert_eq!(ev.status, "paused");
    assert_eq!(ev.id, id1);
    assert!(m.is_paused(&id1));
    assert_eq!(m.get_record(&id1).unwrap().status, DownloadStatus::Paused);
    // the worker notices and exits
    m.finish(&id1);
    m.resume(&id1).expect("resume");
    assert!(!m.is_paused(&id1));
    assert_eq!(m.get_record(&id1).unwrap().status, DownloadStatus::Queued);
    // the resumed job re-enters at the front, before id2 and id3
    let next = m.try_start_next().expect("starts");
    assert_eq!(next.id, id1);
    let after = m.try_start_next().expect("starts");
    assert_eq!(after.id, id2);
    let _ = id3;
}

#[test]
fn pause_unknown_or_terminal() {
    let mut m = DownloadManager::new(DownloadDb::new());
    assert!(matches!(m.pause("nope"), Err(ManagerError::NotFound)));
    let id = m.enqueue(payload("p1", "m1", "http://host/a.mp4", "best"), 1).expect("enqueue");
    assert!(m.record_completion(&id, "/d/f.mp4", 10, 5));
    // a terminal job is left alone
    assert!(m.pause(&id).expect("ok").is_none());
    assert_eq!(m.get_record(&id).unwrap().status, DownloadStatus::Completed);
}

#[test]
fn cancel_drops_the_queue_entry() {
    let mut m = DownloadManager::new(DownloadDb::new());
    let id1 = m.enqueue(payload("p1", "m1", "http://host/a.mp4", "best"), 1).expect("enqueue");
    let id2 = m.enqueue(payload("p1", "m2", "http://host/b.mp4", "best"), 2).expect("enqueue");
    let ev = m.cancel(&id1).expect("cancel").expect("event");
    assert_eq!(ev.status, "cancelled");
    assert_eq!(m.get_record(&id1).unwrap().status, DownloadStatus::Cancelled);
    // the cancelled job no longer starts; the next one does
    let started = m.try_start_next().expect("starts");
    assert_eq!(started.id, id2);
    assert!(m.try_start_next().is_none());
}

#[test]
fn delete_is_idempotent_and_scrubs_state() {
    let mut m = DownloadManager::new(DownloadDb::new());
    let id = m.enqueue(payload("p1", "m1", "http://host/a.mp4", "best"), 1).expect("enqueue");
    let profile = m.delete(&id);
    assert_eq!(profile.as_deref(), Some("p1"));
    assert!(m.get_record(&id).is_none());
    assert!(m.try_start_next().is_none());
    // the second delete is a no-op
    let again = m.delete(&id);
    assert!(again.is_none());
    assert!(m.get_record(&id).is_none());
}

#[test]
fn record_failure_marks_the_job_failed() {
    let mut m = DownloadManager::new(DownloadDb::new());
    let id = m.enqueue(payload("p1", "m1", "http://host/a.mp4", "best"), 1).expect("enqueue");
    let _ = m.try_start_next().expect("starts");
    assert!(m.record_failure(&id, "Segment fetch failed: connection reset"));
    m.finish(&id);
    let rec = m.get_record(&id).unwrap();
    assert_eq!(rec.status, DownloadStatus::Failed);
    assert_eq!(rec.error_message.as_deref(), Some("Segment fetch failed: connection reset"));
}

#[test]
fn smart_chaining_enqueues_the_next_episode() {
    let mut m = DownloadManager::new(DownloadDb::new());
    let id_a = m
        .enqueue(series_payload("p1", "m1", 1, 3, Some(true), Some(false)), 1)
        .expect("enqueue");
    let item = m.try_start_next().expect("starts");
    assert_eq!(item.id, id_a);
    assert!(m.record_completion(&id_a, "/d/a.mp4", 1024, 50));
    m.finish(&id_a);
    let outcome = m.handle_completion(&id_a, 60);
    let id_b = outcome.chained.expect("successor enqueued");
    assert!(outcome.deleted_predecessor.is_none());
    let b = m.get_record(&id_b).expect("successor record");
    assert_eq!(b.season, Some(1));
    assert_eq!(b.episode, Some(4));
    assert_eq!(b.episode_title.as_deref(), Some("S1:E4"));
    assert!(b.smart_download);
    assert_eq!(b.stream_url, "http://host/show.mp4");
    assert_eq!(b.status, DownloadStatus::Queued);
    assert_eq!(b.added_at, 60);
    // the predecessor survives without auto-delete
    assert!(m.get_record(&id_a).is_some());
    // and the successor starts through the ordinary queue
    let next = m.try_start_next().expect("starts");
    assert_eq!(next.id, id_b);
}

#[test]
fn smart_chaining_with_auto_delete_removes_the_predecessor() {
    let mut m = DownloadManager::new(DownloadDb::new());
    let id_a = m
        .enqueue(series_payload("p1", "m1", 1, 3, Some(true), Some(true)), 1)
        .expect("enqueue");
    let _ = m.try_start_next().expect("starts");
    assert!(m.record_completion(&id_a, "/d/a.mp4", 1024, 50));
    m.finish(&id_a);
    let outcome = m.handle_completion(&id_a, 60);
    assert!(outcome.chained.is_some());
    assert_eq!(outcome.deleted_predecessor.as_deref(), Some("p1"));
    assert!(m.get_record(&id_a).is_none());
}

#[test]
fn smart_chaining_skips_when_next_episode_exists() {
    let mut m = DownloadManager::new(DownloadDb::new());
    let id_a = m
        .enqueue(series_payload("p1", "m1", 1, 3, Some(true), None), 1)
        .expect("enqueue");
    let _ = m
        .enqueue(series_payload("p1", "m1", 1, 4, Some(false), None), 2)
        .expect("enqueue");
    assert!(m.record_completion(&id_a, "/d/a.mp4", 1024, 50));
    let outcome = m.handle_completion(&id_a, 60);
    assert!(outcome.chained.is_none());
    assert!(outcome.deleted_predecessor.is_none());
}

#[test]
fn smart_chaining_skips_without_the_flag() {
    let mut m = DownloadManager::new(DownloadDb::new());
    let id_a = m
        .enqueue(series_payload("p1", "m1", 1, 3, Some(false), None), 1)
        .expect("enqueue");
    assert!(m.record_completion(&id_a, "/d/a.mp4", 1024, 50));
    let outcome = m.handle_completion(&id_a, 60);
    assert!(outcome.chained.is_none());
}

#[test]
fn manager_purges_a_profile() {
    let mut m = DownloadManager::new(DownloadDb::new());
    let id1 = m.enqueue(payload("p1", "m1", "http://host/a.mp4", "best"), 1).expect("enqueue");
    let id2 = m.enqueue(payload("p2", "m2", "http://host/b.mp4", "best"), 2).expect("enqueue");
    let ids = m.delete_all_for_profile("p1");
    assert_eq!(ids, vec![id1.clone()]);
    assert!(m.get_record(&id1).is_none());
    assert!(m.get_record(&id2).is_some());
    // only the other profile's job remains startable
    let started = m.try_start_next().expect("starts");
    assert_eq!(started.id, id2);
}

#[test]
fn manager_quota_and_stats_proxies() {
    let mut m = DownloadManager::new(DownloadDb::new());
    m.set_quota("p1", 123);
    assert_eq!(m.get_quota("p1"), 123);
    assert_eq!(m.get_quota("p2"), 0);
    let id = m.enqueue(payload("p1", "m1", "http://host/a.mp4", "best"), 1).expect("enqueue");
    assert!(m.record_completion(&id, "/d/a.mp4", 2048, 9));
    assert_eq!(m.get_storage_stats("p1"), (2048, 1));
    assert_eq!(m.get_storage_stats("p2"), (0, 0));
    let list = m.get_downloads("p1");
    assert_eq!(list.len(), 1);
    assert_eq!(list[0].id, id);
}

#[test]
fn enqueue_refuses_a_duplicate_episode() {
    let mut m = DownloadManager::new(DownloadDb::new());
    assert!(m.enqueue(series_payload("p1", "m1", 1, 3, None, None), 1).is_ok());
    let r = m.enqueue(series_payload("p1", "m1", 1, 3, None, None), 2);
    assert!(matches!(r, Err(ManagerError::Store(_))));
}

#[test]
fn smart_chaining_skips_unless_completed() {
    let mut m = DownloadManager::new(DownloadDb::new());
    let id = m
        .enqueue(series_payload("p1", "m1", 1, 3, Some(true), Some(true)), 1)
        .expect("enqueue");
    let _ = m.try_start_next().expect("starts");
    assert!(m.record_progress(&id, 40, 400));
    // the fetch is paused mid-flight and exits without completing
    let _ = m.pause(&id).expect("pause");
    m.finish(&id);
    // chaining hangs on the success transition alone: a paused job chains
    // nothing and loses nothing
    let outcome = m.handle_completion(&id, 60);
    assert!(outcome.chained.is_none());
    assert!(outcome.deleted_predecessor.is_none());
    assert!(m.get_record(&id).is_some());
}

#[test]
fn first_enqueue_always_succeeds() {
    // on an empty store no drawn id can collide and no episode key is taken
    let mut m = DownloadManager::new(DownloadDb::new());
    let r = m.enqueue(series_payload("p1", "m1", 1, 1, None, None), 1);
    assert!(r.is_ok());
}
