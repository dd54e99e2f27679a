use zentrio_downloads::events;
use zentrio_downloads::fetch::ProgressUpdate;
use zentrio_downloads::paths;
use zentrio_downloads::status::DownloadStatus;

#[test]
fn path_layout() {
    assert_eq!(paths::downloads_dir("/data/zentrio", "p1"), "/data/zentrio/downloads/p1");
    assert_eq!(paths::db_path("/data/zentrio"), "/data/zentrio/downloads.db");
    assert_eq!(
        paths::download_file_path("/data/zentrio", "p1", "job-7"),
        "/data/zentrio/downloads/p1/job-7.mp4"
    );
    assert_eq!(
        paths::part_file_path("/data/zentrio", "p1", "job-7"),
        "/data/zentrio/downloads/p1/job-7.zentrio-part"
    );
}

#[test]
fn directory_override_is_trimmed() {
    assert_eq!(paths::custom_dir_override("  /mnt/media \n").as_deref(), Some("/mnt/media"));
    assert_eq!(paths::custom_dir_override("/mnt/media").as_deref(), Some("/mnt/media"));
    assert_eq!(paths::custom_dir_override("   \n\t"), None);
    assert_eq!(paths::custom_dir_override(""), None);
}

#[test]
fn progress_payload_carries_the_reading() {
    let u = ProgressUpdate { percent: 42, downloaded_bytes: 430, speed_bytes_per_sec: 100 };
    let p = events::progress_payload("job-1", &u);
    assert_eq!(p.id, "job-1");
    assert_eq!(p.progress, 42);
    assert_eq!(p.downloaded_bytes, 430);
    assert_eq!(p.speed, 100);
}

#[test]
fn status_payload_carries_the_transition() {
    let p = events::status_payload(
        "job-1",
        DownloadStatus::Completed,
        Some("/d/p1/job-1.mp4".to_string()),
        None,
    );
    assert_eq!(p.id, "job-1");
    assert_eq!(p.status, "completed");
    assert_eq!(p.file_path.as_deref(), Some("/d/p1/job-1.mp4"));
    assert!(p.error.is_none());
    let q = events::status_payload(
        "job-2",
        DownloadStatus::Failed,
        None,
        Some("connection reset".to_string()),
    );
    assert_eq!(q.status, "failed");
    assert_eq!(q.error.as_deref(), Some("connection reset"));
}
