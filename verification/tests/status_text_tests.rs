use zentrio_downloads::status::{DownloadQuality, DownloadStatus};
use zentrio_downloads::text;

#[test]
fn status_as_str_values() {
    assert_eq!(DownloadStatus::Queued.as_str(), "queued");
    assert_eq!(DownloadStatus::Downloading.as_str(), "downloading");
    assert_eq!(DownloadStatus::Paused.as_str(), "paused");
    assert_eq!(DownloadStatus::Completed.as_str(), "completed");
    assert_eq!(DownloadStatus::Failed.as_str(), "failed");
    assert_eq!(DownloadStatus::Cancelled.as_str(), "cancelled");
}

#[test]
fn status_from_str_values() {
    assert_eq!(DownloadStatus::from_str("queued"), DownloadStatus::Queued);
    assert_eq!(DownloadStatus::from_str("downloading"), DownloadStatus::Downloading);
    assert_eq!(DownloadStatus::from_str("paused"), DownloadStatus::Paused);
    assert_eq!(DownloadStatus::from_str("completed"), DownloadStatus::Completed);
    assert_eq!(DownloadStatus::from_str("failed"), DownloadStatus::Failed);
    assert_eq!(DownloadStatus::from_str("cancelled"), DownloadStatus::Cancelled);
    // anything unrecognised reads as cancelled
    assert_eq!(DownloadStatus::from_str("bogus"), DownloadStatus::Cancelled);
}

#[test]
fn status_round_trip() {
    for s in [
        DownloadStatus::Queued,
        DownloadStatus::Downloading,
        DownloadStatus::Paused,
        DownloadStatus::Completed,
        DownloadStatus::Failed,
        DownloadStatus::Cancelled,
    ] {
        assert_eq!(DownloadStatus::from_str(s.as_str()), s);
    }
}

#[test]
fn quality_round_trip() {
    for q in [DownloadQuality::Standard, DownloadQuality::Higher, DownloadQuality::Best] {
        assert_eq!(DownloadQuality::from_str(q.as_str()), q);
    }
    assert_eq!(DownloadQuality::from_str("weird"), DownloadQuality::Standard);
}

#[test]
fn decimal_formatting() {
    assert_eq!(text::u64_to_string(0), "0");
    assert_eq!(text::u64_to_string(7), "7");
    assert_eq!(text::u64_to_string(1024), "1024");
    assert_eq!(text::u64_to_string(u64::MAX), "18446744073709551615");
    assert_eq!(text::i64_to_string(-45), "-45");
    assert_eq!(text::i64_to_string(i64::MIN), "-9223372036854775808");
    assert_eq!(text::i64_to_string(3), "3");
}

#[test]
fn decimal_parsing() {
    assert_eq!(text::parse_u64_dec(b"1024"), Some(1024));
    assert_eq!(text::parse_u64_dec(b"0"), Some(0));
    assert_eq!(text::parse_u64_dec(b""), None);
    assert_eq!(text::parse_u64_dec(b"12a"), None);
    assert_eq!(text::parse_u64_dec(b"-4"), None);
    assert_eq!(text::parse_u64_dec(b"18446744073709551615"), Some(u64::MAX));
    assert_eq!(text::parse_u64_dec(b"18446744073709551616"), None);
    assert_eq!(text::parse_u64_dec(b"99999999999999999999999999"), None);
}

#[test]
fn range_header_for_resume() {
    assert_eq!(text::range_header_value(512), "bytes=512-");
    assert_eq!(text::range_header_value(1), "bytes=1-");
}

#[test]
fn hls_url_routing() {
    assert!(text::url_is_hls("http://host/stream.m3u8"));
    assert!(text::url_is_hls("http://host/stream.M3U8?x=1"));
    assert!(text::url_is_hls("http://host/m3u8/extensionless"));
    assert!(!text::url_is_hls("http://host/a.mp4"));
    assert!(!text::url_is_hls("m3u"));
    assert!(!text::url_is_hls(""));
}

#[test]
fn uri_resolution() {
    assert_eq!(
        text::resolve_uri("http://host/path/master.m3u8", "mid.m3u8"),
        "http://host/path/mid.m3u8"
    );
    assert_eq!(
        text::resolve_uri("http://host/path/master.m3u8", "http://cdn/abs.ts"),
        "http://cdn/abs.ts"
    );
    assert_eq!(text::resolve_uri("noslash", "seg.ts"), "noslashseg.ts");
}

#[test]
fn string_equality() {
    assert!(text::str_eq("abc", "abc"));
    assert!(!text::str_eq("abc", "abd"));
    assert!(!text::str_eq("abc", "ab"));
    assert!(text::str_eq("", ""));
}
