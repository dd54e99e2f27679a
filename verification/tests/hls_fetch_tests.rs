use zentrio_downloads::fetch;
use zentrio_downloads::fetch::DirectProgress;
use zentrio_downloads::fetch::HlsProgress;
use zentrio_downloads::hls;
use zentrio_downloads::hls::{HlsError, PlaylistStep, VariantInfo};
use zentrio_downloads::status::DownloadQuality;

const MASTER: &[u8] = b"#EXTM3U\n\
#EXT-X-STREAM-INF:BANDWIDTH=12000000\n\
hi.m3u8\n\
#EXT-X-STREAM-INF:BANDWIDTH=5000000\n\
mid.m3u8\n\
#EXT-X-STREAM-INF:BANDWIDTH=800000\n\
lo.m3u8\n";

const MEDIA: &[u8] = b"#EXTM3U\n\
#EXT-X-VERSION:3\n\
#EXT-X-TARGETDURATION:4\n\
#EXTINF:4.0,\n\
seg1.ts\n\
#EXTINF:4.0,\n\
seg2.ts\n\
#EXTINF:4.0,\n\
http://cdn/abs.ts\n\
#EXT-X-ENDLIST\n";

const EMPTY_MEDIA: &[u8] = b"#EXTM3U\n\
#EXT-X-VERSION:3\n\
#EXT-X-TARGETDURATION:4\n\
#EXT-X-ENDLIST\n";

#[test]
fn master_selection_by_preference() {
    let base = "http://host/stream/master.m3u8";
    // Higher: the largest bandwidth not above 8 000 000
    match hls::plan_from_playlist(MASTER, base, DownloadQuality::Higher) {
        Ok(PlaylistStep::FetchMedia(url)) => assert_eq!(url, "http://host/stream/mid.m3u8"),
        other => panic!("expected a media fetch, got {:?}", other),
    }
    // Standard: the smallest bandwidth not below 1 000 000
    match hls::plan_from_playlist(MASTER, base, DownloadQuality::Standard) {
        Ok(PlaylistStep::FetchMedia(url)) => assert_eq!(url, "http://host/stream/mid.m3u8"),
        other => panic!("expected a media fetch, got {:?}", other),
    }
    // Best: the highest bandwidth
    match hls::plan_from_playlist(MASTER, base, DownloadQuality::Best) {
        Ok(PlaylistStep::FetchMedia(url)) => assert_eq!(url, "http://host/stream/hi.m3u8"),
        other => panic!("expected a media fetch, got {:?}", other),
    }
}

#[test]
fn media_playlist_segments_in_order() {
    let base = "http://host/stream/media.m3u8";
    match hls::plan_from_playlist(MEDIA, base, DownloadQuality::Best) {
        Ok(PlaylistStep::Segments(urls)) => {
            assert_eq!(
                urls,
                vec![
                    "http://host/stream/seg1.ts".to_string(),
                    "http://host/stream/seg2.ts".to_string(),
                    "http://cdn/abs.ts".to_string(),
                ]
            );
        },
        other => panic!("expected segments, got {:?}", other),
    }
}

#[test]
fn media_step_refuses_a_nested_master() {
    let r = hls::plan_from_media_playlist(MASTER, "http://host/mid.m3u8");
    assert_eq!(r, Err(HlsError::NestedMaster));
}

#[test]
fn empty_playlist_is_refused() {
    let r = hls::plan_from_media_playlist(EMPTY_MEDIA, "http://host/mid.m3u8");
    assert_eq!(r, Err(HlsError::NoSegments));
}

#[test]
fn garbage_bytes_do_not_parse() {
    let r = hls::plan_from_media_playlist(b"not a playlist at all", "http://host/x.m3u8");
    assert_eq!(r, Err(HlsError::ParseFailed));
    match hls::plan_from_playlist(b"junk", "http://host/x.m3u8", DownloadQuality::Best) {
        Err(HlsError::ParseFailed) => {},
        other => panic!("expected a parse failure, got {:?}", other),
    }
}

#[test]
fn pick_variant_with_no_variants() {
    let variants: Vec<VariantInfo> = Vec::new();
    let r = hls::pick_variant(&variants, "http://host/m.m3u8", DownloadQuality::Best);
    assert_eq!(r, Err(HlsError::NoVariants));
}

#[test]
fn pick_variant_fallbacks() {
    // everything above the Higher cap: fall back to the highest overall
    let variants = vec![
        VariantInfo { bandwidth: 9_000_000, uri: "a.m3u8".to_string() },
        VariantInfo { bandwidth: 12_000_000, uri: "b.m3u8".to_string() },
    ];
    let r = hls::pick_variant(&variants, "http://h/m.m3u8", DownloadQuality::Higher).unwrap();
    assert_eq!(r, "http://h/b.m3u8");
    // everything below the Standard floor: fall back to the highest overall
    let variants = vec![
        VariantInfo { bandwidth: 300_000, uri: "c.m3u8".to_string() },
        VariantInfo { bandwidth: 800_000, uri: "d.m3u8".to_string() },
    ];
    let r = hls::pick_variant(&variants, "http://h/m.m3u8", DownloadQuality::Standard).unwrap();
    assert_eq!(r, "http://h/d.m3u8");
}

#[test]
fn variant_selection_is_deterministic() {
    let variants = vec![
        VariantInfo { bandwidth: 12_000_000, uri: "hi.m3u8".to_string() },
        VariantInfo { bandwidth: 5_000_000, uri: "mid.m3u8".to_string() },
        VariantInfo { bandwidth: 800_000, uri: "lo.m3u8".to_string() },
    ];
    let first = hls::pick_variant(&variants, "http://h/m.m3u8", DownloadQuality::Higher).unwrap();
    for _ in 0..10 {
        let again =
            hls::pick_variant(&variants, "http://h/m.m3u8", DownloadQuality::Higher).unwrap();
        assert_eq!(again, first);
    }
}

#[test]
fn segment_retry_backoff() {
    assert_eq!(hls::segment_retry_delay(0), Some(500));
    assert_eq!(hls::segment_retry_delay(1), Some(1000));
    assert_eq!(hls::segment_retry_delay(2), Some(1500));
    assert_eq!(hls::segment_retry_delay(3), None);
    assert_eq!(hls::segment_retry_delay(200), None);
}

#[test]
fn resume_request_carries_the_offset() {
    assert_eq!(fetch::resume_request(512).as_deref(), Some("bytes=512-"));
    assert_eq!(fetch::resume_request(0), None);
}

#[test]
fn total_size_adds_the_resume_offset() {
    assert_eq!(fetch::total_with_offset(Some(512), 512), Some(1024));
    assert_eq!(fetch::total_with_offset(None, 512), None);
    assert_eq!(fetch::total_with_offset(Some(u64::MAX), 1), None);
}

#[test]
fn direct_progress_emits_once_per_percent() {
    let mut t = DirectProgress::start(0, Some(1024));
    let a = t.on_chunk(&[7u8; 512], 1000, 0);
    let u = a.emit.expect("first reading is emitted");
    assert_eq!(u.percent, 50);
    assert_eq!(u.downloaded_bytes, 512);
    assert_eq!(u.speed_bytes_per_sec, 512);
    // one more byte changes nothing visible
    let b = t.on_chunk(&[7u8; 1], 1001, 0);
    assert!(b.emit.is_none());
    // the run never reports full progress: completion does
    let c = t.on_chunk(&[7u8; 511], 2000, 0);
    let u = c.emit.expect("reading");
    assert_eq!(u.percent, 99);
    assert_eq!(u.downloaded_bytes, 1024);
}

#[test]
fn direct_progress_is_monotone() {
    let mut t = DirectProgress::start(0, Some(10_000));
    let mut last: i32 = -1;
    let mut ms: u64 = 0;
    for _ in 0..40 {
        ms += 100;
        let a = t.on_chunk(&[7u8; 250], ms, 0);
        if let Some(u) = a.emit {
            assert!((u.percent as i32) >= last);
            last = u.percent as i32;
        }
    }
    assert_eq!(last, 99);
}

#[test]
fn direct_progress_resume_counts_from_the_offset() {
    let mut t = DirectProgress::start(512, Some(512));
    let a = t.on_chunk(&[7u8; 512], 1000, 0);
    let u = a.emit.expect("reading");
    assert_eq!(u.downloaded_bytes, 1024);
    assert_eq!(u.percent, 99);
    // the run's own transfer excludes the resumed bytes
    assert_eq!(u.speed_bytes_per_sec, 512);
}

#[test]
fn unknown_total_keeps_progress_at_zero() {
    let mut t = DirectProgress::start(0, None);
    let a = t.on_chunk(&[7u8; 4096], 1000, 0);
    let u = a.emit.expect("the first reading is emitted");
    assert_eq!(u.percent, 0);
    assert_eq!(u.speed_bytes_per_sec, 4096);
    let b = t.on_chunk(&[7u8; 4096], 2000, 0);
    assert!(b.emit.is_none());
}

#[test]
fn notification_policy() {
    let mut t = DirectProgress::start(0, Some(1000));
    // 5% crosses no 10% boundary and 30 s have not passed
    let a = t.on_chunk(&[7u8; 50], 100, 100);
    assert!(a.emit.is_some());
    assert!(!a.notify);
    // 15% crosses the 10% boundary
    let b = t.on_chunk(&[7u8; 100], 200, 200);
    assert!(b.notify);
    // 17%: no boundary, but 30 s since the last notification
    let c = t.on_chunk(&[7u8; 20], 300, 30_000);
    assert!(c.notify);
}

#[test]
fn hls_progress_over_three_segments() {
    let mut t = HlsProgress::start(3);
    let a = t.on_segment(&[1u8; 100], 1000, 0).emit.expect("reading");
    assert_eq!(a.percent, 33);
    assert_eq!(a.downloaded_bytes, 100);
    let b = t.on_segment(&[2u8; 100], 2000, 0).emit.expect("reading");
    assert_eq!(b.percent, 66);
    let c = t.on_segment(&[3u8; 100], 3000, 0).emit.expect("reading");
    assert_eq!(c.percent, 99);
    assert_eq!(c.downloaded_bytes, 300);
    assert_eq!(c.speed_bytes_per_sec, 100);
}

#[test]
fn transfer_speed_is_bytes_per_second() {
    assert_eq!(fetch::transfer_speed(1000, 1000), 1000);
    assert_eq!(fetch::transfer_speed(500, 250), 2000);
    // a zero elapsed time counts as one millisecond
    assert_eq!(fetch::transfer_speed(5, 0), 5000);
}
