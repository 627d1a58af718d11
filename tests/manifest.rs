use hls_mirror::error::MirrorError;
use hls_mirror::manifest::{parse_manifest, select_count, FetchLength, Manifest, Segment};

fn segments(durations: &[u128]) -> Vec<Segment> {
    durations
        .iter()
        .enumerate()
        .map(|(i, d)| Segment { uri: format!("seg{}.ts", i), duration: Some(*d) })
        .collect()
}

const MEDIA: &str = "#EXTM3U\n#EXT-X-VERSION:3\n#EXT-X-TARGETDURATION:4\n#EXT-X-MEDIA-SEQUENCE:0\n#EXTINF:4.0,\nseg0.ts\n#EXTINF:4.0,\nseg1.ts\n#EXTINF:2.5,\nsub/seg2.ts\n#EXT-X-ENDLIST\n";

const MASTER: &str = "#EXTM3U\n#EXT-X-STREAM-INF:BANDWIDTH=1280000,RESOLUTION=640x360\ngear1/playlist.m3u8\n#EXT-X-STREAM-INF:BANDWIDTH=2560000,RESOLUTION=1280x720\ngear2/playlist.m3u8\n";

#[test]
fn duration_threshold_nine_takes_three_segments() {
    let segs = segments(&[4_000_000, 4_000_000, 4_000_000]);
    assert_eq!(select_count(&segs, &FetchLength::Duration(9_000_000)), 3);
}

#[test]
fn duration_threshold_seven_takes_two_segments() {
    let segs = segments(&[4_000_000, 4_000_000, 4_000_000]);
    assert_eq!(select_count(&segs, &FetchLength::Duration(7_000_000)), 2);
}

#[test]
fn duration_threshold_reached_exactly_includes_that_segment() {
    let segs = segments(&[4_000_000, 4_000_000, 4_000_000]);
    assert_eq!(select_count(&segs, &FetchLength::Duration(8_000_000)), 2);
    assert_eq!(select_count(&segs, &FetchLength::Duration(0)), 1);
}

#[test]
fn duration_threshold_never_reached_takes_all() {
    let segs = segments(&[4_000_000, 4_000_000, 4_000_000]);
    assert_eq!(select_count(&segs, &FetchLength::Duration(100_000_000)), 3);
    assert_eq!(select_count(&Vec::new(), &FetchLength::Duration(1)), 0);
}

#[test]
fn duration_total_that_overflows_reaches_any_threshold() {
    let segs = segments(&[u128::MAX, u128::MAX, 1]);
    assert_eq!(select_count(&segs, &FetchLength::Duration(u128::MAX)), 1);
    let segs = segments(&[u128::MAX - 1, 5, 1]);
    assert_eq!(select_count(&segs, &FetchLength::Duration(u128::MAX)), 2);
}

#[test]
fn missing_duration_counts_as_nothing() {
    let mut segs = segments(&[4_000_000, 4_000_000, 4_000_000]);
    segs[1].duration = None;
    assert_eq!(select_count(&segs, &FetchLength::Duration(7_000_000)), 3);
}

#[test]
fn count_takes_at_most_that_many() {
    let segs = segments(&[1, 1, 1, 1]);
    assert_eq!(select_count(&segs, &FetchLength::Count(2)), 2);
    assert_eq!(select_count(&segs, &FetchLength::Count(10)), 4);
    assert_eq!(select_count(&segs, &FetchLength::Count(0)), 0);
    assert_eq!(select_count(&segs, &FetchLength::Count(usize::MAX)), 4);
}

#[test]
fn all_takes_every_segment() {
    let segs = segments(&[1, 1, 1]);
    assert_eq!(select_count(&segs, &FetchLength::All), 3);
}

#[test]
fn fetch_length_from_configuration() {
    assert_eq!(FetchLength::from_options(Some(9), None), Some(FetchLength::Duration(9)));
    assert_eq!(FetchLength::from_options(None, Some(3)), Some(FetchLength::Count(3)));
    assert_eq!(FetchLength::from_options(None, None), Some(FetchLength::All));
    assert_eq!(FetchLength::from_options(Some(9), Some(3)), None);
}

#[test]
fn media_manifest_is_read_in_order_with_durations() {
    match parse_manifest(MEDIA.as_bytes()).unwrap() {
        Manifest::Media(segs) => {
            let uris: Vec<&str> = segs.iter().map(|s| s.uri.as_str()).collect();
            assert_eq!(uris, vec!["seg0.ts", "seg1.ts", "sub/seg2.ts"]);
            let durations: Vec<Option<u128>> = segs.iter().map(|s| s.duration).collect();
            assert_eq!(durations, vec![Some(4_000_000), Some(4_000_000), Some(2_500_000)]);
        }
        Manifest::Master(_) => panic!("expected a media manifest"),
    }
}

#[test]
fn master_manifest_is_read_in_order() {
    match parse_manifest(MASTER.as_bytes()).unwrap() {
        Manifest::Master(variants) => {
            assert_eq!(variants, vec!["gear1/playlist.m3u8".to_string(), "gear2/playlist.m3u8".to_string()]);
        }
        Manifest::Media(_) => panic!("expected a master manifest"),
    }
}

#[test]
fn bytes_that_are_no_manifest_fail_to_parse() {
    assert_eq!(parse_manifest(b"<html>not found</html>").err(), Some(MirrorError::ParseFailure));
    assert_eq!(parse_manifest(b"").err(), Some(MirrorError::ParseFailure));
}
