use hls_mirror::error::MirrorError;
use hls_mirror::location::{get_base_url, AssetUrl, RelativePath};
use hls_mirror::manifest::{parse_manifest, FetchLength, Manifest, Segment};
use hls_mirror::mirror::{check_status, first_failure, pending_jobs, plan_media, plan_root, RootPlan, SegmentJob};

fn url(text: &str) -> AssetUrl {
    AssetUrl::parse(text).unwrap()
}

const MASTER: &str = "#EXTM3U\n#EXT-X-STREAM-INF:BANDWIDTH=1280000\ngear1/playlist.m3u8\n";

const MEDIA: &str = "#EXTM3U\n#EXT-X-TARGETDURATION:4\n#EXTINF:4.0,\nseg0.ts\n#EXTINF:4.0,\nseg1.ts\n#EXTINF:4.0,\nseg2.ts\n#EXT-X-ENDLIST\n";

fn media(uris: &[&str]) -> Manifest {
    Manifest::Media(uris.iter().map(|u| Segment { uri: u.to_string(), duration: Some(4_000_000) }).collect())
}

fn job(href: &str, path: &[&str]) -> SegmentJob {
    SegmentJob { url: url(href), path: RelativePath { segments: path.iter().map(|s| s.to_string()).collect() } }
}

fn hrefs(jobs: &[SegmentJob]) -> Vec<String> {
    jobs.iter().map(|j| j.url.as_str().to_string()).collect()
}

#[test]
fn master_root_scenario_maps_a_segment_under_the_variant_directory() {
    let root = url("https://host/a/master.m3u8");
    let master = parse_manifest(MASTER.as_bytes()).unwrap();
    let (file, base, variants) = match plan_root(&root, &master).unwrap() {
        RootPlan::Master { file, base, variants } => (file, base, variants),
        RootPlan::Media { .. } => panic!("expected a master plan"),
    };
    assert_eq!(file.to_path_string(), "master.m3u8");
    assert_eq!(base.as_str(), "https://host/a/");
    assert_eq!(variants, vec!["gear1/playlist.m3u8".to_string()]);

    let variant = base.resolve(&variants[0]).unwrap();
    assert_eq!(variant.as_str(), "https://host/a/gear1/playlist.m3u8");
    assert_eq!(get_base_url(&variant).unwrap().as_str(), "https://host/a/gear1/");

    let manifest = media(&["seg0.ts"]);
    let plan = plan_media(&base, &variant, &manifest, &FetchLength::All).unwrap();
    assert_eq!(plan.manifest_path.to_path_string(), "gear1/playlist.m3u8");
    assert_eq!(plan.jobs.len(), 1);
    assert_eq!(plan.jobs[0].url.as_str(), "https://host/a/gear1/seg0.ts");
    assert_eq!(plan.jobs[0].path.to_path_string(), "gear1/seg0.ts");
}

#[test]
fn master_root_ending_in_slash_fails_before_any_fetch_is_planned() {
    let root = url("https://host/a/");
    let master = parse_manifest(MASTER.as_bytes()).unwrap();
    assert_eq!(plan_root(&root, &master).err(), Some(MirrorError::FilenameUnresolvable));
}

#[test]
fn media_root_is_mirrored_against_its_own_directory() {
    let root = url("https://host/live/index.m3u8");
    let manifest = parse_manifest(MEDIA.as_bytes()).unwrap();
    let base = match plan_root(&root, &manifest).unwrap() {
        RootPlan::Media { base } => base,
        RootPlan::Master { .. } => panic!("expected a media plan"),
    };
    assert_eq!(base.as_str(), "https://host/live/");
    let plan = plan_media(&base, &root, &manifest, &FetchLength::Count(2)).unwrap();
    assert_eq!(plan.manifest_path.to_path_string(), "index.m3u8");
    assert_eq!(hrefs(&plan.jobs), vec!["https://host/live/seg0.ts", "https://host/live/seg1.ts"]);
    assert_eq!(plan.jobs[1].path.to_path_string(), "seg1.ts");
}

#[test]
fn media_root_ending_in_slash_needs_no_file_name() {
    let root = url("https://host/live/");
    let manifest = parse_manifest(MEDIA.as_bytes()).unwrap();
    assert!(matches!(plan_root(&root, &manifest), Ok(RootPlan::Media { .. })));
}

#[test]
fn media_plan_keeps_manifest_order_and_applies_the_fetch_length() {
    let outer = url("https://host/a/");
    let at = url("https://host/a/v/prog.m3u8");
    let manifest = media(&["s0.ts", "s1.ts", "s2.ts", "s3.ts"]);
    let plan = plan_media(&outer, &at, &manifest, &FetchLength::Duration(7_000_000)).unwrap();
    assert_eq!(hrefs(&plan.jobs), vec!["https://host/a/v/s0.ts", "https://host/a/v/s1.ts"]);
    let paths: Vec<String> = plan.jobs.iter().map(|j| j.path.to_path_string()).collect();
    assert_eq!(paths, vec!["v/s0.ts", "v/s1.ts"]);
    let all = plan_media(&outer, &at, &manifest, &FetchLength::All).unwrap();
    assert_eq!(all.jobs.len(), 4);
    assert_eq!(all.jobs[3].url.as_str(), "https://host/a/v/s3.ts");
}

#[test]
fn media_plan_resolves_segments_against_the_media_manifest_location() {
    let outer = url("https://host/a/");
    let at = url("https://host/a/deep/er/prog.m3u8");
    let manifest = media(&["../x.ts"]);
    let plan = plan_media(&outer, &at, &manifest, &FetchLength::All).unwrap();
    assert_eq!(plan.jobs[0].url.as_str(), "https://host/a/deep/x.ts");
    assert_eq!(plan.jobs[0].path.to_path_string(), "deep/x.ts");
}

#[test]
fn media_plan_rejects_a_master_manifest() {
    let outer = url("https://host/a/");
    let at = url("https://host/a/v/prog.m3u8");
    let master = parse_manifest(MASTER.as_bytes()).unwrap();
    assert_eq!(plan_media(&outer, &at, &master, &FetchLength::All).err(), Some(MirrorError::ParseFailure));
}

#[test]
fn media_plan_fails_on_a_manifest_of_another_host() {
    let outer = url("https://host/a/");
    let at = url("https://elsewhere/a/v/prog.m3u8");
    let manifest = media(&["s0.ts"]);
    assert_eq!(plan_media(&outer, &at, &manifest, &FetchLength::All).err(), Some(MirrorError::HostMismatch));
}

#[test]
fn media_plan_fails_on_a_segment_of_another_host() {
    let outer = url("https://host/a/");
    let at = url("https://host/a/v/prog.m3u8");
    let manifest = media(&["s0.ts", "https://cdn.example/s1.ts", "s2.ts"]);
    assert_eq!(plan_media(&outer, &at, &manifest, &FetchLength::All).err(), Some(MirrorError::HostMismatch));
    assert_eq!(plan_media(&outer, &at, &manifest, &FetchLength::Count(1)).unwrap().jobs.len(), 1);
}

#[test]
fn media_plan_fails_on_a_segment_that_cannot_be_resolved() {
    let outer = url("https://host/a/");
    let at = url("https://host/a/v/prog.m3u8");
    let manifest = media(&["s0.ts", "http://[bad/s1.ts"]);
    assert_eq!(plan_media(&outer, &at, &manifest, &FetchLength::All).err(), Some(MirrorError::InvalidUrl));
}

#[test]
fn second_run_with_every_target_present_fetches_nothing() {
    let jobs = vec![job("https://h/a/s0.ts", &["s0.ts"]), job("https://h/a/s1.ts", &["s1.ts"])];
    assert!(pending_jobs(&jobs, &vec![true, true]).is_empty());
}

#[test]
fn pending_jobs_skip_present_targets_and_keep_order() {
    let jobs = vec![
        job("https://h/a/s0.ts", &["s0.ts"]),
        job("https://h/a/s1.ts", &["s1.ts"]),
        job("https://h/a/s2.ts", &["s2.ts"]),
    ];
    let left = pending_jobs(&jobs, &vec![false, true, false]);
    assert_eq!(hrefs(&left), vec!["https://h/a/s0.ts", "https://h/a/s2.ts"]);
    assert_eq!(left[1].path.to_path_string(), "s2.ts");
    assert_eq!(pending_jobs(&jobs, &vec![false, false, false]).len(), 3);
}

#[test]
fn first_failure_reports_the_earliest_in_order() {
    let results = vec![Ok(()), Err(MirrorError::Http(404)), Err(MirrorError::Transport)];
    assert_eq!(first_failure(&results), Err(MirrorError::Http(404)));
    assert_eq!(first_failure(&vec![Ok(()), Ok(())]), Ok(()));
    assert_eq!(first_failure(&Vec::new()), Ok(()));
    assert_eq!(first_failure(&vec![Err(MirrorError::IoFailure), Ok(())]), Err(MirrorError::IoFailure));
}

#[test]
fn status_outside_2xx_is_an_http_failure() {
    assert_eq!(check_status(200), Ok(()));
    assert_eq!(check_status(204), Ok(()));
    assert_eq!(check_status(299), Ok(()));
    assert_eq!(check_status(199), Err(MirrorError::Http(199)));
    assert_eq!(check_status(300), Err(MirrorError::Http(300)));
    assert_eq!(check_status(404), Err(MirrorError::Http(404)));
    assert_eq!(check_status(503), Err(MirrorError::Http(503)));
}
