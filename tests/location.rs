use hls_mirror::error::MirrorError;
use hls_mirror::location::{get_base_url, get_filename_from_url, get_relative_path, AssetUrl, RelativePath};

fn url(text: &str) -> AssetUrl {
    AssetUrl::parse(text).unwrap()
}

#[test]
fn test_url_manipulation() {
    let test_url = AssetUrl::parse("https://devstreaming-cdn.apple.com/videos/streaming/examples/bipbop_4x3/bipbop_4x3_variant.m3u8");
    assert!(test_url.is_ok());
    let test_url = test_url.unwrap();
    let base_url = get_base_url(&test_url).unwrap();
    assert_eq!(base_url.as_str(), "https://devstreaming-cdn.apple.com/videos/streaming/examples/bipbop_4x3/");
    let relative_path = get_relative_path(&base_url, &test_url).unwrap();
    assert_eq!(relative_path.to_path_string(), "bipbop_4x3_variant.m3u8");

    let media_url = AssetUrl::parse("https://devstreaming-cdn.apple.com/videos/streaming/examples/bipbop_4x3/gear1/prog_index.m3u8").unwrap();
    let relative_path = get_relative_path(&base_url, &media_url).unwrap();
    assert_eq!(relative_path.to_path_string(), "gear1/prog_index.m3u8");
}

#[test]
fn test_get_filename_from_url() {
    let test_url = AssetUrl::parse("https://github.com/foo/bar/baz.txt?query=1&query=2").unwrap();

    let file_name = get_filename_from_url(&test_url).unwrap();
    assert_eq!(file_name, "baz.txt");

    let test_url = AssetUrl::parse("https://github.com/foo/bar/baz.txt").unwrap();
    let file_name = get_filename_from_url(&test_url).unwrap();
    assert_eq!(file_name, "baz.txt");

    let test_url = AssetUrl::parse("https://github.com/foo/bar/baz/").unwrap();
    let file_name = get_filename_from_url(&test_url);
    assert!(file_name.is_none());
}

#[test]
fn parse_normalizes_the_serialization() {
    let u = url("HTTPS://Example.COM/a/./b/../c.m3u8");
    assert_eq!(u.as_str(), "https://example.com/a/c.m3u8");
    assert_eq!(u.host(), Some("example.com"));
    assert_eq!(u.segments().clone(), vec!["a".to_string(), "c.m3u8".to_string()]);
}

#[test]
fn parse_rejects_text_that_is_no_url() {
    assert_eq!(AssetUrl::parse("not a url").err(), Some(MirrorError::InvalidUrl));
    assert_eq!(AssetUrl::parse("/relative/only.m3u8").err(), Some(MirrorError::InvalidUrl));
}

#[test]
fn parse_rejects_a_url_without_a_hierarchical_path() {
    assert_eq!(AssetUrl::parse("data:text/plain,HelloWorld").err(), Some(MirrorError::NotHierarchical));
    assert_eq!(AssetUrl::parse("mailto:someone@example.com").err(), Some(MirrorError::NotHierarchical));
}

#[test]
fn resolve_joins_a_reference_against_the_url() {
    let base = url("https://host/a/gear1/");
    assert_eq!(base.resolve("seg0.ts").unwrap().as_str(), "https://host/a/gear1/seg0.ts");
    assert_eq!(base.resolve("../b/x.ts").unwrap().as_str(), "https://host/a/b/x.ts");
    assert_eq!(base.resolve("/top.ts").unwrap().as_str(), "https://host/top.ts");
    assert_eq!(base.resolve("https://other/y.ts").unwrap().as_str(), "https://other/y.ts");
}

#[test]
fn base_url_drops_the_last_segment_and_the_query() {
    let u = url("https://host/a/b/index.m3u8?token=1#frag");
    assert_eq!(get_base_url(&u).unwrap().as_str(), "https://host/a/b/");
    let dir = url("https://host/a/b/");
    assert_eq!(get_base_url(&dir).unwrap().as_str(), "https://host/a/b/");
    let root = url("https://host");
    assert_eq!(get_base_url(&root).unwrap().as_str(), "https://host/");
}

#[test]
fn relative_path_fails_across_hosts() {
    let a = url("https://one.example/a/b.m3u8");
    let b = url("https://two.example/a/b.m3u8");
    assert_eq!(get_relative_path(&a, &b).err(), Some(MirrorError::HostMismatch));
    assert_eq!(get_relative_path(&b, &a).err(), Some(MirrorError::HostMismatch));
}

#[test]
fn relative_path_keeps_what_follows_the_shared_prefix() {
    let base = url("https://host/x/y/z/");
    let target = url("https://host/x/q/r.ts");
    let p = get_relative_path(&base, &target).unwrap();
    assert_eq!(p.segments, vec!["q".to_string(), "r.ts".to_string()]);
    assert_eq!(p.to_path_string(), "q/r.ts");
}

#[test]
fn relative_path_of_a_url_to_itself_is_empty() {
    let base = url("https://host/a/");
    let p = get_relative_path(&base, &base).unwrap();
    assert!(p.segments.is_empty());
    assert_eq!(p.to_path_string(), "");
}

#[test]
fn relative_path_is_the_same_for_the_same_urls() {
    let base = url("https://host/a/");
    let target = url("https://host/a/gear2/prog.m3u8");
    let first = get_relative_path(&base, &target).unwrap();
    let second = get_relative_path(&base, &target).unwrap();
    assert_eq!(first.segments, second.segments);
    assert_eq!(first.to_path_string(), "gear2/prog.m3u8");
}

#[test]
fn filename_of_a_dot_segment_takes_the_segment_before() {
    let u = url("https://host/videos/index/.m3u8");
    assert_eq!(get_filename_from_url(&u).unwrap(), "index.m3u8");
    let top = url("https://host/.m3u8");
    assert_eq!(get_filename_from_url(&top).unwrap(), ".m3u8");
}

#[test]
fn filename_of_a_bare_host_is_none() {
    assert!(get_filename_from_url(&url("https://host")).is_none());
    assert!(get_filename_from_url(&url("https://host/")).is_none());
}

#[test]
fn path_string_joins_segments_with_slashes() {
    let p = RelativePath { segments: vec!["a".to_string(), "b".to_string(), "c.ts".to_string()] };
    assert_eq!(p.to_path_string(), "a/b/c.ts");
    let one = RelativePath { segments: vec!["only".to_string()] };
    assert_eq!(one.to_path_string(), "only");
}
