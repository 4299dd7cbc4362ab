use substack_cli::error::Error;
use substack_cli::local_post_manifest::{
    LocalPostManifest, LocalPostManifestFile, LocalPostRecord, PublishedLocalPost, SourcePath,
};
use substack_cli::types::{Hostname, PostId};

fn source(path: &str) -> SourcePath {
    SourcePath::from(path.to_string())
}

#[test]
fn records_post_and_reads_it_back() {
    let mut file = LocalPostManifestFile::discover(None, "/work/.substack-posts.json");
    let published = file.record_post(
        source("water/Keep_the_Plasma.md"),
        PostId::from(195628661),
        "keep-the-plasma".to_string(),
    );
    assert_eq!(published.post_id().as_u64(), 195628661);
    assert_eq!(published.slug(), "keep-the-plasma");

    let loaded = file.published_post(&source("water/Keep_the_Plasma.md")).unwrap();
    assert_eq!(loaded.post_id().as_u64(), 195628661);
    assert_eq!(loaded.slug(), "keep-the-plasma");
    assert!(file.published_post(&source("water/Other.md")).is_none());
}

#[test]
fn banner_is_recorded_for_unpublished_source_and_kept_on_publish() {
    let mut file = LocalPostManifestFile::discover(Some("/work/links.json"), "/ignored.json");
    assert_eq!(file.path(), "/work/links.json");
    file.record_banner_image(
        source("water/The_Distilled_Water_Paradox.md"),
        source("generated-images/the-distilled-water-paradox-banner.png"),
    );
    let paradox = source("water/The_Distilled_Water_Paradox.md");
    assert!(file.published_post(&paradox).is_none());
    assert_eq!(
        file.banner_image_path(&paradox, "/work").unwrap(),
        "/work/generated-images/the-distilled-water-paradox-banner.png"
    );

    file.record_post(source("water/The_Distilled_Water_Paradox.md"), PostId::from(5), "paradox".to_string());
    assert_eq!(file.published_post(&paradox).unwrap().slug(), "paradox");
    assert_eq!(
        file.banner_image_path(&paradox, "/work/").unwrap(),
        "/work/generated-images/the-distilled-water-paradox-banner.png"
    );
    assert_eq!(file.manifest().records().len(), 1);
}

#[test]
fn new_sources_are_kept_sorted_by_path() {
    let mut file = LocalPostManifestFile::discover(None, "/m.json");
    file.record_post(source("b.md"), PostId::from(2), "b".to_string());
    file.record_post(source("a.md"), PostId::from(1), "a".to_string());
    file.record_post(source("c/d.md"), PostId::from(3), "d".to_string());
    file.record_post(source("a.md"), PostId::from(4), "a2".to_string());
    let paths: Vec<&str> = file
        .manifest()
        .records()
        .iter()
        .map(|r| r.source_path().as_str())
        .collect();
    assert_eq!(paths, vec!["a.md", "b.md", "c/d.md"]);
    assert_eq!(file.published_post(&source("a.md")).unwrap().post_id().as_u64(), 4);
}

#[test]
fn loaded_records_are_merged_in_place() {
    let stored = LocalPostManifest::from_records(vec![
        LocalPostRecord::new(source("z.md"), Some(PostId::from(1)), Some("z".to_string()), None),
        LocalPostRecord::new(source("a.md"), None, None, Some(source("a.png"))),
    ]);
    let mut file = LocalPostManifestFile::discover(None, "/m.json");
    file.load(stored);
    file.record_post(source("a.md"), PostId::from(2), "a".to_string());
    let records = file.manifest().records();
    assert_eq!(records[0].source_path().as_str(), "z.md");
    assert_eq!(records[1].source_path().as_str(), "a.md");
    assert_eq!(records[1].slug(), Some("a"));
    assert_eq!(records[1].banner_image().unwrap().as_str(), "a.png");
}

#[test]
fn canonical_url_uses_hostname_and_slug() {
    let post = PublishedLocalPost::new(PostId::from(1), "keep-the-plasma".to_string());
    let host = Hostname::from("example.substack.com".to_string());
    assert_eq!(post.canonical_url(&host), "https://example.substack.com/p/keep-the-plasma");
}

#[test]
fn source_path_is_relative_to_the_manifest_root() {
    let sp = LocalPostManifestFile::source_path("./water/a.md", Some("/work/water/a.md"), "/work").unwrap();
    assert_eq!(sp.as_str(), "water/a.md");
    match LocalPostManifestFile::source_path("../a.md", Some("/elsewhere/a.md"), "/work") {
        Err(Error::LinkedFileOutsideManifestRoot { path, manifest_root }) => {
            assert_eq!(path, "/elsewhere/a.md");
            assert_eq!(manifest_root, "/work");
        }
        other => panic!("expected outside-root error, got {other:?}"),
    }
    match LocalPostManifestFile::source_path("missing.md", None, "/work") {
        Err(Error::MissingLinkedFile { path }) => assert_eq!(path, "missing.md"),
        other => panic!("expected missing-file error, got {other:?}"),
    }
    assert!(LocalPostManifestFile::source_path("x", Some("/workshop/a.md"), "/work").is_err());
}

#[test]
fn default_path_is_in_the_nearest_repository_root() {
    let candidates = vec![
        ("/repo/posts/water".to_string(), false),
        ("/repo/posts".to_string(), false),
        ("/repo".to_string(), true),
        ("/".to_string(), false),
    ];
    assert_eq!(
        LocalPostManifestFile::default_path("/repo/posts/water", &candidates),
        "/repo/.substack-posts.json"
    );
    let none = vec![("/tmp/x".to_string(), false), ("/tmp".to_string(), false)];
    assert_eq!(
        LocalPostManifestFile::default_path("/tmp/x", &none),
        "/tmp/x/.substack-posts.json"
    );
}

#[test]
fn record_merge_takes_supplied_fields() {
    let mut record = LocalPostRecord::new(source("a.md"), Some(PostId::from(1)), Some("old".to_string()), None);
    record.merge(LocalPostRecord::new(source("a.md"), None, Some("new".to_string()), None));
    assert_eq!(record.post_id().unwrap().as_u64(), 1);
    assert_eq!(record.slug(), Some("new"));
    assert!(record.published_post().is_some());
    let bare = LocalPostRecord::new(source("b.md"), Some(PostId::from(1)), None, None);
    assert!(bare.published_post().is_none());
}

#[test]
fn sorting_keeps_duplicate_paths_in_order() {
    let stored = LocalPostManifest::from_records(vec![
        LocalPostRecord::new(source("b.md"), Some(PostId::from(1)), Some("first".to_string()), None),
        LocalPostRecord::new(source("a.md"), None, None, None),
        LocalPostRecord::new(source("b.md"), Some(PostId::from(2)), Some("second".to_string()), None),
    ]);
    let mut file = LocalPostManifestFile::discover(None, "/m.json");
    file.load(stored);
    file.record_post(source("c.md"), PostId::from(3), "c".to_string());
    let records = file.manifest().records();
    let paths: Vec<&str> = records.iter().map(|r| r.source_path().as_str()).collect();
    assert_eq!(paths, vec!["a.md", "b.md", "b.md", "c.md"]);
    assert_eq!(records[1].slug(), Some("first"));
    assert_eq!(records[2].slug(), Some("second"));
    assert_eq!(file.published_post(&source("b.md")).unwrap().slug(), "first");
}

#[test]
fn banner_path_reads_back_as_its_canonical_path() {
    let mut file = LocalPostManifestFile::discover(None, "/work/.substack-posts.json");
    let post = LocalPostManifestFile::source_path("post.md", Some("/work/water/post.md"), "/work").unwrap();
    let banner =
        LocalPostManifestFile::source_path("b.png", Some("/work/images/b.png"), "/work").unwrap();
    file.record_banner_image(post, banner);
    let post = LocalPostManifestFile::source_path("post.md", Some("/work/water/post.md"), "/work").unwrap();
    assert_eq!(file.banner_image_path(&post, "/work").unwrap(), "/work/images/b.png");
    let at_root = LocalPostManifestFile::source_path("b.png", Some("/b.png"), "/").unwrap();
    assert_eq!(at_root.as_str(), "b.png");
}

#[test]
fn banner_image_file_is_recorded_when_both_files_are_inside_the_root() {
    let mut file = LocalPostManifestFile::discover(None, "/work/.substack-posts.json");
    let post = source("water/a.md");
    file.record_post(post.clone(), PostId::from(9), "a".to_string());
    file.record_banner_image_file("water/a.md", Some("/work/water/a.md"), "b.png", Some("/work/images/b.png"), "/work")
        .unwrap();
    assert_eq!(file.banner_image_path(&post, "/work").unwrap(), "/work/images/b.png");
    assert_eq!(file.published_post(&post).unwrap().slug(), "a");
}

#[test]
fn banner_image_file_refuses_missing_or_outside_files_and_keeps_manifest() {
    let mut file = LocalPostManifestFile::discover(None, "/work/.substack-posts.json");
    match file.record_banner_image_file("a.md", None, "b.png", Some("/work/b.png"), "/work") {
        Err(Error::MissingLinkedFile { path }) => assert_eq!(path, "a.md"),
        other => panic!("expected a missing source, got {other:?}"),
    }
    match file.record_banner_image_file("a.md", Some("/work/a.md"), "b.png", None, "/work") {
        Err(Error::MissingLinkedFile { path }) => assert_eq!(path, "b.png"),
        other => panic!("expected a missing banner, got {other:?}"),
    }
    match file.record_banner_image_file("a.md", Some("/work/a.md"), "b.png", Some("/elsewhere/b.png"), "/work") {
        Err(Error::LinkedFileOutsideManifestRoot { path, manifest_root }) => {
            assert_eq!(path, "/elsewhere/b.png");
            assert_eq!(manifest_root, "/work");
        }
        other => panic!("expected a banner outside the root, got {other:?}"),
    }
    assert!(file.manifest().records().is_empty());
}
