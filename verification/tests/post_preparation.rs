use substack_cli::application::{
    begin_linked_file, enter_linked_file, finish_linked_file, leave_linked_file, linked_file_step, resolve_linked_posts,
    LinkedFileStep,
};
use substack_cli::application::{
    check_link_cycle, cover_image_file, local_article_links, local_image_paths,
    needs_manifest_banner, post_html_body, post_json_body, post_output, prepare_post_text,
    publication_update_from, replace_table_blocks, resolve_linked_post,
    rewrite_inline_images, rewrite_local_article_links, table_alt_text, table_blocks,
    ApplicationConfig, LinkedPost, PostInput, PostOutput, PostSource, PreparedPost,
    PublicationImageTarget, PublishedPost, SavedFile, SavedFileKind,
};
use substack_cli::cli::PublicationUpdateArguments;
use substack_cli::error::Error;
use substack_cli::local_post_manifest::PublishedLocalPost;
use substack_cli::prosemirror::Markdown;
use substack_cli::types::{Hostname, ImageUrl, Post, PostId};

#[test]
fn local_markdown_links_are_listed_and_rewritten() {
    let md = "See [part one](./one.md#intro) and [site](https://example.com) and [notes](notes.txt).\n![pic](./two.md) [two](two.MD)";
    let links = local_article_links(md, Some("/posts"));
    assert_eq!(links.len(), 2);
    assert_eq!(links[0].path, "/posts/./one.md");
    assert_eq!(links[0].fragment.as_deref(), Some("intro"));
    assert_eq!(links[1].path, "/posts/two.MD");
    assert_eq!(links[1].fragment, None);

    let urls = vec![
        "https://example.substack.com/p/one".to_string(),
        "https://example.substack.com/p/two".to_string(),
    ];
    assert_eq!(
        rewrite_local_article_links(md, Some("/posts"), &urls),
        "See [part one](https://example.substack.com/p/one#intro) and [site](https://example.com) and [notes](notes.txt).\n![pic](./two.md) [two](https://example.substack.com/p/two)"
    );
}

#[test]
fn text_without_local_links_is_unchanged() {
    let md = "plain [x](https://a.b) [y](#frag) [unclosed";
    assert!(local_article_links(md, None).is_empty());
    assert_eq!(rewrite_local_article_links(md, None, &Vec::new()), md);
}

#[test]
fn empty_fragment_is_dropped_from_rewritten_link() {
    let md = "[a](a.md#)";
    let urls = vec!["https://h/p/a".to_string()];
    assert_eq!(rewrite_local_article_links(md, None, &urls), "[a](https://h/p/a)");
}

#[test]
fn local_images_are_listed_and_rewritten() {
    let md = "![a](./a.png) text ![b](https://cdn/b.png) ![c](/abs/c.jpg) ![bad\n](x.png)";
    let paths = local_image_paths(md, Some("/base"));
    assert_eq!(paths, vec!["/base/./a.png".to_string(), "/abs/c.jpg".to_string()]);
    let urls = vec!["https://cdn/1.png".to_string(), "https://cdn/2.jpg".to_string()];
    assert_eq!(
        rewrite_inline_images(md, Some("/base"), &urls),
        "![a](https://cdn/1.png) text ![b](https://cdn/b.png) ![c](https://cdn/2.jpg) ![bad\n](x.png)"
    );
}

#[test]
fn tables_are_listed_and_replaced_by_images() {
    let md = "Intro\n\n| A | [B] |\n|---|---|\n| 1 | 2 |\n\nOutro";
    let tables = table_blocks(md);
    assert_eq!(tables.len(), 1);
    assert_eq!(tables[0].header(), &["A".to_string(), "[B]".to_string()]);
    assert_eq!(table_alt_text(tables[0].header()), "A | B");
    let urls = vec!["https://cdn/t.png".to_string()];
    assert_eq!(
        replace_table_blocks(md, &urls),
        "Intro\n\n![A | B](https://cdn/t.png)\n\nOutro"
    );
    assert_eq!(replace_table_blocks("no tables here", &Vec::new()), "no tables here");
}

#[test]
fn title_comes_from_argument_frontmatter_or_heading() {
    let text = prepare_post_text("# Heading\n\nBody".to_string(), None, None);
    assert_eq!(text.title, "Heading");
    assert_eq!(text.body.as_str(), "Body");
    assert!(text.subtitle.is_none());

    let text = prepare_post_text(
        "---\ntitle: \"From Front\"\nsubtitle: Sub\n---\n# Heading\nBody".to_string(),
        None,
        None,
    );
    assert_eq!(text.title, "From Front");
    assert_eq!(text.subtitle.as_deref(), Some("Sub"));
    assert_eq!(text.body.as_str(), "# Heading\nBody");

    let text = prepare_post_text("# Heading\nBody".to_string(), Some("Given".to_string()), Some("S".to_string()));
    assert_eq!(text.title, "Given");
    assert_eq!(text.subtitle.as_deref(), Some("S"));
    assert_eq!(text.body.as_str(), "# Heading\nBody");

    let text = prepare_post_text("just text".to_string(), None, None);
    assert_eq!(text.title, "Untitled");
    assert_eq!(text.body.as_str(), "just text");
}

#[test]
fn cover_image_prefers_the_given_file() {
    assert_eq!(cover_image_file(Some("c.png".to_string()), Some("b.png".to_string())).as_deref(), Some("c.png"));
    assert_eq!(cover_image_file(None, Some("b.png".to_string())).as_deref(), Some("b.png"));
    assert!(cover_image_file(None, None).is_none());
    assert!(needs_manifest_banner(None, Some("post.md")));
    assert!(!needs_manifest_banner(Some("c.png"), Some("post.md")));
    assert!(!needs_manifest_banner(None, None));
}

#[test]
fn post_source_needs_exactly_one_input() {
    assert!(matches!(PostSource::from_body_or_file(Some("hi"), None), Ok(PostInput::Body(b)) if b == "hi"));
    assert!(matches!(PostSource::from_body_or_file(None, Some("a.md")), Ok(PostInput::File(p)) if p == "a.md"));
    match PostSource::from_body_or_file(Some("hi"), Some("a.md")) {
        Err(Error::Usage(m)) => assert_eq!(m, "provide --body or --file-path, not both"),
        other => panic!("expected usage error, got {other:?}"),
    }
    match PostSource::from_body_or_file(None, None) {
        Err(Error::Usage(m)) => assert_eq!(m, "--body or --file-path is required"),
        other => panic!("expected usage error, got {other:?}"),
    }
}

#[test]
fn file_source_resolves_against_its_directory() {
    let source = PostSource::from_file("/posts/water/a.md", "# A".to_string());
    assert_eq!(source.base_dir.as_deref(), Some("/posts/water"));
    assert_eq!(source.file_path.as_deref(), Some("/posts/water/a.md"));
    let bare = PostSource::from_file("a.md", String::new());
    assert_eq!(bare.base_dir.as_deref(), Some(""));
    let active = source.active_sources(Some("/real/water/a.md")).unwrap();
    assert_eq!(active, vec!["/real/water/a.md".to_string()]);
    assert!(matches!(source.active_sources(None), Err(Error::MissingLinkedFile { .. })));
    let inline = PostSource::from_body("x".to_string());
    assert!(inline.active_sources(None).unwrap().is_empty());
}

#[test]
fn cycles_of_linked_files_are_refused() {
    let active = vec!["/a.md".to_string(), "/b.md".to_string(), "/c.md".to_string()];
    assert!(check_link_cycle(&active, "/d.md").is_ok());
    match check_link_cycle(&active, "/b.md") {
        Err(Error::LinkedFileCycle { cycle }) => assert_eq!(cycle, "/b.md -> /c.md -> /b.md"),
        other => panic!("expected a cycle, got {other:?}"),
    }
}

#[test]
fn unpublished_linked_file_is_published_first_only_when_allowed() {
    let found = PublishedLocalPost::new(PostId::from(3), "three".to_string());
    assert!(matches!(resolve_linked_post(Some(found), false, "x.md"), Ok(LinkedPost::Published(p)) if p.slug() == "three"));
    assert!(matches!(resolve_linked_post(None, true, "x.md"), Ok(LinkedPost::PublishFirst)));
    match resolve_linked_post(None, false, "x.md") {
        Err(Error::LinkedFileNotPublished { path }) => assert_eq!(path, "x.md"),
        other => panic!("expected not-published error, got {other:?}"),
    }
}

#[test]
fn publication_image_update_sets_only_its_target() {
    let update = PublicationImageTarget::WideLogo.publication_update(ImageUrl::from("u".to_string()));
    assert_eq!(update.logo_url_wide.as_ref().map(|u| u.as_str()), Some("u"));
    assert!(update.logo_url.is_none());
    assert!(update.cover_photo_url.is_none());
    assert!(update.email_banner_url.is_none());
    assert!(update.name.is_none());
    let banner = PublicationImageTarget::EmailBanner.publication_update(ImageUrl::from("e".to_string()));
    assert_eq!(banner.email_banner_url.as_ref().map(|u| u.as_str()), Some("e"));
}

fn update_arguments(enabled: bool, disabled: bool) -> PublicationUpdateArguments {
    PublicationUpdateArguments {
        name: Some("Name".to_string()),
        hero_text: None,
        language: Some("en".to_string()),
        copyright: None,
        logo_url: Some("https://cdn/logo.png".to_string()),
        logo_url_wide: None,
        cover_photo_url: None,
        email_banner_url: None,
        theme_var_background_pop: None,
        community_enabled: enabled,
        community_disabled: disabled,
    }
}

#[test]
fn community_flags_choose_the_setting() {
    assert_eq!(update_arguments(true, false).community_enabled(), Some(true));
    assert_eq!(update_arguments(false, true).community_enabled(), Some(false));
    assert_eq!(update_arguments(false, false).community_enabled(), None);
    let update = publication_update_from(update_arguments(false, true));
    assert_eq!(update.name.as_deref(), Some("Name"));
    assert_eq!(update.language.as_deref(), Some("en"));
    assert_eq!(update.logo_url.as_ref().map(|u| u.as_str()), Some("https://cdn/logo.png"));
    assert_eq!(update.community_enabled, Some(false));
    assert!(update.homepage_type.is_none());
}

#[test]
fn configuration_needs_key_then_hostname() {
    match ApplicationConfig::from_values(None, None) {
        Err(Error::MissingEnvironmentVariable { variable }) => assert_eq!(variable, "SUBSTACK_API_KEY"),
        _ => panic!("expected missing API key"),
    }
    match ApplicationConfig::from_values(Some("k".to_string()), None) {
        Err(Error::MissingEnvironmentVariable { variable }) => assert_eq!(variable, "SUBSTACK_HOSTNAME"),
        _ => panic!("expected missing hostname"),
    }
    let config = match ApplicationConfig::from_values(Some("k".to_string()), Some("h.substack.com".to_string())) {
        Ok(config) => config,
        Err(error) => panic!("unexpected error: {error:?}"),
    };
    assert_eq!(config.hostname().as_str(), "h.substack.com");
    assert_eq!(config.client_settings().cookie(), "substack.sid=k");
}

#[test]
fn published_post_url_and_missing_slug() {
    let post = PublishedPost::new(PostId::from(1), "T".to_string(), None, None);
    assert_eq!(post.slug, "");
    let post = PublishedPost::new(PostId::from(1), "T".to_string(), Some("t".to_string()), None);
    assert_eq!(post.canonical_url(&Hostname::from("h.com".to_string())), "https://h.com/p/t");
}

#[test]
fn draft_update_carries_the_prepared_post() {
    let prepared = PreparedPost {
        title: "T".to_string(),
        subtitle: Some("S".to_string()),
        body: Markdown::from_text("Hello").to_prosemirror(),
        cover_image_url: Some(ImageUrl::from("https://cdn/c.png".to_string())),
        source_path: None,
    };
    let update = prepared.draft_update();
    assert_eq!(update.draft_title, "T");
    assert_eq!(update.draft_subtitle.as_deref(), Some("S"));
    assert_eq!(update.cover_image.as_ref().map(|u| u.as_str()), Some("https://cdn/c.png"));
    let body: serde_json::Value = serde_json::from_str(&update.draft_body).unwrap();
    assert_eq!(body["type"], "doc");
    assert_eq!(body["content"][0]["content"][0]["text"], "Hello");
}

#[test]
fn get_post_output_and_bodies() {
    let post = Post {
        id: PostId::from(1),
        title: None,
        subtitle: None,
        slug: None,
        post_date: None,
        post_type: None,
        audience: None,
        cover_image: None,
        wordcount: None,
        reaction_count: None,
        comment_count: None,
        body_json: Some("{}".to_string()),
        body_html: None,
    };
    assert_eq!(post_json_body(&post).unwrap(), "{}");
    match post_html_body(&post) {
        Err(Error::UnexpectedResponse(m)) => assert_eq!(m, "post response did not include body_html"),
        other => panic!("expected unexpected-response error, got {other:?}"),
    }
    let saved = vec![SavedFile { kind: SavedFileKind::Json, path: "p.json".to_string() }];
    assert_eq!(post_output(true, &saved), PostOutput::Full);
    assert_eq!(post_output(false, &saved), PostOutput::SavedFiles);
    assert_eq!(post_output(false, &Vec::new()), PostOutput::Summary);
}

#[test]
fn source_parts_are_kept() {
    let source = PostSource::from_parts("# A".to_string(), Some("/d".to_string()), "/d/a.md".to_string());
    assert_eq!(source.markdown, "# A");
    assert_eq!(source.base_dir.as_deref(), Some("/d"));
    assert_eq!(source.file_path.as_deref(), Some("/d/a.md"));
}

#[test]
fn markdown_converts_from_owned_and_borrowed_text() {
    assert_eq!(Markdown::from("x".to_string()).as_str(), "x");
    assert_eq!(Markdown::from("y").as_str(), "y");
}

#[test]
fn empty_frontmatter_block_is_removed() {
    let split = Markdown::from("---\n---\nBody").split_frontmatter();
    assert_eq!(split.body.as_str(), "Body");
    assert_eq!(split.frontmatter.unwrap().as_str(), "");
    let text = prepare_post_text("---\n---\n# T\nBody".to_string(), None, None);
    assert_eq!(text.title, "T");
    assert_eq!(text.body.as_str(), "Body");
}

#[test]
fn linked_file_step_uses_recorded_post_then_refuses_cycles() {
    let mut active = vec!["/a.md".to_string()];
    let found = PublishedLocalPost::new(PostId::from(4), "four".to_string());
    assert!(matches!(
        linked_file_step(Some(found), &active, "/a.md"),
        Ok(LinkedFileStep::AlreadyPublished(p)) if p.slug() == "four"
    ));
    assert!(matches!(linked_file_step(None, &active, "/b.md"), Ok(LinkedFileStep::Publish)));
    match linked_file_step(None, &active, "/a.md") {
        Err(Error::LinkedFileCycle { cycle }) => assert_eq!(cycle, "/a.md -> /a.md"),
        other => panic!("expected a cycle, got {other:?}"),
    }
    enter_linked_file(&mut active, "/b.md".to_string());
    assert_eq!(active, vec!["/a.md".to_string(), "/b.md".to_string()]);
    leave_linked_file(&mut active);
    assert_eq!(active, vec!["/a.md".to_string()]);
}

#[test]
fn plain_paths_have_their_parent_directory() {
    assert_eq!(PostSource::from_file("/a", String::new()).base_dir.as_deref(), Some("/"));
    assert_eq!(PostSource::from_file("x/y/z.md", String::new()).base_dir.as_deref(), Some("x/y"));
    assert_eq!(PostSource::from_file("/", String::new()).base_dir, None);
}

fn recorded(id: u64, slug: &str) -> PublishedLocalPost {
    PublishedLocalPost::new(PostId::from(id), slug.to_string())
}

#[test]
fn link_rewrite_stops_at_first_unpublished_file() {
    let lookups = vec![
        ("a.md".to_string(), Ok(Some(recorded(1, "one")))),
        ("b.md".to_string(), Ok(None)),
        ("c.md".to_string(), Ok(None)),
    ];
    match resolve_linked_posts(lookups, false) {
        Err(Error::LinkedFileNotPublished { path }) => assert_eq!(path, "b.md"),
        other => panic!("expected the first unpublished file, got {other:?}"),
    }
}

#[test]
fn link_rewrite_stops_at_first_failed_lookup() {
    let lookups = vec![
        ("a.md".to_string(), Ok(Some(recorded(1, "one")))),
        ("b.md".to_string(), Err(Error::MissingLinkedFile { path: "b.md".to_string() })),
        ("c.md".to_string(), Ok(None)),
    ];
    match resolve_linked_posts(lookups, true) {
        Err(Error::MissingLinkedFile { path }) => assert_eq!(path, "b.md"),
        other => panic!("expected the failed lookup, got {other:?}"),
    }
}

#[test]
fn link_rewrite_resolves_every_link_in_order() {
    let lookups = vec![
        ("a.md".to_string(), Ok(Some(recorded(1, "one")))),
        ("b.md".to_string(), Ok(None)),
        ("c.md".to_string(), Ok(Some(recorded(3, "three")))),
    ];
    let posts = resolve_linked_posts(lookups, true).unwrap();
    assert_eq!(posts.len(), 3);
    assert!(matches!(&posts[0], LinkedPost::Published(p) if p.slug() == "one"));
    assert!(matches!(&posts[1], LinkedPost::PublishFirst));
    assert!(matches!(&posts[2], LinkedPost::Published(p) if p.slug() == "three"));
    assert!(resolve_linked_posts(Vec::new(), false).unwrap().is_empty());
}

#[test]
fn linked_file_leaves_active_sources_as_they_were() {
    let mut active = vec!["/a.md".to_string()];
    let found = recorded(4, "four");
    assert!(matches!(
        begin_linked_file(Some(found), &mut active, "/b.md".to_string()),
        Ok(LinkedFileStep::AlreadyPublished(p)) if p.slug() == "four"
    ));
    assert_eq!(active, vec!["/a.md".to_string()]);
    assert!(matches!(begin_linked_file(None, &mut active, "/a.md".to_string()), Err(Error::LinkedFileCycle { .. })));
    assert_eq!(active, vec!["/a.md".to_string()]);
    assert!(matches!(begin_linked_file(None, &mut active, "/b.md".to_string()), Ok(LinkedFileStep::Publish)));
    assert_eq!(active, vec!["/a.md".to_string(), "/b.md".to_string()]);
    let failed = finish_linked_file(&mut active, Err(Error::Io("disk".to_string())));
    assert!(matches!(failed, Err(Error::Io(m)) if m == "disk"));
    assert_eq!(active, vec!["/a.md".to_string()]);
    assert!(matches!(begin_linked_file(None, &mut active, "/b.md".to_string()), Ok(LinkedFileStep::Publish)));
    let done = finish_linked_file(&mut active, Ok(recorded(5, "five"))).unwrap();
    assert_eq!(done.slug(), "five");
    assert_eq!(active, vec!["/a.md".to_string()]);
}
