use substack_cli::error::Error;
use substack_cli::types::{
    ApiKey, DraftCreate, Hostname, ImageUrl, Post, PostId, PubUser, PubUsersResponse,
    PublicationUpdate, UserId,
};

#[test]
fn identifiers_keep_their_numbers() {
    assert_eq!(PostId::from(195628661).as_u64(), 195628661);
    assert_eq!(UserId::from(3).as_u64(), 3);
    assert_eq!(PostId::new(8), PostId::from(8));
}

#[test]
fn text_values_keep_their_text() {
    assert_eq!(ImageUrl::from("https://cdn/x.png".to_string()).as_str(), "https://cdn/x.png");
    assert_eq!(Hostname::from("example.substack.com".to_string()).as_str(), "example.substack.com");
    assert_eq!(ApiKey::from("abc123".to_string()).as_str(), "abc123");
}

#[test]
fn default_publication_update_changes_nothing() {
    let update = PublicationUpdate::default();
    assert!(update.name.is_none());
    assert!(update.logo_url.is_none());
    assert!(update.community_enabled.is_none());
    assert!(update.homepage_type.is_none());
}

#[test]
fn draft_is_credited_to_one_user() {
    let draft = DraftCreate::for_user(UserId::from(77));
    assert_eq!(draft.draft_bylines.len(), 1);
    assert_eq!(draft.draft_bylines[0].id.as_u64(), 77);
    assert_eq!(draft.draft_bylines[0].user_id.as_u64(), 77);
}

#[test]
fn first_publication_user_or_no_user() {
    let users = PubUsersResponse {
        pub_users: vec![PubUser { user_id: UserId::from(5) }, PubUser { user_id: UserId::from(6) }],
    };
    assert_eq!(users.first_user_id().unwrap().as_u64(), 5);
    let empty = PubUsersResponse { pub_users: Vec::new() };
    assert!(matches!(empty.first_user_id(), Err(Error::NoUser)));
}

#[test]
fn post_summary_copies_listing_fields() {
    let post = Post {
        id: PostId::from(9),
        title: Some("Title".to_string()),
        subtitle: Some("Sub".to_string()),
        slug: Some("title".to_string()),
        post_date: Some("2024-01-01".to_string()),
        post_type: Some("newsletter".to_string()),
        audience: Some("everyone".to_string()),
        cover_image: None,
        wordcount: Some(120),
        reaction_count: Some(1),
        comment_count: Some(2),
        body_json: None,
        body_html: None,
    };
    let summary = post.summary();
    assert_eq!(summary.id.as_u64(), 9);
    assert_eq!(summary.title.as_deref(), Some("Title"));
    assert_eq!(summary.slug.as_deref(), Some("title"));
    assert_eq!(summary.post_date.as_deref(), Some("2024-01-01"));
    assert_eq!(summary.audience.as_deref(), Some("everyone"));
    assert_eq!(summary.wordcount, Some(120));
}

#[test]
fn post_id_text_is_its_decimal_number() {
    for n in [0u64, 7, 42, 195628661, u64::MAX] {
        assert_eq!(PostId::from(n).to_text(), n.to_string());
    }
}
