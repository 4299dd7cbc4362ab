use substack_cli::client::{check_status, upload_request_body, ClientSettings, Endpoint};
use substack_cli::error::Error;
use substack_cli::image_file::{ImageFile, Mime};
use substack_cli::types::PostId;

#[test]
fn endpoints_have_their_api_paths() {
    assert_eq!(Endpoint::Publication.path(), "/api/v1/publication");
    assert_eq!(Endpoint::PublicationUser.path(), "/api/v1/publication_user");
    assert_eq!(Endpoint::Drafts.path(), "/api/v1/drafts");
    assert_eq!(Endpoint::Draft(PostId::from(42)).path(), "/api/v1/drafts/42");
    assert_eq!(Endpoint::Publish(PostId::from(7)).path(), "/api/v1/drafts/7/publish");
    assert_eq!(Endpoint::Archive(10).path(), "/api/v1/archive?sort=new&limit=10");
    assert_eq!(Endpoint::Post(PostId::from(195628661)).path(), "/api/v1/posts/195628661");
    assert_eq!(Endpoint::Image.path(), "/api/v1/image");
}

#[test]
fn settings_build_urls_and_cookie() {
    let settings = ClientSettings::new("example.substack.com", "abc123");
    assert_eq!(settings.cookie(), "substack.sid=abc123");
    assert_eq!(
        settings.url(Endpoint::Draft(PostId::from(5))),
        "https://example.substack.com/api/v1/drafts/5"
    );
}

#[test]
fn upload_body_is_json_with_optional_post_id() {
    let uri = ImageFile::from_bytes(vec![1, 2, 3], Mime::PNG).to_data_uri();
    assert_eq!(
        upload_request_body(&uri, None),
        "{\"image\":\"data:image/png;base64,AQID\"}"
    );
    let id = PostId::from(12);
    let body = upload_request_body(&uri, Some(&id));
    assert_eq!(body, "{\"image\":\"data:image/png;base64,AQID\",\"postId\":12}");
    let parsed: serde_json::Value = serde_json::from_str(&body).unwrap();
    assert_eq!(parsed["postId"], 12);
}

#[test]
fn non_success_status_is_an_api_error() {
    assert!(check_status(200, String::new()).is_ok());
    assert!(check_status(204, String::new()).is_ok());
    match check_status(403, "forbidden".to_string()) {
        Err(Error::Api { status, body }) => {
            assert_eq!(status, 403);
            assert_eq!(body, "forbidden");
        }
        other => panic!("expected an API error, got {other:?}"),
    }
    assert!(check_status(302, String::new()).is_err());
    assert!(check_status(199, String::new()).is_err());
}
