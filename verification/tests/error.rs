use substack_cli::error::Error;

#[test]
fn error_messages_follow_their_formats() {
    assert_eq!(
        Error::MissingEnvironmentVariable { variable: "SUBSTACK_API_KEY".to_string() }.message(),
        "SUBSTACK_API_KEY must be set"
    );
    assert_eq!(Error::NoUser.message(), "no publication user found");
    assert_eq!(Error::InvalidImage("bad".to_string()).message(), "invalid image: bad");
    assert_eq!(
        Error::UnsupportedImageFormat { extension: "txt".to_string() }.message(),
        "unsupported image format: txt"
    );
    assert_eq!(
        Error::MissingLinkedFile { path: "a.md".to_string() }.message(),
        "local markdown link target does not exist: a.md"
    );
    assert_eq!(
        Error::LinkedFileOutsideManifestRoot {
            path: "/x/a.md".to_string(),
            manifest_root: "/root".to_string()
        }
        .message(),
        "local markdown link target is outside the manifest root /root: /x/a.md"
    );
    assert_eq!(
        Error::LinkedFileNotPublished { path: "b.md".to_string() }.message(),
        "local markdown link target is not published: b.md; publish it first or rerun with --publish-linked-files"
    );
    assert_eq!(
        Error::LinkedFileCycle { cycle: "a -> b -> a".to_string() }.message(),
        "cyclic local markdown links: a -> b -> a"
    );
    assert_eq!(
        Error::Api { status: 404, body: "missing".to_string() }.message(),
        "API 404: missing"
    );
    assert_eq!(Error::Usage("oops".to_string()).message(), "oops");
    assert_eq!(Error::Http("timeout".to_string()).message(), "timeout");
}
