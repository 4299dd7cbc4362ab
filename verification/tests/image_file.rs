use substack_cli::error::Error;
use substack_cli::image_file::{ImageFile, Mime};

#[test]
fn from_bytes_builds_data_uri_directly() {
    let uri = ImageFile::from_bytes(vec![1, 2, 3], Mime::PNG).to_data_uri();
    assert_eq!(uri.as_str(), "data:image/png;base64,AQID");
}

#[test]
fn mime_try_from_extension_covers_known_types() {
    assert_eq!(Mime::try_from("png").unwrap(), Mime::PNG);
    assert_eq!(Mime::try_from("jpg").unwrap(), Mime::JPEG);
    assert_eq!(Mime::try_from("jpeg").unwrap(), Mime::JPEG);
    assert_eq!(Mime::try_from("gif").unwrap(), Mime::GIF);
    assert_eq!(Mime::try_from("webp").unwrap(), Mime::WEBP);
    assert_eq!(Mime::try_from("svg").unwrap(), Mime::SVG);
    assert!(Mime::try_from("xyz").is_err());
}

#[test]
fn mime_names_are_the_registered_types() {
    assert_eq!(Mime::PNG.as_str(), "image/png");
    assert_eq!(Mime::JPEG.as_str(), "image/jpeg");
    assert_eq!(Mime::GIF.as_str(), "image/gif");
    assert_eq!(Mime::WEBP.as_str(), "image/webp");
    assert_eq!(Mime::SVG.as_str(), "image/svg+xml");
}

#[test]
fn extension_match_is_case_sensitive() {
    assert!(Mime::try_from("PNG").is_err());
    assert!(Mime::try_from("").is_err());
}

#[test]
fn mime_from_path_uses_the_extension() {
    assert_eq!(Mime::from_path("/tmp/cover.jpeg").unwrap(), Mime::JPEG);
    assert_eq!(Mime::from_path("images/logo.svg").unwrap(), Mime::SVG);
}

#[test]
fn mime_from_path_rejects_unsupported_extension() {
    match Mime::from_path("notes/readme.txt") {
        Err(Error::UnsupportedImageFormat { extension }) => assert_eq!(extension, "txt"),
        other => panic!("expected unsupported format, got {other:?}"),
    }
    match Mime::from_path("Makefile") {
        Err(Error::UnsupportedImageFormat { extension }) => assert_eq!(extension, ""),
        other => panic!("expected unsupported format, got {other:?}"),
    }
    match Mime::from_path(".png") {
        Err(Error::UnsupportedImageFormat { extension }) => assert_eq!(extension, ""),
        other => panic!("expected unsupported format, got {other:?}"),
    }
}

#[test]
fn data_uri_pads_partial_groups() {
    let one = ImageFile::from_bytes(vec![0xff], Mime::GIF).to_data_uri();
    assert_eq!(one.as_str(), "data:image/gif;base64,/w==");
    let two = ImageFile::from_bytes(vec![0xfb, 0xff], Mime::WEBP).to_data_uri();
    assert_eq!(two.as_str(), "data:image/webp;base64,+/8=");
    let empty = ImageFile::from_bytes(Vec::new(), Mime::PNG).to_data_uri();
    assert_eq!(empty.as_str(), "data:image/png;base64,");
    let text = ImageFile::from_bytes(b"hello world".to_vec(), Mime::SVG).to_data_uri();
    assert_eq!(text.as_str(), "data:image/svg+xml;base64,aGVsbG8gd29ybGQ=");
}

#[test]
fn image_file_keeps_bytes_and_type() {
    let image = ImageFile::from_bytes(vec![9, 8, 7], Mime::JPEG);
    assert_eq!(image.as_bytes(), &[9, 8, 7]);
    assert_eq!(image.mime(), Mime::JPEG);
}
