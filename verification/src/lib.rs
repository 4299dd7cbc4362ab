//! Substack publishing library: Markdown to ProseMirror conversion, local post
//! manifests, image data URIs and the request logic of the command-line tool.

pub mod application;
pub mod cli;
pub mod client;
pub mod error;
pub mod image_file;
pub mod json;
pub mod local_post_manifest;
pub mod paths;
pub mod prosemirror;
pub mod table_image;
pub mod text;
pub mod types;
