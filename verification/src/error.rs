//! The library's error type and the message each error is reported with.

use vstd::prelude::*;
use crate::json::{decimal, decimal_of};
use crate::text::{append_chars, chars_of, string_of};

verus! {

/// Everything that can go wrong while talking to Substack or preparing a post.
#[derive(Debug)]
pub enum Error {
    /// A transport failure, with the HTTP client's description.
    Http(String),
    /// A file-system failure, with the operating system's description.
    Io(String),
    /// A JSON encoding or decoding failure, with the parser's description.
    Json(String),
    Usage(String),
    MissingEnvironmentVariable { variable: String },
    UnexpectedResponse(String),
    NoUser,
    InvalidImage(String),
    UnsupportedImageFormat { extension: String },
    MissingLinkedFile { path: String },
    LinkedFileOutsideManifestRoot { path: String, manifest_root: String },
    LinkedFileNotPublished { path: String },
    LinkedFileCycle { cycle: String },
    Api { status: u16, body: String },
}

/// The text an error is reported with.
pub open spec fn error_message(e: Error) -> Seq<char> {
    match e {
        Error::Http(s) => s@,
        Error::Io(s) => s@,
        Error::Json(s) => s@,
        Error::Usage(s) => s@,
        Error::MissingEnvironmentVariable { variable } => variable@ + " must be set"@,
        Error::UnexpectedResponse(s) => s@,
        Error::NoUser => "no publication user found"@,
        Error::InvalidImage(s) => "invalid image: "@ + s@,
        Error::UnsupportedImageFormat { extension } => "unsupported image format: "@
            + extension@,
        Error::MissingLinkedFile { path } => "local markdown link target does not exist: "@
            + path@,
        Error::LinkedFileOutsideManifestRoot { path, manifest_root } =>
            "local markdown link target is outside the manifest root "@ + manifest_root@ + ": "@
            + path@,
        Error::LinkedFileNotPublished { path } => "local markdown link target is not published: "@
            + path@ + "; publish it first or rerun with --publish-linked-files"@,
        Error::LinkedFileCycle { cycle } => "cyclic local markdown links: "@ + cycle@,
        Error::Api { status, body } => "API "@ + decimal(status as nat) + ": "@ + body@,
    }
}

fn concat2(a: &str, b: &str) -> (r: String)
    ensures
        r@ == a@ + b@,
{
    let mut v = chars_of(a);
    append_chars(&mut v, &chars_of(b));
    string_of(&v)
}

fn concat3(a: &str, b: &str, c: &str) -> (r: String)
    ensures
        r@ == a@ + b@ + c@,
{
    let mut v = chars_of(a);
    append_chars(&mut v, &chars_of(b));
    append_chars(&mut v, &chars_of(c));
    string_of(&v)
}

impl Error {
    /// The message this error is reported with.
    pub fn message(&self) -> (r: String)
        ensures
            r@ == error_message(*self),
    {
        match self {
            Error::Http(s) => s.clone(),
            Error::Io(s) => s.clone(),
            Error::Json(s) => s.clone(),
            Error::Usage(s) => s.clone(),
            Error::MissingEnvironmentVariable { variable } => concat2(
                variable.as_str(),
                " must be set",
            ),
            Error::UnexpectedResponse(s) => s.clone(),
            Error::NoUser => "no publication user found".to_owned(),
            Error::InvalidImage(s) => concat2("invalid image: ", s.as_str()),
            Error::UnsupportedImageFormat { extension } => concat2(
                "unsupported image format: ",
                extension.as_str(),
            ),
            Error::MissingLinkedFile { path } => concat2(
                "local markdown link target does not exist: ",
                path.as_str(),
            ),
            Error::LinkedFileOutsideManifestRoot { path, manifest_root } => {
                let mut v = chars_of("local markdown link target is outside the manifest root ");
                append_chars(&mut v, &chars_of(manifest_root.as_str()));
                append_chars(&mut v, &chars_of(": "));
                append_chars(&mut v, &chars_of(path.as_str()));
                string_of(&v)
            },
            Error::LinkedFileNotPublished { path } => concat3(
                "local markdown link target is not published: ",
                path.as_str(),
                "; publish it first or rerun with --publish-linked-files",
            ),
            Error::LinkedFileCycle { cycle } => concat2(
                "cyclic local markdown links: ",
                cycle.as_str(),
            ),
            Error::Api { status, body } => {
                let mut v = chars_of("API ");
                append_chars(&mut v, &decimal_of(*status as u64));
                append_chars(&mut v, &chars_of(": "));
                append_chars(&mut v, &chars_of(body.as_str()));
                string_of(&v)
            },
        }
    }
}

} // verus!
