//! Image files held in memory, their MIME types, and the `data:` URIs that
//! Substack's image upload endpoint accepts.

use vstd::prelude::*;
use crate::error::Error;
use crate::paths::extension;
use crate::paths::extension_of;
use crate::prosemirror::chars_eq;
use crate::text::{append_chars, chars_of, string_of};

verus! {

/// The image types Substack accepts for upload.
#[derive(Debug, Clone, Copy, PartialEq, Eq, Structural)]
pub enum Mime {
    PNG,
    JPEG,
    GIF,
    WEBP,
    SVG,
}

/// The MIME type name.
pub open spec fn mime_name(m: Mime) -> Seq<char> {
    match m {
        Mime::PNG => "image/png"@,
        Mime::JPEG => "image/jpeg"@,
        Mime::GIF => "image/gif"@,
        Mime::WEBP => "image/webp"@,
        Mime::SVG => "image/svg+xml"@,
    }
}

/// The MIME type of a file name extension (case-sensitive, without the dot).
pub open spec fn mime_for_extension(ext: Seq<char>) -> Option<Mime> {
    if ext == "png"@ {
        Some(Mime::PNG)
    } else if ext == "jpg"@ || ext == "jpeg"@ {
        Some(Mime::JPEG)
    } else if ext == "gif"@ {
        Some(Mime::GIF)
    } else if ext == "webp"@ {
        Some(Mime::WEBP)
    } else if ext == "svg"@ {
        Some(Mime::SVG)
    } else {
        None
    }
}

/// The extension a path is typed by: its `Path::extension`, or nothing.
pub open spec fn path_extension(path: Seq<char>) -> Seq<char> {
    match extension(path) {
        Some(e) => e,
        None => Seq::empty(),
    }
}

fn same_text(a: &str, b: &str) -> (r: bool)
    ensures
        r == (a@ == b@),
{
    chars_eq(&chars_of(a), &chars_of(b))
}

impl Mime {
    pub fn as_str(&self) -> (r: &'static str)
        ensures
            r@ == mime_name(*self),
    {
        match self {
            Mime::PNG => "image/png",
            Mime::JPEG => "image/jpeg",
            Mime::GIF => "image/gif",
            Mime::WEBP => "image/webp",
            Mime::SVG => "image/svg+xml",
        }
    }

    /// Resolves a file name extension to a MIME type; any other extension is
    /// an unsupported image format.
    pub fn from_extension(ext: &str) -> (r: Result<Mime, Error>)
        ensures
            mime_for_extension(ext@) matches Some(m) ==> r == Ok::<Mime, Error>(m),
            mime_for_extension(ext@) is None ==> (r matches Err(
                Error::UnsupportedImageFormat { extension },
            ) && extension@ == ext@),
    {
        if same_text(ext, "png") {
            Ok(Mime::PNG)
        } else if same_text(ext, "jpg") || same_text(ext, "jpeg") {
            Ok(Mime::JPEG)
        } else if same_text(ext, "gif") {
            Ok(Mime::GIF)
        } else if same_text(ext, "webp") {
            Ok(Mime::WEBP)
        } else if same_text(ext, "svg") {
            Ok(Mime::SVG)
        } else {
            Err(Error::UnsupportedImageFormat { extension: ext.to_owned() })
        }
    }

    /// The MIME type of the file at `path`, judged by its extension.
    pub fn from_path(path: &str) -> (r: Result<Mime, Error>)
        ensures
            mime_for_extension(path_extension(path@)) matches Some(m) ==> r == Ok::<Mime, Error>(m),
            mime_for_extension(path_extension(path@)) is None ==> (r matches Err(
                Error::UnsupportedImageFormat { extension },
            ) && extension@ == path_extension(path@)),
    {
        let p = chars_of(path);
        let ext = match extension_of(&p) {
            Some(e) => string_of(&e),
            None => String::new(),
        };
        Mime::from_extension(ext.as_str())
    }
}

impl<'a> TryFrom<&'a str> for Mime {
    type Error = Error;

    /// Resolves a file name extension (case-sensitive, no leading dot).
    fn try_from(ext: &'a str) -> (r: Result<Mime, Error>)
        ensures
            mime_for_extension(ext@) matches Some(m) ==> r == Ok::<Mime, Error>(m),
            mime_for_extension(ext@) is None ==> (r matches Err(
                Error::UnsupportedImageFormat { extension },
            ) && extension@ == ext@),
    {
        Mime::from_extension(ext)
    }
}

/// `try_from` has no spec-level definition: its own `ensures` states what
/// it returns, as `Mime::from_extension` does.
impl<'a> vstd::std_specs::convert::TryFromSpecImpl<&'a str> for Mime {
    open spec fn obeys_try_from_spec() -> bool {
        false
    }

    open spec fn try_from_spec(v: &'a str) -> Result<Mime, Error> {
        vstd::pervasive::arbitrary()
    }
}

// ── Base64 ──────────────────────────────────────────────────────────

/// The character of a 6-bit value in the standard base64 alphabet.
pub open spec fn base64_digit(v: int) -> char {
    if v < 26 {
        ('A' as int + v) as char
    } else if v < 52 {
        ('a' as int + (v - 26)) as char
    } else if v < 62 {
        ('0' as int + (v - 52)) as char
    } else if v == 62 {
        '+'
    } else {
        '/'
    }
}

/// Standard base64 with `=` padding (RFC 4648, section 4): every three bytes
/// become four characters, and a final one or two bytes are padded to four.
pub open spec fn base64_standard(d: Seq<u8>) -> Seq<char>
    decreases d.len(),
{
    let b0 = d[0] as int;
    let b1 = d[1] as int;
    let b2 = d[2] as int;
    if d.len() == 0 {
        Seq::empty()
    } else if d.len() == 1 {
        seq![base64_digit(b0 / 4), base64_digit((b0 % 4) * 16), '=', '=']
    } else if d.len() == 2 {
        seq![
            base64_digit(b0 / 4),
            base64_digit((b0 % 4) * 16 + b1 / 16),
            base64_digit((b1 % 16) * 4),
            '=',
        ]
    } else {
        seq![
            base64_digit(b0 / 4),
            base64_digit((b0 % 4) * 16 + b1 / 16),
            base64_digit((b1 % 16) * 4 + b2 / 64),
            base64_digit(b2 % 64),
        ] + base64_standard(d.skip(3))
    }
}

/// The length of the base64 text of `n` bytes.
pub open spec fn base64_len(n: nat) -> nat {
    4 * ((n + 2) / 3)
}

/// `base64::Engine::encode` with the `STANDARD` engine. Claimed: the result
/// is the standard padded base64 text of the bytes. The call panics when the
/// encoded length overflows `usize`, which `requires` rules out.
#[verifier::external_body]
fn encode_base64(data: &[u8]) -> (r: String)
    requires
        base64_len(data@.len()) <= usize::MAX,
    ensures
        r@ == base64_standard(data@),
{
    base64::Engine::encode(&base64::engine::general_purpose::STANDARD, data)
}

// ── Data URIs and image files ───────────────────────────────────────

/// A `data:` URI suitable for Substack's image upload endpoint.
#[derive(Debug, Clone)]
pub struct DataUri(String);

impl View for DataUri {
    type V = Seq<char>;

    closed spec fn view(&self) -> Seq<char> {
        self.0@
    }
}

impl DataUri {
    pub fn as_str(&self) -> (r: &str)
        ensures
            r@ == self@,
    {
        self.0.as_str()
    }
}

/// The `data:` URI of bytes of the given type.
pub open spec fn data_uri(mime: Mime, data: Seq<u8>) -> Seq<char> {
    "data:"@ + mime_name(mime) + ";base64,"@ + base64_standard(data)
}

/// An image file loaded into memory with its MIME type.
#[derive(Debug, Clone)]
pub struct ImageFile {
    data: Vec<u8>,
    mime: Mime,
}

impl ImageFile {
    pub closed spec fn data(&self) -> Seq<u8> {
        self.data@
    }

    pub closed spec fn mime_type(&self) -> Mime {
        self.mime
    }

    pub fn from_bytes(data: Vec<u8>, mime: Mime) -> (r: Self)
        ensures
            r.data() == data@,
            r.mime_type() == mime,
    {
        ImageFile { data, mime }
    }

    pub fn mime(&self) -> (r: Mime)
        ensures
            r == self.mime_type(),
    {
        self.mime
    }

    pub fn as_bytes(&self) -> (r: &[u8])
        ensures
            r@ == self.data(),
    {
        self.data.as_slice()
    }

    /// Encodes as a `data:<mime>;base64,...` URI. Bytes whose base64 text
    /// would not fit in memory are outside the domain.
    pub fn to_data_uri(&self) -> (r: DataUri)
        requires
            base64_len(self.data().len()) <= usize::MAX,
        ensures
            r@ == data_uri(self.mime_type(), self.data()),
    {
        let b64 = encode_base64(self.data.as_slice());
        let mut v = chars_of("data:");
        append_chars(&mut v, &chars_of(self.mime.as_str()));
        append_chars(&mut v, &chars_of(";base64,"));
        append_chars(&mut v, &chars_of(b64.as_str()));
        DataUri(string_of(&v))
    }
}

/// Base64 text has four characters for every three bytes or part of three.
pub proof fn law_base64_length(d: Seq<u8>)
    ensures
        base64_standard(d).len() == base64_len(d.len()),
    decreases d.len(),
{
    if d.len() >= 3 {
        law_base64_length(d.skip(3));
        assert(base64_len(d.len()) == 4 + base64_len(d.skip(3).len())) by {
            assert(d.skip(3).len() == d.len() - 3);
        }
    }
}

} // verus!
