//! What the Substack client sends: the endpoints of the private web API, the
//! request URLs and session cookie, the image upload body, and how a
//! response status is judged.

use vstd::prelude::*;
use crate::error::Error;
use crate::image_file::DataUri;
use crate::json::{decimal, decimal_of, json_string, push_json_number, push_json_string};
use crate::text::{append_chars, chars_of, string_of};
use crate::types::PostId;

verus! {

/// An endpoint of Substack's private web API.
#[derive(Debug, Clone, Copy)]
pub enum Endpoint {
    Publication,
    PublicationUser,
    Drafts,
    Draft(PostId),
    Publish(PostId),
    Archive(u32),
    Post(PostId),
    Image,
}

/// The path of an endpoint.
pub open spec fn endpoint_path(e: Endpoint) -> Seq<char> {
    match e {
        Endpoint::Publication => "/api/v1/publication"@,
        Endpoint::PublicationUser => "/api/v1/publication_user"@,
        Endpoint::Drafts => "/api/v1/drafts"@,
        Endpoint::Draft(id) => "/api/v1/drafts/"@ + decimal(id@ as nat),
        Endpoint::Publish(id) => "/api/v1/drafts/"@ + decimal(id@ as nat) + "/publish"@,
        Endpoint::Archive(limit) => "/api/v1/archive?sort=new&limit="@ + decimal(limit as nat),
        Endpoint::Post(id) => "/api/v1/posts/"@ + decimal(id@ as nat),
        Endpoint::Image => "/api/v1/image"@,
    }
}

impl Endpoint {
    pub fn path(&self) -> (r: String)
        ensures
            r@ == endpoint_path(*self),
    {
        match self {
            Endpoint::Publication => "/api/v1/publication".to_owned(),
            Endpoint::PublicationUser => "/api/v1/publication_user".to_owned(),
            Endpoint::Drafts => "/api/v1/drafts".to_owned(),
            Endpoint::Draft(id) => {
                let mut v = chars_of("/api/v1/drafts/");
                append_chars(&mut v, &decimal_of(id.as_u64()));
                string_of(&v)
            },
            Endpoint::Publish(id) => {
                let mut v = chars_of("/api/v1/drafts/");
                append_chars(&mut v, &decimal_of(id.as_u64()));
                append_chars(&mut v, &chars_of("/publish"));
                string_of(&v)
            },
            Endpoint::Archive(limit) => {
                let mut v = chars_of("/api/v1/archive?sort=new&limit=");
                append_chars(&mut v, &decimal_of(*limit as u64));
                string_of(&v)
            },
            Endpoint::Post(id) => {
                let mut v = chars_of("/api/v1/posts/");
                append_chars(&mut v, &decimal_of(id.as_u64()));
                string_of(&v)
            },
            Endpoint::Image => "/api/v1/image".to_owned(),
        }
    }
}

/// Where requests go and how they authenticate.
#[derive(Debug, Clone)]
pub struct ClientSettings {
    base: String,
    cookie: String,
}

impl View for ClientSettings {
    type V = (Seq<char>, Seq<char>);

    closed spec fn view(&self) -> (Seq<char>, Seq<char>) {
        (self.base@, self.cookie@)
    }
}

impl ClientSettings {
    /// Requests go to `https://<hostname>` and carry the cookie
    /// `substack.sid=<api key>`.
    pub fn new(hostname: &str, api_key: &str) -> (r: Self)
        ensures
            r@.0 == "https://"@ + hostname@,
            r@.1 == "substack.sid="@ + api_key@,
    {
        let mut base = chars_of("https://");
        append_chars(&mut base, &chars_of(hostname));
        let mut cookie = chars_of("substack.sid=");
        append_chars(&mut cookie, &chars_of(api_key));
        ClientSettings { base: string_of(&base), cookie: string_of(&cookie) }
    }

    /// The value of the `Cookie` header.
    pub fn cookie(&self) -> (r: &str)
        ensures
            r@ == self@.1,
    {
        self.cookie.as_str()
    }

    /// The URL of an endpoint.
    pub fn url(&self, endpoint: Endpoint) -> (r: String)
        ensures
            r@ == self@.0 + endpoint_path(endpoint),
    {
        let mut v = chars_of(self.base.as_str());
        append_chars(&mut v, &chars_of(endpoint.path().as_str()));
        string_of(&v)
    }
}

/// The JSON body of an image upload, keys in order: the data URI, and the
/// post it belongs to when there is one.
pub open spec fn upload_body(data_uri: Seq<char>, post_id: Option<u64>) -> Seq<char> {
    match post_id {
        Some(id) => "{\"image\":"@ + json_string(data_uri) + ",\"postId\":"@ + decimal(id as nat)
            + "}"@,
        None => "{\"image\":"@ + json_string(data_uri) + "}"@,
    }
}

/// The JSON body of an image upload.
pub fn upload_request_body(data_uri: &DataUri, post_id: Option<&PostId>) -> (r: String)
    ensures
        r@ == upload_body(
            data_uri@,
            match post_id {
                Some(p) => Some(p@),
                None => None,
            },
        ),
{
    let mut v = chars_of("{\"image\":");
    push_json_string(&mut v, &chars_of(data_uri.as_str()));
    if let Some(id) = post_id {
        append_chars(&mut v, &chars_of(",\"postId\":"));
        push_json_number(&mut v, id.as_u64());
    }
    append_chars(&mut v, &chars_of("}"));
    string_of(&v)
}

/// A response status in the success range.
pub open spec fn is_success(status: u16) -> bool {
    200 <= status <= 299
}

/// Whether a response status is in the success range.
pub fn status_is_success(status: u16) -> (r: bool)
    ensures
        r == is_success(status),
{
    200 <= status && status <= 299
}

/// Judges a response: a status outside the success range is an API error
/// carrying the status and the response body.
pub fn check_status(status: u16, body: String) -> (r: Result<(), Error>)
    ensures
        is_success(status) ==> r is Ok,
        !is_success(status) ==> (r matches Err(Error::Api { status: s, body: b }) && s == status
            && b@ == body@),
{
    if 200 <= status && status <= 299 {
        Ok(())
    } else {
        Err(Error::Api { status, body })
    }
}

} // verus!
