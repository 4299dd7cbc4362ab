//! Domain values exchanged with Substack: identifiers, URLs, credentials,
//! publications, posts, drafts and uploads.

use vstd::prelude::*;
use crate::error::Error;
use crate::json::{decimal, decimal_of};
use crate::text::string_of;

verus! {

// ── Identity ────────────────────────────────────────────────────────

/// A post (or draft) identifier.
#[derive(Debug, Clone, Copy, PartialEq, Eq, Structural)]
pub struct PostId(u64);

impl View for PostId {
    type V = u64;

    closed spec fn view(&self) -> u64 {
        self.0
    }
}

impl PostId {
    pub fn new(id: u64) -> (r: Self)
        ensures
            r@ == id,
    {
        PostId(id)
    }

    pub fn as_u64(&self) -> (r: u64)
        ensures
            r == self@,
    {
        self.0
    }

    /// The identifier as decimal text, as it appears in URLs and messages.
    pub fn to_text(&self) -> (r: String)
        ensures
            r@ == decimal(self@ as nat),
    {
        string_of(&decimal_of(self.0))
    }
}

impl From<u64> for PostId {
    fn from(id: u64) -> (r: Self) {
        PostId(id)
    }
}

impl vstd::std_specs::convert::FromSpecImpl<u64> for PostId {
    open spec fn obeys_from_spec() -> bool {
        true
    }

    open spec fn from_spec(v: u64) -> PostId {
        post_id_of(v)
    }
}

/// The identifier with the given number.
pub closed spec fn post_id_of(v: u64) -> PostId {
    PostId(v)
}

/// The identifier made from a number holds that number.
pub broadcast proof fn lemma_post_id_of(v: u64)
    ensures
        (#[trigger] post_id_of(v))@ == v,
{
}

/// A Substack user identifier.
#[derive(Debug, Clone, Copy, PartialEq, Eq, Structural)]
pub struct UserId(u64);

impl View for UserId {
    type V = u64;

    closed spec fn view(&self) -> u64 {
        self.0
    }
}

impl UserId {
    pub fn new(id: u64) -> (r: Self)
        ensures
            r@ == id,
    {
        UserId(id)
    }

    pub fn as_u64(&self) -> (r: u64)
        ensures
            r == self@,
    {
        self.0
    }
}

impl From<u64> for UserId {
    fn from(id: u64) -> (r: Self) {
        UserId(id)
    }
}

impl vstd::std_specs::convert::FromSpecImpl<u64> for UserId {
    open spec fn obeys_from_spec() -> bool {
        true
    }

    open spec fn from_spec(v: u64) -> UserId {
        user_id_of(v)
    }
}

/// The user identifier with the given number.
pub closed spec fn user_id_of(v: u64) -> UserId {
    UserId(v)
}

/// The user identifier made from a number holds that number.
pub broadcast proof fn lemma_user_id_of(v: u64)
    ensures
        (#[trigger] user_id_of(v))@ == v,
{
}

// ── URL, host and credentials ───────────────────────────────────────

/// The URL of an uploaded image.
#[derive(Debug, Clone)]
pub struct ImageUrl(String);

impl View for ImageUrl {
    type V = Seq<char>;

    closed spec fn view(&self) -> Seq<char> {
        self.0@
    }
}

impl From<String> for ImageUrl {
    fn from(text: String) -> (r: Self) {
        ImageUrl(text)
    }
}

impl vstd::std_specs::convert::FromSpecImpl<String> for ImageUrl {
    open spec fn obeys_from_spec() -> bool {
        true
    }

    open spec fn from_spec(v: String) -> ImageUrl {
        image_url_of(v)
    }
}

pub closed spec fn image_url_of(v: String) -> ImageUrl {
    ImageUrl(v)
}

/// The URL made from a text holds that text.
pub broadcast proof fn lemma_image_url_of(v: String)
    ensures
        (#[trigger] image_url_of(v))@ == v@,
{
}

impl ImageUrl {
    pub fn new(url: String) -> (r: Self)
        ensures
            r@ == url@,
    {
        ImageUrl(url)
    }

    pub fn as_str(&self) -> (r: &str)
        ensures
            r@ == self@,
    {
        self.0.as_str()
    }
}

/// A publication hostname, such as `example.substack.com`.
#[derive(Debug, Clone)]
pub struct Hostname(String);

impl View for Hostname {
    type V = Seq<char>;

    closed spec fn view(&self) -> Seq<char> {
        self.0@
    }
}

impl From<String> for Hostname {
    fn from(text: String) -> (r: Self) {
        Hostname(text)
    }
}

impl vstd::std_specs::convert::FromSpecImpl<String> for Hostname {
    open spec fn obeys_from_spec() -> bool {
        true
    }

    open spec fn from_spec(v: String) -> Hostname {
        hostname_of(v)
    }
}

pub closed spec fn hostname_of(v: String) -> Hostname {
    Hostname(v)
}

/// The hostname made from a text holds that text.
pub broadcast proof fn lemma_hostname_of(v: String)
    ensures
        (#[trigger] hostname_of(v))@ == v@,
{
}

impl Hostname {
    pub fn new(hostname: String) -> (r: Self)
        ensures
            r@ == hostname@,
    {
        Hostname(hostname)
    }

    pub fn as_str(&self) -> (r: &str)
        ensures
            r@ == self@,
    {
        self.0.as_str()
    }
}

/// The `substack.sid` session cookie value.
#[derive(Clone)]
pub struct ApiKey(String);

impl View for ApiKey {
    type V = Seq<char>;

    closed spec fn view(&self) -> Seq<char> {
        self.0@
    }
}

impl From<String> for ApiKey {
    fn from(text: String) -> (r: Self) {
        ApiKey(text)
    }
}

impl vstd::std_specs::convert::FromSpecImpl<String> for ApiKey {
    open spec fn obeys_from_spec() -> bool {
        true
    }

    open spec fn from_spec(v: String) -> ApiKey {
        api_key_of(v)
    }
}

pub closed spec fn api_key_of(v: String) -> ApiKey {
    ApiKey(v)
}

/// The API key made from a text holds that text.
pub broadcast proof fn lemma_api_key_of(v: String)
    ensures
        (#[trigger] api_key_of(v))@ == v@,
{
}

impl ApiKey {
    pub fn new(key: String) -> (r: Self)
        ensures
            r@ == key@,
    {
        ApiKey(key)
    }

    pub fn as_str(&self) -> (r: &str)
        ensures
            r@ == self@,
    {
        self.0.as_str()
    }
}

/// An optional text, copied.
fn clone_text(o: &Option<String>) -> (r: Option<String>)
    ensures
        r == *o,
{
    match o {
        Some(s) => Some(s.clone()),
        None => None,
    }
}

// ── Publication ─────────────────────────────────────────────────────

/// Publication settings as Substack reports them.
#[derive(Debug, Clone)]
pub struct Publication {
    pub name: Option<String>,
    pub subdomain: Option<String>,
    pub hero_text: Option<String>,
    pub language: Option<String>,
    pub logo_url: Option<ImageUrl>,
    pub logo_url_wide: Option<ImageUrl>,
    pub cover_photo_url: Option<ImageUrl>,
    pub email_banner_url: Option<ImageUrl>,
    pub copyright: Option<String>,
    pub community_enabled: Option<bool>,
    pub homepage_type: Option<String>,
    pub theme_var_background_pop: Option<String>,
}

/// A change to publication settings; absent fields are left as they are.
#[derive(Debug, Clone)]
pub struct PublicationUpdate {
    pub name: Option<String>,
    pub hero_text: Option<String>,
    pub language: Option<String>,
    pub logo_url: Option<ImageUrl>,
    pub logo_url_wide: Option<ImageUrl>,
    pub cover_photo_url: Option<ImageUrl>,
    pub email_banner_url: Option<ImageUrl>,
    pub copyright: Option<String>,
    pub community_enabled: Option<bool>,
    pub homepage_type: Option<String>,
    pub theme_var_background_pop: Option<String>,
}

impl PublicationUpdate {
    /// An update that changes nothing.
    pub open spec fn is_empty(&self) -> bool {
        &&& self.name is None
        &&& self.hero_text is None
        &&& self.language is None
        &&& self.logo_url is None
        &&& self.logo_url_wide is None
        &&& self.cover_photo_url is None
        &&& self.email_banner_url is None
        &&& self.copyright is None
        &&& self.community_enabled is None
        &&& self.homepage_type is None
        &&& self.theme_var_background_pop is None
    }
}

impl Default for PublicationUpdate {
    fn default() -> (r: Self)
        ensures
            r.is_empty(),
    {
        PublicationUpdate {
            name: None,
            hero_text: None,
            language: None,
            logo_url: None,
            logo_url_wide: None,
            cover_photo_url: None,
            email_banner_url: None,
            copyright: None,
            community_enabled: None,
            homepage_type: None,
            theme_var_background_pop: None,
        }
    }
}

// ── Post ────────────────────────────────────────────────────────────

/// A post as Substack reports it. `body_json` holds the ProseMirror body as
/// JSON text.
#[derive(Debug, Clone)]
pub struct Post {
    pub id: PostId,
    pub title: Option<String>,
    pub subtitle: Option<String>,
    pub slug: Option<String>,
    pub post_date: Option<String>,
    pub post_type: Option<String>,
    pub audience: Option<String>,
    pub cover_image: Option<ImageUrl>,
    pub wordcount: Option<u64>,
    pub reaction_count: Option<u64>,
    pub comment_count: Option<u64>,
    pub body_json: Option<String>,
    pub body_html: Option<String>,
}

/// The fields of a post that listings show.
#[derive(Debug, Clone)]
pub struct PostSummary {
    pub id: PostId,
    pub title: Option<String>,
    pub slug: Option<String>,
    pub post_date: Option<String>,
    pub audience: Option<String>,
    pub wordcount: Option<u64>,
}

impl Post {
    pub fn summary(&self) -> (r: PostSummary)
        ensures
            r.id == self.id,
            r.title == self.title,
            r.slug == self.slug,
            r.post_date == self.post_date,
            r.audience == self.audience,
            r.wordcount == self.wordcount,
    {
        PostSummary {
            id: self.id,
            title: clone_text(&self.title),
            slug: clone_text(&self.slug),
            post_date: clone_text(&self.post_date),
            audience: clone_text(&self.audience),
            wordcount: self.wordcount,
        }
    }
}

// ── Draft ───────────────────────────────────────────────────────────

/// A newly created draft.
#[derive(Debug, Clone)]
pub struct Draft {
    pub id: PostId,
}

/// An author credited on a draft.
#[derive(Debug, Clone)]
pub struct DraftByline {
    pub id: UserId,
    pub user_id: UserId,
}

/// The request that creates a draft.
#[derive(Debug, Clone)]
pub struct DraftCreate {
    pub draft_bylines: Vec<DraftByline>,
}

impl DraftCreate {
    /// A draft credited to one user.
    pub fn for_user(user_id: UserId) -> (r: Self)
        ensures
            r.draft_bylines@.len() == 1,
            r.draft_bylines@[0].id == user_id,
            r.draft_bylines@[0].user_id == user_id,
    {
        let mut draft_bylines: Vec<DraftByline> = Vec::new();
        draft_bylines.push(DraftByline { id: user_id, user_id });
        DraftCreate { draft_bylines }
    }
}

/// The request that replaces a draft's title, subtitle, body and cover.
#[derive(Debug, Clone)]
pub struct DraftUpdate {
    pub draft_title: String,
    pub draft_subtitle: Option<String>,
    pub draft_body: String,
    pub cover_image: Option<ImageUrl>,
}

// ── Published ───────────────────────────────────────────────────────

/// The answer to a publish request.
#[derive(Debug, Clone)]
pub struct Published {
    pub slug: Option<String>,
}

// ── Image ───────────────────────────────────────────────────────────

/// The answer to an image upload.
#[derive(Debug, Clone)]
pub struct ImageUpload {
    pub url: ImageUrl,
}

// ── Publication users ───────────────────────────────────────────────

/// A user of the publication.
#[derive(Debug, Clone)]
pub struct PubUser {
    pub user_id: UserId,
}

/// The publication's users.
#[derive(Debug, Clone)]
pub struct PubUsersResponse {
    pub pub_users: Vec<PubUser>,
}

impl PubUsersResponse {
    /// The first user of the publication; a publication without users has no
    /// author to credit.
    pub fn first_user_id(&self) -> (r: Result<UserId, Error>)
        ensures
            self.pub_users@.len() > 0 ==> r == Ok::<UserId, Error>(self.pub_users@[0].user_id),
            self.pub_users@.len() == 0 ==> r matches Err(Error::NoUser),
    {
        if self.pub_users.len() > 0 {
            Ok(self.pub_users[0].user_id)
        } else {
            Err(Error::NoUser)
        }
    }
}

} // verus!
