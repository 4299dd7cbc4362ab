//! The command tree of the `substack` tool, as plain values.

use vstd::prelude::*;

verus! {

/// A parsed command line.
#[derive(Debug)]
pub struct CommandLine {
    pub command: RootCommand,
}

#[derive(Debug)]
pub enum RootCommand {
    Publication(PublicationCommand),
    Image(ImageCommand),
    Post(PostCommand),
}

#[derive(Debug)]
pub enum PublicationCommand {
    Get,
    Update(PublicationUpdateArguments),
    SetLogo(PublicationImageArguments),
    SetWideLogo(PublicationImageArguments),
    SetCoverPhoto(PublicationImageArguments),
    SetEmailBanner(PublicationImageArguments),
}

#[derive(Debug)]
pub struct PublicationUpdateArguments {
    pub name: Option<String>,
    pub hero_text: Option<String>,
    pub language: Option<String>,
    pub copyright: Option<String>,
    pub logo_url: Option<String>,
    pub logo_url_wide: Option<String>,
    pub cover_photo_url: Option<String>,
    pub email_banner_url: Option<String>,
    pub theme_var_background_pop: Option<String>,
    pub community_enabled: bool,
    pub community_disabled: bool,
}

impl PublicationUpdateArguments {
    /// The community setting the flags ask for: `--community-enabled` wins
    /// over `--community-disabled`, and neither leaves it unchanged.
    pub fn community_enabled(&self) -> (r: Option<bool>)
        ensures
            self.community_enabled ==> r == Some(true),
            !self.community_enabled && self.community_disabled ==> r == Some(false),
            !self.community_enabled && !self.community_disabled ==> r is None,
    {
        if self.community_enabled {
            Some(true)
        } else if self.community_disabled {
            Some(false)
        } else {
            None
        }
    }
}

#[derive(Debug)]
pub struct PublicationImageArguments {
    pub file_path: String,
}

#[derive(Debug)]
pub enum ImageCommand {
    Upload(ImageUploadArguments),
}

#[derive(Debug)]
pub struct ImageUploadArguments {
    pub file_path: String,
}

#[derive(Debug)]
pub enum PostCommand {
    Create(PostCreateArguments),
    Update(PostUpdateArguments),
    List(PostListArguments),
    Get(PostGetArguments),
    Delete(PostDeleteArguments),
}

#[derive(Debug)]
pub struct PostCreateArguments {
    pub title: Option<String>,
    pub subtitle: Option<String>,
    pub body: Option<String>,
    pub file_path: Option<String>,
    pub cover_image: Option<String>,
    pub draft: bool,
    pub publish_linked_files: bool,
    pub link_manifest: Option<String>,
}

#[derive(Debug)]
pub struct PostUpdateArguments {
    pub post_id: u64,
    pub title: Option<String>,
    pub subtitle: Option<String>,
    pub body: Option<String>,
    pub file_path: Option<String>,
    pub cover_image: Option<String>,
    pub publish_linked_files: bool,
    pub link_manifest: Option<String>,
}

#[derive(Debug)]
pub struct PostListArguments {
    pub limit: u32,
}

#[derive(Debug)]
pub struct PostGetArguments {
    pub post_id: u64,
    pub full: bool,
    pub save_html: Option<String>,
    pub save_json: Option<String>,
}

#[derive(Debug)]
pub struct PostDeleteArguments {
    pub post_id: u64,
}

} // verus!
