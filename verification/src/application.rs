//! The decisions of the command-line tool: which post source to read, how a
//! post's title and subtitle are chosen, which local links, images and tables
//! of a Markdown text must be resolved or uploaded and how the text is
//! rewritten once they are, and the publication updates that commands send.

use vstd::prelude::*;
use crate::cli::PublicationUpdateArguments;
use crate::client::ClientSettings;
use crate::error::Error;
use crate::local_post_manifest::PublishedLocalPost;
use crate::prosemirror::{
    doc_json, first_heading, first_heading_from, frontmatter_field,
    frontmatter_split, heading_text, without_leading_heading, Markdown, ProseMirrorDoc,
};
use crate::types::{ApiKey, DraftUpdate, Hostname, ImageUrl, Post, PostId, PublicationUpdate};
use crate::local_post_manifest::canonical_url;
use crate::paths::{extension, extension_of, is_plain_path, parent_of, path_parent, plain_parent};
use crate::prosemirror::{
    image_at, image_at_of, image_source, ImageSource, ImageSourceValue, lemma_link_at_span, link_at,
    link_at_of, link_source, LinkSource, LinkSourceValue, opt_str_view, opt_view,
};
use crate::prosemirror::{string_views, table_of, Table};
use crate::text::{
    lines, append_chars, chars_of, find_from, find_from_of, join, join_of, lemma_find_from, slice_of, split,
    split_of, starts_with, string_of, trim, trim_of, views,
};

verus! {

broadcast use vstd::string::group_string_axioms;

// ── Local article links ─────────────────────────────────────────────

/// A path whose extension is `md`, in any case.
pub open spec fn is_markdown_path(path: Seq<char>) -> bool {
    match extension(path) {
        Some(e) => e.len() == 2 && (e[0] == 'm' || e[0] == 'M') && (e[1] == 'd' || e[1] == 'D'),
        None => false,
    }
}

/// The local Markdown file a link target names: its resolved path and
/// fragment.
pub open spec fn article_target(href: Seq<char>, base: Option<Seq<char>>) -> Option<
    (Seq<char>, Option<Seq<char>>),
> {
    match link_source(href, base) {
        LinkSourceValue::Local { path, fragment } => if is_markdown_path(path) {
            Some((path, fragment))
        } else {
            None
        },
        LinkSourceValue::Remote(_) => None,
    }
}

/// Where the scans for `[` and `![` land: at or after the scan position,
/// on the searched characters.
pub proof fn lemma_scan_step(s: Seq<char>, pos: int)
    requires
        0 <= pos,
    ensures
        find_from(s, seq!['['], pos) matches Some(start) ==> pos <= start < s.len() && s[start]
            == '[',
        find_from(s, seq!['!', '['], pos) matches Some(start) ==> pos <= start && start + 1
            < s.len() && s[start] == '!' && s[start + 1] == '[',
{
    lemma_find_from(s, seq!['['], pos);
    lemma_find_from(s, seq!['!', '['], pos);
    if let Some(start) = find_from(s, seq!['['], pos) {
        assert(s.subrange(start, start + 1)[0] == s[start]);
    }
    if let Some(start) = find_from(s, seq!['!', '['], pos) {
        assert(s.subrange(start, start + 2)[0] == s[start]);
        assert(s.subrange(start, start + 2)[1] == s[start + 1]);
    }
}

/// The local Markdown files that the links of `s` from `pos` on point to, in
/// order. A `[` right after a `!` (within the scanned text) opens an image,
/// not a link.
pub open spec fn article_links_from(s: Seq<char>, pos: int, base: Option<Seq<char>>) -> Seq<
    (Seq<char>, Option<Seq<char>>),
>
    decreases s.len() - pos,
{
    if pos < 0 {
        seq![]
    } else {
        proof {
            lemma_scan_step(s, pos);
        }
        match find_from(s, seq!['['], pos) {
            None => seq![],
            Some(start) => if start > pos && s[start - 1] == '!' {
                article_links_from(s, start + 1, base)
            } else {
                proof {
                    lemma_link_at_span(s, start);
                }
                match link_at(s, start) {
                    None => article_links_from(s, start + 1, base),
                    Some((label, href, n)) => match article_target(href, base) {
                        Some(t) => seq![t] + article_links_from(s, start + n, base),
                        None => article_links_from(s, start + n, base),
                    },
                }
            },
        }
    }
}

/// `#fragment`, or nothing for an absent or empty fragment.
pub open spec fn fragment_suffix(fragment: Option<Seq<char>>) -> Seq<char> {
    match fragment {
        Some(f) => if f.len() > 0 {
            seq!['#'] + f
        } else {
            seq![]
        },
        None => seq![],
    }
}

/// The text of `s` from `pos` on with each link to a local Markdown file
/// pointing at the next of `urls` (keeping its fragment); everything else
/// is unchanged.
pub open spec fn links_rewritten_from(
    s: Seq<char>,
    pos: int,
    base: Option<Seq<char>>,
    urls: Seq<Seq<char>>,
) -> Seq<char>
    decreases s.len() - pos,
{
    if pos < 0 {
        seq![]
    } else {
        proof {
            lemma_scan_step(s, pos);
        }
        match find_from(s, seq!['['], pos) {
            None => s.skip(pos),
            Some(start) => if start > pos && s[start - 1] == '!' {
                s.subrange(pos, start + 1) + links_rewritten_from(s, start + 1, base, urls)
            } else {
                proof {
                    lemma_link_at_span(s, start);
                }
                match link_at(s, start) {
                    None => s.subrange(pos, start + 1) + links_rewritten_from(
                        s,
                        start + 1,
                        base,
                        urls,
                    ),
                    Some((label, href, n)) => match article_target(href, base) {
                        Some((path, fragment)) => s.subrange(pos, start) + seq!['['] + label
                            + seq![']', '('] + urls[0] + fragment_suffix(fragment) + seq![')']
                            + links_rewritten_from(s, start + n, base, urls.drop_first()),
                        None => s.subrange(pos, start + n) + links_rewritten_from(
                            s,
                            start + n,
                            base,
                            urls,
                        ),
                    },
                }
            },
        }
    }
}

/// A link to a local Markdown file: the resolved path and the fragment.
#[derive(Debug, Clone)]
pub struct LocalArticleLink {
    pub path: String,
    pub fragment: Option<String>,
}

impl View for LocalArticleLink {
    type V = (Seq<char>, Option<Seq<char>>);

    open spec fn view(&self) -> (Seq<char>, Option<Seq<char>>) {
        (self.path@, opt_view(self.fragment))
    }
}

pub open spec fn article_links_view(v: Seq<LocalArticleLink>) -> Seq<(Seq<char>, Option<Seq<char>>)> {
    v.map_values(|l: LocalArticleLink| l@)
}

fn is_markdown_path_of(path: &Vec<char>) -> (r: bool)
    ensures
        r == is_markdown_path(path@),
{
    match extension_of(path) {
        Some(e) => e.len() == 2 && (e[0] == 'm' || e[0] == 'M') && (e[1] == 'd' || e[1] == 'D'),
        None => false,
    }
}

fn article_target_of(href: &Vec<char>, base_dir: Option<&str>) -> (r: Option<LocalArticleLink>)
    ensures
        r matches Some(l) ==> article_target(href@, opt_str_view(base_dir)) == Some(l@),
        r is None ==> article_target(href@, opt_str_view(base_dir)) is None,
{
    let h = string_of(href);
    match LinkSource::classify(h.as_str(), base_dir) {
        LinkSource::Remote(_) => None,
        LinkSource::Local { path, fragment } => {
            let p = chars_of(path.as_str());
            if is_markdown_path_of(&p) {
                Some(LocalArticleLink { path, fragment })
            } else {
                None
            }
        },
    }
}

/// The local Markdown files that the links of a Markdown text point to, in
/// order, resolved against `base_dir`.
pub fn local_article_links(markdown: &str, base_dir: Option<&str>) -> (r: Vec<LocalArticleLink>)
    ensures
        article_links_view(r@) == article_links_from(markdown@, 0, opt_str_view(base_dir)),
{
    let s = chars_of(markdown);
    let ghost base = opt_str_view(base_dir);
    let open = vec!['['];
    assert(open@ =~= seq!['[']);
    let mut out: Vec<LocalArticleLink> = Vec::new();
    let mut pos: usize = 0;
    let len = s.len();
    assert(article_links_view(out@) =~= seq![]);
    loop
        invariant
            pos <= s@.len(),
            len == s@.len(),
            s@ == markdown@,
            open@ == seq!['['],
            base == opt_str_view(base_dir),
            article_links_view(out@) + article_links_from(s@, pos as int, base)
                == article_links_from(s@, 0, base),
        decreases s@.len() - pos,
    {
        proof {
            lemma_scan_step(s@, pos as int);
        }
        let start = match find_from_of(&s, &open, pos) {
            Some(start) => start,
            None => {
                assert(article_links_from(s@, pos as int, base) =~= seq![]);
                assert(article_links_view(out@) =~= article_links_from(s@, 0, base));
                return out;
            },
        };
        assert(pos <= start < s@.len());
        if start > pos && s[start - 1] == '!' {
            pos = start + 1;
        } else {
            proof {
                lemma_link_at_span(s@, start as int);
            }
            match link_at_of(&s, start) {
                None => {
                    pos = start + 1;
                },
                Some((_label, href, n)) => {
                    match article_target_of(&href, base_dir) {
                        Some(link) => {
                            let ghost before = out@;
                            out.push(link);
                            assert(article_links_view(out@) =~= article_links_view(before).push(
                                link@,
                            ));
                            assert(article_links_view(out@) + article_links_from(
                                s@,
                                start + n,
                                base,
                            ) =~= article_links_view(before) + article_links_from(
                                s@,
                                pos as int,
                                base,
                            ));
                        },
                        None => {},
                    }
                    pos = start + n;
                },
            }
        }
    }
}

fn push_rewritten_link(out: &mut Vec<char>, label: &Vec<char>, url: &str, fragment: &Option<String>)
    ensures
        final(out)@ == old(out)@ + seq!['['] + label@ + seq![']', '('] + url@ + fragment_suffix(
            opt_view(*fragment),
        ) + seq![')'],
{
    out.push('[');
    append_chars(out, label);
    out.push(']');
    out.push('(');
    append_chars(out, &chars_of(url));
    if let Some(f) = fragment {
        let fc = chars_of(f.as_str());
        if fc.len() > 0 {
            out.push('#');
            append_chars(out, &fc);
        } else {
            assert(f@ =~= Seq::<char>::empty());
        }
    }
    out.push(')');
}

pub open spec fn texts_view(v: Seq<String>) -> Seq<Seq<char>> {
    v.map_values(|t: String| t@)
}

/// Rewrites the links of a Markdown text that point to local Markdown files
/// to the given URLs, one per such link in order, keeping each link's
/// fragment.
pub fn rewrite_local_article_links(markdown: &str, base_dir: Option<&str>, urls: &Vec<String>) -> (r:
    String)
    requires
        urls@.len() == article_links_from(markdown@, 0, opt_str_view(base_dir)).len(),
    ensures
        r@ == links_rewritten_from(markdown@, 0, opt_str_view(base_dir), texts_view(urls@)),
{
    let s = chars_of(markdown);
    let ghost base = opt_str_view(base_dir);
    let ghost all = texts_view(urls@);
    let open = vec!['['];
    assert(open@ =~= seq!['[']);
    let mut out: Vec<char> = Vec::new();
    let mut pos: usize = 0;
    let mut k: usize = 0;
    let len = s.len();
    let count = urls.len();
    assert(all.skip(0) =~= all);
    loop
        invariant
            pos <= s@.len(),
            len == s@.len(),
            count == urls@.len(),
            s@ == markdown@,
            k <= urls@.len(),
            open@ == seq!['['],
            base == opt_str_view(base_dir),
            all == texts_view(urls@),
            urls@.len() - k == article_links_from(s@, pos as int, base).len(),
            out@ + links_rewritten_from(s@, pos as int, base, all.skip(k as int))
                == links_rewritten_from(s@, 0, base, all),
        decreases s@.len() - pos,
    {
        proof {
            lemma_scan_step(s@, pos as int);
        }
        let ghost rest = all.skip(k as int);
        let ghost out0 = out@;
        let start = match find_from_of(&s, &open, pos) {
            Some(start) => start,
            None => {
                append_chars(&mut out, &slice_of(&s, pos, s.len()));
                assert(s@.subrange(pos as int, s@.len() as int) =~= s@.skip(pos as int));
                assert(out@ =~= links_rewritten_from(s@, 0, base, all));
                return string_of(&out);
            },
        };
        assert(pos <= start < s@.len());
        if start > pos && s[start - 1] == '!' {
            append_chars(&mut out, &slice_of(&s, pos, start + 1));
            assert(out@ + links_rewritten_from(s@, start + 1, base, rest) =~= out0
                + links_rewritten_from(s@, pos as int, base, rest));
            pos = start + 1;
        } else {
            proof {
                lemma_link_at_span(s@, start as int);
            }
            match link_at_of(&s, start) {
                None => {
                    append_chars(&mut out, &slice_of(&s, pos, start + 1));
                    assert(out@ + links_rewritten_from(s@, start + 1, base, rest) =~= out0
                        + links_rewritten_from(s@, pos as int, base, rest));
                    pos = start + 1;
                },
                Some((label, href, n)) => {
                    match article_target_of(&href, base_dir) {
                        Some(link) => {
                            assert(k < urls@.len());
                            append_chars(&mut out, &slice_of(&s, pos, start));
                            push_rewritten_link(&mut out, &label, urls[k].as_str(), &link.fragment);
                            proof {
                                assert(rest[0] == urls@[k as int]@);
                                assert(rest.drop_first() =~= all.skip(k + 1));
                            }
                            assert(out@ + links_rewritten_from(s@, start + n, base, all.skip(k + 1))
                                =~= out0 + links_rewritten_from(s@, pos as int, base, rest));
                            k = k + 1;
                        },
                        None => {
                            append_chars(&mut out, &slice_of(&s, pos, start + n));
                            assert(out@ + links_rewritten_from(s@, start + n, base, rest) =~= out0
                                + links_rewritten_from(s@, pos as int, base, rest));
                        },
                    }
                    pos = start + n;
                },
            }
        }
    }
}

// ── Inline images ───────────────────────────────────────────────────

/// The local files that the image references of `s` from `pos` on point to,
/// in order, resolved against the base directory.
pub open spec fn image_paths_from(s: Seq<char>, pos: int, base: Option<Seq<char>>) -> Seq<
    Seq<char>,
>
    decreases s.len() - pos,
{
    if pos < 0 {
        seq![]
    } else {
        proof {
            lemma_scan_step(s, pos);
        }
        match find_from(s, seq!['!', '['], pos) {
            None => seq![],
            Some(start) => {
                proof {
                    lemma_link_at_span(s, start);
                }
                match image_at(s, start) {
                    None => image_paths_from(s, start + 2, base),
                    Some((alt, src, n)) => match image_source(src, base) {
                        ImageSourceValue::Local(p) => seq![p] + image_paths_from(s, start + n, base),
                        ImageSourceValue::Remote(_) => image_paths_from(s, start + n, base),
                    },
                }
            },
        }
    }
}

/// The text of `s` from `pos` on with each image reference to a local file
/// pointing at the next of `urls`; everything else is unchanged.
pub open spec fn images_rewritten_from(
    s: Seq<char>,
    pos: int,
    base: Option<Seq<char>>,
    urls: Seq<Seq<char>>,
) -> Seq<char>
    decreases s.len() - pos,
{
    if pos < 0 {
        seq![]
    } else {
        proof {
            lemma_scan_step(s, pos);
        }
        match find_from(s, seq!['!', '['], pos) {
            None => s.skip(pos),
            Some(start) => {
                proof {
                    lemma_link_at_span(s, start);
                }
                match image_at(s, start) {
                    None => s.subrange(pos, start + 2) + images_rewritten_from(
                        s,
                        start + 2,
                        base,
                        urls,
                    ),
                    Some((alt, src, n)) => match image_source(src, base) {
                        ImageSourceValue::Local(_) => s.subrange(pos, start) + seq!['!', '['] + alt
                            + seq![']', '('] + urls[0] + seq![')'] + images_rewritten_from(
                            s,
                            start + n,
                            base,
                            urls.drop_first(),
                        ),
                        ImageSourceValue::Remote(_) => s.subrange(pos, start + n)
                            + images_rewritten_from(s, start + n, base, urls),
                    },
                }
            },
        }
    }
}

/// The local files that the image references of a Markdown text point to,
/// in order, resolved against `base_dir`; remote and `data:` images are left
/// out.
pub fn local_image_paths(markdown: &str, base_dir: Option<&str>) -> (r: Vec<String>)
    ensures
        texts_view(r@) == image_paths_from(markdown@, 0, opt_str_view(base_dir)),
{
    let s = chars_of(markdown);
    let ghost base = opt_str_view(base_dir);
    let open = vec!['!', '['];
    assert(open@ =~= seq!['!', '[']);
    let mut out: Vec<String> = Vec::new();
    let mut pos: usize = 0;
    let len = s.len();
    assert(texts_view(out@) =~= seq![]);
    loop
        invariant
            pos <= s@.len(),
            len == s@.len(),
            s@ == markdown@,
            open@ == seq!['!', '['],
            base == opt_str_view(base_dir),
            texts_view(out@) + image_paths_from(s@, pos as int, base) == image_paths_from(
                s@,
                0,
                base,
            ),
        decreases s@.len() - pos,
    {
        proof {
            lemma_scan_step(s@, pos as int);
        }
        let start = match find_from_of(&s, &open, pos) {
            Some(start) => start,
            None => {
                assert(image_paths_from(s@, pos as int, base) =~= seq![]);
                assert(texts_view(out@) =~= image_paths_from(s@, 0, base));
                return out;
            },
        };
        assert(pos <= start && start + 1 < s@.len());
        proof {
            lemma_link_at_span(s@, start as int);
        }
        match image_at_of(&s, start) {
            None => {
                pos = start + 2;
            },
            Some((_alt, src, n)) => {
                let src = string_of(&src);
                match ImageSource::classify(src.as_str(), base_dir) {
                    ImageSource::Local(p) => {
                        let ghost before = out@;
                        out.push(p);
                        assert(texts_view(out@) + image_paths_from(s@, start + n, base)
                            =~= texts_view(before) + image_paths_from(s@, pos as int, base));
                    },
                    ImageSource::Remote(_) => {},
                }
                pos = start + n;
            },
        }
    }
}

fn push_image_ref(out: &mut Vec<char>, alt: &Vec<char>, url: &str)
    ensures
        final(out)@ == old(out)@ + seq!['!', '['] + alt@ + seq![']', '('] + url@ + seq![')'],
{
    out.push('!');
    out.push('[');
    append_chars(out, alt);
    out.push(']');
    out.push('(');
    append_chars(out, &chars_of(url));
    out.push(')');
}

/// Rewrites the image references of a Markdown text that point to local
/// files to the given URLs, one per such reference in order.
pub fn rewrite_inline_images(markdown: &str, base_dir: Option<&str>, urls: &Vec<String>) -> (r:
    String)
    requires
        urls@.len() == image_paths_from(markdown@, 0, opt_str_view(base_dir)).len(),
    ensures
        r@ == images_rewritten_from(markdown@, 0, opt_str_view(base_dir), texts_view(urls@)),
{
    let s = chars_of(markdown);
    let ghost base = opt_str_view(base_dir);
    let ghost all = texts_view(urls@);
    let open = vec!['!', '['];
    assert(open@ =~= seq!['!', '[']);
    let mut out: Vec<char> = Vec::new();
    let mut pos: usize = 0;
    let mut k: usize = 0;
    let len = s.len();
    let count = urls.len();
    assert(all.skip(0) =~= all);
    loop
        invariant
            pos <= s@.len(),
            len == s@.len(),
            count == urls@.len(),
            s@ == markdown@,
            k <= urls@.len(),
            open@ == seq!['!', '['],
            base == opt_str_view(base_dir),
            all == texts_view(urls@),
            urls@.len() - k == image_paths_from(s@, pos as int, base).len(),
            out@ + images_rewritten_from(s@, pos as int, base, all.skip(k as int))
                == images_rewritten_from(s@, 0, base, all),
        decreases s@.len() - pos,
    {
        proof {
            lemma_scan_step(s@, pos as int);
        }
        let ghost rest = all.skip(k as int);
        let ghost out0 = out@;
        let start = match find_from_of(&s, &open, pos) {
            Some(start) => start,
            None => {
                append_chars(&mut out, &slice_of(&s, pos, s.len()));
                assert(s@.subrange(pos as int, s@.len() as int) =~= s@.skip(pos as int));
                assert(out@ =~= images_rewritten_from(s@, 0, base, all));
                return string_of(&out);
            },
        };
        assert(pos <= start && start + 1 < s@.len());
        proof {
            lemma_link_at_span(s@, start as int);
        }
        match image_at_of(&s, start) {
            None => {
                append_chars(&mut out, &slice_of(&s, pos, start + 2));
                assert(out@ + images_rewritten_from(s@, start + 2, base, rest) =~= out0
                    + images_rewritten_from(s@, pos as int, base, rest));
                pos = start + 2;
            },
            Some((alt, src, n)) => {
                let src = string_of(&src);
                match ImageSource::classify(src.as_str(), base_dir) {
                    ImageSource::Local(_) => {
                        assert(k < urls@.len());
                        append_chars(&mut out, &slice_of(&s, pos, start));
                        push_image_ref(&mut out, &alt, urls[k].as_str());
                        proof {
                            assert(rest[0] == urls@[k as int]@);
                            assert(rest.drop_first() =~= all.skip(k + 1));
                        }
                        assert(out@ + images_rewritten_from(s@, start + n, base, all.skip(k + 1))
                            =~= out0 + images_rewritten_from(s@, pos as int, base, rest));
                        k = k + 1;
                    },
                    ImageSource::Remote(_) => {
                        append_chars(&mut out, &slice_of(&s, pos, start + n));
                        assert(out@ + images_rewritten_from(s@, start + n, base, rest) =~= out0
                            + images_rewritten_from(s@, pos as int, base, rest));
                    },
                }
                pos = start + n;
            },
        }
    }
}

// ── Tables ──────────────────────────────────────────────────────────

/// The separator of Markdown blocks.
pub open spec fn block_break() -> Seq<char> {
    seq!['\n', '\n']
}

/// The text without `[` and `]`.
pub open spec fn without_brackets(s: Seq<char>) -> Seq<char>
    decreases s.len(),
{
    if s.len() == 0 {
        s
    } else if s.last() == '[' || s.last() == ']' {
        without_brackets(s.drop_last())
    } else {
        without_brackets(s.drop_last()).push(s.last())
    }
}

/// The alternative text of a table image: the header cells joined with
/// ` | `, without brackets.
pub open spec fn table_alt(header: Seq<Seq<char>>) -> Seq<char> {
    without_brackets(join(header, " | "@))
}

/// The table a block holds, once trimmed.
pub open spec fn block_table(piece: Seq<char>) -> Option<(Seq<Seq<char>>, Seq<Seq<Seq<char>>>)> {
    table_of(trim(piece))
}

/// The tables among the first `n` blocks, in order.
pub open spec fn tables_in(pieces: Seq<Seq<char>>, n: int) -> Seq<
    (Seq<Seq<char>>, Seq<Seq<Seq<char>>>),
>
    decreases n,
{
    if n <= 0 {
        seq![]
    } else {
        match block_table(pieces[n - 1]) {
            Some(t) => tables_in(pieces, n - 1).push(t),
            None => tables_in(pieces, n - 1),
        }
    }
}

/// The tables of a Markdown text: its blocks that are pipe tables.
pub open spec fn markdown_tables(s: Seq<char>) -> Seq<(Seq<Seq<char>>, Seq<Seq<Seq<char>>>)> {
    tables_in(split(s, block_break()), split(s, block_break()).len() as int)
}

/// A block, or the image of the `k`-th table when the block is a table.
pub open spec fn table_piece(piece: Seq<char>, urls: Seq<Seq<char>>, k: int) -> Seq<char> {
    match block_table(piece) {
        Some((header, rows)) => seq!['!', '['] + table_alt(header) + seq![']', '('] + urls[k]
            + seq![')'],
        None => piece,
    }
}

/// A Markdown text with each table block replaced by an image reference to
/// the next of `urls`.
pub open spec fn tables_replaced(s: Seq<char>, urls: Seq<Seq<char>>) -> Seq<char> {
    let pieces = split(s, block_break());
    join(
        Seq::new(
            pieces.len(),
            |i: int| table_piece(pieces[i], urls, tables_in(pieces, i).len() as int),
        ),
        block_break(),
    )
}

/// The alternative text of a table image.
pub fn table_alt_text(header: &[String]) -> (r: String)
    ensures
        r@ == table_alt(string_views(header@)),
{
    let mut cells: Vec<Vec<char>> = Vec::new();
    let mut i: usize = 0;
    while i < header.len()
        invariant
            i <= header@.len(),
            views(cells@) == string_views(header@).take(i as int),
        decreases header@.len() - i,
    {
        let ghost before = cells@;
        let c = chars_of(header[i].as_str());
        cells.push(c);
        assert(views(cells@) =~= views(before).push(c@));
        assert(string_views(header@)[i as int] == header@[i as int]@);
        i = i + 1;
        assert(views(cells@) =~= string_views(header@).take(i as int));
    }
    assert(string_views(header@).take(i as int) =~= string_views(header@));
    let joined = join_of(&cells, &chars_of(" | "));
    let mut out: Vec<char> = Vec::new();
    let mut j: usize = 0;
    while j < joined.len()
        invariant
            j <= joined@.len(),
            out@ == without_brackets(joined@.take(j as int)),
        decreases joined@.len() - j,
    {
        let c = joined[j];
        assert(joined@.take(j + 1).drop_last() =~= joined@.take(j as int));
        if c != '[' && c != ']' {
            out.push(c);
        }
        j = j + 1;
    }
    assert(joined@.take(j as int) =~= joined@);
    string_of(&out)
}

fn block_table_of(piece: &Vec<char>) -> (r: Option<Table>)
    ensures
        r matches Some(t) ==> block_table(piece@) == Some(t@),
        r is None ==> block_table(piece@) is None,
{
    let t = trim_of(piece);
    Table::parse_block(string_of(&t).as_str())
}

/// The tables of a Markdown text, in order.
pub fn table_blocks(markdown: &str) -> (r: Vec<Table>)
    ensures
        r@.map_values(|t: Table| t@) == markdown_tables(markdown@),
{
    let s = chars_of(markdown);
    let sep = vec!['\n', '\n'];
    assert(sep@ =~= block_break());
    let pieces = split_of(&s, &sep);
    let ghost pv = views(pieces@);
    let mut out: Vec<Table> = Vec::new();
    let mut i: usize = 0;
    assert(out@.map_values(|t: Table| t@) =~= tables_in(pv, 0));
    while i < pieces.len()
        invariant
            i <= pieces@.len(),
            pv == views(pieces@),
            out@.map_values(|t: Table| t@) == tables_in(pv, i as int),
        decreases pieces@.len() - i,
    {
        let ghost before = out@;
        match block_table_of(&pieces[i]) {
            Some(t) => {
                out.push(t);
                assert(out@.map_values(|t: Table| t@) =~= before.map_values(|t: Table| t@).push(
                    t@,
                ));
            },
            None => {},
        }
        i = i + 1;
    }
    out
}

/// Replaces each table block of a Markdown text with an image reference to
/// the given URLs, one per table in order; the image's alternative text is
/// the table's header.
pub fn replace_table_blocks(markdown: &str, urls: &Vec<String>) -> (r: String)
    requires
        urls@.len() == markdown_tables(markdown@).len(),
    ensures
        r@ == tables_replaced(markdown@, texts_view(urls@)),
{
    let s = chars_of(markdown);
    let sep = vec!['\n', '\n'];
    assert(sep@ =~= block_break());
    let pieces = split_of(&s, &sep);
    let ghost pv = views(pieces@);
    let ghost all = texts_view(urls@);
    let ghost target = Seq::new(
        pv.len(),
        |i: int| table_piece(pv[i], all, tables_in(pv, i).len() as int),
    );
    let mut out: Vec<Vec<char>> = Vec::new();
    let mut i: usize = 0;
    let mut k: usize = 0;
    let count = urls.len();
    while i < pieces.len()
        invariant
            i <= pieces@.len(),
            count == urls@.len(),
            pv == views(pieces@),
            pv == split(markdown@, block_break()),
            all == texts_view(urls@),
            urls@.len() == tables_in(pv, pv.len() as int).len(),
            target == Seq::new(
                pv.len(),
                |i: int| table_piece(pv[i], all, tables_in(pv, i).len() as int),
            ),
            k == tables_in(pv, i as int).len(),
            views(out@) == target.take(i as int),
        decreases pieces@.len() - i,
    {
        proof {
            lemma_tables_in_grow(pv, i as int + 1, pv.len() as int);
        }
        let ghost out0 = out@;
        assert(pieces@[i as int]@ == pv[i as int]);
        match block_table_of(&pieces[i]) {
            Some(t) => {
                assert(k < urls@.len());
                let mut piece = vec!['!', '['];
                append_chars(&mut piece, &chars_of(table_alt_text(t.header()).as_str()));
                piece.push(']');
                piece.push('(');
                append_chars(&mut piece, &chars_of(urls[k].as_str()));
                piece.push(')');
                assert(piece@ =~= table_piece(pv[i as int], all, k as int));
                out.push(piece);
                assert(views(out@) =~= views(out0).push(target[i as int]));
                k = k + 1;
            },
            None => {
                let piece = slice_of(&pieces[i], 0, pieces[i].len());
                assert(pieces@[i as int]@.subrange(0, pieces@[i as int]@.len() as int)
                    =~= pieces@[i as int]@);
                out.push(piece);
                assert(views(out@) =~= views(out0).push(target[i as int]));
            },
        }
        i = i + 1;
        assert(views(out@) =~= target.take(i as int));
    }
    assert(target.take(i as int) =~= target);
    string_of(&join_of(&out, &sep))
}

/// The URL that the image reference `piece`, standing for a table with the
/// given header, carries: what lies between `![alt](` and the closing `)`.
pub open spec fn image_ref_url(piece: Seq<char>, header: Seq<Seq<char>>) -> Seq<char> {
    piece.subrange((table_alt(header).len() + 4) as int, piece.len() - 1)
}

/// The URLs that the rewritten blocks `out` carry in place of the table
/// blocks among the first `n` of `pieces`, read in order.
pub open spec fn urls_in_place(pieces: Seq<Seq<char>>, out: Seq<Seq<char>>, n: int) -> Seq<Seq<char>>
    decreases n,
{
    if n <= 0 {
        seq![]
    } else {
        match block_table(pieces[n - 1]) {
            Some((header, rows)) => urls_in_place(pieces, out, n - 1).push(
                image_ref_url(out[n - 1], header),
            ),
            None => urls_in_place(pieces, out, n - 1),
        }
    }
}

proof fn lemma_urls_in_place(pieces: Seq<Seq<char>>, urls: Seq<Seq<char>>, out: Seq<Seq<char>>, m: int)
    requires
        0 <= m <= pieces.len(),
        out.len() == pieces.len(),
        urls.len() == tables_in(pieces, pieces.len() as int).len(),
        forall|i: int|
            0 <= i < pieces.len() ==> #[trigger] out[i] == table_piece(
                pieces[i],
                urls,
                tables_in(pieces, i).len() as int,
            ),
    ensures
        urls_in_place(pieces, out, m) == urls.take(tables_in(pieces, m).len() as int),
    decreases m,
{
    if m > 0 {
        lemma_urls_in_place(pieces, urls, out, m - 1);
        lemma_tables_in_grow(pieces, m, pieces.len() as int);
        let k = tables_in(pieces, m - 1).len() as int;
        match block_table(pieces[m - 1]) {
            Some((header, rows)) => {
                let alt = table_alt(header);
                assert(out[m - 1] == seq!['!', '['] + alt + seq![']', '('] + urls[k] + seq![')']);
                assert(image_ref_url(out[m - 1], header) =~= urls[k]);
                assert(urls.take(k + 1) =~= urls.take(k).push(urls[k]));
            },
            None => {},
        }
    }
}

/// Replacing the tables of a text keeps every other block as it is, puts
/// an image reference `![alt](url)` with the table's header as alt text in
/// place of each table block, and the URLs of those references, read in
/// order, are exactly `urls`: the `k`-th table gets the `k`-th URL.
pub proof fn law_tables_replaced_in_order(s: Seq<char>, urls: Seq<Seq<char>>)
    requires
        urls.len() == markdown_tables(s).len(),
    ensures
        exists|out: Seq<Seq<char>>|
            #![trigger join(out, block_break())]
            {
                let pieces = split(s, block_break());
                &&& out.len() == pieces.len()
                &&& tables_replaced(s, urls) == join(out, block_break())
                &&& forall|i: int|
                    0 <= i < pieces.len() && block_table(pieces[i]) is None ==> #[trigger] out[i]
                        == pieces[i]
                &&& forall|i: int|
                    0 <= i < pieces.len() && block_table(pieces[i]) is Some ==> starts_with(
                        #[trigger] out[i],
                        seq!['!', '['] + table_alt(block_table(pieces[i]).unwrap().0) + seq![
                            ']',
                            '(',
                        ],
                    ) && out[i].last() == ')'
                &&& urls_in_place(pieces, out, pieces.len() as int) == urls
            },
{
    let pieces = split(s, block_break());
    let n = pieces.len() as int;
    let out = Seq::new(
        pieces.len(),
        |i: int| table_piece(pieces[i], urls, tables_in(pieces, i).len() as int),
    );
    assert(tables_replaced(s, urls) == join(out, block_break()));
    assert forall|i: int|
        0 <= i < pieces.len() && block_table(pieces[i]) is Some implies starts_with(
        #[trigger] out[i],
        seq!['!', '['] + table_alt(block_table(pieces[i]).unwrap().0) + seq![']', '('],
    ) && out[i].last() == ')' by {
        let pre = seq!['!', '['] + table_alt(block_table(pieces[i]).unwrap().0) + seq![']', '('];
        let k = tables_in(pieces, i).len() as int;
        assert(out[i] == pre + urls[k] + seq![')']);
        assert(out[i].subrange(0, pre.len() as int) =~= pre);
    }
    lemma_urls_in_place(pieces, urls, out, n);
    assert(urls.take(tables_in(pieces, n).len() as int) =~= urls);
}

proof fn lemma_tables_in_grow(pieces: Seq<Seq<char>>, i: int, n: int)
    requires
        0 <= i <= n,
    ensures
        tables_in(pieces, i).len() <= tables_in(pieces, n).len(),
    decreases n - i,
{
    if i < n {
        lemma_tables_in_grow(pieces, i, n - 1);
    }
}

// ── Configuration ───────────────────────────────────────────────────

/// The publication and the credential the tool works with.
pub struct ApplicationConfig {
    hostname: Hostname,
    api_key: ApiKey,
}

impl ApplicationConfig {
    /// The configuration from the values of `SUBSTACK_API_KEY` and
    /// `SUBSTACK_HOSTNAME` (none where a variable is unset); the API key is
    /// checked first.
    pub fn from_values(api_key: Option<String>, hostname: Option<String>) -> (r: Result<Self, Error>)
        ensures
            api_key is None ==> (r matches Err(Error::MissingEnvironmentVariable { variable })
                && variable@ == "SUBSTACK_API_KEY"@),
            api_key is Some && hostname is None ==> (r matches Err(
                Error::MissingEnvironmentVariable { variable },
            ) && variable@ == "SUBSTACK_HOSTNAME"@),
            api_key is Some && hostname is Some ==> (r matches Ok(c) && Some(c.hostname_view())
                == opt_view(hostname) && Some(c.api_key_view()) == opt_view(api_key)),
    {
        let api_key = match api_key {
            Some(k) => ApiKey::new(k),
            None => {
                return Err(
                    Error::MissingEnvironmentVariable { variable: "SUBSTACK_API_KEY".to_owned() },
                );
            },
        };
        let hostname = match hostname {
            Some(h) => Hostname::new(h),
            None => {
                return Err(
                    Error::MissingEnvironmentVariable { variable: "SUBSTACK_HOSTNAME".to_owned() },
                );
            },
        };
        Ok(ApplicationConfig { hostname, api_key })
    }

    pub closed spec fn hostname_view(&self) -> Seq<char> {
        self.hostname@
    }

    pub closed spec fn api_key_view(&self) -> Seq<char> {
        self.api_key@
    }

    pub fn hostname(&self) -> (r: &Hostname)
        ensures
            r@ == self.hostname_view(),
    {
        &self.hostname
    }

    pub fn api_key(&self) -> (r: &ApiKey)
        ensures
            r@ == self.api_key_view(),
    {
        &self.api_key
    }

    /// Where the client sends requests and the cookie it sends.
    pub fn client_settings(&self) -> (r: ClientSettings)
        ensures
            r@.0 == "https://"@ + self.hostname_view(),
            r@.1 == "substack.sid="@ + self.api_key_view(),
    {
        ClientSettings::new(self.hostname.as_str(), self.api_key.as_str())
    }
}

// ── Publication updates ─────────────────────────────────────────────

/// The publication image that a `set-*` command replaces.
#[derive(Debug, Clone, Copy, PartialEq, Eq, Structural)]
pub enum PublicationImageTarget {
    Logo,
    WideLogo,
    CoverPhoto,
    EmailBanner,
}

pub open spec fn opt_url_view(u: Option<ImageUrl>) -> Option<Seq<char>> {
    match u {
        Some(x) => Some(x@),
        None => None,
    }
}

impl PublicationImageTarget {
    /// An update that sets the target image to `url` and changes nothing
    /// else.
    pub fn publication_update(&self, url: ImageUrl) -> (r: PublicationUpdate)
        ensures
            opt_url_view(r.logo_url) == if *self == PublicationImageTarget::Logo {
                Some(url@)
            } else {
                None::<Seq<char>>
            },
            opt_url_view(r.logo_url_wide) == if *self == PublicationImageTarget::WideLogo {
                Some(url@)
            } else {
                None::<Seq<char>>
            },
            opt_url_view(r.cover_photo_url) == if *self == PublicationImageTarget::CoverPhoto {
                Some(url@)
            } else {
                None::<Seq<char>>
            },
            opt_url_view(r.email_banner_url) == if *self == PublicationImageTarget::EmailBanner {
                Some(url@)
            } else {
                None::<Seq<char>>
            },
            r.name is None,
            r.hero_text is None,
            r.language is None,
            r.copyright is None,
            r.community_enabled is None,
            r.homepage_type is None,
            r.theme_var_background_pop is None,
    {
        let mut update = PublicationUpdate::default();
        match self {
            PublicationImageTarget::Logo => update.logo_url = Some(url),
            PublicationImageTarget::WideLogo => update.logo_url_wide = Some(url),
            PublicationImageTarget::CoverPhoto => update.cover_photo_url = Some(url),
            PublicationImageTarget::EmailBanner => update.email_banner_url = Some(url),
        }
        update
    }
}

fn url_of(o: Option<String>) -> (r: Option<ImageUrl>)
    ensures
        opt_url_view(r) == opt_view(o),
{
    match o {
        Some(u) => Some(ImageUrl::new(u)),
        None => None,
    }
}

/// The update that `publication update` sends: each given setting, with
/// the community setting the flags ask for, and the homepage type left as
/// it is.
pub fn publication_update_from(arguments: PublicationUpdateArguments) -> (r: PublicationUpdate)
    ensures
        opt_view(r.name) == opt_view(arguments.name),
        opt_view(r.hero_text) == opt_view(arguments.hero_text),
        opt_view(r.language) == opt_view(arguments.language),
        opt_view(r.copyright) == opt_view(arguments.copyright),
        opt_url_view(r.logo_url) == opt_view(arguments.logo_url),
        opt_url_view(r.logo_url_wide) == opt_view(arguments.logo_url_wide),
        opt_url_view(r.cover_photo_url) == opt_view(arguments.cover_photo_url),
        opt_url_view(r.email_banner_url) == opt_view(arguments.email_banner_url),
        opt_view(r.theme_var_background_pop) == opt_view(arguments.theme_var_background_pop),
        r.community_enabled == if arguments.community_enabled {
            Some(true)
        } else if arguments.community_disabled {
            Some(false)
        } else {
            None::<bool>
        },
        r.homepage_type is None,
{
    let community_enabled = arguments.community_enabled();
    PublicationUpdate {
        name: arguments.name,
        hero_text: arguments.hero_text,
        language: arguments.language,
        copyright: arguments.copyright,
        logo_url: url_of(arguments.logo_url),
        logo_url_wide: url_of(arguments.logo_url_wide),
        cover_photo_url: url_of(arguments.cover_photo_url),
        email_banner_url: url_of(arguments.email_banner_url),
        theme_var_background_pop: arguments.theme_var_background_pop,
        community_enabled,
        homepage_type: None,
    }
}

// ── Post sources ────────────────────────────────────────────────────

/// Where a post's Markdown comes from.
#[derive(Debug)]
pub enum PostInput {
    Body(String),
    File(String),
}

/// A post's Markdown, the directory its relative links resolve against, and
/// the file it was read from.
#[derive(Debug)]
pub struct PostSource {
    pub markdown: String,
    pub base_dir: Option<String>,
    pub file_path: Option<String>,
}

impl PostSource {
    /// Chooses between `--body` and `--file-path`: exactly one of them must
    /// be given.
    pub fn from_body_or_file(body: Option<&str>, file_path: Option<&str>) -> (r: Result<
        PostInput,
        Error,
    >)
        ensures
            body is Some && file_path is None ==> (r matches Ok(PostInput::Body(x)) && opt_str_view(
                body,
            ) == Some(x@)),
            body is None && file_path is Some ==> (r matches Ok(PostInput::File(x)) && opt_str_view(
                file_path,
            ) == Some(x@)),
            body is Some && file_path is Some ==> (r matches Err(Error::Usage(m)) && m@
                == "provide --body or --file-path, not both"@),
            body is None && file_path is None ==> (r matches Err(Error::Usage(m)) && m@
                == "--body or --file-path is required"@),
    {
        match (body, file_path) {
            (Some(b), None) => Ok(PostInput::Body(b.to_owned())),
            (None, Some(p)) => Ok(PostInput::File(p.to_owned())),
            (Some(_), Some(_)) => Err(Error::Usage("provide --body or --file-path, not both".to_owned())),
            (None, None) => Err(Error::Usage("--body or --file-path is required".to_owned())),
        }
    }

    /// A post given inline: no base directory and no source file.
    pub fn from_body(body: String) -> (r: Self)
        ensures
            r.markdown@ == body@,
            r.base_dir is None,
            r.file_path is None,
    {
        PostSource { markdown: body, base_dir: None, file_path: None }
    }

    /// A post read from the file at `path`: its links resolve against the
    /// file's parent directory.
    pub fn from_file(path: &str, markdown: String) -> (r: Self)
        ensures
            r.markdown@ == markdown@,
            opt_view(r.base_dir) == path_parent(path@),
            is_plain_path(path@) ==> opt_view(r.base_dir) == plain_parent(path@),
            opt_view(r.file_path) == Some(path@),
    {
        PostSource::from_parts(markdown, parent_of(path), path.to_owned())
    }

    /// A post read from the file at `file_path`, whose links resolve against
    /// `base_dir` (what `Path::parent` gave for the file's path).
    pub fn from_parts(markdown: String, base_dir: Option<String>, file_path: String) -> (r: Self)
        ensures
            r.markdown@ == markdown@,
            opt_view(r.base_dir) == opt_view(base_dir),
            opt_view(r.file_path) == Some(file_path@),
    {
        PostSource { markdown, base_dir, file_path: Some(file_path) }
    }

    /// The canonical path of the source file, given what canonicalizing it
    /// gave (none when it failed); a source without a file has none.
    pub fn canonical_file_path(&self, canonical: Option<&str>) -> (r: Result<Option<String>, Error>)
        ensures
            self.file_path is None ==> (r matches Ok(x) && x is None),
            self.file_path is Some && canonical is Some ==> (r matches Ok(x) && opt_view(x)
                == opt_str_view(canonical)),
            self.file_path is Some && canonical is None ==> (r matches Err(
                Error::MissingLinkedFile { path },
            ) && Some(path@) == opt_view(self.file_path)),
    {
        match &self.file_path {
            None => Ok(None),
            Some(p) => match canonical {
                Some(c) => Ok(Some(c.to_owned())),
                None => Err(Error::MissingLinkedFile { path: p.clone() }),
            },
        }
    }

    /// The sources being published: the canonical source file, if any.
    pub fn active_sources(&self, canonical: Option<&str>) -> (r: Result<Vec<String>, Error>)
        ensures
            self.file_path is None ==> (r matches Ok(v) && v@.len() == 0),
            self.file_path is Some && canonical is Some ==> (r matches Ok(v) && v@.len() == 1
                && Some(v@[0]@) == opt_str_view(canonical)),
            self.file_path is Some && canonical is None ==> (r matches Err(
                Error::MissingLinkedFile { path },
            ) && Some(path@) == opt_view(self.file_path)),
    {
        match self.canonical_file_path(canonical)? {
            Some(path) => {
                let mut v: Vec<String> = Vec::new();
                v.push(path);
                Ok(v)
            },
            None => Ok(Vec::new()),
        }
    }
}

// ── Titles ──────────────────────────────────────────────────────────

/// The title of a post: the one given, else the frontmatter's `title`, else
/// the body's first `#` heading, else `Untitled`.
pub open spec fn post_title(given: Option<Seq<char>>, frontmatter: Option<Seq<char>>, body: Seq<
    char,
>) -> Seq<char> {
    match given {
        Some(t) => t,
        None => match frontmatter_value(frontmatter, "title"@) {
            Some(t) => t,
            None => match first_heading(body) {
                Some(h) => h,
                None => "Untitled"@,
            },
        },
    }
}

/// The value of `key` in an optional frontmatter block.
pub open spec fn frontmatter_value(frontmatter: Option<Seq<char>>, key: Seq<char>) -> Option<
    Seq<char>,
> {
    match frontmatter {
        Some(f) => frontmatter_field(f, key),
        None => None,
    }
}

/// A post's title, subtitle and Markdown body before its tables, images and
/// links are resolved.
pub struct PostText {
    pub title: String,
    pub subtitle: Option<String>,
    pub body: Markdown,
}

/// The title, subtitle and body of a post: frontmatter is removed, the
/// title and subtitle come from the arguments or the frontmatter (the title
/// else from the first heading), and a first line that is the title's
/// heading is dropped from the body.
pub fn prepare_post_text(markdown: String, title: Option<String>, subtitle: Option<String>) -> (r:
    PostText)
    ensures
        r.title@ == post_title(
            opt_view(title),
            frontmatter_split(markdown@).0,
            frontmatter_split(markdown@).1,
        ),
        opt_view(r.subtitle) == match subtitle {
            Some(s) => Some(s@),
            None => frontmatter_value(frontmatter_split(markdown@).0, "subtitle"@),
        },
        r.body@ == without_leading_heading(frontmatter_split(markdown@).1, r.title@),
{
    let split = Markdown::new(markdown).split_frontmatter();
    let frontmatter = split.frontmatter;
    let body = split.body;
    let title = match title {
        Some(t) => t,
        None => {
            let from_frontmatter = match &frontmatter {
                Some(f) => f.field("title"),
                None => None,
            };
            match from_frontmatter {
                Some(t) => t,
                None => match body.first_heading() {
                    Some(h) => h,
                    None => "Untitled".to_owned(),
                },
            }
        },
    };
    let subtitle = match subtitle {
        Some(s) => Some(s),
        None => match &frontmatter {
            Some(f) => f.field("subtitle"),
            None => None,
        },
    };
    let body = body.without_leading_heading(title.as_str());
    PostText { title, subtitle, body }
}

/// The file whose upload becomes the cover image: the one given, else the
/// banner recorded for the source.
pub fn cover_image_file(cover_image: Option<String>, banner_image: Option<String>) -> (r: Option<
    String,
>)
    ensures
        opt_view(r) == match cover_image {
            Some(c) => Some(c@),
            None => opt_view(banner_image),
        },
{
    match cover_image {
        Some(c) => Some(c),
        None => banner_image,
    }
}

/// Whether the manifest's banner image is looked up: only for a post read
/// from a file and given no cover image.
pub fn needs_manifest_banner(cover_image: Option<&str>, file_path: Option<&str>) -> (r: bool)
    ensures
        r == (cover_image is None && file_path is Some),
{
    cover_image.is_none() && file_path.is_some()
}

// ── Prepared and published posts ────────────────────────────────────

/// A post ready to be saved as a draft.
pub struct PreparedPost {
    pub title: String,
    pub subtitle: Option<String>,
    pub body: ProseMirrorDoc,
    pub cover_image_url: Option<ImageUrl>,
    pub source_path: Option<String>,
}

fn copy_url(u: &Option<ImageUrl>) -> (r: Option<ImageUrl>)
    ensures
        opt_url_view(r) == opt_url_view(*u),
{
    match u {
        Some(x) => Some(ImageUrl::new(x.as_str().to_owned())),
        None => None,
    }
}

impl PreparedPost {
    /// The draft update that saves this post: its title, subtitle, body as
    /// ProseMirror JSON text, and cover image.
    pub fn draft_update(&self) -> (r: DraftUpdate)
        ensures
            r.draft_title@ == self.title@,
            opt_view(r.draft_subtitle) == opt_view(self.subtitle),
            r.draft_body@ == doc_json(self.body@),
            opt_url_view(r.cover_image) == opt_url_view(self.cover_image_url),
    {
        DraftUpdate {
            draft_title: self.title.clone(),
            draft_subtitle: match &self.subtitle {
                Some(s) => Some(s.clone()),
                None => None,
            },
            draft_body: self.body.to_json(),
            cover_image: copy_url(&self.cover_image_url),
        }
    }
}

/// A post once published.
pub struct PublishedPost {
    pub id: PostId,
    pub title: String,
    pub slug: String,
    pub source_path: Option<String>,
}

impl PublishedPost {
    /// The slug Substack gave the post, or an empty slug when it gave none.
    pub fn new(id: PostId, title: String, slug: Option<String>, source_path: Option<String>) -> (r:
        Self)
        ensures
            r.id == id,
            r.title@ == title@,
            r.slug@ == match slug {
                Some(s) => s@,
                None => Seq::<char>::empty(),
            },
            opt_view(r.source_path) == opt_view(source_path),
    {
        let slug = match slug {
            Some(s) => s,
            None => String::new(),
        };
        PublishedPost { id, title, slug, source_path }
    }

    /// The post's public address on the publication.
    pub fn canonical_url(&self, hostname: &Hostname) -> (r: String)
        ensures
            r@ == canonical_url(hostname@, self.slug@),
    {
        crate::local_post_manifest::canonical_url_of(hostname.as_str(), self.slug.as_str())
    }
}

// ── Linked files ────────────────────────────────────────────────────

/// The first position of `path` among the sources being published.
pub open spec fn active_position(active: Seq<Seq<char>>, path: Seq<char>, i: int) -> Option<int>
    decreases active.len() - i,
{
    if i < 0 || i >= active.len() {
        None
    } else if active[i] == path {
        Some(i)
    } else {
        active_position(active, path, i + 1)
    }
}

/// The cycle that publishing `path` would close: the sources from its first
/// occurrence on, then `path` again, joined with ` -> `.
pub open spec fn link_cycle(active: Seq<Seq<char>>, path: Seq<char>) -> Option<Seq<char>> {
    match active_position(active, path, 0) {
        Some(i) => Some(join(active.skip(i).push(path), " -> "@)),
        None => None,
    }
}

/// Refuses to publish a linked file that is already being published
/// further up the chain of links.
pub fn check_link_cycle(active_sources: &Vec<String>, canonical_path: &str) -> (r: Result<(), Error>)
    ensures
        link_cycle(texts_view(active_sources@), canonical_path@) is None ==> r is Ok,
        link_cycle(texts_view(active_sources@), canonical_path@) matches Some(c) ==> (r matches Err(
            Error::LinkedFileCycle { cycle },
        ) && cycle@ == c),
{
    let ghost av = texts_view(active_sources@);
    let target = chars_of(canonical_path);
    let mut i: usize = 0;
    while i < active_sources.len()
        invariant
            i <= active_sources@.len(),
            av == texts_view(active_sources@),
            target@ == canonical_path@,
            active_position(av, target@, 0) == active_position(av, target@, i as int),
        decreases active_sources@.len() - i,
    {
        if crate::prosemirror::chars_eq(&chars_of(active_sources[i].as_str()), &target) {
            let mut parts: Vec<Vec<char>> = Vec::new();
            let mut j = i;
            while j < active_sources.len()
                invariant
                    i <= j <= active_sources@.len(),
                    av == texts_view(active_sources@),
                    views(parts@) == av.subrange(i as int, j as int),
                decreases active_sources@.len() - j,
            {
                let ghost before = parts@;
                let c = chars_of(active_sources[j].as_str());
                parts.push(c);
                assert(views(parts@) =~= views(before).push(c@));
                assert(av[j as int] == active_sources@[j as int]@);
                j = j + 1;
                assert(views(parts@) =~= av.subrange(i as int, j as int));
            }
            parts.push(target);
            assert(views(parts@) =~= av.skip(i as int).push(canonical_path@));
            let cycle = join_of(&parts, &chars_of(" -> "));
            return Err(Error::LinkedFileCycle { cycle: string_of(&cycle) });
        }
        i = i + 1;
    }
    Ok(())
}

/// What publishing a linked file comes to.
#[derive(Debug)]
pub enum LinkedFileStep {
    /// The file is published already: the post recorded for it.
    AlreadyPublished(PublishedLocalPost),
    /// The file is to be published now.
    Publish,
}

/// The step for a linked file with the given canonical path, from what the
/// manifest records for it and the sources being published: a recorded post
/// is used as it is; otherwise a file already being published further up
/// the chain of links is a cycle; otherwise the file is published.
pub fn linked_file_step(
    found: Option<PublishedLocalPost>,
    active_sources: &Vec<String>,
    canonical_path: &str,
) -> (r: Result<LinkedFileStep, Error>)
    ensures
        found matches Some(p) ==> (r matches Ok(LinkedFileStep::AlreadyPublished(q)) && q@ == p@),
        found is None && link_cycle(texts_view(active_sources@), canonical_path@) is None ==> r matches Ok(
            LinkedFileStep::Publish,
        ),
        found is None ==> (link_cycle(texts_view(active_sources@), canonical_path@) matches Some(c)
            ==> (r matches Err(Error::LinkedFileCycle { cycle }) && cycle@ == c)),
{
    match found {
        Some(p) => Ok(LinkedFileStep::AlreadyPublished(p)),
        None => {
            check_link_cycle(active_sources, canonical_path)?;
            Ok(LinkedFileStep::Publish)
        },
    }
}

/// Marks a linked file as being published.
pub fn enter_linked_file(active_sources: &mut Vec<String>, canonical_path: String)
    ensures
        final(active_sources)@ == old(active_sources)@.push(canonical_path),
{
    active_sources.push(canonical_path);
}

/// Marks the most recently entered linked file as published.
pub fn leave_linked_file(active_sources: &mut Vec<String>)
    ensures
        final(active_sources)@ == if old(active_sources)@.len() > 0 {
            old(active_sources)@.drop_last()
        } else {
            old(active_sources)@
        },
{
    let _ = active_sources.pop();
}

/// What a link to a local Markdown file resolves to.
#[derive(Debug)]
pub enum LinkedPost {
    /// The post recorded for the file.
    Published(PublishedLocalPost),
    /// The file must be published first.
    PublishFirst,
}

/// Resolves a link to a local Markdown file from what the manifest records
/// for it: a recorded post is used; an unrecorded file is published first
/// when `--publish-linked-files` allows it, and refused otherwise.
pub fn resolve_linked_post(found: Option<PublishedLocalPost>, publish_linked_files: bool, path: &str) -> (r:
    Result<LinkedPost, Error>)
    ensures
        found matches Some(p) ==> (r matches Ok(LinkedPost::Published(q)) && q@ == p@),
        found is None && publish_linked_files ==> r matches Ok(LinkedPost::PublishFirst),
        found is None && !publish_linked_files ==> (r matches Err(
            Error::LinkedFileNotPublished { path: p },
        ) && p@ == path@),
{
    match found {
        Some(p) => Ok(LinkedPost::Published(p)),
        None => if publish_linked_files {
            Ok(LinkedPost::PublishFirst)
        } else {
            Err(Error::LinkedFileNotPublished { path: path.to_owned() })
        },
    }
}

/// Whether `post` is how the link whose manifest lookup gave `lookup` resolves.
pub open spec fn resolves_as(lookup: Result<Option<PublishedLocalPost>, Error>, post: LinkedPost) -> bool {
    match lookup {
        Ok(Some(p)) => post matches LinkedPost::Published(q) && q@ == p@,
        Ok(None) => post is PublishFirst,
        Err(_) => false,
    }
}

/// The position, from `i` on, of the first link that stops the rewrite: its
/// manifest lookup failed, or it has no recorded post and linked files are
/// not to be published.
pub open spec fn first_blocker(
    lookups: Seq<(String, Result<Option<PublishedLocalPost>, Error>)>,
    publish_linked_files: bool,
    i: int,
) -> Option<int>
    decreases lookups.len() - i,
{
    if i < 0 || i >= lookups.len() {
        None
    } else if lookups[i].1 is Err || (lookups[i].1 matches Ok(None) && !publish_linked_files) {
        Some(i)
    } else {
        first_blocker(lookups, publish_linked_files, i + 1)
    }
}

/// Resolves the local Markdown links of a text, in order, each given with
/// its path and what looking it up in the manifest gave. The first link
/// whose lookup failed, or that has no recorded post while
/// `--publish-linked-files` is off, stops the rewrite with its error;
/// otherwise each link resolves to its recorded post or to publishing first.
pub fn resolve_linked_posts(
    lookups: Vec<(String, Result<Option<PublishedLocalPost>, Error>)>,
    publish_linked_files: bool,
) -> (r: Result<Vec<LinkedPost>, Error>)
    ensures
        match first_blocker(lookups@, publish_linked_files, 0) {
            Some(i) => match lookups@[i].1 {
                Err(e) => r == Err::<Vec<LinkedPost>, Error>(e),
                Ok(_) => r matches Err(Error::LinkedFileNotPublished { path }) && path@
                    == lookups@[i].0@,
            },
            None => r matches Ok(v) && v@.len() == lookups@.len() && forall|k: int|
                0 <= k < lookups@.len() ==> #[trigger] resolves_as(lookups@[k].1, v@[k]),
        },
{
    let ghost all = lookups@;
    let mut rest = lookups;
    let mut out: Vec<LinkedPost> = Vec::new();
    let n = rest.len();
    let mut i: usize = 0;
    while i < n
        invariant
            all == lookups@,
            n == all.len(),
            i <= n,
            rest@ == all.skip(i as int),
            out@.len() == i,
            forall|k: int| 0 <= k < i ==> #[trigger] resolves_as(all[k].1, out@[k]),
            first_blocker(all, publish_linked_files, 0) == first_blocker(
                all,
                publish_linked_files,
                i as int,
            ),
        decreases n - i,
    {
        let pair = rest.remove(0);
        assert(pair == all[i as int]);
        assert(all.skip(i as int).remove(0) =~= all.skip(i + 1));
        let (path, lookup) = pair;
        assert(all[i as int].1 == lookup && all[i as int].0 == path);
        match lookup {
            Err(e) => {
                assert(first_blocker(all, publish_linked_files, i as int) == Some(i as int));
                assert(all[i as int].1 == Err::<Option<PublishedLocalPost>, Error>(e));
                return Err(e);
            },
            Ok(found) => {
                match resolve_linked_post(found, publish_linked_files, path.as_str()) {
                    Ok(post) => {
                        out.push(post);
                        assert(resolves_as(all[i as int].1, out@[i as int]));
                    },
                    Err(e) => {
                        assert(first_blocker(all, publish_linked_files, i as int) == Some(i as int));
                        return Err(e);
                    },
                }
            },
        }
        i = i + 1;
    }
    Ok(out)
}

/// Starts publishing a linked file with the given canonical path, from what
/// the manifest records for it: a recorded post is used as it is and a
/// cycle refused, with the sources being published left as they were;
/// otherwise the file joins them.
pub fn begin_linked_file(
    found: Option<PublishedLocalPost>,
    active_sources: &mut Vec<String>,
    canonical_path: String,
) -> (r: Result<LinkedFileStep, Error>)
    ensures
        found matches Some(p) ==> (r matches Ok(LinkedFileStep::AlreadyPublished(q)) && q@ == p@),
        found is None && link_cycle(texts_view(old(active_sources)@), canonical_path@) is None ==> r matches Ok(
            LinkedFileStep::Publish,
        ),
        found is None ==> (link_cycle(texts_view(old(active_sources)@), canonical_path@) matches Some(c)
            ==> (r matches Err(Error::LinkedFileCycle { cycle }) && cycle@ == c)),
        r matches Ok(LinkedFileStep::Publish) ==> final(active_sources)@ == old(active_sources)@.push(
            canonical_path,
        ),
        !(r matches Ok(LinkedFileStep::Publish)) ==> final(active_sources)@ == old(active_sources)@,
{
    let step = linked_file_step(found, active_sources, canonical_path.as_str());
    if let Ok(LinkedFileStep::Publish) = &step {
        enter_linked_file(active_sources, canonical_path);
    }
    step
}

/// Ends publishing the linked file begun last, whatever came of it: the
/// file leaves the sources being published and the outcome is handed back.
pub fn finish_linked_file(
    active_sources: &mut Vec<String>,
    outcome: Result<PublishedLocalPost, Error>,
) -> (r: Result<PublishedLocalPost, Error>)
    ensures
        r == outcome,
        final(active_sources)@ == if old(active_sources)@.len() > 0 {
            old(active_sources)@.drop_last()
        } else {
            old(active_sources)@
        },
{
    leave_linked_file(active_sources);
    outcome
}

/// Publishing a linked file leaves the sources being published as they
/// were, whatever came of it: a file that `begin_linked_file` did not start
/// never joined them, and one it started leaves them at
/// `finish_linked_file`.
pub proof fn law_linked_file_restores(
    before: Seq<String>,
    started: bool,
    canonical_path: String,
)
    ensures
        ({
            let during = if started { before.push(canonical_path) } else { before };
            let after = if started {
                if during.len() > 0 { during.drop_last() } else { during }
            } else {
                during
            };
            after == before
        }),
{
    assert(before.push(canonical_path).drop_last() =~= before);
}

// ── Getting a post ──────────────────────────────────────────────────

/// The HTML body of a fetched post, which `--save-html` needs.
pub fn post_html_body(post: &Post) -> (r: Result<&str, Error>)
    ensures
        post.body_html matches Some(b) ==> (r matches Ok(x) && x@ == b@),
        post.body_html is None ==> (r matches Err(Error::UnexpectedResponse(m)) && m@
            == "post response did not include body_html"@),
{
    match &post.body_html {
        Some(b) => Ok(b.as_str()),
        None => Err(Error::UnexpectedResponse("post response did not include body_html".to_owned())),
    }
}

/// The JSON body of a fetched post, which `--save-json` needs.
pub fn post_json_body(post: &Post) -> (r: Result<&str, Error>)
    ensures
        post.body_json matches Some(b) ==> (r matches Ok(x) && x@ == b@),
        post.body_json is None ==> (r matches Err(Error::UnexpectedResponse(m)) && m@
            == "post response did not include body_json"@),
{
    match &post.body_json {
        Some(b) => Ok(b.as_str()),
        None => Err(Error::UnexpectedResponse("post response did not include body_json".to_owned())),
    }
}

/// What kind of file `post get` saved.
#[derive(Debug, Clone, Copy, PartialEq, Eq, Structural)]
pub enum SavedFileKind {
    Html,
    Json,
}

/// A file that `post get` saved.
#[derive(Debug, Clone)]
pub struct SavedFile {
    pub kind: SavedFileKind,
    pub path: String,
}

/// What `post get` prints.
#[derive(Debug, Clone, Copy, PartialEq, Eq, Structural)]
pub enum PostOutput {
    /// The whole post.
    Full,
    /// The post's summary.
    Summary,
    /// The list of saved files.
    SavedFiles,
}

/// `--full` prints the whole post; otherwise the saved files are listed
/// when there are any, and the summary printed when there are none.
pub fn post_output(full: bool, saved_files: &Vec<SavedFile>) -> (r: PostOutput)
    ensures
        full ==> r == PostOutput::Full,
        !full && saved_files@.len() == 0 ==> r == PostOutput::Summary,
        !full && saved_files@.len() > 0 ==> r == PostOutput::SavedFiles,
{
    if full {
        PostOutput::Full
    } else if saved_files.len() == 0 {
        PostOutput::Summary
    } else {
        PostOutput::SavedFiles
    }
}

// ── Laws of the rewrites ────────────────────────────────────────────

/// A text whose links point nowhere local passes through the link rewrite
/// unchanged: remote links, links to other files and non-links stay as
/// they are.
pub proof fn law_links_pass_through(s: Seq<char>, pos: int, base: Option<Seq<char>>)
    requires
        0 <= pos <= s.len(),
        article_links_from(s, pos, base).len() == 0,
    ensures
        links_rewritten_from(s, pos, base, seq![]) == s.skip(pos),
    decreases s.len() - pos,
{
    lemma_scan_step(s, pos);
    match find_from(s, seq!['['], pos) {
        None => {},
        Some(start) => {
            if start > pos && s[start - 1] == '!' {
                law_links_pass_through(s, start + 1, base);
                assert(s.subrange(pos, start + 1) + s.skip(start + 1) =~= s.skip(pos));
            } else {
                lemma_link_at_span(s, start);
                match link_at(s, start) {
                    None => {
                        law_links_pass_through(s, start + 1, base);
                        assert(s.subrange(pos, start + 1) + s.skip(start + 1) =~= s.skip(pos));
                    },
                    Some((label, href, n)) => {
                        if article_target(href, base) is None {
                            law_links_pass_through(s, start + n, base);
                            assert(s.subrange(pos, start + n) + s.skip(start + n) =~= s.skip(pos));
                        }
                    },
                }
            }
        },
    }
}

/// A text whose images are all remote passes through the image rewrite
/// unchanged.
pub proof fn law_images_pass_through(s: Seq<char>, pos: int, base: Option<Seq<char>>)
    requires
        0 <= pos <= s.len(),
        image_paths_from(s, pos, base).len() == 0,
    ensures
        images_rewritten_from(s, pos, base, seq![]) == s.skip(pos),
    decreases s.len() - pos,
{
    lemma_scan_step(s, pos);
    match find_from(s, seq!['!', '['], pos) {
        None => {},
        Some(start) => {
            lemma_link_at_span(s, start);
            match image_at(s, start) {
                None => {
                    law_images_pass_through(s, start + 2, base);
                    assert(s.subrange(pos, start + 2) + s.skip(start + 2) =~= s.skip(pos));
                },
                Some((alt, src, n)) => {
                    if image_source(src, base) is Remote {
                        law_images_pass_through(s, start + n, base);
                        assert(s.subrange(pos, start + n) + s.skip(start + n) =~= s.skip(pos));
                    }
                },
            }
        },
    }
}

/// With no title given and none in the frontmatter, a body whose first line
/// is a `# ` heading is titled by that heading, and the line (with one blank
/// line after it) is left out of the body.
pub proof fn law_leading_heading_becomes_title(body: Seq<char>)
    requires
        lines(body).len() > 0,
        heading_text(lines(body)[0]) is Some,
    ensures
        post_title(None, None, body) == heading_text(lines(body)[0]).unwrap(),
        without_leading_heading(body, post_title(None, None, body)) == join(
            if lines(body).len() > 1 && trim(lines(body)[1]).len() == 0 {
                lines(body).skip(2)
            } else {
                lines(body).skip(1)
            },
            seq!['\n'],
        ),
{
    let ls = lines(body);
    assert(first_heading_from(ls, 0) == heading_text(ls[0]));
    assert(ls.drop_first() =~= ls.skip(1));
    if ls.len() > 1 {
        assert(ls.drop_first().drop_first() =~= ls.skip(2));
    }
}

} // verus!
