//! Markdown to ProseMirror conversion: the document model, inline parsing of
//! links and emphasis, block classification (headings, block quotes, images,
//! pipe tables, paragraphs), frontmatter handling and link/image sources.

use vstd::prelude::*;

use vstd::utf8::encode_utf8;

use crate::json::{decimal, json_list, json_string, lemma_join_push, push_json_number, push_json_string};
use crate::paths::{resolve_path, resolve_path_of};
use crate::text::{
    append_chars, contains_char, ends_with, join, join_of, find_from, find_from_of, is_space, is_whitespace,
    lemma_find_from, lemma_split_nonempty, lemma_trim_start_len, lines, lines_of, newlines_to_spaces,
    newlines_to_spaces_of, slice_of, split, split_of, starts_with, starts_with_of, string_of, trim,
    trim_char, trim_end_char, trim_end_char_of, trim_of, trim_start, trim_start_char,
    trim_start_char_of, trim_start_of, views, chars_of, find, all_space, lemma_trim_start_split, lemma_trim_clean, split_from,
};

verus! {

// ── Document model ──────────────────────────────────────────────────

/// A mark on a text node.
#[derive(Debug, Clone)]
pub enum Mark {
    Bold,
    Italic,
    Link { href: String },
}

/// An inline node of a ProseMirror paragraph.
#[derive(Debug, Clone)]
pub enum Inline {
    Text { text: String, marks: Vec<Mark> },
    HardBreak,
}

/// A top-level ProseMirror node. A block quote holds a single paragraph.
#[derive(Debug, Clone)]
pub enum Block {
    Heading { level: u8, content: Vec<Inline> },
    Paragraph { content: Vec<Inline> },
    Blockquote { content: Vec<Inline> },
    CaptionedImage { src: String, alt: String },
}

/// The value of a mark.
pub enum MarkValue {
    Bold,
    Italic,
    Link(Seq<char>),
}

/// The value of an inline node.
pub enum InlineValue {
    Text(Seq<char>, Seq<MarkValue>),
    HardBreak,
}

/// The value of a block.
pub enum BlockValue {
    Heading(u8, Seq<InlineValue>),
    Paragraph(Seq<InlineValue>),
    Blockquote(Seq<InlineValue>),
    CaptionedImage { src: Seq<char>, alt: Seq<char> },
}

impl View for Mark {
    type V = MarkValue;

    open spec fn view(&self) -> MarkValue {
        match self {
            Mark::Bold => MarkValue::Bold,
            Mark::Italic => MarkValue::Italic,
            Mark::Link { href } => MarkValue::Link(href@),
        }
    }
}

pub open spec fn marks_view(m: Seq<Mark>) -> Seq<MarkValue> {
    m.map_values(|x: Mark| x@)
}

impl View for Inline {
    type V = InlineValue;

    open spec fn view(&self) -> InlineValue {
        match self {
            Inline::Text { text, marks } => InlineValue::Text(text@, marks_view(marks@)),
            Inline::HardBreak => InlineValue::HardBreak,
        }
    }
}

pub open spec fn inlines_view(v: Seq<Inline>) -> Seq<InlineValue> {
    v.map_values(|x: Inline| x@)
}

impl View for Block {
    type V = BlockValue;

    open spec fn view(&self) -> BlockValue {
        match self {
            Block::Heading { level, content } => BlockValue::Heading(
                *level,
                inlines_view(content@),
            ),
            Block::Paragraph { content } => BlockValue::Paragraph(inlines_view(content@)),
            Block::Blockquote { content } => BlockValue::Blockquote(inlines_view(content@)),
            Block::CaptionedImage { src, alt } => BlockValue::CaptionedImage {
                src: src@,
                alt: alt@,
            },
        }
    }
}

pub open spec fn blocks_view(v: Seq<Block>) -> Seq<BlockValue> {
    v.map_values(|x: Block| x@)
}

// ── Links, images and emphasis at a position ───────────────────────

/// `[label](href)` starting at position `p` of `s`: the label, the target and
/// the number of characters it spans. The label holds no newline and no `[`;
/// the target is everything up to the first `)` and holds no newline.
pub open spec fn link_at(s: Seq<char>, p: int) -> Option<(Seq<char>, Seq<char>, int)> {
    if p < 0 || p >= s.len() || s[p] != '[' {
        None
    } else {
        match find_from(s, seq![']', '('], p + 1) {
            None => None,
            Some(k) => {
                let label = s.subrange(p + 1, k);
                if label.contains('\n') || label.contains('[') {
                    None
                } else {
                    match find_from(s, seq![')'], k + 2) {
                        None => None,
                        Some(h) => {
                            let href = s.subrange(k + 2, h);
                            if href.contains('\n') {
                                None
                            } else {
                                Some((label, href, h + 1 - p))
                            }
                        },
                    }
                }
            },
        }
    }
}

/// `![alt](src)` starting at position `p` of `s`, with the same rules as a
/// link: the alt text, the source and the number of characters it spans.
pub open spec fn image_at(s: Seq<char>, p: int) -> Option<(Seq<char>, Seq<char>, int)> {
    if p < 0 || p + 1 >= s.len() || s[p] != '!' || s[p + 1] != '[' {
        None
    } else {
        match find_from(s, seq![']', '('], p + 2) {
            None => None,
            Some(k) => {
                let alt = s.subrange(p + 2, k);
                if alt.contains('\n') || alt.contains('[') {
                    None
                } else {
                    match find_from(s, seq![')'], k + 2) {
                        None => None,
                        Some(h) => {
                            let src = s.subrange(k + 2, h);
                            if src.contains('\n') {
                                None
                            } else {
                                Some((alt, src, h + 1 - p))
                            }
                        },
                    }
                }
            },
        }
    }
}

/// The number of consecutive `*` starting at `i`.
pub open spec fn star_count(s: Seq<char>, i: int) -> nat
    decreases s.len() - i,
{
    if 0 <= i < s.len() && s[i] == '*' {
        1 + star_count(s, i + 1)
    } else {
        0
    }
}

/// `n` asterisks.
pub open spec fn stars(n: nat) -> Seq<char> {
    Seq::new(n, |i: int| '*')
}

/// Emphasis at `p`: a run of `n` asterisks, the text up to the next run of `n`
/// asterisks, and that closing run. Gives the inner text, `n`, and the span.
pub open spec fn emphasis_at(s: Seq<char>, p: int) -> Option<(Seq<char>, nat, int)> {
    if p < 0 || p >= s.len() || s[p] != '*' {
        None
    } else {
        let n = star_count(s, p);
        match find_from(s, stars(n), p + n) {
            None => None,
            Some(e) => Some((s.subrange(p + n, e), n, e + n - p)),
        }
    }
}

/// Marks of emphasis with `n` asterisks: two or more make bold, one or three
/// make italic.
pub open spec fn emphasis_marks(n: nat) -> Seq<MarkValue> {
    let bold = if n >= 2 {
        seq![MarkValue::Bold]
    } else {
        seq![]
    };
    if n == 1 || n == 3 {
        bold.push(MarkValue::Italic)
    } else {
        bold
    }
}

/// A run of asterisks lies within the text, and the run ends at a
/// character that is not an asterisk.
pub proof fn lemma_star_count(s: Seq<char>, i: int)
    requires
        0 <= i,
    ensures
        i + star_count(s, i) <= s.len() || star_count(s, i) == 0,
        forall|j: int| i <= j < i + star_count(s, i) ==> s[j] == '*',
        i + star_count(s, i) < s.len() ==> s[i + star_count(s, i)] != '*',
    decreases s.len() - i,
{
    if 0 <= i < s.len() && s[i] == '*' {
        lemma_star_count(s, i + 1);
    }
}

/// A link, image or emphasis found at `p` spans at least one character and
/// ends within the text.
pub proof fn lemma_link_at_span(s: Seq<char>, p: int)
    ensures
        link_at(s, p) matches Some((l, h, n)) ==> 0 < n && p + n <= s.len(),
        image_at(s, p) matches Some((l, h, n)) ==> 0 < n && p + n <= s.len(),
        emphasis_at(s, p) matches Some((t, k, n)) ==> 0 < n && p + n <= s.len() && k > 0,
{
    if 0 <= p {
        lemma_find_from(s, seq![']', '('], p + 1);
        lemma_find_from(s, seq![']', '('], p + 2);
        if let Some(k) = find_from(s, seq![']', '('], p + 1) {
            lemma_find_from(s, seq![')'], k + 2);
        }
        if let Some(k) = find_from(s, seq![']', '('], p + 2) {
            lemma_find_from(s, seq![')'], k + 2);
        }
        lemma_star_count(s, p);
        lemma_find_from(s, stars(star_count(s, p)), p + star_count(s, p));
    }
}

// ── Inline scanning ─────────────────────────────────────────────────

/// Pending plain text as a node, if any.
pub open spec fn flush(cur: Seq<char>) -> Seq<InlineValue> {
    if cur.len() == 0 {
        seq![]
    } else {
        seq![InlineValue::Text(cur, seq![])]
    }
}

/// Inline nodes of `s` from position `pos`, with `cur` as plain text pending:
/// a link becomes a text node with a link mark, emphasis a text node with its
/// marks, and any other character joins the pending plain text.
pub open spec fn inline_scan(s: Seq<char>, pos: int, cur: Seq<char>) -> Seq<InlineValue>
    decreases s.len() - pos,
{
    if pos < 0 || pos >= s.len() {
        flush(cur)
    } else {
        proof {
            lemma_link_at_span(s, pos);
        }
        match link_at(s, pos) {
            Some((label, href, n)) => flush(cur) + seq![
                InlineValue::Text(label, seq![MarkValue::Link(href)]),
            ] + inline_scan(s, pos + n, seq![]),
            None => match emphasis_at(s, pos) {
                Some((inner, k, n)) => flush(cur) + seq![
                    InlineValue::Text(inner, emphasis_marks(k)),
                ] + inline_scan(s, pos + n, seq![]),
                None => inline_scan(s, pos + 1, cur.push(s[pos])),
            },
        }
    }
}

/// The inline nodes of `s`; an empty text gives one empty text node.
pub open spec fn inline_nodes(s: Seq<char>) -> Seq<InlineValue> {
    let r = inline_scan(s, 0, seq![]);
    if r.len() == 0 {
        seq![InlineValue::Text(seq![], seq![])]
    } else {
        r
    }
}

/// The link at `pos`, as characters.
pub fn link_at_of(s: &Vec<char>, pos: usize) -> (r: Option<(Vec<char>, Vec<char>, usize)>)
    ensures
        r matches Some((l, h, n)) ==> link_at(s@, pos as int) == Some((l@, h@, n as int)),
        r is None ==> link_at(s@, pos as int) is None,
{
    if pos >= s.len() || s[pos] != '[' {
        return None;
    }
    let open = vec![']', '('];
    let close = vec![')'];
    assert(open@ =~= seq![']', '(']);
    assert(close@ =~= seq![')']);
    proof {
        lemma_find_from(s@, open@, pos + 1);
    }
    let k = match find_from_of(s, &open, pos + 1) {
        Some(k) => k,
        None => {
            return None;
        },
    };
    let label = slice_of(s, pos + 1, k);
    if contains_char(&label, '\n') || contains_char(&label, '[') {
        return None;
    }
    proof {
        lemma_find_from(s@, close@, k + 2);
    }
    let h = match find_from_of(s, &close, k + 2) {
        Some(h) => h,
        None => {
            return None;
        },
    };
    let href = slice_of(s, k + 2, h);
    if contains_char(&href, '\n') {
        return None;
    }
    Some((label, href, h + 1 - pos))
}

/// The image reference at `pos`, as characters.
pub fn image_at_of(s: &Vec<char>, pos: usize) -> (r: Option<(Vec<char>, Vec<char>, usize)>)
    ensures
        r matches Some((a, h, n)) ==> image_at(s@, pos as int) == Some((a@, h@, n as int)),
        r is None ==> image_at(s@, pos as int) is None,
{
    if pos >= s.len() || s.len() - pos < 2 || s[pos] != '!' || s[pos + 1] != '[' {
        return None;
    }
    let open = vec![']', '('];
    let close = vec![')'];
    assert(open@ =~= seq![']', '(']);
    assert(close@ =~= seq![')']);
    proof {
        lemma_find_from(s@, open@, pos + 2);
    }
    let k = match find_from_of(s, &open, pos + 2) {
        Some(k) => k,
        None => {
            return None;
        },
    };
    let alt = slice_of(s, pos + 2, k);
    if contains_char(&alt, '\n') || contains_char(&alt, '[') {
        return None;
    }
    proof {
        lemma_find_from(s@, close@, k + 2);
    }
    let h = match find_from_of(s, &close, k + 2) {
        Some(h) => h,
        None => {
            return None;
        },
    };
    let src = slice_of(s, k + 2, h);
    if contains_char(&src, '\n') {
        return None;
    }
    Some((alt, src, h + 1 - pos))
}

/// Emphasis at `pos`: inner text, number of asterisks, span.
pub fn emphasis_at_of(s: &Vec<char>, pos: usize) -> (r: Option<(Vec<char>, usize, usize)>)
    ensures
        r matches Some((t, k, n)) ==> emphasis_at(s@, pos as int) == Some(
            (t@, k as nat, n as int),
        ),
        r is None ==> emphasis_at(s@, pos as int) is None,
{
    if pos >= s.len() || s[pos] != '*' {
        return None;
    }
    let mut i = pos;
    while i < s.len() && s[i] == '*'
        invariant
            pos <= i <= s@.len(),
            star_count(s@, pos as int) == (i - pos) + star_count(s@, i as int),
        decreases s@.len() - i,
    {
        i = i + 1;
    }
    let n = i - pos;
    let mut pattern: Vec<char> = Vec::new();
    while pattern.len() < n
        invariant
            pattern@.len() <= n,
            forall|j: int| 0 <= j < pattern@.len() ==> pattern@[j] == '*',
        decreases n - pattern@.len(),
    {
        pattern.push('*');
    }
    assert(pattern@ =~= stars(n as nat));
    proof {
        lemma_find_from(s@, pattern@, i as int);
    }
    match find_from_of(s, &pattern, i) {
        None => None,
        Some(e) => {
            let inner = slice_of(s, i, e);
            Some((inner, n, e + n - pos))
        },
    }
}

fn emphasis_marks_of(n: usize) -> (r: Vec<Mark>)
    ensures
        marks_view(r@) == emphasis_marks(n as nat),
{
    let mut marks: Vec<Mark> = Vec::new();
    if n >= 2 {
        marks.push(Mark::Bold);
    }
    if n == 1 || n == 3 {
        marks.push(Mark::Italic);
    }
    assert(marks_view(marks@) =~= emphasis_marks(n as nat));
    marks
}

fn flush_of(nodes: &mut Vec<Inline>, cur: &mut Vec<char>)
    ensures
        inlines_view(final(nodes)@) == inlines_view(old(nodes)@) + flush(old(cur)@),
        final(cur)@.len() == 0,
{
    if cur.len() > 0 {
        let text = string_of(cur);
        let ghost before = nodes@;
        let marks: Vec<Mark> = Vec::new();
        assert(marks_view(marks@) =~= seq![]);
        nodes.push(Inline::Text { text, marks });
        assert(inlines_view(nodes@) =~= inlines_view(before) + flush(old(cur)@));
        *cur = Vec::new();
    } else {
        assert(inlines_view(nodes@) =~= inlines_view(old(nodes)@) + flush(old(cur)@));
    }
}

/// The inline nodes of `s`.
pub fn inline_nodes_of(s: &Vec<char>) -> (r: Vec<Inline>)
    ensures
        inlines_view(r@) == inline_nodes(s@),
{
    let mut nodes: Vec<Inline> = Vec::new();
    let mut cur: Vec<char> = Vec::new();
    let mut pos: usize = 0;
    assert(inlines_view(nodes@) =~= seq![]);
    while pos < s.len()
        invariant
            pos <= s@.len(),
            inlines_view(nodes@) + inline_scan(s@, pos as int, cur@) == inline_scan(
                s@,
                0,
                seq![],
            ),
        decreases s@.len() - pos,
    {
        proof {
            lemma_link_at_span(s@, pos as int);
        }
        let ghost nodes0 = inlines_view(nodes@);
        let ghost cur0 = cur@;
        match link_at_of(s, pos) {
            Some((label, href, n)) => {
                flush_of(&mut nodes, &mut cur);
                assert(cur@ =~= seq![]);
                let text = string_of(&label);
                let href = string_of(&href);
                let mut marks: Vec<Mark> = Vec::new();
                marks.push(Mark::Link { href });
                let ghost nodes1 = nodes@;
                nodes.push(Inline::Text { text, marks });
                assert(marks_view(marks@) =~= seq![MarkValue::Link(href@)]);
                assert(inlines_view(nodes@) =~= inlines_view(nodes1).push(
                    InlineValue::Text(label@, seq![MarkValue::Link(href@)]),
                ));
                assert(inlines_view(nodes@) + inline_scan(s@, pos + n, cur@) =~= nodes0
                    + inline_scan(s@, pos as int, cur0));
                pos = pos + n;
                continue ;
            },
            None => {},
        }
        match emphasis_at_of(s, pos) {
            Some((inner, k, n)) => {
                flush_of(&mut nodes, &mut cur);
                assert(cur@ =~= seq![]);
                let text = string_of(&inner);
                let marks = emphasis_marks_of(k);
                let ghost nodes1 = nodes@;
                nodes.push(Inline::Text { text, marks });
                assert(inlines_view(nodes@) =~= inlines_view(nodes1).push(
                    InlineValue::Text(inner@, emphasis_marks(k as nat)),
                ));
                assert(inlines_view(nodes@) + inline_scan(s@, pos + n, cur@) =~= nodes0
                    + inline_scan(s@, pos as int, cur0));
                pos = pos + n;
            },
            None => {
                cur.push(s[pos]);
                pos = pos + 1;
            },
        }
    }
    flush_of(&mut nodes, &mut cur);
    if nodes.len() == 0 {
        let marks: Vec<Mark> = Vec::new();
        assert(marks_view(marks@) =~= seq![]);
        nodes.push(Inline::Text { text: String::new(), marks });
        assert(inlines_view(nodes@) =~= seq![InlineValue::Text(seq![], seq![])]);
    }
    nodes
}


// ── Copies ──────────────────────────────────────────────────────────

fn copy_string(s: &String) -> (r: String)
    ensures
        r@ == s@,
{
    s.clone()
}

fn copy_mark(m: &Mark) -> (r: Mark)
    ensures
        r@ == m@,
{
    match m {
        Mark::Bold => Mark::Bold,
        Mark::Italic => Mark::Italic,
        Mark::Link { href } => Mark::Link { href: copy_string(href) },
    }
}

fn copy_marks(m: &Vec<Mark>) -> (r: Vec<Mark>)
    ensures
        marks_view(r@) == marks_view(m@),
{
    let mut out: Vec<Mark> = Vec::new();
    let mut i: usize = 0;
    while i < m.len()
        invariant
            i <= m@.len(),
            out@.len() == i,
            forall|k: int| 0 <= k < i ==> #[trigger] out@[k]@ == m@[k]@,
        decreases m@.len() - i,
    {
        out.push(copy_mark(&m[i]));
        i = i + 1;
    }
    assert(marks_view(out@) =~= marks_view(m@));
    out
}

// ── Block quotes and paragraphs ─────────────────────────────────────

/// Leading `>` markers, each with the whitespace after it, removed.
pub open spec fn strip_markers(r: Seq<char>) -> Seq<char>
    decreases r.len(),
{
    if r.len() > 0 && r[0] == '>' {
        proof {
            lemma_trim_start_len(r.drop_first());
        }
        strip_markers(trim_start(r.drop_first()))
    } else {
        r
    }
}

/// A block-quote line without its leading whitespace and `>` markers.
pub open spec fn strip_blockquote_marker(line: Seq<char>) -> Seq<char> {
    strip_markers(trim_start(line))
}

/// A line with one trailing backslash removed.
pub open spec fn strip_backslash(l: Seq<char>) -> Seq<char> {
    if l.len() > 0 && l.last() == '\\' {
        l.drop_last()
    } else {
        l
    }
}

pub open spec fn ends_with_backslash(l: Seq<char>) -> bool {
    l.len() > 0 && l.last() == '\\'
}

/// A hard break after every line but the last.
pub open spec fn break_after(ls: Seq<Seq<char>>, i: int) -> Seq<InlineValue> {
    if i < ls.len() - 1 {
        seq![InlineValue::HardBreak]
    } else {
        seq![]
    }
}

/// Content of a paragraph with hard breaks, over its first `n` lines.
pub open spec fn breaks_content(ls: Seq<Seq<char>>, n: int) -> Seq<InlineValue>
    decreases n,
{
    if n <= 0 {
        seq![]
    } else {
        breaks_content(ls, n - 1) + inline_nodes(trim(strip_backslash(ls[n - 1]))) + break_after(
            ls,
            n - 1,
        )
    }
}

/// A paragraph: when a line ends with a backslash, each line is its own run
/// of inline nodes separated by hard breaks; otherwise the lines are joined
/// with spaces.
pub open spec fn paragraph_value(b: Seq<char>) -> BlockValue {
    let ls = lines(b);
    if exists|i: int| 0 <= i < ls.len() && ends_with_backslash(#[trigger] ls[i]) {
        BlockValue::Paragraph(breaks_content(ls, ls.len() as int))
    } else {
        BlockValue::Paragraph(inline_nodes(newlines_to_spaces(b)))
    }
}

/// Content of a block quote over its first `n` lines; empty lines give only
/// their hard break.
pub open spec fn quote_content(ls: Seq<Seq<char>>, n: int) -> Seq<InlineValue>
    decreases n,
{
    if n <= 0 {
        seq![]
    } else {
        let l = trim(strip_backslash(ls[n - 1]));
        quote_content(ls, n - 1) + (if l.len() > 0 {
            inline_nodes(l)
        } else {
            seq![]
        }) + break_after(ls, n - 1)
    }
}

/// A block quote: its lines without markers, separated by hard breaks.
pub open spec fn blockquote_value(b: Seq<char>) -> BlockValue {
    let ls = lines(b).map_values(|l: Seq<char>| strip_blockquote_marker(l));
    BlockValue::Blockquote(quote_content(ls, ls.len() as int))
}

fn strip_blockquote_marker_of(line: &Vec<char>) -> (r: Vec<char>)
    ensures
        r@ == strip_blockquote_marker(line@),
{
    let mut rest = trim_start_of(line);
    while rest.len() > 0 && rest[0] == '>'
        invariant
            strip_markers(rest@) == strip_blockquote_marker(line@),
        decreases rest@.len(),
    {
        let tail = slice_of(&rest, 1, rest.len());
        assert(tail@ =~= rest@.drop_first());
        proof {
            lemma_trim_start_len(tail@);
        }
        rest = trim_start_of(&tail);
    }
    rest
}

fn strip_backslash_of(l: &Vec<char>) -> (r: Vec<char>)
    ensures
        r@ == strip_backslash(l@),
{
    if l.len() > 0 && l[l.len() - 1] == '\\' {
        let r = slice_of(l, 0, l.len() - 1);
        assert(r@ =~= l@.drop_last());
        r
    } else {
        let r = slice_of(l, 0, l.len());
        assert(r@ =~= l@);
        r
    }
}

fn append_inlines(out: &mut Vec<Inline>, extra: Vec<Inline>)
    ensures
        inlines_view(final(out)@) == inlines_view(old(out)@) + inlines_view(extra@),
{
    let mut extra = extra;
    let ghost e = extra@;
    let ghost o = out@;
    out.append(&mut extra);
    assert(inlines_view(out@) =~= inlines_view(o) + inlines_view(e));
}

fn push_hard_break_unless_last(out: &mut Vec<Inline>, ls: &Vec<Vec<char>>, i: usize)
    requires
        i < ls@.len(),
    ensures
        inlines_view(final(out)@) == inlines_view(old(out)@) + break_after(views(ls@), i as int),
{
    if i < ls.len() - 1 {
        out.push(Inline::HardBreak);
        assert(inlines_view(out@) =~= inlines_view(old(out)@) + break_after(
            views(ls@),
            i as int,
        ));
    } else {
        assert(inlines_view(out@) =~= inlines_view(old(out)@) + break_after(
            views(ls@),
            i as int,
        ));
    }
}

/// The paragraph node of a block.
pub fn paragraph_of(b: &Vec<char>) -> (r: Block)
    ensures
        r@ == paragraph_value(b@),
{
    let ls = lines_of(b);
    let ghost lv = views(ls@);
    let mut has_breaks = false;
    let mut i: usize = 0;
    while i < ls.len()
        invariant
            i <= ls@.len(),
            lv == views(ls@),
            has_breaks <==> exists|j: int| 0 <= j < i && ends_with_backslash(#[trigger] lv[j]),
        decreases ls@.len() - i,
    {
        let l = &ls[i];
        if l.len() > 0 && l[l.len() - 1] == '\\' {
            has_breaks = true;
            assert(ends_with_backslash(lv[i as int]));
        }
        i = i + 1;
    }
    if has_breaks {
        let mut content: Vec<Inline> = Vec::new();
        let mut i: usize = 0;
        assert(inlines_view(content@) =~= breaks_content(lv, 0));
        while i < ls.len()
            invariant
                i <= ls@.len(),
                lv == views(ls@),
                inlines_view(content@) == breaks_content(lv, i as int),
            decreases ls@.len() - i,
        {
            let line = strip_backslash_of(&ls[i]);
            let line = trim_of(&line);
            let nodes = inline_nodes_of(&line);
            append_inlines(&mut content, nodes);
            push_hard_break_unless_last(&mut content, &ls, i);
            i = i + 1;
        }
        Block::Paragraph { content }
    } else {
        let joined = newlines_to_spaces_of(b);
        Block::Paragraph { content: inline_nodes_of(&joined) }
    }
}

/// The block-quote node of a block.
pub fn blockquote_of(b: &Vec<char>) -> (r: Block)
    ensures
        r@ == blockquote_value(b@),
{
    let raw = lines_of(b);
    let mut ls: Vec<Vec<char>> = Vec::new();
    let mut i: usize = 0;
    while i < raw.len()
        invariant
            i <= raw@.len(),
            ls@.len() == i,
            forall|k: int| 0 <= k < i ==> #[trigger] ls@[k]@ == strip_blockquote_marker(raw@[k]@),
        decreases raw@.len() - i,
    {
        ls.push(strip_blockquote_marker_of(&raw[i]));
        i = i + 1;
    }
    assert(views(ls@) =~= views(raw@).map_values(|l: Seq<char>| strip_blockquote_marker(l)));
    let ghost lv = views(ls@);
    let mut content: Vec<Inline> = Vec::new();
    let mut i: usize = 0;
    assert(inlines_view(content@) =~= quote_content(lv, 0));
    while i < ls.len()
        invariant
            i <= ls@.len(),
            lv == views(ls@),
            inlines_view(content@) == quote_content(lv, i as int),
        decreases ls@.len() - i,
    {
        let line = strip_backslash_of(&ls[i]);
        let line = trim_of(&line);
        if line.len() > 0 {
            let nodes = inline_nodes_of(&line);
            append_inlines(&mut content, nodes);
        } else {
            assert(inlines_view(content@) =~= inlines_view(content@) + seq![]);
        }
        push_hard_break_unless_last(&mut content, &ls, i);
        i = i + 1;
    }
    Block::Blockquote { content }
}


// ── Pipe tables ─────────────────────────────────────────────────────

/// A table line without surrounding whitespace and outer pipes.
pub open spec fn row_inner(line: Seq<char>) -> Seq<char> {
    trim_end_char(trim_start_char(trim(line), '|'), '|')
}

/// The trimmed cells of a table line.
pub open spec fn parse_table_row(line: Seq<char>) -> Seq<Seq<char>> {
    split(row_inner(line), seq!['|']).map_values(|c: Seq<char>| trim(c))
}

/// A separator cell: non-empty, made of `-`, `:` and spaces, with a `-`.
pub open spec fn separator_cell(c: Seq<char>) -> bool {
    &&& c.len() > 0
    &&& forall|i: int| 0 <= i < c.len() ==> (c[i] == '-' || c[i] == ':' || c[i] == ' ')
    &&& c.contains('-')
}

/// A table separator line such as `|---|:-:|`.
pub open spec fn is_separator_row(line: Seq<char>) -> bool {
    let t = trim(line);
    let cells = split(row_inner(line), seq!['|']);
    &&& t.len() > 0 && t[0] == '|'
    &&& row_inner(line).len() > 0
    &&& forall|i: int| 0 <= i < cells.len() ==> separator_cell(trim(#[trigger] cells[i]))
}

/// `cells` cut or padded with empty cells to exactly `w` cells.
pub open spec fn pad_or_truncate(cells: Seq<Seq<char>>, w: nat) -> Seq<Seq<char>> {
    if cells.len() > w {
        cells.take(w as int)
    } else {
        cells + empty_cells((w - cells.len()) as nat)
    }
}

/// `n` empty cells.
pub open spec fn empty_cells(n: nat) -> Seq<Seq<char>> {
    Seq::new(n, |i: int| Seq::<char>::empty())
}

/// A line whose first non-blank character is a pipe.
pub open spec fn pipe_led(l: Seq<char>) -> bool {
    trim_start(l).len() > 0 && trim_start(l)[0] == '|'
}

/// Body rows among the first `n` lines (the lines after the separator).
pub open spec fn table_rows(ls: Seq<Seq<char>>, n: int, w: nat) -> Seq<Seq<Seq<char>>>
    decreases n,
{
    if n <= 2 {
        seq![]
    } else {
        let prev = table_rows(ls, n - 1, w);
        let cells = parse_table_row(ls[n - 1]);
        if cells.len() == 0 {
            prev
        } else {
            prev.push(pad_or_truncate(cells, w))
        }
    }
}

/// A pipe table: at least two lines, all led by a pipe, the second a
/// separator; gives the header cells and the body rows, each with as many
/// cells as the header.
pub open spec fn table_of(b: Seq<char>) -> Option<(Seq<Seq<char>>, Seq<Seq<Seq<char>>>)> {
    let ls = lines(b);
    if ls.len() < 2 {
        None
    } else if !(forall|i: int| 0 <= i < ls.len() ==> pipe_led(#[trigger] ls[i])) {
        None
    } else if !is_separator_row(ls[1]) {
        None
    } else {
        let h = parse_table_row(ls[0]);
        if h.len() == 0 {
            None
        } else {
            Some((h, table_rows(ls, ls.len() as int, h.len())))
        }
    }
}

/// A text node with a bold mark added when it has none.
pub open spec fn add_bold(x: InlineValue) -> InlineValue {
    match x {
        InlineValue::Text(t, m) => InlineValue::Text(
            t,
            if m.contains(MarkValue::Bold) {
                m
            } else {
                m.push(MarkValue::Bold)
            },
        ),
        InlineValue::HardBreak => InlineValue::HardBreak,
    }
}

pub open spec fn embolden(nodes: Seq<InlineValue>, bold: bool) -> Seq<InlineValue> {
    if bold {
        nodes.map_values(|x: InlineValue| add_bold(x))
    } else {
        nodes
    }
}

pub open spec fn cell_separator() -> Seq<char> {
    seq![' ', '|', ' ']
}

/// The first `n` cells of a row as inline nodes, separated by ` | `.
pub open spec fn cells_content(cells: Seq<Seq<char>>, n: int, bold: bool) -> Seq<InlineValue>
    decreases n,
{
    if n <= 0 {
        seq![]
    } else {
        cells_content(cells, n - 1, bold) + (if n - 1 > 0 {
            seq![InlineValue::Text(cell_separator(), seq![])]
        } else {
            seq![]
        }) + embolden(inline_nodes(cells[n - 1]), bold)
    }
}

/// The paragraphs a table becomes: the header row in bold, then each row.
pub open spec fn table_blocks(h: Seq<Seq<char>>, rows: Seq<Seq<Seq<char>>>) -> Seq<BlockValue> {
    seq![BlockValue::Paragraph(cells_content(h, h.len() as int, true))] + rows.map_values(
        |r: Seq<Seq<char>>| BlockValue::Paragraph(cells_content(r, r.len() as int, false)),
    )
}

pub open spec fn rows_views(r: Seq<Vec<Vec<char>>>) -> Seq<Seq<Seq<char>>> {
    r.map_values(|x: Vec<Vec<char>>| views(x@))
}

fn row_inner_of(line: &Vec<char>) -> (r: Vec<char>)
    ensures
        r@ == row_inner(line@),
{
    let t = trim_of(line);
    let t = trim_start_char_of(&t, '|');
    trim_end_char_of(&t, '|')
}

/// The trimmed cells of a table line.
pub fn parse_table_row_of(line: &Vec<char>) -> (r: Vec<Vec<char>>)
    ensures
        views(r@) == parse_table_row(line@),
{
    let inner = row_inner_of(line);
    let bar = vec!['|'];
    assert(bar@ =~= seq!['|']);
    let pieces = split_of(&inner, &bar);
    let mut out: Vec<Vec<char>> = Vec::new();
    let mut i: usize = 0;
    while i < pieces.len()
        invariant
            i <= pieces@.len(),
            out@.len() == i,
            forall|k: int| 0 <= k < i ==> #[trigger] out@[k]@ == trim(pieces@[k]@),
        decreases pieces@.len() - i,
    {
        out.push(trim_of(&pieces[i]));
        i = i + 1;
    }
    assert(views(out@) =~= views(pieces@).map_values(|c: Seq<char>| trim(c)));
    out
}

fn separator_cell_of(c: &Vec<char>) -> (r: bool)
    ensures
        r == separator_cell(c@),
{
    if c.len() == 0 {
        return false;
    }
    let mut i: usize = 0;
    while i < c.len()
        invariant
            i <= c@.len(),
            forall|k: int| 0 <= k < i ==> (c@[k] == '-' || c@[k] == ':' || c@[k] == ' '),
        decreases c@.len() - i,
    {
        let ch = c[i];
        if !(ch == '-' || ch == ':' || ch == ' ') {
            return false;
        }
        i = i + 1;
    }
    contains_char(c, '-')
}

/// Whether a line is a table separator line.
pub fn is_separator_row_of(line: &Vec<char>) -> (r: bool)
    ensures
        r == is_separator_row(line@),
{
    let t = trim_of(line);
    if t.len() == 0 || t[0] != '|' {
        return false;
    }
    let inner = row_inner_of(line);
    if inner.len() == 0 {
        return false;
    }
    let bar = vec!['|'];
    assert(bar@ =~= seq!['|']);
    let cells = split_of(&inner, &bar);
    let mut i: usize = 0;
    while i < cells.len()
        invariant
            i <= cells@.len(),
            views(cells@) == split(row_inner(line@), seq!['|']),
            forall|k: int| 0 <= k < i ==> separator_cell(trim(#[trigger] views(cells@)[k])),
        decreases cells@.len() - i,
    {
        let c = trim_of(&cells[i]);
        if !separator_cell_of(&c) {
            assert(!separator_cell(trim(views(cells@)[i as int])));
            return false;
        }
        i = i + 1;
    }
    true
}

/// `cells` cut or padded to `w` cells.
pub fn pad_or_truncate_of(cells: Vec<Vec<char>>, w: usize) -> (r: Vec<Vec<char>>)
    ensures
        views(r@) == pad_or_truncate(views(cells@), w as nat),
{
    let mut cells = cells;
    if cells.len() > w {
        let ghost before = cells@;
        cells.truncate(w);
        assert(views(cells@) =~= views(before).take(w as int));
        cells
    } else {
        let ghost before = views(cells@);
        assert(views(cells@) =~= before + empty_cells(0));
        while cells.len() < w
            invariant
                before.len() <= cells@.len() <= w,
                views(cells@) == before + empty_cells((cells@.len() - before.len()) as nat),
            decreases w - cells@.len(),
        {
            let ghost prev = views(cells@);
            let empty: Vec<char> = Vec::new();
            assert(empty@ =~= Seq::<char>::empty());
            cells.push(empty);
            assert(views(cells@) =~= prev.push(Seq::<char>::empty()));
            assert(prev.push(Seq::<char>::empty()) =~= before + empty_cells(
                (cells@.len() - before.len()) as nat,
            ));
        }
        cells
    }
}

fn pipe_led_of(l: &Vec<char>) -> (r: bool)
    ensures
        r == pipe_led(l@),
{
    let t = trim_start_of(l);
    t.len() > 0 && t[0] == '|'
}

/// The header cells and body rows of a pipe table, if the block is one.
pub fn table_of_chars(b: &Vec<char>) -> (r: Option<(Vec<Vec<char>>, Vec<Vec<Vec<char>>>)>)
    ensures
        r matches Some((h, rows)) ==> table_of(b@) == Some((views(h@), rows_views(rows@))),
        r is None ==> table_of(b@) is None,
{
    let ls = lines_of(b);
    let ghost lv = views(ls@);
    if ls.len() < 2 {
        return None;
    }
    let mut i: usize = 0;
    while i < ls.len()
        invariant
            i <= ls@.len(),
            lv == views(ls@),
            lv == lines(b@),
            forall|k: int| 0 <= k < i ==> pipe_led(#[trigger] lv[k]),
        decreases ls@.len() - i,
    {
        if !pipe_led_of(&ls[i]) {
            assert(!pipe_led(lv[i as int]));
            return None;
        }
        i = i + 1;
    }
    if !is_separator_row_of(&ls[1]) {
        return None;
    }
    let header = parse_table_row_of(&ls[0]);
    let width = header.len();
    if width == 0 {
        return None;
    }
    let mut rows: Vec<Vec<Vec<char>>> = Vec::new();
    let mut i: usize = 2;
    assert(rows_views(rows@) =~= table_rows(lv, 2, width as nat));
    while i < ls.len()
        invariant
            2 <= i <= ls@.len(),
            lv == views(ls@),
            rows_views(rows@) == table_rows(lv, i as int, width as nat),
        decreases ls@.len() - i,
    {
        let cells = parse_table_row_of(&ls[i]);
        if cells.len() > 0 {
            let padded = pad_or_truncate_of(cells, width);
            let ghost prev = rows@;
            rows.push(padded);
            assert(rows_views(rows@) =~= rows_views(prev).push(views(padded@)));
        }
        i = i + 1;
    }
    Some((header, rows))
}

fn add_bold_of(x: &Inline) -> (r: Inline)
    ensures
        r@ == add_bold(x@),
{
    match x {
        Inline::Text { text, marks } => {
            let mut has_bold = false;
            let mut i: usize = 0;
            while i < marks.len()
                invariant
                    i <= marks@.len(),
                    has_bold <==> exists|k: int| 0 <= k < i && marks@[k]@ == MarkValue::Bold,
                decreases marks@.len() - i,
            {
                match &marks[i] {
                    Mark::Bold => {
                        has_bold = true;
                    },
                    _ => {},
                }
                i = i + 1;
            }
            let mut m = copy_marks(marks);
            proof {
                if has_bold {
                    let k = choose|k: int| 0 <= k < marks@.len() && marks@[k]@ == MarkValue::Bold;
                    assert(marks_view(marks@)[k] == MarkValue::Bold);
                } else {
                    assert forall|k: int| 0 <= k < marks@.len() implies marks_view(marks@)[k]
                        != MarkValue::Bold by {}
                }
            }
            if !has_bold {
                let ghost before = m@;
                m.push(Mark::Bold);
                assert(marks_view(m@) =~= marks_view(before).push(MarkValue::Bold));
            }
            Inline::Text { text: copy_string(text), marks: m }
        },
        Inline::HardBreak => Inline::HardBreak,
    }
}

fn embolden_of(nodes: Vec<Inline>, bold: bool) -> (r: Vec<Inline>)
    ensures
        inlines_view(r@) == embolden(inlines_view(nodes@), bold),
{
    if !bold {
        return nodes;
    }
    let mut out: Vec<Inline> = Vec::new();
    let mut i: usize = 0;
    while i < nodes.len()
        invariant
            i <= nodes@.len(),
            out@.len() == i,
            forall|k: int| 0 <= k < i ==> #[trigger] out@[k]@ == add_bold(nodes@[k]@),
        decreases nodes@.len() - i,
    {
        out.push(add_bold_of(&nodes[i]));
        i = i + 1;
    }
    assert(inlines_view(out@) =~= inlines_view(nodes@).map_values(|x: InlineValue| add_bold(x)));
    out
}

fn cells_paragraph_of(cells: &Vec<Vec<char>>, bold: bool) -> (r: Block)
    ensures
        r@ == BlockValue::Paragraph(cells_content(views(cells@), cells@.len() as int, bold)),
{
    let ghost cv = views(cells@);
    let mut content: Vec<Inline> = Vec::new();
    let mut i: usize = 0;
    assert(inlines_view(content@) =~= cells_content(cv, 0, bold));
    while i < cells.len()
        invariant
            i <= cells@.len(),
            cv == views(cells@),
            inlines_view(content@) == cells_content(cv, i as int, bold),
        decreases cells@.len() - i,
    {
        let ghost before = inlines_view(content@);
        if i > 0 {
            let sep = vec![' ', '|', ' '];
            assert(sep@ =~= cell_separator());
            let marks: Vec<Mark> = Vec::new();
            assert(marks_view(marks@) =~= seq![]);
            content.push(Inline::Text { text: string_of(&sep), marks });
        }
        assert(inlines_view(content@) =~= before + (if i > 0 {
            seq![InlineValue::Text(cell_separator(), seq![])]
        } else {
            seq![]
        }));
        let nodes = embolden_of(inline_nodes_of(&cells[i]), bold);
        append_inlines(&mut content, nodes);
        i = i + 1;
    }
    Block::Paragraph { content }
}

fn append_blocks(out: &mut Vec<Block>, extra: Vec<Block>)
    ensures
        blocks_view(final(out)@) == blocks_view(old(out)@) + blocks_view(extra@),
{
    let mut extra = extra;
    let ghost e = extra@;
    let ghost o = out@;
    out.append(&mut extra);
    assert(blocks_view(out@) =~= blocks_view(o) + blocks_view(e));
}

/// The paragraphs a table becomes.
pub fn table_blocks_of(h: &Vec<Vec<char>>, rows: &Vec<Vec<Vec<char>>>) -> (r: Vec<Block>)
    ensures
        blocks_view(r@) == table_blocks(views(h@), rows_views(rows@)),
{
    let mut out: Vec<Block> = Vec::new();
    out.push(cells_paragraph_of(h, true));
    let mut i: usize = 0;
    while i < rows.len()
        invariant
            i <= rows@.len(),
            out@.len() == i + 1,
            out@[0]@ == BlockValue::Paragraph(
                cells_content(views(h@), h@.len() as int, true),
            ),
            forall|k: int|
                0 <= k < i ==> #[trigger] out@[k + 1]@ == BlockValue::Paragraph(
                    cells_content(views(rows@[k]@), rows@[k]@.len() as int, false),
                ),
        decreases rows@.len() - i,
    {
        out.push(cells_paragraph_of(&rows[i], false));
        i = i + 1;
    }
    let ghost t = table_blocks(views(h@), rows_views(rows@));
    assert forall|k: int| 0 <= k < out@.len() implies blocks_view(out@)[k] == t[k] by {
        if k > 0 {
            assert(out@[(k - 1) + 1]@ == BlockValue::Paragraph(
                cells_content(views(rows@[k - 1]@), rows@[k - 1]@.len() as int, false),
            ));
        }
    }
    assert(blocks_view(out@) =~= t);
    out
}


// ── Blocks and documents ────────────────────────────────────────────

/// A block that is exactly one image reference: its alt text and source.
pub open spec fn image_block(b: Seq<char>) -> Option<(Seq<char>, Seq<char>)> {
    let t = trim(b);
    match image_at(t, 0) {
        Some((alt, src, n)) => if n == t.len() {
            Some((alt, src))
        } else {
            None
        },
        None => None,
    }
}

pub open spec fn h2_prefix() -> Seq<char> {
    seq!['#', '#', ' ']
}

pub open spec fn h3_prefix() -> Seq<char> {
    seq!['#', '#', '#', ' ']
}

pub open spec fn quote_prefix() -> Seq<char> {
    seq!['>', ' ']
}

/// The nodes of one trimmed, non-empty block: a `## ` or `### ` heading, a
/// `> ` block quote, a lone image, a pipe table, or a paragraph.
pub open spec fn block_value(b: Seq<char>) -> Seq<BlockValue> {
    if starts_with(b, h2_prefix()) {
        seq![BlockValue::Heading(2, inline_nodes(trim(b.skip(3))))]
    } else if starts_with(b, h3_prefix()) {
        seq![BlockValue::Heading(3, inline_nodes(trim(b.skip(4))))]
    } else if starts_with(b, quote_prefix()) {
        seq![blockquote_value(b)]
    } else {
        match image_block(b) {
            Some((alt, src)) => seq![BlockValue::CaptionedImage { src, alt }],
            None => match table_of(b) {
                Some((h, rows)) => table_blocks(h, rows),
                None => seq![paragraph_value(b)],
            },
        }
    }
}

/// The nodes of the first `n` blocks; blank blocks give none.
pub open spec fn doc_blocks(pieces: Seq<Seq<char>>, n: int) -> Seq<BlockValue>
    decreases n,
{
    if n <= 0 {
        seq![]
    } else {
        let b = trim(pieces[n - 1]);
        doc_blocks(pieces, n - 1) + if b.len() == 0 {
            seq![]
        } else {
            block_value(b)
        }
    }
}

pub open spec fn block_separator() -> Seq<char> {
    seq!['\n', '\n']
}

/// The ProseMirror content of a Markdown text: its blocks are the pieces
/// between blank-line separators (`\n\n`).
pub open spec fn markdown_doc(s: Seq<char>) -> Seq<BlockValue> {
    let pieces = split(s, block_separator());
    doc_blocks(pieces, pieces.len() as int)
}

fn inline_heading(b: &Vec<char>, skip: usize, level: u8) -> (r: Block)
    requires
        skip <= b@.len(),
    ensures
        r@ == BlockValue::Heading(level, inline_nodes(trim(b@.skip(skip as int)))),
{
    let rest = slice_of(b, skip, b.len());
    let t = trim_of(&rest);
    Block::Heading { level, content: inline_nodes_of(&t) }
}

/// The nodes of one trimmed, non-empty block.
pub fn block_of(b: &Vec<char>) -> (r: Vec<Block>)
    ensures
        blocks_view(r@) == block_value(b@),
{
    let h2 = vec!['#', '#', ' '];
    let h3 = vec!['#', '#', '#', ' '];
    let quote = vec!['>', ' '];
    assert(h2@ =~= h2_prefix());
    assert(h3@ =~= h3_prefix());
    assert(quote@ =~= quote_prefix());
    let mut out: Vec<Block> = Vec::new();
    if starts_with_of(b, &h2) {
        out.push(inline_heading(b, 3, 2));
    } else if starts_with_of(b, &h3) {
        out.push(inline_heading(b, 4, 3));
    } else if starts_with_of(b, &quote) {
        out.push(blockquote_of(b));
    } else {
        let t = trim_of(b);
        let image = match image_at_of(&t, 0) {
            Some((alt, src, n)) => if n == t.len() {
                Some((alt, src))
            } else {
                None
            },
            None => None,
        };
        match image {
            Some((alt, src)) => {
                out.push(Block::CaptionedImage { src: string_of(&src), alt: string_of(&alt) });
            },
            None => match table_of_chars(b) {
                Some((h, rows)) => {
                    out = table_blocks_of(&h, &rows);
                },
                None => {
                    out.push(paragraph_of(b));
                },
            },
        }
    }
    assert(blocks_view(out@) =~= block_value(b@));
    out
}

/// The ProseMirror content of a Markdown text.
pub fn markdown_doc_of(s: &Vec<char>) -> (r: Vec<Block>)
    ensures
        blocks_view(r@) == markdown_doc(s@),
{
    let sep = vec!['\n', '\n'];
    assert(sep@ =~= block_separator());
    let pieces = split_of(s, &sep);
    let ghost pv = views(pieces@);
    let mut out: Vec<Block> = Vec::new();
    let mut i: usize = 0;
    assert(blocks_view(out@) =~= doc_blocks(pv, 0));
    while i < pieces.len()
        invariant
            i <= pieces@.len(),
            pv == views(pieces@),
            blocks_view(out@) == doc_blocks(pv, i as int),
        decreases pieces@.len() - i,
    {
        let b = trim_of(&pieces[i]);
        if b.len() > 0 {
            let nodes = block_of(&b);
            append_blocks(&mut out, nodes);
        } else {
            assert(blocks_view(out@) =~= blocks_view(out@) + seq![]);
        }
        i = i + 1;
    }
    out
}

// ── Frontmatter and headings ────────────────────────────────────────

pub open spec fn frontmatter_open_lf() -> Seq<char> {
    seq!['-', '-', '-', '\n']
}

pub open spec fn frontmatter_open_crlf() -> Seq<char> {
    seq!['-', '-', '-', '\r', '\n']
}

pub open spec fn frontmatter_close() -> Seq<char> {
    seq!['\n', '-', '-', '-']
}

/// Where the closing `\n---` of leading frontmatter starts, if the text opens
/// with `---` and a line ending and the delimiter is closed.
pub open spec fn frontmatter_end(t: Seq<char>) -> Option<int> {
    if starts_with(t, frontmatter_open_lf()) || starts_with(t, frontmatter_open_crlf()) {
        find_from(t, frontmatter_close(), 3)
    } else {
        None
    }
}

/// The frontmatter block closed at `e`: empty when the closing delimiter
/// directly follows the opening one (`---\n---`).
pub open spec fn frontmatter_text(t: Seq<char>, e: int) -> Seq<char> {
    if e < 4 {
        Seq::empty()
    } else {
        t.subrange(4, e)
    }
}

/// Leading frontmatter and the body after it (with leading whitespace
/// removed); without frontmatter, no frontmatter and the whole text.
pub open spec fn frontmatter_split(t: Seq<char>) -> (Option<Seq<char>>, Seq<char>) {
    match frontmatter_end(t) {
        Some(e) => (Some(frontmatter_text(t, e)), trim_start(t.skip(e + 4))),
        None => (None, t),
    }
}

/// The text of a `# ` heading line.
pub open spec fn heading_text(line: Seq<char>) -> Option<Seq<char>> {
    let l = trim(line);
    if starts_with(l, seq!['#', ' ']) {
        Some(trim(l.skip(2)))
    } else {
        None
    }
}

/// The first heading among the lines from `i` on.
pub open spec fn first_heading_from(ls: Seq<Seq<char>>, i: int) -> Option<Seq<char>>
    decreases ls.len() - i,
{
    if i < 0 || i >= ls.len() {
        None
    } else {
        match heading_text(ls[i]) {
            Some(h) => Some(h),
            None => first_heading_from(ls, i + 1),
        }
    }
}

/// The text of the first `# ` heading of a Markdown text.
pub open spec fn first_heading(t: Seq<char>) -> Option<Seq<char>> {
    first_heading_from(lines(t), 0)
}

/// The text without its first line when that line is the `# ` heading
/// `title` (and without one blank line after it); otherwise unchanged.
pub open spec fn without_leading_heading(t: Seq<char>, title: Seq<char>) -> Seq<char> {
    let ls = lines(t);
    if ls.len() > 0 && heading_text(ls[0]) == Some(title) {
        let rest = ls.drop_first();
        let rest = if rest.len() > 0 && trim(rest[0]).len() == 0 {
            rest.drop_first()
        } else {
            rest
        };
        join(rest, seq!['\n'])
    } else {
        t
    }
}

/// The value of a `key: value` line, without surrounding whitespace and
/// quotes, when it is not empty.
pub open spec fn field_value(line: Seq<char>, key: Seq<char>) -> Option<Seq<char>> {
    let p = key.push(':');
    if starts_with(line, p) {
        let v = trim_char(trim_char(trim(line.skip(p.len() as int)), '"'), '\'');
        if v.len() > 0 {
            Some(v)
        } else {
            None
        }
    } else {
        None
    }
}

/// The first non-empty value of `key` among the lines from `i` on.
pub open spec fn field_from(ls: Seq<Seq<char>>, key: Seq<char>, i: int) -> Option<Seq<char>>
    decreases ls.len() - i,
{
    if i < 0 || i >= ls.len() {
        None
    } else {
        match field_value(ls[i], key) {
            Some(v) => Some(v),
            None => field_from(ls, key, i + 1),
        }
    }
}

/// The value of `key` in a frontmatter block.
pub open spec fn frontmatter_field(fm: Seq<char>, key: Seq<char>) -> Option<Seq<char>> {
    field_from(lines(fm), key, 0)
}

fn heading_text_of(line: &Vec<char>) -> (r: Option<Vec<char>>)
    ensures
        r matches Some(h) ==> heading_text(line@) == Some(h@),
        r is None ==> heading_text(line@) is None,
{
    let l = trim_of(line);
    let p = vec!['#', ' '];
    assert(p@ =~= seq!['#', ' ']);
    if starts_with_of(&l, &p) {
        let rest = slice_of(&l, 2, l.len());
        Some(trim_of(&rest))
    } else {
        None
    }
}

/// Whether two character sequences are equal.
pub fn chars_eq(a: &Vec<char>, b: &Vec<char>) -> (r: bool)
    ensures
        r == (a@ == b@),
{
    if a.len() != b.len() {
        return false;
    }
    let mut i: usize = 0;
    while i < a.len()
        invariant
            i <= a@.len(),
            a@.len() == b@.len(),
            forall|k: int| 0 <= k < i ==> a@[k] == b@[k],
        decreases a@.len() - i,
    {
        if a[i] != b[i] {
            return false;
        }
        i = i + 1;
    }
    assert(a@ =~= b@);
    true
}

fn field_value_of(line: &Vec<char>, key: &Vec<char>) -> (r: Option<Vec<char>>)
    ensures
        r matches Some(v) ==> field_value(line@, key@) == Some(v@),
        r is None ==> field_value(line@, key@) is None,
{
    let mut p: Vec<char> = Vec::new();
    append_chars(&mut p, key);
    p.push(':');
    if !starts_with_of(line, &p) {
        return None;
    }
    let rest = slice_of(line, p.len(), line.len());
    let v = trim_of(&rest);
    let v = trim_char_of(&v, '"');
    let v = trim_char_of(&v, '\'');
    if v.len() > 0 {
        Some(v)
    } else {
        None
    }
}

fn trim_char_of(s: &Vec<char>, c: char) -> (r: Vec<char>)
    ensures
        r@ == trim_char(s@, c),
{
    let t = trim_start_char_of(s, c);
    trim_end_char_of(&t, c)
}


// ── Markdown text ───────────────────────────────────────────────────

/// Raw Markdown text.
#[derive(Debug, Clone)]
pub struct Markdown(String);

impl View for Markdown {
    type V = Seq<char>;

    closed spec fn view(&self) -> Seq<char> {
        self.0@
    }
}

impl From<String> for Markdown {
    fn from(text: String) -> (r: Self) {
        Markdown(text)
    }
}

impl vstd::std_specs::convert::FromSpecImpl<String> for Markdown {
    open spec fn obeys_from_spec() -> bool {
        true
    }

    open spec fn from_spec(v: String) -> Markdown {
        markdown_of(v)
    }
}

/// The Markdown text holding `v`.
pub closed spec fn markdown_of(v: String) -> Markdown {
    Markdown(v)
}

/// The Markdown made from a text holds that text.
pub broadcast proof fn lemma_markdown_of(v: String)
    ensures
        (#[trigger] markdown_of(v))@ == v@,
{
}

impl<'a> From<&'a str> for Markdown {
    fn from(text: &'a str) -> (r: Self)
        ensures
            r@ == text@,
    {
        Markdown(text.to_owned())
    }
}

/// Converting from `&str` has no spec-level definition: its own `ensures`
/// states the result's text.
impl<'a> vstd::std_specs::convert::FromSpecImpl<&'a str> for Markdown {
    open spec fn obeys_from_spec() -> bool {
        false
    }

    open spec fn from_spec(v: &'a str) -> Markdown {
        vstd::pervasive::arbitrary()
    }
}

impl Markdown {
    pub fn new(text: String) -> (r: Self)
        ensures
            r@ == text@,
    {
        Markdown(text)
    }

    pub fn from_text(text: &str) -> (r: Self)
        ensures
            r@ == text@,
    {
        Markdown(text.to_owned())
    }

    pub fn as_str(&self) -> (r: &str)
        ensures
            r@ == self@,
    {
        self.0.as_str()
    }

    /// Splits leading frontmatter (`---` lines) from the body; a delimiter
    /// closed right away (`---\n---`) gives an empty frontmatter block.
    pub fn split_frontmatter(self) -> (r: FrontmatterSplit)
        ensures
            r.frontmatter matches Some(f) ==> frontmatter_split(self@).0 == Some(f@),
            r.frontmatter is None ==> frontmatter_split(self@).0 is None,
            r.body@ == frontmatter_split(self@).1,
    {
        let t = chars_of(self.0.as_str());
        let lf = vec!['-', '-', '-', '\n'];
        let crlf = vec!['-', '-', '-', '\r', '\n'];
        let close = vec!['\n', '-', '-', '-'];
        assert(lf@ =~= frontmatter_open_lf());
        assert(crlf@ =~= frontmatter_open_crlf());
        assert(close@ =~= frontmatter_close());
        if starts_with_of(&t, &lf) || starts_with_of(&t, &crlf) {
            proof {
                lemma_find_from(t@, close@, 3);
            }
            match find_from_of(&t, &close, 3) {
                Some(e) => {
                    assert(e + 4 <= t.len());
                    let fm = if e < 4 {
                        Vec::new()
                    } else {
                        slice_of(&t, 4, e)
                    };
                    assert(fm@ =~= frontmatter_text(t@, e as int));
                    let rest = slice_of(&t, e + 4, t.len());
                    let body = trim_start_of(&rest);
                    return FrontmatterSplit {
                        frontmatter: Some(Frontmatter(string_of(&fm))),
                        body: Markdown(string_of(&body)),
                    };
                },
                None => {},
            }
        }
        FrontmatterSplit { frontmatter: None, body: self }
    }

    /// The text of the first `# ` heading.
    pub fn first_heading(&self) -> (r: Option<String>)
        ensures
            r matches Some(h) ==> first_heading(self@) == Some(h@),
            r is None ==> first_heading(self@) is None,
    {
        let t = chars_of(self.0.as_str());
        let ls = lines_of(&t);
        let ghost lv = views(ls@);
        let mut i: usize = 0;
        while i < ls.len()
            invariant
                i <= ls@.len(),
                lv == views(ls@),
                lv == lines(self@),
                first_heading_from(lv, 0) == first_heading_from(lv, i as int),
            decreases ls@.len() - i,
        {
            match heading_text_of(&ls[i]) {
                Some(h) => {
                    return Some(string_of(&h));
                },
                None => {},
            }
            i = i + 1;
        }
        None
    }

    /// The text without its leading `# title` heading line (and one blank
    /// line after it), when it starts with that heading.
    pub fn without_leading_heading(self, title: &str) -> (r: Self)
        ensures
            r@ == without_leading_heading(self@, title@),
    {
        let t = chars_of(self.0.as_str());
        let wanted = chars_of(title);
        let ls = lines_of(&t);
        if ls.len() > 0 {
            match heading_text_of(&ls[0]) {
                Some(h) => {
                    if chars_eq(&h, &wanted) {
                        let start: usize = if ls.len() > 1 && trim_of(&ls[1]).len() == 0 {
                            2
                        } else {
                            1
                        };
                        let rest = lines_from(&ls, start);
                        let nl = vec!['\n'];
                        assert(nl@ =~= seq!['\n']);
                        proof {
                            let lv = views(ls@);
                            assert(lv.drop_first() =~= lv.skip(1));
                            if lv.len() > 1 {
                                assert(lv.drop_first().drop_first() =~= lv.skip(2));
                            }
                        }
                        let joined = join_of(&rest, &nl);
                        return Markdown(string_of(&joined));
                    }
                },
                None => {},
            }
        }
        self
    }

    /// Converts to Substack's ProseMirror document.
    pub fn to_prosemirror(&self) -> (r: ProseMirrorDoc)
        ensures
            r@ == markdown_doc(self@),
    {
        let t = chars_of(self.0.as_str());
        ProseMirrorDoc { content: markdown_doc_of(&t) }
    }
}

/// The lines from index `start` on.
fn lines_from(ls: &Vec<Vec<char>>, start: usize) -> (r: Vec<Vec<char>>)
    requires
        start <= ls@.len(),
    ensures
        views(r@) == views(ls@).skip(start as int),
{
    let mut out: Vec<Vec<char>> = Vec::new();
    let mut i = start;
    while i < ls.len()
        invariant
            start <= i <= ls@.len(),
            out@.len() == i - start,
            forall|k: int| 0 <= k < i - start ==> #[trigger] out@[k]@ == ls@[k + start]@,
        decreases ls@.len() - i,
    {
        let l = &ls[i];
        out.push(slice_of(l, 0, l.len()));
        assert(out@[i - start]@ =~= ls@[i as int]@);
        i = i + 1;
    }
    assert(views(out@) =~= views(ls@).skip(start as int));
    out
}

/// Result of splitting frontmatter from a Markdown text.
pub struct FrontmatterSplit {
    pub frontmatter: Option<Frontmatter>,
    pub body: Markdown,
}

/// A frontmatter block.
#[derive(Debug, Clone)]
pub struct Frontmatter(String);

impl View for Frontmatter {
    type V = Seq<char>;

    closed spec fn view(&self) -> Seq<char> {
        self.0@
    }
}

impl Frontmatter {
    pub fn as_str(&self) -> (r: &str)
        ensures
            r@ == self@,
    {
        self.0.as_str()
    }

    /// The value of a `key: value` line.
    pub fn field(&self, key: &str) -> (r: Option<String>)
        ensures
            r matches Some(v) ==> frontmatter_field(self@, key@) == Some(v@),
            r is None ==> frontmatter_field(self@, key@) is None,
    {
        let t = chars_of(self.0.as_str());
        let k = chars_of(key);
        let ls = lines_of(&t);
        let ghost lv = views(ls@);
        let mut i: usize = 0;
        while i < ls.len()
            invariant
                i <= ls@.len(),
                lv == views(ls@),
                lv == lines(self@),
                k@ == key@,
                field_from(lv, key@, 0) == field_from(lv, key@, i as int),
            decreases ls@.len() - i,
        {
            match field_value_of(&ls[i], &k) {
                Some(v) => {
                    return Some(string_of(&v));
                },
                None => {},
            }
            i = i + 1;
        }
        None
    }
}

/// A ProseMirror document.
#[derive(Debug, Clone)]
pub struct ProseMirrorDoc {
    content: Vec<Block>,
}

impl View for ProseMirrorDoc {
    type V = Seq<BlockValue>;

    closed spec fn view(&self) -> Seq<BlockValue> {
        blocks_view(self.content@)
    }
}

impl ProseMirrorDoc {
    /// The document as JSON text, keys in sorted order as `serde_json` writes
    /// a map.
    pub fn to_json(&self) -> (r: String)
        ensures
            r@ == doc_json(self@),
    {
        let mut out: Vec<char> = Vec::new();
        push_literal(&mut out, "{\"content\":");
        push_blocks(&mut out, &self.content);
        push_literal(&mut out, ",\"type\":\"doc\"}");
        assert(out@ =~= doc_json(self@));
        string_of(&out)
    }

    /// The top-level nodes.
    pub fn content(&self) -> (r: &Vec<Block>)
        ensures
            blocks_view(r@) == self@,
    {
        &self.content
    }
}


// ── Links and images as values ──────────────────────────────────────

/// The number of UTF-8 bytes of a character sequence.
pub open spec fn byte_len(s: Seq<char>) -> nat {
    encode_utf8(s).len()
}

/// The UTF-8 bytes of two texts put together are the bytes of each, in order.
pub proof fn lemma_encode_utf8_concat(a: Seq<char>, b: Seq<char>)
    ensures
        encode_utf8(a + b) == encode_utf8(a) + encode_utf8(b),
    decreases a.len(),
{
    if a.len() == 0 {
        assert(a + b =~= b);
        assert(encode_utf8(a) + encode_utf8(b) =~= encode_utf8(b));
    } else {
        lemma_encode_utf8_concat(a.drop_first(), b);
        assert((a + b).drop_first() =~= a.drop_first() + b);
        assert(encode_utf8(a + b) =~= encode_utf8(a) + encode_utf8(b));
    }
}

proof fn lemma_ascii_byte_len(c: char)
    requires
        (c as u32) < 0x80,
    ensures
        byte_len(seq![c]) == 1,
{
    assert(seq![c].drop_first() =~= Seq::<char>::empty());
    assert(encode_utf8(Seq::<char>::empty()) =~= Seq::<u8>::empty());
    assert(encode_utf8(seq![c]) =~= encode_vstd_scalar(c));
}

spec fn encode_vstd_scalar(c: char) -> Seq<u8> {
    vstd::utf8::encode_scalar(c as u32)
}

/// The bytes spanned by a reference `open + text + mid + target + close`
/// where the delimiters are ASCII.
proof fn lemma_reference_bytes(
    s: Seq<char>,
    n: int,
    open: Seq<char>,
    text: Seq<char>,
    target: Seq<char>,
)
    requires
        0 <= n <= s.len(),
        s.take(n) == open + text + seq![']', '('] + target + seq![')'],
        forall|i: int| 0 <= i < open.len() ==> (open[i] as u32) < 0x80,
    ensures
        byte_len(s.take(n)) == open.len() + byte_len(text) + 2 + byte_len(target) + 1,
        byte_len(s.take(n)) <= byte_len(s),
    decreases open.len(),
{
    lemma_encode_utf8_concat(s.take(n), s.skip(n));
    assert(s.take(n) + s.skip(n) =~= s);
    lemma_ascii_byte_len(']');
    lemma_ascii_byte_len('(');
    lemma_ascii_byte_len(')');
    assert(seq![']', '('] =~= seq![']'] + seq!['(']);
    lemma_encode_utf8_concat(seq![']'], seq!['(']);
    lemma_ascii_prefix_bytes(open);
    lemma_encode_utf8_concat(open, text);
    lemma_encode_utf8_concat(open + text, seq![']', '(']);
    lemma_encode_utf8_concat(open + text + seq![']', '('], target);
    lemma_encode_utf8_concat(open + text + seq![']', '('] + target, seq![')']);
}

proof fn lemma_ascii_prefix_bytes(open: Seq<char>)
    requires
        forall|i: int| 0 <= i < open.len() ==> (open[i] as u32) < 0x80,
    ensures
        byte_len(open) == open.len(),
    decreases open.len(),
{
    if open.len() > 0 {
        lemma_ascii_prefix_bytes(open.drop_first());
    }
}

/// A Markdown link `[label](href)`.
#[derive(Debug, Clone)]
pub struct LinkRef {
    label: String,
    href: String,
}

impl View for LinkRef {
    type V = (Seq<char>, Seq<char>);

    closed spec fn view(&self) -> (Seq<char>, Seq<char>) {
        (self.label@, self.href@)
    }
}

/// A parsed link and the number of bytes it spans in the input.
pub struct ParsedLinkRef {
    link: LinkRef,
    consumed: usize,
}

impl View for ParsedLinkRef {
    type V = ((Seq<char>, Seq<char>), nat);

    closed spec fn view(&self) -> ((Seq<char>, Seq<char>), nat) {
        (self.link@, self.consumed as nat)
    }
}

impl ParsedLinkRef {
    pub fn link(&self) -> (r: &LinkRef)
        ensures
            r@ == self@.0,
    {
        &self.link
    }

    pub fn consumed(&self) -> (r: usize)
        ensures
            r == self@.1,
    {
        self.consumed
    }

    pub fn into_link(self) -> (r: LinkRef)
        ensures
            r@ == self@.0,
    {
        self.link
    }
}

/// Where a link target points.
pub enum LinkSourceValue {
    Remote(Seq<char>),
    Local { path: Seq<char>, fragment: Option<Seq<char>> },
}

/// A link target: a remote URL or fragment, or a local path with an optional
/// `#fragment`.
#[derive(Debug, Clone)]
pub enum LinkSource {
    Remote(String),
    Local { path: String, fragment: Option<String> },
}

pub open spec fn opt_view(o: Option<String>) -> Option<Seq<char>> {
    match o {
        Some(s) => Some(s@),
        None => None,
    }
}

pub open spec fn opt_str_view(o: Option<&str>) -> Option<Seq<char>> {
    match o {
        Some(s) => Some(s@),
        None => None,
    }
}

impl View for LinkSource {
    type V = LinkSourceValue;

    open spec fn view(&self) -> LinkSourceValue {
        match self {
            LinkSource::Remote(u) => LinkSourceValue::Remote(u@),
            LinkSource::Local { path, fragment } => LinkSourceValue::Local {
                path: path@,
                fragment: opt_view(*fragment),
            },
        }
    }
}

/// A target that is not a local file: `http://`, `https://`, `mailto:`,
/// `tel:`, `data:` or a bare `#fragment`.
pub open spec fn is_remote_link(raw: Seq<char>) -> bool {
    ||| starts_with(raw, "http://"@)
    ||| starts_with(raw, "https://"@)
    ||| starts_with(raw, "mailto:"@)
    ||| starts_with(raw, "tel:"@)
    ||| starts_with(raw, "data:"@)
    ||| starts_with(raw, seq!['#'])
}

/// The classification of a link target; a local target is split at its
/// first `#` and its path resolved against the base directory.
pub open spec fn link_source(raw: Seq<char>, base: Option<Seq<char>>) -> LinkSourceValue {
    if is_remote_link(raw) {
        LinkSourceValue::Remote(raw)
    } else {
        match find(raw, seq!['#']) {
            Some(i) => LinkSourceValue::Local {
                path: resolve_path(raw.take(i), base),
                fragment: Some(raw.skip(i + 1)),
            },
            None => LinkSourceValue::Local { path: resolve_path(raw, base), fragment: None },
        }
    }
}

fn starts_with_str(s: &Vec<char>, p: &str) -> (r: bool)
    ensures
        r == starts_with(s@, p@),
{
    let pc = chars_of(p);
    starts_with_of(s, &pc)
}

fn chars_of_opt(base: Option<&str>) -> (r: Option<Vec<char>>)
    ensures
        r matches Some(b) ==> opt_str_view(base) == Some(b@),
        r is None ==> base is None,
{
    match base {
        Some(b) => Some(chars_of(b)),
        None => None,
    }
}

impl LinkSource {
    /// Classifies a link target, resolving a relative local path against
    /// `base_dir` when one is given.
    pub fn classify(raw: &str, base_dir: Option<&str>) -> (r: LinkSource)
        ensures
            r@ == link_source(raw@, opt_str_view(base_dir)),
    {
        let s = chars_of(raw);
        let hash = vec!['#'];
        assert(hash@ =~= seq!['#']);
        if starts_with_str(&s, "http://") || starts_with_str(&s, "https://") || starts_with_str(
            &s,
            "mailto:",
        ) || starts_with_str(&s, "tel:") || starts_with_str(&s, "data:") || starts_with_of(
            &s,
            &hash,
        ) {
            return LinkSource::Remote(string_of(&s));
        }
        let base = chars_of_opt(base_dir);
        let base_ref: Option<&Vec<char>> = match &base {
            Some(b) => Some(b),
            None => None,
        };
        proof {
            lemma_find_from(s@, hash@, 0);
        }
        match find_from_of(&s, &hash, 0) {
            Some(i) => {
                assert(i < s.len());
                let path_part = slice_of(&s, 0, i);
                let fragment = slice_of(&s, i + 1, s.len());
                let path = resolve_path_of(&path_part, base_ref);
                LinkSource::Local { path: string_of(&path), fragment: Some(string_of(&fragment)) }
            },
            None => {
                let path = resolve_path_of(&s, base_ref);
                LinkSource::Local { path: string_of(&path), fragment: None }
            },
        }
    }
}

impl LinkRef {
    pub fn label(&self) -> (r: &str)
        ensures
            r@ == self@.0,
    {
        self.label.as_str()
    }

    pub fn href(&self) -> (r: &str)
        ensures
            r@ == self@.1,
    {
        self.href.as_str()
    }

    /// Where the link points.
    pub fn source(&self, base_dir: Option<&str>) -> (r: LinkSource)
        ensures
            r@ == link_source(self@.1, opt_str_view(base_dir)),
    {
        LinkSource::classify(self.href.as_str(), base_dir)
    }

    /// Parses `[label](href)` at the start of `input`; `consumed` counts the
    /// bytes of the reference.
    pub fn parse_prefix(input: &str) -> (r: Option<ParsedLinkRef>)
        requires
            byte_len(input@) <= usize::MAX,
        ensures
            link_at(input@, 0) matches Some((l, h, n)) ==> r matches Some(p) && p@ == (
                (l, h),
                byte_len(input@.take(n)),
            ),
            link_at(input@, 0) is None ==> r is None,
    {
        let s = chars_of(input);
        match link_at_of(&s, 0) {
            Some((label, href, n)) => {
                let label = string_of(&label);
                let href = string_of(&href);
                let ghost k = find_from(s@, seq![']', '('], 1).unwrap();
                let ghost h = find_from(s@, seq![')'], k + 2).unwrap();
                proof {
                    lemma_find_from(s@, seq![']', '('], 1);
                    lemma_find_from(s@, seq![')'], k + 2);
                    assert(s@.take(n as int) =~= seq!['['] + label@ + seq![']', '('] + href@
                        + seq![')']);
                    lemma_reference_bytes(s@, n as int, seq!['['], label@, href@);
                }
                let first = label.as_str().len();
                let second = href.as_str().len();
                let consumed = 1 + first + 2 + second + 1;
                Some(ParsedLinkRef { link: LinkRef { label, href }, consumed })
            },
            None => None,
        }
    }
}

/// A Markdown image reference `![alt](src)`.
#[derive(Debug, Clone)]
pub struct ImageRef {
    alt: String,
    src: String,
}

impl View for ImageRef {
    type V = (Seq<char>, Seq<char>);

    closed spec fn view(&self) -> (Seq<char>, Seq<char>) {
        (self.alt@, self.src@)
    }
}

/// A parsed image reference and the number of bytes it spans in the input.
pub struct ParsedImageRef {
    image: ImageRef,
    consumed: usize,
}

impl View for ParsedImageRef {
    type V = ((Seq<char>, Seq<char>), nat);

    closed spec fn view(&self) -> ((Seq<char>, Seq<char>), nat) {
        (self.image@, self.consumed as nat)
    }
}

impl ParsedImageRef {
    pub fn image(&self) -> (r: &ImageRef)
        ensures
            r@ == self@.0,
    {
        &self.image
    }

    pub fn consumed(&self) -> (r: usize)
        ensures
            r == self@.1,
    {
        self.consumed
    }

    pub fn into_image(self) -> (r: ImageRef)
        ensures
            r@ == self@.0,
    {
        self.image
    }
}

/// Where an image source points.
pub enum ImageSourceValue {
    Remote(Seq<char>),
    Local(Seq<char>),
}

/// An image source: a remote or `data:` URL, or a local path.
#[derive(Debug, Clone)]
pub enum ImageSource {
    Remote(String),
    Local(String),
}

impl View for ImageSource {
    type V = ImageSourceValue;

    open spec fn view(&self) -> ImageSourceValue {
        match self {
            ImageSource::Remote(u) => ImageSourceValue::Remote(u@),
            ImageSource::Local(p) => ImageSourceValue::Local(p@),
        }
    }
}

/// A source that is passed through as is: `http://`, `https://` or `data:`.
pub open spec fn is_remote_image(raw: Seq<char>) -> bool {
    ||| starts_with(raw, "http://"@)
    ||| starts_with(raw, "https://"@)
    ||| starts_with(raw, "data:"@)
}

/// The classification of an image source; local paths are resolved against
/// the base directory.
pub open spec fn image_source(raw: Seq<char>, base: Option<Seq<char>>) -> ImageSourceValue {
    if is_remote_image(raw) {
        ImageSourceValue::Remote(raw)
    } else {
        ImageSourceValue::Local(resolve_path(raw, base))
    }
}

impl ImageSource {
    /// Classifies an image source, resolving a relative local path against
    /// `base_dir` when one is given.
    pub fn classify(raw: &str, base_dir: Option<&str>) -> (r: ImageSource)
        ensures
            r@ == image_source(raw@, opt_str_view(base_dir)),
    {
        let s = chars_of(raw);
        if starts_with_str(&s, "http://") || starts_with_str(&s, "https://") || starts_with_str(
            &s,
            "data:",
        ) {
            return ImageSource::Remote(string_of(&s));
        }
        let base = chars_of_opt(base_dir);
        let base_ref: Option<&Vec<char>> = match &base {
            Some(b) => Some(b),
            None => None,
        };
        let path = resolve_path_of(&s, base_ref);
        ImageSource::Local(string_of(&path))
    }
}

impl ImageRef {
    pub fn alt(&self) -> (r: &str)
        ensures
            r@ == self@.0,
    {
        self.alt.as_str()
    }

    pub fn src(&self) -> (r: &str)
        ensures
            r@ == self@.1,
    {
        self.src.as_str()
    }

    /// Where the image points.
    pub fn source(&self, base_dir: Option<&str>) -> (r: ImageSource)
        ensures
            r@ == image_source(self@.1, opt_str_view(base_dir)),
    {
        ImageSource::classify(self.src.as_str(), base_dir)
    }

    /// A block that is exactly one image reference (after trimming).
    pub fn parse_block(block: &str) -> (r: Option<ImageRef>)
        ensures
            image_block(block@) matches Some((a, s)) ==> r matches Some(i) && i@ == (a, s),
            image_block(block@) is None ==> r is None,
    {
        let s = chars_of(block);
        let t = trim_of(&s);
        match image_at_of(&t, 0) {
            Some((alt, src, n)) => if n == t.len() {
                Some(ImageRef { alt: string_of(&alt), src: string_of(&src) })
            } else {
                None
            },
            None => None,
        }
    }

    /// Parses `![alt](src)` at the start of `input`; `consumed` counts the
    /// bytes of the reference.
    pub fn parse_prefix(input: &str) -> (r: Option<ParsedImageRef>)
        requires
            byte_len(input@) <= usize::MAX,
        ensures
            image_at(input@, 0) matches Some((a, h, n)) ==> r matches Some(p) && p@ == (
                (a, h),
                byte_len(input@.take(n)),
            ),
            image_at(input@, 0) is None ==> r is None,
    {
        let s = chars_of(input);
        match image_at_of(&s, 0) {
            Some((alt, src, n)) => {
                let alt = string_of(&alt);
                let src = string_of(&src);
                let ghost k = find_from(s@, seq![']', '('], 2).unwrap();
                let ghost h = find_from(s@, seq![')'], k + 2).unwrap();
                proof {
                    lemma_find_from(s@, seq![']', '('], 2);
                    lemma_find_from(s@, seq![')'], k + 2);
                    assert(s@.take(n as int) =~= seq!['!', '['] + alt@ + seq![']', '('] + src@
                        + seq![')']);
                    lemma_reference_bytes(s@, n as int, seq!['!', '['], alt@, src@);
                }
                let first = alt.as_str().len();
                let second = src.as_str().len();
                let consumed = 2 + first + 2 + second + 1;
                Some(ParsedImageRef { image: ImageRef { alt, src }, consumed })
            },
            None => None,
        }
    }
}

// ── Tables as values ────────────────────────────────────────────────

pub open spec fn string_views(v: Seq<String>) -> Seq<Seq<char>> {
    v.map_values(|x: String| x@)
}

pub open spec fn string_rows_views(v: Seq<Vec<String>>) -> Seq<Seq<Seq<char>>> {
    v.map_values(|x: Vec<String>| string_views(x@))
}

/// Strings holding the given character sequences.
pub fn strings_of(v: &Vec<Vec<char>>) -> (r: Vec<String>)
    ensures
        string_views(r@) == views(v@),
{
    let mut out: Vec<String> = Vec::new();
    let mut i: usize = 0;
    while i < v.len()
        invariant
            i <= v@.len(),
            out@.len() == i,
            forall|k: int| 0 <= k < i ==> #[trigger] out@[k]@ == v@[k]@,
        decreases v@.len() - i,
    {
        out.push(string_of(&v[i]));
        i = i + 1;
    }
    assert(string_views(out@) =~= views(v@));
    out
}

/// A pipe table: header cells and body rows.
pub struct Table {
    header: Vec<String>,
    rows: Vec<Vec<String>>,
}

impl View for Table {
    type V = (Seq<Seq<char>>, Seq<Seq<Seq<char>>>);

    closed spec fn view(&self) -> (Seq<Seq<char>>, Seq<Seq<Seq<char>>>) {
        (string_views(self.header@), string_rows_views(self.rows@))
    }
}

impl Table {
    /// Parses a block that is a pipe table.
    pub fn parse_block(block: &str) -> (r: Option<Table>)
        ensures
            table_of(block@) matches Some(t) ==> r matches Some(x) && x@ == t,
            table_of(block@) is None ==> r is None,
    {
        let s = chars_of(block);
        match table_of_chars(&s) {
            Some((h, rows)) => {
                let header = strings_of(&h);
                let mut out: Vec<Vec<String>> = Vec::new();
                let mut i: usize = 0;
                while i < rows.len()
                    invariant
                        i <= rows@.len(),
                        out@.len() == i,
                        forall|k: int|
                            0 <= k < i ==> string_views(#[trigger] out@[k]@) == views(rows@[k]@),
                    decreases rows@.len() - i,
                {
                    out.push(strings_of(&rows[i]));
                    i = i + 1;
                }
                assert(string_rows_views(out@) =~= rows_views(rows@));
                Some(Table { header, rows: out })
            },
            None => None,
        }
    }

    pub fn header(&self) -> (r: &[String])
        ensures
            string_views(r@) == self@.0,
    {
        self.header.as_slice()
    }

    pub fn rows(&self) -> (r: &[Vec<String>])
        ensures
            string_rows_views(r@) == self@.1,
    {
        self.rows.as_slice()
    }
}


// ── JSON ────────────────────────────────────────────────────────────

pub open spec fn mark_json(m: MarkValue) -> Seq<char> {
    match m {
        MarkValue::Bold => "{\"type\":\"bold\"}"@,
        MarkValue::Italic => "{\"type\":\"italic\"}"@,
        MarkValue::Link(h) => "{\"attrs\":{\"href\":"@ + json_string(h)
            + ",\"title\":null},\"type\":\"link\"}"@,
    }
}

pub open spec fn marks_json(ms: Seq<MarkValue>) -> Seq<char> {
    json_list(ms.map_values(|m: MarkValue| mark_json(m)))
}

/// A text node (with `marks` only when it has some) or a hard break.
pub open spec fn inline_json(x: InlineValue) -> Seq<char> {
    match x {
        InlineValue::Text(t, m) => if m.len() == 0 {
            "{\"text\":"@ + json_string(t) + ",\"type\":\"text\"}"@
        } else {
            "{\"marks\":"@ + marks_json(m) + ",\"text\":"@ + json_string(t)
                + ",\"type\":\"text\"}"@
        },
        InlineValue::HardBreak => "{\"type\":\"hardBreak\"}"@,
    }
}

pub open spec fn inlines_json(xs: Seq<InlineValue>) -> Seq<char> {
    json_list(xs.map_values(|x: InlineValue| inline_json(x)))
}

pub open spec fn block_json(b: BlockValue) -> Seq<char> {
    match b {
        BlockValue::Heading(l, c) => "{\"attrs\":{\"level\":"@ + decimal(l as nat)
            + "},\"content\":"@ + inlines_json(c) + ",\"type\":\"heading\"}"@,
        BlockValue::Paragraph(c) => "{\"content\":"@ + inlines_json(c)
            + ",\"type\":\"paragraph\"}"@,
        BlockValue::Blockquote(c) => "{\"content\":[{\"content\":"@ + inlines_json(c)
            + ",\"type\":\"paragraph\"}],\"type\":\"blockquote\"}"@,
        BlockValue::CaptionedImage { src, alt } => "{\"content\":[{\"attrs\":{\"alt\":"@
            + json_string(alt)
            + ",\"bytes\":null,\"fullscreen\":null,\"height\":null,\"href\":null,\"imageSize\":\"normal\",\"resizeWidth\":null,\"src\":"@
            + json_string(src)
            + ",\"title\":null,\"type\":null,\"width\":null},\"type\":\"image2\"}],\"type\":\"captionedImage\"}"@,
    }
}

/// The JSON text of a document.
pub open spec fn doc_json(bs: Seq<BlockValue>) -> Seq<char> {
    "{\"content\":"@ + json_list(bs.map_values(|b: BlockValue| block_json(b)))
        + ",\"type\":\"doc\"}"@
}

fn push_literal(out: &mut Vec<char>, lit: &str)
    ensures
        final(out)@ == old(out)@ + lit@,
{
    let cs = chars_of(lit);
    append_chars(out, &cs);
}

fn push_string(out: &mut Vec<char>, s: &String)
    ensures
        final(out)@ == old(out)@ + json_string(s@),
{
    let cs = chars_of(s.as_str());
    push_json_string(out, &cs);
}

fn push_mark(out: &mut Vec<char>, m: &Mark)
    ensures
        final(out)@ == old(out)@ + mark_json(m@),
{
    let ghost start = out@;
    match m {
        Mark::Bold => push_literal(out, "{\"type\":\"bold\"}"),
        Mark::Italic => push_literal(out, "{\"type\":\"italic\"}"),
        Mark::Link { href } => {
            push_literal(out, "{\"attrs\":{\"href\":");
            push_string(out, href);
            push_literal(out, ",\"title\":null},\"type\":\"link\"}");
        },
    }
    assert(out@ =~= start + mark_json(m@));
}

fn push_marks(out: &mut Vec<char>, ms: &Vec<Mark>)
    ensures
        final(out)@ == old(out)@ + marks_json(marks_view(ms@)),
{
    let ghost start = out@;
    let ghost items = marks_view(ms@).map_values(|m: MarkValue| mark_json(m));
    out.push('[');
    let mut i: usize = 0;
    assert(items.take(0) =~= Seq::<Seq<char>>::empty());
    while i < ms.len()
        invariant
            i <= ms@.len(),
            items == marks_view(ms@).map_values(|m: MarkValue| mark_json(m)),
            out@ == start + seq!['['] + join(items.take(i as int), seq![',']),
        decreases ms@.len() - i,
    {
        proof {
            lemma_join_push(items, i as int);
        }
        if i > 0 {
            out.push(',');
        }
        push_mark(out, &ms[i]);
        i = i + 1;
        assert(out@ =~= start + seq!['['] + join(items.take(i as int), seq![',']));
    }
    assert(items.take(i as int) =~= items);
    out.push(']');
    assert(out@ =~= start + marks_json(marks_view(ms@)));
}

fn push_inline(out: &mut Vec<char>, x: &Inline)
    ensures
        final(out)@ == old(out)@ + inline_json(x@),
{
    let ghost start = out@;
    match x {
        Inline::Text { text, marks } => {
            if marks.len() == 0 {
                push_literal(out, "{\"text\":");
                push_string(out, text);
                push_literal(out, ",\"type\":\"text\"}");
            } else {
                push_literal(out, "{\"marks\":");
                push_marks(out, marks);
                push_literal(out, ",\"text\":");
                push_string(out, text);
                push_literal(out, ",\"type\":\"text\"}");
            }
        },
        Inline::HardBreak => push_literal(out, "{\"type\":\"hardBreak\"}"),
    }
    assert(out@ =~= start + inline_json(x@));
}

fn push_inlines(out: &mut Vec<char>, xs: &Vec<Inline>)
    ensures
        final(out)@ == old(out)@ + inlines_json(inlines_view(xs@)),
{
    let ghost start = out@;
    let ghost items = inlines_view(xs@).map_values(|x: InlineValue| inline_json(x));
    out.push('[');
    let mut i: usize = 0;
    assert(items.take(0) =~= Seq::<Seq<char>>::empty());
    while i < xs.len()
        invariant
            i <= xs@.len(),
            items == inlines_view(xs@).map_values(|x: InlineValue| inline_json(x)),
            out@ == start + seq!['['] + join(items.take(i as int), seq![',']),
        decreases xs@.len() - i,
    {
        proof {
            lemma_join_push(items, i as int);
        }
        if i > 0 {
            out.push(',');
        }
        push_inline(out, &xs[i]);
        i = i + 1;
        assert(out@ =~= start + seq!['['] + join(items.take(i as int), seq![',']));
    }
    assert(items.take(i as int) =~= items);
    out.push(']');
    assert(out@ =~= start + inlines_json(inlines_view(xs@)));
}

fn push_block(out: &mut Vec<char>, b: &Block)
    ensures
        final(out)@ == old(out)@ + block_json(b@),
{
    let ghost start = out@;
    match b {
        Block::Heading { level, content } => {
            push_literal(out, "{\"attrs\":{\"level\":");
            push_json_number(out, *level as u64);
            push_literal(out, "},\"content\":");
            push_inlines(out, content);
            push_literal(out, ",\"type\":\"heading\"}");
        },
        Block::Paragraph { content } => {
            push_literal(out, "{\"content\":");
            push_inlines(out, content);
            push_literal(out, ",\"type\":\"paragraph\"}");
        },
        Block::Blockquote { content } => {
            push_literal(out, "{\"content\":[{\"content\":");
            push_inlines(out, content);
            push_literal(out, ",\"type\":\"paragraph\"}],\"type\":\"blockquote\"}");
        },
        Block::CaptionedImage { src, alt } => {
            push_literal(out, "{\"content\":[{\"attrs\":{\"alt\":");
            push_string(out, alt);
            push_literal(
                out,
                ",\"bytes\":null,\"fullscreen\":null,\"height\":null,\"href\":null,\"imageSize\":\"normal\",\"resizeWidth\":null,\"src\":",
            );
            push_string(out, src);
            push_literal(
                out,
                ",\"title\":null,\"type\":null,\"width\":null},\"type\":\"image2\"}],\"type\":\"captionedImage\"}",
            );
        },
    }
    assert(out@ =~= start + block_json(b@));
}

fn push_blocks(out: &mut Vec<char>, bs: &Vec<Block>)
    ensures
        final(out)@ == old(out)@ + json_list(
            blocks_view(bs@).map_values(|b: BlockValue| block_json(b)),
        ),
{
    let ghost start = out@;
    let ghost items = blocks_view(bs@).map_values(|b: BlockValue| block_json(b));
    out.push('[');
    let mut i: usize = 0;
    assert(items.take(0) =~= Seq::<Seq<char>>::empty());
    while i < bs.len()
        invariant
            i <= bs@.len(),
            items == blocks_view(bs@).map_values(|b: BlockValue| block_json(b)),
            out@ == start + seq!['['] + join(items.take(i as int), seq![',']),
        decreases bs@.len() - i,
    {
        proof {
            lemma_join_push(items, i as int);
        }
        if i > 0 {
            out.push(',');
        }
        push_block(out, &bs[i]);
        i = i + 1;
        assert(out@ =~= start + seq!['['] + join(items.take(i as int), seq![',']));
    }
    assert(items.take(i as int) =~= items);
    out.push(']');
    assert(out@ =~= start + json_list(items));
}

// ── Reading references back ─────────────────────────────────────────

/// `find_from` gives the first match at or after `i`.
proof fn lemma_find_from_at(s: Seq<char>, p: Seq<char>, i: int, k: int)
    requires
        0 <= i <= k,
        crate::text::matches_at(s, p, k),
        forall|j: int| i <= j < k ==> !crate::text::matches_at(s, p, j),
    ensures
        find_from(s, p, i) == Some(k),
{
    lemma_find_from(s, p, i);
}

/// The text from position `o` of `s` is `prefix + inner + "](" + target + ")"`,
/// and the label and target are found back from there.
proof fn lemma_reference_reads_back(
    s: Seq<char>,
    o: int,
    inner: Seq<char>,
    target: Seq<char>,
)
    requires
        0 <= o,
        o + inner.len() + target.len() + 3 <= s.len(),
        s.subrange(o, o + inner.len()) == inner,
        s[o + inner.len()] == ']',
        s[o + inner.len() + 1] == '(',
        s.subrange(o + inner.len() + 2, o + inner.len() + 2 + target.len()) == target,
        s[o + inner.len() + 2 + target.len()] == ')',
        !inner.contains('['),
        find(inner, seq![']', '(']) is None,
        !target.contains(')'),
    ensures
        find_from(s, seq![']', '('], o) == Some(o + inner.len()),
        find_from(s, seq![')'], o + inner.len() + 2) == Some(o + inner.len() + 2 + target.len()),
{
    let k: int = o + inner.len();
    let h: int = k + 2 + target.len();
    assert(s.subrange(k, k + 2) =~= seq![']', '(']);
    assert forall|j: int| o <= j < k implies !crate::text::matches_at(s, seq![']', '('], j) by {
        if crate::text::matches_at(s, seq![']', '('], j) {
            assert(s.subrange(j, j + 2)[0] == s[j]);
            assert(s.subrange(j, j + 2)[1] == s[j + 1]);
            assert(s[j] == inner[j - o]);
            if j + 1 < k {
                assert(s[j + 1] == inner[j + 1 - o]);
                lemma_find_from(inner, seq![']', '('], 0);
                assert(inner.subrange(j - o, j - o + 2) =~= seq![']', '(']);
                assert(crate::text::matches_at(inner, seq![']', '('], j - o));
            } else {
                assert(s[j + 1] == ']');
            }
        }
    }
    lemma_find_from_at(s, seq![']', '('], o, k);
    assert(s.subrange(h, h + 1) =~= seq![')']);
    assert forall|j: int| k + 2 <= j < h implies !crate::text::matches_at(s, seq![')'], j) by {
        if crate::text::matches_at(s, seq![')'], j) {
            assert(s.subrange(j, j + 1)[0] == s[j]);
            assert(s[j] == target[j - k - 2]);
            assert(target.contains(')'));
        }
    }
    lemma_find_from_at(s, seq![')'], k + 2, h);
}

/// The text of a link reference.
pub open spec fn link_text(label: Seq<char>, href: Seq<char>) -> Seq<char> {
    seq!['['] + label + seq![']', '('] + href + seq![')']
}

/// The text of an image reference.
pub open spec fn image_text(alt: Seq<char>, src: Seq<char>) -> Seq<char> {
    seq!['!', '['] + alt + seq![']', '('] + src + seq![')']
}

/// A link written as `[label](href)` is read back as that label and target,
/// spanning exactly its own text, whatever follows it, when the label has no
/// newline, no `[` and no `](`, and the target no newline and no `)`.
pub proof fn law_link_reads_back(label: Seq<char>, href: Seq<char>, tail: Seq<char>)
    requires
        !label.contains('\n'),
        !label.contains('['),
        find(label, seq![']', '(']) is None,
        !href.contains('\n'),
        !href.contains(')'),
    ensures
        link_at(link_text(label, href) + tail, 0) == Some(
            (label, href, link_text(label, href).len() as int),
        ),
{
    let s = link_text(label, href) + tail;
    let k: int = label.len() as int + 1;
    let h: int = k + 2 + href.len();
    assert(s.subrange(1, k) =~= label);
    assert(s.subrange(k + 2, h) =~= href);
    assert(s[k] == ']');
    assert(s[k + 1] == '(');
    assert(s[h] == ')');
    lemma_reference_reads_back(s, 1, label, href);
}

/// An image written as `![alt](src)` is read back as that alternative text
/// and source, spanning exactly its own text, whatever follows it, under the
/// same conditions as a link.
pub proof fn law_image_reads_back(alt: Seq<char>, src: Seq<char>, tail: Seq<char>)
    requires
        !alt.contains('\n'),
        !alt.contains('['),
        find(alt, seq![']', '(']) is None,
        !src.contains('\n'),
        !src.contains(')'),
    ensures
        image_at(image_text(alt, src) + tail, 0) == Some(
            (alt, src, image_text(alt, src).len() as int),
        ),
{
    let s = image_text(alt, src) + tail;
    let k: int = alt.len() as int + 2;
    let h: int = k + 2 + src.len();
    assert(s.subrange(2, k) =~= alt);
    assert(s.subrange(k + 2, h) =~= src);
    assert(s[k] == ']');
    assert(s[k + 1] == '(');
    assert(s[h] == ')');
    lemma_reference_reads_back(s, 2, alt, src);
}

/// What opens a text up to its frontmatter block: `---` and a line ending,
/// or only `---` when the closing delimiter follows at once.
pub open spec fn frontmatter_opening(t: Seq<char>) -> Seq<char> {
    if starts_with(t, seq!['-', '-', '-', '\n', '-', '-', '-']) {
        seq!['-', '-', '-']
    } else {
        t.take(4)
    }
}

/// Frontmatter split off a text: the text opens with `---` and a line
/// ending, the block holds no closing `\n---`, and the text is the opening,
/// the block, the closing `\n---`, some whitespace and the body, which does
/// not start with whitespace. Without frontmatter the body is the text.
pub proof fn law_frontmatter_split(t: Seq<char>)
    ensures
        frontmatter_split(t).0 matches Some(f) ==> {
            &&& starts_with(t, frontmatter_open_lf()) || starts_with(t, frontmatter_open_crlf())
            &&& find(f, frontmatter_close()) is None
            &&& exists|w: Seq<char>|
                #[trigger] all_space(w) && t == frontmatter_opening(t) + f + frontmatter_close() + w
                    + frontmatter_split(t).1
            &&& frontmatter_split(t).1.len() == 0 || !is_space(frontmatter_split(t).1[0])
        },
        frontmatter_split(t).0 is None ==> frontmatter_split(t).1 == t,
{
    let close = frontmatter_close();
    if let Some(e) = frontmatter_end(t) {
        lemma_find_from(t, close, 3);
        let f = frontmatter_text(t, e);
        let rest = t.skip(e + 4);
        let b = trim_start(rest);
        lemma_trim_start_split(rest);
        lemma_trim_start_len(rest);
        let w = rest.take(rest.len() - b.len());
        assert(t.subrange(e, e + 4) == close);
        assert(rest == w + b);
        assert(t =~= t.take(e) + t.subrange(e, e + 4) + rest);
        if e == 3 {
            assert(t.subrange(3, 7)[0] == '\n');
            assert(t[3] == '\n');
            assert(t.take(7) =~= seq!['-', '-', '-', '\n', '-', '-', '-']) by {
                assert(t.subrange(3, 7)[1] == t[4]);
                assert(t.subrange(3, 7)[2] == t[5]);
                assert(t.subrange(3, 7)[3] == t[6]);
                if starts_with(t, frontmatter_open_lf()) {
                    assert(t.subrange(0, 4)[0] == t[0]);
                    assert(t.subrange(0, 4)[1] == t[1]);
                    assert(t.subrange(0, 4)[2] == t[2]);
                } else {
                    assert(t.subrange(0, 5)[3] == t[3]);
                }
            }
            assert(t.take(3) =~= t.take(7).take(3));
            assert(t.take(3) =~= seq!['-', '-', '-']);
            assert(f =~= Seq::<char>::empty());
            assert(t =~= seq!['-', '-', '-'] + f + close + w + b);
        } else {
            if starts_with(t, seq!['-', '-', '-', '\n', '-', '-', '-']) {
                assert(t.subrange(0, 7)[3] == t[3]);
                assert(t.subrange(3, 7) =~= close) by {
                    assert(t.subrange(0, 7)[4] == t[4]);
                    assert(t.subrange(0, 7)[5] == t[5]);
                    assert(t.subrange(0, 7)[6] == t[6]);
                }
                assert(crate::text::matches_at(t, close, 3));
            }
            assert(t.take(e) =~= t.take(4) + f);
            assert(t =~= t.take(4) + f + close + w + b);
        }
        assert(all_space(w));
        if find(f, close) is Some {
            lemma_find_from(f, close, 0);
            let j = find(f, close).unwrap();
            assert(t.subrange(4 + j, 4 + j + 4) =~= f.subrange(j, j + 4));
            assert(crate::text::matches_at(t, close, 4 + j));
        }
    }
}

/// A link read at the start of a text is exactly `[label](href)` there (so
/// the bytes `parse_prefix` counts as consumed lie within the text), the
/// label holding no newline, no `[` and no `](`, and the target no newline
/// and no `)`.
pub proof fn law_link_prefix_reassembles(s: Seq<char>)
    ensures
        link_at(s, 0) matches Some((label, href, n)) ==> {
            &&& s.take(n) == link_text(label, href)
            &&& byte_len(s.take(n)) <= byte_len(s)
            &&& !label.contains('\n') && !label.contains('[')
            &&& find(label, seq![']', '(']) is None
            &&& !href.contains('\n') && !href.contains(')')
        },
{
    if let Some((label, href, n)) = link_at(s, 0) {
        lemma_reference_parts(s, 1);
        assert(s.take(n) =~= link_text(label, href));
        lemma_encode_utf8_concat(s.take(n), s.skip(n));
        assert(s.take(n) + s.skip(n) =~= s);
    }
}

/// An image read at the start of a text is exactly `![alt](src)` there,
/// within the text, the alternative text holding no newline, no `[` and no
/// `](`, and the source no newline and no `)`.
pub proof fn law_image_prefix_reassembles(s: Seq<char>)
    ensures
        image_at(s, 0) matches Some((alt, src, n)) ==> {
            &&& n <= s.len()
            &&& s.take(n) == image_text(alt, src)
            &&& byte_len(s.take(n)) <= byte_len(s)
            &&& !alt.contains('\n') && !alt.contains('[')
            &&& find(alt, seq![']', '(']) is None
            &&& !src.contains('\n') && !src.contains(')')
        },
{
    if let Some((alt, src, n)) = image_at(s, 0) {
        lemma_reference_parts(s, 2);
        assert(s.take(n) =~= image_text(alt, src));
        lemma_encode_utf8_concat(s.take(n), s.skip(n));
        assert(s.take(n) + s.skip(n) =~= s);
    }
}

/// The parts of a reference whose inner text starts at `o`: the first `](`
/// from `o` and the first `)` after it, with the inner text free of `](`
/// and the target free of `)`.
proof fn lemma_reference_parts(s: Seq<char>, o: int)
    requires
        0 <= o,
        find_from(s, seq![']', '('], o) is Some,
        find_from(s, seq![')'], find_from(s, seq![']', '('], o).unwrap() + 2) is Some,
    ensures
        ({
            let k = find_from(s, seq![']', '('], o).unwrap();
            let h = find_from(s, seq![')'], k + 2).unwrap();
            &&& o <= k && k + 2 <= h < s.len()
            &&& s[k] == ']' && s[k + 1] == '(' && s[h] == ')'
            &&& find(s.subrange(o, k), seq![']', '(']) is None
            &&& !s.subrange(k + 2, h).contains(')')
        }),
{
    let k = find_from(s, seq![']', '('], o).unwrap();
    lemma_find_from(s, seq![']', '('], o);
    let h = find_from(s, seq![')'], k + 2).unwrap();
    lemma_find_from(s, seq![')'], k + 2);
    assert(s.subrange(k, k + 2)[0] == s[k]);
    assert(s.subrange(k, k + 2)[1] == s[k + 1]);
    assert(s.subrange(h, h + 1)[0] == s[h]);
    let inner = s.subrange(o, k);
    if find(inner, seq![']', '(']) is Some {
        lemma_find_from(inner, seq![']', '('], 0);
        let j = find(inner, seq![']', '(']).unwrap();
        assert(s.subrange(o + j, o + j + 2) =~= inner.subrange(j, j + 2));
        assert(crate::text::matches_at(s, seq![']', '('], o + j));
    }
    let target = s.subrange(k + 2, h);
    if target.contains(')') {
        let j = choose|j: int| 0 <= j < target.len() && target[j] == ')';
        assert(s.subrange(k + 2 + j, k + 2 + j + 1) =~= seq![')']);
        assert(crate::text::matches_at(s, seq![')'], k + 2 + j));
    }
}

/// A table cell as parsed: trimmed and free of pipes.
pub open spec fn clean_cell(c: Seq<char>) -> bool {
    trim(c) == c && !c.contains('|')
}

proof fn lemma_split_pieces_free(s: Seq<char>, c: char, i: int)
    requires
        0 <= i,
    ensures
        forall|k: int|
            0 <= k < split_from(s, seq![c], i).len() ==> !(#[trigger] split_from(
                s,
                seq![c],
                i,
            )[k]).contains(c),
    decreases s.len() + 1 - i,
{
    if i <= s.len() {
        lemma_find_from(s, seq![c], i);
        let parts = split_from(s, seq![c], i);
        match find_from(s, seq![c], i) {
            Some(k) => {
                lemma_split_pieces_free(s, c, k + 1);
                let piece = s.subrange(i, k);
                assert forall|j: int| 0 <= j < piece.len() implies piece[j] != c by {
                    assert(s.subrange(i + j, i + j + 1) =~= seq![piece[j]]);
                    if piece[j] == c {
                        assert(crate::text::matches_at(s, seq![c], i + j));
                    }
                }
                assert forall|m: int| 0 <= m < parts.len() implies !(#[trigger] parts[m]).contains(
                    c,
                ) by {
                    if m > 0 {
                        assert(parts[m] == split_from(s, seq![c], k + 1)[m - 1]);
                    }
                }
            },
            None => {
                let piece = s.subrange(i, s.len() as int);
                assert forall|j: int| 0 <= j < piece.len() implies piece[j] != c by {
                    assert(s.subrange(i + j, i + j + 1) =~= seq![piece[j]]);
                    if piece[j] == c {
                        assert(crate::text::matches_at(s, seq![c], i + j));
                    }
                }
            },
        }
    }
}

proof fn lemma_row_clean(line: Seq<char>)
    ensures
        parse_table_row(line).len() > 0,
        forall|k: int|
            0 <= k < parse_table_row(line).len() ==> clean_cell(#[trigger] parse_table_row(line)[k]),
{
    let inner = row_inner(line);
    lemma_split_nonempty(inner, seq!['|'], 0);
    lemma_split_pieces_free(inner, '|', 0);
    let pieces = split(inner, seq!['|']);
    assert forall|k: int| 0 <= k < parse_table_row(line).len() implies clean_cell(
        #[trigger] parse_table_row(line)[k],
    ) by {
        lemma_trim_clean(pieces[k], '|');
    }
}

proof fn lemma_rows_shape(ls: Seq<Seq<char>>, n: int, w: nat)
    requires
        2 <= n <= ls.len(),
    ensures
        table_rows(ls, n, w).len() == n - 2,
        forall|i: int| 0 <= i < n - 2 ==> (#[trigger] table_rows(ls, n, w)[i]).len() == w,
        forall|i: int, k: int|
            0 <= i < n - 2 && 0 <= k < w ==> clean_cell(#[trigger] table_rows(ls, n, w)[i][k]),
    decreases n,
{
    if n > 2 {
        lemma_rows_shape(ls, n - 1, w);
        lemma_row_clean(ls[n - 1]);
        let cells = parse_table_row(ls[n - 1]);
        let row = pad_or_truncate(cells, w);
        assert forall|k: int| 0 <= k < w implies clean_cell(#[trigger] row[k]) by {
            if k >= cells.len() {
                assert(row[k] == Seq::<char>::empty());
                assert(trim(Seq::<char>::empty()) =~= Seq::<char>::empty());
            }
        }
    }
}

/// A parsed table has at least one header cell, one body row for each line
/// after the separator, every row as wide as the header, and every cell
/// trimmed and free of pipes.
pub proof fn law_table_shape(b: Seq<char>)
    ensures
        table_of(b) matches Some((header, rows)) ==> {
            &&& header.len() >= 1
            &&& rows.len() == lines(b).len() - 2
            &&& forall|i: int| 0 <= i < rows.len() ==> (#[trigger] rows[i]).len() == header.len()
            &&& forall|k: int| 0 <= k < header.len() ==> clean_cell(#[trigger] header[k])
            &&& forall|i: int, k: int|
                0 <= i < rows.len() && 0 <= k < rows[i].len() ==> clean_cell(#[trigger] rows[i][k])
        },
{
    let ls = lines(b);
    if table_of(b) is Some {
        lemma_row_clean(ls[0]);
        let h = parse_table_row(ls[0]);
        lemma_rows_shape(ls, ls.len() as int, h.len());
    }
}


// ── Laws of inline emphasis, headings and frontmatter fields ───────

/// The run of asterisks that opens `s` has length `n` when `s` starts with
/// `n` asterisks followed by something else.
proof fn lemma_star_run(s: Seq<char>, n: int, i: int)
    requires
        0 <= i <= n <= s.len(),
        forall|j: int| 0 <= j < n ==> s[j] == '*',
        n < s.len() ==> s[n] != '*',
    ensures
        star_count(s, i) == n - i,
    decreases n - i,
{
    if i < n {
        lemma_star_run(s, n, i + 1);
    }
}

proof fn lemma_wrapped_emphasis(t: Seq<char>, n: nat)
    requires
        1 <= n <= 3,
        t.len() > 0,
        !t.contains('*'),
    ensures
        inline_nodes(stars(n) + t + stars(n)) == seq![InlineValue::Text(t, emphasis_marks(n))],
{
    let s = stars(n) + t + stars(n);
    let e: int = (n + t.len()) as int;
    assert(s[n as int] == t[0]);
    lemma_star_run(s, n as int, 0);
    assert forall|j: int| n <= j < e implies !crate::text::matches_at(s, stars(n), j) by {
        assert(s[j] == t[j - n]);
        if crate::text::matches_at(s, stars(n), j) {
            assert(s.subrange(j, j + n)[0] == stars(n)[0]);
        }
    }
    assert(s.subrange(e, e + n as int) =~= stars(n));
    lemma_find_from_at(s, stars(n), n as int, e);
    assert(s.subrange(n as int, e) =~= t);
    assert(emphasis_at(s, 0) == Some((t, n, e + n)));
    assert(link_at(s, 0) is None);
    assert(inline_scan(s, s.len() as int, seq![]) == Seq::<InlineValue>::empty());
    assert(inline_scan(s, 0, seq![]) =~= seq![InlineValue::Text(t, emphasis_marks(n))]);
}

/// Text between single, double or triple asterisks becomes one text node
/// marked italic, bold, or bold and italic.
pub proof fn law_emphasis_marks(t: Seq<char>)
    requires
        t.len() > 0,
        !t.contains('*'),
    ensures
        inline_nodes(seq!['*'] + t + seq!['*']) == seq![
            InlineValue::Text(t, seq![MarkValue::Italic]),
        ],
        inline_nodes(seq!['*', '*'] + t + seq!['*', '*']) == seq![
            InlineValue::Text(t, seq![MarkValue::Bold]),
        ],
        inline_nodes(seq!['*', '*', '*'] + t + seq!['*', '*', '*']) == seq![
            InlineValue::Text(t, seq![MarkValue::Bold, MarkValue::Italic]),
        ],
{
    lemma_wrapped_emphasis(t, 1);
    lemma_wrapped_emphasis(t, 2);
    lemma_wrapped_emphasis(t, 3);
    assert(stars(1) =~= seq!['*']);
    assert(stars(2) =~= seq!['*', '*']);
    assert(stars(3) =~= seq!['*', '*', '*']);
    assert(emphasis_marks(1) =~= seq![MarkValue::Italic]);
    assert(emphasis_marks(2) =~= seq![MarkValue::Bold]);
    assert(emphasis_marks(3) =~= seq![MarkValue::Bold, MarkValue::Italic]);
}

/// A block that starts with `### ` is one level-3 heading, and one that
/// starts with `## ` one level-2 heading, holding the inline nodes of the
/// rest of the block, trimmed.
pub proof fn law_heading_levels(b: Seq<char>)
    ensures
        starts_with(b, seq!['#', '#', '#', ' ']) ==> block_value(b) == seq![
            BlockValue::Heading(3, inline_nodes(trim(b.skip(4)))),
        ],
        starts_with(b, seq!['#', '#', ' ']) ==> block_value(b) == seq![
            BlockValue::Heading(2, inline_nodes(trim(b.skip(3)))),
        ],
{
    assert(h2_prefix() =~= seq!['#', '#', ' ']);
    assert(h3_prefix() =~= seq!['#', '#', '#', ' ']);
    if starts_with(b, seq!['#', '#', '#', ' ']) {
        assert(b.subrange(0, 4)[2] == '#');
        assert(!starts_with(b, h2_prefix())) by {
            if starts_with(b, h2_prefix()) {
                assert(b.subrange(0, 3)[2] == ' ');
            }
        }
    }
}

/// Where the first heading among the lines from `i` on stands.
proof fn lemma_first_heading_from(ls: Seq<Seq<char>>, i: int)
    requires
        0 <= i <= ls.len(),
    ensures
        first_heading_from(ls, i) is None <==> (forall|j: int|
            i <= j < ls.len() ==> heading_text(#[trigger] ls[j]) is None),
        forall|k: int|
            i <= k < ls.len() && heading_text(#[trigger] ls[k]) is Some && (forall|j: int|
                i <= j < k ==> heading_text(#[trigger] ls[j]) is None) ==> first_heading_from(ls, i)
                == heading_text(ls[k]),
    decreases ls.len() - i,
{
    if i < ls.len() {
        lemma_first_heading_from(ls, i + 1);
        assert forall|k: int|
            i <= k < ls.len() && heading_text(#[trigger] ls[k]) is Some && (forall|j: int|
                i <= j < k ==> heading_text(#[trigger] ls[j]) is None) implies first_heading_from(ls, i)
            == heading_text(ls[k]) by {
            if k > i {
                assert(heading_text(ls[i]) is None);
            }
        }
    }
}

/// The title heading of a text is its first `# ` line, wherever that line
/// stands; there is none only when no line is a `# ` heading.
pub proof fn law_first_heading_anywhere(t: Seq<char>)
    ensures
        first_heading(t) is None <==> (forall|i: int|
            0 <= i < lines(t).len() ==> heading_text(#[trigger] lines(t)[i]) is None),
        forall|i: int|
            0 <= i < lines(t).len() && heading_text(#[trigger] lines(t)[i]) is Some && (forall|j: int|
                0 <= j < i ==> heading_text(#[trigger] lines(t)[j]) is None) ==> first_heading(t)
                == heading_text(lines(t)[i]),
{
    lemma_first_heading_from(lines(t), 0);
}

/// `q` + `v` + `q`, for a quote character `q`.
pub open spec fn quoted(v: Seq<char>, q: char) -> Seq<char> {
    seq![q] + v + seq![q]
}

/// Trimming the quote characters off a quoted value gives the value.
proof fn lemma_unquote(v: Seq<char>, q: char)
    requires
        v.len() > 0,
        v[0] != q,
        v.last() != q,
    ensures
        trim_char(quoted(v, q), q) == v,
{
    let x = quoted(v, q);
    assert(x.drop_first() =~= v + seq![q]);
    assert(trim_start_char(v + seq![q], q) == v + seq![q]) by {
        assert((v + seq![q])[0] == v[0]);
    }
    assert((v + seq![q]).drop_last() =~= v);
    assert(trim_end_char(v, q) == v);
}

/// A quoted frontmatter value reads back without its quotes: the line
/// `key: 'v'` or `key: "v"` gives `v`, for any `v` that is not empty and
/// holds no quote character.
pub proof fn law_quoted_field_value(key: Seq<char>, v: Seq<char>, q: char)
    requires
        q == '"' || q == '\'',
        v.len() > 0,
        !v.contains('"'),
        !v.contains('\''),
    ensures
        field_value(key + seq![':', ' '] + quoted(v, q), key) == Some(v),
{
    let line = key + seq![':', ' '] + quoted(v, q);
    let p = key.push(':');
    assert(line.subrange(0, p.len() as int) =~= p);
    let rest = line.skip(p.len() as int);
    assert(rest =~= seq![' '] + quoted(v, q));
    let x = quoted(v, q);
    assert(v[0] != '"' && v[0] != '\'') by {
        assert(v.contains(v[0]));
    }
    assert(v.last() != '"' && v.last() != '\'') by {
        assert(v[v.len() - 1] == v.last());
        assert(v.contains(v[v.len() - 1]));
    }
    assert(trim_start(rest) == x) by {
        assert(rest.drop_first() =~= x);
        lemma_trim_start_len(x);
    }
    assert(crate::text::trim_end(x) == x);
    assert(trim(rest) == x);
    lemma_unquote(v, q);
    if q == '"' {
        assert(trim_char(v, '\'') == v) by {
            assert(trim_start_char(v, '\'') == v);
            assert(trim_end_char(v, '\'') == v);
        }
    } else {
        assert(trim_char(x, '"') == x) by {
            assert(trim_start_char(x, '"') == x);
            assert(trim_end_char(x, '"') == x);
        }
    }
}

/// Where the first value of a key among the lines from `i` on stands.
proof fn lemma_field_from(ls: Seq<Seq<char>>, key: Seq<char>, i: int, k: int)
    requires
        0 <= i <= k < ls.len(),
        field_value(ls[k], key) is Some,
        forall|j: int| i <= j < k ==> field_value(#[trigger] ls[j], key) is None,
    ensures
        field_from(ls, key, i) == field_value(ls[k], key),
    decreases k - i,
{
    if i < k {
        lemma_field_from(ls, key, i + 1, k);
    }
}

/// The first line of a frontmatter block that gives a key a quoted value
/// gives that key the value without its quotes.
pub proof fn law_quoted_frontmatter_field(fm: Seq<char>, key: Seq<char>, v: Seq<char>, q: char, k: int)
    requires
        q == '"' || q == '\'',
        v.len() > 0,
        !v.contains('"'),
        !v.contains('\''),
        0 <= k < lines(fm).len(),
        lines(fm)[k] == key + seq![':', ' '] + quoted(v, q),
        forall|j: int| 0 <= j < k ==> field_value(#[trigger] lines(fm)[j], key) is None,
    ensures
        frontmatter_field(fm, key) == Some(v),
{
    law_quoted_field_value(key, v, q);
    lemma_field_from(lines(fm), key, 0, k);
}

} // verus!
