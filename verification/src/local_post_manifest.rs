//! The local post manifest (`.substack-posts.json`): which Markdown source
//! files have been published, under which post id and slug, and which banner
//! image belongs to each source.
//!
//! A manifest is a list of records keyed by source path (relative to the
//! manifest root). Looking a path up finds its first record. Recording a
//! path that is present merges the new fields into that record; recording a
//! new path appends a record and sorts the list by path, stably.

use vstd::prelude::*;
use crate::error::Error;
use crate::paths::{is_normal_path, join_path, join_path_of, law_strip_prefix_joins_back, normal_strip_prefix};
use crate::prosemirror::{opt_str_view, opt_view};
use crate::text::{append_chars, chars_of, string_of};
use crate::types::{Hostname, PostId};

verus! {

// ── Source paths ────────────────────────────────────────────────────

/// A source file's path relative to the manifest root.
#[derive(Debug, Clone)]
pub struct SourcePath(String);

impl View for SourcePath {
    type V = Seq<char>;

    closed spec fn view(&self) -> Seq<char> {
        self.0@
    }
}

impl SourcePath {
    pub fn new(path: String) -> (r: Self)
        ensures
            r@ == path@,
    {
        SourcePath(path)
    }

    pub fn as_str(&self) -> (r: &str)
        ensures
            r@ == self@,
    {
        self.0.as_str()
    }
}

impl From<String> for SourcePath {
    fn from(path: String) -> (r: Self) {
        SourcePath(path)
    }
}

impl vstd::std_specs::convert::FromSpecImpl<String> for SourcePath {
    open spec fn obeys_from_spec() -> bool {
        true
    }

    open spec fn from_spec(v: String) -> SourcePath {
        source_path_of(v)
    }
}

pub closed spec fn source_path_of(v: String) -> SourcePath {
    SourcePath(v)
}

/// The source path made from a text holds that text.
pub broadcast proof fn lemma_source_path_of(v: String)
    ensures
        (#[trigger] source_path_of(v))@ == v@,
{
}

// ── Records ─────────────────────────────────────────────────────────

/// What a manifest record says.
pub struct RecordValue {
    pub source_path: Seq<char>,
    pub post_id: Option<u64>,
    pub slug: Option<Seq<char>>,
    pub banner_image: Option<Seq<char>>,
}

/// One source file's entry in the manifest.
#[derive(Debug, Clone)]
pub struct LocalPostRecord {
    source_path: SourcePath,
    post_id: Option<PostId>,
    slug: Option<String>,
    banner_image: Option<SourcePath>,
}

pub open spec fn opt_post_id(o: Option<PostId>) -> Option<u64> {
    match o {
        Some(p) => Some(p@),
        None => None,
    }
}

pub open spec fn opt_source(o: Option<SourcePath>) -> Option<Seq<char>> {
    match o {
        Some(p) => Some(p@),
        None => None,
    }
}

impl View for LocalPostRecord {
    type V = RecordValue;

    closed spec fn view(&self) -> RecordValue {
        RecordValue {
            source_path: self.source_path@,
            post_id: opt_post_id(self.post_id),
            slug: opt_view(self.slug),
            banner_image: opt_source(self.banner_image),
        }
    }
}

/// The post a record names, when it has both an id and a slug.
pub open spec fn published_of(r: RecordValue) -> Option<(u64, Seq<char>)> {
    match (r.post_id, r.slug) {
        (Some(id), Some(slug)) => Some((id, slug)),
        _ => None,
    }
}

/// A record with the fields that `update` supplies replaced.
pub open spec fn merged(r: RecordValue, update: RecordValue) -> RecordValue {
    RecordValue {
        source_path: r.source_path,
        post_id: if update.post_id is Some {
            update.post_id
        } else {
            r.post_id
        },
        slug: if update.slug is Some {
            update.slug
        } else {
            r.slug
        },
        banner_image: if update.banner_image is Some {
            update.banner_image
        } else {
            r.banner_image
        },
    }
}

impl LocalPostRecord {
    pub fn new(
        source_path: SourcePath,
        post_id: Option<PostId>,
        slug: Option<String>,
        banner_image: Option<SourcePath>,
    ) -> (r: Self)
        ensures
            r@ == (RecordValue {
                source_path: source_path@,
                post_id: opt_post_id(post_id),
                slug: opt_view(slug),
                banner_image: opt_source(banner_image),
            }),
    {
        LocalPostRecord { source_path, post_id, slug, banner_image }
    }

    pub fn source_path(&self) -> (r: &SourcePath)
        ensures
            r@ == self@.source_path,
    {
        &self.source_path
    }

    pub fn post_id(&self) -> (r: Option<PostId>)
        ensures
            opt_post_id(r) == self@.post_id,
    {
        self.post_id
    }

    pub fn slug(&self) -> (r: Option<&str>)
        ensures
            r matches Some(s) ==> self@.slug == Some(s@),
            r is None ==> self@.slug is None,
    {
        match &self.slug {
            Some(s) => Some(s.as_str()),
            None => None,
        }
    }

    pub fn banner_image(&self) -> (r: Option<&SourcePath>)
        ensures
            r matches Some(b) ==> self@.banner_image == Some(b@),
            r is None ==> self@.banner_image is None,
    {
        match &self.banner_image {
            Some(b) => Some(b),
            None => None,
        }
    }

    /// The published post this record names, when it has an id and a slug.
    pub fn published_post(&self) -> (r: Option<PublishedLocalPost>)
        ensures
            r matches Some(p) ==> published_of(self@) == Some(p@),
            r is None ==> published_of(self@) is None,
    {
        match (&self.post_id, &self.slug) {
            (Some(id), Some(slug)) => Some(PublishedLocalPost { post_id: *id, slug: slug.clone() }),
            _ => None,
        }
    }

    /// Takes over each field that `update` supplies.
    pub fn merge(&mut self, update: LocalPostRecord)
        ensures
            final(self)@ == merged(old(self)@, update@),
    {
        if let Some(post_id) = update.post_id {
            self.post_id = Some(post_id);
        }
        if let Some(slug) = update.slug {
            self.slug = Some(slug);
        }
        if let Some(banner_image) = update.banner_image {
            self.banner_image = Some(banner_image);
        }
    }
}

// ── Published posts ─────────────────────────────────────────────────

/// A source file's published post: its id and slug.
#[derive(Debug, Clone)]
pub struct PublishedLocalPost {
    post_id: PostId,
    slug: String,
}

impl View for PublishedLocalPost {
    type V = (u64, Seq<char>);

    closed spec fn view(&self) -> (u64, Seq<char>) {
        (self.post_id@, self.slug@)
    }
}

/// The public address of the post with the given slug.
pub open spec fn canonical_url(hostname: Seq<char>, slug: Seq<char>) -> Seq<char> {
    "https://"@ + hostname + "/p/"@ + slug
}

/// `https://<hostname>/p/<slug>`.
pub fn canonical_url_of(hostname: &str, slug: &str) -> (r: String)
    ensures
        r@ == canonical_url(hostname@, slug@),
{
    let mut v = chars_of("https://");
    append_chars(&mut v, &chars_of(hostname));
    append_chars(&mut v, &chars_of("/p/"));
    append_chars(&mut v, &chars_of(slug));
    string_of(&v)
}

impl PublishedLocalPost {
    pub fn new(post_id: PostId, slug: String) -> (r: Self)
        ensures
            r@ == (post_id@, slug@),
    {
        PublishedLocalPost { post_id, slug }
    }

    /// The post's public address on the publication.
    pub fn canonical_url(&self, hostname: &Hostname) -> (r: String)
        ensures
            r@ == canonical_url(hostname@, self@.1),
    {
        canonical_url_of(hostname.as_str(), self.slug.as_str())
    }

    pub fn post_id(&self) -> (r: &PostId)
        ensures
            r@ == self@.0,
    {
        &self.post_id
    }

    pub fn slug(&self) -> (r: &str)
        ensures
            r@ == self@.1,
    {
        self.slug.as_str()
    }
}

// ── Lookup ──────────────────────────────────────────────────────────

pub open spec fn records_view(v: Seq<LocalPostRecord>) -> Seq<RecordValue> {
    v.map_values(|r: LocalPostRecord| r@)
}

/// The index of the first record for `path` at or after `i`.
pub open spec fn first_index_from(s: Seq<RecordValue>, path: Seq<char>, i: int) -> Option<int>
    decreases s.len() - i,
{
    if i < 0 || i >= s.len() {
        None
    } else if s[i].source_path == path {
        Some(i)
    } else {
        first_index_from(s, path, i + 1)
    }
}

/// The index of the first record for `path`.
pub open spec fn first_index(s: Seq<RecordValue>, path: Seq<char>) -> Option<int> {
    first_index_from(s, path, 0)
}

/// The first record for `path`.
pub open spec fn record_of(s: Seq<RecordValue>, path: Seq<char>) -> Option<RecordValue> {
    match first_index(s, path) {
        Some(i) => Some(s[i]),
        None => None,
    }
}

/// The published post recorded for `path`.
pub open spec fn published_for(s: Seq<RecordValue>, path: Seq<char>) -> Option<(u64, Seq<char>)> {
    match record_of(s, path) {
        Some(r) => published_of(r),
        None => None,
    }
}

/// The banner image recorded for `path`.
pub open spec fn banner_for(s: Seq<RecordValue>, path: Seq<char>) -> Option<Seq<char>> {
    match record_of(s, path) {
        Some(r) => r.banner_image,
        None => None,
    }
}

proof fn lemma_first_index_from(s: Seq<RecordValue>, path: Seq<char>, i: int)
    requires
        0 <= i <= s.len(),
    ensures
        first_index_from(s, path, i) matches Some(k) ==> i <= k < s.len() && s[k].source_path
            == path && forall|j: int| i <= j < k ==> s[j].source_path != path,
        first_index_from(s, path, i) is None ==> forall|j: int|
            i <= j < s.len() ==> s[j].source_path != path,
    decreases s.len() - i,
{
    if i < s.len() && s[i].source_path != path {
        lemma_first_index_from(s, path, i + 1);
    }
}

/// `first_index` is the first position holding `path`, or none when no
/// position does.
pub proof fn lemma_first_index(s: Seq<RecordValue>, path: Seq<char>)
    ensures
        first_index(s, path) matches Some(k) ==> 0 <= k < s.len() && s[k].source_path == path
            && forall|j: int| 0 <= j < k ==> s[j].source_path != path,
        first_index(s, path) is None ==> forall|j: int|
            0 <= j < s.len() ==> s[j].source_path != path,
{
    lemma_first_index_from(s, path, 0);
}

/// Any index that is the first to hold `path` is `first_index`.
pub proof fn lemma_first_index_unique(s: Seq<RecordValue>, path: Seq<char>, k: int)
    requires
        0 <= k < s.len(),
        s[k].source_path == path,
        forall|j: int| 0 <= j < k ==> s[j].source_path != path,
    ensures
        first_index(s, path) == Some(k),
{
    lemma_first_index(s, path);
    if first_index(s, path) is None {
        assert(s[k].source_path != path);
    }
}

/// No position holds `path`.
pub proof fn lemma_first_index_none(s: Seq<RecordValue>, path: Seq<char>)
    requires
        forall|j: int| 0 <= j < s.len() ==> s[j].source_path != path,
    ensures
        first_index(s, path) is None,
{
    lemma_first_index(s, path);
}

/// The record for `path` after the first holding a different path was
/// dropped, or the first record when it holds `path`.
proof fn lemma_record_of_drop_first(s: Seq<RecordValue>, q: Seq<char>)
    requires
        s.len() > 0,
    ensures
        record_of(s, q) == if s[0].source_path == q {
            Some(s[0])
        } else {
            record_of(s.drop_first(), q)
        },
{
    let d = s.drop_first();
    if s[0].source_path == q {
        lemma_first_index_unique(s, q, 0);
    } else {
        lemma_first_index(d, q);
        match first_index(d, q) {
            Some(k) => {
                assert forall|j: int| 0 <= j < k + 1 implies s[j].source_path != q by {
                    if j > 0 {
                        assert(s[j] == d[j - 1]);
                    }
                }
                lemma_first_index_unique(s, q, k + 1);
            },
            None => {
                assert forall|j: int| 0 <= j < s.len() implies s[j].source_path != q by {
                    if j > 0 {
                        assert(s[j] == d[j - 1]);
                    }
                }
                lemma_first_index_none(s, q);
            },
        }
    }
}

/// Inserting a record for another path leaves the record for `q` as it was.
proof fn lemma_record_of_insert(t: Seq<RecordValue>, p: int, x: RecordValue, q: Seq<char>)
    requires
        0 <= p <= t.len(),
        x.source_path != q,
    ensures
        record_of(t.insert(p, x), q) == record_of(t, q),
{
    let u = t.insert(p, x);
    lemma_first_index(t, q);
    match first_index(t, q) {
        Some(k) => {
            let k2 = if k < p {
                k
            } else {
                k + 1
            };
            assert(u[k2] == t[k]);
            assert forall|j: int| 0 <= j < k2 implies u[j].source_path != q by {
                if j < p {
                    assert(u[j] == t[j]);
                } else if j > p {
                    assert(u[j] == t[j - 1]);
                }
            }
            lemma_first_index_unique(u, q, k2);
        },
        None => {
            assert forall|j: int| 0 <= j < u.len() implies u[j].source_path != q by {
                if j < p {
                    assert(u[j] == t[j]);
                } else if j > p {
                    assert(u[j] == t[j - 1]);
                }
            }
            lemma_first_index_none(u, q);
        },
    }
}

// ── Ordering by path ────────────────────────────────────────────────

/// Lexicographic order of paths by character. UTF-8 preserves the order of
/// code points, so this is also the byte order that `str::cmp` uses.
pub open spec fn path_le(a: Seq<char>, b: Seq<char>) -> bool
    decreases a.len(),
{
    if a.len() == 0 {
        true
    } else if b.len() == 0 {
        false
    } else if a[0] != b[0] {
        a[0] < b[0]
    } else {
        path_le(a.drop_first(), b.drop_first())
    }
}

/// Every path is ordered before or at itself.
pub proof fn lemma_path_le_reflexive(a: Seq<char>)
    ensures
        path_le(a, a),
    decreases a.len(),
{
    if a.len() > 0 {
        lemma_path_le_reflexive(a.drop_first());
    }
}

/// Any two paths are ordered one way or the other.
pub proof fn lemma_path_le_total(a: Seq<char>, b: Seq<char>)
    ensures
        path_le(a, b) || path_le(b, a),
    decreases a.len(),
{
    if a.len() > 0 && b.len() > 0 && a[0] == b[0] {
        lemma_path_le_total(a.drop_first(), b.drop_first());
    }
}

/// The order of paths is transitive.
pub proof fn lemma_path_le_transitive(a: Seq<char>, b: Seq<char>, c: Seq<char>)
    requires
        path_le(a, b),
        path_le(b, c),
    ensures
        path_le(a, c),
    decreases a.len(),
{
    if a.len() > 0 && b.len() > 0 && c.len() > 0 && a[0] == b[0] && b[0] == c[0] {
        lemma_path_le_transitive(a.drop_first(), b.drop_first(), c.drop_first());
    }
}

/// Records in order of their paths.
pub open spec fn sorted_by_path(t: Seq<RecordValue>) -> bool {
    forall|i: int, j: int|
        0 <= i < j < t.len() ==> path_le(#[trigger] t[i].source_path, #[trigger] t[j].source_path)
}

/// Where a record for `key` goes among sorted records: before the first one
/// whose path is not smaller, at or after `j`.
pub open spec fn insert_pos_from(t: Seq<RecordValue>, key: Seq<char>, j: int) -> int
    decreases t.len() - j,
{
    if j < 0 || j >= t.len() {
        t.len() as int
    } else if path_le(key, t[j].source_path) {
        j
    } else {
        insert_pos_from(t, key, j + 1)
    }
}

proof fn lemma_insert_pos(t: Seq<RecordValue>, key: Seq<char>, j: int)
    requires
        0 <= j <= t.len(),
    ensures
        j <= insert_pos_from(t, key, j) <= t.len(),
        forall|m: int|
            j <= m < insert_pos_from(t, key, j) ==> !path_le(key, #[trigger] t[m].source_path),
        insert_pos_from(t, key, j) < t.len() ==> path_le(
            key,
            t[insert_pos_from(t, key, j)].source_path,
        ),
    decreases t.len() - j,
{
    if j < t.len() && !path_le(key, t[j].source_path) {
        lemma_insert_pos(t, key, j + 1);
    }
}

/// The records sorted by path, stably: each record, from the last to the
/// first, goes before the sorted records whose paths are not smaller.
pub open spec fn sort_records(s: Seq<RecordValue>) -> Seq<RecordValue>
    decreases s.len(),
{
    if s.len() == 0 {
        s
    } else {
        let t = sort_records(s.drop_first());
        t.insert(insert_pos_from(t, s[0].source_path, 0), s[0])
    }
}

proof fn lemma_insert_sorted(t: Seq<RecordValue>, x: RecordValue)
    requires
        sorted_by_path(t),
    ensures
        sorted_by_path(t.insert(insert_pos_from(t, x.source_path, 0), x)),
{
    let p = insert_pos_from(t, x.source_path, 0);
    lemma_insert_pos(t, x.source_path, 0);
    let u = t.insert(p, x);
    assert forall|i: int, j: int| 0 <= i < j < u.len() implies path_le(
        #[trigger] u[i].source_path,
        #[trigger] u[j].source_path,
    ) by {
        if i == p {
            assert(u[j] == t[j - 1]);
            if j - 1 > p {
                assert(path_le(t[p].source_path, t[j - 1].source_path));
                lemma_path_le_transitive(x.source_path, t[p].source_path, t[j - 1].source_path);
            }
        } else if j == p {
            assert(u[i] == t[i]);
            assert(!path_le(x.source_path, t[i].source_path));
            lemma_path_le_total(x.source_path, t[i].source_path);
        } else {
            let i0 = if i < p {
                i
            } else {
                i - 1
            };
            let j0 = if j < p {
                j
            } else {
                j - 1
            };
            assert(u[i] == t[i0]);
            assert(u[j] == t[j0]);
            assert(path_le(t[i0].source_path, t[j0].source_path));
        }
    }
}

/// Sorting by path keeps the records (as a multiset), orders them by path,
/// and keeps the first record of every path.
pub proof fn lemma_sort_records(s: Seq<RecordValue>)
    ensures
        sorted_by_path(sort_records(s)),
        sort_records(s).len() == s.len(),
        sort_records(s).to_multiset() == s.to_multiset(),
        forall|q: Seq<char>| #[trigger] record_of(sort_records(s), q) == record_of(s, q),
    decreases s.len(),
{
    broadcast use vstd::seq_lib::group_to_multiset_ensures;

    if s.len() > 0 {
        let d = s.drop_first();
        let t = sort_records(d);
        let x = s[0];
        lemma_sort_records(d);
        let p = insert_pos_from(t, x.source_path, 0);
        lemma_insert_pos(t, x.source_path, 0);
        lemma_insert_sorted(t, x);
        let u = t.insert(p, x);
        assert(s =~= seq![x] + d);
        assert(s.to_multiset() =~= d.to_multiset().insert(x)) by {
            vstd::seq_lib::lemma_multiset_commutative(seq![x], d);
            assert(d.push(x).to_multiset() =~= d.to_multiset().insert(x));
            assert(d + seq![x] =~= d.push(x));
        }
        assert forall|q: Seq<char>| #[trigger] record_of(u, q) == record_of(s, q) by {
            lemma_record_of_drop_first(s, q);
            if x.source_path == q {
                assert forall|j: int| 0 <= j < p implies u[j].source_path != q by {
                    assert(u[j] == t[j]);
                    lemma_path_le_reflexive(q);
                }
                lemma_first_index_unique(u, q, p);
            } else {
                lemma_record_of_insert(t, p, x, q);
            }
        }
    }
}

/// The records for `q`, in order.
pub open spec fn records_for(s: Seq<RecordValue>, q: Seq<char>) -> Seq<RecordValue>
    decreases s.len(),
{
    if s.len() == 0 {
        seq![]
    } else if s[0].source_path == q {
        seq![s[0]] + records_for(s.drop_first(), q)
    } else {
        records_for(s.drop_first(), q)
    }
}

proof fn lemma_records_for_insert(t: Seq<RecordValue>, p: int, x: RecordValue, q: Seq<char>)
    requires
        0 <= p <= t.len(),
        x.source_path == q ==> forall|j: int| 0 <= j < p ==> t[j].source_path != q,
    ensures
        records_for(t.insert(p, x), q) == if x.source_path == q {
            seq![x] + records_for(t, q)
        } else {
            records_for(t, q)
        },
    decreases p,
{
    let u = t.insert(p, x);
    if p == 0 {
        assert(u.drop_first() =~= t);
        assert(u[0] == x);
    } else {
        assert(u[0] == t[0]);
        assert(u.drop_first() =~= t.drop_first().insert(p - 1, x));
        lemma_records_for_insert(t.drop_first(), p - 1, x, q);
        if x.source_path == q {
            assert(t[0].source_path != q);
        }
    }
}

/// Sorting by path keeps the records of each path in their order.
pub proof fn lemma_sort_records_stable(s: Seq<RecordValue>, q: Seq<char>)
    ensures
        records_for(sort_records(s), q) == records_for(s, q),
    decreases s.len(),
{
    if s.len() > 0 {
        let d = s.drop_first();
        let t = sort_records(d);
        let x = s[0];
        lemma_sort_records_stable(d, q);
        let p = insert_pos_from(t, x.source_path, 0);
        lemma_insert_pos(t, x.source_path, 0);
        if x.source_path == q {
            assert forall|j: int| 0 <= j < p implies t[j].source_path != q by {
                lemma_path_le_reflexive(q);
            }
        }
        lemma_records_for_insert(t, p, x, q);
    }
}

// ── Upsert ──────────────────────────────────────────────────────────

/// The manifest after recording `rec`: merged into the first record for its
/// path, or else appended and the whole list sorted by path.
pub open spec fn upserted(s: Seq<RecordValue>, rec: RecordValue) -> Seq<RecordValue> {
    match first_index(s, rec.source_path) {
        Some(i) => s.update(i, merged(s[i], rec)),
        None => sort_records(s.push(rec)),
    }
}

/// Recording `rec` makes the record for its path the merge of the previous
/// record (if any) with `rec`, and leaves the record of every other path as
/// it was.
pub proof fn law_upsert_record(s: Seq<RecordValue>, rec: RecordValue, q: Seq<char>)
    ensures
        record_of(upserted(s, rec), q) == if q == rec.source_path {
            Some(
                match record_of(s, q) {
                    Some(old) => merged(old, rec),
                    None => rec,
                },
            )
        } else {
            record_of(s, q)
        },
{
    let key = rec.source_path;
    lemma_first_index(s, key);
    lemma_first_index(s, q);
    match first_index(s, key) {
        Some(i) => {
            let u = s.update(i, merged(s[i], rec));
            if q == key {
                assert forall|j: int| 0 <= j < i implies u[j].source_path != q by {
                    assert(u[j] == s[j]);
                }
                lemma_first_index_unique(u, q, i);
            } else {
                match first_index(s, q) {
                    Some(k) => {
                        assert forall|j: int| 0 <= j < k implies u[j].source_path != q by {
                            if j != i {
                                assert(u[j] == s[j]);
                            }
                        }
                        assert(u[k] == s[k]);
                        lemma_first_index_unique(u, q, k);
                    },
                    None => {
                        assert forall|j: int| 0 <= j < u.len() implies u[j].source_path != q by {
                            if j != i {
                                assert(u[j] == s[j]);
                            }
                        }
                        lemma_first_index_none(u, q);
                    },
                }
            }
        },
        None => {
            let w = s.push(rec);
            lemma_sort_records(w);
            assert(record_of(sort_records(w), q) == record_of(w, q));
            if q == key {
                assert forall|j: int| 0 <= j < s.len() implies w[j].source_path != q by {
                    assert(w[j] == s[j]);
                }
                lemma_first_index_unique(w, q, s.len() as int);
            } else {
                match first_index(s, q) {
                    Some(k) => {
                        assert forall|j: int| 0 <= j < k implies w[j].source_path != q by {
                            assert(w[j] == s[j]);
                        }
                        assert(w[k] == s[k]);
                        lemma_first_index_unique(w, q, k);
                    },
                    None => {
                        assert forall|j: int| 0 <= j < w.len() implies w[j].source_path != q by {
                            if j < s.len() {
                                assert(w[j] == s[j]);
                            }
                        }
                        lemma_first_index_none(w, q);
                    },
                }
            }
        },
    }
}

/// No two records hold the same path.
pub open spec fn distinct_paths(t: Seq<RecordValue>) -> bool {
    forall|i: int, j: int|
        0 <= i < j < t.len() ==> (#[trigger] t[i]).source_path != (#[trigger] t[j]).source_path
}

proof fn lemma_sort_distinct(w: Seq<RecordValue>)
    requires
        distinct_paths(w),
    ensures
        distinct_paths(sort_records(w)),
    decreases w.len(),
{
    if w.len() > 0 {
        let d = w.drop_first();
        let x = w[0];
        assert forall|i: int, j: int| 0 <= i < j < d.len() implies (#[trigger] d[i]).source_path
            != (#[trigger] d[j]).source_path by {
            assert(d[i] == w[i + 1]);
            assert(d[j] == w[j + 1]);
        }
        lemma_sort_distinct(d);
        let t = sort_records(d);
        lemma_sort_records(d);
        assert forall|j: int| 0 <= j < d.len() implies d[j].source_path != x.source_path by {
            assert(d[j] == w[j + 1]);
            assert(w[0] == x);
        }
        lemma_first_index_none(d, x.source_path);
        assert(record_of(t, x.source_path) == record_of(d, x.source_path));
        lemma_first_index(t, x.source_path);
        let p = insert_pos_from(t, x.source_path, 0);
        lemma_insert_pos(t, x.source_path, 0);
        let u = t.insert(p, x);
        assert forall|i: int, j: int| 0 <= i < j < u.len() implies (#[trigger] u[i]).source_path
            != (#[trigger] u[j]).source_path by {
            if i == p {
                assert(u[j] == t[j - 1]);
            } else if j == p {
                assert(u[i] == t[i]);
            } else {
                let i0 = if i < p {
                    i
                } else {
                    i - 1
                };
                let j0 = if j < p {
                    j
                } else {
                    j - 1
                };
                assert(u[i] == t[i0]);
                assert(u[j] == t[j0]);
            }
        }
    }
}

/// Recording into a manifest that is sorted by path with no path twice
/// keeps it so; afterwards it holds exactly the paths it held and the
/// recorded one; the record for that path is the previous record with the
/// supplied fields taken over, or the recorded one as it is; every other
/// path's record is unchanged; and the list grows by one exactly when the
/// path is new.
pub proof fn law_upsert_sorted_distinct(s: Seq<RecordValue>, rec: RecordValue)
    requires
        sorted_by_path(s),
        distinct_paths(s),
    ensures
        sorted_by_path(upserted(s, rec)),
        distinct_paths(upserted(s, rec)),
        forall|q: Seq<char>|
            (#[trigger] record_of(upserted(s, rec), q)) is Some == (record_of(s, q) is Some || q
                == rec.source_path),
        record_of(upserted(s, rec), rec.source_path) == Some(
            match record_of(s, rec.source_path) {
                Some(old) => merged(old, rec),
                None => rec,
            },
        ),
        forall|q: Seq<char>|
            q != rec.source_path ==> #[trigger] record_of(upserted(s, rec), q) == record_of(s, q),
        upserted(s, rec).len() == s.len() + if record_of(s, rec.source_path) is Some {
            0int
        } else {
            1int
        },
{
    let u = upserted(s, rec);
    assert forall|q: Seq<char>|
        (#[trigger] record_of(u, q)) is Some == (record_of(s, q) is Some || q == rec.source_path)
        && (q != rec.source_path ==> record_of(u, q) == record_of(s, q)) by {
        law_upsert_record(s, rec, q);
    }
    law_upsert_record(s, rec, rec.source_path);
    lemma_first_index(s, rec.source_path);
    match first_index(s, rec.source_path) {
        Some(i) => {
            assert(u[i].source_path == s[i].source_path);
            assert forall|a: int, b: int| 0 <= a < b < u.len() implies path_le(
                #[trigger] u[a].source_path,
                #[trigger] u[b].source_path,
            ) && u[a].source_path != u[b].source_path by {
                assert(u[a].source_path == s[a].source_path);
                assert(u[b].source_path == s[b].source_path);
            }
        },
        None => {
            let w = s.push(rec);
            lemma_sort_records(w);
            assert forall|a: int, b: int| 0 <= a < b < w.len() implies (#[trigger] w[a]).source_path
                != (#[trigger] w[b]).source_path by {
                assert(w[a] == s[a]);
                if b < s.len() {
                    assert(w[b] == s[b]);
                }
            }
            lemma_sort_distinct(w);
        },
    }
}

/// Recording a path that the manifest does not hold yet leaves the manifest
/// sorted by path, with every earlier record kept and the records of each
/// path in their order.
pub proof fn law_new_path_keeps_manifest_sorted(s: Seq<RecordValue>, rec: RecordValue, q: Seq<char>)
    requires
        record_of(s, rec.source_path) is None,
    ensures
        sorted_by_path(upserted(s, rec)),
        upserted(s, rec).to_multiset() == s.push(rec).to_multiset(),
        records_for(upserted(s, rec), q) == records_for(s.push(rec), q),
{
    lemma_sort_records(s.push(rec));
    lemma_sort_records_stable(s.push(rec), q);
}

// ── The manifest ────────────────────────────────────────────────────

/// `path_le` on two texts.
pub fn path_le_of(a: &str, b: &str) -> (r: bool)
    ensures
        r == path_le(a@, b@),
{
    let x = chars_of(a);
    let y = chars_of(b);
    let mut i: usize = 0;
    assert(x@.skip(0) =~= x@);
    assert(y@.skip(0) =~= y@);
    while i < x.len() && i < y.len() && x[i] == y[i]
        invariant
            i <= x@.len(),
            i <= y@.len(),
            path_le(x@, y@) == path_le(x@.skip(i as int), y@.skip(i as int)),
        decreases x@.len() - i,
    {
        proof {
            let xs = x@.skip(i as int);
            let ys = y@.skip(i as int);
            assert(xs.drop_first() =~= x@.skip(i + 1));
            assert(ys.drop_first() =~= y@.skip(i + 1));
        }
        i = i + 1;
    }
    if i == x.len() {
        true
    } else if i == y.len() {
        false
    } else {
        x[i] < y[i]
    }
}

/// Where a record for `key` goes among `t`.
fn insert_position(t: &Vec<LocalPostRecord>, key: &SourcePath) -> (r: usize)
    ensures
        r == insert_pos_from(records_view(t@), key@, 0),
        r <= t@.len(),
{
    let ghost tv = records_view(t@);
    proof {
        lemma_insert_pos(tv, key@, 0);
    }
    let mut j: usize = 0;
    while j < t.len()
        invariant
            j <= t@.len(),
            tv == records_view(t@),
            insert_pos_from(tv, key@, 0) == insert_pos_from(tv, key@, j as int),
        decreases t@.len() - j,
    {
        if path_le_of(key.as_str(), t[j].source_path.as_str()) {
            return j;
        }
        j = j + 1;
    }
    j
}

/// The records sorted by path, stably.
fn sort_by_source_path(v: Vec<LocalPostRecord>) -> (r: Vec<LocalPostRecord>)
    ensures
        records_view(r@) == sort_records(records_view(v@)),
{
    let ghost s = records_view(v@);
    let mut rest = v;
    let mut out: Vec<LocalPostRecord> = Vec::new();
    assert(s.skip(s.len() as int) =~= Seq::<RecordValue>::empty());
    assert(records_view(out@) =~= Seq::<RecordValue>::empty());
    while rest.len() > 0
        invariant
            rest@.len() <= s.len(),
            records_view(rest@) == s.take(rest@.len() as int),
            records_view(out@) == sort_records(s.skip(rest@.len() as int)),
        decreases rest@.len(),
    {
        let ghost n = rest@.len() as int;
        let ghost before = rest@;
        let x = rest.pop().unwrap();
        proof {
            assert(x == before[n - 1]);
            assert(records_view(before)[n - 1] == before[n - 1]@);
            assert(records_view(rest@) =~= s.take(n - 1));
            assert(x@ == s[n - 1]);
            let tail = s.skip(n - 1);
            assert(tail.drop_first() =~= s.skip(n));
            assert(tail[0] == s[n - 1]);
        }
        let k = insert_position(&out, &x.source_path);
        out.insert(k, x);
        assert(records_view(out@) =~= sort_records(s.skip(n - 1)));
    }
    assert(s.skip(0) =~= s);
    out
}

/// The manifest's records, in stored order.
#[derive(Debug, Clone)]
pub struct LocalPostManifest {
    posts: Vec<LocalPostRecord>,
}

impl View for LocalPostManifest {
    type V = Seq<RecordValue>;

    closed spec fn view(&self) -> Seq<RecordValue> {
        records_view(self.posts@)
    }
}

impl Default for LocalPostManifest {
    fn default() -> (r: Self)
        ensures
            r@ == Seq::<RecordValue>::empty(),
    {
        let r = LocalPostManifest { posts: Vec::new() };
        assert(r@ =~= Seq::<RecordValue>::empty());
        r
    }
}

impl LocalPostManifest {
    /// A manifest holding the given records in the given order.
    pub fn from_records(posts: Vec<LocalPostRecord>) -> (r: Self)
        ensures
            r@ == records_view(posts@),
    {
        LocalPostManifest { posts }
    }

    /// The records, in stored order.
    pub fn records(&self) -> (r: &Vec<LocalPostRecord>)
        ensures
            records_view(r@) == self@,
    {
        &self.posts
    }

    fn position(&self, source_path: &SourcePath) -> (r: Option<usize>)
        ensures
            r matches Some(i) ==> first_index(self@, source_path@) == Some(i as int) && i
                < self.posts@.len(),
            r is None ==> first_index(self@, source_path@) is None,
    {
        let ghost s = self@;
        proof {
            lemma_first_index(s, source_path@);
        }
        let mut i: usize = 0;
        while i < self.posts.len()
            invariant
                i <= self.posts@.len(),
                s == records_view(self.posts@),
                first_index(s, source_path@) == first_index_from(s, source_path@, i as int),
            decreases self.posts@.len() - i,
        {
            if self.posts[i].source_path.0 == source_path.0 {
                return Some(i);
            }
            i = i + 1;
        }
        None
    }

    /// The published post recorded for `source_path`.
    pub fn find(&self, source_path: &SourcePath) -> (r: Option<PublishedLocalPost>)
        ensures
            r matches Some(p) ==> published_for(self@, source_path@) == Some(p@),
            r is None ==> published_for(self@, source_path@) is None,
    {
        match self.position(source_path) {
            Some(i) => self.posts[i].published_post(),
            None => None,
        }
    }

    /// The record for `source_path`.
    pub fn find_record(&self, source_path: &SourcePath) -> (r: Option<&LocalPostRecord>)
        ensures
            r matches Some(rec) ==> record_of(self@, source_path@) == Some(rec@),
            r is None ==> record_of(self@, source_path@) is None,
    {
        match self.position(source_path) {
            Some(i) => Some(&self.posts[i]),
            None => None,
        }
    }

    /// Records `record`: merges it into the record for its path, or appends
    /// it and sorts the records by path.
    pub fn upsert(&mut self, record: LocalPostRecord)
        ensures
            final(self)@ == upserted(old(self)@, record@),
    {
        match self.position(&record.source_path) {
            Some(i) => {
                let mut existing = self.posts.remove(i);
                existing.merge(record);
                self.posts.insert(i, existing);
                assert(self@ =~= upserted(old(self)@, record@));
            },
            None => {
                let mut posts = Vec::new();
                std::mem::swap(&mut posts, &mut self.posts);
                posts.push(record);
                assert(records_view(posts@) =~= old(self)@.push(record@));
                self.posts = sort_by_source_path(posts);
            },
        }
    }
}

// ── The manifest file ───────────────────────────────────────────────

/// The name of what `std::path::Path::strip_prefix` gives for `path` and
/// `base`: the rest of `path` after the components of `base`, or nothing
/// when `base` is not a prefix of `path`.
pub uninterp spec fn path_strip_prefix(path: Seq<char>, base: Seq<char>) -> Option<Seq<char>>;

/// `std::path::Path::strip_prefix`, with the remainder read back as text.
/// Claimed: the result is `path_strip_prefix` of the two texts, and for
/// normal paths (absolute, with no empty, `.` or `..` component and no
/// trailing separator) it is the rest after `base`'s components, which
/// joined onto `base` yields `path`, as the documentation says
/// (`normal_strip_prefix`); for other paths nothing more is said of it.
#[verifier::external_body]
fn strip_path_prefix(path: &str, base: &str) -> (r: Option<String>)
    ensures
        opt_view(r) == path_strip_prefix(path@, base@),
        is_normal_path(path@) && is_normal_path(base@) ==> opt_view(r) == normal_strip_prefix(
            path@,
            base@,
        ),
{
    match std::path::Path::new(path).strip_prefix(base) {
        Ok(rest) => rest.to_str().map(str::to_owned),
        Err(_) => None,
    }
}

/// The file name of the manifest.
pub open spec fn manifest_file_name() -> Seq<char> {
    ".substack-posts.json"@
}

/// The first candidate from `i` on that is marked as a repository root.
pub open spec fn first_marked(c: Seq<(Seq<char>, bool)>, i: int) -> Option<Seq<char>>
    decreases c.len() - i,
{
    if i < 0 || i >= c.len() {
        None
    } else if c[i].1 {
        Some(c[i].0)
    } else {
        first_marked(c, i + 1)
    }
}

pub open spec fn candidates_view(c: Seq<(String, bool)>) -> Seq<(Seq<char>, bool)> {
    c.map_values(|x: (String, bool)| (x.0@, x.1))
}

/// The first candidate marked as a repository root, or the start directory.
fn marked_root(absolute_start: &str, candidates: &Vec<(String, bool)>) -> (r: Vec<char>)
    ensures
        r@ == match first_marked(candidates_view(candidates@), 0) {
            Some(root) => root,
            None => absolute_start@,
        },
{
    let ghost cv = candidates_view(candidates@);
    let mut i: usize = 0;
    while i < candidates.len()
        invariant
            i <= candidates@.len(),
            cv == candidates_view(candidates@),
            first_marked(cv, 0) == first_marked(cv, i as int),
        decreases candidates@.len() - i,
    {
        if candidates[i].1 {
            return chars_of(candidates[i].0.as_str());
        }
        i = i + 1;
    }
    chars_of(absolute_start)
}

/// The manifest file and the records it holds.
pub struct LocalPostManifestFile {
    path: String,
    manifest: LocalPostManifest,
}

impl View for LocalPostManifestFile {
    type V = (Seq<char>, Seq<RecordValue>);

    closed spec fn view(&self) -> (Seq<char>, Seq<RecordValue>) {
        (self.path@, self.manifest@)
    }
}

impl LocalPostManifestFile {
    /// The manifest at `explicit_path` when one is given, else at
    /// `default_path`. It holds no records until `load` gives it the stored
    /// ones.
    pub fn discover(explicit_path: Option<&str>, default_path: &str) -> (r: Self)
        ensures
            r@.0 == match explicit_path {
                Some(p) => p@,
                None => default_path@,
            },
            r@.1 == Seq::<RecordValue>::empty(),
    {
        let path = match explicit_path {
            Some(p) => p.to_owned(),
            None => default_path.to_owned(),
        };
        LocalPostManifestFile { path, manifest: LocalPostManifest::default() }
    }

    /// Takes the records stored in the manifest file.
    pub fn load(&mut self, stored: LocalPostManifest)
        ensures
            final(self)@ == (old(self)@.0, stored@),
    {
        self.manifest = stored;
    }

    /// Where the manifest file is.
    pub fn path(&self) -> (r: &str)
        ensures
            r@ == self@.0,
    {
        self.path.as_str()
    }

    /// The records.
    pub fn manifest(&self) -> (r: &LocalPostManifest)
        ensures
            r@ == self@.1,
    {
        &self.manifest
    }

    /// The default manifest location for a start directory: in the first of
    /// its ancestors (itself first) that is a repository root, marked in
    /// `candidates`, or else in the start directory itself.
    pub fn default_path(absolute_start: &str, candidates: &Vec<(String, bool)>) -> (r: String)
        ensures
            r@ == join_path(
                match first_marked(candidates_view(candidates@), 0) {
                    Some(root) => root,
                    None => absolute_start@,
                },
                manifest_file_name(),
            ),
    {
        let root = marked_root(absolute_start, candidates);
        let name = chars_of(".substack-posts.json");
        string_of(&join_path_of(&root, &name))
    }

    /// A source file's path relative to the manifest root. `canonical` is
    /// the source file's canonical path, or nothing when it does not exist;
    /// `display` is the path as the user gave it.
    pub fn source_path(display: &str, canonical: Option<&str>, manifest_root: &str) -> (r: Result<
        SourcePath,
        Error,
    >)
        ensures
            canonical is None ==> (r matches Err(Error::MissingLinkedFile { path }) && path@
                == display@),
            canonical matches Some(c) ==> match path_strip_prefix(c@, manifest_root@) {
                Some(rel) => r matches Ok(sp) && sp@ == rel,
                None => r matches Err(Error::LinkedFileOutsideManifestRoot { path, manifest_root: root })
                    && path@ == c@ && root@ == manifest_root@,
            },
            canonical matches Some(c) ==> is_normal_path(c@) ==> is_normal_path(manifest_root@)
                ==> match normal_strip_prefix(c@, manifest_root@) {
                Some(rel) => r matches Ok(sp) && sp@ == rel,
                None => r matches Err(Error::LinkedFileOutsideManifestRoot { path, manifest_root: root })
                    && path@ == c@ && root@ == manifest_root@,
            },
    {
        match canonical {
            None => Err(Error::MissingLinkedFile { path: display.to_owned() }),
            Some(c) => {
                let relative = strip_path_prefix(c, manifest_root);
                LocalPostManifestFile::relative_source_path(c, manifest_root, relative)
            },
        }
    }

    /// The source path that `relative` (what `Path::strip_prefix` gave for
    /// `canonical` and `manifest_root`) stands for: none means the file lies
    /// outside the manifest root.
    pub fn relative_source_path(canonical: &str, manifest_root: &str, relative: Option<String>) -> (r:
        Result<SourcePath, Error>)
        ensures
            relative matches Some(rel) ==> r matches Ok(sp) && sp@ == rel@,
            relative is None ==> (r matches Err(
                Error::LinkedFileOutsideManifestRoot { path, manifest_root: root },
            ) && path@ == canonical@ && root@ == manifest_root@),
    {
        match relative {
            Some(rel) => Ok(SourcePath(rel)),
            None => Err(
                Error::LinkedFileOutsideManifestRoot {
                    path: canonical.to_owned(),
                    manifest_root: manifest_root.to_owned(),
                },
            ),
        }
    }

    /// The published post recorded for a source file.
    pub fn published_post(&self, source_path: &SourcePath) -> (r: Option<PublishedLocalPost>)
        ensures
            r matches Some(p) ==> published_for(self@.1, source_path@) == Some(p@),
            r is None ==> published_for(self@.1, source_path@) is None,
    {
        self.manifest.find(source_path)
    }

    /// Records that a source file was published as `post_id` under `slug`.
    pub fn record_post(&mut self, source_path: SourcePath, post_id: PostId, slug: String) -> (r:
        PublishedLocalPost)
        ensures
            r@ == (post_id@, slug@),
            final(self)@.0 == old(self)@.0,
            final(self)@.1 == upserted(
                old(self)@.1,
                RecordValue {
                    source_path: source_path@,
                    post_id: Some(post_id@),
                    slug: Some(slug@),
                    banner_image: None,
                },
            ),
    {
        let published = PublishedLocalPost { post_id, slug: slug.clone() };
        let record = LocalPostRecord {
            source_path,
            post_id: Some(post_id),
            slug: Some(slug),
            banner_image: None,
        };
        self.manifest.upsert(record);
        published
    }

    /// Records the banner image of a source file.
    pub fn record_banner_image(&mut self, source_path: SourcePath, banner_image: SourcePath)
        ensures
            final(self)@.0 == old(self)@.0,
            final(self)@.1 == upserted(
                old(self)@.1,
                RecordValue {
                    source_path: source_path@,
                    post_id: None,
                    slug: None,
                    banner_image: Some(banner_image@),
                },
            ),
    {
        let record = LocalPostRecord {
            source_path,
            post_id: None,
            slug: None,
            banner_image: Some(banner_image),
        };
        self.manifest.upsert(record);
    }

    /// Records the banner image of a source file, each file given as the
    /// path the user gave and its canonical path (none when it does not
    /// exist). The source is resolved against the manifest root first, then
    /// the banner; a file that does not exist or lies outside the root is
    /// refused, and the manifest is then left as it was.
    pub fn record_banner_image_file(
        &mut self,
        source_display: &str,
        source_canonical: Option<&str>,
        banner_display: &str,
        banner_canonical: Option<&str>,
        manifest_root: &str,
    ) -> (r: Result<(), Error>)
        ensures
            source_canonical is None ==> (r matches Err(Error::MissingLinkedFile { path }) && path@
                == source_display@),
            source_canonical matches Some(c) ==> path_strip_prefix(c@, manifest_root@) is None ==> (
            r matches Err(Error::LinkedFileOutsideManifestRoot { path, manifest_root: root }) && path@
                == c@ && root@ == manifest_root@),
            resolved_source(opt_str_view(source_canonical), manifest_root@) is Some
                ==> banner_canonical is None ==> (r matches Err(Error::MissingLinkedFile { path })
                && path@ == banner_display@),
            resolved_source(opt_str_view(source_canonical), manifest_root@) is Some ==> (
            banner_canonical matches Some(c) ==> path_strip_prefix(c@, manifest_root@) is None ==> (
            r matches Err(Error::LinkedFileOutsideManifestRoot { path, manifest_root: root }) && path@
                == c@ && root@ == manifest_root@)),
            r is Ok <==> (resolved_source(opt_str_view(source_canonical), manifest_root@) is Some
                && resolved_source(opt_str_view(banner_canonical), manifest_root@) is Some),
            r is Err ==> final(self)@ == old(self)@,
            r is Ok ==> ({
                let source = resolved_source(opt_str_view(source_canonical), manifest_root@).unwrap();
                let banner = resolved_source(opt_str_view(banner_canonical), manifest_root@).unwrap();
                &&& final(self)@.0 == old(self)@.0
                &&& final(self)@.1 == upserted(old(self)@.1, banner_record(source, banner))
                &&& banner_for(final(self)@.1, source) == Some(banner)
                &&& published_for(final(self)@.1, source) == published_for(old(self)@.1, source)
            }),
            r is Ok ==> (banner_canonical matches Some(c) ==> is_normal_path(c@) ==> is_normal_path(
                manifest_root@,
            ) ==> c@ != manifest_root@ ==> join_path(
                manifest_root@,
                resolved_source(opt_str_view(banner_canonical), manifest_root@).unwrap(),
            ) == c@),
    {
        let source = match LocalPostManifestFile::source_path(source_display, source_canonical, manifest_root) {
            Ok(s) => s,
            Err(e) => return Err(e),
        };
        let banner = match LocalPostManifestFile::source_path(banner_display, banner_canonical, manifest_root) {
            Ok(b) => b,
            Err(e) => return Err(e),
        };
        proof {
            law_banner_after_record_banner(self@.1, source@, banner@);
            if let Some(c) = banner_canonical {
                if is_normal_path(c@) && is_normal_path(manifest_root@) && c@ != manifest_root@ {
                    law_strip_prefix_joins_back(c@, manifest_root@);
                }
            }
        }
        self.record_banner_image(source, banner);
        Ok(())
    }

    /// Where the banner image recorded for a source file is: its recorded
    /// path joined onto the manifest root.
    pub fn banner_image_path(&self, source_path: &SourcePath, manifest_root: &str) -> (r: Option<
        String,
    >)
        ensures
            banner_for(self@.1, source_path@) matches Some(b) ==> r matches Some(p) && p@
                == join_path(manifest_root@, b),
            banner_for(self@.1, source_path@) is None ==> r is None,
    {
        match self.manifest.find_record(source_path) {
            Some(record) => match &record.banner_image {
                Some(banner) => {
                    let root = chars_of(manifest_root);
                    let b = chars_of(banner.as_str());
                    Some(string_of(&join_path_of(&root, &b)))
                },
                None => None,
            },
            None => None,
        }
    }
}

/// The source path of a file from its canonical path (none when it does not
/// exist), relative to the manifest root: none when the file is missing or
/// lies outside the root.
pub open spec fn resolved_source(canonical: Option<Seq<char>>, manifest_root: Seq<char>) -> Option<
    Seq<char>,
> {
    match canonical {
        Some(c) => path_strip_prefix(c, manifest_root),
        None => None,
    }
}

/// The record that `record_post` adds for a source file.
pub open spec fn post_record(source: Seq<char>, post_id: u64, slug: Seq<char>) -> RecordValue {
    RecordValue { source_path: source, post_id: Some(post_id), slug: Some(slug), banner_image: None }
}

/// The record that `record_banner_image` adds for a source file.
pub open spec fn banner_record(source: Seq<char>, banner: Seq<char>) -> RecordValue {
    RecordValue { source_path: source, post_id: None, slug: None, banner_image: Some(banner) }
}

/// Once a source file is recorded as published, looking it up gives the post
/// that was recorded.
pub proof fn law_published_post_after_record_post(
    m: Seq<RecordValue>,
    source: Seq<char>,
    post_id: u64,
    slug: Seq<char>,
)
    ensures
        published_for(upserted(m, post_record(source, post_id, slug)), source) == Some(
            (post_id, slug),
        ),
{
    law_upsert_record(m, post_record(source, post_id, slug), source);
}

/// Recording a published post keeps the banner image recorded for the source.
pub proof fn law_record_post_keeps_banner(
    m: Seq<RecordValue>,
    source: Seq<char>,
    post_id: u64,
    slug: Seq<char>,
)
    ensures
        banner_for(upserted(m, post_record(source, post_id, slug)), source) == banner_for(
            m,
            source,
        ),
{
    law_upsert_record(m, post_record(source, post_id, slug), source);
}

/// Once a banner image is recorded for a source file, looking it up gives
/// that banner, and whether the source counts as published does not change.
pub proof fn law_banner_after_record_banner(m: Seq<RecordValue>, source: Seq<char>, banner: Seq<char>)
    ensures
        banner_for(upserted(m, banner_record(source, banner)), source) == Some(banner),
        published_for(upserted(m, banner_record(source, banner)), source) == published_for(
            m,
            source,
        ),
{
    law_upsert_record(m, banner_record(source, banner), source);
}

/// Recording one source file changes nothing that is looked up for another.
pub proof fn law_record_leaves_other_sources(m: Seq<RecordValue>, rec: RecordValue, other: Seq<char>)
    requires
        other != rec.source_path,
    ensures
        published_for(upserted(m, rec), other) == published_for(m, other),
        banner_for(upserted(m, rec), other) == banner_for(m, other),
{
    law_upsert_record(m, rec, other);
}

/// A banner recorded under its path relative to a normal manifest root (as
/// `source_path` gives it for the banner's canonical path) reads back,
/// joined onto the root, as that canonical path; whether the source counts
/// as published is unchanged.
pub proof fn law_banner_path_reads_back(
    m: Seq<RecordValue>,
    source: Seq<char>,
    root: Seq<char>,
    canonical: Seq<char>,
)
    requires
        is_normal_path(root),
        is_normal_path(canonical),
        canonical != root,
        normal_strip_prefix(canonical, root) is Some,
    ensures
        ({
            let banner = normal_strip_prefix(canonical, root).unwrap();
            let after = upserted(m, banner_record(source, banner));
            &&& banner_for(after, source) == Some(banner)
            &&& join_path(root, banner) == canonical
            &&& published_for(after, source) == published_for(m, source)
        }),
{
    let banner = normal_strip_prefix(canonical, root).unwrap();
    law_banner_after_record_banner(m, source, banner);
    law_strip_prefix_joins_back(canonical, root);
}

} // verus!
