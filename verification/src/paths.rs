//! Unix path text: absolute paths, joining, resolution against a base
//! directory, and the file name and extension of a path, following
//! `std::path::Path` on Unix.

use vstd::prelude::*;

use crate::text::{append_chars, slice_of, split, split_of, starts_with, views};

verus! {

/// A path that starts at the root.
pub open spec fn is_absolute(p: Seq<char>) -> bool {
    p.len() > 0 && p[0] == '/'
}

/// `base.join(p)`: `p` itself when absolute, otherwise `p` after `base` with
/// one separator between them.
pub open spec fn join_path(base: Seq<char>, p: Seq<char>) -> Seq<char> {
    if is_absolute(p) {
        p
    } else if base.len() > 0 && base.last() == '/' {
        base + p
    } else if base.len() == 0 {
        p
    } else {
        base + seq!['/'] + p
    }
}

/// A path resolved against an optional base directory: absolute paths and
/// paths without a (non-empty) base stay as they are.
pub open spec fn resolve_path(p: Seq<char>, base: Option<Seq<char>>) -> Seq<char> {
    if is_absolute(p) {
        p
    } else {
        match base {
            Some(b) => if b.len() > 0 {
                join_path(b, p)
            } else {
                p
            },
            None => p,
        }
    }
}

/// `base.join(p)`.
pub fn join_path_of(base: &Vec<char>, p: &Vec<char>) -> (r: Vec<char>)
    ensures
        r@ == join_path(base@, p@),
{
    if p.len() > 0 && p[0] == '/' {
        return slice_of(p, 0, p.len());
    }
    let mut out = slice_of(base, 0, base.len());
    if base.len() > 0 && base[base.len() - 1] != '/' {
        out.push('/');
    }
    append_chars(&mut out, p);
    assert(p@.subrange(0, p@.len() as int) =~= p@);
    assert(base@.subrange(0, base@.len() as int) =~= base@);
    out
}

/// A path resolved against an optional base directory.
pub fn resolve_path_of(p: &Vec<char>, base: Option<&Vec<char>>) -> (r: Vec<char>)
    ensures
        r@ == resolve_path(
            p@,
            match base {
                Some(b) => Some(b@),
                None => None,
            },
        ),
{
    assert(p@.subrange(0, p@.len() as int) =~= p@);
    if p.len() > 0 && p[0] == '/' {
        return slice_of(p, 0, p.len());
    }
    match base {
        Some(b) => if b.len() > 0 {
            join_path_of(b, p)
        } else {
            slice_of(p, 0, p.len())
        },
        None => slice_of(p, 0, p.len()),
    }
}

/// The last of the first `n` segments that is a normal component (not empty
/// and not `.`).
pub open spec fn last_component(segs: Seq<Seq<char>>, n: int) -> Option<Seq<char>>
    decreases n,
{
    if n <= 0 {
        None
    } else if segs[n - 1].len() > 0 && segs[n - 1] != seq!['.'] {
        Some(segs[n - 1])
    } else {
        last_component(segs, n - 1)
    }
}

/// `Path::file_name`: the last normal component, unless it is `..`.
pub open spec fn file_name(p: Seq<char>) -> Option<Seq<char>> {
    let segs = split(p, seq!['/']);
    match last_component(segs, segs.len() as int) {
        Some(l) => if l == seq!['.', '.'] {
            None
        } else {
            Some(l)
        },
        None => None,
    }
}

/// The position of the last `.` among the first `n` characters.
pub open spec fn last_dot(s: Seq<char>, n: int) -> Option<int>
    decreases n,
{
    if n <= 0 {
        None
    } else if s[n - 1] == '.' {
        Some(n - 1)
    } else {
        last_dot(s, n - 1)
    }
}

/// `Path::extension`: what follows the last `.` of the file name, when that
/// dot is not its first character.
pub open spec fn extension(p: Seq<char>) -> Option<Seq<char>> {
    match file_name(p) {
        Some(name) => match last_dot(name, name.len() as int) {
            Some(i) => if i == 0 {
                None
            } else {
                Some(name.skip(i + 1))
            },
            None => None,
        },
        None => None,
    }
}

proof fn lemma_last_dot(s: Seq<char>, n: int)
    requires
        n <= s.len(),
    ensures
        last_dot(s, n) matches Some(i) ==> 0 <= i < n,
    decreases n,
{
    if n > 0 && s[n - 1] != '.' {
        lemma_last_dot(s, n - 1);
    }
}

/// `Path::file_name`.
pub fn file_name_of(p: &Vec<char>) -> (r: Option<Vec<char>>)
    ensures
        r matches Some(n) ==> file_name(p@) == Some(n@),
        r is None ==> file_name(p@) is None,
{
    let slash = vec!['/'];
    assert(slash@ =~= seq!['/']);
    let segs = split_of(p, &slash);
    let ghost sv = views(segs@);
    let mut n = segs.len();
    while n > 0
        invariant
            n <= segs@.len(),
            sv == views(segs@),
            sv == split(p@, seq!['/']),
            last_component(sv, sv.len() as int) == last_component(sv, n as int),
        decreases n,
    {
        let seg = &segs[n - 1];
        let is_dot = seg.len() == 1 && seg[0] == '.';
        if seg.len() > 0 && !is_dot {
            proof {
                if seg@ == seq!['.'] {
                    assert(seg@[0] == '.');
                }
            }
            let name = slice_of(seg, 0, seg.len());
            assert(name@ =~= seg@);
            if seg.len() == 2 && seg[0] == '.' && seg[1] == '.' {
                assert(seg@ =~= seq!['.', '.']);
                return None;
            }
            proof {
                if seg@ == seq!['.', '.'] {
                    assert(seg@[0] == '.' && seg@[1] == '.');
                }
            }
            return Some(name);
        }
        proof {
            if seg@.len() == 1 && is_dot {
                assert(seg@ =~= seq!['.']);
            }
        }
        n = n - 1;
    }
    None
}

/// `Path::extension`.
pub fn extension_of(p: &Vec<char>) -> (r: Option<Vec<char>>)
    ensures
        r matches Some(e) ==> extension(p@) == Some(e@),
        r is None ==> extension(p@) is None,
{
    let name = match file_name_of(p) {
        Some(n) => n,
        None => {
            return None;
        },
    };
    let mut n = name.len();
    while n > 0 && name[n - 1] != '.'
        invariant
            n <= name@.len(),
            last_dot(name@, name@.len() as int) == last_dot(name@, n as int),
        decreases n,
    {
        n = n - 1;
    }
    if n == 0 {
        return None;
    }
    if n == 1 {
        return None;
    }
    Some(slice_of(&name, n, name.len()))
}

/// Component `i` of `p` starts at position `i`.
pub open spec fn starts_component(p: Seq<char>, i: int) -> bool {
    i == 0 || p[i - 1] == '/'
}

/// A `.` or `..` component starts at position `i`.
pub open spec fn dot_component(p: Seq<char>, i: int) -> bool {
    &&& starts_component(p, i)
    &&& p[i] == '.'
    &&& (i + 1 == p.len() || p[i + 1] == '/' || (p[i + 1] == '.' && (i + 2 == p.len() || p[i
        + 2] == '/')))
}

/// A path of plain components: not empty, no empty, `.` or `..`
/// component, and no trailing separator (the root alone aside).
pub open spec fn is_plain_path(p: Seq<char>) -> bool {
    &&& p.len() > 0
    &&& p == seq!['/'] || p.last() != '/'
    &&& forall|i: int| 0 <= i < p.len() - 1 ==> !(#[trigger] p[i] == '/' && p[i + 1] == '/')
    &&& forall|i: int| 0 <= i < p.len() ==> !#[trigger] dot_component(p, i)
}

/// An absolute path of plain components, such as a canonical path.
pub open spec fn is_normal_path(p: Seq<char>) -> bool {
    is_absolute(p) && is_plain_path(p)
}

/// The position of the last separator among the first `n` characters.
pub open spec fn last_separator(s: Seq<char>, n: int) -> Option<int>
    decreases n,
{
    if n <= 0 {
        None
    } else if s[n - 1] == '/' {
        Some(n - 1)
    } else {
        last_separator(s, n - 1)
    }
}

/// The parent of a plain path: what comes before its last separator (the
/// root for a path with one component under it, nothing for a relative
/// path of one component), and none for the root.
pub open spec fn plain_parent(p: Seq<char>) -> Option<Seq<char>> {
    if p == seq!['/'] {
        None
    } else {
        match last_separator(p, p.len() as int) {
            None => Some(Seq::empty()),
            Some(k) => if k == 0 {
                Some(seq!['/'])
            } else {
                Some(p.take(k))
            },
        }
    }
}

/// The name of what `std::path::Path::parent` gives for a path: the path
/// without its final component, or nothing for a root or an empty path.
pub uninterp spec fn path_parent(p: Seq<char>) -> Option<Seq<char>>;

/// `std::path::Path::parent`, read back as text. Claimed: the result is
/// `path_parent` of the text, and for a plain path it is the path without
/// its final component as the documentation describes (`plain_parent`);
/// for other paths (with empty, `.` or `..` components or a trailing
/// separator) nothing more is said of it.
#[verifier::external_body]
pub fn parent_of(p: &str) -> (r: Option<String>)
    ensures
        r matches Some(q) ==> path_parent(p@) == Some(q@),
        r is None ==> path_parent(p@) is None,
        is_plain_path(p@) ==> (r matches Some(q) ==> plain_parent(p@) == Some(q@)),
        is_plain_path(p@) ==> (r is None ==> plain_parent(p@) is None),
{
    match std::path::Path::new(p).parent() {
        Some(q) => q.to_str().map(str::to_owned),
        None => None,
    }
}

/// `base` stripped from the front of a normal `path`, component by
/// component: nothing left when they are equal, the rest after the
/// separator when `base` is a proper prefix, and none otherwise.
pub open spec fn normal_strip_prefix(path: Seq<char>, base: Seq<char>) -> Option<Seq<char>> {
    if path == base {
        Some(Seq::empty())
    } else if base == seq!['/'] {
        Some(path.skip(1))
    } else if starts_with(path, base.push('/')) {
        Some(path.skip(base.len() as int + 1))
    } else {
        None
    }
}

/// What is stripped from a normal path joins back onto the base as the
/// path.
pub proof fn law_strip_prefix_joins_back(path: Seq<char>, base: Seq<char>)
    requires
        is_normal_path(path),
        is_normal_path(base),
        path != base,
        normal_strip_prefix(path, base) is Some,
    ensures
        join_path(base, normal_strip_prefix(path, base).unwrap()) == path,
        normal_strip_prefix(path, base).unwrap().len() > 0,
{
    let rest = normal_strip_prefix(path, base).unwrap();
    if base == seq!['/'] {
        assert(path.len() >= 2);
        assert(!(path[0] == '/' && path[1] == '/'));
        assert(rest[0] == path[1]);
        assert(seq!['/'] + rest =~= path);
    } else {
        let n = base.len() as int;
        assert(path.subrange(0, n + 1) == base.push('/'));
        assert(path.subrange(0, n + 1)[n] == path[n]);
        assert(path[n] == '/');
        if rest.len() == 0 {
            assert(path.len() == n + 1);
            assert(path.last() == '/');
        }
        assert(!(path[n] == '/' && path[n + 1] == '/'));
        assert(rest[0] == path[n + 1]);
        assert(base.len() > 0 && base.last() != '/');
        assert(path =~= base + seq!['/'] + rest) by {
            assert forall|i: int| 0 <= i < n implies path[i] == base[i] by {
                assert(path.subrange(0, n + 1)[i] == path[i]);
            }
        }
    }
}

} // verus!
