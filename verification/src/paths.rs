use vstd::prelude::*;

verus! {

use vstd::string::*;

// A path is a sequence of plain segments; a segment never holds a separator,
// is never empty, and is never one of the two relative markers.

pub open spec fn valid_segment(s: Seq<char>) -> bool {
    &&& s.len() > 0
    &&& !(s.len() == 1 && s[0] == '.')
    &&& !(s.len() == 2 && s[0] == '.' && s[1] == '.')
    &&& forall|i: int| 0 <= i < s.len() ==> s[i] != '/' && s[i] != '\\' && s[i] != '\0'
}

/// The character sequences of a path's segments.
pub open spec fn seg_views(s: Seq<String>) -> Seq<Seq<char>> {
    s.map_values(|x: String| x@)
}

pub open spec fn valid_path(p: Seq<Seq<char>>) -> bool {
    forall|i: int| 0 <= i < p.len() ==> valid_segment(#[trigger] p[i])
}

pub open spec fn is_prefix_of(pre: Seq<Seq<char>>, p: Seq<Seq<char>>) -> bool {
    pre.len() <= p.len() && forall|i: int| 0 <= i < pre.len() ==> pre[i] == p[i]
}

/// Index of the last `.` in a name, if any.
pub open spec fn last_dot(name: Seq<char>) -> Option<int>
    decreases name.len(),
{
    if name.len() == 0 {
        None
    } else if name[name.len() - 1] == '.' {
        Some(name.len() - 1)
    } else {
        last_dot(name.drop_last())
    }
}

/// `name` with its extension replaced by `ext`: everything after the last dot
/// is dropped and `.ext` appended. A name without a dot, or whose only dot is
/// the leading character, has no extension, so `.ext` is appended whole.
pub open spec fn rewrite_ext_spec(name: Seq<char>, ext: Seq<char>) -> Seq<char> {
    match last_dot(name) {
        Some(d) => if d > 0 {
            name.take(d) + seq!['.'] + ext
        } else {
            name + seq!['.'] + ext
        },
        None => name + seq!['.'] + ext,
    }
}

/// A file name that marks a content document: a non-empty stem followed by
/// the markdown extension.
pub open spec fn is_markdown_name(name: Seq<char>) -> bool {
    &&& name.len() > 3
    &&& name[name.len() - 3] == '.'
    &&& name[name.len() - 2] == 'm'
    &&& name[name.len() - 1] == 'd'
}

/// Where a source path routes to: its segments relative to `from`, joined
/// under `to`, the final segment's extension rewritten when `ext` is given.
pub open spec fn route_spec(
    path: Seq<Seq<char>>,
    from: Seq<Seq<char>>,
    to: Seq<Seq<char>>,
    ext: Option<Seq<char>>,
) -> Seq<Seq<char>>
    recommends
        from.len() < path.len(),
{
    let routed = to + path.skip(from.len() as int);
    match ext {
        Some(e) => routed.update(routed.len() - 1, rewrite_ext_spec(path.last(), e)),
        None => routed,
    }
}

/// Law: a routed path starts with the output root, and preserves the source
/// path's structure relative to the source root; only the final segment's
/// extension is rewritten.
pub proof fn lemma_route_preserves_structure(
    path: Seq<Seq<char>>,
    from: Seq<Seq<char>>,
    to: Seq<Seq<char>>,
    ext: Option<Seq<char>>,
)
    requires
        is_prefix_of(from, path),
        from.len() < path.len(),
    ensures
        route_spec(path, from, to, ext).len() == to.len() + path.len() - from.len(),
        forall|i: int|
            0 <= i < to.len() ==> route_spec(path, from, to, ext)[i] == to[i],
        forall|i: int|
            to.len() <= i < to.len() + path.len() - from.len() - 1 ==> route_spec(
                path,
                from,
                to,
                ext,
            )[i] == path[from.len() + i - to.len()],
        route_spec(path, from, to, ext).last() == (match ext {
            Some(e) => rewrite_ext_spec(path.last(), e),
            None => path.last(),
        }),
{
}

pub proof fn lemma_last_dot_md(name: Seq<char>)
    requires
        is_markdown_name(name),
    ensures
        last_dot(name) == Some(name.len() - 3),
{
    reveal_with_fuel(last_dot, 4);
    let n1 = name.drop_last();
    let n2 = n1.drop_last();
    assert(name[name.len() - 1] == 'd');
    assert(last_dot(name) == last_dot(n1));
    assert(n1[n1.len() - 1] == 'm');
    assert(last_dot(n1) == last_dot(n2));
    assert(n2[n2.len() - 1] == '.');
    assert(last_dot(n2) == Some(n2.len() - 1));
}

/// Law: routing with a rewritten extension is injective over markdown
/// documents under one source root: two source paths that route to the same
/// output path are the same path.
pub proof fn lemma_route_injective(
    p1: Seq<Seq<char>>,
    p2: Seq<Seq<char>>,
    from: Seq<Seq<char>>,
    to: Seq<Seq<char>>,
    ext: Seq<char>,
)
    requires
        is_prefix_of(from, p1),
        from.len() < p1.len(),
        is_prefix_of(from, p2),
        from.len() < p2.len(),
        is_markdown_name(p1.last()),
        is_markdown_name(p2.last()),
        route_spec(p1, from, to, Some(ext)) == route_spec(p2, from, to, Some(ext)),
    ensures
        p1 == p2,
{
    let r1 = route_spec(p1, from, to, Some(ext));
    let r2 = route_spec(p2, from, to, Some(ext));
    assert(r1.len() == to.len() + p1.len() - from.len());
    assert(r2.len() == to.len() + p2.len() - from.len());
    assert(p1.len() == p2.len());
    let n = p1.len();
    lemma_last_dot_md(p1.last());
    lemma_last_dot_md(p2.last());
    let a1 = p1.last();
    let a2 = p2.last();
    let w1 = rewrite_ext_spec(a1, ext);
    let w2 = rewrite_ext_spec(a2, ext);
    assert(w1 == r1.last());
    assert(w2 == r2.last());
    assert(w1.len() == a1.len() - 3 + 1 + ext.len());
    assert(w2.len() == a2.len() - 3 + 1 + ext.len());
    assert(a1.len() == a2.len());
    assert forall|i: int| 0 <= i < a1.len() implies a1[i] == a2[i] by {
        if i < a1.len() - 3 {
            assert(w1[i] == a1.take(a1.len() - 3)[i]);
            assert(w2[i] == a2.take(a2.len() - 3)[i]);
        } else if i == a1.len() - 3 {
            assert(a1[i] == '.' && a2[i] == '.');
        } else if i == a1.len() - 2 {
            assert(a1[i] == 'm' && a2[i] == 'm');
        } else {
            assert(a1[i] == 'd' && a2[i] == 'd');
        }
    }
    assert(a1 =~= a2);
    assert forall|i: int| 0 <= i < n implies p1[i] == p2[i] by {
        if i < from.len() {
            assert(p1[i] == from[i] && p2[i] == from[i]);
        } else if i < n - 1 {
            assert(r1[to.len() + i - from.len()] == p1[i]);
            assert(r2[to.len() + i - from.len()] == p2[i]);
        } else {
            assert(p1[i] == a1 && p2[i] == a2);
        }
    }
    assert(p1 =~= p2);
}

/// The tags that can stand as an output path segment; the rest are dropped
/// so that no tag can escape the output root or collide through separators.
pub open spec fn valid_tags(s: Seq<Seq<char>>) -> Seq<Seq<char>>
    decreases s.len(),
{
    if s.len() == 0 {
        Seq::empty()
    } else {
        let p = valid_tags(s.drop_last());
        if valid_segment(s.last()) {
            p.push(s.last())
        } else {
            p
        }
    }
}

pub proof fn lemma_valid_tags_valid(s: Seq<Seq<char>>)
    ensures
        forall|k: int|
            0 <= k < valid_tags(s).len() ==> valid_segment(#[trigger] valid_tags(s)[k]),
    decreases s.len(),
{
    if s.len() > 0 {
        lemma_valid_tags_valid(s.drop_last());
        let p = valid_tags(s.drop_last());
        if valid_segment(s.last()) {
            assert forall|k: int|
                0 <= k < valid_tags(s).len() implies valid_segment(
                #[trigger] valid_tags(s)[k],
            ) by {
                if k < p.len() {
                    assert(valid_tags(s)[k] == p[k]);
                } else {
                    assert(valid_tags(s)[k] == s.last());
                }
            }
        }
    }
}

pub fn is_markdown_name_exec(name: &str) -> (r: bool)
    ensures
        r == is_markdown_name(name@),
{
    let n = name.unicode_len();
    n > 3 && name.get_char(n - 3) == '.' && name.get_char(n - 2) == 'm' && name.get_char(n - 1)
        == 'd'
}

/// Character-wise string equality.
pub fn str_eq(a: &str, b: &str) -> (r: bool)
    ensures
        r == (a@ == b@),
{
    let n = a.unicode_len();
    if n != b.unicode_len() {
        return false;
    }
    let mut i: usize = 0;
    while i < n
        invariant
            n == a@.len(),
            n == b@.len(),
            i <= n,
            forall|j: int| 0 <= j < i ==> a@[j] == b@[j],
        decreases n - i,
    {
        if a.get_char(i) != b.get_char(i) {
            return false;
        }
        i += 1;
    }
    proof {
        assert(a@ =~= b@);
    }
    true
}

pub fn is_valid_segment(s: &str) -> (r: bool)
    ensures
        r == valid_segment(s@),
{
    let n = s.unicode_len();
    if n == 0 {
        return false;
    }
    if n == 1 && s.get_char(0) == '.' {
        return false;
    }
    if n == 2 && s.get_char(0) == '.' && s.get_char(1) == '.' {
        return false;
    }
    let mut i: usize = 0;
    while i < n
        invariant
            n == s@.len(),
            i <= n,
            forall|j: int| 0 <= j < i ==> s@[j] != '/' && s@[j] != '\\' && s@[j] != '\0',
        decreases n - i,
    {
        let c = s.get_char(i);
        if c == '/' || c == '\\' || c == '\0' {
            return false;
        }
        i += 1;
    }
    true
}

pub fn is_valid_path(p: &Vec<String>) -> (r: bool)
    ensures
        r == valid_path(seg_views(p@)),
{
    let mut i: usize = 0;
    while i < p.len()
        invariant
            i <= p@.len(),
            forall|j: int| 0 <= j < i ==> valid_segment(#[trigger] seg_views(p@)[j]),
        decreases p@.len() - i,
    {
        if !is_valid_segment(p[i].as_str()) {
            proof {
                assert(!valid_segment(seg_views(p@)[i as int]));
            }
            return false;
        }
        i += 1;
    }
    true
}

pub fn is_path_prefix(pre: &Vec<String>, p: &Vec<String>) -> (r: bool)
    ensures
        r == is_prefix_of(seg_views(pre@), seg_views(p@)),
{
    if pre.len() > p.len() {
        return false;
    }
    let mut i: usize = 0;
    while i < pre.len()
        invariant
            pre@.len() <= p@.len(),
            i <= pre@.len(),
            forall|j: int| 0 <= j < i ==> seg_views(pre@)[j] == seg_views(p@)[j],
        decreases pre@.len() - i,
    {
        if !str_eq(pre[i].as_str(), p[i].as_str()) {
            proof {
                assert(seg_views(pre@)[i as int] != seg_views(p@)[i as int]);
            }
            return false;
        }
        i += 1;
    }
    true
}

/// Relies on `pathdiff::diff_paths`: for two relative paths made of plain,
/// separator-free components where `base`'s components are a prefix of
/// `path`'s, it returns exactly the components of `path` that follow `base`.
#[verifier::external_body]
pub(crate) fn diff_segments(path: &Vec<String>, base: &Vec<String>) -> (r: Option<Vec<String>>)
    requires
        valid_path(seg_views(path@)),
        valid_path(seg_views(base@)),
    ensures
        is_prefix_of(seg_views(base@), seg_views(path@)) ==> (match r {
            Some(rel) => seg_views(rel@) == seg_views(path@).skip(base@.len() as int),
            None => false,
        }),
{
    let p: std::path::PathBuf = path.iter().collect();
    let b: std::path::PathBuf = base.iter().collect();
    pathdiff::diff_paths(&p, &b).map(|d| {
        d.components().map(|c| c.as_os_str().to_string_lossy().into_owned()).collect()
    })
}

pub proof fn lemma_last_dot_bound(name: Seq<char>)
    ensures
        (match last_dot(name) {
            Some(d) => 0 <= d < name.len(),
            None => true,
        }),
    decreases name.len(),
{
    if name.len() > 0 && name[name.len() - 1] != '.' {
        lemma_last_dot_bound(name.drop_last());
    }
}

fn last_dot_upto(name: &str, k: usize) -> (r: Option<usize>)
    requires
        k <= name@.len(),
    ensures
        (match r {
            Some(i) => last_dot(name@.take(k as int)) == Some(i as int),
            None => last_dot(name@.take(k as int)) is None,
        }),
    decreases k,
{
    if k == 0 {
        proof {
            assert(name@.take(0) =~= Seq::<char>::empty());
        }
        None
    } else {
        let c = name.get_char(k - 1);
        if c == '.' {
            Some(k - 1)
        } else {
            let r = last_dot_upto(name, k - 1);
            proof {
                assert(name@.take(k as int).drop_last() =~= name@.take(k as int - 1));
            }
            r
        }
    }
}

pub fn rewrite_extension(name: &str, ext: &str) -> (r: String)
    ensures
        r@ == rewrite_ext_spec(name@, ext@),
{
    let n = name.unicode_len();
    proof {
        assert(name@.take(n as int) =~= name@);
    }
    let d = last_dot_upto(name, n);
    proof {
        lemma_last_dot_bound(name@);
        reveal_strlit(".");
        assert("."@ =~= seq!['.']);
    }
    match d {
        Some(i) if i > 0 => {
            let stem = name.substring_char(0, i);
            let mut out = String::from_str(stem);
            out.append(".");
            out.append(ext);
            proof {
                assert(out@ =~= name@.take(i as int) + seq!['.'] + ext@);
            }
            out
        },
        _ => {
            let mut out = String::from_str(name);
            out.append(".");
            out.append(ext);
            proof {
                assert(out@ =~= name@ + seq!['.'] + ext@);
            }
            out
        },
    }
}

} // verus!
